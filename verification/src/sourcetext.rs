//! Byte-offset to line/column decoding for a single source input.
//!
//! The decoder keeps a sorted index of line start offsets, treating CR, LF,
//! and CRLF each as one line break.

use vstd::prelude::*;
use vstd::slice::slice_subrange;

use crate::sourcepos::{Pos, Span};

verus! {

/// A decoded position within a source file.
#[derive(Clone, Copy, Debug, PartialEq, Eq, Structural)]
pub struct TextPos {
    /// Line number, 0 indexed.
    pub line: u32,
    /// Byte offset within line.
    pub byte: u32,
}

/// True when byte offset `i` begins a line of `s`, counting what follows a
/// line break as known only up to offset `n`: the offset after a LF, or
/// after a CR that no LF follows within the known text.
pub open spec fn line_start_upto(s: Seq<u8>, i: int, n: int) -> bool {
    ||| i == 0
    ||| (1 <= i <= n && s[i - 1] == 10)
    ||| (1 <= i <= n && s[i - 1] == 13 && (i == n || s[i] != 10))
}

/// True when byte offset `i` begins a line of `s`.
pub open spec fn line_start(s: Seq<u8>, i: int) -> bool {
    line_start_upto(s, i, s.len() as int)
}

/// In a strictly increasing sequence each entry is at least its index above
/// the first entry.
proof fn lemma_index_lower_bound(s: Seq<u32>, k: int)
    requires
        forall|a: int, b: int| 0 <= a < b < s.len() ==> s[a] < s[b],
        0 <= k < s.len(),
    ensures
        s[k] - s[0] >= k,
    decreases k,
{
    if k > 0 {
        lemma_index_lower_bound(s, k - 1);
        assert(s[k - 1] < s[k]);
    }
}

/// A decoder for source positions within a single source file.
pub struct SourceText<'a> {
    text: &'a [u8],
    lines: Vec<u32>,  // Start offset of each line.
    span: Span,
}

impl<'a> SourceText<'a> {
    /// The text being decoded.
    pub closed spec fn spec_text(&self) -> Seq<u8> {
        self.text@
    }

    /// The line start offsets, in increasing order.
    pub closed spec fn spec_lines(&self) -> Seq<u32> {
        self.lines@
    }

    /// The index is sorted, starts at offset zero, stays within the text,
    /// and holds exactly the line start offsets.
    pub closed spec fn wf(&self) -> bool {
        &&& self.lines@.len() >= 1
        &&& self.lines@[0] == 0
        &&& forall|a: int, b: int|
            0 <= a < b < self.lines@.len() ==> self.lines@[a] < self.lines@[b]
        &&& forall|k: int|
            0 <= k < self.lines@.len() ==> #[trigger] self.lines@[k] <= self.text@.len()
        &&& forall|k: int|
            0 <= k < self.lines@.len() ==> line_start(self.text@, #[trigger] self.lines@[k] as int)
        &&& forall|i: int|
            0 <= i <= self.text@.len() && line_start(self.text@, i) ==> exists|k: int|
                0 <= k < self.lines@.len() && #[trigger] self.lines@[k] == i
        &&& self.text@.len() + 1 <= u32::MAX
        &&& self.span.start.0 == 1
        &&& self.span.end.0 == self.text@.len() + 1
    }

    /// Create a new source location decoder for a file with the given
    /// contents. Its index holds exactly the line start offsets of the text.
    #[verifier::loop_isolation(false)]
    pub fn new(text: &'a [u8]) -> (r: Self)
        requires
            text@.len() + 1 <= u32::MAX,
        ensures
            r.wf(),
            r.spec_text() == text@,
    {
        let mut lines: Vec<u32> = Vec::new();
        lines.push(0);
        let mut n: usize = 0;
        let len = text.len();
        proof {
            assert forall|i: int| #![trigger line_start_upto(text@, i, 0)]
                0 <= i <= 0 && line_start_upto(text@, i, 0) implies exists|k: int|
                0 <= k < lines@.len() && #[trigger] lines@[k] == i by {
                assert(lines@[0] == 0);
            }
        }
        while n < len
            invariant
                0 <= n <= len,
                lines@.len() >= 1,
                lines@[0] == 0,
                forall|a: int, b: int| 0 <= a < b < lines@.len() ==> lines@[a] < lines@[b],
                forall|k: int| 0 <= k < lines@.len() ==> #[trigger] lines@[k] <= n,
                forall|k: int|
                    0 <= k < lines@.len() ==> line_start_upto(
                        text@,
                        #[trigger] lines@[k] as int,
                        n as int,
                    ),
                forall|i: int| #![trigger line_start_upto(text@, i, n as int)]
                    0 <= i <= n && line_start_upto(text@, i, n as int) ==> exists|k: int|
                        0 <= k < lines@.len() && #[trigger] lines@[k] == i,
            decreases len - n,
        {
            let c = text[n];
            let ghost prev = lines@;
            let ghost popped = c == 10 && n > 0 && text@[n - 1] == 13;
            if c == 10 {
                // An LF that follows a CR closes the same break: drop the
                // provisional start the CR opened.
                if n > 0 && text[n - 1] == 13 {
                    let _ = lines.pop();
                    proof {
                        // The top of the index is the provisional start the
                        // CR at the previous byte opened.
                        assert(prev[prev.len() - 1] as int == n) by {
                            assert(line_start_upto(
                                text@,
                                prev[prev.len() - 1] as int,
                                n as int,
                            ));
                            if (prev[prev.len() - 1] as int) < n {
                                assert(line_start_upto(text@, n as int, n as int));
                                let k0 = choose|k0: int|
                                    0 <= k0 < prev.len() && #[trigger] prev[k0] == n;
                                assert(prev[k0] <= prev[prev.len() - 1]);
                            }
                        }
                    }
                }
                lines.push(n as u32 + 1);
            } else if c == 13 {
                lines.push(n as u32 + 1);
            }
            proof {
                // Soundness: every kept entry still starts a line once the
                // byte at `n` is known.
                assert forall|k: int|
                    0 <= k < lines@.len() implies line_start_upto(
                    text@,
                    #[trigger] lines@[k] as int,
                    n + 1,
                ) by {
                    let v = lines@[k] as int;
                    if v == n + 1 {
                    } else {
                        if popped {
                            assert(lines@[k] == prev[k]);
                        }
                        assert(line_start_upto(text@, v, n as int));
                        if v == n {
                            assert(!popped);
                        }
                    }
                }
                // Completeness: every line start known at `n + 1` is in the
                // index.
                assert forall|i: int| #![trigger line_start_upto(text@, i, n + 1)]
                    0 <= i <= n + 1 && line_start_upto(text@, i, n + 1) implies exists|k: int|
                    0 <= k < lines@.len() && #[trigger] lines@[k] == i by {
                    if i == n + 1 {
                        assert(c == 10 || c == 13);
                        assert(lines@[lines@.len() - 1] == i);
                    } else {
                        assert(line_start_upto(text@, i, n as int));
                        let k0 = choose|k0: int| 0 <= k0 < prev.len() && #[trigger] prev[k0] == i;
                        if popped {
                            assert(i != n);
                            assert(k0 < prev.len() - 1);
                            assert(lines@[k0] == i);
                        } else {
                            assert(lines@[k0] == i);
                        }
                    }
                }
            }
            n = n + 1;
        }
        SourceText {
            text,
            lines,
            span: Span { start: Pos(1), end: Pos(len as u32 + 1) },
        }
    }

    /// Convert a one-based byte offset to a line number and byte offset
    /// within the line: the line whose start is nearest at or before the
    /// offset. Positions outside the text give nothing.
    #[verifier::loop_isolation(false)]
    pub fn lookup(&self, pos: Pos) -> (r: Option<TextPos>)
        requires
            self.wf(),
        ensures
            r is None <==> (pos.0 < 1 || pos.0 > self.spec_text().len() + 1),
            r matches Some(tp) ==> {
                let offset = pos.0 - 1;
                &&& 0 <= tp.line < self.spec_lines().len()
                &&& self.spec_lines()[tp.line as int] <= offset
                &&& tp.line + 1 < self.spec_lines().len() ==> offset < self.spec_lines()[
                    tp.line as int + 1
                ]
                &&& tp.byte == offset - self.spec_lines()[tp.line as int]
            },
    {
        if pos.0 < 1 || pos.0 > self.text.len() as u32 + 1 {
            return None;
        }
        let offset = pos.0 - 1;
        // Binary search for the greatest line start at or before the offset.
        let mut lo: usize = 0;
        let mut hi: usize = self.lines.len();
        while hi - lo > 1
            invariant
                0 <= lo < hi <= self.spec_lines().len(),
                self.spec_lines()[lo as int] <= offset,
                hi < self.spec_lines().len() ==> offset < self.spec_lines()[hi as int],
            decreases hi - lo,
        {
            let mid = lo + (hi - lo) / 2;
            if self.lines[mid] <= offset {
                lo = mid;
            } else {
                hi = mid;
            }
        }
        proof {
            lemma_index_lower_bound(self.lines@, lo as int);
        }
        Some(TextPos { line: lo as u32, byte: offset - self.lines[lo] })
    }

    /// Get the contents of the given zero-indexed line. The line break is
    /// not included. Indexes past the last line give the empty slice.
    pub fn line(&self, index: u32) -> (r: &'a [u8])
        requires
            self.wf(),
        ensures
            index as int >= self.spec_lines().len() ==> r@ == Seq::<u8>::empty(),
            index as int == self.spec_lines().len() - 1 ==> r@ == self.spec_text().subrange(
                self.spec_lines()[index as int] as int,
                self.spec_text().len() as int,
            ),
            (index as int) < self.spec_lines().len() - 1 ==> {
                let start = self.spec_lines()[index as int] as int;
                let next = self.spec_lines()[index as int + 1] as int;
                let cut = if self.spec_text()[next - 1] == 10 {
                    if next - 2 >= start && self.spec_text()[next - 2] == 13 {
                        next - 2
                    } else {
                        next - 1
                    }
                } else if self.spec_text()[next - 1] == 13 {
                    next - 1
                } else {
                    next
                };
                r@ == self.spec_text().subrange(start, cut)
            },
    {
        let i = index as usize;
        if i >= self.lines.len() {
            let empty = slice_subrange(self.text, 0, 0);
            proof {
                assert(empty@ =~= Seq::<u8>::empty());
            }
            return empty;
        }
        let start = self.lines[i] as usize;
        if i + 1 == self.lines.len() {
            return slice_subrange(self.text, start, self.text.len());
        }
        let next = self.lines[i + 1] as usize;
        proof {
            // Successive line starts are separated by the break bytes that
            // end the earlier line, so the byte before the next start is a
            // break byte.
            assert(line_start(self.text@, next as int));
        }
        let cut = if self.text[next - 1] == 10 {
            if next >= 2 && start <= next - 2 && self.text[next - 2] == 13 {
                next - 2
            } else {
                next - 1
            }
        } else {
            next - 1
        };
        slice_subrange(self.text, start, cut)
    }
}

} // verus!
