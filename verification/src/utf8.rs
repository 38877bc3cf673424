//! Decoding of possibly invalid UTF-8 text, one code point at a time.
//!
//! The scanner follows the substitution rule used by web browsers: a stray
//! continuation byte or an invalid lead byte consumes one byte; a truncated or
//! overlong sequence consumes the lead byte and the well-formed continuation
//! bytes that follow it; lead bytes `0xF0..=0xF7` begin four-byte sequences.

use vstd::prelude::*;
use vstd::slice::slice_subrange;
use vstd::string::StringSliceAdditionalSpecFns;
use vstd::utf8::{
    decode_first_codepoint, decode_first_scalar, is_continuation_byte, is_leading_byte_width_1,
    is_leading_byte_width_2, is_leading_byte_width_3, is_leading_byte_width_4, is_scalar,
    length_of_first_scalar, not_overlong_encoding, not_surrogate, partial_valid_utf8,
    partial_valid_utf8_extend, valid_first_scalar,
    valid_leading_and_continuation_bytes_first_codepoint, valid_utf8,
};

verus! {

/// Number of continuation bytes that the given lead byte announces.
pub open spec fn continuation_count(lead: u8) -> int {
    if is_leading_byte_width_2(lead) {
        1
    } else if is_leading_byte_width_3(lead) {
        2
    } else if is_leading_byte_width_4(lead) {
        3
    } else {
        0
    }
}

/// Smallest code point that a sequence led by the given byte may encode
/// without being overlong.
pub open spec fn min_codepoint(lead: u8) -> u32 {
    if is_leading_byte_width_2(lead) {
        0x80
    } else if is_leading_byte_width_3(lead) {
        0x800
    } else {
        0x10000
    }
}

/// Length of the run of well-formed continuation bytes directly after the
/// lead byte `s[0]`, counted up to `want`.
pub open spec fn continuation_run(s: Seq<u8>, want: int) -> int
    decreases want,
{
    if want <= 0 {
        0
    } else if continuation_run(s, want - 1) == want - 1 && want < s.len() && is_continuation_byte(
        s[want],
    ) {
        want
    } else {
        continuation_run(s, want - 1)
    }
}

/// What one decoding step returns on the given bytes: the decoded character,
/// if the bytes begin with a well-formed scalar encoding, and the number of
/// bytes consumed either way.
pub open spec fn scan_character(s: Seq<u8>) -> (Option<char>, int) {
    if s.len() == 0 {
        (None, 0)
    } else {
        let b1 = s[0];
        if is_leading_byte_width_1(b1) {
            (Some(b1 as char), 1)
        } else if !is_leading_byte_width_2(b1) && !is_leading_byte_width_3(b1)
            && !is_leading_byte_width_4(b1) {
            (None, 1)
        } else {
            let n = continuation_count(b1);
            let run = continuation_run(s, n);
            if run < n {
                (None, run + 1)
            } else {
                let cp = decode_first_codepoint(s);
                if min_codepoint(b1) <= cp && is_scalar(cp) {
                    (Some(cp as char), n + 1)
                } else {
                    (None, n + 1)
                }
            }
        }
    }
}

proof fn lemma_continuation_run_bounds(s: Seq<u8>, want: int)
    requires
        s.len() >= 1,
        want >= 0,
    ensures
        0 <= continuation_run(s, want) <= want,
        continuation_run(s, want) <= s.len() - 1,
        forall|j: int| 0 <= j < continuation_run(s, want) ==> is_continuation_byte(#[trigger] s[1 + j]),
        continuation_run(s, want) < want ==> {
            let r = continuation_run(s, want);
            1 + r >= s.len() || !is_continuation_byte(s[1 + r])
        },
    decreases want,
{
    if want > 0 {
        lemma_continuation_run_bounds(s, want - 1);
    }
}

/// The scanner consumes at least one byte of non-empty input and never more
/// than four, nor more than the input holds.
pub proof fn lemma_scan_character_len(s: Seq<u8>)
    ensures
        s.len() == 0 ==> scan_character(s).1 == 0,
        s.len() > 0 ==> 1 <= scan_character(s).1 <= 4,
        scan_character(s).1 <= s.len(),
{
    if s.len() > 0 {
        let b1 = s[0];
        let n = continuation_count(b1);
        if n > 0 {
            lemma_continuation_run_bounds(s, n);
        }
    }
}

/// The scanner succeeds exactly on the byte sequences that begin with a
/// well-formed scalar encoding, and then returns that scalar and its length.
pub proof fn lemma_scan_character_valid(s: Seq<u8>)
    ensures
        scan_character(s).0 is Some <==> valid_first_scalar(s),
        valid_first_scalar(s) ==> scan_character(s) == (
            Some(decode_first_scalar(s) as char),
            length_of_first_scalar(s),
        ),
{
    if s.len() > 0 {
        let b1 = s[0];
        let n = continuation_count(b1);
        if is_leading_byte_width_1(b1) {
            assert(b1 <= 0x7f ==> (b1 & 0x7f) == b1) by (bit_vector);
            assert(decode_first_codepoint(s) == b1 as u32);
            assert((b1 as u32) as char == b1 as char);
        } else if n > 0 {
            lemma_continuation_run_bounds(s, n);
            let run = continuation_run(s, n);
            if run == n {
                assert(is_continuation_byte(s[1int + 0]));
                if n >= 2 {
                    assert(is_continuation_byte(s[1int + 1]));
                }
                if n >= 3 {
                    assert(is_continuation_byte(s[1int + 2]));
                }
                assert(valid_leading_and_continuation_bytes_first_codepoint(s));
                let cp = decode_first_codepoint(s);
                if n == 1 {
                    let (c1, c2) = (s[0], s[1]);
                    assert(((((c1 & 0x1f) as u32) << 6) | ((c2 & 0x3f) as u32)) <= 0x7ff)
                        by (bit_vector);
                    assert(cp <= 0x7ff);
                } else if n == 2 {
                    let (c1, c2, c3) = (s[0], s[1], s[2]);
                    assert(((((c1 & 0x0f) as u32) << 12) | (((c2 & 0x3f) as u32) << 6) | ((c3
                        & 0x3f) as u32)) <= 0xffff) by (bit_vector);
                    assert(cp <= 0xffff);
                }
                // With the bounds above, being overlong-free and outside the
                // surrogate range is the same as passing the scanner's check.
                assert((min_codepoint(b1) <= cp && is_scalar(cp)) <==> (not_overlong_encoding(
                    cp,
                    n + 1,
                ) && not_surrogate(cp)));
            } else {
                // The run stopped short, so some announced continuation byte is
                // missing and no disjunct of well-formedness can hold.
                assert(!valid_leading_and_continuation_bytes_first_codepoint(s)) by {
                    if valid_leading_and_continuation_bytes_first_codepoint(s) {
                        if run == 0 {
                            assert(is_continuation_byte(s[1int + 0]));
                        } else if run == 1 {
                            assert(is_continuation_byte(s[1int + 1]));
                        } else {
                            assert(is_continuation_byte(s[1int + 2]));
                        }
                        assert(false);
                    }
                }
            }
        }
    }
}

/// Relies on char::from_u32: returns the character with the given code point,
/// or `None` when the value is a surrogate or larger than 0x10FFFF.
pub assume_specification[ char::from_u32 ](v: u32) -> (r: Option<char>)
    ensures
        r is Some <==> is_scalar(v),
        r matches Some(c) ==> c as u32 == v && c == v as char,
;

/// Parse a single Unicode code point from a possibly invalid stream of UTF-8
/// data. Returns the decoded character and the character length in bytes.
///
/// This will return the number of bytes for invalid sequences in the same way
/// that a web browser does when parsing UTF-8 HTML.
pub fn parse_character(text: &[u8]) -> (r: (Option<char>, usize))
    ensures
        r.0 == scan_character(text@).0,
        r.1 as int == scan_character(text@).1,
{
    if text.len() == 0 {
        return (None, 0);
    }
    let b1 = text[0];
    if b1 < 0x80 {
        return (Some(b1 as char), 1);
    }
    let n: usize = if 0xc0 <= b1 && b1 <= 0xdf {
        1
    } else if 0xe0 <= b1 && b1 <= 0xef {
        2
    } else if 0xf0 <= b1 && b1 <= 0xf7 {
        3
    } else {
        return (None, 1);
    };
    proof {
        lemma_continuation_run_bounds(text@, n as int);
    }
    let mut i: usize = 0;
    while i < n
        invariant
            text@.len() >= 1,
            b1 == text@[0],
            1 <= n <= 3,
            0 <= i <= n,
            n == continuation_count(text@[0]),
            i as int <= continuation_run(text@, n as int),
            forall|j: int| 0 <= j < i ==> is_continuation_byte(#[trigger] text@[1 + j]),
        decreases n - i,
    {
        if 1 + i >= text.len() || !(0x80 <= text[1 + i] && text[1 + i] <= 0xbf) {
            proof {
                lemma_continuation_run_bounds(text@, n as int);
                // The run stops exactly here.
                assert(continuation_run(text@, n as int) <= i) by {
                    if continuation_run(text@, n as int) > i {
                        assert(is_continuation_byte(text@[1 + i]));
                    }
                }
            }
            return (None, i + 1);
        }
        proof {
            lemma_continuation_run_bounds(text@, n as int);
            let run = continuation_run(text@, n as int);
            if run == i {
                // The run cannot stop at a well-formed continuation byte.
                assert(1 + run < text@.len() && is_continuation_byte(text@[1 + run]));
                assert(false);
            }
        }
        i = i + 1;
    }
    let cp: u32 = if n == 1 {
        (((b1 & 0x1f) as u32) << 6) | ((text[1] & 0x3f) as u32)
    } else if n == 2 {
        (((b1 & 0x0f) as u32) << 12) | (((text[1] & 0x3f) as u32) << 6) | ((text[2] & 0x3f) as u32)
    } else {
        (((b1 & 0x07) as u32) << 18) | (((text[1] & 0x3f) as u32) << 12) | (((text[2]
            & 0x3f) as u32) << 6) | ((text[3] & 0x3f) as u32)
    };
    proof {
        lemma_continuation_run_bounds(text@, n as int);
        assert(cp == decode_first_codepoint(text@));
    }
    let mincp: u32 = if n == 1 {
        0x80
    } else if n == 2 {
        0x800
    } else {
        0x10000
    };
    if cp < mincp {
        return (None, n + 1);
    }
    (char::from_u32(cp), n + 1)
}

/// Relies on std::str::from_utf8: returns `Ok` exactly on valid UTF-8, with a
/// string over the same bytes.
#[verifier::external_body]
pub fn str_from_utf8(bytes: &[u8]) -> (r: &str)
    requires
        valid_utf8(bytes@),
    ensures
        r.spec_bytes() == bytes@,
{
    std::str::from_utf8(bytes).unwrap()
}

/// The characters that a sequence of ASCII bytes spells, byte for byte.
pub open spec fn ascii_chars(s: Seq<u8>) -> Seq<char> {
    Seq::new(s.len(), |i: int| s[i] as char)
}

/// Relies on String::from_utf8: ASCII bytes become a string of exactly those
/// characters.
#[verifier::external_body]
pub fn string_from_ascii(bytes: Vec<u8>) -> (r: String)
    requires
        forall|i: int| 0 <= i < bytes@.len() ==> #[trigger] bytes@[i] <= 0x7f,
    ensures
        r@ == ascii_chars(bytes@),
{
    String::from_utf8(bytes).unwrap()
}

/// A segment of valid or invalid UTF-8 text.
pub type UTF8Segment<'a> = Result<&'a str, &'a [u8]>;

/// Walks over segments of UTF-8 text that may contain errors, returning
/// maximal valid stretches and minimal invalid ones in their original order.
pub struct UTF8Segments<'a>(pub &'a [u8]);

impl<'a> UTF8Segments<'a> {
    /// Return the next segment, or `None` at the end of the text.
    ///
    /// A returned segment is never empty; an `Ok` segment holds valid UTF-8
    /// over exactly the bytes it came from, an `Err` segment holds the bytes
    /// of one ill-formed step of the scanner.
    pub fn next(&mut self) -> (r: Option<UTF8Segment<'a>>)
        ensures
            r is None <==> old(self).0@.len() == 0,
            r matches Some(seg) ==> {
                let consumed = match seg {
                    Ok(s) => s.spec_bytes(),
                    Err(b) => b@,
                };
                &&& consumed.len() > 0
                &&& old(self).0@ == consumed + final(self).0@
                &&& (seg matches Ok(s) ==> valid_utf8(s.spec_bytes()) && (final(self).0@.len() > 0
                    ==> !valid_first_scalar(final(self).0@)))
                &&& (seg matches Err(b) ==> !valid_first_scalar(b@) && b@.len()
                    == scan_character(old(self).0@).1)
            },
    {
        let text = self.0;
        if text.len() == 0 {
            return None;
        }
        let (first, n) = parse_character(text);
        proof {
            lemma_scan_character_len(text@);
            lemma_scan_character_valid(text@);
        }
        match first {
            None => {
                self.0 = slice_subrange(text, n, text.len());
                let bad = slice_subrange(text, 0, n);
                proof {
                    assert(text@ == bad@ + self.0@);
                }
                Some(Err(bad))
            },
            Some(_) => {
                let mut end: usize = n;
                proof {
                    assert(text@.subrange(0, n as int) == text@.subrange(
                        0,
                        length_of_first_scalar(text@),
                    ));
                    assert(partial_valid_utf8(text@, 0)) by {
                        assert(text@.subrange(0, 0) =~= Seq::<u8>::empty());
                    }
                    partial_valid_utf8_extend(text@, 0);
                }
                loop
                    invariant
                        0 < end <= text@.len(),
                        partial_valid_utf8(text@, end as int),
                    ensures
                        0 < end <= text@.len(),
                        partial_valid_utf8(text@, end as int),
                        end as int == text@.len() || !valid_first_scalar(
                            text@.subrange(end as int, text@.len() as int),
                        ),
                    decreases text@.len() - end,
                {
                    if end >= text.len() {
                        break ;
                    }
                    let rest = slice_subrange(text, end, text.len());
                    let (c, m) = parse_character(rest);
                    proof {
                        lemma_scan_character_len(rest@);
                        lemma_scan_character_valid(rest@);
                    }
                    if c.is_none() {
                        break ;
                    }
                    proof {
                        partial_valid_utf8_extend(text@, end as int);
                    }
                    end = end + m;
                }
                self.0 = slice_subrange(text, end, text.len());
                let good = slice_subrange(text, 0, end);
                let s = str_from_utf8(good);
                proof {
                    assert(text@ == s.spec_bytes() + self.0@);
                }
                Some(Ok(s))
            },
        }
    }
}

} // verus!
