//! The shape of command-line arguments.
//!
//! A flag is `-name`, `--name` or `-name=value`; `--` alone ends flag
//! processing; anything else is positional. Flag names hold letters, digits,
//! `-` and `_`, and may not start or end with `-`. Reading the actual
//! arguments from the process happens outside the library; this module only
//! decides what each argument is.

use vstd::prelude::*;
use vstd::slice::slice_subrange;
use vstd::string::StringSliceAdditionalSpecFns;

use crate::note::Note;

verus! {

/// What one argument is.
#[derive(Debug)]
pub enum ArgShape {
    /// A positional argument.
    Positional,
    /// The `--` argument, which ends flag processing.
    EndOfFlags,
    /// A named option, `-name` or `-name=value`.
    Named { name: Vec<u8>, value: Option<Vec<u8>> },
    /// A flag whose name is malformed.
    Invalid,
}

/// True if the byte may appear in a flag name.
pub open spec fn spec_is_arg_name(c: u8) -> bool {
    (97 <= c <= 122) || (65 <= c <= 90) || (48 <= c <= 57) || c == 45 || c == 95
}

/// Return true if the byte may appear in a flag name.
pub fn is_arg_name(c: u8) -> (r: bool)
    ensures
        r == spec_is_arg_name(c),
{
    (97 <= c && c <= 122) || (65 <= c && c <= 90) || (48 <= c && c <= 57) || c == 45 || c == 95
}

/// First index at or after `i` that holds the byte `c`, or the length.
pub open spec fn find_byte(s: Seq<u8>, i: int, c: u8) -> int
    decreases s.len() - i,
{
    if i < 0 || i >= s.len() || s[i] == c {
        i
    } else {
        find_byte(s, i + 1, c)
    }
}

proof fn lemma_find_byte(s: Seq<u8>, i: int, c: u8)
    requires
        0 <= i <= s.len(),
    ensures
        i <= find_byte(s, i, c) <= s.len(),
        forall|k: int| i <= k < find_byte(s, i, c) ==> #[trigger] s[k] != c,
        find_byte(s, i, c) < s.len() ==> s[find_byte(s, i, c)] == c,
    decreases s.len() - i,
{
    if i < s.len() && s[i] != c {
        lemma_find_byte(s, i + 1, c);
    }
}

/// The body of a flag: what follows one dash, or two.
pub open spec fn spec_flag_body(arg: Seq<u8>) -> Seq<u8> {
    if arg[1] != 45 {
        arg.subrange(1, arg.len() as int)
    } else {
        arg.subrange(2, arg.len() as int)
    }
}

/// True when the bytes form a well-formed flag name.
pub open spec fn spec_name_ok(name: Seq<u8>) -> bool {
    &&& name.len() > 0
    &&& name[0] != 45
    &&& name[name.len() - 1] != 45
    &&& forall|k: int| 0 <= k < name.len() ==> spec_is_arg_name(#[trigger] name[k])
}

/// Decide what one argument is.
///
/// Anything shorter than two bytes or without a leading dash is positional;
/// `--` alone ends flag processing; otherwise the body after the dashes
/// splits at the first `=` into a name, which must be well formed, and an
/// optional value.
#[verifier::loop_isolation(false)]
pub fn parse_arg(arg: &[u8]) -> (r: ArgShape)
    ensures
        (r is Positional) <==> (arg@.len() < 2 || arg@[0] != 45),
        (r is EndOfFlags) <==> (arg@.len() == 2 && arg@[0] == 45 && arg@[1] == 45),
        (match r {
            ArgShape::Named { name, value } => {
                let body = spec_flag_body(arg@);
                let eq = find_byte(body, 0, 61);
                &&& name@ == body.subrange(0, eq)
                &&& spec_name_ok(name@)
                &&& (match value {
                    Some(v) => eq < body.len() && v@ == body.subrange(eq + 1, body.len() as int),
                    None => eq == body.len(),
                })
            },
            _ => true,
        }),
        (r is Invalid) ==> !spec_name_ok(
            spec_flag_body(arg@).subrange(0, find_byte(spec_flag_body(arg@), 0, 61)),
        ),
{
    if arg.len() < 2 || arg[0] != 45 {
        return ArgShape::Positional;
    }
    let body: &[u8] = if arg[1] != 45 {
        slice_subrange(arg, 1, arg.len())
    } else if arg.len() == 2 {
        return ArgShape::EndOfFlags;
    } else {
        slice_subrange(arg, 2, arg.len())
    };
    proof {
        lemma_find_byte(body@, 0, 61);
    }
    // Split at the first `=`, if any.
    let mut eq: usize = 0;
    while eq < body.len() && body[eq] != 61
        invariant
            0 <= eq <= body@.len(),
            eq <= find_byte(body@, 0, 61),
        decreases body@.len() - eq,
    {
        proof {
            if find_byte(body@, 0, 61) == eq {
                lemma_find_byte(body@, 0, 61);
                assert(false);
            }
        }
        eq = eq + 1;
    }
    proof {
        lemma_find_byte(body@, 0, 61);
        if (eq as int) < find_byte(body@, 0, 61) {
            assert(body@[eq as int] != 61);
        }
    }
    let name = slice_subrange(body, 0, eq);
    if name.len() == 0 || name[0] == 45 || name[name.len() - 1] == 45 {
        return ArgShape::Invalid;
    }
    let mut k: usize = 0;
    while k < name.len()
        invariant
            0 <= k <= name@.len(),
            forall|j: int| 0 <= j < k ==> spec_is_arg_name(#[trigger] name@[j]),
        decreases name@.len() - k,
    {
        if !is_arg_name(name[k]) {
            return ArgShape::Invalid;
        }
        k = k + 1;
    }
    let value: Option<Vec<u8>> = if eq < body.len() {
        Some(vstd::slice::slice_to_vec(slice_subrange(body, eq + 1, body.len())))
    } else {
        None
    };
    ArgShape::Named { name: vstd::slice::slice_to_vec(name), value }
}

/// The notes a comma-separated list of names from `start` on spells, or
/// nothing when any piece fails to parse as a note name.
pub open spec fn spec_note_list(s: Seq<u8>, start: int) -> Option<Seq<Note>>
    decreases s.len() - start
        when 0 <= start <= s.len()
        via spec_note_list_decreases
{
    let e = find_byte(s, start, 44);
    match crate::note::spec_parse_note(s.subrange(start, e)) {
        Err(_) => None,
        Ok(n) => if e == s.len() {
            Some(seq![Note(n)])
        } else {
            match spec_note_list(s, e + 1) {
                None => None,
                Some(rest) => Some(seq![Note(n)] + rest),
            }
        },
    }
}

#[via_fn]
proof fn spec_note_list_decreases(s: Seq<u8>, start: int) {
    lemma_find_byte(s, start, 44);
}

/// Parse a comma-separated list of note names; any bad name makes the whole
/// list fail.
#[verifier::loop_isolation(false)]
pub fn parse_notes(arg: &str) -> (r: Option<Vec<Note>>)
    ensures
        (match r {
            Some(notes) => spec_note_list(arg.spec_bytes(), 0) == Some(notes@),
            None => spec_note_list(arg.spec_bytes(), 0) is None,
        }),
{
    let text = arg.as_bytes();
    let mut notes: Vec<Note> = Vec::new();
    let mut start: usize = 0;
    let len = text.len();
    proof {
        assert((match spec_note_list(text@, 0) {
            None => None,
            Some(rest) => Some(notes@ + rest),
        }) == spec_note_list(text@, 0)) by {
            if spec_note_list(text@, 0) is Some {
                assert(notes@ + spec_note_list(text@, 0)->Some_0 =~= spec_note_list(
                    text@,
                    0,
                )->Some_0);
            }
        }
    }
    loop
        invariant
            0 <= start <= len,
            len == text@.len(),
            spec_note_list(text@, 0) == (match spec_note_list(text@, start as int) {
                None => None,
                Some(rest) => Some(notes@ + rest),
            }),
        decreases len - start,
    {
        // The piece runs to the next comma or to the end.
        proof {
            lemma_find_byte(text@, start as int, 44);
        }
        let mut end: usize = start;
        while end < len && text[end] != 44
            invariant
                start <= end <= len,
                end <= find_byte(text@, start as int, 44),
            decreases len - end,
        {
            proof {
                if find_byte(text@, start as int, 44) == end {
                    lemma_find_byte(text@, start as int, 44);
                    assert(false);
                }
            }
            end = end + 1;
        }
        proof {
            lemma_find_byte(text@, start as int, 44);
            if (end as int) < find_byte(text@, start as int, 44) {
                assert(text@[end as int] != 44);
            }
        }
        let piece = slice_subrange(text, start, end);
        let ghost before = notes@;
        let note = match Note::parse_bytes(piece) {
            Ok(n) => n,
            Err(_) => {
                return None;
            },
        };
        notes.push(note);
        if end == len {
            proof {
                assert(spec_note_list(text@, start as int) == Some(seq![note]));
                assert(before + seq![note] =~= notes@);
            }
            return Some(notes);
        }
        proof {
            if spec_note_list(text@, end + 1) is Some {
                assert(before + (seq![note] + spec_note_list(text@, end + 1)->Some_0)
                    =~= notes@ + spec_note_list(text@, end + 1)->Some_0);
            }
        }
        start = end + 1;
    }
}

} // verus!
