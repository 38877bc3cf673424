//! MIDI note values and note names.
//!
//! A note is a MIDI value 0-255; `a4`, note 69, sounds at 440 Hz. A name is
//! a letter, up to three sharps or flats, and an octave from -2 to 20.

use vstd::prelude::*;

use crate::number::dec_value;
use crate::units::int_text;
use crate::utf8::{ascii_chars, string_from_ascii};
use vstd::string::StringSliceAdditionalSpecFns;

verus! {

/// A MIDI note value.
#[derive(Debug, Clone, Copy, PartialEq, Eq, Structural)]
pub struct Note(pub u8);

/// An error from parsing a note name.
#[derive(Debug, Copy, Clone, PartialEq, Eq, Structural)]
pub enum ParseNoteError {
    CannotParse,
    UnknownNote,
    InvalidAccidentals,
    OutOfRange,
}

/// The chromatic value of a note letter, in either case.
pub open spec fn letter_value(c: u8) -> Option<int> {
    if c == 99 || c == 67 {  // c
        Some(0int)
    } else if c == 100 || c == 68 {  // d
        Some(2int)
    } else if c == 101 || c == 69 {  // e
        Some(4int)
    } else if c == 102 || c == 70 {  // f
        Some(5int)
    } else if c == 103 || c == 71 {  // g
        Some(7int)
    } else if c == 97 || c == 65 {  // a
        Some(9int)
    } else if c == 98 || c == 66 {  // b
        Some(11int)
    } else {
        None
    }
}

/// First index at or after `i` whose byte is not `c`, or the length.
pub open spec fn byte_run(s: Seq<u8>, i: int, c: u8) -> int
    decreases s.len() - i,
{
    if i < 0 || i >= s.len() || s[i] != c {
        i
    } else {
        byte_run(s, i + 1, c)
    }
}

proof fn lemma_byte_run(s: Seq<u8>, i: int, c: u8)
    requires
        0 <= i <= s.len(),
    ensures
        i <= byte_run(s, i, c) <= s.len(),
        forall|k: int| i <= k < byte_run(s, i, c) ==> #[trigger] s[k] == c,
        byte_run(s, i, c) < s.len() ==> s[byte_run(s, i, c)] != c,
    decreases s.len() - i,
{
    if i < s.len() && s[i] == c {
        lemma_byte_run(s, i + 1, c);
    }
}

/// What parsing the octave part `s[start..]` yields: an optional sign, then
/// digits that reach the end of the text; values beyond 32 bits cannot
/// parse.
pub open spec fn spec_parse_octave(s: Seq<u8>, start: int) -> Result<int, ParseNoteError> {
    let neg = start < s.len() && s[start] == 45;
    let d0 = if start < s.len() && (s[start] == 45 || s[start] == 43) {
        start + 1
    } else {
        start
    };
    let j = crate::number::radix_run(s, d0, 10);
    if j != s.len() || j == d0 {
        Err(ParseNoteError::CannotParse)
    } else {
        let v = dec_value(s, d0, j);
        if neg {
            if v > 0x8000_0000 {
                Err(ParseNoteError::CannotParse)
            } else {
                Ok(-v)
            }
        } else {
            if v > 0x7fff_ffff {
                Err(ParseNoteError::CannotParse)
            } else {
                Ok(v)
            }
        }
    }
}

/// What parsing a note name yields: the MIDI value of the letter, the
/// accidentals (at most three sharps or three flats) and the octave, or the
/// error that the name runs into first.
pub open spec fn spec_parse_note(s: Seq<u8>) -> Result<u8, ParseNoteError> {
    if s.len() == 0 {
        Err(ParseNoteError::CannotParse)
    } else {
        match letter_value(s[0]) {
            None => Err(ParseNoteError::UnknownNote),
            Some(base) => {
                let flats = byte_run(s, 1, 98) - 1;
                let sharps = byte_run(s, 1, 35) - 1;
                if s.len() > 1 && s[1] == 98 && (flats > 3 || (1 + flats < s.len() && s[1 + flats]
                    == 35)) {
                    Err(ParseNoteError::InvalidAccidentals)
                } else if s.len() > 1 && s[1] == 35 && (sharps > 3 || (1 + sharps < s.len() && s[1
                    + sharps] == 98)) {
                    Err(ParseNoteError::InvalidAccidentals)
                } else {
                    let delta = if s.len() > 1 && s[1] == 98 {
                        -flats
                    } else if s.len() > 1 && s[1] == 35 {
                        sharps
                    } else {
                        0
                    };
                    let ostart = 1 + (if delta < 0 {
                        -delta
                    } else {
                        delta
                    });
                    match spec_parse_octave(s, ostart) {
                        Err(e) => Err(e),
                        Ok(octave) => {
                            if octave < -2 || octave > 20 {
                                Err(ParseNoteError::OutOfRange)
                            } else {
                                let v = base + delta + (octave + 1) * 12;
                                if 0 <= v <= 255 {
                                    Ok(v as u8)
                                } else {
                                    Err(ParseNoteError::OutOfRange)
                                }
                            }
                        },
                    }
                }
            },
        }
    }
}

/// The name of a chromatic step within the octave, in lower case with a
/// sharp where the step has no plain letter.
pub open spec fn chroma_name(c: int) -> Seq<u8> {
    if c == 0 {
        seq![99u8]
    } else if c == 1 {
        seq![99u8, 35u8]
    } else if c == 2 {
        seq![100u8]
    } else if c == 3 {
        seq![100u8, 35u8]
    } else if c == 4 {
        seq![101u8]
    } else if c == 5 {
        seq![102u8]
    } else if c == 6 {
        seq![102u8, 35u8]
    } else if c == 7 {
        seq![103u8]
    } else if c == 8 {
        seq![103u8, 35u8]
    } else if c == 9 {
        seq![97u8]
    } else if c == 10 {
        seq![97u8, 35u8]
    } else {
        seq![98u8]
    }
}

/// The rendering of a note: the name of its chromatic step, then its octave.
pub open spec fn spec_render_note(n: u8) -> Seq<u8> {
    chroma_name((n as int) % 12) + int_text((n as int) / 12 - 1)
}

impl Note {
    /// The octave of the note; octave -1 holds notes 0 to 11.
    pub fn octave(&self) -> (r: i32)
        ensures
            r == (self.0 as int) / 12 - 1,
    {
        self.0 as i32 / 12 - 1
    }

    /// The chromatic step of the note within its octave.
    pub fn chromaticity(&self) -> (r: i32)
        ensures
            r == (self.0 as int) % 12,
    {
        self.0 as i32 % 12
    }

    /// Parse a note name, such as `a4`, `c#-1` or `ebb3`.
    pub fn parse(s: &str) -> (r: Result<Note, ParseNoteError>)
        ensures
            r matches Ok(n) ==> spec_parse_note(s.spec_bytes()) == Ok::<u8, ParseNoteError>(n.0),
            r matches Err(e) ==> spec_parse_note(s.spec_bytes()) == Err::<u8, ParseNoteError>(e),
    {
        Note::parse_bytes(s.as_bytes())
    }

    /// Parse a note name from its bytes.
    #[verifier::loop_isolation(false)]
    #[verifier::rlimit(100)]
    pub fn parse_bytes(text: &[u8]) -> (r: Result<Note, ParseNoteError>)
        ensures
            r matches Ok(n) ==> spec_parse_note(text@) == Ok::<u8, ParseNoteError>(n.0),
            r matches Err(e) ==> spec_parse_note(text@) == Err::<u8, ParseNoteError>(e),
    {
        let len = text.len();
        if len == 0 {
            return Err(ParseNoteError::CannotParse);
        }
        let c0 = text[0];
        let base: i32 = if c0 == 99 || c0 == 67 {
            0
        } else if c0 == 100 || c0 == 68 {
            2
        } else if c0 == 101 || c0 == 69 {
            4
        } else if c0 == 102 || c0 == 70 {
            5
        } else if c0 == 103 || c0 == 71 {
            7
        } else if c0 == 97 || c0 == 65 {
            9
        } else if c0 == 98 || c0 == 66 {
            11
        } else {
            return Err(ParseNoteError::UnknownNote);
        };
        // Accidentals: a run of flats or a run of sharps, three at most, and
        // never the other mark directly after the run.
        let (delta, ostart): (i32, usize) = if len > 1 && text[1] == 98 {
            let f = run_length(text, 1, 98);
            if f > 3 || (f < len - 1 && text[1 + f] == 35) {
                return Err(ParseNoteError::InvalidAccidentals);
            }
            (0i32 - f as i32, 1 + f)
        } else if len > 1 && text[1] == 35 {
            let sh = run_length(text, 1, 35);
            if sh > 3 || (sh < len - 1 && text[1 + sh] == 98) {
                return Err(ParseNoteError::InvalidAccidentals);
            }
            (sh as i32, 1 + sh)
        } else {
            (0, 1)
        };
        // Octave: an optional sign, then digits to the end of the name.
        let neg = ostart < len && text[ostart] == 45;
        let d0 = if ostart < len && (text[ostart] == 45 || text[ostart] == 43) {
            ostart + 1
        } else {
            ostart
        };
        let j = crate::number::scan_digits(text, d0);
        if j != len || j == d0 {
            return Err(ParseNoteError::CannotParse);
        }
        let mut value: u64 = 0;
        let mut i: usize = d0;
        while i < j
            invariant
                d0 <= i <= j,
                (dec_value(text@, d0 as int, i as int) <= 0xffff_ffff ==> value == dec_value(
                    text@,
                    d0 as int,
                    i as int,
                )),
                (dec_value(text@, d0 as int, i as int) > 0xffff_ffff ==> value > 0xffff_ffff),
                value <= 0xffff_ffff * 10 + 9,
            decreases j - i,
        {
            proof {
                crate::number::lemma_radix_run(text@, d0 as int, 10);
            }
            let d = text[i] - 48;
            if value <= 0xffff_ffff {
                value = value * 10 + d as u64;
            }
            proof {
                let prev = dec_value(text@, d0 as int, i as int);
                let cur = dec_value(text@, d0 as int, i as int + 1);
                assert(cur == prev * 10 + (text@[i as int] - 48));
                if prev > 0xffff_ffff {
                    assert(cur > 0xffff_ffff);
                }
            }
            i = i + 1;
        }
        let octave: i32 = if neg {
            if value > 0x8000_0000 {
                return Err(ParseNoteError::CannotParse);
            }
            if value == 0x8000_0000 {
                i32::MIN
            } else {
                0i32 - value as i32
            }
        } else {
            if value > 0x7fff_ffff {
                return Err(ParseNoteError::CannotParse);
            }
            value as i32
        };
        if octave < -2 || octave > 20 {
            return Err(ParseNoteError::OutOfRange);
        }
        let v: i32 = base + delta + (octave + 1) * 12;
        if 0 <= v && v <= 255 {
            Ok(Note(v as u8))
        } else {
            Err(ParseNoteError::OutOfRange)
        }
    }

    /// Render the note name: its chromatic step, then its octave.
    pub fn to_string(&self) -> (r: String)
        ensures
            r@ == ascii_chars(spec_render_note(self.0)),
    {
        let mut out: Vec<u8> = Vec::new();
        let chroma = self.0 % 12;
        if chroma == 0 {
            out.push(99);
        } else if chroma == 1 {
            out.push(99);
            out.push(35);
        } else if chroma == 2 {
            out.push(100);
        } else if chroma == 3 {
            out.push(100);
            out.push(35);
        } else if chroma == 4 {
            out.push(101);
        } else if chroma == 5 {
            out.push(102);
        } else if chroma == 6 {
            out.push(102);
            out.push(35);
        } else if chroma == 7 {
            out.push(103);
        } else if chroma == 8 {
            out.push(103);
            out.push(35);
        } else if chroma == 9 {
            out.push(97);
        } else if chroma == 10 {
            out.push(97);
            out.push(35);
        } else {
            out.push(98);
        }
        let octave: i32 = self.0 as i32 / 12 - 1;
        if octave < 0 {
            out.push(45);
            crate::number::push_u32_decimal(&mut out, (0i32 - octave) as u32);
        } else {
            crate::number::push_u32_decimal(&mut out, octave as u32);
        }
        proof {
            crate::number::lemma_dec_digits_ascii(
                if octave < 0 {
                    -(octave as int)
                } else {
                    octave as int
                },
            );
            assert(out@ =~= spec_render_note(self.0));
            assert forall|k: int| 0 <= k < out@.len() implies #[trigger] out@[k] <= 0x7f by {
                let name = chroma_name((self.0 as int) % 12);
                if k >= name.len() {
                    assert(out@[k] == int_text((self.0 as int) / 12 - 1)[k - name.len()]);
                }
            }
        }
        string_from_ascii(out)
    }
}

/// The length of the run of bytes equal to `c` that starts at `i`.
#[verifier::loop_isolation(false)]
fn run_length(text: &[u8], i: usize, c: u8) -> (r: usize)
    requires
        0 <= i <= text@.len(),
    ensures
        i + r == byte_run(text@, i as int, c),
        i + r <= text@.len(),
        forall|k: int| i <= k < i + r ==> #[trigger] text@[k] == c,
        i + r < text@.len() ==> text@[i + r] != c,
{
    proof {
        lemma_byte_run(text@, i as int, c);
    }
    let mut e: usize = i;
    while e < text.len() && text[e] == c
        invariant
            i <= e <= text@.len(),
            e <= byte_run(text@, i as int, c),
        decreases text@.len() - e,
    {
        proof {
            if byte_run(text@, i as int, c) == e {
                lemma_byte_run(text@, i as int, c);
                assert(false);
            }
        }
        e = e + 1;
    }
    proof {
        lemma_byte_run(text@, i as int, c);
        if (e as int) < byte_run(text@, i as int, c) {
            assert(text@[e as int] == c);
        }
    }
    e - i
}

} // verus!
