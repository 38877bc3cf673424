//! Dimensional algebra with SI prefixes.
//!
//! A `Units` value is a 4-tuple of signed 8-bit exponents over the base units
//! volt, second, radian and decibel; hertz is the inverse second and the
//! scalar is the all-zero tuple. Multiplication adds exponents component-wise
//! and reports overflow. Parsing accepts one metric prefix (powers of 1000
//! only) followed by one unit name; the decibel refuses a prefix.

use vstd::prelude::*;
use vstd::slice::slice_subrange;

use crate::number::{dec_digits_of, lemma_dec_digits_ascii};
use crate::sourcepos::Span;
use crate::utf8::{ascii_chars, parse_character, scan_character, string_from_ascii};

verus! {

/// An error from an operation on units.
#[derive(Debug, Copy, Clone, PartialEq, Eq, Structural)]
pub enum UnitError {
    Overflow,
}

impl UnitError {
    /// A human-readable description of the error.
    pub fn message(&self) -> (r: &'static str)
        ensures
            r@ == "units too large, operation overflowed"@,
    {
        "units too large, operation overflowed"
    }
}

/// An error from parsing units.
#[derive(Debug, Copy, Clone, PartialEq, Eq, Structural)]
pub enum ParseError {
    UnknownPrefix,
    UnknownUnits,
    PrefixNotAllowed,
}

impl ParseError {
    /// A human-readable description of the error.
    pub fn message(&self) -> (r: &'static str)
        ensures
            (*self == ParseError::UnknownPrefix ==> r@ == "unknown prefix"@),
            (*self == ParseError::UnknownUnits ==> r@ == "unknown units"@),
            (*self == ParseError::PrefixNotAllowed ==> r@
                == "metric prefix not allowed with units"@),
    {
        match self {
            ParseError::UnknownPrefix => "unknown prefix",
            ParseError::UnknownUnits => "unknown units",
            ParseError::PrefixNotAllowed => "metric prefix not allowed with units",
        }
    }
}

/// The power of ten that a metric prefix character stands for, on the powers
/// of 1000 only; micro is accepted as `u`, the micro sign or the Greek mu.
pub open spec fn spec_prefix(c: char) -> Option<int> {
    if c == 'y' {
        Some(-24int)
    } else if c == 'z' {
        Some(-21int)
    } else if c == 'a' {
        Some(-18int)
    } else if c == 'f' {
        Some(-15int)
    } else if c == 'p' {
        Some(-12int)
    } else if c == 'n' {
        Some(-9int)
    } else if c == 'u' || c == '\u{b5}' || c == '\u{3bc}' {
        Some(-6int)
    } else if c == 'm' {
        Some(-3int)
    } else if c == 'k' {
        Some(3int)
    } else if c == 'M' {
        Some(6int)
    } else if c == 'G' {
        Some(9int)
    } else if c == 'T' {
        Some(12int)
    } else if c == 'P' {
        Some(15int)
    } else if c == 'E' {
        Some(18int)
    } else if c == 'Z' {
        Some(21int)
    } else if c == 'Y' {
        Some(24int)
    } else {
        None
    }
}

/// Parse a metric prefix. Returns the prefix's power of 10. Only powers of
/// 1000 are recognized; so hecto, deca, deci, and centi are ignored.
pub fn parse_prefix(c: char) -> (r: Option<i32>)
    ensures
        (match r {
            Some(v) => Some(v as int),
            None => None::<int>,
        }) == spec_prefix(c),
{
    if c == 'y' {
        Some(-24)
    } else if c == 'z' {
        Some(-21)
    } else if c == 'a' {
        Some(-18)
    } else if c == 'f' {
        Some(-15)
    } else if c == 'p' {
        Some(-12)
    } else if c == 'n' {
        Some(-9)
    } else if c == 'u' || c == '\u{b5}' || c == '\u{3bc}' {
        Some(-6)
    } else if c == 'm' {
        Some(-3)
    } else if c == 'k' {
        Some(3)
    } else if c == 'M' {
        Some(6)
    } else if c == 'G' {
        Some(9)
    } else if c == 'T' {
        Some(12)
    } else if c == 'P' {
        Some(15)
    } else if c == 'E' {
        Some(18)
    } else if c == 'Z' {
        Some(21)
    } else if c == 'Y' {
        Some(24)
    } else {
        None
    }
}

/// Units associated with a quantity.
#[derive(Debug, Copy, Clone, PartialEq, Eq, Structural)]
pub struct Units {
    pub volt: i8,
    pub second: i8,
    pub radian: i8,
    pub decibel: i8,
}

/// The name that a byte sequence spells, if it is one of the five unit
/// names, with whether the unit accepts a metric prefix.
pub open spec fn spec_unit_name(s: Seq<u8>) -> Option<(bool, Units)> {
    if s == seq![86u8] {  // V
        Some((true, Units { volt: 1i8, second: 0i8, radian: 0i8, decibel: 0i8 }))
    } else if s == seq![115u8] {  // s
        Some((true, Units { volt: 0i8, second: 1i8, radian: 0i8, decibel: 0i8 }))
    } else if s == seq![72u8, 122u8] {  // Hz
        Some((true, Units { volt: 0i8, second: -1i8, radian: 0i8, decibel: 0i8 }))
    } else if s == seq![114u8, 97u8, 100u8] {  // rad
        Some((true, Units { volt: 0i8, second: 0i8, radian: 1i8, decibel: 0i8 }))
    } else if s == seq![100u8, 66u8] {  // dB
        Some((false, Units { volt: 0i8, second: 0i8, radian: 0i8, decibel: 1i8 }))
    } else {
        None
    }
}

/// What parsing a unit suffix yields: the relative byte range that names the
/// units, the units, and the prefix exponent; or the error and the relative
/// byte range it points at.
pub open spec fn spec_units_parse(s: Seq<u8>) -> Result<(int, int, Units, int), (
    ParseError,
    int,
    int,
)> {
    if s.len() == 0 {
        Ok((0, 0, Units { volt: 0i8, second: 0i8, radian: 0i8, decibel: 0i8 }, 0))
    } else {
        let exponent = match scan_character(s).0 {
            Some(c) => spec_prefix(c),
            None => None,
        };
        let split = scan_character(s).1;
        let rest = s.subrange(split, s.len() as int);
        match spec_unit_name(rest) {
            Some((allow_prefix, units)) => {
                match exponent {
                    None => Err((ParseError::UnknownPrefix, 0, split)),
                    Some(x) => {
                        if !allow_prefix {
                            Err((ParseError::PrefixNotAllowed, 0, s.len() as int))
                        } else {
                            Ok((split, s.len() as int, units, x))
                        }
                    },
                }
            },
            None => {
                if exponent is Some && rest.len() > 0 {
                    Err((ParseError::UnknownUnits, split, s.len() as int))
                } else {
                    match spec_unit_name(s) {
                        Some((_, units)) => Ok((0, s.len() as int, units, 0)),
                        None => Err((ParseError::UnknownUnits, 0, s.len() as int)),
                    }
                }
            },
        }
    }
}

/// Parse a unit name without metric prefix.
///
/// Returns the units and true if they are permitted to have a metric prefix.
pub fn parse_without_prefix(text: &[u8]) -> (r: Option<(bool, Units)>)
    ensures
        r == spec_unit_name(text@),
{
    let r = if text.len() == 1 && text[0] == 86 {
        Some((true, Units { volt: 1, second: 0, radian: 0, decibel: 0 }))
    } else if text.len() == 1 && text[0] == 115 {
        Some((true, Units { volt: 0, second: 1, radian: 0, decibel: 0 }))
    } else if text.len() == 2 && text[0] == 72 && text[1] == 122 {
        Some((true, Units { volt: 0, second: -1, radian: 0, decibel: 0 }))
    } else if text.len() == 3 && text[0] == 114 && text[1] == 97 && text[2] == 100 {
        Some((true, Units { volt: 0, second: 0, radian: 1, decibel: 0 }))
    } else if text.len() == 2 && text[0] == 100 && text[1] == 66 {
        Some((false, Units { volt: 0, second: 0, radian: 0, decibel: 1 }))
    } else {
        None
    };
    proof {
        if text@.len() == 1 {
            assert(text@ =~= seq![text@[0]]);
        }
        if text@.len() == 2 {
            assert(text@ =~= seq![text@[0], text@[1]]);
        }
        if text@.len() == 3 {
            assert(text@ =~= seq![text@[0], text@[1], text@[2]]);
        }
    }
    r
}

impl Units {
    /// The scalar, dimensionless units: every exponent zero.
    pub open spec fn spec_scalar() -> Units {
        Units { volt: 0i8, second: 0i8, radian: 0i8, decibel: 0i8 }
    }

    /// Return the scalar (dimensionless, unitless) units.
    pub fn scalar() -> (r: Self)
        ensures
            r == Units::spec_scalar(),
    {
        Units { volt: 0, second: 0, radian: 0, decibel: 0 }
    }

    /// True if this is the scalar unit, i.e., dimensionless or unitless.
    pub fn is_scalar(&self) -> (r: bool)
        ensures
            r == (*self == Units::spec_scalar()),
    {
        self.volt == 0 && self.second == 0 && self.radian == 0 && self.decibel == 0
    }

    /// True if this is a dimensionless scalar value, i.e., a scalar.
    pub fn dimensionless(&self) -> (r: bool)
        ensures
            r == (*self == Units::spec_scalar()),
    {
        self.is_scalar()
    }

    /// Units of volts to the given power.
    pub fn volt(n: i8) -> (r: Self)
        ensures
            r == (Units { volt: n, second: 0i8, radian: 0i8, decibel: 0i8 }),
    {
        Units { volt: n, second: 0, radian: 0, decibel: 0 }
    }

    /// Units of seconds to the given power.
    pub fn second(n: i8) -> (r: Self)
        ensures
            r == (Units { volt: 0i8, second: n, radian: 0i8, decibel: 0i8 }),
    {
        Units { volt: 0, second: n, radian: 0, decibel: 0 }
    }

    /// Units of radians to the given power.
    pub fn radian(n: i8) -> (r: Self)
        ensures
            r == (Units { volt: 0i8, second: 0i8, radian: n, decibel: 0i8 }),
    {
        Units { volt: 0, second: 0, radian: n, decibel: 0 }
    }

    /// Units of decibels to the given power.
    pub fn decibel(n: i8) -> (r: Self)
        ensures
            r == (Units { volt: 0i8, second: 0i8, radian: 0i8, decibel: n }),
    {
        Units { volt: 0, second: 0, radian: 0, decibel: n }
    }

    /// Units of hertz to the given power: the inverse of seconds.
    pub fn hertz(n: i8) -> (r: Self)
        requires
            -127 <= n,
        ensures
            r == (Units { volt: 0i8, second: (-n) as i8, radian: 0i8, decibel: 0i8 }),
    {
        Units { volt: 0, second: -n, radian: 0, decibel: 0 }
    }

    /// Whether multiplying leaves every component within the 8-bit range.
    pub open spec fn spec_multiply_fits(&self, other: &Units) -> bool {
        &&& i8::MIN <= self.volt + other.volt <= i8::MAX
        &&& i8::MIN <= self.second + other.second <= i8::MAX
        &&& i8::MIN <= self.radian + other.radian <= i8::MAX
        &&& i8::MIN <= self.decibel + other.decibel <= i8::MAX
    }

    /// The product of two units: exponents added component-wise.
    pub open spec fn spec_multiply(&self, other: &Units) -> Units {
        Units {
            volt: (self.volt + other.volt) as i8,
            second: (self.second + other.second) as i8,
            radian: (self.radian + other.radian) as i8,
            decibel: (self.decibel + other.decibel) as i8,
        }
    }

    /// Multiply two units, adding the exponents component-wise; overflow of
    /// any component is reported as an error.
    pub fn multiply(&self, other: &Units) -> (r: Result<Self, UnitError>)
        ensures
            r matches Ok(u) ==> self.spec_multiply_fits(other) && u == self.spec_multiply(other),
            r is Err <==> !self.spec_multiply_fits(other),
            r matches Err(e) ==> e == UnitError::Overflow,
    {
        let volt = self.volt as i16 + other.volt as i16;
        let second = self.second as i16 + other.second as i16;
        let radian = self.radian as i16 + other.radian as i16;
        let decibel = self.decibel as i16 + other.decibel as i16;
        if volt < -128 || volt > 127 || second < -128 || second > 127 || radian < -128 || radian
            > 127 || decibel < -128 || decibel > 127 {
            Err(UnitError::Overflow)
        } else {
            Ok(
                Units {
                    volt: volt as i8,
                    second: second as i8,
                    radian: radian as i8,
                    decibel: decibel as i8,
                },
            )
        }
    }

    /// Parse units with metric prefix.
    ///
    /// Returns the span of the unit name, the units, and the exponent for the
    /// metric prefix used. For example, "ms" parses as (second, -3) and "kV"
    /// as (volt, +3). The span that an error carries lies within `pos`.
    pub fn parse(text: &[u8], pos: Span) -> (r: Result<(Span, Self, i32), (ParseError, Span)>)
        requires
            pos.wf(),
            pos.end.0 - pos.start.0 == text@.len(),
        ensures
            r matches Ok((sp, u, x)) ==> {
                &&& spec_units_parse(text@) matches Ok((a, b, u2, x2))
                &&& u == u2
                &&& x == x2
                &&& sp.start.0 == pos.start.0 + a
                &&& sp.end.0 == pos.start.0 + b
            },
            r matches Err((e, sp)) ==> {
                &&& spec_units_parse(text@) matches Err((e2, a, b))
                &&& e == e2
                &&& sp.start.0 == pos.start.0 + a
                &&& sp.end.0 == pos.start.0 + b
            },
    {
        if text.len() == 0 {
            return Ok((pos.sub_span(0, 0), Units::scalar(), 0));
        }
        let (c_opt, split_idx) = parse_character(text);
        proof {
            crate::utf8::lemma_scan_character_len(text@);
        }
        let exponent: Option<i32> = match c_opt {
            Some(c) => parse_prefix(c),
            None => None,
        };
        let rest = slice_subrange(text, split_idx, text.len());
        if let Some((allow_prefix, units)) = parse_without_prefix(rest) {
            let x = match exponent {
                Some(x) => x,
                None => {
                    return Err((ParseError::UnknownPrefix, pos.sub_to(split_idx)));
                },
            };
            if !allow_prefix {
                return Err((ParseError::PrefixNotAllowed, pos.sub_span(0, text.len())));
            }
            return Ok((pos.sub_from(split_idx), units, x));
        }
        if exponent.is_some() && rest.len() > 0 {
            return Err((ParseError::UnknownUnits, pos.sub_from(split_idx)));
        }
        match parse_without_prefix(text) {
            Some((_, units)) => Ok((pos.sub_span(0, text.len()), units, 0)),
            None => Err((ParseError::UnknownUnits, pos.sub_span(0, text.len()))),
        }
    }
}

/// The text of one signed exponent: a minus sign when negative, then the
/// decimal digits of the magnitude.
pub open spec fn int_text(v: int) -> Seq<u8> {
    if v < 0 {
        seq![45u8] + dec_digits_of(-v)
    } else {
        dec_digits_of(v)
    }
}

/// The text of one unit factor: nothing when the exponent is zero; otherwise
/// a `*` separator unless it comes first, the unit name (the inverse name
/// with a negated exponent, where one exists), and `^` with the exponent
/// unless that is one.
pub open spec fn one_unit_text(name: Seq<u8>, invname: Seq<u8>, v: int, first: bool) -> Seq<u8> {
    if v == 0 {
        Seq::empty()
    } else {
        let nm = if v < 0 && invname.len() > 0 {
            invname
        } else {
            name
        };
        let value = if v < 0 && invname.len() > 0 {
            -v
        } else {
            v
        };
        (if first {
            Seq::<u8>::empty()
        } else {
            seq![42u8]
        }) + nm + (if value == 1 {
            Seq::<u8>::empty()
        } else {
            seq![94u8] + int_text(value)
        })
    }
}

/// The rendering of units: the nonzero factors joined with `*`, seconds
/// written as hertz when negative, or the word `scalar` when every exponent
/// is zero.
pub open spec fn spec_render_units(u: Units) -> Seq<u8> {
    let p1 = one_unit_text(seq![86u8], Seq::empty(), u.volt as int, true);
    let p2 = one_unit_text(seq![115u8], seq![72u8, 122u8], u.second as int, p1.len() == 0);
    let p3 = one_unit_text(
        seq![114u8, 97u8, 100u8],
        Seq::empty(),
        u.radian as int,
        p1.len() + p2.len() == 0,
    );
    let p4 = one_unit_text(
        seq![100u8, 66u8],
        Seq::empty(),
        u.decibel as int,
        p1.len() + p2.len() + p3.len() == 0,
    );
    let all = p1 + p2 + p3 + p4;
    if all.len() == 0 {
        seq![115u8, 99u8, 97u8, 108u8, 97u8, 114u8]  // scalar
    } else {
        all
    }
}

/// Append one unit factor to the buffer; returns whether anything has been
/// written so far.
#[verifier::loop_isolation(false)]
#[verifier::rlimit(80)]
fn write_unit(out: &mut Vec<u8>, has_text: bool, name: &[u8], invname: &[u8], value: i8) -> (r:
    bool)
    requires
        forall|i: int| 0 <= i < name@.len() ==> #[trigger] name@[i] <= 0x7f,
        forall|i: int| 0 <= i < invname@.len() ==> #[trigger] invname@[i] <= 0x7f,
    ensures
        final(out)@ == old(out)@ + one_unit_text(name@, invname@, value as int, !has_text),
        r == (has_text || value != 0),
        forall|i: int|
            old(out)@.len() <= i < final(out)@.len() ==> #[trigger] final(out)@[i] <= 0x7f,
{
    if value == 0 {
        proof {
            assert(out@ =~= old(out)@ + one_unit_text(name@, invname@, value as int, !has_text));
        }
        return has_text;
    }
    let (nm, v): (&[u8], i32) = if value < 0 && invname.len() > 0 {
        (invname, -(value as i32))
    } else {
        (name, value as i32)
    };
    if has_text {
        out.push(42);
    }
    let mut i: usize = 0;
    while i < nm.len()
        invariant
            0 <= i <= nm@.len(),
            out@ == old(out)@ + (if has_text {
                seq![42u8]
            } else {
                Seq::<u8>::empty()
            }) + nm@.subrange(0, i as int),
        decreases nm@.len() - i,
    {
        out.push(nm[i]);
        proof {
            assert(out@ =~= old(out)@ + (if has_text {
                seq![42u8]
            } else {
                Seq::<u8>::empty()
            }) + nm@.subrange(0, i + 1));
        }
        i = i + 1;
    }
    proof {
        assert(nm@.subrange(0, nm@.len() as int) =~= nm@);
    }
    if v != 1 {
        out.push(94);
        if v < 0 {
            out.push(45);
            crate::number::push_u32_decimal(out, (0i32 - v) as u32);
        } else {
            crate::number::push_u32_decimal(out, v as u32);
        }
        proof {
            lemma_dec_digits_ascii(
                if v < 0 {
                    -(v as int)
                } else {
                    v as int
                },
            );
        }
    }
    proof {
        assert(out@ =~= old(out)@ + one_unit_text(name@, invname@, value as int, !has_text));
        assert forall|k: int| old(out)@.len() <= k < out@.len() implies #[trigger] out@[k]
            <= 0x7f by {
            let piece = one_unit_text(name@, invname@, value as int, !has_text);
            let j = k - old(out)@.len();
            assert(out@[k] == piece[j]);
            let sep: Seq<u8> = if !has_text {
                Seq::<u8>::empty()
            } else {
                seq![42u8]
            };
            let nmq = nm@;
            let tail: Seq<u8> = if (v as int) == 1 {
                Seq::<u8>::empty()
            } else {
                seq![94u8] + int_text(v as int)
            };
            if j < sep.len() {
                assert(piece[j] == sep[j]);
            } else if j < sep.len() + nmq.len() {
                assert(piece[j] == nmq[j - sep.len()]);
            } else {
                assert(piece[j] == tail[j - sep.len() - nmq.len()]);
                if (v as int) != 1 {
                    if j - sep.len() - nmq.len() >= 1 {
                        let t = j - sep.len() - nmq.len() - 1;
                        assert(tail[j - sep.len() - nmq.len()] == int_text(v as int)[t]);
                    }
                }
            }
        }
    }
    true
}

impl Units {
    /// Render the units as text: nonzero factors joined with `*`, negative
    /// seconds written as hertz, or the word `scalar` for no units at all.
    #[verifier::rlimit(80)]
    pub fn to_string(&self) -> (r: String)
        ensures
            r@ == ascii_chars(spec_render_units(*self)),
    {
        let ghost p1 = one_unit_text(seq![86u8], Seq::empty(), self.volt as int, true);
        let ghost p2 = one_unit_text(
            seq![115u8],
            seq![72u8, 122u8],
            self.second as int,
            p1.len() == 0,
        );
        let ghost p3 = one_unit_text(
            seq![114u8, 97u8, 100u8],
            Seq::empty(),
            self.radian as int,
            p1.len() + p2.len() == 0,
        );
        let ghost p4 = one_unit_text(
            seq![100u8, 66u8],
            Seq::empty(),
            self.decibel as int,
            p1.len() + p2.len() + p3.len() == 0,
        );
        let mut out: Vec<u8> = Vec::new();
        let volt_name: [u8; 1] = [86];
        let second_name: [u8; 1] = [115];
        let hertz_name: [u8; 2] = [72, 122];
        let rad_name: [u8; 3] = [114, 97, 100];
        let db_name: [u8; 2] = [100, 66];
        let empty_name: [u8; 0] = [];
        proof {
            // A factor is present exactly when its exponent is nonzero.
            assert(self.volt != 0 ==> p1.len() > 0);
            assert(self.second != 0 ==> p2.len() > 0);
            assert(self.radian != 0 ==> p3.len() > 0);
            assert(self.decibel != 0 ==> p4.len() > 0);
        }
        let mut has_text = write_unit(
            &mut out,
            false,
            volt_name.as_slice(),
            empty_name.as_slice(),
            self.volt,
        );
        proof {
            assert(out@ =~= p1);
        }
        has_text = write_unit(
            &mut out,
            has_text,
            second_name.as_slice(),
            hertz_name.as_slice(),
            self.second,
        );
        proof {
            assert(out@ =~= p1 + p2);
        }
        has_text = write_unit(&mut out, has_text, rad_name.as_slice(), empty_name.as_slice(), self.radian);
        proof {
            assert(out@ =~= p1 + p2 + p3);
        }
        has_text = write_unit(&mut out, has_text, db_name.as_slice(), empty_name.as_slice(), self.decibel);
        proof {
            assert(out@ =~= p1 + p2 + p3 + p4);
        }
        if !has_text {
            out.push(115);
            out.push(99);
            out.push(97);
            out.push(108);
            out.push(97);
            out.push(114);
            proof {
                assert(out@ =~= seq![115u8, 99u8, 97u8, 108u8, 97u8, 114u8]);
            }
        }
        proof {
            assert(out@ =~= spec_render_units(*self));
            assert forall|i: int| 0 <= i < out@.len() implies #[trigger] out@[i] <= 0x7f by {
                if has_text {
                    let all = p1 + p2 + p3 + p4;
                    assert(out@[i] == all[i]);
                }
            }
        }
        string_from_ascii(out)
    }
}

/// Scalar units are the identity of multiplication.
pub proof fn lemma_multiply_identity(a: Units)
    ensures
        a.spec_multiply_fits(&Units::spec_scalar()),
        a.spec_multiply(&Units::spec_scalar()) == a,
        Units::spec_scalar().spec_multiply_fits(&a),
        Units::spec_scalar().spec_multiply(&a) == a,
{
}

/// Multiplication of units is commutative, in both fitting and value.
pub proof fn lemma_multiply_commutative(a: Units, b: Units)
    ensures
        a.spec_multiply_fits(&b) == b.spec_multiply_fits(&a),
        a.spec_multiply(&b) == b.spec_multiply(&a),
{
}

/// Multiplication of units is associative: when both groupings stay within
/// range, they agree.
pub proof fn lemma_multiply_associative(a: Units, b: Units, c: Units)
    requires
        a.spec_multiply_fits(&b),
        a.spec_multiply(&b).spec_multiply_fits(&c),
        b.spec_multiply_fits(&c),
        a.spec_multiply_fits(&b.spec_multiply(&c)),
    ensures
        a.spec_multiply(&b).spec_multiply(&c) == a.spec_multiply(&b.spec_multiply(&c)),
{
}

} // verus!
