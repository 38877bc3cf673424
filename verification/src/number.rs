//! Multi-radix numeric literal decoder.
//!
//! A parsed number keeps its exact textual content: a sign, a radix, the
//! digit values least-significant first, and an optional decimal exponent.
//! Decimal literals may carry a fraction and an exponent; binary, octal and
//! hexadecimal literals are plain integers.

use vstd::prelude::*;
use vstd::slice::slice_subrange;

use crate::sourcepos::Span;

verus! {

/// A type of error from parsing a number.
#[derive(Debug, Clone, Copy, PartialEq, Eq, Structural)]
pub enum ParseError {
    InvalidDigit(Radix, u8),
    ExtraPoint,
    UnexpectedPoint(Radix),
    UnexpectedChar(u8),
    NoDigits,
    NoExponentValue,
}

/// The sign for a number.
#[derive(Debug, Clone, Copy, PartialEq, Eq, Structural)]
pub enum Sign {
    Positive,
    Negative,
}

/// A numeric radix.
#[derive(Debug, Clone, Copy, PartialEq, Eq, Structural)]
pub enum Radix {
    Binary,
    Octal,
    Decimal,
    Hexadecimal,
}

impl Radix {
    /// The base that the radix stands for.
    pub open spec fn spec_value(&self) -> u8 {
        match self {
            Radix::Binary => 2,
            Radix::Octal => 8,
            Radix::Decimal => 10,
            Radix::Hexadecimal => 16,
        }
    }

    /// The base that the radix stands for.
    pub fn value(&self) -> (r: u8)
        ensures
            r == self.spec_value(),
    {
        match self {
            Radix::Binary => 2,
            Radix::Octal => 8,
            Radix::Decimal => 10,
            Radix::Hexadecimal => 16,
        }
    }
}

/// The mathematical content of a parsed number: sign, radix, digit values
/// least-significant first, and the optional exponent.
pub struct NumModel {
    pub sign: Sign,
    pub radix: Radix,
    pub digits: Seq<u8>,
    pub exponent: Option<int>,
}

/// True if the byte is an ASCII digit.
pub open spec fn spec_is_digit(c: u8) -> bool {
    48 <= c <= 57
}

/// True if the byte is an ASCII hexadecimal digit.
pub open spec fn spec_is_hex_digit(c: u8) -> bool {
    spec_is_digit(c) || (97 <= c <= 102) || (65 <= c <= 70)
}

/// The digit value of the byte: 0-9 for digits, 10-35 for letters of either
/// case, and 255 for anything else.
pub open spec fn spec_parse_digit(c: u8) -> u8 {
    if 48 <= c <= 57 {
        (c - 48) as u8
    } else if 97 <= c <= 122 {
        (c - 87) as u8
    } else if 65 <= c <= 90 {
        (c - 55) as u8
    } else {
        255
    }
}

/// Return true if the byte is an ASCII digit.
pub fn is_digit(c: u8) -> (r: bool)
    ensures
        r == spec_is_digit(c),
{
    48 <= c && c <= 57
}

/// Return true if the byte is an ASCII hexadecimal digit.
pub fn is_hex_digit(c: u8) -> (r: bool)
    ensures
        r == spec_is_hex_digit(c),
{
    (48 <= c && c <= 57) || (97 <= c && c <= 102) || (65 <= c && c <= 70)
}

/// Return the digit value of the byte, or 255 if it is no digit or letter.
pub fn parse_digit(c: u8) -> (r: u8)
    ensures
        r == spec_parse_digit(c),
{
    if 48 <= c && c <= 57 {
        c - 48
    } else if 97 <= c && c <= 122 {
        c - 87
    } else if 65 <= c && c <= 90 {
        c - 55
    } else {
        255
    }
}

/// Return true if the text starts with an ASCII digit.
pub fn starts_with_digit(s: &[u8]) -> (r: bool)
    ensures
        r == (s@.len() > 0 && spec_is_digit(s@[0])),
{
    s.len() > 0 && is_digit(s[0])
}

/// Return true if the text starts with an ASCII hexadecimal digit.
pub fn starts_with_hex_digit(s: &[u8]) -> (r: bool)
    ensures
        r == (s@.len() > 0 && spec_is_hex_digit(s@[0])),
{
    s.len() > 0 && is_hex_digit(s[0])
}

/// First index at or after `i` whose byte is not a digit of the radix, or the
/// length of the text.
pub open spec fn radix_run(s: Seq<u8>, i: int, radix: u8) -> int
    decreases s.len() - i,
{
    if i < 0 || i >= s.len() || spec_parse_digit(s[i]) >= radix {
        i
    } else {
        radix_run(s, i + 1, radix)
    }
}

/// The radix run holds only digits of the radix and ends at the first byte
/// that is none, or at the end of the text.
pub proof fn lemma_radix_run(s: Seq<u8>, i: int, radix: u8)
    requires
        0 <= i <= s.len(),
    ensures
        i <= radix_run(s, i, radix) <= s.len(),
        forall|k: int|
            i <= k < radix_run(s, i, radix) ==> spec_parse_digit(#[trigger] s[k]) < radix,
        radix_run(s, i, radix) < s.len() ==> spec_parse_digit(s[radix_run(s, i, radix)]) >= radix,
    decreases s.len() - i,
{
    if i < s.len() && spec_parse_digit(s[i]) < radix {
        lemma_radix_run(s, i + 1, radix);
    }
}

/// The digit values of `s[start..end]`, least-significant first, read from
/// text that stores them most-significant first.
pub open spec fn digits_lsf(s: Seq<u8>, start: int, end: int) -> Seq<u8> {
    Seq::new((end - start) as nat, |k: int| spec_parse_digit(s[end - 1 - k]))
}

/// The value of the decimal digit bytes `s[start..end]`.
pub open spec fn dec_value(s: Seq<u8>, start: int, end: int) -> int
    decreases end - start,
{
    if end <= start {
        0
    } else {
        dec_value(s, start, end - 1) * 10 + (s[end - 1] - 48)
    }
}

/// What parsing an integer of the given radix from `s[start..]` yields: the
/// digit values least-significant first, or the error at the first byte that
/// is no digit of the radix. The text must end with the number.
pub open spec fn spec_parse_int(s: Seq<u8>, start: int, radix: Radix) -> Result<
    Seq<u8>,
    ParseError,
> {
    let j = radix_run(s, start, radix.spec_value());
    if j == s.len() {
        Ok(digits_lsf(s, start, j))
    } else {
        let c = s[j];
        let d = spec_parse_digit(c);
        if d < 10 {
            Err(ParseError::InvalidDigit(radix, c))
        } else if c == 46 {
            Err(ParseError::UnexpectedPoint(radix))
        } else {
            Err(ParseError::UnexpectedChar(c))
        }
    }
}

/// What parsing a mantissa from `s[start..]` yields: the digit values
/// most-significant first, the number of digits past the decimal point if a
/// point occurs, and the index where the mantissa ends. A second point is an
/// error.
pub open spec fn spec_parse_mantissa(s: Seq<u8>, start: int) -> Result<
    (Seq<u8>, Option<int>, int),
    ParseError,
> {
    let j = radix_run(s, start, 10);
    if j < s.len() && s[j] == 46 {
        let j2 = radix_run(s, j + 1, 10);
        if j2 < s.len() && s[j2] == 46 {
            Err(ParseError::ExtraPoint)
        } else {
            Ok((digits_lsf(s, start, j).reverse() + digits_lsf(s, j + 1, j2).reverse(), Some(
                j2 - (j + 1),
            ), j2))
        }
    } else {
        Ok((digits_lsf(s, start, j).reverse(), None, j))
    }
}

/// What parsing an exponent suffix from `s[start..]` yields: the exponent
/// value clamped to 32-bit range, and the index where it ends. Without a
/// well-formed `e`/`E` suffix nothing is consumed; a sign with no digits is
/// an error.
pub open spec fn spec_parse_exponent(s: Seq<u8>, start: int) -> Result<
    (Option<int>, int),
    ParseError,
> {
    if start < s.len() && (s[start] == 101 || s[start] == 69) {
        if start + 1 < s.len() && (s[start + 1] == 43 || s[start + 1] == 45) {
            let neg = s[start + 1] == 45;
            let j = radix_run(s, start + 2, 10);
            if j == start + 2 {
                Err(ParseError::NoExponentValue)
            } else {
                Ok((Some(clamp_exponent(dec_value(s, start + 2, j), neg)), j))
            }
        } else if start + 1 < s.len() && spec_is_digit(s[start + 1]) {
            let j = radix_run(s, start + 1, 10);
            Ok((Some(clamp_exponent(dec_value(s, start + 1, j), false)), j))
        } else {
            Ok((None, start))
        }
    } else {
        Ok((None, start))
    }
}

/// Clamp an unsigned exponent value to the 32-bit range, negating it first
/// when `neg` holds. Values beyond 32 bits saturate.
pub open spec fn clamp_exponent(v: int, neg: bool) -> int {
    let clipped = if v > u32::MAX {
        u32::MAX as int
    } else {
        v
    };
    if neg {
        if clipped > i32::MAX {
            i32::MIN as int
        } else {
            -clipped
        }
    } else {
        if clipped > i32::MAX {
            i32::MAX as int
        } else {
            clipped
        }
    }
}

/// Fold the count of fractional digits into the exponent: the stored exponent
/// of a decimal is biased down by the number of digits past the point.
pub open spec fn spec_bias_exponent(exponent: Option<int>, frac: Option<int>) -> Option<int> {
    match frac {
        Some(count) => Some(
            {
                let bias = if count > i32::MAX {
                    i32::MIN as int
                } else {
                    -count
                };
                match exponent {
                    Some(value) => {
                        if value == i32::MIN || value == i32::MAX {
                            value
                        } else if value + bias > i32::MAX {
                            i32::MAX as int
                        } else if value + bias < i32::MIN {
                            i32::MIN as int
                        } else {
                            value + bias
                        }
                    },
                    None => bias,
                }
            },
        ),
        None => exponent,
    }
}

/// What parsing a decimal number from `s[start..]` yields: the model fields
/// and the index where the number ends.
pub open spec fn spec_parse_dec(s: Seq<u8>, start: int, sign: Sign) -> Result<
    (NumModel, int),
    ParseError,
> {
    match spec_parse_mantissa(s, start) {
        Err(e) => Err(e),
        Ok((digits_msf, frac, j)) => {
            if digits_msf.len() == 0 {
                Err(ParseError::NoDigits)
            } else {
                match spec_parse_exponent(s, j) {
                    Err(e) => Err(e),
                    Ok((exponent, j2)) => Ok(
                        (
                            NumModel {
                                sign,
                                radix: Radix::Decimal,
                                digits: digits_msf.reverse(),
                                exponent: spec_bias_exponent(exponent, frac),
                            },
                            j2,
                        ),
                    ),
                }
            }
        },
    }
}

/// What parsing a number from the whole text yields: the model and the index
/// where the number ends. A sign byte is consumed first; a `0b`/`0o`/`0x`
/// prefix followed by a digit selects an integer radix, in which case the
/// number must reach the end of the text; anything else parses as decimal.
pub open spec fn spec_parse(s: Seq<u8>) -> Result<(NumModel, int), ParseError> {
    let i0: int = if s.len() > 0 && (s[0] == 43 || s[0] == 45) {
        1
    } else {
        0
    };
    let sign = if s.len() > 0 && s[0] == 45 {
        Sign::Negative
    } else {
        Sign::Positive
    };
    if s.len() > i0 + 2 && s[i0] == 48 && (s[i0 + 1] == 98 || s[i0 + 1] == 66) && spec_is_digit(
        s[i0 + 2],
    ) {
        spec_parse_int_result(s, i0 + 2, Radix::Binary, sign)
    } else if s.len() > i0 + 2 && s[i0] == 48 && (s[i0 + 1] == 111 || s[i0 + 1] == 79)
        && spec_is_digit(s[i0 + 2]) {
        spec_parse_int_result(s, i0 + 2, Radix::Octal, sign)
    } else if s.len() > i0 + 2 && s[i0] == 48 && (s[i0 + 1] == 120 || s[i0 + 1] == 88)
        && spec_is_hex_digit(s[i0 + 2]) {
        spec_parse_int_result(s, i0 + 2, Radix::Hexadecimal, sign)
    } else {
        spec_parse_dec(s, i0, sign)
    }
}

/// The model built from an integer parse of the given radix.
pub open spec fn spec_parse_int_result(s: Seq<u8>, start: int, radix: Radix, sign: Sign) -> Result<
    (NumModel, int),
    ParseError,
> {
    match spec_parse_int(s, start, radix) {
        Err(e) => Err(e),
        Ok(digits) => Ok(
            (NumModel { sign, radix, digits, exponent: None }, s.len() as int),
        ),
    }
}

/// A number which has been parsed into its parts.
///
/// Digits are stored least-significant first.
#[derive(Debug, Clone)]
pub struct ParsedNumber {
    pub sign: Sign,
    pub radix: Radix,
    pub digits: Vec<u8>,
    pub exponent: Option<i32>,
}

impl ParsedNumber {
    /// The mathematical content of the number.
    pub open spec fn model(&self) -> NumModel {
        NumModel {
            sign: self.sign,
            radix: self.radix,
            digits: self.digits@,
            exponent: match self.exponent {
                Some(e) => Some(e as int),
                None => None,
            },
        }
    }

    /// Create an empty parsed number: positive, decimal, with no digits.
    pub fn new() -> (r: Self)
        ensures
            r.model() == (NumModel {
                sign: Sign::Positive,
                radix: Radix::Decimal,
                digits: Seq::<u8>::empty(),
                exponent: None::<int>,
            }),
    {
        let r = ParsedNumber {
            sign: Sign::Positive,
            radix: Radix::Decimal,
            digits: Vec::new(),
            exponent: None,
        };
        proof {
            assert(r.digits@ =~= Seq::<u8>::empty());
        }
        r
    }

    /// Parse a number from its textual representation.
    ///
    /// Returns the remainder of the text, which appears after the number;
    /// the parsed fields replace the number's previous content. On an error
    /// the reported span lies within `pos`, which must span the text.
    pub fn parse<'a>(&mut self, text: &'a [u8], pos: Span) -> (r: Result<
        &'a [u8],
        (ParseError, Span),
    >)
        requires
            pos.wf(),
            pos.end.0 - pos.start.0 == text@.len(),
        ensures
            r matches Ok(rest) ==> {
                &&& spec_parse(text@) matches Ok((m, end))
                &&& final(self).model() == m
                &&& rest@ == text@.subrange(end, text@.len() as int)
                &&& rest@.len() <= text@.len()
            },
            r matches Err((e, sp)) ==> {
                &&& spec_parse(text@) matches Err(e2) && e == e2
                &&& pos.start.0 <= sp.start.0 <= sp.end.0 <= pos.end.0
            },
    {
        let len = text.len();
        let (sign, i0): (Sign, usize) = if len > 0 && text[0] == 45 {
            (Sign::Negative, 1)
        } else if len > 0 && text[0] == 43 {
            (Sign::Positive, 1)
        } else {
            (Sign::Positive, 0)
        };
        self.sign = sign;
        if len > i0 + 2 && text[i0] == 48 {
            let marker = text[i0 + 1];
            let after = text[i0 + 2];
            if (marker == 98 || marker == 66) && is_digit(after) {
                return self.parse_int(Radix::Binary, text, i0 + 2, pos);
            }
            if (marker == 111 || marker == 79) && is_digit(after) {
                return self.parse_int(Radix::Octal, text, i0 + 2, pos);
            }
            if (marker == 120 || marker == 88) && is_hex_digit(after) {
                return self.parse_int(Radix::Hexadecimal, text, i0 + 2, pos);
            }
        }
        self.parse_dec(text, i0, pos)
    }

    /// Parse an integer of the given radix from `text[start..]`, which must
    /// reach the end of the text; the remainder is always empty.
    #[verifier::loop_isolation(false)]
    fn parse_int<'a>(&mut self, radix: Radix, text: &'a [u8], start: usize, pos: Span) -> (r:
        Result<&'a [u8], (ParseError, Span)>)
        requires
            pos.wf(),
            pos.end.0 - pos.start.0 == text@.len(),
            0 <= start <= text@.len(),
            old(self).sign == (if text@.len() > 0 && text@[0] == 45 {
                Sign::Negative
            } else {
                Sign::Positive
            }),
        ensures
            r matches Ok(rest) ==> {
                &&& spec_parse_int_result(text@, start as int, radix, old(self).sign) matches Ok(
                    (m, end),
                )
                &&& final(self).model() == m
                &&& rest@ == text@.subrange(end, text@.len() as int)
                &&& rest@.len() <= text@.len()
            },
            r matches Err((e, sp)) ==> {
                &&& spec_parse_int_result(text@, start as int, radix, old(self).sign) matches Err(
                    e2,
                ) && e == e2
                &&& pos.start.0 <= sp.start.0 <= sp.end.0 <= pos.end.0
            },
            final(self).sign == old(self).sign,
    {
        let len = text.len();
        let rv = radix.value();
        self.radix = radix;
        self.digits = Vec::new();
        self.exponent = None;
        proof {
            lemma_radix_run(text@, start as int, rv);
        }
        let ghost j = radix_run(text@, start as int, rv);
        let mut i: usize = start;
        while i < len
            invariant
                start <= i <= len,
                len == text@.len(),
                i <= j,
                j == radix_run(text@, start as int, rv),
                rv == radix.spec_value(),
                self.digits@.len() == i - start,
                forall|k: int|
                    0 <= k < i - start ==> #[trigger] self.digits@[k] == spec_parse_digit(
                        text@[start + k],
                    ),
                self.sign == old(self).sign,
                self.radix == radix,
                self.exponent is None,
            decreases len - i,
        {
            let c = text[i];
            let d = parse_digit(c);
            if d >= rv {
                proof {
                    lemma_radix_run(text@, start as int, rv);
                    assert(j <= i) by {
                        if j > i {
                            assert(spec_parse_digit(text@[i as int]) < rv);
                        }
                    }
                }
                let e = if d < 10 {
                    ParseError::InvalidDigit(radix, c)
                } else if c == 46 {
                    ParseError::UnexpectedPoint(radix)
                } else {
                    ParseError::UnexpectedChar(c)
                };
                return Err((e, pos.sub_span(i, i + 1)));
            }
            proof {
                if j == i {
                    lemma_radix_run(text@, start as int, rv);
                    assert(false);
                }
            }
            self.digits.push(d);
            i = i + 1;
        }
        proof {
            assert(j == len);
        }
        reverse_digits(&mut self.digits);
        proof {
            let d = digits_lsf(text@, start as int, len as int);
            assert forall|m: int| 0 <= m < self.digits@.len() implies #[trigger] self.digits@[m]
                == d[m] by {
                assert(self.digits@[m] == spec_parse_digit(text@[start + (len - start - 1 - m)]));
                assert(start + (len - start - 1 - m) == len - 1 - m);
            }
            assert(self.digits@ =~= d);
        }
        let rest = slice_subrange(text, len, len);
        proof {
            assert(rest@ =~= text@.subrange(len as int, len as int));
        }
        Ok(rest)
    }

    /// Parse a decimal number from `text[start..]` and return the remainder.
    #[verifier::loop_isolation(false)]
    fn parse_dec<'a>(&mut self, text: &'a [u8], start: usize, pos: Span) -> (r: Result<
        &'a [u8],
        (ParseError, Span),
    >)
        requires
            pos.wf(),
            pos.end.0 - pos.start.0 == text@.len(),
            0 <= start <= text@.len(),
            old(self).sign == (if text@.len() > 0 && text@[0] == 45 {
                Sign::Negative
            } else {
                Sign::Positive
            }),
        ensures
            r matches Ok(rest) ==> {
                &&& spec_parse_dec(text@, start as int, old(self).sign) matches Ok((m, end))
                &&& final(self).model() == m
                &&& rest@ == text@.subrange(end, text@.len() as int)
                &&& rest@.len() <= text@.len()
            },
            r matches Err((e, sp)) ==> {
                &&& spec_parse_dec(text@, start as int, old(self).sign) matches Err(e2) && e == e2
                &&& pos.start.0 <= sp.start.0 <= sp.end.0 <= pos.end.0
            },
    {
        let len = text.len();
        self.radix = Radix::Decimal;
        self.digits = Vec::new();
        self.exponent = None;
        proof {
            lemma_radix_run(text@, start as int, 10);
        }
        // Integer part.
        let j = scan_digits(text, start);
        let mut i: usize = start;
        while i < j
            invariant
                start <= i <= j <= len,
                len == text@.len(),
                j == radix_run(text@, start as int, 10),
                forall|k: int|
                    start <= k < j ==> spec_parse_digit(#[trigger] text@[k]) < 10,
                self.digits@.len() == i - start,
                forall|k: int|
                    0 <= k < i - start ==> #[trigger] self.digits@[k] == spec_parse_digit(
                        text@[start + k],
                    ),
                self.sign == old(self).sign,
                self.radix == Radix::Decimal,
                self.exponent is None,
            decreases j - i,
        {
            self.digits.push(parse_digit(text[i]));
            i = i + 1;
        }
        // Fractional part.
        let (frac, mend): (Option<usize>, usize) = if j < len && text[j] == 46 {
            let j2 = scan_digits(text, j + 1);
            if j2 < len && text[j2] == 46 {
                return Err((ParseError::ExtraPoint, pos.sub_span(j2, j2 + 1)));
            }
            let mut i2: usize = j + 1;
            while i2 < j2
                invariant
                    start <= j < i2 <= j2 <= len,
                    len == text@.len(),
                    j == radix_run(text@, start as int, 10),
                    j2 == radix_run(text@, j + 1, 10),
                    forall|k: int|
                        j + 1 <= k < j2 ==> spec_parse_digit(#[trigger] text@[k]) < 10,
                    self.digits@.len() == (j - start) + (i2 - (j + 1)),
                    forall|k: int|
                        0 <= k < j - start ==> #[trigger] self.digits@[k] == spec_parse_digit(
                            text@[start + k],
                        ),
                    forall|k: int|
                        0 <= k < i2 - (j + 1) ==> #[trigger] self.digits@[(j - start) + k]
                            == spec_parse_digit(text@[j + 1 + k]),
                    self.sign == old(self).sign,
                    self.radix == Radix::Decimal,
                    self.exponent is None,
                decreases j2 - i2,
            {
                self.digits.push(parse_digit(text[i2]));
                i2 = i2 + 1;
            }
            (Some(j2 - (j + 1)), j2)
        } else {
            (None, j)
        };
        proof {
            let msf = (match spec_parse_mantissa(text@, start as int) {
                Ok((digits_msf, _, _)) => digits_msf,
                Err(_) => Seq::<u8>::empty(),
            });
            assert forall|m: int| 0 <= m < self.digits@.len() implies #[trigger] self.digits@[m]
                == msf[m] by {
                let jj = radix_run(text@, start as int, 10);
                if m < jj - start {
                    assert(self.digits@[m] == spec_parse_digit(text@[start + m]));
                    assert(digits_lsf(text@, start as int, jj).reverse()[m] == spec_parse_digit(
                        text@[start + m],
                    ));
                } else {
                    let j2 = radix_run(text@, jj + 1, 10);
                    let k = m - (jj - start);
                    assert(self.digits@[(jj - start) + k] == spec_parse_digit(text@[jj + 1 + k]));
                    assert(digits_lsf(text@, jj + 1, j2).reverse()[k] == spec_parse_digit(
                        text@[jj + 1 + k],
                    ));
                }
            }
            assert(self.digits@ =~= msf);
        }
        if self.digits.len() == 0 {
            return Err((ParseError::NoDigits, pos));
        }
        reverse_digits(&mut self.digits);
        // Exponent.
        let (exponent, end) = match parse_exponent(text, mend, pos)? {
            (e, end) => (e, end),
        };
        self.exponent = bias_exponent(exponent, frac);
        proof {
            let m = (match spec_parse_dec(text@, start as int, old(self).sign) {
                Ok((m, _)) => m,
                Err(_) => arbitrary(),
            });
            assert(self.digits@ =~= m.digits);
        }
        let rest = slice_subrange(text, end, len);
        Ok(rest)
    }
}

/// Reverse the digit vector in place.
#[verifier::loop_isolation(false)]
fn reverse_digits(digits: &mut Vec<u8>)
    ensures
        final(digits)@.len() == old(digits)@.len(),
        forall|m: int|
            0 <= m < old(digits)@.len() ==> #[trigger] final(digits)@[m] == old(
                digits,
            )@[old(digits)@.len() - 1 - m],
        final(digits)@ == old(digits)@.reverse(),
{
    let len = digits.len();
    let mut out: Vec<u8> = Vec::new();
    let mut i: usize = 0;
    while i < len
        invariant
            0 <= i <= len,
            len == old(digits)@.len(),
            digits@ == old(digits)@,
            out@.len() == i,
            forall|k: int| 0 <= k < i ==> out@[k] == old(digits)@[len - 1 - k],
        decreases len - i,
    {
        out.push(digits[len - 1 - i]);
        i = i + 1;
    }
    *digits = out;
    proof {
        assert(digits@ =~= old(digits)@.reverse());
    }
}

/// Return the end of the run of decimal digits that starts at `i`.
#[verifier::loop_isolation(false)]
pub fn scan_digits(text: &[u8], i: usize) -> (r: usize)
    requires
        0 <= i <= text@.len(),
    ensures
        r as int == radix_run(text@, i as int, 10),
        i <= r <= text@.len(),
        forall|k: int| i <= k < r ==> spec_parse_digit(#[trigger] text@[k]) < 10,
        r < text@.len() ==> spec_parse_digit(text@[r as int]) >= 10,
{
    proof {
        lemma_radix_run(text@, i as int, 10);
    }
    let mut r: usize = i;
    while r < text.len() && is_digit(text[r])
        invariant
            i <= r <= text@.len(),
            r <= radix_run(text@, i as int, 10),
            forall|k: int| i <= k < r ==> spec_parse_digit(#[trigger] text@[k]) < 10,
        decreases text@.len() - r,
    {
        proof {
            if radix_run(text@, i as int, 10) == r {
                lemma_radix_run(text@, i as int, 10);
                assert(false);
            }
        }
        r = r + 1;
    }
    proof {
        lemma_radix_run(text@, i as int, 10);
        assert(r == radix_run(text@, i as int, 10)) by {
            if (r as int) < radix_run(text@, i as int, 10) {
                assert(spec_parse_digit(text@[r as int]) < 10);
            }
        }
    }
    r
}

/// Parse an exponent suffix from `text[start..]`.
///
/// Returns the exponent's value, clamped to the 32-bit range, and the index
/// where it ends; without a well-formed suffix nothing is consumed. A sign
/// with no digit after it is an error at the consumed bytes.
#[verifier::loop_isolation(false)]
fn parse_exponent(text: &[u8], start: usize, pos: Span) -> (r: Result<
    (Option<i32>, usize),
    (ParseError, Span),
>)
    requires
        pos.wf(),
        pos.end.0 - pos.start.0 == text@.len(),
        0 <= start <= text@.len(),
    ensures
        r matches Ok((e, end)) ==> {
            &&& spec_parse_exponent(text@, start as int) matches Ok((e2, end2))
            &&& end == end2
            &&& (match (e, e2) {
                (Some(v), Some(v2)) => v == v2,
                (None, None) => true,
                _ => false,
            })
            &&& start <= end <= text@.len()
        },
        r matches Err((e, sp)) ==> {
            &&& spec_parse_exponent(text@, start as int) matches Err(e2) && e == e2
            &&& pos.start.0 <= sp.start.0 <= sp.end.0 <= pos.end.0
        },
{
    let len = text.len();
    if !(start < len && (text[start] == 101 || text[start] == 69)) {
        return Ok((None, start));
    }
    let (neg, dstart): (bool, usize) = if start + 1 < len && text[start + 1] == 43 {
        (false, start + 2)
    } else if start + 1 < len && text[start + 1] == 45 {
        (true, start + 2)
    } else if start + 1 < len && is_digit(text[start + 1]) {
        (false, start + 1)
    } else {
        return Ok((None, start));
    };
    let j = scan_digits(text, dstart);
    if j == dstart {
        // Only reachable after an explicit sign with no digits.
        return Err((ParseError::NoExponentValue, pos.sub_span(start, j)));
    }
    // Accumulate the value, saturating at the 32-bit unsigned limit.
    let mut value: u32 = 0;
    let mut i: usize = dstart;
    while i < j
        invariant
            dstart <= i <= j <= text@.len(),
            forall|k: int| dstart <= k < j ==> spec_parse_digit(#[trigger] text@[k]) < 10,
            value == (if dec_value(text@, dstart as int, i as int) > u32::MAX {
                u32::MAX as int
            } else {
                dec_value(text@, dstart as int, i as int)
            }),
        decreases j - i,
    {
        proof {
            lemma_dec_value_nonneg(text@, dstart as int, i as int);
        }
        let d = text[i] - 48;
        let next = if value > (u32::MAX - d as u32) / 10 {
            u32::MAX
        } else {
            value * 10 + d as u32
        };
        proof {
            let prev = dec_value(text@, dstart as int, i as int);
            let cur = dec_value(text@, dstart as int, i as int + 1);
            assert(cur == prev * 10 + (text@[i as int] - 48));
            if prev > u32::MAX {
                assert(cur > u32::MAX);
            }
        }
        value = next;
        i = i + 1;
    }
    let exponent: i32 = if neg {
        if value > i32::MAX as u32 {
            i32::MIN
        } else {
            -(value as i32)
        }
    } else {
        if value > i32::MAX as u32 {
            i32::MAX
        } else {
            value as i32
        }
    };
    Ok((Some(exponent), j))
}

/// Fold the count of fractional digits into the exponent.
fn bias_exponent(exponent: Option<i32>, frac: Option<usize>) -> (r: Option<i32>)
    ensures
        (match r {
            Some(v) => Some(v as int),
            None => None,
        }) == spec_bias_exponent(
            match exponent {
                Some(v) => Some(v as int),
                None => None::<int>,
            },
            match frac {
                Some(v) => Some(v as int),
                None => None::<int>,
            },
        ),
{
    match frac {
        Some(count) => Some(
            {
                let bias: i32 = if count > i32::MAX as usize {
                    i32::MIN
                } else {
                    0i32 - count as i32
                };
                match exponent {
                    Some(value) => {
                        if value == i32::MIN || value == i32::MAX {
                            value
                        } else if i32::MIN - bias <= value {
                            // bias is never positive, so the sum cannot
                            // exceed the value itself.
                            value + bias
                        } else {
                            i32::MIN
                        }
                    },
                    None => bias,
                }
            },
        ),
        None => exponent,
    }
}

proof fn lemma_dec_value_nonneg(s: Seq<u8>, start: int, end: int)
    requires
        forall|k: int| start <= k < end ==> spec_parse_digit(#[trigger] s[k]) < 10,
    ensures
        dec_value(s, start, end) >= 0,
    decreases end - start,
{
    if end > start {
        lemma_dec_value_nonneg(s, start, end - 1);
    }
}

/// The value of a number's content, when it is an integer: the digit value
/// in the radix, with the sign applied.
pub open spec fn spec_model_value(m: NumModel) -> int {
    let mag = ParsedNumber::lsf_value(m.digits, m.radix.spec_value() as int);
    if m.sign == Sign::Negative {
        -mag
    } else {
        mag
    }
}

/// The number of digits that remain after dropping high-order zeros: the
/// largest prefix of the least-significant-first digits that ends in a
/// nonzero digit, or none when every digit is zero.
pub open spec fn significant_len(d: Seq<u8>) -> int
    decreases d.len(),
{
    if d.len() == 0 {
        0
    } else if d.last() != 0 {
        d.len() as int
    } else {
        significant_len(d.drop_last())
    }
}

/// The number of zero digits at the least-significant end.
pub open spec fn low_zero_run(d: Seq<u8>) -> int
    decreases d.len(),
{
    if d.len() == 0 || d[0] != 0 {
        0
    } else {
        1 + low_zero_run(d.drop_first())
    }
}

/// Add the count of dropped low zeros to the exponent, with the count and
/// the sum each clamped to the 32-bit limit.
pub open spec fn spec_exponent_shift(e: int, n: int) -> int {
    let shift = if n > i32::MAX {
        i32::MAX as int
    } else {
        n
    };
    if e + shift > i32::MAX {
        i32::MAX as int
    } else {
        e + shift
    }
}

/// What trimming does to a number: drop high-order zeros always, and, when
/// an exponent is present, drop low-order zeros too while raising the
/// exponent by their count.
pub open spec fn spec_trim(m: NumModel) -> NumModel {
    let d1 = m.digits.subrange(0, significant_len(m.digits));
    match m.exponent {
        None => NumModel { sign: m.sign, radix: m.radix, digits: d1, exponent: None },
        Some(e) => {
            let n = low_zero_run(d1);
            NumModel {
                sign: m.sign,
                radix: m.radix,
                digits: d1.subrange(n, d1.len() as int),
                exponent: Some(spec_exponent_shift(e, n)),
            }
        },
    }
}

pub proof fn lemma_significant_len(d: Seq<u8>)
    ensures
        0 <= significant_len(d) <= d.len(),
        forall|k: int| significant_len(d) <= k < d.len() ==> #[trigger] d[k] == 0,
        significant_len(d) > 0 ==> d[significant_len(d) - 1] != 0,
    decreases d.len(),
{
    if d.len() > 0 && d.last() == 0 {
        lemma_significant_len(d.drop_last());
        assert forall|k: int| significant_len(d) <= k < d.len() implies #[trigger] d[k] == 0 by {
            if k < d.len() - 1 {
                assert(d.drop_last()[k] == 0);
            }
        }
    }
}

pub proof fn lemma_low_zero_run(d: Seq<u8>)
    ensures
        0 <= low_zero_run(d) <= d.len(),
        forall|k: int| 0 <= k < low_zero_run(d) ==> #[trigger] d[k] == 0,
        low_zero_run(d) < d.len() ==> d[low_zero_run(d)] != 0,
    decreases d.len(),
{
    if d.len() > 0 && d[0] == 0 {
        lemma_low_zero_run(d.drop_first());
        assert forall|k: int| 0 <= k < low_zero_run(d) implies #[trigger] d[k] == 0 by {
            if k > 0 {
                assert(d.drop_first()[k - 1] == 0);
            }
        }
    }
}

impl ParsedNumber {
    /// Trim a number by removing leading and trailing zeroes where possible.
    /// This may remove all digits from the number, if they are all zero.
    #[verifier::loop_isolation(false)]
    pub fn trim(&mut self)
        ensures
            final(self).model() == spec_trim(old(self).model()),
    {
        proof {
            lemma_significant_len(self.digits@);
        }
        // Drop high-order zeros from the most-significant end.
        let mut keep: usize = self.digits.len();
        while keep > 0 && self.digits[keep - 1] == 0
            invariant
                0 <= keep <= self.digits@.len(),
                significant_len(self.digits@) <= keep,
                forall|k: int| keep <= k < self.digits@.len() ==> #[trigger] self.digits@[k] == 0,
                self == old(self),
            decreases keep,
        {
            proof {
                if significant_len(self.digits@) == keep {
                    lemma_significant_len(self.digits@);
                    assert(false);
                }
            }
            keep = keep - 1;
        }
        proof {
            assert(keep == significant_len(self.digits@)) by {
                lemma_significant_len(self.digits@);
                if keep > significant_len(self.digits@) {
                    assert(self.digits@[keep - 1] == 0);
                }
            }
        }
        self.digits.truncate(keep);
        proof {
            assert(self.digits@ =~= old(self).digits@.subrange(
                0,
                significant_len(old(self).digits@),
            ));
        }
        if self.exponent.is_some() {
            let exponent = self.exponent.unwrap();
            proof {
                lemma_low_zero_run(self.digits@);
            }
            // Count and drop low-order zeros, raising the exponent.
            let mut n: usize = 0;
            let len = self.digits.len();
            while n < len && self.digits[n] == 0
                invariant
                    0 <= n <= len,
                    len == self.digits@.len(),
                    n <= low_zero_run(self.digits@),
                    forall|k: int| 0 <= k < n ==> #[trigger] self.digits@[k] == 0,
                    self.digits@ == old(self).digits@.subrange(
                        0,
                        significant_len(old(self).digits@),
                    ),
                decreases len - n,
            {
                proof {
                    if low_zero_run(self.digits@) == n {
                        lemma_low_zero_run(self.digits@);
                        assert(false);
                    }
                }
                n = n + 1;
            }
            proof {
                assert(n == low_zero_run(self.digits@)) by {
                    lemma_low_zero_run(self.digits@);
                    if n < low_zero_run(self.digits@) {
                        assert(self.digits@[n as int] == 0);
                    }
                }
            }
            let mut rest: Vec<u8> = Vec::new();
            let mut i: usize = n;
            while i < len
                invariant
                    n <= i <= len,
                    len == self.digits@.len(),
                    rest@.len() == i - n,
                    forall|k: int| 0 <= k < i - n ==> #[trigger] rest@[k] == self.digits@[n + k],
                    self.digits@ == old(self).digits@.subrange(
                        0,
                        significant_len(old(self).digits@),
                    ),
                decreases len - i,
            {
                rest.push(self.digits[i]);
                i = i + 1;
            }
            proof {
                assert(rest@ =~= self.digits@.subrange(n as int, len as int));
            }
            self.digits = rest;
            let shift: i32 = if n > i32::MAX as usize {
                i32::MAX
            } else {
                n as i32
            };
            let new_exponent = if exponent > i32::MAX - shift {
                i32::MAX
            } else {
                exponent + shift
            };
            self.exponent = Some(new_exponent);
        }
    }
}

/// The bytes of the decimal rendering of a non-negative value.
pub open spec fn dec_digits_of(n: int) -> Seq<u8>
    decreases n,
{
    if n < 10 {
        seq![(48 + n) as u8]
    } else {
        dec_digits_of(n / 10) + seq![(48 + n % 10) as u8]
    }
}

/// The byte that renders one digit value: `0`-`9` then `a`-`f`.
pub open spec fn digit_byte_of(d: u8) -> u8 {
    if d < 10 {
        (48 + d) as u8
    } else {
        (87 + d) as u8
    }
}

/// The textual rendering of a number: sign, radix prefix, the digits from
/// most significant to least (a lone `0` when there are none), and the
/// exponent as `e` with an explicit sign.
pub open spec fn spec_render(m: NumModel) -> Seq<u8> {
    let sign_part: Seq<u8> = if m.sign == Sign::Negative {
        seq![45u8]
    } else {
        Seq::empty()
    };
    let prefix_part: Seq<u8> = match m.radix {
        Radix::Binary => seq![48u8, 98u8],
        Radix::Octal => seq![48u8, 111u8],
        Radix::Decimal => Seq::empty(),
        Radix::Hexadecimal => seq![48u8, 120u8],
    };
    let digits_part: Seq<u8> = if m.digits.len() == 0 {
        seq![48u8]
    } else {
        Seq::new(m.digits.len(), |i: int| digit_byte_of(m.digits[m.digits.len() - 1 - i]))
    };
    let exp_part: Seq<u8> = match m.exponent {
        None => Seq::empty(),
        Some(e) => seq![101u8] + (if e >= 0 {
            seq![43u8]
        } else {
            seq![45u8]
        }) + dec_digits_of(if e >= 0 {
            e
        } else {
            -e
        }),
    };
    sign_part + prefix_part + digits_part + exp_part
}

/// Append the decimal rendering of the value to the buffer.
pub fn push_u32_decimal(out: &mut Vec<u8>, v: u32)
    ensures
        final(out)@ == old(out)@ + dec_digits_of(v as int),
    decreases v,
{
    if v >= 10 {
        proof {
            assert(v / 10 < v) by (nonlinear_arith)
                requires
                    v >= 10,
            ;
        }
        push_u32_decimal(out, v / 10);
        out.push(48 + (v % 10) as u8);
        proof {
            assert(final(out)@ =~= old(out)@ + dec_digits_of(v as int));
        }
    } else {
        out.push(48 + v as u8);
        proof {
            assert(final(out)@ =~= old(out)@ + dec_digits_of(v as int));
        }
    }
}

/// Every byte of a decimal rendering is an ASCII digit.
pub proof fn lemma_dec_digits_ascii(n: int)
    requires
        n >= 0,
    ensures
        forall|i: int|
            0 <= i < dec_digits_of(n).len() ==> 48 <= #[trigger] dec_digits_of(n)[i] <= 57,
    decreases n,
{
    if n >= 10 {
        lemma_dec_digits_ascii(n / 10);
        assert forall|i: int| 0 <= i < dec_digits_of(n).len() implies 48 <= #[trigger] dec_digits_of(
            n,
        )[i] <= 57 by {
            if i < dec_digits_of(n / 10).len() {
                assert(dec_digits_of(n)[i] == dec_digits_of(n / 10)[i]);
            }
        }
    }
}

impl ParsedNumber {
    /// True when every digit fits its radix and an exponent occurs only on a
    /// decimal number.
    pub open spec fn wf(&self) -> bool {
        forall|i: int|
            0 <= i < self.digits@.len() ==> #[trigger] self.digits@[i] < self.radix.spec_value()
    }

    /// Render the number as text that parses back to the same content.
    #[verifier::loop_isolation(false)]
    #[verifier::rlimit(100)]
    pub fn to_string(&self) -> (r: String)
        requires
            self.wf(),
        ensures
            r@ == crate::utf8::ascii_chars(spec_render(self.model())),
    {
        let mut out: Vec<u8> = Vec::new();
        if let Sign::Negative = self.sign {
            out.push(45);
        }
        match self.radix {
            Radix::Binary => {
                out.push(48);
                out.push(98);
            },
            Radix::Octal => {
                out.push(48);
                out.push(111);
            },
            Radix::Decimal => {},
            Radix::Hexadecimal => {
                out.push(48);
                out.push(120);
            },
        }
        let ghost head = out@;
        let len = self.digits.len();
        if len == 0 {
            out.push(48);
        } else {
            let mut i: usize = 0;
            while i < len
                invariant
                    0 <= i <= len,
                    out@.len() == head.len() + i,
                    out@.subrange(0, head.len() as int) == head,
                    forall|k: int|
                        0 <= k < i ==> #[trigger] out@[head.len() + k] == digit_byte_of(
                            self.digits@[len - 1 - k],
                        ),
                decreases len - i,
            {
                let d = self.digits[len - 1 - i];
                out.push(if d < 10 {
                    48 + d
                } else {
                    87 + d
                });
                proof {
                    assert(out@.subrange(0, head.len() as int) =~= head);
                }
                i = i + 1;
            }
        }
        let ghost mid = out@;
        match self.exponent {
            None => {},
            Some(e) => {
                out.push(101);
                if e >= 0 {
                    out.push(43);
                    push_u32_decimal(&mut out, e as u32);
                } else {
                    out.push(45);
                    let mag: u32 = if e == i32::MIN {
                        2147483648u32
                    } else {
                        (0i32 - e) as u32
                    };
                    push_u32_decimal(&mut out, mag);
                }
            },
        }
        proof {
            let m = self.model();
            let sign_part: Seq<u8> = if m.sign == Sign::Negative {
                seq![45u8]
            } else {
                Seq::empty()
            };
            let prefix_part: Seq<u8> = match m.radix {
                Radix::Binary => seq![48u8, 98u8],
                Radix::Octal => seq![48u8, 111u8],
                Radix::Decimal => Seq::empty(),
                Radix::Hexadecimal => seq![48u8, 120u8],
            };
            let digits_part: Seq<u8> = if m.digits.len() == 0 {
                seq![48u8]
            } else {
                Seq::new(m.digits.len(), |i: int| digit_byte_of(m.digits[m.digits.len() - 1 - i]))
            };
            let exp_part: Seq<u8> = match m.exponent {
                None => Seq::empty(),
                Some(e) => seq![101u8] + (if e >= 0 {
                    seq![43u8]
                } else {
                    seq![45u8]
                }) + dec_digits_of(if e >= 0 {
                    e
                } else {
                    -e
                }),
            };
            assert(head =~= sign_part + prefix_part);
            assert forall|k: int| 0 <= k < digits_part.len() implies mid[head.len() + k]
                == digits_part[k] by {
                if m.digits.len() > 0 {
                    assert(mid[head.len() + k] == digit_byte_of(self.digits@[len - 1 - k]));
                }
            }
            assert(mid =~= head + digits_part);
            assert(out@ =~= mid + exp_part);
            assert(out@ =~= spec_render(m));
            lemma_spec_render_ascii(m);
        }
        crate::utf8::string_from_ascii(out)
    }

    /// The exact value of the digits in the radix, least-significant first.
    pub open spec fn lsf_value(d: Seq<u8>, r: int) -> int
        decreases d.len(),
    {
        if d.len() == 0 {
            0
        } else {
            d[0] + r * Self::lsf_value(d.drop_first(), r)
        }
    }

    /// The value of the number, when it is an integer: the digit value with
    /// the sign applied.
    pub open spec fn spec_integer_value(&self) -> int {
        spec_model_value(self.model())
    }

    /// The value of the number as a 64-bit integer, or `None` exactly when
    /// it has an exponent or does not fit.
    #[verifier::loop_isolation(false)]
    pub fn integer_value(&self) -> (r: Option<i64>)
        ensures
            r matches Some(v) ==> self.exponent is None && v == self.spec_integer_value(),
            r is None <==> self.exponent is Some || self.spec_integer_value() > i64::MAX
                || self.spec_integer_value() < i64::MIN,
    {
        if self.exponent.is_some() {
            return None;
        }
        let radix = self.radix.value() as u64;
        let len = self.digits.len();
        let mut mag: u64 = 0;
        let mut i: usize = len;
        proof {
            assert(self.digits@.subrange(len as int, len as int) =~= Seq::<u8>::empty());
        }
        while i > 0
            invariant
                0 <= i <= len,
                mag == Self::lsf_value(
                    self.digits@.subrange(i as int, len as int),
                    radix as int,
                ),
                mag <= 0x8000_0000_0000_0000u64,
            decreases i,
        {
            let d = self.digits[i - 1];
            let ghost tail = self.digits@.subrange(i as int, len as int);
            let ghost whole = self.digits@.subrange(i - 1, len as int);
            proof {
                assert(whole.drop_first() =~= tail);
                assert(whole[0] == self.digits@[i - 1]);
                lemma_lsf_value_nonneg(tail, radix as int);
            }
            proof {
                assert(Self::lsf_value(whole, radix as int) == whole[0] + (radix as int) * (
                mag as int));
            }
            let stepped: Option<u64> = match mag.checked_mul(radix) {
                Some(m) => m.checked_add(d as u64),
                None => None,
            };
            let next = match stepped {
                Some(m2) => m2,
                None => {
                    proof {
                        lemma_lsf_value_grows(self.digits@, i - 1, radix as int);
                    }
                    return None;
                },
            };
            if next > 0x8000_0000_0000_0000u64 {
                proof {
                    lemma_lsf_value_grows(self.digits@, i - 1, radix as int);
                }
                return None;
            }
            mag = next;
            i = i - 1;
        }
        proof {
            assert(self.digits@.subrange(0, len as int) =~= self.digits@);
        }
        if let Sign::Negative = self.sign {
            if mag == 0x8000_0000_0000_0000u64 {
                Some(i64::MIN)
            } else {
                Some(0i64 - (mag as i64))
            }
        } else {
            if mag == 0x8000_0000_0000_0000u64 {
                proof {
                    lemma_lsf_value_grows(self.digits@, 0, radix as int);
                }
                None
            } else {
                Some(mag as i64)
            }
        }
    }
}

proof fn lemma_lsf_value_nonneg(d: Seq<u8>, r: int)
    requires
        r >= 0,
    ensures
        ParsedNumber::lsf_value(d, r) >= 0,
    decreases d.len(),
{
    if d.len() > 0 {
        lemma_lsf_value_nonneg(d.drop_first(), r);
        assert(r * ParsedNumber::lsf_value(d.drop_first(), r) >= 0) by (nonlinear_arith)
            requires
                r >= 0,
                ParsedNumber::lsf_value(d.drop_first(), r) >= 0,
        ;
    }
}

/// Digits below the cut can only grow the magnitude.
proof fn lemma_lsf_value_grows(d: Seq<u8>, cut: int, r: int)
    requires
        0 <= cut <= d.len(),
        r >= 2,
    ensures
        ParsedNumber::lsf_value(d, r) >= ParsedNumber::lsf_value(
            d.subrange(cut, d.len() as int),
            r,
        ),
    decreases cut,
{
    if cut == 0 {
        assert(d.subrange(0, d.len() as int) =~= d);
    } else {
        lemma_lsf_value_grows(d, cut - 1, r);
        let upper = d.subrange(cut, d.len() as int);
        let lower = d.subrange(cut - 1, d.len() as int);
        assert(lower.drop_first() =~= upper);
        let uv = ParsedNumber::lsf_value(upper, r);
        lemma_lsf_value_nonneg(upper, r);
        assert(lower[0] + r * uv >= uv) by (nonlinear_arith)
            requires
                r >= 2,
                uv >= 0,
                lower[0] >= 0,
        ;
        assert(d.subrange(0, d.len() as int) =~= d);
    }
}

/// Every byte of a rendering is ASCII, as long as each digit fits a radix.
pub proof fn lemma_spec_render_ascii(m: NumModel)
    requires
        forall|i: int| 0 <= i < m.digits.len() ==> #[trigger] m.digits[i] < 16,
    ensures
        forall|i: int| 0 <= i < spec_render(m).len() ==> #[trigger] spec_render(m)[i] <= 0x7f,
{
    let sign_part: Seq<u8> = if m.sign == Sign::Negative {
        seq![45u8]
    } else {
        Seq::empty()
    };
    let prefix_part: Seq<u8> = match m.radix {
        Radix::Binary => seq![48u8, 98u8],
        Radix::Octal => seq![48u8, 111u8],
        Radix::Decimal => Seq::empty(),
        Radix::Hexadecimal => seq![48u8, 120u8],
    };
    let digits_part: Seq<u8> = if m.digits.len() == 0 {
        seq![48u8]
    } else {
        Seq::new(m.digits.len(), |i: int| digit_byte_of(m.digits[m.digits.len() - 1 - i]))
    };
    let exp_part: Seq<u8> = match m.exponent {
        None => Seq::empty(),
        Some(e) => seq![101u8] + (if e >= 0 {
            seq![43u8]
        } else {
            seq![45u8]
        }) + dec_digits_of(if e >= 0 {
            e
        } else {
            -e
        }),
    };
    match m.exponent {
        None => {},
        Some(e) => {
            lemma_dec_digits_ascii(
                if e >= 0 {
                    e
                } else {
                    -e
                },
            );
        },
    }
    assert forall|i: int| 0 <= i < spec_render(m).len() implies #[trigger] spec_render(m)[i]
        <= 0x7f by {
        let a = sign_part.len() as int;
        let b = a + prefix_part.len();
        let c = b + digits_part.len();
        if i < a {
            assert(spec_render(m)[i] == sign_part[i]);
        } else if i < b {
            assert(spec_render(m)[i] == prefix_part[i - a]);
        } else if i < c {
            assert(spec_render(m)[i] == digits_part[i - b]);
        } else {
            assert(spec_render(m)[i] == exp_part[i - c]);
            match m.exponent {
                None => {},
                Some(e) => {
                    let mag = if e >= 0 {
                        e
                    } else {
                        -e
                    };
                    if i - c >= 2 {
                        assert(exp_part[i - c] == dec_digits_of(mag)[i - c - 2]);
                    }
                },
            }
        }
    }
}

/// Append the decimal rendering of the value to the buffer.
pub fn push_u64_decimal(out: &mut Vec<u8>, v: u64)
    ensures
        final(out)@ == old(out)@ + dec_digits_of(v as int),
    decreases v,
{
    if v >= 10 {
        proof {
            assert(v / 10 < v) by (nonlinear_arith)
                requires
                    v >= 10,
            ;
        }
        push_u64_decimal(out, v / 10);
        out.push(48 + (v % 10) as u8);
        proof {
            assert(final(out)@ =~= old(out)@ + dec_digits_of(v as int));
        }
    } else {
        out.push(48 + v as u8);
        proof {
            assert(final(out)@ =~= old(out)@ + dec_digits_of(v as int));
        }
    }
}

/// A parsed number's digits all fit its radix.
pub proof fn lemma_spec_parse_wf(s: Seq<u8>)
    ensures
        spec_parse(s) matches Ok((m, end)) ==> forall|i: int|
            0 <= i < m.digits.len() ==> #[trigger] m.digits[i] < m.radix.spec_value(),
{
    if spec_parse(s) is Ok {
        let (m, end) = spec_parse(s)->Ok_0;
        let i0: int = if s.len() > 0 && (s[0] == 43 || s[0] == 45) {
            1
        } else {
            0
        };
        if m.radix != Radix::Decimal {
            let start = i0 + 2;
            let rv = m.radix.spec_value();
            let j = radix_run(s, start, rv);
            lemma_radix_run(s, start, rv);
            assert forall|i: int| 0 <= i < m.digits.len() implies #[trigger] m.digits[i]
                < m.radix.spec_value() by {
                assert(m.digits[i] == spec_parse_digit(s[j - 1 - i]));
            }
        } else {
            let start = i0;
            let j = radix_run(s, start, 10);
            lemma_radix_run(s, start, 10);
            if j < s.len() && s[j] == 46 {
                let j2 = radix_run(s, j + 1, 10);
                lemma_radix_run(s, j + 1, 10);
                let msf = digits_lsf(s, start, j).reverse() + digits_lsf(s, j + 1, j2).reverse();
                assert forall|i: int| 0 <= i < m.digits.len() implies #[trigger] m.digits[i]
                    < m.radix.spec_value() by {
                    let a = j - start;
                    assert(m.digits[i] == msf[msf.len() - 1 - i]);
                    let k = msf.len() - 1 - i;
                    if k < a {
                        assert(msf[k] == spec_parse_digit(s[start + k]));
                    } else {
                        assert(msf[k] == spec_parse_digit(s[j + 1 + (k - a)]));
                    }
                }
            } else {
                let msf = digits_lsf(s, start, j).reverse();
                assert forall|i: int| 0 <= i < m.digits.len() implies #[trigger] m.digits[i]
                    < m.radix.spec_value() by {
                    let k = msf.len() - 1 - i;
                    assert(m.digits[i] == msf[k]);
                    assert(msf[k] == spec_parse_digit(s[start + k]));
                }
            }
        }
    }
}

impl ParsedNumber {
    /// The exact decimal representation of a 64-bit integer: its digits
    /// least-significant first, no exponent.
    #[verifier::loop_isolation(false)]
    pub fn from_i64(v: i64) -> (r: ParsedNumber)
        ensures
            r.wf(),
            r.exponent is None,
            r.radix == Radix::Decimal,
            r.spec_integer_value() == v,
    {
        let sign = if v < 0 {
            Sign::Negative
        } else {
            Sign::Positive
        };
        let mut mag: u64 = if v < 0 {
            if v == i64::MIN {
                9223372036854775808u64
            } else {
                (0i64 - v) as u64
            }
        } else {
            v as u64
        };
        let ghost target = mag as int;
        let mut digits: Vec<u8> = Vec::new();
        loop
            invariant
                Self::lsf_value(digits@, 10) + mag * pow10(digits@.len() as nat) == target,
                forall|k: int| 0 <= k < digits@.len() ==> #[trigger] digits@[k] < 10,
                mag <= target,
            decreases mag,
        {
            let d = (mag % 10) as u8;
            let next = mag / 10;
            proof {
                lemma_from_i64_step(digits@, mag, d, next);
            }
            digits.push(d);
            mag = next;
            if mag == 0 {
                break ;
            }
        }
        proof {
            lemma_lsf_pow_zero(digits@, target);
        }
        let r = ParsedNumber { sign, radix: Radix::Decimal, digits, exponent: None };
        r
    }
}

/// Ten to the given power.
pub open spec fn pow10(n: nat) -> int
    decreases n,
{
    if n == 0 {
        1
    } else {
        10 * pow10((n - 1) as nat)
    }
}

proof fn lemma_lsf_append(d: Seq<u8>, x: u8, r: int)
    ensures
        ParsedNumber::lsf_value(d.push(x), r) == ParsedNumber::lsf_value(d, r) + x * pow_of(
            r,
            d.len() as nat,
        ),
    decreases d.len(),
{
    if d.len() == 0 {
        assert(d.push(x).drop_first() =~= Seq::<u8>::empty());
        assert(d.push(x)[d.len() as int] == x);
        assert(ParsedNumber::lsf_value(Seq::<u8>::empty(), r) == 0);
        assert(ParsedNumber::lsf_value(d.push(x), r) == x + r * 0);
    } else {
        let dtail = d.drop_first();
        assert(d.push(x).drop_first() =~= dtail.push(x));
        assert(d.push(x)[0] == d[0]);
        lemma_lsf_append(dtail, x, r);
        let lt = ParsedNumber::lsf_value(dtail, r);
        let pw = pow_of(r, (d.len() - 1) as nat);
        assert(ParsedNumber::lsf_value(d.push(x), r) == d[0] + r * ParsedNumber::lsf_value(
            dtail.push(x),
            r,
        ));
        assert(ParsedNumber::lsf_value(dtail.push(x), r) == lt + x * pw);
        assert(r * (lt + x * pw) == r * lt + x * (r * pw)) by (nonlinear_arith);
        assert(pow_of(r, d.len() as nat) == r * pw);
        assert(ParsedNumber::lsf_value(d, r) == d[0] + r * lt);
    }
}

/// The given base to the given power.
pub open spec fn pow_of(r: int, n: nat) -> int
    decreases n,
{
    if n == 0 {
        1
    } else {
        r * pow_of(r, (n - 1) as nat)
    }
}

proof fn lemma_pow10_is_pow_of(n: nat)
    ensures
        pow10(n) == pow_of(10, n),
    decreases n,
{
    if n > 0 {
        lemma_pow10_is_pow_of((n - 1) as nat);
    }
}

proof fn lemma_from_i64_step(d: Seq<u8>, mag: u64, x: u8, next: u64)
    requires
        x == mag % 10,
        next == mag / 10,
    ensures
        ParsedNumber::lsf_value(d.push(x), 10) + next * pow10(d.push(x).len() as nat)
            == ParsedNumber::lsf_value(d, 10) + mag * pow10(d.len() as nat),
{
    lemma_pow10_is_pow_of(d.len() as nat);
    lemma_pow10_is_pow_of(d.push(x).len() as nat);
    lemma_lsf_append(d, x, 10);
    assert(mag == 10 * (mag / 10) + mag % 10) by (nonlinear_arith);
    let p = pow10(d.len() as nat);
    assert(p >= 1) by {
        lemma_pow10_pos(d.len() as nat);
    }
    assert((10 * (mag / 10) + mag % 10) * p == (mag % 10) * p + (mag / 10) * (10 * p))
        by (nonlinear_arith);
    assert(pow10((d.len() + 1) as nat) == 10 * p);
}

proof fn lemma_pow10_pos(n: nat)
    ensures
        pow10(n) >= 1,
    decreases n,
{
    if n > 0 {
        lemma_pow10_pos((n - 1) as nat);
    }
}

proof fn lemma_lsf_pow_zero(d: Seq<u8>, target: int)
    requires
        ParsedNumber::lsf_value(d, 10) + 0 * pow10(d.len() as nat) == target,
    ensures
        ParsedNumber::lsf_value(d, 10) == target,
{
    assert(0 * pow10(d.len() as nat) == 0) by (nonlinear_arith);
}

/// A run over bytes that are all digits of the radix up to `e`, where the
/// text ends or a non-digit follows, stops exactly at `e`.
proof fn lemma_radix_run_upto(s: Seq<u8>, i: int, e: int, radix: u8)
    requires
        0 <= i <= e <= s.len(),
        forall|k: int| i <= k < e ==> spec_parse_digit(#[trigger] s[k]) < radix,
        e == s.len() || spec_parse_digit(s[e]) >= radix,
    ensures
        radix_run(s, i, radix) == e,
    decreases e - i,
{
    if i < e {
        lemma_radix_run_upto(s, i + 1, e, radix);
    }
}

/// The decimal rendering of a value has at least one digit, and reading it
/// back gives the value.
proof fn lemma_dec_digits_inverse(s: Seq<u8>, a: int, n: int)
    requires
        n >= 0,
        0 <= a,
        a + dec_digits_of(n).len() <= s.len(),
        forall|k: int|
            0 <= k < dec_digits_of(n).len() ==> s[a + k] == #[trigger] dec_digits_of(n)[k],
    ensures
        dec_value(s, a, a + dec_digits_of(n).len()) == n,
    decreases n,
{
    if n < 10 {
        assert(dec_digits_of(n) == seq![(48 + n) as u8]);
        assert(s[a + 0] == dec_digits_of(n)[0]);
        assert(dec_value(s, a, a + 1) == dec_value(s, a, a) * 10 + (s[a] - 48));
    } else {
        let prefix = dec_digits_of(n / 10);
        let whole = dec_digits_of(n);
        assert(n / 10 < n && n / 10 >= 0) by (nonlinear_arith)
            requires
                n >= 10,
        ;
        assert(whole == prefix + seq![(48 + n % 10) as u8]);
        assert forall|k: int| 0 <= k < prefix.len() implies s[a + k] == #[trigger] prefix[k] by {
            assert(whole[k] == prefix[k]);
            assert(s[a + k] == whole[k]);
        }
        lemma_dec_digits_inverse(s, a, n / 10);
        assert(s[a + (whole.len() - 1)] == whole[whole.len() - 1]);
        assert(whole[whole.len() - 1] == (48 + n % 10) as u8);
        assert(dec_value(s, a, a + whole.len()) == dec_value(s, a, a + whole.len() - 1) * 10 + (
        s[a + whole.len() - 1] - 48));
        assert(n == (n / 10) * 10 + n % 10) by (nonlinear_arith);
    }
}

/// Reading a rendered digit byte back gives the digit.
proof fn lemma_digit_byte_inverse(d: u8)
    requires
        d < 16,
    ensures
        spec_parse_digit(digit_byte_of(d)) == d,
        d < 10 ==> spec_is_digit(digit_byte_of(d)),
        spec_is_hex_digit(digit_byte_of(d)),
{
}

/// Parsing the rendering of a trimmed number gives the number back: the
/// whole text is consumed and the parsed content, trimmed, is the number.
/// Trimming reappears only because a number with no digits prints as `0`,
/// which reads back as one zero digit.
pub proof fn lemma_render_parse_round_trip(m: NumModel)
    requires
        forall|i: int| 0 <= i < m.digits.len() ==> #[trigger] m.digits[i] < m.radix.spec_value(),
        m.exponent is Some ==> m.radix == Radix::Decimal,
        m.exponent matches Some(e) ==> i32::MIN <= e <= i32::MAX,
        m == spec_trim(m),
    ensures
        spec_parse(spec_render(m)) matches Ok((m2, end)) && end == spec_render(m).len()
            && spec_trim(m2) == m,
{
    if m.radix == Radix::Decimal {
        lemma_round_trip_decimal(m);
    } else {
        lemma_round_trip_integer(m);
    }
}

/// The decimal case of the rendering round trip.
#[verifier::rlimit(100)]
proof fn lemma_round_trip_decimal(m: NumModel)
    requires
        forall|i: int| 0 <= i < m.digits.len() ==> #[trigger] m.digits[i] < m.radix.spec_value(),
        m.exponent matches Some(e) ==> i32::MIN <= e <= i32::MAX,
        m.radix == Radix::Decimal,
    ensures
        spec_parse(spec_render(m)) matches Ok((m2, end)) && end == spec_render(m).len()
            && (m == spec_trim(m) ==> spec_trim(m2) == m),
{
    let s = spec_render(m);
    let sign_part: Seq<u8> = if m.sign == Sign::Negative {
        seq![45u8]
    } else {
        Seq::empty()
    };
    let prefix_part: Seq<u8> = match m.radix {
        Radix::Binary => seq![48u8, 98u8],
        Radix::Octal => seq![48u8, 111u8],
        Radix::Decimal => Seq::empty(),
        Radix::Hexadecimal => seq![48u8, 120u8],
    };
    let ldig = if m.digits.len() == 0 {
        1int
    } else {
        m.digits.len() as int
    };
    let digits_part: Seq<u8> = if m.digits.len() == 0 {
        seq![48u8]
    } else {
        Seq::new(m.digits.len(), |i: int| digit_byte_of(m.digits[m.digits.len() - 1 - i]))
    };
    let exp_part: Seq<u8> = match m.exponent {
        None => Seq::empty(),
        Some(e) => seq![101u8] + (if e >= 0 {
            seq![43u8]
        } else {
            seq![45u8]
        }) + dec_digits_of(if e >= 0 {
            e
        } else {
            -e
        }),
    };
    let i0 = sign_part.len() as int;
    let dstart = i0 + prefix_part.len();
    let dend = dstart + ldig;
    // Where each part of the rendering sits.
    assert forall|k: int| 0 <= k < ldig implies s[dstart + k] == #[trigger] digits_part[k] by {}
    assert forall|k: int| 0 <= k < exp_part.len() implies s[dend + k] == #[trigger] exp_part[k]
        by {}
    // Every digit byte reads back as its digit.
    assert forall|k: int| dstart <= k < dend implies spec_parse_digit(#[trigger] s[k])
        < m.radix.spec_value() by {
        if m.digits.len() == 0 {
            assert(s[k] == 48);
        } else {
            let d = m.digits[m.digits.len() - 1 - (k - dstart)];
            lemma_digit_byte_inverse(d);
            assert(s[k] == digit_byte_of(d));
        }
    }
    // The sign is read first.
    assert((s.len() > 0 && s[0] == 45) <==> m.sign == Sign::Negative);
    if m.sign == Sign::Positive {
        assert(s[0] != 43 && s[0] != 45) by {
            if m.radix == Radix::Decimal {
                if m.digits.len() == 0 {
                    assert(s[0] == 48);
                } else {
                    lemma_digit_byte_inverse(m.digits[m.digits.len() - 1]);
                    assert(s[0] == digit_byte_of(m.digits[m.digits.len() - 1]));
                }
            } else {
                assert(s[0] == 48);
            }
        }
    }
    // No radix prefix can match: after the first digit byte comes
    // another digit byte, the exponent marker, or nothing.
    assert(dstart == i0);
    if s.len() > i0 + 2 && s[i0] == 48 {
        assert(s[i0 + 1] != 98 && s[i0 + 1] != 66 && s[i0 + 1] != 111 && s[i0 + 1] != 79 && s[i0
            + 1] != 120 && s[i0 + 1] != 88) by {
            if i0 + 1 < dend {
                assert(spec_parse_digit(s[i0 + 1]) < 10);
            } else {
                assert(s[i0 + 1] == exp_part[0]);
            }
        }
    }
    // The mantissa is exactly the digit run.
    lemma_radix_run_upto(s, i0, dend, 10);
    assert(spec_parse_mantissa(s, i0) == Ok::<_, ParseError>(
        (digits_lsf(s, i0, dend).reverse(), None::<int>, dend),
    )) by {
        if dend < s.len() {
            assert(s[dend] == exp_part[0]);
            assert(s[dend] == 101);
        }
    }
    // The exponent suffix reads back as the exponent.
    match m.exponent {
        None => {
            assert(dend == s.len());
            assert(spec_parse_exponent(s, dend) == Ok::<_, ParseError>((None::<int>, dend)));
        },
        Some(e) => {
            let mag = if e >= 0 {
                e
            } else {
                -e
            };
            assert(s[dend] == 101);
            assert(s[dend + 1] == (if e >= 0 {
                43u8
            } else {
                45u8
            }));
            lemma_dec_digits_ascii(mag);
            assert forall|k: int| dend + 2 <= k < s.len() implies spec_parse_digit(
                #[trigger] s[k],
            ) < 10 by {
                assert(s[k] == exp_part[k - dend]);
                assert(exp_part[k - dend] == dec_digits_of(mag)[k - dend - 2]);
                assert(48 <= dec_digits_of(mag)[k - dend - 2] <= 57);
            }
            lemma_radix_run_upto(s, dend + 2, s.len() as int, 10);
            assert(dec_digits_of(mag).len() >= 1);
            assert forall|k: int| 0 <= k < dec_digits_of(mag).len() implies s[(dend + 2) + k]
                == #[trigger] dec_digits_of(mag)[k] by {
                assert(s[dend + 2 + k] == exp_part[2 + k]);
            }
            lemma_dec_digits_inverse(s, dend + 2, mag);
            assert(s.len() == dend + 2 + dec_digits_of(mag).len());
            assert(dec_value(s, dend + 2, s.len() as int) == mag);
            assert(clamp_exponent(mag, e < 0) == e);
        },
    }
    // The parsed digits are the number's digits.
    assert(spec_parse(s) is Ok);
    let got = spec_parse(s)->Ok_0.0;
    assert forall|k: int| 0 <= k < ldig implies #[trigger] got.digits[k] == digits_lsf(
        s,
        i0,
        dend,
    )[k] by {}
    assert forall|k: int| 0 <= k < ldig implies #[trigger] digits_lsf(s, i0, dend)[k]
        == spec_parse_digit(digits_part[ldig - 1 - k]) by {
        assert(digits_lsf(s, i0, dend)[k] == spec_parse_digit(s[dend - 1 - k]));
        assert(s[dend - 1 - k] == digits_part[ldig - 1 - k]);
    }
    if m == spec_trim(m) {
        if m.digits.len() > 0 {
            assert forall|k: int| 0 <= k < ldig implies #[trigger] got.digits[k] == m.digits[k]
                by {
                lemma_digit_byte_inverse(m.digits[k]);
                assert(digits_part[ldig - 1 - k] == digit_byte_of(m.digits[k]));
            }
            assert(got.digits =~= m.digits);
            assert(got == m);
        } else {
            assert(digits_part[0] == 48);
            assert(got.digits =~= seq![0u8]);
            lemma_trim_zero(got, m);
        }
    }
}

/// The binary, octal and hexadecimal case of the rendering round trip.
#[verifier::rlimit(100)]
proof fn lemma_round_trip_integer(m: NumModel)
    requires
        forall|i: int| 0 <= i < m.digits.len() ==> #[trigger] m.digits[i] < m.radix.spec_value(),
        m.exponent is None,
        m.radix != Radix::Decimal,
    ensures
        spec_parse(spec_render(m)) matches Ok((m2, end)) && end == spec_render(m).len()
            && (m == spec_trim(m) ==> spec_trim(m2) == m),
{
    let s = spec_render(m);
    let sign_part: Seq<u8> = if m.sign == Sign::Negative {
        seq![45u8]
    } else {
        Seq::empty()
    };
    let prefix_part: Seq<u8> = match m.radix {
        Radix::Binary => seq![48u8, 98u8],
        Radix::Octal => seq![48u8, 111u8],
        Radix::Decimal => Seq::empty(),
        Radix::Hexadecimal => seq![48u8, 120u8],
    };
    let ldig = if m.digits.len() == 0 {
        1int
    } else {
        m.digits.len() as int
    };
    let digits_part: Seq<u8> = if m.digits.len() == 0 {
        seq![48u8]
    } else {
        Seq::new(m.digits.len(), |i: int| digit_byte_of(m.digits[m.digits.len() - 1 - i]))
    };
    let exp_part: Seq<u8> = match m.exponent {
        None => Seq::empty(),
        Some(e) => seq![101u8] + (if e >= 0 {
            seq![43u8]
        } else {
            seq![45u8]
        }) + dec_digits_of(if e >= 0 {
            e
        } else {
            -e
        }),
    };
    let i0 = sign_part.len() as int;
    let dstart = i0 + prefix_part.len();
    let dend = dstart + ldig;
    // Where each part of the rendering sits.
    assert forall|k: int| 0 <= k < ldig implies s[dstart + k] == #[trigger] digits_part[k] by {}
    assert forall|k: int| 0 <= k < exp_part.len() implies s[dend + k] == #[trigger] exp_part[k]
        by {}
    // Every digit byte reads back as its digit.
    assert forall|k: int| dstart <= k < dend implies spec_parse_digit(#[trigger] s[k])
        < m.radix.spec_value() by {
        if m.digits.len() == 0 {
            assert(s[k] == 48);
        } else {
            let d = m.digits[m.digits.len() - 1 - (k - dstart)];
            lemma_digit_byte_inverse(d);
            assert(s[k] == digit_byte_of(d));
        }
    }
    // The sign is read first.
    assert((s.len() > 0 && s[0] == 45) <==> m.sign == Sign::Negative);
    if m.sign == Sign::Positive {
        assert(s[0] != 43 && s[0] != 45) by {
            if m.radix == Radix::Decimal {
                if m.digits.len() == 0 {
                    assert(s[0] == 48);
                } else {
                    lemma_digit_byte_inverse(m.digits[m.digits.len() - 1]);
                    assert(s[0] == digit_byte_of(m.digits[m.digits.len() - 1]));
                }
            } else {
                assert(s[0] == 48);
            }
        }
    }
    // The radix prefix and the first digit byte select the integer path.
    assert(s.len() > i0 + 2);
    assert(s[i0] == 48);
    assert(s[i0 + 1] == prefix_part[1]);
    assert(s[dstart] == digits_part[0]);
    if m.digits.len() > 0 {
        lemma_digit_byte_inverse(m.digits[m.digits.len() - 1]);
        assert(digits_part[0] == digit_byte_of(m.digits[m.digits.len() - 1]));
    } else {
        assert(digits_part[0] == 48);
    }
    assert(spec_is_hex_digit(s[dstart]));
    if m.radix != Radix::Hexadecimal {
        assert(spec_is_digit(s[dstart]));
    }
    assert(dend == s.len());
    lemma_radix_run_upto(s, dstart, s.len() as int, m.radix.spec_value());
    assert(spec_parse(s) is Ok);
    let got = spec_parse(s)->Ok_0.0;
    assert forall|k: int| 0 <= k < ldig implies #[trigger] got.digits[k] == spec_parse_digit(
        digits_part[ldig - 1 - k],
    ) by {
        assert(got.digits[k] == spec_parse_digit(s[dend - 1 - k]));
        assert(s[dend - 1 - k] == digits_part[ldig - 1 - k]);
    }
    if m == spec_trim(m) {
        if m.digits.len() > 0 {
            assert forall|k: int| 0 <= k < ldig implies #[trigger] got.digits[k] == m.digits[k]
                by {
                lemma_digit_byte_inverse(m.digits[k]);
                assert(digits_part[ldig - 1 - k] == digit_byte_of(m.digits[k]));
            }
            assert(got.digits =~= m.digits);
            assert(got == m);
        } else {
            assert(got.digits =~= seq![0u8]);
            lemma_trim_zero(got, m);
        }
    }
}

/// Trimming is idempotent.
proof fn lemma_trim_of_trimmed(m: NumModel)
    requires
        m == spec_trim(m),
    ensures
        spec_trim(m) == m,
{
}

/// A number read back as the single digit zero trims to the number with no
/// digits that produced it.
proof fn lemma_trim_zero(got: NumModel, m: NumModel)
    requires
        got.digits == seq![0u8],
        got.sign == m.sign,
        got.radix == m.radix,
        got.exponent == m.exponent,
        m.digits.len() == 0,
        m == spec_trim(m),
    ensures
        spec_trim(got) == m,
{
    assert(got.digits.len() == 1);
    assert(got.digits.last() == 0);
    assert(significant_len(got.digits) == 0) by {
        assert(got.digits.drop_last() =~= Seq::<u8>::empty());
        assert(significant_len(got.digits.drop_last()) == 0);
    }
    let d1 = got.digits.subrange(0, 0);
    assert(d1 =~= Seq::<u8>::empty());
    match m.exponent {
        None => {
            assert(spec_trim(got).digits =~= m.digits);
        },
        Some(e) => {
            assert(low_zero_run(d1) == 0);
            assert(spec_trim(got).digits =~= m.digits);
            // The exponent shifts by the zero dropped digits: none.
            assert(spec_exponent_shift(e, 0) == e) by {
                assert(spec_trim(m) == m);
            }
        },
    }
}

} // verus!
