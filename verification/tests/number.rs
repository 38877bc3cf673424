use ultrafxr::number::{ParsedNumber, Radix, Sign};
use ultrafxr::number::ParseError;
use ultrafxr::number::Radix::{Binary, Decimal, Hexadecimal, Octal};
use ultrafxr::number::Sign::{Negative, Positive};
use ultrafxr::sourcepos::{Pos, Span};

#[test]
fn parse_success() {
    type Case = (
        &'static str,
        &'static str,
        Sign,
        Radix,
        &'static [u8],
        Option<i32>,
    );
    const CASES: &'static [Case] = &[
        ("0", "", Positive, Decimal, &[0], None),
        (
            "0x0123456789abcdef",
            "",
            Positive,
            Hexadecimal,
            &[15, 14, 13, 12, 11, 10, 9, 8, 7, 6, 5, 4, 3, 2, 1, 0],
            None,
        ),
        (
            "0XABCDEF",
            "",
            Positive,
            Hexadecimal,
            &[15, 14, 13, 12, 11, 10],
            None,
        ),
        ("0b011", "", Positive, Binary, &[1, 1, 0], None),
        ("0B110", "", Positive, Binary, &[0, 1, 1], None),
        (
            "0o01234567",
            "",
            Positive,
            Octal,
            &[7, 6, 5, 4, 3, 2, 1, 0],
            None,
        ),
        (
            "0O76543210",
            "",
            Positive,
            Octal,
            &[0, 1, 2, 3, 4, 5, 6, 7],
            None,
        ),
        ("1.", "", Positive, Decimal, &[1], Some(0)),
        (".9", "", Positive, Decimal, &[9], Some(-1)),
        ("1e+15", "", Positive, Decimal, &[1], Some(15)),
        ("2e10", "", Positive, Decimal, &[2], Some(10)),
        ("9e-99", "", Positive, Decimal, &[9], Some(-99)),
        ("1.2e3", "", Positive, Decimal, &[2, 1], Some(2)),
        ("5.6e-3", "", Positive, Decimal, &[6, 5], Some(-4)),
        ("-0", "", Negative, Decimal, &[0], None),
        ("-0b11", "", Negative, Binary, &[1, 1], None),
        ("-0x123", "", Negative, Hexadecimal, &[3, 2, 1], None),
        ("-0o777", "", Negative, Octal, &[7, 7, 7], None),
        ("+123", "", Positive, Decimal, &[3, 2, 1], None),
        ("+0x123", "", Positive, Hexadecimal, &[3, 2, 1], None),
        ("12V", "V", Positive, Decimal, &[2, 1], None),
        ("0o", "o", Positive, Decimal, &[0], None),
        ("0oct", "oct", Positive, Decimal, &[0], None),
        ("0x", "x", Positive, Decimal, &[0], None),
        ("0xyz", "xyz", Positive, Decimal, &[0], None),
        ("0b", "b", Positive, Decimal, &[0], None),
        ("0bbb", "bbb", Positive, Decimal, &[0], None),
        ("1.2e3ms", "ms", Positive, Decimal, &[2, 1], Some(2)),
    ];
    let mut num = ParsedNumber::new();
    for (n, &(input, output, sign, radix, digits, exponent)) in CASES.iter().enumerate() {
        let offset: u32 = (1 + n as u32) * 100;
        let in_span = Span {
            start: Pos(offset),
            end: Pos(offset + input.len() as u32),
        };
        match num.parse(input.as_bytes(), in_span) {
            Err((e, _)) => {
                panic!("case {}: input={:?}: error {:?}", n, input, e);
            }
            Ok(rest) => {
                assert_eq!(rest, output.as_bytes(), "case {}: input={:?}", n, input);
                assert_eq!(num.sign, sign, "case {}: input={:?}", n, input);
                assert_eq!(num.radix, radix, "case {}: input={:?}", n, input);
                assert_eq!(num.digits, digits, "case {}: input={:?}", n, input);
                assert_eq!(num.exponent, exponent, "case {}: input={:?}", n, input);
            }
        }
    }
}

fn parse_one(input: &str) -> ParsedNumber {
    let mut num = ParsedNumber::new();
    let span = Span { start: Pos(1), end: Pos(1 + input.len() as u32) };
    let rest = num.parse(input.as_bytes(), span).expect("parse");
    assert_eq!(rest, b"");
    num
}

#[test]
fn parse_errors() {
    let cases: &[(&str, ParseError)] = &[
        ("0b12", ParseError::InvalidDigit(Radix::Binary, b'2')),
        ("0o8", ParseError::InvalidDigit(Radix::Octal, b'8')),
        ("0x1.2", ParseError::UnexpectedPoint(Radix::Hexadecimal)),
        ("0b1+", ParseError::UnexpectedChar(b'+')),
        ("1.2.3", ParseError::ExtraPoint),
        ("+", ParseError::NoDigits),
        ("1e+", ParseError::NoExponentValue),
    ];
    for &(input, expect) in cases.iter() {
        let mut num = ParsedNumber::new();
        let span = Span { start: Pos(1), end: Pos(1 + input.len() as u32) };
        match num.parse(input.as_bytes(), span) {
            Ok(_) => panic!("input {:?} parsed", input),
            Err((e, _)) => assert_eq!(e, expect, "input={:?}", input),
        }
    }
}

#[test]
fn trim_and_render_round_trip() {
    // Parse, trim, render, parse again: the content stays the same.
    for input in ["012300", "1.2e3", "0x00ff00", "-0b0110", "0.0500", "9e-99"] {
        let mut num = parse_one(input);
        num.trim();
        let text = num.to_string();
        let mut again = parse_one(&text);
        again.trim();
        assert_eq!(num.sign, again.sign, "input={:?} text={:?}", input, text);
        assert_eq!(num.radix, again.radix, "input={:?} text={:?}", input, text);
        assert_eq!(num.digits, again.digits, "input={:?} text={:?}", input, text);
        assert_eq!(num.exponent, again.exponent, "input={:?} text={:?}", input, text);
    }
}

#[test]
fn trim_removes_zeros() {
    let mut num = parse_one("1.2300e2");
    assert_eq!(num.digits, &[0, 0, 3, 2, 1]);
    assert_eq!(num.exponent, Some(-2));
    num.trim();
    assert_eq!(num.digits, &[3, 2, 1]);
    assert_eq!(num.exponent, Some(0));
    assert_eq!(num.to_string(), "123e+0");
}

#[test]
fn integer_value_is_exact() {
    let cases: &[(&str, Option<i64>)] = &[
        ("0", Some(0)),
        ("-0x8000000000000000", Some(i64::MIN)),
        ("0x7fffffffffffffff", Some(i64::MAX)),
        ("0x8000000000000000", None),
        ("9223372036854775808", None),
        ("123456789", Some(123456789)),
        ("-0o777", Some(-511)),
        ("1e3", None),
    ];
    for &(input, expect) in cases.iter() {
        let num = parse_one(input);
        assert_eq!(num.integer_value(), expect, "input={:?}", input);
    }
}
