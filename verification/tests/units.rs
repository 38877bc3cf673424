use ultrafxr::sourcepos::{Pos, Span};
use ultrafxr::units::{ParseError, UnitError, Units};

#[test]
fn display() {
    assert_eq!(Units::scalar().to_string(), "scalar");
    assert_eq!(Units::volt(1).to_string(), "V");
    assert_eq!(Units::second(1).to_string(), "s");
    assert_eq!(Units::second(-1).to_string(), "Hz");
    assert_eq!(Units::radian(1).to_string(), "rad");
    assert_eq!(Units::decibel(1).to_string(), "dB");
    assert_eq!(
        Units {
            volt: 2,
            second: 1,
            radian: -1,
            decibel: 0,
        }
        .to_string(),
        "V^2*s*rad^-1"
    );
}

#[test]
fn units_parse() {
    let cases: &[(&'static str, Units, i32, u32, u32)] = &[
        ("", Units::scalar(), 0, 0, 0),
        ("V", Units::volt(1), 0, 0, 1),
        ("s", Units::second(1), 0, 0, 1),
        ("Hz", Units::hertz(1), 0, 0, 2),
        ("rad", Units::radian(1), 0, 0, 3),
        ("dB", Units::decibel(1), 0, 0, 2),
        ("mV", Units::volt(1), -3, 1, 2),
        ("kHz", Units::hertz(1), 3, 1, 3),
        ("\u{03BC}s", Units::second(1), -6, 2, 3),
    ];
    for (n, &(input, units, exponent, start, end)) in cases.iter().enumerate() {
        let offset: u32 = (1 + n as u32) * 100;
        let in_pos = Span {
            start: Pos(offset),
            end: Pos(offset + input.len() as u32),
        };
        let out = Units::parse(input.as_bytes(), in_pos);
        let expect_pos = Span {
            start: Pos(offset + start),
            end: Pos(offset + end),
        };
        let expect = Ok((expect_pos, units, exponent));
        assert_eq!(out, expect, "case {}: input={:?}", n, input);
    }
}

use ultrafxr::units::ParseError::{PrefixNotAllowed, UnknownPrefix, UnknownUnits};

#[test]
fn parse_fail() {
    const CASES: &'static [(&'static str, ParseError, u32, u32)] = &[
        ("v", UnknownUnits, 0, 1),       // Wrong case, should be V.
        ("mdB", PrefixNotAllowed, 0, 3), // Prefix not permitted, dB already has prefix.
        ("kv", UnknownUnits, 1, 2),      // Wrong case, should be kV.
        ("k", UnknownUnits, 0, 1),       // No units.
        ("qV", UnknownPrefix, 0, 1),     // Invalid prefix.
        ("mS", UnknownUnits, 1, 2),      // Unknown units.
    ];
    for (n, &(input, err, start, end)) in CASES.iter().enumerate() {
        let offset: u32 = (1 + n as u32) * 100;
        let in_pos = Span {
            start: Pos(offset),
            end: Pos(offset + input.len() as u32),
        };
        let out = Units::parse(input.as_bytes(), in_pos);
        let expect_pos = Span {
            start: Pos(offset + start),
            end: Pos(offset + end),
        };
        let expect = Err((err, expect_pos));
        assert_eq!(out, expect, "case {}: input={:?}", n, input);
    }
}

#[test]
fn multiply_algebra() {
    let a = Units { volt: 1, second: -1, radian: 0, decibel: 0 };
    let b = Units { volt: 0, second: 1, radian: 2, decibel: 0 };
    let c = Units { volt: -1, second: 0, radian: 1, decibel: 1 };
    // Commutative.
    assert_eq!(a.multiply(&b), b.multiply(&a));
    // Associative.
    let ab = a.multiply(&b).unwrap();
    let bc = b.multiply(&c).unwrap();
    assert_eq!(ab.multiply(&c), a.multiply(&bc));
    // The scalar is the identity.
    assert_eq!(a.multiply(&Units::scalar()), Ok(a));
    assert_eq!(Units::scalar().multiply(&a), Ok(a));
    // Overflow is detected.
    let big = Units { volt: 127, second: 0, radian: 0, decibel: 0 };
    assert_eq!(big.multiply(&Units::volt(1)), Err(UnitError::Overflow));
    assert_eq!(big.multiply(&Units::volt(-1)), Ok(Units { volt: 126, second: 0, radian: 0, decibel: 0 }));
}
