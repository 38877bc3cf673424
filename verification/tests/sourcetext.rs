use ultrafxr::sourcepos::Pos;
use ultrafxr::sourcetext::{SourceText, TextPos};

fn check_lookup(input: &[u8], outputs: &[(u32, u32)]) {
    assert_eq!(input.len() + 1, outputs.len());
    let text = SourceText::new(input);
    for (n, &(line, byte)) in (1..).zip(outputs.iter()) {
        let expect = Some(TextPos { line, byte });
        let result = text.lookup(Pos(n));
        assert_eq!(result, expect, "input={:?}, pos={}", input, n);
    }
    for &offset in [0, input.len() as u32 + 2].iter() {
        assert_eq!(text.lookup(Pos(offset)), None);
    }
}

#[test]
fn test_lookup_simple() {
    check_lookup(
        b"ab\ncd\n",
        &[(0, 0), (0, 1), (0, 2), (1, 0), (1, 1), (1, 2), (2, 0)],
    );
}

#[test]
fn test_lookup_no_linebreak_at_end() {
    check_lookup(
        b"abc\n\nd",
        &[(0, 0), (0, 1), (0, 2), (0, 3), (1, 0), (2, 0), (2, 1)],
    );
}

#[test]
fn test_lookup_empty() {
    check_lookup(&[], &[(0, 0)]);
}

#[test]
fn test_lookup_crlf() {
    check_lookup(
        b"a\r\nb\r\n",
        &[(0, 0), (0, 1), (0, 2), (1, 0), (1, 1), (1, 2), (2, 0)],
    );
}

#[test]
fn test_lookup_cr() {
    check_lookup(b"a\rb\r", &[(0, 0), (0, 1), (1, 0), (1, 1), (2, 0)]);
}

#[test]
fn test_line() {
    let text = SourceText::new(b"abc\ndef\rghi\r\njkl");
    let lines: &[&'static [u8]] = &[b"abc", b"def", b"ghi", b"jkl"];
    for (n, &line) in lines.iter().enumerate() {
        let got = text.line(n as u32);
        assert_eq!(got, line, "line {}", n);
    }
}
