use ultrafxr::utf8::{parse_character, UTF8Segment, UTF8Segments};

#[test]
fn parse_character_success() {
    let cases: &'static [char] = &[
        '\0',
        'a',
        '\u{0080}',
        '\u{07ff}',
        '\u{0800}',
        '\u{d7ff}',
        '\u{e000}',
        '\u{ffff}',
        '\u{10000}',
        '\u{10ffff}',
    ];
    let mut s = String::with_capacity(4);
    for (n, &c) in cases.iter().enumerate() {
        s.clear();
        s.push(c);
        let out = parse_character(s.as_ref());
        let expect = (Some(c), s.len());
        assert_eq!(out, expect, "case {}: input={}", n, c.escape_unicode());
    }
}

#[test]
fn parse_character_error() {
    let cases: &'static [(&'static [u8], usize)] = &[
        // End of file.
        (b"", 0),
        // Continuation character.
        (b"\x80", 1),
        (b"\x90", 1),
        (b"\xbf", 1),
        (b"\x90\x00", 1),
        (b"\x90\x80", 1),
        (b"\x90\xc0", 1),
        (b"\x90\xe0", 1),
        (b"\x90\xf0", 1),
        (b"\x90\xff", 1),
        // Invalid two-byte, invalid continuation.
        (b"\xc2", 1),
        (b"\xc2\x00", 1),
        (b"\xc2\xc0", 1),
        (b"\xc2\xe0", 1),
        (b"\xc2\xf0", 1),
        (b"\xc2\xff", 1),
        // Invalid two-byte, too small.
        (b"\xc0\x80_", 2),
        (b"\xc1\xbf_", 2),
        // Invalid three-byte, invalid continuation.
        (b"\xe0", 1),
        (b"\xe0\x00", 1),
        (b"\xe0\xc0", 1),
        (b"\xe0\xe0", 1),
        (b"\xe0\xf0", 1),
        (b"\xe0\xff", 1),
        (b"\xe0\xa0\x00", 2),
        (b"\xe0\xa0\xc0", 2),
        (b"\xe0\xa0\xe0", 2),
        (b"\xe0\xa0\xf0", 2),
        (b"\xe0\xa0\xff", 2),
        // Invalid three-byte, too small.
        (b"\xe0\x80\x80_", 3),
        (b"\xe0\x9f\xbf_", 3),
        // Invalid three-byte, surrogate.
        (b"\xed\xa0\x80_", 3),
        (b"\xed\xbf\xbf_", 3),
        // Invalid four-byte, invalid continuation.
        (b"\xf0", 1),
        (b"\xf0\x00", 1),
        (b"\xf0\xc0", 1),
        (b"\xf0\xe0", 1),
        (b"\xf0\xf0", 1),
        (b"\xf0\xff", 1),
        (b"\xf0\x90\x00", 2),
        (b"\xf0\x90\xc0", 2),
        (b"\xf0\x90\xe0", 2),
        (b"\xf0\x90\xf0", 2),
        (b"\xf0\x90\xff", 2),
        (b"\xf0\x90\x80\x00", 3),
        (b"\xf0\x90\x80\xc0", 3),
        (b"\xf0\x90\x80\xe0", 3),
        (b"\xf0\x90\x80\xf0", 3),
        (b"\xf0\x90\x80\xff", 3),
        // Invalid four-byte, too small.
        (b"\xf0\x80\x80\x80_", 4),
        (b"\xf0\x8f\xbf\xbf_", 4),
        // Invalid four-byte, too large.
        (b"\xf4\x90\x80\x80_", 4),
        (b"\xf7\xbf\xbf\xbf_", 4),
        // Invalid bytes.
        (b"\xf8\x80", 1),
        (b"\xff\x80", 1),
    ];
    for (n, &(input, size)) in cases.iter().enumerate() {
        let out = parse_character(input);
        let expect = (None, size);
        assert_eq!(out, expect, "case {}: input={:?}", n, input);
    }
}

#[test]
fn segments() {
    let input: &'static [u8] = b"abc \x80 def \xe0\xa0\xf0";
    let expect: &'static [UTF8Segment<'static>] = &[
        Ok("abc "),
        Err(b"\x80"),
        Ok(" def "),
        Err(b"\xe0\xa0"),
        Err(b"\xf0"),
    ];
    let mut output: Vec<UTF8Segment<'static>> = Vec::new();
    let mut iter = UTF8Segments(input);
    while let Some(seg) = iter.next() {
        output.push(seg);
    }
    assert_eq!(output, expect);
}
