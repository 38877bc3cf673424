use ultrafxr::sourcepos::Pos;
use ultrafxr::token::{Tokenizer, Type};

use ultrafxr::token::Type::{Comment, Error, Number, ParenClose, ParenOpen, Symbol};

#[test]
fn test_simple_tokens() {
    let cases: &[(&'static [u8], Type)] = &[
        (b";comment\n", Comment),
        (b";\n", Comment),
        (b"symbol ", Symbol),
        (b"ABCXYZ ", Symbol),
        (b"ZYXCBA ", Symbol),
        (b"abcxyz ", Symbol),
        (b"zyxcba ", Symbol),
        (b"a0123456789 ", Symbol),
        (b"s;", Symbol),
        (b"s\n", Symbol),
        (b"s(", Symbol),
        (b"s)", Symbol),
        (b". ", Symbol),
        (b"- ", Symbol),
        (b"+ ", Symbol),
        (b"-. ", Symbol),
        (b"+. ", Symbol),
        (b"0 ", Number),
        (b"987 ", Number),
        (b"5.0abc@@&* ", Number),
        (b"+0 ", Number),
        (b"+555 ", Number),
        (b"-9 ", Number),
        (b".00 ", Number),
        (b".99 ", Number),
        (b".67 ", Number),
        (b"-.0 ", Number),
        (b"+.9 ", Number),
        (b"(a", ParenOpen),
        (b")a", ParenClose),
        (b"\x01 ", Error),
        (b"\x7f ", Error),
        (b"\x80 ", Error),
        (b"\xff ", Error),
        (b"\xc2\x80 ", Error),
    ];
    for (n, &(input, ty)) in cases.iter().enumerate() {
        let baretok = &input[..input.len() - 1];
        for input in [baretok, input].iter() {
            let mut toks = Tokenizer::new(input).expect("tokenizer");
            let tok = toks.next();
            assert_eq!(tok.ty, ty, "case {}: input={:?}", n, input);
            assert_eq!(tok.pos, Pos(1), "case {}: input={:?}", n, input);
            assert_eq!(tok.text, baretok, "case {}: input={:?}", n, input);
        }
    }
}

#[test]
fn tokens_tile_the_input() {
    // Concatenating every token's text gives back the input, minus the
    // whitespace between tokens, in order.
    let input: &[u8] = b"(mix 0dB x ;c\n 1.5kHz)";
    let mut toks = Tokenizer::new(input).expect("tokenizer");
    let mut texts: Vec<u8> = Vec::new();
    let mut last_end = 0u32;
    loop {
        let tok = toks.next();
        if tok.ty == Type::End {
            break;
        }
        // Monotonic, contiguous spans: each token starts at or after the
        // previous end, with only whitespace between.
        let start = tok.pos.0 - 1;
        assert!(start >= last_end);
        for k in last_end..start {
            assert!(input[k as usize].is_ascii_whitespace());
        }
        last_end = start + tok.text.len() as u32;
        texts.extend_from_slice(tok.text);
    }
    let expected: Vec<u8> = input.iter().copied().filter(|b| !b.is_ascii_whitespace()).collect();
    let collected: Vec<u8> = texts.iter().copied().filter(|b| !b.is_ascii_whitespace()).collect();
    assert_eq!(collected, expected);
}

#[test]
fn non_error_tokens_are_utf8() {
    let input: &[u8] = b"(note 12) sym \xff ;rest\n";
    let mut toks = Tokenizer::new(input).expect("tokenizer");
    loop {
        let tok = toks.next();
        if tok.ty == Type::End {
            break;
        }
        if tok.ty != Type::Error && tok.ty != Type::Comment {
            assert!(std::str::from_utf8(tok.text).is_ok());
        }
    }
}

#[test]
fn rewind_restarts_the_stream() {
    let input: &[u8] = b"a b";
    let mut toks = Tokenizer::new(input).expect("tokenizer");
    let first = toks.next();
    let _ = toks.next();
    toks.rewind();
    let again = toks.next();
    assert_eq!(first.ty, again.ty);
    assert_eq!(first.pos, again.pos);
    assert_eq!(first.text, again.text);
}
