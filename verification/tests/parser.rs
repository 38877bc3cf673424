use ultrafxr::diag::DiagnosticList;
use ultrafxr::parser::{ParseResult, Parser};
use ultrafxr::token::Tokenizer;

fn parse_all(input: &[u8]) -> Result<Vec<String>, Vec<String>> {
    let mut diags = DiagnosticList::new();
    let mut toks = Tokenizer::new(input).expect("tokenizer");
    let mut parser = Parser::new();
    let mut printed = Vec::new();
    loop {
        match parser.parse(&mut diags, &mut toks) {
            ParseResult::Done => break,
            ParseResult::Incomplete => {
                parser.finish(&mut diags);
                break;
            }
            ParseResult::Failed => {
                return Err(diags.entries.iter().map(|d| d.message.clone()).collect());
            }
            ParseResult::Value(expr) => {
                printed.push(expr.print());
            }
        }
    }
    if diags.len() > 0 {
        return Err(diags.entries.iter().map(|d| d.message.clone()).collect());
    }
    Ok(printed)
}

#[test]
fn empty_input_parses_to_nothing() {
    assert_eq!(parse_all(b"").unwrap(), Vec::<String>::new());
    assert_eq!(parse_all(b"  ;only a comment\n").unwrap(), Vec::<String>::new());
}

#[test]
fn print_and_reparse_keeps_the_shape() {
    // Pretty-printing then reparsing gives the same text again.
    let sources: &[&[u8]] = &[
        b"(sine (oscillator (note 0)))",
        b"(mix 0dB (sine (oscillator (note 0))) -6dB x)",
        b"(define x (noise)) (highPass 1000Hz x)",
        b"(envelope (set 0) (lin 0.1s 1) (gate) (exp 0.2s 0))",
        b"(lowPass2 x 440Hz 1.5)",
        b"sym 12 -3 0x1f 1.25e3 .5 12V 1.5kHz ()",
    ];
    for &src in sources {
        let first = parse_all(src).expect("first parse");
        let joined = first.join(" ");
        let second = parse_all(joined.as_bytes()).expect("second parse");
        assert_eq!(first, second, "source={:?}", String::from_utf8_lossy(src));
    }
}

#[test]
fn numbers_keep_their_exact_content() {
    assert_eq!(parse_all(b"1.2e3").unwrap(), vec!["12e+2"]);
    assert_eq!(parse_all(b"42").unwrap(), vec!["42"]);
    assert_eq!(parse_all(b"-0x10").unwrap(), vec!["-16"]);
    assert_eq!(parse_all(b"0b101").unwrap(), vec!["5"]);
    assert_eq!(parse_all(b"12V").unwrap(), vec!["12V"]);
    // A metric prefix folds into the exponent.
    assert_eq!(parse_all(b"1.5kHz").unwrap(), vec!["15e+2Hz"]);
    assert_eq!(parse_all(b"0.05s").unwrap(), vec!["5e-2s"]);
}

#[test]
fn extra_close_paren_is_an_error() {
    let errs = parse_all(b")").unwrap_err();
    assert!(errs.iter().any(|m| m.contains("extra ')'")), "{:?}", errs);
}

#[test]
fn missing_close_paren_is_reported_by_finish() {
    let errs = parse_all(b"(mix (sine").unwrap_err();
    // One diagnostic per unclosed frame, innermost first.
    assert_eq!(errs, vec!["missing ')'".to_string(), "missing ')'".to_string()]);
}

#[test]
fn finish_reports_every_unclosed_frame() {
    let mut diags = ultrafxr::diag::DiagnosticList::new();
    let mut toks = Tokenizer::new(b"(a (b (c").expect("tokenizer");
    let mut parser = Parser::new();
    assert!(matches!(parser.parse(&mut diags, &mut toks), ParseResult::Incomplete));
    parser.finish(&mut diags);
    assert_eq!(diags.len(), 3);
    // Innermost first: the opening parens sit at one-based offsets 7, 4, 1.
    let spans: Vec<u32> = diags.entries.iter().map(|d| d.pos.start.0).collect();
    assert_eq!(spans, vec![7, 4, 1]);
    for d in diags.entries.iter() {
        assert_eq!(d.message, "missing ')'");
    }
}

#[test]
fn bad_bytes_are_described() {
    let errs = parse_all(b"\x01").unwrap_err();
    assert!(
        errs.iter().any(|m| m.contains("unexpected control character U+0001")),
        "{:?}",
        errs
    );
    let errs = parse_all(b"\xff").unwrap_err();
    assert!(
        errs.iter().any(|m| m.contains("invalid UTF-8 text (byte sequence 0xff)")),
        "{:?}",
        errs
    );
    let errs = parse_all("€".as_bytes()).unwrap_err();
    assert!(
        errs.iter().any(|m| m.contains("unexpected Unicode character U+20AC")),
        "{:?}",
        errs
    );
}

#[test]
fn number_errors_surface_verbatim() {
    let errs = parse_all(b"0b12").unwrap_err();
    assert!(
        errs.iter().any(|m| m.contains("invalid digit for base 2: '2'")),
        "{:?}",
        errs
    );
    let errs = parse_all(b"1.2.3").unwrap_err();
    assert!(errs.iter().any(|m| m.contains("unexpected extra '.'")), "{:?}", errs);
    let errs = parse_all(b"12qV").unwrap_err();
    assert!(errs.iter().any(|m| m.contains("unknown prefix")), "{:?}", errs);
    let errs = parse_all(b"1mdB").unwrap_err();
    assert!(
        errs.iter().any(|m| m.contains("metric prefix not allowed with units")),
        "{:?}",
        errs
    );
}
