use ultrafxr::diag::DiagnosticList;
use ultrafxr::evaluate::evaluate_program;
use ultrafxr::graph::{section_bounds, Graph, Mode, NodeKind, PointFunction, Segment, SignalRef};
use ultrafxr::parser::{ParseResult, Parser};
use ultrafxr::sexpr::SExpr;
use ultrafxr::token::Tokenizer;

fn parse_program(input: &[u8]) -> Vec<SExpr> {
    let mut diags = DiagnosticList::new();
    let mut toks = Tokenizer::new(input).expect("tokenizer");
    let mut parser = Parser::new();
    let mut exprs = Vec::new();
    loop {
        match parser.parse(&mut diags, &mut toks) {
            ParseResult::Done => break,
            ParseResult::Incomplete => panic!("incomplete program"),
            ParseResult::Failed => panic!("parse failed"),
            ParseResult::Value(expr) => exprs.push(expr),
        }
    }
    assert_eq!(diags.len(), 0);
    exprs
}

fn run(input: &[u8]) -> Result<(Graph, SignalRef), Vec<String>> {
    let exprs = parse_program(input);
    let mut diags = DiagnosticList::new();
    match evaluate_program(&mut diags, &exprs) {
        Some(x) => Ok(x),
        None => Err(diags.entries.iter().map(|d| d.message.clone()).collect()),
    }
}

fn node_names(g: &Graph) -> Vec<&'static str> {
    let mut names = Vec::new();
    for i in 0..g.len() {
        names.push(match g.node(i) {
            NodeKind::Oscillator { .. } => "oscillator",
            NodeKind::Apply { function: PointFunction::Sine, .. } => "sine",
            NodeKind::Apply { function: PointFunction::Sawtooth, .. } => "sawtooth",
            NodeKind::Apply { function: PointFunction::Saturate, .. } => "saturate",
            NodeKind::Apply { function: PointFunction::Rectify, .. } => "rectify",
            NodeKind::Noise => "noise",
            NodeKind::Multiply { .. } => "multiply",
            NodeKind::Mix { .. } => "mix",
            NodeKind::Frequency { .. } => "frequency",
            NodeKind::Zero => "zero",
            NodeKind::ScaleInt { .. } => "scale",
            NodeKind::Note { .. } => "note",
            NodeKind::Constant { .. } => "constant",
            NodeKind::HighPass { .. } => "highpass",
            NodeKind::StateVariable { .. } => "svf",
            NodeKind::Envelope { .. } => "envelope",
        });
    }
    names
}

#[test]
fn empty_program_is_reported() {
    let exprs = parse_program(b"");
    let mut diags = DiagnosticList::new();
    assert!(evaluate_program(&mut diags, &exprs).is_none());
    assert_eq!(diags.len(), 1);
    assert_eq!(diags.entries[0].message, "empty program");
}

#[test]
fn empty_list_program_is_an_error() {
    // A program consisting of the single form () is as empty as no program.
    let exprs = parse_program(b"()");
    let mut diags = DiagnosticList::new();
    assert!(evaluate_program(&mut diags, &exprs).is_none());
    assert!(diags.entries.iter().any(|d| d.message == "empty program"));
}

#[test]
fn sine_of_a_note() {
    let (g, root) = run(b"(sine (oscillator (note 0)))").unwrap();
    assert_eq!(node_names(&g), vec!["note", "oscillator", "sine"]);
    assert_eq!(root, SignalRef(2));
    // Each node reads only earlier nodes.
    for i in 0..g.len() {
        for input in g.node(i).inputs() {
            assert!((input.0 as usize) < i);
        }
    }
}

#[test]
fn mix_of_two_sines() {
    let src = b"(mix 0dB (sine (oscillator (note 0))) 0dB (sine (oscillator (overtone 2 (oscillator (note 0))))))";
    let (g, root) = run(src).unwrap();
    let names = node_names(&g);
    assert_eq!(names.iter().filter(|n| **n == "sine").count(), 2);
    assert_eq!(names.iter().filter(|n| **n == "mix").count(), 2);
    assert_eq!(names.iter().filter(|n| **n == "zero").count(), 1);
    assert_eq!(names.iter().filter(|n| **n == "scale").count(), 1);
    assert_eq!(root.0 as usize, g.len() - 1);
    // Both gains are in decibels.
    let mut db_gains = 0;
    for i in 0..g.len() {
        if let NodeKind::Mix { gain, .. } = g.node(i) {
            if gain.decibels {
                db_gains += 1;
            }
        }
    }
    assert_eq!(db_gains, 2);
}

#[test]
fn define_and_high_pass() {
    let (g, _root) = run(b"(define x (noise)) (highPass 1000Hz x)").unwrap();
    assert_eq!(node_names(&g), vec!["noise", "highpass"]);
    match g.node(1) {
        NodeKind::HighPass { input, frequency } => {
            assert_eq!(*input, SignalRef(0));
            assert_eq!(frequency.integer_value(), Some(1000));
        }
        other => panic!("unexpected node {:?}", other),
    }
}

#[test]
fn duplicate_define_is_an_error() {
    let errs = run(b"(define x (noise)) (define x (noise)) x").unwrap_err();
    assert!(
        errs.iter().any(|m| m.contains("a variable named \"x\" is already defined")),
        "{:?}",
        errs
    );
}

#[test]
fn undefined_symbol_is_an_error() {
    let errs = run(b"y").unwrap_err();
    assert!(errs.iter().any(|m| m.contains("undefined symbol: \"y\"")), "{:?}", errs);
}

#[test]
fn non_signal_root_is_an_error() {
    let errs = run(b"12").unwrap_err();
    assert!(errs.iter().any(|m| m.contains("invalid program body")), "{:?}", errs);
}

#[test]
fn wrong_arity_is_an_error() {
    let errs = run(b"(sine)").unwrap_err();
    assert!(
        errs.iter().any(|m| m.contains("invalid call to sine: got 0 args, expected 1")),
        "{:?}",
        errs
    );
}

#[test]
fn unit_mismatch_is_an_error() {
    let errs = run(b"(sine (noise))").unwrap_err();
    assert!(errs.iter().any(|m| m.contains("type is")), "{:?}", errs);
}

#[test]
fn a_frequency_coerces_to_phase() {
    // A signal in hertz passed where phase is needed is integrated by a
    // fresh oscillator.
    let (g, _root) = run(b"(sine (note 0))").unwrap();
    assert_eq!(node_names(&g), vec!["note", "oscillator", "sine"]);
}

#[test]
fn envelope_compiles_to_segments() {
    let src = b"(define e (envelope (set 0) (lin 0.1s 1) (gate) (exp 0.2s 0))) (* e (sine (oscillator (note 0))))";
    let (g, _root) = run(src).unwrap();
    let mut found = false;
    for i in 0..g.len() {
        if let NodeKind::Envelope { segments } = g.node(i) {
            found = true;
            assert_eq!(segments.len(), 4);
            assert!(matches!(segments[0], Segment::SetValue { .. }));
            assert!(matches!(segments[1], Segment::Linear { .. }));
            assert!(matches!(segments[2], Segment::Sustain));
            assert!(matches!(segments[3], Segment::Exponential { .. }));
            if let Segment::Linear { time, value } = &segments[1] {
                // 0.1s trims to one digit with exponent -1.
                assert_eq!(time.digits, &[1]);
                assert_eq!(time.exponent, Some(-1));
                assert_eq!(value.integer_value(), Some(1));
            }
        }
    }
    assert!(found);
}

#[test]
fn sawtooth_program_builds() {
    let (g, _root) = run(b"(sawtooth (oscillator (note 0)))").unwrap();
    assert_eq!(node_names(&g), vec!["note", "oscillator", "sawtooth"]);
}

#[test]
fn state_variable_filter_modes() {
    let (g, _) = run(b"(lowPass4 (noise) (note 0) 1.5)").unwrap();
    let mut found = false;
    for i in 0..g.len() {
        if let NodeKind::StateVariable { mode, .. } = g.node(i) {
            assert_eq!(*mode, Mode::LowPass4);
            found = true;
        }
    }
    assert!(found);
}

#[test]
fn frequency_maps_scalars() {
    let errs = run(b"(frequency (note 0))").unwrap_err();
    assert!(errs.iter().any(|m| m.contains("type is")), "{:?}", errs);
}

#[test]
fn envelope_sections_split_at_the_wait() {
    let (g, _root) = run(
        b"(define e (envelope (set 0) (lin 0.1s 1) (gate) (exp 0.2s 0))) (* e (sine (oscillator (note 0))))",
    )
    .unwrap();
    for i in 0..g.len() {
        if let NodeKind::Envelope { segments } = g.node(i) {
            let bounds = section_bounds(segments);
            // Two sections: before the release wait, and from it on.
            assert_eq!(bounds, vec![(0, 2), (2, 4)]);
            assert!(matches!(segments[bounds[1].0], Segment::Sustain));
        }
    }
    let (g2, _root) = run(b"(define e (envelope (set 1))) (* e (noise))").unwrap();
    for i in 0..g2.len() {
        if let NodeKind::Envelope { segments } = g2.node(i) {
            assert_eq!(section_bounds(segments), vec![(0, 1)]);
        }
    }
}

#[test]
fn a_noise_program_always_builds() {
    // The simplest program is owed success: one node, which is the root.
    let (g, root) = run(b"(noise)").unwrap();
    assert_eq!(g.len(), 1);
    assert_eq!(root, SignalRef(0));
    assert_eq!(node_names(&g), vec!["noise"]);
}
