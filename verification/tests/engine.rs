use ultrafxr::args::{parse_arg, parse_notes, ArgShape};
use ultrafxr::config::{
    check_buffer_size, check_sample_rate, BufferSizeAdjustment, SampleRateError,
    DEFAULT_BUFFER_SIZE, DEFAULT_SAMPLE_RATE,
};
use ultrafxr::graph::{Graph, NodeKind, PointFunction, SignalRef};
use ultrafxr::note::Note;
use ultrafxr::rand::Rand;
use ultrafxr::schedule::compile;
use ultrafxr::wave::{wave_header, Parameters};

#[test]
fn sample_rate_bounds() {
    assert_eq!(check_sample_rate(Some(7999)), Err(SampleRateError::TooLow));
    assert_eq!(check_sample_rate(Some(48000)), Ok(48000));
    assert_eq!(check_sample_rate(Some(8000)), Ok(8000));
    assert_eq!(check_sample_rate(Some(192000)), Ok(192000));
    assert_eq!(check_sample_rate(Some(192001)), Err(SampleRateError::TooHigh));
    assert_eq!(check_sample_rate(None), Ok(DEFAULT_SAMPLE_RATE));
}

#[test]
fn buffer_size_bounds() {
    assert_eq!(check_buffer_size(Some(33)), (64, BufferSizeAdjustment::RoundedUpToPowerOfTwo));
    assert_eq!(check_buffer_size(Some(31)), (32, BufferSizeAdjustment::RaisedToMinimum));
    assert_eq!(check_buffer_size(Some(9000)), (8192, BufferSizeAdjustment::LoweredToMaximum));
    assert_eq!(check_buffer_size(Some(1024)), (1024, BufferSizeAdjustment::Unchanged));
    assert_eq!(check_buffer_size(None), (DEFAULT_BUFFER_SIZE, BufferSizeAdjustment::Unchanged));
}

#[test]
fn graph_add_returns_prior_count() {
    let mut g = Graph::new();
    let a = g.add(NodeKind::Noise);
    assert_eq!(a, SignalRef(0));
    let b = g.add(NodeKind::Apply { input: a, function: PointFunction::Rectify });
    assert_eq!(b, SignalRef(1));
    let c = g.add(NodeKind::Multiply { x: a, y: b });
    assert_eq!(c, SignalRef(2));
    assert_eq!(g.len(), 3);
    // Every node's inputs point strictly below it.
    for i in 0..g.len() {
        for input in g.node(i).inputs() {
            assert!((input.0 as usize) < i);
        }
    }
}

#[test]
fn schedule_is_a_topological_sort_of_the_reachable_subgraph() {
    let mut g = Graph::new();
    let note = g.add(NodeKind::Note { offset: 0 });
    let unused = g.add(NodeKind::Noise);
    let _unused2 = g.add(NodeKind::Apply { input: unused, function: PointFunction::Rectify });
    let osc = g.add(NodeKind::Oscillator { frequency: note });
    let sine = g.add(NodeKind::Apply { input: osc, function: PointFunction::Sine });
    let plan = compile(&g, sine).unwrap();
    // Exactly the reachable nodes, in order, ending at the output.
    let sources: Vec<u32> = plan.iter().map(|c| c.source).collect();
    assert_eq!(sources, vec![note.0, osc.0, sine.0]);
    // Every input points at an earlier plan entry holding the right node.
    for (p, entry) in plan.iter().enumerate() {
        let ginputs = g.node(entry.source as usize).inputs();
        assert_eq!(entry.inputs.len(), ginputs.len());
        for (q, &t) in entry.inputs.iter().enumerate() {
            assert!(t < p);
            assert_eq!(plan[t].source, ginputs[q].0);
        }
    }
}

#[test]
fn schedule_keeps_shared_nodes_once() {
    let mut g = Graph::new();
    let note = g.add(NodeKind::Note { offset: 0 });
    let osc = g.add(NodeKind::Oscillator { frequency: note });
    let sine = g.add(NodeKind::Apply { input: osc, function: PointFunction::Sine });
    let saw = g.add(NodeKind::Apply { input: osc, function: PointFunction::Sawtooth });
    let mul = g.add(NodeKind::Multiply { x: sine, y: saw });
    let plan = compile(&g, mul).unwrap();
    let sources: Vec<u32> = plan.iter().map(|c| c.source).collect();
    assert_eq!(sources, vec![note.0, osc.0, sine.0, saw.0, mul.0]);
}

#[test]
fn rand_is_deterministic() {
    // Equal seeds give equal streams; the stream is a pure function of the
    // state.
    let mut a = Rand::with_seed(42, 54);
    let mut b = Rand::with_seed(42, 54);
    for _ in 0..100 {
        assert_eq!(a.next(), b.next());
    }
    let mut c = Rand::with_default_seed();
    let mut d = Rand::with_default_seed();
    let first: Vec<u32> = (0..8).map(|_| c.next()).collect();
    let second: Vec<u32> = (0..8).map(|_| d.next()).collect();
    assert_eq!(first, second);
    // A different seed gives a different stream.
    let mut e = Rand::with_seed(43, 54);
    let other: Vec<u32> = (0..8).map(|_| e.next()).collect();
    let same: Vec<u32> = (0..8).map(|_| Rand::with_seed(42, 54)).map(|mut r| r.next()).collect();
    assert_ne!(other, same);
}

#[test]
fn wave_header_fields() {
    // One second of mono at 48 kHz: 48000 frames of two bytes.
    let n: u32 = 48000;
    let header = wave_header(n, &Parameters { channel_count: 1, sample_rate: 48000 });
    assert_eq!(header.len(), 44);
    let data_len = 2 * n;
    assert_eq!(&header[0..4], b"RIFF");
    assert_eq!(&header[4..8], &(data_len + 36).to_le_bytes());
    assert_eq!(&header[8..12], b"WAVE");
    assert_eq!(&header[12..16], b"fmt ");
    assert_eq!(&header[16..20], &16u32.to_le_bytes());
    assert_eq!(&header[20..22], &1u16.to_le_bytes());
    assert_eq!(&header[22..24], &1u16.to_le_bytes());
    assert_eq!(&header[24..28], &48000u32.to_le_bytes());
    assert_eq!(&header[28..32], &96000u32.to_le_bytes());
    assert_eq!(&header[32..34], &2u16.to_le_bytes());
    assert_eq!(&header[34..36], &16u16.to_le_bytes());
    assert_eq!(&header[36..40], b"data");
    assert_eq!(&header[40..44], &data_len.to_le_bytes());
    // The whole file for a stream of n frames is the header plus two bytes
    // per frame.
    assert_eq!(header.len() as u32 + 2 * n, 44 + 2 * n);
}

#[test]
fn flag_shapes() {
    assert!(matches!(parse_arg(b"input.sfx"), ArgShape::Positional));
    assert!(matches!(parse_arg(b"-"), ArgShape::Positional));
    assert!(matches!(parse_arg(b"--"), ArgShape::EndOfFlags));
    match parse_arg(b"-sample-rate=48000") {
        ArgShape::Named { name, value } => {
            assert_eq!(name, b"sample-rate");
            assert_eq!(value.as_deref(), Some(&b"48000"[..]));
        }
        other => panic!("unexpected shape {:?}", other),
    }
    match parse_arg(b"--verbose") {
        ArgShape::Named { name, value } => {
            assert_eq!(name, b"verbose");
            assert!(value.is_none());
        }
        other => panic!("unexpected shape {:?}", other),
    }
    assert!(matches!(parse_arg(b"-bad-"), ArgShape::Invalid));
    assert!(matches!(parse_arg(b"-=x"), ArgShape::Invalid));
}

#[test]
fn note_lists() {
    let notes = parse_notes("a4,c#2,b-1").unwrap();
    assert_eq!(notes, vec![Note(69), Note(37), Note(11)]);
    assert!(parse_notes("a4,,c2").is_none());
    assert!(parse_notes("").is_none());
    assert!(parse_notes("zz").is_none());
}
