//! The audio processing graph: DSP node descriptions and their topology.
//!
//! A node description carries its static parameters and the indices of the
//! nodes it reads. A new node may only reference nodes that already exist,
//! so creation order is a topological order and cycles are impossible by
//! construction. Numeric parameters keep their exact parsed value; turning
//! them into samples happens outside the library, at instantiation time.

use vstd::prelude::*;

use crate::number::ParsedNumber;

verus! {

/// A reference to a signal in the audio processing graph: the index of the
/// node that produces it.
#[derive(Debug, Copy, Clone, PartialEq, Eq, Structural)]
pub struct SignalRef(pub u32);

/// Types of waveform-shaping functions applied point by point.
#[derive(Debug, Clone, Copy, PartialEq, Eq, Structural)]
pub enum PointFunction {
    Sine,
    Sawtooth,
    Saturate,
    Rectify,
}

/// The mode for a state-variable filter.
#[derive(Debug, Clone, Copy, PartialEq, Eq, Structural)]
pub enum Mode {
    LowPass2,
    HighPass2,
    BandPass2,
    LowPass4,
}

/// A gain argument: either a plain ratio or a value in decibels, kept as
/// the exact number it was written as.
#[derive(Debug)]
pub struct Gain {
    pub value: ParsedNumber,
    pub decibels: bool,
}

/// Segment of an envelope description.
#[derive(Debug)]
pub enum Segment {
    /// Move to the value instantly, then hold.
    SetValue { value: ParsedNumber },
    /// Move to the value linearly over the given time, then hold.
    Linear { time: ParsedNumber, value: ParsedNumber },
    /// Move toward the value exponentially with the given time constant.
    Exponential { time_constant: ParsedNumber, value: ParsedNumber },
    /// Hold the previous value for the given time.
    Delay { time: ParsedNumber },
    /// Hold for as long as the note is held down.
    Sustain,
    /// Stop the synthesizer, ending audio output.
    Stop,
}

/// A node in the audio processing graph: what it computes, its exact
/// parameters, and the signals it reads.
#[derive(Debug)]
pub enum NodeKind {
    /// Phase accumulator over a frequency input.
    Oscillator { frequency: SignalRef },
    /// A point function of one input.
    Apply { input: SignalRef, function: PointFunction },
    /// Uniform noise.
    Noise,
    /// The product of two inputs.
    Multiply { x: SignalRef, y: SignalRef },
    /// The base plus the input scaled by a constant gain.
    Mix { base: SignalRef, input: SignalRef, gain: Gain },
    /// An exponential map from control values to frequencies.
    Frequency { input: SignalRef },
    /// A zero signal.
    Zero,
    /// The input scaled by an integer.
    ScaleInt { input: SignalRef, scale: i32 },
    /// The frequency of the host's note, offset in semitones.
    Note { offset: i32 },
    /// A constant value.
    Constant { value: ParsedNumber },
    /// A two-pole high-pass filter at a fixed frequency.
    HighPass { input: SignalRef, frequency: ParsedNumber },
    /// A state-variable filter with a frequency input.
    StateVariable { input: SignalRef, frequency: SignalRef, mode: Mode, q: ParsedNumber },
    /// An envelope generator.
    Envelope { segments: Vec<Segment> },
}

impl NodeKind {
    /// The signals the node reads, in argument order.
    pub open spec fn spec_inputs(&self) -> Seq<SignalRef> {
        match self {
            NodeKind::Oscillator { frequency } => seq![*frequency],
            NodeKind::Apply { input, .. } => seq![*input],
            NodeKind::Noise => Seq::empty(),
            NodeKind::Multiply { x, y } => seq![*x, *y],
            NodeKind::Mix { base, input, .. } => seq![*base, *input],
            NodeKind::Frequency { input } => seq![*input],
            NodeKind::Zero => Seq::empty(),
            NodeKind::ScaleInt { input, .. } => seq![*input],
            NodeKind::Note { .. } => Seq::empty(),
            NodeKind::Constant { .. } => Seq::empty(),
            NodeKind::HighPass { input, .. } => seq![*input],
            NodeKind::StateVariable { input, frequency, .. } => seq![*input, *frequency],
            NodeKind::Envelope { .. } => Seq::empty(),
        }
    }

    /// Get a list of node inputs.
    pub fn inputs(&self) -> (r: Vec<SignalRef>)
        ensures
            r@ == self.spec_inputs(),
    {
        let mut r: Vec<SignalRef> = Vec::new();
        match self {
            NodeKind::Oscillator { frequency } => {
                r.push(*frequency);
            },
            NodeKind::Apply { input, .. } => {
                r.push(*input);
            },
            NodeKind::Noise => {},
            NodeKind::Multiply { x, y } => {
                r.push(*x);
                r.push(*y);
            },
            NodeKind::Mix { base, input, .. } => {
                r.push(*base);
                r.push(*input);
            },
            NodeKind::Frequency { input } => {
                r.push(*input);
            },
            NodeKind::Zero => {},
            NodeKind::ScaleInt { input, .. } => {
                r.push(*input);
            },
            NodeKind::Note { .. } => {},
            NodeKind::Constant { .. } => {},
            NodeKind::HighPass { input, .. } => {
                r.push(*input);
            },
            NodeKind::StateVariable { input, frequency, .. } => {
                r.push(*input);
                r.push(*frequency);
            },
            NodeKind::Envelope { .. } => {},
        }
        proof {
            assert(r@ =~= self.spec_inputs());
        }
        r
    }
}

/// An audio processing graph: node descriptions in creation order.
#[derive(Debug)]
pub struct Graph {
    nodes: Vec<NodeKind>,
}

impl Graph {
    /// The nodes of the graph, in creation order.
    pub closed spec fn spec_nodes(&self) -> Seq<NodeKind> {
        self.nodes@
    }

    /// Every node reads only nodes created before it: the graph is acyclic
    /// by construction.
    pub open spec fn wf(&self) -> bool {
        forall|i: int, j: int|
            0 <= i < self.spec_nodes().len() && 0 <= j < self.spec_nodes()[i].spec_inputs().len()
                ==> (#[trigger] self.spec_nodes()[i].spec_inputs()[j]).0 < i
    }

    /// Create a new, empty graph.
    pub fn new() -> (r: Self)
        ensures
            r.wf(),
            r.spec_nodes().len() == 0,
    {
        let r = Graph { nodes: Vec::new() };
        proof {
            assert(r.nodes@ =~= Seq::<NodeKind>::empty());
        }
        r
    }

    /// The number of nodes in the graph.
    pub fn len(&self) -> (r: usize)
        ensures
            r == self.spec_nodes().len(),
    {
        self.nodes.len()
    }

    /// Add a new node to the graph. Its inputs must refer to existing
    /// nodes; the returned reference is the node's index, which equals the
    /// node count before the call.
    pub fn add(&mut self, node: NodeKind) -> (r: SignalRef)
        requires
            old(self).wf(),
            forall|j: int|
                0 <= j < node.spec_inputs().len() ==> (#[trigger] node.spec_inputs()[j]).0 < old(
                    self,
                ).spec_nodes().len(),
            old(self).spec_nodes().len() < u32::MAX,
        ensures
            final(self).wf(),
            r.0 == old(self).spec_nodes().len(),
            final(self).spec_nodes() == old(self).spec_nodes().push(node),
    {
        let idx = self.nodes.len() as u32;
        self.nodes.push(node);
        SignalRef(idx)
    }

    /// Borrow one node by index.
    pub fn node(&self, i: usize) -> (r: &NodeKind)
        requires
            i < self.spec_nodes().len(),
        ensures
            *r == self.spec_nodes()[i as int],
    {
        &self.nodes[i]
    }
}

/// The section boundaries of an envelope: a new section begins at every
/// segment that waits for the key release, which stays at the head of its
/// section. Sections tile the segments in order; an envelope without such
/// a segment is one section.
#[verifier::loop_isolation(false)]
#[verifier::rlimit(100)]
pub fn section_bounds(segments: &Vec<Segment>) -> (r: Vec<(usize, usize)>)
    ensures
        r@.len() >= 1,
        r@[0].0 == 0,
        r@[r@.len() - 1].1 == segments@.len(),
        forall|k: int| 0 <= k < r@.len() - 1 ==> (#[trigger] r@[k].1) == r@[k + 1].0,
        forall|k: int| 0 <= k < r@.len() ==> (#[trigger] r@[k].0) <= r@[k].1 <= segments@.len(),
        forall|k: int|
            1 <= k < r@.len() ==> (segments@[(#[trigger] r@[k].0) as int] is Sustain),
        forall|k: int, i: int|
            #![trigger r@[k].1, segments@[i]]
            0 <= k < r@.len() && r@[k].0 < i < r@[k].1 ==> !(segments@[i] is Sustain),
{
    let mut bounds: Vec<(usize, usize)> = Vec::new();
    let mut start: usize = 0;
    let mut i: usize = 0;
    let len = segments.len();
    while i < len
        invariant
            0 <= start <= i <= len,
            bounds@.len() <= i,
            bounds@.len() > 0 ==> bounds@[0].0 == 0 && bounds@[bounds@.len() - 1].1 == start,
            bounds@.len() == 0 ==> start == 0,
            forall|k: int|
                0 <= k < bounds@.len() - 1 ==> (#[trigger] bounds@[k].1) == bounds@[k + 1].0,
            forall|k: int|
                0 <= k < bounds@.len() ==> (#[trigger] bounds@[k].0) <= bounds@[k].1 <= len,
            forall|k: int|
                1 <= k < bounds@.len() ==> (segments@[(#[trigger] bounds@[k].0) as int]
                    is Sustain),
            start == 0 || start < len,
            bounds@.len() > 0 && start < len ==> segments@[start as int] is Sustain,
            forall|k: int, j: int|
                #![trigger bounds@[k].1, segments@[j]]
                0 <= k < bounds@.len() && bounds@[k].0 < j < bounds@[k].1 ==> !(segments@[j]
                    is Sustain),
            forall|j: int| start < j < i ==> !(#[trigger] segments@[j] is Sustain),
        decreases len - i,
    {
        let is_wait = match &segments[i] {
            Segment::Sustain => true,
            _ => false,
        };
        if is_wait {
            bounds.push((start, i));
            start = i;
        }
        i = i + 1;
    }
    let ghost before = bounds@;
    bounds.push((start, len));
    proof {
        assert forall|k: int|
            1 <= k < bounds@.len() implies (segments@[(#[trigger] bounds@[k].0) as int]
            is Sustain) by {
            if k < bounds@.len() - 1 {
                assert(bounds@[k] == before[k]);
            } else {
                assert(bounds@[k] == (start, len));
                assert(before.len() > 0);
                assert(start < len);
            }
        }
    }
    bounds
}

} // verus!
