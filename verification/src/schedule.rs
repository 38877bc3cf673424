//! The topological scheduler: from a graph and an output signal to an
//! execution plan.
//!
//! The plan lists exactly the nodes reachable from the output, in creation
//! order — a topological sort, since every node reads only earlier nodes.
//! Each entry names its source node and the plan indices of its inputs,
//! which always come earlier in the plan; the output is the last entry.

use vstd::prelude::*;

use crate::graph::{Graph, NodeKind, SignalRef};

verus! {

/// An error from building a plan.
#[derive(Debug, Clone, Copy, PartialEq, Eq, Structural)]
pub enum Error {
    ContainsLoop,
    BadBuffer,
}

impl Error {
    /// A human-readable description of the error.
    pub fn message(&self) -> (r: &'static str)
        ensures
            *self == Error::ContainsLoop ==> r@ == "audio graph contains cycle"@,
            *self == Error::BadBuffer ==> r@ == "invalid buffer size"@,
    {
        match self {
            Error::ContainsLoop => "audio graph contains cycle",
            Error::BadBuffer => "invalid buffer size",
        }
    }
}

/// One entry of the execution plan: the graph node it runs and the plan
/// indices of its inputs.
#[derive(Debug)]
pub struct CompiledNode {
    pub source: u32,
    pub inputs: Vec<usize>,
}

/// True when `p` is a walk through the graph along input edges: every step
/// goes from a node to one of its inputs.
pub open spec fn is_path(nodes: Seq<NodeKind>, p: Seq<int>) -> bool {
    &&& p.len() >= 1
    &&& forall|k: int| 0 <= k < p.len() ==> 0 <= #[trigger] p[k] < nodes.len()
    &&& forall|k: int| 0 <= k < p.len() - 1 ==> spec_input_of(nodes[#[trigger] p[k]], p[k + 1])
}

/// True when graph node `i` is reachable from node `out` along input edges:
/// some walk leads from `out` to `i`.
pub open spec fn spec_reachable(nodes: Seq<NodeKind>, out: int, i: int) -> bool {
    exists|p: Seq<int>| #[trigger] is_path(nodes, p) && p[0] == out && p.last() == i
}

/// True when node `n` reads the node at index `i`.
pub open spec fn spec_input_of(n: NodeKind, i: int) -> bool {
    exists|q: int| 0 <= q < n.spec_inputs().len() && (#[trigger] n.spec_inputs()[q]).0 == i
}

/// What a correct plan looks like: sources strictly increase and end at the
/// output, every entry's inputs are earlier plan entries that hold exactly
/// the entry's graph inputs, and every entry is reachable from the output.
pub open spec fn plan_ok(nodes: Seq<NodeKind>, out: int, plan: Seq<CompiledNode>) -> bool {
    &&& plan.len() >= 1
    &&& plan[plan.len() - 1].source == out
    &&& forall|p: int, q: int|
        0 <= p < q < plan.len() ==> (#[trigger] plan[p].source) < (#[trigger] plan[q].source)
    &&& forall|p: int|
        0 <= p < plan.len() ==> 0 <= (#[trigger] plan[p].source) < nodes.len()
    &&& forall|p: int|
        0 <= p < plan.len() ==> (#[trigger] plan[p].inputs)@.len() == nodes[plan[
            p
        ].source as int].spec_inputs().len()
    &&& forall|p: int, q: int|
        0 <= p < plan.len() && 0 <= q < plan[p].inputs@.len() ==> {
            let t = #[trigger] plan[p].inputs@[q];
            &&& t < p
            &&& plan[t as int].source == nodes[plan[p].source as int].spec_inputs()[q].0
        }
    &&& forall|p: int|
        0 <= p < plan.len() ==> spec_reachable(nodes, out, #[trigger] plan[p].source as int)
}

/// The fixpoint property of the mark array: a node is marked exactly when
/// it is the output or an input of a marked node.
spec fn marks_fixpoint(nodes: Seq<NodeKind>, out: int, marks: Seq<bool>, low: int) -> bool {
    forall|k: int|
        0 <= k < nodes.len() ==> ((#[trigger] marks[k]) <==> (k == out || exists|j: int|
            low <= j < nodes.len() && #[trigger] marks[j] && spec_input_of(nodes[j], k)))
}

/// A mark array that satisfies the fixpoint down to zero marks exactly the
/// reachable nodes.
proof fn lemma_marks_reachable(nodes: Seq<NodeKind>, out: int, marks: Seq<bool>, k: int)
    requires
        marks.len() == nodes.len(),
        0 <= out < nodes.len(),
        marks_fixpoint(nodes, out, marks, 0),
        forall|i: int, j: int|
            0 <= i < nodes.len() && 0 <= j < nodes[i].spec_inputs().len() ==> (
            #[trigger] nodes[i].spec_inputs()[j]).0 < i,
        0 <= k < nodes.len(),
        forall|j: int| out < j < nodes.len() ==> !(#[trigger] marks[j]),
    ensures
        marks[k] <==> spec_reachable(nodes, out, k),
    decreases nodes.len() - k,
{
    // Everything strictly above k is already settled.
    assert forall|j: int| k < j < nodes.len() implies ((#[trigger] marks[j]) <==> spec_reachable(
        nodes,
        out,
        j,
    )) by {
        lemma_marks_reachable(nodes, out, marks, j);
    }
    if marks[k] {
        if k == out {
            let p = seq![out];
            assert(is_path(nodes, p) && p[0] == out && p.last() == k);
        } else {
            let j = choose|j: int|
                0 <= j < nodes.len() && #[trigger] marks[j] && spec_input_of(nodes[j], k);
            let q = choose|q: int|
                0 <= q < nodes[j].spec_inputs().len() && (#[trigger] nodes[j].spec_inputs()[
                    q
                ]).0 == k;
            assert(k < j);
            assert(spec_reachable(nodes, out, j));
            let pj = choose|p: Seq<int>| #[trigger] is_path(nodes, p) && p[0] == out && p.last()
                == j;
            let p = pj.push(k);
            assert forall|m: int| 0 <= m < p.len() - 1 implies spec_input_of(
                nodes[#[trigger] p[m]],
                p[m + 1],
            ) by {
                if m < pj.len() - 1 {
                    assert(p[m] == pj[m] && p[m + 1] == pj[m + 1]);
                    assert(spec_input_of(nodes[pj[m]], pj[m + 1]));
                } else {
                    assert(p[m] == pj.last() && p[m + 1] == k);
                }
            }
            assert(is_path(nodes, p) && p[0] == out && p.last() == k);
        }
    }
    if spec_reachable(nodes, out, k) && !marks[k] {
        let p = choose|p: Seq<int>| #[trigger] is_path(nodes, p) && p[0] == out && p.last() == k;
        if p.len() == 1 {
            assert(k == out);
            assert(marks[k]);
        } else {
            let j = p[p.len() - 2];
            assert(spec_input_of(nodes[j], k));
            let q = choose|q: int|
                0 <= q < nodes[j].spec_inputs().len() && (#[trigger] nodes[j].spec_inputs()[
                    q
                ]).0 == k;
            assert(k < j);
            let pj = p.subrange(0, p.len() - 1);
            assert forall|m: int| 0 <= m < pj.len() - 1 implies spec_input_of(
                nodes[#[trigger] pj[m]],
                pj[m + 1],
            ) by {
                assert(pj[m] == p[m] && pj[m + 1] == p[m + 1]);
            }
            assert(is_path(nodes, pj) && pj[0] == out && pj.last() == j);
            assert(spec_reachable(nodes, out, j));
            assert(marks[j]);
            assert(marks[k]);
        }
        assert(false);
    }
}

/// Build the execution plan for the given graph and output: the reachable
/// nodes in creation order, with inputs renumbered to plan indices.
#[verifier::loop_isolation(false)]
#[verifier::rlimit(100)]
pub fn compile(graph: &Graph, output: SignalRef) -> (r: Result<Vec<CompiledNode>, Error>)
    requires
        graph.wf(),
        output.0 < graph.spec_nodes().len(),
    ensures
        r is Ok,
        r matches Ok(plan) ==> plan_ok(graph.spec_nodes(), output.0 as int, plan@),
{
    let n = graph.len();
    let ghost nodes = graph.spec_nodes();
    let out = output.0 as usize;
    // Mark the reachable nodes, walking backwards: edges lead to smaller
    // indices, so one pass settles every node.
    let mut marks: Vec<bool> = Vec::new();
    let mut z: usize = 0;
    while z < n
        invariant
            marks@.len() == z <= n,
            forall|k: int| 0 <= k < z ==> (#[trigger] marks@[k]) == (k == out),
        decreases n - z,
    {
        marks.push(z == out);
        z = z + 1;
    }
    let mut i: usize = n;
    while i > 0
        invariant
            0 <= i <= n,
            marks@.len() == n,
            marks@[out as int],
            forall|j: int| out < j < n ==> !(#[trigger] marks@[j]),
            marks_fixpoint(nodes, out as int, marks@, i as int),
        decreases i,
    {
        let ghost pre = marks@;
        if marks[i - 1] {
            let node_inputs = graph.node(i - 1).inputs();
            let mut q: usize = 0;
            while q < node_inputs.len()
                invariant
                    marks@.len() == n,
                    node_inputs@ == nodes[i - 1].spec_inputs(),
                    0 <= q <= node_inputs@.len(),
                    i >= 1,
                    pre[i - 1],
                    forall|k: int|
                        0 <= k < n && pre[k] ==> #[trigger] marks@[k],
                    forall|k: int|
                        0 <= k < n && #[trigger] marks@[k] ==> (pre[k] || exists|x: int|
                            0 <= x < q && (#[trigger] nodes[i - 1].spec_inputs()[x]).0 == k),
                    forall|x: int|
                        0 <= x < q ==> marks@[(#[trigger] nodes[i - 1].spec_inputs()[x]).0 as int],
                decreases node_inputs@.len() - q,
            {
                let target = node_inputs[q].0 as usize;
                marks.set(target, true);
                q = q + 1;
            }
        }
        proof {
            assert forall|k: int|
                0 <= k < n implies ((#[trigger] marks@[k]) <==> (k == out as int || exists|j: int|
                i - 1 <= j < n && #[trigger] marks@[j] && spec_input_of(nodes[j], k))) by {
                if marks@[k] {
                    if pre[k] {
                        if k != out {
                            let j = choose|j: int|
                                i <= j < n && #[trigger] pre[j] && spec_input_of(nodes[j], k);
                            assert(marks@[j]);
                        }
                    } else {
                        // Newly marked: an input of node i - 1.
                        assert(marks@[i - 1] && spec_input_of(nodes[i - 1], k));
                    }
                } else {
                    if k == out as int {
                        assert(marks@[out as int]);
                        assert(false);
                    }
                    if exists|j: int|
                        i - 1 <= j < n && #[trigger] marks@[j] && spec_input_of(nodes[j], k) {
                        let j = choose|j: int|
                            i - 1 <= j < n && #[trigger] marks@[j] && spec_input_of(nodes[j], k);
                        if j >= i {
                            assert(pre[j] == marks@[j]);
                            assert(pre[k]);
                            assert(marks@[k]);
                        } else {
                            // j == i - 1, so k was marked in this step.
                            assert(pre[i - 1] == marks@[i - 1]);
                            assert(marks@[k]);
                        }
                        assert(false);
                    }
                }
            }
        }
        i = i - 1;
    }
    proof {
        assert forall|k: int| 0 <= k < n implies ((#[trigger] marks@[k]) <==> spec_reachable(
            nodes,
            out as int,
            k,
        )) by {
            lemma_marks_reachable(nodes, out as int, marks@, k);
        }
    }
    // Emit the marked nodes in creation order, renumbering their inputs.
    let mut map: Vec<usize> = Vec::new();
    let mut plan: Vec<CompiledNode> = Vec::new();
    let mut i2: usize = 0;
    while i2 < n
        invariant
            0 <= i2 <= n,
            map@.len() == i2,
            plan@.len() <= i2,
            forall|k: int|
                0 <= k < i2 && marks@[k] ==> {
                    &&& 0 <= #[trigger] map@[k] < plan@.len()
                    &&& plan@[map@[k] as int].source == k
                },
            forall|p: int|
                0 <= p < plan@.len() ==> {
                    &&& 0 <= (#[trigger] plan@[p].source) < i2
                    &&& marks@[plan@[p].source as int]
                    &&& map@[plan@[p].source as int] == p
                },
            forall|p: int, q: int|
                0 <= p < q < plan@.len() ==> (#[trigger] plan@[p].source) < (#[trigger] plan@[
                    q
                ].source),
            forall|p: int|
                0 <= p < plan@.len() ==> (#[trigger] plan@[p].inputs)@.len() == nodes[plan@[
                    p
                ].source as int].spec_inputs().len(),
            forall|p: int, q: int|
                0 <= p < plan@.len() && 0 <= q < plan@[p].inputs@.len() ==> {
                    let t = #[trigger] plan@[p].inputs@[q];
                    &&& t < p
                    &&& plan@[t as int].source == nodes[plan@[p].source as int].spec_inputs()[
                        q
                    ].0
                },
        decreases n - i2,
    {
        if marks[i2] {
            let node_inputs = graph.node(i2).inputs();
            let mut inputs: Vec<usize> = Vec::new();
            let mut q: usize = 0;
            while q < node_inputs.len()
                invariant
                    node_inputs@ == nodes[i2 as int].spec_inputs(),
                    0 <= q <= node_inputs@.len(),
                    inputs@.len() == q,
                    marks@[i2 as int],
                    forall|x: int|
                        0 <= x < q ==> {
                            let t = #[trigger] inputs@[x];
                            &&& t < plan@.len()
                            &&& plan@[t as int].source == nodes[i2 as int].spec_inputs()[x].0
                        },
                decreases node_inputs@.len() - q,
            {
                let src = node_inputs[q].0 as usize;
                proof {
                    // Inputs of a marked node are marked, by the fixpoint.
                    assert(spec_input_of(nodes[i2 as int], src as int));
                    assert(marks@[src as int]);
                }
                inputs.push(map[src]);
                q = q + 1;
            }
            map.push(plan.len());
            plan.push(CompiledNode { source: i2 as u32, inputs });
        } else {
            map.push(usize::MAX);
        }
        i2 = i2 + 1;
    }
    proof {
        assert(marks@[out as int]);
        let p0 = map@[out as int];
        assert(0 <= p0 < plan@.len() && plan@[p0 as int].source == out);
        // Nothing above the output is marked, so the output is the last
        // entry of the plan.
        let lastp = plan@.len() - 1;
        if (p0 as int) < lastp {
            assert(plan@[p0 as int].source < plan@[lastp].source);
            assert(marks@[plan@[lastp].source as int]);
            assert(!marks@[plan@[lastp].source as int]);
        }
        assert(p0 == plan@.len() - 1);
        assert forall|p: int| 0 <= p < plan@.len() implies spec_reachable(
            nodes,
            out as int,
            #[trigger] plan@[p].source as int,
        ) by {
            assert(marks@[plan@[p].source as int]);
        }
        assert(plan_ok(nodes, out as int, plan@));
    }
    Ok(plan)
}

} // verus!
