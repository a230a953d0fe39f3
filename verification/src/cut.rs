//! The cut of a flow network that a solver's answer describes, and why it
//! separates the source from the sink.

use crate::error::BladeError;
use crate::flow::Arc;
use crate::network::{Network, SINK_NODE, SOURCE_NODE};
use vstd::prelude::*;

verus! {

/// The nodes that the list `side` names.
pub open spec fn side_set(side: Seq<usize>) -> Set<usize> {
    Set::new(|node: usize| side.contains(node))
}

/// The numbers of the edges among the first `n` of `edges` that lead from
/// a node in `inside` to a node outside of it, in ascending order.
pub open spec fn crossing(edges: Seq<Arc>, inside: Set<usize>, n: int) -> Seq<usize>
    decreases n,
{
    if n <= 0 {
        Seq::empty()
    } else if inside.contains(edges[n - 1].0) && !inside.contains(edges[n - 1].1) {
        crossing(edges, inside, n - 1).push((n - 1) as usize)
    } else {
        crossing(edges, inside, n - 1)
    }
}

/// The list `side` names nodes of the network only, the source among them
/// and the sink not.
pub open spec fn side_splits(net: Network, side: Seq<usize>) -> bool {
    &&& forall|k: int| 0 <= k < side.len() ==> net.has_node(#[trigger] side[k])
    &&& side.contains(SOURCE_NODE)
    &&& !side.contains(SINK_NODE)
}

/// The cut that a solver's answer stands for: the edges that leave the
/// source side `side`, provided that `side` splits the network and that
/// as many edges leave it as the flow value `value` says.
pub open spec fn cut_of(net: Network, side: Seq<usize>, value: usize) -> Result<Seq<usize>, BladeError> {
    let cut = crossing(net.edges, side_set(side), net.edges.len() as int);
    if side_splits(net, side) && cut.len() == value {
        Ok(cut)
    } else {
        Err(BladeError::SolverFailure)
    }
}

/// The edges numbered `walk` lead from node `from` to node `to`, each
/// starting where the one before it ends.
pub open spec fn is_walk(net: Network, walk: Seq<int>, from: usize, to: usize) -> bool {
    &&& walk.len() > 0
    &&& forall|i: int| 0 <= i < walk.len() ==> 0 <= #[trigger] walk[i] < net.edges.len()
    &&& net.edges[walk[0]].0 == from
    &&& net.edges[walk[walk.len() - 1]].1 == to
    &&& forall|i: int|
        0 <= i < walk.len() - 1 ==> net.edges[#[trigger] walk[i]].1 == net.edges[walk[i + 1]].0
}

/// An edge among the first `n` that leaves `inside` is listed by
/// `crossing`, and `crossing` lists nothing else.
pub proof fn lemma_crossing_exact(edges: Seq<Arc>, inside: Set<usize>, n: int, e: int)
    requires
        0 <= n <= edges.len() <= usize::MAX,
    ensures
        crossing(edges, inside, n).contains(e as usize) && 0 <= e <= usize::MAX <==> 0 <= e < n
            && inside.contains(edges[e].0) && !inside.contains(edges[e].1),
    decreases n,
{
    if n > 0 {
        lemma_crossing_exact(edges, inside, n - 1, e);
        let prev = crossing(edges, inside, n - 1);
        if inside.contains(edges[n - 1].0) && !inside.contains(edges[n - 1].1) {
            let cur = prev.push((n - 1) as usize);
            assert(cur[cur.len() - 1] == (n - 1) as usize);
            if 0 <= e <= usize::MAX && cur.contains(e as usize) {
                let k = choose|k: int| 0 <= k < cur.len() && cur[k] == e as usize;
                if k < prev.len() {
                    assert(prev[k] == e as usize);
                }
            }
            if 0 <= e < n - 1 && prev.contains(e as usize) {
                let k = choose|k: int| 0 <= k < prev.len() && prev[k] == e as usize;
                assert(cur[k] == e as usize);
            }
        }
    }
}

/// On a walk whose edge `k` starts inside and whose last edge ends outside,
/// some edge from `k` on leaves `inside`.
proof fn lemma_walk_leaves(net: Network, inside: Set<usize>, walk: Seq<int>, k: int) -> (i: int)
    requires
        0 <= k < walk.len(),
        forall|j: int| 0 <= j < walk.len() ==> 0 <= #[trigger] walk[j] < net.edges.len(),
        forall|j: int|
            0 <= j < walk.len() - 1 ==> net.edges[#[trigger] walk[j]].1 == net.edges[walk[j + 1]].0,
        inside.contains(net.edges[walk[k]].0),
        !inside.contains(net.edges[walk[walk.len() - 1]].1),
    ensures
        k <= i < walk.len(),
        inside.contains(net.edges[walk[i]].0),
        !inside.contains(net.edges[walk[i]].1),
    decreases walk.len() - k,
{
    if !inside.contains(net.edges[walk[k]].1) {
        k
    } else {
        assert(k < walk.len() - 1);
        lemma_walk_leaves(net, inside, walk, k + 1)
    }
}

/// Removing the cut leaves no way from the source to the sink: every walk
/// from the one to the other goes through an edge of the cut. And the cut
/// has as many edges as the flow value says.
pub proof fn lemma_cut_separates(net: Network, side: Seq<usize>, value: usize, walk: Seq<int>)
    requires
        net.wf(),
        cut_of(net, side, value) is Ok,
        is_walk(net, walk, SOURCE_NODE, SINK_NODE),
    ensures
        cut_of(net, side, value).unwrap().len() == value,
        exists|i: int| 0 <= i < walk.len() && cut_of(net, side, value).unwrap().contains(#[trigger] walk[i] as usize),
{
    let inside = side_set(side);
    let i = lemma_walk_leaves(net, inside, walk, 0);
    lemma_crossing_exact(net.edges, inside, net.edges.len() as int, walk[i]);
    assert(cut_of(net, side, value).unwrap().contains(walk[i] as usize));
}

} // verus!
