//! Which source nodes feed a node of the flow network: pointer masking
//! can only be applied at a source, so a cut point is traced back to the
//! sources that reach it.

use crate::cut::is_walk;
use crate::network::{Network, SOURCE_NODE};
use vstd::prelude::*;

verus! {

/// `path` leads backwards along edges from `from` to `to`, and none of its
/// nodes but the last may be a source node: the trace stops at the first
/// source node that it meets.
pub open spec fn back_path(net: Network, path: Seq<usize>, from: usize, to: usize) -> bool {
    &&& path.len() > 0
    &&& path[0] == from
    &&& path[path.len() - 1] == to
    &&& forall|i: int| 0 <= i < path.len() - 1 ==> #[trigger] back_step(net, path, i)
}

/// Node `i` of `path` is no source node, and an edge leads to it from the
/// next node of `path`.
pub open spec fn back_step(net: Network, path: Seq<usize>, i: int) -> bool {
    net.has_edge(path[i + 1], path[i]) && !net.is_source_node(path[i])
}

/// Tracing back from `from` arrives at `to`.
pub open spec fn reaches_back(net: Network, from: usize, to: usize) -> bool {
    exists|path: Seq<usize>| back_path(net, path, from, to)
}

/// `s` is a source node that tracing back from `node` arrives at.
pub open spec fn is_ancestor(net: Network, s: usize, node: usize) -> bool {
    net.is_source_node(s) && reaches_back(net, node, s)
}

/// The ancestors of `node` among the first `n` nodes, in ascending order.
pub open spec fn ancestors_upto(net: Network, node: usize, n: int) -> Seq<usize>
    decreases n,
{
    if n <= 0 {
        Seq::empty()
    } else if is_ancestor(net, (n - 1) as usize, node) {
        ancestors_upto(net, node, n - 1).push((n - 1) as usize)
    } else {
        ancestors_upto(net, node, n - 1)
    }
}

/// The ancestors of `node`: the source nodes that tracing back from it
/// arrives at, in ascending order.
pub open spec fn ancestors(net: Network, node: usize) -> Seq<usize> {
    ancestors_upto(net, node, net.labels.len() as int)
}

/// The marks `visited` are closed under tracing back: whatever enters a
/// marked node that is no source node is marked too.
pub open spec fn closed_back(net: Network, visited: Seq<bool>) -> bool {
    forall|x: usize, u: usize|
        x < visited.len() && visited[x as int] && !net.is_source_node(x) && #[trigger] net.has_edge(u, x)
            ==> u < visited.len() && visited[u as int]
}

/// Marks that hold the start of a trace and are closed under tracing back
/// hold every node of the trace.
pub(crate) proof fn lemma_closed_holds_path(net: Network, visited: Seq<bool>, path: Seq<usize>, node: usize, s: usize, i: int)
    requires
        closed_back(net, visited),
        node < visited.len(),
        visited[node as int],
        back_path(net, path, node, s),
        0 <= i < path.len(),
    ensures
        path[i] < visited.len(),
        visited[path[i] as int],
    decreases i,
{
    if i > 0 {
        lemma_closed_holds_path(net, visited, path, node, s, i - 1);
        assert(back_step(net, path, i - 1));
    }
}

/// How many of the first `n` marks are set.
pub open spec fn marked(marks: Seq<bool>, n: int) -> int
    decreases n,
{
    if n <= 0 {
        0
    } else {
        marked(marks, n - 1) + if marks[n - 1] {
            1int
        } else {
            0int
        }
    }
}

/// No more marks are set than there are.
pub(crate) proof fn lemma_marked_bound(marks: Seq<bool>, n: int)
    requires
        0 <= n,
    ensures
        0 <= marked(marks, n) <= n,
    decreases n,
{
    if n > 0 {
        lemma_marked_bound(marks, n - 1);
    }
}

/// Setting a mark that was clear raises the count by one.
pub(crate) proof fn lemma_marked_set(marks: Seq<bool>, at: int, n: int)
    requires
        0 <= at < marks.len(),
        0 <= n <= marks.len(),
        !marks[at],
    ensures
        marked(marks.update(at, true), n) == marked(marks, n) + if at < n {
            1int
        } else {
            0int
        },
    decreases n,
{
    if n > 0 {
        lemma_marked_set(marks, at, n - 1);
    }
}

/// Where no mark is set, none is counted.
pub(crate) proof fn lemma_marked_clear(marks: Seq<bool>, n: int)
    requires
        0 <= n <= marks.len(),
        forall|i: int| 0 <= i < n ==> !#[trigger] marks[i],
    ensures
        marked(marks, n) == 0,
    decreases n,
{
    if n > 0 {
        lemma_marked_clear(marks, n - 1);
    }
}

/// A trace can be carried on by one edge from a node that is no source
/// node.
pub(crate) proof fn lemma_reaches_back_step(net: Network, from: usize, x: usize, u: usize)
    requires
        reaches_back(net, from, x),
        !net.is_source_node(x),
        net.has_edge(u, x),
    ensures
        reaches_back(net, from, u),
{
    let path = choose|path: Seq<usize>| back_path(net, path, from, x);
    let longer = path.push(u);
    assert forall|i: int| 0 <= i < longer.len() - 1 implies #[trigger] back_step(net, longer, i) by {
        if i < path.len() - 1 {
            assert(back_step(net, path, i));
        }
    }
    assert(back_path(net, longer, from, u));
}

/// Every node is traced back to from itself.
pub(crate) proof fn lemma_reaches_back_self(net: Network, node: usize)
    ensures
        reaches_back(net, node, node),
{
    assert(back_path(net, seq![node], node, node));
}

/// What is listed as an ancestor is one, and nothing else is listed.
pub proof fn lemma_ancestors_exact(net: Network, node: usize, n: int, s: usize)
    requires
        0 <= n <= usize::MAX,
    ensures
        ancestors_upto(net, node, n).contains(s) <==> s < n && is_ancestor(net, s, node),
    decreases n,
{
    if n > 0 {
        lemma_ancestors_exact(net, node, n - 1, s);
        let prev = ancestors_upto(net, node, n - 1);
        let cur = ancestors_upto(net, node, n);
        if is_ancestor(net, (n - 1) as usize, node) {
            assert(cur[cur.len() - 1] == (n - 1) as usize);
            if cur.contains(s) {
                let k = choose|k: int| 0 <= k < cur.len() && cur[k] == s;
                if k < prev.len() {
                    assert(prev[k] == s);
                }
            }
            if prev.contains(s) {
                let k = choose|k: int| 0 <= k < prev.len() && prev[k] == s;
                assert(cur[k] == s);
            }
        }
    }
}

/// Along a trace that ends in a source node, a walk leads from the global
/// source to each node of the trace.
proof fn lemma_back_path_walk(net: Network, path: Seq<usize>, node: usize, s: usize, k: int) -> (walk: Seq<int>)
    requires
        back_path(net, path, node, s),
        net.is_source_node(s),
        0 <= k < path.len(),
    ensures
        is_walk(net, walk, SOURCE_NODE, path[k]),
    decreases path.len() - k,
{
    if k == path.len() - 1 {
        let e = choose|e: int| 0 <= e < net.edges.len() && net.edges[e] == (SOURCE_NODE, s);
        seq![e]
    } else {
        let shorter = lemma_back_path_walk(net, path, node, s, k + 1);
        assert(back_step(net, path, k));
        let e = choose|e: int| 0 <= e < net.edges.len() && net.edges[e] == (path[k + 1], path[k]);
        let walk = shorter.push(e);
        assert forall|i: int| 0 <= i < walk.len() - 1 implies net.edges[#[trigger] walk[i]].1
            == net.edges[walk[i + 1]].0 by {
            if i < shorter.len() - 1 {
                assert(net.edges[shorter[i]].1 == net.edges[shorter[i + 1]].0);
            }
        }
        assert forall|i: int| 0 <= i < walk.len() implies 0 <= #[trigger] walk[i] < net.edges.len() by {
            if i < shorter.len() {
                assert(0 <= shorter[i] < net.edges.len());
            }
        }
        assert(walk[0] == shorter[0]);
        walk
    }
}

/// A node that no walk from the global source arrives at has no
/// ancestors.
pub proof fn lemma_unreachable_has_no_ancestors(net: Network, node: usize)
    requires
        net.wf(),
        forall|walk: Seq<int>| !is_walk(net, walk, SOURCE_NODE, node),
    ensures
        ancestors(net, node) == Seq::<usize>::empty(),
{
    let found = ancestors(net, node);
    if found.len() > 0 {
        let s = found[0];
        assert(found.contains(s));
        lemma_ancestors_exact(net, node, net.labels.len() as int, s);
        let path = choose|path: Seq<usize>| back_path(net, path, node, s);
        let walk = lemma_back_path_walk(net, path, node, s, 0);
        assert(is_walk(net, walk, SOURCE_NODE, node));
    }
    assert(found =~= Seq::<usize>::empty());
}

proof fn lemma_ancestors_single(net: Network, node: usize, n: int)
    requires
        0 <= n <= usize::MAX,
        forall|s: usize| is_ancestor(net, s, node) <==> s == node,
    ensures
        ancestors_upto(net, node, n) == if node < n {
            seq![node]
        } else {
            Seq::<usize>::empty()
        },
    decreases n,
{
    if n > 0 {
        lemma_ancestors_single(net, node, n - 1);
        if node == n - 1 {
            assert(is_ancestor(net, (n - 1) as usize, node));
            assert(ancestors_upto(net, node, n) =~= seq![node]);
        } else {
            assert(!is_ancestor(net, (n - 1) as usize, node));
        }
    }
}

/// A source node is its own and only ancestor.
pub proof fn lemma_source_node_is_own_ancestor(net: Network, node: usize)
    requires
        net.wf(),
        net.has_node(node),
        net.is_source_node(node),
    ensures
        ancestors(net, node) == seq![node],
{
    assert forall|s: usize| is_ancestor(net, s, node) <==> s == node by {
        if is_ancestor(net, s, node) {
            let path = choose|path: Seq<usize>| back_path(net, path, node, s);
            if path.len() > 1 {
                assert(back_step(net, path, 0));
            }
        }
        if s == node {
            lemma_reaches_back_self(net, node);
        }
    }
    lemma_ancestors_single(net, node, net.labels.len() as int);
}

} // verus!
