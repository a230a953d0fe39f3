//! The pass: build the flow network, cut it, and mitigate at each edge of
//! the cut.

use crate::ancestors::{ancestors, lemma_ancestors_exact};
use crate::cut::{lemma_crossing_exact, side_set};
use crate::flow::pushrelabel_unit;
use crate::network::lemma_interior_labelled;
use crate::construct::{build_blade_graph_for_func, flow_network};
use crate::error::BladeError;
use crate::fence::{fence_after, fence_before, insert_fence_after, insert_fence_before};
use crate::flow::Arc;
use crate::graph::{solved_cut, BladeGraph};
use crate::ir::{BlockPredecessor, ControlFlowGraph, Function, FunctionView};
use crate::network::{BladeNode, Network, SINK_NODE, SOURCE_NODE};
use crate::settings::Blade;
use crate::shape::{labels_fit, lemma_flow_network_fits};
use crate::slh::{slh_on, SLHContext, ALLOW_FAKE_SLH_BOUNDS};
use vstd::prelude::*;

verus! {

/// The function and the ledger after one node of `nodes` after the other,
/// from position `from` on, has been hardened.
pub open spec fn slh_nodes(
    f: FunctionView,
    done: Set<BladeNode>,
    net: Network,
    nodes: Seq<usize>,
    allow_fake: bool,
    from: int,
) -> Result<(FunctionView, Set<BladeNode>), BladeError>
    decreases nodes.len() - from,
{
    if from < 0 || from >= nodes.len() {
        Ok((f, done))
    } else {
        match slh_on(f, done, net.labels[nodes[from] as int].unwrap(), allow_fake) {
            Ok(next) => slh_nodes(next.0, next.1, net, nodes, allow_fake, from + 1),
            Err(e) => Err(e),
        }
    }
}

/// The function and the ledger after the mitigation of one cut edge.
///
/// With fences: an edge out of the source is cut after its head; an edge
/// into the sink before its tail; any other edge before its head. With
/// pointer masking: an edge out of the source is cut by hardening its
/// head; any other by hardening every ancestor of its tail.
pub open spec fn mitigate_edge(
    f: FunctionView,
    done: Set<BladeNode>,
    net: Network,
    arc: Arc,
    setting: Blade,
    allow_fake: bool,
) -> Result<(FunctionView, Set<BladeNode>), BladeError> {
    let tail_label = net.labels[arc.0 as int].unwrap();
    let head_label = net.labels[arc.1 as int].unwrap();
    match setting {
        Blade::Lfence | Blade::LfencePerBlock => {
            let fenced = if arc.0 == SOURCE_NODE {
                fence_after(f, head_label, setting)
            } else if arc.1 == SINK_NODE {
                fence_before(f, tail_label, setting)
            } else {
                fence_before(f, head_label, setting)
            };
            match fenced {
                Ok(next) => Ok((next, done)),
                Err(e) => Err(e),
            }
        },
        Blade::Slh => if arc.0 == SOURCE_NODE {
            slh_on(f, done, head_label, allow_fake)
        } else {
            slh_nodes(f, done, net, ancestors(net, arc.0), allow_fake, 0)
        },
        Blade::Off => Err(BladeError::UnexpectedSetting),
    }
}

/// The function and the ledger after the mitigation of the edges `cut`
/// from position `from` on, one after the other.
pub open spec fn mitigate_cut(
    f: FunctionView,
    done: Set<BladeNode>,
    net: Network,
    cut: Seq<usize>,
    setting: Blade,
    allow_fake: bool,
    from: int,
) -> Result<(FunctionView, Set<BladeNode>), BladeError>
    decreases cut.len() - from,
{
    if from < 0 || from >= cut.len() {
        Ok((f, done))
    } else {
        match mitigate_edge(f, done, net, net.edges[cut[from] as int], setting, allow_fake) {
            Ok(next) => mitigate_cut(next.0, next.1, net, cut, setting, allow_fake, from + 1),
            Err(e) => Err(e),
        }
    }
}

/// What the pass makes of a function: nothing under `Off`; else the
/// function after the mitigation of every edge of the minimum cut of its
/// flow network, in which the values that stores write count as sinks.
pub open spec fn blade(f: FunctionView, cfg: Seq<Seq<BlockPredecessor>>, setting: Blade) -> Result<
    FunctionView,
    BladeError,
> {
    if setting == Blade::Off {
        Ok(f)
    } else {
        match flow_network(f, cfg, true) {
            Ok(net) => match solved_cut(net) {
                Ok(cut) => match mitigate_cut(f, Set::empty(), net, cut, setting, ALLOW_FAKE_SLH_BOUNDS, 0) {
                    Ok(last) => Ok(last.0),
                    Err(e) => Err(e),
                },
                Err(e) => Err(e),
            },
            Err(e) => Err(e),
        }
    }
}

/// Hardens the sources at the given nodes, one after the other.
fn slh_all(ctx: &mut SLHContext, func: &mut Function, graph: &BladeGraph, nodes: &Vec<usize>) -> (r: Result<
    (),
    BladeError,
>)
    requires
        old(func).wf(),
        graph.wf(),
        labels_fit(old(func)@, graph@.labels),
        forall|k: int| 0 <= k < nodes@.len() ==> graph@.is_interior(#[trigger] nodes@[k]),
    ensures
        final(func).wf(),
        final(func)@.values.len() >= old(func)@.values.len(),
        final(func)@.insts.len() >= old(func)@.insts.len(),
        final(ctx).allows_fake() == old(ctx).allows_fake(),
        match r {
            Ok(()) => slh_nodes(old(func)@, old(ctx)@, graph@, nodes@, old(ctx).allows_fake(), 0) == Ok::<
                (FunctionView, Set<BladeNode>),
                BladeError,
            >((final(func)@, final(ctx)@)),
            Err(e) => slh_nodes(old(func)@, old(ctx)@, graph@, nodes@, old(ctx).allows_fake(), 0) == Err::<
                (FunctionView, Set<BladeNode>),
                BladeError,
            >(e),
        },
{
    let ghost net = graph@;
    let ghost allow = ctx.allows_fake();
    let mut k: usize = 0;
    while k < nodes.len()
        invariant
            func.wf(),
            graph.wf(),
            net == graph@,
            k <= nodes@.len(),
            allow == old(ctx).allows_fake(),
            ctx.allows_fake() == allow,
            func@.values.len() >= old(func)@.values.len(),
            func@.insts.len() >= old(func)@.insts.len(),
            labels_fit(old(func)@, net.labels),
            forall|j: int| 0 <= j < nodes@.len() ==> net.is_interior(#[trigger] nodes@[j]),
            slh_nodes(old(func)@, old(ctx)@, net, nodes@, allow, 0) == slh_nodes(
                func@,
                ctx@,
                net,
                nodes@,
                allow,
                k as int,
            ),
        decreases nodes@.len() - k,
    {
        let node = nodes[k];
        proof {
            assert(net.is_interior(nodes@[k as int]));
            graph.lemma_network_wf();
            lemma_interior_labelled(net, node);
        }
        let bnode = graph.bladenode(node).unwrap();
        match ctx.do_slh_on(func, bnode) {
            Ok(()) => {},
            Err(e) => {
                return Err(e);
            },
        }
        k = k + 1;
    }
    Ok(())
}

/// Mitigates at one edge of the cut.
fn mitigate(
    func: &mut Function,
    ctx: &mut SLHContext,
    graph: &BladeGraph,
    cut_edge: usize,
    blade_setting: Blade,
) -> (r: Result<(), BladeError>)
    requires
        old(func).wf(),
        graph.wf(),
        labels_fit(old(func)@, graph@.labels),
        cut_edge < graph@.edges.len(),
    ensures
        final(func).wf(),
        final(func)@.values.len() >= old(func)@.values.len(),
        final(func)@.insts.len() >= old(func)@.insts.len(),
        final(ctx).allows_fake() == old(ctx).allows_fake(),
        match r {
            Ok(()) => mitigate_edge(
                old(func)@,
                old(ctx)@,
                graph@,
                graph@.edges[cut_edge as int],
                blade_setting,
                old(ctx).allows_fake(),
            ) == Ok::<(FunctionView, Set<BladeNode>), BladeError>((final(func)@, final(ctx)@)),
            Err(e) => mitigate_edge(
                old(func)@,
                old(ctx)@,
                graph@,
                graph@.edges[cut_edge as int],
                blade_setting,
                old(ctx).allows_fake(),
            ) == Err::<(FunctionView, Set<BladeNode>), BladeError>(e),
        },
{
    let ghost net = graph@;
    let (edge_src, edge_snk) = graph.edge_ends(cut_edge);
    proof {
        graph.lemma_network_wf();
        if edge_src != SOURCE_NODE {
            lemma_interior_labelled(net, edge_src);
        }
        if edge_snk != SINK_NODE {
            lemma_interior_labelled(net, edge_snk);
        }
    }
    match blade_setting {
        Blade::Lfence | Blade::LfencePerBlock => {
            if edge_src == SOURCE_NODE {
                // source -> n: fence after n
                insert_fence_after(func, graph.bladenode(edge_snk).unwrap(), blade_setting)
            } else if edge_snk == SINK_NODE {
                // n -> sink: fence before (the definition of) n
                insert_fence_before(func, graph.bladenode(edge_src).unwrap(), blade_setting)
            } else {
                // n -> m: fence before m
                insert_fence_before(func, graph.bladenode(edge_snk).unwrap(), blade_setting)
            }
        },
        Blade::Slh => {
            if edge_src == SOURCE_NODE {
                // source -> n: harden the instruction that produces n
                ctx.do_slh_on(func, graph.bladenode(edge_snk).unwrap())
            } else {
                // n -> m or n -> sink: n cannot be hardened itself, so
                // every source that leads to n is
                let sources = graph.ancestors_of(edge_src);
                proof {
                    assert forall|k: int| 0 <= k < sources@.len() implies net.is_interior(
                        #[trigger] sources@[k],
                    ) by {
                        let s = sources@[k];
                        assert(sources@.contains(s));
                        lemma_ancestors_exact(net, edge_src, net.labels.len() as int, s);
                        let e = choose|e: int| 0 <= e < net.edges.len() && net.edges[e] == (SOURCE_NODE, s);
                        assert(net.arc_wf(net.edges[e]));
                    }
                }
                slh_all(ctx, func, graph, &sources)
            }
        },
        Blade::Off => Err(BladeError::UnexpectedSetting),
    }
}

/// Protects `func`, whose control-flow graph is `cfg`, as `blade_setting`
/// asks: under `Off` nothing happens; else the minimum cut of the flow
/// network is found and a fence or a pointer mask placed for each of its
/// edges.
pub fn do_blade(func: &mut Function, cfg: &ControlFlowGraph, blade_setting: Blade) -> (r: Result<(), BladeError>)
    requires
        old(func).wf(),
        cfg.fits(old(func)@),
    ensures
        final(func).wf(),
        match r {
            Ok(()) => blade(old(func)@, cfg@, blade_setting) == Ok::<FunctionView, BladeError>(final(func)@),
            Err(e) => blade(old(func)@, cfg@, blade_setting) == Err::<FunctionView, BladeError>(e),
        },
{
    if blade_setting == Blade::Off {
        return Ok(());
    }
    let ghost f = func@;
    let blade_graph = match build_blade_graph_for_func(func, cfg, true) {
        Ok(graph) => graph,
        Err(e) => {
            return Err(e);
        },
    };
    let ghost net = blade_graph@;
    let cut_edges = match blade_graph.min_cut() {
        Ok(cut) => cut,
        Err(e) => {
            return Err(e);
        },
    };
    proof {
        lemma_flow_network_fits(f, cfg@, true);
        blade_graph.lemma_network_wf();
    }
    let ghost side = side_set(pushrelabel_unit(net.labels.len(), net.edges, SOURCE_NODE, SINK_NODE).1);

    // insert the fences or harden the loads
    let mut slh_ctx = SLHContext::new();
    let mut k: usize = 0;
    while k < cut_edges.len()
        invariant
            func.wf(),
            blade_graph.wf(),
            net == blade_graph@,
            net.wf(),
            f == old(func)@,
            k <= cut_edges@.len(),
            blade_setting != Blade::Off,
            flow_network(f, cfg@, true) == Ok::<Network, BladeError>(net),
            solved_cut(net) == Ok::<Seq<usize>, BladeError>(cut_edges@),
            cut_edges@ == crate::cut::crossing(net.edges, side, net.edges.len() as int),
            slh_ctx.allows_fake() == ALLOW_FAKE_SLH_BOUNDS,
            labels_fit(f, net.labels),
            func@.values.len() >= f.values.len(),
            func@.insts.len() >= f.insts.len(),
            mitigate_cut(f, Set::empty(), net, cut_edges@, blade_setting, ALLOW_FAKE_SLH_BOUNDS, 0)
                == mitigate_cut(
                func@,
                slh_ctx@,
                net,
                cut_edges@,
                blade_setting,
                ALLOW_FAKE_SLH_BOUNDS,
                k as int,
            ),
        decreases cut_edges@.len() - k,
    {
        let cut_edge = cut_edges[k];
        proof {
            assert(cut_edges@.contains(cut_edges@[k as int]));
            lemma_crossing_exact(net.edges, side, net.edges.len() as int, cut_edge as int);
        }
        match mitigate(func, &mut slh_ctx, &blade_graph, cut_edge, blade_setting) {
            Ok(()) => {},
            Err(e) => {
                return Err(e);
            },
        }
        k = k + 1;
    }
    Ok(())
}

/// The pass is a function of the function, its control-flow graph and the
/// setting: two runs on the same three leave the same function, the fence
/// markers included. This rests on the flow solver's answer being a
/// function of the network.
pub proof fn lemma_blade_deterministic(
    f: FunctionView,
    cfg: Seq<Seq<BlockPredecessor>>,
    setting: Blade,
    first: FunctionView,
    second: FunctionView,
)
    requires
        blade(f, cfg, setting) == Ok::<FunctionView, BladeError>(first),
        blade(f, cfg, setting) == Ok::<FunctionView, BladeError>(second),
    ensures
        first.pre_lfence == second.pre_lfence,
        first.post_lfence == second.post_lfence,
        first == second,
{
}

/// Under `Off` the pass leaves every function as it is.
pub proof fn lemma_blade_off(f: FunctionView, cfg: Seq<Seq<BlockPredecessor>>)
    ensures
        blade(f, cfg, Blade::Off) == Ok::<FunctionView, BladeError>(f),
{
}

} // verus!
