//! What a unit and the edges that stand in for its recipes are in the one graph.

use crate::bytes::text;
use crate::composing::{bounded, made_known, made_with_subninjas};
use crate::graph::{pool_at, shared_at, with_missing, EdgeModel, GraphModel, NodeModel};
use crate::paths::{canonical, joined_path};
use crate::sink::{fresh_unit, Pending, SinkModel};
use crate::waiting::both_lists;
use vstd::prelude::*;

verus! {

/// A unit begins with nothing of its own but where it stands: its scope, its
/// place in the tree, the directory its commands run in and what is made around
/// it.
pub proof fn a_unit_begins_bare(
    scope: usize,
    path_prefix: Seq<u8>,
    command_directory: Seq<u8>,
    root: bool,
    enclosing: Map<Seq<u8>, usize>,
)
    ensures
        ({
            let unit = fresh_unit(scope, path_prefix, command_directory, root, enclosing);
            &&& unit.scope == scope
            &&& unit.path_prefix == path_prefix
            &&& unit.command_directory == command_directory
            &&& unit.root == root
            &&& unit.enclosing == enclosing
            &&& unit.serial_pool is None && unit.job_pool is None
            &&& unit.recipe_environment.len() == 0
            &&& unit.unreadable is None
            &&& unit.targets.len() == 0 && unit.subninjas.len() == 0 && unit.edges.len() == 0
            &&& forall|path: Seq<u8>| !#[trigger] unit.generated.dom().contains(path)
        }),
{
}

/// A name that stands for nothing yet is given a node under the path it is found
/// at from where its unit was read: shared by every name of that path in the root
/// unit, and in a child a node of its own, unless an enclosing unit makes the
/// path.
pub proof fn a_name_is_found_from_its_unit(sink: SinkModel, name: Seq<u8>)
    requires
        !sink.interned.dom().contains(name),
        joined_path(sink.unit.path_prefix, name).len() > 0,
        sink.graph.nodes.len() < usize::MAX,
    ensures
        ({
            let (after, node) = sink.with_node(name);
            let path = canonical(joined_path(sink.unit.path_prefix, name));
            &&& node is Ok
            &&& after.interned == sink.interned.insert(name, node->Ok_0)
            &&& !sink.unit.root && !sink.unit.enclosing.dom().contains(path) ==> node->Ok_0
                == sink.graph.nodes.len() && after.graph.nodes[node->Ok_0 as int].path == path
                && !after.graph.nodes[node->Ok_0 as int].shared
            &&& !sink.unit.root && sink.unit.enclosing.dom().contains(path) ==> node->Ok_0
                == sink.unit.enclosing[path]
            &&& sink.unit.root ==> after.graph.nodes[node->Ok_0 as int].path == path
                && node->Ok_0 < after.graph.nodes.len()
        }),
{
    let path = joined_path(sink.unit.path_prefix, name);
    the_shared_node_has_the_path(sink.graph.nodes, canonical(path), 0);
}

proof fn the_shared_node_has_the_path(nodes: Seq<NodeModel>, path: Seq<u8>, at: int)
    requires
        0 <= at <= nodes.len(),
    ensures
        at <= shared_at(nodes, path, at) <= nodes.len(),
        shared_at(nodes, path, at) < nodes.len() ==> nodes[shared_at(nodes, path, at)].path == path
            && nodes[shared_at(nodes, path, at)].shared,
    decreases nodes.len() - at,
{
    if at < nodes.len() && !(nodes[at].shared && nodes[at].path == path) {
        the_shared_node_has_the_path(nodes, path, at + 1);
    }
}

/// While its freshness is decided a recursive recipe waits for and makes what its
/// edge said, under a rule of its own that is never meant to run.
pub proof fn a_probed_recipe_stands_as_it_was_said(
    sink: SinkModel,
    pending: Pending,
    probe: usize,
)
    requires
        sink.graph.edges.len() < usize::MAX,
    ensures
        ({
            let (after, made) = sink.with_probe(pending, probe);
            let count = sink.graph.edges.len() as int;
            made is Ok ==> {
                let edge = after.graph.edges[count];
                &&& made->Ok_0 == count
                &&& after.graph.edges.len() == count + 1
                &&& edge.declared.rule == probe
                &&& edge.declared.scope == pending.scope
                &&& edge.declared.explicit_outputs == pending.explicit_outputs
                &&& edge.declared.implicit_outputs == pending.implicit_outputs
                &&& edge.declared.explicit_inputs == pending.inputs
                &&& edge.declared.order_only_inputs == pending.order_only_inputs
                &&& edge.declared.implicit_inputs.len() == 0
                &&& edge.declared.validations.len() == 0
                &&& edge.declared.always_dirty == pending.always_dirty
                &&& edge.declared.intermediate == pending.intermediate
                &&& edge.declared.outputs_low_resolution == pending.low_resolution
                &&& edge.declared.bindings == pending.bindings
                &&& !edge.declared.has_touchable_recipe && !edge.declared.outputs_unaliased
                &&& edge.outputs_reobserved
                &&& edge.withdrawable == pending.withdrawable
                &&& edge.delete_on_error == pending.delete_on_error
                &&& edge.peers == pending.peer_outputs
                &&& edge.forgiven == with_missing(Seq::empty(), pending.forgiven_order_inputs)
                &&& forall|other: int|
                    0 <= other < count ==> #[trigger] after.graph.edges[other]
                        == sink.graph.edges[other]
            }
        }),
{
    let (graph, built) = sink.graph.with_new_edge(sink.probe_declared(pending, probe));
    if let Ok(place) = built {
        let told = graph.with_edge(
            place,
            EdgeModel {
                outputs_reobserved: true,
                withdrawable: pending.withdrawable,
                delete_on_error: pending.delete_on_error,
                peers: pending.peer_outputs,
                ..graph.edges[place as int]
            },
        );
        let forgiven = told.with_forgiven(place, pending.forgiven_order_inputs);
        disposing_keeps_the_edges(forgiven, pending.disposable_outputs);
    }
}

proof fn disposing_keeps_the_edges(graph: GraphModel, nodes: Seq<usize>)
    ensures
        graph.with_disposable(nodes).edges == graph.edges,
    decreases nodes.len(),
{
    if nodes.len() > 0 {
        disposing_keeps_the_edges(graph, nodes.drop_last());
    }
}

/// The lines before a recipe's invocation are an edge of their own: it makes a
/// stand-in no file has, runs whenever it is reached, and waits for everything the
/// recipe does, to be newer than or only to be there first, and for nothing else.
pub proof fn lines_before_wait_as_their_recipe_does(
    sink: SinkModel,
    pending: Pending,
    rule: usize,
)
    requires
        sink.graph.edges.len() < usize::MAX,
        sink.graph.nodes.len() < usize::MAX,
    ensures
        ({
            let (after, made) = sink.with_stage(pending, rule);
            let count = sink.graph.edges.len() as int;
            made is Ok ==> {
                let edge = after.graph.edges[count].declared;
                &&& after.graph.edges.len() == count + 1
                &&& made->Ok_0 == sink.graph.nodes.len()
                &&& edge.rule == rule
                &&& edge.scope == pending.scope
                &&& edge.explicit_outputs == seq![made->Ok_0]
                &&& edge.implicit_outputs.len() == 0 && edge.explicit_inputs.len() == 0
                    && edge.implicit_inputs.len() == 0
                &&& edge.always_dirty
                &&& edge.bindings.len() == 0
                &&& forall|node: usize| #[trigger]
                    edge.order_only_inputs.contains(node) <==> pending.inputs.contains(node)
                        || pending.order_only_inputs.contains(node)
                &&& forall|other: int|
                    0 <= other < count ==> #[trigger] after.graph.edges[other]
                        == sink.graph.edges[other]
            }
        }),
{
    let (after, made) = sink.with_stage(pending, rule);
    if made is Ok {
        assert forall|node: usize|
            #[trigger] after.graph.edges[sink.graph.edges.len() as int].declared.order_only_inputs.contains(
            node) <==> pending.inputs.contains(node) || pending.order_only_inputs.contains(
            node,
        ) by {
            both_lists(pending.inputs, pending.order_only_inputs, node);
        }
    }
}

/// A bound on what no group claims holds every command in no pool to one pool of
/// that depth. What runs no command, and what is in a pool already, is left as it
/// is; so is everything where there is no bound.
pub proof fn what_no_group_claims_is_bounded(graph: GraphModel, ungrouped: Option<usize>, edge: int)
    requires
        0 <= edge < graph.edges.len(),
        graph.pools.len() < usize::MAX,
    ensures
        ungrouped is None ==> bounded(graph, ungrouped) == graph,
        ungrouped matches Some(depth) ==> pool_at(graph.pools, text("make_jobs_run"), 0)
            >= graph.pools.len() ==> {
            let after = bounded(graph, ungrouped);
            let pool = graph.pools.len() as int;
            &&& after.pools.len() == pool + 1
            &&& after.pools[pool].depth == Some(depth)
            &&& graph.edges[edge].pool is None && graph.edges[edge].declared.rule != 0
                ==> after.edges[edge].pool == Some(pool as usize)
            &&& graph.edges[edge].pool is Some || graph.edges[edge].declared.rule == 0
                ==> after.edges[edge] == graph.edges[edge]
            &&& after.edges[edge].declared == graph.edges[edge].declared
            &&& after.nodes == graph.nodes && after.defaults == graph.defaults
        },
{
}

/// What a unit makes stays known, and so is what a recursive recipe makes that
/// has a date to go by, by the path of its file.
pub proof fn what_a_unit_makes_is_known(
    made: Map<Seq<u8>, usize>,
    graph: GraphModel,
    held: Seq<Pending>,
    path: Seq<u8>,
)
    ensures
        made_with_subninjas(made, graph, held).dom().contains(path) <==> made.dom().contains(path)
            || exists|i: int, node: usize|
            #![trigger held[i].explicit_outputs.contains(node)]
            #![trigger held[i].implicit_outputs.contains(node)]
            0 <= i < held.len() && !held[i].always_dirty && (held[i].explicit_outputs.contains(node)
                || held[i].implicit_outputs.contains(node)) && graph.nodes[node as int].path == path,
    decreases held.len(),
{
    if held.len() > 0 {
        let fewer = held.drop_last();
        let last = held.last();
        let before = made_with_subninjas(made, graph, fewer);
        what_a_unit_makes_is_known(made, graph, fewer, path);
        nodes_are_known(before, graph, last.outputs(), path);
        let known = made_with_subninjas(made, graph, held);
        if exists|i: int, node: usize|
            #![trigger fewer[i].explicit_outputs.contains(node)]
            #![trigger fewer[i].implicit_outputs.contains(node)]
            0 <= i < fewer.len() && !fewer[i].always_dirty && (fewer[i].explicit_outputs.contains(
                node,
            ) || fewer[i].implicit_outputs.contains(node)) && graph.nodes[node as int].path
                == path {
            let (i, node) = choose|i: int, node: usize|
                #![trigger fewer[i].explicit_outputs.contains(node)]
                #![trigger fewer[i].implicit_outputs.contains(node)]
                0 <= i < fewer.len() && !fewer[i].always_dirty && (
                fewer[i].explicit_outputs.contains(node) || fewer[i].implicit_outputs.contains(
                    node,
                )) && graph.nodes[node as int].path == path;
            assert(held[i] == fewer[i]);
            assert(held[i].explicit_outputs.contains(node) || held[i].implicit_outputs.contains(
                node,
            ));
        }
        if exists|i: int, node: usize|
            #![trigger held[i].explicit_outputs.contains(node)]
            #![trigger held[i].implicit_outputs.contains(node)]
            0 <= i < held.len() && !held[i].always_dirty && (held[i].explicit_outputs.contains(node)
                || held[i].implicit_outputs.contains(node)) && graph.nodes[node as int].path
                == path {
            let (i, node) = choose|i: int, node: usize|
                #![trigger held[i].explicit_outputs.contains(node)]
                #![trigger held[i].implicit_outputs.contains(node)]
                0 <= i < held.len() && !held[i].always_dirty && (held[i].explicit_outputs.contains(
                    node,
                ) || held[i].implicit_outputs.contains(node)) && graph.nodes[node as int].path
                    == path;
            both_lists(held[i].explicit_outputs, held[i].implicit_outputs, node);
            if i < fewer.len() {
                assert(fewer[i] == held[i]);
                assert(fewer[i].explicit_outputs.contains(node)
                    || fewer[i].implicit_outputs.contains(node));
            } else {
                assert(last.outputs().contains(node));
            }
        }
        if !last.always_dirty && exists|node: usize| #[trigger]
            last.outputs().contains(node) && graph.nodes[node as int].path == path {
            let node = choose|node: usize| #[trigger]
                last.outputs().contains(node) && graph.nodes[node as int].path == path;
            both_lists(last.explicit_outputs, last.implicit_outputs, node);
            assert(held[held.len() - 1].explicit_outputs.contains(node)
                || held[held.len() - 1].implicit_outputs.contains(node));
        }
    }
}

proof fn nodes_are_known(
    made: Map<Seq<u8>, usize>,
    graph: GraphModel,
    nodes: Seq<usize>,
    path: Seq<u8>,
)
    ensures
        made_known(made, graph, nodes).dom().contains(path) <==> made.dom().contains(path)
            || exists|node: usize| #[trigger]
            nodes.contains(node) && graph.nodes[node as int].path == path,
    decreases nodes.len(),
{
    if nodes.len() > 0 {
        let fewer = nodes.drop_last();
        nodes_are_known(made, graph, fewer, path);
        if exists|node: usize| #[trigger]
            fewer.contains(node) && graph.nodes[node as int].path == path {
            let node = choose|node: usize| #[trigger]
                fewer.contains(node) && graph.nodes[node as int].path == path;
            let at = choose|at: int| 0 <= at < fewer.len() && fewer[at] == node;
            assert(nodes[at] == node);
            assert(nodes.contains(node));
        }
        if exists|node: usize| #[trigger]
            nodes.contains(node) && graph.nodes[node as int].path == path {
            let node = choose|node: usize| #[trigger]
                nodes.contains(node) && graph.nodes[node as int].path == path;
            let at = choose|at: int| 0 <= at < nodes.len() && nodes[at] == node;
            if at < fewer.len() {
                assert(fewer[at] == node);
                assert(fewer.contains(node));
            }
        }
        assert(nodes[nodes.len() - 1] == nodes.last());
        assert(nodes.contains(nodes.last()));
    }
}

} // verus!
