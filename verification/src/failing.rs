//! Which failure a graph's construction ends with.

use crate::bytes::texts;
use crate::edging::{
    deferred_names, edge_names, edge_nodes, only_a_name, searched_node, settled_inputs, EdgeNodes,
};
use crate::graph::{DeferredModel, EdgeDeclared, GraphModel, Refusal};
use crate::sink::{SinkEdge, SinkModel, SinkPool, SinkRule};
use vstd::prelude::*;

verus! {

/// Whether a failure that was kept before is kept, and one that came up is kept
/// where none was: all but a rule nothing declared, which ends the declaration
/// alone.
pub open spec fn keeps_the_first(
    before: SinkModel,
    after: SinkModel,
    failed: Option<Refusal>,
) -> bool {
    &&& before.failure is Some ==> after.failure == before.failure
    &&& before.failure is None && failed is None ==> after.failure is None
    &&& before.failure is None && failed is Some ==> (failed->0 is UndeclaredRule || after.failure
        == failed)
}

/// How a step of a declaration that gives something went.
spec fn failed_of<T>(result: Result<T, Refusal>) -> Option<Refusal> {
    match result {
        Ok(_) => None,
        Err(refusal) => Some(refusal),
    }
}

/// A step that keeps the first failure, and says so where it fails.
spec fn keeps<T>(before: SinkModel, after: SinkModel, result: Result<T, Refusal>) -> bool {
    &&& keeps_the_first(before, after, failed_of(result))
    &&& result matches Err(refusal) ==> !(refusal is UndeclaredRule)
}

proof fn nodes_keep(sink: SinkModel, names: Seq<Seq<u8>>)
    ensures
        keeps(sink, sink.with_nodes(names).0, sink.with_nodes(names).1),
    decreases names.len(),
{
    if names.len() > 0 {
        nodes_keep(sink, names.drop_last());
    }
}

proof fn observed_nodes_keep(sink: SinkModel, names: Seq<Seq<u8>>)
    ensures
        keeps(sink, sink.with_observed_nodes(names).0, sink.with_observed_nodes(names).1),
    decreases names.len(),
{
    if names.len() > 0 {
        observed_nodes_keep(sink, names.drop_last());
    }
}

proof fn deferral_keeps(sink: SinkModel, edge: SinkEdge)
    ensures
        keeps(sink, sink.with_deferred(edge).0, sink.with_deferred(edge).1),
{
    let names = texts(edge.deferred_freshness_outputs@);
    observed_nodes_keep(sink, names);
    nodes_keep(sink.with_observed_nodes(names).0, deferred_names(edge));
}

proof fn releasing_keeps(sink: SinkModel, nodes: Seq<usize>)
    ensures
        sink.with_mentions_released(nodes).failure == sink.failure,
    decreases nodes.len(),
{
    if nodes.len() > 0 {
        releasing_keeps(sink, nodes.drop_last());
    }
}

proof fn generating_keeps(sink: SinkModel, edge: SinkEdge, nodes: Seq<usize>)
    ensures
        sink.with_generated(edge, nodes).failure == sink.failure,
    decreases nodes.len(),
{
    if nodes.len() > 0 {
        generating_keeps(sink, edge, nodes.drop_last());
    }
}

proof fn building_keeps(
    sink: SinkModel,
    edge: SinkEdge,
    rule: usize,
    held: EdgeNodes,
    published: usize,
    deferred: Option<DeferredModel>,
    bindings: Seq<(usize, Seq<u8>)>,
)
    requires
        sink.graph.with_new_edge(
            sink.edge_declared(edge, rule, held, published, bindings),
        ).1 matches Err(refusal) ==> !(refusal is UndeclaredRule),
    ensures
        ({
            let (after, failed) = sink.with_built(
                edge,
                rule,
                held,
                published,
                deferred,
                bindings,
            );
            keeps_the_first(sink, after, failed)
        }),
{
    reveal(SinkModel::with_built);
    let (graph, built) = sink.graph.with_new_edge(
        sink.edge_declared(edge, rule, held, published, bindings),
    );
    let added = SinkModel { graph, ..sink };
    if let Ok(place) = built {
        let told = added.with_told(edge, held, place);
        assert(told.failure == sink.failure) by {
            reveal(SinkModel::with_told);
        }
        let target = searched_node(edge, held.output, published);
        let (searched, failed) = told.with_searched(edge, target, place);
        assert(keeps_the_first(told, searched, failed)) by {
            reveal(SinkModel::with_searched);
            observed_nodes_keep(told, settled_inputs(edge.settled_names@));
        }
        assert(searched.with_kept(edge, held, published, deferred, place).failure
            == searched.failure) by {
            reveal(SinkModel::with_kept);
            assert forall|other: SinkModel| #[trigger]
                other.with_generated(
                    edge,
                    seq![published] + held.implicit_outputs,
                ).failure == other.failure by {
                generating_keeps(other, edge, seq![published] + held.implicit_outputs);
            }
        }
    }
}

proof fn a_new_edge_names_its_rule(graph: GraphModel, declared: EdgeDeclared)
    ensures
        graph.with_new_edge(declared).1 matches Err(refusal) ==> !(refusal is UndeclaredRule),
{
}

/// Declaring an edge keeps the first failure of the construction.
pub proof fn an_edge_keeps_the_first_failure(sink: SinkModel, edge: SinkEdge)
    ensures
        ({
            let (after, failed) = sink.with_declared_edge(edge);
            keeps_the_first(sink, after, failed)
        }),
{
    let (first, nodes) = sink.with_nodes(edge_names(edge));
    nodes_keep(sink, edge_names(edge));
    if let Ok(list) = nodes {
        let held = edge_nodes(edge, list);
        let (second, deferred) = first.with_deferred(edge);
        deferral_keeps(first, edge);
        if let Ok(action) = deferred {
            let (third, published) = second.with_published(edge, held.output);
            let outputs = seq![published] + held.implicit_outputs;
            releasing_keeps(third, outputs);
            let released = if only_a_name(edge) {
                third
            } else {
                third.with_mentions_released(outputs)
            };
            let bindings = third.edge_bindings(edge);
            match edge.rule {
                Some(id) => {
                    let without = SinkModel { rules: released.rules.remove(id), ..released };
                    let rule = released.rules[id];
                    a_new_edge_names_its_rule(
                        without.graph,
                        without.edge_declared(edge, rule, held, published, bindings),
                    );
                    building_keeps(without, edge, rule, held, published, action, bindings);
                },
                None => {
                    a_new_edge_names_its_rule(
                        released.graph,
                        released.edge_declared(edge, 0, held, published, bindings),
                    );
                    building_keeps(released, edge, 0, held, published, action, bindings);
                },
            }
        }
    }
}

/// Naming default targets keeps the first failure of the construction.
pub proof fn targets_keep_the_first_failure(sink: SinkModel, targets: Seq<Seq<u8>>)
    ensures
        ({
            let (after, failed) = sink.with_targets(targets);
            keeps_the_first(sink, after, failed)
        }),
    decreases targets.len(),
{
    if targets.len() > 0 {
        targets_keep_the_first_failure(sink, targets.drop_last());
    }
}

proof fn preceding_keeps(sink: SinkModel, rule: SinkRule, count: int)
    ensures
        keeps(sink, sink.with_preceding(rule, count).0, sink.with_preceding(rule, count).1),
    decreases count,
{
    if count > 0 {
        preceding_keeps(sink, rule, count - 1);
    }
}

/// Declaring a rule, a recursive one too, keeps the first failure of the
/// construction.
pub proof fn a_rule_keeps_the_first_failure(sink: SinkModel, rule: SinkRule)
    ensures
        ({
            let (after, failed) = sink.with_executor_rule(rule);
            keeps_the_first(sink, after, failed)
        }),
        ({
            let (after, places) = sink.with_recursive(rule);
            keeps_the_first(
                sink,
                after,
                match places {
                    Ok(_) => None,
                    Err(refusal) => Some(refusal),
                },
            )
        }),
{
    let (first, residual) = sink.with_residual(rule);
    preceding_keeps(first, rule, rule.subninjas@.len() as int);
}

proof fn pools_keep(sink: SinkModel, pools: Seq<SinkPool>, count: int)
    ensures
        ({
            let (after, failed) = sink.with_sink_pools(pools, count);
            &&& keeps_the_first(sink, after, failed)
            &&& failed matches Some(refusal) ==> !(refusal is UndeclaredRule)
        }),
    decreases count,
{
    if count > 0 {
        pools_keep(sink, pools, count - 1);
    }
}

/// Declaring pools keeps the first failure of the construction.
pub proof fn pools_keep_the_first_failure(sink: SinkModel, pools: Seq<SinkPool>)
    ensures
        ({
            let (after, failed) = sink.with_start(pools);
            keeps_the_first(sink, after, failed)
        }),
{
    pools_keep(sink, pools, pools.len() as int);
}

} // verus!
