//! What a graph says of an edge, against what the Makefile said of it.

use crate::bytes::texts;
use crate::edges::observing_keeps_the_edges;
use crate::edging::{
    deferred_names, deferred_of, edge_names, edge_nodes, only_a_name, searched_node,
    settled_inputs, EdgeNodes,
};
use crate::graph::{with_missing, DeferredModel, EdgeModel};
use crate::sink::{values_below, Pending, SinkEdge, SinkModel};
use vstd::prelude::*;

verus! {

/// Whether every name that stood for a node stands for it still.
pub open spec fn names_stay(before: SinkModel, after: SinkModel) -> bool {
    forall|name: Seq<u8>| #[trigger]
        before.interned.dom().contains(name) ==> after.interned.dom().contains(name)
            && after.interned[name] == before.interned[name]
}

/// Whether nodes are, one for one, what names stand for.
pub open spec fn stand_for(sink: SinkModel, names: Seq<Vec<u8>>, nodes: Seq<usize>) -> bool {
    &&& names.len() == nodes.len()
    &&& forall|i: int|
        0 <= i < names.len() ==> sink.interned.dom().contains((#[trigger] names[i])@)
            && sink.interned[names[i]@] == nodes[i]
}

proof fn a_name_is_interned(sink: SinkModel, name: Seq<u8>)
    ensures
        ({
            let (after, node) = sink.with_node(name);
            &&& names_stay(sink, after)
            &&& node matches Ok(held) ==> after.interned.dom().contains(name)
                && after.interned[name] == held
            &&& after.graph.edges == sink.graph.edges
            &&& after.unit == sink.unit
            &&& after.bindings == sink.bindings
            &&& after.rules == sink.rules
            &&& after.deferred_rules == sink.deferred_rules
            &&& after.subninja_rules == sink.subninja_rules
            &&& after.mentions == sink.mentions
            &&& after.observed_members == sink.observed_members
        }),
{
}

proof fn names_are_interned(sink: SinkModel, names: Seq<Seq<u8>>)
    ensures
        ({
            let (after, nodes) = sink.with_nodes(names);
            &&& names_stay(sink, after)
            &&& nodes matches Ok(list) ==> list.len() == names.len() && forall|i: int|
                0 <= i < names.len() ==> after.interned.dom().contains(#[trigger] names[i])
                    && after.interned[names[i]] == list[i]
            &&& after.graph.edges == sink.graph.edges
            &&& after.unit == sink.unit
            &&& after.bindings == sink.bindings
            &&& after.rules == sink.rules
            &&& after.deferred_rules == sink.deferred_rules
            &&& after.subninja_rules == sink.subninja_rules
            &&& after.mentions == sink.mentions
            &&& after.observed_members == sink.observed_members
        }),
    decreases names.len(),
{
    if names.len() > 0 {
        let (before, nodes) = sink.with_nodes(names.drop_last());
        names_are_interned(sink, names.drop_last());
        if let Ok(list) = nodes {
            a_name_is_interned(before, names.last());
            let (after, all) = sink.with_nodes(names);
            if let Ok(whole) = all {
                assert forall|i: int| 0 <= i < names.len() implies after.interned.dom().contains(
                    #[trigger] names[i],
                ) && after.interned[names[i]] == whole[i] by {
                    if i < names.len() - 1 {
                        assert(names.drop_last()[i] == names[i]);
                        assert(before.interned.dom().contains(names[i]));
                    }
                }
            }
        }
    }
}

proof fn observed_names_stay(sink: SinkModel, names: Seq<Seq<u8>>)
    ensures
        ({
            let (after, nodes) = sink.with_observed_nodes(names);
            &&& names_stay(sink, after)
            &&& after.bindings == sink.bindings
            &&& after.observed_members == sink.observed_members
            &&& nodes matches Ok(list) ==> list.len() == names.len() && forall|i: int|
                0 <= i < names.len() ==> list[i] == (if sink.observed_members.dom().contains(
                    #[trigger] names[i],
                ) {
                    sink.observed_members[names[i]]
                } else {
                    after.interned[names[i]]
                }) && (sink.observed_members.dom().contains(names[i])
                    || after.interned.dom().contains(names[i]))
        }),
    decreases names.len(),
{
    if names.len() > 0 {
        let (before, nodes) = sink.with_observed_nodes(names.drop_last());
        observed_names_stay(sink, names.drop_last());
        if let Ok(list) = nodes {
            a_name_is_interned(before, names.last());
            let (after, all) = sink.with_observed_nodes(names);
            if let Ok(whole) = all {
                assert forall|i: int| 0 <= i < names.len() implies whole[i] == (
                if sink.observed_members.dom().contains(#[trigger] names[i]) {
                    sink.observed_members[names[i]]
                } else {
                    after.interned[names[i]]
                }) && (sink.observed_members.dom().contains(names[i])
                    || after.interned.dom().contains(names[i])) by {
                    if i < names.len() - 1 {
                        assert(names.drop_last()[i] == names[i]);
                        if !sink.observed_members.dom().contains(names[i]) {
                            assert(before.interned.dom().contains(names[i]));
                        }
                    }
                }
            }
        }
    }
}

/// Whether an edge of a graph runs a rule over nodes as it was told to.
pub open spec fn edge_holds(
    built: EdgeModel,
    edge: SinkEdge,
    rule: usize,
    held: EdgeNodes,
    published: usize,
    deferred: Option<DeferredModel>,
    bindings: Seq<(usize, Seq<u8>)>,
) -> bool {
    &&& built.declared.rule == rule
    &&& built.declared.explicit_outputs == seq![published]
    &&& built.declared.implicit_outputs == held.implicit_outputs
    &&& built.declared.explicit_inputs == held.inputs
    &&& built.declared.implicit_inputs.len() == 0
    &&& built.declared.order_only_inputs == held.order_only_inputs
    &&& built.declared.validations.len() == 0
    &&& built.declared.always_dirty == edge.always_dirty
    &&& built.declared.intermediate == edge.intermediate
    &&& built.declared.has_touchable_recipe == edge.has_touchable_recipe
    &&& built.declared.outputs_low_resolution == edge.low_resolution
    &&& built.declared.outputs_unaliased == (edge.rule is None)
    &&& built.declared.bindings == bindings
    &&& built.withdrawable == held.withdrawable
    &&& built.delete_on_error == edge.delete_on_error
    &&& built.peers == held.peers
    &&& built.forgiven == with_missing(Seq::empty(), held.forgiven)
    &&& built.deferred == deferred
    &&& built.completion_of == (if edge.completion_join {
        Some(held.output)
    } else {
        None
    })
    &&& built.outputs_reobserved
    &&& !built.begun
    &&& !built.retired
}

proof fn disposing_keeps_the_edges(graph: crate::graph::GraphModel, nodes: Seq<usize>)
    ensures
        graph.with_disposable(nodes).edges == graph.edges,
    decreases nodes.len(),
{
    if nodes.len() > 0 {
        disposing_keeps_the_edges(graph, nodes.drop_last());
    }
}

proof fn generating_keeps_the_graph(sink: SinkModel, edge: SinkEdge, nodes: Seq<usize>)
    ensures
        ({
            let after = sink.with_generated(edge, nodes);
            &&& after.graph == sink.graph
            &&& after.interned == sink.interned
            &&& after.unit.edges == sink.unit.edges
            &&& after.unit.subninjas == sink.unit.subninjas
        }),
    decreases nodes.len(),
{
    if nodes.len() > 0 {
        generating_keeps_the_graph(sink, edge, nodes.drop_last());
    }
}

proof fn releasing_keeps_the_names(sink: SinkModel, nodes: Seq<usize>)
    requires
        values_below(sink.mentions, sink.graph.edges.len()),
    ensures
        ({
            let after = sink.with_mentions_released(nodes);
            &&& after.interned == sink.interned
            &&& after.rules == sink.rules
            &&& after.unit == sink.unit
            &&& after.graph.edges.len() == sink.graph.edges.len()
            &&& values_below(after.mentions, after.graph.edges.len())
        }),
    decreases nodes.len(),
{
    if nodes.len() > 0 {
        releasing_keeps_the_names(sink, nodes.drop_last());
    }
}

/// What an edge is told once it is built is what it was declared with.
#[verifier::rlimit(60)]
proof fn a_built_edge_holds_what_it_was_told(
    sink: SinkModel,
    edge: SinkEdge,
    rule: usize,
    held: EdgeNodes,
    published: usize,
    deferred: Option<DeferredModel>,
    bindings: Seq<(usize, Seq<u8>)>,
)
    requires
        sink.graph.edges.len() < usize::MAX,
    ensures
        ({
            let (after, why) = sink.with_built(edge, rule, held, published, deferred, bindings);
            let place = sink.graph.edges.len() as int;
            why is None ==> {
                &&& names_stay(sink, after)
                &&& after.graph.edges.len() == place + 1
                &&& edge_holds(
                    after.graph.edges[place],
                    edge,
                    rule,
                    held,
                    published,
                    deferred,
                    bindings,
                )
                &&& forall|other: int|
                    0 <= other < place ==> #[trigger] after.graph.edges[other]
                        == sink.graph.edges[other]
                &&& after.unit.edges == sink.unit.edges.push(place as usize)
                &&& after.unit.subninjas == sink.unit.subninjas
            }
        }),
{
    reveal(SinkModel::with_built);
    let (graph, built) = sink.graph.with_new_edge(
        sink.edge_declared(edge, rule, held, published, bindings),
    );
    let added = SinkModel { graph, ..sink };
    if let Ok(place) = built {
        assert(place == sink.graph.edges.len());
        assert(added.graph.edges.drop_last() =~= sink.graph.edges);
        let told = added.with_told(edge, held, place);
        let target = searched_node(edge, held.output, published);
        let (searched, failed) = told.with_searched(edge, target, place);
        telling_keeps_the_declaration(added, edge, held, place);
        searching_keeps_the_declaration(told, edge, target, place);
        if failed is None {
            keeping_keeps_the_declaration(searched, edge, held, published, deferred, place);
        }
    }
}

proof fn telling_keeps_the_declaration(
    sink: SinkModel,
    edge: SinkEdge,
    held: EdgeNodes,
    place: usize,
)
    requires
        place < sink.graph.edges.len(),
    ensures
        ({
            let after = sink.with_told(edge, held, place);
            let before = sink.graph.edges[place as int];
            &&& after.graph.edges.len() == sink.graph.edges.len()
            &&& after.interned == sink.interned
            &&& after.unit == sink.unit
            &&& after.graph.edges[place as int] == (EdgeModel {
                outputs_reobserved: true,
                withdrawable: held.withdrawable,
                delete_on_error: edge.delete_on_error,
                peers: held.peers,
                forgiven: with_missing(before.forgiven, held.forgiven),
                ..before
            })
            &&& forall|other: int|
                0 <= other < sink.graph.edges.len() && other != place
                    ==> #[trigger] after.graph.edges[other] == sink.graph.edges[other]
        }),
{
    reveal(SinkModel::with_told);
    disposing_keeps_the_edges(sink.graph, held.disposable);
}

proof fn searching_keeps_the_declaration(
    sink: SinkModel,
    edge: SinkEdge,
    target: usize,
    place: usize,
)
    requires
        place < sink.graph.edges.len(),
    ensures
        ({
            let (after, why) = sink.with_searched(edge, target, place);
            &&& names_stay(sink, after)
            &&& after.unit == sink.unit
            &&& after.graph.edges.len() == sink.graph.edges.len()
            &&& why is None ==> after.graph.edges[place as int] == (EdgeModel {
                searched: after.graph.edges[place as int].searched,
                ..sink.graph.edges[place as int]
            })
            &&& forall|other: int|
                0 <= other < sink.graph.edges.len() && other != place
                    ==> #[trigger] after.graph.edges[other] == sink.graph.edges[other]
        }),
{
    reveal(SinkModel::with_searched);
    observing_keeps_the_edges(sink, settled_inputs(edge.settled_names@));
    observed_names_stay(sink, settled_inputs(edge.settled_names@));
}

proof fn keeping_keeps_the_declaration(
    sink: SinkModel,
    edge: SinkEdge,
    held: EdgeNodes,
    published: usize,
    deferred: Option<DeferredModel>,
    place: usize,
)
    requires
        place < sink.graph.edges.len(),
    ensures
        ({
            let after = sink.with_kept(edge, held, published, deferred, place);
            let before = sink.graph.edges[place as int];
            &&& after.interned == sink.interned
            &&& after.graph.edges.len() == sink.graph.edges.len()
            &&& after.unit.edges == sink.unit.edges.push(place)
            &&& after.unit.subninjas == sink.unit.subninjas
            &&& after.graph.edges[place as int] == (EdgeModel {
                deferred: if deferred is Some {
                    deferred
                } else {
                    before.deferred
                },
                completion_of: if edge.completion_join {
                    Some(held.output)
                } else {
                    before.completion_of
                },
                ..before
            })
            &&& forall|other: int|
                0 <= other < sink.graph.edges.len() && other != place
                    ==> #[trigger] after.graph.edges[other] == sink.graph.edges[other]
        }),
{
    reveal(SinkModel::with_kept);
    let first = match deferred {
        Some(action) => sink.graph.with_edge(
            place,
            EdgeModel { deferred: Some(action), ..sink.graph.edges[place as int] },
        ),
        None => sink.graph,
    };
    let second = if edge.completion_join {
        first.with_edge(
            place,
            EdgeModel { completion_of: Some(held.output), ..first.edges[place as int] },
        )
    } else {
        first
    };
    let third = SinkModel {
        graph: second,
        mentions: if only_a_name(edge) {
            sink.mentions.insert(published, place)
        } else {
            sink.mentions
        },
        ..sink
    };
    generating_keeps_the_graph(third, edge, seq![published] + held.implicit_outputs);
}

/// Whether freshness that is put off to other files is what an edge said of it.
pub open spec fn put_off_as_said(sink: SinkModel, edge: SinkEdge, held: DeferredModel) -> bool {
    &&& held.outputs.len() == edge.deferred_freshness_outputs@.len()
    &&& held.always_dirty_output == edge.deferred_freshness_always_dirty
    &&& held.dates_do_not_decide == edge.deferred_freshness_ignores_dates
    &&& held.heads_the_group == edge.deferred_freshness_heads_the_record
    &&& stand_for(sink, edge.deferred_always_new_inputs@, held.always_new_inputs)
    &&& stand_for(sink, edge.deferred_excluded_new_inputs@, held.excluded_new_inputs)
    &&& held.new_input_names.len() == edge.deferred_new_input_names@.len()
    &&& forall|i: int|
        0 <= i < edge.deferred_new_input_names@.len() ==> (#[trigger] held.new_input_names[i]).1
            == edge.deferred_new_input_names@[i].1@ && sink.interned.dom().contains(
            edge.deferred_new_input_names@[i].0@,
        ) && sink.interned[edge.deferred_new_input_names@[i].0@] == held.new_input_names[i].0
    &&& held.new_inputs_directories_variable == edge.deferred_new_input_directories@
    &&& held.new_inputs_filenames_variable == edge.deferred_new_input_filenames@
    &&& held.new_inputs_directory == sink.unit.path_prefix
}

proof fn what_is_put_off_is_as_said(sink: SinkModel, edge: SinkEdge)
    ensures
        ({
            let (after, deferred) = sink.with_deferred(edge);
            &&& names_stay(sink, after)
            &&& after.unit == sink.unit
            &&& after.bindings == sink.bindings
            &&& after.rules == sink.rules
            &&& after.subninja_rules == sink.subninja_rules
            &&& after.mentions == sink.mentions
            &&& after.graph.edges == sink.graph.edges
            &&& deferred matches Ok(None) ==> edge.deferred_freshness_outputs@.len() == 0
            &&& deferred matches Ok(Some(held)) ==> edge.deferred_freshness_outputs@.len() > 0
                && put_off_as_said(after, edge, held)
        }),
{
    let files = texts(edge.deferred_freshness_outputs@);
    let names = deferred_names(edge);
    observed_names_stay(sink, files);
    observing_keeps_the_edges(sink, files);
    let (first, outputs) = sink.with_observed_nodes(files);
    names_are_interned(first, names);
    let (second, nodes) = first.with_nodes(names);
    if outputs is Ok && nodes is Ok && (outputs->Ok_0).len() > 0 {
        let list = nodes->Ok_0;
        let held = deferred_of(edge, outputs->Ok_0, list, sink.unit.path_prefix);
        let always = edge.deferred_always_new_inputs@.len() as int;
        let excluded = always + edge.deferred_excluded_new_inputs@.len();
        assert forall|i: int| 0 <= i < always implies second.interned.dom().contains(
            (#[trigger] edge.deferred_always_new_inputs@[i])@,
        ) && second.interned[edge.deferred_always_new_inputs@[i]@] == held.always_new_inputs[i] by {
            assert(names[i] == edge.deferred_always_new_inputs@[i]@);
        }
        assert forall|i: int|
            0 <= i < edge.deferred_excluded_new_inputs@.len() implies second.interned.dom().contains(
            (#[trigger] edge.deferred_excluded_new_inputs@[i])@,
        ) && second.interned[edge.deferred_excluded_new_inputs@[i]@]
            == held.excluded_new_inputs[i] by {
            assert(names[always + i] == edge.deferred_excluded_new_inputs@[i]@);
        }
        assert forall|i: int| 0 <= i < edge.deferred_new_input_names@.len() implies (
        #[trigger] held.new_input_names[i]).1 == edge.deferred_new_input_names@[i].1@
            && second.interned.dom().contains(edge.deferred_new_input_names@[i].0@)
            && second.interned[edge.deferred_new_input_names@[i].0@]
            == held.new_input_names[i].0 by {
            assert(names[excluded + i] == edge.deferred_new_input_names@[i].0@);
        }
        assert(put_off_as_said(second, edge, held));
    }
}

/// Whether the nodes of an edge are what its names stand for, list by list.
pub open spec fn resolved_as_said(sink: SinkModel, edge: SinkEdge, held: EdgeNodes) -> bool {
    &&& sink.interned.dom().contains(edge.output@)
    &&& sink.interned[edge.output@] == held.output
    &&& stand_for(sink, edge.implicit_outputs@, held.implicit_outputs)
    &&& stand_for(sink, edge.inputs@, held.inputs)
    &&& stand_for(sink, edge.order_only_inputs@, held.order_only_inputs)
    &&& stand_for(sink, edge.forgiven_order_only_inputs@, held.forgiven)
    &&& stand_for(sink, edge.withdrawable_outputs@, held.withdrawable)
    &&& stand_for(sink, edge.peer_outputs@, held.peers)
    &&& stand_for(sink, edge.disposable_outputs@, held.disposable)
}

proof fn a_stretch_stands_for_its_names(
    sink: SinkModel,
    all: Seq<Seq<u8>>,
    nodes: Seq<usize>,
    names: Seq<Vec<u8>>,
    start: int,
)
    requires
        0 <= start,
        start + names.len() <= all.len(),
        all.len() == nodes.len(),
        forall|i: int|
            0 <= i < all.len() ==> sink.interned.dom().contains(#[trigger] all[i])
                && sink.interned[all[i]] == nodes[i],
        forall|i: int| 0 <= i < names.len() ==> all[start + i] == (#[trigger] names[i])@,
    ensures
        stand_for(sink, names, nodes.subrange(start, start + names.len())),
{
    assert forall|i: int| 0 <= i < names.len() implies sink.interned.dom().contains(
        (#[trigger] names[i])@,
    ) && sink.interned[names[i]@] == nodes.subrange(start, start + names.len())[i] by {
        assert(sink.interned.dom().contains(all[start + i]));
    }
}

proof fn an_edge_is_resolved_as_said(sink: SinkModel, edge: SinkEdge)
    ensures
        sink.with_nodes(edge_names(edge)).1 matches Ok(list) ==> resolved_as_said(
            sink.with_nodes(edge_names(edge)).0,
            edge,
            edge_nodes(edge, list),
        ),
{
    let all = edge_names(edge);
    names_are_interned(sink, all);
    let (after, nodes) = sink.with_nodes(all);
    if let Ok(list) = nodes {
        let implicit = 1 + edge.implicit_outputs@.len() as int;
        let inputs = implicit + edge.inputs@.len();
        let order_only = inputs + edge.order_only_inputs@.len();
        let forgiven = order_only + edge.forgiven_order_only_inputs@.len();
        let withdrawable = forgiven + edge.withdrawable_outputs@.len();
        let peers = withdrawable + edge.peer_outputs@.len();
        assert(all[0] == edge.output@);
        a_stretch_stands_for_its_names(after, all, list, edge.implicit_outputs@, 1);
        a_stretch_stands_for_its_names(after, all, list, edge.inputs@, implicit);
        a_stretch_stands_for_its_names(after, all, list, edge.order_only_inputs@, inputs);
        a_stretch_stands_for_its_names(
            after,
            all,
            list,
            edge.forgiven_order_only_inputs@,
            order_only,
        );
        a_stretch_stands_for_its_names(after, all, list, edge.withdrawable_outputs@, forgiven);
        a_stretch_stands_for_its_names(after, all, list, edge.peer_outputs@, withdrawable);
        a_stretch_stands_for_its_names(after, all, list, edge.disposable_outputs@, peers);
    }
}

/// Whether a held recursive edge is what its Makefile said of it.
pub open spec fn pending_holds(
    held: Pending,
    edge: SinkEdge,
    nodes: EdgeNodes,
    published: usize,
    deferred: Option<DeferredModel>,
    bindings: Seq<(usize, Seq<u8>)>,
) -> bool {
    &&& held.explicit_outputs == seq![published]
    &&& held.implicit_outputs == nodes.implicit_outputs
    &&& held.inputs == nodes.inputs
    &&& held.order_only_inputs == nodes.order_only_inputs
    &&& held.forgiven_order_inputs == nodes.forgiven
    &&& held.disposable_outputs == nodes.disposable
    &&& held.withdrawable == nodes.withdrawable
    &&& held.peer_outputs == nodes.peers
    &&& held.always_dirty == edge.always_dirty
    &&& held.intermediate == edge.intermediate
    &&& held.low_resolution == edge.low_resolution
    &&& held.delete_on_error == edge.delete_on_error
    &&& held.deferred == deferred
    &&& held.bindings == bindings
    &&& held.completion_output == (if edge.completion_join {
        Some(nodes.output)
    } else {
        None
    })
}

/// The rule an edge names, which is none's where it names none.
pub open spec fn rule_said(sink: SinkModel, edge: SinkEdge) -> usize {
    match edge.rule {
        Some(id) => sink.rules[id],
        None => 0,
    }
}

/// The pool an edge is held to: the one its Makefile names, or else the unit's
/// own, which a target with no command and a recipe with nothing left of it are
/// not held to.
pub proof fn an_edge_runs_in_the_pool_it_names(sink: SinkModel, edge: SinkEdge)
    ensures
        edge.pool matches Some(pool) ==> sink.edge_bindings(edge) == seq![
            (sink.bindings.pool, pool@),
        ],
        edge.pool is None && edge.rule is None ==> sink.edge_bindings(edge).len() == 0,
        edge.pool is None && edge.rule is Some && sink.subninja_rules.dom().contains(edge.rule->0)
            && sink.subninja_rules[edge.rule->0].residual_rule is None ==> sink.edge_bindings(
            edge,
        ).len() == 0,
        edge.pool is None && edge.rule is Some && !sink.subninja_rules.dom().contains(edge.rule->0)
            ==> (match sink.unit.serial_pool {
            Some(pool) => sink.edge_bindings(edge) == seq![(sink.bindings.pool, pool)],
            None => match sink.unit.job_pool {
                Some(pool) => sink.edge_bindings(edge) == seq![(sink.bindings.pool, pool.0)],
                None => sink.edge_bindings(edge).len() == 0,
            },
        }),
{
}

/// An edge stands in the graph as its Makefile said it: each of its outputs and
/// inputs in the list it was written in, in the order it was written in, under
/// the rule that was declared for it, with what was said of its freshness, its
/// pool and what becomes of its files. A recursive recipe is held with the same.
///
/// No edge that was there before is changed but for one that only named a file
/// this edge makes.
#[verifier::rlimit(60)]
pub proof fn an_edge_is_declared_as_it_was_said(sink: SinkModel, edge: SinkEdge)
    requires
        sink.wf(),
        sink.graph.edges.len() < usize::MAX,
    ensures
        ({
            let (after, why) = sink.with_declared_edge(edge);
            let count = sink.graph.edges.len() as int;
            &&& why is None && after.graph.edges.len() > count ==> exists|
                names: SinkModel,
                nodes: EdgeNodes,
                published: usize,
                deferred: Option<DeferredModel>,
            |
                {
                    &&& #[trigger] resolved_as_said(names, edge, nodes)
                    &&& names.unit == sink.unit
                    &&& #[trigger] edge_holds(
                        after.graph.edges[count],
                        edge,
                        rule_said(sink, edge),
                        nodes,
                        published,
                        deferred,
                        sink.edge_bindings(edge),
                    )
                    &&& !edge.completion_join ==> published == nodes.output && names_stay(
                        names,
                        after,
                    )
                    &&& deferred is Some <==> edge.deferred_freshness_outputs@.len() > 0
                    &&& after.graph.edges.len() == count + 1
                    &&& after.unit.edges == sink.unit.edges.push(count as usize)
                    &&& edge.rule matches Some(id) ==> sink.rules.dom().contains(id)
                }
            &&& why is None && after.unit.subninjas.len() > sink.unit.subninjas.len() ==> exists|
                names: SinkModel,
                nodes: EdgeNodes,
                published: usize,
                deferred: Option<DeferredModel>,
            |
                {
                    &&& #[trigger] resolved_as_said(names, edge, nodes)
                    &&& #[trigger] pending_holds(
                        after.unit.subninjas.last(),
                        edge,
                        nodes,
                        published,
                        deferred,
                        sink.edge_bindings(edge),
                    )
                    &&& !edge.completion_join ==> published == nodes.output && names_stay(
                        names,
                        after,
                    )
                    &&& deferred is Some <==> edge.deferred_freshness_outputs@.len() > 0
                    &&& after.graph.edges.len() == count
                }
        }),
{
    let (after, why) = sink.with_declared_edge(edge);
    let count = sink.graph.edges.len() as int;
    names_are_interned(sink, edge_names(edge));
    an_edge_is_resolved_as_said(sink, edge);
    let (first, list) = sink.with_nodes(edge_names(edge));
    if let Ok(found) = list {
        let nodes = edge_nodes(edge, found);
        what_is_put_off_is_as_said(first, edge);
        let (second, action) = first.with_deferred(edge);
        if let Ok(deferred) = action {
            let (third, published) = second.with_published(edge, nodes.output);
            let bindings = sink.edge_bindings(edge);
            assert(third.edge_bindings(edge) == bindings);
            let outputs = seq![published] + nodes.implicit_outputs;
            assert(third.graph.edges == sink.graph.edges);
            assert(third.unit == sink.unit);
            assert(!edge.completion_join ==> names_stay(first, third));
            releasing_keeps_the_names(third, outputs);
            let released = if only_a_name(edge) {
                third
            } else {
                third.with_mentions_released(outputs)
            };
            if third.made_around(outputs) {
            } else if edge.rule is Some && third.subninja_rules.dom().contains(edge.rule->0) {
                let rule = third.subninja_rules[edge.rule->0];
                let last = third.pending_of(edge, rule, nodes, published, deferred, bindings);
                assert(after.unit.subninjas == third.unit.subninjas.push(last));
                assert(after.unit.subninjas.last() == last);
                assert(resolved_as_said(first, edge, nodes));
                assert(pending_holds(last, edge, nodes, published, deferred, bindings));
            } else if only_a_name(edge) && third.graph.nodes[published as int].generator is Some {
            } else {
                let rule = rule_said(sink, edge);
                let ready = match edge.rule {
                    Some(id) => SinkModel { rules: released.rules.remove(id), ..released },
                    None => released,
                };
                a_built_edge_holds_what_it_was_told(
                    ready,
                    edge,
                    rule,
                    nodes,
                    published,
                    deferred,
                    bindings,
                );
                assert(edge.rule matches Some(id) ==> why is None ==> sink.rules.dom().contains(id));
                if why is None {
                    assert(ready.interned == third.interned);
                    assert(names_stay(ready, after));
                    assert(!edge.completion_join ==> names_stay(first, after));
                    assert(after.unit.edges == sink.unit.edges.push(count as usize));
                    assert(after.unit.subninjas == sink.unit.subninjas);
                    assert(resolved_as_said(first, edge, nodes));
                    assert(edge_holds(
                        after.graph.edges[count],
                        edge,
                        rule,
                        nodes,
                        published,
                        deferred,
                        bindings,
                    ));
                }
            }
        }
    }
}

} // verus!
