//! What waits for what once the children of a recursive recipe are composed.
//!
//! Make runs a recipe's lines in the order they were written, so the child a
//! later line starts reads whatever an earlier one left. In the one graph they
//! are composed into, that order is what each edge waits for.

use crate::composing::{all_waiting, composed, group_ok, others};
use crate::graph::{below, with_missing, EdgeDeclared, EdgeModel, GraphModel, Refusal};
use crate::sink::{ChildGroup, Pending, SinkModel};
use vstd::prelude::*;

verus! {

/// Whether one child is the last with targets before another.
pub open spec fn comes_right_before(groups: Seq<ChildGroup>, earlier: int, later: int) -> bool {
    &&& 0 <= earlier < later < groups.len()
    &&& groups[earlier].subgraph.targets@.len() > 0
    &&& forall|between: int|
        earlier < between < later ==> (#[trigger] groups[between]).subgraph.targets@.len() == 0
}

/// Whether no child before this one has targets.
pub open spec fn comes_first(groups: Seq<ChildGroup>, later: int) -> bool {
    forall|before: int|
        0 <= before < later ==> (#[trigger] groups[before]).subgraph.targets@.len() == 0
}

/// Whether a child has to wait for a node: a target of the child the line before
/// it started, or what the whole recipe needs where no line before it started
/// one. What the child makes itself it does not wait for.
pub open spec fn child_waits_for(
    inputs: Seq<usize>,
    order_only: Seq<usize>,
    groups: Seq<ChildGroup>,
    child: int,
    node: usize,
) -> bool {
    &&& !groups[child].subgraph.targets@.contains(node)
    &&& (exists|earlier: int|
        #![trigger groups[earlier]]
        comes_right_before(groups, earlier, child) && groups[earlier].subgraph.targets@.contains(
            node,
        )) || (comes_first(groups, child) && (inputs.contains(node) || order_only.contains(node)))
}

/// Whether one of the first `count` children this recipe made holds an edge back
/// for a node.
pub open spec fn held_back(
    inputs: Seq<usize>,
    order_only: Seq<usize>,
    groups: Seq<ChildGroup>,
    count: int,
    edge: usize,
    node: usize,
) -> bool {
    exists|child: int|
        #![trigger groups[child]]
        0 <= child < count && groups[child].fresh
            && groups[child].subgraph.fresh_edges@.contains(edge) && child_waits_for(
            inputs,
            order_only,
            groups,
            child,
            node,
        )
}

/// Whether a node is a target of one of the first `count` children.
pub open spec fn targeted(groups: Seq<ChildGroup>, count: int, node: usize) -> bool {
    exists|child: int|
        #![trigger groups[child]]
        0 <= child < count && groups[child].subgraph.targets@.contains(node)
}

/// Whether two edges differ in what they wait for alone, and the second still
/// waits for all the first does, in the same order.
pub open spec fn waits_on(before: EdgeModel, after: EdgeModel) -> bool {
    &&& after == (EdgeModel {
        declared: EdgeDeclared {
            order_only_inputs: after.declared.order_only_inputs,
            ..before.declared
        },
        ..before
    })
    &&& before.declared.order_only_inputs.is_prefix_of(after.declared.order_only_inputs)
}

/// What a list is completed to holds what either list does, the first of them in
/// front.
pub proof fn completed_holds_both(list: Seq<usize>, more: Seq<usize>)
    ensures
        forall|node: usize| #[trigger]
            with_missing(list, more).contains(node) <==> list.contains(node) || more.contains(node),
        list.is_prefix_of(with_missing(list, more)),
    decreases more.len(),
{
    let all = with_missing(list, more);
    if more.len() == 0 {
        assert(all =~= list);
    } else {
        let fewer = more.drop_last();
        let before = with_missing(list, fewer);
        completed_holds_both(list, fewer);
        assert(all.take(list.len() as int) =~= list);
        assert forall|node: usize| #[trigger] all.contains(node) <==> list.contains(node)
            || more.contains(node) by {
            pushed_holds_one_more(fewer, more.last(), node);
            assert(fewer.push(more.last()) =~= more);
            if !before.contains(more.last()) {
                pushed_holds_one_more(before, more.last(), node);
            }
            assert(before.contains(node) <==> list.contains(node) || fewer.contains(node));
        }
    }
}

proof fn pushed_holds_one_more(list: Seq<usize>, last: usize, node: usize)
    ensures
        list.push(last).contains(node) <==> list.contains(node) || node == last,
{
    let all = list.push(last);
    if list.contains(node) {
        let at = choose|at: int| 0 <= at < list.len() && list[at] == node;
        assert(all[at] == node);
    }
    if node == last {
        assert(all[list.len() as int] == node);
    }
    if all.contains(node) && node != last {
        let at = choose|at: int| 0 <= at < all.len() && all[at] == node;
        assert(list[at] == node);
    }
}

proof fn others_are_the_rest(list: Seq<usize>, targets: Seq<usize>)
    ensures
        forall|node: usize| #[trigger]
            others(list, targets).contains(node) <==> list.contains(node) && !targets.contains(
                node,
            ),
    decreases list.len(),
{
    if list.len() > 0 {
        let fewer = list.drop_last();
        others_are_the_rest(fewer, targets);
        assert forall|node: usize| #[trigger] others(list, targets).contains(node)
            <==> list.contains(node) && !targets.contains(node) by {
            assert(fewer.push(list.last()) =~= list);
            pushed_holds_one_more(fewer, list.last(), node);
            pushed_holds_one_more(others(fewer, targets), list.last(), node);
            assert(others(fewer, targets).contains(node) <==> fewer.contains(node)
                && !targets.contains(node));
        }
    }
}

/// Everything but what edges wait for is left as it is.
spec fn only_waits(before: GraphModel, after: GraphModel) -> bool {
    &&& after == (GraphModel { edges: after.edges, ..before })
    &&& after.edges.len() == before.edges.len()
    &&& forall|edge: int|
        0 <= edge < before.edges.len() ==> waits_on(before.edges[edge], #[trigger] after.edges[edge])
}

proof fn waits_add_up(first: EdgeModel, second: EdgeModel, third: EdgeModel)
    requires
        waits_on(first, second),
        waits_on(second, third),
    ensures
        waits_on(first, third),
{
    let (one, two, three) = (
        first.declared.order_only_inputs,
        second.declared.order_only_inputs,
        third.declared.order_only_inputs,
    );
    assert(three.take(one.len() as int) =~= two.take(one.len() as int));
    assert(one =~= two.take(one.len() as int));
}

proof fn each_edge_waits(graph: GraphModel, edges: Seq<usize>, nodes: Seq<usize>, count: int)
    requires
        below(edges, graph.edges.len()),
        0 <= count <= edges.len(),
    ensures
        ({
            let after = all_waiting(graph, edges, nodes, count);
            &&& only_waits(graph, after)
            &&& forall|edge: usize, node: usize|
                edge < graph.edges.len() ==> (
                #[trigger] after.edges[edge as int].declared.order_only_inputs.contains(node)
                    <==> graph.edges[edge as int].declared.order_only_inputs.contains(node) || (
                edges.take(count).contains(edge) && nodes.contains(node)))
        }),
    decreases count,
{
    let after = all_waiting(graph, edges, nodes, count);
    if count <= 0 {
        assert forall|edge: int| 0 <= edge < graph.edges.len() implies waits_on(
            graph.edges[edge],
            #[trigger] after.edges[edge],
        ) by {
            let held = graph.edges[edge].declared.order_only_inputs;
            assert(held.take(held.len() as int) =~= held);
        }
        assert(edges.take(count) =~= Seq::empty());
    } else {
        each_edge_waits(graph, edges, nodes, count - 1);
        let before = all_waiting(graph, edges, nodes, count - 1);
        let last = edges[count - 1];
        let taken = edges.take(count - 1);
        let held = before.edges[last as int].declared.order_only_inputs;
        completed_holds_both(held, nodes);
        assert(edges.take(count) =~= taken.push(last));
        assert forall|edge: int| 0 <= edge < graph.edges.len() implies waits_on(
            graph.edges[edge],
            #[trigger] after.edges[edge],
        ) by {
            assert(waits_on(graph.edges[edge], before.edges[edge]));
            if edge == last {
                assert(waits_on(before.edges[edge], after.edges[edge]));
                waits_add_up(graph.edges[edge], before.edges[edge], after.edges[edge]);
            }
        }
        assert forall|edge: usize, node: usize| edge < graph.edges.len() implies (
        #[trigger] after.edges[edge as int].declared.order_only_inputs.contains(node)
            <==> graph.edges[edge as int].declared.order_only_inputs.contains(node) || (edges.take(
            count,
        ).contains(edge) && nodes.contains(node))) by {
            pushed_holds_one_more(taken, last, edge);
            assert(before.edges[edge as int].declared.order_only_inputs.contains(node)
                <==> graph.edges[edge as int].declared.order_only_inputs.contains(node) || (
            taken.contains(edge) && nodes.contains(node)));
            if edge == last {
                assert(with_missing(held, nodes).contains(node) <==> held.contains(node)
                    || nodes.contains(node));
            }
        }
    }
}

/// What the next child waits for is the targets of the last child that has any,
/// or what the recipe waits for where none has; and the targets so far are those
/// of every child.
proof fn the_line_before_is_waited_for(
    graph: GraphModel,
    inputs: Seq<usize>,
    order_only: Seq<usize>,
    groups: Seq<ChildGroup>,
    count: int,
)
    requires
        0 <= count <= groups.len(),
    ensures
        ({
            let done = composed(graph, inputs + order_only, groups, count);
            &&& forall|node: usize| #[trigger]
                done.targets.contains(node) <==> targeted(groups, count, node)
            &&& comes_first(groups, count) ==> done.waits == inputs + order_only
            &&& forall|earlier: int|
                0 <= earlier < count && (#[trigger] groups[earlier]).subgraph.targets@.len() > 0
                    && (forall|between: int|
                    earlier < between < count ==> (
                    #[trigger] groups[between]).subgraph.targets@.len() == 0) ==> done.waits
                    == with_missing(Seq::empty(), groups[earlier].subgraph.targets@)
            &&& !comes_first(groups, count) ==> exists|earlier: int|
                0 <= earlier < count && (#[trigger] groups[earlier]).subgraph.targets@.len() > 0
                    && forall|between: int|
                    earlier < between < count ==> (
                    #[trigger] groups[between]).subgraph.targets@.len() == 0
        }),
    decreases count,
{
    let done = composed(graph, inputs + order_only, groups, count);
    if count > 0 {
        let before = composed(graph, inputs + order_only, groups, count - 1);
        the_line_before_is_waited_for(graph, inputs, order_only, groups, count - 1);
        let here = groups[count - 1].subgraph.targets@;
        completed_holds_both(before.targets, here);
        assert forall|node: usize| #[trigger] done.targets.contains(node) <==> targeted(
            groups,
            count,
            node,
        ) by {
            assert(before.targets.contains(node) <==> targeted(groups, count - 1, node));
            if targeted(groups, count, node) && !here.contains(node) {
                let child = choose|child: int|
                    #![trigger groups[child]]
                    0 <= child < count && groups[child].subgraph.targets@.contains(node);
                assert(child < count - 1);
                assert(groups[child].subgraph.targets@.contains(node));
            }
            if targeted(groups, count - 1, node) {
                let child = choose|child: int|
                    #![trigger groups[child]]
                    0 <= child < count - 1 && groups[child].subgraph.targets@.contains(node);
                assert(groups[child].subgraph.targets@.contains(node));
            }
            if here.contains(node) {
                assert(groups[count - 1].subgraph.targets@.contains(node));
            }
        }
        if here.len() > 0 {
            assert(!comes_first(groups, count));
            assert forall|earlier: int|
                0 <= earlier < count && (#[trigger] groups[earlier]).subgraph.targets@.len() > 0
                    && (forall|between: int|
                    earlier < between < count ==> (
                    #[trigger] groups[between]).subgraph.targets@.len() == 0) implies done.waits
                == with_missing(Seq::empty(), groups[earlier].subgraph.targets@) by {
                if earlier < count - 1 {
                    assert(groups[count - 1].subgraph.targets@.len() == 0);
                }
            }
            assert(groups[count - 1].subgraph.targets@.len() > 0);
        } else {
            if comes_first(groups, count - 1) {
                assert(comes_first(groups, count));
            } else {
                let earlier = choose|earlier: int|
                    0 <= earlier < count - 1 && (
                    #[trigger] groups[earlier]).subgraph.targets@.len() > 0 && forall|between: int|
                        earlier < between < count - 1 ==> (
                        #[trigger] groups[between]).subgraph.targets@.len() == 0;
                assert(groups[earlier].subgraph.targets@.len() > 0);
                assert(!comes_first(groups, count));
            }
            assert forall|earlier: int|
                0 <= earlier < count && (#[trigger] groups[earlier]).subgraph.targets@.len() > 0
                    && (forall|between: int|
                    earlier < between < count ==> (
                    #[trigger] groups[between]).subgraph.targets@.len() == 0) implies done.waits
                == with_missing(Seq::empty(), groups[earlier].subgraph.targets@) by {
                assert(earlier < count - 1);
            }
        }
    } else {
        assert(done.targets =~= Seq::empty());
    }
}

/// What holds a child back is what it has to wait for.
proof fn a_child_is_held_back_right(
    graph: GraphModel,
    inputs: Seq<usize>,
    order_only: Seq<usize>,
    groups: Seq<ChildGroup>,
    child: int,
    node: usize,
)
    requires
        0 <= child < groups.len(),
    ensures
        others(
            composed(graph, inputs + order_only, groups, child).waits,
            groups[child].subgraph.targets@,
        ).contains(node) <==> child_waits_for(inputs, order_only, groups, child, node),
{
    let waits = composed(graph, inputs + order_only, groups, child).waits;
    let own = groups[child].subgraph.targets@;
    the_line_before_is_waited_for(graph, inputs, order_only, groups, child);
    others_are_the_rest(waits, own);
    assert(others(waits, own).contains(node) <==> waits.contains(node) && !own.contains(node));
    if comes_first(groups, child) {
        both_lists(inputs, order_only, node);
        if exists|earlier: int|
            #![trigger groups[earlier]]
            comes_right_before(groups, earlier, child)
                && groups[earlier].subgraph.targets@.contains(node) {
            let earlier = choose|earlier: int|
                #![trigger groups[earlier]]
                comes_right_before(groups, earlier, child)
                    && groups[earlier].subgraph.targets@.contains(node);
            assert(groups[earlier].subgraph.targets@.len() == 0);
        }
    } else {
        let earlier = choose|earlier: int|
            0 <= earlier < child && (#[trigger] groups[earlier]).subgraph.targets@.len() > 0
                && forall|between: int|
                earlier < between < child ==> (
                #[trigger] groups[between]).subgraph.targets@.len() == 0;
        let theirs = groups[earlier].subgraph.targets@;
        assert(comes_right_before(groups, earlier, child));
        completed_holds_both(Seq::empty(), theirs);
        assert(waits == with_missing(Seq::empty(), theirs));
        assert(waits.contains(node) <==> Seq::<usize>::empty().contains(node) || theirs.contains(
            node,
        ));
        if exists|other: int|
            #![trigger groups[other]]
            comes_right_before(groups, other, child) && groups[other].subgraph.targets@.contains(
                node,
            ) {
            let other = choose|other: int|
                #![trigger groups[other]]
                comes_right_before(groups, other, child)
                    && groups[other].subgraph.targets@.contains(node);
            if other < earlier {
                assert(groups[earlier].subgraph.targets@.len() == 0);
            }
            if earlier < other {
                assert(groups[other].subgraph.targets@.len() == 0);
            }
        }
        if theirs.contains(node) {
            assert(groups[earlier].subgraph.targets@.contains(node));
        }
    }
}

pub(crate) proof fn both_lists(left: Seq<usize>, right: Seq<usize>, node: usize)
    ensures
        (left + right).contains(node) <==> left.contains(node) || right.contains(node),
{
    let all = left + right;
    if left.contains(node) {
        let at = choose|at: int| 0 <= at < left.len() && left[at] == node;
        assert(all[at] == node);
    }
    if right.contains(node) {
        let at = choose|at: int| 0 <= at < right.len() && right[at] == node;
        assert(all[left.len() + at] == node);
    }
    if all.contains(node) {
        let at = choose|at: int| 0 <= at < all.len() && all[at] == node;
        if at < left.len() {
            assert(left[at] == node);
        } else {
            assert(right[at - left.len()] == node);
        }
    }
}

/// With the first `count` children composed, an edge waits for what it waited
/// for, and for what holds back a child it belongs to, and nothing else has
/// changed.
proof fn composing_holds_back(
    graph: GraphModel,
    inputs: Seq<usize>,
    order_only: Seq<usize>,
    groups: Seq<ChildGroup>,
    count: int,
)
    requires
        0 <= count <= groups.len(),
        forall|i: int| 0 <= i < groups.len() ==> group_ok(#[trigger] groups[i], graph),
    ensures
        ({
            let after = composed(graph, inputs + order_only, groups, count).graph;
            &&& only_waits(graph, after)
            &&& forall|edge: usize, node: usize|
                edge < graph.edges.len() ==> (
                #[trigger] after.edges[edge as int].declared.order_only_inputs.contains(node)
                    <==> graph.edges[edge as int].declared.order_only_inputs.contains(node)
                    || held_back(inputs, order_only, groups, count, edge, node))
        }),
    decreases count,
{
    let after = composed(graph, inputs + order_only, groups, count).graph;
    if count <= 0 {
        assert forall|edge: int| 0 <= edge < graph.edges.len() implies waits_on(
            graph.edges[edge],
            #[trigger] after.edges[edge],
        ) by {
            let held = graph.edges[edge].declared.order_only_inputs;
            assert(held.take(held.len() as int) =~= held);
        }
    } else {
        let done = composed(graph, inputs + order_only, groups, count - 1);
        let before = done.graph;
        let group = groups[count - 1];
        let child = group.subgraph;
        let nodes = others(done.waits, child.targets@);
        composing_holds_back(graph, inputs, order_only, groups, count - 1);
        assert(group_ok(group, graph));
        if group.fresh {
            each_edge_waits(before, child.fresh_edges@, nodes, child.fresh_edges@.len() as int);
            assert(child.fresh_edges@.take(child.fresh_edges@.len() as int)
                =~= child.fresh_edges@);
        }
        assert forall|edge: int| 0 <= edge < graph.edges.len() implies waits_on(
            graph.edges[edge],
            #[trigger] after.edges[edge],
        ) by {
            assert(waits_on(graph.edges[edge], before.edges[edge]));
            if group.fresh {
                assert(waits_on(before.edges[edge], after.edges[edge]));
                waits_add_up(graph.edges[edge], before.edges[edge], after.edges[edge]);
            }
        }
        assert forall|edge: usize, node: usize| edge < graph.edges.len() implies (
        #[trigger] after.edges[edge as int].declared.order_only_inputs.contains(node)
            <==> graph.edges[edge as int].declared.order_only_inputs.contains(node) || held_back(
            inputs,
            order_only,
            groups,
            count,
            edge,
            node,
        )) by {
            a_child_is_held_back_right(graph, inputs, order_only, groups, count - 1, node);
            assert(before.edges[edge as int].declared.order_only_inputs.contains(node)
                <==> graph.edges[edge as int].declared.order_only_inputs.contains(node)
                || held_back(inputs, order_only, groups, count - 1, edge, node));
            if held_back(inputs, order_only, groups, count - 1, edge, node) {
                let held = choose|held: int|
                    #![trigger groups[held]]
                    0 <= held < count - 1 && groups[held].fresh
                        && groups[held].subgraph.fresh_edges@.contains(edge) && child_waits_for(
                        inputs,
                        order_only,
                        groups,
                        held,
                        node,
                    );
                assert(groups[held].fresh);
            }
            if held_back(inputs, order_only, groups, count, edge, node) {
                let held = choose|held: int|
                    #![trigger groups[held]]
                    0 <= held < count && groups[held].fresh
                        && groups[held].subgraph.fresh_edges@.contains(edge) && child_waits_for(
                        inputs,
                        order_only,
                        groups,
                        held,
                        node,
                    );
                if held < count - 1 {
                    assert(groups[held].fresh);
                    assert(held_back(inputs, order_only, groups, count - 1, edge, node));
                }
            }
            if group.fresh && child.fresh_edges@.contains(edge) && child_waits_for(
                inputs,
                order_only,
                groups,
                count - 1,
                node,
            ) {
                assert(groups[count - 1].fresh);
                assert(held_back(inputs, order_only, groups, count, edge, node));
            }
        }
    }
}

/// Whether a graph is another with the children of a recursive recipe composed,
/// `wrapper` being the recipe's own edge: every other edge waits for what it
/// waited for and for what holds back a child it belongs to, and is otherwise
/// what it was.
pub open spec fn in_recipe_order(
    before: GraphModel,
    after: GraphModel,
    wrapper: usize,
    inputs: Seq<usize>,
    order_only: Seq<usize>,
    groups: Seq<ChildGroup>,
) -> bool {
    &&& after == (GraphModel { edges: after.edges, ..before })
    &&& after.edges.len() == before.edges.len()
    &&& forall|edge: int|
        0 <= edge < before.edges.len() && edge != wrapper ==> waits_on(
            before.edges[edge],
            #[trigger] after.edges[edge],
        )
    &&& forall|edge: usize, node: usize|
        edge < before.edges.len() && edge != wrapper ==> (
        #[trigger] after.edges[edge as int].declared.order_only_inputs.contains(node)
            <==> before.edges[edge as int].declared.order_only_inputs.contains(node) || held_back(
            inputs,
            order_only,
            groups,
            groups.len() as int,
            edge,
            node,
        ))
    &&& forall|node: usize|
        before.edges[wrapper as int].declared.order_only_inputs.contains(node) || held_back(
            inputs,
            order_only,
            groups,
            groups.len() as int,
            wrapper,
            node,
        ) ==> #[trigger] after.edges[wrapper as int].declared.order_only_inputs.contains(node)
}

/// Whether the edge of a recursive recipe stands for its children: it is behind
/// every target of every one of them, and is otherwise what it was but for the
/// rule that runs what is left of the recipe.
pub open spec fn stands_for_children(
    before: EdgeModel,
    after: EdgeModel,
    pending: Pending,
    groups: Seq<ChildGroup>,
    begun: bool,
) -> bool {
    &&& after.declared.rule == (match pending.residual_rule {
        Some(rule) => rule,
        None => 0,
    })
    &&& pending.deferred is None && pending.residual_rule is None ==> forall|node: usize|
        #[trigger] after.declared.explicit_inputs.contains(node)
            <==> before.declared.explicit_inputs.contains(node) || targeted(
            groups,
            groups.len() as int,
            node,
        )
    &&& pending.deferred is Some || pending.residual_rule is Some
        ==> after.declared.explicit_inputs == before.declared.explicit_inputs
    &&& pending.deferred is None && pending.residual_rule is Some ==> forall|node: usize|
        targeted(groups, groups.len() as int, node)
            ==> #[trigger] after.declared.order_only_inputs.contains(node)
    &&& pending.deferred is Some ==> after.deferred == pending.deferred && forall|node: usize|
        #[trigger] after.activations.contains(node) <==> before.activations.contains(node)
            || targeted(groups, groups.len() as int, node)
    &&& pending.deferred is None ==> after.deferred == before.deferred && after.activations
        == before.activations
    &&& after.completion_of == (match pending.completion_output {
        Some(node) => Some(node),
        None => before.completion_of,
    })
    &&& after.begun == (begun || before.begun)
    &&& after.declared.explicit_outputs == before.declared.explicit_outputs
    &&& after.declared.implicit_outputs == before.declared.implicit_outputs
    &&& after.declared.implicit_inputs == before.declared.implicit_inputs
    &&& after.declared.validations == before.declared.validations
    &&& after.declared.scope == before.declared.scope
    &&& after.declared.bindings == before.declared.bindings
    &&& after.declared.always_dirty == before.declared.always_dirty
    &&& after.pool == before.pool
}

/// A recipe's children run in the order of its lines: once they are composed,
/// every edge this recipe made of a child waits for every target of the child
/// the line before it started, or for all the recipe waits for where no line
/// before it started one. Nothing else is waited for that was not, and no wait
/// is lost.
///
/// The recipe's own edge stands behind every target of every child. It is
/// refused where one of those is what the recipe itself makes, and only there.
pub proof fn children_run_in_the_order_of_their_lines(
    sink: SinkModel,
    edge: usize,
    pending: Pending,
    groups: Seq<ChildGroup>,
    begun: bool,
)
    requires
        edge < sink.graph.edges.len(),
        forall|i: int| 0 <= i < groups.len() ==> group_ok(#[trigger] groups[i], sink.graph),
    ensures
        ({
            let (after, done) = sink.with_completed(edge, pending, groups, begun);
            let clash = exists|node: usize| #[trigger]
                targeted(groups, groups.len() as int, node) && (pending.explicit_outputs.contains(
                    node,
                ) || pending.implicit_outputs.contains(node));
            &&& after == (SinkModel { graph: after.graph, ..sink })
            &&& in_recipe_order(
                sink.graph,
                after.graph,
                edge,
                pending.inputs,
                pending.order_only_inputs,
                groups,
            )
            &&& done == (if clash {
                Err::<usize, Refusal>(Refusal::UncomposableSubninja(pending.diagnostic_command))
            } else {
                Ok(edge)
            })
            &&& !clash ==> stands_for_children(
                sink.graph.edges[edge as int],
                after.graph.edges[edge as int],
                pending,
                groups,
                begun,
            )
        }),
{
    let (inputs, order_only) = (pending.inputs, pending.order_only_inputs);
    let count = groups.len() as int;
    let done = composed(sink.graph, inputs + order_only, groups, count);
    let (after, result) = sink.with_completed(edge, pending, groups, begun);
    composing_holds_back(sink.graph, inputs, order_only, groups, count);
    the_line_before_is_waited_for(sink.graph, inputs, order_only, groups, count);
    only_the_wrapper_is_completed(sink, edge, pending, groups, begun);
    a_clash_is_a_target_made_twice(done.targets, pending, groups);
    assert forall|other: int| 0 <= other < sink.graph.edges.len() && other != edge implies waits_on(
        sink.graph.edges[other],
        #[trigger] after.graph.edges[other],
    ) by {
        assert(after.graph.edges[other] == done.graph.edges[other]);
    }
    assert forall|other: usize, node: usize|
        other < sink.graph.edges.len() && other != edge implies (
    #[trigger] after.graph.edges[other as int].declared.order_only_inputs.contains(node)
        <==> sink.graph.edges[other as int].declared.order_only_inputs.contains(node) || held_back(
        inputs,
        order_only,
        groups,
        count,
        other,
        node,
    )) by {
        assert(after.graph.edges[other as int] == done.graph.edges[other as int]);
        assert(done.graph.edges[other as int].declared.order_only_inputs.contains(node)
            <==> sink.graph.edges[other as int].declared.order_only_inputs.contains(node)
            || held_back(inputs, order_only, groups, count, other, node));
    }
    let own = done.graph.edges[edge as int];
    assert(waits_on(sink.graph.edges[edge as int], own));
    if !crate::composing::meet(done.targets, pending.outputs()) {
        a_wrapper_stands_for_its_targets(
            sink.graph.edges[edge as int],
            own,
            after.graph.edges[edge as int],
            pending,
            groups,
            done.targets,
            begun,
        );
    }
    assert forall|node: usize|
        sink.graph.edges[edge as int].declared.order_only_inputs.contains(node) || held_back(
            inputs,
            order_only,
            groups,
            count,
            edge,
            node,
        ) implies #[trigger] after.graph.edges[edge as int].declared.order_only_inputs.contains(
        node,
    ) by {
        assert(own.declared.order_only_inputs.contains(node));
    }
}

/// What completing a recipe's own edge over some targets makes of it.
spec fn completed_over(
    before: EdgeModel,
    after: EdgeModel,
    pending: Pending,
    targets: Seq<usize>,
    begun: bool,
) -> bool {
    &&& after.declared.rule == (match pending.residual_rule {
        Some(rule) => rule,
        None => 0,
    })
    &&& after.declared.explicit_inputs == (if pending.deferred is None
        && pending.residual_rule is None {
        with_missing(before.declared.explicit_inputs, targets)
    } else {
        before.declared.explicit_inputs
    })
    &&& after.declared.order_only_inputs == (if pending.deferred is None
        && pending.residual_rule is Some {
        with_missing(before.declared.order_only_inputs, targets)
    } else {
        before.declared.order_only_inputs
    })
    &&& after.deferred == (if pending.deferred is Some {
        pending.deferred
    } else {
        before.deferred
    })
    &&& after.activations == (if pending.deferred is Some {
        with_missing(before.activations, targets)
    } else {
        before.activations
    })
    &&& after.completion_of == (match pending.completion_output {
        Some(node) => Some(node),
        None => before.completion_of,
    })
    &&& after.begun == (begun || before.begun)
    &&& after == (EdgeModel {
        declared: EdgeDeclared {
            rule: after.declared.rule,
            explicit_inputs: after.declared.explicit_inputs,
            order_only_inputs: after.declared.order_only_inputs,
            ..before.declared
        },
        deferred: after.deferred,
        activations: after.activations,
        completion_of: after.completion_of,
        begun: after.begun,
        ..before
    })
}

proof fn only_the_wrapper_is_completed(
    sink: SinkModel,
    edge: usize,
    pending: Pending,
    groups: Seq<ChildGroup>,
    begun: bool,
)
    requires
        edge < composed(
            sink.graph,
            pending.inputs + pending.order_only_inputs,
            groups,
            groups.len() as int,
        ).graph.edges.len(),
    ensures
        ({
            let done = composed(
                sink.graph,
                pending.inputs + pending.order_only_inputs,
                groups,
                groups.len() as int,
            );
            let (after, result) = sink.with_completed(edge, pending, groups, begun);
            let clash = crate::composing::meet(done.targets, pending.outputs());
            &&& after == (SinkModel { graph: after.graph, ..sink })
            &&& after.graph == (GraphModel { edges: after.graph.edges, ..done.graph })
            &&& after.graph.edges.len() == done.graph.edges.len()
            &&& forall|other: int|
                0 <= other < done.graph.edges.len() && other != edge
                    ==> #[trigger] after.graph.edges[other] == done.graph.edges[other]
            &&& clash ==> after.graph == done.graph && result == Err::<usize, Refusal>(
                Refusal::UncomposableSubninja(pending.diagnostic_command),
            )
            &&& !clash ==> result == Ok::<usize, Refusal>(edge) && completed_over(
                done.graph.edges[edge as int],
                after.graph.edges[edge as int],
                pending,
                done.targets,
                begun,
            )
        }),
{
    assert(pending.evaluation_inputs() == pending.inputs + pending.order_only_inputs);
    let done = composed(
        sink.graph,
        pending.inputs + pending.order_only_inputs,
        groups,
        groups.len() as int,
    );
    the_wrapper_alone_changes(done.graph, edge, pending, done.targets, begun);
}

proof fn the_wrapper_alone_changes(
    graph: GraphModel,
    edge: usize,
    pending: Pending,
    targets: Seq<usize>,
    begun: bool,
)
    requires
        edge < graph.edges.len(),
    ensures
        ({
            let after = graph.with_wrapper(edge, pending, targets, begun);
            &&& after == (GraphModel { edges: after.edges, ..graph })
            &&& after.edges.len() == graph.edges.len()
            &&& forall|other: int|
                0 <= other < graph.edges.len() && other != edge ==> #[trigger] after.edges[other]
                    == graph.edges[other]
            &&& completed_over(
                graph.edges[edge as int],
                after.edges[edge as int],
                pending,
                targets,
                begun,
            )
        }),
{
    let first = graph.behind_targets(edge, pending, targets);
    assert(same_but_for(graph, first, edge));
    let ruled = first.under_residual_rule(edge, pending);
    assert(same_but_for(graph, ruled, edge));
    let late = ruled.with_put_off(edge, pending, targets);
    assert(same_but_for(graph, late, edge));
    let last = late.with_joined(edge, pending, begun);
    assert(same_but_for(graph, last, edge));
    let held = graph.edges[edge as int];
    assert(late.edges[edge as int].declared == ruled.edges[edge as int].declared);
    assert(completed_over(held, last.edges[edge as int], pending, targets, begun));
}

/// Whether two graphs differ in one edge at most.
spec fn same_but_for(before: GraphModel, after: GraphModel, edge: usize) -> bool {
    &&& after == (GraphModel { edges: after.edges, ..before })
    &&& after.edges.len() == before.edges.len()
    &&& forall|other: int|
        0 <= other < before.edges.len() && other != edge ==> #[trigger] after.edges[other]
            == before.edges[other]
}

proof fn a_clash_is_a_target_made_twice(
    targets: Seq<usize>,
    pending: Pending,
    groups: Seq<ChildGroup>,
)
    requires
        forall|node: usize| #[trigger]
            targets.contains(node) <==> targeted(groups, groups.len() as int, node),
    ensures
        crate::composing::meet(targets, pending.outputs()) <==> exists|node: usize| #[trigger]
            targeted(groups, groups.len() as int, node) && (pending.explicit_outputs.contains(node)
                || pending.implicit_outputs.contains(node)),
{
    let outputs = pending.outputs();
    if crate::composing::meet(targets, outputs) {
        let i = choose|i: int| 0 <= i < targets.len() && outputs.contains(#[trigger] targets[i]);
        assert(targets.contains(targets[i]));
        both_lists(pending.explicit_outputs, pending.implicit_outputs, targets[i]);
        assert(targeted(groups, groups.len() as int, targets[i]));
    } else {
        assert forall|node: usize| #[trigger]
            targeted(groups, groups.len() as int, node) implies !(
        pending.explicit_outputs.contains(node) || pending.implicit_outputs.contains(node)) by {
            assert(targets.contains(node));
            let i = choose|i: int| 0 <= i < targets.len() && targets[i] == node;
            both_lists(pending.explicit_outputs, pending.implicit_outputs, node);
            assert(!outputs.contains(targets[i]));
        }
    }
}

proof fn a_wrapper_stands_for_its_targets(
    first: EdgeModel,
    before: EdgeModel,
    after: EdgeModel,
    pending: Pending,
    groups: Seq<ChildGroup>,
    targets: Seq<usize>,
    begun: bool,
)
    requires
        waits_on(first, before),
        completed_over(before, after, pending, targets, begun),
        forall|node: usize| #[trigger]
            targets.contains(node) <==> targeted(groups, groups.len() as int, node),
    ensures
        stands_for_children(first, after, pending, groups, begun),
        forall|node: usize|
            before.declared.order_only_inputs.contains(node)
                ==> #[trigger] after.declared.order_only_inputs.contains(node),
{
    completed_holds_both(before.declared.order_only_inputs, targets);
    completed_holds_both(before.declared.explicit_inputs, targets);
    completed_holds_both(before.activations, targets);
    assert forall|node: usize|
        targeted(groups, groups.len() as int, node) && pending.deferred is None
            && pending.residual_rule is Some implies
        #[trigger] after.declared.order_only_inputs.contains(node) by {
        assert(targets.contains(node));
    }
}

/// The edges a later line's child made wait for what an earlier line's child was
/// asked to make, the later being the next with targets.
pub proof fn a_later_line_waits_for_an_earlier_one(
    sink: SinkModel,
    edge: usize,
    pending: Pending,
    groups: Seq<ChildGroup>,
    begun: bool,
    earlier: int,
    later: int,
    made: usize,
    target: usize,
)
    requires
        edge < sink.graph.edges.len(),
        forall|i: int| 0 <= i < groups.len() ==> group_ok(#[trigger] groups[i], sink.graph),
        0 <= earlier < later < groups.len(),
        forall|between: int|
            earlier < between < later ==> (#[trigger] groups[between]).subgraph.targets@.len() == 0,
        groups[later].fresh,
        groups[later].subgraph.fresh_edges@.contains(made),
        groups[earlier].subgraph.targets@.contains(target),
        !groups[later].subgraph.targets@.contains(target),
    ensures
        sink.with_completed(
            edge,
            pending,
            groups,
            begun,
        ).0.graph.edges[made as int].declared.order_only_inputs.contains(target),
{
    children_run_in_the_order_of_their_lines(sink, edge, pending, groups, begun);
    assert(group_ok(groups[later], sink.graph));
    assert(made < sink.graph.edges.len());
    assert(comes_right_before(groups, earlier, later));
    assert(groups[earlier].subgraph.targets@.contains(target));
    assert(child_waits_for(pending.inputs, pending.order_only_inputs, groups, later, target));
    assert(groups[later].fresh);
    assert(held_back(
        pending.inputs,
        pending.order_only_inputs,
        groups,
        groups.len() as int,
        made,
        target,
    ));
}

} // verus!
