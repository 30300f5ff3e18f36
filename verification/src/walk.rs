//! What a graph's waits lead to.

use crate::graph::{below, BuildGraph, GraphModel};
use vstd::prelude::*;

verus! {

/// Whether each node of a path waits for the next, no node but the last being
/// one the walk stops at.
pub open spec fn is_path(graph: GraphModel, stops: Seq<bool>, path: Seq<usize>) -> bool {
    &&& path.len() > 0
    &&& forall|i: int|
        #![trigger path[i]]
        0 <= i < path.len() - 1 ==> !stops[path[i] as int] && graph.prerequisites(
            path[i],
        ).contains(path[i + 1])
}

/// Whether a walk from some nodes leads to a node.
pub open spec fn reached(graph: GraphModel, stops: Seq<bool>, starts: Seq<usize>, node: usize) ->
    bool {
    exists|path: Seq<usize>| #[trigger]
        is_path(graph, stops, path) && starts.contains(path[0]) && path.last() == node
}

/// How many nodes are not seen yet.
pub open spec fn unseen(seen: Seq<bool>) -> nat
    decreases seen.len(),
{
    if seen.len() == 0 {
        0
    } else {
        unseen(seen.drop_last()) + (if seen.last() {
            0nat
        } else {
            1nat
        })
    }
}

proof fn seeing_leaves_fewer(seen: Seq<bool>, at: int)
    requires
        0 <= at < seen.len(),
        !seen[at],
    ensures
        unseen(seen.update(at, true)) + 1 == unseen(seen),
    decreases seen.len(),
{
    let after = seen.update(at, true);
    if at == seen.len() - 1 {
        assert(after.drop_last() =~= seen.drop_last());
    } else {
        seeing_leaves_fewer(seen.drop_last(), at);
        assert(after.drop_last() =~= seen.drop_last().update(at, true));
    }
}

proof fn one_node_is_a_path(graph: GraphModel, stops: Seq<bool>, starts: Seq<usize>, node: usize)
    requires
        starts.contains(node),
    ensures
        reached(graph, stops, starts, node),
{
    let path = seq![node];
    assert(is_path(graph, stops, path));
}

proof fn one_step_further(
    graph: GraphModel,
    stops: Seq<bool>,
    starts: Seq<usize>,
    node: usize,
    next: usize,
)
    requires
        reached(graph, stops, starts, node),
        !stops[node as int],
        graph.prerequisites(node).contains(next),
    ensures
        reached(graph, stops, starts, next),
{
    let path = choose|path: Seq<usize>| #[trigger]
        is_path(graph, stops, path) && starts.contains(path[0]) && path.last() == node;
    let longer = path.push(next);
    assert forall|i: int| #![trigger longer[i]] 0 <= i < longer.len() - 1 implies !stops[longer[i] as int]
        && graph.prerequisites(longer[i]).contains(longer[i + 1]) by {
        if i < path.len() - 1 {
            assert(longer[i] == path[i]);
        }
    }
    assert(is_path(graph, stops, longer));
    assert(longer[0] == path[0]);
}

/// A set of nodes that holds the starts, and with each node the walk does not
/// stop at what it waits for, holds everything a walk leads to.
proof fn closed_holds_all(
    graph: GraphModel,
    stops: Seq<bool>,
    starts: Seq<usize>,
    seen: Seq<bool>,
    path: Seq<usize>,
    at: int,
)
    requires
        is_path(graph, stops, path),
        starts.contains(path[0]),
        0 <= at < path.len(),
        forall|i: int| 0 <= i < starts.len() ==> seen[#[trigger] starts[i] as int],
        forall|node: usize, next: usize|
            #![trigger graph.prerequisites(node).contains(next)]
            seen[node as int] && !stops[node as int] && node < seen.len() && graph.prerequisites(
                node,
            ).contains(next) ==> seen[next as int] && next < seen.len(),
        below(starts, seen.len()),
    ensures
        seen[path[at] as int],
        path[at] < seen.len(),
    decreases at,
{
    if at == 0 {
        let i = choose|i: int| 0 <= i < starts.len() && starts[i] == path[0];
        assert(seen[starts[i] as int]);
    } else {
        closed_holds_all(graph, stops, starts, seen, path, at - 1);
        assert(graph.prerequisites(path[at - 1]).contains(path[at - 1 + 1]));
    }
}

/// Mark every node of a list that is not seen yet, and leave it to be looked
/// behind.
fn mark_all(seen: &mut Vec<bool>, frontier: &mut Vec<usize>, nodes: &[usize])
    requires
        below(nodes@, old(seen)@.len()),
        below(old(frontier)@, old(seen)@.len()),
        forall|i: int| 0 <= i < old(frontier)@.len() ==> old(seen)@[#[trigger] old(frontier)@[i] as int],
    ensures
        final(seen)@.len() == old(seen)@.len(),
        below(final(frontier)@, final(seen)@.len()),
        forall|i: int| 0 <= i < final(frontier)@.len() ==> final(seen)@[#[trigger] final(frontier)@[i] as int],
        forall|n: usize|
            n < final(seen)@.len() ==> (#[trigger] final(seen)@[n as int] <==> old(seen)@[n as int]
                || nodes@.contains(n)),
        forall|n: usize|
            n < final(seen)@.len() && final(seen)@[n as int] && !old(seen)@[n as int]
                ==> #[trigger] final(frontier)@.contains(n),
        forall|n: usize| #[trigger]
            old(frontier)@.contains(n) ==> final(frontier)@.contains(n),
        unseen(final(seen)@) < unseen(old(seen)@) || (unseen(final(seen)@) == unseen(old(seen)@)
            && final(frontier)@ == old(frontier)@),
{
    let ghost began = seen@;
    let ghost stood = frontier@;
    let mut at: usize = 0;
    while at < nodes.len()
        invariant
            at <= nodes@.len(),
            seen@.len() == began.len(),
            below(nodes@, began.len()),
            below(frontier@, began.len()),
            forall|i: int| 0 <= i < frontier@.len() ==> seen@[#[trigger] frontier@[i] as int],
            forall|n: usize|
                n < seen@.len() ==> (#[trigger] seen@[n as int] <==> began[n as int] || nodes@.take(
                    at as int,
                ).contains(n)),
            forall|n: usize|
                n < seen@.len() && seen@[n as int] && !began[n as int]
                    ==> #[trigger] frontier@.contains(n),
            forall|n: usize| #[trigger] stood.contains(n) ==> frontier@.contains(n),
            unseen(seen@) < unseen(began) || (unseen(seen@) == unseen(began) && frontier@ == stood),
        decreases nodes@.len() - at,
    {
        let node: usize = nodes[at];
        let ghost before = seen@;
        let ghost held = frontier@;
        let ghost taken = nodes@.take(at as int);
        let ghost next = nodes@.take(at as int + 1);
        assert(next =~= taken.push(node));
        assert(next[at as int] == node);
        assert forall|n: usize| next.contains(n) <==> taken.contains(n) || n == node by {
            if taken.contains(n) {
                let i = choose|i: int| 0 <= i < taken.len() && taken[i] == n;
                assert(next[i] == n);
            }
            if next.contains(n) && n != node {
                let i = choose|i: int| 0 <= i < next.len() && next[i] == n;
                assert(taken[i] == n);
            }
        }
        if !seen[node] {
            seen[node] = true;
            frontier.push(node);
            proof {
                seeing_leaves_fewer(before, node as int);
                assert(seen@ =~= before.update(node as int, true));
                assert(frontier@[held.len() as int] == node);
                assert forall|n: usize| #[trigger] held.contains(n) implies frontier@.contains(
                    n,
                ) by {
                    let i = choose|i: int| 0 <= i < held.len() && held[i] == n;
                    assert(frontier@[i] == n);
                }
                assert forall|n: usize|
                    n < seen@.len() && seen@[n as int] && !began[n as int] implies #[trigger] frontier@.contains(n) by {
                    if n != node {
                        assert(held.contains(n));
                    }
                }
                assert forall|n: usize| #[trigger] stood.contains(n) implies frontier@.contains(
                    n,
                ) by {
                    assert(held.contains(n));
                }
            }
        }
        at += 1;
    }
    assert(nodes@.take(at as int) =~= nodes@);
}

/// Which nodes a walk from some nodes leads to.
pub fn walk(graph: &BuildGraph, starts: &[usize], stops: &[bool]) -> (seen: Vec<bool>)
    requires
        graph.model().wf(),
        stops@.len() == graph.model().nodes.len(),
        below(starts@, graph.model().nodes.len()),
    ensures
        seen@.len() == graph.model().nodes.len(),
        forall|node: usize|
            node < seen@.len() ==> (#[trigger] seen@[node as int] <==> reached(
                graph.model(),
                stops@,
                starts@,
                node,
            )),
{
    let ghost model = graph.model();
    let mut seen: Vec<bool> = Vec::new();
    while seen.len() < graph.nodes.len()
        invariant
            seen@.len() <= graph.nodes@.len(),
            forall|i: int| 0 <= i < seen@.len() ==> !seen@[i],
        decreases graph.nodes@.len() - seen@.len(),
    {
        seen.push(false);
    }
    let mut frontier: Vec<usize> = Vec::new();
    mark_all(&mut seen, &mut frontier, starts);
    proof {
        assert forall|node: usize| node < seen@.len() && seen@[node as int] implies reached(
            model,
            stops@,
            starts@,
            node,
        ) by {
            one_node_is_a_path(model, stops@, starts@, node);
        }
        assert forall|i: int| 0 <= i < starts@.len() implies seen@[#[trigger] starts@[i] as int] by {
            assert(starts@.contains(starts@[i]));
        }
    }
    loop
        invariant
            model == graph.model(),
            model.wf(),
            stops@.len() == model.nodes.len(),
            seen@.len() == model.nodes.len(),
            below(starts@, seen@.len()),
            below(frontier@, seen@.len()),
            forall|i: int| 0 <= i < frontier@.len() ==> seen@[#[trigger] frontier@[i] as int],
            forall|i: int| 0 <= i < starts@.len() ==> seen@[#[trigger] starts@[i] as int],
            forall|node: usize|
                node < seen@.len() && #[trigger] seen@[node as int] ==> reached(
                    model,
                    stops@,
                    starts@,
                    node,
                ),
            forall|node: usize, next: usize|
                #![trigger model.prerequisites(node).contains(next)]
                node < seen@.len() && seen@[node as int] && !stops@[node as int]
                    && !frontier@.contains(node) && model.prerequisites(node).contains(next)
                    ==> next < seen@.len() && seen@[next as int],
        ensures
            frontier@.len() == 0,
        decreases unseen(seen@), frontier@.len(),
    {
        let ghost held = frontier@;
        let node: usize = match frontier.pop() {
            Some(node) => node,
            None => {
                break;
            },
        };
        assert(held =~= frontier@.push(node));
        assert(held[held.len() - 1] == node);
        assert(seen@[node as int]);
        let ghost rest = frontier@;
        let ghost before = seen@;
        assert forall|n: usize| held.contains(n) && n != node implies rest.contains(n) by {
            let i = choose|i: int| 0 <= i < held.len() && held[i] == n;
            assert(rest[i] == n);
        }
        assert forall|i: int| 0 <= i < rest.len() implies seen@[#[trigger] rest[i] as int] by {
            assert(held[i] == rest[i]);
        }
        assert(below(rest, seen@.len())) by {
            assert forall|i: int| 0 <= i < rest.len() implies #[trigger] rest[i] < seen@.len() by {
                assert(held[i] == rest[i]);
            }
        }
        if !stops[node] {
            let behind: Vec<usize> = graph.prerequisites_of(node);
            mark_all(&mut seen, &mut frontier, &behind);
            proof {
                assert forall|n: usize| n < seen@.len() && #[trigger] seen@[n as int] implies reached(
                    model,
                    stops@,
                    starts@,
                    n,
                ) by {
                    if !before[n as int] {
                        one_step_further(model, stops@, starts@, node, n);
                    }
                }
                assert forall|i: int| 0 <= i < starts@.len() implies seen@[#[trigger] starts@[i] as int] by {
                    assert(before[starts@[i] as int]);
                }
                assert forall|n: usize, next: usize|
                    #![trigger model.prerequisites(n).contains(next)]
                    n < seen@.len() && seen@[n as int] && !stops@[n as int] && !frontier@.contains(
                        n,
                    ) && model.prerequisites(n).contains(next) implies next < seen@.len()
                    && seen@[next as int] by {
                    if n == node {
                        let i = choose|i: int|
                            0 <= i < behind@.len() && behind@[i] == next;
                        assert(behind@[i] < model.nodes.len());
                        assert(behind@.contains(next));
                        assert(seen@[next as int]);
                    } else {
                        assert(before[n as int]);
                        assert(!rest.contains(n));
                        assert(!held.contains(n));
                        assert(before[next as int]);
                        assert(seen@[next as int]);
                    }
                }
            }
        } else {
            proof {
                assert forall|n: usize, next: usize|
                    #![trigger model.prerequisites(n).contains(next)]
                    n < seen@.len() && seen@[n as int] && !stops@[n as int] && !frontier@.contains(
                        n,
                    ) && model.prerequisites(n).contains(next) implies next < seen@.len()
                    && seen@[next as int] by {
                    assert(n != node);
                    assert(!held.contains(n));
                }
            }
        }
    }
    proof {
        assert forall|node: usize| node < seen@.len() && reached(
            model,
            stops@,
            starts@,
            node,
        ) implies #[trigger] seen@[node as int] by {
            let path = choose|path: Seq<usize>| #[trigger]
                is_path(model, stops@, path) && starts@.contains(path[0]) && path.last() == node;
            closed_holds_all(model, stops@, starts@, seen@, path, path.len() - 1);
        }
    }
    seen
}

} // verus!
