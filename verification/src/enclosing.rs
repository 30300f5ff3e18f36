//! What a child compilation sees made around it.
//!
//! The files the units enclosing a child make, by path and the node each is
//! made at, are what the child's names for those paths resolve to.

use crate::bytes::copied;
use crate::graph::{below, BuildGraph, GraphModel};
use crate::sink::{values_below, PendingSubninja};
use crate::table::{mapped, mapped_keys, mapped_value, Key, Table};
use crate::walk::{reached, walk};
use vstd::prelude::*;

verus! {

/// A copy of a table of nodes.
fn copied_table(table: &Table<Vec<u8>, usize>) -> (copy: Table<Vec<u8>, usize>)
    requires
        table.wf(),
    ensures
        copy.wf(),
        copy@ == table@,
{
    let mut copy: Table<Vec<u8>, usize> = Table::new();
    let mut at: usize = 0;
    assert(table.entries@.take(0) =~= Seq::empty());
    while at < table.entries.len()
        invariant
            at <= table.entries@.len(),
            table.wf(),
            copy.wf(),
            copy@ == mapped(table.entries@.take(at as int)),
        decreases table.entries@.len() - at,
    {
        let ghost next = table.entries@.take(at as int + 1);
        assert(next.drop_last() =~= table.entries@.take(at as int));
        copy.put(copied(&table.entries[at].0), table.entries[at].1);
        at += 1;
    }
    assert(table.entries@.take(at as int) =~= table.entries@);
    copy
}

/// What the children of a unit see made around them: what encloses the unit,
/// and the files the unit itself makes.
pub fn for_children(
    enclosing: &Table<Vec<u8>, usize>,
    generated: &Table<Vec<u8>, usize>,
) -> (merged: Table<Vec<u8>, usize>)
    requires
        enclosing.wf(),
        generated.wf(),
    ensures
        merged.wf(),
        merged@ == enclosing@.union_prefer_right(generated@),
{
    let mut merged: Table<Vec<u8>, usize> = copied_table(enclosing);
    let ghost all = generated.entries@;
    let mut at: usize = 0;
    assert(all.take(0) =~= Seq::empty());
    assert(merged@ =~= enclosing@.union_prefer_right(mapped(all.take(0))));
    while at < generated.entries.len()
        invariant
            at <= all.len(),
            all == generated.entries@,
            merged.wf(),
            merged@ == enclosing@.union_prefer_right(mapped(all.take(at as int))),
        decreases all.len() - at,
    {
        let ghost next = all.take(at as int + 1);
        assert(next.drop_last() =~= all.take(at as int));
        merged.put(copied(&generated.entries[at].0), generated.entries[at].1);
        assert(merged@ =~= enclosing@.union_prefer_right(mapped(next)));
        at += 1;
    }
    assert(all.take(at as int) =~= all);
    merged
}

/// A walk that stops nowhere.
pub open spec fn no_stops(nodes: nat) -> Seq<bool> {
    Seq::new(nodes, |i: int| false)
}

/// Whether a node is made only once one of some others is, or is one of them.
pub open spec fn waits_for(graph: GraphModel, node: usize, others: Seq<usize>) -> bool {
    exists|other: usize|
        others.contains(other) && #[trigger] reached(
            graph,
            no_stops(graph.nodes.len()),
            seq![node],
            other,
        )
}

/// Whether a node waits for one of some others.
fn is_waiting(graph: &BuildGraph, node: usize, others: &[usize]) -> (answer: bool)
    requires
        graph.model().wf(),
        node < graph.model().nodes.len(),
        below(others@, graph.model().nodes.len()),
    ensures
        answer == waits_for(graph.model(), node, others@),
{
    let ghost open = no_stops(graph.model().nodes.len());
    let mut stops: Vec<bool> = Vec::new();
    while stops.len() < graph.nodes.len()
        invariant
            stops@.len() <= graph.nodes@.len(),
            forall|i: int| 0 <= i < stops@.len() ==> !stops@[i],
        decreases graph.nodes@.len() - stops@.len(),
    {
        stops.push(false);
    }
    assert(stops@ =~= open);
    let mut start: Vec<usize> = Vec::new();
    start.push(node);
    assert(start@ =~= seq![node]);
    let seen: Vec<bool> = walk(graph, &start, &stops);
    let mut at: usize = 0;
    while at < others.len()
        invariant
            at <= others@.len(),
            seen@.len() == graph.model().nodes.len(),
            below(others@, graph.model().nodes.len()),
            open == no_stops(graph.model().nodes.len()),
            forall|other: usize|
                other < seen@.len() ==> (#[trigger] seen@[other as int] <==> reached(
                    graph.model(),
                    open,
                    seq![node],
                    other,
                )),
            forall|i: int|
                0 <= i < at ==> !reached(
                    graph.model(),
                    open,
                    seq![node],
                    #[trigger] others@[i],
                ),
        decreases others@.len() - at,
    {
        if seen[others[at]] {
            assert(others@.contains(others@[at as int]));
            return true;
        }
        at += 1;
    }
    false
}

/// What is left of the enclosing files without those that wait for the outputs
/// of a recursion.
pub open spec fn narrowed(
    graph: GraphModel,
    enclosing: Map<Seq<u8>, usize>,
    outputs: Seq<usize>,
) -> Map<Seq<u8>, usize> {
    Map::new(
        |path: Seq<u8>|
            enclosing.dom().contains(path) && !waits_for(graph, enclosing[path], outputs),
        |path: Seq<u8>| enclosing[path],
    )
}

/// The enclosing files without those that come of this recursion, for the child
/// that recursion composes.
///
/// A child's name for an enclosing unit's file resolves to that unit's node
/// because the child finds the file made. Where the file is made only by
/// running this recursion the child must keep its own rule, because its own
/// rule is what makes the file; a file made beside the recursion is kept.
pub fn for_the_child_of(
    enclosing: &Table<Vec<u8>, usize>,
    pending: &PendingSubninja,
    graph: &BuildGraph,
) -> (left: Table<Vec<u8>, usize>)
    requires
        enclosing.wf(),
        graph.model().wf(),
        values_below(enclosing@, graph.model().nodes.len()),
        pending.model().ok(graph.model().nodes.len(), graph.model().rules.len()),
    ensures
        left.wf(),
        left@ == narrowed(graph.model(), enclosing@, pending.model().outputs()),
{
    let ghost model = graph.model();
    let ghost all = enclosing.entries@;
    let outputs: Vec<usize> = pending.outputs();
    proof {
        let one = pending.model();
        assert forall|n: int| 0 <= n < outputs@.len() implies #[trigger] outputs@[n]
            < model.nodes.len() by {
            if n >= one.explicit_outputs.len() {
                assert(outputs@[n] == one.implicit_outputs[n - one.explicit_outputs.len()]);
            }
        }
    }
    let mut left: Table<Vec<u8>, usize> = Table::new();
    let mut at: usize = 0;
    assert(all.take(0) =~= Seq::empty());
    assert(left@ =~= narrowed(model, mapped(all.take(0)), outputs@));
    while at < enclosing.entries.len()
        invariant
            at <= all.len(),
            all == enclosing.entries@,
            enclosing.wf(),
            model == graph.model(),
            model.wf(),
            values_below(mapped(all), model.nodes.len()),
            below(outputs@, model.nodes.len()),
            left.wf(),
            left@ == narrowed(model, mapped(all.take(at as int)), outputs@),
        decreases all.len() - at,
    {
        let ghost stood = all.take(at as int);
        let ghost next = all.take(at as int + 1);
        assert(next.drop_last() =~= stood);
        proof {
            mapped_value(all, at as int);
            mapped_keys(stood);
            assert(!mapped(stood).dom().contains(all[at as int].0.name())) by {
                if mapped(stood).dom().contains(all[at as int].0.name()) {
                    let i = choose|i: int|
                        0 <= i < stood.len() && (#[trigger] stood[i]).0.name()
                            == all[at as int].0.name();
                    assert(all[i].0.name() != all[at as int].0.name());
                }
            }
        }
        let node: usize = enclosing.entries[at].1;
        if !is_waiting(graph, node, &outputs) {
            left.put(copied(&enclosing.entries[at].0), node);
        }
        assert(left@ =~= narrowed(model, mapped(next), outputs@));
        at += 1;
    }
    assert(all.take(at as int) =~= all);
    left
}

/// A child is never shown its own wrapper's outputs, and is shown every
/// enclosing file that nothing on the way to waits for its recursion.
pub proof fn a_wrapper_narrows_itself(
    graph: GraphModel,
    enclosing: Map<Seq<u8>, usize>,
    outputs: Seq<usize>,
    path: Seq<u8>,
)
    requires
        enclosing.dom().contains(path),
    ensures
        outputs.contains(enclosing[path]) ==> !narrowed(graph, enclosing, outputs).dom().contains(
            path,
        ),
        !waits_for(graph, enclosing[path], outputs) ==> narrowed(
            graph,
            enclosing,
            outputs,
        ).dom().contains(path) && narrowed(graph, enclosing, outputs)[path] == enclosing[path],
{
    let node = enclosing[path];
    if outputs.contains(node) {
        let stops = no_stops(graph.nodes.len());
        let path = seq![node];
        assert(crate::walk::is_path(graph, stops, path));
        assert(seq![node].contains(path[0]));
        assert(reached(graph, stops, seq![node], node));
    }
}

} // verus!
