//! What a manifest cannot say of a graph, and what comparing many Makefiles
//! comes to.

use crate::bytes::{
    append, begins, copied, copied_all, decimal, decimal_of, find_text, holds, literal, lossy, part,
    same, starts_with, text, text_at, texts, to_str_lossy,
};
use crate::describing::{DeferredSemantics, EdgeSemantics, IgnoredCommand};
use crate::equivalence::{differences, makes_something, tells_apart};
use crate::graph::{below, edge_ok, lists, BuildGraph, EdgeModel, GraphModel};
use crate::invocation::pairs;
use crate::sink::{SinkEdge, SinkRule};
use crate::sorting::{in_order, meanings, sorted};
use crate::table::Table;
use vstd::prelude::*;
use vstd::string::*;

verus! {

/// A property of outputs that only a graph can hold, a manifest having no way
/// to say it.
#[derive(Clone, Copy, PartialEq, Eq, Structural, Debug)]
pub enum Property {
    /// It is withdrawn if the command that makes it fails.
    Withdrawn,
    /// It is made only on the way to making one that was asked for.
    Peer,
    /// It is deleted once the build has finished with it.
    Disposable,
    /// It is read off the disk again once its command has run.
    Reobserved,
    /// It may be missing.
    Intermediate,
}

/// The nodes among some that are thrown away.
pub open spec fn thrown_away(graph: GraphModel, nodes: Seq<usize>) -> Seq<usize>
    decreases nodes.len(),
{
    if nodes.len() == 0 {
        Seq::empty()
    } else if graph.nodes[nodes.last() as int].disposable {
        thrown_away(graph, nodes.drop_last()).push(nodes.last())
    } else {
        thrown_away(graph, nodes.drop_last())
    }
}

/// The outputs of an edge that have a property.
pub open spec fn having(graph: GraphModel, edge: EdgeModel, property: Property) -> Seq<usize> {
    let outputs = edge.declared.explicit_outputs + edge.declared.implicit_outputs;
    match property {
        Property::Withdrawn => if edge.delete_on_error {
            edge.withdrawable
        } else {
            Seq::empty()
        },
        Property::Peer => edge.peers,
        Property::Disposable => thrown_away(graph, outputs),
        Property::Reobserved => if edge.outputs_reobserved {
            outputs
        } else {
            Seq::empty()
        },
        Property::Intermediate => if edge.declared.intermediate {
            outputs
        } else {
            Seq::empty()
        },
    }
}

/// Some nodes' paths, as a reader sees them.
pub open spec fn shown_paths(graph: GraphModel, nodes: Seq<usize>) -> Seq<Seq<u8>> {
    Seq::new(nodes.len(), |i: int| lossy(graph.nodes[nodes[i] as int].path))
}

/// The outputs of the first `count` edges that have a property.
pub open spec fn all_having(graph: GraphModel, property: Property, count: int) -> Seq<Seq<u8>>
    decreases count,
{
    if count <= 0 {
        Seq::empty()
    } else {
        all_having(graph, property, count - 1) + shown_paths(
            graph,
            having(graph, graph.edges[count - 1], property),
        )
    }
}

/// Whether a list holds the same items in their order.
pub open spec fn ordered_as(list: Seq<Vec<u8>>, items: Seq<Seq<u8>>) -> bool {
    in_order(list) && texts(list).to_multiset() == items.to_multiset()
}

fn ordered(list: Vec<Vec<u8>>) -> (sorted_list: Vec<Vec<u8>>)
    ensures
        ordered_as(sorted_list@, texts(list@)),
{
    let ghost all = list@;
    let sorted_list: Vec<Vec<u8>> = sorted(list);
    assert(meanings(sorted_list@) =~= texts(sorted_list@));
    assert(meanings(all) =~= texts(all));
    sorted_list
}

fn push_shown(paths: &mut Vec<Vec<u8>>, graph: &BuildGraph, nodes: &[usize])
    requires
        below(nodes@, graph.model().nodes.len()),
    ensures
        texts(final(paths)@) == texts(old(paths)@) + shown_paths(graph.model(), nodes@),
{
    let ghost began = texts(paths@);
    let ghost wanted = shown_paths(graph.model(), nodes@);
    let mut at: usize = 0;
    assert(texts(paths@) =~= began + wanted.take(0));
    while at < nodes.len()
        invariant
            at <= nodes@.len(),
            below(nodes@, graph.model().nodes.len()),
            wanted == shown_paths(graph.model(), nodes@),
            texts(paths@) == began + wanted.take(at as int),
        decreases nodes@.len() - at,
    {
        let ghost before = texts(paths@);
        let path: Vec<u8> = to_str_lossy(graph.path(nodes[at]));
        let ghost added = path@;
        paths.push(path);
        assert(texts(paths@) =~= before.push(added));
        assert(texts(paths@) =~= began + wanted.take(at as int + 1));
        at += 1;
    }
    assert(wanted.take(at as int) =~= wanted);
}

fn outputs_of_edge(graph: &BuildGraph, edge: usize) -> (outputs: Vec<usize>)
    requires
        graph.model().wf(),
        edge < graph.model().edges.len(),
    ensures
        outputs@ == graph.model().edges[edge as int].declared.explicit_outputs
            + graph.model().edges[edge as int].declared.implicit_outputs,
        below(outputs@, graph.model().nodes.len()),
{
    let ghost model = graph.model();
    let ghost stored = model.edges[edge as int];
    assert(stored == graph.edges@[edge as int].model());
    assert(edge_ok(stored, model.nodes.len(), model.rules.len(), model.pools.len()));
    let mut outputs: Vec<usize> = crate::graph::copied_ids(
        &graph.edges[edge].declared.explicit_outputs,
    );
    let mut more: Vec<usize> = crate::graph::copied_ids(
        &graph.edges[edge].declared.implicit_outputs,
    );
    let ghost (first, second) = (outputs@, more@);
    outputs.append(&mut more);
    assert(outputs@ =~= first + second);
    assert forall|i: int| 0 <= i < outputs@.len() implies #[trigger] outputs@[i]
        < model.nodes.len() by {
        if i >= first.len() {
            assert(outputs@[i] == second[i - first.len()]);
        }
    }
    outputs
}

fn keep_thrown_away(graph: &BuildGraph, nodes: &[usize]) -> (kept: Vec<usize>)
    requires
        below(nodes@, graph.model().nodes.len()),
    ensures
        kept@ == thrown_away(graph.model(), nodes@),
        below(kept@, graph.model().nodes.len()),
{
    let ghost model = graph.model();
    let mut kept: Vec<usize> = Vec::new();
    let mut at: usize = 0;
    assert(nodes@.take(0) =~= Seq::empty());
    while at < nodes.len()
        invariant
            at <= nodes@.len(),
            model == graph.model(),
            below(nodes@, model.nodes.len()),
            kept@ == thrown_away(model, nodes@.take(at as int)),
            below(kept@, model.nodes.len()),
        decreases nodes@.len() - at,
    {
        let ghost next = nodes@.take(at as int + 1);
        assert(next.drop_last() =~= nodes@.take(at as int));
        assert(model.nodes[nodes@[at as int] as int]
            == graph.nodes@[nodes@[at as int] as int].model());
        if graph.nodes[nodes[at]].disposable {
            kept.push(nodes[at]);
        }
        at += 1;
    }
    assert(nodes@.take(at as int) =~= nodes@);
    kept
}

fn find_having(graph: &BuildGraph, edge: usize, property: Property) -> (nodes: Vec<usize>)
    requires
        graph.model().wf(),
        edge < graph.model().edges.len(),
    ensures
        nodes@ == having(graph.model(), graph.model().edges[edge as int], property),
        below(nodes@, graph.model().nodes.len()),
{
    let ghost model = graph.model();
    let ghost stored = model.edges[edge as int];
    assert(stored == graph.edges@[edge as int].model());
    assert(edge_ok(stored, model.nodes.len(), model.rules.len(), model.pools.len()));
    let outputs: Vec<usize> = outputs_of_edge(graph, edge);
    let none: Vec<usize> = Vec::new();
    assert(none@ =~= Seq::empty());
    match property {
        Property::Withdrawn => if graph.edges[edge].delete_on_error {
            crate::graph::copied_ids(&graph.edges[edge].withdrawable)
        } else {
            none
        },
        Property::Peer => crate::graph::copied_ids(&graph.edges[edge].peers),
        Property::Disposable => keep_thrown_away(graph, &outputs),
        Property::Reobserved => if graph.edges[edge].outputs_reobserved {
            outputs
        } else {
            none
        },
        Property::Intermediate => if graph.edges[edge].declared.intermediate {
            outputs
        } else {
            none
        },
    }
}

/// Every output of a graph that has a property, as paths in their order.
pub fn outputs_where(graph: &BuildGraph, property: Property) -> (paths: Vec<Vec<u8>>)
    requires
        graph.model().wf(),
    ensures
        ordered_as(
            paths@,
            all_having(graph.model(), property, graph.model().edges.len() as int),
        ),
{
    let ghost model = graph.model();
    let mut paths: Vec<Vec<u8>> = Vec::new();
    let mut at: usize = 0;
    assert(texts(paths@) =~= Seq::empty());
    while at < graph.edges.len()
        invariant
            at <= graph.edges@.len(),
            model == graph.model(),
            model.wf(),
            model.edges.len() == graph.edges@.len(),
            texts(paths@) == all_having(model, property, at as int),
        decreases graph.edges@.len() - at,
    {
        let nodes: Vec<usize> = find_having(graph, at, property);
        push_shown(&mut paths, graph, &nodes);
        at += 1;
    }
    ordered(paths)
}

/// Every output a graph would withdraw if the command that makes it failed.
pub fn withdrawn(graph: &BuildGraph) -> (paths: Vec<Vec<u8>>)
    requires
        graph.model().wf(),
    ensures
        ordered_as(
            paths@,
            all_having(graph.model(), Property::Withdrawn, graph.model().edges.len() as int),
        ),
{
    outputs_where(graph, Property::Withdrawn)
}

/// Every output a graph makes only on the way to making one that was asked for.
pub fn peers(graph: &BuildGraph) -> (paths: Vec<Vec<u8>>)
    requires
        graph.model().wf(),
    ensures
        ordered_as(
            paths@,
            all_having(graph.model(), Property::Peer, graph.model().edges.len() as int),
        ),
{
    outputs_where(graph, Property::Peer)
}

/// Every output a graph would delete once the build has finished with it.
pub fn disposable(graph: &BuildGraph) -> (paths: Vec<Vec<u8>>)
    requires
        graph.model().wf(),
    ensures
        ordered_as(
            paths@,
            all_having(graph.model(), Property::Disposable, graph.model().edges.len() as int),
        ),
{
    outputs_where(graph, Property::Disposable)
}

/// Every output a graph reads off the disk again once its command has run.
pub fn reobserved(graph: &BuildGraph) -> (paths: Vec<Vec<u8>>)
    requires
        graph.model().wf(),
    ensures
        ordered_as(
            paths@,
            all_having(graph.model(), Property::Reobserved, graph.model().edges.len() as int),
        ),
{
    outputs_where(graph, Property::Reobserved)
}

/// Every output a graph is allowed to find missing.
pub fn intermediate(graph: &BuildGraph) -> (paths: Vec<Vec<u8>>)
    requires
        graph.model().wf(),
    ensures
        ordered_as(
            paths@,
            all_having(graph.model(), Property::Intermediate, graph.model().edges.len() as int),
        ),
{
    outputs_where(graph, Property::Intermediate)
}

/// A wait, as a reader sees it.
pub open spec fn wait_text(graph: GraphModel, output: usize, input: usize) -> Seq<u8> {
    lossy(graph.nodes[output as int].path) + text(" <- ") + lossy(
        graph.nodes[input as int].path,
    )
}

/// The waits of some outputs for one input.
pub open spec fn waits_of(graph: GraphModel, outputs: Seq<usize>, input: usize) -> Seq<Seq<u8>> {
    Seq::new(outputs.len(), |i: int| wait_text(graph, outputs[i], input))
}

/// The waits for some inputs that an edge forgives a failure of.
pub open spec fn forgiven_among(
    graph: GraphModel,
    outputs: Seq<usize>,
    forgiven: Seq<usize>,
    inputs: Seq<usize>,
) -> Seq<Seq<u8>>
    decreases inputs.len(),
{
    if inputs.len() == 0 {
        Seq::empty()
    } else {
        let before = forgiven_among(graph, outputs, forgiven, inputs.drop_last());
        if forgiven.contains(inputs.last()) {
            before + waits_of(graph, outputs, inputs.last())
        } else {
            before
        }
    }
}

/// The waits the first `count` edges forgive a failure of.
pub open spec fn all_forgiven(graph: GraphModel, count: int) -> Seq<Seq<u8>>
    decreases count,
{
    if count <= 0 {
        Seq::empty()
    } else {
        let edge = graph.edges[count - 1];
        all_forgiven(graph, count - 1) + forgiven_among(
            graph,
            edge.declared.explicit_outputs + edge.declared.implicit_outputs,
            edge.forgiven,
            edge.declared.explicit_inputs + edge.declared.implicit_inputs
                + edge.declared.order_only_inputs,
        )
    }
}

fn inputs_of_edge(graph: &BuildGraph, edge: usize) -> (inputs: Vec<usize>)
    requires
        graph.model().wf(),
        edge < graph.model().edges.len(),
    ensures
        inputs@ == graph.model().edges[edge as int].declared.explicit_inputs
            + graph.model().edges[edge as int].declared.implicit_inputs
            + graph.model().edges[edge as int].declared.order_only_inputs,
        below(inputs@, graph.model().nodes.len()),
{
    let ghost model = graph.model();
    let ghost stored = model.edges[edge as int];
    assert(stored == graph.edges@[edge as int].model());
    assert(edge_ok(stored, model.nodes.len(), model.rules.len(), model.pools.len()));
    let mut inputs: Vec<usize> = crate::graph::copied_ids(
        &graph.edges[edge].declared.explicit_inputs,
    );
    let mut implicit: Vec<usize> = crate::graph::copied_ids(
        &graph.edges[edge].declared.implicit_inputs,
    );
    let mut order: Vec<usize> = crate::graph::copied_ids(
        &graph.edges[edge].declared.order_only_inputs,
    );
    let ghost (first, second, third) = (inputs@, implicit@, order@);
    inputs.append(&mut implicit);
    inputs.append(&mut order);
    assert(inputs@ =~= first + second + third);
    assert forall|i: int| 0 <= i < inputs@.len() implies #[trigger] inputs@[i]
        < model.nodes.len() by {
        if i >= first.len() + second.len() {
            assert(inputs@[i] == third[i - first.len() - second.len()]);
        } else if i >= first.len() {
            assert(inputs@[i] == second[i - first.len()]);
        }
    }
    inputs
}

/// Every wait a graph forgives a failure of, each as its consumer and its
/// input, in their order.
pub fn forgiven_order(graph: &BuildGraph) -> (waits: Vec<Vec<u8>>)
    requires
        graph.model().wf(),
    ensures
        ordered_as(waits@, all_forgiven(graph.model(), graph.model().edges.len() as int)),
{
    let ghost model = graph.model();
    let mut waits: Vec<Vec<u8>> = Vec::new();
    let mut at: usize = 0;
    assert(texts(waits@) =~= Seq::empty());
    while at < graph.edges.len()
        invariant
            at <= graph.edges@.len(),
            model == graph.model(),
            model.wf(),
            model.edges.len() == graph.edges@.len(),
            texts(waits@) == all_forgiven(model, at as int),
        decreases graph.edges@.len() - at,
    {
        assert(model.edges[at as int] == graph.edges@[at as int].model());
        let ghost forgiven = model.edges[at as int].forgiven;
        let outputs: Vec<usize> = outputs_of_edge(graph, at);
        let inputs: Vec<usize> = inputs_of_edge(graph, at);
        let ghost began = texts(waits@);
        let mut input: usize = 0;
        assert(inputs@.take(0) =~= Seq::empty());
        assert(began + Seq::<Seq<u8>>::empty() =~= began);
        while input < inputs.len()
            invariant
                input <= inputs@.len(),
                at < graph.edges@.len(),
                model == graph.model(),
                forgiven == graph.edges@[at as int].forgiven@,
                below(inputs@, model.nodes.len()),
                below(outputs@, model.nodes.len()),
                texts(waits@) == began + forgiven_among(
                    model,
                    outputs@,
                    forgiven,
                    inputs@.take(input as int),
                ),
            decreases inputs@.len() - input,
        {
            let ghost next = inputs@.take(input as int + 1);
            assert(next.drop_last() =~= inputs@.take(input as int));
            assert(next.last() == inputs@[input as int]);
            let ghost stood = texts(waits@);
            if lists(&graph.edges[at].forgiven, inputs[input]) {
                push_waits(&mut waits, graph, &outputs, inputs[input]);
            }
            assert(texts(waits@) =~= began + forgiven_among(model, outputs@, forgiven, next));
            input += 1;
        }
        assert(inputs@.take(input as int) =~= inputs@);
        at += 1;
    }
    ordered(waits)
}

fn push_waits(waits: &mut Vec<Vec<u8>>, graph: &BuildGraph, outputs: &[usize], input: usize)
    requires
        below(outputs@, graph.model().nodes.len()),
        input < graph.model().nodes.len(),
    ensures
        texts(final(waits)@) == texts(old(waits)@) + waits_of(graph.model(), outputs@, input),
{
    let ghost began = texts(waits@);
    let ghost wanted = waits_of(graph.model(), outputs@, input);
    let mut at: usize = 0;
    assert(texts(waits@) =~= began + wanted.take(0));
    while at < outputs.len()
        invariant
            at <= outputs@.len(),
            below(outputs@, graph.model().nodes.len()),
            input < graph.model().nodes.len(),
            wanted == waits_of(graph.model(), outputs@, input),
            texts(waits@) == began + wanted.take(at as int),
        decreases outputs@.len() - at,
    {
        let ghost before = texts(waits@);
        let mut wait: Vec<u8> = to_str_lossy(graph.path(outputs[at]));
        append(&mut wait, " <- ".as_bytes());
        append(&mut wait, &to_str_lossy(graph.path(input)));
        let ghost added = wait@;
        assert(added == wanted[at as int]);
        waits.push(wait);
        assert(texts(waits@) =~= before.push(added));
        assert(texts(waits@) =~= began + wanted.take(at as int + 1));
        at += 1;
    }
    assert(wanted.take(at as int) =~= wanted);
}

/// What a rule was declared with that its two destinations spell differently.
#[derive(Debug)]
pub struct RuleSemantics {
    pub ignored_command: Option<IgnoredCommand>,
    pub recursive: bool,
}

/// What is noted of one build graph on its way to two destinations.
#[derive(Debug)]
pub struct Tee {
    pub rules: Table<usize, RuleSemantics>,
    pub edges: EdgeSemantics,
}

/// Whether a rule was noted as it was declared.
pub open spec fn noted(held: RuleSemantics, rule: SinkRule) -> bool {
    &&& held.recursive == rule.contains_recursive
    &&& match held.ignored_command {
        None => !rule.ignore_errors,
        Some(IgnoredCommand::Inline(script)) => rule.ignore_errors && !rule.command.response_file
            && script@ == rule.command.script@,
        Some(IgnoredCommand::ResponseFile(script)) => rule.ignore_errors
            && rule.command.response_file && script@ == rule.command.script@,
    }
}

/// Each input of a list with the name it is published under.
pub open spec fn equated(names: Seq<(Seq<u8>, Seq<u8>)>) -> Seq<Seq<u8>> {
    Seq::new(names.len(), |i: int| names[i].0.push(0x3d) + names[i].1)
}

/// Whether a grouped action's freshness was noted as it was declared.
pub open spec fn noted_freshness(held: DeferredSemantics, edge: SinkEdge) -> bool {
    &&& texts(held.outputs@) == texts(edge.deferred_freshness_outputs@)
    &&& held.always_dirty_output == edge.deferred_freshness_always_dirty
    &&& texts(held.always_new_inputs@) == texts(edge.deferred_always_new_inputs@)
    &&& texts(held.excluded_new_inputs@) == texts(edge.deferred_excluded_new_inputs@)
    &&& texts(held.new_input_names@) == equated(pairs(edge.deferred_new_input_names@))
    &&& held.completion_join == edge.completion_join
}

fn equate(names: &[(Vec<u8>, Vec<u8>)]) -> (joined_names: Vec<Vec<u8>>)
    ensures
        texts(joined_names@) == equated(pairs(names@)),
{
    let ghost wanted = equated(pairs(names@));
    let mut joined_names: Vec<Vec<u8>> = Vec::new();
    let mut at: usize = 0;
    assert(texts(joined_names@) =~= wanted.take(0));
    while at < names.len()
        invariant
            at <= names@.len(),
            wanted == equated(pairs(names@)),
            wanted.len() == names@.len(),
            texts(joined_names@) == wanted.take(at as int),
        decreases names@.len() - at,
    {
        let ghost before = texts(joined_names@);
        let mut pair: Vec<u8> = copied(&names[at].0);
        pair.push(0x3d);
        append(&mut pair, &names[at].1);
        let ghost added = pair@;
        assert(pairs(names@)[at as int] == (names@[at as int].0@, names@[at as int].1@));
        assert(added == wanted[at as int]);
        joined_names.push(pair);
        assert(texts(joined_names@) =~= before.push(added));
        assert(texts(joined_names@) =~= wanted.take(at as int + 1));
        at += 1;
    }
    assert(wanted.take(at as int) =~= wanted);
    joined_names
}

impl Tee {
    /// Each rule and each output is there once.
    pub open spec fn wf(&self) -> bool {
        self.rules.wf() && self.edges.wf()
    }

    /// Nothing noted yet.
    pub fn new() -> (tee: Self)
        ensures
            tee.wf(),
            tee.rules@ == Map::<usize, RuleSemantics>::empty(),
            tee.edges.ignored@ == Map::<Seq<u8>, IgnoredCommand>::empty(),
            tee.edges.deferred@ == Map::<Seq<u8>, DeferredSemantics>::empty(),
            tee.edges.recursive@.len() == 0,
    {
        Tee {
            rules: Table::new(),
            edges: EdgeSemantics {
                ignored: Table::new(),
                recursive: Vec::new(),
                deferred: Table::new(),
            },
        }
    }

    /// Note a rule as it is declared.
    pub fn declare_rule(&mut self, rule: &SinkRule)
        requires
            old(self).wf(),
        ensures
            final(self).wf(),
            final(self).edges == old(self).edges,
            final(self).rules@ == old(self).rules@.insert(rule.id, final(self).rules@[rule.id]),
            noted(final(self).rules@[rule.id], *rule),
    {
        let ignored_command: Option<IgnoredCommand> = if !rule.ignore_errors {
            None
        } else if rule.command.response_file {
            Some(IgnoredCommand::ResponseFile(copied(&rule.command.script)))
        } else {
            Some(IgnoredCommand::Inline(copied(&rule.command.script)))
        };
        let semantics: RuleSemantics = RuleSemantics {
            ignored_command,
            recursive: rule.contains_recursive,
        };
        self.rules.put(rule.id, semantics);
    }

    /// Note an edge as it is declared, and let its rule go.
    pub fn declare_edge(&mut self, edge: &SinkEdge)
        requires
            old(self).wf(),
        ensures
            final(self).wf(),
            ({
                let rule = match edge.rule {
                    Some(id) => if old(self).rules@.dom().contains(id) {
                        Some(old(self).rules@[id])
                    } else {
                        None
                    },
                    None => None,
                };
                let deferred = edge.deferred_freshness_outputs@.len() > 0 || edge.completion_join;
                &&& final(self).rules@ == (match edge.rule {
                    Some(id) => old(self).rules@.remove(id),
                    None => old(self).rules@,
                })
                &&& final(self).edges.ignored@ == (match rule {
                    Some(held) => match held.ignored_command {
                        Some(command) => old(self).edges.ignored@.insert(edge.output@, command),
                        None => old(self).edges.ignored@,
                    },
                    None => old(self).edges.ignored@,
                })
                &&& texts(final(self).edges.recursive@) == (if rule is Some && rule->0.recursive
                    && !texts(old(self).edges.recursive@).contains(edge.output@) {
                    texts(old(self).edges.recursive@).push(edge.output@)
                } else {
                    texts(old(self).edges.recursive@)
                })
                &&& deferred ==> final(self).edges.deferred@ == old(
                    self).edges.deferred@.insert(
                    edge.output@,
                    final(self).edges.deferred@[edge.output@],
                ) && noted_freshness(final(self).edges.deferred@[edge.output@], *edge)
                &&& !deferred ==> final(self).edges.deferred@ == old(self).edges.deferred@
            }),
    {
        let rule: Option<RuleSemantics> = match edge.rule {
            Some(id) => self.rules.take(&id),
            None => None,
        };
        if let Some(held) = rule {
            if held.recursive && !holds(&self.edges.recursive, &edge.output) {
                let ghost before = texts(self.edges.recursive@);
                self.edges.recursive.push(copied(&edge.output));
                assert(texts(self.edges.recursive@) =~= before.push(edge.output@));
            }
            if let Some(command) = held.ignored_command {
                self.edges.ignored.put(copied(&edge.output), command);
            }
        }
        if edge.deferred_freshness_outputs.len() > 0 || edge.completion_join {
            let held: DeferredSemantics = DeferredSemantics {
                outputs: copied_all(&edge.deferred_freshness_outputs),
                always_dirty_output: edge.deferred_freshness_always_dirty,
                always_new_inputs: copied_all(&edge.deferred_always_new_inputs),
                excluded_new_inputs: copied_all(&edge.deferred_excluded_new_inputs),
                new_input_names: equate(&edge.deferred_new_input_names),
                completion_join: edge.completion_join,
            };
            self.edges.deferred.put(copied(&edge.output), held);
        }
    }
}

/// Every way the two graphs of one Makefile disagree, and how the recursive
/// rules do: as many have to be held back as were declared.
pub fn compare(
    direct: &BuildGraph,
    parsed: &BuildGraph,
    semantics: &EdgeSemantics,
    pending_subninjas: usize,
) -> (found: Vec<Vec<u8>>)
    requires
        direct.model().wf(),
        parsed.model().wf(),
        semantics.wf(),
        makes_something(direct.model()),
        makes_something(parsed.model()),
    ensures
        exists|apart: Seq<Seq<u8>>| #[trigger]
            tells_apart(apart, direct.model(), parsed.model(), *semantics) && texts(found@) == (
            if pending_subninjas == semantics.recursive@.len() {
                apart
            } else {
                apart.push(
                    text("recursive rules: sink held ") + decimal(pending_subninjas as nat) + text(
                        ", boundary declared ",
                    ) + decimal(semantics.recursive@.len()),
                )
            }),
{
    let mut found: Vec<Vec<u8>> = differences(direct, parsed, semantics);
    let ghost apart = texts(found@);
    if pending_subninjas != semantics.recursive.len() {
        let mut said: Vec<u8> = literal("recursive rules: sink held ");
        append(&mut said, &decimal_of(pending_subninjas as u64));
        append(&mut said, ", boundary declared ".as_bytes());
        append(&mut said, &decimal_of(semantics.recursive.len() as u64));
        let ghost added = said@;
        found.push(said);
        assert(texts(found@) =~= apart.push(added));
    }
    found
}

/// What comparing one Makefile produced.
///
/// Refusing is an answer: a Makefile describing a graph neither path can hold
/// should be refused by both.
#[derive(Debug)]
pub enum Compared {
    /// The Makefile itself was rejected, so neither path was reached.
    NotAccepted(Vec<u8>),
    /// Both paths refused the graph it described.
    BothRefused { direct: Vec<u8>, manifest: Vec<u8> },
    OnlyDirectRefused(Vec<u8>),
    OnlyManifestRefused(Vec<u8>),
    /// Both graphs were built, and this is how they disagree.
    Differ(Vec<Vec<u8>>),
}

/// What a whole run over many Makefiles found.
#[derive(Debug)]
pub struct Report {
    pub compared: usize,
    pub not_accepted: Vec<Vec<u8>>,
    pub both_refused: Vec<(Vec<u8>, (Vec<u8>, Vec<u8>))>,
    pub disagreed: Vec<(Vec<u8>, Vec<Vec<u8>>)>,
}

/// What one Makefile adds to the disagreements.
pub open spec fn told_by(outcome: Compared) -> Option<Seq<Seq<u8>>> {
    match outcome {
        Compared::OnlyDirectRefused(why) => Some(
            seq![text("only the direct graph refused it: ") + why@],
        ),
        Compared::OnlyManifestRefused(why) => Some(
            seq![text("only the manifest was refused: ") + why@],
        ),
        Compared::Differ(found) => if found@.len() > 0 {
            Some(texts(found@))
        } else {
            None
        },
        _ => None,
    }
}

impl Report {
    /// Nothing compared yet.
    pub fn new() -> (report: Self)
        ensures
            report.compared == 0,
            report.not_accepted@.len() == 0,
            report.both_refused@.len() == 0,
            report.disagreed@.len() == 0,
    {
        Report {
            compared: 0,
            not_accepted: Vec::new(),
            both_refused: Vec::new(),
            disagreed: Vec::new(),
        }
    }

    /// Take in what comparing one Makefile produced.
    pub fn record(&mut self, case: &[u8], outcome: Compared)
        requires
            old(self).compared < usize::MAX,
        ensures
            final(self).compared == old(self).compared + (if outcome is Differ {
                1int
            } else {
                0
            }),
            texts(final(self).not_accepted@) == (if outcome is NotAccepted {
                texts(old(self).not_accepted@).push(case@)
            } else {
                texts(old(self).not_accepted@)
            }),
            match outcome {
                Compared::BothRefused { direct, manifest } => {
                    &&& final(self).both_refused@.len() == old(self).both_refused@.len() + 1
                    &&& final(self).both_refused@.drop_last() == old(self).both_refused@
                    &&& final(self).both_refused@.last().0@ == case@
                    &&& final(self).both_refused@.last().1 == (direct, manifest)
                },
                _ => final(self).both_refused == old(self).both_refused,
            },
            match told_by(outcome) {
                Some(told) => {
                    &&& final(self).disagreed@.len() == old(self).disagreed@.len() + 1
                    &&& final(self).disagreed@.drop_last() == old(self).disagreed@
                    &&& final(self).disagreed@.last().0@ == case@
                    &&& texts(final(self).disagreed@.last().1@) == told
                },
                None => final(self).disagreed == old(self).disagreed,
            },
    {
        let ghost before = *self;
        match outcome {
            Compared::NotAccepted(_) => {
                self.not_accepted.push(copied(case));
                assert(texts(self.not_accepted@) =~= texts(before.not_accepted@).push(case@));
            },
            Compared::BothRefused { direct, manifest } => {
                self.both_refused.push((copied(case), (direct, manifest)));
                assert(self.both_refused@.drop_last() =~= before.both_refused@);
            },
            Compared::OnlyDirectRefused(why) => {
                let mut told: Vec<Vec<u8>> = Vec::new();
                told.push(crate::error::message("only the direct graph refused it: ", &why));
                assert(texts(told@) =~= seq![text("only the direct graph refused it: ") + why@]);
                self.disagreed.push((copied(case), told));
                assert(self.disagreed@.drop_last() =~= before.disagreed@);
            },
            Compared::OnlyManifestRefused(why) => {
                let mut told: Vec<Vec<u8>> = Vec::new();
                told.push(crate::error::message("only the manifest was refused: ", &why));
                assert(texts(told@) =~= seq![text("only the manifest was refused: ") + why@]);
                self.disagreed.push((copied(case), told));
                assert(self.disagreed@.drop_last() =~= before.disagreed@);
            },
            Compared::Differ(found) => {
                self.compared = self.compared + 1;
                if found.len() > 0 {
                    self.disagreed.push((copied(case), found));
                    assert(self.disagreed@.drop_last() =~= before.disagreed@);
                }
            },
        }
    }

    /// Whether a disagreement is the one already accounted for: one target gets
    /// a variable and no rule, so that a manifest names a default that no
    /// statement mentions and is refused, where the direct graph is refused
    /// only once it is planned.
    pub fn classified(case: &[u8], found: &[Vec<u8>]) -> (answer: bool)
        ensures
            answer == accounted_for(case@, found@),
    {
        if !same(case, "equal_in_target.mk#test".as_bytes()) {
            return false;
        }
        let mut at: usize = 0;
        while at < found.len()
            invariant
                at <= found@.len(),
                case@ == text("equal_in_target.mk#test"),
                forall|i: int|
                    0 <= i < at ==> text_at(
                        (#[trigger] found@[i])@,
                        text("unknown target 'test'"),
                        0,
                    ) is None,
            decreases found@.len() - at,
        {
            if find_text(&found[at], "unknown target 'test'".as_bytes(), 0).is_some() {
                assert(text_at(found@[at as int]@, text("unknown target 'test'"), 0) is Some);
                return true;
            }
            at += 1;
        }
        false
    }
}

impl Report {
    /// How many disagreements are not accounted for.
    pub fn unclassified(&self) -> (count: usize)
        ensures
            count == unaccounted(self.disagreed@),
    {
        let mut count: usize = 0;
        let mut at: usize = 0;
        assert(self.disagreed@.take(0) =~= Seq::empty());
        while at < self.disagreed.len()
            invariant
                at <= self.disagreed@.len(),
                count <= at,
                count == unaccounted(self.disagreed@.take(at as int)),
            decreases self.disagreed@.len() - at,
        {
            let ghost next = self.disagreed@.take(at as int + 1);
            assert(next.drop_last() =~= self.disagreed@.take(at as int));
            assert(next.last() == self.disagreed@[at as int]);
            if !Report::classified(&self.disagreed[at].0, &self.disagreed[at].1) {
                count += 1;
            }
            at += 1;
        }
        assert(self.disagreed@.take(at as int) =~= self.disagreed@);
        count
    }
}

/// Whether a disagreement is the one already accounted for, as its model.
pub open spec fn accounted_for(case: Seq<u8>, found: Seq<Vec<u8>>) -> bool {
    case == text("equal_in_target.mk#test") && exists|i: int|
        0 <= i < found.len() && text_at(
            (#[trigger] found[i])@,
            text("unknown target 'test'"),
            0,
        ) is Some
}

/// How many disagreements of a list are not accounted for.
pub open spec fn unaccounted(disagreed: Seq<(Vec<u8>, Vec<Vec<u8>>)>) -> nat
    decreases disagreed.len(),
{
    if disagreed.len() == 0 {
        0
    } else {
        unaccounted(disagreed.drop_last()) + (if accounted_for(
            disagreed.last().0@,
            disagreed.last().1@,
        ) {
            0nat
        } else {
            1nat
        })
    }
}

/// How many digits a text begins with, from `at` on.
pub open spec fn digit_run(bytes: Seq<u8>, at: int) -> int
    decreases bytes.len() - at,
{
    if at < 0 || at >= bytes.len() || !(0x30 <= bytes[at] <= 0x39) {
        at
    } else {
        digit_run(bytes, at + 1)
    }
}

/// Where a line ends.
pub open spec fn line_end(source: Seq<u8>, at: int) -> int
    decreases source.len() - at,
{
    if at < 0 || at >= source.len() || source[at] == 0x0a {
        at
    } else {
        line_end(source, at + 1)
    }
}

proof fn lines_end(source: Seq<u8>, at: int)
    requires
        0 <= at <= source.len(),
    ensures
        at <= line_end(source, at) <= source.len(),
    decreases source.len() - at,
{
    if at < source.len() && source[at] != 0x0a {
        lines_end(source, at + 1);
    }
}

/// The test target a line declares, where it declares one.
pub open spec fn test_on(line: Seq<u8>) -> Option<Seq<u8>> {
    if begins(line, text("test")) {
        Some(line.take(digit_run(line, text("test").len() as int)))
    } else {
        None
    }
}

/// A list with an item it does not hold yet.
pub open spec fn with_new(list: Seq<Seq<u8>>, item: Option<Seq<u8>>) -> Seq<Seq<u8>> {
    match item {
        Some(held) => if list.contains(held) {
            list
        } else {
            list.push(held)
        },
        None => list,
    }
}

/// The test targets a source declares from a line on, each once.
pub open spec fn tests_in(source: Seq<u8>, at: int, known: Seq<Seq<u8>>) -> Seq<Seq<u8>>
    decreases source.len() - at,
    when 0 <= at <= source.len()
    via tests_in_ends
{
    let end = line_end(source, at);
    let more = with_new(known, test_on(source.subrange(at, end)));
    if end < source.len() {
        tests_in(source, end + 1, more)
    } else {
        more
    }
}

#[via_fn]
proof fn tests_in_ends(source: Seq<u8>, at: int, known: Seq<Seq<u8>>) {
    lines_end(source, at);
}

/// Each test target a source declares, in their order, or one run with no name
/// where it declares none.
pub fn declared_targets(source: &[u8]) -> (targets: Vec<Option<Vec<u8>>>)
    ensures
        ({
            let found = tests_in(source@, 0, Seq::empty());
            if found.len() == 0 {
                targets@.len() == 1 && targets@[0] is None
            } else {
                exists|names: Seq<Vec<u8>>| #[trigger]
                    ordered_as(names, found) && targets@ == Seq::new(
                        names.len(),
                        |i: int| Some(names[i]),
                    )
            }
        }),
{
    let mut found: Vec<Vec<u8>> = Vec::new();
    let mut at: usize = 0;
    let mut more: bool = true;
    assert(texts(found@) =~= Seq::empty());
    while more
        invariant
            at <= source@.len(),
            more ==> tests_in(source@, at as int, texts(found@)) == tests_in(
                source@,
                0,
                Seq::empty(),
            ),
            !more ==> texts(found@) == tests_in(source@, 0, Seq::empty()),
        decreases source@.len() - at + (if more {
            1int
        } else {
            0
        }),
    {
        proof {
            lines_end(source@, at as int);
        }
        let mut end: usize = at;
        while end < source.len() && source[end] != 0x0a
            invariant
                at <= end <= source@.len(),
                line_end(source@, end as int) == line_end(source@, at as int),
            decreases source@.len() - end,
        {
            end += 1;
        }
        let line: Vec<u8> = part(source, at, end);
        let ghost known = texts(found@);
        if starts_with(&line, "test".as_bytes()) {
            let start: usize = "test".as_bytes().len();
            let mut digits: usize = start;
            while digits < line.len() && 0x30 <= line[digits] && line[digits] <= 0x39
                invariant
                    start <= digits <= line@.len(),
                    digit_run(line@, digits as int) == digit_run(line@, start as int),
                decreases line@.len() - digits,
            {
                digits += 1;
            }
            let target: Vec<u8> = part(&line, 0, digits);
            assert(target@ =~= line@.take(digits as int));
            let ghost added = target@;
            if !holds(&found, &target) {
                found.push(target);
                assert(texts(found@) =~= known.push(added));
            }
        }
        assert(texts(found@) == with_new(known, test_on(line@)));
        if end < source.len() {
            at = end + 1;
        } else {
            at = end;
            more = false;
        }
    }
    let mut targets: Vec<Option<Vec<u8>>> = Vec::new();
    assert(texts(found@).len() == found@.len());
    if found.len() == 0 {
        targets.push(None);
        return targets;
    }
    let names: Vec<Vec<u8>> = ordered(found);
    let ghost all = names@;
    let mut left: Vec<Vec<u8>> = names;
    let count: usize = left.len();
    assert(all.skip(0) =~= all);
    while targets.len() < count
        invariant
            targets@.len() <= count,
            count == all.len(),
            left@ == all.skip(targets@.len() as int),
            forall|i: int| 0 <= i < targets@.len() ==> #[trigger] targets@[i] == Some(all[i]),
        decreases count - targets@.len(),
    {
        let name: Vec<u8> = left.remove(0);
        targets.push(Some(name));
        assert(left@ =~= all.skip(targets@.len() as int));
    }
    assert(targets@ =~= Seq::new(all.len(), |i: int| Some(all[i])));
    targets
}

} // verus!
