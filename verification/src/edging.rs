//! What one declared edge does to the graph.

use crate::bytes::{
    append, copied, copied_all, copied_maybe, decimal, decimal_of, literal, maybe, text, texts,
};
use crate::error::message;
use crate::graph::{
    below, copied_ids, deferred_model, deferred_ok, edge_values, Deferred, DeferredModel,
    EdgeDeclared, EdgeModel, FrontendError, Refusal, SearchedModel,
};
use crate::invocation::push_text;
use crate::sink::{
    subninja_rule_ok, values_below, GraphSink, Pending, SettledName, SinkEdge, SinkModel,
    SubninjaRule, UnitModel,
};
use crate::table::Key;
use vstd::prelude::*;
use vstd::string::*;

verus! {

/// Every name an edge resolves, in the order it resolves them.
pub open spec fn edge_names(edge: SinkEdge) -> Seq<Seq<u8>> {
    seq![edge.output@] + texts(edge.implicit_outputs@) + texts(edge.inputs@) + texts(
        edge.order_only_inputs@,
    ) + texts(edge.forgiven_order_only_inputs@) + texts(edge.withdrawable_outputs@) + texts(
        edge.peer_outputs@,
    ) + texts(edge.disposable_outputs@)
}

/// The nodes an edge's names stand for.
pub ghost struct EdgeNodes {
    pub output: usize,
    pub implicit_outputs: Seq<usize>,
    pub inputs: Seq<usize>,
    pub order_only_inputs: Seq<usize>,
    pub forgiven: Seq<usize>,
    pub withdrawable: Seq<usize>,
    pub peers: Seq<usize>,
    pub disposable: Seq<usize>,
}

/// The nodes an edge's names stand for, told apart.
pub open spec fn edge_nodes(edge: SinkEdge, nodes: Seq<usize>) -> EdgeNodes {
    let implicit = 1 + edge.implicit_outputs@.len() as int;
    let inputs = implicit + edge.inputs@.len();
    let order_only = inputs + edge.order_only_inputs@.len();
    let forgiven = order_only + edge.forgiven_order_only_inputs@.len();
    let withdrawable = forgiven + edge.withdrawable_outputs@.len();
    let peers = withdrawable + edge.peer_outputs@.len();
    let disposable = peers + edge.disposable_outputs@.len();
    EdgeNodes {
        output: nodes[0],
        implicit_outputs: nodes.subrange(1, implicit),
        inputs: nodes.subrange(implicit, inputs),
        order_only_inputs: nodes.subrange(inputs, order_only),
        forgiven: nodes.subrange(order_only, forgiven),
        withdrawable: nodes.subrange(forgiven, withdrawable),
        peers: nodes.subrange(withdrawable, peers),
        disposable: nodes.subrange(peers, disposable),
    }
}

/// The nodes an edge's names stand for.
pub struct ResolvedEdge {
    pub output: usize,
    pub implicit_outputs: Vec<usize>,
    pub inputs: Vec<usize>,
    pub order_only_inputs: Vec<usize>,
    pub forgiven: Vec<usize>,
    pub withdrawable: Vec<usize>,
    pub peers: Vec<usize>,
    pub disposable: Vec<usize>,
}

impl ResolvedEdge {
    /// The nodes as their model.
    pub open spec fn model(&self) -> EdgeNodes {
        EdgeNodes {
            output: self.output,
            implicit_outputs: self.implicit_outputs@,
            inputs: self.inputs@,
            order_only_inputs: self.order_only_inputs@,
            forgiven: self.forgiven@,
            withdrawable: self.withdrawable@,
            peers: self.peers@,
            disposable: self.disposable@,
        }
    }
}

/// Whether every node is one of the first `count`.
pub open spec fn nodes_ok(held: EdgeNodes, count: nat) -> bool {
    &&& held.output < count
    &&& below(held.implicit_outputs, count)
    &&& below(held.inputs, count)
    &&& below(held.order_only_inputs, count)
    &&& below(held.forgiven, count)
    &&& below(held.withdrawable, count)
    &&& below(held.peers, count)
    &&& below(held.disposable, count)
}

/// The nodes from `start` up to `end`.
fn ids_between(list: &[usize], start: usize, end: usize) -> (ids: Vec<usize>)
    requires
        start <= end <= list@.len(),
    ensures
        ids@ == list@.subrange(start as int, end as int),
{
    copied_ids(vstd::slice::slice_subrange(list, start, end))
}

/// Add copies of some names to a list.
fn push_names(list: &mut Vec<Vec<u8>>, names: &[Vec<u8>])
    ensures
        texts(final(list)@) == texts(old(list)@) + texts(names@),
{
    let ghost before = texts(list@);
    let mut more: Vec<Vec<u8>> = copied_all(names);
    let ghost added = more@;
    let ghost stood = list@;
    list.append(&mut more);
    assert(list@ =~= stood + added);
    assert(texts(list@) =~= before + texts(added));
}

/// The names of pairs.
pub open spec fn first_names(pairs: Seq<(Vec<u8>, Vec<u8>)>) -> Seq<Seq<u8>> {
    Seq::new(pairs.len(), |i: int| pairs[i].0@)
}

/// Every name a deferred edge resolves besides the files it defers to.
pub open spec fn deferred_names(edge: SinkEdge) -> Seq<Seq<u8>> {
    texts(edge.deferred_always_new_inputs@) + texts(edge.deferred_excluded_new_inputs@)
        + first_names(edge.deferred_new_input_names@)
}

/// The variable a deferred recipe reads its new inputs from.
pub open spec fn new_inputs_variable() -> Seq<u8> {
    text("KATI_NEW_INPUTS")
}

/// A deferred edge, once its names stand for nodes.
pub open spec fn deferred_of(
    edge: SinkEdge,
    outputs: Seq<usize>,
    nodes: Seq<usize>,
    directory: Seq<u8>,
) -> DeferredModel {
    let always = edge.deferred_always_new_inputs@.len() as int;
    let excluded = always + edge.deferred_excluded_new_inputs@.len();
    DeferredModel {
        outputs,
        always_dirty_output: edge.deferred_freshness_always_dirty,
        dates_do_not_decide: edge.deferred_freshness_ignores_dates,
        heads_the_group: edge.deferred_freshness_heads_the_record,
        always_new_inputs: nodes.subrange(0, always),
        excluded_new_inputs: nodes.subrange(always, excluded),
        new_input_names: Seq::new(
            edge.deferred_new_input_names@.len(),
            |i: int| (nodes[excluded + i], edge.deferred_new_input_names@[i].1@),
        ),
        new_inputs_variable: new_inputs_variable(),
        new_inputs_directories_variable: edge.deferred_new_input_directories@,
        new_inputs_filenames_variable: edge.deferred_new_input_filenames@,
        new_inputs_directory: directory,
    }
}

/// A deferred edge, or why it could not be resolved, as its model.
pub open spec fn deferred_result(result: Result<Option<Deferred>, FrontendError>) -> Result<
    Option<DeferredModel>,
    Refusal,
> {
    match result {
        Ok(deferred) => Ok(deferred_model(deferred)),
        Err(why) => Err(why.model()),
    }
}

impl SinkModel {
    /// What an edge leaves to be decided by other files, where it does.
    pub open spec fn with_deferred(self, edge: SinkEdge) -> (
        SinkModel,
        Result<Option<DeferredModel>, Refusal>,
    ) {
        let (first, outputs) = self.with_observed_nodes(texts(edge.deferred_freshness_outputs@));
        match outputs {
            Err(refusal) => (first, Err(refusal)),
            Ok(files) => if files.len() == 0 {
                (first, Ok(None))
            } else {
                let (second, nodes) = first.with_nodes(deferred_names(edge));
                match nodes {
                    Err(refusal) => (second, Err(refusal)),
                    Ok(list) => (
                        second,
                        Ok(Some(deferred_of(edge, files, list, self.unit.path_prefix))),
                    ),
                }
            },
        }
    }

    /// The pool an edge runs in, where it runs in one: the one it names, or the
    /// unit's own for an edge that runs a command.
    pub open spec fn edge_pool(self, edge: SinkEdge) -> Option<Seq<u8>> {
        match maybe(edge.pool) {
            Some(pool) => Some(pool),
            None => match edge.rule {
                Some(id) => if self.subninja_rules.dom().contains(id)
                    && self.subninja_rules[id].residual_rule is None {
                    None
                } else {
                    match self.unit.serial_pool {
                        Some(pool) => Some(pool),
                        None => match self.unit.job_pool {
                            Some(pool) => Some(pool.0),
                            None => None,
                        },
                    }
                },
                None => None,
            },
        }
    }

    /// What an edge binds for itself.
    pub open spec fn edge_bindings(self, edge: SinkEdge) -> Seq<(usize, Seq<u8>)> {
        match self.edge_pool(edge) {
            Some(pool) => seq![(self.bindings.pool, pool)],
            None => Seq::empty(),
        }
    }

    /// The outputs an edge is published under: its own, or for an edge that
    /// only stands for its output's completion, a stand-in of its own, which
    /// every later name of the output then stands for.
    pub open spec fn with_published(self, edge: SinkEdge, output: usize) -> (SinkModel, usize) {
        if edge.completion_join {
            let (graph, proxy) = self.graph.with_isolated_node(
                text("__ronin_completion_") + decimal(self.completion_proxies as nat),
            );
            (
                SinkModel {
                    graph,
                    interned: self.interned.insert(edge.output@, proxy),
                    observed_members: self.observed_members.insert(edge.output@, output),
                    completion_proxies: (self.completion_proxies + 1) as usize,
                    ..self
                },
                proxy,
            )
        } else {
            (self, output)
        }
    }

    /// Whether an edge of this unit makes a file an enclosing unit makes.
    pub open spec fn made_around(self, outputs: Seq<usize>) -> bool {
        exists|i: int, path: Seq<u8>|
            0 <= i < outputs.len() && self.unit.enclosing.dom().contains(path)
                && self.unit.enclosing[path] == outputs[i]
    }
}

impl GraphSink {
    /// Resolve every name an edge gives.
    pub(crate) fn resolve_edge(&mut self, edge: &SinkEdge) -> (held: Result<ResolvedEdge, FrontendError>)
        requires
            old(self).wf(),
        ensures
            final(self).wf(),
            final(self).settled_as(*old(self)),
            match old(self).model().with_nodes(edge_names(*edge)) {
                (after, Ok(nodes)) => {
                    &&& final(self).model() == after
                    &&& held matches Ok(resolved) && resolved.model() == edge_nodes(*edge, nodes)
                        && nodes_ok(resolved.model(), after.graph.nodes.len())
                },
                (after, Err(refusal)) => {
                    &&& final(self).model() == after
                    &&& held matches Err(why) && why.model() == refusal
                },
            },
    {
        let mut names: Vec<Vec<u8>> = Vec::new();
        push_text(&mut names, copied(&edge.output));
        assert(texts(names@) =~= seq![edge.output@]);
        push_names(&mut names, &edge.implicit_outputs);
        let implicit: usize = names.len();
        push_names(&mut names, &edge.inputs);
        let inputs: usize = names.len();
        push_names(&mut names, &edge.order_only_inputs);
        let order_only: usize = names.len();
        push_names(&mut names, &edge.forgiven_order_only_inputs);
        let forgiven: usize = names.len();
        push_names(&mut names, &edge.withdrawable_outputs);
        let withdrawable: usize = names.len();
        push_names(&mut names, &edge.peer_outputs);
        let peers: usize = names.len();
        push_names(&mut names, &edge.disposable_outputs);
        assert(texts(names@) == edge_names(*edge));
        match self.node_list(&names) {
            Ok(nodes) => {
                let resolved = ResolvedEdge {
                    output: nodes[0],
                    implicit_outputs: ids_between(&nodes, 1, implicit),
                    inputs: ids_between(&nodes, implicit, inputs),
                    order_only_inputs: ids_between(&nodes, inputs, order_only),
                    forgiven: ids_between(&nodes, order_only, forgiven),
                    withdrawable: ids_between(&nodes, forgiven, withdrawable),
                    peers: ids_between(&nodes, withdrawable, peers),
                    disposable: ids_between(&nodes, peers, nodes.len()),
                };
                assert(resolved.model() == edge_nodes(*edge, nodes@));
                Ok(resolved)
            },
            Err(why) => Err(why),
        }
    }

    /// What an edge leaves to be decided by other files, where it does.
    pub fn deferred_edge(&mut self, edge: &SinkEdge) -> (deferred: Result<
        Option<Deferred>,
        FrontendError,
    >)
        requires
            old(self).wf(),
        ensures
            final(self).wf(),
            final(self).settled_as(*old(self)),
            (final(self).model(), deferred_result(deferred)) == old(self).model().with_deferred(
                *edge,
            ),
            deferred matches Ok(Some(held)) ==> deferred_ok(
                held.model(),
                final(self).model().graph.nodes.len(),
            ),
            old(self).model().graph.nodes.len() <= final(self).model().graph.nodes.len(),
    {
        let outputs: Vec<usize> = match self.observed_list(&edge.deferred_freshness_outputs) {
            Ok(outputs) => outputs,
            Err(why) => return Err(why),
        };
        if outputs.len() == 0 {
            return Ok(None);
        }
        let mut names: Vec<Vec<u8>> = Vec::new();
        push_names(&mut names, &edge.deferred_always_new_inputs);
        let always: usize = names.len();
        push_names(&mut names, &edge.deferred_excluded_new_inputs);
        let excluded: usize = names.len();
        let mut at: usize = 0;
        let ghost known = texts(names@);
        let ghost more = first_names(edge.deferred_new_input_names@);
        assert(known + more.take(0) =~= known);
        while at < edge.deferred_new_input_names.len()
            invariant
                at <= edge.deferred_new_input_names@.len(),
                more == first_names(edge.deferred_new_input_names@),
                texts(names@) == known + more.take(at as int),
            decreases edge.deferred_new_input_names@.len() - at,
        {
            push_text(&mut names, copied(&edge.deferred_new_input_names[at].0));
            assert(texts(names@) =~= known + more.take(at as int + 1));
            at += 1;
        }
        assert(more.take(at as int) =~= more);
        assert(texts(names@) =~= deferred_names(*edge));
        let ghost directory = self.unit.path_prefix@;
        let nodes: Vec<usize> = match self.node_list(&names) {
            Ok(nodes) => nodes,
            Err(why) => return Err(why),
        };
        let ghost wanted = deferred_of(*edge, outputs@, nodes@, directory);
        let mut new_input_names: Vec<(usize, Vec<u8>)> = Vec::new();
        let mut at: usize = 0;
        while at < edge.deferred_new_input_names.len()
            invariant
                at <= edge.deferred_new_input_names@.len(),
                nodes@.len() == excluded + edge.deferred_new_input_names@.len(),
                excluded == edge.deferred_always_new_inputs@.len()
                    + edge.deferred_excluded_new_inputs@.len(),
                wanted == deferred_of(*edge, outputs@, nodes@, directory),
                edge_values(new_input_names@) == wanted.new_input_names.take(at as int),
            decreases edge.deferred_new_input_names@.len() - at,
        {
            let total: usize = nodes.len();
            assert(excluded + at < total);
            let ghost stood = edge_values(new_input_names@);
            new_input_names.push(
                (nodes[excluded + at], copied(&edge.deferred_new_input_names[at].1)),
            );
            assert(edge_values(new_input_names@) =~= stood.push(
                (nodes@[excluded + at], edge.deferred_new_input_names@[at as int].1@),
            ));
            assert(wanted.new_input_names[at as int] == (
                nodes@[excluded + at],
                edge.deferred_new_input_names@[at as int].1@,
            ));
            assert(edge_values(new_input_names@) =~= wanted.new_input_names.take(at as int + 1));
            at += 1;
        }
        assert(wanted.new_input_names.take(at as int) =~= wanted.new_input_names);
        let held = Deferred {
            outputs,
            always_dirty_output: edge.deferred_freshness_always_dirty,
            dates_do_not_decide: edge.deferred_freshness_ignores_dates,
            heads_the_group: edge.deferred_freshness_heads_the_record,
            always_new_inputs: ids_between(&nodes, 0, always),
            excluded_new_inputs: ids_between(&nodes, always, excluded),
            new_input_names,
            new_inputs_variable: literal("KATI_NEW_INPUTS"),
            new_inputs_directories_variable: copied(&edge.deferred_new_input_directories),
            new_inputs_filenames_variable: copied(&edge.deferred_new_input_filenames),
            new_inputs_directory: copied(&self.unit.path_prefix),
        };
        proof {
            observing_keeps_the_unit(
                *old(self),
                texts(edge.deferred_freshness_outputs@),
            );
            nodes_keep_the_unit(
                old(self).model().with_observed_nodes(texts(edge.deferred_freshness_outputs@)).0,
                deferred_names(*edge),
            );
            assert(self.unit.path_prefix@ == old(self).unit.path_prefix@);
            assert(held.model() == wanted);
        }
        Ok(Some(held))
    }

    /// What an edge binds for itself.
    pub fn edge_bindings(&self, edge: &SinkEdge) -> (bindings: Vec<(usize, Vec<u8>)>)
        requires
            self.wf(),
        ensures
            edge_values(bindings@) == self.model().edge_bindings(*edge),
    {
        let mut bindings: Vec<(usize, Vec<u8>)> = Vec::new();
        let mut pool: Option<Vec<u8>> = copied_maybe(&edge.pool);
        if pool.is_none() {
            if let Some(id) = edge.rule {
                let runs: bool = match self.subninja_rules.get(&id) {
                    Some(rule) => rule.residual_rule.is_some(),
                    None => true,
                };
                if runs {
                    pool = copied_maybe(&self.unit.serial_pool);
                    if pool.is_none() {
                        if let Some(held) = &self.unit.job_pool {
                            pool = Some(copied(&held.0));
                        }
                    }
                }
            }
        }
        assert(maybe(pool) == self.model().edge_pool(*edge));
        if let Some(name) = pool {
            bindings.push((self.bindings.pool, name));
        }
        assert(edge_values(bindings@) =~= self.model().edge_bindings(*edge));
        bindings
    }

    /// The output an edge is published under.
    pub fn published_outputs(&mut self, edge: &SinkEdge, output: usize) -> (published: usize)
        requires
            old(self).wf(),
            output < old(self).model().graph.nodes.len(),
        ensures
            final(self).wf(),
            final(self).settled_as(*old(self)),
            (final(self).model(), published) == old(self).model().with_published(*edge, output),
            published < final(self).model().graph.nodes.len(),
            old(self).model().graph.nodes.len() <= final(self).model().graph.nodes.len(),
    {
        if !edge.completion_join {
            return output;
        }
        let ghost before = self.model();
        let name: Vec<u8> = message(
            "__ronin_completion_",
            &decimal_of(self.completion_proxies as u64),
        );
        proof {
            proxy_has_a_name(name@, self.completion_proxies as nat);
        }
        let proxy: usize = match self.graph.isolated_node(&name) {
            Ok(proxy) => proxy,
            Err(_) => output,
        };
        self.completion_proxies = self.completion_proxies + 1;
        self.interned.put(copied(&edge.output), proxy);
        self.observed_members.put(copied(&edge.output), output);
        proof {
            let after = self.model();
            assert(after.graph.wf());
            assert(values_below(after.interned, after.graph.nodes.len()));
            assert(values_below(after.observed_members, after.graph.nodes.len()));
            assert(values_below(after.unit.enclosing, after.graph.nodes.len()));
            assert(values_below(after.unit.generated, after.graph.nodes.len()));
            assert(values_below(after.rules, after.graph.rules.len()));
            assert(values_below(after.mentions, after.graph.edges.len()));
            assert(after.completion_proxies + after.recipe_stages <= after.graph.nodes.len());
            assert(below(after.unit.targets, after.graph.nodes.len()));
            assert(below(after.unit.edges, after.graph.edges.len()));
            assert(after.subninja_rules == before.subninja_rules);
            assert(after.graph.rules == before.graph.rules);
            assert(self.subninja_probe < self.graph.model().rules.len());
            assert(self.interned.wf() && self.observed_members.wf());
            assert forall|i: int| 0 <= i < after.unit.subninjas.len() implies (
            #[trigger] after.unit.subninjas[i]).ok(
                after.graph.nodes.len(),
                after.graph.rules.len(),
            ) by {
                assert(before.unit.subninjas[i].ok(
                    before.graph.nodes.len(),
                    before.graph.rules.len(),
                ));
            }
            assert(after.wf());
        }
        proxy
    }
}

proof fn proxy_has_a_name(name: Seq<u8>, count: nat)
    requires
        name == text("__ronin_completion_") + decimal(count),
    ensures
        name.len() > 0,
{
    assert(decimal(count).len() > 0);
}

proof fn nodes_keep_the_unit(sink: SinkModel, names: Seq<Seq<u8>>)
    ensures
        sink.with_nodes(names).0.unit == sink.unit,
    decreases names.len(),
{
    if names.len() > 0 {
        nodes_keep_the_unit(sink, names.drop_last());
    }
}

proof fn observing_keeps_the_unit(sink: GraphSink, names: Seq<Seq<u8>>)
    ensures
        sink.model().with_observed_nodes(names).0.unit == sink.model().unit,
    decreases names.len(),
{
    if names.len() > 0 {
        observing_keeps_the_unit(sink, names.drop_last());
    }
}

/// A sink that holds what it held, over a graph that only grew, still fits
/// together.
pub(crate) proof fn grown_still_fits(before: SinkModel, after: SinkModel)
    requires
        before.wf(),
        after.graph.wf(),
        before.graph.nodes.len() <= after.graph.nodes.len(),
        before.graph.edges.len() <= after.graph.edges.len(),
        before.graph.rules.len() <= after.graph.rules.len(),
        after.unit == before.unit,
        after.interned == before.interned,
        after.observed_members == before.observed_members,
        after.rules.submap_of(before.rules),
        after.mentions.submap_of(before.mentions),
        after.subninja_rules.submap_of(before.subninja_rules),
        after.completion_proxies + after.recipe_stages <= after.graph.nodes.len(),
    ensures
        after.wf(),
{
    let (nodes, rules) = (after.graph.nodes.len(), after.graph.rules.len());
    assert forall|i: int| 0 <= i < after.unit.subninjas.len() implies (
    #[trigger] after.unit.subninjas[i]).ok(nodes, rules) by {
        assert(before.unit.subninjas[i].ok(before.graph.nodes.len(), before.graph.rules.len()));
    }
    assert forall|id: usize| #[trigger] after.subninja_rules.dom().contains(
        id,
    ) implies subninja_rule_ok(after.subninja_rules[id], rules) by {
        assert(before.subninja_rules.dom().contains(id));
        assert(subninja_rule_ok(before.subninja_rules[id], before.graph.rules.len()));
    }
    assert forall|id: usize| #[trigger] after.rules.dom().contains(id) implies after.rules[id]
        < rules by {
        assert(before.rules.dom().contains(id));
    }
    assert forall|id: usize| #[trigger] after.mentions.dom().contains(id) implies after.mentions[id]
        < after.graph.edges.len() by {
        assert(before.mentions.dom().contains(id));
    }
    assert(values_below(after.interned, nodes));
    assert(values_below(after.observed_members, nodes));
    assert(values_below(after.unit.enclosing, nodes));
    assert(values_below(after.unit.generated, nodes));
}

/// Whether an edge says nothing but its target's name.
pub open spec fn only_a_name(edge: SinkEdge) -> bool {
    &&& edge.rule is None
    &&& edge.implicit_outputs@.len() == 0
    &&& edge.inputs@.len() == 0
    &&& edge.order_only_inputs@.len() == 0
    &&& edge.deferred_freshness_outputs@.len() == 0
    &&& !edge.always_dirty
    &&& !edge.completion_join
}

/// Whether an edge says nothing but its target's name.
pub fn mentions_only_its_name(edge: &SinkEdge) -> (answer: bool)
    ensures
        answer == only_a_name(*edge),
{
    edge.rule.is_none() && edge.implicit_outputs.len() == 0 && edge.inputs.len() == 0
        && edge.order_only_inputs.len() == 0 && edge.deferred_freshness_outputs.len() == 0
        && !edge.always_dirty && !edge.completion_join
}

/// The target a search of an edge's names is about.
pub open spec fn searched_node(edge: SinkEdge, output: usize, published: usize) -> usize {
    if edge.completion_join {
        output
    } else {
        published
    }
}

/// The inputs settled names read.
pub open spec fn settled_inputs(names: Seq<SettledName>) -> Seq<Seq<u8>> {
    Seq::new(names.len(), |i: int| names[i].input@)
}

/// A node behind a name that may not be there.
pub open spec fn beside(node: usize, name: Option<Vec<u8>>) -> Option<(usize, Seq<u8>)> {
    match maybe(name) {
        Some(held) => Some((node, held)),
        None => None,
    }
}

/// The names a search settled for an edge.
pub open spec fn searched_of(
    edge: SinkEdge,
    target: usize,
    nodes: Seq<usize>,
    directory: Seq<u8>,
) -> SearchedModel {
    SearchedModel {
        declared: beside(target, edge.declared_by_double_colon),
        found: beside(target, edge.searched_at),
        written: beside(target, edge.written_as),
        directory,
        references: Seq::new(
            edge.settled_names@.len(),
            |i: int|
                (
                    edge.settled_names@[i].variable@,
                    (nodes[i], edge.settled_names@[i].view),
                ),
        ),
    }
}

impl SinkModel {
    /// Without the rule an edge names.
    pub open spec fn without_rule(self, rule: Option<usize>) -> SinkModel {
        match rule {
            Some(id) => SinkModel {
                rules: self.rules.remove(id),
                deferred_rules: self.deferred_rules.remove(id),
                subninja_rules: self.subninja_rules.remove(id),
                ..self
            },
            None => self,
        }
    }

    /// With every edge that only names one of these files taken off it.
    pub open spec fn with_mentions_released(self, nodes: Seq<usize>) -> SinkModel
        decreases nodes.len(),
    {
        if nodes.len() == 0 {
            self
        } else {
            let before = self.with_mentions_released(nodes.drop_last());
            let node = nodes.last();
            if before.mentions.dom().contains(node) {
                SinkModel {
                    graph: before.graph.with_released(before.mentions[node], node),
                    mentions: before.mentions.remove(node),
                    ..before
                }
            } else {
                before
            }
        }
    }

    /// With the files an edge with a recipe makes known as this unit's.
    pub open spec fn with_generated(self, edge: SinkEdge, nodes: Seq<usize>) -> SinkModel
        decreases nodes.len(),
    {
        if nodes.len() == 0 || edge.rule is None || edge.always_dirty || edge.completion_join {
            self
        } else {
            let before = self.with_generated(edge, nodes.drop_last());
            let path = before.graph.nodes[nodes.last() as int].path;
            SinkModel {
                unit: UnitModel {
                    generated: before.unit.generated.insert(path, nodes.last()),
                    ..before.unit
                },
                ..before
            }
        }
    }

    /// An edge as the graph is told of it.
    pub open spec fn edge_declared(
        self,
        edge: SinkEdge,
        rule: usize,
        held: EdgeNodes,
        published: usize,
        bindings: Seq<(usize, Seq<u8>)>,
    ) -> EdgeDeclared {
        EdgeDeclared {
            scope: self.unit.scope,
            rule,
            explicit_outputs: seq![published],
            implicit_outputs: held.implicit_outputs,
            explicit_inputs: held.inputs,
            implicit_inputs: Seq::empty(),
            order_only_inputs: held.order_only_inputs,
            validations: Seq::empty(),
            always_dirty: edge.always_dirty,
            intermediate: edge.intermediate,
            has_touchable_recipe: edge.has_touchable_recipe,
            outputs_unaliased: edge.rule is None,
            outputs_low_resolution: edge.low_resolution,
            bindings,
        }
    }

    /// A recursive edge as it is held.
    pub open spec fn pending_of(
        self,
        edge: SinkEdge,
        rule: SubninjaRule,
        held: EdgeNodes,
        published: usize,
        deferred: Option<DeferredModel>,
        bindings: Seq<(usize, Seq<u8>)>,
    ) -> Pending {
        Pending {
            invocations: rule.invocations@,
            scope: self.unit.scope,
            residual_rule: rule.residual_rule,
            residual_script: rule.residual_script,
            diagnostic_command: rule.diagnostic_command@,
            explicit_outputs: seq![published],
            implicit_outputs: held.implicit_outputs,
            inputs: held.inputs,
            order_only_inputs: held.order_only_inputs,
            forgiven_order_inputs: held.forgiven,
            always_dirty: edge.always_dirty,
            deferred,
            completion_output: if edge.completion_join {
                Some(held.output)
            } else {
                None
            },
            intermediate: edge.intermediate,
            disposable_outputs: held.disposable,
            low_resolution: edge.low_resolution,
            withdrawable: held.withdrawable,
            delete_on_error: edge.delete_on_error,
            peer_outputs: held.peers,
            bindings,
        }
    }

    /// With what an edge just built is told besides its declaration, up to the
    /// names a search settled for it.
    #[verifier::opaque]
    pub open spec fn with_told(self, edge: SinkEdge, held: EdgeNodes, built: usize) -> SinkModel {
        let first = self.graph.with_disposable(held.disposable);
        let second = first.with_edge(
            built,
            EdgeModel {
                outputs_reobserved: true,
                withdrawable: held.withdrawable,
                delete_on_error: edge.delete_on_error,
                peers: held.peers,
                ..first.edges[built as int]
            },
        );
        let late = match edge.rule {
            Some(id) => SinkModel {
                deferred_edges: if self.deferred_rules.dom().contains(id) {
                    self.deferred_edges.push((built, self.deferred_rules[id]))
                } else {
                    self.deferred_edges
                },
                deferred_rules: self.deferred_rules.remove(id),
                ..self
            },
            None => self,
        };
        SinkModel { graph: second.with_forgiven(built, held.forgiven), ..late }
    }

    /// With the names a search settled for an edge recorded.
    #[verifier::opaque]
    pub open spec fn with_searched(self, edge: SinkEdge, target: usize, built: usize) -> (
        SinkModel,
        Option<Refusal>,
    ) {
        let (after, nodes) = self.with_observed_nodes(settled_inputs(edge.settled_names@));
        match nodes {
            Err(refusal) => (after, Some(refusal)),
            Ok(list) => (
                SinkModel {
                    graph: after.graph.with_edge(
                        built,
                        EdgeModel {
                            searched: Some(
                                searched_of(edge, target, list, self.unit.path_prefix),
                            ),
                            ..after.graph.edges[built as int]
                        },
                    ),
                    ..after
                },
                None,
            ),
        }
    }

    /// With the rest of what an edge just built is told, and the edge one of
    /// this unit's.
    #[verifier::opaque]
    pub open spec fn with_kept(
        self,
        edge: SinkEdge,
        held: EdgeNodes,
        published: usize,
        deferred: Option<DeferredModel>,
        built: usize,
    ) -> SinkModel {
        let first = match deferred {
            Some(action) => self.graph.with_edge(
                built,
                EdgeModel { deferred: Some(action), ..self.graph.edges[built as int] },
            ),
            None => self.graph,
        };
        let second = if edge.completion_join {
            first.with_edge(
                built,
                EdgeModel { completion_of: Some(held.output), ..first.edges[built as int] },
            )
        } else {
            first
        };
        let third = SinkModel {
            graph: second,
            mentions: if only_a_name(edge) {
                self.mentions.insert(published, built)
            } else {
                self.mentions
            },
            ..self
        };
        let fourth = third.with_generated(edge, seq![published] + held.implicit_outputs);
        SinkModel {
            unit: UnitModel { edges: fourth.unit.edges.push(built), ..fourth.unit },
            ..fourth
        }
    }

    /// With an edge built, once its rule is found.
    #[verifier::opaque]
    pub open spec fn with_built(
        self,
        edge: SinkEdge,
        rule: usize,
        held: EdgeNodes,
        published: usize,
        deferred: Option<DeferredModel>,
        bindings: Seq<(usize, Seq<u8>)>,
    ) -> (SinkModel, Option<Refusal>) {
        let (graph, built) = self.graph.with_new_edge(
            self.edge_declared(edge, rule, held, published, bindings),
        );
        let added = SinkModel { graph, ..self };
        match built {
            Err(refusal) => (added.refused(refusal), Some(refusal)),
            Ok(place) => {
                let told = added.with_told(edge, held, place);
                let (searched, failed) = told.with_searched(
                    edge,
                    searched_node(edge, held.output, published),
                    place,
                );
                match failed {
                    Some(refusal) => (searched, Some(refusal)),
                    None => (
                        searched.with_kept(edge, held, published, deferred, place),
                        None,
                    ),
                }
            },
        }
    }

    /// With an edge declared, once its names stand for nodes.
    ///
    /// A file an enclosing unit makes is that unit's, so a rule of this unit's
    /// for it is not read. A recursive rule's edge is held. An edge that says
    /// nothing but its target's name gives way to any other that makes it.
    pub open spec fn with_resolved(
        self,
        edge: SinkEdge,
        held: EdgeNodes,
        published: usize,
        deferred: Option<DeferredModel>,
    ) -> (SinkModel, Option<Refusal>) {
        let bindings = self.edge_bindings(edge);
        let outputs = seq![published] + held.implicit_outputs;
        if self.made_around(outputs) {
            (self.without_rule(edge.rule), None)
        } else if edge.rule is Some && self.subninja_rules.dom().contains(edge.rule->0) {
            let rule = self.subninja_rules[edge.rule->0];
            (
                SinkModel {
                    subninja_rules: self.subninja_rules.remove(edge.rule->0),
                    unit: UnitModel {
                        subninjas: self.unit.subninjas.push(
                            self.pending_of(edge, rule, held, published, deferred, bindings),
                        ),
                        ..self.unit
                    },
                    ..self
                },
                None,
            )
        } else if only_a_name(edge) && self.graph.nodes[published as int].generator is Some {
            (self, None)
        } else {
            let released = if only_a_name(edge) {
                self
            } else {
                self.with_mentions_released(outputs)
            };
            match edge.rule {
                Some(id) => if released.rules.dom().contains(id) {
                    SinkModel { rules: released.rules.remove(id), ..released }.with_built(
                        edge,
                        released.rules[id],
                        held,
                        published,
                        deferred,
                        bindings,
                    )
                } else {
                    (released, Some(Refusal::UndeclaredRule(id)))
                },
                None => released.with_built(edge, 0, held, published, deferred, bindings),
            }
        }
    }

    /// With an edge declared.
    pub open spec fn with_declared_edge(self, edge: SinkEdge) -> (SinkModel, Option<Refusal>) {
        let (first, nodes) = self.with_nodes(edge_names(edge));
        match nodes {
            Err(refusal) => (first, Some(refusal)),
            Ok(list) => {
                let held = edge_nodes(edge, list);
                let (second, deferred) = first.with_deferred(edge);
                match deferred {
                    Err(refusal) => (second, Some(refusal)),
                    Ok(action) => {
                        let (third, published) = second.with_published(edge, held.output);
                        third.with_resolved(edge, held, published, action)
                    },
                }
            },
        }
    }
}

} // verus!
