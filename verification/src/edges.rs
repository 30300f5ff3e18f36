//! Declaring an edge.

use crate::artifact::SettledSteps;
use crate::bytes::{append, copied, texts};
use crate::declaring::done_model;
use crate::edging::{
    beside, edge_names, edge_nodes, grown_still_fits, mentions_only_its_name, nodes_ok,
    only_a_name, searched_node, searched_of, settled_inputs, EdgeNodes, ResolvedEdge,
};
use crate::graph::{
    below, copied_ids, deferred_model, deferred_ok, edge_values, lists, named_node, references_of,
    Deferred, DeferredModel, EdgeDeclared, EdgeModel, EdgeSpec, FrontendError, GraphModel, Refusal,
    Searched, SettledView,
};
use crate::invocation::push_text;
use crate::sink::{
    pendings, subninja_rule_ok, values_below, GraphSink, PendingSubninja, SettledName, SinkEdge,
    SinkModel, SubninjaRule, UnitModel,
};
use crate::table::{mapped_keys, mapped_value, Key};
use vstd::prelude::*;
use vstd::string::*;

verus! {

/// A node behind a copy of a name that may not be there.
fn pair_with(node: usize, name: &Option<Vec<u8>>) -> (pair: Option<(usize, Vec<u8>)>)
    ensures
        named_node(pair) == beside(node, *name),
{
    match name {
        Some(held) => Some((node, copied(held))),
        None => None,
    }
}

impl GraphSink {
    /// Whether an edge of this unit makes a file an enclosing unit makes.
    pub fn skips_an_enclosing_files_rule(&self, outputs: &[usize]) -> (answer: bool)
        requires
            self.wf(),
        ensures
            answer == self.model().made_around(outputs@),
    {
        let entries: &Vec<(Vec<u8>, usize)> = &self.unit.enclosing.entries;
        let ghost around = self.unit.enclosing@;
        let mut at: usize = 0;
        while at < entries.len()
            invariant
                at <= entries@.len(),
                entries@ == self.unit.enclosing.entries@,
                around == self.unit.enclosing@,
                self.wf(),
                forall|i: int| 0 <= i < at ==> !outputs@.contains((#[trigger] entries@[i]).1),
            decreases entries@.len() - at,
        {
            if lists(outputs, entries[at].1) {
                proof {
                    mapped_value(entries@, at as int);
                    let i = choose|i: int| 0 <= i < outputs@.len() && outputs@[i] == entries@[at as int].1;
                    let path = entries@[at as int].0.name();
                    assert(around.dom().contains(path) && around[path] == outputs@[i]);
                    assert(self.model().unit.enclosing.dom().contains(path));
                }
                return true;
            }
            at += 1;
        }
        proof {
            if self.model().made_around(outputs@) {
                let (i, path) = choose|i: int, path: Seq<u8>|
                    0 <= i < outputs@.len() && around.dom().contains(path) && around[path]
                        == outputs@[i];
                mapped_keys(entries@);
                let place = choose|place: int|
                    0 <= place < entries@.len() && (#[trigger] entries@[place]).0.name() == path;
                mapped_value(entries@, place);
                assert(outputs@.contains(entries@[place].1));
            }
        }
        false
    }

    /// Let go of the rule an edge names.
    fn forget_rule(&mut self, rule: Option<usize>)
        requires
            old(self).wf(),
        ensures
            final(self).wf(),
            final(self).model() == old(self).model().without_rule(rule),
            final(self).settled_edges@ == old(self).settled_edges@,
            rule matches Some(id) ==> final(self).settled_rules@ == old(
                self).settled_rules@.remove(id) && final(self).settled_scripts@ == old(
                self).settled_scripts@.remove(id),
            rule is None ==> final(self).settled_as(*old(self)),
    {
        let ghost before = self.model();
        if let Some(id) = rule {
            let _ = self.rules.take(&id);
            let _ = self.deferred_rules.take(&id);
            let _ = self.subninja_rules.take(&id);
            let _ = self.settled_rules.take(&id);
            let _ = self.settled_scripts.take(&id);
            proof {
                grown_still_fits(before, self.model());
            }
        }
    }

    /// Take every edge that only names one of these files off it.
    fn release_mentions(&mut self, nodes: &[usize])
        requires
            old(self).wf(),
            below(nodes@, old(self).model().graph.nodes.len()),
        ensures
            final(self).wf(),
            final(self).settled_as(*old(self)),
            final(self).model() == old(self).model().with_mentions_released(nodes@),
            final(self).model().graph.nodes.len() == old(self).model().graph.nodes.len(),
            final(self).model().graph.rules.len() == old(self).model().graph.rules.len(),
            final(self).model().graph.pools.len() == old(self).model().graph.pools.len(),
    {
        let ghost began = self.model();
        let mut at: usize = 0;
        assert(nodes@.take(0) =~= Seq::empty());
        while at < nodes.len()
            invariant
                at <= nodes@.len(),
                began == old(self).model(),
                self.wf(),
                self.settled_as(*old(self)),
                self.model() == began.with_mentions_released(nodes@.take(at as int)),
                self.model().graph.nodes.len() == began.graph.nodes.len(),
                self.model().graph.rules.len() == began.graph.rules.len(),
                self.model().graph.pools.len() == began.graph.pools.len(),
                below(nodes@, began.graph.nodes.len()),
            decreases nodes@.len() - at,
        {
            let ghost next = nodes@.take(at as int + 1);
            assert(next.drop_last() =~= nodes@.take(at as int));
            let ghost before = self.model();
            let node: usize = nodes[at];
            if let Some(edge) = self.mentions.take(&node) {
                assert(before.mentions.dom().contains(node));
                self.graph.release_output(edge, node);
                proof {
                    grown_still_fits(before, self.model());
                }
            } else {
                assert(before.mentions.remove(node) =~= before.mentions);
            }
            at += 1;
        }
        assert(nodes@.take(at as int) =~= nodes@);
    }

    /// Make the files an edge with a recipe makes known as this unit's.
    fn record_generated(&mut self, edge: &SinkEdge, nodes: &[usize])
        requires
            old(self).wf(),
            below(nodes@, old(self).model().graph.nodes.len()),
        ensures
            final(self).wf(),
            final(self).settled_as(*old(self)),
            final(self).model() == old(self).model().with_generated(*edge, nodes@),
            final(self).model().graph == old(self).model().graph,
    {
        if edge.rule.is_none() || edge.always_dirty || edge.completion_join {
            return;
        }
        let ghost began = self.model();
        let mut at: usize = 0;
        assert(nodes@.take(0) =~= Seq::empty());
        while at < nodes.len()
            invariant
                at <= nodes@.len(),
                began == old(self).model(),
                edge.rule is Some && !edge.always_dirty && !edge.completion_join,
                self.wf(),
                self.settled_as(*old(self)),
                self.model() == began.with_generated(*edge, nodes@.take(at as int)),
                self.model().graph == began.graph,
                below(nodes@, began.graph.nodes.len()),
            decreases nodes@.len() - at,
        {
            let ghost next = nodes@.take(at as int + 1);
            assert(next.drop_last() =~= nodes@.take(at as int));
            let path: Vec<u8> = copied(self.graph.path(nodes[at]));
            self.unit.generated.put(path, nodes[at]);
            at += 1;
        }
        assert(nodes@.take(at as int) =~= nodes@);
    }

    /// Whether the launches that were settled early are where the edge that was
    /// built finds them.
    pub open spec fn launches_recorded(
        &self,
        before: GraphSink,
        built: usize,
        rule: Option<usize>,
        output: Seq<u8>,
    ) -> bool {
        match rule {
            None => self.settled_as(before),
            Some(id) => {
                let moved = if before.settled_rules@.dom().contains(id) {
                    before.settled_edges@.push((built, before.settled_rules@[id]))
                } else {
                    before.settled_edges@
                };
                &&& self.settled_rules@ == before.settled_rules@.remove(id)
                &&& self.settled_scripts@ == before.settled_scripts@.remove(id)
                &&& if before.settled_scripts@.dom().contains(id) {
                    exists|steps: Option<SettledSteps>| #[trigger]
                        before.settled_scripts@[id].launches(output, steps) && self.settled_edges@
                            == (match steps {
                            Some(held) => moved.push((built, held)),
                            None => moved,
                        })
                } else {
                    self.settled_edges@ == moved
                }
            },
        }
    }

    /// Record an edge's recipe against the edge: one that is expanded when the
    /// edge is launched, or the launches one that was read early became.
    pub fn record_late_bindings(&mut self, built: usize, rule: Option<usize>, output: usize)
        requires
            old(self).wf(),
            output < old(self).model().graph.nodes.len(),
        ensures
            final(self).wf(),
            final(self).model() == (match rule {
                Some(id) => SinkModel {
                    deferred_edges: if old(self).model().deferred_rules.dom().contains(id) {
                        old(self).model().deferred_edges.push(
                            (built, old(self).model().deferred_rules[id]),
                        )
                    } else {
                        old(self).model().deferred_edges
                    },
                    deferred_rules: old(self).model().deferred_rules.remove(id),
                    ..old(self).model()
                },
                None => old(self).model(),
            }),
            final(self).launches_recorded(
                *old(self),
                built,
                rule,
                old(self).model().graph.nodes[output as int].path,
            ),
    {
        let id: usize = match rule {
            Some(id) => id,
            None => return ,
        };
        if let Some(recipe) = self.deferred_rules.take(&id) {
            self.deferred_edges.push((built, recipe));
        }
        if let Some(steps) = self.settled_rules.take(&id) {
            self.settled_edges.push((built, steps));
        }
        let ghost moved = self.settled_edges@;
        if let Some(script) = self.settled_scripts.take(&id) {
            let path: Vec<u8> = copied(self.graph.path(output));
            let launched: Option<SettledSteps> = script.launch(&path);
            let ghost steps = launched;
            if let Some(held) = launched {
                self.settled_edges.push((built, held));
            }
            assert(old(self).settled_scripts@[id].launches(path@, steps));
        }
    }

    /// Record the names a search settled for an edge.
    pub fn record_searched_spellings(
        &mut self,
        built: usize,
        edge: &SinkEdge,
        target: usize,
    ) -> (done: Result<(), FrontendError>)
        requires
            old(self).wf(),
            built < old(self).model().graph.edges.len(),
        ensures
            final(self).wf(),
            final(self).settled_as(*old(self)),
            (final(self).model(), done_model(done)) == old(self).model().with_searched(
                *edge,
                target,
                built,
            ),
            old(self).model().graph.nodes.len() <= final(self).model().graph.nodes.len(),
            final(self).model().graph.edges.len() == old(self).model().graph.edges.len(),
    {
        reveal(SinkModel::with_searched);
        let ghost began = self.model();
        let mut inputs: Vec<Vec<u8>> = Vec::new();
        let ghost all = settled_inputs(edge.settled_names@);
        let mut at: usize = 0;
        assert(texts(inputs@) =~= all.take(0));
        while at < edge.settled_names.len()
            invariant
                at <= edge.settled_names@.len(),
                all == settled_inputs(edge.settled_names@),
                texts(inputs@) == all.take(at as int),
            decreases edge.settled_names@.len() - at,
        {
            push_text(&mut inputs, copied(&edge.settled_names[at].input));
            assert(texts(inputs@) =~= all.take(at as int + 1));
            at += 1;
        }
        assert(all.take(at as int) =~= all);
        proof {
            observing_keeps_the_edges(began, all);
        }
        let nodes: Vec<usize> = match self.observed_list(&inputs) {
            Ok(nodes) => nodes,
            Err(why) => return Err(why),
        };
        let ghost wanted = searched_of(*edge, target, nodes@, began.unit.path_prefix);
        let mut references: Vec<(Vec<u8>, (usize, SettledView))> = Vec::new();
        let mut at: usize = 0;
        assert(references_of(references@) =~= wanted.references.take(0));
        while at < edge.settled_names.len()
            invariant
                at <= edge.settled_names@.len(),
                nodes@.len() == edge.settled_names@.len(),
                wanted == searched_of(*edge, target, nodes@, began.unit.path_prefix),
                references_of(references@) == wanted.references.take(at as int),
            decreases edge.settled_names@.len() - at,
        {
            let ghost stood = references_of(references@);
            let name: &SettledName = &edge.settled_names[at];
            references.push((copied(&name.variable), (nodes[at], name.view)));
            assert(references_of(references@) =~= stood.push(
                (name.variable@, (nodes@[at as int], name.view)),
            ));
            assert(wanted.references[at as int] == (
                name.variable@,
                (nodes@[at as int], name.view),
            ));
            assert(references_of(references@) =~= wanted.references.take(at as int + 1));
            at += 1;
        }
        assert(wanted.references.take(at as int) =~= wanted.references);
        let searched = Searched {
            declared: pair_with(target, &edge.declared_by_double_colon),
            found: pair_with(target, &edge.searched_at),
            written: pair_with(target, &edge.written_as),
            directory: copied(&self.unit.path_prefix),
            references,
        };
        assert(searched.model() == wanted);
        let ghost before = self.model();
        self.graph.set_searched_spellings(built, searched);
        proof {
            grown_still_fits(before, self.model());
        }
        Ok(())
    }
}

/// Resolving names adds nodes to the graph and nothing else.
pub(crate) proof fn observing_keeps_the_edges(sink: SinkModel, names: Seq<Seq<u8>>)
    ensures
        ({
            let after = sink.with_observed_nodes(names).0;
            &&& after.unit == sink.unit
            &&& after.graph.edges == sink.graph.edges
            &&& after.graph.rules == sink.graph.rules
            &&& after.graph.pools == sink.graph.pools
            &&& after.rules == sink.rules
            &&& after.deferred_rules == sink.deferred_rules
            &&& after.subninja_rules == sink.subninja_rules
            &&& after.mentions == sink.mentions
        }),
    decreases names.len(),
{
    if names.len() > 0 {
        observing_keeps_the_edges(sink, names.drop_last());
    }
}

impl GraphSink {
    /// Tell the graph of an edge just built what its declaration does not.
    fn tell_edge(
        &mut self,
        edge: &SinkEdge,
        held: &ResolvedEdge,
        published: usize,
        built: usize,
    )
        requires
            old(self).wf(),
            built < old(self).model().graph.edges.len(),
            published < old(self).model().graph.nodes.len(),
            nodes_ok(held.model(), old(self).model().graph.nodes.len()),
        ensures
            final(self).wf(),
            final(self).model() == old(self).model().with_told(*edge, held.model(), built),
            final(self).launches_recorded(
                *old(self),
                built,
                edge.rule,
                old(self).model().graph.nodes[published as int].path,
            ),
            final(self).model().graph.nodes.len() == old(self).model().graph.nodes.len(),
            final(self).model().graph.edges.len() == old(self).model().graph.edges.len(),
    {
        reveal(SinkModel::with_told);
        let ghost before = self.model();
        self.graph.set_disposable_outputs(&held.disposable);
        proof {
            disposing_keeps_the_paths(before.graph, held.disposable@);
            grown_still_fits(before, self.model());
        }
        self.record_late_bindings(built, edge.rule, published);
        let ghost second = self.model();
        self.graph.set_make_target(
            built,
            copied_ids(&held.withdrawable),
            edge.delete_on_error,
            copied_ids(&held.peers),
        );
        self.graph.forgive_order_inputs(built, &held.forgiven);
        proof {
            grown_still_fits(second, self.model());
        }
    }

    /// Keep an edge just built as one of this unit's.
    fn keep_edge(
        &mut self,
        edge: &SinkEdge,
        held: &ResolvedEdge,
        published: usize,
        deferred: Option<Deferred>,
        built: usize,
    )
        requires
            old(self).wf(),
            built < old(self).model().graph.edges.len(),
            published < old(self).model().graph.nodes.len(),
            nodes_ok(held.model(), old(self).model().graph.nodes.len()),
            deferred matches Some(action) ==> deferred_ok(
                action.model(),
                old(self).model().graph.nodes.len(),
            ),
        ensures
            final(self).wf(),
            final(self).settled_as(*old(self)),
            final(self).model() == old(self).model().with_kept(
                *edge,
                held.model(),
                published,
                deferred_model(deferred),
                built,
            ),
    {
        reveal(SinkModel::with_kept);
        let ghost before = self.model();
        if let Some(action) = deferred {
            self.graph.set_deferred_freshness(built, action);
        }
        if edge.completion_join {
            self.graph.set_completion_join(built, held.output);
        }
        proof {
            grown_still_fits(before, self.model());
        }
        assert(self.model().graph.edges.len() == before.graph.edges.len());
        if mentions_only_its_name(edge) {
            self.mentions.put(published, built);
        }
        let mut outputs: Vec<usize> = Vec::new();
        outputs.push(published);
        let mut implicit: Vec<usize> = copied_ids(&held.implicit_outputs);
        outputs.append(&mut implicit);
        assert(outputs@ =~= seq![published] + held.implicit_outputs@);
        self.record_generated(edge, &outputs);
        proof {
            generating_keeps_the_rest(
                SinkModel {
                    mentions: if only_a_name(*edge) {
                        before.mentions.insert(published, built)
                    } else {
                        before.mentions
                    },
                    graph: self.graph.model(),
                    ..before
                },
                *edge,
                outputs@,
            );
        }
        let ghost stood = self.model();
        assert(stood.wf());
        self.unit.edges.push(built);
        proof {
            let after = self.model();
            assert(after.graph == stood.graph);
            assert(after.unit == (UnitModel {
                edges: stood.unit.edges.push(built),
                ..stood.unit
            }));
            assert(below(after.unit.edges, after.graph.edges.len()));
            assert(after.wf());
        }
    }

    /// Build an edge, once its rule is found.
    #[verifier::rlimit(40)]
    fn build_edge(
        &mut self,
        edge: &SinkEdge,
        rule: usize,
        held: ResolvedEdge,
        published: usize,
        deferred: Option<Deferred>,
        bindings: Vec<(usize, Vec<u8>)>,
    ) -> (done: Result<(), FrontendError>)
        requires
            old(self).wf(),
            rule < old(self).model().graph.rules.len(),
            published < old(self).model().graph.nodes.len(),
            nodes_ok(held.model(), old(self).model().graph.nodes.len()),
            deferred matches Some(action) ==> deferred_ok(
                action.model(),
                old(self).model().graph.nodes.len(),
            ),
        ensures
            final(self).wf(),
            (final(self).model(), done_model(done)) == old(self).model().with_built(
                *edge,
                rule,
                held.model(),
                published,
                deferred_model(deferred),
                edge_values(bindings@),
            ),
            ({
                let built = old(self).model().graph.with_new_edge(
                    old(self).model().edge_declared(
                        *edge,
                        rule,
                        held.model(),
                        published,
                        edge_values(bindings@),
                    ),
                ).1;
                match built {
                    Ok(place) => final(self).launches_recorded(
                        *old(self),
                        place,
                        edge.rule,
                        old(self).model().graph.nodes[published as int].path,
                    ),
                    Err(_) => final(self).settled_as(*old(self)),
                }
            }),
    {
        reveal(SinkModel::with_built);
        let ghost before = self.model();
        let mut outputs: Vec<usize> = Vec::new();
        outputs.push(published);
        assert(outputs@ =~= seq![published]);
        let nothing: Vec<usize> = Vec::new();
        let none: Vec<usize> = Vec::new();
        assert(nothing@ =~= Seq::empty());
        assert(none@ =~= Seq::empty());
        let spec = EdgeSpec {
            scope: self.unit.scope,
            rule,
            explicit_outputs: outputs,
            implicit_outputs: copied_ids(&held.implicit_outputs),
            explicit_inputs: copied_ids(&held.inputs),
            implicit_inputs: nothing,
            order_only_inputs: copied_ids(&held.order_only_inputs),
            validations: none,
            always_dirty: edge.always_dirty,
            intermediate: edge.intermediate,
            has_touchable_recipe: edge.has_touchable_recipe,
            outputs_unaliased: edge.rule.is_none(),
            outputs_low_resolution: edge.low_resolution,
            bindings,
        };
        let ghost declared = before.edge_declared(
            *edge,
            rule,
            held.model(),
            published,
            edge_values(bindings@),
        );
        assert(spec.model() == declared);
        let ghost stood = *self;
        let built: usize = match self.graph.add_edge(spec) {
            Ok(built) => built,
            Err(why) => {
                proof {
                    grown_still_fits(before, self.model());
                }
                self.refuse(&why);
                return Err(why);
            },
        };
        proof {
            making_keeps_the_paths(before.graph, declared);
            grown_still_fits(before, self.model());
        }
        self.tell_edge(edge, &held, published, built);
        let target: usize = if edge.completion_join {
            held.output
        } else {
            published
        };
        let ghost told = *self;
        if let Err(why) = self.record_searched_spellings(built, edge, target) {
            return Err(why);
        }
        self.keep_edge(edge, &held, published, deferred, built);
        Ok(())
    }
}

proof fn disposing_keeps_the_paths(graph: GraphModel, nodes: Seq<usize>)
    ensures
        ({
            let after = graph.with_disposable(nodes);
            &&& after.nodes.len() == graph.nodes.len()
            &&& after.edges == graph.edges
            &&& after.rules == graph.rules
            &&& forall|i: int|
                0 <= i < graph.nodes.len() ==> (#[trigger] after.nodes[i]).path
                    == graph.nodes[i].path
        }),
    decreases nodes.len(),
{
    if nodes.len() > 0 {
        disposing_keeps_the_paths(graph, nodes.drop_last());
    }
}

proof fn making_keeps_the_paths(graph: GraphModel, declared: EdgeDeclared)
    ensures
        ({
            let after = graph.with_new_edge(declared).0;
            &&& after.nodes.len() == graph.nodes.len()
            &&& after.rules == graph.rules
            &&& graph.edges.len() <= after.edges.len()
            &&& forall|i: int|
                0 <= i < graph.nodes.len() ==> (#[trigger] after.nodes[i]).path
                    == graph.nodes[i].path
        }),
{
    let outputs = crate::graph::outputs_of(declared);
    crate::graph::made_by_generators(
        graph.nodes,
        outputs,
        graph.edges.len() as usize,
        outputs.len() as int,
    );
}

proof fn generating_keeps_the_rest(sink: SinkModel, edge: SinkEdge, nodes: Seq<usize>)
    ensures
        ({
            let after = sink.with_generated(edge, nodes);
            &&& after.graph == sink.graph
            &&& after == (SinkModel {
                unit: UnitModel { generated: after.unit.generated, ..sink.unit },
                ..sink
            })
        }),
    decreases nodes.len(),
{
    if nodes.len() > 0 {
        generating_keeps_the_rest(sink, edge, nodes.drop_last());
    }
}

impl GraphSink {
    /// Declare an edge.
    ///
    /// The launches of a recipe that was read early are recorded against the
    /// edge where one is built, and let go of where its file is made around
    /// this unit.
    #[verifier::rlimit(60)]
    pub fn declare_edge(&mut self, edge: &SinkEdge) -> (done: Result<(), FrontendError>)
        requires
            old(self).wf(),
        ensures
            final(self).wf(),
            (final(self).model(), done_model(done)) == old(self).model().with_declared_edge(*edge),
            final(self).launches_kept(*old(self), *edge),
    {
        let ghost began = self.model();
        proof {
            resolving_keeps_the_edges(began, *edge);
            nodes_keep_the_edges(began, edge_names(*edge));
            let first = began.with_nodes(edge_names(*edge)).0;
            observing_keeps_the_edges(first, texts(edge.deferred_freshness_outputs@));
            let second = first.with_observed_nodes(texts(edge.deferred_freshness_outputs@)).0;
            nodes_keep_the_edges(second, crate::edging::deferred_names(*edge));
        }
        let held: ResolvedEdge = match self.resolve_edge(edge) {
            Ok(held) => held,
            Err(why) => return Err(why),
        };
        let deferred: Option<Deferred> = match self.deferred_edge(edge) {
            Ok(deferred) => deferred,
            Err(why) => return Err(why),
        };
        let published: usize = self.published_outputs(edge, held.output);
        let bindings: Vec<(usize, Vec<u8>)> = self.edge_bindings(edge);
        let mut outputs: Vec<usize> = Vec::new();
        outputs.push(published);
        let mut implicit: Vec<usize> = copied_ids(&held.implicit_outputs);
        outputs.append(&mut implicit);
        assert(outputs@ =~= seq![published] + held.implicit_outputs@);
        if self.skips_an_enclosing_files_rule(&outputs) {
            self.forget_rule(edge.rule);
            return Ok(());
        }
        if let Some(id) = edge.rule {
            if let Some(rule) = self.take_recursive(id) {
                self.hold_subninja(edge, rule, held, published, deferred, bindings);
                return Ok(());
            }
        }
        let mention: bool = mentions_only_its_name(edge);
        if mention && self.graph.generator(published).is_some() {
            return Ok(());
        }
        let ghost third = self.model();
        if !mention {
            self.release_mentions(&outputs);
            proof {
                releasing_keeps_the_paths(third, outputs@);
            }
        }
        let rule: usize = match edge.rule {
            Some(id) => {
                let ghost stood = self.model();
                match self.rules.take(&id) {
                    Some(rule) => {
                        assert(stood.rules.dom().contains(id));
                        proof {
                            grown_still_fits(stood, self.model());
                        }
                        rule
                    },
                    None => {
                        assert(stood.rules.remove(id) =~= stood.rules);
                        return Err(FrontendError::UndeclaredRule { rule: id });
                    },
                }
            },
            None => 0,
        };
        let ghost last = *self;
        proof {
            let declared = last.model().edge_declared(
                *edge,
                rule,
                held.model(),
                published,
                edge_values(bindings@),
            );
            building_adds_one_edge(
                last.model(),
                *edge,
                rule,
                held.model(),
                published,
                deferred_model(deferred),
                edge_values(bindings@),
            );
        }
        self.build_edge(edge, rule, held, published, deferred, bindings)
    }

    /// Whether the launches that were settled early are where they belong once
    /// an edge is declared: with the edge that was built, nowhere where the file
    /// is made around this unit, and where they were otherwise.
    pub open spec fn launches_kept(&self, before: GraphSink, edge: SinkEdge) -> bool {
        let count = before.model().graph.edges.len();
        match before.model().resolved(edge) {
            Some(resolved) => if self.model().graph.edges.len() > count {
                self.launches_recorded(
                    before,
                    count as usize,
                    edge.rule,
                    resolved.0.graph.nodes[resolved.2 as int].path,
                )
            } else if resolved.0.made_around(seq![resolved.2] + resolved.1.implicit_outputs)
                && edge.rule is Some {
                &&& self.settled_rules@ == before.settled_rules@.remove(edge.rule->0)
                &&& self.settled_scripts@ == before.settled_scripts@.remove(edge.rule->0)
                &&& self.settled_edges@ == before.settled_edges@
            } else {
                self.settled_as(before)
            },
            None => self.settled_as(before),
        }
    }

    /// Take a recursive rule out, where one was declared.
    fn take_recursive(&mut self, id: usize) -> (rule: Option<SubninjaRule>)
        requires
            old(self).wf(),
        ensures
            final(self).wf(),
            final(self).settled_as(*old(self)),
            match rule {
                Some(held) => {
                    &&& old(self).model().subninja_rules.dom().contains(id)
                    &&& old(self).model().subninja_rules[id] == held
                    &&& subninja_rule_ok(held, old(self).model().graph.rules.len())
                    &&& final(self).model() == (SinkModel {
                        subninja_rules: old(self).model().subninja_rules.remove(id),
                        ..old(self).model()
                    })
                },
                None => !old(self).model().subninja_rules.dom().contains(id) && final(
                    self).model() == old(self).model(),
            },
    {
        let ghost before = self.model();
        match self.subninja_rules.take(&id) {
            Some(held) => {
                proof {
                    grown_still_fits(before, self.model());
                }
                Some(held)
            },
            None => {
                assert(before.subninja_rules.remove(id) =~= before.subninja_rules);
                None
            },
        }
    }

    /// Hold a recursive edge until its child is composed in its place.
    fn hold_subninja(
        &mut self,
        edge: &SinkEdge,
        rule: SubninjaRule,
        held: ResolvedEdge,
        published: usize,
        deferred: Option<Deferred>,
        bindings: Vec<(usize, Vec<u8>)>,
    )
        requires
            old(self).wf(),
            subninja_rule_ok(rule, old(self).model().graph.rules.len()),
            published < old(self).model().graph.nodes.len(),
            nodes_ok(held.model(), old(self).model().graph.nodes.len()),
            deferred matches Some(action) ==> deferred_ok(
                action.model(),
                old(self).model().graph.nodes.len(),
            ),
        ensures
            final(self).wf(),
            final(self).settled_as(*old(self)),
            final(self).model() == (SinkModel {
                unit: UnitModel {
                    subninjas: old(self).model().unit.subninjas.push(
                        old(self).model().pending_of(
                            *edge,
                            rule,
                            held.model(),
                            published,
                            deferred_model(deferred),
                            edge_values(bindings@),
                        ),
                    ),
                    ..old(self).model().unit
                },
                ..old(self).model()
            }),
    {
        let ghost before = self.model();
        let ghost wanted = before.pending_of(
            *edge,
            rule,
            held.model(),
            published,
            deferred_model(deferred),
            edge_values(bindings@),
        );
        let mut explicit_outputs: Vec<usize> = Vec::new();
        explicit_outputs.push(published);
        assert(explicit_outputs@ =~= seq![published]);
        let pending = PendingSubninja {
            invocations: rule.invocations,
            scope: self.unit.scope,
            residual_rule: rule.residual_rule,
            residual_script: rule.residual_script,
            diagnostic_command: rule.diagnostic_command,
            explicit_outputs,
            implicit_outputs: held.implicit_outputs,
            inputs: held.inputs,
            order_only_inputs: held.order_only_inputs,
            forgiven_order_inputs: held.forgiven,
            always_dirty: edge.always_dirty,
            deferred,
            completion_output: if edge.completion_join {
                Some(held.output)
            } else {
                None
            },
            intermediate: edge.intermediate,
            disposable_outputs: held.disposable,
            low_resolution: edge.low_resolution,
            withdrawable: held.withdrawable,
            delete_on_error: edge.delete_on_error,
            peer_outputs: held.peers,
            bindings,
        };
        assert(pending.model() == wanted);
        assert(wanted.ok(before.graph.nodes.len(), before.graph.rules.len()));
        let ghost listed = pendings(self.unit.subninjas@);
        self.unit.subninjas.push(pending);
        proof {
            assert(pendings(self.unit.subninjas@) =~= listed.push(wanted));
            let after = self.model();
            assert forall|i: int| 0 <= i < after.unit.subninjas.len() implies (
            #[trigger] after.unit.subninjas[i]).ok(
                after.graph.nodes.len(),
                after.graph.rules.len(),
            ) by {
                if i < listed.len() {
                    assert(after.unit.subninjas[i] == before.unit.subninjas[i]);
                }
            }
        }
    }

    /// Name the targets that are built where none is asked for.
    ///
    /// Every target becomes one of this unit's, and one of the graph's where
    /// the unit is the root.
    pub fn set_default_targets(&mut self, targets: &[Vec<u8>]) -> (done: Result<(), FrontendError>)
        requires
            old(self).wf(),
        ensures
            final(self).wf(),
            final(self).settled_as(*old(self)),
            (final(self).model(), done_model(done)) == old(self).model().with_targets(
                texts(targets@),
            ),
    {
        let ghost all = texts(targets@);
        let ghost began = self.model();
        let mut at: usize = 0;
        assert(all.take(0) =~= Seq::empty());
        while at < targets.len()
            invariant
                at <= targets@.len(),
                all == texts(targets@),
                began == old(self).model(),
                self.wf(),
                self.settled_as(*old(self)),
                (self.model(), None::<Refusal>) == began.with_targets(all.take(at as int)),
            decreases targets@.len() - at,
        {
            let ghost next = all.take(at as int + 1);
            assert(next.drop_last() =~= all.take(at as int));
            assert(next.last() == targets@[at as int]@);
            let node: usize = match self.node(&targets[at]) {
                Ok(node) => node,
                Err(why) => {
                    proof {
                        targets_fail_from(began, all, at as int + 1, all.len() as int);
                        assert(all.take(all.len() as int) =~= all);
                    }
                    return Err(why);
                },
            };
            let ghost stood = self.model();
            if self.unit.root {
                self.graph.add_default(node);
                proof {
                    grown_still_fits(stood, self.model());
                }
            }
            let ghost before = self.model();
            self.unit.targets.push(node);
            proof {
                let after = self.model();
                assert(after.graph == before.graph);
                assert(after.unit == (UnitModel {
                    targets: before.unit.targets.push(node),
                    ..before.unit
                }));
                assert(after.wf());
            }
            at += 1;
        }
        assert(all.take(at as int) =~= all);
        Ok(())
    }
}

impl SinkModel {
    /// An edge with its names resolved: the sink that knows them, the nodes they
    /// stand for, the output it is published under, and what it leaves to other
    /// files. Nothing where a name stands for no node.
    pub open spec fn resolved(self, edge: SinkEdge) -> Option<
        (SinkModel, EdgeNodes, usize, Option<DeferredModel>),
    > {
        let (first, nodes) = self.with_nodes(edge_names(edge));
        match nodes {
            Err(_) => None,
            Ok(list) => {
                let held = edge_nodes(edge, list);
                let (second, deferred) = first.with_deferred(edge);
                match deferred {
                    Err(_) => None,
                    Ok(action) => {
                        let (third, published) = second.with_published(edge, held.output);
                        Some((third, held, published, action))
                    },
                }
            },
        }
    }

    /// With some targets named, up to the first that stands for no node.
    pub open spec fn with_targets(self, targets: Seq<Seq<u8>>) -> (SinkModel, Option<Refusal>)
        decreases targets.len(),
    {
        if targets.len() == 0 {
            (self, None)
        } else {
            let before = self.with_targets(targets.drop_last());
            if before.1 is Some {
                before
            } else {
                let (after, node) = before.0.with_node(targets.last());
                match node {
                    Err(refusal) => (after, Some(refusal)),
                    Ok(place) => (
                        SinkModel {
                            graph: if after.unit.root {
                                GraphModel {
                                    defaults: after.graph.defaults.push(place),
                                    ..after.graph
                                }
                            } else {
                                after.graph
                            },
                            unit: UnitModel {
                                targets: after.unit.targets.push(place),
                                ..after.unit
                            },
                            ..after
                        },
                        None,
                    ),
                }
            }
        }
    }
}

proof fn targets_fail_from(sink: SinkModel, targets: Seq<Seq<u8>>, few: int, many: int)
    requires
        0 <= few <= many <= targets.len(),
        sink.with_targets(targets.take(few)).1 is Some,
    ensures
        sink.with_targets(targets.take(many)) == sink.with_targets(targets.take(few)),
    decreases many - few,
{
    if few < many {
        targets_fail_from(sink, targets, few, many - 1);
        assert(targets.take(many).drop_last() =~= targets.take(many - 1));
    }
}

proof fn releasing_keeps_the_paths(sink: SinkModel, nodes: Seq<usize>)
    requires
        below(nodes, sink.graph.nodes.len()),
        values_below(sink.mentions, sink.graph.edges.len()),
    ensures
        values_below(sink.with_mentions_released(nodes).mentions, sink.graph.edges.len()),
        ({
            let after = sink.with_mentions_released(nodes);
            &&& after.graph.nodes.len() == sink.graph.nodes.len()
            &&& after.graph.edges.len() == sink.graph.edges.len()
            &&& forall|i: int|
                0 <= i < sink.graph.nodes.len() ==> (#[trigger] after.graph.nodes[i]).path
                    == sink.graph.nodes[i].path
        }),
    decreases nodes.len(),
{
    if nodes.len() > 0 {
        releasing_keeps_the_paths(sink, nodes.drop_last());
    }
}

proof fn building_adds_one_edge(
    sink: SinkModel,
    edge: SinkEdge,
    rule: usize,
    held: EdgeNodes,
    published: usize,
    deferred: Option<DeferredModel>,
    bindings: Seq<(usize, Seq<u8>)>,
)
    ensures
        ({
            let built = sink.graph.with_new_edge(
                sink.edge_declared(edge, rule, held, published, bindings),
            ).1;
            let after = sink.with_built(edge, rule, held, published, deferred, bindings).0;
            after.graph.edges.len() == sink.graph.edges.len() + (if built is Ok {
                1nat
            } else {
                0nat
            })
        }),
{
    reveal(SinkModel::with_built);
    reveal(SinkModel::with_told);
    reveal(SinkModel::with_searched);
    reveal(SinkModel::with_kept);
    let (graph, built) = sink.graph.with_new_edge(
        sink.edge_declared(edge, rule, held, published, bindings),
    );
    let added = SinkModel { graph, ..sink };
    if let Ok(place) = built {
        let told = added.with_told(edge, held, place);
        disposing_keeps_the_paths(added.graph, held.disposable);
        observing_keeps_the_edges(told, settled_inputs(edge.settled_names@));
        let (searched, failed) = told.with_searched(
            edge,
            searched_node(edge, held.output, published),
            place,
        );
        let outputs = seq![published] + held.implicit_outputs;
        let first = match deferred {
            Some(action) => searched.graph.with_edge(
                place,
                EdgeModel { deferred: Some(action), ..searched.graph.edges[place as int] },
            ),
            None => searched.graph,
        };
        let second = if edge.completion_join {
            first.with_edge(
                place,
                EdgeModel { completion_of: Some(held.output), ..first.edges[place as int] },
            )
        } else {
            first
        };
        let third = SinkModel {
            graph: second,
            mentions: if only_a_name(edge) {
                searched.mentions.insert(published, place)
            } else {
                searched.mentions
            },
            ..searched
        };
        generating_keeps_the_rest(third, edge, outputs);
    }
}

proof fn resolving_keeps_the_edges(sink: SinkModel, edge: SinkEdge)
    ensures
        sink.resolved(edge) matches Some(resolved) ==> resolved.0.graph.edges == sink.graph.edges,
{
    nodes_keep_the_edges(sink, edge_names(edge));
    let first = sink.with_nodes(edge_names(edge)).0;
    observing_keeps_the_edges(first, texts(edge.deferred_freshness_outputs@));
    let second = first.with_observed_nodes(texts(edge.deferred_freshness_outputs@)).0;
    nodes_keep_the_edges(second, crate::edging::deferred_names(edge));
}

proof fn nodes_keep_the_edges(sink: SinkModel, names: Seq<Seq<u8>>)
    ensures
        sink.with_nodes(names).0.graph.edges == sink.graph.edges,
    decreases names.len(),
{
    if names.len() > 0 {
        nodes_keep_the_edges(sink, names.drop_last());
    }
}

} // verus!
