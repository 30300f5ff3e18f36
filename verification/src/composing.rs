//! Composing the graphs of recursive invocations into one.

use crate::artifact::{Recorded, SettledSteps};
use crate::bytes::{append, copied, decimal, decimal_of, holds, same, text};
use crate::declaring::done_model;
use crate::edging::grown_still_fits;
use crate::error::message;
use crate::graph::{
    below, copied_ids, edge_values, id_model, lists, push_missing, with_missing, BuildGraph,
    EdgeDeclared, EdgeModel, EdgeSpec, FrontendError, GraphModel, Refusal,
};
use crate::invocation::push_text;
use crate::layout::{EnvironmentChange, SettledSegment};
use crate::sink::{
    fresh_unit, invocations_ok, pendings, pool_model, subninja_rule_ok, values_below, ChildGroup,
    GraphSink, Pending, PendingSubninja, SerialJob, SinkModel, SinkPool, Unit, UnitModel,
    UnitOutput, UnitSubgraph,
};
use crate::sorting::{
    at_or_before, order_is_antisymmetric, order_is_total, order_is_transitive, precedes,
};
use crate::table::{distinct, mapped, mapped_update, Key, Table};
use crate::waiting::{
    a_later_line_waits_for_an_earlier_one, children_run_in_the_order_of_their_lines,
    in_recipe_order, stands_for_children, targeted,
};
use vstd::prelude::*;
use vstd::string::*;

verus! {

/// Whether a job names only what a graph has.
pub open spec fn job_ok(job: SerialJob, graph: GraphModel) -> bool {
    below(job.completion@, graph.nodes.len()) && below(job.edges@, graph.edges.len())
}

/// Whether one of the first `count` jobs has an edge.
pub open spec fn claimed(jobs: Seq<SerialJob>, count: int, edge: usize) -> bool {
    exists|i: int| 0 <= i < count && (#[trigger] jobs[i]).edges@.contains(edge)
}

/// With the first `count` of some edges waiting for the job before theirs, the
/// wait forgiven, unless an earlier job has the edge.
pub open spec fn edges_waiting(
    graph: GraphModel,
    jobs: Seq<SerialJob>,
    job: int,
    count: int,
) -> GraphModel
    decreases count,
{
    if count <= 0 {
        graph
    } else {
        let before = edges_waiting(graph, jobs, job, count - 1);
        let edge = jobs[job].edges@[count - 1];
        if claimed(jobs, job, edge) {
            before
        } else {
            before.with_order_only(edge, jobs[job - 1].completion@).with_forgiven(
                edge,
                jobs[job - 1].completion@,
            )
        }
    }
}

/// With each of the first `count` jobs behind the one before it.
pub open spec fn chained(graph: GraphModel, jobs: Seq<SerialJob>, count: int) -> GraphModel
    decreases count,
{
    if count <= 1 {
        graph
    } else {
        edges_waiting(
            chained(graph, jobs, count - 1),
            jobs,
            count - 1,
            jobs[count - 1].edges@.len() as int,
        )
    }
}

/// The names of the graph's waits grow and nothing of it is lost.
pub open spec fn only_waits_grow(before: GraphModel, after: GraphModel) -> bool {
    &&& after.nodes == before.nodes
    &&& after.rules == before.rules
    &&& after.pools == before.pools
    &&& after.edges.len() == before.edges.len()
    &&& forall|i: int, node: usize|
        0 <= i < before.edges.len() && #[trigger] before.edges[i].declared.order_only_inputs.contains(
            node,
        ) ==> after.edges[i].declared.order_only_inputs.contains(node)
}

/// Whether an edge waits for every one of some nodes.
pub open spec fn waits_for(graph: GraphModel, edge: usize, nodes: Seq<usize>) -> bool {
    forall|i: int|
        0 <= i < nodes.len() ==> graph.edges[edge as int].declared.order_only_inputs.contains(
            #[trigger] nodes[i],
        )
}

proof fn waiting_grows(graph: GraphModel, jobs: Seq<SerialJob>, job: int, count: int)
    requires
        0 < job < jobs.len(),
        0 <= count <= jobs[job].edges@.len(),
        below(jobs[job].edges@, graph.edges.len()),
    ensures
        only_waits_grow(graph, edges_waiting(graph, jobs, job, count)),
        forall|i: int|
            0 <= i < count && !claimed(jobs, job, #[trigger] jobs[job].edges@[i]) ==> waits_for(
                edges_waiting(graph, jobs, job, count),
                jobs[job].edges@[i],
                jobs[job - 1].completion@,
            ),
    decreases count,
{
    if count > 0 {
        waiting_grows(graph, jobs, job, count - 1);
        let before = edges_waiting(graph, jobs, job, count - 1);
        let after = edges_waiting(graph, jobs, job, count);
        let edge = jobs[job].edges@[count - 1];
        let nodes = jobs[job - 1].completion@;
        assert(edge < graph.edges.len());
        if !claimed(jobs, job, edge) {
            let held = before.edges[edge as int].declared.order_only_inputs;
            crate::graph::missing_is_added(held, nodes);
            assert(after.edges[edge as int].declared.order_only_inputs == with_missing(
                held,
                nodes,
            ));
            assert forall|i: int, node: usize|
                0 <= i < graph.edges.len()
                    && #[trigger] graph.edges[i].declared.order_only_inputs.contains(
                    node,
                ) implies after.edges[i].declared.order_only_inputs.contains(node) by {
                assert(before.edges[i].declared.order_only_inputs.contains(node));
            }
            assert forall|i: int|
                0 <= i < count && !claimed(jobs, job, #[trigger] jobs[job].edges@[i]) implies waits_for(
                after,
                jobs[job].edges@[i],
                nodes,
            ) by {
                let one = jobs[job].edges@[i];
                assert(one < graph.edges.len());
                assert forall|n: int| 0 <= n < nodes.len() implies after.edges[one as int].declared.order_only_inputs.contains(
                    #[trigger] nodes[n],
                ) by {
                    assert(nodes.contains(nodes[n]));
                    if one != edge {
                        assert(i < count - 1);
                        assert(waits_for(before, one, nodes));
                        assert(before.edges[one as int].declared.order_only_inputs.contains(
                            nodes[n],
                        ));
                    }
                }
            }
        }
    }
}

proof fn chaining_grows(graph: GraphModel, jobs: Seq<SerialJob>, few: int, many: int)
    requires
        0 <= few <= many <= jobs.len(),
        forall|i: int| 0 <= i < jobs.len() ==> job_ok(#[trigger] jobs[i], graph),
    ensures
        only_waits_grow(chained(graph, jobs, few), chained(graph, jobs, many)),
        chained(graph, jobs, many).edges.len() == graph.edges.len(),
    decreases many,
{
    if few < many {
        chaining_grows(graph, jobs, few, many - 1);
        if many > 1 {
            let before = chained(graph, jobs, many - 1);
            let start = chained(graph, jobs, few);
            let after = chained(graph, jobs, many);
            assert(job_ok(jobs[many - 1], graph));
            waiting_grows(before, jobs, many - 1, jobs[many - 1].edges@.len() as int);
            assert forall|i: int, node: usize|
                0 <= i < start.edges.len()
                    && #[trigger] start.edges[i].declared.order_only_inputs.contains(
                    node,
                ) implies after.edges[i].declared.order_only_inputs.contains(node) by {
                assert(before.edges[i].declared.order_only_inputs.contains(node));
            }
        }
    } else if many > 0 {
        chaining_grows(graph, jobs, many - 1, many - 1);
        if many > 1 {
            assert(job_ok(jobs[many - 1], graph));
            waiting_grows(
                chained(graph, jobs, many - 1),
                jobs,
                many - 1,
                jobs[many - 1].edges@.len() as int,
            );
        }
    }
}

/// Once jobs are chained, every edge of a job that no earlier job has waits for
/// the whole of the job before it.
pub proof fn each_job_waits_for_the_one_before(
    graph: GraphModel,
    jobs: Seq<SerialJob>,
    job: int,
    edge: usize,
)
    requires
        forall|i: int| 0 <= i < jobs.len() ==> job_ok(#[trigger] jobs[i], graph),
        0 < job < jobs.len(),
        jobs[job].edges@.contains(edge),
        !claimed(jobs, job, edge),
    ensures
        waits_for(
            chained(graph, jobs, jobs.len() as int),
            edge,
            jobs[job - 1].completion@,
        ),
{
    let before = chained(graph, jobs, job);
    let here = chained(graph, jobs, job + 1);
    let last = chained(graph, jobs, jobs.len() as int);
    assert(job_ok(jobs[job], graph));
    chaining_grows(graph, jobs, 0, job);
    waiting_grows(before, jobs, job, jobs[job].edges@.len() as int);
    let at = choose|at: int| 0 <= at < jobs[job].edges@.len() && jobs[job].edges@[at] == edge;
    assert(waits_for(here, jobs[job].edges@[at], jobs[job - 1].completion@));
    chaining_grows(graph, jobs, job + 1, jobs.len() as int);
    let nodes = jobs[job - 1].completion@;
    assert forall|i: int| 0 <= i < nodes.len() implies last.edges[edge as int].declared.order_only_inputs.contains(
        #[trigger] nodes[i],
    ) by {
        assert(here.edges[edge as int].declared.order_only_inputs.contains(nodes[i]));
    }
}

/// Whether names stand strictly in order, each of them once.
pub open spec fn strictly_ordered(changes: Seq<EnvironmentChange>) -> bool {
    forall|i: int, j: int|
        0 <= i < j < changes.len() ==> at_or_before(
            (#[trigger] changes[i]).0@,
            (#[trigger] changes[j]).0@,
        ) && changes[i].0@ != changes[j].0@
}

proof fn ordered_is_distinct(changes: Seq<EnvironmentChange>)
    requires
        strictly_ordered(changes),
    ensures
        distinct(changes),
{
}

proof fn inserted_is_mapped(changes: Seq<EnvironmentChange>, at: int, change: EnvironmentChange)
    requires
        0 <= at <= changes.len(),
        forall|i: int| 0 <= i < changes.len() ==> (#[trigger] changes[i]).0@ != change.0@,
    ensures
        mapped(changes.insert(at, change)) == mapped(changes).insert(change.0@, change.1),
    decreases changes.len(),
{
    let longer = changes.insert(at, change);
    if at == changes.len() {
        assert(longer.drop_last() =~= changes);
    } else {
        let before = changes.drop_last();
        assert forall|i: int| 0 <= i < before.len() implies (#[trigger] before[i]).0@
            != change.0@ by {
            assert(before[i] == changes[i]);
        }
        inserted_is_mapped(before, at, change);
        assert(longer.drop_last() =~= before.insert(at, change));
        assert(longer.last() == changes.last());
        assert(changes[changes.len() - 1].0@ != change.0@);
        assert(mapped(longer) =~= mapped(changes).insert(change.0@, change.1));
    }
}

impl GraphSink {
    /// Begin reading a child unit.
    ///
    /// `enclosing` is what the units this one is composed under make, by path:
    /// its own names for those paths stand for their nodes.
    pub fn begin_subninja(
        &mut self,
        parent: usize,
        path_prefix: Vec<u8>,
        command_directory: Vec<u8>,
        enclosing: Table<Vec<u8>, usize>,
    )
        requires
            old(self).wf(),
            enclosing.wf(),
            values_below(enclosing@, old(self).model().graph.nodes.len()),
        ensures
            final(self).wf(),
            final(self).settled_as(*old(self)),
            final(self).model() == (SinkModel {
                graph: GraphModel {
                    scopes: old(self).model().graph.scopes.push(Some(parent)),
                    ..old(self).model().graph
                },
                unit: fresh_unit(
                    old(self).model().graph.scopes.len() as usize,
                    path_prefix@,
                    command_directory@,
                    false,
                    enclosing@,
                ),
                interned: Map::empty(),
                mentions: Map::empty(),
                observed_members: Map::empty(),
                ..old(self).model()
            }),
    {
        let ghost before = self.model();
        let scope: usize = self.graph.child_scope(parent);
        self.interned = Table::new();
        self.mentions = Table::new();
        self.observed_members = Table::new();
        self.unit = Unit {
            scope,
            path_prefix,
            command_directory,
            root: false,
            serial_pool: None,
            job_pool: None,
            recipe_environment: Vec::new(),
            unreadable: None,
            targets: Vec::new(),
            subninjas: Vec::new(),
            edges: Vec::new(),
            enclosing,
            generated: Table::new(),
        };
        proof {
            let after = self.model();
            assert(after.unit.recipe_environment =~= Seq::empty());
            assert(after.unit.targets =~= Seq::empty());
            assert(after.unit.subninjas =~= Seq::empty());
            assert(after.unit.edges =~= Seq::empty());
            assert forall|id: usize| #[trigger] after.subninja_rules.dom().contains(
                id,
            ) implies subninja_rule_ok(after.subninja_rules[id], after.graph.rules.len()) by {
                assert(subninja_rule_ok(before.subninja_rules[id], before.graph.rules.len()));
            }
            assert(after.wf());
        }
    }

    /// Hold each job behind the one before it.
    ///
    /// An edge an earlier job has is that job's, and keeps the wait it has.
    pub fn chain_serial_jobs(&mut self, jobs: &[SerialJob])
        requires
            old(self).wf(),
            forall|i: int|
                0 <= i < jobs@.len() ==> job_ok(#[trigger] jobs@[i], old(self).model().graph),
        ensures
            final(self).wf(),
            final(self).settled_as(*old(self)),
            final(self).model() == (SinkModel {
                graph: chained(old(self).model().graph, jobs@, jobs@.len() as int),
                ..old(self).model()
            }),
    {
        let ghost began = self.model();
        if jobs.len() == 0 {
            return;
        }
        let mut job: usize = 1;
        while job < jobs.len()
            invariant
                1 <= job <= jobs@.len(),
                began == old(self).model(),
                self.wf(),
                self.settled_as(*old(self)),
                self.model() == (SinkModel {
                    graph: chained(began.graph, jobs@, job as int),
                    ..began
                }),
                self.model().graph.nodes.len() == began.graph.nodes.len(),
                self.model().graph.edges.len() == began.graph.edges.len(),
                forall|i: int| 0 <= i < jobs@.len() ==> job_ok(#[trigger] jobs@[i], began.graph),
            decreases jobs@.len() - job,
        {
            assert(job_ok(jobs@[job as int], began.graph));
            assert(job_ok(jobs@[job - 1], began.graph));
            let ghost stood = self.model();
            let completion: &Vec<usize> = &jobs[job - 1].completion;
            let edges: &Vec<usize> = &jobs[job].edges;
            let mut at: usize = 0;
            while at < edges.len()
                invariant
                    at <= edges@.len(),
                    1 <= job < jobs@.len(),
                    began == old(self).model(),
                    edges@ == jobs@[job as int].edges@,
                    completion@ == jobs@[job - 1].completion@,
                    below(edges@, began.graph.edges.len()),
                    below(completion@, began.graph.nodes.len()),
                    self.wf(),
                    self.settled_as(*old(self)),
                    self.model() == (SinkModel {
                        graph: edges_waiting(stood.graph, jobs@, job as int, at as int),
                        ..began
                    }),
                    self.model().graph.nodes.len() == began.graph.nodes.len(),
                    self.model().graph.edges.len() == began.graph.edges.len(),
                decreases edges@.len() - at,
            {
                let edge: usize = edges[at];
                if !is_claimed(jobs, job, edge) {
                    let ghost before = self.model();
                    self.graph.add_order_only_inputs(edge, completion);
                    self.graph.forgive_order_inputs(edge, completion);
                    proof {
                        grown_still_fits(before, self.model());
                    }
                }
                at += 1;
            }
            job += 1;
        }
    }

    /// Settle the pools a unit's commands run in: its own of depth one where
    /// its makefiles say not to run two at once, and its group's, or one of its
    /// own where it has a budget of its own.
    pub fn hold_unit_jobs(
        &mut self,
        serial: bool,
        group: Option<(Vec<u8>, usize)>,
        own: Option<usize>,
    ) -> (held: Option<(Vec<u8>, usize)>)
        requires
            old(self).wf(),
            old(self).serial_units < usize::MAX,
            old(self).job_groups < usize::MAX,
        ensures
            final(self).wf(),
            final(self).settled_as(*old(self)),
            pool_model(held) == final(self).model().unit.job_pool,
            final(self).model() == (SinkModel {
                serial_units: (old(self).serial_units + (if serial {
                    1int
                } else {
                    0int
                })) as usize,
                job_groups: (old(self).job_groups + (if own is Some {
                    1int
                } else {
                    0int
                })) as usize,
                unit: UnitModel {
                    serial_pool: if serial {
                        Some(text("make_serial_") + decimal(old(self).serial_units as nat))
                    } else {
                        old(self).model().unit.serial_pool
                    },
                    job_pool: match own {
                        Some(budget) => Some(
                            (text("make_jobs_") + decimal(old(self).job_groups as nat), budget),
                        ),
                        None => pool_model(group),
                    },
                    ..old(self).model().unit
                },
                ..old(self).model()
            }),
    {
        let ghost before = self.model();
        if serial {
            let name: Vec<u8> = message("make_serial_", &decimal_of(self.serial_units as u64));
            self.serial_units = self.serial_units + 1;
            self.unit.serial_pool = Some(name);
        }
        match own {
            Some(budget) => {
                let name: Vec<u8> = message("make_jobs_", &decimal_of(self.job_groups as u64));
                self.job_groups = self.job_groups + 1;
                self.unit.job_pool = Some((name, budget));
            },
            None => {
                self.unit.job_pool = group;
            },
        }
        proof {
            let after = self.model();
            assert(after.unit.subninjas == before.unit.subninjas);
            assert(after.graph == before.graph);
            assert(after.wf());
        }
        match &self.unit.job_pool {
            Some(pool) => Some((copied(&pool.0), pool.1)),
            None => None,
        }
    }

    /// Settle the changes a unit's recipes make to the environment: the last
    /// word on each name, in the order of the names.
    pub fn set_recipe_environment(
        &mut self,
        environment: Vec<EnvironmentChange>,
        unreadable: Option<String>,
    )
        requires
            old(self).wf(),
        ensures
            final(self).wf(),
            final(self).settled_as(*old(self)),
            final(self).model() == (SinkModel {
                unit: UnitModel {
                    recipe_environment: final(self).unit.recipe_environment@,
                    unreadable,
                    ..old(self).model().unit
                },
                ..old(self).model()
            }),
            strictly_ordered(final(self).unit.recipe_environment@),
            mapped(final(self).unit.recipe_environment@) == mapped(environment@),
    {
        let ghost all = environment@;
        let mut ordered: Vec<EnvironmentChange> = Vec::new();
        let mut left: Vec<EnvironmentChange> = environment;
        let ghost mut taken: int = 0;
        let mut at: usize = 0;
        let count: usize = left.len();
        assert(all.take(0) =~= Seq::empty());
        assert(all.skip(0) =~= all);
        while at < count
            invariant
                at <= count,
                count == all.len(),
                left@ == all.skip(at as int),
                strictly_ordered(ordered@),
                mapped(ordered@) == mapped(all.take(at as int)),
            decreases count - at,
        {
            let ghost next = all.take(at as int + 1);
            assert(next.drop_last() =~= all.take(at as int));
            let change: EnvironmentChange = left.remove(0);
            assert(change == all[at as int]);
            assert(left@ =~= all.skip(at as int + 1));
            assert(next.last() == change);
            place_change(&mut ordered, change);
            at += 1;
        }
        assert(all.take(at as int) =~= all);
        self.unit.recipe_environment = ordered;
        self.unit.unreadable = unreadable;
    }
}

/// Put a change among others that stand in order, in place of one to its name.
fn place_change(ordered: &mut Vec<EnvironmentChange>, change: EnvironmentChange)
    requires
        strictly_ordered(old(ordered)@),
    ensures
        strictly_ordered(final(ordered)@),
        mapped(final(ordered)@) == mapped(old(ordered)@).insert(change.0@, change.1),
{
    let ghost before = ordered@;
    let mut at: usize = 0;
    while at < ordered.len() && !precedes(&change.0, &ordered[at].0)
        invariant
            at <= ordered@.len(),
            ordered@ == before,
            strictly_ordered(before),
            forall|i: int| 0 <= i < at ==> !at_or_before(change.0@, (#[trigger] before[i]).0@),
        decreases ordered@.len() - at,
    {
        at += 1;
    }
    proof {
        assert forall|i: int| 0 <= i < at implies at_or_before((#[trigger] before[i]).0@, change.0@)
            && before[i].0@ != change.0@ by {
            order_is_total(change.0@, before[i].0@);
            if before[i].0@ == change.0@ {
                order_is_total(change.0@, change.0@);
            }
        }
        assert forall|i: int| at <= i < before.len() implies at_or_before(
            change.0@,
            (#[trigger] before[i]).0@,
        ) by {
            if i > at {
                order_is_transitive(change.0@, before[at as int].0@, before[i].0@);
            }
        }
    }
    if at < ordered.len() && same(&ordered[at].0, &change.0) {
        proof {
            ordered_is_distinct(before);
            mapped_update(before, at as int, change.1);
        }
        ordered[at].1 = change.1;
        assert(ordered@ =~= before.update(at as int, (before[at as int].0, change.1)));
        return;
    }
    proof {
        assert forall|i: int| at <= i < before.len() implies (#[trigger] before[i]).0@
            != change.0@ by {
            if i > at && before[i].0@ == change.0@ {
                assert(at_or_before(before[at as int].0@, before[i].0@));
                order_is_antisymmetric(change.0@, before[at as int].0@);
            }
        }
        inserted_is_mapped(before, at as int, change);
    }
    ordered.insert(at, change);
    proof {
        let after = ordered@;
        assert forall|i: int, j: int| 0 <= i < j < after.len() implies at_or_before(
            (#[trigger] after[i]).0@,
            (#[trigger] after[j]).0@,
        ) && after[i].0@ != after[j].0@ by {
            let p = at as int;
            if j < p {
                assert(after[i] == before[i] && after[j] == before[j]);
            } else if i > p {
                assert(after[i] == before[i - 1] && after[j] == before[j - 1]);
            } else if j == p {
                assert(after[i] == before[i]);
            } else if i == p {
                assert(after[j] == before[j - 1]);
            } else {
                assert(after[i] == before[i] && after[j] == before[j - 1]);
            }
        }
    }
}

/// Whether one of the first `count` jobs has an edge.
fn is_claimed(jobs: &[SerialJob], count: usize, edge: usize) -> (answer: bool)
    requires
        count <= jobs@.len(),
    ensures
        answer == claimed(jobs@, count as int, edge),
{
    let mut at: usize = 0;
    while at < count
        invariant
            at <= count <= jobs@.len(),
            forall|i: int| 0 <= i < at ==> !(#[trigger] jobs@[i]).edges@.contains(edge),
        decreases count - at,
    {
        if lists(&jobs[at].edges, edge) {
            return true;
        }
        at += 1;
    }
    false
}

/// With some nodes of a list known as made, by path.
pub open spec fn made_known(
    made: Map<Seq<u8>, usize>,
    graph: GraphModel,
    nodes: Seq<usize>,
) -> Map<Seq<u8>, usize>
    decreases nodes.len(),
{
    if nodes.len() == 0 {
        made
    } else {
        made_known(made, graph, nodes.drop_last()).insert(
            graph.nodes[nodes.last() as int].path,
            nodes.last(),
        )
    }
}

/// What a unit makes, its recursive edges' outputs among it: those of an edge
/// that is out of date whenever it is reached are nothing a child could find
/// made.
pub open spec fn made_with_subninjas(
    made: Map<Seq<u8>, usize>,
    graph: GraphModel,
    held: Seq<Pending>,
) -> Map<Seq<u8>, usize>
    decreases held.len(),
{
    if held.len() == 0 {
        made
    } else {
        let before = made_with_subninjas(made, graph, held.drop_last());
        if held.last().always_dirty {
            before
        } else {
            made_known(before, graph, held.last().outputs())
        }
    }
}

/// Make the nodes of a list known as made, by path.
fn make_known(made: &mut Table<Vec<u8>, usize>, graph: &BuildGraph, nodes: &[usize])
    requires
        old(made).wf(),
        below(nodes@, graph.model().nodes.len()),
        values_below(old(made)@, graph.model().nodes.len()),
    ensures
        final(made).wf(),
        final(made)@ == made_known(old(made)@, graph.model(), nodes@),
        values_below(final(made)@, graph.model().nodes.len()),
{
    let ghost began = made@;
    let mut at: usize = 0;
    assert(nodes@.take(0) =~= Seq::empty());
    while at < nodes.len()
        invariant
            at <= nodes@.len(),
            made.wf(),
            below(nodes@, graph.model().nodes.len()),
            made@ == made_known(began, graph.model(), nodes@.take(at as int)),
            values_below(made@, graph.model().nodes.len()),
        decreases nodes@.len() - at,
    {
        let ghost next = nodes@.take(at as int + 1);
        assert(next.drop_last() =~= nodes@.take(at as int));
        let path: Vec<u8> = copied(graph.path(nodes[at]));
        made.put(path, nodes[at]);
        at += 1;
    }
    assert(nodes@.take(at as int) =~= nodes@);
}

impl GraphSink {
    /// Take what the unit just read left.
    pub fn take_unit(&mut self) -> (unit: UnitOutput)
        requires
            old(self).wf(),
        ensures
            final(self).wf(),
            final(self).settled_as(*old(self)),
            final(self).model() == (SinkModel {
                unit: UnitModel {
                    targets: Seq::empty(),
                    subninjas: Seq::empty(),
                    edges: Seq::empty(),
                    generated: Map::empty(),
                    ..old(self).model().unit
                },
                ..old(self).model()
            }),
            unit.targets@ == old(self).model().unit.targets,
            pendings(unit.subninjas@) == old(self).model().unit.subninjas,
            unit.edges@ == old(self).model().unit.edges,
            unit.serial == (old(self).model().unit.serial_pool is Some),
            unit.generated.wf(),
            unit.generated@ == made_with_subninjas(
                old(self).model().unit.generated,
                old(self).model().graph,
                old(self).model().unit.subninjas,
            ),
            values_below(unit.generated@, old(self).model().graph.nodes.len()),
    {
        let ghost before = self.model();
        let mut subninjas: Vec<PendingSubninja> = Vec::new();
        subninjas.append(&mut self.unit.subninjas);
        let mut targets: Vec<usize> = Vec::new();
        targets.append(&mut self.unit.targets);
        let mut edges: Vec<usize> = Vec::new();
        edges.append(&mut self.unit.edges);
        let mut generated: Table<Vec<u8>, usize> = Table { entries: Vec::new() };
        generated.entries.append(&mut self.unit.generated.entries);
        proof {
            assert(pendings(subninjas@) =~= before.unit.subninjas);
            assert(targets@ =~= before.unit.targets);
            assert(edges@ =~= before.unit.edges);
            assert(generated.entries@ =~= old(self).unit.generated.entries@);
            assert(self.unit.generated.entries@ =~= Seq::empty());
            assert(self.unit.generated@ =~= Map::empty());
            let after = self.model();
            assert(after.unit.targets =~= Seq::empty());
            assert(after.unit.subninjas =~= Seq::empty());
            assert(after.unit.edges =~= Seq::empty());
            assert(after.wf());
        }
        let ghost held = pendings(subninjas@);
        let ghost own = generated@;
        let mut at: usize = 0;
        assert(held.take(0) =~= Seq::empty());
        while at < subninjas.len()
            invariant
                at <= subninjas@.len(),
                held == pendings(subninjas@),
                self.graph.model() == before.graph,
                forall|i: int|
                    0 <= i < held.len() ==> (#[trigger] held[i]).ok(
                        before.graph.nodes.len(),
                        before.graph.rules.len(),
                    ),
                generated.wf(),
                generated@ == made_with_subninjas(own, before.graph, held.take(at as int)),
                values_below(generated@, before.graph.nodes.len()),
            decreases subninjas@.len() - at,
        {
            let ghost next = held.take(at as int + 1);
            assert(next.drop_last() =~= held.take(at as int));
            assert(next.last() == subninjas@[at as int].model());
            assert(held[at as int].ok(before.graph.nodes.len(), before.graph.rules.len()));
            if !subninjas[at].always_dirty {
                let outputs: Vec<usize> = subninjas[at].outputs();
                make_known(&mut generated, &self.graph, &outputs);
            }
            at += 1;
        }
        assert(held.take(at as int) =~= held);
        UnitOutput { targets, subninjas, edges, serial: self.unit.serial_pool.is_some(), generated }
    }

    /// What a node waits for.
    pub fn prerequisites_of(&self, node: usize) -> (nodes: Vec<usize>)
        requires
            self.wf(),
            node < self.model().graph.nodes.len(),
        ensures
            nodes@ == self.model().graph.prerequisites(node),
    {
        self.graph.prerequisites_of(node)
    }

    /// Take the edges whose command is asked for when they are launched, and
    /// those whose launches were settled early.
    pub fn take_late_edges(&mut self) -> (late: (Vec<(usize, usize)>, Vec<(usize, SettledSteps)>))
        requires
            old(self).wf(),
        ensures
            final(self).wf(),
            final(self).settled_rules@ == old(self).settled_rules@,
            final(self).settled_scripts@ == old(self).settled_scripts@,
            final(self).settled_edges@.len() == 0,
            final(self).model() == (SinkModel {
                deferred_edges: Seq::empty(),
                ..old(self).model()
            }),
            late.0@ == old(self).deferred_edges@,
            late.1@ == old(self).settled_edges@,
    {
        let ghost before = self.model();
        let mut deferred: Vec<(usize, usize)> = Vec::new();
        deferred.append(&mut self.deferred_edges);
        let settled: Vec<(usize, SettledSteps)> = self.take_settled_edges();
        assert(deferred@ =~= before.deferred_edges);
        assert(self.deferred_edges@ =~= Seq::empty());
        (deferred, settled)
    }

    /// Take the edges whose launches were settled early.
    pub fn take_settled_edges(&mut self) -> (settled: Vec<(usize, SettledSteps)>)
        requires
            old(self).wf(),
        ensures
            final(self).wf(),
            final(self).settled_rules@ == old(self).settled_rules@,
            final(self).settled_scripts@ == old(self).settled_scripts@,
            final(self).settled_edges@.len() == 0,
            final(self).model() == old(self).model(),
            settled@ == old(self).settled_edges@,
    {
        let mut settled: Vec<(usize, SettledSteps)> = Vec::new();
        settled.append(&mut self.settled_edges);
        assert(settled@ =~= old(self).settled_edges@);
        settled
    }
}

/// Whether a child names only what a graph has.
pub open spec fn group_ok(group: ChildGroup, graph: GraphModel) -> bool {
    below(group.subgraph.targets@, graph.nodes.len()) && below(
        group.subgraph.fresh_edges@,
        graph.edges.len(),
    )
}

/// The nodes of a list that are not in another.
pub open spec fn others(list: Seq<usize>, targets: Seq<usize>) -> Seq<usize>
    decreases list.len(),
{
    if list.len() == 0 {
        Seq::empty()
    } else if targets.contains(list.last()) {
        others(list.drop_last(), targets)
    } else {
        others(list.drop_last(), targets).push(list.last())
    }
}

/// With the first `count` of some edges waiting for nodes.
pub open spec fn all_waiting(
    graph: GraphModel,
    edges: Seq<usize>,
    nodes: Seq<usize>,
    count: int,
) -> GraphModel
    decreases count,
{
    if count <= 0 {
        graph
    } else {
        all_waiting(graph, edges, nodes, count - 1).with_order_only(edges[count - 1], nodes)
    }
}

/// A composition part way: the graph, what the next child waits for, and the
/// targets of the children so far.
pub ghost struct Composed {
    pub graph: GraphModel,
    pub waits: Seq<usize>,
    pub targets: Seq<usize>,
}

/// With the first `count` children composed: what this recipe made of each waits
/// for what the recipe waits for, or for the targets of the last child before it
/// that has any.
pub open spec fn composed(
    graph: GraphModel,
    waits: Seq<usize>,
    groups: Seq<ChildGroup>,
    count: int,
) -> Composed
    decreases count,
{
    if count <= 0 {
        Composed { graph, waits, targets: Seq::empty() }
    } else {
        let before = composed(graph, waits, groups, count - 1);
        let group = groups[count - 1];
        let child = group.subgraph;
        Composed {
            graph: if group.fresh {
                all_waiting(
                    before.graph,
                    child.fresh_edges@,
                    others(before.waits, child.targets@),
                    child.fresh_edges@.len() as int,
                )
            } else {
                before.graph
            },
            waits: if child.targets@.len() > 0 {
                with_missing(Seq::empty(), child.targets@)
            } else {
                before.waits
            },
            targets: with_missing(before.targets, child.targets@),
        }
    }
}

/// Whether two lists have a node in common.
pub open spec fn meet(left: Seq<usize>, right: Seq<usize>) -> bool {
    exists|i: int| 0 <= i < left.len() && right.contains(#[trigger] left[i])
}

fn lists_meet(left: &[usize], right: &[usize]) -> (answer: bool)
    ensures
        answer == meet(left@, right@),
{
    let mut at: usize = 0;
    while at < left.len()
        invariant
            at <= left@.len(),
            forall|i: int| 0 <= i < at ==> !right@.contains(#[trigger] left@[i]),
        decreases left@.len() - at,
    {
        if lists(right, left[at]) {
            return true;
        }
        at += 1;
    }
    false
}

proof fn others_are_below(list: Seq<usize>, targets: Seq<usize>, count: nat)
    requires
        below(list, count),
    ensures
        below(others(list, targets), count),
    decreases list.len(),
{
    if list.len() > 0 {
        assert(list.last() == list[list.len() - 1]);
        others_are_below(list.drop_last(), targets, count);
    }
}

fn without_targets(list: &[usize], targets: &[usize]) -> (kept: Vec<usize>)
    ensures
        kept@ == others(list@, targets@),
{
    let mut kept: Vec<usize> = Vec::new();
    let mut at: usize = 0;
    assert(list@.take(0) =~= Seq::empty());
    while at < list.len()
        invariant
            at <= list@.len(),
            kept@ == others(list@.take(at as int), targets@),
        decreases list@.len() - at,
    {
        let ghost next = list@.take(at as int + 1);
        assert(next.drop_last() =~= list@.take(at as int));
        if !lists(targets, list[at]) {
            kept.push(list[at]);
        }
        at += 1;
    }
    assert(list@.take(at as int) =~= list@);
    kept
}

impl GraphModel {
    /// With a recipe's edge behind the targets of its children: what is left of
    /// the recipe waits for them, and a recipe nothing is left of stands for
    /// them.
    pub open spec fn behind_targets(self, edge: usize, pending: Pending, targets: Seq<usize>) ->
        GraphModel {
        if pending.deferred is Some {
            self
        } else if pending.residual_rule is Some {
            self.with_order_only(edge, targets)
        } else {
            self.with_explicit(edge, targets)
        }
    }

    /// With a recipe's edge running what is left of the recipe.
    pub open spec fn under_residual_rule(self, edge: usize, pending: Pending) -> GraphModel {
        let held = self.edges[edge as int];
        self.with_edge(
            edge,
            EdgeModel {
                declared: EdgeDeclared {
                    rule: match pending.residual_rule {
                        Some(rule) => rule,
                        None => 0,
                    },
                    ..held.declared
                },
                ..held
            },
        )
    }

    /// With a recipe's edge holding the freshness it puts off, where it puts any
    /// off.
    pub open spec fn with_put_off(self, edge: usize, pending: Pending, targets: Seq<usize>) ->
        GraphModel {
        match pending.deferred {
            Some(action) => {
                let held = self.edges[edge as int];
                self.with_edge(
                    edge,
                    EdgeModel {
                        deferred: Some(action),
                        activations: with_missing(held.activations, targets),
                        ..held
                    },
                )
            },
            None => self,
        }
    }

    /// With a recipe's edge joined to the output it completes, and begun where
    /// the recipe was.
    pub open spec fn with_joined(self, edge: usize, pending: Pending, begun: bool) -> GraphModel {
        let held = self.edges[edge as int];
        self.with_edge(
            edge,
            EdgeModel {
                completion_of: match pending.completion_output {
                    Some(node) => Some(node),
                    None => held.completion_of,
                },
                begun: begun || held.begun,
                ..held
            },
        )
    }

    /// With the edge of a recursive recipe completed over the targets of its
    /// children.
    pub open spec fn with_wrapper(
        self,
        edge: usize,
        pending: Pending,
        targets: Seq<usize>,
        begun: bool,
    ) -> GraphModel {
        self.behind_targets(edge, pending, targets).under_residual_rule(
            edge,
            pending,
        ).with_put_off(edge, pending, targets).with_joined(edge, pending, begun)
    }
}

impl SinkModel {
    /// With the edge of a recursive recipe completed over its children.
    ///
    /// A recipe with lines left behind its invocations runs them once its
    /// children are done; any other is done when they are. Where a child makes
    /// the recipe's own target there is nothing to compose.
    pub open spec fn with_completed(
        self,
        edge: usize,
        pending: Pending,
        groups: Seq<ChildGroup>,
        begun: bool,
    ) -> (SinkModel, Result<usize, Refusal>) {
        let done = composed(
            self.graph,
            pending.evaluation_inputs(),
            groups,
            groups.len() as int,
        );
        if meet(done.targets, pending.outputs()) {
            (
                SinkModel { graph: done.graph, ..self },
                Err(Refusal::UncomposableSubninja(pending.diagnostic_command)),
            )
        } else {
            (
                SinkModel {
                    graph: done.graph.with_wrapper(edge, pending, done.targets, begun),
                    ..self
                },
                Ok(edge),
            )
        }
    }
}

impl GraphSink {
    /// Compose the children of a recursive recipe.
    fn compose(&mut self, waits: Vec<usize>, groups: &[ChildGroup]) -> (targets: Vec<usize>)
        requires
            old(self).wf(),
            below(waits@, old(self).model().graph.nodes.len()),
            forall|i: int|
                0 <= i < groups@.len() ==> group_ok(#[trigger] groups@[i], old(self).model().graph),
        ensures
            final(self).wf(),
            final(self).settled_as(*old(self)),
            ({
                let done = composed(
                    old(self).model().graph,
                    waits@,
                    groups@,
                    groups@.len() as int,
                );
                &&& final(self).model() == (SinkModel { graph: done.graph, ..old(self).model() })
                &&& targets@ == done.targets
            }),
            below(targets@, old(self).model().graph.nodes.len()),
            final(self).model().graph.nodes == old(self).model().graph.nodes,
            final(self).model().graph.rules == old(self).model().graph.rules,
            final(self).model().graph.edges.len() == old(self).model().graph.edges.len(),
    {
        let ghost began = self.model();
        let ghost start = waits@;
        let mut waits: Vec<usize> = waits;
        let mut targets: Vec<usize> = Vec::new();
        assert(targets@ =~= Seq::empty());
        let mut at: usize = 0;
        while at < groups.len()
            invariant
                at <= groups@.len(),
                began == old(self).model(),
                self.wf(),
                self.settled_as(*old(self)),
                forall|i: int|
                    0 <= i < groups@.len() ==> group_ok(#[trigger] groups@[i], began.graph),
                self.model() == (SinkModel {
                    graph: composed(began.graph, start, groups@, at as int).graph,
                    ..began
                }),
                waits@ == composed(began.graph, start, groups@, at as int).waits,
                targets@ == composed(began.graph, start, groups@, at as int).targets,
                below(waits@, began.graph.nodes.len()),
                below(targets@, began.graph.nodes.len()),
                self.model().graph.nodes == began.graph.nodes,
                self.model().graph.rules == began.graph.rules,
                self.model().graph.edges.len() == began.graph.edges.len(),
            decreases groups@.len() - at,
        {
            assert(group_ok(groups@[at as int], began.graph));
            let child: &UnitSubgraph = &groups[at].subgraph;
            if groups[at].fresh {
                let preceding: Vec<usize> = without_targets(&waits, &child.targets);
                proof {
                    others_are_below(waits@, child.targets@, began.graph.nodes.len());
                }
                let ghost stood = self.model();
                let mut edge: usize = 0;
                while edge < child.fresh_edges.len()
                    invariant
                        edge <= child.fresh_edges@.len(),
                        began == old(self).model(),
                        self.wf(),
                        self.settled_as(*old(self)),
                        below(child.fresh_edges@, began.graph.edges.len()),
                        below(preceding@, began.graph.nodes.len()),
                        self.model() == (SinkModel {
                            graph: all_waiting(
                                stood.graph,
                                child.fresh_edges@,
                                preceding@,
                                edge as int,
                            ),
                            ..began
                        }),
                        self.model().graph.nodes == began.graph.nodes,
                        self.model().graph.rules == began.graph.rules,
                        self.model().graph.edges.len() == began.graph.edges.len(),
                    decreases child.fresh_edges@.len() - edge,
                {
                    let ghost before = self.model();
                    self.graph.add_order_only_inputs(child.fresh_edges[edge], &preceding);
                    proof {
                        grown_still_fits(before, self.model());
                    }
                    edge += 1;
                }
            }
            proof {
                let (known, more) = (targets@, child.targets@);
                crate::graph::missing_is_below(known, more, began.graph.nodes.len());
                crate::graph::missing_is_below(Seq::empty(), more, began.graph.nodes.len());
            }
            push_missing(&mut targets, &child.targets);
            if child.targets.len() > 0 {
                let mut next: Vec<usize> = Vec::new();
                assert(next@ =~= Seq::empty());
                push_missing(&mut next, &child.targets);
                waits = next;
            }
            at += 1;
        }
        targets
    }

    /// Complete the edge of a recursive recipe over its children.
    #[verifier::rlimit(60)]
    pub fn complete_subninja(
        &mut self,
        edge: usize,
        pending: PendingSubninja,
        child_groups: &[ChildGroup],
        begun: bool,
    ) -> (done: Result<usize, FrontendError>)
        requires
            old(self).wf(),
            edge < old(self).model().graph.edges.len(),
            pending.model().ok(
                old(self).model().graph.nodes.len(),
                old(self).model().graph.rules.len(),
            ),
            forall|i: int|
                0 <= i < child_groups@.len() ==> group_ok(
                    #[trigger] child_groups@[i],
                    old(self).model().graph,
                ),
        ensures
            final(self).wf(),
            (final(self).model(), id_model(done)) == old(self).model().with_completed(
                edge,
                pending.model(),
                child_groups@,
                begun,
            ),
            in_recipe_order(
                old(self).model().graph,
                final(self).model().graph,
                edge,
                pending.inputs@,
                pending.order_only_inputs@,
                child_groups@,
            ),
            forall|earlier: int, later: int, made: usize, target: usize|
                0 <= earlier < later < child_groups@.len() && (forall|between: int|
                    earlier < between < later ==> (
                    #[trigger] child_groups@[between]).subgraph.targets@.len() == 0)
                    && child_groups@[later].fresh
                    && #[trigger] child_groups@[later].subgraph.fresh_edges@.contains(made)
                    && #[trigger] child_groups@[earlier].subgraph.targets@.contains(target)
                    && !child_groups@[later].subgraph.targets@.contains(target)
                    ==> final(self).model().graph.edges[made as int].declared.order_only_inputs.contains(
                target),
            done is Ok ==> done->Ok_0 == edge && stands_for_children(
                old(self).model().graph.edges[edge as int],
                final(self).model().graph.edges[edge as int],
                pending.model(),
                child_groups@,
                begun,
            ),
            done is Err <==> exists|node: usize| #[trigger]
                targeted(child_groups@, child_groups@.len() as int, node) && (
                pending.explicit_outputs@.contains(node) || pending.implicit_outputs@.contains(
                    node,
                )),
            final(self).settled_rules@ == old(self).settled_rules@,
            final(self).settled_scripts@ == old(self).settled_scripts@,
            done is Err ==> final(self).settled_as(*old(self)),
            done is Ok ==> completion_launched(
                pending.model(),
                old(self).model().graph,
                edge,
                old(self).settled_edges@,
                final(self).settled_edges@,
            ),
    {
        let ghost model = pending.model();
        let ghost began = self.model();
        let waits: Vec<usize> = pending.evaluation_inputs();
        let targets: Vec<usize> = self.compose(waits, child_groups);
        let outputs: Vec<usize> = pending.outputs();
        if lists_meet(&targets, &outputs) {
            proof {
                children_run_in_the_order_of_their_lines(began, edge, model, child_groups@, begun);
                assert forall|earlier: int, later: int, made: usize, target: usize|
                    0 <= earlier < later < child_groups@.len() && (forall|between: int|
                        earlier < between < later ==> (
                        #[trigger] child_groups@[between]).subgraph.targets@.len() == 0)
                        && child_groups@[later].fresh
                        && #[trigger] child_groups@[later].subgraph.fresh_edges@.contains(made)
                        && #[trigger] child_groups@[earlier].subgraph.targets@.contains(target)
                        && !child_groups@[later].subgraph.targets@.contains(
                        target,
                    ) implies began.with_completed(
                    edge,
                    model,
                    child_groups@,
                    begun,
                ).0.graph.edges[made as int].declared.order_only_inputs.contains(target) by {
                    a_later_line_waits_for_an_earlier_one(
                        began,
                        edge,
                        model,
                        child_groups@,
                        begun,
                        earlier,
                        later,
                        made,
                        target,
                    );
                }
            }
            return Err(
                FrontendError::UncomposableSubninja { command: pending.diagnostic_command },
            );
        }
        let ghost middle = self.model();
        let rule: usize = match pending.residual_rule {
            Some(rule) => rule,
            None => 0,
        };
        if pending.deferred.is_none() {
            if pending.residual_rule.is_some() {
                self.graph.add_order_only_inputs(edge, &targets);
            } else {
                self.graph.add_explicit_inputs(edge, &targets);
            }
        }
        let ghost first = middle.graph.behind_targets(edge, model, targets@);
        assert(self.graph.model() == first);
        self.graph.set_edge_rule(edge, rule);
        let ghost ruled = first.under_residual_rule(edge, model);
        assert(self.graph.model().edges =~= ruled.edges);
        assert(self.graph.model() == ruled);
        if let Some(action) = pending.deferred {
            self.graph.set_deferred_freshness(edge, action);
            self.graph.add_deferred_activations(edge, &targets);
        }
        let ghost late = ruled.with_put_off(edge, model, targets@);
        assert(self.graph.model().edges =~= late.edges);
        assert(self.graph.model() == late);
        if let Some(node) = pending.completion_output {
            self.graph.set_completion_join(edge, node);
        }
        if begun {
            self.graph.mark_recipe_begun(edge);
        }
        let ghost last = late.with_joined(edge, model, begun);
        assert(self.graph.model().edges =~= last.edges);
        assert(self.graph.model() == last);
        proof {
            children_run_in_the_order_of_their_lines(began, edge, model, child_groups@, begun);
            assert forall|earlier: int, later: int, made: usize, target: usize|
                0 <= earlier < later < child_groups@.len() && (forall|between: int|
                    earlier < between < later ==> (
                    #[trigger] child_groups@[between]).subgraph.targets@.len() == 0)
                    && child_groups@[later].fresh
                    && #[trigger] child_groups@[later].subgraph.fresh_edges@.contains(made)
                    && #[trigger] child_groups@[earlier].subgraph.targets@.contains(target)
                    && !child_groups@[later].subgraph.targets@.contains(
                    target,
                ) implies began.with_completed(
                edge,
                model,
                child_groups@,
                begun,
            ).0.graph.edges[made as int].declared.order_only_inputs.contains(target) by {
                a_later_line_waits_for_an_earlier_one(
                    began,
                    edge,
                    model,
                    child_groups@,
                    begun,
                    earlier,
                    later,
                    made,
                    target,
                );
            }
            grown_still_fits(middle, self.model());
        }
        if pending.residual_rule.is_some() && pending.explicit_outputs.len() > 0 {
            if let Some(segment) = pending.residual_script {
                let output: usize = pending.explicit_outputs[0];
                assert(model.explicit_outputs[0] == output);
                let path: Vec<u8> = copied(self.graph.path(output));
                assert(path@ == began.graph.nodes[output as int].path);
                let launched: Option<SettledSteps> = segment.into_steps(&path);
                let ghost steps = launched;
                if let Some(held) = launched {
                    self.settled_edges.push((edge, held));
                }
                assert(segment_launches(segment, path@, steps));
            }
        }
        Ok(edge)
    }
}

/// Whether launches are what a segment becomes for the edge producing an
/// output.
pub open spec fn segment_launches(
    segment: SettledSegment,
    output: Seq<u8>,
    steps: Option<SettledSteps>,
) -> bool {
    match segment {
        SettledSegment::Steps(held) => steps matches Some(copy) && copy.model() == held.model(),
        SettledSegment::Script(script) => script.launches(output, steps),
    }
}

/// Whether a segment's launches, where it has any, are recorded against an edge.
pub open spec fn launched_for(
    segment: SettledSegment,
    output: Seq<u8>,
    edge: usize,
    before: Seq<(usize, SettledSteps)>,
    after: Seq<(usize, SettledSteps)>,
) -> bool {
    exists|steps: Option<SettledSteps>| #[trigger]
        segment_launches(segment, output, steps) && after == (match steps {
            Some(held) => before.push((edge, held)),
            None => before,
        })
}

/// Whether the lines left behind a recipe's invocations are recorded against
/// its edge.
pub open spec fn completion_launched(
    pending: Pending,
    graph: GraphModel,
    edge: usize,
    before: Seq<(usize, SettledSteps)>,
    after: Seq<(usize, SettledSteps)>,
) -> bool {
    if pending.residual_rule is Some && pending.explicit_outputs.len() > 0
        && pending.residual_script is Some {
        launched_for(
            pending.residual_script->0,
            graph.nodes[pending.explicit_outputs[0] as int].path,
            edge,
            before,
            after,
        )
    } else {
        after == before
    }
}

impl SinkModel {
    /// A recursive edge as it stands in the graph while its freshness is
    /// decided.
    pub open spec fn probe_declared(self, pending: Pending, probe: usize) -> EdgeDeclared {
        EdgeDeclared {
            scope: pending.scope,
            rule: probe,
            explicit_outputs: pending.explicit_outputs,
            implicit_outputs: pending.implicit_outputs,
            explicit_inputs: pending.inputs,
            implicit_inputs: Seq::empty(),
            order_only_inputs: pending.order_only_inputs,
            validations: Seq::empty(),
            always_dirty: pending.always_dirty,
            intermediate: pending.intermediate,
            has_touchable_recipe: false,
            outputs_unaliased: false,
            outputs_low_resolution: pending.low_resolution,
            bindings: pending.bindings,
        }
    }

    /// With the edge of a recursive recipe in the graph, under the rule it has
    /// while its freshness is decided.
    pub open spec fn with_probe(self, pending: Pending, probe: usize) -> (
        SinkModel,
        Result<usize, Refusal>,
    ) {
        let (graph, built) = self.graph.with_new_edge(self.probe_declared(pending, probe));
        match built {
            Err(refusal) => (SinkModel { graph, ..self }, Err(refusal)),
            Ok(edge) => {
                let told = graph.with_edge(
                    edge,
                    EdgeModel {
                        outputs_reobserved: true,
                        withdrawable: pending.withdrawable,
                        delete_on_error: pending.delete_on_error,
                        peers: pending.peer_outputs,
                        ..graph.edges[edge as int]
                    },
                );
                (
                    SinkModel {
                        graph: told.with_forgiven(
                            edge,
                            pending.forgiven_order_inputs,
                        ).with_disposable(pending.disposable_outputs),
                        ..self
                    },
                    Ok(edge),
                )
            },
        }
    }

    /// With the lines before one of a recipe's invocations staged: an edge of
    /// their own, which is out of date whenever it is reached, makes a stand-in
    /// once everything the recipe waits for is there.
    pub open spec fn with_stage(self, pending: Pending, rule: usize) -> (
        SinkModel,
        Result<usize, Refusal>,
    ) {
        let (first, proxy) = self.graph.with_isolated_node(
            text("__ronin_recipe_stage_") + decimal(self.recipe_stages as nat),
        );
        let staged = SinkModel {
            graph: first,
            recipe_stages: (self.recipe_stages + 1) as usize,
            ..self
        };
        let (second, built) = first.with_new_edge(
            EdgeDeclared {
                scope: pending.scope,
                rule,
                explicit_outputs: seq![proxy],
                implicit_outputs: Seq::empty(),
                explicit_inputs: Seq::empty(),
                implicit_inputs: Seq::empty(),
                order_only_inputs: pending.evaluation_inputs(),
                validations: Seq::empty(),
                always_dirty: true,
                intermediate: false,
                has_touchable_recipe: false,
                outputs_unaliased: false,
                outputs_low_resolution: false,
                bindings: Seq::empty(),
            },
        );
        (
            SinkModel { graph: second, ..staged },
            match built {
                Ok(_) => Ok(proxy),
                Err(refusal) => Err(refusal),
            },
        )
    }
}

/// A node that may not be there, or why it could not be made, as its model.
pub open spec fn stage_model(result: Result<Option<usize>, FrontendError>) -> Result<
    Option<usize>,
    Refusal,
> {
    match result {
        Ok(node) => Ok(node),
        Err(why) => Err(why.model()),
    }
}

proof fn an_edge_keeps_the_paths(graph: GraphModel, declared: EdgeDeclared)
    ensures
        ({
            let after = graph.with_new_edge(declared).0;
            &&& after.nodes.len() == graph.nodes.len()
            &&& after.rules == graph.rules
            &&& after.pools == graph.pools
            &&& graph.edges.len() <= after.edges.len()
            &&& forall|i: int|
                0 <= i < graph.nodes.len() ==> (#[trigger] after.nodes[i]).path
                    == graph.nodes[i].path
        }),
{
    let outputs = crate::graph::outputs_of(declared);
    crate::graph::made_by_generators(
        graph.nodes,
        outputs,
        graph.edges.len() as usize,
        outputs.len() as int,
    );
}

impl GraphSink {
    /// Put the edge of a recursive recipe into the graph, under the rule it has
    /// while its freshness is decided.
    pub fn probe_subninja(&mut self, pending: &mut PendingSubninja) -> (edge: Result<
        usize,
        FrontendError,
    >)
        requires
            old(self).wf(),
            old(pending).model().ok(
                old(self).model().graph.nodes.len(),
                old(self).model().graph.rules.len(),
            ),
        ensures
            final(self).wf(),
            final(self).settled_as(*old(self)),
            final(pending).model() == (Pending {
                bindings: Seq::empty(),
                ..old(pending).model()
            }),
            (final(self).model(), id_model(edge)) == old(self).model().with_probe(
                old(pending).model(),
                old(self).subninja_probe,
            ),
    {
        let ghost before = self.model();
        let ghost model = pending.model();
        let mut bindings: Vec<(usize, Vec<u8>)> = Vec::new();
        bindings.append(&mut pending.bindings);
        assert(edge_values(bindings@) =~= model.bindings);
        assert(edge_values(pending.bindings@) =~= Seq::empty());
        let nothing: Vec<usize> = Vec::new();
        let none: Vec<usize> = Vec::new();
        assert(nothing@ =~= Seq::empty());
        assert(none@ =~= Seq::empty());
        let spec = EdgeSpec {
            scope: pending.scope,
            rule: self.subninja_probe,
            explicit_outputs: copied_ids(&pending.explicit_outputs),
            implicit_outputs: copied_ids(&pending.implicit_outputs),
            explicit_inputs: copied_ids(&pending.inputs),
            implicit_inputs: nothing,
            order_only_inputs: copied_ids(&pending.order_only_inputs),
            validations: none,
            always_dirty: pending.always_dirty,
            intermediate: pending.intermediate,
            has_touchable_recipe: false,
            outputs_unaliased: false,
            outputs_low_resolution: pending.low_resolution,
            bindings,
        };
        assert(spec.model() == before.probe_declared(model, self.subninja_probe));
        proof {
            an_edge_keeps_the_paths(before.graph, spec.model());
        }
        let edge: usize = match self.graph.add_edge(spec) {
            Ok(edge) => edge,
            Err(why) => {
                proof {
                    grown_still_fits(before, self.model());
                }
                return Err(why);
            },
        };
        self.graph.set_make_target(
            edge,
            copied_ids(&pending.withdrawable),
            pending.delete_on_error,
            copied_ids(&pending.peer_outputs),
        );
        self.graph.forgive_order_inputs(edge, &pending.forgiven_order_inputs);
        let ghost middle = self.graph.model();
        self.graph.set_disposable_outputs(&pending.disposable_outputs);
        proof {
            crate::graph::disposable_keeps_the_rest(middle, pending.disposable_outputs@);
            grown_still_fits(before, self.model());
        }
        Ok(edge)
    }

    /// Stage the lines before one of a recipe's invocations, where there are
    /// any.
    #[verifier::rlimit(40)]
    pub fn stage_preceding_lines(&mut self, pending: &PendingSubninja, index: usize) -> (staged:
        Result<Option<usize>, FrontendError>)
        requires
            old(self).wf(),
            pending.model().ok(
                old(self).model().graph.nodes.len(),
                old(self).model().graph.rules.len(),
            ),
            index < pending.invocations@.len(),
        ensures
            final(self).wf(),
            final(self).settled_rules@ == old(self).settled_rules@,
            final(self).settled_scripts@ == old(self).settled_scripts@,
            match pending.invocations@[index as int].preceding_rule {
                None => staged == Ok::<Option<usize>, FrontendError>(None) && final(self).model()
                    == old(self).model() && final(self).settled_edges@ == old(self).settled_edges@,
                Some(rule) => {
                    let (after, built) = old(self).model().with_stage(pending.model(), rule);
                    &&& final(self).model() == after
                    &&& stage_model(staged) == (match built {
                        Ok(proxy) => Ok(Some(proxy)),
                        Err(refusal) => Err(refusal),
                    })
                    &&& match pending.invocations@[index as int].preceding_script {
                        Some(segment) if built is Ok => launched_for(
                            segment,
                            after.graph.nodes[built->Ok_0 as int].path,
                            old(self).model().graph.edges.len() as usize,
                            old(self).settled_edges@,
                            final(self).settled_edges@,
                        ),
                        _ => final(self).settled_edges@ == old(self).settled_edges@,
                    }
                },
            },
    {
        let rule: usize = match pending.invocations[index].preceding_rule {
            Some(rule) => rule,
            None => return Ok(None),
        };
        let ghost before = self.model();
        let ghost model = pending.model();
        assert(invocations_ok(model.invocations, before.graph.rules.len()));
        let name: Vec<u8> = message(
            "__ronin_recipe_stage_",
            &decimal_of(self.recipe_stages as u64),
        );
        assert(decimal(self.recipe_stages as nat).len() > 0);
        let proxy: usize = match self.graph.isolated_node(&name) {
            Ok(proxy) => proxy,
            Err(why) => return Err(why),
        };
        self.recipe_stages = self.recipe_stages + 1;
        let ghost middle = self.model();
        proof {
            grown_still_fits(before, middle);
        }
        let mut outputs: Vec<usize> = Vec::new();
        outputs.push(proxy);
        assert(outputs@ =~= seq![proxy]);
        let nothing: Vec<usize> = Vec::new();
        let none: Vec<usize> = Vec::new();
        let empty: Vec<usize> = Vec::new();
        let bare: Vec<usize> = Vec::new();
        let bindings: Vec<(usize, Vec<u8>)> = Vec::new();
        assert(nothing@ =~= Seq::empty());
        assert(none@ =~= Seq::empty());
        assert(empty@ =~= Seq::empty());
        assert(bare@ =~= Seq::empty());
        assert(edge_values(bindings@) =~= Seq::empty());
        let spec = EdgeSpec {
            scope: pending.scope,
            rule,
            explicit_outputs: outputs,
            implicit_outputs: nothing,
            explicit_inputs: none,
            implicit_inputs: empty,
            order_only_inputs: pending.evaluation_inputs(),
            validations: bare,
            always_dirty: true,
            intermediate: false,
            has_touchable_recipe: false,
            outputs_unaliased: false,
            outputs_low_resolution: false,
            bindings,
        };
        let ghost declared = spec.model();
        proof {
            an_edge_keeps_the_paths(middle.graph, declared);
        }
        let built: usize = match self.graph.add_edge(spec) {
            Ok(built) => built,
            Err(why) => {
                proof {
                    grown_still_fits(middle, self.model());
                }
                return Err(why);
            },
        };
        proof {
            grown_still_fits(middle, self.model());
        }
        if let Some(segment) = &pending.invocations[index].preceding_script {
            let path: Vec<u8> = copied(self.graph.path(proxy));
            let launched: Option<SettledSteps> = segment.launch(&path);
            let ghost steps = launched;
            if let Some(held) = launched {
                self.settled_edges.push((built, held));
            }
            assert(segment_launches(*segment, path@, steps));
        }
        Ok(Some(proxy))
    }

    /// Settle whether a recursive edge has to run at all: one that is current
    /// runs nothing, and its outputs are files of their own.
    pub fn settle_subninja_freshness(&mut self, edge: usize, dirty: bool)
        requires
            old(self).wf(),
            edge < old(self).model().graph.edges.len(),
        ensures
            final(self).wf(),
            final(self).settled_as(*old(self)),
            final(self).model() == (if dirty {
                old(self).model()
            } else {
                SinkModel {
                    graph: old(self).model().graph.with_edge(
                        edge,
                        EdgeModel {
                            declared: EdgeDeclared {
                                rule: 0,
                                outputs_unaliased: true,
                                ..old(self).model().graph.edges[edge as int].declared
                            },
                            ..old(self).model().graph.edges[edge as int]
                        },
                    ),
                    ..old(self).model()
                }
            }),
    {
        if dirty {
            return;
        }
        let ghost before = self.model();
        self.graph.set_edge_rule(edge, 0);
        self.graph.unalias_outputs(edge);
        proof {
            let changed = EdgeModel {
                declared: EdgeDeclared {
                    rule: 0,
                    outputs_unaliased: true,
                    ..before.graph.edges[edge as int].declared
                },
                ..before.graph.edges[edge as int]
            };
            assert(self.model().graph.edges =~= before.graph.edges.update(edge as int, changed));
            grown_still_fits(before, self.model());
        }
    }

    /// The graph everything declared makes, or the first failure of declaring
    /// it.
    ///
    /// `ungrouped` is how many commands that are in no pool may run at once,
    /// where the run bounds them.
    pub fn into_graph(self, ungrouped: Option<usize>) -> (graph: Result<BuildGraph, FrontendError>)
        requires
            self.wf(),
        ensures
            match self.model().failure {
                Some(refusal) => graph matches Err(why) && why.model() == refusal,
                None => graph matches Ok(built) && built.model() == bounded(
                    self.model().graph,
                    ungrouped,
                ) && built.model().wf(),
            },
    {
        let mut graph: BuildGraph = self.graph;
        if let Some(depth) = ungrouped {
            if let Ok(pool) = graph.define_pool("make_jobs_run".as_bytes()) {
                graph.set_pool_depth(pool, depth);
                graph.hold_unpooled_edges(pool);
            }
        }
        match self.failure {
            Some(failure) => Err(failure),
            None => Ok(graph),
        }
    }
}

/// A graph with every command that is in no pool bounded, where the run bounds
/// them.
pub open spec fn bounded(graph: GraphModel, ungrouped: Option<usize>) -> GraphModel {
    match ungrouped {
        Some(depth) => {
            let (pooled, pool) = graph.with_pool(text("make_jobs_run"));
            match pool {
                Ok(place) => pooled.with_depth(place, depth).with_unpooled_held(place),
                Err(_) => graph,
            }
        },
        None => graph,
    }
}

impl SinkModel {
    /// With a pool declared and its depth set, or the failure of it kept.
    pub open spec fn with_sink_pool(self, name: Seq<u8>, depth: usize) -> (
        SinkModel,
        Option<Refusal>,
    ) {
        let (graph, pool) = self.graph.with_pool(name);
        let after = SinkModel { graph, declared_pools: self.declared_pools.push(name), ..self };
        match pool {
            Err(refusal) => (after.refused(refusal), Some(refusal)),
            Ok(place) => (
                SinkModel {
                    graph: if depth > 0 {
                        graph.with_depth(place, depth)
                    } else {
                        graph
                    },
                    ..after
                },
                None,
            ),
        }
    }

    /// With the first `count` pools of an evaluation declared, each once, up to
    /// the first that cannot be.
    pub open spec fn with_sink_pools(self, pools: Seq<SinkPool>, count: int) -> (
        SinkModel,
        Option<Refusal>,
    )
        decreases count,
    {
        if count <= 0 {
            (self, None)
        } else {
            let before = self.with_sink_pools(pools, count - 1);
            let pool = pools[count - 1];
            if before.1 is Some || before.0.declared_pools.contains(pool.name@) {
                before
            } else {
                before.0.with_sink_pool(pool.name@, pool.depth)
            }
        }
    }

    /// With the pools of an evaluation and this unit's own declared.
    pub open spec fn with_start(self, pools: Seq<SinkPool>) -> (SinkModel, Option<Refusal>) {
        let first = self.with_sink_pools(pools, pools.len() as int);
        if first.1 is Some {
            first
        } else {
            let second = match first.0.unit.serial_pool {
                Some(name) => first.0.with_sink_pool(name, 1),
                None => first,
            };
            if second.1 is Some {
                second
            } else {
                match second.0.unit.job_pool {
                    Some(pool) => if second.0.declared_pools.contains(pool.0) {
                        second
                    } else {
                        second.0.with_sink_pool(pool.0, pool.1)
                    },
                    None => second,
                }
            }
        }
    }
}

proof fn pools_fail_from(sink: SinkModel, pools: Seq<SinkPool>, few: int, many: int)
    requires
        0 <= few <= many,
        sink.with_sink_pools(pools, few).1 is Some,
    ensures
        sink.with_sink_pools(pools, many) == sink.with_sink_pools(pools, few),
    decreases many - few,
{
    if few < many {
        pools_fail_from(sink, pools, few, many - 1);
    }
}

impl GraphSink {
    /// Declare a pool and set its depth, a depth of none bounding nothing.
    fn declare_pool(&mut self, name: &[u8], depth: usize) -> (done: Result<(), FrontendError>)
        requires
            old(self).wf(),
        ensures
            final(self).wf(),
            final(self).settled_as(*old(self)),
            (final(self).model(), done_model(done)) == old(self).model().with_sink_pool(
                name@,
                depth,
            ),
    {
        let ghost before = self.model();
        push_text(&mut self.declared_pools, copied(name));
        match self.graph.define_pool(name) {
            Err(why) => {
                proof {
                    grown_still_fits(before, self.model());
                }
                self.refuse(&why);
                Err(why)
            },
            Ok(pool) => {
                if depth > 0 {
                    self.graph.set_pool_depth(pool, depth);
                }
                proof {
                    grown_still_fits(before, self.model());
                }
                Ok(())
            },
        }
    }

    /// Begin an evaluation: declare its pools, each once however many units
    /// name it, and this unit's own.
    pub fn start(&mut self, pools: &[SinkPool]) -> (done: Result<(), FrontendError>)
        requires
            old(self).wf(),
        ensures
            final(self).wf(),
            final(self).settled_as(*old(self)),
            (final(self).model(), done_model(done)) == old(self).model().with_start(pools@),
    {
        let ghost began = self.model();
        let mut at: usize = 0;
        while at < pools.len()
            invariant
                at <= pools@.len(),
                began == old(self).model(),
                self.wf(),
                self.settled_as(*old(self)),
                (self.model(), None::<Refusal>) == began.with_sink_pools(pools@, at as int),
            decreases pools@.len() - at,
        {
            if !holds(&self.declared_pools, &pools[at].name) {
                if let Err(why) = self.declare_pool(&pools[at].name, pools[at].depth) {
                    proof {
                        pools_fail_from(began, pools@, at as int + 1, pools@.len() as int);
                    }
                    return Err(why);
                }
            }
            at += 1;
        }
        let serial: Option<Vec<u8>> = crate::bytes::copied_maybe(&self.unit.serial_pool);
        if let Some(name) = serial {
            if let Err(why) = self.declare_pool(&name, 1) {
                return Err(why);
            }
        }
        let job: Option<(Vec<u8>, usize)> = match &self.unit.job_pool {
            Some(pool) => Some((copied(&pool.0), pool.1)),
            None => None,
        };
        if let Some(pool) = job {
            if !holds(&self.declared_pools, &pool.0) {
                if let Err(why) = self.declare_pool(&pool.0, pool.1) {
                    return Err(why);
                }
            }
        }
        Ok(())
    }
}

} // verus!
