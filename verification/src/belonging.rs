//! What belongs to whom: the edges a recipe made, the files a unit makes, the
//! targets it names and the jobs it runs.

use crate::bytes::text;
use crate::child::last_value;
use crate::command::{jobs_of, reads_of};
use crate::composing::{chained, claimed, edges_waiting, job_ok};
use crate::describing::{DeferredSemantics, IgnoredCommand};
use crate::edging::{only_a_name, searched_node, searched_of, EdgeNodes};
use crate::graph::{DeferredModel, GraphModel};
use crate::invocation::looked_up;
use crate::layout::last_change;
use crate::options::JobLimit;
use crate::oracle::{noted, noted_freshness, RuleSemantics};
use crate::order::{adopted, fresh_of};
use crate::remake::{complaint_for, Pass, Passes, Planned};
use crate::session::unit_changes;
use crate::shell::runs_to_resolve;
use crate::sink::{ChildGroup, SerialJob, SinkEdge, SinkModel, SinkRule};
use crate::waiting::completed_holds_both;
use vstd::prelude::*;

verus! {

/// What a recipe made is what the children it composed made, and nothing of a
/// child it only reached.
pub proof fn what_a_recipe_made_is_its_own(children: Seq<ChildGroup>, edge: usize)
    ensures
        fresh_of(children).contains(edge) <==> exists|i: int|
            0 <= i < children.len() && (#[trigger] children[i]).fresh
                && children[i].subgraph.fresh_edges@.contains(edge),
    decreases children.len(),
{
    if children.len() > 0 {
        let fewer = children.drop_last();
        let last = children[children.len() - 1];
        what_a_recipe_made_is_its_own(fewer, edge);
        crate::waiting::both_lists(
            fresh_of(fewer),
            if last.fresh {
                last.subgraph.fresh_edges@
            } else {
                Seq::empty()
            },
            edge,
        );
        if fresh_of(fewer).contains(edge) {
            let i = choose|i: int|
                0 <= i < fewer.len() && (#[trigger] fewer[i]).fresh
                    && fewer[i].subgraph.fresh_edges@.contains(edge);
            assert(children[i].fresh && children[i].subgraph.fresh_edges@.contains(edge));
        }
        if exists|i: int|
            0 <= i < children.len() && (#[trigger] children[i]).fresh
                && children[i].subgraph.fresh_edges@.contains(edge) {
            let i = choose|i: int|
                0 <= i < children.len() && (#[trigger] children[i]).fresh
                    && children[i].subgraph.fresh_edges@.contains(edge);
            if i < fewer.len() {
                assert(fewer[i].fresh && fewer[i].subgraph.fresh_edges@.contains(edge));
            }
        }
    }
}

/// A unit's closure takes in every edge of every child, made or only reached, and
/// keeps what it had in front.
pub proof fn a_closure_takes_every_child_in(
    edges: Seq<usize>,
    groups: Seq<ChildGroup>,
    count: int,
    edge: usize,
)
    requires
        0 <= count <= groups.len(),
    ensures
        adopted(edges, groups, count).contains(edge) <==> edges.contains(edge) || exists|i: int|
            0 <= i < count && (#[trigger] groups[i]).subgraph.edges@.contains(edge),
        edges.is_prefix_of(adopted(edges, groups, count)),
    decreases count,
{
    if count > 0 {
        let before = adopted(edges, groups, count - 1);
        a_closure_takes_every_child_in(edges, groups, count - 1, edge);
        completed_holds_both(before, groups[count - 1].subgraph.edges@);
        let after = adopted(edges, groups, count);
        assert(after.contains(edge) <==> before.contains(edge)
            || groups[count - 1].subgraph.edges@.contains(edge));
        if exists|i: int|
            0 <= i < count - 1 && (#[trigger] groups[i]).subgraph.edges@.contains(edge) {
            let i = choose|i: int|
                0 <= i < count - 1 && (#[trigger] groups[i]).subgraph.edges@.contains(edge);
            assert(groups[i].subgraph.edges@.contains(edge));
        }
        if exists|i: int| 0 <= i < count && (#[trigger] groups[i]).subgraph.edges@.contains(edge) {
            let i = choose|i: int|
                0 <= i < count && (#[trigger] groups[i]).subgraph.edges@.contains(edge);
            if i < count - 1 {
                assert(groups[i].subgraph.edges@.contains(edge));
            }
        }
        assert(after.take(edges.len() as int) =~= before.take(edges.len() as int));
        assert(edges =~= before.take(edges.len() as int));
    } else {
        assert(edges.take(edges.len() as int) =~= edges);
    }
}

/// A fixed limit bounds the recipes and the reads alike. With none asked for the
/// recipes are not bounded and one makefile is read at a time; an unbounded `-j`
/// bounds neither.
pub proof fn a_limit_bounds_recipes_and_reads(count: usize)
    ensures
        jobs_of(JobLimit::Fixed(count)) == count,
        reads_of(JobLimit::Fixed(count)) == count,
        jobs_of(JobLimit::Auto) == usize::MAX,
        reads_of(JobLimit::Auto) == 1,
        jobs_of(JobLimit::Unlimited) == usize::MAX,
        reads_of(JobLimit::Unlimited) == usize::MAX,
{
}

/// A unit makes what its edges with a recipe make, unless the target has no date
/// to go by or only stands for another's completion.
pub proof fn a_recipe_makes_its_units_files(
    sink: SinkModel,
    edge: SinkEdge,
    nodes: Seq<usize>,
    path: Seq<u8>,
)
    ensures
        ({
            let after = sink.with_generated(edge, nodes);
            &&& after.graph == sink.graph
            &&& after.unit.generated.dom().contains(path) <==> sink.unit.generated.dom().contains(
                path,
            ) || (edge.rule is Some && !edge.always_dirty && !edge.completion_join && exists|
                i: int,
            |
                0 <= i < nodes.len() && sink.graph.nodes[#[trigger] nodes[i] as int].path == path)
        }),
    decreases nodes.len(),
{
    if nodes.len() > 0 && edge.rule is Some && !edge.always_dirty && !edge.completion_join {
        let fewer = nodes.drop_last();
        a_recipe_makes_its_units_files(sink, edge, fewer, path);
        if exists|i: int|
            0 <= i < fewer.len() && sink.graph.nodes[#[trigger] fewer[i] as int].path == path {
            let i = choose|i: int|
                0 <= i < fewer.len() && sink.graph.nodes[#[trigger] fewer[i] as int].path == path;
            assert(sink.graph.nodes[nodes[i] as int].path == path);
        }
        if exists|i: int|
            0 <= i < nodes.len() && sink.graph.nodes[#[trigger] nodes[i] as int].path == path {
            let i = choose|i: int|
                0 <= i < nodes.len() && sink.graph.nodes[#[trigger] nodes[i] as int].path == path;
            if i < fewer.len() {
                assert(sink.graph.nodes[fewer[i] as int].path == path);
            }
        }
        assert(nodes[nodes.len() - 1] == nodes.last());
    }
}

/// An edge that says anything but its target's name is no mention, and a mention
/// of a file that is made changes nothing.
pub proof fn a_mention_gives_way(
    sink: SinkModel,
    edge: SinkEdge,
    held: EdgeNodes,
    published: usize,
    deferred: Option<DeferredModel>,
)
    ensures
        only_a_name(edge) ==> edge.rule is None && edge.inputs@.len() == 0
            && edge.order_only_inputs@.len() == 0 && edge.implicit_outputs@.len() == 0
            && edge.deferred_freshness_outputs@.len() == 0 && !edge.always_dirty
            && !edge.completion_join,
        edge.rule is None && edge.inputs@.len() == 0 && edge.order_only_inputs@.len() == 0
            && edge.implicit_outputs@.len() == 0 && edge.deferred_freshness_outputs@.len() == 0
            && !edge.always_dirty && !edge.completion_join
            && sink.graph.nodes[published as int].generator is Some && !sink.made_around(
            seq![published] + held.implicit_outputs,
        ) ==> sink.with_resolved(edge, held, published, deferred) == (sink, None::<
            crate::graph::Refusal,
        >),
{
}

/// A rule of a child for a file an enclosing unit makes is not read: the graph and
/// the unit stay as they are, and the rule is let go.
pub proof fn an_enclosing_file_keeps_its_rule(
    sink: SinkModel,
    edge: SinkEdge,
    held: EdgeNodes,
    published: usize,
    deferred: Option<DeferredModel>,
    path: Seq<u8>,
)
    requires
        sink.unit.enclosing.dom().contains(path),
        sink.unit.enclosing[path] == published || held.implicit_outputs.contains(
            sink.unit.enclosing[path],
        ),
    ensures
        ({
            let (after, why) = sink.with_resolved(edge, held, published, deferred);
            &&& why is None
            &&& after.graph == sink.graph
            &&& after.unit == sink.unit
            &&& after.interned == sink.interned
            &&& edge.rule matches Some(id) ==> !after.rules.dom().contains(id)
                && !after.subninja_rules.dom().contains(id)
        }),
{
    let outputs = seq![published] + held.implicit_outputs;
    let node = sink.unit.enclosing[path];
    if node == published {
        assert(outputs[0] == node);
    } else {
        let i = choose|i: int|
            0 <= i < held.implicit_outputs.len() && held.implicit_outputs[i] == node;
        assert(outputs[1 + i] == node);
    }
    assert(sink.made_around(outputs));
}

/// The targets a unit names are its own; those of the root unit are what the run
/// builds by default as well, and a child's are not.
pub proof fn only_the_roots_targets_are_defaults(sink: SinkModel, targets: Seq<Seq<u8>>)
    ensures
        ({
            let (after, why) = sink.with_targets(targets);
            why is None ==> {
                &&& after.unit.targets.len() == sink.unit.targets.len() + targets.len()
                &&& after.unit.root == sink.unit.root
                &&& !sink.unit.root ==> after.graph.defaults == sink.graph.defaults
                &&& sink.unit.root ==> after.graph.defaults.len() == sink.graph.defaults.len()
                    + targets.len()
                &&& sink.unit.root ==> forall|i: int|
                    0 <= i < targets.len() ==> #[trigger] after.graph.defaults[sink.graph.defaults.len()
                        + i] == after.unit.targets[sink.unit.targets.len() + i]
                &&& forall|i: int|
                    0 <= i < targets.len() ==> after.interned.dom().contains(#[trigger] targets[i])
                        && after.interned[targets[i]] == after.unit.targets[sink.unit.targets.len()
                        + i]
                &&& forall|name: Seq<u8>| #[trigger]
                    sink.interned.dom().contains(name) ==> after.interned.dom().contains(name)
                        && after.interned[name] == sink.interned[name]
            }
        }),
    decreases targets.len(),
{
    if targets.len() > 0 {
        only_the_roots_targets_are_defaults(sink, targets.drop_last());
        let (before, said) = sink.with_targets(targets.drop_last());
        let (after, why) = sink.with_targets(targets);
        if why is None {
            assert forall|i: int| 0 <= i < targets.len() implies after.interned.dom().contains(
                #[trigger] targets[i],
            ) && after.interned[targets[i]] == after.unit.targets[sink.unit.targets.len() + i] by {
                if i < targets.len() - 1 {
                    assert(targets.drop_last()[i] == targets[i]);
                    assert(before.interned.dom().contains(targets[i]));
                }
            }
            if sink.unit.root {
                assert forall|i: int| 0 <= i < targets.len() implies
                    #[trigger] after.graph.defaults[sink.graph.defaults.len() + i]
                    == after.unit.targets[sink.unit.targets.len() + i] by {
                    if i < targets.len() - 1 {
                        assert(before.graph.defaults[sink.graph.defaults.len() + i]
                            == before.unit.targets[sink.unit.targets.len() + i]);
                    }
                }
            }
        }
    }
}

/// A command with a backtick, a `$(` or a `${` left in it takes a shell to resolve,
/// and one with neither a backtick nor a dollar takes none.
pub proof fn only_a_substitution_takes_a_shell(command: Seq<u8>, at: int)
    requires
        0 <= at < command.len(),
    ensures
        command[at] == 0x60 ==> runs_to_resolve(command),
        command[at] == 0x24 && at + 1 < command.len() && (command[at + 1] == 0x28 || command[at + 1]
            == 0x7b) ==> runs_to_resolve(command),
        (forall|i: int|
            0 <= i < command.len() ==> #[trigger] command[i] != 0x60 && command[i] != 0x24)
            ==> !runs_to_resolve(command),
{
}

/// The complaint that is told is the first that was held for the makefile, and
/// none where none was.
pub proof fn the_first_complaint_is_told(
    before: Seq<(usize, Vec<u8>)>,
    complaint: Vec<u8>,
    after: Seq<(usize, Vec<u8>)>,
    target: usize,
)
    requires
        forall|i: int| 0 <= i < before.len() ==> (#[trigger] before[i]).0 != target,
    ensures
        complaint_for(before + seq![(target, complaint)] + after, target) == seq![complaint@],
        complaint_for(before, target).len() == 0,
    decreases before.len(),
{
    let all = before + seq![(target, complaint)] + after;
    if before.len() > 0 {
        let rest = before.drop_first();
        assert forall|i: int| 0 <= i < rest.len() implies (#[trigger] rest[i]).0 != target by {
            assert(rest[i] == before[i + 1]);
        }
        the_first_complaint_is_told(rest, complaint, after, target);
        assert(all.drop_first() =~= rest + seq![(target, complaint)] + after);
        assert(all[0] == before[0]);
    } else {
        assert(all[0] == (target, complaint));
    }
}

/// What is noted of a rule is whether it holds a recursive invocation, and its
/// script where and only where its failure is forgiven.
pub proof fn a_rule_is_noted_as_declared(held: RuleSemantics, rule: SinkRule)
    requires
        noted(held, rule),
    ensures
        held.recursive == rule.contains_recursive,
        held.ignored_command is Some <==> rule.ignore_errors,
        held.ignored_command matches Some(IgnoredCommand::Inline(script)) ==> script@
            == rule.command.script@ && !rule.command.response_file,
        held.ignored_command matches Some(IgnoredCommand::ResponseFile(script)) ==> script@
            == rule.command.script@ && rule.command.response_file,
{
}

/// What is noted of a grouped action is every list and mark its edge gave.
pub proof fn freshness_is_noted_as_declared(held: DeferredSemantics, edge: SinkEdge)
    requires
        noted_freshness(held, edge),
    ensures
        held.outputs@.len() == edge.deferred_freshness_outputs@.len(),
        forall|i: int|
            0 <= i < held.outputs@.len() ==> (#[trigger] held.outputs@[i])@
                == edge.deferred_freshness_outputs@[i]@,
        held.always_dirty_output == edge.deferred_freshness_always_dirty,
        crate::bytes::texts(held.always_new_inputs@) == crate::bytes::texts(
            edge.deferred_always_new_inputs@,
        ),
        crate::bytes::texts(held.excluded_new_inputs@) == crate::bytes::texts(
            edge.deferred_excluded_new_inputs@,
        ),
        held.new_input_names@.len() == edge.deferred_new_input_names@.len(),
        forall|i: int|
            0 <= i < held.new_input_names@.len() ==> (#[trigger] held.new_input_names@[i])@
                == edge.deferred_new_input_names@[i].0@ + seq![0x3du8]
                + edge.deferred_new_input_names@[i].1@,
        held.completion_join == edge.completion_join,
{
    let outputs = crate::bytes::texts(held.outputs@);
    assert(outputs.len() == held.outputs@.len());
    assert forall|i: int| 0 <= i < held.outputs@.len() implies (#[trigger] held.outputs@[i])@
        == edge.deferred_freshness_outputs@[i]@ by {
        assert(outputs[i] == crate::bytes::texts(edge.deferred_freshness_outputs@)[i]);
    }
    let names = crate::bytes::texts(held.new_input_names@);
    assert(names.len() == held.new_input_names@.len());
    assert forall|i: int| 0 <= i < held.new_input_names@.len() implies (
    #[trigger] held.new_input_names@[i])@ == edge.deferred_new_input_names@[i].0@ + seq![0x3du8]
        + edge.deferred_new_input_names@[i].1@ by {
        let pair = edge.deferred_new_input_names@[i];
        assert(names[i] == pair.0@.push(0x3d) + pair.1@);
        assert(pair.0@.push(0x3d) + pair.1@ =~= pair.0@ + seq![0x3du8] + pair.1@);
    }
}

/// The recipes of a unit hand on the depth of a child, and the `GNUMAKEFLAGS` the
/// unit was told where it was told one.
pub proof fn recipes_hand_on_what_the_unit_was_told(
    environment: Seq<(Seq<u8>, Seq<u8>)>,
    level: usize,
)
    requires
        level < usize::MAX,
    ensures
        unit_changes(environment, level)[0] == (
            text("MAKELEVEL"),
            Some(crate::bytes::decimal((level + 1) as nat)),
        ),
        looked_up(environment, text("GNUMAKEFLAGS")) is None ==> unit_changes(
            environment,
            level,
        ).len() == 1,
        looked_up(environment, text("GNUMAKEFLAGS")) matches Some(value) ==> unit_changes(
            environment,
            level,
        ).len() == 2 && unit_changes(environment, level)[1] == (text("GNUMAKEFLAGS"), Some(value)),
{
}

/// The last word on a name is the last that was said on it.
pub proof fn the_last_word_counts(
    changes: Seq<(Seq<u8>, Option<Seq<u8>>)>,
    environment: Seq<(Seq<u8>, Seq<u8>)>,
    name: Seq<u8>,
    value: Seq<u8>,
    other: Seq<u8>,
)
    requires
        other != name,
    ensures
        last_change(changes.push((name, Some(value))), name) == Some(Some(value)),
        last_change(changes.push((name, None)), name) == Some(None::<Seq<u8>>),
        last_change(changes.push((name, Some(value))), other) == last_change(changes, other),
        last_value(environment.push((name, value)), name) == Some(value),
        last_value(environment.push((name, value)), other) == last_value(environment, other),
        last_change(Seq::empty(), name) is None,
        last_value(Seq::empty(), name) is None,
{
    assert(changes.push((name, Some(value))).drop_last() =~= changes);
    assert(environment.push((name, value)).drop_last() =~= environment);
}

/// Once jobs are chained, the failure of the job before is forgiven by every edge
/// of a job that no earlier job has: a serial unit goes on where one may.
pub proof fn each_job_forgives_the_one_before(
    graph: GraphModel,
    jobs: Seq<SerialJob>,
    job: int,
    edge: usize,
    node: usize,
)
    requires
        forall|i: int| 0 <= i < jobs.len() ==> job_ok(#[trigger] jobs[i], graph),
        0 < job < jobs.len(),
        jobs[job].edges@.contains(edge),
        !claimed(jobs, job, edge),
        jobs[job - 1].completion@.contains(node),
    ensures
        chained(graph, jobs, jobs.len() as int).edges[edge as int].forgiven.contains(node),
{
    let at = choose|at: int| 0 <= at < jobs[job].edges@.len() && jobs[job].edges@[at] == edge;
    assert(job_ok(jobs[job], graph));
    chaining_keeps_forgiving(graph, jobs, 0, job, edge, node);
    let before = chained(graph, jobs, job);
    waiting_forgives(before, jobs, job, jobs[job].edges@.len() as int, edge, node);
    assert(jobs[job].edges@.take(jobs[job].edges@.len() as int) =~= jobs[job].edges@);
    chaining_keeps_forgiving(graph, jobs, job + 1, jobs.len() as int, edge, node);
}

proof fn waiting_forgives(
    graph: GraphModel,
    jobs: Seq<SerialJob>,
    job: int,
    count: int,
    edge: usize,
    node: usize,
)
    requires
        0 < job < jobs.len(),
        0 <= count <= jobs[job].edges@.len(),
        forall|i: int|
            0 <= i < jobs[job].edges@.len() ==> #[trigger] jobs[job].edges@[i] < graph.edges.len(),
        edge < graph.edges.len(),
    ensures
        ({
            let after = edges_waiting(graph, jobs, job, count);
            &&& after.edges.len() == graph.edges.len()
            &&& graph.edges[edge as int].forgiven.contains(node)
                ==> after.edges[edge as int].forgiven.contains(node)
            &&& jobs[job].edges@.take(count).contains(edge) && !claimed(jobs, job, edge)
                && jobs[job - 1].completion@.contains(node)
                ==> after.edges[edge as int].forgiven.contains(node)
        }),
    decreases count,
{
    if count > 0 {
        waiting_forgives(graph, jobs, job, count - 1, edge, node);
        let before = edges_waiting(graph, jobs, job, count - 1);
        let last = jobs[job].edges@[count - 1];
        let few = jobs[job].edges@.take(count - 1);
        let all = jobs[job].edges@.take(count);
        assert(all =~= few.push(last));
        completed_holds_both(before.edges[last as int].forgiven, jobs[job - 1].completion@);
        assert(with_both(before.edges[last as int].forgiven, jobs[job - 1].completion@, node));
        if all.contains(edge) && !few.contains(edge) {
            let i = choose|i: int| 0 <= i < all.len() && all[i] == edge;
            if i < few.len() {
                assert(few[i] == edge);
            }
        }
    }
}

/// Whether a list completed by another holds a node where either does.
spec fn with_both(list: Seq<usize>, more: Seq<usize>, node: usize) -> bool {
    crate::graph::with_missing(list, more).contains(node) <==> list.contains(node)
        || more.contains(node)
}

proof fn chaining_keeps_forgiving(
    graph: GraphModel,
    jobs: Seq<SerialJob>,
    few: int,
    many: int,
    edge: usize,
    node: usize,
)
    requires
        forall|i: int| 0 <= i < jobs.len() ==> job_ok(#[trigger] jobs[i], graph),
        0 <= few <= many <= jobs.len(),
        edge < graph.edges.len(),
    ensures
        chained(graph, jobs, many).edges.len() == graph.edges.len(),
        chained(graph, jobs, few).edges.len() == graph.edges.len(),
        chained(graph, jobs, few).edges[edge as int].forgiven.contains(node) ==> chained(
            graph,
            jobs,
            many,
        ).edges[edge as int].forgiven.contains(node),
    decreases many,
{
    if many > 1 {
        if few < many {
            chaining_keeps_forgiving(graph, jobs, few, many - 1, edge, node);
        } else {
            chaining_keeps_forgiving(graph, jobs, many - 1, many - 1, edge, node);
        }
        assert(job_ok(jobs[many - 1], graph));
        let before = chained(graph, jobs, many - 1);
        waiting_forgives(
            before,
            jobs,
            many - 1,
            jobs[many - 1].edges@.len() as int,
            edge,
            node,
        );
    }
}

/// An edge that only stands for its output's completion makes a stand-in no other
/// name leads to: from there on its unit's name for the output stands for the
/// stand-in, and what observes the output observes the file. Any other edge is
/// published as itself.
pub proof fn a_completion_is_published_apart(sink: SinkModel, edge: SinkEdge, output: usize)
    requires
        sink.graph.nodes.len() < usize::MAX,
    ensures
        ({
            let (after, published) = sink.with_published(edge, output);
            &&& !edge.completion_join ==> after == sink && published == output
            &&& edge.completion_join ==> {
                &&& published == sink.graph.nodes.len()
                &&& after.graph.nodes.len() == sink.graph.nodes.len() + 1
                &&& !after.graph.nodes[published as int].shared
                &&& after.graph.nodes[published as int].generator is None
                &&& after.interned == sink.interned.insert(edge.output@, published)
                &&& after.observed_members == sink.observed_members.insert(edge.output@, output)
                &&& after.graph.edges == sink.graph.edges
                &&& after.unit == sink.unit
            }
        }),
{
}

/// What a search settled is kept beside the target it is about: where the rule was
/// declared, where the file was found and how it was written, with each variable
/// that reads a settled name.
pub proof fn what_a_search_settled_is_kept(
    edge: SinkEdge,
    target: usize,
    nodes: Seq<usize>,
    directory: Seq<u8>,
)
    requires
        nodes.len() == edge.settled_names@.len(),
    ensures
        ({
            let kept = searched_of(edge, target, nodes, directory);
            &&& kept.directory == directory
            &&& edge.declared_by_double_colon matches Some(held) ==> kept.declared == Some(
                (target, held@),
            )
            &&& edge.declared_by_double_colon is None ==> kept.declared is None
            &&& edge.searched_at matches Some(held) ==> kept.found == Some((target, held@))
            &&& edge.searched_at is None ==> kept.found is None
            &&& edge.written_as matches Some(held) ==> kept.written == Some((target, held@))
            &&& edge.written_as is None ==> kept.written is None
            &&& kept.references.len() == edge.settled_names@.len()
            &&& forall|i: int|
                0 <= i < kept.references.len() ==> (#[trigger] kept.references[i]).0
                    == edge.settled_names@[i].variable@ && kept.references[i].1 == (
                    nodes[i],
                    edge.settled_names@[i].view,
                )
            &&& searched_node(edge, target, nodes.len() as usize) == (if edge.completion_join {
                target
            } else {
                nodes.len() as usize
            })
        }),
{
}

/// A pass over nothing, or with nothing to do, is current. One that failed ends the
/// run where the makefiles are needed and is forgiven where they are not; one that
/// succeeded ran.
pub proof fn a_pass_comes_to_what_happened(
    passes: Passes,
    targets: Seq<usize>,
    planned: Planned,
    forgive: bool,
    pass: Pass,
)
    requires
        passes.passed(targets, planned, forgive, pass),
    ensures
        targets.len() == 0 || planned is UpToDate ==> pass is Current,
        targets.len() > 0 ==> (planned matches Planned::Ran(outcome) ==> {
            &&& outcome.exit_code == 0 ==> pass == Pass::Ran(outcome)
            &&& outcome.exit_code != 0 && forgive ==> (pass matches Pass::Lost(unmade) && unmade@
                == outcome.unmade@)
            &&& outcome.exit_code != 0 && !forgive ==> (pass matches Pass::Finished(result)
                && result.exit_code != 0)
        }),
        targets.len() > 0 && planned is Refused && forgive ==> (pass matches Pass::Lost(unmade)
            && unmade@.len() == 0),
        targets.len() > 0 && planned is Refused && !forgive ==> (pass matches Pass::Finished(result)
            && result.exit_code == 2),
{
}

/// An earlier job that has an edge claims it.
pub proof fn a_job_claims_its_edges(jobs: Seq<SerialJob>, earlier: int, count: int, edge: usize)
    requires
        0 <= earlier < count <= jobs.len(),
    ensures
        jobs[earlier].edges@.contains(edge) ==> claimed(jobs, count, edge),
        (forall|i: int| 0 <= i < count ==> !(#[trigger] jobs[i]).edges@.contains(edge))
            ==> !claimed(jobs, count, edge),
{
}

} // verus!
