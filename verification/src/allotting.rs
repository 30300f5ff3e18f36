//! Which of several lists a thing lands in, and what a list leaves of what it is given.

use crate::artifact::{CommandLayout, SettledSteps};
use crate::bytes::{decimal, fields, lossy, replaced, text};
use crate::codec::Flag;
use crate::composing::{completion_launched, made_known};
use crate::graph::{shared_at, EdgeModel, GraphModel};
use crate::hearing::a_spelled_shuffle_names_itself;
use crate::inputs::CompilerInputs;
use crate::invocation::Settings;
use crate::layout::{
    goal_step, quoted_bytes, update_step, EnvironmentChange, SettledScript, SettledSegment,
    SpelledStep,
};
use crate::options::{facets, ArgumentSource, Shuffle, Switch, DB_ALL, DB_PRINT, DB_WHY};
use crate::oracle::{accounted_for, all_forgiven, forgiven_among, unaccounted, wait_text, waits_of};
use crate::outcomes::what_did_not_lose_is_kept;
use crate::parsing::{load_read, numeric, shuffle_read};
use crate::recipe::{line_models, ExpandedStep};
use crate::remake::{grouped, kept, lost_over, Passes, Planned, Stamps, Update};
use crate::report::Reported;
use crate::sink::{GraphSink, Pending, SinkEdge};
use crate::warm::nodes_at;
use vstd::prelude::*;
use vstd::string::*;

verus! {

/// The groups leave nothing out and hold nothing twice.
pub proof fn every_target_is_in_one_group(
    graph: GraphModel,
    goals: Seq<Seq<u8>>,
    forgiven: Seq<usize>,
    targets: Seq<usize>,
)
    ensures
        grouped(graph, goals, forgiven, targets, true, true).len() + grouped(
            graph,
            goals,
            forgiven,
            targets,
            true,
            false,
        ).len() + grouped(graph, goals, forgiven, targets, false, true).len() + grouped(
            graph,
            goals,
            forgiven,
            targets,
            false,
            false,
        ).len() == targets.len(),
    decreases targets.len(),
{
    if targets.len() > 0 {
        every_target_is_in_one_group(graph, goals, forgiven, targets.drop_last());
    }
}

proof fn in_a_longer_list<A>(list: Seq<A>, last: A, item: A)
    ensures
        list.push(last).contains(item) <==> list.contains(item) || last == item,
{
    if list.contains(item) {
        let at = choose|at: int| 0 <= at < list.len() && list[at] == item;
        assert(list.push(last)[at] == item);
    }
    if last == item {
        assert(list.push(last)[list.len() as int] == item);
    }
    if list.push(last).contains(item) && last != item {
        let at = choose|at: int| 0 <= at < list.push(last).len() && list.push(last)[at] == item;
        assert(list[at] == item);
    }
}

proof fn in_two_lists<A>(first: Seq<A>, second: Seq<A>, item: A)
    ensures
        (first + second).contains(item) <==> first.contains(item) || second.contains(item),
{
    if first.contains(item) {
        let at = choose|at: int| 0 <= at < first.len() && first[at] == item;
        assert((first + second)[at] == item);
    }
    if second.contains(item) {
        let at = choose|at: int| 0 <= at < second.len() && second[at] == item;
        assert((first + second)[first.len() + at] == item);
    }
    if (first + second).contains(item) {
        let at = choose|at: int|
            0 <= at < (first + second).len() && (first + second)[at] == item;
        if at < first.len() {
            assert(first[at] == item);
        } else {
            assert(second[at - first.len()] == item);
        }
    }
}

proof fn a_forgiven_input_is_listed(
    graph: GraphModel,
    outputs: Seq<usize>,
    forgiven: Seq<usize>,
    inputs: Seq<usize>,
    output: usize,
    input: usize,
)
    requires
        outputs.contains(output),
        inputs.contains(input),
        forgiven.contains(input),
    ensures
        forgiven_among(graph, outputs, forgiven, inputs).contains(wait_text(graph, output, input)),
    decreases inputs.len(),
{
    let before = inputs.drop_last();
    let less = forgiven_among(graph, outputs, forgiven, before);
    let wait = wait_text(graph, output, input);
    assert(inputs =~= before.push(inputs.last()));
    in_a_longer_list(before, inputs.last(), input);
    in_two_lists(less, waits_of(graph, outputs, inputs.last()), wait);
    if before.contains(input) {
        a_forgiven_input_is_listed(graph, outputs, forgiven, before, output, input);
    } else {
        let at = choose|at: int| 0 <= at < outputs.len() && outputs[at] == output;
        assert(waits_of(graph, outputs, input)[at] == wait);
    }
}

/// Every wait of every output of an edge for an input the edge forgives is told,
/// whichever way the edge takes the input.
pub proof fn every_forgiven_wait_is_told(
    graph: GraphModel,
    count: int,
    place: int,
    output: usize,
    input: usize,
)
    requires
        0 <= place < count <= graph.edges.len(),
        graph.edges[place].forgiven.contains(input),
        graph.edges[place].declared.explicit_outputs.contains(output)
            || graph.edges[place].declared.implicit_outputs.contains(output),
        graph.edges[place].declared.explicit_inputs.contains(input)
            || graph.edges[place].declared.implicit_inputs.contains(input)
            || graph.edges[place].declared.order_only_inputs.contains(input),
    ensures
        all_forgiven(graph, count).contains(wait_text(graph, output, input)),
    decreases count,
{
    let wait = wait_text(graph, output, input);
    let declared = graph.edges[count - 1].declared;
    let outputs = declared.explicit_outputs + declared.implicit_outputs;
    let ordinary = declared.explicit_inputs + declared.implicit_inputs;
    let inputs = ordinary + declared.order_only_inputs;
    let told = forgiven_among(graph, outputs, graph.edges[count - 1].forgiven, inputs);
    in_two_lists(all_forgiven(graph, count - 1), told, wait);
    if place < count - 1 {
        every_forgiven_wait_is_told(graph, count - 1, place, output, input);
    } else {
        in_two_lists(declared.explicit_outputs, declared.implicit_outputs, output);
        in_two_lists(declared.explicit_inputs, declared.implicit_inputs, input);
        in_two_lists(ordinary, declared.order_only_inputs, input);
        a_forgiven_input_is_listed(
            graph,
            outputs,
            graph.edges[place].forgiven,
            inputs,
            output,
            input,
        );
    }
}

/// Nothing is left to answer for exactly where every disagreement is one that is
/// accounted for.
pub proof fn one_disagreement_is_enough(disagreed: Seq<(Vec<u8>, Vec<Vec<u8>>)>)
    ensures
        unaccounted(disagreed) <= disagreed.len(),
        unaccounted(disagreed) == 0 <==> forall|i: int|
            0 <= i < disagreed.len() ==> accounted_for(
                (#[trigger] disagreed[i]).0@,
                disagreed[i].1@,
            ),
    decreases disagreed.len(),
{
    if disagreed.len() > 0 {
        let before = disagreed.drop_last();
        one_disagreement_is_enough(before);
        if forall|i: int|
            0 <= i < disagreed.len() ==> accounted_for(
                (#[trigger] disagreed[i]).0@,
                disagreed[i].1@,
            ) {
            assert forall|i: int| 0 <= i < before.len() implies accounted_for(
                (#[trigger] before[i]).0@,
                before[i].1@,
            ) by {
                assert(before[i] == disagreed[i]);
            }
            assert(accounted_for(
                disagreed[disagreed.len() - 1].0@,
                disagreed[disagreed.len() - 1].1@,
            ));
        }
        if unaccounted(disagreed) == 0 {
            assert forall|i: int| 0 <= i < disagreed.len() implies accounted_for(
                (#[trigger] disagreed[i]).0@,
                disagreed[i].1@,
            ) by {
                if i < before.len() {
                    assert(before[i] == disagreed[i]);
                }
            }
        }
    }
}

/// A command line and a parent settle the order a word asks for: the one it names,
/// or a shuffle by the seed of the run where it asks for any, which a child is told.
pub proof fn an_order_is_asked_for_by_its_name(
    settings: Settings,
    source: ArgumentSource,
    seed: u32,
)
    requires
        source == ArgumentSource::CommandLine || source == ArgumentSource::Inherited,
    ensures
        shuffle_read(settings, source, text("reverse")) == (
            Settings {
                shuffle: Shuffle::Reverse,
                shuffle_spelling: Some(text("reverse")),
                ..settings
            },
            None::<Reported>,
        ),
        shuffle_read(settings, source, text("identity")) == (
            Settings {
                shuffle: Shuffle::Identity,
                shuffle_spelling: Some(text("identity")),
                ..settings
            },
            None::<Reported>,
        ),
        shuffle_read(settings, source, text("none")) == (
            Settings { shuffle: Shuffle::Unshuffled, shuffle_spelling: None, ..settings },
            None::<Reported>,
        ),
        shuffle_read(settings, source, text("random")) == (
            Settings {
                shuffle: Shuffle::Seed(settings.around.seed),
                shuffle_spelling: Some(decimal(settings.around.seed as nat)),
                ..settings
            },
            None::<Reported>,
        ),
        shuffle_read(settings, source, decimal(seed as nat)) == (
            Settings {
                shuffle: Shuffle::Seed(seed),
                shuffle_spelling: Some(decimal(seed as nat)),
                ..settings
            },
            None::<Reported>,
        ),
{
    reveal(shuffle_read);
    a_spelled_shuffle_names_itself(Shuffle::Reverse, settings.around.seed);
    a_spelled_shuffle_names_itself(Shuffle::Identity, settings.around.seed);
    a_spelled_shuffle_names_itself(Shuffle::Seed(seed), settings.around.seed);
    reveal_strlit("none");
    is_ascii_spec_bytes("none");
    reveal_strlit("random");
    is_ascii_spec_bytes("random");
    reveal_strlit("reverse");
    is_ascii_spec_bytes("reverse");
    reveal_strlit("identity");
    is_ascii_spec_bytes("identity");
    assert(text("none")[0] == 0x6e && text("random")[1] == 0x61 && text("reverse")[1] == 0x65);
    assert(text("identity")[0] == 0x69 && text("random")[0] == 0x72);
}

/// A makefile's word about the order is passed on and changes no order here, and
/// what protects the switches says nothing of it.
pub proof fn a_makefile_passes_the_order_on(settings: Settings, word: Seq<u8>)
    requires
        word.len() > 0,
    ensures
        shuffle_read(settings, ArgumentSource::Makefile, word) == (
            Settings { shuffle_spelling: Some(lossy(word)), ..settings },
            None::<Reported>,
        ),
        shuffle_read(settings, ArgumentSource::Protection, word) == (settings, None::<Reported>),
{
    reveal(shuffle_read);
}

/// A directory to look in is listed once, behind those that are there, and nothing
/// else changes.
pub proof fn a_directory_is_looked_in_once(
    settings: Settings,
    source: ArgumentSource,
    named: Seq<u8>,
)
    requires
        named.len() > 0,
    ensures
        ({
            let after = settings.with_include_dir(source, named);
            &&& settings.include_dirs.contains(named) ==> after == settings
            &&& !settings.include_dirs.contains(named) ==> {
                &&& after.include_dirs.len() == settings.include_dirs.len() + 1
                &&& after.include_dirs.drop_last() == settings.include_dirs
                &&& after == (Settings { include_dirs: after.include_dirs, ..settings })
                &&& named == text("-") ==> after.include_dirs.last() == named
            }
        }),
{
    let after = settings.with_include_dir(source, named);
    if !settings.include_dirs.contains(named) {
        assert(after.include_dirs.drop_last() =~= settings.include_dirs);
    }
}

/// A text without what is looked for is left as it is.
pub proof fn what_is_not_there_is_not_replaced(
    bytes: Seq<u8>,
    at: int,
    wanted: Seq<u8>,
    instead: Seq<u8>,
)
    requires
        0 <= at <= bytes.len(),
        forall|i: int|
            at <= i && i + wanted.len() <= bytes.len() ==> #[trigger] bytes.subrange(
                i,
                i + wanted.len(),
            ) != wanted,
    ensures
        replaced(bytes, at, wanted, instead) == bytes.skip(at),
    decreases bytes.len() - at,
{
    if at < bytes.len() {
        what_is_not_there_is_not_replaced(bytes, at + 1, wanted, instead);
        assert(seq![bytes[at]] + bytes.skip(at + 1) =~= bytes.skip(at));
    } else {
        assert(bytes.skip(at) =~= Seq::empty());
    }
}

/// What stands where it is looked for gives way to what is put instead, and reading
/// goes on behind it.
pub proof fn what_is_there_is_replaced(rest: Seq<u8>, wanted: Seq<u8>, instead: Seq<u8>)
    requires
        wanted.len() > 0,
    ensures
        replaced(wanted + rest, 0, wanted, instead) == instead + replaced(
            wanted + rest,
            wanted.len() as int,
            wanted,
            instead,
        ),
        replaced(wanted, 0, wanted, instead) == instead,
{
    assert((wanted + rest).subrange(0, wanted.len() as int) =~= wanted);
    assert(wanted.subrange(0, wanted.len() as int) =~= wanted);
    assert(replaced(wanted, wanted.len() as int, wanted, instead) =~= Seq::empty());
    assert(instead + Seq::<u8>::empty() =~= instead);
}

/// What is thrown away afterwards is what was named and what was before, and no
/// other word about any node changes.
pub proof fn only_what_is_named_is_thrown_away(graph: GraphModel, nodes: Seq<usize>, node: usize)
    requires
        node < graph.nodes.len(),
    ensures
        ({
            let after = graph.with_disposable(nodes);
            &&& after.nodes.len() == graph.nodes.len()
            &&& after.nodes[node as int].disposable == (graph.nodes[node as int].disposable
                || nodes.contains(node))
            &&& after.nodes[node as int].path == graph.nodes[node as int].path
            &&& after.edges == graph.edges
            &&& after.rules == graph.rules
            &&& after.pools == graph.pools
            &&& after.defaults == graph.defaults
        }),
    decreases nodes.len(),
{
    if nodes.len() > 0 {
        only_what_is_named_is_thrown_away(graph, nodes.drop_last(), node);
        assert(nodes =~= nodes.drop_last().push(nodes.last()));
        in_a_longer_list(nodes.drop_last(), nodes.last(), node);
    }
}

/// Every node of a list is known as made under its path, and no path becomes known
/// that is none of theirs.
pub proof fn what_is_made_is_known(
    made: Map<Seq<u8>, usize>,
    graph: GraphModel,
    nodes: Seq<usize>,
    path: Seq<u8>,
)
    ensures
        made_known(made, graph, nodes).dom().contains(path) <==> (made.dom().contains(path)
            || exists|i: int|
            0 <= i < nodes.len() && graph.nodes[#[trigger] nodes[i] as int].path == path),
        made_known(made, graph, nodes).dom().contains(path) ==> (made_known(
            made,
            graph,
            nodes,
        )[path] == made[path] || graph.nodes[made_known(made, graph, nodes)[path] as int].path
            == path),
    decreases nodes.len(),
{
    if nodes.len() > 0 {
        let before = nodes.drop_last();
        what_is_made_is_known(made, graph, before, path);
        if exists|i: int|
            0 <= i < before.len() && graph.nodes[#[trigger] before[i] as int].path == path {
            let i = choose|i: int|
                0 <= i < before.len() && graph.nodes[#[trigger] before[i] as int].path == path;
            assert(nodes[i] == before[i]);
        }
        assert(nodes[nodes.len() - 1] == nodes.last());
        if exists|i: int|
            0 <= i < nodes.len() && graph.nodes[#[trigger] nodes[i] as int].path == path {
            let i = choose|i: int|
                0 <= i < nodes.len() && graph.nodes[#[trigger] nodes[i] as int].path == path;
            if i < before.len() {
                assert(before[i] == nodes[i]);
            }
        }
    }
}

/// The nodes at some paths are one for each, in their order, and each the first that
/// is shared under its path; one path that is nowhere leaves none of them.
pub proof fn each_path_has_its_node(graph: GraphModel, paths: Seq<Seq<u8>>, count: int, at: int)
    requires
        0 <= at < count <= paths.len(),
        graph.nodes.len() <= usize::MAX,
    ensures
        nodes_at(graph, paths, count) matches Some(nodes) ==> {
            &&& nodes.len() == count
            &&& nodes[at] == shared_at(graph.nodes, paths[at], 0)
            &&& nodes[at] < graph.nodes.len()
        },
        !(0 <= shared_at(graph.nodes, paths[at], 0) < graph.nodes.len()) ==> nodes_at(
            graph,
            paths,
            count,
        ) is None,
    decreases count,
{
    if at < count - 1 {
        each_path_has_its_node(graph, paths, count - 1, at);
    } else if count > 1 {
        each_path_has_its_node(graph, paths, count - 1, 0);
    }
}

/// What a rule was settled to run goes with the edge that is built by it, and is no
/// longer the rule's; what was settled for any other edge or rule stays.
pub proof fn what_was_settled_goes_with_its_edge(
    before: GraphSink,
    after: GraphSink,
    edge: SinkEdge,
    id: usize,
)
    requires
        before.model().resolved(edge) is Some,
        after.launches_kept(before, edge),
        after.model().graph.edges.len() > before.model().graph.edges.len(),
        edge.rule == Some(id),
    ensures
        !after.settled_rules@.dom().contains(id),
        !after.settled_scripts@.dom().contains(id),
        forall|other: usize|
            other != id && #[trigger] before.settled_rules@.dom().contains(other)
                ==> after.settled_rules@.dom().contains(other) && after.settled_rules@[other]
                == before.settled_rules@[other],
        before.settled_rules@.dom().contains(id) ==> after.settled_edges@.contains(
            (before.model().graph.edges.len() as usize, before.settled_rules@[id]),
        ),
        before.settled_edges@.len() <= after.settled_edges@.len(),
        forall|i: int|
            0 <= i < before.settled_edges@.len() ==> #[trigger] after.settled_edges@[i]
                == before.settled_edges@[i],
        forall|i: int|
            before.settled_edges@.len() <= i < after.settled_edges@.len() ==> (
            #[trigger] after.settled_edges@[i]).0 == before.model().graph.edges.len() as usize,
{
    let count = before.model().graph.edges.len() as usize;
    if before.settled_rules@.dom().contains(id) {
        let held = before.settled_rules@[id];
        assert(after.settled_edges@[before.settled_edges@.len() as int] == (count, held));
    }
}

/// What is left behind a recipe's invocations is recorded against its own edge
/// alone, and where nothing is left nothing is recorded.
pub proof fn what_is_left_runs_for_its_own_edge(
    pending: Pending,
    graph: GraphModel,
    edge: usize,
    before: Seq<(usize, SettledSteps)>,
    after: Seq<(usize, SettledSteps)>,
)
    requires
        completion_launched(pending, graph, edge, before, after),
    ensures
        pending.residual_rule is None || pending.residual_script is None ==> after == before,
        pending.residual_rule is Some && pending.explicit_outputs.len() > 0 && (
        pending.residual_script matches Some(SettledSegment::Steps(_))) ==> after.len()
            == before.len() + 1,
        before.len() <= after.len() <= before.len() + 1,
        forall|i: int| 0 <= i < before.len() ==> #[trigger] after[i] == before[i],
        forall|i: int| before.len() <= i < after.len() ==> (#[trigger] after[i]).0 == edge,
{
}

/// What a pass that is forgiven wrote is told behind what was told before, and a
/// pass the run ends with takes what was told along.
pub proof fn a_forgiven_pass_is_told(passes: Passes, targets: Seq<usize>, planned: Planned)
    requires
        targets.len() > 0,
    ensures
        planned matches Planned::Ran(outcome) ==> {
            &&& outcome.exit_code == 0 ==> passes.narrated(targets, planned, true)
                == passes.reported@ && passes.narrated(targets, planned, false)
                == passes.reported@
            &&& outcome.exit_code != 0 ==> passes.narrated(targets, planned, true)
                == passes.reported@ + lossy(outcome.output@) && passes.narrated(
                targets,
                planned,
                false,
            ).len() == 0
        },
        planned is UpToDate ==> passes.narrated(targets, planned, true) == passes.reported@
            && passes.narrated(targets, planned, false) == passes.reported@,
        planned is Refused ==> passes.narrated(targets, planned, true) == passes.reported@
            && passes.narrated(targets, planned, false).len() == 0,
{
}

/// A subset's makefiles are remade or lost, those before it stay as they were, and
/// what its build wrote is told behind what was told before.
pub proof fn a_subset_is_remade_or_lost(
    before: CompilerInputs,
    planned: Planned,
    stamps: Stamps,
    update: Update,
    reported: Seq<u8>,
    node: usize,
)
    requires
        before.remade_into(planned, stamps, update, reported),
    ensures
        ({
            let targets = before.subsets@[before.at as int].targets@;
            let failed = planned matches Planned::Ran(outcome) && outcome.exit_code != 0
                && outcome.unmade@.contains(node) && targets.len() > 0;
            &&& update.unmade@.contains(node) <==> before.update.unmade@.contains(node) || failed
            &&& update.remade@.contains(node) <==> before.update.remade@.contains(node) || (
            targets.contains(node) && !failed)
            &&& planned matches Planned::Ran(outcome) ==> targets.len() > 0 ==> reported
                == before.passes.reported@ + lossy(outcome.output@)
            &&& !(planned is Ran) || targets.len() == 0 ==> reported == before.passes.reported@
        }),
{
    let subset = before.subsets@[before.at as int];
    let lost = lost_over(subset, planned);
    what_did_not_lose_is_kept(subset.targets@, lost, node);
    in_two_lists(before.update.unmade@, lost, node);
    in_two_lists(before.update.remade@, kept(subset.targets@, lost), node);
}

/// Only edges that run something and are in no pool are put in the pool, and nothing
/// else about any edge changes.
pub proof fn only_what_runs_unpooled_is_held(graph: GraphModel, pool: usize, place: int)
    requires
        0 <= place < graph.edges.len(),
    ensures
        ({
            let after = graph.with_unpooled_held(pool);
            let was = graph.edges[place];
            let is = after.edges[place];
            &&& after.edges.len() == graph.edges.len()
            &&& was.pool is Some ==> is.pool == was.pool
            &&& was.declared.rule == 0 ==> is.pool == was.pool
            &&& was.pool is None && was.declared.rule != 0 ==> is.pool == Some(pool)
            &&& is == (EdgeModel { pool: is.pool, ..was })
            &&& after == (GraphModel { edges: after.edges, ..graph })
        }),
{
}

/// Each line is launched as its own step says: whether its failure counts for
/// nothing, and whether it runs where the build only pretends.
pub proof fn each_line_is_launched_as_its_step_says(
    layout: CommandLayout,
    lines: Seq<ExpandedStep>,
    changed: Seq<EnvironmentChange>,
    count: int,
    at: int,
)
    requires
        0 <= at < count <= lines.len(),
    ensures
        ({
            let launched = line_models(layout, lines, changed, count);
            &&& launched.len() == count
            &&& launched[at].0 == layout.step_model(lines[at].step, changed, lines[at].spelled)
            &&& launched[at].1 == (
                Flag { value: lines[at].step.ignore_error },
                Flag { value: lines[at].step.recursive_line },
            )
        }),
    decreases count,
{
    if at < count - 1 {
        each_line_is_launched_as_its_step_says(layout, lines, changed, count - 1, at);
    } else if count > 1 {
        each_line_is_launched_as_its_step_says(layout, lines, changed, count - 1, 0);
    } else {
        assert(line_models(layout, lines, changed, 0).len() == 0);
    }
}

/// A script the plain shell runs is handed over behind the flags for a script, or,
/// where it lies in a file, behind the flags for a file; no other shell's is run so.
pub proof fn a_script_has_the_flags_of_its_kind(
    script: SettledScript,
    output: Seq<u8>,
    scoped: Seq<EnvironmentChange>,
)
    ensures
        script.shell@ != text("/bin/sh") ==> script.step_under(output, scoped) is None,
        script.shell@ == text("/bin/sh") ==> (script.step_under(output, scoped) matches Some(step)
            && step.1 == (Flag { value: script.ignore_errors }, Flag { value: false }) && (
        script.script matches Some(held) ==> step.0 == script.layout.direct_model(
            seq![script.shell@] + fields(script.shell_flags@) + seq![held@],
            scoped,
        )) && (script.script is None ==> step.0 == script.layout.direct_model(
            seq![script.shell@] + fields(script.file_flags@) + seq![
                script.layout.response_path(output),
            ],
            scoped,
        ))),
{
}

/// A line runs for the makefile update as it does for the goals but for the switches
/// it is spelled with, each in its own spelling.
pub proof fn only_the_spelling_differs_for_the_update(
    layout: CommandLayout,
    step: SpelledStep,
    scoped: Seq<EnvironmentChange>,
)
    ensures
        update_step(layout, step, scoped).1 == goal_step(layout, step, scoped).1,
        goal_step(layout, step, scoped).1 == (
            Flag { value: step.step.ignore_error },
            Flag { value: step.step.recursive_line },
        ),
        update_step(layout, step, scoped).0 == layout.step_model(step.step, scoped, step.remaking),
        goal_step(layout, step, scoped).0 == layout.step_model(step.step, scoped, step.spelled),
{
}

/// `-d` asks for everything, `--trace` for what is run and why, and neither for
/// nothing; every word of `--debug` adds to that in turn.
pub proof fn what_is_traced_is_what_was_asked(settings: Settings)
    ensures
        settings.debug.len() == 0 && !settings.given.contains(Switch::Debug)
            && !settings.given.contains(Switch::Trace) ==> settings.debug_level() == 0,
        settings.debug.len() == 0 && settings.given.contains(Switch::Debug)
            && !settings.given.contains(Switch::Trace) ==> settings.debug_level() == DB_ALL,
        settings.debug.len() == 0 && !settings.given.contains(Switch::Debug)
            && settings.given.contains(Switch::Trace) ==> settings.debug_level() == 0u16 | (
        DB_PRINT | DB_WHY),
        settings.debug.len() > 0 ==> settings.debug_level() == (match facets(
            (Settings { debug: settings.debug.drop_last(), ..settings }).debug_level(),
            settings.debug.last(),
            0,
        ) {
            Some(selected) => selected,
            None => (Settings { debug: settings.debug.drop_last(), ..settings }).debug_level(),
        }),
{
}

/// A ceiling on the load is what is attached to its option, or the number behind it,
/// and one that is not there is not carried on.
pub proof fn a_load_is_attached_or_the_next_number(
    arguments: Seq<Seq<u8>>,
    at: int,
    attached: Seq<u8>,
)
    requires
        0 <= at < arguments.len(),
    ensures
        attached.len() > 0 ==> load_read(arguments, at, attached) == ((attached, true), at),
        attached.len() == 0 && at + 1 < arguments.len() && numeric(arguments[at + 1])
            ==> load_read(arguments, at, attached) == ((arguments[at + 1], true), at + 1),
        attached.len() == 0 && (at + 1 == arguments.len() || !numeric(arguments[at + 1]))
            ==> load_read(arguments, at, attached) == ((Seq::<u8>::empty(), false), at),
{
}

/// Bytes without a quote are quoted as they are, and a quote is closed over,
/// escaped, and opened again.
pub proof fn only_a_quote_is_written_apart(word: Seq<u8>)
    ensures
        (forall|i: int| 0 <= i < word.len() ==> #[trigger] word[i] != 0x27) ==> quoted_bytes(word)
            == word,
        quoted_bytes(word.push(0x27)) == quoted_bytes(word) + seq![0x27u8, 0x5cu8, 0x27u8, 0x27u8],
    decreases word.len(),
{
    assert(word.push(0x27).drop_last() =~= word);
    if word.len() > 0 {
        let before = word.drop_last();
        only_a_quote_is_written_apart(before);
        if forall|i: int| 0 <= i < word.len() ==> #[trigger] word[i] != 0x27 {
            assert forall|i: int| 0 <= i < before.len() implies #[trigger] before[i] != 0x27 by {
                assert(before[i] == word[i]);
            }
            assert(word[word.len() - 1] != 0x27);
            assert(before + seq![word.last()] =~= word);
        }
    } else {
        assert(quoted_bytes(word) =~= word);
    }
}

} // verus!
