//! What is read, remade, composed and reported around one build.

use ronin_make::ahead::{
    collect, pool_size, prepare_session, read_ahead, reads_ahead, ChildStart, Claims, ReadJournal,
    Reporting,
};
use ronin_make::artifact::{
    BuildArtifact, CommandLayout, LateStep, Launch, RecipeUnitArtifact, SettledSteps,
};
use ronin_make::child::{
    child_invocation, compilation_directory, compile, inherited_options, prefix_under,
    root_compilation, selected_directory, Entered,
};
use ronin_make::command::{parse, Action, BuildOptions, CliError, JobCounts, OptionStream};
use ronin_make::enclosing::{for_children, for_the_child_of};
use ronin_make::error::MakeError;
use ronin_make::graph::{BuildGraph, EdgeSpec, Template};
use ronin_make::inputs::{CompilerInputs, Staged, Turn};
use ronin_make::invocation::{Invocation, Surroundings};
use ronin_make::layout::{RecipeStep, Spelled};
use ronin_make::options::{JobLimit, Shuffle, Switch};
use ronin_make::order::{adopt_child_groups, dependency_ordered, EdgeClosure, SerialJobs};
use ronin_make::paths::make_named_invocation;
use ronin_make::preparing::{
    composition_key, concluded, default_makefile, emit_raised, led_by_raised, level_of,
    named_makefiles, prepare_graph, selected, AfterLoading, AfterRead, Ending, Loaded, Reads,
    Selection, READ_LIMIT,
};
use ronin_make::recipe::{
    expanded_in, ExpandedRecipe, ExpandedStep, LateBinding, PendingRecipes, RecipeUnit, Unexpanded,
    Wanted,
};
use ronin_make::remake::{
    after_staging, after_update, paths_of, remaking_options, AfterUpdate, Makefiles, Pass, Passes,
    Planned, Remaking, Settlement, Stamps, Update,
};
use ronin_make::report::{
    abandoned, answered, cut_short, diagnostic_body, discard_intermediates, finished,
    refused_makefile, BuildFailure, Outcome, RunResult, ABANDONED, INTERRUPTED_EXIT_CODE,
};
use ronin_make::session::{
    compilation_context, pass_session, record_invocation_variables, session_for,
    CompilationContext,
};
use ronin_make::shell::{
    command_substitution_end, extend_compilation_key, invocation_words, runs_a_command_to_resolve, shell_words, substituted, substitution_failure,
    InvocationWords,
};
use ronin_make::sink::{ChildGroup, PendingSubninja, SubninjaInvocation, UnitSubgraph};
use ronin_make::table::Table;
use ronin_make::warm::{
    assemble_recipes, prepared, warm_settled, warm_start, wrappers_still_clean, Prepared, RebuiltUnit,
};

fn words(list: &[&str]) -> Vec<Vec<u8>> {
    list.iter().map(|word| word.as_bytes().to_vec()).collect()
}

fn said(bytes: &[u8]) -> String {
    String::from_utf8_lossy(bytes).into_owned()
}

fn parsed(arguments: &[&str]) -> Invocation {
    match parse(&words(arguments), &None, &None, Surroundings::bare()) {
        Action::Execute(invocation) => invocation,
        Action::Immediate(_) => panic!("these arguments describe a build"),
    }
}

fn nodes(graph: &mut BuildGraph, paths: &[&str]) -> Vec<usize> {
    paths
        .iter()
        .map(|path| graph.node(path.as_bytes()).expect("a node"))
        .collect()
}

fn named(graph: &BuildGraph, targets: &[usize]) -> Vec<String> {
    paths_of(graph, targets).iter().map(|path| said(path)).collect()
}

fn makefiles(
    remakes: Vec<usize>,
    forgiven: Vec<usize>,
    invocation: &Invocation,
    options: BuildOptions,
    goals: &[&str],
) -> Makefiles {
    Makefiles {
        remakes,
        forgiven,
        questioning: invocation.questioning(),
        options,
        goals: words(goals),
    }
}

#[test]
fn dry_run_describes_goals_not_makefiles() {
    let mut graph = BuildGraph::new();
    let remakes = nodes(&mut graph, &["gen.mk", "asked.mk"]);
    let invocation = parsed(&["make", "-n", "asked.mk"]);
    let options = BuildOptions {
        dryrun: true,
        verbose: true,
        ..BuildOptions::default()
    };
    let makefiles = makefiles(remakes, Vec::new(), &invocation, options, &["asked.mk"]);

    let subsets = makefiles.subsets(&graph);
    assert_eq!(named(&graph, &subsets[0].targets), vec!["gen.mk"]);
    assert!(!subsets[0].options.dryrun);
    assert_eq!(named(&graph, &subsets[2].targets), vec!["asked.mk"]);
    assert!(subsets[2].options.dryrun);
    assert!(subsets[1].targets.is_empty());
}

#[test]
fn question_leaves_its_named_makefile_alone() {
    let mut graph = BuildGraph::new();
    let remakes = nodes(&mut graph, &["gen.mk", "asked.mk"]);
    let invocation = parsed(&["make", "-q", "asked.mk"]);
    let makefiles = makefiles(
        remakes,
        Vec::new(),
        &invocation,
        BuildOptions::default(),
        &["asked.mk"],
    );

    let subsets = makefiles.subsets(&graph);
    assert_eq!(named(&graph, &subsets[0].targets), vec!["gen.mk"]);
    assert!(subsets[2].targets.is_empty());
}

#[test]
fn optional_include_is_forgiven_and_attempted() {
    let mut graph = BuildGraph::new();
    let remakes = nodes(&mut graph, &["needed.mk", "spare.mk"]);
    let forgiven = vec![remakes[1]];
    let invocation = parsed(&["make"]);
    let makefiles = makefiles(
        remakes,
        forgiven,
        &invocation,
        BuildOptions::default(),
        &[],
    );

    let subsets = makefiles.subsets(&graph);
    assert_eq!(named(&graph, &subsets[0].targets), vec!["needed.mk"]);
    assert!(!subsets[0].forgive);
    assert_eq!(named(&graph, &subsets[1].targets), vec!["spare.mk"]);
    assert!(subsets[1].forgive);
    assert_eq!(subsets[1].options.maxfail, usize::MAX);
}

#[test]
fn remaking_keeps_settings_but_not_description() {
    let options = BuildOptions {
        dryrun: true,
        verbose: true,
        maxfail: 7,
        quiet: true,
        ..BuildOptions::default()
    };
    let remaking = remaking_options(&options);
    assert!(!remaking.dryrun && !remaking.verbose);
    assert_eq!(remaking.maxfail, 7);
    assert!(remaking.quiet);
}

fn outcome(exit_code: i32, unmade: &[usize], regenerated: &[usize]) -> Outcome {
    Outcome {
        output: b"ran\n".to_vec(),
        front_end_diagnostic: None,
        stopped: None,
        exit_code,
        interrupted: false,
        ran_a_command: true,
        unmade: unmade.to_vec(),
        regenerated: regenerated.to_vec(),
    }
}

fn failure(said: &str) -> BuildFailure {
    BuildFailure {
        said: said.as_bytes().to_vec(),
        refused_a_questioned_makefile: false,
    }
}

fn passes(complaints: &[(usize, &str)]) -> Passes {
    Passes {
        reported: Vec::new(),
        complaints: complaints
            .iter()
            .map(|(target, complaint)| (*target, complaint.as_bytes().to_vec()))
            .collect(),
        silent: false,
        keep_going: false,
    }
}

#[test]
fn a_lost_makefile_complains_of_the_goal_it_stopped_at() {
    let mut passes = passes(&[(3, "gen.mk: no such file"), (4, "other.mk: no such file")]);
    match passes.run(&[4, 3], Planned::Ran(outcome(1, &[3], &[4])), false) {
        Pass::Finished(result) => {
            assert_eq!(said(&result.stderr), "gen.mk: no such file\n");
            assert_eq!(result.exit_code, ABANDONED);
        }
        other => panic!("a required makefile ends the run: {other:?}"),
    }
    // Its own recipe never ran, because something it needed lost first.
    assert_eq!(
        passes.complaints_for(&[4, 3], &outcome(1, &[9], &[4])),
        words(&["gen.mk: no such file"])
    );
}

#[test]
fn a_forgiven_makefile_is_lost_and_narrated() {
    let mut passes = passes(&[]);
    match passes.run(&[3], Planned::Ran(outcome(1, &[3], &[])), true) {
        Pass::Lost(unmade) => assert_eq!(unmade, vec![3]),
        other => panic!("a forgiven makefile is lost: {other:?}"),
    }
    assert_eq!(said(&passes.reported), "ran\n");
    assert!(matches!(
        passes.run(&[], Planned::UpToDate, false),
        Pass::Current
    ));
    assert!(matches!(
        passes.run(&[3], Planned::Refused(failure("cycle")), true),
        Pass::Lost(unmade) if unmade.is_empty()
    ));
    match passes.run(&[3], Planned::Refused(failure("cycle")), false) {
        Pass::Finished(result) => assert_eq!(said(&result.stderr), "ronin: cycle\n"),
        other => panic!("a required makefile that cannot be planned ends the run: {other:?}"),
    }
}

#[test]
fn only_a_makefile_that_moved_and_won_starts_over() {
    let targets = [3, 4];
    let stamps = |before: [Option<u64>; 2], after: [Option<u64>; 2]| Stamps {
        before: before.to_vec(),
        after: after.to_vec(),
    };
    let settle = |pass: Pass, stamps: Stamps| {
        let mut update = Update::new();
        let over = update.take_in(&mut passes(&[]), &targets, pass, &stamps, false);
        assert!(over.is_none());
        update.concluded()
    };
    match settle(
        Pass::Lost(vec![3]),
        stamps([Some(1), Some(1)], [Some(2), Some(1)]),
    ) {
        Remaking::Settled { remade, unmade } => {
            assert_eq!(remade, vec![4]);
            assert_eq!(unmade, vec![3]);
        }
        other => panic!("a lost makefile starts nothing over: {other:?}"),
    }
    assert!(matches!(
        settle(
            Pass::Lost(vec![3]),
            stamps([Some(1), None], [Some(2), Some(1)])
        ),
        Remaking::Restart
    ));
    assert!(matches!(
        settle(
            Pass::Ran(outcome(0, &[], &[3])),
            stamps([Some(1), None], [Some(1), None])
        ),
        Remaking::Settled { .. }
    ));
    let mut update = Update::new();
    let over = update.take_in(
        &mut passes(&[]),
        &targets,
        Pass::Answered(Ok(false)),
        &stamps([None, None], [None, None]),
        false,
    );
    assert_eq!(over.expect("a question ends the run").exit_code, 1);
}

#[test]
fn a_refusal_outlives_a_restart() {
    let refusals = || Some(vec![(Some(b"gen.mk: gone".to_vec()), b"*** No rule".to_vec())]);
    match after_update(Remaking::Restart, refusals(), b"narrated".to_vec()) {
        AfterUpdate::Close(Settlement::Finished(result)) => {
            assert!(said(&result.stderr).starts_with("gen.mk: gone\n"));
            assert_eq!(result.exit_code, ABANDONED);
        }
        other => panic!("the refusal ends the run: {other:?}"),
    }
    assert!(matches!(
        after_update(Remaking::Restart, None, Vec::new()),
        AfterUpdate::Close(Settlement::Restart)
    ));
    let over = Remaking::Finished(RunResult {
        stdout: Vec::new(),
        stderr: Vec::new(),
        exit_code: 1,
    });
    assert!(matches!(
        after_update(over, refusals(), Vec::new()),
        AfterUpdate::Over(Settlement::Finished(_))
    ));
    assert!(matches!(
        after_staging(Pass::Current, false, Ok(()), Vec::new(), false, false),
        Ok(Settlement::Settled)
    ));
    assert!(matches!(
        after_staging(Pass::Current, true, Ok(()), Vec::new(), false, false),
        Ok(Settlement::Staged)
    ));
    assert!(matches!(
        after_staging(Pass::Current, true, Err(failure("log")), Vec::new(), false, false),
        Err(unflushed) if said(&unflushed.said) == "log"
    ));
    match after_staging(
        Pass::Answered(Ok(true)),
        true,
        Err(failure("log")),
        Vec::new(),
        false,
        false,
    ) {
        Ok(Settlement::Finished(result)) => assert_eq!(result.exit_code, 2),
        other => panic!("a log that was not flushed is a failure: {other:?}"),
    }
}

#[test]
fn a_read_is_started_so_often_and_no_more() {
    let mut reads = Reads::none();
    for at in 1..READ_LIMIT {
        let settlement = if at % 2 == 0 {
            Settlement::Restart
        } else {
            Settlement::Staged
        };
        assert!(matches!(reads.settle(settlement), AfterRead::Again));
    }
    assert_eq!(reads.restarts, (READ_LIMIT - 1) / 2);
    assert!(matches!(
        reads.settle(Settlement::Restart),
        AfterRead::GaveUp
    ));
    let mut once = Reads::none();
    assert!(matches!(once.settle(Settlement::Settled), AfterRead::Build));
}

#[test]
fn the_first_default_a_directory_offers_is_read() {
    assert_eq!(
        default_makefile(&words(&["Makefile", "makefile"])),
        Some(b"makefile".to_vec())
    );
    assert_eq!(default_makefile(&words(&["other.mk"])), None);
    let asked = parsed(&["make", "-f", "a.mk", "-f", "b.mk"]);
    assert_eq!(
        named_makefiles(&asked, &words(&["Makefile"])),
        words(&["a.mk", "b.mk"])
    );
    assert!(matches!(selected(&[]), Selection::Nothing));
    assert!(matches!(
        selected(&words(&["-", "a.mk"])),
        Selection::Read { drains_input: true }
    ));
    match selected(&words(&["-", "-"])) {
        Selection::Refused(result) => assert_eq!(
            said(&result.stderr),
            "ronin: Makefile from standard input specified twice\n"
        ),
        other => panic!("standard input cannot be read twice: {other:?}"),
    }
}

#[test]
fn a_level_is_what_the_environment_spells() {
    assert_eq!(level_of(Some(b" 3\n")), 3);
    assert_eq!(level_of(Some(b"deep")), 0);
    assert_eq!(level_of(None), 0);
}

#[test]
fn a_diagnostic_is_streamed_or_retained() {
    let mut held = Vec::new();
    let written = emit_raised(b"Makefile:1: careful\n".to_vec(), false, &mut held);
    assert!(written.is_empty());
    assert_eq!(held, b"Makefile:1: careful\n");

    let streamed = emit_raised(b"Makefile:2: careful again\n".to_vec(), true, &mut held);
    assert_eq!(streamed, b"Makefile:2: careful again\n");
    assert_eq!(
        held, b"Makefile:1: careful\n",
        "a streamed diagnostic is not retained as well"
    );
}

#[test]
fn a_refusal_stands_behind_what_was_raised_on_the_way() {
    let refusal = || RunResult {
        stdout: Vec::new(),
        stderr: b"refused\n".to_vec(),
        exit_code: 2,
    };
    let mut held = b"careful\n".to_vec();
    let led = led_by_raised(refusal(), false, &mut held);
    assert_eq!(said(&led.stderr), "careful\nrefused\n");
    assert!(held.is_empty());
    assert_eq!(
        said(&led_by_raised(refusal(), true, &mut held).stderr),
        "refused\n"
    );
}

#[test]
fn a_run_ends_in_one_of_three_ways() {
    let built = |outcome: Outcome| {
        concluded(
            Vec::new(),
            Ending::Ran {
                up_to_date: false,
                outcome,
            },
            Ok(()),
            false,
            false,
            false,
        )
        .expect("the logs were flushed")
    };
    assert_eq!(built(outcome(0, &[], &[])).exit_code, 0);
    assert_eq!(built(outcome(7, &[], &[])).exit_code, ABANDONED);
    let mut stopped = outcome(130, &[], &[]);
    stopped.interrupted = true;
    assert_eq!(built(stopped).exit_code, INTERRUPTED_EXIT_CODE);
    let failed = concluded(
        b"narrated".to_vec(),
        Ending::Failed(failure("cannot plan")),
        Ok(()),
        false,
        false,
        false,
    )
    .expect("a failure is reported");
    assert_eq!(said(&failed.stdout), "narrated\n");
    assert_eq!(said(&failed.stderr), "ronin: cannot plan\n");
    assert!(concluded(
        Vec::new(),
        Ending::Ran {
            up_to_date: true,
            outcome: outcome(0, &[], &[])
        },
        Err(failure("log")),
        false,
        false,
        false,
    )
    .is_err());
    let asked = concluded(
        Vec::new(),
        Ending::Answered(Ok(false)),
        Ok(()),
        false,
        false,
        false,
    )
    .expect("a question is answered");
    assert_eq!(asked.exit_code, 1);
}

#[test]
fn what_is_reported_names_its_product_once() {
    assert_eq!(said(&abandoned(Vec::new(), b"why").stderr), "ronin: why\n");
    assert_eq!(cut_short(b"so far".to_vec()).exit_code, 130);
    let questioned = BuildFailure {
        said: b"no".to_vec(),
        refused_a_questioned_makefile: true,
    };
    assert_eq!(
        answered(Vec::new(), Err(questioned), true, false).exit_code,
        1
    );
    let mut idle = outcome(0, &[], &[]);
    idle.output = Vec::new();
    idle.ran_a_command = false;
    assert_eq!(
        said(&finished(Vec::new(), true, &idle, false).stdout),
        "ronin: no work to do.\n"
    );
    assert!(finished(Vec::new(), true, &idle, true).stdout.is_empty());
    let refused = refused_makefile(Vec::new(), &[(None, b"*** No rule".to_vec())]);
    assert!(said(&refused.stderr).starts_with("ronin: "));
    assert!(discard_intermediates(words(&["a.y"]), true).is_empty());
    assert_eq!(
        discard_intermediates(words(&["a.y"]), false),
        words(&["a.y"])
    );
    assert_eq!(
        said(&diagnostic_body(b"*** [Makefile:2: out] Error 1")),
        said(&diagnostic_body(b"[Makefile:2: out] Error 1"))
    );
}

#[test]
fn a_composition_is_known_by_everything_that_shapes_it() {
    let key = |arguments: &[&str]| composition_key(&parsed(arguments));
    assert_eq!(key(&["make", "-k"]), key(&["make", "-k"]));
    for other in [
        ["make", "-n"].as_slice(),
        ["make", "-j2"].as_slice(),
        ["make", "-f", "a.mk"].as_slice(),
        ["make", "-I", "a.mk"].as_slice(),
        ["make", "--eval=A=1"].as_slice(),
        ["make", "-W", "b.x"].as_slice(),
        ["make", "--shuffle=reverse"].as_slice(),
        ["make", "-S"].as_slice(),
    ] {
        assert_ne!(key(&["make"]), key(other), "{other:?}");
    }
    // The goals and the variables are named beside it.
    assert_eq!(key(&["make", "all"]), key(&["make", "A=1"]));
}

fn edges(graph: &mut BuildGraph, count: usize) -> Vec<usize> {
    let root = graph.root();
    let command = graph.binding(b"command");
    let rule = graph
        .define_rule(root, b"touch", vec![(command, Template::literal(b"true"))])
        .expect("rule");
    (0..count)
        .map(|at| {
            let output = graph.node(format!("out{at}").as_bytes()).expect("node");
            graph
                .add_edge(edge(root, rule, vec![output], Vec::new()))
                .expect("edge")
        })
        .collect()
}

fn edge(scope: usize, rule: usize, outputs: Vec<usize>, inputs: Vec<usize>) -> EdgeSpec {
    EdgeSpec {
        scope,
        rule,
        explicit_outputs: outputs,
        implicit_outputs: Vec::new(),
        explicit_inputs: inputs,
        implicit_inputs: Vec::new(),
        order_only_inputs: Vec::new(),
        validations: Vec::new(),
        always_dirty: false,
        intermediate: false,
        has_touchable_recipe: false,
        outputs_unaliased: false,
        outputs_low_resolution: false,
        bindings: Vec::new(),
    }
}

fn group(edges: &[usize], fresh: bool) -> ChildGroup {
    ChildGroup {
        subgraph: UnitSubgraph {
            targets: Vec::new(),
            edges: edges.to_vec(),
            fresh_edges: if fresh { edges.to_vec() } else { Vec::new() },
        },
        fresh,
    }
}

#[test]
fn ronin_make_a_shared_child_lands_once_ordered() {
    let mut graph = BuildGraph::new();
    let made = edges(&mut graph, 5);
    let mut closure = EdgeClosure::of(vec![made[0]]);
    let mut fresh = Vec::new();
    closure.push(made[1]);
    adopt_child_groups(
        &[group(&[made[3], made[2]], false)],
        &mut closure,
        &mut fresh,
    );
    adopt_child_groups(
        &[group(&[made[2], made[4], made[3]], false)],
        &mut closure,
        &mut fresh,
    );
    assert_eq!(
        closure.into_edges(),
        vec![made[0], made[1], made[3], made[2], made[4]]
    );
}

#[test]
fn ronin_make_a_closure_keeps_own_edges_once() {
    let mut graph = BuildGraph::new();
    let made = edges(&mut graph, 3);
    let mut closure = EdgeClosure::of(vec![made[0], made[1]]);
    let mut fresh = Vec::new();
    closure.push(made[2]);
    adopt_child_groups(
        &[group(&[made[1], made[2], made[0]], false)],
        &mut closure,
        &mut fresh,
    );
    assert_eq!(closure.into_edges(), vec![made[0], made[1], made[2]]);
}

#[test]
fn a_job_is_a_wrapper_and_what_it_composed() {
    let mut jobs = SerialJobs::new();
    jobs.push(
        9,
        &[group(&[1, 2], true), group(&[3], false)],
        vec![4],
    );
    assert_eq!(jobs.jobs[0].edges, vec![9, 1, 2]);
    assert_eq!(jobs.jobs[0].completion, vec![4]);
}

fn pending(command: &str, outputs: &[usize], inputs: &[usize]) -> PendingSubninja {
    PendingSubninja {
        invocations: vec![SubninjaInvocation {
            command: command.as_bytes().to_vec(),
            make: b"make".to_vec(),
            shell: b"/bin/sh".to_vec(),
            shell_flags: b"-c".to_vec(),
            preceding_rule: None,
            preceding_script: None,
            location: None,
        }],
        scope: 0,
        residual_rule: None,
        residual_script: None,
        diagnostic_command: command.as_bytes().to_vec(),
        explicit_outputs: outputs.to_vec(),
        implicit_outputs: Vec::new(),
        inputs: inputs.to_vec(),
        order_only_inputs: Vec::new(),
        forgiven_order_inputs: Vec::new(),
        always_dirty: true,
        deferred: None,
        completion_output: None,
        intermediate: false,
        disposable_outputs: Vec::new(),
        low_resolution: false,
        withdrawable: Vec::new(),
        delete_on_error: false,
        peer_outputs: Vec::new(),
        bindings: Vec::new(),
    }
}

fn commands(ordered: &[PendingSubninja]) -> Vec<String> {
    ordered
        .iter()
        .map(|pending| said(&pending.diagnostic_command))
        .collect()
}

#[test]
fn a_recipe_composes_behind_what_it_needs_through_an_ordinary_target() {
    let mut graph = BuildGraph::new();
    let made = nodes(&mut graph, &["X.mdh", "X.mdhi", "X.mdhs", "other"]);
    graph
        .add_edge(edge(0, 0, vec![made[1]], vec![made[2]]))
        .expect("the ordinary target between the two");
    let (ordered, mut holds) = dependency_ordered(
        vec![
            pending("mdh", &[made[0]], &[made[1]]),
            pending("other", &[made[3]], &[]),
            pending("mdhs", &[made[2]], &[]),
        ],
        &graph,
    );
    assert_eq!(commands(&ordered), vec!["other", "mdhs", "mdh"]);
    assert!(holds.batched && holds.sorted(2));
    assert!(!holds.any() && holds.composing());
    holds.hold(1);
    assert!(holds.any());
    assert!(holds.reads_a_held_recipe(2));
    assert!(!holds.reads_a_held_recipe(0));
    holds.stopped_inside();
    assert!(!holds.composing());
}

#[test]
fn recipes_that_wait_for_each_other_come_last() {
    let mut graph = BuildGraph::new();
    let made = nodes(&mut graph, &["a", "b", "c"]);
    let (ordered, mut holds) = dependency_ordered(
        vec![
            pending("a", &[made[0]], &[made[1]]),
            pending("b", &[made[1]], &[made[0]]),
            pending("c", &[made[2]], &[]),
        ],
        &graph,
    );
    assert_eq!(commands(&ordered), vec!["c", "a", "b"]);
    assert!(!holds.batched && holds.sorted(0) && !holds.sorted(1));
    holds.hold(1);
    assert!(holds.reads_a_held_recipe(0));
}

#[test]
fn a_child_is_not_shown_what_its_own_recursion_makes() {
    let mut graph = BuildGraph::new();
    let made = nodes(&mut graph, &["vmlinux_o", "vmlinux.o", "zsh.export"]);
    graph
        .add_edge(edge(0, 0, vec![made[1]], vec![made[0]]))
        .expect("the rule that writes nothing");
    let mut around = Table::new();
    around.put(b"zsh.export".to_vec(), made[2]);
    let mut own = Table::new();
    own.put(b"vmlinux_o".to_vec(), made[0]);
    own.put(b"vmlinux.o".to_vec(), made[1]);
    let seen = for_children(&around, &own);
    assert_eq!(seen.entries.len(), 3);
    let left = for_the_child_of(&seen, &pending("make", &[made[0]], &[]), &graph);
    assert_eq!(left.entries, vec![(b"zsh.export".to_vec(), made[2])]);
}

#[test]
fn one_thread_is_not_a_pool() {
    assert_eq!(pool_size(1, 8, true), None);
    assert_eq!(pool_size(0, 8, true), None);
}

#[test]
fn an_unlimited_job_count_is_bounded() {
    assert_eq!(pool_size(usize::MAX, 8, true), Some(8));
    assert_eq!(pool_size(4, 8, true), Some(4));
    assert_eq!(pool_size(4, 8, false), None);
}

#[test]
fn a_read_starts_early_only_where_it_is_certain() {
    let quiet = Reporting {
        reporting: false,
        recording: false,
        collecting: true,
    };
    let both = || vec![pending("make -C a", &[0], &[]), pending("make -C b", &[1], &[])];
    assert!(reads_ahead(&both(), 2, quiet));
    assert!(!reads_ahead(&both(), 1, quiet));
    assert!(!reads_ahead(&both()[..1], 2, quiet));
    assert!(!reads_ahead(
        &both(),
        2,
        Reporting {
            collecting: false,
            ..quiet
        }
    ));
    let mut waits = both();
    waits[1].inputs = vec![0];
    assert!(!reads_ahead(&waits, 2, quiet));
    let mut resolves = both();
    resolves[0].invocations[0].command = b"make -C `pwd`".to_vec();
    assert!(!reads_ahead(&resolves, 2, quiet));
    assert!(runs_a_command_to_resolve(b"make ${X}"));
    assert!(!runs_a_command_to_resolve(b"make $X"));

    let mut claims = Claims::new();
    assert!(claims.claim(b"a", false));
    assert!(!claims.claim(b"a", false));
    assert!(!claims.claim(b"b", true));
    assert!(claims.claim(b"b", false));
}

#[test]
fn a_unit_read_again_is_handed_what_it_read_first() {
    let mut journals = Table::new();
    journals.put(
        b"a".to_vec(),
        ReadJournal {
            ground: 7,
            sources: Vec::new(),
        },
    );
    let again = prepare_session(&b"a".to_vec(), Shuffle::Reverse, &journals);
    assert!(again.is_repeated_read);
    assert_eq!(again.replayed.expect("a journal").ground, 7);
    let first = prepare_session(&b"b".to_vec(), Shuffle::Reverse, &journals);
    assert!(!first.is_repeated_read && first.replayed.is_none());
}

#[test]
fn an_evaluator_is_told_what_its_invocation_asks() {
    let invocation = parsed(&[
        "make", "-k", "-n", "-R", "-I", "inc", "A=1", "--eval=B=2", "all",
    ]);
    let flags = session_for(&invocation, &words(&["Makefile"]), 4, b"/usr/bin/make");
    assert!(flags.keep_going && flags.is_dry_run);
    assert!(flags.no_builtin_rules && flags.no_builtin_variables);
    assert!(!flags.is_silent_mode);
    assert_eq!(flags.cl_vars, words(&["A=1"]));
    assert_eq!(said(&flags.makeflags), "knrR -Iinc");
    assert_eq!(said(&flags.eval_flags), "--eval=B=2");
    assert!(flags.has_overrides && flags.has_evals);
    assert_eq!(flags.subkati_args, words(&["/usr/bin/make"]));
    assert_eq!(flags.targets, words(&["all"]));
    assert_eq!(flags.num_jobs, 4);
}

fn environment(pairs: &[(&str, &str)]) -> Vec<(Vec<u8>, Vec<u8>)> {
    pairs
        .iter()
        .map(|(name, value)| (name.as_bytes().to_vec(), value.as_bytes().to_vec()))
        .collect()
}

fn context() -> CompilationContext {
    let invocation = parsed(&["make", "-k", "-W", "new.x"]);
    let told = record_invocation_variables(
        &environment(&[("GNUMAKEFLAGS", "-k"), ("MAKEFLAGS", "s"), ("PATH", "/bin")]),
        &invocation,
        0,
        2,
    );
    compilation_context(
        &invocation,
        b"/src".to_vec(),
        JobCounts {
            carried: 3,
            parallel_reads: 2,
        },
        0,
        &told,
        false,
        2,
    )
}

#[test]
fn a_makefile_is_told_where_it_stands() {
    let told = record_invocation_variables(
        &environment(&[("GNUMAKEFLAGS", "-k"), ("MAKEFLAGS", "s"), ("PATH", "/bin")]),
        &parsed(&["make", "-k"]),
        1,
        2,
    );
    assert_eq!(
        told,
        environment(&[
            ("PATH", "/bin"),
            ("MAKELEVEL", "1"),
            ("MAKE_RESTARTS", "2"),
            ("GNUMAKEFLAGS", ""),
            ("MFLAGS", "-k"),
        ])
    );
    let context = context();
    assert!(context.restarted);
    assert_eq!(context.assumed_new, words(&["new.x"]));
    assert_eq!(
        context.recipe_environment,
        vec![
            (b"MAKELEVEL".to_vec(), Some(b"1".to_vec())),
            (b"GNUMAKEFLAGS".to_vec(), Some(Vec::new())),
        ]
    );
    assert!(context
        .environment
        .iter()
        .all(|(name, _)| name != b"MAKE_RESTARTS"));
}

#[test]
fn a_recursive_recipe_is_a_compilation_of_its_own() {
    let parent = context();
    let (makeflags, gnumakeflags) = inherited_options(&parent);
    assert_eq!(makeflags, Some(b"k".to_vec()));
    assert_eq!(gnumakeflags, Some(Vec::new()));
    let stream = |written: Option<Vec<u8>>| {
        written.map(|written| OptionStream {
            expansion: Ok(written.clone()),
            written,
        })
    };
    let command = b"make -C sub all";
    let invoked = match invocation_words(command, b"make", &[]) {
        InvocationWords::Invoked { entered, words } => {
            assert!(entered.is_none());
            words.expect("a static invocation")
        }
        _ => panic!("a static invocation"),
    };
    let invocation = child_invocation(
        &invoked,
        &stream(makeflags),
        &stream(gnumakeflags),
        Surroundings::bare(),
    )
    .expect("it describes a graph");
    assert_eq!(
        selected_directory(&parent.directory, &invocation.directories[0]),
        b"/src/sub"
    );
    let child = compile(
        &invocation,
        b"/src/sub".to_vec(),
        &words(&["Makefile"]),
        b"make",
        command,
        b"make",
        b"/bin/sh",
        b"-c",
        &parent,
    )
    .expect("the directory offers a makefile");
    assert_eq!(child.context.path_prefix, b"sub");
    assert_eq!(child.context.level, 1);
    assert!(child.context.assumed_new.is_empty());
    assert!(child.context.restarted);
    assert_eq!(said(&child.context.makeflags), "k");
    assert_eq!(
        child.context.recipe_environment.last(),
        Some(&(b"MAKELEVEL".to_vec(), Some(b"2".to_vec())))
    );
    assert!(child.cache_key.starts_with(b"/src/sub\0Makefile\0k\0make -C sub all\0make"));
    match compile(
        &invocation,
        b"/src/sub".to_vec(),
        &[],
        b"make",
        command,
        b"make",
        b"/bin/sh",
        b"-c",
        &parent,
    ) {
        Err(MakeError::MissingChildMakefile { directory }) => assert_eq!(directory, b"/src/sub"),
        _ => panic!("there is nothing to read"),
    }
}

#[test]
fn an_invocation_that_describes_no_graph_is_refused_with_its_answer() {
    match child_invocation(
        &words(&["make", "--not-a-make-option"]),
        &None,
        &None,
        Surroundings::bare(),
    ) {
        Err(MakeError::Evaluate(why)) => assert!(said(&why).starts_with(
            "recursive Make invocation does not describe a graph: \
             ronin: unrecognized option '--not-a-make-option'"
        ) && !why.ends_with(b"\n")),
        _ => panic!("the option is unknown"),
    }
    match compilation_directory(b"/src/gone", Entered::Refused(b"No such file".to_vec())) {
        Err(MakeError::Evaluate(why)) => assert_eq!(
            said(&why),
            "cannot enter recursive Make directory '/src/gone': No such file"
        ),
        _ => panic!("there is no such directory"),
    }
    match compilation_directory(b"/src/x", Entered::NotADirectory(b"/src/x".to_vec())) {
        Err(MakeError::Evaluate(why)) => assert_eq!(
            said(&why),
            "recursive Make directory '/src/x' is not a directory"
        ),
        _ => panic!("a file is no directory"),
    }
    assert_eq!(prefix_under(b"/src", b"/src"), b"");
    assert_eq!(prefix_under(b"/src", b"/srcs/x"), b"/srcs/x");
    assert_eq!(prefix_under(b"/", b"/x"), b"x");
}

#[test]
fn a_static_invocation_is_split_as_a_shell_would() {
    assert_eq!(
        shell_words(b"make -C 'a b' \"c d\" e\\ f \\\n g").expect("static words"),
        words(&["make", "-C", "a b", "c d", "e f", "g"])
    );
    assert!(shell_words(b"make | tee log").is_err());
    assert!(shell_words(b"make *.c").is_err());
    assert!(shell_words(b"make 'open").is_err());
    match invocation_words(b"cd sub && exec make all", b"make", &[]) {
        InvocationWords::Invoked { entered, words: got } => {
            assert_eq!(entered, Some(b"sub".to_vec()));
            assert_eq!(
                got.expect("a static invocation"),
                words(&["make", "all"])
            );
        }
        _ => panic!("a static invocation"),
    }
    match invocation_words(b"echo make", b"make", &[]) {
        InvocationWords::Invoked { words: Err(MakeError::Evaluate(why)), .. } => assert_eq!(
            said(&why),
            "recursive MAKE reference is not the invoked command: echo make"
        ),
        _ => panic!("the command is not Make"),
    }
    assert!(matches!(
        invocation_words(b"make -C $(pwd)", b"make", &[]),
        InvocationWords::Expand(script) if script == b"pwd"
    ));
    match invocation_words(b"make -C $(pwd)", b"make", &words(&["a b"])) {
        InvocationWords::Invoked { words: Ok(got), .. } => {
            assert_eq!(got, words(&["make", "-C", "a", "b"]));
        }
        _ => panic!("the output is split as a shell would"),
    }
}

fn plain(environment: &str, script: &str) -> Spelled {
    Spelled {
        environment: environment.as_bytes().to_vec(),
        script: script.as_bytes().to_vec(),
        file_flags: Vec::new(),
        flag_words: Vec::new(),
    }
}

fn expanded(script: &str) -> ExpandedRecipe {
    ExpandedRecipe {
        runs_nothing: false,
        shell: b"/bin/sh".to_vec(),
        shell_flags: b"-c".to_vec(),
        script: script.as_bytes().to_vec(),
        spelled: plain("", script),
        recipe_environment: Vec::new(),
        steps: vec![ExpandedStep {
            step: RecipeStep {
                direct: None,
                shell: b"/bin/sh".to_vec(),
                shell_flags: b"-c".to_vec(),
                shell_is_a_path: false,
                text: script.as_bytes().to_vec(),
                ignore_error: true,
                recursive_line: false,
            },
            spelled: plain("", script),
        }],
        description: None,
        ignore_errors: false,
    }
}

fn late(text: &str) -> LateStep {
    LateStep {
        launch: Launch::Shell(text.as_bytes().to_vec()),
        ignore_errors: false,
        runs_while_pretending: false,
    }
}

#[test]
fn an_edge_asks_for_its_recipe_as_it_runs() {
    let layout = CommandLayout::new(
        Vec::new(),
        vec![(b"MAKEFLAGS".to_vec(), Some(b"kn".to_vec()))],
        Vec::new(),
        true,
    );
    let mut recipes = PendingRecipes::new();
    assert!(recipes.is_empty());
    recipes.admit_unit(layout.copy(), b"/src".to_vec(), &[(5, 2)]);
    recipes.admit_settled(vec![
        (
            6,
            SettledSteps::split(vec![late("goals")], vec![late("update")]),
        ),
        (7, SettledSteps::same(Vec::new())),
    ]);
    assert!(!recipes.is_empty());
    assert!(matches!(
        recipes.wanted(5),
        Wanted::Expand { unit: 0, recipe: 2 }
    ));
    assert!(matches!(recipes.wanted(6), Wanted::Steps(steps)
        if matches!(&steps[0].launch, Launch::Shell(text) if text == b"goals")));
    recipes.remaking_makefiles(true);
    assert!(matches!(recipes.wanted(6), Wanted::Steps(steps)
        if matches!(&steps[0].launch, Launch::Shell(text) if text == b"update")));
    assert!(matches!(recipes.wanted(7), Wanted::Settled));
    assert!(matches!(recipes.wanted(8), Wanted::Settled));

    let unit = RecipeUnit {
        layout,
        directory: b"/src".to_vec(),
    };
    assert!(matches!(
        unit.bound(None, b"out", false),
        LateBinding::Settled
    ));
    let mut nothing = expanded("");
    nothing.runs_nothing = true;
    assert!(matches!(
        unit.bound(Some(nothing), b"out", false),
        LateBinding::Nothing
    ));
    match unit.bound(Some(expanded("echo hi")), b"out", true) {
        LateBinding::Run(run) => {
            assert_eq!(said(&run.command), "exec /bin/sh -c \"echo hi\"");
            assert_eq!(said(&run.description), "echo hi");
            assert!(run.steps[0].ignore_errors && run.rspfile.is_none());
            match &run.steps[0].launch {
                Launch::Direct(direct) => assert_eq!(
                    direct.environment.last(),
                    Some(&(b"MAKEFLAGS".to_vec(), Some(b"k".to_vec())))
                ),
                _ => panic!("the default shell is started as a program"),
            }
        }
        other => panic!("the recipe runs: {other:?}"),
    }
    let long = "x".repeat(100 * 1000 + 1);
    match unit.bound(Some(expanded(&long)), b"out", false) {
        LateBinding::Run(run) => {
            assert_eq!(said(&run.command), "exec /bin/sh out.rsp");
            assert_eq!(run.rspfile, Some(b"out.rsp".to_vec()));
            assert_eq!(run.rspfile_content.len(), long.len());
            assert!(run.description.is_empty());
            assert_eq!(run.steps.len(), 1);
        }
        other => panic!("the recipe runs: {other:?}"),
    }
}

#[test]
fn a_recorded_recipe_is_believed_only_for_its_own_output() {
    let mut graph = BuildGraph::new();
    let made = nodes(&mut graph, &["sub/a.o", "sub/b.o"]);
    let first = graph
        .add_edge(edge(0, 0, vec![made[0]], Vec::new()))
        .expect("edge");
    let second = graph
        .add_edge(edge(0, 0, vec![made[1]], Vec::new()))
        .expect("edge");
    let recorded = vec![RecipeUnitArtifact {
        key: b"sub".to_vec(),
        layout: CommandLayout::new(Vec::new(), Vec::new(), Vec::new(), false),
        directory: b"/src/sub".to_vec(),
    }];
    let deferred = vec![
        (b"sub/a.o".to_vec(), (b"sub".to_vec(), 0)),
        (b"sub/b.o".to_vec(), (b"sub".to_vec(), 1)),
    ];
    let rebuilt = |outputs: &[(&str, usize)]| RebuiltUnit {
        key: b"sub".to_vec(),
        path_prefix: b"sub".to_vec(),
        deferred_outputs: outputs
            .iter()
            .map(|(output, recipe)| (output.as_bytes().to_vec(), *recipe))
            .collect(),
    };
    let recipes = assemble_recipes(
        &graph,
        &recorded,
        &deferred,
        vec![(b"sub/b.o".to_vec(), SettledSteps::same(vec![late("b")]))],
        &[rebuilt(&[("a.o", 0), ("b.o", 1), ("c.o", 2)])],
    )
    .expect("the record and the emission agree");
    assert!(matches!(recipes.wanted(first), Wanted::Expand { unit: 0, recipe: 0 }));
    assert!(matches!(recipes.wanted(second), Wanted::Expand { unit: 0, recipe: 1 }));
    assert!(assemble_recipes(
        &graph,
        &recorded,
        &deferred,
        Vec::new(),
        &[rebuilt(&[("b.o", 0), ("a.o", 1)])]
    )
    .is_none());
    assert!(assemble_recipes(
        &graph,
        &recorded,
        &[(b"gone.o".to_vec(), (b"sub".to_vec(), 0))],
        Vec::new(),
        &[rebuilt(&[("a.o", 0)])]
    )
    .is_none());
}

#[test]
fn job_limits_are_kept_apart_by_the_key() {
    let mut one = parsed(&["make"]);
    let mut other = parsed(&["make"]);
    one.inherited_jobs = Some(JobLimit::Fixed(12));
    other.inherited_jobs = Some(JobLimit::Fixed(1));
    assert_ne!(composition_key(&one), composition_key(&other));
}

#[test]
fn an_edge_turns_out_to_be_what_its_recipe_expands_to() {
    let layout = CommandLayout::new(Vec::new(), Vec::new(), Vec::new(), true);
    let mut recipes = PendingRecipes::new();
    recipes.admit_unit(layout, b"/src".to_vec(), &[(5, 2)]);
    recipes.admit_settled(vec![(6, SettledSteps::same(vec![late("goals")]))]);
    assert!(matches!(
        recipes.command(4, b"out", Ok(None)),
        Ok(LateBinding::Settled)
    ));
    assert!(matches!(
        recipes.command(6, b"out", Ok(None)),
        Ok(LateBinding::Steps(steps)) if steps.len() == 1
    ));
    assert!(matches!(
        recipes.command(5, b"out", Ok(None)),
        Ok(LateBinding::Settled)
    ));
    let failed = b"ronin: Makefile:3: *** no such function.  Stop.".to_vec();
    match recipes.command(5, b"out", Err(Unexpanded::Failed(failed))) {
        Err(failure) => assert_eq!(said(&failure), "Makefile:3: no such function."),
        Ok(other) => panic!("the expansion failed: {other:?}"),
    }
    let misplaced = b"returning to '/src': *** gone".to_vec();
    match recipes.command(5, b"out", Err(Unexpanded::Misplaced(misplaced))) {
        Err(failure) => assert_eq!(said(&failure), "returning to '/src': *** gone"),
        Ok(other) => panic!("the way back was lost: {other:?}"),
    }
    match recipes.command(5, b"out", Ok(Some(expanded("echo hi")))) {
        Ok(LateBinding::Run(run)) => {
            assert_eq!(said(&run.command), "exec /bin/sh -c \"echo hi\"");
        }
        other => panic!("the recipe runs: {other:?}"),
    }
}

fn inputs(graph: &BuildGraph, remakes: Vec<usize>, forgiven: Vec<usize>) -> CompilerInputs {
    let makefiles = makefiles(
        remakes,
        forgiven,
        &parsed(&["make"]),
        BuildOptions::default(),
        &[],
    );
    CompilerInputs {
        subsets: makefiles.subsets(graph),
        at: 0,
        update: Update::new(),
        passes: passes(&[]),
        refusals: None,
        staged: vec![9],
        boundaries: true,
        dryrun: false,
    }
}

fn unmoved(inputs: &CompilerInputs) -> Stamps {
    let count = inputs.subsets[inputs.at].targets.len();
    Stamps {
        before: vec![Some(1); count],
        after: vec![Some(1); count],
    }
}

#[test]
fn the_makefiles_are_remade_a_subset_at_a_time() {
    let mut graph = BuildGraph::new();
    let remakes = nodes(&mut graph, &["needed.mk", "spare.mk"]);
    let mut next = inputs(&graph, remakes.clone(), vec![remakes[1]]);
    let mut turns = 0;
    let (staged, remade, unmade) = loop {
        let stamps = unmoved(&next);
        let planned = if next.at == 1 {
            Planned::Ran(outcome(1, &[remakes[1]], &[]))
        } else {
            Planned::UpToDate
        };
        turns += 1;
        match next.build_compiler_inputs(planned, &stamps) {
            Turn::Remake(after) => next = after,
            Turn::Stage {
                inputs,
                remade,
                unmade,
            } => break (inputs, remade, unmade),
            Turn::Over(settlement) | Turn::Close(settlement) => {
                panic!("nothing ends the run: {settlement:?}")
            }
        }
    };
    assert_eq!(turns, 4);
    assert_eq!(remade, vec![remakes[0]]);
    assert_eq!(unmade, vec![remakes[1]]);
    assert!(matches!(
        staged.settle_staged(
            Staged::Built(Planned::Ran(outcome(0, &[], &[]))),
            Ok(()),
            false
        ),
        Ok(Settlement::Staged)
    ));
}

#[test]
fn a_makefile_the_read_needs_ends_the_run_where_it_is_lost() {
    let mut graph = BuildGraph::new();
    let remakes = nodes(&mut graph, &["needed.mk"]);
    let first = inputs(&graph, remakes.clone(), Vec::new());
    let stamps = unmoved(&first);
    match first.build_compiler_inputs(Planned::Ran(outcome(1, &[remakes[0]], &[])), &stamps) {
        Turn::Over(Settlement::Finished(result)) => assert_eq!(result.exit_code, ABANDONED),
        other => panic!("the run is over: {other:?}"),
    }
    let mut moved = inputs(&graph, remakes, Vec::new());
    moved.subsets.truncate(1);
    let stamps = Stamps {
        before: vec![None],
        after: vec![Some(2)],
    };
    assert!(matches!(
        moved.build_compiler_inputs(Planned::Ran(outcome(0, &[], &[])), &stamps),
        Turn::Close(Settlement::Restart)
    ));
}

#[test]
fn staged_work_is_asked_about_or_described() {
    let graph = BuildGraph::new();
    let staged = || inputs(&graph, Vec::new(), Vec::new());
    assert!(matches!(
        staged().settle_staged(Staged::Asked(Ok(true)), Ok(()), false),
        Ok(Settlement::Staged)
    ));
    let unflushed = staged().settle_staged(
        Staged::Built(Planned::Ran(outcome(0, &[], &[]))),
        Err(failure("log")),
        false,
    );
    assert!(matches!(unflushed, Err(lost) if said(&lost.said) == "log"));
    match staged().settle_staged(Staged::Asked(Ok(false)), Ok(()), false) {
        Ok(Settlement::Finished(result)) => assert_eq!(result.exit_code, 1),
        other => panic!("the question is answered: {other:?}"),
    }
    let mut described = staged();
    described.dryrun = true;
    assert!(matches!(
        described.settle_staged(
            Staged::Built(Planned::Ran(outcome(0, &[], &[]))),
            Ok(()),
            false
        ),
        Ok(Settlement::Finished(_))
    ));
    let mut bare = staged();
    bare.boundaries = false;
    bare.staged.clear();
    assert!(matches!(
        bare.settle_staged(Staged::Built(Planned::UpToDate), Ok(()), false),
        Ok(Settlement::Settled)
    ));
}

#[test]
fn a_warm_run_falls_back_on_reading_the_makefiles() {
    assert!(matches!(warm_settled(None, true), Ok(None)));
    assert!(matches!(
        warm_settled(Some(Ok(Settlement::Settled)), true),
        Ok(Some(Prepared::Ready))
    ));
    assert!(matches!(
        warm_settled(Some(Ok(Settlement::Settled)), false),
        Ok(None)
    ));
    assert!(matches!(
        warm_settled(Some(Ok(Settlement::Restart)), true),
        Ok(None)
    ));
    assert!(matches!(
        warm_settled(Some(Err(failure("log"))), false),
        Err(lost) if said(&lost.said) == "log"
    ));
}

#[test]
fn a_substitution_is_closed_wherever_it_is_looked_for() {
    assert_eq!(command_substitution_end(b"$(pwd) x", 2), Some(5));
    assert_eq!(command_substitution_end(b"a ')' (b) )", 0), Some(10));
    assert_eq!(command_substitution_end(b"$(pwd", 2), None);
    assert_eq!(command_substitution_end(b"$(pwd)", 40), None);
}

#[test]
fn a_read_is_followed_by_what_it_left_to_do() {
    let initial = BuildOptions::default();
    let mut held = b"early\n".to_vec();
    let (written, next) = prepare_graph(
        Loaded::Failed(b"Makefile:1: *** missing separator.  Stop.".to_vec()),
        b"warned\n".to_vec(),
        false,
        &mut held,
        b"narrated",
        &initial,
        Surroundings::bare(),
    );
    assert!(written.is_empty() && held.is_empty());
    match next {
        AfterLoading::Finished(result) => {
            assert_eq!(
                said(&result.stderr),
                "early\nwarned\nronin: Makefile:1: missing separator.\n"
            );
            assert_eq!(said(&result.stdout), "narrated\n");
            assert_eq!(result.exit_code, ABANDONED);
        }
        other => panic!("the read failed: {other:?}"),
    }
    let read = |makeflags: &str, regenerates: bool| {
        prepare_graph(
            Loaded::Read {
                makeflags: makeflags.as_bytes().to_vec(),
                regenerates,
            },
            b"warned\n".to_vec(),
            true,
            &mut Vec::new(),
            b"",
            &initial,
            Surroundings::bare(),
        )
    };
    let (written, next) = read("kn", false);
    assert_eq!(said(&written), "warned\n");
    assert!(matches!(
        next,
        AfterLoading::Ready { options, .. } if options.dryrun && options.maxfail == usize::MAX
    ));
    assert!(matches!(read("k", true).1, AfterLoading::Inputs { .. }));
    assert!(matches!(
        read("h", true).1,
        AfterLoading::Undescribed(CliError::InvalidParameter)
    ));
}

#[test]
fn a_pass_is_told_its_own_place() {
    let pass = pass_session(
        &parsed(&["make", "-k", "-j3"]),
        &words(&["Makefile"]),
        JobCounts {
            carried: 3,
            parallel_reads: 3,
        },
        b"/usr/bin/make",
        b"/src",
        &environment(&[("PATH", "/bin")]),
        2,
        0,
        false,
    );
    assert_eq!(
        pass.environment,
        environment(&[("PATH", "/bin"), ("MAKELEVEL", "2"), ("MFLAGS", "-k -j3")])
    );
    assert!(!pass.context.restarted);
    let root = root_compilation(pass.flags, Shuffle::Unshuffled, pass.context);
    assert!(root.cache_key.starts_with(b"/src\0"));
    assert_eq!(root.flags.makefiles, words(&["Makefile"]));
}

#[test]
fn a_loaded_graph_is_built_from_only_where_nothing_was_remade() {
    assert!(matches!(
        prepared(Settlement::Settled),
        Some(Prepared::Ready)
    ));
    assert!(prepared(Settlement::Restart).is_none());
    assert!(prepared(Settlement::Staged).is_none());
    let over = RunResult {
        stdout: Vec::new(),
        stderr: Vec::new(),
        exit_code: 1,
    };
    assert!(matches!(
        prepared(Settlement::Finished(over)),
        Some(Prepared::Finished(result)) if result.exit_code == 1
    ));
}

#[test]
fn a_recipe_is_launched_by_line_only_where_every_line_fits() {
    let line = |text: &str| RecipeStep {
        text: text.as_bytes().to_vec(),
        shell: b"/bin/sh".to_vec(),
        shell_flags: b"-c".to_vec(),
        ignore_error: false,
        recursive_line: false,
        direct: None,
        shell_is_a_path: false,
    };
    assert!(CommandLayout::launches_line_by_line(&[line("a"), line("b")]));
    assert!(!CommandLayout::launches_line_by_line(&[]));
    let long = "x".repeat(100 * 1000 + 1);
    assert!(!CommandLayout::launches_line_by_line(&[line("a"), line(&long)]));
}

#[test]
fn make_variable_is_invoked_path() {
    // A path is reported as invoked, absolute so it survives the sub-make's
    // change of directory, and never resolved to the ronin-named binary.
    let invoked = make_named_invocation(
        Some(b"/usr/local/bin/make"),
        Some(b"/usr/local/bin/make".to_vec()),
        &[],
    );
    assert_eq!(said(&invoked), "/usr/local/bin/make");

    // A name nothing on PATH resolves to this binary stays the name: it is
    // how the parent arrived, and the resolved path would select Ninja.
    let elsewhere = [(b"/bin/make".to_vec(), false)];
    let invoked = make_named_invocation(Some(b"make"), Some(b"/here/make".to_vec()), &elsewhere);
    assert_eq!(said(&invoked), "make");

    // The entry that is this binary is the one, whatever stands before it.
    let found = [
        (b"/bin/make".to_vec(), false),
        (b"/opt/make".to_vec(), true),
        (b"/usr/bin/make".to_vec(), true),
    ];
    assert_eq!(
        said(&make_named_invocation(Some(b"make"), None, &found)),
        "/opt/make"
    );
    assert_eq!(said(&make_named_invocation(None, None, &[])), "make");
    assert_eq!(
        said(&make_named_invocation(
            Some(b"./make"),
            Some(b"/here/make".to_vec()),
            &found
        )),
        "/here/make"
    );
}

#[test]
fn a_command_substitution_loses_its_last_line_ends() {
    assert_eq!(said(&substituted(b"one\ntwo\n\n")), "one\ntwo");
    assert_eq!(substituted(b"a\0b\n"), b"ab");
    assert!(substituted(b"\n\n").is_empty());
    match substitution_failure(b"pwd", b"no such file") {
        MakeError::Evaluate(said) => assert_eq!(
            String::from_utf8_lossy(&said),
            "running recursive Make command substitution 'pwd': no such file"
        ),
        other => panic!("an evaluation fails: {other:?}"),
    }
}

#[test]
fn the_order_of_an_environment_is_nothing_to_a_key() {
    let environment = |names: &[&str]| -> Vec<(Vec<u8>, Vec<u8>)> {
        names
            .iter()
            .map(|name| (name.as_bytes().to_vec(), name.to_lowercase().into_bytes()))
            .collect()
    };
    let changes = |reversed: bool| {
        let mut list = vec![
            (b"GONE".to_vec(), None),
            (b"KEPT".to_vec(), Some(b"1".to_vec())),
        ];
        if reversed {
            list.reverse();
        }
        list
    };
    let extended = |names: &[&str], reversed: bool| {
        let mut key = b"before".to_vec();
        extend_compilation_key(
            &mut key,
            b"make -C sub",
            b"make",
            b"/bin/sh",
            b"-c",
            environment(names),
            changes(reversed),
        );
        key
    };
    let key = extended(&["PATH", "HOME", "HOMES"], false);
    assert_eq!(
        key,
        b"before\0make -C sub\0make\0/bin/sh\0-c\0HOME=home\0HOMES=homes\0PATH=path\
          \0GONE=\xff\0KEPT=1"
    );
    assert_eq!(key, extended(&["HOMES", "PATH", "HOME"], true));
    assert_ne!(key, extended(&["PATH", "HOME"], false));
}

#[test]
fn a_way_back_that_is_lost_is_worth_less_than_a_failure() {
    assert_eq!(expanded_in(Ok(1), Ok(()), b"/src"), Ok(1));
    assert_eq!(
        expanded_in::<i32>(
            Err(Unexpanded::Failed(b"broken".to_vec())),
            Err(b"gone".to_vec()),
            b"/src"
        ),
        Err(Unexpanded::Failed(b"broken".to_vec()))
    );
    assert_eq!(
        expanded_in(Ok(1), Err(b"gone".to_vec()), b"/src"),
        Err(Unexpanded::Misplaced(
            b"returning to '/src' after expanding a recipe: gone".to_vec()
        ))
    );
}

#[test]
fn a_child_two_recipes_invoke_is_read_once() {
    let key = |name: &str| Some(name.as_bytes().to_vec());
    assert_eq!(
        read_ahead(
            &[key("a"), None, key("b"), key("a"), key("done")],
            &words(&["done"])
        ),
        vec![
            ChildStart::Read,
            ChildStart::Refused,
            ChildStart::Read,
            ChildStart::Unread,
            ChildStart::Unread,
        ]
    );
    assert!(matches!(collect(Some(Ok(1)), None), Ok(1)));
    assert!(matches!(collect(None, Some(Ok(2))), Ok(2)));
    match collect::<i32>(None, None) {
        Err(MakeError::Evaluate(why)) => {
            assert_eq!(said(&why), "reading a recursive Make child was abandoned");
        }
        other => panic!("nobody read it: {other:?}"),
    }
}

fn loaded(makeflags: &str) -> BuildArtifact {
    BuildArtifact {
        remakes: Vec::new(),
        forgiven: Vec::new(),
        unread: Vec::new(),
        complaints: Vec::new(),
        staged_for_makefiles: Vec::new(),
        staged_for_goals: Vec::new(),
        clean_wrappers: vec![(b"wrapper".to_vec(), words(&["staged"]))],
        units: Vec::new(),
        deferred: Vec::new(),
        settled: vec![(b"wrapper".to_vec(), SettledSteps::same(vec![late("x")]))],
        makeflags: makeflags.to_owned(),
        job_budget: 1,
    }
}

#[test]
fn a_run_starts_from_its_record_only_where_it_still_holds() {
    let mut graph = BuildGraph::new();
    let made = nodes(&mut graph, &["wrapper", "staged"]);
    let wrapper = graph
        .add_edge(edge(0, 0, vec![made[0]], Vec::new()))
        .expect("edge");
    let start = |build: Option<BuildArtifact>, rebuilt, dirty: &[Option<bool>]| {
        warm_start(
            &graph,
            build,
            rebuilt,
            dirty,
            &BuildOptions::default(),
            Surroundings::bare(),
        )
    };
    match start(Some(loaded("k")), Some(Vec::new()), &[Some(false)]) {
        Ok(Some(warm)) => {
            assert!(warm.invocation.given(Switch::KeepGoing));
            assert_eq!(warm.options.maxfail, usize::MAX);
            assert!(matches!(warm.recipes.wanted(wrapper), Wanted::Steps(_)));
        }
        other => panic!("the record holds: {other:?}"),
    }
    let moved = start(Some(loaded("k")), Some(Vec::new()), &[Some(true)]);
    assert!(matches!(moved, Ok(None)));
    let unasked = start(Some(loaded("k")), Some(Vec::new()), &[None]);
    assert!(matches!(unasked, Ok(None)));
    let unbuilt = start(Some(loaded("k")), None, &[Some(false)]);
    assert!(matches!(unbuilt, Ok(None)));
    assert!(matches!(start(None, Some(Vec::new()), &[]), Ok(None)));
    let mut missing = loaded("k");
    missing.settled[0].0 = b"elsewhere".to_vec();
    let missing = start(Some(missing), Some(Vec::new()), &[Some(false)]);
    assert!(matches!(missing, Ok(None)));
    let undescribed = start(Some(loaded("h")), Some(Vec::new()), &[Some(false)]);
    assert!(matches!(undescribed, Err(CliError::InvalidParameter)));

    let held = loaded("k").clean_wrappers;
    assert!(wrappers_still_clean(&graph, &held, &[Some(false)]));
    assert!(!wrappers_still_clean(&BuildGraph::new(), &held, &[Some(false)]));
}
