//! Recursive recipes composed into one graph with the recipes around them.

use ronin_make::graph::{BuildGraph, FrontendError, Piece};
use ronin_make::order::SerialJobs;
use ronin_make::sink::{
    ChildGroup, GraphSink, PendingSubninja, SinkCommand, SinkEdge, SinkPool, SinkRule,
    SinkSubninja, UnitSubgraph,
};
use ronin_make::table::Table;
use ronin_make::warm::clean_wrapper;

fn words(list: &[&str]) -> Vec<Vec<u8>> {
    list.iter().map(|word| word.as_bytes().to_vec()).collect()
}

fn command(script: &str) -> SinkCommand {
    SinkCommand {
        script: script.as_bytes().to_vec(),
        response_file: false,
        escaped: script.as_bytes().to_vec(),
    }
}

fn rule(id: usize, script: &str) -> SinkRule {
    SinkRule {
        id,
        shell: b"/bin/sh".to_vec(),
        shell_name: b"/bin/sh".to_vec(),
        shell_flags: b"-c".to_vec(),
        file_flags: Vec::new(),
        recipe_environment: Vec::new(),
        environment: Vec::new(),
        command: command(script),
        ignore_errors: false,
        description: None,
        depfile: None,
        steps: Vec::new(),
        deferred_recipe: None,
        contains_recursive: false,
        subninjas: Vec::new(),
        residual_command: None,
        residual_ignore_errors: false,
        residual_steps: Vec::new(),
    }
}

fn recursive(id: usize, preceding: Option<&str>, residual: Option<&str>) -> SinkRule {
    let mut rule = rule(id, "$(MAKE) -C child");
    rule.contains_recursive = true;
    rule.subninjas.push(SinkSubninja {
        command: b"make -C child".to_vec(),
        make: b"make".to_vec(),
        preceding: preceding.map(command),
        preceding_ignore_errors: false,
        preceding_steps: Vec::new(),
        location: None,
    });
    rule.residual_command = residual.map(command);
    rule
}

fn edge(output: &str, rule: Option<usize>, inputs: &[&str]) -> SinkEdge {
    SinkEdge {
        output: output.as_bytes().to_vec(),
        rule,
        implicit_outputs: Vec::new(),
        inputs: words(inputs),
        order_only_inputs: Vec::new(),
        forgiven_order_only_inputs: Vec::new(),
        withdrawable_outputs: Vec::new(),
        peer_outputs: Vec::new(),
        disposable_outputs: Vec::new(),
        delete_on_error: false,
        always_dirty: false,
        intermediate: false,
        has_touchable_recipe: rule.is_some(),
        low_resolution: false,
        completion_join: false,
        pool: None,
        deferred_freshness_outputs: Vec::new(),
        deferred_freshness_always_dirty: false,
        deferred_freshness_ignores_dates: false,
        deferred_freshness_heads_the_record: false,
        deferred_always_new_inputs: Vec::new(),
        deferred_excluded_new_inputs: Vec::new(),
        deferred_new_input_names: Vec::new(),
        deferred_new_input_directories: b"KATI_NEW_INPUTS_D".to_vec(),
        deferred_new_input_filenames: b"KATI_NEW_INPUTS_F".to_vec(),
        declared_by_double_colon: None,
        searched_at: None,
        written_as: None,
        settled_names: Vec::new(),
    }
}

fn paths(graph: &BuildGraph, nodes: &[usize]) -> Vec<String> {
    nodes
        .iter()
        .map(|node| String::from_utf8_lossy(graph.path(*node)).into_owned())
        .collect()
}

/// What one rule's command line holds.
fn line(graph: &BuildGraph, rule: usize) -> String {
    let command = graph.lookup_name(b"command").expect("a name");
    let held = &graph.rules[rule]
        .bindings
        .iter()
        .find(|(name, _)| *name == command)
        .expect("a command")
        .1;
    held.pieces
        .iter()
        .map(|piece| match piece {
            Piece::Literal(text) => String::from_utf8_lossy(text).into_owned(),
            Piece::Out => "$out".to_owned(),
        })
        .collect()
}

/// A parent with one recursive recipe that needs `pre`.
fn parent(preceding: Option<&str>, residual: Option<&str>) -> GraphSink {
    let mut sink = GraphSink::new();
    sink.start(&[]).expect("no pools");
    sink.declare_rule(&rule(0, "touch pre")).expect("a rule");
    sink.declare_edge(&edge("pre", Some(0), &[])).expect("an edge");
    sink.declare_rule(&recursive(1, preceding, residual))
        .expect("a recursive rule");
    sink.declare_edge(&edge("sub", Some(1), &["pre"]))
        .expect("a held edge");
    sink.set_default_targets(&words(&["sub"])).expect("a goal");
    sink
}

/// A child with one target, read under `child/`, as the group it composes as.
fn child(sink: &mut GraphSink) -> ChildGroup {
    sink.begin_subninja(0, b"child/".to_vec(), b"child".to_vec(), Table::new());
    sink.declare_rule(&rule(7, "touch out")).expect("a rule");
    sink.declare_edge(&edge("out", Some(7), &[])).expect("an edge");
    sink.set_default_targets(&words(&["out"])).expect("a goal");
    let unit = sink.take_unit();
    assert!(unit.subninjas.is_empty() && !unit.serial);
    ChildGroup {
        subgraph: UnitSubgraph {
            targets: unit.targets,
            edges: unit.edges.clone(),
            fresh_edges: unit.edges,
        },
        fresh: true,
    }
}

#[test]
fn a_child_waits_for_what_its_recipe_needs() {
    let mut sink = parent(None, None);
    let mut unit = sink.take_unit();
    let mut pending = unit.subninjas.pop().expect("one recursive recipe");
    assert_eq!(pending.diagnostic_command, b"$(MAKE) -C child");
    let wrapper = sink.probe_subninja(&mut pending).expect("a wrapper");
    assert!(pending.bindings.is_empty());
    assert!(matches!(
        sink.stage_preceding_lines(&pending, 0),
        Ok(None)
    ));
    let group = child(&mut sink);
    let made = group.subgraph.edges[0];
    let goal = group.subgraph.targets[0];
    assert_eq!(
        sink.complete_subninja(wrapper, pending, &[group], false)
            .expect("composed"),
        wrapper
    );
    let graph = sink.into_graph(None).expect("a graph");
    assert_eq!(paths(&graph, &[goal]), vec!["child/out"]);
    // The child waits for the file the parent would have made before it, and
    // the wrapper stands for the child's own goal.
    assert_eq!(
        paths(&graph, &graph.edges[made].declared.order_only_inputs),
        vec!["pre"]
    );
    assert_eq!(
        paths(&graph, &graph.edges[wrapper].declared.explicit_inputs),
        vec!["pre", "child/out"]
    );
    assert_eq!(graph.edges[wrapper].declared.rule, 0);
    assert!(!graph.edges[wrapper].begun);
    assert!(graph.edges[wrapper].outputs_reobserved);
    assert_eq!(
        line(&graph, graph.edges[made].declared.rule),
        "cd 'child' && exec /bin/sh -c \"touch out\""
    );
}

#[test]
fn the_lines_around_an_invocation_run_around_its_child() {
    let mut sink = parent(Some("echo before"), Some("echo after"));
    let mut pending = sink.take_unit().subninjas.pop().expect("one recipe");
    let wrapper = sink.probe_subninja(&mut pending).expect("a wrapper");
    let staged = sink
        .stage_preceding_lines(&pending, 0)
        .expect("the lines before it")
        .expect("there are some");
    let group = child(&mut sink);
    let goal = group.subgraph.targets[0];
    sink.complete_subninja(wrapper, pending, &[group], true)
        .expect("composed");
    let graph = sink.into_graph(None).expect("a graph");
    assert_eq!(paths(&graph, &[staged]), vec!["__ronin_recipe_stage_0"]);
    let stage = graph.generator(staged).expect("made by its lines");
    assert_eq!(
        line(&graph, graph.edges[stage].declared.rule),
        "exec /bin/sh -c \"echo before\""
    );
    assert!(graph.edges[stage].declared.always_dirty);
    assert_eq!(
        paths(&graph, &graph.edges[stage].declared.order_only_inputs),
        vec!["pre"]
    );
    assert_eq!(
        line(&graph, graph.edges[wrapper].declared.rule),
        "exec /bin/sh -c \"echo after\""
    );
    assert!(graph.edges[wrapper]
        .declared
        .order_only_inputs
        .contains(&goal));
    assert!(graph.edges[wrapper].begun);
}

#[test]
fn a_child_that_makes_its_own_wrapper_is_refused() {
    let mut sink = parent(None, None);
    let mut unit = sink.take_unit();
    let mut pending = unit.subninjas.pop().expect("one recursive recipe");
    let wrapper = sink.probe_subninja(&mut pending).expect("a wrapper");
    let itself = ChildGroup {
        subgraph: UnitSubgraph {
            targets: pending.explicit_outputs.clone(),
            edges: Vec::new(),
            fresh_edges: Vec::new(),
        },
        fresh: false,
    };
    match sink.complete_subninja(wrapper, pending, &[itself], false) {
        Err(FrontendError::UncomposableSubninja { command }) => {
            assert_eq!(command, b"$(MAKE) -C child");
        }
        other => panic!("a cycle is refused: {other:?}"),
    }
}

#[test]
fn staging_leaves_the_recipe_as_it_was() {
    let mut sink = parent(Some("echo before"), None);
    let mut pending = sink.take_unit().subninjas.pop().expect("one recipe");
    sink.probe_subninja(&mut pending).expect("a wrapper");
    let stage = |sink: &mut GraphSink, pending: &PendingSubninja| {
        let staged = sink
            .stage_preceding_lines(pending, 0)
            .expect("the lines before it")
            .expect("there are some");
        sink.graph.generator(staged).expect("made by its lines")
    };
    let first = stage(&mut sink, &pending);
    let second = stage(&mut sink, &pending);
    assert_ne!(first, second);
    assert!(!pending.explicit_outputs.is_empty());
    let line_of = |edge: usize| line(&sink.graph, sink.graph.edges[edge].declared.rule);
    assert_eq!(line_of(first), line_of(second));
    assert_eq!(line_of(second), "exec /bin/sh -c \"echo before\"");
}

#[test]
fn what_is_new_is_published_whole_and_in_halves() {
    let mut sink = GraphSink::new();
    sink.start(&[]).expect("no pools");
    sink.declare_rule(&rule(0, "true")).expect("a rule");
    let mut made = edge("action", Some(0), &["p"]);
    made.deferred_freshness_outputs = words(&["a", "b"]);
    sink.declare_edge(&made).expect("an edge");
    let made = sink.take_unit().edges[0];
    let graph = sink.into_graph(None).expect("a graph");
    let deferred = graph.edges[made].deferred.as_ref().expect("late freshness");
    assert_eq!(deferred.new_inputs_variable, b"KATI_NEW_INPUTS");
    assert_eq!(deferred.new_inputs_directories_variable, b"KATI_NEW_INPUTS_D");
    assert_eq!(deferred.new_inputs_filenames_variable, b"KATI_NEW_INPUTS_F");
}

#[test]
fn a_clean_wrapper_runs_nothing() {
    let mut sink = parent(None, None);
    let mut pending = sink.take_unit().subninjas.pop().expect("one recipe");
    let wrapper = sink.probe_subninja(&mut pending).expect("a wrapper");
    let probe = sink.graph.edges[wrapper].declared.rule;
    sink.settle_subninja_freshness(wrapper, true);
    assert_eq!(sink.graph.edges[wrapper].declared.rule, probe);
    sink.settle_subninja_freshness(wrapper, false);
    let graph = sink.into_graph(None).expect("a graph");
    assert_ne!(probe, 0);
    assert_eq!(graph.edges[wrapper].declared.rule, 0);
    assert!(graph.edges[wrapper].declared.outputs_unaliased);

    let found = clean_wrapper(&graph, b"sub", &words(&["pre"])).expect("it is there");
    assert_eq!(found.edge, wrapper);
    assert_eq!(paths(&graph, &found.staged), vec!["pre"]);
    assert!(clean_wrapper(&graph, b"sub", &words(&["elsewhere"])).is_none());
    assert!(clean_wrapper(&graph, b"elsewhere", &[]).is_none());
}

#[test]
fn a_unit_holds_its_jobs_in_pools_of_its_own() {
    let mut sink = GraphSink::new();
    assert_eq!(
        sink.hold_unit_jobs(true, None, Some(4)),
        Some((b"make_jobs_0".to_vec(), 4))
    );
    sink.start(&[SinkPool {
        name: b"console".to_vec(),
        depth: 0,
    }])
    .expect("pools");
    sink.declare_rule(&rule(0, "touch pre")).expect("a rule");
    sink.declare_edge(&edge("pre", Some(0), &[])).expect("an edge");
    let made = sink.take_unit();
    assert!(made.serial);
    let graph = sink.into_graph(None).expect("a graph");
    let serial = graph.pool(b"make_serial_0").expect("the serial pool");
    assert_eq!(graph.pools[serial].depth, Some(1));
    assert_eq!(graph.edges[made.edges[0]].pool, Some(serial));
    let jobs = graph.pool(b"make_jobs_0").expect("the job pool");
    assert_eq!(graph.pools[jobs].depth, Some(4));

    let mut sink = GraphSink::new();
    let group = Some((b"make_jobs_9".to_vec(), 2));
    assert_eq!(sink.hold_unit_jobs(false, group.clone(), None), group);
}

#[test]
fn serial_jobs_wait_for_each_other_in_turn() {
    let mut sink = GraphSink::new();
    sink.start(&[]).expect("no pools");
    for (id, output) in ["a", "b"].into_iter().enumerate() {
        sink.declare_rule(&rule(id, "true")).expect("a rule");
        sink.declare_edge(&edge(output, Some(id), &[])).expect("an edge");
    }
    let made = sink.take_unit().edges;
    let done = sink.graph.edges[made[0]].declared.explicit_outputs.clone();
    let mut jobs = SerialJobs::new();
    jobs.push(made[0], &[], done.clone());
    jobs.push(made[1], &[], Vec::new());
    jobs.chain(&mut sink);
    let graph = sink.into_graph(None).expect("a graph");
    assert_eq!(graph.edges[made[1]].declared.order_only_inputs, done);
    assert!(graph.edges[made[0]].declared.order_only_inputs.is_empty());
}

#[test]
fn the_first_failure_is_the_one_construction_ends_with() {
    let mut sink = GraphSink::new();
    sink.start(&[]).expect("no pools");
    assert!(sink.construction_failure().is_none());
    assert!(sink.declare_edge(&edge("", None, &[])).is_err());
    assert!(sink.declare_rule(&rule(0, "true")).is_ok());
    assert!(sink.declare_edge(&edge("x", Some(0), &[])).is_ok());
    assert!(sink.declare_rule(&rule(0, "true")).is_err());
    assert!(matches!(
        sink.construction_failure(),
        Some(FrontendError::EmptyPath)
    ));
    assert!(matches!(sink.into_graph(None), Err(FrontendError::EmptyPath)));

    // A rule nothing declared ends the declaration alone.
    let mut sink = GraphSink::new();
    sink.start(&[]).expect("no pools");
    assert!(matches!(
        sink.declare_edge(&edge("x", Some(3), &[])),
        Err(FrontendError::UndeclaredRule { .. })
    ));
    assert!(sink.into_graph(None).is_ok());
}

#[test]
fn the_names_of_a_unit_stand_for_its_own_nodes() {
    let mut sink = GraphSink::new();
    let shared = sink.unit_nodes(&words(&["a", "a", "./a"])).expect("nodes");
    assert_eq!(shared[0], shared[1]);
    assert_eq!(shared[0], shared[2]);
    sink.begin_subninja(0, b"child/".to_vec(), b"child".to_vec(), Table::new());
    let own = sink.unit_nodes(&words(&["a", "../a"])).expect("nodes");
    assert_ne!(own[0], shared[0]);
    assert_eq!(paths(&sink.graph, &own), vec!["child/a", "a"]);
}
