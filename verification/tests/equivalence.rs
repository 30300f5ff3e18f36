//! One Makefile's declarations, handed to a graph and written as a manifest.

use ronin_make::describing::{
    describe_deferred_semantics, DeferredSemantics, EdgeSemantics, Side,
};
use ronin_make::equivalence::differences;
use ronin_make::graph::{BuildGraph, EdgeSpec, FrontendError, Template};
use ronin_make::oracle::{
    compare, declared_targets, disposable, forgiven_order, intermediate, peers, reobserved,
    withdrawn, Compared, Report, Tee,
};
use ronin_make::sink::{
    GraphSink, SinkCommand, SinkEdge, SinkPool, SinkRule, SinkSubninja,
};
use ronin_make::table::Table;

const ALWAYS_BUILD: &[u8] = b"_kati_always_build_";

fn words(list: &[&str]) -> Vec<Vec<u8>> {
    list.iter().map(|word| word.as_bytes().to_vec()).collect()
}

fn shown(list: Vec<Vec<u8>>) -> Vec<String> {
    list.iter()
        .map(|bytes| String::from_utf8_lossy(bytes).into_owned())
        .collect()
}

/// One target as a Makefile's evaluation hands it on.
struct Target {
    edge: SinkEdge,
    /// The script, as the shell reads it and as a double-quoted word holds it.
    script: Option<(String, String)>,
    depfile: Option<String>,
    ignore_errors: bool,
    recursive: bool,
}

fn target(output: &str, inputs: &[&str], order_only: &[&str]) -> Target {
    Target {
        edge: SinkEdge {
            output: output.as_bytes().to_vec(),
            rule: None,
            implicit_outputs: Vec::new(),
            inputs: words(inputs),
            order_only_inputs: words(order_only),
            forgiven_order_only_inputs: Vec::new(),
            withdrawable_outputs: Vec::new(),
            peer_outputs: Vec::new(),
            disposable_outputs: Vec::new(),
            delete_on_error: false,
            always_dirty: false,
            intermediate: false,
            has_touchable_recipe: false,
            low_resolution: false,
            completion_join: false,
            pool: None,
            deferred_freshness_outputs: Vec::new(),
            deferred_freshness_always_dirty: false,
            deferred_freshness_ignores_dates: false,
            deferred_freshness_heads_the_record: false,
            deferred_always_new_inputs: Vec::new(),
            deferred_excluded_new_inputs: Vec::new(),
            deferred_new_input_names: Vec::new(),
            deferred_new_input_directories: b"KATI_NEW_INPUTS_D".to_vec(),
            deferred_new_input_filenames: b"KATI_NEW_INPUTS_F".to_vec(),
            declared_by_double_colon: None,
            searched_at: None,
            written_as: None,
            settled_names: Vec::new(),
        },
        script: None,
        depfile: None,
        ignore_errors: false,
        recursive: false,
    }
}

impl Target {
    fn runs(self, script: &str) -> Self {
        self.runs_quoted(script, script)
    }

    fn runs_quoted(mut self, script: &str, quoted: &str) -> Self {
        self.script = Some((script.to_owned(), quoted.to_owned()));
        self.edge.has_touchable_recipe = true;
        self
    }

    fn phony(mut self) -> Self {
        self.edge.always_dirty = true;
        self
    }
}

/// How long a script has to be before the shell reads it out of a file.
const LONG: usize = 100 * 1000;

fn rule(id: usize, target: &Target) -> Option<SinkRule> {
    let (script, quoted) = target.script.as_ref()?;
    let response_file = script.len() > LONG;
    let subninjas = if target.recursive {
        vec![SinkSubninja {
            command: script.as_bytes().to_vec(),
            make: b"make".to_vec(),
            preceding: None,
            preceding_ignore_errors: false,
            preceding_steps: Vec::new(),
            location: None,
        }]
    } else {
        Vec::new()
    };
    Some(SinkRule {
        id,
        shell: b"/bin/sh".to_vec(),
        shell_name: b"/bin/sh".to_vec(),
        shell_flags: b"-c".to_vec(),
        file_flags: Vec::new(),
        recipe_environment: Vec::new(),
        environment: Vec::new(),
        command: SinkCommand {
            script: script.as_bytes().to_vec(),
            response_file,
            escaped: quoted.as_bytes().to_vec(),
        },
        ignore_errors: target.ignore_errors,
        description: None,
        depfile: target
            .depfile
            .as_ref()
            .map(|depfile| depfile.as_bytes().to_vec()),
        steps: Vec::new(),
        deferred_recipe: None,
        contains_recursive: target.recursive,
        subninjas,
        residual_command: None,
        residual_ignore_errors: false,
        residual_steps: Vec::new(),
    })
}

struct Both {
    direct: BuildGraph,
    parsed: BuildGraph,
    semantics: EdgeSemantics,
    pending_subninjas: usize,
}

/// The graph a sink makes of the targets, and what was noted on the way.
fn declared(
    targets: &mut [Target],
    pools: &[SinkPool],
    goal: &str,
) -> Result<(BuildGraph, EdgeSemantics, usize), FrontendError> {
    let mut sink = GraphSink::new();
    let mut tee = Tee::new();
    let _ = sink.start(pools);
    for (id, target) in targets.iter_mut().enumerate() {
        if let Some(rule) = rule(id, target) {
            target.edge.rule = Some(id);
            tee.declare_rule(&rule);
            let _ = sink.declare_rule(&rule);
        }
        tee.declare_edge(&target.edge);
        let _ = sink.declare_edge(&target.edge);
    }
    let _ = sink.set_default_targets(&words(&[goal]));
    let pending = sink.take_unit().subninjas.len();
    Ok((sink.into_graph(None)?, tee.edges, pending))
}

/// The graph a manifest of the targets is read as.
fn written(targets: &[Target], pools: &[SinkPool], goal: &str) -> BuildGraph {
    let mut graph = BuildGraph::new();
    let root = graph.root();
    for pool in pools {
        let at = graph.define_pool(&pool.name).expect("a pool");
        if pool.depth > 0 {
            graph.set_pool_depth(at, pool.depth);
        }
    }
    let phony = graph.rule(root, b"phony").expect("the built-in rule");
    if targets.iter().any(|target| target.edge.always_dirty) {
        let always = graph.node(ALWAYS_BUILD).expect("a node");
        graph
            .add_edge(spec(root, phony, vec![always]))
            .expect("the invented edge");
    }
    for (id, target) in targets.iter().enumerate() {
        let nodes = |graph: &mut BuildGraph, names: &[Vec<u8>]| -> Vec<usize> {
            names
                .iter()
                .map(|name| graph.node(name).expect("a node"))
                .collect()
        };
        let rule = match &target.script {
            None => phony,
            Some((script, quoted)) => {
                let mut bindings = Vec::new();
                let command = graph.binding(b"command");
                let muted = |text: &str| {
                    if target.ignore_errors {
                        format!("({text}) || true")
                    } else {
                        text.to_owned()
                    }
                };
                if script.len() > LONG {
                    let mut line = Template::literal(b"exec /bin/sh ");
                    line.push_out();
                    line.push_literal(b".rsp");
                    let mut file = Template::new();
                    file.push_out();
                    file.push_literal(b".rsp");
                    bindings.push((command, line));
                    bindings.push((graph.binding(b"rspfile"), file));
                    bindings.push((
                        graph.binding(b"rspfile_content"),
                        Template::literal(muted(script).as_bytes()),
                    ));
                } else {
                    let line = format!("exec /bin/sh -c \"{}\"", muted(quoted));
                    bindings.push((command, Template::literal(line.as_bytes())));
                }
                bindings.push((graph.binding(b"generator"), Template::literal(b"1")));
                if let Some(depfile) = &target.depfile {
                    bindings.push((
                        graph.binding(b"depfile"),
                        Template::literal(depfile.as_bytes()),
                    ));
                    bindings.push((graph.binding(b"deps"), Template::literal(b"gcc")));
                }
                graph
                    .define_rule(root, format!("rule{id}").as_bytes(), bindings)
                    .expect("a rule")
            }
        };
        let output = graph.node(&target.edge.output).expect("a node");
        let mut made = spec(root, rule, vec![output]);
        made.implicit_outputs = nodes(&mut graph, &target.edge.implicit_outputs);
        made.explicit_inputs = nodes(&mut graph, &target.edge.inputs);
        if target.edge.always_dirty {
            made.explicit_inputs
                .push(graph.node(ALWAYS_BUILD).expect("a node"));
        }
        made.order_only_inputs = nodes(&mut graph, &target.edge.order_only_inputs);
        if let Some(pool) = &target.edge.pool {
            let binding = graph.binding(b"pool");
            made.bindings.push((binding, pool.clone()));
        }
        graph.add_edge(made).expect("an edge");
    }
    let goal = graph.node(goal.as_bytes()).expect("a node");
    graph.add_default(goal);
    graph
}

fn spec(scope: usize, rule: usize, outputs: Vec<usize>) -> EdgeSpec {
    EdgeSpec {
        scope,
        rule,
        explicit_outputs: outputs,
        implicit_outputs: Vec::new(),
        explicit_inputs: Vec::new(),
        implicit_inputs: Vec::new(),
        order_only_inputs: Vec::new(),
        validations: Vec::new(),
        always_dirty: false,
        intermediate: false,
        has_touchable_recipe: false,
        outputs_unaliased: false,
        outputs_low_resolution: false,
        bindings: Vec::new(),
    }
}

fn both_with(mut targets: Vec<Target>, pools: &[SinkPool], goal: &str) -> Both {
    let (direct, semantics, pending_subninjas) =
        declared(&mut targets, pools, goal).expect("the direct graph is made");
    let parsed = written(&targets, pools, goal);
    Both {
        direct,
        parsed,
        semantics,
        pending_subninjas,
    }
}

fn both(targets: Vec<Target>) -> Both {
    both_with(targets, &[], "all")
}

fn none() -> Vec<String> {
    Vec::new()
}

fn found(both: &Both) -> Vec<String> {
    shown(compare(
        &both.direct,
        &both.parsed,
        &both.semantics,
        both.pending_subninjas,
    ))
}

fn agrees(targets: Vec<Target>) {
    assert_eq!(found(&both(targets)), none());
}

#[test]
fn the_direct_graph_carries_every_partition_the_manifest_does() {
    agrees(vec![
        target("in", &[], &[]).runs("touch in"),
        target("ordered", &[], &[]).runs("touch ordered"),
        target("out", &["in"], &["ordered"]).runs("echo building out > out"),
        target("all", &["out"], &[]),
    ]);
}

#[test]
fn deferred_edges_cross_the_common_sink() {
    let mut action = target(".ronin_grouped_double/0", &["p"], &["ordered"])
        .runs("printf '%s\\n' \"$KATI_NEW_INPUTS\" > a\ncp a b");
    action.edge.deferred_freshness_outputs = words(&["a", "b"]);
    let mut a = target("a", &[".ronin_grouped_double/0"], &[]);
    a.edge.completion_join = true;
    let mut b = target("b", &[".ronin_grouped_double/0"], &[]);
    b.edge.completion_join = true;
    agrees(vec![
        target("p", &[], &[]).runs("touch p"),
        target("ordered", &[], &[]).runs("touch ordered"),
        action,
        a,
        b,
        target("all", &["a"], &[]),
    ]);
}

#[test]
fn withdrawal_reaches_only_the_direct_graph() {
    let mut gone = target("gone", &[], &[]).runs("echo g > gone; echo k > kept; exit 1");
    gone.edge.implicit_outputs = words(&["kept"]);
    gone.edge.withdrawable_outputs = words(&["gone"]);
    gone.edge.delete_on_error = true;
    let both = both(vec![gone, target("all", &["gone", "kept"], &[]).phony()]);
    assert_eq!(shown(withdrawn(&both.direct)), vec!["gone".to_owned()]);
    assert!(
        withdrawn(&both.parsed).is_empty(),
        "a manifest has no way to say this, so reading one back must not invent it"
    );
    assert_eq!(
        shown(differences(&both.direct, &both.parsed, &both.semantics)),
        none()
    );
}

fn invented(output: &str, input: &str, swept: bool) -> Target {
    let mut made = target(output, &[input], &[]).runs(&format!("cat {input} > {output}"));
    made.edge.intermediate = true;
    if swept {
        made.edge.disposable_outputs = words(&[output]);
    }
    made
}

#[test]
fn a_precious_pattern_spares_an_intermediate() {
    let both = both(vec![
        target("hello.x", &[], &[]).runs("echo body > hello.x"),
        target("other.x", &[], &[]).runs("echo body > other.x"),
        invented("hello.z", "hello.x", false),
        invented("other.y", "other.x", true),
        target("hello.tsk", &["hello.z"], &[]).runs("cat hello.z > hello.tsk"),
        target("other.wsk", &["other.y"], &[]).runs("cat other.y > other.wsk"),
        target("all", &["hello.tsk", "other.wsk"], &[]),
    ]);
    assert_eq!(shown(disposable(&both.direct)), vec!["other.y".to_owned()]);
    assert_eq!(
        shown(intermediate(&both.direct)),
        vec!["hello.z".to_owned(), "other.y".to_owned()],
        "protection is from the deletion and not from being intermediate"
    );
    assert!(
        disposable(&both.parsed).is_empty() && intermediate(&both.parsed).is_empty(),
        "a manifest has no way to say either, so reading one back must not invent them"
    );
    assert_eq!(
        shown(differences(&both.direct, &both.parsed, &both.semantics)),
        none()
    );
}

#[test]
fn peers_reach_only_the_direct_graph() {
    let mut pair = target("hello.z", &["hello.x"], &[])
        .runs("cat hello.x > hello.z; cat hello.x > hello.w");
    pair.edge.implicit_outputs = words(&["hello.w"]);
    pair.edge.peer_outputs = words(&["hello.w"]);
    pair.edge.intermediate = true;
    pair.edge.disposable_outputs = words(&["hello.z", "hello.w"]);
    let both = both(vec![
        target("hello.x", &[], &[]).runs("echo body > hello.x"),
        pair,
        target("hello.tsk", &["hello.z"], &[]).runs("cat hello.z > hello.tsk"),
        target("all", &["hello.tsk"], &[]),
    ]);
    assert_eq!(shown(peers(&both.direct)), vec!["hello.w".to_owned()]);
    assert_eq!(
        shown(disposable(&both.direct)),
        vec!["hello.w".to_owned(), "hello.z".to_owned()],
        "the edge is disposable; sparing the peer is the build's reading of this list"
    );
    assert!(
        peers(&both.parsed).is_empty(),
        "a manifest has no way to say this, so reading one back must not invent it"
    );
    assert_eq!(
        shown(differences(&both.direct, &both.parsed, &both.semantics)),
        none()
    );
}

#[test]
fn asking_by_name_makes_a_target() {
    let mut pair = target("hello.z", &["hello.x"], &[])
        .runs("cat hello.x > hello.z; cat hello.x > hello.w");
    pair.edge.implicit_outputs = words(&["hello.w"]);
    let both = both(vec![
        target("hello.x", &[], &[]).runs("echo body > hello.x"),
        pair,
        target("use", &["hello.w"], &[]).runs("cat hello.w > use"),
        target("all", &["hello.z", "use"], &[]),
    ]);
    assert_eq!(shown(peers(&both.direct)), none());
}

#[test]
fn a_phony_target_agrees_on_being_never_up_to_date() {
    agrees(vec![
        target("clean", &[], &[]).runs("rm -rf out").phony(),
        target("all", &["clean"], &[]).phony(),
    ]);
}

#[test]
fn phony_output_is_reported_as_a_difference_rather_than_hidden() {
    let (direct, semantics, pending) = declared(
        &mut [target("all", &[], &[]).runs("echo hello").phony()],
        &[],
        "all",
    )
    .expect("the direct graph is made");
    let mut parsed = BuildGraph::new();
    let root = parsed.root();
    let command = parsed.binding(b"command");
    let generator = parsed.binding(b"generator");
    let phony_output = parsed.binding(b"phony_output");
    let rule = parsed
        .define_rule(
            root,
            b"rule0",
            vec![
                (
                    command,
                    Template::literal(b"exec /bin/sh -c \"echo hello\""),
                ),
                (generator, Template::literal(b"1")),
            ],
        )
        .expect("a rule");
    let all = parsed.node(b"all").expect("a node");
    let mut made = spec(root, rule, vec![all]);
    made.bindings.push((phony_output, b"true".to_vec()));
    parsed.add_edge(made).expect("an edge");
    parsed.add_default(all);

    let differences = shown(compare(&direct, &parsed, &semantics, pending));
    assert!(
        differences.iter().any(|why| why.contains("phony_output")),
        "{differences:?}"
    );
    assert!(
        differences
            .iter()
            .any(|why| why.contains("always dirty: true") && why.contains("always dirty: false")),
        "{differences:?}"
    );
}

#[test]
fn reobservation_reaches_only_the_direct_graph() {
    let both = both(vec![
        target("in", &[], &[]).runs("touch in"),
        target("out", &["in"], &[]).runs("cat in > out"),
        target("asked", &["in"], &[]).runs("cat in > asked"),
        target("all", &["out", "asked"], &[]),
    ]);
    assert_eq!(
        shown(reobserved(&both.direct)),
        vec![
            "all".to_owned(),
            "asked".to_owned(),
            "in".to_owned(),
            "out".to_owned()
        ],
        "every Make edge carries it, whether or not the Makefile asked for restat"
    );
    assert!(
        reobserved(&both.parsed).is_empty(),
        "a manifest has no way to say this, so reading one back must not invent it"
    );
    assert_eq!(
        shown(differences(&both.direct, &both.parsed, &both.semantics)),
        none()
    );
}

#[test]
fn forgiven_chain_edge_reaches_direct_graph() {
    let mut second = target(
        ".ronin_grouped_double/1",
        &["n2"],
        &[".ronin_grouped_double/0"],
    )
    .runs("echo second");
    second.edge.forgiven_order_only_inputs = words(&[".ronin_grouped_double/0"]);
    second.edge.deferred_freshness_outputs = words(&["out"]);
    let mut first = target(".ronin_grouped_double/0", &["n1"], &[]).runs("echo first");
    first.edge.deferred_freshness_outputs = words(&["out"]);
    let mut out = target(
        "out",
        &[".ronin_grouped_double/0", ".ronin_grouped_double/1"],
        &[],
    );
    out.edge.completion_join = true;
    let both = both_with(
        vec![
            target("n1", &[], &[]).runs("touch n1"),
            target("n2", &[], &[]).runs("touch n2"),
            first,
            second,
            out,
        ],
        &[],
        "out",
    );
    assert_eq!(
        shown(forgiven_order(&both.direct)),
        vec![".ronin_grouped_double/1 <- .ronin_grouped_double/0".to_owned()],
        "the second entry waits for the first and outlives its failure"
    );
    assert!(
        forgiven_order(&both.parsed).is_empty(),
        "a manifest has no way to say this, so reading one back must not invent it"
    );
    assert_eq!(
        shown(differences(&both.direct, &both.parsed, &both.semantics)),
        none()
    );
}

#[test]
fn shell_metacharacters_survive_both_paths_identically() {
    agrees(vec![target("all", &[], &[]).runs_quoted(
        "echo $HOME \"quoted $(date)\" 'single' `backtick` \\$literal",
        "echo \\$HOME \\\"quoted \\$(date)\\\" 'single' \\`backtick\\` \\\\\\$literal",
    )]);
}

#[test]
fn names_needing_ninja_escaping_agree() {
    agrees(vec![
        target("out$dollar", &[], &[]).runs_quoted("touch out$dollar", "touch out\\$dollar"),
        target("all", &["out$dollar"], &[]),
    ]);
}

#[test]
fn the_per_edge_bindings_agree() {
    let mut out = target("out", &["in"], &[]).runs("cp in out\nls");
    out.depfile = Some("out.d".to_owned());
    out.edge.pool = Some(b"console".to_vec());
    out.edge.implicit_outputs = words(&["out.stamp"]);
    let mut all = target("all", &["out"], &[]);
    all.edge.pool = Some(b"local_pool".to_vec());
    let pools = [
        SinkPool {
            name: b"console".to_vec(),
            depth: 1,
        },
        SinkPool {
            name: b"local_pool".to_vec(),
            depth: 4,
        },
    ];
    let both = both_with(
        vec![target("in", &[], &[]).runs("touch in"), out, all],
        &pools,
        "all",
    );
    assert_eq!(found(&both), none());
}

#[test]
fn a_validation_agrees() {
    agrees(vec![
        target("in", &[], &[]).runs("touch in"),
        target("checked", &[], &[]).runs("touch checked"),
        target("out", &["in"], &[]).runs("cp in out"),
        target("all", &["out"], &[]),
    ]);
}

#[test]
fn a_validation_on_one_side_alone_is_named() {
    let mut both = both(vec![
        target("checked", &[], &[]).runs("touch checked"),
        target("out", &[], &[]).runs("touch out"),
        target("all", &["out"], &[]),
    ]);
    let checked = both.parsed.node(b"checked").expect("a node");
    let out = both.parsed.node(b"out").expect("a node");
    let edge = both.parsed.generator(out).expect("made by a recipe");
    both.parsed.edges[edge].declared.validations.push(checked);
    let apart = found(&both);
    assert_eq!(apart.len(), 1);
    let (direct, manifest) = apart[0].split_once("manifest:\n").expect("both sides");
    assert!(direct.contains("  validations: \n"));
    assert!(manifest.contains("  validations: checked\n"));
}

#[test]
fn a_recursive_rule_with_nothing_lifted_is_recursive() {
    let mut tee = Tee::new();
    let plain = target("out", &[], &[]).runs("make -C sub");
    let mut held = rule(3, &plain).expect("a rule");
    held.contains_recursive = true;
    tee.declare_rule(&held);
    let mut out = plain.edge;
    out.rule = Some(3);
    tee.declare_edge(&out);
    assert_eq!(tee.edges.recursive, words(&["out"]));
}

#[test]
fn declared_freshness_is_described_whatever_the_graph_holds() {
    let graph = BuildGraph::new();
    let mut deferred = Table::new();
    deferred.put(
        b"a".to_vec(),
        DeferredSemantics {
            outputs: Vec::new(),
            always_dirty_output: false,
            always_new_inputs: words(&["p", "q"]),
            excluded_new_inputs: Vec::new(),
            new_input_names: Vec::new(),
            completion_join: true,
        },
    );
    let semantics = EdgeSemantics {
        ignored: Table::new(),
        recursive: Vec::new(),
        deferred,
    };
    let mut described = Vec::new();
    describe_deferred_semantics(
        &graph,
        7,
        &b"a".to_vec(),
        &semantics,
        Side::Manifest,
        &mut described,
    );
    assert_eq!(
        String::from_utf8_lossy(&described),
        "  deferred outputs: \n  deferred output always dirty: false\n  \
         deferred always-new inputs: p q\n  deferred excluded new inputs: \n  \
         deferred new-input names: \n  deferred variable: \"\"\n  completion join: true\n"
    );
}

#[test]
fn a_script_too_long_for_an_argument_list_agrees() {
    let padding = "x".repeat(100 * 1000);
    agrees(vec![
        target("all", &[], &[]).runs(&format!("echo {padding} > out"))
    ]);
}

#[test]
fn the_default_pool_and_the_local_pool_agree() {
    let pools = [
        SinkPool {
            name: b"local_pool".to_vec(),
            depth: 1,
        },
        SinkPool {
            name: b"default_pool".to_vec(),
            depth: 8,
        },
    ];
    let mut out = target("out", &[], &[]).runs("touch out");
    out.edge.pool = Some(b"local_pool".to_vec());
    let mut all = target("all", &["out"], &[]);
    all.edge.pool = Some(b"default_pool".to_vec());
    let both = both_with(vec![out, all], &pools, "all");
    assert_eq!(found(&both), none());
}

#[test]
fn an_ignored_failure_agrees_though_its_two_spellings_differ() {
    let mut muted = target("out", &[], &[]).runs("false");
    muted.ignore_errors = true;
    agrees(vec![muted, target("all", &["out"], &[])]);
}

#[test]
fn a_recursive_rule_is_counted_rather_than_compared() {
    let mut sub = target("sub", &[], &[]).runs("make -C sub");
    sub.recursive = true;
    let both = both(vec![sub, target("all", &["sub"], &[])]);
    assert_eq!(both.pending_subninjas, 1);
    assert_eq!(found(&both), none());
    assert_eq!(
        shown(compare(&both.direct, &both.parsed, &both.semantics, 0)),
        vec!["recursive rules: sink held 0, boundary declared 1".to_owned()]
    );
}

#[test]
fn every_disagreement_is_named() {
    let mine = both(vec![
        target("out", &[], &[]).runs("touch out"),
        target("all", &["out"], &[]),
    ]);
    let theirs = both(vec![
        target("out", &[], &[]).runs("touch elsewhere"),
        target("extra", &[], &[]).runs("touch extra"),
    ]);
    let apart = shown(differences(&mine.direct, &theirs.parsed, &mine.semantics));
    assert!(apart.iter().any(|why| why == "edge all only direct"));
    assert!(apart
        .iter()
        .any(|why| why == "edge extra only in manifest"));
    assert!(apart
        .iter()
        .any(|why| why.starts_with("edge out:\ndirect:\n") && why.contains("touch elsewhere")));
    let other_goal = both_with(
        vec![
            target("out", &[], &[]).runs("touch out"),
            target("all", &["out"], &[]),
        ],
        &[],
        "out",
    );
    assert_eq!(
        shown(differences(
            &mine.direct,
            &other_goal.parsed,
            &mine.semantics
        )),
        vec!["default targets: direct [\"all\"], manifest [\"out\"]".to_owned()]
    );
}

#[test]
fn a_graph_that_makes_one_file_twice_is_refused() {
    let mut twice = vec![
        target("out", &[], &[]).runs("touch out"),
        target("out", &[], &[]).runs("touch out again"),
    ];
    match declared(&mut twice, &[], "out") {
        Err(FrontendError::DuplicateOutput { path }) => assert_eq!(path, b"out"),
        other => panic!("expected a refusal, got {:?}", other.map(|made| made.2)),
    }
    let mut unpooled = target("out", &[], &[]).runs("touch out");
    unpooled.edge.pool = Some(b"nowhere".to_vec());
    match declared(&mut [unpooled], &[], "out") {
        Err(FrontendError::UnknownPool { name }) => assert_eq!(name, b"nowhere"),
        other => panic!("expected a refusal, got {:?}", other.map(|made| made.2)),
    }
    match declared(&mut [target("", &[], &[])], &[], "out") {
        Err(FrontendError::EmptyPath) => {}
        other => panic!("expected a refusal, got {:?}", other.map(|made| made.2)),
    }
}

#[test]
fn each_test_target_is_run_once_in_order() {
    assert_eq!(
        declared_targets(b"test2: x\n\techo\ntest10:\ntest2: again\n"),
        vec![Some(b"test10".to_vec()), Some(b"test2".to_vec())]
    );
    assert_eq!(declared_targets(b"all:\n"), vec![None]);
    assert_eq!(declared_targets(b"test"), vec![Some(b"test".to_vec())]);
}

#[test]
fn a_report_files_each_case_once() {
    let mut report = Report::new();
    report.record(b"one", Compared::Differ(Vec::new()));
    report.record(b"two", Compared::Differ(words(&["edge x only direct"])));
    report.record(b"three", Compared::NotAccepted(b"no".to_vec()));
    report.record(
        b"four",
        Compared::BothRefused {
            direct: b"a".to_vec(),
            manifest: b"b".to_vec(),
        },
    );
    report.record(b"five", Compared::OnlyDirectRefused(b"why".to_vec()));
    report.record(
        b"equal_in_target.mk#test",
        Compared::OnlyManifestRefused(b"unknown target 'test'".to_vec()),
    );
    assert_eq!(report.compared, 2);
    assert_eq!(report.not_accepted, words(&["three"]));
    assert_eq!(report.both_refused.len(), 1);
    assert_eq!(report.disagreed.len(), 3);
    assert_eq!(
        shown(report.disagreed[1].1.clone()),
        vec!["only the direct graph refused it: why".to_owned()]
    );
    assert!(Report::classified(
        &report.disagreed[2].0,
        &report.disagreed[2].1
    ));
    assert!(!Report::classified(b"five", &report.disagreed[2].1));
    assert_eq!(report.unclassified(), 2);
}
