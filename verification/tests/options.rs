//! How command lines and option streams are read, and what is handed on.

use ronin_make::command::{
    build_options, decode_makefile_makeflags, evaluated_build_options, evaluated_invocation,
    evaluated_option_arguments, job_count, makeflags_arguments, makeflags_job_budget, parse,
    read_job_count, Action, BuildOptions, DecodedMakeflags, JobCounts, OptionStream,
};
use ronin_make::invocation::{command_line_file, Invocation, Surroundings};
use ronin_make::layout::{makeflags_while_remaking, mflags_while_remaking};
use ronin_make::makeflags::{compiler_flag_variables, makeflags_words, quote_for_makeflags};
use ronin_make::options::{
    make_option_surface, ArgumentShape, ArgumentSource, JobLimit, OutputSync, Shuffle, Switch,
    DB_ALL, DB_BASIC, DB_IMPLICIT, DB_JOBS, DB_PRINT, DB_WHY, SURFACE_ROWS,
};
use ronin_make::parsing::parse_arguments;
use ronin_make::report::ABANDONED;
use ronin_make::session::descendant_environment;

fn words(list: &[&str]) -> Vec<Vec<u8>> {
    list.iter().map(|word| word.as_bytes().to_vec()).collect()
}

fn said(bytes: &[u8]) -> String {
    String::from_utf8_lossy(bytes).into_owned()
}

fn around() -> Surroundings {
    let mut around = Surroundings::bare();
    around.loads = ["2.5", "4", "2"]
        .iter()
        .map(|load| {
            let ceiling: f64 = load.parse().unwrap();
            (load.as_bytes().to_vec(), format!("{ceiling}").into_bytes())
        })
        .collect();
    around.seed = 77;
    around
}

fn stream(written: Option<&str>) -> Option<OptionStream> {
    written.map(|written| OptionStream {
        written: written.as_bytes().to_vec(),
        expansion: Ok(written.replace("$$", "$").into_bytes()),
    })
}

fn parsed_with_environment(
    gnumakeflags: Option<&str>,
    inherited: Option<&str>,
    arguments: &[&str],
) -> Invocation {
    match parse(
        &words(arguments),
        &stream(inherited),
        &stream(gnumakeflags),
        around(),
    ) {
        Action::Execute(invocation) => invocation,
        Action::Immediate(_) => panic!("these arguments describe a build"),
    }
}

fn parsed_under(inherited: Option<&str>, arguments: &[&str]) -> Invocation {
    parsed_with_environment(None, inherited, arguments)
}

fn parsed(arguments: &[&str]) -> Invocation {
    parsed_under(None, arguments)
}

fn refused(arguments: &[&str]) -> Option<String> {
    match parse(&words(arguments), &None, &None, around()) {
        Action::Immediate(result) => {
            assert_eq!(result.exit_code, ABANDONED);
            Some(said(&result.stderr))
        }
        Action::Execute(_) => None,
    }
}

fn decode(previous: &[u8], assigned: &[u8], protected: &[u8]) -> DecodedMakeflags {
    decode_makefile_makeflags(previous, assigned, protected, around()).unwrap()
}

#[test]
fn child_does_not_inherit_restart_count() {
    let environment = descendant_environment(&[
        (b"MAKE_RESTARTS".to_vec(), b"2".to_vec()),
        (b"PATH".to_vec(), b"/bin".to_vec()),
    ]);
    assert!(environment.iter().all(|(name, _)| name != b"MAKE_RESTARTS"));
    assert!(environment.iter().any(|(name, _)| name == b"PATH"));
}

#[test]
fn maps_make_options_to_ninja_controls() {
    let invocation = parsed(&[
        "make", "-j8", "-k", "-n", "-f", "other.mk", "all", "FOO=bar",
    ]);
    assert_eq!(invocation.jobs, JobLimit::fixed(8));
    assert!(invocation.given(Switch::KeepGoing));
    assert!(invocation.given(Switch::DryRun));
    assert_eq!(invocation.makefiles, words(&["other.mk"]));
    assert_eq!(invocation.goals, words(&["all"]));
    assert_eq!(invocation.variables, words(&["FOO=bar"]));
}

#[test]
fn an_empty_word_is_passed_over() {
    let alone = parsed(&["make", ""]);
    assert!(alone.goals.is_empty());
    assert!(alone.variables.is_empty());

    let surrounded = parsed(&["make", "", "all", "", "FOO=bar", ""]);
    assert_eq!(surrounded.goals, words(&["all"]));
    assert_eq!(surrounded.variables, words(&["FOO=bar"]));

    let after_terminator = parsed(&["make", "--", ""]);
    assert!(after_terminator.goals.is_empty());
}

#[test]
fn a_plain_dash_is_passed_over() {
    let alone = parsed(&["make", "-"]);
    assert!(alone.goals.is_empty());
    assert!(alone.variables.is_empty());

    let surrounded = parsed(&["make", "-", "all", "-", "FOO=bar", "-"]);
    assert_eq!(surrounded.goals, words(&["all"]));
    assert_eq!(surrounded.variables, words(&["FOO=bar"]));

    let after_terminator = parsed(&["make", "--", "-"]);
    assert!(after_terminator.goals.is_empty());

    let forgets = parsed(&["make", "-I", "one", "-I", "-", "-I", "two"]);
    assert!(forgets.goals.is_empty());
    assert_eq!(forgets.include_dirs, words(&["one", "-", "two"]));

    let once = parsed(&["make", "-I", "one", "-I", "-", "-I", "one", "-I", "-"]);
    assert_eq!(once.include_dirs, words(&["one", "-"]));
}

#[test]
fn parses_clusters_and_directories() {
    let invocation = parsed(&["make", "-kn", "-C", "a", "-C", "b"]);
    assert!(invocation.given(Switch::KeepGoing) && invocation.given(Switch::DryRun));
    assert_eq!(invocation.directories, words(&["a", "b"]));
}

#[test]
fn parses_optional_jobs_count() {
    let unlimited = parsed(&["make", "-j", "all"]);
    assert_eq!(unlimited.jobs, Some(JobLimit::Unlimited));
    assert_eq!(unlimited.goals, words(&["all"]));

    let counted = parsed(&["make", "-j", "4", "all"]);
    assert_eq!(counted.jobs, JobLimit::fixed(4));
    assert_eq!(counted.goals, words(&["all"]));
}

#[test]
fn inherits_parent_switches() {
    let under = parsed_under;

    let invocation = under(Some("ks -- FOO=bar"), &["make", "all"]);
    assert!(invocation.given(Switch::KeepGoing));
    assert!(invocation.given(Switch::Silent));
    assert_eq!(invocation.variables, words(&["FOO=bar"]));
    assert_eq!(
        said(&compiler_flag_variables(&invocation).overrides),
        "FOO=bar"
    );

    let invocation = under(Some("w -j4 --jobserver-auth=fifo:/tmp/x"), &["make", "all"]);
    assert!(invocation.given(Switch::PrintDirectory));
    assert!(!invocation.given(Switch::Silent));
    assert!(!invocation.given(Switch::NoBuiltinRules));
    assert_eq!(invocation.jobs, None);
    assert_eq!(invocation.inherited_jobs, JobLimit::fixed(4));
    assert_eq!(invocation.effective_jobs(), JobLimit::fixed(4));

    let invocation = under(Some(" -j4 -l2.5"), &["make", "-j2", "-l4"]);
    assert_eq!(invocation.jobs, JobLimit::fixed(2));
    assert_eq!(invocation.inherited_jobs, JobLimit::fixed(4));
    assert_eq!(invocation.effective_jobs(), JobLimit::fixed(2));
    assert_eq!(
        said(&compiler_flag_variables(&invocation).makeflags),
        " -j2 -l4"
    );

    assert!(under(Some("w"), &["make", "--no-print-directory"]).refused(Switch::PrintDirectory));
    assert!(under(Some("--no-print-directory"), &["make", "-w"]).given(Switch::PrintDirectory));
    assert!(under(Some("k"), &["make", "-S"]).refused(Switch::KeepGoing));
    assert!(under(Some("S"), &["make", "-k"]).given(Switch::KeepGoing));

    assert!(under(Some("i"), &["make"]).given(Switch::IgnoreErrors));
    assert!(under(None, &["make", "-i"]).given(Switch::IgnoreErrors));
    assert!(under(Some("i"), &["make", "-i"]).given(Switch::IgnoreErrors));

    let sync = |invocation: Invocation| {
        invocation
            .output_sync
            .map(|kind: OutputSync| said(&kind.spelling()))
    };
    assert_eq!(
        sync(under(Some("-Oline"), &["make"])),
        Some("-Oline".to_owned())
    );
    assert_eq!(
        sync(under(Some("-Oline"), &["make", "-Otarget"])),
        Some("-Otarget".to_owned())
    );
    assert_eq!(
        under(Some("--shuffle=reverse"), &["make", "--shuffle=none"]).shuffle,
        Shuffle::Unshuffled
    );
    assert_eq!(
        under(Some("--debug=a"), &["make", "--debug=n"]).debugging(),
        0
    );
    assert_ne!(
        under(Some("--debug=n"), &["make", "--debug=b"]).debugging(),
        0
    );
}

#[test]
fn exports_makeflags_and_mflags() {
    let invocation = parsed(&[
        "make",
        "-k",
        "-s",
        "FIRST=a b",
        "SECOND=a\\b",
        "FIRST=last",
        "all",
    ]);
    let variables = compiler_flag_variables(&invocation);
    assert_eq!(said(&variables.base), "ks");
    assert_eq!(said(&variables.overrides), r"SECOND=a\\b FIRST=last");
    assert_eq!(said(&variables.makeflags), r"ks -- SECOND=a\\b FIRST=last");
    assert_eq!(said(&variables.mflags), "-ks");
}

#[test]
fn propagates_eval_fragments() {
    let variables = |arguments: &[&str]| compiler_flag_variables(&parsed(arguments));

    let one = variables(&["make", "--eval=$(info eval)"]);
    assert_eq!(said(&one.makeflags), r" --eval=$$(info\ eval)");
    assert_eq!(said(&one.eval_flags), r"--eval=$$(info\ eval)");
    assert_eq!(said(&one.base), "");
    assert_eq!(said(&one.mflags), "");

    let two = variables(&["make", "-E", "A=1", "--eval=B=2"]);
    assert_eq!(said(&two.makeflags), " --eval=A=1 --eval=B=2");
    assert_eq!(said(&two.eval_flags), "--eval=A=1 --eval=B=2");

    let placed = variables(&[
        "make",
        "-k",
        "--no-print-directory",
        "--eval=X := 1",
        "FOO=bar",
    ]);
    assert_eq!(
        said(&placed.makeflags),
        r"k --no-print-directory --eval=X\ :=\ 1 -- FOO=bar"
    );
    assert_eq!(said(&placed.base), "k --no-print-directory");
    assert_eq!(said(&placed.eval_flags), r"--eval=X\ :=\ 1");
    assert_eq!(said(&placed.mflags), "-k --no-print-directory");

    let none = variables(&["make", "-k", "FOO=bar"]);
    assert_eq!(said(&none.eval_flags), "");
    assert_eq!(said(&none.makeflags), "k -- FOO=bar");

    let escaped = variables(&["make", r"--eval=P := a\b"]);
    assert_eq!(said(&escaped.makeflags), r" --eval=P\ :=\ a\\b");
}

#[test]
fn accepts_short_and_long_switches() {
    for (letter, name) in [
        ("-B", "--always-make"),
        ("-e", "--environment-overrides"),
        ("-i", "--ignore-errors"),
        ("-k", "--keep-going"),
        ("-n", "--dry-run"),
        ("-q", "--question"),
        ("-r", "--no-builtin-rules"),
        ("-s", "--silent"),
        ("-t", "--touch"),
        ("-w", "--print-directory"),
    ] {
        let short = parsed(&["make", letter]).switches;
        assert_eq!(
            short.count_ones(),
            1,
            "{letter} set no switch, or more than one"
        );
        assert_eq!(
            short,
            parsed(&["make", name]).switches,
            "{letter} differs from {name}"
        );
    }
}

#[test]
fn negation_withdraws_switch() {
    for (spelling, switch) in [
        ("-S", Switch::KeepGoing),
        ("--no-keep-going", Switch::KeepGoing),
        ("--stop", Switch::KeepGoing),
        ("--no-print-directory", Switch::PrintDirectory),
        ("--no-silent", Switch::Silent),
    ] {
        let invocation = parsed(&["make", spelling]);
        assert!(invocation.refused(switch), "{spelling} refused nothing");
        assert!(!invocation.given(switch), "{spelling} also asked for it");
    }

    assert!(!parsed(&["make", "-k", "-S"]).given(Switch::KeepGoing));
    assert!(parsed(&["make", "-S", "-k"]).given(Switch::KeepGoing));
    assert!(parsed(&["make", "-w", "--no-print-directory"]).refused(Switch::PrintDirectory));
    assert!(parsed(&["make", "--no-print-directory", "-w"]).given(Switch::PrintDirectory));
}

#[test]
fn propagates_switch_negations() {
    let makeflags = |arguments: &[&str]| {
        let mut all = vec!["make"];
        all.extend_from_slice(arguments);
        said(&compiler_flag_variables(&parsed(&all)).makeflags)
    };
    assert_eq!(makeflags(&["-S"]), "S");
    assert_eq!(makeflags(&["-k", "-S"]), "S");
    assert_eq!(makeflags(&["-i", "-S", "-w", "-B", "-r"]), "BirSw");
    assert_eq!(
        makeflags(&["--no-print-directory"]),
        " --no-print-directory"
    );
    assert_eq!(
        makeflags(&["-k", "--no-print-directory"]),
        "k --no-print-directory"
    );
    assert_eq!(makeflags(&["-k", "--no-silent", "-S"]), "S --no-silent");
    assert_eq!(makeflags(&["--shuffle=reverse"]), " --shuffle=reverse");
    assert_eq!(makeflags(&["--shuffle=identity"]), " --shuffle=identity");
    assert_eq!(makeflags(&["--shuffle=12345"]), " --shuffle=12345");
    assert_eq!(makeflags(&["--shuffle=none"]), "");
    assert_eq!(
        makeflags(&["-k", "--shuffle=reverse"]),
        "k --shuffle=reverse"
    );
    assert_eq!(
        makeflags(&["--no-print-directory", "--shuffle=reverse"]),
        " --no-print-directory --shuffle=reverse"
    );
    let seeded = makeflags(&["--shuffle"]);
    assert!(
        seeded
            .strip_prefix(" --shuffle=")
            .is_some_and(|seed| seed.parse::<u32>().is_ok()),
        "{seeded}"
    );

    assert_eq!(makeflags(&["-d"]), "d");
    assert_eq!(makeflags(&["--debug"]), " --debug=basic");
    assert_eq!(
        makeflags(&["--debug=b", "--debug=j"]),
        " --debug=b --debug=j"
    );
    assert_eq!(makeflags(&["-k", "--trace"]), "k --trace");
    assert_eq!(makeflags(&["-d", "--debug=n"]), " --debug=n");
    assert_eq!(
        makeflags(&["--trace", "--no-print-directory"]),
        " --trace --no-print-directory"
    );

    let adopted = parsed_under(Some("S --no-print-directory --no-silent"), &["make", "all"]);
    assert!(adopted.refused(Switch::KeepGoing));
    assert!(adopted.refused(Switch::PrintDirectory));
    assert!(adopted.refused(Switch::Silent));

    let adopted = parsed_under(
        Some("k --debug=b --trace --shuffle=12345"),
        &["make", "--debug=b"],
    );
    assert_eq!(adopted.shuffle, Shuffle::Seed(12345));
    assert_eq!(adopted.debugging(), DB_BASIC | DB_PRINT | DB_WHY);
    assert_eq!(
        said(&compiler_flag_variables(&adopted).makeflags),
        "k --debug=b --trace --shuffle=12345"
    );
}

#[test]
fn gnumakeflags_is_read_before_makeflags() {
    let flags = |gnumakeflags: Option<&str>, inherited: Option<&str>| {
        let invocation = parsed_with_environment(gnumakeflags, inherited, &["make"]);
        said(&compiler_flag_variables(&invocation).makeflags)
    };

    assert_eq!(flags(Some("-k"), None), "k");
    assert_eq!(flags(Some("k"), None), "k");
    assert_eq!(
        flags(Some("--no-print-directory -e -r -R --trace"), None),
        "erR --trace --no-print-directory"
    );

    assert_eq!(flags(Some("-k"), Some("s")), "ks");
    assert_eq!(
        flags(Some("-I first"), Some("-I second")),
        " -Ifirst -Isecond"
    );
    assert_eq!(
        flags(Some("--debug=b"), Some("--debug=j")),
        " --debug=b --debug=j"
    );

    assert_eq!(flags(Some("FOO=bar"), None), " -- FOO=bar");

    assert_eq!(flags(None, None), "");
    assert_eq!(flags(Some(""), None), "");
}

#[test]
fn parses_extended_switch_cluster() {
    let invocation = parsed(&["make", "-kiBrq", "all"]);
    assert!(invocation.given(Switch::KeepGoing));
    assert!(invocation.given(Switch::IgnoreErrors));
    assert!(invocation.given(Switch::AlwaysMake));
    assert!(invocation.given(Switch::NoBuiltinRules));
    assert!(invocation.given(Switch::Question));
    assert_eq!(invocation.goals, words(&["all"]));
}

fn ceiling(text: &[u8]) -> f64 {
    said(text).parse().unwrap_or(0.0)
}

#[test]
fn parses_optional_load_limit() {
    let lifted = parsed(&["make", "-l", "all"]);
    let load = lifted.load.expect("a lifted limit is said");
    assert!(ceiling(&load.ceiling).abs() < f64::EPSILON);
    assert!(!load.propagated);
    assert_eq!(lifted.goals, words(&["all"]));

    for spelling in [
        ["-l", "2.5"].as_slice(),
        ["-l2.5"].as_slice(),
        ["--load-average", "2.5"].as_slice(),
        ["--load-average=2.5"].as_slice(),
    ] {
        let mut arguments = vec!["make"];
        arguments.extend_from_slice(spelling);
        arguments.push("all");
        let invocation = parsed(&arguments);
        let load = invocation.load.expect("a limit");
        assert!((ceiling(&load.ceiling) - 2.5).abs() < f64::EPSILON, "{spelling:?}");
        assert!(load.propagated, "{spelling:?}");
        assert_eq!(invocation.goals, words(&["all"]), "{spelling:?}");
    }
}

#[test]
fn maps_load_limit_to_scheduler() {
    let options = |arguments: &[&str]| build_options(&parsed(arguments), None);
    let maxload = |arguments: &[&str]| ceiling(&options(arguments).maxload);
    assert!((maxload(&["make", "-l", "2.5"]) - 2.5).abs() < f64::EPSILON);
    assert!(maxload(&["make"]).abs() < f64::EPSILON);
    assert!(maxload(&["make", "-l"]).abs() < f64::EPSILON);
}

#[test]
fn make_jobs_use_one_ninja_scheduler() {
    let options = |makeflags: Option<&str>, arguments: &[&str], jobserver: Option<&str>| {
        build_options(
            &parsed_under(makeflags, arguments),
            jobserver.map(|address| address.as_bytes().to_vec()),
        )
    };

    let root_options = options(None, &["make", "-j4"], None);
    assert_eq!(root_options.jobs, JobLimit::fixed(4).unwrap());
    assert!(root_options.jobserver.is_none());
    assert!(!root_options.serve_jobserver);

    let inherited_options = options(Some(" -j8"), &["make"], None);
    assert_eq!(inherited_options.jobs, JobLimit::fixed(8).unwrap());
    assert!(inherited_options.jobserver.is_none());

    let child_options = options(
        Some(" -j8 --jobserver-auth=fifo:/tmp/parent"),
        &["make", "-j2"],
        Some("fifo:/tmp/parent"),
    );
    assert_eq!(child_options.jobs, JobLimit::fixed(2).unwrap());
    assert!(child_options.jobserver.is_none());
    assert!(!child_options.serve_jobserver);
}

#[test]
fn propagates_inherited_switches() {
    let invocation = parsed(&["make", "-Beikqrstw", "-W", "b.x", "all"]);
    assert_eq!(
        said(&compiler_flag_variables(&invocation).makeflags),
        "Beikqrstw"
    );
}

#[test]
fn accepts_what_if_aliases() {
    for spelling in [
        ["-W", "b.x"].as_slice(),
        ["-Wb.x"].as_slice(),
        ["--what-if", "b.x"].as_slice(),
        ["--what-if=b.x"].as_slice(),
        ["--new-file=b.x"].as_slice(),
        ["--assume-new=b.x"].as_slice(),
    ] {
        let mut arguments = vec!["make"];
        arguments.extend_from_slice(spelling);
        arguments.push("all");
        let invocation = parsed(&arguments);
        assert_eq!(invocation.goals, words(&["all"]), "{spelling:?}");
    }
}

#[test]
fn touch_does_not_override_question_mode() {
    assert!(parsed(&["make", "-q"]).questioning());
    assert!(parsed(&["make", "-q", "-t"]).questioning());
}

#[test]
fn parses_debug_facets() {
    let level = |arguments: &[&str]| {
        let mut all = vec!["make"];
        all.extend_from_slice(arguments);
        parsed(&all).debugging()
    };
    assert_eq!(level(&["-d"]), DB_ALL);
    assert_eq!(level(&["--debug=a"]), DB_ALL);
    assert_eq!(level(&["--trace"]), DB_PRINT | DB_WHY);
    assert_eq!(level(&["--debug=print,why"]), level(&["--trace"]));
    assert_eq!(level(&["--debug"]), DB_BASIC);
    assert_eq!(level(&["--debug=basic"]), level(&["--debug=b"]));
    assert_eq!(
        level(&["--debug=i"]),
        DB_BASIC | DB_IMPLICIT,
        "an implicit-rule account carries the basic one"
    );
    assert_eq!(level(&["--debug=n"]), 0);
    assert_eq!(level(&["-d", "--debug=n"]), 0);
    assert_eq!(level(&["--debug=n", "-d"]), 0);
    assert_eq!(level(&["--debug=b", "--debug=j"]), DB_BASIC | DB_JOBS);

    let diagnostic = refused(&["make", "--debug=x"]).expect("a level Make does not have");
    assert!(
        diagnostic.starts_with("ronin: unknown debug level specification 'x'"),
        "{diagnostic}"
    );
}

#[test]
fn makefile_makeflags_mutate_switch_table() {
    let decoded = decode(b"", b" -- FOO=bar -rR", b"");
    assert_eq!(decoded.makeflags, b"rR");
    assert_eq!(decoded.mflags, b"-rR");

    let decoded = decode(&decoded.makeflags, b"-w", b"");
    assert_eq!(decoded.makeflags, b"rRw");
    let decoded = decode(&decoded.makeflags, b"--no-print-directory -k", b"");
    assert_eq!(decoded.makeflags, b"krR --no-print-directory");
    assert!(decoded.makeflags.starts_with(b"k"));

    let decoded = decode(b"w", b"w -- FOO=bar --no-print-directory", b"w");
    assert_eq!(decoded.makeflags, b"w");
    assert_eq!(decoded.mflags, b"-w");
}

#[test]
fn a_makeflags_write_hands_back_names() {
    let decoded = decode(b"", b"FOO=bar", b"");
    assert_eq!(decoded.assignments, words(&["FOO=bar"]));
    assert_eq!(decoded.makeflags, b"");

    let decoded = decode(b"", b"-k A:=1 B+=2 C?=3 D!=echo", b"");
    assert_eq!(
        decoded.assignments,
        words(&["A:=1", "B+=2", "C?=3", "D!=echo"])
    );
    assert_eq!(decoded.makeflags, b"k");

    let decoded = decode(b"KEPT=1", b"-w", b"HELD=2");
    assert!(decoded.assignments.is_empty());

    let decoded = decode(b"", b"FOO=bar ran", b"");
    assert_eq!(decoded.assignments, words(&["FOO=bar"]));
    assert!(!decoded.is_dry_run);
    assert_eq!(decoded.makeflags, b"");

    let decoded = decode(b"", b"ran FOO=bar", b"");
    assert!(decoded.is_dry_run);
    assert_eq!(decoded.makeflags, b"nr");
}

#[test]
fn a_makefiles_shuffle_word_is_republished() {
    let decoded = decode(b"", b"--shuffle=bogus", b"");
    assert_eq!(decoded.makeflags, b" --shuffle=bogus");

    let decoded = decode(b"", b"--shuffle=random", b"");
    assert_eq!(decoded.makeflags, b" --shuffle=random");

    let decoded = decode(b"", b"--shuffle=", b"");
    assert_eq!(decoded.makeflags, b"");

    let decoded = decode(
        b" --shuffle=reverse",
        b" --shuffle=reverse --shuffle=none",
        b" --shuffle=reverse",
    );
    assert_eq!(decoded.makeflags, b" --shuffle=none");
}

fn sample(spelling: &str) -> &'static str {
    match spelling {
        "-C" | "--directory" | "-I" | "--include-dir" => ".",
        "-E" | "--eval" => "SURFACE:=accepted",
        "-f" | "--file" | "--makefile" => "Makefile",
        "--jobserver-style" => "fifo",
        "--jobserver-auth" => "fifo:/tmp/ronin-ignored",
        "--jobserver-fds" => "3,4",
        "--sync-mutex" => "fnm:/tmp/ronin-ignored",
        "-o" | "--old-file" | "--assume-old" => "old",
        "-W" | "--what-if" | "--new-file" | "--assume-new" => "new",
        "--debug" => "n",
        "-O" | "--output-sync" | "--shuffle" => "none",
        "-j" | "--jobs" | "-l" | "--load-average" | "--max-load" => "2",
        _ => "value",
    }
}

fn accepted(arguments: &[String], inherited: Option<&str>) -> bool {
    let arguments: Vec<Vec<u8>> = arguments
        .iter()
        .map(|argument| argument.as_bytes().to_vec())
        .collect();
    match parse(&arguments, &stream(inherited), &None, around()) {
        Action::Execute(_) => true,
        Action::Immediate(result) => result.exit_code == 0,
    }
}

#[test]
fn accepts_every_make_option_shape() {
    for at in 0..SURFACE_ROWS {
        let declared = make_option_surface(at);
        for spelling in &declared.spellings {
            let spelling = said(spelling);
            let value = sample(&spelling);
            let mut separate = vec!["make".to_owned(), spelling.clone()];
            if matches!(
                declared.argument,
                ArgumentShape::Required | ArgumentShape::OptionalNumeric
            ) {
                separate.push(value.to_owned());
            }
            separate.push("goal".to_owned());
            assert!(
                accepted(&separate, None),
                "argv refused {spelling} as {:?}/{:?}",
                declared.class,
                declared.argument
            );

            let inherited = separate[1..separate.len() - 1].join(" ");
            assert!(
                accepted(&["make".to_owned(), "goal".to_owned()], Some(&inherited)),
                "MAKEFLAGS refused {spelling} as {:?}/{:?}",
                declared.class,
                declared.argument
            );

            if declared.argument != ArgumentShape::Nothing {
                let attached = if spelling.starts_with("--") {
                    format!("{spelling}={value}")
                } else {
                    format!("{spelling}{value}")
                };
                assert!(
                    accepted(
                        &["make".to_owned(), attached.clone(), "goal".to_owned()],
                        None
                    ),
                    "argv refused attached {attached}"
                );
                assert!(
                    accepted(&["make".to_owned(), "goal".to_owned()], Some(&attached)),
                    "MAKEFLAGS refused attached {attached}"
                );
            }
        }
    }
}

#[test]
fn unknown_make_option_is_refused() {
    let diagnostic = refused(&["make", "--not-a-make-option"]).expect("an unknown option");
    assert!(
        diagnostic.starts_with("ronin: unrecognized option '--not-a-make-option'"),
        "{diagnostic}"
    );
}

#[test]
fn a_switch_argument_reaches_makeflags_quoted() {
    let flags = compiler_flag_variables(&parsed(&["make", "--debug=b\\x$y"]));
    assert_eq!(said(&flags.base), " --debug=b\\\\x$$y");
    assert_eq!(said(&flags.mflags), "--debug=b\\\\x$$y");

    let flags = compiler_flag_variables(&parsed(&["make", "-I", "a b$c\\d"]));
    assert_eq!(said(&flags.base), " -Ia\\ b$$c\\\\d");

    let flags = compiler_flag_variables(&parsed(&["make", "--debug=basic"]));
    assert_eq!(said(&flags.base), " --debug=basic");

    let decoded = decode(b"", b" --debug=b\\\\x$$y", b"");
    assert_eq!(decoded.makeflags, b" --debug=b\\\\x$$y");
}

#[test]
fn makeflags_quoting_round_trips() {
    let written = r"ks -- SPACE=two\ words SLASH=a\\b DOLLAR=a$$b";
    let held = OptionStream {
        written: written.as_bytes().to_vec(),
        expansion: Ok(br"ks -- SPACE=two\ words SLASH=a\\b DOLLAR=a$b".to_vec()),
    };
    assert_eq!(
        makeflags_arguments(&held).unwrap(),
        words(&[
            "make",
            "-ks",
            "--",
            "SPACE=two words",
            r"SLASH=a\b",
            "DOLLAR=a$b",
        ])
    );
}

#[test]
fn a_stream_reference_expands_before_the_split() {
    let held = OptionStream {
        written: b"$(subst X,-,Xk)".to_vec(),
        expansion: Ok(b"-k".to_vec()),
    };
    assert_eq!(makeflags_arguments(&held).unwrap(), words(&["make", "-k"]));
}

#[test]
fn a_stream_that_does_not_expand_says_why() {
    let held = OptionStream {
        written: b"$(error stop)".to_vec(),
        expansion: Err(b"stop".to_vec()),
    };
    assert_eq!(makeflags_arguments(&held).unwrap_err(), b"stop");
}

#[test]
fn a_quoted_word_is_one_word_again() {
    for word in ["plain", "two words", r"a\b", "a$b", "tab\there", " lead"] {
        let carried = quote_for_makeflags(word.as_bytes());
        assert_eq!(makeflags_words(&carried, true), words(&[word]));
    }
    assert_eq!(quote_for_makeflags(br"a b\$"), br"a\ b\\$$");
}

#[test]
fn a_missing_argument_is_refused() {
    let diagnostic = refused(&["make", "-f"]).expect("an option with nothing behind it");
    assert!(
        diagnostic.starts_with("ronin: option requires an argument -- 'f'"),
        "{diagnostic}"
    );
    assert!(refused(&["make", "-j0"]).is_some());
    assert!(refused(&["make", "--jobserver-style="]).is_some());
}

#[test]
fn a_jobserver_style_is_judged_only_where_it_is_used() {
    assert!(refused(&["make", "--jobserver-style=teleport"]).is_none());
    let diagnostic =
        refused(&["make", "-j2", "--jobserver-style=teleport"]).expect("an unknown style");
    assert_eq!(
        diagnostic,
        "ronin: unknown jobserver auth style 'teleport'\n"
    );
}

#[test]
fn a_makefiles_write_passes_over_what_it_cannot_read() {
    let decoded = decode(b"", b"--not-a-make-option -k", b"");
    assert_eq!(decoded.makeflags, b"k");
    match parse(
        &words(&["make"]),
        &stream(Some("--not-a-make-option -k")),
        &None,
        around(),
    ) {
        Action::Immediate(result) => assert_eq!(result.exit_code, ABANDONED),
        Action::Execute(_) => panic!("an inherited stream is refused as a command line is"),
    }
}

#[test]
fn help_and_version_answer_at_once() {
    for option in ["--help", "--version"] {
        match parse(&words(&["make", option]), &None, &None, around()) {
            Action::Immediate(result) => {
                assert_eq!(result.exit_code, 0);
                assert!(!result.stdout.is_empty());
            }
            Action::Execute(_) => panic!("{option} builds nothing"),
        }
    }
}

#[test]
fn a_settled_makeflags_value_is_read_back() {
    let invocation = evaluated_invocation(b"ks -j3", around()).unwrap();
    assert!(invocation.given(Switch::KeepGoing));
    assert_eq!(invocation.inherited_jobs, JobLimit::fixed(3));
    assert_eq!(makeflags_job_budget(b"ks -j3", around()), Some(3));
    assert_eq!(makeflags_job_budget(b"ks", around()), None);

    let first = build_options(&parsed(&["make", "-j4"]), None);
    let settled = evaluated_build_options(&first, &invocation);
    assert_eq!(settled.maxfail, usize::MAX);
    assert!(settled.quiet);
}

#[test]
fn job_limits_settle_two_counts() {
    assert_eq!(job_count(JobLimit::Fixed(3)), 3);
    assert_eq!(job_count(JobLimit::Auto), usize::MAX);
    let options = BuildOptions::default();
    assert_eq!(read_job_count(&options), 1);
    let counts = JobCounts::of(&build_options(&parsed(&["make", "-j5"]), None));
    assert_eq!(counts.carried, 5);
    assert_eq!(counts.parallel_reads, 5);
    assert_eq!(JobLimit::fixed(0), None);
}

#[test]
fn a_file_named_on_the_command_line_is_spelled_as_a_target() {
    assert_eq!(command_line_file(&around(), b"./sub//x.o"), b"sub//x.o");
    let mut homes = around();
    homes.tildes = vec![(b"~/x".to_vec(), b"/home/someone/x".to_vec())];
    assert_eq!(command_line_file(&homes, b"~/x"), b"/home/someone/x");
}

/// What an invocation was told, beside its variables.
fn told(invocation: &Invocation) -> String {
    format!(
        "{:?} {:?} {:?} {:?} {:?} {} {} {:?}",
        invocation.include_dirs,
        invocation.evals,
        invocation.debug,
        invocation.shuffle_spelling,
        invocation.effective_jobs(),
        invocation.switches,
        invocation.negated,
        invocation.output_sync,
    )
}

#[test]
fn a_child_reads_what_its_parent_published() {
    for arguments in [
        &["make"][..],
        &["make", "-BdeiknqrRstw"],
        &["make", "-S", "--no-print-directory", "--no-silent", "--trace"],
        &["make", "-j7", "-Oline", "-I", "an include", "-Iother\\dir"],
        &["make", "-j", "--warn-undefined-variables", "--shuffle=reverse"],
        &["make", "-j", "A=two words", "B=$(dollar)", "C=back\\slash"],
        &["make", "--shuffle=17", "--debug=basic,jobs", "--debug=v"],
        &["make", "-E", "X := 1", "--eval=all: ; echo hi", "Y=1"],
        &["make", "-Otarget"],
        &["make", "-Orecurse", "-k"],
        &["make", "-Onone", "Z=1"],
    ] {
        let parent = parsed(arguments);
        let published = compiler_flag_variables(&parent).makeflags;
        let mut child = Invocation::new(around());
        let words = evaluated_option_arguments(&published);
        let answer = parse_arguments(&mut child, &words, ArgumentSource::Inherited);
        assert!(answer.is_none(), "{arguments:?}");
        assert!(child.complaints.is_empty());
        assert_eq!(told(&child), told(&parent), "{}", said(&published));
        // The name that came up last is handed on first.
        let mut variables = child.variables;
        variables.reverse();
        assert_eq!(variables, parent.variables);
    }
}

#[test]
fn only_the_last_assignment_of_a_name_is_handed_on() {
    let parent = parsed(&["make", "A=1", "B=2", "A:=3"]);
    assert_eq!(
        said(&compiler_flag_variables(&parent).overrides),
        "B=2 A:=3"
    );
}

#[test]
fn a_directory_named_twice_over_is_heard_of_once() {
    let parent = parsed(&["make", "-I", "a", "-I", "./a"]);
    assert_eq!(parent.include_dirs, words(&["a", "a"]));
    let mut child = Invocation::new(around());
    let published = compiler_flag_variables(&parent).makeflags;
    let answer = parse_arguments(
        &mut child,
        &evaluated_option_arguments(&published),
        ArgumentSource::Inherited,
    );
    assert!(answer.is_none());
    assert_eq!(child.include_dirs, words(&["a"]));
}

#[test]
fn the_makefile_update_publishes_what_a_run_in_earnest_would() {
    let told = |arguments: &[&str]| compiler_flag_variables(&parsed(arguments));
    let pairs: [(&[&str], &[&str]); 4] = [
        (
            &["make", "-knqt", "-Otarget", "-j3", "--eval=x", "A=b"],
            &["make", "-k", "-Otarget", "-j3", "--eval=x", "A=b"],
        ),
        (&["make", "-t", "-Itnq"], &["make", "-Itnq"]),
        (&["make", "-Otarget"], &["make", "-Otarget"]),
        (&["make", "-n"], &["make"]),
    ];
    for (pretending, earnest) in pairs {
        let whole = told(pretending);
        let kept = told(earnest);
        assert_eq!(makeflags_while_remaking(&whole.makeflags), kept.makeflags);
        assert_eq!(mflags_while_remaking(&whole.mflags), kept.mflags);
    }
    assert_eq!(said(&told(&["make", "-t", "-Itnq"]).mflags), "-t -Itnq");
}
