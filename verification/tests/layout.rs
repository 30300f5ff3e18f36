//! The command line a compilation unit wraps a recipe's script in.

use ronin_make::artifact::{CommandLayout, LateStep, Launch, SettledSteps};
use ronin_make::layout::{
    makeflags_while_remaking, mflags_while_remaking, RecipeStep, Script, Spelled,
};

/// How a shell is handed some changes to its environment.
fn env(changes: &str) -> Spelled {
    spelled(changes, b"", b"")
}

fn spelled(environment: &str, script: &[u8], file_flags: &[u8]) -> Spelled {
    Spelled {
        environment: environment.as_bytes().to_vec(),
        script: script.to_vec(),
        file_flags: file_flags.to_vec(),
        flag_words: Vec::new(),
    }
}

fn layout() -> CommandLayout {
    CommandLayout::new(Vec::new(), Vec::new(), Vec::new(), true)
}

#[test]
fn an_inline_script_is_quoted() {
    let launched = layout().launch(
        b"/bin/sh",
        b"-c",
        b"echo hi",
        b"out",
        &spelled("", b"echo hi", b""),
    );
    assert_eq!(launched.command, b"exec /bin/sh -c \"echo hi\"".to_vec());
    assert!(launched.response_file.is_none());
}

#[test]
fn directory_and_env_prefix_it() {
    let layout = CommandLayout::new(
        b"sub dir".to_vec(),
        vec![
            (b"KEEP".to_vec(), Some(b"value".to_vec())),
            (b"DROP".to_vec(), None),
        ],
        Vec::new(),
        false,
    );
    let launched = layout.launch(
        b"/bin/sh",
        b"-c",
        b"true",
        b"out",
        &spelled("env -u 'DROP' 'KEEP=value' ", b"true", b""),
    );
    assert_eq!(
        String::from_utf8(launched.command).expect("ascii"),
        "cd 'sub dir' && exec env -u 'DROP' 'KEEP=value' /bin/sh -c \"true\""
    );
}

#[test]
fn a_long_script_becomes_a_file() {
    let script = vec![b'x'; 100 * 1000 + 1];
    let launched = layout().launch(b"/bin/sh", b"-c", &script, b"out", &env(""));
    assert_eq!(launched.command, b"exec /bin/sh out.rsp".to_vec());
    let (path, content) = launched.response_file.expect("a response file");
    assert_eq!(path, b"out.rsp".to_vec());
    assert_eq!(content, script);
    assert!(!launched.command.ends_with(b"-c"));
}

#[test]
fn a_long_posix_script_keeps_errexit() {
    let script = vec![b'x'; 100 * 1000 + 1];
    let launched = layout().launch(
        b"/bin/sh",
        b"-ec",
        &script,
        b"out",
        &spelled("", b"", b"-e"),
    );
    assert_eq!(
        String::from_utf8(launched.command).expect("ascii"),
        "exec /bin/sh -e out.rsp"
    );
}

#[test]
fn a_long_script_keeps_makefile_flags() {
    let script = vec![b'x'; 100 * 1000 + 1];
    let launched = layout().launch(
        b"/bin/bash",
        b"-o pipefail -xec",
        &script,
        b"out",
        &spelled("", b"", b"-o pipefail -xe"),
    );
    assert_eq!(
        String::from_utf8(launched.command).expect("ascii"),
        "exec /bin/bash -o pipefail -xe out.rsp"
    );
}

#[test]
fn an_awkward_rsp_path_is_quoted() {
    let script = vec![b'x'; 100 * 1000 + 1];
    let launched = layout().launch(b"/bin/sh", b"-c", &script, b"out dir/a b", &env(""));
    assert_eq!(
        String::from_utf8(launched.command).expect("ascii"),
        "exec /bin/sh 'out dir/a b.rsp'"
    );
    let (path, _) = launched.response_file.expect("a response file");
    assert_eq!(path, b"out dir/a b.rsp".to_vec());
}

#[test]
fn a_child_rsp_is_rooted() {
    let layout = CommandLayout::new(b"sub".to_vec(), Vec::new(), b"/root".to_vec(), false);
    let script = vec![b'x'; 100 * 1000 + 1];
    let launched = layout.launch(b"/bin/sh", b"-c", &script, b"out", &env(""));
    assert_eq!(
        String::from_utf8(launched.command).expect("ascii"),
        "cd 'sub' && exec /bin/sh /root/out.rsp"
    );
    let (path, _) = launched.response_file.expect("a response file");
    assert_eq!(path, b"/root/out.rsp".to_vec());
}

#[test]
fn a_quoted_env_value_survives() {
    let layout = CommandLayout::new(
        Vec::new(),
        vec![(b"Q".to_vec(), Some(b"it's".to_vec()))],
        Vec::new(),
        true,
    );
    let launched = layout.launch(
        b"/bin/sh",
        b"-c",
        b"true",
        b"out",
        &spelled("env 'Q=it'\\''s' ", b"true", b""),
    );
    assert_eq!(
        String::from_utf8(launched.command).expect("ascii"),
        "exec env 'Q=it'\\''s' /bin/sh -c \"true\""
    );
}

#[test]
fn a_word_is_quoted_for_a_shell() {
    let mut command = Vec::new();
    CommandLayout::push_shell_word(&mut command, b"it's");
    assert_eq!(command, b"'it'\\''s'");
}

#[test]
fn the_update_takes_the_pretending_switches_out() {
    assert_eq!(makeflags_while_remaking(b"knqt -j4"), b"k -j4");
    assert_eq!(makeflags_while_remaking(b" -j4"), b" -j4");
    assert_eq!(mflags_while_remaking(b"-kn -j4"), b"-k -j4");
    assert_eq!(mflags_while_remaking(b"-n -j4"), b"-j4");
    assert_eq!(mflags_while_remaking(b"--trace"), b"--trace");
    // A switch with an argument is left alone, whatever letters it holds.
    assert_eq!(mflags_while_remaking(b"-Otarget"), b"-Otarget");
    assert_eq!(mflags_while_remaking(b"-Isrc/gen -j"), b"-Isrc/gen -j");
    assert_eq!(mflags_while_remaking(b"-t"), b"");
}

#[test]
fn the_update_hands_on_its_own_switches() {
    let layout = CommandLayout::new(
        Vec::new(),
        vec![(b"MAKEFLAGS".to_vec(), Some(b"kn".to_vec()))],
        Vec::new(),
        true,
    );
    assert_eq!(
        layout.while_remaking_makefiles(&[]),
        vec![(b"MAKEFLAGS".to_vec(), Some(b"k".to_vec()))]
    );
    let own = [(b"MAKEFLAGS".to_vec(), Some(b"s".to_vec()))];
    assert!(layout.while_remaking_makefiles(&own).is_empty());
}

fn step(text: &str, shell: &str) -> RecipeStep {
    RecipeStep {
        direct: None,
        shell: shell.as_bytes().to_vec(),
        shell_flags: b"-e -c".to_vec(),
        shell_is_a_path: false,
        text: text.as_bytes().to_vec(),
        ignore_error: false,
        recursive_line: false,
    }
}

#[test]
fn one_line_is_launched_as_a_program_or_through_its_shell() {
    let launch = layout().launch_step(&step("true", "/bin/sh"), &[], &env(""));
    match launch {
        Launch::Direct(direct) => assert_eq!(
            direct.argv,
            vec![
                b"/bin/sh".to_vec(),
                b"-e".to_vec(),
                b"-c".to_vec(),
                b"true".to_vec()
            ]
        ),
        _ => panic!("the default shell is started as a program"),
    }
    let launch = layout().launch_step(
        &step("true", "fish"),
        &[],
        &spelled("", b"true", b""),
    );
    match launch {
        Launch::Shell(command) => assert_eq!(command, b"exec fish -e -c \"true\"".to_vec()),
        _ => panic!("a shell of the recipe's own is a command line"),
    }
    let mut direct = step("cc -c x.c", "/bin/sh");
    direct.direct = Some(vec![b"cc".to_vec(), b"-c".to_vec(), b"x.c".to_vec()]);
    match layout().launch_step(&direct, &[], &env("")) {
        Launch::Direct(direct) => assert_eq!(direct.argv.len(), 3),
        _ => panic!("a line with an argument list needs no shell"),
    }
}

#[test]
fn a_whole_script_is_launched_only_by_the_default_shell() {
    assert!(layout()
        .launch_script(b"fish", b"-c", b"", Script::Argument(b"true"), &[])
        .is_none());
    match layout().launch_script(b"/bin/sh", b"-ec", b"-e", Script::File(b"out.rsp"), &[]) {
        Some(Launch::Direct(direct)) => assert_eq!(
            direct.argv,
            vec![b"/bin/sh".to_vec(), b"-e".to_vec(), b"out.rsp".to_vec()]
        ),
        _ => panic!("the default shell reads the file"),
    }
}

#[test]
fn a_phase_reads_its_own_launches() {
    let late = |text: &str| LateStep {
        launch: Launch::Shell(text.as_bytes().to_vec()),
        ignore_errors: false,
        runs_while_pretending: false,
    };
    let split = SettledSteps::split(vec![late("goals")], vec![late("update")]);
    assert!(matches!(&split.during(true)[0].launch, Launch::Shell(text) if text == b"update"));
    assert!(matches!(&split.during(false)[0].launch, Launch::Shell(text) if text == b"goals"));
    let same = SettledSteps::same(vec![late("both")]);
    assert!(matches!(&same.during(true)[0].launch, Launch::Shell(text) if text == b"both"));
}
