//! What a composition leaves behind, and what is believed of it later.

use ronin_make::artifact::{
    decode_origin, encode_origin, question_of, question_tag, Artifact, BuildArtifact, ChildOrigin,
    CommandLayout, DirectLaunch, GroundAnswer, GroundQuestion, LateStep, Launch, Reader,
    RecipeUnitArtifact, SettledSteps, UnitArtifact, Writer, FORMAT_VERSION,
};
use ronin_make::cache::{
    checked, directory_for, encode, name_for, name_key, put_bytes, put_usize, record, Left,
};
use ronin_make::paths::{qualified, root_of};
use ronin_make::record::{CompositionRecord, Divergent};

fn words(list: &[&str]) -> Vec<Vec<u8>> {
    list.iter().map(|word| word.as_bytes().to_vec()).collect()
}

/// A digest of some bytes: any function of them that tells these few apart.
fn digest(bytes: &[u8]) -> u64 {
    bytes.iter().fold(0xcbf2_9ce4_8422_2325, |held: u64, byte| {
        (held ^ u64::from(*byte)).wrapping_mul(0x0100_0000_01b3)
    })
}

fn name(directory: &str, variables: &[&str], goals: &[&str]) -> Vec<u8> {
    name_for(digest(&name_key(
        directory.as_bytes(),
        &words(variables),
        &words(goals),
    )))
}

#[test]
fn one_invocation_names_one_directory() {
    assert_eq!(
        name("/tmp", &["A=1"], &["all"]),
        name("/tmp", &["A=1"], &["all"])
    );
}

#[test]
fn a_command_line_variable_names_another() {
    assert_ne!(name("/tmp", &["ARCH=x86"], &[]), name("/tmp", &[], &[]));
}

#[test]
fn a_different_goal_names_another() {
    assert_ne!(name("/tmp", &[], &["all"]), name("/tmp", &[], &["clean"]));
}

#[test]
fn a_different_build_directory_names_another() {
    assert_ne!(name("/tmp", &[], &[]), name("/var", &[], &[]));
}

#[test]
fn a_variable_is_not_a_goal_spelled_alike() {
    assert_ne!(name("/tmp", &["all"], &[]), name("/tmp", &[], &["all"]));
}

#[test]
fn two_fields_cannot_run_into_one() {
    assert_ne!(
        name("/tmp", &["A=1", "B=2"], &[]),
        name("/tmp", &["A=1B=2"], &[])
    );
}

#[test]
fn variable_order_is_part_of_the_name() {
    assert_ne!(
        name("/tmp", &["A=1", "A=2"], &[]),
        name("/tmp", &["A=2", "A=1"], &[])
    );
}

#[test]
fn a_name_is_its_digest_in_hexadecimal() {
    assert_eq!(name_for(0xabc), b"0000000000000abc");
    assert_eq!(name_for(u64::MAX), b"ffffffffffffffff");
    assert_eq!(
        directory_for(Some(b"/elsewhere"), None, 0xabc),
        Some(b"/elsewhere/ronin/0000000000000abc".to_vec())
    );
}

fn root_from(cache_home: Option<&str>, home: Option<&str>) -> Option<Vec<u8>> {
    root_of(cache_home.map(str::as_bytes), home.map(str::as_bytes))
}

#[test]
fn a_relative_cache_home_is_not_used() {
    assert_eq!(
        root_from(Some("relative/path"), Some("/home/someone")),
        Some(b"/home/someone/.cache/ronin".to_vec()),
        "a relative XDG_CACHE_HOME is invalid, and resolving it would follow -C around"
    );
}

#[test]
fn an_absolute_cache_home_is_used() {
    assert_eq!(
        root_from(Some("/elsewhere"), Some("/home/someone")),
        Some(b"/elsewhere/ronin".to_vec())
    );
}

#[test]
fn a_host_that_says_neither_has_no_cache() {
    assert_eq!(root_from(None, None), None);
}

/// The record a settled composition leaves beside a graph, where it leaves one.
fn left(graph: Option<&[u8]>) -> Option<Vec<u8>> {
    let settled = CompositionRecord::new();
    match record(&settled, Vec::new(), None, graph.map(digest)) {
        Left::Record(bytes) => Some(bytes),
        Left::Nothing => None,
    }
}

#[test]
fn a_record_names_the_graph_beside_it() {
    let graph = b"the graph";
    let record = left(Some(graph)).expect("the record is written");
    let magic = b"ronin-make-record\0";
    let (opening, rest) = record.split_at(magic.len());
    assert_eq!(opening, magic);
    let (version, rest) = rest.split_at(4);
    assert_eq!(version, FORMAT_VERSION.to_le_bytes());
    let named = u64::from_le_bytes(rest[..8].try_into().expect("eight bytes"));
    assert_eq!(named, digest(graph));
}

#[test]
fn a_composition_with_no_graph_leaves_neither_file() {
    assert!(left(Some(b"the graph")).is_some());
    assert!(left(None).is_none());
}

#[test]
fn a_composition_that_diverged_leaves_nothing() {
    let mut settled = CompositionRecord::new();
    absorb(&mut settled, "a", ".", GroundQuestion::Shell, "date", "mon");
    absorb(&mut settled, "a", ".", GroundQuestion::Shell, "date", "tue");
    assert!(matches!(
        record(&settled, Vec::new(), None, Some(1)),
        Left::Nothing
    ));
}

fn answer(question: GroundQuestion, asked: &str, answer: &str, nested: usize) -> GroundAnswer {
    GroundAnswer {
        question,
        asked: asked.as_bytes().to_vec(),
        answer: answer.as_bytes().to_vec(),
        status: if question == GroundQuestion::Shell {
            Some(0)
        } else {
            None
        },
        nested,
    }
}

fn artifact() -> Artifact {
    Artifact {
        graph: 0x1234_5678_9abc_def0,
        units: vec![
            UnitArtifact {
                key: b"root".to_vec(),
                directory: b"/src".to_vec(),
                ground: vec![
                    answer(GroundQuestion::Shell, "uname", "Linux", 2),
                    answer(GroundQuestion::Wildcard, "*.c", "a.c b.c", 0),
                    answer(GroundQuestion::Include, "gen.mk", "", 0),
                ],
                off_journal: vec![answer(GroundQuestion::Shell, "cat stamp", "ready", 0)],
                environment: vec![
                    (b"CC".to_vec(), Some(b"gcc".to_vec())),
                    (b"UNSET".to_vec(), None),
                ],
                sources: vec![(b"Makefile".to_vec(), 42)],
                origin: None,
            },
            UnitArtifact {
                key: b"sub".to_vec(),
                directory: b"/src/sub".to_vec(),
                ground: Vec::new(),
                off_journal: Vec::new(),
                environment: Vec::new(),
                sources: Vec::new(),
                origin: Some(ChildOrigin {
                    words: words(&["make", "-C", "sub"]),
                    directory: b"/src/sub".to_vec(),
                    parent_makeflags: "w".to_owned(),
                    gnumakeflags: None,
                    environment: vec![(b"CC".to_vec(), b"gcc".to_vec())],
                    level: 1,
                    recipe_environment: vec![(b"MAKELEVEL".to_vec(), Some(b"2".to_vec()))],
                }),
            },
        ],
        build: Some(BuildArtifact {
            remakes: words(&["gen.mk"]),
            forgiven: words(&["gen.mk"]),
            unread: Vec::new(),
            complaints: vec![(b"gen.mk".to_vec(), "no such file".to_owned())],
            staged_for_makefiles: Vec::new(),
            staged_for_goals: words(&["gen.txt", "sub/out"]),
            clean_wrappers: vec![(b"lib".to_vec(), words(&["lib/a.o"]))],
            units: vec![RecipeUnitArtifact {
                key: b"root".to_vec(),
                layout: CommandLayout {
                    command_directory: b"/src".to_vec(),
                    recipe_environment: vec![(b"MAKELEVEL".to_vec(), Some(b"1".to_vec()))],
                    root_directory: b"/src".to_vec(),
                    root: true,
                    unreadable: Some("bad export".to_owned()),
                },
                directory: b"/src".to_vec(),
            }],
            deferred: vec![(b"a.o".to_vec(), (b"root".to_vec(), 3))],
            settled: vec![(
                b"b.o".to_vec(),
                SettledSteps::from_parts(
                    vec![LateStep {
                        launch: Launch::Direct(DirectLaunch {
                            argv: words(&["cc", "b.c"]),
                            directory: Vec::new(),
                            environment: vec![(b"X".to_vec(), None)],
                            diagnostic_prefix: "make: cc: ".to_owned(),
                            starts_no_process: false,
                        }),
                        ignore_errors: true,
                        runs_while_pretending: false,
                    }],
                    Some(vec![LateStep {
                        launch: Launch::Refused("no value for X".to_owned()),
                        ignore_errors: false,
                        runs_while_pretending: true,
                    }]),
                ),
            )],
            makeflags: "w -j8".to_owned(),
            job_budget: 8,
        }),
    }
}

fn described(artifact: &Artifact) -> String {
    format!("{artifact:?}")
}

#[test]
fn an_artifact_read_back_is_the_artifact_written() {
    let artifact = artifact();
    let read_back = Artifact::decode(&artifact.encode()).expect("the bytes hold a record");
    assert_eq!(described(&read_back), described(&artifact));
}

#[test]
fn the_nesting_count_survives_the_file() {
    let read_back = Artifact::decode(&artifact().encode()).expect("a record");
    assert_eq!(read_back.units[0].ground[0].nested, 2);
}

#[test]
fn every_truncation_is_refused() {
    let bytes = artifact().encode();
    for end in 0..bytes.len() {
        assert!(Artifact::decode(&bytes[..end]).is_none(), "cut at {end}");
    }
}

#[test]
fn a_record_of_another_format_is_refused() {
    let mut bytes = artifact().encode();
    bytes[b"ronin-make-record\0".len()] += 1;
    assert!(Artifact::decode(&bytes).is_none());
    let mut longer = artifact().encode();
    longer.push(0);
    assert!(Artifact::decode(&longer).is_none());
}

#[test]
fn a_text_that_is_not_utf8_is_refused() {
    let mut only_text = artifact();
    only_text.units.clear();
    if let Some(build) = &mut only_text.build {
        build.makeflags = "w -j8".to_owned();
    }
    let bytes = only_text.encode();
    let at = bytes
        .windows(5)
        .position(|part| part == b"w -j8")
        .expect("the text is there");
    let mut broken = bytes.clone();
    broken[at] = 0xff;
    assert!(Artifact::decode(&bytes).is_some());
    assert!(Artifact::decode(&broken).is_none());
}

fn unit(key: &str) -> UnitArtifact {
    UnitArtifact {
        key: key.as_bytes().to_vec(),
        directory: b"/x".to_vec(),
        ground: Vec::new(),
        off_journal: Vec::new(),
        environment: Vec::new(),
        sources: Vec::new(),
        origin: None,
    }
}

#[test]
fn units_are_written_in_key_order() {
    let artifact = Artifact::of(vec![unit("b"), unit("a"), unit("c")], None, 1);
    let keys: Vec<&[u8]> = artifact
        .units
        .iter()
        .map(|unit| unit.key.as_slice())
        .collect();
    assert_eq!(keys, [b"a".as_slice(), b"b", b"c"]);
}

/// A record and a graph as one settling run would leave them.
fn written() -> (Vec<u8>, Vec<u8>) {
    let graph = b"an empty graph".to_vec();
    let settled = CompositionRecord::new();
    match record(&settled, Vec::new(), None, Some(digest(&graph))) {
        Left::Record(bytes) => (bytes, graph),
        Left::Nothing => panic!("a settled composition leaves a record"),
    }
}

/// The pair, checked against each other.
fn open(record: Option<&[u8]>, graph: &[u8]) -> Option<Artifact> {
    checked(record?, digest(graph))
}

#[test]
fn a_written_pair_opens() {
    let (record, graph) = written();
    assert!(open(Some(&record), &graph).is_some());
}

#[test]
fn nothing_written_opens_nothing() {
    assert!(open(None, b"").is_none());
    assert!(checked(b"", 0).is_none());
}

#[test]
fn a_graph_the_record_never_named_is_refused() {
    let (record, _) = written();
    assert!(
        open(Some(&record), b"another graph").is_none(),
        "a graph left by another run is not the graph this record describes"
    );
}

#[test]
fn a_truncated_record_is_refused() {
    let (record, graph) = written();
    assert!(open(Some(&record[..record.len() - 1]), &graph).is_none());
}

#[test]
fn a_question_has_a_byte_of_its_own() {
    let questions = [
        GroundQuestion::Shell,
        GroundQuestion::Wildcard,
        GroundQuestion::RealPath,
        GroundQuestion::FileRead,
        GroundQuestion::Glob,
        GroundQuestion::Include,
    ];
    for (at, question) in questions.iter().enumerate() {
        assert_eq!(usize::from(question_tag(*question)), at + 1);
        assert_eq!(question_of(question_tag(*question)), Some(*question));
    }
    assert_eq!(question_of(0), None);
    assert_eq!(question_of(7), None);
}

fn questions(record: &CompositionRecord) -> usize {
    record.entries().iter().map(|(_, unit)| unit.len()).sum()
}

fn told(question: GroundQuestion, asked: &str, answer: &str) -> GroundAnswer {
    GroundAnswer {
        question,
        asked: asked.as_bytes().to_vec(),
        answer: answer.as_bytes().to_vec(),
        status: None,
        nested: 0,
    }
}

fn absorb(
    record: &mut CompositionRecord,
    unit: &str,
    directory: &str,
    question: GroundQuestion,
    asked: &str,
    answer: &str,
) {
    let given = vec![told(question, asked, answer)];
    record.absorb(unit.as_bytes(), directory.as_bytes(), &given, &[], &[]);
}

#[test]
fn one_question_asked_twice_alike_records_once() {
    let mut record = CompositionRecord::new();
    for _ in 0..2 {
        absorb(
            &mut record,
            "a",
            ".",
            GroundQuestion::Wildcard,
            "*.c",
            "a.c",
        );
    }
    assert_eq!(questions(&record), 1);
    assert!(record.divergence().is_none());
}

#[test]
fn two_units_asking_alike_are_filed_apart() {
    let mut record = CompositionRecord::new();
    absorb(
        &mut record,
        "a",
        "src",
        GroundQuestion::Wildcard,
        "*.c",
        "a.c",
    );
    absorb(
        &mut record,
        "b",
        "lib",
        GroundQuestion::Wildcard,
        "*.c",
        "b.c",
    );
    assert_eq!(record.units(), 2);
    assert_eq!(questions(&record), 2);
    assert!(
        record.divergence().is_none(),
        "the same text answered about two directories is two questions"
    );
}

#[test]
fn the_same_text_asked_two_ways_records_twice() {
    let mut record = CompositionRecord::new();
    absorb(
        &mut record,
        "a",
        ".",
        GroundQuestion::Wildcard,
        "g.h",
        "g.h",
    );
    absorb(&mut record, "a", ".", GroundQuestion::Include, "g.h", "g.h");
    assert_eq!(questions(&record), 2);
    assert!(record.divergence().is_none());
}

#[test]
fn one_unit_answered_two_ways_diverges() {
    let mut record = CompositionRecord::new();
    absorb(&mut record, "a", ".", GroundQuestion::Include, "g.h", "");
    absorb(&mut record, "a", ".", GroundQuestion::Include, "g.h", "g.h");
    let diverged = record.divergence().expect("two answers is a divergence");
    assert_eq!(diverged.about, Divergent::Question(GroundQuestion::Include));
    assert_eq!(diverged.asked, b"g.h");
    assert!(diverged.first.is_empty());
    assert_eq!(diverged.later, b"g.h");
}

#[test]
fn an_answer_of_nothing_is_still_recorded() {
    let mut record = CompositionRecord::new();
    absorb(
        &mut record,
        "a",
        ".",
        GroundQuestion::Wildcard,
        "gone.c",
        "",
    );
    assert_eq!(questions(&record), 1);
    let (_, unit) = &record.entries()[0];
    let (key, value) = &unit.answers()[0];
    assert_eq!(key.question, GroundQuestion::Wildcard);
    assert!(value.answer.is_empty());
}

#[test]
fn a_suspended_question_joins_the_record() {
    let mut record = CompositionRecord::new();
    let suspended = vec![told(GroundQuestion::Shell, "cat stamp", "ready")];
    record.absorb(b"a", b".", &[], &suspended, &[]);
    assert_eq!(
        questions(&record),
        1,
        "a recipe the compiler expanded for itself still asked the ground"
    );
}

#[test]
fn one_environment_name_read_two_ways_diverges() {
    let mut record = CompositionRecord::new();
    let set = [(b"V".to_vec(), Some(b"1".to_vec()))];
    let unset = [(b"V".to_vec(), None)];
    record.absorb(b"a", b".", &[], &[], &set);
    record.absorb(b"a", b".", &[], &[], &unset);
    assert!(record.divergence().is_some());
}

#[test]
fn two_units_read_one_name_apart() {
    let mut record = CompositionRecord::new();
    let parent = [(b"MAKELEVEL".to_vec(), Some(b"0".to_vec()))];
    let child = [(b"MAKELEVEL".to_vec(), Some(b"1".to_vec()))];
    record.absorb(b"a", b".", &[], &[], &parent);
    record.absorb(b"b", b"sub", &[], &[], &child);
    assert!(
        record.divergence().is_none(),
        "a composed child reads its own environment, not the parent's"
    );
}

#[test]
fn the_first_divergence_is_the_one_kept() {
    let mut record = CompositionRecord::new();
    absorb(&mut record, "a", ".", GroundQuestion::Shell, "date", "mon");
    absorb(&mut record, "a", ".", GroundQuestion::Shell, "date", "tue");
    absorb(&mut record, "a", ".", GroundQuestion::Shell, "date", "wed");
    let diverged = record.divergence().expect("a divergence");
    assert_eq!(diverged.later, b"tue");
}

#[test]
fn what_was_written_is_what_opens() {
    let written = artifact();
    let mut units = artifact().units;
    units.reverse();
    let bytes = encode(units, artifact().build, written.graph);
    let opened = checked(&bytes, written.graph).expect("the pair opens");
    assert_eq!(described(&opened), described(&written));
    assert_eq!(bytes, encode(artifact().units, artifact().build, written.graph));
    assert!(checked(&bytes, written.graph ^ 1).is_none());
    for end in 0..bytes.len() {
        assert!(checked(&bytes[..end], written.graph).is_none(), "cut at {end}");
    }
}

#[test]
fn a_name_with_no_prefix_is_the_name() {
    assert_eq!(qualified(b"", b"init/main.o"), b"init/main.o");
}

#[test]
fn a_child_name_is_qualified_by_its_unit() {
    assert_eq!(qualified(b"src", b"vim.o"), b"src/vim.o");
}

#[test]
fn an_absolute_name_is_left_alone() {
    assert_eq!(qualified(b"src", b"/tmp/gen.h"), b"/tmp/gen.h");
}

#[test]
fn a_joined_name_is_canonical() {
    assert_eq!(qualified(b"src", b"../lib/a.o"), b"lib/a.o");
}

#[test]
fn two_names_under_one_prefix_stay_apart() {
    assert_ne!(qualified(b"src", b"a.o"), qualified(b"src", b"b.o"));
}

#[test]
fn a_childs_origin_is_read_back() {
    let held = artifact();
    let origin = held
        .units
        .iter()
        .find_map(|unit| unit.origin.as_ref())
        .expect("a child unit");
    let mut writer = Writer { out: Vec::new() };
    encode_origin(&mut writer, origin);
    let mut reader = Reader {
        bytes: &writer.out,
        at: 0,
    };
    let read = decode_origin(&mut reader).expect("what was written");
    assert_eq!(format!("{read:?}"), format!("{origin:?}"));
    let mut cut = Reader {
        bytes: &writer.out[..writer.out.len() - 1],
        at: 0,
    };
    assert!(decode_origin(&mut cut).is_none());
}

#[test]
fn a_field_stands_behind_its_length() {
    let mut out = Vec::new();
    put_usize(&mut out, 258);
    assert_eq!(out, [2, 1, 0, 0, 0, 0, 0, 0]);
    out.clear();
    put_bytes(&mut out, b"ab");
    assert_eq!(out, [2, 0, 0, 0, 0, 0, 0, 0, b'a', b'b']);
}
