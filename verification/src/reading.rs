//! What a command line asks for, word by word.

use crate::artifact::BuildArtifact;
use crate::bytes::{after_prefix, decimal, text};
use crate::command::{parsed, stream_read, undebugged, Asked, OptionStream};
use crate::graph::GraphModel;
use crate::hearing::{
    a_short_word, a_short_word_is_a_cluster, digits_are_read, the_end_is_read,
};
use crate::invocation::{looked_up, nothing_asked, undotted, Around, Settings};
use crate::options::{facet, lowered, ArgumentSource, JobLimit, Switch, DB_ALL, DB_BASIC};
use crate::parsing::{cluster_read, option_read, read_on, words_read};
use crate::paths::{canonical, only_a_dash};
use crate::preparing::inputs;
use crate::report::{body_of, Reported, ABANDONED};
use crate::warm::{believed, wrapper_is_there, RebuiltUnit};
use vstd::prelude::*;
use vstd::string::*;

verus! {

/// One letter behind a dash.
pub open spec fn dashed_letter(letter: u8) -> Seq<u8> {
    seq![0x2du8, letter]
}

/// What nothing but a few words asked for comes to.
proof fn the_rest_is_nothing(settings: Settings)
    requires
        settings.given == Set::<Switch>::empty(),
        settings.debug.len() == 0,
        settings.jobserver_style is None,
    ensures
        undebugged(settings) == settings,
        crate::command::unknown_style(settings) is None,
{
    assert(settings.given.remove(Switch::Debug) =~= settings.given);
}

/// A command line of one cluster, with a word behind it that the cluster may take.
proof fn one_cluster_is_read(arguments: Seq<Seq<u8>>, bare: Settings, after: Settings)
    requires
        arguments.len() >= 2,
        arguments[1].len() > 1,
        arguments[1][0] == 0x2d,
        arguments[1][1] != 0x2d,
        arguments[1][1] != 0x76,
        cluster_read(bare, ArgumentSource::CommandLine, arguments[1], arguments, 1, 1) == read_on(
            after,
            arguments.len() - 1,
        ),
        after.bad is None,
    ensures
        words_read(bare, ArgumentSource::CommandLine, arguments, 1, true) == (
            after,
            None::<Reported>,
        ),
{
    let source = ArgumentSource::CommandLine;
    a_short_word(arguments[1]);
    a_short_word_is_a_cluster(bare, source, arguments, 1);
    let read = option_read(bare, source, arguments, 1);
    assert(read == read_on(after, arguments.len() - 1));
    assert(words_read(after, source, arguments, arguments.len() as int, true) == (
        after,
        None::<Reported>,
    ));
}

proof fn what_is_read_is_asked(arguments: Seq<Seq<u8>>, around: Around, after: Settings)
    requires
        words_read(
            nothing_asked(around),
            ArgumentSource::CommandLine,
            arguments,
            1,
            true,
        ) == (after, None::<Reported>),
        after.given == Set::<Switch>::empty(),
        after.debug.len() == 0,
        after.jobserver_style is None,
    ensures
        parsed(arguments, None, None, around) == Asked::Execute(after),
{
    the_rest_is_nothing(after);
}

proof fn one_cluster_is_the_whole(arguments: Seq<Seq<u8>>, around: Around, after: Settings)
    requires
        arguments.len() >= 2,
        arguments[1].len() > 1,
        arguments[1][0] == 0x2d,
        arguments[1][1] != 0x2d,
        arguments[1][1] != 0x76,
        cluster_read(
            nothing_asked(around),
            ArgumentSource::CommandLine,
            arguments[1],
            arguments,
            1,
            1,
        ) == read_on(after, arguments.len() - 1),
        after.bad is None,
        after.given == Set::<Switch>::empty(),
        after.debug.len() == 0,
        after.jobserver_style is None,
    ensures
        parsed(arguments, None, None, around) == Asked::Execute(after),
{
    one_cluster_is_read(arguments, nothing_asked(around), after);
    what_is_read_is_asked(arguments, around, after);
}

/// What a word stands for that begins with neither a tilde's name nor a dot.
proof fn a_plain_name_is_itself(around: Around, named: Seq<u8>)
    requires
        named.len() > 0,
        named[0] != 0x2e,
        looked_up(around.tildes, named) is None,
    ensures
        crate::invocation::file_named(around, named) == named,
{
    assert(undotted(named) == named);
}

/// An option that takes a value takes it from behind its letter or from the word
/// after it alike. `-C` names a directory to enter, `-f` a makefile to read, `-I` a
/// directory to look for makefiles in, `-W` a file to take for new and `-E` a
/// statement to evaluate, each by its name and nothing else.
pub proof fn a_letter_takes_its_value(
    program: Seq<u8>,
    letter: u8,
    value: Seq<u8>,
    around: Around,
)
    requires
        value.len() > 0,
        value[0] != 0x2e,
        looked_up(around.tildes, value) is None,
        letter == 0x43 || letter == 0x66 || letter == 0x49 || letter == 0x57 || letter == 0x45,
    ensures
        ({
            let bare = nothing_asked(around);
            let asked = Asked::Execute(
                if letter == 0x43 {
                    Settings { directories: seq![value], ..bare }
                } else if letter == 0x66 {
                    Settings { makefiles: seq![value], ..bare }
                } else if letter == 0x49 {
                    Settings { include_dirs: seq![value], ..bare }
                } else if letter == 0x57 {
                    Settings { assumed_new: seq![canonical(value)], ..bare }
                } else {
                    Settings { evals: seq![value], ..bare }
                },
            );
            &&& parsed(seq![program, dashed_letter(letter) + value], None, None, around) == asked
            &&& parsed(seq![program, dashed_letter(letter), value], None, None, around) == asked
        }),
{
    let bare = nothing_asked(around);
    let source = ArgumentSource::CommandLine;
    let joined = seq![program, dashed_letter(letter) + value];
    let apart = seq![program, dashed_letter(letter), value];
    let after = if letter == 0x43 {
        Settings { directories: seq![value], ..bare }
    } else if letter == 0x66 {
        Settings { makefiles: seq![value], ..bare }
    } else if letter == 0x49 {
        Settings { include_dirs: seq![value], ..bare }
    } else if letter == 0x57 {
        Settings { assumed_new: seq![canonical(value)], ..bare }
    } else {
        Settings { evals: seq![value], ..bare }
    };
    a_plain_name_is_itself(around, value);
    assert(bare.directories.push(value) =~= seq![value]);
    assert(bare.makefiles.push(value) =~= seq![value]);
    assert(bare.include_dirs.push(value) =~= seq![value]);
    assert(bare.assumed_new.push(canonical(value)) =~= seq![canonical(value)]);
    assert(bare.evals.push(value) =~= seq![value]);
    let word = joined[1];
    assert(word[1] == letter);
    assert(word.skip(2) =~= value);
    assert(cluster_read(bare, source, word, joined, 1, 1) == read_on(after, 1));
    one_cluster_is_the_whole(joined, around, after);
    let short = apart[1];
    assert(short[1] == letter);
    assert(short.skip(2) =~= Seq::empty());
    assert(cluster_read(bare, source, short, apart, 1, 1) == read_on(after, 2));
    one_cluster_is_the_whole(apart, around, after);
}

/// `-j` with a number behind it or after it limits the jobs to that number, alone
/// it limits them not at all, and with nought it is refused.
pub proof fn a_job_count_is_the_limit(program: Seq<u8>, count: usize, around: Around)
    ensures
        ({
            let bare = nothing_asked(around);
            let limited = Asked::Execute(
                Settings { jobs: Some(JobLimit::Fixed(count)), ..bare },
            );
            let digits = decimal(count as nat);
            &&& count > 0 ==> parsed(
                seq![program, dashed_letter(0x6a) + digits],
                None,
                None,
                around,
            ) == limited
            &&& count > 0 ==> parsed(
                seq![program, dashed_letter(0x6a), digits],
                None,
                None,
                around,
            ) == limited
            &&& count == 0 ==> (parsed(
                seq![program, dashed_letter(0x6a) + digits],
                None,
                None,
                around,
            ) matches Asked::Immediate(told) && told.exit_code == ABANDONED)
            &&& parsed(seq![program, dashed_letter(0x6a)], None, None, around) == Asked::Execute(
                Settings { jobs: Some(JobLimit::Unlimited), ..bare },
            )
        }),
{
    let bare = nothing_asked(around);
    let source = ArgumentSource::CommandLine;
    let digits = decimal(count as nat);
    digits_are_read(count as nat);
    let joined = seq![program, dashed_letter(0x6a) + digits];
    let apart = seq![program, dashed_letter(0x6a), digits];
    let alone = seq![program, dashed_letter(0x6a)];
    let limited = Settings { jobs: Some(JobLimit::Fixed(count)), ..bare };
    let free = Settings { jobs: Some(JobLimit::Unlimited), ..bare };
    let word = joined[1];
    assert(word[1] == 0x6a);
    assert(word.skip(2) =~= digits);
    assert(alone[1].skip(2) =~= Seq::empty());
    if count > 0 {
        assert(cluster_read(bare, source, word, joined, 1, 1) == read_on(limited, 1));
        one_cluster_is_the_whole(joined, around, limited);
        assert(apart[1].skip(2) =~= Seq::empty());
        assert(cluster_read(bare, source, apart[1], apart, 1, 1) == read_on(limited, 2));
        one_cluster_is_the_whole(apart, around, limited);
    } else {
        a_short_word(word);
        a_short_word_is_a_cluster(bare, source, joined, 1);
        let read = cluster_read(bare, source, word, joined, 1, 1);
        assert(read.settings.bad is Some);
    }
    assert(cluster_read(bare, source, alone[1], alone, 1, 1) == read_on(free, 1));
    one_cluster_is_the_whole(alone, around, free);
}

/// A word that is no option is a variable where there is an equals sign in it and
/// a goal where there is none; behind a `--` every word is taken so, whatever it
/// begins with.
pub proof fn a_word_is_a_goal_or_a_variable(program: Seq<u8>, word: Seq<u8>, around: Around)
    requires
        word.len() > 1,
    ensures
        ({
            let bare = nothing_asked(around);
            let asked = Asked::Execute(
                if word.contains(0x3d) {
                    Settings { variables: seq![word], ..bare }
                } else {
                    Settings { goals: seq![word], ..bare }
                },
            );
            &&& word[0] != 0x2d ==> parsed(seq![program, word], None, None, around) == asked
            &&& parsed(seq![program, text("--"), word], None, None, around) == asked
        }),
{
    let bare = nothing_asked(around);
    let source = ArgumentSource::CommandLine;
    let after = if word.contains(0x3d) {
        Settings { variables: seq![word], ..bare }
    } else {
        Settings { goals: seq![word], ..bare }
    };
    assert(bare.variables.push(word) =~= seq![word]);
    assert(bare.goals.push(word) =~= seq![word]);
    assert(text("-").len() == 1 && text("--").len() == 2 && text("--")[0] == 0x2d) by {
        reveal_strlit("-");
        is_ascii_spec_bytes("-");
        reveal_strlit("--");
        is_ascii_spec_bytes("--");
    }
    let plain = seq![program, word];
    assert(plain[1] == word);
    if word[0] != 0x2d {
        assert(words_read(after, source, plain, 2, true) == (after, None::<Reported>));
        assert(words_read(bare, source, plain, 1, true) == (after, None::<Reported>));
        what_is_read_is_asked(plain, around, after);
    }
    let ended = seq![program, text("--"), word];
    assert(ended[1] == text("--"));
    assert(ended[2] == word);
    the_end_is_read(bare, source, ended, 1);
    assert(words_read(after, source, ended, 3, false) == (after, None::<Reported>));
    assert(words_read(bare, source, ended, 2, false) == (after, None::<Reported>));
    what_is_read_is_asked(ended, around, after);
}

/// `GNUMAKEFLAGS` is read first, `MAKEFLAGS` over it, and what was typed over both:
/// each starts from what the one before it left.
pub proof fn what_was_typed_has_the_last_word(
    arguments: Seq<Seq<u8>>,
    inherited: Option<OptionStream>,
    gnumakeflags: Option<OptionStream>,
    around: Around,
    first: Settings,
    second: Settings,
    third: Settings,
)
    requires
        stream_read(nothing_asked(around), gnumakeflags) == (first, None::<Reported>),
        stream_read(first, inherited) == (second, None::<Reported>),
        words_read(second, ArgumentSource::CommandLine, arguments, 1, true) == (
            third,
            None::<Reported>,
        ),
        third.given == Set::<Switch>::empty(),
        third.debug.len() == 0,
        third.jobserver_style is None,
    ensures
        parsed(arguments, inherited, gnumakeflags, around) == Asked::Execute(third),
{
    the_rest_is_nothing(third);
}

/// What a stream says ends the run before anything behind it is read.
pub proof fn a_stream_that_answers_ends_the_run(
    arguments: Seq<Seq<u8>>,
    inherited: Option<OptionStream>,
    gnumakeflags: Option<OptionStream>,
    around: Around,
)
    ensures
        stream_read(nothing_asked(around), gnumakeflags).1 matches Some(told) ==> parsed(
            arguments,
            inherited,
            gnumakeflags,
            around,
        ) == Asked::Immediate(told),
        stream_read(nothing_asked(around), gnumakeflags).1 is None ==> (stream_read(
            stream_read(nothing_asked(around), gnumakeflags).0,
            inherited,
        ).1 matches Some(told) ==> parsed(arguments, inherited, gnumakeflags, around)
            == Asked::Immediate(told)),
        gnumakeflags is None ==> stream_read(nothing_asked(around), gnumakeflags) == (
            nothing_asked(around),
            None::<Reported>,
        ),
{
}

/// A letter of `--debug` adds to what was selected, except that `n` selects nothing
/// at all and `a` everything; the verbose, the implicit and the makefile facets
/// bring the basic ones with them. A letter that is none of them is refused, in
/// either case.
pub proof fn a_facet_adds_to_what_was_selected(level: u16, letter: u8)
    ensures
        facet(level, 0x6e) == Some(0u16),
        facet(level, 0x61) matches Some(all) && all & DB_ALL == DB_ALL,
        letter != 0x6e ==> (facet(level, letter) matches Some(more) ==> level & more == level),
        letter == 0x62 || letter == 0x76 || letter == 0x69 || letter == 0x6d ==> (facet(
            level,
            letter,
        ) matches Some(more) && more & DB_BASIC == DB_BASIC),
        facet(level, letter) is Some <==> letter == 0x61 || letter == 0x62 || letter == 0x69
            || letter == 0x6a || letter == 0x6d || letter == 0x6e || letter == 0x70 || letter == 0x76
            || letter == 0x77,
        lowered(0x41) == 0x61,
        lowered(0x5a) == 0x7a,
        letter > 0x5a || letter < 0x41 ==> lowered(letter) == letter,
{
    assert(forall|left: u16, right: u16| left & #[trigger] (left | right) == left) by (bit_vector);
    assert(forall|left: u16, right: u16| #[trigger] (left | right) & right == right)
        by (bit_vector);
    assert(forall|left: u16, base: u16, right: u16| (#[trigger] (left | (base | right))) & base
        == base) by (bit_vector);
}

/// Every makefile that is a lone dash counts as standard input, and no other does.
pub proof fn a_lone_dash_is_standard_input(makefiles: Seq<Seq<u8>>, name: Seq<u8>)
    ensures
        inputs(makefiles.push(name)) == inputs(makefiles) + (if only_a_dash(name) {
            1nat
        } else {
            0nat
        }),
        inputs(Seq::empty()) == 0,
        only_a_dash(seq![0x2du8]),
{
    assert(makefiles.push(name).drop_last() =~= makefiles);
}

/// The product's name in front of a failure is not said twice.
pub proof fn a_name_is_said_once(message: Seq<u8>)
    requires
        after_prefix(message, text("ronin")) is None,
    ensures
        body_of(text("ronin: ") + message) == body_of(message),
{
    let whole = text("ronin: ") + message;
    assert(text("ronin: ") =~= text("ronin") + text(": ")) by {
        reveal_strlit("ronin: ");
        is_ascii_spec_bytes("ronin: ");
        reveal_strlit("ronin");
        is_ascii_spec_bytes("ronin");
        reveal_strlit(": ");
        is_ascii_spec_bytes(": ");
    }
    let rest = text(": ") + message;
    assert(whole =~= text("ronin") + rest);
    assert(whole.subrange(0, text("ronin").len() as int) =~= text("ronin"));
    assert(whole.skip(text("ronin").len() as int) =~= rest);
    assert(rest.subrange(0, text(": ").len() as int) =~= text(": "));
    assert(rest.skip(text(": ").len() as int) =~= message);
}

/// A record that is believed settled, has every unit rebuilt, and names only
/// wrappers that are there and were asked and found clean.
pub proof fn only_a_clean_record_is_believed(
    graph: GraphModel,
    build: Option<BuildArtifact>,
    rebuilt: Option<Vec<RebuiltUnit>>,
    dirty: Seq<Option<bool>>,
    at: int,
)
    requires
        believed(graph, build, rebuilt, dirty),
        0 <= at < (build->0).clean_wrappers@.len(),
    ensures
        build is Some && rebuilt is Some,
        dirty[at] == Some(false),
        wrapper_is_there(graph, (build->0).clean_wrappers@[at]),
{
    assert(wrapper_is_there(graph, (build->0).clean_wrappers@[at]));
}

} // verus!
