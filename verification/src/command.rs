//! A whole command line, over the option streams the environment carries, and
//! the controls it settles.

use crate::bytes::{
    append, copied, copied_all, copied_maybe, ended, contains_byte, is_utf8, literal, lossy, maybe,
    same, terminated, text, texts, to_str_lossy,
};
use crate::error::message;
use crate::hearing::{a_pair_is_one_switch, a_switch_is_read};
use crate::invocation::{nothing_asked, push_text, Around, Invocation, Settings, Surroundings};
use crate::makeflags::{
    bound_name, command_variable_name, compiler_flag_variables, makeflags_words, published,
    words_in, CompilerFlagVariables,
};
use crate::options::{
    bits_are_what_they_hold, clear_bit_lets_go, held_in, no_bits_hold_nothing,
    one_bit_holds_one_switch,
    ArgumentSource, JobLimit, Switch,
};
use crate::parsing::{parse_arguments, result_model, words_read};
use crate::report::{diagnostic, said, Reported, RunResult, ABANDONED};
use vstd::prelude::*;
use vstd::string::*;
use vstd::utf8::*;

verus! {

/// One option stream of the environment: its text as written, and what
/// expanding that text as makefile text gives, or the failure it ends in.
///
/// A stream with no `$` in it expands to nothing but itself, and its expansion
/// is not looked at.
#[derive(Debug)]
pub struct OptionStream {
    pub written: Vec<u8>,
    pub expansion: Result<Vec<u8>, Vec<u8>>,
}

impl OptionStream {
    /// The words of the stream, or the failure of expanding it.
    ///
    /// A doubled dollar is halved only where the stream was not expanded.
    pub open spec fn words(&self) -> Result<Seq<Seq<u8>>, Seq<u8>> {
        if !self.written@.contains(0x24) {
            Ok(words_in(self.written@, true))
        } else {
            match self.expansion {
                Ok(expanded) => Ok(words_in(lossy(expanded@), false)),
                Err(failure) => Err(failure@),
            }
        }
    }
}

/// Whether a word begins with a dash.
pub open spec fn dashed(word: Seq<u8>) -> bool {
    word.len() > 0 && word[0] == 0x2d
}

/// A word of a stream as a command line has it: the leading cluster gets the
/// dash it is written without.
pub open spec fn argument_of(word: Seq<u8>, at: int) -> Seq<u8> {
    if at == 0 && word != text("--") && !dashed(word) && !word.contains(0x3d) {
        text("-") + word
    } else {
        word
    }
}

/// The words of a stream as a command line, program name included.
pub open spec fn arguments_of(words: Seq<Seq<u8>>) -> Seq<Seq<u8>> {
    seq![text("make")] + Seq::new(words.len(), |i: int| argument_of(words[i], i))
}

fn is_dashed(word: &[u8]) -> (answer: bool)
    ensures
        answer == dashed(word@),
{
    word.len() > 0 && word[0] == 0x2d
}

/// Assemble already-split option words into an argv-shaped list, the leading
/// cluster getting the dash it is written without.
pub fn option_arguments(words: Vec<Vec<u8>>) -> (arguments: Vec<Vec<u8>>)
    ensures
        texts(arguments@) == arguments_of(texts(words@)),
{
    let ghost all = arguments_of(texts(words@));
    let mut arguments: Vec<Vec<u8>> = Vec::new();
    push_text(&mut arguments, literal("make"));
    assert(texts(arguments@) =~= all.take(1));
    let mut at: usize = 0;
    while at < words.len()
        invariant
            at <= words@.len(),
            all == arguments_of(texts(words@)),
            texts(arguments@) == all.take(at as int + 1),
        decreases words@.len() - at,
    {
        let word: &Vec<u8> = &words[at];
        let ghost before = texts(arguments@);
        if at == 0 && !same(word, "--".as_bytes()) && !is_dashed(word) && !contains_byte(word, 0x3d) {
            push_text(&mut arguments, message("-", word));
        } else {
            push_text(&mut arguments, copied(word));
        }
        assert(all[at as int + 1] == argument_of(words@[at as int]@, at as int));
        assert(texts(arguments@) =~= all.take(at as int + 2));
        at += 1;
    }
    assert(all.take(at as int + 1) =~= all);
    arguments
}

/// Turn an option stream into an argv-shaped list, or hand back the failure of
/// expanding it.
pub fn makeflags_arguments(stream: &OptionStream) -> (arguments: Result<Vec<Vec<u8>>, Vec<u8>>)
    ensures
        match arguments {
            Ok(list) => stream.words() matches Ok(words) && texts(list@) == arguments_of(words),
            Err(failure) => stream.words() == Err::<Seq<Seq<u8>>, Seq<u8>>(failure@),
        },
{
    if !contains_byte(&stream.written, 0x24) {
        return Ok(option_arguments(makeflags_words(&stream.written, true)));
    }
    match &stream.expansion {
        Ok(expanded) => Ok(
            option_arguments(makeflags_words(&to_str_lossy(expanded), false)),
        ),
        Err(failure) => Err(copied(failure)),
    }
}

/// Split the canonical `MAKEFLAGS` a makefile's own assignments left back into
/// an argv-shaped list, without expanding it.
pub fn evaluated_option_arguments(makeflags: &[u8]) -> (arguments: Vec<Vec<u8>>)
    ensures
        texts(arguments@) == arguments_of(words_in(makeflags@, true)),
{
    option_arguments(makeflags_words(makeflags, true))
}

/// What is said of a style the jobserver does not have, where the style would
/// have been used: only a job count above one sets a jobserver up.
pub open spec fn unknown_style(settings: Settings) -> Option<Seq<u8>> {
    match settings.jobserver_style {
        Some(style) => match settings.job_limit() {
            Some(JobLimit::Fixed(jobs)) => if jobs > 1 && style != text("fifo") && style != text(
                "pipe",
            ) {
                Some(text("unknown jobserver auth style '") + lossy(style) + text("'"))
            } else {
                None
            },
            _ => None,
        },
        None => None,
    }
}

/// What is wrong with the jobserver style, where it would have been used.
pub fn unknown_jobserver_style(invocation: &Invocation) -> (wrong: Option<Vec<u8>>)
    ensures
        maybe(wrong) == unknown_style(invocation.model()),
{
    let style: &Vec<u8> = match &invocation.jobserver_style {
        Some(style) => style,
        None => return None,
    };
    match invocation.effective_jobs() {
        Some(JobLimit::Fixed(jobs)) => {
            if jobs > 1 && !same(style, "fifo".as_bytes()) && !same(style, "pipe".as_bytes()) {
                let mut wrong: Vec<u8> = message(
                    "unknown jobserver auth style '",
                    &to_str_lossy(style),
                );
                append(&mut wrong, "'".as_bytes());
                return Some(wrong);
            }
            None
        },
        _ => None,
    }
}

/// The switch table with the style it carries for its own later reading.
pub open spec fn carried_table(base: Seq<u8>, settings: Settings) -> Seq<u8> {
    match settings.jobserver_style {
        Some(style) => base + text(" --jobserver-style=") + lossy(style),
        None => base,
    }
}

/// The switch table with the style it carries for its own later reading.
pub fn carried_switches(base: &[u8], invocation: &Invocation) -> (carried: Vec<u8>)
    ensures
        carried@ == carried_table(base@, invocation.model()),
{
    let mut carried: Vec<u8> = copied(base);
    if let Some(style) = &invocation.jobserver_style {
        append(&mut carried, " --jobserver-style=".as_bytes());
        append(&mut carried, &to_str_lossy(style));
    }
    carried
}

/// What a command line is to be done with.
#[derive(Debug)]
pub enum Action {
    Immediate(RunResult),
    Execute(Invocation),
}

/// What a command line is to be done with, as its model.
pub ghost enum Asked {
    Immediate(Reported),
    Execute(Settings),
}

impl Action {
    /// The action as its model.
    pub open spec fn model(&self) -> Asked {
        match self {
            Action::Immediate(result) => Asked::Immediate(result.model()),
            Action::Execute(invocation) => Asked::Execute(invocation.model()),
        }
    }
}

/// One diagnostic and the status of giving up.
pub open spec fn given_up(line: Seq<u8>) -> Reported {
    Reported { stdout: Seq::empty(), stderr: line, exit_code: ABANDONED }
}

/// With the words of an option stream read, where there is one.
pub open spec fn stream_read(settings: Settings, stream: Option<OptionStream>) -> (
    Settings,
    Option<Reported>,
) {
    match stream {
        Some(held) => match held.words() {
            Ok(words) => words_read(
                settings,
                ArgumentSource::Inherited,
                arguments_of(words),
                1,
                true,
            ),
            Err(failure) => (settings, Some(given_up(ended(said(failure))))),
        },
        None => (settings, None),
    }
}

/// With the `-d` forgotten that the words after it took back.
pub open spec fn undebugged(settings: Settings) -> Settings {
    if settings.debug_level() == 0 {
        Settings { given: settings.given.remove(Switch::Debug), ..settings }
    } else {
        settings
    }
}

/// What one command line asks for, over the environment's two option streams.
pub open spec fn parsed(
    arguments: Seq<Seq<u8>>,
    inherited: Option<OptionStream>,
    gnumakeflags: Option<OptionStream>,
    around: Around,
) -> Asked {
    let first = stream_read(nothing_asked(around), gnumakeflags);
    if first.1 is Some {
        Asked::Immediate(first.1->0)
    } else {
        let second = stream_read(first.0, inherited);
        if second.1 is Some {
            Asked::Immediate(second.1->0)
        } else {
            let third = words_read(second.0, ArgumentSource::CommandLine, arguments, 1, true);
            if third.1 is Some {
                Asked::Immediate(third.1->0)
            } else {
                let settled = undebugged(third.0);
                match unknown_style(settled) {
                    Some(wrong) => Asked::Immediate(given_up(said(wrong).push(0x0a))),
                    None => Asked::Execute(settled),
                }
            }
        }
    }
}

fn give_up(line: Vec<u8>) -> (result: RunResult)
    ensures
        result.model() == given_up(line@),
{
    let stdout: Vec<u8> = Vec::new();
    assert(stdout@ =~= Seq::empty());
    RunResult { stdout, stderr: line, exit_code: ABANDONED }
}

/// Read one option stream, where there is one.
fn read_stream(invocation: &mut Invocation, stream: &Option<OptionStream>) -> (answer: Option<
    RunResult,
>)
    ensures
        (final(invocation).model(), result_model(answer)) == stream_read(
            old(invocation).model(),
            *stream,
        ),
{
    match stream {
        Some(held) => match makeflags_arguments(held) {
            Ok(arguments) => parse_arguments(invocation, &arguments, ArgumentSource::Inherited),
            Err(failure) => Some(give_up(terminated(diagnostic(&failure)))),
        },
        None => None,
    }
}

/// Forget a `-d` that the words after it took back.
fn forget_debug(invocation: &mut Invocation)
    ensures
        final(invocation).model() == undebugged(old(invocation).model()),
{
    if invocation.debugging() == 0 {
        proof {
            clear_bit_lets_go(invocation.switches, Switch::Debug);
        }
        invocation.switches = invocation.switches & !Switch::Debug.bit();
    }
}

/// Read one Make command line, over whatever a parent make put in the
/// environment's two option streams.
///
/// `GNUMAKEFLAGS` is read first and `MAKEFLAGS` second, and the command line
/// last, so what was typed has the last word.
pub fn parse(
    arguments: &[Vec<u8>],
    inherited: &Option<OptionStream>,
    gnumakeflags: &Option<OptionStream>,
    around: Surroundings,
) -> (action: Action)
    ensures
        action.model() == parsed(texts(arguments@), *inherited, *gnumakeflags, around.model()),
{
    let mut invocation = Invocation::new(around);
    if let Some(answer) = read_stream(&mut invocation, gnumakeflags) {
        return Action::Immediate(answer);
    }
    if let Some(answer) = read_stream(&mut invocation, inherited) {
        return Action::Immediate(answer);
    }
    if let Some(answer) = parse_arguments(
        &mut invocation,
        arguments,
        ArgumentSource::CommandLine,
    ) {
        return Action::Immediate(answer);
    }
    forget_debug(&mut invocation);
    if let Some(wrong) = unknown_jobserver_style(&invocation) {
        let mut line: Vec<u8> = diagnostic(&wrong);
        line.push(0x0a);
        return Action::Immediate(give_up(line));
    }
    Action::Execute(invocation)
}

/// Whether a letter and a long name are two spellings of one switch: `-B` and
/// `--always-make`, `-e` and `--environment-overrides`, `-i` and
/// `--ignore-errors`, `-k` and `--keep-going`, `-n` and `--dry-run`, `-q` and
/// `--question`, `-r` and `--no-builtin-rules`, `-R` and
/// `--no-builtin-variables`, `-s` and `--silent`, `-t` and `--touch`, `-w` and
/// `--print-directory`, and the other long names of `-n` and `-s`.
pub open spec fn paired(letter: u8, name: Seq<u8>) -> bool {
    ||| letter == 0x42 && name == text("--always-make")
    ||| letter == 0x65 && name == text("--environment-overrides")
    ||| letter == 0x69 && name == text("--ignore-errors")
    ||| letter == 0x6b && name == text("--keep-going")
    ||| letter == 0x6e && (name == text("--dry-run") || name == text("--just-print") || name
        == text("--recon"))
    ||| letter == 0x71 && name == text("--question")
    ||| letter == 0x72 && name == text("--no-builtin-rules")
    ||| letter == 0x52 && name == text("--no-builtin-variables")
    ||| letter == 0x73 && (name == text("--silent") || name == text("--quiet"))
    ||| letter == 0x74 && name == text("--touch")
    ||| letter == 0x77 && name == text("--print-directory")
}

/// What a command line that asks for one switch comes to.
pub open spec fn asked_for(around: Around, switch: Switch) -> Settings {
    undebugged(nothing_asked(around).with(switch))
}

/// A switch's letter and its long name are parsed to the same invocation: over
/// no inherited option stream both command lines are to be executed, and the
/// switches of the two are equal.
///
/// The value has one bit set, the switch's own. The one exception is `-R`, which
/// asks for `-r` as well.
pub proof fn a_letter_and_its_name_parse_alike(
    program: Seq<u8>,
    letter: u8,
    name: Seq<u8>,
    around: Around,
    short: Action,
    long: Action,
)
    requires
        paired(letter, name),
        short.model() == parsed(seq![program, seq![0x2du8, letter]], None, None, around),
        long.model() == parsed(seq![program, name], None, None, around),
    ensures
        Switch::of_letter(letter) is Some,
        Switch::of_name(name) == Switch::of_letter(letter),
        short is Execute,
        long is Execute,
        short->Execute_0.model() == long->Execute_0.model(),
        short->Execute_0.switches == long->Execute_0.switches,
        short->Execute_0.negated == 0,
        long->Execute_0.negated == 0,
        letter != 0x52 ==> short->Execute_0.switches == 1u16 << Switch::of_letter(
            letter,
        )->0.index(),
{
    a_pair_is_one_switch(letter, name);
    a_switch_is_read(program, letter, name, around);
    let switch = Switch::of_letter(letter)->0;
    let start = nothing_asked(around);
    let (one, other) = (short->Execute_0, long->Execute_0);
    no_bits_hold_nothing();
    assert(start.with(switch).refused =~= Set::<Switch>::empty());
    bits_are_what_they_hold(one.switches, other.switches);
    bits_are_what_they_hold(one.negated, 0);
    bits_are_what_they_hold(other.negated, 0);
    if letter != 0x52 {
        assert(start.with(switch).given =~= set![switch]);
        assert(start.with(switch).given.remove(Switch::Debug) =~= set![switch]);
        one_bit_holds_one_switch(switch);
        bits_are_what_they_hold(one.switches, switch.mask());
    }
}

/// One `MAKEFLAGS` value split: the words the option grammar reads, and the
/// words that bind a name.
#[derive(Debug)]
pub struct MakeflagsWords {
    pub arguments: Vec<Vec<u8>>,
    pub assignments: Vec<Vec<u8>>,
}

/// The first `count` words of a written value, split into the ones the option
/// grammar reads and the ones that bind a name; nothing where a word binds the
/// empty name.
///
/// The dash a leading cluster is missing goes to the first word of the value
/// and to no other.
pub open spec fn split_write(words: Seq<Seq<u8>>, count: int) -> Option<
    (Seq<Seq<u8>>, Seq<Seq<u8>>),
>
    decreases count,
{
    if count <= 0 {
        Some((seq![text("make")], Seq::empty()))
    } else {
        let word = words[count - 1];
        match split_write(words, count - 1) {
            Some(before) => if word == text("--") {
                Some(before)
            } else if !dashed(word) && word.contains(0x3d) {
                if bound_name(word) matches Some(name) && name.len() == 0 {
                    None
                } else {
                    Some((before.0, before.1.push(word)))
                }
            } else if count == 1 && !dashed(word) {
                Some((before.0.push(text("-") + word), before.1))
            } else {
                Some((before.0.push(word), before.1))
            },
            None => None,
        }
    }
}

proof fn a_bad_word_stays_bad(words: Seq<Seq<u8>>, few: int, many: int)
    requires
        0 <= few <= many,
        split_write(words, few) is None,
    ensures
        split_write(words, many) is None,
    decreases many - few,
{
    if few < many {
        a_bad_word_stays_bad(words, few, many - 1);
    }
}

/// Turn the evaluated right-hand side of a Makefile `MAKEFLAGS` assignment back
/// into an option stream.
pub fn assigned_makeflags_arguments(value: &[u8]) -> (split: Result<MakeflagsWords, Vec<u8>>)
    ensures
        ({
            let words = words_in(value@, true);
            match split {
                Ok(held) => split_write(words, words.len() as int) == Some(
                    (texts(held.arguments@), texts(held.assignments@)),
                ),
                Err(why) => split_write(words, words.len() as int) is None && why@ == text(
                    "empty variable name",
                ),
            }
        }),
{
    let all: Vec<Vec<u8>> = makeflags_words(value, true);
    let ghost words = words_in(value@, true);
    let mut arguments: Vec<Vec<u8>> = Vec::new();
    let mut assignments: Vec<Vec<u8>> = Vec::new();
    push_text(&mut arguments, literal("make"));
    assert(texts(arguments@) =~= seq![text("make")]);
    assert(texts(assignments@) =~= Seq::empty());
    let mut at: usize = 0;
    while at < all.len()
        invariant
            at <= all@.len(),
            words == words_in(value@, true),
            words == texts(all@),
            split_write(words, at as int) == Some((texts(arguments@), texts(assignments@))),
        decreases all@.len() - at,
    {
        let word: &Vec<u8> = &all[at];
        assert(words[at as int] == word@);
        if same(word, "--".as_bytes()) {
        } else if !is_dashed(word) && contains_byte(word, 0x3d) {
            let empty: bool = match command_variable_name(word) {
                Some(name) => name.len() == 0,
                None => false,
            };
            if empty {
                proof {
                    assert(split_write(words, at as int + 1) is None);
                    a_bad_word_stays_bad(words, at as int + 1, words.len() as int);
                }
                return Err(literal("empty variable name"));
            }
            push_text(&mut assignments, copied(word));
        } else if at == 0 && !is_dashed(word) {
            push_text(&mut arguments, message("-", word));
        } else {
            push_text(&mut arguments, copied(word));
        }
        at += 1;
    }
    Ok(MakeflagsWords { arguments, assignments })
}

/// With the words of one written value read, or why they cannot be, and the
/// words of it that bind a name.
pub open spec fn write_read(settings: Settings, value: Seq<u8>, source: ArgumentSource) -> Result<
    (Settings, Seq<Seq<u8>>),
    Seq<u8>,
> {
    let words = words_in(value, true);
    if !valid_utf8(value) {
        Err(text("MAKEFLAGS contains non-UTF-8 option bytes"))
    } else {
        match split_write(words, words.len() as int) {
            Some(split) => {
                let (after, answer) = words_read(settings, source, split.0, 1, true);
                match answer {
                    Some(result) => Err(
                        if lossy(result.stderr).len() == 0 {
                            text("MAKEFLAGS requests an immediate command-line action")
                        } else {
                            lossy(result.stderr)
                        },
                    ),
                    None => Ok((Settings { goals: Seq::empty(), ..after }, split.1)),
                }
            },
            None => Err(text("empty variable name")),
        }
    }
}

/// Read one written value into an invocation, and hand back the words of it
/// that bind a name.
fn read_write(invocation: &mut Invocation, value: &[u8], source: ArgumentSource) -> (got: Result<
    Vec<Vec<u8>>,
    Vec<u8>,
>)
    ensures
        match got {
            Ok(assignments) => write_read(old(invocation).model(), value@, source) == Ok::<
                (Settings, Seq<Seq<u8>>),
                Seq<u8>,
            >((final(invocation).model(), texts(assignments@))),
            Err(why) => write_read(old(invocation).model(), value@, source) == Err::<
                (Settings, Seq<Seq<u8>>),
                Seq<u8>,
            >(why@),
        },
{
    if !is_utf8(value) {
        return Err(literal("MAKEFLAGS contains non-UTF-8 option bytes"));
    }
    let split: MakeflagsWords = match assigned_makeflags_arguments(value) {
        Ok(split) => split,
        Err(why) => return Err(why),
    };
    if let Some(result) = parse_arguments(invocation, &split.arguments, source) {
        let shown: Vec<u8> = to_str_lossy(&result.stderr);
        if shown.len() == 0 {
            return Err(literal("MAKEFLAGS requests an immediate command-line action"));
        }
        return Err(shown);
    }
    invocation.goals = Vec::new();
    assert(texts(invocation.goals@) =~= Seq::empty());
    Ok(split.assignments)
}

/// What a Makefile's write to `MAKEFLAGS` comes to.
#[derive(Debug)]
pub struct DecodedMakeflags {
    /// The words of the write that bind a name.
    pub assignments: Vec<Vec<u8>>,
    /// The switch table with what it carries for its own later reading.
    pub carried: Vec<u8>,
    pub makeflags: Vec<u8>,
    pub eval_flags: Vec<u8>,
    pub mflags: Vec<u8>,
    pub is_dry_run: bool,
    pub is_silent_mode: bool,
    pub ignore_errors: bool,
    pub environment_overrides: bool,
    pub no_builtin_rules: bool,
    pub no_builtin_variables: bool,
    pub warn_undefined_variables: bool,
    pub include_dirs: Vec<Vec<u8>>,
    /// What was said about words the write lost.
    pub complaints: Vec<Vec<u8>>,
}

impl DecodedMakeflags {
    /// Whether this is what a write that left these settings comes to.
    pub open spec fn describes(&self, settings: Settings, assignments: Seq<Seq<u8>>) -> bool {
        let flags = published(settings, settings.job_limit());
        &&& texts(self.assignments@) == assignments
        &&& self.carried@ == carried_table(flags.base, settings)
        &&& self.makeflags@ == flags.base
        &&& self.eval_flags@ == flags.eval_flags
        &&& self.mflags@ == flags.mflags
        &&& self.is_dry_run == settings.given.contains(Switch::DryRun)
        &&& self.is_silent_mode == settings.given.contains(Switch::Silent)
        &&& self.ignore_errors == settings.given.contains(Switch::IgnoreErrors)
        &&& self.environment_overrides == settings.given.contains(Switch::EnvironmentOverrides)
        &&& self.no_builtin_rules == settings.given.contains(Switch::NoBuiltinRules)
        &&& self.no_builtin_variables == settings.given.contains(Switch::NoBuiltinVariables)
        &&& self.warn_undefined_variables == settings.given.contains(
            Switch::WarnUndefinedVariables,
        )
        &&& texts(self.include_dirs@) == settings.include_dirs
        &&& texts(self.complaints@) == settings.complaints
    }
}

/// The settings a write to `MAKEFLAGS` leaves and the names it binds, or why it
/// cannot be read: the switch table as it stood, the write over it, and what is
/// protected over both.
pub open spec fn decoded(
    previous: Seq<u8>,
    assigned: Seq<u8>,
    protected: Seq<u8>,
    around: Around,
) -> Result<(Settings, Seq<Seq<u8>>), Seq<u8>> {
    match write_read(nothing_asked(around), previous, ArgumentSource::Makefile) {
        Err(why) => Err(why),
        Ok(first) => match write_read(first.0, assigned, ArgumentSource::Makefile) {
            Err(why) => Err(why),
            Ok(second) => match write_read(second.0, protected, ArgumentSource::Protection) {
                Err(why) => Err(why),
                Ok(third) => {
                    let settled = undebugged(third.0);
                    match unknown_style(settled) {
                        Some(wrong) => Err(wrong),
                        None => Ok((settled, second.1)),
                    }
                },
            },
        },
    }
}

/// Decode a Makefile assignment with the same option grammar as a command line.
///
/// `previous` is the switch table as it stands and `protected` the state that
/// outranks every Makefile write. The write sits between them, so ordinary
/// last-spelling-wins parsing gives the precedence the two ask for. Only the
/// write itself binds names.
pub fn decode_makefile_makeflags(
    previous: &[u8],
    assigned: &[u8],
    protected: &[u8],
    around: Surroundings,
) -> (got: Result<DecodedMakeflags, Vec<u8>>)
    ensures
        match decoded(previous@, assigned@, protected@, around.model()) {
            Ok(settled) => got matches Ok(held) && held.describes(settled.0, settled.1),
            Err(why) => got matches Err(held) && held@ == why,
        },
{
    let mut invocation = Invocation::new(around);
    if let Err(why) = read_write(&mut invocation, previous, ArgumentSource::Makefile) {
        return Err(why);
    }
    let assignments: Vec<Vec<u8>> = match read_write(
        &mut invocation,
        assigned,
        ArgumentSource::Makefile,
    ) {
        Ok(assignments) => assignments,
        Err(why) => return Err(why),
    };
    if let Err(why) = read_write(&mut invocation, protected, ArgumentSource::Protection) {
        return Err(why);
    }
    forget_debug(&mut invocation);
    if let Some(wrong) = unknown_jobserver_style(&invocation) {
        return Err(wrong);
    }
    let flags: CompilerFlagVariables = compiler_flag_variables(&invocation);
    Ok(
        DecodedMakeflags {
            assignments,
            carried: carried_switches(&flags.base, &invocation),
            makeflags: flags.base,
            eval_flags: flags.eval_flags,
            mflags: flags.mflags,
            is_dry_run: invocation.given(Switch::DryRun),
            is_silent_mode: invocation.given(Switch::Silent),
            ignore_errors: invocation.given(Switch::IgnoreErrors),
            environment_overrides: invocation.given(Switch::EnvironmentOverrides),
            no_builtin_rules: invocation.given(Switch::NoBuiltinRules),
            no_builtin_variables: invocation.given(Switch::NoBuiltinVariables),
            warn_undefined_variables: invocation.given(Switch::WarnUndefinedVariables),
            include_dirs: copied_all(&invocation.include_dirs),
            complaints: copied_all(&invocation.complaints),
        },
    )
}

/// What is wrong with a value that is read as a command line.
#[derive(Clone, Copy, PartialEq, Eq, Structural, Debug)]
pub enum CliError {
    /// `MAKEFLAGS` ends the run instead of describing one.
    InvalidParameter,
}

/// Parse the canonical value left by Makefile assignments back into the state
/// that controls this unit's scheduler.
///
/// Read as the makefiles' own, so a word that was accepted unexamined survives
/// being read back.
pub fn evaluated_invocation(makeflags: &[u8], around: Surroundings) -> (got: Result<
    Invocation,
    CliError,
>)
    ensures
        ({
            let (settled, answer) = words_read(
                nothing_asked(around.model()),
                ArgumentSource::Makefile,
                arguments_of(words_in(makeflags@, true)),
                1,
                true,
            );
            match got {
                Ok(invocation) => answer is None && invocation.model() == settled,
                Err(wrong) => answer is Some && wrong == CliError::InvalidParameter,
            }
        }),
{
    let mut invocation = Invocation::new(around);
    let arguments: Vec<Vec<u8>> = evaluated_option_arguments(makeflags);
    match parse_arguments(&mut invocation, &arguments, ArgumentSource::Makefile) {
        None => Ok(invocation),
        Some(_) => Err(CliError::InvalidParameter),
    }
}

/// How many recipes at once a limit says, one that says none being as many as
/// it takes.
pub open spec fn jobs_of(jobs: JobLimit) -> usize {
    match jobs {
        JobLimit::Fixed(count) => count,
        _ => usize::MAX,
    }
}

/// How many recipes at once, for the pool the evaluator declares for itself.
pub fn job_count(jobs: JobLimit) -> (count: usize)
    ensures
        count == jobs_of(jobs),
{
    match jobs {
        JobLimit::Fixed(count) => count,
        JobLimit::Auto | JobLimit::Unlimited => usize::MAX,
    }
}

/// How many recipes at once a settled `MAKEFLAGS` asks for, where it says.
pub fn makeflags_job_budget(makeflags: &[u8], around: Surroundings) -> (budget: Option<usize>)
    ensures
        ({
            let (settled, answer) = words_read(
                nothing_asked(around.model()),
                ArgumentSource::Makefile,
                arguments_of(words_in(makeflags@, true)),
                1,
                true,
            );
            budget == (match settled.job_limit() {
                Some(limit) if answer is None => Some(jobs_of(limit)),
                _ => None,
            })
        }),
{
    match evaluated_invocation(makeflags, around) {
        Ok(invocation) => match invocation.effective_jobs() {
            Some(limit) => Some(job_count(limit)),
            None => None,
        },
        Err(_) => None,
    }
}

/// What a build is run under.
#[derive(Debug)]
pub struct BuildOptions {
    pub jobs: JobLimit,
    /// How many failures end the build.
    pub maxfail: usize,
    pub dryrun: bool,
    pub verbose: bool,
    pub quiet: bool,
    /// The text the load ceiling is read from, none setting no ceiling.
    pub maxload: Vec<u8>,
    pub assumed_new: Vec<Vec<u8>>,
    /// The address of the jobserver that bounds this build, where one does.
    pub jobserver: Option<Vec<u8>>,
    pub serve_jobserver: bool,
    pub command_status_interrupts: bool,
    pub recipe_signal_fails: bool,
    pub archive_members: bool,
    pub touch: bool,
    pub always_make: bool,
}

/// What a build is run under, as its model.
pub ghost struct Controls {
    pub jobs: JobLimit,
    pub maxfail: usize,
    pub dryrun: bool,
    pub verbose: bool,
    pub quiet: bool,
    pub maxload: Seq<u8>,
    pub assumed_new: Seq<Seq<u8>>,
    pub jobserver: Option<Seq<u8>>,
    pub serve_jobserver: bool,
    pub command_status_interrupts: bool,
    pub recipe_signal_fails: bool,
    pub archive_members: bool,
    pub touch: bool,
    pub always_make: bool,
}

impl BuildOptions {
    /// The options as their model.
    pub open spec fn model(&self) -> Controls {
        Controls {
            jobs: self.jobs,
            maxfail: self.maxfail,
            dryrun: self.dryrun,
            verbose: self.verbose,
            quiet: self.quiet,
            maxload: self.maxload@,
            assumed_new: texts(self.assumed_new@),
            jobserver: maybe(self.jobserver),
            serve_jobserver: self.serve_jobserver,
            command_status_interrupts: self.command_status_interrupts,
            recipe_signal_fails: self.recipe_signal_fails,
            archive_members: self.archive_members,
            touch: self.touch,
            always_make: self.always_make,
        }
    }

    /// The same options once more.
    pub fn copy(&self) -> (copy: Self)
        ensures
            copy.model() == self.model(),
    {
        BuildOptions {
            jobs: self.jobs,
            maxfail: self.maxfail,
            dryrun: self.dryrun,
            verbose: self.verbose,
            quiet: self.quiet,
            maxload: copied(&self.maxload),
            assumed_new: copied_all(&self.assumed_new),
            jobserver: copied_maybe(&self.jobserver),
            serve_jobserver: self.serve_jobserver,
            command_status_interrupts: self.command_status_interrupts,
            recipe_signal_fails: self.recipe_signal_fails,
            archive_members: self.archive_members,
            touch: self.touch,
            always_make: self.always_make,
        }
    }
}

/// What a build nothing was said about is run under.
pub open spec fn plain_controls() -> Controls {
    Controls {
        jobs: JobLimit::Auto,
        maxfail: 1,
        dryrun: false,
        verbose: false,
        quiet: false,
        maxload: Seq::empty(),
        assumed_new: Seq::empty(),
        jobserver: None,
        serve_jobserver: false,
        command_status_interrupts: false,
        recipe_signal_fails: false,
        archive_members: false,
        touch: false,
        always_make: false,
    }
}

impl Default for BuildOptions {
    fn default() -> (options: Self)
        ensures
            options.model() == plain_controls(),
    {
        let options = BuildOptions {
            jobs: JobLimit::Auto,
            maxfail: 1,
            dryrun: false,
            verbose: false,
            quiet: false,
            maxload: Vec::new(),
            assumed_new: Vec::new(),
            jobserver: None,
            serve_jobserver: false,
            command_status_interrupts: false,
            recipe_signal_fails: false,
            archive_members: false,
            touch: false,
            always_make: false,
        };
        assert(options.model().maxload =~= Seq::empty());
        assert(options.model().assumed_new =~= Seq::empty());
        options
    }
}

/// The ceiling a load limit sets.
pub open spec fn ceiling_of(settings: Settings) -> Seq<u8> {
    match settings.load {
        Some(load) => load.0,
        None => Seq::empty(),
    }
}

fn ceiling(invocation: &Invocation) -> (maxload: Vec<u8>)
    ensures
        maxload@ == ceiling_of(invocation.model()),
{
    match &invocation.load {
        Some(load) => copied(&load.ceiling),
        None => {
            let none: Vec<u8> = Vec::new();
            assert(none@ =~= Seq::empty());
            none
        },
    }
}

/// The scheduler settings this invocation maps onto the build's controls,
/// `jobserver` being the one that was inherited and can be used.
///
/// A `-j` of its own command line is the limit. Without one the jobserver is,
/// and without that the count the parent carried, which is one where it
/// carried none.
pub fn build_options(invocation: &Invocation, jobserver: Option<Vec<u8>>) -> (options: BuildOptions)
    ensures
        options.model() == (Controls {
            jobs: match invocation.jobs {
                Some(jobs) => jobs,
                None => if jobserver is Some {
                    JobLimit::Auto
                } else {
                    match invocation.inherited_jobs {
                        Some(jobs) => jobs,
                        None => JobLimit::Fixed(1),
                    }
                },
            },
            maxfail: if invocation.model().given.contains(Switch::KeepGoing) {
                usize::MAX
            } else {
                1
            },
            dryrun: invocation.model().given.contains(Switch::DryRun),
            verbose: invocation.model().given.contains(Switch::DryRun),
            quiet: invocation.model().given.contains(Switch::Silent),
            maxload: ceiling_of(invocation.model()),
            assumed_new: invocation.model().assumed_new,
            jobserver: if invocation.jobs is Some {
                None
            } else {
                maybe(jobserver)
            },
            serve_jobserver: false,
            command_status_interrupts: false,
            recipe_signal_fails: true,
            archive_members: true,
            touch: invocation.model().given.contains(Switch::Touch),
            always_make: invocation.model().given.contains(Switch::AlwaysMake),
        }),
{
    let has_jobserver: bool = jobserver.is_some();
    BuildOptions {
        jobs: match invocation.jobs {
            Some(jobs) => jobs,
            None => if has_jobserver {
                JobLimit::Auto
            } else {
                match invocation.inherited_jobs {
                    Some(jobs) => jobs,
                    None => JobLimit::Fixed(1),
                }
            },
        },
        maxfail: if invocation.given(Switch::KeepGoing) {
            usize::MAX
        } else {
            1
        },
        dryrun: invocation.given(Switch::DryRun),
        verbose: invocation.given(Switch::DryRun),
        quiet: invocation.given(Switch::Silent),
        maxload: ceiling(invocation),
        assumed_new: copied_all(&invocation.assumed_new),
        jobserver: if invocation.jobs.is_some() {
            None
        } else {
            jobserver
        },
        serve_jobserver: false,
        command_status_interrupts: false,
        recipe_signal_fails: true,
        archive_members: true,
        touch: invocation.given(Switch::Touch),
        always_make: invocation.given(Switch::AlwaysMake),
    }
}

/// Options with the switches a Makefile named applied, as their model.
pub open spec fn evaluated_controls(initial: BuildOptions, settings: Settings) -> Controls {
    Controls {
        maxfail: if settings.given.contains(Switch::KeepGoing) {
            usize::MAX
        } else {
            1
        },
        dryrun: settings.given.contains(Switch::DryRun),
        verbose: settings.given.contains(Switch::DryRun),
        quiet: settings.given.contains(Switch::Silent),
        maxload: ceiling_of(settings),
        jobs: match settings.job_limit() {
            Some(jobs) if initial.jobserver is None => jobs,
            _ => initial.jobs,
        },
        ..initial.model()
    }
}

/// Where no jobserver bounds the build, a job limit the Makefiles settled on is
/// the build's, the one they wrote before the one they were handed; where one
/// does, and where they settled on none, the build keeps the limit it had.
pub proof fn a_settled_job_limit_is_the_builds(initial: BuildOptions, settings: Settings)
    ensures
        initial.jobserver is Some ==> evaluated_controls(initial, settings).jobs == initial.jobs,
        initial.jobserver is None && settings.jobs is Some ==> evaluated_controls(
            initial,
            settings,
        ).jobs == settings.jobs->0,
        initial.jobserver is None && settings.jobs is None && settings.inherited_jobs is Some
            ==> evaluated_controls(initial, settings).jobs == settings.inherited_jobs->0,
        settings.jobs is None && settings.inherited_jobs is None ==> evaluated_controls(
            initial,
            settings,
        ).jobs == initial.jobs,
{
}

/// Nothing but the job limit, the failures kept going past, the two ways of
/// reporting, the pretending and the load ceiling is the Makefiles' to settle,
/// and a switch they did not name is off, whatever the build began with.
pub proof fn a_makefile_settles_the_switches_it_names(initial: BuildOptions, settings: Settings)
    ensures
        ({
            let after = evaluated_controls(initial, settings);
            &&& after.dryrun <==> settings.given.contains(Switch::DryRun)
            &&& after.verbose <==> settings.given.contains(Switch::DryRun)
            &&& after.quiet <==> settings.given.contains(Switch::Silent)
            &&& after.maxfail > 1 <==> settings.given.contains(Switch::KeepGoing)
            &&& settings.given.contains(Switch::KeepGoing) ==> after.maxfail == usize::MAX
            &&& after.maxfail >= 1
            &&& settings.load is None ==> after.maxload.len() == 0
            &&& settings.load matches Some(load) ==> after.maxload == load.0
            &&& after.assumed_new == texts(initial.assumed_new@)
            &&& after.jobserver == maybe(initial.jobserver)
            &&& after.touch == initial.touch
            &&& after.always_make == initial.always_make
            &&& after.serve_jobserver == initial.serve_jobserver
            &&& after.recipe_signal_fails == initial.recipe_signal_fails
            &&& after.archive_members == initial.archive_members
            &&& after.command_status_interrupts == initial.command_status_interrupts
        }),
{
}

/// Apply the switches a Makefile named without disturbing the runtime
/// facilities already selected for this invocation.
pub fn evaluated_build_options(initial: &BuildOptions, invocation: &Invocation) -> (options:
    BuildOptions)
    ensures
        options.model() == evaluated_controls(*initial, invocation.model()),
        initial.jobserver is Some ==> options.jobs == initial.jobs,
        initial.jobserver is None && invocation.jobs is Some ==> options.jobs
            == invocation.jobs->0,
        initial.jobserver is None && invocation.jobs is None && invocation.inherited_jobs is Some
            ==> options.jobs == invocation.inherited_jobs->0,
        invocation.jobs is None && invocation.inherited_jobs is None ==> options.jobs
            == initial.jobs,
        options.dryrun == held_in(invocation.switches).contains(Switch::DryRun),
        options.verbose == options.dryrun,
        options.quiet == held_in(invocation.switches).contains(Switch::Silent),
        options.maxfail == (if held_in(invocation.switches).contains(Switch::KeepGoing) {
            usize::MAX
        } else {
            1
        }),
        options.maxload@ == (match invocation.load {
            Some(load) => load.ceiling@,
            None => Seq::empty(),
        }),
        texts(options.assumed_new@) == texts(initial.assumed_new@),
        maybe(options.jobserver) == maybe(initial.jobserver),
        options.touch == initial.touch,
        options.always_make == initial.always_make,
{
    let mut options: BuildOptions = initial.copy();
    options.maxfail = if invocation.given(Switch::KeepGoing) {
        usize::MAX
    } else {
        1
    };
    options.dryrun = invocation.given(Switch::DryRun);
    options.verbose = options.dryrun;
    options.quiet = invocation.given(Switch::Silent);
    options.maxload = ceiling(invocation);
    if initial.jobserver.is_none() {
        if let Some(jobs) = invocation.effective_jobs() {
            options.jobs = jobs;
        }
    }
    options
}

/// How many reads may happen at once: no `-j` at all is one.
pub open spec fn reads_of(jobs: JobLimit) -> usize {
    match jobs {
        JobLimit::Auto => 1,
        JobLimit::Unlimited => usize::MAX,
        JobLimit::Fixed(count) => count,
    }
}

/// How many makefiles may be read at once under these options.
pub fn read_job_count(options: &BuildOptions) -> (count: usize)
    ensures
        count == reads_of(options.jobs),
{
    match options.jobs {
        JobLimit::Auto => 1,
        JobLimit::Unlimited => usize::MAX,
        JobLimit::Fixed(count) => count,
    }
}

/// The two counts one job limit settles.
#[derive(Clone, Copy, PartialEq, Eq, Structural, Debug)]
pub struct JobCounts {
    /// What the evaluator is told.
    pub carried: usize,
    /// How many makefiles may be read at once.
    pub parallel_reads: usize,
}

impl JobCounts {
    /// The counts these options settle.
    pub fn of(options: &BuildOptions) -> (counts: Self)
        ensures
            counts.carried == jobs_of(options.jobs),
            counts.parallel_reads == reads_of(options.jobs),
    {
        JobCounts { carried: job_count(options.jobs), parallel_reads: read_job_count(options) }
    }
}

} // verus!
