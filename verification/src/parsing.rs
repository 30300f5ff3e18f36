//! The option grammar: what each word of a command line does to an invocation.

use crate::bytes::{
    after_prefix, all_digits, append, are_digits, begins, copied, contains_byte, holds, literal,
    lossy, maybe, number, part, read_number, same, starts_with, strip_prefix, text, texts,
    to_str_lossy,
};
use crate::error::message;
use crate::invocation::{
    missing, missing_argument, push_text, read_output_sync, Invocation, LoadLimit, Settings,
};
use crate::options::{
    debug_facets, facets, make_option_surface, surface, ArgumentShape, ArgumentSource,
    InterfaceOption, JobLimit, OptionClass, OutputSync, Shuffle, ShuffleEffect, Switch,
    SURFACE_ROWS,
};
use crate::report::{diagnostic, said, Reported, RunResult, ABANDONED};
use vstd::prelude::*;
use vstd::string::*;

verus! {

/// What `--help` says.
pub const USAGE: &'static str = "usage: ronin [options] [target...] [VAR=value...]\n\nRonin's Make front end. Makefile syntax and variable semantics are\nGNU Make's; the diagnostics, the scheduler and the persistent state\nare Ronin's.\n\noptions:\n  -f FILE  read FILE as the makefile [default=GNUmakefile, makefile, Makefile]\n  -C DIR   change to DIR before reading anything, once per option\n  -I DIR   also look in DIR for an include, once per option\n  -W FILE  build as though FILE had just been modified\n  -j [N]   run N recipes at once, or as many as are ready\n  -l [N]   start no recipe while the load average is above N\n  -O[TYPE] hold each recipe's output: none, line, target, recurse\n  -B       rebuild every target, whatever its timestamps say\n  -e       let the environment outrank the makefile's assignments\n  -i       ignore the status of every recipe line\n  -k       keep going after a recipe fails\n  -n       print the recipes without running them\n  -q       report whether the goals are up to date, and build nothing\n  -r       do not read the built-in rules\n  -R       do not define the built-in variables, and imply -r\n  -s       do not report what is being built\n  -t       touch the targets that are out of date, running no recipe\n  -w       announce the directory the build runs in\n  -S       stop at the first failure, taking back -k\n  -d       report what Make is doing, as --debug=a does\n  --debug[=FLAGS]  report the workings FLAGS names: a b i j m n p v w\n  --trace  report why each recipe is running, as --debug=p,w does\n  --shuffle[=MODE]  build in another order: SEED, random, reverse, none\n  -v       print the version, as --version does\n  --no-print-directory, --no-silent\n  --version, --help\n\nEach switch is also spelled as GNU Make's long option, and the ones\ntaking no argument cluster: -ki is -k and -i.\n";

/// What `--help` says.
pub fn usage() -> (said: Vec<u8>)
    ensures
        said@ == text(USAGE),
{
    literal(USAGE)
}

/// The identity Make mode reports for itself.
pub open spec fn version_text(product: Seq<u8>, make: Seq<u8>) -> Seq<u8> {
    text("GNU Make compatible: ronin ") + product + text("\nMake front end for GNU Make ") + make
        + text(" makefiles\n")
}

/// The identity Make mode reports for itself: the product, its version, and the
/// Make whose makefiles it reads.
pub fn version(product: &[u8], make: &[u8]) -> (said: Vec<u8>)
    ensures
        said@ == version_text(product@, make@),
{
    let mut said: Vec<u8> = message("GNU Make compatible: ronin ", product);
    append(&mut said, "\nMake front end for GNU Make ".as_bytes());
    append(&mut said, make);
    append(&mut said, " makefiles\n".as_bytes());
    said
}

/// What an invocation that answered a question rather than building says.
pub open spec fn answer_of(words: Seq<u8>) -> Reported {
    Reported { stdout: words, stderr: Seq::empty(), exit_code: 0 }
}

/// What an invocation that answered a question rather than building says.
pub fn reported(words: Vec<u8>) -> (result: RunResult)
    ensures
        result.model() == answer_of(words@),
{
    let stderr: Vec<u8> = Vec::new();
    assert(stderr@ =~= Seq::empty());
    RunResult { stdout: words, stderr, exit_code: 0 }
}

/// What a command line that cannot be read is answered with: what is wrong with
/// it, the usage, and the status of giving up.
pub open spec fn refusal(wrong: Seq<u8>) -> Reported {
    Reported {
        stdout: Seq::empty(),
        stderr: said(wrong) + text("\n") + text(USAGE),
        exit_code: ABANDONED,
    }
}

/// Answer a command line that cannot be read.
pub fn refuse(wrong: &[u8]) -> (result: RunResult)
    ensures
        result.model() == refusal(wrong@),
{
    let stdout: Vec<u8> = Vec::new();
    assert(stdout@ =~= Seq::empty());
    let mut stderr: Vec<u8> = diagnostic(wrong);
    append(&mut stderr, "\n".as_bytes());
    append(&mut stderr, &usage());
    RunResult { stdout, stderr, exit_code: ABANDONED }
}

/// What reading some words came to: the invocation as they leave it, the last
/// word they used, and the answer that ends the run where there is one.
pub ghost struct Read {
    pub settings: Settings,
    pub at: int,
    pub said: Option<Reported>,
}

/// Words read with no answer.
pub open spec fn read_on(settings: Settings, at: int) -> Read {
    Read { settings, at, said: None }
}

/// An answer that may not have come up, as its model.
pub open spec fn result_model(said: Option<RunResult>) -> Option<Reported> {
    match said {
        Some(result) => Some(result.model()),
        None => None,
    }
}

/// The argument of an option: what is attached to it, or the next word, or none
/// where there is no next word.
pub open spec fn value_read(
    settings: Settings,
    source: ArgumentSource,
    arguments: Seq<Seq<u8>>,
    at: int,
    attached: Seq<u8>,
    spelling: Seq<u8>,
) -> (Settings, int, Option<Seq<u8>>) {
    if attached.len() > 0 {
        (settings, at, Some(attached))
    } else if at + 1 < arguments.len() {
        (settings, at + 1, Some(arguments[at + 1]))
    } else {
        (settings.with_unreadable(source, missing(spelling)), at + 1, None)
    }
}

/// Take the argument of an option.
pub fn value(
    invocation: &mut Invocation,
    source: ArgumentSource,
    arguments: &[Vec<u8>],
    index: &mut usize,
    attached: &[u8],
    spelling: &[u8],
) -> (named: Option<Vec<u8>>)
    requires
        *old(index) < arguments@.len(),
    ensures
        (final(invocation).model(), *final(index) as int, maybe(named)) == value_read(
            old(invocation).model(),
            source,
            texts(arguments@),
            *old(index) as int,
            attached@,
            spelling@,
        ),
        *old(index) <= *final(index) <= arguments@.len(),
{
    if attached.len() > 0 {
        return Some(copied(attached));
    }
    let total: usize = arguments.len();
    *index = *index + 1;
    if *index >= total {
        invocation.unreadable(source, missing_argument(spelling));
        return None;
    }
    Some(copied(&arguments[*index]))
}

/// The limit a spelled number sets, none where it spells no positive number.
pub open spec fn limit_of(spelled: Seq<u8>) -> Option<JobLimit> {
    match number(spelled, usize::MAX as nat) {
        Some(count) => if count == 0 {
            None
        } else {
            Some(JobLimit::Fixed(count as usize))
        },
        None => None,
    }
}

/// What is said of a job count that is none.
pub open spec fn no_job_count() -> Seq<u8> {
    text("the '-j' option requires a positive integer argument")
}

/// The count `-j` sets: the number attached to it or the digits after it, and
/// no limit where neither is there.
pub open spec fn jobs_read(
    settings: Settings,
    source: ArgumentSource,
    arguments: Seq<Seq<u8>>,
    at: int,
    attached: Seq<u8>,
) -> (Settings, int, Option<JobLimit>) {
    let follows = at + 1 < arguments.len() && arguments[at + 1].len() > 0 && all_digits(
        arguments[at + 1],
    );
    if attached.len() == 0 && !follows {
        (settings, at, Some(JobLimit::Unlimited))
    } else {
        let (digits, end) = if attached.len() > 0 {
            (attached, at)
        } else {
            (arguments[at + 1], at + 1)
        };
        match limit_of(digits) {
            Some(limit) => (settings, end, Some(limit)),
            None => (settings.with_complaint(source, no_job_count()), end, None),
        }
    }
}

/// Read the count `-j` sets.
pub fn jobs_value(
    invocation: &mut Invocation,
    source: ArgumentSource,
    arguments: &[Vec<u8>],
    index: &mut usize,
    attached: &[u8],
) -> (jobs: Option<JobLimit>)
    requires
        *old(index) < arguments@.len(),
    ensures
        (final(invocation).model(), *final(index) as int, jobs) == jobs_read(
            old(invocation).model(),
            source,
            texts(arguments@),
            *old(index) as int,
            attached@,
        ),
        *old(index) <= *final(index) < arguments@.len(),
{
    let digits: Vec<u8>;
    if attached.len() == 0 {
        let total: usize = arguments.len();
        let next: usize = *index + 1;
        if next >= total || arguments[next].len() == 0 || !are_digits(&arguments[next]) {
            return Some(JobLimit::Unlimited);
        }
        *index = next;
        digits = copied(&arguments[next]);
    } else {
        digits = copied(attached);
    }
    let limit: Option<JobLimit> = match read_number(&digits, usize::MAX as u64) {
        Some(count) => JobLimit::fixed(count as usize),
        None => None,
    };
    if limit.is_none() {
        invocation.complain(
            source,
            literal("the '-j' option requires a positive integer argument"),
        );
    }
    limit
}

/// Whether every byte is a decimal digit or a point.
pub open spec fn numeric(bytes: Seq<u8>) -> bool {
    bytes.len() > 0 && forall|i: int|
        0 <= i < bytes.len() ==> (48 <= #[trigger] bytes[i] && bytes[i] <= 57) || bytes[i] == 0x2e
}

fn is_numeric(bytes: &[u8]) -> (answer: bool)
    ensures
        answer == numeric(bytes@),
{
    if bytes.len() == 0 {
        return false;
    }
    let mut at: usize = 0;
    while at < bytes.len()
        invariant
            at <= bytes@.len(),
            forall|i: int|
                0 <= i < at ==> (48 <= #[trigger] bytes@[i] && bytes@[i] <= 57) || bytes@[i]
                    == 0x2e,
        decreases bytes@.len() - at,
    {
        if !((48 <= bytes[at] && bytes[at] <= 57) || bytes[at] == 0x2e) {
            assert(!((48 <= bytes@[at as int] && bytes@[at as int] <= 57) || bytes@[at as int]
                == 0x2e));
            return false;
        }
        at += 1;
    }
    true
}

/// The ceiling `-l` sets: the text attached to it, the number after it, or none
/// at all, which is not carried onward.
pub open spec fn load_read(arguments: Seq<Seq<u8>>, at: int, attached: Seq<u8>) -> (
    (Seq<u8>, bool),
    int,
) {
    if attached.len() > 0 {
        ((attached, true), at)
    } else if at + 1 < arguments.len() && numeric(arguments[at + 1]) {
        ((arguments[at + 1], true), at + 1)
    } else {
        ((Seq::empty(), false), at)
    }
}

/// Read the ceiling `-l` sets.
pub fn load_value(arguments: &[Vec<u8>], index: &mut usize, attached: &[u8]) -> (load: LoadLimit)
    requires
        *old(index) < arguments@.len(),
    ensures
        ((load.ceiling@, load.propagated), *final(index) as int) == load_read(
            texts(arguments@),
            *old(index) as int,
            attached@,
        ),
        *old(index) <= *final(index) < arguments@.len(),
{
    if attached.len() > 0 {
        return LoadLimit { ceiling: copied(attached), propagated: true };
    }
    let total: usize = arguments.len();
    let next: usize = *index + 1;
    if next < total && is_numeric(&arguments[next]) {
        *index = next;
        return LoadLimit { ceiling: copied(&arguments[next]), propagated: true };
    }
    let ceiling: Vec<u8> = Vec::new();
    assert(ceiling@ =~= Seq::empty());
    LoadLimit { ceiling, propagated: false }
}

/// What a `--shuffle` word does, which the streams answer differently.
#[verifier::opaque]
pub open spec fn shuffle_read(settings: Settings, source: ArgumentSource, spec: Seq<u8>) -> (
    Settings,
    Option<Reported>,
) {
    if spec.len() == 0 {
        (settings.with_non_empty(source, text("--shuffle"), spec), None)
    } else {
        match source.shuffles() {
            ShuffleEffect::Settles => match Shuffle::asked(spec, settings.around.seed) {
                Some(mode) => (
                    Settings { shuffle: mode, shuffle_spelling: mode.spelled(), ..settings },
                    None,
                ),
                None => (
                    settings,
                    Some(
                        refusal(
                            text("invalid shuffle mode: Invalid value: '") + lossy(spec) + text(
                                "'",
                            ),
                        ),
                    ),
                ),
            },
            ShuffleEffect::Republishes => (
                Settings { shuffle_spelling: Some(lossy(spec)), ..settings },
                None,
            ),
            ShuffleEffect::Ignored => (settings, None),
        }
    }
}

/// Read `--shuffle`'s argument, which the streams answer differently. Answers
/// with the refusal, when there is one.
pub fn read_shuffle(invocation: &mut Invocation, source: ArgumentSource, spec: &[u8]) -> (answer:
    Option<RunResult>)
    ensures
        (final(invocation).model(), result_model(answer)) == shuffle_read(
            old(invocation).model(),
            source,
            spec@,
        ),
{
    reveal(shuffle_read);
    if !invocation.non_empty(source, "--shuffle".as_bytes(), spec) {
        return None;
    }
    match source.shuffle_effect() {
        ShuffleEffect::Settles => {
            match Shuffle::requested(spec, invocation.around.seed) {
                Some(mode) => {
                    invocation.shuffle = mode;
                    invocation.shuffle_spelling = mode.spelling();
                },
                None => {
                    let mut wrong: Vec<u8> = message(
                        "invalid shuffle mode: Invalid value: '",
                        &to_str_lossy(spec),
                    );
                    append(&mut wrong, "'".as_bytes());
                    return Some(refuse(&wrong));
                },
            }
        },
        ShuffleEffect::Republishes => {
            invocation.shuffle_spelling = Some(to_str_lossy(spec));
        },
        ShuffleEffect::Ignored => {},
    }
    None
}

/// What a `--jobserver-style` does: the style is kept to be checked, and an
/// empty one complained of.
#[verifier::opaque]
pub open spec fn style_read(
    settings: Settings,
    source: ArgumentSource,
    option: Seq<u8>,
    arguments: Seq<Seq<u8>>,
    at: int,
) -> Read {
    let (after, end, style) = match after_prefix(option, text("--jobserver-style=")) {
        Some(attached) => (settings, at, Some(attached)),
        None => value_read(
            settings,
            source,
            arguments,
            at,
            Seq::empty(),
            text("--jobserver-style"),
        ),
    };
    match style {
        Some(named) => if named.len() == 0 {
            read_on(after.with_non_empty(source, text("--jobserver-style"), named), end)
        } else {
            read_on(Settings { jobserver_style: Some(named), ..after }, end)
        },
        None => read_on(after, end),
    }
}

/// Read a `--jobserver-style`.
pub fn read_jobserver_style(
    invocation: &mut Invocation,
    source: ArgumentSource,
    option: &[u8],
    arguments: &[Vec<u8>],
    index: &mut usize,
)
    requires
        *old(index) < arguments@.len(),
    ensures
        read_on(final(invocation).model(), *final(index) as int) == style_read(
            old(invocation).model(),
            source,
            option@,
            texts(arguments@),
            *old(index) as int,
        ),
        *old(index) <= *final(index) <= arguments@.len(),
{
    reveal(style_read);
    let nothing: Vec<u8> = Vec::new();
    assert(nothing@ =~= Seq::empty());
    let style: Vec<u8> = match strip_prefix(option, "--jobserver-style=".as_bytes()) {
        Some(attached) => attached,
        None => match value(
            invocation,
            source,
            arguments,
            index,
            &nothing,
            "--jobserver-style".as_bytes(),
        ) {
            Some(named) => named,
            None => return ,
        },
    };
    if invocation.non_empty(source, "--jobserver-style".as_bytes(), &style) {
        invocation.jobserver_style = Some(style);
    }
}

/// An option that is accepted and does nothing, found among the surface's rows.
pub ghost struct Ignored {
    /// Whether it takes an argument.
    pub required: bool,
    /// The name it is complained of under.
    pub name: Seq<u8>,
    /// The spelling it was found under.
    pub spelling: Seq<u8>,
    /// The argument behind its `=`, where it has one.
    pub attached: Option<Seq<u8>>,
}

/// Whether a spelling is a long one.
pub open spec fn is_long(spelling: Seq<u8>) -> bool {
    begins(spelling, text("--"))
}

/// What a row calls itself: its letter where it has one, and otherwise the
/// spelling it was reached by.
pub open spec fn row_name(spellings: Seq<Seq<u8>>, spelling: Seq<u8>) -> Seq<u8> {
    if is_long(spellings[0]) {
        spelling
    } else {
        spellings[0]
    }
}

/// The row a long option nothing is done with is found in, from a row and a
/// spelling of it on.
#[verifier::opaque]
pub open spec fn ignored_long(option: Seq<u8>, row: int, place: int) -> Option<Ignored>
    decreases SURFACE_ROWS - row, surface(row).spellings.len() - place,
{
    if row < 0 || row >= SURFACE_ROWS {
        None
    } else if surface(row).class != OptionClass::NoOp || place < 0 || place
        >= surface(row).spellings.len() {
        ignored_long(option, row + 1, 0)
    } else {
        let spelling = surface(row).spellings[place];
        let argument = surface(row).argument;
        let name = row_name(surface(row).spellings, spelling);
        let required = argument == ArgumentShape::Required;
        if is_long(spelling) && option == spelling {
            Some(Ignored { required, name, spelling, attached: None })
        } else if is_long(spelling) && begins(option, spelling) && option.len() > spelling.len()
            && option[spelling.len() as int] == 0x3d && (required || argument
            == ArgumentShape::OptionalAttached) {
            Some(
                Ignored {
                    required,
                    name,
                    spelling,
                    attached: Some(option.skip(spelling.len() as int + 1)),
                },
            )
        } else {
            ignored_long(option, row, place + 1)
        }
    }
}

/// What a long option nothing is done with does: an argument it takes is
/// consumed, and complained of where it is empty.
#[verifier::opaque]
pub open spec fn ignored_read(
    settings: Settings,
    source: ArgumentSource,
    found: Ignored,
    arguments: Seq<Seq<u8>>,
    at: int,
) -> Read {
    match found.attached {
        Some(attached) => if found.required {
            read_on(settings.with_non_empty(source, found.name, attached), at)
        } else {
            read_on(settings, at)
        },
        None => if found.required {
            let (after, end, named) = value_read(
                settings,
                source,
                arguments,
                at,
                Seq::empty(),
                found.spelling,
            );
            match named {
                Some(argument) => read_on(
                    after.with_non_empty(source, found.name, argument),
                    end,
                ),
                None => read_on(after, end),
            }
        } else {
            read_on(settings, at)
        },
    }
}

/// Consume a deliberately ignored long option, including its required value.
/// Says whether the option was one.
pub fn accept_noop_long(
    invocation: &mut Invocation,
    source: ArgumentSource,
    option: &[u8],
    arguments: &[Vec<u8>],
    index: &mut usize,
) -> (accepted: bool)
    requires
        *old(index) < arguments@.len(),
    ensures
        accepted == (ignored_long(option@, 0, 0) is Some),
        *old(index) <= *final(index) <= arguments@.len(),
        match ignored_long(option@, 0, 0) {
            Some(found) => read_on(final(invocation).model(), *final(index) as int)
                == ignored_read(
                old(invocation).model(),
                source,
                found,
                texts(arguments@),
                *old(index) as int,
            ),
            None => final(invocation).model() == old(invocation).model() && *final(index)
                == *old(index),
        },
{
    reveal(ignored_read);
    let ghost whole = ignored_long(option@, 0, 0);
    let nothing: Vec<u8> = Vec::new();
    assert(nothing@ =~= Seq::empty());
    let mut row: usize = 0;
    while row < SURFACE_ROWS
        invariant
            row <= SURFACE_ROWS,
            whole == ignored_long(option@, 0, 0),
            whole == ignored_long(option@, row as int, 0),
            nothing@ == Seq::<u8>::empty(),
            *index == *old(index),
            *index < arguments@.len(),
            invocation.model() == old(invocation).model(),
        decreases SURFACE_ROWS - row,
    {
        reveal_with_fuel(ignored_long, 2);
        let declared: InterfaceOption = make_option_surface(row);
        let mut place: usize = 0;
        if declared.class != OptionClass::NoOp {
            place = declared.spellings.len();
        }
        while place < declared.spellings.len()
            invariant
                row < SURFACE_ROWS,
                place <= declared.spellings@.len(),
                declared.model() == surface(row as int),
                declared.class == OptionClass::NoOp || place == declared.spellings@.len(),
                whole == ignored_long(option@, 0, 0),
                whole == ignored_long(option@, row as int, place as int),
                nothing@ == Seq::<u8>::empty(),
                *index == *old(index),
                *index < arguments@.len(),
                invocation.model() == old(invocation).model(),
            decreases declared.spellings@.len() - place,
        {
            reveal(ignored_read);
            reveal_with_fuel(ignored_long, 2);
            let spelling: &Vec<u8> = &declared.spellings[place];
            assert(texts(declared.spellings@)[place as int] == spelling@);
            assert(texts(declared.spellings@)[0] == declared.spellings@[0]@);
            let required: bool = declared.argument == ArgumentShape::Required;
            if starts_with(spelling, "--".as_bytes()) {
                let name: Vec<u8> = if starts_with(&declared.spellings[0], "--".as_bytes()) {
                    copied(spelling)
                } else {
                    copied(&declared.spellings[0])
                };
                if same(option, spelling) {
                    if required {
                        match value(invocation, source, arguments, index, &nothing, spelling) {
                            Some(named) => {
                                invocation.discarded_argument(source, &name, &named);
                            },
                            None => {},
                        }
                    }
                    return true;
                }
                if starts_with(option, spelling) && option.len() > spelling.len()
                    && option[spelling.len()] == 0x3d && (required || declared.argument
                    == ArgumentShape::OptionalAttached) {
                    if required {
                        let attached: Vec<u8> = part(option, spelling.len() + 1, option.len());
                        assert(attached@ =~= option@.skip(spelling@.len() as int + 1));
                        invocation.discarded_argument(source, &name, &attached);
                    }
                    return true;
                }
            }
            place += 1;
        }
        row += 1;
    }
    reveal_with_fuel(ignored_long, 1);
    false
}

/// The argument shape of the short option nothing is done with that a letter
/// names, from a row on.
#[verifier::opaque]
pub open spec fn ignored_short(letter: u8, row: int) -> Option<ArgumentShape>
    decreases SURFACE_ROWS - row,
{
    if row < 0 || row >= SURFACE_ROWS {
        None
    } else if surface(row).class == OptionClass::NoOp && surface(row).spellings.contains(
        seq![0x2du8, letter],
    ) {
        Some(surface(row).argument)
    } else {
        ignored_short(letter, row + 1)
    }
}

/// The argument shape of the short option nothing is done with that a letter
/// names.
fn find_ignored_short(letter: u8) -> (shape: Option<ArgumentShape>)
    ensures
        shape == ignored_short(letter, 0),
{
    let mut spelling: Vec<u8> = Vec::new();
    spelling.push(0x2d);
    spelling.push(letter);
    assert(spelling@ =~= seq![0x2du8, letter]);
    let mut row: usize = 0;
    while row < SURFACE_ROWS
        invariant
            row <= SURFACE_ROWS,
            spelling@ == seq![0x2du8, letter],
            ignored_short(letter, 0) == ignored_short(letter, row as int),
        decreases SURFACE_ROWS - row,
    {
        reveal_with_fuel(ignored_short, 2);
        let declared: InterfaceOption = make_option_surface(row);
        if declared.class == OptionClass::NoOp && holds(&declared.spellings, &spelling) {
            return Some(declared.argument);
        }
        row += 1;
    }
    reveal_with_fuel(ignored_short, 1);
    None
}

/// What a short option nothing is done with does, `rest` being what its cluster
/// holds behind it.
#[verifier::opaque]
pub open spec fn ignored_letter_read(
    settings: Settings,
    source: ArgumentSource,
    letter: u8,
    rest: Seq<u8>,
    arguments: Seq<Seq<u8>>,
    at: int,
) -> Read {
    let name = seq![0x2du8, letter];
    let (after, end, named) = value_read(settings, source, arguments, at, rest, name);
    match named {
        Some(argument) => read_on(after.with_non_empty(source, name, argument), end),
        None => read_on(after, end),
    }
}

/// Consume a deliberately ignored short option from a cluster, whose place in
/// it moves behind the argument it takes. Says whether the option was one.
pub fn accept_noop_short(
    invocation: &mut Invocation,
    source: ArgumentSource,
    option: u8,
    argument: &[u8],
    short: &mut usize,
    arguments: &[Vec<u8>],
    index: &mut usize,
) -> (accepted: bool)
    requires
        *old(index) < arguments@.len(),
        *old(short) <= argument@.len(),
    ensures
        accepted == (ignored_short(option, 0) is Some),
        *old(index) <= *final(index) <= arguments@.len(),
        *old(short) <= *final(short) <= argument@.len(),
        ignored_short(option, 0) == Some(ArgumentShape::Required) ==> {
            &&& *final(short) == argument@.len()
            &&& read_on(final(invocation).model(), *final(index) as int) == ignored_letter_read(
                old(invocation).model(),
                source,
                option,
                argument@.skip(*old(short) as int),
                texts(arguments@),
                *old(index) as int,
            )
        },
        ignored_short(option, 0) != Some(ArgumentShape::Required) ==> {
            &&& *final(short) == *old(short)
            &&& *final(index) == *old(index)
            &&& final(invocation).model() == old(invocation).model()
        },
{
    reveal(ignored_letter_read);
    match find_ignored_short(option) {
        Some(ArgumentShape::Required) => {
            let mut name: Vec<u8> = Vec::new();
            name.push(0x2d);
            name.push(option);
            assert(name@ =~= seq![0x2du8, option]);
            let rest: Vec<u8> = part(argument, *short, argument.len());
            assert(rest@ =~= argument@.skip(*short as int));
            match value(invocation, source, arguments, index, &rest, &name) {
                Some(named) => {
                    invocation.discarded_argument(source, &name, &named);
                },
                None => {},
            }
            *short = argument.len();
            true
        },
        Some(_) => true,
        None => false,
    }
}

/// A byte as the character of that number, in UTF-8.
pub open spec fn character(byte: u8) -> Seq<u8> {
    if byte < 0x80 {
        seq![byte]
    } else {
        seq![(0xc0 + byte / 64) as u8, (0x80 + byte % 64) as u8]
    }
}

fn character_of(byte: u8) -> (shown: Vec<u8>)
    ensures
        shown@ == character(byte),
{
    let mut shown: Vec<u8> = Vec::new();
    if byte < 0x80 {
        shown.push(byte);
    } else {
        shown.push(0xc0 + byte / 64);
        shown.push(0x80 + byte % 64);
    }
    assert(shown@ =~= character(byte));
    shown
}

/// What one `-abc` group does from `short` on: several switches, unless one of
/// them takes an argument, after which the rest of the word is that argument.
pub open spec fn cluster_read(
    settings: Settings,
    source: ArgumentSource,
    argument: Seq<u8>,
    arguments: Seq<Seq<u8>>,
    at: int,
    short: int,
) -> Read
    decreases argument.len() - short,
{
    if short < 0 || short >= argument.len() {
        read_on(settings, at)
    } else {
        let option = argument[short];
        let rest = argument.skip(short + 1);
        if Switch::of_letter(option) is Some {
            cluster_read(
                settings.with(Switch::of_letter(option)->0),
                source,
                argument,
                arguments,
                at,
                short + 1,
            )
        } else if Switch::of_negating_letter(option) is Some {
            cluster_read(
                settings.without(Switch::of_negating_letter(option)->0),
                source,
                argument,
                arguments,
                at,
                short + 1,
            )
        } else if option == 0x68 {
            Read { settings, at, said: Some(answer_of(text(USAGE))) }
        } else if option == 0x45 {
            let (after, end, named) = value_read(settings, source, arguments, at, rest, text("-E"));
            match named {
                Some(eval) => read_on(after.with_eval(source, eval), end),
                None => read_on(after, end),
            }
        } else if option == 0x6a {
            let (after, end, jobs) = jobs_read(settings, source, arguments, at, rest);
            match jobs {
                Some(limit) => read_on(after.with_jobs(source, limit), end),
                None => read_on(after, end),
            }
        } else if option == 0x6c {
            let (load, end) = load_read(arguments, at, rest);
            read_on(Settings { load: Some(load), ..settings }, end)
        } else if option == 0x57 {
            let (after, end, named) = value_read(settings, source, arguments, at, rest, text("-W"));
            match named {
                Some(file) => read_on(after.with_assumed_new(source, file), end),
                None => read_on(after, end),
            }
        } else if option == 0x4f {
            read_on(settings.with_output_sync(rest), at)
        } else if option == 0x66 {
            let (after, end, named) = value_read(settings, source, arguments, at, rest, text("-f"));
            match named {
                Some(file) => read_on(after.with_makefile(source, file), end),
                None => read_on(after, end),
            }
        } else if option == 0x49 {
            let (after, end, named) = value_read(settings, source, arguments, at, rest, text("-I"));
            match named {
                Some(file) => read_on(after.with_include_dir(source, file), end),
                None => read_on(after, end),
            }
        } else if option == 0x43 {
            let (after, end, named) = value_read(settings, source, arguments, at, rest, text("-C"));
            match named {
                Some(file) => read_on(after.with_directory(source, file), end),
                None => read_on(after, end),
            }
        } else {
            match ignored_short(option, 0) {
                Some(shape) => if shape == ArgumentShape::Required {
                    ignored_letter_read(settings, source, option, rest, arguments, at)
                } else {
                    cluster_read(settings, source, argument, arguments, at, short + 1)
                },
                None => if source.refuses() {
                    Read {
                        settings,
                        at,
                        said: Some(
                            refusal(
                                text("invalid option -- '") + character(option) + text("'"),
                            ),
                        ),
                    }
                } else {
                    cluster_read(settings, source, argument, arguments, at, short + 1)
                },
            }
        }
    }
}

/// Read one `-abc` group.
#[verifier::rlimit(60)]
pub fn read_cluster(
    invocation: &mut Invocation,
    source: ArgumentSource,
    argument: &[u8],
    arguments: &[Vec<u8>],
    index: &mut usize,
) -> (answer: Option<RunResult>)
    requires
        *old(index) < arguments@.len(),
        argument@.len() > 0,
    ensures
        (Read {
            settings: final(invocation).model(),
            at: *final(index) as int,
            said: result_model(answer),
        }) == cluster_read(
            old(invocation).model(),
            source,
            argument@,
            texts(arguments@),
            *old(index) as int,
            1,
        ),
        *old(index) <= *final(index) <= arguments@.len(),
{
    let ghost whole = cluster_read(
        invocation.model(),
        source,
        argument@,
        texts(arguments@),
        *index as int,
        1,
    );
    let mut short: usize = 1;
    while short < argument.len()
        invariant
            1 <= short <= argument@.len(),
            *index == *old(index),
            *index < arguments@.len(),
            whole == cluster_read(
                old(invocation).model(),
                source,
                argument@,
                texts(arguments@),
                *old(index) as int,
                1,
            ),
            whole == cluster_read(
                invocation.model(),
                source,
                argument@,
                texts(arguments@),
                *index as int,
                short as int,
            ),
        decreases argument@.len() - short,
    {
        let option: u8 = argument[short];
        short += 1;
        if let Some(switch) = Switch::short(option) {
            invocation.add(switch);
            continue;
        }
        if let Some(switch) = Switch::short_negation(option) {
            invocation.withdraw(switch);
            continue;
        }
        let rest: Vec<u8> = part(argument, short, argument.len());
        assert(rest@ =~= argument@.skip(short as int));
        match option {
            0x68 => {
                return Some(reported(usage()));
            },
            0x45 => {
                match value(invocation, source, arguments, index, &rest, "-E".as_bytes()) {
                    Some(eval) => invocation.eval_statement(source, &eval),
                    None => {},
                }
                return None;
            },
            0x6a => {
                match jobs_value(invocation, source, arguments, index, &rest) {
                    Some(jobs) => invocation.set_jobs(source, jobs),
                    None => {},
                }
                return None;
            },
            0x6c => {
                invocation.load = Some(load_value(arguments, index, &rest));
                return None;
            },
            0x57 => {
                match value(invocation, source, arguments, index, &rest, "-W".as_bytes()) {
                    Some(named) => invocation.take_for_new(source, &named),
                    None => {},
                }
                return None;
            },
            0x4f => {
                read_output_sync(invocation, &rest);
                return None;
            },
            0x66 => {
                match value(invocation, source, arguments, index, &rest, "-f".as_bytes()) {
                    Some(named) => invocation.makefile(source, &named),
                    None => {},
                }
                return None;
            },
            0x49 => {
                match value(invocation, source, arguments, index, &rest, "-I".as_bytes()) {
                    Some(named) => invocation.include_dir(source, &named),
                    None => {},
                }
                return None;
            },
            0x43 => {
                match value(invocation, source, arguments, index, &rest, "-C".as_bytes()) {
                    Some(named) => invocation.directory(source, &named),
                    None => {},
                }
                return None;
            },
            _ => {
                let ghost stood = short;
                let accepted: bool = accept_noop_short(
                    invocation,
                    source,
                    option,
                    argument,
                    &mut short,
                    arguments,
                    index,
                );
                if !accepted && source.refuses_a_bad_switch() {
                    let mut wrong: Vec<u8> = message("invalid option -- '", &character_of(option));
                    append(&mut wrong, "'".as_bytes());
                    return Some(refuse(&wrong));
                }
                if short == argument.len() {
                    return None;
                }
            },
        }
    }
    None
}

/// What a word that is not an option does: one with an `=` in it assigns a
/// variable, an empty one and a lone dash do nothing, and any other is a goal.
pub open spec fn word_read(settings: Settings, word: Seq<u8>) -> Settings {
    if word.len() == 0 || word == text("-") {
        settings
    } else if word.contains(0x3d) {
        Settings { variables: settings.variables.push(word), ..settings }
    } else {
        Settings { goals: settings.goals.push(word), ..settings }
    }
}

/// Take a word that is not an option: a variable assignment, or a goal.
pub fn classify_word(invocation: &mut Invocation, word: &[u8])
    ensures
        final(invocation).model() == word_read(old(invocation).model(), word@),
{
    if word.len() == 0 || same(word, "-".as_bytes()) {
        return;
    }
    if contains_byte(word, 0x3d) {
        push_text(&mut invocation.variables, copied(word));
    } else {
        push_text(&mut invocation.goals, copied(word));
    }
}

/// Whether a long option takes its value from the word after it.
pub open spec fn takes_a_word(option: Seq<u8>) -> bool {
    option == text("--file") || option == text("--makefile") || option == text("--directory")
        || option == text("--include-dir") || option == text("--eval") || option == text(
        "--what-if",
    ) || option == text("--new-file") || option == text("--assume-new")
}

/// What a long option whose value is the word after it does.
#[verifier::opaque]
pub open spec fn separated_read(
    settings: Settings,
    source: ArgumentSource,
    option: Seq<u8>,
    arguments: Seq<Seq<u8>>,
    at: int,
) -> Read {
    let (after, end, named) = value_read(
        settings,
        source,
        arguments,
        at,
        Seq::empty(),
        lossy(option),
    );
    match named {
        None => read_on(after, end),
        Some(word) => read_on(
            if option == text("--file") || option == text("--makefile") {
                after.with_makefile(source, word)
            } else if option == text("--directory") {
                after.with_directory(source, word)
            } else if option == text("--include-dir") {
                after.with_include_dir(source, word)
            } else if option == text("--eval") {
                after.with_eval(source, word)
            } else {
                after.with_assumed_new(source, word)
            },
            end,
        ),
    }
}

/// Read a long option whose value is the word after it.
pub fn separated_long(
    invocation: &mut Invocation,
    source: ArgumentSource,
    option: &[u8],
    arguments: &[Vec<u8>],
    index: &mut usize,
)
    requires
        *old(index) < arguments@.len(),
    ensures
        read_on(final(invocation).model(), *final(index) as int) == separated_read(
            old(invocation).model(),
            source,
            option@,
            texts(arguments@),
            *old(index) as int,
        ),
        *old(index) <= *final(index) <= arguments@.len(),
{
    reveal(separated_read);
    let nothing: Vec<u8> = Vec::new();
    assert(nothing@ =~= Seq::empty());
    let named: Vec<u8> = match value(
        invocation,
        source,
        arguments,
        index,
        &nothing,
        &to_str_lossy(option),
    ) {
        Some(named) => named,
        None => return ,
    };
    if same(option, "--file".as_bytes()) || same(option, "--makefile".as_bytes()) {
        invocation.makefile(source, &named);
    } else if same(option, "--directory".as_bytes()) {
        invocation.directory(source, &named);
    } else if same(option, "--include-dir".as_bytes()) {
        invocation.include_dir(source, &named);
    } else if same(option, "--eval".as_bytes()) {
        invocation.eval_statement(source, &named);
    } else {
        invocation.take_for_new(source, &named);
    }
}

/// The value behind the first of three prefixes that is there.
pub open spec fn behind(option: Seq<u8>, first: &str, second: &str, third: &str) -> Option<Seq<u8>>
{
    match after_prefix(option, text(first)) {
        Some(value) => Some(value),
        None => match after_prefix(option, text(second)) {
            Some(value) => Some(value),
            None => after_prefix(option, text(third)),
        },
    }
}

fn value_behind(option: &[u8], first: &str, second: &str, third: &str) -> (value: Option<Vec<u8>>)
    ensures
        maybe(value) == behind(option@, first, second, third),
{
    if let Some(value) = strip_prefix(option, first.as_bytes()) {
        return Some(value);
    }
    if let Some(value) = strip_prefix(option, second.as_bytes()) {
        return Some(value);
    }
    strip_prefix(option, third.as_bytes())
}

/// What a long option carrying its value after an `=` does, in the spellings
/// that take one at all.
#[verifier::opaque]
pub open spec fn attached_read(
    settings: Settings,
    source: ArgumentSource,
    option: Seq<u8>,
    arguments: Seq<Seq<u8>>,
    at: int,
) -> Option<Read> {
    let file = behind(option, "--file=", "--makefile=", "--makefile=");
    let directory = after_prefix(option, text("--directory="));
    let include_dir = after_prefix(option, text("--include-dir="));
    let fresh = behind(option, "--what-if=", "--new-file=", "--assume-new=");
    let eval = after_prefix(option, text("--eval="));
    let jobs = after_prefix(option, text("--jobs="));
    let load = behind(option, "--load-average=", "--max-load=", "--max-load=");
    let sync = after_prefix(option, text("--output-sync="));
    if file is Some {
        Some(read_on(settings.with_makefile(source, file->0), at))
    } else if directory is Some {
        Some(read_on(settings.with_directory(source, directory->0), at))
    } else if include_dir is Some {
        Some(read_on(settings.with_include_dir(source, include_dir->0), at))
    } else if fresh is Some {
        Some(read_on(settings.with_assumed_new(source, fresh->0), at))
    } else if eval is Some {
        Some(read_on(settings.with_eval(source, eval->0), at))
    } else if jobs is Some {
        Some(
            read_on(
                match limit_of(jobs->0) {
                    Some(limit) => settings.with_jobs(source, limit),
                    None => settings.with_complaint(source, no_job_count()),
                },
                at,
            ),
        )
    } else if load is Some {
        let (ceiling, end) = load_read(arguments, at, load->0);
        Some(read_on(Settings { load: Some(ceiling), ..settings }, end))
    } else if sync is Some {
        Some(
            read_on(
                if sync->0.len() > 0 {
                    settings.with_output_sync(sync->0)
                } else {
                    settings.with_non_empty(source, text("-O"), sync->0)
                },
                at,
            ),
        )
    } else {
        None
    }
}

/// Read a long option carrying its value after an `=`. Says whether the option
/// was one.
#[verifier::rlimit(40)]
pub fn attached_long(
    invocation: &mut Invocation,
    source: ArgumentSource,
    option: &[u8],
    arguments: &[Vec<u8>],
    index: &mut usize,
) -> (accepted: bool)
    requires
        *old(index) < arguments@.len(),
    ensures
        *old(index) <= *final(index) < arguments@.len(),
        match attached_read(
            old(invocation).model(),
            source,
            option@,
            texts(arguments@),
            *old(index) as int,
        ) {
            Some(read) => accepted && read_on(final(invocation).model(), *final(index) as int)
                == read,
            None => !accepted && final(invocation).model() == old(invocation).model()
                && *final(index) == *old(index),
        },
{
    reveal(attached_read);
    if let Some(named) = value_behind(option, "--file=", "--makefile=", "--makefile=") {
        invocation.makefile(source, &named);
    } else if let Some(named) = strip_prefix(option, "--directory=".as_bytes()) {
        invocation.directory(source, &named);
    } else if let Some(named) = strip_prefix(option, "--include-dir=".as_bytes()) {
        invocation.include_dir(source, &named);
    } else if let Some(named) = value_behind(
        option,
        "--what-if=",
        "--new-file=",
        "--assume-new=",
    ) {
        invocation.take_for_new(source, &named);
    } else if let Some(eval) = strip_prefix(option, "--eval=".as_bytes()) {
        invocation.eval_statement(source, &eval);
    } else if let Some(count) = strip_prefix(option, "--jobs=".as_bytes()) {
        if count.len() == 0 {
            assert(limit_of(count@) is None);
            invocation.complain(
                source,
                literal("the '-j' option requires a positive integer argument"),
            );
        } else {
            match jobs_value(invocation, source, arguments, index, &count) {
                Some(jobs) => invocation.set_jobs(source, jobs),
                None => {},
            }
        }
    } else if let Some(load) = value_behind(
        option,
        "--load-average=",
        "--max-load=",
        "--max-load=",
    ) {
        invocation.load = Some(load_value(arguments, index, &load));
    } else if let Some(kind) = strip_prefix(option, "--output-sync=".as_bytes()) {
        if invocation.non_empty(source, "-O".as_bytes(), &kind) {
            read_output_sync(invocation, &kind);
        }
    } else {
        return false;
    }
    true
}

/// What a long option none of the spellings with a meaning claimed does: one
/// carrying its value after an `=`, one that is accepted and does nothing, or
/// one Make does not know at all.
#[verifier::opaque]
pub open spec fn other_long_read(
    settings: Settings,
    source: ArgumentSource,
    option: Seq<u8>,
    arguments: Seq<Seq<u8>>,
    at: int,
) -> Read {
    match attached_read(settings, source, option, arguments, at) {
        Some(read) => read,
        None => match ignored_long(option, 0, 0) {
            Some(found) => ignored_read(settings, source, found, arguments, at),
            None => if source.refuses() {
                Read {
                    settings,
                    at,
                    said: Some(
                        refusal(text("unrecognized option '") + lossy(option) + text("'")),
                    ),
                }
            } else {
                read_on(settings, at)
            },
        },
    }
}

/// Read a long option none of the spellings with a meaning claimed.
pub fn read_other_long(
    invocation: &mut Invocation,
    source: ArgumentSource,
    option: &[u8],
    arguments: &[Vec<u8>],
    index: &mut usize,
) -> (answer: Option<RunResult>)
    requires
        *old(index) < arguments@.len(),
    ensures
        *old(index) <= *final(index) <= arguments@.len(),
        (Read {
            settings: final(invocation).model(),
            at: *final(index) as int,
            said: result_model(answer),
        }) == other_long_read(
            old(invocation).model(),
            source,
            option@,
            texts(arguments@),
            *old(index) as int,
        ),
{
    reveal(other_long_read);
    if attached_long(invocation, source, option, arguments, index) {
        return None;
    }
    if accept_noop_long(invocation, source, option, arguments, index) {
        return None;
    }
    if !source.refuses_a_bad_switch() {
        return None;
    }
    let mut wrong: Vec<u8> = message("unrecognized option '", &to_str_lossy(option));
    append(&mut wrong, "'".as_bytes());
    Some(refuse(&wrong))
}

/// What one word with a meaning of its own does, where it is not a plain
/// switch.
#[verifier::opaque]
pub open spec fn option_read(
    settings: Settings,
    source: ArgumentSource,
    arguments: Seq<Seq<u8>>,
    at: int,
) -> Read {
    let option = arguments[at];
    let debug = after_prefix(option, text("--debug="));
    let shuffle = after_prefix(option, text("--shuffle="));
    if option == text("--") {
        read_on(settings, at)
    } else if option == text("--version") || option == text("-v") {
        Read {
            settings,
            at,
            said: Some(
                answer_of(
                    version_text(settings.around.product_version, settings.around.make_version),
                ),
            ),
        }
    } else if option == text("--help") {
        Read { settings, at, said: Some(answer_of(text(USAGE))) }
    } else if option == text("--output-sync") {
        read_on(Settings { output_sync: Some(OutputSync::Target), ..settings }, at)
    } else if option == text("--debug") {
        read_on(settings.with_debug(source, text("basic")), at)
    } else if debug is Some {
        if debug->0.len() > 0 && facets(0, debug->0, 0) is None {
            Read {
                settings,
                at,
                said: Some(
                    refusal(
                        text("unknown debug level specification '") + lossy(debug->0) + text("'"),
                    ),
                ),
            }
        } else {
            read_on(settings.with_debug(source, debug->0), at)
        }
    } else if option == text("--shuffle") || shuffle is Some {
        let (after, said) = shuffle_read(
            settings,
            source,
            if shuffle is Some {
                shuffle->0
            } else {
                text("random")
            },
        );
        Read { settings: after, at, said }
    } else if option == text("--jobs") {
        let (after, end, jobs) = jobs_read(settings, source, arguments, at, Seq::empty());
        match jobs {
            Some(limit) => read_on(after.with_jobs(source, limit), end),
            None => read_on(after, end),
        }
    } else if option == text("--jobserver-style") || begins(option, text("--jobserver-style=")) {
        style_read(settings, source, option, arguments, at)
    } else if option == text("--load-average") || option == text("--max-load") {
        let (load, end) = load_read(arguments, at, Seq::empty());
        read_on(Settings { load: Some(load), ..settings }, end)
    } else if takes_a_word(option) {
        separated_read(settings, source, option, arguments, at)
    } else if is_long(option) {
        other_long_read(settings, source, option, arguments, at)
    } else {
        cluster_read(settings, source, option, arguments, at, 1)
    }
}

/// Read one word with a meaning of its own.
#[verifier::rlimit(60)]
fn read_option(
    invocation: &mut Invocation,
    source: ArgumentSource,
    arguments: &[Vec<u8>],
    index: &mut usize,
) -> (answer: Option<RunResult>)
    requires
        *old(index) < arguments@.len(),
        arguments@[*old(index) as int]@.len() > 0,
    ensures
        *old(index) <= *final(index) <= arguments@.len(),
        (Read {
            settings: final(invocation).model(),
            at: *final(index) as int,
            said: result_model(answer),
        }) == option_read(
            old(invocation).model(),
            source,
            texts(arguments@),
            *old(index) as int,
        ),
{
    reveal(option_read);
    let argument: &Vec<u8> = &arguments[*index];
    let nothing: Vec<u8> = Vec::new();
    assert(nothing@ =~= Seq::empty());
    if same(argument, "--".as_bytes()) {
        return None;
    }
    if same(argument, "--version".as_bytes()) || same(argument, "-v".as_bytes()) {
        let said: Vec<u8> = version(
            &invocation.around.product_version,
            &invocation.around.make_version,
        );
        return Some(reported(said));
    }
    if same(argument, "--help".as_bytes()) {
        return Some(reported(usage()));
    }
    if same(argument, "--output-sync".as_bytes()) {
        invocation.output_sync = Some(OutputSync::Target);
        return None;
    }
    if same(argument, "--debug".as_bytes()) {
        invocation.debug_spec(source, "basic".as_bytes());
        return None;
    }
    if let Some(spec) = strip_prefix(argument, "--debug=".as_bytes()) {
        if spec.len() > 0 && debug_facets(0, &spec).is_none() {
            let mut wrong: Vec<u8> = message(
                "unknown debug level specification '",
                &to_str_lossy(&spec),
            );
            append(&mut wrong, "'".as_bytes());
            return Some(refuse(&wrong));
        }
        invocation.debug_spec(source, &spec);
        return None;
    }
    if let Some(spec) = strip_prefix(argument, "--shuffle=".as_bytes()) {
        return read_shuffle(invocation, source, &spec);
    }
    if same(argument, "--shuffle".as_bytes()) {
        return read_shuffle(invocation, source, "random".as_bytes());
    }
    if same(argument, "--jobs".as_bytes()) {
        match jobs_value(invocation, source, arguments, index, &nothing) {
            Some(jobs) => invocation.set_jobs(source, jobs),
            None => {},
        }
        return None;
    }
    if same(argument, "--jobserver-style".as_bytes()) || starts_with(
        argument,
        "--jobserver-style=".as_bytes(),
    ) {
        read_jobserver_style(invocation, source, argument, arguments, index);
        return None;
    }
    if same(argument, "--load-average".as_bytes()) || same(argument, "--max-load".as_bytes()) {
        invocation.load = Some(load_value(arguments, index, &nothing));
        return None;
    }
    if same(argument, "--file".as_bytes()) || same(argument, "--makefile".as_bytes()) || same(
        argument,
        "--directory".as_bytes(),
    ) || same(argument, "--include-dir".as_bytes()) || same(argument, "--eval".as_bytes())
        || same(argument, "--what-if".as_bytes()) || same(argument, "--new-file".as_bytes())
        || same(argument, "--assume-new".as_bytes()) {
        separated_long(invocation, source, argument, arguments, index);
        return None;
    }
    if starts_with(argument, "--".as_bytes()) {
        return read_other_long(invocation, source, argument, arguments, index);
    }
    read_cluster(invocation, source, argument, arguments, index)
}

/// Whether a word is an option where options are read: it begins with a dash,
/// and is more than one.
pub open spec fn is_option(word: Seq<u8>) -> bool {
    word.len() > 0 && word[0] == 0x2d && word != text("-")
}

/// What the words of one option stream do from `at` on.
///
/// A word that could not be read ends the run once the whole of it, its
/// argument too, has been consumed.
pub open spec fn words_read(
    settings: Settings,
    source: ArgumentSource,
    arguments: Seq<Seq<u8>>,
    at: int,
    options: bool,
) -> (Settings, Option<Reported>)
    decreases arguments.len() + 1 - at,
    via words_end
{
    if at < 0 || at >= arguments.len() {
        (settings, None)
    } else {
        let word = arguments[at];
        if !options || !is_option(word) {
            words_read(word_read(settings, word), source, arguments, at + 1, options)
        } else if Switch::of_name(word) is Some {
            words_read(
                settings.with(Switch::of_name(word)->0),
                source,
                arguments,
                at + 1,
                options,
            )
        } else if Switch::of_negating_name(word) is Some {
            words_read(
                settings.without(Switch::of_negating_name(word)->0),
                source,
                arguments,
                at + 1,
                options,
            )
        } else {
            let read = option_read(settings, source, arguments, at);
            if read.said is Some {
                (read.settings, read.said)
            } else if read.settings.bad is Some {
                (
                    Settings { bad: None, ..read.settings },
                    Some(refusal(read.settings.bad->0)),
                )
            } else {
                words_read(
                    read.settings,
                    source,
                    arguments,
                    read.at + 1,
                    word != text("--"),
                )
            }
        }
    }
}

#[via_fn]
proof fn words_end(
    settings: Settings,
    source: ArgumentSource,
    arguments: Seq<Seq<u8>>,
    at: int,
    options: bool,
) {
    if 0 <= at < arguments.len() {
        option_moves(settings, source, arguments, at);
    }
}

proof fn cluster_moves(
    settings: Settings,
    source: ArgumentSource,
    argument: Seq<u8>,
    arguments: Seq<Seq<u8>>,
    at: int,
    short: int,
)
    ensures
        at <= cluster_read(settings, source, argument, arguments, at, short).at <= at + 1,
    decreases argument.len() - short,
{
    if 0 <= short < argument.len() {
        let option = argument[short];
        assert(at <= ignored_letter_read(
            settings,
            source,
            option,
            argument.skip(short + 1),
            arguments,
            at,
        ).at <= at + 1) by {
            reveal(ignored_letter_read);
        }
        if Switch::of_letter(option) is Some {
            cluster_moves(
                settings.with(Switch::of_letter(option)->0),
                source,
                argument,
                arguments,
                at,
                short + 1,
            );
        } else if Switch::of_negating_letter(option) is Some {
            cluster_moves(
                settings.without(Switch::of_negating_letter(option)->0),
                source,
                argument,
                arguments,
                at,
                short + 1,
            );
        } else {
            cluster_moves(settings, source, argument, arguments, at, short + 1);
        }
    }
}

pub(crate) proof fn option_moves(
    settings: Settings,
    source: ArgumentSource,
    arguments: Seq<Seq<u8>>,
    at: int,
)
    requires
        0 <= at < arguments.len(),
    ensures
        at <= option_read(settings, source, arguments, at).at <= at + 1,
{
    reveal(option_read);
    cluster_moves(settings, source, arguments[at], arguments, at, 1);
    other_long_moves(settings, source, arguments[at], arguments, at);
    assert(at <= separated_read(settings, source, arguments[at], arguments, at).at <= at + 1) by {
        reveal(separated_read);
    }
    assert(at <= style_read(settings, source, arguments[at], arguments, at).at <= at + 1) by {
        reveal(style_read);
    }
}

proof fn other_long_moves(
    settings: Settings,
    source: ArgumentSource,
    option: Seq<u8>,
    arguments: Seq<Seq<u8>>,
    at: int,
)
    ensures
        at <= other_long_read(settings, source, option, arguments, at).at <= at + 1,
{
    reveal(other_long_read);
    assert(attached_read(settings, source, option, arguments, at) matches Some(read) ==> at
        <= read.at <= at + 1) by {
        reveal(attached_read);
    }
    if let Some(found) = ignored_long(option, 0, 0) {
        assert(at <= ignored_read(settings, source, found, arguments, at).at <= at + 1) by {
            reveal(ignored_read);
        }
    }
}

/// Read one argv-shaped option source into an invocation, its first word being
/// the program's own name. Answers where the words end the run.
#[verifier::rlimit(40)]
pub fn parse_arguments(
    invocation: &mut Invocation,
    arguments: &[Vec<u8>],
    source: ArgumentSource,
) -> (answer: Option<RunResult>)
    ensures
        (final(invocation).model(), result_model(answer)) == words_read(
            old(invocation).model(),
            source,
            texts(arguments@),
            1,
            true,
        ),
{
    if arguments.len() == 0 {
        return None;
    }
    let ghost words = texts(arguments@);
    let ghost whole = words_read(invocation.model(), source, words, 1, true);
    let mut index: usize = 1;
    let mut options_enabled: bool = true;
    while index < arguments.len()
        invariant
            1 <= index,
            words == texts(arguments@),
            whole == words_read(old(invocation).model(), source, words, 1, true),
            whole == words_read(
                invocation.model(),
                source,
                words,
                index as int,
                options_enabled,
            ),
        decreases arguments@.len() + 1 - index,
    {
        let argument: &Vec<u8> = &arguments[index];
        assert(words[index as int] == argument@);
        if !options_enabled || argument.len() == 0 || argument[0] != 0x2d || same(
            argument,
            "-".as_bytes(),
        ) {
            classify_word(invocation, argument);
            index += 1;
            continue;
        }
        if let Some(switch) = Switch::long(argument) {
            invocation.add(switch);
            index += 1;
            continue;
        }
        if let Some(switch) = Switch::long_negation(argument) {
            invocation.withdraw(switch);
            index += 1;
            continue;
        }
        let ends: bool = same(argument, "--".as_bytes());
        if let Some(answer) = read_option(invocation, source, arguments, &mut index) {
            return Some(answer);
        }
        if let Some(wrong) = invocation.bad.take() {
            return Some(refuse(&wrong));
        }
        if ends {
            options_enabled = false;
        }
        if index >= arguments.len() {
            assert(words_read(
                invocation.model(),
                source,
                words,
                index as int + 1,
                options_enabled,
            ).1 is None);
            return None;
        }
        index += 1;
    }
    None
}

} // verus!
