//! What happens round one invocation's reads: which Makefiles are read, how
//! often, what its compiled graph is known by, and what the run reports.

use crate::artifact::{models, Writer};
use crate::bytes::{
    append, copied, copied_all, decimal, decimal_of, ended, holds, literal, maybe, number,
    read_number, terminated, text, texts, trim, trimmed,
};
use crate::cache::written_alike_is_the_same;
use crate::codec::{Blob, Coded, List, Octet};
use crate::command::{
    arguments_of, evaluated_build_options, evaluated_controls, evaluated_invocation, BuildOptions,
    CliError,
};
use crate::error::message;
use crate::invocation::{nothing_asked, Around, Invocation, Surroundings};
use crate::layout::blobs;
use crate::makeflags::words_in;
use crate::options::{ArgumentSource, JobLimit};
use crate::parsing::words_read;
use crate::paths::{is_standard_input, only_a_dash};
use crate::remake::{flushed_question, Settlement};
use crate::report::{
    abandoned, answered, duplicate_standard_input, finished, interrupted_run, ordinary_diagnostic,
    report_of, said, body_of, BuildFailure, Outcome, Reported, RunResult, ABANDONED,
};
use vstd::prelude::*;
use vstd::string::*;

verus! {

/// The makefiles that are read when no `-f` names one, the one that is looked
/// for first in front.
pub open spec fn default_names() -> Seq<Seq<u8>> {
    seq![text("GNUmakefile"), text("makefile"), text("Makefile")]
}

/// The names a makefile is looked for under when no `-f` names one, in order.
pub fn default_makefiles() -> (names: Vec<Vec<u8>>)
    ensures
        texts(names@) == default_names(),
{
    let mut names: Vec<Vec<u8>> = Vec::new();
    names.push(literal("GNUmakefile"));
    names.push(literal("makefile"));
    names.push(literal("Makefile"));
    assert(texts(names@) =~= default_names());
    names
}

/// The first of some names that is among the files of a directory.
pub open spec fn first_file(names: Seq<Seq<u8>>, files: Seq<Seq<u8>>) -> Option<Seq<u8>>
    decreases names.len(),
{
    if names.len() == 0 {
        None
    } else if files.contains(names[0]) {
        Some(names[0])
    } else {
        first_file(names.drop_first(), files)
    }
}

/// The first of the default makefiles that is among the files of a directory.
pub fn default_makefile(files: &[Vec<u8>]) -> (found: Option<Vec<u8>>)
    ensures
        maybe(found) == first_file(default_names(), texts(files@)),
{
    let names: Vec<Vec<u8>> = default_makefiles();
    let ghost all = texts(names@);
    let mut at: usize = 0;
    assert(all.skip(0) =~= all);
    while at < names.len()
        invariant
            at <= names@.len(),
            all == texts(names@),
            all == default_names(),
            first_file(all.skip(at as int), texts(files@)) == first_file(all, texts(files@)),
        decreases names@.len() - at,
    {
        assert(all.skip(at as int).drop_first() =~= all.skip(at as int + 1));
        assert(all.skip(at as int)[0] == names@[at as int]@);
        if holds(files, &names[at]) {
            return Some(copied(&names[at]));
        }
        at += 1;
    }
    None
}

/// Every Makefile an invocation reads, in the order it reads them: the ones it
/// named when it named any, and otherwise the one default the directory offers.
pub open spec fn read_makefiles(named: Seq<Seq<u8>>, files: Seq<Seq<u8>>) -> Seq<Seq<u8>> {
    if named.len() > 0 {
        named
    } else {
        match first_file(default_names(), files) {
            Some(name) => seq![name],
            None => Seq::empty(),
        }
    }
}

/// Every Makefile this invocation reads, in the order it reads them, `files`
/// being the files of the directory it reads in.
pub fn named_makefiles(invocation: &Invocation, files: &[Vec<u8>]) -> (makefiles: Vec<Vec<u8>>)
    ensures
        texts(makefiles@) == read_makefiles(invocation.model().makefiles, texts(files@)),
{
    if invocation.makefiles.len() > 0 {
        assert(texts(invocation.makefiles@).len() > 0);
        return copied_all(&invocation.makefiles);
    }
    let mut makefiles: Vec<Vec<u8>> = Vec::new();
    if let Some(name) = default_makefile(files) {
        makefiles.push(name);
    }
    assert(texts(makefiles@) =~= read_makefiles(invocation.model().makefiles, texts(files@)));
    makefiles
}

/// How many of some makefiles are standard input.
pub open spec fn inputs(makefiles: Seq<Seq<u8>>) -> nat
    decreases makefiles.len(),
{
    if makefiles.len() == 0 {
        0
    } else {
        inputs(makefiles.drop_last()) + (if only_a_dash(makefiles.last()) {
            1nat
        } else {
            0nat
        })
    }
}

/// What is done about the makefiles an invocation reads.
#[derive(Debug)]
pub enum Selection {
    /// There is none.
    Nothing,
    /// Standard input is named more than once, which cannot be told apart once
    /// it has been drained.
    Refused(RunResult),
    /// They are read, standard input being drained first where one of them is
    /// it.
    Read { drains_input: bool },
}

/// What is done about the makefiles an invocation reads.
pub fn selected(makefiles: &[Vec<u8>]) -> (selection: Selection)
    ensures
        makefiles@.len() == 0 ==> selection is Nothing,
        makefiles@.len() > 0 && inputs(texts(makefiles@)) > 1 ==> selection is Refused
            && selection->Refused_0.model() == (Reported {
            stdout: Seq::empty(),
            stderr: said(body_of(text("Makefile from standard input specified twice"))).push(0x0a),
            exit_code: ABANDONED,
        }),
        makefiles@.len() > 0 && inputs(texts(makefiles@)) <= 1 ==> selection == (Selection::Read {
            drains_input: inputs(texts(makefiles@)) == 1,
        }),
{
    if makefiles.len() == 0 {
        return Selection::Nothing;
    }
    let ghost all = texts(makefiles@);
    let mut count: usize = 0;
    let mut at: usize = 0;
    assert(all.take(0) =~= Seq::empty());
    while at < makefiles.len()
        invariant
            at <= makefiles@.len(),
            all == texts(makefiles@),
            count == inputs(all.take(at as int)),
            count <= at,
        decreases makefiles@.len() - at,
    {
        let ghost next = all.take(at as int + 1);
        assert(next.drop_last() =~= all.take(at as int));
        assert(next.last() == makefiles@[at as int]@);
        if is_standard_input(&makefiles[at]) {
            count += 1;
        }
        at += 1;
    }
    assert(all.take(at as int) =~= all);
    if count > 1 {
        return Selection::Refused(duplicate_standard_input());
    }
    Selection::Read { drains_input: count == 1 }
}

/// How deep in a recursive Make tree an invocation is: what `MAKELEVEL` spells,
/// and the top where it spells no number or is not there.
pub fn level_of(makelevel: Option<&[u8]>) -> (level: usize)
    ensures
        level == (match makelevel {
            Some(spelled) => match number(trimmed(spelled@), usize::MAX as nat) {
                Some(value) => value as usize,
                None => 0,
            },
            None => 0,
        }),
{
    match makelevel {
        Some(spelled) => match read_number(&trim(spelled), usize::MAX as u64) {
            Some(value) => value as usize,
            None => 0,
        },
        None => 0,
    }
}

/// How many times a read is started before it is given up.
pub const READ_LIMIT: usize = 100;

/// How often one invocation has been read.
#[derive(Clone, Copy, PartialEq, Eq, Structural, Debug)]
pub struct Reads {
    /// How many reads were started.
    pub started: usize,
    /// How many of them were started over because a Makefile moved.
    pub restarts: usize,
}

/// What follows one read.
#[derive(Debug)]
pub enum AfterRead {
    /// The next one.
    Again,
    /// Nothing: too many were started.
    GaveUp,
    /// The end of the run.
    Finished(RunResult),
    /// The build of the goals.
    Build,
}

impl Reads {
    /// A Makefile moves at most once for each read that was started.
    pub open spec fn wf(self) -> bool {
        self.restarts <= self.started <= READ_LIMIT
    }

    /// No read has been started.
    pub fn none() -> (reads: Self)
        ensures
            reads.wf(),
            reads.started == 0,
            reads.restarts == 0,
    {
        Reads { started: 0, restarts: 0 }
    }

    /// What follows a read that was settled one way.
    ///
    /// A read started over because a Makefile moved is counted, and is what the
    /// Makefile is told in `MAKE_RESTARTS`. One that goes on from staged work
    /// is not: nothing it consulted moved.
    pub fn settle(&mut self, settlement: Settlement) -> (next: AfterRead)
        requires
            old(self).wf(),
            old(self).started < READ_LIMIT,
        ensures
            final(self).wf(),
            final(self).started == old(self).started + 1,
            final(self).restarts == old(self).restarts + (if settlement is Restart {
                1int
            } else {
                0
            }),
            match settlement {
                Settlement::Finished(result) => next == AfterRead::Finished(result),
                Settlement::Settled => next is Build,
                _ => if final(self).started < READ_LIMIT {
                    next is Again
                } else {
                    next is GaveUp
                },
            },
    {
        self.started = self.started + 1;
        match settlement {
            Settlement::Finished(result) => AfterRead::Finished(result),
            Settlement::Settled => AfterRead::Build,
            Settlement::Restart => {
                self.restarts = self.restarts + 1;
                if self.started < READ_LIMIT {
                    AfterRead::Again
                } else {
                    AfterRead::GaveUp
                }
            },
            Settlement::Staged => if self.started < READ_LIMIT {
                AfterRead::Again
            } else {
                AfterRead::GaveUp
            },
        }
    }
}

/// Hand on what the compiler has raised since it was last asked, as what is to
/// be written now: all of it where there is somewhere to stream it to, and
/// nothing where it is held for the end of the run instead.
pub fn emit_raised(rendered: Vec<u8>, streaming: bool, held: &mut Vec<u8>) -> (written: Vec<u8>)
    ensures
        streaming ==> written@ == rendered@ && final(held)@ == old(held)@,
        !streaming ==> written@ == Seq::<u8>::empty() && final(held)@ == old(held)@ + rendered@,
{
    if streaming {
        return rendered;
    }
    append(held, &rendered);
    let none: Vec<u8> = Vec::new();
    assert(none@ =~= Seq::empty());
    none
}

/// A result with what was held in front of its diagnostics.
pub open spec fn led_by(held: Seq<u8>, result: Reported) -> Reported {
    Reported { stderr: held + result.stderr, ..result }
}

/// A refusal with whatever the read raised on its way to it in front of it.
///
/// Where it was streamed the order is the stream's already; where it was held,
/// the two share one buffer and the order is made here.
pub fn led_by_raised(refusal: RunResult, streaming: bool, held: &mut Vec<u8>) -> (result: RunResult)
    ensures
        streaming ==> result.model() == refusal.model() && final(held)@ == old(held)@,
        !streaming ==> result.model() == led_by(old(held)@, refusal.model()) && final(held)@
            == Seq::<u8>::empty(),
{
    if streaming {
        return refusal;
    }
    let mut stderr: Vec<u8> = copied(held);
    append(&mut stderr, &refusal.stderr);
    *held = Vec::new();
    assert(held@ =~= Seq::empty());
    RunResult { stdout: refusal.stdout, stderr, exit_code: refusal.exit_code }
}

/// What reading the root unit came to.
#[derive(Debug)]
pub enum Loaded {
    /// It did not evaluate, and this is what the evaluator says.
    Failed(Vec<u8>),
    /// It did, leaving this `MAKEFLAGS`.
    Read {
        makeflags: Vec<u8>,
        /// Whether there is a Makefile to remake or work a recursive unit waits
        /// for.
        regenerates: bool,
    },
}

/// What follows a read.
#[derive(Debug)]
pub enum AfterLoading {
    /// The end of the run.
    Finished(RunResult),
    /// The end of the run: `MAKEFLAGS` as the Makefiles left it describes none.
    Undescribed(CliError),
    /// The build of the goals, under these switches.
    Ready { invocation: Invocation, options: BuildOptions },
    /// The read's own inputs first, under these switches.
    Inputs { invocation: Invocation, options: BuildOptions },
}

/// What a makefile that does not evaluate is reported as: the evaluator's own
/// words, which name the program already.
pub open spec fn unread(reported: Seq<u8>, failure: Seq<u8>) -> Reported {
    Reported {
        stdout: ended(reported),
        stderr: said(body_of(failure)).push(0x0a),
        exit_code: ABANDONED,
    }
}

/// What a makefile that does not evaluate is reported as.
pub fn evaluated(reported: &[u8], failure: &[u8]) -> (result: RunResult)
    ensures
        result.model() == unread(reported@, failure@),
{
    RunResult {
        stdout: terminated(copied(reported)),
        stderr: ordinary_diagnostic(failure),
        exit_code: ABANDONED,
    }
}

/// Whether switches are those a `MAKEFLAGS` leaves, beside options that have
/// taken them in.
pub open spec fn settled_by(
    makeflags: Seq<u8>,
    initial: BuildOptions,
    around: Around,
    invocation: Invocation,
    options: BuildOptions,
) -> bool {
    &&& words_read(
        nothing_asked(around),
        ArgumentSource::Makefile,
        arguments_of(words_in(makeflags, true)),
        1,
        true,
    ) == (invocation.model(), None::<Reported>)
    &&& options.model() == evaluated_controls(initial, invocation.model())
}

/// What follows a read of the root unit, `raised` being what the compiler raised
/// on its way. What is to be written now comes with it.
///
/// A refusal has what was raised in front of it. A read with nothing to remake
/// is the one the goals are built from.
pub fn prepare_graph(
    loaded: Loaded,
    raised: Vec<u8>,
    streaming: bool,
    held: &mut Vec<u8>,
    reported: &[u8],
    initial: &BuildOptions,
    around: Surroundings,
) -> (next: (Vec<u8>, AfterLoading))
    ensures
        streaming ==> next.0@ == raised@ && final(held)@ == old(held)@,
        !streaming ==> next.0@ == Seq::<u8>::empty(),
        match loaded {
            Loaded::Failed(failure) => {
                &&& next.1 matches AfterLoading::Finished(result) && result.model() == (
                if streaming {
                    unread(reported@, failure@)
                } else {
                    led_by(old(held)@ + raised@, unread(reported@, failure@))
                })
                &&& !streaming ==> final(held)@ == Seq::<u8>::empty()
            },
            Loaded::Read { makeflags, regenerates } => {
                let (settled, answer) = words_read(
                    nothing_asked(around.model()),
                    ArgumentSource::Makefile,
                    arguments_of(words_in(makeflags@, true)),
                    1,
                    true,
                );
                &&& !streaming ==> final(held)@ == old(held)@ + raised@
                &&& match answer {
                    Some(_) => next.1 == AfterLoading::Undescribed(CliError::InvalidParameter),
                    None => if regenerates {
                        next.1 matches AfterLoading::Inputs { invocation, options } && settled_by(
                            makeflags@,
                            *initial,
                            around.model(),
                            invocation,
                            options,
                        )
                    } else {
                        next.1 matches AfterLoading::Ready { invocation, options } && settled_by(
                            makeflags@,
                            *initial,
                            around.model(),
                            invocation,
                            options,
                        )
                    },
                }
            },
        },
{
    let written: Vec<u8> = emit_raised(raised, streaming, held);
    match loaded {
        Loaded::Failed(failure) => {
            let refusal: RunResult = evaluated(reported, &failure);
            (written, AfterLoading::Finished(led_by_raised(refusal, streaming, held)))
        },
        Loaded::Read { makeflags, regenerates } => match evaluated_invocation(&makeflags, around) {
            Err(wrong) => (written, AfterLoading::Undescribed(wrong)),
            Ok(invocation) => {
                let options: BuildOptions = evaluated_build_options(initial, &invocation);
                if regenerates {
                    (written, AfterLoading::Inputs { invocation, options })
                } else {
                    (written, AfterLoading::Ready { invocation, options })
                }
            },
        },
    }
}

/// How the build of the goals ended.
#[derive(Debug)]
pub enum Ending {
    /// A question was answered, or could not be.
    Answered(Result<bool, BuildFailure>),
    /// The build could not be planned or run.
    Failed(BuildFailure),
    /// It ran, or there was nothing to run.
    Ran { up_to_date: bool, outcome: Outcome },
}

/// What a run reports once the goals have been built or asked about.
pub fn concluded(
    reported: Vec<u8>,
    ending: Ending,
    flushed: Result<(), BuildFailure>,
    keep_going: bool,
    silent: bool,
    interrupted: bool,
) -> (result: Result<RunResult, BuildFailure>)
    ensures
        match ending {
            Ending::Answered(question) => {
                &&& result is Ok
                &&& result->Ok_0.model() == (if interrupted {
                    interrupted_run(reported@)
                } else {
                    match flushed_question(question, flushed) {
                        Ok(up_to_date) => Reported {
                            stdout: ended(reported@),
                            stderr: Seq::empty(),
                            exit_code: if up_to_date {
                                0
                            } else {
                                1
                            },
                        },
                        Err(failure) => Reported {
                            stdout: ended(reported@),
                            stderr: ended(said(failure.said@)),
                            exit_code: if keep_going && failure.refused_a_questioned_makefile {
                                1
                            } else {
                                2
                            },
                        },
                    }
                })
            },
            Ending::Failed(failure) => result is Ok && result->Ok_0.model() == (Reported {
                stdout: ended(reported@),
                stderr: ended(said(failure.said@)),
                exit_code: ABANDONED,
            }),
            Ending::Ran { up_to_date, outcome } => match flushed {
                Err(failure) => result == Err::<RunResult, BuildFailure>(failure),
                Ok(_) => result is Ok && result->Ok_0.model() == report_of(
                    reported@,
                    up_to_date,
                    outcome,
                    silent,
                    Seq::empty(),
                ),
            },
        },
{
    match ending {
        Ending::Answered(question) => {
            let flushed_answer: Result<bool, BuildFailure> = match question {
                Err(failure) => Err(failure),
                Ok(up_to_date) => match flushed {
                    Ok(_) => Ok(up_to_date),
                    Err(failure) => Err(failure),
                },
            };
            Ok(answered(reported, flushed_answer, keep_going, interrupted))
        },
        Ending::Failed(failure) => Ok(abandoned(reported, &failure.said)),
        Ending::Ran { up_to_date, outcome } => match flushed {
            Err(failure) => Err(failure),
            Ok(_) => Ok(finished(reported, up_to_date, &outcome, silent)),
        },
    }
}

/// A job limit as a composition is known by it.
pub open spec fn jobs_shown(jobs: Option<JobLimit>) -> Seq<u8> {
    match jobs {
        None => text("None"),
        Some(JobLimit::Auto) => text("Some(Auto)"),
        Some(JobLimit::Unlimited) => text("Some(Unlimited)"),
        Some(JobLimit::Fixed(count)) => text("Some(Fixed(") + decimal(count as nat) + text("))"),
    }
}

fn show_jobs(jobs: Option<JobLimit>) -> (shown: Vec<u8>)
    ensures
        shown@ == jobs_shown(jobs),
{
    match jobs {
        None => literal("None"),
        Some(JobLimit::Auto) => literal("Some(Auto)"),
        Some(JobLimit::Unlimited) => literal("Some(Unlimited)"),
        Some(JobLimit::Fixed(count)) => {
            let mut shown: Vec<u8> = message("Some(Fixed(", &decimal_of(count as u64));
            append(&mut shown, "))".as_bytes());
            shown
        },
    }
}

/// What makes one composition a different one, as its model: the makefiles, the
/// directories and the statements that say what is read, the words that say how,
/// every switch given and taken back, and the job counts.
pub type CompositionModel = (
    (List<Blob>, (List<Blob>, List<Blob>)),
    (
        (List<Blob>, (List<Blob>, List<Blob>)),
        (Blob, (((Octet, Octet), (Octet, Octet)), (Blob, Blob))),
    ),
);

/// The two bytes of a set of switches, the low one first.
pub open spec fn switch_bytes(bits: u16) -> (Octet, Octet) {
    (Octet { value: (bits % 256) as u8 }, Octet { value: (bits / 256) as u8 })
}

/// What makes one composition a different one.
pub open spec fn composition_model(invocation: Invocation) -> CompositionModel {
    let settings = invocation.model();
    (
        (blobs(settings.makefiles), (blobs(settings.include_dirs), blobs(settings.evals))),
        (
            (
                blobs(settings.debug),
                (blobs(settings.assumed_new), blobs(settings.assumed_old)),
            ),
            (
                Blob { data: settings.shuffle_spelling.unwrap_or(Seq::empty()) },
                (
                    (switch_bytes(invocation.switches), switch_bytes(invocation.negated)),
                    (
                        Blob { data: jobs_shown(settings.jobs) },
                        Blob { data: jobs_shown(settings.inherited_jobs) },
                    ),
                ),
            ),
        ),
    )
}

fn put_names(w: &mut Writer, names: &[Vec<u8>])
    ensures
        blobs(texts(names@)).carried(),
        final(w).out@ == old(w).out@ + blobs(texts(names@)).written(),
{
    assert(models(names@) =~= blobs(texts(names@)).items);
    w.names(names);
}

fn put_bits(w: &mut Writer, bits: u16)
    ensures
        final(w).out@ == old(w).out@ + switch_bytes(bits).written(),
{
    let ghost before = w.out@;
    w.u8((bits % 256) as u8);
    w.u8((bits / 256) as u8);
    assert(w.out@ =~= before + switch_bytes(bits).written());
}

/// The bytes one invocation's composition is known by, beside the directory it
/// runs in, its variables and its goals.
///
/// Every switch is in it, given and taken back. A key too narrow is two
/// compilations sharing one graph, and one too wide is a read that was not
/// needed.
pub fn composition_key(invocation: &Invocation) -> (key: Vec<u8>)
    ensures
        key@ == composition_model(*invocation).written(),
        composition_model(*invocation).carried(),
{
    let mut w: Writer = Writer { out: Vec::new() };
    put_names(&mut w, &invocation.makefiles);
    put_names(&mut w, &invocation.include_dirs);
    put_names(&mut w, &invocation.evals);
    let ghost sources = w.out@;
    put_names(&mut w, &invocation.debug);
    put_names(&mut w, &invocation.assumed_new);
    put_names(&mut w, &invocation.assumed_old);
    match &invocation.shuffle_spelling {
        Some(spelling) => {
            w.bytes(spelling);
        },
        None => {
            let none: Vec<u8> = Vec::new();
            assert(none@ =~= Seq::empty());
            w.bytes(&none);
        },
    }
    put_bits(&mut w, invocation.switches);
    put_bits(&mut w, invocation.negated);
    w.bytes(&show_jobs(invocation.jobs));
    w.bytes(&show_jobs(invocation.inherited_jobs));
    proof {
        let model = composition_model(*invocation);
        assert(sources =~= model.0.written());
        assert(w.out@ =~= model.written());
    }
    w.out
}

proof fn decimals_differ(left: nat, right: nat)
    requires
        decimal(left) == decimal(right),
    ensures
        left == right,
    decreases left + right,
{
    let (mine, theirs) = (decimal(left), decimal(right));
    if left < 10 && right < 10 {
        assert(mine[0] == theirs[0]);
    } else if left < 10 {
        some_digits(right / 10);
        assert(mine.len() == 1);
    } else if right < 10 {
        some_digits(left / 10);
        assert(theirs.len() == 1);
    } else {
        assert(mine.drop_last() =~= decimal(left / 10));
        assert(theirs.drop_last() =~= decimal(right / 10));
        assert(mine.last() == theirs.last());
        decimals_differ(left / 10, right / 10);
    }
}

proof fn some_digits(value: nat)
    ensures
        decimal(value).len() > 0,
    decreases value,
{
    if value >= 10 {
        some_digits(value / 10);
    }
}

proof fn shown_apart(left: Option<JobLimit>, right: Option<JobLimit>)
    requires
        jobs_shown(left) == jobs_shown(right),
    ensures
        left == right,
{
    reveal_strlit("None");
    reveal_strlit("Some(Auto)");
    reveal_strlit("Some(Unlimited)");
    reveal_strlit("Some(Fixed(");
    reveal_strlit("))");
    assert(text("None").len() == 4 && text("None")[0] == 0x4e) by {
        is_ascii_spec_bytes("None");
    }
    assert(text("Some(Auto)").len() == 10 && text("Some(Auto)")[0] == 0x53 && text("Some(Auto)")[5]
        == 0x41) by {
        is_ascii_spec_bytes("Some(Auto)");
    }
    assert(text("Some(Unlimited)").len() == 15 && text("Some(Unlimited)")[0] == 0x53 && text(
        "Some(Unlimited)",
    )[5] == 0x55) by {
        is_ascii_spec_bytes("Some(Unlimited)");
    }
    assert(text("Some(Fixed(").len() == 11 && text("Some(Fixed(")[0] == 0x53 && text("Some(Fixed(")[5]
        == 0x46) by {
        is_ascii_spec_bytes("Some(Fixed(");
    }
    let (mine, theirs) = (jobs_shown(left), jobs_shown(right));
    assert(mine[0] == theirs[0]);
    if left is Some && right is Some {
        assert(mine[5] == theirs[5]);
        if left->0 is Fixed && right->0 is Fixed {
            let (one, other) = (left->0->Fixed_0, right->0->Fixed_0);
            let end = mine.len() - text("))").len();
            assert(mine.subrange(11, end) =~= decimal(one as nat));
            assert(theirs.subrange(11, end) =~= decimal(other as nat));
            decimals_differ(one as nat, other as nat);
        }
    }
}

proof fn listed_alike(left: Seq<Seq<u8>>, right: Seq<Seq<u8>>)
    requires
        blobs(left) == blobs(right),
    ensures
        left == right,
{
    let (mine, theirs) = (blobs(left).items, blobs(right).items);
    assert(mine.len() == left.len());
    assert(theirs.len() == right.len());
    assert forall|i: int| 0 <= i < left.len() implies left[i] == right[i] by {
        assert(mine[i].data == left[i]);
        assert(theirs[i].data == right[i]);
    }
    assert(left =~= right);
}

/// Invocations whose compositions are known by the same bytes read the same
/// makefiles, under the same switches, with the same job counts.
pub proof fn different_compositions_have_different_keys(left: Invocation, right: Invocation)
    requires
        composition_model(left).carried(),
        composition_model(right).carried(),
        composition_model(left).written() == composition_model(right).written(),
    ensures
        left.model().makefiles == right.model().makefiles,
        left.model().include_dirs == right.model().include_dirs,
        left.model().evals == right.model().evals,
        left.model().debug == right.model().debug,
        left.model().assumed_new == right.model().assumed_new,
        left.model().assumed_old == right.model().assumed_old,
        left.model().shuffle_spelling.unwrap_or(Seq::empty())
            == right.model().shuffle_spelling.unwrap_or(Seq::empty()),
        left.switches == right.switches,
        left.negated == right.negated,
        left.model().jobs == right.model().jobs,
        left.model().inherited_jobs == right.model().inherited_jobs,
{
    let (mine, theirs) = (composition_model(left), composition_model(right));
    written_alike_is_the_same(mine, theirs);
    listed_alike(left.model().makefiles, right.model().makefiles);
    listed_alike(left.model().include_dirs, right.model().include_dirs);
    listed_alike(left.model().evals, right.model().evals);
    listed_alike(left.model().debug, right.model().debug);
    listed_alike(left.model().assumed_new, right.model().assumed_new);
    listed_alike(left.model().assumed_old, right.model().assumed_old);
    assert(switch_bytes(left.switches) == switch_bytes(right.switches));
    assert(switch_bytes(left.negated) == switch_bytes(right.negated));
    shown_apart(left.model().jobs, right.model().jobs);
    shown_apart(left.model().inherited_jobs, right.model().inherited_jobs);
}

} // verus!
