//! What a Make run reports: its output, its diagnostics and its status.

use crate::bytes::{
    after_prefix, append, copied, ended, ends, ends_with, find_text, literal, maybe, part, replace,
    replaced, strip_prefix, terminated, text, text_at, texts,
};
use vstd::prelude::*;
use vstd::string::*;

verus! {

/// What an invocation that gives up exits with, whatever the reason was. One
/// is not a failure here: it is the answer `-q` gives to a question.
pub const ABANDONED: i32 = 2;

/// What an invocation the user stopped exits with.
pub const INTERRUPTED_EXIT_CODE: i32 = 130;

/// What one run leaves its caller with.
#[derive(Debug)]
pub struct RunResult {
    pub stdout: Vec<u8>,
    pub stderr: Vec<u8>,
    pub exit_code: i32,
}

/// A run's result, as its model.
pub ghost struct Reported {
    pub stdout: Seq<u8>,
    pub stderr: Seq<u8>,
    pub exit_code: i32,
}

impl RunResult {
    /// The result as its model.
    pub open spec fn model(&self) -> Reported {
        Reported { stdout: self.stdout@, stderr: self.stderr@, exit_code: self.exit_code }
    }
}

/// Why a build could not be planned or run.
#[derive(Debug)]
pub struct BuildFailure {
    /// What is said of it.
    pub said: Vec<u8>,
    /// Whether it is a refusal over a makefile that `-q` only asked about.
    pub refused_a_questioned_makefile: bool,
}

/// What a build that ran came to.
#[derive(Debug)]
pub struct Outcome {
    /// What the build wrote.
    pub output: Vec<u8>,
    /// Why the front end rejected a recipe as its edge was launched.
    pub front_end_diagnostic: Option<Vec<u8>>,
    /// Why the build stopped, where it stopped short.
    pub stopped: Option<Vec<u8>>,
    pub exit_code: i32,
    /// Whether the user stopped it.
    pub interrupted: bool,
    pub ran_a_command: bool,
    /// The targets whose own recipe ran and lost.
    pub unmade: Vec<usize>,
    /// The targets that were made.
    pub regenerated: Vec<usize>,
}

/// The name the program reports itself under.
pub open spec fn product() -> Seq<u8> {
    text("ronin")
}

/// One diagnostic: the product's name, and what it has to say.
pub open spec fn said(message: Seq<u8>) -> Seq<u8> {
    text("ronin: ") + message
}

/// One diagnostic: the product's name, and what it has to say.
pub fn diagnostic(message: &[u8]) -> (line: Vec<u8>)
    ensures
        line@ == said(message@),
{
    let mut line: Vec<u8> = literal("ronin: ");
    append(&mut line, message);
    line
}

/// What is left of a failure's text without the product's name in front of it,
/// which may carry a bracketed level.
pub open spec fn unprefixed(failure: Seq<u8>) -> Seq<u8> {
    match after_prefix(failure, text("ronin")) {
        Some(rest) => match after_prefix(rest, text(": ")) {
            Some(message) => message,
            None => match after_prefix(rest, text("[")) {
                Some(level) => match text_at(level, text(": "), 0) {
                    Some(at) => level.skip(at + text(": ").len()),
                    None => failure,
                },
                None => failure,
            },
        },
        None => failure,
    }
}

/// The compiler's own words for a rejection, with the runner's ceremony taken
/// off: the product's name, the stars and the `Stop.`.
pub open spec fn body_of(failure: Seq<u8>) -> Seq<u8> {
    let plain = replaced(unprefixed(failure), 0, text(": *** "), text(": "));
    let unstarred = match after_prefix(plain, text("*** ")) {
        Some(rest) => rest,
        None => plain,
    };
    if ends(unstarred, text("  Stop.")) {
        unstarred.take(unstarred.len() - text("  Stop.").len())
    } else {
        unstarred
    }
}

/// The compiler's own words for a rejection, for a caller that will put the
/// product's name in front of them.
pub fn diagnostic_body(failure: &[u8]) -> (body: Vec<u8>)
    ensures
        body@ == body_of(failure@),
{
    let mut plain: Vec<u8> = copied(failure);
    if let Some(rest) = strip_prefix(failure, "ronin".as_bytes()) {
        match strip_prefix(&rest, ": ".as_bytes()) {
            Some(message) => {
                plain = message;
            },
            None => {
                if let Some(level) = strip_prefix(&rest, "[".as_bytes()) {
                    let wanted: &[u8] = ": ".as_bytes();
                    let total: usize = level.len();
                    if let Some(at) = find_text(&level, wanted, 0) {
                        plain = part(&level, at + wanted.len(), total);
                        assert(plain@ =~= level@.skip(at + text(": ").len()));
                    }
                }
            },
        }
    }
    assert(plain@ == unprefixed(failure@));
    let mut body: Vec<u8> = replace(&plain, ": *** ".as_bytes(), ": ".as_bytes());
    if let Some(rest) = strip_prefix(&body, "*** ".as_bytes()) {
        body = rest;
    }
    let stop: &[u8] = "  Stop.".as_bytes();
    if ends_with(&body, stop) {
        let short: Vec<u8> = part(&body, 0, body.len() - stop.len());
        assert(short@ =~= body@.take(body@.len() - text("  Stop.").len()));
        return short;
    }
    body
}

/// Render a compiler rejection as one ordinary diagnostic line.
pub fn ordinary_diagnostic(failure: &[u8]) -> (line: Vec<u8>)
    ensures
        line@ == said(body_of(failure@)).push(0x0a),
{
    let mut line: Vec<u8> = diagnostic(&diagnostic_body(failure));
    line.push(0x0a);
    line
}

/// What an invocation that names standard input twice reports.
pub fn duplicate_standard_input() -> (result: RunResult)
    ensures
        result.model() == (Reported {
            stdout: Seq::empty(),
            stderr: said(body_of(text("Makefile from standard input specified twice"))).push(0x0a),
            exit_code: ABANDONED,
        }),
{
    let stdout: Vec<u8> = Vec::new();
    assert(stdout@ =~= Seq::empty());
    RunResult {
        stdout,
        stderr: ordinary_diagnostic("Makefile from standard input specified twice".as_bytes()),
        exit_code: ABANDONED,
    }
}

/// What an invocation that could not go on reports: what was narrated, the
/// failure, and the one status for every way of not building.
pub fn abandoned(reported: Vec<u8>, failure: &[u8]) -> (result: RunResult)
    ensures
        result.model() == (Reported {
            stdout: ended(reported@),
            stderr: ended(said(failure@)),
            exit_code: ABANDONED,
        }),
{
    RunResult {
        stdout: terminated(reported),
        stderr: terminated(diagnostic(failure)),
        exit_code: ABANDONED,
    }
}

/// What a run the user stopped reports.
pub open spec fn interrupted_run(reported: Seq<u8>) -> Reported {
    Reported {
        stdout: ended(reported),
        stderr: Seq::empty(),
        exit_code: INTERRUPTED_EXIT_CODE,
    }
}

/// What a read the user stopped reports: what it narrated before the signal,
/// no diagnostic, and the interrupt's own status.
pub fn cut_short(reported: Vec<u8>) -> (result: RunResult)
    ensures
        result.model() == interrupted_run(reported@),
{
    let stderr: Vec<u8> = Vec::new();
    assert(stderr@ =~= Seq::empty());
    RunResult { stdout: terminated(reported), stderr, exit_code: INTERRUPTED_EXIT_CODE }
}

/// The diagnostics of refusals, each behind the complaint held for it.
pub open spec fn refusal_lines(refusals: Seq<(Option<Vec<u8>>, Vec<u8>)>) -> Seq<u8>
    decreases refusals.len(),
{
    if refusals.len() == 0 {
        Seq::empty()
    } else {
        let last = refusals.last();
        refusal_lines(refusals.drop_last()) + (match maybe(last.0) {
            Some(complaint) => complaint.push(0x0a),
            None => Seq::empty(),
        }) + said(body_of(last.1@)).push(0x0a)
    }
}

/// What a run that ended over a required Makefile nothing can make reports:
/// what the remaking narrated, and each refusal behind its complaint.
pub fn refused_makefile(reported: Vec<u8>, refusals: &[(Option<Vec<u8>>, Vec<u8>)]) -> (result:
    RunResult)
    ensures
        result.model() == (Reported {
            stdout: ended(reported@),
            stderr: refusal_lines(refusals@),
            exit_code: ABANDONED,
        }),
{
    let mut stderr: Vec<u8> = Vec::new();
    let mut at: usize = 0;
    assert(refusals@.take(0) =~= Seq::empty());
    while at < refusals.len()
        invariant
            at <= refusals@.len(),
            stderr@ == refusal_lines(refusals@.take(at as int)),
        decreases refusals@.len() - at,
    {
        let ghost before = stderr@;
        let ghost next = refusals@.take(at as int + 1);
        assert(next.drop_last() =~= refusals@.take(at as int));
        if let Some(complaint) = &refusals[at].0 {
            append(&mut stderr, complaint);
            stderr.push(0x0a);
        }
        append(&mut stderr, &ordinary_diagnostic(&refusals[at].1));
        assert(stderr@ =~= refusal_lines(next));
        at += 1;
    }
    assert(refusals@.take(at as int) =~= refusals@);
    RunResult { stdout: terminated(reported), stderr, exit_code: ABANDONED }
}

/// What `-q` reports.
///
/// Zero says the goals are up to date and one that something would have to run.
/// A question that could not be answered is two, except that under `-k` a
/// refusal over a makefile that was only asked about is one. A question the
/// user stopped was not answered, and reports that instead.
pub fn answered(
    reported: Vec<u8>,
    question: Result<bool, BuildFailure>,
    keep_going: bool,
    interrupted: bool,
) -> (result: RunResult)
    ensures
        result.model() == (if interrupted {
            interrupted_run(reported@)
        } else {
            match question {
                Ok(up_to_date) => Reported {
                    stdout: ended(reported@),
                    stderr: Seq::empty(),
                    exit_code: if up_to_date {
                        0
                    } else {
                        1
                    },
                },
                Err(failure) => Reported {
                    stdout: ended(reported@),
                    stderr: ended(said(failure.said@)),
                    exit_code: if keep_going && failure.refused_a_questioned_makefile {
                        1
                    } else {
                        2
                    },
                },
            }
        }),
{
    if interrupted {
        return cut_short(reported);
    }
    match question {
        Ok(up_to_date) => {
            let stderr: Vec<u8> = Vec::new();
            assert(stderr@ =~= Seq::empty());
            RunResult {
                stdout: terminated(reported),
                stderr,
                exit_code: if up_to_date {
                    0
                } else {
                    1
                },
            }
        },
        Err(failure) => RunResult {
            stdout: terminated(reported),
            stderr: terminated(diagnostic(&failure.said)),
            exit_code: if keep_going && failure.refused_a_questioned_makefile {
                1
            } else {
                2
            },
        },
    }
}

/// The status a build leaves with once it has run.
pub open spec fn status_of(outcome: Outcome) -> i32 {
    if outcome.exit_code == 0 {
        0
    } else if outcome.interrupted {
        INTERRUPTED_EXIT_CODE
    } else {
        ABANDONED
    }
}

/// The status a build leaves with once it has run: a failing command's own
/// status is not passed on, and an interrupt is read rather than inferred from
/// a number.
pub fn stopped_status(outcome: &Outcome) -> (status: i32)
    ensures
        status == status_of(*outcome),
{
    if outcome.exit_code == 0 {
        return 0;
    }
    if outcome.interrupted {
        return INTERRUPTED_EXIT_CODE;
    }
    ABANDONED
}

/// Each line with a newline behind it.
pub open spec fn lines(complaints: Seq<Seq<u8>>) -> Seq<u8>
    decreases complaints.len(),
{
    if complaints.len() == 0 {
        Seq::empty()
    } else {
        lines(complaints.drop_last()) + complaints.last().push(0x0a)
    }
}

/// What a build that ran reports, with the complaints a lost remake released.
pub open spec fn report_of(
    reported: Seq<u8>,
    up_to_date: bool,
    outcome: Outcome,
    silent: bool,
    complaints: Seq<Seq<u8>>,
) -> Reported {
    let written = ended(reported) + outcome.output@;
    match maybe(outcome.front_end_diagnostic) {
        Some(rejected) => Reported {
            stdout: written,
            stderr: said(body_of(rejected)).push(0x0a),
            exit_code: ABANDONED,
        },
        None => Reported {
            stdout: match maybe(outcome.stopped) {
                Some(reason) => written + text("ronin: build stopped: ") + reason + text(".\n"),
                None => if (up_to_date || !outcome.ran_a_command) && written.len() == 0 && !silent {
                    written + text("ronin: no work to do.\n")
                } else {
                    written
                },
            },
            stderr: lines(complaints),
            exit_code: status_of(outcome),
        },
    }
}

/// What the invocation reports about a build that ran, with the complaints a
/// lost remake released.
pub fn complained_of(
    reported: Vec<u8>,
    up_to_date: bool,
    outcome: &Outcome,
    silent: bool,
    complaints: &[Vec<u8>],
) -> (result: RunResult)
    ensures
        result.model() == report_of(
            reported@,
            up_to_date,
            *outcome,
            silent,
            texts(complaints@),
        ),
{
    let mut stdout: Vec<u8> = terminated(reported);
    append(&mut stdout, &outcome.output);
    if let Some(rejected) = &outcome.front_end_diagnostic {
        return RunResult {
            stdout,
            stderr: ordinary_diagnostic(rejected),
            exit_code: ABANDONED,
        };
    }
    let ghost all = texts(complaints@);
    let mut stderr: Vec<u8> = Vec::new();
    let mut at: usize = 0;
    assert(all.take(0) =~= Seq::empty());
    while at < complaints.len()
        invariant
            at <= complaints@.len(),
            all == texts(complaints@),
            stderr@ == lines(all.take(at as int)),
        decreases complaints@.len() - at,
    {
        let ghost next = all.take(at as int + 1);
        assert(next.drop_last() =~= all.take(at as int));
        assert(next.last() == complaints@[at as int]@);
        append(&mut stderr, &complaints[at]);
        stderr.push(0x0a);
        assert(stderr@ =~= lines(next));
        at += 1;
    }
    assert(all.take(at as int) =~= all);
    if let Some(reason) = &outcome.stopped {
        append(&mut stdout, "ronin: build stopped: ".as_bytes());
        append(&mut stdout, reason);
        append(&mut stdout, ".\n".as_bytes());
    } else if (up_to_date || !outcome.ran_a_command) && stdout.len() == 0 && !silent {
        append(&mut stdout, "ronin: no work to do.\n".as_bytes());
    }
    RunResult { stdout, stderr, exit_code: stopped_status(outcome) }
}

/// What the invocation reports about a build that ran.
pub fn finished(reported: Vec<u8>, up_to_date: bool, outcome: &Outcome, silent: bool) -> (result:
    RunResult)
    ensures
        result.model() == report_of(reported@, up_to_date, *outcome, silent, Seq::empty()),
{
    let none: Vec<Vec<u8>> = Vec::new();
    assert(texts(none@) =~= Seq::empty());
    complained_of(reported, up_to_date, outcome, silent, &none)
}

/// Which of the files a build invented on the way are thrown away: every one,
/// or none where nothing is to be swept.
pub fn discard_intermediates(disposable: Vec<Vec<u8>>, swept_by_nothing: bool) -> (removed: Vec<
    Vec<u8>,
>)
    ensures
        texts(removed@) == (if swept_by_nothing {
            Seq::empty()
        } else {
            texts(disposable@)
        }),
{
    if swept_by_nothing {
        let none: Vec<Vec<u8>> = Vec::new();
        assert(texts(none@) =~= Seq::empty());
        return none;
    }
    disposable
}

/// What one failed recipe exits with never reaches the caller: a build that ran
/// and was not interrupted leaves with zero or with the one status of giving
/// up.
pub proof fn a_failed_recipe_is_abandoned(outcome: Outcome)
    requires
        !outcome.interrupted,
    ensures
        status_of(outcome) == 0 <==> outcome.exit_code == 0,
        outcome.exit_code != 0 ==> status_of(outcome) == ABANDONED,
{
}

} // verus!
