//! What a run ends with, against what happened in it.

use crate::bytes::{begins, ended, text};
use crate::command::Controls;
use crate::graph::GraphModel;
use crate::preparing::{default_names, first_file, led_by, read_makefiles, unread};
use crate::remake::{
    first_among, flushed_question, kept, lost_over, moved, stopped_at, Makefiles, Planned, Subset,
};
use crate::report::{
    body_of, interrupted_run, lines, refusal_lines, report_of, said, status_of, BuildFailure,
    Outcome, Reported,
};
use vstd::prelude::*;

verus! {

/// A run that succeeded leaves with nothing, one the user stopped with the
/// interrupt's status, and any other that failed with the status of giving up,
/// whatever the command that failed left with.
pub proof fn a_status_says_how_a_build_ended(outcome: Outcome, other: Outcome)
    ensures
        status_of(outcome) == 0 <==> outcome.exit_code == 0,
        outcome.exit_code != 0 && outcome.interrupted ==> status_of(outcome) == 130,
        outcome.exit_code != 0 && !outcome.interrupted ==> status_of(outcome) == 2,
        outcome.exit_code != 0 && other.exit_code != 0 && outcome.interrupted == other.interrupted
            ==> status_of(outcome) == status_of(other),
{
}

/// A run's report opens with what was narrated and then what the build wrote.
/// It leaves with the build's status, unless a recipe turned out to be one no
/// build can run, which is said behind the product's name and given up on.
pub proof fn a_report_tells_what_was_written(
    reported: Seq<u8>,
    up_to_date: bool,
    outcome: Outcome,
    silent: bool,
    complaints: Seq<Seq<u8>>,
)
    ensures
        ({
            let told = report_of(reported, up_to_date, outcome, silent, complaints);
            let written = ended(reported) + outcome.output@;
            &&& begins(told.stdout, written)
            &&& outcome.front_end_diagnostic matches Some(why) ==> told.exit_code == 2
                && told.stderr == text("ronin: ") + body_of(why@) + seq![0x0au8] && told.stdout
                == written
            &&& outcome.front_end_diagnostic is None ==> told.exit_code == status_of(outcome)
                && told.stderr == lines(complaints)
            &&& outcome.front_end_diagnostic is None && outcome.stopped is None && (silent
                || written.len() > 0 || (!up_to_date && outcome.ran_a_command)) ==> told.stdout
                == written
            &&& outcome.front_end_diagnostic is None && outcome.stopped is None && !silent
                && written.len() == 0 && (up_to_date || !outcome.ran_a_command) ==> told.stdout
                == text("ronin: no work to do.\n")
            &&& outcome.front_end_diagnostic is None ==> (outcome.stopped matches Some(reason)
                ==> told.stdout == written + text("ronin: build stopped: ") + reason@ + text(
                ".\n",
            ))
        }),
{
    let told = report_of(reported, up_to_date, outcome, silent, complaints);
    let written = ended(reported) + outcome.output@;
    assert(told.stdout.subrange(0, written.len() as int) =~= written);
    if let Some(why) = outcome.front_end_diagnostic {
        assert(said(body_of(why@)).push(0x0a) =~= text("ronin: ") + body_of(why@) + seq![0x0au8]);
    }
    if written.len() == 0 {
        assert(written + text("ronin: no work to do.\n") =~= text("ronin: no work to do.\n"));
    }
}

/// Complaints are told in the order they were released, a line each.
pub proof fn complaints_are_lines_in_order(first: Seq<Seq<u8>>, last: Seq<u8>)
    ensures
        lines(first.push(last)) == lines(first) + last + seq![0x0au8],
        lines(Seq::empty()).len() == 0,
{
    assert(first.push(last).drop_last() =~= first);
    assert(lines(first) + last.push(0x0a) =~= lines(first) + last + seq![0x0au8]);
}

/// Each refusal is told behind those before it: the complaint that was held for
/// it, where one was, and then the refusal behind the product's name.
pub proof fn refusals_are_told_in_order(
    first: Seq<(Option<Vec<u8>>, Vec<u8>)>,
    complaint: Option<Vec<u8>>,
    why: Vec<u8>,
)
    ensures
        complaint matches Some(held) ==> refusal_lines(first.push((complaint, why)))
            == refusal_lines(first) + held@ + seq![0x0au8] + text("ronin: ") + body_of(why@)
            + seq![0x0au8],
        complaint is None ==> refusal_lines(first.push((complaint, why))) == refusal_lines(first)
            + text("ronin: ") + body_of(why@) + seq![0x0au8],
        refusal_lines(Seq::empty()).len() == 0,
{
    let all = first.push((complaint, why));
    assert(all.drop_last() =~= first);
    match complaint {
        Some(held) => {
            assert(refusal_lines(all) =~= refusal_lines(first) + held@ + seq![0x0au8] + text(
                "ronin: ",
            ) + body_of(why@) + seq![0x0au8]);
        },
        None => {
            assert(refusal_lines(all) =~= refusal_lines(first) + text("ronin: ") + body_of(why@)
                + seq![0x0au8]);
        },
    }
}

/// A run the user stopped says nothing of its own and leaves with the
/// interrupt's status; a read that failed says why and gives up. What was
/// narrated before stands in both.
pub proof fn an_unfinished_run_keeps_what_was_narrated(reported: Seq<u8>, failure: Seq<u8>)
    ensures
        interrupted_run(reported).stdout == ended(reported),
        interrupted_run(reported).stderr.len() == 0,
        interrupted_run(reported).exit_code == 130,
        unread(reported, failure).stdout == ended(reported),
        unread(reported, failure).stderr == text("ronin: ") + body_of(failure) + seq![0x0au8],
        unread(reported, failure).exit_code == 2,
{
    assert(said(body_of(failure)).push(0x0a) =~= text("ronin: ") + body_of(failure)
        + seq![0x0au8]);
}

/// What was held stands in front of what a result has to say, and changes
/// nothing else of it.
pub proof fn what_was_held_is_said_first(held: Seq<u8>, result: Reported)
    ensures
        led_by(held, result).stderr == held + result.stderr,
        led_by(held, result).stdout == result.stdout,
        led_by(held, result).exit_code == result.exit_code,
{
}

/// A question that could not be answered stays so, and one that could is
/// answered only where the logs could be closed.
pub proof fn an_answer_takes_closed_logs(
    question: Result<bool, BuildFailure>,
    flushed: Result<(), BuildFailure>,
)
    ensures
        question is Err ==> flushed_question(question, flushed) == question,
        question is Ok && flushed is Ok ==> flushed_question(question, flushed) == question,
        question is Ok ==> (flushed matches Err(failure) ==> flushed_question(question, flushed)
            == Err::<bool, BuildFailure>(failure)),
{
}

/// `GNUmakefile` is read before `makefile`, and that before `Makefile`; one that
/// was named is read in place of them all.
pub proof fn a_default_makefile_is_looked_for_in_order(
    named: Seq<Seq<u8>>,
    files: Seq<Seq<u8>>,
)
    ensures
        named.len() > 0 ==> read_makefiles(named, files) == named,
        named.len() == 0 ==> read_makefiles(named, files) == (if files.contains(
            text("GNUmakefile"),
        ) {
            seq![text("GNUmakefile")]
        } else if files.contains(text("makefile")) {
            seq![text("makefile")]
        } else if files.contains(text("Makefile")) {
            seq![text("Makefile")]
        } else {
            Seq::empty()
        }),
{
    let names = default_names();
    let (second, third) = (names.drop_first(), names.drop_first().drop_first());
    assert(names[0] == text("GNUmakefile"));
    assert(second[0] == text("makefile"));
    assert(third[0] == text("Makefile"));
    assert(first_file(names, files) == (if files.contains(names[0]) {
        Some(names[0])
    } else {
        first_file(second, files)
    }));
    assert(first_file(second, files) == (if files.contains(second[0]) {
        Some(second[0])
    } else {
        first_file(third, files)
    }));
    assert(third.drop_first() =~= Seq::empty());
    assert(first_file(third.drop_first(), files) is None);
    assert(first_file(third, files) == (if files.contains(third[0]) {
        Some(third[0])
    } else {
        None
    }));
}

/// A makefile that was not named on the command line is really remade, even where
/// the goals are only described; one that was named is treated as the goals are,
/// and is left alone where they are only asked about. One the read did not need is attempted to its end,
/// and one it needed stops at the failures the goals would stop at.
pub proof fn an_unnamed_makefile_is_really_remade(makefiles: Makefiles, graph: GraphModel)
    ensures
        ({
            let subsets = makefiles.subsets_model(graph);
            let asked = makefiles.options.model();
            &&& subsets.len() == 4
            &&& !subsets[0].options.dryrun && !subsets[0].options.verbose
            &&& !subsets[1].options.dryrun && !subsets[1].options.verbose
            &&& subsets[2].options.dryrun == asked.dryrun
            &&& subsets[3].options.dryrun == asked.dryrun
            &&& !subsets[0].forgive && subsets[1].forgive && !subsets[2].forgive
                && subsets[3].forgive
            &&& subsets[0].options.maxfail == asked.maxfail
            &&& subsets[2].options.maxfail == asked.maxfail
            &&& subsets[1].options.maxfail == usize::MAX
            &&& subsets[3].options.maxfail == usize::MAX
            &&& subsets[0].options == (Controls { dryrun: false, verbose: false, ..asked })
            &&& subsets[2].options == asked
            &&& forall|i: int|
                0 <= i < 4 ==> (#[trigger] subsets[i]).options.jobs == asked.jobs
                    && subsets[i].options.touch == asked.touch && subsets[i].options.always_make
                    == asked.always_make && subsets[i].options.assumed_new == asked.assumed_new
                    && subsets[i].options.quiet == asked.quiet
            &&& makefiles.questioning ==> subsets[2].targets.len() == 0 && subsets[3].targets.len()
                == 0
        }),
{
}

/// A makefile that moved without losing starts the read over, whatever the rest
/// did; one that lost, or stayed as it was, does not.
pub proof fn a_makefile_that_moved_starts_over(
    targets: Seq<usize>,
    before: Seq<Option<u64>>,
    after: Seq<Option<u64>>,
    unmade: Seq<usize>,
    at: int,
)
    requires
        0 <= at < targets.len(),
    ensures
        before[at] != after[at] && !unmade.contains(targets[at]) ==> moved(
            targets,
            before,
            after,
            unmade,
        ),
        (forall|i: int|
            0 <= i < targets.len() ==> before[i] == after[i] || unmade.contains(
                #[trigger] targets[i],
            )) ==> !moved(targets, before, after, unmade),
{
}

/// What is kept of some makefiles is those that did not lose.
pub proof fn what_did_not_lose_is_kept(targets: Seq<usize>, unmade: Seq<usize>, target: usize)
    ensures
        kept(targets, unmade).contains(target) <==> targets.contains(target) && !unmade.contains(
            target,
        ),
    decreases targets.len(),
{
    if targets.len() > 0 {
        let fewer = targets.drop_last();
        let before = kept(fewer, unmade);
        what_did_not_lose_is_kept(fewer, unmade, target);
        assert(fewer.push(targets.last()) =~= targets);
        pushed_is_held(fewer, targets.last(), target);
        pushed_is_held(before, targets.last(), target);
    }
}

proof fn pushed_is_held(list: Seq<usize>, last: usize, item: usize)
    ensures
        list.push(last).contains(item) <==> list.contains(item) || item == last,
{
    let all = list.push(last);
    if list.contains(item) {
        let at = choose|at: int| 0 <= at < list.len() && list[at] == item;
        assert(all[at] == item);
    }
    if item == last {
        assert(all[list.len() as int] == item);
    }
    if all.contains(item) && item != last {
        let at = choose|at: int| 0 <= at < all.len() && all[at] == item;
        assert(list[at] == item);
    }
}

proof fn the_first_is_first(targets: Seq<usize>, others: Seq<usize>, among: bool)
    ensures
        first_among(targets, others, among) matches Some(found) ==> targets.contains(found)
            && others.contains(found) == among,
        first_among(targets, others, among) is None ==> forall|i: int|
            0 <= i < targets.len() ==> others.contains(#[trigger] targets[i]) != among,
    decreases targets.len(),
{
    if targets.len() > 0 {
        let rest = targets.drop_first();
        the_first_is_first(rest, others, among);
        if others.contains(targets[0]) == among {
            assert(targets.contains(targets[0]));
        } else {
            if let Some(found) = first_among(rest, others, among) {
                let at = choose|at: int| 0 <= at < rest.len() && rest[at] == found;
                assert(targets[at + 1] == found);
            } else {
                assert forall|i: int| 0 <= i < targets.len() implies others.contains(
                    #[trigger] targets[i],
                ) != among by {
                    if i > 0 {
                        assert(rest[i - 1] == targets[i]);
                    }
                }
            }
        }
    }
}

/// A pass stopped at a makefile whose own recipe lost, where one did, and
/// otherwise at one it never came to make.
pub proof fn a_pass_stops_at_what_lost(targets: Seq<usize>, outcome: Outcome)
    ensures
        (exists|i: int| 0 <= i < targets.len() && outcome.unmade@.contains(#[trigger] targets[i]))
            ==> (stopped_at(targets, outcome) matches Some(found) && targets.contains(found)
            && outcome.unmade@.contains(found)),
        (forall|i: int| 0 <= i < targets.len() ==> !outcome.unmade@.contains(#[trigger] targets[i]))
            ==> (stopped_at(targets, outcome) matches Some(found) ==> targets.contains(found)
            && !outcome.regenerated@.contains(found)),
{
    the_first_is_first(targets, outcome.unmade@, true);
    the_first_is_first(targets, outcome.regenerated@, false);
}

/// What a pass that failed lost over is what it could not make; one that
/// succeeded, had nothing to do or never ran lost nothing.
pub proof fn only_a_failed_pass_loses(subset: Subset, planned: Planned)
    ensures
        planned is UpToDate || planned is Refused ==> lost_over(subset, planned).len() == 0,
        planned matches Planned::Ran(outcome) ==> (outcome.exit_code == 0 ==> lost_over(
            subset,
            planned,
        ).len() == 0) && (outcome.exit_code != 0 && subset.targets@.len() > 0 ==> lost_over(
            subset,
            planned,
        ) == outcome.unmade@),
{
}

} // verus!
