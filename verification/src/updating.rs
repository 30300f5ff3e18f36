//! What the makefile update publishes of an invocation.
//!
//! The update hands a recipe's child the switches of the run without the ones
//! that only pretend, by taking their letters out of what was published. That
//! is what an invocation that never asked for them would have published.

use crate::bytes::{blank, text};
use crate::invocation::Settings;
use crate::layout::{
    all_grouped, grouped, makeflags_remaking, mflags_remaking, pretending, unpretending, word_end,
};
use crate::makeflags::{
    firsts, group, jobs_option, letters, load_shown, optioned, published, table_of, together,
    where_wanted,
};
use crate::options::{JobLimit, OutputSync, Switch};
use vstd::prelude::*;
use vstd::string::*;
use vstd::utf8::*;

verus! {

/// Settings that never asked for a switch that only pretends.
pub open spec fn in_earnest(settings: Settings) -> Settings {
    Settings {
        given: settings.given.remove(Switch::DryRun).remove(Switch::Question).remove(
            Switch::Touch,
        ),
        ..settings
    }
}

/// Whether a part of the switch table is nothing, or opens with a blank and an
/// option no letter of the group spells.
spec fn apart(part: Seq<u8>) -> bool {
    part.len() > 0 ==> part.len() > 2 && part[0] == 0x20 && part[1] == 0x2d && !grouped(part[2])
        && !blank(part[2])
}

proof fn letters_stay_in_the_group(settings: Settings, count: int)
    requires
        count <= 13,
    ensures
        all_grouped(letters(settings, count)),
        unpretending(letters(settings, count)) == letters(in_earnest(settings), count),
    decreases count,
{
    if count > 0 {
        letters_stay_in_the_group(settings, count - 1);
        let before = letters(settings, count - 1);
        let (switch, letter, asserted) = group(count - 1);
        assert(grouped(letter));
        assert(before.push(letter).drop_last() =~= before);
        assert(pretending(letter) <==> switch == Switch::DryRun || switch == Switch::Question
            || switch == Switch::Touch);
    }
}

proof fn a_letter_is_no_blank(letter: u8)
    requires
        grouped(letter),
    ensures
        !blank(letter),
{
}

/// The group is the first word of what it opens.
proof fn the_group_is_a_word(value: Seq<u8>, from: int, end: int)
    requires
        0 <= from <= end <= value.len(),
        forall|i: int| from <= i < end ==> grouped(#[trigger] value[i]),
        end < value.len() ==> value[end] == 0x20,
    ensures
        word_end(value, from) == end,
    decreases end - from,
{
    if from < end {
        a_letter_is_no_blank(value[from]);
        the_group_is_a_word(value, from + 1, end);
    }
}

proof fn apart_together(list: Seq<Seq<u8>>)
    requires
        forall|i: int| 0 <= i < list.len() ==> apart(#[trigger] list[i]),
    ensures
        apart(together(list)),
    decreases list.len(),
{
    if list.len() > 0 {
        apart_together(list.drop_last());
        assert(apart(list[list.len() - 1]));
    }
}

proof fn firsts_are_of_the_list(list: Seq<Seq<u8>>)
    ensures
        forall|i: int|
            0 <= i < firsts(list).len() ==> list.contains(#[trigger] firsts(list)[i]),
    decreases list.len(),
{
    if list.len() > 0 {
        firsts_are_of_the_list(list.drop_last());
        assert forall|i: int| 0 <= i < firsts(list).len() implies list.contains(
            #[trigger] firsts(list)[i],
        ) by {
            let before = firsts(list.drop_last());
            if i < before.len() {
                assert(list.drop_last().contains(before[i]));
                let at = choose|at: int|
                    0 <= at < list.drop_last().len() && list.drop_last()[at] == before[i];
                assert(list[at] == before[i]);
            } else {
                assert(list[list.len() - 1] == firsts(list)[i]);
            }
        }
    }
}

/// What a part says behind the first bytes of an option is nothing to whether
/// it stands apart.
proof fn apart_by_its_option(option: Seq<u8>, said: Seq<u8>)
    requires
        option.len() > 2,
        apart(option),
    ensures
        apart(option + said),
{
}

proof fn options_are_apart()
    ensures
        text(" -I").len() > 2 && apart(text(" -I")),
        text(" -j").len() > 2 && apart(text(" -j")),
        text(" -l").len() > 2 && apart(text(" -l")),
        text(" --debug=").len() > 2 && apart(text(" --debug=")),
        text(" --trace").len() > 2 && apart(text(" --trace")),
        text(" --warn-undefined-variables").len() > 2 && apart(
            text(" --warn-undefined-variables"),
        ),
        text(" --no-print-directory").len() > 2 && apart(text(" --no-print-directory")),
        text(" --no-silent").len() > 2 && apart(text(" --no-silent")),
        text(" --shuffle=").len() > 2 && apart(text(" --shuffle=")),
{
    reveal_strlit(" -I");
    is_ascii_spec_bytes(" -I");
    reveal_strlit(" -j");
    is_ascii_spec_bytes(" -j");
    reveal_strlit(" -l");
    is_ascii_spec_bytes(" -l");
    reveal_strlit(" --debug=");
    is_ascii_spec_bytes(" --debug=");
    reveal_strlit(" --trace");
    is_ascii_spec_bytes(" --trace");
    reveal_strlit(" --warn-undefined-variables");
    is_ascii_spec_bytes(" --warn-undefined-variables");
    reveal_strlit(" --no-print-directory");
    is_ascii_spec_bytes(" --no-print-directory");
    reveal_strlit(" --no-silent");
    is_ascii_spec_bytes(" --no-silent");
    reveal_strlit(" --shuffle=");
    is_ascii_spec_bytes(" --shuffle=");
}

proof fn a_synchronisation_is_apart(sync: OutputSync)
    ensures
        apart(text(" ") + sync.spelled()),
{
    reveal_strlit(" ");
    is_ascii_spec_bytes(" ");
    reveal_strlit("-Onone");
    is_ascii_spec_bytes("-Onone");
    reveal_strlit("-Oline");
    is_ascii_spec_bytes("-Oline");
    reveal_strlit("-Otarget");
    is_ascii_spec_bytes("-Otarget");
    reveal_strlit("-Orecurse");
    is_ascii_spec_bytes("-Orecurse");
}

proof fn options_of_a_list_are_apart(option: Seq<u8>, list: Seq<Seq<u8>>)
    requires
        option.len() > 2,
        apart(option),
    ensures
        apart(together(optioned(option, list))),
        apart(together(firsts(optioned(option, list)))),
{
    let parts = optioned(option, list);
    apart_together(parts);
    firsts_are_of_the_list(parts);
    assert forall|i: int| 0 <= i < firsts(parts).len() implies apart(
        #[trigger] firsts(parts)[i],
    ) by {
        assert(parts.contains(firsts(parts)[i]));
    }
    apart_together(firsts(parts));
}

/// A part more leaves what stands before it, and the whole still opens with it
/// or with a part that stands apart.
proof fn a_part_more(front: Seq<u8>, other: Seq<u8>, rest: Seq<u8>, part: Seq<u8>)
    requires
        apart(rest),
        apart(part),
    ensures
        (front + rest) + part == front + (rest + part),
        (other + rest) + part == other + (rest + part),
        apart(rest + part),
{
    assert((front + rest) + part =~= front + (rest + part));
    assert((other + rest) + part =~= other + (rest + part));
}

/// Behind its letters the switch table of an invocation is the one it would
/// have in earnest.
proof fn the_tables_differ_in_their_letters(settings: Settings, jobs: Option<JobLimit>) -> (rest:
    Seq<u8>)
    ensures
        apart(rest),
        table_of(settings, jobs) == letters(settings, 13) + rest,
        table_of(in_earnest(settings), jobs) == letters(in_earnest(settings), 13) + rest,
{
    let front = letters(settings, 13);
    let other = letters(in_earnest(settings), 13);
    options_are_apart();
    options_of_a_list_are_apart(text(" -I"), settings.include_dirs);
    options_of_a_list_are_apart(text(" --debug="), settings.debug);
    let included = together(optioned(text(" -I"), settings.include_dirs));
    let load = match settings.load {
        Some(load) => where_wanted(
            load.1,
            text(" -l") + load_shown(settings.around, load.0),
        ),
        None => Seq::empty(),
    };
    let sync = match settings.output_sync {
        Some(sync) => text(" ") + sync.spelled(),
        None => Seq::empty(),
    };
    if settings.output_sync is Some {
        a_synchronisation_is_apart(settings.output_sync->0);
    }
    let debug = together(firsts(optioned(text(" --debug="), settings.debug)));
    let trace = where_wanted(settings.given.contains(Switch::Trace), text(" --trace"));
    let warn = where_wanted(
        settings.given.contains(Switch::WarnUndefinedVariables),
        text(" --warn-undefined-variables"),
    );
    let unprinted = where_wanted(
        settings.refused.contains(Switch::PrintDirectory),
        text(" --no-print-directory"),
    );
    let unsilent = where_wanted(
        settings.refused.contains(Switch::Silent),
        text(" --no-silent"),
    );
    let shuffle = match settings.shuffle_spelling {
        Some(mode) => text(" --shuffle=") + mode,
        None => Seq::empty(),
    };
    let after_jobs = included + jobs_option(jobs);
    a_part_more(front, other, included, jobs_option(jobs));
    let after_load = after_jobs + load;
    a_part_more(front, other, after_jobs, load);
    let after_sync = after_load + sync;
    a_part_more(front, other, after_load, sync);
    let after_debug = after_sync + debug;
    a_part_more(front, other, after_sync, debug);
    let after_trace = after_debug + trace;
    a_part_more(front, other, after_debug, trace);
    let after_warn = after_trace + warn;
    a_part_more(front, other, after_trace, warn);
    let after_print = after_warn + unprinted;
    a_part_more(front, other, after_warn, unprinted);
    let after_silent = after_print + unsilent;
    a_part_more(front, other, after_print, unsilent);
    a_part_more(front, other, after_silent, shuffle);
    after_silent + shuffle
}

proof fn first_byte_of_a_word(value: Seq<u8>)
    requires
        value.len() > 1,
        !grouped(value[1]),
        !blank(value[1]),
    ensures
        !all_grouped(value.subrange(1, word_end(value, 1))),
{
    word_end_is_behind(value, 2);
    let word = value.subrange(1, word_end(value, 1));
    assert(word[0] == value[1]);
}

proof fn word_end_is_behind(value: Seq<u8>, from: int)
    requires
        0 <= from <= value.len(),
    ensures
        from <= word_end(value, from) <= value.len(),
    decreases value.len() - from,
{
    if from < value.len() && !blank(value[from]) {
        word_end_is_behind(value, from + 1);
    }
}

/// The group's letters leave the first word, and what is behind it stays.
proof fn letters_leave_makeflags(spoken: Seq<u8>, behind: Seq<u8>)
    requires
        all_grouped(spoken),
        behind.len() > 0 ==> behind[0] == 0x20,
    ensures
        makeflags_remaking(spoken + behind) == unpretending(spoken) + behind,
{
    let value = spoken + behind;
    let end = spoken.len() as int;
    the_group_is_a_word(value, 0, end);
    assert(value.take(end) =~= spoken);
    assert(value.skip(end) =~= behind);
}

/// A letter group and what stands behind it, in command-line spelling.
spec fn dashed(group_letters: Seq<u8>, rest: Seq<u8>) -> Seq<u8> {
    if group_letters.len() > 0 {
        seq![0x2du8] + group_letters + rest
    } else if rest.len() > 0 {
        rest.skip(1)
    } else {
        rest
    }
}

/// The same letters leave the command-line spelling.
proof fn letters_leave_mflags(spoken: Seq<u8>, rest: Seq<u8>)
    requires
        all_grouped(spoken),
        apart(rest),
    ensures
        mflags_remaking(dashed(spoken, rest)) == dashed(unpretending(spoken), rest),
{
    let value = dashed(spoken, rest);
    if spoken.len() > 0 {
        let end = spoken.len() as int + 1;
        assert forall|i: int| 1 <= i < end implies grouped(#[trigger] value[i]) by {
            assert(value[i] == spoken[i - 1]);
        }
        the_group_is_a_word(value, 1, end);
        assert(value.subrange(1, end) =~= spoken);
        assert(value.skip(end) =~= rest);
    } else if rest.len() > 0 {
        assert(value[0] == rest[1]);
        assert(value[1] == rest[2]);
        first_byte_of_a_word(value);
    }
}

/// Taking the pretending switches out of what an invocation published leaves
/// what it would have published had it never asked for them, under either
/// spelling and whatever else it asked for.
pub proof fn the_update_publishes_in_earnest(settings: Settings, jobs: Option<JobLimit>)
    ensures
        makeflags_remaking(published(settings, jobs).makeflags) == published(
            in_earnest(settings),
            jobs,
        ).makeflags,
        mflags_remaking(published(settings, jobs).mflags) == published(
            in_earnest(settings),
            jobs,
        ).mflags,
{
    let spoken = letters(settings, 13);
    let kept = letters(in_earnest(settings), 13);
    letters_stay_in_the_group(settings, 13);
    let rest = the_tables_differ_in_their_letters(settings, jobs);
    let whole = published(settings, jobs);
    let earnest = published(in_earnest(settings), jobs);
    let evals = where_wanted(whole.eval_flags.len() > 0, text(" ") + whole.eval_flags);
    let overrides = where_wanted(whole.overrides.len() > 0, text(" -- ") + whole.overrides);
    let behind = rest + evals + overrides;
    assert(behind.len() > 0 ==> behind[0] == 0x20) by {
        reveal_strlit(" ");
        is_ascii_spec_bytes(" ");
        reveal_strlit(" -- ");
        is_ascii_spec_bytes(" -- ");
    }
    assert(whole.makeflags =~= spoken + behind);
    assert(earnest.makeflags =~= kept + behind);
    letters_leave_makeflags(spoken, behind);
    assert(text("-") =~= seq![0x2du8]) by {
        reveal_strlit("-");
        is_ascii_spec_bytes("-");
    }
    spelled_with_a_dash(spoken, rest);
    spelled_with_a_dash(kept, rest);
    letters_leave_mflags(spoken, rest);
}

proof fn spelled_with_a_dash(group_letters: Seq<u8>, rest: Seq<u8>)
    ensures
        dashed(group_letters, rest) == (if group_letters.len() > 0 {
            seq![0x2du8] + (group_letters + rest)
        } else if (group_letters + rest).len() > 0 {
            (group_letters + rest).skip(1)
        } else {
            group_letters + rest
        }),
{
    if group_letters.len() > 0 {
        assert(seq![0x2du8] + group_letters + rest =~= seq![0x2du8] + (group_letters + rest));
    } else {
        assert(group_letters + rest =~= rest);
    }
}

} // verus!
