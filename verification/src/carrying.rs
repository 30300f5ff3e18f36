//! `MAKEFLAGS` across one recursion: what a parent publishes, as the words and
//! then the settings a child takes it for.

use crate::bytes::{blank, decimal, joined, lossy, text};
use crate::invocation::Settings;
use crate::makeflags::{
    all_quoted, assigned, bound_name, escaped, evals_of, firsts, jobs_option, letters, load_shown,
    optioned, override_words, overrides_of, past_blanks, place_of, place_of_is_first, published,
    quoted, quoted_word_is_read, quoting_round_trips, table_of, together, where_wanted, words_from,
    words_in,
};
use crate::options::{JobLimit, Switch};
use vstd::prelude::*;
use vstd::string::*;
use vstd::utf8::*;

verus! {

/// Whether a word is carried as it is.
pub open spec fn unquoted(word: Seq<u8>) -> bool {
    forall|i: int|
        0 <= i < word.len() ==> (#[trigger] word[i]) != 0x5c && word[i] != 0x24 && !blank(word[i])
}

/// Every word of a list behind an option's spelling.
pub open spec fn each_behind(option: Seq<u8>, list: Seq<Seq<u8>>) -> Seq<Seq<u8>> {
    Seq::new(list.len(), |i: int| option + lossy(list[i]))
}

/// `word` alone where it is wanted, and no word otherwise.
pub open spec fn word_where(wanted: bool, word: Seq<u8>) -> Seq<Seq<u8>> {
    if wanted {
        seq![word]
    } else {
        Seq::empty()
    }
}

/// The word a job count travels as.
pub open spec fn jobs_word(jobs: Option<JobLimit>) -> Seq<Seq<u8>> {
    match jobs {
        Some(JobLimit::Fixed(count)) => seq![text("-j") + decimal(count as nat)],
        Some(JobLimit::Unlimited) => seq![text("-j")],
        _ => Seq::empty(),
    }
}

/// The word a load average travels as.
pub open spec fn load_word(settings: Settings) -> Seq<Seq<u8>> {
    match settings.load {
        Some(load) => word_where(load.1, text("-l") + load_shown(settings.around, load.0)),
        None => Seq::empty(),
    }
}

/// The word the output synchronisation travels as.
pub open spec fn sync_word(settings: Settings) -> Seq<Seq<u8>> {
    match settings.output_sync {
        Some(sync) => seq![sync.spelled()],
        None => Seq::empty(),
    }
}

/// The word the shuffle travels as.
pub open spec fn shuffle_word(settings: Settings) -> Seq<Seq<u8>> {
    match settings.shuffle_spelling {
        Some(mode) => seq![text("--shuffle=") + mode],
        None => Seq::empty(),
    }
}

/// The words of the switch table behind the letter group.
pub open spec fn table_words(settings: Settings, jobs: Option<JobLimit>) -> Seq<Seq<u8>> {
    each_behind(text("-I"), settings.include_dirs) + jobs_word(jobs) + load_word(settings)
        + sync_word(settings) + firsts(each_behind(text("--debug="), settings.debug)) + word_where(
        settings.given.contains(Switch::Trace),
        text("--trace"),
    ) + word_where(
        settings.given.contains(Switch::WarnUndefinedVariables),
        text("--warn-undefined-variables"),
    ) + word_where(
        settings.refused.contains(Switch::PrintDirectory),
        text("--no-print-directory"),
    ) + word_where(settings.refused.contains(Switch::Silent), text("--no-silent")) + shuffle_word(
        settings,
    )
}

/// The assignments a child is handed, the name that came up last first.
pub open spec fn assignment_words(variables: Seq<Seq<u8>>) -> Seq<Seq<u8>> {
    let assignments = assigned(variables);
    Seq::new(assignments.len(), |i: int| assignments[assignments.len() - 1 - i].1)
}

/// The words that follow the letter group.
pub open spec fn words_behind(settings: Settings, jobs: Option<JobLimit>) -> Seq<Seq<u8>> {
    let overrides = assignment_words(settings.variables);
    table_words(settings, jobs) + each_behind(text("--eval="), settings.evals) + (
    if overrides.len() > 0 {
        seq![text("--")] + overrides
    } else {
        Seq::empty()
    })
}

/// The words a parent hands its child through `MAKEFLAGS`.
pub open spec fn handed(settings: Settings, jobs: Option<JobLimit>) -> Seq<Seq<u8>> {
    word_where(letters(settings, 13).len() > 0, letters(settings, 13)) + words_behind(
        settings,
        jobs,
    )
}

/// The last text a command line binds a name in.
pub open spec fn last_bound(variables: Seq<Seq<u8>>, name: Seq<u8>) -> Option<Seq<u8>>
    decreases variables.len(),
{
    if variables.len() == 0 {
        None
    } else if valid_utf8(variables.last()) && bound_name(variables.last()) == Some(name) {
        Some(variables.last())
    } else {
        last_bound(variables.drop_last(), name)
    }
}

/// Each name a command line binds is handed on once, with the last text it was
/// bound in.
pub proof fn the_last_assignment_is_handed_on(variables: Seq<Seq<u8>>, name: Seq<u8>)
    ensures
        match last_bound(variables, name) {
            Some(assignment) => {
                let place = place_of(assigned(variables), name);
                &&& 0 <= place < assigned(variables).len()
                &&& assigned(variables)[place] == (name, assignment)
                &&& forall|i: int|
                    0 <= i < assigned(variables).len() && (#[trigger] assigned(variables)[i]).0
                        == name ==> i == place
            },
            None => forall|i: int|
                0 <= i < assigned(variables).len() ==> (#[trigger] assigned(variables)[i]).0
                    != name,
        },
    decreases variables.len(),
{
    if variables.len() > 0 {
        let before = assigned(variables.drop_last());
        let after = assigned(variables);
        let last = variables.last();
        the_last_assignment_is_handed_on(variables.drop_last(), name);
        match bound_name(last) {
            Some(bound) => {
                if valid_utf8(last) {
                    a_place_is_inside(before, bound);
                    a_place_is_inside(before, name);
                    a_place_holds_its_name(before, bound);
                    a_place_holds_its_name(before, name);
                    let place = place_of(before, bound);
                    if place < before.len() {
                        assert(after == before.update(place, (bound, last)));
                        if bound == name {
                            place_of_is_first(after, name, place);
                        } else if place_of(before, name) < before.len() {
                            assert(after[place_of(before, name)] == before[place_of(before, name)]);
                            place_of_is_first(after, name, place_of(before, name));
                        }
                    } else {
                        assert(after == before.push((bound, last)));
                        if bound == name {
                            place_of_is_first(after, name, before.len() as int);
                        } else if place_of(before, name) < before.len() {
                            assert(after[place_of(before, name)] == before[place_of(before, name)]);
                            place_of_is_first(after, name, place_of(before, name));
                        }
                    }
                }
            },
            None => {},
        }
    }
}

/// The place of a name holds it, and no place before it does.
proof fn a_place_holds_its_name(assignments: Seq<(Seq<u8>, Seq<u8>)>, name: Seq<u8>)
    ensures
        place_of(assignments, name) < assignments.len() ==> assignments[place_of(
            assignments,
            name,
        )].0 == name,
        forall|i: int|
            0 <= i < place_of(assignments, name) ==> (#[trigger] assignments[i]).0 != name,
    decreases assignments.len(),
{
    if assignments.len() > 0 {
        let before = assignments.drop_last();
        a_place_holds_its_name(before, name);
        a_place_is_inside(before, name);
        assert forall|i: int| 0 <= i < place_of(assignments, name) implies (
        #[trigger] assignments[i]).0 != name by {
            if i < before.len() {
                assert(before[i] == assignments[i]);
            }
        }
    }
}

/// Each word of a list quoted, behind a blank.
spec fn spaced(words: Seq<Seq<u8>>) -> Seq<u8>
    decreases words.len(),
{
    if words.len() == 0 {
        Seq::empty()
    } else {
        spaced(words.drop_last()) + (seq![0x20u8] + quoted(words.last()))
    }
}

proof fn spaced_apart(left: Seq<Seq<u8>>, right: Seq<Seq<u8>>)
    ensures
        spaced(left + right) == spaced(left) + spaced(right),
    decreases right.len(),
{
    if right.len() == 0 {
        assert(left + right =~= left);
        assert(spaced(left) + spaced(right) =~= spaced(left));
    } else {
        assert((left + right).drop_last() =~= left + right.drop_last());
        spaced_apart(left, right.drop_last());
        assert(spaced(left + right) =~= spaced(left) + spaced(right));
    }
}

proof fn spaced_alone(word: Seq<u8>)
    ensures
        spaced(seq![word]) == seq![0x20u8] + quoted(word),
{
    let front = seq![word].drop_last();
    assert(front =~= Seq::<Seq<u8>>::empty());
    assert(spaced(front) == Seq::<u8>::empty());
    assert(spaced(seq![word]) =~= seq![0x20u8] + quoted(word));
}

proof fn quoted_apart(left: Seq<u8>, right: Seq<u8>)
    ensures
        quoted(left + right) == quoted(left) + quoted(right),
    decreases left.len(),
{
    if left.len() == 0 {
        assert(left + right =~= right);
        assert(quoted(left) + quoted(right) =~= quoted(right));
    } else {
        assert((left + right).drop_first() =~= left.drop_first() + right);
        quoted_apart(left.drop_first(), right);
        assert(quoted(left + right) =~= quoted(left) + quoted(right));
    }
}

proof fn carried_as_it_is(word: Seq<u8>)
    requires
        unquoted(word),
    ensures
        quoted(word) == word,
    decreases word.len(),
{
    if word.len() > 0 {
        let rest = word.drop_first();
        assert forall|i: int| 0 <= i < rest.len() implies (#[trigger] rest[i]) != 0x5c && rest[i]
            != 0x24 && !blank(rest[i]) by {
            assert(rest[i] == word[i + 1]);
        }
        carried_as_it_is(rest);
        assert(seq![word[0]] + rest =~= word);
    } else {
        assert(quoted(word) =~= word);
    }
}

proof fn digits_are_unquoted(value: nat)
    ensures
        unquoted(decimal(value)),
        decimal(value).len() > 0,
        crate::bytes::all_digits(decimal(value)),
    decreases value,
{
    if value >= 10 {
        digits_are_unquoted(value / 10);
    }
}

/// Reading words that stand one behind the other, each quoted behind a blank,
/// gives the word being read and those words.
proof fn spaced_words_are_read(bytes: Seq<u8>, at: int, held: Seq<u8>, words: Seq<Seq<u8>>)
    requires
        0 <= at,
        at + spaced(words).len() == bytes.len(),
        bytes.skip(at) == spaced(words),
        forall|i: int| 0 <= i < words.len() ==> (#[trigger] words[i]).len() > 0,
    ensures
        words_from(bytes, at, held, true) == seq![held] + words,
    decreases words.len(),
{
    if words.len() == 0 {
        assert(seq![held] + words =~= seq![held]);
    } else {
        let first = words[0];
        let rest = words.drop_first();
        let carried = quoted(first);
        assert(words =~= seq![first] + rest);
        spaced_apart(seq![first], rest);
        spaced_alone(first);
        let here = bytes.skip(at);
        assert(bytes[at] == here[0]);
        assert(carried[0] == escaped(first[0])[0]);
        assert(bytes[at + 1] == here[1]);
        assert(past_blanks(bytes, at + 1) == at + 1);
        assert(bytes.subrange(at + 1, at + 1 + carried.len()) =~= carried) by {
            assert forall|i: int| 0 <= i < carried.len() implies bytes[at + 1 + i] == carried[i] by {
                assert(here[1 + i] == bytes[at + 1 + i]);
            }
        }
        quoted_word_is_read(bytes, at + 1, Seq::empty(), first);
        assert(Seq::<u8>::empty() + first =~= first);
        let next = at + 1 + carried.len();
        assert(bytes.skip(next) =~= spaced(rest)) by {
            assert forall|i: int| 0 <= i < spaced(rest).len() implies bytes[next + i] == spaced(
                rest,
            )[i] by {
                assert(here[1 + carried.len() + i] == bytes[next + i]);
            }
        }
        assert forall|i: int| 0 <= i < rest.len() implies (#[trigger] rest[i]).len() > 0 by {
            assert(rest[i] == words[i + 1]);
        }
        spaced_words_are_read(bytes, next, first, rest);
        assert(seq![held] + (seq![first] + rest) =~= seq![held] + words);
    }
}

/// Words behind a group of letters are read back, the group as the first of
/// them where it holds any.
proof fn grouped_words_are_read(group: Seq<u8>, words: Seq<Seq<u8>>)
    requires
        unquoted(group),
        forall|i: int| 0 <= i < words.len() ==> (#[trigger] words[i]).len() > 0,
    ensures
        words_in(group + spaced(words), true) == word_where(group.len() > 0, group) + words,
{
    let bytes = group + spaced(words);
    if group.len() > 0 {
        carried_as_it_is(group);
        assert(bytes[0] == group[0]);
        assert(!blank(group[0]));
        assert(past_blanks(bytes, 0) == 0);
        assert(bytes.subrange(0, group.len() as int) =~= group);
        quoted_word_is_read(bytes, 0, Seq::empty(), group);
        assert(Seq::<u8>::empty() + group =~= group);
        assert(bytes.skip(group.len() as int) =~= spaced(words));
        spaced_words_are_read(bytes, group.len() as int, group, words);
    } else if words.len() > 0 {
        assert(bytes =~= spaced(words));
        let first = words[0];
        let rest = words.drop_first();
        let carried = quoted(first);
        assert(words =~= seq![first] + rest);
        spaced_apart(seq![first], rest);
        spaced_alone(first);
        assert(bytes =~= (seq![0x20u8] + carried) + spaced(rest));
        assert(carried[0] == escaped(first[0])[0]);
        assert(bytes[1] == carried[0]);
        assert(past_blanks(bytes, 1) == 1);
        assert(past_blanks(bytes, 0) == 1);
        assert(bytes.subrange(1, 1 + carried.len() as int) =~= carried);
        quoted_word_is_read(bytes, 1, Seq::empty(), first);
        assert(Seq::<u8>::empty() + first =~= first);
        let next = 1 + carried.len();
        assert(bytes.skip(next as int) =~= spaced(rest));
        assert forall|i: int| 0 <= i < rest.len() implies (#[trigger] rest[i]).len() > 0 by {
            assert(rest[i] == words[i + 1]);
        }
        spaced_words_are_read(bytes, next as int, first, rest);
        assert(word_where(false, group) + words =~= words);
    } else {
        assert(bytes =~= Seq::<u8>::empty());
        assert(word_where(false, group) + words =~= Seq::<Seq<u8>>::empty());
    }
}

/// The spellings the table is made of, behind a blank.
proof fn short_options_behind_a_blank()
    ensures
        text(" -I") == seq![0x20u8] + text("-I"),
        text(" -j") == seq![0x20u8] + text("-j"),
        text(" -l") == seq![0x20u8] + text("-l"),
        text(" --debug=") == seq![0x20u8] + text("--debug="),
{
    assert(text(" -I") =~= seq![0x20u8] + text("-I")) by {
        reveal_strlit(" -I");
        reveal_strlit("-I");
        is_ascii_spec_bytes(" -I");
        is_ascii_spec_bytes("-I");
    }
    assert(text(" -j") =~= seq![0x20u8] + text("-j")) by {
        reveal_strlit(" -j");
        reveal_strlit("-j");
        is_ascii_spec_bytes(" -j");
        is_ascii_spec_bytes("-j");
    }
    assert(text(" -l") =~= seq![0x20u8] + text("-l")) by {
        reveal_strlit(" -l");
        reveal_strlit("-l");
        is_ascii_spec_bytes(" -l");
        is_ascii_spec_bytes("-l");
    }
    assert(text(" --debug=") =~= seq![0x20u8] + text("--debug=")) by {
        reveal_strlit(" --debug=");
        reveal_strlit("--debug=");
        is_ascii_spec_bytes(" --debug=");
        is_ascii_spec_bytes("--debug=");
    }
}

proof fn switches_behind_a_blank()
    ensures
        text(" --trace") == seq![0x20u8] + text("--trace"),
        text(" --warn-undefined-variables") == seq![0x20u8] + text("--warn-undefined-variables"),
        text(" --no-print-directory") == seq![0x20u8] + text("--no-print-directory"),
        text(" --no-silent") == seq![0x20u8] + text("--no-silent"),
        text(" --shuffle=") == seq![0x20u8] + text("--shuffle="),
{
    assert(text(" --trace") =~= seq![0x20u8] + text("--trace")) by {
        reveal_strlit(" --trace");
        reveal_strlit("--trace");
        is_ascii_spec_bytes(" --trace");
        is_ascii_spec_bytes("--trace");
    }
    assert(text(" --warn-undefined-variables") =~= seq![0x20u8] + text("--warn-undefined-variables")) by {
        reveal_strlit(" --warn-undefined-variables");
        reveal_strlit("--warn-undefined-variables");
        is_ascii_spec_bytes(" --warn-undefined-variables");
        is_ascii_spec_bytes("--warn-undefined-variables");
    }
    assert(text(" --no-print-directory") =~= seq![0x20u8] + text("--no-print-directory")) by {
        reveal_strlit(" --no-print-directory");
        reveal_strlit("--no-print-directory");
        is_ascii_spec_bytes(" --no-print-directory");
        is_ascii_spec_bytes("--no-print-directory");
    }
    assert(text(" --no-silent") =~= seq![0x20u8] + text("--no-silent")) by {
        reveal_strlit(" --no-silent");
        reveal_strlit("--no-silent");
        is_ascii_spec_bytes(" --no-silent");
        is_ascii_spec_bytes("--no-silent");
    }
    assert(text(" --shuffle=") =~= seq![0x20u8] + text("--shuffle=")) by {
        reveal_strlit(" --shuffle=");
        reveal_strlit("--shuffle=");
        is_ascii_spec_bytes(" --shuffle=");
        is_ascii_spec_bytes("--shuffle=");
    }
}

proof fn blanks_are_spelled()
    ensures
        text(" ") == seq![0x20u8],
        text(" -- ") == seq![0x20u8] + text("--") + seq![0x20u8],
{
    assert(text(" ") =~= seq![0x20u8]) by {
        reveal_strlit(" ");
        is_ascii_spec_bytes(" ");
    }
    assert(text(" -- ") =~= seq![0x20u8] + text("--") + seq![0x20u8]) by {
        reveal_strlit(" -- ");
        reveal_strlit("--");
        is_ascii_spec_bytes(" -- ");
        is_ascii_spec_bytes("--");
    }
}

/// The spellings the table is made of, with nothing in them that is quoted.
proof fn short_options_are_unquoted()
    ensures
        unquoted(text("--")),
        text("--").len() == 2,
        unquoted(text("-I")),
        text("-I").len() == 2,
        unquoted(text("-j")),
        text("-j").len() == 2,
        unquoted(text("-l")),
        text("-l").len() == 2,
        unquoted(text("--debug=")),
        text("--debug=").len() == 8,
        unquoted(text("--shuffle=")),
        text("--shuffle=").len() == 10,
        unquoted(text("--eval=")),
        text("--eval=").len() == 7,
{
    assert(unquoted(text("--")) && text("--").len() == 2) by {
        reveal_strlit("--");
        is_ascii_spec_bytes("--");
    }
    assert(unquoted(text("-I")) && text("-I").len() == 2) by {
        reveal_strlit("-I");
        is_ascii_spec_bytes("-I");
    }
    assert(unquoted(text("-j")) && text("-j").len() == 2) by {
        reveal_strlit("-j");
        is_ascii_spec_bytes("-j");
    }
    assert(unquoted(text("-l")) && text("-l").len() == 2) by {
        reveal_strlit("-l");
        is_ascii_spec_bytes("-l");
    }
    assert(unquoted(text("--debug=")) && text("--debug=").len() == 8) by {
        reveal_strlit("--debug=");
        is_ascii_spec_bytes("--debug=");
    }
    assert(unquoted(text("--shuffle=")) && text("--shuffle=").len() == 10) by {
        reveal_strlit("--shuffle=");
        is_ascii_spec_bytes("--shuffle=");
    }
    assert(unquoted(text("--eval=")) && text("--eval=").len() == 7) by {
        reveal_strlit("--eval=");
        is_ascii_spec_bytes("--eval=");
    }
}

proof fn switches_are_unquoted()
    ensures
        unquoted(text("--trace")),
        text("--trace").len() == 7,
        unquoted(text("--warn-undefined-variables")),
        text("--warn-undefined-variables").len() == 26,
        unquoted(text("--no-print-directory")),
        text("--no-print-directory").len() == 20,
        unquoted(text("--no-silent")),
        text("--no-silent").len() == 11,
{
    assert(unquoted(text("--trace")) && text("--trace").len() == 7) by {
        reveal_strlit("--trace");
        is_ascii_spec_bytes("--trace");
    }
    assert(unquoted(text("--warn-undefined-variables"))
        && text("--warn-undefined-variables").len() == 26) by {
        reveal_strlit("--warn-undefined-variables");
        is_ascii_spec_bytes("--warn-undefined-variables");
    }
    assert(unquoted(text("--no-print-directory")) && text("--no-print-directory").len() == 20) by {
        reveal_strlit("--no-print-directory");
        is_ascii_spec_bytes("--no-print-directory");
    }
    assert(unquoted(text("--no-silent")) && text("--no-silent").len() == 11) by {
        reveal_strlit("--no-silent");
        is_ascii_spec_bytes("--no-silent");
    }
}

proof fn kinds_are_unquoted()
    ensures
        unquoted(text("-Onone")),
        text("-Onone").len() == 6,
        unquoted(text("-Oline")),
        text("-Oline").len() == 6,
        unquoted(text("-Otarget")),
        text("-Otarget").len() == 8,
        unquoted(text("-Orecurse")),
        text("-Orecurse").len() == 9,
{
    assert(unquoted(text("-Onone")) && text("-Onone").len() == 6) by {
        reveal_strlit("-Onone");
        is_ascii_spec_bytes("-Onone");
    }
    assert(unquoted(text("-Oline")) && text("-Oline").len() == 6) by {
        reveal_strlit("-Oline");
        is_ascii_spec_bytes("-Oline");
    }
    assert(unquoted(text("-Otarget")) && text("-Otarget").len() == 8) by {
        reveal_strlit("-Otarget");
        is_ascii_spec_bytes("-Otarget");
    }
    assert(unquoted(text("-Orecurse")) && text("-Orecurse").len() == 9) by {
        reveal_strlit("-Orecurse");
        is_ascii_spec_bytes("-Orecurse");
    }
}

/// Each word of a list quoted, behind a blank, as a list.
spec fn each_spaced(words: Seq<Seq<u8>>) -> Seq<Seq<u8>> {
    Seq::new(words.len(), |i: int| seq![0x20u8] + quoted(words[i]))
}

proof fn together_is_spaced(words: Seq<Seq<u8>>)
    ensures
        together(each_spaced(words)) == spaced(words),
    decreases words.len(),
{
    if words.len() > 0 {
        assert(each_spaced(words).drop_last() =~= each_spaced(words.drop_last()));
        together_is_spaced(words.drop_last());
    }
}

proof fn optioned_is_spaced(blanked: Seq<u8>, option: Seq<u8>, list: Seq<Seq<u8>>)
    requires
        blanked == seq![0x20u8] + option,
        quoted(option) == option,
    ensures
        optioned(blanked, list) == each_spaced(each_behind(option, list)),
{
    let words = each_behind(option, list);
    assert forall|i: int| 0 <= i < list.len() implies optioned(blanked, list)[i] == each_spaced(
        words,
    )[i] by {
        quoted_apart(option, lossy(list[i]));
        assert(blanked + quoted(lossy(list[i])) =~= seq![0x20u8] + (option + quoted(
            lossy(list[i]),
        )));
    }
    assert(optioned(blanked, list) =~= each_spaced(words));
}

/// Two words that are carried alike are alike.
proof fn quoting_tells_apart(left: Seq<u8>, right: Seq<u8>)
    requires
        left.len() > 0,
        right.len() > 0,
        quoted(left) == quoted(right),
    ensures
        left == right,
{
    quoting_round_trips(seq![left]);
    quoting_round_trips(seq![right]);
    assert(all_quoted(seq![left]) =~= all_quoted(seq![right]));
    assert(seq![left][0] == seq![right][0]);
}

proof fn firsts_are_among(list: Seq<Seq<u8>>, at: int)
    requires
        0 <= at < firsts(list).len(),
    ensures
        list.contains(firsts(list)[at]),
    decreases list.len(),
{
    if list.len() > 0 {
        let before = firsts(list.drop_last());
        if at < before.len() {
            firsts_are_among(list.drop_last(), at);
            let i = choose|i: int|
                0 <= i < list.drop_last().len() && list.drop_last()[i] == before[at];
            assert(list[i] == before[at]);
        } else {
            assert(list[list.len() - 1] == firsts(list)[at]);
        }
    }
}

proof fn firsts_are_spaced(words: Seq<Seq<u8>>)
    requires
        forall|i: int| 0 <= i < words.len() ==> (#[trigger] words[i]).len() > 0,
    ensures
        firsts(each_spaced(words)) == each_spaced(firsts(words)),
    decreases words.len(),
{
    if words.len() > 0 {
        let front = words.drop_last();
        let last = words.last();
        let before = firsts(front);
        assert(each_spaced(words).drop_last() =~= each_spaced(front));
        firsts_are_spaced(front);
        let item = seq![0x20u8] + quoted(last);
        assert(each_spaced(words).last() == item);
        if before.contains(last) {
            let i = choose|i: int| 0 <= i < before.len() && before[i] == last;
            assert(each_spaced(before)[i] == item);
        }
        if each_spaced(before).contains(item) {
            let i = choose|i: int| 0 <= i < before.len() && each_spaced(before)[i] == item;
            firsts_are_among(front, i);
            let j = choose|j: int| 0 <= j < front.len() && front[j] == before[i];
            assert(words[j] == before[i]);
            assert(quoted(before[i]) =~= quoted(last)) by {
                assert((seq![0x20u8] + quoted(before[i])).skip(1) =~= quoted(before[i]));
                assert(item.skip(1) =~= quoted(last));
            }
            quoting_tells_apart(before[i], last);
        }
        assert(each_spaced(before.push(last)) =~= each_spaced(before).push(item));
    } else {
        assert(firsts(each_spaced(words)) =~= each_spaced(firsts(words)));
    }
}

/// Words with a blank between each two, behind one more, are those words each
/// behind a blank.
proof fn joined_is_spaced(words: Seq<Seq<u8>>)
    requires
        words.len() > 0,
    ensures
        seq![0x20u8] + joined(all_quoted(words), seq![0x20u8]) == spaced(words),
    decreases words.len(),
{
    if words.len() == 1 {
        assert(words =~= seq![words[0]]);
        spaced_alone(words[0]);
    } else {
        assert(all_quoted(words).drop_last() =~= all_quoted(words.drop_last()));
        joined_is_spaced(words.drop_last());
        assert(seq![0x20u8] + joined(all_quoted(words), seq![0x20u8]) =~= spaced(words));
    }
}

proof fn a_place_is_inside(assignments: Seq<(Seq<u8>, Seq<u8>)>, name: Seq<u8>)
    ensures
        0 <= place_of(assignments, name) <= assignments.len(),
    decreases assignments.len(),
{
    if assignments.len() > 0 {
        a_place_is_inside(assignments.drop_last(), name);
    }
}

pub(crate) proof fn an_assignment_is_a_word(variables: Seq<Seq<u8>>, at: int)
    requires
        0 <= at < assigned(variables).len(),
    ensures
        assigned(variables)[at].1.contains(0x3d),
        bound_name(assigned(variables)[at].1) == Some(assigned(variables)[at].0),
    decreases variables.len(),
{
    if variables.len() > 0 {
        let before = assigned(variables.drop_last());
        let last = variables.last();
        if at < before.len() {
            an_assignment_is_a_word(variables.drop_last(), at);
        }
        if let Some(name) = bound_name(last) {
            a_place_is_inside(before, name);
            crate::bytes::first_at_is_first(last, 0x3d, 0);
            let equals = crate::bytes::first_at(last, 0x3d, 0);
            assert(last[equals] == 0x3d);
        }
    }
}

proof fn letters_are_unquoted(settings: Settings, count: int)
    ensures
        unquoted(letters(settings, count)),
    decreases count,
{
    if count > 0 {
        letters_are_unquoted(settings, count - 1);
    }
}

proof fn more_is_spaced(group: Seq<u8>, before: Seq<Seq<u8>>, more: Seq<Seq<u8>>)
    ensures
        (group + spaced(before)) + spaced(more) == group + spaced(before + more),
{
    spaced_apart(before, more);
    assert((group + spaced(before)) + spaced(more) =~= group + spaced(before + more));
}

proof fn wanted_is_spaced(wanted: bool, blanked: Seq<u8>, word: Seq<u8>)
    requires
        blanked == seq![0x20u8] + word,
        unquoted(word),
    ensures
        where_wanted(wanted, blanked) == spaced(word_where(wanted, word)),
{
    carried_as_it_is(word);
    spaced_alone(word);
}

proof fn jobs_are_spaced(jobs: Option<JobLimit>)
    ensures
        jobs_option(jobs) == spaced(jobs_word(jobs)),
{
    short_options_behind_a_blank();
    short_options_are_unquoted();
    match jobs {
        Some(JobLimit::Fixed(count)) => {
            let digits = decimal(count as nat);
            digits_are_unquoted(count as nat);
            assert(unquoted(text("-j") + digits));
            carried_as_it_is(text("-j") + digits);
            spaced_alone(text("-j") + digits);
            assert(text(" -j") + digits =~= seq![0x20u8] + (text("-j") + digits));
        },
        Some(JobLimit::Unlimited) => {
            carried_as_it_is(text("-j"));
            spaced_alone(text("-j"));
        },
        _ => {},
    }
}

proof fn load_is_spaced(settings: Settings)
    requires
        settings.load matches Some(load) ==> load.1 ==> unquoted(
            load_shown(settings.around, load.0),
        ),
    ensures
        (match settings.load {
            Some(load) => where_wanted(load.1, text(" -l") + load_shown(settings.around, load.0)),
            None => Seq::empty(),
        }) == spaced(load_word(settings)),
{
    short_options_behind_a_blank();
    short_options_are_unquoted();
    if let Some(load) = settings.load {
        if load.1 {
            let shown = load_shown(settings.around, load.0);
            assert(unquoted(text("-l") + shown));
            carried_as_it_is(text("-l") + shown);
            spaced_alone(text("-l") + shown);
            assert(text(" -l") + shown =~= seq![0x20u8] + (text("-l") + shown));
        }
    }
}

proof fn sync_is_spaced(settings: Settings)
    ensures
        (match settings.output_sync {
            Some(sync) => text(" ") + sync.spelled(),
            None => Seq::empty(),
        }) == spaced(sync_word(settings)),
{
    blanks_are_spelled();
    kinds_are_unquoted();
    if let Some(sync) = settings.output_sync {
        carried_as_it_is(sync.spelled());
        spaced_alone(sync.spelled());
    }
}

proof fn shuffle_is_spaced(settings: Settings)
    requires
        settings.shuffle_spelling matches Some(mode) ==> unquoted(mode),
    ensures
        (match settings.shuffle_spelling {
            Some(mode) => text(" --shuffle=") + mode,
            None => Seq::empty(),
        }) == spaced(shuffle_word(settings)),
{
    switches_behind_a_blank();
    short_options_are_unquoted();
    if let Some(mode) = settings.shuffle_spelling {
        assert(unquoted(text("--shuffle=") + mode));
        carried_as_it_is(text("--shuffle=") + mode);
        spaced_alone(text("--shuffle=") + mode);
        assert(text(" --shuffle=") + mode =~= seq![0x20u8] + (text("--shuffle=") + mode));
    }
}

/// Whether the load average and the shuffle are spelled with nothing in them
/// that would have to be quoted.
pub open spec fn spelled_plainly(settings: Settings) -> bool {
    &&& settings.load matches Some(load) ==> (load.1 ==> unquoted(
        load_shown(settings.around, load.0),
    ))
    &&& settings.shuffle_spelling matches Some(mode) ==> unquoted(mode)
}

proof fn the_table_is_spaced(settings: Settings, jobs: Option<JobLimit>)
    requires
        spelled_plainly(settings),
    ensures
        table_of(settings, jobs) == letters(settings, 13) + spaced(table_words(settings, jobs)),
{
    short_options_behind_a_blank();
    switches_behind_a_blank();
    short_options_are_unquoted();
    switches_are_unquoted();
    let group = letters(settings, 13);
    let dirs = each_behind(text("-I"), settings.include_dirs);
    let debugging = each_behind(text("--debug="), settings.debug);
    carried_as_it_is(text("-I"));
    carried_as_it_is(text("--debug="));
    optioned_is_spaced(text(" -I"), text("-I"), settings.include_dirs);
    together_is_spaced(dirs);
    optioned_is_spaced(text(" --debug="), text("--debug="), settings.debug);
    firsts_are_spaced(debugging);
    together_is_spaced(firsts(debugging));
    jobs_are_spaced(jobs);
    load_is_spaced(settings);
    sync_is_spaced(settings);
    shuffle_is_spaced(settings);
    let traced = settings.given.contains(Switch::Trace);
    let warned = settings.given.contains(Switch::WarnUndefinedVariables);
    let unprinted = settings.refused.contains(Switch::PrintDirectory);
    let unsilenced = settings.refused.contains(Switch::Silent);
    wanted_is_spaced(traced, text(" --trace"), text("--trace"));
    wanted_is_spaced(
        warned,
        text(" --warn-undefined-variables"),
        text("--warn-undefined-variables"),
    );
    wanted_is_spaced(unprinted, text(" --no-print-directory"), text("--no-print-directory"));
    wanted_is_spaced(unsilenced, text(" --no-silent"), text("--no-silent"));
    let first = dirs + jobs_word(jobs);
    more_is_spaced(group, dirs, jobs_word(jobs));
    let second = first + load_word(settings);
    more_is_spaced(group, first, load_word(settings));
    let third = second + sync_word(settings);
    more_is_spaced(group, second, sync_word(settings));
    let fourth = third + firsts(debugging);
    more_is_spaced(group, third, firsts(debugging));
    let fifth = fourth + word_where(traced, text("--trace"));
    more_is_spaced(group, fourth, word_where(traced, text("--trace")));
    let sixth = fifth + word_where(warned, text("--warn-undefined-variables"));
    more_is_spaced(group, fifth, word_where(warned, text("--warn-undefined-variables")));
    let seventh = sixth + word_where(unprinted, text("--no-print-directory"));
    more_is_spaced(group, sixth, word_where(unprinted, text("--no-print-directory")));
    let eighth = seventh + word_where(unsilenced, text("--no-silent"));
    more_is_spaced(group, seventh, word_where(unsilenced, text("--no-silent")));
    more_is_spaced(group, eighth, shuffle_word(settings));
}

proof fn what_is_published_is_spaced(settings: Settings, jobs: Option<JobLimit>)
    requires
        spelled_plainly(settings),
    ensures
        published(settings, jobs).makeflags == letters(settings, 13) + spaced(
            words_behind(settings, jobs),
        ),
{
    let group = letters(settings, 13);
    let table = table_words(settings, jobs);
    let evals = each_behind(text("--eval="), settings.evals);
    let overrides = assignment_words(settings.variables);
    the_table_is_spaced(settings, jobs);
    blanks_are_spelled();
    short_options_are_unquoted();
    carried_as_it_is(text("--eval="));
    carried_as_it_is(text("--"));
    assert(optioned(text("--eval="), settings.evals) =~= all_quoted(evals)) by {
        assert forall|i: int| 0 <= i < evals.len() implies optioned(
            text("--eval="),
            settings.evals,
        )[i] == all_quoted(evals)[i] by {
            quoted_apart(text("--eval="), lossy(settings.evals[i]));
        }
    }
    let flags = evals_of(settings);
    assert(where_wanted(flags.len() > 0, text(" ") + flags) =~= spaced(evals)) by {
        if evals.len() > 0 {
            joined_is_spaced(evals);
            spaced_apart(evals.take(1), evals.skip(1));
            assert(evals.take(1) + evals.skip(1) =~= evals);
            assert(evals.take(1) =~= seq![evals[0]]);
            spaced_alone(evals[0]);
            quoted_apart(text("--eval="), lossy(settings.evals[0]));
            assert(spaced(evals).len() > 1);
        }
    }
    more_is_spaced(group, table, evals);
    assert(override_words(assigned(settings.variables)) =~= all_quoted(overrides));
    let carried = overrides_of(settings.variables);
    let behind = if overrides.len() > 0 {
        seq![text("--")] + overrides
    } else {
        Seq::empty()
    };
    assert(where_wanted(carried.len() > 0, text(" -- ") + carried) =~= spaced(behind)) by {
        if overrides.len() > 0 {
            joined_is_spaced(overrides);
            spaced_apart(seq![text("--")], overrides);
            spaced_alone(text("--"));
            spaced_apart(overrides.take(1), overrides.skip(1));
            assert(overrides.take(1) + overrides.skip(1) =~= overrides);
            assert(overrides.take(1) =~= seq![overrides[0]]);
            spaced_alone(overrides[0]);
            an_assignment_is_a_word(
                settings.variables,
                assigned(settings.variables).len() - 1,
            );
            assert(quoted(overrides[0]).len() > 0);
            assert(spaced(overrides).len() > 1);
            assert(carried.len() > 0);
        }
    }
    more_is_spaced(group, table + evals, behind);
}

/// Whether every word of a list is an option's.
pub open spec fn dashed_words(words: Seq<Seq<u8>>) -> bool {
    forall|i: int|
        0 <= i < words.len() ==> (#[trigger] words[i]).len() > 1 && words[i][0] == 0x2d
}

pub(crate) proof fn dashed_apart(left: Seq<Seq<u8>>, right: Seq<Seq<u8>>)
    requires
        dashed_words(left),
        dashed_words(right),
    ensures
        dashed_words(left + right),
{
}

proof fn behind_is_dashed(option: Seq<u8>, list: Seq<Seq<u8>>)
    requires
        option.len() > 1,
        option[0] == 0x2d,
    ensures
        dashed_words(each_behind(option, list)),
        dashed_words(firsts(each_behind(option, list))),
{
    let words = each_behind(option, list);
    assert forall|i: int| 0 <= i < firsts(words).len() implies (#[trigger] firsts(words)[i]).len()
        > 1 && firsts(words)[i][0] == 0x2d by {
        firsts_are_among(words, i);
    }
}

/// The spellings an option word begins with begin with a dash.
proof fn options_open_with_a_dash()
    ensures
        text("--").len() == 2,
        text("--")[0] == 0x2d,
        text("--")[1] == 0x2d,
        text("-I").len() == 2,
        text("-I")[0] == 0x2d,
        text("-I")[1] == 0x49,
        text("-j").len() == 2,
        text("-j")[0] == 0x2d,
        text("-j")[1] == 0x6a,
        text("-l").len() == 2,
        text("-l")[0] == 0x2d,
        text("-l")[1] == 0x6c,
        text("--debug=").len() == 8,
        text("--debug=")[0] == 0x2d,
        text("--debug=")[1] == 0x2d,
        text("--shuffle=").len() == 10,
        text("--shuffle=")[0] == 0x2d,
        text("--shuffle=")[1] == 0x2d,
        text("--eval=").len() == 7,
        text("--eval=")[0] == 0x2d,
        text("--eval=")[1] == 0x2d,
{
    assert(text("--").len() == 2 && text("--")[0] == 0x2d && text("--")[1] == 0x2d) by {
        reveal_strlit("--");
        is_ascii_spec_bytes("--");
    }
    assert(text("-I").len() == 2 && text("-I")[0] == 0x2d && text("-I")[1] == 0x49) by {
        reveal_strlit("-I");
        is_ascii_spec_bytes("-I");
    }
    assert(text("-j").len() == 2 && text("-j")[0] == 0x2d && text("-j")[1] == 0x6a) by {
        reveal_strlit("-j");
        is_ascii_spec_bytes("-j");
    }
    assert(text("-l").len() == 2 && text("-l")[0] == 0x2d && text("-l")[1] == 0x6c) by {
        reveal_strlit("-l");
        is_ascii_spec_bytes("-l");
    }
    assert(text("--debug=").len() == 8 && text("--debug=")[0] == 0x2d
        && text("--debug=")[1] == 0x2d) by {
        reveal_strlit("--debug=");
        is_ascii_spec_bytes("--debug=");
    }
    assert(text("--shuffle=").len() == 10 && text("--shuffle=")[0] == 0x2d
        && text("--shuffle=")[1] == 0x2d) by {
        reveal_strlit("--shuffle=");
        is_ascii_spec_bytes("--shuffle=");
    }
    assert(text("--eval=").len() == 7 && text("--eval=")[0] == 0x2d
        && text("--eval=")[1] == 0x2d) by {
        reveal_strlit("--eval=");
        is_ascii_spec_bytes("--eval=");
    }
}

pub(crate) proof fn switches_open_with_a_dash()
    ensures
        text("--trace").len() == 7,
        text("--trace")[0] == 0x2d,
        text("--trace")[1] == 0x2d,
        text("--warn-undefined-variables").len() == 26,
        text("--warn-undefined-variables")[0] == 0x2d,
        text("--warn-undefined-variables")[1] == 0x2d,
        text("--no-print-directory").len() == 20,
        text("--no-print-directory")[0] == 0x2d,
        text("--no-print-directory")[1] == 0x2d,
        text("--no-silent").len() == 11,
        text("--no-silent")[0] == 0x2d,
        text("--no-silent")[1] == 0x2d,
        text("-Onone").len() == 6,
        text("-Onone")[0] == 0x2d,
        text("-Onone")[1] == 0x4f,
        text("-Oline").len() == 6,
        text("-Oline")[0] == 0x2d,
        text("-Oline")[1] == 0x4f,
        text("-Otarget").len() == 8,
        text("-Otarget")[0] == 0x2d,
        text("-Otarget")[1] == 0x4f,
        text("-Orecurse").len() == 9,
        text("-Orecurse")[0] == 0x2d,
        text("-Orecurse")[1] == 0x4f,
{
    assert(text("--trace").len() == 7 && text("--trace")[0] == 0x2d
        && text("--trace")[1] == 0x2d) by {
        reveal_strlit("--trace");
        is_ascii_spec_bytes("--trace");
    }
    assert(text("--warn-undefined-variables").len() == 26
        && text("--warn-undefined-variables")[0] == 0x2d
        && text("--warn-undefined-variables")[1] == 0x2d) by {
        reveal_strlit("--warn-undefined-variables");
        is_ascii_spec_bytes("--warn-undefined-variables");
    }
    assert(text("--no-print-directory").len() == 20 && text("--no-print-directory")[0] == 0x2d
        && text("--no-print-directory")[1] == 0x2d) by {
        reveal_strlit("--no-print-directory");
        is_ascii_spec_bytes("--no-print-directory");
    }
    assert(text("--no-silent").len() == 11 && text("--no-silent")[0] == 0x2d
        && text("--no-silent")[1] == 0x2d) by {
        reveal_strlit("--no-silent");
        is_ascii_spec_bytes("--no-silent");
    }
    assert(text("-Onone").len() == 6 && text("-Onone")[0] == 0x2d && text("-Onone")[1] == 0x4f) by {
        reveal_strlit("-Onone");
        is_ascii_spec_bytes("-Onone");
    }
    assert(text("-Oline").len() == 6 && text("-Oline")[0] == 0x2d && text("-Oline")[1] == 0x4f) by {
        reveal_strlit("-Oline");
        is_ascii_spec_bytes("-Oline");
    }
    assert(text("-Otarget").len() == 8 && text("-Otarget")[0] == 0x2d
        && text("-Otarget")[1] == 0x4f) by {
        reveal_strlit("-Otarget");
        is_ascii_spec_bytes("-Otarget");
    }
    assert(text("-Orecurse").len() == 9 && text("-Orecurse")[0] == 0x2d
        && text("-Orecurse")[1] == 0x4f) by {
        reveal_strlit("-Orecurse");
        is_ascii_spec_bytes("-Orecurse");
    }
}

pub(crate) proof fn the_table_is_dashed(settings: Settings, jobs: Option<JobLimit>)
    ensures
        dashed_words(table_words(settings, jobs)),
        dashed_words(each_behind(text("--eval="), settings.evals)),
{
    options_open_with_a_dash();
    switches_open_with_a_dash();
    behind_is_dashed(text("-I"), settings.include_dirs);
    behind_is_dashed(text("--debug="), settings.debug);
    behind_is_dashed(text("--eval="), settings.evals);
    let dirs = each_behind(text("-I"), settings.include_dirs);
    let debugging = firsts(each_behind(text("--debug="), settings.debug));
    let traced = word_where(settings.given.contains(Switch::Trace), text("--trace"));
    let warned = word_where(
        settings.given.contains(Switch::WarnUndefinedVariables),
        text("--warn-undefined-variables"),
    );
    let unprinted = word_where(
        settings.refused.contains(Switch::PrintDirectory),
        text("--no-print-directory"),
    );
    let unsilenced = word_where(settings.refused.contains(Switch::Silent), text("--no-silent"));
    let first = dirs + jobs_word(jobs);
    dashed_apart(dirs, jobs_word(jobs));
    let second = first + load_word(settings);
    dashed_apart(first, load_word(settings));
    let third = second + sync_word(settings);
    dashed_apart(second, sync_word(settings));
    let fourth = third + debugging;
    dashed_apart(third, debugging);
    let fifth = fourth + traced;
    dashed_apart(fourth, traced);
    let sixth = fifth + warned;
    dashed_apart(fifth, warned);
    let seventh = sixth + unprinted;
    dashed_apart(sixth, unprinted);
    let eighth = seventh + unsilenced;
    dashed_apart(seventh, unsilenced);
    dashed_apart(eighth, shuffle_word(settings));
}

proof fn every_word_says_something(settings: Settings, jobs: Option<JobLimit>)
    ensures
        forall|i: int|
            0 <= i < words_behind(settings, jobs).len() ==> (#[trigger] words_behind(
                settings,
                jobs,
            )[i]).len() > 0,
{
    options_open_with_a_dash();
    the_table_is_dashed(settings, jobs);
    dashed_apart(table_words(settings, jobs), each_behind(text("--eval="), settings.evals));
    let overrides = assignment_words(settings.variables);
    assert forall|i: int| 0 <= i < overrides.len() implies (#[trigger] overrides[i]).len() > 0 by {
        an_assignment_is_a_word(
            settings.variables,
            assigned(settings.variables).len() - 1 - i,
        );
    }
}

/// What an invocation publishes in `MAKEFLAGS` is split back into the words it
/// was put together from, whatever its directories, statements, `--debug`
/// arguments and assignments hold.
pub proof fn what_is_published_is_split_back(settings: Settings, jobs: Option<JobLimit>)
    requires
        spelled_plainly(settings),
    ensures
        words_in(published(settings, jobs).makeflags, true) == handed(settings, jobs),
{
    what_is_published_is_spaced(settings, jobs);
    letters_are_unquoted(settings, 13);
    every_word_says_something(settings, jobs);
    grouped_words_are_read(letters(settings, 13), words_behind(settings, jobs));
}

} // verus!
