//! `MAKEFLAGS`: how an invocation describes itself to a child, and how that
//! description is read back.

use crate::bytes::{
    append, blank, copied, decimal, decimal_of, ends, ends_with, first_at, find, holds, is_blank,
    is_utf8, join, joined, literal, lossy, maybe, part, same, text, texts, to_str_lossy,
};
use crate::error::message;
use crate::invocation::{look_up, looked_up, push_text, Around, Invocation, Settings};
use crate::options::{JobLimit, Switch};
use vstd::prelude::*;
use vstd::string::*;
use vstd::utf8::*;

verus! {

/// One byte as `MAKEFLAGS` carries it: a `$` doubled, and a backslash or a
/// blank behind a backslash.
pub open spec fn escaped(byte: u8) -> Seq<u8> {
    if byte == 0x5c {
        seq![0x5cu8, 0x5cu8]
    } else if byte == 0x24 {
        seq![0x24u8, 0x24u8]
    } else if blank(byte) {
        seq![0x5cu8, byte]
    } else {
        seq![byte]
    }
}

/// One word as `MAKEFLAGS` carries it.
pub open spec fn quoted(word: Seq<u8>) -> Seq<u8>
    decreases word.len(),
{
    if word.len() == 0 {
        Seq::empty()
    } else {
        escaped(word[0]) + quoted(word.drop_first())
    }
}

/// Quote one word so `MAKEFLAGS` carries it back as the single word it was.
pub fn quote_for_makeflags(word: &[u8]) -> (carried: Vec<u8>)
    ensures
        carried@ == quoted(word@),
{
    let mut carried: Vec<u8> = Vec::new();
    let mut at: usize = 0;
    assert(word@.skip(0) =~= word@);
    assert(carried@ + quoted(word@.skip(0)) =~= quoted(word@));
    while at < word.len()
        invariant
            at <= word@.len(),
            carried@ + quoted(word@.skip(at as int)) == quoted(word@),
        decreases word@.len() - at,
    {
        let byte: u8 = word[at];
        let ghost before = carried@;
        let ghost here = word@.skip(at as int);
        assert(here[0] == byte);
        assert(here.drop_first() =~= word@.skip(at as int + 1));
        if byte == 0x5c || byte == 0x24 {
            carried.push(byte);
            carried.push(byte);
        } else if is_blank(byte) {
            carried.push(0x5c);
            carried.push(byte);
        } else {
            carried.push(byte);
        }
        assert(carried@ =~= before + escaped(byte));
        assert(carried@ + quoted(word@.skip(at as int + 1)) =~= before + (escaped(byte) + quoted(
            word@.skip(at as int + 1),
        )));
        at += 1;
    }
    assert(carried@ + Seq::<u8>::empty() =~= carried@);
    carried
}

/// Where the first byte that is no blank stands, at or after `at`.
pub open spec fn past_blanks(bytes: Seq<u8>, at: int) -> int
    decreases bytes.len() - at,
{
    if 0 <= at < bytes.len() && blank(bytes[at]) {
        past_blanks(bytes, at + 1)
    } else {
        at
    }
}

proof fn past_blanks_is_after(bytes: Seq<u8>, at: int)
    ensures
        at <= past_blanks(bytes, at),
        at <= bytes.len() ==> past_blanks(bytes, at) <= bytes.len(),
    decreases bytes.len() - at,
{
    if 0 <= at < bytes.len() && blank(bytes[at]) {
        past_blanks_is_after(bytes, at + 1);
    }
}

/// The words of a value from `at` on, the first of them already holding `word`.
///
/// A backslash protects the byte behind it, and where `halve` says so a doubled
/// dollar is one. A run of blanks ends a word, and the last word ends wherever
/// the value does, even where it is empty.
pub open spec fn words_from(bytes: Seq<u8>, at: int, word: Seq<u8>, halve: bool) -> Seq<Seq<u8>>
    decreases bytes.len() + 1 - at,
    via words_from_ends
{
    if at < 0 || at >= bytes.len() {
        seq![word]
    } else {
        let byte = bytes[at];
        let more = at + 1 < bytes.len();
        if byte == 0x5c && more {
            words_from(bytes, at + 2, word.push(bytes[at + 1]), halve)
        } else if byte == 0x24 && halve && more && bytes[at + 1] == 0x24 {
            words_from(bytes, at + 2, word.push(0x24), halve)
        } else if blank(byte) {
            seq![word] + words_from(bytes, past_blanks(bytes, at + 1), Seq::empty(), halve)
        } else {
            words_from(bytes, at + 1, word.push(byte), halve)
        }
    }
}

#[via_fn]
proof fn words_from_ends(bytes: Seq<u8>, at: int, word: Seq<u8>, halve: bool) {
    past_blanks_is_after(bytes, at + 1);
}

/// The words of a value: none where there is nothing but blanks.
pub open spec fn words_in(bytes: Seq<u8>, halve: bool) -> Seq<Seq<u8>> {
    let start = past_blanks(bytes, 0);
    if start >= bytes.len() {
        Seq::empty()
    } else {
        words_from(bytes, start, Seq::empty(), halve)
    }
}

/// Split the words Make writes into `MAKEFLAGS`.
pub fn makeflags_words(inherited: &[u8], halve_dollars: bool) -> (words: Vec<Vec<u8>>)
    ensures
        texts(words@) == words_in(inherited@, halve_dollars),
{
    let ghost whole = words_in(inherited@, halve_dollars);
    let mut words: Vec<Vec<u8>> = Vec::new();
    let mut index: usize = 0;
    while index < inherited.len() && is_blank(inherited[index])
        invariant
            index <= inherited@.len(),
            past_blanks(inherited@, 0) == past_blanks(inherited@, index as int),
        decreases inherited@.len() - index,
    {
        index += 1;
    }
    if index == inherited.len() {
        assert(texts(words@) =~= Seq::empty());
        return words;
    }
    let mut word: Vec<u8> = Vec::new();
    assert(word@ =~= Seq::empty());
    assert(texts(words@) + words_from(inherited@, index as int, word@, halve_dollars) =~= whole);
    while index < inherited.len()
        invariant
            index <= inherited@.len(),
            whole == words_in(inherited@, halve_dollars),
            texts(words@) + words_from(inherited@, index as int, word@, halve_dollars) == whole,
        decreases inherited@.len() - index,
    {
        let byte: u8 = inherited[index];
        let more: bool = inherited.len() - index > 1;
        if byte == 0x5c && more {
            word.push(inherited[index + 1]);
            index += 2;
        } else if byte == 0x24 && halve_dollars && more && inherited[index + 1] == 0x24 {
            word.push(0x24);
            index += 2;
        } else if is_blank(byte) {
            let ghost known = texts(words@);
            let ghost held = word@;
            let ghost stood = index as int;
            words.push(word);
            word = Vec::new();
            assert(word@ =~= Seq::empty());
            assert(texts(words@) =~= known.push(held));
            index += 1;
            while index < inherited.len() && is_blank(inherited[index])
                invariant
                    stood + 1 <= index <= inherited@.len(),
                    past_blanks(inherited@, stood + 1) == past_blanks(inherited@, index as int),
                decreases inherited@.len() - index,
            {
                index += 1;
            }
            assert(texts(words@) + words_from(
                inherited@,
                index as int,
                Seq::empty(),
                halve_dollars,
            ) =~= known + (seq![held] + words_from(
                inherited@,
                index as int,
                Seq::empty(),
                halve_dollars,
            )));
        } else {
            word.push(byte);
            index += 1;
        }
    }
    let ghost known = texts(words@);
    let ghost held = word@;
    words.push(word);
    assert(texts(words@) =~= known.push(held));
    assert(known.push(held) =~= known + seq![held]);
    words
}

/// Reading a quoted word adds the word it was to the one being read.
pub(crate) proof fn quoted_word_is_read(bytes: Seq<u8>, at: int, held: Seq<u8>, word: Seq<u8>)
    requires
        0 <= at,
        at + quoted(word).len() <= bytes.len(),
        bytes.subrange(at, at + quoted(word).len()) == quoted(word),
    ensures
        words_from(bytes, at, held, true) == words_from(
            bytes,
            at + quoted(word).len(),
            held + word,
            true,
        ),
    decreases word.len(),
{
    if word.len() == 0 {
        assert(held + word =~= held);
    } else {
        let first = escaped(word[0]);
        let rest = quoted(word.drop_first());
        let slice = bytes.subrange(at, at + quoted(word).len());
        assert(forall|i: int| 0 <= i < first.len() ==> bytes[at + i] == #[trigger] first[i]) by {
            assert forall|i: int| 0 <= i < first.len() implies bytes[at + i] == #[trigger] first[i] by {
                assert(slice[i] == (first + rest)[i]);
            }
        }
        assert(bytes.subrange(at + first.len(), at + first.len() + rest.len()) =~= rest) by {
            assert forall|i: int| 0 <= i < rest.len() implies bytes[at + first.len() + i]
                == rest[i] by {
                assert(slice[first.len() + i] == (first + rest)[first.len() + i]);
            }
        }
        assert(bytes[at] == first[0]);
        if first.len() == 2 {
            assert(bytes[at + 1] == first[1]);
        }
        assert(words_from(bytes, at, held, true) == words_from(
            bytes,
            at + first.len(),
            held.push(word[0]),
            true,
        ));
        quoted_word_is_read(bytes, at + first.len(), held.push(word[0]), word.drop_first());
        assert(held.push(word[0]) + word.drop_first() =~= held + word);
    }
}

/// Every word of a list as `MAKEFLAGS` carries it.
pub open spec fn all_quoted(words: Seq<Seq<u8>>) -> Seq<Seq<u8>> {
    Seq::new(words.len(), |i: int| quoted(words[i]))
}

proof fn quoted_opens_with_no_blank(word: Seq<u8>)
    requires
        word.len() > 0,
    ensures
        quoted(word).len() > 0,
        !blank(quoted(word)[0]),
{
    assert(quoted(word)[0] == escaped(word[0])[0]);
}

proof fn carried_words_are_read(words: Seq<Seq<u8>>, tail: Seq<u8>)
    requires
        words.len() > 0,
        forall|i: int| 0 <= i < words.len() ==> (#[trigger] words[i]).len() > 0,
    ensures
        ({
            let carried = joined(all_quoted(words), seq![0x20u8]);
            &&& carried.len() > 0
            &&& !blank(carried[0])
            &&& words_from(carried + tail, 0, Seq::empty(), true) == words.drop_last()
                + words_from(carried + tail, carried.len() as int, words.last(), true)
        }),
    decreases words.len(),
{
    let carried = joined(all_quoted(words), seq![0x20u8]);
    let bytes = carried + tail;
    let last = words.last();
    quoted_opens_with_no_blank(last);
    if words.len() == 1 {
        assert(carried == quoted(last));
        assert(bytes.subrange(0, quoted(last).len() as int) =~= quoted(last));
        quoted_word_is_read(bytes, 0, Seq::empty(), last);
        assert(Seq::<u8>::empty() + last =~= last);
        assert(words.drop_last() =~= Seq::<Seq<u8>>::empty());
        assert(words.drop_last() + words_from(bytes, carried.len() as int, last, true)
            =~= words_from(bytes, carried.len() as int, last, true));
    } else {
        let front = words.drop_last();
        let before = joined(all_quoted(front), seq![0x20u8]);
        assert(all_quoted(words).drop_last() =~= all_quoted(front));
        assert(all_quoted(words).last() == quoted(last));
        let behind = seq![0x20u8] + quoted(last) + tail;
        assert(carried =~= before + seq![0x20u8] + quoted(last));
        assert(bytes =~= before + behind);
        carried_words_are_read(front, behind);
        assert(carried[0] == before[0]);
        let gap = before.len() as int;
        assert(bytes[gap] == 0x20);
        assert(bytes[gap + 1] == quoted(last)[0]);
        assert(past_blanks(bytes, gap + 1) == gap + 1);
        assert(bytes.subrange(gap + 1, gap + 1 + quoted(last).len()) =~= quoted(last));
        quoted_word_is_read(bytes, gap + 1, Seq::empty(), last);
        assert(Seq::<u8>::empty() + last =~= last);
        let after = words_from(bytes, carried.len() as int, last, true);
        assert(words_from(bytes, gap, front.last(), true) == seq![front.last()] + after);
        assert(front.drop_last() + (seq![front.last()] + after) =~= front + after);
    }
}

/// Words quoted into `MAKEFLAGS`, with a space between each two, are read back
/// as the words they were.
pub proof fn quoting_round_trips(words: Seq<Seq<u8>>)
    requires
        forall|i: int| 0 <= i < words.len() ==> (#[trigger] words[i]).len() > 0,
    ensures
        words_in(joined(all_quoted(words), seq![0x20u8]), true) == words,
{
    let carried = joined(all_quoted(words), seq![0x20u8]);
    if words.len() == 0 {
        assert(carried =~= Seq::<u8>::empty());
        assert(words_in(carried, true) =~= words);
    } else {
        carried_words_are_read(words, Seq::empty());
        assert(carried + Seq::<u8>::empty() =~= carried);
        assert(past_blanks(carried, 0) == 0);
        assert(words.drop_last() + seq![words.last()] =~= words);
    }
}

/// The name an assignment binds, as its model: what stands before the first
/// `=`, without the operator that stands there.
pub open spec fn bound_name(assignment: Seq<u8>) -> Option<Seq<u8>> {
    let equals = first_at(assignment, 0x3d, 0);
    if equals >= assignment.len() {
        None
    } else {
        let before = assignment.take(equals);
        Some(
            if ends(before, text(":::")) {
                before.take(before.len() - text(":::").len())
            } else if ends(before, text("::")) {
                before.take(before.len() - text("::").len())
            } else if ends(before, text(":")) {
                before.take(before.len() - text(":").len())
            } else if ends(before, text("+")) {
                before.take(before.len() - text("+").len())
            } else if ends(before, text("?")) {
                before.take(before.len() - text("?").len())
            } else if ends(before, text("!")) {
                before.take(before.len() - text("!").len())
            } else {
                before
            },
        )
    }
}

/// What is left of bytes without a suffix that is there.
fn without_suffix(bytes: &[u8], suffix: &[u8]) -> (rest: Option<Vec<u8>>)
    ensures
        match rest {
            Some(held) => ends(bytes@, suffix@) && held@ == bytes@.take(
                bytes@.len() - suffix@.len(),
            ),
            None => !ends(bytes@, suffix@),
        },
{
    if ends_with(bytes, suffix) {
        let held: Vec<u8> = part(bytes, 0, bytes.len() - suffix.len());
        assert(held@ =~= bytes@.take(bytes@.len() - suffix@.len()));
        Some(held)
    } else {
        None
    }
}

/// The variable name an assignment binds, excluding its operator.
pub fn command_variable_name(assignment: &[u8]) -> (name: Option<Vec<u8>>)
    ensures
        maybe(name) == bound_name(assignment@),
{
    let equals: usize = find(assignment, 0x3d, 0);
    if equals == assignment.len() {
        return None;
    }
    let before: Vec<u8> = part(assignment, 0, equals);
    assert(before@ =~= assignment@.take(equals as int));
    if let Some(name) = without_suffix(&before, ":::".as_bytes()) {
        return Some(name);
    }
    if let Some(name) = without_suffix(&before, "::".as_bytes()) {
        return Some(name);
    }
    if let Some(name) = without_suffix(&before, ":".as_bytes()) {
        return Some(name);
    }
    if let Some(name) = without_suffix(&before, "+".as_bytes()) {
        return Some(name);
    }
    if let Some(name) = without_suffix(&before, "?".as_bytes()) {
        return Some(name);
    }
    if let Some(name) = without_suffix(&before, "!".as_bytes()) {
        return Some(name);
    }
    Some(before)
}

/// Where a name stands in a list of assignments, or how long the list is.
pub open spec fn place_of(assignments: Seq<(Seq<u8>, Seq<u8>)>, name: Seq<u8>) -> int
    decreases assignments.len(),
{
    if assignments.len() == 0 {
        0
    } else {
        let before = place_of(assignments.drop_last(), name);
        if before < assignments.len() - 1 || assignments.last().0 == name {
            before
        } else {
            before + 1
        }
    }
}

/// The assignments a command line made, the last value under each name, in the
/// order the names came up.
pub open spec fn assigned(variables: Seq<Seq<u8>>) -> Seq<(Seq<u8>, Seq<u8>)>
    decreases variables.len(),
{
    if variables.len() == 0 {
        Seq::empty()
    } else {
        let before = assigned(variables.drop_last());
        let last = variables.last();
        match bound_name(last) {
            Some(name) => if !valid_utf8(last) {
                before
            } else if place_of(before, name) < before.len() {
                before.update(place_of(before, name), (name, last))
            } else {
                before.push((name, last))
            },
            None => before,
        }
    }
}

/// The assignments, each as `MAKEFLAGS` carries it, the name that came up last
/// first.
pub open spec fn override_words(assignments: Seq<(Seq<u8>, Seq<u8>)>) -> Seq<Seq<u8>> {
    Seq::new(
        assignments.len(),
        |i: int| quoted(assignments[assignments.len() - 1 - i].1),
    )
}

/// The assignments a child is handed.
pub open spec fn overrides_of(variables: Seq<Seq<u8>>) -> Seq<u8> {
    joined(override_words(assigned(variables)), text(" "))
}

pub(crate) proof fn place_of_is_first(assignments: Seq<(Seq<u8>, Seq<u8>)>, name: Seq<u8>, at: int)
    requires
        0 <= at <= assignments.len(),
        forall|i: int| 0 <= i < at ==> (#[trigger] assignments[i]).0 != name,
        at < assignments.len() ==> assignments[at].0 == name,
    ensures
        place_of(assignments, name) == at,
    decreases assignments.len(),
{
    if assignments.len() > 0 {
        let before = assignments.drop_last();
        if at == assignments.len() {
            place_of_is_first(before, name, at - 1);
        } else {
            if at < before.len() {
                assert(before[at] == assignments[at]);
            }
            place_of_is_first(before, name, at);
        }
    }
}

/// Keep the last value for each command-line name and publish the table in the
/// reverse of the order the names were introduced in.
pub fn command_overrides(invocation: &Invocation) -> (overrides: Vec<u8>)
    ensures
        overrides@ == overrides_of(invocation.model().variables),
{
    let variables: &Vec<Vec<u8>> = &invocation.variables;
    let ghost all = texts(variables@);
    let mut assignments: Vec<(Vec<u8>, Vec<u8>)> = Vec::new();
    let mut at: usize = 0;
    assert(all.take(0) =~= Seq::empty());
    assert(crate::invocation::pairs(assignments@) =~= Seq::empty());
    while at < variables.len()
        invariant
            at <= variables@.len(),
            all == texts(variables@),
            crate::invocation::pairs(assignments@) == assigned(all.take(at as int)),
        decreases variables@.len() - at,
    {
        let ghost next = all.take(at as int + 1);
        let ghost before = crate::invocation::pairs(assignments@);
        assert(next.drop_last() =~= all.take(at as int));
        assert(next.last() == variables@[at as int]@);
        let assignment: &Vec<u8> = &variables[at];
        if is_utf8(assignment) {
            if let Some(name) = command_variable_name(assignment) {
                let mut place: usize = 0;
                while place < assignments.len() && !same(&assignments[place].0, &name)
                    invariant
                        place <= assignments@.len(),
                        before == crate::invocation::pairs(assignments@),
                        forall|i: int| 0 <= i < place ==> (#[trigger] before[i]).0 != name@,
                    decreases assignments@.len() - place,
                {
                    assert(before[place as int].0 == assignments@[place as int].0@);
                    place += 1;
                }
                proof {
                    if place < assignments@.len() {
                        assert(before[place as int].0 == assignments@[place as int].0@);
                    }
                    place_of_is_first(before, name@, place as int);
                }
                if place < assignments.len() {
                    let ghost held = assignments@;
                    assignments[place].1 = copied(assignment);
                    assert(crate::invocation::pairs(assignments@) =~= before.update(
                        place as int,
                        (name@, assignment@),
                    ));
                } else {
                    let ghost bound = name@;
                    assignments.push((name, copied(assignment)));
                    assert(crate::invocation::pairs(assignments@) =~= before.push(
                        (bound, assignment@),
                    ));
                }
            }
        }
        at += 1;
    }
    assert(all.take(at as int) =~= all);
    let ghost settled = assigned(all);
    let mut words: Vec<Vec<u8>> = Vec::new();
    let mut left: usize = assignments.len();
    assert(texts(words@) =~= override_words(settled).take(0));
    while left > 0
        invariant
            left <= assignments@.len(),
            settled == crate::invocation::pairs(assignments@),
            texts(words@) == override_words(settled).take(assignments@.len() - left),
        decreases left,
    {
        left -= 1;
        let ghost before = texts(words@);
        assert(settled[left as int].1 == assignments@[left as int].1@);
        words.push(quote_for_makeflags(&assignments[left].1));
        assert(texts(words@) =~= before.push(quoted(settled[left as int].1)));
        assert(texts(words@) =~= override_words(settled).take(assignments@.len() - left));
    }
    assert(override_words(settled).take(assignments@.len() as int) =~= override_words(settled));
    join(&words, " ".as_bytes())
}

/// The switch at one place of the letter group, its letter, and whether the
/// letter asks for it or takes it back.
pub open spec fn group(at: int) -> (Switch, u8, bool) {
    if at == 0 {
        (Switch::AlwaysMake, 0x42, true)
    } else if at == 1 {
        (Switch::Debug, 0x64, true)
    } else if at == 2 {
        (Switch::EnvironmentOverrides, 0x65, true)
    } else if at == 3 {
        (Switch::IgnoreErrors, 0x69, true)
    } else if at == 4 {
        (Switch::KeepGoing, 0x6b, true)
    } else if at == 5 {
        (Switch::DryRun, 0x6e, true)
    } else if at == 6 {
        (Switch::Question, 0x71, true)
    } else if at == 7 {
        (Switch::NoBuiltinRules, 0x72, true)
    } else if at == 8 {
        (Switch::NoBuiltinVariables, 0x52, true)
    } else if at == 9 {
        (Switch::Silent, 0x73, true)
    } else if at == 10 {
        (Switch::KeepGoing, 0x53, false)
    } else if at == 11 {
        (Switch::Touch, 0x74, true)
    } else {
        (Switch::PrintDirectory, 0x77, true)
    }
}

pub(crate) fn group_entry(at: usize) -> (entry: (Switch, u8, bool))
    ensures
        entry == group(at as int),
{
    match at {
        0 => (Switch::AlwaysMake, 0x42, true),
        1 => (Switch::Debug, 0x64, true),
        2 => (Switch::EnvironmentOverrides, 0x65, true),
        3 => (Switch::IgnoreErrors, 0x69, true),
        4 => (Switch::KeepGoing, 0x6b, true),
        5 => (Switch::DryRun, 0x6e, true),
        6 => (Switch::Question, 0x71, true),
        7 => (Switch::NoBuiltinRules, 0x72, true),
        8 => (Switch::NoBuiltinVariables, 0x52, true),
        9 => (Switch::Silent, 0x73, true),
        10 => (Switch::KeepGoing, 0x53, false),
        11 => (Switch::Touch, 0x74, true),
        _ => (Switch::PrintDirectory, 0x77, true),
    }
}

/// The letters of the first `count` places of the group that were spoken.
pub open spec fn letters(settings: Settings, count: int) -> Seq<u8>
    decreases count,
{
    if count <= 0 {
        Seq::empty()
    } else {
        let (switch, letter, asserted) = group(count - 1);
        let before = letters(settings, count - 1);
        if (asserted && settings.given.contains(switch)) || (!asserted && settings.refused.contains(
            switch,
        )) {
            before.push(letter)
        } else {
            before
        }
    }
}

/// Each item of a list once, where it first stands.
pub open spec fn firsts(list: Seq<Seq<u8>>) -> Seq<Seq<u8>>
    decreases list.len(),
{
    if list.len() == 0 {
        Seq::empty()
    } else {
        let before = firsts(list.drop_last());
        if before.contains(list.last()) {
            before
        } else {
            before.push(list.last())
        }
    }
}

/// Byte strings one behind the other.
pub open spec fn together(list: Seq<Seq<u8>>) -> Seq<u8>
    decreases list.len(),
{
    if list.len() == 0 {
        Seq::empty()
    } else {
        together(list.drop_last()) + list.last()
    }
}

/// Each entry of a list of texts behind an option's spelling.
pub open spec fn optioned(option: Seq<u8>, list: Seq<Seq<u8>>) -> Seq<Seq<u8>> {
    Seq::new(list.len(), |i: int| option + quoted(lossy(list[i])))
}

/// How the number a load average spells is written.
pub open spec fn load_shown(around: Around, ceiling: Seq<u8>) -> Seq<u8> {
    looked_up(around.loads, ceiling).unwrap_or(text("0"))
}

/// How a job count travels, where one does.
pub open spec fn jobs_option(jobs: Option<JobLimit>) -> Seq<u8> {
    match jobs {
        Some(JobLimit::Fixed(count)) => text(" -j") + decimal(count as nat),
        Some(JobLimit::Unlimited) => text(" -j"),
        _ => Seq::empty(),
    }
}

/// `option` where `wanted`, and nothing otherwise.
pub open spec fn where_wanted(wanted: bool, option: Seq<u8>) -> Seq<u8> {
    if wanted {
        option
    } else {
        Seq::empty()
    }
}

/// The switch table an invocation publishes: the letter group, the directories
/// makefiles are looked for in, the job count, the load average, the output
/// synchronisation, the debugging words, the long switches, the withdrawals
/// with no letter, and the shuffle.
pub open spec fn table_of(settings: Settings, jobs: Option<JobLimit>) -> Seq<u8> {
    letters(settings, 13) + together(optioned(text(" -I"), settings.include_dirs)) + jobs_option(
        jobs,
    ) + (match settings.load {
        Some(load) => where_wanted(
            load.1,
            text(" -l") + load_shown(settings.around, load.0),
        ),
        None => Seq::empty(),
    }) + (match settings.output_sync {
        Some(sync) => text(" ") + sync.spelled(),
        None => Seq::empty(),
    }) + together(firsts(optioned(text(" --debug="), settings.debug))) + where_wanted(
        settings.given.contains(Switch::Trace),
        text(" --trace"),
    ) + where_wanted(
        settings.given.contains(Switch::WarnUndefinedVariables),
        text(" --warn-undefined-variables"),
    ) + where_wanted(
        settings.refused.contains(Switch::PrintDirectory),
        text(" --no-print-directory"),
    ) + where_wanted(
        settings.refused.contains(Switch::Silent),
        text(" --no-silent"),
    ) + (match settings.shuffle_spelling {
        Some(mode) => text(" --shuffle=") + mode,
        None => Seq::empty(),
    })
}

/// The statements an invocation hands on.
pub open spec fn evals_of(settings: Settings) -> Seq<u8> {
    joined(optioned(text("--eval="), settings.evals), text(" "))
}

/// The Make interface variables one invocation presents, as their model.
pub ghost struct Published {
    pub base: Seq<u8>,
    pub eval_flags: Seq<u8>,
    pub makeflags: Seq<u8>,
    pub mflags: Seq<u8>,
    pub overrides: Seq<u8>,
}

/// The Make interface variables one invocation presents under a job count.
pub open spec fn published(settings: Settings, jobs: Option<JobLimit>) -> Published {
    let base = table_of(settings, jobs);
    let eval_flags = evals_of(settings);
    let overrides = overrides_of(settings.variables);
    Published {
        base,
        eval_flags,
        makeflags: base + where_wanted(eval_flags.len() > 0, text(" ") + eval_flags)
            + where_wanted(overrides.len() > 0, text(" -- ") + overrides),
        mflags: if letters(settings, 13).len() > 0 {
            text("-") + base
        } else if base.len() > 0 {
            base.skip(1)
        } else {
            base
        },
        overrides,
    }
}

/// The Make interface variables one compiler invocation presents to source.
#[derive(Debug)]
pub struct CompilerFlagVariables {
    /// The switch table alone.
    pub base: Vec<u8>,
    /// This invocation's `--eval` fragments, quoted as `MAKEFLAGS` carries them
    /// and joined by one space.
    pub eval_flags: Vec<u8>,
    /// The expanded value a child inherits.
    pub makeflags: Vec<u8>,
    /// The same options in command-line spelling, without assignments.
    pub mflags: Vec<u8>,
    /// Escaped command-line assignments.
    pub overrides: Vec<u8>,
}

impl CompilerFlagVariables {
    /// The variables as their model.
    pub open spec fn model(&self) -> Published {
        Published {
            base: self.base@,
            eval_flags: self.eval_flags@,
            makeflags: self.makeflags@,
            mflags: self.mflags@,
            overrides: self.overrides@,
        }
    }
}

impl Invocation {
    /// The letters of the switches a child has to be told about again, in the
    /// order Make writes them in.
    fn letter_group(&self) -> (group_letters: Vec<u8>)
        ensures
            group_letters@ == letters(self.model(), 13),
    {
        let mut group_letters: Vec<u8> = Vec::new();
        let mut at: usize = 0;
        assert(group_letters@ =~= letters(self.model(), 0));
        while at < 13
            invariant
                at <= 13,
                group_letters@ == letters(self.model(), at as int),
            decreases 13 - at,
        {
            let (switch, letter, asserted): (Switch, u8, bool) = group_entry(at);
            if (asserted && self.given(switch)) || (!asserted && self.refused(switch)) {
                group_letters.push(letter);
            }
            at += 1;
        }
        group_letters
    }

    /// The switches a child has to be told about again, each as its own option.
    pub fn propagated(&self) -> (switches: Vec<Vec<u8>>)
        ensures
            texts(switches@) == Seq::new(
                letters(self.model(), 13).len(),
                |i: int| seq![0x2du8, letters(self.model(), 13)[i]],
            ),
    {
        let group_letters: Vec<u8> = self.letter_group();
        let mut switches: Vec<Vec<u8>> = Vec::new();
        let mut at: usize = 0;
        while at < group_letters.len()
            invariant
                at <= group_letters@.len(),
                switches@.len() == at,
                forall|i: int|
                    0 <= i < at ==> (#[trigger] switches@[i])@ == seq![0x2du8, group_letters@[i]],
            decreases group_letters@.len() - at,
        {
            let mut switch: Vec<u8> = Vec::new();
            switch.push(0x2d);
            switch.push(group_letters[at]);
            assert(switch@ =~= seq![0x2du8, group_letters@[at as int]]);
            switches.push(switch);
            at += 1;
        }
        assert(texts(switches@) =~= Seq::new(
            letters(self.model(), 13).len(),
            |i: int| seq![0x2du8, letters(self.model(), 13)[i]],
        ));
        switches
    }

    /// The withdrawals with no letter.
    pub fn withdrawn(&self) -> (options: Vec<Vec<u8>>)
        ensures
            texts(options@) == (if self.model().refused.contains(Switch::PrintDirectory) {
                seq![text("--no-print-directory")]
            } else {
                Seq::empty()
            }) + (if self.model().refused.contains(Switch::Silent) {
                seq![text("--no-silent")]
            } else {
                Seq::empty()
            }),
    {
        let mut options: Vec<Vec<u8>> = Vec::new();
        assert(texts(options@) =~= Seq::empty());
        if self.refused(Switch::PrintDirectory) {
            push_text(&mut options, literal("--no-print-directory"));
        }
        if self.refused(Switch::Silent) {
            push_text(&mut options, literal("--no-silent"));
        }
        assert(texts(options@) =~= (if self.model().refused.contains(Switch::PrintDirectory) {
            seq![text("--no-print-directory")]
        } else {
            Seq::empty()
        }) + (if self.model().refused.contains(Switch::Silent) {
            seq![text("--no-silent")]
        } else {
            Seq::empty()
        }));
        options
    }
}

/// Each entry of a list of texts behind an option's spelling.
fn spelled_options(option: &str, list: &[Vec<u8>]) -> (options: Vec<Vec<u8>>)
    ensures
        texts(options@) == optioned(text(option), texts(list@)),
{
    let ghost all = optioned(text(option), texts(list@));
    let mut options: Vec<Vec<u8>> = Vec::new();
    let mut at: usize = 0;
    assert(texts(options@) =~= all.take(0));
    while at < list.len()
        invariant
            at <= list@.len(),
            all == optioned(text(option), texts(list@)),
            texts(options@) == all.take(at as int),
        decreases list@.len() - at,
    {
        let ghost before = texts(options@);
        let word: Vec<u8> = quote_for_makeflags(&to_str_lossy(&list[at]));
        push_text(&mut options, message(option, &word));
        assert(texts(options@) =~= all.take(at as int + 1));
        at += 1;
    }
    assert(all.take(at as int) =~= all);
    options
}

/// Byte strings one behind the other, added to a line.
fn append_all(line: &mut Vec<u8>, list: &[Vec<u8>])
    ensures
        final(line)@ == old(line)@ + together(texts(list@)),
{
    let ghost before = line@;
    let ghost all = texts(list@);
    let mut at: usize = 0;
    assert(all.take(0) =~= Seq::empty());
    assert(before + together(all.take(0)) =~= before);
    while at < list.len()
        invariant
            at <= list@.len(),
            all == texts(list@),
            line@ == before + together(all.take(at as int)),
        decreases list@.len() - at,
    {
        let ghost next = all.take(at as int + 1);
        assert(next.drop_last() =~= all.take(at as int));
        assert(next.last() == list@[at as int]@);
        append(line, &list[at]);
        assert(line@ =~= before + together(next));
        at += 1;
    }
    assert(all.take(at as int) =~= all);
}

/// Each item of a list once, where it first stands.
fn keep_firsts(list: &[Vec<u8>]) -> (kept: Vec<Vec<u8>>)
    ensures
        texts(kept@) == firsts(texts(list@)),
{
    let ghost all = texts(list@);
    let mut kept: Vec<Vec<u8>> = Vec::new();
    let mut at: usize = 0;
    assert(all.take(0) =~= Seq::empty());
    assert(texts(kept@) =~= Seq::empty());
    while at < list.len()
        invariant
            at <= list@.len(),
            all == texts(list@),
            texts(kept@) == firsts(all.take(at as int)),
        decreases list@.len() - at,
    {
        let ghost next = all.take(at as int + 1);
        assert(next.drop_last() =~= all.take(at as int));
        assert(next.last() == list@[at as int]@);
        if !holds(&kept, &list[at]) {
            push_text(&mut kept, copied(&list[at]));
        }
        at += 1;
    }
    assert(all.take(at as int) =~= all);
    kept
}

/// The switch table an invocation publishes under a job count.
#[verifier::rlimit(40)]
pub fn switch_table(invocation: &Invocation, jobs: Option<JobLimit>) -> (base: Vec<u8>)
    ensures
        base@ == table_of(invocation.model(), jobs),
{
    let mut base: Vec<u8> = invocation.letter_group();
    let include_dirs: Vec<Vec<u8>> = spelled_options(" -I", &invocation.include_dirs);
    append_all(&mut base, &include_dirs);
    match jobs {
        Some(JobLimit::Fixed(count)) => {
            append(&mut base, &message(" -j", &decimal_of(count as u64)));
        },
        Some(JobLimit::Unlimited) => {
            append(&mut base, " -j".as_bytes());
        },
        _ => {
            assert(base@ + Seq::<u8>::empty() =~= base@);
        },
    }
    let ghost counted = base@;
    match &invocation.load {
        Some(load) => {
            if load.propagated {
                let shown: Vec<u8> = match look_up(&invocation.around.loads, &load.ceiling) {
                    Some(shown) => shown,
                    None => literal("0"),
                };
                append(&mut base, &message(" -l", &shown));
            } else {
                assert(base@ + Seq::<u8>::empty() =~= base@);
            }
        },
        None => {
            assert(base@ + Seq::<u8>::empty() =~= base@);
        },
    }
    match invocation.output_sync {
        Some(sync) => {
            append(&mut base, &message(" ", &sync.spelling()));
        },
        None => {
            assert(base@ + Seq::<u8>::empty() =~= base@);
        },
    }
    let debug: Vec<Vec<u8>> = keep_firsts(&spelled_options(" --debug=", &invocation.debug));
    append_all(&mut base, &debug);
    append_where(&mut base, invocation.given(Switch::Trace), " --trace");
    append_where(
        &mut base,
        invocation.given(Switch::WarnUndefinedVariables),
        " --warn-undefined-variables",
    );
    append_where(&mut base, invocation.refused(Switch::PrintDirectory), " --no-print-directory");
    append_where(&mut base, invocation.refused(Switch::Silent), " --no-silent");
    match &invocation.shuffle_spelling {
        Some(mode) => {
            append(&mut base, &message(" --shuffle=", mode));
        },
        None => {
            assert(base@ + Seq::<u8>::empty() =~= base@);
        },
    }
    base
}

fn append_where(line: &mut Vec<u8>, wanted: bool, option: &str)
    ensures
        final(line)@ == old(line)@ + where_wanted(wanted, text(option)),
{
    if wanted {
        append(line, option.as_bytes());
    } else {
        assert(line@ + Seq::<u8>::empty() =~= line@);
    }
}

/// How a Make invocation describes itself to this compilation unit, to every
/// child, and to whatever an invocation nothing could compose starts for
/// itself.
pub fn compiler_flag_variables(invocation: &Invocation) -> (variables: CompilerFlagVariables)
    ensures
        variables.model() == published(invocation.model(), invocation.model().job_limit()),
{
    let base: Vec<u8> = switch_table(invocation, invocation.effective_jobs());
    let group_letters: Vec<u8> = invocation.letter_group();
    let mflags: Vec<u8> = if group_letters.len() > 0 {
        message("-", &base)
    } else if base.len() > 0 {
        let rest: Vec<u8> = part(&base, 1, base.len());
        assert(rest@ =~= base@.skip(1));
        rest
    } else {
        copied(&base)
    };
    let eval_flags: Vec<u8> = join(
        &spelled_options("--eval=", &invocation.evals),
        " ".as_bytes(),
    );
    let overrides: Vec<u8> = command_overrides(invocation);
    let mut makeflags: Vec<u8> = copied(&base);
    if eval_flags.len() > 0 {
        append(&mut makeflags, &message(" ", &eval_flags));
    } else {
        assert(makeflags@ + Seq::<u8>::empty() =~= makeflags@);
    }
    if overrides.len() > 0 {
        append(&mut makeflags, &message(" -- ", &overrides));
    } else {
        assert(makeflags@ + Seq::<u8>::empty() =~= makeflags@);
    }
    CompilerFlagVariables { base, eval_flags, makeflags, mflags, overrides }
}

/// The exact `MAKEFLAGS` value this compilation unit hands to a child.
pub fn propagated_makeflags(invocation: &Invocation) -> (makeflags: Vec<u8>)
    ensures
        makeflags@ == published(
            invocation.model(),
            invocation.model().job_limit(),
        ).makeflags,
{
    compiler_flag_variables(invocation).makeflags
}

} // verus!
