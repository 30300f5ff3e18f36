//! Everything a compilation unit wraps a recipe in before it is launched.
//!
//! A recipe runs where the Makefile that wrote it was read and under the
//! environment that Makefile exports. The executor runs the whole graph from
//! one directory with one environment, so both travel with the command: as a
//! `cd` and an `env` in front of a shell command line, and as values beside an
//! argument list where there is no shell to read them.

use crate::artifact::{
    models, CommandLayout, DirectLaunch, LateStep, Launch, LaunchModel, SettledSteps, StepModel,
    model_of, Recorded,
};
use crate::bytes::{
    append, begins, blank, copied, copied_all, copied_maybe, fields, is_blank, joined, literal,
    maybe,
    part, same, split_fields, text, texts,
};
use crate::codec::{Blob, Flag, List, Text};
use crate::graph::{shell_escape_path, shell_path};
use crate::makeflags::{group, group_entry};
use crate::shell::{closed_word, reading, words_of, Quote, Reading};
use vstd::prelude::*;
use vstd::string::*;
use vstd::utf8::*;

verus! {

/// One name a recipe's environment changes: set to a value, or taken away.
pub type EnvironmentChange = (Vec<u8>, Option<Vec<u8>>);

/// How long a script has to be before it reaches the shell as a file rather
/// than as an argument.
pub const RESPONSE_FILE_THRESHOLD: usize = 100_000;

/// The changes of a list, as names and values.
pub open spec fn changes_of(changes: Seq<EnvironmentChange>) -> Seq<(Seq<u8>, Option<Seq<u8>>)> {
    Seq::new(changes.len(), |i: int| (changes[i].0@, maybe(changes[i].1)))
}

/// Bytes inside single quotes, each single quote among them written outside.
pub open spec fn quoted_bytes(word: Seq<u8>) -> Seq<u8>
    decreases word.len(),
{
    if word.len() == 0 {
        Seq::empty()
    } else {
        quoted_bytes(word.drop_last()) + (if word.last() == 0x27 {
            seq![0x27u8, 0x5cu8, 0x27u8, 0x27u8]
        } else {
            seq![word.last()]
        })
    }
}

/// One word as a shell command line spells it.
pub open spec fn shell_word(word: Seq<u8>) -> Seq<u8> {
    seq![0x27u8] + quoted_bytes(word) + seq![0x27u8]
}

/// How the pieces of one launch are spelled for a shell.
///
/// What each of them is spelled from is said by [`CommandLayout::environment`],
/// [`CommandLayout::response_file`] and the recipe's own script and flags.
#[derive(Debug)]
pub struct Spelled {
    /// The `env` that makes the changes to the environment, with a space behind
    /// it, or nothing where there are none.
    pub environment: Vec<u8>,
    /// The script with everything escaped that a double-quoted word reads.
    pub script: Vec<u8>,
    /// The shell's flags less the letter that says the next word is the
    /// command.
    pub file_flags: Vec<u8>,
    /// The shell's flags as the shell's own tokenizer splits them.
    pub flag_words: Vec<Vec<u8>>,
}

/// A command line, and the response file it needs when the script was too long
/// to be an argument.
#[derive(Debug)]
pub struct LaunchedScript {
    pub command: Vec<u8>,
    pub response_file: Option<(Vec<u8>, Vec<u8>)>,
}

/// One command line of a recipe, expanded.
#[derive(Debug)]
pub struct RecipeStep {
    /// The argument list, where the line needs no shell.
    pub direct: Option<Vec<Vec<u8>>>,
    pub shell: Vec<u8>,
    pub shell_flags: Vec<u8>,
    /// Whether the shell is the name of a program whatever is in it.
    pub shell_is_a_path: bool,
    pub text: Vec<u8>,
    pub ignore_error: bool,
    pub recursive_line: bool,
}

/// How a shell is given the script it is to run.
#[derive(Clone, Copy)]
pub enum Script<'a> {
    /// Passed as an argument.
    Argument(&'a [u8]),
    /// Read out of this file.
    File(&'a [u8]),
}

/// Whether a switch is one the makefile update keeps from a recipe's child:
/// `n`, `q` or `t`.
pub open spec fn pretending(letter: u8) -> bool {
    letter == 0x6e || letter == 0x71 || letter == 0x74
}

/// The letters without the pretending switches.
pub open spec fn unpretending(letters: Seq<u8>) -> Seq<u8>
    decreases letters.len(),
{
    if letters.len() == 0 {
        Seq::empty()
    } else if pretending(letters.last()) {
        unpretending(letters.drop_last())
    } else {
        unpretending(letters.drop_last()).push(letters.last())
    }
}

/// Where the first word of a value ends.
pub open spec fn word_end(value: Seq<u8>, at: int) -> int
    decreases value.len() - at,
{
    if at < 0 || at >= value.len() {
        value.len() as int
    } else if blank(value[at]) {
        at
    } else {
        word_end(value, at + 1)
    }
}

fn first_word_end(value: &[u8], from: usize) -> (end: usize)
    requires
        from <= value@.len(),
    ensures
        end == word_end(value@, from as int),
        from <= end <= value@.len(),
{
    let mut end: usize = from;
    while end < value.len() && !is_blank(value[end])
        invariant
            from <= end <= value@.len(),
            word_end(value@, end as int) == word_end(value@, from as int),
        decreases value@.len() - end,
    {
        end += 1;
    }
    end
}

fn without_pretending(letters: &[u8]) -> (kept: Vec<u8>)
    ensures
        kept@ == unpretending(letters@),
{
    let mut kept: Vec<u8> = Vec::new();
    let mut at: usize = 0;
    assert(letters@.take(0) =~= Seq::empty());
    while at < letters.len()
        invariant
            at <= letters@.len(),
            kept@ == unpretending(letters@.take(at as int)),
        decreases letters@.len() - at,
    {
        let letter: u8 = letters[at];
        let ghost next = letters@.take(at as int + 1);
        assert(next.drop_last() =~= letters@.take(at as int));
        if !(letter == 0x6e || letter == 0x71 || letter == 0x74) {
            kept.push(letter);
        }
        at += 1;
    }
    assert(letters@.take(at as int) =~= letters@);
    kept
}

/// `MAKEFLAGS` as the makefile update hands it on: its first word, which is the
/// group of letters, without the pretending switches, and the rest as it is.
pub open spec fn makeflags_remaking(value: Seq<u8>) -> Seq<u8> {
    let end = word_end(value, 0);
    unpretending(value.take(end)) + value.skip(end)
}

/// `MAKEFLAGS` without the pretending switches.
pub fn makeflags_while_remaking(value: &[u8]) -> (remade: Vec<u8>)
    ensures
        remade@ == makeflags_remaking(value@),
{
    let end: usize = first_word_end(value, 0);
    let mut remade: Vec<u8> = without_pretending(&part(value, 0, end));
    let rest: Vec<u8> = part(value, end, value.len());
    append(&mut remade, &rest);
    assert(value@.subrange(0, end as int) =~= value@.take(end as int));
    assert(value@.subrange(end as int, value@.len() as int) =~= value@.skip(end as int));
    remade
}

/// Whether a byte is a letter the letter group can hold.
pub open spec fn grouped(byte: u8) -> bool {
    exists|at: int| 0 <= at < 13 && (#[trigger] group(at)).1 == byte
}

/// Whether a byte is a letter the letter group can hold.
fn is_grouped(byte: u8) -> (answer: bool)
    ensures
        answer == grouped(byte),
{
    let mut at: usize = 0;
    while at < 13
        invariant
            at <= 13,
            forall|i: int| 0 <= i < at ==> (#[trigger] group(i)).1 != byte,
        decreases 13 - at,
    {
        if group_entry(at).1 == byte {
            assert(group(at as int).1 == byte);
            return true;
        }
        at += 1;
    }
    false
}

/// Whether every byte of a word is a letter the letter group can hold.
pub open spec fn all_grouped(word: Seq<u8>) -> bool {
    forall|i: int| 0 <= i < word.len() ==> grouped(#[trigger] word[i])
}

/// `MFLAGS` as the makefile update hands it on: the letters behind the leading
/// dash without the pretending switches, a group that empties taking its whole
/// word with it. A first word that is not the group of letters is a switch with
/// an argument or a long one, and stays as it is.
pub open spec fn mflags_remaking(value: Seq<u8>) -> Seq<u8> {
    if value.len() == 0 || value[0] != 0x2d {
        value
    } else {
        let end = word_end(value, 1);
        let word = value.subrange(1, end);
        let rest = value.skip(end);
        if !all_grouped(word) {
            value
        } else if unpretending(word).len() > 0 {
            seq![0x2du8] + unpretending(word) + rest
        } else if rest.len() > 0 && rest[0] == 0x20 {
            rest.skip(1)
        } else {
            rest
        }
    }
}

/// `MFLAGS` without the pretending switches.
pub fn mflags_while_remaking(value: &[u8]) -> (remade: Vec<u8>)
    ensures
        remade@ == mflags_remaking(value@),
{
    if value.len() == 0 || value[0] != 0x2d {
        return copied(value);
    }
    let end: usize = first_word_end(value, 1);
    let word: Vec<u8> = part(value, 1, end);
    let rest: Vec<u8> = part(value, end, value.len());
    assert(rest@ =~= value@.skip(end as int));
    let mut at: usize = 0;
    while at < word.len()
        invariant
            at <= word@.len(),
            word@ == value@.subrange(1, end as int),
            1 <= end <= value@.len(),
            end == word_end(value@, 1),
            value@[0] == 0x2d,
            forall|i: int| 0 <= i < at ==> grouped(#[trigger] word@[i]),
        decreases word@.len() - at,
    {
        if !is_grouped(word[at]) {
            assert(!grouped(word@[at as int]));
            return copied(value);
        }
        at += 1;
    }
    let kept: Vec<u8> = without_pretending(&word);
    if kept.len() == 0 {
        if rest.len() > 0 && rest[0] == 0x20 {
            let past: Vec<u8> = part(&rest, 1, rest.len());
            assert(past@ =~= rest@.skip(1));
            return past;
        }
        return rest;
    }
    let mut remade: Vec<u8> = Vec::new();
    remade.push(0x2d);
    append(&mut remade, &kept);
    append(&mut remade, &rest);
    assert(remade@ =~= seq![0x2du8] + kept@ + rest@);
    remade
}

/// The last word a list of changes has on a name.
pub open spec fn last_change(changes: Seq<(Seq<u8>, Option<Seq<u8>>)>, name: Seq<u8>) -> Option<
    Option<Seq<u8>>,
>
    decreases changes.len(),
{
    if changes.len() == 0 {
        None
    } else if changes.last().0 == name {
        Some(changes.last().1)
    } else {
        last_change(changes.drop_last(), name)
    }
}

/// The place of the last change to a name.
fn find_last(changes: &[EnvironmentChange], name: &[u8]) -> (found: Option<usize>)
    ensures
        match found {
            Some(at) => at < changes@.len() && last_change(changes_of(changes@), name@) == Some(
                maybe(changes@[at as int].1),
            ),
            None => last_change(changes_of(changes@), name@) is None,
        },
{
    let ghost all = changes_of(changes@);
    let mut left: usize = changes.len();
    assert(all.take(left as int) =~= all);
    while left > 0
        invariant
            left <= changes@.len(),
            all == changes_of(changes@),
            last_change(all.take(left as int), name@) == last_change(all, name@),
        decreases left,
    {
        let ghost here = all.take(left as int);
        assert(here.drop_last() =~= all.take(left - 1));
        assert(here.last() == (changes@[left - 1].0@, maybe(changes@[left - 1].1)));
        if same(&changes[left - 1].0, name) {
            return Some(left - 1);
        }
        left -= 1;
    }
    None
}

/// A copy of a list of changes.
pub fn copied_changes(changes: &[EnvironmentChange]) -> (copies: Vec<EnvironmentChange>)
    ensures
        changes_of(copies@) == changes_of(changes@),
        models(copies@) == models(changes@),
{
    let mut copies: Vec<EnvironmentChange> = Vec::new();
    let mut at: usize = 0;
    while at < changes.len()
        invariant
            at <= changes@.len(),
            copies@.len() == at,
            forall|i: int|
                0 <= i < at ==> (#[trigger] copies@[i]).0@ == changes@[i].0@ && maybe(copies@[i].1)
                    == maybe(changes@[i].1),
        decreases changes@.len() - at,
    {
        copies.push((copied(&changes[at].0), copied_maybe(&changes[at].1)));
        at += 1;
    }
    assert(changes_of(copies@) =~= changes_of(changes@));
    assert forall|i: int| 0 <= i < copies@.len() implies models(copies@)[i] == models(
        changes@,
    )[i] by {
        assert(copies@[i].0@ == changes@[i].0@);
    }
    assert(models(copies@) =~= models(changes@));
    copies
}

/// One list of changes behind another.
fn chained(first: &[EnvironmentChange], second: &[EnvironmentChange]) -> (both: Vec<
    EnvironmentChange,
>)
    ensures
        changes_of(both@) == changes_of(first@) + changes_of(second@),
        models(both@) == models(first@) + models(second@),
{
    let mut both: Vec<EnvironmentChange> = copied_changes(first);
    let mut more: Vec<EnvironmentChange> = copied_changes(second);
    let ghost front = both@;
    let ghost back = more@;
    both.append(&mut more);
    assert(both@ =~= front + back);
    assert(changes_of(both@) =~= changes_of(front) + changes_of(back));
    assert(models(both@) =~= models(front) + models(back));
    both
}

/// The blobs of a list of byte strings.
pub open spec fn blobs(list: Seq<Seq<u8>>) -> List<Blob> {
    List { items: Seq::new(list.len(), |i: int| Blob { data: list[i] }) }
}

impl CommandLayout {
    /// A layout for one compilation unit.
    pub fn new(
        command_directory: Vec<u8>,
        recipe_environment: Vec<EnvironmentChange>,
        root_directory: Vec<u8>,
        root: bool,
    ) -> (layout: Self)
        ensures
            layout.command_directory == command_directory,
            layout.recipe_environment == recipe_environment,
            layout.root_directory == root_directory,
            layout.root == root,
            layout.unreadable is None,
    {
        CommandLayout {
            command_directory,
            recipe_environment,
            root_directory,
            root,
            unreadable: None,
        }
    }

    /// Add one word to a shell command line, quoted.
    pub fn push_shell_word(command: &mut Vec<u8>, word: &[u8])
        ensures
            final(command)@ == old(command)@ + shell_word(word@),
    {
        let ghost before = command@;
        command.push(0x27);
        let ghost opened = command@;
        let mut at: usize = 0;
        assert(word@.take(0) =~= Seq::empty());
        assert(opened + quoted_bytes(word@.take(0)) =~= opened);
        while at < word.len()
            invariant
                at <= word@.len(),
                command@ == opened + quoted_bytes(word@.take(at as int)),
            decreases word@.len() - at,
        {
            let ghost next = word@.take(at as int + 1);
            assert(next.drop_last() =~= word@.take(at as int));
            if word[at] == 0x27 {
                command.push(0x27);
                command.push(0x5c);
                command.push(0x27);
                command.push(0x27);
            } else {
                command.push(word[at]);
            }
            assert(command@ =~= opened + quoted_bytes(next));
            at += 1;
        }
        assert(word@.take(at as int) =~= word@);
        command.push(0x27);
        assert(command@ =~= before + shell_word(word@));
    }

    /// Every change a recipe's environment makes, `scoped` being what one
    /// target's own `export` changes about the unit's answer. It stands behind
    /// the unit's, so the target's is the last word on a name both name.
    pub fn environment(&self, scoped: &[EnvironmentChange]) -> (changes: Vec<EnvironmentChange>)
        ensures
            changes_of(changes@) == changes_of(self.recipe_environment@) + changes_of(scoped@),
    {
        chained(&self.recipe_environment, scoped)
    }

    /// The `cd` and `env` that put a command where Make would have run it.
    pub open spec fn prefix_of(&self, environment: Seq<u8>) -> Seq<u8> {
        (if self.command_directory@.len() > 0 {
            text("cd ") + shell_word(self.command_directory@) + text(" && ")
        } else {
            Seq::empty()
        }) + text("exec ") + environment
    }

    /// The `cd` and `env` that put a command where Make would have run it,
    /// `environment` being how the changes to it are spelled.
    ///
    /// `exec` sits between the two because that is the last point where the
    /// launching shell still has something of its own to do.
    pub fn prefix(&self, environment: &[u8]) -> (command: Vec<u8>)
        ensures
            command@ == self.prefix_of(environment@),
            self.command_directory@.len() == 0 ==> command@ == text("exec ") + environment@,
            self.command_directory@.len() > 0 ==> command@ == text("cd ") + shell_word(
                self.command_directory@,
            ) + text(" && ") + text("exec ") + environment@,
    {
        let mut command: Vec<u8> = Vec::new();
        if self.command_directory.len() > 0 {
            append(&mut command, "cd ".as_bytes());
            CommandLayout::push_shell_word(&mut command, &self.command_directory);
            append(&mut command, " && ".as_bytes());
        }
        append(&mut command, "exec ".as_bytes());
        append(&mut command, environment);
        assert(command@ =~= self.prefix_of(environment@));
        command
    }

    /// What a recipe of this unit carries under a name, as its model.
    pub open spec fn held_under(
        &self,
        name: Seq<u8>,
        scoped: Seq<(Seq<u8>, Option<Seq<u8>>)>,
    ) -> Option<Seq<u8>> {
        match last_change(scoped, name) {
            Some(value) => value,
            None => match last_change(changes_of(self.recipe_environment@), name) {
                Some(value) => value,
                None => None,
            },
        }
    }

    /// What a recipe of this unit would carry under `name`, the target's own
    /// `export` having the last word over the unit's.
    pub fn held(&self, name: &[u8], scoped: &[EnvironmentChange]) -> (value: Option<Vec<u8>>)
        ensures
            maybe(value) == self.held_under(name@, changes_of(scoped@)),
    {
        match find_last(scoped, name) {
            Some(at) => copied_maybe(&scoped[at].1),
            None => match find_last(&self.recipe_environment, name) {
                Some(at) => copied_maybe(&self.recipe_environment[at].1),
                None => None,
            },
        }
    }

    /// The change the makefile update makes to one variable, where it makes
    /// one.
    pub open spec fn remaking_change(
        name: Seq<u8>,
        held: Option<Seq<u8>>,
        remade: Seq<u8>,
    ) -> Seq<(Seq<u8>, Option<Seq<u8>>)> {
        if held is Some && remade != held->0 {
            seq![(name, Some(remade))]
        } else {
            Seq::empty()
        }
    }

    /// The changes the makefile update makes, as their model.
    pub open spec fn remaking_changes(&self, scoped: Seq<(Seq<u8>, Option<Seq<u8>>)>) -> Seq<
        (Seq<u8>, Option<Seq<u8>>),
    > {
        let makeflags = self.held_under(text("MAKEFLAGS"), scoped);
        let mflags = self.held_under(text("MFLAGS"), scoped);
        CommandLayout::remaking_change(
            text("MAKEFLAGS"),
            makeflags,
            makeflags_remaking(makeflags.unwrap_or(Seq::empty())),
        ) + CommandLayout::remaking_change(
            text("MFLAGS"),
            mflags,
            mflags_remaking(mflags.unwrap_or(Seq::empty())),
        )
    }

    /// This unit's `MAKEFLAGS` and `MFLAGS` as the makefile update hands them
    /// to a recipe's child, to be read after what the recipe already carries.
    /// Empty when neither value would move.
    pub fn while_remaking_makefiles(&self, scoped: &[EnvironmentChange]) -> (changes: Vec<
        EnvironmentChange,
    >)
        ensures
            changes_of(changes@) == self.remaking_changes(changes_of(scoped@)),
    {
        let mut changes: Vec<EnvironmentChange> = Vec::new();
        if let Some(value) = self.held("MAKEFLAGS".as_bytes(), scoped) {
            let remade: Vec<u8> = makeflags_while_remaking(&value);
            if !same(&remade, &value) {
                changes.push((literal("MAKEFLAGS"), Some(remade)));
            }
        }
        let ghost first = changes_of(changes@);
        assert(first =~= CommandLayout::remaking_change(
            text("MAKEFLAGS"),
            self.held_under(text("MAKEFLAGS"), changes_of(scoped@)),
            makeflags_remaking(
                self.held_under(text("MAKEFLAGS"), changes_of(scoped@)).unwrap_or(Seq::empty()),
            ),
        ));
        if let Some(value) = self.held("MFLAGS".as_bytes(), scoped) {
            let remade: Vec<u8> = mflags_while_remaking(&value);
            if !same(&remade, &value) {
                changes.push((literal("MFLAGS"), Some(remade)));
                assert(changes_of(changes@) =~= first + seq![(text("MFLAGS"), Some(remade@))]);
            }
        }
        assert(changes_of(changes@) =~= self.remaking_changes(changes_of(scoped@)));
        changes
    }

    /// Where the response file of the edge producing an output is.
    pub open spec fn response_path(&self, output: Seq<u8>) -> Seq<u8> {
        (if !self.root && self.root_directory@.len() > 0 {
            self.root_directory@ + text("/")
        } else {
            Seq::empty()
        }) + output + text(".rsp")
    }

    /// Where this unit writes the response file for the edge producing
    /// `output`, which is per edge because the output is.
    pub fn response_file(&self, output: &[u8]) -> (path: Vec<u8>)
        ensures
            path@ == self.response_path(output@),
            self.root || self.root_directory@.len() == 0 ==> path@ == output@ + text(".rsp"),
            !self.root && self.root_directory@.len() > 0 ==> path@ == self.root_directory@ + text(
                "/",
            ) + output@ + text(".rsp"),
    {
        let mut path: Vec<u8> = Vec::new();
        if !self.root && self.root_directory.len() > 0 {
            append(&mut path, &self.root_directory);
            append(&mut path, "/".as_bytes());
        }
        append(&mut path, output);
        append(&mut path, ".rsp".as_bytes());
        assert(path@ =~= self.response_path(output@));
        path
    }

    /// The command line that runs a script passed as an argument.
    pub open spec fn argument_line(
        &self,
        environment: Seq<u8>,
        shell: Seq<u8>,
        shell_flags: Seq<u8>,
        escaped: Seq<u8>,
    ) -> Seq<u8> {
        self.prefix_of(environment) + shell + text(" ") + shell_flags + text(" \"") + escaped
            + text("\"")
    }

    /// The command line that runs a script out of a file.
    pub open spec fn file_line(
        &self,
        environment: Seq<u8>,
        shell: Seq<u8>,
        file_flags: Seq<u8>,
        path: Seq<u8>,
    ) -> Seq<u8> {
        self.prefix_of(environment) + shell + text(" ") + (if file_flags.len() > 0 {
            file_flags + text(" ")
        } else {
            Seq::empty()
        }) + path
    }

    /// The command line that runs `script`, and the response file it needs.
    ///
    /// A script short enough to pass as an argument is quoted into one, and one
    /// too long reaches the shell as a file instead.
    pub fn launch(
        &self,
        shell: &[u8],
        shell_flags: &[u8],
        script: &[u8],
        output: &[u8],
        spelled: &Spelled,
    ) -> (launched: LaunchedScript)
        ensures
            script@.len() > RESPONSE_FILE_THRESHOLD ==> {
                &&& launched.command@ == self.file_line(
                    spelled.environment@,
                    shell@,
                    spelled.file_flags@,
                    shell_path(self.response_path(output@)),
                )
                &&& launched.response_file matches Some(held) && held.0@ == self.response_path(
                    output@,
                ) && held.1@ == script@
            },
            script@.len() <= RESPONSE_FILE_THRESHOLD ==> {
                &&& launched.command@ == self.argument_line(
                    spelled.environment@,
                    shell@,
                    shell_flags@,
                    spelled.script@,
                )
                &&& launched.response_file is None
            },
    {
        let mut command: Vec<u8> = self.prefix(&spelled.environment);
        append(&mut command, shell);
        append(&mut command, " ".as_bytes());
        if script.len() > RESPONSE_FILE_THRESHOLD {
            let path: Vec<u8> = self.response_file(output);
            if spelled.file_flags.len() > 0 {
                append(&mut command, &spelled.file_flags);
                append(&mut command, " ".as_bytes());
            }
            match shell_escape_path(&path) {
                Some(quoted) => append(&mut command, &quoted),
                None => append(&mut command, &path),
            }
            assert(command@ =~= self.file_line(
                spelled.environment@,
                shell@,
                spelled.file_flags@,
                shell_path(self.response_path(output@)),
            ));
            return LaunchedScript { command, response_file: Some((path, copied(script))) };
        }
        append(&mut command, shell_flags);
        append(&mut command, " \"".as_bytes());
        append(&mut command, &spelled.script);
        append(&mut command, "\"".as_bytes());
        LaunchedScript { command, response_file: None }
    }

    /// `.SHELLFLAGS` as the words a launch passes, an empty word vanishing.
    pub fn shell_flag_words(shell_flags: &[u8]) -> (words: Vec<Vec<u8>>)
        ensures
            texts(words@) == fields(shell_flags@),
    {
        split_fields(shell_flags)
    }

    /// A launch of an argument list in this unit's directory and environment,
    /// as its model.
    pub open spec fn direct_model(
        &self,
        argv: Seq<Seq<u8>>,
        scoped: Seq<EnvironmentChange>,
    ) -> LaunchModel {
        LaunchModel::Direct(
            (
                blobs(argv),
                (
                    Blob { data: self.command_directory@ },
                    (
                        List { items: models(self.recipe_environment@) + models(scoped) },
                        (Text { data: encode_utf8("ronin: "@) }, Flag { value: false }),
                    ),
                ),
            ),
        )
    }

    /// A launch of `argv` with the unit's directory and environment as values.
    pub fn direct_launch(&self, argv: Vec<Vec<u8>>, scoped: &[EnvironmentChange]) -> (launch:
        Launch)
        ensures
            launch.model() == self.direct_model(texts(argv@), scoped@),
            launch matches Launch::Direct(held) && texts(held.argv@) == texts(argv@)
                && held.directory@ == self.command_directory@
                && changes_of(held.environment@) == changes_of(self.recipe_environment@)
                + changes_of(scoped@) && !held.starts_no_process && held.diagnostic_prefix@ == "ronin: "@,
    {
        let environment: Vec<EnvironmentChange> = chained(&self.recipe_environment, scoped);
        assert(models(argv@) =~= blobs(texts(argv@)).items);
        Launch::Direct(
            DirectLaunch {
                argv,
                directory: copied(&self.command_directory),
                environment,
                diagnostic_prefix: "ronin: ".to_owned(),
                starts_no_process: false,
            },
        )
    }

    /// The argument list a script is launched with, as its model.
    pub open spec fn script_argv(
        shell: Seq<u8>,
        shell_flags: Seq<u8>,
        file_flags: Seq<u8>,
        script: Script,
    ) -> Seq<Seq<u8>> {
        match script {
            Script::Argument(held) => seq![shell] + fields(shell_flags) + seq![held@],
            Script::File(path) => seq![shell] + fields(file_flags) + seq![path@],
        }
    }

    /// The launch that runs a whole assembled script, or nothing where the
    /// recipe names a shell of its own.
    pub fn launch_script(
        &self,
        shell: &[u8],
        shell_flags: &[u8],
        file_flags: &[u8],
        script: Script<'_>,
        scoped: &[EnvironmentChange],
    ) -> (launch: Option<Launch>)
        ensures
            model_of(launch) == (if shell@ == text("/bin/sh") {
                Some(
                    self.direct_model(
                        CommandLayout::script_argv(shell@, shell_flags@, file_flags@, script),
                        scoped@,
                    ),
                )
            } else {
                None
            }),
            launch is Some <==> shell@ == text("/bin/sh"),
            launch matches Some(started) ==> (started matches Launch::Direct(held)
                && held.directory@ == self.command_directory@
                && changes_of(held.environment@) == changes_of(self.recipe_environment@)
                + changes_of(scoped@) && held.argv@.len() > 1 && held.argv@[0]@ == shell@
                && held.argv@.last()@ == (match script {
                Script::Argument(text) => text@,
                Script::File(path) => path@,
            }) && texts(held.argv@.subrange(1, held.argv@.len() - 1)) == fields(
                match script {
                    Script::Argument(_) => shell_flags@,
                    Script::File(_) => file_flags@,
                },
            )),
    {
        if !same(shell, "/bin/sh".as_bytes()) {
            return None;
        }
        let (words, operand): (Vec<Vec<u8>>, &[u8]) = match script {
            Script::Argument(held) => (CommandLayout::shell_flag_words(shell_flags), held),
            Script::File(path) => (CommandLayout::shell_flag_words(file_flags), path),
        };
        let argv: Vec<Vec<u8>> = argv_of(shell, words, operand);
        let launch: Launch = self.direct_launch(argv, scoped);
        proof {
            let held = launch->Direct_0.argv@;
            a_program_its_flags_and_its_operand(held, shell@, texts(words@), operand@);
        }
        Some(launch)
    }

    /// The launch one recipe line becomes, as its model.
    pub open spec fn step_model(
        &self,
        step: RecipeStep,
        scoped: Seq<EnvironmentChange>,
        spelled: Spelled,
    ) -> LaunchModel {
        match step.direct {
            Some(argv) => self.direct_model(texts(argv@), scoped),
            None => if step.shell_is_a_path {
                self.direct_model(
                    seq![step.shell@] + texts(spelled.flag_words@) + seq![step.text@],
                    scoped,
                )
            } else if step.shell@ == text("/bin/sh") {
                self.direct_model(
                    seq![step.shell@] + fields(step.shell_flags@) + seq![step.text@],
                    scoped,
                )
            } else {
                LaunchModel::Shell(
                    Blob {
                        data: self.argument_line(
                            spelled.environment@,
                            step.shell@,
                            step.shell_flags@,
                            spelled.script@,
                        ),
                    },
                )
            },
        }
    }

    /// The launch that runs one recipe line: the line's own argument list where
    /// it has one, the default shell or one named as a path as a program, and
    /// any other shell through a command line.
    pub fn launch_step(
        &self,
        step: &RecipeStep,
        scoped: &[EnvironmentChange],
        spelled: &Spelled,
    ) -> (launch: Launch)
        ensures
            launch.model() == self.step_model(*step, scoped@, *spelled),
            launch is Shell <==> step.direct is None && !step.shell_is_a_path && step.shell@
                != text("/bin/sh"),
            launch matches Launch::Direct(held) ==> held.directory@ == self.command_directory@
                && changes_of(held.environment@) == changes_of(self.recipe_environment@)
                + changes_of(scoped@),
            launch matches Launch::Direct(held) && step.direct is Some ==> texts(
                (launch->Direct_0).argv@,
            ) == texts((step.direct->0)@),
            launch matches Launch::Direct(held) && step.direct is None ==> (
            launch->Direct_0).argv@.len() > 1 && (launch->Direct_0).argv@[0]@ == step.shell@ && (
            launch->Direct_0).argv@.last()@ == step.text@ && texts(
                (launch->Direct_0).argv@.subrange(1, (launch->Direct_0).argv@.len() - 1),
            ) == (if step.shell_is_a_path {
                texts(spelled.flag_words@)
            } else {
                fields(step.shell_flags@)
            }),
            launch matches Launch::Shell(command) ==> command@ == (
            if self.command_directory@.len() > 0 {
                text("cd ") + shell_word(self.command_directory@) + text(" && ")
            } else {
                Seq::empty()
            }) + text("exec ") + spelled.environment@ + step.shell@ + text(" ")
                + step.shell_flags@ + text(" \"") + spelled.script@ + text("\""),
    {
        if let Some(argv) = &step.direct {
            return self.direct_launch(copied_all(argv), scoped);
        }
        if step.shell_is_a_path {
            let words: Vec<Vec<u8>> = copied_all(&spelled.flag_words);
            let argv: Vec<Vec<u8>> = argv_of(&step.shell, words, &step.text);
            let launch: Launch = self.direct_launch(argv, scoped);
            proof {
                let held = launch->Direct_0.argv@;
                a_program_its_flags_and_its_operand(
                    held,
                    step.shell@,
                    texts(spelled.flag_words@),
                    step.text@,
                );
            }
            return launch;
        }
        if same(&step.shell, "/bin/sh".as_bytes()) {
            let words: Vec<Vec<u8>> = CommandLayout::shell_flag_words(&step.shell_flags);
            let argv: Vec<Vec<u8>> = argv_of(&step.shell, words, &step.text);
            let launch: Launch = self.direct_launch(argv, scoped);
            proof {
                let held = launch->Direct_0.argv@;
                a_program_its_flags_and_its_operand(
                    held,
                    step.shell@,
                    fields(step.shell_flags@),
                    step.text@,
                );
            }
            return launch;
        }
        let mut command: Vec<u8> = self.prefix(&spelled.environment);
        append(&mut command, &step.shell);
        append(&mut command, " ".as_bytes());
        append(&mut command, &step.shell_flags);
        append(&mut command, " \"".as_bytes());
        append(&mut command, &spelled.script);
        append(&mut command, "\"".as_bytes());
        Launch::Shell(command)
    }

    /// Whether every line of this recipe can be launched on its own: there are
    /// lines, and none of them is long enough to need a response file.
    pub fn launches_line_by_line(steps: &[RecipeStep]) -> (answer: bool)
        ensures
            answer == (steps@.len() > 0 && forall|i: int|
                0 <= i < steps@.len() ==> (#[trigger] steps@[i]).text@.len()
                    <= RESPONSE_FILE_THRESHOLD),
    {
        if steps.len() == 0 {
            return false;
        }
        let mut at: usize = 0;
        while at < steps.len()
            invariant
                at <= steps@.len(),
                forall|i: int|
                    0 <= i < at ==> (#[trigger] steps@[i]).text@.len() <= RESPONSE_FILE_THRESHOLD,
            decreases steps@.len() - at,
        {
            if steps[at].text.len() > RESPONSE_FILE_THRESHOLD {
                return false;
            }
            at += 1;
        }
        true
    }

    /// A copy of this layout.
    pub fn copy(&self) -> (layout: Self)
        ensures
            layout.same_as(*self),
    {
        CommandLayout {
            command_directory: copied(&self.command_directory),
            recipe_environment: copied_changes(&self.recipe_environment),
            root_directory: copied(&self.root_directory),
            root: self.root,
            unreadable: match &self.unreadable {
                Some(why) => Some(why.clone()),
                None => None,
            },
        }
    }

    /// Whether two layouts wrap a recipe in the same way.
    pub open spec fn same_as(self, other: CommandLayout) -> bool {
        &&& self.command_directory@ == other.command_directory@
        &&& models(self.recipe_environment@) == models(other.recipe_environment@)
        &&& changes_of(self.recipe_environment@) == changes_of(other.recipe_environment@)
        &&& self.root_directory@ == other.root_directory@
        &&& self.root == other.root
        &&& model_of(self.unreadable) == model_of(other.unreadable)
    }
}

/// A recipe line runs in the directory its makefile was read in: a launch of its
/// own starts there, and a shell is sent there by a `cd` before anything else.
pub proof fn a_line_runs_where_its_makefile_was_read(
    layout: CommandLayout,
    step: RecipeStep,
    scoped: Seq<EnvironmentChange>,
    spelled: Spelled,
    launch: Launch,
)
    requires
        launch.model() == layout.step_model(step, scoped, spelled),
    ensures
        launch matches Launch::Direct(held) ==> held.directory@ == layout.command_directory@,
        launch matches Launch::Shell(command) ==> layout.command_directory@.len() > 0 ==> begins(
            command@,
            text("cd ") + shell_word(layout.command_directory@) + text(" && "),
        ),
        launch matches Launch::Shell(command) ==> layout.command_directory@.len() == 0 ==> begins(
            command@,
            text("exec "),
        ),
{
    if let Launch::Shell(command) = launch {
        let line = layout.argument_line(
            spelled.environment@,
            step.shell@,
            step.shell_flags@,
            spelled.script@,
        );
        assert(command@ == line);
        let entered = text("cd ") + shell_word(layout.command_directory@) + text(" && ");
        if layout.command_directory@.len() > 0 {
            assert(line.subrange(0, entered.len() as int) =~= entered);
        } else {
            assert(line.subrange(0, text("exec ").len() as int) =~= text("exec "));
        }
    }
}

/// A whole script is launched where its makefile was read, as one program with
/// the script, or the file it stands in, as its last word.
pub proof fn a_script_runs_where_its_makefile_was_read(
    layout: CommandLayout,
    argv: Seq<Seq<u8>>,
    scoped: Seq<EnvironmentChange>,
    launch: Launch,
)
    requires
        launch.model() == layout.direct_model(argv, scoped),
    ensures
        launch matches Launch::Direct(held) && held.directory@ == layout.command_directory@
            && texts(held.argv@) == argv && models(held.environment@) == models(
            layout.recipe_environment@,
        ) + models(scoped),
{
    let held = launch->Direct_0;
    assert(blobs(texts(held.argv@)).items =~= models(held.argv@));
    assert forall|i: int| 0 <= i < argv.len() implies texts(held.argv@)[i] == argv[i] by {
        assert(blobs(argv).items[i].data == argv[i]);
        assert(models(held.argv@)[i] == blobs(argv).items[i]);
    }
    assert(models(held.argv@).len() == blobs(argv).items.len());
    assert(texts(held.argv@) =~= argv);
}

/// A list that is a program, its flags and what it is handed, taken apart.
proof fn a_program_its_flags_and_its_operand(
    argv: Seq<Vec<u8>>,
    program: Seq<u8>,
    flags: Seq<Seq<u8>>,
    operand: Seq<u8>,
)
    requires
        texts(argv) == seq![program] + flags + seq![operand],
    ensures
        argv.len() > 1,
        argv[0]@ == program,
        argv.last()@ == operand,
        texts(argv.subrange(1, argv.len() - 1)) == flags,
{
    assert(texts(argv).len() == argv.len());
    assert(texts(argv)[0] == program);
    assert(texts(argv)[argv.len() - 1] == operand);
    assert(texts(argv.subrange(1, argv.len() - 1)) =~= texts(argv).subrange(1, argv.len() - 1));
    assert(texts(argv).subrange(1, argv.len() - 1) =~= flags);
}

/// A program, its flags, and what it is handed.
fn argv_of(program: &[u8], flags: Vec<Vec<u8>>, operand: &[u8]) -> (argv: Vec<Vec<u8>>)
    ensures
        texts(argv@) == seq![program@] + texts(flags@) + seq![operand@],
{
    let mut argv: Vec<Vec<u8>> = Vec::new();
    let mut words: Vec<Vec<u8>> = flags;
    let ghost all = words@;
    argv.push(copied(program));
    argv.append(&mut words);
    argv.push(copied(operand));
    assert(texts(argv@) =~= seq![program@] + texts(all) + seq![operand@]);
    argv
}

/// A whole assembled script one rule runs, waiting for the edge that runs it.
///
/// One read out of a response file is named after the edge's output, so its
/// launch cannot be finished until there is an edge to name it after.
#[derive(Debug)]
pub struct SettledScript {
    pub layout: CommandLayout,
    pub shell: Vec<u8>,
    pub shell_flags: Vec<u8>,
    /// The shell's flags less the letter that says the next word is the
    /// command.
    pub file_flags: Vec<u8>,
    /// The script itself, or `None` where it is the response file's content and
    /// the shell reads it from there.
    pub script: Option<Vec<u8>>,
    /// What the target's own scope changes about the environment, over what the
    /// layout already carries for the unit.
    pub scoped: Vec<EnvironmentChange>,
    pub ignore_errors: bool,
}

impl SettledScript {
    /// The step this script becomes under one environment, as its model.
    pub open spec fn step_under(&self, output: Seq<u8>, scoped: Seq<EnvironmentChange>) -> Option<
        StepModel,
    > {
        if self.shell@ == text("/bin/sh") {
            Some(
                (
                    self.layout.direct_model(
                        match self.script {
                            Some(held) => seq![self.shell@] + fields(self.shell_flags@)
                                + seq![held@],
                            None => seq![self.shell@] + fields(self.file_flags@)
                                + seq![self.layout.response_path(output)],
                        },
                        scoped,
                    ),
                    (Flag { value: self.ignore_errors }, Flag { value: false }),
                ),
            )
        } else {
            None
        }
    }

    /// The launch this script becomes under one environment.
    pub fn launched(&self, output: &[u8], scoped: &[EnvironmentChange]) -> (step: Option<LateStep>)
        ensures
            model_of(step) == self.step_under(output@, scoped@),
            step is Some <==> self.shell@ == text("/bin/sh"),
            step matches Some(held) ==> held.ignore_errors == self.ignore_errors
                && !held.runs_while_pretending && (held.launch matches Launch::Direct(started)
                && started.directory@ == self.layout.command_directory@
                && changes_of(started.environment@) == changes_of(
                self.layout.recipe_environment@,
            ) + changes_of(scoped@) && started.argv@.len() > 1 && started.argv@[0]@ == self.shell@
                && (self.script matches Some(script) ==> started.argv@.last()@ == script@) && (
            self.script is None ==> started.argv@.last()@ == self.layout.response_path(output@))),
    {
        let response_file: Vec<u8> = self.layout.response_file(output);
        let script: Script<'_> = match &self.script {
            Some(held) => Script::Argument(held),
            None => Script::File(&response_file),
        };
        match self.layout.launch_script(
            &self.shell,
            &self.shell_flags,
            &self.file_flags,
            script,
            scoped,
        ) {
            Some(launch) => Some(
                LateStep {
                    launch,
                    ignore_errors: self.ignore_errors,
                    runs_while_pretending: false,
                },
            ),
            None => None,
        }
    }

    /// Whether launches are what this script becomes for the edge producing an
    /// output, in the shapes both phases need.
    pub open spec fn launches(&self, output: Seq<u8>, steps: Option<SettledSteps>) -> bool {
        match steps {
            Some(held) => {
                &&& self.step_under(output, self.scoped@) is Some
                &&& models(held.ordinary@) == seq![self.step_under(output, self.scoped@)->0]
                &&& self.layout.remaking_changes(changes_of(self.scoped@)).len() == 0
                    ==> held.while_remaking is None
                &&& self.layout.remaking_changes(changes_of(self.scoped@)).len() > 0 ==> {
                    exists|changed: Seq<EnvironmentChange>|
                        changes_of(changed) == changes_of(self.scoped@)
                            + self.layout.remaking_changes(changes_of(self.scoped@))
                            && held.while_remaking is Some && models(held.while_remaking->0@)
                            == seq![(#[trigger] self.step_under(output, changed))->0]
                }
            },
            None => self.step_under(output, self.scoped@) is None,
        }
    }

    /// The launch, once `output` says what the edge's response file is called,
    /// in the shapes both phases need. Nothing for a recipe naming a shell of
    /// its own.
    pub fn launch(&self, output: &[u8]) -> (steps: Option<SettledSteps>)
        ensures
            self.launches(output@, steps),
    {
        let ordinary: LateStep = match self.launched(output, &self.scoped) {
            Some(step) => step,
            None => return None,
        };
        let ghost first = ordinary;
        let mut steps: Vec<LateStep> = Vec::new();
        steps.push(ordinary);
        assert(models(steps@) =~= seq![first.model()]);
        let remaking: Vec<EnvironmentChange> = self.layout.while_remaking_makefiles(&self.scoped);
        assert(changes_of(remaking@).len() == remaking@.len());
        if remaking.len() == 0 {
            return Some(SettledSteps::same(steps));
        }
        let scoped: Vec<EnvironmentChange> = chained(&self.scoped, &remaking);
        let while_remaking: Option<Vec<LateStep>> = match self.launched(output, &scoped) {
            Some(step) => {
                let ghost second = step;
                let mut held: Vec<LateStep> = Vec::new();
                held.push(step);
                assert(models(held@) =~= seq![second.model()]);
                Some(held)
            },
            None => None,
        };
        assert(self.step_under(output@, scoped@) is Some);
        Some(SettledSteps { ordinary: steps, while_remaking })
    }
}

impl SettledSteps {
    /// Launches the two phases share, because nothing in them would move.
    pub fn same(steps: Vec<LateStep>) -> (settled: Self)
        ensures
            settled.ordinary == steps,
            settled.while_remaking is None,
    {
        SettledSteps { ordinary: steps, while_remaking: None }
    }

    /// One recipe's launches under each of the two environments.
    pub fn split(ordinary: Vec<LateStep>, while_remaking: Vec<LateStep>) -> (settled: Self)
        ensures
            settled.ordinary == ordinary,
            settled.while_remaking == Some(while_remaking),
    {
        SettledSteps { ordinary, while_remaking: Some(while_remaking) }
    }

    /// The launches of the two phases, the second where it is not the first.
    pub fn from_parts(ordinary: Vec<LateStep>, while_remaking: Option<Vec<LateStep>>) -> (settled:
        Self)
        ensures
            settled.ordinary == ordinary,
            settled.while_remaking == while_remaking,
    {
        SettledSteps { ordinary, while_remaking }
    }

    /// The launches for the phase now running.
    pub fn during(&self, remaking_makefiles: bool) -> (steps: &Vec<LateStep>)
        ensures
            *steps == (if remaking_makefiles && self.while_remaking is Some {
                self.while_remaking->0
            } else {
                self.ordinary
            }),
    {
        if remaking_makefiles {
            if let Some(steps) = &self.while_remaking {
                return steps;
            }
        }
        &self.ordinary
    }
}

/// One command line of a recipe, with how its pieces are spelled for a shell in
/// each of the two phases.
#[derive(Debug)]
pub struct SpelledStep {
    pub step: RecipeStep,
    /// How they are spelled for the goals.
    pub spelled: Spelled,
    /// How they are spelled for the makefile update.
    pub remaking: Spelled,
}

/// The step one recipe line becomes for the goals, as its model.
pub open spec fn goal_step(
    layout: CommandLayout,
    step: SpelledStep,
    scoped: Seq<EnvironmentChange>,
) -> StepModel {
    (
        layout.step_model(step.step, scoped, step.spelled),
        (
            Flag { value: step.step.ignore_error },
            Flag { value: step.step.recursive_line },
        ),
    )
}

/// The step one recipe line becomes for the makefile update, as its model.
pub open spec fn update_step(
    layout: CommandLayout,
    step: SpelledStep,
    scoped: Seq<EnvironmentChange>,
) -> StepModel {
    (
        layout.step_model(step.step, scoped, step.remaking),
        (
            Flag { value: step.step.ignore_error },
            Flag { value: step.step.recursive_line },
        ),
    )
}

/// Whether every line of a recipe can be launched on its own.
pub open spec fn line_by_line(steps: Seq<SpelledStep>) -> bool {
    steps.len() > 0 && forall|i: int|
        0 <= i < steps.len() ==> (#[trigger] steps[i]).step.text@.len() <= RESPONSE_FILE_THRESHOLD
}

/// Whether launches are what a recipe's lines become in the two phases.
pub open spec fn settles(
    settled: SettledSteps,
    layout: CommandLayout,
    steps: Seq<SpelledStep>,
    scoped: Seq<EnvironmentChange>,
) -> bool {
    let remaking = layout.remaking_changes(changes_of(scoped));
    &&& models(settled.ordinary@) == Seq::new(
        steps.len(),
        |i: int| goal_step(layout, steps[i], scoped),
    )
    &&& remaking.len() == 0 ==> settled.while_remaking is None
    &&& remaking.len() > 0 ==> exists|changed: Seq<EnvironmentChange>|
        changes_of(changed) == changes_of(scoped) + remaking && settled.while_remaking is Some
            && #[trigger] remade_as(settled.while_remaking->0@, layout, steps, changed)
}

/// Whether launches are what a recipe's lines become for the makefile update.
pub open spec fn remade_as(
    launches: Seq<LateStep>,
    layout: CommandLayout,
    steps: Seq<SpelledStep>,
    changed: Seq<EnvironmentChange>,
) -> bool {
    models(launches) == Seq::new(steps.len(), |i: int| update_step(layout, steps[i], changed))
}

impl CommandLayout {
    /// Whether every line of a recipe can be launched on its own.
    pub fn launches_by_line(steps: &[SpelledStep]) -> (answer: bool)
        ensures
            answer == line_by_line(steps@),
    {
        if steps.len() == 0 {
            return false;
        }
        let mut at: usize = 0;
        while at < steps.len()
            invariant
                at <= steps@.len(),
                forall|i: int|
                    0 <= i < at ==> (#[trigger] steps@[i]).step.text@.len()
                        <= RESPONSE_FILE_THRESHOLD,
            decreases steps@.len() - at,
        {
            if steps[at].step.text.len() > RESPONSE_FILE_THRESHOLD {
                return false;
            }
            at += 1;
        }
        true
    }

    /// The launches one recipe's lines become, in the shapes both phases need.
    pub fn settled_steps(&self, steps: &[SpelledStep], scoped: &[EnvironmentChange]) -> (settled:
        SettledSteps)
        ensures
            settles(settled, *self, steps@, scoped@),
    {
        let mut ordinary: Vec<LateStep> = Vec::new();
        let ghost goals = Seq::new(
            steps@.len(),
            |i: int| goal_step(*self, steps@[i], scoped@),
        );
        let mut at: usize = 0;
        assert(models(ordinary@) =~= goals.take(0));
        while at < steps.len()
            invariant
                at <= steps@.len(),
                goals == Seq::new(steps@.len(), |i: int| goal_step(*self, steps@[i], scoped@)),
                models(ordinary@) == goals.take(at as int),
            decreases steps@.len() - at,
        {
            let step: LateStep = LateStep {
                launch: self.launch_step(&steps[at].step, scoped, &steps[at].spelled),
                ignore_errors: steps[at].step.ignore_error,
                runs_while_pretending: steps[at].step.recursive_line,
            };
            let ghost before = models(ordinary@);
            let ghost added = step.model();
            ordinary.push(step);
            assert(models(ordinary@) =~= before.push(added));
            assert(models(ordinary@) =~= goals.take(at as int + 1));
            at += 1;
        }
        assert(goals.take(at as int) =~= goals);
        let remaking: Vec<EnvironmentChange> = self.while_remaking_makefiles(scoped);
        assert(changes_of(remaking@).len() == remaking@.len());
        if remaking.len() == 0 {
            return SettledSteps::same(ordinary);
        }
        let changed: Vec<EnvironmentChange> = chained(scoped, &remaking);
        let ghost updates = Seq::new(
            steps@.len(),
            |i: int| update_step(*self, steps@[i], changed@),
        );
        let mut remade: Vec<LateStep> = Vec::new();
        let mut at: usize = 0;
        assert(models(remade@) =~= updates.take(0));
        while at < steps.len()
            invariant
                at <= steps@.len(),
                updates == Seq::new(steps@.len(), |i: int| update_step(*self, steps@[i], changed@)),
                models(remade@) == updates.take(at as int),
            decreases steps@.len() - at,
        {
            let step: LateStep = LateStep {
                launch: self.launch_step(&steps[at].step, &changed, &steps[at].remaking),
                ignore_errors: steps[at].step.ignore_error,
                runs_while_pretending: steps[at].step.recursive_line,
            };
            let ghost before = models(remade@);
            let ghost added = step.model();
            remade.push(step);
            assert(models(remade@) =~= before.push(added));
            assert(models(remade@) =~= updates.take(at as int + 1));
            at += 1;
        }
        assert(updates.take(at as int) =~= updates);
        let settled: SettledSteps = SettledSteps::split(ordinary, remade);
        assert(remade_as(settled.while_remaking->0@, *self, steps@, changed@));
        assert(models(settled.ordinary@) == goals);
        settled
    }
}

/// A copy of one launch.
fn copied_launch(launch: &Launch) -> (copy: Launch)
    ensures
        copy.model() == launch.model(),
{
    match launch {
        Launch::Shell(command) => Launch::Shell(copied(command)),
        Launch::Direct(direct) => {
            let copy: DirectLaunch = DirectLaunch {
                argv: copied_all(&direct.argv),
                directory: copied(&direct.directory),
                environment: copied_changes(&direct.environment),
                diagnostic_prefix: direct.diagnostic_prefix.clone(),
                starts_no_process: direct.starts_no_process,
            };
            let ghost theirs = texts(direct.argv@);
            assert(texts(copy.argv@).len() == theirs.len());
            assert forall|i: int| 0 <= i < copy.argv@.len() implies (
            #[trigger] copy.argv@[i])@ == direct.argv@[i]@ by {
                assert(texts(copy.argv@)[i] == theirs[i]);
            }
            assert(models(copy.argv@) =~= models(direct.argv@));
            Launch::Direct(copy)
        },
        Launch::Refused(why) => Launch::Refused(why.clone()),
    }
}

/// A copy of some steps.
pub(crate) fn copied_steps(steps: &[LateStep]) -> (copies: Vec<LateStep>)
    ensures
        models(copies@) == models(steps@),
{
    let mut copies: Vec<LateStep> = Vec::new();
    let mut at: usize = 0;
    while at < steps.len()
        invariant
            at <= steps@.len(),
            copies@.len() == at,
            forall|i: int|
                0 <= i < at ==> (#[trigger] copies@[i]).model() == steps@[i].model(),
        decreases steps@.len() - at,
    {
        copies.push(
            LateStep {
                launch: copied_launch(&steps[at].launch),
                ignore_errors: steps[at].ignore_errors,
                runs_while_pretending: steps[at].runs_while_pretending,
            },
        );
        at += 1;
    }
    assert(models(copies@) =~= models(steps@));
    copies
}

impl SettledSteps {
    /// A copy of these launches.
    pub fn copy(&self) -> (copy: Self)
        ensures
            copy.model() == self.model(),
    {
        SettledSteps {
            ordinary: copied_steps(&self.ordinary),
            while_remaking: match &self.while_remaking {
                Some(steps) => Some(copied_steps(steps)),
                None => None,
            },
        }
    }
}

/// What one stretch of a recursive recipe is launched as: its lines, or its
/// whole script once there is an edge to name a response file after.
#[derive(Debug)]
pub enum SettledSegment {
    Steps(SettledSteps),
    Script(SettledScript),
}

impl SettledSegment {
    /// The launches, once `output` says what the edge's response file is called.
    pub fn launch(&self, output: &[u8]) -> (steps: Option<SettledSteps>)
        ensures
            match self {
                SettledSegment::Steps(held) => steps matches Some(copy) && copy.model()
                    == held.model(),
                SettledSegment::Script(script) => script.launches(output@, steps),
            },
    {
        match self {
            SettledSegment::Steps(held) => Some(held.copy()),
            SettledSegment::Script(script) => script.launch(output),
        }
    }

    /// The launches, taken out, once `output` says what the edge's response
    /// file is called.
    pub fn into_steps(self, output: &[u8]) -> (steps: Option<SettledSteps>)
        ensures
            match self {
                SettledSegment::Steps(held) => steps == Some(held),
                SettledSegment::Script(script) => script.launches(output@, steps),
            },
    {
        match self {
            SettledSegment::Steps(held) => Some(held),
            SettledSegment::Script(script) => script.launch(output),
        }
    }
}

/// A shell reads a quoted word, wherever it stands outside quotes, as the word
/// it was.
proof fn a_quoted_word_is_read(
    command: Seq<u8>,
    at: int,
    held: Seq<u8>,
    word: Seq<u8>,
    words: Seq<Seq<u8>>,
)
    requires
        0 <= at,
        at + shell_word(word).len() <= command.len(),
        command.subrange(at, at + shell_word(word).len()) == shell_word(word),
    ensures
        reading(command, at, None, held, words, None, 0) == reading(
            command,
            at + shell_word(word).len(),
            None,
            held + word,
            words,
            None,
            0,
        ),
{
    let spelled = shell_word(word);
    let slice = command.subrange(at, at + spelled.len());
    assert(slice[0] == 0x27);
    assert(command[at] == 0x27);
    inside_the_quotes(command, at, held, word, words, word.len() as int);
    assert(word.take(word.len() as int) =~= word);
    let end = at + spelled.len() - 1;
    assert(slice[spelled.len() - 1] == 0x27);
    assert(command[end] == 0x27);
}

proof fn inside_the_quotes(
    command: Seq<u8>,
    at: int,
    held: Seq<u8>,
    word: Seq<u8>,
    words: Seq<Seq<u8>>,
    count: int,
)
    requires
        0 <= at,
        0 <= count <= word.len(),
        at + shell_word(word).len() <= command.len(),
        command.subrange(at, at + shell_word(word).len()) == shell_word(word),
    ensures
        reading(command, at, None, held, words, None, 0) == reading(
            command,
            at + 1 + quoted_bytes(word.take(count)).len(),
            Some(Quote::Single),
            held + word.take(count),
            words,
            None,
            0,
        ),
        quoted_bytes(word.take(count)).len() <= quoted_bytes(word).len(),
        quoted_bytes(word).take(quoted_bytes(word.take(count)).len() as int) == quoted_bytes(
            word.take(count),
        ),
    decreases count,
{
    let spelled = shell_word(word);
    let slice = command.subrange(at, at + spelled.len());
    assert(slice[0] == 0x27);
    assert(command[at] == 0x27);
    quoted_bytes_of_a_part(word, count);
    if count == 0 {
        assert(word.take(0) =~= Seq::empty());
        assert(held + word.take(0) =~= held);
    } else {
        inside_the_quotes(command, at, held, word, words, count - 1);
        quoted_bytes_of_a_part(word, count - 1);
        let before = word.take(count - 1);
        let next = word.take(count);
        assert(next.drop_last() =~= before);
        let byte = word[count - 1];
        assert(next.last() == byte);
        let stood = at + 1 + quoted_bytes(before).len();
        let added = quoted_bytes(next).skip(quoted_bytes(before).len() as int);
        assert forall|i: int| 0 <= i < added.len() implies command[stood + i] == added[i] by {
            let place = quoted_bytes(before).len() + i;
            assert(quoted_bytes(next)[place] == quoted_bytes(word)[place]) by {
                assert(quoted_bytes(word).take(quoted_bytes(next).len() as int)[place]
                    == quoted_bytes(next)[place]);
            }
            assert(spelled[1 + place] == quoted_bytes(word)[place]);
            assert(slice[1 + place] == command[at + 1 + place]);
        }
        assert(held + next =~= (held + before).push(byte));
        if byte == 0x27 {
            assert(added =~= seq![0x27u8, 0x5cu8, 0x27u8, 0x27u8]);
            assert(command[stood] == 0x27 && command[stood + 1] == 0x5c && command[stood + 2]
                == 0x27 && command[stood + 3] == 0x27);
            let here = held + before;
            assert(reading(command, stood, Some(Quote::Single), here, words, None, 0) == reading(
                command,
                stood + 1,
                None,
                here,
                words,
                None,
                0,
            ));
            assert(reading(command, stood + 1, None, here, words, None, 0) == reading(
                command,
                stood + 3,
                None,
                here.push(0x27),
                words,
                None,
                0,
            ));
            assert(reading(command, stood + 3, None, here.push(0x27), words, None, 0) == reading(
                command,
                stood + 4,
                Some(Quote::Single),
                here.push(0x27),
                words,
                None,
                0,
            ));
        } else {
            assert(added =~= seq![byte]);
            assert(command[stood + 0] == added[0]);
        }
    }
}

proof fn quoted_bytes_of_a_part(word: Seq<u8>, count: int)
    requires
        0 <= count <= word.len(),
    ensures
        quoted_bytes(word.take(count)).len() <= quoted_bytes(word).len(),
        quoted_bytes(word).take(quoted_bytes(word.take(count)).len() as int) == quoted_bytes(
            word.take(count),
        ),
    decreases word.len(),
{
    let part = quoted_bytes(word.take(count));
    if count == word.len() {
        assert(word.take(count) =~= word);
        assert(quoted_bytes(word).take(part.len() as int) =~= part);
    } else {
        let front = word.drop_last();
        quoted_bytes_of_a_part(front, count);
        assert(front.take(count) =~= word.take(count));
        assert(quoted_bytes(word).take(part.len() as int) =~= quoted_bytes(front).take(
            part.len() as int,
        ));
    }
}

/// Every word of a list as a shell command line spells it.
pub open spec fn all_shell_words(words: Seq<Seq<u8>>) -> Seq<Seq<u8>> {
    Seq::new(words.len(), |i: int| shell_word(words[i]))
}

proof fn shell_words_are_read(words: Seq<Seq<u8>>, tail: Seq<u8>)
    requires
        words.len() > 0,
        forall|i: int| 0 <= i < words.len() ==> (#[trigger] words[i]).len() > 0,
    ensures
        ({
            let line = joined(all_shell_words(words), seq![0x20u8]);
            words_of(line + tail, None) == reading(
                line + tail,
                line.len() as int,
                None,
                words.last(),
                words.drop_last(),
                None,
                0,
            )
        }),
    decreases words.len(),
{
    let line = joined(all_shell_words(words), seq![0x20u8]);
    let command = line + tail;
    let last = words.last();
    if words.len() == 1 {
        assert(line == shell_word(last));
        assert(command.subrange(0, shell_word(last).len() as int) =~= shell_word(last));
        a_quoted_word_is_read(command, 0, Seq::empty(), last, Seq::empty());
        assert(Seq::<u8>::empty() + last =~= last);
        assert(words.drop_last() =~= Seq::<Seq<u8>>::empty());
    } else {
        let front = words.drop_last();
        let before = joined(all_shell_words(front), seq![0x20u8]);
        assert(all_shell_words(words).drop_last() =~= all_shell_words(front));
        assert(all_shell_words(words).last() == shell_word(last));
        let behind = seq![0x20u8] + shell_word(last) + tail;
        assert(line =~= before + seq![0x20u8] + shell_word(last));
        assert(command =~= before + behind);
        shell_words_are_read(front, behind);
        let gap = before.len() as int;
        assert(command[gap] == 0x20);
        assert(closed_word(front.drop_last(), front.last()) =~= front);
        assert(reading(command, gap, None, front.last(), front.drop_last(), None, 0) == reading(
            command,
            gap + 1,
            None,
            Seq::empty(),
            front,
            None,
            0,
        ));
        assert(command.subrange(gap + 1, gap + 1 + shell_word(last).len()) =~= shell_word(last));
        a_quoted_word_is_read(command, gap + 1, Seq::empty(), last, front);
        assert(Seq::<u8>::empty() + last =~= last);
    }
}

/// Words quoted for a shell, with a space between each two, are the words the
/// shell reads.
pub proof fn a_shell_reads_the_words_it_was_given(words: Seq<Seq<u8>>)
    requires
        words.len() > 0,
        forall|i: int| 0 <= i < words.len() ==> (#[trigger] words[i]).len() > 0,
    ensures
        words_of(joined(all_shell_words(words), seq![0x20u8]), None) == Reading::Words(words),
{
    let line = joined(all_shell_words(words), seq![0x20u8]);
    shell_words_are_read(words, Seq::empty());
    assert(line + Seq::<u8>::empty() =~= line);
    assert(closed_word(words.drop_last(), words.last()) =~= words);
}

/// The makefile update hands on no switch that pretends, and hands on the
/// same when it is asked again.
pub proof fn no_switch_pretends_twice(letters: Seq<u8>)
    ensures
        forall|i: int|
            0 <= i < unpretending(letters).len() ==> !pretending(
                #[trigger] unpretending(letters)[i],
            ),
        unpretending(unpretending(letters)) == unpretending(letters),
    decreases letters.len(),
{
    if letters.len() > 0 {
        no_switch_pretends_twice(letters.drop_last());
        let before = unpretending(letters.drop_last());
        if !pretending(letters.last()) {
            let after = before.push(letters.last());
            assert(after.drop_last() =~= before);
        }
    }
}

/// A recipe that is settled line by line has a launch for each line, in their
/// order, forgiven and run under a pretence as its line said; and it has launches
/// of their own for the makefile update where, and only where, the update would
/// tell a child other switches.
pub proof fn each_line_is_settled(
    settled: SettledSteps,
    layout: CommandLayout,
    steps: Seq<SpelledStep>,
    scoped: Seq<EnvironmentChange>,
)
    requires
        settles(settled, layout, steps, scoped),
    ensures
        settled.ordinary@.len() == steps.len(),
        forall|i: int|
            0 <= i < steps.len() ==> (#[trigger] settled.ordinary@[i]).ignore_errors
                == steps[i].step.ignore_error && settled.ordinary@[i].runs_while_pretending
                == steps[i].step.recursive_line && settled.ordinary@[i].launch.model()
                == layout.step_model(steps[i].step, scoped, steps[i].spelled),
        settled.while_remaking is Some <==> layout.remaking_changes(changes_of(scoped)).len() > 0,
        settled.while_remaking matches Some(held) ==> held@.len() == steps.len() && (forall|i: int|
            0 <= i < steps.len() ==> (#[trigger] held@[i]).ignore_errors
                == steps[i].step.ignore_error && held@[i].runs_while_pretending
                == steps[i].step.recursive_line),
{
    let first = models(settled.ordinary@);
    assert(first.len() == settled.ordinary@.len());
    assert forall|i: int| 0 <= i < steps.len() implies (
    #[trigger] settled.ordinary@[i]).ignore_errors == steps[i].step.ignore_error
        && settled.ordinary@[i].runs_while_pretending == steps[i].step.recursive_line
        && settled.ordinary@[i].launch.model() == layout.step_model(
        steps[i].step,
        scoped,
        steps[i].spelled,
    ) by {
        assert(first[i] == settled.ordinary@[i].model());
        assert(first[i] == goal_step(layout, steps[i], scoped));
    }
    if layout.remaking_changes(changes_of(scoped)).len() > 0 {
        let changed = choose|changed: Seq<EnvironmentChange>|
            changes_of(changed) == changes_of(scoped) + layout.remaking_changes(changes_of(scoped))
                && settled.while_remaking is Some && #[trigger] remade_as(
                settled.while_remaking->0@,
                layout,
                steps,
                changed,
            );
        let held = settled.while_remaking->0@;
        assert(models(held).len() == held.len());
        assert forall|i: int| 0 <= i < steps.len() implies (#[trigger] held[i]).ignore_errors
            == steps[i].step.ignore_error && held[i].runs_while_pretending
            == steps[i].step.recursive_line by {
            assert(models(held)[i] == held[i].model());
            assert(models(held)[i] == update_step(layout, steps[i], changed));
        }
    }
}

/// A script that is settled whole is one launch, forgiven as its rule said, and it
/// has one of its own for the makefile update where, and only where, the update
/// would tell a child other switches. A recipe that names a shell of its own has
/// none.
pub proof fn a_whole_script_is_one_launch(
    script: SettledScript,
    output: Seq<u8>,
    steps: Option<SettledSteps>,
)
    requires
        script.launches(output, steps),
    ensures
        steps is Some <==> script.shell@ == text("/bin/sh"),
        steps matches Some(held) ==> held.ordinary@.len() == 1 && held.ordinary@[0].ignore_errors
            == script.ignore_errors && (held.ordinary@[0].launch matches Launch::Direct(started)
            && started.directory@ == script.layout.command_directory@) && (held.while_remaking
            is Some <==> script.layout.remaking_changes(changes_of(script.scoped@)).len() > 0),
{
    if let Some(held) = steps {
        let one = models(held.ordinary@);
        assert(one.len() == held.ordinary@.len());
        assert(one[0] == held.ordinary@[0].model());
    }
}

} // verus!
