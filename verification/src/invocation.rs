//! What one Make invocation asks for, and how its command line is read.

use crate::bytes::{
    append, copied, holds, literal, lossy, maybe, part, same, text, texts, to_str_lossy,
};
use crate::error::message;
use crate::options::{
    clear_bit_lets_go, debug_facets, facets, held_in, no_bits_hold_nothing, set_bit_holds, stray, ArgumentSource, DB_ALL, DB_PRINT, DB_WHY, JobLimit, OutputSync, Shuffle, Switch,
};
use crate::paths::{canonical, canonpath};
use crate::report::said;
use vstd::prelude::*;
use vstd::string::*;

verus! {

/// What the option grammar has to be told about the world it is read in.
#[derive(Debug)]
pub struct Surroundings {
    /// What each name that begins with a tilde stands for.
    pub tildes: Vec<(Vec<u8>, Vec<u8>)>,
    /// How the number each load average spells is written, one that spells
    /// none being left out.
    pub loads: Vec<(Vec<u8>, Vec<u8>)>,
    /// The order a shuffle that names none is given.
    pub seed: u32,
    pub product_version: Vec<u8>,
    /// The Make whose makefiles are read.
    pub make_version: Vec<u8>,
}

/// Pairs of byte strings, as their contents.
pub open spec fn pairs(list: Seq<(Vec<u8>, Vec<u8>)>) -> Seq<(Seq<u8>, Seq<u8>)> {
    Seq::new(list.len(), |i: int| (list[i].0@, list[i].1@))
}

/// What the first pair under a name holds.
pub open spec fn looked_up(list: Seq<(Seq<u8>, Seq<u8>)>, name: Seq<u8>) -> Option<Seq<u8>>
    decreases list.len(),
{
    if list.len() == 0 {
        None
    } else if list[0].0 == name {
        Some(list[0].1)
    } else {
        looked_up(list.drop_first(), name)
    }
}

/// What the first pair under a name holds.
pub fn look_up(list: &[(Vec<u8>, Vec<u8>)], name: &[u8]) -> (found: Option<Vec<u8>>)
    ensures
        maybe(found) == looked_up(pairs(list@), name@),
{
    let ghost all = pairs(list@);
    let mut at: usize = 0;
    assert(all.skip(0) =~= all);
    while at < list.len()
        invariant
            at <= list@.len(),
            all == pairs(list@),
            looked_up(all.skip(at as int), name@) == looked_up(all, name@),
        decreases list@.len() - at,
    {
        let ghost here = all.skip(at as int);
        assert(here[0] == (list@[at as int].0@, list@[at as int].1@));
        assert(here.drop_first() =~= all.skip(at as int + 1));
        if same(&list[at].0, name) {
            return Some(copied(&list[at].1));
        }
        at += 1;
    }
    None
}

/// The surroundings, as their model.
pub ghost struct Around {
    pub tildes: Seq<(Seq<u8>, Seq<u8>)>,
    pub loads: Seq<(Seq<u8>, Seq<u8>)>,
    pub seed: u32,
    pub product_version: Seq<u8>,
    pub make_version: Seq<u8>,
}

impl Surroundings {
    /// The surroundings as their model.
    pub open spec fn model(&self) -> Around {
        Around {
            tildes: pairs(self.tildes@),
            loads: pairs(self.loads@),
            seed: self.seed,
            product_version: self.product_version@,
            make_version: self.make_version@,
        }
    }

    /// Surroundings that say nothing.
    pub fn bare() -> (around: Self)
        ensures
            around.model() == (Around {
                tildes: Seq::empty(),
                loads: Seq::empty(),
                seed: 0,
                product_version: Seq::empty(),
                make_version: Seq::empty(),
            }),
    {
        let around = Surroundings {
            tildes: Vec::new(),
            loads: Vec::new(),
            seed: 0,
            product_version: Vec::new(),
            make_version: Vec::new(),
        };
        assert(around.model().tildes =~= Seq::empty());
        assert(around.model().loads =~= Seq::empty());
        assert(around.model().product_version =~= Seq::empty());
        assert(around.model().make_version =~= Seq::empty());
        around
    }
}

/// What `-l` settled on: the text its ceiling is read from, and whether that
/// spelling is carried onward. A bare `-l` lifts a ceiling and is not.
#[derive(Debug)]
pub struct LoadLimit {
    pub ceiling: Vec<u8>,
    pub propagated: bool,
}

/// What one Make invocation asks for.
#[derive(Debug)]
pub struct Invocation {
    /// The directories `-C` named, in order, each entered from the one before.
    pub directories: Vec<Vec<u8>>,
    /// Where `-I` says to look for a makefile another one names, in the order
    /// given.
    pub include_dirs: Vec<Vec<u8>>,
    /// The Makefiles `-f` named, in the order it named them.
    pub makefiles: Vec<Vec<u8>>,
    pub goals: Vec<Vec<u8>>,
    /// `VAR=value` in command-line order, which is the order Make applies them.
    pub variables: Vec<Vec<u8>>,
    /// Makefile statements supplied through `-E` and `--eval`, in source order.
    pub evals: Vec<Vec<u8>>,
    /// Each `--debug` argument as it was written.
    pub debug: Vec<Vec<u8>>,
    /// What `--shuffle` settled on.
    pub shuffle: Shuffle,
    /// The word `MAKEFLAGS` republishes for `--shuffle`.
    pub shuffle_spelling: Option<Vec<u8>>,
    /// A `-j` written on this invocation's own command line.
    pub jobs: Option<JobLimit>,
    /// A `-j` that came through an option stream.
    pub inherited_jobs: Option<JobLimit>,
    pub load: Option<LoadLimit>,
    /// One bit per [`Switch`] that was given.
    pub switches: u16,
    /// One bit per [`Switch`] that was taken back.
    pub negated: u16,
    pub output_sync: Option<OutputSync>,
    /// The last `--jobserver-style` written, kept only to be checked.
    pub jobserver_style: Option<Vec<u8>>,
    /// The files `-W` named, canonical, in the order they were given.
    pub assumed_new: Vec<Vec<u8>>,
    /// The files assumed to be old, in the order they were given.
    pub assumed_old: Vec<Vec<u8>>,
    /// The first switch this stream could not read, kept until the whole word
    /// has been consumed.
    pub bad: Option<Vec<u8>>,
    /// What this stream had to say about a word it dropped rather than died of.
    pub complaints: Vec<Vec<u8>>,
    pub around: Surroundings,
}

/// What one Make invocation asks for, as its model.
pub ghost struct Settings {
    pub directories: Seq<Seq<u8>>,
    pub include_dirs: Seq<Seq<u8>>,
    pub makefiles: Seq<Seq<u8>>,
    pub goals: Seq<Seq<u8>>,
    pub variables: Seq<Seq<u8>>,
    pub evals: Seq<Seq<u8>>,
    pub debug: Seq<Seq<u8>>,
    pub shuffle: Shuffle,
    pub shuffle_spelling: Option<Seq<u8>>,
    pub jobs: Option<JobLimit>,
    pub inherited_jobs: Option<JobLimit>,
    pub load: Option<(Seq<u8>, bool)>,
    pub given: Set<Switch>,
    pub refused: Set<Switch>,
    /// What the two words of bits hold that is no switch's.
    pub stray: (u16, u16),
    pub output_sync: Option<OutputSync>,
    pub jobserver_style: Option<Seq<u8>>,
    pub assumed_new: Seq<Seq<u8>>,
    pub assumed_old: Seq<Seq<u8>>,
    pub bad: Option<Seq<u8>>,
    pub complaints: Seq<Seq<u8>>,
    pub around: Around,
}

/// An invocation nothing has been asked of yet.
pub open spec fn nothing_asked(around: Around) -> Settings {
    Settings {
        directories: Seq::empty(),
        include_dirs: Seq::empty(),
        makefiles: Seq::empty(),
        goals: Seq::empty(),
        variables: Seq::empty(),
        evals: Seq::empty(),
        debug: Seq::empty(),
        shuffle: Shuffle::Unshuffled,
        shuffle_spelling: None,
        jobs: None,
        inherited_jobs: None,
        load: None,
        given: Set::empty(),
        refused: Set::empty(),
        stray: (0, 0),
        output_sync: None,
        jobserver_style: None,
        assumed_new: Seq::empty(),
        assumed_old: Seq::empty(),
        bad: None,
        complaints: Seq::empty(),
        around,
    }
}

impl Settings {
    /// With a switch asked for. Asking for one clears the refusal of it, and
    /// taking away the built-in variables takes away the built-in rules.
    pub open spec fn with(self, switch: Switch) -> Settings {
        let first = Settings {
            given: self.given.insert(switch),
            refused: self.refused.remove(switch),
            ..self
        };
        if switch == Switch::NoBuiltinVariables {
            Settings {
                given: first.given.insert(Switch::NoBuiltinRules),
                refused: first.refused.remove(Switch::NoBuiltinRules),
                ..first
            }
        } else {
            first
        }
    }

    /// With a switch taken back.
    pub open spec fn without(self, switch: Switch) -> Settings {
        Settings {
            given: self.given.remove(switch),
            refused: self.refused.insert(switch),
            ..self
        }
    }

    /// The job count visible to this compilation unit.
    pub open spec fn job_limit(self) -> Option<JobLimit> {
        if self.jobs is Some {
            self.jobs
        } else {
            self.inherited_jobs
        }
    }

    /// With a job count from one stream.
    pub open spec fn with_jobs(self, source: ArgumentSource, jobs: JobLimit) -> Settings {
        if source == ArgumentSource::CommandLine {
            Settings { jobs: Some(jobs), ..self }
        } else {
            Settings { inherited_jobs: Some(jobs), ..self }
        }
    }

    /// With something wrong said where the run ends for it, unless something
    /// was said before.
    pub open spec fn with_bad(self, said: Seq<u8>) -> Settings {
        if self.bad is None {
            Settings { bad: Some(said), ..self }
        } else {
            self
        }
    }

    /// With a word that could not be read, which only a refusing stream
    /// mentions.
    pub open spec fn with_unreadable(self, source: ArgumentSource, said: Seq<u8>) -> Settings {
        if source.refuses() {
            self.with_bad(said)
        } else {
            self
        }
    }

    /// With a complaint, which a refusing stream ends the run for and any other
    /// carries out to whoever decoded it.
    pub open spec fn with_complaint(self, source: ArgumentSource, said: Seq<u8>) -> Settings {
        if source.refuses() {
            self.with_bad(said)
        } else {
            Settings { complaints: self.complaints.push(said), ..self }
        }
    }

    /// With the complaint an empty argument is answered with, where it is empty.
    pub open spec fn with_non_empty(
        self,
        source: ArgumentSource,
        option: Seq<u8>,
        named: Seq<u8>,
    ) -> Settings {
        if named.len() > 0 {
            self
        } else {
            self.with_complaint(
                source,
                text("the '") + option + text("' option requires a non-empty string argument"),
            )
        }
    }

    /// With a directory to look for other makefiles in, a dash among them
    /// standing for itself, and one already listed as written passed over.
    pub open spec fn with_include_dir(self, source: ArgumentSource, named: Seq<u8>) -> Settings {
        if named.len() == 0 {
            self.with_non_empty(source, text("-I"), named)
        } else if self.include_dirs.contains(named) {
            self
        } else if named == text("-") {
            Settings { include_dirs: self.include_dirs.push(named), ..self }
        } else {
            Settings {
                include_dirs: self.include_dirs.push(file_named(self.around, named)),
                ..self
            }
        }
    }

    /// With a makefile to read.
    pub open spec fn with_makefile(self, source: ArgumentSource, named: Seq<u8>) -> Settings {
        if named.len() == 0 {
            self.with_non_empty(source, text("-f"), named)
        } else {
            Settings { makefiles: self.makefiles.push(file_named(self.around, named)), ..self }
        }
    }

    /// With a directory to enter, one already listed as written passed over.
    pub open spec fn with_directory(self, source: ArgumentSource, named: Seq<u8>) -> Settings {
        if named.len() == 0 {
            self.with_non_empty(source, text("-C"), named)
        } else if self.directories.contains(named) {
            self
        } else {
            Settings { directories: self.directories.push(file_named(self.around, named)), ..self }
        }
    }

    /// With a statement to evaluate, one already listed passed over.
    pub open spec fn with_eval(self, source: ArgumentSource, named: Seq<u8>) -> Settings {
        if named.len() == 0 {
            self.with_non_empty(source, text("-E"), named)
        } else if self.evals.contains(named) {
            self
        } else {
            Settings { evals: self.evals.push(named), ..self }
        }
    }

    /// With a `--debug` argument, one already listed passed over.
    pub open spec fn with_debug(self, source: ArgumentSource, named: Seq<u8>) -> Settings {
        if named.len() == 0 {
            self.with_non_empty(source, text("--debug"), named)
        } else if self.debug.contains(named) {
            self
        } else {
            Settings { debug: self.debug.push(named), ..self }
        }
    }

    /// With a file to be taken for new.
    pub open spec fn with_assumed_new(self, source: ArgumentSource, named: Seq<u8>) -> Settings {
        if named.len() == 0 {
            self.with_non_empty(source, text("-W"), named)
        } else {
            Settings { assumed_new: self.assumed_new.push(canonical(named)), ..self }
        }
    }

    /// With what `-O` named, or why it is nothing `-O` can name.
    pub open spec fn with_output_sync(self, kind: Seq<u8>) -> Settings {
        match OutputSync::named(kind) {
            Some(sync) => Settings { output_sync: Some(sync), ..self },
            None => self.with_bad(
                text("invalid argument to -O: '") + lossy(kind) + text("'"),
            ),
        }
    }

    /// Which of Make's own workings this invocation asked to be told about.
    pub open spec fn debug_level(self) -> u16 {
        let all = if self.given.contains(Switch::Debug) {
            DB_ALL
        } else {
            0
        };
        let traced = if self.given.contains(Switch::Trace) {
            all | (DB_PRINT | DB_WHY)
        } else {
            all
        };
        debug_words(traced, self.debug)
    }
}

/// What is selected once every `--debug` argument has had its say.
pub open spec fn debug_words(level: u16, words: Seq<Seq<u8>>) -> u16
    decreases words.len(),
{
    if words.len() == 0 {
        level
    } else {
        let before = debug_words(level, words.drop_last());
        match facets(before, words.last(), 0) {
            Some(selected) => selected,
            None => before,
        }
    }
}

/// A name without the slashes it begins with.
pub open spec fn unslashed(name: Seq<u8>) -> Seq<u8>
    decreases name.len(),
{
    if name.len() > 0 && name[0] == 0x2f {
        unslashed(name.skip(1))
    } else {
        name
    }
}

proof fn unslashed_is_no_longer(name: Seq<u8>)
    ensures
        unslashed(name).len() <= name.len(),
    decreases name.len(),
{
    if name.len() > 0 && name[0] == 0x2f {
        unslashed_is_no_longer(name.skip(1));
    }
}

/// A name without the `./` it begins with, however often.
pub open spec fn undotted(name: Seq<u8>) -> Seq<u8>
    decreases name.len(),
    via undotted_ends
{
    if name.len() >= 2 && name[0] == 0x2e && name[1] == 0x2f {
        undotted(unslashed(name.skip(2)))
    } else {
        name
    }
}

#[via_fn]
proof fn undotted_ends(name: Seq<u8>) {
    unslashed_is_no_longer(name.skip(2));
}

/// The file a command line names: its tilde resolved, and without a needless
/// `./` in front of it.
pub open spec fn file_named(around: Around, named: Seq<u8>) -> Seq<u8> {
    let resolved = looked_up(around.tildes, named).unwrap_or(named);
    if undotted(resolved).len() == 0 {
        text("./")
    } else {
        undotted(resolved)
    }
}

/// The file a command line names.
pub fn command_line_file(around: &Surroundings, named: &[u8]) -> (name: Vec<u8>)
    ensures
        name@ == file_named(around.model(), named@),
{
    let resolved: Vec<u8> = match look_up(&around.tildes, named) {
        Some(found) => found,
        None => copied(named),
    };
    let ghost whole = resolved@;
    let mut start: usize = 0;
    assert(whole.skip(0) =~= whole);
    while resolved.len() - start >= 2 && resolved[start] == 0x2e && resolved[start + 1] == 0x2f
        invariant
            start <= resolved@.len(),
            resolved@ == whole,
            undotted(whole.skip(start as int)) == undotted(whole),
        decreases resolved@.len() - start,
    {
        let ghost here = whole.skip(start as int);
        start += 2;
        assert(here.skip(2) =~= whole.skip(start as int));
        let ghost began = start as int;
        while start < resolved.len() && resolved[start] == 0x2f
            invariant
                began <= start <= resolved@.len(),
                resolved@ == whole,
                unslashed(whole.skip(began)) == unslashed(whole.skip(start as int)),
            decreases resolved@.len() - start,
        {
            assert(whole.skip(start as int).skip(1) =~= whole.skip(start as int + 1));
            start += 1;
        }
    }
    let name: Vec<u8> = part(&resolved, start, resolved.len());
    assert(name@ =~= whole.skip(start as int));
    if name.len() == 0 {
        return literal("./");
    }
    name
}

/// Whether a list holds a name exactly as it was written.
pub fn already_listed(list: &[Vec<u8>], written: &[u8]) -> (answer: bool)
    ensures
        answer == texts(list@).contains(written@),
{
    holds(list, written)
}

/// Put one byte string at the end of a list.
pub fn push_text(list: &mut Vec<Vec<u8>>, value: Vec<u8>)
    ensures
        texts(final(list)@) == texts(old(list)@).push(value@),
{
    let ghost before = texts(list@);
    let ghost held = value@;
    list.push(value);
    assert(texts(list@) =~= before.push(held));
}

/// What is said of an option whose argument is missing: the letter of a short
/// one, and the whole spelling of a long one.
pub open spec fn missing(spelling: Seq<u8>) -> Seq<u8> {
    if spelling.len() > 0 && spelling[0] == 0x2d && !(spelling.len() > 1 && spelling[1] == 0x2d) {
        text("option requires an argument -- '") + spelling.skip(1) + text("'")
    } else {
        text("option '") + spelling + text("' requires an argument")
    }
}

/// What is said of an option whose argument is missing.
pub fn missing_argument(spelling: &[u8]) -> (complaint: Vec<u8>)
    ensures
        complaint@ == missing(spelling@),
{
    if spelling.len() > 0 && spelling[0] == 0x2d && !(spelling.len() > 1 && spelling[1] == 0x2d) {
        let letter: Vec<u8> = part(spelling, 1, spelling.len());
        assert(letter@ =~= spelling@.skip(1));
        let mut complaint: Vec<u8> = message("option requires an argument -- '", &letter);
        append(&mut complaint, "'".as_bytes());
        return complaint;
    }
    let mut complaint: Vec<u8> = message("option '", spelling);
    append(&mut complaint, "' requires an argument".as_bytes());
    complaint
}

impl Invocation {
    /// The invocation as its model.
    pub open spec fn model(&self) -> Settings {
        Settings {
            directories: texts(self.directories@),
            include_dirs: texts(self.include_dirs@),
            makefiles: texts(self.makefiles@),
            goals: texts(self.goals@),
            variables: texts(self.variables@),
            evals: texts(self.evals@),
            debug: texts(self.debug@),
            shuffle: self.shuffle,
            shuffle_spelling: maybe(self.shuffle_spelling),
            jobs: self.jobs,
            inherited_jobs: self.inherited_jobs,
            load: match self.load {
                Some(load) => Some((load.ceiling@, load.propagated)),
                None => None,
            },
            given: held_in(self.switches),
            refused: held_in(self.negated),
            stray: (stray(self.switches), stray(self.negated)),
            output_sync: self.output_sync,
            jobserver_style: maybe(self.jobserver_style),
            assumed_new: texts(self.assumed_new@),
            assumed_old: texts(self.assumed_old@),
            bad: maybe(self.bad),
            complaints: texts(self.complaints@),
            around: self.around.model(),
        }
    }

    /// An invocation nothing has been asked of yet.
    pub fn new(around: Surroundings) -> (invocation: Self)
        ensures
            invocation.model() == nothing_asked(around.model()),
    {
        let invocation = Invocation {
            directories: Vec::new(),
            include_dirs: Vec::new(),
            makefiles: Vec::new(),
            goals: Vec::new(),
            variables: Vec::new(),
            evals: Vec::new(),
            debug: Vec::new(),
            shuffle: Shuffle::Unshuffled,
            shuffle_spelling: None,
            jobs: None,
            inherited_jobs: None,
            load: None,
            switches: 0,
            negated: 0,
            output_sync: None,
            jobserver_style: None,
            assumed_new: Vec::new(),
            assumed_old: Vec::new(),
            bad: None,
            complaints: Vec::new(),
            around,
        };
        proof {
            no_bits_hold_nothing();
            assert(texts(invocation.goals@) =~= Seq::empty());
            assert(texts(invocation.directories@) =~= Seq::empty());
            assert(texts(invocation.include_dirs@) =~= Seq::empty());
            assert(texts(invocation.makefiles@) =~= Seq::empty());
            assert(texts(invocation.variables@) =~= Seq::empty());
            assert(texts(invocation.evals@) =~= Seq::empty());
            assert(texts(invocation.debug@) =~= Seq::empty());
            assert(texts(invocation.assumed_new@) =~= Seq::empty());
            assert(texts(invocation.assumed_old@) =~= Seq::empty());
            assert(texts(invocation.complaints@) =~= Seq::empty());
        }
        invocation
    }

    /// Ask for a switch. Each spelling clears the other, so the one written last
    /// wins.
    pub fn add(&mut self, switch: Switch)
        ensures
            final(self).model() == old(self).model().with(switch),
    {
        proof {
            set_bit_holds(self.switches, switch);
            clear_bit_lets_go(self.negated, switch);
            set_bit_holds(self.switches | switch.mask(), Switch::NoBuiltinRules);
            clear_bit_lets_go(self.negated & !switch.mask(), Switch::NoBuiltinRules);
        }
        self.switches = self.switches | switch.bit();
        self.negated = self.negated & !switch.bit();
        if matches!(switch, Switch::NoBuiltinVariables) {
            self.switches = self.switches | Switch::NoBuiltinRules.bit();
            self.negated = self.negated & !Switch::NoBuiltinRules.bit();
        }
    }

    /// Take a switch back.
    pub fn withdraw(&mut self, switch: Switch)
        ensures
            final(self).model() == old(self).model().without(switch),
    {
        proof {
            clear_bit_lets_go(self.switches, switch);
            set_bit_holds(self.negated, switch);
        }
        self.switches = self.switches & !switch.bit();
        self.negated = self.negated | switch.bit();
    }

    /// Whether a switch was given and not taken back since.
    pub fn given(&self, switch: Switch) -> (answer: bool)
        ensures
            answer == self.model().given.contains(switch),
    {
        self.switches & switch.bit() != 0
    }

    /// Whether a switch was taken back and not given since.
    pub fn refused(&self, switch: Switch) -> (answer: bool)
        ensures
            answer == self.model().refused.contains(switch),
    {
        self.negated & switch.bit() != 0
    }

    /// The job count visible to this compilation unit.
    pub fn effective_jobs(&self) -> (jobs: Option<JobLimit>)
        ensures
            jobs == self.model().job_limit(),
    {
        match self.jobs {
            Some(jobs) => Some(jobs),
            None => self.inherited_jobs,
        }
    }

    /// Record a job count from one stream.
    pub fn set_jobs(&mut self, source: ArgumentSource, jobs: JobLimit)
        ensures
            final(self).model() == old(self).model().with_jobs(source, jobs),
    {
        match source {
            ArgumentSource::CommandLine => {
                self.jobs = Some(jobs);
            },
            _ => {
                self.inherited_jobs = Some(jobs);
            },
        }
    }

    /// Which of Make's own workings this invocation asked to be told about:
    /// every facet for `-d`, the two it names for `--trace`, and the `--debug`
    /// words folded in over the top.
    pub fn debugging(&self) -> (level: u16)
        ensures
            level == self.model().debug_level(),
    {
        let mut level: u16 = if self.given(Switch::Debug) {
            DB_ALL
        } else {
            0
        };
        if self.given(Switch::Trace) {
            level = level | (DB_PRINT | DB_WHY);
        }
        let ghost started = level;
        let ghost words = self.model().debug;
        let mut at: usize = 0;
        assert(words.take(0) =~= Seq::empty());
        while at < self.debug.len()
            invariant
                at <= self.debug@.len(),
                words == texts(self.debug@),
                level == debug_words(started, words.take(at as int)),
            decreases self.debug@.len() - at,
        {
            let ghost next = words.take(at as int + 1);
            assert(next.drop_last() =~= words.take(at as int));
            assert(next.last() == self.debug@[at as int]@);
            level = match debug_facets(level, &self.debug[at]) {
                Some(selected) => selected,
                None => level,
            };
            at += 1;
        }
        assert(words.take(at as int) =~= words);
        level
    }

    /// Whether this invocation answers a question rather than carrying out a
    /// build.
    pub fn questioning(&self) -> (answer: bool)
        ensures
            answer == self.model().given.contains(Switch::Question),
    {
        self.given(Switch::Question)
    }

    /// Say something a run ends for, unless something was said before.
    pub fn undecodable(&mut self, said: Vec<u8>)
        ensures
            final(self).model() == old(self).model().with_bad(said@),
    {
        if self.bad.is_none() {
            self.bad = Some(said);
        }
    }

    /// Say of a word that it could not be read, where the stream refuses it.
    pub fn unreadable(&mut self, source: ArgumentSource, said: Vec<u8>)
        ensures
            final(self).model() == old(self).model().with_unreadable(source, said@),
    {
        if source.refuses_a_bad_switch() {
            self.undecodable(said);
        }
    }

    /// Complain about a word.
    pub fn complain(&mut self, source: ArgumentSource, said: Vec<u8>)
        ensures
            final(self).model() == old(self).model().with_complaint(source, said@),
    {
        if source.refuses_a_bad_switch() {
            self.undecodable(said);
        } else {
            push_text(&mut self.complaints, said);
        }
    }

    /// Whether an option's argument holds anything, complaining where it does
    /// not.
    pub fn non_empty(&mut self, source: ArgumentSource, option: &[u8], named: &[u8]) -> (answer:
        bool)
        ensures
            answer == (named@.len() > 0),
            final(self).model() == old(self).model().with_non_empty(source, option@, named@),
    {
        if named.len() > 0 {
            return true;
        }
        let mut said: Vec<u8> = message("the '", option);
        append(&mut said, "' option requires a non-empty string argument".as_bytes());
        self.complain(source, said);
        false
    }

    /// Take a directory to look for other makefiles in.
    pub fn include_dir(&mut self, source: ArgumentSource, named: &[u8])
        ensures
            final(self).model() == old(self).model().with_include_dir(source, named@),
    {
        if !self.non_empty(source, "-I".as_bytes(), named) {
            return;
        }
        if already_listed(&self.include_dirs, named) {
            return;
        }
        if same(named, "-".as_bytes()) {
            push_text(&mut self.include_dirs, copied(named));
            return;
        }
        let name: Vec<u8> = command_line_file(&self.around, named);
        push_text(&mut self.include_dirs, name);
    }

    /// Take a makefile to read.
    pub fn makefile(&mut self, source: ArgumentSource, named: &[u8])
        ensures
            final(self).model() == old(self).model().with_makefile(source, named@),
    {
        if !self.non_empty(source, "-f".as_bytes(), named) {
            return;
        }
        let name: Vec<u8> = command_line_file(&self.around, named);
        push_text(&mut self.makefiles, name);
    }

    /// Take a directory to enter.
    pub fn directory(&mut self, source: ArgumentSource, named: &[u8])
        ensures
            final(self).model() == old(self).model().with_directory(source, named@),
    {
        if !self.non_empty(source, "-C".as_bytes(), named) {
            return;
        }
        if already_listed(&self.directories, named) {
            return;
        }
        let name: Vec<u8> = command_line_file(&self.around, named);
        push_text(&mut self.directories, name);
    }

    /// Take a statement to evaluate.
    pub fn eval_statement(&mut self, source: ArgumentSource, named: &[u8])
        ensures
            final(self).model() == old(self).model().with_eval(source, named@),
    {
        if !self.non_empty(source, "-E".as_bytes(), named) {
            return;
        }
        if !holds(&self.evals, named) {
            push_text(&mut self.evals, copied(named));
        }
    }

    /// Take a `--debug` argument.
    pub fn debug_spec(&mut self, source: ArgumentSource, named: &[u8])
        ensures
            final(self).model() == old(self).model().with_debug(source, named@),
    {
        if !self.non_empty(source, "--debug".as_bytes(), named) {
            return;
        }
        if !holds(&self.debug, named) {
            push_text(&mut self.debug, copied(named));
        }
    }

    /// Take a file to be taken for new.
    pub fn take_for_new(&mut self, source: ArgumentSource, named: &[u8])
        ensures
            final(self).model() == old(self).model().with_assumed_new(source, named@),
    {
        if !self.non_empty(source, "-W".as_bytes(), named) {
            return;
        }
        push_text(&mut self.assumed_new, canonpath(named));
    }

    /// Read an argument nothing is done with, complaining where it is empty.
    pub fn discarded_argument(&mut self, source: ArgumentSource, option: &[u8], named: &[u8])
        ensures
            final(self).model() == old(self).model().with_non_empty(source, option@, named@),
    {
        let _ = self.non_empty(source, option, named);
    }
}

/// Record `-O`'s type, or say why it is not one.
///
/// A type Make does not have ends the run whichever stream wrote it.
pub fn read_output_sync(invocation: &mut Invocation, kind: &[u8])
    ensures
        final(invocation).model() == old(invocation).model().with_output_sync(kind@),
{
    if let Some(sync) = OutputSync::parse(kind) {
        invocation.output_sync = Some(sync);
        return;
    }
    let mut said: Vec<u8> = message("invalid argument to -O: '", &to_str_lossy(kind));
    append(&mut said, "'".as_bytes());
    invocation.undecodable(said);
}

/// The whole of a switch word that is given last decides: asking for a switch
/// leaves it given and not refused, whatever came before.
pub proof fn asking_last_wins(settings: Settings, switch: Switch)
    ensures
        settings.with(switch).given.contains(switch),
        !settings.with(switch).refused.contains(switch),
        settings.without(switch).with(switch).given.contains(switch),
        !settings.without(switch).with(switch).refused.contains(switch),
{
}

/// Taking a switch back leaves it refused and not given, whatever came before.
pub proof fn taking_back_last_wins(settings: Settings, switch: Switch)
    ensures
        !settings.without(switch).given.contains(switch),
        settings.without(switch).refused.contains(switch),
        !settings.with(switch).without(switch).given.contains(switch),
        settings.with(switch).without(switch).refused.contains(switch),
{
}

/// No switch is both given and refused, whichever is asked for or taken back.
pub proof fn a_switch_is_never_both(settings: Settings, switch: Switch)
    requires
        settings.given.disjoint(settings.refused),
    ensures
        settings.with(switch).given.disjoint(settings.with(switch).refused),
        settings.without(switch).given.disjoint(settings.without(switch).refused),
{
}

} // verus!
