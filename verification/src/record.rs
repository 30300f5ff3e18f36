//! What a composition asked the ground, merged across the passes that asked.
//!
//! Keyed by the question and the text asked, and kept per unit: a unit is read
//! with the process in its own directory, so one text asked in two units is
//! two questions. A key answered two different ways by the passes that read
//! one unit is a key the record cannot speak for, and the first such key is
//! kept as the record's divergence.

use crate::artifact::{GroundAnswer, GroundQuestion};
use crate::bytes::{copied, copied_maybe, maybe, same};
use crate::table::{mapped_update, mapped_value, Key, Table};
use vstd::prelude::*;

verus! {

/// One question the composition asked, and the one answer it was given.
#[derive(Debug)]
pub struct RecordedAnswer {
    /// The bytes the call put into the expansion that asked for it.
    pub answer: Vec<u8>,
    /// `.SHELLSTATUS`, for the one question that leaves one.
    pub status: Option<i32>,
}

/// What was asked, and of what.
#[derive(Debug)]
pub struct RecordedQuestion {
    pub question: GroundQuestion,
    pub asked: Vec<u8>,
}

impl Key for RecordedQuestion {
    type K = (GroundQuestion, Seq<u8>);

    open spec fn name(&self) -> (GroundQuestion, Seq<u8>) {
        (self.question, self.asked@)
    }

    fn is(&self, other: &Self) -> (answer: bool) {
        self.question == other.question && same(&self.asked, &other.asked)
    }
}

/// What a unit's passes disagreed about.
#[derive(Clone, Copy, PartialEq, Eq, Structural, Debug)]
pub enum Divergent {
    Question(GroundQuestion),
    /// An environment variable the read looked up.
    Environment,
}

/// One thing a unit's passes answered two ways.
#[derive(Debug)]
pub struct Divergence {
    pub about: Divergent,
    pub asked: Vec<u8>,
    pub first: Vec<u8>,
    pub later: Vec<u8>,
}

/// A divergence, as its model.
pub ghost struct Diverged {
    pub about: Divergent,
    pub asked: Seq<u8>,
    pub first: Seq<u8>,
    pub later: Seq<u8>,
}

/// What one unit's read depended on outside its own text, as its model.
pub ghost struct UnitGround {
    pub directory: Seq<u8>,
    pub answers: Map<(GroundQuestion, Seq<u8>), (Seq<u8>, Option<i32>)>,
    pub environment: Map<Seq<u8>, Option<Seq<u8>>>,
}

impl Divergence {
    /// The divergence as its model.
    pub open spec fn model(&self) -> Diverged {
        Diverged {
            about: self.about,
            asked: self.asked@,
            first: self.first@,
            later: self.later@,
        }
    }
}

/// A divergence that may not have come up, as its model.
pub open spec fn diverged_model(held: Option<Divergence>) -> Option<Diverged> {
    match held {
        Some(divergence) => Some(divergence.model()),
        None => None,
    }
}

/// What one unit's read depended on outside its own text.
#[derive(Debug)]
pub struct UnitRecord {
    /// Where the process stood while this unit was read, and so where its
    /// questions have to be asked again to be asked at all.
    pub directory: Vec<u8>,
    pub answers: Table<RecordedQuestion, RecordedAnswer>,
    /// Every environment variable the read depended on, with what it read.
    pub environment: Table<Vec<u8>, Option<Vec<u8>>>,
}

/// What one answer adds to a unit: nothing where it was given before, a
/// divergence where another one was.
pub open spec fn recorded(unit: UnitGround, given: GroundAnswer) -> (UnitGround, Option<Diverged>) {
    let key = (given.question, given.asked@);
    let value = (given.answer@, given.status);
    if !unit.answers.dom().contains(key) {
        (UnitGround { answers: unit.answers.insert(key, value), ..unit }, None)
    } else if unit.answers[key] == value {
        (unit, None)
    } else {
        (
            unit,
            Some(
                Diverged {
                    about: Divergent::Question(given.question),
                    asked: given.asked@,
                    first: unit.answers[key].0,
                    later: given.answer@,
                },
            ),
        )
    }
}

/// What one variable read adds to a unit, an unset one reading as nothing.
pub open spec fn noted(unit: UnitGround, name: Seq<u8>, value: Option<Seq<u8>>) -> (
    UnitGround,
    Option<Diverged>,
) {
    if !unit.environment.dom().contains(name) {
        (UnitGround { environment: unit.environment.insert(name, value), ..unit }, None)
    } else if unit.environment[name] == value {
        (unit, None)
    } else {
        (
            unit,
            Some(
                Diverged {
                    about: Divergent::Environment,
                    asked: name,
                    first: unit.environment[name].unwrap_or(Seq::empty()),
                    later: value.unwrap_or(Seq::empty()),
                },
            ),
        )
    }
}

/// The earlier of two divergences.
pub open spec fn earlier(held: Option<Diverged>, next: Option<Diverged>) -> Option<Diverged> {
    if held is Some {
        held
    } else {
        next
    }
}

/// What a list of answers adds to a unit, in the order they were given.
pub open spec fn all_recorded(
    state: (UnitGround, Option<Diverged>),
    given: Seq<GroundAnswer>,
) -> (UnitGround, Option<Diverged>)
    decreases given.len(),
{
    if given.len() == 0 {
        state
    } else {
        let before = all_recorded(state, given.drop_last());
        let step = recorded(before.0, given.last());
        (step.0, earlier(before.1, step.1))
    }
}

/// What a list of variables read adds to a unit, in the order they were read.
pub open spec fn all_noted(
    state: (UnitGround, Option<Diverged>),
    read: Seq<(Vec<u8>, Option<Vec<u8>>)>,
) -> (UnitGround, Option<Diverged>)
    decreases read.len(),
{
    if read.len() == 0 {
        state
    } else {
        let before = all_noted(state, read.drop_last());
        let step = noted(before.0, read.last().0@, maybe(read.last().1));
        (step.0, earlier(before.1, step.1))
    }
}

/// A unit nothing has been asked of yet.
pub open spec fn unasked(directory: Seq<u8>) -> UnitGround {
    UnitGround { directory, answers: Map::empty(), environment: Map::empty() }
}

impl UnitRecord {
    /// The record as its model.
    pub open spec fn model(&self) -> UnitGround {
        UnitGround {
            directory: self.directory@,
            answers: self.answers@.map_values(
                |held: RecordedAnswer| (held.answer@, held.status),
            ),
            environment: self.environment@.map_values(|held: Option<Vec<u8>>| maybe(held)),
        }
    }

    /// Every question and every variable is there once.
    pub open spec fn wf(&self) -> bool {
        self.answers.wf() && self.environment.wf()
    }

    /// A record of a unit read in `directory`, with nothing asked yet.
    pub fn new(directory: &[u8]) -> (unit: Self)
        ensures
            unit.wf(),
            unit.model() == unasked(directory@),
    {
        let unit = UnitRecord {
            directory: copied(directory),
            answers: Table::new(),
            environment: Table::new(),
        };
        assert(unit.model().answers =~= Map::empty());
        assert(unit.model().environment =~= Map::empty());
        unit
    }

    /// Where this unit's questions were asked.
    pub fn directory(&self) -> (directory: &[u8])
        ensures
            directory@ == self.model().directory,
    {
        &self.directory
    }

    /// How many distinct questions this unit asked.
    pub fn len(&self) -> (count: usize)
        ensures
            count == self.answers.entries@.len(),
    {
        self.answers.entries.len()
    }

    /// Every question this unit asked, with the answer it got.
    pub fn answers(&self) -> (entries: &Vec<(RecordedQuestion, RecordedAnswer)>)
        ensures
            entries@ == self.answers.entries@,
    {
        &self.answers.entries
    }

    /// Every environment variable this unit read, with the value it read.
    pub fn environment(&self) -> (entries: &Vec<(Vec<u8>, Option<Vec<u8>>)>)
        ensures
            entries@ == self.environment.entries@,
    {
        &self.environment.entries
    }

    /// Take one answer in, and say what it disagrees with.
    pub fn record(&mut self, given: &GroundAnswer) -> (diverged: Option<Divergence>)
        requires
            old(self).wf(),
        ensures
            final(self).wf(),
            (final(self).model(), diverged_model(diverged)) == recorded(
                old(self).model(),
                *given,
            ),
    {
        let key = RecordedQuestion { question: given.question, asked: copied(&given.asked) };
        let value = RecordedAnswer { answer: copied(&given.answer), status: given.status };
        let ghost before = self.model();
        match self.answers.place(&key) {
            Some(at) => {
                let existing = &self.answers.entries[at].1;
                if same(&existing.answer, &value.answer) && existing.status == value.status {
                    None
                } else {
                    Some(
                        Divergence {
                            about: Divergent::Question(given.question),
                            asked: key.asked,
                            first: copied(&existing.answer),
                            later: value.answer,
                        },
                    )
                }
            },
            None => {
                let ghost name = key.name();
                self.answers.add_new(key, value);
                assert(self.model().answers =~= before.answers.insert(
                    name,
                    (given.answer@, given.status),
                ));
                None
            },
        }
    }

    /// Take one variable read in, and say what it disagrees with.
    pub fn note(&mut self, name: &[u8], value: &Option<Vec<u8>>) -> (diverged: Option<Divergence>)
        requires
            old(self).wf(),
        ensures
            final(self).wf(),
            (final(self).model(), diverged_model(diverged)) == noted(
                old(self).model(),
                name@,
                maybe(*value),
            ),
    {
        let key: Vec<u8> = copied(name);
        let ghost before = self.model();
        match self.environment.place(&key) {
            Some(at) => {
                let existing = &self.environment.entries[at].1;
                let alike: bool = match (existing, value) {
                    (Some(held), Some(read)) => same(held, read),
                    (None, None) => true,
                    _ => false,
                };
                if alike {
                    None
                } else {
                    Some(
                        Divergence {
                            about: Divergent::Environment,
                            asked: key,
                            first: or_nothing(existing),
                            later: or_nothing(value),
                        },
                    )
                }
            },
            None => {
                self.environment.add_new(key, copied_maybe(value));
                assert(self.model().environment =~= before.environment.insert(
                    name@,
                    maybe(*value),
                ));
                None
            },
        }
    }
}

/// What an optional value holds, nothing standing for an absent one.
fn or_nothing(value: &Option<Vec<u8>>) -> (held: Vec<u8>)
    ensures
        held@ == maybe(*value).unwrap_or(Seq::empty()),
{
    match value {
        Some(bytes) => copied(bytes),
        None => {
            let none: Vec<u8> = Vec::new();
            assert(none@ =~= Seq::empty());
            none
        },
    }
}

/// Every question a whole composition asked, filed under the unit that asked.
#[derive(Debug)]
pub struct CompositionRecord {
    pub units: Table<Vec<u8>, UnitRecord>,
    /// The first key a unit answered two ways. Held rather than counted: one
    /// is enough to refuse the record, and it is what a diagnostic names.
    pub diverged: Option<Divergence>,
}

impl CompositionRecord {
    /// What each unit depended on.
    pub open spec fn grounds(&self) -> Map<Seq<u8>, UnitGround> {
        self.units@.map_values(|unit: UnitRecord| unit.model())
    }

    /// Every unit is there once, and each of their records is sound.
    pub open spec fn wf(&self) -> bool {
        &&& self.units.wf()
        &&& forall|i: int|
            0 <= i < self.units.entries@.len() ==> (#[trigger] self.units.entries@[i]).1.wf()
    }

    /// A record of a composition that has read nothing yet.
    pub fn new() -> (record: Self)
        ensures
            record.wf(),
            record.grounds() == Map::<Seq<u8>, UnitGround>::empty(),
            record.diverged is None,
    {
        let record = CompositionRecord { units: Table::new(), diverged: None };
        assert(record.grounds() =~= Map::empty());
        record
    }

    /// Merge one read of one unit into the record.
    ///
    /// The answers of the read and the ones asked off its journal are taken in
    /// that order, and then the variables it read. Only this unit's record
    /// changes, and a divergence already held is kept.
    pub fn absorb(
        &mut self,
        unit: &[u8],
        directory: &[u8],
        journalled: &[GroundAnswer],
        off_journal: &[GroundAnswer],
        environment: &[(Vec<u8>, Option<Vec<u8>>)],
    )
        requires
            old(self).wf(),
        ensures
            final(self).wf(),
            ({
                let start = if old(self).grounds().dom().contains(unit@) {
                    old(self).grounds()[unit@]
                } else {
                    unasked(directory@)
                };
                let merged = all_noted(
                    all_recorded(
                        all_recorded((start, diverged_model(old(self).diverged)), journalled@),
                        off_journal@,
                    ),
                    environment@,
                );
                &&& final(self).grounds() == old(self).grounds().insert(unit@, merged.0)
                &&& diverged_model(final(self).diverged) == merged.1
            }),
    {
        let ghost began = self.grounds();
        let ghost held = diverged_model(self.diverged);
        let key: Vec<u8> = copied(unit);
        let at: usize = match self.units.place(&key) {
            Some(at) => at,
            None => {
                let at: usize = self.units.entries.len();
                let ghost before = self.units.entries@;
                self.units.add_new(key, UnitRecord::new(directory));
                assert(self.grounds() =~= began.insert(unit@, unasked(directory@)));
                proof {
                    mapped_value(self.units.entries@, at as int);
                }
                at
            },
        };
        let ghost entries = self.units.entries@;
        let ghost start = if began.dom().contains(unit@) {
            began[unit@]
        } else {
            unasked(directory@)
        };
        assert(entries[at as int].1.model() == start);
        assert(self.grounds() =~= began.insert(unit@, start));
        let mut entry = self.units.entries.remove(at);
        let mut given: usize = 0;
        while given < journalled.len()
            invariant
                given <= journalled@.len(),
                entry.1.wf(),
                entry.0@ == unit@,
                (entry.1.model(), diverged_model(self.diverged)) == all_recorded(
                    (start, held),
                    journalled@.take(given as int),
                ),
                self.units.entries@ == entries.remove(at as int),
                entry.0 == entries[at as int].0,
            decreases journalled@.len() - given,
        {
            let diverged = entry.1.record(&journalled[given]);
            proof {
                let next = journalled@.take(given as int + 1);
                assert(next.drop_last() =~= journalled@.take(given as int));
            }
            if self.diverged.is_none() {
                self.diverged = diverged;
            }
            given += 1;
        }
        assert(journalled@.take(given as int) =~= journalled@);
        let ghost middle = all_recorded((start, held), journalled@);
        let mut given: usize = 0;
        assert(off_journal@.take(0) =~= Seq::empty());
        while given < off_journal.len()
            invariant
                given <= off_journal@.len(),
                entry.1.wf(),
                entry.0@ == unit@,
                (entry.1.model(), diverged_model(self.diverged)) == all_recorded(
                    middle,
                    off_journal@.take(given as int),
                ),
                self.units.entries@ == entries.remove(at as int),
                entry.0 == entries[at as int].0,
            decreases off_journal@.len() - given,
        {
            let diverged = entry.1.record(&off_journal[given]);
            proof {
                let next = off_journal@.take(given as int + 1);
                assert(next.drop_last() =~= off_journal@.take(given as int));
            }
            if self.diverged.is_none() {
                self.diverged = diverged;
            }
            given += 1;
        }
        assert(off_journal@.take(given as int) =~= off_journal@);
        let ghost middle = all_recorded(middle, off_journal@);
        let mut read: usize = 0;
        assert(environment@.take(0) =~= Seq::empty());
        while read < environment.len()
            invariant
                read <= environment@.len(),
                entry.1.wf(),
                entry.0@ == unit@,
                (entry.1.model(), diverged_model(self.diverged)) == all_noted(
                    middle,
                    environment@.take(read as int),
                ),
                self.units.entries@ == entries.remove(at as int),
                entry.0 == entries[at as int].0,
            decreases environment@.len() - read,
        {
            let diverged = entry.1.note(&environment[read].0, &environment[read].1);
            proof {
                let next = environment@.take(read as int + 1);
                assert(next.drop_last() =~= environment@.take(read as int));
            }
            if self.diverged.is_none() {
                self.diverged = diverged;
            }
            read += 1;
        }
        assert(environment@.take(read as int) =~= environment@);
        let ghost settled = entry.1;
        let ghost merged = entry.1.model();
        self.units.entries.insert(at, entry);
        proof {
            mapped_update(entries, at as int, settled);
            assert(self.units.entries@ =~= entries.update(
                at as int,
                (entries[at as int].0, settled),
            ));
            assert(self.grounds() =~= began.insert(unit@, merged));
        }
    }

    /// The key a unit answered two ways, if any did.
    ///
    /// A record with one of these describes no single ground, so it is not
    /// written.
    pub fn divergence(&self) -> (held: Option<&Divergence>)
        ensures
            match held {
                Some(divergence) => self.diverged == Some(*divergence),
                None => self.diverged is None,
            },
    {
        match &self.diverged {
            Some(divergence) => Some(divergence),
            None => None,
        }
    }

    /// How many units the composition read.
    pub fn units(&self) -> (count: usize)
        ensures
            count == self.units.entries@.len(),
    {
        self.units.entries.len()
    }

    /// Every unit's record, keyed by the unit's compilation key.
    pub fn entries(&self) -> (entries: &Vec<(Vec<u8>, UnitRecord)>)
        ensures
            entries@ == self.units.entries@,
    {
        &self.units.entries
    }
}

/// An answer a unit was given before is an answer that adds nothing.
pub proof fn asking_alike_again_adds_nothing(unit: UnitGround, given: GroundAnswer)
    requires
        recorded(unit, given).1 is None,
    ensures
        recorded(recorded(unit, given).0, given) == (
            recorded(unit, given).0,
            None::<Diverged>,
        ),
{
}

/// However much more is asked, the first divergence is the one kept.
pub proof fn the_first_divergence_is_kept(
    state: (UnitGround, Option<Diverged>),
    given: Seq<GroundAnswer>,
    read: Seq<(Vec<u8>, Option<Vec<u8>>)>,
)
    requires
        state.1 is Some,
    ensures
        all_recorded(state, given).1 == state.1,
        all_noted(all_recorded(state, given), read).1 == state.1,
    decreases given.len(), read.len(),
{
    if given.len() > 0 {
        the_first_divergence_is_kept(state, given.drop_last(), read);
        if read.len() > 0 {
            the_first_divergence_is_kept(state, given, read.drop_last());
        }
    } else if read.len() > 0 {
        the_first_divergence_is_kept(state, given, read.drop_last());
    }
}

/// Two answers to one question of one unit are a divergence that names the
/// question and both answers, the one that came first held first.
pub proof fn two_answers_diverge(unit: UnitGround, first: GroundAnswer, later: GroundAnswer)
    requires
        !unit.answers.dom().contains((first.question, first.asked@)),
        later.question == first.question,
        later.asked@ == first.asked@,
        later.answer@ != first.answer@ || later.status != first.status,
    ensures
        all_recorded((unit, None), seq![first, later]).1 == Some(
            Diverged {
                about: Divergent::Question(first.question),
                asked: first.asked@,
                first: first.answer@,
                later: later.answer@,
            },
        ),
{
    let both = seq![first, later];
    assert(both.drop_last() =~= seq![first]);
    assert(seq![first].drop_last() =~= Seq::<GroundAnswer>::empty());
    reveal_with_fuel(all_recorded, 3);
}

/// What a unit was answered first is what its record keeps, whatever it was
/// answered later; every question it asked is in its record; and a divergence is
/// told where, and only where, an answer differs from the one that is kept.
pub proof fn a_record_keeps_first_answers(
    start: UnitGround,
    held: Option<Diverged>,
    given: Seq<GroundAnswer>,
)
    ensures
        ({
            let (after, told) = all_recorded((start, held), given);
            &&& after.directory == start.directory
            &&& after.environment == start.environment
            &&& forall|key: (GroundQuestion, Seq<u8>)| #[trigger]
                start.answers.dom().contains(key) ==> after.answers.dom().contains(key)
                    && after.answers[key] == start.answers[key]
            &&& forall|i: int|
                0 <= i < given.len() ==> after.answers.dom().contains(
                    ((#[trigger] given[i]).question, given[i].asked@),
                )
            &&& held is Some ==> told == held
            &&& held is None ==> (told is None <==> forall|i: int|
                0 <= i < given.len() ==> after.answers[((#[trigger] given[i]).question, given[i].asked@)]
                    == (given[i].answer@, given[i].status))
        }),
    decreases given.len(),
{
    if given.len() > 0 {
        let fewer = given.drop_last();
        let last = given.last();
        a_record_keeps_first_answers(start, held, fewer);
        let (before, said) = all_recorded((start, held), fewer);
        let (after, told) = all_recorded((start, held), given);
        let key = (last.question, last.asked@);
        assert(recorded(before, last).0 == after);
        assert forall|i: int| 0 <= i < given.len() implies after.answers.dom().contains(
            ((#[trigger] given[i]).question, given[i].asked@),
        ) by {
            if i < fewer.len() {
                assert(fewer[i] == given[i]);
                assert(before.answers.dom().contains((fewer[i].question, fewer[i].asked@)));
            }
        }
        if held is None {
            let agreed = forall|i: int|
                0 <= i < given.len() ==> after.answers[((#[trigger] given[i]).question, given[i].asked@)]
                    == (given[i].answer@, given[i].status);
            if told is None {
                assert forall|i: int| 0 <= i < given.len() implies after.answers[(
                    (#[trigger] given[i]).question,
                    given[i].asked@,
                )] == (given[i].answer@, given[i].status) by {
                    if i < fewer.len() {
                        assert(fewer[i] == given[i]);
                        assert(before.answers.dom().contains((fewer[i].question, fewer[i].asked@)));
                    }
                }
            }
            if agreed {
                assert forall|i: int| 0 <= i < fewer.len() implies before.answers[(
                    (#[trigger] fewer[i]).question,
                    fewer[i].asked@,
                )] == (fewer[i].answer@, fewer[i].status) by {
                    assert(fewer[i] == given[i]);
                    assert(before.answers.dom().contains((fewer[i].question, fewer[i].asked@)));
                }
                assert(given[given.len() - 1] == last);
                assert(after.answers[key] == (last.answer@, last.status));
            }
        }
    }
}

/// What a unit read of a variable first is what its record keeps, and reading
/// variables changes no answer; a divergence is told where, and only where, one
/// reads otherwise than what is kept.
pub proof fn a_record_keeps_first_readings(
    start: UnitGround,
    held: Option<Diverged>,
    read: Seq<(Vec<u8>, Option<Vec<u8>>)>,
)
    ensures
        ({
            let (after, told) = all_noted((start, held), read);
            &&& after.directory == start.directory
            &&& after.answers == start.answers
            &&& forall|name: Seq<u8>| #[trigger]
                start.environment.dom().contains(name) ==> after.environment.dom().contains(name)
                    && after.environment[name] == start.environment[name]
            &&& forall|i: int|
                0 <= i < read.len() ==> after.environment.dom().contains((#[trigger] read[i]).0@)
            &&& held is Some ==> told == held
            &&& held is None ==> (told is None <==> forall|i: int|
                0 <= i < read.len() ==> after.environment[(#[trigger] read[i]).0@] == maybe(
                    read[i].1,
                ))
        }),
    decreases read.len(),
{
    if read.len() > 0 {
        let fewer = read.drop_last();
        let last = read.last();
        a_record_keeps_first_readings(start, held, fewer);
        let (before, said) = all_noted((start, held), fewer);
        let (after, told) = all_noted((start, held), read);
        assert forall|i: int| 0 <= i < read.len() implies after.environment.dom().contains(
            (#[trigger] read[i]).0@,
        ) by {
            if i < fewer.len() {
                assert(fewer[i] == read[i]);
                assert(before.environment.dom().contains(fewer[i].0@));
            }
        }
        if held is None {
            let agreed = forall|i: int|
                0 <= i < read.len() ==> after.environment[(#[trigger] read[i]).0@] == maybe(
                    read[i].1,
                );
            if told is None {
                assert forall|i: int| 0 <= i < read.len() implies after.environment[(
                #[trigger] read[i]).0@] == maybe(read[i].1) by {
                    if i < fewer.len() {
                        assert(fewer[i] == read[i]);
                        assert(before.environment.dom().contains(fewer[i].0@));
                    }
                }
            }
            if agreed {
                assert forall|i: int| 0 <= i < fewer.len() implies before.environment[(
                #[trigger] fewer[i]).0@] == maybe(fewer[i].1) by {
                    assert(fewer[i] == read[i]);
                    assert(before.environment.dom().contains(fewer[i].0@));
                }
                assert(read[read.len() - 1] == last);
                assert(after.environment[last.0@] == maybe(last.1));
            }
        }
    }
}

} // verus!
