//! Which recursive children may be read before the composition reaches them.
//!
//! A read may start early only where the composition is certain to reach it,
//! because reading a Makefile runs its commands. Composition itself is not
//! moved: one graph is built in the order it was always built in.

use crate::bytes::{copied, holds, literal, maybe, text, texts};
use crate::error::{Failure, MakeError};
use crate::options::Shuffle;
use crate::shell::{runs_a_command_to_resolve, runs_to_resolve};
use crate::sink::{pendings, Pending, PendingSubninja};
use crate::table::Table;
use vstd::prelude::*;
use vstd::string::*;

verus! {

/// How many workers read at once.
pub open spec fn workers_of(threads: usize, cores: usize, own_directories: bool) -> Option<usize> {
    let fewest = if threads <= cores {
        threads
    } else {
        cores
    };
    if fewest < 2 || !own_directories {
        None
    } else {
        Some(fewest)
    }
}

/// How many workers read at once: no more than the machine has cores for, and
/// none at all rather than one, where a worker cannot stand in a directory of
/// its own or there is nothing to overlap.
pub fn pool_size(threads: usize, cores: usize, own_directories: bool) -> (workers: Option<usize>)
    ensures
        workers == workers_of(threads, cores, own_directories),
{
    let fewest: usize = if threads <= cores {
        threads
    } else {
        cores
    };
    if fewest < 2 || !own_directories {
        return None;
    }
    Some(fewest)
}

/// What a unit's reads are surrounded by.
#[derive(Clone, Copy, PartialEq, Eq, Structural, Debug)]
pub struct Reporting {
    /// Whether a report was asked for rather than a build.
    pub reporting: bool,
    /// Whether a census of recursive invocations is being kept.
    pub recording: bool,
    /// Whether what the reads raise is held, so that it can be put back in the
    /// order the recipes were written in.
    pub collecting: bool,
}

/// Whether a recipe can neither stop the composition short nor be skipped: its
/// target is out of date whatever the disk says, it is one invocation with
/// nothing ahead of it and nothing it waits for, and resolving that runs
/// nothing.
pub open spec fn certain(pending: Pending) -> bool {
    &&& pending.always_dirty
    &&& pending.invocations.len() == 1
    &&& pending.invocations[0].preceding_rule is None
    &&& pending.evaluation_inputs().len() == 0
    &&& !runs_to_resolve(pending.invocations[0].command@)
}

/// Whether every recursive recipe of one unit is one a read may start early
/// for.
pub open spec fn may_start_early(ordered: Seq<Pending>, around: Reporting) -> bool {
    &&& !around.reporting
    &&& !around.recording
    &&& around.collecting
    &&& forall|i: int| 0 <= i < ordered.len() ==> certain(#[trigger] ordered[i])
}

/// Whether every recursive recipe of one unit is one a read may start early
/// for.
///
/// The whole unit has to qualify: a recipe that could stop the composition
/// would leave every recipe after it unreached.
pub fn reads_may_start_early(ordered: &[PendingSubninja], around: Reporting) -> (answer: bool)
    ensures
        answer == may_start_early(pendings(ordered@), around),
{
    if around.reporting || around.recording || !around.collecting {
        return false;
    }
    let ghost all = pendings(ordered@);
    let mut at: usize = 0;
    while at < ordered.len()
        invariant
            at <= ordered@.len(),
            all == pendings(ordered@),
            forall|i: int| 0 <= i < at ==> certain(#[trigger] all[i]),
        decreases ordered@.len() - at,
    {
        let pending: &PendingSubninja = &ordered[at];
        assert(all[at as int] == pending.model());
        let waits: usize = pending.evaluation_inputs().len();
        if !pending.always_dirty || pending.invocations.len() != 1 || waits > 0 {
            assert(!certain(all[at as int]));
            return false;
        }
        if pending.invocations[0].preceding_rule.is_some() || runs_a_command_to_resolve(
            &pending.invocations[0].command,
        ) {
            assert(!certain(all[at as int]));
            return false;
        }
        at += 1;
    }
    true
}

/// Whether reads of one unit are started ahead of the composition: there are
/// threads to read on, more than one recipe to overlap, and every recipe is
/// certain to be reached.
pub fn reads_ahead(ordered: &[PendingSubninja], read_threads: usize, around: Reporting) -> (answer:
    bool)
    ensures
        answer == (read_threads >= 2 && ordered@.len() >= 2 && may_start_early(
            pendings(ordered@),
            around,
        )),
{
    if read_threads < 2 || ordered.len() < 2 {
        return false;
    }
    reads_may_start_early(ordered, around)
}

/// The compilations whose reads have been started.
#[derive(Debug)]
pub struct Claims {
    pub claimed: Vec<Vec<u8>>,
}

impl Claims {
    /// None started.
    pub fn new() -> (claims: Self)
        ensures
            texts(claims.claimed@) == Seq::<Seq<u8>>::empty(),
    {
        let claims = Claims { claimed: Vec::new() };
        assert(texts(claims.claimed@) =~= Seq::empty());
        claims
    }

    /// Whether the read of a compilation is to be started now: it is not
    /// compiled already, and no recipe before this one started it. A unit two
    /// recipes invoke is read once.
    pub fn claim(&mut self, key: &[u8], compiled: bool) -> (start: bool)
        ensures
            start == (!compiled && !texts(old(self).claimed@).contains(key@)),
            texts(final(self).claimed@) == (if start {
                texts(old(self).claimed@).push(key@)
            } else {
                texts(old(self).claimed@)
            }),
    {
        if compiled || holds(&self.claimed, key) {
            return false;
        }
        let ghost before = texts(self.claimed@);
        self.claimed.push(copied(key));
        assert(texts(self.claimed@) =~= before.push(key@));
        true
    }
}

/// What becomes of one recursive recipe's child once its invocation has been
/// resolved.
#[derive(Clone, Copy, PartialEq, Eq, Structural, Debug)]
pub enum ChildStart {
    /// Resolving it refused, which is held until the composition reaches it.
    Refused,
    /// Its Makefiles are read on a worker.
    Read,
    /// Its Makefiles are read where the composition reaches it.
    Unread,
}

/// What becomes of one child, as its model.
pub open spec fn started_as(
    resolved: Seq<Option<Vec<u8>>>,
    compiled: Seq<Seq<u8>>,
    at: int,
) -> ChildStart {
    match resolved[at] {
        None => ChildStart::Refused,
        Some(key) => if compiled.contains(key@) || exists|j: int|
            0 <= j < at && maybe(#[trigger] resolved[j]) == Some(key@) {
            ChildStart::Unread
        } else {
            ChildStart::Read
        },
    }
}

/// Which of a unit's recursive children are read ahead, `resolved` being what
/// each is cached under, in the order the recipes stand in, and nothing where
/// resolving it refused.
///
/// A unit two recipes invoke is read once, for the first of them, and one that
/// was compiled before is not read at all.
pub fn read_ahead(resolved: &[Option<Vec<u8>>], compiled: &[Vec<u8>]) -> (started: Vec<ChildStart>)
    ensures
        started@.len() == resolved@.len(),
        forall|i: int|
            0 <= i < started@.len() ==> #[trigger] started@[i] == started_as(
                resolved@,
                texts(compiled@),
                i,
            ),
{
    let mut claims: Claims = Claims::new();
    let mut started: Vec<ChildStart> = Vec::new();
    let ghost known = texts(compiled@);
    let mut at: usize = 0;
    while at < resolved.len()
        invariant
            at <= resolved@.len(),
            known == texts(compiled@),
            started@.len() == at,
            forall|i: int|
                0 <= i < at ==> #[trigger] started@[i] == started_as(resolved@, known, i),
            forall|key: Seq<u8>| #[trigger]
                texts(claims.claimed@).contains(key) <==> !known.contains(key) && exists|j: int|
                    0 <= j < at && maybe(#[trigger] resolved@[j]) == Some(key),
        decreases resolved@.len() - at,
    {
        match &resolved[at] {
            None => {
                started.push(ChildStart::Refused);
                assert forall|key: Seq<u8>| #[trigger]
                    texts(claims.claimed@).contains(key) <==> !known.contains(key) && exists|
                        j: int,
                    |
                        0 <= j < at + 1 && maybe(#[trigger] resolved@[j]) == Some(key) by {
                    if exists|j: int|
                        0 <= j < at + 1 && maybe(#[trigger] resolved@[j]) == Some(key) {
                        let j = choose|j: int|
                            0 <= j < at + 1 && maybe(#[trigger] resolved@[j]) == Some(key);
                        assert(j < at);
                    }
                }
            },
            Some(key) => {
                let ghost before = texts(claims.claimed@);
                let ghost named = key@;
                let compiled_before: bool = holds(compiled, key);
                let start: bool = claims.claim(key, compiled_before);
                let ghost after = texts(claims.claimed@);
                started.push(
                    if start {
                        ChildStart::Read
                    } else {
                        ChildStart::Unread
                    },
                );
                assert(maybe(resolved@[at as int]) == Some(named));
                assert(before.contains(named) <==> !known.contains(named) && exists|j: int|
                    0 <= j < at && maybe(#[trigger] resolved@[j]) == Some(named));
                assert forall|other: Seq<u8>| #[trigger]
                    after.contains(other) <==> !known.contains(other) && exists|j: int|
                        0 <= j < at + 1 && maybe(#[trigger] resolved@[j]) == Some(other) by {
                    assert(before.contains(other) <==> !known.contains(other) && exists|j: int|
                        0 <= j < at && maybe(#[trigger] resolved@[j]) == Some(other));
                    if start {
                        assert(after == before.push(named));
                        if before.contains(other) {
                            let i = choose|i: int| 0 <= i < before.len() && before[i] == other;
                            assert(after[i] == other);
                        }
                        if other == named {
                            assert(after[before.len() as int] == named);
                        }
                        if after.contains(other) && other != named {
                            let i = choose|i: int| 0 <= i < after.len() && after[i] == other;
                            assert(before[i] == other);
                        }
                    }
                    if other != named && exists|j: int|
                        0 <= j < at + 1 && maybe(#[trigger] resolved@[j]) == Some(other) {
                        let j = choose|j: int|
                            0 <= j < at + 1 && maybe(#[trigger] resolved@[j]) == Some(other);
                        assert(j < at);
                    }
                }
            },
        }
        at += 1;
    }
    started
}

/// What a read that was started on a worker comes to: what the worker answered,
/// or what reading it here came to where no worker did, nothing being both a
/// read that was taken and one that never answered.
pub fn collect<E>(
    answer: Option<Result<E, MakeError>>,
    read_here: Option<Result<E, MakeError>>,
) -> (evaluated: Result<E, MakeError>)
    ensures
        match (answer, read_here) {
            (Some(answered), _) => evaluated == answered,
            (None, Some(read)) => evaluated == read,
            (None, None) => evaluated matches Err(wrong) && wrong.model() == Failure::Evaluate(
                text("reading a recursive Make child was abandoned"),
            ),
        },
{
    match answer {
        Some(answered) => answered,
        None => match read_here {
            Some(read) => read,
            None => Err(
                MakeError::Evaluate(literal("reading a recursive Make child was abandoned")),
            ),
        },
    }
}

/// What one unit's first read was told and what it read, for a pass that reads
/// the unit again.
#[derive(Debug)]
pub struct ReadJournal<J> {
    /// What it was told.
    pub ground: J,
    /// The texts it read, by name.
    pub sources: Vec<(Vec<u8>, Vec<u8>)>,
}

/// What one unit's evaluator is told before it reads.
#[derive(Debug)]
pub struct Prepared<'a, J> {
    pub shuffle: Shuffle,
    /// Whether this unit was read before, so that what the read does on the way
    /// through is not done again.
    pub is_repeated_read: bool,
    /// What the first read was told and read, which this one is handed instead
    /// of the ground as it stands now.
    pub replayed: Option<&'a ReadJournal<J>>,
}

/// What one unit's evaluator is told before it reads: which thread ends up
/// reading it does not enter into it.
pub fn prepare_session<'a, J>(
    cache_key: &Vec<u8>,
    shuffle: Shuffle,
    read_units: &'a Table<Vec<u8>, ReadJournal<J>>,
) -> (prepared: Prepared<'a, J>)
    requires
        read_units.wf(),
    ensures
        prepared.shuffle == shuffle,
        prepared.is_repeated_read == read_units@.dom().contains(cache_key@),
        match prepared.replayed {
            Some(journal) => read_units@.dom().contains(cache_key@) && *journal
                == read_units@[cache_key@],
            None => !read_units@.dom().contains(cache_key@),
        },
{
    let replayed: Option<&ReadJournal<J>> = read_units.get(cache_key);
    Prepared { shuffle, is_repeated_read: replayed.is_some(), replayed }
}

/// A job count that says as many as it takes still asks for no more workers
/// than the machine has cores, and a pool is never one worker.
pub proof fn a_pool_is_no_wider_than_the_machine(
    threads: usize,
    cores: usize,
    own_directories: bool,
)
    ensures
        workers_of(threads, cores, own_directories) matches Some(count) ==> 2 <= count <= cores
            && count <= threads,
{
}

/// A child is read ahead for the first recipe that invokes it and for no other,
/// and not at all where it was compiled before; one that could not be resolved is
/// refused.
pub proof fn a_child_is_read_for_its_first_recipe(
    resolved: Seq<Option<Vec<u8>>>,
    compiled: Seq<Seq<u8>>,
    at: int,
    other: int,
)
    requires
        0 <= at < resolved.len(),
        0 <= other < resolved.len(),
    ensures
        resolved[at] is None <==> started_as(resolved, compiled, at) is Refused,
        started_as(resolved, compiled, at) is Read ==> !compiled.contains(resolved[at]->0@),
        started_as(resolved, compiled, at) is Read && started_as(resolved, compiled, other) is Read
            && maybe(resolved[at]) == maybe(resolved[other]) ==> at == other,
        resolved[at] is Some && !compiled.contains(resolved[at]->0@) && (forall|j: int|
            0 <= j < at ==> maybe(#[trigger] resolved[j]) != maybe(resolved[at]))
            ==> started_as(resolved, compiled, at) is Read,
{
}

/// A read may start early only for a recipe that is sure to run and that nothing
/// has to be there for: neither an input it is to be newer than nor one that is
/// only to be there first.
pub proof fn only_a_certain_recipe_is_read_early(ordered: Seq<Pending>, around: Reporting, at: int)
    requires
        may_start_early(ordered, around),
        0 <= at < ordered.len(),
    ensures
        !around.reporting && !around.recording && around.collecting,
        ordered[at].always_dirty,
        ordered[at].inputs.len() == 0,
        ordered[at].order_only_inputs.len() == 0,
        ordered[at].invocations.len() == 1,
        ordered[at].invocations[0].preceding_rule is None,
        !runs_to_resolve(ordered[at].invocations[0].command@),
{
    assert(certain(ordered[at]));
    let all = ordered[at].evaluation_inputs();
    assert(all.len() == ordered[at].inputs.len() + ordered[at].order_only_inputs.len());
}

/// Where every recipe is sure to run and waits for nothing, and nobody asked to be
/// told, the reads do start early.
pub proof fn certain_recipes_are_read_early(ordered: Seq<Pending>, around: Reporting)
    requires
        !around.reporting && !around.recording && around.collecting,
        forall|i: int|
            0 <= i < ordered.len() ==> (#[trigger] ordered[i]).always_dirty
                && ordered[i].inputs.len() == 0 && ordered[i].order_only_inputs.len() == 0
                && ordered[i].invocations.len() == 1
                && ordered[i].invocations[0].preceding_rule is None && !runs_to_resolve(
                ordered[i].invocations[0].command@,
            ),
    ensures
        may_start_early(ordered, around),
{
}

} // verus!
