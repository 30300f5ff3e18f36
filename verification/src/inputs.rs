//! Bringing a read's own inputs up to date, as the turns it takes: the four
//! subsets of the Makefiles, and then the work a recursive unit waits for.

use crate::bytes::{ended, lossy};
use crate::outcomes::{a_makefile_that_moved_starts_over, what_did_not_lose_is_kept};
use crate::remake::{
    after_staging, after_update, flushed_question, kept, lost_over, moved, AfterUpdate, Pass,
    Passes, Planned, Remaking, Settlement, Stamps, Subset, Update,
};
use crate::report::{
    interrupted_run, refusal_lines, report_of, said, BuildFailure, Reported, RunResult, ABANDONED,
};
use vstd::prelude::*;

verus! {

/// One read's compiler inputs on their way to being up to date.
#[derive(Debug)]
pub struct CompilerInputs {
    /// The Makefiles in the groups that are treated differently.
    pub subsets: Vec<Subset>,
    /// How many of them have been.
    pub at: usize,
    pub update: Update,
    pub passes: Passes,
    /// The Makefiles the read needs and nothing can make.
    pub refusals: Option<Vec<(Option<Vec<u8>>, Vec<u8>)>>,
    /// The work a recursive unit waits for.
    pub staged: Vec<usize>,
    /// Whether a unit waits for any of it.
    pub boundaries: bool,
    /// Whether the invocation describes what it would do.
    pub dryrun: bool,
}

/// The next turn.
#[derive(Debug)]
pub enum Turn {
    /// Bring the subset that is next up to date.
    Remake(CompilerInputs),
    /// Tell the graph which Makefiles were remade and which were lost, and build
    /// the staged work or ask about it.
    Stage { inputs: CompilerInputs, remade: Vec<usize>, unmade: Vec<usize> },
    /// It is decided, whatever closing the logs comes to.
    Over(Settlement),
    /// It is decided once the logs are closed, and fails where they cannot be.
    Close(Settlement),
}

/// What building the staged work came to, or asking about it.
#[derive(Debug)]
pub enum Staged {
    Asked(Result<bool, BuildFailure>),
    Built(Planned),
}

/// Whether a subset ends the run: a Makefile the read needs was lost.
pub open spec fn ends_the_run(subset: Subset, planned: Planned) -> bool {
    &&& subset.targets@.len() > 0
    &&& !subset.forgive
    &&& match planned {
        Planned::Refused(_) => true,
        Planned::Ran(outcome) => outcome.exit_code != 0,
        Planned::UpToDate => false,
    }
}

impl CompilerInputs {
    /// Whether what follows one subset is what the update and the narration of
    /// `after` say, and nothing else changed.
    pub open spec fn remade_into(
        self,
        planned: Planned,
        stamps: Stamps,
        update: Update,
        reported: Seq<u8>,
    ) -> bool {
        let subset = self.subsets@[self.at as int];
        let lost = lost_over(subset, planned);
        &&& update.restart == (self.update.restart || moved(
            subset.targets@,
            stamps.before@,
            stamps.after@,
            lost,
        ))
        &&& update.remade@ == self.update.remade@ + kept(subset.targets@, lost)
        &&& update.unmade@ == self.update.unmade@ + lost
        &&& reported == (match planned {
            Planned::Ran(outcome) => if subset.targets@.len() > 0 {
                self.passes.reported@ + lossy(outcome.output@)
            } else {
                self.passes.reported@
            },
            _ => self.passes.reported@,
        })
    }

    /// Whether inputs are these but for how far the update has come.
    pub open spec fn goes_on_as(self, after: CompilerInputs) -> bool {
        &&& after.subsets == self.subsets
        &&& after.at == self.at + 1
        &&& after.passes.keeps(self.passes)
        &&& after.staged == self.staged
        &&& after.boundaries == self.boundaries
        &&& after.dryrun == self.dryrun
    }

    /// What follows the subset that was next.
    ///
    /// A Makefile nothing can make ends the run once every subset has been,
    /// whether or not the read would have started over.
    pub fn build_compiler_inputs(self, planned: Planned, stamps: &Stamps) -> (turn: Turn)
        requires
            self.at < self.subsets@.len(),
            stamps.before@.len() == self.subsets@[self.at as int].targets@.len(),
            stamps.after@.len() == self.subsets@[self.at as int].targets@.len(),
        ensures
            ({
                let subset = self.subsets@[self.at as int];
                if ends_the_run(subset, planned) {
                    turn matches Turn::Over(Settlement::Finished(result)) && self.passes.passed(
                        subset.targets@,
                        planned,
                        false,
                        Pass::Finished(result),
                    )
                } else if self.at + 1 < self.subsets@.len() {
                    turn matches Turn::Remake(after) && self.goes_on_as(after) && after.refusals
                        == self.refusals && self.remade_into(
                        planned,
                        *stamps,
                        after.update,
                        after.passes.reported@,
                    )
                } else {
                    exists|update: Update, reported: Seq<u8>| #[trigger]
                        self.remade_into(planned, *stamps, update, reported)
                            && self.decided(turn, update, reported)
                }
            }),
            ({
                let subset = self.subsets@[self.at as int];
                let failed = match planned {
                    Planned::UpToDate => false,
                    Planned::Refused(_) => true,
                    Planned::Ran(outcome) => outcome.exit_code != 0,
                };
                let over = failed && !subset.forgive && subset.targets@.len() > 0;
                &&& turn is Over <==> over
                &&& over ==> (turn matches Turn::Over(Settlement::Finished(result))
                    && result.exit_code != 0)
                &&& turn is Remake <==> !over && self.at + 1 < self.subsets@.len()
                &&& turn matches Turn::Remake(after) ==> after.at == self.at + 1 && after.subsets
                    == self.subsets && after.staged == self.staged && after.refusals
                    == self.refusals && (self.update.restart ==> after.update.restart)
                &&& turn is Stage ==> self.refusals is None && !self.update.restart
                &&& self.refusals is Some ==> !(turn is Stage) && turn != Turn::Close(
                    Settlement::Restart,
                )
                &&& turn matches Turn::Close(Settlement::Finished(result)) ==> self.refusals is Some
                    && result.exit_code == ABANDONED
                &&& !over && self.at + 1 == self.subsets@.len() && self.refusals is None
                    && self.update.restart ==> turn == Turn::Close(Settlement::Restart)
                &&& !failed && stamps.before@ != stamps.after@ ==> !(turn is Stage) && (
                turn matches Turn::Remake(after) ==> after.update.restart)
                &&& turn matches Turn::Stage { inputs, remade, unmade } ==> inputs.staged
                    == self.staged && (!failed ==> forall|i: int|
                    0 <= i < subset.targets@.len() ==> remade@.contains(
                        #[trigger] subset.targets@[i],
                    )) && (forall|i: int|
                    0 <= i < self.update.unmade@.len() ==> unmade@.contains(
                        #[trigger] self.update.unmade@[i],
                    ))
            }),
    {
        let ghost whole = self;
        let mut inputs = self;
        let total: usize = inputs.subsets.len();
        let ghost failed = planned is Refused || (planned is Ran && planned->Ran_0.exit_code != 0);
        let over: Option<RunResult> = inputs.passes.remake_makefiles(
            &mut inputs.update,
            &inputs.subsets[inputs.at],
            planned,
            stamps,
        );
        if let Some(result) = over {
            return Turn::Over(Settlement::Finished(result));
        }
        proof {
            let subset = whole.subsets@[whole.at as int];
            let lost = lost_over(subset, planned);
            if !failed && stamps.before@ != stamps.after@ {
                if forall|i: int|
                    0 <= i < subset.targets@.len() ==> stamps.before@[i] == stamps.after@[i] {
                    assert(stamps.before@ =~= stamps.after@);
                }
                let at = choose|at: int|
                    0 <= at < subset.targets@.len() && stamps.before@[at] != stamps.after@[at];
                a_makefile_that_moved_starts_over(
                    subset.targets@,
                    stamps.before@,
                    stamps.after@,
                    lost,
                    at,
                );
            }
            assert forall|i: int| 0 <= i < subset.targets@.len() && !failed implies
                inputs.update.remade@.contains(#[trigger] subset.targets@[i]) by {
                let target = subset.targets@[i];
                what_did_not_lose_is_kept(subset.targets@, lost, target);
                let left = kept(subset.targets@, lost);
                let at = choose|at: int| 0 <= at < left.len() && left[at] == target;
                assert(inputs.update.remade@[whole.update.remade@.len() + at] == target);
            }
            assert forall|i: int| 0 <= i < whole.update.unmade@.len() implies
                inputs.update.unmade@.contains(#[trigger] whole.update.unmade@[i]) by {
                assert(inputs.update.unmade@[i] == whole.update.unmade@[i]);
            }
        }
        inputs.at = inputs.at + 1;
        if inputs.at < total {
            return Turn::Remake(inputs);
        }
        let ghost update = inputs.update;
        let ghost reported = inputs.passes.reported@;
        assert(whole.remade_into(planned, *stamps, update, reported));
        let remaking: Remaking = inputs.update.concluded();
        let narrated: Vec<u8> = crate::bytes::copied(&inputs.passes.reported);
        let turn: Turn = match after_update(remaking, inputs.refusals, narrated) {
            AfterUpdate::Over(settlement) => Turn::Over(settlement),
            AfterUpdate::Close(settlement) => Turn::Close(settlement),
            AfterUpdate::Stage { remade, unmade } => {
                let rest = CompilerInputs {
                    subsets: inputs.subsets,
                    at: inputs.at,
                    update: Update::new(),
                    passes: inputs.passes,
                    refusals: None,
                    staged: inputs.staged,
                    boundaries: inputs.boundaries,
                    dryrun: inputs.dryrun,
                };
                Turn::Stage { inputs: rest, remade, unmade }
            },
        };
        assert(whole.decided(turn, update, reported));
        turn
    }

    /// Whether a turn is what an update that is over decides.
    pub open spec fn decided(self, turn: Turn, update: Update, reported: Seq<u8>) -> bool {
        match self.refusals {
            Some(refused) => turn matches Turn::Close(Settlement::Finished(result))
                && result.model() == (Reported {
                stdout: ended(reported),
                stderr: refusal_lines(refused@),
                exit_code: ABANDONED,
            }),
            None => if update.restart {
                turn == Turn::Close(Settlement::Restart)
            } else {
                turn matches Turn::Stage { inputs, remade, unmade } && self.goes_on_as(inputs)
                    && inputs.passes.reported@ == reported && remade@ == update.remade@
                    && unmade@ == update.unmade@
            },
        }
    }
}

impl CompilerInputs {
    /// What staged work that was built, or is there already, comes to: the read
    /// goes on from it where a unit waits for any, which takes closed logs.
    pub open spec fn staged_on(
        self,
        current: bool,
        flushed: Result<(), BuildFailure>,
    ) -> Result<Settlement, BuildFailure> {
        if current && !self.boundaries {
            Ok(Settlement::Settled)
        } else {
            match flushed {
                Ok(_) => Ok(Settlement::Staged),
                Err(failure) => Err(failure),
            }
        }
    }

    /// What the staged work decides, `flushed` being what closing the logs came
    /// to: built work sends the read on from it, a question is answered, and a
    /// dry run ends with what it described.
    pub fn settle_staged(
        self,
        staged: Staged,
        flushed: Result<(), BuildFailure>,
        interrupted: bool,
    ) -> (settlement: Result<Settlement, BuildFailure>)
        ensures
            match staged {
                Staged::Asked(question) => if question == Ok::<bool, BuildFailure>(true) {
                    settlement == self.staged_on(true, flushed)
                } else {
                    settlement matches Ok(Settlement::Finished(result)) && result.model() == (
                    if interrupted {
                        interrupted_run(self.passes.reported@)
                    } else {
                        match flushed_question(question, flushed) {
                            Ok(up_to_date) => Reported {
                                stdout: ended(self.passes.reported@),
                                stderr: Seq::empty(),
                                exit_code: if up_to_date {
                                    0
                                } else {
                                    1
                                },
                            },
                            Err(failure) => Reported {
                                stdout: ended(self.passes.reported@),
                                stderr: ended(said(failure.said@)),
                                exit_code: if self.passes.keep_going
                                    && failure.refused_a_questioned_makefile {
                                    1
                                } else {
                                    2
                                },
                            },
                        }
                    })
                },
                Staged::Built(planned) => if self.staged@.len() == 0 || planned is UpToDate {
                    settlement == self.staged_on(true, flushed)
                } else {
                    match planned {
                        Planned::Ran(outcome) => if outcome.exit_code == 0 && !self.dryrun {
                            settlement == self.staged_on(false, flushed)
                        } else if outcome.exit_code == 0 {
                            settlement matches Ok(Settlement::Finished(result)) && result.model()
                                == report_of(
                                self.passes.reported@,
                                false,
                                outcome,
                                self.passes.silent,
                                Seq::empty(),
                            )
                        } else {
                            settlement matches Ok(Settlement::Finished(result))
                                && self.passes.passed(
                                self.staged@,
                                planned,
                                false,
                                Pass::Finished(result),
                            )
                        },
                        _ => settlement matches Ok(Settlement::Finished(result))
                            && self.passes.passed(
                            self.staged@,
                            planned,
                            false,
                            Pass::Finished(result),
                        ),
                    }
                },
            },
            settlement != Ok::<Settlement, BuildFailure>(Settlement::Restart),
            settlement is Err ==> flushed is Err && settlement->Err_0 == flushed->Err_0,
            settlement == Ok::<Settlement, BuildFailure>(Settlement::Settled) ==> !self.boundaries,
            settlement == Ok::<Settlement, BuildFailure>(Settlement::Staged) ==> flushed is Ok,
            staged matches Staged::Built(Planned::UpToDate) ==> (if self.boundaries {
                flushed is Ok ==> settlement == Ok::<Settlement, BuildFailure>(Settlement::Staged)
            } else {
                settlement == Ok::<Settlement, BuildFailure>(Settlement::Settled)
            }),
            self.staged@.len() > 0 ==> (staged matches Staged::Built(Planned::Ran(outcome)) ==> (
            if outcome.exit_code != 0 {
                settlement matches Ok(Settlement::Finished(result)) && result.exit_code != 0
            } else if self.dryrun {
                settlement matches Ok(Settlement::Finished(_))
            } else if flushed is Ok {
                settlement == Ok::<Settlement, BuildFailure>(Settlement::Staged)
            } else {
                settlement is Err
            })),
            self.staged@.len() > 0 ==> (staged matches Staged::Built(Planned::Refused(failure)) ==> (
            settlement matches Ok(Settlement::Finished(result)) && result.exit_code == ABANDONED)),
            staged matches Staged::Asked(Ok(false)) ==> (
            settlement matches Ok(Settlement::Finished(result)) && (!interrupted && flushed is Ok
                ==> result.exit_code == 1)),
            staged matches Staged::Asked(_) ==> (settlement matches Ok(Settlement::Finished(result))
                ==> interrupted ==> result.exit_code == 130),
    {
        let mut passes: Passes = self.passes;
        let pass: Pass = match staged {
            Staged::Asked(question) => passes.ask(question),
            Staged::Built(planned) => {
                let pass: Pass = passes.run(&self.staged, planned, false);
                passes.stage(pass, self.dryrun)
            },
        };
        after_staging(
            pass,
            self.boundaries,
            flushed,
            passes.reported,
            passes.keep_going,
            interrupted,
        )
    }
}

} // verus!
