//! Bringing the Makefiles a read consulted up to date, between the reads.
//!
//! Every Makefile that was read is a target, updated the way any other is, and
//! the read starts over when that changed one of them. What the goals were
//! asked is not asked of the Makefiles: the pretending switches are off while
//! they are brought up to date, but for a Makefile the command line also named.

use crate::bytes::{append, copied, holds, lossy, texts, to_str_lossy};
use crate::command::{BuildOptions, Controls};
use crate::graph::{below, lists, BuildGraph, GraphModel};
use crate::report::{
    abandoned, answered, complained_of, finished, interrupted_run, refusal_lines,
    refused_makefile, report_of, said, BuildFailure, Outcome, Reported, RunResult, ABANDONED,
};
use vstd::prelude::*;

verus! {

/// The switches a Makefile is brought up to date under, as their model: the
/// ones the goals were asked under, but done rather than described.
pub open spec fn remaking(options: Controls) -> Controls {
    Controls { dryrun: false, verbose: false, ..options }
}

/// The switches a Makefile is brought up to date under.
pub fn remaking_options(options: &BuildOptions) -> (remade: BuildOptions)
    ensures
        remade.model() == remaking(options.model()),
{
    let mut remade: BuildOptions = options.copy();
    remade.dryrun = false;
    remade.verbose = false;
    remade
}

/// Where a graph says each of these targets lives.
pub fn paths_of(graph: &BuildGraph, targets: &[usize]) -> (paths: Vec<Vec<u8>>)
    requires
        below(targets@, graph.model().nodes.len()),
    ensures
        texts(paths@) == Seq::new(
            targets@.len(),
            |i: int| graph.model().nodes[targets@[i] as int].path,
        ),
{
    let ghost wanted = Seq::new(
        targets@.len(),
        |i: int| graph.model().nodes[targets@[i] as int].path,
    );
    let mut paths: Vec<Vec<u8>> = Vec::new();
    let mut at: usize = 0;
    assert(texts(paths@) =~= wanted.take(0));
    while at < targets.len()
        invariant
            at <= targets@.len(),
            below(targets@, graph.model().nodes.len()),
            wanted == Seq::new(
                targets@.len(),
                |i: int| graph.model().nodes[targets@[i] as int].path,
            ),
            texts(paths@) == wanted.take(at as int),
        decreases targets@.len() - at,
    {
        let ghost before = texts(paths@);
        let path: Vec<u8> = copied(graph.path(targets[at]));
        let ghost added = path@;
        paths.push(path);
        assert(texts(paths@) =~= before.push(added));
        assert(texts(paths@) =~= wanted.take(at as int + 1));
        at += 1;
    }
    assert(wanted.take(at as int) =~= wanted);
    paths
}

/// The Makefiles one read consulted, and what deciding about them takes.
#[derive(Debug)]
pub struct Makefiles {
    /// Every Makefile a rule says how to remake, in the order the read reached
    /// them.
    pub remakes: Vec<usize>,
    /// The ones among those the read said it did not need.
    pub forgiven: Vec<usize>,
    /// Whether the invocation asks rather than builds.
    pub questioning: bool,
    pub options: BuildOptions,
    /// What this invocation's own command line named.
    pub goals: Vec<Vec<u8>>,
}

/// One subset of the Makefiles, and how it is brought up to date.
#[derive(Debug)]
pub struct Subset {
    pub targets: Vec<usize>,
    pub options: BuildOptions,
    /// Whether a recipe that lost here is forgiven.
    pub forgive: bool,
}

/// One subset, as its model.
pub ghost struct SubsetModel {
    pub targets: Seq<usize>,
    pub options: Controls,
    pub forgive: bool,
}

impl Subset {
    /// The subset as its model.
    pub open spec fn model(&self) -> SubsetModel {
        SubsetModel {
            targets: self.targets@,
            options: self.options.model(),
            forgive: self.forgive,
        }
    }
}

/// Some subsets, as their models.
pub open spec fn subset_models(subsets: Seq<Subset>) -> Seq<SubsetModel> {
    Seq::new(subsets.len(), |i: int| subsets[i].model())
}

/// The targets the command line named or did not, and whose failure is forgiven
/// or is not, in their order.
pub open spec fn grouped(
    graph: GraphModel,
    goals: Seq<Seq<u8>>,
    forgiven: Seq<usize>,
    targets: Seq<usize>,
    on_command_line: bool,
    forgive: bool,
) -> Seq<usize>
    decreases targets.len(),
{
    if targets.len() == 0 {
        Seq::empty()
    } else {
        let before = grouped(
            graph,
            goals,
            forgiven,
            targets.drop_last(),
            on_command_line,
            forgive,
        );
        if goals.contains(graph.nodes[targets.last() as int].path) == on_command_line
            && forgiven.contains(targets.last()) == forgive {
            before.push(targets.last())
        } else {
            before
        }
    }
}

/// With every failure forgiven, as options.
pub open spec fn forgivingly(options: Controls) -> Controls {
    Controls { maxfail: usize::MAX, ..options }
}

impl Makefiles {
    /// One of the four groups, as its model.
    pub open spec fn group_model(&self, graph: GraphModel, on_command_line: bool, forgive: bool) ->
        Seq<usize> {
        grouped(
            graph,
            texts(self.goals@),
            self.forgiven@,
            self.remakes@,
            on_command_line,
            forgive,
        )
    }

    /// The subsets, as their models: the ones the command line did not name are
    /// made whatever was asked of the goals, the ones it named keep what was
    /// asked and under a question are left alone, and a forgiven subset is
    /// attempted to its end.
    pub open spec fn subsets_model(&self, graph: GraphModel) -> Seq<SubsetModel> {
        let asked = self.options.model();
        seq![
            SubsetModel {
                targets: self.group_model(graph, false, false),
                options: remaking(asked),
                forgive: false,
            },
            SubsetModel {
                targets: self.group_model(graph, false, true),
                options: forgivingly(remaking(asked)),
                forgive: true,
            },
            SubsetModel {
                targets: if self.questioning {
                    Seq::empty()
                } else {
                    self.group_model(graph, true, false)
                },
                options: asked,
                forgive: false,
            },
            SubsetModel {
                targets: if self.questioning {
                    Seq::empty()
                } else {
                    self.group_model(graph, true, true)
                },
                options: forgivingly(asked),
                forgive: true,
            },
        ]
    }

    fn group(&self, graph: &BuildGraph, on_command_line: bool, forgive: bool) -> (targets: Vec<
        usize,
    >)
        requires
            below(self.remakes@, graph.model().nodes.len()),
        ensures
            targets@ == self.group_model(graph.model(), on_command_line, forgive),
    {
        let ghost model = graph.model();
        let mut targets: Vec<usize> = Vec::new();
        let mut at: usize = 0;
        assert(self.remakes@.take(0) =~= Seq::empty());
        while at < self.remakes.len()
            invariant
                at <= self.remakes@.len(),
                model == graph.model(),
                below(self.remakes@, model.nodes.len()),
                targets@ == grouped(
                    model,
                    texts(self.goals@),
                    self.forgiven@,
                    self.remakes@.take(at as int),
                    on_command_line,
                    forgive,
                ),
            decreases self.remakes@.len() - at,
        {
            let ghost next = self.remakes@.take(at as int + 1);
            assert(next.drop_last() =~= self.remakes@.take(at as int));
            let target: usize = self.remakes[at];
            assert(next.last() == target);
            let named: bool = holds(&self.goals, graph.path(target));
            if named == on_command_line && lists(&self.forgiven, target) == forgive {
                targets.push(target);
            }
            at += 1;
        }
        assert(self.remakes@.take(at as int) =~= self.remakes@);
        targets
    }

    fn asked_about(&self, targets: Vec<usize>) -> (left: Vec<usize>)
        ensures
            left@ == (if self.questioning {
                Seq::empty()
            } else {
                targets@
            }),
    {
        if self.questioning {
            let none: Vec<usize> = Vec::new();
            assert(none@ =~= Seq::empty());
            none
        } else {
            targets
        }
    }

    /// The Makefiles in the groups that are treated differently, in the order
    /// they are reached.
    ///
    /// Whether a Makefile's failure is forgiven is the read's answer, and which
    /// switches it is made under is the command line's, so there are four.
    pub fn subsets(&self, graph: &BuildGraph) -> (subsets: Vec<Subset>)
        requires
            below(self.remakes@, graph.model().nodes.len()),
        ensures
            subset_models(subsets@) == self.subsets_model(graph.model()),
    {
        let mut subsets: Vec<Subset> = Vec::new();
        subsets.push(
            Subset {
                targets: self.group(graph, false, false),
                options: remaking_options(&self.options),
                forgive: false,
            },
        );
        let mut options: BuildOptions = remaking_options(&self.options);
        options.maxfail = usize::MAX;
        subsets.push(Subset { targets: self.group(graph, false, true), options, forgive: true });
        let named: Vec<usize> = self.group(graph, true, false);
        subsets.push(
            Subset {
                targets: self.asked_about(named),
                options: self.options.copy(),
                forgive: false,
            },
        );
        let mut options: BuildOptions = self.options.copy();
        options.maxfail = usize::MAX;
        let named: Vec<usize> = self.group(graph, true, true);
        subsets.push(Subset { targets: self.asked_about(named), options, forgive: true });
        assert(subset_models(subsets@) =~= self.subsets_model(graph.model()));
        subsets
    }
}

proof fn group_holds(
    graph: GraphModel,
    goals: Seq<Seq<u8>>,
    forgiven: Seq<usize>,
    targets: Seq<usize>,
    on_command_line: bool,
    forgive: bool,
    target: usize,
)
    ensures
        grouped(graph, goals, forgiven, targets, on_command_line, forgive).contains(target) <==> {
            &&& targets.contains(target)
            &&& goals.contains(graph.nodes[target as int].path) == on_command_line
            &&& forgiven.contains(target) == forgive
        },
    decreases targets.len(),
{
    let group = grouped(graph, goals, forgiven, targets, on_command_line, forgive);
    if targets.len() > 0 {
        let before = targets.drop_last();
        let held = grouped(graph, goals, forgiven, before, on_command_line, forgive);
        group_holds(graph, goals, forgiven, before, on_command_line, forgive, target);
        if before.contains(target) {
            let i = choose|i: int| 0 <= i < before.len() && before[i] == target;
            assert(targets[i] == target);
        }
        if targets.contains(target) && target != targets.last() {
            let i = choose|i: int| 0 <= i < targets.len() && targets[i] == target;
            assert(before[i] == target);
        }
        if held.contains(target) {
            let i = choose|i: int| 0 <= i < held.len() && held[i] == target;
            assert(group[i] == target);
        }
        if group.contains(target) && target != targets.last() {
            let i = choose|i: int| 0 <= i < group.len() && group[i] == target;
            assert(held[i] == target);
        }
        if target == targets.last() {
            assert(targets[targets.len() - 1] == target);
            if group.len() > held.len() {
                assert(group[held.len() as int] == target);
            }
        }
    }
}

/// A Makefile the read consulted is in one of the subsets and in no other,
/// unless the command line named it and only asked.
pub proof fn a_makefile_is_remade_once(makefiles: Makefiles, graph: GraphModel, target: usize)
    requires
        makefiles.remakes@.contains(target),
    ensures
        ({
            let named = texts(makefiles.goals@).contains(graph.nodes[target as int].path);
            let forgive = makefiles.forgiven@.contains(target);
            let subsets = makefiles.subsets_model(graph);
            let place: int = (if named {
                2
            } else {
                0int
            }) + (if forgive {
                1
            } else {
                0int
            });
            forall|i: int|
                0 <= i < 4 ==> ((#[trigger] subsets[i]).targets.contains(target) <==> i == place
                    && !(named && makefiles.questioning))
        }),
{
    let goals = texts(makefiles.goals@);
    group_holds(graph, goals, makefiles.forgiven@, makefiles.remakes@, false, false, target);
    group_holds(graph, goals, makefiles.forgiven@, makefiles.remakes@, false, true, target);
    group_holds(graph, goals, makefiles.forgiven@, makefiles.remakes@, true, false, target);
    group_holds(graph, goals, makefiles.forgiven@, makefiles.remakes@, true, true, target);
}

/// What planning and running one subset came to.
#[derive(Debug)]
pub enum Planned {
    /// It could not be planned, or could not be run to its end.
    Refused(BuildFailure),
    UpToDate,
    Ran(Outcome),
}

/// What one pass over a subset of the compiler inputs came to.
#[derive(Debug)]
pub enum Pass {
    /// Nothing in the subset was out of date, so no command ran.
    Current,
    /// Commands ran and every one of them won.
    Ran(Outcome),
    /// A command lost, and the read said it did not need what it was making.
    /// The targets it lost over come with it.
    Lost(Vec<usize>),
    /// The run is over, with this result.
    Finished(RunResult),
    /// The run is over having answered a question rather than built anything.
    Answered(Result<bool, BuildFailure>),
}

/// What every pass over one graph shares.
#[derive(Debug)]
pub struct Passes {
    /// What the passes have narrated so far, which the result carries out.
    pub reported: Vec<u8>,
    /// What each unread Makefile says if its own rule loses.
    pub complaints: Vec<(usize, Vec<u8>)>,
    pub silent: bool,
    pub keep_going: bool,
}

/// The first target that is or is not among some others.
pub open spec fn first_among(targets: Seq<usize>, others: Seq<usize>, among: bool) -> Option<usize>
    decreases targets.len(),
{
    if targets.len() == 0 {
        None
    } else if others.contains(targets[0]) == among {
        Some(targets[0])
    } else {
        first_among(targets.drop_first(), others, among)
    }
}

fn find_among(targets: &[usize], others: &[usize], among: bool) -> (found: Option<usize>)
    ensures
        found == first_among(targets@, others@, among),
{
    let mut at: usize = 0;
    assert(targets@.skip(0) =~= targets@);
    while at < targets.len()
        invariant
            at <= targets@.len(),
            first_among(targets@.skip(at as int), others@, among) == first_among(
                targets@,
                others@,
                among,
            ),
        decreases targets@.len() - at,
    {
        assert(targets@.skip(at as int).drop_first() =~= targets@.skip(at as int + 1));
        if lists(others, targets[at]) == among {
            return Some(targets[at]);
        }
        at += 1;
    }
    None
}

/// The Makefile a pass stopped at: the first whose own recipe lost, and failing
/// that the first the pass did not regenerate.
pub open spec fn stopped_at(targets: Seq<usize>, outcome: Outcome) -> Option<usize> {
    match first_among(targets, outcome.unmade@, true) {
        Some(target) => Some(target),
        None => first_among(targets, outcome.regenerated@, false),
    }
}

/// The first complaint held for a target.
pub open spec fn complaint_for(complaints: Seq<(usize, Vec<u8>)>, target: usize) -> Seq<Seq<u8>>
    decreases complaints.len(),
{
    if complaints.len() == 0 {
        Seq::empty()
    } else if complaints[0].0 == target {
        seq![complaints[0].1@]
    } else {
        complaint_for(complaints.drop_first(), target)
    }
}

/// The complaints a pass releases: the one held for the Makefile it stopped at.
pub open spec fn released(
    complaints: Seq<(usize, Vec<u8>)>,
    targets: Seq<usize>,
    outcome: Outcome,
) -> Seq<Seq<u8>> {
    match stopped_at(targets, outcome) {
        Some(target) => complaint_for(complaints, target),
        None => Seq::empty(),
    }
}

impl Passes {
    /// What one pass came to, and what is narrated after it, as models.
    pub open spec fn passed(&self, targets: Seq<usize>, planned: Planned, forgive: bool, pass: Pass) ->
        bool {
        if targets.len() == 0 || planned is UpToDate {
            pass is Current
        } else {
            match planned {
                Planned::Refused(failure) => if forgive {
                    pass matches Pass::Lost(unmade) && unmade@.len() == 0
                } else {
                    pass matches Pass::Finished(result) && result.model() == (Reported {
                        stdout: crate::bytes::ended(self.reported@),
                        stderr: crate::bytes::ended(said(failure.said@)),
                        exit_code: ABANDONED,
                    })
                },
                Planned::Ran(outcome) => if outcome.exit_code == 0 {
                    pass == Pass::Ran(outcome)
                } else if forgive {
                    pass matches Pass::Lost(unmade) && unmade@ == outcome.unmade@
                } else {
                    pass matches Pass::Finished(result) && result.model() == report_of(
                        self.reported@,
                        false,
                        outcome,
                        self.silent,
                        released(self.complaints@, targets, outcome),
                    )
                },
                Planned::UpToDate => true,
            }
        }
    }

    /// What is narrated after one pass.
    pub open spec fn narrated(&self, targets: Seq<usize>, planned: Planned, forgive: bool) -> Seq<
        u8,
    > {
        if targets.len() == 0 {
            self.reported@
        } else {
            match planned {
                Planned::UpToDate => self.reported@,
                Planned::Refused(failure) => if forgive {
                    self.reported@
                } else {
                    Seq::empty()
                },
                Planned::Ran(outcome) => if outcome.exit_code == 0 {
                    self.reported@
                } else if forgive {
                    self.reported@ + lossy(outcome.output@)
                } else {
                    Seq::empty()
                },
            }
        }
    }

    /// Whether only what is narrated differs.
    pub open spec fn keeps(&self, other: Passes) -> bool {
        &&& self.complaints == other.complaints
        &&& self.silent == other.silent
        &&& self.keep_going == other.keep_going
    }

    /// Take what was narrated out.
    fn take_reported(&mut self) -> (reported: Vec<u8>)
        ensures
            reported@ == old(self).reported@,
            final(self).reported@ == Seq::<u8>::empty(),
            final(self).keeps(*old(self)),
    {
        let reported: Vec<u8> = copied(&self.reported);
        self.reported = Vec::new();
        assert(self.reported@ =~= Seq::empty());
        reported
    }

    /// What building one subset of the compiler inputs came to.
    ///
    /// Nothing to do is an answer of its own, because for the Makefiles it is
    /// the decisive one: no command ran, so no Makefile can have changed.
    pub fn run(&mut self, targets: &[usize], planned: Planned, forgive: bool) -> (pass: Pass)
        ensures
            old(self).passed(targets@, planned, forgive, pass),
            final(self).reported@ == old(self).narrated(targets@, planned, forgive),
            final(self).keeps(*old(self)),
    {
        if targets.len() == 0 {
            return Pass::Current;
        }
        match planned {
            Planned::UpToDate => Pass::Current,
            Planned::Refused(failure) => self.abandon(failure, forgive),
            Planned::Ran(outcome) => {
                if outcome.exit_code == 0 {
                    return Pass::Ran(outcome);
                }
                if !forgive {
                    let complaints: Vec<Vec<u8>> = self.complaints_for(targets, &outcome);
                    let reported: Vec<u8> = self.take_reported();
                    return Pass::Finished(
                        complained_of(reported, false, &outcome, self.silent, &complaints),
                    );
                }
                self.narrate(&outcome);
                Pass::Lost(outcome.unmade)
            },
        }
    }

    /// Answer a question about one subset instead of building it.
    pub fn ask(&self, question: Result<bool, BuildFailure>) -> (pass: Pass)
        ensures
            pass == (if question == Ok::<bool, BuildFailure>(true) {
                Pass::Current
            } else {
                Pass::Answered(question)
            }),
    {
        match question {
            Ok(true) => Pass::Current,
            Ok(false) => Pass::Answered(Ok(false)),
            Err(failure) => Pass::Answered(Err(failure)),
        }
    }

    /// The complaint the Makefile this pass stopped at has been holding.
    pub fn complaints_for(&self, targets: &[usize], outcome: &Outcome) -> (complaints: Vec<Vec<u8>>)
        ensures
            texts(complaints@) == released(self.complaints@, targets@, *outcome),
    {
        let mut complaints: Vec<Vec<u8>> = Vec::new();
        let stopped: Option<usize> = match find_among(targets, &outcome.unmade, true) {
            Some(target) => Some(target),
            None => find_among(targets, &outcome.regenerated, false),
        };
        if let Some(target) = stopped {
            let ghost all = self.complaints@;
            let mut at: usize = 0;
            assert(all.skip(0) =~= all);
            while at < self.complaints.len()
                invariant
                    at <= self.complaints@.len(),
                    all == self.complaints@,
                    complaints@.len() == 0,
                    stopped_at(targets@, *outcome) == Some(target),
                    complaint_for(all.skip(at as int), target) == complaint_for(all, target),
                decreases self.complaints@.len() - at,
            {
                assert(all.skip(at as int).drop_first() =~= all.skip(at as int + 1));
                if self.complaints[at].0 == target {
                    complaints.push(copied(&self.complaints[at].1));
                    assert(texts(complaints@) =~= complaint_for(all.skip(at as int), target));
                    return complaints;
                }
                at += 1;
            }
            assert(all.skip(at as int) =~= Seq::empty());
        }
        assert(texts(complaints@) =~= Seq::empty());
        complaints
    }

    /// What a subset that could not be built comes to.
    pub fn abandon(&mut self, failure: BuildFailure, forgive: bool) -> (pass: Pass)
        ensures
            forgive ==> (pass matches Pass::Lost(unmade) && unmade@.len() == 0)
                && final(self).reported@ == old(self).reported@,
            !forgive ==> (pass matches Pass::Finished(result) && result.model() == (Reported {
                stdout: crate::bytes::ended(old(self).reported@),
                stderr: crate::bytes::ended(said(failure.said@)),
                exit_code: ABANDONED,
            })) && final(self).reported@ == Seq::<u8>::empty(),
            final(self).keeps(*old(self)),
    {
        if forgive {
            return Pass::Lost(Vec::new());
        }
        let reported: Vec<u8> = self.take_reported();
        Pass::Finished(abandoned(reported, &failure.said))
    }

    /// Add what a build wrote to what is narrated.
    pub fn narrate(&mut self, outcome: &Outcome)
        ensures
            final(self).reported@ == old(self).reported@ + lossy(outcome.output@),
            final(self).keeps(*old(self)),
    {
        let written: Vec<u8> = to_str_lossy(&outcome.output);
        append(&mut self.reported, &written);
    }

    /// What building the work staged so a recursive unit can be evaluated came
    /// to, under the invocation's own switches: a dry run describes this work
    /// and does none of it, which leaves the run over.
    pub fn stage(&mut self, pass: Pass, dryrun: bool) -> (staged: Pass)
        ensures
            match pass {
                Pass::Ran(outcome) => if dryrun {
                    (staged matches Pass::Finished(result) && result.model() == report_of(
                        old(self).reported@,
                        false,
                        outcome,
                        old(self).silent,
                        Seq::empty(),
                    )) && final(self).reported@ == Seq::<u8>::empty()
                } else {
                    staged == pass && final(self).reported@ == old(self).reported@ + lossy(
                        outcome.output@,
                    )
                },
                _ => staged == pass && final(self).reported@ == old(self).reported@,
            },
            final(self).keeps(*old(self)),
    {
        match pass {
            Pass::Ran(outcome) => {
                if dryrun {
                    let reported: Vec<u8> = self.take_reported();
                    return Pass::Finished(finished(reported, false, &outcome, self.silent));
                }
                self.narrate(&outcome);
                Pass::Ran(outcome)
            },
            other => other,
        }
    }
}

/// What one settled makefile update leaves the goals to work with, and whether
/// the read has to happen again.
#[derive(Debug)]
pub struct Update {
    /// Whether a Makefile moved.
    pub restart: bool,
    /// The ones the update reached and won.
    pub remade: Vec<usize>,
    /// The ones whose own recipe ran and lost, and was forgiven.
    pub unmade: Vec<usize>,
}

/// What bringing the Makefiles up to date came to.
#[derive(Debug)]
pub enum Remaking {
    /// The run is over, with this result.
    Finished(RunResult),
    /// A Makefile moved, so the read has to happen again on the new text.
    Restart,
    /// Every Makefile is already what it will be, so this read stands.
    Settled { remade: Vec<usize>, unmade: Vec<usize> },
}

/// Whether a Makefile moved that did not lose: the stamps are compared file by
/// file, and one whose own recipe lost is left out however it left the disk.
pub open spec fn moved(
    targets: Seq<usize>,
    before: Seq<Option<u64>>,
    after: Seq<Option<u64>>,
    unmade: Seq<usize>,
) -> bool {
    exists|i: int|
        0 <= i < targets.len() && before[i] != after[i] && !unmade.contains(#[trigger] targets[i])
}

/// The targets that are not among some others.
pub open spec fn kept(targets: Seq<usize>, unmade: Seq<usize>) -> Seq<usize>
    decreases targets.len(),
{
    if targets.len() == 0 {
        Seq::empty()
    } else if unmade.contains(targets.last()) {
        kept(targets.drop_last(), unmade)
    } else {
        kept(targets.drop_last(), unmade).push(targets.last())
    }
}

/// Whether two stamps are the same.
fn same_stamp(left: Option<u64>, right: Option<u64>) -> (answer: bool)
    ensures
        answer == (left == right),
{
    match (left, right) {
        (Some(one), Some(other)) => one == other,
        (None, None) => true,
        _ => false,
    }
}

/// How the Makefiles a pass was over stand before and after it, each as when it
/// was last written, or nothing where it is not there.
#[derive(Debug)]
pub struct Stamps {
    pub before: Vec<Option<u64>>,
    pub after: Vec<Option<u64>>,
}

impl Update {
    /// An update nothing has happened in.
    pub fn new() -> (update: Self)
        ensures
            !update.restart,
            update.remade@ == Seq::<usize>::empty(),
            update.unmade@ == Seq::<usize>::empty(),
    {
        let update = Update { restart: false, remade: Vec::new(), unmade: Vec::new() };
        assert(update.remade@ =~= Seq::empty());
        assert(update.unmade@ =~= Seq::empty());
        update
    }

    /// Take what one subset's pass came to into the update, and say what the
    /// run ends with where it ends.
    ///
    /// Each Makefile is asked about and not the batch: one that is remade starts
    /// the read over however its neighbours did, and one that lost starts
    /// nothing over.
    pub fn take_in(
        &mut self,
        passes: &mut Passes,
        targets: &[usize],
        pass: Pass,
        stamps: &Stamps,
        interrupted: bool,
    ) -> (over: Option<RunResult>)
        requires
            stamps.before@.len() == targets@.len(),
            stamps.after@.len() == targets@.len(),
        ensures
            final(passes).keeps(*old(passes)),
            match pass {
                Pass::Finished(result) => over == Some(result) && final(passes).reported@ == old(
                    passes,
                ).reported@ && *final(self) == *old(self),
                Pass::Answered(question) => over is Some && over->0.model() == (if interrupted {
                    interrupted_run(old(passes).reported@)
                } else {
                    match question {
                        Ok(up_to_date) => Reported {
                            stdout: crate::bytes::ended(old(passes).reported@),
                            stderr: Seq::empty(),
                            exit_code: if up_to_date {
                                0
                            } else {
                                1
                            },
                        },
                        Err(failure) => Reported {
                            stdout: crate::bytes::ended(old(passes).reported@),
                            stderr: crate::bytes::ended(said(failure.said@)),
                            exit_code: if old(passes).keep_going
                                && failure.refused_a_questioned_makefile {
                                1
                            } else {
                                2
                            },
                        },
                    }
                }) && final(passes).reported@ == Seq::<u8>::empty() && *final(self) == *old(self),
                _ => {
                    let lost = match pass {
                        Pass::Lost(unmade) => unmade@,
                        _ => Seq::empty(),
                    };
                    &&& over is None
                    &&& final(passes).reported@ == (match pass {
                        Pass::Ran(outcome) => old(passes).reported@ + lossy(outcome.output@),
                        _ => old(passes).reported@,
                    })
                    &&& final(self).restart == (old(self).restart || moved(
                        targets@,
                        stamps.before@,
                        stamps.after@,
                        lost,
                    ))
                    &&& final(self).remade@ == old(self).remade@ + kept(targets@, lost)
                    &&& final(self).unmade@ == old(self).unmade@ + lost
                },
            },
    {
        let mut lost: Vec<usize> = match pass {
            Pass::Finished(result) => {
                return Some(result);
            },
            Pass::Answered(question) => {
                let reported: Vec<u8> = passes.take_reported();
                return Some(answered(reported, question, passes.keep_going, interrupted));
            },
            Pass::Ran(outcome) => {
                passes.narrate(&outcome);
                let none: Vec<usize> = Vec::new();
                assert(none@ =~= Seq::empty());
                none
            },
            Pass::Lost(unmade) => unmade,
            Pass::Current => {
                let none: Vec<usize> = Vec::new();
                assert(none@ =~= Seq::empty());
                none
            },
        };
        let ghost unmade = lost@;
        let ghost stood = *self;
        let mut left: Vec<usize> = Vec::new();
        let mut moving: bool = false;
        let mut at: usize = 0;
        assert(targets@.take(0) =~= Seq::empty());
        while at < targets.len()
            invariant
                at <= targets@.len(),
                stamps.before@.len() == targets@.len(),
                stamps.after@.len() == targets@.len(),
                lost@ == unmade,
                left@ == kept(targets@.take(at as int), unmade),
                moving == exists|i: int|
                    0 <= i < at && stamps.before@[i] != stamps.after@[i] && !unmade.contains(
                        #[trigger] targets@[i],
                    ),
            decreases targets@.len() - at,
        {
            let ghost next = targets@.take(at as int + 1);
            assert(next.drop_last() =~= targets@.take(at as int));
            assert(next.last() == targets@[at as int]);
            if !lists(&lost, targets[at]) {
                left.push(targets[at]);
                if !same_stamp(stamps.before[at], stamps.after[at]) {
                    moving = true;
                    assert(!unmade.contains(targets@[at as int]));
                }
            }
            at += 1;
        }
        assert(targets@.take(at as int) =~= targets@);
        self.restart = self.restart || moving;
        let ghost kept_here = left@;
        self.remade.append(&mut left);
        self.unmade.append(&mut lost);
        assert(self.remade@ =~= stood.remade@ + kept_here);
        assert(self.unmade@ =~= stood.unmade@ + unmade);
        None
    }

    /// What the update came to once every subset has been.
    pub fn concluded(self) -> (remaking: Remaking)
        ensures
            remaking == (if self.restart {
                Remaking::Restart
            } else {
                Remaking::Settled { remade: self.remade, unmade: self.unmade }
            }),
    {
        if self.restart {
            Remaking::Restart
        } else {
            Remaking::Settled { remade: self.remade, unmade: self.unmade }
        }
    }
}

/// A recipe that ran without changing the file it names does not start the read
/// over, and neither does one that lost.
pub proof fn only_a_change_that_won_starts_over(
    targets: Seq<usize>,
    before: Seq<Option<u64>>,
    after: Seq<Option<u64>>,
    unmade: Seq<usize>,
)
    ensures
        before == after ==> !moved(targets, before, after, unmade),
        (forall|i: int| 0 <= i < targets.len() ==> unmade.contains(#[trigger] targets[i]))
            ==> !moved(targets, before, after, unmade),
{
}

/// What building this pass's compiler inputs decided about the next one.
#[derive(Debug)]
pub enum Settlement {
    /// The run is over.
    Finished(RunResult),
    /// Something the read depends on changed, so the Makefile has to be read
    /// again on the new text.
    Restart,
    /// Work a recursive unit waits for is done, so the read goes on from it.
    Staged,
    /// Nothing changed. This graph is the compilation the goals build from.
    Settled,
}

/// What is done once the Makefiles have been brought up to date.
#[derive(Debug)]
pub enum AfterUpdate {
    /// The pass is decided, whatever closing the logs comes to.
    Over(Settlement),
    /// The pass is decided once the logs are closed, and fails where they cannot
    /// be.
    Close(Settlement),
    /// The staged work is next, over a graph that has been told which Makefiles
    /// were remade and which were lost.
    Stage { remade: Vec<usize>, unmade: Vec<usize> },
}

/// What bringing the Makefiles up to date decides, a required Makefile nothing
/// can make ending the run on a restart as well as on a settlement.
pub fn after_update(
    remaking: Remaking,
    refusals: Option<Vec<(Option<Vec<u8>>, Vec<u8>)>>,
    reported: Vec<u8>,
) -> (next: AfterUpdate)
    ensures
        match remaking {
            Remaking::Finished(result) => next == AfterUpdate::Over(
                Settlement::Finished(result),
            ),
            _ => match refusals {
                Some(refused) => {
                    &&& next is Close
                    &&& next->Close_0 is Finished
                    &&& next->Close_0->Finished_0.model() == (Reported {
                        stdout: crate::bytes::ended(reported@),
                        stderr: refusal_lines(refused@),
                        exit_code: ABANDONED,
                    })
                },
                None => match remaking {
                    Remaking::Settled { remade, unmade } => next == (AfterUpdate::Stage {
                        remade,
                        unmade,
                    }),
                    _ => next == AfterUpdate::Close(Settlement::Restart),
                },
            },
        },
{
    match remaking {
        Remaking::Finished(result) => AfterUpdate::Over(Settlement::Finished(result)),
        Remaking::Restart => match refusals {
            Some(refused) => AfterUpdate::Close(
                Settlement::Finished(refused_makefile(reported, &refused)),
            ),
            None => AfterUpdate::Close(Settlement::Restart),
        },
        Remaking::Settled { remade, unmade } => match refusals {
            Some(refused) => AfterUpdate::Close(
                Settlement::Finished(refused_makefile(reported, &refused)),
            ),
            None => AfterUpdate::Stage { remade, unmade },
        },
    }
}

/// What a question answered once the logs are flushed: a failure to flush them
/// counts where the question itself did not fail.
pub open spec fn flushed_question(
    question: Result<bool, BuildFailure>,
    flushed: Result<(), BuildFailure>,
) -> Result<bool, BuildFailure> {
    match question {
        Err(failure) => Err(failure),
        Ok(up_to_date) => match flushed {
            Ok(_) => Ok(up_to_date),
            Err(failure) => Err(failure),
        },
    }
}

/// What the staged work decides, `boundaries` being whether a unit waits for
/// any of it and `flushed` what closing the logs came to.
///
/// A read that goes on from staged work starts from closed logs, so logs that
/// could not be closed end the run. A run that is over is over without them, and
/// one that goes on to its goals leaves them open.
pub fn after_staging(
    pass: Pass,
    boundaries: bool,
    flushed: Result<(), BuildFailure>,
    reported: Vec<u8>,
    keep_going: bool,
    interrupted: bool,
) -> (settlement: Result<Settlement, BuildFailure>)
    ensures
        match pass {
            Pass::Finished(result) => settlement == Ok::<Settlement, BuildFailure>(
                Settlement::Finished(result),
            ),
            Pass::Answered(question) => {
                &&& settlement is Ok
                &&& settlement->Ok_0 is Finished
                &&& settlement->Ok_0->Finished_0.model() == (if interrupted {
                    interrupted_run(reported@)
                } else {
                    match flushed_question(question, flushed) {
                        Ok(up_to_date) => Reported {
                            stdout: crate::bytes::ended(reported@),
                            stderr: Seq::empty(),
                            exit_code: if up_to_date {
                                0
                            } else {
                                1
                            },
                        },
                        Err(failure) => Reported {
                            stdout: crate::bytes::ended(reported@),
                            stderr: crate::bytes::ended(said(failure.said@)),
                            exit_code: if keep_going && failure.refused_a_questioned_makefile {
                                1
                            } else {
                                2
                            },
                        },
                    }
                })
            },
            _ => settlement == (if pass is Current && !boundaries {
                Ok::<Settlement, BuildFailure>(Settlement::Settled)
            } else {
                match flushed {
                    Ok(_) => Ok(Settlement::Staged),
                    Err(failure) => Err(failure),
                }
            }),
        },
{
    match pass {
        Pass::Finished(result) => Ok(Settlement::Finished(result)),
        Pass::Answered(question) => {
            let flushed_answer: Result<bool, BuildFailure> = match question {
                Err(failure) => Err(failure),
                Ok(up_to_date) => match flushed {
                    Ok(_) => Ok(up_to_date),
                    Err(failure) => Err(failure),
                },
            };
            Ok(Settlement::Finished(answered(reported, flushed_answer, keep_going, interrupted)))
        },
        _ => {
            if matches!(pass, Pass::Current) && !boundaries {
                return Ok(Settlement::Settled);
            }
            match flushed {
                Ok(_) => Ok(Settlement::Staged),
                Err(failure) => Err(failure),
            }
        },
    }
}

/// The Makefiles one subset of the update lost over.
pub open spec fn lost_over(subset: Subset, planned: Planned) -> Seq<usize> {
    match planned {
        Planned::Ran(outcome) => if subset.targets@.len() > 0 && outcome.exit_code != 0 {
            outcome.unmade@
        } else {
            Seq::empty()
        },
        _ => Seq::empty(),
    }
}

impl Passes {
    /// Take one subset of the makefile update, planned and run, into the update
    /// as a whole, and say what the run ends with where a Makefile the read
    /// needs was lost.
    pub fn remake_makefiles(
        &mut self,
        update: &mut Update,
        subset: &Subset,
        planned: Planned,
        stamps: &Stamps,
    ) -> (over: Option<RunResult>)
        requires
            stamps.before@.len() == subset.targets@.len(),
            stamps.after@.len() == subset.targets@.len(),
        ensures
            final(self).keeps(*old(self)),
            ({
                let refused = match planned {
                    Planned::Refused(_) => true,
                    Planned::Ran(outcome) => outcome.exit_code != 0,
                    Planned::UpToDate => false,
                };
                let lost = lost_over(*subset, planned);
                if subset.targets@.len() > 0 && refused && !subset.forgive {
                    &&& over matches Some(result) && old(self).passed(
                        subset.targets@,
                        planned,
                        false,
                        Pass::Finished(result),
                    )
                    &&& *final(update) == *old(update)
                    &&& final(self).reported@ == Seq::<u8>::empty()
                } else {
                    &&& over is None
                    &&& final(update).restart == (old(update).restart || moved(
                        subset.targets@,
                        stamps.before@,
                        stamps.after@,
                        lost,
                    ))
                    &&& final(update).remade@ == old(update).remade@ + kept(subset.targets@, lost)
                    &&& final(update).unmade@ == old(update).unmade@ + lost
                    &&& final(self).reported@ == (match planned {
                        Planned::Ran(outcome) => if subset.targets@.len() > 0 {
                            old(self).reported@ + lossy(outcome.output@)
                        } else {
                            old(self).reported@
                        },
                        _ => old(self).reported@,
                    })
                }
            }),
    {
        let pass: Pass = self.run(&subset.targets, planned, subset.forgive);
        assert(pass is Lost ==> pass->Lost_0@ =~= lost_over(*subset, planned));
        update.take_in(self, &subset.targets, pass, stamps, false)
    }
}

} // verus!
