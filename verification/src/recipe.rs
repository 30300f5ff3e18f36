//! Recipes expanded when their edge is about to run.
//!
//! A recipe is expanded immediately before it is run, and only for a target
//! that is to be remade. Two decisions stand around that expansion: what an
//! edge that is about to run asks for, and what the expanded recipe becomes.

use crate::artifact::{models, CommandLayout, LateStep, SettledSteps, StepModel, Recorded};
use crate::bytes::{append, copied, maybe, text};
use crate::codec::Flag;
use crate::error::message;
use crate::graph::shell_path;
use crate::layout::{
    changes_of, copied_changes, copied_steps, last_change, makeflags_remaking, mflags_remaking,
    EnvironmentChange, LaunchedScript, RecipeStep, Script, Spelled, RESPONSE_FILE_THRESHOLD,
};
use crate::report::{body_of, diagnostic_body};
use crate::table::Table;
use vstd::prelude::*;

verus! {

/// One compilation unit's unexpanded recipes: what wraps each of them, and
/// where they expand.
#[derive(Debug)]
pub struct RecipeUnit {
    pub layout: CommandLayout,
    /// Where this unit's Makefile was read, and so where its recipes expand.
    pub directory: Vec<u8>,
}

/// Every unexpanded recipe a build may still have to expand.
///
/// One collection covers the whole compilation rather than one per unit,
/// because the graph is one graph: an edge is looked up by its own identity
/// and finds the unit whose Makefile wrote it.
#[derive(Debug)]
pub struct PendingRecipes {
    pub units: Vec<RecipeUnit>,
    /// For each edge left unexpanded, its unit and which of that unit's recipes
    /// it runs.
    pub edges: Table<usize, (usize, usize)>,
    /// Edges whose recipe was read while the graph was built, with the launches
    /// its lines became.
    pub settled: Table<usize, SettledSteps>,
    /// Whether the build now running is the makefile update.
    pub remaking_makefiles: bool,
}

/// What an edge about to run asks for.
#[derive(Debug)]
pub enum Wanted {
    /// Nothing: the graph says what it runs.
    Settled,
    /// These launches.
    Steps(Vec<LateStep>),
    /// One of a unit's recipes has to be expanded first.
    Expand { unit: usize, recipe: usize },
}

/// One command line of an expanded recipe, with how its pieces are spelled for
/// a shell in the phase now running.
#[derive(Debug)]
pub struct ExpandedStep {
    pub step: RecipeStep,
    pub spelled: Spelled,
}

/// One recipe, expanded.
#[derive(Debug)]
pub struct ExpandedRecipe {
    /// Whether every line expanded to nothing.
    pub runs_nothing: bool,
    pub shell: Vec<u8>,
    pub shell_flags: Vec<u8>,
    pub script: Vec<u8>,
    /// How the script's launch is spelled for a shell in the phase now running.
    pub spelled: Spelled,
    pub recipe_environment: Vec<EnvironmentChange>,
    pub steps: Vec<ExpandedStep>,
    pub description: Option<Vec<u8>>,
    pub ignore_errors: bool,
}

/// Why a recipe could not be expanded.
#[derive(Debug, PartialEq, Eq)]
pub enum Unexpanded {
    /// The directory it expands in could not be entered or left, and this is
    /// what is said of it.
    Misplaced(Vec<u8>),
    /// The evaluator failed, and this is its whole account of it.
    Failed(Vec<u8>),
}

impl Unexpanded {
    /// What is said of it, as its model: the evaluator's account without the
    /// parts that only name the program and the stop.
    pub open spec fn reason(self) -> Seq<u8> {
        match self {
            Unexpanded::Misplaced(said) => said@,
            Unexpanded::Failed(failure) => body_of(failure@),
        }
    }

    /// What is said of it.
    pub fn why(self) -> (said: Vec<u8>)
        ensures
            said@ == self.reason(),
    {
        match self {
            Unexpanded::Misplaced(said) => said,
            Unexpanded::Failed(failure) => diagnostic_body(&failure),
        }
    }
}

/// What an expanded recipe is run as.
#[derive(Debug)]
pub struct LateCommand {
    pub command: Vec<u8>,
    pub steps: Vec<LateStep>,
    pub description: Vec<u8>,
    pub rspfile: Option<Vec<u8>>,
    pub rspfile_content: Vec<u8>,
    pub ignore_errors: bool,
}

/// What an edge about to run turns out to be.
#[derive(Debug)]
pub enum LateBinding {
    /// What the graph says of it stands.
    Settled,
    /// It runs these launches, which were settled with the graph.
    Steps(Vec<LateStep>),
    /// It is complete without a command.
    Nothing,
    /// It runs this.
    Run(LateCommand),
}

/// A map with the first `count` of some entries put into it, a later one in the
/// place of an earlier one.
pub open spec fn with_entries<V>(
    map: Map<usize, V>,
    entries: Seq<(usize, V)>,
    count: int,
) -> Map<usize, V>
    decreases count,
{
    if count <= 0 {
        map
    } else {
        with_entries(map, entries, count - 1).insert(entries[count - 1].0, entries[count - 1].1)
    }
}

/// The edges of one unit, each with the unit beside its recipe.
pub open spec fn of_unit(unit: usize, edges: Seq<(usize, usize)>) -> Seq<(usize, (usize, usize))> {
    Seq::new(edges.len(), |i: int| (edges[i].0, (unit, edges[i].1)))
}

impl PendingRecipes {
    /// Each edge is there once, and each unexpanded one has a unit.
    pub open spec fn wf(&self) -> bool {
        &&& self.edges.wf()
        &&& self.settled.wf()
        &&& forall|edge: usize| #[trigger]
            self.edges@.dom().contains(edge) ==> self.edges@[edge].0 < self.units@.len()
    }

    /// Nothing admitted yet.
    pub fn new() -> (recipes: Self)
        ensures
            recipes.wf(),
            recipes.units@.len() == 0,
            recipes.edges@ == Map::<usize, (usize, usize)>::empty(),
            recipes.settled@ == Map::<usize, SettledSteps>::empty(),
            !recipes.remaking_makefiles,
    {
        PendingRecipes {
            units: Vec::new(),
            edges: Table::new(),
            settled: Table::new(),
            remaking_makefiles: false,
        }
    }

    /// Say whether the builds that follow are the makefile update.
    pub fn remaking_makefiles(&mut self, remaking: bool)
        ensures
            *final(self) == (PendingRecipes { remaking_makefiles: remaking, ..*old(self) }),
    {
        self.remaking_makefiles = remaking;
    }

    /// Retain the launches of one unit's recipes that were read while the graph
    /// was built.
    pub fn admit_settled(&mut self, edges: Vec<(usize, SettledSteps)>)
        requires
            old(self).wf(),
        ensures
            final(self).wf(),
            final(self).settled@ == with_entries(
                old(self).settled@,
                edges@,
                edges@.len() as int,
            ),
            final(self).units == old(self).units,
            final(self).edges == old(self).edges,
            final(self).remaking_makefiles == old(self).remaking_makefiles,
    {
        let ghost all = edges@;
        let ghost before = self.settled@;
        let mut left: Vec<(usize, SettledSteps)> = edges;
        let count: usize = left.len();
        let mut at: usize = 0;
        assert(all.skip(0) =~= all);
        while at < count
            invariant
                at <= count,
                count == all.len(),
                left@ == all.skip(at as int),
                self.wf(),
                self.settled@ == with_entries(before, all, at as int),
                self.units == old(self).units,
                self.edges == old(self).edges,
                self.remaking_makefiles == old(self).remaking_makefiles,
            decreases count - at,
        {
            let (edge, steps) = left.remove(0);
            self.settled.put(edge, steps);
            assert(left@ =~= all.skip(at as int + 1));
            at += 1;
        }
    }

    /// Retain one unit and the recipes it left unexpanded, by the edge that
    /// runs each one.
    pub fn admit_unit(&mut self, layout: CommandLayout, directory: Vec<u8>, edges: &[(usize, usize)])
        requires
            old(self).wf(),
        ensures
            final(self).wf(),
            final(self).units@ == old(self).units@.push(RecipeUnit { layout, directory }),
            final(self).edges@ == with_entries(
                old(self).edges@,
                of_unit(old(self).units@.len() as usize, edges@),
                edges@.len() as int,
            ),
            final(self).settled == old(self).settled,
            final(self).remaking_makefiles == old(self).remaking_makefiles,
    {
        let unit: usize = self.units.len();
        self.units.push(RecipeUnit { layout, directory });
        let ghost before = self.edges@;
        let ghost added = of_unit(unit, edges@);
        let ghost units = self.units;
        let mut at: usize = 0;
        while at < edges.len()
            invariant
                at <= edges@.len(),
                unit == old(self).units@.len(),
                unit < units@.len(),
                added == of_unit(unit, edges@),
                self.edges.wf(),
                self.settled == old(self).settled,
                self.settled.wf(),
                self.units == units,
                self.remaking_makefiles == old(self).remaking_makefiles,
                self.edges@ == with_entries(before, added, at as int),
                forall|edge: usize| #[trigger]
                    self.edges@.dom().contains(edge) ==> self.edges@[edge].0 < units@.len(),
            decreases edges@.len() - at,
        {
            self.edges.put(edges[at].0, (unit, edges[at].1));
            at += 1;
        }
    }

    /// Whether this has nothing to say about any edge at all.
    pub fn is_empty(&self) -> (answer: bool)
        requires
            self.wf(),
        ensures
            answer == (self.edges@.dom() =~= Set::empty() && self.settled@.dom() =~= Set::empty()),
    {
        proof {
            crate::table::mapped_keys(self.edges.entries@);
            crate::table::mapped_keys(self.settled.entries@);
            if self.edges.entries@.len() > 0 {
                crate::table::mapped_value(self.edges.entries@, 0);
            }
            if self.settled.entries@.len() > 0 {
                crate::table::mapped_value(self.settled.entries@, 0);
            }
        }
        self.edges.entries.len() == 0 && self.settled.entries.len() == 0
    }

    /// What an edge that is about to run asks for.
    ///
    /// The launches are copied rather than taken: a graph is built over more
    /// than once.
    pub fn wanted(&self, edge: usize) -> (wanted: Wanted)
        requires
            self.wf(),
        ensures
            self.edges@.dom().contains(edge) ==> wanted == (Wanted::Expand {
                unit: self.edges@[edge].0,
                recipe: self.edges@[edge].1,
            }) && self.edges@[edge].0 < self.units@.len(),
            !self.edges@.dom().contains(edge) ==> {
                let steps = if self.remaking_makefiles && self.settled@[edge].while_remaking
                    is Some {
                    self.settled@[edge].while_remaking->0@
                } else {
                    self.settled@[edge].ordinary@
                };
                if self.settled@.dom().contains(edge) && steps.len() > 0 {
                    wanted is Steps && models(wanted->Steps_0@) == models(steps)
                } else {
                    wanted is Settled
                }
            },
    {
        if let Some(held) = self.edges.get(&edge) {
            return Wanted::Expand { unit: held.0, recipe: held.1 };
        }
        if let Some(settled) = self.settled.get(&edge) {
            let steps: &Vec<LateStep> = settled.during(self.remaking_makefiles);
            if steps.len() > 0 {
                return Wanted::Steps(copied_steps(steps));
            }
        }
        Wanted::Settled
    }
}

/// What a recipe's launch changes about the environment, as its model: what the
/// target's own scope does, and in the makefile update what that does behind it.
pub open spec fn scope_model(
    layout: CommandLayout,
    environment: Seq<(Seq<u8>, Option<Seq<u8>>)>,
    remaking: bool,
) -> Seq<(Seq<u8>, Option<Seq<u8>>)> {
    if remaking {
        environment + layout.remaking_changes(environment)
    } else {
        environment
    }
}

impl RecipeUnit {
    /// What a recipe's launch changes about the environment.
    pub fn scope(&self, environment: &[EnvironmentChange], remaking: bool) -> (changes: Vec<
        EnvironmentChange,
    >)
        ensures
            changes_of(changes@) == scope_model(self.layout, changes_of(environment@), remaking),
    {
        let mut changes: Vec<EnvironmentChange> = copied_changes(environment);
        if remaking {
            let mut more: Vec<EnvironmentChange> = self.layout.while_remaking_makefiles(
                environment,
            );
            let ghost first = changes@;
            let ghost second = more@;
            changes.append(&mut more);
            assert(changes@ =~= first + second);
            assert(changes_of(changes@) =~= changes_of(first) + changes_of(second));
        }
        changes
    }

    /// Whether launches are what an expanded recipe becomes: a launch for each
    /// line, or one for the whole script where a line is too long to be an
    /// argument and the recipe names no shell of its own.
    pub open spec fn launches(
        &self,
        steps: Seq<LateStep>,
        expanded: ExpandedRecipe,
        output: Seq<u8>,
        changed: Seq<EnvironmentChange>,
    ) -> bool {
        let lines = expanded.steps@;
        models(steps) == (if lines_launch(lines) {
            line_models(self.layout, lines, changed, lines.len() as int)
        } else if expanded.shell@ == text("/bin/sh") {
            seq![
                (
                    self.layout.direct_model(
                        if expanded.script@.len() > RESPONSE_FILE_THRESHOLD {
                            seq![expanded.shell@] + crate::bytes::fields(
                                expanded.spelled.file_flags@,
                            ) + seq![self.layout.response_path(output)]
                        } else {
                            seq![expanded.shell@] + crate::bytes::fields(expanded.shell_flags@)
                                + seq![expanded.script@]
                        },
                        changed,
                    ),
                    (Flag { value: expanded.ignore_errors }, Flag { value: false }),
                ),
            ]
        } else {
            Seq::empty()
        })
    }

    /// Whether a command is what an expanded recipe is run as.
    pub open spec fn runs(
        &self,
        command: LateCommand,
        expanded: ExpandedRecipe,
        output: Seq<u8>,
        remaking: bool,
    ) -> bool {
        let long = expanded.script@.len() > RESPONSE_FILE_THRESHOLD;
        &&& command.command@ == if long {
            self.layout.file_line(
                expanded.spelled.environment@,
                expanded.shell@,
                expanded.spelled.file_flags@,
                shell_path(self.layout.response_path(output)),
            )
        } else {
            self.layout.argument_line(
                expanded.spelled.environment@,
                expanded.shell@,
                expanded.shell_flags@,
                expanded.spelled.script@,
            )
        }
        &&& exists|changed: Seq<EnvironmentChange>|
            changes_of(changed) == scope_model(
                self.layout,
                changes_of(expanded.recipe_environment@),
                remaking,
            ) && #[trigger] self.launches(command.steps@, expanded, output, changed)
        &&& command.description@ == match expanded.description {
            Some(said) => said@,
            None => if long {
                Seq::empty()
            } else {
                expanded.script@
            },
        }
        &&& maybe(command.rspfile) == if long {
            Some(self.layout.response_path(output))
        } else {
            None
        }
        &&& command.rspfile_content@ == if long {
            expanded.script@
        } else {
            Seq::empty()
        }
        &&& command.ignore_errors == expanded.ignore_errors
    }

    /// What an expanded recipe becomes for the edge producing `output`.
    ///
    /// A recipe whose every line expanded to nothing is complete without a
    /// command. Any other is handed over as a process for each of its lines,
    /// the assembled script staying as the one name the recipe has.
    pub fn bound(&self, expanded: Option<ExpandedRecipe>, output: &[u8], remaking: bool) -> (binding:
        LateBinding)
        ensures
            match expanded {
                None => binding is Settled,
                Some(recipe) => if recipe.runs_nothing {
                    binding is Nothing
                } else {
                    binding is Run && self.runs(binding->Run_0, recipe, output@, remaking)
                },
            },
    {
        let recipe: ExpandedRecipe = match expanded {
            Some(recipe) => recipe,
            None => return LateBinding::Settled,
        };
        if recipe.runs_nothing {
            return LateBinding::Nothing;
        }
        let changed: Vec<EnvironmentChange> = self.scope(&recipe.recipe_environment, remaking);
        let launched: LaunchedScript = self.layout.launch(
            &recipe.shell,
            &recipe.shell_flags,
            &recipe.script,
            output,
            &recipe.spelled,
        );
        let steps: Vec<LateStep> = if launches_lines(&recipe.steps) {
            line_steps(&self.layout, &recipe.steps, &changed)
        } else {
            let mut steps: Vec<LateStep> = Vec::new();
            let script: Script<'_> = match &launched.response_file {
                Some(file) => Script::File(&file.0),
                None => Script::Argument(&recipe.script),
            };
            if let Some(launch) = self.layout.launch_script(
                &recipe.shell,
                &recipe.shell_flags,
                &recipe.spelled.file_flags,
                script,
                &changed,
            ) {
                let step: LateStep = LateStep {
                    launch,
                    ignore_errors: recipe.ignore_errors,
                    runs_while_pretending: false,
                };
                let ghost one = step;
                steps.push(step);
                assert(models(steps@) =~= seq![one.model()]);
            }
            assert(recipe.shell@ != text("/bin/sh") ==> models(steps@) =~= Seq::empty());
            steps
        };
        assert(self.launches(steps@, recipe, output@, changed@));
        let description: Vec<u8> = match &recipe.description {
            Some(said) => copied(said),
            None => match &launched.response_file {
                Some(_) => Vec::new(),
                None => copied(&recipe.script),
            },
        };
        assert(recipe.description is None && recipe.script@.len() > RESPONSE_FILE_THRESHOLD
            ==> description@ =~= Seq::empty());
        let (rspfile, rspfile_content): (Option<Vec<u8>>, Vec<u8>) = match launched.response_file {
            Some((path, content)) => (Some(path), content),
            None => (None, Vec::new()),
        };
        assert(recipe.script@.len() <= RESPONSE_FILE_THRESHOLD ==> rspfile_content@ =~= Seq::empty());
        let command: LateCommand = LateCommand {
            command: launched.command,
            steps,
            description,
            rspfile,
            rspfile_content,
            ignore_errors: recipe.ignore_errors,
        };
        assert(self.launches(command.steps@, recipe, output@, changed@));
        assert(self.runs(command, recipe, output@, remaking));
        LateBinding::Run(command)
    }
}

/// Whether every line of an expanded recipe can be launched on its own.
pub open spec fn lines_launch(lines: Seq<ExpandedStep>) -> bool {
    lines.len() > 0 && forall|i: int|
        0 <= i < lines.len() ==> (#[trigger] lines[i]).step.text@.len() <= RESPONSE_FILE_THRESHOLD
}

/// The launches of the first `count` lines, as their models.
pub open spec fn line_models(
    layout: CommandLayout,
    lines: Seq<ExpandedStep>,
    changed: Seq<EnvironmentChange>,
    count: int,
) -> Seq<StepModel>
    decreases count,
{
    if count <= 0 {
        Seq::empty()
    } else {
        let line = lines[count - 1];
        line_models(layout, lines, changed, count - 1).push(
            (
                layout.step_model(line.step, changed, line.spelled),
                (
                    Flag { value: line.step.ignore_error },
                    Flag { value: line.step.recursive_line },
                ),
            ),
        )
    }
}

/// Whether every line of an expanded recipe can be launched on its own.
fn launches_lines(lines: &[ExpandedStep]) -> (answer: bool)
    ensures
        answer == lines_launch(lines@),
{
    if lines.len() == 0 {
        return false;
    }
    let mut at: usize = 0;
    while at < lines.len()
        invariant
            at <= lines@.len(),
            forall|i: int|
                0 <= i < at ==> (#[trigger] lines@[i]).step.text@.len() <= RESPONSE_FILE_THRESHOLD,
        decreases lines@.len() - at,
    {
        if lines[at].step.text.len() > RESPONSE_FILE_THRESHOLD {
            return false;
        }
        at += 1;
    }
    true
}

/// A launch for each line.
fn line_steps(
    layout: &CommandLayout,
    lines: &[ExpandedStep],
    changed: &[EnvironmentChange],
) -> (steps: Vec<LateStep>)
    ensures
        models(steps@) == line_models(*layout, lines@, changed@, lines@.len() as int),
{
    let mut steps: Vec<LateStep> = Vec::new();
    let mut at: usize = 0;
    assert(models(steps@) =~= Seq::empty());
    while at < lines.len()
        invariant
            at <= lines@.len(),
            models(steps@) == line_models(*layout, lines@, changed@, at as int),
        decreases lines@.len() - at,
    {
        let step: LateStep = LateStep {
            launch: layout.launch_step(&lines[at].step, changed, &lines[at].spelled),
            ignore_errors: lines[at].step.ignore_error,
            runs_while_pretending: lines[at].step.recursive_line,
        };
        let ghost before = models(steps@);
        let ghost added = step.model();
        steps.push(step);
        assert(models(steps@) =~= before.push(added));
        at += 1;
    }
    steps
}

impl PendingRecipes {
    /// The launches an edge whose recipe was read with the graph runs in the
    /// phase now running, none where the graph says what it runs.
    pub open spec fn steps_of(&self, edge: usize) -> Seq<LateStep> {
        if !self.settled@.dom().contains(edge) {
            Seq::empty()
        } else if self.remaking_makefiles && self.settled@[edge].while_remaking is Some {
            self.settled@[edge].while_remaking->0@
        } else {
            self.settled@[edge].ordinary@
        }
    }

    /// What an edge about to run turns out to be, `expansion` being what
    /// expanding its recipe came to where [`PendingRecipes::wanted`] asks for
    /// one.
    pub fn command(
        &self,
        edge: usize,
        output: &[u8],
        expansion: Result<Option<ExpandedRecipe>, Unexpanded>,
    ) -> (binding: Result<LateBinding, Vec<u8>>)
        requires
            self.wf(),
        ensures
            if !self.edges@.dom().contains(edge) {
                &&& binding is Ok
                &&& if self.steps_of(edge).len() > 0 {
                    binding->Ok_0 is Steps && models(binding->Ok_0->Steps_0@) == models(
                        self.steps_of(edge),
                    )
                } else {
                    binding->Ok_0 is Settled
                }
            } else {
                match expansion {
                    Err(failure) => binding is Err && binding->Err_0@ == failure.reason(),
                    Ok(None) => binding is Ok && binding->Ok_0 is Settled,
                    Ok(Some(recipe)) => {
                        &&& binding is Ok
                        &&& if recipe.runs_nothing {
                            binding->Ok_0 is Nothing
                        } else {
                            binding->Ok_0 is Run && self.units@[self.edges@[edge].0 as int].runs(
                                binding->Ok_0->Run_0,
                                recipe,
                                output@,
                                self.remaking_makefiles,
                            )
                        }
                    },
                }
            },
    {
        match self.wanted(edge) {
            Wanted::Settled => Ok(LateBinding::Settled),
            Wanted::Steps(steps) => Ok(LateBinding::Steps(steps)),
            Wanted::Expand { unit, recipe } => match expansion {
                Err(failure) => Err(failure.why()),
                Ok(expanded) => Ok(
                    self.units[unit].bound(expanded, output, self.remaking_makefiles),
                ),
            },
        }
    }
}

/// What expanding a recipe in another directory comes to, `returned` being
/// whether the way back was found: a failure to go back is worth reporting only
/// where there is nothing worse.
pub fn expanded_in<T>(
    expanded: Result<T, Unexpanded>,
    returned: Result<(), Vec<u8>>,
    left: &[u8],
) -> (got: Result<T, Unexpanded>)
    ensures
        match (expanded, returned) {
            (Err(failure), _) => got == Err::<T, Unexpanded>(failure),
            (Ok(recipe), Ok(_)) => got == Ok::<T, Unexpanded>(recipe),
            (Ok(_), Err(error)) => got matches Err(Unexpanded::Misplaced(said)) && said@ == text(
                "returning to '",
            ) + left@ + text("' after expanding a recipe: ") + error@,
        },
{
    match (expanded, returned) {
        (Err(failure), _) => Err(failure),
        (Ok(recipe), Ok(_)) => Ok(recipe),
        (Ok(_), Err(error)) => {
            let mut said: Vec<u8> = message("returning to '", left);
            append(&mut said, "' after expanding a recipe: ".as_bytes());
            append(&mut said, &error);
            Err(Unexpanded::Misplaced(said))
        },
    }
}

/// What one unit admits stays what it was when another unit is admitted, but for
/// the edges the other names.
pub proof fn admitting_leaves_the_rest(
    edges: Map<usize, (usize, usize)>,
    added: Seq<(usize, (usize, usize))>,
    count: int,
    edge: usize,
)
    requires
        0 <= count <= added.len(),
        forall|i: int| 0 <= i < count ==> (#[trigger] added[i]).0 != edge,
    ensures
        with_entries(edges, added, count).dom().contains(edge) <==> edges.dom().contains(edge),
        edges.dom().contains(edge) ==> with_entries(edges, added, count)[edge] == edges[edge],
    decreases count,
{
    if count > 0 {
        admitting_leaves_the_rest(edges, added, count - 1, edge);
        assert(added[count - 1].0 != edge);
    }
}

/// An expanded recipe is run as it was expanded: its script where Make would have
/// run it, through a file of its own where it is too long to be an argument, its
/// own description or the script for one, and its failure forgiven where and only
/// where it said so. Where every line can be launched on its own there is a launch
/// for each, in their order, each forgiven and run under a pretence as its line
/// said.
pub proof fn a_late_command_runs_its_recipe(
    unit: RecipeUnit,
    command: LateCommand,
    expanded: ExpandedRecipe,
    output: Seq<u8>,
    remaking: bool,
)
    requires
        unit.runs(command, expanded, output, remaking),
    ensures
        command.ignore_errors == expanded.ignore_errors,
        expanded.script@.len() > 100_000 <==> command.rspfile is Some,
        command.rspfile matches Some(file) ==> file@ == unit.layout.response_path(output)
            && command.rspfile_content@ == expanded.script@,
        command.rspfile is None ==> command.rspfile_content@.len() == 0,
        command.rspfile is None ==> command.command@ == unit.layout.prefix_of(
            expanded.spelled.environment@,
        ) + expanded.shell@ + text(" ") + expanded.shell_flags@ + text(" \"")
            + expanded.spelled.script@ + text("\""),
        command.rspfile is Some ==> command.command@ == unit.layout.prefix_of(
            expanded.spelled.environment@,
        ) + expanded.shell@ + text(" ") + (if expanded.spelled.file_flags@.len() > 0 {
            expanded.spelled.file_flags@ + text(" ")
        } else {
            Seq::empty()
        }) + shell_path(unit.layout.response_path(output)),
        expanded.description matches Some(said) ==> command.description@ == said@,
        expanded.description is None && command.rspfile is None ==> command.description@
            == expanded.script@,
        expanded.steps@.len() > 0 && (forall|i: int|
            0 <= i < expanded.steps@.len() ==> (#[trigger] expanded.steps@[i]).step.text@.len()
                <= 100_000) ==> command.steps@.len() == expanded.steps@.len() && (forall|i: int|
            0 <= i < expanded.steps@.len() ==> (#[trigger] command.steps@[i]).ignore_errors
                == expanded.steps@[i].step.ignore_error && command.steps@[i].runs_while_pretending
                == expanded.steps@[i].step.recursive_line),
        (exists|i: int|
            0 <= i < expanded.steps@.len() && (#[trigger] expanded.steps@[i]).step.text@.len()
                > 100_000) ==> command.steps@.len() <= 1 && (command.steps@.len() == 1
            <==> expanded.shell@ == text("/bin/sh")),
{
    let changed = choose|changed: Seq<EnvironmentChange>|
        changes_of(changed) == scope_model(
            unit.layout,
            changes_of(expanded.recipe_environment@),
            remaking,
        ) && #[trigger] unit.launches(command.steps@, expanded, output, changed);
    let lines = expanded.steps@;
    assert(models(command.steps@).len() == command.steps@.len());
    if lines_launch(lines) {
        each_line_is_launched(unit.layout, lines, changed, lines.len() as int);
        let launched = line_models(unit.layout, lines, changed, lines.len() as int);
        assert forall|i: int| 0 <= i < lines.len() implies (
        #[trigger] command.steps@[i]).ignore_errors == lines[i].step.ignore_error
            && command.steps@[i].runs_while_pretending == lines[i].step.recursive_line by {
            assert(models(command.steps@)[i] == command.steps@[i].model());
            assert(launched[i].1.0.value == lines[i].step.ignore_error);
        }
    }
}

proof fn each_line_is_launched(
    layout: CommandLayout,
    lines: Seq<ExpandedStep>,
    changed: Seq<EnvironmentChange>,
    count: int,
)
    requires
        0 <= count <= lines.len(),
    ensures
        ({
            let launched = line_models(layout, lines, changed, count);
            &&& launched.len() == count
            &&& forall|i: int|
                0 <= i < count ==> (#[trigger] launched[i]).1.0.value == lines[i].step.ignore_error
                    && launched[i].1.1.value == lines[i].step.recursive_line && launched[i].0
                    == layout.step_model(lines[i].step, changed, lines[i].spelled)
        }),
    decreases count,
{
    if count > 0 {
        each_line_is_launched(layout, lines, changed, count - 1);
    }
}

/// Outside the makefile update a recipe's launch changes what its target's own
/// scope does and nothing else; in it, the switches a child is told are those of
/// the run without the pretending ones, and every other name is as it was.
pub proof fn only_the_update_changes_the_switches(
    layout: CommandLayout,
    environment: Seq<(Seq<u8>, Option<Seq<u8>>)>,
    other: Seq<u8>,
)
    requires
        other != text("MAKEFLAGS"),
        other != text("MFLAGS"),
    ensures
        scope_model(layout, environment, false) == environment,
        layout.held_under(other, scope_model(layout, environment, true)) == layout.held_under(
            other,
            environment,
        ),
        layout.held_under(text("MAKEFLAGS"), environment) matches Some(flags)
            ==> layout.held_under(text("MAKEFLAGS"), scope_model(layout, environment, true))
            == Some(makeflags_remaking(flags)),
        layout.held_under(text("MFLAGS"), environment) matches Some(flags) ==> layout.held_under(
            text("MFLAGS"),
            scope_model(layout, environment, true),
        ) == Some(mflags_remaking(flags)),
{
    let (long, short) = (text("MAKEFLAGS"), text("MFLAGS"));
    assert(long.len() == 9 && short.len() == 6) by {
        reveal_strlit("MAKEFLAGS");
        vstd::string::is_ascii_spec_bytes("MAKEFLAGS");
        reveal_strlit("MFLAGS");
        vstd::string::is_ascii_spec_bytes("MFLAGS");
    }
    let held = layout.held_under(long, environment);
    let dashed = layout.held_under(short, environment);
    let first = CommandLayout::remaking_change(
        long,
        held,
        makeflags_remaking(held.unwrap_or(Seq::empty())),
    );
    let second = CommandLayout::remaking_change(
        short,
        dashed,
        mflags_remaking(dashed.unwrap_or(Seq::empty())),
    );
    let middle = environment + first;
    assert(scope_model(layout, environment, true) =~= middle + second);
    a_last_word(environment, first, long);
    a_last_word(environment, first, short);
    a_last_word(environment, first, other);
    a_last_word(middle, second, long);
    a_last_word(middle, second, short);
    a_last_word(middle, second, other);
}

/// At most one change more is the last word on its own name, and none on any
/// other.
proof fn a_last_word(
    changes: Seq<(Seq<u8>, Option<Seq<u8>>)>,
    more: Seq<(Seq<u8>, Option<Seq<u8>>)>,
    name: Seq<u8>,
)
    requires
        more.len() <= 1,
    ensures
        last_change(changes + more, name) == (if more.len() == 1 && more[0].0 == name {
            Some(more[0].1)
        } else {
            last_change(changes, name)
        }),
{
    if more.len() == 1 {
        assert((changes + more).drop_last() =~= changes);
    } else {
        assert(changes + more =~= changes);
    }
}

} // verus!
