//! Starting a run from the composition the last one left.
//!
//! Every recipe number a record holds was minted in walk order, so it is
//! believed only where this emission agrees about what it is for: a walk that
//! disagreed with the recorded one would hand every edge somebody else's
//! recipe, and nothing about the number itself would look wrong.

use crate::artifact::{BuildArtifact, RecipeUnitArtifact, SettledSteps};
use crate::bytes::{copied, maybe, same, texts};
use crate::command::{
    arguments_of, evaluated_build_options, evaluated_controls, evaluated_invocation, BuildOptions,
    CliError,
};
use crate::graph::{shared_at, BuildGraph, GraphModel};
use crate::invocation::{nothing_asked, Invocation, Surroundings};
use crate::makeflags::words_in;
use crate::options::ArgumentSource;
use crate::parsing::words_read;
use crate::paths::{graph_path, qualified};
use crate::recipe::{of_unit, with_entries, PendingRecipes};
use crate::remake::Settlement;
use crate::report::{BuildFailure, RunResult};
use vstd::prelude::*;
use vstd::string::*;
use vstd::utf8::*;

verus! {

/// One unit whose evaluator was rebuilt from a record, and the output each of
/// its recipes is for, by the number this emission gave it.
#[derive(Debug)]
pub struct RebuiltUnit {
    pub key: Vec<u8>,
    pub path_prefix: Vec<u8>,
    pub deferred_outputs: Vec<(Vec<u8>, usize)>,
}

/// The edge that makes the file at a path.
pub open spec fn made_at(graph: GraphModel, path: Seq<u8>) -> Option<usize> {
    let node = shared_at(graph.nodes, path, 0);
    if 0 <= node < graph.nodes.len() {
        graph.nodes[node].generator
    } else {
        None
    }
}

fn edge_at(graph: &BuildGraph, path: &[u8]) -> (edge: Option<usize>)
    ensures
        edge == made_at(graph.model(), path@),
{
    match graph.lookup(path) {
        Some(node) => graph.generator(node),
        None => None,
    }
}

/// What a recipe number is for, the last to claim it having it.
pub open spec fn minted(outputs: Seq<(Vec<u8>, usize)>, recipe: usize) -> Option<Seq<u8>>
    decreases outputs.len(),
{
    if outputs.len() == 0 {
        None
    } else if outputs.last().1 == recipe {
        Some(outputs.last().0@)
    } else {
        minted(outputs.drop_last(), recipe)
    }
}

fn find_minted(outputs: &[(Vec<u8>, usize)], recipe: usize) -> (name: Option<Vec<u8>>)
    ensures
        maybe(name) == minted(outputs@, recipe),
{
    let mut left: usize = outputs.len();
    assert(outputs@.take(left as int) =~= outputs@);
    while left > 0
        invariant
            left <= outputs@.len(),
            minted(outputs@.take(left as int), recipe) == minted(outputs@, recipe),
        decreases left,
    {
        assert(outputs@.take(left as int).drop_last() =~= outputs@.take(left - 1));
        if outputs[left - 1].1 == recipe {
            return Some(copied(&outputs[left - 1].0));
        }
        left -= 1;
    }
    None
}

/// The edges of one unit, each with its recipe: those among the first `count`
/// recorded ones that are the unit's. Nothing where the graph has no such edge,
/// or where this emission says the recipe is for another output.
pub open spec fn unit_edges(
    graph: GraphModel,
    deferred: Seq<(Vec<u8>, (Vec<u8>, usize))>,
    unit: RebuiltUnit,
    count: int,
) -> Option<Seq<(usize, usize)>>
    decreases count,
{
    if count <= 0 {
        Some(Seq::empty())
    } else {
        match unit_edges(graph, deferred, unit, count - 1) {
            None => None,
            Some(before) => {
                let (output, (key, recipe)) = deferred[count - 1];
                if key@ != unit.key@ {
                    Some(before)
                } else {
                    match (
                        made_at(graph, output@),
                        minted(unit.deferred_outputs@, recipe),
                    ) {
                        (Some(edge), Some(name)) => if graph_path(unit.path_prefix@, name)
                            == output@ {
                            Some(before.push((edge, recipe)))
                        } else {
                            None
                        },
                        _ => None,
                    }
                }
            },
        }
    }
}

proof fn unit_edges_stay_missing(
    graph: GraphModel,
    deferred: Seq<(Vec<u8>, (Vec<u8>, usize))>,
    unit: RebuiltUnit,
    few: int,
    count: int,
)
    requires
        0 <= few <= count,
        unit_edges(graph, deferred, unit, few) is None,
    ensures
        unit_edges(graph, deferred, unit, count) is None,
    decreases count - few,
{
    if few < count {
        unit_edges_stay_missing(graph, deferred, unit, few + 1, count);
    }
}

fn find_unit_edges(
    graph: &BuildGraph,
    deferred: &[(Vec<u8>, (Vec<u8>, usize))],
    unit: &RebuiltUnit,
) -> (edges: Option<Vec<(usize, usize)>>)
    ensures
        match edges {
            Some(held) => unit_edges(graph.model(), deferred@, *unit, deferred@.len() as int)
                == Some(held@),
            None => unit_edges(graph.model(), deferred@, *unit, deferred@.len() as int) is None,
        },
{
    let ghost model = graph.model();
    let mut edges: Vec<(usize, usize)> = Vec::new();
    let mut at: usize = 0;
    assert(edges@ =~= Seq::empty());
    while at < deferred.len()
        invariant
            at <= deferred@.len(),
            model == graph.model(),
            unit_edges(model, deferred@, *unit, at as int) == Some(edges@),
        decreases deferred@.len() - at,
    {
        let ghost next = unit_edges(model, deferred@, *unit, at as int + 1);
        if same(&deferred[at].1.0, &unit.key) {
            let recipe: usize = deferred[at].1.1;
            let edge: Option<usize> = edge_at(graph, &deferred[at].0);
            let name: Option<Vec<u8>> = find_minted(&unit.deferred_outputs, recipe);
            match (edge, name) {
                (Some(edge), Some(name)) => {
                    let path: Vec<u8> = qualified(&unit.path_prefix, &name);
                    if !same(&path, &deferred[at].0) {
                        proof {
                            unit_edges_stay_missing(
                                model,
                                deferred@,
                                *unit,
                                at as int + 1,
                                deferred@.len() as int,
                            );
                        }
                        return None;
                    }
                    edges.push((edge, recipe));
                },
                _ => {
                    proof {
                        unit_edges_stay_missing(
                            model,
                            deferred@,
                            *unit,
                            at as int + 1,
                            deferred@.len() as int,
                        );
                    }
                    return None;
                },
            }
        }
        at += 1;
    }
    Some(edges)
}

/// Where a unit is recorded.
pub open spec fn recorded_at(units: Seq<RecipeUnitArtifact>, key: Seq<u8>, from: int) -> int
    decreases units.len() - from,
{
    if from < 0 || from >= units.len() {
        units.len() as int
    } else if units[from].key@ == key {
        from
    } else {
        recorded_at(units, key, from + 1)
    }
}

fn find_recorded(units: &[RecipeUnitArtifact], key: &[u8]) -> (at: usize)
    ensures
        at == recorded_at(units@, key@, 0),
        at <= units@.len(),
{
    let mut at: usize = 0;
    while at < units.len() && !same(&units[at].key, key)
        invariant
            at <= units@.len(),
            recorded_at(units@, key@, at as int) == recorded_at(units@, key@, 0),
        decreases units@.len() - at,
    {
        at += 1;
    }
    at
}

/// What the first `count` rebuilt units come to: which recorded unit each one
/// that is recorded is, and the edges they expand.
pub open spec fn assembled(
    graph: GraphModel,
    recorded: Seq<RecipeUnitArtifact>,
    deferred: Seq<(Vec<u8>, (Vec<u8>, usize))>,
    rebuilt: Seq<RebuiltUnit>,
    count: int,
) -> Option<(Seq<int>, Map<usize, (usize, usize)>)>
    decreases count,
{
    if count <= 0 {
        Some((Seq::empty(), Map::empty()))
    } else {
        match assembled(graph, recorded, deferred, rebuilt, count - 1) {
            None => None,
            Some((chosen, edges)) => {
                let unit = rebuilt[count - 1];
                let place = recorded_at(recorded, unit.key@, 0);
                if place >= recorded.len() {
                    Some((chosen, edges))
                } else {
                    match unit_edges(graph, deferred, unit, deferred.len() as int) {
                        None => None,
                        Some(held) => Some(
                            (
                                chosen.push(place),
                                with_entries(
                                    edges,
                                    of_unit(chosen.len() as usize, held),
                                    held.len() as int,
                                ),
                            ),
                        ),
                    }
                }
            },
        }
    }
}

proof fn assembled_stays_missing(
    graph: GraphModel,
    recorded: Seq<RecipeUnitArtifact>,
    deferred: Seq<(Vec<u8>, (Vec<u8>, usize))>,
    rebuilt: Seq<RebuiltUnit>,
    few: int,
    count: int,
)
    requires
        0 <= few <= count,
        assembled(graph, recorded, deferred, rebuilt, few) is None,
    ensures
        assembled(graph, recorded, deferred, rebuilt, count) is None,
    decreases count - few,
{
    if few < count {
        assembled_stays_missing(graph, recorded, deferred, rebuilt, few + 1, count);
    }
}

/// The first `count` settled recipes, each with the edge that runs it.
pub open spec fn settled_edges(
    graph: GraphModel,
    settled: Seq<(Vec<u8>, SettledSteps)>,
    count: int,
) -> Option<Seq<(usize, SettledSteps)>>
    decreases count,
{
    if count <= 0 {
        Some(Seq::empty())
    } else {
        match (
            settled_edges(graph, settled, count - 1),
            made_at(graph, settled[count - 1].0@),
        ) {
            (Some(before), Some(edge)) => Some(before.push((edge, settled[count - 1].1))),
            _ => None,
        }
    }
}

proof fn settled_stays_missing(
    graph: GraphModel,
    settled: Seq<(Vec<u8>, SettledSteps)>,
    few: int,
    count: int,
)
    requires
        0 <= few <= count,
        settled_edges(graph, settled, few) is None,
    ensures
        settled_edges(graph, settled, count) is None,
    decreases count - few,
{
    if few < count {
        settled_stays_missing(graph, settled, few + 1, count);
    }
}

fn find_settled(graph: &BuildGraph, settled: Vec<(Vec<u8>, SettledSteps)>) -> (edges: Option<
    Vec<(usize, SettledSteps)>,
>)
    ensures
        match edges {
            Some(held) => settled_edges(graph.model(), settled@, settled@.len() as int) == Some(
                held@,
            ),
            None => settled_edges(graph.model(), settled@, settled@.len() as int) is None,
        },
{
    let ghost model = graph.model();
    let ghost all = settled@;
    let mut left: Vec<(Vec<u8>, SettledSteps)> = settled;
    let count: usize = left.len();
    let mut edges: Vec<(usize, SettledSteps)> = Vec::new();
    let mut at: usize = 0;
    assert(all.skip(0) =~= all);
    assert(edges@ =~= Seq::empty());
    while at < count
        invariant
            at <= count,
            count == all.len(),
            all == settled@,
            model == graph.model(),
            left@ == all.skip(at as int),
            settled_edges(model, all, at as int) == Some(edges@),
        decreases count - at,
    {
        let (output, steps) = left.remove(0);
        assert(left@ =~= all.skip(at as int + 1));
        match edge_at(graph, &output) {
            Some(edge) => {
                edges.push((edge, steps));
            },
            None => {
                proof {
                    settled_stays_missing(model, all, at as int + 1, count as int);
                }
                return None;
            },
        }
        at += 1;
    }
    Some(edges)
}

/// Whether admitted units are the recorded ones that were chosen.
pub open spec fn wrapped_as(
    recipes: PendingRecipes,
    recorded: Seq<RecipeUnitArtifact>,
    chosen: Seq<int>,
) -> bool {
    &&& recipes.units@.len() == chosen.len()
    &&& forall|i: int|
        0 <= i < chosen.len() ==> {
            &&& 0 <= #[trigger] chosen[i] < recorded.len()
            &&& recipes.units@[i].layout.same_as(recorded[chosen[i]].layout)
            &&& recipes.units@[i].directory@ == recorded[chosen[i]].directory@
        }
}

/// Hold every rebuilt unit where the build can reach it, by the edge that runs
/// each recipe.
///
/// Nothing where the record names an edge this graph does not have, or where
/// this emission says a recorded number is for some other output than the edge
/// the record filed it under. A unit that is not recorded left no recipe.
pub fn assemble_recipes(
    graph: &BuildGraph,
    recorded: &[RecipeUnitArtifact],
    deferred: &[(Vec<u8>, (Vec<u8>, usize))],
    settled: Vec<(Vec<u8>, SettledSteps)>,
    rebuilt: &[RebuiltUnit],
) -> (recipes: Option<PendingRecipes>)
    ensures
        ({
            let edges = assembled(
                graph.model(),
                recorded@,
                deferred@,
                rebuilt@,
                rebuilt@.len() as int,
            );
            let launches = settled_edges(graph.model(), settled@, settled@.len() as int);
            match recipes {
                None => edges is None || launches is None,
                Some(held) => {
                    &&& edges is Some
                    &&& launches is Some
                    &&& held.wf()
                    &&& wrapped_as(held, recorded@, (edges->0).0)
                    &&& held.edges@ == (edges->0).1
                    &&& held.settled@ == with_entries(
                        Map::<usize, SettledSteps>::empty(),
                        launches->0,
                        launches->0.len() as int,
                    )
                    &&& !held.remaking_makefiles
                },
            }
        }),
{
    let ghost model = graph.model();
    let mut recipes: PendingRecipes = PendingRecipes::new();
    let ghost mut chosen: Seq<int> = Seq::empty();
    let mut at: usize = 0;
    while at < rebuilt.len()
        invariant
            at <= rebuilt@.len(),
            model == graph.model(),
            recipes.wf(),
            wrapped_as(recipes, recorded@, chosen),
            assembled(model, recorded@, deferred@, rebuilt@, at as int) == Some(
                (chosen, recipes.edges@),
            ),
            recipes.settled@ == Map::<usize, SettledSteps>::empty(),
            !recipes.remaking_makefiles,
        decreases rebuilt@.len() - at,
    {
        let place: usize = find_recorded(recorded, &rebuilt[at].key);
        if place < recorded.len() {
            match find_unit_edges(graph, deferred, &rebuilt[at]) {
                None => {
                    proof {
                        assembled_stays_missing(
                            model,
                            recorded@,
                            deferred@,
                            rebuilt@,
                            at as int + 1,
                            rebuilt@.len() as int,
                        );
                    }
                    return None;
                },
                Some(edges) => {
                    let ghost before = recipes;
                    recipes.admit_unit(
                        recorded[place].layout.copy(),
                        copied(&recorded[place].directory),
                        &edges,
                    );
                    proof {
                        let longer = chosen.push(place as int);
                        assert forall|i: int| 0 <= i < longer.len() implies {
                            &&& 0 <= #[trigger] longer[i] < recorded@.len()
                            &&& recipes.units@[i].layout.same_as(recorded@[longer[i]].layout)
                            &&& recipes.units@[i].directory@ == recorded@[longer[i]].directory@
                        } by {
                            if i < chosen.len() {
                                assert(longer[i] == chosen[i]);
                                assert(recipes.units@[i] == before.units@[i]);
                            }
                        }
                        chosen = longer;
                    }
                },
            }
        }
        at += 1;
    }
    match find_settled(graph, settled) {
        None => None,
        Some(edges) => {
            let ghost before = recipes;
            recipes.admit_settled(edges);
            assert(recipes.units == before.units);
            Some(recipes)
        },
    }
}

/// A recipe is believed only where this emission says its number is for the
/// output the record filed it under.
pub proof fn a_believed_recipe_is_for_its_output(
    graph: GraphModel,
    deferred: Seq<(Vec<u8>, (Vec<u8>, usize))>,
    unit: RebuiltUnit,
    count: int,
    at: int,
)
    requires
        0 <= at < count <= deferred.len(),
        unit_edges(graph, deferred, unit, count) is Some,
        deferred[at].1.0@ == unit.key@,
    ensures
        minted(unit.deferred_outputs@, deferred[at].1.1) is Some,
        graph_path(unit.path_prefix@, minted(unit.deferred_outputs@, deferred[at].1.1)->0)
            == deferred[at].0@,
        made_at(graph, deferred[at].0@) is Some,
    decreases count,
{
    if at < count - 1 {
        a_believed_recipe_is_for_its_output(graph, deferred, unit, count - 1, at);
    }
}

/// What the settled staging of a loaded composition leaves the invocation to
/// do.
#[derive(Debug)]
pub enum Prepared {
    /// The goals are built from the loaded graph.
    Ready,
    /// The run is over.
    Finished(RunResult),
}

/// What the settled staging of a loaded composition leaves the invocation to
/// do: nothing where the update remade something, because the composition it
/// remade is not the one that was loaded, and the makefiles are read.
pub fn prepared(settlement: Settlement) -> (next: Option<Prepared>)
    ensures
        next == (match settlement {
            Settlement::Finished(result) => Some(Prepared::Finished(result)),
            Settlement::Settled => Some(Prepared::Ready),
            _ => None,
        }),
{
    match settlement {
        Settlement::Finished(result) => Some(Prepared::Finished(result)),
        Settlement::Settled => Some(Prepared::Ready),
        _ => None,
    }
}

/// The nodes at some paths, as their model: none where one of them is not in
/// the graph.
pub open spec fn nodes_at(graph: GraphModel, paths: Seq<Seq<u8>>, count: int) -> Option<Seq<usize>>
    decreases count,
{
    if count <= 0 {
        Some(Seq::empty())
    } else {
        let node = shared_at(graph.nodes, paths[count - 1], 0);
        match nodes_at(graph, paths, count - 1) {
            Some(before) => if 0 <= node < graph.nodes.len() {
                Some(before.push(node as usize))
            } else {
                None
            },
            None => None,
        }
    }
}

proof fn nodes_stay_missing(graph: GraphModel, paths: Seq<Seq<u8>>, few: int, count: int)
    requires
        0 <= few <= count,
        nodes_at(graph, paths, few) is None,
    ensures
        nodes_at(graph, paths, count) is None,
    decreases count - few,
{
    if few < count {
        nodes_stay_missing(graph, paths, few + 1, count);
    }
}

fn find_nodes(graph: &BuildGraph, paths: &[Vec<u8>]) -> (nodes: Option<Vec<usize>>)
    ensures
        match nodes {
            Some(held) => nodes_at(graph.model(), texts(paths@), paths@.len() as int) == Some(
                held@,
            ),
            None => nodes_at(graph.model(), texts(paths@), paths@.len() as int) is None,
        },
{
    let ghost model = graph.model();
    let ghost all = texts(paths@);
    let mut nodes: Vec<usize> = Vec::new();
    let mut at: usize = 0;
    assert(nodes@ =~= Seq::empty());
    while at < paths.len()
        invariant
            at <= paths@.len(),
            model == graph.model(),
            all == texts(paths@),
            nodes_at(model, all, at as int) == Some(nodes@),
        decreases paths@.len() - at,
    {
        assert(all[at as int] == paths@[at as int]@);
        match graph.lookup(&paths[at]) {
            Some(node) => {
                nodes.push(node);
            },
            None => {
                proof {
                    nodes_stay_missing(model, all, at as int + 1, paths@.len() as int);
                }
                return None;
            },
        }
        at += 1;
    }
    Some(nodes)
}

/// A recursive wrapper that was settled clean, found in a loaded graph: its
/// edge, and the staged work its freshness was read from.
#[derive(Debug)]
pub struct CleanWrapper {
    pub edge: usize,
    pub staged: Vec<usize>,
}

/// Find a recursive wrapper that was settled clean in a loaded graph, whose
/// freshness has to be asked again before the graph is believed: it holds no
/// child for a wrapper that is dirty now.
pub fn clean_wrapper(graph: &BuildGraph, wrapper: &[u8], staged: &[Vec<u8>]) -> (found: Option<
    CleanWrapper,
>)
    ensures
        match (
            made_at(graph.model(), wrapper@),
            nodes_at(graph.model(), texts(staged@), staged@.len() as int),
        ) {
            (Some(edge), Some(nodes)) => found matches Some(held) && held.edge == edge
                && held.staged@ == nodes,
            _ => found is None,
        },
{
    let edge: usize = match edge_at(graph, wrapper) {
        Some(edge) => edge,
        None => return None,
    };
    match find_nodes(graph, staged) {
        Some(staged) => Some(CleanWrapper { edge, staged }),
        None => None,
    }
}

/// Whether a recursive wrapper that was settled clean is one a graph has.
pub open spec fn wrapper_is_there(graph: GraphModel, wrapper: (Vec<u8>, Vec<Vec<u8>>)) -> bool {
    made_at(graph, wrapper.0@) is Some && nodes_at(
        graph,
        texts(wrapper.1@),
        wrapper.1@.len() as int,
    ) is Some
}

/// Whether every recursive wrapper a composition settled clean is still clean
/// against the disk as it stands, `dirty` being what asking each of them came
/// to, nothing where it could not be asked.
///
/// One that is dirty now needs a child the graph does not hold.
pub fn wrappers_still_clean(
    graph: &BuildGraph,
    wrappers: &[(Vec<u8>, Vec<Vec<u8>>)],
    dirty: &[Option<bool>],
) -> (clean: bool)
    requires
        dirty@.len() == wrappers@.len(),
    ensures
        clean == forall|i: int|
            0 <= i < wrappers@.len() ==> wrapper_is_there(graph.model(), #[trigger] wrappers@[i])
                && dirty@[i] == Some(false),
{
    let ghost model = graph.model();
    let mut at: usize = 0;
    while at < wrappers.len()
        invariant
            at <= wrappers@.len(),
            dirty@.len() == wrappers@.len(),
            model == graph.model(),
            forall|i: int|
                0 <= i < at ==> wrapper_is_there(model, #[trigger] wrappers@[i]) && dirty@[i]
                    == Some(false),
        decreases wrappers@.len() - at,
    {
        let found: Option<CleanWrapper> = clean_wrapper(
            graph,
            &wrappers[at].0,
            &wrappers[at].1,
        );
        let unmoved: bool = matches!(dirty[at], Some(false));
        if found.is_none() || !unmoved {
            assert(!(wrapper_is_there(model, wrappers@[at as int]) && dirty@[at as int] == Some(
                false,
            )));
            return false;
        }
        at += 1;
    }
    true
}

/// What building from a loaded composition leaves the invocation to do.
///
/// Nothing where there was no composition to build from, where the staged work
/// moved a text one of the reads was made of, or where the makefile update
/// remade something: the makefiles are read.
pub fn warm_settled(
    settlement: Option<Result<Settlement, BuildFailure>>,
    sources_unmoved: bool,
) -> (next: Result<Option<Prepared>, BuildFailure>)
    ensures
        next == (match settlement {
            None => Ok(None),
            Some(Err(failure)) => Err(failure),
            Some(Ok(Settlement::Finished(result))) if sources_unmoved => Ok(
                Some(Prepared::Finished(result)),
            ),
            Some(Ok(Settlement::Settled)) if sources_unmoved => Ok(Some(Prepared::Ready)),
            _ => Ok::<Option<Prepared>, BuildFailure>(None),
        }),
{
    match settlement {
        None => Ok(None),
        Some(Err(failure)) => Err(failure),
        Some(Ok(settled)) => {
            if !sources_unmoved {
                return Ok(None);
            }
            Ok(prepared(settled))
        },
    }
}

/// What a run starts from where the composition the last one left is believed.
#[derive(Debug)]
pub struct WarmStart {
    pub recipes: PendingRecipes,
    /// The widest budget any unit asked to run at.
    pub job_budget: usize,
    /// What the makefiles settled on.
    pub invocation: Invocation,
    pub options: BuildOptions,
}

/// Whether a record that was loaded may be built from: it settled, every unit of
/// it was rebuilt, its clean wrappers are clean still, and its recipes are for
/// the outputs it says.
pub open spec fn believed(
    graph: GraphModel,
    build: Option<BuildArtifact>,
    rebuilt: Option<Vec<RebuiltUnit>>,
    dirty: Seq<Option<bool>>,
) -> bool {
    match (build, rebuilt) {
        (Some(held), Some(units)) => {
            &&& forall|i: int|
                0 <= i < held.clean_wrappers@.len() ==> wrapper_is_there(
                    graph,
                    #[trigger] held.clean_wrappers@[i],
                ) && dirty[i] == Some(false)
            &&& assembled(
                graph,
                held.units@,
                held.deferred@,
                units@,
                units@.len() as int,
            ) is Some
            &&& settled_edges(graph, held.settled@, held.settled@.len() as int) is Some
        },
        _ => false,
    }
}

/// What a run starts from, or nothing where it has to read its makefiles.
///
/// The switches are the ones the makefiles settled on, read off the record
/// rather than off a read.
pub fn warm_start(
    graph: &BuildGraph,
    build: Option<BuildArtifact>,
    rebuilt: Option<Vec<RebuiltUnit>>,
    dirty: &[Option<bool>],
    initial: &BuildOptions,
    around: Surroundings,
) -> (start: Result<Option<WarmStart>, CliError>)
    requires
        build matches Some(held) ==> dirty@.len() == held.clean_wrappers@.len(),
    ensures
        !believed(graph.model(), build, rebuilt, dirty@) ==> start matches Ok(None),
        believed(graph.model(), build, rebuilt, dirty@) ==> {
            let held = build->0;
            let (settled, answer) = words_read(
                nothing_asked(around.model()),
                ArgumentSource::Makefile,
                arguments_of(words_in(encode_utf8(held.makeflags@), true)),
                1,
                true,
            );
            let edges = assembled(
                graph.model(),
                held.units@,
                held.deferred@,
                (rebuilt->0)@,
                (rebuilt->0)@.len() as int,
            )->0;
            let launches = settled_edges(
                graph.model(),
                held.settled@,
                held.settled@.len() as int,
            )->0;
            match answer {
                Some(_) => start matches Err(wrong) && wrong == CliError::InvalidParameter,
                None => start matches Ok(Some(warm)) && warm.invocation.model() == settled
                    && warm.options.model() == evaluated_controls(*initial, settled)
                    && warm.job_budget == held.job_budget
                    && warm.recipes.wf() && wrapped_as(warm.recipes, held.units@, edges.0)
                    && warm.recipes.edges@ == edges.1 && warm.recipes.settled@ == with_entries(
                    Map::<usize, SettledSteps>::empty(),
                    launches,
                    launches.len() as int,
                ) && !warm.recipes.remaking_makefiles,
            }
        },
{
    let held: BuildArtifact = match build {
        Some(held) => held,
        None => return Ok(None),
    };
    let units: Vec<RebuiltUnit> = match rebuilt {
        Some(units) => units,
        None => return Ok(None),
    };
    if !wrappers_still_clean(graph, &held.clean_wrappers, dirty) {
        return Ok(None);
    }
    let recipes: PendingRecipes = match assemble_recipes(
        graph,
        &held.units,
        &held.deferred,
        held.settled,
        &units,
    ) {
        Some(recipes) => recipes,
        None => return Ok(None),
    };
    match evaluated_invocation(held.makeflags.as_str().as_bytes(), around) {
        Err(wrong) => Err(wrong),
        Ok(invocation) => {
            let options: BuildOptions = evaluated_build_options(initial, &invocation);
            Ok(Some(WarmStart { recipes, job_budget: held.job_budget, invocation, options }))
        },
    }
}

} // verus!
