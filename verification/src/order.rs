//! The order one unit's recursive recipes compose in, what a pass could not
//! carry, and the chain a unit that runs one recipe at a time runs them in.

use crate::composing::{chained, job_ok};
use crate::graph::{below, lists, with_missing, BuildGraph, GraphModel};
use crate::sink::{pendings, ChildGroup, GraphSink, Pending, PendingSubninja, SerialJob, SinkModel};
use crate::waiting::both_lists;
use crate::walk::{is_path, reached, walk};
use std::collections::HashSet;
use vstd::prelude::*;
use vstd::std_specs::hash::*;

verus! {

/// The recipe that makes a node, the last that says so where several do.
pub open spec fn producer_of(held: Seq<Pending>, node: usize) -> Option<int>
    decreases held.len(),
{
    if held.len() == 0 {
        None
    } else if held.last().outputs().contains(node) {
        Some(held.len() - 1)
    } else {
        producer_of(held.drop_last(), node)
    }
}

/// Where a walk from a recipe's inputs stops: at what a held recipe makes.
pub open spec fn made_by_held(held: Seq<Pending>, nodes: nat) -> Seq<bool> {
    Seq::new(nodes, |node: int| producer_of(held, node as usize) is Some)
}

/// Whether one recipe needs another: a walk from what it is evaluated from,
/// through ordinary targets, leads to what the other makes.
pub open spec fn needs(graph: GraphModel, held: Seq<Pending>, consumer: int, producer: int) -> bool {
    producer != consumer && exists|node: usize|
        node < graph.nodes.len() && #[trigger] reached(
            graph,
            made_by_held(held, graph.nodes.len()),
            held[consumer].evaluation_inputs(),
            node,
        ) && producer_of(held, node) == Some(producer)
}

/// Which recipe needs which.
pub open spec fn relation(graph: GraphModel, held: Seq<Pending>) -> Seq<Seq<bool>> {
    Seq::new(
        held.len(),
        |consumer: int|
            Seq::new(held.len(), |producer: int| needs(graph, held, consumer, producer)),
    )
}

/// Whether everything a recipe needs is placed.
pub open spec fn provided(row: Seq<bool>, placed: Seq<usize>) -> bool {
    forall|producer: usize| producer < row.len() && #[trigger] row[producer as int]
        ==> placed.contains(producer)
}

/// The first recipe at or after `from` that is not placed and has everything it
/// needs placed, or how many recipes there are.
pub open spec fn first_ready(matrix: Seq<Seq<bool>>, placed: Seq<usize>, from: int) -> int
    decreases matrix.len() - from,
{
    if from < 0 || from >= matrix.len() {
        matrix.len() as int
    } else if !placed.contains(from as usize) && provided(matrix[from], placed) {
        from
    } else {
        first_ready(matrix, placed, from + 1)
    }
}

/// The recipes placed after some steps, each the first that was ready.
pub open spec fn placed_after(matrix: Seq<Seq<bool>>, steps: nat) -> Seq<usize>
    decreases steps,
{
    if steps == 0 {
        Seq::empty()
    } else {
        let before = placed_after(matrix, (steps - 1) as nat);
        let next = first_ready(matrix, before, 0);
        if next < matrix.len() {
            before.push(next as usize)
        } else {
            before
        }
    }
}

/// The recipes among the first `count` that are not placed, in the order they
/// came.
pub open spec fn left_over(placed: Seq<usize>, count: int) -> Seq<usize>
    decreases count,
{
    if count <= 0 {
        Seq::empty()
    } else if placed.contains((count - 1) as usize) {
        left_over(placed, count - 1)
    } else {
        left_over(placed, count - 1).push((count - 1) as usize)
    }
}

/// The order recipes compose in: each behind everything it needs, the first
/// that can be coming first, and then those that wait for each other.
pub open spec fn composition_order(matrix: Seq<Seq<bool>>) -> Seq<usize> {
    let placed = placed_after(matrix, matrix.len());
    placed + left_over(placed, matrix.len() as int)
}

proof fn first_ready_is_ready(matrix: Seq<Seq<bool>>, placed: Seq<usize>, from: int)
    requires
        0 <= from <= matrix.len(),
        matrix.len() <= usize::MAX,
    ensures
        ({
            let found = first_ready(matrix, placed, from);
            &&& from <= found <= matrix.len()
            &&& found < matrix.len() ==> !placed.contains(found as usize) && provided(
                matrix[found],
                placed,
            )
            &&& forall|i: int|
                from <= i < found ==> placed.contains(i as usize) || !provided(
                    #[trigger] matrix[i],
                    placed,
                )
        }),
    decreases matrix.len() - from,
{
    if from < matrix.len() && !(!placed.contains(from as usize) && provided(
        matrix[from],
        placed,
    )) {
        first_ready_is_ready(matrix, placed, from + 1);
    }
}

/// What is placed is placed once, is one of the recipes, and stands behind what
/// it needs; and there are as many steps as recipes placed until none is ready.
proof fn placed_is_sound(matrix: Seq<Seq<bool>>, steps: nat)
    requires
        matrix.len() <= usize::MAX,
        forall|i: int| 0 <= i < matrix.len() ==> (#[trigger] matrix[i]).len() == matrix.len(),
    ensures
        ({
            let placed = placed_after(matrix, steps);
            &&& placed.no_duplicates()
            &&& below(placed, matrix.len())
            &&& placed.len() <= steps
            &&& placed.len() == steps || first_ready(matrix, placed, 0) == matrix.len()
            &&& forall|k: int, producer: usize|
                0 <= k < placed.len() && producer < matrix.len()
                    && #[trigger] matrix[placed[k] as int][producer as int] ==> placed.take(
                    k,
                ).contains(producer)
        }),
    decreases steps,
{
    if steps > 0 {
        placed_is_sound(matrix, (steps - 1) as nat);
        let before = placed_after(matrix, (steps - 1) as nat);
        let placed = placed_after(matrix, steps);
        let next = first_ready(matrix, before, 0);
        first_ready_is_ready(matrix, before, 0);
        if next < matrix.len() {
            assert forall|k: int, producer: usize|
                0 <= k < placed.len() && producer < matrix.len()
                    && #[trigger] matrix[placed[k] as int][producer as int] implies placed.take(
                k,
            ).contains(producer) by {
                if k < before.len() {
                    assert(placed[k] == before[k]);
                    assert(placed.take(k) =~= before.take(k));
                } else {
                    assert(placed.take(k) =~= before);
                    assert(provided(matrix[next], before));
                    assert(matrix[next][producer as int]);
                }
            }
        }
    }
}

/// Recipes a list is left with are those it does not place, in order.
proof fn left_over_is_the_rest(placed: Seq<usize>, count: int)
    requires
        0 <= count <= usize::MAX,
    ensures
        ({
            let rest = left_over(placed, count);
            &&& rest.no_duplicates()
            &&& below(rest, count as nat)
            &&& forall|i: usize|
                #![trigger rest.contains(i)]
                rest.contains(i) <==> i < count && !placed.contains(i)
            &&& forall|a: int, b: int| 0 <= a < b < rest.len() ==> rest[a] < rest[b]
        }),
    decreases count,
{
    if count > 0 {
        left_over_is_the_rest(placed, count - 1);
        let before = left_over(placed, count - 1);
        let rest = left_over(placed, count);
        assert forall|i: usize|
            #![trigger rest.contains(i)]
            rest.contains(i) <==> i < count && !placed.contains(i) by {
            if before.contains(i) {
                let at = choose|at: int| 0 <= at < before.len() && before[at] == i;
                assert(rest[at] == i);
            }
            if i == count - 1 && !placed.contains(i) {
                assert(rest[before.len() as int] == i);
            }
            if rest.contains(i) {
                let at = choose|at: int| 0 <= at < rest.len() && rest[at] == i;
                if at < before.len() {
                    assert(before[at] == i);
                    assert(before.contains(i));
                }
            }
        }
        assert forall|a: int, b: int| 0 <= a < b < rest.len() implies rest[a] < rest[b] by {
            if b == before.len() {
                assert(before[a] < count - 1);
            }
        }
    }
}

/// Every recipe has one place in the order they compose in.
pub proof fn the_order_is_a_permutation(matrix: Seq<Seq<bool>>)
    requires
        matrix.len() <= usize::MAX,
        forall|i: int| 0 <= i < matrix.len() ==> (#[trigger] matrix[i]).len() == matrix.len(),
    ensures
        composition_order(matrix).no_duplicates(),
        below(composition_order(matrix), matrix.len()),
        forall|i: usize| i < matrix.len() ==> #[trigger] composition_order(matrix).contains(i),
        composition_order(matrix).len() == matrix.len(),
{
    let placed = placed_after(matrix, matrix.len());
    let rest = left_over(placed, matrix.len() as int);
    let order = composition_order(matrix);
    placed_is_sound(matrix, matrix.len());
    left_over_is_the_rest(placed, matrix.len() as int);
    assert forall|i: usize| i < matrix.len() implies #[trigger] order.contains(i) by {
        if placed.contains(i) {
            let at = choose|at: int| 0 <= at < placed.len() && placed[at] == i;
            assert(order[at] == i);
        } else {
            assert(rest.contains(i));
            let at = choose|at: int| 0 <= at < rest.len() && rest[at] == i;
            assert(order[placed.len() + at] == i);
        }
    }
    assert forall|a: int, b: int| 0 <= a < b < order.len() implies order[a] != order[b] by {
        if a < placed.len() && b >= placed.len() {
            assert(placed.contains(placed[a]));
            assert(rest.contains(rest[b - placed.len()]));
        }
    }
    assert(below(order, matrix.len())) by {
        assert forall|i: int| 0 <= i < order.len() implies #[trigger] order[i] < matrix.len() by {
            if i >= placed.len() {
                assert(rest[i - placed.len()] < matrix.len());
            }
        }
    }
    let set = order.to_set();
    order.unique_seq_to_set();
    let all = Set::new(|i: usize| i < matrix.len());
    assert(set =~= all) by {
        assert forall|i: usize| set.contains(i) <==> all.contains(i) by {
            if i < matrix.len() {
                assert(order.contains(i));
            }
            if order.contains(i) {
                let at = choose|at: int| 0 <= at < order.len() && order[at] == i;
                assert(order[at] < matrix.len());
            }
        }
    }
    counted(matrix.len());
}

/// There are as many numbers below a bound as it says.
proof fn counted(bound: nat)
    requires
        bound <= usize::MAX,
    ensures
        Set::new(|i: usize| i < bound).finite(),
        Set::new(|i: usize| i < bound).len() == bound,
    decreases bound,
{
    let all = Set::new(|i: usize| i < bound);
    if bound == 0 {
        assert(all =~= Set::empty());
    } else {
        let fewer = Set::new(|i: usize| i < (bound - 1) as nat);
        counted((bound - 1) as nat);
        assert(all =~= fewer.insert((bound - 1) as usize));
    }
}

/// A recipe that was placed has everything it needs placed before it.
pub proof fn a_recipe_stands_behind_what_it_needs(matrix: Seq<Seq<bool>>, place: int, needed: usize)
    requires
        matrix.len() <= usize::MAX,
        forall|i: int| 0 <= i < matrix.len() ==> (#[trigger] matrix[i]).len() == matrix.len(),
        0 <= place < placed_after(matrix, matrix.len()).len(),
        needed < matrix.len(),
        matrix[composition_order(matrix)[place] as int][needed as int],
    ensures
        composition_order(matrix).take(place).contains(needed),
{
    let placed = placed_after(matrix, matrix.len());
    placed_is_sound(matrix, matrix.len());
    assert(composition_order(matrix)[place] == placed[place]);
    assert(composition_order(matrix).take(place) =~= placed.take(place));
}

/// A recipe that could not be placed waits for another that could not be.
pub proof fn the_remainder_waits_within_itself(matrix: Seq<Seq<bool>>, recipe: usize)
    requires
        matrix.len() <= usize::MAX,
        forall|i: int| 0 <= i < matrix.len() ==> (#[trigger] matrix[i]).len() == matrix.len(),
        recipe < matrix.len(),
        !placed_after(matrix, matrix.len()).contains(recipe),
    ensures
        exists|needed: usize|
            needed < matrix.len() && #[trigger] matrix[recipe as int][needed as int]
                && !placed_after(matrix, matrix.len()).contains(needed),
{
    let placed = placed_after(matrix, matrix.len());
    placed_is_sound(matrix, matrix.len());
    first_ready_is_ready(matrix, placed, 0);
    if placed.len() == matrix.len() {
        let set = placed.to_set();
        placed.unique_seq_to_set();
        let all = Set::new(|i: usize| i < matrix.len());
        counted(matrix.len());
        assert forall|i: usize| set.contains(i) implies all.contains(i) by {
            let at = choose|at: int| 0 <= at < placed.len() && placed[at] == i;
            assert(placed[at] < matrix.len());
        }
        vstd::set_lib::lemma_subset_equality(set, all);
        assert(set.contains(recipe));
    } else {
        assert(!provided(matrix[recipe as int], placed));
    }
}

/// Whether a recipe makes a node.
pub open spec fn makes(recipe: Pending, node: usize) -> bool {
    recipe.explicit_outputs.contains(node) || recipe.implicit_outputs.contains(node)
}

/// Whether a recipe lists a node among what it needs, to be newer than or only to
/// be there first.
pub open spec fn asks_for(recipe: Pending, node: usize) -> bool {
    recipe.inputs.contains(node) || recipe.order_only_inputs.contains(node)
}

/// Whether an ordinary target waits for a node, in whichever way its edge names
/// it.
pub open spec fn ordinary_wait(graph: GraphModel, target: usize, node: usize) -> bool {
    graph.nodes[target as int].generator matches Some(edge) && {
        let declared = graph.edges[edge as int].declared;
        declared.explicit_inputs.contains(node) || declared.implicit_inputs.contains(node)
            || declared.order_only_inputs.contains(node)
    }
}

/// The one recipe that makes a node is found to be the one that does.
proof fn the_one_maker_is_found(held: Seq<Pending>, maker: int, node: usize)
    requires
        0 <= maker < held.len(),
        makes(held[maker], node),
        forall|other: int|
            0 <= other < held.len() && other != maker ==> !makes(#[trigger] held[other], node),
    ensures
        producer_of(held, node) == Some(maker),
    decreases held.len(),
{
    let last = held.last();
    both_lists(last.explicit_outputs, last.implicit_outputs, node);
    if maker < held.len() - 1 {
        assert(!makes(held[held.len() - 1], node));
        assert forall|other: int| 0 <= other < held.drop_last().len() && other != maker implies
            !makes(#[trigger] held.drop_last()[other], node) by {
            assert(held.drop_last()[other] == held[other]);
        }
        the_one_maker_is_found(held.drop_last(), maker, node);
    }
}

proof fn what_nothing_makes_is_ordinary(held: Seq<Pending>, node: usize)
    requires
        forall|other: int| 0 <= other < held.len() ==> !makes(#[trigger] held[other], node),
    ensures
        producer_of(held, node) is None,
    decreases held.len(),
{
    if held.len() > 0 {
        let last = held[held.len() - 1];
        both_lists(last.explicit_outputs, last.implicit_outputs, node);
        assert forall|other: int| 0 <= other < held.drop_last().len() implies !makes(
            #[trigger] held.drop_last()[other],
            node,
        ) by {
            assert(held.drop_last()[other] == held[other]);
        }
        what_nothing_makes_is_ordinary(held.drop_last(), node);
    }
}

/// A recipe needs the recipe that makes what it asks for, whether it asks for it
/// to be older or only to be there first, and however many ordinary targets
/// stand between the two.
pub proof fn a_recipe_needs_the_maker_of_what_it_asks_for(
    graph: GraphModel,
    held: Seq<Pending>,
    consumer: int,
    maker: int,
    chain: Seq<usize>,
)
    requires
        0 <= consumer < held.len(),
        0 <= maker < held.len(),
        consumer != maker,
        chain.len() > 0,
        below(chain, graph.nodes.len()),
        asks_for(held[consumer], chain[0]),
        forall|i: int|
            #![trigger chain[i]]
            0 <= i < chain.len() - 1 ==> ordinary_wait(graph, chain[i], chain[i + 1]) && (forall|
                other: int,
            |
                0 <= other < held.len() ==> !makes(#[trigger] held[other], chain[i])),
        makes(held[maker], chain.last()),
        forall|other: int|
            0 <= other < held.len() && other != maker ==> !makes(
                #[trigger] held[other],
                chain.last(),
            ),
        held.len() <= usize::MAX,
    ensures
        relation(graph, held)[consumer][maker],
{
    let stops = made_by_held(held, graph.nodes.len());
    let recipe = held[consumer];
    let starts = recipe.evaluation_inputs();
    let node = chain.last();
    both_lists(recipe.inputs, recipe.order_only_inputs, chain[0]);
    assert forall|i: int| #![trigger chain[i]] 0 <= i < chain.len() - 1 implies !stops[chain[i] as int]
        && graph.prerequisites(chain[i]).contains(chain[i + 1]) by {
        what_nothing_makes_is_ordinary(held, chain[i]);
        assert(chain[i] < graph.nodes.len());
        assert(ordinary_wait(graph, chain[i], chain[i + 1]));
        let edge = graph.nodes[chain[i] as int].generator->0;
        let declared = graph.edges[edge as int].declared;
        both_lists(declared.explicit_inputs, declared.implicit_inputs, chain[i + 1]);
        both_lists(
            declared.explicit_inputs + declared.implicit_inputs,
            declared.order_only_inputs,
            chain[i + 1],
        );
    }
    assert(is_path(graph, stops, chain));
    assert(reached(graph, stops, starts, node));
    the_one_maker_is_found(held, maker, node);
    assert(chain[chain.len() - 1] < graph.nodes.len());
    assert(needs(graph, held, consumer, maker));
}

/// Of the recipes that could come next, the one that came first in the unit
/// does: a recipe that stands before another in the unit and behind it in the
/// order needs something the other did not wait for.
pub proof fn what_may_come_first_does(matrix: Seq<Seq<bool>>, place: int, passed: usize)
    requires
        matrix.len() <= usize::MAX,
        forall|i: int| 0 <= i < matrix.len() ==> (#[trigger] matrix[i]).len() == matrix.len(),
        0 <= place < placed_after(matrix, matrix.len()).len(),
        passed < composition_order(matrix)[place],
        !composition_order(matrix).take(place).contains(passed),
    ensures
        exists|needed: usize|
            needed < matrix.len() && #[trigger] matrix[passed as int][needed as int]
                && !composition_order(matrix).take(place).contains(needed),
{
    let placed = placed_after(matrix, matrix.len());
    placed_is_sound(matrix, matrix.len());
    each_place_is_a_step(matrix, matrix.len(), place);
    let before = placed_after(matrix, place as nat);
    assert(composition_order(matrix)[place] == placed[place]);
    assert(composition_order(matrix).take(place) =~= placed.take(place));
    first_ready_is_ready(matrix, before, 0);
    assert(placed[place] < matrix.len());
    assert(!provided(matrix[passed as int], before));
    let needed = choose|needed: usize|
        needed < matrix[passed as int].len() && #[trigger] matrix[passed as int][needed as int]
            && !before.contains(needed);
    assert(matrix[passed as int][needed as int]);
}

/// What stands at a place was placed by the step of that number.
proof fn each_place_is_a_step(matrix: Seq<Seq<bool>>, steps: nat, place: int)
    requires
        matrix.len() <= usize::MAX,
        forall|i: int| 0 <= i < matrix.len() ==> (#[trigger] matrix[i]).len() == matrix.len(),
        0 <= place < placed_after(matrix, steps).len(),
    ensures
        placed_after(matrix, steps).take(place) == placed_after(matrix, place as nat),
        placed_after(matrix, steps)[place] == first_ready(
            matrix,
            placed_after(matrix, place as nat),
            0,
        ),
        first_ready(matrix, placed_after(matrix, place as nat), 0) < matrix.len(),
    decreases steps,
{
    let before = placed_after(matrix, (steps - 1) as nat);
    let placed = placed_after(matrix, steps);
    placed_is_sound(matrix, (steps - 1) as nat);
    if place < before.len() {
        each_place_is_a_step(matrix, (steps - 1) as nat, place);
        assert(placed.take(place) =~= before.take(place));
        assert(placed[place] == before[place]);
    } else {
        assert(placed.len() == before.len() + 1);
        assert(before.len() == steps - 1);
        assert(placed.take(place) =~= before);
        first_ready_is_ready(matrix, before, 0);
    }
}

/// Which of a unit's recursive recipes this pass cannot carry to their end.
///
/// A pass walks on past a recipe it holds, so every recipe that does not read a
/// held one is carried in the same pass.
#[derive(Debug)]
pub struct Holds {
    /// For each recipe, by its place in the composed order, the places of the
    /// recipes its evaluation inputs are read off.
    pub read_off: Vec<Vec<usize>>,
    pub held: Vec<bool>,
    pub any: bool,
    /// False where the sort left a remainder of recipes that wait for each
    /// other. The relation then says nothing about anything, so the first held
    /// recipe holds every recipe after it.
    pub batched: bool,
    /// Whether a child composition has stopped inside this pass.
    pub stopped: bool,
    /// How many recipes the sort settled.
    pub settled: usize,
}

impl Holds {
    /// There is one list and one mark for each recipe, and the lists name only
    /// recipes.
    pub open spec fn wf(&self) -> bool {
        &&& self.read_off@.len() == self.held@.len()
        &&& self.settled <= self.held@.len()
        &&& forall|i: int|
            0 <= i < self.read_off@.len() ==> below(
                (#[trigger] self.read_off@[i])@,
                self.held@.len(),
            )
        &&& self.any == exists|i: int| 0 <= i < self.held@.len() && #[trigger] self.held@[i]
    }

    /// Whether a recipe has to be left alone before anything is asked of it.
    pub open spec fn waits(&self, place: int) -> bool {
        self.any && (!self.batched || exists|i: int|
            0 <= i < self.read_off@[place]@.len()
                && self.held@[#[trigger] self.read_off@[place]@[i] as int])
    }

    /// Leave this recipe for the pass that follows the staged work.
    pub fn hold(&mut self, place: usize)
        requires
            old(self).wf(),
            place < old(self).held@.len(),
        ensures
            final(self).wf(),
            final(self).held@ == old(self).held@.update(place as int, true),
            final(self).any,
            final(self).read_off == old(self).read_off,
            final(self).batched == old(self).batched,
            final(self).stopped == old(self).stopped,
            final(self).settled == old(self).settled,
    {
        self.held[place] = true;
        self.any = true;
        assert(self.held@[place as int]);
    }

    /// Whether this recipe has to be left alone before anything is asked of it:
    /// it reads what a held recipe makes, or nothing is known of what it reads.
    pub fn reads_a_held_recipe(&self, place: usize) -> (answer: bool)
        requires
            self.wf(),
            place < self.held@.len(),
        ensures
            answer == self.waits(place as int),
    {
        if !self.any {
            return false;
        }
        if !self.batched {
            return true;
        }
        let read: &Vec<usize> = &self.read_off[place];
        let mut at: usize = 0;
        while at < read.len()
            invariant
                at <= read@.len(),
                self.wf(),
                self.any,
                self.batched,
                place < self.held@.len(),
                read@ == self.read_off@[place as int]@,
                forall|i: int|
                    0 <= i < at ==> !self.held@[#[trigger] self.read_off@[place as int]@[i] as int],
            decreases read@.len() - at,
        {
            assert(below(self.read_off@[place as int]@, self.held@.len()));
            if self.held[read[at]] {
                assert(self.held@[self.read_off@[place as int]@[at as int] as int]);
                return true;
            }
            at += 1;
        }
        false
    }

    /// Record that a child composition stopped at a boundary of its own.
    pub fn stopped_inside(&mut self)
        requires
            old(self).wf(),
        ensures
            final(self).wf(),
            *final(self) == (Holds { stopped: true, ..*old(self) }),
    {
        let ghost before = *self;
        self.stopped = true;
        assert(self.held == before.held && self.read_off == before.read_off);
        assert(before.any == exists|i: int| 0 <= i < before.held@.len() && #[trigger] before.held@[i]);
    }

    /// Whether this pass may still compose a child.
    pub fn composing(&self) -> (answer: bool)
        ensures
            answer == !self.stopped,
    {
        !self.stopped
    }

    /// Whether this pass left anything for the next one.
    pub fn any(&self) -> (answer: bool)
        requires
            self.wf(),
        ensures
            answer == exists|i: int| 0 <= i < self.held@.len() && #[trigger] self.held@[i],
    {
        self.any
    }

    /// Whether this recipe is one the sort placed, rather than part of a
    /// remainder that stands in no relation to anything.
    pub fn sorted(&self, place: usize) -> (answer: bool)
        ensures
            answer == (place < self.settled),
    {
        place < self.settled
    }
}

/// A matrix of answers, as its model.
pub open spec fn matrix_of(rows: Seq<Vec<bool>>) -> Seq<Seq<bool>> {
    Seq::new(rows.len(), |i: int| rows[i]@)
}

/// A list of as many refusals.
fn all_false(count: usize) -> (list: Vec<bool>)
    ensures
        list@.len() == count,
        forall|i: int| 0 <= i < count ==> !list@[i],
{
    let mut list: Vec<bool> = Vec::new();
    while list.len() < count
        invariant
            list@.len() <= count,
            forall|i: int| 0 <= i < list@.len() ==> !list@[i],
        decreases count - list@.len(),
    {
        list.push(false);
    }
    list
}

/// The recipe that makes each node.
fn find_producers(held: &[PendingSubninja], nodes: usize) -> (producers: Vec<Option<usize>>)
    requires
        forall|i: int|
            0 <= i < held@.len() ==> below((#[trigger] held@[i]).model().outputs(), nodes as nat),
    ensures
        producers@.len() == nodes,
        forall|node: usize|
            node < nodes ==> (match #[trigger] producers@[node as int] {
                Some(recipe) => producer_of(pendings(held@), node) == Some(recipe as int) && recipe
                    < held@.len(),
                None => producer_of(pendings(held@), node) is None,
            }),
{
    let ghost all = pendings(held@);
    let mut producers: Vec<Option<usize>> = Vec::new();
    while producers.len() < nodes
        invariant
            producers@.len() <= nodes,
            forall|i: int| 0 <= i < producers@.len() ==> producers@[i] is None,
        decreases nodes - producers@.len(),
    {
        producers.push(None);
    }
    let mut at: usize = 0;
    assert(all.take(0) =~= Seq::empty());
    while at < held.len()
        invariant
            at <= held@.len(),
            all == pendings(held@),
            producers@.len() == nodes,
            forall|i: int|
                0 <= i < held@.len() ==> below(
                    (#[trigger] held@[i]).model().outputs(),
                    nodes as nat,
                ),
            forall|node: usize|
                node < nodes ==> (match #[trigger] producers@[node as int] {
                    Some(recipe) => producer_of(all.take(at as int), node) == Some(recipe as int)
                        && recipe < at,
                    None => producer_of(all.take(at as int), node) is None,
                }),
        decreases held@.len() - at,
    {
        let ghost next = all.take(at as int + 1);
        assert(next.drop_last() =~= all.take(at as int));
        assert(next.last() == held@[at as int].model());
        let outputs: Vec<usize> = held[at].outputs();
        let ghost stood = producers@;
        let mut output: usize = 0;
        while output < outputs.len()
            invariant
                output <= outputs@.len(),
                at < held@.len(),
                below(outputs@, nodes as nat),
                producers@.len() == nodes,
                stood.len() == nodes,
                forall|node: usize|
                    node < nodes ==> #[trigger] producers@[node as int] == (if outputs@.take(
                        output as int,
                    ).contains(node) {
                        Some(at)
                    } else {
                        stood[node as int]
                    }),
            decreases outputs@.len() - output,
        {
            let ghost taken = outputs@.take(output as int);
            let ghost more = outputs@.take(output as int + 1);
            let ghost before = producers@;
            let node: usize = outputs[output];
            producers[node] = Some(at);
            assert(more =~= taken.push(node));
            assert(more[output as int] == node);
            assert forall|n: usize| n < nodes implies #[trigger] producers@[n as int] == (
            if more.contains(n) {
                Some(at)
            } else {
                stood[n as int]
            }) by {
                if taken.contains(n) {
                    let i = choose|i: int| 0 <= i < taken.len() && taken[i] == n;
                    assert(more[i] == n);
                }
                if more.contains(n) && n != node {
                    let i = choose|i: int| 0 <= i < more.len() && more[i] == n;
                    assert(taken[i] == n);
                }
            }
            output += 1;
        }
        assert(outputs@.take(output as int) =~= outputs@);
        at += 1;
    }
    assert(all.take(at as int) =~= all);
    producers
}

/// Which recipe needs which.
fn find_relation(held: &[PendingSubninja], graph: &BuildGraph) -> (rows: Vec<Vec<bool>>)
    requires
        graph.model().wf(),
        forall|i: int|
            0 <= i < held@.len() ==> (#[trigger] held@[i]).model().ok(
                graph.model().nodes.len(),
                graph.model().rules.len(),
            ),
    ensures
        matrix_of(rows@) == relation(graph.model(), pendings(held@)),
        rows@.len() == held@.len(),
        forall|i: int| 0 <= i < rows@.len() ==> (#[trigger] rows@[i])@.len() == held@.len(),
{
    let ghost model = graph.model();
    let ghost all = pendings(held@);
    let nodes: usize = graph.nodes.len();
    assert forall|i: int| 0 <= i < held@.len() implies below(
        (#[trigger] held@[i]).model().outputs(),
        nodes as nat,
    ) by {
        let one = held@[i].model();
        assert(one.ok(model.nodes.len(), model.rules.len()));
        assert forall|n: int| 0 <= n < one.outputs().len() implies #[trigger] one.outputs()[n]
            < nodes by {
            if n >= one.explicit_outputs.len() {
                assert(one.outputs()[n] == one.implicit_outputs[n - one.explicit_outputs.len()]);
            }
        }
    }
    let producers: Vec<Option<usize>> = find_producers(held, nodes);
    let mut stops: Vec<bool> = Vec::new();
    let mut node: usize = 0;
    while node < nodes
        invariant
            node <= nodes,
            producers@.len() == nodes,
            stops@.len() == node,
            forall|i: int| 0 <= i < node ==> stops@[i] == (producers@[i] is Some),
        decreases nodes - node,
    {
        stops.push(producers[node].is_some());
        node += 1;
    }
    assert(stops@ =~= made_by_held(all, model.nodes.len())) by {
        assert forall|i: int| 0 <= i < nodes implies stops@[i] == (producer_of(all, i as usize)
            is Some) by {
            assert(producers@[(i as usize) as int] == producers@[i]);
        }
    }
    let mut rows: Vec<Vec<bool>> = Vec::new();
    let mut consumer: usize = 0;
    while consumer < held.len()
        invariant
            consumer <= held@.len(),
            model == graph.model(),
            model.wf(),
            all == pendings(held@),
            nodes == model.nodes.len(),
            producers@.len() == nodes,
            forall|node: usize|
                node < nodes ==> (match #[trigger] producers@[node as int] {
                    Some(recipe) => producer_of(all, node) == Some(recipe as int) && recipe
                        < held@.len(),
                    None => producer_of(all, node) is None,
                }),
            stops@ == made_by_held(all, model.nodes.len()),
            forall|i: int|
                0 <= i < held@.len() ==> (#[trigger] held@[i]).model().ok(
                    model.nodes.len(),
                    model.rules.len(),
                ),
            rows@.len() == consumer,
            forall|i: int| 0 <= i < rows@.len() ==> (#[trigger] rows@[i])@.len() == held@.len(),
            forall|i: int, producer: int|
                #![trigger rows@[i]@[producer]]
                0 <= i < rows@.len() && 0 <= producer < held@.len() ==> rows@[i]@[producer]
                    == needs(model, all, i, producer),
        decreases held@.len() - consumer,
    {
        let ghost one = held@[consumer as int].model();
        assert(one.ok(model.nodes.len(), model.rules.len()));
        let inputs: Vec<usize> = held[consumer].evaluation_inputs();
        assert(below(inputs@, model.nodes.len())) by {
            assert forall|n: int| 0 <= n < inputs@.len() implies #[trigger] inputs@[n]
                < model.nodes.len() by {
                if n >= one.inputs.len() {
                    assert(inputs@[n] == one.order_only_inputs[n - one.inputs.len()]);
                }
            }
        }
        let seen: Vec<bool> = walk(graph, &inputs, &stops);
        let mut row: Vec<bool> = all_false(held.len());
        let mut node: usize = 0;
        while node < nodes
            invariant
                node <= nodes,
                consumer < held@.len(),
                nodes == model.nodes.len(),
                all == pendings(held@),
                seen@.len() == nodes,
                producers@.len() == nodes,
                row@.len() == held@.len(),
                inputs@ == all[consumer as int].evaluation_inputs(),
                stops@ == made_by_held(all, model.nodes.len()),
                forall|n: usize|
                    n < nodes ==> (#[trigger] seen@[n as int] <==> reached(
                        model,
                        stops@,
                        inputs@,
                        n,
                    )),
                forall|n: usize|
                    n < nodes ==> (match #[trigger] producers@[n as int] {
                        Some(recipe) => producer_of(all, n) == Some(recipe as int) && recipe
                            < held@.len(),
                        None => producer_of(all, n) is None,
                    }),
                forall|producer: int|
                    0 <= producer < held@.len() ==> (#[trigger] row@[producer] <==> producer
                        != consumer && exists|n: usize|
                        n < node && #[trigger] reached(model, stops@, inputs@, n) && producer_of(
                            all,
                            n,
                        ) == Some(producer)),
            decreases nodes - node,
        {
            let ghost before = row@;
            if seen[node] {
                if let Some(producer) = producers[node] {
                    if producer != consumer {
                        row[producer] = true;
                    }
                }
            }
            proof {
                assert(seen@[node as int] <==> reached(model, stops@, inputs@, node));
                let made = producers@[node as int];
                assert forall|producer: int| 0 <= producer < held@.len() implies (
                #[trigger] row@[producer] <==> producer != consumer && exists|n: usize|
                    n < node + 1 && #[trigger] reached(model, stops@, inputs@, n) && producer_of(
                        all,
                        n,
                    ) == Some(producer)) by {
                    if before[producer] {
                        let n = choose|n: usize|
                            n < node && #[trigger] reached(model, stops@, inputs@, n)
                                && producer_of(all, n) == Some(producer);
                        assert(n < node + 1);
                    }
                    if row@[producer] && !before[producer] {
                        assert(reached(model, stops@, inputs@, node));
                        assert(producer_of(all, node) == Some(producer));
                    }
                    if exists|n: usize|
                        n < node + 1 && #[trigger] reached(model, stops@, inputs@, n)
                            && producer_of(all, n) == Some(producer) {
                        let n = choose|n: usize|
                            n < node + 1 && #[trigger] reached(model, stops@, inputs@, n)
                                && producer_of(all, n) == Some(producer);
                        if n < node && producer != consumer {
                            assert(before[producer]);
                        }
                    }
                }
            }
            node += 1;
        }
        let ghost known = rows@;
        let ghost found = row@;
        rows.push(row);
        proof {
            assert forall|i: int, producer: int|
                #![trigger rows@[i]@[producer]]
                0 <= i < rows@.len() && 0 <= producer < held@.len() implies rows@[i]@[producer]
                == needs(model, all, i, producer) by {
                if i < known.len() {
                    assert(rows@[i] == known[i]);
                    assert(known[i]@[producer] == needs(model, all, i, producer));
                } else {
                    assert(found[producer] <==> needs(model, all, consumer as int, producer));
                }
            }
        }
        consumer += 1;
    }
    proof {
        let matrix = matrix_of(rows@);
        let wanted = relation(model, all);
        assert forall|i: int| 0 <= i < matrix.len() implies matrix[i] == wanted[i] by {
            assert forall|producer: int| 0 <= producer < held@.len() implies matrix[i][producer]
                == wanted[i][producer] by {
                assert(rows@[i]@[producer] == needs(model, all, i, producer));
            }
            assert(matrix[i] =~= wanted[i]);
        }
        assert(matrix =~= wanted);
    }
    rows
}

/// Whether everything a recipe needs is placed.
fn is_provided(row: &[bool], placed: &[usize]) -> (answer: bool)
    ensures
        answer == provided(row@, placed@),
{
    let mut at: usize = 0;
    while at < row.len()
        invariant
            at <= row@.len(),
            forall|i: usize| i < at && #[trigger] row@[i as int] ==> placed@.contains(i),
        decreases row@.len() - at,
    {
        if row[at] && !lists(placed, at) {
            assert(row@[at as int]);
            return false;
        }
        at += 1;
    }
    true
}

/// The order recipes compose in, and how many of them it settled.
fn find_order(rows: &[Vec<bool>]) -> (found: (Vec<usize>, usize))
    requires
        forall|i: int| 0 <= i < rows@.len() ==> (#[trigger] rows@[i])@.len() == rows@.len(),
    ensures
        found.0@ == composition_order(matrix_of(rows@)),
        found.1 == placed_after(matrix_of(rows@), rows@.len()).len(),
{
    let ghost matrix = matrix_of(rows@);
    let count: usize = rows.len();
    let mut placed: Vec<usize> = Vec::new();
    let mut steps: usize = 0;
    assert(placed@ =~= Seq::empty());
    while steps < count
        invariant
            steps <= count,
            count == rows@.len(),
            matrix == matrix_of(rows@),
            placed@ == placed_after(matrix, steps as nat),
        decreases count - steps,
    {
        let mut at: usize = 0;
        while at < count && !(!lists(&placed, at) && is_provided(&rows[at], &placed))
            invariant
                at <= count,
                count == rows@.len(),
                matrix == matrix_of(rows@),
                first_ready(matrix, placed@, 0) == first_ready(matrix, placed@, at as int),
            decreases count - at,
        {
            at += 1;
        }
        if at < count {
            assert(matrix[at as int] == rows@[at as int]@);
            placed.push(at);
        }
        steps += 1;
    }
    let settled: usize = placed.len();
    let ghost sorted = placed@;
    let mut at: usize = 0;
    assert(sorted + left_over(sorted, 0) =~= sorted);
    while at < count
        invariant
            at <= count,
            count == rows@.len(),
            settled == sorted.len(),
            settled <= placed@.len(),
            placed@.take(settled as int) == sorted,
            placed@ == sorted + left_over(sorted, at as int),
        decreases count - at,
    {
        let first: &[usize] = vstd::slice::slice_subrange(&placed, 0, settled);
        assert(first@ =~= sorted);
        if !lists(first, at) {
            placed.push(at);
        }
        assert(placed@ =~= sorted + left_over(sorted, at as int + 1));
        assert(placed@.take(settled as int) =~= sorted);
        at += 1;
    }
    (placed, settled)
}

/// The recipes in another order.
fn reordered(items: Vec<PendingSubninja>, order: &[usize]) -> (moved: Vec<PendingSubninja>)
    requires
        order@.no_duplicates(),
        below(order@, items@.len()),
    ensures
        moved@.len() == order@.len(),
        forall|k: int| 0 <= k < moved@.len() ==> #[trigger] moved@[k] == items@[order@[k] as int],
{
    let ghost all = items@;
    let mut left: Vec<PendingSubninja> = items;
    let count: usize = left.len();
    let mut slots: Vec<Option<PendingSubninja>> = Vec::new();
    assert(all.skip(0) =~= all);
    while slots.len() < count
        invariant
            slots@.len() <= count,
            count == all.len(),
            left@ == all.skip(slots@.len() as int),
            forall|i: int| 0 <= i < slots@.len() ==> #[trigger] slots@[i] == Some(all[i]),
        decreases count - slots@.len(),
    {
        let item: PendingSubninja = left.remove(0);
        slots.push(Some(item));
        assert(left@ =~= all.skip(slots@.len() as int));
    }
    let mut moved: Vec<PendingSubninja> = Vec::new();
    let mut at: usize = 0;
    while at < order.len()
        invariant
            at <= order@.len(),
            order@.no_duplicates(),
            below(order@, all.len()),
            slots@.len() == all.len(),
            moved@.len() == at,
            forall|i: usize|
                i < slots@.len() && !order@.take(at as int).contains(i)
                    ==> #[trigger] slots@[i as int] == Some(all[i as int]),
            forall|k: int| 0 <= k < at ==> #[trigger] moved@[k] == all[order@[k] as int],
        decreases order@.len() - at,
    {
        let index: usize = order[at];
        proof {
            let taken = order@.take(at as int);
            if taken.contains(index) {
                let k = choose|k: int| 0 <= k < taken.len() && taken[k] == index;
                assert(order@[k] == order@[at as int]);
            }
        }
        assert(slots@[index as int] == Some(all[index as int]));
        if let Some(item) = slots[index].take() {
            moved.push(item);
        }
        proof {
            let taken = order@.take(at as int);
            let more = order@.take(at as int + 1);
            assert(more =~= taken.push(index));
            assert forall|i: usize| i < slots@.len() && !more.contains(i) implies #[trigger] slots@[i as int]
                == Some(all[i as int]) by {
                assert(more[at as int] == index);
                if taken.contains(i) {
                    let k = choose|k: int| 0 <= k < taken.len() && taken[k] == i;
                    assert(more[k] == i);
                }
            }
        }
        at += 1;
    }
    moved
}

/// The place of each recipe in an order.
fn places_in(order: &[usize]) -> (places: Vec<usize>)
    requires
        order@.no_duplicates(),
        below(order@, order@.len()),
    ensures
        places@.len() == order@.len(),
        forall|k: int| 0 <= k < order@.len() ==> places@[#[trigger] order@[k] as int] == k,
{
    let mut places: Vec<usize> = Vec::new();
    while places.len() < order.len()
        invariant
            places@.len() <= order@.len(),
        decreases order@.len() - places@.len(),
    {
        places.push(0);
    }
    let mut at: usize = 0;
    while at < order.len()
        invariant
            at <= order@.len(),
            order@.no_duplicates(),
            below(order@, order@.len()),
            places@.len() == order@.len(),
            forall|k: int| 0 <= k < at ==> places@[#[trigger] order@[k] as int] == k,
        decreases order@.len() - at,
    {
        let ghost before = places@;
        places[order[at]] = at;
        assert forall|k: int| 0 <= k < at + 1 implies places@[#[trigger] order@[k] as int] == k by {
            if k < at {
                assert(order@[k] != order@[at as int]);
            }
        }
        at += 1;
    }
    places
}

/// Put held recursive edges before any held edge that needs their outputs.
///
/// The order the recipes came in is kept wherever the relation leaves it open,
/// and recipes that wait for each other come last. The relation is reported
/// beside the order, by places in it.
///
/// A recipe stands behind the one that makes what it asks for, whether to be
/// newer than it or only to have it there first.
pub fn dependency_ordered(subninjas: Vec<PendingSubninja>, graph: &BuildGraph) -> (ordered: (
    Vec<PendingSubninja>,
    Holds,
))
    requires
        graph.model().wf(),
        forall|i: int|
            0 <= i < subninjas@.len() ==> (#[trigger] subninjas@[i]).model().ok(
                graph.model().nodes.len(),
                graph.model().rules.len(),
            ),
    ensures
        ({
            let matrix = relation(graph.model(), pendings(subninjas@));
            let order = composition_order(matrix);
            &&& ordered.0@.len() == subninjas@.len()
            &&& forall|k: int|
                0 <= k < ordered.0@.len() ==> #[trigger] ordered.0@[k]
                    == subninjas@[order[k] as int]
            &&& ordered.1.wf()
            &&& ordered.1.held@.len() == subninjas@.len()
            &&& !ordered.1.any
            &&& !ordered.1.stopped
            &&& ordered.1.settled == placed_after(matrix, matrix.len()).len()
            &&& ordered.1.batched == (ordered.1.settled == subninjas@.len())
            &&& forall|k: int, place: usize|
                #![trigger ordered.1.read_off@[k]@.contains(place)]
                0 <= k < subninjas@.len() && place < subninjas@.len()
                    ==> (ordered.1.read_off@[k]@.contains(place)
                    <==> matrix[order[k] as int][order[place as int] as int])
        }),
        forall|consumer: usize, maker: usize, node: usize|
            consumer < ordered.0@.len() && maker < ordered.0@.len() && consumer != maker && node
                < graph.model().nodes.len() && #[trigger] asks_for(
                ordered.0@[consumer as int].model(),
                node,
            ) && #[trigger] makes(ordered.0@[maker as int].model(), node) && (forall|other: int|
                0 <= other < ordered.0@.len() && other != maker ==> !makes(
                    (#[trigger] ordered.0@[other]).model(),
                    node,
                )) ==> ordered.1.read_off@[consumer as int]@.contains(maker) && (consumer
                < ordered.1.settled ==> maker < consumer),
        forall|consumer: int, place: usize|
            0 <= consumer < ordered.1.settled && #[trigger] ordered.1.read_off@[consumer]@.contains(
                place,
            ) ==> place < consumer,
        forall|k: int|
            0 <= k < ordered.0@.len() ==> subninjas@.contains(#[trigger] ordered.0@[k]),
        forall|i: int|
            0 <= i < subninjas@.len() ==> ordered.0@.contains(#[trigger] subninjas@[i]),
{
    let ghost matrix = relation(graph.model(), pendings(subninjas@));
    let rows: Vec<Vec<bool>> = find_relation(&subninjas, graph);
    let (order, settled): (Vec<usize>, usize) = find_order(&rows);
    let count: usize = order.len();
    proof {
        assert(subninjas.len() == subninjas@.len());
        assert forall|i: int| 0 <= i < matrix.len() implies (#[trigger] matrix[i]).len()
            == matrix.len() by {}
        the_order_is_a_permutation(matrix);
        placed_is_sound(matrix, matrix.len());
    }
    let places: Vec<usize> = places_in(&order);
    let mut read_off: Vec<Vec<usize>> = Vec::new();
    let mut place: usize = 0;
    while place < count
        invariant
            place <= count,
            count == rows@.len(),
            count == order@.len(),
            matrix == matrix_of(rows@),
            order@ == composition_order(matrix),
            order@.no_duplicates(),
            below(order@, count as nat),
            forall|i: usize| i < count ==> #[trigger] order@.contains(i),
            places@.len() == count,
            forall|k: int| 0 <= k < count ==> places@[#[trigger] order@[k] as int] == k,
            forall|i: int| 0 <= i < rows@.len() ==> (#[trigger] rows@[i])@.len() == count,
            read_off@.len() == place,
            forall|k: int| 0 <= k < place ==> below((#[trigger] read_off@[k])@, count as nat),
            forall|k: int, other: usize|
                #![trigger read_off@[k]@.contains(other)]
                0 <= k < place && other < count ==> (read_off@[k]@.contains(other)
                    <==> matrix[order@[k] as int][order@[other as int] as int]),
        decreases count - place,
    {
        let row: &Vec<bool> = &rows[order[place]];
        assert(matrix[order@[place as int] as int] == row@);
        let mut read: Vec<usize> = Vec::new();
        let mut producer: usize = 0;
        while producer < count
            invariant
                producer <= count,
                place < count,
                count == order@.len(),
                row@.len() == count,
                row@ == matrix[order@[place as int] as int],
                places@.len() == count,
                order@.no_duplicates(),
                below(order@, count as nat),
                forall|i: usize| i < count ==> #[trigger] order@.contains(i),
                forall|k: int| 0 <= k < count ==> places@[#[trigger] order@[k] as int] == k,
                below(read@, count as nat),
                forall|other: usize|
                    #![trigger read@.contains(other)]
                    other < count ==> (read@.contains(other) <==> order@[other as int] < producer
                        && row@[order@[other as int] as int]),
            decreases count - producer,
        {
            let ghost before = read@;
            if row[producer] {
                proof {
                    assert(order@.contains(producer));
                    let k = choose|k: int| 0 <= k < order@.len() && order@[k] == producer;
                    assert(places@[order@[k] as int] == k);
                }
                read.push(places[producer]);
                assert(read@[before.len() as int] == places@[producer as int]);
            }
            proof {
                assert(order@.contains(producer));
                let k = choose|k: int| 0 <= k < order@.len() && order@[k] == producer;
                assert(places@[order@[k] as int] == k);
                assert forall|other: usize|
                    #![trigger read@.contains(other)]
                    other < count implies (read@.contains(other) <==> order@[other as int]
                    < producer + 1 && row@[order@[other as int] as int]) by {
                    if before.contains(other) {
                        let i = choose|i: int| 0 <= i < before.len() && before[i] == other;
                        assert(read@[i] == other);
                    }
                    if read@.contains(other) {
                        let i = choose|i: int| 0 <= i < read@.len() && read@[i] == other;
                        if i < before.len() {
                            assert(before[i] == other);
                            assert(before.contains(other));
                        } else {
                            assert(other == k);
                        }
                    }
                    if order@[other as int] == producer {
                        assert(other == k);
                    }
                }
            }
            producer += 1;
        }
        let ghost known = read_off@;
        let ghost found = read@;
        read_off.push(read);
        proof {
            assert forall|k: int, other: usize|
                #![trigger read_off@[k]@.contains(other)]
                0 <= k < place + 1 && other < count implies (read_off@[k]@.contains(other)
                <==> matrix[order@[k] as int][order@[other as int] as int]) by {
                if k < place {
                    assert(read_off@[k] == known[k]);
                    assert(known[k]@.contains(other) <==> matrix[order@[k] as int][order@[other as int] as int]);
                } else {
                    assert(found.contains(other) <==> order@[other as int] < count
                        && row@[order@[other as int] as int]);
                }
            }
        }
        place += 1;
    }
    let ghost all = subninjas@;
    let ordered: Vec<PendingSubninja> = reordered(subninjas, &order);
    let held: Vec<bool> = all_false(count);
    proof {
        let recipes = pendings(all);
        assert forall|k: int| 0 <= k < ordered@.len() implies all.contains(#[trigger] ordered@[k]) by {
            assert(all[order@[k] as int] == ordered@[k]);
        }
        assert forall|i: int| 0 <= i < all.len() implies ordered@.contains(#[trigger] all[i]) by {
            assert(order@.contains(i as usize));
            let k = choose|k: int| 0 <= k < order@.len() && order@[k] == i as usize;
            assert(ordered@[k] == all[i]);
        }
        assert forall|consumer: int, place: usize|
            0 <= consumer < settled && #[trigger] read_off@[consumer]@.contains(
                place,
            ) implies place < consumer by {
            assert(below(read_off@[consumer]@, count as nat));
            let at = choose|at: int|
                0 <= at < read_off@[consumer]@.len() && read_off@[consumer]@[at] == place;
            assert(read_off@[consumer]@[at] < count);
            assert(matrix[order@[consumer] as int][order@[place as int] as int]);
            a_recipe_stands_behind_what_it_needs(matrix, consumer, order@[place as int]);
            let earlier = order@.take(consumer);
            let found = choose|found: int|
                0 <= found < earlier.len() && earlier[found] == order@[place as int];
            assert(order@[found] == order@[place as int]);
        }
        assert forall|consumer: usize, maker: usize, node: usize|
            consumer < ordered@.len() && maker < ordered@.len() && consumer != maker && node
                < graph.model().nodes.len() && #[trigger] asks_for(
                ordered@[consumer as int].model(),
                node,
            ) && #[trigger] makes(ordered@[maker as int].model(), node) && (forall|other: int|
                0 <= other < ordered@.len() && other != maker ==> !makes(
                    (#[trigger] ordered@[other]).model(),
                    node,
                )) implies read_off@[consumer as int]@.contains(maker) && (consumer < settled
            ==> maker < consumer) by {
            let (c, m) = (order@[consumer as int] as int, order@[maker as int] as int);
            assert(recipes[c] == ordered@[consumer as int].model());
            assert(recipes[m] == ordered@[maker as int].model());
            assert forall|other: int| 0 <= other < recipes.len() && other != m implies !makes(
                #[trigger] recipes[other],
                node,
            ) by {
                assert(order@.contains(other as usize));
                let k = choose|k: int| 0 <= k < order@.len() && order@[k] == other as usize;
                assert(ordered@[k].model() == recipes[other]);
            }
            let chain = seq![node];
            assert(chain.last() == node);
            a_recipe_needs_the_maker_of_what_it_asks_for(graph.model(), recipes, c, m, chain);
            assert(matrix[c][m]);
            assert(read_off@[consumer as int]@.contains(maker));
        }
    }
    (
        ordered,
        Holds { read_off, held, any: false, batched: settled == count, stopped: false, settled },
    )
}

/// The recursive recipes of a unit that runs one at a time, in the order Make
/// would have run them, each as the job it blocks in.
#[derive(Debug)]
pub struct SerialJobs {
    pub jobs: Vec<SerialJob>,
}

/// The edges the children this recipe composed made.
pub open spec fn fresh_of(children: Seq<ChildGroup>) -> Seq<usize>
    decreases children.len(),
{
    if children.len() == 0 {
        Seq::empty()
    } else {
        let last = children.last();
        fresh_of(children.drop_last()) + (if last.fresh {
            last.subgraph.fresh_edges@
        } else {
            Seq::empty()
        })
    }
}

/// Add the edges the children this recipe composed made.
fn push_fresh(edges: &mut Vec<usize>, children: &[ChildGroup])
    ensures
        final(edges)@ == old(edges)@ + fresh_of(children@),
{
    let ghost began = edges@;
    let mut at: usize = 0;
    assert(children@.take(0) =~= Seq::empty());
    assert(began + fresh_of(children@.take(0)) =~= began);
    while at < children.len()
        invariant
            at <= children@.len(),
            edges@ == began + fresh_of(children@.take(at as int)),
        decreases children@.len() - at,
    {
        let ghost next = children@.take(at as int + 1);
        assert(next.drop_last() =~= children@.take(at as int));
        let ghost before = edges@;
        if children[at].fresh {
            let mut more: Vec<usize> = crate::graph::copied_ids(
                &children[at].subgraph.fresh_edges,
            );
            edges.append(&mut more);
        }
        assert(edges@ =~= began + fresh_of(next));
        at += 1;
    }
    assert(children@.take(at as int) =~= children@);
}

impl SerialJobs {
    /// No recipe recorded yet.
    pub fn new() -> (jobs: Self)
        ensures
            jobs.jobs@.len() == 0,
    {
        SerialJobs { jobs: Vec::new() }
    }

    /// Record one recipe that is going to run as one job: its wrapper, and every
    /// edge of the children it composed. A child it only reached is held by the
    /// recipe that composed it.
    pub fn push(&mut self, wrapper: usize, children: &[ChildGroup], completion: Vec<usize>)
        ensures
            final(self).jobs@.len() == old(self).jobs@.len() + 1,
            final(self).jobs@.drop_last() == old(self).jobs@,
            final(self).jobs@.last().completion == completion,
            final(self).jobs@.last().edges@ == seq![wrapper] + fresh_of(children@),
    {
        let ghost before = self.jobs@;
        let mut edges: Vec<usize> = Vec::new();
        edges.push(wrapper);
        assert(edges@ =~= seq![wrapper]);
        push_fresh(&mut edges, children);
        self.jobs.push(SerialJob { completion, edges });
        assert(self.jobs@.drop_last() =~= before);
    }

    /// Hold each job behind the one before it, over a composition that
    /// completed.
    pub fn chain(&self, sink: &mut GraphSink)
        requires
            old(sink).wf(),
            forall|i: int|
                0 <= i < self.jobs@.len() ==> job_ok(
                    #[trigger] self.jobs@[i],
                    old(sink).model().graph,
                ),
        ensures
            final(sink).wf(),
            final(sink).settled_as(*old(sink)),
            final(sink).model() == (SinkModel {
                graph: chained(
                    old(sink).model().graph,
                    self.jobs@,
                    self.jobs@.len() as int,
                ),
                ..old(sink).model()
            }),
    {
        sink.chain_serial_jobs(&self.jobs);
    }
}

/// Every edge one unit's compilation has taken into its closure, in the order it
/// took them, and a set that answers whether one is there.
#[derive(Debug)]
pub struct EdgeClosure {
    pub edges: Vec<usize>,
    pub seen: HashSet<usize>,
}

impl EdgeClosure {
    /// The set holds what the list does.
    pub open spec fn wf(&self) -> bool {
        forall|edge: usize| #[trigger] self.seen@.contains(edge) <==> self.edges@.contains(edge)
    }

    /// The closure a unit starts with: the edges its own Makefiles emitted.
    pub fn of(edges: Vec<usize>) -> (closure: Self)
        ensures
            closure.wf(),
            closure.edges@ == edges@,
    {
        broadcast use group_hash_axioms;

        let mut seen: HashSet<usize> = HashSet::new();
        let mut at: usize = 0;
        while at < edges.len()
            invariant
                at <= edges@.len(),
                forall|edge: usize| #[trigger]
                    seen@.contains(edge) <==> edges@.take(at as int).contains(edge),
            decreases edges@.len() - at,
        {
            let ghost taken = edges@.take(at as int);
            let ghost more = edges@.take(at as int + 1);
            assert(more =~= taken.push(edges@[at as int]));
            seen.insert(edges[at]);
            assert forall|edge: usize| #[trigger] seen@.contains(edge) <==> more.contains(edge) by {
                contains_after_push(taken, edges@[at as int], edge);
            }
            at += 1;
        }
        assert(edges@.take(at as int) =~= edges@);
        EdgeClosure { edges, seen }
    }

    /// Take one edge this unit made itself.
    pub fn push(&mut self, edge: usize)
        requires
            old(self).wf(),
        ensures
            final(self).wf(),
            final(self).edges@ == old(self).edges@.push(edge),
    {
        broadcast use group_hash_axioms;

        let ghost before = self.edges@;
        self.seen.insert(edge);
        self.edges.push(edge);
        assert forall|other: usize| #[trigger] self.seen@.contains(other)
            <==> self.edges@.contains(other) by {
            contains_after_push(before, edge, other);
        }
    }

    /// Take one edge a child contributed, if the closure has not got it.
    pub fn adopt(&mut self, edge: usize)
        requires
            old(self).wf(),
        ensures
            final(self).wf(),
            final(self).edges@ == (if old(self).edges@.contains(edge) {
                old(self).edges@
            } else {
                old(self).edges@.push(edge)
            }),
    {
        broadcast use group_hash_axioms;

        let ghost before = self.edges@;
        if self.seen.insert(edge) {
            self.edges.push(edge);
            assert forall|other: usize| #[trigger] self.seen@.contains(other)
                <==> self.edges@.contains(other) by {
                contains_after_push(before, edge, other);
            }
        } else {
            assert(old(self).seen@.insert(edge) =~= old(self).seen@);
        }
    }

    /// The closure, in the order it was taken.
    pub fn into_edges(self) -> (edges: Vec<usize>)
        ensures
            edges == self.edges,
    {
        self.edges
    }
}

proof fn contains_after_push(list: Seq<usize>, added: usize, edge: usize)
    ensures
        list.push(added).contains(edge) <==> list.contains(edge) || edge == added,
{
    let longer = list.push(added);
    if list.contains(edge) {
        let i = choose|i: int| 0 <= i < list.len() && list[i] == edge;
        assert(longer[i] == edge);
    }
    if edge == added {
        assert(longer[list.len() as int] == edge);
    }
    if longer.contains(edge) && edge != added {
        let i = choose|i: int| 0 <= i < longer.len() && longer[i] == edge;
        assert(list[i] == edge);
    }
}

/// With the edges of the first `count` children adopted.
pub open spec fn adopted(edges: Seq<usize>, groups: Seq<ChildGroup>, count: int) -> Seq<usize>
    decreases count,
{
    if count <= 0 {
        edges
    } else {
        with_missing(adopted(edges, groups, count - 1), groups[count - 1].subgraph.edges@)
    }
}

/// Take what one recipe's children contribute into the unit's closure, and what
/// the ones this recipe composed made into what the unit made.
pub fn adopt_child_groups(
    child_groups: &[ChildGroup],
    subtree_edges: &mut EdgeClosure,
    fresh_edges: &mut Vec<usize>,
)
    requires
        old(subtree_edges).wf(),
    ensures
        final(subtree_edges).wf(),
        final(subtree_edges).edges@ == adopted(
            old(subtree_edges).edges@,
            child_groups@,
            child_groups@.len() as int,
        ),
        final(fresh_edges)@ == old(fresh_edges)@ + fresh_of(child_groups@),
{
    push_fresh(fresh_edges, child_groups);
    let ghost began = subtree_edges.edges@;
    let mut at: usize = 0;
    while at < child_groups.len()
        invariant
            at <= child_groups@.len(),
            subtree_edges.wf(),
            subtree_edges.edges@ == adopted(began, child_groups@, at as int),
        decreases child_groups@.len() - at,
    {
        let more: &Vec<usize> = &child_groups[at].subgraph.edges;
        let ghost before = subtree_edges.edges@;
        let mut edge: usize = 0;
        assert(more@.take(0) =~= Seq::empty());
        while edge < more.len()
            invariant
                edge <= more@.len(),
                subtree_edges.wf(),
                subtree_edges.edges@ == with_missing(before, more@.take(edge as int)),
            decreases more@.len() - edge,
        {
            let ghost next = more@.take(edge as int + 1);
            assert(next.drop_last() =~= more@.take(edge as int));
            subtree_edges.adopt(more[edge]);
            edge += 1;
        }
        assert(more@.take(edge as int) =~= more@);
        at += 1;
    }
}

/// Adopting children keeps what a closure held where it was, adds every edge of
/// theirs, and none twice.
pub proof fn a_shared_child_lands_once(edges: Seq<usize>, groups: Seq<ChildGroup>, count: int)
    requires
        0 <= count <= groups.len(),
        edges.no_duplicates(),
    ensures
        adopted(edges, groups, count).no_duplicates(),
        edges.len() <= adopted(edges, groups, count).len(),
        adopted(edges, groups, count).take(edges.len() as int) == edges,
        forall|i: int, edge: usize|
            0 <= i < count && #[trigger] groups[i].subgraph.edges@.contains(edge) ==> adopted(
                edges,
                groups,
                count,
            ).contains(edge),
    decreases count,
{
    if count == 0 {
        assert(edges.take(edges.len() as int) =~= edges);
    } else {
        a_shared_child_lands_once(edges, groups, count - 1);
        let before = adopted(edges, groups, count - 1);
        let more = groups[count - 1].subgraph.edges@;
        crate::graph::missing_is_added(before, more);
        missing_is_added_once(before, more);
        let after = adopted(edges, groups, count);
        assert(after.take(edges.len() as int) =~= before.take(edges.len() as int)) by {
            assert forall|i: int| 0 <= i < edges.len() implies after[i] == before[i] by {
                assert(after.take(before.len() as int)[i] == before[i]);
            }
        }
    }
}

proof fn missing_is_added_once(list: Seq<usize>, more: Seq<usize>)
    requires
        list.no_duplicates(),
    ensures
        with_missing(list, more).no_duplicates(),
    decreases more.len(),
{
    if more.len() > 0 {
        missing_is_added_once(list, more.drop_last());
    }
}

} // verus!
