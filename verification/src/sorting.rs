//! Byte strings in their lexicographic order, and lists sorted by it.

use crate::bytes::maybe;
use vstd::prelude::*;
use vstd::seq_lib::*;

verus! {

/// Whether `left` stands at or before `right` in lexicographic order.
pub open spec fn at_or_before(left: Seq<u8>, right: Seq<u8>) -> bool
    decreases left.len(),
{
    if left.len() == 0 {
        true
    } else if right.len() == 0 {
        false
    } else if left[0] != right[0] {
        left[0] < right[0]
    } else {
        at_or_before(left.drop_first(), right.drop_first())
    }
}

/// Of two byte strings one stands at or before the other.
pub proof fn order_is_total(left: Seq<u8>, right: Seq<u8>)
    ensures
        at_or_before(left, right) || at_or_before(right, left),
    decreases left.len(),
{
    if left.len() > 0 && right.len() > 0 && left[0] == right[0] {
        order_is_total(left.drop_first(), right.drop_first());
    }
}

/// What stands before a byte string stands before whatever it stands before.
pub proof fn order_is_transitive(left: Seq<u8>, middle: Seq<u8>, right: Seq<u8>)
    requires
        at_or_before(left, middle),
        at_or_before(middle, right),
    ensures
        at_or_before(left, right),
    decreases left.len(),
{
    if left.len() > 0 && left[0] == middle[0] && middle[0] == right[0] {
        order_is_transitive(left.drop_first(), middle.drop_first(), right.drop_first());
    }
}

/// Two byte strings that each stand at or before the other are the same.
pub proof fn order_is_antisymmetric(left: Seq<u8>, right: Seq<u8>)
    requires
        at_or_before(left, right),
        at_or_before(right, left),
    ensures
        left == right,
    decreases left.len(),
{
    if left.len() > 0 {
        order_is_antisymmetric(left.drop_first(), right.drop_first());
        assert(left =~= seq![left[0]] + left.drop_first());
        assert(right =~= seq![right[0]] + right.drop_first());
    } else {
        assert(left =~= right);
    }
}

/// Whether `left` stands at or before `right` in lexicographic order.
pub fn precedes(left: &[u8], right: &[u8]) -> (answer: bool)
    ensures
        answer == at_or_before(left@, right@),
{
    let mut at: usize = 0;
    proof {
        assert(left@.skip(0) =~= left@);
        assert(right@.skip(0) =~= right@);
    }
    while at < left.len()
        invariant
            at <= left@.len(),
            at <= right@.len(),
            at_or_before(left@, right@) == at_or_before(
                left@.skip(at as int),
                right@.skip(at as int),
            ),
        decreases left.len() - at,
    {
        if at == right.len() {
            return false;
        }
        if left[at] != right[at] {
            return left[at] < right[at];
        }
        assert(left@.skip(at as int).drop_first() =~= left@.skip(at as int + 1));
        assert(right@.skip(at as int).drop_first() =~= right@.skip(at as int + 1));
        at += 1;
    }
    true
}

/// A value that is ordered by a byte string it holds.
pub trait Keyed: Sized {
    /// What the value is.
    type M;

    /// What the value is.
    spec fn meaning(&self) -> Self::M;

    /// What the value is ordered by.
    spec fn key(&self) -> Seq<u8>;

    /// What a value that is this is ordered by.
    spec fn key_of(meaning: Self::M) -> Seq<u8>;

    /// What the value is decides what it is ordered by.
    proof fn meaning_decides_key(&self)
        ensures
            self.key() == Self::key_of(self.meaning()),
    ;

    /// What the value is ordered by.
    fn key_bytes(&self) -> (key: &[u8])
        ensures
            key@ == self.key(),
    ;
}

impl Keyed for Vec<u8> {
    type M = Seq<u8>;

    open spec fn meaning(&self) -> Seq<u8> {
        self@
    }

    open spec fn key(&self) -> Seq<u8> {
        self@
    }

    open spec fn key_of(meaning: Seq<u8>) -> Seq<u8> {
        meaning
    }

    proof fn meaning_decides_key(&self) {
    }

    fn key_bytes(&self) -> (key: &[u8]) {
        self
    }
}

impl Keyed for (Vec<u8>, Vec<u8>) {
    type M = (Seq<u8>, Seq<u8>);

    open spec fn meaning(&self) -> (Seq<u8>, Seq<u8>) {
        (self.0@, self.1@)
    }

    open spec fn key(&self) -> Seq<u8> {
        self.0@
    }

    open spec fn key_of(meaning: (Seq<u8>, Seq<u8>)) -> Seq<u8> {
        meaning.0
    }

    proof fn meaning_decides_key(&self) {
    }

    fn key_bytes(&self) -> (key: &[u8]) {
        &self.0
    }
}

impl Keyed for (Vec<u8>, Option<Vec<u8>>) {
    type M = (Seq<u8>, Option<Seq<u8>>);

    open spec fn meaning(&self) -> (Seq<u8>, Option<Seq<u8>>) {
        (self.0@, maybe(self.1))
    }

    open spec fn key(&self) -> Seq<u8> {
        self.0@
    }

    open spec fn key_of(meaning: (Seq<u8>, Option<Seq<u8>>)) -> Seq<u8> {
        meaning.0
    }

    proof fn meaning_decides_key(&self) {
    }

    fn key_bytes(&self) -> (key: &[u8]) {
        &self.0
    }
}

/// What each value of a list is.
pub open spec fn meanings<T: Keyed>(values: Seq<T>) -> Seq<T::M> {
    Seq::new(values.len(), |i: int| values[i].meaning())
}

/// Whether two lists hold the same values, each as often.
pub open spec fn same_values<T: Keyed>(left: Seq<T>, right: Seq<T>) -> bool {
    meanings(left).to_multiset() == meanings(right).to_multiset()
}

/// Whether every value stands at or before the ones after it.
pub open spec fn in_order<T: Keyed>(values: Seq<T>) -> bool {
    forall|i: int, j: int|
        0 <= i < j < values.len() ==> at_or_before(
            (#[trigger] values[i]).key(),
            (#[trigger] values[j]).key(),
        )
}

/// Whether no two values are ordered by the same byte string.
pub open spec fn keys_apart<T: Keyed>(values: Seq<T>) -> bool {
    forall|i: int, j: int|
        0 <= i < j < values.len() ==> (#[trigger] values[i]).key() != (#[trigger] values[j]).key()
}

/// What one list holds stands somewhere in a list that holds as much of
/// everything.
pub proof fn held_by_both<A>(left: Seq<A>, right: Seq<A>, at: int) -> (place: int)
    requires
        left.to_multiset() == right.to_multiset(),
        0 <= at < left.len(),
    ensures
        0 <= place < right.len(),
        right[place] == left[at],
{
    left.to_multiset_ensures();
    right.to_multiset_ensures();
    assert(left.contains(left[at]));
    assert(left.to_multiset().count(left[at]) > 0);
    assert(right.to_multiset().count(left[at]) > 0);
    choose|place: int| 0 <= place < right.len() && right[place] == left[at]
}

/// A value of one list stands somewhere in a list that holds the same values.
proof fn place_in_the_other<T: Keyed>(left: Seq<T>, right: Seq<T>, at: int) -> (place: int)
    requires
        same_values(left, right),
        0 <= at < left.len(),
    ensures
        0 <= place < right.len(),
        right[place].meaning() == left[at].meaning(),
        right[place].key() == left[at].key(),
{
    let place = held_by_both(meanings(left), meanings(right), at);
    left[at].meaning_decides_key();
    right[place].meaning_decides_key();
    place
}

/// Keys that are apart are apart in whatever order their values stand.
pub proof fn keys_stay_apart<T: Keyed>(values: Seq<T>, ordered: Seq<T>)
    requires
        keys_apart(values),
        same_values(ordered, values),
    ensures
        keys_apart(ordered),
{
    let all = meanings(values);
    assert(all.no_duplicates()) by {
        assert forall|i: int, j: int| 0 <= i < all.len() && 0 <= j < all.len() && i != j implies
            all[i] != all[j] by {
            values[i].meaning_decides_key();
            values[j].meaning_decides_key();
            if i < j {
                assert(values[i].key() != values[j].key());
            } else {
                assert(values[j].key() != values[i].key());
            }
        }
    }
    all.lemma_multiset_has_no_duplicates();
    meanings(ordered).lemma_multiset_has_no_duplicates_conv();
    assert forall|i: int, j: int| 0 <= i < j < ordered.len() implies (
    #[trigger] ordered[i]).key() != (#[trigger] ordered[j]).key() by {
        let first = place_in_the_other(ordered, values, i);
        let second = place_in_the_other(ordered, values, j);
        assert(meanings(ordered)[i] != meanings(ordered)[j]);
        if first < second {
            assert(values[first].key() != values[second].key());
        } else {
            assert(first != second);
            assert(values[second].key() != values[first].key());
        }
    }
}

/// Values whose keys are apart have one order only: two lists of them that are
/// both in order are the same list.
pub proof fn order_is_one_only<T: Keyed>(left: Seq<T>, right: Seq<T>)
    requires
        in_order(left),
        in_order(right),
        same_values(left, right),
        keys_apart(left),
    ensures
        meanings(left) == meanings(right),
    decreases left.len(),
{
    let (ours, theirs) = (meanings(left), meanings(right));
    ours.to_multiset_ensures();
    theirs.to_multiset_ensures();
    assert(left.len() == right.len());
    if left.len() > 0 {
        let last = left.len() - 1;
        let mine = place_in_the_other(right, left, last);
        let yours = place_in_the_other(left, right, last);
        if mine < last {
            assert(at_or_before(left[mine].key(), left[last].key()));
            assert(left[mine].key() != left[last].key());
            if yours < last {
                assert(at_or_before(right[yours].key(), right[last].key()));
            }
            order_is_antisymmetric(left[mine].key(), left[last].key());
        }
        assert(ours.last() == theirs.last());
        let (fewer, rest) = (left.drop_last(), right.drop_last());
        assert(ours =~= meanings(fewer).push(ours.last()));
        assert(theirs =~= meanings(rest).push(theirs.last()));
        to_multiset_build(meanings(fewer), ours.last());
        to_multiset_build(meanings(rest), theirs.last());
        assert(meanings(fewer).to_multiset() =~= ours.to_multiset().remove(ours.last()));
        assert(meanings(rest).to_multiset() =~= theirs.to_multiset().remove(theirs.last()));
        assert forall|i: int, j: int| 0 <= i < j < fewer.len() implies at_or_before(
            (#[trigger] fewer[i]).key(),
            (#[trigger] fewer[j]).key(),
        ) && fewer[i].key() != fewer[j].key() by {
            assert(fewer[i] == left[i] && fewer[j] == left[j]);
        }
        assert forall|i: int, j: int| 0 <= i < j < rest.len() implies at_or_before(
            (#[trigger] rest[i]).key(),
            (#[trigger] rest[j]).key(),
        ) by {
            assert(rest[i] == right[i] && rest[j] == right[j]);
        }
        order_is_one_only(fewer, rest);
    } else {
        assert(ours =~= theirs);
    }
}

proof fn inserted_holds_one_more<T>(values: Seq<T>, at: int, value: T)
    requires
        0 <= at <= values.len(),
    ensures
        values.insert(at, value).to_multiset() == values.to_multiset().insert(value),
{
    let longer = values.insert(at, value);
    assert(longer.remove(at) =~= values);
    to_multiset_remove(longer, at);
    longer.to_multiset_ensures();
    assert(longer[at] == value);
    assert(longer.contains(value));
    assert(longer.to_multiset().count(value) > 0);
    assert(values.to_multiset().insert(value) =~= longer.to_multiset());
}

/// The same values in order.
pub fn sorted<T: Keyed>(values: Vec<T>) -> (ordered: Vec<T>)
    ensures
        in_order(ordered@),
        same_values(ordered@, values@),
{
    let ghost all = meanings(values@);
    let mut ordered: Vec<T> = Vec::new();
    let mut rest: Vec<T> = values;
    proof {
        meanings(ordered@).to_multiset_ensures();
        assert(all.to_multiset() =~= meanings(rest@).to_multiset().add(meanings(ordered@).to_multiset())) by {
            assert(meanings(ordered@) =~= Seq::<T::M>::empty());
            assert(meanings(ordered@).to_multiset().len() == 0);
            assert(meanings(ordered@).to_multiset() =~= vstd::multiset::Multiset::empty());
        }
    }
    loop
        invariant
            in_order(ordered@),
            all.to_multiset() == meanings(rest@).to_multiset().add(meanings(ordered@).to_multiset()),
        ensures
            in_order(ordered@),
            rest@.len() == 0,
            all.to_multiset() == meanings(rest@).to_multiset().add(meanings(ordered@).to_multiset()),
        decreases rest@.len(),
    {
        let ghost before = rest@;
        let value = match rest.pop() {
            Some(value) => value,
            None => {
                break;
            },
        };
        let mut place: usize = 0;
        while place < ordered.len() && !precedes(value.key_bytes(), ordered[place].key_bytes())
            invariant
                place <= ordered@.len(),
                forall|i: int|
                    0 <= i < place ==> !at_or_before(value.key(), (#[trigger] ordered@[i]).key()),
            decreases ordered@.len() - place,
        {
            place += 1;
        }
        let ghost standing = ordered@;
        ordered.insert(place, value);
        proof {
            assert(meanings(ordered@) =~= meanings(standing).insert(place as int, value.meaning()));
            inserted_holds_one_more(meanings(standing), place as int, value.meaning());
            assert(meanings(before) =~= meanings(rest@).push(value.meaning()));
            to_multiset_build(meanings(rest@), value.meaning());
            assert(all.to_multiset() =~= meanings(rest@).to_multiset().add(meanings(ordered@).to_multiset()));
            assert forall|i: int, j: int| 0 <= i < j < ordered@.len() implies at_or_before(
                (#[trigger] ordered@[i]).key(),
                (#[trigger] ordered@[j]).key(),
            ) by {
                let p = place as int;
                if j < p {
                    assert(ordered@[i] == standing[i] && ordered@[j] == standing[j]);
                } else if i > p {
                    assert(ordered@[i] == standing[i - 1] && ordered@[j] == standing[j - 1]);
                } else if j == p {
                    assert(ordered@[i] == standing[i]);
                    order_is_total(value.key(), standing[i].key());
                } else if i == p {
                    assert(ordered@[j] == standing[j - 1]);
                    assert(at_or_before(value.key(), standing[p].key()));
                    if j - 1 > p {
                        order_is_transitive(value.key(), standing[p].key(), standing[j - 1].key());
                    }
                } else {
                    assert(ordered@[i] == standing[i] && ordered@[j] == standing[j - 1]);
                }
            }
        }
    }
    proof {
        meanings(rest@).to_multiset_ensures();
        assert(meanings(rest@).to_multiset() =~= vstd::multiset::Multiset::empty());
        assert(all.to_multiset() =~= meanings(ordered@).to_multiset());
    }
    ordered
}

} // verus!
