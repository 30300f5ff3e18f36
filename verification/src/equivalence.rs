//! Two graphs of one Makefile, held against each other.
//!
//! The same rules and edges can be handed to a graph and to a manifest. Any
//! disagreement between the graph and what is read back out of the manifest is
//! a defect in one of the two paths rather than a difference between two runs.

use crate::bytes::{
    append, copied, join, joined, literal, lossy, maybe, quote_shown, same, shown_quoted, text,
    texts, to_str_lossy,
};
use crate::describing::{
    describe_edge, drop_synthetic, edge_described, seen_outputs, seen_paths, semantic_paths,
    without_synthetic, EdgeSemantics, Side,
};
use crate::graph::{BuildGraph, GraphModel};
use crate::sorting::{at_or_before, meanings, sorted, Keyed};
use crate::table::{mapped_keys, Key, Table};
use vstd::prelude::*;
use vstd::seq_lib::*;
use vstd::string::*;

verus! {

/// A map with each value as its bytes.
pub open spec fn written(map: Map<Seq<u8>, Vec<u8>>) -> Map<Seq<u8>, Seq<u8>> {
    Map::new(|key: Seq<u8>| map.dom().contains(key), |key: Seq<u8>| map[key]@)
}

/// Every edge of a graph makes something.
pub open spec fn makes_something(graph: GraphModel) -> bool {
    forall|i: int|
        0 <= i < graph.edges.len() ==> seen_outputs(graph, #[trigger] graph.edges[i]).len() > 0
}

/// The first `count` edges of a graph, each described under the outputs it is
/// known by.
pub open spec fn shape_of(
    graph: GraphModel,
    semantics: EdgeSemantics,
    side: Side,
    count: int,
) -> Map<Seq<u8>, Seq<u8>>
    decreases count,
{
    if count <= 0 {
        Map::empty()
    } else {
        let before = shape_of(graph, semantics, side, count - 1);
        match edge_described(graph, graph.edges[count - 1], semantics, side) {
            Some((key, said)) => before.insert(key, said),
            None => before,
        }
    }
}

/// Every edge of a graph, by the outputs it is known by.
pub fn shape(graph: &BuildGraph, semantics: &EdgeSemantics, side: Side) -> (edges: Table<
    Vec<u8>,
    Vec<u8>,
>)
    requires
        graph.model().wf(),
        semantics.wf(),
        makes_something(graph.model()),
    ensures
        edges.wf(),
        written(edges@) == shape_of(
            graph.model(),
            *semantics,
            side,
            graph.model().edges.len() as int,
        ),
{
    let ghost model = graph.model();
    let mut edges: Table<Vec<u8>, Vec<u8>> = Table::new();
    let mut at: usize = 0;
    assert(written(edges@) =~= Map::empty());
    while at < graph.edges.len()
        invariant
            at <= graph.edges@.len(),
            model == graph.model(),
            model.wf(),
            semantics.wf(),
            makes_something(model),
            model.edges.len() == graph.edges@.len(),
            edges.wf(),
            written(edges@) == shape_of(model, *semantics, side, at as int),
        decreases graph.edges@.len() - at,
    {
        assert(seen_outputs(model, model.edges[at as int]).len() > 0);
        let ghost before = edges@;
        if let Some((key, said)) = describe_edge(graph, at, semantics, side) {
            let ghost named = key@;
            let ghost told = said@;
            edges.put(key, said);
            assert(written(edges@) =~= written(before).insert(named, told));
        }
        at += 1;
    }
    edges
}

/// The default targets as a Makefile sees them, without the one a manifest
/// invents.
pub fn defaults(graph: &BuildGraph) -> (paths: Vec<Vec<u8>>)
    requires
        graph.model().wf(),
    ensures
        texts(paths@) == without_synthetic(seen_paths(graph.model(), graph.model().defaults)),
{
    let seen: Vec<Vec<u8>> = semantic_paths(graph, graph.default_targets());
    drop_synthetic(&seen)
}

/// How two accounts of one key disagree, where they do.
pub open spec fn disagreement(
    mine: Map<Seq<u8>, Seq<u8>>,
    theirs: Map<Seq<u8>, Seq<u8>>,
    key: Seq<u8>,
) -> Option<Seq<u8>> {
    if mine.dom().contains(key) && theirs.dom().contains(key) {
        if mine[key] == theirs[key] {
            None
        } else {
            Some(
                text("edge ") + lossy(key) + text(":\ndirect:\n") + mine[key] + text(
                    "manifest:\n",
                ) + theirs[key],
            )
        }
    } else if mine.dom().contains(key) {
        Some(text("edge ") + lossy(key) + text(" only direct"))
    } else {
        Some(text("edge ") + lossy(key) + text(" only in manifest"))
    }
}

/// How two accounts of some keys disagree, one after another.
pub open spec fn disagreements(
    mine: Map<Seq<u8>, Seq<u8>>,
    theirs: Map<Seq<u8>, Seq<u8>>,
    keys: Seq<Seq<u8>>,
) -> Seq<Seq<u8>>
    decreases keys.len(),
{
    if keys.len() == 0 {
        Seq::empty()
    } else {
        let before = disagreements(mine, theirs, keys.drop_last());
        match disagreement(mine, theirs, keys.last()) {
            Some(said) => before.push(said),
            None => before,
        }
    }
}

/// A list with each run of equal items as one.
pub open spec fn once_each(list: Seq<Seq<u8>>) -> Seq<Seq<u8>>
    decreases list.len(),
{
    if list.len() == 0 {
        Seq::empty()
    } else {
        let before = once_each(list.drop_last());
        if list.len() > 1 && list[list.len() - 2] == list.last() {
            before
        } else {
            before.push(list.last())
        }
    }
}

/// Some paths, as a reader sees a list of them.
pub open spec fn quoted_list(paths: Seq<Seq<u8>>) -> Seq<u8> {
    text("[") + joined(
        Seq::new(paths.len(), |i: int| shown_quoted(paths[i])),
        text(", "),
    ) + text("]")
}

/// How the default targets disagree, where they do.
pub open spec fn default_disagreement(mine: Seq<Seq<u8>>, theirs: Seq<Seq<u8>>) -> Seq<Seq<u8>> {
    if mine == theirs {
        Seq::empty()
    } else {
        seq![
            text("default targets: direct ") + quoted_list(mine) + text(", manifest ")
                + quoted_list(theirs),
        ]
    }
}

/// Whether a list is the keys of a map, in their order and each once.
pub open spec fn are_keys(keys: Seq<Seq<u8>>, map: Map<Seq<u8>, Seq<u8>>) -> bool {
    &&& keys.no_duplicates()
    &&& forall|i: int, j: int|
        0 <= i < j < keys.len() ==> at_or_before(#[trigger] keys[i], #[trigger] keys[j])
    &&& forall|key: Seq<u8>| #[trigger] keys.contains(key) <==> map.dom().contains(key)
}

fn show_quoted(paths: &[Vec<u8>]) -> (shown: Vec<u8>)
    ensures
        shown@ == quoted_list(texts(paths@)),
{
    let ghost wanted = Seq::new(paths@.len(), |i: int| shown_quoted(paths@[i]@));
    let mut pieces: Vec<Vec<u8>> = Vec::new();
    let mut at: usize = 0;
    assert(texts(pieces@) =~= wanted.take(0));
    while at < paths.len()
        invariant
            at <= paths@.len(),
            wanted == Seq::new(paths@.len(), |i: int| shown_quoted(paths@[i]@)),
            texts(pieces@) == wanted.take(at as int),
        decreases paths@.len() - at,
    {
        let ghost before = texts(pieces@);
        let piece: Vec<u8> = quote_shown(&paths[at]);
        let ghost added = piece@;
        pieces.push(piece);
        assert(texts(pieces@) =~= before.push(added));
        assert(texts(pieces@) =~= wanted.take(at as int + 1));
        at += 1;
    }
    assert(wanted.take(at as int) =~= wanted);
    assert(wanted =~= Seq::new(texts(paths@).len(), |i: int| shown_quoted(texts(paths@)[i])));
    let mut shown: Vec<u8> = literal("[");
    append(&mut shown, &join(&pieces, ", ".as_bytes()));
    append(&mut shown, "]".as_bytes());
    shown
}

proof fn same_items(left: Seq<Seq<u8>>, right: Seq<Seq<u8>>)
    requires
        left.to_multiset() == right.to_multiset(),
    ensures
        forall|item: Seq<u8>| #[trigger] left.contains(item) <==> right.contains(item),
        right.no_duplicates() ==> left.no_duplicates(),
{
    left.to_multiset_ensures();
    right.to_multiset_ensures();
    assert forall|item: Seq<u8>| #[trigger] left.contains(item) <==> right.contains(item) by {
        assert(left.to_multiset().contains(item) == right.to_multiset().contains(item));
        assert(left.contains(item) <==> left.to_multiset().count(item) > 0);
        assert(right.contains(item) <==> right.to_multiset().count(item) > 0);
    }
    if right.no_duplicates() {
        right.lemma_multiset_has_no_duplicates();
        left.lemma_multiset_has_no_duplicates_conv();
    }
}

/// The keys of a table, in their order.
fn ordered_keys(table: &Table<Vec<u8>, Vec<u8>>) -> (keys: Vec<Vec<u8>>)
    requires
        table.wf(),
    ensures
        are_keys(texts(keys@), written(table@)),
{
    let ghost entries = table.entries@;
    let mut names: Vec<Vec<u8>> = Vec::new();
    let mut at: usize = 0;
    while at < table.entries.len()
        invariant
            at <= table.entries@.len(),
            entries == table.entries@,
            names@.len() == at,
            forall|i: int| 0 <= i < at ==> (#[trigger] names@[i])@ == entries[i].0@,
        decreases table.entries@.len() - at,
    {
        names.push(copied(&table.entries[at].0));
        at += 1;
    }
    let ghost all = names@;
    let keys: Vec<Vec<u8>> = sorted(names);
    proof {
        let listed = texts(keys@);
        let unsorted = texts(all);
        assert(meanings(keys@) =~= listed);
        assert(meanings(all) =~= unsorted);
        assert(unsorted.no_duplicates()) by {
            assert forall|i: int, j: int|
                0 <= i < unsorted.len() && 0 <= j < unsorted.len() && i != j implies unsorted[i]
                != unsorted[j] by {
                assert(all[i]@ == entries[i].0@ && all[j]@ == entries[j].0@);
                if i < j {
                    assert(entries[i].0.name() != entries[j].0.name());
                } else {
                    assert(entries[j].0.name() != entries[i].0.name());
                }
            }
        }
        same_items(listed, unsorted);
        mapped_keys(entries);
        assert forall|key: Seq<u8>| #[trigger]
            listed.contains(key) <==> written(table@).dom().contains(key) by {
            if unsorted.contains(key) {
                let i = choose|i: int| 0 <= i < unsorted.len() && unsorted[i] == key;
                assert(all[i]@ == entries[i].0@);
                assert(entries[i].0.name() == key);
                assert(table@.dom().contains(key));
            }
            if table@.dom().contains(key) {
                let i = choose|i: int|
                    0 <= i < entries.len() && (#[trigger] entries[i]).0.name() == key;
                assert(all[i]@ == entries[i].0@);
                assert(unsorted[i] == key);
            }
        }
        assert forall|i: int, j: int| 0 <= i < j < listed.len() implies at_or_before(
            #[trigger] listed[i],
            #[trigger] listed[j],
        ) by {
            assert(at_or_before(keys@[i].key(), keys@[j].key()));
        }
    }
    keys
}

fn find_disagreement(
    mine: &Table<Vec<u8>, Vec<u8>>,
    theirs: &Table<Vec<u8>, Vec<u8>>,
    key: &Vec<u8>,
) -> (said: Option<Vec<u8>>)
    requires
        mine.wf(),
        theirs.wf(),
    ensures
        maybe(said) == disagreement(written(mine@), written(theirs@), key@),
{
    let mut said: Vec<u8> = literal("edge ");
    append(&mut said, &to_str_lossy(key));
    match (mine.get(key), theirs.get(key)) {
        (Some(one), Some(other)) => {
            if same(one, other) {
                return None;
            }
            append(&mut said, ":\ndirect:\n".as_bytes());
            append(&mut said, one);
            append(&mut said, "manifest:\n".as_bytes());
            append(&mut said, other);
        },
        (Some(_), None) => {
            append(&mut said, " only direct".as_bytes());
        },
        _ => {
            append(&mut said, " only in manifest".as_bytes());
        },
    }
    Some(said)
}

fn keep_once(list: Vec<Vec<u8>>) -> (kept: Vec<Vec<u8>>)
    ensures
        texts(kept@) == once_each(texts(list@)),
{
    let ghost all = texts(list@);
    let mut kept: Vec<Vec<u8>> = Vec::new();
    let mut at: usize = 0;
    assert(all.take(0) =~= Seq::empty());
    assert(texts(kept@) =~= Seq::empty());
    while at < list.len()
        invariant
            at <= list@.len(),
            all == texts(list@),
            texts(kept@) == once_each(all.take(at as int)),
        decreases list@.len() - at,
    {
        let ghost next = all.take(at as int + 1);
        assert(next.drop_last() =~= all.take(at as int));
        assert(next.last() == list@[at as int]@);
        let ghost before = texts(kept@);
        if at == 0 || !same(&list[at - 1], &list[at]) {
            assert(at > 0 ==> next[next.len() - 2] == list@[at - 1]@);
            kept.push(copied(&list[at]));
            assert(texts(kept@) =~= before.push(list@[at as int]@));
        } else {
            assert(next[next.len() - 2] == list@[at - 1]@);
        }
        at += 1;
    }
    assert(all.take(at as int) =~= all);
    kept
}

proof fn agreeing_keys(
    mine: Map<Seq<u8>, Seq<u8>>,
    theirs: Map<Seq<u8>, Seq<u8>>,
    keys: Seq<Seq<u8>>,
)
    ensures
        disagreements(mine, theirs, keys).len() == 0 <==> forall|key: Seq<u8>| #[trigger]
            keys.contains(key) ==> disagreement(mine, theirs, key) is None,
    decreases keys.len(),
{
    if keys.len() > 0 {
        let before = keys.drop_last();
        agreeing_keys(mine, theirs, before);
        assert(keys[keys.len() - 1] == keys.last());
        assert(keys.contains(keys.last()));
        if disagreements(mine, theirs, keys).len() == 0 {
            assert forall|key: Seq<u8>| #[trigger] keys.contains(key) implies disagreement(
                mine,
                theirs,
                key,
            ) is None by {
                let i = choose|i: int| 0 <= i < keys.len() && keys[i] == key;
                if i < before.len() {
                    assert(before[i] == key);
                    assert(before.contains(key));
                }
            }
        }
        if forall|key: Seq<u8>| #[trigger]
            keys.contains(key) ==> disagreement(mine, theirs, key) is None {
            assert forall|key: Seq<u8>| #[trigger] before.contains(key) implies disagreement(
                mine,
                theirs,
                key,
            ) is None by {
                let i = choose|i: int| 0 <= i < before.len() && before[i] == key;
                assert(keys[i] == key);
                assert(keys.contains(key));
            }
        }
    }
}

proof fn once_is_some(list: Seq<Seq<u8>>)
    ensures
        once_each(list).len() == 0 <==> list.len() == 0,
    decreases list.len(),
{
    if list.len() > 0 {
        once_is_some(list.drop_last());
    }
}

/// Two graphs disagree about nothing exactly where they say the same of every
/// edge and have the same default targets.
pub proof fn agreement_is_equality(
    mine: Map<Seq<u8>, Seq<u8>>,
    theirs: Map<Seq<u8>, Seq<u8>>,
    my_keys: Seq<Seq<u8>>,
    their_keys: Seq<Seq<u8>>,
    my_defaults: Seq<Seq<u8>>,
    their_defaults: Seq<Seq<u8>>,
)
    requires
        are_keys(my_keys, mine),
        are_keys(their_keys, theirs),
    ensures
        (once_each(disagreements(mine, theirs, my_keys + their_keys)) + default_disagreement(
            my_defaults,
            their_defaults,
        )).len() == 0 <==> mine == theirs && my_defaults == their_defaults,
{
    let keys = my_keys + their_keys;
    agreeing_keys(mine, theirs, keys);
    once_is_some(disagreements(mine, theirs, keys));
    assert forall|key: Seq<u8>| #[trigger] keys.contains(key) <==> mine.dom().contains(key)
        || theirs.dom().contains(key) by {
        if my_keys.contains(key) {
            let i = choose|i: int| 0 <= i < my_keys.len() && my_keys[i] == key;
            assert(keys[i] == key);
        }
        if their_keys.contains(key) {
            let i = choose|i: int| 0 <= i < their_keys.len() && their_keys[i] == key;
            assert(keys[my_keys.len() + i] == key);
        }
        if keys.contains(key) {
            let i = choose|i: int| 0 <= i < keys.len() && keys[i] == key;
            if i < my_keys.len() {
                assert(my_keys[i] == key);
                assert(my_keys.contains(key));
            } else {
                assert(their_keys[i - my_keys.len()] == key);
                assert(their_keys.contains(key));
            }
        }
    }
    if disagreements(mine, theirs, keys).len() == 0 {
        assert forall|key: Seq<u8>| #[trigger]
            mine.dom().contains(key) <==> theirs.dom().contains(key) by {
            if mine.dom().contains(key) || theirs.dom().contains(key) {
                assert(keys.contains(key));
            }
        }
        assert forall|key: Seq<u8>| #[trigger] mine.dom().contains(key) implies mine[key]
            == theirs[key] by {
            assert(keys.contains(key));
        }
        assert(mine =~= theirs);
    }
}

/// Whether a list says how two graphs disagree.
pub open spec fn tells_apart(
    found: Seq<Seq<u8>>,
    direct: GraphModel,
    parsed: GraphModel,
    semantics: EdgeSemantics,
) -> bool {
    let mine = shape_of(direct, semantics, Side::Direct, direct.edges.len() as int);
    let theirs = shape_of(parsed, semantics, Side::Manifest, parsed.edges.len() as int);
    exists|my_keys: Seq<Seq<u8>>, their_keys: Seq<Seq<u8>>|
        are_keys(my_keys, mine) && are_keys(their_keys, theirs) && found == once_each(
            #[trigger] disagreements(mine, theirs, my_keys + their_keys),
        ) + default_disagreement(
            without_synthetic(seen_paths(direct, direct.defaults)),
            without_synthetic(seen_paths(parsed, parsed.defaults)),
        )
}

/// Every way two graphs of the same Makefile disagree, which is no way at all
/// exactly where they say the same of every edge and have the same default
/// targets.
pub fn differences(direct: &BuildGraph, parsed: &BuildGraph, semantics: &EdgeSemantics) -> (found:
    Vec<Vec<u8>>)
    requires
        direct.model().wf(),
        parsed.model().wf(),
        semantics.wf(),
        makes_something(direct.model()),
        makes_something(parsed.model()),
    ensures
        tells_apart(texts(found@), direct.model(), parsed.model(), *semantics),
        found@.len() == 0 <==> {
            &&& shape_of(
                direct.model(),
                *semantics,
                Side::Direct,
                direct.model().edges.len() as int,
            ) == shape_of(
                parsed.model(),
                *semantics,
                Side::Manifest,
                parsed.model().edges.len() as int,
            )
            &&& without_synthetic(seen_paths(direct.model(), direct.model().defaults))
                == without_synthetic(seen_paths(parsed.model(), parsed.model().defaults))
        },
{
    let mine: Table<Vec<u8>, Vec<u8>> = shape(direct, semantics, Side::Direct);
    let theirs: Table<Vec<u8>, Vec<u8>> = shape(parsed, semantics, Side::Manifest);
    let ghost (left, right) = (written(mine@), written(theirs@));
    let mut keys: Vec<Vec<u8>> = ordered_keys(&mine);
    let mut more: Vec<Vec<u8>> = ordered_keys(&theirs);
    let ghost (first, second) = (keys@, more@);
    keys.append(&mut more);
    assert(keys@ =~= first + second);
    let ghost all = texts(keys@);
    assert(all =~= texts(first) + texts(second));
    let mut found: Vec<Vec<u8>> = Vec::new();
    let mut at: usize = 0;
    assert(all.take(0) =~= Seq::empty());
    assert(texts(found@) =~= Seq::empty());
    while at < keys.len()
        invariant
            at <= keys@.len(),
            all == texts(keys@),
            mine.wf(),
            theirs.wf(),
            left == written(mine@),
            right == written(theirs@),
            texts(found@) == disagreements(left, right, all.take(at as int)),
        decreases keys@.len() - at,
    {
        let ghost next = all.take(at as int + 1);
        assert(next.drop_last() =~= all.take(at as int));
        assert(next.last() == keys@[at as int]@);
        let ghost before = texts(found@);
        if let Some(said) = find_disagreement(&mine, &theirs, &keys[at]) {
            let ghost added = said@;
            found.push(said);
            assert(texts(found@) =~= before.push(added));
        }
        at += 1;
    }
    assert(all.take(at as int) =~= all);
    let mut found: Vec<Vec<u8>> = keep_once(found);
    let ghost about_edges = texts(found@);
    let my_defaults: Vec<Vec<u8>> = defaults(direct);
    let their_defaults: Vec<Vec<u8>> = defaults(parsed);
    if !same_lists(&my_defaults, &their_defaults) {
        let mut said: Vec<u8> = literal("default targets: direct ");
        append(&mut said, &show_quoted(&my_defaults));
        append(&mut said, ", manifest ".as_bytes());
        append(&mut said, &show_quoted(&their_defaults));
        let ghost added = said@;
        found.push(said);
        assert(texts(found@) =~= about_edges + seq![added]);
    } else {
        assert(about_edges + Seq::<Seq<u8>>::empty() =~= about_edges);
    }
    proof {
        assert(texts(found@) =~= about_edges + default_disagreement(
            texts(my_defaults@),
            texts(their_defaults@),
        ));
        agreement_is_equality(
            left,
            right,
            texts(first),
            texts(second),
            texts(my_defaults@),
            texts(their_defaults@),
        );
        assert(about_edges == once_each(
            disagreements(left, right, texts(first) + texts(second)),
        ));
    }
    found
}

/// Whether two lists of byte strings are the same.
fn same_lists(left: &[Vec<u8>], right: &[Vec<u8>]) -> (answer: bool)
    ensures
        answer == (texts(left@) == texts(right@)),
{
    if left.len() != right.len() {
        assert(texts(left@).len() != texts(right@).len());
        return false;
    }
    let mut at: usize = 0;
    while at < left.len()
        invariant
            at <= left@.len(),
            left@.len() == right@.len(),
            forall|i: int| 0 <= i < at ==> (#[trigger] left@[i])@ == right@[i]@,
        decreases left@.len() - at,
    {
        if !same(&left[at], &right[at]) {
            assert(texts(left@)[at as int] != texts(right@)[at as int]);
            return false;
        }
        at += 1;
    }
    assert(texts(left@) =~= texts(right@));
    true
}

} // verus!
