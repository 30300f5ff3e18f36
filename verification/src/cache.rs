//! Where an invocation's compiled artifact is kept between runs, and the
//! record it leaves there.
//!
//! What the name covers is what makes two runs the same compilation: the
//! directory, the command-line variables and the goals, each behind its length
//! so that no run of bytes inside one can be read as the end of it.

use crate::artifact::{
    model_of, models, Artifact, ArtifactModel, BuildArtifact, UnitArtifact, FORMAT_VERSION,
    Recorded,
};
use crate::bytes::{append, hex, hex_of, texts, maybe};
use crate::codec::{file_read, items_read, items_written, Blob, Coded, Count, Word32, Word64};
use crate::paths::{cache_root, join_path, joined_path, root_of};
use crate::record::CompositionRecord;
use crate::sorting::{
    at_or_before, held_by_both, in_order, keys_apart, keys_stay_apart, meanings,
    order_is_one_only, same_values, sorted, Keyed,
};
use vstd::bytes::*;
use vstd::prelude::*;

verus! {

/// Add one field behind its length.
pub fn push_field(key: &mut Vec<u8>, field: &[u8])
    ensures
        final(key)@ == old(key)@ + (Blob { data: field@ }).written(),
        (Blob { data: field@ }).carried(),
{
    let ghost before = key@;
    let length: Vec<u8> = u64_to_le_bytes(field.len() as u64);
    append(key, &length);
    append(key, field);
    assert(key@ =~= before + (Blob { data: field@ }).written());
}

/// Write a count.
pub fn put_usize(out: &mut Vec<u8>, value: usize)
    ensures
        final(out)@ == old(out)@ + (Count { value: value as nat }).written(),
{
    let bytes: Vec<u8> = u64_to_le_bytes(value as u64);
    append(out, &bytes);
}

/// Write a byte string behind its length.
pub fn put_bytes(out: &mut Vec<u8>, value: &[u8])
    ensures
        final(out)@ == old(out)@ + (Blob { data: value@ }).written(),
{
    push_field(out, value);
}

/// A list of fields behind a field that holds how many there are.
pub struct Fields {
    pub items: Seq<Blob>,
}

impl Fields {
    /// The field that says how many there are.
    pub open spec fn count(self) -> Blob {
        Blob { data: Word64 { value: self.items.len() as u64 }.written() }
    }
}

/// The number a field of eight bytes holds.
pub open spec fn count_in(field: Blob) -> nat {
    spec_u64_from_le_bytes(field.data) as nat
}

impl Coded for Fields {
    open spec fn carried(self) -> bool {
        &&& self.items.len() <= u64::MAX
        &&& forall|i: int| 0 <= i < self.items.len() ==> (#[trigger] self.items[i]).carried()
    }

    open spec fn written(self) -> Seq<u8> {
        self.count().written() + items_written(self.items)
    }

    open spec fn read(bytes: Seq<u8>, at: int) -> Option<(Self, int)> {
        match Blob::read(bytes, at) {
            Some(count) => if count.0.data.len() == 8 {
                match items_read::<Blob>(bytes, count.1, count_in(count.0)) {
                    Some(got) => Some((Fields { items: got.0 }, got.1)),
                    None => None,
                }
            } else {
                None
            },
            None => None,
        }
    }

    proof fn moves(bytes: Seq<u8>, at: int) {
        if let Some(count) = Blob::read(bytes, at) {
            if count.0.data.len() == 8 {
                crate::codec::items_move::<Blob>(bytes, count.1, count_in(count.0));
            }
        }
    }

    proof fn reads_back(self, bytes: Seq<u8>, at: int) {
        lemma_auto_spec_u64_to_from_le_bytes();
        crate::codec::halves(bytes, at, self.count().written(), items_written(self.items));
        self.count().reads_back(bytes, at);
        crate::codec::items_read_back(self.items, bytes, at + self.count().written().len());
    }

    proof fn cut_is_refused(self, bytes: Seq<u8>, at: int) {
        lemma_auto_spec_u64_to_from_le_bytes();
        crate::codec::cut_halves(bytes, at, self.count().written(), items_written(self.items));
        if bytes.len() < at + self.count().written().len() {
            self.count().cut_is_refused(bytes, at);
        } else {
            self.count().reads_back(bytes, at);
            crate::codec::cut_items_are_refused(
                self.items,
                bytes,
                at + self.count().written().len(),
            );
        }
    }
}

/// What one invocation's cache entry is named for.
pub type NameModel = (Word32, (Blob, (Fields, Fields)));

/// Byte strings as fields.
pub open spec fn as_fields(values: Seq<Seq<u8>>) -> Fields {
    Fields { items: Seq::new(values.len(), |i: int| Blob { data: values[i] }) }
}

/// What one invocation's cache entry is named for: the format, the directory
/// it builds in, its command-line variables and its goals.
pub open spec fn name_model(
    directory: Seq<u8>,
    variables: Seq<Seq<u8>>,
    goals: Seq<Seq<u8>>,
) -> NameModel {
    (
        Word32 { value: FORMAT_VERSION },
        (Blob { data: directory }, (as_fields(variables), as_fields(goals))),
    )
}

/// Add a list of fields behind a field that holds how many there are.
fn push_fields(key: &mut Vec<u8>, values: &[Vec<u8>])
    ensures
        final(key)@ == old(key)@ + as_fields(texts(values@)).written(),
        as_fields(texts(values@)).carried(),
{
    let ghost before = key@;
    let ghost all = as_fields(texts(values@));
    let count: Vec<u8> = u64_to_le_bytes(values.len() as u64);
    push_field(key, &count);
    let ghost counted = key@;
    let mut at: usize = 0;
    assert(all.items.take(0) =~= Seq::empty());
    assert(counted + items_written(all.items.take(0)) =~= counted);
    while at < values.len()
        invariant
            at <= values@.len(),
            all == as_fields(texts(values@)),
            key@ == counted + items_written(all.items.take(at as int)),
            forall|i: int| 0 <= i < at ==> (#[trigger] all.items[i]).carried(),
        decreases values@.len() - at,
    {
        push_field(key, &values[at]);
        proof {
            let next = all.items.take(at as int + 1);
            assert(next.drop_last() =~= all.items.take(at as int));
            assert(next.last() == (Blob { data: values@[at as int]@ }));
            assert(key@ =~= counted + items_written(next));
        }
        at += 1;
    }
    assert(all.items.take(at as int) =~= all.items);
    assert(key@ =~= before + all.written());
}

/// The bytes one invocation's cache entry is named from.
pub fn name_key(directory: &[u8], variables: &[Vec<u8>], goals: &[Vec<u8>]) -> (key: Vec<u8>)
    ensures
        key@ == name_model(directory@, texts(variables@), texts(goals@)).written(),
        name_model(directory@, texts(variables@), texts(goals@)).carried(),
{
    let mut key: Vec<u8> = u32_to_le_bytes(FORMAT_VERSION);
    push_field(&mut key, directory);
    push_fields(&mut key, variables);
    push_fields(&mut key, goals);
    assert(key@ =~= name_model(directory@, texts(variables@), texts(goals@)).written());
    key
}

/// Two values written alike are the same value.
pub proof fn written_alike_is_the_same<A: Coded>(left: A, right: A)
    requires
        left.carried(),
        right.carried(),
        left.written() == right.written(),
    ensures
        left == right,
{
    crate::codec::a_file_reads_back(left);
    crate::codec::a_file_reads_back(right);
}

/// Invocations that differ in the directory, a variable or a goal, or in which
/// of the two a word is, or in their order, are named from different bytes.
pub proof fn different_invocations_have_different_keys(
    directory: Seq<u8>,
    variables: Seq<Seq<u8>>,
    goals: Seq<Seq<u8>>,
    other_directory: Seq<u8>,
    other_variables: Seq<Seq<u8>>,
    other_goals: Seq<Seq<u8>>,
)
    requires
        name_model(directory, variables, goals).carried(),
        name_model(other_directory, other_variables, other_goals).carried(),
        name_model(directory, variables, goals).written() == name_model(
            other_directory,
            other_variables,
            other_goals,
        ).written(),
    ensures
        directory == other_directory,
        variables == other_variables,
        goals == other_goals,
{
    let left = name_model(directory, variables, goals);
    let right = name_model(other_directory, other_variables, other_goals);
    written_alike_is_the_same(left, right);
    let (mine, theirs) = (as_fields(variables).items, as_fields(other_variables).items);
    assert forall|i: int| 0 <= i < variables.len() implies variables[i] == other_variables[i] by {
        assert(mine[i] == theirs[i]);
    }
    assert(variables =~= other_variables);
    let (mine, theirs) = (as_fields(goals).items, as_fields(other_goals).items);
    assert forall|i: int| 0 <= i < goals.len() implies goals[i] == other_goals[i] by {
        assert(mine[i] == theirs[i]);
    }
    assert(goals =~= other_goals);
}

/// The one directory name that stands for an invocation whose key has this
/// digest: sixteen hexadecimal digits.
pub fn name_for(digest: u64) -> (name: Vec<u8>)
    ensures
        name@ == hex(digest as nat, 16),
{
    hex_of(digest, 16)
}

/// The directory an invocation's artifact belongs in, or nothing where the host
/// names neither a cache directory nor a home.
pub fn directory_for(cache_home: Option<&[u8]>, home: Option<&[u8]>, digest: u64) -> (directory:
    Option<Vec<u8>>)
    ensures
        ({
            let root = cache_root(
                match cache_home {
                    Some(held) => Some(held@),
                    None => None,
                },
                match home {
                    Some(held) => Some(held@),
                    None => None,
                },
            );
            match root {
                Some(root) => maybe(directory) == Some(
                    joined_path(root, hex(digest as nat, 16)),
                ),
                None => directory is None,
            }
        }),
{
    match root_of(cache_home, home) {
        Some(root) => Some(join_path(&root, &name_for(digest))),
        None => None,
    }
}

impl Keyed for UnitArtifact {
    type M = crate::artifact::UnitModel;

    open spec fn meaning(&self) -> crate::artifact::UnitModel {
        self.model()
    }

    open spec fn key(&self) -> Seq<u8> {
        self.key@
    }

    open spec fn key_of(meaning: crate::artifact::UnitModel) -> Seq<u8> {
        meaning.0.data
    }

    proof fn meaning_decides_key(&self) {
    }

    fn key_bytes(&self) -> (key: &[u8]) {
        &self.key
    }
}

impl Artifact {
    /// What a settled composition read, described for the graph whose bytes
    /// have the digest `graph`: its units in the order of their keys, so that
    /// one composition is one file.
    pub fn of(units: Vec<UnitArtifact>, build: Option<BuildArtifact>, graph: u64) -> (artifact:
        Self)
        ensures
            artifact.graph == graph,
            artifact.build == build,
            in_order(artifact.units@),
            same_values(artifact.units@, units@),
    {
        Artifact { graph, units: sorted(units), build }
    }
}

/// What a record is taken for beside a graph whose bytes have this digest, as
/// its model: the artifact it holds, where that describes this graph.
pub open spec fn opened(record: Seq<u8>, digest: u64) -> Option<ArtifactModel> {
    match file_read::<ArtifactModel>(record) {
        Some(model) => if model.1.0.value == digest {
            Some(model)
        } else {
            None
        },
        None => None,
    }
}

/// The artifact `record` holds, where the graph it describes is the one whose
/// bytes have this digest.
///
/// A record that cannot be read and a record of another graph are both no
/// artifact.
pub fn checked(record: &[u8], digest: u64) -> (artifact: Option<Artifact>)
    ensures
        match artifact {
            Some(held) => opened(record@, digest) == Some(held.model()),
            None => opened(record@, digest) is None,
        },
{
    match Artifact::decode(record) {
        Some(held) => if held.graph == digest {
            Some(held)
        } else {
            None
        },
        None => None,
    }
}

/// Whether an artifact is what units and a build are written as for a graph with
/// this digest: the same units in the order of their keys.
pub open spec fn describes(
    model: ArtifactModel,
    units: Seq<UnitArtifact>,
    build: Option<BuildArtifact>,
    digest: u64,
) -> bool {
    let items = model.1.1.0.items;
    &&& model.1.0.value == digest
    &&& model.1.1.1 == model_of(build)
    &&& items.to_multiset() == models(units).to_multiset()
    &&& forall|i: int, j: int|
        0 <= i < j < items.len() ==> at_or_before(
            (#[trigger] items[i]).0.data,
            (#[trigger] items[j]).0.data,
        )
}

/// Write what a composition read and what it is built from, for the graph whose
/// bytes have the digest `graph`.
///
/// Beside that graph the bytes open as what was written; beside any other, or
/// cut short, they do not open.
pub fn encode(units: Vec<UnitArtifact>, build: Option<BuildArtifact>, graph: u64) -> (out: Vec<u8>)
    ensures
        opened(out@, graph) matches Some(model) && describes(model, units@, build, graph) && out@
            == model.written(),
        forall|other: u64| other != graph ==> #[trigger] opened(out@, other) is None,
        forall|end: int, other: u64|
            0 <= end < out@.len() ==> #[trigger] opened(out@.take(end), other) is None,
{
    let artifact: Artifact = Artifact::of(units, build, graph);
    let out: Vec<u8> = artifact.encode();
    proof {
        let items = artifact.model().1.1.0.items;
        assert(items == models(artifact.units@));
        assert(models(artifact.units@) =~= meanings(artifact.units@));
        assert(models(units@) =~= meanings(units@));
        assert forall|i: int, j: int| 0 <= i < j < items.len() implies at_or_before(
            (#[trigger] items[i]).0.data,
            (#[trigger] items[j]).0.data,
        ) by {
            assert(items[i].0.data == artifact.units@[i].key());
            assert(items[j].0.data == artifact.units@[j].key());
        }
        assert(opened(out@, graph) == Some(artifact.model()));
    }
    out
}

/// Units standing in the order of the models that describe them.
proof fn units_of(items: Seq<crate::artifact::UnitModel>, units: Seq<UnitArtifact>) -> (ordered:
    Seq<UnitArtifact>)
    requires
        items.to_multiset() == models(units).to_multiset(),
        forall|i: int, j: int|
            0 <= i < j < items.len() ==> at_or_before(
                (#[trigger] items[i]).0.data,
                (#[trigger] items[j]).0.data,
            ),
    ensures
        meanings(ordered) == items,
        in_order(ordered),
        same_values(ordered, units),
{
    let all = models(units);
    assert(all =~= meanings(units));
    let ordered = Seq::new(
        items.len(),
        |i: int| units[choose|k: int| 0 <= k < units.len() && #[trigger] all[k] == items[i]],
    );
    assert forall|i: int| 0 <= i < items.len() implies (#[trigger] ordered[i]).meaning()
        == items[i] by {
        let place = held_by_both(items, all, i);
        assert(all[place] == items[i]);
        let k = choose|k: int| 0 <= k < units.len() && #[trigger] all[k] == items[i];
        assert(all[k] == units[k].meaning());
    }
    assert(meanings(ordered) =~= items);
    assert forall|i: int, j: int| 0 <= i < j < ordered.len() implies at_or_before(
        (#[trigger] ordered[i]).key(),
        (#[trigger] ordered[j]).key(),
    ) by {
        ordered[i].meaning_decides_key();
        ordered[j].meaning_decides_key();
        assert(at_or_before(items[i].0.data, items[j].0.data));
    }
    ordered
}

/// One composition is one file: units whose keys are apart are written as the
/// same bytes in whatever order they come.
pub proof fn one_composition_is_one_file(
    units: Seq<UnitArtifact>,
    others: Seq<UnitArtifact>,
    build: Option<BuildArtifact>,
    digest: u64,
    left: ArtifactModel,
    right: ArtifactModel,
)
    requires
        keys_apart(units),
        same_values(others, units),
        describes(left, units, build, digest),
        describes(right, others, build, digest),
    ensures
        left == right,
        left.written() == right.written(),
{
    assert(models(units) =~= meanings(units));
    assert(models(others) =~= meanings(others));
    let ours = units_of(left.1.1.0.items, units);
    let theirs = units_of(right.1.1.0.items, others);
    keys_stay_apart(units, ours);
    order_is_one_only(ours, theirs);
    assert(left.1.1.0.items == right.1.1.0.items);
    assert(left.0 == right.0);
    assert(left.1.0 == right.1.0);
    assert(left.1.1.0 == right.1.1.0);
}

/// A record that was written opens beside the graph it names, as what was
/// written; beside another graph, or cut short anywhere, it opens as nothing.
pub proof fn a_written_pair_opens(artifact: ArtifactModel, other: u64, end: int)
    requires
        artifact.carried(),
        0 <= end < artifact.written().len(),
    ensures
        opened(artifact.written(), artifact.1.0.value) == Some(artifact),
        other != artifact.1.0.value ==> opened(artifact.written(), other) is None,
        opened(artifact.written().take(end), other) is None,
{
    crate::codec::a_file_reads_back(artifact);
    crate::codec::a_cut_file_is_refused(artifact, end);
}

/// What a settled composition leaves in its cache directory.
#[derive(Debug)]
pub enum Left {
    /// Neither file: there is nothing a later run could check or load.
    Nothing,
    /// The record that names the graph beside it.
    Record(Vec<u8>),
}

/// The record a composition leaves beside its graph.
///
/// A composition that answered one question two ways describes no single
/// ground, and one whose graph could not be written down has no graph to name:
/// both leave nothing. Any other leaves a record that opens beside its graph.
pub fn record(
    settled: &CompositionRecord,
    units: Vec<UnitArtifact>,
    build: Option<BuildArtifact>,
    graph: Option<u64>,
) -> (left: Left)
    ensures
        left is Nothing <==> graph is None || settled.diverged is Some,
        left matches Left::Record(out) ==> {
            &&& opened(out@, graph->0) matches Some(model) && describes(
                model,
                units@,
                build,
                graph->0,
            ) && out@ == model.written()
            &&& forall|other: u64| other != graph->0 ==> #[trigger] opened(out@, other) is None
            &&& forall|end: int, other: u64|
                0 <= end < out@.len() ==> #[trigger] opened(out@.take(end), other) is None
        },
{
    match graph {
        Some(digest) => if settled.diverged.is_some() {
            Left::Nothing
        } else {
            Left::Record(encode(units, build, digest))
        },
        None => Left::Nothing,
    }
}

} // verus!
