//! The build graph: nodes, the edges that make them, and the rules they run.

use crate::bytes::{append, copied, literal, maybe, same, text, texts};
use crate::artifact::CommandLayout;
use crate::layout::shell_word;
use crate::paths::{canonical, canonpath};
use vstd::prelude::*;
use vstd::string::*;

verus! {

/// One stretch of a template: bytes as they are, or the edge's outputs.
#[derive(Debug)]
pub enum Piece {
    Literal(Vec<u8>),
    Out,
}

/// One stretch of a template, as its model.
pub ghost enum PieceModel {
    Literal(Seq<u8>),
    Out,
}

impl Piece {
    /// The piece as its model.
    pub open spec fn model(&self) -> PieceModel {
        match self {
            Piece::Literal(bytes) => PieceModel::Literal(bytes@),
            Piece::Out => PieceModel::Out,
        }
    }
}

/// A rule's value for a binding, before an edge's outputs are known.
#[derive(Debug)]
pub struct Template {
    pub pieces: Vec<Piece>,
}

/// The pieces of a template, as their models.
pub open spec fn pieces_of(pieces: Seq<Piece>) -> Seq<PieceModel> {
    Seq::new(pieces.len(), |i: int| pieces[i].model())
}

impl Template {
    /// The template as its model.
    pub open spec fn model(&self) -> Seq<PieceModel> {
        pieces_of(self.pieces@)
    }

    /// A template with nothing in it.
    pub fn new() -> (template: Self)
        ensures
            template.model() == Seq::<PieceModel>::empty(),
    {
        let template = Template { pieces: Vec::new() };
        assert(template.model() =~= Seq::empty());
        template
    }

    /// A template that is these bytes.
    pub fn literal(bytes: &[u8]) -> (template: Self)
        ensures
            template.model() == seq![PieceModel::Literal(bytes@)],
    {
        let mut template = Template::new();
        template.push_literal(bytes);
        assert(template.model() =~= seq![PieceModel::Literal(bytes@)]);
        template
    }

    /// Add bytes as they are.
    pub fn push_literal(&mut self, bytes: &[u8])
        ensures
            final(self).model() == old(self).model().push(PieceModel::Literal(bytes@)),
    {
        let ghost before = self.model();
        self.pieces.push(Piece::Literal(copied(bytes)));
        assert(self.model() =~= before.push(PieceModel::Literal(bytes@)));
    }

    /// Add the edge's outputs.
    pub fn push_out(&mut self)
        ensures
            final(self).model() == old(self).model().push(PieceModel::Out),
    {
        let ghost before = self.model();
        self.pieces.push(Piece::Out);
        assert(self.model() =~= before.push(PieceModel::Out));
    }
}

/// A rule's bindings, as their models.
pub open spec fn rule_bindings(bindings: Seq<(usize, Template)>) -> Seq<(usize, Seq<PieceModel>)> {
    Seq::new(bindings.len(), |i: int| (bindings[i].0, bindings[i].1.model()))
}

/// An edge's bindings, as their models.
pub open spec fn edge_values(bindings: Seq<(usize, Vec<u8>)>) -> Seq<(usize, Seq<u8>)> {
    Seq::new(bindings.len(), |i: int| (bindings[i].0, bindings[i].1@))
}

/// A file the graph knows.
#[derive(Debug)]
pub struct NodeEntry {
    /// The one spelling the graph holds it under.
    pub path: Vec<u8>,
    /// Whether its path is looked up by every unit, rather than its own alone.
    pub shared: bool,
    /// The edge that makes it.
    pub generator: Option<usize>,
    /// Whether it is thrown away once the build has finished with it.
    pub disposable: bool,
}

/// A file the graph knows, as its model.
pub ghost struct NodeModel {
    pub path: Seq<u8>,
    pub shared: bool,
    pub generator: Option<usize>,
    pub disposable: bool,
}

/// A named list of bindings.
#[derive(Debug)]
pub struct RuleEntry {
    pub scope: usize,
    pub name: Vec<u8>,
    pub bindings: Vec<(usize, Template)>,
}

/// A named list of bindings, as its model.
pub ghost struct RuleModel {
    pub scope: usize,
    pub name: Seq<u8>,
    pub bindings: Seq<(usize, Seq<PieceModel>)>,
}

/// A bound on how many of its edges run at once.
#[derive(Debug)]
pub struct PoolEntry {
    pub name: Vec<u8>,
    pub depth: Option<usize>,
}

/// A bound on how many of its edges run at once, as its model.
pub ghost struct PoolModel {
    pub name: Seq<u8>,
    pub depth: Option<usize>,
}

/// An action whose freshness is another target's.
#[derive(Debug)]
pub struct Deferred {
    pub outputs: Vec<usize>,
    pub always_dirty_output: bool,
    pub dates_do_not_decide: bool,
    pub heads_the_group: bool,
    pub always_new_inputs: Vec<usize>,
    pub excluded_new_inputs: Vec<usize>,
    /// Inputs whose published name is not their path.
    pub new_input_names: Vec<(usize, Vec<u8>)>,
    /// The variable that names the inputs that are new.
    pub new_inputs_variable: Vec<u8>,
    /// The variables that name their directories and their file names.
    pub new_inputs_directories_variable: Vec<u8>,
    pub new_inputs_filenames_variable: Vec<u8>,
    /// Where names are published from.
    pub new_inputs_directory: Vec<u8>,
}

/// An action whose freshness is another target's, as its model.
pub ghost struct DeferredModel {
    pub outputs: Seq<usize>,
    pub always_dirty_output: bool,
    pub dates_do_not_decide: bool,
    pub heads_the_group: bool,
    pub always_new_inputs: Seq<usize>,
    pub excluded_new_inputs: Seq<usize>,
    pub new_input_names: Seq<(usize, Seq<u8>)>,
    pub new_inputs_variable: Seq<u8>,
    pub new_inputs_directories_variable: Seq<u8>,
    pub new_inputs_filenames_variable: Seq<u8>,
    pub new_inputs_directory: Seq<u8>,
}

impl Deferred {
    /// The action as its model.
    pub open spec fn model(&self) -> DeferredModel {
        DeferredModel {
            outputs: self.outputs@,
            always_dirty_output: self.always_dirty_output,
            dates_do_not_decide: self.dates_do_not_decide,
            heads_the_group: self.heads_the_group,
            always_new_inputs: self.always_new_inputs@,
            excluded_new_inputs: self.excluded_new_inputs@,
            new_input_names: edge_values(self.new_input_names@),
            new_inputs_variable: self.new_inputs_variable@,
            new_inputs_directories_variable: self.new_inputs_directories_variable@,
            new_inputs_filenames_variable: self.new_inputs_filenames_variable@,
            new_inputs_directory: self.new_inputs_directory@,
        }
    }
}

/// An action that may be deferred, as its model.
pub open spec fn deferred_model(deferred: Option<Deferred>) -> Option<DeferredModel> {
    match deferred {
        Some(held) => Some(held.model()),
        None => None,
    }
}

/// Which part of a settled name a reference reads.
#[derive(Clone, Copy, PartialEq, Eq, Structural, Debug)]
pub enum SettledView {
    Whole,
    Directory,
    Filename,
}

/// The names a search settled, and where they are read.
#[derive(Debug)]
pub struct Searched {
    /// The target a double-colon rule declared, and the name it declared.
    pub declared: Option<(usize, Vec<u8>)>,
    /// The target, and where it was found.
    pub found: Option<(usize, Vec<u8>)>,
    /// The target, and how it was written.
    pub written: Option<(usize, Vec<u8>)>,
    /// Where the names are read from.
    pub directory: Vec<u8>,
    /// Each variable that reads a settled name, and of which file.
    pub references: Vec<(Vec<u8>, (usize, SettledView))>,
}

/// A node and a name, as their models.
pub open spec fn named_node(held: Option<(usize, Vec<u8>)>) -> Option<(usize, Seq<u8>)> {
    match held {
        Some(pair) => Some((pair.0, pair.1@)),
        None => None,
    }
}

/// The references of a list, as their models.
pub open spec fn references_of(references: Seq<(Vec<u8>, (usize, SettledView))>) -> Seq<
    (Seq<u8>, (usize, SettledView)),
> {
    Seq::new(references.len(), |i: int| (references[i].0@, references[i].1))
}

/// The names a search settled, as their model.
pub ghost struct SearchedModel {
    pub declared: Option<(usize, Seq<u8>)>,
    pub found: Option<(usize, Seq<u8>)>,
    pub written: Option<(usize, Seq<u8>)>,
    pub directory: Seq<u8>,
    pub references: Seq<(Seq<u8>, (usize, SettledView))>,
}

impl Searched {
    /// The names as their model.
    pub open spec fn model(&self) -> SearchedModel {
        SearchedModel {
            declared: named_node(self.declared),
            found: named_node(self.found),
            written: named_node(self.written),
            directory: self.directory@,
            references: references_of(self.references@),
        }
    }
}

/// What an edge is declared with.
#[derive(Debug)]
pub struct EdgeSpec {
    pub scope: usize,
    pub rule: usize,
    pub explicit_outputs: Vec<usize>,
    pub implicit_outputs: Vec<usize>,
    pub explicit_inputs: Vec<usize>,
    pub implicit_inputs: Vec<usize>,
    pub order_only_inputs: Vec<usize>,
    pub validations: Vec<usize>,
    /// Whether it is out of date whenever it is reached.
    pub always_dirty: bool,
    /// Whether its outputs may be missing.
    pub intermediate: bool,
    pub has_touchable_recipe: bool,
    pub outputs_unaliased: bool,
    pub outputs_low_resolution: bool,
    pub bindings: Vec<(usize, Vec<u8>)>,
}

/// What an edge is declared with, as its model.
pub ghost struct EdgeDeclared {
    pub scope: usize,
    pub rule: usize,
    pub explicit_outputs: Seq<usize>,
    pub implicit_outputs: Seq<usize>,
    pub explicit_inputs: Seq<usize>,
    pub implicit_inputs: Seq<usize>,
    pub order_only_inputs: Seq<usize>,
    pub validations: Seq<usize>,
    pub always_dirty: bool,
    pub intermediate: bool,
    pub has_touchable_recipe: bool,
    pub outputs_unaliased: bool,
    pub outputs_low_resolution: bool,
    pub bindings: Seq<(usize, Seq<u8>)>,
}

impl EdgeSpec {
    /// The declaration as its model.
    pub open spec fn model(&self) -> EdgeDeclared {
        EdgeDeclared {
            scope: self.scope,
            rule: self.rule,
            explicit_outputs: self.explicit_outputs@,
            implicit_outputs: self.implicit_outputs@,
            explicit_inputs: self.explicit_inputs@,
            implicit_inputs: self.implicit_inputs@,
            order_only_inputs: self.order_only_inputs@,
            validations: self.validations@,
            always_dirty: self.always_dirty,
            intermediate: self.intermediate,
            has_touchable_recipe: self.has_touchable_recipe,
            outputs_unaliased: self.outputs_unaliased,
            outputs_low_resolution: self.outputs_low_resolution,
            bindings: edge_values(self.bindings@),
        }
    }
}

/// One action of the graph.
#[derive(Debug)]
pub struct EdgeEntry {
    pub declared: EdgeSpec,
    pub pool: Option<usize>,
    /// Whether its outputs are read off the disk again once it has run.
    pub outputs_reobserved: bool,
    /// The waits whose failure is forgiven.
    pub forgiven: Vec<usize>,
    /// What a failure of it withdraws, where it does.
    pub withdrawable: Vec<usize>,
    pub delete_on_error: bool,
    /// The outputs made only on the way to the one that was asked for.
    pub peers: Vec<usize>,
    pub deferred: Option<Deferred>,
    /// What has to be done before a deferred action is looked at.
    pub activations: Vec<usize>,
    /// The file whose completion this edge stands for.
    pub completion_of: Option<usize>,
    pub begun: bool,
    /// Whether a rule took its only output off it.
    pub retired: bool,
    pub searched: Option<Searched>,
}

/// One action of the graph, as its model.
pub ghost struct EdgeModel {
    pub declared: EdgeDeclared,
    pub pool: Option<usize>,
    pub outputs_reobserved: bool,
    pub forgiven: Seq<usize>,
    pub withdrawable: Seq<usize>,
    pub delete_on_error: bool,
    pub peers: Seq<usize>,
    pub deferred: Option<DeferredModel>,
    pub activations: Seq<usize>,
    pub completion_of: Option<usize>,
    pub begun: bool,
    pub retired: bool,
    pub searched: Option<SearchedModel>,
}

impl EdgeEntry {
    /// The edge as its model.
    pub open spec fn model(&self) -> EdgeModel {
        EdgeModel {
            declared: self.declared.model(),
            pool: self.pool,
            outputs_reobserved: self.outputs_reobserved,
            forgiven: self.forgiven@,
            withdrawable: self.withdrawable@,
            delete_on_error: self.delete_on_error,
            peers: self.peers@,
            deferred: deferred_model(self.deferred),
            activations: self.activations@,
            completion_of: self.completion_of,
            begun: self.begun,
            retired: self.retired,
            searched: match self.searched {
                Some(held) => Some(held.model()),
                None => None,
            },
        }
    }
}

/// Why a graph could not be built as it was described.
#[derive(Debug)]
pub enum FrontendError {
    /// A target with no name.
    EmptyPath,
    /// Two edges make one file.
    DuplicateOutput { path: Vec<u8> },
    /// Two rules of one scope have one name.
    DuplicateRule { name: Vec<u8> },
    /// Two pools have one name.
    DuplicatePool { name: Vec<u8> },
    /// An edge names a pool nothing declared.
    UnknownPool { name: Vec<u8> },
    /// An edge names a rule nothing declared.
    UndeclaredRule { rule: usize },
    /// A recursive recipe whose child makes its own target.
    UncomposableSubninja { command: Vec<u8> },
}

/// Why a graph could not be built, as its model.
pub ghost enum Refusal {
    EmptyPath,
    DuplicateOutput(Seq<u8>),
    DuplicateRule(Seq<u8>),
    DuplicatePool(Seq<u8>),
    UnknownPool(Seq<u8>),
    UndeclaredRule(usize),
    UncomposableSubninja(Seq<u8>),
}

impl FrontendError {
    /// The failure as its model.
    pub open spec fn model(&self) -> Refusal {
        match self {
            FrontendError::EmptyPath => Refusal::EmptyPath,
            FrontendError::DuplicateOutput { path } => Refusal::DuplicateOutput(path@),
            FrontendError::DuplicateRule { name } => Refusal::DuplicateRule(name@),
            FrontendError::DuplicatePool { name } => Refusal::DuplicatePool(name@),
            FrontendError::UnknownPool { name } => Refusal::UnknownPool(name@),
            FrontendError::UndeclaredRule { rule } => Refusal::UndeclaredRule(*rule),
            FrontendError::UncomposableSubninja { command } => Refusal::UncomposableSubninja(
                command@,
            ),
        }
    }

    /// The same failure once more.
    pub fn copy(&self) -> (copy: Self)
        ensures
            copy.model() == self.model(),
    {
        match self {
            FrontendError::EmptyPath => FrontendError::EmptyPath,
            FrontendError::DuplicateOutput { path } => FrontendError::DuplicateOutput {
                path: copied(path),
            },
            FrontendError::DuplicateRule { name } => FrontendError::DuplicateRule {
                name: copied(name),
            },
            FrontendError::DuplicatePool { name } => FrontendError::DuplicatePool {
                name: copied(name),
            },
            FrontendError::UnknownPool { name } => FrontendError::UnknownPool {
                name: copied(name),
            },
            FrontendError::UndeclaredRule { rule } => FrontendError::UndeclaredRule {
                rule: *rule,
            },
            FrontendError::UncomposableSubninja { command } => {
                FrontendError::UncomposableSubninja { command: copied(command) }
            },
        }
    }
}

/// A build graph.
#[derive(Debug)]
pub struct BuildGraph {
    /// The names bindings are known by.
    pub names: Vec<Vec<u8>>,
    /// Each scope's parent.
    pub scopes: Vec<Option<usize>>,
    pub nodes: Vec<NodeEntry>,
    pub rules: Vec<RuleEntry>,
    pub pools: Vec<PoolEntry>,
    pub edges: Vec<EdgeEntry>,
    pub defaults: Vec<usize>,
}

/// A build graph, as its model.
pub ghost struct GraphModel {
    pub names: Seq<Seq<u8>>,
    pub scopes: Seq<Option<usize>>,
    pub nodes: Seq<NodeModel>,
    pub rules: Seq<RuleModel>,
    pub pools: Seq<PoolModel>,
    pub edges: Seq<EdgeModel>,
    pub defaults: Seq<usize>,
}

impl NodeEntry {
    /// The node as its model.
    pub open spec fn model(&self) -> NodeModel {
        NodeModel {
            path: self.path@,
            shared: self.shared,
            generator: self.generator,
            disposable: self.disposable,
        }
    }
}

impl RuleEntry {
    /// The rule as its model.
    pub open spec fn model(&self) -> RuleModel {
        RuleModel {
            scope: self.scope,
            name: self.name@,
            bindings: rule_bindings(self.bindings@),
        }
    }
}

impl PoolEntry {
    /// The pool as its model.
    pub open spec fn model(&self) -> PoolModel {
        PoolModel { name: self.name@, depth: self.depth }
    }
}

/// The nodes of a list, as their models.
pub open spec fn node_models(nodes: Seq<NodeEntry>) -> Seq<NodeModel> {
    Seq::new(nodes.len(), |i: int| nodes[i].model())
}

/// The rules of a list, as their models.
pub open spec fn rule_models(rules: Seq<RuleEntry>) -> Seq<RuleModel> {
    Seq::new(rules.len(), |i: int| rules[i].model())
}

/// The pools of a list, as their models.
pub open spec fn pool_models(pools: Seq<PoolEntry>) -> Seq<PoolModel> {
    Seq::new(pools.len(), |i: int| pools[i].model())
}

/// The edges of a list, as their models.
pub open spec fn edge_models(edges: Seq<EdgeEntry>) -> Seq<EdgeModel> {
    Seq::new(edges.len(), |i: int| edges[i].model())
}

/// Whether every node of a list is one of the first `count`.
pub open spec fn below(list: Seq<usize>, count: nat) -> bool {
    forall|i: int| 0 <= i < list.len() ==> #[trigger] list[i] < count
}

/// A list with what it is missing of another added at its end.
pub open spec fn with_missing(list: Seq<usize>, more: Seq<usize>) -> Seq<usize>
    decreases more.len(),
{
    if more.len() == 0 {
        list
    } else {
        let before = with_missing(list, more.drop_last());
        if before.contains(more.last()) {
            before
        } else {
            before.push(more.last())
        }
    }
}

/// Whether a list holds a number.
pub fn lists(list: &[usize], wanted: usize) -> (answer: bool)
    ensures
        answer == list@.contains(wanted),
{
    let mut at: usize = 0;
    while at < list.len()
        invariant
            at <= list@.len(),
            forall|i: int| 0 <= i < at ==> list@[i] != wanted,
        decreases list@.len() - at,
    {
        if list[at] == wanted {
            assert(list@[at as int] == wanted);
            return true;
        }
        at += 1;
    }
    false
}

/// Add what a list is missing of another at its end.
pub fn push_missing(list: &mut Vec<usize>, more: &[usize])
    ensures
        final(list)@ == with_missing(old(list)@, more@),
{
    let ghost before = list@;
    let mut at: usize = 0;
    assert(more@.take(0) =~= Seq::empty());
    while at < more.len()
        invariant
            at <= more@.len(),
            list@ == with_missing(before, more@.take(at as int)),
        decreases more@.len() - at,
    {
        let ghost next = more@.take(at as int + 1);
        assert(next.drop_last() =~= more@.take(at as int));
        if !lists(list, more[at]) {
            list.push(more[at]);
        }
        at += 1;
    }
    assert(more@.take(at as int) =~= more@);
}

/// A copy of a list of numbers.
pub fn copied_ids(list: &[usize]) -> (copy: Vec<usize>)
    ensures
        copy@ == list@,
{
    let mut copy: Vec<usize> = Vec::new();
    let mut at: usize = 0;
    while at < list.len()
        invariant
            at <= list@.len(),
            copy@ == list@.take(at as int),
        decreases list@.len() - at,
    {
        copy.push(list[at]);
        assert(copy@ =~= list@.take(at as int + 1));
        at += 1;
    }
    assert(copy@ =~= list@);
    copy
}

/// What a list keeps of another's items: those in it.
pub proof fn missing_is_added(list: Seq<usize>, more: Seq<usize>)
    ensures
        forall|x: usize|
            #![trigger with_missing(list, more).contains(x)]
            with_missing(list, more).contains(x) <==> list.contains(x) || more.contains(x),
        list.len() <= with_missing(list, more).len(),
        with_missing(list, more).take(list.len() as int) == list,
    decreases more.len(),
{
    if more.len() == 0 {
        assert(list.take(list.len() as int) =~= list);
    } else {
        let front = more.drop_last();
        let last = more.last();
        missing_is_added(list, front);
        let before = with_missing(list, front);
        let after = with_missing(list, more);
        assert forall|x: usize|
            #![trigger after.contains(x)]
            after.contains(x) <==> list.contains(x) || more.contains(x) by {
            if more.contains(x) {
                let i = choose|i: int| 0 <= i < more.len() && more[i] == x;
                if i < front.len() {
                    assert(front[i] == x);
                    assert(before.contains(x));
                }
                if before.contains(last) {
                    assert(after == before);
                } else {
                    assert(after[before.len() as int] == last);
                }
                if before.contains(x) {
                    let j = choose|j: int| 0 <= j < before.len() && before[j] == x;
                    assert(after[j] == x);
                }
            }
            if list.contains(x) {
                assert(before.contains(x));
                let j = choose|j: int| 0 <= j < before.len() && before[j] == x;
                assert(after[j] == x);
            }
            if after.contains(x) {
                let j = choose|j: int| 0 <= j < after.len() && after[j] == x;
                if j < before.len() {
                    assert(before[j] == x);
                    assert(before.contains(x));
                    if front.contains(x) {
                        let i = choose|i: int| 0 <= i < front.len() && front[i] == x;
                        assert(more[i] == x);
                    }
                } else {
                    assert(more[more.len() - 1] == x);
                }
            }
        }
        assert(after.take(list.len() as int) =~= before.take(list.len() as int));
    }
}

/// The first shared node under a path at or after `at`, or how many nodes there
/// are.
pub open spec fn shared_at(nodes: Seq<NodeModel>, path: Seq<u8>, at: int) -> int
    decreases nodes.len() - at,
{
    if at < 0 || at >= nodes.len() {
        nodes.len() as int
    } else if nodes[at].shared && nodes[at].path == path {
        at
    } else {
        shared_at(nodes, path, at + 1)
    }
}

proof fn shared_at_is_found(nodes: Seq<NodeModel>, path: Seq<u8>, at: int)
    requires
        0 <= at <= nodes.len(),
    ensures
        at <= shared_at(nodes, path, at) <= nodes.len(),
    decreases nodes.len() - at,
{
    if at < nodes.len() && !(nodes[at].shared && nodes[at].path == path) {
        shared_at_is_found(nodes, path, at + 1);
    }
}

/// A node nothing makes yet.
pub open spec fn fresh_node(path: Seq<u8>, shared: bool) -> NodeModel {
    NodeModel { path, shared, generator: None, disposable: false }
}

/// The place of a name in a list, or how long the list is.
pub open spec fn name_at(names: Seq<Seq<u8>>, name: Seq<u8>, at: int) -> int
    decreases names.len() - at,
{
    if at < 0 || at >= names.len() {
        names.len() as int
    } else if names[at] == name {
        at
    } else {
        name_at(names, name, at + 1)
    }
}

/// The place of a pool under a name, or how many pools there are.
pub open spec fn pool_at(pools: Seq<PoolModel>, name: Seq<u8>, at: int) -> int
    decreases pools.len() - at,
{
    if at < 0 || at >= pools.len() {
        pools.len() as int
    } else if pools[at].name == name {
        at
    } else {
        pool_at(pools, name, at + 1)
    }
}

/// The place of a rule of a scope under a name, or how many rules there are.
pub open spec fn rule_at(rules: Seq<RuleModel>, scope: usize, name: Seq<u8>, at: int) -> int
    decreases rules.len() - at,
{
    if at < 0 || at >= rules.len() {
        rules.len() as int
    } else if rules[at].scope == scope && rules[at].name == name {
        at
    } else {
        rule_at(rules, scope, name, at + 1)
    }
}

/// What an edge binds a name to, where it does: the last it says.
pub open spec fn bound(bindings: Seq<(usize, Seq<u8>)>, binding: usize) -> Option<Seq<u8>>
    decreases bindings.len(),
{
    if bindings.len() == 0 {
        None
    } else if bindings.last().0 == binding {
        Some(bindings.last().1)
    } else {
        bound(bindings.drop_last(), binding)
    }
}

/// The first of some outputs that an edge already makes.
pub open spec fn made_already(nodes: Seq<NodeModel>, outputs: Seq<usize>, at: int) -> Option<int>
    decreases outputs.len() - at,
{
    if at < 0 || at >= outputs.len() {
        None
    } else if outputs[at] < nodes.len() && nodes[outputs[at] as int].generator is Some {
        Some(at)
    } else {
        made_already(nodes, outputs, at + 1)
    }
}

/// The nodes once an edge makes the first `count` of some outputs.
pub open spec fn made_by(nodes: Seq<NodeModel>, outputs: Seq<usize>, edge: usize, count: int) ->
    Seq<NodeModel>
    decreases count,
{
    if count <= 0 {
        nodes
    } else {
        let before = made_by(nodes, outputs, edge, count - 1);
        let node = outputs[count - 1] as int;
        if 0 <= node < before.len() {
            before.update(node, NodeModel { generator: Some(edge), ..before[node] })
        } else {
            before
        }
    }
}

proof fn made_by_keeps_the_nodes(nodes: Seq<NodeModel>, outputs: Seq<usize>, edge: usize, count: int)
    ensures
        made_by(nodes, outputs, edge, count).len() == nodes.len(),
    decreases count,
{
    if count > 0 {
        made_by_keeps_the_nodes(nodes, outputs, edge, count - 1);
    }
}

/// An edge as it is just declared.
pub open spec fn fresh_edge(declared: EdgeDeclared, pool: Option<usize>) -> EdgeModel {
    EdgeModel {
        declared,
        pool,
        outputs_reobserved: false,
        forgiven: Seq::empty(),
        withdrawable: Seq::empty(),
        delete_on_error: false,
        peers: Seq::empty(),
        deferred: None,
        activations: Seq::empty(),
        completion_of: None,
        begun: false,
        retired: false,
        searched: None,
    }
}

/// Everything an edge makes.
pub open spec fn outputs_of(declared: EdgeDeclared) -> Seq<usize> {
    declared.explicit_outputs + declared.implicit_outputs
}

/// Everything an edge waits for.
pub open spec fn inputs_of(declared: EdgeDeclared) -> Seq<usize> {
    declared.explicit_inputs + declared.implicit_inputs + declared.order_only_inputs
}

impl GraphModel {
    /// The node a path is shared under, added where it is not there.
    pub open spec fn with_node(self, path: Seq<u8>) -> (GraphModel, usize) {
        let place = shared_at(self.nodes, canonical(path), 0);
        if place < self.nodes.len() {
            (self, place as usize)
        } else {
            (
                GraphModel { nodes: self.nodes.push(fresh_node(canonical(path), true)), ..self },
                place as usize,
            )
        }
    }

    /// A node of one unit's own under a path.
    pub open spec fn with_isolated_node(self, path: Seq<u8>) -> (GraphModel, usize) {
        (
            GraphModel { nodes: self.nodes.push(fresh_node(canonical(path), false)), ..self },
            self.nodes.len() as usize,
        )
    }

    /// With a name known.
    pub open spec fn with_name(self, name: Seq<u8>) -> (GraphModel, usize) {
        let place = name_at(self.names, name, 0);
        if place < self.names.len() {
            (self, place as usize)
        } else {
            (GraphModel { names: self.names.push(name), ..self }, place as usize)
        }
    }

    /// With a rule defined.
    pub open spec fn with_rule(
        self,
        scope: usize,
        name: Seq<u8>,
        bindings: Seq<(usize, Seq<PieceModel>)>,
    ) -> (GraphModel, Result<usize, Refusal>) {
        if rule_at(self.rules, scope, name, 0) < self.rules.len() {
            (self, Err(Refusal::DuplicateRule(name)))
        } else {
            (
                GraphModel { rules: self.rules.push(RuleModel { scope, name, bindings }), ..self },
                Ok(self.rules.len() as usize),
            )
        }
    }

    /// With a pool defined.
    pub open spec fn with_pool(self, name: Seq<u8>) -> (GraphModel, Result<usize, Refusal>) {
        if pool_at(self.pools, name, 0) < self.pools.len() {
            (self, Err(Refusal::DuplicatePool(name)))
        } else {
            (
                GraphModel {
                    pools: self.pools.push(PoolModel { name, depth: None }),
                    ..self
                },
                Ok(self.pools.len() as usize),
            )
        }
    }

    /// With a pool's depth set.
    pub open spec fn with_depth(self, pool: usize, depth: usize) -> GraphModel {
        GraphModel {
            pools: self.pools.update(
                pool as int,
                PoolModel { depth: Some(depth), ..self.pools[pool as int] },
            ),
            ..self
        }
    }

    /// With one edge changed.
    pub open spec fn with_edge(self, edge: usize, changed: EdgeModel) -> GraphModel {
        GraphModel { edges: self.edges.update(edge as int, changed), ..self }
    }

    /// The pool an edge's own binding names, where it names one.
    pub open spec fn pool_named(self, bindings: Seq<(usize, Seq<u8>)>) -> Result<
        Option<usize>,
        Refusal,
    > {
        match bound(bindings, name_at(self.names, text("pool"), 0) as usize) {
            Some(name) => if pool_at(self.pools, name, 0) < self.pools.len() {
                Ok(Some(pool_at(self.pools, name, 0) as usize))
            } else {
                Err(Refusal::UnknownPool(name))
            },
            None => Ok(None),
        }
    }

    /// With an edge added, where nothing it makes is made already.
    pub open spec fn with_new_edge(self, declared: EdgeDeclared) -> (
        GraphModel,
        Result<usize, Refusal>,
    ) {
        let outputs = outputs_of(declared);
        match made_already(self.nodes, outputs, 0) {
            Some(at) => (
                self,
                Err(Refusal::DuplicateOutput(self.nodes[outputs[at] as int].path)),
            ),
            None => match self.pool_named(declared.bindings) {
                Err(refusal) => (self, Err(refusal)),
                Ok(pool) => (
                    GraphModel {
                        nodes: made_by(
                            self.nodes,
                            outputs,
                            self.edges.len() as usize,
                            outputs.len() as int,
                        ),
                        edges: self.edges.push(fresh_edge(declared, pool)),
                        ..self
                    },
                    Ok(self.edges.len() as usize),
                ),
            },
        }
    }

    /// With waits added to an edge, those it has already left out.
    pub open spec fn with_order_only(self, edge: usize, nodes: Seq<usize>) -> GraphModel {
        let held = self.edges[edge as int];
        self.with_edge(
            edge,
            EdgeModel {
                declared: EdgeDeclared {
                    order_only_inputs: with_missing(held.declared.order_only_inputs, nodes),
                    ..held.declared
                },
                ..held
            },
        )
    }

    /// With inputs added to an edge, those it has already left out.
    pub open spec fn with_explicit(self, edge: usize, nodes: Seq<usize>) -> GraphModel {
        let held = self.edges[edge as int];
        self.with_edge(
            edge,
            EdgeModel {
                declared: EdgeDeclared {
                    explicit_inputs: with_missing(held.declared.explicit_inputs, nodes),
                    ..held.declared
                },
                ..held
            },
        )
    }

    /// With failures of waits forgiven.
    pub open spec fn with_forgiven(self, edge: usize, nodes: Seq<usize>) -> GraphModel {
        let held = self.edges[edge as int];
        self.with_edge(
            edge,
            EdgeModel { forgiven: with_missing(held.forgiven, nodes), ..held },
        )
    }

    /// What a node waits for: everything the edge that makes it does.
    pub open spec fn prerequisites(self, node: usize) -> Seq<usize> {
        match self.nodes[node as int].generator {
            Some(edge) => inputs_of(self.edges[edge as int].declared),
            None => Seq::empty(),
        }
    }

    /// With some nodes thrown away once the build has finished with them.
    pub open spec fn with_disposable(self, nodes: Seq<usize>) -> GraphModel
        decreases nodes.len(),
    {
        if nodes.len() == 0 {
            self
        } else {
            let before = self.with_disposable(nodes.drop_last());
            let node = nodes.last() as int;
            if 0 <= node < before.nodes.len() {
                GraphModel {
                    nodes: before.nodes.update(
                        node,
                        NodeModel { disposable: true, ..before.nodes[node] },
                    ),
                    ..before
                }
            } else {
                before
            }
        }
    }

    /// With every edge that runs a command and is in no pool put in this one.
    pub open spec fn with_unpooled_held(self, pool: usize) -> GraphModel {
        GraphModel {
            edges: Seq::new(
                self.edges.len(),
                |i: int|
                    if self.edges[i].pool is None && self.edges[i].declared.rule != 0 {
                        EdgeModel { pool: Some(pool), ..self.edges[i] }
                    } else {
                        self.edges[i]
                    },
            ),
            ..self
        }
    }

    /// With an edge's output let go, for a rule that makes the file.
    pub open spec fn with_released(self, edge: usize, node: usize) -> GraphModel {
        let held = self.edges[edge as int];
        GraphModel {
            nodes: self.nodes.update(
                node as int,
                NodeModel { generator: None, ..self.nodes[node as int] },
            ),
            edges: self.edges.update(edge as int, EdgeModel { retired: true, ..held }),
            ..self
        }
    }
}

impl BuildGraph {
    /// The graph as its model.
    pub open spec fn model(&self) -> GraphModel {
        GraphModel {
            names: texts(self.names@),
            scopes: self.scopes@,
            nodes: node_models(self.nodes@),
            rules: rule_models(self.rules@),
            pools: pool_models(self.pools@),
            edges: edge_models(self.edges@),
            defaults: self.defaults@,
        }
    }

    /// A graph with the built-in rule and nothing else: `phony`, which runs no
    /// command.
    pub open spec fn empty_model() -> GraphModel {
        GraphModel {
            names: Seq::empty(),
            scopes: seq![None],
            nodes: Seq::empty(),
            rules: seq![RuleModel { scope: 0, name: text("phony"), bindings: Seq::empty() }],
            pools: Seq::empty(),
            edges: Seq::empty(),
            defaults: Seq::empty(),
        }
    }

    /// A graph with nothing but the built-in rule.
    pub fn new() -> (graph: Self)
        ensures
            graph.model() == BuildGraph::empty_model(),
            graph.model().wf(),
    {
        let mut scopes: Vec<Option<usize>> = Vec::new();
        scopes.push(None);
        let mut rules: Vec<RuleEntry> = Vec::new();
        rules.push(RuleEntry { scope: 0, name: literal("phony"), bindings: Vec::new() });
        let graph = BuildGraph {
            names: Vec::new(),
            scopes,
            nodes: Vec::new(),
            rules,
            pools: Vec::new(),
            edges: Vec::new(),
            defaults: Vec::new(),
        };
        proof {
            let empty = BuildGraph::empty_model();
            assert(graph.model().names =~= empty.names);
            assert(graph.model().scopes =~= empty.scopes);
            assert(graph.model().nodes =~= empty.nodes);
            assert(graph.rules@[0].model().bindings =~= Seq::empty());
            assert(graph.model().rules =~= empty.rules);
            assert(graph.model().pools =~= empty.pools);
            assert(graph.model().edges =~= empty.edges);
            assert(graph.model().defaults =~= empty.defaults);
        }
        graph
    }

    /// The outermost scope.
    pub fn root(&self) -> (scope: usize)
        ensures
            scope == 0,
    {
        0
    }

    /// A scope inside another.
    pub fn child_scope(&mut self, parent: usize) -> (scope: usize)
        ensures
            scope == old(self).model().scopes.len(),
            final(self).model() == (GraphModel {
                scopes: old(self).model().scopes.push(Some(parent)),
                ..old(self).model()
            }),
            old(self).model().wf() ==> final(self).model().wf(),
    {
        let scope: usize = self.scopes.len();
        self.scopes.push(Some(parent));
        scope
    }

    /// The number a binding's name is known by.
    pub fn binding(&mut self, name: &[u8]) -> (binding: usize)
        ensures
            (final(self).model(), binding) == old(self).model().with_name(name@),
            binding < final(self).model().names.len(),
            old(self).model().wf() ==> final(self).model().wf(),
    {
        let ghost names = self.model().names;
        let mut at: usize = 0;
        while at < self.names.len()
            invariant
                at <= self.names@.len(),
                names == texts(self.names@),
                *self == *old(self),
                name_at(names, name@, 0) == name_at(names, name@, at as int),
            decreases self.names@.len() - at,
        {
            if same(&self.names[at], name) {
                return at;
            }
            at += 1;
        }
        self.names.push(copied(name));
        assert(texts(self.names@) =~= names.push(name@));
        assert(self.names.len() == self.names@.len());
        at
    }

    /// The number a name is known by, where it is known.
    pub fn lookup_name(&self, name: &[u8]) -> (binding: Option<usize>)
        ensures
            match binding {
                Some(place) => name_at(self.model().names, name@, 0) == place && place
                    < self.model().names.len(),
                None => name_at(self.model().names, name@, 0) == self.model().names.len(),
            },
    {
        let ghost names = self.model().names;
        let mut at: usize = 0;
        while at < self.names.len()
            invariant
                at <= self.names@.len(),
                names == texts(self.names@),
                name_at(names, name@, 0) == name_at(names, name@, at as int),
            decreases self.names@.len() - at,
        {
            if same(&self.names[at], name) {
                return Some(at);
            }
            at += 1;
        }
        None
    }

    /// The rule a scope has under a name.
    pub fn rule(&self, scope: usize, name: &[u8]) -> (rule: Option<usize>)
        ensures
            match rule {
                Some(place) => rule_at(self.model().rules, scope, name@, 0) == place && place
                    < self.model().rules.len(),
                None => rule_at(self.model().rules, scope, name@, 0) == self.model().rules.len(),
            },
    {
        let ghost rules = self.model().rules;
        let mut at: usize = 0;
        while at < self.rules.len()
            invariant
                at <= self.rules@.len(),
                rules == rule_models(self.rules@),
                rule_at(rules, scope, name@, 0) == rule_at(rules, scope, name@, at as int),
            decreases self.rules@.len() - at,
        {
            if self.rules[at].scope == scope && same(&self.rules[at].name, name) {
                return Some(at);
            }
            at += 1;
        }
        None
    }

    /// Define a rule in a scope.
    pub fn define_rule(
        &mut self,
        scope: usize,
        name: &[u8],
        bindings: Vec<(usize, Template)>,
    ) -> (rule: Result<usize, FrontendError>)
        ensures
            (final(self).model(), id_model(rule)) == old(self).model().with_rule(
                scope,
                name@,
                rule_bindings(bindings@),
            ),
            old(self).model().wf() ==> final(self).model().wf(),
            rule matches Ok(place) ==> place < final(self).model().rules.len(),
    {
        if self.rule(scope, name).is_some() {
            return Err(FrontendError::DuplicateRule { name: copied(name) });
        }
        let rule: usize = self.rules.len();
        let ghost before = self.model().rules;
        let ghost added = RuleModel { scope, name: name@, bindings: rule_bindings(bindings@) };
        self.rules.push(RuleEntry { scope, name: copied(name), bindings });
        assert(self.model().rules =~= before.push(added));
        Ok(rule)
    }

    /// The pool under a name.
    pub fn pool(&self, name: &[u8]) -> (pool: Option<usize>)
        ensures
            match pool {
                Some(place) => pool_at(self.model().pools, name@, 0) == place && place
                    < self.model().pools.len(),
                None => pool_at(self.model().pools, name@, 0) == self.model().pools.len(),
            },
    {
        let ghost pools = self.model().pools;
        let mut at: usize = 0;
        while at < self.pools.len()
            invariant
                at <= self.pools@.len(),
                pools == pool_models(self.pools@),
                pool_at(pools, name@, 0) == pool_at(pools, name@, at as int),
            decreases self.pools@.len() - at,
        {
            if same(&self.pools[at].name, name) {
                return Some(at);
            }
            at += 1;
        }
        None
    }

    /// Define a pool.
    pub fn define_pool(&mut self, name: &[u8]) -> (pool: Result<usize, FrontendError>)
        ensures
            (final(self).model(), id_model(pool)) == old(self).model().with_pool(name@),
            old(self).model().wf() ==> final(self).model().wf(),
            pool matches Ok(place) ==> place < final(self).model().pools.len(),
    {
        if self.pool(name).is_some() {
            return Err(FrontendError::DuplicatePool { name: copied(name) });
        }
        let pool: usize = self.pools.len();
        let ghost before = self.model().pools;
        self.pools.push(PoolEntry { name: copied(name), depth: None });
        assert(self.model().pools =~= before.push(PoolModel { name: name@, depth: None }));
        Ok(pool)
    }

    /// Say how many of a pool's edges may run at once.
    pub fn set_pool_depth(&mut self, pool: usize, depth: usize)
        requires
            pool < old(self).model().pools.len(),
        ensures
            final(self).model() == old(self).model().with_depth(pool, depth),
            old(self).model().wf() ==> final(self).model().wf(),
    {
        let ghost before = self.model();
        self.pools[pool].depth = Some(depth);
        assert(self.model().pools =~= before.with_depth(pool, depth).pools);
    }

    /// The node a path is shared under.
    pub fn node(&mut self, path: &[u8]) -> (node: Result<usize, FrontendError>)
        ensures
            match node {
                Ok(place) => path@.len() > 0
                    && (final(self).model(), place) == old(self).model().with_node(path@)
                    && place < final(self).model().nodes.len(),
                Err(why) => path@.len() == 0 && why.model() == Refusal::EmptyPath
                    && final(self).model() == old(self).model(),
            },
            old(self).model().wf() ==> final(self).model().wf(),
            old(self).model().nodes.len() <= final(self).model().nodes.len(),
    {
        if path.len() == 0 {
            return Err(FrontendError::EmptyPath);
        }
        let spelled: Vec<u8> = canonpath(path);
        let ghost nodes = self.model().nodes;
        let mut at: usize = 0;
        while at < self.nodes.len()
            invariant
                at <= self.nodes@.len(),
                nodes == node_models(self.nodes@),
                *self == *old(self),
                spelled@ == canonical(path@),
                path@.len() > 0,
                shared_at(nodes, spelled@, 0) == shared_at(nodes, spelled@, at as int),
            decreases self.nodes@.len() - at,
        {
            if self.nodes[at].shared && same(&self.nodes[at].path, &spelled) {
                return Ok(at);
            }
            at += 1;
        }
        let ghost name = spelled@;
        self.nodes.push(
            NodeEntry { path: spelled, shared: true, generator: None, disposable: false },
        );
        assert(self.model().nodes =~= nodes.push(fresh_node(name, true)));
        assert(self.nodes.len() == self.nodes@.len());
        Ok(at)
    }

    /// A node of one unit's own under a path.
    pub fn isolated_node(&mut self, path: &[u8]) -> (node: Result<usize, FrontendError>)
        ensures
            match node {
                Ok(place) => path@.len() > 0
                    && (final(self).model(), place) == old(self).model().with_isolated_node(path@)
                    && place < final(self).model().nodes.len(),
                Err(why) => path@.len() == 0 && why.model() == Refusal::EmptyPath
                    && final(self).model() == old(self).model(),
            },
            old(self).model().wf() ==> final(self).model().wf(),
            old(self).model().nodes.len() <= final(self).model().nodes.len(),
    {
        if path.len() == 0 {
            return Err(FrontendError::EmptyPath);
        }
        let node: usize = self.nodes.len();
        let ghost nodes = self.model().nodes;
        self.nodes.push(
            NodeEntry { path: canonpath(path), shared: false, generator: None, disposable: false },
        );
        assert(self.model().nodes =~= nodes.push(fresh_node(canonical(path@), false)));
        assert(self.nodes.len() == self.nodes@.len());
        Ok(node)
    }

    /// The path of a node.
    pub fn path(&self, node: usize) -> (path: &Vec<u8>)
        requires
            node < self.model().nodes.len(),
        ensures
            path@ == self.model().nodes[node as int].path,
    {
        &self.nodes[node].path
    }

    /// The shared node under a path that is canonical already.
    pub fn lookup(&self, path: &[u8]) -> (node: Option<usize>)
        ensures
            match node {
                Some(place) => shared_at(self.model().nodes, path@, 0) == place && place
                    < self.model().nodes.len(),
                None => shared_at(self.model().nodes, path@, 0) == self.model().nodes.len(),
            },
    {
        let ghost nodes = self.model().nodes;
        let mut at: usize = 0;
        while at < self.nodes.len()
            invariant
                at <= self.nodes@.len(),
                nodes == node_models(self.nodes@),
                shared_at(nodes, path@, 0) == shared_at(nodes, path@, at as int),
            decreases self.nodes@.len() - at,
        {
            if self.nodes[at].shared && same(&self.nodes[at].path, path) {
                return Some(at);
            }
            at += 1;
        }
        None
    }

    /// The edge that makes a node.
    pub fn generator(&self, node: usize) -> (edge: Option<usize>)
        requires
            node < self.model().nodes.len(),
        ensures
            edge == self.model().nodes[node as int].generator,
    {
        self.nodes[node].generator
    }
}

/// Whether an edge names only what the graph has.
pub open spec fn edge_ok(edge: EdgeModel, nodes: nat, rules: nat, pools: nat) -> bool {
    &&& edge.declared.rule < rules
    &&& below(edge.declared.explicit_outputs, nodes)
    &&& below(edge.declared.implicit_outputs, nodes)
    &&& below(edge.declared.explicit_inputs, nodes)
    &&& below(edge.declared.implicit_inputs, nodes)
    &&& below(edge.declared.order_only_inputs, nodes)
    &&& below(edge.declared.validations, nodes)
    &&& below(edge.forgiven, nodes)
    &&& below(edge.withdrawable, nodes)
    &&& below(edge.peers, nodes)
    &&& below(edge.activations, nodes)
    &&& edge.pool matches Some(pool) ==> pool < pools
    &&& edge.completion_of matches Some(node) ==> node < nodes
    &&& edge.deferred matches Some(deferred) ==> deferred_ok(deferred, nodes)
}

/// Whether a deferred action names only nodes the graph has.
pub open spec fn deferred_ok(deferred: DeferredModel, nodes: nat) -> bool {
    &&& below(deferred.outputs, nodes)
    &&& below(deferred.always_new_inputs, nodes)
    &&& below(deferred.excluded_new_inputs, nodes)
    &&& forall|i: int|
        0 <= i < deferred.new_input_names.len() ==> (#[trigger] deferred.new_input_names[i]).0
            < nodes
}

impl GraphModel {
    /// Whether the graph names only what it has.
    pub open spec fn wf(self) -> bool {
        &&& forall|i: int|
            0 <= i < self.nodes.len() ==> ((#[trigger] self.nodes[i]).generator matches Some(edge)
                ==> edge < self.edges.len())
        &&& forall|i: int|
            0 <= i < self.edges.len() ==> edge_ok(
                #[trigger] self.edges[i],
                self.nodes.len(),
                self.rules.len(),
                self.pools.len(),
            )
        &&& below(self.defaults, self.nodes.len())
        &&& self.rules.len() > 0
        &&& self.names.len() <= usize::MAX
        &&& self.nodes.len() <= usize::MAX
        &&& self.edges.len() <= usize::MAX
    }
}

/// What a list lacks of another is no further out than either.
pub(crate) proof fn missing_is_below(list: Seq<usize>, more: Seq<usize>, count: nat)
    requires
        below(list, count),
        below(more, count),
    ensures
        below(with_missing(list, more), count),
    decreases more.len(),
{
    if more.len() > 0 {
        missing_is_below(list, more.drop_last(), count);
    }
}

pub(crate) proof fn disposable_keeps_the_rest(graph: GraphModel, nodes: Seq<usize>)
    ensures
        ({
            let after = graph.with_disposable(nodes);
            &&& after.nodes.len() == graph.nodes.len()
            &&& after.edges == graph.edges
            &&& after.rules == graph.rules
            &&& after.pools == graph.pools
            &&& after.defaults == graph.defaults
            &&& after.names == graph.names
            &&& after.scopes == graph.scopes
            &&& forall|i: int|
                0 <= i < graph.nodes.len() ==> (#[trigger] after.nodes[i]).generator
                    == graph.nodes[i].generator && after.nodes[i].path == graph.nodes[i].path
        }),
    decreases nodes.len(),
{
    if nodes.len() > 0 {
        disposable_keeps_the_rest(graph, nodes.drop_last());
    }
}

pub(crate) proof fn made_by_generators(nodes: Seq<NodeModel>, outputs: Seq<usize>, edge: usize, count: int)
    ensures
        ({
            let after = made_by(nodes, outputs, edge, count);
            &&& after.len() == nodes.len()
            &&& forall|i: int|
                0 <= i < nodes.len() ==> ((#[trigger] after[i]).generator == nodes[i].generator
                    || after[i].generator == Some(edge)) && after[i].path == nodes[i].path
        }),
    decreases count,
{
    if count > 0 {
        made_by_generators(nodes, outputs, edge, count - 1);
    }
}

impl BuildGraph {
    /// Add an edge, where nothing it makes is made already.
    pub fn add_edge(&mut self, spec: EdgeSpec) -> (edge: Result<usize, FrontendError>)
        requires
            old(self).model().wf(),
            edge_ok(
                fresh_edge(spec.model(), None),
                old(self).model().nodes.len(),
                old(self).model().rules.len(),
                old(self).model().pools.len(),
            ),
        ensures
            final(self).model().wf(),
            (final(self).model(), id_model(edge)) == old(self).model().with_new_edge(spec.model()),
            final(self).model().nodes.len() == old(self).model().nodes.len(),
    {
        let ghost before = self.model();
        let ghost declared = spec.model();
        let mut outputs: Vec<usize> = copied_ids(&spec.explicit_outputs);
        let mut implicit: Vec<usize> = copied_ids(&spec.implicit_outputs);
        outputs.append(&mut implicit);
        assert(outputs@ =~= outputs_of(declared));
        let mut at: usize = 0;
        while at < outputs.len()
            invariant
                at <= outputs@.len(),
                outputs@ == outputs_of(declared),
                below(outputs@, self.model().nodes.len()),
                before == self.model(),
                *self == *old(self),
                spec.model() == declared,
                before.wf(),
                made_already(before.nodes, outputs@, 0) == made_already(
                    before.nodes,
                    outputs@,
                    at as int,
                ),
            decreases outputs@.len() - at,
        {
            assert(before.nodes[outputs@[at as int] as int] == self.nodes@[outputs@[at as int] as int].model());
            if self.nodes[outputs[at]].generator.is_some() {
                let path: Vec<u8> = copied(&self.nodes[outputs[at]].path);
                return Err(FrontendError::DuplicateOutput { path });
            }
            at += 1;
        }
        let pool: Option<usize> = match self.pool_of(&spec.bindings) {
            Ok(pool) => pool,
            Err(why) => return Err(why),
        };
        let edge: usize = self.edges.len();
        let mut at: usize = 0;
        while at < outputs.len()
            invariant
                at <= outputs@.len(),
                outputs@ == outputs_of(declared),
                below(outputs@, before.nodes.len()),
                self.model() == (GraphModel {
                    nodes: made_by(before.nodes, outputs@, edge, at as int),
                    ..before
                }),
                self.edges@.len() == edge,
            decreases outputs@.len() - at,
        {
            proof {
                made_by_keeps_the_nodes(before.nodes, outputs@, edge, at as int);
            }
            let ghost stood = self.model();
            let node: usize = outputs[at];
            assert(node_models(self.nodes@).len() == self.nodes@.len());
            self.nodes[node].generator = Some(edge);
            assert(self.model().nodes =~= made_by(before.nodes, outputs@, edge, at as int + 1));
            at += 1;
        }
        self.edges.push(
            EdgeEntry {
                declared: spec,
                pool,
                outputs_reobserved: false,
                forgiven: Vec::new(),
                withdrawable: Vec::new(),
                delete_on_error: false,
                peers: Vec::new(),
                deferred: None,
                activations: Vec::new(),
                completion_of: None,
                begun: false,
                retired: false,
                searched: None,
            },
        );
        proof {
            made_by_generators(before.nodes, outputs@, edge, outputs@.len() as int);
            let added = self.edges@.last().model();
            assert(added.forgiven =~= Seq::empty());
            assert(added.withdrawable =~= Seq::empty());
            assert(added.peers =~= Seq::empty());
            assert(added.activations =~= Seq::empty());
            assert(added == fresh_edge(declared, pool));
            assert(self.model().edges =~= before.edges.push(added));
            assert(self.edges.len() == self.edges@.len());
            assert(outputs@ == outputs_of(declared));
            assert(self.model() == before.with_new_edge(declared).0);
        }
        Ok(edge)
    }

    /// The pool an edge's own binding names, where it names one.
    fn pool_of(&self, bindings: &[(usize, Vec<u8>)]) -> (pool: Result<
        Option<usize>,
        FrontendError,
    >)
        requires
            self.model().names.len() <= usize::MAX,
        ensures
            match pool {
                Ok(named) => self.model().pool_named(edge_values(bindings@)) == Ok::<
                    Option<usize>,
                    Refusal,
                >(named) && (named matches Some(place) ==> place < self.model().pools.len()),
                Err(why) => self.model().pool_named(edge_values(bindings@)) == Err::<
                    Option<usize>,
                    Refusal,
                >(why.model()),
            },
    {
        let binding: usize = match self.lookup_name("pool".as_bytes()) {
            Some(place) => place,
            None => self.names.len(),
        };
        match last_bound(bindings, binding) {
            Some(at) => match self.pool(&bindings[at].1) {
                Some(pool) => Ok(Some(pool)),
                None => Err(FrontendError::UnknownPool { name: copied(&bindings[at].1) }),
            },
            None => Ok(None),
        }
    }

    /// Make an edge wait for more nodes.
    pub fn add_order_only_inputs(&mut self, edge: usize, nodes: &[usize])
        requires
            old(self).model().wf(),
            edge < old(self).model().edges.len(),
            below(nodes@, old(self).model().nodes.len()),
        ensures
            final(self).model().wf(),
            final(self).model() == old(self).model().with_order_only(edge, nodes@),
    {
        let ghost before = self.model();
        assert(before.edges[edge as int] == self.edges@[edge as int].model());
        push_missing(&mut self.edges[edge].declared.order_only_inputs, nodes);
        proof {
            missing_is_below(
                before.edges[edge as int].declared.order_only_inputs,
                nodes@,
                before.nodes.len(),
            );
            assert(self.model().edges =~= before.with_order_only(edge, nodes@).edges);
        }
    }

    /// Give an edge more inputs.
    pub fn add_explicit_inputs(&mut self, edge: usize, nodes: &[usize])
        requires
            old(self).model().wf(),
            edge < old(self).model().edges.len(),
            below(nodes@, old(self).model().nodes.len()),
        ensures
            final(self).model().wf(),
            final(self).model() == old(self).model().with_explicit(edge, nodes@),
    {
        let ghost before = self.model();
        assert(before.edges[edge as int] == self.edges@[edge as int].model());
        push_missing(&mut self.edges[edge].declared.explicit_inputs, nodes);
        proof {
            missing_is_below(
                before.edges[edge as int].declared.explicit_inputs,
                nodes@,
                before.nodes.len(),
            );
            assert(self.model().edges =~= before.with_explicit(edge, nodes@).edges);
        }
    }

    /// Forgive an edge the failure of waits.
    pub fn forgive_order_inputs(&mut self, edge: usize, nodes: &[usize])
        requires
            old(self).model().wf(),
            edge < old(self).model().edges.len(),
            below(nodes@, old(self).model().nodes.len()),
        ensures
            final(self).model().wf(),
            final(self).model() == old(self).model().with_forgiven(edge, nodes@),
    {
        let ghost before = self.model();
        assert(before.edges[edge as int] == self.edges@[edge as int].model());
        push_missing(&mut self.edges[edge].forgiven, nodes);
        proof {
            missing_is_below(before.edges[edge as int].forgiven, nodes@, before.nodes.len());
            assert(self.model().edges =~= before.with_forgiven(edge, nodes@).edges);
        }
    }

    /// Change the rule an edge runs.
    pub fn set_edge_rule(&mut self, edge: usize, rule: usize)
        requires
            old(self).model().wf(),
            edge < old(self).model().edges.len(),
            rule < old(self).model().rules.len(),
        ensures
            final(self).model().wf(),
            final(self).model() == old(self).model().with_edge(
                edge,
                (EdgeModel {
                    declared: EdgeDeclared {
                        rule,
                        ..old(self).model().edges[edge as int].declared
                    },
                    ..old(self).model().edges[edge as int]
                }),
            ),
    {
        let ghost before = self.model();
        let ghost held = before.edges[edge as int];
        assert(held == self.edges@[edge as int].model());
        self.edges[edge].declared.rule = rule;
        assert(self.model().edges =~= before.edges.update(
            edge as int,
            EdgeModel { declared: EdgeDeclared { rule, ..held.declared }, ..held },
        ));
    }

    /// Say what an edge's failure withdraws, and the outputs it makes on the
    /// way, and that its outputs are read off the disk again.
    pub fn set_make_target(
        &mut self,
        edge: usize,
        withdrawable: Vec<usize>,
        delete_on_error: bool,
        peers: Vec<usize>,
    )
        requires
            old(self).model().wf(),
            edge < old(self).model().edges.len(),
            below(withdrawable@, old(self).model().nodes.len()),
            below(peers@, old(self).model().nodes.len()),
        ensures
            final(self).model().wf(),
            final(self).model() == old(self).model().with_edge(
                edge,
                (EdgeModel {
                    outputs_reobserved: true,
                    withdrawable: withdrawable@,
                    delete_on_error,
                    peers: peers@,
                    ..old(self).model().edges[edge as int]
                }),
            ),
    {
        let ghost before = self.model();
        let ghost held = before.edges[edge as int];
        assert(held == self.edges@[edge as int].model());
        let ghost changed = EdgeModel {
            outputs_reobserved: true,
            withdrawable: withdrawable@,
            delete_on_error,
            peers: peers@,
            ..held
        };
        self.edges[edge].outputs_reobserved = true;
        self.edges[edge].withdrawable = withdrawable;
        self.edges[edge].delete_on_error = delete_on_error;
        self.edges[edge].peers = peers;
        assert(self.model().edges =~= before.edges.update(edge as int, changed));
    }

    /// Throw some nodes away once the build has finished with them.
    pub fn set_disposable_outputs(&mut self, nodes: &[usize])
        requires
            old(self).model().wf(),
            below(nodes@, old(self).model().nodes.len()),
        ensures
            final(self).model().wf(),
            final(self).model() == old(self).model().with_disposable(nodes@),
    {
        let ghost before = self.model();
        let mut at: usize = 0;
        assert(nodes@.take(0) =~= Seq::empty());
        while at < nodes.len()
            invariant
                at <= nodes@.len(),
                below(nodes@, before.nodes.len()),
                self.model() == before.with_disposable(nodes@.take(at as int)),
            decreases nodes@.len() - at,
        {
            let ghost next = nodes@.take(at as int + 1);
            assert(next.drop_last() =~= nodes@.take(at as int));
            proof {
                disposable_keeps_the_rest(before, nodes@.take(at as int));
            }
            let node: usize = nodes[at];
            assert(node_models(self.nodes@).len() == self.nodes@.len());
            self.nodes[node].disposable = true;
            assert(self.model().nodes =~= before.with_disposable(next).nodes);
            at += 1;
        }
        proof {
            assert(nodes@.take(at as int) =~= nodes@);
            disposable_keeps_the_rest(before, nodes@);
        }
    }

    /// Leave an edge's freshness to other targets.
    pub fn set_deferred_freshness(&mut self, edge: usize, deferred: Deferred)
        requires
            old(self).model().wf(),
            edge < old(self).model().edges.len(),
            deferred_ok(deferred.model(), old(self).model().nodes.len()),
        ensures
            final(self).model().wf(),
            final(self).model() == old(self).model().with_edge(
                edge,
                (EdgeModel {
                    deferred: Some(deferred.model()),
                    ..old(self).model().edges[edge as int]
                }),
            ),
    {
        let ghost before = self.model();
        let ghost held = before.edges[edge as int];
        assert(held == self.edges@[edge as int].model());
        let ghost changed = EdgeModel { deferred: Some(deferred.model()), ..held };
        self.edges[edge].deferred = Some(deferred);
        assert(self.model().edges =~= before.edges.update(edge as int, changed));
    }

    /// Say what has to be done before a deferred action is looked at.
    pub fn add_deferred_activations(&mut self, edge: usize, nodes: &[usize])
        requires
            old(self).model().wf(),
            edge < old(self).model().edges.len(),
            below(nodes@, old(self).model().nodes.len()),
        ensures
            final(self).model().wf(),
            final(self).model() == old(self).model().with_edge(
                edge,
                (EdgeModel {
                    activations: with_missing(
                        old(self).model().edges[edge as int].activations,
                        nodes@,
                    ),
                    ..old(self).model().edges[edge as int]
                }),
            ),
    {
        let ghost before = self.model();
        let ghost held = before.edges[edge as int];
        assert(held == self.edges@[edge as int].model());
        push_missing(&mut self.edges[edge].activations, nodes);
        proof {
            missing_is_below(held.activations, nodes@, before.nodes.len());
            assert(self.model().edges =~= before.edges.update(
                edge as int,
                EdgeModel { activations: with_missing(held.activations, nodes@), ..held },
            ));
        }
    }

    /// Let an edge stand for the completion of a file.
    pub fn set_completion_join(&mut self, edge: usize, node: usize)
        requires
            old(self).model().wf(),
            edge < old(self).model().edges.len(),
            node < old(self).model().nodes.len(),
        ensures
            final(self).model().wf(),
            final(self).model() == old(self).model().with_edge(
                edge,
                (EdgeModel {
                    completion_of: Some(node),
                    ..old(self).model().edges[edge as int]
                }),
            ),
    {
        let ghost before = self.model();
        let ghost held = before.edges[edge as int];
        assert(held == self.edges@[edge as int].model());
        self.edges[edge].completion_of = Some(node);
        assert(self.model().edges =~= before.edges.update(
            edge as int,
            EdgeModel { completion_of: Some(node), ..held },
        ));
    }

    /// Record the names a search settled for an edge.
    pub fn set_searched_spellings(&mut self, edge: usize, searched: Searched)
        requires
            old(self).model().wf(),
            edge < old(self).model().edges.len(),
        ensures
            final(self).model().wf(),
            final(self).model() == old(self).model().with_edge(
                edge,
                (EdgeModel {
                    searched: Some(searched.model()),
                    ..old(self).model().edges[edge as int]
                }),
            ),
    {
        let ghost before = self.model();
        let ghost held = before.edges[edge as int];
        assert(held == self.edges@[edge as int].model());
        let ghost changed = EdgeModel { searched: Some(searched.model()), ..held };
        self.edges[edge].searched = Some(searched);
        assert(self.model().edges =~= before.edges.update(edge as int, changed));
    }

    /// Say that an edge's recipe was begun before the build.
    pub fn mark_recipe_begun(&mut self, edge: usize)
        requires
            old(self).model().wf(),
            edge < old(self).model().edges.len(),
        ensures
            final(self).model().wf(),
            final(self).model() == old(self).model().with_edge(
                edge,
                (EdgeModel { begun: true, ..old(self).model().edges[edge as int] }),
            ),
    {
        let ghost before = self.model();
        let ghost held = before.edges[edge as int];
        assert(held == self.edges@[edge as int].model());
        self.edges[edge].begun = true;
        assert(self.model().edges =~= before.edges.update(
            edge as int,
            EdgeModel { begun: true, ..held },
        ));
    }

    /// Take an edge's outputs for files of their own.
    pub fn unalias_outputs(&mut self, edge: usize)
        requires
            old(self).model().wf(),
            edge < old(self).model().edges.len(),
        ensures
            final(self).model().wf(),
            final(self).model() == old(self).model().with_edge(
                edge,
                (EdgeModel {
                    declared: EdgeDeclared {
                        outputs_unaliased: true,
                        ..old(self).model().edges[edge as int].declared
                    },
                    ..old(self).model().edges[edge as int]
                }),
            ),
    {
        let ghost before = self.model();
        let ghost held = before.edges[edge as int];
        assert(held == self.edges@[edge as int].model());
        self.edges[edge].declared.outputs_unaliased = true;
        assert(self.model().edges =~= before.edges.update(
            edge as int,
            EdgeModel {
                declared: EdgeDeclared { outputs_unaliased: true, ..held.declared },
                ..held
            },
        ));
    }

    /// Take an output off the edge that only names it.
    pub fn release_output(&mut self, edge: usize, node: usize)
        requires
            old(self).model().wf(),
            edge < old(self).model().edges.len(),
            node < old(self).model().nodes.len(),
        ensures
            final(self).model().wf(),
            final(self).model() == old(self).model().with_released(edge, node),
    {
        let ghost before = self.model();
        assert(before.edges[edge as int] == self.edges@[edge as int].model());
        assert(before.nodes[node as int] == self.nodes@[node as int].model());
        self.nodes[node].generator = None;
        self.edges[edge].retired = true;
        assert(self.model().edges =~= before.with_released(edge, node).edges);
        assert(self.model().nodes =~= before.with_released(edge, node).nodes);
    }

    /// Put every edge that runs a command and is in no pool into this one.
    pub fn hold_unpooled_edges(&mut self, pool: usize)
        requires
            old(self).model().wf(),
            pool < old(self).model().pools.len(),
        ensures
            final(self).model().wf(),
            final(self).model() == old(self).model().with_unpooled_held(pool),
    {
        let ghost before = self.model();
        let ghost held = before.with_unpooled_held(pool).edges;
        let mut at: usize = 0;
        while at < self.edges.len()
            invariant
                at <= self.edges@.len(),
                self.edges@.len() == before.edges.len(),
                held == before.with_unpooled_held(pool).edges,
                self.model() == (GraphModel { edges: self.model().edges, ..before }),
                forall|i: int| 0 <= i < at ==> #[trigger] self.model().edges[i] == held[i],
                forall|i: int|
                    at <= i < before.edges.len() ==> #[trigger] self.model().edges[i]
                        == before.edges[i],
            decreases self.edges@.len() - at,
        {
            let ghost stood = self.model().edges;
            assert(stood[at as int] == before.edges[at as int]);
            if self.edges[at].pool.is_none() && self.edges[at].declared.rule != 0 {
                self.edges[at].pool = Some(pool);
            }
            assert(self.model().edges =~= stood.update(at as int, held[at as int]));
            at += 1;
        }
        assert(self.model().edges =~= held);
    }

    /// Name a target that is built where none is asked for.
    pub fn add_default(&mut self, node: usize)
        requires
            old(self).model().wf(),
            node < old(self).model().nodes.len(),
        ensures
            final(self).model().wf(),
            final(self).model() == (GraphModel {
                defaults: old(self).model().defaults.push(node),
                ..old(self).model()
            }),
    {
        self.defaults.push(node);
    }

    /// The targets that are built where none is asked for.
    pub fn default_targets(&self) -> (targets: &Vec<usize>)
        ensures
            targets@ == self.model().defaults,
    {
        &self.defaults
    }

    /// What a node waits for.
    pub fn prerequisites_of(&self, node: usize) -> (nodes: Vec<usize>)
        requires
            self.model().wf(),
            node < self.model().nodes.len(),
        ensures
            nodes@ == self.model().prerequisites(node),
            below(nodes@, self.model().nodes.len()),
    {
        assert(self.model().nodes[node as int] == self.nodes@[node as int].model());
        match self.nodes[node].generator {
            Some(edge) => {
                assert(self.model().edges[edge as int] == self.edges@[edge as int].model());
                let declared: &EdgeSpec = &self.edges[edge].declared;
                let mut nodes: Vec<usize> = copied_ids(&declared.explicit_inputs);
                let mut implicit: Vec<usize> = copied_ids(&declared.implicit_inputs);
                let mut order_only: Vec<usize> = copied_ids(&declared.order_only_inputs);
                nodes.append(&mut implicit);
                nodes.append(&mut order_only);
                assert(nodes@ =~= inputs_of(declared.model()));
                nodes
            },
            None => {
                let none: Vec<usize> = Vec::new();
                assert(none@ =~= Seq::empty());
                none
            },
        }
    }
}

/// The place of the last value a name is bound to.
fn last_bound(bindings: &[(usize, Vec<u8>)], binding: usize) -> (found: Option<usize>)
    ensures
        match found {
            Some(at) => at < bindings@.len() && bound(edge_values(bindings@), binding) == Some(
                bindings@[at as int].1@,
            ),
            None => bound(edge_values(bindings@), binding) is None,
        },
{
    let ghost all = edge_values(bindings@);
    let mut left: usize = bindings.len();
    assert(all.take(left as int) =~= all);
    while left > 0
        invariant
            left <= bindings@.len(),
            all == edge_values(bindings@),
            bound(all.take(left as int), binding) == bound(all, binding),
        decreases left,
    {
        let ghost here = all.take(left as int);
        assert(here.drop_last() =~= all.take(left - 1));
        assert(here.last() == (bindings@[left - 1].0, bindings@[left - 1].1@));
        if bindings[left - 1].0 == binding {
            return Some(left - 1);
        }
        left -= 1;
    }
    None
}

/// A byte a shell reads as it is.
pub open spec fn plain(byte: u8) -> bool {
    (0x30 <= byte && byte <= 0x39) || (0x41 <= byte && byte <= 0x5a) || (0x61 <= byte && byte
        <= 0x7a) || byte == 0x5f || byte == 0x2b || byte == 0x2d || byte == 0x2e || byte == 0x2f
}

/// Whether a shell reads every byte of a path as it is.
pub open spec fn all_plain(path: Seq<u8>) -> bool {
    forall|i: int| 0 <= i < path.len() ==> plain(#[trigger] path[i])
}

/// A path as a shell command line spells it.
pub open spec fn shell_path(path: Seq<u8>) -> Seq<u8> {
    if all_plain(path) {
        path
    } else {
        shell_word(path)
    }
}

/// A path quoted for a shell, where it needs quoting.
pub fn shell_escape_path(path: &[u8]) -> (quoted: Option<Vec<u8>>)
    ensures
        maybe(quoted) == (if all_plain(path@) {
            None
        } else {
            Some(shell_word(path@))
        }),
{
    let mut at: usize = 0;
    while at < path.len()
        invariant
            at <= path@.len(),
            forall|i: int| 0 <= i < at ==> plain(#[trigger] path@[i]),
        decreases path@.len() - at,
    {
        let byte: u8 = path[at];
        if !((0x30 <= byte && byte <= 0x39) || (0x41 <= byte && byte <= 0x5a) || (0x61 <= byte
            && byte <= 0x7a) || byte == 0x5f || byte == 0x2b || byte == 0x2d || byte == 0x2e || byte
            == 0x2f) {
            assert(!plain(path@[at as int]));
            let mut quoted: Vec<u8> = Vec::new();
            CommandLayout::push_shell_word(&mut quoted, path);
            assert(quoted@ =~= shell_word(path@));
            return Some(quoted);
        }
        at += 1;
    }
    None
}

/// A result that is a number, as its model.
pub open spec fn id_model(result: Result<usize, FrontendError>) -> Result<usize, Refusal> {
    match result {
        Ok(id) => Ok(id),
        Err(why) => Err(why.model()),
    }
}

} // verus!
