//! The graph a Makefile's evaluation declares, rule by rule and edge by edge.
//!
//! A recursive rule is not an executor rule: it is held, as a
//! [`PendingSubninja`], until the compilation composes the child it invokes in
//! place of its edge.

use crate::artifact::SettledSteps;
use crate::bytes::{append, copied, literal, maybe, text, texts};
use crate::graph::{
    below, copied_ids, deferred_model, deferred_ok, edge_values, rule_at, rule_bindings, BuildGraph,
    Deferred, DeferredModel, FrontendError, GraphModel, PieceModel, Refusal, SettledView, Template,
};
use crate::layout::{EnvironmentChange, SettledScript, SettledSegment, SpelledStep};
use crate::paths::joined_path;
use crate::table::{Key, Table};
use vstd::prelude::*;
use vstd::string::*;

verus! {

/// When a caller turns recipes into command text.
#[derive(Clone, Copy, PartialEq, Eq, Structural, Debug)]
pub enum RecipeExpansion {
    /// As the graph is built.
    Construction,
    /// As each edge is launched.
    Launch,
}

/// The bindings a Make graph uses, by the numbers their names are known by.
#[derive(Clone, Copy, PartialEq, Eq, Structural, Debug)]
pub struct Bindings {
    pub command: usize,
    pub description: usize,
    pub depfile: usize,
    pub deps: usize,
    pub generator: usize,
    pub rspfile: usize,
    pub rspfile_content: usize,
    pub pool: usize,
    pub ignore_errors: usize,
    pub out: usize,
}

/// The names of the bindings, in the order they are made known.
pub open spec fn binding_names() -> Seq<Seq<u8>> {
    seq![
        text("command"),
        text("description"),
        text("depfile"),
        text("deps"),
        text("generator"),
        text("rspfile"),
        text("rspfile_content"),
        text("pool"),
        text("ignore_errors"),
        text("out"),
    ]
}

/// The graph once the first `count` names are known.
pub open spec fn with_names(graph: GraphModel, names: Seq<Seq<u8>>, count: int) -> GraphModel
    decreases count,
{
    if count <= 0 {
        graph
    } else {
        with_names(graph, names, count - 1).with_name(names[count - 1]).0
    }
}

/// The number each name is known by once the ones before it are known.
pub open spec fn known_as(graph: GraphModel, names: Seq<Seq<u8>>, at: int) -> usize {
    with_names(graph, names, at).with_name(names[at]).1
}

impl Bindings {
    /// The bindings once their names are known to a graph.
    pub open spec fn in_graph(graph: GraphModel) -> Bindings {
        let names = binding_names();
        Bindings {
            command: known_as(graph, names, 0),
            description: known_as(graph, names, 1),
            depfile: known_as(graph, names, 2),
            deps: known_as(graph, names, 3),
            generator: known_as(graph, names, 4),
            rspfile: known_as(graph, names, 5),
            rspfile_content: known_as(graph, names, 6),
            pool: known_as(graph, names, 7),
            ignore_errors: known_as(graph, names, 8),
            out: known_as(graph, names, 9),
        }
    }

    /// Make the names of the bindings known to a graph.
    pub fn intern(graph: &mut BuildGraph) -> (bindings: Self)
        ensures
            final(graph).model() == with_names(old(graph).model(), binding_names(), 10),
            bindings == Bindings::in_graph(old(graph).model()),
            old(graph).model().wf() ==> final(graph).model().wf(),
    {
        reveal_with_fuel(with_names, 11);
        Bindings {
            command: graph.binding("command".as_bytes()),
            description: graph.binding("description".as_bytes()),
            depfile: graph.binding("depfile".as_bytes()),
            deps: graph.binding("deps".as_bytes()),
            generator: graph.binding("generator".as_bytes()),
            rspfile: graph.binding("rspfile".as_bytes()),
            rspfile_content: graph.binding("rspfile_content".as_bytes()),
            pool: graph.binding("pool".as_bytes()),
            ignore_errors: graph.binding("ignore_errors".as_bytes()),
            out: graph.binding("out".as_bytes()),
        }
    }
}

/// The script a rule runs, and how it reaches the shell.
#[derive(Debug)]
pub struct SinkCommand {
    pub script: Vec<u8>,
    /// Whether the shell reads it out of a response file.
    pub response_file: bool,
    /// The script with everything escaped that a double-quoted word reads.
    pub escaped: Vec<u8>,
}

/// One recursive invocation of a rule.
#[derive(Debug)]
pub struct SinkSubninja {
    pub command: Vec<u8>,
    pub make: Vec<u8>,
    /// The lines of the recipe that stand before it.
    pub preceding: Option<SinkCommand>,
    pub preceding_ignore_errors: bool,
    pub preceding_steps: Vec<SpelledStep>,
    pub location: Option<Vec<u8>>,
}

/// A rule an evaluation declares, one for each edge and just before it.
#[derive(Debug)]
pub struct SinkRule {
    pub id: usize,
    pub shell: Vec<u8>,
    /// The shell as a command line names it.
    pub shell_name: Vec<u8>,
    pub shell_flags: Vec<u8>,
    /// The flags less the letter that says the next word is the command.
    pub file_flags: Vec<u8>,
    /// What the target's own scope changes about the environment.
    pub recipe_environment: Vec<EnvironmentChange>,
    /// How the unit's changes and those are spelled for a shell.
    pub environment: Vec<u8>,
    pub command: SinkCommand,
    pub ignore_errors: bool,
    pub description: Option<Vec<u8>>,
    pub depfile: Option<Vec<u8>>,
    pub steps: Vec<SpelledStep>,
    /// The recipe, where it was left unexpanded.
    pub deferred_recipe: Option<usize>,
    /// Whether the recipe holds a recursive invocation, lifted out of it or not.
    pub contains_recursive: bool,
    pub subninjas: Vec<SinkSubninja>,
    /// The lines behind the last recursive invocation.
    pub residual_command: Option<SinkCommand>,
    pub residual_ignore_errors: bool,
    pub residual_steps: Vec<SpelledStep>,
}

/// A name a search settles, and the variable that reads it.
#[derive(Debug)]
pub struct SettledName {
    pub variable: Vec<u8>,
    pub input: Vec<u8>,
    pub view: SettledView,
}

/// An edge an evaluation declares.
#[derive(Debug)]
pub struct SinkEdge {
    pub output: Vec<u8>,
    pub rule: Option<usize>,
    pub implicit_outputs: Vec<Vec<u8>>,
    pub inputs: Vec<Vec<u8>>,
    pub order_only_inputs: Vec<Vec<u8>>,
    pub forgiven_order_only_inputs: Vec<Vec<u8>>,
    pub withdrawable_outputs: Vec<Vec<u8>>,
    pub peer_outputs: Vec<Vec<u8>>,
    pub disposable_outputs: Vec<Vec<u8>>,
    pub delete_on_error: bool,
    pub always_dirty: bool,
    pub intermediate: bool,
    pub has_touchable_recipe: bool,
    /// Whether the outputs' dates are read in whole seconds.
    pub low_resolution: bool,
    /// Whether the edge only stands for its output's completion.
    pub completion_join: bool,
    pub pool: Option<Vec<u8>>,
    pub deferred_freshness_outputs: Vec<Vec<u8>>,
    pub deferred_freshness_always_dirty: bool,
    pub deferred_freshness_ignores_dates: bool,
    pub deferred_freshness_heads_the_record: bool,
    pub deferred_always_new_inputs: Vec<Vec<u8>>,
    pub deferred_excluded_new_inputs: Vec<Vec<u8>>,
    pub deferred_new_input_names: Vec<(Vec<u8>, Vec<u8>)>,
    /// The variables that name the directories and the file names of the inputs
    /// that are new.
    pub deferred_new_input_directories: Vec<u8>,
    pub deferred_new_input_filenames: Vec<u8>,
    pub declared_by_double_colon: Option<Vec<u8>>,
    pub searched_at: Option<Vec<u8>>,
    pub written_as: Option<Vec<u8>>,
    pub settled_names: Vec<SettledName>,
}

/// A pool an evaluation declares, a depth of none bounding nothing.
#[derive(Debug)]
pub struct SinkPool {
    pub name: Vec<u8>,
    pub depth: usize,
}

/// One recursive invocation, as the rule that holds it declared it.
#[derive(Debug)]
pub struct SubninjaInvocation {
    pub command: Vec<u8>,
    pub make: Vec<u8>,
    pub shell: Vec<u8>,
    pub shell_flags: Vec<u8>,
    pub preceding_rule: Option<usize>,
    pub preceding_script: Option<SettledSegment>,
    pub location: Option<Vec<u8>>,
}

/// A recursive rule, waiting for the edge that names it.
#[derive(Debug)]
pub struct SubninjaRule {
    pub invocations: Vec<SubninjaInvocation>,
    pub residual_rule: Option<usize>,
    pub residual_script: Option<SettledSegment>,
    pub diagnostic_command: Vec<u8>,
}

/// A recursive edge, held until its child is composed in its place.
#[derive(Debug)]
pub struct PendingSubninja {
    pub invocations: Vec<SubninjaInvocation>,
    pub scope: usize,
    pub residual_rule: Option<usize>,
    pub residual_script: Option<SettledSegment>,
    pub diagnostic_command: Vec<u8>,
    pub explicit_outputs: Vec<usize>,
    pub implicit_outputs: Vec<usize>,
    pub inputs: Vec<usize>,
    pub order_only_inputs: Vec<usize>,
    pub forgiven_order_inputs: Vec<usize>,
    pub always_dirty: bool,
    pub deferred: Option<Deferred>,
    pub completion_output: Option<usize>,
    pub intermediate: bool,
    pub disposable_outputs: Vec<usize>,
    pub low_resolution: bool,
    pub withdrawable: Vec<usize>,
    pub delete_on_error: bool,
    pub peer_outputs: Vec<usize>,
    pub bindings: Vec<(usize, Vec<u8>)>,
}

/// A recursive edge, as its model.
pub ghost struct Pending {
    pub invocations: Seq<SubninjaInvocation>,
    pub scope: usize,
    pub residual_rule: Option<usize>,
    pub residual_script: Option<SettledSegment>,
    pub diagnostic_command: Seq<u8>,
    pub explicit_outputs: Seq<usize>,
    pub implicit_outputs: Seq<usize>,
    pub inputs: Seq<usize>,
    pub order_only_inputs: Seq<usize>,
    pub forgiven_order_inputs: Seq<usize>,
    pub always_dirty: bool,
    pub deferred: Option<DeferredModel>,
    pub completion_output: Option<usize>,
    pub intermediate: bool,
    pub disposable_outputs: Seq<usize>,
    pub low_resolution: bool,
    pub withdrawable: Seq<usize>,
    pub delete_on_error: bool,
    pub peer_outputs: Seq<usize>,
    pub bindings: Seq<(usize, Seq<u8>)>,
}

impl Pending {
    /// Everything it makes.
    pub open spec fn outputs(self) -> Seq<usize> {
        self.explicit_outputs + self.implicit_outputs
    }

    /// Everything that has to be there before its child can be evaluated.
    pub open spec fn evaluation_inputs(self) -> Seq<usize> {
        self.inputs + self.order_only_inputs
    }

    /// Whether it names only what a graph has.
    pub open spec fn ok(self, nodes: nat, rules: nat) -> bool {
        &&& below(self.explicit_outputs, nodes)
        &&& below(self.implicit_outputs, nodes)
        &&& below(self.inputs, nodes)
        &&& below(self.order_only_inputs, nodes)
        &&& below(self.forgiven_order_inputs, nodes)
        &&& below(self.disposable_outputs, nodes)
        &&& below(self.withdrawable, nodes)
        &&& below(self.peer_outputs, nodes)
        &&& self.residual_rule matches Some(rule) ==> rule < rules
        &&& self.completion_output matches Some(node) ==> node < nodes
        &&& self.deferred matches Some(deferred) ==> deferred_ok(deferred, nodes)
        &&& invocations_ok(self.invocations, rules)
    }
}

/// Whether every invocation names only rules a graph has.
pub open spec fn invocations_ok(invocations: Seq<SubninjaInvocation>, rules: nat) -> bool {
    forall|i: int|
        0 <= i < invocations.len() ==> ((#[trigger] invocations[i]).preceding_rule matches Some(
            rule,
        ) ==> rule < rules)
}

impl PendingSubninja {
    /// The recursive edge as its model.
    pub open spec fn model(&self) -> Pending {
        Pending {
            invocations: self.invocations@,
            scope: self.scope,
            residual_rule: self.residual_rule,
            residual_script: self.residual_script,
            diagnostic_command: self.diagnostic_command@,
            explicit_outputs: self.explicit_outputs@,
            implicit_outputs: self.implicit_outputs@,
            inputs: self.inputs@,
            order_only_inputs: self.order_only_inputs@,
            forgiven_order_inputs: self.forgiven_order_inputs@,
            always_dirty: self.always_dirty,
            deferred: deferred_model(self.deferred),
            completion_output: self.completion_output,
            intermediate: self.intermediate,
            disposable_outputs: self.disposable_outputs@,
            low_resolution: self.low_resolution,
            withdrawable: self.withdrawable@,
            delete_on_error: self.delete_on_error,
            peer_outputs: self.peer_outputs@,
            bindings: edge_values(self.bindings@),
        }
    }

    /// Everything it makes.
    pub fn outputs(&self) -> (nodes: Vec<usize>)
        ensures
            nodes@ == self.model().outputs(),
    {
        let mut nodes: Vec<usize> = copied_ids(&self.explicit_outputs);
        let mut implicit: Vec<usize> = copied_ids(&self.implicit_outputs);
        nodes.append(&mut implicit);
        nodes
    }

    /// Everything that has to be there before its child can be evaluated.
    pub fn evaluation_inputs(&self) -> (nodes: Vec<usize>)
        ensures
            nodes@ == self.model().evaluation_inputs(),
    {
        let mut nodes: Vec<usize> = copied_ids(&self.inputs);
        let mut order_only: Vec<usize> = copied_ids(&self.order_only_inputs);
        nodes.append(&mut order_only);
        nodes
    }
}

/// The recursive edges of a list, as their models.
pub open spec fn pendings(list: Seq<PendingSubninja>) -> Seq<Pending> {
    Seq::new(list.len(), |i: int| list[i].model())
}

/// One recursive recipe as the job it blocks in.
#[derive(Debug)]
pub struct SerialJob {
    /// What finishing the job means.
    pub completion: Vec<usize>,
    pub edges: Vec<usize>,
}

/// The targets and complete edge closure contributed by one compiled unit.
#[derive(Debug)]
pub struct UnitSubgraph {
    pub targets: Vec<usize>,
    pub edges: Vec<usize>,
    /// The edges this compilation itself made.
    pub fresh_edges: Vec<usize>,
}

/// One child compilation a recursive recipe asked for, and whether this recipe
/// is the one that composed it.
#[derive(Debug)]
pub struct ChildGroup {
    pub subgraph: UnitSubgraph,
    pub fresh: bool,
}

/// What one unit left when it was read.
#[derive(Debug)]
pub struct UnitOutput {
    pub targets: Vec<usize>,
    pub subninjas: Vec<PendingSubninja>,
    pub edges: Vec<usize>,
    /// Whether its makefiles said not to run two of its recipes at once.
    pub serial: bool,
    /// The files it makes, by path, for the children it composes to see made
    /// around them.
    pub generated: Table<Vec<u8>, usize>,
}

/// The compilation unit being read.
#[derive(Debug)]
pub struct Unit {
    pub scope: usize,
    /// Where it is read from, as the graph's paths have it.
    pub path_prefix: Vec<u8>,
    /// Where its commands run.
    pub command_directory: Vec<u8>,
    pub root: bool,
    pub serial_pool: Option<Vec<u8>>,
    /// The pool holding its commands to its group's budget, and that budget.
    pub job_pool: Option<(Vec<u8>, usize)>,
    pub recipe_environment: Vec<EnvironmentChange>,
    pub unreadable: Option<String>,
    pub targets: Vec<usize>,
    pub subninjas: Vec<PendingSubninja>,
    pub edges: Vec<usize>,
    /// What the units enclosing this one make, by path.
    pub enclosing: Table<Vec<u8>, usize>,
    /// What this unit makes, by path.
    pub generated: Table<Vec<u8>, usize>,
}

/// The compilation unit being read, as its model.
pub ghost struct UnitModel {
    pub scope: usize,
    pub path_prefix: Seq<u8>,
    pub command_directory: Seq<u8>,
    pub root: bool,
    pub serial_pool: Option<Seq<u8>>,
    pub job_pool: Option<(Seq<u8>, usize)>,
    pub recipe_environment: Seq<EnvironmentChange>,
    pub unreadable: Option<String>,
    pub targets: Seq<usize>,
    pub subninjas: Seq<Pending>,
    pub edges: Seq<usize>,
    pub enclosing: Map<Seq<u8>, usize>,
    pub generated: Map<Seq<u8>, usize>,
}

/// A pool's name and its budget, as their model.
pub open spec fn pool_model(pool: Option<(Vec<u8>, usize)>) -> Option<(Seq<u8>, usize)> {
    match pool {
        Some(held) => Some((held.0@, held.1)),
        None => None,
    }
}

impl Unit {
    /// The unit as its model.
    pub open spec fn model(&self) -> UnitModel {
        UnitModel {
            scope: self.scope,
            path_prefix: self.path_prefix@,
            command_directory: self.command_directory@,
            root: self.root,
            serial_pool: maybe(self.serial_pool),
            job_pool: pool_model(self.job_pool),
            recipe_environment: self.recipe_environment@,
            unreadable: self.unreadable,
            targets: self.targets@,
            subninjas: pendings(self.subninjas@),
            edges: self.edges@,
            enclosing: self.enclosing@,
            generated: self.generated@,
        }
    }
}

/// A unit nothing has been declared in yet.
pub open spec fn fresh_unit(
    scope: usize,
    path_prefix: Seq<u8>,
    command_directory: Seq<u8>,
    root: bool,
    enclosing: Map<Seq<u8>, usize>,
) -> UnitModel {
    UnitModel {
        scope,
        path_prefix,
        command_directory,
        root,
        serial_pool: None,
        job_pool: None,
        recipe_environment: Seq::empty(),
        unreadable: None,
        targets: Seq::empty(),
        subninjas: Seq::empty(),
        edges: Seq::empty(),
        enclosing,
        generated: Map::empty(),
    }
}

/// What builds a graph from what a Makefile's evaluation declares.
#[derive(Debug)]
pub struct GraphSink {
    pub graph: BuildGraph,
    /// Where the executor runs, which response files are anchored at.
    pub root_directory: Vec<u8>,
    pub unit: Unit,
    pub bindings: Bindings,
    pub phony: usize,
    /// The rule a recursive edge has while its freshness is being decided.
    pub subninja_probe: usize,
    pub rules: Table<usize, usize>,
    pub deferred_rules: Table<usize, usize>,
    /// Edges whose command is asked for when they are about to run.
    pub deferred_edges: Vec<(usize, usize)>,
    pub settled_rules: Table<usize, SettledSteps>,
    pub settled_scripts: Table<usize, SettledScript>,
    /// Edges whose recipe was read early, with the launches it became.
    pub settled_edges: Vec<(usize, SettledSteps)>,
    pub subninja_rules: Table<usize, SubninjaRule>,
    pub interned: Table<Vec<u8>, usize>,
    /// The nodes held by an edge that says nothing but its target's name.
    pub mentions: Table<usize, usize>,
    pub observed_members: Table<Vec<u8>, usize>,
    pub declared_pools: Vec<Vec<u8>>,
    pub completion_proxies: usize,
    pub recipe_stages: usize,
    pub serial_units: usize,
    pub job_groups: usize,
    /// The first construction failure.
    pub failure: Option<FrontendError>,
    pub expansion: RecipeExpansion,
}

/// What builds a graph, as its model.
pub ghost struct SinkModel {
    pub graph: GraphModel,
    pub root_directory: Seq<u8>,
    pub unit: UnitModel,
    pub bindings: Bindings,
    pub phony: usize,
    pub subninja_probe: usize,
    pub rules: Map<usize, usize>,
    pub deferred_rules: Map<usize, usize>,
    pub deferred_edges: Seq<(usize, usize)>,
    pub subninja_rules: Map<usize, SubninjaRule>,
    pub interned: Map<Seq<u8>, usize>,
    pub mentions: Map<usize, usize>,
    pub observed_members: Map<Seq<u8>, usize>,
    pub declared_pools: Seq<Seq<u8>>,
    pub completion_proxies: usize,
    pub recipe_stages: usize,
    pub serial_units: usize,
    pub job_groups: usize,
    pub failure: Option<Refusal>,
    pub expansion: RecipeExpansion,
}

/// A failure that may not have come up, as its model.
pub open spec fn failure_model(failure: Option<FrontendError>) -> Option<Refusal> {
    match failure {
        Some(held) => Some(held.model()),
        None => None,
    }
}

/// The rule a recursive edge has while its freshness is being decided: it never
/// runs, and its command would fail.
pub open spec fn probe_bindings(bindings: Bindings) -> Seq<(usize, Seq<PieceModel>)> {
    seq![
        (bindings.command, seq![PieceModel::Literal(text("false"))]),
        (bindings.generator, seq![PieceModel::Literal(text("1"))]),
    ]
}

/// The graph a sink starts from.
pub open spec fn first_graph() -> GraphModel {
    let named = with_names(BuildGraph::empty_model(), binding_names(), 10);
    named.with_rule(
        0,
        text("__ronin_subninja_freshness_probe"),
        probe_bindings(Bindings::in_graph(BuildGraph::empty_model())),
    ).0
}

/// Whether every value of a map is one of the first `count`.
pub open spec fn values_below<K>(map: Map<K, usize>, count: nat) -> bool {
    forall|key: K| #[trigger] map.dom().contains(key) ==> map[key] < count
}

impl SinkModel {
    /// Whether everything the sink holds names only what its graph has.
    pub open spec fn wf(self) -> bool {
        let nodes = self.graph.nodes.len();
        &&& self.graph.wf()
        &&& values_below(self.interned, nodes)
        &&& values_below(self.observed_members, nodes)
        &&& values_below(self.unit.enclosing, nodes)
        &&& values_below(self.unit.generated, nodes)
        &&& values_below(self.rules, self.graph.rules.len())
        &&& values_below(self.mentions, self.graph.edges.len())
        &&& below(self.unit.targets, nodes)
        &&& below(self.unit.edges, self.graph.edges.len())
        &&& self.completion_proxies + self.recipe_stages <= nodes
        &&& forall|i: int|
            0 <= i < self.unit.subninjas.len() ==> (#[trigger] self.unit.subninjas[i]).ok(
                nodes,
                self.graph.rules.len(),
            )
        &&& forall|id: usize| #[trigger]
            self.subninja_rules.dom().contains(id) ==> subninja_rule_ok(
                self.subninja_rules[id],
                self.graph.rules.len(),
            )
    }

    /// With a failure kept, unless one was kept before.
    pub open spec fn refused(self, failure: Refusal) -> SinkModel {
        SinkModel {
            failure: if self.failure is Some {
                self.failure
            } else {
                Some(failure)
            },
            ..self
        }
    }

    /// The name of a file as the graph's paths have it.
    pub open spec fn qualified(self, name: Seq<u8>) -> Seq<u8> {
        joined_path(self.unit.path_prefix, name)
    }

    /// The node a name of this unit stands for.
    ///
    /// Every unit but the root has nodes of its own, except that a path an
    /// enclosing unit makes is that unit's file.
    pub open spec fn with_node(self, name: Seq<u8>) -> (SinkModel, Result<usize, Refusal>) {
        if self.interned.dom().contains(name) {
            (self, Ok(self.interned[name]))
        } else if self.qualified(name).len() == 0 {
            (self.refused(Refusal::EmptyPath), Err(Refusal::EmptyPath))
        } else {
            let (graph, made) = if self.unit.root {
                self.graph.with_node(self.qualified(name))
            } else {
                self.graph.with_isolated_node(self.qualified(name))
            };
            let path = graph.nodes[made as int].path;
            let node = if !self.unit.root && self.unit.enclosing.dom().contains(path) {
                self.unit.enclosing[path]
            } else {
                made
            };
            (SinkModel { graph, interned: self.interned.insert(name, node), ..self }, Ok(node))
        }
    }

    /// The nodes some names of this unit stand for, up to the first that stands
    /// for none.
    pub open spec fn with_nodes(self, names: Seq<Seq<u8>>) -> (
        SinkModel,
        Result<Seq<usize>, Refusal>,
    )
        decreases names.len(),
    {
        if names.len() == 0 {
            (self, Ok(Seq::empty()))
        } else {
            let before = self.with_nodes(names.drop_last());
            match before.1 {
                Err(refusal) => before,
                Ok(nodes) => {
                    let last = before.0.with_node(names.last());
                    match last.1 {
                        Ok(node) => (last.0, Ok(nodes.push(node))),
                        Err(refusal) => (last.0, Err(refusal)),
                    }
                },
            }
        }
    }
}

/// Whether a recursive rule names only rules a graph has.
pub open spec fn subninja_rule_ok(rule: SubninjaRule, rules: nat) -> bool {
    &&& rule.residual_rule matches Some(residual) ==> residual < rules
    &&& invocations_ok(rule.invocations@, rules)
}

impl GraphSink {
    /// The sink as its model.
    pub open spec fn model(&self) -> SinkModel {
        SinkModel {
            graph: self.graph.model(),
            root_directory: self.root_directory@,
            unit: self.unit.model(),
            bindings: self.bindings,
            phony: self.phony,
            subninja_probe: self.subninja_probe,
            rules: self.rules@,
            deferred_rules: self.deferred_rules@,
            deferred_edges: self.deferred_edges@,
            subninja_rules: self.subninja_rules@,
            interned: self.interned@,
            mentions: self.mentions@,
            observed_members: self.observed_members@,
            declared_pools: texts(self.declared_pools@),
            completion_proxies: self.completion_proxies,
            recipe_stages: self.recipe_stages,
            serial_units: self.serial_units,
            job_groups: self.job_groups,
            failure: failure_model(self.failure),
            expansion: self.expansion,
        }
    }

    /// Whether the sink's tables and the graph fit together.
    pub open spec fn wf(&self) -> bool {
        &&& self.model().wf()
        &&& self.rules.wf()
        &&& self.deferred_rules.wf()
        &&& self.settled_rules.wf()
        &&& self.settled_scripts.wf()
        &&& self.subninja_rules.wf()
        &&& self.interned.wf()
        &&& self.mentions.wf()
        &&& self.observed_members.wf()
        &&& self.unit.enclosing.wf()
        &&& self.unit.generated.wf()
        &&& self.phony == 0
        &&& self.subninja_probe < self.graph.model().rules.len()
    }

    /// Whether what was settled early is as it was before.
    pub open spec fn settled_as(&self, other: GraphSink) -> bool {
        &&& self.settled_rules@ == other.settled_rules@
        &&& self.settled_scripts@ == other.settled_scripts@
        &&& self.settled_edges@ == other.settled_edges@
    }

    /// A sink that has been told nothing.
    pub open spec fn first_model(root_directory: Seq<u8>, expansion: RecipeExpansion) -> SinkModel {
        SinkModel {
            graph: first_graph(),
            root_directory,
            unit: fresh_unit(0, Seq::empty(), Seq::empty(), true, Map::empty()),
            bindings: Bindings::in_graph(BuildGraph::empty_model()),
            phony: 0,
            subninja_probe: 1,
            rules: Map::empty(),
            deferred_rules: Map::empty(),
            deferred_edges: Seq::empty(),
            subninja_rules: Map::empty(),
            interned: Map::empty(),
            mentions: Map::empty(),
            observed_members: Map::empty(),
            declared_pools: Seq::empty(),
            completion_proxies: 0,
            recipe_stages: 0,
            serial_units: 0,
            job_groups: 0,
            failure: None,
            expansion,
        }
    }

    /// A sink over an empty graph.
    pub fn new() -> (sink: Self)
        ensures
            sink.wf(),
            sink.model() == GraphSink::first_model(Seq::empty(), RecipeExpansion::Construction),
            sink.settled_rules@ == Map::<usize, SettledSteps>::empty(),
            sink.settled_scripts@ == Map::<usize, SettledScript>::empty(),
            sink.settled_edges@.len() == 0,
    {
        let nowhere: Vec<u8> = Vec::new();
        assert(nowhere@ =~= Seq::empty());
        GraphSink::new_at(&nowhere, RecipeExpansion::Construction)
    }

    /// A sink whose response files are anchored at the executor's root, and
    /// whose recipes are expanded when `expansion` says.
    pub fn new_at(root_directory: &[u8], expansion: RecipeExpansion) -> (sink: Self)
        ensures
            sink.wf(),
            sink.model() == GraphSink::first_model(root_directory@, expansion),
            sink.settled_rules@ == Map::<usize, SettledSteps>::empty(),
            sink.settled_scripts@ == Map::<usize, SettledScript>::empty(),
            sink.settled_edges@.len() == 0,
    {
        let mut graph = BuildGraph::new();
        let bindings = Bindings::intern(&mut graph);
        let ghost named = graph.model();
        proof {
            names_keep_the_rest(BuildGraph::empty_model(), binding_names(), 10);
        }
        let mut probe: Vec<(usize, Template)> = Vec::new();
        probe.push((bindings.command, Template::literal("false".as_bytes())));
        probe.push((bindings.generator, Template::literal("1".as_bytes())));
        assert(rule_bindings(probe@) =~= probe_bindings(bindings));
        proof {
            reveal_strlit("phony");
            reveal_strlit("__ronin_subninja_freshness_probe");
            assert(text("phony").len() == 5) by {
                is_ascii_spec_bytes("phony");
            }
            assert(text("__ronin_subninja_freshness_probe").len() == 32) by {
                is_ascii_spec_bytes("__ronin_subninja_freshness_probe");
            }
            reveal_with_fuel(rule_at, 2);
        }
        let subninja_probe: usize = match graph.define_rule(
            0,
            "__ronin_subninja_freshness_probe".as_bytes(),
            probe,
        ) {
            Ok(rule) => rule,
            Err(_) => {
                assert(false);
                0
            },
        };
        let sink = GraphSink {
            graph,
            root_directory: copied(root_directory),
            unit: Unit {
                scope: 0,
                path_prefix: Vec::new(),
                command_directory: Vec::new(),
                root: true,
                serial_pool: None,
                job_pool: None,
                recipe_environment: Vec::new(),
                unreadable: None,
                targets: Vec::new(),
                subninjas: Vec::new(),
                edges: Vec::new(),
                enclosing: Table::new(),
                generated: Table::new(),
            },
            bindings,
            phony: 0,
            subninja_probe,
            rules: Table::new(),
            deferred_rules: Table::new(),
            deferred_edges: Vec::new(),
            settled_rules: Table::new(),
            settled_scripts: Table::new(),
            settled_edges: Vec::new(),
            subninja_rules: Table::new(),
            interned: Table::new(),
            mentions: Table::new(),
            observed_members: Table::new(),
            declared_pools: Vec::new(),
            completion_proxies: 0,
            recipe_stages: 0,
            serial_units: 0,
            job_groups: 0,
            failure: None,
            expansion,
        };
        proof {
            let first = GraphSink::first_model(root_directory@, expansion);
            assert(sink.model().unit.path_prefix =~= first.unit.path_prefix);
            assert(sink.model().unit.recipe_environment =~= first.unit.recipe_environment);
            assert(sink.model().unit.command_directory =~= first.unit.command_directory);
            assert(sink.model().unit.targets =~= first.unit.targets);
            assert(sink.model().unit.subninjas =~= first.unit.subninjas);
            assert(sink.model().unit.edges =~= first.unit.edges);
            assert(sink.model().deferred_edges =~= first.deferred_edges);
            assert(sink.model().declared_pools =~= first.declared_pools);
            assert(sink.model().graph == first_graph());
        }
        sink
    }
}

proof fn names_keep_the_rest(graph: GraphModel, names: Seq<Seq<u8>>, count: int)
    ensures
        ({
            let after = with_names(graph, names, count);
            &&& after.nodes == graph.nodes
            &&& after.edges == graph.edges
            &&& after.rules == graph.rules
            &&& after.pools == graph.pools
            &&& after.scopes == graph.scopes
            &&& after.defaults == graph.defaults
        }),
    decreases count,
{
    if count > 0 {
        names_keep_the_rest(graph, names, count - 1);
    }
}

} // verus!
