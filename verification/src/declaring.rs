//! What one declaration of an evaluation does to the graph.

use crate::artifact::{CommandLayout, SettledSteps};
use crate::bytes::{append, copied, copied_maybe, decimal, decimal_of, literal, maybe, text, texts};
use crate::error::message;
use crate::graph::{
    below, id_model, rule_bindings, FrontendError, GraphModel, PieceModel, Refusal, Template,
};
use crate::layout::{
    changes_of, copied_changes, line_by_line, settles, SettledScript, SettledSegment, SpelledStep,
};
use crate::paths::join_path;
use crate::sink::{
    failure_model, invocations_ok, subninja_rule_ok, values_below, GraphSink, SinkCommand,
    SinkModel, SinkRule, SinkSubninja, SubninjaInvocation, SubninjaRule,
};
use crate::table::Key;
use vstd::prelude::*;
use vstd::string::*;

verus! {

/// A list of nodes, or why it could not be made, as its model.
pub open spec fn list_model(result: Result<Vec<usize>, FrontendError>) -> Result<
    Seq<usize>,
    Refusal,
> {
    match result {
        Ok(nodes) => Ok(nodes@),
        Err(why) => Err(why.model()),
    }
}

/// A sink whose graph only gained nodes still fits together.
proof fn more_nodes_still_fit(before: SinkModel, after: SinkModel)
    requires
        before.wf(),
        after.graph.wf(),
        before.graph.nodes.len() <= after.graph.nodes.len(),
        before.graph.edges.len() == after.graph.edges.len(),
        before.graph.rules.len() == after.graph.rules.len(),
        after.unit == before.unit,
        after.rules == before.rules,
        after.mentions == before.mentions,
        after.subninja_rules == before.subninja_rules,
        after.completion_proxies == before.completion_proxies,
        after.recipe_stages == before.recipe_stages,
        values_below(after.interned, after.graph.nodes.len()),
        values_below(after.observed_members, after.graph.nodes.len()),
    ensures
        after.wf(),
{
    assert forall|i: int| 0 <= i < after.unit.subninjas.len() implies (
    #[trigger] after.unit.subninjas[i]).ok(after.graph.nodes.len(), after.graph.rules.len()) by {
        assert(before.unit.subninjas[i].ok(before.graph.nodes.len(), before.graph.rules.len()));
    }
}

impl SinkModel {
    /// The node a name of this unit observes: the file itself, where the unit
    /// sequences it behind a stand-in.
    pub open spec fn with_observed(self, name: Seq<u8>) -> (SinkModel, Result<usize, Refusal>) {
        if self.observed_members.dom().contains(name) {
            (self, Ok(self.observed_members[name]))
        } else {
            self.with_node(name)
        }
    }

    /// The nodes some names of this unit observe, up to the first that stands
    /// for none.
    pub open spec fn with_observed_nodes(self, names: Seq<Seq<u8>>) -> (
        SinkModel,
        Result<Seq<usize>, Refusal>,
    )
        decreases names.len(),
    {
        if names.len() == 0 {
            (self, Ok(Seq::empty()))
        } else {
            let before = self.with_observed_nodes(names.drop_last());
            match before.1 {
                Err(refusal) => before,
                Ok(nodes) => {
                    let last = before.0.with_observed(names.last());
                    match last.1 {
                        Ok(node) => (last.0, Ok(nodes.push(node))),
                        Err(refusal) => (last.0, Err(refusal)),
                    }
                },
            }
        }
    }
}

/// What fails for one name of a list fails the list.
proof fn nodes_fail_from(sink: SinkModel, names: Seq<Seq<u8>>, few: int, many: int)
    requires
        0 <= few <= many <= names.len(),
        sink.with_nodes(names.take(few)).1 is Err,
    ensures
        sink.with_nodes(names.take(many)) == sink.with_nodes(names.take(few)),
    decreases many - few,
{
    if few < many {
        nodes_fail_from(sink, names, few, many - 1);
        assert(names.take(many).drop_last() =~= names.take(many - 1));
    }
}

/// What fails for one observed name of a list fails the list.
proof fn observed_fail_from(sink: SinkModel, names: Seq<Seq<u8>>, few: int, many: int)
    requires
        0 <= few <= many <= names.len(),
        sink.with_observed_nodes(names.take(few)).1 is Err,
    ensures
        sink.with_observed_nodes(names.take(many)) == sink.with_observed_nodes(names.take(few)),
    decreases many - few,
{
    if few < many {
        observed_fail_from(sink, names, few, many - 1);
        assert(names.take(many).drop_last() =~= names.take(many - 1));
    }
}

impl GraphSink {
    /// Keep a construction failure, unless one was kept before.
    pub fn refuse(&mut self, failure: &FrontendError)
        requires
            old(self).wf(),
        ensures
            final(self).wf(),
            final(self).settled_as(*old(self)),
            final(self).model() == old(self).model().refused(failure.model()),
    {
        if self.failure.is_none() {
            self.failure = Some(failure.copy());
        }
    }

    /// The first construction failure, where there was one.
    pub fn construction_failure(&self) -> (failure: Option<FrontendError>)
        ensures
            failure_model(failure) == self.model().failure,
    {
        match &self.failure {
            Some(held) => Some(held.copy()),
            None => None,
        }
    }

    /// The node a name of this unit stands for, made known on first sight.
    pub fn node(&mut self, name: &[u8]) -> (node: Result<usize, FrontendError>)
        requires
            old(self).wf(),
        ensures
            final(self).wf(),
            final(self).settled_as(*old(self)),
            (final(self).model(), id_model(node)) == old(self).model().with_node(name@),
            node matches Ok(place) ==> place < final(self).model().graph.nodes.len(),
            old(self).model().graph.nodes.len() <= final(self).model().graph.nodes.len(),
    {
        let ghost before = self.model();
        let key: Vec<u8> = copied(name);
        if let Some(held) = self.interned.get(&key) {
            return Ok(*held);
        }
        let path: Vec<u8> = join_path(&self.unit.path_prefix, name);
        let found: Result<usize, FrontendError> = if self.unit.root {
            self.graph.node(&path)
        } else {
            self.graph.isolated_node(&path)
        };
        let made: usize = match found {
            Ok(made) => made,
            Err(why) => {
                proof {
                    more_nodes_still_fit(before, self.model());
                }
                self.refuse(&why);
                return Err(why);
            },
        };
        let mut node: usize = made;
        if !self.unit.root {
            let canonical_path: Vec<u8> = copied(self.graph.path(made));
            if let Some(held) = self.unit.enclosing.get(&canonical_path) {
                node = *held;
            }
        }
        self.interned.add_new(key, node);
        proof {
            more_nodes_still_fit(before, self.model());
        }
        Ok(node)
    }

    /// The nodes some names of this unit stand for.
    pub fn node_list(&mut self, names: &[Vec<u8>]) -> (nodes: Result<Vec<usize>, FrontendError>)
        requires
            old(self).wf(),
        ensures
            final(self).wf(),
            final(self).settled_as(*old(self)),
            (final(self).model(), list_model(nodes)) == old(self).model().with_nodes(texts(names@)),
            nodes matches Ok(list) ==> below(list@, final(self).model().graph.nodes.len())
                && list@.len() == names@.len(),
            old(self).model().graph.nodes.len() <= final(self).model().graph.nodes.len(),
    {
        let ghost all = texts(names@);
        let ghost began = self.model();
        let mut nodes: Vec<usize> = Vec::new();
        let mut at: usize = 0;
        assert(all.take(0) =~= Seq::empty());
        assert(nodes@ =~= Seq::empty());
        while at < names.len()
            invariant
                at <= names@.len(),
                all == texts(names@),
                began == old(self).model(),
                self.wf(),
                self.settled_as(*old(self)),
                nodes@.len() == at,
                (self.model(), Ok::<Seq<usize>, Refusal>(nodes@)) == began.with_nodes(
                    all.take(at as int),
                ),
                below(nodes@, self.model().graph.nodes.len()),
                began.graph.nodes.len() <= self.model().graph.nodes.len(),
            decreases names@.len() - at,
        {
            let ghost next = all.take(at as int + 1);
            assert(next.drop_last() =~= all.take(at as int));
            assert(next.last() == names@[at as int]@);
            match self.node(&names[at]) {
                Ok(node) => {
                    nodes.push(node);
                },
                Err(why) => {
                    proof {
                        nodes_fail_from(began, all, at as int + 1, all.len() as int);
                        assert(all.take(all.len() as int) =~= all);
                    }
                    return Err(why);
                },
            }
            at += 1;
        }
        assert(all.take(at as int) =~= all);
        Ok(nodes)
    }

    /// The nodes of some names, for a caller outside the sink.
    pub fn unit_nodes(&mut self, names: &[Vec<u8>]) -> (nodes: Result<Vec<usize>, FrontendError>)
        requires
            old(self).wf(),
        ensures
            final(self).wf(),
            final(self).settled_as(*old(self)),
            (final(self).model(), list_model(nodes)) == old(self).model().with_nodes(texts(names@)),
    {
        self.node_list(names)
    }

    /// The node a name of this unit observes.
    pub fn observed_node(&mut self, name: &[u8]) -> (node: Result<usize, FrontendError>)
        requires
            old(self).wf(),
        ensures
            final(self).wf(),
            final(self).settled_as(*old(self)),
            (final(self).model(), id_model(node)) == old(self).model().with_observed(name@),
            node matches Ok(place) ==> place < final(self).model().graph.nodes.len(),
            old(self).model().graph.nodes.len() <= final(self).model().graph.nodes.len(),
    {
        let key: Vec<u8> = copied(name);
        if let Some(held) = self.observed_members.get(&key) {
            return Ok(*held);
        }
        self.node(name)
    }

    /// The nodes some names of this unit observe.
    pub(crate) fn observed_list(&mut self, names: &[Vec<u8>]) -> (nodes: Result<Vec<usize>, FrontendError>)
        requires
            old(self).wf(),
        ensures
            final(self).wf(),
            final(self).settled_as(*old(self)),
            (final(self).model(), list_model(nodes)) == old(self).model().with_observed_nodes(
                texts(names@),
            ),
            nodes matches Ok(list) ==> below(list@, final(self).model().graph.nodes.len())
                && list@.len() == names@.len(),
            old(self).model().graph.nodes.len() <= final(self).model().graph.nodes.len(),
    {
        let ghost all = texts(names@);
        let ghost began = self.model();
        let mut nodes: Vec<usize> = Vec::new();
        let mut at: usize = 0;
        assert(all.take(0) =~= Seq::empty());
        assert(nodes@ =~= Seq::empty());
        while at < names.len()
            invariant
                at <= names@.len(),
                all == texts(names@),
                began == old(self).model(),
                self.wf(),
                self.settled_as(*old(self)),
                nodes@.len() == at,
                (self.model(), Ok::<Seq<usize>, Refusal>(nodes@)) == began.with_observed_nodes(
                    all.take(at as int),
                ),
                below(nodes@, self.model().graph.nodes.len()),
                began.graph.nodes.len() <= self.model().graph.nodes.len(),
            decreases names@.len() - at,
        {
            let ghost next = all.take(at as int + 1);
            assert(next.drop_last() =~= all.take(at as int));
            assert(next.last() == names@[at as int]@);
            match self.observed_node(&names[at]) {
                Ok(node) => {
                    nodes.push(node);
                },
                Err(why) => {
                    proof {
                        observed_fail_from(began, all, at as int + 1, all.len() as int);
                        assert(all.take(all.len() as int) =~= all);
                    }
                    return Err(why);
                },
            }
            at += 1;
        }
        assert(all.take(at as int) =~= all);
        Ok(nodes)
    }
}

/// The name a rule is defined under.
pub open spec fn rule_name(id: usize) -> Seq<u8> {
    text("rule") + decimal(id as nat)
}

/// The name the lines behind a rule's last recursive invocation are defined
/// under.
pub open spec fn residual_name(id: usize) -> Seq<u8> {
    rule_name(id) + text("_residual")
}

/// The name the lines before one of a rule's recursive invocations are defined
/// under.
pub open spec fn preceding_name(id: usize, index: int) -> Seq<u8> {
    rule_name(id) + text("_preceding") + decimal(index as nat)
}

/// A binding to a text.
pub open spec fn literally(binding: usize, value: Seq<u8>) -> (usize, Seq<PieceModel>) {
    (binding, seq![PieceModel::Literal(value)])
}

impl SinkModel {
    /// The directory response files are anchored at, where one is needed.
    pub open spec fn anchor(self) -> Seq<PieceModel> {
        if !self.unit.root && self.root_directory.len() > 0 {
            seq![PieceModel::Literal(self.root_directory), PieceModel::Literal(text("/"))]
        } else {
            Seq::empty()
        }
    }

    /// What puts a command of this unit where Make would have run it.
    pub open spec fn prefix(self, environment: Seq<u8>) -> Seq<u8> {
        (if self.unit.command_directory.len() > 0 {
            text("cd ") + crate::layout::shell_word(self.unit.command_directory) + text(" && ")
        } else {
            Seq::empty()
        }) + text("exec ") + environment
    }

    /// What a rule binds to run a script: the command line, and where the shell
    /// reads the script out of a file, that file and what it holds.
    pub open spec fn command_bindings(self, rule: SinkRule, command: SinkCommand) -> Seq<
        (usize, Seq<PieceModel>),
    > {
        let shell = seq![
            PieceModel::Literal(self.prefix(rule.environment@)),
            PieceModel::Literal(rule.shell_name@),
            PieceModel::Literal(text(" ")),
        ];
        let file = self.anchor() + seq![PieceModel::Out, PieceModel::Literal(text(".rsp"))];
        if command.response_file {
            let flags = if rule.file_flags@.len() > 0 {
                seq![PieceModel::Literal(rule.file_flags@), PieceModel::Literal(text(" "))]
            } else {
                Seq::empty()
            };
            seq![
                (self.bindings.command, shell + flags + file),
                (self.bindings.rspfile, file),
                literally(self.bindings.rspfile_content, command.script@),
            ]
        } else {
            seq![
                (
                    self.bindings.command,
                    shell + seq![
                        PieceModel::Literal(rule.shell_flags@),
                        PieceModel::Literal(text(" \"")),
                        PieceModel::Literal(command.escaped@),
                        PieceModel::Literal(text("\"")),
                    ],
                ),
            ]
        }
    }

    /// What a rule binds to run some lines of a recipe.
    pub open spec fn lines_bindings(
        self,
        rule: SinkRule,
        command: SinkCommand,
        ignore_errors: bool,
    ) -> Seq<(usize, Seq<PieceModel>)> {
        self.command_bindings(rule, command) + (match maybe(rule.description) {
            Some(description) => seq![literally(self.bindings.description, description)],
            None => Seq::empty(),
        }) + seq![literally(self.bindings.generator, text("1"))] + (if ignore_errors {
            seq![literally(self.bindings.ignore_errors, text("1"))]
        } else {
            Seq::empty()
        })
    }

    /// What a rule binds to run a recipe, the file it leaves its dependencies
    /// in among it.
    pub open spec fn executor_bindings(
        self,
        rule: SinkRule,
        command: SinkCommand,
        ignore_errors: bool,
    ) -> Seq<(usize, Seq<PieceModel>)> {
        self.command_bindings(rule, command) + (match maybe(rule.description) {
            Some(description) => seq![literally(self.bindings.description, description)],
            None => Seq::empty(),
        }) + seq![literally(self.bindings.generator, text("1"))] + (match maybe(rule.depfile) {
            Some(depfile) => seq![
                literally(self.bindings.depfile, self.qualified(depfile)),
                literally(self.bindings.deps, text("gcc")),
            ],
            None => Seq::empty(),
        }) + (if ignore_errors {
            seq![literally(self.bindings.ignore_errors, text("1"))]
        } else {
            Seq::empty()
        })
    }

    /// What a rule whose recipe is not expanded yet binds.
    pub open spec fn deferred_bindings(self) -> Seq<(usize, Seq<PieceModel>)> {
        seq![
            literally(self.bindings.command, text("false")),
            literally(self.bindings.generator, text("1")),
        ]
    }

    /// With a rule defined in this unit's scope, or the failure of it kept.
    pub open spec fn with_defined(
        self,
        name: Seq<u8>,
        bindings: Seq<(usize, Seq<PieceModel>)>,
    ) -> (SinkModel, Result<usize, Refusal>) {
        let (graph, defined) = self.graph.with_rule(self.unit.scope, name, bindings);
        let after = SinkModel { graph, ..self };
        match defined {
            Ok(rule) => (after, Ok(rule)),
            Err(refusal) => (after.refused(refusal), Err(refusal)),
        }
    }

    /// With the lines before the first `count` recursive invocations of a rule
    /// defined, up to the first that cannot be.
    pub open spec fn with_preceding(self, rule: SinkRule, count: int) -> (
        SinkModel,
        Result<Seq<Option<usize>>, Refusal>,
    )
        decreases count,
    {
        if count <= 0 {
            (self, Ok(Seq::empty()))
        } else {
            let before = self.with_preceding(rule, count - 1);
            let subninja = rule.subninjas@[count - 1];
            match before.1 {
                Err(refusal) => before,
                Ok(rules) => match subninja.preceding {
                    None => (before.0, Ok(rules.push(None))),
                    Some(command) => {
                        let (after, defined) = before.0.with_defined(
                            preceding_name(rule.id, count - 1),
                            before.0.lines_bindings(
                                rule,
                                command,
                                subninja.preceding_ignore_errors,
                            ),
                        );
                        match defined {
                            Ok(place) => (after, Ok(rules.push(Some(place)))),
                            Err(refusal) => (after, Err(refusal)),
                        }
                    },
                },
            }
        }
    }

    /// With the lines behind a rule's last recursive invocation defined, where
    /// there are any.
    pub open spec fn with_residual(self, rule: SinkRule) -> (
        SinkModel,
        Result<Option<usize>, Refusal>,
    ) {
        match rule.residual_command {
            None => (self, Ok(None)),
            Some(command) => {
                let (after, defined) = self.with_defined(
                    residual_name(rule.id),
                    self.executor_bindings(rule, command, rule.residual_ignore_errors),
                );
                match defined {
                    Ok(place) => (after, Ok(Some(place))),
                    Err(refusal) => (after, Err(refusal)),
                }
            },
        }
    }

    /// With an ordinary rule defined, and its recipe left where the edge that
    /// names it finds it.
    pub open spec fn with_executor_rule(self, rule: SinkRule) -> (SinkModel, Option<Refusal>) {
        let (after, defined) = self.with_defined(
            rule_name(rule.id),
            if rule.deferred_recipe is Some {
                self.deferred_bindings()
            } else {
                self.executor_bindings(rule, rule.command, rule.ignore_errors)
            },
        );
        match defined {
            Err(refusal) => (after, Some(refusal)),
            Ok(place) => (
                SinkModel {
                    rules: after.rules.insert(rule.id, place),
                    deferred_rules: match rule.deferred_recipe {
                        Some(recipe) => after.deferred_rules.insert(rule.id, recipe),
                        None => after.deferred_rules,
                    },
                    ..after
                },
                None,
            ),
        }
    }
}

/// A result with nothing in it, as its model.
pub open spec fn done_model(result: Result<(), FrontendError>) -> Option<Refusal> {
    match result {
        Ok(_) => None,
        Err(why) => Some(why.model()),
    }
}

/// A template of two pieces more.
fn push_anchor(template: &mut Template, sink: &GraphSink)
    ensures
        final(template).model() == old(template).model() + sink.model().anchor(),
{
    let ghost before = template.model();
    if !sink.unit.root && sink.root_directory.len() > 0 {
        template.push_literal(&sink.root_directory);
        template.push_literal("/".as_bytes());
    }
    assert(template.model() =~= before + sink.model().anchor());
}

/// Add a binding to a text.
fn push_literally(bindings: &mut Vec<(usize, Template)>, binding: usize, value: &[u8])
    ensures
        rule_bindings(final(bindings)@) == rule_bindings(old(bindings)@).push(
            literally(binding, value@),
        ),
{
    let ghost before = rule_bindings(bindings@);
    bindings.push((binding, Template::literal(value)));
    assert(rule_bindings(bindings@) =~= before.push(literally(binding, value@)));
}

impl GraphSink {
    /// Whether a layout is the one this unit wraps its recipes in.
    pub open spec fn layout_is(&self, layout: CommandLayout) -> bool {
        &&& layout.command_directory@ == self.unit.command_directory@
        &&& changes_of(layout.recipe_environment@) == changes_of(self.unit.recipe_environment@)
        &&& crate::artifact::models(layout.recipe_environment@) == crate::artifact::models(
            self.unit.recipe_environment@,
        )
        &&& layout.root_directory@ == self.root_directory@
        &&& layout.root == self.unit.root
        &&& crate::artifact::model_of(layout.unreadable) == crate::artifact::model_of(
            self.unit.unreadable,
        )
    }

    /// What this unit wraps its recipes in.
    pub fn layout(&self) -> (layout: CommandLayout)
        ensures
            self.layout_is(layout),
    {
        CommandLayout {
            command_directory: copied(&self.unit.command_directory),
            recipe_environment: copied_changes(&self.unit.recipe_environment),
            root_directory: copied(&self.root_directory),
            root: self.unit.root,
            unreadable: match &self.unit.unreadable {
                Some(why) => Some(why.clone()),
                None => None,
            },
        }
    }

    /// The name of a file as the graph's paths have it.
    pub fn qualify_path(&self, name: &[u8]) -> (path: Vec<u8>)
        ensures
            path@ == self.model().qualified(name@),
    {
        join_path(&self.unit.path_prefix, name)
    }

    /// What a rule binds to run a script.
    pub fn command_bindings(&self, rule: &SinkRule, command: &SinkCommand) -> (bindings: Vec<
        (usize, Template),
    >)
        ensures
            rule_bindings(bindings@) == self.model().command_bindings(*rule, *command),
    {
        let ghost wanted = self.model().command_bindings(*rule, *command);
        let mut bindings: Vec<(usize, Template)> = Vec::new();
        let prefix: Vec<u8> = self.layout().prefix(&rule.environment);
        let mut line: Template = Template::new();
        line.push_literal(&prefix);
        line.push_literal(&rule.shell_name);
        line.push_literal(" ".as_bytes());
        if !command.response_file {
            line.push_literal(&rule.shell_flags);
            line.push_literal(" \"".as_bytes());
            line.push_literal(&command.escaped);
            line.push_literal("\"".as_bytes());
            assert(line.model() =~= wanted[0].1);
            bindings.push((self.bindings.command, line));
            assert(rule_bindings(bindings@) =~= wanted);
            return bindings;
        }
        let mut file: Template = Template::new();
        push_anchor(&mut file, self);
        file.push_out();
        file.push_literal(".rsp".as_bytes());
        assert(file.model() =~= wanted[1].1);
        if rule.file_flags.len() > 0 {
            line.push_literal(&rule.file_flags);
            line.push_literal(" ".as_bytes());
        }
        push_anchor(&mut line, self);
        line.push_out();
        line.push_literal(".rsp".as_bytes());
        assert(line.model() =~= wanted[0].1);
        bindings.push((self.bindings.command, line));
        bindings.push((self.bindings.rspfile, file));
        bindings.push((self.bindings.rspfile_content, Template::literal(&command.script)));
        assert(rule_bindings(bindings@) =~= wanted);
        bindings
    }

    /// What a rule binds to run some lines of a recipe.
    pub fn recipe_lines_bindings(
        &self,
        rule: &SinkRule,
        command: &SinkCommand,
        ignore_errors: bool,
    ) -> (bindings: Vec<(usize, Template)>)
        ensures
            rule_bindings(bindings@) == self.model().lines_bindings(*rule, *command, ignore_errors),
    {
        let mut bindings: Vec<(usize, Template)> = self.command_bindings(rule, command);
        if let Some(description) = &rule.description {
            push_literally(&mut bindings, self.bindings.description, description);
        }
        push_literally(&mut bindings, self.bindings.generator, "1".as_bytes());
        if ignore_errors {
            push_literally(&mut bindings, self.bindings.ignore_errors, "1".as_bytes());
        }
        assert(rule_bindings(bindings@) =~= self.model().lines_bindings(
            *rule,
            *command,
            ignore_errors,
        ));
        bindings
    }

    /// What a rule binds to run a recipe.
    pub fn executor_rule_bindings(
        &self,
        rule: &SinkRule,
        command: &SinkCommand,
        ignore_errors: bool,
    ) -> (bindings: Vec<(usize, Template)>)
        ensures
            rule_bindings(bindings@) == self.model().executor_bindings(
                *rule,
                *command,
                ignore_errors,
            ),
    {
        let mut bindings: Vec<(usize, Template)> = self.command_bindings(rule, command);
        if let Some(description) = &rule.description {
            push_literally(&mut bindings, self.bindings.description, description);
        }
        push_literally(&mut bindings, self.bindings.generator, "1".as_bytes());
        if let Some(depfile) = &rule.depfile {
            push_literally(&mut bindings, self.bindings.depfile, &self.qualify_path(depfile));
            push_literally(&mut bindings, self.bindings.deps, "gcc".as_bytes());
        }
        if ignore_errors {
            push_literally(&mut bindings, self.bindings.ignore_errors, "1".as_bytes());
        }
        assert(rule_bindings(bindings@) =~= self.model().executor_bindings(
            *rule,
            *command,
            ignore_errors,
        ));
        bindings
    }

    /// What a rule whose recipe is not expanded yet binds.
    pub fn deferred_rule_bindings(&self) -> (bindings: Vec<(usize, Template)>)
        ensures
            rule_bindings(bindings@) == self.model().deferred_bindings(),
    {
        let mut bindings: Vec<(usize, Template)> = Vec::new();
        assert(rule_bindings(bindings@) =~= Seq::empty());
        push_literally(&mut bindings, self.bindings.command, "false".as_bytes());
        push_literally(&mut bindings, self.bindings.generator, "1".as_bytes());
        assert(rule_bindings(bindings@) =~= self.model().deferred_bindings());
        bindings
    }

    /// Define a rule in this unit's scope.
    pub fn define_executor_rule(&mut self, name: &[u8], bindings: Vec<(usize, Template)>) -> (rule:
        Result<usize, FrontendError>)
        requires
            old(self).wf(),
        ensures
            final(self).wf(),
            final(self).settled_as(*old(self)),
            (final(self).model(), id_model(rule)) == old(self).model().with_defined(
                name@,
                rule_bindings(bindings@),
            ),
            rule matches Ok(place) ==> place < final(self).model().graph.rules.len(),
            old(self).model().graph.rules.len() <= final(self).model().graph.rules.len(),
    {
        let ghost before = self.model();
        match self.graph.define_rule(self.unit.scope, name, bindings) {
            Ok(rule) => {
                proof {
                    more_rules_still_fit(before, self.model());
                }
                Ok(rule)
            },
            Err(why) => {
                proof {
                    more_rules_still_fit(before, self.model());
                }
                self.refuse(&why);
                Err(why)
            },
        }
    }

    /// Whether a script is one rule's, held until there is an edge to launch it
    /// for.
    pub open spec fn script_is(
        &self,
        script: SettledScript,
        rule: SinkRule,
        command: SinkCommand,
        ignore_errors: bool,
    ) -> bool {
        &&& self.layout_is(script.layout)
        &&& script.shell@ == rule.shell@
        &&& script.shell_flags@ == rule.shell_flags@
        &&& script.file_flags@ == rule.file_flags@
        &&& maybe(script.script) == (if command.response_file {
            None
        } else {
            Some(command.script@)
        })
        &&& changes_of(script.scoped@) == changes_of(rule.recipe_environment@)
        &&& script.ignore_errors == ignore_errors
    }

    /// One rule's assembled script, held until there is an edge to launch it
    /// for.
    pub fn held_script(
        &self,
        rule: &SinkRule,
        command: &SinkCommand,
        ignore_errors: bool,
    ) -> (script: SettledScript)
        ensures
            self.script_is(script, *rule, *command, ignore_errors),
            script.layout.command_directory@ == self.unit.command_directory@,
            script.layout.root_directory@ == self.root_directory@,
            script.layout.root == self.unit.root,
            changes_of(script.layout.recipe_environment@) == changes_of(
                self.unit.recipe_environment@,
            ),
            script.shell@ == rule.shell@,
            script.shell_flags@ == rule.shell_flags@,
            script.file_flags@ == rule.file_flags@,
            command.response_file <==> script.script is None,
            script.script matches Some(held) ==> held@ == command.script@,
            changes_of(script.scoped@) == changes_of(rule.recipe_environment@),
            script.ignore_errors == ignore_errors,
    {
        SettledScript {
            layout: self.layout(),
            shell: copied(&rule.shell),
            shell_flags: copied(&rule.shell_flags),
            file_flags: copied(&rule.file_flags),
            script: if command.response_file {
                None
            } else {
                Some(copied(&command.script))
            },
            scoped: copied_changes(&rule.recipe_environment),
            ignore_errors,
        }
    }

    /// Whether launches are what a rule's lines become in this unit.
    pub open spec fn steps_are(
        &self,
        settled: SettledSteps,
        rule: SinkRule,
        steps: Seq<SpelledStep>,
    ) -> bool {
        exists|layout: CommandLayout| #[trigger]
            self.layout_is(layout) && settles(settled, layout, steps, rule.recipe_environment@)
    }

    /// Whether a segment is what one stretch of a rule's recipe is launched as:
    /// its lines where each can be launched on its own, and otherwise its whole
    /// script.
    pub open spec fn segment_is(
        &self,
        segment: SettledSegment,
        rule: SinkRule,
        command: SinkCommand,
        steps: Seq<SpelledStep>,
        ignore_errors: bool,
    ) -> bool {
        match segment {
            SettledSegment::Steps(settled) => line_by_line(steps) && self.steps_are(
                settled,
                rule,
                steps,
            ),
            SettledSegment::Script(script) => !line_by_line(steps) && self.script_is(
                script,
                rule,
                command,
                ignore_errors,
            ),
        }
    }

    /// What one stretch of a rule's recipe is launched as.
    pub fn held_segment(
        &self,
        rule: &SinkRule,
        command: &SinkCommand,
        steps: &[SpelledStep],
        ignore_errors: bool,
    ) -> (segment: SettledSegment)
        ensures
            self.segment_is(segment, *rule, *command, steps@, ignore_errors),
    {
        if CommandLayout::launches_by_line(steps) {
            let layout: CommandLayout = self.layout();
            let settled: SettledSteps = layout.settled_steps(steps, &rule.recipe_environment);
            assert(self.layout_is(layout));
            return SettledSegment::Steps(settled);
        }
        SettledSegment::Script(self.held_script(rule, command, ignore_errors))
    }
}

/// A sink whose graph only gained rules still fits together.
proof fn more_rules_still_fit(before: SinkModel, after: SinkModel)
    requires
        before.wf(),
        after.graph.wf(),
        after.graph.nodes == before.graph.nodes,
        after.graph.edges == before.graph.edges,
        before.graph.rules.len() <= after.graph.rules.len(),
        after == (SinkModel { graph: after.graph, ..before }),
    ensures
        after.wf(),
{
    assert forall|i: int| 0 <= i < after.unit.subninjas.len() implies (
    #[trigger] after.unit.subninjas[i]).ok(after.graph.nodes.len(), after.graph.rules.len()) by {
        assert(before.unit.subninjas[i].ok(before.graph.nodes.len(), before.graph.rules.len()));
    }
    assert forall|id: usize| #[trigger] after.subninja_rules.dom().contains(
        id,
    ) implies subninja_rule_ok(after.subninja_rules[id], after.graph.rules.len()) by {
        assert(subninja_rule_ok(before.subninja_rules[id], before.graph.rules.len()));
    }
}

/// A rule's number behind the word it is named by.
fn spell_rule(id: usize) -> (name: Vec<u8>)
    ensures
        name@ == rule_name(id),
{
    message("rule", &decimal_of(id as u64))
}

impl SinkModel {
    /// With the lines around a recursive rule's invocations defined.
    pub open spec fn with_recursive(self, rule: SinkRule) -> (
        SinkModel,
        Result<(Option<usize>, Seq<Option<usize>>), Refusal>,
    ) {
        let (first, residual) = self.with_residual(rule);
        match residual {
            Err(refusal) => (first, Err(refusal)),
            Ok(place) => {
                let (second, preceding) = first.with_preceding(rule, rule.subninjas@.len() as int);
                match preceding {
                    Err(refusal) => (second, Err(refusal)),
                    Ok(places) => (second, Ok((place, places))),
                }
            },
        }
    }

    /// Whether only the graph's rules and the kept failure differ.
    pub open spec fn only_rules_differ(self, other: SinkModel) -> bool {
        &&& other == (SinkModel { graph: other.graph, failure: other.failure, ..self })
        &&& other.graph == (GraphModel { rules: other.graph.rules, ..self.graph })
        &&& self.graph.rules.len() <= other.graph.rules.len()
    }
}

proof fn preceding_only_adds_rules(sink: SinkModel, rule: SinkRule, count: int)
    ensures
        sink.only_rules_differ(sink.with_preceding(rule, count).0),
        sink.with_preceding(rule, count).1 matches Ok(places) ==> count >= 0 ==> places.len()
            == count,
    decreases count,
{
    if count > 0 {
        preceding_only_adds_rules(sink, rule, count - 1);
    }
}

proof fn preceding_fails_from(sink: SinkModel, rule: SinkRule, few: int, many: int)
    requires
        0 <= few <= many,
        sink.with_preceding(rule, few).1 is Err,
    ensures
        sink.with_preceding(rule, many) == sink.with_preceding(rule, few),
    decreases many - few,
{
    if few < many {
        preceding_fails_from(sink, rule, few, many - 1);
    }
}

impl GraphSink {
    /// Whether an invocation is what a rule declared it to be.
    pub open spec fn invocation_is(
        &self,
        invocation: SubninjaInvocation,
        rule: SinkRule,
        subninja: SinkSubninja,
        preceding: Option<usize>,
    ) -> bool {
        &&& invocation.command@ == subninja.command@
        &&& invocation.make@ == subninja.make@
        &&& invocation.shell@ == rule.shell@
        &&& invocation.shell_flags@ == rule.shell_flags@
        &&& maybe(invocation.location) == maybe(subninja.location)
        &&& invocation.preceding_rule == preceding
        &&& match subninja.preceding {
            Some(command) => invocation.preceding_script matches Some(segment) && self.segment_is(
                segment,
                rule,
                command,
                subninja.preceding_steps@,
                subninja.preceding_ignore_errors,
            ),
            None => invocation.preceding_script is None,
        }
    }

    /// Whether a recursive rule is what was declared.
    pub open spec fn recursive_is(
        &self,
        held: SubninjaRule,
        rule: SinkRule,
        residual: Option<usize>,
        preceding: Seq<Option<usize>>,
    ) -> bool {
        &&& held.diagnostic_command@ == rule.command.script@
        &&& held.residual_rule == residual
        &&& match rule.residual_command {
            Some(command) => held.residual_script matches Some(segment) && self.segment_is(
                segment,
                rule,
                command,
                rule.residual_steps@,
                rule.residual_ignore_errors,
            ),
            None => held.residual_script is None,
        }
        &&& held.invocations@.len() == rule.subninjas@.len()
        &&& forall|i: int|
            0 <= i < held.invocations@.len() ==> self.invocation_is(
                #[trigger] held.invocations@[i],
                rule,
                rule.subninjas@[i],
                preceding[i],
            )
    }

    /// Whether both wrap a recipe in the same layout.
    pub open spec fn wraps_as(&self, other: GraphSink) -> bool {
        &&& self.unit.command_directory@ == other.unit.command_directory@
        &&& self.unit.recipe_environment@ == other.unit.recipe_environment@
        &&& self.root_directory@ == other.root_directory@
        &&& self.unit.root == other.unit.root
        &&& self.unit.unreadable == other.unit.unreadable
    }

    /// A recursive rule is held until the edge that names it.
    fn declare_recursive_rule(&mut self, rule: &SinkRule) -> (done: Result<(), FrontendError>)
        requires
            old(self).wf(),
        ensures
            final(self).wf(),
            final(self).settled_as(*old(self)),
            match old(self).model().with_recursive(*rule) {
                (after, Err(refusal)) => final(self).model() == after && done_model(done) == Some(
                    refusal,
                ),
                (after, Ok(places)) => {
                    &&& done is Ok
                    &&& final(self).model() == (SinkModel {
                        subninja_rules: after.subninja_rules.insert(
                            rule.id,
                            final(self).subninja_rules@[rule.id],
                        ),
                        ..after
                    })
                    &&& old(self).recursive_is(
                        final(self).subninja_rules@[rule.id],
                        *rule,
                        places.0,
                        places.1,
                    )
                },
            },
    {
        let ghost began = self.model();
        let mut residual_rule: Option<usize> = None;
        let mut residual_script: Option<SettledSegment> = None;
        if let Some(command) = &rule.residual_command {
            let bindings: Vec<(usize, Template)> = self.executor_rule_bindings(
                rule,
                command,
                rule.residual_ignore_errors,
            );
            let mut name: Vec<u8> = spell_rule(rule.id);
            append(&mut name, "_residual".as_bytes());
            residual_script = Some(
                self.held_segment(
                    rule,
                    command,
                    &rule.residual_steps,
                    rule.residual_ignore_errors,
                ),
            );
            match self.define_executor_rule(&name, bindings) {
                Ok(place) => {
                    residual_rule = Some(place);
                },
                Err(why) => return Err(why),
            }
        }
        let ghost first = self.model();
        assert((first, Ok::<Option<usize>, Refusal>(residual_rule)) == began.with_residual(*rule));
        let ghost mut places: Seq<Option<usize>> = Seq::empty();
        let mut invocations: Vec<SubninjaInvocation> = Vec::new();
        let mut index: usize = 0;
        while index < rule.subninjas.len()
            invariant
                index <= rule.subninjas@.len(),
                began == old(self).model(),
                self.wf(),
                self.settled_as(*old(self)),
                self.wraps_as(*old(self)),
                (first, Ok::<Option<usize>, Refusal>(residual_rule)) == began.with_residual(*rule),
                (self.model(), Ok::<Seq<Option<usize>>, Refusal>(places)) == first.with_preceding(
                    *rule,
                    index as int,
                ),
                residual_rule matches Some(place) ==> place < self.model().graph.rules.len(),
                places.len() == index,
                invocations@.len() == index,
                invocations_ok(invocations@, self.model().graph.rules.len()),
                forall|i: int|
                    0 <= i < invocations@.len() ==> old(self).invocation_is(
                        #[trigger] invocations@[i],
                        *rule,
                        rule.subninjas@[i],
                        places[i],
                    ),
            decreases rule.subninjas@.len() - index,
        {
            let subninja: &SinkSubninja = &rule.subninjas[index];
            let ghost before = self.model();
            let mut preceding_rule: Option<usize> = None;
            let mut preceding_script: Option<SettledSegment> = None;
            if let Some(command) = &subninja.preceding {
                let bindings: Vec<(usize, Template)> = self.recipe_lines_bindings(
                    rule,
                    command,
                    subninja.preceding_ignore_errors,
                );
                let mut name: Vec<u8> = spell_rule(rule.id);
                append(&mut name, "_preceding".as_bytes());
                append(&mut name, &decimal_of(index as u64));
                assert(name@ =~= preceding_name(rule.id, index as int));
                let segment: SettledSegment = self.held_segment(
                    rule,
                    command,
                    &subninja.preceding_steps,
                    subninja.preceding_ignore_errors,
                );
                proof {
                    same_wrapping_same_segment(
                        *old(self),
                        *self,
                        segment,
                        *rule,
                        *command,
                        subninja.preceding_steps@,
                        subninja.preceding_ignore_errors,
                    );
                }
                preceding_script = Some(segment);
                match self.define_executor_rule(&name, bindings) {
                    Ok(place) => {
                        preceding_rule = Some(place);
                    },
                    Err(why) => {
                        proof {
                            preceding_fails_from(
                                first,
                                *rule,
                                index as int + 1,
                                rule.subninjas@.len() as int,
                            );
                        }
                        return Err(why);
                    },
                }
            }
            let invocation = SubninjaInvocation {
                command: copied(&subninja.command),
                make: copied(&subninja.make),
                shell: copied(&rule.shell),
                shell_flags: copied(&rule.shell_flags),
                preceding_rule,
                preceding_script,
                location: copied_maybe(&subninja.location),
            };
            let ghost stood = places;
            proof {
                places = places.push(preceding_rule);
            }
            assert(old(self).invocation_is(
                invocation,
                *rule,
                rule.subninjas@[index as int],
                preceding_rule,
            ));
            invocations.push(invocation);
            proof {
                assert forall|i: int| 0 <= i < invocations@.len() implies old(self).invocation_is(
                    #[trigger] invocations@[i],
                    *rule,
                    rule.subninjas@[i],
                    places[i],
                ) by {
                    if i < index {
                        assert(places[i] == stood[i]);
                    }
                }
            }
            index += 1;
        }
        let held = SubninjaRule {
            invocations,
            residual_rule,
            residual_script,
            diagnostic_command: copied(&rule.command.script),
        };
        let ghost after = self.model();
        self.subninja_rules.put(rule.id, held);
        assert(self.model() == (SinkModel {
            subninja_rules: after.subninja_rules.insert(rule.id, held),
            ..after
        }));
        Ok(())
    }

    /// Declare a rule: a recursive one is held until the edge that names it,
    /// and any other is defined, with its recipe left where that edge finds it.
    pub fn declare_rule(&mut self, rule: &SinkRule) -> (done: Result<(), FrontendError>)
        requires
            old(self).wf(),
        ensures
            final(self).wf(),
            rule.subninjas@.len() > 0 ==> {
                &&& final(self).settled_as(*old(self))
                &&& match old(self).model().with_recursive(*rule) {
                    (after, Err(refusal)) => final(self).model() == after && done_model(done)
                        == Some(refusal),
                    (after, Ok(places)) => {
                        &&& done is Ok
                        &&& final(self).model() == (SinkModel {
                            subninja_rules: after.subninja_rules.insert(
                                rule.id,
                                final(self).subninja_rules@[rule.id],
                            ),
                            ..after
                        })
                        &&& old(self).recursive_is(
                            final(self).subninja_rules@[rule.id],
                            *rule,
                            places.0,
                            places.1,
                        )
                    },
                }
            },
            rule.subninjas@.len() == 0 ==> {
                &&& (final(self).model(), done_model(done)) == old(
                    self).model().with_executor_rule(*rule)
                &&& done is Err ==> final(self).settled_as(*old(self))
                &&& done is Ok ==> {
                    &&& final(self).settled_edges@ == old(self).settled_edges@
                    &&& if line_by_line(rule.steps@) {
                        &&& final(self).settled_rules@ == old(self).settled_rules@.insert(
                            rule.id,
                            final(self).settled_rules@[rule.id],
                        )
                        &&& old(self).steps_are(
                            final(self).settled_rules@[rule.id],
                            *rule,
                            rule.steps@,
                        )
                        &&& final(self).settled_scripts@ == old(self).settled_scripts@
                    } else if rule.deferred_recipe is None {
                        &&& final(self).settled_rules@ == old(self).settled_rules@
                        &&& final(self).settled_scripts@ == old(self).settled_scripts@.insert(
                            rule.id,
                            final(self).settled_scripts@[rule.id],
                        )
                        &&& old(self).script_is(
                            final(self).settled_scripts@[rule.id],
                            *rule,
                            rule.command,
                            rule.ignore_errors,
                        )
                    } else {
                        &&& final(self).settled_rules@ == old(self).settled_rules@
                        &&& final(self).settled_scripts@ == old(self).settled_scripts@
                    }
                }
            },
    {
        if rule.subninjas.len() > 0 {
            return self.declare_recursive_rule(rule);
        }
        let ghost before = self.model();
        let bindings: Vec<(usize, Template)> = if rule.deferred_recipe.is_some() {
            self.deferred_rule_bindings()
        } else {
            self.executor_rule_bindings(rule, &rule.command, rule.ignore_errors)
        };
        let name: Vec<u8> = spell_rule(rule.id);
        let defined: usize = match self.define_executor_rule(&name, bindings) {
            Ok(defined) => defined,
            Err(why) => return Err(why),
        };
        assert(self.wraps_as(*old(self)));
        self.rules.put(rule.id, defined);
        if let Some(recipe) = rule.deferred_recipe {
            self.deferred_rules.put(rule.id, recipe);
        }
        assert(self.wraps_as(*old(self)));
        if CommandLayout::launches_by_line(&rule.steps) {
            let layout: CommandLayout = self.layout();
            let settled: SettledSteps = layout.settled_steps(&rule.steps, &rule.recipe_environment);
            assert(old(self).layout_is(layout));
            self.settled_rules.put(rule.id, settled);
        } else if rule.deferred_recipe.is_none() {
            let script: SettledScript = self.held_script(rule, &rule.command, rule.ignore_errors);
            self.settled_scripts.put(rule.id, script);
        }
        Ok(())
    }
}

/// What a segment is depends on nothing but what the unit wraps its recipes in.
proof fn same_wrapping_same_segment(
    one: GraphSink,
    other: GraphSink,
    segment: SettledSegment,
    rule: SinkRule,
    command: SinkCommand,
    steps: Seq<SpelledStep>,
    ignore_errors: bool,
)
    requires
        other.wraps_as(one),
        other.segment_is(segment, rule, command, steps, ignore_errors),
    ensures
        one.segment_is(segment, rule, command, steps, ignore_errors),
{
    if let SettledSegment::Steps(settled) = segment {
        let layout = choose|layout: CommandLayout| #[trigger]
            other.layout_is(layout) && settles(settled, layout, steps, rule.recipe_environment@);
        assert(one.layout_is(layout));
    }
}

} // verus!
