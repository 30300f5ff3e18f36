//! One edge of a graph, written so that two graphs can be compared as text.
//!
//! Everything two graphs of one Makefile have to agree about is written:
//! outputs and their explicit count, inputs in their three partitions,
//! validations, the rule, the pool and its depth, and every binding. Being
//! never up to date is written once, from whichever of its two spellings the
//! graph in hand uses: the edge's own declaration, or an input that nothing
//! makes.

use crate::bytes::{
    append, copied, debug_bytes, debugged, decimal, decimal_of, holds, join, joined, literal,
    lossy, maybe, same, text, texts, to_str_lossy,
};
use crate::graph::{
    below, edge_ok, edge_values, name_at, pieces_of, rule_bindings, shell_escape_path, shell_path,
    BuildGraph, EdgeEntry, EdgeModel, GraphModel, Piece, PieceModel, Template,
};
use crate::table::Table;
use vstd::prelude::*;
use vstd::string::*;

verus! {

/// The input a manifest invents to say that a target is never up to date.
pub open spec fn always_build() -> Seq<u8> {
    text("_kati_always_build_")
}

/// The script of a rule whose failure is ignored, which two destinations spell
/// differently.
#[derive(Debug)]
pub enum IgnoredCommand {
    Inline(Vec<u8>),
    ResponseFile(Vec<u8>),
}

/// What a grouped action's freshness was declared from.
#[derive(Debug)]
pub struct DeferredSemantics {
    pub outputs: Vec<Vec<u8>>,
    pub always_dirty_output: bool,
    pub always_new_inputs: Vec<Vec<u8>>,
    pub excluded_new_inputs: Vec<Vec<u8>>,
    /// Each input that is published under another name, an equals sign between
    /// the two.
    pub new_input_names: Vec<Vec<u8>>,
    pub completion_join: bool,
}

/// What edges were declared with that a manifest cannot say, by primary output.
#[derive(Debug)]
pub struct EdgeSemantics {
    pub ignored: Table<Vec<u8>, IgnoredCommand>,
    pub recursive: Vec<Vec<u8>>,
    pub deferred: Table<Vec<u8>, DeferredSemantics>,
}

impl EdgeSemantics {
    /// Each output is there once.
    pub open spec fn wf(&self) -> bool {
        self.ignored.wf() && self.deferred.wf()
    }
}

/// Which of the two graphs is described.
#[derive(Clone, Copy, PartialEq, Eq, Structural, Debug)]
pub enum Side {
    Direct,
    Manifest,
}

/// One property, as a line.
pub open spec fn line(name: Seq<u8>, value: Seq<u8>) -> Seq<u8> {
    text("  ") + name + text(": ") + value + text("\n")
}

/// Paths as a reader sees them, a space between each two.
pub open spec fn listed(paths: Seq<Seq<u8>>) -> Seq<u8> {
    joined(Seq::new(paths.len(), |i: int| lossy(paths[i])), text(" "))
}

/// A truth, as it is written.
pub open spec fn truth(value: bool) -> Seq<u8> {
    if value {
        text("true")
    } else {
        text("false")
    }
}

fn push_line(described: &mut Vec<u8>, name: &str, value: &[u8])
    ensures
        final(described)@ == old(described)@ + line(text(name), value@),
{
    let ghost before = described@;
    append(described, "  ".as_bytes());
    append(described, name.as_bytes());
    append(described, ": ".as_bytes());
    append(described, value);
    append(described, "\n".as_bytes());
    assert(described@ =~= before + line(text(name), value@));
}

fn show_list(paths: &[Vec<u8>]) -> (shown: Vec<u8>)
    ensures
        shown@ == listed(texts(paths@)),
{
    let ghost wanted = Seq::new(paths@.len(), |i: int| lossy(paths@[i]@));
    let mut pieces: Vec<Vec<u8>> = Vec::new();
    let mut at: usize = 0;
    assert(texts(pieces@) =~= wanted.take(0));
    while at < paths.len()
        invariant
            at <= paths@.len(),
            wanted == Seq::new(paths@.len(), |i: int| lossy(paths@[i]@)),
            texts(pieces@) == wanted.take(at as int),
        decreases paths@.len() - at,
    {
        let ghost before = texts(pieces@);
        let piece: Vec<u8> = to_str_lossy(&paths[at]);
        let ghost added = piece@;
        pieces.push(piece);
        assert(texts(pieces@) =~= before.push(added));
        assert(texts(pieces@) =~= wanted.take(at as int + 1));
        at += 1;
    }
    assert(wanted.take(at as int) =~= wanted);
    assert(wanted =~= Seq::new(texts(paths@).len(), |i: int| lossy(texts(paths@)[i])));
    join(&pieces, " ".as_bytes())
}

fn push_list(described: &mut Vec<u8>, name: &str, paths: &[Vec<u8>])
    ensures
        final(described)@ == old(described)@ + line(text(name), listed(texts(paths@))),
{
    let shown: Vec<u8> = show_list(paths);
    push_line(described, name, &shown);
}

fn push_truth(described: &mut Vec<u8>, name: &str, value: bool)
    ensures
        final(described)@ == old(described)@ + line(text(name), truth(value)),
{
    if value {
        push_line(described, name, "true".as_bytes());
    } else {
        push_line(described, name, "false".as_bytes());
    }
}

/// The paths of some nodes.
pub open spec fn node_paths(graph: GraphModel, nodes: Seq<usize>) -> Seq<Seq<u8>> {
    Seq::new(nodes.len(), |i: int| graph.nodes[nodes[i] as int].path)
}

fn paths_of_nodes(graph: &BuildGraph, nodes: &[usize]) -> (paths: Vec<Vec<u8>>)
    requires
        below(nodes@, graph.model().nodes.len()),
    ensures
        texts(paths@) == node_paths(graph.model(), nodes@),
{
    crate::remake::paths_of(graph, nodes)
}

/// The path a Makefile sees a node under: the member a completion edge stands
/// for, where the node only stands for its completion.
pub open spec fn seen_path(graph: GraphModel, node: usize) -> Seq<u8> {
    match graph.nodes[node as int].generator {
        Some(edge) => match graph.edges[edge as int].completion_of {
            Some(member) => graph.nodes[member as int].path,
            None => graph.nodes[node as int].path,
        },
        None => graph.nodes[node as int].path,
    }
}

/// The path a Makefile sees a node under.
///
/// A grouped action's completion edge makes a private output, so that a child
/// can still make the member itself. A manifest spells the same completion
/// point with the member's own path, so the two are read as one.
pub fn semantic_path(graph: &BuildGraph, node: usize) -> (path: Vec<u8>)
    requires
        graph.model().wf(),
        node < graph.model().nodes.len(),
    ensures
        path@ == seen_path(graph.model(), node),
{
    let ghost model = graph.model();
    assert(model.nodes[node as int] == graph.nodes@[node as int].model());
    if let Some(edge) = graph.generator(node) {
        assert(edge_ok(
            model.edges[edge as int],
            model.nodes.len(),
            model.rules.len(),
            model.pools.len(),
        ));
        assert(model.edges[edge as int] == graph.edges@[edge as int].model());
        if let Some(member) = graph.edges[edge].completion_of {
            return copied(graph.path(member));
        }
    }
    copied(graph.path(node))
}

/// The paths a Makefile sees some nodes under.
pub open spec fn seen_paths(graph: GraphModel, nodes: Seq<usize>) -> Seq<Seq<u8>> {
    Seq::new(nodes.len(), |i: int| seen_path(graph, nodes[i]))
}

/// The paths a Makefile sees some nodes under.
pub fn semantic_paths(graph: &BuildGraph, nodes: &[usize]) -> (paths: Vec<Vec<u8>>)
    requires
        graph.model().wf(),
        below(nodes@, graph.model().nodes.len()),
    ensures
        texts(paths@) == seen_paths(graph.model(), nodes@),
{
    let ghost wanted = seen_paths(graph.model(), nodes@);
    let mut paths: Vec<Vec<u8>> = Vec::new();
    let mut at: usize = 0;
    assert(texts(paths@) =~= wanted.take(0));
    while at < nodes.len()
        invariant
            at <= nodes@.len(),
            graph.model().wf(),
            below(nodes@, graph.model().nodes.len()),
            wanted == seen_paths(graph.model(), nodes@),
            texts(paths@) == wanted.take(at as int),
        decreases nodes@.len() - at,
    {
        let ghost before = texts(paths@);
        let path: Vec<u8> = semantic_path(graph, nodes[at]);
        let ghost added = path@;
        paths.push(path);
        assert(texts(paths@) =~= before.push(added));
        assert(texts(paths@) =~= wanted.take(at as int + 1));
        at += 1;
    }
    assert(wanted.take(at as int) =~= wanted);
    paths
}

/// What a grouped action's freshness is described as.
pub ghost struct Freshness {
    pub outputs: Seq<Seq<u8>>,
    pub always_dirty_output: bool,
    pub always_new_inputs: Seq<Seq<u8>>,
    pub excluded_new_inputs: Seq<Seq<u8>>,
    pub new_input_names: Seq<Seq<u8>>,
    pub variable: Seq<u8>,
    pub completion_join: bool,
}

/// Each input with the name it is published under.
pub open spec fn published_pairs(graph: GraphModel, names: Seq<(usize, Seq<u8>)>) -> Seq<Seq<u8>> {
    Seq::new(
        names.len(),
        |i: int| graph.nodes[names[i].0 as int].path.push(0x3d) + names[i].1,
    )
}

/// A graph's own account of a grouped action's freshness.
pub open spec fn own_freshness(graph: GraphModel, edge: EdgeModel) -> Freshness {
    match edge.deferred {
        Some(held) => Freshness {
            outputs: node_paths(graph, held.outputs),
            always_dirty_output: held.always_dirty_output,
            always_new_inputs: node_paths(graph, held.always_new_inputs),
            excluded_new_inputs: node_paths(graph, held.excluded_new_inputs),
            new_input_names: published_pairs(graph, held.new_input_names),
            variable: held.new_inputs_variable,
            completion_join: edge.completion_of is Some,
        },
        None => Freshness {
            outputs: Seq::empty(),
            always_dirty_output: false,
            always_new_inputs: Seq::empty(),
            excluded_new_inputs: Seq::empty(),
            new_input_names: Seq::empty(),
            variable: Seq::empty(),
            completion_join: edge.completion_of is Some,
        },
    }
}

/// What was declared of a grouped action's freshness, for a manifest, which
/// cannot say it.
pub open spec fn declared_freshness(recorded: Option<DeferredSemantics>) -> Freshness {
    match recorded {
        Some(held) => Freshness {
            outputs: texts(held.outputs@),
            always_dirty_output: held.always_dirty_output,
            always_new_inputs: texts(held.always_new_inputs@),
            excluded_new_inputs: texts(held.excluded_new_inputs@),
            new_input_names: texts(held.new_input_names@),
            variable: if held.outputs@.len() > 0 {
                text("KATI_NEW_INPUTS")
            } else {
                Seq::empty()
            },
            completion_join: held.completion_join,
        },
        None => Freshness {
            outputs: Seq::empty(),
            always_dirty_output: false,
            always_new_inputs: Seq::empty(),
            excluded_new_inputs: Seq::empty(),
            new_input_names: Seq::empty(),
            variable: Seq::empty(),
            completion_join: false,
        },
    }
}

/// What is declared of an output.
pub open spec fn recorded_for(semantics: EdgeSemantics, output: Seq<u8>) -> Option<
    DeferredSemantics,
> {
    if semantics.deferred@.dom().contains(output) {
        Some(semantics.deferred@[output])
    } else {
        None
    }
}

/// A grouped action's freshness, as lines.
pub open spec fn freshness_lines(freshness: Freshness) -> Seq<u8> {
    line(text("deferred outputs"), listed(freshness.outputs)) + line(
        text("deferred output always dirty"),
        truth(freshness.always_dirty_output),
    ) + line(text("deferred always-new inputs"), listed(freshness.always_new_inputs)) + line(
        text("deferred excluded new inputs"),
        listed(freshness.excluded_new_inputs),
    ) + line(text("deferred new-input names"), listed(freshness.new_input_names)) + line(
        text("deferred variable"),
        debugged(freshness.variable),
    ) + line(text("completion join"), truth(freshness.completion_join))
}

/// A grouped action's freshness on one side: the graph's own account of the
/// edge on the direct side, and what was declared of the output on the other,
/// which asks nothing of the graph.
pub open spec fn freshness_on(
    graph: GraphModel,
    edge: usize,
    output: Seq<u8>,
    semantics: EdgeSemantics,
    side: Side,
) -> Freshness {
    match side {
        Side::Direct => own_freshness(graph, graph.edges[edge as int]),
        Side::Manifest => declared_freshness(recorded_for(semantics, output)),
    }
}

fn push_freshness(
    described: &mut Vec<u8>,
    outputs: &[Vec<u8>],
    always_dirty_output: bool,
    always_new_inputs: &[Vec<u8>],
    excluded_new_inputs: &[Vec<u8>],
    new_input_names: &[Vec<u8>],
    variable: &[u8],
    completion_join: bool,
)
    ensures
        final(described)@ == old(described)@ + freshness_lines(
            (Freshness {
                outputs: texts(outputs@),
                always_dirty_output,
                always_new_inputs: texts(always_new_inputs@),
                excluded_new_inputs: texts(excluded_new_inputs@),
                new_input_names: texts(new_input_names@),
                variable: variable@,
                completion_join,
            }),
        ),
{
    let ghost before = described@;
    let mut part: Vec<u8> = Vec::new();
    push_list(&mut part, "deferred outputs", outputs);
    push_truth(&mut part, "deferred output always dirty", always_dirty_output);
    push_list(&mut part, "deferred always-new inputs", always_new_inputs);
    push_list(&mut part, "deferred excluded new inputs", excluded_new_inputs);
    push_list(&mut part, "deferred new-input names", new_input_names);
    let shown: Vec<u8> = debug_bytes(variable);
    push_line(&mut part, "deferred variable", &shown);
    push_truth(&mut part, "completion join", completion_join);
    proof {
        let wanted = Freshness {
            outputs: texts(outputs@),
            always_dirty_output,
            always_new_inputs: texts(always_new_inputs@),
            excluded_new_inputs: texts(excluded_new_inputs@),
            new_input_names: texts(new_input_names@),
            variable: variable@,
            completion_join,
        };
        assert(part@ =~= freshness_lines(wanted));
    }
    append(described, &part);
}

fn pairs_of(graph: &BuildGraph, names: &[(usize, Vec<u8>)]) -> (pairs: Vec<Vec<u8>>)
    requires
        forall|i: int|
            0 <= i < names@.len() ==> (#[trigger] names@[i]).0 < graph.model().nodes.len(),
    ensures
        texts(pairs@) == published_pairs(graph.model(), edge_values(names@)),
{
    let ghost wanted = published_pairs(graph.model(), edge_values(names@));
    let mut pairs: Vec<Vec<u8>> = Vec::new();
    let mut at: usize = 0;
    assert(texts(pairs@) =~= wanted.take(0));
    while at < names.len()
        invariant
            at <= names@.len(),
            forall|i: int|
                0 <= i < names@.len() ==> (#[trigger] names@[i]).0 < graph.model().nodes.len(),
            wanted == published_pairs(graph.model(), edge_values(names@)),
            wanted.len() == names@.len(),
            texts(pairs@) == wanted.take(at as int),
        decreases names@.len() - at,
    {
        let ghost before = texts(pairs@);
        let mut pair: Vec<u8> = copied(graph.path(names[at].0));
        pair.push(0x3d);
        append(&mut pair, &names[at].1);
        let ghost added = pair@;
        assert(edge_values(names@)[at as int] == (names@[at as int].0, names@[at as int].1@));
        assert(added == wanted[at as int]);
        pairs.push(pair);
        assert(texts(pairs@) =~= before.push(added));
        assert(texts(pairs@) =~= wanted.take(at as int + 1));
        at += 1;
    }
    assert(wanted.take(at as int) =~= wanted);
    pairs
}

/// Write a grouped action's freshness: the graph's own account of it on the
/// direct side, and what was declared on the other.
pub fn describe_deferred_semantics(
    graph: &BuildGraph,
    edge: usize,
    output: &Vec<u8>,
    semantics: &EdgeSemantics,
    side: Side,
    described: &mut Vec<u8>,
)
    requires
        semantics.wf(),
        side is Direct ==> graph.model().wf() && edge < graph.model().edges.len(),
    ensures
        final(described)@ == old(described)@ + freshness_lines(
            freshness_on(graph.model(), edge, output@, *semantics, side),
        ),
{
    let ghost model = graph.model();
    let ghost stored = model.edges[edge as int];
    let none: Vec<Vec<u8>> = Vec::new();
    let nothing: Vec<u8> = Vec::new();
    assert(texts(none@) =~= Seq::empty());
    assert(nothing@ =~= Seq::empty());
    match side {
        Side::Direct => {
            assert(stored == graph.edges@[edge as int].model());
            assert(edge_ok(stored, model.nodes.len(), model.rules.len(), model.pools.len()));
            let join: bool = graph.edges[edge].completion_of.is_some();
            match &graph.edges[edge].deferred {
                Some(held) => {
                    assert(stored.deferred == Some(held.model()));
                    let outputs: Vec<Vec<u8>> = paths_of_nodes(graph, &held.outputs);
                    let always: Vec<Vec<u8>> = paths_of_nodes(graph, &held.always_new_inputs);
                    let excluded: Vec<Vec<u8>> = paths_of_nodes(graph, &held.excluded_new_inputs);
                    proof {
                        assert forall|i: int| 0 <= i < held.new_input_names@.len() implies (
                        #[trigger] held.new_input_names@[i]).0 < model.nodes.len() by {
                            assert(held.model().new_input_names[i].0
                                == held.new_input_names@[i].0);
                        }
                    }
                    let names: Vec<Vec<u8>> = pairs_of(graph, &held.new_input_names);
                    push_freshness(
                        described,
                        &outputs,
                        held.always_dirty_output,
                        &always,
                        &excluded,
                        &names,
                        &held.new_inputs_variable,
                        join,
                    );
                },
                None => {
                    push_freshness(described, &none, false, &none, &none, &none, &nothing, join);
                },
            }
        },
        Side::Manifest => match semantics.deferred.get(output) {
            Some(held) => {
                let variable: Vec<u8> = if held.outputs.len() > 0 {
                    literal("KATI_NEW_INPUTS")
                } else {
                    copied(&nothing)
                };
                push_freshness(
                    described,
                    &held.outputs,
                    held.always_dirty_output,
                    &held.always_new_inputs,
                    &held.excluded_new_inputs,
                    &held.new_input_names,
                    &variable,
                    held.completion_join,
                );
            },
            None => {
                push_freshness(described, &none, false, &none, &none, &none, &nothing, false);
            },
        },
    }
}

/// The last value an edge gives a binding.
pub open spec fn edge_binding(bindings: Seq<(usize, Seq<u8>)>, binding: usize) -> Option<Seq<u8>>
    decreases bindings.len(),
{
    if bindings.len() == 0 {
        None
    } else if bindings.last().0 == binding {
        Some(bindings.last().1)
    } else {
        edge_binding(bindings.drop_last(), binding)
    }
}

/// The last template a rule gives a binding.
pub open spec fn rule_binding(bindings: Seq<(usize, Seq<PieceModel>)>, binding: usize) -> Option<
    Seq<PieceModel>,
>
    decreases bindings.len(),
{
    if bindings.len() == 0 {
        None
    } else if bindings.last().0 == binding {
        Some(bindings.last().1)
    } else {
        rule_binding(bindings.drop_last(), binding)
    }
}

/// A template with an edge's outputs in it.
pub open spec fn filled(pieces: Seq<PieceModel>, out: Seq<u8>) -> Seq<u8>
    decreases pieces.len(),
{
    if pieces.len() == 0 {
        Seq::empty()
    } else {
        filled(pieces.drop_last(), out) + (match pieces.last() {
            PieceModel::Literal(bytes) => bytes,
            PieceModel::Out => out,
        })
    }
}

/// An edge's explicit outputs as a binding writes them.
pub open spec fn out_text(graph: GraphModel, edge: EdgeModel, for_shell: bool) -> Seq<u8> {
    let outputs = edge.declared.explicit_outputs;
    joined(
        Seq::new(
            outputs.len(),
            |i: int|
                if for_shell {
                    shell_path(graph.nodes[outputs[i] as int].path)
                } else {
                    graph.nodes[outputs[i] as int].path
                },
        ),
        text(" "),
    )
}

/// What an edge's binding is: its own value, and otherwise its rule's with its
/// outputs in it.
pub open spec fn edge_value(
    graph: GraphModel,
    edge: EdgeModel,
    binding: usize,
    for_shell: bool,
) -> Option<Seq<u8>> {
    match edge_binding(edge.declared.bindings, binding) {
        Some(value) => Some(value),
        None => match rule_binding(graph.rules[edge.declared.rule as int].bindings, binding) {
            Some(template) => Some(filled(template, out_text(graph, edge, for_shell))),
            None => None,
        },
    }
}

fn find_edge_binding(bindings: &[(usize, Vec<u8>)], binding: usize) -> (value: Option<Vec<u8>>)
    ensures
        maybe(value) == edge_binding(edge_values(bindings@), binding),
{
    let ghost all = edge_values(bindings@);
    let mut left: usize = bindings.len();
    assert(all.take(left as int) =~= all);
    while left > 0
        invariant
            left <= bindings@.len(),
            all == edge_values(bindings@),
            edge_binding(all.take(left as int), binding) == edge_binding(all, binding),
        decreases left,
    {
        assert(all.take(left as int).drop_last() =~= all.take(left - 1));
        assert(all.take(left as int).last() == (bindings@[left - 1].0, bindings@[left - 1].1@));
        if bindings[left - 1].0 == binding {
            return Some(copied(&bindings[left - 1].1));
        }
        left -= 1;
    }
    None
}

fn find_rule_binding(bindings: &[(usize, Template)], binding: usize) -> (at: Option<usize>)
    ensures
        match at {
            Some(place) => place < bindings@.len() && rule_binding(
                rule_bindings(bindings@),
                binding,
            ) == Some(bindings@[place as int].1.model()),
            None => rule_binding(rule_bindings(bindings@), binding) is None,
        },
{
    let ghost all = rule_bindings(bindings@);
    let mut left: usize = bindings.len();
    assert(all.take(left as int) =~= all);
    while left > 0
        invariant
            left <= bindings@.len(),
            all == rule_bindings(bindings@),
            rule_binding(all.take(left as int), binding) == rule_binding(all, binding),
        decreases left,
    {
        assert(all.take(left as int).drop_last() =~= all.take(left - 1));
        assert(all.take(left as int).last() == (
            bindings@[left - 1].0,
            bindings@[left - 1].1.model(),
        ));
        if bindings[left - 1].0 == binding {
            return Some(left - 1);
        }
        left -= 1;
    }
    None
}

fn fill(template: &Template, out: &[u8]) -> (value: Vec<u8>)
    ensures
        value@ == filled(template.model(), out@),
{
    let ghost all = template.model();
    let mut value: Vec<u8> = Vec::new();
    let mut at: usize = 0;
    assert(all.take(0) =~= Seq::empty());
    while at < template.pieces.len()
        invariant
            at <= template.pieces@.len(),
            all == pieces_of(template.pieces@),
            value@ == filled(all.take(at as int), out@),
        decreases template.pieces@.len() - at,
    {
        let ghost next = all.take(at as int + 1);
        assert(next.drop_last() =~= all.take(at as int));
        assert(next.last() == template.pieces@[at as int].model());
        match &template.pieces[at] {
            Piece::Literal(bytes) => append(&mut value, bytes),
            Piece::Out => append(&mut value, out),
        }
        at += 1;
    }
    assert(all.take(at as int) =~= all);
    value
}

fn show_out(graph: &BuildGraph, edge: usize, for_shell: bool) -> (out: Vec<u8>)
    requires
        graph.model().wf(),
        edge < graph.model().edges.len(),
    ensures
        out@ == out_text(graph.model(), graph.model().edges[edge as int], for_shell),
{
    let ghost model = graph.model();
    let ghost stored = model.edges[edge as int];
    assert(stored == graph.edges@[edge as int].model());
    assert(edge_ok(stored, model.nodes.len(), model.rules.len(), model.pools.len()));
    let outputs: &Vec<usize> = &graph.edges[edge].declared.explicit_outputs;
    let ghost wanted = Seq::new(
        outputs@.len(),
        |i: int|
            if for_shell {
                shell_path(model.nodes[outputs@[i] as int].path)
            } else {
                model.nodes[outputs@[i] as int].path
            },
    );
    let mut pieces: Vec<Vec<u8>> = Vec::new();
    let mut at: usize = 0;
    assert(texts(pieces@) =~= wanted.take(0));
    while at < outputs.len()
        invariant
            at <= outputs@.len(),
            model == graph.model(),
            below(outputs@, model.nodes.len()),
            wanted == Seq::new(
                outputs@.len(),
                |i: int|
                    if for_shell {
                        shell_path(model.nodes[outputs@[i] as int].path)
                    } else {
                        model.nodes[outputs@[i] as int].path
                    },
            ),
            texts(pieces@) == wanted.take(at as int),
        decreases outputs@.len() - at,
    {
        let ghost before = texts(pieces@);
        let path: &Vec<u8> = graph.path(outputs[at]);
        let piece: Vec<u8> = if for_shell {
            match shell_escape_path(path) {
                Some(quoted) => quoted,
                None => copied(path),
            }
        } else {
            copied(path)
        };
        let ghost added = piece@;
        assert(added == wanted[at as int]);
        pieces.push(piece);
        assert(texts(pieces@) =~= before.push(added));
        assert(texts(pieces@) =~= wanted.take(at as int + 1));
        at += 1;
    }
    assert(wanted.take(at as int) =~= wanted);
    join(&pieces, " ".as_bytes())
}

/// What an edge's binding is.
pub fn edgevar(graph: &BuildGraph, edge: usize, binding: usize, for_shell: bool) -> (value: Option<
    Vec<u8>,
>)
    requires
        graph.model().wf(),
        edge < graph.model().edges.len(),
    ensures
        maybe(value) == edge_value(
            graph.model(),
            graph.model().edges[edge as int],
            binding,
            for_shell,
        ),
{
    let ghost model = graph.model();
    let ghost stored = model.edges[edge as int];
    assert(stored == graph.edges@[edge as int].model());
    assert(edge_ok(stored, model.nodes.len(), model.rules.len(), model.pools.len()));
    if let Some(value) = find_edge_binding(&graph.edges[edge].declared.bindings, binding) {
        return Some(value);
    }
    let rule: usize = graph.edges[edge].declared.rule;
    assert(model.rules[rule as int] == graph.rules@[rule as int].model());
    match find_rule_binding(&graph.rules[rule].bindings, binding) {
        Some(at) => {
            let out: Vec<u8> = show_out(graph, edge, for_shell);
            Some(fill(&graph.rules[rule].bindings[at].1, &out))
        },
        None => None,
    }
}

/// What is said of a rule whose failure is ignored: whether this side ignores
/// it, and the script, which the two sides spell differently.
pub open spec fn ignored_lines(
    graph: GraphModel,
    edge: EdgeModel,
    command: Option<IgnoredCommand>,
    side: Side,
) -> Seq<u8> {
    match command {
        None => Seq::empty(),
        Some(held) => {
            let binding = name_at(graph.names, text("ignore_errors"), 0);
            let ignored = match side {
                Side::Manifest => true,
                Side::Direct => binding < graph.names.len() && (match edge_value(
                    graph,
                    edge,
                    binding as usize,
                    false,
                ) {
                    Some(value) => value.len() > 0,
                    None => false,
                }),
            };
            line(text("ignore errors"), truth(ignored)) + (match held {
                IgnoredCommand::Inline(script) => line(
                    text("semantic command"),
                    debugged(script@),
                ),
                IgnoredCommand::ResponseFile(script) => line(
                    text("semantic response content"),
                    debugged(script@),
                ),
            })
        },
    }
}

/// What was declared of a rule whose failure is ignored.
pub open spec fn ignored_for(semantics: EdgeSemantics, output: Seq<u8>) -> Option<IgnoredCommand> {
    if semantics.ignored@.dom().contains(output) {
        Some(semantics.ignored@[output])
    } else {
        None
    }
}

/// Write what is said of a rule whose failure is ignored, and hand back the
/// script that was declared for it.
pub fn describe_ignore_semantics<'a>(
    graph: &BuildGraph,
    edge: usize,
    output: &Vec<u8>,
    semantics: &'a EdgeSemantics,
    side: Side,
    described: &mut Vec<u8>,
) -> (command: Option<&'a IgnoredCommand>)
    requires
        graph.model().wf(),
        semantics.wf(),
        edge < graph.model().edges.len(),
    ensures
        final(described)@ == old(described)@ + ignored_lines(
            graph.model(),
            graph.model().edges[edge as int],
            ignored_for(*semantics, output@),
            side,
        ),
        match command {
            Some(held) => ignored_for(*semantics, output@) == Some(*held),
            None => ignored_for(*semantics, output@) is None,
        },
{
    let ghost before = described@;
    let held: &IgnoredCommand = match semantics.ignored.get(output) {
        Some(held) => held,
        None => {
            assert(before + Seq::<u8>::empty() =~= before);
            return None;
        },
    };
    let ignored: bool = match side {
        Side::Manifest => true,
        Side::Direct => match graph.lookup_name("ignore_errors".as_bytes()) {
            Some(binding) => match edgevar(graph, edge, binding, false) {
                Some(value) => value.len() > 0,
                None => false,
            },
            None => false,
        },
    };
    push_truth(described, "ignore errors", ignored);
    let ghost said = described@;
    match held {
        IgnoredCommand::Inline(script) => {
            let shown: Vec<u8> = debug_bytes(script);
            push_line(described, "semantic command", &shown);
        },
        IgnoredCommand::ResponseFile(script) => {
            let shown: Vec<u8> = debug_bytes(script);
            push_line(described, "semantic response content", &shown);
        },
    }
    assert(described@ =~= before + ignored_lines(
        graph.model(),
        graph.model().edges[edge as int],
        ignored_for(*semantics, output@),
        side,
    ));
    Some(held)
}

/// Every binding an edge is described with, and whether its value is written
/// for a shell.
pub open spec fn described_binding(at: int) -> (Seq<u8>, bool) {
    if at == 0 {
        (text("command"), true)
    } else if at == 1 {
        (text("description"), true)
    } else if at == 2 {
        (text("depfile"), false)
    } else if at == 3 {
        (text("deps"), false)
    } else if at == 4 {
        (text("restat"), false)
    } else if at == 5 {
        (text("rspfile"), false)
    } else if at == 6 {
        (text("rspfile_content"), true)
    } else if at == 7 {
        (text("generator"), false)
    } else if at == 8 {
        (text("pool"), false)
    } else if at == 9 {
        (text("dyndep"), false)
    } else if at == 10 {
        (text("tags"), false)
    } else {
        (text("phony_output"), false)
    }
}

/// How many bindings an edge is described with.
pub const DESCRIBED_BINDINGS: usize = 12;

/// Every binding an edge is described with.
///
/// A closed list rather than a walk of whatever each graph happens to hold, so
/// that a binding that stops crossing shows up as a difference.
pub fn binding_at(at: usize) -> (binding: (Vec<u8>, bool))
    requires
        at < DESCRIBED_BINDINGS,
    ensures
        (binding.0@, binding.1) == described_binding(at as int),
{
    match at {
        0 => (literal("command"), true),
        1 => (literal("description"), true),
        2 => (literal("depfile"), false),
        3 => (literal("deps"), false),
        4 => (literal("restat"), false),
        5 => (literal("rspfile"), false),
        6 => (literal("rspfile_content"), true),
        7 => (literal("generator"), false),
        8 => (literal("pool"), false),
        9 => (literal("dyndep"), false),
        10 => (literal("tags"), false),
        _ => (literal("phony_output"), false),
    }
}

/// Whether a binding is one the two destinations spell differently: the script
/// of a rule whose failure is ignored.
pub open spec fn spelled_apart(at: int, command: Option<IgnoredCommand>) -> bool {
    match command {
        Some(IgnoredCommand::Inline(_)) => at == 0,
        Some(IgnoredCommand::ResponseFile(_)) => at == 6,
        None => false,
    }
}

/// Whether a binding is one the two destinations spell differently.
pub fn destination_specific_binding(at: usize, command: Option<&IgnoredCommand>) -> (answer: bool)
    ensures
        answer == spelled_apart(
            at as int,
            match command {
                Some(held) => Some(*held),
                None => None,
            },
        ),
{
    match command {
        Some(IgnoredCommand::Inline(_)) => at == 0,
        Some(IgnoredCommand::ResponseFile(_)) => at == 6,
        None => false,
    }
}

/// The first `count` bindings of an edge, as lines: each that has a value and
/// that the two destinations spell alike.
pub open spec fn binding_lines(
    graph: GraphModel,
    edge: EdgeModel,
    command: Option<IgnoredCommand>,
    count: int,
) -> Seq<u8>
    decreases count,
{
    if count <= 0 {
        Seq::empty()
    } else {
        let before = binding_lines(graph, edge, command, count - 1);
        let (name, for_shell) = described_binding(count - 1);
        let binding = name_at(graph.names, name, 0);
        if spelled_apart(count - 1, command) || binding >= graph.names.len() {
            before
        } else {
            match edge_value(graph, edge, binding as usize, for_shell) {
                Some(value) => before + text("  $") + name + text(" = ") + lossy(value) + text(
                    "\n",
                ),
                None => before,
            }
        }
    }
}

fn describe_bindings(graph: &BuildGraph, edge: usize, command: Option<&IgnoredCommand>) -> (part:
    Vec<u8>)
    requires
        graph.model().wf(),
        edge < graph.model().edges.len(),
    ensures
        part@ == binding_lines(
            graph.model(),
            graph.model().edges[edge as int],
            match command {
                Some(held) => Some(*held),
                None => None,
            },
            DESCRIBED_BINDINGS as int,
        ),
{
    let ghost model = graph.model();
    let ghost stored = model.edges[edge as int];
    let ghost held = match command {
        Some(held) => Some(*held),
        None => None,
    };
    let mut part: Vec<u8> = Vec::new();
    let mut at: usize = 0;
    assert(part@ =~= Seq::empty());
    while at < DESCRIBED_BINDINGS
        invariant
            at <= DESCRIBED_BINDINGS,
            model == graph.model(),
            model.wf(),
            edge < model.edges.len(),
            stored == model.edges[edge as int],
            held == (match command {
                Some(held) => Some(*held),
                None => None,
            }),
            part@ == binding_lines(model, stored, held, at as int),
        decreases DESCRIBED_BINDINGS - at,
    {
        let ghost before = part@;
        if !destination_specific_binding(at, command) {
            let (name, for_shell): (Vec<u8>, bool) = binding_at(at);
            if let Some(binding) = graph.lookup_name(&name) {
                if let Some(value) = edgevar(graph, edge, binding, for_shell) {
                    append(&mut part, "  $".as_bytes());
                    append(&mut part, &name);
                    append(&mut part, " = ".as_bytes());
                    append(&mut part, &to_str_lossy(&value));
                    append(&mut part, "\n".as_bytes());
                }
            }
        }
        at += 1;
    }
    part
}

/// A pool, as it is written.
pub open spec fn pool_text(graph: GraphModel, pool: Option<usize>) -> Seq<u8> {
    match pool {
        None => text("-"),
        Some(at) => lossy(graph.pools[at as int].name) + text(" depth ") + (
        match graph.pools[at as int].depth {
            None => text("None"),
            Some(depth) => text("Some(") + decimal(depth as nat) + text(")"),
        }),
    }
}

fn show_pool(graph: &BuildGraph, pool: Option<usize>) -> (shown: Vec<u8>)
    requires
        pool matches Some(at) ==> at < graph.model().pools.len(),
    ensures
        shown@ == pool_text(graph.model(), pool),
{
    match pool {
        None => literal("-"),
        Some(at) => {
            assert(graph.model().pools[at as int] == graph.pools@[at as int].model());
            let mut shown: Vec<u8> = to_str_lossy(&graph.pools[at].name);
            append(&mut shown, " depth ".as_bytes());
            match graph.pools[at].depth {
                None => append(&mut shown, "None".as_bytes()),
                Some(depth) => {
                    let mut count: Vec<u8> = literal("Some(");
                    append(&mut count, &decimal_of(depth as u64));
                    append(&mut count, ")".as_bytes());
                    append(&mut shown, &count);
                },
            }
            assert(shown@ =~= pool_text(graph.model(), pool));
            shown
        },
    }
}

/// The paths that are not the one a manifest invents.
pub open spec fn without_synthetic(paths: Seq<Seq<u8>>) -> Seq<Seq<u8>>
    decreases paths.len(),
{
    if paths.len() == 0 {
        Seq::empty()
    } else if paths.last() == always_build() {
        without_synthetic(paths.drop_last())
    } else {
        without_synthetic(paths.drop_last()).push(paths.last())
    }
}

/// The paths that are not the one a manifest invents.
pub fn drop_synthetic(paths: &[Vec<u8>]) -> (kept: Vec<Vec<u8>>)
    ensures
        texts(kept@) == without_synthetic(texts(paths@)),
{
    let ghost all = texts(paths@);
    let mut kept: Vec<Vec<u8>> = Vec::new();
    let mut at: usize = 0;
    assert(all.take(0) =~= Seq::empty());
    assert(texts(kept@) =~= Seq::empty());
    while at < paths.len()
        invariant
            at <= paths@.len(),
            all == texts(paths@),
            texts(kept@) == without_synthetic(all.take(at as int)),
        decreases paths@.len() - at,
    {
        let ghost next = all.take(at as int + 1);
        assert(next.drop_last() =~= all.take(at as int));
        assert(next.last() == paths@[at as int]@);
        let ghost before = texts(kept@);
        if !same(&paths[at], "_kati_always_build_".as_bytes()) {
            kept.push(copied(&paths[at]));
            assert(texts(kept@) =~= before.push(paths@[at as int]@));
        }
        at += 1;
    }
    assert(all.take(at as int) =~= all);
    kept
}

/// Everything an edge makes, as a Makefile sees it.
pub open spec fn seen_outputs(graph: GraphModel, edge: EdgeModel) -> Seq<Seq<u8>> {
    seen_paths(graph, edge.declared.explicit_outputs) + seen_paths(
        graph,
        edge.declared.implicit_outputs,
    )
}

/// Whether an edge is never up to date, in either spelling.
pub open spec fn never_up_to_date(graph: GraphModel, edge: EdgeModel) -> bool {
    ||| edge.declared.always_dirty
    ||| seen_paths(graph, edge.declared.explicit_inputs).contains(always_build())
    ||| seen_paths(graph, edge.declared.implicit_inputs).contains(always_build())
    ||| seen_paths(graph, edge.declared.order_only_inputs).contains(always_build())
}

/// The rule, the outputs and the inputs of an edge, as lines.
pub open spec fn partition_lines(graph: GraphModel, edge: EdgeModel) -> Seq<u8> {
    line(text("rule"), lossy(graph.rules[edge.declared.rule as int].name)) + line(
        text("explicit out"),
        listed(seen_paths(graph, edge.declared.explicit_outputs)),
    ) + line(text("implicit out"), listed(seen_paths(graph, edge.declared.implicit_outputs)))
        + line(
        text("explicit in"),
        listed(without_synthetic(seen_paths(graph, edge.declared.explicit_inputs))),
    ) + line(text("implicit in"), listed(seen_paths(graph, edge.declared.implicit_inputs))) + line(
        text("order-only in"),
        listed(seen_paths(graph, edge.declared.order_only_inputs)),
    ) + line(text("validations"), listed(seen_paths(graph, edge.declared.validations))) + line(
        text("always dirty"),
        truth(never_up_to_date(graph, edge)),
    )
}

fn describe_partitions(graph: &BuildGraph, edge: usize) -> (part: Vec<u8>)
    requires
        graph.model().wf(),
        edge < graph.model().edges.len(),
    ensures
        part@ == partition_lines(graph.model(), graph.model().edges[edge as int]),
{
    let ghost model = graph.model();
    let ghost stored = model.edges[edge as int];
    assert(stored == graph.edges@[edge as int].model());
    assert(edge_ok(stored, model.nodes.len(), model.rules.len(), model.pools.len()));
    let entry: &EdgeEntry = &graph.edges[edge];
    let rule: usize = entry.declared.rule;
    assert(model.rules[rule as int] == graph.rules@[rule as int].model());
    let explicit: Vec<Vec<u8>> = semantic_paths(graph, &entry.declared.explicit_inputs);
    let implicit: Vec<Vec<u8>> = semantic_paths(graph, &entry.declared.implicit_inputs);
    let order_only: Vec<Vec<u8>> = semantic_paths(graph, &entry.declared.order_only_inputs);
    let synthetic: Vec<u8> = literal("_kati_always_build_");
    let dirty: bool = entry.declared.always_dirty || holds(&explicit, &synthetic) || holds(
        &implicit,
        &synthetic,
    ) || holds(&order_only, &synthetic);
    let mut part: Vec<u8> = Vec::new();
    let name: Vec<u8> = to_str_lossy(&graph.rules[rule].name);
    push_line(&mut part, "rule", &name);
    let outputs: Vec<Vec<u8>> = semantic_paths(graph, &entry.declared.explicit_outputs);
    push_list(&mut part, "explicit out", &outputs);
    let outputs: Vec<Vec<u8>> = semantic_paths(graph, &entry.declared.implicit_outputs);
    push_list(&mut part, "implicit out", &outputs);
    let kept: Vec<Vec<u8>> = drop_synthetic(&explicit);
    push_list(&mut part, "explicit in", &kept);
    push_list(&mut part, "implicit in", &implicit);
    push_list(&mut part, "order-only in", &order_only);
    let validations: Vec<Vec<u8>> = semantic_paths(graph, &entry.declared.validations);
    push_list(&mut part, "validations", &validations);
    push_truth(&mut part, "always dirty", dirty);
    assert(dirty == never_up_to_date(model, stored));
    assert(part@ =~= partition_lines(model, stored));
    part
}

/// What one edge is known by, and everything said of it. Nothing is said of the
/// edge a manifest invents, nor of a recursive one, which the direct graph
/// holds back until its child is composed.
pub open spec fn edge_described(
    graph: GraphModel,
    edge: EdgeModel,
    semantics: EdgeSemantics,
    side: Side,
) -> Option<(Seq<u8>, Seq<u8>)> {
    let outputs = seen_outputs(graph, edge);
    if outputs == seq![always_build()] || texts(semantics.recursive@).contains(outputs[0]) {
        None
    } else {
        let command = ignored_for(semantics, outputs[0]);
        Some(
            (
                joined(seen_paths(graph, edge.declared.explicit_outputs), text(" ")),
                partition_lines(graph, edge) + freshness_lines(
                    match side {
                        Side::Direct => own_freshness(graph, edge),
                        Side::Manifest => declared_freshness(
                            recorded_for(semantics, outputs[0]),
                        ),
                    },
                ) + ignored_lines(graph, edge, command, side) + line(
                    text("pool"),
                    pool_text(graph, edge.pool),
                ) + binding_lines(graph, edge, command, DESCRIBED_BINDINGS as int),
            ),
        )
    }
}

/// A description that may not have been made, as its model.
pub open spec fn description_model(described: Option<(Vec<u8>, Vec<u8>)>) -> Option<
    (Seq<u8>, Seq<u8>),
> {
    match described {
        Some(pair) => Some((pair.0@, pair.1@)),
        None => None,
    }
}

/// What one edge is known by, and everything said of it.
pub fn describe_edge(graph: &BuildGraph, edge: usize, semantics: &EdgeSemantics, side: Side) -> (described:
    Option<(Vec<u8>, Vec<u8>)>)
    requires
        graph.model().wf(),
        semantics.wf(),
        edge < graph.model().edges.len(),
        seen_outputs(graph.model(), graph.model().edges[edge as int]).len() > 0,
    ensures
        description_model(described) == edge_described(
            graph.model(),
            graph.model().edges[edge as int],
            *semantics,
            side,
        ),
{
    let ghost model = graph.model();
    let ghost stored = model.edges[edge as int];
    assert(stored == graph.edges@[edge as int].model());
    assert(edge_ok(stored, model.nodes.len(), model.rules.len(), model.pools.len()));
    let entry: &EdgeEntry = &graph.edges[edge];
    let explicit: Vec<Vec<u8>> = semantic_paths(graph, &entry.declared.explicit_outputs);
    let key: Vec<u8> = join(&explicit, " ".as_bytes());
    let mut outputs: Vec<Vec<u8>> = semantic_paths(graph, &entry.declared.explicit_outputs);
    let mut implicit: Vec<Vec<u8>> = semantic_paths(graph, &entry.declared.implicit_outputs);
    let ghost first = outputs@;
    let ghost second = implicit@;
    outputs.append(&mut implicit);
    assert(outputs@ =~= first + second);
    assert(texts(outputs@) =~= seen_outputs(model, stored));
    assert(outputs@.len() > 0) by {
        assert(texts(outputs@).len() == outputs@.len());
    }
    assert(texts(outputs@)[0] == outputs@[0]@);
    if outputs.len() == 1 && same(&outputs[0], "_kati_always_build_".as_bytes()) {
        assert(seen_outputs(model, stored) =~= seq![always_build()]);
        return None;
    }
    assert(seen_outputs(model, stored) != seq![always_build()]) by {
        if seen_outputs(model, stored) == seq![always_build()] {
            assert(texts(outputs@).len() == 1);
            assert(texts(outputs@)[0] == always_build());
        }
    }
    if holds(&semantics.recursive, &outputs[0]) {
        return None;
    }
    let mut described: Vec<u8> = describe_partitions(graph, edge);
    describe_deferred_semantics(graph, edge, &outputs[0], semantics, side, &mut described);
    let command: Option<&IgnoredCommand> = describe_ignore_semantics(
        graph,
        edge,
        &outputs[0],
        semantics,
        side,
        &mut described,
    );
    let pool: Vec<u8> = show_pool(graph, entry.pool);
    push_line(&mut described, "pool", &pool);
    let bindings: Vec<u8> = describe_bindings(graph, edge, command);
    append(&mut described, &bindings);
    Some((key, described))
}

} // verus!
