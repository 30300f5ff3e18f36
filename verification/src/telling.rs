//! What a description of an edge tells, and what words invoke.

use crate::artifact::{RecipeUnitArtifact, SettledSteps};
use crate::bytes::{debugged, joined, lossy, text, texts};
use crate::describing::{
    binding_lines, declared_freshness, described_binding, edge_described, edge_value,
    freshness_lines, line, listed, never_up_to_date, node_paths, own_freshness, partition_lines,
    pool_text, published_pairs, seen_paths, spelled_apart, truth, DeferredSemantics,
    EdgeSemantics, Freshness, IgnoredCommand, Side,
};
use crate::graph::{
    made_already, made_by, name_at, outputs_of, EdgeDeclared, EdgeModel, GraphModel, NodeModel,
};
use crate::layout::changes_of;
use crate::oracle::{having, thrown_away, told_by, Compared, Property};
use crate::paths::{absolute, cache_root, canonical, joined_path, kept_piece, settled, up};
use crate::recipe::PendingRecipes;
use crate::shell::{enters_directory, invoked, invoking};
use crate::warm::{made_at, recorded_at, settled_edges, wrapped_as};
use vstd::prelude::*;
use vstd::string::*;

verus! {

/// Whether a text stands somewhere in another.
pub open spec fn tells(described: Seq<u8>, part: Seq<u8>) -> bool {
    exists|at: int|
        0 <= at && at + part.len() <= described.len() && #[trigger] described.subrange(
            at,
            at + part.len(),
        ) == part
}

/// What part of a text tells, the whole does.
proof fn the_whole_tells(before: Seq<u8>, part: Seq<u8>, after: Seq<u8>, said: Seq<u8>)
    requires
        tells(part, said),
    ensures
        tells(before + part + after, said),
{
    let at = choose|at: int|
        0 <= at && at + said.len() <= part.len() && #[trigger] part.subrange(at, at + said.len())
            == said;
    let whole = before + part + after;
    let start = before.len() + at;
    assert(whole.subrange(start, start + said.len()) =~= part.subrange(at, at + said.len()));
}

proof fn itself_is_told(part: Seq<u8>)
    ensures
        tells(part, part),
{
    assert(part.subrange(0, 0int + part.len()) =~= part);
}

proof fn a_part_is_told(before: Seq<u8>, part: Seq<u8>, after: Seq<u8>, whole: Seq<u8>)
    requires
        whole == before + part + after,
    ensures
        tells(whole, part),
{
    itself_is_told(part);
    the_whole_tells(before, part, after, part);
}

/// Every binding an edge has a value for is told by its name with that value, but
/// the one the two sides spell apart.
pub proof fn every_binding_is_told(
    graph: GraphModel,
    edge: EdgeModel,
    command: Option<IgnoredCommand>,
    count: int,
    at: int,
    value: Seq<u8>,
)
    requires
        0 <= at < count,
        !spelled_apart(at, command),
        name_at(graph.names, described_binding(at).0, 0) < graph.names.len(),
        edge_value(
            graph,
            edge,
            name_at(graph.names, described_binding(at).0, 0) as usize,
            described_binding(at).1,
        ) == Some(value),
    ensures
        tells(
            binding_lines(graph, edge, command, count),
            text("  $") + described_binding(at).0 + text(" = ") + lossy(value) + text("\n"),
        ),
    decreases count,
{
    let said = text("  $") + described_binding(at).0 + text(" = ") + lossy(value) + text("\n");
    let told = binding_lines(graph, edge, command, count);
    let before = binding_lines(graph, edge, command, count - 1);
    if at == count - 1 {
        assert(told =~= before + said + Seq::empty());
        a_part_is_told(before, said, Seq::empty(), told);
    } else {
        every_binding_is_told(graph, edge, command, count - 1, at, value);
        let after = told.skip(before.len() as int);
        assert(told =~= Seq::<u8>::empty() + before + after);
        the_whole_tells(Seq::empty(), before, after, said);
    }
}

/// The outputs and inputs of an edge are told list by list, each list behind its
/// own name, with the rule and whether the edge is ever up to date.
pub proof fn every_partition_is_told(graph: GraphModel, edge: EdgeModel)
    ensures
        ({
            let told = partition_lines(graph, edge);
            &&& tells(
                told,
                line(
                    text("rule"),
                    lossy(graph.rules[edge.declared.rule as int].name),
                ),
            )
            &&& tells(
                told,
                line(
                    text("explicit out"),
                    listed(seen_paths(graph, edge.declared.explicit_outputs)),
                ),
            )
            &&& tells(
                told,
                line(
                    text("implicit out"),
                    listed(seen_paths(graph, edge.declared.implicit_outputs)),
                ),
            )
            &&& tells(
                told,
                line(
                    text("explicit in"),
                    listed(
                        crate::describing::without_synthetic(
                            seen_paths(graph, edge.declared.explicit_inputs),
                        ),
                    ),
                ),
            )
            &&& tells(
                told,
                line(
                    text("implicit in"),
                    listed(seen_paths(graph, edge.declared.implicit_inputs)),
                ),
            )
            &&& tells(
                told,
                line(
                    text("order-only in"),
                    listed(seen_paths(graph, edge.declared.order_only_inputs)),
                ),
            )
            &&& tells(
                told,
                line(text("validations"), listed(seen_paths(graph, edge.declared.validations))),
            )
            &&& edge.declared.always_dirty ==> tells(
                told,
                line(text("always dirty"), truth(true)),
            )
        }),
{
    let a = line(
        text("rule"),
        lossy(graph.rules[edge.declared.rule as int].name),
    );
    let b = line(text("explicit out"), listed(seen_paths(graph, edge.declared.explicit_outputs)));
    let c = line(text("implicit out"), listed(seen_paths(graph, edge.declared.implicit_outputs)));
    let d = line(
        text("explicit in"),
        listed(
            crate::describing::without_synthetic(seen_paths(graph, edge.declared.explicit_inputs)),
        ),
    );
    let e = line(text("implicit in"), listed(seen_paths(graph, edge.declared.implicit_inputs)));
    let f = line(
        text("order-only in"),
        listed(seen_paths(graph, edge.declared.order_only_inputs)),
    );
    let g = line(text("validations"), listed(seen_paths(graph, edge.declared.validations)));
    let h = line(
        text("always dirty"),
        truth(crate::describing::never_up_to_date(graph, edge)),
    );
    let told = partition_lines(graph, edge);
    assert(told == a + b + c + d + e + f + g + h);
    let none = Seq::<u8>::empty();
    assert(told =~= none + a + (b + c + d + e + f + g + h));
    a_part_is_told(none, a, b + c + d + e + f + g + h, told);
    assert(told =~= a + b + (c + d + e + f + g + h));
    a_part_is_told(a, b, c + d + e + f + g + h, told);
    assert(told =~= (a + b) + c + (d + e + f + g + h));
    a_part_is_told(a + b, c, d + e + f + g + h, told);
    assert(told =~= (a + b + c) + d + (e + f + g + h));
    a_part_is_told(a + b + c, d, e + f + g + h, told);
    assert(told =~= (a + b + c + d) + e + (f + g + h));
    a_part_is_told(a + b + c + d, e, f + g + h, told);
    assert(told =~= (a + b + c + d + e) + f + (g + h));
    a_part_is_told(a + b + c + d + e, f, g + h, told);
    assert(told =~= (a + b + c + d + e + f) + g + h);
    a_part_is_told(a + b + c + d + e + f, g, h, told);
    assert(told =~= (a + b + c + d + e + f + g) + h + none);
    a_part_is_told(a + b + c + d + e + f + g, h, none, told);
}

/// Everything an edge puts off is told, each in a line of its own.
pub proof fn everything_put_off_is_told(freshness: Freshness)
    ensures
        ({
            let told = freshness_lines(freshness);
            &&& tells(told, line(text("deferred outputs"), listed(freshness.outputs)))
            &&& tells(
                told,
                line(text("deferred output always dirty"), truth(freshness.always_dirty_output)),
            )
            &&& tells(
                told,
                line(text("deferred always-new inputs"), listed(freshness.always_new_inputs)),
            )
            &&& tells(
                told,
                line(text("deferred excluded new inputs"), listed(freshness.excluded_new_inputs)),
            )
            &&& tells(
                told,
                line(text("deferred new-input names"), listed(freshness.new_input_names)),
            )
            &&& tells(told, line(text("deferred variable"), debugged(freshness.variable)))
            &&& tells(told, line(text("completion join"), truth(freshness.completion_join)))
        }),
{
    let a = line(text("deferred outputs"), listed(freshness.outputs));
    let b = line(text("deferred output always dirty"), truth(freshness.always_dirty_output));
    let c = line(text("deferred always-new inputs"), listed(freshness.always_new_inputs));
    let d = line(text("deferred excluded new inputs"), listed(freshness.excluded_new_inputs));
    let e = line(text("deferred new-input names"), listed(freshness.new_input_names));
    let f = line(text("deferred variable"), debugged(freshness.variable));
    let g = line(text("completion join"), truth(freshness.completion_join));
    let told = freshness_lines(freshness);
    assert(told == a + b + c + d + e + f + g);
    let none = Seq::<u8>::empty();
    assert(told =~= none + a + (b + c + d + e + f + g));
    a_part_is_told(none, a, b + c + d + e + f + g, told);
    assert(told =~= a + b + (c + d + e + f + g));
    a_part_is_told(a, b, c + d + e + f + g, told);
    assert(told =~= (a + b) + c + (d + e + f + g));
    a_part_is_told(a + b, c, d + e + f + g, told);
    assert(told =~= (a + b + c) + d + (e + f + g));
    a_part_is_told(a + b + c, d, e + f + g, told);
    assert(told =~= (a + b + c + d) + e + (f + g));
    a_part_is_told(a + b + c + d, e, f + g, told);
    assert(told =~= (a + b + c + d + e) + f + g);
    a_part_is_told(a + b + c + d + e, f, g, told);
    assert(told =~= (a + b + c + d + e + f) + g + none);
    a_part_is_told(a + b + c + d + e + f, g, none, told);
}

/// An edge that is described is known by what it makes, and its description tells
/// its lists, its freshness and its pool. On the direct side the freshness is the
/// graph's own.
pub proof fn a_description_tells_every_part(
    graph: GraphModel,
    edge: EdgeModel,
    semantics: EdgeSemantics,
    side: Side,
)
    ensures
        edge_described(graph, edge, semantics, side) matches Some(told) ==> {
            &&& told.0 == joined(seen_paths(graph, edge.declared.explicit_outputs), text(" "))
            &&& tells(told.1, partition_lines(graph, edge))
            &&& side is Direct ==> tells(told.1, freshness_lines(own_freshness(graph, edge)))
            &&& tells(told.1, line(text("pool"), pool_text(graph, edge.pool)))
        },
{
    if let Some(told) = edge_described(graph, edge, semantics, side) {
        let outputs = crate::describing::seen_outputs(graph, edge);
        let command = crate::describing::ignored_for(semantics, outputs[0]);
        let a = partition_lines(graph, edge);
        let b = freshness_lines(
            match side {
                Side::Direct => own_freshness(graph, edge),
                Side::Manifest => declared_freshness(
                    crate::describing::recorded_for(semantics, outputs[0]),
                ),
            },
        );
        let c = crate::describing::ignored_lines(graph, edge, command, side);
        let d = line(text("pool"), pool_text(graph, edge.pool));
        let e = crate::describing::binding_lines(
            graph,
            edge,
            command,
            crate::describing::DESCRIBED_BINDINGS as int,
        );
        assert(told.1 == a + b + c + d + e);
        five_parts_are_told(a, b, c, d, e);
    }
}

proof fn five_parts_are_told(a: Seq<u8>, b: Seq<u8>, c: Seq<u8>, d: Seq<u8>, e: Seq<u8>)
    ensures
        tells(a + b + c + d + e, a),
        tells(a + b + c + d + e, b),
        tells(a + b + c + d + e, d),
{
    let whole = a + b + c + d + e;
    let none = Seq::<u8>::empty();
    assert(whole =~= none + a + (b + c + d + e));
    a_part_is_told(none, a, b + c + d + e, whole);
    assert(whole =~= a + b + (c + d + e));
    a_part_is_told(a, b, c + d + e, whole);
    a_part_is_told(a + b + c, d, e, whole);
}

/// An edge that puts off what was declared of it is told alike on both sides, and
/// so is one nothing was declared of that puts off nothing. Any difference in a
/// list or a mark is a difference in what is told of them.
pub proof fn both_sides_tell_the_same_freshness(
    graph: GraphModel,
    edge: EdgeModel,
    recorded: Option<DeferredSemantics>,
)
    ensures
        edge.deferred is None && recorded is None ==> (own_freshness(graph, edge)
            == declared_freshness(recorded) <==> edge.completion_of is None),
        edge.deferred matches Some(held) ==> (recorded matches Some(said) ==> (own_freshness(
            graph,
            edge,
        ) == declared_freshness(recorded) <==> {
            &&& node_paths(graph, held.outputs) == texts(said.outputs@)
            &&& held.always_dirty_output == said.always_dirty_output
            &&& node_paths(graph, held.always_new_inputs) == texts(said.always_new_inputs@)
            &&& node_paths(graph, held.excluded_new_inputs) == texts(said.excluded_new_inputs@)
            &&& published_pairs(graph, held.new_input_names) == texts(said.new_input_names@)
            &&& held.new_inputs_variable == (if said.outputs@.len() > 0 {
                text("KATI_NEW_INPUTS")
            } else {
                Seq::empty()
            })
            &&& (edge.completion_of is Some) == said.completion_join
        })),
{
}

/// A command line that enters a directory first invokes what stands behind the
/// `&&`, and one that begins with `exec` what stands behind that; any other words
/// are the invocation themselves.
pub proof fn what_stands_behind_is_invoked(directory: Seq<u8>, words: Seq<Seq<u8>>)
    requires
        words.len() > 0,
    ensures
        ({
            let entering = seq![text("cd"), directory, text("&&")] + words;
            &&& enters_directory(entering)
            &&& entering[1] == directory
            &&& words[0] != text("exec") ==> invoking(entering) == words
            &&& words[0] == text("exec") ==> invoking(entering) == words.skip(1)
            &&& words[0] != text("cd") && words[0] != text("exec") ==> invoking(words) == words
                && !enters_directory(words)
            &&& invoking(seq![text("exec")] + words) == words
        }),
{
    let entering = seq![text("cd"), directory, text("&&")] + words;
    assert(entering.skip(3) =~= words);
    let executed = seq![text("exec")] + words;
    assert(executed.skip(1) =~= words);
    assert(text("cd").len() == 2 && text("exec").len() == 4) by {
        reveal_strlit("cd");
        is_ascii_spec_bytes("cd");
        reveal_strlit("exec");
        is_ascii_spec_bytes("exec");
    }
    assert(executed[0] == text("exec"));
}

/// Words that invoke Make are taken as they stand, and no words with a second
/// command among them are.
pub proof fn one_invocation_is_taken_whole(command: Seq<u8>, words: Seq<Seq<u8>>, make: Seq<u8>)
    ensures
        invoked(command, words, make) matches Ok(taken) ==> taken == words,
        words.contains(text("&&")) ==> invoked(command, words, make) is Err,
        words.len() == 0 ==> invoked(command, words, make) is Err,
{
}

/// Going down and up again leads to the same place; a `..` with nothing to back up
/// over stays.
pub proof fn going_up_undoes_going_down(pieces: Seq<Seq<u8>>, name: Seq<u8>)
    requires
        name != up(),
    ensures
        settled(pieces.push(name)) == settled(pieces).push(name),
        settled(pieces.push(name).push(up())) == settled(pieces),
        settled(seq![up()]) == seq![up()],
        up() == seq![0x2eu8, 0x2eu8],
{
    assert(pieces.push(name).drop_last() =~= pieces);
    assert(pieces.push(name).push(up()).drop_last() =~= pieces.push(name));
    let down = pieces.push(name);
    assert(settled(down) == settled(pieces).push(name));
    assert(settled(down).last() == name);
    assert(down.push(up()).last() == up());
    assert(settled(down.push(up())) == settled(down).drop_last());
    assert(settled(pieces).push(name).drop_last() =~= settled(pieces));
    let one = seq![up()];
    assert(one.drop_last() =~= Seq::empty());
    assert(settled(one.drop_last()) =~= Seq::empty());
    assert(settled(one) =~= one);
}

/// A path that is spelled from the root stays so, one that is not stays so, and an
/// empty piece or a lone dot says nothing.
pub proof fn a_path_stays_where_it_is(path: Seq<u8>, piece: Seq<u8>)
    ensures
        absolute(path) ==> canonical(path).len() > 0 && canonical(path)[0] == 0x2f,
        kept_piece(Seq::empty()).len() == 0,
        kept_piece(seq![0x2eu8]).len() == 0,
        piece.len() > 1 ==> kept_piece(piece) == seq![piece],
        joined_path(path, seq![0x2fu8] + piece) == seq![0x2fu8] + piece,
{
    assert((seq![0x2fu8] + piece)[0] == 0x2f);
    if piece.len() > 1 {
        assert(piece != seq![0x2eu8]);
    }
}

/// The user's cache directory is used where it is spelled from the root, and
/// `.cache` under the home directory otherwise; with neither there is none.
pub proof fn a_cache_stands_under_one_root(cache: Seq<u8>, home: Seq<u8>)
    requires
        home.len() > 0,
        home.last() != 0x2f,
        cache.len() > 0,
        cache.last() != 0x2f,
    ensures
        cache[0] == 0x2f ==> cache_root(Some(cache), Some(home)) == Some(
            cache + text("/ronin"),
        ),
        cache[0] != 0x2f ==> cache_root(Some(cache), Some(home)) == Some(
            home + text("/.cache/ronin"),
        ),
        cache_root(None, Some(home)) == Some(home + text("/.cache/ronin")),
        cache_root(None, None) is None,
        cache[0] != 0x2f ==> cache_root(Some(cache), None) is None,
{
    assert(text("ronin") =~= seq![0x72u8, 0x6fu8, 0x6eu8, 0x69u8, 0x6eu8]) by {
        reveal_strlit("ronin");
        is_ascii_spec_bytes("ronin");
    }
    assert(text("/ronin") =~= seq![0x2fu8] + text("ronin")) by {
        reveal_strlit("/ronin");
        is_ascii_spec_bytes("/ronin");
    }
    assert(text(".cache").len() == 6 && text(".cache")[0] == 0x2e && text(".cache")[5] == 0x65) by {
        reveal_strlit(".cache");
        is_ascii_spec_bytes(".cache");
    }
    assert(text("/.cache/ronin") =~= seq![0x2fu8] + text(".cache") + seq![0x2fu8] + text(
        "ronin",
    )) by {
        reveal_strlit("/.cache/ronin");
        is_ascii_spec_bytes("/.cache/ronin");
        reveal_strlit(".cache");
        is_ascii_spec_bytes(".cache");
    }
    assert(cache.push(0x2f) + text("ronin") =~= cache + text("/ronin"));
    let under = home.push(0x2f) + text(".cache");
    assert(under.last() == 0x65);
    assert(joined_path(home, text(".cache")) == under);
    assert(under.push(0x2f) + text("ronin") =~= home + text("/.cache/ronin"));
}

/// An edge that is added makes its outputs, each of which nothing made before; one
/// that would make what is made already is refused, and the graph stays as it is.
pub proof fn one_edge_makes_a_file(graph: GraphModel, declared: EdgeDeclared, node: usize)
    requires
        node < graph.nodes.len(),
        graph.edges.len() < usize::MAX,
    ensures
        ({
            let (after, made) = graph.with_new_edge(declared);
            let output = declared.explicit_outputs.contains(node)
                || declared.implicit_outputs.contains(node);
            &&& output && graph.nodes[node as int].generator is Some ==> made is Err && after
                == graph
            &&& made is Err ==> after == graph
            &&& made matches Ok(edge) ==> {
                &&& edge == graph.edges.len()
                &&& after.edges.len() == graph.edges.len() + 1
                &&& after.edges.last().declared == declared
                &&& output ==> after.nodes[node as int].generator == Some(edge)
                &&& !output ==> after.nodes[node as int] == graph.nodes[node as int]
                &&& after.nodes[node as int].path == graph.nodes[node as int].path
                &&& forall|other: int|
                    0 <= other < graph.edges.len() ==> #[trigger] after.edges[other]
                        == graph.edges[other]
            }
        }),
{
    let outputs = outputs_of(declared);
    crate::waiting::both_lists(declared.explicit_outputs, declared.implicit_outputs, node);
    nothing_is_made_twice(graph.nodes, outputs, 0, node);
    outputs_are_made(graph.nodes, outputs, graph.edges.len() as usize, outputs.len() as int, node);
    assert(outputs.take(outputs.len() as int) =~= outputs);
}

proof fn nothing_is_made_twice(nodes: Seq<NodeModel>, outputs: Seq<usize>, at: int, node: usize)
    requires
        0 <= at <= outputs.len(),
        node < nodes.len(),
    ensures
        made_already(nodes, outputs, at) is None && outputs.skip(at).contains(node)
            ==> nodes[node as int].generator is None,
    decreases outputs.len() - at,
{
    if at < outputs.len() && made_already(nodes, outputs, at) is None {
        nothing_is_made_twice(nodes, outputs, at + 1, node);
        if outputs.skip(at).contains(node) {
            let i = choose|i: int| 0 <= i < outputs.skip(at).len() && outputs.skip(at)[i] == node;
            if i > 0 {
                assert(outputs.skip(at + 1)[i - 1] == node);
            }
        }
    }
    if at == 0 {
        assert(outputs.skip(0) =~= outputs);
    }
}

proof fn outputs_are_made(
    nodes: Seq<NodeModel>,
    outputs: Seq<usize>,
    edge: usize,
    count: int,
    node: usize,
)
    requires
        0 <= count <= outputs.len(),
        node < nodes.len(),
    ensures
        ({
            let after = made_by(nodes, outputs, edge, count);
            &&& after.len() == nodes.len()
            &&& outputs.take(count).contains(node) ==> after[node as int] == (NodeModel {
                generator: Some(edge),
                ..nodes[node as int]
            })
            &&& !outputs.take(count).contains(node) ==> after[node as int] == nodes[node as int]
        }),
    decreases count,
{
    if count > 0 {
        outputs_are_made(nodes, outputs, edge, count - 1, node);
        let few = outputs.take(count - 1);
        let all = outputs.take(count);
        assert(all =~= few.push(outputs[count - 1]));
        if few.contains(node) {
            let i = choose|i: int| 0 <= i < few.len() && few[i] == node;
            assert(all[i] == node);
        }
        if all.contains(node) && !few.contains(node) {
            let i = choose|i: int| 0 <= i < all.len() && all[i] == node;
            if i < few.len() {
                assert(few[i] == node);
            }
        }
        assert(all[count - 1] == outputs[count - 1]);
    }
}

/// An output is told of where its edge says so of it, and nowhere else: withdrawn
/// where the edge deletes what it failed to make, a peer where it is one, thrown
/// away where its file is, and read again or allowed to be missing where its edge's
/// outputs are.
pub proof fn a_property_is_its_edges(graph: GraphModel, edge: EdgeModel, node: usize)
    ensures
        ({
            let output = edge.declared.explicit_outputs.contains(node)
                || edge.declared.implicit_outputs.contains(node);
            &&& having(graph, edge, Property::Withdrawn).contains(node) <==> edge.delete_on_error
                && edge.withdrawable.contains(node)
            &&& having(graph, edge, Property::Peer).contains(node) <==> edge.peers.contains(node)
            &&& having(graph, edge, Property::Disposable).contains(node) <==> output
                && graph.nodes[node as int].disposable
            &&& having(graph, edge, Property::Reobserved).contains(node) <==> output
                && edge.outputs_reobserved
            &&& having(graph, edge, Property::Intermediate).contains(node) <==> output
                && edge.declared.intermediate
        }),
{
    let outputs = edge.declared.explicit_outputs + edge.declared.implicit_outputs;
    crate::waiting::both_lists(
        edge.declared.explicit_outputs,
        edge.declared.implicit_outputs,
        node,
    );
    what_is_thrown_away_is_told(graph, outputs, node);
}

proof fn what_is_thrown_away_is_told(graph: GraphModel, nodes: Seq<usize>, node: usize)
    ensures
        thrown_away(graph, nodes).contains(node) <==> nodes.contains(node)
            && graph.nodes[node as int].disposable,
    decreases nodes.len(),
{
    if nodes.len() > 0 {
        let fewer = nodes.drop_last();
        let last = nodes.last();
        what_is_thrown_away_is_told(graph, fewer, node);
        assert(fewer.push(last) =~= nodes);
        pushed_is_there(fewer, last, node);
        pushed_is_there(thrown_away(graph, fewer), last, node);
    }
}

proof fn pushed_is_there(list: Seq<usize>, last: usize, item: usize)
    ensures
        list.push(last).contains(item) <==> list.contains(item) || item == last,
{
    let all = list.push(last);
    if list.contains(item) {
        let at = choose|at: int| 0 <= at < list.len() && list[at] == item;
        assert(all[at] == item);
    }
    if item == last {
        assert(all[list.len() as int] == item);
    }
    if all.contains(item) && item != last {
        let at = choose|at: int| 0 <= at < all.len() && all[at] == item;
        assert(list[at] == item);
    }
}

/// A comparison is a disagreement where one side alone refused or the two differ,
/// and none where they agree, both refused or neither was asked.
pub proof fn a_disagreement_is_one_sided(outcome: Compared)
    ensures
        outcome is OnlyDirectRefused || outcome is OnlyManifestRefused ==> told_by(outcome) is Some,
        outcome matches Compared::Differ(found) ==> (told_by(outcome) is Some <==> found@.len()
            > 0),
        outcome is BothRefused || outcome is NotAccepted ==> told_by(outcome) is None,
        outcome matches Compared::OnlyDirectRefused(why) ==> told_by(outcome)->0.len() == 1
            && told_by(outcome)->0[0] == text("only the direct graph refused it: ") + why@,
        outcome matches Compared::OnlyManifestRefused(why) ==> told_by(outcome)->0.len() == 1
            && told_by(outcome)->0[0] == text("only the manifest was refused: ") + why@,
{
}

/// An edge is told to be never up to date only where it says so or waits for what
/// is always built.
pub proof fn an_edge_is_dirty_for_a_reason(graph: GraphModel, edge: EdgeModel)
    ensures
        edge.declared.always_dirty ==> never_up_to_date(graph, edge),
        seen_paths(graph, edge.declared.explicit_inputs).contains(text("_kati_always_build_"))
            || seen_paths(graph, edge.declared.implicit_inputs).contains(
            text("_kati_always_build_"),
        ) || seen_paths(graph, edge.declared.order_only_inputs).contains(
            text("_kati_always_build_"),
        ) ==> never_up_to_date(graph, edge),
        !edge.declared.always_dirty && edge.declared.explicit_inputs.len() == 0
            && edge.declared.implicit_inputs.len() == 0 && edge.declared.order_only_inputs.len()
            == 0 ==> !never_up_to_date(graph, edge),
{
}

/// Each settled recipe of a record is for the edge that makes the file it names, in
/// the order of the record, and a record with one that names no such file is not
/// believed.
pub proof fn a_settled_recipe_is_for_its_file(
    graph: GraphModel,
    settled: Seq<(Vec<u8>, SettledSteps)>,
    count: int,
)
    requires
        0 <= count <= settled.len(),
    ensures
        settled_edges(graph, settled, count) matches Some(edges) ==> edges.len() == count && forall|
            i: int,
        |
            0 <= i < count ==> (#[trigger] edges[i]).1 == settled[i].1 && made_at(
                graph,
                settled[i].0@,
            ) == Some(edges[i].0),
        (exists|i: int| 0 <= i < count && made_at(graph, (#[trigger] settled[i]).0@) is None)
            ==> settled_edges(graph, settled, count) is None,
    decreases count,
{
    if count > 0 {
        a_settled_recipe_is_for_its_file(graph, settled, count - 1);
        if exists|i: int| 0 <= i < count && made_at(graph, (#[trigger] settled[i]).0@) is None {
            let i = choose|i: int|
                0 <= i < count && made_at(graph, (#[trigger] settled[i]).0@) is None;
            if i < count - 1 {
                assert(made_at(graph, settled[i].0@) is None);
            }
        }
    }
}

/// A unit of a record expands its recipes in the directory it was read in, and
/// wraps them as it was recorded to.
pub proof fn a_rebuilt_unit_stands_where_it_was_read(
    recipes: PendingRecipes,
    recorded: Seq<RecipeUnitArtifact>,
    chosen: Seq<int>,
    at: int,
)
    requires
        wrapped_as(recipes, recorded, chosen),
        0 <= at < chosen.len(),
    ensures
        recipes.units@.len() == chosen.len(),
        0 <= chosen[at] < recorded.len(),
        recipes.units@[at].directory@ == recorded[chosen[at]].directory@,
        recipes.units@[at].layout.command_directory@
            == recorded[chosen[at]].layout.command_directory@,
        recipes.units@[at].layout.root_directory@ == recorded[chosen[at]].layout.root_directory@,
        recipes.units@[at].layout.root == recorded[chosen[at]].layout.root,
        changes_of(recipes.units@[at].layout.recipe_environment@) == changes_of(
            recorded[chosen[at]].layout.recipe_environment@,
        ),
{
}

/// A unit is recorded where the first entry under its key stands, and nowhere where
/// no entry has its key.
pub proof fn a_unit_is_recorded_under_its_key(
    recorded: Seq<RecipeUnitArtifact>,
    key: Seq<u8>,
    from: int,
)
    requires
        0 <= from <= recorded.len(),
    ensures
        from <= recorded_at(recorded, key, from) <= recorded.len(),
        recorded_at(recorded, key, from) < recorded.len() ==> recorded[recorded_at(
            recorded,
            key,
            from,
        )].key@ == key,
        forall|i: int|
            from <= i < recorded_at(recorded, key, from) ==> (#[trigger] recorded[i]).key@ != key,
    decreases recorded.len() - from,
{
    if from < recorded.len() && recorded[from].key@ != key {
        a_unit_is_recorded_under_its_key(recorded, key, from + 1);
    }
}

} // verus!
