//! What a rule of the graph runs, against what its recipe said.

use crate::bytes::{maybe, text};
use crate::declaring::literally;
use crate::graph::PieceModel;
use crate::layout::{shell_word, SettledSegment, SpelledStep};
use crate::paths::joined_path;
use crate::sink::{Bindings, GraphSink, SinkCommand, SinkModel, SinkRule, SubninjaRule};
use vstd::prelude::*;

verus! {

/// What a template comes to for the edge that makes an output.
pub open spec fn spelled_out(pieces: Seq<PieceModel>, output: Seq<u8>) -> Seq<u8>
    decreases pieces.len(),
{
    if pieces.len() == 0 {
        Seq::empty()
    } else {
        spelled_out(pieces.drop_last(), output) + (match pieces.last() {
            PieceModel::Literal(held) => held,
            PieceModel::Out => output,
        })
    }
}

proof fn one_piece_more(pieces: Seq<PieceModel>, piece: PieceModel, output: Seq<u8>)
    ensures
        spelled_out(pieces.push(piece), output) == spelled_out(pieces, output) + (match piece {
            PieceModel::Literal(held) => held,
            PieceModel::Out => output,
        }),
{
    assert(pieces.push(piece).drop_last() =~= pieces);
}

proof fn pieces_add_up(left: Seq<PieceModel>, right: Seq<PieceModel>, output: Seq<u8>)
    ensures
        spelled_out(left + right, output) == spelled_out(left, output) + spelled_out(right, output),
    decreases right.len(),
{
    if right.len() == 0 {
        assert(left + right =~= left);
        assert(spelled_out(left, output) + spelled_out(right, output) =~= spelled_out(
            left,
            output,
        ));
    } else {
        pieces_add_up(left, right.drop_last(), output);
        assert((left + right).drop_last() =~= left + right.drop_last());
        assert((left + right).last() == right.last());
        let last = match right.last() {
            PieceModel::Literal(held) => held,
            PieceModel::Out => output,
        };
        assert(spelled_out(left, output) + (spelled_out(right.drop_last(), output) + last)
            =~= spelled_out(left, output) + spelled_out(right.drop_last(), output) + last);
    }
}

/// Whether a rule binds a name to something that comes to a value for an output.
pub open spec fn binds(
    bindings: Seq<(usize, Seq<PieceModel>)>,
    name: usize,
    output: Seq<u8>,
    value: Seq<u8>,
) -> bool {
    exists|i: int|
        0 <= i < bindings.len() && (#[trigger] bindings[i]).0 == name && spelled_out(
            bindings[i].1,
            output,
        ) == value
}

/// Whether a rule leaves a name alone.
pub open spec fn leaves(bindings: Seq<(usize, Seq<PieceModel>)>, name: usize) -> bool {
    forall|i: int| 0 <= i < bindings.len() ==> (#[trigger] bindings[i]).0 != name
}

/// Whether the names rules bind are told apart.
pub open spec fn names_apart(names: Bindings) -> bool {
    &&& names.depfile != names.command && names.depfile != names.description && names.depfile
        != names.deps && names.depfile != names.generator && names.depfile != names.rspfile
        && names.depfile != names.rspfile_content && names.depfile != names.ignore_errors
    &&& names.ignore_errors != names.command && names.ignore_errors != names.description
        && names.ignore_errors != names.deps && names.ignore_errors != names.generator
        && names.ignore_errors != names.rspfile && names.ignore_errors != names.rspfile_content
    &&& names.rspfile != names.command && names.rspfile != names.description && names.rspfile
        != names.deps && names.rspfile != names.generator
    &&& names.description != names.command && names.description != names.deps
        && names.description != names.generator && names.description != names.rspfile_content
}

/// The file a script too long for an argument is read out of.
pub open spec fn script_file(sink: SinkModel, output: Seq<u8>) -> Seq<u8> {
    (if !sink.unit.root && sink.root_directory.len() > 0 {
        sink.root_directory + text("/")
    } else {
        Seq::empty()
    }) + output + text(".rsp")
}

/// What stands before a shell on a command line of a unit.
pub open spec fn entering(sink: SinkModel, rule: SinkRule) -> Seq<u8> {
    (if sink.unit.command_directory.len() > 0 {
        text("cd ") + shell_word(sink.unit.command_directory) + text(" && ")
    } else {
        Seq::empty()
    }) + text("exec ") + rule.environment@ + rule.shell_name@ + text(" ")
}

proof fn one_text(held: Seq<u8>, output: Seq<u8>)
    ensures
        spelled_out(seq![PieceModel::Literal(held)], output) == held,
{
    one_piece_more(Seq::empty(), PieceModel::Literal(held), output);
    assert(Seq::<PieceModel>::empty().push(PieceModel::Literal(held)) =~= seq![
        PieceModel::Literal(held),
    ]);
    assert(Seq::<u8>::empty() + held =~= held);
}

proof fn the_shell_is_entered(sink: SinkModel, rule: SinkRule, output: Seq<u8>)
    ensures
        spelled_out(
            seq![
                PieceModel::Literal(sink.prefix(rule.environment@)),
                PieceModel::Literal(rule.shell_name@),
                PieceModel::Literal(text(" ")),
            ],
            output,
        ) == entering(sink, rule),
{
    let first = seq![PieceModel::Literal(sink.prefix(rule.environment@))];
    let second = first.push(PieceModel::Literal(rule.shell_name@));
    one_text(sink.prefix(rule.environment@), output);
    one_piece_more(first, PieceModel::Literal(rule.shell_name@), output);
    one_piece_more(second, PieceModel::Literal(text(" ")), output);
    assert(second.push(PieceModel::Literal(text(" "))) =~= seq![
        PieceModel::Literal(sink.prefix(rule.environment@)),
        PieceModel::Literal(rule.shell_name@),
        PieceModel::Literal(text(" ")),
    ]);
}

proof fn the_script_file_is_spelled(sink: SinkModel, output: Seq<u8>)
    ensures
        spelled_out(
            sink.anchor() + seq![PieceModel::Out, PieceModel::Literal(text(".rsp"))],
            output,
        ) == script_file(sink, output),
{
    let anchor = sink.anchor();
    let tail = seq![PieceModel::Out, PieceModel::Literal(text(".rsp"))];
    pieces_add_up(anchor, tail, output);
    let out = Seq::<PieceModel>::empty().push(PieceModel::Out);
    one_piece_more(Seq::empty(), PieceModel::Out, output);
    one_piece_more(out, PieceModel::Literal(text(".rsp")), output);
    assert(out.push(PieceModel::Literal(text(".rsp"))) =~= tail);
    assert(Seq::<u8>::empty() + output =~= output);
    if !sink.unit.root && sink.root_directory.len() > 0 {
        let first = seq![PieceModel::Literal(sink.root_directory)];
        one_text(sink.root_directory, output);
        one_piece_more(first, PieceModel::Literal(text("/")), output);
        assert(first.push(PieceModel::Literal(text("/"))) =~= anchor);
    }
    assert(spelled_out(anchor, output) + (output + text(".rsp")) =~= script_file(sink, output));
}

/// A rule's command line enters the directory its makefile was read in and hands
/// the shell the script, or the file the script stands in: then the file is named
/// by its own binding under the same name the shell is given, and holds the
/// script.
pub proof fn a_rule_runs_its_script(
    sink: SinkModel,
    rule: SinkRule,
    command: SinkCommand,
    output: Seq<u8>,
)
    requires
        names_apart(sink.bindings),
    ensures
        ({
            let bindings = sink.command_bindings(rule, command);
            let line = entering(sink, rule);
            &&& !command.response_file ==> binds(
                bindings,
                sink.bindings.command,
                output,
                line + rule.shell_flags@ + text(" \"") + command.escaped@ + text("\""),
            ) && leaves(bindings, sink.bindings.rspfile)
            &&& command.response_file ==> binds(
                bindings,
                sink.bindings.command,
                output,
                line + (if rule.file_flags@.len() > 0 {
                    rule.file_flags@ + text(" ")
                } else {
                    Seq::empty()
                }) + script_file(sink, output),
            ) && binds(bindings, sink.bindings.rspfile, output, script_file(sink, output)) && binds(
                bindings,
                sink.bindings.rspfile_content,
                output,
                command.script@,
            )
        }),
{
    let bindings = sink.command_bindings(rule, command);
    let shell = seq![
        PieceModel::Literal(sink.prefix(rule.environment@)),
        PieceModel::Literal(rule.shell_name@),
        PieceModel::Literal(text(" ")),
    ];
    let line = entering(sink, rule);
    the_shell_is_entered(sink, rule, output);
    if command.response_file {
        let file = sink.anchor() + seq![PieceModel::Out, PieceModel::Literal(text(".rsp"))];
        the_script_file_is_spelled(sink, output);
        let flags = if rule.file_flags@.len() > 0 {
            seq![PieceModel::Literal(rule.file_flags@), PieceModel::Literal(text(" "))]
        } else {
            Seq::empty()
        };
        let spelled = if rule.file_flags@.len() > 0 {
            rule.file_flags@ + text(" ")
        } else {
            Seq::empty()
        };
        if rule.file_flags@.len() > 0 {
            let first = seq![PieceModel::Literal(rule.file_flags@)];
            one_text(rule.file_flags@, output);
            one_piece_more(first, PieceModel::Literal(text(" ")), output);
            assert(first.push(PieceModel::Literal(text(" "))) =~= flags);
        }
        assert(spelled_out(flags, output) == spelled);
        pieces_add_up(shell, flags, output);
        pieces_add_up(shell + flags, file, output);
        one_text(command.script@, output);
        assert(bindings[0].0 == sink.bindings.command);
        assert(spelled_out(bindings[0].1, output) == line + spelled + script_file(sink, output));
        assert(bindings[1].0 == sink.bindings.rspfile);
        assert(bindings[2].0 == sink.bindings.rspfile_content);
    } else {
        let first = seq![PieceModel::Literal(rule.shell_flags@)];
        let second = first.push(PieceModel::Literal(text(" \"")));
        let third = second.push(PieceModel::Literal(command.escaped@));
        let rest = seq![
            PieceModel::Literal(rule.shell_flags@),
            PieceModel::Literal(text(" \"")),
            PieceModel::Literal(command.escaped@),
            PieceModel::Literal(text("\"")),
        ];
        one_text(rule.shell_flags@, output);
        one_piece_more(first, PieceModel::Literal(text(" \"")), output);
        one_piece_more(second, PieceModel::Literal(command.escaped@), output);
        one_piece_more(third, PieceModel::Literal(text("\"")), output);
        assert(third.push(PieceModel::Literal(text("\""))) =~= rest);
        pieces_add_up(shell, rest, output);
        assert(bindings[0].0 == sink.bindings.command);
        assert(spelled_out(bindings[0].1, output) =~= line + rule.shell_flags@ + text(" \"")
            + command.escaped@ + text("\""));
    }
}

proof fn more_bindings_bind_as_much(
    few: Seq<(usize, Seq<PieceModel>)>,
    more: Seq<(usize, Seq<PieceModel>)>,
    all: Seq<(usize, Seq<PieceModel>)>,
    name: usize,
    output: Seq<u8>,
    value: Seq<u8>,
)
    requires
        all == few + more,
    ensures
        binds(few, name, output, value) || binds(more, name, output, value) ==> binds(
            all,
            name,
            output,
            value,
        ),
        leaves(few, name) && leaves(more, name) ==> leaves(all, name),
{
    if binds(few, name, output, value) {
        let i = choose|i: int|
            0 <= i < few.len() && (#[trigger] few[i]).0 == name && spelled_out(few[i].1, output)
                == value;
        assert(all[i] == few[i]);
    }
    if binds(more, name, output, value) {
        let i = choose|i: int|
            0 <= i < more.len() && (#[trigger] more[i]).0 == name && spelled_out(more[i].1, output)
                == value;
        assert(all[few.len() + i] == more[i]);
    }
    if leaves(few, name) && leaves(more, name) {
        assert forall|i: int| 0 <= i < all.len() implies (#[trigger] all[i]).0 != name by {
            if i < few.len() {
                assert(all[i] == few[i]);
            } else {
                assert(all[i] == more[i - few.len()]);
            }
        }
    }
}

/// The parts of what a rule binds besides its command.
spec fn described(sink: SinkModel, rule: SinkRule) -> Seq<(usize, Seq<PieceModel>)> {
    match maybe(rule.description) {
        Some(description) => seq![literally(sink.bindings.description, description)],
        None => Seq::empty(),
    }
}

spec fn depending(sink: SinkModel, rule: SinkRule) -> Seq<(usize, Seq<PieceModel>)> {
    match maybe(rule.depfile) {
        Some(depfile) => seq![
            literally(sink.bindings.depfile, sink.qualified(depfile)),
            literally(sink.bindings.deps, text("gcc")),
        ],
        None => Seq::empty(),
    }
}

spec fn forgiving(sink: SinkModel, ignore_errors: bool) -> Seq<(usize, Seq<PieceModel>)> {
    if ignore_errors {
        seq![literally(sink.bindings.ignore_errors, text("1"))]
    } else {
        Seq::empty()
    }
}

proof fn a_part_says_its_own(
    sink: SinkModel,
    rule: SinkRule,
    ignore_errors: bool,
    output: Seq<u8>,
)
    requires
        names_apart(sink.bindings),
    ensures
        rule.description matches Some(held) ==> binds(
            described(sink, rule),
            sink.bindings.description,
            output,
            held@,
        ),
        rule.description is None ==> leaves(described(sink, rule), sink.bindings.description),
        leaves(described(sink, rule), sink.bindings.depfile),
        leaves(described(sink, rule), sink.bindings.ignore_errors),
        rule.depfile matches Some(held) ==> binds(
            depending(sink, rule),
            sink.bindings.depfile,
            output,
            joined_path(sink.unit.path_prefix, held@),
        ) && binds(depending(sink, rule), sink.bindings.deps, output, text("gcc")),
        rule.depfile is None ==> leaves(depending(sink, rule), sink.bindings.depfile),
        leaves(depending(sink, rule), sink.bindings.ignore_errors),
        leaves(depending(sink, rule), sink.bindings.description),
        ignore_errors ==> binds(
            forgiving(sink, ignore_errors),
            sink.bindings.ignore_errors,
            output,
            text("1"),
        ),
        !ignore_errors ==> leaves(forgiving(sink, ignore_errors), sink.bindings.ignore_errors),
        leaves(forgiving(sink, ignore_errors), sink.bindings.depfile),
        leaves(forgiving(sink, ignore_errors), sink.bindings.description),
        binds(
            seq![literally(sink.bindings.generator, text("1"))],
            sink.bindings.generator,
            output,
            text("1"),
        ),
{
    one_text(text("1"), output);
    one_text(text("gcc"), output);
    let made = seq![literally(sink.bindings.generator, text("1"))];
    assert(made[0].0 == sink.bindings.generator);
    if let Some(held) = rule.description {
        one_text(held@, output);
        assert(described(sink, rule)[0].0 == sink.bindings.description);
    }
    if let Some(held) = rule.depfile {
        one_text(joined_path(sink.unit.path_prefix, held@), output);
        assert(depending(sink, rule)[0].0 == sink.bindings.depfile);
        assert(depending(sink, rule)[1].0 == sink.bindings.deps);
    }
    if ignore_errors {
        assert(forgiving(sink, ignore_errors)[0].0 == sink.bindings.ignore_errors);
    }
}

/// A rule that runs a recipe binds its command, its description where it has one,
/// the file its dependencies are left in where it leaves any, found from where
/// its makefile was read, and that its failure is forgiven where and only where
/// it is. Every such rule regenerates.
pub proof fn a_rule_binds_what_its_recipe_said(
    sink: SinkModel,
    rule: SinkRule,
    command: SinkCommand,
    ignore_errors: bool,
    output: Seq<u8>,
    line: Seq<u8>,
)
    requires
        names_apart(sink.bindings),
        binds(sink.command_bindings(rule, command), sink.bindings.command, output, line),
    ensures
        ({
            let all = sink.executor_bindings(rule, command, ignore_errors);
            let names = sink.bindings;
            &&& binds(all, names.command, output, line)
            &&& binds(all, names.generator, output, text("1"))
            &&& rule.description matches Some(held) ==> binds(
                all,
                names.description,
                output,
                held@,
            )
            &&& rule.description is None ==> leaves(all, names.description)
            &&& rule.depfile matches Some(held) ==> binds(
                all,
                names.depfile,
                output,
                joined_path(sink.unit.path_prefix, held@),
            ) && binds(all, names.deps, output, text("gcc"))
            &&& rule.depfile is None ==> leaves(all, names.depfile)
            &&& ignore_errors ==> binds(all, names.ignore_errors, output, text("1"))
            &&& !ignore_errors ==> leaves(all, names.ignore_errors)
        }),
{
    let names = sink.bindings;
    let ran = sink.command_bindings(rule, command);
    let made = seq![literally(names.generator, text("1"))];
    let first = ran + described(sink, rule);
    let second = first + made;
    let third = second + depending(sink, rule);
    let all = sink.executor_bindings(rule, command, ignore_errors);
    assert(all == third + forgiving(sink, ignore_errors));
    a_part_says_its_own(sink, rule, ignore_errors, output);
    assert(leaves(ran, names.description));
    assert(leaves(ran, names.depfile));
    assert(leaves(ran, names.ignore_errors));
    assert(leaves(made, names.description));
    assert(leaves(made, names.depfile));
    assert(leaves(made, names.ignore_errors));
    let found = match rule.depfile {
        Some(held) => joined_path(sink.unit.path_prefix, held@),
        None => Seq::empty(),
    };
    let said = match rule.description {
        Some(held) => held@,
        None => Seq::empty(),
    };
    carried_along(sink, rule, ran, made, ignore_errors, names.command, output, line);
    carried_along(sink, rule, ran, made, ignore_errors, names.generator, output, text("1"));
    carried_along(sink, rule, ran, made, ignore_errors, names.description, output, said);
    carried_along(sink, rule, ran, made, ignore_errors, names.depfile, output, found);
    carried_along(sink, rule, ran, made, ignore_errors, names.deps, output, text("gcc"));
    carried_along(sink, rule, ran, made, ignore_errors, names.ignore_errors, output, text("1"));
}

proof fn carried_along(
    sink: SinkModel,
    rule: SinkRule,
    ran: Seq<(usize, Seq<PieceModel>)>,
    made: Seq<(usize, Seq<PieceModel>)>,
    ignore_errors: bool,
    name: usize,
    output: Seq<u8>,
    value: Seq<u8>,
)
    ensures
        ({
            let all = ran + described(sink, rule) + made + depending(sink, rule) + forgiving(
                sink,
                ignore_errors,
            );
            &&& binds(ran, name, output, value) || binds(
                described(sink, rule),
                name,
                output,
                value,
            ) || binds(made, name, output, value) || binds(
                depending(sink, rule),
                name,
                output,
                value,
            ) || binds(forgiving(sink, ignore_errors), name, output, value) ==> binds(
                all,
                name,
                output,
                value,
            )
            &&& leaves(ran, name) && leaves(described(sink, rule), name) && leaves(made, name)
                && leaves(depending(sink, rule), name) && leaves(
                forgiving(sink, ignore_errors),
                name,
            ) ==> leaves(all, name)
        }),
{
    let first = ran + described(sink, rule);
    let second = first + made;
    let third = second + depending(sink, rule);
    let all = third + forgiving(sink, ignore_errors);
    more_bindings_bind_as_much(ran, described(sink, rule), first, name, output, value);
    more_bindings_bind_as_much(first, made, second, name, output, value);
    more_bindings_bind_as_much(second, depending(sink, rule), third, name, output, value);
    more_bindings_bind_as_much(third, forgiving(sink, ignore_errors), all, name, output, value);
}

/// A rule is defined in the scope of its unit under a number of its own, and the
/// edge that names it finds it. One whose recipe is not expanded yet runs nothing
/// that succeeds, and its recipe is kept for the edge.
pub proof fn a_declared_rule_is_found_by_its_number(sink: SinkModel, rule: SinkRule)
    requires
        sink.graph.rules.len() < usize::MAX,
    ensures
        ({
            let (after, why) = sink.with_executor_rule(rule);
            why is None ==> {
                &&& after.rules.dom().contains(rule.id)
                &&& after.rules[rule.id] == sink.graph.rules.len()
                &&& after.graph.rules.len() == sink.graph.rules.len() + 1
                &&& after.graph.rules.last().scope == sink.unit.scope
                &&& rule.deferred_recipe matches Some(recipe) ==> after.deferred_rules.dom().contains(
                    rule.id,
                ) && after.deferred_rules[rule.id] == recipe && binds(
                    after.graph.rules.last().bindings,
                    sink.bindings.command,
                    Seq::empty(),
                    text("false"),
                )
                &&& rule.deferred_recipe is None ==> after.graph.rules.last().bindings
                    == sink.executor_bindings(rule, rule.command, rule.ignore_errors)
                    && after.deferred_rules == sink.deferred_rules
                &&& forall|other: usize|
                    other != rule.id && #[trigger] sink.rules.dom().contains(other)
                        ==> after.rules.dom().contains(other) && after.rules[other]
                        == sink.rules[other]
                &&& after.graph.edges == sink.graph.edges
                &&& after.graph.nodes == sink.graph.nodes
            }
        }),
{
    one_text(text("false"), Seq::empty());
    assert(sink.deferred_bindings()[0].0 == sink.bindings.command);
}

/// Of a recursive rule, what is left behind its last invocation and what stands
/// before each are rules of their own, and there is one exactly where there are
/// such lines.
pub proof fn the_lines_around_invocations_are_rules(sink: SinkModel, rule: SinkRule)
    ensures
        sink.with_recursive(rule).1 matches Ok(places) ==> {
            &&& places.0 is Some <==> rule.residual_command is Some
            &&& places.1.len() == rule.subninjas@.len()
            &&& forall|i: int|
                0 <= i < rule.subninjas@.len() ==> ((#[trigger] places.1[i]) is Some
                    <==> rule.subninjas@[i].preceding is Some)
        },
{
    let (first, residual) = sink.with_residual(rule);
    if residual is Ok {
        each_stretch_before_is_a_rule(first, rule, rule.subninjas@.len() as int);
    }
}

proof fn each_stretch_before_is_a_rule(sink: SinkModel, rule: SinkRule, count: int)
    requires
        0 <= count <= rule.subninjas@.len(),
    ensures
        sink.with_preceding(rule, count).1 matches Ok(places) ==> places.len() == count && forall|
            i: int,
        |
            0 <= i < count ==> ((#[trigger] places[i]) is Some
                <==> rule.subninjas@[i].preceding is Some),
    decreases count,
{
    if count > 0 {
        each_stretch_before_is_a_rule(sink, rule, count - 1);
    }
}

/// A recursive rule is held with an invocation for each of its own, in their order
/// and each under the rule's shell, with the lines before it and behind the last
/// where there are such lines.
pub proof fn a_recursive_rule_is_held_as_declared(
    sink: GraphSink,
    held: SubninjaRule,
    rule: SinkRule,
    residual: Option<usize>,
    preceding: Seq<Option<usize>>,
)
    requires
        sink.recursive_is(held, rule, residual, preceding),
    ensures
        held.invocations@.len() == rule.subninjas@.len(),
        held.residual_rule == residual,
        held.residual_script is Some <==> rule.residual_command is Some,
        held.diagnostic_command@ == rule.command.script@,
        forall|i: int|
            0 <= i < held.invocations@.len() ==> {
                &&& (#[trigger] held.invocations@[i]).command@ == rule.subninjas@[i].command@
                &&& held.invocations@[i].make@ == rule.subninjas@[i].make@
                &&& held.invocations@[i].shell@ == rule.shell@
                &&& held.invocations@[i].shell_flags@ == rule.shell_flags@
                &&& held.invocations@[i].preceding_rule == preceding[i]
                &&& held.invocations@[i].preceding_script is Some
                    <==> rule.subninjas@[i].preceding is Some
            },
{
    assert forall|i: int| 0 <= i < held.invocations@.len() implies {
        &&& (#[trigger] held.invocations@[i]).command@ == rule.subninjas@[i].command@
        &&& held.invocations@[i].make@ == rule.subninjas@[i].make@
        &&& held.invocations@[i].shell@ == rule.shell@
        &&& held.invocations@[i].shell_flags@ == rule.shell_flags@
        &&& held.invocations@[i].preceding_rule == preceding[i]
        &&& held.invocations@[i].preceding_script is Some
            <==> rule.subninjas@[i].preceding is Some
    } by {
        assert(sink.invocation_is(
            held.invocations@[i],
            rule,
            rule.subninjas@[i],
            preceding[i],
        ));
    }
}

/// A stretch of a recipe is launched line by line where there are lines and none is
/// too long to be an argument, and as a whole otherwise; as a whole it runs in the
/// directory of its unit, and is forgiven as it was said to be.
pub proof fn a_stretch_is_launched_by_its_lines(
    sink: GraphSink,
    segment: SettledSegment,
    rule: SinkRule,
    command: SinkCommand,
    steps: Seq<SpelledStep>,
    ignore_errors: bool,
)
    requires
        sink.segment_is(segment, rule, command, steps, ignore_errors),
    ensures
        segment is Steps <==> steps.len() > 0 && forall|i: int|
            0 <= i < steps.len() ==> (#[trigger] steps[i]).step.text@.len() <= 100_000,
        segment matches SettledSegment::Script(script) ==> script.ignore_errors == ignore_errors
            && script.layout.command_directory@ == sink.unit.command_directory@ && script.shell@
            == rule.shell@ && (script.script is None <==> command.response_file),
{
}

} // verus!
