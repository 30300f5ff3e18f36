//! What a write to `MAKEFLAGS` settles, what a binding is worth, and what keys and
//! environments hold.

use crate::bytes::{after_prefix, text};
use crate::command::{decoded, split_write, undebugged, unknown_style, write_read};
use crate::describing::{edge_binding, edge_value, filled, out_text, rule_binding};
use crate::graph::{pool_at, EdgeModel, GraphModel, PieceModel, PoolModel};
use crate::hearing::{a_short_word, a_short_word_is_a_cluster, going_on_is_taken_back};
use crate::invocation::{nothing_asked, Around, Settings};
use crate::options::{ArgumentSource, Switch};
use crate::order::Holds;
use crate::parsing::{attached_read, cluster_read, read_on, words_read};
use crate::reading::dashed_letter;
use crate::ruling::spelled_out;
use crate::shell::{
    environment_key, key_of, makefile_keys, recipe_environment_key, unended, with_change,
    without_zeros,
};
use crate::sink::{SinkModel, SinkPool};
use vstd::prelude::*;
use vstd::string::*;

verus! {

/// A write to `MAKEFLAGS` goes over the switches as they stood, and what is
/// protected goes over both; the names it binds are its own. A part that cannot be
/// read fails the whole, the earliest first.
pub proof fn what_is_protected_has_the_last_word(
    previous: Seq<u8>,
    assigned: Seq<u8>,
    protected: Seq<u8>,
    around: Around,
)
    ensures
        ({
            let first = write_read(nothing_asked(around), previous, ArgumentSource::Makefile);
            first matches Err(why) ==> decoded(previous, assigned, protected, around) == Err::<
                (Settings, Seq<Seq<u8>>),
                Seq<u8>,
            >(why)
        }),
        ({
            let first = write_read(nothing_asked(around), previous, ArgumentSource::Makefile);
            first matches Ok(stood) ==> ({
                let second = write_read(stood.0, assigned, ArgumentSource::Makefile);
                &&& second matches Err(why) ==> decoded(previous, assigned, protected, around)
                    == Err::<(Settings, Seq<Seq<u8>>), Seq<u8>>(why)
                &&& second matches Ok(written) ==> ({
                    let third = write_read(written.0, protected, ArgumentSource::Protection);
                    &&& third matches Err(why) ==> decoded(previous, assigned, protected, around)
                        == Err::<(Settings, Seq<Seq<u8>>), Seq<u8>>(why)
                    &&& third matches Ok(kept) ==> unknown_style(undebugged(kept.0)) is None
                        ==> decoded(previous, assigned, protected, around) == Ok::<
                        (Settings, Seq<Seq<u8>>),
                        Seq<u8>,
                    >((undebugged(kept.0), written.1))
                    &&& third matches Ok(kept) ==> (unknown_style(undebugged(kept.0)) matches Some(
                        wrong,
                    ) ==> decoded(previous, assigned, protected, around) == Err::<
                        (Settings, Seq<Seq<u8>>),
                        Seq<u8>,
                    >(wrong))
                })
            })
        }),
{
}

/// The words of a write that bind a name are those with an equals sign that do not
/// begin with a dash; the others are read as options behind the program's name.
pub proof fn a_write_is_split_by_what_binds(words: Seq<Seq<u8>>, count: int)
    requires
        0 <= count <= words.len(),
    ensures
        split_write(words, count) matches Some(split) ==> {
            &&& split.0.len() > 0
            &&& split.0[0] == text("make")
            &&& split.0.len() + split.1.len() <= count + 1
            &&& forall|i: int|
                0 <= i < split.1.len() ==> (#[trigger] split.1[i]).contains(0x3d) && (
                split.1[i].len() > 0 ==> split.1[i][0] != 0x2d)
            &&& forall|i: int|
                0 <= i < split.1.len() ==> words.contains(#[trigger] split.1[i])
        },
    decreases count,
{
    if count > 0 {
        a_write_is_split_by_what_binds(words, count - 1);
        assert(words.contains(words[count - 1]));
    }
}

/// A pool that is declared has the depth it was declared with, no depth bounding
/// nothing; one that is there already is refused.
pub proof fn a_pool_is_as_deep_as_declared(sink: SinkModel, name: Seq<u8>, depth: usize)
    requires
        sink.graph.pools.len() < usize::MAX,
    ensures
        ({
            let (after, why) = sink.with_sink_pool(name, depth);
            &&& why is None <==> pool_at(sink.graph.pools, name, 0) >= sink.graph.pools.len()
            &&& why is None ==> {
                &&& after.graph.pools.len() == sink.graph.pools.len() + 1
                &&& after.graph.pools.last().name == name
                &&& after.graph.pools.last().depth == (if depth > 0 {
                    Some(depth)
                } else {
                    None
                })
                &&& forall|i: int|
                    0 <= i < sink.graph.pools.len() ==> #[trigger] after.graph.pools[i]
                        == sink.graph.pools[i]
                &&& after.unit == sink.unit
                &&& after.declared_pools == sink.declared_pools.push(name)
            }
        }),
{
}

proof fn pools_keep_the_unit(sink: SinkModel, pools: Seq<SinkPool>, count: int)
    ensures
        sink.with_sink_pools(pools, count).0.unit == sink.unit,
    decreases count,
{
    if count > 0 {
        pools_keep_the_unit(sink, pools, count - 1);
    }
}

/// A unit whose makefiles say not to run two at once has a pool of its own that
/// runs one, and a unit with a budget has a pool of that depth.
pub proof fn a_serial_unit_runs_one_at_a_time(sink: SinkModel, pools: Seq<SinkPool>)
    requires
        sink.with_sink_pools(pools, pools.len() as int).0.graph.pools.len() < usize::MAX - 1,
    ensures
        ({
            let (after, why) = sink.with_start(pools);
            let first = sink.with_sink_pools(pools, pools.len() as int).0;
            &&& why is None && sink.unit.job_pool is None ==> (sink.unit.serial_pool matches Some(
                name,
            ) ==> after.graph.pools.last() == (PoolModel { name, depth: Some(1) }))
            &&& why is None && sink.unit.serial_pool is None ==> (sink.unit.job_pool matches Some(
                pool,
            ) ==> !first.declared_pools.contains(pool.0) && pool.1 > 0
                ==> after.graph.pools.last() == (PoolModel { name: pool.0, depth: Some(pool.1) }))
        }),
{
    pools_keep_the_unit(sink, pools, pools.len() as int);
    let first = sink.with_sink_pools(pools, pools.len() as int).0;
    if let Some(name) = sink.unit.serial_pool {
        a_pool_is_as_deep_as_declared(first, name, 1);
    }
    if let Some(pool) = sink.unit.job_pool {
        a_pool_is_as_deep_as_declared(first, pool.0, pool.1);
    }
}

/// An edge's own value for a binding outranks its rule's, of several the last
/// counts, and a rule's is written out with the edge's outputs in it.
pub proof fn an_edges_own_binding_outranks_its_rules(
    graph: GraphModel,
    edge: EdgeModel,
    own: Seq<(usize, Seq<u8>)>,
    binding: usize,
    value: Seq<u8>,
    for_shell: bool,
)
    ensures
        edge.declared.bindings == own.push((binding, value)) ==> edge_value(
            graph,
            edge,
            binding,
            for_shell,
        ) == Some(value),
        edge_binding(edge.declared.bindings, binding) is None ==> (rule_binding(
            graph.rules[edge.declared.rule as int].bindings,
            binding,
        ) matches Some(template) ==> edge_value(graph, edge, binding, for_shell) == Some(
            spelled_out(template, out_text(graph, edge, for_shell)),
        )),
        edge_binding(edge.declared.bindings, binding) is None && rule_binding(
            graph.rules[edge.declared.rule as int].bindings,
            binding,
        ) is None ==> edge_value(graph, edge, binding, for_shell) is None,
        edge_binding(Seq::empty(), binding) is None,
        rule_binding(Seq::empty(), binding) is None,
{
    if let Some(template) = rule_binding(
        graph.rules[edge.declared.rule as int].bindings,
        binding,
    ) {
        filled_is_spelled_out(template, out_text(graph, edge, for_shell));
    }
}

proof fn filled_is_spelled_out(pieces: Seq<PieceModel>, output: Seq<u8>)
    ensures
        filled(pieces, output) == spelled_out(pieces, output),
    decreases pieces.len(),
{
    if pieces.len() > 0 {
        filled_is_spelled_out(pieces.drop_last(), output);
    }
}

/// A key holds where a unit is read, every makefile it is read over, in their
/// order, and the switches, with a zero byte before each.
pub proof fn a_key_holds_every_makefile(
    directory: Seq<u8>,
    makefiles: Seq<Seq<u8>>,
    last: Seq<u8>,
    makeflags: Seq<u8>,
)
    ensures
        makefile_keys(directory, makefiles.push(last)) == makefile_keys(directory, makefiles)
            + seq![0u8] + last,
        makefile_keys(directory, Seq::empty()) == directory,
        key_of(directory, makefiles, makeflags) == makefile_keys(directory, makefiles) + seq![0u8]
            + makeflags,
{
    assert(makefiles.push(last).drop_last() =~= makefiles);
    assert(makefile_keys(directory, makefiles).push(0) =~= makefile_keys(directory, makefiles)
        + seq![0u8]);
}

/// An environment's key holds every name with its value, and a name that is taken
/// away under a value no text has.
pub proof fn a_key_holds_every_variable(
    environment: Seq<(Seq<u8>, Seq<u8>)>,
    changes: Seq<(Seq<u8>, Option<Seq<u8>>)>,
    name: Seq<u8>,
    value: Seq<u8>,
)
    ensures
        environment_key(environment.push((name, value))) == environment_key(environment)
            + seq![0u8] + name + seq![0x3du8] + value,
        recipe_environment_key(changes.push((name, Some(value)))) == recipe_environment_key(
            changes,
        ) + seq![0u8] + name + seq![0x3du8] + value,
        recipe_environment_key(changes.push((name, None))) == recipe_environment_key(changes)
            + seq![0u8] + name + seq![0x3du8] + seq![0xffu8],
        environment_key(Seq::empty()).len() == 0,
        recipe_environment_key(Seq::empty()).len() == 0,
{
    assert(environment.push((name, value)).drop_last() =~= environment);
    assert(changes.push((name, Some(value))).drop_last() =~= changes);
    assert(changes.push((name, None)).drop_last() =~= changes);
    assert(environment_key(environment).push(0) =~= environment_key(environment) + seq![0u8]);
    assert(recipe_environment_key(changes).push(0) =~= recipe_environment_key(changes)
        + seq![0u8]);
}

/// What a command wrote stands without the line ends it closes with and without
/// zeros, and otherwise as it was written.
pub proof fn output_is_taken_without_its_line_ends(written: Seq<u8>)
    ensures
        unended(written.push(0x0a)) == unended(written),
        unended(written).len() > 0 ==> unended(written).last() != 0x0a,
        written.len() > 0 && written.last() != 0x0a ==> unended(written) == written,
        forall|i: int|
            0 <= i < without_zeros(written).len() ==> #[trigger] without_zeros(written)[i] != 0,
        (forall|i: int| 0 <= i < written.len() ==> #[trigger] written[i] != 0) ==> without_zeros(
            written,
        ) == written,
    decreases written.len(),
{
    assert(written.push(0x0a).drop_last() =~= written);
    if written.len() > 0 {
        output_is_taken_without_its_line_ends(written.drop_last());
        assert(written.drop_last().push(written.last()) =~= written);
        let less = without_zeros(written.drop_last());
        assert forall|i: int| 0 <= i < without_zeros(written).len() implies
            #[trigger] without_zeros(written)[i] != 0 by {
            if i < less.len() {
                assert(less[i] == without_zeros(written)[i]);
            }
        }
        if forall|i: int| 0 <= i < written.len() ==> #[trigger] written[i] != 0 {
            assert forall|i: int| 0 <= i < written.drop_last().len() implies
                #[trigger] written.drop_last()[i] != 0 by {
                assert(written.drop_last()[i] == written[i]);
            }
            assert(written[written.len() - 1] != 0);
        }
    } else {
        assert(without_zeros(written) =~= written);
    }
}

proof fn a_change_is_taken_after_the_rest(
    environment: Seq<(Seq<u8>, Option<Seq<u8>>)>,
    name: Seq<u8>,
    value: Option<Seq<u8>>,
)
    requires
        environment.len() > 0,
    ensures
        with_change(environment, name, value) == (if environment.last().0 != name {
            with_change(environment.drop_last(), name, value).drop_last().push(
                environment.last(),
            ).push((name, value))
        } else {
            with_change(environment.drop_last(), name, value)
        }),
{
    reveal(Seq::filter);
    let less = with_change(environment.drop_last(), name, value);
    let more = with_change(environment, name, value);
    assert(less.drop_last().push((name, value)) =~= less);
    if environment.last().0 != name {
        assert(more =~= less.drop_last().push(environment.last()).push((name, value)));
    } else {
        assert(more =~= less);
    }
}

/// A change to an environment is the only one to its name and the last of all, and
/// leaves every other as it was.
pub proof fn a_change_is_the_last_word(
    environment: Seq<(Seq<u8>, Option<Seq<u8>>)>,
    name: Seq<u8>,
    value: Option<Seq<u8>>,
)
    ensures
        ({
            let changed = with_change(environment, name, value);
            &&& changed.len() > 0
            &&& changed.last() == (name, value)
            &&& forall|i: int| 0 <= i < changed.len() - 1 ==> (#[trigger] changed[i]).0 != name
            &&& forall|i: int|
                0 <= i < changed.len() - 1 ==> environment.contains(#[trigger] changed[i])
            &&& forall|at: int|
                0 <= at < environment.len() && environment[at].0 != name ==> changed.contains(
                    #[trigger] environment[at],
                )
        }),
    decreases environment.len(),
{
    let changed = with_change(environment, name, value);
    if environment.len() == 0 {
        reveal(Seq::filter);
        assert(changed.len() == 1);
    } else {
        let before = environment.drop_last();
        let less = with_change(before, name, value);
        a_change_is_the_last_word(before, name, value);
        a_change_is_taken_after_the_rest(environment, name, value);
        assert forall|i: int| 0 <= i < changed.len() - 1 implies environment.contains(
            #[trigger] changed[i],
        ) by {
            if environment.last().0 != name && i == changed.len() - 2 {
                assert(environment[environment.len() - 1] == changed[i]);
            } else {
                assert(less[i] == changed[i]);
                let at = choose|at: int| 0 <= at < before.len() && before[at] == less[i];
                assert(environment[at] == changed[i]);
            }
        }
        assert forall|i: int| 0 <= i < changed.len() - 1 implies (#[trigger] changed[i]).0
            != name by {
            if environment.last().0 != name && i == changed.len() - 2 {
            } else {
                assert(less[i] == changed[i]);
            }
        }
        assert forall|at: int| 0 <= at < environment.len() && environment[at].0 != name implies
            changed.contains(#[trigger] environment[at]) by {
            if at == environment.len() - 1 {
                assert(changed[changed.len() - 2] == environment[at]);
            } else {
                assert(before[at] == environment[at]);
                let i = choose|i: int| 0 <= i < less.len() && less[i] == before[at];
                assert(i < less.len() - 1);
                assert(changed[i] == environment[at]);
            }
        }
    }
}

/// A recipe is left alone where it reads one that is held, or where nothing is
/// known of what it reads and anything is held; otherwise it is carried.
pub proof fn a_recipe_waits_for_what_is_held(holds: Holds, place: int, read: int)
    requires
        holds.wf(),
        0 <= place < holds.held@.len(),
        0 <= read < holds.read_off@[place]@.len(),
    ensures
        holds.held@[holds.read_off@[place]@[read] as int] ==> holds.waits(place),
        (forall|i: int| 0 <= i < holds.held@.len() ==> !#[trigger] holds.held@[i]) ==> !holds.waits(
            place,
        ),
        holds.any && !holds.batched ==> holds.waits(place),
        holds.batched && (forall|i: int|
            0 <= i < holds.read_off@[place]@.len()
                ==> !holds.held@[#[trigger] holds.read_off@[place]@[i] as int]) ==> !holds.waits(
            place,
        ),
{
    let other = holds.read_off@[place]@[read];
    assert(crate::graph::below(holds.read_off@[place]@, holds.held@.len()));
    if holds.held@[other as int] {
        assert(holds.held@[other as int]);
        assert(holds.any);
    }
}

/// What the names of the options with a value begin with, apart from one another.
proof fn valued_bytes()
    ensures
        text("--file=").len() == 7,
        text("--file=")[2] == 0x66,
        text("--makefile=").len() == 11,
        text("--makefile=")[2] == 0x6d,
        text("--directory=").len() == 12,
        text("--directory=")[2] == 0x64,
        text("--include-dir=").len() == 14,
        text("--include-dir=")[2] == 0x69,
        text("--what-if=").len() == 10,
        text("--what-if=")[2] == 0x77,
        text("--new-file=").len() == 11,
        text("--new-file=")[2] == 0x6e,
        text("--assume-new=").len() == 13,
        text("--assume-new=")[2] == 0x61,
        text("--eval=").len() == 7,
        text("--eval=")[2] == 0x65,
{
    reveal_strlit("--file=");
    is_ascii_spec_bytes("--file=");
    reveal_strlit("--makefile=");
    is_ascii_spec_bytes("--makefile=");
    reveal_strlit("--directory=");
    is_ascii_spec_bytes("--directory=");
    reveal_strlit("--include-dir=");
    is_ascii_spec_bytes("--include-dir=");
    reveal_strlit("--what-if=");
    is_ascii_spec_bytes("--what-if=");
    reveal_strlit("--new-file=");
    is_ascii_spec_bytes("--new-file=");
    reveal_strlit("--assume-new=");
    is_ascii_spec_bytes("--assume-new=");
    reveal_strlit("--eval=");
    is_ascii_spec_bytes("--eval=");
}

/// A word that differs from a prefix at one place does not begin with it.
proof fn parted(word: Seq<u8>, prefix: Seq<u8>, at: int)
    requires
        0 <= at < prefix.len(),
        at < word.len(),
        word[at] != prefix[at],
    ensures
        after_prefix(word, prefix) is None,
{
    if prefix.len() <= word.len() {
        assert(word.subrange(0, prefix.len() as int)[at] == word[at]);
    }
}

/// What stands behind a prefix is what was put there.
proof fn put_behind(prefix: Seq<u8>, value: Seq<u8>)
    ensures
        after_prefix(prefix + value, prefix) == Some(value),
{
    assert((prefix + value).subrange(0, prefix.len() as int) =~= prefix);
    assert((prefix + value).skip(prefix.len() as int) =~= value);
}

/// The letter that asks for what a long name with a value does.
pub open spec fn letter_of(name: Seq<u8>) -> u8 {
    if name == text("--directory=") {
        0x43
    } else if name == text("--include-dir=") {
        0x49
    } else if name == text("--eval=") {
        0x45
    } else if name == text("--file=") || name == text("--makefile=") {
        0x66
    } else {
        0x57
    }
}

/// What an option with a value asks for, by its letter.
pub open spec fn asked_by_letter(
    settings: Settings,
    source: ArgumentSource,
    letter: u8,
    value: Seq<u8>,
) -> Settings {
    if letter == 0x43 {
        settings.with_directory(source, value)
    } else if letter == 0x49 {
        settings.with_include_dir(source, value)
    } else if letter == 0x45 {
        settings.with_eval(source, value)
    } else if letter == 0x66 {
        settings.with_makefile(source, value)
    } else {
        settings.with_assumed_new(source, value)
    }
}

proof fn a_letter_asks(
    settings: Settings,
    source: ArgumentSource,
    letter: u8,
    value: Seq<u8>,
    arguments: Seq<Seq<u8>>,
    at: int,
)
    requires
        value.len() > 0,
        letter == 0x43 || letter == 0x49 || letter == 0x45 || letter == 0x66 || letter == 0x57,
    ensures
        cluster_read(settings, source, dashed_letter(letter) + value, arguments, at, 1) == read_on(
            asked_by_letter(settings, source, letter, value),
            at,
        ),
{
    let short = dashed_letter(letter) + value;
    assert(short[1] == letter);
    assert(short.skip(2) =~= value);
}

/// The prefixes a word is looked for, where its third byte is another.
proof fn other_names_are_not_there(word: Seq<u8>)
    requires
        word.len() > 2,
    ensures
        word[2] != 0x66 ==> after_prefix(word, text("--file=")) is None,
        word[2] != 0x6d ==> after_prefix(word, text("--makefile=")) is None,
        word[2] != 0x64 ==> after_prefix(word, text("--directory=")) is None,
        word[2] != 0x69 ==> after_prefix(word, text("--include-dir=")) is None,
        word[2] != 0x77 ==> after_prefix(word, text("--what-if=")) is None,
        word[2] != 0x6e ==> after_prefix(word, text("--new-file=")) is None,
        word[2] != 0x61 ==> after_prefix(word, text("--assume-new=")) is None,
        word[2] != 0x65 ==> after_prefix(word, text("--eval=")) is None,
{
    valued_bytes();
    if word[2] != 0x66 {
        parted(word, text("--file="), 2);
    }
    if word[2] != 0x6d {
        parted(word, text("--makefile="), 2);
    }
    if word[2] != 0x64 {
        parted(word, text("--directory="), 2);
    }
    if word[2] != 0x69 {
        parted(word, text("--include-dir="), 2);
    }
    if word[2] != 0x77 {
        parted(word, text("--what-if="), 2);
    }
    if word[2] != 0x6e {
        parted(word, text("--new-file="), 2);
    }
    if word[2] != 0x61 {
        parted(word, text("--assume-new="), 2);
    }
    if word[2] != 0x65 {
        parted(word, text("--eval="), 2);
    }
}

proof fn a_long_name_asks(
    settings: Settings,
    source: ArgumentSource,
    name: Seq<u8>,
    value: Seq<u8>,
    arguments: Seq<Seq<u8>>,
    at: int,
)
    requires
        name == text("--file=") || name == text("--makefile=") || name == text("--directory=")
            || name == text("--include-dir=") || name == text("--eval=") || name == text(
            "--what-if=",
        ) || name == text("--new-file=") || name == text("--assume-new="),
    ensures
        attached_read(settings, source, name + value, arguments, at) == Some(
            read_on(asked_by_letter(settings, source, letter_of(name), value), at),
        ),
{
    reveal(attached_read);
    valued_bytes();
    put_behind(name, value);
    let word = name + value;
    assert(word[2] == name[2]);
    other_names_are_not_there(word);
}

/// A long name with a value behind its equals sign asks for what its letter does:
/// `--directory` for what `-C`, `--file` and `--makefile` for what `-f`,
/// `--include-dir` for what `-I`, `--eval` for what `-E`, and `--what-if`,
/// `--new-file` and `--assume-new` for what `-W`.
pub proof fn a_long_name_asks_for_what_its_letter_does(
    settings: Settings,
    source: ArgumentSource,
    name: Seq<u8>,
    value: Seq<u8>,
    arguments: Seq<Seq<u8>>,
    at: int,
)
    requires
        value.len() > 0,
        name == text("--file=") || name == text("--makefile=") || name == text("--directory=")
            || name == text("--include-dir=") || name == text("--eval=") || name == text(
            "--what-if=",
        ) || name == text("--new-file=") || name == text("--assume-new="),
    ensures
        attached_read(settings, source, name + value, arguments, at) == Some(
            cluster_read(
                settings,
                source,
                dashed_letter(letter_of(name)) + value,
                arguments,
                at,
                1,
            ),
        ),
{
    a_long_name_asks(settings, source, name, value, arguments, at);
    a_letter_asks(settings, source, letter_of(name), value, arguments, at);
}

/// `-S`, `--no-keep-going` and `--stop` all take back what `-k` asked for, wherever
/// they stand, and nothing else.
pub proof fn keeping_going_is_taken_back(
    settings: Settings,
    source: ArgumentSource,
    arguments: Seq<Seq<u8>>,
    at: int,
)
    requires
        0 <= at < arguments.len(),
        settings.bad is None,
        arguments[at] == dashed_letter(0x53) || arguments[at] == text("--no-keep-going")
            || arguments[at] == text("--stop"),
    ensures
        words_read(settings, source, arguments, at, true) == words_read(
            Settings {
                given: settings.given.remove(Switch::KeepGoing),
                refused: settings.refused.insert(Switch::KeepGoing),
                ..settings
            },
            source,
            arguments,
            at + 1,
            true,
        ),
{
    let word = arguments[at];
    if word == dashed_letter(0x53) {
        a_short_word(word);
        a_short_word_is_a_cluster(settings, source, arguments, at);
        assert(word[1] == 0x53);
        reveal_with_fuel(cluster_read, 2);
    } else {
        going_on_is_taken_back();
    }
}

} // verus!
