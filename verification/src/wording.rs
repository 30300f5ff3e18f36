//! How a recursive recipe's command line is read as words.

use crate::shell::{closing, reading, words_of, Quote, Reading};
use vstd::prelude::*;

verus! {

/// A byte that stands for itself outside every quote: no blank, no quote, no
/// backslash, and nothing a shell reads a meaning into.
pub open spec fn plain_byte(byte: u8) -> bool {
    &&& byte != 0x20 && byte != 0x09 && byte != 0x0a && byte != 0x0c && byte != 0x0d
    &&& byte != 0x22 && byte != 0x27 && byte != 0x5c
    &&& !shell_byte(byte)
}

/// The bytes a shell reads a meaning into: the ones that join and redirect
/// commands, group them, expand, match, and begin a comment or a home.
pub open spec fn shell_byte(byte: u8) -> bool {
    // | & ; < >
    ||| byte == 0x7c || byte == 0x26 || byte == 0x3b || byte == 0x3c || byte == 0x3e
    // ( ) { }
    ||| byte == 0x28 || byte == 0x29 || byte == 0x7b || byte == 0x7d
    // $ `
    ||| byte == 0x24 || byte == 0x60
    // * ? [ ]
    ||| byte == 0x2a || byte == 0x3f || byte == 0x5b || byte == 0x5d
    // ~ #
    ||| byte == 0x7e || byte == 0x23
}

/// Whether every byte stands for itself.
pub open spec fn plain(word: Seq<u8>) -> bool {
    forall|i: int| 0 <= i < word.len() ==> plain_byte(#[trigger] word[i])
}

/// A run of plain bytes is read onto the word it stands in.
proof fn a_plain_run_is_read(
    command: Seq<u8>,
    at: int,
    end: int,
    word: Seq<u8>,
    words: Seq<Seq<u8>>,
    outputs: Option<Seq<Seq<u8>>>,
    used: int,
)
    requires
        0 <= at <= end <= command.len(),
        forall|i: int| at <= i < end ==> plain_byte(#[trigger] command[i]),
    ensures
        reading(command, at, None, word, words, outputs, used) == reading(
            command,
            end,
            None,
            word + command.subrange(at, end),
            words,
            outputs,
            used,
        ),
    decreases end - at,
{
    if at < end {
        assert(plain_byte(command[at]));
        a_plain_run_is_read(command, at + 1, end, word.push(command[at]), words, outputs, used);
        assert(word.push(command[at]) + command.subrange(at + 1, end) =~= word + command.subrange(
            at,
            end,
        ));
    } else {
        assert(word + command.subrange(at, end) =~= word);
    }
}

/// What stands inside quotes is read onto the word as it stands: every byte between
/// single quotes, and between double ones every byte but those that still mean
/// something there.
proof fn a_quoted_run_is_read(
    command: Seq<u8>,
    at: int,
    end: int,
    quote: Quote,
    word: Seq<u8>,
    words: Seq<Seq<u8>>,
    outputs: Option<Seq<Seq<u8>>>,
    used: int,
)
    requires
        0 <= at <= end <= command.len(),
        quote == Quote::Single || quote == Quote::Double,
        quote == Quote::Single ==> forall|i: int| at <= i < end ==> #[trigger] command[i] != 0x27,
        quote == Quote::Double ==> forall|i: int|
            at <= i < end ==> #[trigger] command[i] != 0x22 && command[i] != 0x5c && command[i]
                != 0x24 && command[i] != 0x60,
    ensures
        reading(command, at, Some(quote), word, words, outputs, used) == reading(
            command,
            end,
            Some(quote),
            word + command.subrange(at, end),
            words,
            outputs,
            used,
        ),
    decreases end - at,
{
    if at < end {
        a_quoted_run_is_read(
            command,
            at + 1,
            end,
            quote,
            word.push(command[at]),
            words,
            outputs,
            used,
        );
        assert(word.push(command[at]) + command.subrange(at + 1, end) =~= word + command.subrange(
            at,
            end,
        ));
    } else {
        assert(word + command.subrange(at, end) =~= word);
    }
}

/// A word of plain bytes is read as itself, and two with a blank between them as
/// two.
pub proof fn plain_words_are_read_as_they_stand(
    first: Seq<u8>,
    second: Seq<u8>,
    outputs: Option<Seq<Seq<u8>>>,
)
    requires
        first.len() > 0,
        second.len() > 0,
        plain(first),
        plain(second),
    ensures
        words_of(first, outputs) == Reading::Words(seq![first]),
        words_of(first + seq![0x20u8] + second, outputs) == Reading::Words(seq![first, second]),
{
    let none = Seq::<Seq<u8>>::empty();
    let end = first.len() as int;
    a_plain_run_is_read(first, 0, end, Seq::empty(), none, outputs, 0);
    assert(Seq::<u8>::empty() + first.subrange(0, end) =~= first);
    assert(none.push(first) =~= seq![first]);
    let both = first + seq![0x20u8] + second;
    assert forall|i: int| 0 <= i < end implies plain_byte(#[trigger] both[i]) by {
        assert(both[i] == first[i]);
    }
    a_plain_run_is_read(both, 0, end, Seq::empty(), none, outputs, 0);
    assert(Seq::<u8>::empty() + both.subrange(0, end) =~= first);
    assert(both[end] == 0x20);
    let start = end + 1;
    let last = both.len() as int;
    assert forall|i: int| start <= i < last implies plain_byte(#[trigger] both[i]) by {
        assert(both[i] == second[i - start]);
    }
    a_plain_run_is_read(both, start, last, Seq::empty(), none.push(first), outputs, 0);
    assert(Seq::<u8>::empty() + both.subrange(start, last) =~= second);
    assert(none.push(first).push(second) =~= seq![first, second]);
}

/// Quoted text is one word, whatever blanks and signs stand in it, and a quote that
/// is not closed is no words at all.
pub proof fn quoted_text_is_one_word(inside: Seq<u8>, outputs: Option<Seq<Seq<u8>>>)
    requires
        inside.len() > 0,
    ensures
        (forall|i: int| 0 <= i < inside.len() ==> #[trigger] inside[i] != 0x27) ==> words_of(
            seq![0x27u8] + inside + seq![0x27u8],
            outputs,
        ) == Reading::Words(seq![inside]) && words_of(seq![0x27u8] + inside, outputs)
            == Reading::NotStatic,
        (forall|i: int|
            0 <= i < inside.len() ==> #[trigger] inside[i] != 0x22 && inside[i] != 0x5c && inside[i]
                != 0x24 && inside[i] != 0x60) ==> words_of(
            seq![0x22u8] + inside + seq![0x22u8],
            outputs,
        ) == Reading::Words(seq![inside]) && words_of(seq![0x22u8] + inside, outputs)
            == Reading::NotStatic,
{
    if forall|i: int| 0 <= i < inside.len() ==> #[trigger] inside[i] != 0x27 {
        quoted_is_read(inside, 0x27, Quote::Single, outputs);
    }
    if forall|i: int|
        0 <= i < inside.len() ==> #[trigger] inside[i] != 0x22 && inside[i] != 0x5c && inside[i]
            != 0x24 && inside[i] != 0x60 {
        quoted_is_read(inside, 0x22, Quote::Double, outputs);
    }
}

proof fn quoted_is_read(
    inside: Seq<u8>,
    mark: u8,
    quote: Quote,
    outputs: Option<Seq<Seq<u8>>>,
)
    requires
        inside.len() > 0,
        (mark == 0x27 && quote == Quote::Single && forall|i: int|
            0 <= i < inside.len() ==> #[trigger] inside[i] != 0x27) || (mark == 0x22 && quote
            == Quote::Double && forall|i: int|
            0 <= i < inside.len() ==> #[trigger] inside[i] != 0x22 && inside[i] != 0x5c && inside[i]
                != 0x24 && inside[i] != 0x60),
    ensures
        words_of(seq![mark] + inside + seq![mark], outputs) == Reading::Words(seq![inside]),
        words_of(seq![mark] + inside, outputs) == Reading::NotStatic,
{
    let none = Seq::<Seq<u8>>::empty();
    let whole = seq![mark] + inside + seq![mark];
    let open = seq![mark] + inside;
    let end = 1 + inside.len() as int;
    assert(whole[0] == mark && whole[end] == mark && open[0] == mark);
    assert forall|i: int| 1 <= i < end implies #[trigger] whole[i] == inside[i - 1] by {}
    assert forall|i: int| 1 <= i < end implies #[trigger] open[i] == inside[i - 1] by {}
    a_quoted_run_is_read(whole, 1, end, quote, Seq::empty(), none, outputs, 0);
    a_quoted_run_is_read(open, 1, end, quote, Seq::empty(), none, outputs, 0);
    assert(Seq::<u8>::empty() + whole.subrange(1, end) =~= inside);
    assert(none.push(inside) =~= seq![inside]);
    let read = reading(whole, 1, Some(quote), Seq::empty(), none, outputs, 0);
    assert(words_of(whole, outputs) == read);
    assert(read == reading(whole, end, Some(quote), inside, none, outputs, 0));
    assert(reading(whole, end, Some(quote), inside, none, outputs, 0) == reading(
        whole,
        end + 1,
        None,
        inside,
        none,
        outputs,
        0,
    ));
    assert(reading(whole, end + 1, None, inside, none, outputs, 0) == Reading::Words(
        none.push(inside),
    ));
    assert(words_of(open, outputs) == reading(open, 1, Some(quote), Seq::empty(), none, outputs, 0));
}

/// A sign a shell reads a meaning into, outside every quote, is more than words can
/// say, whatever stands behind it; only two ampersands are a word, and a dollar
/// before a parenthesis a command to be run first.
pub proof fn a_shells_sign_is_no_word(
    before: Seq<u8>,
    sign: u8,
    after: Seq<u8>,
    outputs: Option<Seq<Seq<u8>>>,
)
    requires
        plain(before),
        shell_byte(sign),
        sign == 0x26 ==> after.len() > 0 && after[0] != 0x26,
        sign == 0x24 ==> after.len() > 0 && after[0] != 0x28,
    ensures
        words_of(before + seq![sign] + after, outputs) == Reading::NotStatic,
{
    let none = Seq::<Seq<u8>>::empty();
    let whole = before + seq![sign] + after;
    let end = before.len() as int;
    assert forall|i: int| 0 <= i < end implies plain_byte(#[trigger] whole[i]) by {
        assert(whole[i] == before[i]);
    }
    a_plain_run_is_read(whole, 0, end, Seq::empty(), none, outputs, 0);
    assert(whole[end] == sign);
    if after.len() > 0 {
        assert(whole[end + 1] == after[0]);
    }
    assert(reading(
        whole,
        end,
        None,
        Seq::<u8>::empty() + whole.subrange(0, end),
        none,
        outputs,
        0,
    ) is NotStatic);
}

/// Two ampersands are a word between the words around them.
pub proof fn an_and_is_a_word(
    first: Seq<u8>,
    second: Seq<u8>,
    outputs: Option<Seq<Seq<u8>>>,
)
    requires
        first.len() > 0,
        second.len() > 0,
        plain(first),
        plain(second),
    ensures
        words_of(first + seq![0x26u8, 0x26u8] + second, outputs) == Reading::Words(
            seq![first, seq![0x26u8, 0x26u8], second],
        ),
{
    let none = Seq::<Seq<u8>>::empty();
    let mark = seq![0x26u8, 0x26u8];
    let whole = first + mark + second;
    let end = first.len() as int;
    assert forall|i: int| 0 <= i < end implies plain_byte(#[trigger] whole[i]) by {
        assert(whole[i] == first[i]);
    }
    a_plain_run_is_read(whole, 0, end, Seq::empty(), none, outputs, 0);
    assert(Seq::<u8>::empty() + whole.subrange(0, end) =~= first);
    assert(whole[end] == 0x26 && whole[end + 1] == 0x26);
    let held = none.push(first).push(mark);
    let start = end + 2;
    let last = whole.len() as int;
    assert forall|i: int| start <= i < last implies plain_byte(#[trigger] whole[i]) by {
        assert(whole[i] == second[i - start]);
    }
    assert(reading(whole, end, None, first, none, outputs, 0) == reading(
        whole,
        start,
        None,
        Seq::empty(),
        held,
        outputs,
        0,
    ));
    a_plain_run_is_read(whole, start, last, Seq::empty(), held, outputs, 0);
    assert(Seq::<u8>::empty() + whole.subrange(start, last) =~= second);
    assert(held.push(second) =~= seq![first, mark, second]);
}

/// A backslash makes the byte behind it stand for itself, takes a line end away
/// with it, and before nothing at all is no words.
pub proof fn a_backslash_takes_a_meaning_away(byte: u8, outputs: Option<Seq<Seq<u8>>>)
    ensures
        byte != 0x0a ==> words_of(seq![0x5cu8, byte], outputs) == Reading::Words(
            seq![seq![byte]],
        ),
        words_of(seq![0x5cu8, 0x0au8], outputs) == Reading::Words(Seq::empty()),
        words_of(seq![0x5cu8], outputs) == Reading::NotStatic,
{
    let none = Seq::<Seq<u8>>::empty();
    let escaped = seq![0x5cu8, byte];
    let gone = seq![0x5cu8, 0x0au8];
    assert(Seq::<u8>::empty().push(byte) =~= seq![byte]);
    assert(none.push(seq![byte]) =~= seq![seq![byte]]);
    if byte != 0x0a {
        assert(reading(escaped, 2, None, seq![byte], none, outputs, 0) == Reading::Words(
            none.push(seq![byte]),
        ));
        assert(reading(escaped, 0, None, Seq::empty(), none, outputs, 0) == reading(
            escaped,
            2,
            None,
            Seq::<u8>::empty().push(byte),
            none,
            outputs,
            0,
        ));
    }
    assert(reading(gone, 2, None, Seq::empty(), none, outputs, 0) == Reading::Words(none));
    assert(reading(gone, 0, None, Seq::empty(), none, outputs, 0) == reading(
        gone,
        2,
        None,
        Seq::empty(),
        none,
        outputs,
        0,
    ));
}

/// A command substitution is asked for where its output is not known yet, and is no
/// words where no command may be run.
pub proof fn a_substitution_is_run_first(script: Seq<u8>)
    requires
        plain(script),
    ensures
        ({
            let command = seq![0x24u8, 0x28u8] + script + seq![0x29u8];
            &&& words_of(command, None) == Reading::NotStatic
            &&& words_of(command, Some(Seq::empty())) == Reading::Expand(script)
        }),
{
    let command = seq![0x24u8, 0x28u8] + script + seq![0x29u8];
    let end = 2 + script.len() as int;
    assert(command[0] == 0x24 && command[1] == 0x28 && command[end] == 0x29);
    assert forall|i: int| 2 <= i < end implies plain_byte(#[trigger] command[i]) by {
        assert(command[i] == script[i - 2]);
    }
    a_plain_script_closes(command, 2, end);
    assert(command.subrange(2, end) =~= script);
}

proof fn a_plain_script_closes(command: Seq<u8>, at: int, end: int)
    requires
        0 <= at <= end < command.len(),
        command[end] == 0x29,
        forall|i: int| at <= i < end ==> plain_byte(#[trigger] command[i]),
    ensures
        closing(command, at, 1, None) == Some(end),
    decreases end - at,
{
    if at < end {
        assert(plain_byte(command[at]));
        a_plain_script_closes(command, at + 1, end);
    }
}

} // verus!
