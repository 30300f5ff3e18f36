//! The words of a static recursive invocation, as the shell would pass them.

use crate::bytes::{
    append, blank, copied, copied_maybe, fields, holds, is_blank, lossy, maybe, part, same,
    split_fields, text, texts, to_str_lossy,
};
use crate::error::{message, Failure, MakeError};
use crate::sorting::{
    in_order, keys_apart, keys_stay_apart, meanings, order_is_one_only, same_values, sorted, Keyed,
};
use vstd::prelude::*;

verus! {

/// The quoting a byte of a command line stands in.
#[derive(Clone, Copy, PartialEq, Eq, Structural)]
pub enum Quote {
    Single,
    Double,
    Backtick,
}

/// Where the command substitution that `depth` parentheses and `quote` are
/// open in closes, without mistaking a quoted parenthesis for its end.
pub open spec fn closing(command: Seq<u8>, at: int, depth: int, quote: Option<Quote>) -> Option<int>
    decreases command.len() + 1 - at,
{
    if at < 0 || at >= command.len() {
        None
    } else {
        let byte = command[at];
        let opens = byte == 0x24 && at + 1 < command.len() && command[at + 1] == 0x28;
        match quote {
            Some(Quote::Single) => closing(
                command,
                at + 1,
                depth,
                if byte == 0x27 {
                    None
                } else {
                    quote
                },
            ),
            Some(Quote::Double) => if byte == 0x22 {
                closing(command, at + 1, depth, None)
            } else if byte == 0x5c {
                closing(command, at + 2, depth, quote)
            } else if opens {
                closing(command, at + 2, depth + 1, quote)
            } else if byte == 0x29 && depth > 1 {
                closing(command, at + 1, depth - 1, quote)
            } else {
                closing(command, at + 1, depth, quote)
            },
            Some(Quote::Backtick) => if byte == 0x60 {
                closing(command, at + 1, depth, None)
            } else if byte == 0x5c {
                closing(command, at + 2, depth, quote)
            } else {
                closing(command, at + 1, depth, quote)
            },
            None => if byte == 0x27 {
                closing(command, at + 1, depth, Some(Quote::Single))
            } else if byte == 0x22 {
                closing(command, at + 1, depth, Some(Quote::Double))
            } else if byte == 0x60 {
                closing(command, at + 1, depth, Some(Quote::Backtick))
            } else if byte == 0x5c {
                closing(command, at + 2, depth, quote)
            } else if opens {
                closing(command, at + 2, depth + 1, quote)
            } else if byte == 0x28 {
                closing(command, at + 1, depth + 1, quote)
            } else if byte == 0x29 {
                if depth <= 1 {
                    Some(at)
                } else {
                    closing(command, at + 1, depth - 1, quote)
                }
            } else {
                closing(command, at + 1, depth, quote)
            },
        }
    }
}

/// A substitution closes at a parenthesis at or after where it was looked for.
pub proof fn closing_is_a_parenthesis(command: Seq<u8>, at: int, depth: int, quote: Option<Quote>)
    ensures
        closing(command, at, depth, quote) matches Some(end) ==> at <= end < command.len()
            && command[end] == 0x29,
    decreases command.len() + 1 - at,
{
    if 0 <= at < command.len() {
        let byte = command[at];
        closing_is_a_parenthesis(command, at + 1, depth, None);
        closing_is_a_parenthesis(command, at + 1, depth, quote);
        closing_is_a_parenthesis(command, at + 1, depth, Some(Quote::Single));
        closing_is_a_parenthesis(command, at + 1, depth, Some(Quote::Double));
        closing_is_a_parenthesis(command, at + 1, depth, Some(Quote::Backtick));
        closing_is_a_parenthesis(command, at + 1, depth + 1, quote);
        closing_is_a_parenthesis(command, at + 1, depth - 1, quote);
        closing_is_a_parenthesis(command, at + 2, depth, quote);
        closing_is_a_parenthesis(command, at + 2, depth + 1, quote);
    }
}

/// Find the close of one shell command substitution without mistaking quoted
/// parentheses for its delimiter.
pub fn command_substitution_end(command: &[u8], start: usize) -> (end: Option<usize>)
    ensures
        match end {
            Some(at) => closing(command@, start as int, 1, None) == Some(at as int),
            None => closing(command@, start as int, 1, None) is None,
        },
        end matches Some(at) ==> start <= at < command@.len() && command@[at as int] == 0x29,
{
    let mut nested: usize = 0;
    let mut quote: Option<Quote> = None;
    let mut index: usize = start;
    proof {
        closing_is_a_parenthesis(command@, start as int, 1, None);
    }
    if start > command.len() {
        return None;
    }
    while index < command.len()
        invariant
            start <= index <= command@.len(),
            nested <= index - start,
            closing(command@, start as int, 1, None) == closing(
                command@,
                index as int,
                nested + 1,
                quote,
            ),
            closing(command@, start as int, 1, None) matches Some(end) ==> start <= end
                < command@.len() && command@[end] == 0x29,
        decreases command@.len() - index,
    {
        let byte: u8 = command[index];
        let opens: bool = byte == 0x24 && index + 1 < command.len() && command[index + 1] == 0x28;
        let mut step: usize = 1;
        match quote {
            Some(Quote::Single) => {
                if byte == 0x27 {
                    quote = None;
                }
            },
            Some(Quote::Double) => {
                if byte == 0x22 {
                    quote = None;
                } else if byte == 0x5c {
                    step = 2;
                } else if opens {
                    nested += 1;
                    step = 2;
                } else if byte == 0x29 && nested > 0 {
                    nested -= 1;
                }
            },
            Some(Quote::Backtick) => {
                if byte == 0x60 {
                    quote = None;
                } else if byte == 0x5c {
                    step = 2;
                }
            },
            None => {
                if byte == 0x27 {
                    quote = Some(Quote::Single);
                } else if byte == 0x22 {
                    quote = Some(Quote::Double);
                } else if byte == 0x60 {
                    quote = Some(Quote::Backtick);
                } else if byte == 0x5c {
                    step = 2;
                } else if opens {
                    nested += 1;
                    step = 2;
                } else if byte == 0x28 {
                    nested += 1;
                } else if byte == 0x29 {
                    if nested == 0 {
                        return Some(index);
                    }
                    nested -= 1;
                }
            },
        }
        if step > command.len() - index {
            assert(closing(command@, index + 2, nested + 1, quote) is None);
            return None;
        }
        index += step;
    }
    None
}

/// What reading a command line as words came to.
pub ghost enum Reading {
    /// The words it passes.
    Words(Seq<Seq<u8>>),
    /// A script whose output has to be known before the words are.
    Expand(Seq<u8>),
    /// More than one static invocation can say.
    NotStatic,
}

/// A byte that makes an unquoted command line a program of the shell's.
pub open spec fn dynamic(byte: u8) -> bool {
    byte == 0x7c || byte == 0x26 || byte == 0x3b || byte == 0x3c || byte == 0x3e || byte == 0x28
        || byte == 0x29 || byte == 0x7b || byte == 0x7d || byte == 0x24 || byte == 0x60 || byte
        == 0x2a || byte == 0x3f || byte == 0x5b || byte == 0x5d || byte == 0x7e || byte == 0x23
}

/// A byte that makes a word a pattern.
pub open spec fn pattern_byte(byte: u8) -> bool {
    byte == 0x2a || byte == 0x3f || byte == 0x5b
}

/// Whether bytes hold a pattern.
pub open spec fn has_pattern(bytes: Seq<u8>) -> bool {
    exists|i: int| 0 <= i < bytes.len() && pattern_byte(#[trigger] bytes[i])
}

/// The list with `word` closed at its end, where there is one.
pub open spec fn closed_word(words: Seq<Seq<u8>>, word: Seq<u8>) -> Seq<Seq<u8>> {
    if word.len() > 0 {
        words.push(word)
    } else {
        words
    }
}

/// The fields of unquoted output, the first of them continuing `word`.
pub open spec fn continued(word: Seq<u8>, output: Seq<u8>) -> Seq<Seq<u8>> {
    let split = fields(output);
    if split.len() == 0 {
        seq![word]
    } else {
        split.update(0, word + split[0])
    }
}

/// The words of a command line from `at`, given what stands before it: the
/// quoting it is in, the word being read, the words read, and how many of the
/// substitutions' outputs are used.
pub open spec fn reading(
    command: Seq<u8>,
    at: int,
    quote: Option<Quote>,
    word: Seq<u8>,
    words: Seq<Seq<u8>>,
    outputs: Option<Seq<Seq<u8>>>,
    used: int,
) -> Reading
    decreases command.len() - at,
    via reading_ends
{
    if at < 0 || at >= command.len() {
        if quote is Some {
            Reading::NotStatic
        } else {
            Reading::Words(closed_word(words, word))
        }
    } else {
        let byte = command[at];
        let opens = byte == 0x24 && at + 1 < command.len() && command[at + 1] == 0x28;
        if quote == Some(Quote::Single) {
            if byte == 0x27 {
                reading(command, at + 1, None, word, words, outputs, used)
            } else {
                reading(command, at + 1, quote, word.push(byte), words, outputs, used)
            }
        } else if byte == 0x22 {
            reading(
                command,
                at + 1,
                if quote is Some {
                    None
                } else {
                    Some(Quote::Double)
                },
                word,
                words,
                outputs,
                used,
            )
        } else if byte == 0x5c {
            if at + 1 >= command.len() {
                Reading::NotStatic
            } else if command[at + 1] == 0x0a {
                reading(command, at + 2, quote, word, words, outputs, used)
            } else {
                reading(command, at + 2, quote, word.push(command[at + 1]), words, outputs, used)
            }
        } else if opens {
            match closing(command, at + 2, 1, None) {
                Some(end) => match outputs {
                    Some(known) => if used < 0 || used >= known.len() {
                        Reading::Expand(command.subrange(at + 2, end))
                    } else if quote is Some {
                        reading(command, end + 1, quote, word + known[used], words, outputs, used + 1)
                    } else if has_pattern(known[used]) {
                        Reading::NotStatic
                    } else {
                        let split = continued(word, known[used]);
                        reading(
                            command,
                            end + 1,
                            quote,
                            split.last(),
                            words + split.drop_last(),
                            outputs,
                            used + 1,
                        )
                    },
                    None => Reading::NotStatic,
                },
                None => Reading::NotStatic,
            }
        } else if quote is Some {
            if byte == 0x24 || byte == 0x60 {
                Reading::NotStatic
            } else {
                reading(command, at + 1, quote, word.push(byte), words, outputs, used)
            }
        } else if byte == 0x27 {
            reading(command, at + 1, Some(Quote::Single), word, words, outputs, used)
        } else if byte == 0x26 && at + 1 < command.len() && command[at + 1] == 0x26 {
            reading(
                command,
                at + 2,
                quote,
                Seq::empty(),
                closed_word(words, word).push(seq![0x26u8, 0x26u8]),
                outputs,
                used,
            )
        } else if blank(byte) {
            reading(command, at + 1, quote, Seq::empty(), closed_word(words, word), outputs, used)
        } else if dynamic(byte) {
            Reading::NotStatic
        } else {
            reading(command, at + 1, quote, word.push(byte), words, outputs, used)
        }
    }
}

#[via_fn]
proof fn reading_ends(
    command: Seq<u8>,
    at: int,
    quote: Option<Quote>,
    word: Seq<u8>,
    words: Seq<Seq<u8>>,
    outputs: Option<Seq<Seq<u8>>>,
    used: int,
) {
    closing_is_a_parenthesis(command, at + 2, 1, None);
}

/// The words of a command line, `outputs` being what its command substitutions
/// gave, in order, where they may be run at all.
pub open spec fn words_of(command: Seq<u8>, outputs: Option<Seq<Seq<u8>>>) -> Reading {
    reading(command, 0, None, Seq::empty(), Seq::empty(), outputs, 0)
}

/// Words, or the script whose output has to be known first.
#[derive(Debug)]
pub enum ShellWords {
    Words(Vec<Vec<u8>>),
    Expand(Vec<u8>),
}

impl ShellWords {
    /// The reading as its model.
    pub open spec fn model(&self) -> Reading {
        match self {
            ShellWords::Words(words) => Reading::Words(texts(words@)),
            ShellWords::Expand(script) => Reading::Expand(script@),
        }
    }
}

/// What is said of a recipe that is more than a static invocation.
pub open spec fn not_static(command: Seq<u8>) -> Failure {
    Failure::Evaluate(
        text("recursive Make recipe is not a static invocation: ") + lossy(command),
    )
}

/// A failure that names the command it is about.
fn refused(why: &str, command: &[u8]) -> (failure: MakeError)
    ensures
        failure.model() == Failure::Evaluate(text(why) + lossy(command@)),
{
    MakeError::Evaluate(message(why, &to_str_lossy(command)))
}

fn is_dynamic(byte: u8) -> (answer: bool)
    ensures
        answer == dynamic(byte),
{
    byte == 0x7c || byte == 0x26 || byte == 0x3b || byte == 0x3c || byte == 0x3e || byte == 0x28
        || byte == 0x29 || byte == 0x7b || byte == 0x7d || byte == 0x24 || byte == 0x60 || byte
        == 0x2a || byte == 0x3f || byte == 0x5b || byte == 0x5d || byte == 0x7e || byte == 0x23
}

fn holds_pattern(bytes: &[u8]) -> (answer: bool)
    ensures
        answer == has_pattern(bytes@),
{
    let mut at: usize = 0;
    while at < bytes.len()
        invariant
            at <= bytes@.len(),
            forall|i: int| 0 <= i < at ==> !pattern_byte(#[trigger] bytes@[i]),
        decreases bytes@.len() - at,
    {
        let byte: u8 = bytes[at];
        if byte == 0x2a || byte == 0x3f || byte == 0x5b {
            assert(pattern_byte(bytes@[at as int]));
            return true;
        }
        at += 1;
    }
    false
}

/// Close the word being read, where there is one.
fn close_word(words: &mut Vec<Vec<u8>>, word: &mut Vec<u8>)
    ensures
        texts(final(words)@) == closed_word(texts(old(words)@), old(word)@),
        final(word)@ == Seq::<u8>::empty(),
{
    if word.len() > 0 {
        let ghost before = texts(words@);
        let ghost held = word@;
        words.push(copied(word));
        assert(texts(words@) =~= before.push(held));
        word.clear();
    }
    assert(word@ =~= Seq::<u8>::empty());
}

/// Apply the default shell's field splitting to unquoted substitution output.
///
/// A pattern in the output is refused, and then nothing is added.
pub fn append_unquoted_substitution(
    words: &mut Vec<Vec<u8>>,
    word: &mut Vec<u8>,
    output: &[u8],
) -> (split: bool)
    ensures
        split == !has_pattern(output@),
        split ==> {
            &&& texts(final(words)@) == texts(old(words)@) + continued(
                old(word)@,
                output@,
            ).drop_last()
            &&& final(word)@ == continued(old(word)@, output@).last()
        },
        !split ==> final(words)@ == old(words)@ && final(word)@ == old(word)@,
{
    if holds_pattern(output) {
        return false;
    }
    let split: Vec<Vec<u8>> = split_fields(output);
    let ghost all = continued(word@, output@);
    let ghost began = texts(words@);
    if split.len() == 0 {
        assert(began + all.drop_last() =~= began);
        return true;
    }
    append(word, &split[0]);
    assert(word@ == all[0]);
    assert(began + all.take(0) =~= began);
    let mut at: usize = 1;
    while at < split.len()
        invariant
            1 <= at <= split@.len(),
            texts(split@) == fields(output@),
            all.len() == split@.len(),
            forall|i: int| 0 < i < all.len() ==> all[i] == (#[trigger] split@[i])@,
            word@ == all[at - 1],
            texts(words@) == began + all.take(at - 1),
        decreases split@.len() - at,
    {
        let ghost before = texts(words@);
        words.push(copied(word));
        assert(texts(words@) =~= before.push(all[at - 1]));
        assert(before.push(all[at - 1]) =~= began + all.take(at as int));
        *word = copied(&split[at]);
        at += 1;
    }
    assert(all.take(at - 1) =~= all.drop_last());
    true
}

/// Split the shell words a static recursive invocation may contain.
///
/// Quotes and backslash escapes are resolved, and a backslash before a newline
/// stands for nothing. Pipelines, lists, redirections and globbing are refused.
/// `outputs` is what the command substitutions gave, in order; one that has not
/// been run yet is handed back, and without `outputs` any is refused.
#[verifier::rlimit(60)]
pub fn shell_words_with(command: &[u8], outputs: Option<&[Vec<u8>]>) -> (got: Result<
    ShellWords,
    MakeError,
>)
    ensures
        match got {
            Ok(words) => words.model() == words_of(
                command@,
                match outputs {
                    Some(known) => Some(texts(known@)),
                    None => None,
                },
            ),
            Err(why) => why.model() == not_static(command@) && words_of(
                command@,
                match outputs {
                    Some(known) => Some(texts(known@)),
                    None => None,
                },
            ) == Reading::NotStatic,
        },
{
    let ghost given = match outputs {
        Some(known) => Some(texts(known@)),
        None => None,
    };
    let mut words: Vec<Vec<u8>> = Vec::new();
    let mut word: Vec<u8> = Vec::new();
    let mut quote: Option<Quote> = None;
    let mut used: usize = 0;
    let mut index: usize = 0;
    assert(texts(words@) =~= Seq::empty());
    assert(word@ =~= Seq::empty());
    while index < command.len()
        invariant
            index <= command@.len(),
            quote != Some(Quote::Backtick),
            used <= index,
            given == match outputs {
                Some(known) => Some(texts(known@)),
                None => None,
            },
            words_of(command@, given) == reading(
                command@,
                index as int,
                quote,
                word@,
                texts(words@),
                given,
                used as int,
            ),
        decreases command@.len() - index,
    {
        let byte: u8 = command[index];
        let opens: bool = byte == 0x24 && index + 1 < command.len() && command[index + 1] == 0x28;
        if quote == Some(Quote::Single) {
            if byte == 0x27 {
                quote = None;
            } else {
                word.push(byte);
            }
        } else if byte == 0x22 {
            quote = if quote.is_some() {
                None
            } else {
                Some(Quote::Double)
            };
        } else if byte == 0x5c {
            if command.len() - index < 2 {
                return Err(refused("recursive Make recipe is not a static invocation: ", command));
            }
            index += 1;
            if command[index] != 0x0a {
                word.push(command[index]);
            }
        } else if opens {
            let end: usize = match command_substitution_end(command, index + 2) {
                Some(end) => end,
                None => return Err(
                    refused("recursive Make recipe is not a static invocation: ", command),
                ),
            };
            let known: &[Vec<u8>] = match outputs {
                Some(known) => known,
                None => return Err(
                    refused("recursive Make recipe is not a static invocation: ", command),
                ),
            };
            if used >= known.len() {
                return Ok(ShellWords::Expand(part(command, index + 2, end)));
            }
            assert(given == Some(texts(known@)));
            assert(texts(known@)[used as int] == known@[used as int]@);
            if quote.is_some() {
                append(&mut word, &known[used]);
            } else if !append_unquoted_substitution(&mut words, &mut word, &known[used]) {
                return Err(refused("recursive Make recipe is not a static invocation: ", command));
            }
            used += 1;
            index = end;
        } else if quote.is_some() {
            if byte == 0x24 || byte == 0x60 {
                return Err(refused("recursive Make recipe is not a static invocation: ", command));
            }
            word.push(byte);
        } else if byte == 0x27 {
            quote = Some(Quote::Single);
        } else if byte == 0x26 && index + 1 < command.len() && command[index + 1] == 0x26 {
            close_word(&mut words, &mut word);
            let ghost before = texts(words@);
            let mut both: Vec<u8> = Vec::new();
            both.push(0x26);
            both.push(0x26);
            assert(both@ =~= seq![0x26u8, 0x26u8]);
            words.push(both);
            assert(texts(words@) =~= before.push(seq![0x26u8, 0x26u8]));
            index += 1;
        } else if is_blank(byte) {
            close_word(&mut words, &mut word);
        } else if is_dynamic(byte) {
            return Err(refused("recursive Make recipe is not a static invocation: ", command));
        } else {
            word.push(byte);
        }
        index += 1;
    }
    if quote.is_some() {
        return Err(refused("recursive Make recipe is not a static invocation: ", command));
    }
    close_word(&mut words, &mut word);
    Ok(ShellWords::Words(words))
}

/// Split shell words where no command may be run.
pub fn shell_words(command: &[u8]) -> (got: Result<Vec<Vec<u8>>, MakeError>)
    ensures
        match got {
            Ok(words) => words_of(command@, None) == Reading::Words(texts(words@)),
            Err(why) => why.model() == not_static(command@) && words_of(command@, None)
                == Reading::NotStatic,
        },
{
    proof {
        without_outputs_nothing_expands(command@, 0, None, Seq::empty(), Seq::empty(), 0);
    }
    match shell_words_with(command, None) {
        Ok(ShellWords::Words(words)) => Ok(words),
        Ok(ShellWords::Expand(_)) => Err(
            refused("recursive Make recipe is not a static invocation: ", command),
        ),
        Err(why) => Err(why),
    }
}

/// Where no output may be asked for, none is.
proof fn without_outputs_nothing_expands(
    command: Seq<u8>,
    at: int,
    quote: Option<Quote>,
    word: Seq<u8>,
    words: Seq<Seq<u8>>,
    used: int,
)
    ensures
        !(reading(command, at, quote, word, words, None, used) is Expand),
    decreases command.len() - at,
{
    if 0 <= at < command.len() {
        let byte = command[at];
        without_outputs_nothing_expands(command, at + 1, None, word, words, used);
        without_outputs_nothing_expands(command, at + 1, quote, word.push(byte), words, used);
        without_outputs_nothing_expands(command, at + 1, Some(Quote::Double), word, words, used);
        without_outputs_nothing_expands(command, at + 1, Some(Quote::Single), word, words, used);
        if at + 1 < command.len() {
            without_outputs_nothing_expands(command, at + 2, quote, word, words, used);
            without_outputs_nothing_expands(
                command,
                at + 2,
                quote,
                word.push(command[at + 1]),
                words,
                used,
            );
            without_outputs_nothing_expands(
                command,
                at + 2,
                quote,
                Seq::empty(),
                closed_word(words, word).push(seq![0x26u8, 0x26u8]),
                used,
            );
        }
        without_outputs_nothing_expands(
            command,
            at + 1,
            quote,
            Seq::empty(),
            closed_word(words, word),
            used,
        );
    }
}

/// Whether the words begin by entering a directory: `cd`, its name, and `&&`.
pub open spec fn enters_directory(words: Seq<Seq<u8>>) -> bool {
    words.len() >= 4 && words[0] == text("cd") && words[2] == text("&&")
}

/// The words after the ones that enter a directory and after `exec`.
pub open spec fn invoking(words: Seq<Seq<u8>>) -> Seq<Seq<u8>> {
    let rest = if enters_directory(words) {
        words.skip(3)
    } else {
        words
    };
    if rest.len() > 0 && rest[0] == text("exec") {
        rest.skip(1)
    } else {
        rest
    }
}

/// The words of one static invocation of Make, or why they are not.
pub open spec fn invoked(command: Seq<u8>, words: Seq<Seq<u8>>, make: Seq<u8>) -> Result<
    Seq<Seq<u8>>,
    Failure,
> {
    match words_of(make, None) {
        Reading::Words(named) => if named.len() == 0 || words.len() < named.len() || words.take(
            named.len() as int,
        ) != named {
            Err(
                Failure::Evaluate(
                    text("recursive MAKE reference is not the invoked command: ") + lossy(command),
                ),
            )
        } else if words.contains(text("&&")) {
            Err(
                Failure::Evaluate(
                    text("recursive Make recipe is not one static invocation: ") + lossy(command),
                ),
            )
        } else {
            Ok(words)
        },
        _ => Err(not_static(make)),
    }
}

/// What resolving one recursive recipe's command line came to.
#[derive(Debug)]
pub enum InvocationWords {
    /// This script has to be run first, and its output given.
    Expand(Vec<u8>),
    /// The command line is not one static invocation.
    Refused(MakeError),
    /// The directory it enters first, where it enters one, and then the words
    /// that invoke Make.
    Invoked { entered: Option<Vec<u8>>, words: Result<Vec<Vec<u8>>, MakeError> },
}

/// The words, or the failure, of an invocation, as their models.
pub open spec fn invoked_model(words: Result<Vec<Vec<u8>>, MakeError>) -> Result<
    Seq<Seq<u8>>,
    Failure,
> {
    match words {
        Ok(held) => Ok(texts(held@)),
        Err(why) => Err(why.model()),
    }
}

/// Whether a list begins with the byte strings of another.
fn begins_with(words: &[Vec<u8>], named: &[Vec<u8>]) -> (answer: bool)
    ensures
        answer == (words@.len() >= named@.len() && texts(words@).take(named@.len() as int)
            == texts(named@)),
{
    if words.len() < named.len() {
        return false;
    }
    let mut at: usize = 0;
    while at < named.len()
        invariant
            at <= named@.len() <= words@.len(),
            forall|i: int| 0 <= i < at ==> (#[trigger] words@[i])@ == named@[i]@,
        decreases named@.len() - at,
    {
        if !same(&words[at], &named[at]) {
            assert(texts(words@).take(named@.len() as int)[at as int] != texts(
                named@,
            )[at as int]);
            return false;
        }
        at += 1;
    }
    assert(texts(words@).take(named@.len() as int) =~= texts(named@));
    true
}

/// Resolve one expanded recursive recipe's command line into the directory it
/// enters and the words that invoke Make.
///
/// `outputs` is what its command substitutions gave so far, in order.
pub fn invocation_words(
    command: &[u8],
    expanded_make: &[u8],
    outputs: &[Vec<u8>],
) -> (got: InvocationWords)
    ensures
        match words_of(command@, Some(texts(outputs@))) {
            Reading::Expand(script) => got matches InvocationWords::Expand(asked) && asked@
                == script,
            Reading::NotStatic => got matches InvocationWords::Refused(why) && why.model()
                == not_static(command@),
            Reading::Words(words) => got matches InvocationWords::Invoked {
                entered,
                words: held,
            } && {
                &&& entered is Some == enters_directory(words)
                &&& entered matches Some(directory) ==> directory@ == words[1]
                &&& invoked_model(held) == invoked(command@, invoking(words), expanded_make@)
            },
        },
{
    let all: Vec<Vec<u8>> = match shell_words_with(command, Some(outputs)) {
        Ok(ShellWords::Words(words)) => words,
        Ok(ShellWords::Expand(script)) => return InvocationWords::Expand(script),
        Err(why) => return InvocationWords::Refused(why),
    };
    let ghost words = texts(all@);
    assert(all@.len() >= 4 ==> words[0] == all@[0]@ && words[1] == all@[1]@ && words[2]
        == all@[2]@);
    let mut start: usize = 0;
    let mut entered: Option<Vec<u8>> = None;
    if all.len() >= 4 && same(&all[0], "cd".as_bytes()) && same(&all[2], "&&".as_bytes()) {
        entered = Some(copied(&all[1]));
        start = 3;
    }
    assert(enters_directory(words) == (start == 3));
    assert(words.skip(0) =~= words);
    let ghost rest = words.skip(start as int);
    assert(rest.len() > 0 ==> rest[0] == all@[start as int]@);
    if start < all.len() && same(&all[start], "exec".as_bytes()) {
        assert(rest.skip(1) =~= words.skip(start as int + 1));
        start += 1;
    }
    let mut kept: Vec<Vec<u8>> = Vec::new();
    let mut at: usize = start;
    while at < all.len()
        invariant
            start <= at <= all@.len(),
            words == texts(all@),
            kept@.len() == at - start,
            forall|i: int| 0 <= i < kept@.len() ==> (#[trigger] kept@[i])@ == words[start + i],
        decreases all@.len() - at,
    {
        kept.push(copied(&all[at]));
        at += 1;
    }
    assert(texts(kept@) =~= invoking(words));
    let make: Vec<Vec<u8>> = match shell_words(expanded_make) {
        Ok(make) => make,
        Err(why) => return InvocationWords::Invoked { entered, words: Err(why) },
    };
    if make.len() == 0 || !begins_with(&kept, &make) {
        let why = refused("recursive MAKE reference is not the invoked command: ", command);
        return InvocationWords::Invoked { entered, words: Err(why) };
    }
    if holds(&kept, "&&".as_bytes()) {
        let why = refused("recursive Make recipe is not one static invocation: ", command);
        return InvocationWords::Invoked { entered, words: Err(why) };
    }
    InvocationWords::Invoked { entered, words: Ok(kept) }
}

/// Whether resolving this invocation would have to run a command: whether a
/// backtick, `$(` or `${` is left in it.
pub open spec fn runs_to_resolve(command: Seq<u8>) -> bool {
    exists|i: int|
        0 <= i < command.len() && (#[trigger] command[i] == 0x60 || (command[i] == 0x24 && i + 1
            < command.len() && (command[i + 1] == 0x28 || command[i + 1] == 0x7b)))
}

/// Whether resolving this invocation would have to run a command.
pub fn runs_a_command_to_resolve(command: &[u8]) -> (answer: bool)
    ensures
        answer == runs_to_resolve(command@),
{
    let mut at: usize = 0;
    while at < command.len()
        invariant
            at <= command@.len(),
            forall|i: int|
                0 <= i < at ==> !(#[trigger] command@[i] == 0x60 || (command@[i] == 0x24 && i + 1
                    < command@.len() && (command@[i + 1] == 0x28 || command@[i + 1] == 0x7b))),
        decreases command@.len() - at,
    {
        if command[at] == 0x60 {
            assert(command@[at as int] == 0x60);
            return true;
        }
        if command[at] == 0x24 && at + 1 < command.len() && (command[at + 1] == 0x28 || command[at
            + 1] == 0x7b) {
            assert(command@[at as int] == 0x24);
            return true;
        }
        at += 1;
    }
    false
}

/// The bytes one compilation is known by: the directory, and behind a zero
/// byte each, the makefiles and the switches they are read under.
pub open spec fn key_of(directory: Seq<u8>, makefiles: Seq<Seq<u8>>, makeflags: Seq<u8>) -> Seq<u8>
{
    makefile_keys(directory, makefiles).push(0) + makeflags
}

/// `key`, and behind a zero byte each, the makefiles.
pub open spec fn makefile_keys(key: Seq<u8>, makefiles: Seq<Seq<u8>>) -> Seq<u8>
    decreases makefiles.len(),
{
    if makefiles.len() == 0 {
        key
    } else {
        makefile_keys(key, makefiles.drop_last()).push(0) + makefiles.last()
    }
}

/// The bytes one compilation is known by.
pub fn compilation_key(directory: &[u8], makefiles: &[Vec<u8>], makeflags: &[u8]) -> (key: Vec<
    u8,
>)
    ensures
        key@ == key_of(directory@, texts(makefiles@), makeflags@),
{
    let mut key: Vec<u8> = copied(directory);
    let mut at: usize = 0;
    assert(texts(makefiles@).take(0) =~= Seq::empty());
    while at < makefiles.len()
        invariant
            at <= makefiles@.len(),
            key@ == makefile_keys(directory@, texts(makefiles@).take(at as int)),
        decreases makefiles@.len() - at,
    {
        proof {
            let next = texts(makefiles@).take(at as int + 1);
            assert(next.drop_last() =~= texts(makefiles@).take(at as int));
            assert(next.last() == makefiles@[at as int]@);
        }
        key.push(0);
        append(&mut key, &makefiles[at]);
        at += 1;
    }
    assert(texts(makefiles@).take(at as int) =~= texts(makefiles@));
    key.push(0);
    append(&mut key, makeflags);
    key
}

/// Each name with its value, behind a zero byte each.
pub open spec fn environment_key(environment: Seq<(Seq<u8>, Seq<u8>)>) -> Seq<u8>
    decreases environment.len(),
{
    if environment.len() == 0 {
        Seq::empty()
    } else {
        environment_key(environment.drop_last()).push(0) + environment.last().0 + seq![0x3du8]
            + environment.last().1
    }
}

/// Each name with its value, behind a zero byte each, a name that is taken
/// away having the byte no text holds for its value.
pub open spec fn recipe_environment_key(environment: Seq<(Seq<u8>, Option<Seq<u8>>)>) -> Seq<u8>
    decreases environment.len(),
{
    if environment.len() == 0 {
        Seq::empty()
    } else {
        recipe_environment_key(environment.drop_last()).push(0) + environment.last().0
            + seq![0x3du8] + (match environment.last().1 {
            Some(value) => value,
            None => seq![0xffu8],
        })
    }
}

/// What a command of this unit is run with, beside its environment.
pub open spec fn command_key(
    command: Seq<u8>,
    expanded_make: Seq<u8>,
    shell: Seq<u8>,
    shell_flags: Seq<u8>,
) -> Seq<u8> {
    seq![0u8] + command + seq![0u8] + expanded_make + seq![0u8] + shell + seq![0u8] + shell_flags
}

/// Add an environment to a key, in the order of its names.
pub fn append_environment_key(key: &mut Vec<u8>, environment: Vec<(Vec<u8>, Vec<u8>)>)
    ensures
        exists|ordered: Seq<(Vec<u8>, Vec<u8>)>|
            in_order(ordered) && same_values(ordered, environment@) && final(key)@ == old(key)@
                + #[trigger] environment_key(meanings(ordered)),
{
    let ghost before = key@;
    let ordered: Vec<(Vec<u8>, Vec<u8>)> = sorted(environment);
    let ghost all = meanings(ordered@);
    let mut at: usize = 0;
    assert(all.take(0) =~= Seq::empty());
    assert(before + environment_key(all.take(0)) =~= before);
    while at < ordered.len()
        invariant
            at <= ordered@.len(),
            all == meanings(ordered@),
            key@ == before + environment_key(all.take(at as int)),
        decreases ordered@.len() - at,
    {
        let ghost next = all.take(at as int + 1);
        assert(next.drop_last() =~= all.take(at as int));
        assert(next.last() == (ordered@[at as int].0@, ordered@[at as int].1@));
        key.push(0);
        append(key, &ordered[at].0);
        key.push(0x3d);
        append(key, &ordered[at].1);
        assert(key@ =~= before + environment_key(next));
        at += 1;
    }
    assert(all.take(at as int) =~= all);
}

/// Add the changes a recipe's environment makes to a key, in the order of
/// their names.
pub fn append_recipe_environment_key(
    key: &mut Vec<u8>,
    environment: Vec<(Vec<u8>, Option<Vec<u8>>)>,
)
    ensures
        exists|ordered: Seq<(Vec<u8>, Option<Vec<u8>>)>|
            in_order(ordered) && same_values(ordered, environment@) && final(key)@ == old(key)@
                + #[trigger] recipe_environment_key(meanings(ordered)),
{
    let ghost before = key@;
    let ordered: Vec<(Vec<u8>, Option<Vec<u8>>)> = sorted(environment);
    let ghost all = meanings(ordered@);
    let mut at: usize = 0;
    assert(all.take(0) =~= Seq::empty());
    assert(before + recipe_environment_key(all.take(0)) =~= before);
    while at < ordered.len()
        invariant
            at <= ordered@.len(),
            all == meanings(ordered@),
            key@ == before + recipe_environment_key(all.take(at as int)),
        decreases ordered@.len() - at,
    {
        let ghost next = all.take(at as int + 1);
        assert(next.drop_last() =~= all.take(at as int));
        assert(next.last() == (ordered@[at as int].0@, maybe(ordered@[at as int].1)));
        key.push(0);
        append(key, &ordered[at].0);
        key.push(0x3d);
        match &ordered[at].1 {
            Some(value) => append(key, value),
            None => key.push(0xff),
        }
        assert(key@ =~= before + recipe_environment_key(next));
        at += 1;
    }
    assert(all.take(at as int) =~= all);
}

/// Whether a key is another with what one recursive command is run with added:
/// the command itself, and the two environments it inherits, each in the order
/// of its names.
pub open spec fn extends_key(
    key: Seq<u8>,
    before: Seq<u8>,
    command: Seq<u8>,
    environment: Seq<(Vec<u8>, Vec<u8>)>,
    recipe_environment: Seq<(Vec<u8>, Option<Vec<u8>>)>,
) -> bool {
    exists|ordered: Seq<(Vec<u8>, Vec<u8>)>, changes: Seq<(Vec<u8>, Option<Vec<u8>>)>|
        in_order(ordered) && same_values(ordered, environment) && in_order(changes) && same_values(
            changes,
            recipe_environment,
        ) && key == before + command + #[trigger] environment_key(meanings(ordered))
            + #[trigger] recipe_environment_key(meanings(changes))
}

/// The order two environments come in is nothing to a key, each naming every
/// variable once: the same key is extended by the same command to the same key.
pub proof fn a_reordered_environment_has_the_same_key(
    before: Seq<u8>,
    command: Seq<u8>,
    environment: Seq<(Vec<u8>, Vec<u8>)>,
    reordered: Seq<(Vec<u8>, Vec<u8>)>,
    changes: Seq<(Vec<u8>, Option<Vec<u8>>)>,
    rechanged: Seq<(Vec<u8>, Option<Vec<u8>>)>,
    key: Seq<u8>,
    other: Seq<u8>,
)
    requires
        keys_apart(environment),
        keys_apart(changes),
        same_values(reordered, environment),
        same_values(rechanged, changes),
        extends_key(key, before, command, environment, changes),
        extends_key(other, before, command, reordered, rechanged),
    ensures
        key == other,
        before.is_prefix_of(key),
{
    let (ours, our_changes) = choose|
        ordered: Seq<(Vec<u8>, Vec<u8>)>,
        changed: Seq<(Vec<u8>, Option<Vec<u8>>)>,
    |
        in_order(ordered) && same_values(ordered, environment) && in_order(changed) && same_values(
            changed,
            changes,
        ) && key == before + command + #[trigger] environment_key(meanings(ordered))
            + #[trigger] recipe_environment_key(meanings(changed));
    let (theirs, their_changes) = choose|
        ordered: Seq<(Vec<u8>, Vec<u8>)>,
        changed: Seq<(Vec<u8>, Option<Vec<u8>>)>,
    |
        in_order(ordered) && same_values(ordered, reordered) && in_order(changed) && same_values(
            changed,
            rechanged,
        ) && other == before + command + #[trigger] environment_key(meanings(ordered))
            + #[trigger] recipe_environment_key(meanings(changed));
    keys_stay_apart(environment, ours);
    order_is_one_only(ours, theirs);
    keys_stay_apart(changes, our_changes);
    order_is_one_only(our_changes, their_changes);
    assert(key.take(before.len() as int) =~= before);
}

/// Add what one recursive command is run with to the key of the compilation
/// it invokes.
pub fn extend_compilation_key(
    key: &mut Vec<u8>,
    command: &[u8],
    expanded_make: &[u8],
    shell: &[u8],
    shell_flags: &[u8],
    environment: Vec<(Vec<u8>, Vec<u8>)>,
    recipe_environment: Vec<(Vec<u8>, Option<Vec<u8>>)>,
)
    ensures
        extends_key(
            final(key)@,
            old(key)@,
            command_key(command@, expanded_make@, shell@, shell_flags@),
            environment@,
            recipe_environment@,
        ),
        old(key)@.is_prefix_of(final(key)@),
{
    let ghost before = key@;
    key.push(0);
    append(key, command);
    key.push(0);
    append(key, expanded_make);
    key.push(0);
    append(key, shell);
    key.push(0);
    append(key, shell_flags);
    assert(key@ =~= before + command_key(command@, expanded_make@, shell@, shell_flags@));
    append_environment_key(key, environment);
    append_recipe_environment_key(key, recipe_environment);
    assert(key@.take(before.len() as int) =~= before);
}

/// The changes a recipe's environment makes, with this one as the last word on
/// its name.
pub open spec fn with_change(
    environment: Seq<(Seq<u8>, Option<Seq<u8>>)>,
    name: Seq<u8>,
    value: Option<Seq<u8>>,
) -> Seq<(Seq<u8>, Option<Seq<u8>>)> {
    environment.filter(|held: (Seq<u8>, Option<Seq<u8>>)| held.0 != name).push((name, value))
}

/// Say what a recipe's environment holds under one name, in place of whatever
/// it said before.
pub fn set_recipe_environment(
    environment: Vec<(Vec<u8>, Option<Vec<u8>>)>,
    name: Vec<u8>,
    value: Option<Vec<u8>>,
) -> (changed: Vec<(Vec<u8>, Option<Vec<u8>>)>)
    ensures
        meanings(changed@) == with_change(meanings(environment@), name@, maybe(value)),
{
    let ghost all = meanings(environment@);
    let ghost wanted = |held: (Seq<u8>, Option<Seq<u8>>)| held.0 != name@;
    let mut changed: Vec<(Vec<u8>, Option<Vec<u8>>)> = Vec::new();
    let mut at: usize = 0;
    assert(all.take(0).filter(wanted) =~= Seq::empty()) by {
        reveal(Seq::filter);
        assert(all.take(0) =~= Seq::empty());
    }
    assert(meanings(changed@) =~= all.take(0).filter(wanted));
    while at < environment.len()
        invariant
            at <= environment@.len(),
            all == meanings(environment@),
            wanted == (|held: (Seq<u8>, Option<Seq<u8>>)| held.0 != name@),
            meanings(changed@) == all.take(at as int).filter(wanted),
        decreases environment@.len() - at,
    {
        let ghost next = all.take(at as int + 1);
        let ghost before = meanings(changed@);
        proof {
            reveal(Seq::filter);
            assert(next.drop_last() =~= all.take(at as int));
            assert(next.last() == environment@[at as int].meaning());
        }
        if !same(&environment[at].0, &name) {
            changed.push((copied(&environment[at].0), copied_maybe(&environment[at].1)));
            assert(meanings(changed@) =~= before.push(environment@[at as int].meaning()));
        }
        at += 1;
    }
    assert(all.take(at as int) =~= all);
    let ghost before = meanings(changed@);
    let ghost last = (name@, maybe(value));
    changed.push((name, value));
    assert(meanings(changed@) =~= before.push(last));
    changed
}

/// Bytes without the line ends they close with.
pub open spec fn unended(bytes: Seq<u8>) -> Seq<u8>
    decreases bytes.len(),
{
    if bytes.len() > 0 && bytes.last() == 0x0a {
        unended(bytes.drop_last())
    } else {
        bytes
    }
}

/// Bytes without the zeros among them.
pub open spec fn without_zeros(bytes: Seq<u8>) -> Seq<u8>
    decreases bytes.len(),
{
    if bytes.len() == 0 {
        Seq::empty()
    } else if bytes.last() == 0 {
        without_zeros(bytes.drop_last())
    } else {
        without_zeros(bytes.drop_last()).push(bytes.last())
    }
}

/// What a command substitution stands for, once the command has written this.
pub fn substituted(written: &[u8]) -> (output: Vec<u8>)
    ensures
        output@ == without_zeros(unended(written@)),
{
    let mut end: usize = written.len();
    assert(written@.take(end as int) =~= written@);
    while end > 0 && written[end - 1] == 0x0a
        invariant
            end <= written@.len(),
            unended(written@.take(end as int)) == unended(written@),
        decreases end,
    {
        assert(written@.take(end as int).drop_last() =~= written@.take(end - 1));
        end -= 1;
    }
    let ghost kept = written@.take(end as int);
    assert(unended(kept) == kept);
    let mut output: Vec<u8> = Vec::new();
    let mut at: usize = 0;
    assert(kept.take(0) =~= Seq::empty());
    assert(output@ =~= Seq::empty());
    while at < end
        invariant
            at <= end <= written@.len(),
            kept == written@.take(end as int),
            output@ == without_zeros(kept.take(at as int)),
        decreases end - at,
    {
        let ghost next = kept.take(at as int + 1);
        assert(next.drop_last() =~= kept.take(at as int));
        assert(next.last() == written@[at as int]);
        if written[at] != 0 {
            output.push(written[at]);
        }
        at += 1;
    }
    assert(kept.take(at as int) =~= kept);
    output
}

/// What is wrong where a command substitution could not be run.
pub fn substitution_failure(script: &[u8], error: &[u8]) -> (wrong: MakeError)
    ensures
        wrong.model() == Failure::Evaluate(
            text("running recursive Make command substitution '") + lossy(script@) + text("': ")
                + error@,
        ),
{
    let mut said: Vec<u8> = message(
        "running recursive Make command substitution '",
        &to_str_lossy(script),
    );
    append(&mut said, "': ".as_bytes());
    append(&mut said, error);
    MakeError::Evaluate(said)
}


} // verus!
