//! Byte strings: the plain value every name, path and command line is.

use bstr::ByteSlice;
use vstd::prelude::*;
use vstd::string::*;
use vstd::utf8::*;

verus! {

/// The bytes a piece of literal text is written as.
pub open spec fn text(s: &str) -> Seq<u8> {
    s.spec_bytes()
}

/// The contents of a list of byte strings.
pub open spec fn texts(list: Seq<Vec<u8>>) -> Seq<Seq<u8>> {
    Seq::new(list.len(), |i: int| list[i]@)
}

/// The contents of an optional byte string.
pub open spec fn maybe(value: Option<Vec<u8>>) -> Option<Seq<u8>> {
    match value {
        Some(held) => Some(held@),
        None => None,
    }
}

/// Whether two byte strings hold the same bytes.
pub fn same(left: &[u8], right: &[u8]) -> (answer: bool)
    ensures
        answer == (left@ == right@),
{
    if left.len() != right.len() {
        return false;
    }
    let mut at: usize = 0;
    while at < left.len()
        invariant
            at <= left.len(),
            left@.len() == right@.len(),
            forall|i: int| 0 <= i < at ==> left@[i] == right@[i],
        decreases left.len() - at,
    {
        if left[at] != right[at] {
            return false;
        }
        at += 1;
    }
    assert(left@ =~= right@);
    true
}

/// Add `more` at the end of `out`.
pub fn append(out: &mut Vec<u8>, more: &[u8])
    ensures
        final(out)@ == old(out)@ + more@,
{
    let ghost before = out@;
    out.extend_from_slice(more);
    assert(out@ =~= before + more@);
}

/// A byte string of its own with these bytes.
pub fn copied(bytes: &[u8]) -> (copy: Vec<u8>)
    ensures
        copy@ == bytes@,
{
    let mut copy: Vec<u8> = Vec::new();
    append(&mut copy, bytes);
    assert(copy@ =~= bytes@);
    copy
}

/// A byte string holding literal text.
pub fn literal(s: &str) -> (written: Vec<u8>)
    ensures
        written@ == text(s),
{
    copied(s.as_bytes())
}

/// The bytes from `start` up to, and not including, `end`.
pub fn part(bytes: &[u8], start: usize, end: usize) -> (copy: Vec<u8>)
    requires
        start <= end <= bytes@.len(),
    ensures
        copy@ == bytes@.subrange(start as int, end as int),
{
    copied(vstd::slice::slice_subrange(bytes, start, end))
}

/// Copies of every byte string in a list.
pub fn copied_all(list: &[Vec<u8>]) -> (copies: Vec<Vec<u8>>)
    ensures
        texts(copies@) == texts(list@),
{
    let mut copies: Vec<Vec<u8>> = Vec::new();
    let mut at: usize = 0;
    while at < list.len()
        invariant
            at <= list.len(),
            copies@.len() == at,
            forall|i: int| 0 <= i < at ==> #[trigger] copies@[i]@ == list@[i]@,
        decreases list.len() - at,
    {
        copies.push(copied(&list[at]));
        at += 1;
    }
    assert(texts(copies@) =~= texts(list@));
    copies
}

/// A copy of an optional byte string.
pub fn copied_maybe(value: &Option<Vec<u8>>) -> (copy: Option<Vec<u8>>)
    ensures
        maybe(copy) == maybe(*value),
{
    match value {
        Some(held) => Some(copied(held)),
        None => None,
    }
}

/// Whether a list of byte strings holds these bytes.
pub fn holds(list: &[Vec<u8>], wanted: &[u8]) -> (answer: bool)
    ensures
        answer == texts(list@).contains(wanted@),
{
    let mut at: usize = 0;
    while at < list.len()
        invariant
            at <= list.len(),
            forall|i: int| 0 <= i < at ==> list@[i]@ != wanted@,
        decreases list.len() - at,
    {
        if same(&list[at], wanted) {
            assert(texts(list@)[at as int] == wanted@);
            return true;
        }
        at += 1;
    }
    assert(!texts(list@).contains(wanted@)) by {
        if texts(list@).contains(wanted@) {
            let i = choose|i: int| 0 <= i < texts(list@).len() && texts(list@)[i] == wanted@;
            assert(list@[i]@ == wanted@);
        }
    }
    false
}

/// A byte that ends a word: ASCII whitespace, which is a space, a tab, a
/// newline, a form feed or a carriage return.
pub open spec fn blank(byte: u8) -> bool {
    byte == 0x20 || byte == 0x09 || byte == 0x0a || byte == 0x0c || byte == 0x0d
}

/// Whether `byte` is ASCII whitespace.
pub fn is_blank(byte: u8) -> (answer: bool)
    ensures
        answer == blank(byte),
{
    byte == 0x20 || byte == 0x09 || byte == 0x0a || byte == 0x0c || byte == 0x0d
}

/// Whether `bytes` begins with `prefix`.
pub open spec fn begins(bytes: Seq<u8>, prefix: Seq<u8>) -> bool {
    prefix.len() <= bytes.len() && bytes.subrange(0, prefix.len() as int) == prefix
}

/// Whether `bytes` ends with `suffix`.
pub open spec fn ends(bytes: Seq<u8>, suffix: Seq<u8>) -> bool {
    suffix.len() <= bytes.len() && bytes.subrange(
        bytes.len() - suffix.len(),
        bytes.len() as int,
    ) == suffix
}

/// Whether `bytes` begins with `prefix`.
pub fn starts_with(bytes: &[u8], prefix: &[u8]) -> (answer: bool)
    ensures
        answer == begins(bytes@, prefix@),
{
    if prefix.len() > bytes.len() {
        return false;
    }
    same(vstd::slice::slice_subrange(bytes, 0, prefix.len()), prefix)
}

/// Whether `bytes` ends with `suffix`.
pub fn ends_with(bytes: &[u8], suffix: &[u8]) -> (answer: bool)
    ensures
        answer == ends(bytes@, suffix@),
{
    if suffix.len() > bytes.len() {
        return false;
    }
    same(vstd::slice::slice_subrange(bytes, bytes.len() - suffix.len(), bytes.len()), suffix)
}

/// Where `wanted` first stands at or after `from`, or the length where it does
/// not.
pub open spec fn first_at(bytes: Seq<u8>, wanted: u8, from: int) -> int
    decreases bytes.len() - from,
{
    if from < 0 || from >= bytes.len() {
        bytes.len() as int
    } else if bytes[from] == wanted {
        from
    } else {
        first_at(bytes, wanted, from + 1)
    }
}

/// What [`first_at`] finds is the wanted byte, with none before it.
pub proof fn first_at_is_first(bytes: Seq<u8>, wanted: u8, from: int)
    requires
        0 <= from <= bytes.len(),
    ensures
        from <= first_at(bytes, wanted, from) <= bytes.len(),
        first_at(bytes, wanted, from) < bytes.len() ==> bytes[first_at(bytes, wanted, from)]
            == wanted,
        forall|i: int| from <= i < first_at(bytes, wanted, from) ==> bytes[i] != wanted,
    decreases bytes.len() - from,
{
    if from < bytes.len() && bytes[from] != wanted {
        first_at_is_first(bytes, wanted, from + 1);
    }
}

/// The first place at or after `from` holding `wanted`, or the length.
pub fn find(bytes: &[u8], wanted: u8, from: usize) -> (at: usize)
    requires
        from <= bytes@.len(),
    ensures
        at == first_at(bytes@, wanted, from as int),
        from <= at <= bytes@.len(),
        at < bytes@.len() ==> bytes@[at as int] == wanted,
        forall|i: int| from <= i < at ==> bytes@[i] != wanted,
{
    proof {
        first_at_is_first(bytes@, wanted, from as int);
    }
    let mut at: usize = from;
    while at < bytes.len() && bytes[at] != wanted
        invariant
            from <= at <= bytes@.len(),
            first_at(bytes@, wanted, at as int) == first_at(bytes@, wanted, from as int),
        decreases bytes.len() - at,
    {
        at += 1;
    }
    at
}

/// Whether `wanted` is one of the bytes.
pub fn contains_byte(bytes: &[u8], wanted: u8) -> (answer: bool)
    ensures
        answer == bytes@.contains(wanted),
{
    let at: usize = find(bytes, wanted, 0);
    if at < bytes.len() {
        assert(bytes@[at as int] == wanted);
        return true;
    }
    false
}

/// The words of `bytes` from `at`, `word` being what the first of them already
/// holds: every longest stretch without whitespace that is not empty.
pub open spec fn fields_from(bytes: Seq<u8>, at: int, word: Seq<u8>) -> Seq<Seq<u8>>
    decreases bytes.len() - at,
{
    if at < 0 || at >= bytes.len() {
        if word.len() > 0 {
            seq![word]
        } else {
            Seq::empty()
        }
    } else if blank(bytes[at]) {
        if word.len() > 0 {
            seq![word] + fields_from(bytes, at + 1, Seq::empty())
        } else {
            fields_from(bytes, at + 1, Seq::empty())
        }
    } else {
        fields_from(bytes, at + 1, word.push(bytes[at]))
    }
}

/// The words of `bytes`: every longest stretch without whitespace that is not
/// empty.
pub open spec fn fields(bytes: Seq<u8>) -> Seq<Seq<u8>> {
    fields_from(bytes, 0, Seq::empty())
}

/// Split bytes into words at whitespace.
pub fn split_fields(bytes: &[u8]) -> (words: Vec<Vec<u8>>)
    ensures
        texts(words@) == fields(bytes@),
{
    let mut words: Vec<Vec<u8>> = Vec::new();
    let mut word: Vec<u8> = Vec::new();
    let mut at: usize = 0;
    assert(texts(words@) + fields_from(bytes@, 0, word@) =~= fields(bytes@));
    while at < bytes.len()
        invariant
            at <= bytes@.len(),
            texts(words@) + fields_from(bytes@, at as int, word@) == fields(bytes@),
        decreases bytes@.len() - at,
    {
        let byte: u8 = bytes[at];
        let ghost known = texts(words@);
        let ghost held = word@;
        if is_blank(byte) {
            if word.len() > 0 {
                words.push(word);
                word = Vec::new();
                assert(texts(words@) =~= known.push(held));
                assert(texts(words@) + fields_from(bytes@, at + 1, word@) =~= known + (seq![held]
                    + fields_from(bytes@, at + 1, Seq::empty())));
            } else {
                assert(word@ =~= Seq::empty());
            }
        } else {
            word.push(byte);
        }
        at += 1;
    }
    if word.len() > 0 {
        let ghost known = texts(words@);
        let ghost held = word@;
        words.push(word);
        assert(texts(words@) =~= known.push(held));
        assert(known.push(held) =~= known + seq![held]);
    } else {
        assert(texts(words@) + Seq::<Seq<u8>>::empty() =~= texts(words@));
    }
    words
}

/// Every piece in order with `between` standing between each two.
pub open spec fn joined(pieces: Seq<Seq<u8>>, between: Seq<u8>) -> Seq<u8>
    decreases pieces.len(),
{
    if pieces.len() == 0 {
        Seq::empty()
    } else if pieces.len() == 1 {
        pieces[0]
    } else {
        joined(pieces.drop_last(), between) + between + pieces.last()
    }
}

/// Write every piece in order with `between` standing between each two.
pub fn join(pieces: &[Vec<u8>], between: &[u8]) -> (line: Vec<u8>)
    ensures
        line@ == joined(texts(pieces@), between@),
{
    let mut line: Vec<u8> = Vec::new();
    let mut at: usize = 0;
    while at < pieces.len()
        invariant
            at <= pieces.len(),
            line@ == joined(texts(pieces@).take(at as int), between@),
        decreases pieces.len() - at,
    {
        let ghost before = texts(pieces@).take(at as int);
        let ghost after = texts(pieces@).take(at as int + 1);
        assert(after.drop_last() =~= before);
        assert(after.last() == pieces@[at as int]@);
        if at > 0 {
            append(&mut line, between);
        }
        append(&mut line, &pieces[at]);
        assert(line@ =~= joined(after, between@));
        at += 1;
    }
    assert(texts(pieces@).take(at as int) =~= texts(pieces@));
    line
}

/// The first place at or after `from` where `wanted` stands.
pub open spec fn text_at(bytes: Seq<u8>, wanted: Seq<u8>, from: int) -> Option<int>
    decreases bytes.len() - from,
{
    if from < 0 || from + wanted.len() > bytes.len() {
        None
    } else if bytes.subrange(from, from + wanted.len()) == wanted {
        Some(from)
    } else if from == bytes.len() {
        None
    } else {
        text_at(bytes, wanted, from + 1)
    }
}

/// The first place at or after `from` where `wanted` stands.
pub fn find_text(bytes: &[u8], wanted: &[u8], from: usize) -> (at: Option<usize>)
    requires
        from <= bytes@.len(),
    ensures
        match at {
            Some(place) => text_at(bytes@, wanted@, from as int) == Some(place as int) && from
                <= place && place + wanted@.len() <= bytes@.len(),
            None => text_at(bytes@, wanted@, from as int) is None,
        },
{
    let mut at: usize = from;
    while at <= bytes.len() && wanted.len() <= bytes.len() - at
        invariant
            from <= at <= bytes@.len(),
            text_at(bytes@, wanted@, at as int) == text_at(bytes@, wanted@, from as int),
        decreases bytes@.len() - at,
    {
        if same(vstd::slice::slice_subrange(bytes, at, at + wanted.len()), wanted) {
            return Some(at);
        }
        if at == bytes.len() {
            return None;
        }
        at += 1;
    }
    None
}

/// The bytes from `at` with every `wanted` in them, taken from the left,
/// written as `instead`.
pub open spec fn replaced(bytes: Seq<u8>, at: int, wanted: Seq<u8>, instead: Seq<u8>) -> Seq<u8>
    decreases bytes.len() - at,
{
    if at < 0 || at >= bytes.len() {
        Seq::empty()
    } else if wanted.len() > 0 && at + wanted.len() <= bytes.len() && bytes.subrange(
        at,
        at + wanted.len(),
    ) == wanted {
        instead + replaced(bytes, at + wanted.len(), wanted, instead)
    } else {
        seq![bytes[at]] + replaced(bytes, at + 1, wanted, instead)
    }
}

/// Write `instead` for every `wanted`, taken from the left.
pub fn replace(bytes: &[u8], wanted: &[u8], instead: &[u8]) -> (written: Vec<u8>)
    ensures
        written@ == replaced(bytes@, 0, wanted@, instead@),
{
    let mut written: Vec<u8> = Vec::new();
    let mut at: usize = 0;
    assert(written@ + replaced(bytes@, 0, wanted@, instead@) =~= replaced(
        bytes@,
        0,
        wanted@,
        instead@,
    ));
    while at < bytes.len()
        invariant
            at <= bytes@.len(),
            written@ + replaced(bytes@, at as int, wanted@, instead@) == replaced(
                bytes@,
                0,
                wanted@,
                instead@,
            ),
        decreases bytes@.len() - at,
    {
        let ghost before = written@;
        if wanted.len() > 0 && wanted.len() <= bytes.len() - at && same(
            vstd::slice::slice_subrange(bytes, at, at + wanted.len()),
            wanted,
        ) {
            append(&mut written, instead);
            assert(written@ + replaced(bytes@, at + wanted@.len(), wanted@, instead@) =~= before
                + (instead@ + replaced(bytes@, at + wanted@.len(), wanted@, instead@)));
            at += wanted.len();
        } else {
            written.push(bytes[at]);
            assert(written@ + replaced(bytes@, at + 1, wanted@, instead@) =~= before + (
            seq![bytes@[at as int]] + replaced(bytes@, at + 1, wanted@, instead@)));
            at += 1;
        }
    }
    assert(written@ + Seq::<u8>::empty() =~= written@);
    written
}

/// The bytes behind a prefix that is there.
pub open spec fn after_prefix(bytes: Seq<u8>, prefix: Seq<u8>) -> Option<Seq<u8>> {
    if begins(bytes, prefix) {
        Some(bytes.skip(prefix.len() as int))
    } else {
        None
    }
}

/// The bytes behind a prefix, where it is there.
pub fn strip_prefix(bytes: &[u8], prefix: &[u8]) -> (rest: Option<Vec<u8>>)
    ensures
        maybe(rest) == after_prefix(bytes@, prefix@),
{
    if starts_with(bytes, prefix) {
        let rest: Vec<u8> = part(bytes, prefix.len(), bytes.len());
        assert(rest@ =~= bytes@.skip(prefix@.len() as int));
        Some(rest)
    } else {
        None
    }
}

/// Text as the lines of a stream: with a newline at its end, unless there is
/// nothing to end.
pub open spec fn ended(said: Seq<u8>) -> Seq<u8> {
    if said.len() == 0 || said.last() == 0x0a {
        said
    } else {
        said.push(0x0a)
    }
}

/// End text with a newline, unless there is nothing to end.
pub fn terminated(said: Vec<u8>) -> (lines: Vec<u8>)
    ensures
        lines@ == ended(said@),
{
    let mut lines: Vec<u8> = said;
    if lines.len() > 0 && lines[lines.len() - 1] != 0x0a {
        lines.push(0x0a);
    }
    lines
}

/// A number in decimal digits, most significant first and none of them a
/// needless zero.
pub open spec fn decimal(value: nat) -> Seq<u8>
    decreases value,
{
    if value < 10 {
        seq![(48 + value) as u8]
    } else {
        decimal(value / 10).push((48 + value % 10) as u8)
    }
}

/// Write a number in decimal digits.
pub fn decimal_of(value: u64) -> (digits: Vec<u8>)
    ensures
        digits@ == decimal(value as nat),
    decreases value,
{
    let mut digits: Vec<u8>;
    if value < 10 {
        digits = Vec::new();
        digits.push((48 + value) as u8);
        assert(digits@ =~= decimal(value as nat));
    } else {
        digits = decimal_of(value / 10);
        digits.push((48 + value % 10) as u8);
    }
    digits
}

/// Whether every byte is a decimal digit.
pub open spec fn all_digits(bytes: Seq<u8>) -> bool {
    forall|i: int| 0 <= i < bytes.len() ==> 48 <= #[trigger] bytes[i] && bytes[i] <= 57
}

/// Whether every byte is a decimal digit.
pub fn are_digits(bytes: &[u8]) -> (answer: bool)
    ensures
        answer == all_digits(bytes@),
{
    let mut at: usize = 0;
    while at < bytes.len()
        invariant
            at <= bytes@.len(),
            forall|i: int| 0 <= i < at ==> 48 <= #[trigger] bytes@[i] && bytes@[i] <= 57,
        decreases bytes@.len() - at,
    {
        if bytes[at] < 48 || bytes[at] > 57 {
            assert(!(48 <= bytes@[at as int] && bytes@[at as int] <= 57));
            return false;
        }
        at += 1;
    }
    true
}

/// The number decimal digits stand for.
pub open spec fn digits_value(digits: Seq<u8>) -> nat
    decreases digits.len(),
{
    if digits.len() == 0 {
        0
    } else {
        digits_value(digits.drop_last()) * 10 + (digits.last() - 48) as nat
    }
}

/// The number a text spells: decimal digits, which a plus sign may stand in
/// front of, and no more than `limit`.
pub open spec fn number(spelled: Seq<u8>, limit: nat) -> Option<nat> {
    let digits = if spelled.len() > 0 && spelled[0] == 0x2b {
        spelled.skip(1)
    } else {
        spelled
    };
    if digits.len() > 0 && all_digits(digits) && digits_value(digits) <= limit {
        Some(digits_value(digits))
    } else {
        None
    }
}

/// A shorter run of digits stands for no more than a longer one.
proof fn digits_value_grows(digits: Seq<u8>, few: int)
    requires
        all_digits(digits),
        0 <= few <= digits.len(),
    ensures
        digits_value(digits.take(few)) <= digits_value(digits),
    decreases digits.len() - few,
{
    if few < digits.len() {
        let next = digits.take(few + 1);
        assert(next.drop_last() =~= digits.take(few));
        digits_value_grows(digits, few + 1);
    } else {
        assert(digits.take(few) =~= digits);
    }
}

/// Read the number a text spells.
pub fn read_number(spelled: &[u8], limit: u64) -> (value: Option<u64>)
    ensures
        match value {
            Some(read) => number(spelled@, limit as nat) == Some(read as nat),
            None => number(spelled@, limit as nat) is None,
        },
{
    let start: usize = if spelled.len() > 0 && spelled[0] == 0x2b {
        1
    } else {
        0
    };
    let digits: Vec<u8> = part(spelled, start, spelled.len());
    assert(digits@ =~= if start == 1 {
        spelled@.skip(1)
    } else {
        spelled@
    });
    if digits.len() == 0 || !are_digits(&digits) {
        return None;
    }
    let mut read: u64 = 0;
    let mut at: usize = 0;
    assert(digits@.take(0) =~= Seq::empty());
    while at < digits.len()
        invariant
            at <= digits@.len(),
            all_digits(digits@),
            digits@.len() > 0,
            digits@ == (if spelled@.len() > 0 && spelled@[0] == 0x2b {
                spelled@.skip(1)
            } else {
                spelled@
            }),
            read == digits_value(digits@.take(at as int)),
            read <= limit,
        decreases digits@.len() - at,
    {
        let digit: u64 = (digits[at] - 48) as u64;
        proof {
            let next = digits@.take(at as int + 1);
            assert(next.drop_last() =~= digits@.take(at as int));
            digits_value_grows(digits@, at as int + 1);
        }
        if read > (u64::MAX - digit) / 10 {
            return None;
        }
        let grown: u64 = read * 10 + digit;
        if grown > limit {
            return None;
        }
        read = grown;
        at += 1;
    }
    assert(digits@.take(at as int) =~= digits@);
    Some(read)
}

/// One hexadecimal digit, in lower case.
pub open spec fn hex_digit(value: nat) -> u8 {
    if value < 10 {
        (48 + value) as u8
    } else {
        (87 + value) as u8
    }
}

/// The last `width` hexadecimal digits of a number.
pub open spec fn hex(value: nat, width: nat) -> Seq<u8>
    decreases width,
{
    if width == 0 {
        Seq::empty()
    } else {
        hex(value / 16, (width - 1) as nat).push(hex_digit(value % 16))
    }
}

/// Write the last `width` hexadecimal digits of a number.
pub fn hex_of(value: u64, width: usize) -> (digits: Vec<u8>)
    ensures
        digits@ == hex(value as nat, width as nat),
    decreases width,
{
    if width == 0 {
        return Vec::new();
    }
    let mut digits: Vec<u8> = hex_of(value / 16, width - 1);
    let digit: u64 = value % 16;
    if digit < 10 {
        digits.push((48 + digit) as u8);
    } else {
        digits.push((87 + digit) as u8);
    }
    digits
}

/// The text `bytes` stands for, every stretch of it that is not UTF-8 replaced
/// by U+FFFD.
pub uninterp spec fn lossy(bytes: Seq<u8>) -> Seq<u8>;

/// `bstr::ByteSlice::to_str_lossy`, as bytes.
///
/// Claimed of it: what it answers depends on the bytes alone and is UTF-8, and
/// bytes that are UTF-8 already come back as they are.
#[verifier::external_body]
pub(crate) fn to_str_lossy(bytes: &[u8]) -> (shown: Vec<u8>)
    ensures
        shown@ == lossy(bytes@),
        valid_utf8(shown@),
        valid_utf8(bytes@) ==> shown@ == bytes@,
{
    bytes.to_str_lossy().into_owned().into_bytes()
}

/// `std::str::from_utf8`, asked only whether it accepts the bytes.
///
/// Claimed of it: it accepts exactly the bytes that are UTF-8.
#[verifier::external_body]
pub(crate) fn is_utf8(bytes: &[u8]) -> (answer: bool)
    ensures
        answer == valid_utf8(bytes@),
{
    std::str::from_utf8(bytes).is_ok()
}

/// `String::from_utf8`.
///
/// Claimed of it: it takes exactly the bytes that are UTF-8, and the text it
/// gives is written as those bytes.
#[verifier::external_body]
pub(crate) fn from_utf8(bytes: Vec<u8>) -> (decoded: Option<String>)
    ensures
        match decoded {
            Some(held) => valid_utf8(bytes@) && encode_utf8(held@) == bytes@,
            None => !valid_utf8(bytes@),
        },
{
    String::from_utf8(bytes).ok()
}

/// Whether a byte is one of the whitespace characters ASCII has.
pub open spec fn ascii_space(byte: u8) -> bool {
    9 <= byte <= 13 || byte == 0x20
}

/// Whether every byte is an ASCII character.
pub open spec fn ascii(bytes: Seq<u8>) -> bool {
    forall|i: int| 0 <= i < bytes.len() ==> #[trigger] bytes[i] < 0x80
}

/// Bytes without the whitespace in front of them.
pub open spec fn without_space_before(bytes: Seq<u8>) -> Seq<u8>
    decreases bytes.len(),
{
    if bytes.len() > 0 && ascii_space(bytes[0]) {
        without_space_before(bytes.drop_first())
    } else {
        bytes
    }
}

/// Bytes without the whitespace behind them.
pub open spec fn without_space_behind(bytes: Seq<u8>) -> Seq<u8>
    decreases bytes.len(),
{
    if bytes.len() > 0 && ascii_space(bytes.last()) {
        without_space_behind(bytes.drop_last())
    } else {
        bytes
    }
}

/// What is left of a text without the whitespace in front of it and behind it.
pub uninterp spec fn trimmed(bytes: Seq<u8>) -> Seq<u8>;

/// `bstr::ByteSlice::trim`, as a copy.
///
/// Claimed of it: what it answers depends on the bytes alone, and of ASCII it
/// takes the whitespace in front and then the whitespace behind away. Which
/// other characters are whitespace is the Unicode property the crate's tables
/// hold, and is not said here.
#[verifier::external_body]
pub(crate) fn trim(bytes: &[u8]) -> (rest: Vec<u8>)
    ensures
        rest@ == trimmed(bytes@),
        ascii(bytes@) ==> rest@ == without_space_behind(without_space_before(bytes@)),
{
    bytes.trim().to_vec()
}

/// How bytes are written inside double quotes for a reader.
pub uninterp spec fn debugged(bytes: Seq<u8>) -> Seq<u8>;

/// `bstr::BStr`'s `Debug`, as bytes.
///
/// Claimed of it: what it writes depends on the bytes alone. How each byte is
/// escaped is the crate's own, and is not said here.
#[verifier::external_body]
pub(crate) fn debug_bytes(bytes: &[u8]) -> (shown: Vec<u8>)
    ensures
        shown@ == debugged(bytes@),
{
    format!("{:?}", bytes.as_bstr()).into_bytes()
}

/// How text is written inside double quotes for a reader.
pub uninterp spec fn debugged_text(shown: Seq<char>) -> Seq<u8>;

/// `str`'s `Debug`, as bytes.
///
/// Claimed of it: what it writes depends on the text alone. How each character
/// is escaped is the standard library's own, and is not said here.
#[verifier::external_body]
pub(crate) fn debug_text(shown: &str) -> (quoted: Vec<u8>)
    ensures
        quoted@ == debugged_text(shown@),
{
    format!("{shown:?}").into_bytes()
}

/// How bytes are written inside double quotes, as the text they stand for.
pub open spec fn shown_quoted(bytes: Seq<u8>) -> Seq<u8> {
    debugged_text(decode_utf8(lossy(bytes)))
}

/// Write bytes inside double quotes, as the text they stand for.
pub fn quote_shown(bytes: &[u8]) -> (quoted: Vec<u8>)
    ensures
        quoted@ == shown_quoted(bytes@),
{
    let shown: Vec<u8> = to_str_lossy(bytes);
    match from_utf8(shown) {
        Some(held) => {
            proof {
                encode_utf8_decode_utf8(held@);
            }
            debug_text(held.as_str())
        },
        None => {
            assert(false);
            Vec::new()
        },
    }
}

} // verus!
