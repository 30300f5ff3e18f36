//! A binary format as a relation between values and bytes.
//!
//! Every part of the format is a [`Coded`] model: what bytes a value is
//! written as, and which value is read at a place. Its two proofs say that a
//! value is read back as it was written, and that bytes cut short inside a
//! value are refused. Pairs, lists and options of coded models are coded, so
//! what holds of the parts holds of a whole file.

use vstd::bytes::*;
use vstd::prelude::*;
use vstd::utf8::*;

verus! {

/// A model with one way to be written and one way to be read.
pub trait Coded: Sized {
    /// Whether the format can carry this value.
    spec fn carried(self) -> bool;

    /// The bytes this value is written as.
    spec fn written(self) -> Seq<u8>;

    /// The value read at `at`, and where the reader stands after it.
    spec fn read(bytes: Seq<u8>, at: int) -> Option<(Self, int)>;

    /// Reading moves forward and stays within the bytes.
    proof fn moves(bytes: Seq<u8>, at: int)
        requires
            0 <= at <= bytes.len(),
        ensures
            Self::read(bytes, at) matches Some(got) ==> at <= got.1 <= bytes.len(),
    ;

    /// A written value is read back, and the reader stands just past it.
    proof fn reads_back(self, bytes: Seq<u8>, at: int)
        requires
            self.carried(),
            0 <= at,
            at + self.written().len() <= bytes.len(),
            bytes.subrange(at, at + self.written().len()) == self.written(),
        ensures
            Self::read(bytes, at) == Some((self, at + self.written().len())),
    ;

    /// A written value whose bytes run out early is not read.
    proof fn cut_is_refused(self, bytes: Seq<u8>, at: int)
        requires
            self.carried(),
            0 <= at <= bytes.len(),
            bytes.len() < at + self.written().len(),
            bytes.subrange(at, bytes.len() as int) == self.written().take(bytes.len() - at),
        ensures
            Self::read(bytes, at) is None,
    ;
}

/// One byte.
pub struct Octet {
    pub value: u8,
}

/// Four bytes, least significant first.
pub struct Word32 {
    pub value: u32,
}

/// Eight bytes, least significant first.
pub struct Word64 {
    pub value: u64,
}

/// A count or an index, written as eight bytes.
pub struct Count {
    pub value: nat,
}

/// A signed status, written as four bytes in two's complement.
pub struct Status {
    pub value: i32,
}

/// A byte that is zero or one.
pub struct Flag {
    pub value: bool,
}

/// A byte string behind its length.
pub struct Blob {
    pub data: Seq<u8>,
}

/// A byte string behind its length that has to be UTF-8.
pub struct Text {
    pub data: Seq<u8>,
}

/// A list behind its length, each item carrying a model of its own.
pub struct List<A> {
    pub items: Seq<A>,
}

/// The `count` bytes at `at`.
pub open spec fn taken(bytes: Seq<u8>, at: int, count: int) -> Option<Seq<u8>> {
    if 0 <= at && 0 <= count && at + count <= bytes.len() {
        Some(bytes.subrange(at, at + count))
    } else {
        None
    }
}

impl Coded for Octet {
    open spec fn carried(self) -> bool {
        true
    }

    open spec fn written(self) -> Seq<u8> {
        seq![self.value]
    }

    open spec fn read(bytes: Seq<u8>, at: int) -> Option<(Self, int)> {
        match taken(bytes, at, 1) {
            Some(one) => Some((Octet { value: one[0] }, at + 1)),
            None => None,
        }
    }

    proof fn moves(bytes: Seq<u8>, at: int) {
    }

    proof fn reads_back(self, bytes: Seq<u8>, at: int) {
    }

    proof fn cut_is_refused(self, bytes: Seq<u8>, at: int) {
    }
}

impl Coded for Word32 {
    open spec fn carried(self) -> bool {
        true
    }

    open spec fn written(self) -> Seq<u8> {
        spec_u32_to_le_bytes(self.value)
    }

    open spec fn read(bytes: Seq<u8>, at: int) -> Option<(Self, int)> {
        match taken(bytes, at, 4) {
            Some(four) => Some((Word32 { value: spec_u32_from_le_bytes(four) }, at + 4)),
            None => None,
        }
    }

    proof fn moves(bytes: Seq<u8>, at: int) {
    }

    proof fn reads_back(self, bytes: Seq<u8>, at: int) {
        lemma_auto_spec_u32_to_from_le_bytes();
    }

    proof fn cut_is_refused(self, bytes: Seq<u8>, at: int) {
        lemma_auto_spec_u32_to_from_le_bytes();
    }
}

impl Coded for Word64 {
    open spec fn carried(self) -> bool {
        true
    }

    open spec fn written(self) -> Seq<u8> {
        spec_u64_to_le_bytes(self.value)
    }

    open spec fn read(bytes: Seq<u8>, at: int) -> Option<(Self, int)> {
        match taken(bytes, at, 8) {
            Some(eight) => Some((Word64 { value: spec_u64_from_le_bytes(eight) }, at + 8)),
            None => None,
        }
    }

    proof fn moves(bytes: Seq<u8>, at: int) {
    }

    proof fn reads_back(self, bytes: Seq<u8>, at: int) {
        lemma_auto_spec_u64_to_from_le_bytes();
    }

    proof fn cut_is_refused(self, bytes: Seq<u8>, at: int) {
        lemma_auto_spec_u64_to_from_le_bytes();
    }
}

impl Coded for Count {
    open spec fn carried(self) -> bool {
        self.value <= usize::MAX && self.value <= u64::MAX
    }

    open spec fn written(self) -> Seq<u8> {
        Word64 { value: self.value as u64 }.written()
    }

    open spec fn read(bytes: Seq<u8>, at: int) -> Option<(Self, int)> {
        match Word64::read(bytes, at) {
            Some(got) => if got.0.value <= usize::MAX {
                Some((Count { value: got.0.value as nat }, got.1))
            } else {
                None
            },
            None => None,
        }
    }

    proof fn moves(bytes: Seq<u8>, at: int) {
    }

    proof fn reads_back(self, bytes: Seq<u8>, at: int) {
        (Word64 { value: self.value as u64 }).reads_back(bytes, at);
    }

    proof fn cut_is_refused(self, bytes: Seq<u8>, at: int) {
        (Word64 { value: self.value as u64 }).cut_is_refused(bytes, at);
    }
}

/// The two's complement of a status.
pub open spec fn status_bits(value: i32) -> u32 {
    if value >= 0 {
        value as u32
    } else {
        (value + 0x1_0000_0000) as u32
    }
}

/// The status these bits are the two's complement of.
pub open spec fn status_of(bits: u32) -> i32 {
    if bits < 0x8000_0000 {
        bits as i32
    } else {
        (bits - 0x1_0000_0000) as i32
    }
}

impl Coded for Status {
    open spec fn carried(self) -> bool {
        true
    }

    open spec fn written(self) -> Seq<u8> {
        Word32 { value: status_bits(self.value) }.written()
    }

    open spec fn read(bytes: Seq<u8>, at: int) -> Option<(Self, int)> {
        match Word32::read(bytes, at) {
            Some(got) => Some((Status { value: status_of(got.0.value) }, got.1)),
            None => None,
        }
    }

    proof fn moves(bytes: Seq<u8>, at: int) {
    }

    proof fn reads_back(self, bytes: Seq<u8>, at: int) {
        (Word32 { value: status_bits(self.value) }).reads_back(bytes, at);
    }

    proof fn cut_is_refused(self, bytes: Seq<u8>, at: int) {
        (Word32 { value: status_bits(self.value) }).cut_is_refused(bytes, at);
    }
}

/// The byte a flag is written as.
pub open spec fn flag_byte(value: bool) -> u8 {
    if value {
        1
    } else {
        0
    }
}

impl Coded for Flag {
    open spec fn carried(self) -> bool {
        true
    }

    open spec fn written(self) -> Seq<u8> {
        seq![flag_byte(self.value)]
    }

    open spec fn read(bytes: Seq<u8>, at: int) -> Option<(Self, int)> {
        match Octet::read(bytes, at) {
            Some(got) => if got.0.value == 0 {
                Some((Flag { value: false }, got.1))
            } else if got.0.value == 1 {
                Some((Flag { value: true }, got.1))
            } else {
                None
            },
            None => None,
        }
    }

    proof fn moves(bytes: Seq<u8>, at: int) {
    }

    proof fn reads_back(self, bytes: Seq<u8>, at: int) {
        (Octet { value: flag_byte(self.value) }).reads_back(bytes, at);
    }

    proof fn cut_is_refused(self, bytes: Seq<u8>, at: int) {
        (Octet { value: flag_byte(self.value) }).cut_is_refused(bytes, at);
    }
}

impl Coded for Blob {
    open spec fn carried(self) -> bool {
        Count { value: self.data.len() }.carried()
    }

    open spec fn written(self) -> Seq<u8> {
        Count { value: self.data.len() }.written() + self.data
    }

    open spec fn read(bytes: Seq<u8>, at: int) -> Option<(Self, int)> {
        match Count::read(bytes, at) {
            Some(got) => match taken(bytes, got.1, got.0.value as int) {
                Some(data) => Some((Blob { data }, got.1 + got.0.value)),
                None => None,
            },
            None => None,
        }
    }

    proof fn moves(bytes: Seq<u8>, at: int) {
    }

    proof fn reads_back(self, bytes: Seq<u8>, at: int) {
        let length = Count { value: self.data.len() };
        lemma_auto_spec_u64_to_from_le_bytes();
        let whole = self.written();
        assert(whole.subrange(0, 8) =~= length.written());
        assert(whole.subrange(8, whole.len() as int) =~= self.data);
        assert(bytes.subrange(at, at + 8) =~= bytes.subrange(at, at + whole.len()).subrange(0, 8));
        assert(bytes.subrange(at + 8, at + whole.len()) =~= bytes.subrange(
            at,
            at + whole.len(),
        ).subrange(8, whole.len() as int));
        length.reads_back(bytes, at);
    }

    proof fn cut_is_refused(self, bytes: Seq<u8>, at: int) {
        let length = Count { value: self.data.len() };
        lemma_auto_spec_u64_to_from_le_bytes();
        let whole = self.written();
        let rest = bytes.subrange(at, bytes.len() as int);
        if rest.len() < 8 {
            assert(rest =~= length.written().take(rest.len() as int));
            length.cut_is_refused(bytes, at);
        } else {
            assert(bytes.subrange(at, at + 8) =~= rest.take(8));
            assert(rest.take(8) =~= whole.take(8));
            assert(whole.take(8) =~= length.written());
            length.reads_back(bytes, at);
        }
    }
}

impl Coded for Text {
    open spec fn carried(self) -> bool {
        Blob { data: self.data }.carried() && valid_utf8(self.data)
    }

    open spec fn written(self) -> Seq<u8> {
        Blob { data: self.data }.written()
    }

    open spec fn read(bytes: Seq<u8>, at: int) -> Option<(Self, int)> {
        match Blob::read(bytes, at) {
            Some(got) => if valid_utf8(got.0.data) {
                Some((Text { data: got.0.data }, got.1))
            } else {
                None
            },
            None => None,
        }
    }

    proof fn moves(bytes: Seq<u8>, at: int) {
    }

    proof fn reads_back(self, bytes: Seq<u8>, at: int) {
        (Blob { data: self.data }).reads_back(bytes, at);
    }

    proof fn cut_is_refused(self, bytes: Seq<u8>, at: int) {
        (Blob { data: self.data }).cut_is_refused(bytes, at);
    }
}

/// Where the halves of a written pair stand in the bytes that hold it.
pub(crate) proof fn halves(bytes: Seq<u8>, at: int, first: Seq<u8>, second: Seq<u8>)
    requires
        0 <= at,
        at + first.len() + second.len() <= bytes.len(),
        bytes.subrange(at, at + first.len() + second.len()) == first + second,
    ensures
        bytes.subrange(at, at + first.len()) == first,
        bytes.subrange(at + first.len(), at + first.len() + second.len()) == second,
{
    let both = bytes.subrange(at, at + first.len() + second.len());
    assert(bytes.subrange(at, at + first.len()) =~= both.subrange(0, first.len() as int));
    assert(both.subrange(0, first.len() as int) =~= first);
    assert(bytes.subrange(at + first.len(), at + first.len() + second.len()) =~= both.subrange(
        first.len() as int,
        both.len() as int,
    ));
    assert(both.subrange(first.len() as int, both.len() as int) =~= second);
}

/// Which half of a written pair the end of the bytes falls in.
pub(crate) proof fn cut_halves(bytes: Seq<u8>, at: int, first: Seq<u8>, second: Seq<u8>)
    requires
        0 <= at <= bytes.len(),
        bytes.len() < at + first.len() + second.len(),
        bytes.subrange(at, bytes.len() as int) == (first + second).take(bytes.len() - at),
    ensures
        bytes.len() < at + first.len() ==> bytes.subrange(at, bytes.len() as int) == first.take(
            bytes.len() - at,
        ),
        bytes.len() >= at + first.len() ==> {
            &&& bytes.subrange(at, at + first.len()) == first
            &&& bytes.subrange(at + first.len(), bytes.len() as int) == second.take(
                bytes.len() - at - first.len(),
            )
        },
{
    let rest = bytes.subrange(at, bytes.len() as int);
    if bytes.len() < at + first.len() {
        assert((first + second).take(bytes.len() - at) =~= first.take(bytes.len() - at));
    } else {
        assert(bytes.subrange(at, at + first.len()) =~= rest.subrange(0, first.len() as int));
        assert(rest.subrange(0, first.len() as int) =~= first);
        assert(bytes.subrange(at + first.len(), bytes.len() as int) =~= rest.subrange(
            first.len() as int,
            rest.len() as int,
        ));
        assert(rest.subrange(first.len() as int, rest.len() as int) =~= second.take(
            bytes.len() - at - first.len(),
        ));
    }
}

impl<A: Coded, B: Coded> Coded for (A, B) {
    open spec fn carried(self) -> bool {
        self.0.carried() && self.1.carried()
    }

    open spec fn written(self) -> Seq<u8> {
        self.0.written() + self.1.written()
    }

    open spec fn read(bytes: Seq<u8>, at: int) -> Option<(Self, int)> {
        match A::read(bytes, at) {
            Some(first) => match B::read(bytes, first.1) {
                Some(second) => Some(((first.0, second.0), second.1)),
                None => None,
            },
            None => None,
        }
    }

    proof fn moves(bytes: Seq<u8>, at: int) {
        A::moves(bytes, at);
        if let Some(first) = A::read(bytes, at) {
            B::moves(bytes, first.1);
        }
    }

    proof fn reads_back(self, bytes: Seq<u8>, at: int) {
        halves(bytes, at, self.0.written(), self.1.written());
        self.0.reads_back(bytes, at);
        self.1.reads_back(bytes, at + self.0.written().len());
    }

    proof fn cut_is_refused(self, bytes: Seq<u8>, at: int) {
        cut_halves(bytes, at, self.0.written(), self.1.written());
        if bytes.len() < at + self.0.written().len() {
            self.0.cut_is_refused(bytes, at);
        } else {
            self.0.reads_back(bytes, at);
            self.1.cut_is_refused(bytes, at + self.0.written().len());
        }
    }
}

impl<A: Coded> Coded for Option<A> {
    open spec fn carried(self) -> bool {
        match self {
            Some(value) => value.carried(),
            None => true,
        }
    }

    open spec fn written(self) -> Seq<u8> {
        match self {
            Some(value) => Flag { value: true }.written() + value.written(),
            None => Flag { value: false }.written(),
        }
    }

    open spec fn read(bytes: Seq<u8>, at: int) -> Option<(Self, int)> {
        match Flag::read(bytes, at) {
            Some(tag) => if tag.0.value {
                match A::read(bytes, tag.1) {
                    Some(got) => Some((Some(got.0), got.1)),
                    None => None,
                }
            } else {
                Some((None, tag.1))
            },
            None => None,
        }
    }

    proof fn moves(bytes: Seq<u8>, at: int) {
        Flag::moves(bytes, at);
        if let Some(tag) = Flag::read(bytes, at) {
            A::moves(bytes, tag.1);
        }
    }

    proof fn reads_back(self, bytes: Seq<u8>, at: int) {
        let tag = Flag { value: self is Some };
        match self {
            Some(value) => {
                halves(bytes, at, tag.written(), value.written());
                tag.reads_back(bytes, at);
                value.reads_back(bytes, at + tag.written().len());
            },
            None => {
                tag.reads_back(bytes, at);
            },
        }
    }

    proof fn cut_is_refused(self, bytes: Seq<u8>, at: int) {
        let tag = Flag { value: self is Some };
        match self {
            Some(value) => {
                cut_halves(bytes, at, tag.written(), value.written());
                if bytes.len() < at + tag.written().len() {
                    tag.cut_is_refused(bytes, at);
                } else {
                    tag.reads_back(bytes, at);
                    value.cut_is_refused(bytes, at + tag.written().len());
                }
            },
            None => {
                tag.cut_is_refused(bytes, at);
            },
        }
    }
}

/// Every item of a list, one after the other.
pub open spec fn items_written<A: Coded>(items: Seq<A>) -> Seq<u8>
    decreases items.len(),
{
    if items.len() == 0 {
        Seq::empty()
    } else {
        items_written(items.drop_last()) + items.last().written()
    }
}

/// The `count` items that stand one after the other from `at`.
pub open spec fn items_read<A: Coded>(bytes: Seq<u8>, at: int, count: nat) -> Option<(Seq<A>, int)>
    decreases count,
{
    if count == 0 {
        Some((Seq::empty(), at))
    } else {
        match items_read::<A>(bytes, at, (count - 1) as nat) {
            Some(before) => match A::read(bytes, before.1) {
                Some(last) => Some((before.0.push(last.0), last.1)),
                None => None,
            },
            None => None,
        }
    }
}

/// Items that are missing stay missing however many more are wanted.
pub proof fn missing_items_stay_missing<A: Coded>(bytes: Seq<u8>, at: int, few: nat, many: nat)
    requires
        few <= many,
        items_read::<A>(bytes, at, few) is None,
    ensures
        items_read::<A>(bytes, at, many) is None,
    decreases many - few,
{
    if few < many {
        missing_items_stay_missing::<A>(bytes, at, few, (many - 1) as nat);
    }
}

pub(crate) proof fn items_move<A: Coded>(bytes: Seq<u8>, at: int, count: nat)
    requires
        0 <= at <= bytes.len(),
    ensures
        items_read::<A>(bytes, at, count) matches Some(got) ==> at <= got.1 <= bytes.len(),
    decreases count,
{
    if count > 0 {
        items_move::<A>(bytes, at, (count - 1) as nat);
        if let Some(before) = items_read::<A>(bytes, at, (count - 1) as nat) {
            A::moves(bytes, before.1);
        }
    }
}

pub(crate) proof fn items_read_back<A: Coded>(items: Seq<A>, bytes: Seq<u8>, at: int)
    requires
        forall|i: int| 0 <= i < items.len() ==> (#[trigger] items[i]).carried(),
        0 <= at,
        at + items_written(items).len() <= bytes.len(),
        bytes.subrange(at, at + items_written(items).len()) == items_written(items),
    ensures
        items_read::<A>(bytes, at, items.len()) == Some((items, at + items_written(items).len())),
    decreases items.len(),
{
    if items.len() > 0 {
        let before = items.drop_last();
        halves(bytes, at, items_written(before), items.last().written());
        items_read_back(before, bytes, at);
        items.last().reads_back(bytes, at + items_written(before).len());
        assert(before.push(items.last()) =~= items);
    } else {
        assert(items =~= Seq::empty());
    }
}

pub(crate) proof fn cut_items_are_refused<A: Coded>(items: Seq<A>, bytes: Seq<u8>, at: int)
    requires
        forall|i: int| 0 <= i < items.len() ==> (#[trigger] items[i]).carried(),
        0 <= at <= bytes.len(),
        bytes.len() < at + items_written(items).len(),
        bytes.subrange(at, bytes.len() as int) == items_written(items).take(bytes.len() - at),
    ensures
        items_read::<A>(bytes, at, items.len()) is None,
    decreases items.len(),
{
    if items.len() > 0 {
        let before = items.drop_last();
        cut_halves(bytes, at, items_written(before), items.last().written());
        if bytes.len() < at + items_written(before).len() {
            cut_items_are_refused(before, bytes, at);
        } else {
            items_read_back(before, bytes, at);
            items.last().cut_is_refused(bytes, at + items_written(before).len());
        }
    }
}

impl<A: Coded> Coded for List<A> {
    open spec fn carried(self) -> bool {
        &&& Count { value: self.items.len() }.carried()
        &&& forall|i: int| 0 <= i < self.items.len() ==> (#[trigger] self.items[i]).carried()
    }

    open spec fn written(self) -> Seq<u8> {
        Count { value: self.items.len() }.written() + items_written(self.items)
    }

    open spec fn read(bytes: Seq<u8>, at: int) -> Option<(Self, int)> {
        match Count::read(bytes, at) {
            Some(count) => match items_read::<A>(bytes, count.1, count.0.value) {
                Some(got) => Some((List { items: got.0 }, got.1)),
                None => None,
            },
            None => None,
        }
    }

    proof fn moves(bytes: Seq<u8>, at: int) {
        Count::moves(bytes, at);
        if let Some(count) = Count::read(bytes, at) {
            items_move::<A>(bytes, count.1, count.0.value);
        }
    }

    proof fn reads_back(self, bytes: Seq<u8>, at: int) {
        let count = Count { value: self.items.len() };
        halves(bytes, at, count.written(), items_written(self.items));
        count.reads_back(bytes, at);
        items_read_back(self.items, bytes, at + count.written().len());
    }

    proof fn cut_is_refused(self, bytes: Seq<u8>, at: int) {
        let count = Count { value: self.items.len() };
        cut_halves(bytes, at, count.written(), items_written(self.items));
        if bytes.len() < at + count.written().len() {
            count.cut_is_refused(bytes, at);
        } else {
            count.reads_back(bytes, at);
            cut_items_are_refused(self.items, bytes, at + count.written().len());
        }
    }
}

/// The value a whole file holds, with nothing after it.
pub open spec fn file_read<A: Coded>(bytes: Seq<u8>) -> Option<A> {
    match A::read(bytes, 0) {
        Some(got) => if got.1 == bytes.len() {
            Some(got.0)
        } else {
            None
        },
        None => None,
    }
}

/// A file holding one written value is read back as that value.
pub proof fn a_file_reads_back<A: Coded>(value: A)
    requires
        value.carried(),
    ensures
        file_read::<A>(value.written()) == Some(value),
{
    let bytes = value.written();
    assert(bytes.subrange(0, bytes.len() as int) =~= bytes);
    value.reads_back(bytes, 0);
}

/// A file cut short anywhere is refused.
pub proof fn a_cut_file_is_refused<A: Coded>(value: A, end: int)
    requires
        value.carried(),
        0 <= end < value.written().len(),
    ensures
        file_read::<A>(value.written().take(end)) is None,
{
    let bytes = value.written().take(end);
    assert(bytes.subrange(0, bytes.len() as int) =~= value.written().take(bytes.len() as int));
    value.cut_is_refused(bytes, 0);
}

} // verus!
