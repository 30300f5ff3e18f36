//! The options Make has, one by one: what each spelling names.

use crate::bytes::{
    decimal, decimal_of, literal, maybe, number, read_number, same, text, texts,
};
use vstd::prelude::*;
use vstd::string::*;

verus! {

/// Basic narration.
pub const DB_BASIC: u16 = 0x001;

/// A verbose account.
pub const DB_VERBOSE: u16 = 0x002;

/// Jobs.
pub const DB_JOBS: u16 = 0x004;

/// The search for implicit rules.
pub const DB_IMPLICIT: u16 = 0x008;

/// Printing each recipe.
pub const DB_PRINT: u16 = 0x010;

/// Why each recipe runs.
pub const DB_WHY: u16 = 0x020;

/// The remaking of makefiles.
pub const DB_MAKEFILES: u16 = 0x100;

/// Everything.
pub const DB_ALL: u16 = 0xfff;

/// Which of Make's option streams one word came from.
#[derive(Clone, Copy, PartialEq, Eq, Structural, Debug)]
pub enum ArgumentSource {
    Inherited,
    CommandLine,
    Makefile,
    /// The command line and inherited environment read a second time, over a
    /// Makefile's write to `MAKEFLAGS`, so that a switch typed on the command
    /// line outranks one the Makefile took away.
    Protection,
}

/// What a `--shuffle` reaching Make through one stream does.
#[derive(Clone, Copy, PartialEq, Eq, Structural, Debug)]
pub enum ShuffleEffect {
    /// Names the order this run builds in, so the word has to name a mode and
    /// what travels onward is the permutation it settled on.
    Settles,
    /// Lands in the switch table and nothing looks at it.
    Republishes,
    /// Passes over it.
    Ignored,
}

impl ArgumentSource {
    /// Whether a switch this stream got wrong ends the run.
    pub open spec fn refuses(self) -> bool {
        self == ArgumentSource::Inherited || self == ArgumentSource::CommandLine
    }

    /// What a `--shuffle` from this stream does.
    pub open spec fn shuffles(self) -> ShuffleEffect {
        match self {
            ArgumentSource::Inherited | ArgumentSource::CommandLine => ShuffleEffect::Settles,
            ArgumentSource::Makefile => ShuffleEffect::Republishes,
            ArgumentSource::Protection => ShuffleEffect::Ignored,
        }
    }

    /// Whether a switch this stream got wrong ends the run.
    pub fn refuses_a_bad_switch(self) -> (answer: bool)
        ensures
            answer == self.refuses(),
    {
        matches!(self, ArgumentSource::Inherited | ArgumentSource::CommandLine)
    }

    /// What a `--shuffle` from this stream does.
    pub fn shuffle_effect(self) -> (effect: ShuffleEffect)
        ensures
            effect == self.shuffles(),
    {
        match self {
            ArgumentSource::Inherited | ArgumentSource::CommandLine => ShuffleEffect::Settles,
            ArgumentSource::Makefile => ShuffleEffect::Republishes,
            ArgumentSource::Protection => ShuffleEffect::Ignored,
        }
    }
}

/// How many recipes may run at once.
#[derive(Clone, Copy, PartialEq, Eq, Structural, Debug)]
pub enum JobLimit {
    /// Whatever the machine suggests.
    Auto,
    Unlimited,
    /// This many, which is at least one.
    Fixed(usize),
}

impl JobLimit {
    /// A limit of `count`, which no recipe at all is not.
    pub fn fixed(count: usize) -> (limit: Option<JobLimit>)
        ensures
            limit == (if count == 0 {
                None
            } else {
                Some(JobLimit::Fixed(count))
            }),
    {
        if count == 0 {
            None
        } else {
            Some(JobLimit::Fixed(count))
        }
    }
}

/// The order a run builds what it may choose the order of.
#[derive(Clone, Copy, PartialEq, Eq, Structural, Debug)]
pub enum Shuffle {
    /// As it was written.
    Unshuffled,
    Identity,
    Reverse,
    Seed(u32),
}

impl Shuffle {
    /// The order a word asks for, `seed` being the one a word that names none
    /// is given.
    pub open spec fn asked(spec: Seq<u8>, seed: u32) -> Option<Shuffle> {
        if spec == text("none") {
            Some(Shuffle::Unshuffled)
        } else if spec == text("identity") {
            Some(Shuffle::Identity)
        } else if spec == text("reverse") {
            Some(Shuffle::Reverse)
        } else if spec == text("random") {
            Some(Shuffle::Seed(seed))
        } else {
            match number(spec, u32::MAX as nat) {
                Some(value) => Some(Shuffle::Seed(value as u32)),
                None => None,
            }
        }
    }

    /// The order a word asks for, `seed` being the one a word that names none
    /// is given.
    pub fn requested(spec: &[u8], seed: u32) -> (mode: Option<Shuffle>)
        ensures
            mode == Shuffle::asked(spec@, seed),
    {
        if same(spec, "none".as_bytes()) {
            Some(Shuffle::Unshuffled)
        } else if same(spec, "identity".as_bytes()) {
            Some(Shuffle::Identity)
        } else if same(spec, "reverse".as_bytes()) {
            Some(Shuffle::Reverse)
        } else if same(spec, "random".as_bytes()) {
            Some(Shuffle::Seed(seed))
        } else {
            match read_number(spec, u32::MAX as u64) {
                Some(value) => Some(Shuffle::Seed(value as u32)),
                None => None,
            }
        }
    }

    /// The word a child reproduces this order from.
    pub open spec fn spelled(self) -> Option<Seq<u8>> {
        match self {
            Shuffle::Unshuffled => None,
            Shuffle::Identity => Some(text("identity")),
            Shuffle::Reverse => Some(text("reverse")),
            Shuffle::Seed(seed) => Some(decimal(seed as nat)),
        }
    }

    /// The word a child reproduces this order from, none for the order that was
    /// written.
    pub fn spelling(self) -> (word: Option<Vec<u8>>)
        ensures
            maybe(word) == self.spelled(),
    {
        match self {
            Shuffle::Unshuffled => None,
            Shuffle::Identity => Some(literal("identity")),
            Shuffle::Reverse => Some(literal("reverse")),
            Shuffle::Seed(seed) => Some(decimal_of(seed as u64)),
        }
    }
}

/// What `-O` synchronises.
#[derive(Clone, Copy, PartialEq, Eq, Structural, Debug)]
pub enum OutputSync {
    Off,
    Line,
    Target,
    Recurse,
}

impl OutputSync {
    /// The type a word names.
    pub open spec fn named(name: Seq<u8>) -> Option<OutputSync> {
        if name.len() == 0 || name == text("target") {
            Some(OutputSync::Target)
        } else if name == text("none") {
            Some(OutputSync::Off)
        } else if name == text("line") {
            Some(OutputSync::Line)
        } else if name == text("recurse") {
            Some(OutputSync::Recurse)
        } else {
            None
        }
    }

    /// The type named after `-O` or `--output-sync=`, where naming none at all
    /// is `target`.
    pub fn parse(name: &[u8]) -> (kind: Option<OutputSync>)
        ensures
            kind == OutputSync::named(name@),
    {
        if name.len() == 0 || same(name, "target".as_bytes()) {
            Some(OutputSync::Target)
        } else if same(name, "none".as_bytes()) {
            Some(OutputSync::Off)
        } else if same(name, "line".as_bytes()) {
            Some(OutputSync::Line)
        } else if same(name, "recurse".as_bytes()) {
            Some(OutputSync::Recurse)
        } else {
            None
        }
    }

    /// How a child is told.
    pub open spec fn spelled(self) -> Seq<u8> {
        match self {
            OutputSync::Off => text("-Onone"),
            OutputSync::Line => text("-Oline"),
            OutputSync::Target => text("-Otarget"),
            OutputSync::Recurse => text("-Orecurse"),
        }
    }

    /// How a child is told, which is always the resolved name.
    pub fn spelling(self) -> (option: Vec<u8>)
        ensures
            option@ == self.spelled(),
    {
        match self {
            OutputSync::Off => literal("-Onone"),
            OutputSync::Line => literal("-Oline"),
            OutputSync::Target => literal("-Otarget"),
            OutputSync::Recurse => literal("-Orecurse"),
        }
    }
}

/// An option that takes no argument: the whole of it is that it was given.
#[derive(Clone, Copy, PartialEq, Eq, Structural, Debug)]
pub enum Switch {
    AlwaysMake,
    Debug,
    DryRun,
    EnvironmentOverrides,
    IgnoreErrors,
    KeepGoing,
    NoBuiltinRules,
    NoBuiltinVariables,
    PrintDirectory,
    Question,
    Silent,
    Touch,
    Trace,
    WarnUndefinedVariables,
}

impl Switch {
    /// The place of the switch's bit.
    pub open spec fn index(self) -> u16 {
        match self {
            Switch::AlwaysMake => 0,
            Switch::Debug => 1,
            Switch::DryRun => 2,
            Switch::EnvironmentOverrides => 3,
            Switch::IgnoreErrors => 4,
            Switch::KeepGoing => 5,
            Switch::NoBuiltinRules => 6,
            Switch::NoBuiltinVariables => 7,
            Switch::PrintDirectory => 8,
            Switch::Question => 9,
            Switch::Silent => 10,
            Switch::Touch => 11,
            Switch::Trace => 12,
            Switch::WarnUndefinedVariables => 13,
        }
    }

    /// The switch a letter asks for.
    pub open spec fn of_letter(letter: u8) -> Option<Switch> {
        if letter == 0x42 {
            Some(Switch::AlwaysMake)
        } else if letter == 0x64 {
            Some(Switch::Debug)
        } else if letter == 0x65 {
            Some(Switch::EnvironmentOverrides)
        } else if letter == 0x69 {
            Some(Switch::IgnoreErrors)
        } else if letter == 0x6b {
            Some(Switch::KeepGoing)
        } else if letter == 0x6e {
            Some(Switch::DryRun)
        } else if letter == 0x71 {
            Some(Switch::Question)
        } else if letter == 0x72 {
            Some(Switch::NoBuiltinRules)
        } else if letter == 0x52 {
            Some(Switch::NoBuiltinVariables)
        } else if letter == 0x73 {
            Some(Switch::Silent)
        } else if letter == 0x74 {
            Some(Switch::Touch)
        } else if letter == 0x77 {
            Some(Switch::PrintDirectory)
        } else {
            None
        }
    }

    /// The switch a letter takes back.
    pub open spec fn of_negating_letter(letter: u8) -> Option<Switch> {
        if letter == 0x53 {
            Some(Switch::KeepGoing)
        } else {
            None
        }
    }

    /// The switch a long name asks for.
    pub open spec fn of_name(name: Seq<u8>) -> Option<Switch> {
        if name == text("--always-make") {
            Some(Switch::AlwaysMake)
        } else if name == text("--dry-run") || name == text("--just-print") || name == text(
            "--recon",
        ) {
            Some(Switch::DryRun)
        } else if name == text("--environment-overrides") {
            Some(Switch::EnvironmentOverrides)
        } else if name == text("--ignore-errors") {
            Some(Switch::IgnoreErrors)
        } else if name == text("--keep-going") {
            Some(Switch::KeepGoing)
        } else if name == text("--no-builtin-rules") {
            Some(Switch::NoBuiltinRules)
        } else if name == text("--no-builtin-variables") {
            Some(Switch::NoBuiltinVariables)
        } else if name == text("--print-directory") {
            Some(Switch::PrintDirectory)
        } else if name == text("--question") {
            Some(Switch::Question)
        } else if name == text("--silent") || name == text("--quiet") {
            Some(Switch::Silent)
        } else if name == text("--touch") {
            Some(Switch::Touch)
        } else if name == text("--trace") {
            Some(Switch::Trace)
        } else if name == text("--warn-undefined-variables") {
            Some(Switch::WarnUndefinedVariables)
        } else {
            None
        }
    }

    /// The switch a long name takes back.
    pub open spec fn of_negating_name(name: Seq<u8>) -> Option<Switch> {
        if name == text("--no-keep-going") || name == text("--stop") {
            Some(Switch::KeepGoing)
        } else if name == text("--no-print-directory") {
            Some(Switch::PrintDirectory)
        } else if name == text("--no-silent") {
            Some(Switch::Silent)
        } else {
            None
        }
    }

    /// The switch one letter names, which is how a cluster like `-ki` reads.
    pub fn short(letter: u8) -> (switch: Option<Switch>)
        ensures
            switch == Switch::of_letter(letter),
    {
        match letter {
            0x42 => Some(Switch::AlwaysMake),
            0x64 => Some(Switch::Debug),
            0x65 => Some(Switch::EnvironmentOverrides),
            0x69 => Some(Switch::IgnoreErrors),
            0x6b => Some(Switch::KeepGoing),
            0x6e => Some(Switch::DryRun),
            0x71 => Some(Switch::Question),
            0x72 => Some(Switch::NoBuiltinRules),
            0x52 => Some(Switch::NoBuiltinVariables),
            0x73 => Some(Switch::Silent),
            0x74 => Some(Switch::Touch),
            0x77 => Some(Switch::PrintDirectory),
            _ => None,
        }
    }

    /// The switch one letter takes back, which there is one of.
    pub fn short_negation(letter: u8) -> (switch: Option<Switch>)
        ensures
            switch == Switch::of_negating_letter(letter),
    {
        match letter {
            0x53 => Some(Switch::KeepGoing),
            _ => None,
        }
    }

    /// The switch a long name takes back.
    pub fn long_negation(name: &[u8]) -> (switch: Option<Switch>)
        ensures
            switch == Switch::of_negating_name(name@),
    {
        if same(name, "--no-keep-going".as_bytes()) || same(name, "--stop".as_bytes()) {
            Some(Switch::KeepGoing)
        } else if same(name, "--no-print-directory".as_bytes()) {
            Some(Switch::PrintDirectory)
        } else if same(name, "--no-silent".as_bytes()) {
            Some(Switch::Silent)
        } else {
            None
        }
    }

    /// The switch a long name names. Every spelling is the one switch.
    pub fn long(name: &[u8]) -> (switch: Option<Switch>)
        ensures
            switch == Switch::of_name(name@),
    {
        if same(name, "--always-make".as_bytes()) {
            Some(Switch::AlwaysMake)
        } else if same(name, "--dry-run".as_bytes()) || same(name, "--just-print".as_bytes())
            || same(name, "--recon".as_bytes()) {
            Some(Switch::DryRun)
        } else if same(name, "--environment-overrides".as_bytes()) {
            Some(Switch::EnvironmentOverrides)
        } else if same(name, "--ignore-errors".as_bytes()) {
            Some(Switch::IgnoreErrors)
        } else if same(name, "--keep-going".as_bytes()) {
            Some(Switch::KeepGoing)
        } else if same(name, "--no-builtin-rules".as_bytes()) {
            Some(Switch::NoBuiltinRules)
        } else if same(name, "--no-builtin-variables".as_bytes()) {
            Some(Switch::NoBuiltinVariables)
        } else if same(name, "--print-directory".as_bytes()) {
            Some(Switch::PrintDirectory)
        } else if same(name, "--question".as_bytes()) {
            Some(Switch::Question)
        } else if same(name, "--silent".as_bytes()) || same(name, "--quiet".as_bytes()) {
            Some(Switch::Silent)
        } else if same(name, "--touch".as_bytes()) {
            Some(Switch::Touch)
        } else if same(name, "--trace".as_bytes()) {
            Some(Switch::Trace)
        } else if same(name, "--warn-undefined-variables".as_bytes()) {
            Some(Switch::WarnUndefinedVariables)
        } else {
            None
        }
    }

    /// The switch's bit.
    pub open spec fn mask(self) -> u16 {
        1u16 << self.index()
    }

    /// The switch's bit.
    pub fn bit(self) -> (bit: u16)
        ensures
            bit == self.mask(),
    {
        let index: u16 = match self {
            Switch::AlwaysMake => 0,
            Switch::Debug => 1,
            Switch::DryRun => 2,
            Switch::EnvironmentOverrides => 3,
            Switch::IgnoreErrors => 4,
            Switch::KeepGoing => 5,
            Switch::NoBuiltinRules => 6,
            Switch::NoBuiltinVariables => 7,
            Switch::PrintDirectory => 8,
            Switch::Question => 9,
            Switch::Silent => 10,
            Switch::Touch => 11,
            Switch::Trace => 12,
            Switch::WarnUndefinedVariables => 13,
        };
        1u16 << index
    }
}

/// The switches a word of bits holds.
pub open spec fn held_in(bits: u16) -> Set<Switch> {
    Set::new(|switch: Switch| bits & switch.mask() != 0)
}

/// What a word of bits holds that is no switch's.
pub open spec fn stray(bits: u16) -> u16 {
    bits >> 14
}

/// No switch is held in no bits, and nothing else.
pub proof fn no_bits_hold_nothing()
    ensures
        held_in(0) == Set::<Switch>::empty(),
        stray(0) == 0,
{
    assert(0u16 >> 14 == 0) by (bit_vector);
    assert forall|switch: Switch| !(#[trigger] held_in(0).contains(switch)) by {
        let at = switch.index();
        assert(0u16 & (1u16 << at) == 0) by (bit_vector);
    }
    assert(held_in(0) =~= Set::<Switch>::empty());
}

/// Two switches have two places.
proof fn places_are_distinct(left: Switch, right: Switch)
    ensures
        left.index() == right.index() <==> left == right,
        left.index() < 14,
{
}

/// Setting a switch's bit holds that switch too, and every other as before.
pub proof fn set_bit_holds(bits: u16, switch: Switch)
    ensures
        held_in(bits | switch.mask()) == held_in(bits).insert(switch),
        stray(bits | switch.mask()) == stray(bits),
{
    let place = switch.index();
    assert((bits | (1u16 << place)) >> 14 == bits >> 14) by (bit_vector)
        requires
            place < 14,
    ;
    assert forall|other: Switch| #[trigger]
        held_in(bits | switch.mask()).contains(other) <==> held_in(bits).insert(switch).contains(
            other,
        ) by {
        places_are_distinct(switch, other);
        places_are_distinct(other, switch);
        let (i, j) = (switch.index(), other.index());
        assert(((bits | (1u16 << i)) & (1u16 << j)) != 0 <==> ((bits & (1u16 << j)) != 0 || i
            == j)) by (bit_vector)
            requires
                i < 16,
                j < 16,
        ;
    }
    assert(held_in(bits | switch.mask()) =~= held_in(bits).insert(switch));
}

/// Clearing a switch's bit lets go of that switch, and of no other.
pub proof fn clear_bit_lets_go(bits: u16, switch: Switch)
    ensures
        held_in(bits & !switch.mask()) == held_in(bits).remove(switch),
        stray(bits & !switch.mask()) == stray(bits),
{
    let place = switch.index();
    assert((bits & !(1u16 << place)) >> 14 == bits >> 14) by (bit_vector)
        requires
            place < 14,
    ;
    assert forall|other: Switch| #[trigger]
        held_in(bits & !switch.mask()).contains(other) <==> held_in(bits).remove(switch).contains(
            other,
        ) by {
        places_are_distinct(switch, other);
        places_are_distinct(other, switch);
        let (i, j) = (switch.index(), other.index());
        assert(((bits & !(1u16 << i)) & (1u16 << j)) != 0 <==> ((bits & (1u16 << j)) != 0 && i
            != j)) by (bit_vector)
            requires
                i < 16,
                j < 16,
        ;
    }
    assert(held_in(bits & !switch.mask()) =~= held_in(bits).remove(switch));
}

proof fn held_at(bits: u16, switch: Switch)
    ensures
        held_in(bits).contains(switch) <==> bits & (1u16 << switch.index()) != 0,
{
}

/// Bits that hold the same switches, and the same beside them, are the same
/// bits.
pub proof fn bits_are_what_they_hold(left: u16, right: u16)
    requires
        held_in(left) == held_in(right),
        stray(left) == stray(right),
    ensures
        left == right,
{
    held_at(left, Switch::AlwaysMake);
    held_at(right, Switch::AlwaysMake);
    held_at(left, Switch::Debug);
    held_at(right, Switch::Debug);
    held_at(left, Switch::DryRun);
    held_at(right, Switch::DryRun);
    held_at(left, Switch::EnvironmentOverrides);
    held_at(right, Switch::EnvironmentOverrides);
    held_at(left, Switch::IgnoreErrors);
    held_at(right, Switch::IgnoreErrors);
    held_at(left, Switch::KeepGoing);
    held_at(right, Switch::KeepGoing);
    held_at(left, Switch::NoBuiltinRules);
    held_at(right, Switch::NoBuiltinRules);
    held_at(left, Switch::NoBuiltinVariables);
    held_at(right, Switch::NoBuiltinVariables);
    held_at(left, Switch::PrintDirectory);
    held_at(right, Switch::PrintDirectory);
    held_at(left, Switch::Question);
    held_at(right, Switch::Question);
    held_at(left, Switch::Silent);
    held_at(right, Switch::Silent);
    held_at(left, Switch::Touch);
    held_at(right, Switch::Touch);
    held_at(left, Switch::Trace);
    held_at(right, Switch::Trace);
    held_at(left, Switch::WarnUndefinedVariables);
    held_at(right, Switch::WarnUndefinedVariables);
    assert(left == right) by (bit_vector)
        requires
            left >> 14 == right >> 14,
            (left & (1u16 << 0u16) != 0) == (right & (1u16 << 0u16) != 0),
            (left & (1u16 << 1u16) != 0) == (right & (1u16 << 1u16) != 0),
            (left & (1u16 << 2u16) != 0) == (right & (1u16 << 2u16) != 0),
            (left & (1u16 << 3u16) != 0) == (right & (1u16 << 3u16) != 0),
            (left & (1u16 << 4u16) != 0) == (right & (1u16 << 4u16) != 0),
            (left & (1u16 << 5u16) != 0) == (right & (1u16 << 5u16) != 0),
            (left & (1u16 << 6u16) != 0) == (right & (1u16 << 6u16) != 0),
            (left & (1u16 << 7u16) != 0) == (right & (1u16 << 7u16) != 0),
            (left & (1u16 << 8u16) != 0) == (right & (1u16 << 8u16) != 0),
            (left & (1u16 << 9u16) != 0) == (right & (1u16 << 9u16) != 0),
            (left & (1u16 << 10u16) != 0) == (right & (1u16 << 10u16) != 0),
            (left & (1u16 << 11u16) != 0) == (right & (1u16 << 11u16) != 0),
            (left & (1u16 << 12u16) != 0) == (right & (1u16 << 12u16) != 0),
            (left & (1u16 << 13u16) != 0) == (right & (1u16 << 13u16) != 0),
    ;
}

/// A switch's own bit holds that switch and nothing else.
pub proof fn one_bit_holds_one_switch(switch: Switch)
    ensures
        held_in(switch.mask()) == set![switch],
        stray(switch.mask()) == 0,
{
    no_bits_hold_nothing();
    set_bit_holds(0, switch);
    let place = switch.index();
    assert(0u16 | (1u16 << place) == 1u16 << place) by (bit_vector);
    assert(Set::<Switch>::empty().insert(switch) =~= set![switch]);
}

/// What an option is for.
#[derive(Clone, Copy, PartialEq, Eq, Structural, Debug)]
pub enum OptionClass {
    /// The option changes Makefile evaluation or the graph it produces.
    CompilerInput,
    /// The option maps onto an ordinary control of the build.
    NinjaControl,
    /// The spelling and argument are accepted and nothing is done with them.
    NoOp,
}

/// The argument shape an option has.
#[derive(Clone, Copy, PartialEq, Eq, Structural, Debug)]
pub enum ArgumentShape {
    Nothing,
    Required,
    /// Optional only when attached: `-Oline` or `--output-sync=line`.
    OptionalAttached,
    /// Optional, with a following numeric word consumed when present.
    OptionalNumeric,
}

/// One row of the command-line surface.
#[derive(Debug)]
pub struct InterfaceOption {
    pub spellings: Vec<Vec<u8>>,
    pub argument: ArgumentShape,
    pub class: OptionClass,
}

/// One row of the command-line surface, as its model.
pub ghost struct Row {
    pub spellings: Seq<Seq<u8>>,
    pub argument: ArgumentShape,
    pub class: OptionClass,
}

impl InterfaceOption {
    /// The row as its model.
    pub open spec fn model(&self) -> Row {
        Row { spellings: texts(self.spellings@), argument: self.argument, class: self.class }
    }
}

/// How many rows the surface has.
pub const SURFACE_ROWS: usize = 33;

/// A row of one, two, three or four spellings.
pub open spec fn row(
    spellings: Seq<Seq<u8>>,
    argument: ArgumentShape,
    class: OptionClass,
) -> Row {
    Row { spellings, argument, class }
}

/// Every option Make exposes, plus the three transport options it writes into
/// `MAKEFLAGS` itself.
#[verifier::opaque]
pub open spec fn surface(at: int) -> Row {
    if at == 0 {
        row(seq![text("-b"), text("-m")], ArgumentShape::Nothing, OptionClass::NoOp)
    } else if at == 1 {
        row(
            seq![text("-B"), text("--always-make")],
            ArgumentShape::Nothing,
            OptionClass::NinjaControl,
        )
    } else if at == 2 {
        row(
            seq![text("-C"), text("--directory")],
            ArgumentShape::Required,
            OptionClass::CompilerInput,
        )
    } else if at == 3 {
        row(seq![text("-d")], ArgumentShape::Nothing, OptionClass::NoOp)
    } else if at == 4 {
        row(seq![text("--debug")], ArgumentShape::OptionalAttached, OptionClass::NoOp)
    } else if at == 5 {
        row(
            seq![text("-e"), text("--environment-overrides")],
            ArgumentShape::Nothing,
            OptionClass::CompilerInput,
        )
    } else if at == 6 {
        row(seq![text("-E"), text("--eval")], ArgumentShape::Required, OptionClass::CompilerInput)
    } else if at == 7 {
        row(
            seq![text("-f"), text("--file"), text("--makefile")],
            ArgumentShape::Required,
            OptionClass::CompilerInput,
        )
    } else if at == 8 {
        row(seq![text("-h"), text("--help")], ArgumentShape::Nothing, OptionClass::NinjaControl)
    } else if at == 9 {
        row(
            seq![text("-i"), text("--ignore-errors")],
            ArgumentShape::Nothing,
            OptionClass::CompilerInput,
        )
    } else if at == 10 {
        row(
            seq![text("-I"), text("--include-dir")],
            ArgumentShape::Required,
            OptionClass::CompilerInput,
        )
    } else if at == 11 {
        row(
            seq![text("-j"), text("--jobs")],
            ArgumentShape::OptionalNumeric,
            OptionClass::NinjaControl,
        )
    } else if at == 12 {
        row(seq![text("--jobserver-style")], ArgumentShape::Required, OptionClass::NoOp)
    } else if at == 13 {
        row(
            seq![text("--jobserver-auth"), text("--jobserver-fds"), text("--sync-mutex")],
            ArgumentShape::Required,
            OptionClass::NoOp,
        )
    } else if at == 14 {
        row(
            seq![text("-k"), text("--keep-going")],
            ArgumentShape::Nothing,
            OptionClass::NinjaControl,
        )
    } else if at == 15 {
        row(
            seq![text("-l"), text("--load-average"), text("--max-load")],
            ArgumentShape::OptionalNumeric,
            OptionClass::NinjaControl,
        )
    } else if at == 16 {
        row(
            seq![text("-L"), text("--check-symlink-times")],
            ArgumentShape::Nothing,
            OptionClass::NoOp,
        )
    } else if at == 17 {
        row(
            seq![text("-n"), text("--just-print"), text("--dry-run"), text("--recon")],
            ArgumentShape::Nothing,
            OptionClass::NinjaControl,
        )
    } else if at == 18 {
        row(
            seq![text("-o"), text("--old-file"), text("--assume-old")],
            ArgumentShape::Required,
            OptionClass::NoOp,
        )
    } else if at == 19 {
        row(
            seq![text("-O"), text("--output-sync")],
            ArgumentShape::OptionalAttached,
            OptionClass::NoOp,
        )
    } else if at == 20 {
        row(seq![text("-p"), text("--print-data-base")], ArgumentShape::Nothing, OptionClass::NoOp)
    } else if at == 21 {
        row(seq![text("-q"), text("--question")], ArgumentShape::Nothing, OptionClass::NinjaControl)
    } else if at == 22 {
        row(
            seq![text("-r"), text("--no-builtin-rules")],
            ArgumentShape::Nothing,
            OptionClass::CompilerInput,
        )
    } else if at == 23 {
        row(
            seq![text("-R"), text("--no-builtin-variables")],
            ArgumentShape::Nothing,
            OptionClass::CompilerInput,
        )
    } else if at == 24 {
        row(seq![text("--shuffle")], ArgumentShape::OptionalAttached, OptionClass::NoOp)
    } else if at == 25 {
        row(
            seq![text("-s"), text("--silent"), text("--quiet"), text("--no-silent")],
            ArgumentShape::Nothing,
            OptionClass::NinjaControl,
        )
    } else if at == 26 {
        row(
            seq![text("-S"), text("--no-keep-going"), text("--stop")],
            ArgumentShape::Nothing,
            OptionClass::NinjaControl,
        )
    } else if at == 27 {
        row(seq![text("-t"), text("--touch")], ArgumentShape::Nothing, OptionClass::NinjaControl)
    } else if at == 28 {
        row(seq![text("--trace")], ArgumentShape::Nothing, OptionClass::NoOp)
    } else if at == 29 {
        row(seq![text("-v"), text("--version")], ArgumentShape::Nothing, OptionClass::NinjaControl)
    } else if at == 30 {
        row(
            seq![text("-w"), text("--print-directory"), text("--no-print-directory")],
            ArgumentShape::Nothing,
            OptionClass::NoOp,
        )
    } else if at == 31 {
        row(
            seq![text("-W"), text("--what-if"), text("--new-file"), text("--assume-new")],
            ArgumentShape::Required,
            OptionClass::NinjaControl,
        )
    } else {
        row(seq![text("--warn-undefined-variables")], ArgumentShape::Nothing, OptionClass::NoOp)
    }
}

/// One spelling as a list.
fn one(first: &str) -> (spellings: Vec<Vec<u8>>)
    ensures
        texts(spellings@) == seq![text(first)],
{
    let mut spellings: Vec<Vec<u8>> = Vec::new();
    spellings.push(literal(first));
    assert(texts(spellings@) =~= seq![text(first)]);
    spellings
}

/// Two spellings as a list.
fn two(first: &str, second: &str) -> (spellings: Vec<Vec<u8>>)
    ensures
        texts(spellings@) == seq![text(first), text(second)],
{
    let mut spellings: Vec<Vec<u8>> = one(first);
    let ghost before = texts(spellings@);
    spellings.push(literal(second));
    assert(texts(spellings@) =~= before.push(text(second)));
    assert(before.push(text(second)) =~= seq![text(first), text(second)]);
    spellings
}

/// Three spellings as a list.
fn three(first: &str, second: &str, third: &str) -> (spellings: Vec<Vec<u8>>)
    ensures
        texts(spellings@) == seq![text(first), text(second), text(third)],
{
    let mut spellings: Vec<Vec<u8>> = two(first, second);
    let ghost before = texts(spellings@);
    spellings.push(literal(third));
    assert(texts(spellings@) =~= before.push(text(third)));
    assert(before.push(text(third)) =~= seq![text(first), text(second), text(third)]);
    spellings
}

/// Four spellings as a list.
fn four(first: &str, second: &str, third: &str, fourth: &str) -> (spellings: Vec<Vec<u8>>)
    ensures
        texts(spellings@) == seq![text(first), text(second), text(third), text(fourth)],
{
    let mut spellings: Vec<Vec<u8>> = three(first, second, third);
    let ghost before = texts(spellings@);
    spellings.push(literal(fourth));
    assert(texts(spellings@) =~= before.push(text(fourth)));
    assert(before.push(text(fourth)) =~= seq![
        text(first),
        text(second),
        text(third),
        text(fourth),
    ]);
    spellings
}

/// One row of the surface.
///
/// This is a classification: the parser uses it for the options nothing is done
/// with, while the options with a meaning are handled one by one.
pub fn make_option_surface(at: usize) -> (option: InterfaceOption)
    ensures
        option.model() == surface(at as int),
{
    reveal(surface);
    let (spellings, argument, class): (Vec<Vec<u8>>, ArgumentShape, OptionClass) =
        if at == 0 {
            (two("-b", "-m"), ArgumentShape::Nothing, OptionClass::NoOp)
        } else if at == 1 {
            (two("-B", "--always-make"), ArgumentShape::Nothing, OptionClass::NinjaControl)
        } else if at == 2 {
            (two("-C", "--directory"), ArgumentShape::Required, OptionClass::CompilerInput)
        } else if at == 3 {
            (one("-d"), ArgumentShape::Nothing, OptionClass::NoOp)
        } else if at == 4 {
            (one("--debug"), ArgumentShape::OptionalAttached, OptionClass::NoOp)
        } else if at == 5 {
            (
                two("-e", "--environment-overrides"),
                ArgumentShape::Nothing,
                OptionClass::CompilerInput,
            )
        } else if at == 6 {
            (two("-E", "--eval"), ArgumentShape::Required, OptionClass::CompilerInput)
        } else if at == 7 {
            (
                three("-f", "--file", "--makefile"),
                ArgumentShape::Required,
                OptionClass::CompilerInput,
            )
        } else if at == 8 {
            (two("-h", "--help"), ArgumentShape::Nothing, OptionClass::NinjaControl)
        } else if at == 9 {
            (two("-i", "--ignore-errors"), ArgumentShape::Nothing, OptionClass::CompilerInput)
        } else if at == 10 {
            (two("-I", "--include-dir"), ArgumentShape::Required, OptionClass::CompilerInput)
        } else if at == 11 {
            (two("-j", "--jobs"), ArgumentShape::OptionalNumeric, OptionClass::NinjaControl)
        } else if at == 12 {
            (one("--jobserver-style"), ArgumentShape::Required, OptionClass::NoOp)
        } else if at == 13 {
            (
                three("--jobserver-auth", "--jobserver-fds", "--sync-mutex"),
                ArgumentShape::Required,
                OptionClass::NoOp,
            )
        } else if at == 14 {
            (two("-k", "--keep-going"), ArgumentShape::Nothing, OptionClass::NinjaControl)
        } else if at == 15 {
            (
                three("-l", "--load-average", "--max-load"),
                ArgumentShape::OptionalNumeric,
                OptionClass::NinjaControl,
            )
        } else if at == 16 {
            (two("-L", "--check-symlink-times"), ArgumentShape::Nothing, OptionClass::NoOp)
        } else if at == 17 {
            (
                four("-n", "--just-print", "--dry-run", "--recon"),
                ArgumentShape::Nothing,
                OptionClass::NinjaControl,
            )
        } else if at == 18 {
            (three("-o", "--old-file", "--assume-old"), ArgumentShape::Required, OptionClass::NoOp)
        } else if at == 19 {
            (two("-O", "--output-sync"), ArgumentShape::OptionalAttached, OptionClass::NoOp)
        } else if at == 20 {
            (two("-p", "--print-data-base"), ArgumentShape::Nothing, OptionClass::NoOp)
        } else if at == 21 {
            (two("-q", "--question"), ArgumentShape::Nothing, OptionClass::NinjaControl)
        } else if at == 22 {
            (two("-r", "--no-builtin-rules"), ArgumentShape::Nothing, OptionClass::CompilerInput)
        } else if at == 23 {
            (
                two("-R", "--no-builtin-variables"),
                ArgumentShape::Nothing,
                OptionClass::CompilerInput,
            )
        } else if at == 24 {
            (one("--shuffle"), ArgumentShape::OptionalAttached, OptionClass::NoOp)
        } else if at == 25 {
            (
                four("-s", "--silent", "--quiet", "--no-silent"),
                ArgumentShape::Nothing,
                OptionClass::NinjaControl,
            )
        } else if at == 26 {
            (
                three("-S", "--no-keep-going", "--stop"),
                ArgumentShape::Nothing,
                OptionClass::NinjaControl,
            )
        } else if at == 27 {
            (two("-t", "--touch"), ArgumentShape::Nothing, OptionClass::NinjaControl)
        } else if at == 28 {
            (one("--trace"), ArgumentShape::Nothing, OptionClass::NoOp)
        } else if at == 29 {
            (two("-v", "--version"), ArgumentShape::Nothing, OptionClass::NinjaControl)
        } else if at == 30 {
            (
                three("-w", "--print-directory", "--no-print-directory"),
                ArgumentShape::Nothing,
                OptionClass::NoOp,
            )
        } else if at == 31 {
            (
                four("-W", "--what-if", "--new-file", "--assume-new"),
                ArgumentShape::Required,
                OptionClass::NinjaControl,
            )
        } else {
            (one("--warn-undefined-variables"), ArgumentShape::Nothing, OptionClass::NoOp)
        };
    InterfaceOption { spellings, argument, class }
}

/// One `--debug` separator.
pub open spec fn separates(byte: u8) -> bool {
    byte == 0x2c || byte == 0x20
}

/// Where the word that `at` stands in ends.
pub open spec fn facet_end(spec: Seq<u8>, at: int) -> int
    decreases spec.len() - at,
{
    if at < 0 || at >= spec.len() || separates(spec[at]) {
        at
    } else {
        facet_end(spec, at + 1)
    }
}

proof fn facet_end_is_after(spec: Seq<u8>, at: int)
    ensures
        at <= facet_end(spec, at),
        0 <= at < spec.len() && !separates(spec[at]) ==> at < facet_end(spec, at),
        0 <= at <= spec.len() ==> facet_end(spec, at) <= spec.len(),
    decreases spec.len() - at,
{
    if 0 <= at < spec.len() && !separates(spec[at]) {
        facet_end_is_after(spec, at + 1);
    }
}

/// An ASCII letter in lower case.
pub open spec fn lowered(byte: u8) -> u8 {
    if 0x41 <= byte && byte <= 0x5a {
        (byte + 32) as u8
    } else {
        byte
    }
}

/// The facets a letter selects over those selected before it: its own, for
/// three letters the basic ones too, and for `n` none at all.
pub open spec fn facet(level: u16, letter: u8) -> Option<u16> {
    if letter == 0x61 {
        Some(level | DB_ALL)
    } else if letter == 0x62 {
        Some(level | DB_BASIC)
    } else if letter == 0x69 {
        Some(level | (DB_BASIC | DB_IMPLICIT))
    } else if letter == 0x6a {
        Some(level | DB_JOBS)
    } else if letter == 0x6d {
        Some(level | (DB_BASIC | DB_MAKEFILES))
    } else if letter == 0x6e {
        Some(0)
    } else if letter == 0x70 {
        Some(level | DB_PRINT)
    } else if letter == 0x76 {
        Some(level | (DB_BASIC | DB_VERBOSE))
    } else if letter == 0x77 {
        Some(level | DB_WHY)
    } else {
        None
    }
}

/// The facets a `--debug` argument selects from `at`: the first letter of each
/// comma- or space-separated word, the rest of it skipped.
pub open spec fn facets(level: u16, spec: Seq<u8>, at: int) -> Option<u16>
    decreases spec.len() - at,
    via facets_end
{
    if at < 0 || at >= spec.len() {
        Some(level)
    } else if separates(spec[at]) {
        facets(level, spec, at + 1)
    } else {
        match facet(level, lowered(spec[at])) {
            Some(next) => facets(next, spec, facet_end(spec, at)),
            None => None,
        }
    }
}

#[via_fn]
proof fn facets_end(level: u16, spec: Seq<u8>, at: int) {
    facet_end_is_after(spec, at);
}

/// One `--debug` argument folded into what is already selected. `None` for a
/// letter that selects nothing.
pub fn debug_facets(level: u16, spec: &[u8]) -> (selected: Option<u16>)
    ensures
        selected == facets(level, spec@, 0),
{
    let mut settled: u16 = level;
    let mut at: usize = 0;
    while at < spec.len()
        invariant
            at <= spec@.len(),
            facets(level, spec@, 0) == facets(settled, spec@, at as int),
        decreases spec@.len() - at,
    {
        let byte: u8 = spec[at];
        if byte == 0x2c || byte == 0x20 {
            at += 1;
            continue;
        }
        let letter: u8 = if 0x41 <= byte && byte <= 0x5a {
            byte + 32
        } else {
            byte
        };
        let ghost started = at as int;
        proof {
            facet_end_is_after(spec@, started);
        }
        settled = match letter {
            0x61 => settled | DB_ALL,
            0x62 => settled | DB_BASIC,
            0x69 => settled | (DB_BASIC | DB_IMPLICIT),
            0x6a => settled | DB_JOBS,
            0x6d => settled | (DB_BASIC | DB_MAKEFILES),
            0x6e => 0,
            0x70 => settled | DB_PRINT,
            0x76 => settled | (DB_BASIC | DB_VERBOSE),
            0x77 => settled | DB_WHY,
            _ => return None,
        };
        while at < spec.len() && !(spec[at] == 0x2c || spec[at] == 0x20)
            invariant
                started <= at <= spec@.len(),
                facet_end(spec@, at as int) == facet_end(spec@, started),
            decreases spec@.len() - at,
        {
            at += 1;
        }
    }
    Some(settled)
}

} // verus!
