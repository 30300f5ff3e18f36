//! What one invocation's composition was read from, as bytes in a file.
//!
//! [`Artifact::encode`] writes the record and [`Artifact::decode`] reads it.
//! The format is the model each type has: a record is read back as it was
//! written, and a record cut short anywhere is refused.

use crate::bytes::{append, copied, from_utf8};
use crate::codec::{
    a_cut_file_is_refused, a_file_reads_back, file_read, items_read, items_written,
    missing_items_stay_missing, taken, Blob, Coded, Count, Flag, List, Octet, Status, Text, Word32,
    Word64,
};
use vstd::bytes::*;
use vstd::prelude::*;
use vstd::string::*;
use vstd::utf8::*;

verus! {

/// What this build writes and will read back.
///
/// Raised whenever the bytes change meaning.
pub const FORMAT_VERSION: u32 = 2;

/// What the reader checks before it believes a byte of the rest.
pub fn magic() -> (mark: Vec<u8>)
    ensures
        mark@ == magic_bytes(),
{
    let mut mark: Vec<u8> = copied("ronin-make-record".as_bytes());
    mark.push(0);
    mark
}

/// The bytes every record opens with.
pub open spec fn magic_bytes() -> Seq<u8> {
    "ronin-make-record".spec_bytes().push(0)
}

/// A kind of question a makefile read can put to the world around it.
#[derive(Clone, Copy, PartialEq, Eq, Structural, Debug)]
pub enum GroundQuestion {
    Shell,
    Wildcard,
    RealPath,
    FileRead,
    Glob,
    Include,
}

/// One question a read asked, the answer it was given, and how many questions
/// were asked while it was being answered.
#[derive(Debug)]
pub struct GroundAnswer {
    pub question: GroundQuestion,
    pub asked: Vec<u8>,
    pub answer: Vec<u8>,
    pub status: Option<i32>,
    pub nested: usize,
}

/// How a child unit was invoked, as a run that did not compose it can invoke
/// it again.
#[derive(Debug)]
pub struct ChildOrigin {
    pub words: Vec<Vec<u8>>,
    pub directory: Vec<u8>,
    pub parent_makeflags: String,
    pub gnumakeflags: Option<String>,
    pub environment: Vec<(Vec<u8>, Vec<u8>)>,
    pub level: usize,
    pub recipe_environment: Vec<(Vec<u8>, Option<Vec<u8>>)>,
}

/// One unit's read, as a later invocation checks and replays it.
#[derive(Debug)]
pub struct UnitArtifact {
    /// The unit's compilation key.
    pub key: Vec<u8>,
    /// Where the process stood while this unit was read.
    pub directory: Vec<u8>,
    pub ground: Vec<GroundAnswer>,
    pub off_journal: Vec<GroundAnswer>,
    pub environment: Vec<(Vec<u8>, Option<Vec<u8>>)>,
    /// The makefiles the read was given, each with a digest of its bytes.
    pub sources: Vec<(Vec<u8>, u64)>,
    /// How the unit was invoked; `None` for the root.
    pub origin: Option<ChildOrigin>,
}

/// Everything one compilation unit wraps a recipe in.
#[derive(Debug)]
pub struct CommandLayout {
    pub command_directory: Vec<u8>,
    pub recipe_environment: Vec<(Vec<u8>, Option<Vec<u8>>)>,
    pub root_directory: Vec<u8>,
    /// The root unit, whose auxiliary paths are already the ones the build
    /// reads: a child's are qualified by where its Makefile was read.
    pub root: bool,
    /// Why the unit's environment could not be read, where it could not.
    pub unreadable: Option<String>,
}

/// A program started without a shell, with where it runs and under what.
#[derive(Debug)]
pub struct DirectLaunch {
    pub argv: Vec<Vec<u8>>,
    pub directory: Vec<u8>,
    pub environment: Vec<(Vec<u8>, Option<Vec<u8>>)>,
    pub diagnostic_prefix: String,
    pub starts_no_process: bool,
}

/// How one command line of a recipe is started.
#[derive(Debug)]
pub enum Launch {
    Shell(Vec<u8>),
    Direct(DirectLaunch),
    Refused(String),
}

/// One command line of a recipe, ready to start.
#[derive(Debug)]
pub struct LateStep {
    pub launch: Launch,
    pub ignore_errors: bool,
    pub runs_while_pretending: bool,
}

/// One recipe's launches, in the shapes the two phases of a run need.
#[derive(Debug)]
pub struct SettledSteps {
    pub ordinary: Vec<LateStep>,
    /// The same launches without the pretending switches, and nothing when the
    /// two would be the same command.
    pub while_remaking: Option<Vec<LateStep>>,
}

/// One unit that left recipes for the build to expand, and what wraps every
/// command it produces.
#[derive(Debug)]
pub struct RecipeUnitArtifact {
    pub key: Vec<u8>,
    pub layout: CommandLayout,
    pub directory: Vec<u8>,
}

/// Everything the build over a loaded graph needs that is not in the graph.
#[derive(Debug)]
pub struct BuildArtifact {
    /// The Makefiles the final read consulted that a rule says how to remake,
    /// in the order the read reached them.
    pub remakes: Vec<Vec<u8>>,
    pub forgiven: Vec<Vec<u8>>,
    pub unread: Vec<Vec<u8>>,
    pub complaints: Vec<(Vec<u8>, String)>,
    /// Every pass's staged work in pass order, the makefile-phase segments and
    /// the goal-phase ones apart, each name once.
    pub staged_for_makefiles: Vec<Vec<u8>>,
    pub staged_for_goals: Vec<Vec<u8>>,
    /// The recursive wrappers the composition settled clean, each with the
    /// staged work its freshness was read from.
    pub clean_wrappers: Vec<(Vec<u8>, Vec<Vec<u8>>)>,
    pub units: Vec<RecipeUnitArtifact>,
    /// Each deferred edge: its output, the unit whose evaluator expands it, and
    /// which of that unit's recipes it is.
    pub deferred: Vec<(Vec<u8>, (Vec<u8>, usize))>,
    pub settled: Vec<(Vec<u8>, SettledSteps)>,
    /// The root unit's settled `MAKEFLAGS` and the widest budget any unit asked
    /// to run at.
    pub makeflags: String,
    pub job_budget: usize,
}

/// Everything one invocation recorded.
#[derive(Debug)]
pub struct Artifact {
    /// The digest of the graph file this describes.
    pub graph: u64,
    pub units: Vec<UnitArtifact>,
    /// `None` for a composition that never settled through the compiler-input
    /// build, which a reader has nothing to build from.
    pub build: Option<BuildArtifact>,
}

/// One byte standing for a kind of question.
pub open spec fn tag_of(question: GroundQuestion) -> u8 {
    match question {
        GroundQuestion::Shell => 1,
        GroundQuestion::Wildcard => 2,
        GroundQuestion::RealPath => 3,
        GroundQuestion::FileRead => 4,
        GroundQuestion::Glob => 5,
        GroundQuestion::Include => 6,
    }
}

/// The question a byte stands for.
pub open spec fn tagged(tag: u8) -> Option<GroundQuestion> {
    if tag == 1 {
        Some(GroundQuestion::Shell)
    } else if tag == 2 {
        Some(GroundQuestion::Wildcard)
    } else if tag == 3 {
        Some(GroundQuestion::RealPath)
    } else if tag == 4 {
        Some(GroundQuestion::FileRead)
    } else if tag == 5 {
        Some(GroundQuestion::Glob)
    } else if tag == 6 {
        Some(GroundQuestion::Include)
    } else {
        None
    }
}

/// One byte standing for a kind of question.
///
/// Written out rather than read off the enum's own order, so that another
/// variant cannot change what an already-written record means.
pub fn question_tag(question: GroundQuestion) -> (tag: u8)
    ensures
        tag == tag_of(question),
{
    match question {
        GroundQuestion::Shell => 1,
        GroundQuestion::Wildcard => 2,
        GroundQuestion::RealPath => 3,
        GroundQuestion::FileRead => 4,
        GroundQuestion::Glob => 5,
        GroundQuestion::Include => 6,
    }
}

/// The question a byte stands for, if it stands for one.
pub fn question_of(tag: u8) -> (question: Option<GroundQuestion>)
    ensures
        question == tagged(tag),
{
    match tag {
        1 => Some(GroundQuestion::Shell),
        2 => Some(GroundQuestion::Wildcard),
        3 => Some(GroundQuestion::RealPath),
        4 => Some(GroundQuestion::FileRead),
        5 => Some(GroundQuestion::Glob),
        6 => Some(GroundQuestion::Include),
        _ => None,
    }
}

/// Every question has a byte of its own.
pub proof fn question_tags_are_distinct(question: GroundQuestion)
    ensures
        tagged(tag_of(question)) == Some(question),
{
}

/// A question, as its byte.
pub struct Asked {
    pub question: GroundQuestion,
}

impl Coded for Asked {
    open spec fn carried(self) -> bool {
        true
    }

    open spec fn written(self) -> Seq<u8> {
        seq![tag_of(self.question)]
    }

    open spec fn read(bytes: Seq<u8>, at: int) -> Option<(Self, int)> {
        match Octet::read(bytes, at) {
            Some(got) => match tagged(got.0.value) {
                Some(question) => Some((Asked { question }, got.1)),
                None => None,
            },
            None => None,
        }
    }

    proof fn moves(bytes: Seq<u8>, at: int) {
    }

    proof fn reads_back(self, bytes: Seq<u8>, at: int) {
        (Octet { value: tag_of(self.question) }).reads_back(bytes, at);
    }

    proof fn cut_is_refused(self, bytes: Seq<u8>, at: int) {
        (Octet { value: tag_of(self.question) }).cut_is_refused(bytes, at);
    }
}

/// What a record opens with: the mark, and the version of the format.
pub struct Opening {}

impl Coded for Opening {
    open spec fn carried(self) -> bool {
        true
    }

    open spec fn written(self) -> Seq<u8> {
        magic_bytes() + Word32 { value: FORMAT_VERSION }.written()
    }

    open spec fn read(bytes: Seq<u8>, at: int) -> Option<(Self, int)> {
        match taken(bytes, at, magic_bytes().len() as int) {
            Some(mark) => match Word32::read(bytes, at + magic_bytes().len()) {
                Some(got) => if mark == magic_bytes() && got.0.value == FORMAT_VERSION {
                    Some((Opening {  }, got.1))
                } else {
                    None
                },
                None => None,
            },
            None => None,
        }
    }

    proof fn moves(bytes: Seq<u8>, at: int) {
    }

    proof fn reads_back(self, bytes: Seq<u8>, at: int) {
        let version = Word32 { value: FORMAT_VERSION };
        let whole = bytes.subrange(at, at + self.written().len());
        let mark = magic_bytes().len() as int;
        assert(bytes.subrange(at, at + mark) =~= whole.subrange(0, mark));
        assert(whole.subrange(0, mark) =~= magic_bytes());
        assert(bytes.subrange(at + mark, at + self.written().len()) =~= whole.subrange(
            mark,
            whole.len() as int,
        ));
        assert(whole.subrange(mark, whole.len() as int) =~= version.written());
        version.reads_back(bytes, at + mark);
    }

    proof fn cut_is_refused(self, bytes: Seq<u8>, at: int) {
        lemma_auto_spec_u32_to_from_le_bytes();
    }
}

pub type AnswerModel = (Asked, (Blob, (Blob, (Option<Status>, Count))));

pub type ChangeModel = (Blob, Option<Blob>);

pub type OriginModel = (
    List<Blob>,
    (Blob, (Text, (Option<Text>, (List<(Blob, Blob)>, (Count, List<ChangeModel>))))),
);

pub type UnitModel = (
    Blob,
    (
        Blob,
        (
            List<AnswerModel>,
            (
                List<AnswerModel>,
                (List<ChangeModel>, (List<(Blob, Word64)>, Option<OriginModel>)),
            ),
        ),
    ),
);

pub type LayoutModel = (Blob, (List<ChangeModel>, (Blob, (Flag, Option<Text>))));

pub type DirectModel = (List<Blob>, (Blob, (List<ChangeModel>, (Text, Flag))));

pub type StepModel = (LaunchModel, (Flag, Flag));

pub type SettledModel = (List<StepModel>, Option<List<StepModel>>);

pub type RecipeUnitModel = (Blob, (LayoutModel, Blob));

pub type BuildModel = (
    List<Blob>,
    (
        List<Blob>,
        (
            List<Blob>,
            (
                List<(Blob, Text)>,
                (
                    List<Blob>,
                    (
                        List<Blob>,
                        (
                            List<(Blob, List<Blob>)>,
                            (
                                List<RecipeUnitModel>,
                                (
                                    List<(Blob, (Blob, Count))>,
                                    (List<(Blob, SettledModel)>, (Text, Count)),
                                ),
                            ),
                        ),
                    ),
                ),
            ),
        ),
    ),
);

pub type ArtifactModel = (Opening, (Word64, (List<UnitModel>, Option<BuildModel>)));

/// One launch behind the byte that says which kind it is.
pub enum LaunchModel {
    Shell(Blob),
    Direct(DirectModel),
    Refused(Text),
}

impl Coded for LaunchModel {
    open spec fn carried(self) -> bool {
        match self {
            LaunchModel::Shell(command) => command.carried(),
            LaunchModel::Direct(direct) => direct.carried(),
            LaunchModel::Refused(why) => why.carried(),
        }
    }

    open spec fn written(self) -> Seq<u8> {
        match self {
            LaunchModel::Shell(command) => (Octet { value: 0 }, command).written(),
            LaunchModel::Direct(direct) => (Octet { value: 1 }, direct).written(),
            LaunchModel::Refused(why) => (Octet { value: 2 }, why).written(),
        }
    }

    open spec fn read(bytes: Seq<u8>, at: int) -> Option<(Self, int)> {
        match Octet::read(bytes, at) {
            Some(tag) => if tag.0.value == 0 {
                match Blob::read(bytes, tag.1) {
                    Some(got) => Some((LaunchModel::Shell(got.0), got.1)),
                    None => None,
                }
            } else if tag.0.value == 1 {
                match DirectModel::read(bytes, tag.1) {
                    Some(got) => Some((LaunchModel::Direct(got.0), got.1)),
                    None => None,
                }
            } else if tag.0.value == 2 {
                match Text::read(bytes, tag.1) {
                    Some(got) => Some((LaunchModel::Refused(got.0), got.1)),
                    None => None,
                }
            } else {
                None
            },
            None => None,
        }
    }

    proof fn moves(bytes: Seq<u8>, at: int) {
        if at < bytes.len() {
            Blob::moves(bytes, at + 1);
            DirectModel::moves(bytes, at + 1);
            Text::moves(bytes, at + 1);
        }
    }

    proof fn reads_back(self, bytes: Seq<u8>, at: int) {
        match self {
            LaunchModel::Shell(command) => (Octet { value: 0 }, command).reads_back(bytes, at),
            LaunchModel::Direct(direct) => (Octet { value: 1 }, direct).reads_back(bytes, at),
            LaunchModel::Refused(why) => (Octet { value: 2 }, why).reads_back(bytes, at),
        }
    }

    proof fn cut_is_refused(self, bytes: Seq<u8>, at: int) {
        match self {
            LaunchModel::Shell(command) => {
                (Octet { value: 0 }, command).cut_is_refused(bytes, at);
                if at < bytes.len() {
                    assert(bytes.subrange(at, bytes.len() as int)[0] == self.written()[0]);
                }
            },
            LaunchModel::Direct(direct) => {
                (Octet { value: 1 }, direct).cut_is_refused(bytes, at);
                if at < bytes.len() {
                    assert(bytes.subrange(at, bytes.len() as int)[0] == self.written()[0]);
                }
            },
            LaunchModel::Refused(why) => {
                (Octet { value: 2 }, why).cut_is_refused(bytes, at);
                if at < bytes.len() {
                    assert(bytes.subrange(at, bytes.len() as int)[0] == self.written()[0]);
                }
            },
        }
    }
}

/// Bytes written in three steps are the same however the steps are grouped.
proof fn regrouped(front: Seq<u8>, middle: Seq<u8>, back: Seq<u8>)
    ensures
        (front + middle) + back == front + (middle + back),
{
    assert((front + middle) + back =~= front + (middle + back));
}

/// Bytes being written, in the order they were given.
pub struct Writer {
    pub out: Vec<u8>,
}

/// Bytes being read, and how far the reader has come.
pub struct Reader<'a> {
    pub bytes: &'a [u8],
    pub at: usize,
}

/// What a reader that was asked for an `M` did, given what it stood at.
pub open spec fn read_as<M: Coded>(before: Reader, got: Option<M>, after: Reader) -> bool {
    &&& after.bytes@ == before.bytes@
    &&& after.wf()
    &&& match got {
        Some(model) => M::read(before.bytes@, before.at as int) == Some((model, after.at as int)),
        None => M::read(before.bytes@, before.at as int) is None,
    }
}

/// A value a record can hold.
pub trait Recorded: Sized {
    /// The model that says what bytes the value is written as.
    type M: Coded;

    /// The value as its model.
    spec fn model(&self) -> Self::M;

    /// Write the value, which the format can always carry.
    fn put(&self, w: &mut Writer)
        ensures
            self.model().carried(),
            final(w).out@ == old(w).out@ + self.model().written(),
    ;

    /// Read a value.
    fn get(r: &mut Reader<'_>) -> (got: Option<Self>)
        requires
            old(r).wf(),
        ensures
            read_as(
                *old(r),
                match got {
                    Some(value) => Some(value.model()),
                    None => None,
                },
                *final(r),
            ),
    ;
}

/// The model of a value that may not have been read.
pub open spec fn model_of<T: Recorded>(got: Option<T>) -> Option<T::M> {
    match got {
        Some(value) => Some(value.model()),
        None => None,
    }
}

/// The model of a status that may be absent.
pub open spec fn status_model(value: Option<i32>) -> Option<Status> {
    match value {
        Some(value) => Some(Status { value }),
        None => None,
    }
}

/// The models of a list of values.
pub open spec fn models<T: Recorded>(values: Seq<T>) -> Seq<T::M> {
    Seq::new(values.len(), |i: int| values[i].model())
}

impl Writer {
    /// Write bytes as they are.
    pub fn raw(&mut self, bytes: &[u8])
        ensures
            final(self).out@ == old(self).out@ + bytes@,
    {
        append(&mut self.out, bytes);
    }

    pub fn u8(&mut self, value: u8)
        ensures
            final(self).out@ == old(self).out@ + (Octet { value }).written(),
    {
        let ghost before = self.out@;
        self.out.push(value);
        assert(self.out@ =~= before + Octet { value }.written());
    }

    pub fn u32(&mut self, value: u32)
        ensures
            final(self).out@ == old(self).out@ + (Word32 { value }).written(),
    {
        self.raw(u32_to_le_bytes(value).as_slice());
    }

    pub fn u64(&mut self, value: u64)
        ensures
            final(self).out@ == old(self).out@ + (Word64 { value }).written(),
    {
        self.raw(u64_to_le_bytes(value).as_slice());
    }

    pub fn len(&mut self, value: usize)
        ensures
            (Count { value: value as nat }).carried(),
            final(self).out@ == old(self).out@ + (Count { value: value as nat }).written(),
    {
        self.u64(value as u64);
    }

    pub fn bytes(&mut self, value: &[u8])
        ensures
            (Blob { data: value@ }).carried(),
            final(self).out@ == old(self).out@ + (Blob { data: value@ }).written(),
    {
        let ghost before = self.out@;
        self.len(value.len());
        self.raw(value);
        assert(self.out@ =~= before + Blob { data: value@ }.written());
    }

    /// Write text.
    pub fn string(&mut self, value: &str)
        ensures
            (Text { data: value.spec_bytes() }).carried(),
            final(self).out@ == old(self).out@ + (Text { data: value.spec_bytes() }).written(),
    {
        self.bytes(value.as_bytes());
        proof {
            encode_utf8_valid_utf8(value@);
        }
    }

    /// Write the status a question left, where it left one.
    pub fn status(&mut self, value: &Option<i32>)
        ensures
            final(self).out@ == old(self).out@ + status_model(*value).written(),
    {
        let ghost before = self.out@;
        match value {
            None => {
                self.u8(0);
            },
            Some(status) => {
                self.u8(1);
                let bits: u32 = if *status >= 0 {
                    *status as u32
                } else {
                    (*status as i64 + 0x1_0000_0000i64) as u32
                };
                self.u32(bits);
                assert(self.out@ =~= before + status_model(*value).written());
            },
        }
    }

    /// Write a value that may be absent, behind the byte that says whether it
    /// is.
    pub fn option<T: Recorded>(&mut self, value: &Option<T>)
        ensures
            model_of(*value).carried(),
            final(self).out@ == old(self).out@ + model_of(*value).written(),
    {
        let ghost before = self.out@;
        match value {
            None => {
                self.u8(0);
            },
            Some(held) => {
                self.u8(1);
                held.put(self);
                assert(self.out@ =~= before + model_of(*value).written());
            },
        }
    }

    /// Write a list behind its length.
    pub fn list<T: Recorded>(&mut self, values: &[T])
        ensures
            (List { items: models(values@) }).carried(),
            final(self).out@ == old(self).out@ + (List { items: models(values@) }).written(),
    {
        let ghost before = self.out@;
        let ghost items = models(values@);
        self.len(values.len());
        let ghost counted = self.out@;
        let mut at: usize = 0;
        while at < values.len()
            invariant
                at <= values.len(),
                items == models(values@),
                forall|i: int| 0 <= i < at ==> (#[trigger] items[i]).carried(),
                self.out@ == counted + items_written(items.take(at as int)),
            decreases values.len() - at,
        {
            let ghost standing = self.out@;
            values[at].put(self);
            proof {
                let next = items.take(at as int + 1);
                assert(next.drop_last() =~= items.take(at as int));
                assert(next.last() == values@[at as int].model());
                assert(self.out@ =~= counted + items_written(next));
            }
            at += 1;
        }
        assert(items.take(at as int) =~= items);
        assert(self.out@ =~= before + List { items }.written());
    }

    /// Write the answers one read was given.
    pub fn answers(&mut self, answers: &[GroundAnswer])
        ensures
            (List { items: models(answers@) }).carried(),
            final(self).out@ == old(self).out@ + (List { items: models(answers@) }).written(),
    {
        self.list(answers);
    }

    /// Write a list of names.
    pub fn names(&mut self, names: &[Vec<u8>])
        ensures
            (List { items: models(names@) }).carried(),
            final(self).out@ == old(self).out@ + (List { items: models(names@) }).written(),
    {
        self.list(names);
    }

    /// Write the changes a recipe's environment makes.
    pub fn recipe_environment(&mut self, environment: &[(Vec<u8>, Option<Vec<u8>>)])
        ensures
            (List { items: models(environment@) }).carried(),
            final(self).out@ == old(self).out@ + (List { items: models(environment@) }).written(),
    {
        self.list(environment);
    }

    /// Write what one unit wraps its recipes in.
    pub fn layout(&mut self, layout: &CommandLayout)
        ensures
            layout.model().carried(),
            final(self).out@ == old(self).out@ + layout.model().written(),
    {
        layout.put(self);
    }

    /// Write one recipe's launches.
    pub fn steps(&mut self, steps: &[LateStep])
        ensures
            (List { items: models(steps@) }).carried(),
            final(self).out@ == old(self).out@ + (List { items: models(steps@) }).written(),
    {
        self.list(steps);
    }
}

impl<'a> Reader<'a> {
    /// The reader stands within its bytes.
    pub open spec fn wf(&self) -> bool {
        self.at <= self.bytes@.len()
    }

    /// Take the next `count` bytes, or none where there are not as many.
    pub fn take(&mut self, count: usize) -> (got: Option<&'a [u8]>)
        requires
            old(self).wf(),
        ensures
            final(self).wf(),
            final(self).bytes@ == old(self).bytes@,
            match got {
                Some(held) => taken(old(self).bytes@, old(self).at as int, count as int) == Some(
                    held@,
                ) && final(self).at == old(self).at + count,
                None => taken(old(self).bytes@, old(self).at as int, count as int) is None
                    && final(self).at == old(self).at,
            },
    {
        if count > self.bytes.len() - self.at {
            return None;
        }
        let held = vstd::slice::slice_subrange(self.bytes, self.at, self.at + count);
        self.at = self.at + count;
        Some(held)
    }

    pub fn u8(&mut self) -> (got: Option<u8>)
        requires
            old(self).wf(),
        ensures
            read_as(
                *old(self),
                match got {
                    Some(value) => Some(Octet { value }),
                    None => None,
                },
                *final(self),
            ),
    {
        match self.take(1) {
            Some(held) => Some(held[0]),
            None => None,
        }
    }

    pub fn u32(&mut self) -> (got: Option<u32>)
        requires
            old(self).wf(),
        ensures
            read_as(
                *old(self),
                match got {
                    Some(value) => Some(Word32 { value }),
                    None => None,
                },
                *final(self),
            ),
    {
        match self.take(4) {
            Some(held) => Some(u32_from_le_bytes(held)),
            None => None,
        }
    }

    pub fn u64(&mut self) -> (got: Option<u64>)
        requires
            old(self).wf(),
        ensures
            read_as(
                *old(self),
                match got {
                    Some(value) => Some(Word64 { value }),
                    None => None,
                },
                *final(self),
            ),
    {
        match self.take(8) {
            Some(held) => Some(u64_from_le_bytes(held)),
            None => None,
        }
    }

    pub fn len(&mut self) -> (got: Option<usize>)
        requires
            old(self).wf(),
        ensures
            read_as(
                *old(self),
                match got {
                    Some(value) => Some(Count { value: value as nat }),
                    None => None,
                },
                *final(self),
            ),
    {
        let wide: u64 = match self.u64() {
            Some(value) => value,
            None => return None,
        };
        if wide <= usize::MAX as u64 {
            Some(wide as usize)
        } else {
            None
        }
    }

    pub fn bytes(&mut self) -> (got: Option<Vec<u8>>)
        requires
            old(self).wf(),
        ensures
            read_as(
                *old(self),
                match got {
                    Some(value) => Some(Blob { data: value@ }),
                    None => None,
                },
                *final(self),
            ),
    {
        let count: usize = match self.len() {
            Some(value) => value,
            None => return None,
        };
        match self.take(count) {
            Some(held) => Some(copied(held)),
            None => None,
        }
    }

    pub fn bool(&mut self) -> (got: Option<bool>)
        requires
            old(self).wf(),
        ensures
            read_as(
                *old(self),
                match got {
                    Some(value) => Some(Flag { value }),
                    None => None,
                },
                *final(self),
            ),
    {
        match self.u8() {
            Some(byte) => match byte {
                0 => Some(false),
                1 => Some(true),
                _ => None,
            },
            None => None,
        }
    }

    pub fn string(&mut self) -> (got: Option<String>)
        requires
            old(self).wf(),
        ensures
            read_as(
                *old(self),
                match got {
                    Some(value) => Some(Text { data: encode_utf8(value@) }),
                    None => None,
                },
                *final(self),
            ),
    {
        match self.bytes() {
            Some(held) => from_utf8(held),
            None => None,
        }
    }

    /// Read a kind of question.
    pub fn asked(&mut self) -> (got: Option<GroundQuestion>)
        requires
            old(self).wf(),
        ensures
            read_as(
                *old(self),
                match got {
                    Some(question) => Some(Asked { question }),
                    None => None,
                },
                *final(self),
            ),
    {
        match self.u8() {
            Some(tag) => question_of(tag),
            None => None,
        }
    }

    /// Read the status a question left, where it left one.
    pub fn status(&mut self) -> (got: Option<Option<i32>>)
        requires
            old(self).wf(),
        ensures
            read_as(
                *old(self),
                match got {
                    Some(value) => Some(status_model(value)),
                    None => None,
                },
                *final(self),
            ),
    {
        match self.bool() {
            Some(present) => if present {
                match self.u32() {
                    Some(bits) => if bits < 0x8000_0000 {
                        Some(Some(bits as i32))
                    } else {
                        Some(Some((bits as i64 - 0x1_0000_0000i64) as i32))
                    },
                    None => None,
                }
            } else {
                Some(None)
            },
            None => None,
        }
    }

    /// Read a value that may be absent. The outer `None` is bytes that hold
    /// none; the inner one is the record's own absent value.
    pub fn option<T: Recorded>(&mut self) -> (got: Option<Option<T>>)
        requires
            old(self).wf(),
        ensures
            read_as(
                *old(self),
                match got {
                    Some(value) => Some(model_of(value)),
                    None => None,
                },
                *final(self),
            ),
    {
        match self.bool() {
            Some(present) => if present {
                match T::get(self) {
                    Some(value) => Some(Some(value)),
                    None => None,
                }
            } else {
                Some(None)
            },
            None => None,
        }
    }

    /// Read a list.
    pub fn list<T: Recorded>(&mut self) -> (got: Option<Vec<T>>)
        requires
            old(self).wf(),
        ensures
            read_as(
                *old(self),
                match got {
                    Some(values) => Some(List { items: models(values@) }),
                    None => None,
                },
                *final(self),
            ),
    {
        let count: usize = match self.len() {
            Some(value) => value,
            None => return None,
        };
        let ghost from = self.at as int;
        let ghost start = old(self).at as int;
        let ghost whole = self.bytes@;
        let mut values: Vec<T> = Vec::new();
        assert(models(values@) =~= Seq::<T::M>::empty());
        let mut at: usize = 0;
        while at < count
            invariant
                at <= count,
                self.wf(),
                self.bytes@ == whole,
                whole == old(self).bytes@,
                start == old(self).at,
                Count::read(whole, start) == Some((Count { value: count as nat }, from)),
                items_read::<T::M>(whole, from, at as nat) == Some(
                    (models(values@), self.at as int),
                ),
            decreases count - at,
        {
            match T::get(self) {
                Some(value) => {
                    let ghost before = models(values@);
                    values.push(value);
                    assert(models(values@) =~= before.push(value.model()));
                },
                None => {
                    proof {
                        missing_items_stay_missing::<T::M>(
                            whole,
                            from,
                            (at + 1) as nat,
                            count as nat,
                        );
                    }
                    return None;
                },
            }
            at += 1;
        }
        Some(values)
    }

    /// Read the answers one read was given.
    pub fn answers(&mut self) -> (got: Option<Vec<GroundAnswer>>)
        requires
            old(self).wf(),
        ensures
            read_as(
                *old(self),
                match got {
                    Some(values) => Some(List { items: models(values@) }),
                    None => None,
                },
                *final(self),
            ),
    {
        self.list()
    }

    /// Read a list of names.
    pub fn names(&mut self) -> (got: Option<Vec<Vec<u8>>>)
        requires
            old(self).wf(),
        ensures
            read_as(
                *old(self),
                match got {
                    Some(values) => Some(List { items: models(values@) }),
                    None => None,
                },
                *final(self),
            ),
    {
        self.list()
    }

    /// Read the changes a recipe's environment makes.
    pub fn recipe_environment(&mut self) -> (got: Option<Vec<(Vec<u8>, Option<Vec<u8>>)>>)
        requires
            old(self).wf(),
        ensures
            read_as(
                *old(self),
                match got {
                    Some(values) => Some(List { items: models(values@) }),
                    None => None,
                },
                *final(self),
            ),
    {
        self.list()
    }

    /// Read what one unit wraps its recipes in.
    pub fn layout(&mut self) -> (got: Option<CommandLayout>)
        requires
            old(self).wf(),
        ensures
            read_as(*old(self), model_of(got), *final(self)),
    {
        CommandLayout::get(self)
    }

    /// Read one recipe's launches.
    pub fn steps(&mut self) -> (got: Option<Vec<LateStep>>)
        requires
            old(self).wf(),
        ensures
            read_as(
                *old(self),
                match got {
                    Some(values) => Some(List { items: models(values@) }),
                    None => None,
                },
                *final(self),
            ),
    {
        self.list()
    }
}

impl Recorded for Vec<u8> {
    type M = Blob;

    open spec fn model(&self) -> Blob {
        Blob { data: self@ }
    }

    fn put(&self, w: &mut Writer) {
        w.bytes(self);
    }

    fn get(r: &mut Reader<'_>) -> (got: Option<Self>) {
        r.bytes()
    }
}

impl Recorded for String {
    type M = Text;

    open spec fn model(&self) -> Text {
        Text { data: encode_utf8(self@) }
    }

    fn put(&self, w: &mut Writer) {
        w.string(self.as_str());
    }

    fn get(r: &mut Reader<'_>) -> (got: Option<Self>) {
        r.string()
    }
}

impl Recorded for u64 {
    type M = Word64;

    open spec fn model(&self) -> Word64 {
        Word64 { value: *self }
    }

    fn put(&self, w: &mut Writer) {
        w.u64(*self);
    }

    fn get(r: &mut Reader<'_>) -> (got: Option<Self>) {
        r.u64()
    }
}

impl Recorded for usize {
    type M = Count;

    open spec fn model(&self) -> Count {
        Count { value: *self as nat }
    }

    fn put(&self, w: &mut Writer) {
        w.len(*self);
    }

    fn get(r: &mut Reader<'_>) -> (got: Option<Self>) {
        r.len()
    }
}

impl<T: Recorded> Recorded for Option<T> {
    type M = Option<T::M>;

    open spec fn model(&self) -> Option<T::M> {
        model_of(*self)
    }

    fn put(&self, w: &mut Writer) {
        w.option(self);
    }

    fn get(r: &mut Reader<'_>) -> (got: Option<Self>) {
        r.option()
    }
}

impl<T: Recorded, U: Recorded> Recorded for (T, U) {
    type M = (T::M, U::M);

    open spec fn model(&self) -> (T::M, U::M) {
        (self.0.model(), self.1.model())
    }

    fn put(&self, w: &mut Writer) {
        let ghost before = w.out@;
        self.0.put(w);
        self.1.put(w);
        assert(w.out@ =~= before + self.model().written());
    }

    fn get(r: &mut Reader<'_>) -> (got: Option<Self>) {
        let first = match T::get(r) {
            Some(value) => value,
            None => return None,
        };
        match U::get(r) {
            Some(second) => Some((first, second)),
            None => None,
        }
    }
}

impl<T: Recorded> Recorded for Vec<T> {
    type M = List<T::M>;

    open spec fn model(&self) -> List<T::M> {
        List { items: models(self@) }
    }

    fn put(&self, w: &mut Writer) {
        w.list(self);
    }

    fn get(r: &mut Reader<'_>) -> (got: Option<Self>) {
        r.list()
    }
}

impl Recorded for GroundAnswer {
    type M = AnswerModel;

    open spec fn model(&self) -> AnswerModel {
        (Asked { question: self.question }, (Blob { data: self.asked@ },
            (Blob { data: self.answer@ }, (status_model(self.status),
            Count { value: self.nested as nat }))))
    }

    fn put(&self, w: &mut Writer) {
        let ghost before = w.out@;
        w.u8(question_tag(self.question));
        w.bytes(&self.asked);
        w.bytes(&self.answer);
        w.status(&self.status);
        w.len(self.nested);
        assert(w.out@ =~= before + self.model().written());
    }

    fn get(r: &mut Reader<'_>) -> (got: Option<Self>) {
        let question = match r.asked() {
            Some(value) => value,
            None => return None,
        };
        let asked = match r.bytes() {
            Some(value) => value,
            None => return None,
        };
        let answer = match r.bytes() {
            Some(value) => value,
            None => return None,
        };
        let status = match r.status() {
            Some(value) => value,
            None => return None,
        };
        let nested: usize = match r.len() {
            Some(value) => value,
            None => return None,
        };
        Some(GroundAnswer { question, asked, answer, status, nested })
    }
}

impl Recorded for ChildOrigin {
    type M = OriginModel;

    open spec fn model(&self) -> OriginModel {
        (List { items: models(self.words@) }, (Blob { data: self.directory@ },
            (Text { data: encode_utf8(self.parent_makeflags@) }, (model_of(self.gnumakeflags),
            (List { items: models(self.environment@) }, (Count { value: self.level as nat },
            List { items: models(self.recipe_environment@) }))))))
    }

    fn put(&self, w: &mut Writer) {
        let ghost before = w.out@;
        w.list(&self.words);
        w.bytes(&self.directory);
        w.string(self.parent_makeflags.as_str());
        w.option(&self.gnumakeflags);
        w.list(&self.environment);
        w.len(self.level);
        w.list(&self.recipe_environment);
        assert(w.out@ =~= before + self.model().written());
    }

    fn get(r: &mut Reader<'_>) -> (got: Option<Self>) {
        let words = match r.list() {
            Some(value) => value,
            None => return None,
        };
        let directory = match r.bytes() {
            Some(value) => value,
            None => return None,
        };
        let parent_makeflags = match r.string() {
            Some(value) => value,
            None => return None,
        };
        let gnumakeflags = match r.option() {
            Some(value) => value,
            None => return None,
        };
        let environment = match r.list() {
            Some(value) => value,
            None => return None,
        };
        let level: usize = match r.len() {
            Some(value) => value,
            None => return None,
        };
        let recipe_environment = match r.list() {
            Some(value) => value,
            None => return None,
        };
        Some(
            ChildOrigin {
                words,
                directory,
                parent_makeflags,
                gnumakeflags,
                environment,
                level,
                recipe_environment,
            },
        )
    }
}

/// Write how a child unit was invoked.
pub fn encode_origin(w: &mut Writer, origin: &ChildOrigin)
    ensures
        origin.model().carried(),
        final(w).out@ == old(w).out@ + origin.model().written(),
{
    origin.put(w);
}

/// Read how a child unit was invoked.
pub fn decode_origin(r: &mut Reader<'_>) -> (got: Option<ChildOrigin>)
    requires
        old(r).wf(),
    ensures
        read_as(*old(r), model_of(got), *final(r)),
{
    ChildOrigin::get(r)
}

impl Recorded for UnitArtifact {
    type M = UnitModel;

    open spec fn model(&self) -> UnitModel {
        (Blob { data: self.key@ }, (Blob { data: self.directory@ },
            (List { items: models(self.ground@) }, (List { items: models(self.off_journal@) },
            (List { items: models(self.environment@) }, (List { items: models(self.sources@) },
            model_of(self.origin)))))))
    }

    fn put(&self, w: &mut Writer) {
        let ghost before = w.out@;
        w.bytes(&self.key);
        w.bytes(&self.directory);
        w.list(&self.ground);
        w.list(&self.off_journal);
        w.list(&self.environment);
        w.list(&self.sources);
        w.option(&self.origin);
        assert(w.out@ =~= before + self.model().written());
    }

    fn get(r: &mut Reader<'_>) -> (got: Option<Self>) {
        let key = match r.bytes() {
            Some(value) => value,
            None => return None,
        };
        let directory = match r.bytes() {
            Some(value) => value,
            None => return None,
        };
        let ground = match r.list() {
            Some(value) => value,
            None => return None,
        };
        let off_journal = match r.list() {
            Some(value) => value,
            None => return None,
        };
        let environment = match r.list() {
            Some(value) => value,
            None => return None,
        };
        let sources = match r.list() {
            Some(value) => value,
            None => return None,
        };
        let origin = match r.option() {
            Some(value) => value,
            None => return None,
        };
        Some(UnitArtifact { key, directory, ground, off_journal, environment, sources, origin })
    }
}

impl Recorded for CommandLayout {
    type M = LayoutModel;

    open spec fn model(&self) -> LayoutModel {
        (Blob { data: self.command_directory@ }, (List { items: models(self.recipe_environment@) },
            (Blob { data: self.root_directory@ }, (Flag { value: self.root },
            model_of(self.unreadable)))))
    }

    fn put(&self, w: &mut Writer) {
        let ghost before = w.out@;
        w.bytes(&self.command_directory);
        w.list(&self.recipe_environment);
        w.bytes(&self.root_directory);
        w.u8(if self.root {
 1
 } else {
 0
 });
        w.option(&self.unreadable);
        assert(w.out@ =~= before + self.model().written());
    }

    fn get(r: &mut Reader<'_>) -> (got: Option<Self>) {
        let command_directory = match r.bytes() {
            Some(value) => value,
            None => return None,
        };
        let recipe_environment = match r.list() {
            Some(value) => value,
            None => return None,
        };
        let root_directory = match r.bytes() {
            Some(value) => value,
            None => return None,
        };
        let root = match r.bool() {
            Some(value) => value,
            None => return None,
        };
        let unreadable = match r.option() {
            Some(value) => value,
            None => return None,
        };
        Some(
            CommandLayout {
                command_directory,
                recipe_environment,
                root_directory,
                root,
                unreadable,
            },
        )
    }
}

impl Recorded for DirectLaunch {
    type M = DirectModel;

    open spec fn model(&self) -> DirectModel {
        (List { items: models(self.argv@) }, (Blob { data: self.directory@ },
            (List { items: models(self.environment@) },
            (Text { data: encode_utf8(self.diagnostic_prefix@) },
            Flag { value: self.starts_no_process }))))
    }

    fn put(&self, w: &mut Writer) {
        let ghost before = w.out@;
        w.list(&self.argv);
        w.bytes(&self.directory);
        w.list(&self.environment);
        w.string(self.diagnostic_prefix.as_str());
        w.u8(if self.starts_no_process {
 1
 } else {
 0
 });
        assert(w.out@ =~= before + self.model().written());
    }

    fn get(r: &mut Reader<'_>) -> (got: Option<Self>) {
        let argv = match r.list() {
            Some(value) => value,
            None => return None,
        };
        let directory = match r.bytes() {
            Some(value) => value,
            None => return None,
        };
        let environment = match r.list() {
            Some(value) => value,
            None => return None,
        };
        let diagnostic_prefix = match r.string() {
            Some(value) => value,
            None => return None,
        };
        let starts_no_process = match r.bool() {
            Some(value) => value,
            None => return None,
        };
        Some(DirectLaunch { argv, directory, environment, diagnostic_prefix, starts_no_process })
    }
}

impl Recorded for Launch {
    type M = LaunchModel;

    open spec fn model(&self) -> LaunchModel {
        match self {
            Launch::Shell(command) => LaunchModel::Shell(Blob { data: command@ }),
            Launch::Direct(direct) => LaunchModel::Direct(direct.model()),
            Launch::Refused(why) => LaunchModel::Refused(why.model()),
        }
    }

    fn put(&self, w: &mut Writer) {
        let ghost before = w.out@;
        match self {
            Launch::Shell(command) => {
                w.u8(0);
                w.bytes(command);
            },
            Launch::Direct(direct) => {
                w.u8(1);
                direct.put(w);
            },
            Launch::Refused(why) => {
                w.u8(2);
                why.put(w);
            },
        }
        assert(w.out@ =~= before + self.model().written());
    }

    fn get(r: &mut Reader<'_>) -> (got: Option<Self>) {
        let tag: u8 = match r.u8() {
            Some(value) => value,
            None => return None,
        };
        match tag {
            0 => match r.bytes() {
                Some(command) => Some(Launch::Shell(command)),
                None => None,
            },
            1 => match DirectLaunch::get(r) {
                Some(direct) => Some(Launch::Direct(direct)),
                None => None,
            },
            2 => match r.string() {
                Some(why) => Some(Launch::Refused(why)),
                None => None,
            },
            _ => None,
        }
    }
}

impl Recorded for LateStep {
    type M = StepModel;

    open spec fn model(&self) -> StepModel {
        (self.launch.model(), (Flag { value: self.ignore_errors },
            Flag { value: self.runs_while_pretending }))
    }

    fn put(&self, w: &mut Writer) {
        let ghost before = w.out@;
        self.launch.put(w);
        w.u8(if self.ignore_errors {
 1
 } else {
 0
 });
        w.u8(if self.runs_while_pretending {
 1
 } else {
 0
 });
        assert(w.out@ =~= before + self.model().written());
    }

    fn get(r: &mut Reader<'_>) -> (got: Option<Self>) {
        let launch = match Launch::get(r) {
            Some(value) => value,
            None => return None,
        };
        let ignore_errors = match r.bool() {
            Some(value) => value,
            None => return None,
        };
        let runs_while_pretending = match r.bool() {
            Some(value) => value,
            None => return None,
        };
        Some(LateStep { launch, ignore_errors, runs_while_pretending })
    }
}

impl Recorded for SettledSteps {
    type M = SettledModel;

    open spec fn model(&self) -> SettledModel {
        (List { items: models(self.ordinary@) }, model_of(self.while_remaking))
    }

    fn put(&self, w: &mut Writer) {
        let ghost before = w.out@;
        w.list(&self.ordinary);
        w.option(&self.while_remaking);
        assert(w.out@ =~= before + self.model().written());
    }

    fn get(r: &mut Reader<'_>) -> (got: Option<Self>) {
        let ordinary = match r.list() {
            Some(value) => value,
            None => return None,
        };
        let while_remaking = match r.option() {
            Some(value) => value,
            None => return None,
        };
        Some(SettledSteps { ordinary, while_remaking })
    }
}

impl Recorded for RecipeUnitArtifact {
    type M = RecipeUnitModel;

    open spec fn model(&self) -> RecipeUnitModel {
        (Blob { data: self.key@ }, (self.layout.model(), Blob { data: self.directory@ }))
    }

    fn put(&self, w: &mut Writer) {
        let ghost before = w.out@;
        w.bytes(&self.key);
        self.layout.put(w);
        w.bytes(&self.directory);
        assert(w.out@ =~= before + self.model().written());
    }

    fn get(r: &mut Reader<'_>) -> (got: Option<Self>) {
        let key = match r.bytes() {
            Some(value) => value,
            None => return None,
        };
        let layout = match CommandLayout::get(r) {
            Some(value) => value,
            None => return None,
        };
        let directory = match r.bytes() {
            Some(value) => value,
            None => return None,
        };
        Some(RecipeUnitArtifact { key, layout, directory })
    }
}

impl Recorded for BuildArtifact {
    type M = BuildModel;

    open spec fn model(&self) -> BuildModel {
        (List { items: models(self.remakes@) }, (List { items: models(self.forgiven@) },
            (List { items: models(self.unread@) }, (List { items: models(self.complaints@) },
            (List { items: models(self.staged_for_makefiles@) },
            (List { items: models(self.staged_for_goals@) },
            (List { items: models(self.clean_wrappers@) }, (List { items: models(self.units@) },
            (List { items: models(self.deferred@) }, (List { items: models(self.settled@) },
            (Text { data: encode_utf8(self.makeflags@) },
            Count { value: self.job_budget as nat })))))))))))
    }

    fn put(&self, w: &mut Writer) {
let ghost before = w.out@;
        w.list(&self.remakes);
        let ghost after_remakes = w.out@;
        w.list(&self.forgiven);
        let ghost after_forgiven = w.out@;
        w.list(&self.unread);
        let ghost after_unread = w.out@;
        w.list(&self.complaints);
        let ghost after_complaints = w.out@;
        w.list(&self.staged_for_makefiles);
        let ghost after_staged_for_makefiles = w.out@;
        w.list(&self.staged_for_goals);
        let ghost after_staged_for_goals = w.out@;
        w.list(&self.clean_wrappers);
        let ghost after_clean_wrappers = w.out@;
        w.list(&self.units);
        let ghost after_units = w.out@;
        w.list(&self.deferred);
        let ghost after_deferred = w.out@;
        w.list(&self.settled);
        let ghost after_settled = w.out@;
        w.string(self.makeflags.as_str());
        let ghost after_makeflags = w.out@;
        w.len(self.job_budget);
        proof {
            let tail_job_budget = Count { value: self.job_budget as nat };
            let head = Text { data: encode_utf8(self.makeflags@) };
            regrouped(after_settled, head.written(), tail_job_budget.written());
            let tail_makeflags = (head, tail_job_budget);
            let head = List { items: models(self.settled@) };
            regrouped(after_deferred, head.written(), tail_makeflags.written());
            let tail_settled = (head, tail_makeflags);
            let head = List { items: models(self.deferred@) };
            regrouped(after_units, head.written(), tail_settled.written());
            let tail_deferred = (head, tail_settled);
            let head = List { items: models(self.units@) };
            regrouped(after_clean_wrappers, head.written(), tail_deferred.written());
            let tail_units = (head, tail_deferred);
            let head = List { items: models(self.clean_wrappers@) };
            regrouped(after_staged_for_goals, head.written(), tail_units.written());
            let tail_clean_wrappers = (head, tail_units);
            let head = List { items: models(self.staged_for_goals@) };
            regrouped(after_staged_for_makefiles, head.written(), tail_clean_wrappers.written());
            let tail_staged_for_goals = (head, tail_clean_wrappers);
            let head = List { items: models(self.staged_for_makefiles@) };
            regrouped(after_complaints, head.written(), tail_staged_for_goals.written());
            let tail_staged_for_makefiles = (head, tail_staged_for_goals);
            let head = List { items: models(self.complaints@) };
            regrouped(after_unread, head.written(), tail_staged_for_makefiles.written());
            let tail_complaints = (head, tail_staged_for_makefiles);
            let head = List { items: models(self.unread@) };
            regrouped(after_forgiven, head.written(), tail_complaints.written());
            let tail_unread = (head, tail_complaints);
            let head = List { items: models(self.forgiven@) };
            regrouped(after_remakes, head.written(), tail_unread.written());
            let tail_forgiven = (head, tail_unread);
            let head = List { items: models(self.remakes@) };
            regrouped(before, head.written(), tail_forgiven.written());
            let tail_remakes = (head, tail_forgiven);
        }
    }

    fn get(r: &mut Reader<'_>) -> (got: Option<Self>) {
        match Recorded::get(r) {
            Some((remakes, (forgiven, (unread, (complaints, (staged_for_makefiles,
                (staged_for_goals, (clean_wrappers, (units, (deferred, (settled, (makeflags,
                job_budget)))))))))))) => Some(
                BuildArtifact { remakes, forgiven, unread, complaints, staged_for_makefiles, staged_for_goals, clean_wrappers, units, deferred, settled, makeflags, job_budget },
            ),
            None => None,
        }
    }
}

impl BuildArtifact {
    /// Write what the build needs.
    pub fn encode(&self, w: &mut Writer)
        ensures
            self.model().carried(),
            final(w).out@ == old(w).out@ + self.model().written(),
    {
        self.put(w);
    }

    /// Read what the build needs.
    pub fn decode(r: &mut Reader<'_>) -> (got: Option<Self>)
        requires
            old(r).wf(),
        ensures
            read_as(*old(r), model_of(got), *final(r)),
    {
        BuildArtifact::get(r)
    }
}

impl Artifact {
    /// The record as its model.
    pub open spec fn model(&self) -> ArtifactModel {
        (
            Opening {  },
            (
                Word64 { value: self.graph },
                (List { items: models(self.units@) }, model_of(self.build)),
            ),
        )
    }

    /// The bytes this record is written as.
    ///
    /// They are read back as this record, and a file that holds only the first
    /// of them, however many, is refused.
    pub fn encode(&self) -> (out: Vec<u8>)
        ensures
            out@ == self.model().written(),
            file_read::<ArtifactModel>(out@) == Some(self.model()),
            forall|end: int|
                0 <= end < out@.len() ==> file_read::<ArtifactModel>(#[trigger] out@.take(end))
                    is None,
    {
        let mut w = Writer { out: Vec::new() };
        w.raw(&magic());
        w.u32(FORMAT_VERSION);
        w.u64(self.graph);
        w.list(&self.units);
        w.option(&self.build);
        assert(w.out@ =~= self.model().written());
        proof {
            a_file_reads_back(self.model());
            assert forall|end: int| 0 <= end < w.out@.len() implies file_read::<ArtifactModel>(
                #[trigger] w.out@.take(end),
            ) is None by {
                a_cut_file_is_refused(self.model(), end);
            }
        }
        w.out
    }

    /// The record `bytes` holds, or `None` for bytes that do not hold one.
    pub fn decode(bytes: &[u8]) -> (got: Option<Self>)
        ensures
            match got {
                Some(held) => file_read::<ArtifactModel>(bytes@) == Some(held.model()),
                None => file_read::<ArtifactModel>(bytes@) is None,
            },
    {
        let mark = magic();
        let mut r = Reader { bytes, at: 0 };
        match r.take(mark.len()) {
            Some(held) => {
                if !crate::bytes::same(held, &mark) {
                    return None;
                }
            },
            None => return None,
        }
        match r.u32() {
            Some(version) => {
                if version != FORMAT_VERSION {
                    return None;
                }
            },
            None => return None,
        }
        let graph: u64 = match r.u64() {
            Some(value) => value,
            None => return None,
        };
        let units = match r.list() {
            Some(value) => value,
            None => return None,
        };
        let build = match r.option() {
            Some(value) => value,
            None => return None,
        };
        if r.at == bytes.len() {
            Some(Artifact { graph, units, build })
        } else {
            None
        }
    }
}

} // verus!
