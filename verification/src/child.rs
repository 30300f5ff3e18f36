//! One statically expanded `$(MAKE)` command as a compilation of its own.

use crate::bytes::{
    append, begins, copied, lossy, maybe, part, same, starts_with, text, texts, to_str_lossy, trim,
    trimmed,
};
use crate::command::{parse, parsed, Action, Asked, OptionStream};
use crate::error::{message, Failure, MakeError};
use crate::invocation::{looked_up, pairs, Invocation, Settings, Surroundings};
use crate::layout::{changes_of, copied_changes, EnvironmentChange};
use crate::makeflags::{propagated_makeflags, published};
use crate::options::Shuffle;
use crate::paths::{join_path, joined_path};
use crate::session::{
    a_makefile_is_told_of_its_invocation, one_deeper, record_invocation_variables, session_for,
    told_of, CompilationContext,
    ContextModel, Environment, SessionFlags,
};
use crate::shell::{
    a_reordered_environment_has_the_same_key, command_key, compilation_key,
    extend_compilation_key, extends_key, key_of, set_recipe_environment, with_change,
};
use crate::sorting::{keys_apart, meanings, same_values};
use vstd::prelude::*;
use vstd::string::*;

verus! {

/// The last value an environment holds under a name.
pub open spec fn last_value(environment: Seq<(Seq<u8>, Seq<u8>)>, name: Seq<u8>) -> Option<Seq<u8>>
    decreases environment.len(),
{
    if environment.len() == 0 {
        None
    } else if environment.last().0 == name {
        Some(environment.last().1)
    } else {
        last_value(environment.drop_last(), name)
    }
}

/// What a child of a unit is handed as its two option streams, before either is
/// expanded: the switches, unless there are none, and `GNUMAKEFLAGS`, where the
/// environment holds it.
pub fn inherited_options(parent: &CompilationContext) -> (options: (
    Option<Vec<u8>>,
    Option<Vec<u8>>,
))
    ensures
        maybe(options.0) == (if parent.model().makeflags.len() > 0 {
            Some(parent.model().makeflags)
        } else {
            None
        }),
        maybe(options.1) == (match last_value(parent.model().environment, text("GNUMAKEFLAGS")) {
            Some(value) => Some(lossy(value)),
            None => None,
        }),
{
    let makeflags: Option<Vec<u8>> = if parent.makeflags.len() > 0 {
        Some(copied(&parent.makeflags))
    } else {
        None
    };
    let ghost all = pairs(parent.environment@);
    let mut left: usize = parent.environment.len();
    assert(all.take(left as int) =~= all);
    while left > 0
        invariant
            left <= parent.environment@.len(),
            all == pairs(parent.environment@),
            maybe(makeflags) == (if parent.model().makeflags.len() > 0 {
                Some(parent.model().makeflags)
            } else {
                None
            }),
            last_value(all.take(left as int), text("GNUMAKEFLAGS")) == last_value(
                all,
                text("GNUMAKEFLAGS"),
            ),
        decreases left,
    {
        let ghost here = all.take(left as int);
        assert(here.drop_last() =~= all.take(left - 1));
        assert(here.last() == (
            parent.environment@[left - 1].0@,
            parent.environment@[left - 1].1@,
        ));
        if same(&parent.environment[left - 1].0, "GNUMAKEFLAGS".as_bytes()) {
            return (makeflags, Some(to_str_lossy(&parent.environment[left - 1].1)));
        }
        left -= 1;
    }
    (makeflags, None)
}

/// What a recursive invocation that describes no graph is refused with.
pub open spec fn describes_no_graph(stderr: Seq<u8>, stdout: Seq<u8>) -> Seq<u8> {
    text("recursive Make invocation does not describe a graph: ") + trimmed(
        lossy(stderr + stdout),
    )
}

/// What the words of a recursive invocation ask for, the two streams being what
/// [`inherited_options`] says and how it expands.
///
/// One that would answer at once, rather than describe a graph, is refused with
/// what it would have said.
pub fn child_invocation(
    words: &[Vec<u8>],
    makeflags: &Option<OptionStream>,
    gnumakeflags: &Option<OptionStream>,
    around: Surroundings,
) -> (got: Result<Invocation, MakeError>)
    ensures
        match parsed(texts(words@), *makeflags, *gnumakeflags, around.model()) {
            Asked::Execute(settings) => got matches Ok(invocation) && invocation.model()
                == settings,
            Asked::Immediate(result) => got matches Err(wrong) && wrong.model()
                == Failure::Evaluate(describes_no_graph(result.stderr, result.stdout)),
        },
{
    match parse(words, makeflags, gnumakeflags, around) {
        Action::Execute(invocation) => Ok(invocation),
        Action::Immediate(result) => {
            let mut said: Vec<u8> = result.stderr;
            append(&mut said, &result.stdout);
            let shown: Vec<u8> = trim(&to_str_lossy(&said));
            Err(
                MakeError::Evaluate(
                    message("recursive Make invocation does not describe a graph: ", &shown),
                ),
            )
        },
    }
}

/// What a directory a recursive invocation names turned out to be.
#[derive(Debug)]
pub enum Entered {
    /// There is no way into it, and this is why.
    Refused(Vec<u8>),
    /// It stands here, and is not a directory.
    NotADirectory(Vec<u8>),
    /// It is the directory that stands here.
    Directory(Vec<u8>),
}

/// Where a directory a recursive invocation names is looked for.
pub fn selected_directory(base: &[u8], selected: &[u8]) -> (path: Vec<u8>)
    ensures
        path@ == joined_path(base@, selected@),
        selected@.len() > 0 && selected@[0] == 0x2f ==> path@ == selected@,
        selected@.len() > 0 && selected@[0] != 0x2f && base@.len() > 0 && base@.last() != 0x2f
            ==> path@ == base@ + seq![0x2fu8] + selected@,
        selected@.len() > 0 && selected@[0] != 0x2f && base@.len() > 0 && base@.last() == 0x2f
            ==> path@ == base@ + selected@,
{
    assert(base@.push(0x2f) =~= base@ + seq![0x2fu8]);
    join_path(base, selected)
}

/// What a directory that cannot be compiled in is refused with.
pub open spec fn unenterable(selected: Seq<u8>, entered: Entered) -> Seq<u8> {
    match entered {
        Entered::Refused(why) => text("cannot enter recursive Make directory '") + lossy(selected)
            + text("': ") + why@,
        Entered::NotADirectory(path) => text("recursive Make directory '") + lossy(path@) + text(
            "' is not a directory",
        ),
        Entered::Directory(path) => Seq::empty(),
    }
}

/// The directory a recursive invocation is compiled in.
pub fn compilation_directory(selected: &[u8], entered: Entered) -> (directory: Result<
    Vec<u8>,
    MakeError,
>)
    ensures
        match entered {
            Entered::Directory(path) => directory == Ok::<Vec<u8>, MakeError>(path),
            _ => directory matches Err(wrong) && wrong.model() == Failure::Evaluate(
                unenterable(selected@, entered),
            ),
        },
{
    match entered {
        Entered::Directory(path) => Ok(path),
        Entered::Refused(why) => {
            let mut said: Vec<u8> = message(
                "cannot enter recursive Make directory '",
                &to_str_lossy(selected),
            );
            append(&mut said, "': ".as_bytes());
            append(&mut said, &why);
            Err(MakeError::Evaluate(said))
        },
        Entered::NotADirectory(path) => {
            let mut said: Vec<u8> = message("recursive Make directory '", &to_str_lossy(&path));
            append(&mut said, "' is not a directory".as_bytes());
            Err(MakeError::Evaluate(said))
        },
    }
}

/// Where a directory stands under a root, both spelled from the top and neither
/// with a separator too many: what is left of it where it is the root or stands
/// below it, and the whole of it where it does not.
pub open spec fn under(root: Seq<u8>, directory: Seq<u8>) -> Seq<u8> {
    let above = if root.len() > 0 && root.last() == 0x2f {
        root
    } else {
        root.push(0x2f)
    };
    if directory == root {
        Seq::empty()
    } else if begins(directory, above) {
        directory.skip(above.len() as int)
    } else {
        directory
    }
}

/// Where a directory stands under a root.
pub fn prefix_under(root: &[u8], directory: &[u8]) -> (prefix: Vec<u8>)
    ensures
        prefix@ == under(root@, directory@),
{
    if same(root, directory) {
        let nothing: Vec<u8> = Vec::new();
        assert(nothing@ =~= Seq::empty());
        return nothing;
    }
    let mut above: Vec<u8> = copied(root);
    if root.len() == 0 || root[root.len() - 1] != 0x2f {
        above.push(0x2f);
    }
    if starts_with(directory, &above) {
        let rest: Vec<u8> = part(directory, above.len(), directory.len());
        assert(rest@ =~= directory@.skip(above@.len() as int));
        return rest;
    }
    copied(directory)
}

/// One compilation unit, ready to be read.
#[derive(Debug)]
pub struct Compilation {
    pub flags: SessionFlags,
    pub shuffle: Shuffle,
    pub context: CompilationContext,
    /// What the compilation is known by.
    pub cache_key: Vec<u8>,
}

/// What a child inherits of its parent's context, as its model.
pub open spec fn child_context(
    parent: ContextModel,
    settings: Settings,
    directory: Seq<u8>,
) -> ContextModel {
    let level = one_deeper(parent.level);
    let told = published(settings, settings.job_limit());
    ContextModel {
        root_directory: parent.root_directory,
        directory,
        path_prefix: under(parent.root_directory, directory),
        reporting: parent.reporting,
        makeflags: told.makeflags,
        always_make: parent.always_make,
        restarted: parent.restarted,
        assumed_new: Seq::empty(),
        assumed_old: Seq::empty(),
        level,
        jobs: parent.jobs,
        parallel_reads: parent.parallel_reads,
        environment: told_of(parent.environment, told.mflags, level, 0),
        recipe_environment: with_change(
            parent.recipe_environment,
            text("MAKELEVEL"),
            Some(crate::bytes::decimal(one_deeper(level) as nat)),
        ),
    }
}

/// Whether bytes are what a child compilation is known by: where and with what
/// it is read, the command that invokes it, and the environments it inherits,
/// each in the order of its names.
pub open spec fn child_key(
    key: Seq<u8>,
    read: Seq<u8>,
    command: Seq<u8>,
    parent: CompilationContext,
) -> bool {
    extends_key(key, read, command, parent.environment@, parent.recipe_environment@)
}

/// A child is known by the same key under two parents that differ in the order
/// of their environments alone, each naming every variable once.
pub proof fn a_reordered_parent_has_the_same_child(
    parent: CompilationContext,
    other: CompilationContext,
    read: Seq<u8>,
    command: Seq<u8>,
    key: Seq<u8>,
    other_key: Seq<u8>,
)
    requires
        keys_apart(parent.environment@),
        keys_apart(parent.recipe_environment@),
        same_values(other.environment@, parent.environment@),
        same_values(other.recipe_environment@, parent.recipe_environment@),
        child_key(key, read, command, parent),
        child_key(other_key, read, command, other),
    ensures
        key == other_key,
        read.is_prefix_of(key),
{
    a_reordered_environment_has_the_same_key(
        read,
        command,
        parent.environment@,
        other.environment@,
        parent.recipe_environment@,
        other.recipe_environment@,
        key,
        other_key,
    );
}

/// A copy of an environment.
fn copied_environment(environment: &[(Vec<u8>, Vec<u8>)]) -> (copy: Environment)
    ensures
        pairs(copy@) == pairs(environment@),
{
    let mut copy: Environment = Vec::new();
    let mut at: usize = 0;
    while at < environment.len()
        invariant
            at <= environment@.len(),
            copy@.len() == at,
            forall|i: int|
                0 <= i < at ==> (#[trigger] copy@[i]).0@ == environment@[i].0@ && copy@[i].1@
                    == environment@[i].1@,
        decreases environment@.len() - at,
    {
        copy.push((copied(&environment[at].0), copied(&environment[at].1)));
        at += 1;
    }
    assert(pairs(copy@) =~= pairs(environment@));
    copy
}

/// One recursive recipe as another compilation unit: what it asks for, read in
/// a directory over the makefiles it offers.
///
/// A child is not told which files its parent was asked to take for new or for
/// old: the names are the parent's own directory's.
pub fn compile(
    invocation: &Invocation,
    directory: Vec<u8>,
    makefiles: &[Vec<u8>],
    invoked_as: &[u8],
    command: &[u8],
    expanded_make: &[u8],
    shell: &[u8],
    shell_flags: &[u8],
    parent: &CompilationContext,
) -> (got: Result<Compilation, MakeError>)
    ensures
        makefiles@.len() == 0 ==> (got matches Err(wrong) && wrong.model()
            == Failure::MissingChildMakefile(directory@)),
        makefiles@.len() > 0 ==> {
            &&& got is Ok
            &&& got->Ok_0.flags.describe(
                invocation.model(),
                texts(makefiles@),
                parent.jobs,
                invoked_as@,
            )
            &&& got->Ok_0.shuffle == invocation.model().shuffle
            &&& got->Ok_0.context.model() == child_context(
                parent.model(),
                invocation.model(),
                directory@,
            )
            &&& got->Ok_0.context.directory@ == directory@
            &&& got->Ok_0.context.root_directory@ == parent.root_directory@
            &&& got->Ok_0.context.level == (if parent.level < usize::MAX {
                parent.level + 1
            } else {
                parent.level as int
            })
            &&& got->Ok_0.context.jobs == parent.jobs
            &&& got->Ok_0.context.parallel_reads == parent.parallel_reads
            &&& got->Ok_0.context.reporting == parent.reporting
            &&& got->Ok_0.context.restarted == parent.restarted
            &&& got->Ok_0.context.always_make == parent.always_make
            &&& got->Ok_0.context.assumed_new@.len() == 0
            &&& got->Ok_0.context.assumed_old@.len() == 0
            &&& directory@ == parent.root_directory@ ==> got->Ok_0.context.path_prefix@.len() == 0
            &&& spelled_from_the_top(parent.root_directory@) && spelled_from_the_top(directory@) ==> {
                &&& directory@ != parent.root_directory@ ==> joined_path(
                    parent.root_directory@,
                    got->Ok_0.context.path_prefix@,
                ) == got->Ok_0.context.directory@
            }
            &&& forall|name: Seq<u8>|
                #![trigger joined_path(got->Ok_0.context.directory@, name)]
                name.len() > 0 && name[0] != 0x2f && directory@.len() > 0 && directory@.last()
                    != 0x2f ==> joined_path(got->Ok_0.context.directory@, name) == directory@
                    + seq![0x2fu8] + name
            &&& child_key(
                got->Ok_0.cache_key@,
                key_of(
                    directory@,
                    texts(makefiles@),
                    published(invocation.model(), invocation.model().job_limit()).makeflags,
                ),
                command_key(command@, expanded_make@, shell@, shell_flags@),
                *parent,
            )
        },
{
    if makefiles.len() == 0 {
        return Err(MakeError::MissingChildMakefile { directory });
    }
    let flags: SessionFlags = session_for(invocation, makefiles, parent.jobs, invoked_as);
    let level: usize = if parent.level < usize::MAX {
        parent.level + 1
    } else {
        parent.level
    };
    let deeper: usize = if level < usize::MAX {
        level + 1
    } else {
        level
    };
    let environment: Environment = record_invocation_variables(
        &parent.environment,
        invocation,
        level,
        0,
    );
    let path_prefix: Vec<u8> = prefix_under(&parent.root_directory, &directory);
    let makeflags: Vec<u8> = propagated_makeflags(invocation);
    let mut cache_key: Vec<u8> = compilation_key(&directory, makefiles, &makeflags);
    let ghost read = cache_key@;
    let inherited: Environment = copied_environment(&parent.environment);
    let changes: Vec<EnvironmentChange> = copied_changes(&parent.recipe_environment);
    let ghost theirs = inherited@;
    let ghost changed = changes@;
    extend_compilation_key(
        &mut cache_key,
        command,
        expanded_make,
        shell,
        shell_flags,
        inherited,
        changes,
    );
    proof {
        assert(meanings(theirs) =~= pairs(theirs));
        assert(meanings(parent.environment@) =~= pairs(parent.environment@));
        assert(meanings(changed) =~= changes_of(changed));
        assert(meanings(parent.recipe_environment@) =~= changes_of(parent.recipe_environment@));
        assert(child_key(
            cache_key@,
            read,
            command_key(command@, expanded_make@, shell@, shell_flags@),
            *parent,
        ));
    }
    proof {
        if spelled_from_the_top(parent.root_directory@) && spelled_from_the_top(directory@) && directory@
            != parent.root_directory@ {
            a_prefix_leads_back(parent.root_directory@, directory@);
        }
        assert forall|name: Seq<u8>|
            #![trigger joined_path(directory@, name)]
            name.len() > 0 && name[0] != 0x2f && directory@.len() > 0 && directory@.last()
                != 0x2f implies joined_path(directory@, name) == directory@ + seq![0x2fu8]
            + name by {
            assert(directory@.push(0x2f) =~= directory@ + seq![0x2fu8]);
        }
    }
    let own: Vec<EnvironmentChange> = copied_changes(&parent.recipe_environment);
    assert(meanings(own@) =~= changes_of(own@));
    let recipe_environment: Vec<EnvironmentChange> = set_recipe_environment(
        own,
        crate::bytes::literal("MAKELEVEL"),
        Some(crate::bytes::decimal_of(deeper as u64)),
    );
    assert(meanings(recipe_environment@) =~= changes_of(recipe_environment@));
    let (assumed_new, assumed_old): (Vec<Vec<u8>>, Vec<Vec<u8>>) = (Vec::new(), Vec::new());
    assert(texts(assumed_new@) =~= Seq::empty());
    assert(texts(assumed_old@) =~= Seq::empty());
    let context: CompilationContext = CompilationContext {
        root_directory: copied(&parent.root_directory),
        directory,
        path_prefix,
        reporting: parent.reporting,
        makeflags,
        always_make: parent.always_make,
        restarted: parent.restarted,
        assumed_new,
        assumed_old,
        level,
        jobs: parent.jobs,
        parallel_reads: parent.parallel_reads,
        environment,
        recipe_environment,
    };
    Ok(Compilation { flags, shuffle: invocation.shuffle, context, cache_key })
}

/// Whether a path is spelled from the top, with one separator between each two
/// names.
pub open spec fn spelled_from_the_top(path: Seq<u8>) -> bool {
    &&& path.len() > 0
    &&& path[0] == 0x2f
    &&& forall|i: int|
        0 <= i < path.len() - 1 && #[trigger] path[i] == 0x2f ==> path[i + 1] != 0x2f
}

/// Where a directory stands under a root leads from the root to the directory.
pub proof fn a_prefix_leads_back(root: Seq<u8>, directory: Seq<u8>)
    requires
        spelled_from_the_top(root),
        spelled_from_the_top(directory),
        directory != root,
    ensures
        joined_path(root, under(root, directory)) == directory,
{
    let above = if root.last() == 0x2f {
        root
    } else {
        root.push(0x2f)
    };
    if begins(directory, above) {
        let rest = directory.skip(above.len() as int);
        assert(directory =~= above + rest);
        assert(directory[above.len() - 1] == above.last());
        if rest.len() > 0 {
            assert(rest[0] == directory[above.len() as int]);
        }
    }
}

/// A child's own recursive recipes look for a directory from where the child is
/// read: a name that is not absolute under it, and an absolute one by itself.
pub proof fn a_nested_child_is_looked_for_in_the_child(
    parent: ContextModel,
    settings: Settings,
    directory: Seq<u8>,
    name: Seq<u8>,
)
    requires
        directory.len() > 0,
        directory.last() != 0x2f,
        name.len() > 0,
    ensures
        name[0] != 0x2f ==> joined_path(child_context(parent, settings, directory).directory, name)
            == directory + seq![0x2fu8] + name,
        name[0] == 0x2f ==> joined_path(child_context(parent, settings, directory).directory, name)
            == name,
{
    assert(directory.push(0x2f) =~= directory + seq![0x2fu8]);
}

/// Where a child is read, and what of it a root names, are one place.
pub proof fn a_child_stands_where_its_prefix_leads(
    parent: ContextModel,
    settings: Settings,
    directory: Seq<u8>,
)
    requires
        spelled_from_the_top(parent.root_directory),
        spelled_from_the_top(directory),
    ensures
        ({
            let child = child_context(parent, settings, directory);
            &&& child.directory == directory
            &&& child.root_directory == parent.root_directory
            &&& directory == parent.root_directory ==> child.path_prefix.len() == 0
            &&& directory != parent.root_directory ==> joined_path(
                child.root_directory,
                child.path_prefix,
            ) == child.directory
        }),
{
    if directory != parent.root_directory {
        a_prefix_leads_back(parent.root_directory, directory);
    }
}

/// A child's makefile reads its own depth and switches, its recipes hand the
/// next depth on, and everything else it inherits is its parent's, but for the
/// files the parent was asked to take for new or for old.
pub proof fn a_child_inherits_all_but_its_place(
    parent: ContextModel,
    settings: Settings,
    directory: Seq<u8>,
    other: Seq<u8>,
)
    requires
        other != text("MAKELEVEL"),
        other != text("MFLAGS"),
        other != text("MAKEFLAGS"),
        other != text("GNUMAKEFLAGS"),
        other != text("MAKE_RESTARTS"),
    ensures
        ({
            let child = child_context(parent, settings, directory);
            let told = published(settings, settings.job_limit());
            &&& looked_up(child.environment, text("MAKELEVEL")) == Some(
                crate::bytes::decimal(child.level as nat),
            )
            &&& looked_up(child.environment, text("MFLAGS")) == Some(told.mflags)
            &&& looked_up(child.environment, other) == looked_up(parent.environment, other)
            &&& child.makeflags == told.makeflags
            &&& child.recipe_environment.last() == (
                text("MAKELEVEL"),
                Some(crate::bytes::decimal(one_deeper(child.level) as nat)),
            )
            &&& child.jobs == parent.jobs
            &&& child.parallel_reads == parent.parallel_reads
            &&& child.reporting == parent.reporting
            &&& child.restarted == parent.restarted
            &&& child.always_make == parent.always_make
            &&& child.assumed_new.len() == 0
            &&& child.assumed_old.len() == 0
        }),
{
    let level = one_deeper(parent.level);
    let told = published(settings, settings.job_limit());
    a_makefile_is_told_of_its_invocation(parent.environment, told.mflags, level, 0, other);
}

/// A child reads one level deeper than its parent, in the same tree, and its own
/// children one deeper still.
pub proof fn each_child_is_one_deeper(
    parent: ContextModel,
    settings: Settings,
    directory: Seq<u8>,
    below: Settings,
    further: Seq<u8>,
)
    requires
        parent.level < usize::MAX - 1,
    ensures
        child_context(parent, settings, directory).level == parent.level + 1,
        child_context(child_context(parent, settings, directory), below, further).level
            == parent.level + 2,
        child_context(
            child_context(parent, settings, directory),
            below,
            further,
        ).root_directory == parent.root_directory,
{
}

/// The root unit's compilation, known by where it is read, over which makefiles
/// and under which switches.
pub fn root_compilation(
    flags: SessionFlags,
    shuffle: Shuffle,
    context: CompilationContext,
) -> (compilation: Compilation)
    ensures
        compilation.flags == flags,
        compilation.shuffle == shuffle,
        compilation.context == context,
        compilation.cache_key@ == key_of(
            context.directory@,
            texts(flags.makefiles@),
            context.makeflags@,
        ),
{
    let cache_key: Vec<u8> = compilation_key(
        &context.directory,
        &flags.makefiles,
        &context.makeflags,
    );
    Compilation { flags, shuffle, context, cache_key }
}

} // verus!
