//! What one compilation unit is read with: the flags its evaluator gets, the
//! environment it is told, and what a recursive child inherits of both.

use crate::bytes::{copied, copied_all, decimal, decimal_of, literal, maybe, same, text, texts};
use crate::codec::Coded;
use crate::command::{carried_switches, carried_table, JobCounts};
use crate::invocation::{look_up, looked_up, pairs, Invocation, Settings};
use crate::layout::{changes_of, EnvironmentChange};
use crate::makeflags::{
    compiler_flag_variables, propagated_makeflags, published, switch_table, table_of,
    CompilerFlagVariables,
};
use crate::options::{held_in, Switch};
use vstd::prelude::*;
use vstd::string::*;

verus! {

/// What the evaluator reading one unit is told about the invocation.
#[derive(Debug)]
pub struct SessionFlags {
    pub makefiles: Vec<Vec<u8>>,
    pub num_jobs: usize,
    pub num_cpus: usize,
    pub is_silent_mode: bool,
    pub is_dry_run: bool,
    pub no_builtin_rules: bool,
    /// Whether a recipe makes the directories its outputs stand in.
    pub recipes_own_output_directories: bool,
    pub no_builtin_variables: bool,
    pub warn_undefined_variables: bool,
    pub environment_overrides: bool,
    pub ignore_errors: bool,
    pub keep_going: bool,
    /// A parent's assignments and this invocation's own, in that order.
    pub cl_vars: Vec<Vec<u8>>,
    /// The switch table alone.
    pub makeflags: Vec<u8>,
    pub eval_flags: Vec<u8>,
    pub make_overrides: Vec<u8>,
    /// The table as a makefile's own write to `MAKEFLAGS` meets it.
    pub protected: Vec<u8>,
    /// The table as it stands.
    pub effective: Vec<u8>,
    pub has_overrides: bool,
    pub has_evals: bool,
    /// What `$(MAKE)` answers: one word, and that word is a path.
    pub subkati_args: Vec<Vec<u8>>,
    pub program_name: Vec<u8>,
    pub extra_features: Vec<Vec<u8>>,
    pub include_dirs: Vec<Vec<u8>>,
    pub old_files: Vec<Vec<u8>>,
    pub new_files: Vec<Vec<u8>>,
    pub targets: Vec<Vec<u8>>,
}

impl SessionFlags {
    /// Whether these are the flags an invocation describes.
    pub open spec fn describe(
        &self,
        settings: Settings,
        makefiles: Seq<Seq<u8>>,
        jobs: usize,
        invoked_as: Seq<u8>,
    ) -> bool {
        let told = published(settings, settings.job_limit());
        &&& texts(self.makefiles@) == makefiles
        &&& self.num_jobs == jobs
        &&& self.num_cpus == jobs
        &&& self.is_silent_mode == settings.given.contains(Switch::Silent)
        &&& self.is_dry_run == settings.given.contains(Switch::DryRun)
        &&& self.no_builtin_rules == settings.given.contains(Switch::NoBuiltinRules)
        &&& self.recipes_own_output_directories
        &&& self.no_builtin_variables == settings.given.contains(Switch::NoBuiltinVariables)
        &&& self.warn_undefined_variables == settings.given.contains(
            Switch::WarnUndefinedVariables,
        )
        &&& self.environment_overrides == settings.given.contains(Switch::EnvironmentOverrides)
        &&& self.ignore_errors == settings.given.contains(Switch::IgnoreErrors)
        &&& self.keep_going == settings.given.contains(Switch::KeepGoing)
        &&& texts(self.cl_vars@) == settings.variables
        &&& self.makeflags@ == told.base
        &&& self.eval_flags@ == told.eval_flags
        &&& self.make_overrides@ == told.overrides
        &&& self.protected@ == carried_table(table_of(settings, settings.jobs), settings)
        &&& self.effective@ == carried_table(told.base, settings)
        &&& self.has_overrides == (told.overrides.len() > 0)
        &&& self.has_evals == (told.eval_flags.len() > 0)
        &&& texts(self.subkati_args@) == seq![invoked_as]
        &&& self.program_name@ == text("ronin")
        &&& texts(self.extra_features@) == seq![
            text("archives"),
            text("jobserver"),
            text("jobserver-fifo"),
            text("output-sync"),
        ]
        &&& texts(self.include_dirs@) == settings.include_dirs
        &&& texts(self.old_files@) == settings.assumed_old
        &&& texts(self.new_files@) == settings.assumed_new
        &&& texts(self.targets@) == settings.goals
    }
}

/// The flags one Make invocation describes, read over some makefiles.
pub fn session_for(
    invocation: &Invocation,
    makefiles: &[Vec<u8>],
    jobs: usize,
    invoked_as: &[u8],
) -> (flags: SessionFlags)
    ensures
        flags.describe(invocation.model(), texts(makefiles@), jobs, invoked_as@),
        texts(flags.makefiles@) == texts(makefiles@),
        flags.num_jobs == jobs,
        flags.num_cpus == jobs,
        flags.is_silent_mode == held_in(invocation.switches).contains(Switch::Silent),
        flags.is_dry_run == held_in(invocation.switches).contains(Switch::DryRun),
        flags.no_builtin_rules == held_in(invocation.switches).contains(Switch::NoBuiltinRules),
        flags.no_builtin_variables == held_in(invocation.switches).contains(
            Switch::NoBuiltinVariables,
        ),
        flags.warn_undefined_variables == held_in(invocation.switches).contains(
            Switch::WarnUndefinedVariables,
        ),
        flags.environment_overrides == held_in(invocation.switches).contains(
            Switch::EnvironmentOverrides,
        ),
        flags.ignore_errors == held_in(invocation.switches).contains(Switch::IgnoreErrors),
        flags.keep_going == held_in(invocation.switches).contains(Switch::KeepGoing),
        flags.recipes_own_output_directories,
        texts(flags.cl_vars@) == texts(invocation.variables@),
        texts(flags.include_dirs@) == texts(invocation.include_dirs@),
        texts(flags.old_files@) == texts(invocation.assumed_old@),
        texts(flags.new_files@) == texts(invocation.assumed_new@),
        texts(flags.targets@) == texts(invocation.goals@),
        flags.subkati_args@.len() == 1 && flags.subkati_args@[0]@ == invoked_as@,
        flags.has_overrides <==> flags.make_overrides@.len() > 0,
        flags.has_evals <==> flags.eval_flags@.len() > 0,
        invocation.jobserver_style is None ==> flags.effective@ == flags.makeflags@,
{
    let told: CompilerFlagVariables = compiler_flag_variables(invocation);
    let effective: Vec<u8> = carried_switches(&told.base, invocation);
    let protected: Vec<u8> = carried_switches(
        &switch_table(invocation, invocation.jobs),
        invocation,
    );
    let has_overrides: bool = told.overrides.len() > 0;
    let has_evals: bool = told.eval_flags.len() > 0;
    let mut subkati_args: Vec<Vec<u8>> = Vec::new();
    subkati_args.push(copied(invoked_as));
    assert(texts(subkati_args@) =~= seq![invoked_as@]);
    let mut extra_features: Vec<Vec<u8>> = Vec::new();
    extra_features.push(literal("archives"));
    extra_features.push(literal("jobserver"));
    extra_features.push(literal("jobserver-fifo"));
    extra_features.push(literal("output-sync"));
    assert(texts(extra_features@) =~= seq![
        text("archives"),
        text("jobserver"),
        text("jobserver-fifo"),
        text("output-sync"),
    ]);
    SessionFlags {
        makefiles: copied_all(makefiles),
        num_jobs: jobs,
        num_cpus: jobs,
        is_silent_mode: invocation.given(Switch::Silent),
        is_dry_run: invocation.given(Switch::DryRun),
        no_builtin_rules: invocation.given(Switch::NoBuiltinRules),
        recipes_own_output_directories: true,
        no_builtin_variables: invocation.given(Switch::NoBuiltinVariables),
        warn_undefined_variables: invocation.given(Switch::WarnUndefinedVariables),
        environment_overrides: invocation.given(Switch::EnvironmentOverrides),
        ignore_errors: invocation.given(Switch::IgnoreErrors),
        keep_going: invocation.given(Switch::KeepGoing),
        cl_vars: copied_all(&invocation.variables),
        makeflags: told.base,
        eval_flags: told.eval_flags,
        make_overrides: told.overrides,
        protected,
        effective,
        has_overrides,
        has_evals,
        subkati_args,
        program_name: literal("ronin"),
        extra_features,
        include_dirs: copied_all(&invocation.include_dirs),
        old_files: copied_all(&invocation.assumed_old),
        new_files: copied_all(&invocation.assumed_new),
        targets: copied_all(&invocation.goals),
    }
}

/// A list of names and values.
pub type Environment = Vec<(Vec<u8>, Vec<u8>)>;

/// An environment without a name.
pub open spec fn unset(environment: Seq<(Seq<u8>, Seq<u8>)>, name: Seq<u8>) -> Seq<
    (Seq<u8>, Seq<u8>),
>
    decreases environment.len(),
{
    if environment.len() == 0 {
        Seq::empty()
    } else if environment.last().0 == name {
        unset(environment.drop_last(), name)
    } else {
        unset(environment.drop_last(), name).push(environment.last())
    }
}

/// Whether an environment holds a name.
pub open spec fn is_set(environment: Seq<(Seq<u8>, Seq<u8>)>, name: Seq<u8>) -> bool {
    exists|i: int| 0 <= i < environment.len() && (#[trigger] environment[i]).0 == name
}

/// The environment without a name.
fn without_name(environment: &[(Vec<u8>, Vec<u8>)], name: &[u8]) -> (left: Environment)
    ensures
        pairs(left@) == unset(pairs(environment@), name@),
{
    let ghost all = pairs(environment@);
    let mut left: Environment = Vec::new();
    let mut at: usize = 0;
    assert(all.take(0) =~= Seq::empty());
    assert(pairs(left@) =~= Seq::empty());
    while at < environment.len()
        invariant
            at <= environment@.len(),
            all == pairs(environment@),
            pairs(left@) == unset(all.take(at as int), name@),
        decreases environment@.len() - at,
    {
        let ghost next = all.take(at as int + 1);
        assert(next.drop_last() =~= all.take(at as int));
        assert(next.last() == all[at as int]);
        let ghost before = pairs(left@);
        if !same(&environment[at].0, name) {
            left.push((copied(&environment[at].0), copied(&environment[at].1)));
            assert(pairs(left@) =~= before.push(all[at as int]));
        }
        at += 1;
    }
    assert(all.take(at as int) =~= all);
    left
}

/// The environment with one name holding a value, in place of whatever it held.
pub open spec fn recorded(
    environment: Seq<(Seq<u8>, Seq<u8>)>,
    name: Seq<u8>,
    value: Seq<u8>,
) -> Seq<(Seq<u8>, Seq<u8>)> {
    unset(environment, name).push((name, value))
}

/// Tell a makefile one thing about the invocation it is read by.
pub fn record_invocation(environment: &[(Vec<u8>, Vec<u8>)], name: &[u8], value: Vec<u8>) -> (told:
    Environment)
    ensures
        pairs(told@) == recorded(pairs(environment@), name@, value@),
{
    let mut told: Environment = without_name(environment, name);
    let ghost before = pairs(told@);
    told.push((copied(name), value));
    assert(pairs(told@) =~= before.push((name@, value@)));
    told
}

/// Whether an environment holds a name.
fn holds_name(environment: &[(Vec<u8>, Vec<u8>)], name: &[u8]) -> (answer: bool)
    ensures
        answer == is_set(pairs(environment@), name@),
{
    let ghost all = pairs(environment@);
    let mut at: usize = 0;
    while at < environment.len()
        invariant
            at <= environment@.len(),
            all == pairs(environment@),
            forall|i: int| 0 <= i < at ==> (#[trigger] all[i]).0 != name@,
        decreases environment@.len() - at,
    {
        assert(all[at as int].0 == environment@[at as int].0@);
        if same(&environment[at].0, name) {
            return true;
        }
        at += 1;
    }
    false
}

/// What a makefile is told about the invocation reading it: how deep it sits,
/// how often it was read before, no `MAKEFLAGS`, an emptied `GNUMAKEFLAGS` where
/// there was one, and the switches in their command-line spelling.
pub open spec fn told_of(
    environment: Seq<(Seq<u8>, Seq<u8>)>,
    mflags: Seq<u8>,
    level: usize,
    restarts: usize,
) -> Seq<(Seq<u8>, Seq<u8>)> {
    let leveled = recorded(environment, text("MAKELEVEL"), decimal(level as nat));
    let counted = if restarts > 0 {
        recorded(leveled, text("MAKE_RESTARTS"), decimal(restarts as nat))
    } else {
        leveled
    };
    let bare = unset(counted, text("MAKEFLAGS"));
    let emptied = if is_set(bare, text("GNUMAKEFLAGS")) {
        recorded(bare, text("GNUMAKEFLAGS"), Seq::empty())
    } else {
        bare
    };
    recorded(emptied, text("MFLAGS"), mflags)
}

/// Tell a makefile about the invocation reading it.
pub fn record_invocation_variables(
    environment: &[(Vec<u8>, Vec<u8>)],
    invocation: &Invocation,
    level: usize,
    restarts: usize,
) -> (told: Environment)
    ensures
        pairs(told@) == told_of(
            pairs(environment@),
            published(invocation.model(), invocation.model().job_limit()).mflags,
            level,
            restarts,
        ),
{
    let mut told: Environment = record_invocation(
        environment,
        "MAKELEVEL".as_bytes(),
        decimal_of(level as u64),
    );
    if restarts > 0 {
        told = record_invocation(&told, "MAKE_RESTARTS".as_bytes(), decimal_of(restarts as u64));
    }
    told = without_name(&told, "MAKEFLAGS".as_bytes());
    if holds_name(&told, "GNUMAKEFLAGS".as_bytes()) {
        let nothing: Vec<u8> = Vec::new();
        assert(nothing@ =~= Seq::empty());
        told = record_invocation(&told, "GNUMAKEFLAGS".as_bytes(), nothing);
    }
    let flags: CompilerFlagVariables = compiler_flag_variables(invocation);
    record_invocation(&told, "MFLAGS".as_bytes(), flags.mflags)
}

/// The environment a recursive child of this unit is compiled with: everything
/// but how many times this unit was read.
///
/// A child's compilation is identified by the environment it inherits, so a
/// count that rises with every restart would give the same child a new identity
/// each time.
pub fn descendant_environment(environment: &[(Vec<u8>, Vec<u8>)]) -> (inherited: Environment)
    ensures
        pairs(inherited@) == unset(pairs(environment@), text("MAKE_RESTARTS")),
{
    without_name(environment, "MAKE_RESTARTS".as_bytes())
}

/// Everything a recursive recipe inherits from the unit it stands in.
#[derive(Debug)]
pub struct CompilationContext {
    pub root_directory: Vec<u8>,
    pub directory: Vec<u8>,
    pub path_prefix: Vec<u8>,
    /// Whether the compilation is a report rather than a build.
    pub reporting: bool,
    pub makeflags: Vec<u8>,
    pub always_make: bool,
    pub restarted: bool,
    pub assumed_new: Vec<Vec<u8>>,
    pub assumed_old: Vec<Vec<u8>>,
    pub level: usize,
    pub jobs: usize,
    pub parallel_reads: usize,
    pub environment: Environment,
    pub recipe_environment: Vec<EnvironmentChange>,
}

/// Everything a recursive recipe inherits, as its model.
pub ghost struct ContextModel {
    pub root_directory: Seq<u8>,
    pub directory: Seq<u8>,
    pub path_prefix: Seq<u8>,
    pub reporting: bool,
    pub makeflags: Seq<u8>,
    pub always_make: bool,
    pub restarted: bool,
    pub assumed_new: Seq<Seq<u8>>,
    pub assumed_old: Seq<Seq<u8>>,
    pub level: usize,
    pub jobs: usize,
    pub parallel_reads: usize,
    pub environment: Seq<(Seq<u8>, Seq<u8>)>,
    pub recipe_environment: Seq<(Seq<u8>, Option<Seq<u8>>)>,
}

impl CompilationContext {
    /// The context as its model.
    pub open spec fn model(&self) -> ContextModel {
        ContextModel {
            root_directory: self.root_directory@,
            directory: self.directory@,
            path_prefix: self.path_prefix@,
            reporting: self.reporting,
            makeflags: self.makeflags@,
            always_make: self.always_make,
            restarted: self.restarted,
            assumed_new: texts(self.assumed_new@),
            assumed_old: texts(self.assumed_old@),
            level: self.level,
            jobs: self.jobs,
            parallel_reads: self.parallel_reads,
            environment: pairs(self.environment@),
            recipe_environment: changes_of(self.recipe_environment@),
        }
    }
}

/// One more, where there is one more.
pub open spec fn one_deeper(level: usize) -> usize {
    if level < usize::MAX {
        (level + 1) as usize
    } else {
        level
    }
}

/// What the recipes of a unit change about the environment they run in: the
/// depth of a child, and the `GNUMAKEFLAGS` this unit was recorded with.
pub open spec fn unit_changes(environment: Seq<(Seq<u8>, Seq<u8>)>, level: usize) -> Seq<
    (Seq<u8>, Option<Seq<u8>>),
> {
    seq![(text("MAKELEVEL"), Some(decimal(one_deeper(level) as nat)))] + (match looked_up(
        environment,
        text("GNUMAKEFLAGS"),
    ) {
        Some(value) => seq![(text("GNUMAKEFLAGS"), Some(value))],
        None => Seq::empty(),
    })
}

/// What recursive recipes inherit from the root unit, as its model.
pub open spec fn root_context(
    settings: Settings,
    directory: Seq<u8>,
    jobs: JobCounts,
    level: usize,
    environment: Seq<(Seq<u8>, Seq<u8>)>,
    reporting: bool,
    restarts: usize,
) -> ContextModel {
    ContextModel {
        root_directory: directory,
        directory,
        path_prefix: Seq::empty(),
        reporting,
        makeflags: published(settings, settings.job_limit()).makeflags,
        always_make: settings.given.contains(Switch::AlwaysMake),
        restarted: restarts > 0,
        assumed_new: settings.assumed_new,
        assumed_old: settings.assumed_old,
        level,
        jobs: jobs.carried,
        parallel_reads: jobs.parallel_reads,
        environment: unset(environment, text("MAKE_RESTARTS")),
        recipe_environment: unit_changes(environment, level),
    }
}

/// The context a recursive recipe inherits from the root unit, `environment`
/// being what the unit was told.
pub fn compilation_context(
    invocation: &Invocation,
    directory: Vec<u8>,
    jobs: JobCounts,
    level: usize,
    environment: &[(Vec<u8>, Vec<u8>)],
    reporting: bool,
    restarts: usize,
) -> (context: CompilationContext)
    ensures
        context.model() == root_context(
            invocation.model(),
            directory@,
            jobs,
            level,
            pairs(environment@),
            reporting,
            restarts,
        ),
        context.directory@ == directory@,
        context.root_directory@ == directory@,
        context.path_prefix@.len() == 0,
        context.reporting == reporting,
        context.level == level,
        context.jobs == jobs.carried,
        context.parallel_reads == jobs.parallel_reads,
        context.restarted <==> restarts > 0,
        context.always_make == held_in(invocation.switches).contains(Switch::AlwaysMake),
        texts(context.assumed_new@) == texts(invocation.assumed_new@),
        texts(context.assumed_old@) == texts(invocation.assumed_old@),
        context.recipe_environment@.len() >= 1 && context.recipe_environment@[0].0@ == text(
            "MAKELEVEL",
        ) && maybe(context.recipe_environment@[0].1) == Some(
            decimal((if level < usize::MAX {
                level + 1
            } else {
                level as int
            }) as nat),
        ),
        !is_set(pairs(context.environment@), text("MAKE_RESTARTS")),
        forall|other: Seq<u8>|
            other != text("MAKE_RESTARTS") ==> #[trigger] looked_up(
                pairs(context.environment@),
                other,
            ) == looked_up(pairs(environment@), other),
{
    let deeper: usize = if level < usize::MAX {
        level + 1
    } else {
        level
    };
    let mut recipe_environment: Vec<EnvironmentChange> = Vec::new();
    recipe_environment.push((literal("MAKELEVEL"), Some(decimal_of(deeper as u64))));
    assert(changes_of(recipe_environment@) =~= seq![
        (text("MAKELEVEL"), Some(decimal(one_deeper(level) as nat))),
    ]);
    let ghost first = changes_of(recipe_environment@);
    if let Some(value) = look_up(environment, "GNUMAKEFLAGS".as_bytes()) {
        recipe_environment.push((literal("GNUMAKEFLAGS"), Some(value)));
        assert(changes_of(recipe_environment@) =~= first + seq![
            (text("GNUMAKEFLAGS"), Some(value@)),
        ]);
    }
    assert(changes_of(recipe_environment@) =~= unit_changes(pairs(environment@), level));
    let path_prefix: Vec<u8> = Vec::new();
    assert(path_prefix@ =~= Seq::empty());
    proof {
        let all = pairs(environment@);
        unset_is_unset(all, text("MAKE_RESTARTS"));
        assert forall|other: Seq<u8>| other != text("MAKE_RESTARTS") implies #[trigger] looked_up(
            unset(all, text("MAKE_RESTARTS")),
            other,
        ) == looked_up(all, other) by {
            others_stay(all, text("MAKE_RESTARTS"), other);
        }
        assert(changes_of(recipe_environment@)[0] == (
            text("MAKELEVEL"),
            Some(decimal(one_deeper(level) as nat)),
        ));
    }
    CompilationContext {
        root_directory: copied(&directory),
        directory,
        path_prefix,
        reporting,
        makeflags: propagated_makeflags(invocation),
        always_make: invocation.given(Switch::AlwaysMake),
        restarted: restarts > 0,
        assumed_new: copied_all(&invocation.assumed_new),
        assumed_old: copied_all(&invocation.assumed_old),
        level,
        jobs: jobs.carried,
        parallel_reads: jobs.parallel_reads,
        environment: descendant_environment(environment),
        recipe_environment,
    }
}

proof fn unset_is_unset(environment: Seq<(Seq<u8>, Seq<u8>)>, name: Seq<u8>)
    ensures
        !is_set(unset(environment, name), name),
        forall|i: int|
            0 <= i < unset(environment, name).len() ==> environment.contains(
                #[trigger] unset(environment, name)[i],
            ),
    decreases environment.len(),
{
    if environment.len() > 0 {
        let before = environment.drop_last();
        unset_is_unset(before, name);
        let left = unset(environment, name);
        assert forall|i: int| 0 <= i < left.len() implies environment.contains(
            #[trigger] left[i],
        ) && left[i].0 != name by {
            if i < unset(before, name).len() {
                assert(left[i] == unset(before, name)[i]);
                let j = choose|j: int| 0 <= j < before.len() && before[j] == left[i];
                assert(environment[j] == left[i]);
            } else {
                assert(environment[environment.len() - 1] == left[i]);
            }
        }
    }
}

proof fn recording_sets(environment: Seq<(Seq<u8>, Seq<u8>)>, name: Seq<u8>, value: Seq<u8>)
    ensures
        looked_up(recorded(environment, name, value), name) == Some(value),
{
    unset_is_unset(environment, name);
    passed_over(unset(environment, name), name, value);
}

proof fn passed_over(environment: Seq<(Seq<u8>, Seq<u8>)>, name: Seq<u8>, value: Seq<u8>)
    requires
        !is_set(environment, name),
    ensures
        looked_up(environment.push((name, value)), name) == Some(value),
    decreases environment.len(),
{
    let all = environment.push((name, value));
    if environment.len() > 0 {
        assert(environment[0].0 != name);
        assert(all.drop_first() =~= environment.drop_first().push((name, value)));
        assert(!is_set(environment.drop_first(), name)) by {
            if is_set(environment.drop_first(), name) {
                let i = choose|i: int|
                    0 <= i < environment.drop_first().len() && (
                    #[trigger] environment.drop_first()[i]).0 == name;
                assert(environment[i + 1].0 == name);
            }
        }
        passed_over(environment.drop_first(), name, value);
    }
}

/// What a makefile was told last is what it reads.
pub proof fn what_is_recorded_is_read(
    environment: Seq<(Seq<u8>, Seq<u8>)>,
    name: Seq<u8>,
    value: Seq<u8>,
)
    ensures
        looked_up(recorded(environment, name, value), name) == Some(value),
{
    recording_sets(environment, name, value);
}

proof fn one_pair_further(
    environment: Seq<(Seq<u8>, Seq<u8>)>,
    pair: (Seq<u8>, Seq<u8>),
    name: Seq<u8>,
)
    ensures
        looked_up(environment.push(pair), name) == (match looked_up(environment, name) {
            Some(value) => Some(value),
            None => if pair.0 == name {
                Some(pair.1)
            } else {
                None
            },
        }),
    decreases environment.len(),
{
    let all = environment.push(pair);
    if environment.len() > 0 {
        assert(all.drop_first() =~= environment.drop_first().push(pair));
        one_pair_further(environment.drop_first(), pair, name);
    } else {
        assert(all.drop_first() =~= Seq::empty());
        assert(looked_up(all.drop_first(), name) is None);
    }
}

/// What stands under another name is nothing to taking one away.
proof fn others_stay(environment: Seq<(Seq<u8>, Seq<u8>)>, name: Seq<u8>, other: Seq<u8>)
    requires
        name != other,
    ensures
        looked_up(unset(environment, name), other) == looked_up(environment, other),
        is_set(unset(environment, name), other) == is_set(environment, other),
    decreases environment.len(),
{
    if environment.len() > 0 {
        let before = environment.drop_last();
        let last = environment.last();
        let left = unset(before, name);
        others_stay(before, name, other);
        assert(environment =~= before.push(last));
        one_pair_further(before, last, other);
        one_pair_further(left, last, other);
        pushed_is_set(before, last, other);
        pushed_is_set(left, last, other);
    }
}

proof fn pushed_is_set(
    environment: Seq<(Seq<u8>, Seq<u8>)>,
    pair: (Seq<u8>, Seq<u8>),
    name: Seq<u8>,
)
    ensures
        is_set(environment.push(pair), name) == (is_set(environment, name) || pair.0 == name),
{
    let all = environment.push(pair);
    if is_set(environment, name) {
        let i = choose|i: int| 0 <= i < environment.len() && (#[trigger] environment[i]).0 == name;
        assert(all[i].0 == name);
    }
    if pair.0 == name {
        assert(all[environment.len() as int].0 == name);
    }
    if is_set(all, name) {
        let i = choose|i: int| 0 <= i < all.len() && (#[trigger] all[i]).0 == name;
        if i < environment.len() {
            assert(environment[i].0 == name);
        }
    }
}

/// What is recorded under a name changes nothing under any other.
pub proof fn recording_leaves_the_rest(
    environment: Seq<(Seq<u8>, Seq<u8>)>,
    name: Seq<u8>,
    value: Seq<u8>,
    other: Seq<u8>,
)
    requires
        name != other,
    ensures
        looked_up(recorded(environment, name, value), other) == looked_up(environment, other),
        is_set(recorded(environment, name, value), other) == is_set(environment, other),
{
    others_stay(environment, name, other);
    one_pair_further(unset(environment, name), (name, value), other);
    pushed_is_set(unset(environment, name), (name, value), other);
}

proof fn told_names_differ()
    ensures
        text("MAKELEVEL").len() == 9,
        text("MAKEFLAGS").len() == 9,
        text("MAKELEVEL") != text("MAKEFLAGS"),
        text("MAKE_RESTARTS").len() == 13,
        text("GNUMAKEFLAGS").len() == 12,
        text("MFLAGS").len() == 6,
{
    reveal_strlit("MAKELEVEL");
    is_ascii_spec_bytes("MAKELEVEL");
    reveal_strlit("MAKEFLAGS");
    is_ascii_spec_bytes("MAKEFLAGS");
    reveal_strlit("MAKE_RESTARTS");
    is_ascii_spec_bytes("MAKE_RESTARTS");
    reveal_strlit("GNUMAKEFLAGS");
    is_ascii_spec_bytes("GNUMAKEFLAGS");
    reveal_strlit("MFLAGS");
    is_ascii_spec_bytes("MFLAGS");
    assert(text("MAKELEVEL")[4] != text("MAKEFLAGS")[4]);
}

/// A makefile reads how deep it sits, how often it was read before where it was,
/// and the switches in their command-line spelling. It reads no `MAKEFLAGS`, and
/// nothing of a `GNUMAKEFLAGS` it was handed. Every other name reads as it did.
pub proof fn a_makefile_is_told_of_its_invocation(
    environment: Seq<(Seq<u8>, Seq<u8>)>,
    mflags: Seq<u8>,
    level: usize,
    restarts: usize,
    other: Seq<u8>,
)
    ensures
        ({
            let told = told_of(environment, mflags, level, restarts);
            &&& looked_up(told, text("MAKELEVEL")) == Some(decimal(level as nat))
            &&& looked_up(told, text("MFLAGS")) == Some(mflags)
            &&& !is_set(told, text("MAKEFLAGS"))
            &&& restarts > 0 ==> looked_up(told, text("MAKE_RESTARTS")) == Some(
                decimal(restarts as nat),
            )
            &&& restarts == 0 ==> looked_up(told, text("MAKE_RESTARTS")) == looked_up(
                environment,
                text("MAKE_RESTARTS"),
            )
            &&& is_set(environment, text("GNUMAKEFLAGS")) ==> looked_up(told, text("GNUMAKEFLAGS"))
                == Some(Seq::<u8>::empty())
            &&& !is_set(environment, text("GNUMAKEFLAGS")) ==> !is_set(told, text("GNUMAKEFLAGS"))
            &&& other != text("MAKELEVEL") && other != text("MFLAGS") && other != text("MAKEFLAGS")
                && other != text("MAKE_RESTARTS") && other != text("GNUMAKEFLAGS") ==> looked_up(
                told,
                other,
            ) == looked_up(environment, other)
        }),
{
    told_names_differ();
    let (deep, flags, long, often, gnu) = (
        text("MAKELEVEL"),
        text("MFLAGS"),
        text("MAKEFLAGS"),
        text("MAKE_RESTARTS"),
        text("GNUMAKEFLAGS"),
    );
    assert(deep != often && deep != gnu && deep != flags && long != often && long != gnu && long
        != flags && often != gnu && often != flags && gnu != flags);
    let leveled = recorded(environment, deep, decimal(level as nat));
    let counted = if restarts > 0 {
        recorded(leveled, often, decimal(restarts as nat))
    } else {
        leveled
    };
    let bare = unset(counted, long);
    let emptied = if is_set(bare, gnu) {
        recorded(bare, gnu, Seq::empty())
    } else {
        bare
    };
    recording_sets(environment, deep, decimal(level as nat));
    recording_leaves_the_rest(environment, deep, decimal(level as nat), often);
    recording_leaves_the_rest(environment, deep, decimal(level as nat), gnu);
    if restarts > 0 {
        recording_sets(leveled, often, decimal(restarts as nat));
        recording_leaves_the_rest(leveled, often, decimal(restarts as nat), deep);
        recording_leaves_the_rest(leveled, often, decimal(restarts as nat), gnu);
    }
    unset_is_unset(counted, long);
    others_stay(counted, long, deep);
    others_stay(counted, long, often);
    others_stay(counted, long, gnu);
    if is_set(bare, gnu) {
        recording_sets(bare, gnu, Seq::empty());
        recording_leaves_the_rest(bare, gnu, Seq::empty(), deep);
        recording_leaves_the_rest(bare, gnu, Seq::empty(), often);
        recording_leaves_the_rest(bare, gnu, Seq::empty(), long);
    }
    recording_sets(emptied, flags, mflags);
    recording_leaves_the_rest(emptied, flags, mflags, deep);
    recording_leaves_the_rest(emptied, flags, mflags, often);
    recording_leaves_the_rest(emptied, flags, mflags, long);
    recording_leaves_the_rest(emptied, flags, mflags, gnu);
    if other != deep && other != flags && other != long && other != often && other != gnu {
        recording_leaves_the_rest(environment, deep, decimal(level as nat), other);
        recording_leaves_the_rest(leveled, often, decimal(restarts as nat), other);
        others_stay(counted, long, other);
        recording_leaves_the_rest(bare, gnu, Seq::empty(), other);
        recording_leaves_the_rest(emptied, flags, mflags, other);
    }
}

/// A recursive child never sees how many times its parent was read.
pub proof fn a_child_never_sees_a_restart(environment: Seq<(Seq<u8>, Seq<u8>)>)
    ensures
        !is_set(unset(environment, text("MAKE_RESTARTS")), text("MAKE_RESTARTS")),
{
    unset_is_unset(environment, text("MAKE_RESTARTS"));
}

/// What one read of the root unit goes through: the flags its evaluator gets,
/// the environment it is told, and what its recursive recipes inherit.
#[derive(Debug)]
pub struct PassSession {
    pub flags: SessionFlags,
    pub environment: Environment,
    pub context: CompilationContext,
}

/// What one read of the root unit goes through.
///
/// Fresh for every read, because a read is of the whole compilation and nothing
/// an evaluator gathered belongs to the next one.
pub fn pass_session(
    invocation: &Invocation,
    makefiles: &[Vec<u8>],
    jobs: JobCounts,
    invoked_as: &[u8],
    directory: &[u8],
    environment: &[(Vec<u8>, Vec<u8>)],
    level: usize,
    restarts: usize,
    reporting: bool,
) -> (pass: PassSession)
    ensures
        pass.flags.describe(invocation.model(), texts(makefiles@), jobs.carried, invoked_as@),
        pairs(pass.environment@) == told_of(
            pairs(environment@),
            published(invocation.model(), invocation.model().job_limit()).mflags,
            level,
            restarts,
        ),
        pass.context.model() == root_context(
            invocation.model(),
            directory@,
            jobs,
            level,
            pairs(pass.environment@),
            reporting,
            restarts,
        ),
{
    let flags: SessionFlags = session_for(invocation, makefiles, jobs.carried, invoked_as);
    let told: Environment = record_invocation_variables(environment, invocation, level, restarts);
    let context: CompilationContext = compilation_context(
        invocation,
        copied(directory),
        jobs,
        level,
        &told,
        reporting,
        restarts,
    );
    PassSession { flags, environment: told, context }
}

} // verus!
