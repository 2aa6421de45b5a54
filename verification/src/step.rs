//! The bookkeeping and decisions of the step solver: its settings, its
//! requests and counters, and how it answers a failed step.

use vstd::prelude::*;
use crate::component::{Component, spec_default_for_run};
use crate::config::SolverConfig;
use crate::frequency::{
    ErrorDetails, ErrorFreq, ErrorTable, blocked_recordable, bump, count_view, counts_below,
    error_counts_below, error_view, lemma_bump_below, record_blocked, record_error, record_error_in,
    record_message, recordable, bump_count, keys_unique, lemma_bump_keeps_keys_unique,
    lemma_record_error_keeps_keys_unique,
};
use crate::history::{SolverHistory, takes_oldest};
use crate::notes::{Note, SkipPackageNote, note_summary, summarize_notes};
use crate::text::{join, join_strings, push_text, texts};

verus! {

/// Structure to hold whether the three kinds of impossible checks are
/// enabled or disabled in a solver.
#[derive(Clone, Copy, Debug)]
pub struct ImpossibleChecksSettings {
    pub check_initial_requests: bool,
    pub check_before_resolving: bool,
    pub use_in_build_keys: bool,
}

impl ImpossibleChecksSettings {
    /// The settings from the spk configuration, or all disabled when no
    /// configuration could be loaded.
    pub fn from_config(config: Option<&SolverConfig>) -> (r: Self)
        ensures
            config matches Some(c) ==> r.check_before_resolving == c.check_impossible_validation
                && r.check_initial_requests == c.check_impossible_initial
                && r.use_in_build_keys == c.check_impossible_builds,
            config is None ==> !r.check_before_resolving && !r.check_initial_requests
                && !r.use_in_build_keys,
    {
        match config {
            Some(c) => ImpossibleChecksSettings {
                check_before_resolving: c.check_impossible_validation,
                check_initial_requests: c.check_impossible_initial,
                use_in_build_keys: c.check_impossible_builds,
            },
            None => ImpossibleChecksSettings {
                check_before_resolving: false,
                check_initial_requests: false,
                use_in_build_keys: false,
            },
        }
    }
}

/// A validator of candidate packages in a solve: the binary-only validator,
/// or another one by name.
#[derive(Debug)]
pub enum SolverValidator {
    BinaryOnly,
    Named(String),
}

impl Clone for SolverValidator {
    fn clone(&self) -> (r: Self)
        ensures
            r == *self,
    {
        match self {
            SolverValidator::BinaryOnly => SolverValidator::BinaryOnly,
            SolverValidator::Named(name) => SolverValidator::Named(name.clone()),
        }
    }
}

/// A package request as the solver records it: its text, whether it asks
/// for a source build, and the components it asks for.
#[derive(Clone, Debug)]
pub struct PkgRequestSummary {
    pub text: String,
    pub is_source: bool,
    pub components: Vec<Component>,
}

/// A request added to a solver.
#[derive(Clone, Debug)]
pub enum Request {
    Pkg(PkgRequestSummary),
    Var { var: String, value: String },
}

/// A change that builds the initial state of a solve.
#[derive(Clone, Debug)]
pub enum InitialChange {
    RequestPackage(PkgRequestSummary),
    RequestVar { var: String, value: String },
    SetOptions(Vec<(String, String)>),
}

/// Who asked for a request: the command line, the build of a package (by
/// its package name), or something else; `text` is how it is shown.
#[derive(Clone, Debug)]
pub enum RequesterKind {
    CommandLine,
    PackageBuild(String),
    Other,
}

/// A requester of a request, with its display text.
#[derive(Clone, Debug)]
pub struct Requester {
    pub kind: RequesterKind,
    pub text: String,
}

/// Why a step of the solve failed.
#[derive(Clone, Debug)]
pub enum StepFailure {
    /// No build satisfies the request; the notes say why each was skipped.
    OutOfOptions { request: String, requesters: Vec<Requester>, notes: Vec<Note> },
    /// The requested package does not exist in any repository.
    PackageNotFound { request: String, requesters: Vec<Requester> },
    /// The decision could not be added to the solve graph, with the error.
    BranchFailed(String),
    /// Any other error, by its message.
    Other(String),
}

/// How the solver answers a failed step.
#[derive(Clone, Debug)]
pub enum StepResponse {
    /// Step back to the fork `destination` (`None`: the dead state, which
    /// ends the solve) with `cause` as the reason. `summary`, when present,
    /// is the one note that stands for all the failure's notes.
    StepBack { cause: String, destination: Option<u64>, summary: Option<String> },
    /// Pass the failure on as an error of the solve.
    Fail,
}

/// The step solver's settings, requests and counters.
#[derive(Clone, Debug)]
pub struct Solver {
    repositories: Vec<String>,
    initial_state_builders: Vec<InitialChange>,
    default_validators: Vec<SolverValidator>,
    validators: Vec<SolverValidator>,
    impossible_checks: ImpossibleChecksSettings,
    number_of_steps: usize,
    number_builds_skipped: usize,
    number_incompat_versions: usize,
    number_incompat_builds: usize,
    number_total_builds: usize,
    number_of_steps_back: u64,
    error_frequency: Vec<(String, ErrorFreq)>,
    problem_packages: Vec<(String, u64)>,
}

/// What a step solver holds, as plain values.
pub struct SolverView {
    /// The repositories, by name, in the order they were added.
    pub repositories: Seq<Seq<char>>,
    /// The changes that build the initial state, in order.
    pub initial_changes: Seq<InitialChange>,
    /// The validators that a reset restores.
    pub default_validators: Seq<SolverValidator>,
    /// The validators in use, in order.
    pub validators: Seq<SolverValidator>,
    pub impossible_checks: ImpossibleChecksSettings,
    pub number_of_steps: usize,
    pub number_builds_skipped: usize,
    pub number_incompat_versions: usize,
    pub number_incompat_builds: usize,
    pub number_total_builds: usize,
    pub number_of_steps_back: u64,
    /// The errors met, by key text, in the order first met.
    pub errors: ErrorTable,
    /// The packages that blocked requests, by name, with their counts.
    pub problem_packages: Seq<(Seq<char>, u64)>,
}

impl View for Solver {
    type V = SolverView;

    closed spec fn view(&self) -> SolverView {
        SolverView {
            repositories: texts(self.repositories@),
            initial_changes: self.initial_state_builders@,
            default_validators: self.default_validators@,
            validators: self.validators@,
            impossible_checks: self.impossible_checks,
            number_of_steps: self.number_of_steps,
            number_builds_skipped: self.number_builds_skipped,
            number_incompat_versions: self.number_incompat_versions,
            number_incompat_builds: self.number_incompat_builds,
            number_total_builds: self.number_total_builds,
            number_of_steps_back: self.number_of_steps_back,
            errors: error_view(self.error_frequency@),
            problem_packages: count_view(self.problem_packages@),
        }
    }
}

/// All counters, frequency tables included, are empty or zero.
pub open spec fn counters_zero(v: SolverView) -> bool {
    &&& v.number_of_steps == 0
    &&& v.number_builds_skipped == 0
    &&& v.number_incompat_versions == 0
    &&& v.number_incompat_builds == 0
    &&& v.number_total_builds == 0
    &&& v.number_of_steps_back == 0
    &&& v.errors.len() == 0
    &&& v.problem_packages.len() == 0
}

/// A solver in its default state: no repositories or requests, the default
/// validators in use, all counters at zero.
pub open spec fn is_fresh(v: SolverView) -> bool {
    &&& v.repositories.len() == 0
    &&& v.initial_changes.len() == 0
    &&& v.validators == v.default_validators
    &&& counters_zero(v)
}

/// The components a package request asks for once added to a solver: those
/// it names, or the source component for a source request and the default
/// run component otherwise.
pub open spec fn defaulted_components(r: PkgRequestSummary) -> Seq<Component> {
    if r.components@.len() > 0 {
        r.components@
    } else if r.is_source {
        seq![Component::Source]
    } else {
        seq![spec_default_for_run()]
    }
}

/// The validators after switching binary-only solving on or off: a
/// binary-only validator is put first when switching on without one, and
/// every binary-only validator is removed when switching off with one.
pub open spec fn binary_only_validators(v: Seq<SolverValidator>, binary_only: bool) -> Seq<
    SolverValidator,
> {
    let has = exists|i: int| 0 <= i < v.len() && #[trigger] v[i] is BinaryOnly;
    if has == binary_only {
        v
    } else if binary_only {
        v.insert(0, SolverValidator::BinaryOnly)
    } else {
        v.filter(|x: SolverValidator| !(x is BinaryOnly))
    }
}

/// A binary-only validator is among the validators.
pub open spec fn has_binary_only(v: Seq<SolverValidator>) -> bool {
    exists|i: int| 0 <= i < v.len() && #[trigger] v[i] is BinaryOnly
}

/// After binary-only solving is switched on a binary-only validator is in
/// use, and after it is switched off none is; switching to the same setting
/// again changes nothing.
pub proof fn lemma_binary_only_switch(v: Seq<SolverValidator>, binary_only: bool)
    ensures
        has_binary_only(binary_only_validators(v, binary_only)) == binary_only,
        binary_only_validators(binary_only_validators(v, binary_only), binary_only) == binary_only_validators(
            v,
            binary_only,
        ),
{
    let after = binary_only_validators(v, binary_only);
    if has_binary_only(v) != binary_only {
        if binary_only {
            assert(after[0] is BinaryOnly);
        } else {
            let keep = |x: SolverValidator| !(x is BinaryOnly);
            assert forall|i: int| 0 <= i < after.len() implies !(#[trigger] after[i] is BinaryOnly) by {
                v.lemma_filter_pred(keep, i);
            }
        }
    }
}

/// The problem-package counts after the requesters of a blocked request:
/// each package build among the first `n` requesters counts once more.
pub open spec fn count_blockers(
    counts: Seq<(Seq<char>, u64)>,
    requesters: Seq<Requester>,
    n: int,
) -> Seq<(Seq<char>, u64)>
    decreases n,
{
    if n <= 0 {
        counts
    } else {
        let prev = count_blockers(counts, requesters, n - 1);
        match requesters[n - 1].kind {
            RequesterKind::PackageBuild(name) => bump(prev, name@),
            _ => prev,
        }
    }
}

/// The position of the first command-line requester, or the number of
/// requesters when there is none.
pub open spec fn first_command_line(requesters: Seq<Requester>) -> int
    decreases requesters.len(),
{
    if requesters.len() == 0 {
        0
    } else {
        let prev = first_command_line(requesters.drop_last());
        if prev < requesters.len() - 1 {
            prev
        } else if requesters.last().kind is CommandLine {
            requesters.len() - 1
        } else {
            requesters.len() as int
        }
    }
}

/// The display texts of requesters.
pub open spec fn requester_texts(requesters: Seq<Requester>) -> Seq<Seq<char>> {
    requesters.map_values(|r: Requester| r.text@)
}

/// The cause of stepping back from a request that nothing satisfies.
pub open spec fn could_not_satisfy_cause(request: Seq<char>, requesters: Seq<Requester>) -> Seq<char> {
    "could not satisfy '"@ + request + "' as required by: "@ + join(
        requester_texts(requesters),
        ", "@,
    )
}

/// The cause of stepping back from a request for a package that does not
/// exist.
pub open spec fn not_found_cause(request: Seq<char>, requesters: Seq<Requester>) -> Seq<char> {
    "Package '"@ + request + "' not found during the solve as required by: "@ + join(
        requester_texts(requesters),
        ", "@,
    ) + ". Please check the spelling of the package's name"@
}

fn requester_text_list(requesters: &Vec<Requester>) -> (r: Vec<String>)
    ensures
        texts(r@) == requester_texts(requesters@),
{
    let mut r: Vec<String> = Vec::new();
    let mut i: usize = 0;
    while i < requesters.len()
        invariant
            0 <= i <= requesters@.len(),
            texts(r@) == requester_texts(requesters@.take(i as int)),
        decreases requesters@.len() - i,
    {
        let ghost before = r@;
        let t = requesters[i].text.clone();
        r.push(t);
        proof {
            assert(requesters@.take(i + 1) =~= requesters@.take(i as int).push(requesters@[i as int]));
            assert(texts(r@) =~= texts(before).push(requesters@[i as int].text@));
            assert(requester_texts(requesters@.take(i + 1)) =~= requester_texts(
                requesters@.take(i as int),
            ).push(requesters@[i as int].text@));
        }
        i = i + 1;
    }
    proof {
        assert(requesters@.take(requesters@.len() as int) =~= requesters@);
    }
    r
}

/// The cause text: `prefix`, the request, `middle`, the requesters' texts
/// joined with commas.
fn cause_text(prefix: &str, request: &String, middle: &str, requesters: &Vec<String>) -> (r: String)
    ensures
        r@ == prefix@ + request@ + middle@ + join(texts(requesters@), ", "@),
{
    let mut r = String::new();
    push_text(&mut r, prefix);
    push_text(&mut r, request.as_str());
    push_text(&mut r, middle);
    let joined = join_strings(requesters, ", ");
    push_text(&mut r, joined.as_str());
    proof {
        assert(r@ =~= prefix@ + request@ + middle@ + join(texts(requesters@), ", "@));
    }
    r
}

impl Solver {
    /// A solver with no repositories and no requests, whose default
    /// validators are `default_validators`.
    pub fn new(default_validators: Vec<SolverValidator>, impossible_checks: ImpossibleChecksSettings) -> (s: Self)
        ensures
            is_fresh(s@),
            s@.default_validators == default_validators@,
            s@.impossible_checks == impossible_checks,
    {
        let s = Solver {
            repositories: Vec::new(),
            initial_state_builders: Vec::new(),
            validators: default_validators.clone(),
            default_validators,
            impossible_checks,
            number_of_steps: 0,
            number_builds_skipped: 0,
            number_incompat_versions: 0,
            number_incompat_builds: 0,
            number_total_builds: 0,
            number_of_steps_back: 0,
            error_frequency: Vec::new(),
            problem_packages: Vec::new(),
        };
        proof {
            assert(texts(s.repositories@) =~= Seq::<Seq<char>>::empty());
            assert(error_view(s.error_frequency@) =~= Seq::empty());
            assert(count_view(s.problem_packages@) =~= Seq::empty());
        }
        s
    }

    /// Add a repository where the solver can get packages.
    pub fn add_repository(&mut self, name: String)
        ensures
            final(self)@ == (SolverView { repositories: old(self)@.repositories.push(name@), ..old(self)@ }),
    {
        self.repositories.push(name);
        proof {
            assert(texts(self.repositories@) =~= texts(old(self).repositories@).push(name@));
        }
    }

    /// The repositories, by name.
    pub fn repositories(&self) -> (r: &Vec<String>)
        ensures
            texts(r@) == self@.repositories,
    {
        &self.repositories
    }

    /// Add a request to this solver. A package request that names no
    /// component asks for the source component if it is a request for a
    /// source build, and for the default run component otherwise.
    pub fn add_request(&mut self, request: Request)
        ensures
            final(self)@ == (SolverView { initial_changes: final(self)@.initial_changes, ..old(self)@ }),
            request matches Request::Pkg(p) ==> {
                &&& final(self)@.initial_changes.len() == old(self)@.initial_changes.len() + 1
                &&& final(self)@.initial_changes.drop_last() == old(self)@.initial_changes
                &&& final(self)@.initial_changes.last() matches InitialChange::RequestPackage(q)
                &&& q.text@ == p.text@
                &&& q.is_source == p.is_source
                &&& q.components@ == defaulted_components(p)
            },
            request matches Request::Var { var, value } ==> final(self)@.initial_changes
                == old(self)@.initial_changes.push(InitialChange::RequestVar { var, value }),
    {
        let change = match request {
            Request::Pkg(mut p) => {
                if p.components.len() == 0 {
                    if p.is_source {
                        p.components.push(Component::Source);
                    } else {
                        p.components.push(Component::default_for_run());
                    }
                    proof {
                        assert(p.components@ =~= defaulted_components(p));
                    }
                }
                InitialChange::RequestPackage(p)
            },
            Request::Var { var, value } => InitialChange::RequestVar { var, value },
        };
        self.initial_state_builders.push(change);
        proof {
            assert(self.initial_state_builders@.drop_last() =~= old(self).initial_state_builders@);
        }
    }

    /// Set the given options for the solve, after any set before.
    pub fn update_options(&mut self, options: Vec<(String, String)>)
        ensures
            final(self)@ == (SolverView {
                initial_changes: old(self)@.initial_changes.push(InitialChange::SetOptions(options)),
                ..old(self)@
            }),
    {
        self.initial_state_builders.push(InitialChange::SetOptions(options));
    }

    /// The changes that build the initial state of a solve, in order.
    pub fn initial_changes(&self) -> (r: &Vec<InitialChange>)
        ensures
            r@ == self@.initial_changes,
    {
        &self.initial_state_builders
    }

    /// The validators in use.
    pub fn validators(&self) -> (r: &Vec<SolverValidator>)
        ensures
            r@ == self@.validators,
    {
        &self.validators
    }

    /// Put this solver back into its default state: no repositories or
    /// requests, the default validators, all counters at zero.
    pub fn reset(&mut self)
        ensures
            is_fresh(final(self)@),
            final(self)@.default_validators == old(self)@.default_validators,
            final(self)@.impossible_checks == old(self)@.impossible_checks,
    {
        self.repositories.truncate(0);
        self.initial_state_builders.truncate(0);
        self.validators = self.default_validators.clone();
        self.number_of_steps = 0;
        self.number_builds_skipped = 0;
        self.number_incompat_versions = 0;
        self.number_incompat_builds = 0;
        self.number_total_builds = 0;
        self.number_of_steps_back = 0;
        self.error_frequency.truncate(0);
        self.problem_packages.truncate(0);
        proof {
            assert(texts(self.repositories@) =~= Seq::<Seq<char>>::empty());
            assert(error_view(self.error_frequency@) =~= Seq::empty());
            assert(count_view(self.problem_packages@) =~= Seq::empty());
        }
    }

    /// If true, only solve pre-built binary packages: a binary-only
    /// validator is put first if missing; if false, every binary-only
    /// validator is removed.
    pub fn set_binary_only(&mut self, binary_only: bool)
        ensures
            final(self)@ == (SolverView {
                validators: binary_only_validators(old(self)@.validators, binary_only),
                ..old(self)@
            }),
    {
        let mut has_binary_only = false;
        let mut i: usize = 0;
        while i < self.validators.len()
            invariant
                0 <= i <= self.validators@.len(),
                has_binary_only == exists|j: int| 0 <= j < i && #[trigger] self.validators@[j] is BinaryOnly,
            decreases self.validators@.len() - i,
        {
            if matches!(self.validators[i], SolverValidator::BinaryOnly) {
                has_binary_only = true;
            }
            i = i + 1;
        }
        if has_binary_only == binary_only {
            return;
        }
        if binary_only {
            self.validators.insert(0, SolverValidator::BinaryOnly);
        } else {
            let ghost v = self.validators@;
            let mut kept: Vec<SolverValidator> = Vec::new();
            let mut j: usize = 0;
            while j < self.validators.len()
                invariant
                    v == self.validators@,
                    0 <= j <= v.len(),
                    kept@ == v.take(j as int).filter(|x: SolverValidator| !(x is BinaryOnly)),
                decreases v.len() - j,
            {
                proof {
                    reveal_with_fuel(Seq::<SolverValidator>::filter, 1);
                    assert(v.take(j + 1).drop_last() =~= v.take(j as int));
                }
                if !matches!(self.validators[j], SolverValidator::BinaryOnly) {
                    kept.push(self.validators[j].clone());
                }
                j = j + 1;
            }
            proof {
                assert(v.take(v.len() as int) =~= v);
            }
            self.validators = kept;
        }
    }

    /// Enable or disable running impossible checks on the initial requests
    /// before the solve starts
    pub fn set_initial_request_impossible_checks(&mut self, enabled: bool)
        ensures
            final(self)@ == (SolverView {
                impossible_checks: ImpossibleChecksSettings {
                    check_initial_requests: enabled,
                    ..old(self)@.impossible_checks
                },
                ..old(self)@
            }),
    {
        self.impossible_checks.check_initial_requests = enabled;
    }

    /// Enable or disable running impossible checks before using a build to
    /// resolve a request
    pub fn set_resolve_validation_impossible_checks(&mut self, enabled: bool)
        ensures
            final(self)@ == (SolverView {
                impossible_checks: ImpossibleChecksSettings {
                    check_before_resolving: enabled,
                    ..old(self)@.impossible_checks
                },
                ..old(self)@
            }),
    {
        self.impossible_checks.check_before_resolving = enabled;
    }

    /// Enable or disable running impossible checks for build key generation
    /// when ordering builds for selection
    pub fn set_build_key_impossible_checks(&mut self, enabled: bool)
        ensures
            final(self)@ == (SolverView {
                impossible_checks: ImpossibleChecksSettings {
                    use_in_build_keys: enabled,
                    ..old(self)@.impossible_checks
                },
                ..old(self)@
            }),
    {
        self.impossible_checks.use_in_build_keys = enabled;
    }

    /// The impossible checks settings.
    pub fn impossible_checks(&self) -> (r: ImpossibleChecksSettings)
        ensures
            r == self@.impossible_checks,
    {
        self.impossible_checks
    }

    /// Return true is any of the impossible request checks are
    /// enabled for this solver, otherwise false
    pub fn any_impossible_checks_enabled(&self) -> (r: bool)
        ensures
            r == (self@.impossible_checks.check_initial_requests
                || self@.impossible_checks.check_before_resolving
                || self@.impossible_checks.use_in_build_keys),
    {
        self.impossible_checks.check_initial_requests
            || self.impossible_checks.check_before_resolving
            || self.impossible_checks.use_in_build_keys
    }

    /// Get the number of steps (forward) taken in the solve
    pub fn get_number_of_steps(&self) -> (r: usize)
        ensures
            r == self@.number_of_steps,
    {
        self.number_of_steps
    }

    /// Get the number of builds skipped during the solve
    pub fn get_number_of_builds_skipped(&self) -> (r: usize)
        ensures
            r == self@.number_builds_skipped,
    {
        self.number_builds_skipped
    }

    /// Get the number of incompatible versions avoided during the solve
    pub fn get_number_of_incompatible_versions(&self) -> (r: usize)
        ensures
            r == self@.number_incompat_versions,
    {
        self.number_incompat_versions
    }

    /// Get the number of incompatible builds avoided during the solve
    pub fn get_number_of_incompatible_builds(&self) -> (r: usize)
        ensures
            r == self@.number_incompat_builds,
    {
        self.number_incompat_builds
    }

    /// Get the total number of builds examined during the solve
    pub fn get_total_builds(&self) -> (r: usize)
        ensures
            r == self@.number_total_builds,
    {
        self.number_total_builds
    }

    /// Get the number of steps back taken during the solve
    pub fn get_number_of_steps_back(&self) -> (r: u64)
        ensures
            r == self@.number_of_steps_back,
    {
        self.number_of_steps_back
    }

    /// Count a step forward in the solve.
    pub fn record_step(&mut self)
        requires
            old(self)@.number_of_steps < usize::MAX,
        ensures
            final(self)@ == (SolverView {
                number_of_steps: (old(self)@.number_of_steps + 1) as usize,
                ..old(self)@
            }),
    {
        self.number_of_steps = self.number_of_steps + 1;
    }

    /// Count a version found incompatible with the request, and its builds.
    pub fn record_incompatible_version(&mut self, num_builds: usize)
        requires
            old(self)@.number_incompat_versions < usize::MAX,
            old(self)@.number_incompat_builds + num_builds <= usize::MAX,
        ensures
            final(self)@ == (SolverView {
                number_incompat_versions: (old(self)@.number_incompat_versions + 1) as usize,
                number_incompat_builds: (old(self)@.number_incompat_builds + num_builds) as usize,
                ..old(self)@
            }),
    {
        self.number_incompat_versions = self.number_incompat_versions + 1;
        self.number_incompat_builds = self.number_incompat_builds + num_builds;
    }

    /// Count a build taken from a build iterator to be considered.
    pub fn record_build_considered(&mut self)
        requires
            old(self)@.number_total_builds < usize::MAX,
        ensures
            final(self)@ == (SolverView {
                number_total_builds: (old(self)@.number_total_builds + 1) as usize,
                ..old(self)@
            }),
    {
        self.number_total_builds = self.number_total_builds + 1;
    }

    /// Note a build that was tried and skipped, and count it.
    pub fn skip_build(&mut self, notes: &mut Vec<Note>, note: SkipPackageNote)
        requires
            old(self)@.number_builds_skipped < usize::MAX,
        ensures
            final(notes)@ == old(notes)@.push(Note::SkipPackageNote(note)),
            final(self)@ == (SolverView {
                number_builds_skipped: (old(self)@.number_builds_skipped + 1) as usize,
                ..old(self)@
            }),
    {
        notes.push(Note::SkipPackageNote(note));
        self.number_builds_skipped = self.number_builds_skipped + 1;
    }

    /// Count a step back applied during the solve.
    pub fn record_step_back(&mut self)
        requires
            old(self)@.number_of_steps_back < u64::MAX,
        ensures
            final(self)@ == (SolverView {
                number_of_steps_back: (old(self)@.number_of_steps_back + 1) as u64,
                ..old(self)@
            }),
    {
        self.number_of_steps_back = self.number_of_steps_back + 1;
    }

    /// The error table as held.
    pub closed spec fn error_table(&self) -> Seq<(String, ErrorFreq)> {
        self.error_frequency@
    }

    /// The problem packages table as held.
    pub closed spec fn problem_table(&self) -> Seq<(String, u64)> {
        self.problem_packages@
    }

    /// The tables as held have the tables of the view as their views.
    pub proof fn lemma_tables(&self)
        ensures
            error_view(self.error_table()) == self@.errors,
            count_view(self.problem_table()) == self@.problem_packages,
    {
    }

    /// Get the error to frequency mapping
    pub fn error_frequency(&self) -> (r: &Vec<(String, ErrorFreq)>)
        ensures
            error_view(r@) == self@.errors,
            r@ == self.error_table(),
    {
        &self.error_frequency
    }

    /// Increment the number of occurrences of the given error message
    pub fn increment_error_count(&mut self, error_message: ErrorDetails)
        requires
            error_counts_below(old(self)@.errors, u64::MAX as int),
            recordable(old(self)@.errors, error_message),
        ensures
            final(self)@ == (SolverView {
                errors: record_error(old(self)@.errors, error_message),
                ..old(self)@
            }),
            keys_unique(old(self)@.errors) ==> keys_unique(final(self)@.errors),
    {
        proof {
            lemma_record_error_keeps_keys_unique(old(self)@.errors, error_message);
        }
        record_error_in(&mut self.error_frequency, error_message);
    }

    /// Increment the number of occurrences of the given problem package
    pub fn increment_problem_package_count(&mut self, problem_package: String)
        requires
            counts_below(old(self)@.problem_packages, u64::MAX as int),
        ensures
            final(self)@ == (SolverView {
                problem_packages: bump(old(self)@.problem_packages, problem_package@),
                ..old(self)@
            }),
            keys_unique(old(self)@.problem_packages) ==> keys_unique(final(self)@.problem_packages),
    {
        proof {
            lemma_bump_keeps_keys_unique(old(self)@.problem_packages, problem_package@);
        }
        bump_count(&mut self.problem_packages, problem_package);
    }

    /// Get the problem packages frequency mapping
    pub fn problem_packages(&self) -> (r: &Vec<(String, u64)>)
        ensures
            count_view(r@) == self@.problem_packages,
            r@ == self.problem_table(),
    {
        &self.problem_packages
    }

    /// Count, as problem packages, the package builds among the first `n`
    /// requesters.
    fn count_blocking_requesters(&mut self, requesters: &Vec<Requester>, n: usize)
        requires
            n <= requesters@.len(),
            n < u64::MAX,
            counts_below(old(self)@.problem_packages, u64::MAX - n),
        ensures
            final(self)@ == (SolverView {
                problem_packages: count_blockers(old(self)@.problem_packages, requesters@, n as int),
                ..old(self)@
            }),
            counts_below(final(self)@.problem_packages, u64::MAX as int),
    {
        let mut i: usize = 0;
        while i < n
            invariant
                n <= requesters@.len(),
                n < u64::MAX,
                0 <= i <= n,
                self@ == (SolverView {
                    problem_packages: count_blockers(old(self)@.problem_packages, requesters@, i as int),
                    ..old(self)@
                }),
                counts_below(self@.problem_packages, u64::MAX - n + i),
            decreases n - i,
        {
            match &requesters[i].kind {
                RequesterKind::PackageBuild(name) => {
                    proof {
                        lemma_bump_below(self@.problem_packages, name@, u64::MAX - n + i);
                    }
                    self.increment_problem_package_count(name.clone());
                },
                _ => {},
            }
            i = i + 1;
        }
    }

    /// How the solver answers a step that failed, given the history of
    /// forks: the problem packages and errors it counts, the fork it steps
    /// back to, or that the failure ends the solve.
    ///
    /// - A request that no build satisfies counts each package build that
    ///   asked for it as a problem package, steps back to the oldest fork
    ///   and records a 'could not satisfy' error for the request.
    /// - A request for a package that does not exist counts the package
    ///   builds among its requesters up to the first command-line one; a
    ///   command-line request cannot be recovered from and fails the solve,
    ///   any other steps back to the oldest fork and records the message.
    /// - A decision that could not be added to the graph steps back to the
    ///   oldest fork, with the error as the cause.
    /// - Any other error is recorded and fails the solve.
    pub fn respond_to_failure(&mut self, history: &mut SolverHistory, failure: StepFailure) -> (r: StepResponse)
        requires
            error_counts_below(old(self)@.errors, u64::MAX as int),
            failure matches StepFailure::OutOfOptions { request, requesters, .. } ==> {
                &&& requesters@.len() < u64::MAX
                &&& counts_below(old(self)@.problem_packages, u64::MAX - requesters@.len())
                &&& blocked_recordable(old(self)@.errors, request@)
            },
            failure matches StepFailure::PackageNotFound { requesters, .. } ==> {
                &&& requesters@.len() < u64::MAX
                &&& counts_below(old(self)@.problem_packages, u64::MAX - requesters@.len())
            },
        ensures
            failure matches StepFailure::OutOfOptions { request, requesters, notes } ==> {
                &&& r matches StepResponse::StepBack { cause, destination, summary }
                &&& cause@ == could_not_satisfy_cause(request@, requesters@)
                &&& takes_oldest(old(history).forks(), final(history).forks(), destination)
                &&& summary matches Some(m) ==> note_summary(notes@) == Some(m@)
                &&& summary is None ==> note_summary(notes@) is None
                &&& final(self)@ == (SolverView {
                    problem_packages: count_blockers(
                        old(self)@.problem_packages,
                        requesters@,
                        requesters@.len() as int,
                    ),
                    errors: record_blocked(old(self)@.errors, request@, requester_texts(requesters@)),
                    ..old(self)@
                })
            },
            failure matches StepFailure::PackageNotFound { request, requesters } ==> {
                let k = first_command_line(requesters@);
                &&& final(self)@.problem_packages == count_blockers(
                    old(self)@.problem_packages,
                    requesters@,
                    k,
                )
                &&& k < requesters@.len() ==> {
                    &&& r is Fail
                    &&& final(history).forks() == old(history).forks()
                    &&& final(self)@ == (SolverView {
                        problem_packages: final(self)@.problem_packages,
                        ..old(self)@
                    })
                }
                &&& k == requesters@.len() ==> {
                    &&& r matches StepResponse::StepBack { cause, destination, summary }
                    &&& cause@ == not_found_cause(request@, requesters@)
                    &&& summary is None
                    &&& takes_oldest(old(history).forks(), final(history).forks(), destination)
                    &&& final(self)@ == (SolverView {
                        problem_packages: final(self)@.problem_packages,
                        errors: record_message(old(self)@.errors, cause@),
                        ..old(self)@
                    })
                }
            },
            failure matches StepFailure::BranchFailed(message) ==> {
                &&& r matches StepResponse::StepBack { cause, destination, summary }
                &&& cause@ == message@
                &&& summary is None
                &&& takes_oldest(old(history).forks(), final(history).forks(), destination)
                &&& final(self)@ == old(self)@
            },
            failure matches StepFailure::Other(message) ==> {
                &&& r is Fail
                &&& final(history).forks() == old(history).forks()
                &&& final(self)@ == (SolverView {
                    errors: record_message(old(self)@.errors, message@),
                    ..old(self)@
                })
            },
    {
        match failure {
            StepFailure::OutOfOptions { request, requesters, notes } => {
                self.count_blocking_requesters(&requesters, requesters.len());
                let texts_list = requester_text_list(&requesters);
                let cause = cause_text("could not satisfy '", &request, "' as required by: ", &texts_list);
                let destination = history.take_oldest();
                self.increment_error_count(ErrorDetails::CouldNotSatisfy(request, texts_list));
                let summary = summarize_notes(&notes);
                StepResponse::StepBack { cause, destination, summary }
            },
            StepFailure::PackageNotFound { request, requesters } => {
                let mut k: usize = 0;
                while k < requesters.len()
                    invariant
                        0 <= k <= requesters@.len(),
                        forall|j: int| 0 <= j < k ==> !(#[trigger] requesters@[j].kind is CommandLine),
                    ensures
                        0 <= k <= requesters@.len(),
                        forall|j: int| 0 <= j < k ==> !(#[trigger] requesters@[j].kind is CommandLine),
                        k < requesters@.len() ==> requesters@[k as int].kind is CommandLine,
                    decreases requesters@.len() - k,
                {
                    if matches!(requesters[k].kind, RequesterKind::CommandLine) {
                        break;
                    }
                    k = k + 1;
                }
                proof {
                    lemma_first_command_line(requesters@, k as int);
                }
                self.count_blocking_requesters(&requesters, k);
                if k < requesters.len() {
                    return StepResponse::Fail;
                }
                let texts_list = requester_text_list(&requesters);
                let mut cause = cause_text(
                    "Package '",
                    &request,
                    "' not found during the solve as required by: ",
                    &texts_list,
                );
                push_text(&mut cause, ". Please check the spelling of the package's name");
                let destination = history.take_oldest();
                self.increment_error_count(ErrorDetails::Message(cause.clone()));
                StepResponse::StepBack { cause, destination, summary: None }
            },
            StepFailure::BranchFailed(message) => {
                let destination = history.take_oldest();
                StepResponse::StepBack { cause: message, destination, summary: None }
            },
            StepFailure::Other(message) => {
                self.increment_error_count(ErrorDetails::Message(message));
                StepResponse::Fail
            },
        }
    }
}

/// The first command-line requester is at `k` when none comes before it and
/// `k` is either past the end or a command-line requester.
pub proof fn lemma_first_command_line(requesters: Seq<Requester>, k: int)
    requires
        0 <= k <= requesters.len(),
        forall|j: int| 0 <= j < k ==> !(#[trigger] requesters[j].kind is CommandLine),
        k < requesters.len() ==> requesters[k].kind is CommandLine,
    ensures
        first_command_line(requesters) == k,
    decreases requesters.len(),
{
    if requesters.len() > 0 {
        let prefix = requesters.drop_last();
        if k < requesters.len() {
            if k < prefix.len() {
                lemma_first_command_line(prefix, k);
            } else {
                lemma_first_command_line(prefix, prefix.len() as int);
            }
        } else {
            lemma_first_command_line(prefix, prefix.len() as int);
        }
    }
}

} // verus!
