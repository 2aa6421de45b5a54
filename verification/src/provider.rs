//! How the resolvo dependency provider turns requests and package
//! descriptions into the version sets the solver works with: which
//! components a package request stands for, which requirements and
//! constraints a request or a build brings, and which global var values are
//! learned on the way.

use vstd::prelude::*;
use crate::component::{Component, SyntheticComponent, copy_components, has_component, same_component};
use crate::frequency::{find_key, keys_unique, lemma_find_key, lemma_keys_unique_push, lemma_keys_unique_update};
use crate::globals::{GlobalVars, GlobalVarsView, observed, observed_all, tables_wf};
use crate::text::texts;

verus! {

/// Which prerelease versions a request admits.
#[derive(Clone, Copy, Debug, PartialEq, Eq, Structural)]
pub enum PreReleasePolicy {
    ExcludeAll,
    IncludeAll,
}

/// Whether a package request must be satisfied, or only constrains the
/// package if something else brings it in.
#[derive(Clone, Copy, Debug, PartialEq, Eq, Structural)]
pub enum InclusionPolicy {
    Always,
    IfAlreadyPresent,
}

/// The parts of a package request that dependency building reads.
#[derive(Debug)]
pub struct PkgDepRequest {
    pub name: String,
    pub components: Vec<Component>,
    /// The request asks for a source build.
    pub build_is_source: bool,
    pub prerelease: Option<PreReleasePolicy>,
    pub inclusion: InclusionPolicy,
}

/// A var request: `namespace` is the package the var belongs to, if any.
#[derive(Debug)]
pub struct VarDepRequest {
    pub namespace: Option<String>,
    pub key: String,
    pub value: String,
}

/// A request of a package or of its components.
#[derive(Debug)]
pub enum DepRequest {
    Pkg(PkgDepRequest),
    Var(VarDepRequest),
}

/// A "package" of the solver: one component (or the base) of a spk package,
/// or the pseudo-package of a global var.
#[derive(Debug)]
pub enum DepName {
    Pkg { name: String, component: SyntheticComponent },
    GlobalVar(String),
}

/// The var options a package request carries, in order.
#[derive(Debug)]
pub enum VarOptions {
    End,
    Then(VarDepRequest, Box<VarOptions>),
}

/// What a version set of the solver admits.
#[derive(Debug)]
pub enum VersionSetKind {
    /// A package request narrowed to one component, with its prerelease
    /// policy.
    PkgComponent { component: Component, prerelease: Option<PreReleasePolicy> },
    /// A var request.
    Var(VarDepRequest),
    /// One value of a global var.
    GlobalVarValue(String),
    /// The same build of the package, with the given component (none for
    /// the base).
    SameBuild { component: Option<Component> },
    /// The embedded stub of a package at a version, embedded by this build.
    /// It carries this build's var requirements for that package as its
    /// options (see `request_options`).
    EmbeddedStub { version: String, options: VarOptions },
    /// A component of the parent that embeds this stub. It carries this
    /// build's var requirements for the parent as its options (see
    /// `request_options`).
    ParentComponent { component: Component, options: VarOptions },
    /// The run component of the parent that embeds this stub, when none of
    /// the parent's components was found to embed it.
    ParentRun,
}

/// A version set: a solver package and what it admits.
#[derive(Debug)]
pub struct VersionSet {
    pub name: DepName,
    pub kind: VersionSetKind,
}

/// The dependencies of a solvable: what it requires, and what it
/// constrains if present.
#[derive(Debug)]
pub struct KnownDeps {
    pub requirements: Vec<VersionSet>,
    pub constrains: Vec<VersionSet>,
}

/// A var option of a package's build, as a request built from the package
/// reads it: the var's name without its namespace, whether it is required,
/// and its value if it has one.
#[derive(Debug)]
pub struct VarOptionFacts {
    pub var_base: String,
    pub required: bool,
    pub value: Option<String>,
}

/// The settings a request built from a package passes on: each required var
/// option with a value, named after the package.
pub open spec fn required_var_settings(pkg: Seq<char>, os: Seq<VarOptionFacts>) -> Seq<(Seq<char>, Seq<char>)>
    decreases os.len(),
{
    if os.len() == 0 {
        Seq::empty()
    } else {
        let o = os.last();
        required_var_settings(pkg, os.drop_last()) + if o.required && o.value is Some {
            seq![(pkg + "."@ + o.var_base@, o.value.unwrap()@)]
        } else {
            Seq::empty()
        }
    }
}

/// The required var options of a package, named after it, that a request
/// for another component of the same build must satisfy; a later option of
/// the same name replaces an earlier one.
pub fn propagated_required_vars(pkg: &String, options: &Vec<VarOptionFacts>) -> (r: Vec<(String, String)>)
    ensures
        r@.map_values(|e: (String, String)| (e.0@, e.1@)) == crate::solvers::set_options(
            Seq::empty(),
            required_var_settings(pkg@, options@),
        ),
{
    let mut r: Vec<(String, String)> = Vec::new();
    proof {
        assert(r@.map_values(|e: (String, String)| (e.0@, e.1@)) =~= Seq::<(Seq<char>, Seq<char>)>::empty());
    }
    let mut i: usize = 0;
    while i < options.len()
        invariant
            0 <= i <= options@.len(),
            r@.map_values(|e: (String, String)| (e.0@, e.1@)) == crate::solvers::set_options(
                Seq::empty(),
                required_var_settings(pkg@, options@.take(i as int)),
            ),
        decreases options@.len() - i,
    {
        proof {
            assert(options@.take(i + 1).drop_last() =~= options@.take(i as int));
        }
        let o = &options[i];
        let ghost prev = required_var_settings(pkg@, options@.take(i as int));
        if o.required {
            match &o.value {
                Some(v) => {
                    crate::cdcl::set_setting(&mut r, crate::cdcl::dotted(pkg, &o.var_base), v.clone());
                    proof {
                        let u = (pkg@ + "."@ + o.var_base@, v@);
                        assert(required_var_settings(pkg@, options@.take(i + 1)) =~= prev.push(u));
                        assert(prev.push(u).drop_last() =~= prev);
                    }
                },
                None => {
                    proof {
                        assert(required_var_settings(pkg@, options@.take(i + 1)) =~= prev);
                    }
                },
            }
        } else {
            proof {
                assert(required_var_settings(pkg@, options@.take(i + 1)) =~= prev);
            }
        }
        i = i + 1;
    }
    proof {
        assert(options@.take(options@.len() as int) =~= options@);
    }
    r
}

/// Dependencies being built: requirements, constraints and the global var
/// values seen, each in order.
pub struct DepsPart {
    pub requirements: Seq<VersionSet>,
    pub constrains: Seq<VersionSet>,
    pub observed: Seq<(Seq<char>, Seq<char>)>,
}

/// No dependency.
pub open spec fn no_deps() -> DepsPart {
    DepsPart { requirements: Seq::empty(), constrains: Seq::empty(), observed: Seq::empty() }
}

/// The dependencies of `a` followed by those of `b`.
pub open spec fn join_deps(a: DepsPart, b: DepsPart) -> DepsPart {
    DepsPart {
        requirements: a.requirements + b.requirements,
        constrains: a.constrains + b.constrains,
        observed: a.observed + b.observed,
    }
}

/// The components a package request stands for: those it names, or, when
/// it names none, the source component for a source build and the default
/// run component otherwise.
pub open spec fn dep_components(r: PkgDepRequest) -> Seq<Component> {
    if r.components@.len() > 0 {
        r.components@
    } else if r.build_is_source {
        seq![Component::Source]
    } else {
        seq![Component::Run]
    }
}

/// The prerelease policy recorded for a package among the global package
/// requests.
pub open spec fn global_prerelease(
    globals: Seq<(Seq<char>, Option<PreReleasePolicy>)>,
    name: Seq<char>,
) -> Option<PreReleasePolicy> {
    match find_key(globals, name) {
        Some(i) => globals[i].1,
        None => None,
    }
}

/// The policy recorded for a package's top-level request is the one that
/// its lookup gives back; the others are unchanged.
pub proof fn lemma_recorded_global_prerelease(
    globals: Seq<(Seq<char>, Option<PreReleasePolicy>)>,
    name: Seq<char>,
    p: Option<PreReleasePolicy>,
    other: Seq<char>,
)
    ensures
        global_prerelease(record_global(globals, name, p), name) == p,
        other != name ==> global_prerelease(record_global(globals, name, p), other) == global_prerelease(
            globals,
            other,
        ),
{
    lemma_find_key(globals, name);
    lemma_find_key(globals, other);
    let g2 = record_global(globals, name, p);
    match find_key(globals, name) {
        Some(i) => {
            crate::frequency::lemma_find_key_is_last(globals, name, i);
            crate::frequency::lemma_find_key_at(g2, name, i);
            if other != name {
                crate::globals::lemma_find_key_update(globals, i, p, other);
                assert(g2 == globals.update(i, (globals[i].0, p)));
            }
        },
        None => {
            crate::frequency::lemma_find_key_at(g2, name, globals.len() as int);
            if other != name {
                assert(g2.drop_last() =~= globals);
            }
        },
    }
}

/// A dependency on a package admits all its prereleases when it sets no
/// policy of its own and the top-level request for the package admits
/// them all; a dependency with a policy of its own keeps it. This holds of
/// every version set the request brings.
pub proof fn lemma_dependency_prerelease(r: PkgDepRequest, globals: Seq<(Seq<char>, Option<PreReleasePolicy>)>)
    ensures
        forall|k: int|
            0 <= k < pkg_sets(r, globals).len() ==> {
                &&& (#[trigger] pkg_sets(r, globals)[k]).kind is PkgComponent
                &&& r.prerelease is None && global_prerelease(globals, r.name@) == Some(PreReleasePolicy::IncludeAll)
                    ==> pkg_sets(r, globals)[k].kind->PkgComponent_prerelease == Some(PreReleasePolicy::IncludeAll)
                &&& r.prerelease is Some ==> pkg_sets(r, globals)[k].kind->PkgComponent_prerelease == r.prerelease
            },
{
}

/// The prerelease policy of a dependency: a request without one admits all
/// prereleases when the top-level request for that package does.
pub open spec fn effective_prerelease(
    r: PkgDepRequest,
    globals: Seq<(Seq<char>, Option<PreReleasePolicy>)>,
) -> Option<PreReleasePolicy> {
    if r.prerelease is None && global_prerelease(globals, r.name@) == Some(PreReleasePolicy::IncludeAll) {
        Some(PreReleasePolicy::IncludeAll)
    } else {
        r.prerelease
    }
}

/// The version set of one component of a package request.
pub open spec fn component_set(name: String, c: Component, p: Option<PreReleasePolicy>) -> VersionSet {
    VersionSet {
        name: DepName::Pkg { name, component: SyntheticComponent::Actual(c) },
        kind: VersionSetKind::PkgComponent { component: c, prerelease: p },
    }
}

/// The version sets of a package request, one per component.
pub open spec fn pkg_sets(r: PkgDepRequest, globals: Seq<(Seq<char>, Option<PreReleasePolicy>)>) -> Seq<
    VersionSet,
> {
    dep_components(r).map_values(|c: Component| component_set(r.name, c, effective_prerelease(r, globals)))
}

/// The dependencies of a package request: requirements when it must be
/// included, constraints when only if already present.
pub open spec fn pkg_deps(r: PkgDepRequest, globals: Seq<(Seq<char>, Option<PreReleasePolicy>)>) -> DepsPart {
    match r.inclusion {
        InclusionPolicy::Always => DepsPart { requirements: pkg_sets(r, globals), ..no_deps() },
        InclusionPolicy::IfAlreadyPresent => DepsPart { constrains: pkg_sets(r, globals), ..no_deps() },
    }
}

/// The dependencies of a var request: a var of a package constrains that
/// package's base; a global var requires its value of the var's
/// pseudo-package, constrains it, and is seen.
pub open spec fn var_deps(v: VarDepRequest) -> DepsPart {
    match v.namespace {
        Some(ns) => DepsPart {
            constrains: seq![
                VersionSet {
                    name: DepName::Pkg { name: ns, component: SyntheticComponent::Base },
                    kind: VersionSetKind::Var(v),
                },
            ],
            ..no_deps()
        },
        None => DepsPart {
            requirements: seq![
                VersionSet { name: DepName::GlobalVar(v.key), kind: VersionSetKind::GlobalVarValue(v.value) },
            ],
            constrains: seq![VersionSet { name: DepName::GlobalVar(v.key), kind: VersionSetKind::Var(v) }],
            observed: seq![(v.key@, v.value@)],
        },
    }
}

/// The dependencies of any request.
pub open spec fn request_deps(r: DepRequest, globals: Seq<(Seq<char>, Option<PreReleasePolicy>)>) -> DepsPart {
    match r {
        DepRequest::Pkg(p) => pkg_deps(p, globals),
        DepRequest::Var(v) => var_deps(v),
    }
}

/// The dependencies of a list of requests, in order.
pub open spec fn requests_deps(
    rs: Seq<DepRequest>,
    globals: Seq<(Seq<char>, Option<PreReleasePolicy>)>,
) -> DepsPart
    decreases rs.len(),
{
    if rs.len() == 0 {
        no_deps()
    } else {
        join_deps(requests_deps(rs.drop_last(), globals), request_deps(rs.last(), globals))
    }
}

/// The requirements of the package requests among `rs` (var requests and
/// constraints are left out), in order.
pub open spec fn pkg_requirements_of(
    rs: Seq<DepRequest>,
    globals: Seq<(Seq<char>, Option<PreReleasePolicy>)>,
) -> Seq<VersionSet>
    decreases rs.len(),
{
    if rs.len() == 0 {
        Seq::empty()
    } else {
        pkg_requirements_of(rs.drop_last(), globals) + match rs.last() {
            DepRequest::Pkg(p) => pkg_deps(p, globals).requirements,
            DepRequest::Var(_) => Seq::empty(),
        }
    }
}

/// The global package requests after recording one: a request for a
/// package replaces any earlier one for it.
pub open spec fn record_global(
    globals: Seq<(Seq<char>, Option<PreReleasePolicy>)>,
    name: Seq<char>,
    p: Option<PreReleasePolicy>,
) -> Seq<(Seq<char>, Option<PreReleasePolicy>)> {
    match find_key(globals, name) {
        Some(i) => globals.update(i, (name, p)),
        None => globals.push((name, p)),
    }
}

/// The global package requests and the root requirements after the
/// top-level requests `rs`: each package request is recorded, then brings
/// its requirements.
pub open spec fn root_requirements(
    globals: Seq<(Seq<char>, Option<PreReleasePolicy>)>,
    rs: Seq<DepRequest>,
) -> (Seq<(Seq<char>, Option<PreReleasePolicy>)>, Seq<VersionSet>)
    decreases rs.len(),
{
    if rs.len() == 0 {
        (globals, Seq::empty())
    } else {
        let (g, acc) = root_requirements(globals, rs.drop_last());
        match rs.last() {
            DepRequest::Pkg(p) => {
                let g2 = record_global(g, p.name@, p.prerelease);
                (g2, acc + pkg_deps(p, g2).requirements)
            },
            DepRequest::Var(_) => (g, acc),
        }
    }
}

/// The global var requests after the top-level requests `rs`, and the
/// constraints that the vars of packages among them bring: a global var
/// request replaces any earlier one for the same var and makes its value
/// known.
pub open spec fn root_var_requests(
    globals: Seq<(Seq<char>, Seq<char>)>,
    rs: Seq<DepRequest>,
) -> (Seq<(Seq<char>, Seq<char>)>, Seq<VersionSet>, Seq<(Seq<char>, Seq<char>)>)
    decreases rs.len(),
{
    if rs.len() == 0 {
        (globals, Seq::empty(), Seq::empty())
    } else {
        let (g, acc, learned) = root_var_requests(globals, rs.drop_last());
        match rs.last() {
            DepRequest::Var(v) => match v.namespace {
                Some(ns) => (
                    g,
                    acc.push(
                        VersionSet {
                            name: DepName::Pkg { name: ns, component: SyntheticComponent::Base },
                            kind: VersionSetKind::Var(v),
                        },
                    ),
                    learned,
                ),
                None => (
                    match find_key(g, v.key@) {
                        Some(i) => g.update(i, (v.key@, v.value@)),
                        None => g.push((v.key@, v.value@)),
                    },
                    acc,
                    learned.push((v.key@, v.value@)),
                ),
            },
            DepRequest::Pkg(_) => (g, acc, learned),
        }
    }
}

/// A copy of a var request.
pub fn copy_var_request(v: &VarDepRequest) -> (r: VarDepRequest)
    ensures
        r == *v,
{
    VarDepRequest {
        namespace: match &v.namespace {
            Some(ns) => Some(ns.clone()),
            None => None,
        },
        key: v.key.clone(),
        value: v.value.clone(),
    }
}

/// Append the items of `src` to `dst`, in order.
fn push_all(dst: &mut Vec<VersionSet>, src: Vec<VersionSet>)
    ensures
        final(dst)@ == old(dst)@ + src@,
{
    let mut src = src;
    let ghost s = src@;
    let mut moved: Vec<VersionSet> = Vec::new();
    // Take the items out from the back, then put them back in order.
    while src.len() > 0
        invariant
            s == src@ + moved@.reverse(),
        decreases src@.len(),
    {
        let ghost before = src@;
        let x = src.pop().unwrap();
        proof {
            assert(before == src@.push(x));
        }
        moved.push(x);
        proof {
            assert(moved@.reverse() =~= seq![x] + moved@.drop_last().reverse());
            assert(s =~= src@ + moved@.reverse());
        }
    }
    let ghost start = dst@;
    while moved.len() > 0
        invariant
            start + s == dst@ + moved@.reverse(),
        decreases moved@.len(),
    {
        let ghost before = moved@;
        let x = moved.pop().unwrap();
        proof {
            assert(before == moved@.push(x));
            assert(before.reverse() =~= seq![x] + moved@.reverse());
        }
        dst.push(x);
        proof {
            assert(start + s =~= dst@ + moved@.reverse());
        }
    }
    proof {
        assert(moved@.reverse() =~= Seq::<VersionSet>::empty());
        assert(dst@ =~= start + s);
    }
}

/// How the solve of a build environment is set up: whether only binary
/// builds may be used, the builds being built from source, and the
/// requests, in order.
#[derive(Debug)]
pub struct SubSolveSetup {
    pub binary_only: bool,
    pub trail: Vec<String>,
    pub requests: Vec<DepRequest>,
}

/// `r` is the global var request of the var `kv.0` for the value `kv.1`.
pub open spec fn is_global_var_request(r: DepRequest, kv: (Seq<char>, Seq<char>)) -> bool {
    &&& r matches DepRequest::Var(v)
    &&& r->Var_0.namespace is None
    &&& r->Var_0.key@ == kv.0
    &&& r->Var_0.value@ == kv.1
}

/// What the provider holds of the requests of a solve.
pub struct SpkProvider {
    global_pkg_requests: Vec<(String, Option<PreReleasePolicy>)>,
    global_var_requests: Vec<(String, String)>,
    vars: GlobalVars,
    binary_only: bool,
}

/// What a provider holds, as plain values.
pub struct SpkProviderView {
    /// The prerelease policy of the top-level request of each package.
    pub global_pkg: Seq<(Seq<char>, Option<PreReleasePolicy>)>,
    /// The value of each global var request, by var.
    pub global_vars: Seq<(Seq<char>, Seq<char>)>,
    pub vars: GlobalVarsView,
    /// Only pre-built binary packages may be used.
    pub binary_only: bool,
}

impl View for SpkProvider {
    type V = SpkProviderView;

    closed spec fn view(&self) -> SpkProviderView {
        SpkProviderView {
            global_pkg: self.global_pkg_requests@.map_values(
                |e: (String, Option<PreReleasePolicy>)| (e.0@, e.1),
            ),
            global_vars: self.global_var_requests@.map_values(|e: (String, String)| (e.0@, e.1@)),
            vars: self.vars@,
            binary_only: self.binary_only,
        }
    }
}

fn find_global_pkg(g: &Vec<(String, Option<PreReleasePolicy>)>, name: &String) -> (r: Option<usize>)
    ensures
        r matches Some(i) ==> find_key(
            g@.map_values(|e: (String, Option<PreReleasePolicy>)| (e.0@, e.1)),
            name@,
        ) == Some(i as int),
        r is None ==> find_key(
            g@.map_values(|e: (String, Option<PreReleasePolicy>)| (e.0@, e.1)),
            name@,
        ) is None,
{
    let ghost view = g@.map_values(|e: (String, Option<PreReleasePolicy>)| (e.0@, e.1));
    let mut i: usize = g.len();
    assert(view.take(i as int) =~= view);
    while i > 0
        invariant
            0 <= i <= g@.len(),
            view == g@.map_values(|e: (String, Option<PreReleasePolicy>)| (e.0@, e.1)),
            find_key(view, name@) == find_key(view.take(i as int), name@),
        decreases i,
    {
        proof {
            assert(view.take(i as int).drop_last() =~= view.take(i - 1));
        }
        if g[i - 1].0 == *name {
            return Some(i - 1);
        }
        i = i - 1;
    }
    None
}

fn find_global_var(g: &Vec<(String, String)>, key: &String) -> (r: Option<usize>)
    ensures
        r matches Some(i) ==> find_key(g@.map_values(|e: (String, String)| (e.0@, e.1@)), key@) == Some(
            i as int,
        ),
        r is None ==> find_key(g@.map_values(|e: (String, String)| (e.0@, e.1@)), key@) is None,
{
    let ghost view = g@.map_values(|e: (String, String)| (e.0@, e.1@));
    let mut i: usize = g.len();
    assert(view.take(i as int) =~= view);
    while i > 0
        invariant
            0 <= i <= g@.len(),
            view == g@.map_values(|e: (String, String)| (e.0@, e.1@)),
            find_key(view, key@) == find_key(view.take(i as int), key@),
        decreases i,
    {
        proof {
            assert(view.take(i as int).drop_last() =~= view.take(i - 1));
        }
        if g[i - 1].0 == *key {
            return Some(i - 1);
        }
        i = i - 1;
    }
    None
}

impl SpkProvider {
    /// A provider with no requests yet.
    pub fn new(binary_only: bool) -> (r: Self)
        ensures
            r@.global_pkg.len() == 0,
            r@.global_vars.len() == 0,
            r@.vars.known.len() == 0,
            r@.vars.queried.len() == 0,
            r@.vars.cancel is None,
            r@.binary_only == binary_only,
            tables_wf(r@.vars),
    {
        let r = SpkProvider {
            global_pkg_requests: Vec::new(),
            global_var_requests: Vec::new(),
            vars: GlobalVars::new(),
            binary_only,
        };
        proof {
            assert(r@.global_pkg =~= Seq::empty());
            assert(r@.global_vars =~= Seq::empty());
        }
        r
    }

    /// The provider for the next run after a cancelled solve: the same
    /// requests and global var values learned so far, no var queried yet,
    /// nothing cancelling it.
    pub fn reset(&self) -> (r: Self)
        ensures
            r@.global_pkg == self@.global_pkg,
            r@.global_vars == self@.global_vars,
            r@.binary_only == self@.binary_only,
            r@.vars.known == self@.vars.known,
            r@.vars.queried.len() == 0,
            r@.vars.cancel is None,
            tables_wf(self@.vars) ==> tables_wf(r@.vars),
    {
        let mut pkgs: Vec<(String, Option<PreReleasePolicy>)> = Vec::new();
        let mut i: usize = 0;
        while i < self.global_pkg_requests.len()
            invariant
                0 <= i <= self.global_pkg_requests@.len(),
                pkgs@.len() == i,
                forall|j: int| 0 <= j < i ==> (#[trigger] pkgs@[j]).0@ == self.global_pkg_requests@[j].0@
                    && pkgs@[j].1 == self.global_pkg_requests@[j].1,
            decreases self.global_pkg_requests@.len() - i,
        {
            let e = &self.global_pkg_requests[i];
            pkgs.push((e.0.clone(), e.1));
            i = i + 1;
        }
        let mut var_reqs: Vec<(String, String)> = Vec::new();
        let mut k: usize = 0;
        while k < self.global_var_requests.len()
            invariant
                0 <= k <= self.global_var_requests@.len(),
                var_reqs@.len() == k,
                forall|j: int| 0 <= j < k ==> (#[trigger] var_reqs@[j]).0@ == self.global_var_requests@[j].0@
                    && var_reqs@[j].1@ == self.global_var_requests@[j].1@,
            decreases self.global_var_requests@.len() - k,
        {
            let e = &self.global_var_requests[k];
            var_reqs.push((e.0.clone(), e.1.clone()));
            k = k + 1;
        }
        let r = SpkProvider {
            global_pkg_requests: pkgs,
            global_var_requests: var_reqs,
            vars: self.vars.restart(),
            binary_only: self.binary_only,
        };
        proof {
            assert(r@.global_pkg =~= self@.global_pkg);
            assert(r@.global_vars =~= self@.global_vars);
        }
        r
    }

    /// Whether the solve should be cancelled and started again.
    pub fn is_canceled(&self) -> (r: bool)
        ensures
            r == self@.vars.cancel is Some,
    {
        self.vars.is_canceled()
    }

    /// The global vars learned so far.
    pub fn vars(&self) -> (r: &GlobalVars)
        ensures
            r@ == self@.vars,
    {
        &self.vars
    }

    /// How the solve of a build environment that decides whether `ident`
    /// can be built from source is set up: binary-only solving off; the
    /// builds already being built from source (`trail`) and this one; the
    /// variant's build requirements, then every global var request, last so
    /// that they take priority.
    pub fn sub_solve_setup(
        &self,
        trail: &Vec<String>,
        ident: &String,
        build_requirements: Vec<DepRequest>,
    ) -> (r: SubSolveSetup)
        ensures
            !r.binary_only,
            texts(r.trail@) == texts(trail@).push(ident@),
            r.requests@.len() == build_requirements@.len() + self@.global_vars.len(),
            r.requests@.take(build_requirements@.len() as int) == build_requirements@,
            forall|i: int|
                0 <= i < self@.global_vars.len() ==> is_global_var_request(#[trigger] r.requests@[build_requirements@.len() + i], self@.global_vars[i]),
    {
        let mut t: Vec<String> = Vec::new();
        let mut i: usize = 0;
        while i < trail.len()
            invariant
                0 <= i <= trail@.len(),
                t@.len() == i,
                forall|j: int| 0 <= j < i ==> (#[trigger] t@[j])@ == trail@[j]@,
            decreases trail@.len() - i,
        {
            t.push(trail[i].clone());
            i = i + 1;
        }
        t.push(ident.clone());
        proof {
            assert(texts(t@) =~= texts(trail@).push(ident@));
        }
        let mut requests = build_requirements;
        let ghost base = requests@;
        let n = requests.len();
        let mut k: usize = 0;
        while k < self.global_var_requests.len()
            invariant
                0 <= k <= self.global_var_requests@.len(),
                n == base.len(),
                requests@.len() == n + k,
                requests@.take(n as int) == base,
                forall|j: int|
                    0 <= j < k ==> is_global_var_request(#[trigger] requests@[n + j], self@.global_vars[j]),
            decreases self.global_var_requests@.len() - k,
        {
            let ghost before = requests@;
            requests.push(
                DepRequest::Var(
                    VarDepRequest {
                        namespace: None,
                        key: self.global_var_requests[k].0.clone(),
                        value: self.global_var_requests[k].1.clone(),
                    },
                ),
            );
            proof {
                assert(requests@.take(n as int) =~= before.take(n as int));
                assert forall|j: int| 0 <= j < k + 1 implies is_global_var_request(#[trigger] requests@[n + j], self@.global_vars[j]) by {
                    if j < k {
                        assert(requests@[n + j] == before[n + j]);
                    }
                }
            }
            k = k + 1;
        }
        SubSolveSetup { binary_only: false, trail: t, requests }
    }

    /// The values known for a global var, for the solver to choose from;
    /// `None` when none was ever seen. From now on a new value of this var
    /// cancels the solve.
    pub fn global_var_candidates(&mut self, key: &String) -> (r: Option<Vec<String>>)
        ensures
            final(self)@.global_pkg == old(self)@.global_pkg,
            final(self)@.global_vars == old(self)@.global_vars,
            final(self)@.binary_only == old(self)@.binary_only,
            r is None <==> !crate::globals::is_known(old(self)@.vars.known, key@),
            r matches Some(vs) ==> crate::globals::value_texts(vs@) == crate::globals::values_of(
                old(self)@.vars.known,
                key@,
            ),
            final(self)@.vars.known == old(self)@.vars.known,
            final(self)@.vars.cancel == old(self)@.vars.cancel,
            forall|k: Seq<char>| #[trigger] final(self)@.vars.queried.contains(k) <==> (
                old(self)@.vars.queried.contains(k) || k == key@),
    {
        self.vars.candidates(key)
    }

    /// The prerelease policy of the top-level request for a package.
    fn global_prerelease_of(&self, name: &String) -> (r: Option<PreReleasePolicy>)
        ensures
            r == global_prerelease(self@.global_pkg, name@),
    {
        proof {
            lemma_find_key(self@.global_pkg, name@);
        }
        match find_global_pkg(&self.global_pkg_requests, name) {
            Some(i) => self.global_pkg_requests[i].1,
            None => None,
        }
    }

    /// The dependencies of a package request: one version set per component
    /// it stands for, as requirements or as constraints by its inclusion
    /// policy.
    pub fn pkg_request_to_known_dependencies(&self, r: &PkgDepRequest) -> (k: KnownDeps)
        ensures
            k.requirements@ == pkg_deps(*r, self@.global_pkg).requirements,
            k.constrains@ == pkg_deps(*r, self@.global_pkg).constrains,
    {
        let components = if r.components.len() > 0 {
            copy_components(&r.components)
        } else if r.build_is_source {
            vec![Component::Source]
        } else {
            vec![Component::Run]
        };
        proof {
            assert(components@ =~= dep_components(*r));
        }
        let prerelease = if r.prerelease.is_none() {
            match self.global_prerelease_of(&r.name) {
                Some(PreReleasePolicy::IncludeAll) => Some(PreReleasePolicy::IncludeAll),
                _ => r.prerelease,
            }
        } else {
            r.prerelease
        };
        let ghost sets = pkg_sets(*r, self@.global_pkg);
        let mut out: Vec<VersionSet> = Vec::new();
        let mut i: usize = 0;
        while i < components.len()
            invariant
                0 <= i <= components@.len(),
                components@ == dep_components(*r),
                prerelease == effective_prerelease(*r, self@.global_pkg),
                sets == pkg_sets(*r, self@.global_pkg),
                out@ == sets.take(i as int),
            decreases components@.len() - i,
        {
            let c = components[i].clone();
            out.push(
                VersionSet {
                    name: DepName::Pkg { name: r.name.clone(), component: SyntheticComponent::Actual(c.clone()) },
                    kind: VersionSetKind::PkgComponent { component: c, prerelease },
                },
            );
            proof {
                assert(out@ =~= sets.take(i + 1));
            }
            i = i + 1;
        }
        proof {
            assert(sets.take(components@.len() as int) =~= sets);
        }
        match r.inclusion {
            InclusionPolicy::Always => KnownDeps { requirements: out, constrains: Vec::new() },
            InclusionPolicy::IfAlreadyPresent => KnownDeps { requirements: Vec::new(), constrains: out },
        }
    }

    /// The dependencies of a request. A global var request also records its
    /// value as seen, which cancels the solve when it is a new value of a
    /// var whose candidates were already given out.
    pub fn request_to_known_dependencies(&mut self, r: &DepRequest) -> (k: KnownDeps)
        ensures
            k.requirements@ == request_deps(*r, old(self)@.global_pkg).requirements,
            k.constrains@ == request_deps(*r, old(self)@.global_pkg).constrains,
            final(self)@ == (SpkProviderView {
                vars: observed_all(old(self)@.vars, request_deps(*r, old(self)@.global_pkg).observed),
                ..old(self)@
            }),
    {
        match r {
            DepRequest::Pkg(p) => {
                let k = self.pkg_request_to_known_dependencies(p);
                proof {
                    assert(observed_all(old(self)@.vars, Seq::empty()) == old(self)@.vars);
                }
                k
            },
            DepRequest::Var(v) => match &v.namespace {
                Some(ns) => {
                    let mut constrains: Vec<VersionSet> = Vec::new();
                    constrains.push(
                        VersionSet {
                            name: DepName::Pkg { name: ns.clone(), component: SyntheticComponent::Base },
                            kind: VersionSetKind::Var(copy_var_request(v)),
                        },
                    );
                    proof {
                        assert(constrains@ =~= var_deps(*v).constrains);
                        assert(Seq::<VersionSet>::empty() =~= var_deps(*v).requirements);
                        assert(observed_all(old(self)@.vars, Seq::empty()) == old(self)@.vars);
                        assert(var_deps(*v).observed =~= Seq::empty());
                    }
                    KnownDeps { requirements: Vec::new(), constrains }
                },
                None => {
                    self.vars.observe(&v.key, &v.value);
                    let mut requirements: Vec<VersionSet> = Vec::new();
                    requirements.push(
                        VersionSet {
                            name: DepName::GlobalVar(v.key.clone()),
                            kind: VersionSetKind::GlobalVarValue(v.value.clone()),
                        },
                    );
                    let mut constrains: Vec<VersionSet> = Vec::new();
                    constrains.push(
                        VersionSet {
                            name: DepName::GlobalVar(v.key.clone()),
                            kind: VersionSetKind::Var(copy_var_request(v)),
                        },
                    );
                    proof {
                        let seen = var_deps(*v).observed;
                        assert(seen.drop_last() =~= Seq::empty());
                        assert(requirements@ =~= var_deps(*v).requirements);
                        assert(constrains@ =~= var_deps(*v).constrains);
                        assert(self@.vars == observed_all(old(self)@.vars, seen));
                    }
                    KnownDeps { requirements, constrains }
                },
            },
        }
    }

    /// The dependencies of a list of requests, in order.
    pub fn requests_to_known_dependencies(&mut self, rs: &Vec<DepRequest>) -> (k: KnownDeps)
        ensures
            k.requirements@ == requests_deps(rs@, old(self)@.global_pkg).requirements,
            k.constrains@ == requests_deps(rs@, old(self)@.global_pkg).constrains,
            final(self)@ == (SpkProviderView {
                vars: observed_all(old(self)@.vars, requests_deps(rs@, old(self)@.global_pkg).observed),
                ..old(self)@
            }),
    {
        let mut requirements: Vec<VersionSet> = Vec::new();
        let mut constrains: Vec<VersionSet> = Vec::new();
        let mut i: usize = 0;
        while i < rs.len()
            invariant
                0 <= i <= rs@.len(),
                self@.global_pkg == old(self)@.global_pkg,
                requirements@ == requests_deps(rs@.take(i as int), old(self)@.global_pkg).requirements,
                constrains@ == requests_deps(rs@.take(i as int), old(self)@.global_pkg).constrains,
                self@ == (SpkProviderView {
                    vars: observed_all(
                        old(self)@.vars,
                        requests_deps(rs@.take(i as int), old(self)@.global_pkg).observed,
                    ),
                    ..old(self)@
                }),
            decreases rs@.len() - i,
        {
            let ghost before = self@.vars;
            let ghost prefix = requests_deps(rs@.take(i as int), old(self)@.global_pkg);
            let k = self.request_to_known_dependencies(&rs[i]);
            push_all(&mut requirements, k.requirements);
            push_all(&mut constrains, k.constrains);
            proof {
                assert(rs@.take(i + 1).drop_last() =~= rs@.take(i as int));
                let part = request_deps(rs@[i as int], old(self)@.global_pkg);
                lemma_observed_all_append(old(self)@.vars, prefix.observed, part.observed);
                assert(prefix.observed + part.observed == requests_deps(
                    rs@.take(i + 1),
                    old(self)@.global_pkg,
                ).observed);
            }
            i = i + 1;
        }
        proof {
            assert(rs@.take(rs@.len() as int) =~= rs@);
        }
        KnownDeps { requirements, constrains }
    }

    /// The requirements of the package requests among `rs`, in order; var
    /// requests and constraints are left out.
    pub fn dep_pkg_requirements(&self, rs: &Vec<DepRequest>) -> (r: Vec<VersionSet>)
        ensures
            r@ == pkg_requirements_of(rs@, self@.global_pkg),
    {
        let mut out: Vec<VersionSet> = Vec::new();
        let mut i: usize = 0;
        while i < rs.len()
            invariant
                0 <= i <= rs@.len(),
                out@ == pkg_requirements_of(rs@.take(i as int), self@.global_pkg),
            decreases rs@.len() - i,
        {
            proof {
                assert(rs@.take(i + 1).drop_last() =~= rs@.take(i as int));
            }
            match &rs[i] {
                DepRequest::Pkg(p) => {
                    let k = self.pkg_request_to_known_dependencies(p);
                    push_all(&mut out, k.requirements);
                },
                DepRequest::Var(_) => {
                    proof {
                        assert(out@ + Seq::<VersionSet>::empty() =~= out@);
                    }
                },
            }
            i = i + 1;
        }
        proof {
            assert(rs@.take(rs@.len() as int) =~= rs@);
        }
        out
    }

    /// Record the top-level package requests among `rs` as the global
    /// package requests (a later request for a package replaces an earlier
    /// one) and return their requirements.
    pub fn root_pkg_requirements(&mut self, rs: &Vec<DepRequest>) -> (r: Vec<VersionSet>)
        ensures
            final(self)@ == (SpkProviderView {
                global_pkg: root_requirements(old(self)@.global_pkg, rs@).0,
                ..old(self)@
            }),
            r@ == root_requirements(old(self)@.global_pkg, rs@).1,
            keys_unique(old(self)@.global_pkg) ==> keys_unique(final(self)@.global_pkg),
    {
        let mut out: Vec<VersionSet> = Vec::new();
        let mut i: usize = 0;
        while i < rs.len()
            invariant
                0 <= i <= rs@.len(),
                self@ == (SpkProviderView {
                    global_pkg: root_requirements(old(self)@.global_pkg, rs@.take(i as int)).0,
                    ..old(self)@
                }),
                out@ == root_requirements(old(self)@.global_pkg, rs@.take(i as int)).1,
                keys_unique(old(self)@.global_pkg) ==> keys_unique(self@.global_pkg),
            decreases rs@.len() - i,
        {
            proof {
                assert(rs@.take(i + 1).drop_last() =~= rs@.take(i as int));
            }
            match &rs[i] {
                DepRequest::Pkg(p) => {
                    let ghost g = self@.global_pkg;
                    proof {
                        lemma_find_key(g, p.name@);
                    }
                    match find_global_pkg(&self.global_pkg_requests, &p.name) {
                        Some(j) => {
                            self.global_pkg_requests.set(j, (p.name.clone(), p.prerelease));
                        },
                        None => {
                            self.global_pkg_requests.push((p.name.clone(), p.prerelease));
                        },
                    }
                    proof {
                        assert(self@.global_pkg =~= record_global(g, p.name@, p.prerelease));
                        if keys_unique(g) {
                            match find_key(g, p.name@) {
                                Some(j) => lemma_keys_unique_update(g, j, p.prerelease),
                                None => lemma_keys_unique_push(g, p.name@, p.prerelease),
                            }
                        }
                    }
                    let k = self.pkg_request_to_known_dependencies(p);
                    push_all(&mut out, k.requirements);
                },
                DepRequest::Var(_) => {},
            }
            i = i + 1;
        }
        proof {
            assert(rs@.take(rs@.len() as int) =~= rs@);
        }
        out
    }

    /// Record the top-level global var requests among `rs` (a later request
    /// for a var replaces an earlier one) and make their values known;
    /// return the constraints that the var requests of packages bring.
    pub fn var_requirements(&mut self, rs: &Vec<DepRequest>) -> (r: Vec<VersionSet>)
        ensures
            final(self)@.global_pkg == old(self)@.global_pkg,
            final(self)@.binary_only == old(self)@.binary_only,
            final(self)@.global_vars == root_var_requests(old(self)@.global_vars, rs@).0,
            r@ == root_var_requests(old(self)@.global_vars, rs@).1,
            final(self)@.vars.known == learned_all(old(self)@.vars.known, root_var_requests(
                old(self)@.global_vars,
                rs@,
            ).2),
            final(self)@.vars.queried == old(self)@.vars.queried,
            final(self)@.vars.cancel == old(self)@.vars.cancel,
            keys_unique(old(self)@.global_vars) ==> keys_unique(final(self)@.global_vars),
            tables_wf(old(self)@.vars) ==> tables_wf(final(self)@.vars),
    {
        let mut out: Vec<VersionSet> = Vec::new();
        let mut i: usize = 0;
        while i < rs.len()
            invariant
                0 <= i <= rs@.len(),
                self@.global_pkg == old(self)@.global_pkg,
                self@.binary_only == old(self)@.binary_only,
                self@.global_vars == root_var_requests(old(self)@.global_vars, rs@.take(i as int)).0,
                out@ == root_var_requests(old(self)@.global_vars, rs@.take(i as int)).1,
                self@.vars.known == learned_all(
                    old(self)@.vars.known,
                    root_var_requests(old(self)@.global_vars, rs@.take(i as int)).2,
                ),
                self@.vars.queried == old(self)@.vars.queried,
                self@.vars.cancel == old(self)@.vars.cancel,
                keys_unique(old(self)@.global_vars) ==> keys_unique(self@.global_vars),
                tables_wf(old(self)@.vars) ==> tables_wf(self@.vars),
            decreases rs@.len() - i,
        {
            proof {
                assert(rs@.take(i + 1).drop_last() =~= rs@.take(i as int));
            }
            match &rs[i] {
                DepRequest::Var(v) => match &v.namespace {
                    Some(ns) => {
                        out.push(
                            VersionSet {
                                name: DepName::Pkg { name: ns.clone(), component: SyntheticComponent::Base },
                                kind: VersionSetKind::Var(copy_var_request(v)),
                            },
                        );
                    },
                    None => {
                        let ghost g = self@.global_vars;
                        proof {
                            lemma_find_key(g, v.key@);
                        }
                        match find_global_var(&self.global_var_requests, &v.key) {
                            Some(j) => {
                                self.global_var_requests.set(j, (v.key.clone(), v.value.clone()));
                            },
                            None => {
                                self.global_var_requests.push((v.key.clone(), v.value.clone()));
                            },
                        }
                        proof {
                            assert(self@.global_vars =~= match find_key(g, v.key@) {
                                Some(j) => g.update(j, (v.key@, v.value@)),
                                None => g.push((v.key@, v.value@)),
                            });
                            if keys_unique(g) {
                                match find_key(g, v.key@) {
                                    Some(j) => lemma_keys_unique_update(g, j, v.value@),
                                    None => lemma_keys_unique_push(g, v.key@, v.value@),
                                }
                            }
                        }
                        let ghost learned = root_var_requests(old(self)@.global_vars, rs@.take(i as int)).2;
                        self.vars.learn(&v.key, &v.value);
                        proof {
                            assert(learned.push((v.key@, v.value@)).drop_last() =~= learned);
                        }
                    },
                },
                DepRequest::Pkg(_) => {},
            }
            i = i + 1;
        }
        proof {
            assert(rs@.take(rs@.len() as int) =~= rs@);
        }
        out
    }
}

/// A package embedded by a component: by name, optionally at one version,
/// with the components of it that this component provides.
#[derive(Debug)]
pub struct EmbeddedRef {
    pub name: String,
    pub version: Option<String>,
    pub components: Vec<Component>,
}

/// A component of a package, as dependency building reads it.
#[derive(Debug)]
pub struct ComponentFacts {
    pub name: Component,
    /// The other components of the package that this one uses.
    pub uses: Vec<Component>,
    /// Its install requirements.
    pub requirements: Vec<DepRequest>,
    /// The packages embedded in it.
    pub embedded: Vec<EmbeddedRef>,
}

/// A component of an embedded package, with its install requirements.
#[derive(Debug)]
pub struct EmbeddedComponentFacts {
    pub name: Component,
    pub requirements: Vec<DepRequest>,
}

/// A package embedded in a build.
#[derive(Debug)]
pub struct EmbeddedPackageFacts {
    pub name: String,
    pub version: String,
    pub components: Vec<EmbeddedComponentFacts>,
}

/// A build option of a package: a package option, or a var option with
/// its value, if it has one.
#[derive(Debug)]
pub enum BuildOptionFacts {
    Pkg,
    Var { namespaced: bool, key: String, value: Option<String> },
}

/// What dependency building reads of a package.
#[derive(Debug)]
pub struct PackageFacts {
    pub is_source: bool,
    pub components: Vec<ComponentFacts>,
    pub embedded: Vec<EmbeddedPackageFacts>,
    pub build_options: Vec<BuildOptionFacts>,
    pub runtime_requirements: Vec<DepRequest>,
}

/// A build of a package, one component of it, located in a repository.
/// `ident` is how it is shown.
#[derive(Debug)]
pub struct LocatedBuild {
    pub name: String,
    pub version: String,
    pub ident: String,
    pub component: SyntheticComponent,
}

/// A solvable of the dependency provider.
#[derive(Debug)]
pub enum DepSubject {
    Build(LocatedBuild),
    GlobalVar,
}

/// The package that embeds a stub, as dependency building reads it.
#[derive(Debug)]
pub struct ParentFacts {
    pub name: String,
    pub components: Vec<ComponentFacts>,
}

/// The parent of a build: none when the build is not an embedded stub;
/// otherwise why it could not be had, or what was read of it.
#[derive(Debug)]
pub enum ParentLookup {
    NotEmbedded,
    BadIdent(String),
    ReadFailed(String),
    Found(ParentFacts),
}

/// The dependencies of a solvable, or why they are unknown.
#[derive(Debug)]
pub enum Dependencies {
    Known(KnownDeps),
    Unknown(String),
}

/// The dependencies of a solvable as plain values: the dependencies, or
/// why they are unknown, with the global var values seen either way.
pub enum DepsPlan {
    Known(DepsPart),
    Unknown { message: Seq<char>, observed: Seq<(Seq<char>, Seq<char>)> },
}

/// The requirement of a non-All component on the base of its own build.
pub open spec fn base_set(b: LocatedBuild) -> VersionSet {
    VersionSet {
        name: DepName::Pkg { name: b.name, component: SyntheticComponent::Base },
        kind: VersionSetKind::SameBuild { component: None },
    }
}

/// The requirement on another component of the same build.
pub open spec fn same_build_set(b: LocatedBuild, c: Component) -> VersionSet {
    VersionSet {
        name: DepName::Pkg { name: b.name, component: SyntheticComponent::Actual(c) },
        kind: VersionSetKind::SameBuild { component: Some(c) },
    }
}

/// The requirements of the All component: every component of the build.
pub open spec fn all_component_sets(b: LocatedBuild, cs: Seq<ComponentFacts>) -> Seq<VersionSet> {
    cs.map_values(|cf: ComponentFacts| same_build_set(b, cf.name))
}

/// The position of the first component named `c`.
pub open spec fn first_named(cs: Seq<ComponentFacts>, c: Component) -> Option<int>
    decreases cs.len(),
{
    if cs.len() == 0 {
        None
    } else {
        match first_named(cs.drop_last(), c) {
            Some(i) => Some(i),
            None => if same_component(cs.last().name, c) {
                Some(cs.len() - 1)
            } else {
                None
            },
        }
    }
}

/// What a component's own entry brings: the components it uses, then the
/// package requirements among its install requirements.
pub open spec fn own_component_sets(
    b: LocatedBuild,
    cs: Seq<ComponentFacts>,
    c: Component,
    globals: Seq<(Seq<char>, Option<PreReleasePolicy>)>,
) -> Seq<VersionSet> {
    match first_named(cs, c) {
        Some(i) => cs[i].uses@.map_values(|u: Component| same_build_set(b, u)) + pkg_requirements_of(
            cs[i].requirements@,
            globals,
        ),
        None => Seq::empty(),
    }
}

/// An embedded reference names the package, at its version or at any.
pub open spec fn ref_matches(r: EmbeddedRef, name: Seq<char>, version: Seq<char>) -> bool {
    &&& r.name@ == name
    &&& r.version matches Some(v) ==> v@ == version
}

/// A component embeds the package at the version.
pub open spec fn component_embeds(cf: ComponentFacts, name: Seq<char>, version: Seq<char>) -> bool {
    exists|j: int| 0 <= j < cf.embedded@.len() && ref_matches(#[trigger] cf.embedded@[j], name, version)
}

/// An embedded package is a dependency of component `c` when no component
/// is said to embed it, or when `c` is one of those that do.
pub open spec fn embedded_applies(cs: Seq<ComponentFacts>, e: EmbeddedPackageFacts, c: Component) -> bool {
    ||| !(exists|i: int| 0 <= i < cs.len() && component_embeds(#[trigger] cs[i], e.name@, e.version@))
    ||| exists|i: int|
        0 <= i < cs.len() && component_embeds(#[trigger] cs[i], e.name@, e.version@) && same_component(
            cs[i].name,
            c,
        )
}

/// Which components depend on an embedded package: where some component
/// of the package lists it, exactly the components of that name do; where
/// none lists it, every component does.
pub proof fn lemma_embedded_only_where_listed(cs: Seq<ComponentFacts>, e: EmbeddedPackageFacts, c: Component)
    ensures
        (exists|i: int| 0 <= i < cs.len() && component_embeds(#[trigger] cs[i], e.name@, e.version@)) && (forall|
            i: int,
        |
            0 <= i < cs.len() && component_embeds(#[trigger] cs[i], e.name@, e.version@) ==> !same_component(
                cs[i].name,
                c,
            )) ==> !embedded_applies(cs, e, c),
        (exists|i: int|
            0 <= i < cs.len() && component_embeds(#[trigger] cs[i], e.name@, e.version@) && same_component(
                cs[i].name,
                c,
            )) ==> embedded_applies(cs, e, c),
        !(exists|i: int| 0 <= i < cs.len() && component_embeds(#[trigger] cs[i], e.name@, e.version@))
            ==> embedded_applies(cs, e, c),
{
}

/// Some component of the package lists the embedded package, and none of
/// those is named `c`.
pub open spec fn listed_only_elsewhere(cs: Seq<ComponentFacts>, e: EmbeddedPackageFacts, c: Component) -> bool {
    &&& exists|i: int| 0 <= i < cs.len() && component_embeds(#[trigger] cs[i], e.name@, e.version@)
    &&& forall|i: int|
        0 <= i < cs.len() && component_embeds(#[trigger] cs[i], e.name@, e.version@) ==> !same_component(
            cs[i].name,
            c,
        )
}

/// A component depends on none of the embedded packages that the package
/// lists only under other components: they bring it no dependency.
pub proof fn lemma_unlisted_embedded_bring_nothing(
    b: LocatedBuild,
    cs: Seq<ComponentFacts>,
    es: Seq<EmbeddedPackageFacts>,
    c: Component,
    globals: Seq<(Seq<char>, Option<PreReleasePolicy>)>,
    rs: Seq<DepRequest>,
)
    requires
        forall|k: int| 0 <= k < es.len() ==> listed_only_elsewhere(cs, #[trigger] es[k], c),
    ensures
        embedded_deps(b, cs, es, c, globals, rs) == no_deps(),
    decreases es.len(),
{
    if es.len() > 0 {
        assert forall|k: int| 0 <= k < es.drop_last().len() implies listed_only_elsewhere(
            cs,
            #[trigger] es.drop_last()[k],
            c,
        ) by {
            assert(es.drop_last()[k] == es[k]);
        }
        lemma_unlisted_embedded_bring_nothing(b, cs, es.drop_last(), c, globals, rs);
        lemma_embedded_only_where_listed(cs, es.last(), c);
        assert(listed_only_elsewhere(cs, es[es.len() - 1], c));
        let nd = no_deps();
        assert(join_deps(nd, nd) =~= nd);
    }
}

/// The requests of the components of an embedded package named `c`.
pub open spec fn embedded_component_deps(
    ecs: Seq<EmbeddedComponentFacts>,
    c: Component,
    globals: Seq<(Seq<char>, Option<PreReleasePolicy>)>,
) -> DepsPart
    decreases ecs.len(),
{
    if ecs.len() == 0 {
        no_deps()
    } else {
        join_deps(
            embedded_component_deps(ecs.drop_last(), c, globals),
            if same_component(ecs.last().name, c) {
                requests_deps(ecs.last().requirements@, globals)
            } else {
                no_deps()
            },
        )
    }
}

/// The dependencies one embedded package brings to component `c`: its stub,
/// then the requests of its components of the same name.
pub open spec fn one_embedded_deps(
    b: LocatedBuild,
    e: EmbeddedPackageFacts,
    c: Component,
    globals: Seq<(Seq<char>, Option<PreReleasePolicy>)>,
    rs: Seq<DepRequest>,
) -> DepsPart {
    join_deps(
        DepsPart {
            requirements: seq![
                VersionSet {
                    name: DepName::Pkg { name: e.name, component: b.component },
                    kind: VersionSetKind::EmbeddedStub { version: e.version, options: request_options(rs, e.name@) },
                },
            ],
            ..no_deps()
        },
        embedded_component_deps(e.components@, c, globals),
    )
}

/// The dependencies the embedded packages of a build bring to component `c`.
pub open spec fn embedded_deps(
    b: LocatedBuild,
    cs: Seq<ComponentFacts>,
    es: Seq<EmbeddedPackageFacts>,
    c: Component,
    globals: Seq<(Seq<char>, Option<PreReleasePolicy>)>,
    rs: Seq<DepRequest>,
) -> DepsPart
    decreases es.len(),
{
    if es.len() == 0 {
        no_deps()
    } else {
        join_deps(
            embedded_deps(b, cs, es.drop_last(), c, globals, rs),
            if embedded_applies(cs, es.last(), c) {
                one_embedded_deps(b, es.last(), c, globals, rs)
            } else {
                no_deps()
            },
        )
    }
}

/// The parent components that embed component `c` of the stub, one entry
/// per embedding reference.
pub open spec fn parent_refs(parent_name: String, pc: ComponentFacts, b: LocatedBuild, c: Component, refs: Seq<
    EmbeddedRef,
>, rs: Seq<DepRequest>) -> Seq<VersionSet>
    decreases refs.len(),
{
    if refs.len() == 0 {
        Seq::empty()
    } else {
        parent_refs(parent_name, pc, b, c, refs.drop_last(), rs) + if ref_matches(refs.last(), b.name@, b.version@)
            && has_component(refs.last().components@, c) {
            seq![
                VersionSet {
                    name: DepName::Pkg { name: parent_name, component: SyntheticComponent::Actual(pc.name) },
                    kind: VersionSetKind::ParentComponent { component: pc.name, options: request_options(rs, parent_name@) },
                },
            ]
        } else {
            Seq::empty()
        }
    }
}

/// The requirements on the parent components that embed component `c` of
/// the stub.
pub open spec fn parent_component_sets(parent: ParentFacts, pcs: Seq<ComponentFacts>, b: LocatedBuild, c: Component, rs: Seq<DepRequest>) -> Seq<
    VersionSet,
>
    decreases pcs.len(),
{
    if pcs.len() == 0 {
        Seq::empty()
    } else {
        parent_component_sets(parent, pcs.drop_last(), b, c, rs) + parent_refs(
            parent.name,
            pcs.last(),
            b,
            c,
            pcs.last().embedded@, rs,)
    }
}

/// The requirements a stub has on its parent: the parent components that
/// embed it, or, when none is found, the parent's run component.
pub open spec fn parent_sets(parent: ParentFacts, b: LocatedBuild, c: Component, rs: Seq<DepRequest>) -> Seq<VersionSet> {
    let found = parent_component_sets(parent, parent.components@, b, c, rs);
    if found.len() > 0 {
        found
    } else {
        seq![
            VersionSet {
                name: DepName::Pkg { name: parent.name, component: SyntheticComponent::Actual(Component::Run) },
                kind: VersionSetKind::ParentRun,
            },
        ]
    }
}

/// The constraints that a build's global var options bring, with the
/// values they make seen.
pub open spec fn options_deps(opts: Seq<BuildOptionFacts>) -> DepsPart
    decreases opts.len(),
{
    if opts.len() == 0 {
        no_deps()
    } else {
        join_deps(
            options_deps(opts.drop_last()),
            match opts.last() {
                BuildOptionFacts::Var { namespaced: false, key, value: Some(v) } => DepsPart {
                    constrains: seq![
                        VersionSet { name: DepName::GlobalVar(key), kind: VersionSetKind::GlobalVarValue(v) },
                    ],
                    observed: seq![(key@, v@)],
                    ..no_deps()
                },
                _ => no_deps(),
            },
        )
    }
}

/// The dependencies of a solvable: the plan the provider follows.
pub open spec fn dependencies_plan(
    globals: Seq<(Seq<char>, Option<PreReleasePolicy>)>,
    subject: DepSubject,
    package: Result<PackageFacts, String>,
    parent: ParentLookup,
) -> DepsPlan {
    match subject {
        DepSubject::GlobalVar => DepsPlan::Known(no_deps()),
        DepSubject::Build(b) => match b.component {
            SyntheticComponent::Base => DepsPlan::Known(no_deps()),
            SyntheticComponent::Actual(c) => match package {
                Err(e) => DepsPlan::Unknown { message: e@, observed: Seq::empty() },
                Ok(pkg) => if c is All {
                    DepsPlan::Known(
                        DepsPart { requirements: all_component_sets(b, pkg.components@), ..no_deps() },
                    )
                } else {
                    let head = join_deps(
                        DepsPart {
                            requirements: seq![base_set(b)] + own_component_sets(b, pkg.components@, c, globals),
                            ..no_deps()
                        },
                        if pkg.is_source {
                            no_deps()
                        } else {
                            embedded_deps(b, pkg.components@, pkg.embedded@, c, globals, pkg.runtime_requirements@)
                        },
                    );
                    let tail = join_deps(
                        options_deps(pkg.build_options@),
                        requests_deps(pkg.runtime_requirements@, globals),
                    );
                    match parent {
                        ParentLookup::NotEmbedded => DepsPlan::Known(join_deps(head, tail)),
                        ParentLookup::BadIdent(e) => DepsPlan::Unknown {
                            message: "failed to get valid parent ident for '"@ + b.ident@ + "': "@ + e@,
                            observed: head.observed,
                        },
                        ParentLookup::ReadFailed(e) => DepsPlan::Unknown {
                            message: "failed to read parent package for '"@ + b.ident@ + "': "@ + e@,
                            observed: head.observed,
                        },
                        ParentLookup::Found(p) => DepsPlan::Known(
                            join_deps(
                                join_deps(head, DepsPart { requirements: parent_sets(p, b, c, pkg.runtime_requirements@), ..no_deps() }),
                                tail,
                            ),
                        ),
                    }
                },
            },
        },
    }
}

/// The var requests among a build's requirements that name the package
/// `ns`: the options that its requests for `ns` carry.
pub open spec fn namespaced_options(rs: Seq<DepRequest>, ns: Seq<char>) -> Seq<VarDepRequest>
    decreases rs.len(),
{
    if rs.len() == 0 {
        Seq::empty()
    } else {
        namespaced_options(rs.drop_last(), ns) + match rs.last() {
            DepRequest::Var(v) => if v.namespace matches Some(n) && n@ == ns {
                seq![v]
            } else {
                Seq::empty()
            },
            DepRequest::Pkg(_) => Seq::empty(),
        }
    }
}

/// Two var requests name the same var.
pub open spec fn same_var(a: VarDepRequest, b: VarDepRequest) -> bool {
    &&& a.key@ == b.key@
    &&& match (a.namespace, b.namespace) {
        (Some(x), Some(y)) => x@ == y@,
        (None, None) => true,
        _ => false,
    }
}

/// One of `s` names the same var as `v`.
pub open spec fn named_in(s: Seq<VarDepRequest>, v: VarDepRequest) -> bool {
    exists|j: int| 0 <= j < s.len() && same_var(#[trigger] s[j], v)
}

/// The var requests, each var once, with its last request.
pub open spec fn last_per_var(s: Seq<VarDepRequest>) -> Seq<VarDepRequest>
    decreases s.len(),
{
    if s.len() == 0 {
        s
    } else if named_in(s.drop_first(), s[0]) {
        last_per_var(s.drop_first())
    } else {
        seq![s[0]] + last_per_var(s.drop_first())
    }
}

/// The options list of var requests, in order.
pub open spec fn options_list(s: Seq<VarDepRequest>) -> VarOptions
    decreases s.len(),
{
    if s.len() == 0 {
        VarOptions::End
    } else {
        VarOptions::Then(s[0], Box::new(options_list(s.drop_first())))
    }
}

/// The options that a build's requests for the package `ns` carry: its var
/// requirements that name `ns`, each var once with the value of its last
/// request.
pub open spec fn request_options(rs: Seq<DepRequest>, ns: Seq<char>) -> VarOptions {
    options_list(last_per_var(namespaced_options(rs, ns)))
}

fn same_var_exec(a: &VarDepRequest, b: &VarDepRequest) -> (r: bool)
    ensures
        r == same_var(*a, *b),
{
    if a.key != b.key {
        return false;
    }
    match (&a.namespace, &b.namespace) {
        (Some(x), Some(y)) => *x == *y,
        (None, None) => true,
        _ => false,
    }
}

/// The options that the requests among `rs` for the package `ns` carry.
pub fn options_for(rs: &Vec<DepRequest>, ns: &String) -> (r: VarOptions)
    ensures
        r == request_options(rs@, ns@),
{
    let vs = var_options_for(rs, ns);
    let mut acc = VarOptions::End;
    let mut i: usize = vs.len();
    proof {
        assert(vs@.skip(i as int) =~= Seq::<VarDepRequest>::empty());
    }
    while i > 0
        invariant
            0 <= i <= vs@.len(),
            vs@ == namespaced_options(rs@, ns@),
            acc == options_list(last_per_var(vs@.skip(i as int))),
        decreases i,
    {
        let v = &vs[i - 1];
        let mut later = false;
        let mut j: usize = i;
        while j < vs.len()
            invariant
                i <= j <= vs@.len(),
                0 < i <= vs@.len(),
                later == exists|k: int| i <= k < j && same_var(#[trigger] vs@[k], *v),
            decreases vs@.len() - j,
        {
            if same_var_exec(&vs[j], v) {
                later = true;
            }
            j = j + 1;
        }
        let ghost tail = vs@.skip(i as int);
        let ghost whole = vs@.skip(i - 1);
        proof {
            assert(whole.drop_first() =~= tail);
            assert(whole[0] == vs@[i - 1]);
            if later {
                let k = choose|k: int| i <= k < vs@.len() && same_var(#[trigger] vs@[k], *v);
                assert(tail[k - i] == vs@[k]);
            } else {
                assert forall|k: int| 0 <= k < tail.len() implies !same_var(#[trigger] tail[k], *v) by {
                    assert(tail[k] == vs@[k + i]);
                }
            }
        }
        if !later {
            acc = VarOptions::Then(copy_var_request(v), Box::new(acc));
            proof {
                let l = last_per_var(whole);
                assert(l == seq![whole[0]] + last_per_var(tail));
                assert(l.drop_first() =~= last_per_var(tail));
            }
        }
        i = i - 1;
    }
    proof {
        assert(vs@.skip(0) =~= vs@);
    }
    acc
}

/// The var requests among `rs` that name the package `ns`.
pub fn var_options_for(rs: &Vec<DepRequest>, ns: &String) -> (r: Vec<VarDepRequest>)
    ensures
        r@ == namespaced_options(rs@, ns@),
{
    let mut out: Vec<VarDepRequest> = Vec::new();
    let mut i: usize = 0;
    while i < rs.len()
        invariant
            0 <= i <= rs@.len(),
            out@ == namespaced_options(rs@.take(i as int), ns@),
        decreases rs@.len() - i,
    {
        proof {
            assert(rs@.take(i + 1).drop_last() =~= rs@.take(i as int));
        }
        match &rs[i] {
            DepRequest::Var(v) => {
                let named = match &v.namespace {
                    Some(n) => *n == *ns,
                    None => false,
                };
                if named {
                    out.push(copy_var_request(v));
                    proof {
                        assert(out@ =~= namespaced_options(rs@.take(i + 1), ns@));
                    }
                } else {
                    proof {
                        assert(out@ =~= namespaced_options(rs@.take(i + 1), ns@));
                    }
                }
            },
            DepRequest::Pkg(_) => {
                proof {
                    assert(out@ =~= namespaced_options(rs@.take(i + 1), ns@));
                }
            },
        }
        i = i + 1;
    }
    proof {
        assert(rs@.take(rs@.len() as int) =~= rs@);
    }
    out
}

fn copy_synthetic(c: &SyntheticComponent) -> (r: SyntheticComponent)
    ensures
        r == *c,
{
    c.clone()
}

fn same_build(b: &LocatedBuild, c: &Component) -> (r: VersionSet)
    ensures
        r == same_build_set(*b, *c),
{
    VersionSet {
        name: DepName::Pkg { name: b.name.clone(), component: SyntheticComponent::Actual(c.clone()) },
        kind: VersionSetKind::SameBuild { component: Some(c.clone()) },
    }
}

fn ref_matches_exec(r: &EmbeddedRef, name: &String, version: &String) -> (m: bool)
    ensures
        m == ref_matches(*r, name@, version@),
{
    r.name == *name && match &r.version {
        Some(v) => *v == *version,
        None => true,
    }
}

fn component_embeds_exec(cf: &ComponentFacts, name: &String, version: &String) -> (m: bool)
    ensures
        m == component_embeds(*cf, name@, version@),
{
    let mut j: usize = 0;
    while j < cf.embedded.len()
        invariant
            0 <= j <= cf.embedded@.len(),
            forall|k: int| 0 <= k < j ==> !ref_matches(#[trigger] cf.embedded@[k], name@, version@),
        decreases cf.embedded@.len() - j,
    {
        if ref_matches_exec(&cf.embedded[j], name, version) {
            return true;
        }
        j = j + 1;
    }
    false
}

fn embedded_applies_exec(cs: &Vec<ComponentFacts>, e: &EmbeddedPackageFacts, c: &Component) -> (m: bool)
    ensures
        m == embedded_applies(cs@, *e, *c),
{
    let mut any = false;
    let mut i: usize = 0;
    while i < cs.len()
        invariant
            0 <= i <= cs@.len(),
            any == exists|k: int| 0 <= k < i && component_embeds(#[trigger] cs@[k], e.name@, e.version@),
            forall|k: int|
                0 <= k < i && component_embeds(#[trigger] cs@[k], e.name@, e.version@) ==> !same_component(
                    cs@[k].name,
                    *c,
                ),
        decreases cs@.len() - i,
    {
        if component_embeds_exec(&cs[i], &e.name, &e.version) {
            if cs[i].name.same_as(c) {
                return true;
            }
            any = true;
        }
        i = i + 1;
    }
    !any
}

impl SpkProvider {
    /// The requirements of component `c` from its own entry among the
    /// package's components.
    fn own_component_requirements(&self, b: &LocatedBuild, cs: &Vec<ComponentFacts>, c: &Component) -> (r: Vec<
        VersionSet,
    >)
        ensures
            r@ == own_component_sets(*b, cs@, *c, self@.global_pkg),
    {
        let mut found: Option<usize> = None;
        let mut i: usize = 0;
        while i < cs.len() && found.is_none()
            invariant
                0 <= i <= cs@.len(),
                found matches Some(j) ==> j < cs@.len(),
                found matches Some(j) ==> first_named(cs@, *c) == Some(j as int),
                found is None ==> first_named(cs@.take(i as int), *c) is None,
            decreases cs@.len() - i,
        {
            proof {
                assert(cs@.take(i + 1).drop_last() =~= cs@.take(i as int));
                assert(cs@.take(i + 1).last() == cs@[i as int]);
            }
            if cs[i].name.same_as(c) {
                proof {
                    assert(first_named(cs@.take(i + 1), *c) == Some(i as int));
                    lemma_first_named_prefix(cs@, *c, i as int + 1);
                }
                found = Some(i);
            }
            i = i + 1;
        }
        proof {
            if found is None {
                assert(cs@.take(cs@.len() as int) =~= cs@);
            }
        }
        match found {
            None => Vec::new(),
            Some(j) => {
                let uses = &cs[j].uses;
                let ghost us = uses@.map_values(|u: Component| same_build_set(*b, u));
                let mut out: Vec<VersionSet> = Vec::new();
                let mut k: usize = 0;
                while k < uses.len()
                    invariant
                        0 <= k <= uses@.len(),
                        us == uses@.map_values(|u: Component| same_build_set(*b, u)),
                        out@ == us.take(k as int),
                    decreases uses@.len() - k,
                {
                    out.push(same_build(b, &uses[k]));
                    proof {
                        assert(out@ =~= us.take(k + 1));
                    }
                    k = k + 1;
                }
                proof {
                    assert(us.take(uses@.len() as int) =~= us);
                }
                let reqs = self.dep_pkg_requirements(&cs[j].requirements);
                push_all(&mut out, reqs);
                out
            },
        }
    }

    /// The dependencies the embedded packages of a build bring to component
    /// `c`.
    fn embedded_dependencies(
        &mut self,
        b: &LocatedBuild,
        pkg: &PackageFacts,
        c: &Component,
        requirements: &mut Vec<VersionSet>,
        constrains: &mut Vec<VersionSet>,
    )
        ensures
            final(requirements)@ == old(requirements)@ + embedded_deps(
                *b,
                pkg.components@,
                pkg.embedded@,
                *c,
                old(self)@.global_pkg, pkg.runtime_requirements@,).requirements,
            final(constrains)@ == old(constrains)@ + embedded_deps(
                *b,
                pkg.components@,
                pkg.embedded@,
                *c,
                old(self)@.global_pkg, pkg.runtime_requirements@,).constrains,
            final(self)@ == (SpkProviderView {
                vars: observed_all(
                    old(self)@.vars,
                    embedded_deps(*b, pkg.components@, pkg.embedded@, *c, old(self)@.global_pkg, pkg.runtime_requirements@).observed,
                ),
                ..old(self)@
            }),
    {
        let ghost g = old(self)@.global_pkg;
        let ghost es = pkg.embedded@;
        let ghost r0 = requirements@;
        let ghost c0 = constrains@;
        let mut i: usize = 0;
        while i < pkg.embedded.len()
            invariant
                0 <= i <= es.len(),
                es == pkg.embedded@,
                g == old(self)@.global_pkg,
                requirements@ == r0 + embedded_deps(*b, pkg.components@, es.take(i as int), *c, g, pkg.runtime_requirements@).requirements,
                constrains@ == c0 + embedded_deps(*b, pkg.components@, es.take(i as int), *c, g, pkg.runtime_requirements@).constrains,
                self@ == (SpkProviderView {
                    vars: observed_all(
                        old(self)@.vars,
                        embedded_deps(*b, pkg.components@, es.take(i as int), *c, g, pkg.runtime_requirements@).observed,
                    ),
                    ..old(self)@
                }),
            decreases es.len() - i,
        {
            proof {
                assert(es.take(i + 1).drop_last() =~= es.take(i as int));
            }
            let ghost prev = embedded_deps(*b, pkg.components@, es.take(i as int), *c, g, pkg.runtime_requirements@);
            let e = &pkg.embedded[i];
            if embedded_applies_exec(&pkg.components, e, c) {
                let options = options_for(&pkg.runtime_requirements, &e.name);
                requirements.push(
                    VersionSet {
                        name: DepName::Pkg { name: e.name.clone(), component: copy_synthetic(&b.component) },
                        kind: VersionSetKind::EmbeddedStub { version: e.version.clone(), options },
                    },
                );
                let ghost stub = DepsPart {
                    requirements: seq![
                        VersionSet {
                            name: DepName::Pkg { name: e.name, component: b.component },
                            kind: VersionSetKind::EmbeddedStub {
                                version: e.version,
                                options: request_options(pkg.runtime_requirements@, e.name@),
                            },
                        },
                    ],
                    ..no_deps()
                };
                proof {
                    assert(requirements@ =~= r0 + join_deps(prev, stub).requirements);
                    assert(constrains@ =~= c0 + join_deps(prev, stub).constrains);
                    assert(join_deps(prev, stub).observed =~= prev.observed);
                }
                let ecs = &e.components;
                let mut k: usize = 0;
                while k < ecs.len()
                    invariant
                        0 <= k <= ecs@.len(),
                        ecs == e.components,
                        g == old(self)@.global_pkg,
                        self@.global_pkg == g,
                        requirements@ == r0 + join_deps(
                            join_deps(prev, stub),
                            embedded_component_deps(ecs@.take(k as int), *c, g),
                        ).requirements,
                        constrains@ == c0 + join_deps(
                            join_deps(prev, stub),
                            embedded_component_deps(ecs@.take(k as int), *c, g),
                        ).constrains,
                        self@ == (SpkProviderView {
                            vars: observed_all(
                                old(self)@.vars,
                                join_deps(
                                    join_deps(prev, stub),
                                    embedded_component_deps(ecs@.take(k as int), *c, g),
                                ).observed,
                            ),
                            ..old(self)@
                        }),
                    decreases ecs@.len() - k,
                {
                    proof {
                        assert(ecs@.take(k + 1).drop_last() =~= ecs@.take(k as int));
                    }
                    let ghost before = join_deps(
                        join_deps(prev, stub),
                        embedded_component_deps(ecs@.take(k as int), *c, g),
                    );
                    if ecs[k].name.same_as(c) {
                        let kd = self.requests_to_known_dependencies(&ecs[k].requirements);
                        push_all(requirements, kd.requirements);
                        push_all(constrains, kd.constrains);
                        proof {
                            let part = requests_deps(ecs@[k as int].requirements@, g);
                            lemma_observed_all_append(old(self)@.vars, before.observed, part.observed);
                            assert(requirements@ =~= r0 + join_deps(
                                join_deps(prev, stub),
                                embedded_component_deps(ecs@.take(k + 1), *c, g),
                            ).requirements);
                            assert(constrains@ =~= c0 + join_deps(
                                join_deps(prev, stub),
                                embedded_component_deps(ecs@.take(k + 1), *c, g),
                            ).constrains);
                            assert(before.observed + part.observed =~= join_deps(
                                join_deps(prev, stub),
                                embedded_component_deps(ecs@.take(k + 1), *c, g),
                            ).observed);
                        }
                    } else {
                        proof {
                            assert(requirements@ =~= r0 + join_deps(
                                join_deps(prev, stub),
                                embedded_component_deps(ecs@.take(k + 1), *c, g),
                            ).requirements);
                            assert(constrains@ =~= c0 + join_deps(
                                join_deps(prev, stub),
                                embedded_component_deps(ecs@.take(k + 1), *c, g),
                            ).constrains);
                            assert(before.observed =~= join_deps(
                                join_deps(prev, stub),
                                embedded_component_deps(ecs@.take(k + 1), *c, g),
                            ).observed);
                        }
                    }
                    k = k + 1;
                }
                proof {
                    assert(ecs@.take(ecs@.len() as int) =~= ecs@);
                    let one = one_embedded_deps(*b, es[i as int], *c, g, pkg.runtime_requirements@);
                    assert(join_deps(join_deps(prev, stub), embedded_component_deps(ecs@, *c, g)).requirements
                        =~= join_deps(prev, one).requirements);
                    assert(join_deps(join_deps(prev, stub), embedded_component_deps(ecs@, *c, g)).constrains
                        =~= join_deps(prev, one).constrains);
                    assert(join_deps(join_deps(prev, stub), embedded_component_deps(ecs@, *c, g)).observed
                        =~= join_deps(prev, one).observed);
                }
            } else {
                proof {
                    assert(requirements@ =~= r0 + join_deps(prev, no_deps()).requirements);
                    assert(constrains@ =~= c0 + join_deps(prev, no_deps()).constrains);
                    assert(prev.observed =~= join_deps(prev, no_deps()).observed);
                }
            }
            i = i + 1;
        }
        proof {
            assert(es.take(es.len() as int) =~= es);
        }
    }

    /// The requirements of a stub on its parent.
    fn parent_requirements(
        &self,
        parent: &ParentFacts,
        b: &LocatedBuild,
        c: &Component,
        rs: &Vec<DepRequest>,
    ) -> (r: Vec<VersionSet>)
        ensures
            r@ == parent_sets(*parent, *b, *c, rs@),
    {
        let pcs = &parent.components;
        let mut out: Vec<VersionSet> = Vec::new();
        let mut i: usize = 0;
        while i < pcs.len()
            invariant
                0 <= i <= pcs@.len(),
                pcs == parent.components,
                out@ == parent_component_sets(*parent, pcs@.take(i as int), *b, *c, rs@),
            decreases pcs@.len() - i,
        {
            proof {
                assert(pcs@.take(i + 1).drop_last() =~= pcs@.take(i as int));
            }
            let pc = &pcs[i];
            let ghost start = out@;
            let mut j: usize = 0;
            while j < pc.embedded.len()
                invariant
                    0 <= j <= pc.embedded@.len(),
                    out@ == start + parent_refs(parent.name, *pc, *b, *c, pc.embedded@.take(j as int), rs@),
                decreases pc.embedded@.len() - j,
            {
                proof {
                    assert(pc.embedded@.take(j + 1).drop_last() =~= pc.embedded@.take(j as int));
                }
                let r = &pc.embedded[j];
                if ref_matches_exec(r, &b.name, &b.version) && crate::component::contains_component(
                    &r.components,
                    c,
                ) {
                    let options = options_for(rs, &parent.name);
                    out.push(
                        VersionSet {
                            name: DepName::Pkg {
                                name: parent.name.clone(),
                                component: SyntheticComponent::Actual(pc.name.clone()),
                            },
                            kind: VersionSetKind::ParentComponent { component: pc.name.clone(), options },
                        },
                    );
                }
                proof {
                    assert(out@ =~= start + parent_refs(parent.name, *pc, *b, *c, pc.embedded@.take(j + 1), rs@));
                }
                j = j + 1;
            }
            proof {
                assert(pc.embedded@.take(pc.embedded@.len() as int) =~= pc.embedded@);
            }
            i = i + 1;
        }
        proof {
            assert(pcs@.take(pcs@.len() as int) =~= pcs@);
        }
        if out.len() > 0 {
            out
        } else {
            let mut run: Vec<VersionSet> = Vec::new();
            run.push(
                VersionSet {
                    name: DepName::Pkg {
                        name: parent.name.clone(),
                        component: SyntheticComponent::Actual(Component::Run),
                    },
                    kind: VersionSetKind::ParentRun,
                },
            );
            proof {
                assert(run@ =~= parent_sets(*parent, *b, *c, rs@));
            }
            run
        }
    }

    /// The constraints a build's global var options bring; each such value
    /// is seen, which cancels the solve when it is a new value of a var
    /// whose candidates were already given out.
    fn option_constraints(&mut self, opts: &Vec<BuildOptionFacts>, constrains: &mut Vec<VersionSet>)
        ensures
            final(constrains)@ == old(constrains)@ + options_deps(opts@).constrains,
            options_deps(opts@).requirements.len() == 0,
            final(self)@ == (SpkProviderView {
                vars: observed_all(old(self)@.vars, options_deps(opts@).observed),
                ..old(self)@
            }),
    {
        let ghost c0 = constrains@;
        let mut i: usize = 0;
        while i < opts.len()
            invariant
                0 <= i <= opts@.len(),
                constrains@ == c0 + options_deps(opts@.take(i as int)).constrains,
                options_deps(opts@.take(i as int)).requirements.len() == 0,
                self@ == (SpkProviderView {
                    vars: observed_all(old(self)@.vars, options_deps(opts@.take(i as int)).observed),
                    ..old(self)@
                }),
            decreases opts@.len() - i,
        {
            proof {
                assert(opts@.take(i + 1).drop_last() =~= opts@.take(i as int));
            }
            let ghost prev = options_deps(opts@.take(i as int));
            match &opts[i] {
                BuildOptionFacts::Var { namespaced, key, value } => {
                    if !*namespaced {
                        match value {
                            Some(v) => {
                                self.vars.observe(key, v);
                                constrains.push(
                                    VersionSet {
                                        name: DepName::GlobalVar(key.clone()),
                                        kind: VersionSetKind::GlobalVarValue(v.clone()),
                                    },
                                );
                                proof {
                                    let seen = prev.observed.push((key@, v@));
                                    assert(seen.drop_last() =~= prev.observed);
                                    assert(constrains@ =~= c0 + options_deps(opts@.take(i + 1)).constrains);
                                    assert(seen =~= options_deps(opts@.take(i + 1)).observed);
                                }
                            },
                            None => {
                                proof {
                                    assert(constrains@ =~= c0 + options_deps(opts@.take(i + 1)).constrains);
                                    assert(prev.observed =~= options_deps(opts@.take(i + 1)).observed);
                                }
                            },
                        }
                    } else {
                        proof {
                            assert(constrains@ =~= c0 + options_deps(opts@.take(i + 1)).constrains);
                            assert(prev.observed =~= options_deps(opts@.take(i + 1)).observed);
                        }
                    }
                },
                BuildOptionFacts::Pkg => {
                    proof {
                        assert(constrains@ =~= c0 + options_deps(opts@.take(i + 1)).constrains);
                        assert(prev.observed =~= options_deps(opts@.take(i + 1)).observed);
                    }
                },
            }
            i = i + 1;
        }
        proof {
            assert(opts@.take(opts@.len() as int) =~= opts@);
        }
    }
}

/// Whether a build's dependencies and their effect on the provider follow
/// the plan.
pub open spec fn follows_plan(
    before: SpkProviderView,
    after: SpkProviderView,
    r: Dependencies,
    plan: DepsPlan,
) -> bool {
    match plan {
        DepsPlan::Known(p) => {
            &&& r matches Dependencies::Known(k)
            &&& k.requirements@ == p.requirements
            &&& k.constrains@ == p.constrains
            &&& after == (SpkProviderView { vars: observed_all(before.vars, p.observed), ..before })
        },
        DepsPlan::Unknown { message, observed } => {
            &&& r matches Dependencies::Unknown(m)
            &&& m@ == message
            &&& after == (SpkProviderView { vars: observed_all(before.vars, observed), ..before })
        },
    }
}

fn failure_message(prefix: &str, ident: &String, err: &String) -> (r: String)
    ensures
        r@ == prefix@ + ident@ + "': "@ + err@,
{
    let mut m = String::new();
    crate::text::push_text(&mut m, prefix);
    crate::text::push_text(&mut m, ident.as_str());
    crate::text::push_text(&mut m, "': ");
    crate::text::push_text(&mut m, err.as_str());
    proof {
        assert(m@ =~= prefix@ + ident@ + "': "@ + err@);
    }
    m
}

impl SpkProvider {
    /// The dependencies of a solvable, given what was read of its package
    /// (or the error that reading it gave) and, for an embedded stub, of
    /// its parent. The All component depends on every component of its
    /// build; any other component on its build's base, the components it
    /// uses, its own package requirements, the packages embedded in it (not
    /// for a source build), for a stub the parent components that embed it,
    /// the values of the build's global var options (as constraints) and the
    /// build's install requirements. Global var values seen on the way can
    /// cancel the solve.
    pub fn get_dependencies(
        &mut self,
        subject: &DepSubject,
        package: &Result<PackageFacts, String>,
        parent: &ParentLookup,
    ) -> (r: Dependencies)
        ensures
            follows_plan(
                old(self)@,
                final(self)@,
                r,
                dependencies_plan(old(self)@.global_pkg, *subject, *package, *parent),
            ),
    {
        let ghost g = old(self)@.global_pkg;
        proof {
            assert(observed_all(old(self)@.vars, Seq::empty()) == old(self)@.vars);
        }
        let b = match subject {
            DepSubject::GlobalVar => {
                return Dependencies::Known(KnownDeps { requirements: Vec::new(), constrains: Vec::new() });
            },
            DepSubject::Build(b) => b,
        };
        let c = match &b.component {
            SyntheticComponent::Base => {
                return Dependencies::Known(KnownDeps { requirements: Vec::new(), constrains: Vec::new() });
            },
            SyntheticComponent::Actual(c) => c,
        };
        let pkg = match package {
            Err(e) => {
                return Dependencies::Unknown(e.clone());
            },
            Ok(pkg) => pkg,
        };
        if c.is_all() {
            let ghost sets = all_component_sets(*b, pkg.components@);
            let mut requirements: Vec<VersionSet> = Vec::new();
            let mut i: usize = 0;
            while i < pkg.components.len()
                invariant
                    0 <= i <= pkg.components@.len(),
                    sets == all_component_sets(*b, pkg.components@),
                    requirements@ == sets.take(i as int),
                decreases pkg.components@.len() - i,
            {
                requirements.push(same_build(b, &pkg.components[i].name));
                proof {
                    assert(requirements@ =~= sets.take(i + 1));
                }
                i = i + 1;
            }
            proof {
                assert(sets.take(pkg.components@.len() as int) =~= sets);
            }
            return Dependencies::Known(KnownDeps { requirements, constrains: Vec::new() });
        }
        let mut requirements: Vec<VersionSet> = Vec::new();
        requirements.push(
            VersionSet {
                name: DepName::Pkg { name: b.name.clone(), component: SyntheticComponent::Base },
                kind: VersionSetKind::SameBuild { component: None },
            },
        );
        let own = self.own_component_requirements(b, &pkg.components, c);
        push_all(&mut requirements, own);
        let mut constrains: Vec<VersionSet> = Vec::new();
        let ghost head_start = DepsPart {
            requirements: seq![base_set(*b)] + own_component_sets(*b, pkg.components@, *c, g),
            ..no_deps()
        };
        proof {
            assert(requirements@ =~= head_start.requirements);
            assert(constrains@ =~= head_start.constrains);
        }
        if !pkg.is_source {
            self.embedded_dependencies(b, pkg, c, &mut requirements, &mut constrains);
        }
        let ghost head = join_deps(
            head_start,
            if pkg.is_source {
                no_deps()
            } else {
                embedded_deps(*b, pkg.components@, pkg.embedded@, *c, g, pkg.runtime_requirements@)
            },
        );
        proof {
            assert(requirements@ =~= head.requirements);
            assert(constrains@ =~= head.constrains);
            assert(head.observed =~= if pkg.is_source {
                Seq::empty()
            } else {
                embedded_deps(*b, pkg.components@, pkg.embedded@, *c, g, pkg.runtime_requirements@).observed
            });
            assert(self@ == (SpkProviderView { vars: observed_all(old(self)@.vars, head.observed), ..old(self)@ }));
        }
        let ghost mid: DepsPart;
        match parent {
            ParentLookup::NotEmbedded => {
                proof {
                    mid = head;
                }
            },
            ParentLookup::BadIdent(e) => {
                return Dependencies::Unknown(
                    failure_message("failed to get valid parent ident for '", &b.ident, e),
                );
            },
            ParentLookup::ReadFailed(e) => {
                return Dependencies::Unknown(failure_message("failed to read parent package for '", &b.ident, e));
            },
            ParentLookup::Found(p) => {
                let ps = self.parent_requirements(p, b, c, &pkg.runtime_requirements);
                push_all(&mut requirements, ps);
                proof {
                    mid = join_deps(head, DepsPart { requirements: parent_sets(*p, *b, *c, pkg.runtime_requirements@), ..no_deps() });
                    assert(requirements@ =~= mid.requirements);
                    assert(constrains@ =~= mid.constrains);
                    assert(mid.observed =~= head.observed);
                }
            },
        }
        let ghost before_opts = self@.vars;
        self.option_constraints(&pkg.build_options, &mut constrains);
        proof {
            lemma_observed_all_append(old(self)@.vars, mid.observed, options_deps(pkg.build_options@).observed);
            assert(requirements@ =~= mid.requirements + options_deps(pkg.build_options@).requirements);
        }
        let kd = self.requests_to_known_dependencies(&pkg.runtime_requirements);
        push_all(&mut requirements, kd.requirements);
        push_all(&mut constrains, kd.constrains);
        proof {
            let opts = options_deps(pkg.build_options@);
            let rt = requests_deps(pkg.runtime_requirements@, g);
            let tail = join_deps(opts, rt);
            lemma_observed_all_append(old(self)@.vars, mid.observed + opts.observed, rt.observed);
            assert(mid.observed + opts.observed + rt.observed =~= join_deps(mid, tail).observed);
            assert(requirements@ =~= join_deps(mid, tail).requirements);
            assert(constrains@ =~= join_deps(mid, tail).constrains);
        }
        Dependencies::Known(KnownDeps { requirements, constrains })
    }
}

/// The first component named `c` is found among the first `n` components
/// when it is found in those.
pub proof fn lemma_first_named_prefix(cs: Seq<ComponentFacts>, c: Component, n: int)
    requires
        0 <= n <= cs.len(),
        first_named(cs.take(n), c) is Some,
    ensures
        first_named(cs, c) == first_named(cs.take(n), c),
    decreases cs.len(),
{
    if n < cs.len() {
        assert(cs.drop_last().take(n) =~= cs.take(n));
        lemma_first_named_prefix(cs.drop_last(), c, n);
    } else {
        assert(cs.take(n) =~= cs);
    }
}

/// The known values after each var value of `seen` is learned, in order.
pub open spec fn learned_all(
    known: Seq<(Seq<char>, Seq<Seq<char>>)>,
    seen: Seq<(Seq<char>, Seq<char>)>,
) -> Seq<(Seq<char>, Seq<Seq<char>>)>
    decreases seen.len(),
{
    if seen.len() == 0 {
        known
    } else {
        crate::globals::observe_known(learned_all(known, seen.drop_last()), seen.last().0, seen.last().1)
    }
}

/// Seeing `a` then `b` is seeing `a + b`.
pub proof fn lemma_observed_all_append(
    v: GlobalVarsView,
    a: Seq<(Seq<char>, Seq<char>)>,
    b: Seq<(Seq<char>, Seq<char>)>,
)
    ensures
        observed_all(observed_all(v, a), b) == observed_all(v, a + b),
    decreases b.len(),
{
    if b.len() == 0 {
        assert(a + b =~= a);
    } else {
        lemma_observed_all_append(v, a, b.drop_last());
        assert((a + b).drop_last() =~= a + b.drop_last());
        assert((a + b).last() == b.last());
    }
}

} // verus!
