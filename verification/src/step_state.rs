//! The decisions inside one step of the step solver: whether a finished
//! solve lacks the provider of an embedded package, which components of a
//! parent package would bring the missing components of a package it
//! embeds, what to do about a conflicting embedded package, and how a build
//! that cannot be built from source is noted.

use vstd::prelude::*;
use crate::component::{Component, has_component, same_component};
use crate::error::{Error, OutOfOptions};
use crate::notes::{Note, SkipPackageNote};
use crate::step::{Solver, SolverView};
use crate::text::push_text;
use crate::cdcl::find_setting;
use crate::frequency::{find_key, lemma_find_key};
use crate::solvers::option_value;

verus! {

/// A package resolved in the solve so far: its build, as shown, and, for an
/// embedded stub, the build of the package that embeds it.
#[derive(Debug)]
pub struct ResolvedPackage {
    pub ident: String,
    pub embedded_by: Option<String>,
}

/// `r` is a package of the solve itself (not an embedded stub) with the
/// build `p`.
pub open spec fn is_provider(r: ResolvedPackage, p: Seq<char>) -> bool {
    r.embedded_by is None && r.ident@ == p
}

/// The solve holds the package build `p` itself.
pub open spec fn provided(resolved: Seq<ResolvedPackage>, p: Seq<char>) -> bool {
    exists|j: int| 0 <= j < resolved.len() && #[trigger] is_provider(resolved[j], p)
}

/// The `i`-th resolved package is embedded by a build that is not in the
/// solve.
pub open spec fn lacks_provider(resolved: Seq<ResolvedPackage>, i: int) -> bool {
    resolved[i].embedded_by matches Some(p) && !provided(resolved, p@)
}

/// An embedded package whose provider is missing from a solve.
#[derive(Debug)]
pub struct MissingProvider {
    pub embedded: String,
    pub provider: String,
}

/// The note that explains why such a solve is not valid.
pub open spec fn missing_provider_text(m: MissingProvider) -> Seq<char> {
    "Embedded package "@ + m.embedded@ + " missing its provider "@ + m.provider@
}

fn is_provided(resolved: &Vec<ResolvedPackage>, p: &String) -> (r: bool)
    ensures
        r == provided(resolved@, p@),
{
    let mut j: usize = 0;
    while j < resolved.len()
        invariant
            0 <= j <= resolved@.len(),
            forall|k: int| 0 <= k < j ==> !#[trigger] is_provider(resolved@[k], p@),
        decreases resolved@.len() - j,
    {
        if resolved[j].embedded_by.is_none() && resolved[j].ident == *p {
            assert(is_provider(resolved@[j as int], p@));
            return true;
        }
        j = j + 1;
    }
    false
}

/// A solve with no request left may still be invalid: every embedded
/// package in it needs the package that embeds it. Gives an embedded
/// package whose provider is missing, when there is one.
pub fn missing_embed_provider(resolved: &Vec<ResolvedPackage>) -> (r: Option<MissingProvider>)
    ensures
        r is None <==> forall|i: int| 0 <= i < resolved@.len() ==> !#[trigger] lacks_provider(resolved@, i),
        r matches Some(m) ==> exists|i: int|
            0 <= i < resolved@.len() && #[trigger] lacks_provider(resolved@, i) && resolved@[i].ident@
                == m.embedded@ && resolved@[i].embedded_by.unwrap()@ == m.provider@,
{
    let mut i: usize = 0;
    while i < resolved.len()
        invariant
            0 <= i <= resolved@.len(),
            forall|k: int| 0 <= k < i ==> !#[trigger] lacks_provider(resolved@, k),
        decreases resolved@.len() - i,
    {
        match &resolved[i].embedded_by {
            Some(p) => {
                if !is_provided(resolved, p) {
                    assert(lacks_provider(resolved@, i as int));
                    return Some(MissingProvider { embedded: resolved[i].ident.clone(), provider: p.clone() });
                }
            },
            None => {},
        }
        i = i + 1;
    }
    None
}

impl MissingProvider {
    /// The note for the step's failure.
    pub fn note(&self) -> (r: Note)
        ensures
            r matches Note::Other(t) && t@ == missing_provider_text(*self),
    {
        let mut t = String::new();
        push_text(&mut t, "Embedded package ");
        push_text(&mut t, self.embedded.as_str());
        push_text(&mut t, " missing its provider ");
        push_text(&mut t, self.provider.as_str());
        Note::Other(t)
    }
}

/// A package that a component of a parent package embeds, with the
/// components of it that this component provides.
#[derive(Debug)]
pub struct EmbeddedPackage {
    pub name: String,
    pub components: Vec<Component>,
}

/// A component of a package and the packages it embeds.
#[derive(Debug)]
pub struct ParentComponent {
    pub name: Component,
    pub embedded: Vec<EmbeddedPackage>,
}

/// The components of `remaining` that `cs` does not provide.
pub open spec fn not_in(remaining: Seq<Component>, cs: Seq<Component>) -> Seq<Component> {
    remaining.filter(|x: Component| !has_component(cs, x))
}

/// `cs` provides one of the components still missing.
pub open spec fn overlaps(remaining: Seq<Component>, cs: Seq<Component>) -> bool {
    exists|k: int| 0 <= k < remaining.len() && #[trigger] has_component(cs, remaining[k])
}

/// `cs` with `c` added, unless it holds it already.
pub open spec fn add_component(cs: Seq<Component>, c: Component) -> Seq<Component> {
    if has_component(cs, c) {
        cs
    } else {
        cs.push(c)
    }
}

/// One embedded package of the parent component `cname` looked at: when it
/// is the package in question and provides some of the components still
/// missing, those are no longer missing and `cname` is to be requested.
/// The state is the missing components and the components to request.
pub open spec fn cover_step(
    state: (Seq<Component>, Seq<Component>),
    cname: Component,
    ep: EmbeddedPackage,
    embedded: Seq<char>,
) -> (Seq<Component>, Seq<Component>) {
    if ep.name@ == embedded && overlaps(state.0, ep.components@) {
        (not_in(state.0, ep.components@), add_component(state.1, cname))
    } else {
        state
    }
}

/// The embedded packages of one parent component looked at, in order.
pub open spec fn cover_embedded(
    state: (Seq<Component>, Seq<Component>),
    cname: Component,
    eps: Seq<EmbeddedPackage>,
    embedded: Seq<char>,
) -> (Seq<Component>, Seq<Component>)
    decreases eps.len(),
{
    if eps.len() == 0 {
        state
    } else {
        cover_step(cover_embedded(state, cname, eps.drop_last(), embedded), cname, eps.last(), embedded)
    }
}

/// All the parent's components looked at, in order.
pub open spec fn cover_components(
    state: (Seq<Component>, Seq<Component>),
    pcs: Seq<ParentComponent>,
    embedded: Seq<char>,
) -> (Seq<Component>, Seq<Component>)
    decreases pcs.len(),
{
    if pcs.len() == 0 {
        state
    } else {
        cover_embedded(cover_components(state, pcs.drop_last(), embedded), pcs.last().name, pcs.last().embedded@, embedded)
    }
}

/// `a` with each component of `b` added that it does not hold yet.
pub open spec fn union_components(a: Seq<Component>, b: Seq<Component>) -> Seq<Component>
    decreases b.len(),
{
    if b.len() == 0 {
        a
    } else {
        add_component(union_components(a, b.drop_last()), b.last())
    }
}

proof fn lemma_same_component_trans(a: Component, b: Component, c: Component)
    requires
        same_component(a, b),
        same_component(b, c),
    ensures
        same_component(a, c),
{
}

proof fn lemma_add_component(cs: Seq<Component>, x: Component, c: Component)
    ensures
        has_component(add_component(cs, x), c) <==> has_component(cs, c) || same_component(x, c),
{
    if has_component(cs, x) {
        if same_component(x, c) {
            let k = choose|k: int| 0 <= k < cs.len() && same_component(#[trigger] cs[k], x);
            lemma_same_component_trans(cs[k], x, c);
        }
    } else {
        let m = cs.push(x);
        if has_component(cs, c) {
            let k = choose|k: int| 0 <= k < cs.len() && same_component(#[trigger] cs[k], c);
            assert(m[k] == cs[k]);
        }
        if same_component(x, c) {
            assert(m[cs.len() as int] == x);
        }
        if has_component(m, c) {
            let k = choose|k: int| 0 <= k < m.len() && same_component(#[trigger] m[k], c);
            if k < cs.len() {
                assert(m[k] == cs[k]);
            }
        }
    }
}

/// The components requested of a parent package are those requested of it
/// already and those found to provide the missing ones, each once.
pub proof fn lemma_union_components(a: Seq<Component>, b: Seq<Component>, c: Component)
    ensures
        has_component(union_components(a, b), c) <==> has_component(a, c) || has_component(b, c),
    decreases b.len(),
{
    if b.len() > 0 {
        lemma_union_components(a, b.drop_last(), c);
        lemma_add_component(union_components(a, b.drop_last()), b.last(), c);
        if has_component(b, c) {
            let k = choose|k: int| 0 <= k < b.len() && same_component(#[trigger] b[k], c);
            if k < b.len() - 1 {
                assert(b.drop_last()[k] == b[k]);
            } else {
                assert(b[k] == b.last());
            }
        }
        if has_component(b.drop_last(), c) {
            let k = choose|k: int| 0 <= k < b.drop_last().len() && same_component(#[trigger] b.drop_last()[k], c);
            assert(b[k] == b.drop_last()[k]);
        }
        if same_component(b.last(), c) {
            assert(b[b.len() - 1] == b.last());
        }
    }
}

/// The components to request of the parent package so that it brings the
/// `needed` components of the package `embedded` that it embeds, together
/// with those `existing` already requested of it; `None` when its
/// components cannot provide them all.
pub open spec fn parent_components_request(
    pcs: Seq<ParentComponent>,
    embedded: Seq<char>,
    needed: Seq<Component>,
    existing: Seq<Component>,
) -> Option<Seq<Component>> {
    let state = cover_components((needed, Seq::empty()), pcs, embedded);
    if state.0.len() == 0 {
        Some(union_components(existing, state.1))
    } else {
        None
    }
}

fn contains(cs: &Vec<Component>, c: &Component) -> (r: bool)
    ensures
        r == has_component(cs@, *c),
{
    crate::component::contains_component(cs, c)
}

fn overlaps_exec(remaining: &Vec<Component>, cs: &Vec<Component>) -> (r: bool)
    ensures
        r == overlaps(remaining@, cs@),
{
    let mut k: usize = 0;
    while k < remaining.len()
        invariant
            0 <= k <= remaining@.len(),
            forall|j: int| 0 <= j < k ==> !#[trigger] has_component(cs@, remaining@[j]),
        decreases remaining@.len() - k,
    {
        if contains(cs, &remaining[k]) {
            return true;
        }
        k = k + 1;
    }
    false
}

fn not_in_exec(remaining: &Vec<Component>, cs: &Vec<Component>) -> (r: Vec<Component>)
    ensures
        r@ == not_in(remaining@, cs@),
{
    let mut r: Vec<Component> = Vec::new();
    let mut k: usize = 0;
    while k < remaining.len()
        invariant
            0 <= k <= remaining@.len(),
            r@ == not_in(remaining@.take(k as int), cs@),
        decreases remaining@.len() - k,
    {
        proof {
            reveal_with_fuel(Seq::<Component>::filter, 1);
            assert(remaining@.take(k + 1).drop_last() =~= remaining@.take(k as int));
        }
        if !contains(cs, &remaining[k]) {
            r.push(remaining[k].clone());
        }
        k = k + 1;
    }
    proof {
        assert(remaining@.take(remaining@.len() as int) =~= remaining@);
    }
    r
}

fn add_component_exec(cs: &mut Vec<Component>, c: &Component)
    ensures
        final(cs)@ == add_component(old(cs)@, *c),
{
    if !contains(cs, c) {
        cs.push(c.clone());
    }
}

/// The components to request of a parent package for the `needed`
/// components of the package `embedded` it embeds: each of the parent's
/// components (in order) that provides some of those still missing, added
/// to the `existing` components requested of the parent. `None` when the
/// parent's components leave some of them missing, and the build must be
/// skipped.
pub fn embedded_components_request(
    parent: &Vec<ParentComponent>,
    embedded: &String,
    needed: &Vec<Component>,
    existing: &Vec<Component>,
) -> (r: Option<Vec<Component>>)
    ensures
        match r {
            Some(v) => parent_components_request(parent@, embedded@, needed@, existing@) == Some(v@),
            None => parent_components_request(parent@, embedded@, needed@, existing@) is None,
        },
{
    let mut remaining = crate::component::copy_components(needed);
    let mut to_request: Vec<Component> = Vec::new();
    let mut i: usize = 0;
    while i < parent.len()
        invariant
            0 <= i <= parent@.len(),
            (remaining@, to_request@) == cover_components((needed@, Seq::empty()), parent@.take(i as int), embedded@),
        decreases parent@.len() - i,
    {
        proof {
            assert(parent@.take(i + 1).drop_last() =~= parent@.take(i as int));
        }
        let pc = &parent[i];
        let ghost start = (remaining@, to_request@);
        let mut j: usize = 0;
        while j < pc.embedded.len()
            invariant
                0 <= j <= pc.embedded@.len(),
                (remaining@, to_request@) == cover_embedded(start, pc.name, pc.embedded@.take(j as int), embedded@),
            decreases pc.embedded@.len() - j,
        {
            proof {
                assert(pc.embedded@.take(j + 1).drop_last() =~= pc.embedded@.take(j as int));
            }
            let ep = &pc.embedded[j];
            if ep.name == *embedded && overlaps_exec(&remaining, &ep.components) {
                remaining = not_in_exec(&remaining, &ep.components);
                add_component_exec(&mut to_request, &pc.name);
            }
            j = j + 1;
        }
        proof {
            assert(pc.embedded@.take(pc.embedded@.len() as int) =~= pc.embedded@);
        }
        i = i + 1;
    }
    proof {
        assert(parent@.take(parent@.len() as int) =~= parent@);
    }
    if remaining.len() > 0 {
        return None;
    }
    let mut out = crate::component::copy_components(existing);
    let mut k: usize = 0;
    while k < to_request.len()
        invariant
            0 <= k <= to_request@.len(),
            out@ == union_components(existing@, to_request@.take(k as int)),
        decreases to_request@.len() - k,
    {
        proof {
            assert(to_request@.take(k + 1).drop_last() =~= to_request@.take(k as int));
        }
        add_component_exec(&mut out, &to_request[k]);
        k = k + 1;
    }
    proof {
        assert(to_request@.take(to_request@.len() as int) =~= to_request@);
    }
    Some(out)
}

/// What to do with a build that conflicts with an embedded package already
/// in the solve.
#[derive(Debug)]
pub enum ConflictAction {
    /// Skip it: the package is embedded by `embedded_by` already.
    AlreadyEmbedded { embedded: String, embedded_by: String },
    /// Skip it: the conflicting package is an embedded stub of no known
    /// parent.
    ConflictingEmbedded(String),
    /// Step back to before the conflicting package was added and try this
    /// build again.
    Reconsider(String),
}

/// Decide about a build that conflicts with the package `name` of the
/// solve: when that package is itself embedded, the build is skipped
/// (naming the parent that embeds it when its source says so); otherwise
/// the solve goes back to before it was added.
pub fn conflict_action(name: String, conflicting_is_embedded: bool, embedded_by: Option<String>) -> (r: ConflictAction)
    ensures
        !conflicting_is_embedded ==> (r matches ConflictAction::Reconsider(n) && n == name),
        conflicting_is_embedded && embedded_by is None ==> (r matches ConflictAction::ConflictingEmbedded(n)
            && n == name),
        conflicting_is_embedded && embedded_by is Some ==> (r matches ConflictAction::AlreadyEmbedded {
            embedded,
            embedded_by: by,
        } && embedded == name && Some(by) == embedded_by),
{
    if !conflicting_is_embedded {
        ConflictAction::Reconsider(name)
    } else {
        match embedded_by {
            Some(by) => ConflictAction::AlreadyEmbedded { embedded: name, embedded_by: by },
            None => ConflictAction::ConflictingEmbedded(name),
        }
    }
}

/// Why a build that has to be built from source was not used.
#[derive(Debug)]
pub enum SourceBuildCheck {
    /// The build comes embedded in another package; the version's
    /// compatibility, as shown.
    EmbeddedSource(String),
    /// The recipe of the version is deprecated.
    Deprecated,
    /// The recipe is not in the repository.
    RecipeMissing,
    /// The recipe is not compatible with the solve.
    RecipeIncompatible(String),
    /// The build environment of the new build could not be resolved.
    BuildEnvUnresolved(String),
    /// The new build is not compatible with the solve.
    BuildIncompatible(String),
    /// The package could not be built from the recipe.
    BuildFailed(String),
}

/// The reason noted for a build that could not be built from source.
pub open spec fn source_skip_reason(c: SourceBuildCheck) -> Seq<char> {
    match c {
        SourceBuildCheck::EmbeddedSource(compat) => compat@,
        SourceBuildCheck::Deprecated => "cannot build from source, version is deprecated"@,
        SourceBuildCheck::RecipeMissing => "cannot build from source, recipe not available"@,
        SourceBuildCheck::RecipeIncompatible(compat) => "building from source is not possible with this recipe: "@
            + compat@,
        SourceBuildCheck::BuildEnvUnresolved(err) => "cannot resolve build env for source build: "@ + err@,
        SourceBuildCheck::BuildIncompatible(compat) => "building from source not possible: "@ + compat@,
        SourceBuildCheck::BuildFailed(err) => "cannot build package from source: "@ + err@,
    }
}

/// Whether such a build counts as a skipped build: a missing or deprecated
/// recipe does not.
pub open spec fn source_skip_counted(c: SourceBuildCheck) -> bool {
    !(c is Deprecated || c is RecipeMissing)
}

fn source_skip_reason_text(c: &SourceBuildCheck) -> (r: String)
    ensures
        r@ == source_skip_reason(*c),
{
    let mut r = String::new();
    match c {
        SourceBuildCheck::EmbeddedSource(compat) => {
            push_text(&mut r, compat.as_str());
        },
        SourceBuildCheck::Deprecated => {
            push_text(&mut r, "cannot build from source, version is deprecated");
        },
        SourceBuildCheck::RecipeMissing => {
            push_text(&mut r, "cannot build from source, recipe not available");
        },
        SourceBuildCheck::RecipeIncompatible(compat) => {
            push_text(&mut r, "building from source is not possible with this recipe: ");
            push_text(&mut r, compat.as_str());
        },
        SourceBuildCheck::BuildEnvUnresolved(err) => {
            push_text(&mut r, "cannot resolve build env for source build: ");
            push_text(&mut r, err.as_str());
        },
        SourceBuildCheck::BuildIncompatible(compat) => {
            push_text(&mut r, "building from source not possible: ");
            push_text(&mut r, compat.as_str());
        },
        SourceBuildCheck::BuildFailed(err) => {
            push_text(&mut r, "cannot build package from source: ");
            push_text(&mut r, err.as_str());
        },
    }
    r
}

impl Solver {
    /// Note a build that could not be built from source, and count it as
    /// skipped unless its recipe was missing or deprecated. `pkg` and
    /// `pkg_name` name the package the note is about, `reason_class` the
    /// kind of its reason.
    pub fn skip_source_build(
        &mut self,
        notes: &mut Vec<Note>,
        pkg: String,
        pkg_name: String,
        reason_class: u64,
        check: SourceBuildCheck,
    )
        requires
            old(self)@.number_builds_skipped < usize::MAX,
        ensures
            final(notes)@.len() == old(notes)@.len() + 1,
            final(notes)@.take(old(notes)@.len() as int) == old(notes)@,
            final(notes)@.last() matches Note::SkipPackageNote(n) && n.pkg == pkg && n.pkg_name == pkg_name
                && n.reason@ == source_skip_reason(check) && n.reason_class == reason_class,
            source_skip_counted(check) ==> final(self)@ == (SolverView {
                number_builds_skipped: (old(self)@.number_builds_skipped + 1) as usize,
                ..old(self)@
            }),
            !source_skip_counted(check) ==> final(self)@ == old(self)@,
    {
        let reason = source_skip_reason_text(&check);
        let note = SkipPackageNote { pkg, pkg_name, reason, reason_class };
        match check {
            SourceBuildCheck::Deprecated | SourceBuildCheck::RecipeMissing => {
                notes.push(Note::SkipPackageNote(note));
            },
            _ => {
                self.skip_build(notes, note);
            },
        }
        proof {
            assert(notes@.take(old(notes)@.len() as int) =~= old(notes)@);
        }
    }
}


/// The outcome of checking one initial request against the repositories.
#[derive(Debug)]
pub enum InitialCheck {
    /// Some build in the repositories can satisfy it.
    Possible,
    /// No build in the repositories can satisfy it.
    Impossible,
    /// The check itself failed, with this error.
    Failed(String),
}

/// The index of the first check among the first `n` that failed.
pub open spec fn first_failed(results: Seq<InitialCheck>, n: int) -> Option<int>
    decreases n,
{
    if n <= 0 {
        None
    } else {
        match first_failed(results, n - 1) {
            Some(i) => Some(i),
            None => if results[n - 1] is Failed {
                Some(n - 1)
            } else {
                None
            },
        }
    }
}

/// How many of the first `n` initial requests are impossible.
pub open spec fn impossible_count(results: Seq<InitialCheck>, n: int) -> nat
    decreases n,
{
    if n <= 0 {
        0
    } else {
        impossible_count(results, n - 1) + if results[n - 1] is Impossible {
            1nat
        } else {
            0nat
        }
    }
}

/// The verdict on the initial requests, given the outcome of checking each:
/// the first check that failed fails the solve with its error; otherwise
/// the solve fails when any request is impossible, with their number.
pub fn initial_requests_verdict(results: &Vec<InitialCheck>) -> (r: Result<(), Error>)
    ensures
        match first_failed(results@, results@.len() as int) {
            Some(i) => r matches Err(Error::String(m)) && results@[i] matches InitialCheck::Failed(e)
                && m@ == e@,
            None => if impossible_count(results@, results@.len() as int) > 0 {
                r matches Err(Error::InitialRequestsContainImpossibleError(n)) && n == impossible_count(
                    results@,
                    results@.len() as int,
                )
            } else {
                r is Ok
            },
        },
{
    let mut count: usize = 0;
    let mut i: usize = 0;
    while i < results.len()
        invariant
            0 <= i <= results@.len(),
            first_failed(results@, i as int) is None,
            count == impossible_count(results@, i as int),
            count <= i,
        decreases results@.len() - i,
    {
        match &results[i] {
            InitialCheck::Possible => {},
            InitialCheck::Impossible => {
                count = count + 1;
            },
            InitialCheck::Failed(e) => {
                proof {
                    lemma_first_failed_stays(results@, i as int, results@.len() as int);
                }
                return Err(Error::String(e.clone()));
            },
        }
        i = i + 1;
    }
    if count > 0 {
        Err(Error::InitialRequestsContainImpossibleError(count))
    } else {
        Ok(())
    }
}

/// Once a check among the first `n` failed, the first failed check stays
/// the same for any longer prefix.
proof fn lemma_first_failed_stays(results: Seq<InitialCheck>, n: int, m: int)
    requires
        0 <= n < m,
        first_failed(results, n) is None,
        results[n] is Failed,
    ensures
        first_failed(results, m) == Some(n),
    decreases m - n,
{
    if m == n + 1 {
    } else {
        lemma_first_failed_stays(results, n, m - 1);
    }
}

/// What checking one build for impossible requests gave: whether its
/// requests are all possible, or the error of the check.
#[derive(Debug)]
pub enum BuildRequestsCheck {
    Possible,
    Impossible,
    Failed(String),
}

/// The first failed check among the first `n`, if any.
pub open spec fn first_failed_check(results: Seq<BuildRequestsCheck>, n: int) -> Option<int>
    decreases n,
{
    if n <= 0 {
        None
    } else {
        match first_failed_check(results, n - 1) {
            Some(i) => Some(i),
            None => if results[n - 1] is Failed {
                Some(n - 1)
            } else {
                None
            },
        }
    }
}

/// The positions of the builds among the first `n` whose requests are
/// impossible.
pub open spec fn impossible_positions(results: Seq<BuildRequestsCheck>, n: int) -> Seq<usize>
    decreases n,
{
    if n <= 0 {
        Seq::empty()
    } else if results[n - 1] is Impossible {
        impossible_positions(results, n - 1).push((n - 1) as usize)
    } else {
        impossible_positions(results, n - 1)
    }
}

proof fn lemma_first_failed_check_stays(results: Seq<BuildRequestsCheck>, n: int, m: int)
    requires
        0 <= n < m,
        first_failed_check(results, n) is None,
        results[n] is Failed,
    ensures
        first_failed_check(results, m) == Some(n),
    decreases m - n,
{
    if m > n + 1 {
        lemma_first_failed_check_stays(results, n, m - 1);
    }
}

/// The builds that would make an impossible request, by position, given
/// the check of each (in the order the checks finished); the first check
/// that failed fails the whole.
pub fn impossible_builds(results: &Vec<BuildRequestsCheck>) -> (r: Result<Vec<usize>, Error>)
    ensures
        match first_failed_check(results@, results@.len() as int) {
            Some(i) => r matches Err(Error::String(m)) && results@[i] matches BuildRequestsCheck::Failed(e)
                && m@ == e@,
            None => r matches Ok(v) && v@ == impossible_positions(results@, results@.len() as int),
        },
{
    let mut found: Vec<usize> = Vec::new();
    let mut i: usize = 0;
    while i < results.len()
        invariant
            0 <= i <= results@.len(),
            first_failed_check(results@, i as int) is None,
            found@ == impossible_positions(results@, i as int),
        decreases results@.len() - i,
    {
        match &results[i] {
            BuildRequestsCheck::Possible => {},
            BuildRequestsCheck::Impossible => {
                found.push(i);
            },
            BuildRequestsCheck::Failed(e) => {
                proof {
                    lemma_first_failed_check_stays(results@, i as int, results@.len() as int);
                }
                return Err(Error::String(e.clone()));
            },
        }
        i = i + 1;
    }
    Ok(found)
}

/// What the current solution of a run is.
#[derive(Debug, PartialEq, Eq, Structural)]
pub enum SolutionVerdict {
    /// The run has not taken a step yet.
    NotConsumed,
    /// The run ended at its start or at the dead state with packages
    /// requested: the solve failed.
    FailedToResolve,
    /// The state reached is the solution.
    Current,
}

/// The current solution of a run: `consumed` when it has a current state,
/// `at_start_or_dead` when that state is the root of the graph or the dead
/// state, `has_pkg_requests` when the initial state requests packages.
pub fn solution_verdict(consumed: bool, at_start_or_dead: bool, has_pkg_requests: bool) -> (r: SolutionVerdict)
    ensures
        !consumed ==> r == SolutionVerdict::NotConsumed,
        consumed && at_start_or_dead && has_pkg_requests ==> r == SolutionVerdict::FailedToResolve,
        consumed && !(at_start_or_dead && has_pkg_requests) ==> r == SolutionVerdict::Current,
{
    if !consumed {
        SolutionVerdict::NotConsumed
    } else if at_start_or_dead && has_pkg_requests {
        SolutionVerdict::FailedToResolve
    } else {
        SolutionVerdict::Current
    }
}


/// Options as plain values.
pub open spec fn options_view(opts: Seq<(String, String)>) -> Seq<(Seq<char>, Seq<char>)> {
    opts.map_values(|e: (String, String)| (e.0@, e.1@))
}

/// The options after the `entries` are added in order, each only where its
/// name is not an option yet.
pub open spec fn add_absent(
    opts: Seq<(Seq<char>, Seq<char>)>,
    entries: Seq<(Seq<char>, Seq<char>)>,
) -> Seq<(Seq<char>, Seq<char>)>
    decreases entries.len(),
{
    if entries.len() == 0 {
        opts
    } else {
        let prev = add_absent(opts, entries.drop_last());
        if find_key(prev, entries.last().0) is Some {
            prev
        } else {
            prev.push(entries.last())
        }
    }
}

/// The value of a var request's pin, empty where it pins none.
pub open spec fn pinned_text(v: (String, Option<String>)) -> (Seq<char>, Seq<char>) {
    (v.0@, match v.1 {
        Some(p) => p@,
        None => Seq::empty(),
    })
}

proof fn lemma_add_absent_step(
    opts: Seq<(Seq<char>, Seq<char>)>,
    entries: Seq<(Seq<char>, Seq<char>)>,
    i: int,
)
    requires
        0 <= i < entries.len(),
    ensures
        add_absent(opts, entries.take(i + 1)) == ({
            let prev = add_absent(opts, entries.take(i));
            if find_key(prev, entries[i].0) is Some {
                prev
            } else {
                prev.push(entries[i])
            }
        }),
{
    assert(entries.take(i + 1).drop_last() =~= entries.take(i));
}

fn add_if_absent(opts: &mut Vec<(String, String)>, name: &String, value: &String)
    ensures
        options_view(final(opts)@) == (if find_key(options_view(old(opts)@), name@) is Some {
            options_view(old(opts)@)
        } else {
            options_view(old(opts)@).push((name@, value@))
        }),
{
    if find_setting(opts, name).is_none() {
        let ghost before = options_view(opts@);
        opts.push((name.clone(), value.clone()));
        proof {
            assert(options_view(opts@) =~= before.push((name@, value@)));
        }
    }
}

/// The options that a new build from source is resolved with: the options
/// of the state, then, for each package request whose name is not an
/// option yet, its name with the requested version, then, for each var
/// request whose var is not an option yet, its var with the value it pins
/// (empty where it pins none).
pub fn new_build_options(
    options: &Vec<(String, String)>,
    pkg_requests: &Vec<(String, String)>,
    var_requests: &Vec<(String, Option<String>)>,
) -> (r: Vec<(String, String)>)
    ensures
        options_view(r@) == add_absent(
            add_absent(options_view(options@), options_view(pkg_requests@)),
            var_requests@.map_values(|v: (String, Option<String>)| pinned_text(v)),
        ),
{
    let mut opts: Vec<(String, String)> = Vec::new();
    let mut i: usize = 0;
    while i < options.len()
        invariant
            0 <= i <= options@.len(),
            opts@.len() == i,
            forall|j: int| 0 <= j < i ==> (#[trigger] opts@[j]).0@ == options@[j].0@ && opts@[j].1@ == options@[j].1@,
        decreases options@.len() - i,
    {
        opts.push((options[i].0.clone(), options[i].1.clone()));
        i = i + 1;
    }
    proof {
        assert(options_view(opts@) =~= options_view(options@));
    }
    let ghost base = options_view(opts@);
    let ghost pkgs = options_view(pkg_requests@);
    let mut k: usize = 0;
    while k < pkg_requests.len()
        invariant
            0 <= k <= pkg_requests@.len(),
            pkgs == options_view(pkg_requests@),
            options_view(opts@) == add_absent(base, pkgs.take(k as int)),
        decreases pkg_requests@.len() - k,
    {
        add_if_absent(&mut opts, &pkg_requests[k].0, &pkg_requests[k].1);
        proof {
            lemma_add_absent_step(base, pkgs, k as int);
        }
        k = k + 1;
    }
    proof {
        assert(pkgs.take(pkgs.len() as int) =~= pkgs);
    }
    let ghost mid = options_view(opts@);
    let ghost vars = var_requests@.map_values(|v: (String, Option<String>)| pinned_text(v));
    let mut m: usize = 0;
    while m < var_requests.len()
        invariant
            0 <= m <= var_requests@.len(),
            vars == var_requests@.map_values(|v: (String, Option<String>)| pinned_text(v)),
            options_view(opts@) == add_absent(mid, vars.take(m as int)),
        decreases var_requests@.len() - m,
    {
        let value = match &var_requests[m].1 {
            Some(p) => p.clone(),
            None => String::new(),
        };
        add_if_absent(&mut opts, &var_requests[m].0, &value);
        proof {
            lemma_add_absent_step(mid, vars, m as int);
            assert(vars[m as int] == (var_requests@[m as int].0@, value@));
        }
        m = m + 1;
    }
    proof {
        assert(vars.take(vars.len() as int) =~= vars);
    }
    opts
}


/// Adding options only where they are absent keeps the value of every
/// option already set, and leaves every added name with a value.
pub proof fn lemma_add_absent_keeps(
    opts: Seq<(Seq<char>, Seq<char>)>,
    entries: Seq<(Seq<char>, Seq<char>)>,
    name: Seq<char>,
)
    ensures
        option_value(opts, name) is Some ==> option_value(add_absent(opts, entries), name) == option_value(
            opts,
            name,
        ),
        (exists|i: int| 0 <= i < entries.len() && (#[trigger] entries[i]).0 == name) ==> option_value(
            add_absent(opts, entries),
            name,
        ) is Some,
    decreases entries.len(),
{
    if entries.len() > 0 {
        let prev = add_absent(opts, entries.drop_last());
        let e = entries.last();
        lemma_add_absent_keeps(opts, entries.drop_last(), name);
        lemma_find_key(prev, e.0);
        lemma_find_key(prev, name);
        if find_key(prev, e.0) is None {
            let next = prev.push(e);
            if e.0 != name {
                assert(next.drop_last() =~= prev);
            }
        }
        if exists|i: int| 0 <= i < entries.len() && (#[trigger] entries[i]).0 == name {
            let i = choose|i: int| 0 <= i < entries.len() && (#[trigger] entries[i]).0 == name;
            if i < entries.len() - 1 {
                assert(entries.drop_last()[i] == entries[i]);
            }
        }
    }
}


/// The verdict on one repository's copy of a build of the version at hand.
#[derive(Debug)]
pub enum CandidateVerdict {
    /// The copy passed the checks: the request is resolved with it (or the
    /// solve steps back to retry it).
    Chosen,
    /// The copy is passed over, with the note that says why; `counted` where
    /// it counts among the skipped builds.
    PassedOver { note: SkipPackageNote, counted: bool },
}

/// What the search for a build that satisfies the request met next.
#[derive(Debug)]
pub enum StepEvent {
    /// The next version of the package: whether the request admits it, the
    /// number of its builds, and the note that says why it is passed over.
    Version { applicable: bool, builds: usize, note: SkipPackageNote },
    /// The package has no version left.
    NoMoreVersions,
    /// The next build of the version at hand.
    Build,
    /// The version at hand has no build left.
    NoMoreBuilds,
    /// The verdict on the next copy of the build at hand.
    Candidate(CandidateVerdict),
    /// The build at hand has no copy left.
    NoMoreCandidates,
}

/// What the search does next.
#[derive(Debug)]
pub enum StepAction {
    /// Take the next version of the package (where the request did not
    /// admit the last one, its builds are marked used up first).
    NextVersion,
    /// Take the next build of the version at hand.
    NextBuild,
    /// Check the next copy of the build at hand.
    NextCandidate,
    /// Make the decision for the chosen copy, with these notes.
    Decide(Vec<Note>),
    /// No build satisfies the request.
    Fail(Error),
}

/// The search, within one step of the solve, for a build that satisfies the
/// next request: the request, as shown, and the notes gathered so far.
#[derive(Debug)]
pub struct StepSearch {
    request: String,
    notes: Vec<Note>,
}

/// A search as plain values.
pub struct StepSearchView {
    pub request: Seq<char>,
    pub notes: Seq<Note>,
}

impl View for StepSearch {
    type V = StepSearchView;

    closed spec fn view(&self) -> StepSearchView {
        StepSearchView { request: self.request@, notes: self.notes@ }
    }
}

/// Every counter of the solver other than its steps stays or grows, its
/// steps stay, and nothing else changes.
pub open spec fn counters_grow(before: SolverView, after: SolverView) -> bool {
    &&& after.number_of_steps == before.number_of_steps
    &&& after.number_builds_skipped >= before.number_builds_skipped
    &&& after.number_incompat_versions >= before.number_incompat_versions
    &&& after.number_incompat_builds >= before.number_incompat_builds
    &&& after.number_total_builds >= before.number_total_builds
    &&& after == (SolverView {
        number_builds_skipped: after.number_builds_skipped,
        number_incompat_versions: after.number_incompat_versions,
        number_incompat_builds: after.number_incompat_builds,
        number_total_builds: after.number_total_builds,
        ..before
    })
}

/// Over any run of events of a search the steps of the solve stay and no
/// other counter goes down: what holds of each event holds of a run of them.
pub proof fn lemma_counters_grow_over_events(a: SolverView, b: SolverView, c: SolverView)
    requires
        counters_grow(a, b),
        counters_grow(b, c),
    ensures
        counters_grow(a, c),
{
}

/// The counters that an event bumps have room for one more (and for the
/// builds of a version the request does not admit).
pub open spec fn room_for(s: SolverView, event: StepEvent) -> bool {
    match event {
        StepEvent::Version { applicable, builds, .. } => applicable || (s.number_incompat_versions
            < usize::MAX && s.number_incompat_builds + builds <= usize::MAX),
        StepEvent::Build => s.number_total_builds < usize::MAX,
        StepEvent::Candidate(CandidateVerdict::PassedOver { counted, .. }) => !counted
            || s.number_builds_skipped < usize::MAX,
        _ => true,
    }
}

/// The notes an event of the search adds: that of a version the request
/// does not admit, or of a copy passed over.
pub open spec fn event_notes(e: StepEvent) -> Seq<Note> {
    match e {
        StepEvent::Version { applicable, note, .. } => if applicable {
            Seq::empty()
        } else {
            seq![Note::SkipPackageNote(note)]
        },
        StepEvent::Candidate(CandidateVerdict::PassedOver { note, .. }) => seq![Note::SkipPackageNote(note)],
        _ => Seq::empty(),
    }
}

/// The solver after the counters an event bumps are bumped.
pub open spec fn counted_after(s: SolverView, e: StepEvent) -> SolverView {
    match e {
        StepEvent::Version { applicable, builds, .. } => if applicable {
            s
        } else {
            SolverView {
                number_incompat_versions: (s.number_incompat_versions + 1) as usize,
                number_incompat_builds: (s.number_incompat_builds + builds) as usize,
                ..s
            }
        },
        StepEvent::Build => SolverView { number_total_builds: (s.number_total_builds + 1) as usize, ..s },
        StepEvent::Candidate(CandidateVerdict::PassedOver { counted, .. }) => if counted {
            SolverView { number_builds_skipped: (s.number_builds_skipped + 1) as usize, ..s }
        } else {
            s
        },
        _ => s,
    }
}

/// The event moves the search on (it neither decides nor ends it).
pub open spec fn moves_on(e: StepEvent) -> bool {
    !(e is NoMoreVersions) && !(e matches StepEvent::Candidate(CandidateVerdict::Chosen))
}

/// The solver after a run of events, each counted in turn.
pub open spec fn solver_after(s: SolverView, events: Seq<StepEvent>) -> SolverView
    decreases events.len(),
{
    if events.len() == 0 {
        s
    } else {
        counted_after(solver_after(s, events.drop_last()), events.last())
    }
}

/// The notes a run of events adds, in order.
pub open spec fn notes_after(events: Seq<StepEvent>) -> Seq<Note>
    decreases events.len(),
{
    if events.len() == 0 {
        Seq::empty()
    } else {
        notes_after(events.drop_last()) + event_notes(events.last())
    }
}

/// Every event of the run finds room in the counters it bumps.
pub open spec fn room_along(s: SolverView, events: Seq<StepEvent>) -> bool
    decreases events.len(),
{
    if events.len() == 0 {
        true
    } else {
        room_along(s, events.drop_last()) && room_for(solver_after(s, events.drop_last()), events.last())
    }
}

/// Over a run of events of a search the steps of the solve stay and no
/// other counter goes down; so a whole step of the solve, which starts the
/// search with one step forward, raises the steps by exactly one.
pub proof fn lemma_search_run_counters(s: SolverView, events: Seq<StepEvent>)
    requires
        room_along(s, events),
    ensures
        counters_grow(s, solver_after(s, events)),
    decreases events.len(),
{
    if events.len() > 0 {
        lemma_search_run_counters(s, events.drop_last());
        let prev = solver_after(s, events.drop_last());
        assert(counters_grow(prev, counted_after(prev, events.last())));
        lemma_counters_grow_over_events(s, prev, counted_after(prev, events.last()));
    }
}

impl StepSearch {
    /// Start the search for a build that satisfies `request`: this is a step
    /// forward of the solve, and the first thing is to take a version.
    pub fn begin(solver: &mut Solver, request: String) -> (r: (StepSearch, StepAction))
        requires
            old(solver)@.number_of_steps < usize::MAX,
        ensures
            final(solver)@ == (SolverView {
                number_of_steps: (old(solver)@.number_of_steps + 1) as usize,
                ..old(solver)@
            }),
            r.0@.request == request@,
            r.0@.notes.len() == 0,
            r.1 is NextVersion,
    {
        solver.record_step();
        let search = StepSearch { request, notes: Vec::new() };
        proof {
            assert(search@.notes =~= Seq::<Note>::empty());
        }
        (search, StepAction::NextVersion)
    }

    /// The next step of the search, from what it met: a version the request
    /// does not admit is counted with its builds and noted, and the next is
    /// taken; the builds of an admitted version are taken one by one, each
    /// counted, and each copy of a build is checked in turn; the first copy
    /// chosen decides, with the notes gathered; a copy passed over is noted
    /// (and counted where it counts); when no version is left, the search
    /// fails with the request and its notes. The steps of the solve stay,
    /// and no other counter goes down.
    pub fn advance(&mut self, solver: &mut Solver, event: StepEvent) -> (action: StepAction)
        requires
            room_for(old(solver)@, event),
        ensures
            counters_grow(old(solver)@, final(solver)@),
            final(self)@.request == old(self)@.request,
            moves_on(event) ==> final(solver)@ == counted_after(old(solver)@, event) && final(self)@.notes
                == old(self)@.notes + event_notes(event),
            event matches StepEvent::Version { applicable, builds, note } ==> if applicable {
                &&& final(solver)@ == old(solver)@
                &&& final(self)@ == old(self)@
                &&& action is NextBuild
            } else {
                &&& final(solver)@ == (SolverView {
                    number_incompat_versions: (old(solver)@.number_incompat_versions + 1) as usize,
                    number_incompat_builds: (old(solver)@.number_incompat_builds + builds) as usize,
                    ..old(solver)@
                })
                &&& final(self)@.notes == old(self)@.notes.push(Note::SkipPackageNote(note))
                &&& action is NextVersion
            },
            event is NoMoreVersions ==> {
                &&& final(solver)@ == old(solver)@
                &&& final(self)@.notes.len() == 0
                &&& action matches StepAction::Fail(Error::OutOfOptions(o)) && o.request@ == old(self)@.request
                    && o.notes@ == old(self)@.notes
            },
            event is Build ==> {
                &&& final(solver)@ == (SolverView {
                    number_total_builds: (old(solver)@.number_total_builds + 1) as usize,
                    ..old(solver)@
                })
                &&& final(self)@ == old(self)@
                &&& action is NextCandidate
            },
            event is NoMoreBuilds ==> final(solver)@ == old(solver)@ && final(self)@ == old(self)@
                && action is NextVersion,
            event matches StepEvent::Candidate(CandidateVerdict::Chosen) ==> {
                &&& final(solver)@ == old(solver)@
                &&& final(self)@.notes.len() == 0
                &&& action matches StepAction::Decide(ns) && ns@ == old(self)@.notes
            },
            event matches StepEvent::Candidate(CandidateVerdict::PassedOver { note, counted }) ==> {
                &&& final(solver)@ == (SolverView {
                    number_builds_skipped: (old(solver)@.number_builds_skipped + if counted {
                        1int
                    } else {
                        0int
                    }) as usize,
                    ..old(solver)@
                })
                &&& final(self)@.notes == old(self)@.notes.push(Note::SkipPackageNote(note))
                &&& action is NextCandidate
            },
            event is NoMoreCandidates ==> final(solver)@ == old(solver)@ && final(self)@ == old(self)@
                && action is NextBuild,
    {
        match event {
            StepEvent::Version { applicable, builds, note } => {
                if applicable {
                    StepAction::NextBuild
                } else {
                    solver.record_incompatible_version(builds);
                    self.notes.push(Note::SkipPackageNote(note));
                    StepAction::NextVersion
                }
            },
            StepEvent::NoMoreVersions => {
                let mut notes: Vec<Note> = Vec::new();
                std::mem::swap(&mut notes, &mut self.notes);
                let request = self.request.clone();
                StepAction::Fail(Error::OutOfOptions(OutOfOptions { request, notes }))
            },
            StepEvent::Build => {
                solver.record_build_considered();
                StepAction::NextCandidate
            },
            StepEvent::NoMoreBuilds => StepAction::NextVersion,
            StepEvent::Candidate(CandidateVerdict::Chosen) => {
                let mut notes: Vec<Note> = Vec::new();
                std::mem::swap(&mut notes, &mut self.notes);
                StepAction::Decide(notes)
            },
            StepEvent::Candidate(CandidateVerdict::PassedOver { note, counted }) => {
                if counted {
                    solver.skip_build(&mut self.notes, note);
                } else {
                    self.notes.push(Note::SkipPackageNote(note));
                }
                StepAction::NextCandidate
            },
            StepEvent::NoMoreCandidates => StepAction::NextBuild,
        }
    }
}

} // verus!
