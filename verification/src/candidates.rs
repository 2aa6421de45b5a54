//! Which candidate builds and option values a request admits, as the
//! resolvo dependency provider decides it.

use vstd::prelude::*;
use crate::component::{
    Component, SyntheticComponent, contains_component, has_component, matches_synthetic,
    same_component,
};
use crate::frequency::{find_key, lemma_find_key};

verus! {

/// What a package request says about the build it wants.
#[derive(Clone, Copy, Debug, PartialEq, Eq, Structural)]
pub enum RequestedBuild {
    /// The request names no build.
    Unspecified,
    /// The request asks for the source build.
    Source,
    /// The request asks for one specific binary build.
    BuildId,
    /// The request asks for an embedded stub.
    Embedded,
}

/// The parts of a package request that candidate filtering reads.
#[derive(Clone, Debug)]
pub struct PkgRequestFacts {
    pub build: RequestedBuild,
    pub components: Vec<Component>,
}

/// A version set of the dependency provider: the request that candidates
/// are filtered by.
#[derive(Clone, Debug)]
pub enum CandidateRequest {
    /// A package request.
    Pkg(PkgRequestFacts),
    /// A var request; `key` is the var's name without its namespace.
    Var { namespaced: bool, key: String, value: String },
    /// A pseudo-package constraint on a global var.
    GlobalVar { key: String, value: String },
}

/// A located build of a package (one component of it), described by what
/// the filter reads of it. `version_applicable` is the request's verdict on
/// the build's version.
#[derive(Clone, Debug)]
pub struct BuildCandidate {
    pub version_applicable: bool,
    pub is_source: bool,
    pub requires_build_from_source: bool,
    pub component: SyntheticComponent,
}

/// A solvable: a build of a package component, or a value of a global var.
#[derive(Clone, Debug)]
pub enum Solvable {
    Build(BuildCandidate),
    GlobalVar { key: String, value: String },
}

/// The outcome of reading a candidate's package and checking the request
/// against it.
#[derive(Clone, Copy, Debug, PartialEq, Eq, Structural)]
pub enum PackageCheck {
    Satisfied,
    NotSatisfied,
    ReadFailed,
}

/// The filter's verdict on one candidate before any package is read.
#[derive(Clone, Copy, Debug, PartialEq, Eq, Structural)]
pub enum FilterStep {
    /// Selected (true) or not (false) without reading the package.
    Decided(bool),
    /// The verdict depends on checking the request against the package.
    NeedsPackage,
}

/// How the request's specific (non-All) components relate to a component:
/// `None` when it names none, `Some(true)` when one of them is that
/// component, `Some(false)` otherwise.
pub open spec fn component_match(cs: Seq<Component>, c: SyntheticComponent) -> Option<bool> {
    if !(exists|i: int| 0 <= i < cs.len() && !(#[trigger] cs[i] is All)) {
        None
    } else if exists|i: int|
        0 <= i < cs.len() && !(#[trigger] cs[i] is All) && matches_synthetic(cs[i], c) {
        Some(true)
    } else {
        Some(false)
    }
}

/// The verdict of a package request on a candidate before the package is read.
pub open spec fn pkg_filter_step(req: PkgRequestFacts, cand: Solvable, inverse: bool) -> FilterStep {
    match cand {
        Solvable::GlobalVar { .. } => FilterStep::Decided(inverse),
        Solvable::Build(b) => {
            if !b.version_applicable {
                FilterStep::Decided(inverse)
            } else if b.requires_build_from_source {
                if req.build == RequestedBuild::BuildId {
                    FilterStep::Decided(inverse)
                } else {
                    FilterStep::Decided(!inverse)
                }
            } else if b.is_source {
                FilterStep::Decided((req.build == RequestedBuild::Source) != inverse)
            } else if b.component matches SyntheticComponent::Actual(c) && c is All {
                if !has_component(req.components@, Component::All) {
                    FilterStep::Decided(inverse)
                } else {
                    FilterStep::NeedsPackage
                }
            } else if has_component(req.components@, Component::All) {
                FilterStep::Decided(inverse)
            } else {
                match component_match(req.components@, b.component) {
                    Some(true) => if inverse {
                        FilterStep::Decided(false)
                    } else {
                        FilterStep::NeedsPackage
                    },
                    Some(false) => if inverse {
                        FilterStep::Decided(true)
                    } else {
                        FilterStep::NeedsPackage
                    },
                    None => FilterStep::NeedsPackage,
                }
            }
        },
    }
}

/// The verdict of any request on a candidate before the package is read.
pub open spec fn filter_step(req: CandidateRequest, cand: Solvable, inverse: bool) -> FilterStep {
    match req {
        CandidateRequest::Pkg(p) => pkg_filter_step(p, cand, inverse),
        CandidateRequest::Var { namespaced, key, value } => {
            if namespaced {
                match cand {
                    Solvable::Build(_) => FilterStep::NeedsPackage,
                    Solvable::GlobalVar { .. } => FilterStep::Decided(inverse),
                }
            } else {
                match cand {
                    Solvable::GlobalVar { key: rk, value: rv } => FilterStep::Decided(
                        (key@ == rk@ && value@ == rv@) != inverse,
                    ),
                    Solvable::Build(_) => FilterStep::Decided(inverse),
                }
            }
        },
        CandidateRequest::GlobalVar { key, value } => match cand {
            Solvable::GlobalVar { key: rk, value: rv } => FilterStep::Decided(
                (key@ == rk@ && value@ == rv@) != inverse,
            ),
            Solvable::Build(_) => FilterStep::Decided(inverse),
        },
    }
}

/// Whether a candidate is selected once its package check is known.
pub open spec fn selected_after_check(check: PackageCheck, inverse: bool) -> bool {
    match check {
        PackageCheck::Satisfied => !inverse,
        PackageCheck::NotSatisfied => inverse,
        PackageCheck::ReadFailed => inverse,
    }
}

/// Whether the filter selects a candidate, given the outcome of its package
/// check (consulted only where the verdict needs it).
pub open spec fn selects(
    req: CandidateRequest,
    cand: Solvable,
    check: PackageCheck,
    inverse: bool,
) -> bool {
    match filter_step(req, cand, inverse) {
        FilterStep::Decided(b) => b,
        FilterStep::NeedsPackage => selected_after_check(check, inverse),
    }
}

/// The indices of the first `n` candidates that the filter selects, in order.
pub open spec fn selected_upto(
    req: CandidateRequest,
    cands: Seq<Solvable>,
    checks: Seq<PackageCheck>,
    inverse: bool,
    n: int,
) -> Seq<usize>
    decreases n,
{
    if n <= 0 {
        Seq::empty()
    } else {
        let prev = selected_upto(req, cands, checks, inverse, n - 1);
        if selects(req, cands[n - 1], checks[n - 1], inverse) {
            prev.push((n - 1) as usize)
        } else {
            prev
        }
    }
}

fn strings_equal(a: &String, b: &String) -> (r: bool)
    ensures
        r == (a@ == b@),
{
    *a == *b
}

fn component_match_exec(cs: &Vec<Component>, c: &SyntheticComponent) -> (r: Option<bool>)
    ensures
        r == component_match(cs@, *c),
{
    let mut result: Option<bool> = None;
    let mut i: usize = 0;
    while i < cs.len()
        invariant
            0 <= i <= cs@.len(),
            result is None <==> !(exists|j: int| 0 <= j < i && !(#[trigger] cs@[j] is All)),
            result == Some(false) ==> (exists|j: int| 0 <= j < i && !(#[trigger] cs@[j] is All)),
            !(exists|j: int|
                0 <= j < i && !(#[trigger] cs@[j] is All) && matches_synthetic(cs@[j], *c)),
            result != Some(true),
        decreases cs@.len() - i,
    {
        if cs[i].is_all() {
            i = i + 1;
            continue;
        }
        if cs[i].matches_synthetic(c) {
            assert(!(cs@[i as int] is All) && matches_synthetic(cs@[i as int], *c));
            return Some(true);
        }
        result = Some(false);
        i = i + 1;
    }
    result
}

/// The filter's verdict on one candidate before its package is read.
pub fn candidate_filter_step(req: &CandidateRequest, cand: &Solvable, inverse: bool) -> (r: FilterStep)
    ensures
        r == filter_step(*req, *cand, inverse),
{
    match req {
        CandidateRequest::Pkg(p) => {
            match cand {
                Solvable::GlobalVar { .. } => FilterStep::Decided(inverse),
                Solvable::Build(b) => {
                    if !b.version_applicable {
                        FilterStep::Decided(inverse)
                    } else if b.requires_build_from_source {
                        if p.build == RequestedBuild::BuildId {
                            FilterStep::Decided(inverse)
                        } else {
                            FilterStep::Decided(!inverse)
                        }
                    } else if b.is_source {
                        FilterStep::Decided((p.build == RequestedBuild::Source) != inverse)
                    } else if b.component.is_all() {
                        if !contains_component(&p.components, &Component::All) {
                            FilterStep::Decided(inverse)
                        } else {
                            FilterStep::NeedsPackage
                        }
                    } else if contains_component(&p.components, &Component::All) {
                        FilterStep::Decided(inverse)
                    } else {
                        match component_match_exec(&p.components, &b.component) {
                            Some(true) => if inverse {
                                FilterStep::Decided(false)
                            } else {
                                FilterStep::NeedsPackage
                            },
                            Some(false) => if inverse {
                                FilterStep::Decided(true)
                            } else {
                                FilterStep::NeedsPackage
                            },
                            None => FilterStep::NeedsPackage,
                        }
                    }
                },
            }
        },
        CandidateRequest::Var { namespaced, key, value } => {
            if *namespaced {
                match cand {
                    Solvable::Build(_) => FilterStep::NeedsPackage,
                    Solvable::GlobalVar { .. } => FilterStep::Decided(inverse),
                }
            } else {
                match cand {
                    Solvable::GlobalVar { key: rk, value: rv } => FilterStep::Decided(
                        (strings_equal(key, rk) && strings_equal(value, rv)) != inverse,
                    ),
                    Solvable::Build(_) => FilterStep::Decided(inverse),
                }
            }
        },
        CandidateRequest::GlobalVar { key, value } => match cand {
            Solvable::GlobalVar { key: rk, value: rv } => FilterStep::Decided(
                (strings_equal(key, rk) && strings_equal(value, rv)) != inverse,
            ),
            Solvable::Build(_) => FilterStep::Decided(inverse),
        },
    }
}

/// Filter `candidates` by the request: the indices of those selected, in
/// their order. `checks[i]` is the outcome of checking the request against
/// the package of `candidates[i]`; it is read only where the verdict needs
/// it. With `inverse`, the candidates that do not match are selected.
pub fn filter_candidates(
    req: &CandidateRequest,
    candidates: &Vec<Solvable>,
    checks: &Vec<PackageCheck>,
    inverse: bool,
) -> (r: Vec<usize>)
    requires
        candidates@.len() == checks@.len(),
    ensures
        r@ == selected_upto(*req, candidates@, checks@, inverse, candidates@.len() as int),
{
    let mut selected: Vec<usize> = Vec::new();
    let mut i: usize = 0;
    while i < candidates.len()
        invariant
            candidates@.len() == checks@.len(),
            0 <= i <= candidates@.len(),
            selected@ == selected_upto(*req, candidates@, checks@, inverse, i as int),
        decreases candidates@.len() - i,
    {
        let keep = match candidate_filter_step(req, &candidates[i], inverse) {
            FilterStep::Decided(b) => b,
            FilterStep::NeedsPackage => match checks[i] {
                PackageCheck::Satisfied => !inverse,
                PackageCheck::NotSatisfied => inverse,
                PackageCheck::ReadFailed => inverse,
            },
        };
        if keep {
            selected.push(i);
        }
        i = i + 1;
    }
    selected
}

/// A candidate is among the first `n` selected exactly when the filter
/// selects it.
pub proof fn lemma_selected_upto_has(
    req: CandidateRequest,
    cands: Seq<Solvable>,
    checks: Seq<PackageCheck>,
    inverse: bool,
    n: int,
    i: int,
)
    requires
        0 <= i < n <= cands.len(),
        n <= usize::MAX,
    ensures
        selected_upto(req, cands, checks, inverse, n).contains(i as usize) <==> selects(
            req,
            cands[i],
            checks[i],
            inverse,
        ),
    decreases n,
{
    let prev = selected_upto(req, cands, checks, inverse, n - 1);
    lemma_selected_below(req, cands, checks, inverse, n - 1);
    if i < n - 1 {
        lemma_selected_upto_has(req, cands, checks, inverse, n - 1, i);
        if selects(req, cands[n - 1], checks[n - 1], inverse) {
            let s = prev.push((n - 1) as usize);
            if s.contains(i as usize) {
                let k = choose|k: int| 0 <= k < s.len() && s[k] == i as usize;
                if k < prev.len() {
                    assert(prev[k] == i as usize);
                }
            }
            if prev.contains(i as usize) {
                let k = choose|k: int| 0 <= k < prev.len() && prev[k] == i as usize;
                assert(s[k] == i as usize);
            }
        }
    } else {
        if selects(req, cands[n - 1], checks[n - 1], inverse) {
            let s = prev.push((n - 1) as usize);
            assert(s[prev.len() as int] == (n - 1) as usize);
        } else {
            if prev.contains(i as usize) {
                let k = choose|k: int| 0 <= k < prev.len() && prev[k] == i as usize;
                assert(prev[k] < n - 1);
            }
        }
    }
}

/// Every index among the first `n` selected is below `n`.
pub proof fn lemma_selected_below(
    req: CandidateRequest,
    cands: Seq<Solvable>,
    checks: Seq<PackageCheck>,
    inverse: bool,
    n: int,
)
    requires
        0 <= n <= usize::MAX,
    ensures
        forall|k: int|
            0 <= k < selected_upto(req, cands, checks, inverse, n).len() ==> (#[trigger] selected_upto(
                req,
                cands,
                checks,
                inverse,
                n,
            )[k]) < n,
    decreases n,
{
    if n > 0 {
        lemma_selected_below(req, cands, checks, inverse, n - 1);
        let prev = selected_upto(req, cands, checks, inverse, n - 1);
        let cur = selected_upto(req, cands, checks, inverse, n);
        assert forall|k: int| 0 <= k < cur.len() implies #[trigger] cur[k] < n by {
            if k < prev.len() {
                assert(cur[k] == prev[k]);
            }
        }
    }
}

/// A var request that names no package selects a global var value exactly
/// when both the var and the value are those requested, and never selects
/// a build.
pub proof fn lemma_var_request_selects_matching_values(
    key: String,
    value: String,
    cands: Seq<Solvable>,
    checks: Seq<PackageCheck>,
    i: int,
)
    requires
        0 <= i < cands.len() <= usize::MAX,
    ensures
        ({
            let req = CandidateRequest::Var { namespaced: false, key, value };
            let chosen = selected_upto(req, cands, checks, false, cands.len() as int);
            &&& cands[i] matches Solvable::GlobalVar { key: rk, value: rv } ==> (chosen.contains(i as usize)
                <==> (rk@ == key@ && rv@ == value@))
            &&& cands[i] is Build ==> !chosen.contains(i as usize)
        }),
{
    lemma_selected_upto_has(
        CandidateRequest::Var { namespaced: false, key, value },
        cands,
        checks,
        false,
        cands.len() as int,
        i,
    );
}

/// A constraint on a global var selects exactly the values of that var
/// that equal its value, and never a build.
pub proof fn lemma_global_var_constraint_selects_its_value(
    key: String,
    value: String,
    cands: Seq<Solvable>,
    checks: Seq<PackageCheck>,
    i: int,
)
    requires
        0 <= i < cands.len() <= usize::MAX,
    ensures
        ({
            let req = CandidateRequest::GlobalVar { key, value };
            let chosen = selected_upto(req, cands, checks, false, cands.len() as int);
            &&& cands[i] matches Solvable::GlobalVar { key: rk, value: rv } ==> (chosen.contains(i as usize)
                <==> (rk@ == key@ && rv@ == value@))
            &&& cands[i] is Build ==> !chosen.contains(i as usize)
        }),
{
    lemma_selected_upto_has(CandidateRequest::GlobalVar { key, value }, cands, checks, false, cands.len() as int, i);
}

/// Inverse filtering selects exactly the candidates that plain filtering
/// leaves out, for every candidate whose verdict does not rest on matching
/// one of the request's specific components.
pub proof fn lemma_inverse_filter_is_complement(
    req: CandidateRequest,
    cand: Solvable,
    check: PackageCheck,
)
    requires
        !(req matches CandidateRequest::Pkg(p) && cand matches Solvable::Build(b)
            && b.version_applicable && !b.requires_build_from_source && !b.is_source
            && !(b.component matches SyntheticComponent::Actual(c) && c is All)
            && !has_component(p.components@, Component::All)
            && component_match(p.components@, b.component) is Some),
    ensures
        selects(req, cand, check, true) == !selects(req, cand, check, false),
{
}


/// A build listed in a repository for a requested package: `located` says
/// which build in which repository, `applicable` whether its version is
/// admitted by the top-level request for the package, and `components` the
/// components listed for it.
#[derive(Debug)]
pub struct BuildListing {
    pub located: String,
    pub applicable: bool,
    pub is_source: bool,
    pub components: Vec<Component>,
}

/// A candidate build of a package component, and whether using it means
/// building it from source.
#[derive(Debug)]
pub struct LocatedCandidate {
    pub located: String,
    pub requires_build_from_source: bool,
}

/// Whether a listed component of a build stands for the requested one:
/// `None` when it does not, else whether it requires a build from source.
/// A source build stands for any other component (and for All) by being
/// built, which binary-only solves refuse.
pub open spec fn admitted(requested: Component, is_source: bool, comp: Component, binary_only: bool) -> Option<bool> {
    let from_source = is_source && (!same_component(comp, requested) || requested is All);
    if from_source {
        if binary_only {
            None
        } else {
            Some(true)
        }
    } else if same_component(comp, requested) {
        Some(false)
    } else {
        None
    }
}

/// The components a build offers: those listed for it, and for a binary
/// build the All component, which stands for all of them.
pub open spec fn offered_components(l: BuildListing) -> Seq<Component> {
    if l.is_source {
        l.components@
    } else {
        l.components@.push(Component::All)
    }
}

/// Whether a listed build is a candidate for the requested package
/// component: `None` when not, else whether it requires a build from source
/// (true as soon as one of its admitted components does). Any build of an
/// admitted version is a candidate for the base.
pub open spec fn listing_admission(requested: SyntheticComponent, l: BuildListing, binary_only: bool) -> Option<bool> {
    if !l.applicable {
        None
    } else {
        match requested {
            SyntheticComponent::Base => Some(false),
            SyntheticComponent::Actual(p) => {
                let cs = offered_components(l);
                if exists|i: int| 0 <= i < cs.len() && admitted(p, l.is_source, #[trigger] cs[i], binary_only) == Some(true) {
                    Some(true)
                } else if exists|i: int| 0 <= i < cs.len() && admitted(p, l.is_source, #[trigger] cs[i], binary_only) is Some {
                    Some(false)
                } else {
                    None
                }
            },
        }
    }
}

/// The candidates after one more admitted build: a build already there
/// keeps its place and requires a build from source if either does.
pub open spec fn merge_candidate(acc: Seq<(Seq<char>, bool)>, located: Seq<char>, from_source: bool) -> Seq<(Seq<char>, bool)> {
    match find_key(acc, located) {
        Some(i) => acc.update(i, (located, acc[i].1 || from_source)),
        None => acc.push((located, from_source)),
    }
}

/// The candidate builds among the listed ones, each once, in the order
/// first listed.
pub open spec fn candidate_builds(requested: SyntheticComponent, ls: Seq<BuildListing>, binary_only: bool) -> Seq<(Seq<char>, bool)>
    decreases ls.len(),
{
    if ls.len() == 0 {
        Seq::empty()
    } else {
        let prev = candidate_builds(requested, ls.drop_last(), binary_only);
        match listing_admission(requested, ls.last(), binary_only) {
            Some(r) => merge_candidate(prev, ls.last().located@, r),
            None => prev,
        }
    }
}

/// A binary-only solve offers no candidate that would have to be built
/// from source.
pub proof fn lemma_binary_only_builds_nothing(requested: SyntheticComponent, ls: Seq<BuildListing>)
    ensures
        forall|k: int|
            0 <= k < candidate_builds(requested, ls, true).len() ==> !(#[trigger] candidate_builds(
                requested,
                ls,
                true,
            )[k]).1,
    decreases ls.len(),
{
    if ls.len() > 0 {
        lemma_binary_only_builds_nothing(requested, ls.drop_last());
        let prev = candidate_builds(requested, ls.drop_last(), true);
        let l = ls.last();
        if let SyntheticComponent::Actual(p) = requested {
            let cs = offered_components(l);
            assert forall|i: int| 0 <= i < cs.len() implies admitted(p, l.is_source, #[trigger] cs[i], true)
                != Some(true) by {}
        }
        match listing_admission(requested, l, true) {
            Some(r) => {
                assert(!r);
                lemma_find_key(prev, l.located@);
                let cur = merge_candidate(prev, l.located@, r);
                assert forall|k: int| 0 <= k < cur.len() implies !(#[trigger] cur[k]).1 by {
                    match find_key(prev, l.located@) {
                        Some(i) => {
                            if k != i {
                                assert(cur[k] == prev[k]);
                            }
                        },
                        None => {
                            if k < prev.len() {
                                assert(cur[k] == prev[k]);
                            }
                        },
                    }
                }
            },
            None => {},
        }
    }
}

fn component_admission(requested: &Component, is_source: bool, comp: &Component, binary_only: bool) -> (r: Option<bool>)
    ensures
        r == admitted(*requested, is_source, *comp, binary_only),
{
    let same = comp.same_as(requested);
    let from_source = is_source && (!same || requested.is_all());
    if from_source {
        if binary_only { None } else { Some(true) }
    } else if same {
        Some(false)
    } else {
        None
    }
}

fn listing_admission_exec(requested: &SyntheticComponent, l: &BuildListing, binary_only: bool) -> (r: Option<bool>)
    ensures
        r == listing_admission(*requested, *l, binary_only),
{
    if !l.applicable {
        return None;
    }
    let p = match requested {
        SyntheticComponent::Base => {
            return Some(false);
        },
        SyntheticComponent::Actual(p) => p,
    };
    let ghost cs = offered_components(*l);
    let mut any = false;
    let mut from_source = false;
    let mut i: usize = 0;
    while i < l.components.len()
        invariant
            cs == offered_components(*l),
            0 <= i <= l.components@.len(),
            from_source == exists|j: int| 0 <= j < i && admitted(*p, l.is_source, #[trigger] cs[j], binary_only) == Some(true),
            any == exists|j: int| 0 <= j < i && admitted(*p, l.is_source, #[trigger] cs[j], binary_only) is Some,
        decreases l.components@.len() - i,
    {
        assert(l.components@[i as int] == cs[i as int]);
        match component_admission(p, l.is_source, &l.components[i], binary_only) {
            Some(b) => {
                any = true;
                if b {
                    from_source = true;
                }
            },
            None => {},
        }
        i = i + 1;
    }
    if !l.is_source {
        assert(cs[i as int] == Component::All);
        match component_admission(p, l.is_source, &Component::All, binary_only) {
            Some(b) => {
                any = true;
                if b {
                    from_source = true;
                }
            },
            None => {},
        }
        proof {
            assert(cs.len() == i + 1);
        }
    }
    if from_source {
        Some(true)
    } else if any {
        Some(false)
    } else {
        None
    }
}

fn find_candidate(acc: &Vec<LocatedCandidate>, located: &String) -> (r: Option<usize>)
    ensures
        r matches Some(i) ==> find_key(candidate_view(acc@), located@) == Some(i as int),
        r is None ==> find_key(candidate_view(acc@), located@) is None,
{
    let ghost view = candidate_view(acc@);
    let mut i: usize = acc.len();
    assert(view.take(i as int) =~= view);
    while i > 0
        invariant
            0 <= i <= acc@.len(),
            view == candidate_view(acc@),
            find_key(view, located@) == find_key(view.take(i as int), located@),
        decreases i,
    {
        proof {
            assert(view.take(i as int).drop_last() =~= view.take(i - 1));
        }
        if acc[i - 1].located == *located {
            return Some(i - 1);
        }
        i = i - 1;
    }
    None
}

/// Candidates as plain values: each build's location text and whether it
/// requires a build from source.
pub open spec fn candidate_view(cs: Seq<LocatedCandidate>) -> Seq<(Seq<char>, bool)> {
    cs.map_values(|c: LocatedCandidate| (c.located@, c.requires_build_from_source))
}

/// The candidate builds for a requested package component among the listed
/// builds: each build once, in the order first listed, with whether it must
/// be built from source. A build of a version that the top-level request
/// excludes is never a candidate; binary-only solves admit no build that
/// would have to be built from source. `None` when there is no candidate.
pub fn located_builds(requested: &SyntheticComponent, listings: &Vec<BuildListing>, binary_only: bool) -> (r: Option<
    Vec<LocatedCandidate>,
>)
    ensures
        r is None <==> candidate_builds(*requested, listings@, binary_only).len() == 0,
        r matches Some(v) ==> candidate_view(v@) == candidate_builds(*requested, listings@, binary_only),
        binary_only && r is Some ==> forall|k: int|
            0 <= k < r->0@.len() ==> !(#[trigger] r->0@[k]).requires_build_from_source,
{
    let mut acc: Vec<LocatedCandidate> = Vec::new();
    let mut i: usize = 0;
    while i < listings.len()
        invariant
            0 <= i <= listings@.len(),
            candidate_view(acc@) == candidate_builds(*requested, listings@.take(i as int), binary_only),
        decreases listings@.len() - i,
    {
        proof {
            assert(listings@.take(i + 1).drop_last() =~= listings@.take(i as int));
        }
        let l = &listings[i];
        match listing_admission_exec(requested, l, binary_only) {
            Some(rbfs) => {
                proof {
                    lemma_find_key(candidate_view(acc@), l.located@);
                }
                match find_candidate(&acc, &l.located) {
                    Some(j) => {
                        let merged = acc[j].requires_build_from_source || rbfs;
                        let located = acc[j].located.clone();
                        acc.set(j, LocatedCandidate { located, requires_build_from_source: merged });
                    },
                    None => {
                        acc.push(LocatedCandidate { located: l.located.clone(), requires_build_from_source: rbfs });
                    },
                }
                proof {
                    assert(candidate_view(acc@) =~= candidate_builds(*requested, listings@.take(i + 1), binary_only));
                }
            },
            None => {},
        }
        i = i + 1;
    }
    proof {
        assert(listings@.take(listings@.len() as int) =~= listings@);
        if binary_only {
            lemma_binary_only_builds_nothing(*requested, listings@);
            assert forall|k: int| 0 <= k < acc@.len() implies !(#[trigger] acc@[k]).requires_build_from_source by {
                assert(candidate_view(acc@)[k].1 == acc@[k].requires_build_from_source);
            }
        }
    }
    if acc.len() == 0 {
        None
    } else {
        Some(acc)
    }
}

/// What was learned of a candidate build before deciding on it: for a build
/// from source, whether it can be built (or why not); for a binary build,
/// what reading its package gave.
#[derive(Debug)]
pub enum CandidateCheck {
    FromSource(Result<(), String>),
    Binary(Result<BinaryBuildChecks, String>),
}

/// The global var requests checked against a binary build: why its version
/// does not satisfy the request for the package's own var, if it does not,
/// and each build option (by name) that does not satisfy its request, with
/// why.
#[derive(Debug)]
pub struct BinaryBuildChecks {
    pub version_mismatch: Option<String>,
    pub option_mismatches: Vec<(String, String)>,
}

/// The candidates offered to the solver, and those excluded, with why (by
/// their positions among the located builds).
#[derive(Debug)]
pub struct Candidates {
    pub candidates: Vec<usize>,
    pub excluded: Vec<(usize, String)>,
}

/// The exclusions a binary build's option mismatches give.
pub open spec fn option_exclusions(i: usize, ms: Seq<(String, String)>) -> Seq<(usize, Seq<char>)> {
    ms.map_values(|m: (String, String)| (i, "build option "@ + m.0@ + " does not satisfy global var request: "@ + m.1@))
}

/// The verdict on one candidate: whether it is offered, and the exclusions
/// it gives. A build from source is offered when it can be built. A binary
/// build that cannot be read, or whose version does not satisfy the global
/// var request for its package, is excluded; each of its build options that
/// does not satisfy its global var request gives an exclusion, and the build
/// is still offered.
pub open spec fn candidate_verdict(i: usize, check: CandidateCheck) -> (bool, Seq<(usize, Seq<char>)>) {
    match check {
        CandidateCheck::FromSource(Ok(())) => (true, Seq::empty()),
        CandidateCheck::FromSource(Err(why)) => (false, seq![(i, why@)]),
        CandidateCheck::Binary(Err(e)) => (false, seq![(i, e@)]),
        CandidateCheck::Binary(Ok(c)) => match c.version_mismatch {
            Some(why) => (false, seq![(i, "build version does not satisfy global var request: "@ + why@)]),
            None => (true, option_exclusions(i, c.option_mismatches@)),
        },
    }
}

/// The candidates offered and excluded among the first `n` checked builds.
pub open spec fn candidate_verdicts(checks: Seq<CandidateCheck>, n: int) -> (Seq<usize>, Seq<(usize, Seq<char>)>)
    decreases n,
{
    if n <= 0 {
        (Seq::empty(), Seq::empty())
    } else {
        let (offered, excluded) = candidate_verdicts(checks, n - 1);
        let (ok, why) = candidate_verdict((n - 1) as usize, checks[n - 1]);
        (if ok { offered.push((n - 1) as usize) } else { offered }, excluded + why)
    }
}

/// The excluded candidates as plain values.
pub open spec fn exclusion_view(e: Seq<(usize, String)>) -> Seq<(usize, Seq<char>)> {
    e.map_values(|x: (usize, String)| (x.0, x.1@))
}

fn prefixed(prefix: &str, a: &String, middle: &str, b: &String) -> (r: String)
    ensures
        r@ == prefix@ + a@ + middle@ + b@,
{
    let mut m = String::new();
    crate::text::push_text(&mut m, prefix);
    crate::text::push_text(&mut m, a.as_str());
    crate::text::push_text(&mut m, middle);
    crate::text::push_text(&mut m, b.as_str());
    proof {
        assert(m@ =~= prefix@ + a@ + middle@ + b@);
    }
    m
}

/// Decide on each located build from what was learned of it (`checks[i]`
/// for the `i`-th): which are offered to the solver and which are excluded,
/// with why.
pub fn classify_candidates(checks: &Vec<CandidateCheck>) -> (r: Candidates)
    requires
        checks@.len() <= usize::MAX,
    ensures
        r.candidates@ == candidate_verdicts(checks@, checks@.len() as int).0,
        exclusion_view(r.excluded@) == candidate_verdicts(checks@, checks@.len() as int).1,
{
    let mut offered: Vec<usize> = Vec::new();
    let mut excluded: Vec<(usize, String)> = Vec::new();
    let mut i: usize = 0;
    while i < checks.len()
        invariant
            0 <= i <= checks@.len(),
            offered@ == candidate_verdicts(checks@, i as int).0,
            exclusion_view(excluded@) == candidate_verdicts(checks@, i as int).1,
        decreases checks@.len() - i,
    {
        let ghost ex0 = exclusion_view(excluded@);
        match &checks[i] {
            CandidateCheck::FromSource(Ok(())) => {
                offered.push(i);
                proof {
                    assert(ex0 + Seq::<(usize, Seq<char>)>::empty() =~= ex0);
                }
            },
            CandidateCheck::FromSource(Err(why)) => {
                excluded.push((i, why.clone()));
                proof {
                    assert(exclusion_view(excluded@) =~= ex0 + seq![(i, why@)]);
                }
            },
            CandidateCheck::Binary(Err(e)) => {
                excluded.push((i, e.clone()));
                proof {
                    assert(exclusion_view(excluded@) =~= ex0 + seq![(i, e@)]);
                }
            },
            CandidateCheck::Binary(Ok(c)) => match &c.version_mismatch {
                Some(why) => {
                    let mut m = String::new();
                    crate::text::push_text(&mut m, "build version does not satisfy global var request: ");
                    crate::text::push_text(&mut m, why.as_str());
                    excluded.push((i, m));
                    proof {
                        assert(exclusion_view(excluded@) =~= ex0 + seq![
                            (i, "build version does not satisfy global var request: "@ + why@),
                        ]);
                    }
                },
                None => {
                    let ms = &c.option_mismatches;
                    let mut k: usize = 0;
                    while k < ms.len()
                        invariant
                            0 <= k <= ms@.len(),
                            exclusion_view(excluded@) == ex0 + option_exclusions(i, ms@.take(k as int)),
                        decreases ms@.len() - k,
                    {
                        let m = prefixed("build option ", &ms[k].0, " does not satisfy global var request: ", &ms[k].1);
                        let ghost before = excluded@;
                        excluded.push((i, m));
                        proof {
                            assert(ms@.take(k + 1) =~= ms@.take(k as int).push(ms@[k as int]));
                            assert(exclusion_view(excluded@) =~= exclusion_view(before).push((i, m@)));
                            assert(option_exclusions(i, ms@.take(k + 1)) =~= option_exclusions(i, ms@.take(k as int)).push(
                                (i, "build option "@ + ms@[k as int].0@ + " does not satisfy global var request: "@ + ms@[k as int].1@),
                            ));
                            assert(exclusion_view(excluded@) =~= ex0 + option_exclusions(i, ms@.take(k + 1)));
                        }
                        k = k + 1;
                    }
                    proof {
                        assert(ms@.take(ms@.len() as int) =~= ms@);
                    }
                    offered.push(i);
                },
            },
        }
        i = i + 1;
    }
    Candidates { candidates: offered, excluded }
}

} // verus!
