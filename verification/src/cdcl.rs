//! The decisions of the CDCL solver around resolvo: whether to run the
//! solve again after resolvo stops, and how the solvables it picked become
//! the packages and options of a solution.

use vstd::prelude::*;
use crate::component::{Component, SyntheticComponent, has_component};
use crate::frequency::{find_key, lemma_find_key};
use crate::solvers::{set_option, set_options};
use crate::text::{decimal, push_decimal, push_text};

verus! {

/// The text of a value as `Debug` shows a `str`: quoted, with special
/// characters escaped.
pub uninterp spec fn debug_str(s: Seq<char>) -> Seq<char>;

/// `<str as Debug>::fmt`, rendered: the text quoted and escaped; printable
/// ASCII other than quotes and backslashes needs no escape.
#[verifier::external_body]
fn debug_text(s: &str) -> (r: String)
    ensures
        r@ == debug_str(s@),
        plain_ascii(s@) ==> r@ == seq!['"'] + s@ + seq!['"'],
{
    format!("{:?}", s)
}

/// Every character is printable ASCII and none is a quote or a backslash.
pub open spec fn plain_ascii(s: Seq<char>) -> bool {
    forall|i: int|
        0 <= i < s.len() ==> ' ' <= #[trigger] s[i] <= '~' && s[i] != '"' && s[i] != '\\' && s[i] != '\''
}

/// How a run of resolvo ended.
#[derive(Debug)]
pub enum SolveOutcome {
    Solved,
    /// The provider cancelled the solve, with its reason if it gave one.
    Cancelled(Option<String>),
    /// There is no solution; the conflict, as shown to the user.
    Unsolvable(String),
}

/// What the solver does after a run of resolvo.
#[derive(Debug)]
pub enum RetryDecision {
    /// The solve is done.
    Done,
    /// Run again with a restarted provider, after showing the message.
    Retry(String),
    /// The solve failed, with the conflict.
    Fail(String),
}

/// The decision after the `attempt`-th run of resolvo: a cancelled run (or
/// an unsolvable one whose provider asked to cancel) is run again, showing
/// the attempt number and the reason, when one was given (as `Debug` shows
/// it, "unknown" when none was); an unsolvable run fails with the conflict.
pub open spec fn is_retry_decision(outcome: SolveOutcome, attempt: u64, canceled: bool, r: RetryDecision) -> bool {
    match outcome {
        SolveOutcome::Solved => r is Done,
        SolveOutcome::Cancelled(msg) => r matches RetryDecision::Retry(m) && m@ == "Solver retry "@ + decimal(
            attempt as nat,
        ) + ": "@ + debug_str(
            match msg {
                Some(t) => t@,
                None => "unknown"@,
            },
        ),
        SolveOutcome::Unsolvable(conflict) => if canceled {
            r matches RetryDecision::Retry(m) && m@ == "Solver retry "@ + decimal(attempt as nat)
        } else {
            r matches RetryDecision::Fail(m) && m@ == conflict@
        },
    }
}

/// Decide what to do after a run of resolvo, given whether its provider
/// asked to cancel.
pub fn after_solve(outcome: SolveOutcome, attempt: u64, canceled: bool) -> (r: RetryDecision)
    ensures
        is_retry_decision(outcome, attempt, canceled, r),
        outcome matches SolveOutcome::Cancelled(msg) ==> (r matches RetryDecision::Retry(m) && (match msg {
            Some(t) => plain_ascii(t@) ==> m@ == "Solver retry "@ + decimal(attempt as nat) + ": \""@ + t@
                + "\""@,
            None => m@ == "Solver retry "@ + decimal(attempt as nat) + ": \"unknown\""@,
        })),
{
    match outcome {
        SolveOutcome::Solved => RetryDecision::Done,
        SolveOutcome::Cancelled(msg) => {
            let mut m = String::new();
            push_text(&mut m, "Solver retry ");
            push_decimal(&mut m, attempt);
            push_text(&mut m, ": ");
            let shown = match &msg {
                Some(t) => debug_text(t.as_str()),
                None => {
                    let u = "unknown";
                    proof {
                        reveal_strlit("unknown");
                        assert(plain_ascii(u@));
                    }
                    debug_text(u)
                },
            };
            push_text(&mut m, shown.as_str());
            proof {
                reveal_strlit("Solver retry ");
                reveal_strlit(": ");
                reveal_strlit(": \"");
                reveal_strlit("\"");
                reveal_strlit(": \"unknown\"");
                reveal_strlit("unknown");
                match &msg {
                    Some(t) => {
                        if plain_ascii(t@) {
                            assert(m@ =~= "Solver retry "@ + decimal(attempt as nat) + ": \""@ + t@ + "\""@);
                        }
                    },
                    None => {
                        assert(m@ =~= "Solver retry "@ + decimal(attempt as nat) + ": \"unknown\""@);
                    },
                }
            }
            RetryDecision::Retry(m)
        },
        SolveOutcome::Unsolvable(conflict) => {
            if canceled {
                let mut m = String::new();
                push_text(&mut m, "Solver retry ");
                push_decimal(&mut m, attempt);
                RetryDecision::Retry(m)
            } else {
                RetryDecision::Fail(conflict)
            }
        },
    }
}

/// The kind of build of a solved package.
#[derive(Clone, Copy, Debug, PartialEq, Eq, Structural)]
pub enum BuildKind {
    Source,
    Embedded,
    BuildId,
}

/// Where a package of a solution comes from.
#[derive(Clone, Copy, Debug, PartialEq, Eq, Structural)]
pub enum SourceKind {
    /// Built from its recipe.
    BuildFromSource,
    /// A build in a repository.
    Repository,
    /// Embedded in another package.
    Embedded,
}

/// A solvable that resolvo picked: one component (or the base) of a build
/// of a package.
#[derive(Debug)]
pub struct SolvedComponent {
    pub name: String,
    pub component: SyntheticComponent,
    pub build: BuildKind,
    pub requires_build_from_source: bool,
}

/// A package of the solution: its name, the components requested of it, in
/// the order first solved, where it comes from, and which solvable first
/// brought it.
#[derive(Debug)]
pub struct SolutionEntry {
    pub name: String,
    pub components: Vec<Component>,
    pub source: SourceKind,
    pub first: usize,
}

/// Where a solved build comes from: a source build is built from source
/// when it has to be, else taken from its repository like a binary build;
/// an embedded stub comes from its parent.
pub open spec fn source_of(build: BuildKind, requires_build_from_source: bool) -> SourceKind {
    match build {
        BuildKind::Source => if requires_build_from_source {
            SourceKind::BuildFromSource
        } else {
            SourceKind::Repository
        },
        BuildKind::Embedded => SourceKind::Embedded,
        BuildKind::BuildId => SourceKind::Repository,
    }
}

/// The components requested of a package after one more of its components
/// is solved: once All is requested, only All stays (when All is solved) and
/// nothing else is added.
pub open spec fn merge_component(cs: Seq<Component>, c: Component) -> Seq<Component> {
    if !has_component(cs, Component::All) {
        if has_component(cs, c) {
            cs
        } else {
            cs.push(c)
        }
    } else if c is All {
        seq![Component::All]
    } else {
        cs
    }
}

/// A solution entry as plain values.
pub open spec fn entry_view(e: SolutionEntry) -> (Seq<char>, (Seq<Component>, SourceKind, usize)) {
    (e.name@, (e.components@, e.source, e.first))
}

/// The packages of a solution from the first `n` solvables: the base
/// solvables are left out; the first component of a package makes its
/// entry, later ones merge into it.
pub open spec fn solution_entries(solved: Seq<SolvedComponent>, n: int) -> Seq<(Seq<char>, (Seq<Component>, SourceKind, usize))>
    decreases n,
{
    if n <= 0 {
        Seq::empty()
    } else {
        let prev = solution_entries(solved, n - 1);
        let s = solved[n - 1];
        match s.component {
            SyntheticComponent::Base => prev,
            SyntheticComponent::Actual(c) => match find_key(prev, s.name@) {
                Some(i) => prev.update(i, (prev[i].0, (merge_component((prev[i].1).0, c), (prev[i].1).1, (prev[i].1).2))),
                None => prev.push((s.name@, (seq![c], source_of(s.build, s.requires_build_from_source), (n - 1) as usize))),
            },
        }
    }
}

/// The solution's packages from the solvables resolvo picked.
pub fn merge_solved(solved: &Vec<SolvedComponent>) -> (r: Vec<SolutionEntry>)
    ensures
        r@.map_values(|e: SolutionEntry| entry_view(e)) == solution_entries(solved@, solved@.len() as int),
{
    let mut out: Vec<SolutionEntry> = Vec::new();
    let mut i: usize = 0;
    while i < solved.len()
        invariant
            0 <= i <= solved@.len(),
            out@.map_values(|e: SolutionEntry| entry_view(e)) == solution_entries(solved@, i as int),
        decreases solved@.len() - i,
    {
        let s = &solved[i];
        match &s.component {
            SyntheticComponent::Base => {},
            SyntheticComponent::Actual(c) => {
                let ghost view = out@.map_values(|e: SolutionEntry| entry_view(e));
                proof {
                    lemma_find_key(view, s.name@);
                }
                let mut j: usize = out.len();
                let mut found: Option<usize> = None;
                proof {
                    assert(view.take(j as int) =~= view);
                }
                while j > 0 && found.is_none()
                    invariant
                        0 <= j <= out@.len(),
                        view == out@.map_values(|e: SolutionEntry| entry_view(e)),
                        found is None ==> find_key(view, s.name@) == find_key(view.take(j as int), s.name@),
                        found matches Some(k) ==> find_key(view, s.name@) == Some(k as int) && k < out@.len(),
                    decreases j,
                {
                    proof {
                        assert(view.take(j as int).drop_last() =~= view.take(j - 1));
                    }
                    if out[j - 1].name == s.name {
                        found = Some(j - 1);
                    }
                    j = j - 1;
                }
                proof {
                    if found is None {
                        assert(view.take(0) =~= Seq::<(Seq<char>, (Seq<Component>, SourceKind, usize))>::empty());
                    }
                }
                match found {
                    Some(k) => {
                        let has_all = crate::component::contains_component(&out[k].components, &Component::All);
                        let mut cs = crate::component::copy_components(&out[k].components);
                        if !has_all {
                            if !crate::component::contains_component(&cs, c) {
                                cs.push(c.clone());
                            }
                        } else if c.is_all() {
                            cs = vec![Component::All];
                        }
                        let name = out[k].name.clone();
                        let source = out[k].source;
                        let first = out[k].first;
                        proof {
                            assert(cs@ =~= merge_component(out@[k as int].components@, *c));
                        }
                        out.set(k, SolutionEntry { name, components: cs, source, first });
                        proof {
                            assert(out@.map_values(|e: SolutionEntry| entry_view(e)) =~= solution_entries(solved@, i + 1));
                        }
                    },
                    None => {
                        let source = match s.build {
                            BuildKind::Source => if s.requires_build_from_source {
                                SourceKind::BuildFromSource
                            } else {
                                SourceKind::Repository
                            },
                            BuildKind::Embedded => SourceKind::Embedded,
                            BuildKind::BuildId => SourceKind::Repository,
                        };
                        let ghost before = out@;
                        let entry = SolutionEntry { name: s.name.clone(), components: vec![c.clone()], source, first: i };
                        assert(entry_view(entry) == (s.name@, (seq![*c], source_of(s.build, s.requires_build_from_source), i)));
                        out.push(entry);
                        proof {
                            assert(find_key(view, s.name@) is None);
                            assert(solved@[i as int] == *s);
                            assert(out@ == before.push(entry));
                            assert(out@.map_values(|e: SolutionEntry| entry_view(e)) =~= view.push(entry_view(entry)));
                            assert(out@.map_values(|e: SolutionEntry| entry_view(e)) =~= solution_entries(solved@, i + 1));
                        }
                    },
                }
            },
        }
        i = i + 1;
    }
    out
}

/// A solution holds each package once: no two of its entries have the same
/// name.
pub proof fn lemma_solution_entries_distinct(solved: Seq<SolvedComponent>, n: int)
    ensures
        forall|i: int, j: int|
            0 <= i < j < solution_entries(solved, n).len() ==> (#[trigger] solution_entries(solved, n)[i]).0
                != (#[trigger] solution_entries(solved, n)[j]).0,
    decreases n,
{
    if n > 0 {
        lemma_solution_entries_distinct(solved, n - 1);
        let prev = solution_entries(solved, n - 1);
        let s = solved[n - 1];
        lemma_find_key(prev, s.name@);
        let cur = solution_entries(solved, n);
        match s.component {
            SyntheticComponent::Base => {},
            SyntheticComponent::Actual(c) => match find_key(prev, s.name@) {
                Some(k) => {
                    assert forall|i: int, j: int| 0 <= i < j < cur.len() implies (#[trigger] cur[i]).0
                        != (#[trigger] cur[j]).0 by {
                        assert(cur[i].0 == prev[i].0);
                        assert(cur[j].0 == prev[j].0);
                    }
                },
                None => {
                    assert forall|i: int, j: int| 0 <= i < j < cur.len() implies (#[trigger] cur[i]).0
                        != (#[trigger] cur[j]).0 by {
                        if j < prev.len() {
                            assert(cur[i] == prev[i]);
                            assert(cur[j] == prev[j]);
                        } else {
                            assert(cur[i] == prev[i]);
                        }
                    }
                },
            },
        }
    }
}

/// Once All is among the components requested of a package, solving All
/// leaves All as the only one and solving another changes nothing; until
/// then each solved component is requested, once.
pub proof fn lemma_merge_component_all(cs: Seq<Component>, c: Component)
    ensures
        has_component(cs, Component::All) && c is All ==> merge_component(cs, c) == seq![Component::All],
        has_component(cs, Component::All) && !(c is All) ==> merge_component(cs, c) == cs,
        !has_component(cs, Component::All) ==> has_component(merge_component(cs, c), c),
        !has_component(cs, Component::All) && has_component(cs, c) ==> merge_component(cs, c) == cs,
{
    if !has_component(cs, Component::All) && !has_component(cs, c) {
        let m = cs.push(c);
        assert(m[cs.len() as int] == c);
        assert(crate::component::same_component(c, c)) by {
            match c {
                Component::Named(x) => {},
                _ => {},
            }
        }
    }
}

/// A build option of a solved package, with its value if it has one: a
/// package option, or a var option (`namespace` the package it names, if
/// any).
#[derive(Debug)]
pub enum SolvedOption {
    Pkg { pkg: String, value: Option<String> },
    Var { namespace: Option<String>, var: String, value: Option<String> },
}

/// What the solution's options take from a solved package: its name, its
/// version as its compatibility renders it, and its build options.
#[derive(Debug)]
pub struct SolvedPackageOptions {
    pub name: String,
    pub rendered_version: String,
    pub options: Vec<SolvedOption>,
}

/// The option settings one solved package makes, in order: its name to its
/// version, then each of its options that has a value, named after the
/// package unless it names another package itself.
pub open spec fn package_option_updates(p: SolvedPackageOptions) -> Seq<(Seq<char>, Seq<char>)> {
    seq![(p.name@, p.rendered_version@)] + option_updates(p.name@, p.options@)
}

/// The option settings of a package's build options.
pub open spec fn option_updates(name: Seq<char>, os: Seq<SolvedOption>) -> Seq<(Seq<char>, Seq<char>)>
    decreases os.len(),
{
    if os.len() == 0 {
        Seq::empty()
    } else {
        option_updates(name, os.drop_last()) + match os.last() {
            SolvedOption::Pkg { pkg, value: Some(v) } => seq![(name + "."@ + pkg@, v@)],
            SolvedOption::Var { namespace: None, var, value: Some(v) } => seq![(name + "."@ + var@, v@)],
            SolvedOption::Var { namespace: Some(_), var, value: Some(v) } => seq![(var@, v@)],
            _ => Seq::empty(),
        }
    }
}

/// The option settings of all the solved packages, in order.
pub open spec fn solution_option_updates(ps: Seq<SolvedPackageOptions>) -> Seq<(Seq<char>, Seq<char>)>
    decreases ps.len(),
{
    if ps.len() == 0 {
        Seq::empty()
    } else {
        solution_option_updates(ps.drop_last()) + package_option_updates(ps.last())
    }
}

pub(crate) fn find_setting(g: &Vec<(String, String)>, key: &String) -> (r: Option<usize>)
    ensures
        r matches Some(i) ==> find_key(g@.map_values(|e: (String, String)| (e.0@, e.1@)), key@) == Some(
            i as int,
        ),
        r is None ==> find_key(g@.map_values(|e: (String, String)| (e.0@, e.1@)), key@) is None,
{
    let ghost view = g@.map_values(|e: (String, String)| (e.0@, e.1@));
    let mut i: usize = g.len();
    assert(view.take(i as int) =~= view);
    while i > 0
        invariant
            0 <= i <= g@.len(),
            view == g@.map_values(|e: (String, String)| (e.0@, e.1@)),
            find_key(view, key@) == find_key(view.take(i as int), key@),
        decreases i,
    {
        proof {
            assert(view.take(i as int).drop_last() =~= view.take(i - 1));
        }
        if g[i - 1].0 == *key {
            return Some(i - 1);
        }
        i = i - 1;
    }
    None
}

pub(crate) fn set_setting(opts: &mut Vec<(String, String)>, key: String, value: String)
    ensures
        final(opts)@.map_values(|e: (String, String)| (e.0@, e.1@)) == set_option(
            old(opts)@.map_values(|e: (String, String)| (e.0@, e.1@)),
            key@,
            value@,
        ),
{
    proof {
        lemma_find_key(old(opts)@.map_values(|e: (String, String)| (e.0@, e.1@)), key@);
    }
    match find_setting(opts, &key) {
        Some(i) => {
            opts.set(i, (key, value));
        },
        None => {
            opts.push((key, value));
        },
    }
    proof {
        assert(final(opts)@.map_values(|e: (String, String)| (e.0@, e.1@)) =~= set_option(
            old(opts)@.map_values(|e: (String, String)| (e.0@, e.1@)),
            key@,
            value@,
        ));
    }
}

pub(crate) fn dotted(a: &String, b: &String) -> (r: String)
    ensures
        r@ == a@ + "."@ + b@,
{
    let mut r = a.clone();
    push_text(&mut r, ".");
    push_text(&mut r, b.as_str());
    r
}

/// The options of the solution from its solved packages: each setting
/// replaces an earlier one of the same name.
pub fn solution_options(packages: &Vec<SolvedPackageOptions>) -> (r: Vec<(String, String)>)
    ensures
        r@.map_values(|e: (String, String)| (e.0@, e.1@)) == set_options(
            Seq::empty(),
            solution_option_updates(packages@),
        ),
{
    let mut opts: Vec<(String, String)> = Vec::new();
    proof {
        assert(opts@.map_values(|e: (String, String)| (e.0@, e.1@)) =~= Seq::<(Seq<char>, Seq<char>)>::empty());
    }
    let mut i: usize = 0;
    while i < packages.len()
        invariant
            0 <= i <= packages@.len(),
            opts@.map_values(|e: (String, String)| (e.0@, e.1@)) == set_options(
                Seq::empty(),
                solution_option_updates(packages@.take(i as int)),
            ),
        decreases packages@.len() - i,
    {
        proof {
            assert(packages@.take(i + 1).drop_last() =~= packages@.take(i as int));
        }
        let p = &packages[i];
        let ghost base = solution_option_updates(packages@.take(i as int));
        set_setting(&mut opts, p.name.clone(), p.rendered_version.clone());
        proof {
            lemma_set_options_append(Seq::empty(), base, seq![(p.name@, p.rendered_version@)]);
            assert(set_options(set_options(Seq::empty(), base), seq![(p.name@, p.rendered_version@)]) == set_option(
                set_options(set_options(Seq::empty(), base), Seq::empty()),
                p.name@,
                p.rendered_version@,
            )) by {
                assert(seq![(p.name@, p.rendered_version@)].drop_last() =~= Seq::<(Seq<char>, Seq<char>)>::empty());
            }
        }
        let ghost head = base + seq![(p.name@, p.rendered_version@)];
        let mut k: usize = 0;
        while k < p.options.len()
            invariant
                0 <= k <= p.options@.len(),
                opts@.map_values(|e: (String, String)| (e.0@, e.1@)) == set_options(
                    Seq::empty(),
                    head + option_updates(p.name@, p.options@.take(k as int)),
                ),
            decreases p.options@.len() - k,
        {
            proof {
                assert(p.options@.take(k + 1).drop_last() =~= p.options@.take(k as int));
            }
            let ghost prev = head + option_updates(p.name@, p.options@.take(k as int));
            match &p.options[k] {
                SolvedOption::Pkg { pkg, value: Some(v) } => {
                    set_setting(&mut opts, dotted(&p.name, pkg), v.clone());
                    proof {
                        let u = (p.name@ + "."@ + pkg@, v@);
                        assert(prev.push(u).drop_last() =~= prev);
                        assert(head + option_updates(p.name@, p.options@.take(k + 1)) =~= prev.push(u));
                    }
                },
                SolvedOption::Var { namespace: None, var, value: Some(v) } => {
                    set_setting(&mut opts, dotted(&p.name, var), v.clone());
                    proof {
                        let u = (p.name@ + "."@ + var@, v@);
                        assert(prev.push(u).drop_last() =~= prev);
                        assert(head + option_updates(p.name@, p.options@.take(k + 1)) =~= prev.push(u));
                    }
                },
                SolvedOption::Var { namespace: Some(_), var, value: Some(v) } => {
                    set_setting(&mut opts, var.clone(), v.clone());
                    proof {
                        let u = (var@, v@);
                        assert(prev.push(u).drop_last() =~= prev);
                        assert(head + option_updates(p.name@, p.options@.take(k + 1)) =~= prev.push(u));
                    }
                },
                _ => {
                    proof {
                        assert(head + option_updates(p.name@, p.options@.take(k + 1)) =~= prev);
                    }
                },
            }
            k = k + 1;
        }
        proof {
            assert(p.options@.take(p.options@.len() as int) =~= p.options@);
            assert(head + option_updates(p.name@, p.options@) =~= solution_option_updates(packages@.take(i + 1)));
        }
        i = i + 1;
    }
    proof {
        assert(packages@.take(packages@.len() as int) =~= packages@);
    }
    opts
}

/// Setting `a` then `b` is setting `a + b`.
pub proof fn lemma_set_options_append(
    o: Seq<(Seq<char>, Seq<char>)>,
    a: Seq<(Seq<char>, Seq<char>)>,
    b: Seq<(Seq<char>, Seq<char>)>,
)
    ensures
        set_options(set_options(o, a), b) == set_options(o, a + b),
    decreases b.len(),
{
    if b.len() == 0 {
        assert(a + b =~= a);
    } else {
        lemma_set_options_append(o, a, b.drop_last());
        assert((a + b).drop_last() =~= a + b.drop_last());
        assert((a + b).last() == b.last());
    }
}

} // verus!
