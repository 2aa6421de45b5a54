//! The two solvers behind one interface: the step solver and the
//! CDCL solver, which hands the problem to resolvo. The CDCL solver only
//! collects repositories, requests and options before a solve.

use vstd::prelude::*;
use crate::component::Component;
use crate::frequency::{find_key, lemma_find_key, lemma_find_key_at, lemma_find_key_is_last};
use crate::globals::lemma_find_key_update;
use crate::step::{self, PkgRequestSummary, Request, defaulted_components};
use crate::text::texts;

verus! {

/// A solver driven by resolvo: its repositories, requests and options, and
/// whether only pre-built binary packages may be used (the default).
#[derive(Debug)]
pub struct CdclSolver {
    repositories: Vec<String>,
    requests: Vec<Request>,
    options: Vec<(String, String)>,
    binary_only: bool,
}

/// What a CDCL solver holds, as plain values.
pub struct CdclSolverView {
    pub repositories: Seq<Seq<char>>,
    pub requests: Seq<Request>,
    /// The options, each name once, in the order first set.
    pub options: Seq<(Seq<char>, Seq<char>)>,
    pub binary_only: bool,
}

impl View for CdclSolver {
    type V = CdclSolverView;

    closed spec fn view(&self) -> CdclSolverView {
        CdclSolverView {
            repositories: texts(self.repositories@),
            requests: self.requests@,
            options: self.options@.map_values(|e: (String, String)| (e.0@, e.1@)),
            binary_only: self.binary_only,
        }
    }
}

/// The options after setting `value` for `name`: a name already set takes
/// the new value, a new name comes last.
pub open spec fn set_option(
    options: Seq<(Seq<char>, Seq<char>)>,
    name: Seq<char>,
    value: Seq<char>,
) -> Seq<(Seq<char>, Seq<char>)> {
    match find_key(options, name) {
        Some(i) => options.update(i, (name, value)),
        None => options.push((name, value)),
    }
}

/// The options after setting each of `updates` in order.
pub open spec fn set_options(
    options: Seq<(Seq<char>, Seq<char>)>,
    updates: Seq<(Seq<char>, Seq<char>)>,
) -> Seq<(Seq<char>, Seq<char>)>
    decreases updates.len(),
{
    if updates.len() == 0 {
        options
    } else {
        let prev = set_options(options, updates.drop_last());
        set_option(prev, updates.last().0, updates.last().1)
    }
}

/// The value an option has, if any.
pub open spec fn option_value(options: Seq<(Seq<char>, Seq<char>)>, name: Seq<char>) -> Option<Seq<char>> {
    match find_key(options, name) {
        Some(i) => Some(options[i].1),
        None => None,
    }
}

/// The value of the last of `updates` that sets `name`, if any.
pub open spec fn last_setting(updates: Seq<(Seq<char>, Seq<char>)>, name: Seq<char>) -> Option<Seq<char>>
    decreases updates.len(),
{
    if updates.len() == 0 {
        None
    } else if updates.last().0 == name {
        Some(updates.last().1)
    } else {
        last_setting(updates.drop_last(), name)
    }
}

/// Setting an option gives it the new value and leaves every other option
/// as it was.
pub proof fn lemma_set_option_value(
    options: Seq<(Seq<char>, Seq<char>)>,
    name: Seq<char>,
    value: Seq<char>,
    other: Seq<char>,
)
    ensures
        option_value(set_option(options, name, value), name) == Some(value),
        other != name ==> option_value(set_option(options, name, value), other) == option_value(options, other),
{
    lemma_find_key(options, name);
    let after = set_option(options, name, value);
    match find_key(options, name) {
        Some(i) => {
            lemma_find_key_is_last(options, name, i);
            assert forall|j: int| i < j < after.len() implies (#[trigger] after[j]).0 != name by {
                assert(after[j] == options[j]);
            }
            lemma_find_key_at(after, name, i);
            if other != name {
                lemma_find_key_update(options, i, value, other);
                lemma_find_key(options, other);
                match find_key(options, other) {
                    Some(j) => {
                        assert(j != i);
                        assert(after[j] == options[j]);
                    },
                    None => {},
                }
            }
        },
        None => {
            assert(after.drop_last() =~= options);
            lemma_find_key_at(after, name, after.len() - 1);
            if other != name {
                assert(find_key(after, other) == find_key(options, other));
                lemma_find_key(options, other);
                match find_key(options, other) {
                    Some(j) => {
                        assert(after[j] == options[j]);
                    },
                    None => {},
                }
            }
        },
    }
}

/// After a series of settings, each option has the value of its last
/// setting, and an option never set keeps the value it had.
pub proof fn lemma_last_setting_wins(
    options: Seq<(Seq<char>, Seq<char>)>,
    updates: Seq<(Seq<char>, Seq<char>)>,
    name: Seq<char>,
)
    ensures
        option_value(set_options(options, updates), name) == match last_setting(updates, name) {
            Some(v) => Some(v),
            None => option_value(options, name),
        },
    decreases updates.len(),
{
    if updates.len() > 0 {
        lemma_last_setting_wins(options, updates.drop_last(), name);
        let prev = set_options(options, updates.drop_last());
        lemma_set_option_value(prev, updates.last().0, updates.last().1, name);
    }
}

/// A request as it is added to a solver: a package request that names no
/// component asks for the source component of a source build and for the
/// default run component otherwise.
pub open spec fn defaulted_request(before: Request, after: Request) -> bool {
    match before {
        Request::Pkg(p) => after matches Request::Pkg(q) && q.text@ == p.text@ && q.is_source == p.is_source
            && q.components@ == defaulted_components(p),
        Request::Var { var, value } => after == (Request::Var { var, value }),
    }
}

fn find_option(g: &Vec<(String, String)>, key: &String) -> (r: Option<usize>)
    ensures
        r matches Some(i) ==> find_key(g@.map_values(|e: (String, String)| (e.0@, e.1@)), key@) == Some(
            i as int,
        ),
        r is None ==> find_key(g@.map_values(|e: (String, String)| (e.0@, e.1@)), key@) is None,
{
    let ghost view = g@.map_values(|e: (String, String)| (e.0@, e.1@));
    let mut i: usize = g.len();
    assert(view.take(i as int) =~= view);
    while i > 0
        invariant
            0 <= i <= g@.len(),
            view == g@.map_values(|e: (String, String)| (e.0@, e.1@)),
            find_key(view, key@) == find_key(view.take(i as int), key@),
        decreases i,
    {
        proof {
            assert(view.take(i as int).drop_last() =~= view.take(i - 1));
        }
        if g[i - 1].0 == *key {
            return Some(i - 1);
        }
        i = i - 1;
    }
    None
}

impl CdclSolver {
    /// A solver with no repositories, requests or options, that uses only
    /// pre-built binary packages.
    pub fn new(repositories: Vec<String>) -> (r: Self)
        ensures
            r@.repositories == texts(repositories@),
            r@.requests.len() == 0,
            r@.options.len() == 0,
            r@.binary_only,
    {
        let r = CdclSolver { repositories, requests: Vec::new(), options: Vec::new(), binary_only: true };
        proof {
            assert(r@.options =~= Seq::empty());
        }
        r
    }

    /// Add a repository where the solver can get packages.
    pub fn add_repository(&mut self, name: String)
        ensures
            final(self)@ == (CdclSolverView { repositories: old(self)@.repositories.push(name@), ..old(self)@ }),
    {
        self.repositories.push(name);
        proof {
            assert(texts(self.repositories@) =~= texts(old(self).repositories@).push(name@));
        }
    }

    /// Add a request to this solver, with the components of a package
    /// request defaulted.
    pub fn add_request(&mut self, request: Request)
        ensures
            final(self)@.repositories == old(self)@.repositories,
            final(self)@.options == old(self)@.options,
            final(self)@.binary_only == old(self)@.binary_only,
            final(self)@.requests.len() == old(self)@.requests.len() + 1,
            final(self)@.requests.drop_last() == old(self)@.requests,
            defaulted_request(request, final(self)@.requests.last()),
    {
        let ghost old_request = request;
        let request = match request {
            Request::Pkg(mut p) => {
                let ghost orig = p;
                if p.components.len() == 0 {
                    if p.is_source {
                        p.components.push(Component::Source);
                    } else {
                        p.components.push(Component::default_for_run());
                    }
                    proof {
                        assert(p.components@ =~= defaulted_components(orig));
                    }
                }
                let r = Request::Pkg(p);
                proof {
                    assert(defaulted_request(old_request, r));
                }
                r
            },
            Request::Var { var, value } => Request::Var { var, value },
        };
        let ghost added = request;
        self.requests.push(request);
        proof {
            assert(self.requests@.drop_last() =~= old(self).requests@);
            assert(self.requests@.last() == added);
        }
    }

    /// Put this solver back into its default state: no repositories or
    /// requests. Its options and binary-only setting stay.
    pub fn reset(&mut self)
        ensures
            final(self)@ == (CdclSolverView {
                repositories: Seq::empty(),
                requests: Seq::empty(),
                ..old(self)@
            }),
    {
        self.repositories.truncate(0);
        self.requests.truncate(0);
        proof {
            assert(texts(self.repositories@) =~= Seq::<Seq<char>>::empty());
            assert(self.requests@ =~= Seq::<Request>::empty());
        }
    }

    /// If true, only solve pre-built binary packages.
    pub fn set_binary_only(&mut self, binary_only: bool)
        ensures
            final(self)@ == (CdclSolverView { binary_only, ..old(self)@ }),
    {
        self.binary_only = binary_only;
    }

    /// Set the given options for the solve: each replaces the value of an
    /// option of the same name.
    pub fn update_options(&mut self, options: Vec<(String, String)>)
        ensures
            final(self)@ == (CdclSolverView {
                options: set_options(old(self)@.options, options@.map_values(|e: (String, String)| (e.0@, e.1@))),
                ..old(self)@
            }),
    {
        let ghost updates = options@.map_values(|e: (String, String)| (e.0@, e.1@));
        let mut i: usize = 0;
        while i < options.len()
            invariant
                0 <= i <= options@.len(),
                updates == options@.map_values(|e: (String, String)| (e.0@, e.1@)),
                self@ == (CdclSolverView {
                    options: set_options(old(self)@.options, updates.take(i as int)),
                    ..old(self)@
                }),
            decreases options@.len() - i,
        {
            proof {
                assert(updates.take(i + 1).drop_last() =~= updates.take(i as int));
            }
            let ghost before = self@.options;
            let name = options[i].0.clone();
            let value = options[i].1.clone();
            proof {
                lemma_find_key(before, name@);
            }
            let found = find_option(&self.options, &name);
            match found {
                Some(k) => {
                    self.options.set(k, (name, value));
                },
                None => {
                    self.options.push((name, value));
                },
            }
            proof {
                assert(self@.options =~= set_option(before, updates[i as int].0, updates[i as int].1));
            }
            i = i + 1;
        }
        proof {
            assert(updates.take(options@.len() as int) =~= updates);
        }
    }
}

/// The package requests among `reqs`, in order, as plain values.
pub open spec fn pkg_request_views(reqs: Seq<Request>) -> Seq<(Seq<char>, bool, Seq<Component>)>
    decreases reqs.len(),
{
    if reqs.len() == 0 {
        Seq::empty()
    } else {
        let prev = pkg_request_views(reqs.drop_last());
        match reqs.last() {
            Request::Pkg(p) => prev.push((p.text@, p.is_source, p.components@)),
            Request::Var { .. } => prev,
        }
    }
}

/// The var requests among `reqs`, in order, as plain values.
pub open spec fn var_request_views(reqs: Seq<Request>) -> Seq<(Seq<char>, Seq<char>)>
    decreases reqs.len(),
{
    if reqs.len() == 0 {
        Seq::empty()
    } else {
        let prev = var_request_views(reqs.drop_last());
        match reqs.last() {
            Request::Var { var, value } => prev.push((var@, value@)),
            Request::Pkg(_) => prev,
        }
    }
}

impl CdclSolver {
    /// The options set for the solve.
    pub fn get_options(&self) -> (r: &Vec<(String, String)>)
        ensures
            r@.map_values(|e: (String, String)| (e.0@, e.1@)) == self@.options,
    {
        &self.options
    }

    /// The repositories, in the order they were added.
    pub fn repositories(&self) -> (r: &Vec<String>)
        ensures
            texts(r@) == self@.repositories,
    {
        &self.repositories
    }

    /// Whether only pre-built binary packages may be used.
    pub fn binary_only(&self) -> (r: bool)
        ensures
            r == self@.binary_only,
    {
        self.binary_only
    }

    /// The package requests, in the order they were added.
    pub fn get_pkg_requests(&self) -> (r: Vec<PkgRequestSummary>)
        ensures
            r@.map_values(|p: PkgRequestSummary| (p.text@, p.is_source, p.components@)) == pkg_request_views(
                self@.requests,
            ),
    {
        let mut r: Vec<PkgRequestSummary> = Vec::new();
        let mut i: usize = 0;
        while i < self.requests.len()
            invariant
                0 <= i <= self.requests@.len(),
                r@.map_values(|p: PkgRequestSummary| (p.text@, p.is_source, p.components@)) == pkg_request_views(
                    self.requests@.take(i as int),
                ),
            decreases self.requests@.len() - i,
        {
            proof {
                assert(self.requests@.take(i + 1).drop_last() =~= self.requests@.take(i as int));
            }
            match &self.requests[i] {
                Request::Pkg(p) => {
                    let c = PkgRequestSummary {
                        text: p.text.clone(),
                        is_source: p.is_source,
                        components: crate::component::copy_components(&p.components),
                    };
                    let ghost before = r@;
                    r.push(c);
                    proof {
                        assert(r@ == before.push(c));
                        assert(r@.map_values(|p: PkgRequestSummary| (p.text@, p.is_source, p.components@))
                            =~= pkg_request_views(self.requests@.take(i + 1)));
                    }
                },
                Request::Var { .. } => {},
            }
            i = i + 1;
        }
        proof {
            assert(self.requests@.take(self.requests@.len() as int) =~= self.requests@);
        }
        r
    }

    /// The var requests, in the order they were added.
    pub fn get_var_requests(&self) -> (r: Vec<(String, String)>)
        ensures
            r@.map_values(|e: (String, String)| (e.0@, e.1@)) == var_request_views(self@.requests),
    {
        let mut r: Vec<(String, String)> = Vec::new();
        let mut i: usize = 0;
        while i < self.requests.len()
            invariant
                0 <= i <= self.requests@.len(),
                r@.map_values(|e: (String, String)| (e.0@, e.1@)) == var_request_views(self.requests@.take(i as int)),
            decreases self.requests@.len() - i,
        {
            proof {
                assert(self.requests@.take(i + 1).drop_last() =~= self.requests@.take(i as int));
            }
            match &self.requests[i] {
                Request::Var { var, value } => {
                    let ghost before = r@;
                    let e = (var.clone(), value.clone());
                    r.push(e);
                    proof {
                        assert(r@ == before.push(e));
                        assert(r@.map_values(|e: (String, String)| (e.0@, e.1@)) =~= var_request_views(
                            self.requests@.take(i + 1),
                        ));
                    }
                },
                Request::Pkg(_) => {},
            }
            i = i + 1;
        }
        proof {
            assert(self.requests@.take(self.requests@.len() as int) =~= self.requests@);
        }
        r
    }
}

/// The solver that a command runs: the step solver, or the CDCL
/// solver.
#[derive(Debug)]
pub enum SolverImpl {
    Og(step::Solver),
    Cdcl(CdclSolver),
}

impl SolverImpl {
    /// Add a repository where the solver can get packages.
    pub fn add_repository(&mut self, name: String)
        ensures
            *old(self) is Og ==> *final(self) is Og,
            *old(self) is Cdcl ==> *final(self) is Cdcl,
            *old(self) matches SolverImpl::Og(s) ==> final(self)->Og_0@ == (step::SolverView {
                repositories: s@.repositories.push(name@),
                ..s@
            }),
            *old(self) matches SolverImpl::Cdcl(s) ==> final(self)->Cdcl_0@ == (CdclSolverView {
                repositories: s@.repositories.push(name@),
                ..s@
            }),
    {
        match self {
            SolverImpl::Og(s) => s.add_repository(name),
            SolverImpl::Cdcl(s) => s.add_repository(name),
        }
    }

    /// If true, only solve pre-built binary packages.
    pub fn set_binary_only(&mut self, binary_only: bool)
        ensures
            *old(self) is Og ==> *final(self) is Og,
            *old(self) is Cdcl ==> *final(self) is Cdcl,
            *old(self) matches SolverImpl::Og(s) ==> final(self)->Og_0@ == (step::SolverView {
                validators: step::binary_only_validators(s@.validators, binary_only),
                ..s@
            }),
            *old(self) matches SolverImpl::Cdcl(s) ==> final(self)->Cdcl_0@ == (CdclSolverView { binary_only, ..s@ }),
    {
        match self {
            SolverImpl::Og(s) => s.set_binary_only(binary_only),
            SolverImpl::Cdcl(s) => s.set_binary_only(binary_only),
        }
    }
}

/// A no-frills resolver: it runs a solve to its solution.
#[derive(Debug)]
pub struct DefaultResolver {}

} // verus!
