//! Package components as the solvers see them.

use vstd::prelude::*;

verus! {

/// A named part of a package that can be requested on its own.
#[derive(Debug)]
pub enum Component {
    All,
    Build,
    Run,
    Source,
    Named(String),
}

/// The component of a package, or the "base" that stands for the package
/// version as a whole.
#[derive(Debug)]
pub enum SyntheticComponent {
    /// This represents the "parent" of any components of a package, used to
    /// prevent components from different versions of a package from getting
    /// into the same solution.
    Base,
    /// Real components.
    Actual(Component),
}

impl Clone for Component {
    fn clone(&self) -> (r: Self)
        ensures
            r == *self,
    {
        match self {
            Component::All => Component::All,
            Component::Build => Component::Build,
            Component::Run => Component::Run,
            Component::Source => Component::Source,
            Component::Named(n) => Component::Named(n.clone()),
        }
    }
}

impl Clone for SyntheticComponent {
    fn clone(&self) -> (r: Self)
        ensures
            r == *self,
    {
        match self {
            SyntheticComponent::Base => SyntheticComponent::Base,
            SyntheticComponent::Actual(c) => SyntheticComponent::Actual(c.clone()),
        }
    }
}

/// A copy of a list of components.
pub fn copy_components(cs: &Vec<Component>) -> (r: Vec<Component>)
    ensures
        r@ == cs@,
{
    let mut r: Vec<Component> = Vec::new();
    let mut i: usize = 0;
    while i < cs.len()
        invariant
            0 <= i <= cs@.len(),
            r@ == cs@.take(i as int),
        decreases cs@.len() - i,
    {
        r.push(cs[i].clone());
        proof {
            assert(r@ =~= cs@.take(i + 1));
        }
        i = i + 1;
    }
    proof {
        assert(cs@.take(cs@.len() as int) =~= cs@);
    }
    r
}

/// Two components are the same component.
pub open spec fn same_component(a: Component, b: Component) -> bool {
    match (a, b) {
        (Component::All, Component::All) => true,
        (Component::Build, Component::Build) => true,
        (Component::Run, Component::Run) => true,
        (Component::Source, Component::Source) => true,
        (Component::Named(x), Component::Named(y)) => x@ == y@,
        _ => false,
    }
}

/// A component equals a synthetic component only when that is the same
/// actual component; the base never equals a component.
pub open spec fn matches_synthetic(c: Component, s: SyntheticComponent) -> bool {
    match s {
        SyntheticComponent::Base => false,
        SyntheticComponent::Actual(a) => same_component(c, a),
    }
}

/// The component that a request with no components asks for when it is
/// not a request for a source build.
pub open spec fn spec_default_for_run() -> Component {
    Component::Run
}

impl Component {
    /// The component requested by default at runtime.
    pub fn default_for_run() -> (r: Component)
        ensures
            r == spec_default_for_run(),
    {
        Component::Run
    }

    /// True for the `All` component.
    pub fn is_all(&self) -> (r: bool)
        ensures
            r == (*self is All),
    {
        matches!(self, Component::All)
    }

    /// Compare two components.
    pub fn same_as(&self, other: &Component) -> (r: bool)
        ensures
            r == same_component(*self, *other),
    {
        match (self, other) {
            (Component::All, Component::All) => true,
            (Component::Build, Component::Build) => true,
            (Component::Run, Component::Run) => true,
            (Component::Source, Component::Source) => true,
            (Component::Named(x), Component::Named(y)) => *x == *y,
            _ => false,
        }
    }

    /// Compare this component with a synthetic one.
    pub fn matches_synthetic(&self, other: &SyntheticComponent) -> (r: bool)
        ensures
            r == matches_synthetic(*self, *other),
    {
        match other {
            SyntheticComponent::Base => false,
            SyntheticComponent::Actual(a) => self.same_as(a),
        }
    }
}

impl SyntheticComponent {
    /// True for the actual `All` component.
    pub fn is_all(&self) -> (r: bool)
        ensures
            r == (*self matches SyntheticComponent::Actual(c) && c is All),
    {
        match self {
            SyntheticComponent::Actual(c) => c.is_all(),
            SyntheticComponent::Base => false,
        }
    }
}

/// True when `cs` holds a component equal to `c`.
pub open spec fn has_component(cs: Seq<Component>, c: Component) -> bool {
    exists|i: int| 0 <= i < cs.len() && same_component(#[trigger] cs[i], c)
}

/// Whether `cs` holds a component equal to `c`.
pub fn contains_component(cs: &Vec<Component>, c: &Component) -> (r: bool)
    ensures
        r == has_component(cs@, *c),
{
    let mut i: usize = 0;
    while i < cs.len()
        invariant
            0 <= i <= cs@.len(),
            forall|j: int| 0 <= j < i ==> !same_component(#[trigger] cs@[j], *c),
        decreases cs@.len() - i,
    {
        if cs[i].same_as(c) {
            return true;
        }
        i = i + 1;
    }
    false
}

} // verus!
