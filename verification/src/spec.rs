//! Package recipes and package specs, by their api version, as the solver
//! reads them, and how the api version of a spec file is chosen.

use vstd::prelude::*;
use vstd::string::{StrSliceExecFns, StringExecFns};
use crate::text::push_text;

verus! {

/// What the solver reads of a package spec of the v0 api.
#[derive(Debug)]
pub struct V0Spec {
    pub name: String,
    pub version: String,
    pub deprecated: bool,
}

/// A buildable object: a recipe, by the api it is written in.
#[derive(Debug)]
pub enum SpecRecipe {
    V0Package(V0Spec),
}

/// A resolvable object: a package spec, by the api it is written in.
#[derive(Debug)]
pub enum Spec {
    V0Package(V0Spec),
}

impl SpecRecipe {
    /// The recipe's package name.
    pub fn name(&self) -> (r: &String)
        ensures
            self matches SpecRecipe::V0Package(s) && r == &s.name,
    {
        match self {
            SpecRecipe::V0Package(s) => &s.name,
        }
    }

    /// The recipe's version.
    pub fn version(&self) -> (r: &String)
        ensures
            self matches SpecRecipe::V0Package(s) && r == &s.version,
    {
        match self {
            SpecRecipe::V0Package(s) => &s.version,
        }
    }

    /// Whether the recipe is deprecated.
    pub fn is_deprecated(&self) -> (r: bool)
        ensures
            self matches SpecRecipe::V0Package(s) && r == s.deprecated,
    {
        match self {
            SpecRecipe::V0Package(s) => s.deprecated,
        }
    }
}

impl Spec {
    /// The package name.
    pub fn name(&self) -> (r: &String)
        ensures
            self matches Spec::V0Package(s) && r == &s.name,
    {
        match self {
            Spec::V0Package(s) => &s.name,
        }
    }

    /// The package version.
    pub fn version(&self) -> (r: &String)
        ensures
            self matches Spec::V0Package(s) && r == &s.version,
    {
        match self {
            Spec::V0Package(s) => &s.version,
        }
    }

    /// Whether the package is deprecated.
    pub fn is_deprecated(&self) -> (r: bool)
        ensures
            self matches Spec::V0Package(s) && r == s.deprecated,
    {
        match self {
            Spec::V0Package(s) => s.deprecated,
        }
    }
}

/// The `api` field of a spec file: missing, a string, or another kind of
/// value.
#[derive(Debug)]
pub enum ApiField {
    Missing,
    Text(String),
    NotText,
}

/// The api versions of spec files.
#[derive(Clone, Copy, Debug, PartialEq, Eq, Structural)]
pub enum SpecApi {
    V0Package,
}

/// The api a spec file is read with: the one its `api` field names, the v0
/// package api when it has none; any other value is refused, with why.
pub open spec fn api_of(field: ApiField) -> Result<SpecApi, Seq<char>> {
    match field {
        ApiField::Missing => Ok(SpecApi::V0Package),
        ApiField::Text(t) => if t@ == "v0/package"@ {
            Ok(SpecApi::V0Package)
        } else {
            Err("Unknown api variant: '"@ + t@ + "'"@)
        },
        ApiField::NotText => Err("Invalid value for field 'api', expected string type"@),
    }
}

/// Choose the api that a spec file is read with, from its `api` field.
pub fn select_api(field: &ApiField) -> (r: Result<SpecApi, String>)
    ensures
        r matches Ok(a) ==> api_of(*field) == Ok::<SpecApi, Seq<char>>(a),
        r matches Err(m) ==> api_of(*field) == Err::<SpecApi, Seq<char>>(m@),
{
    match field {
        ApiField::Missing => Ok(SpecApi::V0Package),
        ApiField::Text(t) => {
            let v0 = String::from_str("v0/package");
            if *t == v0 {
                Ok(SpecApi::V0Package)
            } else {
                let mut m = String::new();
                push_text(&mut m, "Unknown api variant: '");
                push_text(&mut m, t.as_str());
                push_text(&mut m, "'");
                Err(m)
            }
        },
        ApiField::NotText => Err(String::from_str("Invalid value for field 'api', expected string type")),
    }
}

/// The package name that a template's `pkg` field gives: the text before
/// its first `/`, or all of it when there is none.
pub fn template_pkg_name(pkg: &str) -> (r: String)
    ensures
        (forall|j: int| 0 <= j < pkg@.len() ==> pkg@[j] != '/') ==> r@ == pkg@,
        forall|i: int|
            0 <= i < pkg@.len() && pkg@[i] == '/' && (forall|j: int| 0 <= j < i ==> pkg@[j] != '/') ==> r@
                == pkg@.take(i),
{
    let n = pkg.unicode_len();
    let mut i: usize = 0;
    while i < n
        invariant
            n == pkg@.len(),
            0 <= i <= n,
            forall|j: int| 0 <= j < i ==> pkg@[j] != '/',
        decreases n - i,
    {
        if pkg.get_char(i) == '/' {
            let r = String::from_str(pkg.substring_char(0, i));
            proof {
                assert forall|k: int|
                    0 <= k < pkg@.len() && pkg@[k] == '/' && (forall|j: int| 0 <= j < k ==> pkg@[j] != '/') implies r@
                    == pkg@.take(k) by {
                    if k != i as int {
                        assert(k > i || k < i);
                    }
                    assert(pkg@.subrange(0, i as int) =~= pkg@.take(i as int));
                }
            }
            return r;
        }
        i = i + 1;
    }
    String::from_str(pkg)
}

} // verus!
