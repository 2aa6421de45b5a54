//! Whether the CDCL solver may build a package from source: the verdict
//! from the trail of builds already being built, the recipe that was read,
//! and the solves of the recipe's variants.

use vstd::prelude::*;
use crate::text::push_text;

verus! {

/// What reading the recipe of a build gave.
#[derive(Debug)]
pub enum RecipeLookup {
    /// The build's repository is not one the solver uses.
    NoRepository,
    /// The recipe could not be read, with the error.
    ReadFailed(String),
    /// The recipe is deprecated.
    Deprecated,
    /// The recipe was read.
    Found,
}

/// What trying to solve the build environment of one variant gave.
#[derive(Debug)]
pub enum VariantOutcome {
    /// The variant's build requirements could not be had, with the error.
    RequirementsFailed(String),
    /// The build environment was solved.
    Solved,
    /// The solve failed.
    SolveFailed,
}

/// Whether a build can be built from source, with the reason when not.
#[derive(Debug)]
pub enum CanBuildFromSource {
    Yes,
    No(String),
}

/// The index of the first variant whose outcome decides, if any.
pub open spec fn first_decisive(vs: Seq<VariantOutcome>, n: int) -> Option<int>
    decreases n,
{
    if n <= 0 {
        None
    } else {
        match first_decisive(vs, n - 1) {
            Some(i) => Some(i),
            None => if vs[n - 1] is SolveFailed {
                None
            } else {
                Some(n - 1)
            },
        }
    }
}

/// The verdict as plain values: `None` for yes, else the reason.
pub open spec fn source_build_reason(
    in_trail: bool,
    ident: Seq<char>,
    lookup: RecipeLookup,
    variants: Seq<VariantOutcome>,
    errors: Seq<char>,
) -> Option<Seq<char>> {
    if in_trail {
        Some("cycle detected while building "@ + ident + " from source"@)
    } else {
        match lookup {
            RecipeLookup::NoRepository => Some("package's repository is not in the list of repositories"@),
            RecipeLookup::ReadFailed(e) => Some("failed to read recipe: "@ + e@),
            RecipeLookup::Deprecated => Some("recipe for "@ + ident + " is deprecated"@),
            RecipeLookup::Found => match first_decisive(variants, variants.len() as int) {
                Some(i) => match variants[i] {
                    VariantOutcome::RequirementsFailed(e) => Some("failed to get build requirements: "@ + e@),
                    _ => None,
                },
                None => Some("failed to build from source: "@ + errors),
            },
        }
    }
}

proof fn lemma_first_decisive_stays(vs: Seq<VariantOutcome>, n: int, m: int)
    requires
        0 <= n < m,
        first_decisive(vs, n) is None,
        !(vs[n] is SolveFailed),
    ensures
        first_decisive(vs, m) == Some(n),
    decreases m - n,
{
    if m > n + 1 {
        lemma_first_decisive_stays(vs, n, m - 1);
    }
}

/// Whether the build `ident` can be built from source: not when it is
/// being built from source already (a cycle), when its recipe cannot be
/// read or is deprecated; else as the first variant that decides says (its
/// build requirements failed, or its build environment solved), and not
/// when every variant's solve failed (`errors` shows those failures).
pub fn source_build_verdict(
    in_trail: bool,
    ident: &String,
    lookup: RecipeLookup,
    variants: &Vec<VariantOutcome>,
    errors: &String,
) -> (r: CanBuildFromSource)
    ensures
        match source_build_reason(in_trail, ident@, lookup, variants@, errors@) {
            None => r is Yes,
            Some(m) => r matches CanBuildFromSource::No(t) && t@ == m,
        },
{
    let mut m = String::new();
    if in_trail {
        push_text(&mut m, "cycle detected while building ");
        push_text(&mut m, ident.as_str());
        push_text(&mut m, " from source");
        return CanBuildFromSource::No(m);
    }
    match lookup {
        RecipeLookup::NoRepository => {
            push_text(&mut m, "package's repository is not in the list of repositories");
            return CanBuildFromSource::No(m);
        },
        RecipeLookup::ReadFailed(e) => {
            push_text(&mut m, "failed to read recipe: ");
            push_text(&mut m, e.as_str());
            return CanBuildFromSource::No(m);
        },
        RecipeLookup::Deprecated => {
            push_text(&mut m, "recipe for ");
            push_text(&mut m, ident.as_str());
            push_text(&mut m, " is deprecated");
            return CanBuildFromSource::No(m);
        },
        RecipeLookup::Found => {},
    }
    let mut i: usize = 0;
    while i < variants.len()
        invariant
            0 <= i <= variants@.len(),
            first_decisive(variants@, i as int) is None,
            m@.len() == 0,
            !in_trail,
            lookup is Found,
        decreases variants@.len() - i,
    {
        match &variants[i] {
            VariantOutcome::RequirementsFailed(e) => {
                proof {
                    lemma_first_decisive_stays(variants@, i as int, variants@.len() as int);
                }
                push_text(&mut m, "failed to get build requirements: ");
                push_text(&mut m, e.as_str());
                return CanBuildFromSource::No(m);
            },
            VariantOutcome::Solved => {
                proof {
                    lemma_first_decisive_stays(variants@, i as int, variants@.len() as int);
                }
                return CanBuildFromSource::Yes;
            },
            VariantOutcome::SolveFailed => {},
        }
        i = i + 1;
    }
    push_text(&mut m, "failed to build from source: ");
    push_text(&mut m, errors.as_str());
    CanBuildFromSource::No(m)
}


/// What the source-build check does next.
#[derive(Debug, PartialEq, Eq, Structural)]
pub enum SourceBuildNext {
    /// Read the recipe of the build from its repository.
    ReadRecipe,
    /// Solve the build environment of the default variant at this index
    /// (set up as `SpkProvider::sub_solve_setup` says).
    TryVariant(usize),
    /// Nothing more is read or solved: the verdict is what
    /// `source_build_verdict` gives for what is known.
    Decide,
}

/// The next step of the source-build check, from what is known so far:
/// whether the build is being built from source already, what reading its
/// recipe gave (`None`: not read yet), the number of the recipe's default
/// variants, and the outcomes of the variants tried so far, in order. A
/// cycle is decided before any recipe is read; a recipe that cannot be used
/// decides; the variants are tried in order until one decides or none is
/// left.
pub fn source_build_next(
    in_trail: bool,
    lookup: &Option<RecipeLookup>,
    variant_count: usize,
    tried: &Vec<VariantOutcome>,
) -> (r: SourceBuildNext)
    ensures
        in_trail ==> r == SourceBuildNext::Decide,
        !in_trail && lookup is None ==> r == SourceBuildNext::ReadRecipe,
        !in_trail && lookup is Some && !(lookup->0 is Found) ==> r == SourceBuildNext::Decide,
        !in_trail && lookup is Some && lookup->0 is Found ==> r == (if first_decisive(tried@, tried@.len() as int) is Some
            || tried@.len() >= variant_count {
            SourceBuildNext::Decide
        } else {
            SourceBuildNext::TryVariant(tried@.len() as usize)
        }),
{
    if in_trail {
        return SourceBuildNext::Decide;
    }
    match lookup {
        None => SourceBuildNext::ReadRecipe,
        Some(RecipeLookup::Found) => {
            let mut i: usize = 0;
            while i < tried.len()
                invariant
                    0 <= i <= tried@.len(),
                    first_decisive(tried@, i as int) is None,
                    !in_trail,
                    lookup is Some && lookup->0 is Found,
                decreases tried@.len() - i,
            {
                match &tried[i] {
                    VariantOutcome::SolveFailed => {},
                    _ => {
                        proof {
                            lemma_first_decisive_stays(tried@, i as int, tried@.len() as int);
                        }
                        return SourceBuildNext::Decide;
                    },
                }
                i = i + 1;
            }
            if tried.len() >= variant_count {
                SourceBuildNext::Decide
            } else {
                SourceBuildNext::TryVariant(tried.len())
            }
        },
        Some(_) => SourceBuildNext::Decide,
    }
}

} // verus!
