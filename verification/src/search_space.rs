//! The search space report: how many builds of each package of a solution
//! the repositories hold, and how large the decision tree of a brute force
//! search over them would be.

use vstd::prelude::*;
use num_bigint::BigUint;
use num_format::{Locale, ToFormattedString};
use crate::frequency::{bump, bump_count, count_view, counts_below, find_count_key, find_key, lemma_bump_below, lemma_find_key};
use crate::text::{decimal, join, join_strings, push_decimal, push_text, texts};

verus! {

/// The value of a number held as base 2^32 digits, least significant
/// first.
pub open spec fn digits_value(d: Seq<u32>) -> nat
    decreases d.len(),
{
    if d.len() == 0 {
        0
    } else {
        d[0] as nat + 4294967296 * digits_value(d.drop_first())
    }
}

/// A decimal number with its digits grouped by three with commas, as the
/// English locale writes it.
pub open spec fn grouped(d: Seq<char>) -> Seq<char>
    decreases d.len(),
{
    if d.len() <= 3 {
        d
    } else {
        grouped(d.take(d.len() - 3)) + ","@ + d.skip(d.len() - 3)
    }
}

/// `BigUint + u64`, in digits.
#[verifier::external_body]
fn big_add_small(a: &Vec<u32>, n: u64) -> (r: Vec<u32>)
    ensures
        digits_value(r@) == digits_value(a@) + n,
{
    (BigUint::new(a.clone()) + n).to_u32_digits()
}

/// `BigUint + BigUint`, in digits.
#[verifier::external_body]
fn big_add(a: &Vec<u32>, b: &Vec<u32>) -> (r: Vec<u32>)
    ensures
        digits_value(r@) == digits_value(a@) + digits_value(b@),
{
    (BigUint::new(a.clone()) + BigUint::new(b.clone())).to_u32_digits()
}

/// `BigUint * u64`, in digits.
#[verifier::external_body]
fn big_mul_small(a: &Vec<u32>, n: u64) -> (r: Vec<u32>)
    ensures
        digits_value(r@) == digits_value(a@) * n,
{
    (BigUint::new(a.clone()) * n).to_u32_digits()
}

/// `BigUint / u128` (which panics on zero), in digits.
#[verifier::external_body]
fn big_div_small(a: &Vec<u32>, d: u128) -> (r: Vec<u32>)
    requires
        d > 0,
    ensures
        digits_value(r@) == digits_value(a@) / (d as nat),
{
    (BigUint::new(a.clone()) / d).to_u32_digits()
}

/// `<BigUint as Display>`: the number in decimal.
#[verifier::external_body]
fn big_decimal(a: &Vec<u32>) -> (r: String)
    ensures
        r@ == decimal(digits_value(a@)),
{
    BigUint::new(a.clone()).to_string()
}

/// `ToFormattedString::to_formatted_string` with `Locale::en`: the number
/// in decimal, its digits grouped by three with commas.
#[verifier::external_body]
fn big_grouped(a: &Vec<u32>) -> (r: String)
    ensures
        r@ == grouped(decimal(digits_value(a@))),
{
    BigUint::new(a.clone()).to_formatted_string(&Locale::en)
}

/// A build in the repositories of a package of the solution, as the report
/// counts it. `in_request_range` says whether the solution's request for
/// its package (if there is one) admits it.
#[derive(Debug)]
pub struct BuildFacts {
    pub name: String,
    pub deprecated: bool,
    pub source: bool,
    pub embedded: bool,
    pub in_request_range: bool,
}

/// The kinds of builds the report counts.
#[derive(Debug, Clone, Copy, PartialEq, Eq, Structural)]
pub enum BuildSet {
    /// All builds, deprecated and source builds included.
    All,
    /// Active (not deprecated) builds that are not source builds.
    Active,
    /// Active builds that are neither source builds nor embedded.
    ActiveNotEmbedded,
    /// Those that the solution's request for their package also admits.
    InRequestRange,
}

/// A build is of a kind that the report counts.
pub open spec fn in_set(b: BuildFacts, s: BuildSet) -> bool {
    match s {
        BuildSet::All => true,
        BuildSet::Active => !b.deprecated && !b.source,
        BuildSet::ActiveNotEmbedded => !b.deprecated && !b.source && !b.embedded,
        BuildSet::InRequestRange => !b.deprecated && !b.source && !b.embedded && b.in_request_range,
    }
}

fn in_set_exec(b: &BuildFacts, s: BuildSet) -> (r: bool)
    ensures
        r == in_set(*b, s),
{
    match s {
        BuildSet::All => true,
        BuildSet::Active => !b.deprecated && !b.source,
        BuildSet::ActiveNotEmbedded => !b.deprecated && !b.source && !b.embedded,
        BuildSet::InRequestRange => !b.deprecated && !b.source && !b.embedded && b.in_request_range,
    }
}

/// The number of builds of each package among those of a kind, by package
/// name, in the order the names were first met.
pub open spec fn build_counts(builds: Seq<BuildFacts>, s: BuildSet) -> Seq<(Seq<char>, u64)>
    decreases builds.len(),
{
    if builds.len() == 0 {
        Seq::empty()
    } else {
        let t = build_counts(builds.drop_last(), s);
        if in_set(builds.last(), s) {
            bump(t, builds.last().name@)
        } else {
            t
        }
    }
}

/// Count the builds of each package among those of a kind.
pub fn count_builds(builds: &Vec<BuildFacts>, s: BuildSet) -> (r: Vec<(String, u64)>)
    ensures
        count_view(r@) == build_counts(builds@, s),
{
    let mut t: Vec<(String, u64)> = Vec::new();
    let mut i: usize = 0;
    proof {
        assert(count_view(t@) =~= Seq::<(Seq<char>, u64)>::empty());
    }
    while i < builds.len()
        invariant
            0 <= i <= builds@.len(),
            count_view(t@) == build_counts(builds@.take(i as int), s),
            counts_below(count_view(t@), i + 1),
        decreases builds@.len() - i,
    {
        proof {
            assert(builds@.take(i + 1).drop_last() =~= builds@.take(i as int));
        }
        let b = &builds[i];
        if in_set_exec(b, s) {
            proof {
                lemma_bump_below(count_view(t@), b.name@, i + 1);
            }
            bump_count(&mut t, b.name.clone());
        }
        i = i + 1;
    }
    proof {
        assert(builds@.take(builds@.len() as int) =~= builds@);
    }
    t
}

/// The count of a package in a table, if it has one.
pub open spec fn count_of(t: Seq<(Seq<char>, u64)>, name: Seq<char>) -> Option<u64> {
    match find_key(t, name) {
        Some(i) => Some(t[i].1),
        None => None,
    }
}

/// The size of the decision tree over the packages in solution order, with
/// the counts of their builds: the number of nodes (1 for the root, then
/// each level has the nodes of the last one times the builds of its
/// package), the number of builds, the number of nodes at the last level,
/// and the calculation as text. Packages with no count are left out.
pub open spec fn tree_totals(t: Seq<(Seq<char>, u64)>, pkgs: Seq<Seq<char>>) -> (nat, nat, nat, Seq<char>)
    decreases pkgs.len(),
{
    if pkgs.len() == 0 {
        (1, 0, 1, "1"@)
    } else {
        let (total, builds, prev, calc) = tree_totals(t, pkgs.drop_last());
        match count_of(t, pkgs.last()) {
            Some(n) => {
                let nodes: nat = prev * (n as nat);
                let sum: nat = total + nodes;
                (
                    sum,
                    builds + (n as nat),
                    nodes,
                    calc + " +\n "@ + decimal(prev) + "*"@ + decimal(n as nat) + " "@ + pkgs.last()
                        + " (so far: "@ + decimal(sum) + ")"@,
                )
            },
            None => (total, builds, prev, calc),
        }
    }
}

/// The lines that report the size of the decision tree.
pub open spec fn tree_report(t: Seq<(Seq<char>, u64)>, pkgs: Seq<Seq<char>>, verbosity: u8) -> Seq<Seq<char>> {
    let (total, builds, _prev, calc) = tree_totals(t, pkgs);
    let digits = decimal(total);
    (if verbosity > 2 {
        seq!["Calculation for the number of nodes in unconstrained decision tree: "@ + calc]
    } else {
        Seq::empty()
    }) + seq!["Total number of nodes in unconstrained decision tree: "@ + grouped(digits)] + (if digits.len()
        > 10 && verbosity > 1 {
        seq!["The full number of nodes is: "@ + digits]
    } else {
        Seq::empty()
    }) + seq![
        "Number of digits in that number: "@ + decimal(digits.len()),
        "Average branching factor (versions*builds): "@ + decimal(builds / pkgs.len()),
        "Number of package builds: "@ + decimal(builds),
    ]
}

proof fn lemma_digits_one()
    ensures
        digits_value(seq![1u32]) == 1,
{
    reveal_with_fuel(digits_value, 2);
    assert(seq![1u32].drop_first() =~= Seq::<u32>::empty());
}

proof fn lemma_digits_zero()
    ensures
        digits_value(Seq::<u32>::empty()) == 0,
{
}

/// The lines that report the size of the decision tree over the solution's
/// packages (by name, in the order they were resolved) for the given counts
/// of their builds.
pub fn total_stats(t: &Vec<(String, u64)>, packages: &Vec<String>, verbosity: u8) -> (r: Vec<String>)
    requires
        packages@.len() > 0,
    ensures
        texts(r@) == tree_report(count_view(t@), texts(packages@), verbosity),
{
    let ghost tv = count_view(t@);
    let ghost pv = texts(packages@);
    let mut total: Vec<u32> = vec![1u32];
    let mut builds: Vec<u32> = Vec::new();
    let mut prev: Vec<u32> = vec![1u32];
    let mut calc = String::new();
    push_text(&mut calc, "1");
    proof {
        lemma_digits_one();
        lemma_digits_zero();
        assert(builds@ =~= Seq::<u32>::empty());
        assert(total@ =~= seq![1u32]);
        assert(prev@ =~= seq![1u32]);
        assert(pv.take(0) =~= Seq::<Seq<char>>::empty());
        assert(calc@ =~= "1"@);
    }
    let mut i: usize = 0;
    while i < packages.len()
        invariant
            0 <= i <= packages@.len(),
            tv == count_view(t@),
            pv == texts(packages@),
            tree_totals(tv, pv.take(i as int)) == (digits_value(total@), digits_value(builds@), digits_value(prev@), calc@),
        decreases packages@.len() - i,
    {
        proof {
            assert(pv.take(i + 1).drop_last() =~= pv.take(i as int));
            assert(pv.take(i + 1).last() == packages@[i as int]@);
            lemma_find_key(tv, packages@[i as int]@);
        }
        let name = &packages[i];
        match find_count_key(t, name) {
            Some(k) => {
                let n = t[k].1;
                builds = big_add_small(&builds, n);
                let nodes = big_mul_small(&prev, n);
                total = big_add(&total, &nodes);
                push_text(&mut calc, " +\n ");
                let p = big_decimal(&prev);
                push_text(&mut calc, p.as_str());
                push_text(&mut calc, "*");
                push_decimal(&mut calc, n);
                push_text(&mut calc, " ");
                push_text(&mut calc, name.as_str());
                push_text(&mut calc, " (so far: ");
                let so_far = big_decimal(&total);
                push_text(&mut calc, so_far.as_str());
                push_text(&mut calc, ")");
                prev = nodes;
            },
            None => {},
        }
        i = i + 1;
    }
    proof {
        assert(pv.take(packages@.len() as int) =~= pv);
    }
    let mut lines: Vec<String> = Vec::new();
    let ghost out: Seq<Seq<char>> = Seq::empty();
    if verbosity > 2 {
        let mut l = String::new();
        push_text(&mut l, "Calculation for the number of nodes in unconstrained decision tree: ");
        push_text(&mut l, calc.as_str());
        lines.push(l);
    }
    let full = big_decimal(&total);
    let mut l = String::new();
    push_text(&mut l, "Total number of nodes in unconstrained decision tree: ");
    let display = big_grouped(&total);
    push_text(&mut l, display.as_str());
    lines.push(l);
    let num_digits = full.as_str().unicode_len();
    if num_digits > 10 && verbosity > 1 {
        let mut l = String::new();
        push_text(&mut l, "The full number of nodes is: ");
        push_text(&mut l, full.as_str());
        lines.push(l);
    }
    let mut l = String::new();
    push_text(&mut l, "Number of digits in that number: ");
    push_decimal(&mut l, num_digits as u64);
    lines.push(l);
    let avg = big_div_small(&builds, packages.len() as u128);
    let mut l = String::new();
    push_text(&mut l, "Average branching factor (versions*builds): ");
    let a = big_decimal(&avg);
    push_text(&mut l, a.as_str());
    lines.push(l);
    let mut l = String::new();
    push_text(&mut l, "Number of package builds: ");
    let b = big_decimal(&builds);
    push_text(&mut l, b.as_str());
    lines.push(l);
    proof {
        assert(texts(lines@) =~= tree_report(tv, pv, verbosity));
    }
    lines
}

/// The whole search space report for a solution: its initial requests, its
/// packages (by name, in resolve order) and the builds the repositories
/// hold of them; the decision tree's size for each kind of build.
pub open spec fn search_space_report(
    requests: Seq<Seq<char>>,
    packages: Seq<Seq<char>>,
    builds: Seq<BuildFacts>,
    verbosity: u8,
) -> Seq<Seq<char>> {
    seq![
        "===== Search space stats for: '"@ + join(requests, ", "@) + "' ====="@,
        " "@ + decimal(packages.len()) + " levels in the decision tree"@,
        " "@ + decimal(packages.len()) + " packages in the solution"@,
        "----- All builds, including deprecated and src --------------------"@,
    ] + tree_report(build_counts(builds, BuildSet::All), packages, verbosity) + seq![
        "----- Only Active, non-src builds ---------------------------------"@,
    ] + tree_report(build_counts(builds, BuildSet::Active), packages, verbosity) + seq![
        "----- Active, non-src, non-embedded builds ------------------------"@,
    ] + tree_report(build_counts(builds, BuildSet::ActiveNotEmbedded), packages, verbosity) + seq![
        "----- Active, in version range, non-src, non-embedded builds ------"@,
    ] + tree_report(build_counts(builds, BuildSet::InRequestRange), packages, verbosity)
}

fn push_line(lines: &mut Vec<String>, text: &str)
    ensures
        texts(final(lines)@) == texts(old(lines)@).push(text@),
{
    lines.push(String::from_str(text));
    proof {
        assert(texts(lines@) =~= texts(old(lines)@).push(text@));
    }
}

fn append_lines(lines: &mut Vec<String>, more: Vec<String>)
    ensures
        texts(final(lines)@) == texts(old(lines)@) + texts(more@),
{
    let ghost m = more@;
    let mut more = more;
    lines.append(&mut more);
    proof {
        assert(texts(lines@) =~= texts(old(lines)@) + texts(m)) by {
            assert(lines@ =~= old(lines)@ + m);
        }
    }
}

/// The search space report of a solution with at least one package.
pub fn search_space_stats(
    requests: &Vec<String>,
    packages: &Vec<String>,
    builds: &Vec<BuildFacts>,
    verbosity: u8,
) -> (r: Vec<String>)
    requires
        packages@.len() > 0,
    ensures
        texts(r@) == search_space_report(texts(requests@), texts(packages@), builds@, verbosity),
{
    let mut lines: Vec<String> = Vec::new();
    let mut head = String::new();
    push_text(&mut head, "===== Search space stats for: '");
    let joined = join_strings(requests, ", ");
    push_text(&mut head, joined.as_str());
    push_text(&mut head, "' =====");
    lines.push(head);
    let mut l = String::new();
    push_text(&mut l, " ");
    push_decimal(&mut l, packages.len() as u64);
    push_text(&mut l, " levels in the decision tree");
    lines.push(l);
    let mut l = String::new();
    push_text(&mut l, " ");
    push_decimal(&mut l, packages.len() as u64);
    push_text(&mut l, " packages in the solution");
    lines.push(l);
    push_line(&mut lines, "----- All builds, including deprecated and src --------------------");
    let c = count_builds(builds, BuildSet::All);
    append_lines(&mut lines, total_stats(&c, packages, verbosity));
    push_line(&mut lines, "----- Only Active, non-src builds ---------------------------------");
    let c = count_builds(builds, BuildSet::Active);
    append_lines(&mut lines, total_stats(&c, packages, verbosity));
    push_line(&mut lines, "----- Active, non-src, non-embedded builds ------------------------");
    let c = count_builds(builds, BuildSet::ActiveNotEmbedded);
    append_lines(&mut lines, total_stats(&c, packages, verbosity));
    push_line(&mut lines, "----- Active, in version range, non-src, non-embedded builds ------");
    let c = count_builds(builds, BuildSet::InRequestRange);
    append_lines(&mut lines, total_stats(&c, packages, verbosity));
    proof {
        assert(texts(lines@) =~= search_space_report(texts(requests@), texts(packages@), builds@, verbosity));
    }
    lines
}

} // verus!
