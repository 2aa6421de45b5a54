//! The statistics a step solve reports when it ends: its counters, the
//! packages that blocked it and the problems it hit most often, and what
//! the impossible request checks found.

use vstd::prelude::*;
use vstd::string::StringExecFns;
use crate::frequency::{ErrorFreq, error_message};
use crate::step::Solver;
use crate::text::{decimal, join, plural, push_decimal, push_text, repeat, texts};

verus! {

/// An order of table positions, highest count first, positions in table
/// order among equal counts.
pub open spec fn sorted_by_count(order: Seq<usize>, counts: Seq<u64>) -> bool {
    forall|a: int, b: int|
        0 <= a < b < order.len() ==> counts[order[a] as int] > counts[order[b] as int] || (counts[order[a] as int]
            == counts[order[b] as int] && order[a] < order[b])
}

/// The positions of an order are exactly the table positions that `keep`
/// admits, each once.
pub open spec fn orders_kept(order: Seq<usize>, n: int, keep: spec_fn(int) -> bool) -> bool {
    &&& order.no_duplicates()
    &&& forall|x: usize| order.contains(x) <==> (x < n && keep(x as int))
}

/// Order the positions `0..counts.len()` that `keep` admits by count, highest
/// first, keeping table order among equal counts.
fn order_by_count(counts: &Vec<u64>, keep: &Vec<bool>) -> (r: Vec<usize>)
    requires
        keep@.len() == counts@.len(),
    ensures
        sorted_by_count(r@, counts@),
        orders_kept(r@, counts@.len() as int, |x: int| keep@[x]),
        forall|k: int| 0 <= k < r@.len() ==> r@[k] < counts@.len(),
{
    let mut order: Vec<usize> = Vec::new();
    let mut i: usize = 0;
    while i < counts.len()
        invariant
            keep@.len() == counts@.len(),
            0 <= i <= counts@.len(),
            sorted_by_count(order@, counts@),
            order@.no_duplicates(),
            forall|x: usize| order@.contains(x) <==> (x < i && keep@[x as int]),
            forall|k: int| 0 <= k < order@.len() ==> order@[k] < i,
        decreases counts@.len() - i,
    {
        if keep[i] {
            let c = counts[i];
            let mut p: usize = 0;
            while p < order.len() && counts[order[p]] >= c
                invariant
                    0 <= p <= order@.len(),
                    forall|k: int| 0 <= k < order@.len() ==> order@[k] < i,
                    i < counts@.len(),
                    c == counts@[i as int],
                    forall|k: int| 0 <= k < p ==> counts@[order@[k] as int] >= c,
                decreases order@.len() - p,
            {
                p = p + 1;
            }
            proof {
                // The elements from p on have a lower count.
                assert forall|k: int| p <= k < order@.len() implies counts@[order@[k] as int] < c by {
                    if p < order@.len() {
                        assert(counts@[order@[p as int] as int] < c);
                        if k > p {
                            assert(counts@[order@[p as int] as int] > counts@[order@[k] as int] || counts@[order@[p as int] as int]
                                == counts@[order@[k] as int]);
                        }
                    }
                }
            }
            let ghost before = order@;
            order.insert(p, i);
            proof {
                assert(order@ == before.insert(p as int, i));
                assert forall|a: int, b: int| 0 <= a < b < order@.len() implies counts@[order@[a] as int]
                    > counts@[order@[b] as int] || (counts@[order@[a] as int] == counts@[order@[b] as int]
                    && order@[a] < order@[b]) by {
                    if a < p && b < p {
                        assert(order@[a] == before[a] && order@[b] == before[b]);
                    } else if a < p && b == p {
                        assert(order@[a] == before[a]);
                    } else if a < p && b > p {
                        assert(order@[a] == before[a] && order@[b] == before[b - 1]);
                    } else if a == p {
                        assert(order@[b] == before[b - 1]);
                    } else {
                        assert(order@[a] == before[a - 1] && order@[b] == before[b - 1]);
                    }
                }
                assert forall|x: usize| order@.contains(x) <==> (x < i + 1 && keep@[x as int]) by {
                    if order@.contains(x) {
                        let k = choose|k: int| 0 <= k < order@.len() && order@[k] == x;
                        if k < p {
                            assert(before[k] == x);
                        } else if k > p {
                            assert(before[k - 1] == x);
                        }
                    }
                    if x < i + 1 && keep@[x as int] {
                        if x == i {
                            assert(order@[p as int] == x);
                        } else {
                            assert(before.contains(x));
                            let k = choose|k: int| 0 <= k < before.len() && before[k] == x;
                            if k < p {
                                assert(order@[k] == x);
                            } else {
                                assert(order@[k + 1] == x);
                            }
                        }
                    }
                }
                assert forall|a: int, b: int| 0 <= a < order@.len() && 0 <= b < order@.len() && a != b implies order@[a]
                    != order@[b] by {
                    if a != p && b != p {
                        let a2 = if a < p { a } else { a - 1 };
                        let b2 = if b < p { b } else { b - 1 };
                        assert(order@[a] == before[a2] && order@[b] == before[b2]);
                    } else if a == p {
                        let b2 = if b < p { b } else { b - 1 };
                        assert(order@[b] == before[b2]);
                    } else {
                        let a2 = if a < p { a } else { a - 1 };
                        assert(order@[a] == before[a2]);
                    }
                }
                assert forall|k: int| 0 <= k < order@.len() implies order@[k] < i + 1 by {
                    if k < p {
                        assert(order@[k] == before[k]);
                    } else if k > p {
                        assert(order@[k] == before[k - 1]);
                    }
                }
            }
        } else {
            proof {
                assert forall|x: usize| order@.contains(x) <==> (x < i + 1 && keep@[x as int]) by {
                    if order@.contains(x) {
                        let k = choose|k: int| 0 <= k < order@.len() && order@[k] == x;
                        assert(order@[k] < i);
                    }
                }
            }
        }
        i = i + 1;
    }
    order
}


/// The counts of a count table.
pub open spec fn table_counts(t: Seq<(String, u64)>) -> Seq<u64> {
    t.map_values(|e: (String, u64)| e.1)
}

/// The line of a problem package: its name and how many times it blocked.
pub open spec fn problem_line(e: (String, u64)) -> Seq<char> {
    "   "@ + e.0@ + " ("@ + decimal(e.1 as nat) + " times)\n"@
}

/// The lines of the problem packages, in the given order.
pub open spec fn problem_lines(t: Seq<(String, u64)>, order: Seq<usize>) -> Seq<char>
    decreases order.len(),
{
    if order.len() == 0 {
        Seq::empty()
    } else {
        problem_lines(t, order.drop_last()) + problem_line(t[order.last() as int])
    }
}

/// The problem packages section of the statistics: each package that
/// blocked requests, most often first, with how many times.
pub open spec fn problem_report(t: Seq<(String, u64)>, order: Seq<usize>) -> Seq<char> {
    if t.len() == 0 {
        " Solver encountered no problem requests\n"@
    } else {
        " Solver encountered these problem requests:\n"@ + problem_lines(t, order)
    }
}

/// The message of errors that are left out of the statistics.
pub open spec fn branch_attempted() -> Seq<char> {
    "Exception: Branch already attempted"@
}

/// The counters of an error table.
pub open spec fn error_counts(t: Seq<(String, ErrorFreq)>) -> Seq<u64> {
    t.map_values(|e: (String, ErrorFreq)| e.1.counter)
}

/// The line of a frequent error: its count, right-aligned to the width of
/// the first (most frequent) count shown, and its combined message.
pub open spec fn error_line(e: (String, ErrorFreq), width: nat) -> Seq<char> {
    let digits = decimal(e.1.counter as nat);
    let pad = if width > digits.len() {
        (width - digits.len()) as nat
    } else {
        0
    };
    "\n   "@ + repeat(" "@, pad) + digits + " "@ + plural("time"@, e.1.counter as int) + " "@ + error_message(
        e.0@,
        e.1,
    )
}

/// The lines of the errors shown, in the given order.
pub open spec fn error_lines(t: Seq<(String, ErrorFreq)>, order: Seq<usize>, width: nat) -> Seq<char>
    decreases order.len(),
{
    if order.len() == 0 {
        Seq::empty()
    } else {
        error_lines(t, order.drop_last(), width) + error_line(t[order.last() as int], width)
    }
}

/// The errors section of the statistics: the errors shown (the most
/// frequent first, at most the maximum asked for), or that there were none.
pub open spec fn error_report(t: Seq<(String, ErrorFreq)>, shown: Seq<usize>) -> Seq<char> {
    if t.len() == 0 {
        " Solver hit no problems\n"@
    } else if shown.len() == 0 {
        " Solver hit these problems:"@ + "\n"@
    } else {
        " Solver hit these problems:"@ + error_lines(t, shown, decimal(t[shown[0] as int].1.counter as nat).len())
            + "\n"@
    }
}

/// The errors an error table records with their requesters within what a
/// count can hold.
pub open spec fn requesters_countable(t: Seq<(String, ErrorFreq)>) -> bool {
    forall|i: int| 0 <= i < t.len() ==> ((#[trigger] t[i]).1.record matches Some(r) ==> r.requesters@.len() <= u64::MAX)
}

/// The problem packages section, with the order of the packages in it.
pub fn problem_packages_report(t: &Vec<(String, u64)>) -> (r: (String, Vec<usize>))
    ensures
        sorted_by_count(r.1@, table_counts(t@)),
        orders_kept(r.1@, t@.len() as int, |x: int| true),
        r.0@ == problem_report(t@, r.1@),
{
    let mut counts: Vec<u64> = Vec::new();
    let mut keep: Vec<bool> = Vec::new();
    let mut i: usize = 0;
    while i < t.len()
        invariant
            0 <= i <= t@.len(),
            counts@ == table_counts(t@).take(i as int),
            keep@.len() == i,
            forall|k: int| 0 <= k < i ==> keep@[k],
        decreases t@.len() - i,
    {
        counts.push(t[i].1);
        keep.push(true);
        proof {
            assert(counts@ =~= table_counts(t@).take(i + 1));
        }
        i = i + 1;
    }
    proof {
        assert(counts@ =~= table_counts(t@));
    }
    let order = order_by_count(&counts, &keep);
    proof {
        assert forall|x: usize| order@.contains(x) <==> (x < t@.len() && true) by {}
    }
    if t.len() == 0 {
        return (String::from_str(" Solver encountered no problem requests\n"), order);
    }
    let mut out = String::from_str(" Solver encountered these problem requests:\n");
    let ghost start = out@;
    let mut k: usize = 0;
    while k < order.len()
        invariant
            0 <= k <= order@.len(),
            forall|j: int| 0 <= j < order@.len() ==> order@[j] < t@.len(),
            out@ == start + problem_lines(t@, order@.take(k as int)),
        decreases order@.len() - k,
    {
        proof {
            assert(order@.take(k + 1).drop_last() =~= order@.take(k as int));
        }
        let e = &t[order[k]];
        push_text(&mut out, "   ");
        push_text(&mut out, e.0.as_str());
        push_text(&mut out, " (");
        push_decimal(&mut out, e.1);
        push_text(&mut out, " times)\n");
        proof {
            assert(out@ =~= start + problem_lines(t@, order@.take(k + 1)));
        }
        k = k + 1;
    }
    proof {
        assert(order@.take(order@.len() as int) =~= order@);
    }
    (out, order)
}

/// The errors section, with the positions of the errors shown in it: the
/// errors other than the branch-already-attempted one, the most frequent
/// first (table order among equal counts), at most `max` of them.
pub fn frequent_errors_report(t: &Vec<(String, ErrorFreq)>, max: usize) -> (r: (String, Vec<usize>))
    requires
        requesters_countable(t@),
    ensures
        ({
            let shown = r.1@;
            exists|order: Seq<usize>| {
                &&& sorted_by_count(order, error_counts(t@))
                &&& orders_kept(order, t@.len() as int, |x: int| t@[x].0@ != branch_attempted())
                &&& shown == order.take(if order.len() < max { order.len() as int } else { max as int })
            }
        }),
        r.0@ == error_report(t@, r.1@),
{
    let mut counts: Vec<u64> = Vec::new();
    let mut keep: Vec<bool> = Vec::new();
    let excluded = String::from_str("Exception: Branch already attempted");
    let mut i: usize = 0;
    while i < t.len()
        invariant
            0 <= i <= t@.len(),
            excluded@ == branch_attempted(),
            counts@ == error_counts(t@).take(i as int),
            keep@.len() == i,
            forall|k: int| 0 <= k < i ==> keep@[k] == (t@[k].0@ != branch_attempted()),
        decreases t@.len() - i,
    {
        counts.push(t[i].1.counter);
        keep.push(!(t[i].0 == excluded));
        proof {
            assert(counts@ =~= error_counts(t@).take(i + 1));
        }
        i = i + 1;
    }
    proof {
        assert(counts@ =~= error_counts(t@));
    }
    let order = order_by_count(&counts, &keep);
    let n = if order.len() < max { order.len() } else { max };
    let mut shown: Vec<usize> = Vec::new();
    let mut j: usize = 0;
    while j < n
        invariant
            0 <= j <= n,
            n <= order@.len(),
            shown@ == order@.take(j as int),
        decreases n - j,
    {
        shown.push(order[j]);
        proof {
            assert(shown@ =~= order@.take(j + 1));
        }
        j = j + 1;
    }
    proof {
        assert(orders_kept(order@, t@.len() as int, |x: int| t@[x].0@ != branch_attempted())) by {
            assert forall|x: usize| order@.contains(x) <==> (x < t@.len() && t@[x as int].0@ != branch_attempted()) by {
                if x < t@.len() {
                    assert(keep@[x as int] == (t@[x as int].0@ != branch_attempted()));
                }
            }
        }
    }
    if t.len() == 0 {
        return (String::from_str(" Solver hit no problems\n"), shown);
    }
    let mut out = String::from_str(" Solver hit these problems:");
    if shown.len() == 0 {
        push_text(&mut out, "\n");
        return (out, shown);
    }
    let width = crate::text::decimal_width(t[shown[0]].1.counter);
    let ghost start = out@;
    let mut k: usize = 0;
    while k < shown.len()
        invariant
            0 <= k <= shown@.len(),
            forall|x: int| 0 <= x < shown@.len() ==> shown@[x] < t@.len(),
            requesters_countable(t@),
            out@ == start + error_lines(t@, shown@.take(k as int), width as nat),
        decreases shown@.len() - k,
    {
        proof {
            assert(shown@.take(k + 1).drop_last() =~= shown@.take(k as int));
            assert(requesters_countable(t@));
            let _ = t@[shown@[k as int] as int];
        }
        let e = &t[shown[k]];
        let digits = crate::text::decimal_width(e.1.counter);
        push_text(&mut out, "\n   ");
        let pad = if width > digits { width - digits } else { 0 };
        let spaces = crate::text::repeat_text(" ", pad);
        push_text(&mut out, spaces.as_str());
        push_decimal(&mut out, e.1.counter);
        push_text(&mut out, " ");
        if e.1.counter > 1 {
            push_text(&mut out, "times");
        } else {
            push_text(&mut out, "time");
        }
        push_text(&mut out, " ");
        let message = e.1.get_message(e.0.clone());
        push_text(&mut out, message.as_str());
        proof {
            reveal_strlit("times");
            reveal_strlit("time");
            assert("times"@ =~= "time"@.push('s'));
            assert(out@ =~= start + error_lines(t@, shown@.take(k + 1), width as nat));
        }
        k = k + 1;
    }
    proof {
        assert(shown@.take(shown@.len() as int) =~= shown@);
    }
    push_text(&mut out, "\n");
    (out, shown)
}


/// How long the solve took, and the rates derived from it, as shown (the
/// seconds and the rates per second are formatted where they are computed).
#[derive(Debug)]
pub struct StatsTimings {
    pub seconds: String,
    pub builds_per_second: String,
    pub steps_per_second: String,
}

/// What the impossible request checks of a solve found and did.
#[derive(Debug)]
pub struct ImpossibleCheckStats {
    pub ifalreadypresent: u64,
    pub possible: u64,
    pub impossible: u64,
    pub possible_hits: u64,
    pub impossible_hits: u64,
    pub specs_read: u64,
    pub read_tasks_spawned: u64,
    pub read_tasks_stopped: u64,
    /// The impossible requests cached, each shown as the request and why.
    pub cache: Vec<String>,
}

/// One line: the text, a count, a word for what was counted (pluralized
/// by the count), the rest of the line and a newline.
pub open spec fn count_line(before: Seq<char>, n: nat, word: Seq<char>, after: Seq<char>) -> Seq<char> {
    before + decimal(n) + " "@ + plural(word, n as int) + after + "\n"@
}

/// The counters part of the statistics.
pub open spec fn counters_text(
    v: crate::step::SolverView,
    t: StatsTimings,
    same_package_requests: u64,
    duplicate_requests: u64,
) -> Seq<char> {
    let total_steps = (v.number_of_steps + v.number_of_steps_back) as nat;
    " Solver took: "@ + t.seconds@ + " seconds\n"@
        + " Solver skipped "@ + decimal(v.number_incompat_versions as nat) + " incompatible "@
        + plural("version"@, v.number_incompat_versions as int) + " (total of "@
        + decimal(v.number_incompat_builds as nat) + " "@ + plural("build"@, v.number_incompat_builds as int)
        + ")\n"@
        + " Solver tried and discarded "@ + decimal(v.number_builds_skipped as nat) + " package builds\n"@
        + " Solver considered "@ + decimal(v.number_total_builds as nat) + " package "@
        + plural("build"@, v.number_total_builds as int) + " in total, at "@ + t.builds_per_second@
        + " builds/sec\n"@
        + count_line(" Solver took "@, v.number_of_steps as nat, "step"@, " (resolves)"@)
        + count_line(" Solver took "@, v.number_of_steps_back as nat, "step"@, " back (unresolves)"@)
        + " Solver took "@ + decimal(total_steps) + " "@ + plural("step"@, total_steps as int) + " total, at "@
        + t.steps_per_second@ + " steps/sec\n"@
        + count_line(" Solver hit "@, same_package_requests as nat, "request"@, " for the same package"@)
        + " Solver hit "@ + decimal(duplicate_requests as nat) + " identical duplicate "@
        + plural("request"@, duplicate_requests as int) + "\n"@
}

/// The impossible checks part of the statistics: what the checks found and
/// hit, the specs they read, and the version reading tasks they spawned and
/// stopped.
pub open spec fn checks_text(enabled: bool, c: ImpossibleCheckStats) -> Seq<char> {
    if !enabled {
        " Solver impossible request checks were disabled"@
    } else {
        let impossible_total = (c.impossible + c.impossible_hits) as nat;
        let total = (impossible_total + c.possible + c.possible_hits) as nat;
        count_line(" Solver impossible checks found an IfAlreadyPresent request "@, c.ifalreadypresent as nat, "time"@, ""@)
            + count_line(" Solver impossible checks found possible requests "@, c.possible as nat, "time"@, ""@)
            + count_line(" Solver impossible checks found impossible requests "@, c.impossible as nat, "time"@, ""@)
            + count_line(" Solver impossible checks hit cached possible requests "@, c.possible_hits as nat, "time"@, ""@)
            + count_line(" Solver impossible checks hit cached impossible requests "@, c.impossible_hits as nat, "time"@, ""@)
            + count_line(" Solver impossible checks hit a total of impossible "@, impossible_total, "request"@, ""@)
            + count_line(" Solver impossible checks examined a total of "@, total, "request"@, ""@)
            + " Solver impossible checks read a total of "@ + decimal(c.specs_read as nat) + " package "@
            + plural("spec"@, c.specs_read as int) + "\n"@
            + " Solver impossible checks spawned "@ + decimal(c.read_tasks_spawned as nat) + " version reading "@
            + plural("task"@, c.read_tasks_spawned as int) + "\n"@
            + " Solver impossible checks stopped "@ + decimal(c.read_tasks_stopped as nat) + " version reading "@
            + plural("task"@, c.read_tasks_stopped as int) + "\n"@
            + " Solver's Impossible Cache:\n    "@ + join(texts(c.cache@), "\n    "@) + "\n"@
    }
}


fn push_count(out: &mut String, before: &str, n: u64, word: &str, after: &str)
    ensures
        final(out)@ == old(out)@ + count_line(before@, n as nat, word@, after@),
{
    push_text(out, before);
    push_decimal(out, n);
    push_text(out, " ");
    let w = crate::text::pluralize(word, n);
    push_text(out, w.as_str());
    push_text(out, after);
    push_text(out, "\n");
    proof {
        assert(final(out)@ =~= old(out)@ + count_line(before@, n as nat, word@, after@));
    }
}

fn counters_part(solver: &Solver, timings: &StatsTimings, same_package_requests: u64, duplicate_requests: u64) -> (r: String)
    requires
        solver@.number_of_steps + solver@.number_of_steps_back <= u64::MAX,
    ensures
        r@ == counters_text(solver@, *timings, same_package_requests, duplicate_requests),
{
    let mut out = String::new();
    push_text(&mut out, " Solver took: ");
    push_text(&mut out, timings.seconds.as_str());
    push_text(&mut out, " seconds\n");
    let ghost a = out@;
    let num_vers = solver.get_number_of_incompatible_versions() as u64;
    let num_builds = solver.get_number_of_incompatible_builds() as u64;
    push_text(&mut out, " Solver skipped ");
    push_decimal(&mut out, num_vers);
    push_text(&mut out, " incompatible ");
    let versions = crate::text::pluralize("version", num_vers);
    push_text(&mut out, versions.as_str());
    push_text(&mut out, " (total of ");
    push_decimal(&mut out, num_builds);
    push_text(&mut out, " ");
    let builds = crate::text::pluralize("build", num_builds);
    push_text(&mut out, builds.as_str());
    push_text(&mut out, ")\n");
    let ghost b = out@;
    push_text(&mut out, " Solver tried and discarded ");
    push_decimal(&mut out, solver.get_number_of_builds_skipped() as u64);
    push_text(&mut out, " package builds\n");
    let total_builds = solver.get_total_builds() as u64;
    push_text(&mut out, " Solver considered ");
    push_decimal(&mut out, total_builds);
    push_text(&mut out, " package ");
    let builds2 = crate::text::pluralize("build", total_builds);
    push_text(&mut out, builds2.as_str());
    push_text(&mut out, " in total, at ");
    push_text(&mut out, timings.builds_per_second.as_str());
    push_text(&mut out, " builds/sec\n");
    let ghost c = out@;
    let num_steps = solver.get_number_of_steps() as u64;
    push_count(&mut out, " Solver took ", num_steps, "step", " (resolves)");
    let num_steps_back = solver.get_number_of_steps_back();
    push_count(&mut out, " Solver took ", num_steps_back, "step", " back (unresolves)");
    let total_steps = num_steps + num_steps_back;
    push_text(&mut out, " Solver took ");
    push_decimal(&mut out, total_steps);
    push_text(&mut out, " ");
    let steps = crate::text::pluralize("step", total_steps);
    push_text(&mut out, steps.as_str());
    push_text(&mut out, " total, at ");
    push_text(&mut out, timings.steps_per_second.as_str());
    push_text(&mut out, " steps/sec\n");
    let ghost d = out@;
    push_count(&mut out, " Solver hit ", same_package_requests, "request", " for the same package");
    push_text(&mut out, " Solver hit ");
    push_decimal(&mut out, duplicate_requests);
    push_text(&mut out, " identical duplicate ");
    let requests = crate::text::pluralize("request", duplicate_requests);
    push_text(&mut out, requests.as_str());
    push_text(&mut out, "\n");
    proof {
        let v = solver@;
        let total = (v.number_of_steps + v.number_of_steps_back) as nat;
        assert(a =~= " Solver took: "@ + timings.seconds@ + " seconds\n"@);
        assert(b =~= a + " Solver skipped "@ + decimal(v.number_incompat_versions as nat) + " incompatible "@
            + plural("version"@, v.number_incompat_versions as int) + " (total of "@
            + decimal(v.number_incompat_builds as nat) + " "@ + plural("build"@, v.number_incompat_builds as int)
            + ")\n"@);
        assert(c =~= b + " Solver tried and discarded "@ + decimal(v.number_builds_skipped as nat) + " package builds\n"@
            + " Solver considered "@ + decimal(v.number_total_builds as nat) + " package "@
            + plural("build"@, v.number_total_builds as int) + " in total, at "@ + timings.builds_per_second@
            + " builds/sec\n"@);
        assert(d =~= c + count_line(" Solver took "@, v.number_of_steps as nat, "step"@, " (resolves)"@)
            + count_line(" Solver took "@, v.number_of_steps_back as nat, "step"@, " back (unresolves)"@)
            + " Solver took "@ + decimal(total) + " "@ + plural("step"@, total as int) + " total, at "@
            + timings.steps_per_second@ + " steps/sec\n"@);
        assert(out@ =~= d + count_line(" Solver hit "@, same_package_requests as nat, "request"@, " for the same package"@)
            + " Solver hit "@ + decimal(duplicate_requests as nat) + " identical duplicate "@
            + plural("request"@, duplicate_requests as int) + "\n"@);
        assert(out@ =~= counters_text(solver@, *timings, same_package_requests, duplicate_requests));
    }
    out
}

fn checks_part(enabled: bool, checks: &ImpossibleCheckStats) -> (r: String)
    requires
        checks.impossible + checks.impossible_hits + checks.possible + checks.possible_hits <= u64::MAX,
    ensures
        r@ == checks_text(enabled, *checks),
{
    let mut out = String::new();
    if !enabled {
        push_text(&mut out, " Solver impossible request checks were disabled");
        return out;
    }
    push_count(&mut out, " Solver impossible checks found an IfAlreadyPresent request ", checks.ifalreadypresent, "time", "");
    push_count(&mut out, " Solver impossible checks found possible requests ", checks.possible, "time", "");
    push_count(&mut out, " Solver impossible checks found impossible requests ", checks.impossible, "time", "");
    push_count(&mut out, " Solver impossible checks hit cached possible requests ", checks.possible_hits, "time", "");
    push_count(&mut out, " Solver impossible checks hit cached impossible requests ", checks.impossible_hits, "time", "");
    let impossible_total = checks.impossible + checks.impossible_hits;
    push_count(&mut out, " Solver impossible checks hit a total of impossible ", impossible_total, "request", "");
    let total = impossible_total + checks.possible + checks.possible_hits;
    push_count(&mut out, " Solver impossible checks examined a total of ", total, "request", "");
    let ghost a = out@;
    push_text(&mut out, " Solver impossible checks read a total of ");
    push_decimal(&mut out, checks.specs_read);
    push_text(&mut out, " package ");
    let specs = crate::text::pluralize("spec", checks.specs_read);
    push_text(&mut out, specs.as_str());
    push_text(&mut out, "\n");
    push_text(&mut out, " Solver impossible checks spawned ");
    push_decimal(&mut out, checks.read_tasks_spawned);
    push_text(&mut out, " version reading ");
    let tasks = crate::text::pluralize("task", checks.read_tasks_spawned);
    push_text(&mut out, tasks.as_str());
    push_text(&mut out, "\n");
    let ghost b = out@;
    push_text(&mut out, " Solver impossible checks stopped ");
    push_decimal(&mut out, checks.read_tasks_stopped);
    push_text(&mut out, " version reading ");
    let tasks_stop = crate::text::pluralize("task", checks.read_tasks_stopped);
    push_text(&mut out, tasks_stop.as_str());
    push_text(&mut out, "\n");
    push_text(&mut out, " Solver's Impossible Cache:\n    ");
    let cache = crate::text::join_strings(&checks.cache, "\n    ");
    push_text(&mut out, cache.as_str());
    push_text(&mut out, "\n");
    proof {
        let c = *checks;
        assert(b =~= a + " Solver impossible checks read a total of "@ + decimal(c.specs_read as nat) + " package "@
            + plural("spec"@, c.specs_read as int) + "\n"@
            + " Solver impossible checks spawned "@ + decimal(c.read_tasks_spawned as nat) + " version reading "@
            + plural("task"@, c.read_tasks_spawned as int) + "\n"@);
        assert(out@ =~= b + " Solver impossible checks stopped "@ + decimal(c.read_tasks_stopped as nat) + " version reading "@
            + plural("task"@, c.read_tasks_stopped as int) + "\n"@
            + " Solver's Impossible Cache:\n    "@ + join(texts(c.cache@), "\n    "@) + "\n"@);
        assert(out@ =~= checks_text(enabled, *checks));
    }
    out
}

impl crate::formatter::DecisionFormatter {
    /// The statistics of a solve, as shown when it ends: its counters, the
    /// problem packages (most often first), the most frequent errors (at
    /// most the maximum set), and what the impossible request checks found
    /// when any of them was switched on. The order of the problem packages
    /// and of the errors shown is given back with the text.
    pub fn format_solve_stats(
        &self,
        solver: &Solver,
        timings: &StatsTimings,
        same_package_requests: u64,
        duplicate_requests: u64,
        checks: &ImpossibleCheckStats,
    ) -> (r: (String, Vec<usize>, Vec<usize>))
        requires
            solver@.number_of_steps + solver@.number_of_steps_back <= u64::MAX,
            checks.impossible + checks.impossible_hits + checks.possible + checks.possible_hits <= u64::MAX,
            requesters_countable(solver.error_table()),
        ensures
            sorted_by_count(r.1@, table_counts(solver.problem_table())),
            orders_kept(r.1@, solver.problem_table().len() as int, |x: int| true),
            exists|order: Seq<usize>| {
                &&& sorted_by_count(order, error_counts(solver.error_table()))
                &&& orders_kept(
                    order,
                    solver.error_table().len() as int,
                    |x: int| solver.error_table()[x].0@ != branch_attempted(),
                )
                &&& r.2@ == order.take(
                    if order.len() < self.settings.max_frequent_errors {
                        order.len() as int
                    } else {
                        self.settings.max_frequent_errors as int
                    },
                )
            },
            r.0@ == counters_text(solver@, *timings, same_package_requests, duplicate_requests) + problem_report(
                solver.problem_table(),
                r.1@,
            ) + error_report(solver.error_table(), r.2@) + checks_text(solver@.impossible_checks.check_initial_requests
                || solver@.impossible_checks.check_before_resolving || solver@.impossible_checks.use_in_build_keys, *checks),
    {
        let mut out = counters_part(solver, timings, same_package_requests, duplicate_requests);
        let (problems, order) = problem_packages_report(solver.problem_packages());
        push_text(&mut out, problems.as_str());
        let (errors, shown) = frequent_errors_report(solver.error_frequency(), self.settings.max_frequent_errors);
        push_text(&mut out, errors.as_str());
        let checks_text = checks_part(solver.any_impossible_checks_enabled(), checks);
        push_text(&mut out, checks_text.as_str());
        (out, order, shown)
    }
}

} // verus!
