//! The decisions around running several solvers at once: which finished
//! solver's result is taken, what is shown about it, what is done once a
//! solve loop ends, and the lines that compare the solvers.

use vstd::prelude::*;
use vstd::string::StrSliceExecFns;
use crate::error::{Error, solve_error_text};
use crate::formatter::{DecisionFormatterSettings, MultiSolverKind, cli_name_of, kind_text};
use crate::style::{yellow, yellow_variants};
use crate::text::{decimal, plural, pluralize, push_decimal, push_text, repeat, repeat_text};

verus! {

/// How the loop of one solver ended.
#[derive(Debug)]
pub enum LoopOutcome {
    /// Interrupted, with the message.
    Interrupted(String),
    Failed(Error),
    Success,
}

/// How a solver's loop ended, from the first error its decisions gave, if
/// any: an interruption ends it as interrupted, any other error as failed.
pub fn loop_outcome_of(first_error: Option<Error>) -> (r: LoopOutcome)
    ensures
        first_error is None ==> r is Success,
        first_error matches Some(Error::SolverInterrupted(m)) ==> (r matches LoopOutcome::Interrupted(t) && t == m),
        (first_error matches Some(e) && !(e is SolverInterrupted)) ==> (r matches LoopOutcome::Failed(f) && f
            == first_error->0),
{
    match first_error {
        None => LoopOutcome::Success,
        Some(Error::SolverInterrupted(m)) => LoopOutcome::Interrupted(m),
        Some(e) => LoopOutcome::Failed(e),
    }
}

/// What is done with a solver that finished.
#[derive(Debug, PartialEq, Eq, Structural)]
pub enum TaskDecision {
    /// Its failure is ignored; wait for the next solver to finish.
    Ignore,
    /// Its result is taken; the other solvers are stopped unless they are
    /// being compared.
    Use { stop_others: bool },
}

/// Decide about a solver that finished first among those still running:
/// one whose failure may be ignored and that failed is passed over.
pub fn task_finished(compare_solvers: bool, can_ignore_failure: bool, outcome: &LoopOutcome) -> (r: TaskDecision)
    ensures
        can_ignore_failure && outcome is Failed ==> r == TaskDecision::Ignore,
        !(can_ignore_failure && outcome is Failed) ==> r == (TaskDecision::Use { stop_others: !compare_solvers }),
{
    if can_ignore_failure {
        if let LoopOutcome::Failed(_) = outcome {
            return TaskDecision::Ignore;
        }
    }
    TaskDecision::Use { stop_others: !compare_solvers }
}

/// The message shown when a solver whose output was hidden produced the
/// result.
pub open spec fn disabled_output_text(kind: MultiSolverKind, found: bool) -> Seq<char> {
    "The "@ + kind_text(kind) + " solver found "@ + (if found {
        "a solution"@
    } else {
        "no solution (rerun with '-t' for more info)"@
    }) + ", but its output was disabled. To see its output, rerun the spk command with '--solver-to-show "@
        + cli_name_of(kind) + "' or `--solver-to-run "@ + cli_name_of(kind) + "`"@
}

/// What to tell the user when the solver that gave the result ran with
/// its output hidden (`task_verbosity` 0) while the user asked for output.
pub fn disabled_output_message(
    settings_verbosity: u8,
    task_verbosity: u8,
    kind: MultiSolverKind,
    found_solution: bool,
) -> (r: Option<String>)
    ensures
        (settings_verbosity > 0 && task_verbosity == 0) ==> (r matches Some(m) && m@ == disabled_output_text(
            kind,
            found_solution,
        )),
        !(settings_verbosity > 0 && task_verbosity == 0) ==> r is None,
{
    if settings_verbosity > 0 && task_verbosity == 0 {
        let mut m = String::new();
        push_text(&mut m, "The ");
        push_text(&mut m, kind.to_text());
        push_text(&mut m, " solver found ");
        if found_solution {
            push_text(&mut m, "a solution");
        } else {
            push_text(&mut m, "no solution (rerun with '-t' for more info)");
        }
        push_text(&mut m, ", but its output was disabled. To see its output, rerun the spk command with '--solver-to-show ");
        push_text(&mut m, kind.cli_name());
        push_text(&mut m, "' or `--solver-to-run ");
        push_text(&mut m, kind.cli_name());
        push_text(&mut m, "`");
        Some(m)
    } else {
        None
    }
}

/// The result of a run that compared the solvers: that of the first solver
/// to finish, its error shown as text, or an error when none ran.
pub fn comparison_result<T>(first: Option<Result<T, Error>>) -> (r: Result<T, Error>)
    ensures
        first is None ==> (r matches Err(Error::String(m))
            && m@ == "Multi-solver task failed to run any tasks for comparison."@),
        first matches Some(Ok(s)) ==> r == Ok::<T, Error>(s),
        first matches Some(Err(e)) ==> (r matches Err(Error::String(m)) && m@ == solve_error_text(e)),
{
    match first {
        Some(Ok(s)) => Ok(s),
        Some(Err(e)) => Err(Error::String(e.to_text())),
        None => Err(Error::String(String::from_str("Multi-solver task failed to run any tasks for comparison."))),
    }
}

/// The error of a run in which no solver gave a result.
pub fn no_tasks_error() -> (r: Error)
    ensures
        r matches Error::String(m) && m@ == "Multi-solver task failed to run any tasks."@,
{
    Error::String(String::from_str("Multi-solver task failed to run any tasks."))
}

/// One solver's line in the comparison of the solvers. The solve time and
/// the rate of builds per second are given already formatted.
#[derive(Debug)]
pub struct ComparisonRow {
    pub kind: MultiSolverKind,
    pub solved: bool,
    pub seconds: String,
    pub num_steps: u64,
    pub num_steps_back: u64,
    pub total_builds: u64,
    pub builds_per_second: String,
}

/// The widest solver name among the first `n` rows.
pub open spec fn kind_width(rows: Seq<ComparisonRow>, n: int) -> nat
    decreases n,
{
    if n <= 0 {
        0
    } else {
        let w = kind_width(rows, n - 1);
        let l = kind_text(rows[n - 1].kind).len();
        if l > w {
            l
        } else {
            w
        }
    }
}

/// A solver's line in the comparison, its name padded to `width`.
pub open spec fn comparison_line(row: ComparisonRow, width: nat) -> Seq<char> {
    kind_text(row.kind) + repeat(seq![' '], (width - kind_text(row.kind).len()) as nat) + ": "@ + (if row.solved {
        "solved"@
    } else {
        "failed"@
    }) + " in "@ + row.seconds@ + " seconds, "@ + decimal(row.num_steps as nat) + " "@ + plural(
        "step"@,
        row.num_steps as int,
    ) + " ("@ + decimal(row.num_steps_back as nat) + " back), "@ + decimal(row.total_builds as nat) + " "@
        + plural("build"@, row.total_builds as int) + " at "@ + row.builds_per_second@ + " builds/sec"@
}

fn kind_len(k: MultiSolverKind) -> (r: usize)
    ensures
        r == kind_text(k).len(),
{
    let t = k.to_text();
    t.unicode_len()
}

proof fn lemma_kind_width_bound(rows: Seq<ComparisonRow>, n: int, i: int)
    requires
        0 <= i < n,
    ensures
        kind_text(rows[i].kind).len() <= kind_width(rows, n),
    decreases n,
{
    if i < n - 1 {
        lemma_kind_width_bound(rows, n - 1, i);
    }
}

/// The lines that compare the solvers, one per solver, their names padded
/// to the widest.
pub fn solver_comparison_lines(rows: &Vec<ComparisonRow>) -> (r: Vec<String>)
    ensures
        r@.len() == rows@.len(),
        forall|i: int| 0 <= i < rows@.len() ==> (#[trigger] r@[i])@ == comparison_line(
            rows@[i],
            kind_width(rows@, rows@.len() as int),
        ),
{
    let mut width: usize = 0;
    let mut i: usize = 0;
    while i < rows.len()
        invariant
            0 <= i <= rows@.len(),
            width == kind_width(rows@, i as int),
        decreases rows@.len() - i,
    {
        let l = kind_len(rows[i].kind);
        if l > width {
            width = l;
        }
        i = i + 1;
    }
    let mut out: Vec<String> = Vec::new();
    let mut k: usize = 0;
    while k < rows.len()
        invariant
            0 <= k <= rows@.len(),
            width == kind_width(rows@, rows@.len() as int),
            out@.len() == k,
            forall|j: int| 0 <= j < k ==> (#[trigger] out@[j])@ == comparison_line(rows@[j], width as nat),
        decreases rows@.len() - k,
    {
        let row = &rows[k];
        proof {
            lemma_kind_width_bound(rows@, rows@.len() as int, k as int);
        }
        let mut line = String::new();
        push_text(&mut line, row.kind.to_text());
        let pad = repeat_text(" ", width - kind_len(row.kind));
        proof {
            reveal_strlit(" ");
            assert(" "@ =~= seq![' ']);
        }
        push_text(&mut line, pad.as_str());
        push_text(&mut line, ": ");
        if row.solved {
            push_text(&mut line, "solved");
        } else {
            push_text(&mut line, "failed");
        }
        push_text(&mut line, " in ");
        push_text(&mut line, row.seconds.as_str());
        push_text(&mut line, " seconds, ");
        push_decimal(&mut line, row.num_steps);
        push_text(&mut line, " ");
        let steps = pluralize("step", row.num_steps);
        push_text(&mut line, steps.as_str());
        push_text(&mut line, " (");
        push_decimal(&mut line, row.num_steps_back);
        push_text(&mut line, " back), ");
        push_decimal(&mut line, row.total_builds);
        push_text(&mut line, " ");
        let builds = pluralize("build", row.total_builds);
        push_text(&mut line, builds.as_str());
        push_text(&mut line, " at ");
        push_text(&mut line, row.builds_per_second.as_str());
        push_text(&mut line, " builds/sec");
        proof {
            assert(line@ =~= comparison_line(*row, width as nat));
        }
        out.push(line);
        k = k + 1;
    }
    out
}

/// Why a solve is reported to the error tracker.
#[derive(Debug, Clone, Copy, PartialEq, Eq, Structural)]
pub enum SentryWarning {
    LongSolve,
    SolverInterruptedByUser,
    SolverInterruptedByTimeout,
}

/// `t` occurs in `s` at `i`.
pub open spec fn occurs_at(s: Seq<char>, t: Seq<char>, i: int) -> bool {
    0 <= i && i + t.len() <= s.len() && s.subrange(i, i + t.len()) == t
}

/// `t` occurs in `s`.
pub open spec fn has_substring(s: Seq<char>, t: Seq<char>) -> bool {
    exists|i: int| #[trigger] occurs_at(s, t, i)
}

fn chars_of(s: &str) -> (r: Vec<char>)
    ensures
        r@ == s@,
{
    let n = s.unicode_len();
    let mut r: Vec<char> = Vec::new();
    let mut i: usize = 0;
    while i < n
        invariant
            n == s@.len(),
            0 <= i <= n,
            r@ == s@.take(i as int),
        decreases n - i,
    {
        r.push(s.get_char(i));
        proof {
            assert(r@ =~= s@.take(i + 1));
        }
        i = i + 1;
    }
    proof {
        assert(s@.take(n as int) =~= s@);
    }
    r
}

fn occurs_at_exec(s: &Vec<char>, t: &Vec<char>, i: usize) -> (r: bool)
    requires
        i + t@.len() <= s@.len(),
    ensures
        r == occurs_at(s@, t@, i as int),
{
    let mut k: usize = 0;
    while k < t.len()
        invariant
            i + t@.len() <= s@.len(),
            s@.len() == s.len(),
            0 <= k <= t@.len(),
            forall|j: int| 0 <= j < k ==> s@[i + j] == t@[j],
        decreases t@.len() - k,
    {
        if s[i + k] != t[k] {
            proof {
                assert(s@.subrange(i as int, i + t@.len())[k as int] != t@[k as int]);
            }
            return false;
        }
        k = k + 1;
    }
    proof {
        assert(s@.subrange(i as int, i + t@.len()) =~= t@);
    }
    true
}

/// Whether the text `t` occurs in `s` (`str::contains` on a text).
pub fn contains_text(s: &str, t: &str) -> (r: bool)
    ensures
        r == has_substring(s@, t@),
{
    let sc = chars_of(s);
    let tc = chars_of(t);
    if tc.len() > sc.len() {
        proof {
            assert forall|i: int| !#[trigger] occurs_at(s@, t@, i) by {}
        }
        return false;
    }
    if tc.len() == 0 {
        proof {
            assert(s@.subrange(0, 0) =~= t@);
            assert(occurs_at(s@, t@, 0));
        }
        return true;
    }
    let last = sc.len() - tc.len();
    let mut i: usize = 0;
    while i <= last
        invariant
            sc@ == s@,
            tc@ == t@,
            last == sc@.len() - tc@.len(),
            last < sc@.len(),
            sc@.len() == sc.len(),
            0 <= i <= last + 1,
            forall|j: int| 0 <= j < i ==> !#[trigger] occurs_at(s@, t@, j),
        decreases last + 1 - i,
    {
        if occurs_at_exec(&sc, &tc, i) {
            return true;
        }
        i = i + 1;
    }
    proof {
        assert forall|j: int| !#[trigger] occurs_at(s@, t@, j) by {
            if 0 <= j && j < i {
            }
        }
    }
    false
}

/// The warning of an interrupted solve: by the user when its message says
/// so or names `--stop-on-block`, else by the timeout.
pub open spec fn interruption_warning(message: Seq<char>) -> SentryWarning {
    if has_substring(message, "by user"@) || has_substring(message, "--stop-on-block"@) {
        SentryWarning::SolverInterruptedByUser
    } else {
        SentryWarning::SolverInterruptedByTimeout
    }
}

/// What is done once a solver's loop ended.
#[derive(Debug)]
pub struct ResultPlan {
    /// The warning sent to the error tracker, if any.
    pub warning: Option<SentryWarning>,
    /// The details of the failure are added to the next tracker event.
    pub failure_details: bool,
    /// The interruption message, in yellow, to output.
    pub interruption: Option<String>,
    /// The solve stats go to the solver's output.
    pub stats_to_output: bool,
    /// The solve stats go to stderr.
    pub stats_to_stderr: bool,
    /// The solve took longer than the threshold and is warned about.
    pub long_solve: bool,
    /// The solution, once read, is shown.
    pub show_solution: bool,
    /// The size of the search space is worked out and shown.
    pub search_space: bool,
}

/// A duration of `secs` seconds and `nanos` nanoseconds is longer than
/// `threshold` seconds.
pub open spec fn longer_than(secs: u64, nanos: u32, threshold: u64) -> bool {
    secs > threshold || (secs == threshold && nanos > 0)
}

/// What is done once a solver's loop ended, after `solve_secs` seconds and
/// `solve_nanos` nanoseconds: an interrupted solve is reported (as
/// interrupted by the user or by the timeout), its message shown, and its
/// stats unless it stopped on a block without stats being asked for; a
/// failed solve shows its stats on stderr when they were asked for; a
/// successful one is warned about when it took longer than the threshold,
/// and shows its stats and solution as asked.
pub fn result_plan(
    settings: &DecisionFormatterSettings,
    outcome: &LoopOutcome,
    solve_secs: u64,
    solve_nanos: u32,
) -> (r: ResultPlan)
    ensures
        match outcome {
            LoopOutcome::Interrupted(m) => {
                &&& r.warning == Some(interruption_warning(m@))
                &&& !r.failure_details
                &&& r.interruption matches Some(t) && yellow_variants(m@, t@)
                &&& r.stats_to_output == (!settings.stop_on_block || settings.report_time)
                &&& !r.stats_to_stderr
                &&& !r.long_solve
                &&& !r.show_solution
                &&& r.search_space == settings.show_search_space_size
            },
            LoopOutcome::Failed(_) => {
                &&& r.warning is None
                &&& r.failure_details
                &&& r.interruption is None
                &&& !r.stats_to_output
                &&& r.stats_to_stderr == settings.report_time
                &&& !r.long_solve
                &&& !r.show_solution
                &&& !r.search_space
            },
            LoopOutcome::Success => {
                let long = longer_than(solve_secs, solve_nanos, settings.long_solves_threshold);
                &&& r.warning == (if long {
                    Some(SentryWarning::LongSolve)
                } else {
                    None
                })
                &&& !r.failure_details
                &&& r.interruption is None
                &&& r.stats_to_output == settings.report_time
                &&& !r.stats_to_stderr
                &&& r.long_solve == long
                &&& r.show_solution == settings.show_solution
                &&& r.search_space == settings.show_search_space_size
            },
        },
{
    match outcome {
        LoopOutcome::Interrupted(m) => {
            let by_user = contains_text(m.as_str(), "by user") || contains_text(m.as_str(), "--stop-on-block");
            let warning = if by_user {
                SentryWarning::SolverInterruptedByUser
            } else {
                SentryWarning::SolverInterruptedByTimeout
            };
            ResultPlan {
                warning: Some(warning),
                failure_details: false,
                interruption: Some(yellow(m.as_str())),
                stats_to_output: !settings.stop_on_block || settings.report_time,
                stats_to_stderr: false,
                long_solve: false,
                show_solution: false,
                search_space: settings.show_search_space_size,
            }
        },
        LoopOutcome::Failed(_) => ResultPlan {
            warning: None,
            failure_details: true,
            interruption: None,
            stats_to_output: false,
            stats_to_stderr: settings.report_time,
            long_solve: false,
            show_solution: false,
            search_space: false,
        },
        LoopOutcome::Success => {
            let long = solve_secs > settings.long_solves_threshold || (solve_secs
                == settings.long_solves_threshold && solve_nanos > 0);
            ResultPlan {
                warning: if long {
                    Some(SentryWarning::LongSolve)
                } else {
                    None
                },
                failure_details: false,
                interruption: None,
                stats_to_output: settings.report_time,
                stats_to_stderr: false,
                long_solve: long,
                show_solution: settings.show_solution,
                search_space: settings.show_search_space_size,
            }
        },
    }
}

/// What a run of one solver that prints its decisions does once its loop
/// ended.
#[derive(Debug)]
pub struct PrintRunPlan {
    /// The interruption message, in yellow, for stderr; the stats follow
    /// it there.
    pub interruption: Option<String>,
    /// The details of the solve are added to the next tracker event.
    pub solve_details: bool,
    /// The solve took longer than the threshold and is warned about.
    pub long_solve: bool,
    /// The solve stats are printed.
    pub stats: bool,
    /// The solution, once read, is printed.
    pub show_solution: bool,
}

/// What a printing run does once its loop ended, after `solve_secs`
/// seconds and `solve_nanos` nanoseconds: an interrupted solve shows its
/// message and its stats on stderr and records its details; a failed one
/// just fails; a successful one is warned about when longer than the
/// threshold, and prints its stats and solution as asked.
pub fn print_run_plan(
    long_solves_threshold: u64,
    report_time: bool,
    show_solution: bool,
    outcome: &LoopOutcome,
    solve_secs: u64,
    solve_nanos: u32,
) -> (r: PrintRunPlan)
    ensures
        match outcome {
            LoopOutcome::Interrupted(m) => {
                &&& r.interruption matches Some(t) && yellow_variants(m@, t@)
                &&& r.solve_details
                &&& !r.long_solve
                &&& !r.stats
                &&& !r.show_solution
            },
            LoopOutcome::Failed(_) => {
                &&& r.interruption is None
                &&& !r.solve_details
                &&& !r.long_solve
                &&& !r.stats
                &&& !r.show_solution
            },
            LoopOutcome::Success => {
                let long = longer_than(solve_secs, solve_nanos, long_solves_threshold);
                &&& r.interruption is None
                &&& r.solve_details == long
                &&& r.long_solve == long
                &&& r.stats == report_time
                &&& r.show_solution == show_solution
            },
        },
{
    match outcome {
        LoopOutcome::Interrupted(m) => PrintRunPlan {
            interruption: Some(yellow(m.as_str())),
            solve_details: true,
            long_solve: false,
            stats: false,
            show_solution: false,
        },
        LoopOutcome::Failed(_) => PrintRunPlan {
            interruption: None,
            solve_details: false,
            long_solve: false,
            stats: false,
            show_solution: false,
        },
        LoopOutcome::Success => {
            let long = solve_secs > long_solves_threshold || (solve_secs == long_solves_threshold && solve_nanos
                > 0);
            PrintRunPlan {
                interruption: None,
                solve_details: long,
                long_solve: long,
                stats: report_time,
                show_solution,
            }
        },
    }
}

/// The warning of a printing run that took longer than the threshold.
pub fn long_solve_warning(long_solves_threshold: u64) -> (r: String)
    ensures
        r@ == "Solve took longer than acceptable time (>"@ + decimal(long_solves_threshold as nat)
            + " secs) to finish"@,
{
    let mut r = String::new();
    push_text(&mut r, "Solve took longer than acceptable time (>");
    push_decimal(&mut r, long_solves_threshold);
    push_text(&mut r, " secs) to finish");
    r
}

} // verus!
