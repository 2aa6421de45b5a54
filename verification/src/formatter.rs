//! The settings of the solver's decision formatter and the decisions it
//! makes while a solve runs: which solvers to run and where each one's
//! output goes, when a solve has taken too long, and which changes are
//! shown at a verbosity.

use vstd::prelude::*;
use vstd::string::{StrSliceExecFns, StringExecFns};
use crate::config::SolverConfig;
use crate::notes::{Note, format_note, note_text};
use crate::style::{magenta_variants, yellow, yellow_variants};
use crate::text::{decimal, decimal_text, lemma_decimal_len_below, lemma_decimal_len_bound, pow10, push_decimal, push_text, repeat, repeat_text};

verus! {

/// The text of a string in lower case (`str::to_lowercase`, which maps
/// each character by the Unicode lower case mapping).
pub uninterp spec fn lowercase(s: Seq<char>) -> Seq<char>;

/// `str::to_lowercase`: the text in lower case; in a text of ASCII
/// characters each upper case letter becomes its lower case letter and the
/// rest stay as they are (as `to_ascii_lowercase` maps them).
#[verifier::external_body]
pub(crate) fn to_lower(s: &str) -> (r: String)
    ensures
        r@ == lowercase(s@),
        all_lower_ascii(s@) ==> r@ == s@,
        ascii_text(s@) ==> r@ == ascii_lower(s@),
{
    s.to_lowercase()
}

/// Whether a string has the text of a literal.
fn text_is(s: &String, lit: &str) -> (r: bool)
    ensures
        r == (s@ == lit@),
{
    let l = String::from_str(lit);
    *s == l
}

/// Which solvers to run or show.
#[derive(Clone, Copy, Debug, PartialEq, Eq, Structural)]
pub enum MultiSolverKind {
    Unchanged,
    AllImpossibleChecks,
    /// Run all the solvers in parallel but show the output from the
    /// unchanged one.
    All,
    Resolvo,
}

/// The command line option value of each kind.
pub open spec fn cli_name_of(k: MultiSolverKind) -> Seq<char> {
    match k {
        MultiSolverKind::Unchanged => "cli"@,
        MultiSolverKind::AllImpossibleChecks => "checks"@,
        MultiSolverKind::All => "all"@,
        MultiSolverKind::Resolvo => "resolvo"@,
    }
}

/// How each kind is shown.
pub open spec fn kind_text(k: MultiSolverKind) -> Seq<char> {
    match k {
        MultiSolverKind::Unchanged => "Unchanged"@,
        MultiSolverKind::AllImpossibleChecks => "All Impossible Checks"@,
        MultiSolverKind::All => "All"@,
        MultiSolverKind::Resolvo => "Resolvo"@,
    }
}

/// Every character of the text is an ASCII character.
pub open spec fn ascii_text(s: Seq<char>) -> bool {
    forall|i: int| 0 <= i < s.len() ==> (#[trigger] s[i] as u32) < 128
}

/// An ASCII letter in lower case; any other character as it is.
pub open spec fn ascii_lower_char(c: char) -> char {
    if 'A' <= c <= 'Z' {
        ((c as u32) + 32) as char
    } else {
        c
    }
}

/// The text with its upper case ASCII letters in lower case.
pub open spec fn ascii_lower(s: Seq<char>) -> Seq<char> {
    s.map_values(|c: char| ascii_lower_char(c))
}

/// Every character of the text is a lower case ASCII letter.
pub open spec fn all_lower_ascii(s: Seq<char>) -> bool {
    forall|i: int| 0 <= i < s.len() ==> 'a' <= #[trigger] s[i] <= 'z'
}

/// The solver to run that a config value in lower case names; any other
/// value means the unchanged solver.
pub open spec fn run_kind_of_lower(v: Seq<char>) -> MultiSolverKind {
    if v == "checks"@ {
        MultiSolverKind::AllImpossibleChecks
    } else if v == "all"@ {
        MultiSolverKind::All
    } else {
        MultiSolverKind::Unchanged
    }
}

/// The solver to run that a config value names (case is ignored).
pub open spec fn run_kind_of(value: Seq<char>) -> MultiSolverKind {
    run_kind_of_lower(lowercase(value))
}

/// The solver to show that a config value names (case is ignored); any
/// other value means the unchanged solver.
pub open spec fn show_kind_of(value: Seq<char>) -> MultiSolverKind {
    if lowercase(value) == "checks"@ {
        MultiSolverKind::AllImpossibleChecks
    } else {
        MultiSolverKind::Unchanged
    }
}

/// Reading back the command line name of a solver to run, in any case of
/// its letters (as ASCII text), gives that solver, for every solver that can be named to
/// run; the name of the resolvo solver reads back as the unchanged solver.
pub proof fn lemma_run_kind_round_trip(k: MultiSolverKind, s: Seq<char>)
    requires
        ascii_text(s),
        ascii_lower(s) == cli_name_of(k),
    ensures
        all_lower_ascii(cli_name_of(k)),
        k != MultiSolverKind::Resolvo ==> run_kind_of_lower(ascii_lower(s)) == k,
        k == MultiSolverKind::Resolvo ==> run_kind_of_lower(ascii_lower(s)) == MultiSolverKind::Unchanged,
{
    reveal_strlit("cli");
    reveal_strlit("checks");
    reveal_strlit("all");
    reveal_strlit("resolvo");
    assert("resolvo"@[0] != "checks"@[0]);
    assert("resolvo"@[0] != "all"@[0]);
    assert("cli"@[1] != "checks"@[1]);
    assert("cli"@[0] != "all"@[0]);
    assert("checks"@[0] != "all"@[0]);
}

impl Default for MultiSolverKind {
    fn default() -> (r: Self)
        ensures
            r == MultiSolverKind::All,
    {
        MultiSolverKind::All
    }
}

impl MultiSolverKind {
    /// Return true if this represents running multiple solvers
    pub fn is_multi(&self) -> (r: bool)
        ensures
            r == (*self == MultiSolverKind::All),
    {
        *self == MultiSolverKind::All
    }

    /// Return the command line option value for this MultiSolveKind
    pub fn cli_name(&self) -> (r: &'static str)
        ensures
            r@ == cli_name_of(*self),
    {
        match self {
            MultiSolverKind::Unchanged => "cli",
            MultiSolverKind::AllImpossibleChecks => "checks",
            MultiSolverKind::All => "all",
            MultiSolverKind::Resolvo => "resolvo",
        }
    }

    /// How this kind is shown.
    pub fn to_text(&self) -> (r: &'static str)
        ensures
            r@ == kind_text(*self),
    {
        match self {
            MultiSolverKind::Unchanged => "Unchanged",
            MultiSolverKind::AllImpossibleChecks => "All Impossible Checks",
            MultiSolverKind::All => "All",
            MultiSolverKind::Resolvo => "Resolvo",
        }
    }

    /// Return the MultiSolverKind setting for a solver to run from a
    /// config value. This will fallback to MultiSolverKind:Cli if the
    /// given value is invalid.
    pub fn from_config_run_value(value: &str) -> (r: MultiSolverKind)
        ensures
            r == run_kind_of(value@),
            all_lower_ascii(value@) ==> r == run_kind_of_lower(value@),
            ascii_text(value@) ==> r == run_kind_of_lower(ascii_lower(value@)),
    {
        let v = to_lower(value);
        proof {
            reveal_strlit("cli");
            reveal_strlit("checks");
            reveal_strlit("all");
        }
        if text_is(&v, "cli") {
            proof {
                assert("cli"@[1] != "checks"@[1]);
                assert("cli"@[0] != "all"@[0]);
            }
            MultiSolverKind::Unchanged
        } else if text_is(&v, "checks") {
            MultiSolverKind::AllImpossibleChecks
        } else if text_is(&v, "all") {
            MultiSolverKind::All
        } else {
            MultiSolverKind::Unchanged
        }
    }

    /// Return the MultiSolverKind setting for a solver to output from a
    /// config value. This will fallback to MultiSolverKind:Cli if the
    /// given value is invalid.
    pub fn from_config_output_value(value: &str) -> (r: MultiSolverKind)
        ensures
            r == show_kind_of(value@),
            ascii_text(value@) ==> r == (if ascii_lower(value@) == "checks"@ {
                MultiSolverKind::AllImpossibleChecks
            } else {
                MultiSolverKind::Unchanged
            }),
    {
        let v = to_lower(value);
        if text_is(&v, "checks") {
            MultiSolverKind::AllImpossibleChecks
        } else {
            MultiSolverKind::Unchanged
        }
    }
}


/// A text with its spaces turned into dashes.
pub open spec fn dashed(t: Seq<char>) -> Seq<char> {
    t.map_values(|c: char| if c == ' ' { '-' } else { c })
}

/// The name of a solver output file: the prefix, the time it was made, and
/// the solver (its spaces as dashes), joined by underscores.
pub fn solver_output_file_name(prefix: &String, stamp: &String, kind: MultiSolverKind) -> (r: String)
    ensures
        r@ == prefix@ + "_"@ + stamp@ + "_"@ + dashed(kind_text(kind)),
{
    let mut r = prefix.clone();
    push_text(&mut r, "_");
    push_text(&mut r, stamp.as_str());
    push_text(&mut r, "_");
    let t = kind.to_text();
    let n = t.unicode_len();
    let ghost start = r@;
    let mut i: usize = 0;
    while i < n
        invariant
            n == t@.len(),
            t@ == kind_text(kind),
            0 <= i <= n,
            r@ == start + dashed(t@.take(i as int)),
        decreases n - i,
    {
        let c = t.get_char(i);
        if c == ' ' {
            crate::text::push_char(&mut r, '-');
        } else {
            crate::text::push_char(&mut r, c);
        }
        proof {
            assert(dashed(t@.take(i + 1)) =~= dashed(t@.take(i as int)).push(if c == ' ' { '-' } else { c }));
        }
        i = i + 1;
    }
    proof {
        assert(t@.take(n as int) =~= t@);
    }
    r
}

/// The name prefix of the files that solver runs write their output to.
pub const DEFAULT_SOLVER_RUN_FILE_PREFIX: &'static str = "spk_solver_run";

/// The settings from which a decision formatter is built.
#[derive(Debug)]
pub struct DecisionFormatterBuilder {
    pub verbosity: u8,
    pub time: bool,
    pub verbosity_increase_seconds: u64,
    pub max_verbosity_increase_level: u8,
    pub timeout: u64,
    pub show_solution: bool,
    pub heading_prefix: String,
    pub long_solves_threshold: u64,
    pub max_frequent_errors: usize,
    pub status_bar: bool,
    pub solver_to_run: MultiSolverKind,
    pub solver_to_show: MultiSolverKind,
    pub show_search_space_size: bool,
    pub compare_solvers: bool,
    pub stop_on_block: bool,
    pub step_on_block: bool,
    pub step_on_decision: bool,
    /// The directory to write solver output files to, if any.
    pub output_to_dir: Option<String>,
    pub output_to_dir_min_verbosity: u8,
    pub output_file_prefix: String,
}

/// The settings a decision formatter works with.
#[derive(Debug)]
pub struct DecisionFormatterSettings {
    pub verbosity: u8,
    pub report_time: bool,
    /// After how many seconds a solve is taking too long (0: never).
    pub too_long_seconds: u64,
    pub max_too_long_count: u64,
    pub max_verbosity_increase_level: u8,
    pub show_solution: bool,
    /// This is followed immediately by "Installed Packages"
    pub heading_prefix: String,
    pub long_solves_threshold: u64,
    pub max_frequent_errors: usize,
    pub status_bar: bool,
    pub solver_to_run: MultiSolverKind,
    pub solver_to_show: MultiSolverKind,
    pub show_search_space_size: bool,
    pub compare_solvers: bool,
    pub stop_on_block: bool,
    pub step_on_block: bool,
    pub step_on_decision: bool,
    pub output_to_dir: Option<String>,
    pub output_to_dir_min_verbosity: u8,
    pub output_file_prefix: String,
}

/// Formats the decisions of a solve for output.
#[derive(Debug)]
pub struct DecisionFormatter {
    pub settings: DecisionFormatterSettings,
}

/// The builder's defaults, apart from its strings: nothing shown or timed,
/// no verbosity increases or timeout, the verbosity increase level
/// unlimited, all solvers run, the unchanged one shown, output files (when
/// a directory is given) written at verbosity 2 or more.
pub open spec fn builder_defaults(b: DecisionFormatterBuilder) -> bool {
    &&& b.verbosity == 0
    &&& !b.time
    &&& b.verbosity_increase_seconds == 0
    &&& b.max_verbosity_increase_level == u8::MAX
    &&& b.timeout == 0
    &&& !b.show_solution
    &&& b.long_solves_threshold == 0
    &&& b.max_frequent_errors == 0
    &&& !b.status_bar
    &&& b.solver_to_run == MultiSolverKind::Unchanged
    &&& b.solver_to_show == MultiSolverKind::Unchanged
    &&& !b.show_search_space_size
    &&& !b.compare_solvers
    &&& !b.stop_on_block
    &&& !b.step_on_block
    &&& !b.step_on_decision
    &&& b.output_to_dir is None
    &&& b.output_to_dir_min_verbosity == 2
}

/// After how many seconds a solve counts as taking too long: the timeout
/// when verbosity increases are off, or longer than a set timeout; the
/// verbosity increase period otherwise.
pub open spec fn too_long_seconds_of(verbosity_increase_seconds: u64, timeout: u64) -> u64 {
    if verbosity_increase_seconds == 0 || (verbosity_increase_seconds > timeout && timeout > 0) {
        timeout
    } else {
        verbosity_increase_seconds
    }
}

/// How many "taking too long" checks a solve gets before it is stopped: the
/// timeout divided by the too-long period, rounded up (none without a
/// timeout).
pub open spec fn max_too_long_checks_of(timeout: u64, too_long: u64) -> u64 {
    if timeout > 0 && too_long > 0 {
        ((timeout + too_long - 1) / too_long as int) as u64
    } else {
        0
    }
}

/// The settings a builder builds.
pub open spec fn built_settings(b: DecisionFormatterBuilder, s: DecisionFormatterSettings) -> bool {
    let too_long = too_long_seconds_of(b.verbosity_increase_seconds, b.timeout);
    &&& s.verbosity == b.verbosity
    &&& s.report_time == b.time
    &&& s.too_long_seconds == too_long
    &&& s.max_too_long_count == max_too_long_checks_of(b.timeout, too_long)
    &&& s.max_verbosity_increase_level == b.max_verbosity_increase_level
    &&& s.show_solution == (b.show_solution || b.verbosity > 0)
    &&& s.heading_prefix@ == Seq::<char>::empty()
    &&& s.long_solves_threshold == b.long_solves_threshold
    &&& s.max_frequent_errors == b.max_frequent_errors
    &&& s.status_bar == b.status_bar
    &&& s.solver_to_run == b.solver_to_run
    &&& s.solver_to_show == b.solver_to_show
    &&& s.show_search_space_size == b.show_search_space_size
    &&& s.compare_solvers == b.compare_solvers
    &&& s.stop_on_block == b.stop_on_block
    &&& s.step_on_block == b.step_on_block
    &&& s.step_on_decision == b.step_on_decision
    &&& s.output_to_dir == b.output_to_dir
    &&& s.output_to_dir_min_verbosity == b.output_to_dir_min_verbosity
    &&& s.output_file_prefix@ == b.output_file_prefix@
}

fn copy_dir(d: &Option<String>) -> (r: Option<String>)
    ensures
        r == *d,
{
    match d {
        Some(s) => Some(s.clone()),
        None => None,
    }
}

impl Default for DecisionFormatterBuilder {
    fn default() -> (r: Self)
        ensures
            builder_defaults(r),
            r.heading_prefix@ == Seq::<char>::empty(),
            r.output_file_prefix@ == DEFAULT_SOLVER_RUN_FILE_PREFIX@,
    {
        DecisionFormatterBuilder {
            verbosity: 0,
            time: false,
            verbosity_increase_seconds: 0,
            max_verbosity_increase_level: u8::MAX,
            timeout: 0,
            show_solution: false,
            heading_prefix: String::new(),
            long_solves_threshold: 0,
            max_frequent_errors: 0,
            status_bar: false,
            solver_to_run: MultiSolverKind::Unchanged,
            solver_to_show: MultiSolverKind::Unchanged,
            show_search_space_size: false,
            compare_solvers: false,
            stop_on_block: false,
            step_on_block: false,
            step_on_decision: false,
            output_to_dir: None,
            output_to_dir_min_verbosity: 2,
            output_file_prefix: String::from_str(DEFAULT_SOLVER_RUN_FILE_PREFIX),
        }
    }
}

impl DecisionFormatterBuilder {
    /// A builder with the defaults.
    pub fn new() -> (r: Self)
        ensures
            builder_defaults(r),
            r.heading_prefix@ == Seq::<char>::empty(),
            r.output_file_prefix@ == DEFAULT_SOLVER_RUN_FILE_PREFIX@,
    {
        Self::default()
    }

    /// Populate an instance with the provided config settings
    pub fn from_config(cfg: &SolverConfig) -> (r: Self)
        ensures
            r.verbosity_increase_seconds == cfg.too_long_seconds,
            r.max_verbosity_increase_level == cfg.verbosity_increase_limit,
            r.timeout == cfg.solve_timeout,
            r.long_solves_threshold == cfg.long_solve_threshold,
            r.max_frequent_errors == cfg.max_frequent_errors,
            r.solver_to_run == run_kind_of(cfg.solver_to_run@),
            r.solver_to_show == show_kind_of(cfg.solver_to_show@),
            r.verbosity == 0,
            !r.time,
            !r.show_solution,
            r.heading_prefix@ == Seq::<char>::empty(),
            !r.status_bar,
            !r.show_search_space_size,
            !r.compare_solvers,
            !r.stop_on_block,
            !r.step_on_block,
            !r.step_on_decision,
            r.output_to_dir is None,
            r.output_to_dir_min_verbosity == 2,
            r.output_file_prefix@ == DEFAULT_SOLVER_RUN_FILE_PREFIX@,
    {
        let mut r = Self::default();
        r.verbosity_increase_seconds = cfg.too_long_seconds;
        r.max_verbosity_increase_level = cfg.verbosity_increase_limit;
        r.timeout = cfg.solve_timeout;
        r.long_solves_threshold = cfg.long_solve_threshold;
        r.max_frequent_errors = cfg.max_frequent_errors;
        r.solver_to_run = MultiSolverKind::from_config_run_value(cfg.solver_to_run.as_str());
        r.solver_to_show = MultiSolverKind::from_config_output_value(cfg.solver_to_show.as_str());
        r
    }

    pub fn with_verbosity(&mut self, verbosity: u8) -> (r: &mut Self)
        ensures
            *r == (DecisionFormatterBuilder { verbosity, ..*old(self) }),
            *final(self) == *final(r),
    {
        self.verbosity = verbosity;
        self
    }

    pub fn with_time_and_stats(&mut self, time: bool) -> (r: &mut Self)
        ensures
            *r == (DecisionFormatterBuilder { time, ..*old(self) }),
            *final(self) == *final(r),
    {
        self.time = time;
        self
    }

    pub fn with_verbosity_increase_every(&mut self, seconds: u64) -> (r: &mut Self)
        ensures
            *r == (DecisionFormatterBuilder { verbosity_increase_seconds: seconds, ..*old(self) }),
            *final(self) == *final(r),
    {
        self.verbosity_increase_seconds = seconds;
        self
    }

    pub fn with_max_verbosity_increase_level(&mut self, max_level: u8) -> (r: &mut Self)
        ensures
            *r == (DecisionFormatterBuilder { max_verbosity_increase_level: max_level, ..*old(self) }),
            *final(self) == *final(r),
    {
        self.max_verbosity_increase_level = max_level;
        self
    }

    pub fn with_timeout(&mut self, timeout: u64) -> (r: &mut Self)
        ensures
            *r == (DecisionFormatterBuilder { timeout, ..*old(self) }),
            *final(self) == *final(r),
    {
        self.timeout = timeout;
        self
    }

    pub fn with_solution(&mut self, show_solution: bool) -> (r: &mut Self)
        ensures
            *r == (DecisionFormatterBuilder { show_solution, ..*old(self) }),
            *final(self) == *final(r),
    {
        self.show_solution = show_solution;
        self
    }

    pub fn with_header(&mut self, heading: String) -> (r: &mut Self)
        ensures
            *r == (DecisionFormatterBuilder { heading_prefix: heading, ..*old(self) }),
            *final(self) == *final(r),
    {
        self.heading_prefix = heading;
        self
    }

    pub fn with_long_solves_threshold(&mut self, long_solves: u64) -> (r: &mut Self)
        ensures
            *r == (DecisionFormatterBuilder { long_solves_threshold: long_solves, ..*old(self) }),
            *final(self) == *final(r),
    {
        self.long_solves_threshold = long_solves;
        self
    }

    pub fn with_max_frequent_errors(&mut self, max_frequent_errors: usize) -> (r: &mut Self)
        ensures
            *r == (DecisionFormatterBuilder { max_frequent_errors, ..*old(self) }),
            *final(self) == *final(r),
    {
        self.max_frequent_errors = max_frequent_errors;
        self
    }

    pub fn with_status_bar(&mut self, enable: bool) -> (r: &mut Self)
        ensures
            *r == (DecisionFormatterBuilder { status_bar: enable, ..*old(self) }),
            *final(self) == *final(r),
    {
        self.status_bar = enable;
        self
    }

    pub fn with_solver_to_run(&mut self, kind: MultiSolverKind) -> (r: &mut Self)
        ensures
            *r == (DecisionFormatterBuilder { solver_to_run: kind, ..*old(self) }),
            *final(self) == *final(r),
    {
        self.solver_to_run = kind;
        self
    }

    pub fn with_solver_to_show(&mut self, kind: MultiSolverKind) -> (r: &mut Self)
        ensures
            *r == (DecisionFormatterBuilder { solver_to_show: kind, ..*old(self) }),
            *final(self) == *final(r),
    {
        self.solver_to_show = kind;
        self
    }

    pub fn with_search_space_size(&mut self, enable: bool) -> (r: &mut Self)
        ensures
            *r == (DecisionFormatterBuilder { show_search_space_size: enable, ..*old(self) }),
            *final(self) == *final(r),
    {
        self.show_search_space_size = enable;
        self
    }

    pub fn with_compare_solvers(&mut self, enable: bool) -> (r: &mut Self)
        ensures
            *r == (DecisionFormatterBuilder { compare_solvers: enable, ..*old(self) }),
            *final(self) == *final(r),
    {
        self.compare_solvers = enable;
        self
    }

    pub fn with_stop_on_block(&mut self, enable: bool) -> (r: &mut Self)
        ensures
            *r == (DecisionFormatterBuilder { stop_on_block: enable, ..*old(self) }),
            *final(self) == *final(r),
    {
        self.stop_on_block = enable;
        self
    }

    pub fn with_step_on_block(&mut self, enable: bool) -> (r: &mut Self)
        ensures
            *r == (DecisionFormatterBuilder { step_on_block: enable, ..*old(self) }),
            *final(self) == *final(r),
    {
        self.step_on_block = enable;
        self
    }

    pub fn with_step_on_decision(&mut self, enable: bool) -> (r: &mut Self)
        ensures
            *r == (DecisionFormatterBuilder { step_on_decision: enable, ..*old(self) }),
            *final(self) == *final(r),
    {
        self.step_on_decision = enable;
        self
    }

    pub fn with_output_to_dir(&mut self, dir: Option<String>) -> (r: &mut Self)
        ensures
            *r == (DecisionFormatterBuilder { output_to_dir: dir, ..*old(self) }),
            *final(self) == *final(r),
    {
        self.output_to_dir = dir;
        self
    }

    pub fn with_output_to_dir_min_verbosity(&mut self, minimum_verbosity: u8) -> (r: &mut Self)
        ensures
            *r == (DecisionFormatterBuilder { output_to_dir_min_verbosity: minimum_verbosity, ..*old(self) }),
            *final(self) == *final(r),
    {
        self.output_to_dir_min_verbosity = minimum_verbosity;
        self
    }

    pub fn with_output_file_prefix(&mut self, prefix: String) -> (r: &mut Self)
        ensures
            *r == (DecisionFormatterBuilder { output_file_prefix: prefix, ..*old(self) }),
            *final(self) == *final(r),
    {
        self.output_file_prefix = prefix;
        self
    }

    /// Build the formatter: see `built_settings` for how the settings follow
    /// from the builder's.
    pub fn build(&self) -> (r: DecisionFormatter)
        ensures
            built_settings(*self, r.settings),
    {
        let too_long_seconds = if self.verbosity_increase_seconds == 0 || (self.verbosity_increase_seconds
            > self.timeout && self.timeout > 0) {
            self.timeout
        } else {
            self.verbosity_increase_seconds
        };
        let max_too_long_checks = if self.timeout > 0 {
            // The too-long period is not zero here: it is the timeout or a
            // non-zero verbosity increase period.
            let q = self.timeout / too_long_seconds;
            if self.timeout % too_long_seconds == 0 {
                q
            } else {
                proof {
                    let t = self.timeout as int;
                    let l = too_long_seconds as int;
                    assert(q < u64::MAX) by (nonlinear_arith)
                        requires
                            l > 0,
                            t % l != 0,
                            q == t / l,
                            t <= u64::MAX,
                    {
                        assert(l != 1);
                        assert(q * l <= t);
                    }
                }
                q + 1
            }
        } else {
            0
        };
        proof {
            if self.timeout > 0 {
                let t = self.timeout as int;
                let l = too_long_seconds as int;
                assert(l > 0);
                assert((t + l - 1) / l == if t % l == 0 { t / l } else { t / l + 1 }) by (nonlinear_arith)
                    requires
                        l > 0,
                        t > 0,
                ;
            }
        }
        DecisionFormatter {
            settings: DecisionFormatterSettings {
                verbosity: self.verbosity,
                report_time: self.time,
                too_long_seconds,
                max_too_long_count: max_too_long_checks,
                max_verbosity_increase_level: self.max_verbosity_increase_level,
                show_solution: self.show_solution || self.verbosity > 0,
                heading_prefix: String::new(),
                long_solves_threshold: self.long_solves_threshold,
                max_frequent_errors: self.max_frequent_errors,
                status_bar: self.status_bar,
                solver_to_run: self.solver_to_run,
                solver_to_show: self.solver_to_show,
                show_search_space_size: self.show_search_space_size,
                compare_solvers: self.compare_solvers,
                stop_on_block: self.stop_on_block,
                step_on_block: self.step_on_block,
                step_on_decision: self.step_on_decision,
                output_to_dir: copy_dir(&self.output_to_dir),
                output_to_dir_min_verbosity: self.output_to_dir_min_verbosity,
                output_file_prefix: self.output_file_prefix.clone(),
            },
        }
    }
}


/// The name prefix of the files that solver runs in tests write to.
pub const DEFAULT_SOLVER_TEST_FILE_PREFIX: &'static str = "spk_solver_test";

impl DecisionFormatter {
    /// Create a decision formatter that's well configured for unit testing
    pub fn new_testing() -> (r: Self)
        ensures
            r.settings.verbosity == 3,
            !r.settings.report_time,
            r.settings.too_long_seconds == 5,
            r.settings.max_too_long_count == 1,
            r.settings.max_verbosity_increase_level == u8::MAX,
            r.settings.show_solution,
            r.settings.heading_prefix@ == Seq::<char>::empty(),
            r.settings.long_solves_threshold == 1,
            r.settings.max_frequent_errors == 5,
            !r.settings.status_bar,
            r.settings.solver_to_run == MultiSolverKind::Unchanged,
            r.settings.solver_to_show == MultiSolverKind::Unchanged,
            !r.settings.show_search_space_size,
            !r.settings.compare_solvers,
            !r.settings.stop_on_block,
            !r.settings.step_on_block,
            !r.settings.step_on_decision,
            r.settings.output_to_dir is None,
            r.settings.output_to_dir_min_verbosity == 2,
            r.settings.output_file_prefix@ == DEFAULT_SOLVER_TEST_FILE_PREFIX@,
    {
        DecisionFormatter {
            settings: DecisionFormatterSettings {
                verbosity: 3,
                report_time: false,
                too_long_seconds: 5,
                max_too_long_count: 1,
                max_verbosity_increase_level: u8::MAX,
                show_solution: true,
                heading_prefix: String::new(),
                long_solves_threshold: 1,
                max_frequent_errors: 5,
                status_bar: false,
                solver_to_run: MultiSolverKind::Unchanged,
                solver_to_show: MultiSolverKind::Unchanged,
                show_search_space_size: false,
                compare_solvers: false,
                stop_on_block: false,
                step_on_block: false,
                step_on_decision: false,
                output_to_dir: None,
                output_to_dir_min_verbosity: 2,
                output_file_prefix: String::from_str(DEFAULT_SOLVER_TEST_FILE_PREFIX),
            },
        }
    }
}

/// A solver to run in a multi-solve: which kind it is, whether all its
/// impossible request checks are switched on, and whether its failure may
/// be ignored while the others run on.
#[derive(Clone, Copy, Debug, PartialEq, Eq, Structural)]
pub struct SolverTaskPlan {
    pub solver_kind: MultiSolverKind,
    pub all_impossible_checks: bool,
    pub ignore_failure: bool,
}

/// The solvers that a solve runs: the unchanged solver, the solver with all
/// impossible checks, or both (in that order).
pub open spec fn solvers_to_run(k: MultiSolverKind) -> Seq<SolverTaskPlan> {
    let unchanged = SolverTaskPlan {
        solver_kind: MultiSolverKind::Unchanged,
        all_impossible_checks: false,
        ignore_failure: false,
    };
    let checks = SolverTaskPlan {
        solver_kind: MultiSolverKind::AllImpossibleChecks,
        all_impossible_checks: true,
        ignore_failure: false,
    };
    match k {
        MultiSolverKind::Unchanged => seq![unchanged],
        MultiSolverKind::AllImpossibleChecks => seq![checks],
        _ => seq![unchanged, checks],
    }
}

/// Where the output of a solver goes: to standard output or to tracing,
/// with or without a file, or to a file alone.
#[derive(Clone, Copy, Debug, PartialEq, Eq, Structural)]
pub enum OutputKind {
    Println,
    Tracing,
    LogFile,
    PrintlnAndToFile,
    TracingAndToFile,
}

/// The output kind that also writes to a (new) file.
pub open spec fn with_file_kind(k: OutputKind) -> OutputKind {
    match k {
        OutputKind::Println => OutputKind::PrintlnAndToFile,
        OutputKind::Tracing => OutputKind::TracingAndToFile,
        OutputKind::LogFile => OutputKind::LogFile,
        OutputKind::PrintlnAndToFile => OutputKind::PrintlnAndToFile,
        OutputKind::TracingAndToFile => OutputKind::TracingAndToFile,
    }
}

/// The output kind that adds printing or tracing (`other`) to `k`, keeping
/// its file; `None` where that combination is not supported, with the
/// reason.
pub open spec fn included_kind(k: OutputKind, other: OutputKind) -> Result<OutputKind, Seq<char>> {
    match other {
        OutputKind::Println => match k {
            OutputKind::Println => Ok(k),
            OutputKind::Tracing => Err("Cannot add Println output kind to a Tracing output kind. It"@),
            OutputKind::LogFile => Ok(OutputKind::PrintlnAndToFile),
            OutputKind::PrintlnAndToFile => Ok(k),
            OutputKind::TracingAndToFile => Err(
                "Cannot add Println output kind to a TrackingAndToFile output kind. It"@,
            ),
        },
        OutputKind::Tracing => match k {
            OutputKind::Println => Err("Cannot add Tracing output kind to a Println output kind. It"@),
            OutputKind::Tracing => Ok(k),
            OutputKind::LogFile => Ok(OutputKind::TracingAndToFile),
            OutputKind::PrintlnAndToFile => Err(
                "Cannot add Tracing output kind to a PrintlnAndToFile output kind. It"@,
            ),
            OutputKind::TracingAndToFile => Ok(k),
        },
        _ => Err(
            "OutputKind::ensure_output must be called with a Println or Tracing other_output. Including other kinds"@,
        ),
    }
}

impl OutputKind {
    /// Make a new output kind that uses a new output file.
    pub fn with_file(&self) -> (r: OutputKind)
        ensures
            r == with_file_kind(*self),
    {
        match self {
            OutputKind::Println => OutputKind::PrintlnAndToFile,
            OutputKind::Tracing => OutputKind::TracingAndToFile,
            OutputKind::LogFile => OutputKind::LogFile,
            OutputKind::PrintlnAndToFile => OutputKind::PrintlnAndToFile,
            OutputKind::TracingAndToFile => OutputKind::TracingAndToFile,
        }
    }

    /// Given a Println or Tracing output kind, this will ensure the
    /// new output kind returned is one that includes Println or Tracing
    /// respectively, as well as the output kind's existing file
    /// output if any. This is an error, with the reason, for any other
    /// combination.
    pub fn include_output(self, other_output: &OutputKind) -> (r: Result<OutputKind, String>)
        ensures
            r matches Ok(k) ==> included_kind(self, *other_output) == Ok::<OutputKind, Seq<char>>(k),
            r matches Err(m) ==> included_kind(self, *other_output) == Err::<OutputKind, Seq<char>>(m@),
    {
        match other_output {
            OutputKind::Println => match self {
                OutputKind::Println => Ok(self),
                OutputKind::Tracing => Err(
                    String::from_str("Cannot add Println output kind to a Tracing output kind. It"),
                ),
                OutputKind::LogFile => Ok(OutputKind::PrintlnAndToFile),
                OutputKind::PrintlnAndToFile => Ok(self),
                OutputKind::TracingAndToFile => Err(
                    String::from_str("Cannot add Println output kind to a TrackingAndToFile output kind. It"),
                ),
            },
            OutputKind::Tracing => match self {
                OutputKind::Println => Err(
                    String::from_str("Cannot add Tracing output kind to a Println output kind. It"),
                ),
                OutputKind::Tracing => Ok(self),
                OutputKind::LogFile => Ok(OutputKind::TracingAndToFile),
                OutputKind::PrintlnAndToFile => Err(
                    String::from_str("Cannot add Tracing output kind to a PrintlnAndToFile output kind. It"),
                ),
                OutputKind::TracingAndToFile => Ok(self),
            },
            _ => Err(
                String::from_str(
                    "OutputKind::ensure_output must be called with a Println or Tracing other_output. Including other kinds",
                ),
            ),
        }
    }

    /// Whether this output kind writes to a file.
    pub fn has_file(&self) -> (r: bool)
        ensures
            r == (*self == OutputKind::LogFile || *self == OutputKind::PrintlnAndToFile || *self
                == OutputKind::TracingAndToFile),
    {
        match self {
            OutputKind::Println | OutputKind::Tracing => false,
            _ => true,
        }
    }
}

/// How a solver task of a multi-solve outputs: at which verbosity, with or
/// without a status bar, whether a new output file is made for it, and the
/// output kind.
#[derive(Clone, Copy, Debug, PartialEq, Eq, Structural)]
pub struct OutputPlan {
    pub verbosity: u8,
    pub status_bar: bool,
    pub new_file: bool,
    pub output: OutputKind,
}

/// The output of a solver task. A background solver (one of several run,
/// not the one shown) has no status bar, and its output goes only to its own
/// file when there is an output directory, else is hidden (verbosity 0). The
/// foreground solver's output is always visible, and also goes to its own
/// file when there is an output directory. Output to a file is at least at
/// the minimum file verbosity.
pub open spec fn output_plan_of(s: DecisionFormatterSettings, kind: MultiSolverKind, given: OutputKind) -> OutputPlan {
    let background = s.solver_to_run == MultiSolverKind::All && s.solver_to_show != kind;
    let file_verbosity = if s.output_to_dir_min_verbosity > s.verbosity {
        s.output_to_dir_min_verbosity
    } else {
        s.verbosity
    };
    if background {
        if s.output_to_dir is Some {
            OutputPlan { verbosity: file_verbosity, status_bar: false, new_file: true, output: OutputKind::LogFile }
        } else {
            OutputPlan { verbosity: 0, status_bar: false, new_file: false, output: given }
        }
    } else if s.output_to_dir is Some {
        OutputPlan { verbosity: file_verbosity, status_bar: s.status_bar, new_file: true, output: with_file_kind(given) }
    } else {
        OutputPlan { verbosity: s.verbosity, status_bar: s.status_bar, new_file: false, output: given }
    }
}

impl DecisionFormatter {
    /// The solvers to run for a solve, by the solver-to-run setting.
    pub fn setup_solvers(&self) -> (r: Vec<SolverTaskPlan>)
        requires
            self.settings.solver_to_run != MultiSolverKind::Resolvo,
        ensures
            r@ == solvers_to_run(self.settings.solver_to_run),
    {
        let unchanged = SolverTaskPlan {
            solver_kind: MultiSolverKind::Unchanged,
            all_impossible_checks: false,
            ignore_failure: false,
        };
        let checks = SolverTaskPlan {
            solver_kind: MultiSolverKind::AllImpossibleChecks,
            all_impossible_checks: true,
            ignore_failure: false,
        };
        let r = match self.settings.solver_to_run {
            MultiSolverKind::Unchanged => vec![unchanged],
            MultiSolverKind::AllImpossibleChecks => vec![checks],
            _ => vec![unchanged, checks],
        };
        proof {
            assert(r@ =~= solvers_to_run(self.settings.solver_to_run));
        }
        r
    }

    /// How a solver task of a multi-solve outputs, given the output kind of
    /// the solve.
    pub fn output_plan(&self, kind: MultiSolverKind, given: OutputKind) -> (r: OutputPlan)
        ensures
            r == output_plan_of(self.settings, kind, given),
    {
        let background = self.settings.solver_to_run.is_multi() && self.settings.solver_to_show != kind;
        let file_verbosity = if self.settings.output_to_dir_min_verbosity > self.settings.verbosity {
            self.settings.output_to_dir_min_verbosity
        } else {
            self.settings.verbosity
        };
        if background {
            if self.settings.output_to_dir.is_some() {
                OutputPlan { verbosity: file_verbosity, status_bar: false, new_file: true, output: OutputKind::LogFile }
            } else {
                OutputPlan { verbosity: 0, status_bar: false, new_file: false, output: given }
            }
        } else if self.settings.output_to_dir.is_some() {
            OutputPlan {
                verbosity: file_verbosity,
                status_bar: self.settings.status_bar,
                new_file: true,
                output: given.with_file(),
            }
        } else {
            OutputPlan { verbosity: self.settings.verbosity, status_bar: self.settings.status_bar, new_file: false, output: given }
        }
    }
}

/// Switch on every impossible request check of a solver that a plan runs
/// with all of them.
pub fn configure_task_solver(solver: &mut crate::step::Solver, plan: &SolverTaskPlan)
    ensures
        plan.all_impossible_checks ==> final(solver)@ == (crate::step::SolverView {
            impossible_checks: crate::step::ImpossibleChecksSettings {
                check_initial_requests: true,
                check_before_resolving: true,
                use_in_build_keys: true,
            },
            ..old(solver)@
        }),
        !plan.all_impossible_checks ==> final(solver)@ == old(solver)@,
{
    if plan.all_impossible_checks {
        solver.set_initial_request_impossible_checks(true);
        solver.set_resolve_validation_impossible_checks(true);
        solver.set_build_key_impossible_checks(true);
    }
}


/// What kind of change a decision makes, as the formatter reads it.
#[derive(Clone, Copy, Debug, PartialEq, Eq, Structural)]
pub enum ChangeKind {
    /// A package is resolved; `embedded` when it is an embedded stub.
    SetPackage { embedded: bool },
    /// The solve steps back to the state at the given depth.
    StepBack { destination_depth: u64 },
    RequestPackage,
    RequestVar,
    SetOptions,
    SetPackageBuild,
}

/// A change of a decision: its kind and its text as formatted for output.
#[derive(Debug)]
pub struct FormattedChange {
    pub kind: ChangeKind,
    pub text: String,
}

/// The state of the solve, formatted, for the most verbose output.
#[derive(Debug)]
pub struct StateTexts {
    pub requests: String,
    pub resolved: String,
    /// The var requests, as their joined text is shown for debugging.
    pub var_requests: String,
    pub options: String,
}

/// The lowest verbosity at which a change is shown. Step backs matter more
/// when the solve stops or pauses at them.
pub open spec fn relevant_level(k: ChangeKind, stop_on_block: bool, step_on_block: bool) -> int {
    match k {
        ChangeKind::SetPackage { .. } => 1,
        ChangeKind::StepBack { .. } => if stop_on_block || step_on_block {
            0
        } else {
            1
        },
        ChangeKind::RequestPackage => 2,
        ChangeKind::RequestVar => 2,
        ChangeKind::SetOptions => 3,
        ChangeKind::SetPackageBuild => 1,
    }
}

/// Whether a change is shown at a verbosity, with stopping and pausing on
/// blocks off.
pub fn change_is_relevant_at_verbosity(change: &ChangeKind, verbosity: u32) -> (r: bool)
    ensures
        r == (verbosity >= relevant_level(*change, false, false)),
{
    let relevant_level: u32 = match change {
        ChangeKind::SetPackage { .. } => 1,
        ChangeKind::StepBack { .. } => 1,
        ChangeKind::RequestPackage => 2,
        ChangeKind::RequestVar => 2,
        ChangeKind::SetOptions => 3,
        ChangeKind::SetPackageBuild => 1,
    };
    verbosity >= relevant_level
}

/// The character that fills the indentation of a change's line.
pub open spec fn change_fill(k: ChangeKind) -> Seq<char> {
    match k {
        ChangeKind::SetPackage { embedded } => if embedded {
            "."@
        } else {
            ">"@
        },
        ChangeKind::StepBack { .. } => "!"@,
        _ => "."@,
    }
}

/// The indentation of a line at a decision level: the fill repeated once
/// per level; past level 5 at verbosity 3 or more, the level number, a
/// space and the fill for the rest of the width.
pub open spec fn line_prefix(fill: Seq<char>, level: u64, verbosity: u8) -> Seq<char> {
    if verbosity > 2 && level > 5 {
        let digits = decimal(level as nat);
        digits + " "@ + repeat(fill, (level - digits.len() - 1) as nat)
    } else {
        repeat(fill, level as nat)
    }
}

/// The lines of the changes shown at a verbosity.
pub open spec fn change_lines(
    cs: Seq<FormattedChange>,
    level: u64,
    verbosity: u8,
    stop_on_block: bool,
    step_on_block: bool,
) -> Seq<Seq<char>>
    decreases cs.len(),
{
    if cs.len() == 0 {
        Seq::empty()
    } else {
        let prev = change_lines(cs.drop_last(), level, verbosity, stop_on_block, step_on_block);
        let c = cs.last();
        if verbosity >= relevant_level(c.kind, stop_on_block, step_on_block) {
            prev.push(line_prefix(change_fill(c.kind), level, verbosity) + " "@ + c.text@)
        } else {
            prev
        }
    }
}

/// The level after a decision's changes: one deeper, or the depth of the
/// last step back.
pub open spec fn level_after(cs: Seq<FormattedChange>, level: u64) -> int
    decreases cs.len(),
{
    if cs.len() == 0 {
        level + 1
    } else {
        match cs.last().kind {
            ChangeKind::StepBack { destination_depth } => destination_depth as int,
            _ => level_after(cs.drop_last(), level),
        }
    }
}

/// Whether a decision steps back.
pub open spec fn steps_back(cs: Seq<FormattedChange>) -> bool {
    exists|i: int| 0 <= i < cs.len() && (#[trigger] cs[i]).kind is StepBack
}

/// The label word of a note.
pub open spec fn note_word(n: Note) -> Seq<char> {
    if n is SkipPackageNote {
        "TRY"@
    } else {
        "NOTE"@
    }
}

/// A note's line: the note after the indentation, its label coloured as
/// `format_note` colours it.
pub open spec fn note_line(line: Seq<char>, prefix: Seq<char>, n: Note) -> bool {
    exists|label: Seq<char>| #[trigger] magenta_variants(note_word(n), label) && line == prefix + " "@ + note_text(label, n)
}

/// The note lines of a decision.
pub open spec fn note_lines_of(lines: Seq<Seq<char>>, prefix: Seq<char>, notes: Seq<Note>) -> bool {
    &&& lines.len() == notes.len()
    &&& forall|i: int| 0 <= i < notes.len() ==> #[trigger] note_line(lines[i], prefix, notes[i])
}

/// The settings that the decision formatting of a solve reads.
#[derive(Clone, Copy, Debug, PartialEq, Eq, Structural)]
pub struct FormatFlags {
    pub too_long_seconds: u64,
    pub max_too_long_count: u64,
    pub max_verbosity_increase_level: u8,
    pub stop_on_block: bool,
    pub step_on_block: bool,
    pub step_on_decision: bool,
}

/// What a check for a solve that is taking too long decides.
#[derive(Debug)]
pub enum TooLongOutcome {
    /// Not taking too long (or no limit set): nothing changes.
    NotYet,
    /// Taking too long: the verbosity went up, with the message to show.
    /// The timer starts again.
    Increased(String),
    /// Taking too long, with the verbosity already at its limit. The timer
    /// starts again.
    Restarted,
    /// Taking far too long: the solve stops, with this message.
    Interrupted(String),
}

/// The message of a solve that took far too long.
pub open spec fn far_too_long_message(seconds: nat) -> Seq<char> {
    "Solve is taking far too long, > "@ + decimal(seconds)
        + " secs.\nStopping. Please review the problems hit so far ..."@
}

/// The message of a solve whose verbosity goes up.
pub open spec fn too_long_message(seconds: nat, verbosity: nat) -> Seq<char> {
    "Solve is taking too long, > "@ + decimal(seconds) + " secs. Increasing verbosity level to "@
        + decimal(verbosity)
}

/// A pause or stop of the solve between two decisions.
#[derive(Debug)]
pub enum PauseStep {
    /// Show the state menu with this prompt, and wait for the user.
    Menu(String),
    /// Stop the solve, interrupted with this message.
    Interrupt(String),
}

/// A pause step as plain values: whether it is a menu, and its text.
pub open spec fn pause_view(p: PauseStep) -> (bool, Seq<char>) {
    match p {
        PauseStep::Menu(t) => (true, t@),
        PauseStep::Interrupt(t) => (false, t@),
    }
}

/// The pauses before the next decision, given whether the last decision
/// stepped back with step-on-block or stop-on-block set, and whether to
/// pause after a decision.
pub open spec fn pause_steps(step_blocked: bool, stop_blocked: bool, after_decision: bool) -> Seq<(bool, Seq<char>)> {
    let head: Seq<(bool, Seq<char>)> = if step_blocked {
        seq![(true, "Paused at BLOCKED state."@)]
    } else {
        Seq::empty()
    };
    if stop_blocked {
        head + seq![
            (true, "Hit at BLOCKED state. Stopping after menu."@),
            (false, "At BLOCKED state with --stop-on-block enabled. Stopping."@),
        ]
    } else if after_decision {
        head + seq![(true, "Pausing after decision."@)]
    } else {
        head
    }
}

/// The interruption of a solve that the user cancelled (with ctrl-c).
pub fn user_interruption(cancelled: bool) -> (r: Result<(), crate::error::Error>)
    ensures
        cancelled ==> (r matches Err(crate::error::Error::SolverInterrupted(m))
            && m@ == "Solver interrupted by user ..."@),
        !cancelled ==> r is Ok,
{
    if cancelled {
        Err(crate::error::Error::SolverInterrupted(String::from_str("Solver interrupted by user ...")))
    } else {
        Ok(())
    }
}

/// Formats the decisions of a solve, one at a time: the decision level, the
/// verbosity (which goes up when the solve takes too long), and whether the
/// last decision stepped back with stopping or pausing on blocks enabled.
pub struct FormattedDecisionsIter {
    pub level: u64,
    pub verbosity: u8,
    pub too_long_counter: u64,
    pub flags: FormatFlags,
    pub stop_because_blocked: bool,
    pub step_because_blocked: bool,
}

impl FormattedDecisionsIter {
    /// The formatter at the start of a solve.
    pub fn new(settings: &DecisionFormatterSettings) -> (r: Self)
        ensures
            r.level == 0,
            r.verbosity == settings.verbosity,
            r.too_long_counter == 0,
            r.flags == (FormatFlags {
                too_long_seconds: settings.too_long_seconds,
                max_too_long_count: settings.max_too_long_count,
                max_verbosity_increase_level: settings.max_verbosity_increase_level,
                stop_on_block: settings.stop_on_block,
                step_on_block: settings.step_on_block,
                step_on_decision: settings.step_on_decision,
            }),
            !r.stop_because_blocked,
            !r.step_because_blocked,
    {
        FormattedDecisionsIter {
            level: 0,
            verbosity: settings.verbosity,
            too_long_counter: 0,
            flags: FormatFlags {
                too_long_seconds: settings.too_long_seconds,
                max_too_long_count: settings.max_too_long_count,
                max_verbosity_increase_level: settings.max_verbosity_increase_level,
                stop_on_block: settings.stop_on_block,
                step_on_block: settings.step_on_block,
                step_on_decision: settings.step_on_decision,
            },
            stop_because_blocked: false,
            step_because_blocked: false,
        }
    }

    /// Whether a change is shown at the current verbosity.
    pub fn change_is_relevant_at_verbosity(&self, change: &ChangeKind) -> (r: bool)
        ensures
            r == (self.verbosity >= relevant_level(*change, self.flags.stop_on_block, self.flags.step_on_block)),
    {
        let relevant_level: u8 = match change {
            ChangeKind::SetPackage { .. } => 1,
            ChangeKind::StepBack { .. } => if self.flags.stop_on_block || self.flags.step_on_block {
                0
            } else {
                1
            },
            ChangeKind::RequestPackage => 2,
            ChangeKind::RequestVar => 2,
            ChangeKind::SetOptions => 3,
            ChangeKind::SetPackageBuild => 1,
        };
        self.verbosity >= relevant_level
    }

    /// The check made before each step, given whether the time since the
    /// timer last started is over the too-long period. Each time the period
    /// passes, the count of such times goes up; once it reaches the maximum
    /// (when one is set) the solve is stopped; otherwise the verbosity goes
    /// up by one, up to its limit.
    pub fn check_if_taking_too_long(&mut self, elapsed_over: bool) -> (r: TooLongOutcome)
        requires
            old(self).too_long_counter < u64::MAX,
            old(self).flags.max_too_long_count * old(self).flags.too_long_seconds <= u64::MAX,
        ensures
            final(self).level == old(self).level,
            final(self).flags == old(self).flags,
            final(self).stop_because_blocked == old(self).stop_because_blocked,
            final(self).step_because_blocked == old(self).step_because_blocked,
            (old(self).flags.too_long_seconds == 0 || !elapsed_over) ==> {
                &&& r is NotYet
                &&& final(self).too_long_counter == old(self).too_long_counter
                &&& final(self).verbosity == old(self).verbosity
            },
            (old(self).flags.too_long_seconds != 0 && elapsed_over) ==> {
                let count = old(self).too_long_counter + 1;
                let max = old(self).flags.max_too_long_count;
                &&& final(self).too_long_counter == count
                &&& (max > 0 && count >= max) ==> {
                    &&& r matches TooLongOutcome::Interrupted(m)
                    &&& m@ == far_too_long_message((max * old(self).flags.too_long_seconds) as nat)
                    &&& final(self).verbosity == old(self).verbosity
                }
                &&& !(max > 0 && count >= max) && old(self).verbosity
                    < old(self).flags.max_verbosity_increase_level ==> {
                    &&& final(self).verbosity == old(self).verbosity + 1
                    &&& r matches TooLongOutcome::Increased(m)
                    &&& m@ == too_long_message(
                        old(self).flags.too_long_seconds as nat,
                        (old(self).verbosity + 1) as nat,
                    )
                }
                &&& !(max > 0 && count >= max) && old(self).verbosity
                    >= old(self).flags.max_verbosity_increase_level ==> {
                    &&& r is Restarted
                    &&& final(self).verbosity == old(self).verbosity
                }
            },
    {
        if self.flags.too_long_seconds == 0 || !elapsed_over {
            return TooLongOutcome::NotYet;
        }
        self.too_long_counter = self.too_long_counter + 1;
        if self.flags.max_too_long_count > 0 && self.too_long_counter >= self.flags.max_too_long_count {
            let mut m = String::new();
            push_text(&mut m, "Solve is taking far too long, > ");
            push_decimal(&mut m, self.flags.max_too_long_count * self.flags.too_long_seconds);
            push_text(&mut m, " secs.\nStopping. Please review the problems hit so far ...");
            proof {
                assert(m@ =~= far_too_long_message(
                    (self.flags.max_too_long_count * self.flags.too_long_seconds) as nat,
                ));
            }
            return TooLongOutcome::Interrupted(m);
        }
        if self.verbosity < self.flags.max_verbosity_increase_level {
            self.verbosity = self.verbosity + 1;
            let mut m = String::new();
            push_text(&mut m, "Solve is taking too long, > ");
            push_decimal(&mut m, self.flags.too_long_seconds);
            push_text(&mut m, " secs. Increasing verbosity level to ");
            push_decimal(&mut m, self.verbosity as u64);
            proof {
                assert(m@ =~= too_long_message(self.flags.too_long_seconds as nat, self.verbosity as nat));
            }
            return TooLongOutcome::Increased(m);
        }
        TooLongOutcome::Restarted
    }

    /// What happens before the next decision is taken: a pause when the
    /// last decision stepped back with step-on-block set (the flag is then
    /// cleared); a last menu and a stop when it stepped back with
    /// stop-on-block set; otherwise a pause after each decision when that
    /// is asked for and a decision was made.
    pub fn before_next_decision(&mut self, has_state: bool) -> (r: Vec<PauseStep>)
        ensures
            r@.map_values(|p: PauseStep| pause_view(p)) == pause_steps(
                old(self).step_because_blocked,
                old(self).stop_because_blocked,
                old(self).flags.step_on_decision && has_state,
            ),
            final(self).step_because_blocked == false,
            final(self).stop_because_blocked == old(self).stop_because_blocked,
            final(self).level == old(self).level,
            final(self).verbosity == old(self).verbosity,
            final(self).too_long_counter == old(self).too_long_counter,
            final(self).flags == old(self).flags,
    {
        let mut steps: Vec<PauseStep> = Vec::new();
        let ghost head: Seq<(bool, Seq<char>)> = Seq::empty();
        if self.step_because_blocked {
            steps.push(PauseStep::Menu(String::from_str("Paused at BLOCKED state.")));
            self.step_because_blocked = false;
            proof {
                head = seq![(true, "Paused at BLOCKED state."@)];
            }
        }
        assert(steps@.map_values(|p: PauseStep| pause_view(p)) =~= head);
        if self.stop_because_blocked {
            steps.push(PauseStep::Menu(String::from_str("Hit at BLOCKED state. Stopping after menu.")));
            steps.push(PauseStep::Interrupt(String::from_str("At BLOCKED state with --stop-on-block enabled. Stopping.")));
            assert(steps@.map_values(|p: PauseStep| pause_view(p)) =~= head + seq![
                (true, "Hit at BLOCKED state. Stopping after menu."@),
                (false, "At BLOCKED state with --stop-on-block enabled. Stopping."@),
            ]);
            return steps;
        }
        if self.flags.step_on_decision && has_state {
            steps.push(PauseStep::Menu(String::from_str("Pausing after decision.")));
            assert(steps@.map_values(|p: PauseStep| pause_view(p)) =~= head + seq![(true, "Pausing after decision."@)]);
        }
        steps
    }

    /// Turn off stopping and pausing, so that the solve runs to its end.
    pub fn remove_step_and_stop_setting(&mut self)
        ensures
            final(self).flags == (FormatFlags {
                stop_on_block: false,
                step_on_block: false,
                step_on_decision: false,
                ..old(self).flags
            }),
            final(self).level == old(self).level,
            final(self).verbosity == old(self).verbosity,
            final(self).too_long_counter == old(self).too_long_counter,
            final(self).stop_because_blocked == old(self).stop_because_blocked,
            final(self).step_because_blocked == old(self).step_because_blocked,
    {
        self.flags.stop_on_block = false;
        self.flags.step_on_block = false;
        self.flags.step_on_decision = false;
    }

    /// The indentation of a line at the current level.
    fn prefix(&self, fill: &str) -> (r: String)
        requires
            self.level <= usize::MAX,
        ensures
            r@ == line_prefix(fill@, self.level, self.verbosity),
    {
        if self.verbosity > 2 && self.level > 5 {
            let digits = decimal_text(self.level);
            proof {
                lemma_decimal_len_bound(self.level as nat);
                if self.level < 100 {
                    assert(pow10(2) == 100) by {
                        reveal_with_fuel(pow10, 3);
                    }
                    lemma_decimal_len_below(self.level as nat, 2);
                }
            }
            let width = digits.unicode_len() + 1;
            let mut r = digits;
            push_text(&mut r, " ");
            let pad = repeat_text(fill, self.level as usize - width);
            push_text(&mut r, pad.as_str());
            r
        } else {
            repeat_text(fill, self.level as usize)
        }
    }

    /// The lines of one decision of the solve, in order: at verbosity 6 and
    /// more the state's requests and resolved packages (at 10 and more also
    /// its var requests and options); at verbosity 2 and more the decision's
    /// notes; then each change shown at the verbosity. The level then goes
    /// one deeper, or to the depth a step back goes to; a step back also
    /// marks that the solve is to stop or pause there, as the settings ask.
    pub fn format_decision(
        &mut self,
        notes: &Vec<Note>,
        changes: &Vec<FormattedChange>,
        state: &StateTexts,
    ) -> (r: Vec<String>)
        requires
            old(self).level < usize::MAX,
            old(self).level < u64::MAX,
        ensures
            ({
                let v = old(self).verbosity;
                let head = if v > 5 { 2int } else { 0int } + if v > 9 { 2int } else { 0int };
                let nn = if v > 1 { notes@.len() as int } else { 0int };
                let shown = change_lines(
                    changes@,
                    old(self).level,
                    v,
                    old(self).flags.stop_on_block,
                    old(self).flags.step_on_block,
                );
                &&& r@.len() == head + nn + shown.len()
                &&& v > 5 ==> {
                    &&& exists|l: Seq<char>| yellow_variants("State Requests:"@, l) && r@[0]@ == l + " "@ + state.requests@
                    &&& exists|l: Seq<char>| yellow_variants("State Resolved:"@, l) && r@[1]@ == l + " "@ + state.resolved@
                }
                &&& v > 9 ==> {
                    &&& exists|l: Seq<char>| yellow_variants("State  VarReqs:"@, l) && r@[2]@ == l + " "@ + state.var_requests@
                    &&& exists|l: Seq<char>| yellow_variants("State  Options:"@, l) && r@[3]@ == l + " "@ + state.options@
                }
                &&& v > 1 ==> note_lines_of(
                    r@.subrange(head, head + nn).map_values(|x: String| x@),
                    line_prefix("."@, old(self).level, v),
                    notes@,
                )
                &&& r@.subrange(head + nn, r@.len() as int).map_values(|x: String| x@) == shown
            }),
            final(self).level == level_after(changes@, old(self).level),
            final(self).verbosity == old(self).verbosity,
            final(self).too_long_counter == old(self).too_long_counter,
            final(self).flags == old(self).flags,
            steps_back(changes@) ==> final(self).stop_because_blocked == old(self).flags.stop_on_block
                && final(self).step_because_blocked == old(self).flags.step_on_block,
            !steps_back(changes@) ==> final(self).stop_because_blocked == old(self).stop_because_blocked
                && final(self).step_because_blocked == old(self).step_because_blocked,
    {
        let mut out: Vec<String> = Vec::new();
        let ghost mut hs: Seq<Seq<char>> = Seq::empty();
        if self.verbosity > 5 {
            let mut a = yellow("State Requests:");
            let ghost la = a@;
            push_text(&mut a, " ");
            push_text(&mut a, state.requests.as_str());
            out.push(a);
            let mut b = yellow("State Resolved:");
            let ghost lb = b@;
            push_text(&mut b, " ");
            push_text(&mut b, state.resolved.as_str());
            out.push(b);
            proof {
                hs = seq![la + " "@ + state.requests@, lb + " "@ + state.resolved@];
                assert(out@.map_values(|x: String| x@) =~= hs);
            }
        }
        if self.verbosity > 9 {
            let mut a = yellow("State  VarReqs:");
            let ghost la = a@;
            push_text(&mut a, " ");
            push_text(&mut a, state.var_requests.as_str());
            out.push(a);
            let mut b = yellow("State  Options:");
            let ghost lb = b@;
            push_text(&mut b, " ");
            push_text(&mut b, state.options.as_str());
            out.push(b);
            proof {
                hs = hs + seq![la + " "@ + state.var_requests@, lb + " "@ + state.options@];
                assert(out@.map_values(|x: String| x@) =~= hs);
            }
        }
        proof {
            assert(out@.map_values(|x: String| x@) =~= hs);
        }
        let ghost mut ns: Seq<Seq<char>> = Seq::empty();
        if self.verbosity > 1 {
            let prefix = self.prefix(".");
            let mut i: usize = 0;
            while i < notes.len()
                invariant
                    0 <= i <= notes@.len(),
                    out@.map_values(|x: String| x@) == hs + ns,
                    prefix@ == line_prefix("."@, self.level, self.verbosity),
                    note_lines_of(ns, prefix@, notes@.take(i as int)),
                decreases notes@.len() - i,
            {
                let mut line = prefix.clone();
                push_text(&mut line, " ");
                let formatted = format_note(&notes[i]);
                push_text(&mut line, formatted.as_str());
                let ghost before = out@;
                out.push(line);
                proof {
                    let label = choose|label: Seq<char>| magenta_variants(note_word(notes@[i as int]), label)
                        && formatted@ == note_text(label, notes@[i as int]);
                    assert(line@ =~= prefix@ + " "@ + note_text(label, notes@[i as int]));
                    assert(note_line(line@, prefix@, notes@[i as int]));
                    let ns2 = ns.push(line@);
                    assert forall|j: int| 0 <= j < i + 1 implies #[trigger] note_line(ns2[j], prefix@, notes@.take(i + 1)[j]) by {
                        if j < i {
                            assert(ns2[j] == ns[j]);
                            assert(notes@.take(i + 1)[j] == notes@.take(i as int)[j]);
                        } else {
                            assert(notes@.take(i + 1)[j] == notes@[i as int]);
                        }
                    }
                    assert(out@.map_values(|x: String| x@) =~= before.map_values(|x: String| x@).push(line@));
                    assert(out@.map_values(|x: String| x@) =~= hs + ns2);
                    ns = ns2;
                }
                i = i + 1;
            }
            proof {
                assert(notes@.take(notes@.len() as int) =~= notes@);
            }
        }
        let mut new_level = self.level + 1;
        let ghost old_stop = self.stop_because_blocked;
        let ghost old_step = self.step_because_blocked;
        let mut j: usize = 0;
        while j < changes.len()
            invariant
                0 <= j <= changes@.len(),
                self.level == old(self).level,
                self.verbosity == old(self).verbosity,
                self.flags == old(self).flags,
                self.too_long_counter == old(self).too_long_counter,
                self.level < usize::MAX,
                out@.map_values(|x: String| x@) == hs + ns + change_lines(
                    changes@.take(j as int),
                    self.level,
                    self.verbosity,
                    self.flags.stop_on_block,
                    self.flags.step_on_block,
                ),
                new_level == level_after(changes@.take(j as int), self.level),
                steps_back(changes@.take(j as int)) ==> self.stop_because_blocked == self.flags.stop_on_block
                    && self.step_because_blocked == self.flags.step_on_block,
                !steps_back(changes@.take(j as int)) ==> self.stop_because_blocked == old_stop
                    && self.step_because_blocked == old_step,
            decreases changes@.len() - j,
        {
            proof {
                assert(changes@.take(j + 1).drop_last() =~= changes@.take(j as int));
                assert(changes@.take(j + 1).last() == changes@[j as int]);
            }
            let c = &changes[j];
            let fill = match c.kind {
                ChangeKind::SetPackage { embedded } => if embedded {
                    "."
                } else {
                    ">"
                },
                ChangeKind::StepBack { destination_depth } => {
                    new_level = destination_depth;
                    self.stop_because_blocked = self.flags.stop_on_block;
                    self.step_because_blocked = self.flags.step_on_block;
                    "!"
                },
                _ => ".",
            };
            proof {
                if c.kind is StepBack {
                    assert(changes@.take(j + 1)[j as int].kind is StepBack);
                } else {
                    if steps_back(changes@.take(j + 1)) {
                        let k = choose|k: int| 0 <= k < j + 1 && (#[trigger] changes@.take(j + 1)[k]).kind is StepBack;
                        assert(changes@.take(j as int)[k] == changes@.take(j + 1)[k]);
                    }
                    if steps_back(changes@.take(j as int)) {
                        let k = choose|k: int| 0 <= k < j && (#[trigger] changes@.take(j as int)[k]).kind is StepBack;
                        assert(changes@.take(j + 1)[k] == changes@.take(j as int)[k]);
                    }
                }
            }
            if self.change_is_relevant_at_verbosity(&c.kind) {
                let mut line = self.prefix(fill);
                push_text(&mut line, " ");
                push_text(&mut line, c.text.as_str());
                let ghost before = out@;
                out.push(line);
                proof {
                    assert(out@.map_values(|x: String| x@) =~= before.map_values(|x: String| x@).push(line@));
                }
            }
            j = j + 1;
        }
        proof {
            assert(changes@.take(changes@.len() as int) =~= changes@);
            let all = out@.map_values(|x: String| x@);
            let shown = change_lines(changes@, self.level, self.verbosity, self.flags.stop_on_block, self.flags.step_on_block);
            let head = hs.len() as int;
            let nn = ns.len() as int;
            assert(all.subrange(head + nn, all.len() as int) =~= shown);
            assert(out@.subrange(head + nn, out@.len() as int).map_values(|x: String| x@) =~= all.subrange(
                head + nn,
                all.len() as int,
            ));
            assert(all.subrange(head, head + nn) =~= ns);
            assert(out@.subrange(head, head + nn).map_values(|x: String| x@) =~= all.subrange(head, head + nn));
            if self.verbosity > 5 {
                assert(all[0] == out@[0]@);
                assert(all[1] == out@[1]@);
            }
            if self.verbosity > 9 {
                assert(all[2] == out@[2]@);
                assert(all[3] == out@[3]@);
            }
        }
        self.level = new_level;
        out
    }
}

} // verus!
