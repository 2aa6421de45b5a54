use spk_solve::component::Component;
use spk_solve::error::Error;
use spk_solve::formatter::{DecisionFormatterBuilder, MultiSolverKind};
use spk_solve::multi_solve::{
    comparison_result, contains_text, disabled_output_message, long_solve_warning, no_tasks_error,
    print_run_plan, result_plan, solver_comparison_lines, task_finished, ComparisonRow, LoopOutcome,
    SentryWarning, TaskDecision,
};
use spk_solve::notes::Note;
use spk_solve::package_iter::{build_version_map, merge_listings, order_builds, Listing};
use spk_solve::reports::{long_solve_message, solve_details, sort_texts, warning_report_for, VarRequestText};
use spk_solve::search_space::{count_builds, search_space_stats, total_stats, BuildFacts, BuildSet};
use spk_solve::source_build::{
    source_build_next, source_build_verdict, CanBuildFromSource, RecipeLookup, SourceBuildNext, VariantOutcome,
};
use spk_solve::status_line::{status_rows, ShownPackage, StatusLayout};
use spk_solve::step::{ImpossibleChecksSettings, Solver};
use spk_solve::step_state::{
    conflict_action, embedded_components_request, initial_requests_verdict, missing_embed_provider,
    solution_verdict, ConflictAction, EmbeddedPackage, InitialCheck, ParentComponent, ResolvedPackage,
    SolutionVerdict, SourceBuildCheck,
};

use spk_solve::step_state::{impossible_builds, BuildRequestsCheck};
use spk_solve::multi_solve::loop_outcome_of;
use spk_solve::menu::{menu_action, state_listing, MenuAction};
use spk_solve::validation::{changeset_verdict, Validator};
use spk_solve::formatter::solver_output_file_name;
use spk_solve::metrics::solution_package_labels;
use spk_solve::spec::template_pkg_name;
use spk_solve::provider::{propagated_required_vars, VarOptionFacts};
use spk_solve::step_state::new_build_options;

fn strip_ansi(s: &str) -> String {
    let mut out = String::new();
    let mut chars = s.chars();
    while let Some(c) = chars.next() {
        if c == '\u{1b}' {
            for d in chars.by_ref() {
                if d == 'm' {
                    break;
                }
            }
        } else {
            out.push(c);
        }
    }
    out
}

#[test]
fn finished_solvers_are_used_unless_their_failure_is_ignored() {
    let failed = LoopOutcome::Failed(Error::String("x".to_string()));
    assert_eq!(task_finished(false, true, &failed), TaskDecision::Ignore);
    assert_eq!(task_finished(false, false, &failed), TaskDecision::Use { stop_others: true });
    assert_eq!(task_finished(true, true, &LoopOutcome::Success), TaskDecision::Use { stop_others: false });
}

#[test]
fn hidden_output_is_mentioned() {
    assert_eq!(
        disabled_output_message(1, 0, MultiSolverKind::AllImpossibleChecks, true).as_deref(),
        Some("The All Impossible Checks solver found a solution, but its output was disabled. To see its output, rerun the spk command with '--solver-to-show checks' or `--solver-to-run checks`")
    );
    assert!(disabled_output_message(0, 0, MultiSolverKind::All, true).is_none());
    assert!(disabled_output_message(1, 2, MultiSolverKind::All, false).is_none());
}

#[test]
fn comparison_results_and_errors() {
    assert_eq!(comparison_result(Some(Ok::<u32, Error>(7))).ok(), Some(7));
    match comparison_result::<u32>(Some(Err(Error::Other("boom".to_string())))) {
        Err(Error::String(m)) => assert_eq!(m, "boom"),
        other => panic!("unexpected {other:?}"),
    }
    match comparison_result::<u32>(None) {
        Err(Error::String(m)) => assert_eq!(m, "Multi-solver task failed to run any tasks for comparison."),
        other => panic!("unexpected {other:?}"),
    }
    match no_tasks_error() {
        Error::String(m) => assert_eq!(m, "Multi-solver task failed to run any tasks."),
        other => panic!("unexpected {other:?}"),
    }
}

#[test]
fn comparison_lines_pad_the_solver_names() {
    let rows = vec![
        ComparisonRow {
            kind: MultiSolverKind::Unchanged,
            solved: true,
            seconds: "0.500000".to_string(),
            num_steps: 1,
            num_steps_back: 0,
            total_builds: 2,
            builds_per_second: "4.000".to_string(),
        },
        ComparisonRow {
            kind: MultiSolverKind::AllImpossibleChecks,
            solved: false,
            seconds: "1.000000".to_string(),
            num_steps: 3,
            num_steps_back: 1,
            total_builds: 1,
            builds_per_second: "1.000".to_string(),
        },
    ];
    let lines = solver_comparison_lines(&rows);
    assert_eq!(
        lines[0],
        "Unchanged            : solved in 0.500000 seconds, 1 step (0 back), 2 builds at 4.000 builds/sec"
    );
    assert_eq!(
        lines[1],
        "All Impossible Checks: failed in 1.000000 seconds, 3 steps (1 back), 1 build at 1.000 builds/sec"
    );
}

#[test]
fn text_search() {
    assert!(contains_text("Solver interrupted by user ...", "by user"));
    assert!(!contains_text("timeout", "by user"));
    assert!(contains_text("abc", ""));
    assert!(!contains_text("ab", "abc"));
}

#[test]
fn interrupted_and_long_solves_are_reported() {
    let mut b = DecisionFormatterBuilder::new();
    b.with_long_solves_threshold(10).with_time_and_stats(false);
    let settings = b.build().settings;
    let p = result_plan(&settings, &LoopOutcome::Interrupted("Solver interrupted by user ...".to_string()), 1, 0);
    assert_eq!(p.warning, Some(SentryWarning::SolverInterruptedByUser));
    assert!(p.stats_to_output);
    assert_eq!(strip_ansi(p.interruption.as_deref().unwrap()), "Solver interrupted by user ...");
    let p = result_plan(&settings, &LoopOutcome::Interrupted("Solve is taking far too long".to_string()), 1, 0);
    assert_eq!(p.warning, Some(SentryWarning::SolverInterruptedByTimeout));
    let p = result_plan(&settings, &LoopOutcome::Success, 10, 1);
    assert_eq!(p.warning, Some(SentryWarning::LongSolve));
    assert!(p.long_solve);
    let p = result_plan(&settings, &LoopOutcome::Success, 10, 0);
    assert_eq!(p.warning, None);
    let p = result_plan(&settings, &LoopOutcome::Failed(Error::String("x".to_string())), 100, 0);
    assert!(p.failure_details && !p.stats_to_output && !p.stats_to_stderr);

    let p = print_run_plan(5, true, true, &LoopOutcome::Success, 6, 0);
    assert!(p.long_solve && p.stats && p.show_solution && p.solve_details);
    assert_eq!(long_solve_warning(5), "Solve took longer than acceptable time (>5 secs) to finish");
}

#[test]
fn warnings_name_the_sorted_requests() {
    let requests = vec!["python/3".to_string(), "gcc/9".to_string(), "cmake".to_string()];
    assert_eq!(
        sort_texts(&requests),
        vec!["cmake".to_string(), "gcc/9".to_string(), "python/3".to_string()]
    );
    let r = warning_report_for(SentryWarning::LongSolve, 30, 2, 10, &"45.12".to_string(), &requests);
    assert_eq!(r.title, "Long solve (45.12 secs >30 secs): cmake gcc/9 python/3");
    assert_eq!(r.fingerprints[0], "Long solve ( >30 secs)");
    assert_eq!(r.fingerprints.len(), 4);
    let r = warning_report_for(SentryWarning::SolverInterruptedByTimeout, 30, 2, 10, &"21.00".to_string(), &requests);
    assert_eq!(
        r.title,
        "Solve interrupted by timeout after 21.00 secs (>20 secs) for: cmake gcc/9 python/3"
    );
    assert_eq!(long_solve_message(30, &requests), "Long solve (>30 secs): cmake gcc/9 python/3");
}

#[test]
fn solve_details_give_the_explain_command() {
    let requests = vec!["python/3".to_string()];
    let vars = vec![
        VarRequestText { var: "os".to_string(), value: Some("linux".to_string()) },
        VarRequestText { var: "debug".to_string(), value: None },
    ];
    let (details, cmd) = solve_details(&requests, &vars);
    assert_eq!(details, vec!["os: linux".to_string(), "debug: ".to_string()]);
    assert_eq!(cmd, "spk explain python/3 -o os=linux");
}

#[test]
fn status_bar_rows_line_up_the_columns() {
    let packages = vec![
        ShownPackage { name: "python".to_string(), version: "3.9.1".to_string(), build: "ABCD".to_string() },
        ShownPackage { name: "gcc".to_string(), version: "9".to_string(), build: "src".to_string() },
    ];
    let rows = status_rows(&packages);
    assert_eq!(rows[0], "python |gcc");
    assert_eq!(rows[1], "3.9.1  |9  ");
    assert_eq!(rows[2], "ABCD   |src");
    let layout = StatusLayout { cols: 10, rows: 24, height: 3 };
    assert_eq!(layout.status_row(0), 21);
    assert_eq!(layout.scroll_bottom(), 20);
    assert_eq!(layout.cursor_row(), 19);
    assert_eq!(layout.fit_message("0123456789abc"), "012345678");
    assert_eq!(layout.fit_message("short"), "short");
}

fn facts(name: &str, deprecated: bool, source: bool, embedded: bool, in_range: bool) -> BuildFacts {
    BuildFacts {
        name: name.to_string(),
        deprecated,
        source,
        embedded,
        in_request_range: in_range,
    }
}

#[test]
fn search_space_counts_builds_and_sizes_the_tree() {
    let builds = vec![
        facts("a", false, false, false, true),
        facts("a", true, false, false, true),
        facts("b", false, false, false, false),
        facts("b", false, true, false, true),
        facts("b", false, false, true, true),
        facts("a", false, false, false, true),
    ];
    assert_eq!(
        count_builds(&builds, BuildSet::All),
        vec![("a".to_string(), 3), ("b".to_string(), 3)]
    );
    assert_eq!(
        count_builds(&builds, BuildSet::Active),
        vec![("a".to_string(), 2), ("b".to_string(), 2)]
    );
    assert_eq!(
        count_builds(&builds, BuildSet::InRequestRange),
        vec![("a".to_string(), 2)]
    );
    let packages = vec!["a".to_string(), "b".to_string()];
    let lines = total_stats(&count_builds(&builds, BuildSet::All), &packages, 3);
    assert_eq!(
        lines,
        vec![
            "Calculation for the number of nodes in unconstrained decision tree: 1 +\n 1*3 a (so far: 4) +\n 3*3 b (so far: 13)".to_string(),
            "Total number of nodes in unconstrained decision tree: 13".to_string(),
            "Number of digits in that number: 2".to_string(),
            "Average branching factor (versions*builds): 3".to_string(),
            "Number of package builds: 6".to_string(),
        ]
    );
    let report = search_space_stats(&vec!["a".to_string()], &packages, &builds, 0);
    assert_eq!(report[0], "===== Search space stats for: 'a' =====");
    assert_eq!(report[1], " 2 levels in the decision tree");
}

#[test]
fn big_trees_use_grouped_digits() {
    let t = vec![("p".to_string(), 100000u64), ("q".to_string(), 100000u64), ("r".to_string(), 3u64)];
    let packages = vec!["p".to_string(), "q".to_string(), "r".to_string()];
    let lines = total_stats(&t, &packages, 2);
    assert_eq!(lines[0], "Total number of nodes in unconstrained decision tree: 40,000,100,001");
    assert_eq!(lines[1], "The full number of nodes is: 40000100001");
    assert_eq!(lines[2], "Number of digits in that number: 11");
    assert_eq!(lines[3], "Average branching factor (versions*builds): 66667");
}

#[test]
fn building_from_source_verdicts() {
    let ident = "a/1.0.0/src".to_string();
    let errs = "[]".to_string();
    match source_build_verdict(true, &ident, RecipeLookup::Found, &vec![], &errs) {
        CanBuildFromSource::No(m) => assert_eq!(m, "cycle detected while building a/1.0.0/src from source"),
        CanBuildFromSource::Yes => panic!("cycle"),
    }
    match source_build_verdict(false, &ident, RecipeLookup::Deprecated, &vec![], &errs) {
        CanBuildFromSource::No(m) => assert_eq!(m, "recipe for a/1.0.0/src is deprecated"),
        CanBuildFromSource::Yes => panic!("deprecated"),
    }
    let variants = vec![VariantOutcome::SolveFailed, VariantOutcome::Solved];
    assert!(matches!(
        source_build_verdict(false, &ident, RecipeLookup::Found, &variants, &errs),
        CanBuildFromSource::Yes
    ));
    let variants = vec![VariantOutcome::SolveFailed];
    match source_build_verdict(false, &ident, RecipeLookup::Found, &variants, &"[boom]".to_string()) {
        CanBuildFromSource::No(m) => assert_eq!(m, "failed to build from source: [boom]"),
        CanBuildFromSource::Yes => panic!("all failed"),
    }
    match source_build_verdict(false, &ident, RecipeLookup::NoRepository, &vec![], &errs) {
        CanBuildFromSource::No(m) => {
            assert_eq!(m, "package's repository is not in the list of repositories")
        }
        CanBuildFromSource::Yes => panic!("no repo"),
    }
}

#[test]
fn embedded_packages_need_their_provider() {
    let resolved = vec![
        ResolvedPackage { ident: "python/3.9.0/ABC".to_string(), embedded_by: None },
        ResolvedPackage {
            ident: "pip/20.0/embedded".to_string(),
            embedded_by: Some("python/3.9.0/ABC".to_string()),
        },
    ];
    assert!(missing_embed_provider(&resolved).is_none());
    let resolved = vec![ResolvedPackage {
        ident: "pip/20.0/embedded".to_string(),
        embedded_by: Some("python/3.9.0/ABC".to_string()),
    }];
    let m = missing_embed_provider(&resolved).expect("its provider is missing");
    assert_eq!(m.embedded, "pip/20.0/embedded");
    assert_eq!(m.provider, "python/3.9.0/ABC");
    match m.note() {
        Note::Other(t) => assert_eq!(
            t,
            "Embedded package pip/20.0/embedded missing its provider python/3.9.0/ABC"
        ),
        other => panic!("unexpected {other:?}"),
    }
}

#[test]
fn parent_components_that_bring_missing_embedded_components() {
    let parent = vec![
        ParentComponent {
            name: Component::Run,
            embedded: vec![EmbeddedPackage { name: "pip".to_string(), components: vec![Component::Run] }],
        },
        ParentComponent {
            name: Component::Build,
            embedded: vec![EmbeddedPackage {
                name: "pip".to_string(),
                components: vec![Component::Run, Component::Build],
            }],
        },
    ];
    let needed = vec![Component::Build];
    let existing = vec![Component::Run];
    let r = embedded_components_request(&parent, &"pip".to_string(), &needed, &existing)
        .expect("the build component provides it");
    assert_eq!(r.len(), 2);
    assert!(r[0].same_as(&Component::Run));
    assert!(r[1].same_as(&Component::Build));
    let needed = vec![Component::Named("docs".to_string())];
    assert!(embedded_components_request(&parent, &"pip".to_string(), &needed, &existing).is_none());
}

#[test]
fn conflicts_with_embedded_packages() {
    assert!(matches!(conflict_action("a".to_string(), false, None), ConflictAction::Reconsider(n) if n == "a"));
    assert!(matches!(conflict_action("a".to_string(), true, None), ConflictAction::ConflictingEmbedded(n) if n == "a"));
    match conflict_action("a".to_string(), true, Some("b".to_string())) {
        ConflictAction::AlreadyEmbedded { embedded, embedded_by } => {
            assert_eq!(embedded, "a");
            assert_eq!(embedded_by, "b");
        }
        other => panic!("unexpected {other:?}"),
    }
}

#[test]
fn source_builds_that_cannot_be_used_are_noted() {
    let checks = ImpossibleChecksSettings {
        check_initial_requests: false,
        check_before_resolving: false,
        use_in_build_keys: false,
    };
    let mut solver = Solver::new(vec![], checks);
    let mut notes = Vec::new();
    solver.skip_source_build(&mut notes, "a/1.0.0".to_string(), "a".to_string(), 1, SourceBuildCheck::Deprecated);
    assert_eq!(solver.get_number_of_builds_skipped(), 0);
    solver.skip_source_build(
        &mut notes,
        "a/1.0.0/src".to_string(),
        "a".to_string(),
        2,
        SourceBuildCheck::BuildFailed("no compiler".to_string()),
    );
    assert_eq!(solver.get_number_of_builds_skipped(), 1);
    match &notes[1] {
        Note::SkipPackageNote(n) => assert_eq!(n.reason, "cannot build package from source: no compiler"),
        other => panic!("unexpected {other:?}"),
    }
    match &notes[0] {
        Note::SkipPackageNote(n) => assert_eq!(n.reason, "cannot build from source, version is deprecated"),
        other => panic!("unexpected {other:?}"),
    }
}

#[test]
fn initial_request_checks() {
    assert!(initial_requests_verdict(&vec![InitialCheck::Possible]).is_ok());
    match initial_requests_verdict(&vec![InitialCheck::Impossible, InitialCheck::Possible, InitialCheck::Impossible]) {
        Err(Error::InitialRequestsContainImpossibleError(n)) => assert_eq!(n, 2),
        other => panic!("unexpected {other:?}"),
    }
    match initial_requests_verdict(&vec![
        InitialCheck::Impossible,
        InitialCheck::Failed("io".to_string()),
        InitialCheck::Failed("later".to_string()),
    ]) {
        Err(Error::String(m)) => assert_eq!(m, "io"),
        other => panic!("unexpected {other:?}"),
    }
}

#[test]
fn current_solution_verdicts() {
    assert_eq!(solution_verdict(false, true, true), SolutionVerdict::NotConsumed);
    assert_eq!(solution_verdict(true, true, true), SolutionVerdict::FailedToResolve);
    assert_eq!(solution_verdict(true, true, false), SolutionVerdict::Current);
    assert_eq!(solution_verdict(true, false, true), SolutionVerdict::Current);
}

#[test]
fn version_maps_record_the_holding_repositories() {
    let listings = vec![
        Listing { repo: "origin".to_string(), items: vec![1, 2] },
        Listing { repo: "local".to_string(), items: vec![2, 3] },
    ];
    let merged = merge_listings(&listings);
    assert_eq!(merged.len(), 3);
    assert_eq!(merged[1].item, 2);
    assert_eq!(merged[1].repos, vec!["origin".to_string(), "local".to_string()]);
    let map = build_version_map(&listings).expect("versions exist");
    assert_eq!(map[0].item, 2);
    assert_eq!(map[0].repos, vec!["local".to_string(), "origin".to_string()]);
    let empty = vec![Listing { repo: "origin".to_string(), items: vec![] }];
    assert!(build_version_map(&empty).is_none());
    assert_eq!(order_builds(&vec![(1, false), (2, true), (3, false), (4, true)]), vec![2, 4, 1, 3]);
}

#[test]
fn builds_with_impossible_requests() {
    let r = impossible_builds(&vec![
        BuildRequestsCheck::Possible,
        BuildRequestsCheck::Impossible,
        BuildRequestsCheck::Impossible,
    ]);
    assert_eq!(r.ok(), Some(vec![1, 2]));
    match impossible_builds(&vec![BuildRequestsCheck::Impossible, BuildRequestsCheck::Failed("task".to_string())]) {
        Err(Error::String(m)) => assert_eq!(m, "task"),
        other => panic!("unexpected {other:?}"),
    }
}

#[test]
fn loop_outcomes_from_errors() {
    assert!(matches!(loop_outcome_of(None), LoopOutcome::Success));
    assert!(matches!(
        loop_outcome_of(Some(Error::SolverInterrupted("stop".to_string()))),
        LoopOutcome::Interrupted(m) if m == "stop"
    ));
    assert!(matches!(
        loop_outcome_of(Some(Error::Other("bad".to_string()))),
        LoopOutcome::Failed(Error::Other(m)) if m == "bad"
    ));
}

#[test]
fn pause_menu_answers() {
    assert_eq!(menu_action(""), MenuAction::AskAgain);
    assert_eq!(menu_action("R\n"), MenuAction::ShowResolved);
    assert_eq!(menu_action("a"), MenuAction::ShowState);
    assert_eq!(menu_action("s"), MenuAction::ShowState);
    assert_eq!(menu_action("c"), MenuAction::RunToCompletion);
    assert_eq!(menu_action("?"), MenuAction::Help);
    assert_eq!(menu_action("x"), MenuAction::Continue);
    let listing = state_listing("Var Requests:", &vec!["os: linux".to_string(), "arch: ".to_string()], "Var Requests");
    assert_eq!(
        strip_ansi(&listing),
        "Var Requests:\n  os: linux\n  arch: \nNumber of Var Requests: 2"
    );
}

#[test]
fn build_changes_are_validated_in_order() {
    let validators = vec![Validator::MustInstallSomething, Validator::MustCollectAllFiles];
    assert!(changeset_verdict(&validators, &vec![None, None]).is_ok());
    assert_eq!(
        changeset_verdict(&validators, &vec![None, Some("files left behind".to_string())]),
        Err("MustCollectAllFiles: files left behind".to_string())
    );
}

#[test]
fn names_from_template_and_output_files() {
    assert_eq!(template_pkg_name("python/3.9.0"), "python");
    assert_eq!(template_pkg_name("python"), "python");
    assert_eq!(
        solver_output_file_name(&"spk_solver_run".to_string(), &"20240101_120000_000001".to_string(), MultiSolverKind::AllImpossibleChecks),
        "spk_solver_run_20240101_120000_000001_All-Impossible-Checks"
    );
    assert_eq!(
        solution_package_labels(&"python".to_string(), &"3.9.0".to_string(), &"ABCD".to_string()),
        vec!["package=python".to_string(), "version=3.9.0".to_string(), "build=ABCD".to_string()]
    );
}

#[test]
fn requests_for_other_components_keep_required_vars() {
    let options = vec![
        VarOptionFacts { var_base: "abi".to_string(), required: true, value: Some("cp39".to_string()) },
        VarOptionFacts { var_base: "debug".to_string(), required: false, value: Some("on".to_string()) },
        VarOptionFacts { var_base: "os".to_string(), required: true, value: None },
        VarOptionFacts { var_base: "abi".to_string(), required: true, value: Some("cp310".to_string()) },
    ];
    assert_eq!(
        propagated_required_vars(&"python".to_string(), &options),
        vec![("python.abi".to_string(), "cp310".to_string())]
    );
}

fn pair(a: &str, b: &str) -> (String, String) {
    (a.to_string(), b.to_string())
}

#[test]
fn new_build_options_add_only_what_is_missing() {
    let options = vec![pair("debug", "off"), pair("python", "3.9")];
    let pkgs = vec![pair("python", "3.10"), pair("gcc", "9.3")];
    let vars = vec![
        ("debug".to_string(), Some("on".to_string())),
        ("arch".to_string(), Some("x86_64".to_string())),
        ("os".to_string(), None),
        ("gcc".to_string(), Some("10".to_string())),
    ];
    assert_eq!(
        new_build_options(&options, &pkgs, &vars),
        vec![
            pair("debug", "off"),
            pair("python", "3.9"),
            pair("gcc", "9.3"),
            pair("arch", "x86_64"),
            pair("os", ""),
        ]
    );
}

#[test]
fn source_build_check_reads_and_tries_in_order() {
    let none: Vec<VariantOutcome> = vec![];
    assert_eq!(source_build_next(true, &None, 2, &none), SourceBuildNext::Decide);
    assert_eq!(source_build_next(false, &None, 2, &none), SourceBuildNext::ReadRecipe);
    assert_eq!(source_build_next(false, &Some(RecipeLookup::Deprecated), 2, &none), SourceBuildNext::Decide);
    let found = Some(RecipeLookup::Found);
    assert_eq!(source_build_next(false, &found, 2, &none), SourceBuildNext::TryVariant(0));
    let one_failed = vec![VariantOutcome::SolveFailed];
    assert_eq!(source_build_next(false, &found, 2, &one_failed), SourceBuildNext::TryVariant(1));
    let both_failed = vec![VariantOutcome::SolveFailed, VariantOutcome::SolveFailed];
    assert_eq!(source_build_next(false, &found, 2, &both_failed), SourceBuildNext::Decide);
    let solved = vec![VariantOutcome::Solved];
    assert_eq!(source_build_next(false, &found, 3, &solved), SourceBuildNext::Decide);
}
