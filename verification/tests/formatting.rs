use spk_solve::error::{Error, OutOfOptions};
use spk_solve::formatter::{
    user_interruption, DecisionFormatter, DecisionFormatterBuilder, FormattedDecisionsIter,
    MultiSolverKind, OutputKind, PauseStep, TooLongOutcome,
};
use spk_solve::graph_error;
use spk_solve::metrics::{metrics_command, MetricsClient, StatsdFormat};
use spk_solve::notes::{format_note, summarize_notes, Note, SkipPackageNote};

fn strip_ansi(s: &str) -> String {
    let mut out = String::new();
    let mut chars = s.chars().peekable();
    while let Some(c) = chars.next() {
        if c == '\u{1b}' {
            for d in chars.by_ref() {
                if d == 'm' {
                    break;
                }
            }
        } else {
            out.push(c);
        }
    }
    out
}

fn skip(pkg: &str, name: &str, reason: &str, class: u64) -> Note {
    Note::SkipPackageNote(SkipPackageNote {
        pkg: pkg.to_string(),
        pkg_name: name.to_string(),
        reason: reason.to_string(),
        reason_class: class,
    })
}

#[test]
fn notes_are_formatted_with_their_label() {
    assert_eq!(
        strip_ansi(&format_note(&skip("gcc/9.1", "gcc", "deprecated", 1))),
        "TRY gcc/9.1 - deprecated"
    );
    assert_eq!(strip_ansi(&format_note(&Note::Other("hello".to_string()))), "NOTE hello");
}

#[test]
fn notes_with_one_reason_are_summarized() {
    let same = vec![skip("a/1", "a", "too old", 3), skip("a/2", "a", "too old", 3)];
    assert_eq!(
        summarize_notes(&same).as_deref(),
        Some("All options for 'a' were skipped: too old")
    );
    let mixed = vec![skip("a/1", "a", "too old", 3), skip("a/2", "a", "too new", 4)];
    assert_eq!(summarize_notes(&mixed), None);
    assert_eq!(summarize_notes(&vec![]), None);
    let others = vec![Note::Other("x".to_string()), Note::Other("x".to_string())];
    assert_eq!(summarize_notes(&others).as_deref(), Some("All options were skipped: x"));
}

#[test]
fn solver_kinds_read_from_config() {
    assert_eq!(MultiSolverKind::from_config_run_value("CHECKS"), MultiSolverKind::AllImpossibleChecks);
    assert_eq!(MultiSolverKind::from_config_run_value("all"), MultiSolverKind::All);
    assert_eq!(MultiSolverKind::from_config_run_value("cli"), MultiSolverKind::Unchanged);
    assert_eq!(MultiSolverKind::from_config_run_value("bogus"), MultiSolverKind::Unchanged);
    assert_eq!(MultiSolverKind::from_config_output_value("Checks"), MultiSolverKind::AllImpossibleChecks);
    assert_eq!(MultiSolverKind::from_config_output_value("all"), MultiSolverKind::Unchanged);
    for k in [MultiSolverKind::Unchanged, MultiSolverKind::AllImpossibleChecks, MultiSolverKind::All] {
        assert_eq!(MultiSolverKind::from_config_run_value(k.cli_name()), k);
    }
    assert_eq!(MultiSolverKind::from_config_run_value("ALL"), MultiSolverKind::All);
    assert_eq!(MultiSolverKind::from_config_run_value("resolvo"), MultiSolverKind::Unchanged);
    assert!(MultiSolverKind::All.is_multi());
    assert!(!MultiSolverKind::Resolvo.is_multi());
    assert_eq!(MultiSolverKind::AllImpossibleChecks.to_text(), "All Impossible Checks");
}

#[test]
fn builder_works_out_the_timeouts() {
    let mut b = DecisionFormatterBuilder::new();
    b.with_verbosity_increase_every(10).with_timeout(25).with_verbosity(1);
    let f = b.build();
    assert_eq!(f.settings.too_long_seconds, 10);
    assert_eq!(f.settings.max_too_long_count, 3);
    assert!(f.settings.show_solution);

    let mut b = DecisionFormatterBuilder::new();
    b.with_verbosity_increase_every(60).with_timeout(30);
    let f = b.build();
    assert_eq!(f.settings.too_long_seconds, 30);
    assert_eq!(f.settings.max_too_long_count, 1);
    assert!(!f.settings.show_solution);

    let f = DecisionFormatterBuilder::new().build();
    assert_eq!(f.settings.too_long_seconds, 0);
    assert_eq!(f.settings.max_too_long_count, 0);
    assert_eq!(f.settings.max_verbosity_increase_level, u8::MAX);
    assert_eq!(f.settings.output_to_dir_min_verbosity, 2);
}

#[test]
fn testing_formatter_settings() {
    let f = DecisionFormatter::new_testing();
    assert_eq!(f.settings.verbosity, 3);
    assert_eq!(f.settings.too_long_seconds, 5);
    assert_eq!(f.settings.max_too_long_count, 1);
}

#[test]
fn taking_too_long_raises_verbosity_then_stops() {
    let mut b = DecisionFormatterBuilder::new();
    b.with_verbosity_increase_every(10).with_timeout(20).with_verbosity(0);
    let f = b.build();
    let mut it = FormattedDecisionsIter::new(&f.settings);
    assert!(matches!(it.check_if_taking_too_long(false), TooLongOutcome::NotYet));
    match it.check_if_taking_too_long(true) {
        TooLongOutcome::Increased(m) => {
            assert_eq!(m, "Solve is taking too long, > 10 secs. Increasing verbosity level to 1")
        }
        other => panic!("expected more verbosity, got {other:?}"),
    }
    assert_eq!(it.verbosity, 1);
    match it.check_if_taking_too_long(true) {
        TooLongOutcome::Interrupted(m) => assert_eq!(
            m,
            "Solve is taking far too long, > 20 secs.\nStopping. Please review the problems hit so far ..."
        ),
        other => panic!("expected a stop, got {other:?}"),
    }
}

#[test]
fn pauses_follow_the_blocked_flags() {
    let mut b = DecisionFormatterBuilder::new();
    b.with_step_on_decision(true);
    let f = b.build();
    let mut it = FormattedDecisionsIter::new(&f.settings);
    let steps = it.before_next_decision(true);
    assert_eq!(steps.len(), 1);
    assert!(matches!(&steps[0], PauseStep::Menu(m) if m == "Pausing after decision."));
    assert!(it.before_next_decision(false).is_empty());

    it.step_because_blocked = true;
    it.stop_because_blocked = true;
    let steps = it.before_next_decision(true);
    assert_eq!(steps.len(), 3);
    assert!(matches!(&steps[0], PauseStep::Menu(m) if m == "Paused at BLOCKED state."));
    assert!(matches!(&steps[1], PauseStep::Menu(m) if m == "Hit at BLOCKED state. Stopping after menu."));
    assert!(matches!(&steps[2], PauseStep::Interrupt(m) if m == "At BLOCKED state with --stop-on-block enabled. Stopping."));
    assert!(!it.step_because_blocked);
}

#[test]
fn ctrl_c_interrupts_the_solve() {
    assert!(user_interruption(false).is_ok());
    match user_interruption(true) {
        Err(Error::SolverInterrupted(m)) => assert_eq!(m, "Solver interrupted by user ..."),
        other => panic!("expected an interruption, got {other:?}"),
    }
}

#[test]
fn output_kinds_combine() {
    assert!(matches!(OutputKind::Println.with_file(), OutputKind::PrintlnAndToFile));
    assert!(OutputKind::LogFile.has_file());
    assert!(!OutputKind::Tracing.has_file());
}

#[test]
fn errors_are_reported_with_a_hint() {
    let e = Error::OutOfOptions(OutOfOptions { request: "gcc/9".to_string(), notes: vec![] });
    assert_eq!(e.to_text(), "Out of options for gcc/9");
    assert_eq!(
        strip_ansi(&e.format_error(0)),
        "Failed to resolve\n * out of options\n * try '--verbose/-v' for more info"
    );
    assert_eq!(
        strip_ansi(&e.format_error(2)),
        "Failed to resolve\n * out of options\n * try '-vvv' for even more info"
    );
    assert_eq!(e.format_error(3), "Failed to resolve\n * out of options");
    let e = Error::InitialRequestsContainImpossibleError(2);
    assert_eq!(e.to_text(), "Initial requests contain 2 impossible requests.");
    let e = Error::InitialRequestsContainImpossibleError(1);
    assert_eq!(e.to_text(), "Initial requests contain 1 impossible request.");
    let g = graph_error::Error::PackageNotFoundDuringSolve {
        request: "x".to_string(),
        requesters: vec!["a".to_string(), "b".to_string()],
    };
    assert_eq!(
        g.format_error(3),
        "Failed to resolve\n * Package 'x' not found during the solve as required by: a, b.\n   Please check the package name's spelling"
    );
}

#[test]
fn statsd_formats_read_back() {
    assert_eq!(StatsdFormat::from_str("statsd").ok(), Some(StatsdFormat::Statsd));
    assert_eq!(
        StatsdFormat::from_str("statsd-exporter-librato").ok(),
        Some(StatsdFormat::Librato)
    );
    for f in [StatsdFormat::Statsd, StatsdFormat::Librato] {
        assert_eq!(StatsdFormat::from_str(&f.to_text()).ok(), Some(f));
    }
    match StatsdFormat::from_str("nope") {
        Err(Error::String(m)) => assert_eq!(
            m,
            "Unsupported statsd metric format: nope. Please specify SPK_STATSD_FORMAT as one of: statsd, statsd-exporter-librato"
        ),
        other => panic!("expected an error, got {other:?}"),
    }
}

#[test]
fn metric_names_carry_labels_in_librato_format() {
    let plain = MetricsClient::new("env".to_string(), "1.0".to_string(), StatsdFormat::Statsd);
    assert_eq!(plain.format_metric_name("spk.solver.run.count", None), "spk.solver.run.count");
    let librato = MetricsClient::new("env".to_string(), "1.0".to_string(), StatsdFormat::Librato);
    assert_eq!(
        librato.format_metric_name("spk.solver.run.count", None),
        "spk.solver.run.count#command=env,version=1.0"
    );
    let extra = vec!["package=python".to_string()];
    assert_eq!(
        librato.format_metric_name("spk.solution", Some(&extra)),
        "spk.solution#command=env,version=1.0,package=python"
    );
}

#[test]
fn metrics_command_names_the_spk_subcommand() {
    let args = vec!["/usr/bin/spk".to_string(), "explain".to_string(), "python".to_string()];
    assert_eq!(metrics_command(&args), "explain");
    let other = vec!["/usr/bin/python".to_string(), "x".to_string()];
    assert_eq!(metrics_command(&other), "");
}
