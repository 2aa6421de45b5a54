use spk_solve::component::Component;
use spk_solve::frequency::ErrorDetails;
use spk_solve::history::SolverHistory;
use spk_solve::notes::{Note, SkipPackageNote};
use spk_solve::step::{
    ImpossibleChecksSettings, PkgRequestSummary, Request, Requester, RequesterKind, Solver,
    SolverValidator, StepFailure, StepResponse, InitialChange,
};
use spk_solve::config::SolverConfig;
use spk_solve::step_state::{CandidateVerdict, StepAction, StepEvent, StepSearch};
use spk_solve::error::Error;

fn no_checks() -> ImpossibleChecksSettings {
    ImpossibleChecksSettings {
        check_initial_requests: false,
        check_before_resolving: false,
        use_in_build_keys: false,
    }
}

fn new_solver() -> Solver {
    Solver::new(vec![SolverValidator::Named("deprecation".to_string())], no_checks())
}

fn find_error<'a>(
    errors: &'a Vec<(String, spk_solve::frequency::ErrorFreq)>,
    key: &str,
) -> Option<&'a spk_solve::frequency::ErrorFreq> {
    errors.iter().find(|(k, _)| k == key).map(|(_, f)| f)
}

#[test]
fn test_error_frequency() {
    let mut solver = new_solver();
    assert!(solver.error_frequency().is_empty());

    let an_error = "An error".to_string();
    solver.increment_error_count(ErrorDetails::Message(an_error.clone()));
    assert_eq!(solver.error_frequency().len(), 1);

    solver.increment_error_count(ErrorDetails::Message(an_error.clone()));
    assert_eq!(solver.error_frequency().len(), 1);
    let freq = find_error(solver.error_frequency(), &an_error).expect("the error is counted");
    assert_eq!(freq.counter, 2);
}

#[test]
fn test_error_frequency_get_message_for_string_error() {
    let mut solver = new_solver();
    let an_error = "An error".to_string();
    solver.increment_error_count(ErrorDetails::Message(an_error.clone()));
    let freq = find_error(solver.error_frequency(), &an_error).expect("the error is counted");
    assert_eq!(freq.get_message(an_error.clone()), an_error);
}

#[test]
fn test_error_frequency_get_message_for_couldnotsatisfy_error() {
    let mut solver = new_solver();
    let key = "my-pkg".to_string();
    solver.increment_error_count(ErrorDetails::CouldNotSatisfy(
        key.clone(),
        vec!["command line".to_string()],
    ));
    let freq = find_error(solver.error_frequency(), &key).expect("the error is counted");
    let message = freq.get_message(key.clone());
    assert_ne!(message, key);
    assert_eq!(message, "could not satisfy 'my-pkg' as required by: command line");
}

#[test]
fn test_error_frequency_get_message_for_couldnotsatisfy_error_multiple() {
    let mut solver = new_solver();
    let key = "my-pkg".to_string();
    solver.increment_error_count(ErrorDetails::CouldNotSatisfy(
        key.clone(),
        vec!["command line".to_string()],
    ));
    solver.increment_error_count(ErrorDetails::CouldNotSatisfy(
        key.clone(),
        vec!["spk's test suite".to_string()],
    ));
    let freq = find_error(solver.error_frequency(), &key).expect("the error is counted");
    assert_eq!(freq.counter, 2);
    assert_eq!(
        freq.get_message(key.clone()),
        "could not satisfy 'my-pkg' as required by: command line and 1 other"
    );
}

#[test]
fn test_problem_packages() {
    let mut solver = new_solver();
    assert!(solver.problem_packages().is_empty());
    let a_package = "package".to_string();
    solver.increment_problem_package_count(a_package.clone());
    assert_eq!(solver.problem_packages().len(), 1);
    solver.increment_problem_package_count(a_package.clone());
    assert_eq!(solver.problem_packages().len(), 1);
    assert_eq!(solver.problem_packages()[0], (a_package, 2));
}

#[test]
fn test_request_default_component() {
    let mut solver = new_solver();
    solver.add_request(Request::Pkg(PkgRequestSummary {
        text: "python/3.7.3".to_string(),
        is_source: false,
        components: vec![],
    }));
    match &solver.initial_changes()[0] {
        InitialChange::RequestPackage(r) => {
            assert_eq!(r.components.len(), 1);
            assert!(r.components[0].same_as(&Component::default_for_run()));
        }
        other => panic!("expected a package request, got {other:?}"),
    }
}

#[test]
fn source_request_defaults_to_source_component() {
    let mut solver = new_solver();
    solver.add_request(Request::Pkg(PkgRequestSummary {
        text: "python/3.7.3/src".to_string(),
        is_source: true,
        components: vec![],
    }));
    match &solver.initial_changes()[0] {
        InitialChange::RequestPackage(r) => {
            assert_eq!(r.components.len(), 1);
            assert!(r.components[0].same_as(&Component::Source));
        }
        other => panic!("expected a package request, got {other:?}"),
    }
}

#[test]
fn binary_only_switch_adds_and_removes_the_validator() {
    let mut solver = new_solver();
    solver.set_binary_only(true);
    assert!(matches!(solver.validators()[0], SolverValidator::BinaryOnly));
    assert_eq!(solver.validators().len(), 2);
    solver.set_binary_only(true);
    assert_eq!(solver.validators().len(), 2);
    solver.set_binary_only(false);
    assert_eq!(solver.validators().len(), 1);
    assert!(!solver
        .validators()
        .iter()
        .any(|v| matches!(v, SolverValidator::BinaryOnly)));
}

#[test]
fn reset_clears_requests_and_counters() {
    let mut solver = new_solver();
    solver.add_repository("origin".to_string());
    solver.record_step();
    solver.record_build_considered();
    solver.record_incompatible_version(3);
    solver.increment_problem_package_count("pkg".to_string());
    solver.set_binary_only(true);
    solver.reset();
    assert!(solver.repositories().is_empty());
    assert_eq!(solver.get_number_of_steps(), 0);
    assert_eq!(solver.get_total_builds(), 0);
    assert_eq!(solver.get_number_of_incompatible_versions(), 0);
    assert_eq!(solver.get_number_of_incompatible_builds(), 0);
    assert!(solver.problem_packages().is_empty());
    assert_eq!(solver.validators().len(), 1);
}

#[test]
fn counters_count_each_event() {
    let mut solver = new_solver();
    solver.record_step();
    solver.record_step();
    solver.record_incompatible_version(4);
    solver.record_build_considered();
    solver.record_step_back();
    let mut notes = Vec::new();
    solver.skip_build(
        &mut notes,
        SkipPackageNote {
            pkg: "pkg/1.0.0/ABC".to_string(),
            pkg_name: "pkg".to_string(),
            reason: "incompatible".to_string(),
            reason_class: 1,
        },
    );
    assert_eq!(solver.get_number_of_steps(), 2);
    assert_eq!(solver.get_number_of_incompatible_versions(), 1);
    assert_eq!(solver.get_number_of_incompatible_builds(), 4);
    assert_eq!(solver.get_total_builds(), 1);
    assert_eq!(solver.get_number_of_steps_back(), 1);
    assert_eq!(solver.get_number_of_builds_skipped(), 1);
    assert_eq!(notes.len(), 1);
}

#[test]
fn impossible_checks_follow_the_config() {
    let cfg = SolverConfig {
        too_long_seconds: 30,
        verbosity_increase_limit: 5,
        solve_timeout: 300,
        long_solve_threshold: 15,
        max_frequent_errors: 5,
        solver_to_run: "cli".to_string(),
        solver_to_show: "cli".to_string(),
        check_impossible_initial: true,
        check_impossible_validation: false,
        check_impossible_builds: true,
    };
    let settings = ImpossibleChecksSettings::from_config(Some(&cfg));
    assert!(settings.check_initial_requests);
    assert!(!settings.check_before_resolving);
    assert!(settings.use_in_build_keys);
    let none = ImpossibleChecksSettings::from_config(None);
    assert!(!none.check_initial_requests && !none.check_before_resolving && !none.use_in_build_keys);
    let mut solver = Solver::new(vec![], none);
    assert!(!solver.any_impossible_checks_enabled());
    solver.set_build_key_impossible_checks(true);
    assert!(solver.any_impossible_checks_enabled());
}

fn requester(kind: RequesterKind, text: &str) -> Requester {
    Requester { kind, text: text.to_string() }
}

#[test]
fn out_of_options_steps_back_to_the_oldest_fork() {
    let mut solver = new_solver();
    let mut history = SolverHistory::new();
    history.push(7, 3);
    history.push(9, 1);
    let failure = StepFailure::OutOfOptions {
        request: "gcc/9".to_string(),
        requesters: vec![
            requester(RequesterKind::PackageBuild("python".to_string()), "python/3.9.0/XYZ"),
            requester(RequesterKind::CommandLine, "command line"),
        ],
        notes: vec![
            Note::SkipPackageNote(SkipPackageNote {
                pkg: "gcc/9.1".to_string(),
                pkg_name: "gcc".to_string(),
                reason: "deprecated".to_string(),
                reason_class: 4,
            }),
            Note::SkipPackageNote(SkipPackageNote {
                pkg: "gcc/9.2".to_string(),
                pkg_name: "gcc".to_string(),
                reason: "deprecated".to_string(),
                reason_class: 4,
            }),
        ],
    };
    match solver.respond_to_failure(&mut history, failure) {
        StepResponse::StepBack { cause, destination, summary } => {
            assert_eq!(
                cause,
                "could not satisfy 'gcc/9' as required by: python/3.9.0/XYZ, command line"
            );
            assert_eq!(destination, Some(9));
            assert_eq!(
                summary.as_deref(),
                Some("All options for 'gcc' were skipped: deprecated")
            );
        }
        StepResponse::Fail => panic!("expected a step back"),
    }
    assert_eq!(solver.problem_packages().len(), 1);
    assert_eq!(solver.problem_packages()[0], ("python".to_string(), 1));
    assert_eq!(solver.error_frequency().len(), 1);
    assert_eq!(solver.error_frequency()[0].0, "gcc/9");
}

#[test]
fn package_not_found_from_the_command_line_fails() {
    let mut solver = new_solver();
    let mut history = SolverHistory::new();
    let failure = StepFailure::PackageNotFound {
        request: "nothere".to_string(),
        requesters: vec![requester(RequesterKind::CommandLine, "command line")],
    };
    assert!(matches!(
        solver.respond_to_failure(&mut history, failure),
        StepResponse::Fail
    ));
}

#[test]
fn package_not_found_from_a_build_steps_back() {
    let mut solver = new_solver();
    let mut history = SolverHistory::new();
    let failure = StepFailure::PackageNotFound {
        request: "nothere".to_string(),
        requesters: vec![requester(RequesterKind::PackageBuild("a".to_string()), "a/1.0.0/ABC")],
    };
    match solver.respond_to_failure(&mut history, failure) {
        StepResponse::StepBack { cause, destination, summary } => {
            assert_eq!(
                cause,
                "Package 'nothere' not found during the solve as required by: a/1.0.0/ABC. Please check the spelling of the package's name"
            );
            assert_eq!(destination, None);
            assert!(summary.is_none());
        }
        StepResponse::Fail => panic!("expected a step back"),
    }
    assert_eq!(solver.problem_packages()[0], ("a".to_string(), 1));
}

#[test]
fn other_failures_are_recorded_and_fail() {
    let mut solver = new_solver();
    let mut history = SolverHistory::new();
    history.push(1, 1);
    assert!(matches!(
        solver.respond_to_failure(&mut history, StepFailure::Other("boom".to_string())),
        StepResponse::Fail
    ));
    assert_eq!(solver.error_frequency()[0].0, "boom");
    assert_eq!(history.take_oldest(), Some(1));
}

#[test]
fn history_gives_the_oldest_fork_first() {
    let mut history = SolverHistory::new();
    history.push(10, 5);
    history.push(11, 2);
    history.push(12, 8);
    assert_eq!(history.take_oldest(), Some(11));
    assert_eq!(history.take_oldest(), Some(10));
    assert_eq!(history.take_oldest(), Some(12));
    assert_eq!(history.take_oldest(), None);
}

#[test]
fn failed_branch_steps_back_with_its_error() {
    let mut solver = new_solver();
    let mut history = SolverHistory::new();
    history.push(3, 2);
    match solver.respond_to_failure(&mut history, StepFailure::BranchFailed("graph error".to_string())) {
        StepResponse::StepBack { cause, destination, summary } => {
            assert_eq!(cause, "graph error");
            assert_eq!(destination, Some(3));
            assert!(summary.is_none());
        }
        StepResponse::Fail => panic!("expected a step back"),
    }
    assert!(solver.error_frequency().is_empty());
}

fn skip_note(pkg: &str, reason: &str) -> SkipPackageNote {
    SkipPackageNote {
        pkg: pkg.to_string(),
        pkg_name: pkg.split('/').next().unwrap_or("").to_string(),
        reason: reason.to_string(),
        reason_class: 1,
    }
}

#[test]
fn step_search_counts_and_decides_on_the_first_chosen_build() {
    let mut solver = new_solver();
    let (mut search, action) = StepSearch::begin(&mut solver, "my-pkg".to_string());
    assert!(matches!(action, StepAction::NextVersion));
    assert_eq!(solver.get_number_of_steps(), 1);

    let a = search.advance(
        &mut solver,
        StepEvent::Version { applicable: false, builds: 3, note: skip_note("my-pkg/2.0.0", "out of range") },
    );
    assert!(matches!(a, StepAction::NextVersion));
    assert_eq!(solver.get_number_of_incompatible_versions(), 1);
    assert_eq!(solver.get_number_of_incompatible_builds(), 3);

    let a = search.advance(
        &mut solver,
        StepEvent::Version { applicable: true, builds: 2, note: skip_note("my-pkg/1.0.0", "") },
    );
    assert!(matches!(a, StepAction::NextBuild));
    assert!(matches!(search.advance(&mut solver, StepEvent::Build), StepAction::NextCandidate));
    assert_eq!(solver.get_total_builds(), 1);
    let a = search.advance(
        &mut solver,
        StepEvent::Candidate(CandidateVerdict::PassedOver {
            note: skip_note("my-pkg/1.0.0/AAA", "incompatible"),
            counted: true,
        }),
    );
    assert!(matches!(a, StepAction::NextCandidate));
    assert_eq!(solver.get_number_of_builds_skipped(), 1);
    assert!(matches!(search.advance(&mut solver, StepEvent::NoMoreCandidates), StepAction::NextBuild));
    assert!(matches!(search.advance(&mut solver, StepEvent::Build), StepAction::NextCandidate));
    match search.advance(&mut solver, StepEvent::Candidate(CandidateVerdict::Chosen)) {
        StepAction::Decide(notes) => assert_eq!(notes.len(), 2),
        other => panic!("expected a decision, got {:?}", other),
    }
    assert_eq!(solver.get_number_of_steps(), 1);
    assert_eq!(solver.get_total_builds(), 2);
}

#[test]
fn step_search_runs_out_of_options_with_its_notes() {
    let mut solver = new_solver();
    let (mut search, _) = StepSearch::begin(&mut solver, "my-pkg/1.0".to_string());
    let a = search.advance(
        &mut solver,
        StepEvent::Version { applicable: true, builds: 1, note: skip_note("my-pkg/1.0.0", "") },
    );
    assert!(matches!(a, StepAction::NextBuild));
    assert!(matches!(search.advance(&mut solver, StepEvent::Build), StepAction::NextCandidate));
    let a = search.advance(
        &mut solver,
        StepEvent::Candidate(CandidateVerdict::PassedOver {
            note: skip_note("my-pkg/1.0.0/src", "recipe not available"),
            counted: false,
        }),
    );
    assert!(matches!(a, StepAction::NextCandidate));
    assert_eq!(solver.get_number_of_builds_skipped(), 0);
    assert!(matches!(search.advance(&mut solver, StepEvent::NoMoreCandidates), StepAction::NextBuild));
    assert!(matches!(search.advance(&mut solver, StepEvent::NoMoreBuilds), StepAction::NextVersion));
    match search.advance(&mut solver, StepEvent::NoMoreVersions) {
        StepAction::Fail(Error::OutOfOptions(o)) => {
            assert_eq!(o.request, "my-pkg/1.0");
            assert_eq!(o.notes.len(), 1);
            assert!(matches!(&o.notes[0], Note::SkipPackageNote(n) if n.reason == "recipe not available"));
        }
        other => panic!("expected out of options, got {:?}", other),
    }
}
