use spk_solve::cdcl::{
    after_solve, merge_solved, solution_options, BuildKind, RetryDecision, SolveOutcome,
    SolvedComponent, SolvedOption, SolvedPackageOptions, SourceKind,
};
use spk_solve::component::{Component, SyntheticComponent};
use spk_solve::solvers::{CdclSolver, SolverImpl};
use spk_solve::step::{ImpossibleChecksSettings, PkgRequestSummary, Request, Solver};

#[test]
fn solved_run_is_done() {
    assert!(matches!(after_solve(SolveOutcome::Solved, 1, false), RetryDecision::Done));
}

#[test]
fn cancelled_run_is_retried_with_its_reason() {
    match after_solve(SolveOutcome::Cancelled(Some("new value".to_string())), 2, true) {
        RetryDecision::Retry(m) => assert_eq!(m, "Solver retry 2: \"new value\""),
        other => panic!("expected a retry, got {other:?}"),
    }
    match after_solve(SolveOutcome::Cancelled(None), 3, false) {
        RetryDecision::Retry(m) => assert_eq!(m, "Solver retry 3: \"unknown\""),
        other => panic!("expected a retry, got {other:?}"),
    }
}

#[test]
fn unsolvable_run_fails_unless_cancelled() {
    match after_solve(SolveOutcome::Unsolvable("conflict".to_string()), 1, false) {
        RetryDecision::Fail(m) => assert_eq!(m, "conflict"),
        other => panic!("expected a failure, got {other:?}"),
    }
    match after_solve(SolveOutcome::Unsolvable("conflict".to_string()), 4, true) {
        RetryDecision::Retry(m) => assert_eq!(m, "Solver retry 4"),
        other => panic!("expected a retry, got {other:?}"),
    }
}

fn solved(name: &str, component: SyntheticComponent, build: BuildKind, from_source: bool) -> SolvedComponent {
    SolvedComponent {
        name: name.to_string(),
        component,
        build,
        requires_build_from_source: from_source,
    }
}

#[test]
fn solved_components_merge_into_one_entry_per_package() {
    let input = vec![
        solved("python", SyntheticComponent::Base, BuildKind::BuildId, false),
        solved("python", SyntheticComponent::Actual(Component::Run), BuildKind::BuildId, false),
        solved("gcc", SyntheticComponent::Actual(Component::Build), BuildKind::Source, true),
        solved("python", SyntheticComponent::Actual(Component::Build), BuildKind::BuildId, false),
        solved("python", SyntheticComponent::Actual(Component::Run), BuildKind::BuildId, false),
        solved("stub", SyntheticComponent::Actual(Component::Run), BuildKind::Embedded, false),
        solved("src", SyntheticComponent::Actual(Component::Source), BuildKind::Source, false),
    ];
    let entries = merge_solved(&input);
    assert_eq!(entries.len(), 4);
    assert_eq!(entries[0].name, "python");
    assert_eq!(entries[0].components.len(), 2);
    assert!(entries[0].components[0].same_as(&Component::Run));
    assert!(entries[0].components[1].same_as(&Component::Build));
    assert_eq!(entries[0].source, SourceKind::Repository);
    assert_eq!(entries[0].first, 1);
    assert_eq!(entries[1].name, "gcc");
    assert_eq!(entries[1].source, SourceKind::BuildFromSource);
    assert_eq!(entries[2].source, SourceKind::Embedded);
    assert_eq!(entries[3].source, SourceKind::Repository);
}

#[test]
fn solving_all_leaves_only_all() {
    let input = vec![
        solved("a", SyntheticComponent::Actual(Component::Run), BuildKind::BuildId, false),
        solved("a", SyntheticComponent::Actual(Component::All), BuildKind::BuildId, false),
        solved("a", SyntheticComponent::Actual(Component::Build), BuildKind::BuildId, false),
    ];
    let entries = merge_solved(&input);
    assert_eq!(entries.len(), 1);
    assert_eq!(entries[0].components.len(), 2);
    let input = vec![
        solved("a", SyntheticComponent::Actual(Component::All), BuildKind::BuildId, false),
        solved("a", SyntheticComponent::Actual(Component::Build), BuildKind::BuildId, false),
        solved("a", SyntheticComponent::Actual(Component::All), BuildKind::BuildId, false),
    ];
    let entries = merge_solved(&input);
    assert_eq!(entries[0].components.len(), 1);
    assert!(entries[0].components[0].is_all());
}

#[test]
fn solution_options_take_the_last_setting() {
    let packages = vec![
        SolvedPackageOptions {
            name: "python".to_string(),
            rendered_version: "~3.9.0".to_string(),
            options: vec![
                SolvedOption::Pkg { pkg: "gcc".to_string(), value: Some("9".to_string()) },
                SolvedOption::Var { namespace: None, var: "abi".to_string(), value: Some("cp39".to_string()) },
                SolvedOption::Var { namespace: Some("os".to_string()), var: "os.arch".to_string(), value: Some("x86_64".to_string()) },
                SolvedOption::Var { namespace: None, var: "debug".to_string(), value: None },
            ],
        },
        SolvedPackageOptions {
            name: "gcc".to_string(),
            rendered_version: "~9.3".to_string(),
            options: vec![SolvedOption::Var {
                namespace: Some("os".to_string()),
                var: "os.arch".to_string(),
                value: Some("aarch64".to_string()),
            }],
        },
    ];
    let options = solution_options(&packages);
    let expected: Vec<(String, String)> = vec![
        ("python".to_string(), "~3.9.0".to_string()),
        ("python.gcc".to_string(), "9".to_string()),
        ("python.abi".to_string(), "cp39".to_string()),
        ("os.arch".to_string(), "aarch64".to_string()),
        ("gcc".to_string(), "~9.3".to_string()),
    ];
    assert_eq!(options, expected);
}

#[test]
fn cdcl_solver_requests_and_options() {
    let mut solver = CdclSolver::new(vec!["origin".to_string()]);
    assert!(solver.binary_only());
    solver.add_request(Request::Pkg(PkgRequestSummary {
        text: "python".to_string(),
        is_source: false,
        components: vec![],
    }));
    solver.add_request(Request::Var { var: "os".to_string(), value: "linux".to_string() });
    solver.update_options(vec![
        ("debug".to_string(), "on".to_string()),
        ("debug".to_string(), "off".to_string()),
    ]);
    let pkgs = solver.get_pkg_requests();
    assert_eq!(pkgs.len(), 1);
    assert_eq!(pkgs[0].text, "python");
    assert!(pkgs[0].components[0].same_as(&Component::Run));
    assert_eq!(solver.get_var_requests(), vec![("os".to_string(), "linux".to_string())]);
    assert_eq!(solver.get_options(), &vec![("debug".to_string(), "off".to_string())]);
    solver.set_binary_only(false);
    solver.reset();
    assert!(solver.repositories().is_empty());
    assert!(solver.get_pkg_requests().is_empty());
    assert!(!solver.binary_only());
    assert_eq!(solver.get_options().len(), 1);
}

#[test]
fn solver_impl_forwards_to_its_solver() {
    let mut s = SolverImpl::Cdcl(CdclSolver::new(vec![]));
    s.add_repository("origin".to_string());
    s.set_binary_only(false);
    match &s {
        SolverImpl::Cdcl(c) => {
            assert_eq!(c.repositories(), &vec!["origin".to_string()]);
            assert!(!c.binary_only());
        }
        SolverImpl::Og(_) => panic!("kept its kind"),
    }
    let checks = ImpossibleChecksSettings {
        check_initial_requests: false,
        check_before_resolving: false,
        use_in_build_keys: false,
    };
    let mut s = SolverImpl::Og(Solver::new(vec![], checks));
    s.add_repository("origin".to_string());
    s.set_binary_only(true);
    match &s {
        SolverImpl::Og(o) => {
            assert_eq!(o.repositories(), &vec!["origin".to_string()]);
            assert_eq!(o.validators().len(), 1);
        }
        SolverImpl::Cdcl(_) => panic!("kept its kind"),
    }
}
