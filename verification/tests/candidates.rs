use spk_solve::candidates::{
    classify_candidates, filter_candidates, BinaryBuildChecks, BuildCandidate, CandidateCheck,
    CandidateRequest, PackageCheck, PkgRequestFacts, RequestedBuild, Solvable,
};
use spk_solve::component::{Component, SyntheticComponent};
use spk_solve::ordering::{sort_solvables, SortRecord};

fn build(applicable: bool, is_source: bool, from_source: bool, component: SyntheticComponent) -> Solvable {
    Solvable::Build(BuildCandidate {
        version_applicable: applicable,
        is_source,
        requires_build_from_source: from_source,
        component,
    })
}

fn run_request() -> CandidateRequest {
    CandidateRequest::Pkg(PkgRequestFacts {
        build: RequestedBuild::Unspecified,
        components: vec![Component::Run],
    })
}

#[test]
fn filter_selects_matching_builds_in_order() {
    let candidates = vec![
        build(true, false, false, SyntheticComponent::Actual(Component::Run)),
        build(false, false, false, SyntheticComponent::Actual(Component::Run)),
        build(true, false, false, SyntheticComponent::Actual(Component::Run)),
        build(true, true, false, SyntheticComponent::Actual(Component::Source)),
        build(true, false, true, SyntheticComponent::Actual(Component::Run)),
    ];
    let checks = vec![
        PackageCheck::Satisfied,
        PackageCheck::Satisfied,
        PackageCheck::NotSatisfied,
        PackageCheck::Satisfied,
        PackageCheck::ReadFailed,
    ];
    assert_eq!(filter_candidates(&run_request(), &candidates, &checks, false), vec![0, 4]);
    assert_eq!(filter_candidates(&run_request(), &candidates, &checks, true), vec![1, 3]);
}

#[test]
fn source_builds_match_only_source_requests() {
    let candidates = vec![build(true, true, false, SyntheticComponent::Actual(Component::Source))];
    let checks = vec![PackageCheck::Satisfied];
    let src = CandidateRequest::Pkg(PkgRequestFacts {
        build: RequestedBuild::Source,
        components: vec![Component::Source],
    });
    assert_eq!(filter_candidates(&src, &candidates, &checks, false), vec![0]);
    assert!(filter_candidates(&run_request(), &candidates, &checks, false).is_empty());
}

#[test]
fn global_var_requests_select_their_value() {
    let candidates = vec![
        Solvable::GlobalVar { key: "os".to_string(), value: "linux".to_string() },
        Solvable::GlobalVar { key: "os".to_string(), value: "darwin".to_string() },
        build(true, false, false, SyntheticComponent::Base),
    ];
    let checks = vec![PackageCheck::Satisfied; 3];
    let req = CandidateRequest::GlobalVar { key: "os".to_string(), value: "linux".to_string() };
    assert_eq!(filter_candidates(&req, &candidates, &checks, false), vec![0]);
    assert_eq!(filter_candidates(&req, &candidates, &checks, true), vec![1, 2]);
}

#[test]
fn candidate_checks_give_offers_and_exclusions() {
    let checks = vec![
        CandidateCheck::FromSource(Ok(())),
        CandidateCheck::FromSource(Err("recipe for a/1.0.0/src is deprecated".to_string())),
        CandidateCheck::Binary(Err("failed to read".to_string())),
        CandidateCheck::Binary(Ok(BinaryBuildChecks {
            version_mismatch: Some("wrong version".to_string()),
            option_mismatches: vec![],
        })),
        CandidateCheck::Binary(Ok(BinaryBuildChecks {
            version_mismatch: None,
            option_mismatches: vec![("gcc".to_string(), "9 != 10".to_string())],
        })),
    ];
    let c = classify_candidates(&checks);
    assert_eq!(c.candidates, vec![0, 4]);
    assert_eq!(
        c.excluded,
        vec![
            (1, "recipe for a/1.0.0/src is deprecated".to_string()),
            (2, "failed to read".to_string()),
            (3, "build version does not satisfy global var request: wrong version".to_string()),
            (4, "build option gcc does not satisfy global var request: 9 != 10".to_string()),
        ]
    );
}

fn global_var(key: &str, value: &str) -> SortRecord {
    SortRecord::GlobalVar { key: key.to_string(), value: value.to_string() }
}

#[test]
fn equal_candidates_keep_their_order() {
    let records = vec![
        global_var("b", "1"),
        global_var("a", "1"),
        global_var("b", "1"),
        global_var("a", "0"),
        global_var("a", "1"),
    ];
    assert_eq!(sort_solvables(&records), vec![3, 1, 4, 0, 2]);
}
