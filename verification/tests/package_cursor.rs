use spk_solve::package_iter::{
    build_outcome, versions_newest_first, BuildOutcome, CursorStep, Holders, SpecRead, VersionCursor,
};

fn table(items: &[u64]) -> Vec<Holders> {
    items
        .iter()
        .map(|i| Holders { item: *i, repos: vec!["origin".to_string()] })
        .collect()
}

#[test]
fn versions_come_newest_first() {
    assert_eq!(versions_newest_first(&table(&[2, 7, 1, 5])), vec![7, 5, 2, 1]);
    assert_eq!(versions_newest_first(&table(&[])), Vec::<u64>::new());
}

#[test]
fn cursor_asks_for_versions_before_anything() {
    let mut c = VersionCursor::new();
    assert_eq!(c.next_step(&vec![]), CursorStep::Start);
    assert_eq!(c.next_step(&vec![]), CursorStep::Start);
}

#[test]
fn cursor_reads_builds_then_hands_out_the_version() {
    let mut c = VersionCursor::new();
    c.start(&table(&[1, 3, 2]));
    assert_eq!(c.next_step(&vec![]), CursorStep::ReadBuilds(3));
    c.set_builds(3);
    assert_eq!(c.next_step(&vec![3]), CursorStep::Yield(3));
    // the builds of 3 are used up: the cursor moves to the next version
    assert_eq!(c.next_step(&vec![]), CursorStep::ReadBuilds(2));
    c.set_builds(2);
    assert_eq!(c.next_step(&vec![]), CursorStep::ReadBuilds(1));
    c.set_builds(1);
    assert_eq!(c.next_step(&vec![1]), CursorStep::Yield(1));
    assert_eq!(c.next_step(&vec![]), CursorStep::Exhausted);
    assert_eq!(c.next_step(&vec![]), CursorStep::Exhausted);
}

#[test]
fn cursor_passes_over_versions_whose_spec_cannot_be_read() {
    let mut c = VersionCursor::new();
    c.start(&table(&[4, 9]));
    assert_eq!(c.next_step(&vec![]), CursorStep::ReadBuilds(9));
    c.skip_version();
    assert_eq!(c.next_step(&vec![]), CursorStep::ReadBuilds(4));
}

#[test]
fn cursor_uses_builds_set_ahead_of_time() {
    let mut c = VersionCursor::new();
    c.start(&table(&[4, 9]));
    c.set_builds(4);
    c.set_builds(9);
    assert_eq!(c.next_step(&vec![4]), CursorStep::Yield(4));
    assert_eq!(c.next_step(&vec![]), CursorStep::Exhausted);
}

#[test]
fn forked_cursor_goes_on_after_the_current_version_without_builds() {
    let mut c = VersionCursor::new();
    c.start(&table(&[4, 9, 6]));
    assert_eq!(c.next_step(&vec![]), CursorStep::ReadBuilds(9));
    c.set_builds(9);
    assert_eq!(c.next_step(&vec![9]), CursorStep::Yield(9));
    let mut f = c.fork();
    assert_eq!(f.next_step(&vec![]), CursorStep::ReadBuilds(6));
    assert_eq!(c.next_step(&vec![9]), CursorStep::Yield(9));
    let mut fresh = VersionCursor::new().fork();
    assert_eq!(fresh.next_step(&vec![]), CursorStep::Start);
}

#[test]
fn build_is_offered_from_every_repository_with_its_spec() {
    let reads = vec![("origin".to_string(), SpecRead::Found), ("local".to_string(), SpecRead::Found)];
    match build_outcome(&reads) {
        BuildOutcome::Offer(names) => assert_eq!(names, vec!["origin".to_string(), "local".to_string()]),
        BuildOutcome::PassOver => panic!("expected the build to be offered"),
    }
}

#[test]
fn build_with_a_missing_or_corrupt_spec_is_passed_over() {
    let missing = vec![("origin".to_string(), SpecRead::Found), ("local".to_string(), SpecRead::Missing)];
    assert!(matches!(build_outcome(&missing), BuildOutcome::PassOver));
    let corrupt = vec![("origin".to_string(), SpecRead::Corrupt)];
    assert!(matches!(build_outcome(&corrupt), BuildOutcome::PassOver));
    assert!(matches!(build_outcome(&vec![]), BuildOutcome::Offer(n) if n.is_empty()));
}
