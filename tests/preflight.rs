use debrep::error::BuildError;
use debrep::preflight::{first_changelog_version, pre_flight, Decision, Inspected};
use debrep::record::BuildRecord;
use debrep::strategy::{parse_strategy, Strategy};

fn s(x: &str) -> String {
    x.to_string()
}

fn version(v: &str) -> Inspected {
    Inspected::Version(s(v))
}

fn vcs(b: &str, c: &str) -> Inspected {
    Inspected::Vcs { branch: s(b), commit: s(c) }
}

/// One run of the decision: the record text before, and the text after (None
/// when the tool is not run).
fn run(inspected: &Inspected, before: Option<&str>, force: bool) -> (bool, Option<String>) {
    let existing = before.and_then(BuildRecord::parse);
    match pre_flight(inspected, existing.as_ref(), force) {
        Decision::Skip => (false, before.map(|t| t.to_string())),
        Decision::Build { record } => (true, record.map(|r| r.render())),
    }
}

#[test]
fn changelog_same_version_skips() {
    let (built, after) = run(&version("1.0"), Some("changelog\n1.0"), false);
    assert!(!built);
    assert_eq!(after, Some(s("changelog\n1.0")));
}

#[test]
fn changelog_new_version_overwrites() {
    let (built, after) = run(&version("2.0"), Some("changelog\n1.0"), false);
    assert!(built);
    assert_eq!(after, Some(s("changelog\n2.0")));
}

#[test]
fn commit_seen_pair_skips() {
    let (built, _) = run(&vcs("main", "c1"), Some("commit\nmain c1"), false);
    assert!(!built);
    let (built, _) = run(&vcs("main", "c1"), Some("commit\ndev c0\nmain c1"), false);
    assert!(!built);
}

#[test]
fn commit_new_commit_appends() {
    let (built, after) = run(&vcs("main", "c2"), Some("commit\nmain c1"), false);
    assert!(built);
    assert_eq!(after, Some(s("commit\nmain c1\nmain c2")));
    let (built, after) = run(&vcs("dev", "c2"), Some("commit\nmain c1"), false);
    assert!(built);
    assert_eq!(after, Some(s("commit\nmain c1\ndev c2")));
}

#[test]
fn force_builds_and_updates_as_usual() {
    let (built, after) = run(&version("1.0"), Some("changelog\n1.0"), true);
    assert!(built);
    assert_eq!(after, Some(s("changelog\n1.0")));
    let (built, after) = run(&vcs("main", "c1"), Some("commit\nmain c1"), true);
    assert!(built);
    assert_eq!(after, Some(s("commit\nmain c1\nmain c1")));
    let (built, after) = run(&Inspected::Nothing, None, true);
    assert!(built);
    assert_eq!(after, None);
}

#[test]
fn example_first_changelog_build() {
    let (built, after) = run(&version("1.2.3"), None, false);
    assert!(built);
    assert_eq!(after, Some(s("changelog\n1.2.3")));
}

#[test]
fn example_second_changelog_run_skips() {
    let (built, after) = run(&version("1.2.3"), Some("changelog\n1.2.3"), false);
    assert!(!built);
    assert_eq!(after, Some(s("changelog\n1.2.3")));
}

#[test]
fn example_commit_runs() {
    let (built, after) = run(&vcs("main", "abcd"), None, false);
    assert!(built);
    assert_eq!(after, Some(s("commit\nmain abcd")));
    let (built, after) = run(&vcs("dev", "ef01"), after.as_deref(), false);
    assert!(built);
    assert_eq!(after, Some(s("commit\nmain abcd\ndev ef01")));
}

#[test]
fn unknown_strategy_is_refused() {
    let r = parse_strategy(&Some(s("magic")));
    assert_eq!(r, Err(BuildError::ConditionalRule { rule: s("magic") }));
}

#[test]
fn known_strategies() {
    assert_eq!(parse_strategy(&None), Ok(Strategy::Always));
    assert_eq!(parse_strategy(&Some(s("changelog"))), Ok(Strategy::Changelog));
    assert_eq!(parse_strategy(&Some(s("commit"))), Ok(Strategy::Commit));
}

#[test]
fn no_strategy_builds_without_record() {
    let (built, after) = run(&Inspected::Nothing, Some("changelog\n1.0"), false);
    assert!(built);
    assert_eq!(after, None);
}

#[test]
fn changelog_over_commit_record_rebuilds() {
    let (built, after) = run(&version("1.0"), Some("commit\nmain c1"), false);
    assert!(built);
    assert_eq!(after, Some(s("changelog\n1.0")));
}

#[test]
fn commit_over_changelog_record_starts_fresh() {
    let (built, after) = run(&vcs("main", "c1"), Some("changelog\n1.0"), false);
    assert!(built);
    assert_eq!(after, Some(s("commit\nmain c1")));
}

#[test]
fn first_version_is_taken() {
    let r = first_changelog_version(&s("foo"), vec![s("1.2"), s("1.1")]);
    assert_eq!(r, Ok(s("1.2")));
}

#[test]
fn empty_changelog_is_an_error() {
    let r = first_changelog_version(&s("foo"), vec![]);
    assert_eq!(r, Err(BuildError::NoChangelogVersion { package: s("foo") }));
}

#[test]
fn commit_written_record_then_skips() {
    let (built, after) = run(&vcs("dev", "ef01"), Some("commit\nmain abcd"), false);
    assert!(built);
    let (built, again) = run(&vcs("dev", "ef01"), after.as_deref(), false);
    assert!(!built);
    assert_eq!(again, after);
}
