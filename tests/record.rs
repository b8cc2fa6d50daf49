use debrep::record::BuildRecord;

fn s(x: &str) -> String {
    x.to_string()
}

#[test]
fn parse_changelog_record() {
    assert_eq!(
        BuildRecord::parse("changelog\n1.2.3"),
        Some(BuildRecord::Changelog { version: s("1.2.3") })
    );
    assert_eq!(
        BuildRecord::parse("changelog\n1.2.3\n"),
        Some(BuildRecord::Changelog { version: s("1.2.3") })
    );
}

#[test]
fn parse_commit_record() {
    assert_eq!(
        BuildRecord::parse("commit\nmain abcd\ndev ef01"),
        Some(BuildRecord::Commit { entries: vec![(s("main"), s("abcd")), (s("dev"), s("ef01"))] })
    );
    assert_eq!(BuildRecord::parse("commit"), Some(BuildRecord::Commit { entries: vec![] }));
}

#[test]
fn parse_commit_skips_lines_without_pair() {
    assert_eq!(
        BuildRecord::parse("commit\nbroken\nmain abcd"),
        Some(BuildRecord::Commit { entries: vec![(s("main"), s("abcd"))] })
    );
}

#[test]
fn parse_refuses_unknown_or_empty() {
    assert_eq!(BuildRecord::parse(""), None);
    assert_eq!(BuildRecord::parse("changelog"), None);
    assert_eq!(BuildRecord::parse("nonsense\n1.0"), None);
}

#[test]
fn render_records() {
    assert_eq!(BuildRecord::Changelog { version: s("1.2.3") }.render(), s("changelog\n1.2.3"));
    assert_eq!(
        BuildRecord::Commit { entries: vec![(s("main"), s("abcd")), (s("dev"), s("ef01"))] }.render(),
        s("commit\nmain abcd\ndev ef01")
    );
    assert_eq!(BuildRecord::Commit { entries: vec![] }.render(), s("commit"));
}

#[test]
fn render_then_parse() {
    let r = BuildRecord::Commit { entries: vec![(s("a"), s("1")), (s("b"), s("2"))] };
    assert_eq!(BuildRecord::parse(&r.render()), Some(r));
}
