use debrep::download::{check_cvs, check_length, git_fetch_args, SourceError};
use debrep::error::{BuildError, LinkError};
use debrep::invoke::sbuild_args;
use debrep::plan::{cached_archive, metadata_plan, wanted_sources, MetadataPlan};
use debrep::select::select_dependencies;
use debrep::source::{DebianPath, Source};
use debrep::text::{find, split_lines, text_after_last};

fn s(x: &str) -> String {
    x.to_string()
}

fn source(name: &str) -> Source {
    Source {
        name: s(name),
        cvs: s("git"),
        url: s("https://example.org/x.git"),
        location: None,
        debian: None,
        assets: None,
        prebuild: None,
        starting_build: None,
        depends: None,
        build_on: None,
        keep_source: false,
    }
}

fn pool() -> Vec<String> {
    vec![
        s("repo/pool/stable/main/libbar_1.0_amd64.deb"),
        s("repo/pool/stable/main/foo_2.0_amd64.deb"),
        s("repo/pool/stable/main/foobar_1.0_amd64.deb"),
        s("repo/pool/stable/main/libbar-dev_1.0_amd64.deb"),
        s("repo/pool/stable/main/foo_2.1_all.deb"),
    ]
}

#[test]
fn selection_orders_by_requested_package() {
    let r = select_dependencies(&pool(), &vec![s("foo"), s("libbar")]);
    assert_eq!(
        r,
        vec![
            s("repo/pool/stable/main/foo_2.0_amd64.deb"),
            s("repo/pool/stable/main/foo_2.1_all.deb"),
            s("repo/pool/stable/main/libbar_1.0_amd64.deb"),
        ]
    );
}

#[test]
fn selection_is_deterministic() {
    let pats = vec![s("libbar-dev"), s("foobar"), s("foo")];
    let a = select_dependencies(&pool(), &pats);
    let b = select_dependencies(&pool(), &pats);
    assert_eq!(a, b);
    assert_eq!(
        a,
        vec![
            s("repo/pool/stable/main/libbar-dev_1.0_amd64.deb"),
            s("repo/pool/stable/main/foobar_1.0_amd64.deb"),
            s("repo/pool/stable/main/foo_2.0_amd64.deb"),
            s("repo/pool/stable/main/foo_2.1_all.deb"),
        ]
    );
}

#[test]
fn selection_of_nothing() {
    assert_eq!(select_dependencies(&pool(), &vec![]), Vec::<String>::new());
    assert_eq!(select_dependencies(&vec![], &vec![s("foo")]), Vec::<String>::new());
    assert_eq!(select_dependencies(&pool(), &vec![s("baz")]), Vec::<String>::new());
}

#[test]
fn tool_arguments() {
    let mut item = source("foo");
    item.depends = Some(vec![s("libbar")]);
    item.prebuild = Some(vec![s("echo a"), s("echo b")]);
    item.starting_build = Some(vec![s("echo c")]);
    let args = sbuild_args(&item, &s("stable"), &pool(), &s("/w/build/foo"));
    assert_eq!(
        args,
        vec![
            s("-v"),
            s("--log-external-command-output"),
            s("--log-external-command-error"),
            s("-d"),
            s("stable"),
            s("--extra-package=repo/pool/stable/main/libbar_1.0_amd64.deb"),
            s("--pre-build-commands=echo a"),
            s("--pre-build-commands=echo b"),
            s("--starting-build-commands=echo c"),
            s("/w/build/foo"),
        ]
    );
}

#[test]
fn tool_arguments_without_options() {
    let args = sbuild_args(&source("foo"), &s("stable"), &pool(), &s("ws"));
    assert_eq!(
        args,
        vec![
            s("-v"),
            s("--log-external-command-output"),
            s("--log-external-command-error"),
            s("-d"),
            s("stable"),
            s("ws"),
        ]
    );
}

#[test]
fn metadata_plans() {
    let mut item = source("foo");
    assert_eq!(metadata_plan(&item, true), Ok(MetadataPlan::Mirror));
    assert_eq!(metadata_plan(&item, false), Ok(MetadataPlan::Keep));
    item.debian = Some(DebianPath::Branch { url: s("u"), branch: s("b") });
    assert_eq!(
        metadata_plan(&item, true),
        Ok(MetadataPlan::MergeBranch { url: s("u"), branch: s("b") })
    );
    item.debian = Some(DebianPath::Url { url: s("http://x/d.tar"), checksum: s("00") });
    assert_eq!(
        metadata_plan(&item, true),
        Err(BuildError::RemoteMetadata { package: s("foo"), url: s("http://x/d.tar") })
    );
}

#[test]
fn archive_cache_path() {
    assert_eq!(
        cached_archive(&s("foo"), &s("https://example.org/dl/foo-1.0.tar.gz")),
        s("assets/cache/foo_foo-1.0.tar.gz")
    );
    assert_eq!(cached_archive(&s("foo"), &s("plain.tar")), s("assets/cache/foo_plain.tar"));
}

#[test]
fn text_helpers() {
    assert_eq!(text_after_last("a/b/c", '/'), s("c"));
    assert_eq!(text_after_last("a/b/", '/'), s(""));
    assert_eq!(find("ab cd", ' '), 2);
    assert_eq!(find("abcd", ' '), 4);
    assert_eq!(split_lines("a\n\nb\n"), vec![s("a"), s(""), s("b")]);
    assert_eq!(split_lines(""), Vec::<String>::new());
}

#[test]
fn content_length_check() {
    assert!(check_length(Some(10), 10));
    assert!(!check_length(Some(10), 9));
    assert!(check_length(None, 0));
    assert!(!check_length(None, 5));
}

#[test]
fn cvs_check() {
    assert_eq!(check_cvs(&source("foo")), Ok(()));
    let mut item = source("foo");
    item.cvs = s("svn");
    assert_eq!(check_cvs(&item), Err(SourceError::UnsupportedCVS { cvs: s("svn") }));
}

#[test]
fn git_arguments() {
    assert_eq!(
        git_fetch_args(true, &s("u")),
        vec![s("-C"), s("sources"), s("pull"), s("origin"), s("master")]
    );
    assert_eq!(git_fetch_args(false, &s("u")), vec![s("-C"), s("sources"), s("clone"), s("u")]);
}

#[test]
fn chosen_sources() {
    let srcs = vec![source("a"), source("b"), source("c"), source("b")];
    assert_eq!(wanted_sources(&srcs, &vec![s("c"), s("b")]), vec![1, 2]);
    assert_eq!(wanted_sources(&srcs, &vec![s("b")]), vec![1]);
    assert_eq!(wanted_sources(&srcs, &vec![]), Vec::<usize>::new());
}

#[test]
fn link_error_converts() {
    let e = BuildError::from(LinkError { src: s("a"), dst: s("b"), why: s("c") });
    assert_eq!(e, BuildError::Link { src: s("a"), dst: s("b"), why: s("c") });
}
