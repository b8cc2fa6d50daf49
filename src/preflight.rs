use vstd::prelude::*;
use crate::error::BuildError;
use crate::record::{BuildRecord, RecordModel, pair_view, parse, render, well_formed, lemma_parse_render};

verus! {

/// What the strategy of a package read from its workspace.
#[derive(Debug, PartialEq, Eq)]
pub enum Inspected {
    /// No strategy: nothing was read.
    Nothing,
    /// The first version of the changelog.
    Version(String),
    /// The branch and commit that the workspace is checked out at.
    Vcs { branch: String, commit: String },
}

pub enum InspectedModel {
    Nothing,
    Version(Seq<char>),
    Vcs(Seq<char>, Seq<char>),
}

impl View for Inspected {
    type V = InspectedModel;

    open spec fn view(&self) -> InspectedModel {
        match self {
            Inspected::Nothing => InspectedModel::Nothing,
            Inspected::Version(v) => InspectedModel::Version(v@),
            Inspected::Vcs { branch, commit } => InspectedModel::Vcs(branch@, commit@),
        }
    }
}

/// The outcome of the pre-flight check.
#[derive(Debug, PartialEq, Eq)]
pub enum Decision {
    /// The package is up to date: the tool is not run and no record is written.
    Skip,
    /// Run the tool; once it succeeds, write `record` if there is one.
    Build { record: Option<BuildRecord> },
}

pub enum DecisionModel {
    Skip,
    Build(Option<RecordModel>),
}

impl View for Decision {
    type V = DecisionModel;

    open spec fn view(&self) -> DecisionModel {
        match self {
            Decision::Skip => DecisionModel::Skip,
            Decision::Build { record } => DecisionModel::Build(match record {
                Some(r) => Some(r@),
                None => None,
            }),
        }
    }
}

/// The pairs of an existing commit record; none for any other record.
pub open spec fn prior_entries(existing: Option<RecordModel>) -> Seq<(Seq<char>, Seq<char>)> {
    match existing {
        Some(RecordModel::Commit(es)) => es,
        _ => Seq::empty(),
    }
}

/// Whether the existing record shows that what was inspected was built.
pub open spec fn up_to_date(inspected: InspectedModel, existing: Option<RecordModel>) -> bool {
    match inspected {
        InspectedModel::Nothing => false,
        InspectedModel::Version(v) => existing == Some(RecordModel::Changelog(v)),
        InspectedModel::Vcs(b, c) => match existing {
            Some(RecordModel::Commit(es)) => es.contains((b, c)),
            _ => false,
        },
    }
}

/// The record to write after a successful build: a changelog record holds the
/// new version alone; a commit record keeps every earlier pair and gains the
/// new one at its end.
pub open spec fn record_after(inspected: InspectedModel, existing: Option<RecordModel>) -> Option<RecordModel> {
    match inspected {
        InspectedModel::Nothing => None,
        InspectedModel::Version(v) => Some(RecordModel::Changelog(v)),
        InspectedModel::Vcs(b, c) => Some(RecordModel::Commit(prior_entries(existing).push((b, c)))),
    }
}

pub open spec fn decide(inspected: InspectedModel, existing: Option<RecordModel>, force: bool) -> DecisionModel {
    if !force && up_to_date(inspected, existing) {
        DecisionModel::Skip
    } else {
        DecisionModel::Build(record_after(inspected, existing))
    }
}

/// The version that the changelog strategy goes by: the first one listed.
pub fn first_changelog_version(package: &String, versions: Vec<String>) -> (r: Result<String, BuildError>)
    ensures
        versions.len() > 0 ==> r == Ok::<String, BuildError>(versions[0]),
        versions.len() == 0 ==> r == Err::<String, BuildError>(BuildError::NoChangelogVersion { package: *package }),
{
    let mut versions = versions;
    if versions.len() > 0 {
        Ok(versions.swap_remove(0))
    } else {
        Err(BuildError::NoChangelogVersion { package: package.clone() })
    }
}

fn has_entry(entries: &Vec<(String, String)>, branch: &String, commit: &String) -> (r: bool)
    ensures
        r == entries@.map_values(|e: (String, String)| pair_view(e)).contains((branch@, commit@)),
{
    let ghost es = entries@.map_values(|e: (String, String)| pair_view(e));
    let mut i: usize = 0;
    while i < entries.len()
        invariant
            es == entries@.map_values(|e: (String, String)| pair_view(e)),
            i <= entries.len(),
            forall|j: int| 0 <= j < i ==> es[j] != (branch@, commit@),
        decreases entries.len() - i,
    {
        if entries[i].0 == *branch && entries[i].1 == *commit {
            proof {
                assert(es[i as int] == (branch@, commit@));
            }
            return true;
        }
        i = i + 1;
    }
    false
}

fn clone_entries(entries: &Vec<(String, String)>) -> (r: Vec<(String, String)>)
    ensures
        r@.map_values(|e: (String, String)| pair_view(e)) == entries@.map_values(|e: (String, String)| pair_view(e)),
{
    let mut out: Vec<(String, String)> = Vec::new();
    let mut i: usize = 0;
    while i < entries.len()
        invariant
            i <= entries.len(),
            out@.map_values(|e: (String, String)| pair_view(e))
                == entries@.map_values(|e: (String, String)| pair_view(e)).take(i as int),
        decreases entries.len() - i,
    {
        let ghost before = out@.map_values(|e: (String, String)| pair_view(e));
        let e = (entries[i].0.clone(), entries[i].1.clone());
        out.push(e);
        proof {
            assert(pair_view(e) == pair_view(entries@[i as int]));
            assert(out@.map_values(|e: (String, String)| pair_view(e)) =~= before.push(pair_view(e)));
            assert(out@.map_values(|e: (String, String)| pair_view(e))
                =~= entries@.map_values(|e: (String, String)| pair_view(e)).take(i + 1));
        }
        i = i + 1;
    }
    proof {
        assert(entries@.map_values(|e: (String, String)| pair_view(e)).take(entries.len() as int)
            =~= entries@.map_values(|e: (String, String)| pair_view(e)));
    }
    out
}

/// Decides whether a package must be built: it is skipped, unless `force` is
/// set, when the existing record already holds what was inspected; otherwise
/// it is built and the record to write afterwards is given.
pub fn pre_flight(inspected: &Inspected, existing: Option<&BuildRecord>, force: bool) -> (r: Decision)
    ensures
        r@ == decide(inspected@, match existing {
            Some(b) => Some(b@),
            None => None,
        }, force),
{
    let ghost ex = match existing {
        Some(b) => Some(b@),
        None => None,
    };
    match inspected {
        Inspected::Nothing => Decision::Build { record: None },
        Inspected::Version(v) => {
            let same = match existing {
                Some(BuildRecord::Changelog { version }) => *version == *v,
                _ => false,
            };
            assert(same == up_to_date(inspected@, ex));
            if !force && same {
                Decision::Skip
            } else {
                Decision::Build { record: Some(BuildRecord::Changelog { version: v.clone() }) }
            }
        },
        Inspected::Vcs { branch, commit } => {
            let seen = match existing {
                Some(BuildRecord::Commit { entries }) => has_entry(entries, branch, commit),
                _ => false,
            };
            assert(seen == up_to_date(inspected@, ex));
            if !force && seen {
                return Decision::Skip;
            }
            let mut entries: Vec<(String, String)> = match existing {
                Some(BuildRecord::Commit { entries }) => clone_entries(entries),
                _ => Vec::new(),
            };
            let ghost before = entries@.map_values(|e: (String, String)| pair_view(e));
            assert(before =~= prior_entries(ex));
            let pair = (branch.clone(), commit.clone());
            entries.push(pair);
            proof {
                assert(entries@.map_values(|e: (String, String)| pair_view(e))
                    =~= before.push((branch@, commit@)));
            }
            Decision::Build { record: Some(BuildRecord::Commit { entries }) }
        },
    }
}

/// A changelog package whose record holds the version that its changelog
/// lists first is skipped when the build is not forced.
pub proof fn lemma_same_version_skips(v: Seq<char>)
    ensures
        decide(InspectedModel::Version(v), Some(RecordModel::Changelog(v)), false) == DecisionModel::Skip,
{
}

/// A changelog package whose version changed is built, and the record written
/// afterwards holds the new version alone.
pub proof fn lemma_new_version_overwrites(v: Seq<char>, v2: Seq<char>, force: bool)
    requires
        v2 != v,
    ensures
        decide(InspectedModel::Version(v2), Some(RecordModel::Changelog(v)), force)
            == DecisionModel::Build(Some(RecordModel::Changelog(v2))),
{
}

/// A commit package whose record already holds the (branch, commit) pair of
/// its workspace is skipped when the build is not forced.
pub proof fn lemma_built_pair_skips(es: Seq<(Seq<char>, Seq<char>)>, b: Seq<char>, c: Seq<char>)
    requires
        es.contains((b, c)),
    ensures
        decide(InspectedModel::Vcs(b, c), Some(RecordModel::Commit(es)), false) == DecisionModel::Skip,
{
}

/// A commit package at a pair that its record does not hold is built; the
/// record written afterwards is the old one with the new pair at its end, so
/// every earlier pair is still in it.
pub proof fn lemma_new_pair_appends(es: Seq<(Seq<char>, Seq<char>)>, b: Seq<char>, c: Seq<char>, force: bool)
    requires
        !es.contains((b, c)),
    ensures
        decide(InspectedModel::Vcs(b, c), Some(RecordModel::Commit(es)), force)
            == DecisionModel::Build(Some(RecordModel::Commit(es.push((b, c))))),
        forall|p: (Seq<char>, Seq<char>)| es.contains(p) ==> #[trigger] es.push((b, c)).contains(p),
        es.push((b, c)).contains((b, c)),
{
    assert forall|p: (Seq<char>, Seq<char>)| es.contains(p) implies #[trigger] es.push((b, c)).contains(p) by {
        let k = choose|k: int| 0 <= k < es.len() && es[k] == p;
        assert(es.push((b, c))[k] == p);
    }
    assert(es.push((b, c))[es.len() as int] == (b, c));
}

/// A forced build always runs the tool, and writes the same record that an
/// unforced build would write.
pub proof fn lemma_force_always_builds(i: InspectedModel, existing: Option<RecordModel>)
    ensures
        decide(i, existing, true) == DecisionModel::Build(record_after(i, existing)),
        decide(i, existing, false) is Build ==> decide(i, existing, false) == decide(i, existing, true),
{
}

/// Once a build has written its record to the record file, the next run that
/// is not forced and inspects the same thing reads that file and skips.
pub proof fn lemma_built_then_skipped(i: InspectedModel, existing: Option<RecordModel>, force: bool, m: RecordModel)
    requires
        decide(i, existing, force) == DecisionModel::Build(Some(m)),
        well_formed(m),
    ensures
        decide(i, parse(render(m)), false) == DecisionModel::Skip,
{
    lemma_parse_render(m);
    match i {
        InspectedModel::Vcs(b, c) => {
            let es = prior_entries(existing).push((b, c));
            assert(es[es.len() - 1] == (b, c));
        },
        _ => {},
    }
}

} // verus!
