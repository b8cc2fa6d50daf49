use vstd::prelude::*;
use crate::error::BuildError;
use crate::source::{DebianPath, Source};
use crate::text::{after_last, text_after_last};

verus! {

/// How the control metadata of a workspace is put in place.
#[derive(Debug, PartialEq, Eq)]
pub enum MetadataPlan {
    /// Clone `branch` of the repository at `url` and copy its `debian`
    /// directory into the workspace.
    MergeBranch { url: String, branch: String },
    /// Mirror the local per-package control directory into the workspace.
    Mirror,
    /// Leave the workspace as extraction left it.
    Keep,
}

/// Chooses how the control metadata of `item` is resolved; `local_exists`
/// tells whether the local per-package control directory exists. A metadata
/// archive fetched by URL is not supported and is refused.
pub fn metadata_plan(item: &Source, local_exists: bool) -> (r: Result<MetadataPlan, BuildError>)
    ensures
        match item.debian {
            Some(DebianPath::Url { url, checksum }) => r == Err::<MetadataPlan, BuildError>(
                BuildError::RemoteMetadata { package: item.name, url },
            ),
            Some(DebianPath::Branch { url, branch }) => r == Ok::<MetadataPlan, BuildError>(
                MetadataPlan::MergeBranch { url, branch },
            ),
            None => r == Ok::<MetadataPlan, BuildError>(
                if local_exists {
                    MetadataPlan::Mirror
                } else {
                    MetadataPlan::Keep
                },
            ),
        },
{
    match &item.debian {
        Some(DebianPath::Url { url, checksum: _ }) => Err(
            BuildError::RemoteMetadata { package: item.name.clone(), url: url.clone() },
        ),
        Some(DebianPath::Branch { url, branch }) => Ok(
            MetadataPlan::MergeBranch { url: url.clone(), branch: branch.clone() },
        ),
        None => if local_exists {
            Ok(MetadataPlan::Mirror)
        } else {
            Ok(MetadataPlan::Keep)
        },
    }
}

/// Where the downloaded source archive of package `name` is cached, below the
/// working directory: `assets/cache/<name>_<file>`, where `<file>` is what
/// follows the last `/` of the URL.
pub fn cached_archive(name: &String, url: &String) -> (r: String)
    ensures
        r@ == "assets/cache/"@ + name@ + "_"@ + after_last(url@, '/'),
{
    let file = text_after_last(url.as_str(), '/');
    String::from_str("assets/cache/").concat(name.as_str()).concat("_").concat(file.as_str())
}

/// The names of the configured sources, in order.
pub open spec fn names_of(srcs: Seq<Source>) -> Seq<Seq<char>> {
    srcs.map_values(|s: Source| s.name@)
}

/// The positions of the names in `ns` that `wanted` holds, in order.
pub open spec fn matching(ns: Seq<Seq<char>>, wanted: Seq<Seq<char>>) -> Seq<int>
    decreases ns.len(),
{
    if ns.len() == 0 {
        Seq::empty()
    } else if wanted.contains(ns.last()) {
        matching(ns.drop_last(), wanted).push(ns.len() - 1)
    } else {
        matching(ns.drop_last(), wanted)
    }
}

/// The sources to build when packages are named: those whose name is named,
/// in configured order, and no more of them than names were given.
pub open spec fn chosen(srcs: Seq<Source>, wanted: Seq<Seq<char>>) -> Seq<int> {
    let m = matching(names_of(srcs), wanted);
    if m.len() <= wanted.len() {
        m
    } else {
        m.take(wanted.len() as int)
    }
}

fn contains_name(names: &Vec<String>, n: &String) -> (r: bool)
    ensures
        r == names.deep_view().contains(n@),
{
    let ghost nv = names.deep_view();
    let mut i: usize = 0;
    while i < names.len()
        invariant
            nv == names.deep_view(),
            i <= names.len(),
            forall|j: int| 0 <= j < i ==> nv[j] != n@,
        decreases names.len() - i,
    {
        if names[i] == *n {
            proof {
                assert(nv[i as int] == n@);
            }
            return true;
        }
        i = i + 1;
    }
    false
}

/// The positions of the sources to build for the named packages.
pub fn wanted_sources(sources: &Vec<Source>, names: &Vec<String>) -> (r: Vec<usize>)
    ensures
        r@.map_values(|i: usize| i as int) == chosen(sources@, names.deep_view()),
{
    let ghost ns = names_of(sources@);
    let ghost wanted = names.deep_view();
    let mut out: Vec<usize> = Vec::new();
    let mut i: usize = 0;
    while i < sources.len()
        invariant
            ns == names_of(sources@),
            wanted == names.deep_view(),
            i <= sources.len(),
            out.len() <= names.len(),
            forall|j: int| 0 <= j < out.len() ==> out@[j] < i,
            out@.map_values(|i: usize| i as int) == ({
                let m = matching(ns.take(i as int), wanted);
                if m.len() <= wanted.len() {
                    m
                } else {
                    m.take(wanted.len() as int)
                }
            }),
        decreases sources.len() - i,
    {
        let ghost m0 = matching(ns.take(i as int), wanted);
        let ghost prev = out@.map_values(|i: usize| i as int);
        proof {
            let t = ns.take(i + 1);
            assert(t.drop_last() =~= ns.take(i as int));
            assert(t.last() == sources@[i as int].name@);
            assert(t.len() - 1 == i);
        }
        let hit = contains_name(names, &sources[i].name);
        if hit && out.len() < names.len() {
            out.push(i);
            proof {
                assert(out@.map_values(|i: usize| i as int) =~= prev.push(i as int));
            }
        }
        proof {
            let m1 = matching(ns.take(i + 1), wanted);
            if hit {
                assert(m1 == m0.push(i as int));
                if m0.len() < wanted.len() {
                } else {
                    assert(m1.take(wanted.len() as int) =~= m0.take(wanted.len() as int));
                    if m0.len() == wanted.len() {
                        assert(m0.take(wanted.len() as int) =~= m0);
                    }
                }
            }
        }
        i = i + 1;
    }
    proof {
        assert(ns.take(sources.len() as int) =~= ns);
    }
    out
}

} // verus!
