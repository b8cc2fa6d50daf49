use vstd::prelude::*;
use crate::source::Source;

verus! {

/// What a download attempt produced when it did not fail.
#[derive(Debug, PartialEq, Eq)]
pub enum DownloadResult {
    Downloaded(u64),
    AlreadyExists,
}

/// Whether a cached file can be kept: the length that the server reports
/// (zero when it reports none) equals the length of the file on disk.
pub fn check_length(content_length: Option<u64>, compared: u64) -> (r: bool)
    ensures
        r == (match content_length {
            Some(n) => n == compared,
            None => compared == 0,
        }),
{
    match content_length {
        Some(n) => n == compared,
        None => compared == 0,
    }
}

/// Everything that can stop the download and build of a source repository.
#[derive(Debug, PartialEq, Eq)]
pub enum SourceError {
    BuildCommand { why: String },
    BuildFailed,
    GitFailed,
    GitRequest { item: String, why: String },
    UnsupportedCVS { cvs: String },
}

/// What a source build produced when it did not fail.
#[derive(Debug, PartialEq, Eq)]
pub enum SourceResult {
    BuildSucceeded,
}

/// Accepts the version-control system of a source repository: git is the one
/// supported.
pub fn check_cvs(item: &Source) -> (r: Result<(), SourceError>)
    ensures
        item.cvs@ == "git"@ ==> r == Ok::<(), SourceError>(()),
        item.cvs@ != "git"@ ==> r == Err::<(), SourceError>(SourceError::UnsupportedCVS { cvs: item.cvs }),
{
    if item.cvs == String::from_str("git") {
        Ok(())
    } else {
        Err(SourceError::UnsupportedCVS { cvs: item.cvs.clone() })
    }
}

/// The arguments of git that bring a source repository up to date below
/// `sources`: a pull when it was cloned before, else a clone of `url`.
pub fn git_fetch_args(cloned: bool, url: &String) -> (r: Vec<String>)
    ensures
        cloned ==> r.deep_view() == seq!["-C"@, "sources"@, "pull"@, "origin"@, "master"@],
        !cloned ==> r.deep_view() == seq!["-C"@, "sources"@, "clone"@, url@],
{
    let mut r: Vec<String> = Vec::new();
    r.push(String::from_str("-C"));
    r.push(String::from_str("sources"));
    if cloned {
        r.push(String::from_str("pull"));
        r.push(String::from_str("origin"));
        r.push(String::from_str("master"));
        proof {
            assert(r.deep_view() =~= seq!["-C"@, "sources"@, "pull"@, "origin"@, "master"@]);
        }
    } else {
        r.push(String::from_str("clone"));
        r.push(url.clone());
        proof {
            assert(r.deep_view() =~= seq!["-C"@, "sources"@, "clone"@, url@]);
        }
    }
    r
}

} // verus!
