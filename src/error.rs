use vstd::prelude::*;

verus! {

/// A failed placement of one file into a workspace.
#[derive(Debug, PartialEq, Eq)]
pub struct LinkError {
    pub src: String,
    pub dst: String,
    pub why: String,
}

/// Everything that can stop the build of one package. Each variant names the
/// package or the paths involved, and carries the cause as text.
#[derive(Debug, PartialEq, Eq)]
pub enum BuildError {
    Build { package: String },
    Changelog { package: String, why: String },
    Command { cmd: String, why: String },
    ConditionalRule { rule: String },
    Directory { path: String, why: String },
    Extract { src: String, dst: String, why: String },
    GitBranch { package: String, branch: String, why: String },
    GitCommit { package: String, why: String },
    Link { src: String, dst: String, why: String },
    NoChangelogVersion { package: String },
    Open { file: String, why: String },
    Pool { package: String, why: String },
    Read { file: String, why: String },
    RecordUpdate { package: String, why: String },
    RemoteMetadata { package: String, url: String },
    Rsync { src: String, dst: String, why: String },
}

impl From<LinkError> for BuildError {
    fn from(err: LinkError) -> (r: BuildError)
        ensures
            r == (BuildError::Link { src: err.src, dst: err.dst, why: err.why }),
    {
        BuildError::Link { src: err.src, dst: err.dst, why: err.why }
    }
}

impl vstd::std_specs::convert::FromSpecImpl<LinkError> for BuildError {
    open spec fn obeys_from_spec() -> bool {
        true
    }

    open spec fn from_spec(err: LinkError) -> BuildError {
        BuildError::Link { src: err.src, dst: err.dst, why: err.why }
    }
}

} // verus!
