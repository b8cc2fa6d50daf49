use vstd::prelude::*;

verus! {

/// Where the source archive of a package is downloaded from.
#[derive(Debug, PartialEq, Eq)]
pub enum SourceLocation {
    Url { url: String, checksum: String },
}

/// Where the packaging-control metadata of a package comes from.
#[derive(Debug, PartialEq, Eq)]
pub enum DebianPath {
    /// A metadata archive fetched by URL and verified by checksum.
    Url { url: String, checksum: String },
    /// The `debian` directory of one branch of a metadata repository.
    Branch { url: String, branch: String },
}

/// One asset mapping: a glob below the shared assets root, and the directory
/// of the workspace that its matches go to.
#[derive(Debug, PartialEq, Eq)]
pub struct Asset {
    pub src: String,
    pub dst: String,
}

/// The description of one package, as loaded from the configuration.
#[derive(Debug, PartialEq, Eq)]
pub struct Source {
    pub name: String,
    pub cvs: String,
    pub url: String,
    pub location: Option<SourceLocation>,
    pub debian: Option<DebianPath>,
    pub assets: Option<Vec<Asset>>,
    pub prebuild: Option<Vec<String>>,
    pub starting_build: Option<Vec<String>>,
    pub depends: Option<Vec<String>>,
    pub build_on: Option<String>,
    pub keep_source: bool,
}

} // verus!
