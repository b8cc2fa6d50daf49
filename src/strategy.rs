use vstd::prelude::*;
use crate::error::BuildError;

verus! {

/// How a package decides whether it needs to be built again.
#[derive(Clone, Copy, Debug, PartialEq, Eq, Structural)]
pub enum Strategy {
    /// No tag: every run builds, and no record is kept.
    Always,
    /// Rebuild when the first changelog version differs from the recorded one.
    Changelog,
    /// Rebuild when the (branch, commit) pair of the workspace was never built.
    Commit,
}

/// The strategy that a configured tag names, if it names one.
pub open spec fn strategy_of(tag: Option<Seq<char>>) -> Option<Strategy> {
    match tag {
        None => Some(Strategy::Always),
        Some(t) => if t == "changelog"@ {
            Some(Strategy::Changelog)
        } else if t == "commit"@ {
            Some(Strategy::Commit)
        } else {
            None
        },
    }
}

/// Reads the configured strategy tag. An unknown tag is refused with a
/// `ConditionalRule` error that names it.
pub fn parse_strategy(build_on: &Option<String>) -> (r: Result<Strategy, BuildError>)
    ensures
        match build_on {
            None => r == Ok::<Strategy, BuildError>(Strategy::Always),
            Some(t) => match strategy_of(Some(t@)) {
                Some(s) => r == Ok::<Strategy, BuildError>(s),
                None => r == Err::<Strategy, BuildError>(BuildError::ConditionalRule { rule: *t }),
            },
        },
{
    match build_on {
        None => Ok(Strategy::Always),
        Some(t) => {
            let changelog = String::from_str("changelog");
            let commit = String::from_str("commit");
            if *t == changelog {
                Ok(Strategy::Changelog)
            } else if *t == commit {
                Ok(Strategy::Commit)
            } else {
                Err(BuildError::ConditionalRule { rule: t.clone() })
            }
        },
    }
}

} // verus!
