use vstd::prelude::*;

pub mod download;
pub mod error;
pub mod invoke;
pub mod plan;
pub mod preflight;
pub mod record;
pub mod select;
pub mod source;
pub mod strategy;
pub mod text;

verus! {

} // verus!
