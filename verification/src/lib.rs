//! Verified core of a game launcher: background selection from the launcher
//! API, background picture checks, and the Wine/DLSS environment rules.
use vstd::prelude::*;

pub mod text;
pub mod sequences;
pub mod wine_overrides;
pub mod dlss;
pub mod nvidia_search;
pub mod json;
pub mod background;
pub mod environment;

verus! {
} // verus!
