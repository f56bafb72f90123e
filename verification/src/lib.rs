//! Compacts type schemas: merges schema documents, keeps the declarations
//! that a chosen top-level type needs, and encodes them, sorted by name, as
//! one binary artifact.

use vstd::prelude::*;

pub mod canon;
pub mod encode;
pub mod error;
pub mod ir;
pub mod laws;
pub mod merge;
pub mod name_set;
pub mod namespace;
pub mod order;
pub mod pipeline;
pub mod reach;
pub mod wire;

verus! {

/// The only syntax version of schema documents that is understood.
pub const EXPECTED_SYNTAX_VERSION: usize = 1;

} // verus!
