//! What can go wrong while compacting.

use vstd::prelude::*;

verus! {

/// Why no artifact was made.
#[derive(Debug, PartialEq, Eq)]
pub enum CompactError {
    /// The document from `source` has syntax version `found`, which is not
    /// the understood one.
    VersionMismatch { source: String, found: usize },
    /// The document from `source` declares `name` otherwise than the
    /// builtin declaration of that name.
    BuiltinConflict { name: String, source: String },
    /// Nothing is declared under the top-level type's name.
    MissingTopLevelType { name: String },
    /// `referrer`, which the top-level type needs, refers to `name`, and
    /// nothing is declared under that name.
    UnresolvedReference { name: String, referrer: String },
    /// The artifact would not fit the 32-bit sizes of its encoding.
    ArtifactTooLarge,
}

pub enum CompactErrorView {
    VersionMismatch { source: Seq<char>, found: usize },
    BuiltinConflict { name: Seq<char>, source: Seq<char> },
    MissingTopLevelType { name: Seq<char> },
    UnresolvedReference { name: Seq<char>, referrer: Seq<char> },
    ArtifactTooLarge,
}

impl View for CompactError {
    type V = CompactErrorView;

    open spec fn view(&self) -> CompactErrorView {
        match *self {
            CompactError::VersionMismatch { source, found } => CompactErrorView::VersionMismatch {
                source: source@,
                found,
            },
            CompactError::BuiltinConflict { name, source } => CompactErrorView::BuiltinConflict {
                name: name@,
                source: source@,
            },
            CompactError::MissingTopLevelType { name } => CompactErrorView::MissingTopLevelType {
                name: name@,
            },
            CompactError::UnresolvedReference {
                name,
                referrer,
            } => CompactErrorView::UnresolvedReference { name: name@, referrer: referrer@ },
            CompactError::ArtifactTooLarge => CompactErrorView::ArtifactTooLarge,
        }
    }
}

} // verus!
