//! Node identity, node-set collections, document order and string-value
//! computation for an XPath-style query engine.
//!
//! The document tree itself is modelled as an arena owned by a [`dom::Document`]:
//! every node is a small copyable handle (a document id plus an arena index),
//! and all access to node data goes through the owning document.

pub mod dom;
pub mod nodeset;

use vstd::prelude::*;

verus! {

/// The identifier a [`dom::Document`] is created with; node handles record it
/// so that every node knows its owning document.
pub type DocId = u64;

} // verus!
