//! The document record held by the index.

use vstd::prelude::*;

verus! {

/// A note held by the index. Never mutated in place: a content change
/// produces a replacement document for the same path.
pub struct Document {
    /// Process-unique identity, stable for the document's lifetime.
    pub id: u128,
    /// Filesystem location; the unique key for upsert.
    pub path: String,
    /// Full text.
    pub content: String,
    /// Last-write time, in seconds since the UNIX epoch, when known.
    pub modified: Option<u64>,
}

/// The mathematical content of a document.
#[verifier::ext_equal]
pub struct DocView {
    pub id: u128,
    pub path: Seq<char>,
    pub content: Seq<char>,
    pub modified: Option<u64>,
}

impl Document {
    /// A copy of the document, field by field.
    pub fn duplicate(&self) -> (r: Document)
        ensures
            r@ == self@,
            r.id == self.id,
    {
        Document {
            id: self.id,
            path: self.path.clone(),
            content: self.content.clone(),
            modified: self.modified,
        }
    }
}

impl View for Document {
    type V = DocView;

    open spec fn view(&self) -> DocView {
        DocView {
            id: self.id,
            path: self.path@,
            content: self.content@,
            modified: self.modified,
        }
    }
}

} // verus!
