//! User tags: a name and a colour.  Persisting a tag is a store write the
//! embedder performs; the value itself is built here.

use vstd::prelude::*;

verus! {

/// A user tag.
pub struct Tag {
    pub name: String,
    pub color: String,
}

impl Tag {
    /// Builds a tag from its name and colour.
    pub fn new(name: String, color: String) -> (t: Self)
        ensures
            t.name == name,
            t.color == color,
    {
        Tag { name, color }
    }
}

} // verus!
