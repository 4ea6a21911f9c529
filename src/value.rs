//! The document model and instance paths.

use vstd::prelude::*;
use crate::number::Number;

verus! {

/// A JSON-like document node: the six variants of the document model.
pub enum JsonValue {
    Null,
    Bool(bool),
    Number(Number),
    String(String),
    Array(Vec<JsonValue>),
    Object(Vec<(String, JsonValue)>),
}

/// One step of an instance path: an object key or an array index.
#[derive(Clone, Debug, PartialEq, Eq)]
pub enum PathSegment {
    Key(String),
    Index(usize),
}

impl PathSegment {
    /// An equal segment.
    pub fn copy(&self) -> (r: PathSegment)
        ensures
            r == *self,
    {
        match self {
            PathSegment::Key(k) => PathSegment::Key(k.clone()),
            PathSegment::Index(i) => PathSegment::Index(*i),
        }
    }
}

/// An equal path.
pub fn copy_path(path: &Vec<PathSegment>) -> (r: Vec<PathSegment>)
    ensures
        r@ == path@,
{
    let mut r: Vec<PathSegment> = Vec::new();
    let mut i: usize = 0;
    while i < path.len()
        invariant
            i <= path@.len(),
            r@ == path@.subrange(0, i as int),
        decreases path@.len() - i,
    {
        r.push(path[i].copy());
        i = i + 1;
    }
    assert(r@ =~= path@);
    r
}

/// The path `path` extended by one segment.
pub fn extend_path(path: &Vec<PathSegment>, segment: PathSegment) -> (r: Vec<PathSegment>)
    ensures
        r@ == path@.push(segment),
{
    let mut r = copy_path(path);
    r.push(segment);
    r
}

} // verus!
