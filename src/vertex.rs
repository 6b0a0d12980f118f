use vstd::prelude::*;

use crate::text::chars_of;

verus! {

/// A point of three coordinates, each kept as the text of a floating-point
/// number.
#[derive(Debug, Clone, PartialEq, Eq, Hash)]
pub struct Vertex {
    pub x: Vec<char>,
    pub y: Vec<char>,
    pub z: Vec<char>,
}

/// The model of a vertex: its three coordinate texts.
pub open spec fn vertex_view(v: Vertex) -> (Seq<char>, Seq<char>, Seq<char>) {
    (v.x@, v.y@, v.z@)
}

impl Vertex {
    pub fn new(x: &str, y: &str, z: &str) -> (r: Vertex)
        ensures
            vertex_view(r) == (x@, y@, z@),
    {
        Vertex { x: chars_of(x), y: chars_of(y), z: chars_of(z) }
    }
}

/// The index of a vertex in a document's vertex storage.
#[derive(Debug, Clone, Copy, PartialEq, Eq, Structural, Hash)]
pub struct VertexRef(pub usize);

impl VertexRef {
    pub open spec fn spec_index(&self) -> usize {
        self.0
    }

    pub fn index(&self) -> (r: usize)
        ensures
            r == self.spec_index(),
    {
        self.0
    }
}

} // verus!
