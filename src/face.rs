use vstd::prelude::*;

use crate::color::Color;
use crate::vertex::{Vertex, VertexRef};

verus! {

/// A face: the indices of its vertices in order, and its color if it has one.
#[derive(Debug, Clone, PartialEq, Eq, Hash)]
pub struct FaceRef {
    pub vertex_refs: Vec<VertexRef>,
    pub color: Option<Color>,
}

/// The vertex indices of a face, in order.
pub open spec fn face_indices(f: FaceRef) -> Seq<int> {
    f.vertex_refs@.map_values(|v: VertexRef| v.0 as int)
}

/// The model of a face: its vertex indices and its color.
pub open spec fn face_view(f: FaceRef) -> (Seq<int>, Option<Color>) {
    (face_indices(f), f.color)
}

impl FaceRef {
    pub fn vertex_refs(&self) -> (r: &Vec<VertexRef>)
        ensures
            r@ == self.vertex_refs@,
    {
        &self.vertex_refs
    }

    pub fn color(&self) -> (r: Option<Color>)
        ensures
            r == self.color,
    {
        self.color
    }
}

/// A face with its vertices looked up.
#[derive(Debug, Clone, PartialEq, Eq)]
pub struct ResolvedFaceRef<'a> {
    pub vertices: Vec<&'a Vertex>,
    pub color: Option<&'a Color>,
}

} // verus!
