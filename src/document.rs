use std::marker::PhantomData;

use vstd::prelude::*;

use crate::color::Color;
use crate::face::{FaceRef, ResolvedFaceRef};
use crate::vertex::{Vertex, VertexRef};

verus! {

/// A vertex index that a face holds and that is no index of the document's
/// vertices.
#[derive(Debug, Clone, Copy, PartialEq, Eq, Structural, Hash)]
pub struct ValidationError(pub usize);

pub trait Sealed {
}

/// The state of a document: `Unchecked` or `Checked`.
pub trait State: Sealed {
    /// Whether every vertex index of a document in this state is known to be
    /// in range.
    spec fn checked() -> bool;
}

/// Documents whose vertex indices have not been checked.
#[derive(Debug)]
pub struct Unchecked;

impl Sealed for Unchecked {
}

impl State for Unchecked {
    open spec fn checked() -> bool {
        false
    }
}

/// Documents whose vertex indices are all in range.
#[derive(Debug)]
pub struct Checked;

impl Sealed for Checked {
}

impl State for Checked {
    open spec fn checked() -> bool {
        true
    }
}

/// Whether every vertex index of every face is below `n`.
pub open spec fn refs_in_range(faces: Seq<FaceRef>, n: int) -> bool {
    forall|i: int, j: int|
        0 <= i < faces.len() && 0 <= j < faces[i].vertex_refs@.len() ==> (
        #[trigger] faces[i].vertex_refs@[j]).0 < n
}

/// Whether the vertex index at position `j` of face `i` is the first one,
/// in declaration order, that is not below `n`.
pub open spec fn first_out_of_range(faces: Seq<FaceRef>, n: int, i: int, j: int) -> bool {
    &&& 0 <= i < faces.len()
    &&& 0 <= j < faces[i].vertex_refs@.len()
    &&& faces[i].vertex_refs@[j].0 >= n
    &&& forall|k: int, l: int|
        0 <= k < faces.len() && 0 <= l < faces[k].vertex_refs@.len() && (k < i || (k == i && l
            < j)) ==> (#[trigger] faces[k].vertex_refs@[l]).0 < n
}

/// Whether face `f` refers to the vertices `s`, `s + 1`, ... in order.
pub open spec fn run_from(f: FaceRef, s: int) -> bool {
    forall|k: int| 0 <= k < f.vertex_refs@.len() ==> (#[trigger] f.vertex_refs@[k]).0 == s + k
}

/// Whether face `f` refers to a run of consecutive vertices, all below `n`.
pub open spec fn is_run(f: FaceRef, n: int) -> bool {
    exists|s: int| 0 <= s && s + f.vertex_refs@.len() <= n && #[trigger] run_from(f, s)
}

/// Whether every face refers to a run of consecutive stored vertices: the
/// shape of what a builder holds.
pub open spec fn faces_are_runs(vs: Seq<Vertex>, fs: Seq<FaceRef>) -> bool {
    forall|i: int| 0 <= i < fs.len() ==> #[trigger] is_run(fs[i], vs.len() as int)
}

proof fn lemma_runs_grow(vs: Seq<Vertex>, ws: Seq<Vertex>, fs: Seq<FaceRef>)
    requires
        faces_are_runs(vs, fs),
        vs.len() <= ws.len(),
    ensures
        faces_are_runs(ws, fs),
{
    assert forall|i: int| 0 <= i < fs.len() implies #[trigger] is_run(fs[i], ws.len() as int) by {
        assert(is_run(fs[i], vs.len() as int));
    }
}

/// Every document of the shape that a builder makes has its vertex indices
/// in range, so it passes validation.
pub proof fn law_built_documents_validate(vs: Seq<Vertex>, fs: Seq<FaceRef>)
    requires
        faces_are_runs(vs, fs),
    ensures
        refs_in_range(fs, vs.len() as int),
{
    assert forall|i: int, j: int|
        0 <= i < fs.len() && 0 <= j < fs[i].vertex_refs@.len() implies (
        #[trigger] fs[i].vertex_refs@[j]).0 < vs.len() by {
        assert(is_run(fs[i], vs.len() as int));
        let s = choose|s: int|
            0 <= s && s + fs[i].vertex_refs@.len() <= vs.len() && #[trigger] run_from(fs[i], s);
        assert(fs[i].vertex_refs@[j].0 == s + j);
    }
}

/// A mesh: vertices, faces that refer to them by index, and the edge count
/// that was declared, if any. A `Checked` document has all its vertex
/// indices in range and is never changed.
#[derive(Debug)]
pub struct Document<S: State> {
    vertices: Vec<Vertex>,
    face_refs: Vec<FaceRef>,
    edge_count: Option<u64>,
    marker: PhantomData<S>,
}

impl<S: State> View for Document<S> {
    type V = (Seq<Vertex>, Seq<FaceRef>, Option<u64>);

    closed spec fn view(&self) -> (Seq<Vertex>, Seq<FaceRef>, Option<u64>) {
        (self.vertices@, self.face_refs@, self.edge_count)
    }
}

impl<S: State> Document<S> {
    #[verifier::type_invariant]
    closed spec fn inv(&self) -> bool {
        S::checked() ==> refs_in_range(self.face_refs@, self.vertices@.len() as int)
    }

    pub fn vertices(&self) -> (r: &Vec<Vertex>)
        ensures
            r@ == self@.0,
    {
        &self.vertices
    }

    pub fn face_refs(&self) -> (r: &Vec<FaceRef>)
        ensures
            r@ == self@.1,
            S::checked() ==> refs_in_range(self@.1, self@.0.len() as int),
    {
        proof {
            use_type_invariant(self);
        }
        &self.face_refs
    }

    pub fn edge_count(&self) -> (r: Option<u64>)
        ensures
            r == self@.2,
    {
        self.edge_count
    }
}

impl Document<Unchecked> {
    pub fn new(vertices: Vec<Vertex>, face_refs: Vec<FaceRef>, edge_count: Option<u64>) -> (r:
        Self)
        ensures
            r@ == (vertices@, face_refs@, edge_count),
    {
        Document { vertices, face_refs, edge_count, marker: PhantomData }
    }

    /// Checks every vertex index of every face, in declaration order, and
    /// fails on the first that is out of range.
    pub fn validate(self) -> (r: Result<Document<Checked>, ValidationError>)
        ensures
            r is Ok <==> refs_in_range(self@.1, self@.0.len() as int),
            r matches Ok(d) ==> d@ == self@,
            r matches Err(e) ==> exists|i: int, j: int|
                first_out_of_range(self@.1, self@.0.len() as int, i, j) && (
                #[trigger] self@.1[i].vertex_refs@[j]).0 == e.0,
    {
        let n = self.vertices.len();
        let mut i: usize = 0;
        while i < self.face_refs.len()
            invariant
                i <= self.face_refs.len(),
                n == self.vertices.len(),
                forall|k: int, l: int|
                    0 <= k < i && 0 <= l < self.face_refs@[k].vertex_refs@.len() ==> (
                    #[trigger] self.face_refs@[k].vertex_refs@[l]).0 < n,
            decreases self.face_refs.len() - i,
        {
            let refs = &self.face_refs[i].vertex_refs;
            let mut j: usize = 0;
            while j < refs.len()
                invariant
                    i < self.face_refs.len(),
                    j <= refs.len(),
                    refs@ == self.face_refs@[i as int].vertex_refs@,
                    n == self.vertices.len(),
                    forall|k: int, l: int|
                        0 <= k < i && 0 <= l < self.face_refs@[k].vertex_refs@.len() ==> (
                        #[trigger] self.face_refs@[k].vertex_refs@[l]).0 < n,
                    forall|l: int| 0 <= l < j ==> (#[trigger] refs@[l]).0 < n,
                decreases refs.len() - j,
            {
                if refs[j].0 >= n {
                    assert(first_out_of_range(self@.1, n as int, i as int, j as int));
                    return Err(ValidationError(refs[j].0));
                }
                j = j + 1;
            }
            i = i + 1;
        }
        Ok(Document {
            vertices: self.vertices,
            face_refs: self.face_refs,
            edge_count: self.edge_count,
            marker: PhantomData,
        })
    }
}

/// Builds a checked document from vertex values: each face's vertices are
/// stored as they are given, and the face refers to them.
#[derive(Debug)]
pub struct CheckedDocumentBuilder {
    vertices: Vec<Vertex>,
    face_refs: Vec<FaceRef>,
    edge_count: Option<u64>,
}

impl View for CheckedDocumentBuilder {
    type V = (Seq<Vertex>, Seq<FaceRef>, Option<u64>);

    closed spec fn view(&self) -> (Seq<Vertex>, Seq<FaceRef>, Option<u64>) {
        (self.vertices@, self.face_refs@, self.edge_count)
    }
}

impl CheckedDocumentBuilder {
    #[verifier::type_invariant]
    closed spec fn inv(&self) -> bool {
        faces_are_runs(self.vertices@, self.face_refs@)
    }

    pub fn new() -> (r: Self)
        ensures
            faces_are_runs(r@.0, r@.1),
            r@ == (Seq::<Vertex>::empty(), Seq::<FaceRef>::empty(), None::<u64>),
    {
        CheckedDocumentBuilder { vertices: Vec::new(), face_refs: Vec::new(), edge_count: None }
    }

    pub fn add_vertex(self, vertex: Vertex) -> (r: Self)
        ensures
            faces_are_runs(r@.0, r@.1),
            r@ == (self@.0.push(vertex), self@.1, self@.2),
    {
        proof {
            use_type_invariant(&self);
        }
        let CheckedDocumentBuilder { mut vertices, face_refs, edge_count } = self;
        vertices.push(vertex);
        proof {
            lemma_runs_grow(self@.0, vertices@, face_refs@);
        }
        CheckedDocumentBuilder { vertices, face_refs, edge_count }
    }

    /// Appends the given vertices to the storage and a face that refers to
    /// them, in order, with the given color.
    pub fn add_face(self, vertices: Vec<Vertex>, color: Option<Color>) -> (r: Self)
        ensures
            faces_are_runs(r@.0, r@.1),
            r@.0 == self@.0 + vertices@,
            r@.1.len() == self@.1.len() + 1,
            r@.1.drop_last() == self@.1,
            r@.1.last().color == color,
            r@.1.last().vertex_refs@.len() == vertices@.len(),
            forall|k: int|
                0 <= k < vertices@.len() ==> (#[trigger] r@.1.last().vertex_refs@[k]).0 == self@.0.len()
                    + k,
            r@.2 == self@.2,
    {
        proof {
            use_type_invariant(&self);
        }
        let CheckedDocumentBuilder { vertices: mut storage, mut face_refs, edge_count } = self;
        let ghost old_storage = storage@;
        let ghost given = vertices@;
        let mut refs: Vec<VertexRef> = Vec::new();
        for v in it: vertices
            invariant
                storage@ == old_storage + it.history(),
                refs@.len() == it.history().len(),
                forall|m: int|
                    0 <= m < refs@.len() ==> (#[trigger] refs@[m]).0 == old_storage.len() + m,
        {
            let index = storage.len();
            storage.push(v);
            refs.push(VertexRef(index));
        }
        assert(storage@ =~= old_storage + given);
        let ghost old_faces = face_refs@;
        face_refs.push(FaceRef { vertex_refs: refs, color });
        proof {
            assert(face_refs@.drop_last() =~= old_faces);
            lemma_runs_grow(old_storage, storage@, old_faces);
            assert(is_run(face_refs@.last(), storage@.len() as int)) by {
                assert(run_from(face_refs@.last(), old_storage.len() as int));
            }
            assert forall|i: int| 0 <= i < face_refs@.len() implies #[trigger] is_run(
                face_refs@[i],
                storage@.len() as int,
            ) by {
                if i < old_faces.len() {
                    assert(face_refs@[i] == old_faces[i]);
                }
            }
        }
        CheckedDocumentBuilder { vertices: storage, face_refs, edge_count }
    }

    pub fn set_edge_count(self, edge_count: Option<u64>) -> (r: Self)
        ensures
            faces_are_runs(r@.0, r@.1),
            r@ == (self@.0, self@.1, edge_count),
    {
        proof {
            use_type_invariant(&self);
        }
        let CheckedDocumentBuilder { vertices, face_refs, edge_count: _ } = self;
        CheckedDocumentBuilder { vertices, face_refs, edge_count }
    }

    /// The document, without any check of its indices: they are in range by
    /// construction.
    pub fn finish(self) -> (r: Document<Checked>)
        ensures
            faces_are_runs(r@.0, r@.1),
            refs_in_range(r@.1, r@.0.len() as int),
            r@ == self@,
    {
        proof {
            use_type_invariant(&self);
            law_built_documents_validate(self@.0, self@.1);
        }
        let CheckedDocumentBuilder { vertices, face_refs, edge_count } = self;
        Document { vertices, face_refs, edge_count, marker: PhantomData }
    }
}

/// Whether `r` is face `f` of a document with vertices `vs`, its vertices
/// looked up in order.
pub open spec fn resolves(r: ResolvedFaceRef, f: FaceRef, vs: Seq<Vertex>) -> bool {
    &&& r.vertices@.len() == f.vertex_refs@.len()
    &&& forall|k: int|
        0 <= k < r.vertices@.len() ==> *(#[trigger] r.vertices@[k]) == vs[f.vertex_refs@[k].0 as int]
    &&& match r.color {
        Some(c) => f.color == Some(*c),
        None => f.color is None,
    }
}

impl Document<Checked> {
    pub fn build() -> (r: CheckedDocumentBuilder)
        ensures
            r@ == (Seq::<Vertex>::empty(), Seq::<FaceRef>::empty(), None::<u64>),
    {
        CheckedDocumentBuilder::new()
    }

    /// Face `i` with its vertices looked up.
    pub fn resolve(&self, i: usize) -> (r: ResolvedFaceRef<'_>)
        requires
            i < self@.1.len(),
        ensures
            resolves(r, self@.1[i as int], self@.0),
    {
        proof {
            use_type_invariant(self);
        }
        let face = &self.face_refs[i];
        let mut vertices: Vec<&Vertex> = Vec::new();
        let mut k: usize = 0;
        while k < face.vertex_refs.len()
            invariant
                k <= face.vertex_refs.len(),
                face == &self.face_refs@[i as int],
                refs_in_range(self.face_refs@, self.vertices@.len() as int),
                i < self.face_refs@.len(),
                vertices@.len() == k,
                forall|m: int|
                    0 <= m < k ==> *(#[trigger] vertices@[m]) == self.vertices@[face.vertex_refs@[m].0 as int],
            decreases face.vertex_refs.len() - k,
        {
            let index = face.vertex_refs[k].0;
            assert(self.face_refs@[i as int].vertex_refs@[k as int].0 < self.vertices@.len());
            vertices.push(&self.vertices[index]);
            k = k + 1;
        }
        let color = match &face.color {
            Some(c) => Some(c),
            None => None,
        };
        ResolvedFaceRef { vertices, color }
    }

    /// Every face with its vertices looked up, in declaration order.
    pub fn resolved_faces(&self) -> (r: Vec<ResolvedFaceRef<'_>>)
        ensures
            r@.len() == self@.1.len(),
            forall|i: int| 0 <= i < r@.len() ==> resolves(#[trigger] r@[i], self@.1[i], self@.0),
    {
        let mut r: Vec<ResolvedFaceRef<'_>> = Vec::new();
        let mut i: usize = 0;
        while i < self.face_refs.len()
            invariant
                i <= self@.1.len(),
                self.face_refs@ == self@.1,
                r@.len() == i,
                forall|k: int| 0 <= k < i ==> resolves(#[trigger] r@[k], self@.1[k], self@.0),
            decreases self@.1.len() - i,
        {
            r.push(self.resolve(i));
            i = i + 1;
        }
        r
    }

    pub fn face_iter(&self) -> (r: FaceIter<'_>)
        ensures
            r.document() == self,
            r.position() == 0,
    {
        FaceIter::new(self)
    }
}

/// Walks the faces of a checked document in order, each with its vertices
/// looked up.
pub struct FaceIter<'a> {
    document: &'a Document<Checked>,
    face_index: usize,
}

impl<'a> FaceIter<'a> {
    pub closed spec fn document(&self) -> &'a Document<Checked> {
        self.document
    }

    /// How many faces have been handed out.
    pub closed spec fn position(&self) -> int {
        self.face_index as int
    }

    pub fn new(document: &'a Document<Checked>) -> (r: Self)
        ensures
            r.document() == document,
            r.position() == 0,
    {
        FaceIter { document, face_index: 0 }
    }

    /// The next face, or `None` once every face has been handed out.
    pub fn next(&mut self) -> (r: Option<ResolvedFaceRef<'a>>)
        ensures
            final(self).document() == old(self).document(),
            old(self).position() < old(self).document()@.1.len() ==> {
                &&& final(self).position() == old(self).position() + 1
                &&& r matches Some(f) && resolves(
                    f,
                    old(self).document()@.1[old(self).position()],
                    old(self).document()@.0,
                )
            },
            old(self).position() >= old(self).document()@.1.len() ==> r is None
                && final(self).position() == old(self).position(),
    {
        if self.face_index < self.document.face_refs.len() {
            let f = self.document.resolve(self.face_index);
            self.face_index = self.face_index + 1;
            Some(f)
        } else {
            None
        }
    }
}

} // verus!
