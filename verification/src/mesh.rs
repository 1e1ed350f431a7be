//! Indexed triangle meshes.
//!
//! A mesh is three flat arrays: three coordinates per vertex, three normal
//! components per vertex, and three vertex numbers per triangle. The scalar
//! type is left open: a mesh is built and moved here, never computed with.

use vstd::prelude::*;

verus! {

/// An indexed triangle mesh over the scalar type `S`.
pub struct Mesh<S> {
    pub vertices: Vec<S>,
    pub normals: Vec<S>,
    pub indices: Vec<u32>,
}

impl<S> Mesh<S> {
    /// Number of vertices.
    pub open spec fn vertex_count(&self) -> int {
        self.vertices@.len() as int / 3
    }

    /// Coordinate `k` of vertex `v`.
    pub open spec fn coord(&self, v: int, k: int) -> S {
        self.vertices@[3 * v + k]
    }

    /// Normal component `k` of vertex `v`.
    pub open spec fn normal(&self, v: int, k: int) -> S {
        self.normals@[3 * v + k]
    }

    /// Vertices and normals come in threes and are equally many, triangles
    /// are whole, and every triangle corner names a vertex.
    pub open spec fn wf(&self) -> bool {
        &&& self.vertices@.len() % 3 == 0
        &&& self.normals@.len() == self.vertices@.len()
        &&& self.indices@.len() % 3 == 0
        &&& forall|j: int|
            0 <= j < self.indices@.len() ==> (#[trigger] self.indices@[j]) < self.vertex_count()
    }

    /// The mesh without vertices or triangles.
    pub fn empty() -> (m: Mesh<S>)
        ensures
            m.wf(),
            m.vertices@.len() == 0,
            m.normals@.len() == 0,
            m.indices@.len() == 0,
    {
        Mesh { vertices: Vec::new(), normals: Vec::new(), indices: Vec::new() }
    }

    /// Whether the mesh is well formed.
    pub fn is_well_formed(&self) -> (ok: bool)
        ensures
            ok == self.wf(),
    {
        if self.vertices.len() % 3 != 0 || self.normals.len() != self.vertices.len()
            || self.indices.len() % 3 != 0 {
            return false;
        }
        let count = self.vertices.len() / 3;
        let mut j: usize = 0;
        while j < self.indices.len()
            invariant
                j <= self.indices@.len(),
                count == self.vertex_count(),
                forall|i: int| 0 <= i < j ==> (#[trigger] self.indices@[i]) < count,
            decreases self.indices@.len() - j,
        {
            if self.indices[j] as usize >= count {
                return false;
            }
            j += 1;
        }
        true
    }
}

} // verus!
