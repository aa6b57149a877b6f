//! Triangles of a mesh, as the ray caster reads them. `V` is a vertex.

use vstd::prelude::*;

verus! {

pub struct Triangle<V> {
    pub v0: V,
    pub v1: V,
    pub v2: V,
}

impl<V: Copy> Triangle<V> {
    pub fn new(v0: V, v1: V, v2: V) -> (r: Self)
        ensures
            r.v0 == v0 && r.v1 == v1 && r.v2 == v2,
    {
        Triangle { v0, v1, v2 }
    }

    /// The triangle of the first three vertices of a slice, which must hold
    /// at least three.
    pub fn from_slice(vertices: &[V]) -> (r: Self)
        requires
            vertices@.len() >= 3,
        ensures
            r.v0 == vertices@[0] && r.v1 == vertices@[1] && r.v2 == vertices@[2],
    {
        Triangle { v0: vertices[0], v1: vertices[1], v2: vertices[2] }
    }

    /// The triangle of three vertices.
    pub fn from_array(vertices: [V; 3]) -> (r: Self)
        ensures
            r.v0 == vertices@[0] && r.v1 == vertices@[1] && r.v2 == vertices@[2],
    {
        Triangle { v0: vertices[0], v1: vertices[1], v2: vertices[2] }
    }
}

} // verus!
