//! Points, triangles and indexed triangle meshes.

use vstd::prelude::*;
use crate::math::{Vec3, ONE};

verus! {

/// A position in world or camera space, in 16.16 fixed point.
pub type Point3 = Vec3;

/// Three points, taken from a mesh when it is drawn.
#[derive(Clone, Copy, Debug)]
pub struct Triangle {
    pub a: Point3,
    pub b: Point3,
    pub c: Point3,
}

impl Triangle {
    /// The triangle with the given corners.
    pub fn new(a: Point3, b: Point3, c: Point3) -> (r: Triangle)
        ensures
            r == (Triangle { a, b, c }),
    {
        Triangle { a, b, c }
    }
}

/// Whether each index of each triple is below `count`.
pub open spec fn indices_fit(count: int, indices: Seq<[usize; 3]>) -> bool {
    forall|i: int, k: int| 0 <= i < indices.len() && 0 <= k < 3 ==> #[trigger] indices[i][k] < count
}

/// Decides whether every index triple refers to one of `count` vertices.
pub fn check_indices(count: usize, indices: &Vec<[usize; 3]>) -> (r: bool)
    ensures
        r == indices_fit(count as int, indices@),
{
    let mut i: usize = 0;
    while i < indices.len()
        invariant
            i <= indices.len(),
            indices_fit(count as int, indices@.take(i as int)),
        decreases indices.len() - i,
    {
        let t: [usize; 3] = indices[i];
        if t[0] >= count || t[1] >= count || t[2] >= count {
            return false;
        }
        proof {
            let before = indices@.take(i as int);
            let after = indices@.take(i + 1);
            assert forall|n: int, k: int| 0 <= n < after.len() && 0 <= k < 3 implies #[trigger] after[n][k]
                < count by {
                if n < i {
                    assert(after[n] == before[n]);
                }
            }
        }
        i = i + 1;
    }
    proof {
        assert(indices@.take(i as int) =~= indices@);
    }
    true
}

/// A list of vertices and a list of triangles, each a triple of positions in
/// the vertex list.
pub struct Mesh {
    pub vertices: Vec<Point3>,
    pub indices: Vec<[usize; 3]>,
}

impl Mesh {
    /// Whether every index triple refers to vertices of this mesh.
    pub open spec fn wf(&self) -> bool {
        indices_fit(self.vertices@.len() as int, self.indices@)
    }

    /// The triangle that the `i`-th index triple names.
    pub open spec fn triangle(&self, i: int) -> Triangle {
        Triangle {
            a: self.vertices@[self.indices@[i][0] as int],
            b: self.vertices@[self.indices@[i][1] as int],
            c: self.vertices@[self.indices@[i][2] as int],
        }
    }

    /// The mesh of the given vertices and index triples. An index that names
    /// no vertex is the caller's error.
    pub fn new(vertices: Vec<Point3>, indices: Vec<[usize; 3]>) -> (r: Mesh)
        requires
            indices_fit(vertices@.len() as int, indices@),
        ensures
            r.vertices == vertices,
            r.indices == indices,
            r.wf(),
    {
        Mesh { vertices, indices }
    }

    /// The triangles of the mesh, in the order of its index triples.
    pub fn triangles(&self) -> (r: Vec<Triangle>)
        requires
            self.wf(),
        ensures
            r@.len() == self.indices@.len(),
            forall|i: int| 0 <= i < r@.len() ==> r@[i] == self.triangle(i),
    {
        let mut out: Vec<Triangle> = Vec::new();
        let mut i: usize = 0;
        while i < self.indices.len()
            invariant
                self.wf(),
                i <= self.indices.len(),
                out@.len() == i,
                forall|n: int| 0 <= n < i ==> out@[n] == self.triangle(n),
            decreases self.indices.len() - i,
        {
            let t: [usize; 3] = self.indices[i];
            assert(self.indices@[i as int][0] < self.vertices@.len());
            assert(self.indices@[i as int][1] < self.vertices@.len());
            assert(self.indices@[i as int][2] < self.vertices@.len());
            out.push(Triangle::new(self.vertices[t[0]], self.vertices[t[1]], self.vertices[t[2]]));
            i = i + 1;
        }
        out
    }

    /// The corners of the cube that spans from -1 to 1 on each axis.
    pub open spec fn cube_vertices() -> Seq<Point3> {
        seq![
            Vec3 { x: (-ONE) as i32, y: (-ONE) as i32, z: (-ONE) as i32 },
            Vec3 { x: ONE, y: (-ONE) as i32, z: (-ONE) as i32 },
            Vec3 { x: ONE, y: ONE, z: (-ONE) as i32 },
            Vec3 { x: (-ONE) as i32, y: ONE, z: (-ONE) as i32 },
            Vec3 { x: (-ONE) as i32, y: (-ONE) as i32, z: ONE },
            Vec3 { x: ONE, y: (-ONE) as i32, z: ONE },
            Vec3 { x: ONE, y: ONE, z: ONE },
            Vec3 { x: (-ONE) as i32, y: ONE, z: ONE },
        ]
    }

    /// The twelve triangles of the cube, two for each face: front, back,
    /// left, right, top, bottom.
    pub open spec fn cube_faces() -> Seq<(int, int, int)> {
        seq![
            (4, 5, 6),
            (4, 6, 7),
            (1, 0, 3),
            (1, 3, 2),
            (0, 4, 7),
            (0, 7, 3),
            (5, 1, 2),
            (5, 2, 6),
            (7, 6, 2),
            (7, 2, 3),
            (0, 1, 5),
            (0, 5, 4),
        ]
    }

    /// The cube that spans from -1 to 1 on each axis.
    pub fn cube() -> (r: Mesh)
        ensures
            r.wf(),
            r.vertices@ == Mesh::cube_vertices(),
            r.indices@.len() == 12,
            forall|i: int|
                0 <= i < 12 ==> (
                r.indices@[i][0] as int,
                r.indices@[i][1] as int,
                r.indices@[i][2] as int,
            ) == #[trigger] Mesh::cube_faces()[i],
    {
        let mut vertices: Vec<Point3> = Vec::new();
        vertices.push(Vec3::new(-ONE, -ONE, -ONE));
        vertices.push(Vec3::new(ONE, -ONE, -ONE));
        vertices.push(Vec3::new(ONE, ONE, -ONE));
        vertices.push(Vec3::new(-ONE, ONE, -ONE));
        vertices.push(Vec3::new(-ONE, -ONE, ONE));
        vertices.push(Vec3::new(ONE, -ONE, ONE));
        vertices.push(Vec3::new(ONE, ONE, ONE));
        vertices.push(Vec3::new(-ONE, ONE, ONE));
        let mut indices: Vec<[usize; 3]> = Vec::new();
        indices.push([4, 5, 6]);
        indices.push([4, 6, 7]);
        indices.push([1, 0, 3]);
        indices.push([1, 3, 2]);
        indices.push([0, 4, 7]);
        indices.push([0, 7, 3]);
        indices.push([5, 1, 2]);
        indices.push([5, 2, 6]);
        indices.push([7, 6, 2]);
        indices.push([7, 2, 3]);
        indices.push([0, 1, 5]);
        indices.push([0, 5, 4]);
        assert(vertices@ =~= Mesh::cube_vertices());
        Mesh { vertices, indices }
    }
}

} // verus!
