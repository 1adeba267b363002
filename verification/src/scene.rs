//! The scene: the meshes that a frame is rendered from.

use vstd::prelude::*;
use crate::geometry::{Mesh, Point3};
use crate::math::{Vec3, ONE};

verus! {

/// Number of cells along each side of the demo scene's ground grid.
pub const GRID_SIZE: usize = 20;

/// The `k`-th vertex of the ground grid: the grid has `GRID_SIZE + 1`
/// vertices in each row, one unit apart, is centred on the origin and lies
/// one unit below it.
pub open spec fn grid_vertex(k: int) -> Point3 {
    Vec3 {
        x: ((k % 21 - 10) * ONE) as i32,
        y: (-ONE) as i32,
        z: ((k / 21 - 10) * ONE) as i32,
    }
}

/// The `n`-th triangle of the ground grid. Each cell has two: the first
/// joins its first corner to the corner in the next row and to the next
/// corner in its own row, the second fills the rest of the cell.
pub open spec fn grid_face(n: int) -> (int, int, int) {
    let cell = n / 2;
    let corner = (cell / 20) * 21 + cell % 20;
    if n % 2 == 0 {
        (corner, corner + 21, corner + 1)
    } else {
        (corner + 1, corner + 21, corner + 22)
    }
}

/// The corners of the demo scene's cube, which stands on the origin plane
/// and is two units high.
pub open spec fn block_vertices() -> Seq<Point3> {
    seq![
        Vec3 { x: (-ONE) as i32, y: 0, z: (-ONE) as i32 },
        Vec3 { x: ONE, y: 0, z: (-ONE) as i32 },
        Vec3 { x: ONE, y: (2 * ONE) as i32, z: (-ONE) as i32 },
        Vec3 { x: (-ONE) as i32, y: (2 * ONE) as i32, z: (-ONE) as i32 },
        Vec3 { x: (-ONE) as i32, y: 0, z: ONE },
        Vec3 { x: ONE, y: 0, z: ONE },
        Vec3 { x: ONE, y: (2 * ONE) as i32, z: ONE },
        Vec3 { x: (-ONE) as i32, y: (2 * ONE) as i32, z: ONE },
    ]
}

/// The twelve triangles of the demo scene's cube, two for each face: back,
/// front, left, right, top, bottom.
pub open spec fn block_faces() -> Seq<(int, int, int)> {
    seq![
        (0, 1, 2),
        (2, 3, 0),
        (4, 5, 6),
        (6, 7, 4),
        (0, 4, 7),
        (7, 3, 0),
        (5, 1, 2),
        (2, 6, 5),
        (3, 7, 6),
        (6, 2, 3),
        (0, 1, 5),
        (5, 4, 0),
    ]
}

/// An index triple as three integers.
pub open spec fn triple(face: [usize; 3]) -> (int, int, int) {
    (face[0] as int, face[1] as int, face[2] as int)
}

/// Builds the ground grid of the demo scene.
fn grid() -> (r: Mesh)
    ensures
        r.wf(),
        r.vertices@.len() == 441,
        forall|k: int| 0 <= k < 441 ==> r.vertices@[k] == grid_vertex(k),
        r.indices@.len() == 800,
        forall|n: int| 0 <= n < 800 ==> triple(r.indices@[n]) == grid_face(n),
{
    let side: usize = GRID_SIZE + 1;
    let mut vertices: Vec<Point3> = Vec::new();
    let mut z: usize = 0;
    while z < side
        invariant
            side == 21,
            z <= side,
            vertices@.len() == z * 21,
            forall|k: int| 0 <= k < vertices@.len() ==> vertices@[k] == grid_vertex(k),
        decreases side - z,
    {
        let mut x: usize = 0;
        while x < side
            invariant
                side == 21,
                z < side,
                x <= side,
                vertices@.len() == z * 21 + x,
                forall|k: int| 0 <= k < vertices@.len() ==> vertices@[k] == grid_vertex(k),
            decreases side - x,
        {
            let half: i32 = (GRID_SIZE / 2) as i32;
            vertices.push(Vec3::new((x as i32 - half) * ONE, -ONE, (z as i32 - half) * ONE));
            x = x + 1;
        }
        z = z + 1;
    }
    let mut indices: Vec<[usize; 3]> = Vec::new();
    let mut z: usize = 0;
    while z < GRID_SIZE
        invariant
            side == 21,
            z <= GRID_SIZE,
            indices@.len() == 2 * (z * 20),
            forall|n: int| 0 <= n < indices@.len() ==> triple(#[trigger] indices@[n]) == grid_face(n),
        decreases GRID_SIZE - z,
    {
        let mut x: usize = 0;
        while x < GRID_SIZE
            invariant
                side == 21,
                z < GRID_SIZE,
                x <= GRID_SIZE,
                indices@.len() == 2 * (z * 20 + x),
                forall|n: int|
                    0 <= n < indices@.len() ==> triple(#[trigger] indices@[n]) == grid_face(n),
            decreases GRID_SIZE - x,
        {
            let i0: usize = z * side + x;
            let i1: usize = i0 + 1;
            let i2: usize = i0 + side;
            let i3: usize = i2 + 1;
            indices.push([i0, i2, i1]);
            indices.push([i1, i2, i3]);
            x = x + 1;
        }
        z = z + 1;
    }
    assert forall|i: int, k: int| 0 <= i < indices@.len() && 0 <= k < 3 implies #[trigger] indices@[i][k]
        < 441 by {
        assert(triple(indices@[i]) == grid_face(i));
    }
    Mesh { vertices, indices }
}

/// Builds the cube of the demo scene.
fn block() -> (r: Mesh)
    ensures
        r.wf(),
        r.vertices@ == block_vertices(),
        r.indices@.len() == 12,
        forall|n: int| 0 <= n < 12 ==> triple(r.indices@[n]) == #[trigger] block_faces()[n],
{
    let mut vertices: Vec<Point3> = Vec::new();
    vertices.push(Vec3::new(-ONE, 0, -ONE));
    vertices.push(Vec3::new(ONE, 0, -ONE));
    vertices.push(Vec3::new(ONE, 2 * ONE, -ONE));
    vertices.push(Vec3::new(-ONE, 2 * ONE, -ONE));
    vertices.push(Vec3::new(-ONE, 0, ONE));
    vertices.push(Vec3::new(ONE, 0, ONE));
    vertices.push(Vec3::new(ONE, 2 * ONE, ONE));
    vertices.push(Vec3::new(-ONE, 2 * ONE, ONE));
    let mut indices: Vec<[usize; 3]> = Vec::new();
    indices.push([0, 1, 2]);
    indices.push([2, 3, 0]);
    indices.push([4, 5, 6]);
    indices.push([6, 7, 4]);
    indices.push([0, 4, 7]);
    indices.push([7, 3, 0]);
    indices.push([5, 1, 2]);
    indices.push([2, 6, 5]);
    indices.push([3, 7, 6]);
    indices.push([6, 2, 3]);
    indices.push([0, 1, 5]);
    indices.push([5, 4, 0]);
    assert(vertices@ =~= block_vertices());
    Mesh { vertices, indices }
}

/// An ordered list of meshes. Meshes are added while the scene is built and
/// only read while it is rendered.
pub struct Scene {
    pub meshes: Vec<Mesh>,
}

impl Scene {
    /// Whether every mesh of the scene is well formed.
    pub open spec fn wf(&self) -> bool {
        forall|i: int| 0 <= i < self.meshes@.len() ==> (#[trigger] self.meshes@[i]).wf()
    }

    /// The scene without meshes.
    pub fn new() -> (r: Scene)
        ensures
            r.meshes@.len() == 0,
            r.wf(),
    {
        Scene { meshes: Vec::new() }
    }

    /// Appends a mesh.
    pub fn add_mesh(&mut self, mesh: Mesh)
        ensures
            final(self).meshes@ == old(self).meshes@.push(mesh),
            old(self).wf() && mesh.wf() ==> final(self).wf(),
    {
        self.meshes.push(mesh);
    }

    /// The demo scene: a ground grid of `GRID_SIZE` by `GRID_SIZE` cells, and
    /// a cube that stands on the origin plane.
    pub fn demomap() -> (r: Scene)
        ensures
            r.wf(),
            r.meshes@.len() == 2,
            r.meshes@[0].vertices@.len() == 441,
            forall|k: int| 0 <= k < 441 ==> r.meshes@[0].vertices@[k] == grid_vertex(k),
            r.meshes@[0].indices@.len() == 800,
            forall|n: int| 0 <= n < 800 ==> triple(r.meshes@[0].indices@[n]) == grid_face(n),
            r.meshes@[1].vertices@ == block_vertices(),
            r.meshes@[1].indices@.len() == 12,
            forall|n: int|
                0 <= n < 12 ==> triple(r.meshes@[1].indices@[n]) == #[trigger] block_faces()[n],
    {
        let mut map: Scene = Scene::new();
        map.add_mesh(grid());
        map.add_mesh(block());
        map
    }
}

} // verus!
