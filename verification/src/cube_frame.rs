//! The frame that `render` gives for the cube seen head-on: one filled
//! square, centred on the screen.

use vstd::prelude::*;
use vstd::arithmetic::div_mod::lemma_fundamental_div_mod_converse_div;
use crate::camera::Camera;
use crate::geometry::Mesh;
use crate::math::{blended, Angle, Vec3, ONE};
use crate::projection::{projected_at, projected_through, Lens};
use crate::renderer::{
    drawn_all, face_triangle, gathered, lemma_slot, mesh_gathered, mesh_look, on_viewport,
    painters_order, posed, seen, slot, Look, RenderMode, ScreenTriangle, MESH_COLOR,
    MESH_DISTANCE, PIXEL_DISTANCE,
};
use crate::screen::{painted, triangle_painted, HEIGHT, WIDTH};
use crate::shape::{covers, edge, lemma_covered_in_box, pt};

verus! {

/// Whether some triangle of the list covers the pixel `p`.
pub open spec fn any_covers(s: Seq<ScreenTriangle>, p: (int, int)) -> bool {
    exists|i: int| 0 <= i < s.len() && #[trigger] covers(pt(s[i].a), pt(s[i].b), pt(s[i].c), p)
}

/// A list with one more triangle covers what the list covered and what the
/// new triangle covers.
pub proof fn lemma_any_covers_insert(
    s: Seq<ScreenTriangle>,
    k: int,
    t: ScreenTriangle,
    p: (int, int),
)
    requires
        0 <= k <= s.len(),
    ensures
        any_covers(s.insert(k, t), p) <==> any_covers(s, p) || covers(pt(t.a), pt(t.b), pt(t.c), p),
{
    let u = s.insert(k, t);
    if any_covers(u, p) {
        let i = choose|i: int| 0 <= i < u.len() && #[trigger] covers(pt(u[i].a), pt(u[i].b), pt(u[i].c), p);
        if i < k {
            assert(u[i] == s[i]);
            assert(covers(pt(s[i].a), pt(s[i].b), pt(s[i].c), p));
        } else if i > k {
            assert(u[i] == s[i - 1]);
            assert(covers(pt(s[i - 1].a), pt(s[i - 1].b), pt(s[i - 1].c), p));
        } else {
            assert(u[i] == t);
        }
    }
    if covers(pt(t.a), pt(t.b), pt(t.c), p) {
        assert(u[k] == t);
        assert(covers(pt(u[k].a), pt(u[k].b), pt(u[k].c), p));
    }
    if any_covers(s, p) {
        let j = choose|j: int| 0 <= j < s.len() && #[trigger] covers(pt(s[j].a), pt(s[j].b), pt(s[j].c), p);
        if j < k {
            assert(u[j] == s[j]);
            assert(covers(pt(u[j].a), pt(u[j].b), pt(u[j].c), p));
        } else {
            assert(u[j + 1] == s[j]);
            assert(covers(pt(u[j + 1].a), pt(u[j + 1].b), pt(u[j + 1].c), p));
        }
    }
}

/// The painter's order covers the pixels that the list covers.
pub proof fn lemma_order_covers(s: Seq<ScreenTriangle>, p: (int, int))
    ensures
        any_covers(painters_order(s), p) == any_covers(s, p),
    decreases s.len(),
{
    if s.len() > 0 {
        let init = s.drop_last();
        let t = s.last();
        let rest = painters_order(init);
        lemma_order_covers(init, p);
        lemma_slot(rest, t.depth as int);
        lemma_any_covers_insert(rest, slot(rest, t.depth as int), t, p);
        lemma_any_covers_insert(init, s.len() - 1, t, p);
        assert(init.insert(s.len() - 1, t) =~= s);
    } else {
        assert(painters_order(s) =~= s);
    }
}

/// Filled in one colour, a list of triangles paints the pixels that any of
/// them covers, in whatever order they are drawn.
pub proof fn lemma_one_colour(
    frame: Seq<u32>,
    width: int,
    height: int,
    s: Seq<ScreenTriangle>,
    color: u32,
)
    requires
        forall|i: int| 0 <= i < s.len() ==> s[i].mode == RenderMode::Filled && s[i].color == color,
    ensures
        drawn_all(frame, width, height, s) == painted(
            frame,
            width,
            height,
            |x: int, y: int| any_covers(s, (x, y)),
            color,
        ),
    decreases s.len(),
{
    let all = painted(frame, width, height, |x: int, y: int| any_covers(s, (x, y)), color);
    if s.len() == 0 {
        assert(drawn_all(frame, width, height, s) =~= all);
    } else {
        let init = s.drop_last();
        let t = s.last();
        assert forall|i: int| 0 <= i < init.len() implies init[i].mode == RenderMode::Filled
            && init[i].color == color by {
            assert(init[i] == s[i]);
        }
        lemma_one_colour(frame, width, height, init, color);
        let before = painted(
            frame,
            width,
            height,
            |x: int, y: int| any_covers(init, (x, y)),
            color,
        );
        let after = triangle_painted(before, width, height, pt(t.a), pt(t.b), pt(t.c), color);
        assert(drawn_all(frame, width, height, s) == after);
        assert(init.insert(s.len() - 1, t) =~= s);
        assert forall|k: int| 0 <= k < all.len() implies after[k] == all[k] by {
            lemma_any_covers_insert(init, s.len() - 1, t, (k % width, k / width));
        }
        assert(after =~= all);
    }
}

/// When no face reaches behind the near plane, every face is gathered.
pub proof fn lemma_gathered_visible(
    vertices: Seq<Vec3>,
    indices: Seq<[usize; 3]>,
    cam: Camera,
    lens: Lens,
    width: int,
    height: int,
    look: Look,
    n: nat,
)
    requires
        forall|i: int|
            0 <= i < n ==> (#[trigger] on_viewport(
                seen(cam, face_triangle(vertices, indices[i])),
                lens,
                width,
                height,
                look.mode,
                look.color_of(i),
            )).is_some(),
    ensures
        gathered(vertices, indices, cam, lens, width, height, look, n).len() == n,
        forall|i: int|
            0 <= i < n ==> Some(
                #[trigger] gathered(vertices, indices, cam, lens, width, height, look, n)[i],
            ) == on_viewport(
                seen(cam, face_triangle(vertices, indices[i])),
                lens,
                width,
                height,
                look.mode,
                look.color_of(i),
            ),
    decreases n,
{
    if n > 0 {
        lemma_gathered_visible(vertices, indices, cam, lens, width, height, look, (n - 1) as nat);
        assert(on_viewport(
            seen(cam, face_triangle(vertices, indices[n - 1])),
            lens,
            width,
            height,
            look.mode,
            look.color_of(n - 1),
        ).is_some());
    }
}

/// The camera at the origin that looks along the z axis.
pub open spec fn still_camera() -> Camera {
    Camera { pos: Vec3 { x: 0, y: 0, z: 0 }, yaw: no_turn(), pitch: no_turn() }
}

/// The angle of no rotation.
pub open spec fn no_turn() -> Angle {
    Angle { sin: 0, cos: ONE }
}

/// With the cosine one and the sine zero, a blend is its first value, and
/// with them exchanged its second.
pub proof fn lemma_blend_plain(u: i32, v: int)
    ensures
        blended(u as int, ONE as int, v, 0) == u,
        blended(v, 0, u as int, ONE as int) == u,
{
    assert(v * 0 == 0);
    lemma_fundamental_div_mod_converse_div(u * 65536, 65536, u as int, 0);
}

/// The still camera sees every point where it is, and no turn leaves every
/// vector as it is.
pub proof fn lemma_still(v: Vec3)
    ensures
        still_camera().transformed(v) == v,
        v.turned_x(no_turn()).turned_y(no_turn()) == v,
{
    lemma_blend_plain(v.x, v.z as int);
    lemma_blend_plain(v.z, -(v.x as int));
    lemma_blend_plain(v.y, -(v.z as int));
    lemma_blend_plain(v.z, v.y as int);
    assert(no_turn().reversed() == no_turn());
}

/// Whether a pixel lies in the square that the near face of the cube
/// projects to: fifty pixels to each side of the centre of the screen.
pub open spec fn in_near_face(x: int, y: int) -> bool {
    270 <= x <= 370 && 190 <= y <= 290
}

/// Whether `v` is a corner of the cube that spans from -1 to 1.
pub open spec fn is_corner(v: Vec3) -> bool {
    &&& v.x == ONE || v.x == -ONE
    &&& v.y == ONE || v.y == -ONE
    &&& v.z == ONE || v.z == -ONE
}

/// Where `render` puts a corner of the cube, seen by the still camera with
/// no turn of the cube.
#[verifier::opaque]
pub open spec fn corner_pixel(v: Vec3) -> Option<(i32, i32)> {
    projected_through(
        still_camera().transformed(
            v.turned_x(no_turn()).turned_y(no_turn()).plus(Vec3 { x: 0, y: 0, z: MESH_DISTANCE }),
        ),
        Lens::Distance(PIXEL_DISTANCE),
        WIDTH as int,
        HEIGHT as int,
    )
}

/// Every corner of the cube lands in the square of the near face, and the
/// corners of the near face land on the corners of the square.
pub proof fn lemma_corner_pixel(v: Vec3)
    requires
        is_corner(v),
    ensures
        corner_pixel(v).is_some(),
        in_near_face(corner_pixel(v).unwrap().0 as int, corner_pixel(v).unwrap().1 as int),
        v.z == -ONE ==> corner_pixel(v) == Some(
            (
                if v.x == ONE {
                    370i32
                } else {
                    270i32
                },
                if v.y == ONE {
                    190i32
                } else {
                    290i32
                },
            ),
        ),
{
    reveal(corner_pixel);
    let placed = v.turned_x(no_turn()).turned_y(no_turn()).plus(
        Vec3 { x: 0, y: 0, z: MESH_DISTANCE },
    );
    lemma_still(v);
    lemma_still(placed);
    assert(placed == Vec3 { x: v.x, y: v.y, z: (v.z + 5 * ONE) as i32 });
    let z = placed.z as int;
    assert(z == 262144 || z == 393216);
    assert(200 * 65536 / 262144 == 50 && 200 * 65536 / 393216 == 33);
    assert(corner_pixel(v) == projected_at(placed, 200, 640, 480));
}

/// Whether the vertices and index triples are those of `Mesh::cube`.
pub open spec fn is_cube(vertices: Seq<Vec3>, indices: Seq<[usize; 3]>) -> bool {
    &&& vertices == Mesh::cube_vertices()
    &&& indices.len() == 12
    &&& forall|i: int|
        0 <= i < 12 ==> (indices[i][0] as int, indices[i][1] as int, indices[i][2] as int)
            == #[trigger] Mesh::cube_faces()[i]
}

/// The screen triangles of the cube, rendered with no turn of its own for
/// the still camera.
pub open spec fn cube_triangles(vertices: Seq<Vec3>, indices: Seq<[usize; 3]>) -> Seq<
    ScreenTriangle,
> {
    mesh_gathered(vertices, indices, still_camera(), (no_turn(), no_turn()))
}

/// The screen triangle of one face of the cube, if it is on the screen.
#[verifier::opaque]
pub open spec fn cube_face(vertices: Seq<Vec3>, indices: Seq<[usize; 3]>, i: int) -> Option<
    ScreenTriangle,
> {
    on_viewport(
        seen(still_camera(), face_triangle(posed(vertices, (no_turn(), no_turn())), indices[i])),
        Lens::Distance(PIXEL_DISTANCE),
        WIDTH as int,
        HEIGHT as int,
        mesh_look().mode,
        mesh_look().color_of(i),
    )
}

/// Each face of the cube is on the screen, filled in `MESH_COLOR`, with its
/// corners where `corner_pixel` puts them.
proof fn lemma_cube_face(vertices: Seq<Vec3>, indices: Seq<[usize; 3]>, i: int)
    requires
        is_cube(vertices, indices),
        0 <= i < 12,
    ensures
        0 <= indices[i][0] < 8,
        0 <= indices[i][1] < 8,
        0 <= indices[i][2] < 8,
        is_corner(vertices[indices[i][0] as int]),
        is_corner(vertices[indices[i][1] as int]),
        is_corner(vertices[indices[i][2] as int]),
        cube_face(vertices, indices, i).is_some(),
        Some(cube_face(vertices, indices, i).unwrap().a) == corner_pixel(
            vertices[indices[i][0] as int],
        ),
        Some(cube_face(vertices, indices, i).unwrap().b) == corner_pixel(
            vertices[indices[i][1] as int],
        ),
        Some(cube_face(vertices, indices, i).unwrap().c) == corner_pixel(
            vertices[indices[i][2] as int],
        ),
        cube_face(vertices, indices, i).unwrap().mode == RenderMode::Filled,
        cube_face(vertices, indices, i).unwrap().color == MESH_COLOR,
{
    assert((indices[i][0] as int, indices[i][1] as int, indices[i][2] as int)
        == Mesh::cube_faces()[i]);
    let ja = indices[i][0] as int;
    let jb = indices[i][1] as int;
    let jc = indices[i][2] as int;
    assert(0 <= ja < 8 && 0 <= jb < 8 && 0 <= jc < 8);
    assert(is_corner(vertices[ja]) && is_corner(vertices[jb]) && is_corner(vertices[jc]));
    lemma_corner_pixel(vertices[ja]);
    lemma_corner_pixel(vertices[jb]);
    lemma_corner_pixel(vertices[jc]);
    reveal(corner_pixel);
    reveal(cube_face);
}

/// The cube has twelve screen triangles, one for each face.
proof fn lemma_cube_triangles(vertices: Seq<Vec3>, indices: Seq<[usize; 3]>)
    requires
        is_cube(vertices, indices),
    ensures
        cube_triangles(vertices, indices).len() == 12,
        forall|i: int|
            0 <= i < 12 ==> Some(#[trigger] cube_triangles(vertices, indices)[i]) == cube_face(
                vertices,
                indices,
                i,
            ),
{
    reveal(cube_face);
    let placed = posed(vertices, (no_turn(), no_turn()));
    assert forall|i: int| 0 <= i < 12 implies (#[trigger] on_viewport(
        seen(still_camera(), face_triangle(placed, indices[i])),
        Lens::Distance(PIXEL_DISTANCE),
        WIDTH as int,
        HEIGHT as int,
        mesh_look().mode,
        mesh_look().color_of(i),
    )).is_some() by {
        lemma_cube_face(vertices, indices, i);
    }
    lemma_gathered_visible(
        placed,
        indices,
        still_camera(),
        Lens::Distance(PIXEL_DISTANCE),
        WIDTH as int,
        HEIGHT as int,
        mesh_look(),
        12,
    );
}

/// The two triangles of the near face share the diagonal of its square; a
/// pixel of the square lies on one side of it or on the other.
proof fn lemma_square_halves(x: int, y: int)
    requires
        in_near_face(x, y),
    ensures
        covers((370, 290), (270, 290), (270, 190), (x, y)) || covers(
            (370, 290),
            (270, 190),
            (370, 190),
            (x, y),
        ),
{
    lemma_edge_at(370, 290, 270, 290, 270, 190);
    lemma_edge_at(270, 290, 270, 190, x, y);
    lemma_edge_at(270, 190, 370, 290, x, y);
    lemma_edge_at(370, 290, 270, 290, x, y);
    lemma_edge_at(370, 290, 270, 190, 370, 190);
    lemma_edge_at(270, 190, 370, 190, x, y);
    lemma_edge_at(370, 190, 370, 290, x, y);
    lemma_edge_at(370, 290, 270, 190, x, y);
}

/// The edge function, written out for a vector of known length.
proof fn lemma_edge_at(ax: int, ay: int, bx: int, by: int, px: int, py: int)
    ensures
        bx - ax == 100 ==> edge((ax, ay), (bx, by), (px, py)) == 100 * (py - ay) - (by - ay) * (px
            - ax),
        bx - ax == -100 ==> edge((ax, ay), (bx, by), (px, py)) == -100 * (py - ay) - (by - ay) * (
        px - ax),
        bx - ax == 0 ==> edge((ax, ay), (bx, by), (px, py)) == 0 - (by - ay) * (px - ax),
        by - ay == 100 ==> (by - ay) * (px - ax) == 100 * (px - ax),
        by - ay == -100 ==> (by - ay) * (px - ax) == -100 * (px - ax),
        by - ay == 0 ==> (by - ay) * (px - ax) == 0,
{
    let u = bx - ax;
    let v = by - ay;
    let q = py - ay;
    let r = px - ax;
    assert(edge((ax, ay), (bx, by), (px, py)) == u * q - v * r);
    assert((u == 100 ==> u * q == 100 * q) && (u == -100 ==> u * q == -100 * q) && (u == 0 ==> u
        * q == 0) && (v == 100 ==> v * r == 100 * r) && (v == -100 ==> v * r == -100 * r) && (v
        == 0 ==> v * r == 0)) by (nonlinear_arith);
}

/// The triangles of the cube cover the square of its near face and nothing
/// else.
proof fn lemma_cube_covers(vertices: Seq<Vec3>, indices: Seq<[usize; 3]>, p: (int, int))
    requires
        is_cube(vertices, indices),
    ensures
        any_covers(cube_triangles(vertices, indices), p) <==> in_near_face(p.0, p.1),
{
    let all = cube_triangles(vertices, indices);
    lemma_cube_triangles(vertices, indices);
    if any_covers(all, p) {
        let i = choose|i: int|
            0 <= i < all.len() && #[trigger] covers(pt(all[i].a), pt(all[i].b), pt(all[i].c), p);
        lemma_cube_face(vertices, indices, i);
        assert(Some(all[i]) == cube_face(vertices, indices, i));
        lemma_corner_pixel(vertices[indices[i][0] as int]);
        lemma_corner_pixel(vertices[indices[i][1] as int]);
        lemma_corner_pixel(vertices[indices[i][2] as int]);
        lemma_covered_in_box(pt(all[i].a), pt(all[i].b), pt(all[i].c), p);
    }
    if in_near_face(p.0, p.1) {
        lemma_cube_face(vertices, indices, 2);
        lemma_cube_face(vertices, indices, 3);
        assert(Some(all[2]) == cube_face(vertices, indices, 2));
        assert(Some(all[3]) == cube_face(vertices, indices, 3));
        assert(Mesh::cube_faces()[2] == (1int, 0int, 3int));
        assert(Mesh::cube_faces()[3] == (1int, 3int, 2int));
        lemma_corner_pixel(vertices[0]);
        lemma_corner_pixel(vertices[1]);
        lemma_corner_pixel(vertices[2]);
        lemma_corner_pixel(vertices[3]);
        assert(pt(all[2].a) == (370int, 290int) && pt(all[2].b) == (270int, 290int) && pt(
            all[2].c,
        ) == (270int, 190int));
        assert(pt(all[3].a) == (370int, 290int) && pt(all[3].b) == (270int, 190int) && pt(
            all[3].c,
        ) == (370int, 190int));
        lemma_square_halves(p.0, p.1);
        assert(covers(pt(all[2].a), pt(all[2].b), pt(all[2].c), p) || covers(
            pt(all[3].a),
            pt(all[3].b),
            pt(all[3].c),
            p,
        ));
    }
}

/// The frame of the cube: rendered with no turn of its own, for the camera
/// at the origin that looks along the z axis, the cube of `Mesh::cube` is the
/// square of its near face, filled in `MESH_COLOR`. The square is centred on
/// the screen and reaches fifty pixels to each side, so the frame is its own
/// mirror image about the centre column.
pub proof fn lemma_cube_frame(frame: Seq<u32>, vertices: Seq<Vec3>, indices: Seq<[usize; 3]>)
    requires
        is_cube(vertices, indices),
    ensures
        drawn_all(
            frame,
            WIDTH as int,
            HEIGHT as int,
            painters_order(mesh_gathered(vertices, indices, still_camera(), (no_turn(), no_turn()))),
        ) == painted(
            frame,
            WIDTH as int,
            HEIGHT as int,
            |x: int, y: int| in_near_face(x, y),
            MESH_COLOR,
        ),
{
    let w = WIDTH as int;
    let h = HEIGHT as int;
    let all = cube_triangles(vertices, indices);
    lemma_cube_triangles(vertices, indices);
    assert forall|i: int| 0 <= i < all.len() implies all[i].mode == RenderMode::Filled
        && all[i].color == MESH_COLOR by {
        lemma_cube_face(vertices, indices, i);
        assert(Some(all[i]) == cube_face(vertices, indices, i));
    }
    let ordered = painters_order(all);
    lemma_order_same_colour(all, MESH_COLOR);
    lemma_one_colour(frame, w, h, ordered, MESH_COLOR);
    let got = painted(frame, w, h, |x: int, y: int| any_covers(ordered, (x, y)), MESH_COLOR);
    let want = painted(frame, w, h, |x: int, y: int| in_near_face(x, y), MESH_COLOR);
    assert forall|k: int| 0 <= k < got.len() implies got[k] == want[k] by {
        let p = (k % w, k / w);
        lemma_order_covers(all, p);
        lemma_cube_covers(vertices, indices, p);
    }
    assert(got =~= want);
}

/// Ordering keeps a mode and a colour that every triangle of the list has.
pub proof fn lemma_order_same_colour(s: Seq<ScreenTriangle>, color: u32)
    requires
        forall|i: int| 0 <= i < s.len() ==> s[i].mode == RenderMode::Filled && s[i].color == color,
    ensures
        forall|i: int|
            0 <= i < painters_order(s).len() ==> painters_order(s)[i].mode == RenderMode::Filled
                && painters_order(s)[i].color == color,
    decreases s.len(),
{
    if s.len() > 0 {
        let rest = painters_order(s.drop_last());
        assert forall|i: int| 0 <= i < s.drop_last().len() implies s.drop_last()[i].mode
            == RenderMode::Filled && s.drop_last()[i].color == color by {
            assert(s.drop_last()[i] == s[i]);
        }
        lemma_order_same_colour(s.drop_last(), color);
        lemma_slot(rest, s.last().depth as int);
    }
}

} // verus!
