//! Frame assembly: from meshes to projected triangles, their back-to-front
//! order, and the frame that drawing them in that order gives.

use vstd::prelude::*;
use vstd::seq_lib::to_multiset_insert;
use crate::arith::floor_div;
use crate::camera::Camera;
use crate::geometry::{indices_fit, Mesh, Triangle};
use crate::math::{Angle, Vec3, ONE};
use crate::projection::{project_through, projected_through, Lens};
use crate::raster::{draw_line, HEIGHT, WIDTH};
use crate::scene::Scene;
use crate::screen::{segment_painted, triangle_painted};
use crate::shape::pt;

verus! {

/// How a triangle is drawn.
#[derive(Clone, Copy, Debug, PartialEq, Eq)]
pub enum RenderMode {
    /// Its three edges, as line segments.
    Wireframe,
    /// Its interior and edges.
    Filled,
}

/// A triangle on the viewport, ready to be drawn.
#[derive(Clone, Copy, Debug)]
pub struct ScreenTriangle {
    pub a: (i32, i32),
    pub b: (i32, i32),
    pub c: (i32, i32),
    /// The mean camera-space depth of the three corners.
    pub depth: i32,
    pub color: u32,
    pub mode: RenderMode,
}

/// How the triangles of one mesh are drawn, as the contracts see it.
pub struct Look {
    pub mode: RenderMode,
    pub palette: Seq<u32>,
    pub fallback: u32,
}

impl Look {
    /// The colour of the `i`-th triangle: its entry in the palette, or the
    /// fallback past the palette's end.
    pub open spec fn color_of(self, i: int) -> u32 {
        if 0 <= i < self.palette.len() {
            self.palette[i]
        } else {
            self.fallback
        }
    }
}

/// How the triangles of one mesh are drawn: the mode, a colour for each of
/// the first triangles, and the colour of the others.
pub struct Style {
    pub mode: RenderMode,
    pub palette: Vec<u32>,
    pub fallback: u32,
}

impl View for Style {
    type V = Look;

    open spec fn view(&self) -> Look {
        Look { mode: self.mode, palette: self.palette@, fallback: self.fallback }
    }
}

impl Style {
    /// Returns the colour of the `i`-th triangle.
    pub fn color(&self, i: usize) -> (r: u32)
        ensures
            r == self@.color_of(i as int),
    {
        if i < self.palette.len() {
            self.palette[i]
        } else {
            self.fallback
        }
    }
}

/// The mean of three depths, rounded down.
pub open spec fn depth_key(za: int, zb: int, zc: int) -> int {
    (za + zb + zc) / 3
}

/// The triangle on a viewport of `width` by `height` pixels that a
/// camera-space triangle projects to through `lens`. A triangle with a corner at or behind
/// the near plane gives nothing.
pub open spec fn on_viewport(
    tri: Triangle,
    lens: Lens,
    width: int,
    height: int,
    mode: RenderMode,
    color: u32,
) -> Option<ScreenTriangle> {
    match (
        projected_through(tri.a, lens, width, height),
        projected_through(tri.b, lens, width, height),
        projected_through(tri.c, lens, width, height),
    ) {
        (Some(a), Some(b), Some(c)) => Some(
            ScreenTriangle {
                a,
                b,
                c,
                depth: depth_key(tri.a.z as int, tri.b.z as int, tri.c.z as int) as i32,
                color,
                mode,
            },
        ),
        _ => None,
    }
}

/// Projects a camera-space triangle. The whole triangle is dropped when any
/// of its corners is at or behind the near plane.
pub fn project_triangle(
    tri: &Triangle,
    lens: Lens,
    width: usize,
    height: usize,
    mode: RenderMode,
    color: u32,
) -> (r: Option<ScreenTriangle>)
    requires
        lens is RightAngle ==> 0 < height,
    ensures
        r == on_viewport(*tri, lens, width as int, height as int, mode, color),
        r.is_some() <==> tri.a.z > crate::projection::NEAR && tri.b.z > crate::projection::NEAR
            && tri.c.z > crate::projection::NEAR,
{
    let pa: Option<(i32, i32)> = project_through(tri.a, lens, width, height);
    let pb: Option<(i32, i32)> = project_through(tri.b, lens, width, height);
    let pc: Option<(i32, i32)> = project_through(tri.c, lens, width, height);
    match (pa, pb, pc) {
        (Some(a), Some(b), Some(c)) => {
            let total: i128 = tri.a.z as i128 + tri.b.z as i128 + tri.c.z as i128;
            let depth: i128 = floor_div(total, 3);
            Some(ScreenTriangle { a, b, c, depth: depth as i32, color, mode })
        },
        _ => None,
    }
}

/// Where a triangle of the given depth goes into a list ordered from far to
/// near: behind every triangle that is at least as deep.
pub open spec fn slot(s: Seq<ScreenTriangle>, depth: int) -> int
    decreases s.len(),
{
    if s.len() == 0 || s[0].depth < depth {
        0
    } else {
        1 + slot(s.drop_first(), depth)
    }
}

/// The painter's order of a list of triangles: from the deepest to the
/// nearest, triangles of equal depth in the order of the list.
pub open spec fn painters_order(s: Seq<ScreenTriangle>) -> Seq<ScreenTriangle>
    decreases s.len(),
{
    if s.len() == 0 {
        Seq::empty()
    } else {
        let rest = painters_order(s.drop_last());
        rest.insert(slot(rest, s.last().depth as int), s.last())
    }
}

/// Whether no triangle of the list is deeper than one before it.
pub open spec fn descends(s: Seq<ScreenTriangle>) -> bool {
    forall|i: int, j: int| 0 <= i < j < s.len() ==> s[i].depth >= s[j].depth
}

/// The slot lies behind the triangles that are at least as deep, and the
/// triangle at the slot, if there is one, is nearer.
pub proof fn lemma_slot(s: Seq<ScreenTriangle>, depth: int)
    ensures
        0 <= slot(s, depth) <= s.len(),
        forall|i: int| 0 <= i < slot(s, depth) ==> s[i].depth >= depth,
        slot(s, depth) < s.len() ==> s[slot(s, depth)].depth < depth,
    decreases s.len(),
{
    if s.len() == 0 || s[0].depth < depth {
    } else {
        let t = s.drop_first();
        lemma_slot(t, depth);
        assert forall|i: int| 0 <= i < slot(s, depth) implies s[i].depth >= depth by {
            if i > 0 {
                assert(s[i] == t[i - 1]);
            }
        }
        if slot(s, depth) < s.len() {
            assert(s[slot(s, depth)] == t[slot(t, depth)]);
        }
    }
}

/// A position behind the triangles that are at least as deep, and before a
/// nearer one, is the slot.
pub proof fn lemma_slot_found(s: Seq<ScreenTriangle>, depth: int, k: int)
    requires
        0 <= k <= s.len(),
        forall|i: int| 0 <= i < k ==> s[i].depth >= depth,
        k < s.len() ==> s[k].depth < depth,
    ensures
        slot(s, depth) == k,
    decreases s.len(),
{
    if s.len() == 0 || s[0].depth < depth {
    } else {
        let t = s.drop_first();
        assert forall|i: int| 0 <= i < k - 1 implies t[i].depth >= depth by {
            assert(t[i] == s[i + 1]);
        }
        if k < s.len() {
            assert(t[k - 1] == s[k]);
        }
        lemma_slot_found(t, depth, k - 1);
    }
}

/// The painter's order runs from far to near.
pub proof fn lemma_order_descends(s: Seq<ScreenTriangle>)
    ensures
        descends(painters_order(s)),
    decreases s.len(),
{
    if s.len() > 0 {
        let rest = painters_order(s.drop_last());
        let t = s.last();
        let k = slot(rest, t.depth as int);
        lemma_order_descends(s.drop_last());
        lemma_slot(rest, t.depth as int);
        let out = rest.insert(k, t);
        assert forall|i: int, j: int| 0 <= i < j < out.len() implies out[i].depth
            >= out[j].depth by {
            if j < k {
                assert(out[i] == rest[i] && out[j] == rest[j]);
            } else if j == k {
                assert(out[i] == rest[i]);
            } else if i < k {
                assert(out[i] == rest[i] && out[j] == rest[j - 1]);
                assert(rest[k].depth >= rest[j - 1].depth || k == j - 1);
            } else if i == k {
                assert(out[j] == rest[j - 1]);
                assert(rest[k].depth >= rest[j - 1].depth || k == j - 1);
            } else {
                assert(out[i] == rest[i - 1] && out[j] == rest[j - 1]);
            }
        }
    }
}

/// The painter's order holds the triangles of the list, each as often as the
/// list does.
pub proof fn lemma_order_permutes(s: Seq<ScreenTriangle>)
    ensures
        painters_order(s).len() == s.len(),
        painters_order(s).to_multiset() == s.to_multiset(),
    decreases s.len(),
{
    if s.len() > 0 {
        let rest = painters_order(s.drop_last());
        let t = s.last();
        lemma_order_permutes(s.drop_last());
        lemma_slot(rest, t.depth as int);
        to_multiset_insert(rest, slot(rest, t.depth as int), t);
        to_multiset_insert(s.drop_last(), s.len() - 1, t);
        assert(s.drop_last().insert(s.len() - 1, t) =~= s);
    } else {
        assert(painters_order(s) =~= s);
    }
}

/// Orders triangles for the painter: from the deepest to the nearest.
pub fn depth_sort(tris: &Vec<ScreenTriangle>) -> (r: Vec<ScreenTriangle>)
    ensures
        r@ == painters_order(tris@),
{
    let mut out: Vec<ScreenTriangle> = Vec::new();
    let mut i: usize = 0;
    assert(tris@.take(0) =~= Seq::empty());
    while i < tris.len()
        invariant
            i <= tris.len(),
            out@ == painters_order(tris@.take(i as int)),
        decreases tris.len() - i,
    {
        let t: ScreenTriangle = tris[i];
        let mut k: usize = 0;
        while k < out.len() && out[k].depth >= t.depth
            invariant
                k <= out.len(),
                forall|m: int| 0 <= m < k ==> out@[m].depth >= t.depth,
            decreases out.len() - k,
        {
            k = k + 1;
        }
        proof {
            lemma_slot_found(out@, t.depth as int, k as int);
            assert(tris@.take(i + 1).drop_last() =~= tris@.take(i as int));
            assert(tris@.take(i + 1).last() == t);
        }
        out.insert(k, t);
        i = i + 1;
    }
    assert(tris@.take(i as int) =~= tris@);
    out
}

/// The buffer after drawing one triangle: filled, or as the three segments
/// from `a` to `b`, from `b` to `c` and from `c` back to `a`.
pub open spec fn drawn(frame: Seq<u32>, width: int, height: int, t: ScreenTriangle) -> Seq<u32> {
    match t.mode {
        RenderMode::Filled => triangle_painted(
            frame,
            width,
            height,
            pt(t.a),
            pt(t.b),
            pt(t.c),
            t.color,
        ),
        RenderMode::Wireframe => segment_painted(
            segment_painted(
                segment_painted(frame, width, height, pt(t.a), pt(t.b), t.color),
                width,
                height,
                pt(t.b),
                pt(t.c),
                t.color,
            ), width, height,
            pt(t.c),
            pt(t.a),
            t.color,
        ),
    }
}

/// The buffer after drawing a list of triangles, one after the other.
pub open spec fn drawn_all(
    frame: Seq<u32>,
    width: int,
    height: int,
    tris: Seq<ScreenTriangle>,
) -> Seq<u32>
    decreases tris.len(),
{
    if tris.len() == 0 {
        frame
    } else {
        drawn(drawn_all(frame, width, height, tris.drop_last()), width, height, tris.last())
    }
}

/// Draws one triangle in its mode and colour.
pub fn draw(buf: &mut [u32], t: &ScreenTriangle)
    ensures
        final(buf)@ == drawn(old(buf)@, WIDTH as int, HEIGHT as int, *t),
{
    match t.mode {
        RenderMode::Filled => {
            crate::raster::fill_triangle(buf, t.a, t.b, t.c, t.color);
        },
        RenderMode::Wireframe => {
            draw_line(buf, t.a.0, t.a.1, t.b.0, t.b.1, t.color);
            draw_line(buf, t.b.0, t.b.1, t.c.0, t.c.1, t.color);
            draw_line(buf, t.c.0, t.c.1, t.a.0, t.a.1, t.color);
        },
    }
}

/// Draws the triangles in the order of the list, so that a later one covers
/// an earlier one.
pub fn draw_all(buf: &mut [u32], tris: &Vec<ScreenTriangle>)
    ensures
        final(buf)@ == drawn_all(old(buf)@, WIDTH as int, HEIGHT as int, tris@),
{
    let ghost frame = buf@;
    let mut i: usize = 0;
    assert(tris@.take(0) =~= Seq::empty());
    while i < tris.len()
        invariant
            i <= tris.len(),
            buf@ == drawn_all(frame, WIDTH as int, HEIGHT as int, tris@.take(i as int)),
        decreases tris.len() - i,
    {
        proof {
            assert(tris@.take(i + 1).drop_last() =~= tris@.take(i as int));
            assert(tris@.take(i + 1).last() == tris@[i as int]);
        }
        draw(buf, &tris[i]);
        i = i + 1;
    }
    assert(tris@.take(i as int) =~= tris@);
}

/// The triangle that an index triple names in a list of vertices.
pub open spec fn face_triangle(vertices: Seq<Vec3>, face: [usize; 3]) -> Triangle {
    Triangle {
        a: vertices[face[0] as int],
        b: vertices[face[1] as int],
        c: vertices[face[2] as int],
    }
}

/// A world-space triangle as the camera sees it.
pub open spec fn seen(cam: Camera, tri: Triangle) -> Triangle {
    Triangle { a: cam.transformed(tri.a), b: cam.transformed(tri.b), c: cam.transformed(tri.c) }
}

/// The screen triangles of the first `n` faces of a mesh, in the order of
/// the faces: each face is moved into camera space and projected through
/// `lens` onto a viewport of `width` by `height` pixels, and takes the mode
/// of `look` and the colour that `look` gives to its position. Faces with a corner at or behind the near plane are left
/// out.
pub open spec fn gathered(
    vertices: Seq<Vec3>,
    indices: Seq<[usize; 3]>,
    cam: Camera,
    lens: Lens,
    width: int,
    height: int,
    look: Look,
    n: nat,
) -> Seq<ScreenTriangle>
    decreases n,
{
    if n == 0 {
        Seq::empty()
    } else {
        let before = gathered(vertices, indices, cam, lens, width, height, look, (n - 1) as nat);
        match on_viewport(
            seen(cam, face_triangle(vertices, indices[n - 1])),
            lens,
            width,
            height,
            look.mode,
            look.color_of(n - 1),
        ) {
            Some(t) => before.push(t),
            None => before,
        }
    }
}

/// Appends to `out` the screen triangles of a mesh, projected through
/// `lens` onto a viewport of `width` by `height` pixels.
pub fn gather(
    vertices: &Vec<Vec3>,
    indices: &Vec<[usize; 3]>,
    cam: &Camera,
    lens: Lens,
    width: usize,
    height: usize,
    style: &Style,
    out: &mut Vec<ScreenTriangle>,
)
    requires
        indices_fit(vertices@.len() as int, indices@),
        lens is RightAngle ==> 0 < height,
    ensures
        final(out)@ == old(out)@ + gathered(
            vertices@,
            indices@,
            *cam,
            lens,
            width as int,
            height as int,
            style@,
            indices@.len() as nat,
        ),
{
    let ghost start = out@;
    let ghost w = width as int;
    let ghost h = height as int;
    let mut i: usize = 0;
    assert(out@ =~= start + gathered(vertices@, indices@, *cam, lens, w, h, style@, 0));
    while i < indices.len()
        invariant
            i <= indices.len(),
            indices_fit(vertices@.len() as int, indices@),
            lens is RightAngle ==> 0 < height,
            w == width,
            h == height,
            out@ == start + gathered(vertices@, indices@, *cam, lens, w, h, style@, i as nat),
        decreases indices.len() - i,
    {
        let face: [usize; 3] = indices[i];
        assert(indices@[i as int][0] < vertices@.len());
        assert(indices@[i as int][1] < vertices@.len());
        assert(indices@[i as int][2] < vertices@.len());
        let tri: Triangle = Triangle::new(
            cam.transform(vertices[face[0]]),
            cam.transform(vertices[face[1]]),
            cam.transform(vertices[face[2]]),
        );
        let ghost before = gathered(vertices@, indices@, *cam, lens, w, h, style@, i as nat);
        match project_triangle(&tri, lens, width, height, style.mode, style.color(i)) {
            Some(t) => {
                out.push(t);
                assert(out@ =~= start + before.push(t));
            },
            None => {},
        }
        i = i + 1;
    }
}

/// How far in front of the origin `render` places its mesh.
pub const MESH_DISTANCE: i32 = 5 * ONE;

/// The distance from the eye to the screen, in pixels, at which `render`
/// projects.
pub const PIXEL_DISTANCE: i32 = 200;

/// The colour in which `render` fills its mesh.
pub const MESH_COLOR: u32 = 0x00FF00FF;

/// The vertices of a mesh as `render` places them: turned about the x axis
/// by the first angle, about the y axis by the second, and moved
/// `MESH_DISTANCE` along the z axis.
pub open spec fn posed(vertices: Seq<Vec3>, rot: (Angle, Angle)) -> Seq<Vec3> {
    Seq::new(
        vertices.len(),
        |i: int|
            vertices[i].turned_x(rot.0).turned_y(rot.1).plus(Vec3 { x: 0, y: 0, z: MESH_DISTANCE }),
    )
}

/// Places the vertices of a mesh in front of the origin.
pub fn pose(vertices: &Vec<Vec3>, rot: (Angle, Angle)) -> (r: Vec<Vec3>)
    ensures
        r@ == posed(vertices@, rot),
{
    let mut out: Vec<Vec3> = Vec::new();
    let mut i: usize = 0;
    while i < vertices.len()
        invariant
            i <= vertices.len(),
            out@.len() == i,
            forall|n: int| 0 <= n < i ==> out@[n] == posed(vertices@, rot)[n],
        decreases vertices.len() - i,
    {
        let v: Vec3 = vertices[i];
        out.push(v.rotate_x(rot.0).rotate_y(rot.1).add(Vec3::new(0, 0, MESH_DISTANCE)));
        i = i + 1;
    }
    assert(out@ =~= posed(vertices@, rot));
    out
}

/// How `render` draws: every triangle filled, in one colour.
pub open spec fn mesh_look() -> Look {
    Look { mode: RenderMode::Filled, palette: Seq::empty(), fallback: MESH_COLOR }
}

/// Every gathered triangle has the mode of the look.
pub proof fn lemma_gathered_mode(
    vertices: Seq<Vec3>,
    indices: Seq<[usize; 3]>,
    cam: Camera,
    lens: Lens,
    width: int,
    height: int,
    look: Look,
    n: nat,
)
    ensures
        forall|i: int|
            0 <= i < gathered(vertices, indices, cam, lens, width, height, look, n).len()
                ==> gathered(vertices, indices, cam, lens, width, height, look, n)[i].mode
                == look.mode,
    decreases n,
{
    if n > 0 {
        lemma_gathered_mode(vertices, indices, cam, lens, width, height, look, (n - 1) as nat);
    }
}

/// Ordering keeps a mode that every triangle of the list has.
pub proof fn lemma_order_keeps_mode(s: Seq<ScreenTriangle>, mode: RenderMode)
    requires
        forall|i: int| 0 <= i < s.len() ==> s[i].mode == mode,
    ensures
        forall|i: int| 0 <= i < painters_order(s).len() ==> painters_order(s)[i].mode == mode,
    decreases s.len(),
{
    if s.len() > 0 {
        let rest = painters_order(s.drop_last());
        assert forall|i: int| 0 <= i < s.drop_last().len() implies s.drop_last()[i].mode
            == mode by {
            assert(s.drop_last()[i] == s[i]);
        }
        lemma_order_keeps_mode(s.drop_last(), mode);
        lemma_slot(rest, s.last().depth as int);
    }
}

/// The screen triangles that `render` draws for a mesh.
pub open spec fn mesh_gathered(
    vertices: Seq<Vec3>,
    indices: Seq<[usize; 3]>,
    cam: Camera,
    rot: (Angle, Angle),
) -> Seq<ScreenTriangle> {
    gathered(
        posed(vertices, rot),
        indices,
        cam,
        Lens::Distance(PIXEL_DISTANCE),
        crate::screen::WIDTH as int,
        crate::screen::HEIGHT as int,
        mesh_look(),
        indices.len(),
    )
}

/// Renders one mesh into `buffer`, a screen of 640 by 480 pixels: its
/// vertices are placed by `cube_rot`, its faces moved into the space of
/// `cam` and projected onto a screen `PIXEL_DISTANCE` pixels from the eye,
/// faces that reach behind the near plane are dropped, and the others are
/// filled from the deepest to the nearest.
pub fn render(mesh: &Mesh, cam: &Camera, cube_rot: (Angle, Angle), buffer: &mut [u32])
    requires
        mesh.wf(),
    ensures
        final(buffer)@ == drawn_all(
            old(buffer)@,
            crate::screen::WIDTH as int,
            crate::screen::HEIGHT as int,
            painters_order(mesh_gathered(mesh.vertices@, mesh.indices@, *cam, cube_rot)),
        ),
{
    let ghost frame = buffer@;
    let ghost w = crate::screen::WIDTH as int;
    let ghost h = crate::screen::HEIGHT as int;
    let vertices: Vec<Vec3> = pose(&mesh.vertices, cube_rot);
    let style: Style = Style { mode: RenderMode::Filled, palette: Vec::new(), fallback: MESH_COLOR };
    assert(style@ == mesh_look()) by {
        assert(style@.palette =~= Seq::empty());
    }
    let mut tris: Vec<ScreenTriangle> = Vec::new();
    gather(
        &vertices,
        &mesh.indices,
        cam,
        Lens::Distance(PIXEL_DISTANCE),
        crate::screen::WIDTH,
        crate::screen::HEIGHT,
        &style,
        &mut tris,
    );
    let ghost all = mesh_gathered(mesh.vertices@, mesh.indices@, *cam, cube_rot);
    assert(tris@ =~= all);
    let ordered: Vec<ScreenTriangle> = depth_sort(&tris);
    proof {
        lemma_gathered_mode(
            posed(mesh.vertices@, cube_rot),
            mesh.indices@,
            *cam,
            Lens::Distance(PIXEL_DISTANCE),
            w,
            h,
            mesh_look(),
            mesh.indices@.len() as nat,
        );
        lemma_order_keeps_mode(all, RenderMode::Filled);
    }
    let mut i: usize = 0;
    assert(ordered@.take(0) =~= Seq::empty());
    while i < ordered.len()
        invariant
            i <= ordered.len(),
            w == crate::screen::WIDTH,
            h == crate::screen::HEIGHT,
            forall|n: int| 0 <= n < ordered@.len() ==> ordered@[n].mode == RenderMode::Filled,
            buffer@ == drawn_all(frame, w, h, ordered@.take(i as int)),
        decreases ordered.len() - i,
    {
        proof {
            assert(ordered@.take(i + 1).drop_last() =~= ordered@.take(i as int));
            assert(ordered@.take(i + 1).last() == ordered@[i as int]);
        }
        let t: ScreenTriangle = ordered[i];
        crate::screen::fill_triangle(buffer, [t.a, t.b, t.c], t.color);
        i = i + 1;
    }
    assert(ordered@.take(i as int) =~= ordered@);
}

/// The colour of meshes that are given no style.
pub const PLAIN_COLOR: u32 = 0xFF888888;

/// How a mesh without a style is drawn: as a wireframe in `PLAIN_COLOR`.
pub open spec fn plain_look() -> Look {
    Look { mode: RenderMode::Wireframe, palette: Seq::empty(), fallback: PLAIN_COLOR }
}

/// The look of the `i`-th mesh of a scene: that of the `i`-th style, or the
/// plain look past the end of the styles.
pub open spec fn look_for(styles: Seq<Style>, i: int) -> Look {
    if 0 <= i < styles.len() {
        styles[i]@
    } else {
        plain_look()
    }
}

/// The screen triangles of the first `m` meshes of a scene, mesh after
/// mesh, on the screen of 800 by 600 pixels and under a field of view of a
/// right angle.
pub open spec fn scene_gathered(
    meshes: Seq<Mesh>,
    styles: Seq<Style>,
    cam: Camera,
    m: nat,
) -> Seq<ScreenTriangle>
    decreases m,
{
    if m == 0 {
        Seq::empty()
    } else {
        scene_gathered(meshes, styles, cam, (m - 1) as nat) + gathered(
            meshes[m - 1].vertices@,
            meshes[m - 1].indices@,
            cam,
            Lens::RightAngle,
            WIDTH as int,
            HEIGHT as int,
            look_for(styles, m - 1),
            meshes[m - 1].indices@.len() as nat,
        )
    }
}

/// Returns the style of meshes that are given none.
pub fn plain_style() -> (r: Style)
    ensures
        r@ == plain_look(),
{
    let r: Style = Style { mode: RenderMode::Wireframe, palette: Vec::new(), fallback: PLAIN_COLOR };
    assert(r@.palette =~= Seq::empty());
    r
}

/// The palette of the demo scene's cube: red, green, blue, yellow, magenta,
/// cyan.
pub open spec fn demo_palette() -> Seq<u32> {
    seq![0xFFFF0000u32, 0xFF00FF00u32, 0xFF0000FFu32, 0xFFFFFF00u32, 0xFFFF00FFu32, 0xFF00FFFFu32]
}

/// Returns the styles of the demo scene: the ground as a plain wireframe,
/// the cube filled, its first six triangles in the colours of the palette
/// and the others white.
pub fn demo_styles() -> (r: Vec<Style>)
    ensures
        r@.len() == 2,
        r@[0]@ == plain_look(),
        r@[1]@ == (Look {
            mode: RenderMode::Filled,
            palette: demo_palette(),
            fallback: 0xFFFFFFFFu32,
        }),
{
    let mut palette: Vec<u32> = Vec::new();
    palette.push(0xFFFF0000);
    palette.push(0xFF00FF00);
    palette.push(0xFF0000FF);
    palette.push(0xFFFFFF00);
    palette.push(0xFFFF00FF);
    palette.push(0xFF00FFFF);
    assert(palette@ =~= demo_palette());
    let mut styles: Vec<Style> = Vec::new();
    styles.push(plain_style());
    styles.push(Style { mode: RenderMode::Filled, palette, fallback: 0xFFFFFFFF });
    styles
}

/// Renders a scene into `buffer`, a screen of 800 by 600 pixels: the faces of every mesh are moved into the
/// space of `cam` and projected onto the screen, each in the style of its
/// mesh; faces that reach behind the near plane are dropped; the others are
/// drawn from the deepest to the nearest.
pub fn render_scene(scene: &Scene, styles: &Vec<Style>, cam: &Camera, buffer: &mut [u32])
    requires
        scene.wf(),
    ensures
        final(buffer)@ == drawn_all(
            old(buffer)@, WIDTH as int, HEIGHT as int,
            painters_order(
                scene_gathered(scene.meshes@, styles@, *cam, scene.meshes@.len() as nat),
            ),
        ),
{
    let plain: Style = plain_style();
    let mut tris: Vec<ScreenTriangle> = Vec::new();
    let mut m: usize = 0;
    while m < scene.meshes.len()
        invariant
            scene.wf(),
            m <= scene.meshes.len(),
            plain@ == plain_look(),
            tris@ == scene_gathered(scene.meshes@, styles@, *cam, m as nat),
        decreases scene.meshes.len() - m,
    {
        let mesh: &Mesh = &scene.meshes[m];
        assert(scene.meshes@[m as int].wf());
        if m < styles.len() {
            gather(
                &mesh.vertices,
                &mesh.indices,
                cam,
                Lens::RightAngle,
                WIDTH,
                HEIGHT,
                &styles[m],
                &mut tris,
            );
        } else {
            gather(
                &mesh.vertices,
                &mesh.indices,
                cam,
                Lens::RightAngle,
                WIDTH,
                HEIGHT,
                &plain,
                &mut tris,
            );
        }
        m = m + 1;
    }
    let ordered: Vec<ScreenTriangle> = depth_sort(&tris);
    draw_all(buffer, &ordered);
}

} // verus!
