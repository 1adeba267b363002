use rust3d::camera::Camera;
use rust3d::geometry::{Mesh, Point3, Triangle};
use rust3d::math::{Angle, Vec3, ONE};
use rust3d::raster::draw_line;
use rust3d::renderer::{
    demo_styles, depth_sort, draw, draw_all, gather, plain_style, pose, project_triangle, render,
    render_scene, RenderMode, ScreenTriangle, Style, MESH_COLOR, PLAIN_COLOR,
};
use rust3d::projection::Lens;
use rust3d::raster::fill_triangle;
use rust3d::scene::Scene;
use rust3d::screen::{HEIGHT, WIDTH};

const WIDE: usize = rust3d::raster::WIDTH;
const TALL: usize = rust3d::raster::HEIGHT;

fn blank() -> Vec<u32> {
    vec![0u32; WIDTH * HEIGHT]
}

fn wide() -> Vec<u32> {
    vec![0u32; WIDE * TALL]
}

fn tri(depth: i32, color: u32) -> ScreenTriangle {
    ScreenTriangle { a: (0, 0), b: (8, 0), c: (0, 8), depth, color, mode: RenderMode::Filled }
}

fn still_camera() -> Camera {
    Camera::new(Vec3::new(0, 0, 0), Angle::zero(), Angle::zero())
}

#[test]
fn depth_sort_is_farthest_first() {
    let tris = vec![tri(5 * ONE, 1), tri(ONE, 2), tri(3 * ONE, 3)];
    let sorted = depth_sort(&tris);
    let depths: Vec<i32> = sorted.iter().map(|t| t.depth).collect();
    assert_eq!(depths, vec![5 * ONE, 3 * ONE, ONE]);
    let colors: Vec<u32> = sorted.iter().map(|t| t.color).collect();
    assert_eq!(colors, vec![1, 3, 2]);
}

#[test]
fn depth_sort_keeps_order_of_ties() {
    let tris = vec![tri(2, 1), tri(7, 2), tri(2, 3), tri(7, 4), tri(2, 5)];
    let sorted = depth_sort(&tris);
    let colors: Vec<u32> = sorted.iter().map(|t| t.color).collect();
    assert_eq!(colors, vec![2, 4, 1, 3, 5]);
}

#[test]
fn depth_sort_of_nothing() {
    assert!(depth_sort(&vec![]).is_empty());
}

#[test]
fn depth_sort_permutes_and_descends() {
    let depths = [4, -3, 9, 9, 0, i32::MAX, i32::MIN, 4, 1];
    let tris: Vec<ScreenTriangle> =
        depths.iter().enumerate().map(|(i, &d)| tri(d, i as u32)).collect();
    let sorted = depth_sort(&tris);
    assert_eq!(sorted.len(), tris.len());
    assert!(sorted.windows(2).all(|w| w[0].depth >= w[1].depth));
    let mut seen: Vec<u32> = sorted.iter().map(|t| t.color).collect();
    seen.sort();
    assert_eq!(seen, (0..9).collect::<Vec<u32>>());
}

#[test]
fn project_triangle_drops_when_any_corner_is_behind() {
    let ahead = Point3::new(0, 0, 2 * ONE);
    let behind = Point3::new(0, 0, -ONE);
    for t in [
        Triangle::new(behind, ahead, ahead),
        Triangle::new(ahead, behind, ahead),
        Triangle::new(ahead, ahead, behind),
    ] {
        assert!(project_triangle(&t, Lens::RightAngle, WIDTH, HEIGHT, RenderMode::Filled, 1)
            .is_none());
        assert!(project_triangle(&t, Lens::Distance(200), WIDTH, HEIGHT, RenderMode::Filled, 1)
            .is_none());
    }
    assert!(project_triangle(
        &Triangle::new(ahead, ahead, ahead),
        Lens::Distance(200),
        WIDTH,
        HEIGHT,
        RenderMode::Filled,
        1
    )
    .is_some());
}

#[test]
fn project_triangle_depth_is_mean() {
    let t = Triangle::new(
        Point3::new(0, 0, ONE),
        Point3::new(ONE, 0, 2 * ONE),
        Point3::new(0, ONE, 4 * ONE + 1),
    );
    let s = project_triangle(&t, Lens::RightAngle, 640, 480, RenderMode::Wireframe, 77).unwrap();
    assert_eq!(s.depth, (7 * ONE + 1) / 3);
    assert_eq!(s.a, (320, 240));
    assert_eq!(s.b, (533, 240));
    assert_eq!(s.c, (320, 240 - 59));
    assert_eq!(s.color, 77);
    assert_eq!(s.mode, RenderMode::Wireframe);
    let s = project_triangle(&t, Lens::Distance(200), 640, 480, RenderMode::Filled, 5).unwrap();
    assert_eq!(s.depth, (7 * ONE + 1) / 3);
    assert_eq!(s.a, (320, 240));
    assert_eq!(s.b, (420, 240));
    assert_eq!(s.c, (320, 240 - 49));
}

#[test]
fn draw_filled_matches_fill() {
    let t = ScreenTriangle {
        a: (10, 10),
        b: (50, 20),
        c: (30, 60),
        depth: 0,
        color: 9,
        mode: RenderMode::Filled,
    };
    let mut got = wide();
    draw(&mut got, &t);
    let mut want = wide();
    fill_triangle(&mut want, t.a, t.b, t.c, 9);
    assert_eq!(got, want);
    assert_eq!(got[30 * WIDE + 30], 9);
}

#[test]
fn draw_wireframe_is_three_lines() {
    let t = ScreenTriangle {
        a: (10, 10),
        b: (50, 20),
        c: (30, 60),
        depth: 0,
        color: 9,
        mode: RenderMode::Wireframe,
    };
    let mut got = wide();
    draw(&mut got, &t);
    let mut want = wide();
    draw_line(&mut want, 10, 10, 50, 20, 9);
    draw_line(&mut want, 50, 20, 30, 60, 9);
    draw_line(&mut want, 30, 60, 10, 10, 9);
    assert_eq!(got, want);
    assert_eq!(got[30 * WIDE + 30], 0);
    assert_eq!(got[10 * WIDE + 10], 9);
}

#[test]
fn draw_all_later_covers_earlier() {
    let mut buf = wide();
    draw_all(&mut buf, &vec![tri(0, 1), tri(0, 2)]);
    assert_eq!(buf[WIDE + 1], 2);
    let mut buf = wide();
    draw_all(&mut buf, &vec![]);
    assert!(buf.iter().all(|&v| v == 0));
}

#[test]
fn style_colors() {
    let s = Style { mode: RenderMode::Filled, palette: vec![10, 20], fallback: 99 };
    assert_eq!(s.color(0), 10);
    assert_eq!(s.color(1), 20);
    assert_eq!(s.color(2), 99);
    let p = plain_style();
    assert_eq!(p.color(0), PLAIN_COLOR);
    assert_eq!(p.mode, RenderMode::Wireframe);
    let d = demo_styles();
    assert_eq!(d.len(), 2);
    assert_eq!(d[0].mode, RenderMode::Wireframe);
    assert_eq!(d[0].color(5), 0xFF888888);
    assert_eq!(d[1].mode, RenderMode::Filled);
    assert_eq!(
        (0..8).map(|i| d[1].color(i)).collect::<Vec<u32>>(),
        vec![
            0xFFFF0000, 0xFF00FF00, 0xFF0000FF, 0xFFFFFF00, 0xFFFF00FF, 0xFF00FFFF, 0xFFFFFFFF,
            0xFFFFFFFF
        ]
    );
}

#[test]
fn gather_appends_visible_faces_in_order() {
    let vertices = vec![
        Vec3::new(0, 0, 2 * ONE),
        Vec3::new(ONE, 0, 2 * ONE),
        Vec3::new(0, ONE, 2 * ONE),
        Vec3::new(0, 0, -ONE),
    ];
    let indices = vec![[0, 1, 2], [0, 1, 3], [2, 1, 0]];
    let style = Style { mode: RenderMode::Filled, palette: vec![1, 2, 3], fallback: 4 };
    let mut out = vec![tri(0, 42)];
    gather(&vertices, &indices, &still_camera(), Lens::RightAngle, 640, 480, &style, &mut out);
    assert_eq!(out.len(), 3);
    assert_eq!(out[0].color, 42);
    assert_eq!((out[1].color, out[2].color), (1, 3));
    assert_eq!(out[1].a, (320, 240));
    assert_eq!(out[2].a, (320, 120));
    let mut out = Vec::new();
    gather(&vertices, &indices, &still_camera(), Lens::Distance(200), 800, 600, &style, &mut out);
    assert_eq!(out.len(), 2);
    assert_eq!(out[0].b, (500, 300));
    assert_eq!(out[1].a, (400, 200));
}

#[test]
fn pose_turns_then_pushes() {
    let v = vec![Vec3::new(ONE, 2 * ONE, 3 * ONE)];
    let quarter = Angle::new(ONE, 0);
    let p = pose(&v, (quarter, Angle::zero()));
    assert_eq!((p[0].x, p[0].y, p[0].z), (ONE, -3 * ONE, 2 * ONE + 5 * ONE));
    let p = pose(&v, (Angle::zero(), Angle::zero()));
    assert_eq!((p[0].x, p[0].y, p[0].z), (ONE, 2 * ONE, 8 * ONE));
}

#[test]
fn render_cube_is_centred_and_symmetric() {
    let mut buf = blank();
    render(&Mesh::cube(), &still_camera(), (Angle::zero(), Angle::zero()), &mut buf);
    let on = |x: usize, y: usize| buf[y * WIDTH + x] == MESH_COLOR;
    assert!(on(WIDTH / 2, HEIGHT / 2));
    let mut count = 0;
    for y in 0..HEIGHT {
        for k in 1..WIDTH / 2 {
            assert_eq!(on(WIDTH / 2 - k, y), on(WIDTH / 2 + k, y), "row {} offset {}", y, k);
        }
        for x in 0..WIDTH {
            if on(x, y) {
                count += 1;
            } else {
                assert_eq!(buf[y * WIDTH + x], 0);
            }
        }
    }
    let columns: Vec<usize> = (0..WIDTH).filter(|&x| on(x, HEIGHT / 2)).collect();
    assert_eq!(columns, (270..=370).collect::<Vec<usize>>());
    let rows: Vec<usize> = (0..HEIGHT).filter(|&y| on(WIDTH / 2, y)).collect();
    assert_eq!(rows, (190..=290).collect::<Vec<usize>>());
    assert_eq!(buf[240 * 640 + 250], 0);
    assert_eq!(count, 101 * 101);
    for y in 0..HEIGHT {
        for x in 0..WIDTH {
            assert_eq!(on(x, y), (270..=370).contains(&x) && (190..=290).contains(&y));
        }
    }
}

#[test]
fn render_is_repeatable() {
    let rot = (Angle::new(20000, 62411), Angle::new(-30000, 58267));
    let cam = Camera::new(Vec3::new(ONE / 4, 0, -ONE), Angle::new(3000, 65467), Angle::zero());
    let mut first = blank();
    render(&Mesh::cube(), &cam, rot, &mut first);
    let mut second = blank();
    render(&Mesh::cube(), &cam, rot, &mut second);
    assert_eq!(first, second);
    assert!(first.iter().any(|&v| v == MESH_COLOR));
}

#[test]
fn render_drops_mesh_behind_camera() {
    let cam = Camera::new(Vec3::new(0, 0, 20 * ONE), Angle::zero(), Angle::zero());
    let mut buf = blank();
    render(&Mesh::cube(), &cam, (Angle::zero(), Angle::zero()), &mut buf);
    assert!(buf.iter().all(|&v| v == 0));
}

#[test]
fn render_scene_nearer_mesh_covers_farther() {
    let square = |z: i32, half: i32| {
        Mesh::new(
            vec![
                Vec3::new(-half, -half, z),
                Vec3::new(half, -half, z),
                Vec3::new(half, half, z),
                Vec3::new(-half, half, z),
            ],
            vec![[0, 1, 2], [0, 2, 3]],
        )
    };
    let filled = |c: u32| Style { mode: RenderMode::Filled, palette: vec![], fallback: c };
    for near_first in [true, false] {
        let mut scene = Scene::new();
        let mut styles = Vec::new();
        if near_first {
            scene.add_mesh(square(2 * ONE, ONE / 2));
            styles.push(filled(1));
            scene.add_mesh(square(4 * ONE, 2 * ONE));
            styles.push(filled(2));
        } else {
            scene.add_mesh(square(4 * ONE, 2 * ONE));
            styles.push(filled(2));
            scene.add_mesh(square(2 * ONE, ONE / 2));
            styles.push(filled(1));
        }
        let mut buf = wide();
        render_scene(&scene, &styles, &still_camera(), &mut buf);
        assert_eq!(buf[300 * WIDE + 400], 1);
        assert_eq!(buf[300 * WIDE + 400 + 133], 1);
        assert_eq!(buf[300 * WIDE + 400 + 134], 2);
        assert_eq!(buf[300 * WIDE + 400 + 266], 2);
        assert_eq!(buf[300 * WIDE + 400 + 267], 0);
        assert_eq!(buf[(300 - 75) * WIDE + 400], 1);
        assert_eq!(buf[(300 - 76) * WIDE + 400], 2);
        assert_eq!(buf[0], 0);
    }
}

#[test]
fn render_scene_without_styles_is_plain_wireframe() {
    let mut scene = Scene::new();
    scene.add_mesh(Mesh::new(
        vec![Vec3::new(-ONE, -ONE, 2 * ONE), Vec3::new(ONE, -ONE, 2 * ONE), Vec3::new(0, ONE, 2 * ONE)],
        vec![[0, 1, 2]],
    ));
    let mut buf = wide();
    render_scene(&scene, &vec![], &still_camera(), &mut buf);
    assert!(buf.iter().any(|&v| v == PLAIN_COLOR));
    assert!(buf.iter().all(|&v| v == 0 || v == PLAIN_COLOR));
    assert_eq!(buf[320 * WIDE + 400], 0);
    assert_eq!(buf[450 * WIDE + 400], PLAIN_COLOR);
    assert_eq!(buf[450 * WIDE + 134], PLAIN_COLOR);
    assert_eq!(buf[450 * WIDE + 666], PLAIN_COLOR);
    assert_eq!(buf[150 * WIDE + 400], PLAIN_COLOR);
}

#[test]
fn render_demo_scene() {
    let scene = Scene::demomap();
    let cam = Camera::new(
        Vec3::new(0, ONE, -5 * ONE),
        Angle::zero(),
        Angle::new(-25521, 60362),
    );
    let mut buf = vec![0xFF87CEEBu32; WIDE * TALL];
    render_scene(&scene, &demo_styles(), &cam, &mut buf);
    assert!(buf.iter().any(|&v| v == 0xFF888888));
    assert!(buf.iter().any(|&v| v == 0xFF87CEEB));
    let palette = [0xFFFF0000u32, 0xFF00FF00, 0xFF0000FF, 0xFFFFFF00, 0xFFFF00FF, 0xFF00FFFF, 0xFFFFFFFF];
    assert!(buf.iter().any(|v| palette.contains(v)));
    let mut again = vec![0xFF87CEEBu32; WIDE * TALL];
    render_scene(&scene, &demo_styles(), &cam, &mut again);
    assert_eq!(buf, again);
}
