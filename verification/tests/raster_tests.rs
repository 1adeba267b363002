use rust3d::raster::{draw_line, fill_triangle as fill_barycentric};
use rust3d::screen::{fill_triangle, plot, put_pixel, HEIGHT, WIDTH};

const C: u32 = 0xFFAA5500;
const WIDE: usize = rust3d::raster::WIDTH;
const TALL: usize = rust3d::raster::HEIGHT;

fn blank() -> Vec<u32> {
    vec![0u32; WIDTH * HEIGHT]
}

fn wide() -> Vec<u32> {
    vec![0u32; WIDE * TALL]
}

fn painted(buf: &[u32]) -> Vec<(i32, i32)> {
    let row = if buf.len() == WIDE * TALL { WIDE } else { WIDTH };
    let mut out = Vec::new();
    for (i, &v) in buf.iter().enumerate() {
        if v != 0 {
            out.push(((i % row) as i32, (i / row) as i32));
        }
    }
    out
}

#[test]
fn screens_have_their_sizes() {
    assert_eq!((WIDTH, HEIGHT), (640, 480));
    assert_eq!((WIDE, TALL), (800, 600));
}

#[test]
fn plot_uses_the_given_row_length() {
    let mut buf = vec![0u32; 12];
    plot(&mut buf, 4, 3, 1, 2, C);
    assert_eq!(buf[9], C);
    plot(&mut buf, 3, 4, 1, 2, 7);
    assert_eq!(buf[7], 7);
    plot(&mut buf, 4, 3, 4, 0, 8);
    plot(&mut buf, 4, 3, 0, 3, 8);
    plot(&mut buf, 4, 3, -1, 0, 8);
    plot(&mut buf, 0, 0, 0, 0, 8);
    plot(&mut buf, 100, 100, 12, 0, 8);
    assert_eq!(buf.iter().filter(|&&v| v != 0).count(), 2);
    plot(&mut buf, usize::MAX, usize::MAX, i32::MAX, i32::MAX, 8);
    plot(&mut buf, usize::MAX, usize::MAX, 11, 0, 8);
    assert_eq!(buf[11], 8);
}

fn bresenham(x0: i64, y0: i64, x1: i64, y1: i64) -> Vec<(i32, i32)> {
    let dx = (x1 - x0).abs();
    let dy = -(y1 - y0).abs();
    let sx = if x0 < x1 { 1 } else { -1 };
    let sy = if y0 < y1 { 1 } else { -1 };
    let mut err = dx + dy;
    let (mut x, mut y) = (x0, y0);
    let mut out = Vec::new();
    loop {
        if x >= 0 && y >= 0 && x < WIDE as i64 && y < TALL as i64 {
            out.push((x as i32, y as i32));
        }
        if x == x1 && y == y1 {
            break;
        }
        let e2 = 2 * err;
        if e2 >= dy {
            err += dy;
            x += sx;
        }
        if e2 <= dx {
            err += dx;
            y += sy;
        }
    }
    out.sort_by_key(|&(x, y)| (y, x));
    out
}

fn inside(a: (i32, i32), b: (i32, i32), c: (i32, i32), p: (i32, i32)) -> bool {
    let e = |a: (i32, i32), b: (i32, i32), p: (i32, i32)| -> i64 {
        (b.0 as i64 - a.0 as i64) * (p.1 as i64 - a.1 as i64)
            - (b.1 as i64 - a.1 as i64) * (p.0 as i64 - a.0 as i64)
    };
    let d = e(a, b, c);
    let (wa, wb, wc) = (e(b, c, p), e(c, a, p), e(a, b, p));
    (d > 0 && wa >= 0 && wb >= 0 && wc >= 0) || (d < 0 && wa <= 0 && wb <= 0 && wc <= 0)
}

#[test]
fn put_pixel_writes_inside() {
    let mut buf = blank();
    put_pixel(&mut buf, 3, 2, C);
    assert_eq!(painted(&buf), vec![(3, 2)]);
    assert_eq!(buf[2 * WIDTH + 3], C);
}

#[test]
fn put_pixel_writes_corners() {
    let mut buf = blank();
    put_pixel(&mut buf, 0, 0, C);
    put_pixel(&mut buf, WIDTH as i32 - 1, HEIGHT as i32 - 1, C);
    assert_eq!(buf[0], C);
    assert_eq!(buf[WIDTH * HEIGHT - 1], C);
    assert_eq!(painted(&buf).len(), 2);
}

#[test]
fn put_pixel_skips_outside() {
    let mut buf = blank();
    put_pixel(&mut buf, -1, 0, C);
    put_pixel(&mut buf, 0, -1, C);
    put_pixel(&mut buf, WIDTH as i32, 0, C);
    put_pixel(&mut buf, 0, HEIGHT as i32, C);
    put_pixel(&mut buf, i32::MIN, i32::MAX, C);
    assert!(painted(&buf).is_empty());
}

#[test]
fn put_pixel_does_not_wrap_into_next_row() {
    let mut buf = blank();
    put_pixel(&mut buf, WIDTH as i32 + 5, 0, C);
    assert_eq!(buf[WIDTH + 5], 0);
}

#[test]
fn put_pixel_skips_past_short_buffer() {
    let mut buf = vec![0u32; 10];
    put_pixel(&mut buf, 9, 0, C);
    put_pixel(&mut buf, 10, 0, C);
    put_pixel(&mut buf, 0, 1, C);
    assert_eq!(buf, vec![0, 0, 0, 0, 0, 0, 0, 0, 0, C]);
}

#[test]
fn line_horizontal_sets_exactly_its_pixels() {
    let mut buf = wide();
    draw_line(&mut buf, 0, 0, 5, 0, C);
    assert_eq!(painted(&buf), vec![(0, 0), (1, 0), (2, 0), (3, 0), (4, 0), (5, 0)]);
    for x in 0..=5 {
        assert_eq!(buf[x], C);
    }
}

#[test]
fn line_single_point() {
    let mut buf = wide();
    draw_line(&mut buf, 7, 9, 7, 9, C);
    assert_eq!(painted(&buf), vec![(7, 9)]);
}

#[test]
fn line_vertical_and_reversed() {
    let mut buf = wide();
    draw_line(&mut buf, 4, 6, 4, 2, C);
    assert_eq!(painted(&buf), vec![(4, 2), (4, 3), (4, 4), (4, 5), (4, 6)]);
}

#[test]
fn line_diagonal() {
    let mut buf = wide();
    draw_line(&mut buf, 1, 1, 4, 4, C);
    assert_eq!(painted(&buf), vec![(1, 1), (2, 2), (3, 3), (4, 4)]);
}

#[test]
fn line_shallow_rounds_half_away_from_start() {
    let mut buf = wide();
    draw_line(&mut buf, 0, 0, 4, 2, C);
    assert_eq!(painted(&buf), vec![(0, 0), (1, 1), (2, 1), (3, 2), (4, 2)]);
}

#[test]
fn line_steep() {
    let mut buf = wide();
    draw_line(&mut buf, 0, 0, 1, 3, C);
    assert_eq!(painted(&buf), bresenham(0, 0, 1, 3));
    assert_eq!(painted(&buf).len(), 4);
}

#[test]
fn line_is_clipped_silently() {
    let mut buf = wide();
    draw_line(&mut buf, -3, 2, 3, 2, C);
    assert_eq!(painted(&buf), vec![(0, 2), (1, 2), (2, 2), (3, 2)]);
    let mut buf = wide();
    draw_line(&mut buf, -10, -10, -1, -5, C);
    assert!(painted(&buf).is_empty());
    let mut buf = wide();
    draw_line(&mut buf, 635, 470, 700, 500, C);
    assert_eq!(painted(&buf), bresenham(635, 470, 700, 500));
}

#[test]
fn line_matches_error_accumulator_in_all_octants() {
    for &(x1, y1) in &[
        (30, 7), (7, 30), (-30, 7), (-7, 30), (30, -7), (7, -30), (-30, -7), (-7, -30),
        (12, 12), (-12, 12), (25, 0), (0, -25), (9, 4), (4, 9), (10, 5), (5, 10), (3, 1),
    ] {
        let (x0, y0) = (100, 90);
        let mut buf = wide();
        draw_line(&mut buf, x0, y0, x0 + x1, y0 + y1, C);
        assert_eq!(
            painted(&buf),
            bresenham(x0 as i64, y0 as i64, (x0 + x1) as i64, (y0 + y1) as i64)
        );
    }
}

#[test]
fn line_far_endpoints_terminate() {
    let mut buf = wide();
    draw_line(&mut buf, -100000, 10, 100000, 10, C);
    assert_eq!(painted(&buf).len(), WIDE);
    assert!(painted(&buf).iter().all(|&(_, y)| y == 10));
}

#[test]
fn line_keeps_other_pixels() {
    let mut buf = vec![5u32; WIDE * TALL];
    draw_line(&mut buf, 2, 1, 4, 1, C);
    assert_eq!(buf.iter().filter(|&&v| v == C).count(), 3);
    assert_eq!(buf.iter().filter(|&&v| v == 5).count(), WIDE * TALL - 3);
}

#[test]
fn line_positions_count_rows_of_the_wide_screen() {
    let mut buf = wide();
    draw_line(&mut buf, 2, 2, 2, 2, C);
    assert_eq!(buf[2 * 800 + 2], C);
    assert_eq!(buf.iter().filter(|&&v| v != 0).count(), 1);
    let mut buf = wide();
    draw_line(&mut buf, 0, 0, 4, 2, C);
    for i in [0, 800 + 1, 800 + 2, 2 * 800 + 3, 2 * 800 + 4] {
        assert_eq!(buf[i], C);
    }
    for i in [1, 2, 2 * 800 + 2, 800 + 3] {
        assert_eq!(buf[i], 0);
    }
    assert_eq!(buf.iter().filter(|&&v| v != 0).count(), 5);
}

#[test]
fn triangle_colors_interior_not_outside_scanline() {
    let mut buf = blank();
    fill_triangle(&mut buf, [(0, 0), (4, 0), (0, 4)], C);
    assert_eq!(buf[WIDTH + 1], C);
    assert_eq!(buf[3 * WIDTH + 3], 0);
}

#[test]
fn triangle_colors_interior_not_outside_barycentric() {
    let mut buf = wide();
    fill_barycentric(&mut buf, (0, 0), (4, 0), (0, 4), C);
    assert_eq!(buf[800 + 1], C);
    assert_eq!(buf[3 * 800 + 3], 0);
    for y in 0..TALL {
        for x in 0..WIDE {
            assert_eq!(buf[y * WIDE + x], if x + y <= 4 { C } else { 0 });
        }
    }
    assert_eq!(buf.iter().filter(|&&v| v == C).count(), 15);
}

#[test]
fn triangle_exact_pixels() {
    let expected = vec![
        (0, 0), (1, 0), (2, 0), (3, 0), (4, 0),
        (0, 1), (1, 1), (2, 1), (3, 1),
        (0, 2), (1, 2), (2, 2),
        (0, 3), (1, 3),
        (0, 4),
    ];
    let mut buf = blank();
    fill_triangle(&mut buf, [(0, 0), (4, 0), (0, 4)], C);
    assert_eq!(painted(&buf), expected);
    let mut buf = wide();
    fill_barycentric(&mut buf, (0, 0), (4, 0), (0, 4), C);
    assert_eq!(painted(&buf), expected);
}

#[test]
fn triangle_degenerate_point_leaves_buffer() {
    let mut buf = vec![9u32; WIDTH * HEIGHT];
    fill_triangle(&mut buf, [(0, 0), (0, 0), (0, 0)], C);
    assert!(buf.iter().all(|&v| v == 9));
    let mut buf = vec![9u32; WIDE * TALL];
    fill_barycentric(&mut buf, (0, 0), (0, 0), (0, 0), C);
    assert!(buf.iter().all(|&v| v == 9));
}

#[test]
fn triangle_degenerate_line_leaves_buffer() {
    let mut buf = blank();
    fill_triangle(&mut buf, [(1, 1), (5, 5), (9, 9)], C);
    fill_triangle(&mut buf, [(2, 7), (30, 7), (11, 7)], C);
    assert!(painted(&buf).is_empty());
    let mut buf = wide();
    fill_barycentric(&mut buf, (1, 1), (5, 5), (9, 9), C);
    fill_barycentric(&mut buf, (2, 7), (30, 7), (11, 7), C);
    assert!(painted(&buf).is_empty());
}

#[test]
fn triangle_any_vertex_order_gives_same_pixels() {
    let (a, b, c) = ((10, 40), (90, 15), (55, 120));
    let mut first = blank();
    fill_triangle(&mut first, [a, b, c], C);
    for pts in [[a, c, b], [b, a, c], [b, c, a], [c, a, b], [c, b, a]] {
        let mut buf = blank();
        fill_triangle(&mut buf, pts, C);
        assert_eq!(buf, first);
        let mut buf = wide();
        fill_barycentric(&mut buf, pts[0], pts[1], pts[2], C);
        assert_eq!(painted(&buf), painted(&first));
    }
}

#[test]
fn triangle_fills_agree_with_containment() {
    let cases: [[(i32, i32); 3]; 8] = [
        [(10, 10), (60, 20), (30, 70)],
        [(5, 50), (50, 5), (70, 70)],
        [(0, 0), (40, 0), (40, 30)],
        [(20, 30), (20, 80), (75, 30)],
        [(3, 3), (4, 90), (5, 3)],
        [(100, 40), (101, 41), (160, 42)],
        [(-20, -20), (50, 10), (10, 60)],
        [(600, 450), (700, 470), (620, 520)],
    ];
    for pts in cases {
        let mut scan = blank();
        fill_triangle(&mut scan, pts, C);
        let mut bary = wide();
        fill_barycentric(&mut bary, pts[0], pts[1], pts[2], C);
        for y in 0..TALL as i32 {
            for x in 0..WIDE as i32 {
                let want = inside(pts[0], pts[1], pts[2], (x, y));
                assert_eq!(bary[y as usize * WIDE + x as usize] == C, want);
                if (x as usize) < WIDTH && (y as usize) < HEIGHT {
                    assert_eq!(scan[y as usize * WIDTH + x as usize] == C, want);
                }
            }
        }
    }
}

#[test]
fn triangle_off_screen_is_clipped() {
    let mut buf = blank();
    fill_triangle(&mut buf, [(-50, -50), (-10, -40), (-30, -5)], C);
    fill_triangle(&mut buf, [(700, 500), (800, 520), (750, 600)], C);
    fill_triangle(&mut buf, [(10, 1000), (50, 1100), (30, 2000)], C);
    assert!(painted(&buf).is_empty());
    let mut buf = wide();
    fill_barycentric(&mut buf, (-50, -50), (-10, -40), (-30, -5), C);
    fill_barycentric(&mut buf, (800, 500), (900, 520), (850, 600), C);
    fill_barycentric(&mut buf, (10, 1000), (50, 1100), (30, 2000), C);
    assert!(painted(&buf).is_empty());
    fill_barycentric(&mut buf, (700, 500), (799, 520), (750, 599), C);
    assert!(buf[540 * WIDE + 750] == C);
}

#[test]
fn triangle_huge_coordinates_do_not_fail() {
    let mut scan = blank();
    fill_triangle(&mut scan, [(i32::MIN, i32::MIN), (i32::MAX, i32::MIN), (0, i32::MAX)], C);
    let mut bary = wide();
    fill_barycentric(&mut bary, (i32::MIN, i32::MIN), (i32::MAX, i32::MIN), (0, i32::MAX), C);
    assert!(scan.iter().all(|&v| v == C));
    assert!(bary.iter().all(|&v| v == C));
}

#[test]
fn triangle_short_buffer_is_filled_as_far_as_it_goes() {
    let mut buf = vec![0u32; WIDTH + 2];
    fill_triangle(&mut buf, [(0, 0), (4, 0), (0, 4)], C);
    assert_eq!(buf.iter().filter(|&&v| v == C).count(), 7);
    assert_eq!(buf[WIDTH + 1], C);
}
