//! Rasterisation on the integer grid: Bresenham lines and triangles filled by
//! a barycentric scan of their bounding box, on a screen of 800 by 600
//! pixels.

use vstd::prelude::*;
use crate::screen::{
    lemma_sweep_done, lemma_sweep_pixel, lemma_sweep_same, lemma_sweep_start, lemma_trace_end,
    lemma_trace_start, lemma_trace_step, on_screen, plot, segment_painted, swept, traced,
    triangle_painted,
};
use crate::shape::{
    clamp, covers, covers_pixel, edge, edge_value, greatest, lean, least, lemma_covered_in_box,
    lemma_lean_step, lemma_segment_ends, on_segment, pt, span, steps,
};

verus! {

/// Number of pixel columns of the screen that `draw_line` and the
/// three-point `fill_triangle` write to.
pub const WIDTH: usize = 800;

/// Number of pixel rows of that screen.
pub const HEIGHT: usize = 600;

/// Draws the segment from `(x0, y0)` to `(x1, y1)` with `color`, by
/// Bresenham's integer stepping: an error accumulator decides at each pixel
/// whether to advance along the columns, along the rows, or both. Every pixel
/// visited, both ends included, is written when it is on the screen of
/// `WIDTH` by `HEIGHT` pixels and skipped when it is not.
pub fn draw_line(buf: &mut [u32], x0: i32, y0: i32, x1: i32, y1: i32, color: u32)
    ensures
        final(buf)@ == segment_painted(
            old(buf)@, WIDTH as int, HEIGHT as int,
            (x0 as int, y0 as int),
            (x1 as int, y1 as int),
            color,
        ),
{
    let ghost frame = buf@;
    let ghost a = (x0 as int, y0 as int);
    let ghost b = (x1 as int, y1 as int);
    let dx: i64 = if x0 < x1 {
        x1 as i64 - x0 as i64
    } else {
        x0 as i64 - x1 as i64
    };
    let dy: i64 = if y0 < y1 {
        y0 as i64 - y1 as i64
    } else {
        y1 as i64 - y0 as i64
    };
    let sx: i32 = if x0 < x1 {
        1
    } else {
        -1
    };
    let sy: i32 = if y0 < y1 {
        1
    } else {
        -1
    };
    let mut err: i64 = dx + dy;
    let mut x: i32 = x0;
    let mut y: i32 = y0;
    let ghost mut i: int = 0;
    let ghost mut j: int = 0;
    proof {
        lemma_trace_start(frame, WIDTH as int, HEIGHT as int, a, b, color);
        lemma_segment_ends(a, b);
        assert(0 * (dx as int) == 0 && 0 * (-dy as int) == 0);
    }
    while x != x1 || y != y1
        invariant
            a == (x0 as int, y0 as int),
            b == (x1 as int, y1 as int),
            dx == span(a.0, b.0),
            -dy == span(a.1, b.1),
            sx == (if x0 < x1 { 1i32 } else { -1i32 }),
            sy == (if y0 < y1 { 1i32 } else { -1i32 }),
            i == steps(a.0, b.0, x as int),
            j == steps(a.1, b.1, y as int),
            0 <= i <= dx,
            0 <= j <= -dy,
            err == j * dx - i * (-dy) + dx + dy,
            on_segment(a, b, (x as int, y as int)),
            buf@ == traced(frame, WIDTH as int, HEIGHT as int, a, b, color, (x as int, y as int)),
        decreases (dx - i) + (-dy - j),
    {
        let ghost cur = (x as int, y as int);
        proof {
            lemma_lean_step(dx as int, -dy as int, i, j);
            assert(lean(a, b, cur) == j * dx - i * (-dy));
        }
        plot(buf, WIDTH, HEIGHT, x, y, color);
        let e2: i64 = 2 * err;
        if e2 >= dy {
            err = err + dy;
            x = x + sx;
            proof {
                i = i + 1;
            }
        }
        if e2 <= dx {
            err = err + dx;
            y = y + sy;
            proof {
                j = j + 1;
            }
        }
        proof {
            let next = (x as int, y as int);
            assert(lean(a, b, next) == j * dx - i * (-dy));
            lemma_trace_step(frame, WIDTH as int, HEIGHT as int, a, b, color, cur, next);
        }
    }
    proof {
        lemma_trace_end(frame, WIDTH as int, HEIGHT as int, a, b, color);
    }
    plot(buf, WIDTH, HEIGHT, x, y, color);
}

/// Fills the triangle `a`, `b`, `c` with `color` on the screen of `WIDTH`
/// by `HEIGHT` pixels: every screen pixel whose
/// barycentric weights are all non-negative is written, no other element of
/// `buf` changes, and a triangle of zero area writes nothing.
pub fn fill_triangle(buf: &mut [u32], a: (i32, i32), b: (i32, i32), c: (i32, i32), color: u32)
    ensures
        final(buf)@ == triangle_painted(
            old(buf)@,
            WIDTH as int,
            HEIGHT as int,
            pt(a),
            pt(b),
            pt(c),
            color,
        ),
{
    let ghost frame = buf@;
    let ghost ga = pt(a);
    let ghost gb = pt(b);
    let ghost gc = pt(c);
    let d: i128 = edge_value(a, b, c);
    if d == 0 {
        assert(buf@ =~= triangle_painted(frame, WIDTH as int, HEIGHT as int, ga, gb, gc, color));
        return ;
    }
    let min_x: i32 = clamp(least(a.0, b.0, c.0), (WIDTH - 1) as i32);
    let max_x: i32 = clamp(greatest(a.0, b.0, c.0), (WIDTH - 1) as i32);
    let min_y: i32 = clamp(least(a.1, b.1, c.1), (HEIGHT - 1) as i32);
    let max_y: i32 = clamp(greatest(a.1, b.1, c.1), (HEIGHT - 1) as i32);
    assert forall|px: int, py: int|
        on_screen(WIDTH as int, HEIGHT as int, px, py) && #[trigger] covers(ga, gb, gc, (px, py)) implies min_x <= px <= max_x
        && min_y <= py <= max_y by {
        lemma_covered_in_box(ga, gb, gc, (px, py));
    }
    proof {
        lemma_sweep_same(
            frame,
            WIDTH as int,
            HEIGHT as int,
            ga,
            gb,
            gc,
            color,
            min_y as int,
            min_x as int,
            0,
            0,
        );
        lemma_sweep_start(frame, WIDTH as int, HEIGHT as int, ga, gb, gc, color);
    }
    let mut y: i32 = min_y;
    while y <= max_y
        invariant
            0 <= min_x <= max_x < WIDTH,
            0 <= min_y <= y <= max_y + 1 <= HEIGHT,
            ga == pt(a) && gb == pt(b) && gc == pt(c),
            d == edge(ga, gb, gc),
            forall|px: int, py: int|
                on_screen(WIDTH as int, HEIGHT as int, px, py) && #[trigger] covers(ga, gb, gc, (px, py)) ==> min_x <= px
                    <= max_x && min_y <= py <= max_y,
            buf@ == swept(
                frame,
                WIDTH as int,
                HEIGHT as int,
                ga,
                gb,
                gc,
                color,
                y as int,
                min_x as int,
            ),
        decreases max_y + 1 - y,
    {
        let mut x: i32 = min_x;
        while x <= max_x
            invariant
                0 <= min_x <= x <= max_x + 1 <= WIDTH,
                0 <= min_y <= y <= max_y < HEIGHT,
                ga == pt(a) && gb == pt(b) && gc == pt(c),
                d == edge(ga, gb, gc),
                buf@ == swept(
                    frame,
                    WIDTH as int,
                    HEIGHT as int,
                    ga,
                    gb,
                    gc,
                    color,
                    y as int,
                    x as int,
                ),
            decreases max_x + 1 - x,
        {
            proof {
                lemma_sweep_pixel(
                    frame,
                    WIDTH as int,
                    HEIGHT as int,
                    ga,
                    gb,
                    gc,
                    color,
                    y as int,
                    x as int,
                );
            }
            if covers_pixel(a, b, c, d, (x, y)) {
                plot(buf, WIDTH, HEIGHT, x, y, color);
            }
            x = x + 1;
        }
        proof {
            lemma_sweep_same(
                frame, WIDTH as int, HEIGHT as int,
                ga,
                gb,
                gc,
                color,
                y as int,
                max_x + 1,
                y + 1,
                min_x as int,
            );
        }
        y = y + 1;
    }
    proof {
        lemma_sweep_same(
            frame, WIDTH as int, HEIGHT as int,
            ga,
            gb,
            gc,
            color,
            max_y + 1,
            min_x as int,
            HEIGHT as int,
            0,
        );
        lemma_sweep_done(frame, WIDTH as int, HEIGHT as int, ga, gb, gc, color);
    }
}

} // verus!
