use vstd::prelude::*;

use crate::framebuffer::{Framebuffer, Pixel};
use crate::screen::Screen;

verus! {

/// The band of the backdrop at row `y` of a screen `height` rows high: floor markers below,
/// from darkest at the bottom, and blank sky above the middle.
pub open spec fn background_pixel(y: int, height: int) -> Pixel {
    if y * 100 > height * 80 {
        Pixel { c: '#', fg: 0, bg: 255 }
    } else if y * 100 > height * 70 {
        Pixel { c: 'x', fg: 51, bg: 255 }
    } else if y * 100 > height * 65 {
        Pixel { c: '-', fg: 77, bg: 255 }
    } else if y * 100 > height * 50 {
        Pixel { c: '.', fg: 90, bg: 255 }
    } else {
        Pixel { c: ' ', fg: 255, bg: 255 }
    }
}

fn background_at(y: usize, height: usize) -> (r: Pixel)
    ensures
        r == background_pixel(y as int, height as int),
{
    let y100: u128 = y as u128 * 100;
    let h: u128 = height as u128;
    if y100 > h * 80 {
        Pixel { c: '#', fg: 0, bg: 255 }
    } else if y100 > h * 70 {
        Pixel { c: 'x', fg: 51, bg: 255 }
    } else if y100 > h * 65 {
        Pixel { c: '-', fg: 77, bg: 255 }
    } else if y100 > h * 50 {
        Pixel { c: '.', fg: 90, bg: 255 }
    } else {
        Pixel { c: ' ', fg: 255, bg: 255 }
    }
}

/// Paints the whole front buffer with the backdrop bands.
pub fn render_background(screen: &mut Screen)
    requires
        old(screen).wf(),
    ensures
        final(screen).wf(),
        final(screen).width == old(screen).width,
        final(screen).height == old(screen).height,
        final(screen).previous == old(screen).previous,
        forall|x: int, y: int|
            0 <= x < final(screen).width && 0 <= y < final(screen).height
                ==> #[trigger] final(screen).front.pixel(x, y) == background_pixel(
                y,
                final(screen).height as int,
            ),
{
    let width = screen.width;
    let height = screen.height;
    let mut y: usize = 0;
    while y < height
        invariant
            screen.wf(),
            screen.width == width,
            screen.height == height,
            screen.previous == old(screen).previous,
            y <= height,
            forall|i: int, j: int|
                0 <= i < width && 0 <= j < y ==> #[trigger] screen.front.pixel(i, j)
                    == background_pixel(j, height as int),
        decreases height - y,
    {
        let p = background_at(y, height);
        let mut x: usize = 0;
        while x < width
            invariant
                screen.wf(),
                screen.width == width,
                screen.height == height,
                screen.previous == old(screen).previous,
                y < height,
                x <= width,
                p == background_pixel(y as int, height as int),
                forall|i: int, j: int|
                    0 <= i < width && (0 <= j < y || (j == y && i < x)) ==> #[trigger] screen.front.pixel(i, j)
                        == background_pixel(j, height as int),
            decreases width - x,
        {
            screen.front.set(x, y, p);
            x = x + 1;
        }
        y = y + 1;
    }
}

/// Distance, in ray steps, from which walls are drawn at full shade.
pub const FADE_DISTANCE: i64 = 24_000;

/// Projection scale, in ray steps: a wall this far away spans the screen's height exactly.
pub const WALL_SCALE: i64 = 1250;

/// The largest shade from `f` up to 255 whose square stays within what distance `d` allows.
pub open spec fn fade_search(d: int, f: int) -> int
    decreases 255 - f,
{
    if f < 255 && FADE_DISTANCE * (f + 1) * (f + 1) <= 65025 * d {
        fade_search(d, f + 1)
    } else {
        f
    }
}

/// The shade of a wall `d` steps away: `255 * sqrt(d / FADE_DISTANCE)` rounded down, 0 for a
/// distance of zero or below, and 255 from `FADE_DISTANCE` on.
pub open spec fn fade_of(d: int) -> int {
    if d >= FADE_DISTANCE {
        255
    } else if d <= 0 {
        0
    } else {
        fade_search(d, 0)
    }
}

/// The shade of a wall `d` steps away.
pub fn fade(d: i64) -> (r: u8)
    ensures
        r == fade_of(d as int),
        0 < d < FADE_DISTANCE ==> FADE_DISTANCE * r * r <= 65025 * d && (r == 255 || 65025 * d
            < FADE_DISTANCE * (r + 1) * (r + 1)),
{
    proof {
        if 0 < d < FADE_DISTANCE {
            lemma_fade_search(d as int, 0);
        }
    }
    if d >= FADE_DISTANCE {
        255
    } else if d <= 0 {
        0
    } else {
        let mut f: u8 = 0;
        while f < 255 && shade_fits(d, f + 1)
            invariant
                0 < d < FADE_DISTANCE,
                fade_search(d as int, 0) == fade_search(d as int, f as int),
            decreases 255 - f,
        {
            f = f + 1;
        }
        f
    }
}

/// Whether shade `g` is within what distance `d` allows.
fn shade_fits(d: i64, g: u8) -> (r: bool)
    requires
        0 < d < FADE_DISTANCE,
    ensures
        r == (FADE_DISTANCE * g * g <= 65025 * d),
{
    let g: i64 = g as i64;
    proof {
        assert(0 <= g * g <= 255 * 255) by (nonlinear_arith)
            requires 0 <= g <= 255;
        assert(FADE_DISTANCE * g * g == FADE_DISTANCE * (g * g)) by (nonlinear_arith);
    }
    FADE_DISTANCE * (g * g) <= 65025 * d
}

/// The shade found by the search is the largest whose square stays within what `d` allows.
pub proof fn lemma_fade_search(d: int, f: int)
    requires
        0 < d < FADE_DISTANCE,
        0 <= f <= 255,
        FADE_DISTANCE * f * f <= 65025 * d,
    ensures
        f <= fade_search(d, f) <= 255,
        FADE_DISTANCE * fade_search(d, f) * fade_search(d, f) <= 65025 * d,
        fade_search(d, f) == 255 || 65025 * d < FADE_DISTANCE * (fade_search(d, f) + 1) * (
        fade_search(d, f) + 1),
    decreases 255 - f,
{
    if f < 255 && FADE_DISTANCE * (f + 1) * (f + 1) <= 65025 * d {
        lemma_fade_search(d, f + 1);
    }
}

/// The shade never lightens as walls come nearer, and is 255 from `FADE_DISTANCE` on.
pub proof fn lemma_fade_monotonic(d1: int, d2: int)
    requires
        d1 <= d2,
    ensures
        fade_of(d1) <= fade_of(d2),
        0 <= fade_of(d1) <= 255,
        d2 >= FADE_DISTANCE ==> fade_of(d2) == 255,
{
    if 0 < d1 < FADE_DISTANCE {
        lemma_fade_search(d1, 0);
    }
    if 0 < d2 < FADE_DISTANCE {
        lemma_fade_search(d2, 0);
    }
    if 0 < d1 < FADE_DISTANCE && 0 < d2 < FADE_DISTANCE {
        let f1 = fade_of(d1);
        let f2 = fade_of(d2);
        if f1 > f2 {
            assert(FADE_DISTANCE * (f2 + 1) * (f2 + 1) <= FADE_DISTANCE * f1 * f1) by (nonlinear_arith)
                requires f1 >= f2 + 1, f2 >= 0;
        }
    }
}

/// The height, in rows, of a wall `d` steps away on a screen `height` rows high, rounded down.
pub open spec fn column_height(d: int, height: int) -> int {
    (height * WALL_SCALE) / abs(d)
}

/// The magnitude of `d`.
pub open spec fn abs(d: int) -> int {
    if d < 0 {
        -d
    } else {
        d
    }
}

/// A wall nearer than `WALL_SCALE` is taller than the screen and fills the whole column.
pub open spec fn fills_column(d: int) -> bool {
    abs(d) < WALL_SCALE
}

/// The row of a wall's top edge: the whole part of the margin above it.
pub open spec fn top_row(a: int, height: int) -> int {
    (height * a - height * WALL_SCALE) / (2 * a)
}

/// The row of a wall's bottom edge: the whole part of margin plus height.
pub open spec fn bottom_row(a: int, height: int) -> int {
    (height * a + height * WALL_SCALE) / (2 * a)
}

/// The fraction of the margin beyond its whole part, in eighths, rounded down.
pub open spec fn edge_eighths(a: int, height: int) -> int {
    (4 * (height * a - height * WALL_SCALE - 2 * a * top_row(a, height))) / a
}

/// The glyph of a wall's top edge, `e` eighths of the cell being margin.
pub open spec fn top_glyph_of(e: int) -> char {
    if e <= 0 {
        '\u{2588}'
    } else if e == 1 {
        '\u{2587}'
    } else if e == 2 {
        '\u{2586}'
    } else if e == 3 {
        '\u{2585}'
    } else if e == 4 {
        '\u{2584}'
    } else if e == 5 {
        '\u{2583}'
    } else if e == 6 {
        '\u{2582}'
    } else {
        '\u{2581}'
    }
}

/// The glyph of a wall's bottom edge, `e` eighths of the cell being wall.
pub open spec fn bottom_glyph_of(e: int) -> char {
    if e <= 0 {
        '\u{2581}'
    } else if e == 1 {
        '\u{2582}'
    } else if e == 2 {
        '\u{2583}'
    } else if e == 3 {
        '\u{2584}'
    } else if e == 4 {
        '\u{2585}'
    } else if e == 5 {
        '\u{2586}'
    } else if e == 6 {
        '\u{2587}'
    } else {
        '\u{2588}'
    }
}

/// A full block in shade `f`.
pub open spec fn solid(f: int) -> Pixel {
    Pixel { c: '\u{2588}', fg: f as u8, bg: f as u8 }
}

/// What a wall `d` steps away puts at row `y` of its column, on a screen `height` rows high;
/// `None` where the backdrop stays.
pub open spec fn wall_pixel(d: int, height: int, y: int) -> Option<Pixel> {
    let f = fade_of(d);
    let a = abs(d);
    if fills_column(d) {
        Some(solid(f))
    } else if y == bottom_row(a, height) {
        Some(Pixel { c: bottom_glyph_of(edge_eighths(a, height)), fg: 255, bg: f as u8 })
    } else if y == top_row(a, height) {
        Some(Pixel { c: top_glyph_of(edge_eighths(a, height)), fg: f as u8, bg: 255 })
    } else if top_row(a, height) < y < bottom_row(a, height) {
        Some(solid(f))
    } else {
        None
    }
}

/// `p` with the wall at distance `d` drawn over it, at row `y`.
pub open spec fn over(p: Pixel, d: int, height: int, y: int) -> Pixel {
    match wall_pixel(d, height, y) {
        Some(w) => w,
        None => p,
    }
}

fn top_glyph(e: u128) -> (r: char)
    ensures
        r == top_glyph_of(e as int),
{
    if e == 0 {
        '\u{2588}'
    } else if e == 1 {
        '\u{2587}'
    } else if e == 2 {
        '\u{2586}'
    } else if e == 3 {
        '\u{2585}'
    } else if e == 4 {
        '\u{2584}'
    } else if e == 5 {
        '\u{2583}'
    } else if e == 6 {
        '\u{2582}'
    } else {
        '\u{2581}'
    }
}

fn bottom_glyph(e: u128) -> (r: char)
    ensures
        r == bottom_glyph_of(e as int),
{
    if e == 0 {
        '\u{2581}'
    } else if e == 1 {
        '\u{2582}'
    } else if e == 2 {
        '\u{2583}'
    } else if e == 3 {
        '\u{2584}'
    } else if e == 4 {
        '\u{2585}'
    } else if e == 5 {
        '\u{2586}'
    } else if e == 6 {
        '\u{2587}'
    } else {
        '\u{2588}'
    }
}

/// The edges of a wall that does not fill its column lie on the screen, in order.
proof fn lemma_span(a: int, height: int)
    requires
        a >= WALL_SCALE,
        height >= 0,
    ensures
        0 <= top_row(a, height) <= bottom_row(a, height) <= height,
        top_row(a, height) < height || height == 0,
        0 <= edge_eighths(a, height) < 8,
{
    let n = height * a - height * WALL_SCALE;
    let m = height * a + height * WALL_SCALE;
    let t = n / (2 * a);
    let b = m / (2 * a);
    let q = (4 * (n - 2 * a * t)) / a;
    assert(0 <= n <= m <= 2 * a * height) by (nonlinear_arith)
        requires n == height * a - height * WALL_SCALE, m == height * a + height * WALL_SCALE,
            a >= WALL_SCALE, height >= 0;
    crate::geometry::lemma_div_bounds(n, 2 * a);
    crate::geometry::lemma_div_bounds(m, 2 * a);
    crate::geometry::lemma_div_bounds(4 * (n - 2 * a * t), a);
    assert(0 <= t <= b <= height) by (nonlinear_arith)
        requires 2 * a * t <= n, n < 2 * a * t + 2 * a, 2 * a * b <= m, m < 2 * a * b + 2 * a,
            0 <= n <= m <= 2 * a * height, a > 0;
    assert(t < height || height == 0) by (nonlinear_arith)
        requires 2 * a * t <= n, n == height * a - height * WALL_SCALE, a >= WALL_SCALE,
            height >= 0;
    assert(0 <= q < 8) by (nonlinear_arith)
        requires 2 * a * t <= n, n < 2 * a * t + 2 * a, a * q <= 4 * (n - 2 * a * t),
            4 * (n - 2 * a * t) < a * q + a, a > 0;
}

/// Farther walls are never taller: the height of a wall does not grow with its distance, a
/// wall fills its column exactly when its exact height `height * WALL_SCALE / d` exceeds the
/// screen's, and the edges of a farther wall lie within those of a nearer one.
pub proof fn lemma_column_height_monotonic(d1: int, d2: int, height: int)
    requires
        0 < d1 <= d2,
        height > 0,
    ensures
        column_height(d2, height) <= column_height(d1, height),
        fills_column(d1) <==> height * WALL_SCALE > height * d1,
        WALL_SCALE <= d1 ==> top_row(d1, height) <= top_row(d2, height) && bottom_row(d2, height)
            <= bottom_row(d1, height),
{
    vstd::arithmetic::div_mod::lemma_div_is_ordered_by_denominator(height * WALL_SCALE, d1, d2);
    assert(fills_column(d1) <==> height * WALL_SCALE > height * d1) by (nonlinear_arith)
        requires height > 0, d1 > 0;
    if WALL_SCALE <= d1 {
        let n1 = height * d1 - height * WALL_SCALE;
        let n2 = height * d2 - height * WALL_SCALE;
        let m1 = height * d1 + height * WALL_SCALE;
        let m2 = height * d2 + height * WALL_SCALE;
        assert(n1 * (2 * d2) <= n2 * (2 * d1) && m2 * (2 * d1) <= m1 * (2 * d2)) by (nonlinear_arith)
            requires n1 == height * d1 - height * WALL_SCALE, n2 == height * d2 - height * WALL_SCALE,
                m1 == height * d1 + height * WALL_SCALE, m2 == height * d2 + height * WALL_SCALE,
                0 < d1 <= d2, height > 0;
        lemma_floor_ordered(n1, 2 * d1, n2, 2 * d2);
        lemma_floor_ordered(m2, 2 * d2, m1, 2 * d1);
    }
}

/// `n1 / e1 <= n2 / e2` rounds down to ordered whole parts.
proof fn lemma_floor_ordered(n1: int, e1: int, n2: int, e2: int)
    requires
        e1 > 0,
        e2 > 0,
        n1 * e2 <= n2 * e1,
    ensures
        n1 / e1 <= n2 / e2,
{
    let q1 = n1 / e1;
    let q2 = n2 / e2;
    crate::geometry::lemma_div_bounds(n1, e1);
    crate::geometry::lemma_div_bounds(n2, e2);
    assert(q1 * e1 * e2 <= n1 * e2) by (nonlinear_arith)
        requires e1 * q1 <= n1, e2 > 0;
    assert(n2 * e1 < (q2 + 1) * e2 * e1) by (nonlinear_arith)
        requires n2 < e2 * q2 + e2, e1 > 0;
    assert(q1 <= q2) by (nonlinear_arith)
        requires q1 * e1 * e2 <= n1 * e2, n1 * e2 <= n2 * e1, n2 * e1 < (q2 + 1) * e2 * e1, e1 > 0,
            e2 > 0;
}

/// Draws the wall `d` steps away into column `x`, over what the column holds.
pub fn render_column(fb: &mut Framebuffer, x: usize, d: i64)
    requires
        old(fb).wf(),
        x < old(fb).width,
    ensures
        final(fb).wf(),
        final(fb).width == old(fb).width,
        final(fb).height == old(fb).height,
        forall|i: int, j: int|
            0 <= i < old(fb).width && 0 <= j < old(fb).height ==> #[trigger] final(fb).pixel(i, j)
                == if i == x {
                over(old(fb).pixel(i, j), d as int, old(fb).height as int, j)
            } else {
                old(fb).pixel(i, j)
            },
{
    let height = fb.height;
    if height == 0 {
        return;
    }
    let f = fade(d);
    let a: u128 = if d < 0 {
        (-(d as i128)) as u128
    } else {
        d as u128
    };
    let block = Pixel { c: '\u{2588}', fg: f, bg: f };
    assert(block == solid(fade_of(d as int)));
    if a < WALL_SCALE as u128 {
        let mut y: usize = 0;
        while y < height
            invariant
                fb.wf(),
                fb.width == old(fb).width,
                fb.height == height,
                height == old(fb).height,
                x < fb.width,
                fills_column(d as int),
                block == solid(fade_of(d as int)),
                y <= height,
                forall|i: int, j: int|
                    0 <= i < fb.width && 0 <= j < height ==> #[trigger] fb.pixel(i, j) == if i
                        == x && j < y {
                        block
                    } else {
                        old(fb).pixel(i, j)
                    },
            decreases height - y,
        {
            fb.set(x, y, block);
            y = y + 1;
        }
    } else {
        let h: u128 = height as u128;
        proof {
            lemma_span(a as int, height as int);
            assert(h * a <= 0x1_0000_0000_0000_0000 * 0x8000_0000_0000_0000) by (nonlinear_arith)
                requires h <= 0x1_0000_0000_0000_0000, a <= 0x8000_0000_0000_0000;
            assert(h * WALL_SCALE <= h * a) by (nonlinear_arith)
                requires a >= WALL_SCALE;
        }
        let n: u128 = h * a - h * 1250;
        let m: u128 = h * a + h * 1250;
        let t: u128 = n / (2 * a);
        let b: u128 = m / (2 * a);
        proof {
            crate::geometry::lemma_div_bounds(n as int, 2 * a);
        }
        let e: u128 = (4 * (n - 2 * a * t)) / a;
        assert(t == top_row(a as int, height as int));
        assert(b == bottom_row(a as int, height as int));
        assert(e == edge_eighths(a as int, height as int));
        let top = Pixel { c: top_glyph(e), fg: f, bg: 255 };
        let bottom = Pixel { c: bottom_glyph(e), fg: 255, bg: f };
        fb.set(x, t as usize, top);
        if b < h {
            fb.set(x, b as usize, bottom);
        }
        let ghost edged = *fb;
        let mut y: usize = t as usize + 1;
        while (y as u128) < b
            invariant
                fb.wf(),
                fb.width == old(fb).width,
                fb.height == height,
                height == old(fb).height,
                edged.wf(),
                edged.width == old(fb).width,
                edged.height == height,
                x < fb.width,
                h == height,
                b <= h,
                t < y,
                y <= b || y == t + 1,
                block == solid(fade_of(d as int)),
                forall|i: int, j: int|
                    0 <= i < fb.width && 0 <= j < height ==> #[trigger] fb.pixel(i, j) == if i
                        == x && t < j < y {
                        block
                    } else {
                        edged.pixel(i, j)
                    },
            decreases b - y,
        {
            fb.set(x, y, block);
            y = y + 1;
        }
        proof {
            assert forall|i: int, j: int|
                0 <= i < old(fb).width && 0 <= j < old(fb).height implies #[trigger] fb.pixel(i, j)
                    == if i == x {
                    over(old(fb).pixel(i, j), d as int, old(fb).height as int, j)
                } else {
                    old(fb).pixel(i, j)
                } by {
                assert(fb.pixel(i, j) == edged.pixel(i, j) || (i == x && t < j < b));
            }
        }
    }
}

/// Draws each column's wall, from the depth entry of that column, over the front buffer.
pub fn render_walls(screen: &mut Screen, depth_buf: &Vec<(char, i64)>)
    requires
        old(screen).wf(),
        depth_buf@.len() == old(screen).width,
    ensures
        final(screen).wf(),
        final(screen).width == old(screen).width,
        final(screen).height == old(screen).height,
        final(screen).previous == old(screen).previous,
        forall|i: int, j: int|
            0 <= i < old(screen).width && 0 <= j < old(screen).height
                ==> #[trigger] final(screen).front.pixel(i, j) == over(
                old(screen).front.pixel(i, j),
                depth_buf@[i].1 as int,
                old(screen).height as int,
                j,
            ),
{
    let width = screen.width;
    let mut x: usize = 0;
    while x < width
        invariant
            screen.wf(),
            screen.width == width,
            width == old(screen).width,
            screen.height == old(screen).height,
            screen.previous == old(screen).previous,
            depth_buf@.len() == width,
            x <= width,
            forall|i: int, j: int|
                0 <= i < width && 0 <= j < screen.height ==> #[trigger] screen.front.pixel(i, j)
                    == if i < x {
                    over(old(screen).front.pixel(i, j), depth_buf@[i].1 as int, screen.height as int, j)
                } else {
                    old(screen).front.pixel(i, j)
                },
        decreases width - x,
    {
        render_column(&mut screen.front, x, depth_buf[x].1);
        x = x + 1;
    }
}

/// Composes a frame into the front buffer: the backdrop, then the walls of the depth buffer.
pub fn compose_frame(screen: &mut Screen, depth_buf: &Vec<(char, i64)>)
    requires
        old(screen).wf(),
        depth_buf@.len() == old(screen).width,
    ensures
        final(screen).wf(),
        final(screen).width == old(screen).width,
        final(screen).height == old(screen).height,
        final(screen).previous == old(screen).previous,
        forall|i: int, j: int|
            0 <= i < old(screen).width && 0 <= j < old(screen).height
                ==> #[trigger] final(screen).front.pixel(i, j) == over(
                background_pixel(j, old(screen).height as int),
                depth_buf@[i].1 as int,
                old(screen).height as int,
                j,
            ),
{
    render_background(screen);
    render_walls(screen, depth_buf);
}

} // verus!
