use vstd::prelude::*;

use crate::camera::Camera;
use crate::geometry::{bound, floor_div, scaled, small, wrapped, Vector, TURN, UNIT};
use crate::map::{Grid, EMPTY};

verus! {

/// Steps a ray takes per map cell of its path; distances count in these steps.
pub const STEPS_PER_UNIT: i64 = 1000;

/// Fixed-point scale of a ray's sample points: this many units make one map cell.
pub open spec fn sample_scale() -> int {
    UNIT * STEPS_PER_UNIT
}

/// The sample point `k` steps from `p` along `v`, in units of `1 / sample_scale()`.
pub open spec fn ray_point(p: Vector, v: Vector, k: int) -> (int, int) {
    (p.x * STEPS_PER_UNIT + v.x * k, p.y * STEPS_PER_UNIT + v.y * k)
}

/// What the ray from `p` along `v` meets at its `k`-th sample: `Some(EMPTY)` once it has
/// left the grid, `Some(c)` at a cell holding `c`, `None` in an empty cell.
pub open spec fn probe(grid: Grid, p: Vector, v: Vector, k: int) -> Option<char> {
    let (px, py) = ray_point(p, v, k);
    if px < 0 || py < 0 || px >= grid.w * sample_scale() || py >= grid.h * sample_scale() {
        Some(EMPTY)
    } else {
        let c = grid.cell(px / sample_scale(), py / sample_scale());
        if c != EMPTY {
            Some(c)
        } else {
            None
        }
    }
}

/// The most steps a ray takes: enough to cross the grid along any unit direction.
pub open spec fn max_steps(grid: Grid) -> int {
    (grid.w + grid.h + 1) * STEPS_PER_UNIT
}

/// The symbol and the step count of the first sample from step `k` on that meets
/// something, or the empty symbol at the last step when none does.
pub open spec fn first_hit(grid: Grid, p: Vector, v: Vector, k: int) -> (char, int)
    decreases max_steps(grid) - k,
{
    match probe(grid, p, v, k) {
        Some(c) => (c, k),
        None => if k >= max_steps(grid) {
            (EMPTY, k)
        } else {
            first_hit(grid, p, v, k + 1)
        },
    }
}

/// A grid whose step counts fit in `i64`.
pub open spec fn grid_fits(grid: Grid) -> bool {
    &&& grid.wf()
    &&& max_steps(grid) <= i64::MAX
}

/// The sample point `k` steps from `p` along `v`.
pub fn march(p: Vector, v: Vector, k: i64) -> (r: (i128, i128))
    requires
        0 <= k,
    ensures
        r.0 == ray_point(p, v, k as int).0,
        r.1 == ray_point(p, v, k as int).1,
{
    proof {
        lemma_product_fits(v.x as int, k as int);
        lemma_product_fits(v.y as int, k as int);
        lemma_product_fits(p.x as int, STEPS_PER_UNIT as int);
        lemma_product_fits(p.y as int, STEPS_PER_UNIT as int);
    }
    let x = p.x as i128 * STEPS_PER_UNIT as i128 + v.x as i128 * k as i128;
    let y = p.y as i128 * STEPS_PER_UNIT as i128 + v.y as i128 * k as i128;
    (x, y)
}

proof fn lemma_product_fits(a: int, k: int)
    requires
        i64::MIN <= a <= i64::MAX,
        0 <= k <= i64::MAX,
    ensures
        -0x4000_0000_0000_0000_0000_0000_0000_0000 <= a * k <= 0x4000_0000_0000_0000_0000_0000_0000_0000,
{
    assert(-0x4000_0000_0000_0000_0000_0000_0000_0000 <= a * k <= 0x4000_0000_0000_0000_0000_0000_0000_0000) by (nonlinear_arith)
        requires i64::MIN <= a <= i64::MAX, 0 <= k <= i64::MAX;
}

/// What the `k`-th sample of the ray meets.
fn probe_at(grid: &Grid, p: Vector, v: Vector, k: i64) -> (r: Option<char>)
    requires
        grid.wf(),
        0 <= k,
    ensures
        r == probe(*grid, p, v, k as int),
{
    let (px, py) = march(p, v, k);
    let scale: i128 = 1_000_000_000;
    proof {
        assert(scale == sample_scale());
        let w = grid.w as int;
        let h = grid.h as int;
        assert(w * scale <= 0x1_0000_0000_0000_0000 * 1_000_000_000 && h * scale <= 0x1_0000_0000_0000_0000 * 1_000_000_000) by (nonlinear_arith)
            requires 0 <= w <= 0x1_0000_0000_0000_0000, 0 <= h <= 0x1_0000_0000_0000_0000, scale == 1_000_000_000;
    }
    let wmax: i128 = grid.w as i128 * scale;
    let hmax: i128 = grid.h as i128 * scale;
    if px < 0 || py < 0 || px >= wmax || py >= hmax {
        Some(EMPTY)
    } else {
        let cx: i128 = px / scale;
        let cy: i128 = py / scale;
        proof {
            assert(cx < grid.w && cy < grid.h) by (nonlinear_arith)
                requires cx == px / scale, cy == py / scale, 0 <= px < wmax, 0 <= py < hmax,
                    wmax == grid.w * scale, hmax == grid.h * scale, scale > 0;
        }
        let c = grid.m[cy as usize][cx as usize];
        if c != EMPTY {
            Some(c)
        } else {
            None
        }
    }
}

/// Casts a ray from `p` along `v` in steps of `v / STEPS_PER_UNIT`, and returns the symbol it
/// first meets with the number of steps taken. For a unit vector `v` (length `UNIT`) a step is
/// `1 / STEPS_PER_UNIT` of a cell and the step count is the Euclidean distance travelled in
/// those units; for any other `v` it is that distance divided by `|v| / UNIT`. A ray that leaves the grid, or that meets nothing
/// within `max_steps`, returns the empty symbol.
pub fn shoot_vector(grid: &Grid, p: Vector, v: Vector) -> (r: (char, i64))
    requires
        grid_fits(*grid),
    ensures
        r.0 == first_hit(*grid, p, v, 1).0,
        r.1 == first_hit(*grid, p, v, 1).1,
        1 <= r.1 <= max_steps(*grid),
{
    let max: i64 = ((grid.w as u128 + grid.h as u128 + 1) * STEPS_PER_UNIT as u128) as i64;
    let mut k: i64 = 1;
    while k < max
        invariant
            grid_fits(*grid),
            max == max_steps(*grid),
            1 <= k <= max,
            first_hit(*grid, p, v, 1) == first_hit(*grid, p, v, k as int),
        decreases max - k,
    {
        if let Some(c) = probe_at(grid, p, v, k) {
            return (c, k);
        }
        k = k + 1;
    }
    match probe_at(grid, p, v, k) {
        Some(c) => (c, k),
        None => (EMPTY, k),
    }
}

/// Along the `x` axis, through empty cells of the row of `p` up to a filled cell in column `c`, a
/// ray meets that cell at step `hit`: the first step whose sample point reaches the cell's
/// near face, so that the distance returned is that of the face within one step.
pub proof fn lemma_ray_along_x_meets_wall(grid: Grid, p: Vector, c: int, hit: int)
    requires
        grid_fits(grid),
        0 <= p.x,
        0 <= p.y < grid.h * UNIT,
        0 <= c < grid.w,
        hit >= 1,
        p.x * STEPS_PER_UNIT + UNIT * (hit - 1) < c * sample_scale(),
        c * sample_scale() <= p.x * STEPS_PER_UNIT + UNIT * hit,
        forall|x: int| p.x / UNIT <= x < c ==> #[trigger] grid.cell(x, p.y / UNIT) == EMPTY,
        grid.cell(c, p.y / UNIT) != EMPTY,
    ensures
        first_hit(grid, p, Vector { x: UNIT, y: 0 }, 1) == (grid.cell(c, p.y / UNIT), hit),
{
    lemma_ray_along_x_from(grid, p, c, hit, 1);
}

proof fn lemma_ray_along_x_from(grid: Grid, p: Vector, c: int, hit: int, k: int)
    requires
        grid_fits(grid),
        0 <= p.x,
        0 <= p.y < grid.h * UNIT,
        0 <= c < grid.w,
        1 <= k <= hit,
        p.x * STEPS_PER_UNIT + UNIT * (hit - 1) < c * sample_scale(),
        c * sample_scale() <= p.x * STEPS_PER_UNIT + UNIT * hit,
        forall|x: int| p.x / UNIT <= x < c ==> #[trigger] grid.cell(x, p.y / UNIT) == EMPTY,
        grid.cell(c, p.y / UNIT) != EMPTY,
    ensures
        first_hit(grid, p, Vector { x: UNIT, y: 0 }, k) == (grid.cell(c, p.y / UNIT), hit),
    decreases hit - k,
{
    let v = Vector { x: UNIT, y: 0 };
    let s = 1_000_000_000int;
    let px = p.x * 1000 + 1_000_000 * k;
    let py = p.y * 1000;
    assert(ray_point(p, v, k) == (px, py));
    assert(sample_scale() == s);
    crate::geometry::lemma_div_bounds(px, s);
    crate::geometry::lemma_div_bounds(py, s);
    crate::geometry::lemma_div_bounds(p.x as int, 1_000_000);
    crate::geometry::lemma_div_bounds(p.y as int, 1_000_000);
    assert(py / s == p.y / UNIT);
    assert(px / s >= p.x / UNIT);
    assert(0 <= py < grid.h * s);
    if k == hit {
        assert(px / s == c);
        assert(probe(grid, p, v, k) == Some(grid.cell(c, p.y / UNIT)));
    } else {
        assert(px < c * s);
        assert(px / s < c);
        assert(probe(grid, p, v, k) == None::<char>);
        assert(k < max_steps(grid));
        lemma_ray_along_x_from(grid, p, c, hit, k + 1);
    }
}

/// Against the `x` axis, through empty cells of the row of `p` down to a filled cell in column `c`,
/// a ray meets that cell at step `hit`: the first step whose sample point reaches the cell's
/// near face, so that the distance returned is that of the face within one step.
pub proof fn lemma_ray_against_x_meets_wall(grid: Grid, p: Vector, c: int, hit: int)
    requires
        grid_fits(grid),
        0 <= p.x < grid.w * UNIT,
        0 <= p.y < grid.h * UNIT,
        0 <= c,
        hit >= 1,
        p.x * STEPS_PER_UNIT - UNIT * hit < (c + 1) * sample_scale(),
        (c + 1) * sample_scale() <= p.x * STEPS_PER_UNIT - UNIT * (hit - 1),
        forall|x: int| c < x <= p.x / UNIT ==> #[trigger] grid.cell(x, p.y / UNIT) == EMPTY,
        grid.cell(c, p.y / UNIT) != EMPTY,
    ensures
        first_hit(grid, p, Vector { x: -1_000_000i64, y: 0 }, 1) == (grid.cell(c, p.y / UNIT), hit),
{
    lemma_ray_against_x_from(grid, p, c, hit, 1);
}

proof fn lemma_ray_against_x_from(grid: Grid, p: Vector, c: int, hit: int, k: int)
    requires
        grid_fits(grid),
        0 <= p.x < grid.w * UNIT,
        0 <= p.y < grid.h * UNIT,
        0 <= c,
        1 <= k <= hit,
        p.x * STEPS_PER_UNIT - UNIT * hit < (c + 1) * sample_scale(),
        (c + 1) * sample_scale() <= p.x * STEPS_PER_UNIT - UNIT * (hit - 1),
        forall|x: int| c < x <= p.x / UNIT ==> #[trigger] grid.cell(x, p.y / UNIT) == EMPTY,
        grid.cell(c, p.y / UNIT) != EMPTY,
    ensures
        first_hit(grid, p, Vector { x: -1_000_000i64, y: 0 }, k) == (grid.cell(c, p.y / UNIT), hit),
    decreases hit - k,
{
    let v = Vector { x: -1_000_000i64, y: 0 };
    let s = 1_000_000_000int;
    let px = p.x * 1000 - 1_000_000 * k;
    let py = p.y * 1000;
    assert(ray_point(p, v, k) == (px, py));
    assert(sample_scale() == s);
    crate::geometry::lemma_div_bounds(px, s);
    crate::geometry::lemma_div_bounds(py, s);
    crate::geometry::lemma_div_bounds(p.x as int, 1_000_000);
    crate::geometry::lemma_div_bounds(p.y as int, 1_000_000);
    assert(py / s == p.y / UNIT);
    assert(px / s <= p.x / UNIT);
    assert(0 <= py < grid.h * s);
    assert(0 <= px < grid.w * s);
    if k == hit {
        assert(px / s == c);
        assert(probe(grid, p, v, k) == Some(grid.cell(c, p.y / UNIT)));
    } else {
        assert(px >= (c + 1) * s);
        assert(px / s > c);
        assert(probe(grid, p, v, k) == None::<char>);
        assert(k < max_steps(grid));
        lemma_ray_against_x_from(grid, p, c, hit, k + 1);
    }
}

/// Along the `y` axis, through empty cells of the column of `p` up to a filled cell in row `c`, a
/// ray meets that cell at step `hit`: the first step whose sample point reaches the cell's
/// near face, so that the distance returned is that of the face within one step.
pub proof fn lemma_ray_along_y_meets_wall(grid: Grid, p: Vector, c: int, hit: int)
    requires
        grid_fits(grid),
        0 <= p.y,
        0 <= p.x < grid.w * UNIT,
        0 <= c < grid.h,
        hit >= 1,
        p.y * STEPS_PER_UNIT + UNIT * (hit - 1) < c * sample_scale(),
        c * sample_scale() <= p.y * STEPS_PER_UNIT + UNIT * hit,
        forall|y: int| p.y / UNIT <= y < c ==> #[trigger] grid.cell(p.x / UNIT, y) == EMPTY,
        grid.cell(p.x / UNIT, c) != EMPTY,
    ensures
        first_hit(grid, p, Vector { x: 0, y: UNIT }, 1) == (grid.cell(p.x / UNIT, c), hit),
{
    lemma_ray_along_y_from(grid, p, c, hit, 1);
}

proof fn lemma_ray_along_y_from(grid: Grid, p: Vector, c: int, hit: int, k: int)
    requires
        grid_fits(grid),
        0 <= p.y,
        0 <= p.x < grid.w * UNIT,
        0 <= c < grid.h,
        1 <= k <= hit,
        p.y * STEPS_PER_UNIT + UNIT * (hit - 1) < c * sample_scale(),
        c * sample_scale() <= p.y * STEPS_PER_UNIT + UNIT * hit,
        forall|y: int| p.y / UNIT <= y < c ==> #[trigger] grid.cell(p.x / UNIT, y) == EMPTY,
        grid.cell(p.x / UNIT, c) != EMPTY,
    ensures
        first_hit(grid, p, Vector { x: 0, y: UNIT }, k) == (grid.cell(p.x / UNIT, c), hit),
    decreases hit - k,
{
    let v = Vector { x: 0, y: UNIT };
    let s = 1_000_000_000int;
    let px = p.y * 1000 + 1_000_000 * k;
    let py = p.x * 1000;
    assert(ray_point(p, v, k) == (py, px));
    assert(sample_scale() == s);
    crate::geometry::lemma_div_bounds(px, s);
    crate::geometry::lemma_div_bounds(py, s);
    crate::geometry::lemma_div_bounds(p.y as int, 1_000_000);
    crate::geometry::lemma_div_bounds(p.x as int, 1_000_000);
    assert(py / s == p.x / UNIT);
    assert(px / s >= p.y / UNIT);
    assert(0 <= py < grid.w * s);
    if k == hit {
        assert(px / s == c);
        assert(probe(grid, p, v, k) == Some(grid.cell(p.x / UNIT, c)));
    } else {
        assert(px < c * s);
        assert(px / s < c);
        assert(probe(grid, p, v, k) == None::<char>);
        assert(k < max_steps(grid));
        lemma_ray_along_y_from(grid, p, c, hit, k + 1);
    }
}

/// Against the `y` axis, through empty cells of the column of `p` down to a filled cell in row `c`,
/// a ray meets that cell at step `hit`: the first step whose sample point reaches the cell's
/// near face, so that the distance returned is that of the face within one step.
pub proof fn lemma_ray_against_y_meets_wall(grid: Grid, p: Vector, c: int, hit: int)
    requires
        grid_fits(grid),
        0 <= p.y < grid.h * UNIT,
        0 <= p.x < grid.w * UNIT,
        0 <= c,
        hit >= 1,
        p.y * STEPS_PER_UNIT - UNIT * hit < (c + 1) * sample_scale(),
        (c + 1) * sample_scale() <= p.y * STEPS_PER_UNIT - UNIT * (hit - 1),
        forall|y: int| c < y <= p.y / UNIT ==> #[trigger] grid.cell(p.x / UNIT, y) == EMPTY,
        grid.cell(p.x / UNIT, c) != EMPTY,
    ensures
        first_hit(grid, p, Vector { x: 0, y: -1_000_000i64 }, 1) == (grid.cell(p.x / UNIT, c), hit),
{
    lemma_ray_against_y_from(grid, p, c, hit, 1);
}

proof fn lemma_ray_against_y_from(grid: Grid, p: Vector, c: int, hit: int, k: int)
    requires
        grid_fits(grid),
        0 <= p.y < grid.h * UNIT,
        0 <= p.x < grid.w * UNIT,
        0 <= c,
        1 <= k <= hit,
        p.y * STEPS_PER_UNIT - UNIT * hit < (c + 1) * sample_scale(),
        (c + 1) * sample_scale() <= p.y * STEPS_PER_UNIT - UNIT * (hit - 1),
        forall|y: int| c < y <= p.y / UNIT ==> #[trigger] grid.cell(p.x / UNIT, y) == EMPTY,
        grid.cell(p.x / UNIT, c) != EMPTY,
    ensures
        first_hit(grid, p, Vector { x: 0, y: -1_000_000i64 }, k) == (grid.cell(p.x / UNIT, c), hit),
    decreases hit - k,
{
    let v = Vector { x: 0, y: -1_000_000i64 };
    let s = 1_000_000_000int;
    let px = p.y * 1000 - 1_000_000 * k;
    let py = p.x * 1000;
    assert(ray_point(p, v, k) == (py, px));
    assert(sample_scale() == s);
    crate::geometry::lemma_div_bounds(px, s);
    crate::geometry::lemma_div_bounds(py, s);
    crate::geometry::lemma_div_bounds(p.y as int, 1_000_000);
    crate::geometry::lemma_div_bounds(p.x as int, 1_000_000);
    assert(py / s == p.x / UNIT);
    assert(px / s <= p.y / UNIT);
    assert(0 <= py < grid.w * s);
    assert(0 <= px < grid.h * s);
    if k == hit {
        assert(px / s == c);
        assert(probe(grid, p, v, k) == Some(grid.cell(p.x / UNIT, c)));
    } else {
        assert(px >= (c + 1) * s);
        assert(px / s > c);
        assert(probe(grid, p, v, k) == None::<char>);
        assert(k < max_steps(grid));
        lemma_ray_against_y_from(grid, p, c, hit, k + 1);
    }
}

/// The heading of column `i` of `width`: the field of view spread evenly across the columns,
/// from half of it to the right of the camera's heading.
pub open spec fn column_heading_of(dir: int, fov: int, width: int, i: int) -> int {
    wrapped(dir - fov / 2 + (fov * i) / width, 0, TURN as int)
}

/// The heading of the ray cast for column `i` of a screen `width` columns wide.
pub fn column_heading(cam: &Camera, width: usize, i: usize) -> (r: i64)
    requires
        cam.wf(),
        i < width,
    ensures
        r == column_heading_of(cam.dir as int, cam.fov as int, width as int, i as int),
        0 <= r < TURN,
{
    let fov: i128 = cam.fov as i128;
    let w: i128 = width as i128;
    proof {
        assert(0 <= fov * i <= 1_440_000 * 0x1_0000_0000_0000_0000) by (nonlinear_arith)
            requires 0 <= fov <= 1_440_000, 0 <= i <= 0x1_0000_0000_0000_0000;
    }
    let q: i128 = (fov * i as i128) / w;
    proof {
        let fi = fov * i;
        crate::geometry::lemma_div_bounds(fi, w as int);
        assert(0 <= q <= fov) by (nonlinear_arith)
            requires w * q <= fi, fi < w * q + w, fi == fov * i, 0 <= i < w, 0 <= fov;
    }
    let a: i128 = cam.dir as i128 - fov / 2 + q;
    bound(a as i64, 0, TURN)
}

/// The heading of every column of a screen `width` columns wide.
pub fn column_headings(cam: &Camera, width: usize) -> (r: Vec<i64>)
    requires
        cam.wf(),
    ensures
        r@.len() == width,
        forall|i: int|
            0 <= i < width ==> r@[i] == column_heading_of(
                cam.dir as int,
                cam.fov as int,
                width as int,
                i,
            ),
{
    let mut r: Vec<i64> = Vec::new();
    let mut i: usize = 0;
    while i < width
        invariant
            cam.wf(),
            i <= width,
            r@.len() == i,
            forall|j: int|
                0 <= j < i ==> r@[j] == column_heading_of(
                    cam.dir as int,
                    cam.fov as int,
                    width as int,
                    j,
                ),
        decreases width - i,
    {
        r.push(column_heading(cam, width, i));
        i = i + 1;
    }
    r
}

/// Ray length `raw` shortened by `cos`, the cosine of the ray's angle off the camera's
/// heading in units of `1 / UNIT`: the distance from the camera's plane, without the
/// fisheye bulge of distances measured along the rays.
pub fn correct_distance(raw: i64, cos: i64) -> (r: i64)
    requires
        0 <= raw,
        -UNIT <= cos <= UNIT,
    ensures
        r == scaled(raw as int, cos as int),
        -raw <= r <= raw,
{
    proof {
        let p = raw * cos;
        crate::geometry::lemma_div_bounds(p, UNIT as int);
        let q = p / (UNIT as int);
        assert(-raw <= q <= raw) by (nonlinear_arith)
            requires 1_000_000 * q <= p, p < 1_000_000 * q + 1_000_000, p == raw * cos,
                0 <= raw, -1_000_000 <= cos <= 1_000_000;
        assert(-0x1_0000_0000_0000_0000_0000_0000 <= p <= 0x1_0000_0000_0000_0000_0000_0000) by (nonlinear_arith)
            requires p == raw * cos, 0 <= raw <= i64::MAX, -1_000_000 <= cos <= 1_000_000;
    }
    floor_div(raw as i128 * cos as i128, UNIT as i128) as i64
}

/// The cosine of the angle between `v` and `f`, unit vectors in fixed point: their dot
/// product over `UNIT`, rounded down and held within `[-UNIT, UNIT]` against rounding in the
/// vectors.
pub open spec fn cosine_of(v: Vector, f: Vector) -> int {
    let c = (v.x * f.x + v.y * f.y) / (UNIT as int);
    if c < -UNIT {
        -UNIT as int
    } else if c > UNIT {
        UNIT as int
    } else {
        c
    }
}

/// The cosine of the angle between `v` and `f`.
pub fn cosine(v: Vector, f: Vector) -> (r: i64)
    requires
        small(v.x as int),
        small(v.y as int),
        small(f.x as int),
        small(f.y as int),
    ensures
        r == cosine_of(v, f),
        -UNIT <= r <= UNIT,
{
    proof {
        assert(-0x1_0000_0000_0000_0000_0000 <= v.x * f.x <= 0x1_0000_0000_0000_0000_0000) by (nonlinear_arith)
            requires small(v.x as int), small(f.x as int);
        assert(-0x1_0000_0000_0000_0000_0000 <= v.y * f.y <= 0x1_0000_0000_0000_0000_0000) by (nonlinear_arith)
            requires small(v.y as int), small(f.y as int);
    }
    let dot: i128 = v.x as i128 * f.x as i128 + v.y as i128 * f.y as i128;
    let c = floor_div(dot, UNIT as i128);
    if c < -(UNIT as i128) {
        -UNIT
    } else if c > UNIT as i128 {
        UNIT
    } else {
        c as i64
    }
}

/// The cosine between each of `dirs` and `facing`.
pub fn column_cosines(dirs: &Vec<Vector>, facing: Vector) -> (r: Vec<i64>)
    requires
        small(facing.x as int),
        small(facing.y as int),
        forall|i: int| 0 <= i < dirs@.len() ==> small(#[trigger] dirs@[i].x as int) && small(dirs@[i].y as int),
    ensures
        r@.len() == dirs@.len(),
        forall|i: int| 0 <= i < dirs@.len() ==> #[trigger] r@[i] == cosine_of(dirs@[i], facing),
        forall|i: int| 0 <= i < r@.len() ==> -UNIT <= #[trigger] r@[i] <= UNIT,
{
    let mut r: Vec<i64> = Vec::new();
    let mut i: usize = 0;
    while i < dirs.len()
        invariant
            small(facing.x as int),
            small(facing.y as int),
            forall|i: int| 0 <= i < dirs@.len() ==> small(#[trigger] dirs@[i].x as int) && small(dirs@[i].y as int),
            i <= dirs@.len(),
            r@.len() == i,
            forall|j: int| 0 <= j < i ==> #[trigger] r@[j] == cosine_of(dirs@[j], facing),
            forall|j: int| 0 <= j < i ==> -UNIT <= #[trigger] r@[j] <= UNIT,
        decreases dirs@.len() - i,
    {
        r.push(cosine(dirs[i], facing));
        i = i + 1;
    }
    r
}

/// A camera facing along the `x` axis sees a flat wall face across that axis at its true
/// distance: whatever the direction `v` of a column's ray, if the ray first meets the grid at
/// the step where it crosses the face at `x == face` (in cells), its corrected distance
/// differs from the perpendicular distance `face - p.x` by less than one step.
pub proof fn lemma_flat_wall_corrected(grid: Grid, p: Vector, v: Vector, face: int)
    requires
        0 < v.x <= UNIT,
        small(v.y as int),
        ({
            let k = first_hit(grid, p, v, 1).1;
            &&& p.x * STEPS_PER_UNIT + v.x * (k - 1) < face * sample_scale()
            &&& face * sample_scale() <= p.x * STEPS_PER_UNIT + v.x * k
        }),
    ensures
        ({
            let d = scaled(first_hit(grid, p, v, 1).1, cosine_of(v, Vector { x: UNIT, y: 0 }));
            let perp = face * sample_scale() - p.x * STEPS_PER_UNIT;
            &&& perp <= d * UNIT + UNIT
            &&& d * UNIT < perp + UNIT
        }),
{
    let k = first_hit(grid, p, v, 1).1;
    let f = Vector { x: UNIT, y: 0 };
    assert(v.x * f.x + v.y * f.y == v.x * 1_000_000) by (nonlinear_arith)
        requires f.x == 1_000_000, f.y == 0;
    crate::geometry::lemma_div_bounds(v.x * 1_000_000, 1_000_000);
    assert((v.x * 1_000_000) / 1_000_000 == v.x);
    assert(cosine_of(v, f) == v.x);
    let n = k * v.x;
    let d = n / 1_000_000;
    crate::geometry::lemma_div_bounds(n, 1_000_000);
    assert(k * v.x == v.x * (k - 1) + v.x) by (nonlinear_arith);
    assert(v.x * k == k * v.x) by (nonlinear_arith);
    assert(scaled(k, cosine_of(v, f)) == d);
    let perp = face * sample_scale() - p.x * STEPS_PER_UNIT;
    assert(perp <= n && n < perp + UNIT);
    assert(1_000_000 * d <= n && n < 1_000_000 * d + 1_000_000);
}

/// Casts one ray per column, from `pos` along `dirs[i]` (unit vectors), and keeps for each
/// the symbol met and the distance corrected by `cosines[i]`.
pub fn cast_columns(grid: &Grid, pos: Vector, dirs: &Vec<Vector>, cosines: &Vec<i64>) -> (r: Vec<(char, i64)>)
    requires
        grid_fits(*grid),
        dirs@.len() == cosines@.len(),
        forall|i: int| 0 <= i < cosines@.len() ==> -UNIT <= #[trigger] cosines@[i] <= UNIT,
    ensures
        r@.len() == dirs@.len(),
        forall|i: int|
            0 <= i < dirs@.len() ==> (#[trigger] r@[i]).0 == first_hit(*grid, pos, dirs@[i], 1).0
                && r@[i].1 == scaled(first_hit(*grid, pos, dirs@[i], 1).1, cosines@[i] as int),
{
    let mut r: Vec<(char, i64)> = Vec::new();
    let mut i: usize = 0;
    while i < dirs.len()
        invariant
            grid_fits(*grid),
            dirs@.len() == cosines@.len(),
            forall|i: int| 0 <= i < cosines@.len() ==> -UNIT <= #[trigger] cosines@[i] <= UNIT,
            i <= dirs@.len(),
            r@.len() == i,
            forall|j: int|
                0 <= j < i ==> (#[trigger] r@[j]).0 == first_hit(*grid, pos, dirs@[j], 1).0
                    && r@[j].1 == scaled(first_hit(*grid, pos, dirs@[j], 1).1, cosines@[j] as int),
        decreases dirs@.len() - i,
    {
        let (c, raw) = shoot_vector(grid, pos, dirs[i]);
        let d = correct_distance(raw, cosines[i]);
        r.push((c, d));
        i = i + 1;
    }
    r
}

} // verus!
