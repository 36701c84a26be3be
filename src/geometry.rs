use vstd::prelude::*;
use vstd::arithmetic::div_mod::lemma_fundamental_div_mod_converse;


verus! {

/// Fixed-point scale of positions and vector components: this many units make one map cell.
pub const UNIT: i64 = 1_000_000;

/// Fixed-point scale of headings: this many units make one full turn.
pub const TURN: i64 = 1_440_000;

/// `p / q` rounded down.
pub fn floor_div(p: i128, q: i128) -> (r: i128)
    requires
        q > 0,
        p > i128::MIN,
    ensures
        r == p / q,
{
    if p >= 0 {
        p / q
    } else {
        let np: i128 = -p;
        let t = np / q;
        let m = np % q;
        proof {
            let n: int = np as int;
            let qi: int = q as int;
            assert(n == (n / qi) * qi + n % qi && 0 <= n % qi < qi) by (nonlinear_arith)
                requires qi > 0;
            assert(t == n / qi);
            assert(m == n % qi);
        }
        if m == 0 {
            proof {
                assert(p == (-t) * q) by (nonlinear_arith)
                    requires np == t * q + m, m == 0, np == -p;
                lemma_fundamental_div_mod_converse(p as int, q as int, -t, 0);
            }
            -t
        } else {
            proof {
                assert(p == (-t - 1) * q + (q - m)) by (nonlinear_arith)
                    requires np == t * q + m, np == -p;
                lemma_fundamental_div_mod_converse(p as int, q as int, -t - 1, q - m);
            }
            -t - 1
        }
    }
}

/// `f` brought into `[min, max)` by whole multiples of `max - min`.
pub open spec fn wrapped(f: int, min: int, max: int) -> int {
    min + (f - min) % (max - min)
}

/// Wraps `f` into `[min, max)`, as adding or subtracting `max - min` until it lands there
/// would.
pub fn bound(f: i64, min: i64, max: i64) -> (r: i64)
    requires
        min < max,
    ensures
        r == wrapped(f as int, min as int, max as int),
        min <= r < max,
{
    let range: i128 = max as i128 - min as i128;
    let d: i128 = f as i128 - min as i128;
    let q = floor_div(d, range);
    proof {
        assert(d == q * range + d % range) by (nonlinear_arith)
            requires range > 0, q == d / range;
        assert(0 <= d % range < range) by (nonlinear_arith)
            requires range > 0;
    }
    let m: i128 = d - q * range;
    (min as i128 + m) as i64
}

/// A point or a displacement in the plane, in units of `1 / UNIT` of a map cell.
#[derive(PartialEq, Eq, Structural, Clone, Copy, Debug)]
pub struct Vector {
    pub x: i64,
    pub y: i64,
}

/// `a * k`, where `k` counts in units of `1 / UNIT`, rounded down.
pub open spec fn scaled(a: int, k: int) -> int {
    (a * k) / (UNIT as int)
}

/// Values whose fixed-point products stay far inside `i64`.
pub open spec fn small(a: int) -> bool {
    -0x100_0000_0000 <= a <= 0x100_0000_0000
}

impl Vector {
    pub fn add(self, other: Vector) -> (r: Vector)
        requires
            i64::MIN <= self.x + other.x <= i64::MAX,
            i64::MIN <= self.y + other.y <= i64::MAX,
        ensures
            r.x == self.x + other.x,
            r.y == self.y + other.y,
    {
        Vector { x: self.x + other.x, y: self.y + other.y }
    }

    pub fn sub(self, other: Vector) -> (r: Vector)
        requires
            i64::MIN <= self.x - other.x <= i64::MAX,
            i64::MIN <= self.y - other.y <= i64::MAX,
        ensures
            r.x == self.x - other.x,
            r.y == self.y - other.y,
    {
        Vector { x: self.x - other.x, y: self.y - other.y }
    }

    /// The vector scaled by `k / UNIT`, each component rounded down.
    pub fn mul(self, k: i64) -> (r: Vector)
        requires
            small(self.x as int),
            small(self.y as int),
            small(k as int),
        ensures
            r.x == scaled(self.x as int, k as int),
            r.y == scaled(self.y as int, k as int),
    {
        proof {
            lemma_scaled_fits(self.x as int, k as int);
            lemma_scaled_fits(self.y as int, k as int);
        }
        let x = floor_div(self.x as i128 * k as i128, UNIT as i128);
        let y = floor_div(self.y as i128 * k as i128, UNIT as i128);
        Vector { x: x as i64, y: y as i64 }
    }
}

/// `p / d` is the whole number of times `d` fits in `p`.
pub proof fn lemma_div_bounds(p: int, d: int)
    requires
        d > 0,
    ensures
        d * (p / d) <= p < d * (p / d) + d,
{
    vstd::arithmetic::div_mod::lemma_fundamental_div_mod(p, d);
    vstd::arithmetic::div_mod::lemma_mod_bound(p, d);
}

proof fn lemma_scaled_fits(a: int, k: int)
    requires
        small(a),
        small(k),
    ensures
        -0x2000_0000_0000_0000 <= scaled(a, k) <= 0x2000_0000_0000_0000,
        -0x1_0000_0000_0000_0000_0000 <= a * k <= 0x1_0000_0000_0000_0000_0000,
{
    assert(-0x1_0000_0000_0000_0000_0000 <= a * k <= 0x1_0000_0000_0000_0000_0000) by (nonlinear_arith)
        requires small(a), small(k);
    lemma_div_bounds(a * k, UNIT as int);
}

} // verus!
