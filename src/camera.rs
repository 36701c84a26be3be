use vstd::prelude::*;
use vstd::arithmetic::div_mod::{lemma_add_mod_noop_right, lemma_mod_multiples_vanish};

use crate::geometry::{bound, scaled, small, wrapped, Vector, TURN};

verus! {

/// Where the viewer stands and looks: `dir` is the heading in units of `1 / TURN` of a full
/// turn, `fov` the field of view in the same units.
#[derive(PartialEq, Eq, Structural, Clone, Copy, Debug)]
pub struct Camera {
    pub pos: Vector,
    pub dir: i64,
    pub fov: i64,
}

/// The heading after turning from `dir` by `change`.
pub open spec fn turned(dir: int, change: int) -> int {
    wrapped(dir + change, 0, TURN as int)
}

/// The heading after turning from `dir` by `change`, `n` times over.
pub open spec fn turned_times(dir: int, change: int, n: nat) -> int
    decreases n,
{
    if n == 0 {
        dir
    } else {
        turned(turned_times(dir, change, (n - 1) as nat), change)
    }
}

/// `v` turned a quarter turn counterclockwise: the direction of heading `h + TURN / 4` when
/// `v` is that of heading `h`.
pub open spec fn quarter_turn(v: Vector) -> Vector {
    Vector { x: (-v.y) as i64, y: v.x }
}

/// `pos` moved by `dist` along `v`, both in fixed point.
pub open spec fn moved(pos: Vector, v: Vector, dist: int) -> Vector {
    Vector {
        x: (pos.x + scaled(v.x as int, dist)) as i64,
        y: (pos.y + scaled(v.y as int, dist)) as i64,
    }
}

/// A move that keeps every product in range.
pub open spec fn move_fits(pos: Vector, v: Vector, dist: int) -> bool {
    &&& small(v.x as int)
    &&& small(v.y as int)
    &&& small(dist)
    &&& i64::MIN <= pos.x + scaled(v.x as int, dist) <= i64::MAX
    &&& i64::MIN <= pos.y + scaled(v.y as int, dist) <= i64::MAX
}

impl Camera {
    /// The heading lies within one turn and the field of view spans at most one.
    pub open spec fn wf(&self) -> bool {
        &&& 0 <= self.dir < TURN
        &&& 0 <= self.fov <= TURN
    }

    /// Turns by `change`, wrapping the heading into one turn.
    pub fn turn(&mut self, change: i64)
        requires
            i64::MIN <= old(self).dir + change <= i64::MAX,
        ensures
            final(self).dir == turned(old(self).dir as int, change as int),
            0 <= final(self).dir < TURN,
            final(self).pos == old(self).pos,
            final(self).fov == old(self).fov,
    {
        self.dir = bound(self.dir + change, 0, TURN);
    }

    /// Moves `dist` along `facing`, the unit vector of the current heading. Walls do not
    /// stop the camera.
    pub fn step(&mut self, dist: i64, facing: Vector)
        requires
            move_fits(old(self).pos, facing, dist as int),
        ensures
            final(self).pos == moved(old(self).pos, facing, dist as int),
            final(self).dir == old(self).dir,
            final(self).fov == old(self).fov,
    {
        let r = facing.mul(dist);
        self.pos = self.pos.add(r);
    }

    /// Moves `dist` sideways, a quarter turn counterclockwise from `facing`, the unit vector
    /// of the current heading.
    pub fn strafe(&mut self, dist: i64, facing: Vector)
        requires
            small(facing.y as int),
            move_fits(old(self).pos, quarter_turn(facing), dist as int),
        ensures
            final(self).pos == moved(old(self).pos, quarter_turn(facing), dist as int),
            final(self).dir == old(self).dir,
            final(self).fov == old(self).fov,
    {
        let side = Vector { x: -facing.y, y: facing.x };
        let r = side.mul(dist);
        self.pos = self.pos.add(r);
    }
}

/// Turning `n` times by `change` lands where one turn by the sum of the changes lands.
pub proof fn lemma_turns_add_up(dir: int, change: int, n: nat)
    requires
        0 <= dir < TURN,
    ensures
        turned_times(dir, change, n) == wrapped(dir + n * change, 0, TURN as int),
    decreases n,
{
    let m = TURN as int;
    if n == 0 {
        vstd::arithmetic::div_mod::lemma_small_mod(dir as nat, m as nat);
    } else {
        lemma_turns_add_up(dir, change, (n - 1) as nat);
        let a = dir + (n - 1) * change;
        lemma_add_mod_noop_right(change, a, m);
        assert(a + change == dir + n * change) by (nonlinear_arith)
            requires a == dir + (n - 1) * change;
    }
}

/// Turns that add up to whole turns bring the heading back to where it started.
pub proof fn lemma_whole_turns_return(dir: int, change: int, n: nat, k: int)
    requires
        0 <= dir < TURN,
        n * change == k * TURN,
    ensures
        turned_times(dir, change, n) == dir,
{
    lemma_turns_add_up(dir, change, n);
    lemma_mod_multiples_vanish(k, dir, TURN as int);
    vstd::arithmetic::div_mod::lemma_small_mod(dir as nat, TURN as nat);
    assert(dir + n * change == TURN * k + dir) by (nonlinear_arith)
        requires n * change == k * TURN;
}

} // verus!
