use vstd::prelude::*;

verus! {

/// The symbol of a cell with nothing in it.
pub const EMPTY: char = ' ';

/// A grid of cell symbols, `h` rows of `w` cells each; `m[y][x]` is the cell at column `x`,
/// row `y`.
pub struct Grid {
    pub m: Vec<Vec<char>>,
    pub w: usize,
    pub h: usize,
}

/// Every row has the same length as the first.
pub open spec fn rectangular(rows: Seq<Vec<char>>) -> bool {
    forall|i: int| 0 <= i < rows.len() ==> (#[trigger] rows[i])@.len() == rows[0]@.len()
}

impl Grid {
    pub open spec fn wf(&self) -> bool {
        &&& self.m@.len() == self.h
        &&& forall|i: int| 0 <= i < self.h ==> (#[trigger] self.m@[i])@.len() == self.w
    }

    /// The symbol at column `x`, row `y`.
    pub open spec fn cell(&self, x: int, y: int) -> char {
        self.m@[y]@[x]
    }

    /// A map of the given rows, when they all have one length; the width of a map without
    /// rows is zero.
    pub fn new(rows: Vec<Vec<char>>) -> (r: Option<Grid>)
        ensures
            r is Some <==> rectangular(rows@),
            r matches Some(grid) ==> {
                &&& grid.wf()
                &&& grid.m@ == rows@
                &&& grid.h == rows@.len()
                &&& grid.w == (if rows@.len() == 0 { 0 } else { rows@[0]@.len() })
            },
    {
        let h: usize = rows.len();
        let w: usize = if h == 0 { 0 } else { rows[0].len() };
        let mut i: usize = 0;
        while i < h
            invariant
                h == rows@.len(),
                i <= h,
                h > 0 ==> w == rows@[0]@.len(),
                forall|j: int| 0 <= j < i ==> (#[trigger] rows@[j])@.len() == w,
            decreases h - i,
        {
            if rows[i].len() != w {
                return None;
            }
            i = i + 1;
        }
        Some(Grid { m: rows, w, h })
    }

    /// The symbol at column `x`, row `y`, or `None` outside the grid.
    pub fn at(&self, x: usize, y: usize) -> (r: Option<char>)
        requires
            self.wf(),
        ensures
            r == (if x < self.w && y < self.h {
                Some(self.cell(x as int, y as int))
            } else {
                None
            }),
    {
        if x < self.w && y < self.h {
            Some(self.m[y][x])
        } else {
            None
        }
    }
}

} // verus!
