use vstd::prelude::*;

use crate::camera::Camera;
use crate::compose::{background_pixel, compose_frame, over};
use crate::framebuffer::blank_pixel;
use crate::geometry::{scaled, small, Vector};
use crate::map::Grid;
use crate::raycast::{cast_columns, column_cosines, cosine_of, first_hit, grid_fits};
use crate::screen::Screen;

verus! {

/// Everything one frame is drawn from: the screen, the depth buffer of its columns, the grid
/// and the camera.
pub struct GameState {
    pub screen: Screen,
    pub depth_buf: Vec<(char, i64)>,
    pub grid: Grid,
    pub cam: Camera,
}

impl GameState {
    pub open spec fn wf(&self) -> bool {
        &&& self.screen.wf()
        &&& self.depth_buf@.len() == self.screen.width
        &&& grid_fits(self.grid)
        &&& self.cam.wf()
    }

    /// A game on a blank `width` x `height` screen, with an empty depth buffer.
    pub fn new(width: usize, height: usize, grid: Grid, cam: Camera) -> (r: GameState)
        requires
            width * height <= usize::MAX,
            grid_fits(grid),
            cam.wf(),
        ensures
            r.wf(),
            r.screen.width == width,
            r.screen.height == height,
            r.grid == grid,
            r.cam == cam,
            forall|i: int| 0 <= i < width ==> #[trigger] r.depth_buf@[i] == (' ', 0i64),
            forall|x: int, y: int|
                0 <= x < width && 0 <= y < height ==> #[trigger] r.screen.front.pixel(x, y)
                    == blank_pixel() && r.screen.previous.pixel(x, y) == blank_pixel(),
    {
        let mut depth_buf: Vec<(char, i64)> = Vec::new();
        let mut i: usize = 0;
        while i < width
            invariant
                i <= width,
                depth_buf@.len() == i,
                forall|j: int| 0 <= j < i ==> #[trigger] depth_buf@[j] == (' ', 0i64),
            decreases width - i,
        {
            depth_buf.push((' ', 0i64));
            i = i + 1;
        }
        GameState { screen: Screen::new(width, height), depth_buf, grid, cam }
    }
}

/// Draws a frame into the front buffer: casts the ray of each column, `dirs[i]` being the
/// unit vector of column `i`'s heading and `facing` that of the camera's heading, corrects
/// each distance by the cosine between the two, keeps the corrected distances in the depth buffer, then paints the
/// backdrop and the walls.
pub fn render(game: &mut GameState, dirs: &Vec<Vector>, facing: Vector)
    requires
        old(game).wf(),
        dirs@.len() == old(game).screen.width,
        small(facing.x as int),
        small(facing.y as int),
        forall|i: int| 0 <= i < dirs@.len() ==> small(#[trigger] dirs@[i].x as int) && small(dirs@[i].y as int),
    ensures
        final(game).wf(),
        final(game).grid == old(game).grid,
        final(game).cam == old(game).cam,
        final(game).screen.width == old(game).screen.width,
        final(game).screen.height == old(game).screen.height,
        final(game).screen.previous == old(game).screen.previous,
        forall|i: int|
            0 <= i < dirs@.len() ==> (#[trigger] final(game).depth_buf@[i]).0 == first_hit(
                old(game).grid,
                old(game).cam.pos,
                dirs@[i],
                1,
            ).0 && final(game).depth_buf@[i].1 == scaled(
                first_hit(old(game).grid, old(game).cam.pos, dirs@[i], 1).1,
                cosine_of(dirs@[i], facing),
            ),
        forall|i: int, j: int|
            0 <= i < old(game).screen.width && 0 <= j < old(game).screen.height
                ==> #[trigger] final(game).screen.front.pixel(i, j) == over(
                background_pixel(j, old(game).screen.height as int),
                final(game).depth_buf@[i].1 as int,
                old(game).screen.height as int,
                j,
            ),
{
    let cosines = column_cosines(dirs, facing);
    game.depth_buf = cast_columns(&game.grid, game.cam.pos, dirs, &cosines);
    compose_frame(&mut game.screen, &game.depth_buf);
}

} // verus!
