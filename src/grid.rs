//! The grid store: two equally sized buffers of cell words, one of them the
//! current state ("front"), the other scratch space for the pass in flight.

use vstd::prelude::*;

use crate::matter::EMPTY_CELL;
use crate::rules::{dir_step, fall, fall_pass, slide, slide_pass};

verus! {

/// A cell position: column `x`, row `y`, row 0 at the bottom.
#[derive(Debug, Clone, Copy, PartialEq, Eq, Structural)]
pub struct GridPos {
    pub x: i32,
    pub y: i32,
}

impl GridPos {
    pub fn new(x: i32, y: i32) -> (r: GridPos)
        ensures
            r.x == x,
            r.y == y,
    {
        GridPos { x, y }
    }
}

/// Why a grid cannot be built.
#[derive(Debug, Clone, Copy, PartialEq, Eq, Structural)]
pub enum ConfigError {
    /// A tile dimension is zero or does not divide the grid dimension, so
    /// some cells would be covered by no worker.
    TileMismatch,
    /// A dimension exceeds `i32::MAX`, or the cell count does not fit in `usize`.
    TooLarge,
}

/// Whether tiles of `tile_width` x `tile_height` cover a `width` x `height`
/// grid exactly.
pub open spec fn tiles_fit(width: int, height: int, tile_width: int, tile_height: int) -> bool {
    tile_width > 0 && tile_height > 0 && width % tile_width == 0 && height % tile_height == 0
}

/// Whether a `width` x `height` grid can be addressed: coordinates fit in
/// `i32` and the cell count fits in `usize`.
pub open spec fn size_fits(width: int, height: int) -> bool {
    width <= i32::MAX && height <= i32::MAX && width * height <= usize::MAX
}

/// Whether `(x, y)` lies on a `width` x `height` grid.
pub open spec fn inside(width: int, height: int, x: int, y: int) -> bool {
    0 <= x < width && 0 <= y < height
}

/// The row-major index of `(x, y)`.
pub open spec fn index_of(width: int, x: int, y: int) -> int {
    y * width + x
}

/// The index of an on-grid cell lies in the buffer, and its column and row
/// are recovered from it.
pub proof fn lemma_index_of(width: int, height: int, x: int, y: int)
    requires
        inside(width, height, x, y),
    ensures
        0 <= index_of(width, x, y) < width * height,
        index_of(width, x, y) % width == x,
        index_of(width, x, y) / width == y,
{
    assert(0 <= y * width + x < width * height) by (nonlinear_arith)
        requires
            0 <= x < width,
            0 <= y < height,
    ;
    vstd::arithmetic::div_mod::lemma_fundamental_div_mod_converse(y * width + x, width, y, x);
}

/// Each index of the buffer is the index of the cell at its column and row.
pub proof fn lemma_coords_of(width: int, height: int, i: int)
    requires
        0 <= i < width * height,
        width >= 0,
    ensures
        inside(width, height, i % width, i / width),
        index_of(width, i % width, i / width) == i,
{
    assert(width != 0);
    vstd::arithmetic::div_mod::lemma_fundamental_div_mod(i, width);
    vstd::arithmetic::div_mod::lemma_div_pos_is_pos(i, width);
    let q = i / width;
    assert(q < height) by (nonlinear_arith)
        requires
            width * q <= i < width * height,
            width > 0,
    ;
    assert(q * width == width * q) by (nonlinear_arith);
}

/// The state after the pending writes of `overlay` are laid over `g`.
pub open spec fn overlaid(g: Seq<u32>, overlay: Seq<Option<u32>>) -> Seq<u32> {
    Seq::new(
        g.len(),
        |i: int|
            match overlay[i] {
                Some(c) => c,
                None => g[i],
            },
    )
}

/// The RGBA pixel that shows a cell: the cell's colour bytes, fully opaque.
pub open spec fn pixel_of(cell: u32) -> u32 {
    ((cell / 0x100) * 0x100 + 0xff) as u32
}

/// The image that shows the state `g`, one pixel per cell.
pub open spec fn colored(g: Seq<u32>) -> Seq<u32> {
    Seq::new(g.len(), |i: int| pixel_of(g[i]))
}

/// The two cell buffers of a `width` x `height` grid.
pub struct Grid {
    width: u32,
    height: u32,
    tile_width: u32,
    tile_height: u32,
    front: Vec<u32>,
    back: Vec<u32>,
}

impl Grid {
    /// The current state, row-major.
    pub closed spec fn cells(&self) -> Seq<u32> {
        self.front@
    }

    /// The scratch buffer.
    pub closed spec fn scratch(&self) -> Seq<u32> {
        self.back@
    }

    pub closed spec fn spec_width(&self) -> int {
        self.width as int
    }

    pub closed spec fn spec_height(&self) -> int {
        self.height as int
    }

    pub closed spec fn spec_tile_width(&self) -> int {
        self.tile_width as int
    }

    pub closed spec fn spec_tile_height(&self) -> int {
        self.tile_height as int
    }

    /// Both buffers are of one length, and the tiles cover the grid exactly.
    pub closed spec fn buffers_wf(&self) -> bool {
        &&& self.back@.len() == self.front@.len()
    }

    /// The grid is addressable, both buffers hold one word per cell, and the
    /// tiles cover it exactly.
    pub open spec fn wf(&self) -> bool {
        &&& self.buffers_wf()
        &&& tiles_fit(self.spec_width(), self.spec_height(), self.spec_tile_width(), self.spec_tile_height())
        &&& size_fits(self.spec_width(), self.spec_height())
        &&& self.cells().len() == self.spec_width() * self.spec_height()
    }

    /// The current cell at an on-grid position.
    pub open spec fn cell_at(&self, x: int, y: int) -> u32 {
        self.cells()[index_of(self.spec_width(), x, y)]
    }

    /// A grid with every cell empty; fails where the tiles do not cover it
    /// exactly or where it is too large to address.
    pub fn new(width: u32, height: u32, tile_width: u32, tile_height: u32) -> (r: Result<Grid, ConfigError>)
        ensures
            !tiles_fit(width as int, height as int, tile_width as int, tile_height as int)
                <==> r == Err::<Grid, ConfigError>(ConfigError::TileMismatch),
            tiles_fit(width as int, height as int, tile_width as int, tile_height as int) && !size_fits(
                width as int,
                height as int,
            ) <==> r == Err::<Grid, ConfigError>(ConfigError::TooLarge),
            r matches Ok(g) ==> {
                &&& g.wf()
                &&& g.spec_width() == width
                &&& g.spec_height() == height
                &&& g.spec_tile_width() == tile_width
                &&& g.spec_tile_height() == tile_height
                &&& g.cells() == Seq::new((width * height) as nat, |i: int| EMPTY_CELL)
            },
    {
        if tile_width == 0 || tile_height == 0 || width % tile_width != 0 || height % tile_height != 0 {
            return Err(ConfigError::TileMismatch);
        }
        if width > i32::MAX as u32 || height > i32::MAX as u32 {
            return Err(ConfigError::TooLarge);
        }
        let n = match (width as usize).checked_mul(height as usize) {
            Some(n) => n,
            None => {
                return Err(ConfigError::TooLarge);
            },
        };
        let front = vec![EMPTY_CELL; n];
        let back = vec![EMPTY_CELL; n];
        assert(front@ =~= Seq::new((width * height) as nat, |i: int| EMPTY_CELL));
        Ok(Grid { width, height, tile_width, tile_height, front, back })
    }

    pub fn width(&self) -> (r: u32)
        ensures
            r == self.spec_width(),
    {
        self.width
    }

    pub fn height(&self) -> (r: u32)
        ensures
            r == self.spec_height(),
    {
        self.height
    }

    /// The number of tiles along each axis: every cell lies in exactly one
    /// tile of the dispatch.
    pub fn work_groups(&self) -> (r: (u32, u32))
        requires
            self.wf(),
        ensures
            r.0 * self.spec_tile_width() == self.spec_width(),
            r.1 * self.spec_tile_height() == self.spec_height(),
    {
        let gx = self.width / self.tile_width;
        let gy = self.height / self.tile_height;
        proof {
            vstd::arithmetic::div_mod::lemma_fundamental_div_mod(self.width as int, self.tile_width as int);
            vstd::arithmetic::div_mod::lemma_fundamental_div_mod(self.height as int, self.tile_height as int);
            assert(gx * self.tile_width == self.tile_width * gx) by (nonlinear_arith);
            assert(gy * self.tile_height == self.tile_height * gy) by (nonlinear_arith);
        }
        (gx, gy)
    }

    /// Whether `pos` lies on the grid.
    pub fn is_inside(&self, pos: GridPos) -> (r: bool)
        ensures
            r == inside(self.spec_width(), self.spec_height(), pos.x as int, pos.y as int),
    {
        pos.x >= 0 && (pos.x as i64) < self.width as i64 && pos.y >= 0 && (pos.y as i64)
            < self.height as i64
    }

    /// The buffer index of an on-grid position.
    fn index(&self, pos: GridPos) -> (r: usize)
        requires
            self.wf(),
            inside(self.spec_width(), self.spec_height(), pos.x as int, pos.y as int),
        ensures
            r == index_of(self.spec_width(), pos.x as int, pos.y as int),
            r < self.cells().len(),
    {
        proof {
            lemma_index_of(self.width as int, self.height as int, pos.x as int, pos.y as int);
        }
        (pos.y as usize) * (self.width as usize) + (pos.x as usize)
    }

    /// The current cell at `pos`, or `None` off the grid.
    pub fn read(&self, pos: GridPos) -> (r: Option<u32>)
        requires
            self.wf(),
        ensures
            inside(self.spec_width(), self.spec_height(), pos.x as int, pos.y as int) ==> r == Some(
                self.cell_at(pos.x as int, pos.y as int),
            ),
            !inside(self.spec_width(), self.spec_height(), pos.x as int, pos.y as int) ==> r
                == None::<u32>,
    {
        if self.is_inside(pos) {
            let i = self.index(pos);
            Some(self.front[i])
        } else {
            None
        }
    }

    /// Writes `cell` at `pos` into the current state; off the grid, does nothing.
    pub fn write(&mut self, pos: GridPos, cell: u32)
        requires
            old(self).wf(),
        ensures
            final(self).wf(),
            final(self).spec_width() == old(self).spec_width(),
            final(self).spec_height() == old(self).spec_height(),
            inside(old(self).spec_width(), old(self).spec_height(), pos.x as int, pos.y as int)
                ==> final(self).cells() == old(self).cells().update(
                index_of(old(self).spec_width(), pos.x as int, pos.y as int),
                cell,
            ),
            !inside(old(self).spec_width(), old(self).spec_height(), pos.x as int, pos.y as int)
                ==> final(self).cells() == old(self).cells(),
    {
        if self.is_inside(pos) {
            let i = self.index(pos);
            self.front.set(i, cell);
        }
    }

    /// Exchanges the roles of the two buffers.
    pub fn swap(&mut self)
        requires
            old(self).wf(),
        ensures
            final(self).wf(),
            final(self).spec_width() == old(self).spec_width(),
            final(self).spec_height() == old(self).spec_height(),
            final(self).cells() == old(self).scratch(),
            final(self).scratch() == old(self).cells(),
    {
        std::mem::swap(&mut self.front, &mut self.back);
    }

    /// Runs one fall pass: the next state goes into the scratch buffer, which
    /// then becomes the current one.
    pub fn fall(&mut self)
        requires
            old(self).wf(),
        ensures
            final(self).wf(),
            final(self).spec_width() == old(self).spec_width(),
            final(self).spec_height() == old(self).spec_height(),
            final(self).cells() == fall(old(self).cells(), old(self).spec_width()),
    {
        fall_pass(&self.front, &mut self.back, self.width as usize);
        self.swap();
    }

    /// Runs one slide pass that prefers the right where `to_right` holds and
    /// the left otherwise, and makes its result the current state.
    pub fn slide(&mut self, to_right: bool)
        requires
            old(self).wf(),
        ensures
            final(self).wf(),
            final(self).spec_width() == old(self).spec_width(),
            final(self).spec_height() == old(self).spec_height(),
            final(self).cells() == slide(old(self).cells(), old(self).spec_width(), dir_step(to_right)),
    {
        if self.width == 0 {
            proof {
                assert(self.front@.len() == 0) by (nonlinear_arith)
                    requires
                        self.front@.len() == self.width * self.height,
                        self.width == 0,
                ;
                assert(self.back@ =~= slide(self.front@, 0, dir_step(to_right)));
            }
        } else {
            slide_pass(&self.front, &mut self.back, self.width as usize, to_right);
        }
        self.swap();
    }
    /// Lays the pending writes of `overlay` over the current state, in place,
    /// and clears them.
    pub fn apply_overlay(&mut self, overlay: &mut Vec<Option<u32>>)
        requires
            old(self).wf(),
            old(overlay).len() == old(self).cells().len(),
        ensures
            final(self).wf(),
            final(self).spec_width() == old(self).spec_width(),
            final(self).spec_height() == old(self).spec_height(),
            final(self).cells() == overlaid(old(self).cells(), old(overlay)@),
            final(overlay)@ == Seq::new(old(overlay)@.len(), |i: int| None::<u32>),
    {
        let ghost g0 = self.front@;
        let ghost o0 = overlay@;
        let n = overlay.len();
        let mut i: usize = 0;
        while i < n
            invariant
                n == o0.len(),
                n == g0.len(),
                overlay.len() == n,
                self.front.len() == n,
                self.back.len() == n,
                self.width == old(self).width,
                self.height == old(self).height,
                self.tile_width == old(self).tile_width,
                self.tile_height == old(self).tile_height,
                i <= n,
                forall|j: int| 0 <= j < i ==> self.front@[j] == overlaid(g0, o0)[j],
                forall|j: int| i <= j < n ==> self.front@[j] == g0[j],
                forall|j: int| 0 <= j < i ==> overlay@[j] == None::<u32>,
                forall|j: int| i <= j < n ==> overlay@[j] == o0[j],
            decreases n - i,
        {
            match overlay[i] {
                Some(c) => {
                    self.front.set(i, c);
                    overlay.set(i, None);
                },
                None => {},
            }
            i = i + 1;
        }
        assert(self.front@ =~= overlaid(g0, o0));
        assert(overlay@ =~= Seq::new(o0.len(), |i: int| None::<u32>));
    }

    /// Writes into `image` the pixel of every current cell.
    pub fn color_into(&self, image: &mut Vec<u32>)
        requires
            self.wf(),
            old(image).len() == self.cells().len(),
        ensures
            final(image)@ == colored(self.cells()),
    {
        let n = self.front.len();
        let mut i: usize = 0;
        while i < n
            invariant
                n == self.front@.len(),
                image.len() == n,
                i <= n,
                forall|j: int| 0 <= j < i ==> image@[j] == pixel_of(self.front@[j]),
            decreases n - i,
        {
            let c = self.front[i];
            let px = (c & 0xffff_ff00) | 0xff;
            assert(px == ((c / 0x100) * 0x100 + 0xff) as u32) by (bit_vector)
                requires
                    px == (c & 0xffff_ff00) | 0xff,
            ;
            image.set(i, px);
            i = i + 1;
        }
        assert(image@ =~= colored(self.cells()));
    }
}

} // verus!
