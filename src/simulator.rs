//! The step engine: a grid, its output image, the draws staged for the next
//! step, and the counters that order the passes.
//!
//! Drawing comes in two forms. `stage_matter` defers a stroke to the start of
//! the next `step`, so that drawing never blocks the interactive thread.
//! `draw_matter` applies a stroke at once, together with anything staged
//! before it, so that the very next query sees it.

use rand::rngs::StdRng;
use vstd::prelude::*;

use crate::brush::{covered, stamp, stamped};
use crate::grid::{colored, index_of, inside, overlaid, size_fits, tiles_fit, ConfigError, Grid, GridPos};
use crate::matter::{is_placement_of, lemma_placement_decodes, matter_of, MatterId, MatterWithColor, EMPTY_CELL};
use crate::rules::{dir_step, fall, lemma_fall_conserves, lemma_slide_conserves, matter_count, occupied_count, slide};

verus! {

/// The pass counter after one more pass.
pub open spec fn next_count(c: u32) -> u32 {
    if c == u32::MAX {
        0
    } else {
        (c + 1) as u32
    }
}

/// Whether the slide pass of a substep that starts with the pass counter at
/// `c` prefers the right; successive substeps alternate.
pub open spec fn slides_right(c: u32) -> bool {
    (c / 2) % 2 == 1
}

/// One substep: a fall pass, then a slide pass.
pub open spec fn substep(g: Seq<u32>, width: int, c: u32) -> Seq<u32> {
    slide(fall(g, width), width, dir_step(slides_right(c)))
}

/// The pass counter after `n` substeps from `c`.
pub open spec fn count_after(c: u32, n: nat) -> u32
    decreases n,
{
    if n == 0 {
        c
    } else {
        next_count(next_count(count_after(c, (n - 1) as nat)))
    }
}

/// The state after `n` substeps from `g`, with the pass counter at `c`.
pub open spec fn moved(g: Seq<u32>, width: int, n: nat, c: u32) -> Seq<u32>
    decreases n,
{
    if n == 0 {
        g
    } else {
        substep(moved(g, width, (n - 1) as nat, c), width, count_after(c, (n - 1) as nat))
    }
}

/// `after` is `before` with each cell covered by the stroke given a placement
/// of `m`, and every other cell as it was.
pub open spec fn drawn(
    before: Seq<u32>,
    after: Seq<u32>,
    width: int,
    line: Seq<GridPos>,
    radius: int,
    m: MatterId,
) -> bool {
    &&& after.len() == before.len()
    &&& forall|i: int|
        0 <= i < after.len() ==> if covered(line, radius, i % width, i / width) {
            is_placement_of(m, #[trigger] after[i])
        } else {
            after[i] == before[i]
        }
}

/// Movement neither creates nor destroys matter: after any number of
/// substeps, every matter fills as many cells as before, and so do all
/// matters together.
pub proof fn lemma_moved_conserves(g: Seq<u32>, width: int, n: nat, c: u32, m: MatterId)
    requires
        width >= 0,
        m != MatterId::Empty,
    ensures
        matter_count(moved(g, width, n, c), m) == matter_count(g, m),
        occupied_count(moved(g, width, n, c)) == occupied_count(g),
    decreases n,
{
    if n > 0 {
        let prev = moved(g, width, (n - 1) as nat, c);
        lemma_moved_conserves(g, width, (n - 1) as nat, c, m);
        lemma_fall_conserves(prev, width, m);
        lemma_slide_conserves(
            fall(prev, width),
            width,
            dir_step(slides_right(count_after(c, (n - 1) as nat))),
            m,
        );
    }
}

/// Of two strokes staged one after the other, a cell under the later one
/// holds the later stroke's matter once the staged writes are laid over the
/// grid, whatever the earlier stroke put there.
pub proof fn lemma_later_stroke_wins(
    g: Seq<u32>,
    o0: Seq<Option<u32>>,
    o1: Seq<Option<u32>>,
    o2: Seq<Option<u32>>,
    width: int,
    first: Seq<GridPos>,
    first_radius: int,
    first_matter: MatterId,
    second: Seq<GridPos>,
    second_radius: int,
    second_matter: MatterId,
    i: int,
)
    requires
        o0.len() == g.len(),
        stamped(o0, o1, width, first, first_radius, first_matter),
        stamped(o1, o2, width, second, second_radius, second_matter),
        0 <= i < g.len(),
        covered(second, second_radius, i % width, i / width),
    ensures
        matter_of(overlaid(g, o2)[i]) == second_matter,
{
    assert(o2[i] is Some);
    lemma_placement_decodes(second_matter, o2[i]->Some_0);
}

/// The cellular automaton: current state, output image and staged draws.
pub struct CASimulator {
    grid: Grid,
    image: Vec<u32>,
    pending: Vec<Option<u32>>,
    /// Steps run since construction.
    pub sim_step: u32,
    move_step: u32,
}

impl CASimulator {
    /// The current state, row-major, row 0 at the bottom.
    pub closed spec fn cells(&self) -> Seq<u32> {
        self.grid.cells()
    }

    pub closed spec fn spec_width(&self) -> int {
        self.grid.spec_width()
    }

    pub closed spec fn spec_height(&self) -> int {
        self.grid.spec_height()
    }

    /// The output image, one RGBA pixel per cell.
    pub closed spec fn image(&self) -> Seq<u32> {
        self.image@
    }

    /// The writes staged for the next step, one slot per cell.
    pub closed spec fn pending(&self) -> Seq<Option<u32>> {
        self.pending@
    }

    /// Steps run since construction.
    pub closed spec fn step_count(&self) -> u32 {
        self.sim_step
    }

    /// Movement passes run since construction.
    pub closed spec fn pass_count(&self) -> u32 {
        self.move_step
    }

    /// The grid is well formed, and the image and the staged writes have one
    /// slot per cell.
    pub open spec fn wf(&self) -> bool {
        &&& self.grid_wf()
        &&& size_fits(self.spec_width(), self.spec_height())
        &&& self.cells().len() == self.spec_width() * self.spec_height()
        &&& self.image().len() == self.cells().len()
        &&& self.pending().len() == self.cells().len()
    }

    /// The grid's own well-formedness.
    pub closed spec fn grid_wf(&self) -> bool {
        &&& self.grid.wf()
        &&& self.image@.len() == self.grid.cells().len()
        &&& self.pending@.len() == self.grid.cells().len()
    }

    /// A simulator over an empty `width` x `height` grid, dispatched in tiles
    /// of `tile_width` x `tile_height`. Fails where the tiles do not cover the
    /// grid exactly, or where the grid is too large to address.
    pub fn new(width: u32, height: u32, tile_width: u32, tile_height: u32) -> (r: Result<CASimulator, ConfigError>)
        ensures
            !tiles_fit(width as int, height as int, tile_width as int, tile_height as int)
                <==> r == Err::<CASimulator, ConfigError>(ConfigError::TileMismatch),
            tiles_fit(width as int, height as int, tile_width as int, tile_height as int) && !size_fits(
                width as int,
                height as int,
            ) <==> r == Err::<CASimulator, ConfigError>(ConfigError::TooLarge),
            r is Ok <==> tiles_fit(width as int, height as int, tile_width as int, tile_height as int)
                && size_fits(width as int, height as int),
            r matches Ok(s) ==> {
                &&& s.wf()
                &&& s.spec_width() == width
                &&& s.spec_height() == height
                &&& s.cells() == Seq::new((width * height) as nat, |i: int| EMPTY_CELL)
                &&& s.image() == colored(s.cells())
                &&& s.pending() == Seq::new((width * height) as nat, |i: int| None::<u32>)
                &&& s.step_count() == 0
                &&& s.pass_count() == 0
            },
    {
        let grid = match Grid::new(width, height, tile_width, tile_height) {
            Ok(g) => g,
            Err(e) => {
                return Err(e);
            },
        };
        let n = (width as usize) * (height as usize);
        let mut image = vec![0u32; n];
        grid.color_into(&mut image);
        let pending: Vec<Option<u32>> = vec![None; n];
        assert(pending@ =~= Seq::new((width * height) as nat, |i: int| None::<u32>));
        Ok(CASimulator { grid, image, pending, sim_step: 0, move_step: 0 })
    }

    /// Columns of the grid.
    pub fn width(&self) -> (r: u32)
        requires
            self.wf(),
        ensures
            r == self.spec_width(),
    {
        self.grid.width()
    }

    /// Rows of the grid.
    pub fn height(&self) -> (r: u32)
        requires
            self.wf(),
        ensures
            r == self.spec_height(),
    {
        self.grid.height()
    }

    /// Movement passes run since construction (two per substep), modulo 2^32.
    pub fn move_step(&self) -> (r: u32)
        ensures
            r == self.pass_count(),
    {
        self.move_step
    }

    /// The output image that the colour pass writes, one RGBA pixel per cell,
    /// row-major with row 0 at the bottom.
    pub fn color_image(&self) -> (r: &Vec<u32>)
        ensures
            r@ == self.image(),
    {
        &self.image
    }

    /// The matter at `pos` in the current state, or `None` off the grid.
    pub fn query_matter(&self, pos: GridPos) -> (r: Option<MatterId>)
        requires
            self.wf(),
        ensures
            inside(self.spec_width(), self.spec_height(), pos.x as int, pos.y as int) ==> r == Some(
                matter_of(self.cells()[index_of(self.spec_width(), pos.x as int, pos.y as int)]),
            ),
            !inside(self.spec_width(), self.spec_height(), pos.x as int, pos.y as int) ==> r
                == None::<MatterId>,
    {
        match self.grid.read(pos) {
            Some(cell) => Some(MatterWithColor::from(cell).matter_id()),
            None => None,
        }
    }

    /// Stages the stroke `line` of matter `matter`, with a brush of whole
    /// radius `radius`, for the start of the next step. Each covered cell gets
    /// its own colour jitter from `rng`; where strokes overlap, the later wins.
    pub fn stage_matter(
        &mut self,
        line: &[GridPos],
        radius: u32,
        matter: MatterId,
        rng: &mut StdRng,
    )
        requires
            old(self).wf(),
        ensures
            final(self).wf(),
            final(self).spec_width() == old(self).spec_width(),
            final(self).spec_height() == old(self).spec_height(),
            final(self).cells() == old(self).cells(),
            final(self).image() == old(self).image(),
            final(self).step_count() == old(self).step_count(),
            final(self).pass_count() == old(self).pass_count(),
            stamped(
                old(self).pending(),
                final(self).pending(),
                old(self).spec_width(),
                line@,
                radius as int,
                matter,
            ),
    {
        let width = self.grid.width();
        let height = self.grid.height();
        stamp(&mut self.pending, width, height, line, radius, matter, rng);
    }

    /// Draws the stroke `line` of matter `matter` into the current state at
    /// once, after any writes staged before it, so that the next query sees it.
    pub fn draw_matter(
        &mut self,
        line: &[GridPos],
        radius: u32,
        matter: MatterId,
        rng: &mut StdRng,
    )
        requires
            old(self).wf(),
        ensures
            final(self).wf(),
            final(self).spec_width() == old(self).spec_width(),
            final(self).spec_height() == old(self).spec_height(),
            drawn(
                overlaid(old(self).cells(), old(self).pending()),
                final(self).cells(),
                old(self).spec_width(),
                line@,
                radius as int,
                matter,
            ),
            final(self).pending() == Seq::new(old(self).pending().len(), |i: int| None::<u32>),
            final(self).image() == old(self).image(),
            final(self).step_count() == old(self).step_count(),
            final(self).pass_count() == old(self).pass_count(),
    {
        self.stage_matter(line, radius, matter, rng);
        self.grid.apply_overlay(&mut self.pending);
    }

    /// Advances the simulation by one tick: lays the staged writes over the
    /// current state and clears them; unless `is_paused`, runs `move_steps`
    /// substeps, each a fall pass and then a slide pass, each pass followed by
    /// a buffer swap; then colours the image from the current state.
    pub fn step(&mut self, move_steps: u32, is_paused: bool)
        requires
            old(self).wf(),
        ensures
            final(self).wf(),
            final(self).spec_width() == old(self).spec_width(),
            final(self).spec_height() == old(self).spec_height(),
            final(self).cells() == if is_paused {
                overlaid(old(self).cells(), old(self).pending())
            } else {
                moved(
                    overlaid(old(self).cells(), old(self).pending()),
                    old(self).spec_width(),
                    move_steps as nat,
                    old(self).pass_count(),
                )
            },
            final(self).pending() == Seq::new(old(self).pending().len(), |i: int| None::<u32>),
            final(self).image() == colored(final(self).cells()),
            final(self).step_count() == next_count(old(self).step_count()),
            final(self).pass_count() == if is_paused {
                old(self).pass_count()
            } else {
                count_after(old(self).pass_count(), move_steps as nat)
            },
    {
        self.grid.apply_overlay(&mut self.pending);
        if !is_paused {
            let ghost g1 = self.grid.cells();
            let ghost c0 = self.move_step;
            let mut s: u32 = 0;
            while s < move_steps
                invariant
                    self.grid_wf(),
                    size_fits(self.spec_width(), self.spec_height()),
                    self.cells().len() == self.spec_width() * self.spec_height(),
                    self.spec_width() == old(self).spec_width(),
                    self.spec_height() == old(self).spec_height(),
                    self.pending@ == Seq::new(old(self).pending().len(), |i: int| None::<u32>),
                    self.sim_step == old(self).sim_step,
                    s <= move_steps,
                    self.cells() == moved(g1, self.spec_width(), s as nat, c0),
                    self.move_step == count_after(c0, s as nat),
                decreases move_steps - s,
            {
                let to_right = (self.move_step / 2) % 2 == 1;
                self.grid.fall();
                self.move_step = self.move_step.wrapping_add(1);
                self.grid.slide(to_right);
                self.move_step = self.move_step.wrapping_add(1);
                s = s + 1;
            }
        }
        self.grid.color_into(&mut self.image);
        self.sim_step = self.sim_step.wrapping_add(1);
    }
}

} // verus!
