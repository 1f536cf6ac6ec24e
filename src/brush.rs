//! The round brush: which cells a stroke covers, and stamping a stroke's
//! matter into a per-cell overlay of pending writes.

use rand::rngs::StdRng;
use vstd::prelude::*;

use crate::grid::{inside, lemma_coords_of, lemma_index_of, size_fits, GridPos};
use crate::matter::{is_placement_of, MatterId, MatterWithColor};

verus! {

/// Cell `(x, y)` lies under a brush of whole radius `radius` centred on `p`:
/// its distance to `p`, rounded to the nearest whole number, is at most
/// `radius`. For whole coordinates that is `4 * d^2 < (2 * radius + 1)^2`.
pub open spec fn within(p: GridPos, radius: int, x: int, y: int) -> bool {
    4 * ((x - p.x) * (x - p.x) + (y - p.y) * (y - p.y)) < (2 * radius + 1) * (2 * radius + 1)
}

/// Cell `(x, y)` lies under the brush at some position of the stroke `line`.
pub open spec fn covered(line: Seq<GridPos>, radius: int, x: int, y: int) -> bool {
    exists|k: int| 0 <= k < line.len() && #[trigger] within(line[k], radius, x, y)
}

/// `after` is `before` with each cell whose column and row satisfy `touched`
/// given a placement of `m`, and every other cell as it was.
pub open spec fn marked(
    before: Seq<Option<u32>>,
    after: Seq<Option<u32>>,
    width: int,
    touched: spec_fn(int, int) -> bool,
    m: MatterId,
) -> bool {
    &&& after.len() == before.len()
    &&& forall|i: int|
        0 <= i < after.len() ==> if touched(i % width, i / width) {
            (#[trigger] after[i]) is Some && is_placement_of(m, after[i]->Some_0)
        } else {
            after[i] == before[i]
        }
}

/// `after` is `before` with the stroke `line` of matter `m` stamped over it.
pub open spec fn stamped(
    before: Seq<Option<u32>>,
    after: Seq<Option<u32>>,
    width: int,
    line: Seq<GridPos>,
    radius: int,
    m: MatterId,
) -> bool {
    marked(before, after, width, |x: int, y: int| covered(line, radius, x, y), m)
}

/// A cell under the brush lies at most `radius` columns and rows from its centre.
proof fn lemma_within_box(p: GridPos, radius: int, x: int, y: int)
    requires
        radius >= 0,
        within(p, radius, x, y),
    ensures
        p.x - radius <= x <= p.x + radius,
        p.y - radius <= y <= p.y + radius,
{
    let dx = x - p.x;
    let dy = y - p.y;
    assert(-radius <= dx <= radius) by (nonlinear_arith)
        requires
            4 * (dx * dx + dy * dy) < (2 * radius + 1) * (2 * radius + 1),
            radius >= 0,
    ;
    assert(-radius <= dy <= radius) by (nonlinear_arith)
        requires
            4 * (dx * dx + dy * dy) < (2 * radius + 1) * (2 * radius + 1),
            radius >= 0,
    ;
}

/// Marking by `t1` and then by `t2` is marking by their union.
proof fn lemma_marked_compose(
    a: Seq<Option<u32>>,
    b: Seq<Option<u32>>,
    c: Seq<Option<u32>>,
    width: int,
    t1: spec_fn(int, int) -> bool,
    t2: spec_fn(int, int) -> bool,
    t: spec_fn(int, int) -> bool,
    m: MatterId,
)
    requires
        marked(a, b, width, t1, m),
        marked(b, c, width, t2, m),
        forall|x: int, y: int| #[trigger] t(x, y) <==> t1(x, y) || t2(x, y),
    ensures
        marked(a, c, width, t, m),
{
}

/// Marking depends on `touched` only at the columns and rows of the grid.
proof fn lemma_marked_ext(
    a: Seq<Option<u32>>,
    b: Seq<Option<u32>>,
    width: int,
    height: int,
    t1: spec_fn(int, int) -> bool,
    t2: spec_fn(int, int) -> bool,
    m: MatterId,
)
    requires
        marked(a, b, width, t1, m),
        width >= 0,
        a.len() == width * height,
        forall|x: int, y: int| inside(width, height, x, y) ==> (#[trigger] t1(x, y) <==> t2(x, y)),
    ensures
        marked(a, b, width, t2, m),
{
    assert forall|i: int| 0 <= i < b.len() implies if t2(i % width, i / width) {
        (#[trigger] b[i]) is Some && is_placement_of(m, b[i]->Some_0)
    } else {
        b[i] == a[i]
    } by {
        lemma_coords_of(width, height, i);
        assert(t1(i % width, i / width) <==> t2(i % width, i / width));
    }
}

/// Whether `(x, y)` lies under the brush at `p`.
fn in_brush(p: GridPos, radius: u32, x: i64, y: i64) -> (r: bool)
    requires
        p.x - radius <= x <= p.x + radius,
        p.y - radius <= y <= p.y + radius,
    ensures
        r == within(p, radius as int, x as int, y as int),
{
    let dx = (x - p.x as i64) as i128;
    let dy = (y - p.y as i64) as i128;
    let r = radius as i128;
    assert(0 <= dx * dx <= r * r && 0 <= dy * dy <= r * r && r * r <= 0x1_0000_0000_0000_0000)
        by (nonlinear_arith)
        requires
            -r <= dx <= r,
            -r <= dy <= r,
            0 <= r <= 0xffff_ffff,
    ;
    let d = 2 * r + 1;
    assert(d * d <= 0x4_0000_0000_0000_0001) by (nonlinear_arith)
        requires
            d == 2 * r + 1,
            0 <= r <= 0xffff_ffff,
    ;
    4 * (dx * dx + dy * dy) < d * d
}

/// Gives a placement of `matter` to every overlay cell under the brush at `p`.
fn stamp_disc(
    overlay: &mut Vec<Option<u32>>,
    width: u32,
    height: u32,
    p: GridPos,
    radius: u32,
    matter: MatterId,
    rng: &mut StdRng,
)
    requires
        old(overlay).len() == width * height,
        size_fits(width as int, height as int),
    ensures
        marked(
            old(overlay)@,
            final(overlay)@,
            width as int,
            |x: int, y: int| within(p, radius as int, x, y),
            matter,
        ),
{
    let ghost before = overlay@;
    let ghost r = radius as int;
    let y_lo: i64 = if (p.y as i64) - (radius as i64) < 0 {
        0
    } else {
        (p.y as i64) - (radius as i64)
    };
    let y_hi: i64 = if (p.y as i64) + (radius as i64) > (height as i64) - 1 {
        (height as i64) - 1
    } else {
        (p.y as i64) + (radius as i64)
    };
    let x_lo: i64 = if (p.x as i64) - (radius as i64) < 0 {
        0
    } else {
        (p.x as i64) - (radius as i64)
    };
    let x_hi: i64 = if (p.x as i64) + (radius as i64) > (width as i64) - 1 {
        (width as i64) - 1
    } else {
        (p.x as i64) + (radius as i64)
    };
    proof {
        assert forall|i: int| 0 <= i < overlay@.len() implies if within(
            p,
            r,
            i % (width as int),
            i / (width as int),
        ) && i / (width as int) < y_lo {
            (#[trigger] overlay@[i]) is Some && is_placement_of(matter, overlay@[i]->Some_0)
        } else {
            overlay@[i] == before[i]
        } by {
            if within(p, r, i % (width as int), i / (width as int)) {
                lemma_within_box(p, r, i % (width as int), i / (width as int));
                lemma_coords_of(width as int, height as int, i);
            }
        }
    }
    let mut y: i64 = y_lo;
    while y <= y_hi
        invariant
            overlay.len() == width * height,
            size_fits(width as int, height as int),
            r == radius,
            y_lo <= y,
            y_lo == if p.y - r < 0 {
                0
            } else {
                p.y - r
            },
            y_hi == if p.y + r > height - 1 {
                height - 1
            } else {
                p.y + r
            },
            x_lo == if p.x - r < 0 {
                0
            } else {
                p.x - r
            },
            x_hi == if p.x + r > width - 1 {
                width - 1
            } else {
                p.x + r
            },
            marked(
                before,
                overlay@,
                width as int,
                |xx: int, yy: int| within(p, r, xx, yy) && yy < y,
                matter,
            ),
        decreases y_hi + 1 - y,
    {
        proof {
            assert forall|xx: int, yy: int| inside(width as int, height as int, xx, yy) implies (
            within(p, r, xx, yy) && yy < y) <==> (within(p, r, xx, yy) && (yy < y || (yy == y
                && xx < x_lo))) by {
                if within(p, r, xx, yy) {
                    lemma_within_box(p, r, xx, yy);
                }
            }
            lemma_marked_ext(
                before,
                overlay@,
                width as int,
                height as int,
                |xx: int, yy: int| within(p, r, xx, yy) && yy < y,
                |xx: int, yy: int| within(p, r, xx, yy) && (yy < y || (yy == y && xx < x_lo)),
                matter,
            );
        }
        let mut x: i64 = x_lo;
        while x <= x_hi
            invariant
                overlay.len() == width * height,
                size_fits(width as int, height as int),
                r == radius,
                y_lo <= y <= y_hi,
                x_lo <= x,
                y_lo == if p.y - r < 0 {
                    0
                } else {
                    p.y - r
                },
                y_hi == if p.y + r > height - 1 {
                    height - 1
                } else {
                    p.y + r
                },
                x_lo == if p.x - r < 0 {
                    0
                } else {
                    p.x - r
                },
                x_hi == if p.x + r > width - 1 {
                    width - 1
                } else {
                    p.x + r
                },
                marked(
                    before,
                    overlay@,
                    width as int,
                    |xx: int, yy: int| within(p, r, xx, yy) && (yy < y || (yy == y && xx < x)),
                    matter,
                ),
            decreases x_hi + 1 - x,
        {
            let ghost prev = overlay@;
            let ghost t_old = |xx: int, yy: int| within(p, r, xx, yy) && (yy < y || (yy == y && xx < x));
            let ghost t_new = |xx: int, yy: int|
                within(p, r, xx, yy) && (yy < y || (yy == y && xx < x + 1));
            if in_brush(p, radius, x, y) {
                proof {
                    lemma_index_of(width as int, height as int, x as int, y as int);
                }
                let idx = (y as usize) * (width as usize) + (x as usize);
                let cell = MatterWithColor::with_jitter(matter, rng);
                overlay.set(idx, Some(cell.value));
                proof {
                    assert forall|i: int| 0 <= i < overlay@.len() implies if t_new(
                        i % (width as int),
                        i / (width as int),
                    ) {
                        (#[trigger] overlay@[i]) is Some && is_placement_of(
                            matter,
                            overlay@[i]->Some_0,
                        )
                    } else {
                        overlay@[i] == before[i]
                    } by {
                        lemma_coords_of(width as int, height as int, i);
                        if i != idx {
                            assert(prev[i] == overlay@[i]);
                        }
                    }
                }
            } else {
                proof {
                    assert forall|i: int| 0 <= i < overlay@.len() implies if t_new(
                        i % (width as int),
                        i / (width as int),
                    ) {
                        (#[trigger] overlay@[i]) is Some && is_placement_of(
                            matter,
                            overlay@[i]->Some_0,
                        )
                    } else {
                        overlay@[i] == before[i]
                    } by {
                        assert(t_old(i % (width as int), i / (width as int)) == t_new(
                            i % (width as int),
                            i / (width as int),
                        ));
                    }
                }
            }
            x = x + 1;
        }
        proof {
            assert forall|i: int| 0 <= i < overlay@.len() implies if within(
                p,
                r,
                i % (width as int),
                i / (width as int),
            ) && i / (width as int) < y + 1 {
                (#[trigger] overlay@[i]) is Some && is_placement_of(matter, overlay@[i]->Some_0)
            } else {
                overlay@[i] == before[i]
            } by {
                lemma_coords_of(width as int, height as int, i);
                if within(p, r, i % (width as int), i / (width as int)) {
                    lemma_within_box(p, r, i % (width as int), i / (width as int));
                }
            }
        }
        y = y + 1;
    }
    proof {
        assert forall|i: int| 0 <= i < overlay@.len() implies if within(
            p,
            r,
            i % (width as int),
            i / (width as int),
        ) {
            (#[trigger] overlay@[i]) is Some && is_placement_of(matter, overlay@[i]->Some_0)
        } else {
            overlay@[i] == before[i]
        } by {
            lemma_coords_of(width as int, height as int, i);
            if within(p, r, i % (width as int), i / (width as int)) {
                lemma_within_box(p, r, i % (width as int), i / (width as int));
            }
        }
    }
}

/// Stamps the stroke `line` of matter `matter` into `overlay`: every cell
/// under the brush at some position of the line gets its own placement of
/// `matter`, every other cell keeps what it held.
pub fn stamp(
    overlay: &mut Vec<Option<u32>>,
    width: u32,
    height: u32,
    line: &[GridPos],
    radius: u32,
    matter: MatterId,
    rng: &mut StdRng,
)
    requires
        old(overlay).len() == width * height,
        size_fits(width as int, height as int),
    ensures
        stamped(old(overlay)@, final(overlay)@, width as int, line@, radius as int, matter),
{
    let ghost before = overlay@;
    let ghost r = radius as int;
    let mut k: usize = 0;
    assert(marked(
        before,
        overlay@,
        width as int,
        |x: int, y: int| covered(line@.take(0), r, x, y),
        matter,
    ));
    while k < line.len()
        invariant
            overlay.len() == width * height,
            size_fits(width as int, height as int),
            r == radius,
            k <= line@.len(),
            marked(
                before,
                overlay@,
                width as int,
                |x: int, y: int| covered(line@.take(k as int), r, x, y),
                matter,
            ),
        decreases line.len() - k,
    {
        let ghost mid = overlay@;
        let p = line[k];
        stamp_disc(overlay, width, height, p, radius, matter, rng);
        proof {
            let done = line@.take(k as int);
            let next = line@.take(k + 1);
            assert forall|x: int, y: int| #[trigger] covered(next, r, x, y) <==> covered(
                done,
                r,
                x,
                y,
            ) || within(p, r, x, y) by {
                if covered(next, r, x, y) {
                    let j = choose|j: int| 0 <= j < next.len() && #[trigger] within(next[j], r, x, y);
                    if j < k {
                        assert(done[j] == next[j]);
                    }
                }
                if covered(done, r, x, y) {
                    let j = choose|j: int| 0 <= j < done.len() && #[trigger] within(done[j], r, x, y);
                    assert(done[j] == next[j]);
                }
                if within(p, r, x, y) {
                    assert(next[k as int] == p);
                }
            }
            lemma_marked_compose(
                before,
                mid,
                overlay@,
                width as int,
                |x: int, y: int| covered(done, r, x, y),
                |x: int, y: int| within(p, r, x, y),
                |x: int, y: int| covered(next, r, x, y),
                matter,
            );
        }
        k = k + 1;
    }
    assert(line@.take(line@.len() as int) =~= line@);
}

} // verus!
