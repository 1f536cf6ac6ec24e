//! The movement rules. A grid is a row-major sequence of cell words, `width`
//! cells to a row, row 0 at the bottom: "down" is one row lower, index `width`
//! less. Each pass computes every cell of the next state from the previous
//! state alone, so that cells may be evaluated in any order or in parallel.

use vstd::prelude::*;

use crate::count::{count_in, lemma_count_disjoint, lemma_count_none, lemma_count_shift, lemma_count_split};
use crate::matter::{is_empty, matter_of, MatterId, MatterWithColor, EMPTY_CELL};

verus! {

/// The state after a pass in which every cell `j` for which `first(j)` holds
/// moves to `j - k1`, every cell for which `second(j)` holds moves to
/// `j - k2`, and each mover leaves an empty cell behind.
pub open spec fn shifted(
    g: Seq<u32>,
    k1: int,
    first: spec_fn(int) -> bool,
    k2: int,
    second: spec_fn(int) -> bool,
) -> Seq<u32> {
    Seq::new(
        g.len(),
        |i: int|
            if i + k1 < g.len() && first(i + k1) {
                g[i + k1]
            } else if i + k2 < g.len() && second(i + k2) {
                g[i + k2]
            } else if first(i) || second(i) {
                EMPTY_CELL
            } else {
                g[i]
            },
    )
}

/// Cell `j` falls: it holds matter, it is not on the bottom row, and the cell
/// directly below it is empty.
pub open spec fn cell_falls(g: Seq<u32>, width: int, j: int) -> bool {
    width <= j < g.len() && !is_empty(g[j]) && is_empty(g[j - width])
}

/// Cell `j` can slide one column towards `dir` (-1 left, 1 right): it holds
/// matter, the cell directly below it holds matter, and the cell diagonally
/// below it on that side is inside the grid and empty.
pub open spec fn cell_slides(g: Seq<u32>, width: int, dir: int, j: int) -> bool {
    width <= j < g.len() && !is_empty(g[j]) && !is_empty(g[j - width]) && 0 <= j % width + dir
        < width && is_empty(g[j - width + dir])
}

/// Cell `j` slides to the side opposite the preferred `dir`: it cannot slide
/// towards `dir`, it can slide the other way, and the cell it would move to
/// is not the target of a cell that slides towards `dir`.
pub open spec fn cell_slides_back(g: Seq<u32>, width: int, dir: int, j: int) -> bool {
    !cell_slides(g, width, dir, j) && cell_slides(g, width, -dir, j) && !cell_slides(
        g,
        width,
        dir,
        j - 2 * dir,
    )
}

/// The state after one fall pass.
pub open spec fn fall(g: Seq<u32>, width: int) -> Seq<u32> {
    shifted(g, width, |j: int| cell_falls(g, width, j), width, |j: int| false)
}

/// The state after one slide pass that prefers the side `dir`.
pub open spec fn slide(g: Seq<u32>, width: int, dir: int) -> Seq<u32> {
    shifted(
        g,
        width - dir,
        |j: int| cell_slides(g, width, dir, j),
        width + dir,
        |j: int| cell_slides_back(g, width, dir, j),
    )
}

/// How many cells of `g` hold matter `m`.
pub open spec fn matter_count(g: Seq<u32>, m: MatterId) -> nat {
    count_in(0, g.len() as int, |i: int| matter_of(g[i]) == m)
}

/// How many cells of `g` hold any matter.
pub open spec fn occupied_count(g: Seq<u32>) -> nat {
    count_in(0, g.len() as int, |i: int| !is_empty(g[i]))
}

/// Counting the cells that receive a kept mover `k` places lower is counting
/// the kept movers.
proof fn lemma_arrivals(g: Seq<u32>, k: int, moves: spec_fn(int) -> bool, keep: spec_fn(u32) -> bool)
    requires
        k >= 0,
        forall|j: int| #[trigger] moves(j) ==> k <= j < g.len(),
    ensures
        count_in(0, g.len() as int, |i: int| i + k < g.len() && moves(i + k) && keep(g[i + k]))
            == count_in(0, g.len() as int, |j: int| moves(j) && keep(g[j])),
{
    let n = g.len() as int;
    let arrives = |i: int| i + k < n && moves(i + k) && keep(g[i + k]);
    let leaves = |j: int| moves(j) && keep(g[j]);
    if k <= n {
        lemma_count_split(0, n - k, n, arrives);
        lemma_count_none(n - k, n, arrives);
        lemma_count_shift(0, n - k, k, leaves, arrives);
        lemma_count_split(0, k, n, leaves);
        lemma_count_none(0, k, leaves);
    } else {
        lemma_count_none(0, n, arrives);
        lemma_count_none(0, n, leaves);
    }
}

/// A pass that moves cells only onto empty cells lower down, never two onto
/// one, keeps the number of cells that satisfy `keep`, a predicate that no
/// empty cell meets.
proof fn lemma_shift_conserves(
    g: Seq<u32>,
    k1: int,
    first: spec_fn(int) -> bool,
    k2: int,
    second: spec_fn(int) -> bool,
    keep: spec_fn(u32) -> bool,
)
    requires
        k1 >= 0,
        k2 >= 0,
        forall|j: int| #[trigger] first(j) ==> k1 <= j < g.len() && is_empty(g[j - k1]),
        forall|j: int| #[trigger]
            second(j) ==> k2 <= j < g.len() && is_empty(g[j - k2]) && !first(j) && !first(
                j - k2 + k1,
            ),
        forall|c: u32| #[trigger] keep(c) ==> !is_empty(c),
    ensures
        count_in(0, g.len() as int, |i: int| keep(shifted(g, k1, first, k2, second)[i]))
            == count_in(0, g.len() as int, |i: int| keep(g[i])),
{
    let n = g.len() as int;
    let h = shifted(g, k1, first, k2, second);
    let after = |i: int| keep(h[i]);
    let before = |i: int| keep(g[i]);
    let a1 = |i: int| i + k1 < n && first(i + k1) && keep(g[i + k1]);
    let a2 = |i: int| i + k2 < n && second(i + k2) && keep(g[i + k2]);
    let l1 = |j: int| first(j) && keep(g[j]);
    let l2 = |j: int| second(j) && keep(g[j]);
    let arrives = |i: int| a1(i) || a2(i);
    let leaves = |j: int| l1(j) || l2(j);
    let stays = |i: int| !first(i) && !second(i) && keep(g[i]);
    assert(is_empty(EMPTY_CELL));
    assert forall|i: int| 0 <= i < n implies (#[trigger] after(i) <==> (arrives(i) || stays(i))) && !(
    arrives(i) && stays(i)) && !(a1(i) && a2(i)) by {
        if i + k1 < n && first(i + k1) {
            assert(is_empty(g[i]));
        } else if i + k2 < n && second(i + k2) {
            assert(is_empty(g[i]));
        }
    }
    assert forall|i: int| 0 <= i < n implies (#[trigger] arrives(i) <==> (a1(i) || a2(i))) && !(a1(
        i,
    ) && a2(i)) by {}
    assert forall|j: int| 0 <= j < n implies (#[trigger] before(j) <==> (leaves(j) || stays(j)))
        && !(leaves(j) && stays(j)) by {}
    assert forall|j: int| 0 <= j < n implies (#[trigger] leaves(j) <==> (l1(j) || l2(j))) && !(l1(
        j,
    ) && l2(j)) by {}
    lemma_count_disjoint(0, n, arrives, stays, after);
    lemma_count_disjoint(0, n, a1, a2, arrives);
    lemma_count_disjoint(0, n, leaves, stays, before);
    lemma_count_disjoint(0, n, l1, l2, leaves);
    lemma_arrivals(g, k1, first, keep);
    lemma_arrivals(g, k2, second, keep);
    assert(a1 =~= (|i: int| i + k1 < g.len() && first(i + k1) && keep(g[i + k1])));
    assert(a2 =~= (|i: int| i + k2 < g.len() && second(i + k2) && keep(g[i + k2])));
}

/// Where `j % width + dir` lies in the row and `dir` is -1 or 1, the cell
/// diagonally below `j` lies `width - dir` places lower, inside the sequence.
proof fn lemma_diagonal_in_range(width: int, dir: int, j: int)
    requires
        width >= 1,
        dir == -1 || dir == 1,
        width <= j,
        0 <= j % width + dir < width,
    ensures
        0 <= j - width + dir < j,
{
    vstd::arithmetic::div_mod::lemma_fundamental_div_mod(j, width);
    assert(j / width >= 1) by {
        vstd::arithmetic::div_mod::lemma_div_is_ordered(width, j, width);
        vstd::arithmetic::div_mod::lemma_div_by_self(width);
    }
    assert(width * (j / width) >= width) by (nonlinear_arith)
        requires
            j / width >= 1,
            width >= 1,
    ;
}

/// A fall pass neither creates nor destroys matter: for every matter, the
/// number of cells that hold it is the same before and after.
pub proof fn lemma_fall_conserves(g: Seq<u32>, width: int, m: MatterId)
    requires
        width >= 0,
        m != MatterId::Empty,
    ensures
        matter_count(fall(g, width), m) == matter_count(g, m),
        occupied_count(fall(g, width)) == occupied_count(g),
{
    let first = |j: int| cell_falls(g, width, j);
    let second = |j: int| false;
    let h = shifted(g, width, first, width, second);
    let of_m = |c: u32| matter_of(c) == m;
    let full = |c: u32| !is_empty(c);
    lemma_shift_conserves(g, width, first, width, second, of_m);
    lemma_shift_conserves(g, width, first, width, second, full);
    assert((|i: int| matter_of(fall(g, width)[i]) == m) =~= (|i: int| of_m(h[i])));
    assert((|i: int| matter_of(g[i]) == m) =~= (|i: int| of_m(g[i])));
    assert((|i: int| !is_empty(fall(g, width)[i])) =~= (|i: int| full(h[i])));
    assert((|i: int| !is_empty(g[i])) =~= (|i: int| full(g[i])));
}

/// A slide pass neither creates nor destroys matter: for every matter, the
/// number of cells that hold it is the same before and after.
pub proof fn lemma_slide_conserves(g: Seq<u32>, width: int, dir: int, m: MatterId)
    requires
        width >= 0,
        dir == -1 || dir == 1,
        m != MatterId::Empty,
    ensures
        matter_count(slide(g, width, dir), m) == matter_count(g, m),
        occupied_count(slide(g, width, dir)) == occupied_count(g),
{
    let first = |j: int| cell_slides(g, width, dir, j);
    let second = |j: int| cell_slides_back(g, width, dir, j);
    let k1 = width - dir;
    let k2 = width + dir;
    if width == 0 {
        assert(slide(g, width, dir) =~= g);
    } else {
        let h = shifted(g, k1, first, k2, second);
        let of_m = |c: u32| matter_of(c) == m;
        let full = |c: u32| !is_empty(c);
        assert forall|j: int| #[trigger] first(j) implies k1 <= j < g.len() && is_empty(g[j - k1]) by {
            lemma_diagonal_in_range(width, dir, j);
        }
        assert forall|j: int| #[trigger] second(j) implies k2 <= j < g.len() && is_empty(g[j - k2])
            && !first(j) && !first(j - k2 + k1) by {
            lemma_diagonal_in_range(width, -dir, j);
        }
        lemma_shift_conserves(g, k1, first, k2, second, of_m);
        lemma_shift_conserves(g, k1, first, k2, second, full);
        assert((|i: int| matter_of(slide(g, width, dir)[i]) == m) =~= (|i: int| of_m(h[i])));
        assert((|i: int| matter_of(g[i]) == m) =~= (|i: int| of_m(g[i])));
        assert((|i: int| !is_empty(slide(g, width, dir)[i])) =~= (|i: int| full(h[i])));
        assert((|i: int| !is_empty(g[i])) =~= (|i: int| full(g[i])));
    }
}

/// The slide direction as a column step: -1 left, 1 right.
pub open spec fn dir_step(to_right: bool) -> int {
    if to_right {
        1
    } else {
        -1
    }
}

/// Whether a cell word holds no matter.
pub fn cell_is_empty(cell: u32) -> (r: bool)
    ensures
        r == is_empty(cell),
{
    MatterWithColor { value: cell }.matter_id() == MatterId::Empty
}

fn falls_at(g: &Vec<u32>, width: usize, j: usize) -> (r: bool)
    requires
        j < g.len(),
    ensures
        r == cell_falls(g@, width as int, j as int),
{
    width <= j && !cell_is_empty(g[j]) && cell_is_empty(g[j - width])
}

fn slides_at(g: &Vec<u32>, width: usize, to_right: bool, j: usize) -> (r: bool)
    requires
        j < g.len(),
        width >= 1,
    ensures
        r == cell_slides(g@, width as int, dir_step(to_right), j as int),
{
    if j < width || cell_is_empty(g[j]) || cell_is_empty(g[j - width]) {
        return false;
    }
    let col = j % width;
    if to_right {
        if col + 1 >= width {
            return false;
        }
        proof {
            lemma_diagonal_in_range(width as int, 1, j as int);
        }
        cell_is_empty(g[j - width + 1])
    } else {
        if col == 0 {
            return false;
        }
        proof {
            lemma_diagonal_in_range(width as int, -1, j as int);
        }
        cell_is_empty(g[j - width - 1])
    }
}

/// Writes into `dst` the state after one fall pass over `src`.
pub fn fall_pass(src: &Vec<u32>, dst: &mut Vec<u32>, width: usize)
    requires
        old(dst).len() == src.len(),
    ensures
        final(dst)@ == fall(src@, width as int),
{
    let n = src.len();
    let mut i: usize = 0;
    while i < n
        invariant
            n == src.len(),
            dst.len() == n,
            i <= n,
            forall|j: int| 0 <= j < i ==> dst@[j] == fall(src@, width as int)[j],
        decreases n - i,
    {
        let v = if width <= n && i < n - width && falls_at(src, width, i + width) {
            src[i + width]
        } else if falls_at(src, width, i) {
            EMPTY_CELL
        } else {
            src[i]
        };
        dst.set(i, v);
        i += 1;
    }
    assert(dst@ =~= fall(src@, width as int));
}

fn slides_back_at(g: &Vec<u32>, width: usize, to_right: bool, j: usize) -> (r: bool)
    requires
        j < g.len(),
        width >= 1,
    ensures
        r == cell_slides_back(g@, width as int, dir_step(to_right), j as int),
{
    if slides_at(g, width, to_right, j) || !slides_at(g, width, !to_right, j) {
        return false;
    }
    if to_right {
        !(j >= 2 && slides_at(g, width, to_right, j - 2))
    } else {
        !(j < g.len() - 2 && slides_at(g, width, to_right, j + 2))
    }
}

/// Writes into `dst` the state after one slide pass over `src` that prefers
/// the right where `to_right` holds and the left otherwise.
pub fn slide_pass(src: &Vec<u32>, dst: &mut Vec<u32>, width: usize, to_right: bool)
    requires
        old(dst).len() == src.len(),
        1 <= width < usize::MAX,
    ensures
        final(dst)@ == slide(src@, width as int, dir_step(to_right)),
{
    let n = src.len();
    let k1 = if to_right {
        width - 1
    } else {
        width + 1
    };
    let k2 = if to_right {
        width + 1
    } else {
        width - 1
    };
    let mut i: usize = 0;
    while i < n
        invariant
            n == src.len(),
            dst.len() == n,
            i <= n,
            1 <= width < usize::MAX,
            k1 == width - dir_step(to_right),
            k2 == width + dir_step(to_right),
            forall|j: int| 0 <= j < i ==> dst@[j] == slide(src@, width as int, dir_step(to_right))[j],
        decreases n - i,
    {
        let v = if k1 <= n && i < n - k1 && slides_at(src, width, to_right, i + k1) {
            src[i + k1]
        } else if k2 <= n && i < n - k2 && slides_back_at(src, width, to_right, i + k2) {
            src[i + k2]
        } else if slides_at(src, width, to_right, i) || slides_back_at(src, width, to_right, i) {
            EMPTY_CELL
        } else {
            src[i]
        };
        dst.set(i, v);
        i += 1;
    }
    assert(dst@ =~= slide(src@, width as int, dir_step(to_right)));
}

} // verus!
