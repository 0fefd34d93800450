//! Neighborhoods of the cells of a row-major grid: cell `(x, y)` of a grid
//! of width `w` has flat index `x + y * w`.

use vstd::prelude::*;

use crate::State;

verus! {

/// An optional index, as an integer.
pub open spec fn as_int(o: Option<usize>) -> Option<int> {
    match o {
        Some(j) => Some(j as int),
        None => None,
    }
}

/// The flat index of column `x`, row `y` of a `w` by `h` grid, if it lies in
/// the grid.
pub open spec fn cell_at(w: int, h: int, x: int, y: int) -> Option<int> {
    if 0 <= x < w && 0 <= y < h {
        Some(x + y * w)
    } else {
        None
    }
}

/// The column and row offsets of the eight Moore neighbors, in the order in
/// which neighbors are listed: the row above from left to right, then left
/// and right, then the row below from left to right. On the flat index they
/// are `-w-1, -w, -w+1, -1, +1, w-1, w, w+1`.
pub open spec fn moore_dx(k: int) -> int {
    if k == 0 || k == 3 || k == 5 {
        -1
    } else if k == 2 || k == 4 || k == 7 {
        1
    } else {
        0
    }
}

pub open spec fn moore_dy(k: int) -> int {
    if k <= 2 {
        -1
    } else if k <= 4 {
        0
    } else {
        1
    }
}

/// The flat index of the `k`-th Moore neighbor of cell `i`, if it lies in the
/// grid.
pub open spec fn moore_cell(w: int, h: int, i: int, k: int) -> Option<int> {
    cell_at(w, h, i % w + moore_dx(k), i / w + moore_dy(k))
}

/// The neighbors of cell `i` reached by the first `k` offsets, leaving out
/// those that fall outside the grid.
pub open spec fn neighbors_upto<T>(cells: Seq<T>, w: int, h: int, i: int, k: int) -> Seq<T>
    decreases k,
{
    if k <= 0 {
        Seq::empty()
    } else {
        let prev = neighbors_upto(cells, w, h, i, k - 1);
        match moore_cell(w, h, i, k - 1) {
            Some(j) => prev.push(cells[j]),
            None => prev,
        }
    }
}

/// The neighbors of cell `i` in a `w` by `h` grid, in offset order, without
/// those outside the grid (no wraparound).
pub open spec fn neighbors<T>(cells: Seq<T>, w: int, h: int, i: int) -> Seq<T> {
    neighbors_upto(cells, w, h, i, 8)
}

/// The column and row of cell `i`.
pub proof fn lemma_coords(i: int, w: int, h: int)
    requires
        0 <= i < w * h,
        0 <= h,
    ensures
        w > 0,
        0 <= i % w < w,
        0 <= i / w < h,
        i == i % w + (i / w) * w,
{
    assert(w > 0) by (nonlinear_arith)
        requires
            0 <= i < w * h,
            0 <= h,
    ;
    assert(0 <= i % w < w && i == i % w + (i / w) * w && 0 <= i / w) by (nonlinear_arith)
        requires
            w > 0,
            0 <= i,
    ;
    assert(i / w < h) by (nonlinear_arith)
        requires
            w > 0,
            0 <= i % w,
            i == i % w + (i / w) * w,
            i < w * h,
    ;
}

/// The cell at column `x + dx - 1`, row `y + dy - 1` (each of `dx`, `dy` is
/// 0, 1 or 2), if it lies in the grid.
fn shifted(w: usize, h: usize, x: usize, y: usize, dx: usize, dy: usize) -> (r: Option<usize>)
    requires
        x < w,
        y < h,
        w * h <= usize::MAX,
        dx <= 2,
        dy <= 2,
    ensures
        as_int(r) == cell_at(w as int, h as int, x + dx - 1, y + dy - 1),
        r matches Some(j) ==> j < w * h,
{
    if (dx == 0 && x == 0) || (dx == 2 && x + 1 >= w) || (dy == 0 && y == 0) || (dy == 2 && y + 1 >= h) {
        None
    } else {
        let nx = if dx == 0 {
            x - 1
        } else if dx == 1 {
            x
        } else {
            x + 1
        };
        let ny = if dy == 0 {
            y - 1
        } else if dy == 1 {
            y
        } else {
            y + 1
        };
        proof {
            lemma_index_in_grid(nx as int, ny as int, w as int, h as int);
        }
        Some(nx + ny * w)
    }
}

/// The index of the `k`-th Moore neighbor of cell `i` of a `w` by `h` grid,
/// or `None` where it lies outside the grid.
pub fn moore_index(w: usize, h: usize, i: usize, k: usize) -> (r: Option<usize>)
    requires
        i < w * h,
        w * h <= usize::MAX,
        k < 8,
    ensures
        as_int(r) == moore_cell(w as int, h as int, i as int, k as int),
        r matches Some(j) ==> j < w * h,
{
    proof {
        lemma_coords(i as int, w as int, h as int);
    }
    let dx: usize = if k == 0 || k == 3 || k == 5 {
        0
    } else if k == 2 || k == 4 || k == 7 {
        2
    } else {
        1
    };
    let dy: usize = if k <= 2 {
        0
    } else if k <= 4 {
        1
    } else {
        2
    };
    shifted(w, h, i % w, i / w, dx, dy)
}

/// References to the neighbors of cell `i` of `cells`, a `w` by `h` grid.
pub fn neighbor_refs<'a, T>(cells: &'a Vec<T>, w: usize, h: usize, i: usize) -> (r: Vec<&'a T>)
    requires
        cells@.len() == w * h,
        i < w * h,
    ensures
        r@.len() <= 8,
        r@.len() == neighbors(cells@, w as int, h as int, i as int).len(),
        forall|k: int|
            0 <= k < r@.len() ==> *r@[k] == #[trigger] neighbors(cells@, w as int, h as int, i as int)[k],
{
    // The length is a usize, which bounds w * h.
    let n = cells.len();
    let mut r: Vec<&'a T> = Vec::new();
    let mut k: usize = 0;
    while k < 8
        invariant
            k <= 8,
            n == cells@.len(),
            cells@.len() == w * h,
            i < w * h,
            r@.len() <= k,
            r@.len() == neighbors_upto(cells@, w as int, h as int, i as int, k as int).len(),
            forall|m: int|
                0 <= m < r@.len() ==> *r@[m] == #[trigger] neighbors_upto(
                    cells@,
                    w as int,
                    h as int,
                    i as int,
                    k as int,
                )[m],
        decreases 8 - k,
    {
        match moore_index(w, h, i, k) {
            Some(j) => {
                r.push(&cells[j]);
            },
            None => {},
        }
        k = k + 1;
    }
    r
}

/// Taking neighbors commutes with mapping every cell.
pub proof fn lemma_neighbors_upto_map<T, U>(cells: Seq<T>, f: spec_fn(T) -> U, w: int, h: int, i: int, k: int)
    requires
        cells.len() == w * h,
        0 <= i < w * h,
        0 <= h,
    ensures
        neighbors_upto(cells.map_values(f), w, h, i, k) == neighbors_upto(cells, w, h, i, k).map_values(f),
    decreases k,
{
    if k > 0 {
        lemma_neighbors_upto_map(cells, f, w, h, i, k - 1);
        let prev = neighbors_upto(cells, w, h, i, k - 1);
        if let Some(j) = moore_cell(w, h, i, k - 1) {
            lemma_index_in_grid(i % w + moore_dx(k - 1), i / w + moore_dy(k - 1), w, h);
            assert(prev.push(cells[j]).map_values(f) =~= prev.map_values(f).push(f(cells[j])));
        }
    }
}

/// The next values of all cells of `cells`, a `w` by `h` grid, each from
/// the previous values of its neighbors only.
pub fn step_cells<C: State>(cells: &Vec<C>, w: usize, h: usize) -> (r: Vec<C>)
    requires
        cells@.len() == w * h,
        forall|i: int| 0 <= i < cells@.len() ==> (#[trigger] cells@[i]).inv(),
    ensures
        r@.len() == cells@.len(),
        forall|i: int| 0 <= i < r@.len() ==> (#[trigger] r@[i]).inv(),
        forall|i: int|
            0 <= i < r@.len() ==> (#[trigger] r@[i])@ == C::next(
                cells@[i]@,
                neighbors(cells@.map_values(|c: C| c@), w as int, h as int, i),
            ),
{
    let ghost views = cells@.map_values(|c: C| c@);
    let mut r: Vec<C> = Vec::new();
    let mut i: usize = 0;
    while i < cells.len()
        invariant
            i <= cells@.len(),
            r@.len() == i,
            cells@.len() == w * h,
            views == cells@.map_values(|c: C| c@),
            forall|i: int| 0 <= i < cells@.len() ==> (#[trigger] cells@[i]).inv(),
            forall|m: int| 0 <= m < r@.len() ==> (#[trigger] r@[m]).inv(),
            forall|m: int|
                0 <= m < r@.len() ==> (#[trigger] r@[m])@ == C::next(
                    cells@[m]@,
                    neighbors(views, w as int, h as int, m),
                ),
        decreases cells@.len() - i,
    {
        let nb = neighbor_refs(cells, w, h, i);
        proof {
            lemma_neighbors_upto_map(cells@, |c: C| c@, w as int, h as int, i as int, 8);
            assert(nb@.map_values(|c: &C| c@) =~= neighbors(views, w as int, h as int, i as int));
            assert forall|k: int| 0 <= k < nb@.len() implies (#[trigger] nb@[k]).inv() by {
                lemma_neighbors_member(cells@, w as int, h as int, i as int, 8, k);
            }
        }
        let c = cells[i].local_transition(&nb);
        r.push(c);
        i = i + 1;
    }
    r
}

/// Every neighbor is a cell of the grid.
pub proof fn lemma_neighbors_member<T>(cells: Seq<T>, w: int, h: int, i: int, k: int, m: int)
    requires
        cells.len() == w * h,
        0 <= m < neighbors_upto(cells, w, h, i, k).len(),
    ensures
        exists|j: int| 0 <= j < cells.len() && cells[j] == neighbors_upto(cells, w, h, i, k)[m],
    decreases k,
{
    if k > 0 {
        let prev = neighbors_upto(cells, w, h, i, k - 1);
        if m < prev.len() {
            lemma_neighbors_member(cells, w, h, i, k - 1, m);
        } else {
            let j = moore_cell(w, h, i, k - 1)->0;
            lemma_index_in_grid(i % w + moore_dx(k - 1), i / w + moore_dy(k - 1), w, h);
            assert(cells[j] == neighbors_upto(cells, w, h, i, k)[m]);
        }
    }
}

/// Looks up column `x`, row `y` of a `w` by `h` grid; `None` outside it.
pub fn cell_index(w: usize, h: usize, x: isize, y: isize) -> (r: Option<usize>)
    requires
        w * h <= usize::MAX,
    ensures
        as_int(r) == cell_at(w as int, h as int, x as int, y as int),
{
    if x < 0 || y < 0 {
        None
    } else if x as usize >= w || y as usize >= h {
        None
    } else {
        proof {
            lemma_index_in_grid(x as int, y as int, w as int, h as int);
        }
        Some(x as usize + y as usize * w)
    }
}

/// The column and row offsets of the four orthogonal neighbors, in the order
/// left, right, up, down.
pub open spec fn ortho_dx(k: int) -> int {
    if k == 0 {
        -1
    } else if k == 1 {
        1
    } else {
        0
    }
}

pub open spec fn ortho_dy(k: int) -> int {
    if k == 2 {
        -1
    } else if k == 3 {
        1
    } else {
        0
    }
}

/// The indices of the left, right, upper and lower neighbors of cell `i` of
/// a `w` by `h` grid; `None` where that neighbor lies outside the grid, for
/// the caller to put a border cell there.
pub fn orthogonal_neighbors(w: usize, h: usize, i: usize) -> (r: Vec<Option<usize>>)
    requires
        i < w * h,
        w * h <= usize::MAX,
    ensures
        r@.len() == 4,
        forall|k: int|
            0 <= k < 4 ==> as_int(#[trigger] r@[k]) == cell_at(
                w as int,
                h as int,
                (i % w) + ortho_dx(k),
                (i / w) + ortho_dy(k),
            ),
{
    proof {
        lemma_coords(i as int, w as int, h as int);
    }
    let x = i % w;
    let y = i / w;
    let left = shifted(w, h, x, y, 0, 1);
    let right = shifted(w, h, x, y, 2, 1);
    let up = shifted(w, h, x, y, 1, 0);
    let down = shifted(w, h, x, y, 1, 2);
    let r = vec![left, right, up, down];
    proof {
        assert(r@[0] == left && r@[1] == right && r@[2] == up && r@[3] == down);
    }
    r
}

/// Which Moore neighbor feeds each of the eight light slots: the slots list
/// the row above from left to right, then right and left, then the row below
/// from right to left.
pub open spec fn light_slot(k: int) -> int {
    if k == 3 {
        4
    } else if k == 4 {
        3
    } else if k == 5 {
        7
    } else if k == 7 {
        5
    } else {
        k
    }
}

/// The indices of the eight neighbors of cell `i` of a `w` by `h` grid, by
/// light slot; `None` where the neighbor lies outside the grid, for the
/// caller to put a border cell there.
pub fn light_neighbors(w: usize, h: usize, i: usize) -> (r: Vec<Option<usize>>)
    requires
        i < w * h,
        w * h <= usize::MAX,
    ensures
        r@.len() == 8,
        forall|k: int|
            0 <= k < 8 ==> as_int(#[trigger] r@[k]) == moore_cell(w as int, h as int, i as int, light_slot(k)),
{
    let mut r: Vec<Option<usize>> = Vec::new();
    let mut k: usize = 0;
    while k < 8
        invariant
            k <= 8,
            i < w * h,
            w * h <= usize::MAX,
            r@.len() == k,
            forall|m: int|
                0 <= m < k ==> as_int(#[trigger] r@[m]) == moore_cell(w as int, h as int, i as int, light_slot(m)),
        decreases 8 - k,
    {
        let slot: usize = if k == 3 {
            4
        } else if k == 4 {
            3
        } else if k == 5 {
            7
        } else if k == 7 {
            5
        } else {
            k
        };
        r.push(moore_index(w, h, i, slot));
        k = k + 1;
    }
    r
}

/// The direction of the ray that a cell receives from the neighbor in `slot`:
/// the direction opposite the slot.
pub fn opposite_direction(slot: usize) -> (r: usize)
    requires
        slot < 8,
    ensures
        r == (4 + slot) % 8,
        r < 8,
{
    (4 + slot) % 8
}

/// A coordinate inside a `w` by `h` grid has its flat index inside it.
pub proof fn lemma_index_in_grid(x: int, y: int, w: int, h: int)
    requires
        0 <= x < w,
        0 <= y < h,
    ensures
        0 <= y * w <= x + y * w < w * h,
{
    assert(x + y * w < w * h) by (nonlinear_arith)
        requires
            0 <= x < w,
            0 <= y < h,
    ;
    assert(0 <= y * w) by (nonlinear_arith)
        requires
            0 <= y,
            0 <= w,
    ;
}

} // verus!
