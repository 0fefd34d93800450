//! A grid whose cells are life grids: each sub-grid steps only when it is at
//! least as active as all of its neighbors.

use vstd::prelude::*;

use crate::life::{gated, life_step, LifeGrid, Toto};
use crate::neighborhood::{lemma_index_in_grid, neighbors, step_cells};
use crate::{Automata, GridError, State};

verus! {

/// What a meta-grid is: its size and its sub-grids in row-major order.
pub struct MetaView {
    pub w: nat,
    pub h: nat,
    pub cells: Seq<LifeGrid>,
}

impl MetaView {
    pub open spec fn wf(self) -> bool {
        &&& self.cells.len() == self.w * self.h
        &&& forall|i: int| 0 <= i < self.cells.len() ==> (#[trigger] self.cells[i]).wf()
    }
}

/// One step of a meta-grid: every sub-grid by the gating rule, each against
/// the previous sub-grids around it.
pub open spec fn meta_step(m: MetaView) -> MetaView {
    MetaView {
        w: m.w,
        h: m.h,
        cells: Seq::new(
            m.cells.len(),
            |i: int| Toto::next(m.cells[i], neighbors(m.cells, m.w as int, m.h as int, i)),
        ),
    }
}

/// A grid of life grids, stored row-major.
pub struct MetaAutomata {
    data: Vec<Toto>,
    w: usize,
    h: usize,
}

impl View for MetaAutomata {
    type V = MetaView;

    closed spec fn view(&self) -> MetaView {
        MetaView { w: self.w as nat, h: self.h as nat, cells: self.data@.map_values(|c: Toto| c@) }
    }
}

impl MetaAutomata {
    /// A `w` by `h` grid of random `pas` by `pas` life grids.
    pub fn new(w: usize, h: usize, pas: usize) -> (r: MetaAutomata)
        requires
            w * h <= usize::MAX,
            pas * pas <= usize::MAX,
        ensures
            r@.wf(),
            r@.w == w,
            r@.h == h,
            forall|i: int|
                0 <= i < r@.cells.len() ==> (#[trigger] r@.cells[i]).w == pas && r@.cells[i].h == pas
                    && r@.cells[i].heat == 0,
    {
        let n: usize = w * h;
        let mut data: Vec<Toto> = Vec::new();
        let mut i: usize = 0;
        while i < n
            invariant
                i <= n,
                n == w * h,
                pas * pas <= usize::MAX,
                data@.len() == i,
                forall|k: int|
                    0 <= k < i ==> (#[trigger] data@[k])@.wf() && data@[k]@.w == pas && data@[k]@.h
                        == pas && data@[k]@.heat == 0,
            decreases n - i,
        {
            data.push(Toto::random(pas, pas));
            i = i + 1;
        }
        MetaAutomata { data, w, h }
    }

    /// A `w` by `h` grid made of the given sub-grids, row-major.
    pub fn from_grids(grids: Vec<Toto>, w: usize, h: usize) -> (r: Result<MetaAutomata, GridError>)
        requires
            forall|i: int| 0 <= i < grids@.len() ==> (#[trigger] grids@[i])@.wf(),
        ensures
            grids@.len() == w * h <==> r is Ok,
            grids@.len() != w * h ==> r == Err::<MetaAutomata, GridError>(GridError::SizeMismatch),
            r matches Ok(m) ==> m@.wf() && m@ == (MetaView {
                w: w as nat,
                h: h as nat,
                cells: grids@.map_values(|c: Toto| c@),
            }),
    {
        if (h == 0 && grids.len() != 0) || (h != 0 && (grids.len() % h != 0 || grids.len() / h != w)) {
            proof {
                if h != 0 && grids@.len() == w * h {
                    assert((w * h) % (h as int) == 0 && (w * h) / (h as int) == w) by (nonlinear_arith)
                        requires
                            h != 0,
                    ;
                }
            }
            Err(GridError::SizeMismatch)
        } else {
            proof {
                if h != 0 {
                    let n = grids@.len() as int;
                    assert(n == (n / (h as int)) * h + n % (h as int)) by (nonlinear_arith)
                        requires
                            h != 0,
                    ;
                }
            }
            Ok(MetaAutomata { data: grids, w, h })
        }
    }

    pub fn width(&self) -> (r: usize)
        ensures
            r == self@.w,
    {
        self.w
    }

    pub fn height(&self) -> (r: usize)
        ensures
            r == self@.h,
    {
        self.h
    }

    /// The sub-grid at column `x` and row `y`, if they lie in the grid.
    pub fn get(&self, x: usize, y: usize) -> (r: Option<&Toto>)
        requires
            self@.wf(),
        ensures
            r is Some <==> x < self@.w && y < self@.h,
            r matches Some(g) ==> g@ == self@.cells[x + y * self@.w],
    {
        // The length is a usize, which bounds w * h.
        let _len = self.data.len();
        if x < self.w && y < self.h {
            proof {
                lemma_index_in_grid(x as int, y as int, self.w as int, self.h as int);
            }
            Some(&self.data[x + y * self.w])
        } else {
            None
        }
    }

    /// The sub-grids, row-major.
    pub fn grids(&self) -> (r: &Vec<Toto>)
        ensures
            r@.map_values(|c: Toto| c@) == self@.cells,
    {
        &self.data
    }
}

impl Automata for MetaAutomata {
    open spec fn inv(&self) -> bool {
        self@.wf()
    }

    open spec fn step(v: MetaView) -> MetaView {
        meta_step(v)
    }

    fn global_transition(&self) -> (r: MetaAutomata) {
        proof {
            assert forall|i: int| 0 <= i < self.data@.len() implies (#[trigger] self.data@[i])@.wf() by {
                assert(self@.cells[i] == self.data@[i]@);
            }
        }
        let data = step_cells(&self.data, self.w, self.h);
        let r = MetaAutomata { data, w: self.w, h: self.h };
        proof {
            assert(r@.cells =~= meta_step(self@).cells);
        }
        r
    }
}

/// Determinism: one step of a meta-grid depends on the grid alone.
pub proof fn lemma_meta_step_deterministic(a: MetaView, b: MetaView)
    requires
        a == b,
    ensures
        meta_step(a) == meta_step(b),
{
}

/// A step keeps the outer width and height and the number of sub-grids.
pub proof fn lemma_meta_step_keeps_size(m: MetaView)
    ensures
        meta_step(m).w == m.w,
        meta_step(m).h == m.h,
        meta_step(m).cells.len() == m.cells.len(),
{
}

/// Gating: a sub-grid strictly less active than each of its (one or more)
/// neighbors is left unchanged by a step, and one strictly more active than
/// each of them steps exactly once.
pub proof fn lemma_gating(m: MetaView, i: int)
    requires
        0 <= i < m.cells.len(),
    ensures
        ({
            let nb = neighbors(m.cells, m.w as int, m.h as int, i);
            nb.len() > 0 && (forall|k: int| 0 <= k < nb.len() ==> m.cells[i].heat < (#[trigger] nb[k]).heat)
                ==> meta_step(m).cells[i] == m.cells[i]
        }),
        ({
            let nb = neighbors(m.cells, m.w as int, m.h as int, i);
            (forall|k: int| 0 <= k < nb.len() ==> (#[trigger] nb[k]).heat < m.cells[i].heat)
                ==> meta_step(m).cells[i] == life_step(m.cells[i])
        }),
{
    let nb = neighbors(m.cells, m.w as int, m.h as int, i);
    if nb.len() > 0 && (forall|k: int| 0 <= k < nb.len() ==> m.cells[i].heat < (#[trigger] nb[k]).heat) {
        assert(m.cells[i].heat < nb[0].heat);
        assert(!gated(m.cells[i], nb));
    }
}

} // verus!
