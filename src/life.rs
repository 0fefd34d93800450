//! Conway's game of life: a two-valued cell and the grid of such cells.

use vstd::prelude::*;

use crate::neighborhood::{lemma_index_in_grid, neighbors, step_cells};
use crate::{Automata, GridError, State};

verus! {

/// The value of a life cell.
#[derive(Clone, Copy, Debug, PartialEq, Eq, Structural)]
pub enum Etat {
    ON,
    OFF,
}

impl View for Etat {
    type V = Etat;

    open spec fn view(&self) -> Etat {
        *self
    }
}

/// How many of the cells are `ON`.
pub open spec fn count_on(s: Seq<Etat>) -> nat
    decreases s.len(),
{
    if s.len() == 0 {
        0
    } else {
        count_on(s.drop_last()) + if s.last() == Etat::ON {
            1nat
        } else {
            0nat
        }
    }
}

/// Conway's rule for a cell of value `v` with `n` neighbors `ON`.
pub open spec fn conway(v: Etat, n: nat) -> Etat {
    if n < 2 || n > 3 {
        Etat::OFF
    } else if n == 3 {
        Etat::ON
    } else {
        v
    }
}

impl Etat {
    /// The glyph that shows this value in a text dump.
    pub fn glyph(&self) -> (r: char)
        ensures
            r == (if *self == Etat::ON {
                'O'
            } else {
                '·'
            }),
    {
        match self {
            Etat::ON => 'O',
            Etat::OFF => '·',
        }
    }
}

impl Etat {
    /// The glyph of this value, as a one-character string.
    pub fn to_string(&self) -> (r: String)
        ensures
            r@ == seq![
                if *self == Etat::ON {
                    'O'
                } else {
                    '·'
                },
            ],
    {
        match self {
            Etat::ON => {
                proof {
                    reveal_strlit("O");
                }
                "O".to_owned()
            },
            Etat::OFF => {
                proof {
                    reveal_strlit("·");
                }
                "·".to_owned()
            },
        }
    }
}

impl Default for Etat {
    fn default() -> (r: Etat)
        ensures
            r == Etat::OFF,
    {
        Etat::OFF
    }
}

impl State for Etat {
    open spec fn inv(&self) -> bool {
        true
    }

    open spec fn next(v: Etat, neighbors: Seq<Etat>) -> Etat {
        conway(v, count_on(neighbors))
    }

    fn local_transition(&self, neighbors: &Vec<&Etat>) -> (r: Etat) {
        let ghost s = neighbors@.map_values(|c: &Etat| c@);
        let mut n: usize = 0;
        let mut k: usize = 0;
        while k < neighbors.len()
            invariant
                k <= neighbors@.len(),
                n <= k,
                s == neighbors@.map_values(|c: &Etat| c@),
                n == count_on(s.subrange(0, k as int)),
            decreases neighbors@.len() - k,
        {
            proof {
                assert(s.subrange(0, k + 1).drop_last() =~= s.subrange(0, k as int));
            }
            if *neighbors[k] == Etat::ON {
                n = n + 1;
            }
            k = k + 1;
        }
        proof {
            assert(s.subrange(0, k as int) =~= s);
        }
        if n < 2 || n > 3 {
            Etat::OFF
        } else if n == 3 {
            Etat::ON
        } else {
            *self
        }
    }
}

/// What a life grid is: its size, its cells in row-major order, and how many
/// cells changed in the step that made it.
pub struct LifeGrid {
    pub w: nat,
    pub h: nat,
    pub cells: Seq<Etat>,
    pub heat: nat,
}

impl LifeGrid {
    pub open spec fn wf(self) -> bool {
        self.cells.len() == self.w * self.h
    }
}

/// How many of the first `k` positions hold different values in `a` and `b`.
pub open spec fn count_diff(a: Seq<Etat>, b: Seq<Etat>, k: int) -> nat
    decreases k,
{
    if k <= 0 {
        0
    } else {
        count_diff(a, b, k - 1) + if a[k - 1] != b[k - 1] {
            1nat
        } else {
            0nat
        }
    }
}

/// Every cell after one step of Conway's rule, each from the previous grid.
pub open spec fn next_cells(cells: Seq<Etat>, w: nat, h: nat) -> Seq<Etat> {
    Seq::new(cells.len(), |i: int| Etat::next(cells[i], neighbors(cells, w as int, h as int, i)))
}

/// One step of a life grid: same size, every cell by Conway's rule, and the
/// heat counts the cells that changed.
pub open spec fn life_step(g: LifeGrid) -> LifeGrid {
    let c = next_cells(g.cells, g.w, g.h);
    LifeGrid { w: g.w, h: g.h, cells: c, heat: count_diff(g.cells, c, g.cells.len() as int) }
}

/// A grid of life cells, stored row-major (cell `(x, y)` at `x + y * w`).
#[derive(Clone, Debug)]
pub struct Toto {
    data: Vec<Etat>,
    w: usize,
    h: usize,
    heat: usize,
}

impl View for Toto {
    type V = LifeGrid;

    closed spec fn view(&self) -> LifeGrid {
        LifeGrid { w: self.w as nat, h: self.h as nat, cells: self.data@, heat: self.heat as nat }
    }
}

/// Whether a grid is at least as active as each of its neighbors; with no
/// neighbors at all it is.
pub open spec fn gated(v: LifeGrid, neighbors: Seq<LifeGrid>) -> bool {
    forall|k: int| 0 <= k < neighbors.len() ==> (#[trigger] neighbors[k]).heat <= v.heat
}

impl Toto {
    /// A `w` by `h` grid with every cell `OFF`.
    pub fn new(w: usize, h: usize) -> (r: Toto)
        requires
            w * h <= usize::MAX,
        ensures
            r@.wf(),
            r@ == (LifeGrid { w: w as nat, h: h as nat, cells: Seq::new((w * h) as nat, |i: int| Etat::OFF), heat: 0 }),
    {
        let n: usize = w * h;
        let mut data: Vec<Etat> = Vec::new();
        let mut i: usize = 0;
        while i < n
            invariant
                i <= n,
                data@ == Seq::new(i as nat, |k: int| Etat::OFF),
            decreases n - i,
        {
            data.push(Etat::OFF);
            i = i + 1;
            proof {
                assert(data@ =~= Seq::new(i as nat, |k: int| Etat::OFF));
            }
        }
        Toto { data, w, h, heat: 0 }
    }

    /// A `w` by `h` grid made of the given cells, row-major, with heat 0.
    pub fn from_cells(cells: Vec<Etat>, w: usize, h: usize) -> (r: Result<Toto, GridError>)
        ensures
            cells@.len() == w * h <==> r is Ok,
            cells@.len() != w * h ==> r == Err::<Toto, GridError>(GridError::SizeMismatch),
            r matches Ok(g) ==> g@ == (LifeGrid { w: w as nat, h: h as nat, cells: cells@, heat: 0 }) && g@.wf(),
    {
        if (h == 0 && cells.len() != 0) || (h != 0 && (cells.len() % h != 0 || cells.len() / h != w)) {
            proof {
                if h != 0 && cells@.len() == w * h {
                    assert((w * h) % (h as int) == 0 && (w * h) / (h as int) == w) by (nonlinear_arith)
                        requires h != 0;
                }
            }
            Err(GridError::SizeMismatch)
        } else {
            proof {
                if h != 0 {
                    let n = cells@.len() as int;
                    assert(n == (n / (h as int)) * h + n % (h as int)) by (nonlinear_arith)
                        requires h != 0;
                }
            }
            Ok(Toto { data: cells, w, h, heat: 0 })
        }
    }

    /// A `w` by `h` grid whose cell `i` is `OFF` where `coins[i]` is true and
    /// `ON` where it is false.
    pub fn from_coins(w: usize, h: usize, coins: &Vec<bool>) -> (r: Result<Toto, GridError>)
        ensures
            coins@.len() == w * h <==> r is Ok,
            coins@.len() != w * h ==> r == Err::<Toto, GridError>(GridError::SizeMismatch),
            r matches Ok(g) ==> g@.wf() && g@ == (LifeGrid {
                w: w as nat,
                h: h as nat,
                cells: coins@.map_values(|c: bool| if c { Etat::OFF } else { Etat::ON }),
                heat: 0,
            }),
    {
        let mut data: Vec<Etat> = Vec::new();
        let mut i: usize = 0;
        while i < coins.len()
            invariant
                i <= coins@.len(),
                data@ =~= coins@.subrange(0, i as int).map_values(|c: bool| if c { Etat::OFF } else { Etat::ON }),
            decreases coins@.len() - i,
        {
            data.push(if coins[i] { Etat::OFF } else { Etat::ON });
            i = i + 1;
        }
        proof {
            assert(coins@.subrange(0, i as int) =~= coins@);
        }
        Toto::from_cells(data, w, h)
    }

    /// A `w` by `h` grid whose cells are each `ON` or `OFF` at random.
    pub fn random(w: usize, h: usize) -> (r: Toto)
        requires
            w * h <= usize::MAX,
        ensures
            r@.wf(),
            r@.w == w,
            r@.h == h,
            r@.heat == 0,
    {
        let n: usize = w * h;
        let mut coins: Vec<bool> = Vec::new();
        let mut i: usize = 0;
        while i < n
            invariant
                i <= n,
                coins@.len() == i,
            decreases n - i,
        {
            coins.push(coin());
            i = i + 1;
        }
        match Toto::from_coins(w, h, &coins) {
            Ok(g) => g,
            Err(_) => Toto::new(w, h),
        }
    }

    pub fn width(&self) -> (r: usize)
        ensures
            r == self@.w,
    {
        self.w
    }

    pub fn height(&self) -> (r: usize)
        ensures
            r == self@.h,
    {
        self.h
    }

    /// How many cells changed in the step that made this grid.
    pub fn activity(&self) -> (r: usize)
        ensures
            r == self@.heat,
    {
        self.heat
    }

    /// The cells, row-major.
    pub fn cells(&self) -> (r: &Vec<Etat>)
        ensures
            r@ == self@.cells,
    {
        &self.data
    }

    /// The cell at column `x` and row `y`, if they lie in the grid.
    pub fn get(&self, x: usize, y: usize) -> (r: Option<Etat>)
        requires
            self@.wf(),
        ensures
            r == (if x < self@.w && y < self@.h {
                Some(self@.cells[x + y * self@.w])
            } else {
                None
            }),
    {
        // The length is a usize, which bounds w * h.
        let _len = self.data.len();
        if x < self.w && y < self.h {
            proof {
                lemma_index_in_grid(x as int, y as int, self.w as int, self.h as int);
            }
            Some(self.data[x + y * self.w])
        } else {
            None
        }
    }

    /// Switches on the cell at column `x` and row `y`; refuses a coordinate
    /// outside the grid and leaves the grid as it was.
    pub fn turn_on(&mut self, x: usize, y: usize) -> (r: Result<(), GridError>)
        requires
            old(self)@.wf(),
        ensures
            final(self)@.wf(),
            r is Ok <==> x < old(self)@.w && y < old(self)@.h,
            r is Err ==> r == Err::<(), GridError>(GridError::OutOfBounds) && final(self)@ == old(self)@,
            r is Ok ==> final(self)@ == (LifeGrid {
                cells: old(self)@.cells.update(x + y * old(self)@.w, Etat::ON),
                ..old(self)@
            }),
    {
        // The length is a usize, which bounds w * h.
        let _len = self.data.len();
        if x < self.w && y < self.h {
            proof {
                lemma_index_in_grid(x as int, y as int, self.w as int, self.h as int);
            }
            let i = x + y * self.w;
            self.data.set(i, Etat::ON);
            Ok(())
        } else {
            Err(GridError::OutOfBounds)
        }
    }

    /// A copy of this grid.
    pub fn snapshot(&self) -> (r: Toto)
        ensures
            r@ == self@,
    {
        let mut data: Vec<Etat> = Vec::new();
        let mut i: usize = 0;
        while i < self.data.len()
            invariant
                i <= self.data@.len(),
                data@ =~= self.data@.subrange(0, i as int),
            decreases self.data@.len() - i,
        {
            data.push(self.data[i]);
            i = i + 1;
        }
        proof {
            assert(self.data@.subrange(0, i as int) =~= self.data@);
        }
        Toto { data, w: self.w, h: self.h, heat: self.heat }
    }
}

/// Relies on rand::random: a fair coin, one draw per call.
#[verifier::external_body]
fn coin() -> (r: bool) {
    rand::random::<bool>()
}

impl Default for Toto {
    /// The empty grid, zero by zero.
    fn default() -> (r: Toto)
        ensures
            r@.wf(),
            r@ == (LifeGrid { w: 0, h: 0, cells: Seq::empty(), heat: 0 }),
    {
        let r = Toto::new(0, 0);
        proof {
            assert(r@.cells =~= Seq::<Etat>::empty());
        }
        r
    }
}

impl Automata for Toto {
    open spec fn inv(&self) -> bool {
        self@.wf()
    }

    open spec fn step(v: LifeGrid) -> LifeGrid {
        life_step(v)
    }

    fn global_transition(&self) -> (r: Toto) {
        let data = step_cells(&self.data, self.w, self.h);
        proof {
            assert(self.data@.map_values(|c: Etat| c@) =~= self.data@);
            assert(data@ =~= next_cells(self.data@, self.w as nat, self.h as nat));
        }
        let mut heat: usize = 0;
        let mut i: usize = 0;
        while i < data.len()
            invariant
                i <= data@.len(),
                data@.len() == self.data@.len(),
                heat <= i,
                heat == count_diff(self.data@, data@, i as int),
            decreases data@.len() - i,
        {
            if self.data[i] != data[i] {
                heat = heat + 1;
            }
            i = i + 1;
        }
        Toto { data, w: self.w, h: self.h, heat }
    }
}

impl State for Toto {
    open spec fn inv(&self) -> bool {
        self@.wf()
    }

    open spec fn next(v: LifeGrid, neighbors: Seq<LifeGrid>) -> LifeGrid {
        if gated(v, neighbors) {
            life_step(v)
        } else {
            v
        }
    }

    /// Steps this grid when its heat is at least that of every neighbor, and
    /// copies it unchanged otherwise.
    fn local_transition(&self, neighbors: &Vec<&Toto>) -> (r: Toto) {
        let ghost s = neighbors@.map_values(|c: &Toto| c@);
        let mut hottest = true;
        let mut k: usize = 0;
        while k < neighbors.len()
            invariant
                k <= neighbors@.len(),
                s == neighbors@.map_values(|c: &Toto| c@),
                hottest <==> forall|m: int| 0 <= m < k ==> (#[trigger] s[m]).heat <= self@.heat,
            decreases neighbors@.len() - k,
        {
            proof {
                assert(s[k as int] == neighbors@[k as int]@);
            }
            if neighbors[k].heat > self.heat {
                hottest = false;
            }
            k = k + 1;
        }
        if hottest {
            self.global_transition()
        } else {
            self.snapshot()
        }
    }
}

/// The number of differing positions is at most the number of positions, and
/// it is zero exactly when the sequences agree on all of them.
pub proof fn lemma_count_diff(a: Seq<Etat>, b: Seq<Etat>, k: int)
    requires
        0 <= k <= a.len(),
        k <= b.len(),
    ensures
        count_diff(a, b, k) <= k,
        count_diff(a, b, k) == 0 <==> forall|i: int| 0 <= i < k ==> a[i] == b[i],
    decreases k,
{
    if k > 0 {
        lemma_count_diff(a, b, k - 1);
    }
}

/// Determinism: one step of a life grid depends on the grid alone, so equal
/// grids step to equal grids.
pub proof fn lemma_step_deterministic(a: LifeGrid, b: LifeGrid)
    requires
        a == b,
    ensures
        life_step(a) == life_step(b),
{
}

/// A step keeps the width and the height, and a well-formed grid stays
/// well-formed.
pub proof fn lemma_step_keeps_size(g: LifeGrid)
    ensures
        life_step(g).w == g.w,
        life_step(g).h == g.h,
        g.wf() ==> life_step(g).wf(),
{
}

/// The activity after a step is at most the number of cells, and it is zero
/// exactly when the step left every cell as it was.
pub proof fn lemma_activity_bounds(g: LifeGrid)
    requires
        g.wf(),
    ensures
        life_step(g).heat <= g.w * g.h,
        life_step(g).heat == 0 <==> life_step(g).cells == g.cells,
{
    let c = next_cells(g.cells, g.w, g.h);
    lemma_count_diff(g.cells, c, g.cells.len() as int);
    if life_step(g).heat == 0 {
        assert(c =~= g.cells);
    }
}

/// A list of cells that are all `OFF` has none `ON`.
pub proof fn lemma_count_on_all_off(s: Seq<Etat>)
    requires
        forall|k: int| 0 <= k < s.len() ==> s[k] == Etat::OFF,
    ensures
        count_on(s) == 0,
    decreases s.len(),
{
    if s.len() > 0 {
        lemma_count_on_all_off(s.drop_last());
    }
}

/// Isolation: a cell whose neighbors are all `OFF` is `OFF` after a step,
/// whatever its value and however few neighbors it has.
pub proof fn lemma_isolated_cell_dies(v: Etat, neighbors: Seq<Etat>)
    requires
        forall|k: int| 0 <= k < neighbors.len() ==> neighbors[k] == Etat::OFF,
    ensures
        Etat::next(v, neighbors) == Etat::OFF,
{
    lemma_count_on_all_off(neighbors);
}

} // verus!
