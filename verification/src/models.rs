//! The grid of cells: storage, bounds-checked access, heat diffusion and
//! growth classification.

use vstd::prelude::*;

verus! {

use vstd::math::abs;

/// Heat weight of a neighbor at offset `(di, dj)`, selected by Manhattan
/// distance: 5 at the cell itself, 3 for an orthogonal neighbor, 1 for a
/// diagonal neighbor, 0 at any greater distance.
pub open spec fn weight(di: int, dj: int) -> nat {
    let m = abs(di) + abs(dj);
    if m == 0 {
        H0 as nat
    } else if m == 1 {
        H1 as nat
    } else if m == 2 {
        H2 as nat
    } else {
        0
    }
}

/// Heat below this is too cold for fruiting.
pub const MIN_HEAT: u32 = 3;
/// Heat above this is too hot for fruiting.
pub const MAX_HEAT: u32 = 6;
/// Heat at or above this overheats the cell.
pub const OVERHEAT: u32 = 8;

/// Heat weight of a cell's own radiators (Manhattan distance 0).
pub const H0: u32 = 5;
/// Heat weight of an orthogonal neighbor's radiators (Manhattan distance 1).
pub const H1: u32 = 3;
/// Heat weight of a diagonal neighbor's radiators (Manhattan distance 2).
pub const H2: u32 = 1;

/// One addressable grid unit: a fixed capacity and a mutable radiator count.
#[derive(Clone, Copy, Debug, PartialEq, Eq, Structural)]
pub struct Cell {
    pub capacity: u32,
    pub radiators: u32,
}

impl Cell {
    /// The cell after a simple toggle: radiators flip to 0 when they were 1,
    /// and to 1 otherwise; capacity is untouched.
    pub open spec fn flipped(self) -> Cell {
        Cell { radiators: if self.radiators == 1 { 0 } else { 1 }, ..self }
    }
}

impl Default for Cell {
    /// A fresh cell: capacity 5, no radiators active.
    fn default() -> (c: Cell)
        ensures
            c == (Cell { capacity: 5, radiators: 0 }),
    {
        Cell { capacity: 5, radiators: 0 }
    }
}

/// Classification of a cell's heat into one of four bands.
#[derive(Clone, Copy, Debug, PartialEq, Eq, Structural)]
pub enum GrowthStatus {
    TooCold,
    Fruiting(u32),
    TooHot,
    Overheated,
}

/// The growth band of a cell with the given heat and capacity: too cold
/// below `MIN_HEAT`, fruiting (carrying the capacity) up to and including
/// `MAX_HEAT`, too hot below `OVERHEAT`, and overheated from there on.
pub open spec fn status_of(heat: nat, capacity: u32) -> GrowthStatus {
    if heat < MIN_HEAT as nat {
        GrowthStatus::TooCold
    } else if heat <= MAX_HEAT as nat {
        GrowthStatus::Fruiting(capacity)
    } else if heat < OVERHEAT as nat {
        GrowthStatus::TooHot
    } else {
        GrowthStatus::Overheated
    }
}

/// The mathematical model of a [`Grid`]: its bounds and the row-major
/// sequence of its cells.
#[verifier::ext_equal]
pub struct GridView {
    pub width: int,
    pub height: int,
    pub cells: Seq<Cell>,
}

impl GridView {
    /// Both bounds are non-negative i32 values and the cell sequence holds
    /// exactly one cell per coordinate of the rectangle.
    pub open spec fn wf(self) -> bool {
        &&& 0 <= self.width <= i32::MAX
        &&& 0 <= self.height <= i32::MAX
        &&& self.width * self.height <= i32::MAX
        &&& self.cells.len() == self.width * self.height
    }

    /// Whether `(i, j)` addresses a cell of the rectangle.
    pub open spec fn in_bounds(self, i: int, j: int) -> bool {
        0 <= i < self.height && 0 <= j < self.width
    }

    /// Row-major position of coordinate `(i, j)` in the cell sequence.
    pub open spec fn index_of(self, i: int, j: int) -> int {
        i * self.width + j
    }

    /// The cell addressed by `(i, j)`.
    pub open spec fn cell_at(self, i: int, j: int) -> Cell
        recommends
            self.in_bounds(i, j),
    {
        self.cells[self.index_of(i, j)]
    }

    /// The grid with the cell at `(i, j)` replaced by `c`; bounds unchanged.
    pub open spec fn with_cell(self, i: int, j: int, c: Cell) -> GridView {
        GridView { cells: self.cells.update(self.index_of(i, j), c), ..self }
    }

    /// Heat contributed to the cell at `(i, j)` by the `d`-th entry of its
    /// 3x3 neighborhood, enumerated row-major for `d` in `0..9`: the
    /// neighbor's radiator count times its weight, or 0 when the neighbor
    /// lies outside the rectangle.
    pub open spec fn neighbor_heat(self, i: int, j: int, d: int) -> nat {
        let ii = i - 1 + d / 3;
        let jj = j - 1 + d % 3;
        if self.in_bounds(ii, jj) {
            (self.cell_at(ii, jj).radiators as nat) * weight(ii - i, jj - j)
        } else {
            0
        }
    }

    /// Sum of the first `n` neighborhood contributions to the cell at
    /// `(i, j)`.
    pub open spec fn heat_prefix(self, i: int, j: int, n: int) -> nat
        decreases n,
    {
        if n <= 0 {
            0
        } else {
            self.heat_prefix(i, j, n - 1) + self.neighbor_heat(i, j, n - 1)
        }
    }

    /// The heat of the cell at `(i, j)`: the weighted sum of the radiator
    /// counts over its whole 3x3 neighborhood.
    pub open spec fn heat_at(self, i: int, j: int) -> nat {
        self.heat_prefix(i, j, 9)
    }

    /// The growth band of the cell at `(i, j)`, classified from its heat and
    /// its own capacity.
    pub open spec fn status_at(self, i: int, j: int) -> GrowthStatus
        recommends
            self.in_bounds(i, j),
    {
        status_of(self.heat_at(i, j), self.cell_at(i, j).capacity)
    }

    /// Capacity the `k`-th cell yields toward the total growth: its capacity
    /// when it is fruiting, nothing otherwise.
    pub open spec fn yield_at(self, k: int) -> nat {
        match status_of(self.heat_at(k / self.width, k % self.width), self.cells[k].capacity) {
            GrowthStatus::Fruiting(c) => c as nat,
            _ => 0,
        }
    }

    /// Sum of the yields of the first `n` cells.
    pub open spec fn growth_prefix(self, n: int) -> nat
        decreases n,
    {
        if n <= 0 {
            0
        } else {
            self.growth_prefix(n - 1) + self.yield_at(n - 1)
        }
    }

    /// The total growth of the grid: the sum of `capacity` over exactly the
    /// cells whose status is fruiting.
    pub open spec fn total_growth(self) -> nat {
        self.growth_prefix(self.cells.len() as int)
    }

    /// Sum of the radiator counts of the first `n` cells.
    pub open spec fn radiator_prefix(self, n: int) -> nat
        decreases n,
    {
        if n <= 0 {
            0
        } else {
            self.radiator_prefix(n - 1) + self.cells[n - 1].radiators as nat
        }
    }

    /// The number of radiator units active across the whole grid.
    pub open spec fn active_radiators(self) -> nat {
        self.radiator_prefix(self.cells.len() as int)
    }

    /// Every cell paired with its coordinate, in row-major order.
    pub open spec fn entries(self) -> Seq<((i32, i32), Cell)> {
        Seq::new(
            self.cells.len(),
            |k: int| (((k / self.width) as i32, (k % self.width) as i32), self.cells[k]),
        )
    }

    /// The grid after a simple toggle at `(i, j)`: the addressed cell is
    /// flipped, every other cell is untouched, and an out-of-range coordinate
    /// changes nothing.
    pub open spec fn toggled(self, i: int, j: int) -> GridView {
        if self.in_bounds(i, j) {
            self.with_cell(i, j, self.cell_at(i, j).flipped())
        } else {
            self
        }
    }
}

/// A fixed-size rectangular collection of cells, addressed by zero-based
/// `(row, col)` coordinates in row-major order.
pub struct Grid {
    width: i32,
    height: i32,
    elements: Vec<Cell>,
}

impl View for Grid {
    type V = GridView;

    closed spec fn view(&self) -> GridView {
        GridView {
            width: self.width as int,
            height: self.height as int,
            cells: self.elements@,
        }
    }
}

impl Grid {
    /// A `width x height` grid with every cell default
    /// (capacity 5, no radiators).
    pub fn new(width: i32, height: i32) -> (g: Grid)
        requires
            0 <= width,
            0 <= height,
            width * height <= i32::MAX,
        ensures
            g@.wf(),
            g@.width == width,
            g@.height == height,
            forall|k: int|
                0 <= k < g@.cells.len() ==> g@.cells[k] == (Cell { capacity: 5, radiators: 0 }),
    {
        let n: usize = (width as usize) * (height as usize);
        let mut elements: Vec<Cell> = Vec::new();
        let mut k: usize = 0;
        while k < n
            invariant
                k <= n,
                n == width * height,
                elements@.len() == k,
                forall|m: int|
                    0 <= m < k ==> elements@[m] == (Cell { capacity: 5, radiators: 0 }),
            decreases n - k,
        {
            elements.push(Cell::default());
            k += 1;
        }
        Grid { width, height, elements }
    }

    /// The fixed bounds, as `(width, height)`.
    pub fn dimensions(&self) -> (d: (i32, i32))
        ensures
            d.0 == self@.width,
            d.1 == self@.height,
    {
        (self.width, self.height)
    }

    /// Every cell of the grid paired with its `(row, col)` coordinate, in
    /// row-major order: one entry per coordinate of the rectangle.
    pub fn iter(&self) -> (r: Vec<((i32, i32), Cell)>)
        requires
            self@.wf(),
        ensures
            r@ == self@.entries(),
    {
        let n: usize = self.elements.len();
        let mut r: Vec<((i32, i32), Cell)> = Vec::new();
        let mut k: usize = 0;
        while k < n
            invariant
                k <= n,
                n == self@.cells.len(),
                self@.wf(),
                r@.len() == k,
                forall|m: int| 0 <= m < k ==> r@[m] == self@.entries()[m],
            decreases n - k,
        {
            proof {
                assert(self@.width > 0) by (nonlinear_arith)
                    requires
                        0 <= self@.width,
                        0 <= self@.height,
                        self@.cells.len() == self@.width * self@.height,
                        self@.cells.len() > k >= 0,
                ;
                vstd::arithmetic::div_mod::lemma_multiply_divide_lt(
                    k as int,
                    self@.width,
                    self@.height,
                );
                vstd::arithmetic::div_mod::lemma_mod_bound(k as int, self@.width);
                vstd::arithmetic::div_mod::lemma_div_pos_is_pos(k as int, self@.width);
            }
            let w: usize = self.width as usize;
            let i: usize = k / w;
            let j: usize = k % w;
            r.push(((i as i32, j as i32), self.elements[k]));
            k += 1;
        }
        proof {
            assert(r@ =~= self@.entries());
        }
        r
    }

    /// The cell at `(row, col)`, or absent if the coordinate lies outside the
    /// rectangle. Both axes are checked, so a row at or past the height is
    /// absent just like a negative one.
    pub fn get(&self, idx: &(i32, i32)) -> (r: Option<&Cell>)
        requires
            self@.wf(),
        ensures
            r is Some <==> self@.in_bounds(idx.0 as int, idx.1 as int),
            r is Some ==> *r.unwrap() == self@.cell_at(idx.0 as int, idx.1 as int),
    {
        let i: i32 = idx.0;
        let j: i32 = idx.1;
        if i < 0 || j < 0 || j >= self.width || i >= self.height {
            None
        } else {
            proof {
                lemma_index_in_range(self@, i as int, j as int);
            }
            let k: usize = (i as usize) * (self.width as usize) + (j as usize);
            Some(&self.elements[k])
        }
    }

    /// Mutable access to the cell at `(row, col)`, or absent if the
    /// coordinate lies outside the rectangle: the same bounds contract as
    /// [`Grid::get`].
    pub fn get_mut(&mut self, idx: &(i32, i32)) -> (r: Option<&mut Cell>)
        requires
            old(self)@.wf(),
        ensures
            r is Some <==> old(self)@.in_bounds(idx.0 as int, idx.1 as int),
            !old(self)@.in_bounds(idx.0 as int, idx.1 as int) ==> *final(self) == *old(self),
            old(self)@.in_bounds(idx.0 as int, idx.1 as int) ==> {
                &&& *r.unwrap() == old(self)@.cell_at(idx.0 as int, idx.1 as int)
                &&& final(self)@ == old(self)@.with_cell(
                    idx.0 as int,
                    idx.1 as int,
                    *final(r.unwrap()),
                )
            },
            final(self)@.wf(),
            final(self)@.width == old(self)@.width,
            final(self)@.height == old(self)@.height,
    {
        let i: i32 = idx.0;
        let j: i32 = idx.1;
        if i < 0 || j < 0 || j >= self.width || i >= self.height {
            None
        } else {
            proof {
                lemma_index_in_range(self@, i as int, j as int);
            }
            let k: usize = (i as usize) * (self.width as usize) + (j as usize);
            Some(&mut self.elements[k])
        }
    }

    /// The heat of the cell at `idx`: each cell of the 3x3 neighborhood
    /// centered there contributes its radiator count times the weight of its
    /// Manhattan distance; neighbors outside the rectangle contribute
    /// nothing. The coordinate itself need not be in range: out-of-range
    /// coordinates still collect the contributions of their in-range
    /// neighbors.
    pub fn get_heat(&self, idx: &(i32, i32)) -> (h: u32)
        requires
            self@.wf(),
            i32::MIN < idx.0 < i32::MAX,
            i32::MIN < idx.1 < i32::MAX,
            self@.heat_at(idx.0 as int, idx.1 as int) <= u32::MAX,
        ensures
            h == self@.heat_at(idx.0 as int, idx.1 as int),
    {
        let i: i32 = idx.0;
        let j: i32 = idx.1;
        let mut heat: u32 = 0;
        let mut d: usize = 0;
        while d < 9
            invariant
                d <= 9,
                self@.wf(),
                i == idx.0,
                j == idx.1,
                i32::MIN < i < i32::MAX,
                i32::MIN < j < i32::MAX,
                self@.heat_at(i as int, j as int) <= u32::MAX,
                heat == self@.heat_prefix(i as int, j as int, d as int),
            decreases 9 - d,
        {
            proof {
                lemma_heat_prefix_mono(self@, i as int, j as int, d as int + 1, 9);
            }
            let ii: i32 = i - 1 + (d / 3) as i32;
            let jj: i32 = j - 1 + (d % 3) as i32;
            match self.get(&(ii, jj)) {
                None => {}
                Some(cell) => {
                    let adi: i32 = if ii >= i {
                        ii - i
                    } else {
                        i - ii
                    };
                    let adj: i32 = if jj >= j {
                        jj - j
                    } else {
                        j - jj
                    };
                    let w: u32 = match adi + adj {
                        0 => H0,
                        1 => H1,
                        2 => H2,
                        _ => 0,
                    };
                    assert(self@.neighbor_heat(i as int, j as int, d as int) == (cell.radiators as nat)
                        * (w as nat));
                    heat = heat + cell.radiators * w;
                }
            }
            d += 1;
        }
        heat
    }

    /// The growth band of the cell at `idx`, or absent if the coordinate
    /// lies outside the rectangle: its heat classified against the three
    /// fixed thresholds, a fruiting cell carrying its own capacity.
    pub fn get_status(&self, idx: &(i32, i32)) -> (r: Option<GrowthStatus>)
        requires
            self@.wf(),
            self@.in_bounds(idx.0 as int, idx.1 as int) ==> self@.heat_at(
                idx.0 as int,
                idx.1 as int,
            ) <= u32::MAX,
        ensures
            r is Some <==> self@.in_bounds(idx.0 as int, idx.1 as int),
            r is Some ==> r.unwrap() == self@.status_at(idx.0 as int, idx.1 as int),
    {
        match self.get(idx) {
            None => None,
            Some(cell) => {
                let capacity: u32 = cell.capacity;
                let heat: u32 = self.get_heat(idx);
                if heat < MIN_HEAT {
                    Some(GrowthStatus::TooCold)
                } else if heat <= MAX_HEAT {
                    Some(GrowthStatus::Fruiting(capacity))
                } else if heat < OVERHEAT {
                    Some(GrowthStatus::TooHot)
                } else {
                    Some(GrowthStatus::Overheated)
                }
            }
        }
    }

    /// The total growth of the grid: the sum of `capacity` over exactly the
    /// cells currently fruiting; every other cell yields nothing.
    pub fn total_growth(&self) -> (t: u32)
        requires
            self@.wf(),
            forall|i: int, j: int|
                self@.in_bounds(i, j) ==> #[trigger] self@.heat_at(i, j) <= u32::MAX,
            self@.total_growth() <= u32::MAX,
        ensures
            t == self@.total_growth(),
    {
        let n: usize = self.elements.len();
        let mut t: u32 = 0;
        let mut k: usize = 0;
        while k < n
            invariant
                k <= n,
                n == self@.cells.len(),
                self@.wf(),
                forall|i: int, j: int|
                    self@.in_bounds(i, j) ==> #[trigger] self@.heat_at(i, j) <= u32::MAX,
                self@.total_growth() <= u32::MAX,
                t == self@.growth_prefix(k as int),
            decreases n - k,
        {
            proof {
                lemma_growth_prefix_mono(self@, k as int + 1, n as int);
                assert(self@.width > 0) by (nonlinear_arith)
                    requires
                        0 <= self@.width,
                        0 <= self@.height,
                        self@.cells.len() == self@.width * self@.height,
                        self@.cells.len() > k >= 0,
                ;
                vstd::arithmetic::div_mod::lemma_multiply_divide_lt(
                    k as int,
                    self@.width,
                    self@.height,
                );
                vstd::arithmetic::div_mod::lemma_mod_bound(k as int, self@.width);
                vstd::arithmetic::div_mod::lemma_fundamental_div_mod(k as int, self@.width);
                vstd::arithmetic::div_mod::lemma_div_pos_is_pos(k as int, self@.width);
            }
            let w: usize = self.width as usize;
            let i: usize = k / w;
            let j: usize = k % w;
            proof {
                assert(i as int == k as int / self@.width);
                assert(j as int == k as int % self@.width);
                assert(self@.in_bounds(i as int, j as int));
                assert(self@.index_of(i as int, j as int) == k as int);
                assert(self@.cell_at(i as int, j as int) == self@.cells[k as int]);
                assert(self@.growth_prefix(k as int + 1) == self@.growth_prefix(k as int)
                    + self@.yield_at(k as int));
            }
            match self.get_status(&(i as i32, j as i32)) {
                Some(GrowthStatus::Fruiting(c)) => {
                    proof {
                        assert(self@.yield_at(k as int) == c as nat);
                    }
                    t = t + c;
                }
                _ => {
                    proof {
                        assert(self@.yield_at(k as int) == 0);
                    }
                }
            }
            k += 1;
        }
        t
    }

    /// The simple toggle: flip the radiators of the cell at `idx` between 0
    /// and 1; a no-op on an out-of-range coordinate.
    pub fn toggle(&mut self, idx: &(i32, i32))
        requires
            old(self)@.wf(),
        ensures
            final(self)@ == old(self)@.toggled(idx.0 as int, idx.1 as int),
            final(self)@.wf(),
    {
        match self.get_mut(idx) {
            None => {}
            Some(cell) => {
                if cell.radiators == 1 {
                    cell.radiators = 0;
                } else {
                    cell.radiators = 1;
                }
            }
        }
    }
}

/// Law: the simple toggle is an involution. Toggling the same coordinate
/// twice returns the grid to its original value, provided the addressed cell
/// held a binary radiator count (0 or 1) to begin with.
pub proof fn lemma_toggle_involution(g: GridView, i: int, j: int)
    requires
        g.wf(),
        g.in_bounds(i, j) ==> g.cell_at(i, j).radiators <= 1,
    ensures
        g.toggled(i, j).toggled(i, j) == g,
{
    if g.in_bounds(i, j) {
        lemma_index_in_range(g, i, j);
        let k = g.index_of(i, j);
        let once = g.toggled(i, j);
        assert(once.cell_at(i, j) == g.cell_at(i, j).flipped());
        assert(once.cell_at(i, j).flipped() == g.cell_at(i, j));
        assert(once.toggled(i, j).cells =~= g.cells);
        assert(once.toggled(i, j) =~= g);
    }
}

/// Law: the row-major enumeration of a grid has exactly `width * height`
/// entries, no two entries share a coordinate, and every in-range coordinate
/// appears, paired with the cell it addresses.
pub proof fn lemma_entries_cover(g: GridView)
    requires
        g.wf(),
    ensures
        g.entries().len() == g.width * g.height,
        forall|k1: int, k2: int|
            0 <= k1 < g.entries().len() && 0 <= k2 < g.entries().len() && k1 != k2 ==> (
            #[trigger] g.entries()[k1]).0 != (#[trigger] g.entries()[k2]).0,
        forall|i: int, j: int|
            #[trigger] g.in_bounds(i, j) ==> 0 <= g.index_of(i, j) < g.entries().len()
                && g.entries()[g.index_of(i, j)] == (((i as i32, j as i32), g.cell_at(i, j))),
{
    if g.entries().len() > 0 {
        assert(g.width > 0 && g.height > 0) by (nonlinear_arith)
            requires
                0 <= g.width,
                0 <= g.height,
                g.cells.len() == g.width * g.height,
                g.cells.len() > 0,
        ;
        assert forall|k1: int, k2: int|
            0 <= k1 < g.entries().len() && 0 <= k2 < g.entries().len() && k1 != k2 implies (
        #[trigger] g.entries()[k1]).0 != (#[trigger] g.entries()[k2]).0 by {
            vstd::arithmetic::div_mod::lemma_multiply_divide_lt(k1, g.width, g.height);
            vstd::arithmetic::div_mod::lemma_multiply_divide_lt(k2, g.width, g.height);
            vstd::arithmetic::div_mod::lemma_mod_bound(k1, g.width);
            vstd::arithmetic::div_mod::lemma_mod_bound(k2, g.width);
            vstd::arithmetic::div_mod::lemma_div_pos_is_pos(k1, g.width);
            vstd::arithmetic::div_mod::lemma_div_pos_is_pos(k2, g.width);
            vstd::arithmetic::div_mod::lemma_fundamental_div_mod(k1, g.width);
            vstd::arithmetic::div_mod::lemma_fundamental_div_mod(k2, g.width);
        }
    }
    assert forall|i: int, j: int| #[trigger] g.in_bounds(i, j) implies 0 <= g.index_of(i, j)
        < g.entries().len() && g.entries()[g.index_of(i, j)] == (((i as i32, j as i32), g.cell_at(
        i,
        j,
    ))) by {
        lemma_index_in_range(g, i, j);
        let k = g.index_of(i, j);
        assert(k == i * g.width + j);
        assert(g.width * i == i * g.width) by (nonlinear_arith);
        vstd::arithmetic::div_mod::lemma_fundamental_div_mod_converse(k, g.width, i, j);
    }
}

/// Replacing one cell shifts the radiator sum by exactly the difference at
/// that cell: counted while the prefix covers it, untouched otherwise.
pub proof fn lemma_radiator_prefix_update(g: GridView, i: int, j: int, c: Cell, n: int)
    requires
        g.wf(),
        g.in_bounds(i, j),
        0 <= n <= g.cells.len(),
    ensures
        g.index_of(i, j) < n ==> g.with_cell(i, j, c).radiator_prefix(n) + g.cell_at(
            i,
            j,
        ).radiators == g.radiator_prefix(n) + c.radiators,
        g.index_of(i, j) >= n ==> g.with_cell(i, j, c).radiator_prefix(n) == g.radiator_prefix(n),
    decreases n,
{
    lemma_index_in_range(g, i, j);
    if n > 0 {
        lemma_radiator_prefix_update(g, i, j, c, n - 1);
    }
}

/// A grid whose cells all hold no radiators has none active.
pub proof fn lemma_radiator_prefix_zero(g: GridView, n: int)
    requires
        0 <= n <= g.cells.len(),
        forall|m: int| 0 <= m < g.cells.len() ==> (#[trigger] g.cells[m]).radiators == 0,
    ensures
        g.radiator_prefix(n) == 0,
    decreases n,
{
    if n > 0 {
        lemma_radiator_prefix_zero(g, n - 1);
    }
}

/// With every radiator count binary, no neighbor contributes more than the
/// largest weight, so a heat sum over `n` neighbors stays at or below `5 * n`.
pub proof fn lemma_heat_prefix_bounded(g: GridView, i: int, j: int, n: int)
    requires
        g.wf(),
        0 <= n,
        forall|m: int| 0 <= m < g.cells.len() ==> (#[trigger] g.cells[m]).radiators <= 1,
    ensures
        g.heat_prefix(i, j, n) <= 5 * n,
    decreases n,
{
    if n > 0 {
        lemma_heat_prefix_bounded(g, i, j, n - 1);
        let d = n - 1;
        let ii = i - 1 + d / 3;
        let jj = j - 1 + d % 3;
        if g.in_bounds(ii, jj) {
            lemma_index_in_range(g, ii, jj);
            let r = g.cell_at(ii, jj).radiators;
            assert((r as nat) * weight(ii - i, jj - j) <= 5) by (nonlinear_arith)
                requires
                    0 <= r <= 1,
                    weight(ii - i, jj - j) <= 5,
            ;
        }
    }
}

/// The running growth sum only grows as more cells are added.
proof fn lemma_growth_prefix_mono(g: GridView, m: int, n: int)
    requires
        0 <= m <= n,
    ensures
        g.growth_prefix(m) <= g.growth_prefix(n),
    decreases n,
{
    if m < n {
        lemma_growth_prefix_mono(g, m, n - 1);
    }
}

/// The neighborhood heat sum only grows as more contributions are added.
proof fn lemma_heat_prefix_mono(g: GridView, i: int, j: int, m: int, n: int)
    requires
        0 <= m <= n,
    ensures
        g.heat_prefix(i, j, m) <= g.heat_prefix(i, j, n),
    decreases n,
{
    if m < n {
        lemma_heat_prefix_mono(g, i, j, m, n - 1);
    }
}

/// An in-bounds coordinate's row-major index lies inside the cell sequence.
pub proof fn lemma_index_in_range(g: GridView, i: int, j: int)
    requires
        g.wf(),
        g.in_bounds(i, j),
    ensures
        0 <= g.index_of(i, j) < g.cells.len(),
{
    assert(i * g.width + j < g.height * g.width) by (nonlinear_arith)
        requires
            0 <= i < g.height,
            0 <= j < g.width,
    ;
    assert(0 <= i * g.width) by (nonlinear_arith)
        requires
            0 <= i,
            0 <= g.width,
    ;
    assert(g.height * g.width == g.width * g.height) by (nonlinear_arith);
}

} // verus!
