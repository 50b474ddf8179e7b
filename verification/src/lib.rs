//! A verified grid heat/growth model: a rectangular grid of cells, each with
//! a toggleable radiator that diffuses heat to its 3x3 neighborhood, and a
//! derived growth classification per cell.
//!
//! [`models`] holds the grid itself; this root holds the application model
//! around it: the grid plus a shared pool that caps how many radiators may be
//! active at once, driven by [`update`] commands.

pub mod models;

use vstd::prelude::*;

use crate::models::{Cell, GrowthStatus, Grid, GridView};

verus! {

/// The shared budget of radiator units a model starts with.
pub const POOL_SIZE: u32 = 5;

/// The events that modify the model: a click on the cell at `(row, col)`.
#[derive(Clone, Copy)]
pub enum Msg {
    Increment(i32, i32),
}

/// The application state: a grid of cells and the shared pool of radiator
/// units not currently active in any cell.
pub struct Model {
    counters: Grid,
    radiators_available: u32,
}

/// The mathematical model of a [`Model`]: the grid's view and the pool.
#[verifier::ext_equal]
pub struct ModelView {
    pub grid: GridView,
    pub radiators_available: int,
}

impl ModelView {
    /// The grid is well formed, every radiator count is binary, and the
    /// active radiators together with the pool hold exactly the initial
    /// budget.
    pub open spec fn wf(self) -> bool {
        &&& self.grid.wf()
        &&& forall|k: int|
            0 <= k < self.grid.cells.len() ==> (#[trigger] self.grid.cells[k]).radiators <= 1
        &&& 0 <= self.radiators_available
        &&& self.grid.active_radiators() + self.radiators_available == POOL_SIZE as int
    }

    /// The model after the budgeted toggle at `(i, j)`. An out-of-range
    /// coordinate changes nothing. An active radiator is switched off and its
    /// unit returned to the pool; an inactive one is switched on if a unit is
    /// available, consuming it; with the pool empty nothing changes.
    pub open spec fn updated(self, i: int, j: int) -> ModelView {
        if !self.grid.in_bounds(i, j) {
            self
        } else {
            let c = self.grid.cell_at(i, j);
            if c.radiators == 1 {
                ModelView {
                    grid: self.grid.with_cell(i, j, Cell { radiators: 0, ..c }),
                    radiators_available: self.radiators_available + 1,
                }
            } else if self.radiators_available > 0 {
                ModelView {
                    grid: self.grid.with_cell(i, j, Cell { radiators: 1, ..c }),
                    radiators_available: self.radiators_available - 1,
                }
            } else {
                self
            }
        }
    }
}

impl View for Model {
    type V = ModelView;

    closed spec fn view(&self) -> ModelView {
        ModelView {
            grid: self.counters@,
            radiators_available: self.radiators_available as int,
        }
    }
}

impl Model {
    /// A `width x height` model with every cell default and the full pool
    /// available.
    pub fn new(width: i32, height: i32) -> (m: Model)
        requires
            0 <= width,
            0 <= height,
            width * height <= i32::MAX,
        ensures
            m@.wf(),
            m@.grid.width == width,
            m@.grid.height == height,
            m@.radiators_available == POOL_SIZE as int,
            forall|k: int|
                0 <= k < m@.grid.cells.len() ==> m@.grid.cells[k] == (Cell {
                    capacity: 5,
                    radiators: 0,
                }),
    {
        let counters = Grid::new(width, height);
        proof {
            models::lemma_radiator_prefix_zero(counters@, counters@.cells.len() as int);
        }
        Model { counters, radiators_available: POOL_SIZE }
    }

    /// A randomized model: width and height drawn independently and uniformly
    /// from `[4, 10)`, every cell default, the full pool available. The
    /// caller injects the generator, so a fixed seed reproduces the model.
    pub fn random(rng: &mut rand::rngs::StdRng) -> (m: Model)
        ensures
            m@.wf(),
            4 <= m@.grid.width < 10,
            4 <= m@.grid.height < 10,
            m@.radiators_available == POOL_SIZE as int,
            forall|k: int|
                0 <= k < m@.grid.cells.len() ==> m@.grid.cells[k] == (Cell {
                    capacity: 5,
                    radiators: 0,
                }),
    {
        let width = gen_range_i32(rng, 4, 10);
        let height = gen_range_i32(rng, 4, 10);
        proof {
            assert(width * height <= i32::MAX) by (nonlinear_arith)
                requires
                    4 <= width < 10,
                    4 <= height < 10,
            ;
        }
        Model::new(width, height)
    }

    /// Read access to the grid.
    pub fn grid(&self) -> (g: &Grid)
        ensures
            g@ == self@.grid,
    {
        &self.counters
    }

    /// How many radiator units the pool still holds.
    pub fn radiators_available(&self) -> (n: u32)
        ensures
            n as int == self@.radiators_available,
    {
        self.radiators_available
    }

    /// The growth band of the cell at `idx`, or absent if the coordinate lies
    /// outside the grid. A well-formed model keeps every radiator count
    /// binary, so the heat of any cell is small and the classification never
    /// overflows.
    pub fn get_status(&self, idx: &(i32, i32)) -> (r: Option<GrowthStatus>)
        requires
            self@.wf(),
        ensures
            r is Some <==> self@.grid.in_bounds(idx.0 as int, idx.1 as int),
            r is Some ==> r.unwrap() == self@.grid.status_at(idx.0 as int, idx.1 as int),
    {
        proof {
            models::lemma_heat_prefix_bounded(self@.grid, idx.0 as int, idx.1 as int, 9);
        }
        self.counters.get_status(idx)
    }
}

/// Apply one command to the model: the budgeted toggle of the addressed
/// cell, exactly as [`ModelView::updated`] describes it.
pub fn update(msg: Msg, model: &mut Model)
    requires
        old(model)@.wf(),
    ensures
        final(model)@ == (match msg {
            Msg::Increment(a, b) => old(model)@.updated(a as int, b as int),
        }),
        final(model)@.wf(),
{
    let ghost pre = model@;
    match msg {
        Msg::Increment(a, b) => {
            proof {
                lemma_update_preserves_budget(pre, a as int, b as int);
            }
            match model.counters.get_mut(&(a, b)) {
                None => {}
                Some(cell) => {
                    if cell.radiators == 1 {
                        cell.radiators = 0;
                        model.radiators_available += 1;
                    } else if model.radiators_available > 0 {
                        cell.radiators = 1;
                        model.radiators_available -= 1;
                    }
                }
            }
            proof {
                let gi = a as int;
                let gj = b as int;
                if pre.grid.in_bounds(gi, gj) {
                    models::lemma_index_in_range(pre.grid, gi, gj);
                    let c = pre.grid.cell_at(gi, gj);
                    if c.radiators != 1 && pre.radiators_available == 0 {
                        assert(pre.grid.with_cell(gi, gj, c).cells =~= pre.grid.cells);
                        assert(pre.grid.with_cell(gi, gj, c) =~= pre.grid);
                    }
                }
                assert(model@ =~= pre.updated(gi, gj));
            }
        }
    }
}

/// Law: the budgeted toggle preserves the radiator budget. From a well-formed
/// model, one command leaves a well-formed model, and in every well-formed
/// model the active radiators plus the available pool equal the initial pool
/// size; so the sum is invariant across any sequence of commands.
pub proof fn lemma_update_preserves_budget(m: ModelView, i: int, j: int)
    requires
        m.wf(),
    ensures
        m.updated(i, j).wf(),
        m.updated(i, j).grid.active_radiators() + m.updated(i, j).radiators_available
            == POOL_SIZE as int,
{
    if m.grid.in_bounds(i, j) {
        models::lemma_index_in_range(m.grid, i, j);
        let c = m.grid.cell_at(i, j);
        let n = m.grid.cells.len() as int;
        if c.radiators == 1 {
            models::lemma_radiator_prefix_update(m.grid, i, j, Cell { radiators: 0, ..c }, n);
        } else if m.radiators_available > 0 {
            models::lemma_radiator_prefix_update(m.grid, i, j, Cell { radiators: 1, ..c }, n);
        }
    }
}

/// Declares `rand::rngs::StdRng`, the injected random source, as an opaque
/// outside type so that it can cross the library's signatures.
#[verifier::external_type_specification]
#[verifier::external_body]
pub struct ExStdRng(rand::rngs::StdRng);

/// Relies on `rand::Rng::gen_range`: the result is uniform in
/// `[low, high)`; it panics when `low >= high`, so that case is excluded.
#[verifier::external_body]
fn gen_range_i32(rng: &mut rand::rngs::StdRng, low: i32, high: i32) -> (r: i32)
    requires
        low < high,
    ensures
        low <= r < high,
{
    rand::Rng::gen_range(rng, low, high)
}

} // verus!
