//! Grids of escape times: one cell per pixel, row by row.
//!
//! The rows of a grid do not depend on one another. [`evaluate_row`]
//! computes one of them, [`EscapeGrid::from_rows`] puts rows together, and
//! [`evaluate`] does both for a whole grid; whoever computes the rows, and
//! in whatever order, the grid is the same.

use crate::kernel::{escape, escape_time, lemma_escape_time_holds};
use crate::viewport::{point_at, Region, Viewport};
use vstd::prelude::*;

verus! {

/// The escape time that belongs in cell `(x, y)`.
pub open spec fn cell_spec(
    region: Region,
    budget: usize,
    width: nat,
    height: nat,
    x: nat,
    y: nat,
) -> usize {
    escape_time(point_at(region, x, y, width, height), budget as nat) as usize
}

/// The cells that belong in row `y`, from left to right.
pub open spec fn row_spec(
    region: Region,
    budget: usize,
    width: nat,
    height: nat,
    y: nat,
) -> Seq<usize> {
    Seq::new(width, |x: int| cell_spec(region, budget, width, height, x as nat, y))
}

/// The rows that belong in the grid, row 0 at the `y_min` edge.
pub open spec fn grid_spec(
    region: Region,
    budget: usize,
    width: nat,
    height: nat,
) -> Seq<Seq<usize>> {
    Seq::new(height, |y: int| row_spec(region, budget, width, height, y as nat))
}

/// Whether `rows` are `height` rows of `width` cells each, none above
/// `budget`.
pub open spec fn shaped(rows: Seq<Seq<usize>>, width: nat, height: nat, budget: usize) -> bool {
    &&& rows.len() == height
    &&& forall|y: int| 0 <= y < height ==> (#[trigger] rows[y]).len() == width
    &&& forall|y: int, x: int|
        0 <= y < height && 0 <= x < width ==> #[trigger] rows[y][x] <= budget
}

/// The rows that a vector of rows holds.
pub open spec fn rows_of(rows: Seq<Vec<usize>>) -> Seq<Seq<usize>> {
    Seq::new(rows.len(), |y: int| rows[y]@)
}

/// The place of cell `(x, y)` in row-major order.
pub open spec fn flat_index(x: int, y: int, width: int) -> int {
    y * width + x
}

/// Cells in row-major order: each place belongs to one cell, and the places
/// of a row lie before those of the next.
pub proof fn lemma_flat_index(x: int, y: int, width: int, height: int)
    by (nonlinear_arith)
    requires
        0 <= x < width,
        0 <= y < height,
    ensures
        y * width <= flat_index(x, y, width) < (y + 1) * width,
        (y + 1) * width <= height * width,
        height * width == width * height,
        flat_index(x, y, width) / width == y,
        flat_index(x, y, width) % width == x,
{
}

/// The rows that belong in a grid are `height` rows of `width` cells, none
/// above the budget.
pub proof fn lemma_grid_spec_shaped(region: Region, budget: usize, width: nat, height: nat)
    ensures
        shaped(grid_spec(region, budget, width, height), width, height, budget),
{
    let rows = grid_spec(region, budget, width, height);
    assert forall|y: int, x: int| 0 <= y < height && 0 <= x < width implies #[trigger] rows[y][x]
        <= budget by {
        lemma_escape_time_holds(point_at(region, x as nat, y as nat, width, height), budget as nat);
    }
}

/// The grid does not depend on how the work is shared out: rows computed
/// one by one, in whatever order and by however many workers, are the rows
/// of the whole grid.
pub proof fn lemma_rows_assemble(
    region: Region,
    budget: usize,
    width: nat,
    height: nat,
    rows: Seq<Seq<usize>>,
)
    requires
        rows.len() == height,
        forall|y: int|
            0 <= y < height ==> #[trigger] rows[y] == row_spec(
                region,
                budget,
                width,
                height,
                y as nat,
            ),
    ensures
        rows == grid_spec(region, budget, width, height),
        shaped(rows, width, height, budget),
{
    assert(rows =~= grid_spec(region, budget, width, height));
    lemma_grid_spec_shaped(region, budget, width, height);
}

/// Two evaluations of the same viewport under the same budget and
/// dimensions yield the same grid.
pub proof fn lemma_evaluation_repeats(
    region: Region,
    budget: usize,
    width: nat,
    height: nat,
    first: EscapeGrid,
    second: EscapeGrid,
)
    requires
        first@ == grid_spec(region, budget, width, height),
        second@ == grid_spec(region, budget, width, height),
    ensures
        first@ == second@,
{
}

/// A grid of escape times, `height` rows of `width` cells, each cell at
/// most `budget`.
///
/// The view of a grid is the sequence of its rows.
#[derive(Debug, PartialEq, Eq)]
pub struct EscapeGrid {
    width: usize,
    height: usize,
    budget: usize,
    cells: Vec<usize>,
}

impl View for EscapeGrid {
    type V = Seq<Seq<usize>>;

    closed spec fn view(&self) -> Seq<Seq<usize>> {
        Seq::new(
            self.height as nat,
            |y: int|
                Seq::new(
                    self.width as nat,
                    |x: int| self.cells@[flat_index(x, y, self.width as int)],
                ),
        )
    }
}

/// The cells of row `y` of a `width` by `height` grid: cell `x` holds the
/// escape time, under `budget`, of the point that pixel `(x, y)` stands
/// for.
pub fn evaluate_row(
    viewport: &Viewport,
    budget: usize,
    width: usize,
    height: usize,
    y: usize,
) -> (row: Vec<usize>)
    requires
        y < height,
    ensures
        row@ == row_spec(viewport@, budget, width as nat, height as nat, y as nat),
        row@.len() == width,
        forall|x: int| 0 <= x < width ==> #[trigger] row@[x] <= budget,
{
    let mut row: Vec<usize> = Vec::with_capacity(width);
    let mut x: usize = 0;
    while x < width
        invariant
            x <= width,
            y < height,
            row@.len() == x,
            forall|k: int|
                0 <= k < x ==> #[trigger] row@[k] == cell_spec(
                    viewport@,
                    budget,
                    width as nat,
                    height as nat,
                    k as nat,
                    y as nat,
                ),
            forall|k: int| 0 <= k < x ==> #[trigger] row@[k] <= budget,
        decreases width - x,
    {
        let c = viewport.map(x, y, width, height);
        let t = escape(c, budget);
        row.push(t);
        x = x + 1;
    }
    assert(row@ =~= row_spec(viewport@, budget, width as nat, height as nat, y as nat));
    row
}

/// The grid of the escape times of all pixels: cell `(x, y)` holds the
/// escape time, under `budget`, of the point that the pixel stands for.
pub fn evaluate(viewport: &Viewport, budget: usize, width: usize, height: usize) -> (g: EscapeGrid)
    ensures
        g@ == grid_spec(viewport@, budget, width as nat, height as nat),
        shaped(g@, width as nat, height as nat, budget),
        g.spec_width() == width,
        g.spec_height() == height,
        g.spec_budget() == budget,
{
    let mut rows: Vec<Vec<usize>> = Vec::with_capacity(height);
    let mut y: usize = 0;
    while y < height
        invariant
            y <= height,
            rows@.len() == y,
            forall|k: int|
                0 <= k < y ==> (#[trigger] rows@[k])@ == row_spec(
                    viewport@,
                    budget,
                    width as nat,
                    height as nat,
                    k as nat,
                ),
        decreases height - y,
    {
        let row = evaluate_row(viewport, budget, width, height, y);
        rows.push(row);
        y = y + 1;
    }
    proof {
        lemma_rows_assemble(
            viewport@,
            budget,
            width as nat,
            height as nat,
            rows_of(rows@),
        );
    }
    assemble(&rows, width, budget)
}

/// Whether no cell of `row` is above `budget`.
fn within_budget(row: &Vec<usize>, budget: usize) -> (b: bool)
    ensures
        b <==> forall|x: int| 0 <= x < row@.len() ==> row@[x] <= budget,
{
    let mut x: usize = 0;
    while x < row.len()
        invariant
            x <= row@.len(),
            forall|k: int| 0 <= k < x ==> row@[k] <= budget,
        decreases row@.len() - x,
    {
        if row[x] > budget {
            return false;
        }
        x = x + 1;
    }
    true
}

/// Whether `rows` are rows of `width` cells each, none above `budget`.
fn check_rows(rows: &Vec<Vec<usize>>, width: usize, budget: usize) -> (b: bool)
    ensures
        b == shaped(rows_of(rows@), width as nat, rows@.len(), budget),
{
    let ghost want = rows_of(rows@);
    let mut y: usize = 0;
    while y < rows.len()
        invariant
            y <= rows@.len(),
            want == rows_of(rows@),
            forall|k: int| 0 <= k < y ==> (#[trigger] want[k]).len() == width,
            forall|k: int, x: int| 0 <= k < y && 0 <= x < width ==> #[trigger] want[k][x] <= budget,
        decreases rows@.len() - y,
    {
        let row = &rows[y];
        assert(row@ == want[y as int]);
        if row.len() != width {
            return false;
        }
        if !within_budget(row, budget) {
            proof {
                let x = choose|x: int| 0 <= x < row@.len() && row@[x] > budget;
                assert(want[y as int][x] > budget);
            }
            return false;
        }
        y = y + 1;
    }
    true
}

/// Appends the cells of `row` to `cells`.
fn push_row(cells: &mut Vec<usize>, row: &Vec<usize>)
    ensures
        final(cells)@ == old(cells)@ + row@,
{
    let mut x: usize = 0;
    while x < row.len()
        invariant
            x <= row@.len(),
            cells@ == old(cells)@ + row@.take(x as int),
        decreases row@.len() - x,
    {
        cells.push(row[x]);
        assert(row@.take(x + 1) == row@.take(x as int).push(row@[x as int]));
        x = x + 1;
    }
    assert(row@.take(x as int) == row@);
}

/// The grid that holds the given rows.
fn assemble(rows: &Vec<Vec<usize>>, width: usize, budget: usize) -> (g: EscapeGrid)
    requires
        shaped(rows_of(rows@), width as nat, rows@.len(), budget),
    ensures
        g@ == rows_of(rows@),
        g.spec_width() == width,
        g.spec_height() == rows@.len(),
        g.spec_budget() == budget,
{
    let height = rows.len();
    let ghost want = rows_of(rows@);
    let mut cells: Vec<usize> = Vec::new();
    let mut y: usize = 0;
    while y < height
        invariant
            y <= height,
            height == rows@.len(),
            want == rows_of(rows@),
            shaped(want, width as nat, height as nat, budget),
            cells@.len() == y * width,
            forall|yy: int, xx: int|
                0 <= yy < y && 0 <= xx < width ==> cells@[#[trigger] flat_index(
                    xx,
                    yy,
                    width as int,
                )] == want[yy][xx],
        decreases height - y,
    {
        let row = &rows[y];
        assert(row@ == want[y as int]);
        let ghost before = cells@;
        push_row(&mut cells, row);
        proof {
            assert((y + 1) * width == y * width + width) by (nonlinear_arith);
            assert forall|yy: int, xx: int| 0 <= yy < y + 1 && 0 <= xx < width implies cells@[#[trigger] flat_index(
                xx,
                yy,
                width as int,
            )] == want[yy][xx] by {
                lemma_flat_index(xx, yy, width as int, y + 1);
                let k = flat_index(xx, yy, width as int);
                if yy < y {
                    lemma_flat_index(xx, yy, width as int, y as int);
                    assert(cells@[k] == before[k]);
                } else {
                    assert(k == before.len() + xx);
                    assert(cells@[k] == row@[xx]);
                }
            }
        }
        y = y + 1;
    }
    proof {
        assert(height * width == width * height) by (nonlinear_arith);
        assert forall|k: int| 0 <= k < cells@.len() implies #[trigger] cells@[k] <= budget by {
            let w = width as int;
            assert(w > 0 && 0 <= k / w < height && k / w * w + k % w == k && 0 <= k % w < w)
                by (nonlinear_arith)
                requires
                    0 <= k < height * w,
                    0 <= w,
            ;
            assert(k == flat_index(k % w, k / w, w));
            assert(cells@[k] == want[k / w][k % w]);
        }
    }
    let g = EscapeGrid { width, height, budget, cells };
    proof {
        assert forall|yy: int| 0 <= yy < height implies (#[trigger] g@[yy]) =~= want[yy] by {
            assert forall|xx: int| 0 <= xx < width implies g@[yy][xx] == want[yy][xx] by {
                lemma_flat_index(xx, yy, width as int, height as int);
                assert(g@[yy][xx] == g.cells@[flat_index(xx, yy, width as int)]);
            }
        }
        assert(g@ =~= want);
    }
    g
}

impl EscapeGrid {
    #[verifier::type_invariant]
    spec fn well_formed(self) -> bool {
        &&& self.cells@.len() == self.width * self.height
        &&& forall|k: int| 0 <= k < self.cells@.len() ==> #[trigger] self.cells@[k] <= self.budget
    }

    /// The number of cells in a row.
    pub closed spec fn spec_width(&self) -> nat {
        self.width as nat
    }

    /// The number of rows.
    pub closed spec fn spec_height(&self) -> nat {
        self.height as nat
    }

    /// The budget that the cells were computed under.
    pub closed spec fn spec_budget(&self) -> usize {
        self.budget
    }

    /// A well-formed grid has the shape that its dimensions give.
    proof fn lemma_shaped(self)
        requires
            self.well_formed(),
        ensures
            shaped(self@, self.spec_width(), self.spec_height(), self.spec_budget()),
    {
        assert forall|y: int, x: int|
            0 <= y < self.height && 0 <= x < self.width implies #[trigger] self@[y][x]
            <= self.budget by {
            lemma_flat_index(x, y, self.width as int, self.height as int);
        }
    }

    /// The grid made of the given rows, or `None` unless every row holds
    /// `width` cells and no cell is above `budget`.
    pub fn from_rows(rows: &Vec<Vec<usize>>, width: usize, budget: usize) -> (r: Option<EscapeGrid>)
        ensures
            r is Some <==> shaped(rows_of(rows@), width as nat, rows@.len(), budget),
            r matches Some(g) ==> {
                &&& g@ == rows_of(rows@)
                &&& g.spec_width() == width
                &&& g.spec_height() == rows@.len()
                &&& g.spec_budget() == budget
            },
    {
        if check_rows(rows, width, budget) {
            Some(assemble(rows, width, budget))
        } else {
            None
        }
    }

    /// The number of cells in a row.
    pub fn width(&self) -> (w: usize)
        ensures
            w == self.spec_width(),
            shaped(self@, self.spec_width(), self.spec_height(), self.spec_budget()),
    {
        proof {
            use_type_invariant(self);
            self.lemma_shaped();
        }
        self.width
    }

    /// The number of rows.
    pub fn height(&self) -> (h: usize)
        ensures
            h == self.spec_height(),
            shaped(self@, self.spec_width(), self.spec_height(), self.spec_budget()),
    {
        proof {
            use_type_invariant(self);
            self.lemma_shaped();
        }
        self.height
    }

    /// The budget that the cells were computed under.
    pub fn budget(&self) -> (b: usize)
        ensures
            b == self.spec_budget(),
            shaped(self@, self.spec_width(), self.spec_height(), self.spec_budget()),
    {
        proof {
            use_type_invariant(self);
            self.lemma_shaped();
        }
        self.budget
    }

    /// The escape time in cell `(x, y)`.
    pub fn get(&self, x: usize, y: usize) -> (t: usize)
        requires
            x < self.spec_width(),
            y < self.spec_height(),
        ensures
            t == self@[y as int][x as int],
            t <= self.spec_budget(),
    {
        proof {
            use_type_invariant(self);
            lemma_flat_index(x as int, y as int, self.width as int, self.height as int);
            assert(self.cells.len() == self.cells@.len());
        }
        self.cells[y * self.width + x]
    }

    /// A copy of row `y`.
    pub fn row(&self, y: usize) -> (row: Vec<usize>)
        requires
            y < self.spec_height(),
        ensures
            row@ == self@[y as int],
            row@.len() == self.spec_width(),
    {
        let mut row: Vec<usize> = Vec::with_capacity(self.width);
        let mut x: usize = 0;
        while x < self.width
            invariant
                x <= self.width,
                y < self.height,
                row@.len() == x,
                forall|k: int| 0 <= k < x ==> #[trigger] row@[k] == self@[y as int][k],
            decreases self.width - x,
        {
            row.push(self.get(x, y));
            x = x + 1;
        }
        assert(row@ =~= self@[y as int]);
        row
    }

    /// All cells in row-major order: cell `(x, y)` stands at place
    /// `y * width + x`.
    pub fn cells(&self) -> (cells: &Vec<usize>)
        ensures
            cells@.len() == self.spec_width() * self.spec_height(),
            forall|y: int, x: int|
                0 <= y < self.spec_height() && 0 <= x < self.spec_width() ==> cells@[flat_index(
                    x,
                    y,
                    self.spec_width() as int,
                )] == #[trigger] self@[y][x],
    {
        proof {
            use_type_invariant(self);
        }
        &self.cells
    }

    /// The cell `(x, y)` that stands at place `i` in row-major order.
    pub fn position(&self, i: usize) -> (p: (usize, usize))
        requires
            i < self.spec_width() * self.spec_height(),
        ensures
            p.0 < self.spec_width(),
            p.1 < self.spec_height(),
            flat_index(p.0 as int, p.1 as int, self.spec_width() as int) == i,
    {
        proof {
            use_type_invariant(self);
            let w = self.width as int;
            let h = self.height as int;
            let k = i as int;
            assert(w > 0 && 0 <= k / w < h && k / w * w + k % w == k && 0 <= k % w < w && k / w * w
                <= k) by (nonlinear_arith)
                requires
                    0 <= k < w * h,
                    0 <= w,
                    0 <= h,
            ;
        }
        let y: usize = i / self.width;
        let x: usize = i - y * self.width;
        (x, y)
    }
}

} // verus!
