//! Rectangular grids of cells, stored row by row in one buffer.

use vstd::prelude::*;
use vstd::arithmetic::div_mod::{lemma_fundamental_div_mod, lemma_fundamental_div_mod_converse};

verus! {

/// Whether `g`, read as a sequence of rows, is a rectangle: at least one
/// row, at least one column, and every row as long as the first.
pub open spec fn is_grid<T>(g: Seq<Seq<T>>) -> bool {
    &&& g.len() >= 1
    &&& g[0].len() >= 1
    &&& forall|y: int| 0 <= y < g.len() ==> #[trigger] g[y].len() == g[0].len()
}

/// Number of columns of a rectangle of rows.
pub open spec fn grid_width<T>(g: Seq<Seq<T>>) -> nat {
    g[0].len()
}

/// Number of rows of a rectangle of rows.
pub open spec fn grid_height<T>(g: Seq<Seq<T>>) -> nat {
    g.len()
}

/// The rows that a row-major buffer of `width` columns and `height` rows holds.
pub open spec fn rows_of<T>(cells: Seq<T>, width: nat, height: nat) -> Seq<Seq<T>> {
    Seq::new(height, |y: int| Seq::new(width, |x: int| cells[y * width + x]))
}

/// The cells of a rectangle of rows, read row by row.
pub open spec fn cells_of<T>(g: Seq<Seq<T>>) -> Seq<T> {
    Seq::new(
        grid_width(g) * grid_height(g),
        |i: int| g[i / grid_width(g) as int][i % grid_width(g) as int],
    )
}

/// The cell `(x, y)` of a `width` by `height` grid has a place in the buffer.
pub proof fn lemma_cell_index(width: int, height: int, x: int, y: int)
    by (nonlinear_arith)
    requires
        0 <= x < width,
        0 <= y < height,
    ensures
        0 <= y * width + x < width * height,
{
}

/// Two cells with the same place in the buffer are the same cell.
pub proof fn lemma_cell_index_unique(width: int, x1: int, y1: int, x2: int, y2: int)
    by (nonlinear_arith)
    requires
        0 <= x1 < width,
        0 <= x2 < width,
        y1 * width + x1 == y2 * width + x2,
    ensures
        x1 == x2,
        y1 == y2,
{
}

/// Cutting a buffer of `width * height` cells into rows gives a rectangle of
/// those dimensions, and reading that rectangle row by row gives the buffer
/// back.
pub proof fn lemma_cells_of_rows<T>(cells: Seq<T>, width: nat, height: nat)
    requires
        width >= 1,
        height >= 1,
        cells.len() == width * height,
    ensures
        is_grid(rows_of(cells, width, height)),
        grid_width(rows_of(cells, width, height)) == width,
        grid_height(rows_of(cells, width, height)) == height,
        cells_of(rows_of(cells, width, height)) == cells,
{
    let g = rows_of(cells, width, height);
    let w = width as int;
    let h = height as int;
    assert forall|i: int| 0 <= i < w * h implies cells[i] == #[trigger] cells_of(g)[i] by {
        lemma_fundamental_div_mod(i, w);
        assert(0 <= i / w < h) by (nonlinear_arith)
            requires
                0 <= i < w * h,
                w > 0,
        ;
        assert(w * (i / w) == (i / w) * w) by (nonlinear_arith);
    }
    assert(cells_of(g) =~= cells);
}

/// Reading a rectangle row by row and cutting the cells into rows of the
/// same width gives the rectangle back.
pub proof fn lemma_rows_of_cells<T>(g: Seq<Seq<T>>)
    requires
        is_grid(g),
    ensures
        cells_of(g).len() == grid_width(g) * grid_height(g),
        rows_of(cells_of(g), grid_width(g), grid_height(g)) == g,
{
    let w = grid_width(g) as int;
    let h = grid_height(g) as int;
    let back = rows_of(cells_of(g), grid_width(g), grid_height(g));
    assert forall|y: int| 0 <= y < h implies #[trigger] back[y] =~= g[y] by {
        assert forall|x: int| 0 <= x < w implies #[trigger] back[y][x] == g[y][x] by {
            lemma_cell_index(w, h, x, y);
            lemma_fundamental_div_mod_converse(y * w + x, w, y, x);
        }
    }
    assert(back =~= g);
}

/// A `width` by `height` rectangle of cells. The view is the sequence of its
/// rows, top to bottom, each row a sequence of cells, left to right.
#[derive(Debug, PartialEq, Eq)]
pub struct Grid<T> {
    width: usize,
    height: usize,
    cells: Vec<T>,
}

impl<T> View for Grid<T> {
    type V = Seq<Seq<T>>;

    closed spec fn view(&self) -> Seq<Seq<T>> {
        rows_of(self.cells@, self.width as nat, self.height as nat)
    }
}

impl<T: Copy> Clone for Grid<T> {
    /// A grid with the same cells.
    fn clone(&self) -> (copy: Self)
        ensures
            copy@ == self@,
    {
        proof {
            use_type_invariant(self);
        }
        let count = self.cells.len();
        let mut cells: Vec<T> = Vec::with_capacity(count);
        let mut i: usize = 0;
        while i < count
            invariant
                i <= count,
                count == self.cells@.len(),
                cells@ == self.cells@.take(i as int),
            decreases count - i,
        {
            cells.push(self.cells[i]);
            i += 1;
            assert(cells@ =~= self.cells@.take(i as int));
        }
        assert(cells@ =~= self.cells@);
        Grid { width: self.width, height: self.height, cells }
    }
}

impl<T> Grid<T> {
    #[verifier::type_invariant]
    spec fn well_formed(&self) -> bool {
        &&& self.width >= 1
        &&& self.height >= 1
        &&& self.cells.len() == self.width * self.height
    }

    /// Builds a grid from a row-major buffer. The buffer is taken if and only if
    /// both dimensions are positive and it holds exactly `width * height` cells.
    pub fn from_cells(width: usize, height: usize, cells: Vec<T>) -> (grid: Option<Self>)
        ensures
            grid.is_some() <==> width >= 1 && height >= 1 && cells@.len() == width * height,
            grid matches Some(g) ==> {
                &&& g@ == rows_of(cells@, width as nat, height as nat)
                &&& is_grid(g@)
                &&& grid_width(g@) == width
                &&& grid_height(g@) == height
            },
    {
        if width == 0 || height == 0 {
            return None;
        }
        let len = cells.len();
        match width.checked_mul(height) {
            Some(count) => {
                if len == count {
                    Some(Grid { width, height, cells })
                } else {
                    None
                }
            },
            None => None,
        }
    }

    /// A grid with `value` in every cell. There is such a grid if and only if
    /// both dimensions are positive and the number of cells fits the machine.
    pub fn filled(width: usize, height: usize, value: T) -> (grid: Option<Self>) where T: Copy
        ensures
            grid.is_some() <==> width >= 1 && height >= 1 && width * height <= usize::MAX,
            grid matches Some(g) ==> {
                &&& is_grid(g@)
                &&& grid_width(g@) == width
                &&& grid_height(g@) == height
                &&& forall|x: int, y: int|
                    0 <= x < width && 0 <= y < height ==> #[trigger] g@[y][x] == value
            },
    {
        if width == 0 || height == 0 {
            return None;
        }
        let count = match width.checked_mul(height) {
            Some(count) => count,
            None => {
                return None;
            },
        };
        let mut cells: Vec<T> = Vec::with_capacity(count);
        let mut i: usize = 0;
        while i < count
            invariant
                i <= count,
                cells@.len() == i,
                forall|j: int| 0 <= j < i ==> cells@[j] == value,
            decreases count - i,
        {
            cells.push(value);
            i += 1;
        }
        let grid = Grid { width, height, cells };
        proof {
            assert forall|x: int, y: int|
                0 <= x < width && 0 <= y < height implies #[trigger] grid@[y][x] == value by {
                lemma_cell_index(width as int, height as int, x, y);
            }
        }
        Some(grid)
    }

    /// Number of columns.
    pub fn width(&self) -> (w: usize)
        ensures
            w == grid_width(self@),
            is_grid(self@),
            grid_width(self@) * grid_height(self@) <= usize::MAX,
    {
        proof {
            use_type_invariant(self);
        }
        self.width
    }

    /// Number of rows.
    pub fn height(&self) -> (h: usize)
        ensures
            h == grid_height(self@),
            is_grid(self@),
            grid_width(self@) * grid_height(self@) <= usize::MAX,
    {
        proof {
            use_type_invariant(self);
        }
        self.height
    }

    /// The cells, read row by row.
    pub fn cells(&self) -> (cells: &Vec<T>)
        ensures
            cells@ == cells_of(self@),
            is_grid(self@),
    {
        proof {
            use_type_invariant(self);
            lemma_cells_of_rows(self.cells@, self.width as nat, self.height as nat);
        }
        &self.cells
    }

    /// Number of cells.
    pub fn cell_count(&self) -> (count: usize)
        ensures
            count == grid_width(self@) * grid_height(self@),
            is_grid(self@),
    {
        proof {
            use_type_invariant(self);
        }
        self.cells.len()
    }

    /// The cell in column `x` of row `y`.
    pub fn get(&self, x: usize, y: usize) -> (cell: &T)
        requires
            x < grid_width(self@),
            y < grid_height(self@),
        ensures
            *cell == self@[y as int][x as int],
    {
        proof {
            use_type_invariant(self);
            lemma_cell_index(self.width as int, self.height as int, x as int, y as int);
        }
        &self.cells[y * self.width + x]
    }

    /// Replaces the cell in column `x` of row `y` and leaves every other cell as it was.
    pub fn set(&mut self, x: usize, y: usize, value: T)
        requires
            x < grid_width(old(self)@),
            y < grid_height(old(self)@),
        ensures
            final(self)@ == old(self)@.update(
                y as int,
                old(self)@[y as int].update(x as int, value),
            ),
            is_grid(final(self)@),
    {
        proof {
            use_type_invariant(&*self);
            lemma_cell_index(self.width as int, self.height as int, x as int, y as int);
        }
        let i = y * self.width + x;
        self.cells[i] = value;
        proof {
            let w = self.width as int;
            let h = self.height as int;
            let row = old(self)@[y as int].update(x as int, value);
            let goal = old(self)@.update(y as int, row);
            assert forall|j: int| 0 <= j < h implies #[trigger] self@[j] =~= goal[j] by {
                assert forall|i: int| 0 <= i < w implies #[trigger] self@[j][i] == goal[j][i] by {
                    lemma_cell_index(w, h, i, j);
                    if j * w + i == y * w + x {
                        lemma_cell_index_unique(w, i, j, x as int, y as int);
                    }
                    assert(self@[j][i] == self.cells@[j * w + i]);
                    assert(old(self)@[j][i] == old(self).cells@[j * w + i]);
                }
            }
            assert(self@ =~= goal);
        }
    }
}

} // verus!
