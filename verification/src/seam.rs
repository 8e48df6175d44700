//! Cheapest connected top-to-bottom paths through an energy map.

use vstd::prelude::*;
use crate::energy::EnergyMap;
use crate::grid::{grid_height, grid_width, is_grid, Grid};

verus! {

/// For every cell, the smallest total energy of a connected path that starts
/// in the top row and ends in that cell.
pub type CostTable = Grid<u128>;

/// Whether `seam` names one column of a `width` by `height` grid for every row.
pub open spec fn seam_fits(seam: Seq<int>, width: nat, height: nat) -> bool {
    &&& seam.len() == height
    &&& forall|y: int| 0 <= y < height ==> 0 <= #[trigger] seam[y] < width
}

/// Whether `seam` is a connected path from the top row to the bottom row of
/// a `width` by `height` grid: one column per row, and the columns of
/// neighbouring rows differ by at most one.
pub open spec fn is_seam(seam: Seq<int>, width: nat, height: nat) -> bool {
    &&& seam_fits(seam, width, height)
    &&& forall|y: int|
        #![trigger seam[y]]
        0 <= y < height - 1 ==> seam[y] - 1 <= seam[y + 1] <= seam[y] + 1
}

/// Sum of the energies that `seam` crosses in the rows above row `rows`.
pub open spec fn seam_energy_above(e: Seq<Seq<u64>>, seam: Seq<int>, rows: int) -> int
    decreases rows,
{
    if rows <= 0 {
        0
    } else {
        seam_energy_above(e, seam, rows - 1) + e[rows - 1][seam[rows - 1]]
    }
}

/// Total energy of the cells that `seam` crosses.
pub open spec fn seam_energy(e: Seq<Seq<u64>>, seam: Seq<int>) -> int {
    seam_energy_above(e, seam, grid_height(e) as int)
}

/// The smallest of the costs in the row above from which a path may step
/// down into column `x`: straight above, and one column to either side where
/// that column exists.
pub open spec fn cheapest_above(above: Seq<int>, x: int) -> int {
    let left = if x > 0 {
        above[x - 1]
    } else {
        above[x]
    };
    let right = if x + 1 < above.len() {
        above[x + 1]
    } else {
        above[x]
    };
    vstd::math::min(above[x], vstd::math::min(left, right))
}

/// The column in the row above from which the cheapest path steps down into
/// column `x`. Among equally cheap columns the one straight above is taken
/// first, then the one to the left, then the one to the right.
pub open spec fn step_up(above: Seq<int>, x: int) -> int {
    let best = if x > 0 && above[x - 1] < above[x] {
        x - 1
    } else {
        x
    };
    if x + 1 < above.len() && above[x + 1] < above[best] {
        x + 1
    } else {
        best
    }
}

/// Row `y` of the cost table of `e`: the energy of each cell plus the
/// cheapest cost from which the row above can reach it.
pub open spec fn cost_row(e: Seq<Seq<u64>>, y: int) -> Seq<int>
    decreases y,
{
    if y <= 0 {
        Seq::new(grid_width(e), |x: int| e[0][x] as int)
    } else {
        let above = cost_row(e, y - 1);
        Seq::new(grid_width(e), |x: int| e[y][x] + cheapest_above(above, x))
    }
}

/// Whether `i` is the first position at which `s` is smallest: nothing in
/// `s` is smaller than what stands at `i`, and everything before `i` is
/// larger.
pub open spec fn is_first_min(s: Seq<int>, i: int) -> bool {
    &&& 0 <= i < s.len()
    &&& forall|j: int| 0 <= j < s.len() ==> s[i] <= #[trigger] s[j]
    &&& forall|j: int| 0 <= j < i ==> s[i] < #[trigger] s[j]
}

/// The first position at which `s` is smallest, found by going through `s`
/// from left to right and moving on only to a strictly smaller value.
pub open spec fn first_min_index(s: Seq<int>) -> int
    decreases s.len(),
{
    if s.len() <= 1 {
        0
    } else {
        let i = first_min_index(s.drop_last());
        if s.last() < s[i] {
            s.len() - 1
        } else {
            i
        }
    }
}

/// The column in which the chosen seam crosses row `y`: in the bottom row
/// the first cheapest cell of the cost table, and in every other row the
/// column from which the seam steps down into the row below.
pub open spec fn seam_column(e: Seq<Seq<u64>>, y: int) -> int
    decreases grid_height(e) - y,
{
    if y >= grid_height(e) - 1 {
        first_min_index(cost_row(e, grid_height(e) - 1))
    } else {
        step_up(cost_row(e, y), seam_column(e, y + 1))
    }
}

/// The seam that is removed from a picture with energy map `e`.
pub open spec fn seam_of(e: Seq<Seq<u64>>) -> Seq<int> {
    Seq::new(grid_height(e), |y: int| seam_column(e, y))
}

/// The columns of a seam that is held as machine integers.
pub open spec fn columns(seam: Seq<usize>) -> Seq<int> {
    seam.map_values(|x: usize| x as int)
}

/// `first_min_index` is the first position at which `s` is smallest, and
/// no other position is.
pub proof fn lemma_first_min_index(s: Seq<int>)
    requires
        s.len() >= 1,
    ensures
        is_first_min(s, first_min_index(s)),
        forall|i: int| is_first_min(s, i) ==> i == first_min_index(s),
    decreases s.len(),
{
    if s.len() > 1 {
        let t = s.drop_last();
        lemma_first_min_index(t);
        let i = first_min_index(t);
        assert forall|j: int| 0 <= j < s.len() implies s[first_min_index(s)] <= #[trigger] s[j] by {
            if j < t.len() {
                assert(t[j] == s[j]);
            }
        }
        assert forall|j: int| 0 <= j < first_min_index(s) implies s[first_min_index(s)]
            < #[trigger] s[j] by {
            assert(t[j] == s[j]);
        }
    }
}

/// The column that `step_up` picks is next to `x`, inside the row, and holds
/// the cheapest cost that `x` can be reached from.
pub proof fn lemma_step_up(above: Seq<int>, x: int)
    requires
        0 <= x < above.len(),
    ensures
        0 <= step_up(above, x) < above.len(),
        x - 1 <= step_up(above, x) <= x + 1,
        above[step_up(above, x)] == cheapest_above(above, x),
{
}

/// Every row of the cost table is as wide as the energy map, and the cost of
/// a cell in row `y` lies between zero and `y + 1` times the largest energy.
pub proof fn lemma_cost_row_bounds(e: Seq<Seq<u64>>, y: int)
    requires
        is_grid(e),
        0 <= y < grid_height(e),
    ensures
        cost_row(e, y).len() == grid_width(e),
        forall|x: int|
            0 <= x < grid_width(e) ==> 0 <= #[trigger] cost_row(e, y)[x] <= (y + 1) * u64::MAX,
    decreases y,
{
    if y > 0 {
        lemma_cost_row_bounds(e, y - 1);
        let above = cost_row(e, y - 1);
        assert forall|x: int| 0 <= x < grid_width(e) implies 0 <= #[trigger] cost_row(e, y)[x] <= (y
            + 1) * u64::MAX by {
            lemma_step_up(above, x);
            let from = step_up(above, x);
            assert(0 <= above[from] <= y * u64::MAX);
            assert(cost_row(e, y)[x] == e[y][x] + above[from]);
        }
    }
}

/// The chosen seam crosses every row inside the grid.
pub proof fn lemma_seam_column_in_range(e: Seq<Seq<u64>>, y: int)
    requires
        is_grid(e),
        0 <= y < grid_height(e),
    ensures
        0 <= seam_column(e, y) < grid_width(e),
    decreases grid_height(e) - y,
{
    let h = grid_height(e) as int;
    if y >= h - 1 {
        lemma_cost_row_bounds(e, h - 1);
        lemma_first_min_index(cost_row(e, h - 1));
    } else {
        lemma_seam_column_in_range(e, y + 1);
        lemma_cost_row_bounds(e, y);
        lemma_step_up(cost_row(e, y), seam_column(e, y + 1));
    }
}

/// The chosen seam is a seam: it has one column for every row, every column
/// lies inside the grid, and neighbouring rows differ by at most one column.
pub proof fn lemma_seam_of_is_seam(e: Seq<Seq<u64>>)
    requires
        is_grid(e),
    ensures
        is_seam(seam_of(e), grid_width(e), grid_height(e)),
{
    let s = seam_of(e);
    let h = grid_height(e) as int;
    assert forall|y: int| 0 <= y < h implies 0 <= #[trigger] s[y] < grid_width(e) by {
        lemma_seam_column_in_range(e, y);
    }
    assert forall|y: int| #![trigger s[y]] 0 <= y < h - 1 implies s[y] - 1 <= s[y + 1] <= s[y]
        + 1 by {
        lemma_seam_column_in_range(e, y);
        lemma_seam_column_in_range(e, y + 1);
        lemma_cost_row_bounds(e, y);
        lemma_step_up(cost_row(e, y), seam_column(e, y + 1));
    }
}

/// In a grid with a single column the chosen seam stays in column 0.
pub proof fn lemma_single_column_seam(e: Seq<Seq<u64>>)
    requires
        is_grid(e),
        grid_width(e) == 1,
    ensures
        seam_of(e) == Seq::new(grid_height(e), |y: int| 0int),
{
    lemma_seam_of_is_seam(e);
    assert(seam_of(e) =~= Seq::new(grid_height(e), |y: int| 0int));
}

/// No connected path from the top row to a cell is cheaper than the cost
/// table says: the energy that a seam collects down to row `y` is at least the
/// cost of the cell in which it crosses that row.
pub proof fn lemma_cost_is_lower_bound(e: Seq<Seq<u64>>, seam: Seq<int>, y: int)
    requires
        is_grid(e),
        is_seam(seam, grid_width(e), grid_height(e)),
        0 <= y < grid_height(e),
    ensures
        cost_row(e, y)[seam[y]] <= seam_energy_above(e, seam, y + 1),
    decreases y,
{
    assert(seam_energy_above(e, seam, y + 1) == seam_energy_above(e, seam, y) + e[y][seam[y]]);
    if y > 0 {
        lemma_cost_is_lower_bound(e, seam, y - 1);
        lemma_cost_row_bounds(e, y - 1);
        let above = cost_row(e, y - 1);
        let x = seam[y];
        let from = seam[y - 1];
        assert(from - 1 <= x <= from + 1);
        assert(cheapest_above(above, x) <= above[from]);
    }
}

/// The chosen seam collects, down to each row, exactly the cost of the cell
/// in which it crosses that row.
pub proof fn lemma_seam_of_meets_cost(e: Seq<Seq<u64>>, y: int)
    requires
        is_grid(e),
        0 <= y < grid_height(e),
    ensures
        seam_energy_above(e, seam_of(e), y + 1) == cost_row(e, y)[seam_of(e)[y]],
    decreases y,
{
    let s = seam_of(e);
    assert(seam_energy_above(e, s, y + 1) == seam_energy_above(e, s, y) + e[y][s[y]]);
    lemma_seam_of_is_seam(e);
    lemma_seam_column_in_range(e, y);
    if y > 0 {
        lemma_seam_of_meets_cost(e, y - 1);
        lemma_seam_column_in_range(e, y - 1);
        lemma_cost_row_bounds(e, y - 1);
        lemma_step_up(cost_row(e, y - 1), seam_column(e, y));
    }
}

/// No seam through the grid has a smaller total energy than the chosen one.
pub proof fn lemma_seam_of_is_cheapest(e: Seq<Seq<u64>>, other: Seq<int>)
    requires
        is_grid(e),
        is_seam(other, grid_width(e), grid_height(e)),
    ensures
        seam_energy(e, seam_of(e)) <= seam_energy(e, other),
{
    let last = grid_height(e) - 1;
    lemma_seam_of_meets_cost(e, last);
    lemma_cost_is_lower_bound(e, other, last);
    lemma_cost_row_bounds(e, last);
    lemma_first_min_index(cost_row(e, last));
    lemma_seam_column_in_range(e, last);
}

/// Whether `costs` is the cost table of the energy map `e`.
pub open spec fn is_cost_table(costs: Seq<Seq<u128>>, e: Seq<Seq<u64>>) -> bool {
    &&& is_grid(costs)
    &&& grid_width(costs) == grid_width(e)
    &&& grid_height(costs) == grid_height(e)
    &&& forall|x: int, y: int|
        0 <= x < grid_width(e) && 0 <= y < grid_height(e) ==> #[trigger] costs[y][x] == cost_row(
            e,
            y,
        )[x]
}

/// Builds the cost table of `energy`: the top row holds the energies
/// themselves, and every cell below holds its energy plus the cheapest cost
/// among the cells above it that a path may come from.
pub fn cumulative_costs(energy: &EnergyMap) -> (costs: CostTable)
    ensures
        is_cost_table(costs@, energy@),
        is_grid(energy@),
{
    let width = energy.width();
    let height = energy.height();
    let mut costs: CostTable = Grid::filled(width, height, 0u128).unwrap();
    let mut x: usize = 0;
    while x < width
        invariant
            x <= width,
            is_grid(energy@),
            is_grid(costs@),
            width == grid_width(energy@),
            height == grid_height(energy@),
            grid_width(costs@) == width,
            grid_height(costs@) == height,
            forall|i: int| 0 <= i < x ==> #[trigger] costs@[0][i] == cost_row(energy@, 0)[i],
        decreases width - x,
    {
        let e = *energy.get(x, 0);
        costs.set(x, 0, e as u128);
        x += 1;
    }
    let mut y: usize = 1;
    while y < height
        invariant
            1 <= y <= height,
            is_grid(energy@),
            is_grid(costs@),
            width == grid_width(energy@),
            height == grid_height(energy@),
            grid_width(costs@) == width,
            grid_height(costs@) == height,
            forall|i: int, j: int|
                0 <= i < width && 0 <= j < y ==> #[trigger] costs@[j][i] == cost_row(energy@, j)[i],
        decreases height - y,
    {
        let mut x: usize = 0;
        while x < width
            invariant
                x <= width,
                1 <= y < height,
                is_grid(energy@),
                is_grid(costs@),
                width == grid_width(energy@),
                height == grid_height(energy@),
                grid_width(costs@) == width,
                grid_height(costs@) == height,
                forall|i: int, j: int|
                    0 <= i < width && 0 <= j < y ==> #[trigger] costs@[j][i] == cost_row(
                        energy@,
                        j,
                    )[i],
                forall|i: int| 0 <= i < x ==> #[trigger] costs@[y as int][i] == cost_row(
                    energy@,
                    y as int,
                )[i],
            decreases width - x,
        {
            let mut best: u128 = *costs.get(x, y - 1);
            if x > 0 {
                let left = *costs.get(x - 1, y - 1);
                if left < best {
                    best = left;
                }
            }
            if x < width - 1 {
                let right = *costs.get(x + 1, y - 1);
                if right < best {
                    best = right;
                }
            }
            let e = *energy.get(x, y);
            proof {
                let above = cost_row(energy@, y - 1);
                lemma_cost_row_bounds(energy@, y - 1);
                lemma_step_up(above, x as int);
                assert(best == cheapest_above(above, x as int));
                assert(y * u64::MAX <= (u64::MAX - 1) * u64::MAX) by (nonlinear_arith)
                    requires
                        0 <= y <= u64::MAX - 1,
                ;
            }
            costs.set(x, y, e as u128 + best);
            x += 1;
        }
        y += 1;
    }
    costs
}

/// Finds the seam to remove: a connected path from the top row to the bottom
/// row whose total energy no other such path undercuts. It ends in the first
/// cheapest cell of the bottom row of the cost table and climbs from there,
/// preferring the column straight above, then the left one, then the right
/// one, whenever these are equally cheap.
pub fn find_seam(energy: &EnergyMap) -> (seam: Vec<usize>)
    ensures
        columns(seam@) == seam_of(energy@),
        seam@.len() == grid_height(energy@),
        forall|y: int|
            0 <= y < grid_height(energy@) ==> #[trigger] seam@[y] == seam_column(energy@, y),
        is_grid(energy@),
        is_seam(columns(seam@), grid_width(energy@), grid_height(energy@)),
        forall|other: Seq<int>|
            is_seam(other, grid_width(energy@), grid_height(energy@)) ==> seam_energy(
                energy@,
                columns(seam@),
            ) <= #[trigger] seam_energy(energy@, other),
{
    let costs = cumulative_costs(energy);
    let width = energy.width();
    let height = energy.height();
    let ghost bottom = cost_row(energy@, height - 1);
    proof {
        lemma_cost_row_bounds(energy@, height - 1);
    }
    let mut min_x: usize = 0;
    let mut min_cost: u128 = *costs.get(0, height - 1);
    let mut x: usize = 1;
    while x < width
        invariant
            1 <= x <= width,
            is_cost_table(costs@, energy@),
            is_grid(energy@),
            width == grid_width(energy@),
            height == grid_height(energy@),
            bottom == cost_row(energy@, height - 1),
            bottom.len() == width,
            min_x == first_min_index(bottom.take(x as int)),
            min_x < x,
            min_cost == bottom[min_x as int],
        decreases width - x,
    {
        let cost = *costs.get(x, height - 1);
        proof {
            assert(bottom.take(x + 1).drop_last() =~= bottom.take(x as int));
        }
        if cost < min_cost {
            min_cost = cost;
            min_x = x;
        }
        x += 1;
    }
    proof {
        assert(bottom.take(width as int) =~= bottom);
    }
    let mut seam: Vec<usize> = Vec::with_capacity(height);
    let mut n: usize = 0;
    while n < height
        invariant
            n <= height,
            seam@.len() == n,
        decreases height - n,
    {
        seam.push(0);
        n += 1;
    }
    seam[height - 1] = min_x;
    let mut y: usize = height - 1;
    while y > 0
        invariant
            y < height,
            seam@.len() == height,
            is_cost_table(costs@, energy@),
            is_grid(energy@),
            width == grid_width(energy@),
            height == grid_height(energy@),
            forall|j: int| y <= j < height ==> #[trigger] seam@[j] == seam_column(energy@, j),
        decreases y,
    {
        let x = seam[y];
        proof {
            lemma_seam_column_in_range(energy@, y as int);
            lemma_cost_row_bounds(energy@, y - 1);
        }
        let mut best_x = x;
        let mut best: u128 = *costs.get(x, y - 1);
        if x > 0 {
            let left = *costs.get(x - 1, y - 1);
            if left < best {
                best = left;
                best_x = x - 1;
            }
        }
        if x < width - 1 {
            let right = *costs.get(x + 1, y - 1);
            if right < best {
                best_x = x + 1;
            }
        }
        seam[y - 1] = best_x;
        y -= 1;
    }
    proof {
        assert(columns(seam@) =~= seam_of(energy@));
        lemma_seam_of_is_seam(energy@);
        assert forall|other: Seq<int>|
            is_seam(other, grid_width(energy@), grid_height(energy@)) implies seam_energy(
            energy@,
            columns(seam@),
        ) <= #[trigger] seam_energy(energy@, other) by {
            lemma_seam_of_is_cheapest(energy@, other);
        }
    }
    seam
}

/// Whether `seam` names one column of a `width` by `height` grid for every row.
pub fn seam_fits_grid(seam: &[usize], width: usize, height: usize) -> (fits: bool)
    ensures
        fits == seam_fits(columns(seam@), width as nat, height as nat),
{
    if seam.len() != height {
        return false;
    }
    let mut y: usize = 0;
    while y < height
        invariant
            y <= height,
            seam@.len() == height,
            forall|j: int| 0 <= j < y ==> #[trigger] columns(seam@)[j] < width,
        decreases height - y,
    {
        if seam[y] >= width {
            assert(!(columns(seam@)[y as int] < width));
            return false;
        }
        y += 1;
    }
    true
}

} // verus!
