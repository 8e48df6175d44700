use seam_carver::{cumulative_costs, find_seam, EnergyMap, Grid};

fn energy_map(rows: &[&[u64]]) -> EnergyMap {
    let width = rows[0].len();
    let mut cells = Vec::new();
    for row in rows {
        assert_eq!(row.len(), width);
        cells.extend_from_slice(row);
    }
    Grid::from_cells(width, rows.len(), cells).unwrap()
}

fn scrambled_map(width: usize, height: usize, seed: u64, range: u64) -> EnergyMap {
    let mut state = seed;
    let mut cells = Vec::new();
    for _ in 0..width * height {
        state = state.wrapping_mul(6364136223846793005).wrapping_add(1442695040888963407);
        cells.push((state >> 33) % range);
    }
    Grid::from_cells(width, height, cells).unwrap()
}

fn total_energy(energy: &EnergyMap, seam: &[usize]) -> u128 {
    seam.iter().enumerate().map(|(y, &x)| *energy.get(x, y) as u128).sum()
}

fn cheapest_total_by_search(energy: &EnergyMap) -> u128 {
    fn walk(energy: &EnergyMap, x: usize, y: usize) -> u128 {
        let here = *energy.get(x, y) as u128;
        if y + 1 == energy.height() {
            return here;
        }
        let mut best = walk(energy, x, y + 1);
        if x > 0 {
            best = best.min(walk(energy, x - 1, y + 1));
        }
        if x + 1 < energy.width() {
            best = best.min(walk(energy, x + 1, y + 1));
        }
        here + best
    }
    (0..energy.width()).map(|x| walk(energy, x, 0)).min().unwrap()
}

fn assert_connected(seam: &[usize], width: usize, height: usize) {
    assert_eq!(seam.len(), height);
    for &x in seam {
        assert!(x < width);
    }
    for pair in seam.windows(2) {
        assert!(pair[0].abs_diff(pair[1]) <= 1);
    }
}

#[test]
fn cost_table_adds_the_cheapest_cell_above() {
    let energy = energy_map(&[&[1, 4, 3, 5], &[3, 2, 5, 2], &[5, 2, 4, 2]]);
    let costs = cumulative_costs(&energy);
    assert_eq!(costs.width(), 4);
    assert_eq!(costs.height(), 3);
    assert_eq!(costs.cells(), &vec![1u128, 4, 3, 5, 4, 3, 8, 5, 8, 5, 7, 7]);
}

#[test]
fn cost_table_top_row_is_the_energy() {
    let energy = energy_map(&[&[4, 1, 4, 1, 4]]);
    let costs = cumulative_costs(&energy);
    assert_eq!(costs.cells(), &vec![4u128, 1, 4, 1, 4]);
}

#[test]
fn cost_table_does_not_wrap_at_the_edges() {
    // The cheap cell in the top right corner is out of reach of column 0.
    let energy = energy_map(&[&[9, 8, 1], &[1, 9, 9]]);
    let costs = cumulative_costs(&energy);
    assert_eq!(costs.cells(), &vec![9u128, 8, 1, 9, 10, 10]);
}

#[test]
fn cost_table_holds_sums_beyond_64_bits() {
    let big = u64::MAX;
    let energy = energy_map(&[&[big, big], &[big, big], &[big, big]]);
    let costs = cumulative_costs(&energy);
    let b = big as u128;
    assert_eq!(costs.cells(), &vec![b, b, 2 * b, 2 * b, 3 * b, 3 * b]);
    assert_eq!(find_seam(&energy), vec![0, 0, 0]);
}

#[test]
fn seam_follows_the_cheapest_path() {
    let energy = energy_map(&[&[1, 4, 3, 5], &[3, 2, 5, 2], &[5, 2, 4, 2]]);
    assert_eq!(find_seam(&energy), vec![0, 1, 1]);
}

#[test]
fn seam_ends_in_the_first_of_equally_cheap_cells() {
    let energy = energy_map(&[&[4, 1, 4, 1, 4]]);
    assert_eq!(find_seam(&energy), vec![1]);
    let energy = energy_map(&[&[5, 1, 5, 1], &[5, 5, 5, 5]]);
    assert_eq!(find_seam(&energy), vec![1, 0]);
}

#[test]
fn seam_goes_straight_up_when_nothing_is_cheaper() {
    let energy = energy_map(&[&[2, 2, 2], &[9, 1, 9]]);
    assert_eq!(find_seam(&energy), vec![1, 1]);
}

#[test]
fn seam_prefers_left_to_an_equally_cheap_right() {
    let energy = energy_map(&[&[2, 5, 2], &[9, 1, 9]]);
    assert_eq!(find_seam(&energy), vec![0, 1]);
}

#[test]
fn seam_goes_right_only_when_that_is_cheaper_than_left() {
    let energy = energy_map(&[&[3, 5, 2], &[9, 1, 9]]);
    assert_eq!(find_seam(&energy), vec![2, 1]);
}

#[test]
fn seam_does_not_wrap_at_the_edges() {
    let energy = energy_map(&[&[9, 8, 1], &[1, 9, 9]]);
    assert_eq!(find_seam(&energy), vec![1, 0]);
}

#[test]
fn seam_through_a_flat_map_stays_in_column_zero() {
    let energy = energy_map(&[&[3, 3, 3], &[3, 3, 3], &[3, 3, 3]]);
    assert_eq!(find_seam(&energy), vec![0, 0, 0]);
}

#[test]
fn seam_through_a_single_column_is_all_zeros() {
    let energy = energy_map(&[&[7], &[3], &[9]]);
    assert_eq!(find_seam(&energy), vec![0, 0, 0]);
    let energy = energy_map(&[&[0]]);
    assert_eq!(find_seam(&energy), vec![0]);
    let tall = scrambled_map(1, 50, 3, 1000);
    assert_eq!(find_seam(&tall), vec![0; 50]);
}

#[test]
fn seam_is_a_connected_path_inside_the_map() {
    for seed in 0..20u64 {
        let width = 1 + (seed as usize * 7) % 9;
        let height = 1 + (seed as usize * 5) % 11;
        let energy = scrambled_map(width, height, seed, 50);
        let seam = find_seam(&energy);
        assert_connected(&seam, width, height);
    }
}

#[test]
fn seam_is_as_cheap_as_any_connected_path() {
    for seed in 100..130u64 {
        let width = 1 + (seed as usize) % 5;
        let height = 1 + (seed as usize * 3) % 6;
        // A small range of energies makes ties frequent.
        let energy = scrambled_map(width, height, seed, 4);
        let seam = find_seam(&energy);
        assert_connected(&seam, width, height);
        assert_eq!(total_energy(&energy, &seam), cheapest_total_by_search(&energy));
    }
}

#[test]
fn seam_total_is_the_smallest_cost_in_the_bottom_row() {
    let energy = scrambled_map(6, 5, 77, 1000);
    let costs = cumulative_costs(&energy);
    let seam = find_seam(&energy);
    let smallest = (0..6).map(|x| *costs.get(x, 4)).min().unwrap();
    assert_eq!(total_energy(&energy, &seam), smallest);
    assert_eq!(*costs.get(seam[4], 4), smallest);
}
