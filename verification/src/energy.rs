//! Per-pixel importance scores.
//!
//! The energy of a pixel measures how much the picture changes around it: the
//! contrast between its left and right neighbours plus the contrast between
//! its upper and lower neighbours. Neighbours wrap around the edges of the
//! picture. Energies are fixed-point numbers with 32 fractional bits, so the
//! energy `ENERGY_ONE` stands for a contrast of exactly one.

use vstd::prelude::*;
use vstd::arithmetic::div_mod::lemma_fundamental_div_mod_converse;
use rayon::iter::{IntoParallelIterator, ParallelIterator};
use crate::grid::{grid_height, grid_width, is_grid, lemma_cell_index, Grid};
use crate::raster::{Pixel, Raster};
use crate::root::{
    floor_sqrt, is_floor_sqrt, isqrt_below, lemma_floor_sqrt_exists, lemma_floor_sqrt_unique,
};

verus! {

/// One importance score for every pixel of a picture.
pub type EnergyMap = Grid<u64>;

/// The energy that stands for a contrast of one.
pub const ENERGY_ONE: u64 = 0x1_0000_0000;

/// `ENERGY_ONE` squared: what a squared distance is scaled by before its
/// root is taken.
pub const ENERGY_ONE_SQUARED: u128 = 0x1_0000_0000_0000_0000;

/// Every contrast is below this limit, so the sum of two fits an energy.
pub const CONTRAST_LIMIT: u64 = 0x200_0000_0000;

/// The largest squared distance between two colours: three channels that
/// each differ by 255.
pub const MAX_COLOR_GAP_SQ: u32 = 195075;

/// The position before `i` among `n` positions on a ring.
pub open spec fn wrap_before(i: int, n: int) -> int {
    if i > 0 {
        i - 1
    } else {
        n - 1
    }
}

/// The position after `i` among `n` positions on a ring.
pub open spec fn wrap_after(i: int, n: int) -> int {
    if i < n - 1 {
        i + 1
    } else {
        0
    }
}

/// Squared difference of two channel values.
pub open spec fn channel_gap_sq(a: u8, b: u8) -> nat {
    ((a - b) * (a - b)) as nat
}

/// Squared distance between the colours of two pixels. Opacity plays no part.
pub open spec fn color_gap_sq(p: Pixel, q: Pixel) -> nat {
    channel_gap_sq(p.r, q.r) + channel_gap_sq(p.g, q.g) + channel_gap_sq(p.b, q.b)
}

/// Distance between the colours of two pixels as a fixed-point number with
/// 32 fractional bits, rounded down: the square root of the squared distance
/// scaled by `ENERGY_ONE` squared.
pub open spec fn contrast(p: Pixel, q: Pixel) -> nat {
    floor_sqrt(color_gap_sq(p, q) * ENERGY_ONE_SQUARED as nat)
}

/// Energy of the pixel in column `x` of row `y`: the contrast between its
/// horizontal neighbours plus the contrast between its vertical neighbours.
pub open spec fn cell_energy(img: Seq<Seq<Pixel>>, x: int, y: int) -> nat {
    let w = grid_width(img) as int;
    let h = grid_height(img) as int;
    contrast(img[y][wrap_after(x, w)], img[y][wrap_before(x, w)]) + contrast(
        img[wrap_after(y, h)][x],
        img[wrap_before(y, h)][x],
    )
}

/// Energy of the pixel that stands at place `i` when the picture is read row
/// by row.
pub open spec fn energy_at_place(img: Seq<Seq<Pixel>>, i: int) -> nat {
    cell_energy(img, i % grid_width(img) as int, i / grid_width(img) as int)
}

/// The energy map of a picture.
pub open spec fn energy_of(img: Seq<Seq<Pixel>>) -> Seq<Seq<u64>> {
    Seq::new(
        grid_height(img),
        |y: int| Seq::new(grid_width(img), |x: int| cell_energy(img, x, y) as u64),
    )
}

/// The squared difference of two channel values is at most 255 squared.
pub proof fn lemma_channel_gap_sq_bound(a: u8, b: u8)
    ensures
        channel_gap_sq(a, b) == (a - b) * (a - b),
        channel_gap_sq(a, b) <= 65025,
{
    let d = a - b;
    assert(0 <= d * d <= 65025) by (nonlinear_arith)
        requires
            -255 <= d <= 255,
    ;
}

/// A contrast is the rounded-down root of the scaled squared distance, and
/// it stays below `CONTRAST_LIMIT`.
pub proof fn lemma_contrast_bound(p: Pixel, q: Pixel)
    ensures
        color_gap_sq(p, q) <= MAX_COLOR_GAP_SQ,
        contrast(p, q) < CONTRAST_LIMIT,
        is_floor_sqrt(color_gap_sq(p, q) * ENERGY_ONE_SQUARED as nat, contrast(p, q)),
{
    lemma_channel_gap_sq_bound(p.r, q.r);
    lemma_channel_gap_sq_bound(p.g, q.g);
    lemma_channel_gap_sq_bound(p.b, q.b);
    let n = color_gap_sq(p, q) * ENERGY_ONE_SQUARED as nat;
    lemma_floor_sqrt_exists(n);
    let r = contrast(p, q);
    assert(r < 0x200_0000_0000) by (nonlinear_arith)
        requires
            r * r <= n,
            n < 0x200_0000_0000 * 0x200_0000_0000,
    ;
}

/// The energy map of a picture has the picture's dimensions, and every
/// energy in it is the energy of its pixel: not negative, and below twice
/// `CONTRAST_LIMIT`.
pub proof fn lemma_energy_of_is_grid(img: Seq<Seq<Pixel>>)
    requires
        is_grid(img),
    ensures
        is_grid(energy_of(img)),
        grid_width(energy_of(img)) == grid_width(img),
        grid_height(energy_of(img)) == grid_height(img),
        forall|x: int, y: int|
            0 <= x < grid_width(img) && 0 <= y < grid_height(img) ==> 0 <= #[trigger] energy_of(
                img,
            )[y][x] == cell_energy(img, x, y) < 2 * CONTRAST_LIMIT,
{
    assert forall|x: int, y: int|
        0 <= x < grid_width(img) && 0 <= y < grid_height(img) implies 0 <= #[trigger] energy_of(
        img,
    )[y][x] == cell_energy(img, x, y) < 2 * CONTRAST_LIMIT by {
        let w = grid_width(img) as int;
        let h = grid_height(img) as int;
        lemma_contrast_bound(img[y][wrap_after(x, w)], img[y][wrap_before(x, w)]);
        lemma_contrast_bound(img[wrap_after(y, h)][x], img[wrap_before(y, h)][x]);
    }
}

/// A pixel has no contrast with itself.
pub proof fn lemma_no_contrast_with_itself(p: Pixel)
    ensures
        contrast(p, p) == 0,
{
    lemma_channel_gap_sq_bound(p.r, p.r);
    lemma_channel_gap_sq_bound(p.g, p.g);
    lemma_channel_gap_sq_bound(p.b, p.b);
    assert(color_gap_sq(p, p) == 0) by (nonlinear_arith)
        requires
            color_gap_sq(p, p) == (p.r - p.r) * (p.r - p.r) + (p.g - p.g) * (p.g - p.g) + (p.b
                - p.b) * (p.b - p.b),
    ;
    assert(is_floor_sqrt(0, 0)) by (nonlinear_arith);
    lemma_floor_sqrt_unique(0, 0);
}

/// A picture in which every pixel has the same colour has energy zero
/// everywhere, at the edges too.
pub proof fn lemma_uniform_picture_has_no_energy(img: Seq<Seq<Pixel>>, p: Pixel)
    requires
        is_grid(img),
        forall|x: int, y: int|
            0 <= x < grid_width(img) && 0 <= y < grid_height(img) ==> #[trigger] img[y][x] == p,
    ensures
        forall|x: int, y: int|
            0 <= x < grid_width(img) && 0 <= y < grid_height(img) ==> #[trigger] energy_of(
                img,
            )[y][x] == 0,
{
    lemma_no_contrast_with_itself(p);
    assert forall|x: int, y: int|
        0 <= x < grid_width(img) && 0 <= y < grid_height(img) implies #[trigger] energy_of(
        img,
    )[y][x] == 0 by {
        let w = grid_width(img) as int;
        let h = grid_height(img) as int;
        assert(img[y][wrap_after(x, w)] == p);
        assert(img[y][wrap_before(x, w)] == p);
        assert(img[wrap_after(y, h)][x] == p);
        assert(img[wrap_before(y, h)][x] == p);
    }
}

/// In a picture of at most two columns and at most two rows every energy is
/// zero, whatever the pixels are: around the edges the neighbour on one
/// side of a pixel is also its neighbour on the other side.
pub proof fn lemma_tiny_picture_has_no_energy(img: Seq<Seq<Pixel>>)
    requires
        is_grid(img),
        grid_width(img) <= 2,
        grid_height(img) <= 2,
    ensures
        forall|x: int, y: int|
            0 <= x < grid_width(img) && 0 <= y < grid_height(img) ==> #[trigger] energy_of(
                img,
            )[y][x] == 0,
{
    assert forall|x: int, y: int|
        0 <= x < grid_width(img) && 0 <= y < grid_height(img) implies #[trigger] energy_of(
        img,
    )[y][x] == 0 by {
        let w = grid_width(img) as int;
        let h = grid_height(img) as int;
        assert(wrap_after(x, w) == wrap_before(x, w));
        assert(wrap_after(y, h) == wrap_before(y, h));
        lemma_no_contrast_with_itself(img[y][wrap_after(x, w)]);
        lemma_no_contrast_with_itself(img[wrap_after(y, h)][x]);
    }
}

/// Squared distance between the colours of two pixels.
pub fn measure_color_gap_sq(p: Pixel, q: Pixel) -> (gap: u32)
    ensures
        gap == color_gap_sq(p, q),
        gap <= MAX_COLOR_GAP_SQ,
{
    proof {
        lemma_channel_gap_sq_bound(p.r, q.r);
        lemma_channel_gap_sq_bound(p.g, q.g);
        lemma_channel_gap_sq_bound(p.b, q.b);
    }
    let dr: i32 = p.r as i32 - q.r as i32;
    let dg: i32 = p.g as i32 - q.g as i32;
    let db: i32 = p.b as i32 - q.b as i32;
    (dr * dr + dg * dg + db * db) as u32
}

/// Distance between the colours of two pixels as a fixed-point number with
/// 32 fractional bits, rounded down.
pub fn measure_contrast(p: Pixel, q: Pixel) -> (c: u64)
    ensures
        c == contrast(p, q),
        is_floor_sqrt(color_gap_sq(p, q) * ENERGY_ONE_SQUARED as nat, c as nat),
        c < CONTRAST_LIMIT,
{
    let gap = measure_color_gap_sq(p, q);
    isqrt_below(gap as u128 * ENERGY_ONE_SQUARED, CONTRAST_LIMIT as u128)
}

/// Energy of the pixel in column `x` of row `y`.
pub fn pixel_energy(image: &Raster, x: usize, y: usize) -> (energy: u64)
    requires
        x < grid_width(image@),
        y < grid_height(image@),
    ensures
        energy == cell_energy(image@, x as int, y as int),
{
    let width = image.width();
    let height = image.height();
    let left = if x > 0 {
        *image.get(x - 1, y)
    } else {
        *image.get(width - 1, y)
    };
    let right = if x < width - 1 {
        *image.get(x + 1, y)
    } else {
        *image.get(0, y)
    };
    let up = if y > 0 {
        *image.get(x, y - 1)
    } else {
        *image.get(x, height - 1)
    };
    let down = if y < height - 1 {
        *image.get(x, y + 1)
    } else {
        *image.get(x, 0)
    };
    measure_contrast(right, left) + measure_contrast(down, up)
}

/// Energy of the pixel that stands at place `i` when the picture is read row
/// by row.
fn pixel_energy_at(image: &Raster, i: usize) -> (energy: u64)
    requires
        i < grid_width(image@) * grid_height(image@),
    ensures
        energy == energy_at_place(image@, i as int),
{
    let width = image.width();
    proof {
        let w = width as int;
        let h = grid_height(image@) as int;
        assert(i as int / w < h) by (nonlinear_arith)
            requires
                0 <= i < w * h,
                w > 0,
        ;
    }
    pixel_energy(image, i % width, i / width)
}

/// Scores the pixels at the places `0..count` of `image` on the threads of
/// rayon's pool. The body calls rayon's `into_par_iter` on the range, `map`
/// with `pixel_energy_at`, and `collect` into a vector. Not proved, but
/// taken from rayon: `map` applies the function to every item of the range,
/// and `collect` into a vector keeps the order of the range, so the result
/// holds at each place what `pixel_energy_at` returns for that place.
#[verifier::external_body]
fn par_pixel_energies(image: &Raster, count: usize) -> (cells: Vec<u64>)
    requires
        count == grid_width(image@) * grid_height(image@),
    ensures
        cells@.len() == count,
        forall|i: int| 0 <= i < count ==> #[trigger] cells@[i] == energy_at_place(image@, i),
{
    (0..count).into_par_iter().map(|i| pixel_energy_at(image, i)).collect()
}

/// Computes the energy map of a picture. No score depends on another, so the
/// pixels are scored in parallel.
pub fn compute_energy(image: &Raster) -> (energy: EnergyMap)
    ensures
        energy@ == energy_of(image@),
        is_grid(image@),
        is_grid(energy@),
        grid_width(energy@) == grid_width(image@),
        grid_height(energy@) == grid_height(image@),
{
    let width = image.width();
    let height = image.height();
    let count = image.cell_count();
    let cells = par_pixel_energies(image, count);
    let energy = Grid::from_cells(width, height, cells).unwrap();
    proof {
        let w = width as int;
        lemma_energy_of_is_grid(image@);
        assert forall|y: int| 0 <= y < height implies #[trigger] energy@[y] =~= energy_of(
            image@,
        )[y] by {
            assert forall|x: int| 0 <= x < width implies #[trigger] energy@[y][x] == energy_of(
                image@,
            )[y][x] by {
                lemma_cell_index(w, height as int, x, y);
                lemma_fundamental_div_mod_converse(y * w + x, w, y, x);
                assert(energy@[y][x] == cells@[y * w + x]);
            }
        }
        assert(energy@ =~= energy_of(image@));
    }
    energy
}

} // verus!
