//! Deleting a seam from a picture.

use vstd::prelude::*;
use crate::error::CarveError;
use crate::grid::{grid_height, grid_width, is_grid, Grid};
use crate::raster::{Pixel, Raster};
use crate::seam::{columns, seam_fits, seam_fits_grid};

verus! {

/// The picture that is left when the pixel in column `seam[y]` is taken out
/// of every row `y` and the pixels to its right move one column to the left.
pub open spec fn without_seam(img: Seq<Seq<Pixel>>, seam: Seq<int>) -> Seq<Seq<Pixel>> {
    Seq::new(grid_height(img), |y: int| img[y].remove(seam[y]))
}

/// Taking a seam out of a picture leaves a picture of the same height that
/// is one column narrower. Left of the seam every pixel stays where it was;
/// from the seam on every pixel is the one that stood one column to the right.
pub proof fn lemma_without_seam(img: Seq<Seq<Pixel>>, seam: Seq<int>)
    requires
        is_grid(img),
        grid_width(img) >= 2,
        seam_fits(seam, grid_width(img), grid_height(img)),
    ensures
        is_grid(without_seam(img, seam)),
        grid_width(without_seam(img, seam)) == grid_width(img) - 1,
        grid_height(without_seam(img, seam)) == grid_height(img),
        forall|x: int, y: int|
            0 <= x < grid_width(img) - 1 && 0 <= y < grid_height(img) ==> #[trigger] without_seam(
                img,
                seam,
            )[y][x] == if x < seam[y] {
                img[y][x]
            } else {
                img[y][x + 1]
            },
{
    let out = without_seam(img, seam);
    assert forall|y: int| 0 <= y < grid_height(img) implies #[trigger] out[y].len() == grid_width(
        img,
    ) - 1 by {
        img[y].remove_ensures(seam[y]);
    }
    assert forall|x: int, y: int|
        0 <= x < grid_width(img) - 1 && 0 <= y < grid_height(img) implies #[trigger] out[y][x]
        == if x < seam[y] {
        img[y][x]
    } else {
        img[y][x + 1]
    } by {
        img[y].remove_ensures(seam[y]);
    }
}

/// Removes `seam` from `image`: in every row the pixel that the seam names
/// is dropped and the rest of the row closes the gap.
pub fn remove_seam(image: &Raster, seam: &[usize]) -> (narrowed: Raster)
    requires
        grid_width(image@) >= 2,
        seam_fits(columns(seam@), grid_width(image@), grid_height(image@)),
    ensures
        narrowed@ == without_seam(image@, columns(seam@)),
        is_grid(image@),
        is_grid(narrowed@),
        grid_width(narrowed@) == grid_width(image@) - 1,
        grid_height(narrowed@) == grid_height(image@),
        forall|x: int, y: int|
            0 <= x < grid_width(image@) - 1 && 0 <= y < grid_height(image@)
                ==> #[trigger] narrowed@[y][x] == if x < seam@[y] {
                image@[y][x]
            } else {
                image@[y][x + 1]
            },
{
    let width = image.width();
    let height = image.height();
    let ghost cut = columns(seam@);
    let ghost goal = without_seam(image@, cut);
    proof {
        lemma_without_seam(image@, cut);
        assert((width - 1) * height <= width * height) by (nonlinear_arith)
            requires
                width >= 1,
                height >= 0,
        ;
    }
    let blank = Pixel { r: 0, g: 0, b: 0, a: 0 };
    let mut narrowed: Raster = Grid::filled(width - 1, height, blank).unwrap();
    let mut y: usize = 0;
    while y < height
        invariant
            y <= height,
            is_grid(image@),
            width == grid_width(image@),
            height == grid_height(image@),
            width >= 2,
            cut == columns(seam@),
            seam_fits(cut, width as nat, height as nat),
            goal == without_seam(image@, cut),
            is_grid(goal),
            grid_width(goal) == width - 1,
            is_grid(narrowed@),
            grid_width(narrowed@) == width - 1,
            grid_height(narrowed@) == height,
            forall|j: int| 0 <= j < y ==> #[trigger] narrowed@[j] == goal[j],
        decreases height - y,
    {
        let seam_x = seam[y];
        assert(seam_x == cut[y as int]);
        let mut x: usize = 0;
        while x < width - 1
            invariant
                x <= width - 1,
                y < height,
                is_grid(image@),
                width == grid_width(image@),
                height == grid_height(image@),
                seam_x == cut[y as int],
                0 <= seam_x < width,
                goal == without_seam(image@, cut),
                is_grid(goal),
                grid_width(goal) == width - 1,
                is_grid(narrowed@),
                grid_width(narrowed@) == width - 1,
                grid_height(narrowed@) == height,
                forall|j: int| 0 <= j < y ==> #[trigger] narrowed@[j] == goal[j],
                forall|i: int|
                    0 <= i < x ==> #[trigger] narrowed@[y as int][i] == goal[y as int][i],
            decreases width - 1 - x,
        {
            let pixel = if x >= seam_x {
                *image.get(x + 1, y)
            } else {
                *image.get(x, y)
            };
            proof {
                image@[y as int].remove_ensures(seam_x as int);
            }
            narrowed.set(x, y, pixel);
            x += 1;
        }
        assert(narrowed@[y as int] =~= goal[y as int]);
        y += 1;
    }
    assert(narrowed@ =~= goal);
    narrowed
}

/// Removes `seam` from `image` after making sure that it can be removed: the
/// picture must keep at least one column, and the seam must name one column
/// of the picture for every row.
pub fn checked_remove_seam(image: &Raster, seam: &[usize]) -> (result: Result<Raster, CarveError>)
    ensures
        result is Ok <==> grid_width(image@) >= 2 && seam_fits(
            columns(seam@),
            grid_width(image@),
            grid_height(image@),
        ),
        result matches Ok(narrowed) ==> narrowed@ == without_seam(image@, columns(seam@)),
        result matches Err(e) ==> e == CarveError::MalformedSeamOrEnergy,
{
    if image.width() >= 2 && seam_fits_grid(seam, image.width(), image.height()) {
        Ok(remove_seam(image, seam))
    } else {
        Err(CarveError::MalformedSeamOrEnergy)
    }
}

} // verus!
