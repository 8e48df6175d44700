//! Pictures as grids of pixels.

use vstd::prelude::*;
use crate::grid::{
    cells_of, grid_height, grid_width, is_grid, lemma_rows_of_cells, rows_of, Grid,
};

verus! {

/// One pixel: red, green, blue, and an opacity that is carried along but
/// never looked at when pixels are scored.
#[derive(Clone, Copy, Debug, PartialEq, Eq, Structural)]
pub struct Pixel {
    pub r: u8,
    pub g: u8,
    pub b: u8,
    pub a: u8,
}

/// A picture: a grid of pixels with at least one row and one column.
pub type Raster = Grid<Pixel>;

/// Channel `c` of a pixel: red, green, blue and opacity are channels 0 to 3.
pub open spec fn channel(p: Pixel, c: int) -> u8 {
    if c == 0 {
        p.r
    } else if c == 1 {
        p.g
    } else if c == 2 {
        p.b
    } else {
        p.a
    }
}

/// The pixels that a buffer holds with four bytes each: red, green, blue, opacity.
pub open spec fn rgba_pixels(bytes: Seq<u8>) -> Seq<Pixel> {
    Seq::new(
        bytes.len() / 4,
        |i: int|
            Pixel {
                r: bytes[4 * i],
                g: bytes[4 * i + 1],
                b: bytes[4 * i + 2],
                a: bytes[4 * i + 3],
            },
    )
}

/// The pixels that a buffer holds with three bytes each: red, green, blue.
/// They are fully opaque.
pub open spec fn rgb_pixels(bytes: Seq<u8>) -> Seq<Pixel> {
    Seq::new(
        bytes.len() / 3,
        |i: int| Pixel { r: bytes[3 * i], g: bytes[3 * i + 1], b: bytes[3 * i + 2], a: 255 },
    )
}

/// The buffer that holds `pixels` with four bytes each.
pub open spec fn rgba_bytes(pixels: Seq<Pixel>) -> Seq<u8> {
    Seq::new(4 * pixels.len(), |j: int| channel(pixels[j / 4], j % 4))
}

/// The buffer that holds the colours of `pixels` with three bytes each;
/// the opacity is left out.
pub open spec fn rgb_bytes(pixels: Seq<Pixel>) -> Seq<u8> {
    Seq::new(3 * pixels.len(), |j: int| channel(pixels[j / 3], j % 3))
}

/// A picture that is written out with four bytes for each pixel and read
/// back with its own dimensions is the same picture.
pub proof fn lemma_rgba_round_trip(img: Seq<Seq<Pixel>>)
    requires
        is_grid(img),
    ensures
        rgba_bytes(cells_of(img)).len() == 4 * (grid_width(img) * grid_height(img)),
        rows_of(rgba_pixels(rgba_bytes(cells_of(img))), grid_width(img), grid_height(img)) == img,
{
    let pixels = cells_of(img);
    assert(rgba_pixels(rgba_bytes(pixels)) =~= pixels);
    lemma_rows_of_cells(img);
}

impl Pixel {
    /// A fully opaque pixel of the given colour.
    pub fn opaque(r: u8, g: u8, b: u8) -> (p: Pixel)
        ensures
            p == (Pixel { r, g, b, a: 255 }),
    {
        Pixel { r, g, b, a: 255 }
    }
}

impl Grid<Pixel> {
    /// Reads a picture from a buffer that holds its pixels row by row with
    /// four bytes each. There is a picture if and only if both dimensions are
    /// positive and the buffer holds exactly `4 * width * height` bytes.
    pub fn from_rgba(width: usize, height: usize, bytes: &[u8]) -> (image: Option<Raster>)
        ensures
            image.is_some() <==> width >= 1 && height >= 1 && bytes@.len() == 4 * (width * height),
            image matches Some(r) ==> {
                &&& r@ == rows_of(rgba_pixels(bytes@), width as nat, height as nat)
                &&& is_grid(r@)
                &&& grid_width(r@) == width
                &&& grid_height(r@) == height
            },
    {
        let len = bytes.len();
        if width == 0 || height == 0 {
            return None;
        }
        let count = match width.checked_mul(height) {
            Some(count) => count,
            None => {
                return None;
            },
        };
        if count.checked_mul(4) != Some(len) {
            return None;
        }
        let mut cells: Vec<Pixel> = Vec::with_capacity(count);
        let mut i: usize = 0;
        while i < count
            invariant
                i <= count,
                count * 4 == bytes@.len() <= usize::MAX,
                cells@ == rgba_pixels(bytes@).take(i as int),
            decreases count - i,
        {
            cells.push(
                Pixel {
                    r: bytes[4 * i],
                    g: bytes[4 * i + 1],
                    b: bytes[4 * i + 2],
                    a: bytes[4 * i + 3],
                },
            );
            i += 1;
            assert(cells@ =~= rgba_pixels(bytes@).take(i as int));
        }
        assert(cells@ =~= rgba_pixels(bytes@));
        Grid::from_cells(width, height, cells)
    }

    /// Reads a picture from a buffer that holds its pixels row by row with
    /// three bytes each; every pixel is fully opaque. There is a picture if
    /// and only if both dimensions are positive and the buffer holds exactly
    /// `3 * width * height` bytes.
    pub fn from_rgb(width: usize, height: usize, bytes: &[u8]) -> (image: Option<Raster>)
        ensures
            image.is_some() <==> width >= 1 && height >= 1 && bytes@.len() == 3 * (width * height),
            image matches Some(r) ==> {
                &&& r@ == rows_of(rgb_pixels(bytes@), width as nat, height as nat)
                &&& is_grid(r@)
                &&& grid_width(r@) == width
                &&& grid_height(r@) == height
            },
    {
        let len = bytes.len();
        if width == 0 || height == 0 {
            return None;
        }
        let count = match width.checked_mul(height) {
            Some(count) => count,
            None => {
                return None;
            },
        };
        if count.checked_mul(3) != Some(len) {
            return None;
        }
        let mut cells: Vec<Pixel> = Vec::with_capacity(count);
        let mut i: usize = 0;
        while i < count
            invariant
                i <= count,
                count * 3 == bytes@.len() <= usize::MAX,
                cells@ == rgb_pixels(bytes@).take(i as int),
            decreases count - i,
        {
            cells.push(Pixel::opaque(bytes[3 * i], bytes[3 * i + 1], bytes[3 * i + 2]));
            i += 1;
            assert(cells@ =~= rgb_pixels(bytes@).take(i as int));
        }
        assert(cells@ =~= rgb_pixels(bytes@));
        Grid::from_cells(width, height, cells)
    }

    /// Writes the picture out row by row with four bytes for each pixel.
    pub fn to_rgba(&self) -> (bytes: Vec<u8>)
        ensures
            bytes@ == rgba_bytes(cells_of(self@)),
    {
        let cells = self.cells();
        let mut bytes: Vec<u8> = Vec::new();
        let mut i: usize = 0;
        while i < cells.len()
            invariant
                i <= cells@.len(),
                bytes@ == rgba_bytes(cells@.take(i as int)),
            decreases cells@.len() - i,
        {
            let p = cells[i];
            bytes.push(p.r);
            bytes.push(p.g);
            bytes.push(p.b);
            bytes.push(p.a);
            i += 1;
            assert(bytes@ =~= rgba_bytes(cells@.take(i as int)));
        }
        assert(cells@.take(i as int) =~= cells@);
        bytes
    }

    /// Writes the colours of the picture out row by row with three bytes for
    /// each pixel, leaving the opacity out.
    pub fn to_rgb(&self) -> (bytes: Vec<u8>)
        ensures
            bytes@ == rgb_bytes(cells_of(self@)),
    {
        let cells = self.cells();
        let mut bytes: Vec<u8> = Vec::new();
        let mut i: usize = 0;
        while i < cells.len()
            invariant
                i <= cells@.len(),
                bytes@ == rgb_bytes(cells@.take(i as int)),
            decreases cells@.len() - i,
        {
            let p = cells[i];
            bytes.push(p.r);
            bytes.push(p.g);
            bytes.push(p.b);
            i += 1;
            assert(bytes@ =~= rgb_bytes(cells@.take(i as int)));
        }
        assert(cells@.take(i as int) =~= cells@);
        bytes
    }
}

} // verus!
