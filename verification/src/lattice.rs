//! From pixels to the integer lattice centred on the raster.
//!
//! A pixel's place in the complex plane is its lattice offset times the
//! caller's scale; the offset is the part that is exact.

use vstd::prelude::*;
use crate::tile::Tile;

verus! {

/// A pixel's position relative to the centre of the raster.
#[derive(Clone, Copy, Debug, PartialEq, Eq, Structural)]
pub struct Offset {
    pub dx: i32,
    pub dy: i32,
}

/// Which point serves as the constant of the recurrence.
#[derive(Clone, Copy, Debug, PartialEq, Eq, Structural)]
pub enum MapMode {
    /// The seed varies with the pixel, the constant is fixed for the frame.
    Julia,
    /// The pixel's own point is both seed and constant.
    Mandelbrot,
}

impl MapMode {
    /// The constant of the recurrence at a pixel: the frame's in a Julia
    /// set, the pixel's own point in a Mandelbrot set.
    pub open spec fn constant_spec<P>(self, pixel: P, fixed: P) -> P {
        match self {
            MapMode::Julia => fixed,
            MapMode::Mandelbrot => pixel,
        }
    }

    /// The constant to iterate with at a pixel whose point is `pixel`,
    /// where `fixed` is the constant of the frame.
    pub fn constant_for<P>(self, pixel: P, fixed: P) -> (constant: P)
        ensures
            constant == self.constant_spec(pixel, fixed),
    {
        match self {
            MapMode::Julia => fixed,
            MapMode::Mandelbrot => pixel,
        }
    }
}

/// A coordinate measured from the middle of an axis of `extent` pixels.
pub open spec fn centered(position: int, extent: int) -> int {
    position - extent / 2
}

/// `offset` is where pixel `(x, y)` of a `width` x `height` raster lies.
pub open spec fn is_offset_of(offset: Offset, x: int, y: int, width: int, height: int) -> bool {
    offset.dx == centered(x, width) && offset.dy == centered(y, height)
}

/// `seeds` lists the offsets of the pixels of `tile`, row by row from the
/// top and from left to right within a row.
pub open spec fn is_band_seeds(seeds: Seq<Offset>, tile: Tile, height: int) -> bool {
    &&& seeds.len() == tile.pixels()
    &&& forall|i: int|
        0 <= i < seeds.len() ==> is_offset_of(
            #[trigger] seeds[i],
            i % (tile.width as int),
            tile.row_start + i / (tile.width as int),
            tile.width as int,
            height,
        )
}

/// Distinct pixels have distinct offsets, and the pixel is recovered from
/// its offset by adding the half extents back.
pub proof fn lemma_offset_identifies_pixel(
    offset: Offset,
    x: int,
    y: int,
    width: int,
    height: int,
)
    requires
        is_offset_of(offset, x, y, width, height),
    ensures
        x == offset.dx + width / 2,
        y == offset.dy + height / 2,
        forall|x2: int, y2: int| #[trigger]
            is_offset_of(offset, x2, y2, width, height) ==> x2 == x && y2 == y,
{
}

/// Bands keep the frame's order: seed number `k` of a band is the offset of
/// the frame's pixel number `tile.row_start * width + k`, counted row by row
/// from the top.  Outcomes gathered band after band are therefore in the
/// order in which a frame is rendered.
pub proof fn lemma_band_seed_is_frame_pixel(seeds: Seq<Offset>, tile: Tile, height: int, k: int)
    requires
        is_band_seeds(seeds, tile, height),
        0 <= k < seeds.len(),
    ensures
        ({
            let width = tile.width as int;
            let number = tile.row_start * width + k;
            is_offset_of(seeds[k], number % width, number / width, width, height)
        }),
{
    let width = tile.width as int;
    let number = tile.row_start * width + k;
    assert(width > 0) by (nonlinear_arith)
        requires
            0 <= k < tile.row_count * width,
            width >= 0,
    ;
    vstd::arithmetic::div_mod::lemma_fundamental_div_mod(k, width);
    assert(number == (tile.row_start + k / width) * width + k % width) by (nonlinear_arith)
        requires
            number == tile.row_start * width + k,
            k == width * (k / width) + k % width,
    ;
    vstd::arithmetic::div_mod::lemma_fundamental_div_mod_converse(
        number,
        width,
        tile.row_start + k / width,
        k % width,
    );
}

} // verus!
