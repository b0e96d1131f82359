//! Horizontal bands: the partition of a raster's rows into tiles.

use vstd::prelude::*;
use vstd::arithmetic::div_mod::lemma_fundamental_div_mod;
use vstd::arithmetic::div_mod::lemma_fundamental_div_mod_converse;

verus! {

/// Rows per band where the caller has no preference.
pub const DEFAULT_BAND_HEIGHT: usize = 64;

/// A horizontal band of the raster: `row_count` full rows from `row_start`.
#[derive(Clone, Copy, Debug, PartialEq, Eq, Structural)]
pub struct Tile {
    pub row_start: usize,
    pub row_count: usize,
    pub width: usize,
}

impl Tile {
    /// Whether raster row `row` belongs to this band.
    pub open spec fn covers(self, row: int) -> bool {
        self.row_start <= row < self.row_start + self.row_count
    }

    /// The number of pixels in the band.
    pub open spec fn pixels(self) -> int {
        self.row_count * self.width
    }
}

/// How many bands of `band_height` rows it takes to hold `height` rows.
pub open spec fn band_count(height: int, band_height: int) -> int
    recommends
        band_height > 0,
{
    if height <= 0 {
        0
    } else {
        (height - 1) / band_height + 1
    }
}

/// The number of the band that holds raster row `row`.
pub open spec fn band_of(row: int, band_height: int) -> int
    recommends
        band_height > 0,
{
    row / band_height
}

/// The rows of band number `index`: a full band, or what is left of the
/// raster where less than a full band is left.
pub open spec fn band_rows(index: int, height: int, band_height: int) -> int {
    let rest = height - index * band_height;
    if rest < band_height {
        rest
    } else {
        band_height
    }
}

/// The rows of the last band: what is left over after the full bands, or a
/// full band where nothing is left over.
pub open spec fn last_band_rows(height: int, band_height: int) -> int
    recommends
        band_height > 0,
{
    if height % band_height == 0 {
        band_height
    } else {
        height % band_height
    }
}

/// `tile` is band number `index` of a `width` x `height` raster.
pub open spec fn is_band(tile: Tile, index: int, width: int, height: int, band_height: int) -> bool {
    &&& tile.row_start == index * band_height
    &&& tile.row_count == band_rows(index, height, band_height)
    &&& tile.width == width
}

/// `tiles` lists the bands of a `width` x `height` raster from the top.
pub open spec fn is_partition(tiles: Seq<Tile>, width: int, height: int, band_height: int) -> bool {
    &&& tiles.len() == band_count(height, band_height)
    &&& forall|i: int|
        0 <= i < tiles.len() ==> is_band(#[trigger] tiles[i], i, width, height, band_height)
}

/// Cuts the rows `0..height` into bands of `band_height` rows, the last one
/// shorter where `height` is no multiple of `band_height`.
pub fn partition(width: usize, height: usize, band_height: usize) -> (tiles: Vec<Tile>)
    requires
        band_height > 0,
    ensures
        is_partition(tiles@, width as int, height as int, band_height as int),
{
    let mut tiles: Vec<Tile> = Vec::new();
    let mut start: usize = 0;
    assert(0 * band_height == 0);
    while start < height
        invariant
            band_height > 0,
            start <= height,
            start < height ==> start == tiles.len() * band_height,
            start == height ==> tiles.len() == band_count(height as int, band_height as int),
            forall|i: int|
                0 <= i < tiles.len() ==> is_band(
                    #[trigger] tiles@[i],
                    i,
                    width as int,
                    height as int,
                    band_height as int,
                ),
        decreases height - start,
    {
        let rest: usize = height - start;
        let rows: usize = if rest < band_height {
            rest
        } else {
            band_height
        };
        let ghost index = tiles.len() as int;
        proof {
            lemma_band_count_at(index, rows as int - 1, height as int, band_height as int);
            assert((index + 1) * band_height == index * band_height + band_height)
                by (nonlinear_arith);
        }
        tiles.push(Tile { row_start: start, row_count: rows, width });
        start = start + rows;
    }
    tiles
}

/// A raster whose last row is row `offset` of band `index` has
/// `index + 1` bands.
proof fn lemma_band_count_at(index: int, offset: int, height: int, band_height: int)
    requires
        band_height > 0,
        index >= 0,
        0 <= offset < band_height,
    ensures
        height == index * band_height + offset + 1 ==> band_count(height, band_height) == index
            + 1,
{
    if height == index * band_height + offset + 1 {
        assert(index * band_height >= 0) by (nonlinear_arith)
            requires
                index >= 0,
                band_height > 0,
        ;
        assert(height - 1 == index * band_height + offset);
        lemma_fundamental_div_mod_converse(height - 1, band_height, index, offset);
    }
}

/// The bands cover the raster's rows exactly once: row `y` lies in band
/// `y / band_height` and in no other, and no band reaches outside the
/// raster.
pub proof fn lemma_partition_covers_once(
    tiles: Seq<Tile>,
    width: int,
    height: int,
    band_height: int,
)
    requires
        band_height > 0,
        is_partition(tiles, width, height, band_height),
    ensures
        forall|y: int|
            0 <= y < height ==> 0 <= #[trigger] band_of(y, band_height) < tiles.len()
                && tiles[band_of(y, band_height)].covers(y),
        forall|i: int, y: int|
            0 <= i < tiles.len() && #[trigger] tiles[i].covers(y) ==> 0 <= y < height && i
                == band_of(y, band_height),
{
    assert forall|y: int| 0 <= y < height implies 0 <= #[trigger] band_of(y, band_height)
        < tiles.len() && tiles[band_of(y, band_height)].covers(y) by {
        lemma_row_band(y, height, band_height);
        assert(is_band(
            tiles[band_of(y, band_height)],
            band_of(y, band_height),
            width,
            height,
            band_height,
        ));
    }
    assert forall|i: int, y: int| 0 <= i < tiles.len() && #[trigger] tiles[i].covers(y) implies 0
        <= y < height && i == band_of(y, band_height) by {
        let offset = y - i * band_height;
        assert(is_band(tiles[i], i, width, height, band_height));
        assert(i * band_height >= 0) by (nonlinear_arith)
            requires
                i >= 0,
                band_height > 0,
        ;
        assert(y == i * band_height + offset);
        lemma_fundamental_div_mod_converse(y, band_height, i, offset);
    }
}

/// Row `y` of the raster lies in band `y / band_height`, which exists.
proof fn lemma_row_band(y: int, height: int, band_height: int)
    requires
        band_height > 0,
        0 <= y < height,
    ensures
        0 <= y / band_height < band_count(height, band_height),
        (y / band_height) * band_height <= y,
        y < (y / band_height) * band_height + band_rows(y / band_height, height, band_height),
{
    let q = y / band_height;
    let last = (height - 1) / band_height;
    lemma_fundamental_div_mod(y, band_height);
    lemma_fundamental_div_mod(height - 1, band_height);
    assert(q * band_height == band_height * q) by (nonlinear_arith);
    assert(0 <= q <= last) by (nonlinear_arith)
        requires
            band_height > 0,
            0 <= y <= height - 1,
            y == band_height * q + y % band_height,
            height - 1 == band_height * last + (height - 1) % band_height,
            0 <= y % band_height < band_height,
            0 <= (height - 1) % band_height < band_height,
    ;
}

/// The shape of the partition: bands follow one another without gap or
/// overlap from row 0 to row `height`, all but the last are `band_height`
/// rows high, and the last holds the `height % band_height` rows that are
/// left over, or a full band where nothing is left over.
pub proof fn lemma_partition_shape(tiles: Seq<Tile>, width: int, height: int, band_height: int)
    requires
        band_height > 0,
        is_partition(tiles, width, height, band_height),
    ensures
        height > 0 ==> tiles.len() > 0,
        tiles.len() > 0 ==> tiles[0].row_start == 0,
        forall|i: int| 0 <= i < tiles.len() ==> (#[trigger] tiles[i]).row_count > 0,
        forall|i: int|
            0 <= i < tiles.len() - 1 ==> (#[trigger] tiles[i]).row_count == band_height
                && tiles[i + 1].row_start == tiles[i].row_start + tiles[i].row_count,
        tiles.len() > 0 ==> tiles.last().row_start + tiles.last().row_count == height,
        tiles.len() > 0 ==> tiles.last().row_count == last_band_rows(height, band_height),
{
    if tiles.len() > 0 {
        let n = tiles.len() as int;
        let last = (height - 1) / band_height;
        let r = (height - 1) % band_height;
        lemma_fundamental_div_mod(height - 1, band_height);
        assert(last == n - 1);
        assert(last * band_height == band_height * last) by (nonlinear_arith);
        assert(is_band(tiles[n - 1], n - 1, width, height, band_height));
        assert(is_band(tiles[0], 0, width, height, band_height));
        assert(height - last * band_height == r + 1);
        if r + 1 == band_height {
            assert(height == (last + 1) * band_height + 0) by (nonlinear_arith)
                requires
                    height - 1 == band_height * last + r,
                    r + 1 == band_height,
            ;
            lemma_fundamental_div_mod_converse(height, band_height, last + 1, 0);
        } else {
            assert(height == last * band_height + (r + 1));
            lemma_fundamental_div_mod_converse(height, band_height, last, r + 1);
        }
        assert forall|i: int| 0 <= i < tiles.len() implies (#[trigger] tiles[i]).row_count
            > 0 by {
            assert(is_band(tiles[i], i, width, height, band_height));
            assert(i * band_height <= last * band_height) by (nonlinear_arith)
                requires
                    i <= last,
                    band_height > 0,
            ;
        }
        assert forall|i: int| 0 <= i < tiles.len() - 1 implies (#[trigger] tiles[i]).row_count
            == band_height && tiles[i + 1].row_start == tiles[i].row_start
            + tiles[i].row_count by {
            assert(is_band(tiles[i], i, width, height, band_height));
            assert(is_band(tiles[i + 1], i + 1, width, height, band_height));
            assert((i + 1) * band_height <= last * band_height) by (nonlinear_arith)
                requires
                    i + 1 <= last,
                    band_height > 0,
            ;
            assert((i + 1) * band_height == i * band_height + band_height) by (nonlinear_arith);
        }
    }
}

} // verus!
