//! The pixel buffer: three bytes per pixel, rows from the top, no padding.

use vstd::prelude::*;
use crate::color::{black, shade, shade_spec, ColorMode, Rgb, Sample};
use crate::tile::{is_band, is_partition, lemma_partition_shape, Tile};

verus! {

/// Bytes per pixel.
pub const BYTES_PER_PIXEL: usize = 3;

/// Channel `k` of a colour, in buffer order: red, green, blue.
pub open spec fn channel(color: Rgb, k: int) -> u8 {
    if k == 0 {
        color.r
    } else if k == 1 {
        color.g
    } else {
        color.b
    }
}

/// The bytes of a run of pixels: for each sample in turn the three
/// channels of its colour.
pub open spec fn pixel_bytes(samples: Seq<Sample>, max_iterations: int, mode: ColorMode) -> Seq<
    u8,
> {
    Seq::new(
        3 * samples.len(),
        |j: int| channel(shade_spec(samples[j / 3], max_iterations, mode), j % 3),
    )
}

/// The cell in row `row` and column `x` of a grid lies inside the grid.
proof fn lemma_cell_in_grid(row: int, x: int, rows: int, width: int)
    by (nonlinear_arith)
    requires
        0 <= row < rows,
        0 <= x < width,
    ensures
        0 <= row * width + x < rows * width,
        row * width + width <= rows * width,
        0 <= row * width,
{
}

/// Colours the pixels of one band into the band's own stretch of the
/// buffer.
///
/// `samples` holds the iteration outcomes of the band's pixels, row by row;
/// `buf` is exactly as long as the band.  Byte `row * pitch + 3 * x + k`
/// receives channel `k` of the pixel in row `row` and column `x` of the
/// band, where the pitch is three times the width.
pub fn partial_render(
    buf: &mut [u8],
    tile: &Tile,
    samples: &[Sample],
    max_iterations: i32,
    mode: ColorMode,
)
    requires
        samples@.len() == tile.pixels(),
        old(buf)@.len() == 3 * tile.pixels(),
    ensures
        final(buf)@ == pixel_bytes(samples@, max_iterations as int, mode),
{
    let total: usize = buf.len();
    let rows: usize = tile.row_count;
    let width: usize = tile.width;
    if rows == 0 || width == 0 {
        assert(tile.pixels() == 0) by (nonlinear_arith)
            requires
                tile.row_count == 0 || tile.width == 0,
                tile.pixels() == tile.row_count * tile.width,
        ;
        assert(buf@ =~= pixel_bytes(samples@, max_iterations as int, mode));
        return ;
    }
    proof {
        lemma_cell_in_grid(0, 0, rows as int, width as int);
    }
    let pitch: usize = width * BYTES_PER_PIXEL;
    let ghost expected = pixel_bytes(samples@, max_iterations as int, mode);
    let mut row: usize = 0;
    while row < rows
        invariant
            rows == tile.row_count,
            width == tile.width,
            width > 0,
            pitch == 3 * width,
            samples@.len() == tile.pixels(),
            buf@.len() == 3 * tile.pixels(),
            buf@.len() == total,
            expected == pixel_bytes(samples@, max_iterations as int, mode),
            row <= rows,
            forall|j: int| 0 <= j < 3 * (row * width) ==> buf@[j] == expected[j],
        decreases rows - row,
    {
        let mut x: usize = 0;
        while x < width
            invariant
                rows == tile.row_count,
                width == tile.width,
                pitch == 3 * width,
                samples@.len() == tile.pixels(),
                buf@.len() == 3 * tile.pixels(),
                buf@.len() == total,
                expected == pixel_bytes(samples@, max_iterations as int, mode),
                row < rows,
                x <= width,
                forall|j: int| 0 <= j < 3 * (row * width + x) ==> buf@[j] == expected[j],
            decreases width - x,
        {
            proof {
                lemma_cell_in_grid(row as int, x as int, rows as int, width as int);
                assert(row * pitch == 3 * (row * width)) by (nonlinear_arith)
                    requires
                        pitch == 3 * width,
                ;
            }
            let index: usize = row * width + x;
            let offset: usize = row * pitch + x * BYTES_PER_PIXEL;
            let color: Rgb = shade(&samples[index], max_iterations, mode);
            buf[offset] = color.r;
            buf[offset + 1] = color.g;
            buf[offset + 2] = color.b;
            x = x + 1;
        }
        proof {
            assert((row + 1) * width == row * width + width) by (nonlinear_arith);
        }
        row = row + 1;
    }
    assert(buf@ =~= expected);
}

/// The samples of the rows `row_start .. row_start + row_count` of a raster
/// that is `width` pixels wide.
pub open spec fn band_samples(samples: Seq<Sample>, tile: Tile) -> Seq<Sample> {
    samples.subrange(
        tile.row_start * tile.width,
        (tile.row_start + tile.row_count) * tile.width,
    )
}

/// A band's bytes are the band's stretch of the frame's bytes: colouring a
/// run of pixels by itself gives what colouring the whole frame puts there.
pub proof fn lemma_band_bytes(
    samples: Seq<Sample>,
    from: int,
    to: int,
    max_iterations: int,
    mode: ColorMode,
)
    requires
        0 <= from <= to <= samples.len(),
    ensures
        pixel_bytes(samples.subrange(from, to), max_iterations, mode) == pixel_bytes(
            samples,
            max_iterations,
            mode,
        ).subrange(3 * from, 3 * to),
{
    let band = pixel_bytes(samples.subrange(from, to), max_iterations, mode);
    let stretch = pixel_bytes(samples, max_iterations, mode).subrange(3 * from, 3 * to);
    assert(band.len() == stretch.len());
    assert forall|j: int| 0 <= j < band.len() implies band[j] == stretch[j] by {
        assert((3 * from + j) / 3 == from + j / 3);
        assert((3 * from + j) % 3 == j % 3);
    }
    assert(band =~= stretch);
}

/// The frame as the scheduler produces it: the bytes of the bands one
/// after the other, each band coloured from its own rows alone.
pub open spec fn banded_bytes(
    samples: Seq<Sample>,
    tiles: Seq<Tile>,
    max_iterations: int,
    mode: ColorMode,
) -> Seq<u8>
    decreases tiles.len(),
{
    if tiles.len() == 0 {
        Seq::empty()
    } else {
        banded_bytes(samples, tiles.drop_last(), max_iterations, mode) + pixel_bytes(
            band_samples(samples, tiles.last()),
            max_iterations,
            mode,
        )
    }
}

/// The row at which band number `count` of `bands` starts, or the end of
/// the raster where there is no such band.
spec fn rows_before(count: int, bands: int, height: int, band_height: int) -> int {
    if count < bands {
        count * band_height
    } else {
        height
    }
}

/// The first `count` bands, coloured one by one, fill the buffer up to the
/// row where band `count` starts with what colouring the frame at once
/// puts there.
proof fn lemma_banded_prefix(
    samples: Seq<Sample>,
    tiles: Seq<Tile>,
    count: int,
    width: int,
    height: int,
    band_height: int,
    max_iterations: int,
    mode: ColorMode,
)
    requires
        band_height > 0,
        width >= 0,
        is_partition(tiles, width, height, band_height),
        samples.len() == height * width,
        0 <= count <= tiles.len(),
    ensures
        count < tiles.len() ==> 0 <= count * band_height <= height,
        banded_bytes(samples, tiles.take(count), max_iterations, mode) == pixel_bytes(
            samples,
            max_iterations,
            mode,
        ).subrange(0, 3 * (rows_before(count, tiles.len() as int, height, band_height) * width)),
    decreases count,
{
    let whole = pixel_bytes(samples, max_iterations, mode);
    lemma_partition_shape(tiles, width, height, band_height);
    if count == 0 {
        assert(tiles.take(0).len() == 0);
        assert(banded_bytes(samples, tiles.take(0), max_iterations, mode) =~= whole.subrange(
            0,
            0,
        ));
        assert(0 * band_height == 0);
        assert(0 * width == 0);
        if tiles.len() == 0 {
            assert(height * width == 0) by (nonlinear_arith)
                requires
                    height <= 0,
                    width >= 0,
                    height * width >= 0,
            ;
        }
    } else {
        let tile = tiles[count - 1];
        lemma_banded_prefix(
            samples,
            tiles,
            count - 1,
            width,
            height,
            band_height,
            max_iterations,
            mode,
        );
        assert(is_band(tile, count - 1, width, height, band_height));
        assert(tiles.take(count).drop_last() =~= tiles.take(count - 1));
        assert(tiles.take(count).last() == tile);
        let from = tile.row_start as int;
        let to = tile.row_start + tile.row_count;
        assert(from == (count - 1) * band_height);
        if count < tiles.len() {
            assert(tiles[count].row_start == to);
            assert(is_band(tiles[count], count, width, height, band_height));
        } else {
            assert(tiles.last() == tile);
            assert(to == height);
        }
        assert(0 <= from * width <= to * width <= height * width) by (nonlinear_arith)
            requires
                0 <= from <= to <= height,
                0 <= width,
        ;
        lemma_band_bytes(samples, from * width, to * width, max_iterations, mode);
        assert(whole.subrange(0, 3 * (from * width)) + whole.subrange(
            3 * (from * width),
            3 * (to * width),
        ) =~= whole.subrange(0, 3 * (to * width)));
    }
}

/// Banding does not show: whatever the band height, the bands coloured one
/// by one and laid end to end are the frame coloured at once.  Two renders
/// of the same samples therefore agree byte for byte, however each was cut
/// into bands.
pub proof fn lemma_banding_does_not_show(
    samples: Seq<Sample>,
    tiles: Seq<Tile>,
    width: int,
    height: int,
    band_height: int,
    max_iterations: int,
    mode: ColorMode,
)
    requires
        band_height > 0,
        width >= 0,
        is_partition(tiles, width, height, band_height),
        samples.len() == height * width,
    ensures
        banded_bytes(samples, tiles, max_iterations, mode) == pixel_bytes(
            samples,
            max_iterations,
            mode,
        ),
{
    lemma_banded_prefix(
        samples,
        tiles,
        tiles.len() as int,
        width,
        height,
        band_height,
        max_iterations,
        mode,
    );
    assert(tiles.take(tiles.len() as int) =~= tiles);
    let whole = pixel_bytes(samples, max_iterations, mode);
    assert(whole.subrange(0, 3 * (height * width)) =~= whole);
}

/// What a frame buffer stands for: its size and its bytes.
pub struct FrameView {
    pub width: int,
    pub height: int,
    pub bytes: Seq<u8>,
}

impl FrameView {
    /// The byte stride between the starts of consecutive rows.
    pub open spec fn pitch(self) -> int {
        3 * self.width
    }

    /// The colour stored for pixel `(x, y)`.
    pub open spec fn pixel(self, x: int, y: int) -> Rgb {
        let at = y * self.pitch() + 3 * x;
        Rgb { r: self.bytes[at], g: self.bytes[at + 1], b: self.bytes[at + 2] }
    }

    /// The buffer holds exactly the raster: three bytes for every pixel.
    pub open spec fn wf(self) -> bool {
        &&& self.width > 0
        &&& self.height > 0
        &&& self.bytes.len() == 3 * (self.height * self.width)
    }
}

/// A complete frame: `height` rows of `width` pixels, three bytes each,
/// row `y` at bytes `y * pitch .. (y + 1) * pitch`.
#[derive(Debug)]
pub struct FrameBuffer {
    width: usize,
    height: usize,
    bytes: Vec<u8>,
}

impl View for FrameBuffer {
    type V = FrameView;

    closed spec fn view(&self) -> FrameView {
        FrameView { width: self.width as int, height: self.height as int, bytes: self.bytes@ }
    }
}

impl FrameBuffer {
    #[verifier::type_invariant]
    spec fn complete(self) -> bool {
        self@.wf()
    }

    /// Wraps the bytes of a finished frame.
    pub(crate) fn from_parts(width: usize, height: usize, bytes: Vec<u8>) -> (frame: FrameBuffer)
        requires
            width > 0,
            height > 0,
            bytes@.len() == 3 * (height * width),
        ensures
            frame@ == (FrameView { width: width as int, height: height as int, bytes: bytes@ }),
    {
        FrameBuffer { width, height, bytes }
    }

    /// Pixels per row.
    pub fn width(&self) -> (width: usize)
        ensures
            width == self@.width,
            self@.wf(),
    {
        proof {
            use_type_invariant(self);
        }
        self.width
    }

    /// Rows.
    pub fn height(&self) -> (height: usize)
        ensures
            height == self@.height,
            self@.wf(),
    {
        proof {
            use_type_invariant(self);
        }
        self.height
    }

    /// Bytes per row.
    pub fn pitch(&self) -> (pitch: usize)
        ensures
            pitch == self@.pitch(),
    {
        proof {
            use_type_invariant(self);
            lemma_cell_in_grid(0, 0, self.height as int, self.width as int);
            assert(self.bytes@.len() == self.bytes.len());
        }
        self.width * BYTES_PER_PIXEL
    }

    /// The colour of pixel `(x, y)`, or `None` outside the raster.
    pub fn pixel(&self, x: usize, y: usize) -> (color: Option<Rgb>)
        ensures
            x < self@.width && y < self@.height ==> color == Some(self@.pixel(x as int, y as int)),
            !(x < self@.width && y < self@.height) ==> color.is_none(),
    {
        proof {
            use_type_invariant(self);
        }
        if x < self.width && y < self.height {
            proof {
                lemma_cell_in_grid(y as int, x as int, self.height as int, self.width as int);
                assert(y * (3 * self.width) == 3 * (y * self.width)) by (nonlinear_arith);
                assert(self.bytes@.len() == self.bytes.len());
            }
            let at: usize = (y * self.width + x) * BYTES_PER_PIXEL;
            Some(Rgb { r: self.bytes[at], g: self.bytes[at + 1], b: self.bytes[at + 2] })
        } else {
            None
        }
    }

    /// The bytes of the frame, rows from the top.
    pub fn as_bytes(&self) -> (bytes: &[u8])
        ensures
            bytes@ == self@.bytes,
            self@.wf(),
    {
        proof {
            use_type_invariant(self);
        }
        self.bytes.as_slice()
    }

    /// Hands the bytes over.
    pub fn into_bytes(self) -> (bytes: Vec<u8>)
        ensures
            bytes@ == self@.bytes,
            self@.wf(),
    {
        proof {
            use_type_invariant(&self);
        }
        self.bytes
    }
}

/// The place of pixel `(x, y)` in the row-by-row order of a raster that is
/// `width` pixels wide.
pub open spec fn pixel_index(x: int, y: int, width: int) -> int {
    y * width + x
}

/// Where a frame's pixels are: in a frame rendered from `samples`, the
/// three bytes at `y * pitch + 3 * x` are the colour of sample
/// `y * width + x`; a pixel that used up its iteration budget is black.
pub proof fn lemma_frame_pixels(
    frame: FrameView,
    samples: Seq<Sample>,
    max_iterations: int,
    mode: ColorMode,
)
    requires
        frame.wf(),
        samples.len() == frame.height * frame.width,
        frame.bytes == pixel_bytes(samples, max_iterations, mode),
    ensures
        forall|x: int, y: int|
            0 <= x < frame.width && 0 <= y < frame.height ==> 0 <= #[trigger] pixel_index(
                x,
                y,
                frame.width,
            ) < samples.len(),
        forall|x: int, y: int|
            0 <= x < frame.width && 0 <= y < frame.height ==> #[trigger] frame.pixel(x, y)
                == shade_spec(samples[pixel_index(x, y, frame.width)], max_iterations, mode),
        forall|x: int, y: int|
            0 <= x < frame.width && 0 <= y < frame.height && samples[pixel_index(
                x,
                y,
                frame.width,
            )].iterations == max_iterations ==> #[trigger] frame.pixel(x, y) == black(),
{
    assert forall|x: int, y: int| 0 <= x < frame.width && 0 <= y < frame.height implies 0
        <= #[trigger] pixel_index(x, y, frame.width) < samples.len() by {
        lemma_cell_in_grid(y, x, frame.height, frame.width);
    }
    assert forall|x: int, y: int|
        0 <= x < frame.width && 0 <= y < frame.height implies #[trigger] frame.pixel(x, y)
        == shade_spec(samples[pixel_index(x, y, frame.width)], max_iterations, mode) by {
        let index = pixel_index(x, y, frame.width);
        let at = y * frame.pitch() + 3 * x;
        lemma_cell_in_grid(y, x, frame.height, frame.width);
        assert(at == 3 * index) by (nonlinear_arith)
            requires
                at == y * (3 * frame.width) + 3 * x,
                index == y * frame.width + x,
        ;
        assert((at + 1) / 3 == index && (at + 1) % 3 == 1);
        assert((at + 2) / 3 == index && (at + 2) % 3 == 2);
        assert(at / 3 == index && at % 3 == 0);
    }
}

} // verus!
