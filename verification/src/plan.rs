//! A validated frame configuration and the operations that depend on it.

use vstd::prelude::*;
use crate::color::{ColorMode, Sample};
use crate::error::RenderError;
use crate::escape::{EscapeCounter, EscapeView};
use crate::lattice::{is_band_seeds, is_offset_of, Offset};
use crate::raster::{
    banded_bytes, lemma_band_bytes, lemma_banding_does_not_show, partial_render, pixel_bytes,
    FrameBuffer, FrameView,
};
use crate::tile::{is_band, is_partition, lemma_partition_shape, partition, Tile};

verus! {

/// What a plan stands for: the settings of one frame.
pub struct PlanView {
    pub width: int,
    pub height: int,
    pub band_height: int,
    pub max_iterations: int,
    pub mode: ColorMode,
}

impl PlanView {
    /// The settings describe a frame that can be rendered.
    pub open spec fn wf(self) -> bool {
        &&& 0 < self.width <= i32::MAX
        &&& 0 < self.height <= i32::MAX
        &&& 0 < self.band_height
        &&& 0 <= self.max_iterations <= i32::MAX
        &&& 3 * (self.height * self.width) <= usize::MAX
    }

    /// The number of pixels in the frame.
    pub open spec fn pixels(self) -> int {
        self.height * self.width
    }

    /// `tile` is as wide as the frame and lies within its rows.
    pub open spec fn holds(self, tile: Tile) -> bool {
        tile.width == self.width && tile.row_start + tile.row_count <= self.height
    }

    /// The frame that these settings make of the iteration outcomes
    /// `samples`, one per pixel, row by row from the top.
    pub open spec fn frame(self, samples: Seq<Sample>) -> FrameView {
        FrameView {
            width: self.width,
            height: self.height,
            bytes: pixel_bytes(samples, self.max_iterations, self.mode),
        }
    }
}

/// The settings of one frame, checked once.
#[derive(Clone, Copy, Debug)]
pub struct RenderPlan {
    width: usize,
    height: usize,
    band_height: usize,
    max_iterations: i32,
    mode: ColorMode,
}

impl View for RenderPlan {
    type V = PlanView;

    closed spec fn view(&self) -> PlanView {
        PlanView {
            width: self.width as int,
            height: self.height as int,
            band_height: self.band_height as int,
            max_iterations: self.max_iterations as int,
            mode: self.mode,
        }
    }
}

impl RenderPlan {
    #[verifier::type_invariant]
    spec fn valid(self) -> bool {
        self@.wf()
    }

    /// Checks the settings of a frame.
    ///
    /// A raster without columns or rows is refused first, then a negative
    /// iteration budget; everything else is accepted.
    pub fn new(
        width: i32,
        height: i32,
        max_iterations: i32,
        band_height: usize,
        mode: ColorMode,
    ) -> (plan: Result<RenderPlan, RenderError>)
        requires
            band_height > 0,
            width > 0 && height > 0 ==> 3 * (height * width) <= usize::MAX,
        ensures
            width <= 0 || height <= 0 ==> plan matches Err(RenderError::InvalidDimension),
            width > 0 && height > 0 && max_iterations < 0 ==> plan matches Err(
                RenderError::InvalidIterationBound,
            ),
            width > 0 && height > 0 && max_iterations >= 0 ==> (plan matches Ok(accepted)
                && accepted@.wf() && accepted@ == (PlanView {
                width: width as int,
                height: height as int,
                band_height: band_height as int,
                max_iterations: max_iterations as int,
                mode,
            })),
    {
        if width <= 0 || height <= 0 {
            return Err(RenderError::InvalidDimension);
        }
        if max_iterations < 0 {
            return Err(RenderError::InvalidIterationBound);
        }
        Ok(
            RenderPlan {
                width: width as usize,
                height: height as usize,
                band_height,
                max_iterations,
                mode,
            },
        )
    }

    /// Pixels per row.
    pub fn width(&self) -> (width: usize)
        ensures
            width == self@.width,
            self@.wf(),
    {
        proof {
            use_type_invariant(self);
        }
        self.width
    }

    /// Rows.
    pub fn height(&self) -> (height: usize)
        ensures
            height == self@.height,
            self@.wf(),
    {
        proof {
            use_type_invariant(self);
        }
        self.height
    }

    /// Rows per band.
    pub fn band_height(&self) -> (band_height: usize)
        ensures
            band_height == self@.band_height,
            self@.wf(),
    {
        proof {
            use_type_invariant(self);
        }
        self.band_height
    }

    /// The iteration budget of every pixel.
    pub fn max_iterations(&self) -> (max_iterations: i32)
        ensures
            max_iterations == self@.max_iterations,
            self@.wf(),
    {
        proof {
            use_type_invariant(self);
        }
        self.max_iterations
    }

    /// The colouring policy.
    pub fn mode(&self) -> (mode: ColorMode)
        ensures
            mode == self@.mode,
    {
        self.mode
    }

    /// Pixels in the frame.
    pub fn pixels(&self) -> (pixels: usize)
        ensures
            pixels == self@.pixels(),
            self@.wf(),
    {
        proof {
            use_type_invariant(self);
        }
        self.height * self.width
    }

    /// The bands of the frame, from the top.
    pub fn tiles(&self) -> (tiles: Vec<Tile>)
        ensures
            is_partition(tiles@, self@.width, self@.height, self@.band_height),
            forall|i: int| 0 <= i < tiles@.len() ==> self@.holds(#[trigger] tiles@[i]),
    {
        proof {
            use_type_invariant(self);
        }
        let tiles: Vec<Tile> = partition(self.width, self.height, self.band_height);
        proof {
            lemma_tiles_within(tiles@, self@.width, self@.height, self@.band_height);
        }
        tiles
    }

    /// Where pixel `(x, y)` lies relative to the centre of the frame.
    pub fn offset(&self, x: usize, y: usize) -> (offset: Offset)
        requires
            x < self@.width,
            y < self@.height,
        ensures
            is_offset_of(offset, x as int, y as int, self@.width, self@.height),
    {
        proof {
            use_type_invariant(self);
        }
        let half_width: i32 = (self.width / 2) as i32;
        let half_height: i32 = (self.height / 2) as i32;
        Offset { dx: x as i32 - half_width, dy: y as i32 - half_height }
    }

    /// The offsets of the pixels of one band, row by row.
    pub fn seeds(&self, tile: &Tile) -> (seeds: Vec<Offset>)
        requires
            self@.holds(*tile),
        ensures
            is_band_seeds(seeds@, *tile, self@.height),
    {
        proof {
            use_type_invariant(self);
        }
        let mut seeds: Vec<Offset> = Vec::new();
        let mut row: usize = 0;
        while row < tile.row_count
            invariant
                self@.wf(),
                self@.holds(*tile),
                row <= tile.row_count,
                seeds@.len() == row * tile.width,
                forall|i: int|
                    0 <= i < seeds@.len() ==> is_offset_of(
                        #[trigger] seeds@[i],
                        i % (tile.width as int),
                        tile.row_start + i / (tile.width as int),
                        tile.width as int,
                        self@.height,
                    ),
            decreases tile.row_count - row,
        {
            let y: usize = tile.row_start + row;
            let mut x: usize = 0;
            while x < tile.width
                invariant
                    self@.wf(),
                    self@.holds(*tile),
                    row < tile.row_count,
                    y == tile.row_start + row,
                    x <= tile.width,
                    seeds@.len() == row * tile.width + x,
                    forall|i: int|
                        0 <= i < seeds@.len() ==> is_offset_of(
                            #[trigger] seeds@[i],
                            i % (tile.width as int),
                            tile.row_start + i / (tile.width as int),
                            tile.width as int,
                            self@.height,
                        ),
                decreases tile.width - x,
            {
                proof {
                    lemma_cell_position(row as int, x as int, tile.width as int);
                }
                let offset: Offset = self.offset(x, y);
                seeds.push(offset);
                x = x + 1;
            }
            proof {
                assert((row + 1) * tile.width == row * tile.width + tile.width)
                    by (nonlinear_arith);
            }
            row = row + 1;
        }
        seeds
    }

    /// A fresh counter with the frame's iteration budget.
    pub fn counter(&self) -> (counter: EscapeCounter)
        ensures
            counter@ == (EscapeView { iterations: 0, max_iterations: self@.max_iterations }),
    {
        proof {
            use_type_invariant(self);
        }
        EscapeCounter::new(self.max_iterations).unwrap()
    }

    /// Renders the frame from the iteration outcomes of its pixels.
    ///
    /// `samples` holds one outcome per pixel, row by row from the top.  The
    /// rows are coloured band by band, each band into its own stretch of
    /// the buffer; the result does not depend on the band height.
    pub fn render(&self, samples: &[Sample]) -> (frame: FrameBuffer)
        requires
            samples@.len() == self@.pixels(),
        ensures
            frame@ == self@.frame(samples@),
            frame@.wf(),
    {
        proof {
            use_type_invariant(self);
        }
        let width: usize = self.width;
        let height: usize = self.height;
        let total: usize = 3 * (height * width);
        let mut bytes: Vec<u8> = vec![0u8; total];
        let tiles: Vec<Tile> = partition(width, height, self.band_height);
        let ghost expected = pixel_bytes(samples@, self@.max_iterations, self@.mode);
        proof {
            lemma_tiles_within(tiles@, self@.width, self@.height, self@.band_height);
            lemma_partition_shape(tiles@, self@.width, self@.height, self@.band_height);
        }
        let mut i: usize = 0;
        let mut done: usize = 0;
        while i < tiles.len()
            invariant
                self@.wf(),
                width == self@.width,
                height == self@.height,
                samples@.len() == height * width,
                total == 3 * (height * width),
                bytes@.len() == total,
                expected == pixel_bytes(samples@, self@.max_iterations, self@.mode),
                is_partition(tiles@, self@.width, self@.height, self@.band_height),
                forall|k: int| 0 <= k < tiles@.len() ==> self@.holds(#[trigger] tiles@[k]),
                forall|k: int|
                    0 <= k < tiles@.len() - 1 ==> (#[trigger] tiles@[k + 1]).row_start
                        == tiles@[k].row_start + tiles@[k].row_count,
                tiles@.len() > 0 ==> tiles@[0].row_start == 0,
                tiles@.len() > 0 ==> tiles@.last().row_start + tiles@.last().row_count == height,
                i <= tiles.len(),
                done <= height,
                i < tiles.len() ==> done == tiles@[i as int].row_start,
                i == tiles.len() ==> done == height,
                forall|j: int| 0 <= j < 3 * (done * width) ==> bytes@[j] == expected[j],
            decreases tiles.len() - i,
        {
            let tile: Tile = tiles[i];
            let next: usize = done + tile.row_count;
            proof {
                lemma_row_span(done as int, next as int, height as int, width as int);
            }
            let first: usize = done * width;
            let last: usize = next * width;
            let band: &[Sample] = vstd::slice::slice_subrange(samples, first, last);
            proof {
                lemma_band_bytes(
                    samples@,
                    first as int,
                    last as int,
                    self@.max_iterations,
                    self@.mode,
                );
                assert(tile.pixels() == last - first) by (nonlinear_arith)
                    requires
                        tile.pixels() == tile.row_count * tile.width,
                        tile.width == width,
                        first == done * width,
                        last == (done + tile.row_count) * width,
                ;
            }
            let ghost before = bytes@;
            {
                let whole: &mut [u8] = bytes.as_mut_slice();
                let (_head, rest) = whole.split_at_mut(3 * first);
                let (stretch, _tail) = rest.split_at_mut(3 * (last - first));
                partial_render(stretch, &tile, band, self.max_iterations, self.mode);
            }
            proof {
                assert forall|j: int| 0 <= j < 3 * last implies bytes@[j] == expected[j] by {
                    if j < 3 * first {
                        assert(bytes@[j] == before[j]);
                    } else {
                        assert(bytes@[j] == expected.subrange(3 * first, 3 * last)[j - 3 * first]);
                    }
                }
            }
            done = next;
            i = i + 1;
        }
        assert(bytes@ =~= expected);
        FrameBuffer::from_parts(width, height, bytes)
    }
}

/// Rendering is a function of the settings and the samples, and the band
/// height is not among what it depends on: two plans that differ in nothing
/// but the band height make the same frame of the same samples, and either
/// frame is what the plan's bands give when each is coloured by itself.
pub proof fn lemma_render_ignores_band_height(
    a: PlanView,
    b: PlanView,
    samples: Seq<Sample>,
    tiles_a: Seq<Tile>,
    tiles_b: Seq<Tile>,
)
    requires
        a.wf(),
        b.wf(),
        a.width == b.width,
        a.height == b.height,
        a.max_iterations == b.max_iterations,
        a.mode == b.mode,
        samples.len() == a.pixels(),
        is_partition(tiles_a, a.width, a.height, a.band_height),
        is_partition(tiles_b, b.width, b.height, b.band_height),
    ensures
        a.frame(samples) == b.frame(samples),
        banded_bytes(samples, tiles_a, a.max_iterations, a.mode) == a.frame(samples).bytes,
        banded_bytes(samples, tiles_b, b.max_iterations, b.mode) == b.frame(samples).bytes,
{
    lemma_banding_does_not_show(
        samples,
        tiles_a,
        a.width,
        a.height,
        a.band_height,
        a.max_iterations,
        a.mode,
    );
    lemma_banding_does_not_show(
        samples,
        tiles_b,
        b.width,
        b.height,
        b.band_height,
        b.max_iterations,
        b.mode,
    );
}

/// Cell `x` of row `row` in a grid of `width` columns has number
/// `row * width + x`, from which row and column are read back.
proof fn lemma_cell_position(row: int, x: int, width: int)
    requires
        0 <= row,
        0 <= x < width,
    ensures
        (row * width + x) / width == row,
        (row * width + x) % width == x,
{
    vstd::arithmetic::div_mod::lemma_fundamental_div_mod_converse(row * width + x, width, row, x);
}

/// The rows `from .. to` of a raster make a run of its pixels.
proof fn lemma_row_span(from: int, to: int, height: int, width: int)
    by (nonlinear_arith)
    requires
        0 <= from <= to <= height,
        0 <= width,
    ensures
        0 <= from * width <= to * width <= height * width,
        3 * (to * width) - 3 * (from * width) == 3 * (to * width - from * width),
{
}

/// Every band of a partition is as wide as the raster and lies within its
/// rows.
proof fn lemma_tiles_within(tiles: Seq<Tile>, width: int, height: int, band_height: int)
    requires
        band_height > 0,
        is_partition(tiles, width, height, band_height),
    ensures
        forall|i: int|
            0 <= i < tiles.len() ==> (#[trigger] tiles[i]).width == width && tiles[i].row_start
                + tiles[i].row_count <= height,
{
    lemma_partition_shape(tiles, width, height, band_height);
    assert forall|i: int| 0 <= i < tiles.len() implies (#[trigger] tiles[i]).width == width
        && tiles[i].row_start + tiles[i].row_count <= height by {
        assert(is_band(tiles[i], i, width, height, band_height));
    }
}

} // verus!
