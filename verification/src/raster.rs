//! Pixel windows and the extent of one raster band.

use vstd::prelude::*;
use crate::errors::OxrsError;
use crate::sample::{is_finite, is_finite_bits, Sample};

verus! {

/// A block of cells by its first and last row and column, both included.
/// It may reach beyond the raster, or lie wholly outside it.
#[derive(Clone, Copy, Debug, PartialEq, Eq, Structural)]
pub struct Window {
    pub row_start: isize,
    pub row_end: isize,
    pub col_start: isize,
    pub col_end: isize,
}

impl Window {
    /// A window is empty when an end lies before its start.
    pub open spec fn spec_is_empty(&self) -> bool {
        self.row_end < self.row_start || self.col_end < self.col_start
    }

    /// The number of rows of a window that is not empty.
    pub open spec fn rows(&self) -> int {
        self.row_end - self.row_start + 1
    }

    /// The number of columns of a window that is not empty.
    pub open spec fn cols(&self) -> int {
        self.col_end - self.col_start + 1
    }

    /// Whether the cell lies in the window.
    pub open spec fn holds(&self, row: int, col: int) -> bool {
        self.row_start <= row <= self.row_end && self.col_start <= col <= self.col_end
    }

    /// Whether the window is empty.
    pub fn is_empty(&self) -> (r: bool)
        ensures
            r == self.spec_is_empty(),
    {
        self.row_end < self.row_start || self.col_end < self.col_start
    }
}

/// What is known of one open raster band: its index, its size, and the
/// nodata value in force, by its pattern.
#[derive(Clone, Copy, Debug)]
pub struct RasterContext {
    band_index: usize,
    nodata: Option<u64>,
    width: usize,
    height: usize,
}

impl RasterContext {
    #[verifier::type_invariant]
    spec fn sized(&self) -> bool {
        self.width <= isize::MAX && self.height <= isize::MAX && self.band_index >= 1
    }

    /// The number of columns.
    pub closed spec fn spec_width(&self) -> int {
        self.width as int
    }

    /// The number of rows.
    pub closed spec fn spec_height(&self) -> int {
        self.height as int
    }

    /// The index of the band, counted from 1.
    pub closed spec fn spec_band_index(&self) -> int {
        self.band_index as int
    }

    /// The pattern of the nodata value in force, if there is one.
    pub closed spec fn spec_nodata(&self) -> Option<u64> {
        self.nodata
    }

    /// Whether the cell lies in the raster.
    pub open spec fn inside(&self, row: int, col: int) -> bool {
        0 <= row < self.spec_height() && 0 <= col < self.spec_width()
    }

    /// Whether an edge of the window lies outside the raster: its first or
    /// its last row outside the rows, or its first or its last column outside
    /// the columns. On a window that is not empty only the first can lie
    /// before the raster and only the last behind it.
    pub open spec fn beyond(&self, window: Window) -> bool {
        ||| window.row_start < 0
        ||| window.row_start >= self.spec_height()
        ||| window.row_end < 0
        ||| window.row_end >= self.spec_height()
        ||| window.col_start < 0
        ||| window.col_start >= self.spec_width()
        ||| window.col_end < 0
        ||| window.col_end >= self.spec_width()
    }

    /// The part of the window that lies in the raster, if any.
    pub open spec fn clipped(&self, window: Window) -> Option<Window> {
        let part = Window {
            row_start: if window.row_start < 0 {
                0isize
            } else {
                window.row_start
            },
            row_end: if window.row_end < self.spec_height() - 1 {
                window.row_end
            } else {
                (self.spec_height() - 1) as isize
            },
            col_start: if window.col_start < 0 {
                0isize
            } else {
                window.col_start
            },
            col_end: if window.col_end < self.spec_width() - 1 {
                window.col_end
            } else {
                (self.spec_width() - 1) as isize
            },
        };
        if part.spec_is_empty() {
            None
        } else {
            Some(part)
        }
    }

    /// The index of band number `band`; a number below 1 is refused as an
    /// invalid argument.
    pub fn band_index_of(band: isize) -> (r: Result<usize, OxrsError>)
        ensures
            band >= 1 ==> r == Ok::<usize, OxrsError>(band as usize),
            band < 1 ==> (r matches Err(e) && e.is_invalid_argument("band must be >= 1"@)),
    {
        if band < 1 {
            return Err(OxrsError::InvalidArgument(String::from_str("band must be >= 1")));
        }
        Ok(band as usize)
    }

    /// The context of band number `band` of a raster of `width` columns and
    /// `height` rows.
    ///
    /// A band number below 1 is an invalid argument. The nodata value in force
    /// is `nodata` where it is given, else that of the band, `band_nodata`.
    /// A raster whose transform has no inverse cannot be used: that is a
    /// runtime error.
    pub fn open(
        band: isize,
        nodata: Option<u64>,
        band_nodata: Option<u64>,
        width: usize,
        height: usize,
        invertible: bool,
    ) -> (r: Result<RasterContext, OxrsError>)
        requires
            width <= isize::MAX,
            height <= isize::MAX,
        ensures
            band < 1 ==> (r matches Err(e) && e.is_invalid_argument("band must be >= 1"@)),
            band >= 1 && !invertible ==> (r matches Err(e) && e.is_runtime(
                "unable to invert raster geotransform"@,
            )),
            band >= 1 && invertible ==> (r matches Ok(ctx) && ctx.spec_band_index() == band
                && ctx.spec_width() == width && ctx.spec_height() == height && ctx.spec_nodata()
                == (if nodata.is_some() {
                nodata
            } else {
                band_nodata
            })),
    {
        let band_index: usize = match RasterContext::band_index_of(band) {
            Ok(index) => index,
            Err(e) => {
                return Err(e);
            },
        };
        let source_nodata = match nodata {
            Some(v) => Some(v),
            None => band_nodata,
        };
        if !invertible {
            return Err(
                OxrsError::Runtime(String::from_str("unable to invert raster geotransform")),
            );
        }
        Ok(RasterContext { band_index, nodata: source_nodata, width, height })
    }

    /// The number of columns.
    pub fn width(&self) -> (w: usize)
        ensures
            w == self.spec_width(),
            w <= isize::MAX,
    {
        proof {
            use_type_invariant(self);
        }
        self.width
    }

    /// The number of rows.
    pub fn height(&self) -> (h: usize)
        ensures
            h == self.spec_height(),
            h <= isize::MAX,
    {
        proof {
            use_type_invariant(self);
        }
        self.height
    }

    /// The index of the band, counted from 1.
    pub fn band_index(&self) -> (b: usize)
        ensures
            b == self.spec_band_index(),
            b >= 1,
    {
        proof {
            use_type_invariant(self);
        }
        self.band_index
    }

    /// The pattern of the nodata value in force, if there is one.
    pub fn nodata(&self) -> (n: Option<u64>)
        ensures
            n == self.spec_nodata(),
    {
        self.nodata
    }

    /// Whether the cell lies in the raster.
    pub fn is_inside(&self, row: isize, col: isize) -> (r: bool)
        ensures
            r == self.inside(row as int, col as int),
    {
        proof {
            use_type_invariant(self);
        }
        row >= 0 && row < self.height as isize && col >= 0 && col < self.width as isize
    }

    /// Whether an edge of the window lies outside the raster.
    pub fn window_beyond_extent(&self, window: Window) -> (r: bool)
        ensures
            r == self.beyond(window),
    {
        proof {
            use_type_invariant(self);
        }
        let height: isize = self.height as isize;
        let width: isize = self.width as isize;
        window.row_start < 0 || window.row_start >= height || window.row_end < 0 || window.row_end
            >= height || window.col_start < 0 || window.col_start >= width || window.col_end < 0
            || window.col_end >= width
    }

    /// The part of the window that lies in the raster; absent where no cell
    /// of the window does.
    pub fn clip_window(&self, window: Window) -> (r: Option<Window>)
        ensures
            r == self.clipped(window),
    {
        proof {
            use_type_invariant(self);
        }
        let last_row: isize = self.height as isize - 1;
        let last_col: isize = self.width as isize - 1;
        let part = Window {
            row_start: if window.row_start < 0 {
                0
            } else {
                window.row_start
            },
            row_end: if window.row_end < last_row {
                window.row_end
            } else {
                last_row
            },
            col_start: if window.col_start < 0 {
                0
            } else {
                window.col_start
            },
            col_end: if window.col_end < last_col {
                window.col_end
            } else {
                last_col
            },
        };
        if part.row_end < part.row_start || part.col_end < part.col_start {
            None
        } else {
            Some(part)
        }
    }
}

/// What reading a window takes: the size of the buffer to hand back, and the
/// part of the window to fetch from the band, if any.
#[derive(Clone, Copy, Debug, PartialEq, Eq, Structural)]
pub struct ReadPlan {
    pub width: usize,
    pub height: usize,
    pub overlap: Option<Window>,
}

/// The cell in row `r` and column `c` of a buffer of `width` columns, which
/// holds its rows one after the other.
pub open spec fn cell_at(buffer: Seq<u64>, width: int, r: int, c: int) -> u64 {
    buffer[r * width + c]
}

/// What the buffer of a window holds in its row `r` and column `c`: the cell
/// that was fetched, where that place of the window lies in the raster, and
/// the fill value elsewhere. `fetched` holds the part of the window that lies
/// in the raster, row after row.
pub open spec fn window_cell(
    ctx: RasterContext,
    window: Window,
    fill: u64,
    fetched: Seq<u64>,
    r: int,
    c: int,
) -> u64 {
    let row = window.row_start + r;
    let col = window.col_start + c;
    match ctx.clipped(window) {
        Some(part) => if part.holds(row, col) {
            cell_at(fetched, part.cols(), row - part.row_start, col - part.col_start)
        } else {
            fill
        },
        None => fill,
    }
}

/// The first `upto` rows of the buffer of a window hold what they are to
/// hold.
pub open spec fn rows_placed(
    buffer: Seq<u64>,
    ctx: RasterContext,
    window: Window,
    fill: u64,
    fetched: Seq<u64>,
    upto: int,
) -> bool {
    forall|row: int, col: int|
        0 <= row < upto && 0 <= col < window.cols() ==> #[trigger] cell_at(
            buffer,
            window.cols(),
            row,
            col,
        ) == window_cell(ctx, window, fill, fetched, row, col)
}

/// The first `upto` cells of row `row` of the buffer of a window hold what
/// they are to hold.
pub open spec fn row_placed(
    buffer: Seq<u64>,
    ctx: RasterContext,
    window: Window,
    fill: u64,
    fetched: Seq<u64>,
    row: int,
    upto: int,
) -> bool {
    forall|col: int|
        0 <= col < upto ==> #[trigger] cell_at(buffer, window.cols(), row, col) == window_cell(
            ctx,
            window,
            fill,
            fetched,
            row,
            col,
        )
}

/// Where the part of a window that lies in the raster begins in the
/// window's buffer, how large it is, and that `total` cells were fetched for
/// it; all of them 0 or of no account where there is no such part.
pub open spec fn part_is(
    part: Option<Window>,
    window: Window,
    top: usize,
    left: usize,
    part_rows: usize,
    part_cols: usize,
    total: usize,
) -> bool {
    match part {
        Some(p) => top == p.row_start - window.row_start && left == p.col_start
            - window.col_start && part_rows == p.rows() && part_cols == p.cols() && total
            == p.rows() * p.cols(),
        None => part_rows == 0 && part_cols == 0,
    }
}

/// A place in a grid of `width` columns lies before the end of its row, and
/// so before every place of a later row.
pub proof fn lemma_row_major(width: int, height: int, r: int, c: int)
    requires
        0 <= r < height,
        0 <= c < width,
    ensures
        0 <= r * width + c < (r + 1) * width,
        (r + 1) * width <= height * width,
        (r + 1) * width == r * width + width,
{
    assert(0 <= r * width) by (nonlinear_arith)
        requires
            0 <= r,
            0 <= width,
    ;
    assert((r + 1) * width == r * width + width) by (nonlinear_arith);
    assert((r + 1) * width <= height * width) by (nonlinear_arith)
        requires
            r + 1 <= height,
            0 <= width,
    ;
}

impl RasterContext {
    /// Whether a window of this size can be read: its cells can be counted
    /// in a buffer's length.
    pub open spec fn readable(&self, window: Window, boundless: bool) -> bool {
        !window.spec_is_empty() && (boundless || !self.beyond(window)) ==> window.rows()
            * window.cols() <= isize::MAX
    }

    /// Whether the window can be read.
    pub fn can_read(&self, window: Window, boundless: bool) -> (r: bool)
        ensures
            r == self.readable(window, boundless),
    {
        if window.is_empty() {
            return true;
        }
        if self.window_beyond_extent(window) && !boundless {
            return true;
        }
        let limit: i128 = isize::MAX as i128;
        let rows: i128 = window.row_end as i128 - window.row_start as i128 + 1;
        let cols: i128 = window.col_end as i128 - window.col_start as i128 + 1;
        if rows > limit || cols > limit {
            proof {
                assert(rows * cols > limit) by (nonlinear_arith)
                    requires
                        rows >= 1,
                        cols >= 1,
                        rows > limit || cols > limit,
                ;
            }
            return false;
        }
        proof {
            assert(0 <= rows * cols <= limit * limit) by (nonlinear_arith)
                requires
                    1 <= rows <= limit,
                    1 <= cols <= limit,
            ;
            assert(limit * limit <= i128::MAX) by (nonlinear_arith)
                requires
                    0 <= limit <= 0x7FFF_FFFF_FFFF_FFFF,
            ;
        }
        rows * cols <= limit
    }

    /// What reading `window` takes, before anything is fetched.
    ///
    /// An empty window takes an empty buffer and no fetch. A window that
    /// reaches beyond the raster is an invalid argument unless `boundless` is
    /// set. Otherwise the buffer has the size of the window, and the part of
    /// the window that lies in the raster is to be fetched.
    pub fn plan_window_read(&self, window: Window, boundless: bool) -> (r: Result<
        ReadPlan,
        OxrsError,
    >)
        requires
            self.readable(window, boundless),
        ensures
            window.spec_is_empty() ==> r == Ok::<ReadPlan, OxrsError>(
                ReadPlan { width: 0, height: 0, overlap: None },
            ),
            !window.spec_is_empty() && self.beyond(window) && !boundless ==> (r matches Err(e)
                && e.is_invalid_argument(
                "Window/bounds is outside dataset extent, boundless reads are disabled"@,
            )),
            !window.spec_is_empty() && (boundless || !self.beyond(window)) ==> (r matches Ok(plan)
                && plan.width == window.cols() && plan.height == window.rows() && plan.overlap
                == self.clipped(window)),
    {
        if window.is_empty() {
            return Ok(ReadPlan { width: 0, height: 0, overlap: None });
        }
        if self.window_beyond_extent(window) && !boundless {
            return Err(
                OxrsError::InvalidArgument(
                    String::from_str(
                        "Window/bounds is outside dataset extent, boundless reads are disabled",
                    ),
                ),
            );
        }
        proof {
            let rows = window.rows();
            let cols = window.cols();
            assert(rows <= isize::MAX && cols <= isize::MAX) by (nonlinear_arith)
                requires
                    rows >= 1,
                    cols >= 1,
                    rows * cols <= isize::MAX,
            ;
        }
        let width: usize = (window.col_end - window.col_start + 1) as usize;
        let height: usize = (window.row_end - window.row_start + 1) as usize;
        Ok(ReadPlan { width, height, overlap: self.clip_window(window) })
    }

    /// The buffer of `window`: its width, its height, and its cells row after
    /// row. `fetched` holds the cells of the part of the window that lies in
    /// the raster, row after row, as `plan_window_read` asked for them.
    ///
    /// An empty window gives an empty buffer of no width and no height. A
    /// window that reaches beyond the raster is an invalid argument unless
    /// `boundless` is set. Otherwise each cell of the buffer holds the cell
    /// fetched for its place, or `fill` where its place lies outside the
    /// raster.
    pub fn read_window_f64_boundless(
        &self,
        window: Window,
        boundless: bool,
        fill: u64,
        fetched: &[u64],
    ) -> (r: Result<(usize, usize, Vec<u64>), OxrsError>)
        requires
            self.readable(window, boundless),
            !window.spec_is_empty() && (boundless || !self.beyond(window)) ==> (
            self.clipped(window) matches Some(part) ==> fetched@.len() == part.rows()
                * part.cols()),
        ensures
            window.spec_is_empty() ==> (r matches Ok(out) && out.0 == 0 && out.1 == 0
                && out.2@.len() == 0),
            !window.spec_is_empty() && self.beyond(window) && !boundless ==> (r matches Err(e)
                && e.is_invalid_argument(
                "Window/bounds is outside dataset extent, boundless reads are disabled"@,
            )),
            !window.spec_is_empty() && (boundless || !self.beyond(window)) ==> (r matches Ok(out)
                && out.0 == window.cols() && out.1 == window.rows() && out.2@.len()
                == window.rows() * window.cols() && rows_placed(
                out.2@,
                *self,
                window,
                fill,
                fetched@,
                window.rows(),
            )),
    {
        let plan = match self.plan_window_read(window, boundless) {
            Ok(plan) => plan,
            Err(e) => {
                return Err(e);
            },
        };
        let width: usize = plan.width;
        let height: usize = plan.height;
        let mut out: Vec<u64> = Vec::new();
        if window.is_empty() {
            return Ok((width, height, out));
        }
        proof {
            let rows = window.rows();
            let cols = window.cols();
            assert(rows <= isize::MAX && cols <= isize::MAX) by (nonlinear_arith)
                requires
                    rows >= 1,
                    cols >= 1,
                    rows * cols <= isize::MAX,
            ;
        }
        // Where the fetched part begins in the buffer, and its size.
        let (top, left, part_rows, part_cols): (usize, usize, usize, usize) = match plan.overlap {
            Some(part) => (
                (part.row_start - window.row_start) as usize,
                (part.col_start - window.col_start) as usize,
                (part.row_end - part.row_start + 1) as usize,
                (part.col_end - part.col_start + 1) as usize,
            ),
            None => (0, 0, 0, 0),
        };
        let total: usize = fetched.len();
        let ghost w = width as int;
        let ghost h = height as int;
        let mut r: usize = 0;
        while r < height
            invariant
                w == width == window.cols(),
                h == height == window.rows(),
                w >= 1,
                h * w <= isize::MAX,
                r <= height,
                total == fetched@.len(),
                part_is(self.clipped(window), window, top, left, part_rows, part_cols, total),
                out@.len() == r * w,
                rows_placed(out@, *self, window, fill, fetched@, r as int),
            decreases height - r,
        {
            let in_rows: bool = r >= top && r - top < part_rows;
            let mut c: usize = 0;
            while c < width
                invariant
                    w == width == window.cols(),
                    h == height == window.rows(),
                    w >= 1,
                    h * w <= isize::MAX,
                    r < height,
                    c <= width,
                    in_rows == (r >= top && r - top < part_rows),
                    total == fetched@.len(),
                    part_is(self.clipped(window), window, top, left, part_rows, part_cols, total),
                    out@.len() == r * w + c,
                    rows_placed(out@, *self, window, fill, fetched@, r as int),
                    row_placed(out@, *self, window, fill, fetched@, r as int, c as int),
                decreases width - c,
            {
                let ghost before = out@;
                let cell: u64 = if in_rows && c >= left && c - left < part_cols {
                    let part_row: usize = r - top;
                    let part_col: usize = c - left;
                    proof {
                        lemma_row_major(
                            part_cols as int,
                            part_rows as int,
                            part_row as int,
                            part_col as int,
                        );
                        assert(part_rows * part_cols == total);
                    }
                    fetched[part_row * part_cols + part_col]
                } else {
                    fill
                };
                out.push(cell);
                proof {
                    // The cells placed before keep their places.
                    assert forall|row: int, col: int| 0 <= row < r && 0 <= col < w implies #[trigger] cell_at(
                        out@,
                        w,
                        row,
                        col,
                    ) == window_cell(*self, window, fill, fetched@, row, col) by {
                        lemma_row_major(w, r as int, row, col);
                        assert(cell_at(before, w, row, col) == cell_at(out@, w, row, col));
                    }
                    assert forall|col: int| 0 <= col < c + 1 implies #[trigger] cell_at(
                        out@,
                        w,
                        r as int,
                        col,
                    ) == window_cell(*self, window, fill, fetched@, r as int, col) by {
                        if col < c {
                            assert(cell_at(before, w, r as int, col) == cell_at(
                                out@,
                                w,
                                r as int,
                                col,
                            ));
                        }
                    }
                    lemma_row_major(w, h, r as int, c as int);
                }
                c += 1;
            }
            proof {
                lemma_row_major(w, h, r as int, 0);
            }
            r += 1;
        }
        Ok((width, height, out))
    }

    /// The value of the cell at `row` and `col`, where `cell` is what reading
    /// that cell gave.
    ///
    /// A cell outside the raster has no value, whatever `boundless` says, and
    /// `cell` is then not looked at. Inside, the value is absent where the
    /// read gave nothing, where the number is not finite, and where a nodata
    /// value is in force and the number lies within epsilon of it; otherwise
    /// it is the number read.
    pub fn read_value(&self, row: isize, col: isize, boundless: bool, cell: Option<Sample>) -> (r:
        Option<u64>)
        ensures
            r == self.value_of(row as int, col as int, cell),
    {
        if !self.is_inside(row, col) {
            return None;
        }
        match cell {
            None => None,
            Some(sample) => {
                if !is_finite_bits(sample.bits) {
                    None
                } else if self.nodata.is_some() && sample.near_nodata {
                    None
                } else {
                    Some(sample.bits)
                }
            },
        }
    }

    /// The value of a cell, given what reading it gave.
    pub open spec fn value_of(&self, row: int, col: int, cell: Option<Sample>) -> Option<u64> {
        if !self.inside(row, col) {
            None
        } else {
            match cell {
                None => None,
                Some(sample) => if !is_finite(sample.bits) || (self.spec_nodata().is_some()
                    && sample.near_nodata) {
                    None
                } else {
                    Some(sample.bits)
                },
            }
        }
    }
}

/// The part of a window that lies in the raster holds exactly the cells of
/// the window that lie in the raster; there is no such part where there is no
/// such cell.
pub proof fn lemma_clip_is_intersection(ctx: RasterContext, window: Window, row: int, col: int)
    ensures
        match ctx.clipped(window) {
            Some(part) => part.holds(row, col) <==> window.holds(row, col) && ctx.inside(row, col),
            None => !(window.holds(row, col) && ctx.inside(row, col)),
        },
        !ctx.beyond(window) && !window.spec_is_empty() ==> ctx.clipped(window) == Some(window),
{
}

/// A cell has a value only inside the raster, and the value is then the
/// finite number that was read. Where a nodata value is in force, a cell
/// that holds it has no value.
pub proof fn lemma_value_is_a_valid_number(
    ctx: RasterContext,
    row: int,
    col: int,
    cell: Option<Sample>,
)
    ensures
        ctx.value_of(row, col, cell) matches Some(v) ==> ctx.inside(row, col) && is_finite(v)
            && cell.is_some() && cell.unwrap().bits == v,
        ctx.spec_nodata().is_some() && cell.is_some() && cell.unwrap().near_nodata
            ==> ctx.value_of(row, col, cell).is_none(),
{
}

/// A window of which no cell lies in the raster reaches beyond it and has no
/// part to fetch, so every cell of its buffer holds the fill value.
pub proof fn lemma_outside_window_is_fill(
    ctx: RasterContext,
    window: Window,
    fill: u64,
    fetched: Seq<u64>,
    r: int,
    c: int,
)
    requires
        !window.spec_is_empty(),
        forall|row: int, col: int| window.holds(row, col) ==> !ctx.inside(row, col),
    ensures
        ctx.beyond(window),
        ctx.clipped(window).is_none(),
        window_cell(ctx, window, fill, fetched, r, c) == fill,
{
    assert(window.holds(window.row_start as int, window.col_start as int));
    match ctx.clipped(window) {
        Some(part) => {
            lemma_clip_is_intersection(ctx, window, part.row_start as int, part.col_start as int);
            assert(part.holds(part.row_start as int, part.col_start as int));
        },
        None => {},
    }
}

} // verus!
