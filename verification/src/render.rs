//! Requests, their validation, the cell-major layout of a raster, and frames.
use vstd::prelude::*;

use crate::ansi::{ansi, encode_ansi, lemma_ansi_ends_with_reset, reset_bytes};
use crate::backend::Backend;
use crate::error::RenderError;
use crate::Choice;

verus! {

/// Bounds a frame's cell-major RGBA buffer to 256 MiB.
pub const MAX_FRAME_CELLS: usize = 1_048_576;

/// The outcome of sizing a `columns` x `rows` frame: its cell count, or
/// the first limit it breaks.
pub open spec fn frame_cells(columns: u32, rows: u32) -> Result<usize, RenderError> {
    if columns * 8 > u32::MAX {
        Err(RenderError::WidthTooLarge)
    } else if rows * 8 > u32::MAX {
        Err(RenderError::HeightTooLarge)
    } else if columns * rows > MAX_FRAME_CELLS {
        Err(RenderError::FrameTooLarge)
    } else {
        Ok((columns * rows) as usize)
    }
}

/// The number of cells of a `columns` x `rows` frame, checking that its
/// raster (8x8 pixels a cell) stays addressable and the frame within
/// `MAX_FRAME_CELLS`.
pub fn request_cells(columns: u32, rows: u32) -> (res: Result<usize, RenderError>)
    ensures
        res == frame_cells(columns, rows),
{
    if columns.checked_mul(8).is_none() {
        return Err(RenderError::WidthTooLarge);
    }
    if rows.checked_mul(8).is_none() {
        return Err(RenderError::HeightTooLarge);
    }
    match (columns as usize).checked_mul(rows as usize) {
        Some(cells) => {
            if cells <= MAX_FRAME_CELLS {
                Ok(cells)
            } else {
                Err(RenderError::FrameTooLarge)
            }
        },
        None => Err(RenderError::FrameTooLarge),
    }
}

/// What a batch's validation needs to know of one request. The checks of
/// the request's floating-point options are made by the caller.
#[derive(Clone, Copy, Debug)]
pub struct RequestCheck {
    pub columns: u32,
    /// The font ratio is positive and finite.
    pub font_ratio_ok: bool,
    /// The transparency threshold lies in [0, 1].
    pub threshold_ok: bool,
    /// The source image has no pixels.
    pub source_empty: bool,
    /// The frame's row count, or `None` where it is not a finite number
    /// that fits in `u32`.
    pub rows: Option<u32>,
    /// The transparency threshold equals that of the batch's first request.
    pub same_threshold: bool,
}

/// The first check that a request fails, in the order they are made.
pub open spec fn request_verdict(check: RequestCheck) -> Result<(), RenderError> {
    if check.columns == 0 {
        Err(RenderError::ZeroColumns)
    } else if !check.font_ratio_ok {
        Err(RenderError::InvalidFontRatio)
    } else if !check.threshold_ok {
        Err(RenderError::InvalidThreshold)
    } else if check.source_empty {
        Err(RenderError::EmptySource)
    } else {
        match check.rows {
            None => Err(RenderError::HeightTooLarge),
            Some(rows) => match frame_cells(check.columns, rows) {
                Err(e) => Err(e),
                Ok(_) => Ok(()),
            },
        }
    }
}

/// The first failure among the first `n` requests, in order.
pub open spec fn requests_verdict(checks: Seq<RequestCheck>, n: int) -> Result<(), RenderError>
    decreases n,
{
    if n <= 0 {
        Ok(())
    } else {
        match requests_verdict(checks, n - 1) {
            Err(e) => Err(e),
            Ok(_) => request_verdict(checks[n - 1]),
        }
    }
}

/// A batch is refused for its first failing request, else for mixing
/// transparency thresholds.
pub open spec fn batch_verdict(checks: Seq<RequestCheck>) -> Result<(), RenderError> {
    match requests_verdict(checks, checks.len() as int) {
        Err(e) => Err(e),
        Ok(_) => if exists|k: int| 0 <= k < checks.len() && !(#[trigger] checks[k]).same_threshold {
            Err(RenderError::MixedThreshold)
        } else {
            Ok(())
        },
    }
}

fn check_request(check: &RequestCheck) -> (res: Result<(), RenderError>)
    ensures
        res == request_verdict(*check),
{
    if check.columns == 0 {
        return Err(RenderError::ZeroColumns);
    }
    if !check.font_ratio_ok {
        return Err(RenderError::InvalidFontRatio);
    }
    if !check.threshold_ok {
        return Err(RenderError::InvalidThreshold);
    }
    if check.source_empty {
        return Err(RenderError::EmptySource);
    }
    match check.rows {
        None => Err(RenderError::HeightTooLarge),
        Some(rows) => match request_cells(check.columns, rows) {
            Err(e) => Err(e),
            Ok(_) => Ok(()),
        },
    }
}

/// Validates a batch of requests before any work is done on it.
pub fn validate_requests(checks: &[RequestCheck]) -> (res: Result<(), RenderError>)
    ensures
        res == batch_verdict(checks@),
{
    for i in 0..checks.len()
        invariant
            requests_verdict(checks@, i as int) == Ok::<(), RenderError>(()),
    {
        match check_request(&checks[i]) {
            Err(e) => {
                assert(requests_verdict(checks@, i + 1) == Err::<(), RenderError>(e));
                proof {
                    lemma_verdict_sticks(checks@, i + 1, checks@.len() as int);
                }
                return Err(e);
            },
            Ok(_) => {},
        }
    }
    for i in 0..checks.len()
        invariant
            requests_verdict(checks@, checks@.len() as int) == Ok::<(), RenderError>(()),
            forall|k: int| 0 <= k < i ==> (#[trigger] checks@[k]).same_threshold,
    {
        if !checks[i].same_threshold {
            return Err(RenderError::MixedThreshold);
        }
    }
    Ok(())
}

proof fn lemma_verdict_sticks(checks: Seq<RequestCheck>, i: int, n: int)
    requires
        0 <= i <= n,
        requests_verdict(checks, i) is Err,
    ensures
        requests_verdict(checks, n) == requests_verdict(checks, i),
    decreases n - i,
{
    if n > i {
        lemma_verdict_sticks(checks, i, n - 1);
    }
}


// ---------------------------------------------------------------------------
// Cell-major layout.

/// A frame's dimensions and its cells' pixels, cell after cell, each cell
/// as 8 rows of 8 RGBA pixels.
#[derive(Clone, Debug)]
pub struct Prepared {
    pub columns: u32,
    pub rows: u32,
    pub pixels: Vec<u8>,
}

/// Byte offset of pixel (`x`, `y`) in a row-major RGBA raster `width`
/// pixels wide.
pub open spec fn raster_offset(width: int, x: int, y: int) -> int {
    (y * width + x) * 4
}

/// The first `n` pixel rows of cell (`cx`, `cy`), 8 pixels each.
pub open spec fn cell_block(raster: Seq<u8>, width: int, cx: int, cy: int, n: int) -> Seq<u8>
    decreases n,
{
    if n <= 0 {
        Seq::empty()
    } else {
        let start = raster_offset(width, cx * 8, cy * 8 + n - 1);
        cell_block(raster, width, cx, cy, n - 1) + raster.subrange(start, start + 32)
    }
}

/// The first `n` cells of cell row `cy`.
pub open spec fn cell_row(raster: Seq<u8>, columns: int, cy: int, n: int) -> Seq<u8>
    decreases n,
{
    if n <= 0 {
        Seq::empty()
    } else {
        cell_row(raster, columns, cy, n - 1) + cell_block(raster, columns * 8, n - 1, cy, 8)
    }
}

/// The first `n` cell rows of a raster `columns` cells wide, cell-major.
pub open spec fn cell_major(raster: Seq<u8>, columns: int, n: int) -> Seq<u8>
    decreases n,
{
    if n <= 0 {
        Seq::empty()
    } else {
        cell_major(raster, columns, n - 1) + cell_row(raster, columns, n - 1, columns)
    }
}

/// Reorders a row-major RGBA raster of `columns * 8` x `rows * 8` pixels
/// into cell-major order.
pub fn prepare_cells(raster: &[u8], columns: u32, rows: u32) -> (p: Prepared)
    requires
        columns * 8 <= u32::MAX,
        rows * 8 <= u32::MAX,
        raster@.len() >= 256 * columns * rows,
    ensures
        p.columns == columns,
        p.rows == rows,
        p.pixels@ == cell_major(raster@, columns as int, rows as int),
        p.pixels@.len() == 256 * columns * rows,
{
    let ghost r = raster@;
    let ghost w = columns * 8;
    let width = columns as usize * 8;
    let mut pixels: Vec<u8> = Vec::new();
    assert(raster@.len() == raster.len());
    for cy in 0..rows
        invariant
            r == raster@,
            w == width,
            width == columns * 8,
            raster@.len() >= 256 * columns * rows,
            raster@.len() == raster.len(),
            rows * 8 <= u32::MAX,
            pixels@ == cell_major(r, columns as int, cy as int),
            pixels@.len() == 256 * columns * cy,
    {
        let ghost before_row = pixels@;
        for cx in 0..columns
            invariant
                r == raster@,
                w == width,
                width == columns * 8,
                raster@.len() >= 256 * columns * rows,
                raster@.len() == raster.len(),
                cy < rows,
                rows * 8 <= u32::MAX,
                pixels@ == before_row + cell_row(r, columns as int, cy as int, cx as int),
                pixels@.len() == 256 * columns * cy + 256 * cx,
        {
            let ghost before_cell = pixels@;
            for y in 0..8u32
                invariant
                    r == raster@,
                    w == width,
                    width == columns * 8,
                    raster@.len() >= 256 * columns * rows,
                    raster@.len() == raster.len(),
                    cy < rows,
                    cx < columns,
                    rows * 8 <= u32::MAX,
                    pixels@ == before_cell + cell_block(r, w, cx as int, cy as int, y as int),
                    pixels@.len() == 256 * columns * cy + 256 * cx + 32 * y,
            {
                let ghost before_line = pixels@;
                let ghost start_int = raster_offset(w, cx * 8, cy * 8 + y);
                assert(start_int + 32 <= 256 * columns * rows) by (nonlinear_arith)
                    requires
                        start_int == ((cy * 8 + y) * w + cx * 8) * 4,
                        w == columns * 8,
                        cy < rows,
                        cx < columns,
                        y < 8,
                ;
                assert(0 <= start_int) by (nonlinear_arith)
                    requires
                        start_int == ((cy * 8 + y) * w + cx * 8) * 4,
                        w >= 0,
                ;
                let start = ((cy as usize * 8 + y as usize) * width + cx as usize * 8) * 4;
                for b in 0..32usize
                    invariant
                        r == raster@,
                        raster@.len() == raster.len(),
                        start == start_int,
                        start + 32 <= raster@.len(),
                        pixels@ == before_line + r.subrange(start as int, start + b),
                {
                    pixels.push(raster[start + b]);
                    assert(r.subrange(start as int, start + b + 1) =~= r.subrange(start as int, start + b).push(r[start + b]));
                }
            }
        }
        assert(256 * columns * cy + 256 * columns == 256 * columns * (cy + 1)) by (nonlinear_arith);
    }
    Prepared { columns, rows, pixels }
}


proof fn lemma_cell_block(raster: Seq<u8>, width: int, cx: int, cy: int, n: int)
    requires
        0 <= n <= 8,
        0 <= cx,
        0 <= cy,
        0 <= width,
        cx * 8 + 8 <= width,
        forall|y: int|
            0 <= y < n ==> 0 <= #[trigger] raster_offset(width, cx * 8, cy * 8 + y) && raster_offset(
                width,
                cx * 8,
                cy * 8 + y,
            ) + 32 <= raster.len(),
    ensures
        cell_block(raster, width, cx, cy, n).len() == 32 * n,
        forall|y: int, b: int|
            0 <= y < n && 0 <= b < 32 ==> #[trigger] cell_block(raster, width, cx, cy, n)[32 * y + b]
                == raster[raster_offset(width, cx * 8, cy * 8 + y) + b],
    decreases n,
{
    if n > 0 {
        lemma_cell_block(raster, width, cx, cy, n - 1);
        let start = raster_offset(width, cx * 8, cy * 8 + n - 1);
        assert(0 <= start && start + 32 <= raster.len());
        let prev = cell_block(raster, width, cx, cy, n - 1);
        assert forall|y: int, b: int| 0 <= y < n && 0 <= b < 32 implies #[trigger] cell_block(
            raster,
            width,
            cx,
            cy,
            n,
        )[32 * y + b] == raster[raster_offset(width, cx * 8, cy * 8 + y) + b] by {
            if y < n - 1 {
                assert(32 * y + b < 32 * (n - 1));
                assert(prev[32 * y + b] == raster[raster_offset(width, cx * 8, cy * 8 + y) + b]);
            }
        }
    }
}

proof fn lemma_cell_row(raster: Seq<u8>, columns: int, rows: int, cy: int, n: int)
    requires
        0 <= n <= columns,
        0 <= cy < rows,
        raster.len() >= 256 * columns * rows,
    ensures
        cell_row(raster, columns, cy, n).len() == 256 * n,
        forall|cx: int, y: int, b: int|
            0 <= cx < n && 0 <= y < 8 && 0 <= b < 32 ==> #[trigger] cell_row(raster, columns, cy, n)[256
                * cx + 32 * y + b] == raster[raster_offset(columns * 8, cx * 8, cy * 8 + y) + b],
    decreases n,
{
    if n > 0 {
        lemma_cell_row(raster, columns, rows, cy, n - 1);
        let cx = n - 1;
        assert forall|y: int| 0 <= y < 8 implies 0 <= #[trigger] raster_offset(
            columns * 8,
            cx * 8,
            cy * 8 + y,
        ) && raster_offset(columns * 8, cx * 8, cy * 8 + y) + 32 <= raster.len() by {
            assert(0 <= ((cy * 8 + y) * (columns * 8) + cx * 8) * 4) by (nonlinear_arith)
                requires
                    0 <= cy,
                    0 <= y,
                    0 <= columns,
                    0 <= cx,
            ;
            assert(((cy * 8 + y) * (columns * 8) + cx * 8) * 4 + 32 <= 256 * columns * rows)
                by (nonlinear_arith)
                requires
                    0 <= cy < rows,
                    0 <= y < 8,
                    0 <= cx < columns,
            ;
        }
        lemma_cell_block(raster, columns * 8, cx, cy, 8);
        let prev = cell_row(raster, columns, cy, n - 1);
        let block = cell_block(raster, columns * 8, cx, cy, 8);
        assert forall|c: int, y: int, b: int| 0 <= c < n && 0 <= y < 8 && 0 <= b < 32 implies #[trigger] cell_row(
            raster,
            columns,
            cy,
            n,
        )[256 * c + 32 * y + b] == raster[raster_offset(columns * 8, c * 8, cy * 8 + y) + b] by {
            if c < n - 1 {
                assert(prev[256 * c + 32 * y + b] == raster[raster_offset(columns * 8, c * 8, cy * 8 + y) + b]);
            } else {
                assert(block[32 * y + b] == raster[raster_offset(columns * 8, c * 8, cy * 8 + y) + b]);
            }
        }
    }
}

proof fn lemma_cell_major(raster: Seq<u8>, columns: int, rows: int, n: int)
    requires
        0 <= n <= rows,
        0 <= columns,
        raster.len() >= 256 * columns * rows,
    ensures
        cell_major(raster, columns, n).len() == 256 * columns * n,
        forall|cy: int, cx: int, y: int, b: int|
            0 <= cy < n && 0 <= cx < columns && 0 <= y < 8 && 0 <= b < 32 ==> #[trigger] cell_major(
                raster,
                columns,
                n,
            )[256 * columns * cy + 256 * cx + 32 * y + b] == raster[raster_offset(
                columns * 8,
                cx * 8,
                cy * 8 + y,
            ) + b],
    decreases n,
{
    if n > 0 {
        lemma_cell_major(raster, columns, rows, n - 1);
        lemma_cell_row(raster, columns, rows, n - 1, columns);
        assert(256 * columns * (n - 1) + 256 * columns == 256 * columns * n) by (nonlinear_arith);
        let prev = cell_major(raster, columns, n - 1);
        let row = cell_row(raster, columns, n - 1, columns);
        assert forall|cy: int, cx: int, y: int, b: int|
            0 <= cy < n && 0 <= cx < columns && 0 <= y < 8 && 0 <= b < 32 implies #[trigger] cell_major(
            raster,
            columns,
            n,
        )[256 * columns * cy + 256 * cx + 32 * y + b] == raster[raster_offset(
            columns * 8,
            cx * 8,
            cy * 8 + y,
        ) + b] by {
            assert(256 * columns * cy + 256 * columns <= 256 * columns * (n - 1) || cy == n - 1)
                by (nonlinear_arith)
                requires
                    0 <= cy < n,
                    0 <= columns,
            ;
            if cy < n - 1 {
                assert(prev[256 * columns * cy + 256 * cx + 32 * y + b] == raster[raster_offset(
                    columns * 8,
                    cx * 8,
                    cy * 8 + y,
                ) + b]);
            } else {
                assert(row[256 * cx + 32 * y + b] == raster[raster_offset(columns * 8, cx * 8, cy * 8 + y) + b]);
            }
        }
    }
}

/// Law: in the cell-major layout, byte `b` (0..32) of pixel row `y` of cell
/// (`cx`, `cy`) is byte `b` from pixel (`8 cx`, `8 cy + y`) of the raster;
/// nothing else is there.
pub proof fn lemma_cell_major_layout(
    raster: Seq<u8>,
    columns: int,
    rows: int,
    cx: int,
    cy: int,
    y: int,
    b: int,
)
    requires
        0 <= cx < columns,
        0 <= cy < rows,
        0 <= y < 8,
        0 <= b < 32,
        raster.len() >= 256 * columns * rows,
    ensures
        cell_major(raster, columns, rows).len() == 256 * columns * rows,
        cell_major(raster, columns, rows)[256 * (cy * columns + cx) + 32 * y + b] == raster[4 * ((8
            * cy + y) * (8 * columns) + 8 * cx) + b],
{
    lemma_cell_major(raster, columns, rows, rows);
    assert(256 * (cy * columns + cx) == 256 * columns * cy + 256 * cx) by (nonlinear_arith);
    assert(4 * ((8 * cy + y) * (8 * columns) + 8 * cx) == raster_offset(columns * 8, cx * 8, cy * 8 + y))
        by (nonlinear_arith);
    assert(cell_major(raster, columns, rows)[256 * columns * cy + 256 * cx + 32 * y + b] == raster[raster_offset(
        columns * 8,
        cx * 8,
        cy * 8 + y,
    ) + b]);
}

// ---------------------------------------------------------------------------
// Frames.

/// What a frame is: its dimensions, the backend that scored it, and its
/// cells, row-major.
pub struct FrameModel {
    pub columns: u32,
    pub rows: u32,
    pub backend: Backend,
    pub choices: Seq<Choice>,
}

/// A rendered frame: one choice per cell, `columns * rows` of them.
#[derive(Debug)]
pub struct Frame {
    columns: u32,
    rows: u32,
    backend: Backend,
    choices: Vec<Choice>,
}

impl View for Frame {
    type V = FrameModel;

    closed spec fn view(&self) -> FrameModel {
        FrameModel {
            columns: self.columns,
            rows: self.rows,
            backend: self.backend,
            choices: self.choices@,
        }
    }
}

impl Clone for Frame {
    fn clone(&self) -> (copy: Frame)
        ensures
            copy@ == self@,
    {
        proof {
            use_type_invariant(self);
        }
        Frame {
            columns: self.columns,
            rows: self.rows,
            backend: self.backend,
            choices: vstd::slice::slice_to_vec(self.choices.as_slice()),
        }
    }
}

/// A whole frame: at least one cell each way, one choice per cell, scored
/// on a concrete backend.
pub open spec fn whole_frame(f: FrameModel) -> bool {
    &&& f.columns >= 1
    &&& f.rows >= 1
    &&& f.choices.len() == f.columns * f.rows
    &&& f.backend != Backend::Auto
}

impl Frame {
    #[verifier::type_invariant]
    spec fn is_whole(self) -> bool {
        whole_frame(self@)
    }

    pub fn columns(&self) -> (c: u32)
        ensures
            c == self@.columns,
            whole_frame(self@),
    {
        proof {
            use_type_invariant(self);
        }
        self.columns
    }

    pub fn rows(&self) -> (r: u32)
        ensures
            r == self@.rows,
            whole_frame(self@),
    {
        proof {
            use_type_invariant(self);
        }
        self.rows
    }

    pub fn backend(&self) -> (b: Backend)
        ensures
            b == self@.backend,
            whole_frame(self@),
    {
        proof {
            use_type_invariant(self);
        }
        self.backend
    }

    pub fn choices(&self) -> (c: &[Choice])
        ensures
            c@ == self@.choices,
            whole_frame(self@),
    {
        proof {
            use_type_invariant(self);
        }
        self.choices.as_slice()
    }

    /// The frame as truecolour ANSI text, which ends with the reset sequence.
    pub fn to_ansi(&self) -> (out: Vec<u8>)
        ensures
            out@ == ansi(self@.choices, self@.columns as int, self@.rows as int),
            whole_frame(self@),
            out@.len() >= 5,
            out@.subrange(out@.len() - 5, out@.len() as int) == reset_bytes(),
    {
        proof {
            use_type_invariant(self);
            lemma_ansi_ends_with_reset(self@.choices, self@.columns as int, self@.rows as int);
        }
        encode_ansi(self.choices.as_slice(), self.columns, self.rows)
    }
}

/// Cells of the first `n` prepared frames.
pub open spec fn cells_before(prepared: Seq<Prepared>, n: int) -> int
    decreases n,
{
    if n <= 0 {
        0
    } else {
        cells_before(prepared, n - 1) + prepared[n - 1].columns * prepared[n - 1].rows
    }
}

proof fn lemma_cells_before_monotone(prepared: Seq<Prepared>, i: int, j: int)
    requires
        0 <= i <= j,
    ensures
        0 <= cells_before(prepared, i) <= cells_before(prepared, j),
    decreases j,
{
    if j > i {
        lemma_cells_before_monotone(prepared, i, j - 1);
        assert(prepared[j - 1].columns * prepared[j - 1].rows >= 0) by (nonlinear_arith);
    } else if i > 0 {
        lemma_cells_before_monotone(prepared, 0, i - 1);
        assert(prepared[i - 1].columns * prepared[i - 1].rows >= 0) by (nonlinear_arith);
    }
}

/// Frame `k` of a batch: its own dimensions and its run of the backend's
/// cells.
pub open spec fn batch_frame(prepared: Seq<Prepared>, choices: Seq<Choice>, backend: Backend, k: int) -> FrameModel {
    FrameModel {
        columns: prepared[k].columns,
        rows: prepared[k].rows,
        backend,
        choices: choices.subrange(cells_before(prepared, k), cells_before(prepared, k + 1)),
    }
}

/// Cuts a batch's cells, in request order, into one frame per request.
pub fn split_frames(prepared: Vec<Prepared>, choices: Vec<Choice>, backend: Backend) -> (res: Result<
    Vec<Frame>,
    RenderError,
>)
    requires
        forall|k: int|
            0 <= k < prepared@.len() ==> (#[trigger] prepared@[k]).columns >= 1 && prepared@[k].rows
                >= 1,
        backend != Backend::Auto,
        cells_before(prepared@, prepared@.len() as int) <= usize::MAX,
    ensures
        choices@.len() != cells_before(prepared@, prepared@.len() as int) ==> res == Err::<
            Vec<Frame>,
            RenderError,
        >(
            RenderError::CellCountMismatch {
                returned: choices@.len() as usize,
                expected: cells_before(prepared@, prepared@.len() as int) as usize,
            },
        ),
        choices@.len() == cells_before(prepared@, prepared@.len() as int) ==> res is Ok,
        res matches Ok(frames) ==> {
            &&& frames@.len() == prepared@.len()
            &&& forall|k: int|
                0 <= k < frames@.len() ==> (#[trigger] frames@[k])@ == batch_frame(
                    prepared@,
                    choices@,
                    backend,
                    k,
                )
        },
{
    let n = prepared.len();
    let mut expected: usize = 0;
    for i in 0..n
        invariant
            n == prepared@.len(),
            cells_before(prepared@, n as int) <= usize::MAX,
            expected == cells_before(prepared@, i as int),
    {
        proof {
            lemma_cells_before_monotone(prepared@, i + 1, n as int);
        }
        expected = expected + prepared[i].columns as usize * prepared[i].rows as usize;
    }
    if choices.len() != expected {
        return Err(RenderError::CellCountMismatch { returned: choices.len(), expected });
    }
    let mut frames: Vec<Frame> = Vec::with_capacity(n);
    let mut offset: usize = 0;
    for i in 0..n
        invariant
            n == prepared@.len(),
            forall|k: int|
                0 <= k < prepared@.len() ==> (#[trigger] prepared@[k]).columns >= 1
                    && prepared@[k].rows >= 1,
            backend != Backend::Auto,
            cells_before(prepared@, n as int) <= usize::MAX,
            choices@.len() == cells_before(prepared@, n as int),
            offset == cells_before(prepared@, i as int),
            frames@.len() == i,
            forall|k: int|
                0 <= k < i ==> (#[trigger] frames@[k])@ == batch_frame(
                    prepared@,
                    choices@,
                    backend,
                    k,
                ),
    {
        proof {
            lemma_cells_before_monotone(prepared@, i + 1, n as int);
            lemma_cells_before_monotone(prepared@, i as int, i + 1);
        }
        let count = prepared[i].columns as usize * prepared[i].rows as usize;
        assert(prepared@[i as int].columns >= 1);
        let run = vstd::slice::slice_subrange(choices.as_slice(), offset, offset + count);
        let frame = Frame {
            columns: prepared[i].columns,
            rows: prepared[i].rows,
            backend,
            choices: vstd::slice::slice_to_vec(run),
        };
        frames.push(frame);
        offset = offset + count;
    }
    Ok(frames)
}

/// Law: the frames of a batch, laid end to end, give back the backend's
/// cells, and each frame holds exactly `columns * rows` of them.
pub proof fn lemma_frames_partition_cells(prepared: Seq<Prepared>, choices: Seq<Choice>, backend: Backend, n: int)
    requires
        0 <= n <= prepared.len(),
        choices.len() == cells_before(prepared, prepared.len() as int),
    ensures
        batch_choices(prepared, choices, backend, n) =~= choices.subrange(0, cells_before(prepared, n)),
        forall|k: int| 0 <= k < n ==> (#[trigger] batch_frame(prepared, choices, backend, k)).choices.len()
            == prepared[k].columns * prepared[k].rows,
    decreases n,
{
    lemma_cells_before_monotone(prepared, n, prepared.len() as int);
    if n > 0 {
        lemma_frames_partition_cells(prepared, choices, backend, n - 1);
        lemma_cells_before_monotone(prepared, n - 1, n);
    }
    assert forall|k: int| 0 <= k < n implies (#[trigger] batch_frame(prepared, choices, backend, k)).choices.len()
        == prepared[k].columns * prepared[k].rows by {
        lemma_cells_before_monotone(prepared, k, k + 1);
        lemma_cells_before_monotone(prepared, k + 1, prepared.len() as int);
    }
}

/// The cells of the first `n` frames of a batch, end to end.
pub open spec fn batch_choices(prepared: Seq<Prepared>, choices: Seq<Choice>, backend: Backend, n: int) -> Seq<Choice>
    decreases n,
{
    if n <= 0 {
        Seq::empty()
    } else {
        batch_choices(prepared, choices, backend, n - 1) + batch_frame(prepared, choices, backend, n - 1).choices
    }
}


/// The pixels of the first `n` prepared frames, end to end.
pub open spec fn batch_pixels(prepared: Seq<Prepared>, n: int) -> Seq<u8>
    decreases n,
{
    if n <= 0 {
        Seq::empty()
    } else {
        batch_pixels(prepared, n - 1) + prepared[n - 1].pixels@
    }
}

/// The cell-major pixels of a whole chunk: its frames' pixels end to end.
pub fn chunk_pixels(prepared: &Vec<Prepared>) -> (pixels: Vec<u8>)
    requires
        batch_pixels(prepared@, prepared@.len() as int).len() <= usize::MAX,
    ensures
        pixels@ == batch_pixels(prepared@, prepared@.len() as int),
        pixels@.len() == pixels_before(prepared@, prepared@.len() as int),
        forall|k: int, t: int|
            0 <= k < prepared@.len() && 0 <= t < prepared@[k].pixels@.len() ==> #[trigger] pixels@[pixels_before(
                prepared@,
                k,
            ) + t] == #[trigger] prepared@[k].pixels@[t],
{
    let mut pixels: Vec<u8> = Vec::new();
    for i in 0..prepared.len()
        invariant
            batch_pixels(prepared@, prepared@.len() as int).len() <= usize::MAX,
            pixels@ == batch_pixels(prepared@, i as int),
    {
        proof {
            lemma_batch_pixels_grows(prepared@, i + 1, prepared@.len() as int);
        }
        let item = &prepared[i];
        for j in 0..item.pixels.len()
            invariant
                batch_pixels(prepared@, i + 1).len() <= usize::MAX,
                item == prepared@[i as int],
                pixels@ == batch_pixels(prepared@, i as int) + item.pixels@.subrange(0, j as int),
        {
            pixels.push(item.pixels[j]);
            assert(item.pixels@.subrange(0, j + 1) =~= item.pixels@.subrange(0, j as int).push(item.pixels@[j as int]));
        }
        assert(item.pixels@.subrange(0, item.pixels@.len() as int) =~= item.pixels@);
    }
    proof {
        lemma_chunk_pixels_concatenate(prepared@, prepared@.len() as int);
    }
    pixels
}

proof fn lemma_batch_pixels_grows(prepared: Seq<Prepared>, i: int, j: int)
    requires
        0 <= i <= j,
    ensures
        batch_pixels(prepared, i).len() <= batch_pixels(prepared, j).len(),
    decreases j,
{
    if j > i {
        lemma_batch_pixels_grows(prepared, i, j - 1);
    }
}


/// Law: a batch passes validation only if every request asks for at least
/// one column, has a source image with pixels and a row count, and sizes to
/// a frame within the limits; then every request's cell count is known.
pub proof fn lemma_validated_batch(checks: Seq<RequestCheck>, k: int)
    requires
        batch_verdict(checks) is Ok,
        0 <= k < checks.len(),
    ensures
        checks[k].columns >= 1,
        checks[k].font_ratio_ok,
        checks[k].threshold_ok,
        !checks[k].source_empty,
        checks[k].rows is Some,
        frame_cells(checks[k].columns, checks[k].rows->0) is Ok,
        checks[k].same_threshold,
{
    lemma_verdict_ok_prefix(checks, k + 1, checks.len() as int);
}

proof fn lemma_verdict_ok_prefix(checks: Seq<RequestCheck>, i: int, n: int)
    requires
        0 <= i <= n,
        requests_verdict(checks, n) is Ok,
    ensures
        requests_verdict(checks, i) is Ok,
    decreases n - i,
{
    if i < n {
        lemma_verdict_ok_prefix(checks, i + 1, n);
    }
}

/// Law: every frame cut from a batch of requests with at least one column
/// and one row each, scored on a concrete backend, holds exactly one choice
/// per cell, has positive dimensions, names that backend, and its text ends
/// with the reset sequence.
pub proof fn lemma_batch_frames_are_whole(
    prepared: Seq<Prepared>,
    choices: Seq<Choice>,
    backend: Backend,
    k: int,
)
    requires
        0 <= k < prepared.len(),
        choices.len() == cells_before(prepared, prepared.len() as int),
        forall|j: int| 0 <= j < prepared.len() ==> (#[trigger] prepared[j]).columns >= 1 && prepared[j].rows >= 1,
        backend != Backend::Auto,
    ensures
        batch_frame(prepared, choices, backend, k).choices.len() == batch_frame(prepared, choices, backend, k).columns
            * batch_frame(prepared, choices, backend, k).rows,
        batch_frame(prepared, choices, backend, k).columns >= 1,
        batch_frame(prepared, choices, backend, k).rows >= 1,
        batch_frame(prepared, choices, backend, k).backend != Backend::Auto,
        ({
            let f = batch_frame(prepared, choices, backend, k);
            let text = ansi(f.choices, f.columns as int, f.rows as int);
            text.len() >= 5 && text.subrange(text.len() - 5, text.len() as int) == reset_bytes()
        }),
{
    lemma_frames_partition_cells(prepared, choices, backend, prepared.len() as int);
    assert(prepared[k].columns >= 1);
    let f = batch_frame(prepared, choices, backend, k);
    lemma_ansi_ends_with_reset(f.choices, f.columns as int, f.rows as int);
}


/// Total pixel bytes of the first `n` prepared frames.
pub open spec fn pixels_before(prepared: Seq<Prepared>, n: int) -> int
    decreases n,
{
    if n <= 0 {
        0
    } else {
        pixels_before(prepared, n - 1) + prepared[n - 1].pixels@.len()
    }
}

proof fn lemma_pixels_before_monotone(prepared: Seq<Prepared>, i: int, j: int)
    requires
        0 <= i <= j,
    ensures
        0 <= pixels_before(prepared, i) <= pixels_before(prepared, j),
    decreases j,
{
    if j > i {
        lemma_pixels_before_monotone(prepared, i, j - 1);
    } else if i > 0 {
        lemma_pixels_before_monotone(prepared, 0, i - 1);
    }
}

/// Law: a chunk's pixels are all of every prepared frame's pixel bytes, end
/// to end: their length is the sum of the frames' lengths, and byte `t` of
/// frame `k` sits at the sum of the earlier frames' lengths plus `t`.
pub proof fn lemma_chunk_pixels_concatenate(prepared: Seq<Prepared>, n: int)
    requires
        0 <= n <= prepared.len(),
    ensures
        batch_pixels(prepared, n).len() == pixels_before(prepared, n),
        forall|k: int, t: int|
            0 <= k < n && 0 <= t < prepared[k].pixels@.len() ==> #[trigger] batch_pixels(prepared, n)[pixels_before(
                prepared,
                k,
            ) + t] == #[trigger] prepared[k].pixels@[t],
    decreases n,
{
    if n > 0 {
        lemma_chunk_pixels_concatenate(prepared, n - 1);
        assert forall|k: int, t: int|
            0 <= k < n && 0 <= t < prepared[k].pixels@.len() implies #[trigger] batch_pixels(prepared, n)[pixels_before(
            prepared,
            k,
        ) + t] == #[trigger] prepared[k].pixels@[t] by {
            assert(pixels_before(prepared, k + 1) == pixels_before(prepared, k) + prepared[k].pixels@.len());
            lemma_pixels_before_monotone(prepared, 0, k);
            if k < n - 1 {
                lemma_pixels_before_monotone(prepared, k + 1, n - 1);
                assert(batch_pixels(prepared, n - 1)[pixels_before(prepared, k) + t] == prepared[k].pixels@[t]);
            } else {
                assert(batch_pixels(prepared, n) == batch_pixels(prepared, n - 1) + prepared[n - 1].pixels@);
            }
        }
    }
}


/// Law: a frame is sized exactly when its raster stays addressable in `u32`
/// both ways and it holds at most `MAX_FRAME_CELLS` cells, and its size is
/// then `columns * rows`; width is checked before height, height before the
/// cell count.
pub proof fn lemma_frame_cells_limits(columns: u32, rows: u32)
    ensures
        frame_cells(columns, rows) is Ok <==> columns * 8 <= u32::MAX && rows * 8 <= u32::MAX
            && columns * rows <= MAX_FRAME_CELLS,
        frame_cells(columns, rows) matches Ok(cells) ==> cells == columns * rows,
        columns * 8 > u32::MAX ==> frame_cells(columns, rows) == Err::<usize, RenderError>(
            RenderError::WidthTooLarge,
        ),
        columns * 8 <= u32::MAX && rows * 8 > u32::MAX ==> frame_cells(columns, rows) == Err::<
            usize,
            RenderError,
        >(RenderError::HeightTooLarge),
        columns * 8 <= u32::MAX && rows * 8 <= u32::MAX && columns * rows > MAX_FRAME_CELLS
            ==> frame_cells(columns, rows) == Err::<usize, RenderError>(RenderError::FrameTooLarge),
{
}

proof fn lemma_sound_requests_pass(checks: Seq<RequestCheck>, n: int)
    requires
        0 <= n <= checks.len(),
        forall|k: int|
            0 <= k < checks.len() ==> {
                let c = #[trigger] checks[k];
                &&& c.columns >= 1
                &&& c.font_ratio_ok
                &&& c.threshold_ok
                &&& !c.source_empty
                &&& c.rows matches Some(rows) && c.columns * 8 <= u32::MAX && rows * 8 <= u32::MAX
                    && c.columns * rows <= MAX_FRAME_CELLS
            },
    ensures
        requests_verdict(checks, n) == Ok::<(), RenderError>(()),
    decreases n,
{
    if n > 0 {
        lemma_sound_requests_pass(checks, n - 1);
        let c = checks[n - 1];
        lemma_frame_cells_limits(c.columns, c.rows->0);
    }
}

/// Law: a batch validates exactly when every request asks for at least one
/// column, has a valid font ratio and threshold, a source with pixels, a row
/// count whose raster stays addressable in `u32` both ways and whose frame
/// holds at most `MAX_FRAME_CELLS` cells, and all share one threshold.
pub proof fn lemma_sound_batch_validates(checks: Seq<RequestCheck>)
    ensures
        batch_verdict(checks) == Ok::<(), RenderError>(()) <==> forall|k: int|
            0 <= k < checks.len() ==> {
                let c = #[trigger] checks[k];
                &&& c.columns >= 1
                &&& c.font_ratio_ok
                &&& c.threshold_ok
                &&& !c.source_empty
                &&& c.rows matches Some(rows) && c.columns * 8 <= u32::MAX && rows * 8 <= u32::MAX
                    && c.columns * rows <= MAX_FRAME_CELLS
                &&& c.same_threshold
            },
{
    if forall|k: int|
        0 <= k < checks.len() ==> {
            let c = #[trigger] checks[k];
            &&& c.columns >= 1
            &&& c.font_ratio_ok
            &&& c.threshold_ok
            &&& !c.source_empty
            &&& c.rows matches Some(rows) && c.columns * 8 <= u32::MAX && rows * 8 <= u32::MAX
                && c.columns * rows <= MAX_FRAME_CELLS
            &&& c.same_threshold
        } {
        lemma_sound_requests_pass(checks, checks.len() as int);
    }
    if batch_verdict(checks) == Ok::<(), RenderError>(()) {
        assert forall|k: int| 0 <= k < checks.len() implies {
            let c = #[trigger] checks[k];
            &&& c.columns >= 1
            &&& c.font_ratio_ok
            &&& c.threshold_ok
            &&& !c.source_empty
            &&& c.rows matches Some(rows) && c.columns * 8 <= u32::MAX && rows * 8 <= u32::MAX
                && c.columns * rows <= MAX_FRAME_CELLS
            &&& c.same_threshold
        } by {
            lemma_validated_batch(checks, k);
            lemma_frame_cells_limits(checks[k].columns, checks[k].rows->0);
        }
    }
}

} // verus!
