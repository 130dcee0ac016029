//! Laying a decoded picture out the way a v4l2 loopback camera takes it.
//!
//! A picture arrives as planes of rows, each row `stride` bytes apart. What a
//! camera is written is the same picture packed tight: every plane's rows one
//! after the other with no padding, chroma at half width and height.

use crate::frame::{Frame, PictureFormat};
use crate::v4l2::Format;
use vstd::prelude::*;
use vstd::slice::slice_subrange;

verus! {

broadcast use vstd::slice::group_slice_axioms;

/// Which samples of a plane make up one plane of the image: `columns` by
/// `rows` of them, taking every `column_step`th sample of every `row_step`th
/// row, starting `offset` samples into each row.
#[derive(Clone, Copy)]
pub struct Grid {
    pub columns: usize,
    pub rows: usize,
    pub column_step: usize,
    pub row_step: usize,
    pub offset: usize,
}

impl Grid {
    /// How many rows of the source the grid reaches into.
    pub open spec fn rows_needed(self) -> int {
        (self.rows - 1) * self.row_step + 1
    }

    /// How many samples of a source row the grid reaches into.
    pub open spec fn columns_needed(self) -> int {
        (self.columns - 1) * self.column_step + self.offset + 1
    }

    /// Every sample of every row.
    pub fn direct(columns: usize, rows: usize) -> (g: Grid)
        ensures
            g == (Grid { columns, rows, column_step: 1, row_step: 1, offset: 0 }),
    {
        Grid { columns, rows, column_step: 1, row_step: 1, offset: 0 }
    }

    /// One of the two components of a plane of pairs, `offset` saying which.
    pub fn component(&self, offset: usize) -> (g: Grid)
        ensures
            g == (Grid {
                columns: self.columns,
                rows: self.rows,
                column_step: 2,
                row_step: self.row_step,
                offset,
            }),
    {
        Grid { columns: self.columns, rows: self.rows, column_step: 2, row_step: self.row_step, offset }
    }

    pub fn source_rows(&self) -> (r: Option<usize>)
        ensures
            r == (if self.rows >= 1 && self.rows_needed() <= usize::MAX {
                Some(self.rows_needed() as usize)
            } else {
                None
            }),
    {
        let below = self.rows.checked_sub(1)?;
        let spread = below.checked_mul(self.row_step)?;
        spread.checked_add(1)
    }

    pub fn source_columns(&self) -> (r: Option<usize>)
        requires
            self.columns >= 1 ==> self.offset < usize::MAX,
        ensures
            r == (if self.columns >= 1 && self.columns_needed() <= usize::MAX {
                Some(self.columns_needed() as usize)
            } else {
                None
            }),
    {
        let below = self.columns.checked_sub(1)?;
        let spread = below.checked_mul(self.column_step)?;
        spread.checked_add(self.offset + 1)
    }
}

/// One plane of a decoded picture, its rows `stride` bytes apart.
pub struct Plane<'a> {
    pub data: &'a [u8],
    pub stride: usize,
}

/// The buffer an image is being laid out in, a plane at a time.
pub struct Out<'a> {
    pub data: &'a mut [u8],
    pub filled: usize,
}

impl<'a> Out<'a> {
    pub fn new(data: &'a mut [u8]) -> (r: Out<'a>)
        ensures
            r.filled == 0,
            r.data@ == old(data)@,
            final(data)@ == final(r.data)@,
    {
        Out { data, filled: 0 }
    }

    /// Take the next `length` bytes to lay a row in, if there are that many,
    /// and say where they start.
    pub fn take(&mut self, length: usize) -> (r: Option<usize>)
        ensures
            final(self).data == old(self).data,
            old(self).filled + length <= old(self).data@.len() ==> r == Some(old(self).filled)
                && final(self).filled == old(self).filled + length,
            old(self).filled + length > old(self).data@.len() ==> r is None && final(self).filled
                == old(self).filled,
    {
        let total = self.data.len();
        match self.filled.checked_add(length) {
            Some(end) => if end <= total {
                let start = self.filled;
                self.filled = end;
                Some(start)
            } else {
                None
            },
            None => None,
        }
    }
}

/// How many bytes a sample takes: one, or two for samples of more than
/// eight bits, which the shift narrows.
pub open spec fn sample_size(shift: u32) -> int {
    if shift == 0 {
        1
    } else {
        2
    }
}

/// A little endian sample of more than eight bits, shifted down to eight.
pub open spec fn narrowed(low: u8, high: u8, shift: u32) -> u8 {
    (((low + high * 256) as u16) >> shift) as u8
}

/// The `j`th sample a row lays down, keeping every `step`th sample of the
/// source row, or nothing when the source row has run out.
pub open spec fn row_sample(source: Seq<u8>, j: int, step: int, shift: u32) -> Option<u8> {
    let k = j * step;
    if shift == 0 {
        if k < source.len() {
            Some(source[k])
        } else {
            None
        }
    } else if 2 * k + 1 < source.len() {
        Some(narrowed(source[2 * k], source[2 * k + 1], shift))
    } else {
        None
    }
}

/// Narrow one little endian sample of more than eight bits down to eight.
pub fn narrow(sample: [u8; 2], shift: u32) -> (r: u8)
    requires
        shift < 16,
    ensures
        r == narrowed(sample[0], sample[1], shift),
{
    let value: u16 = sample[0] as u16 + sample[1] as u16 * 256;
    (value >> shift) as u8
}

/// `<[T]>::copy_from_slice`, which std documents to copy every element of
/// `src` into the slice, with one `memcpy`, and to panic when the two
/// lengths differ; the contract leaves that case out and claims the copy.
pub assume_specification<Elem>[ <[Elem]>::copy_from_slice ](dst: &mut [Elem], src: &[Elem])
    where
        Elem: Copy,
    requires
        old(dst)@.len() == src@.len(),
    ensures
        final(dst)@ == src@,
;

/// `out` with `source` written over it from `at`, in one copy.
fn copy_into(out: &mut [u8], at: usize, source: &[u8])
    requires
        at + source@.len() <= old(out)@.len(),
    ensures
        final(out)@ == old(out)@.subrange(0, at as int) + source@ + old(out)@.subrange(
            at + source@.len(),
            old(out)@.len() as int,
        ),
{
    let (head, rest) = out.split_at_mut(at);
    let (middle, tail) = rest.split_at_mut(source.len());
    middle.copy_from_slice(source);
}

/// Lay one row of a plane down in the `count` bytes of `out` from `at`,
/// keeping every `column_step`th sample.
pub fn copy_row(out: &mut [u8], at: usize, count: usize, source: &[u8], column_step: usize, shift: u32)
    requires
        at + count <= old(out)@.len(),
        column_step >= 1,
        shift < 16,
        shift == 0 && column_step == 1 ==> source@.len() == count,
    ensures
        final(out)@.len() == old(out)@.len(),
        forall|i: int|
            0 <= i < old(out)@.len() && !(at <= i < at + count) ==> final(out)@[i] == old(out)@[i],
        forall|j: int|
            0 <= j < count ==> final(out)@[at + j] == match #[trigger] row_sample(
                source@,
                j,
                column_step as int,
                shift,
            ) {
                Some(v) => v,
                None => old(out)@[at + j],
            },
{
    if shift == 0 && column_step == 1 {
        copy_into(out, at, source);
        assert forall|j: int| 0 <= j < count implies final(out)@[at + j] == match #[trigger] row_sample(
            source@,
            j,
            column_step as int,
            shift,
        ) {
            Some(v) => v,
            None => old(out)@[at + j],
        } by {
            assert(j * 1 == j);
        }
        return;
    }
    let limit = if shift == 0 {
        source.len()
    } else {
        source.len() / 2
    };
    let ghost initial = out@;
    let total = out.len();
    let mut index: usize = 0;
    let mut j: usize = 0;
    while j < count && index < limit
        invariant
            at + count <= out@.len(),
            out@.len() == total,
            source@.len() <= usize::MAX,
            out@.len() == initial.len(),
            initial == old(out)@,
            column_step >= 1,
            shift < 16,
            limit == (if shift == 0 {
                source@.len()
            } else {
                source@.len() / 2
            }),
            j <= count,
            index == (if j * column_step < limit {
                j * column_step
            } else {
                limit as int
            }),
            forall|i: int|
                0 <= i < initial.len() && !(at <= i < at + j) ==> out@[i] == initial[i],
            forall|m: int|
                0 <= m < j ==> out@[at + m] == row_sample(source@, m, column_step as int, shift)->0
                    && #[trigger] row_sample(source@, m, column_step as int, shift) is Some,
        decreases count - j,
    {
        proof {
            assert(j * column_step < limit);
        }
        let value = if shift == 0 {
            source[index]
        } else {
            narrow([source[2 * index], source[2 * index + 1]], shift)
        };
        out[at + j] = value;
        proof {
            assert((j + 1) * column_step == j * column_step + column_step) by (nonlinear_arith);
        }
        if column_step < limit - index {
            index = index + column_step;
        } else {
            index = limit;
        }
        j = j + 1;
    }
    proof {
        assert forall|m: int| j <= m < count implies #[trigger] row_sample(
            source@,
            m,
            column_step as int,
            shift,
        ) is None by {
            assert(m * column_step >= j * column_step) by (nonlinear_arith)
                requires
                    m >= j,
                    column_step >= 1,
            ;
        }
    }
}


/// Where the samples that row `row` of a grid lays down start in a plane.
pub open spec fn row_start(stride: int, grid: Grid, shift: u32, row: int) -> int {
    row * grid.row_step * stride + grid.offset * sample_size(shift)
}

/// How many bytes of a source row a grid reads, from where it starts.
pub open spec fn row_length(grid: Grid, shift: u32) -> int {
    (grid.columns_needed() - grid.offset) * sample_size(shift)
}

/// The sample a grid lays down at `row` and `column`.
pub open spec fn pixel(data: Seq<u8>, stride: int, grid: Grid, shift: u32, row: int, column: int) -> u8 {
    let at = row_start(stride, grid, shift, row) + column * grid.column_step * sample_size(shift);
    if shift == 0 {
        data[at]
    } else {
        narrowed(data[at], data[at + 1], shift)
    }
}

/// Whether a grid can be copied at all: its steps and shift are ones a
/// row can be taken in, and its offset leaves room to count past it.
pub open spec fn grid_usable(grid: Grid, shift: u32) -> bool {
    &&& grid.columns >= 1 ==> grid.offset < usize::MAX
    &&& grid.rows >= 1 && grid.columns >= 1 ==> grid.column_step >= 1 && shift < 16
}

/// Whether every row of a grid lies within a plane of `data_len` bytes and
/// there is room for all of them in the buffer from `filled` on.
pub open spec fn copy_fits(
    data_len: int,
    stride: int,
    grid: Grid,
    shift: u32,
    out_len: int,
    filled: int,
) -> bool {
    &&& grid.columns >= 1
    &&& grid.columns_needed() <= usize::MAX
    &&& (grid.rows == 0 || filled + grid.rows * grid.columns <= out_len)
    &&& forall|row: int|
        0 <= row < grid.rows ==> #[trigger] row_start(stride, grid, shift, row) + row_length(
            grid,
            shift,
        ) <= data_len
}

/// A row that starts past the end of every buffer, or is longer than any
/// buffer, lies outside the plane.
proof fn lemma_row_outside(data_len: int, stride: int, grid: Grid, shift: u32, row: int)
    requires
        data_len <= usize::MAX,
        row_start(stride, grid, shift, row) > usize::MAX || row_length(grid, shift) > usize::MAX,
        row_start(stride, grid, shift, row) >= 0,
        row_length(grid, shift) >= 0,
    ensures
        row_start(stride, grid, shift, row) + row_length(grid, shift) > data_len,
{
}

/// Copy the samples of `grid` out of `plane`, a row at a time, into the
/// next bytes of `out`. Fails, having written an unknown part of them, when a
/// row reaches past the plane or there is no room left for it.
pub fn copy(out: &mut Out<'_>, plane: &Plane<'_>, grid: &Grid, shift: u32) -> (r: bool)
    requires
        grid_usable(*grid, shift),
    ensures
        final(final(out).data)@ == final(old(out).data)@,
        r == copy_fits(
            plane.data@.len() as int,
            plane.stride as int,
            *grid,
            shift,
            old(out).data@.len() as int,
            old(out).filled as int,
        ),
        final(out).data@.len() == old(out).data@.len(),
        r ==> final(out).filled == old(out).filled + grid.rows * grid.columns,
        r ==> forall|row: int, column: int|
            0 <= row < grid.rows && 0 <= column < grid.columns ==> final(out).data@[old(out).filled
                + row * grid.columns + column] == #[trigger] pixel(
                plane.data@,
                plane.stride as int,
                *grid,
                shift,
                row,
                column,
            ),
        r ==> forall|i: int|
            0 <= i < old(out).data@.len() && !(old(out).filled <= i < old(out).filled + grid.rows
                * grid.columns) ==> final(out).data@[i] == old(out).data@[i],
{
    let ghost data = plane.data@;
    let ghost stride = plane.stride as int;
    let ghost g = *grid;
    let ghost first = out.filled as int;
    let ghost initial = out.data@;
    let width: usize = if shift == 0 {
        1
    } else {
        2
    };
    let columns = match grid.source_columns() {
        Some(columns) => columns,
        None => {
            return false;
        },
    };
    let mut row: usize = 0;
    while row < grid.rows
        invariant
            final(out.data)@ == final(old(out).data)@,
            g == *grid,
            data == plane.data@,
            stride == plane.stride as int,
            first == old(out).filled as int,
            initial == old(out).data@,
            grid_usable(g, shift),
            g.columns >= 1,
            g.columns_needed() <= usize::MAX,
            columns == g.columns_needed(),
            width == sample_size(shift),
            row <= g.rows,
            out.data@.len() == initial.len(),
            out.filled == first + row * g.columns,
            row >= 1 ==> out.filled <= initial.len(),
            forall|r2: int| 0 <= r2 < row ==> #[trigger] row_start(stride, g, shift, r2) + row_length(g, shift) <= data.len(),
            forall|r2: int, c: int|
                0 <= r2 < row && 0 <= c < g.columns ==> out.data@[first + r2 * g.columns + c]
                    == #[trigger] pixel(data, stride, g, shift, r2, c),
            forall|i: int|
                0 <= i < initial.len() && !(first <= i < first + row * g.columns) ==> out.data@[i]
                    == initial[i],
        decreases g.rows - row,
    {
        proof {
            assert(row * g.row_step * stride >= 0) by (nonlinear_arith)
                requires
                    row >= 0,
                    g.row_step >= 0,
                    stride >= 0,
            ;
            assert(g.columns_needed() - g.offset >= 1) by (nonlinear_arith)
                requires
                    g.columns >= 1,
                    g.column_step >= 0,
                    g.columns_needed() == (g.columns - 1) * g.column_step + g.offset + 1,
            ;
        }
        let total = plane.data.len();
        let spread: usize = if row == 0 || grid.row_step == 0 || plane.stride == 0 {
            0
        } else {
            match row.checked_mul(grid.row_step) {
                Some(rows) => match rows.checked_mul(plane.stride) {
                    Some(spread) => spread,
                    None => {
                        proof {
                            lemma_row_outside(total as int, stride, g, shift, row as int);
                        }
                        return false;
                    },
                },
                None => {
                    proof {
                        assert(row * g.row_step * stride >= row * g.row_step) by (nonlinear_arith)
                            requires
                                row * g.row_step >= 0,
                                stride >= 1,
                        ;
                        lemma_row_outside(total as int, stride, g, shift, row as int);
                    }
                    return false;
                },
            }
        };
        proof {
            assert(spread == row * g.row_step * stride) by (nonlinear_arith)
                requires
                    row == 0 || g.row_step == 0 || stride == 0 ==> spread == 0,
                    !(row == 0 || g.row_step == 0 || stride == 0) ==> spread == row * g.row_step * stride,
            ;
        }
        let skip = match grid.offset.checked_mul(width) {
            Some(skip) => skip,
            None => {
                proof {
                    lemma_row_outside(total as int, stride, g, shift, row as int);
                }
                return false;
            },
        };
        let start = match spread.checked_add(skip) {
            Some(start) => start,
            None => {
                proof {
                    lemma_row_outside(total as int, stride, g, shift, row as int);
                }
                return false;
            },
        };
        let length = match (columns - grid.offset).checked_mul(width) {
            Some(length) => length,
            None => {
                proof {
                    lemma_row_outside(total as int, stride, g, shift, row as int);
                }
                return false;
            },
        };
        assert(start == row_start(stride, g, shift, row as int));
        assert(length == row_length(g, shift));
        if !(start <= plane.data.len() && length <= plane.data.len() - start) {
            return false;
        }
        let source = slice_subrange(plane.data, start, start + length);
        let at = match out.take(grid.columns) {
            Some(at) => at,
            None => {
                proof {
                    assert((row + 1) * g.columns <= g.rows * g.columns) by (nonlinear_arith)
                        requires
                            row + 1 <= g.rows,
                            g.columns >= 0,
                    ;
                    assert((row + 1) * g.columns == row * g.columns + g.columns) by (nonlinear_arith);
                }
                return false;
            },
        };
        let ghost before = out.data@;
        proof {
            if shift == 0 && grid.column_step == 1 {
                assert(length == g.columns) by (nonlinear_arith)
                    requires
                        length == ((g.columns - 1) * 1 + g.offset + 1 - g.offset) * 1,
                ;
            }
        }
        copy_row(out.data, at, grid.columns, source, grid.column_step, shift);
        proof {
            assert((row + 1) * g.columns == row * g.columns + g.columns) by (nonlinear_arith);
            assert forall|c: int| 0 <= c < g.columns implies out.data@[first + row * g.columns + c]
                == #[trigger] pixel(data, stride, g, shift, row as int, c) by {
                let k = c * g.column_step;
                assert(k <= (g.columns - 1) * g.column_step) by (nonlinear_arith)
                    requires
                        0 <= c < g.columns,
                        g.column_step >= 0,
                        k == c * g.column_step,
                ;
                assert(c * g.column_step * sample_size(shift) == k * sample_size(shift)) by (nonlinear_arith)
                    requires k == c * g.column_step;
                assert(row_sample(source@, c, g.column_step as int, shift) is Some);
                assert(out.data@[at + c] == row_sample(source@, c, g.column_step as int, shift)->0);
            }
            assert forall|r2: int, c: int|
                0 <= r2 < row + 1 && 0 <= c < g.columns implies out.data@[first + r2 * g.columns + c]
                    == #[trigger] pixel(data, stride, g, shift, r2, c) by {
                if r2 < row {
                    assert(first + r2 * g.columns + c < first + row * g.columns) by (nonlinear_arith)
                        requires
                            0 <= r2 < row,
                            0 <= c < g.columns,
                    ;
                    assert(first + r2 * g.columns + c >= first) by (nonlinear_arith)
                        requires
                            0 <= r2,
                            0 <= c,
                            g.columns >= 0,
                    ;
                    assert(out.data@[first + r2 * g.columns + c] == before[first + r2 * g.columns + c]);
                }
            }
        }
        row = row + 1;
    }
    true
}

/// The part of a frame's plane `index` that `grid` reads, and how far apart
/// its rows start: as many rows as the grid reaches into. Absent when the
/// frame lacks the plane, its rows do not start a positive distance apart
/// or it is too short.
pub open spec fn plane_view(frame: &Frame, index: int, grid: Grid) -> Option<(Seq<u8>, int)> {
    if 0 <= index < frame.planes@.len() {
        let plane = frame.planes@[index];
        let stride = plane.linesize as int;
        if stride > 0 && grid.rows >= 1 && stride * grid.rows_needed() <= plane.data@.len() {
            Some((plane.data@.subrange(0, stride * grid.rows_needed()), stride))
        } else {
            None
        }
    } else {
        None
    }
}

proof fn lemma_rows_needed_fit(stride: int, grid: Grid, length: int)
    requires
        stride >= 1,
        grid.rows >= 1,
        stride * grid.rows_needed() <= length,
    ensures
        grid.rows_needed() <= length,
        grid.rows_needed() >= 1,
{
    assert(grid.rows_needed() >= 1) by (nonlinear_arith)
        requires
            grid.rows >= 1,
            grid.rows_needed() == (grid.rows - 1) * grid.row_step + 1,
            grid.row_step >= 0,
    ;
    assert(grid.rows_needed() <= stride * grid.rows_needed()) by (nonlinear_arith)
        requires
            stride >= 1,
            grid.rows_needed() >= 1,
    ;
}

/// The part of plane `index` of `frame` that `grid` reads.
fn plane<'a>(frame: &Frame<'a>, index: usize, grid: &Grid) -> (r: Option<Plane<'a>>)
    ensures
        match plane_view(frame, index as int, *grid) {
            Some((data, stride)) => r is Some && r->0.data@ == data && r->0.stride == stride,
            None => r is None,
        },
{
    if index >= frame.planes.len() {
        return None;
    }
    let data = frame.planes[index].data;
    let linesize = frame.planes[index].linesize;
    let total = data.len();
    if linesize <= 0 {
        return None;
    }
    let stride = linesize as usize;
    let rows = match grid.source_rows() {
        Some(rows) => rows,
        None => {
            proof {
                if grid.rows >= 1 && stride * grid.rows_needed() <= data@.len() {
                    lemma_rows_needed_fit(stride as int, *grid, data@.len() as int);
                }
            }
            return None;
        },
    };
    let length = match stride.checked_mul(rows) {
        Some(length) => length,
        None => return None,
    };
    if length > total {
        return None;
    }
    Some(Plane { data: slice_subrange(data, 0, length), stride })
}

/// One plane of an image: which plane of the frame it is read from, which
/// of its samples are kept, and how far they are shifted.
pub type Step = (usize, Grid, u32);

/// How many bytes a step lays down.
pub open spec fn step_size(step: Step) -> int {
    step.1.rows * step.1.columns
}

/// Where step `k` starts laying bytes down, the first starting at `base`.
pub open spec fn step_start(steps: Seq<Step>, base: int, k: int) -> int
    decreases k,
{
    if k <= 0 {
        base
    } else {
        step_start(steps, base, k - 1) + step_size(steps[k - 1])
    }
}

/// Whether a step can be carried out on `frame` from `filled` in a buffer
/// of `out_len` bytes.
pub open spec fn step_fits(frame: &Frame, step: Step, out_len: int, filled: int) -> bool {
    match plane_view(frame, step.0 as int, step.1) {
        Some((data, stride)) => copy_fits(data.len() as int, stride, step.1, step.2, out_len, filled),
        None => false,
    }
}

/// Whether `out` holds, from `filled`, what a step lays down.
pub open spec fn step_laid(frame: &Frame, step: Step, out: Seq<u8>, filled: int) -> bool {
    match plane_view(frame, step.0 as int, step.1) {
        Some((data, stride)) => forall|row: int, column: int|
            0 <= row < step.1.rows && 0 <= column < step.1.columns ==> out[filled + row
                * step.1.columns + column] == #[trigger] pixel(data, stride, step.1, step.2, row, column),
        None => false,
    }
}

/// Whether every step fits, each starting where the one before ended.
pub open spec fn steps_fit(frame: &Frame, steps: Seq<Step>, out_len: int, base: int) -> bool {
    forall|k: int|
        0 <= k < steps.len() ==> #[trigger] step_fits(frame, steps[k], out_len, step_start(steps, base, k))
}

/// Whether `out` holds what every step lays down.
pub open spec fn steps_laid(frame: &Frame, steps: Seq<Step>, out: Seq<u8>, base: int) -> bool {
    forall|k: int|
        0 <= k < steps.len() ==> #[trigger] step_laid(frame, steps[k], out, step_start(steps, base, k))
}

proof fn lemma_step_start_grows(steps: Seq<Step>, base: int, j: int, k: int)
    requires
        0 <= j <= k <= steps.len(),
        forall|i: int| 0 <= i < steps.len() ==> step_size(#[trigger] steps[i]) >= 0,
    ensures
        step_start(steps, base, j) <= step_start(steps, base, k),
    decreases k - j,
{
    if j < k {
        lemma_step_start_grows(steps, base, j, k - 1);
        assert(step_size(steps[k - 1]) >= 0);
    }
}

proof fn lemma_size_nonnegative(grid: Grid)
    ensures
        grid.rows * grid.columns >= 0,
{
    assert(grid.rows * grid.columns >= 0) by (nonlinear_arith)
        requires
            grid.rows >= 0,
            grid.columns >= 0,
    ;
}

/// What a step laid down stays laid down when bytes from `end` on change.
proof fn lemma_step_laid_kept(frame: &Frame, step: Step, before: Seq<u8>, after: Seq<u8>, filled: int, end: int)
    requires
        step_laid(frame, step, before, filled),
        filled + step_size(step) <= end,
        end <= before.len(),
        before.len() == after.len(),
        forall|i: int| 0 <= i < end ==> after[i] == before[i],
        filled >= 0,
    ensures
        step_laid(frame, step, after, filled),
{
    let g = step.1;
    assert forall|row: int, column: int|
        0 <= row < g.rows && 0 <= column < g.columns implies #[trigger] after[filled + row * g.columns
            + column] == before[filled + row * g.columns + column] by {
        assert(row * g.columns + column < g.rows * g.columns) by (nonlinear_arith)
            requires
                0 <= row < g.rows,
                0 <= column < g.columns,
        ;
        assert(row * g.columns + column >= 0) by (nonlinear_arith)
            requires
                0 <= row,
                0 <= column,
                g.columns >= 0,
        ;
    }
}

/// Carry the steps out one after the other, each laying its plane down in
/// the next bytes of `out`; stop at the first one that does not fit.
fn planar(out: &mut Out<'_>, frame: &Frame<'_>, planes: &[Step]) -> (r: bool)
    requires
        forall|k: int| 0 <= k < planes@.len() ==> grid_usable(#[trigger] planes@[k].1, planes@[k].2),
    ensures
        final(final(out).data)@ == final(old(out).data)@,
        final(out).data@.len() == old(out).data@.len(),
        r == steps_fit(frame, planes@, old(out).data@.len() as int, old(out).filled as int),
        r ==> final(out).filled == step_start(planes@, old(out).filled as int, planes@.len() as int),
        r ==> steps_laid(frame, planes@, final(out).data@, old(out).filled as int),
        r ==> forall|i: int|
            0 <= i < old(out).data@.len() && !(old(out).filled <= i < final(out).filled)
                ==> final(out).data@[i] == old(out).data@[i],
{
    let ghost steps = planes@;
    let ghost base = out.filled as int;
    let ghost initial = out.data@;
    let ghost out_len = out.data@.len() as int;
    proof {
        assert forall|i: int| 0 <= i < steps.len() implies step_size(#[trigger] steps[i]) >= 0 by {
            lemma_size_nonnegative(steps[i].1);
        }
    }
    let mut i: usize = 0;
    while i < planes.len()
        invariant
            final(out.data)@ == final(old(out).data)@,
            steps == planes@,
            base == old(out).filled as int,
            initial == old(out).data@,
            out_len == initial.len(),
            out.data@.len() == out_len,
            i <= steps.len(),
            forall|k: int| 0 <= k < steps.len() ==> grid_usable(#[trigger] steps[k].1, steps[k].2),
            forall|k: int| 0 <= k < steps.len() ==> step_size(#[trigger] steps[k]) >= 0,
            out.filled == step_start(steps, base, i as int),
            forall|k: int|
                0 <= k < i ==> #[trigger] step_fits(frame, steps[k], out_len, step_start(steps, base, k)),
            forall|k: int|
                0 <= k < i ==> #[trigger] step_laid(frame, steps[k], out.data@, step_start(steps, base, k)),
            forall|j: int|
                0 <= j < out_len && !(base <= j < out.filled) ==> out.data@[j] == initial[j],
        decreases steps.len() - i,
    {
        let (index, grid, shift) = planes[i];
        assert(grid_usable(steps[i as int].1, steps[i as int].2));
        let ghost start = out.filled as int;
        let source = match plane(frame, index, &grid) {
            Some(source) => source,
            None => {
                assert(!step_fits(frame, steps[i as int], out_len, step_start(steps, base, i as int)));
                return false;
            },
        };
        let ghost before = out.data@;
        if !copy(out, &source, &grid, shift) {
            assert(!step_fits(frame, steps[i as int], out_len, step_start(steps, base, i as int)));
            return false;
        }
        proof {
            lemma_step_start_grows(steps, base, 0, i as int);
            assert(step_start(steps, base, i + 1) == start + step_size(steps[i as int]));
            assert(step_laid(frame, steps[i as int], out.data@, start));
            assert forall|k: int| 0 <= k < i + 1 implies #[trigger] step_laid(
                frame,
                steps[k],
                out.data@,
                step_start(steps, base, k),
            ) by {
                if k < i {
                    lemma_step_start_grows(steps, base, k + 1, i as int);
                    lemma_step_start_grows(steps, base, 0, k);
                    lemma_step_laid_kept(frame, steps[k], before, out.data@, step_start(steps, base, k), start);
                }
            }
        }
        i = i + 1;
    }
    true
}

/// The grid of one component of a plane of pairs, `offset` saying which.
pub open spec fn component_of(grid: Grid, offset: usize) -> Grid {
    Grid { columns: grid.columns, rows: grid.rows, column_step: 2, row_step: grid.row_step, offset }
}

/// The two steps that split plane 1, a plane of pairs, into a plane per
/// component, in the order `offsets` gives.
pub open spec fn pair_steps(grid: Grid, shift: u32, offsets: [usize; 2]) -> Seq<Step> {
    seq![(1usize, component_of(grid, offsets[0]), shift), (1usize, component_of(grid, offsets[1]), shift)]
}

proof fn lemma_two_steps(steps: Seq<Step>, base: int)
    requires
        steps.len() == 2,
    ensures
        step_start(steps, base, 0) == base,
        step_start(steps, base, 1) == base + step_size(steps[0]),
        step_start(steps, base, 2) == base + step_size(steps[0]) + step_size(steps[1]),
{
    assert(step_start(steps, base, 0) == base);
    assert(step_start(steps, base, 1) == base + step_size(steps[0]));
}

/// Split plane 1 of `frame`, a plane of pairs, into one plane per
/// component, laying them down one after the other in the next bytes of
/// `out`, in the order `offsets` gives.
fn interleaved(out: &mut Out<'_>, frame: &Frame<'_>, grid: &Grid, shift: u32, offsets: [usize; 2]) -> (r: bool)
    requires
        grid_usable(component_of(*grid, offsets[0]), shift),
        grid_usable(component_of(*grid, offsets[1]), shift),
    ensures
        final(final(out).data)@ == final(old(out).data)@,
        final(out).data@.len() == old(out).data@.len(),
        r == steps_fit(frame, pair_steps(*grid, shift, offsets), old(out).data@.len() as int, old(out).filled as int),
        r ==> final(out).filled == step_start(pair_steps(*grid, shift, offsets), old(out).filled as int, 2),
        r ==> steps_laid(frame, pair_steps(*grid, shift, offsets), final(out).data@, old(out).filled as int),
        r ==> forall|i: int|
            0 <= i < old(out).data@.len() && !(old(out).filled <= i < final(out).filled)
                ==> final(out).data@[i] == old(out).data@[i],
{
    let ghost steps = pair_steps(*grid, shift, offsets);
    let ghost base = old(out).filled as int;
    let ghost out_len = old(out).data@.len() as int;
    proof {
        lemma_two_steps(steps, base);
        lemma_size_nonnegative(steps[0].1);
        lemma_size_nonnegative(steps[1].1);
        assert(plane_view(frame, 1, steps[0].1) == plane_view(frame, 1, *grid));
        assert(plane_view(frame, 1, steps[1].1) == plane_view(frame, 1, *grid));
    }
    let source = match plane(frame, 1, grid) {
        Some(source) => source,
        None => {
            assert(!step_fits(frame, steps[0], out_len, step_start(steps, base, 0)));
            return false;
        },
    };
    let first = grid.component(offsets[0]);
    if !copy(out, &source, &first, shift) {
        assert(!step_fits(frame, steps[0], out_len, step_start(steps, base, 0)));
        return false;
    }
    let ghost middle = out.data@;
    assert(step_laid(frame, steps[0], middle, base));
    let second = grid.component(offsets[1]);
    if !copy(out, &source, &second, shift) {
        assert(!step_fits(frame, steps[1], out_len, step_start(steps, base, 1)));
        return false;
    }
    proof {
        lemma_step_laid_kept(frame, steps[0], middle, out.data@, base, base + step_size(steps[0]));
        assert(step_laid(frame, steps[1], out.data@, step_start(steps, base, 1)));
        assert(step_fits(frame, steps[0], out_len, step_start(steps, base, 0)));
        assert(step_fits(frame, steps[1], out_len, step_start(steps, base, 1)));
    }
    true
}

proof fn lemma_start_of_concat(a: Seq<Step>, b: Seq<Step>, base: int, k: int)
    requires
        0 <= k <= a.len() + b.len(),
    ensures
        k <= a.len() ==> step_start(a + b, base, k) == step_start(a, base, k),
        k >= a.len() ==> step_start(a + b, base, k) == step_start(
            b,
            step_start(a, base, a.len() as int),
            k - a.len(),
        ),
    decreases k,
{
    if k > 0 {
        lemma_start_of_concat(a, b, base, k - 1);
        if k > a.len() {
            assert((a + b)[k - 1] == b[k - 1 - a.len()]);
        } else {
            assert((a + b)[k - 1] == a[k - 1]);
        }
    }
}

/// Two runs of steps, one after the other, fit where each fits in turn, and
/// lay down what each lays down.
proof fn lemma_steps_concat(frame: &Frame, a: Seq<Step>, b: Seq<Step>, out_len: int, out: Seq<u8>, base: int)
    ensures
        steps_fit(frame, a + b, out_len, base) == (steps_fit(frame, a, out_len, base) && steps_fit(
            frame,
            b,
            out_len,
            step_start(a, base, a.len() as int),
        )),
        steps_laid(frame, a + b, out, base) == (steps_laid(frame, a, out, base) && steps_laid(
            frame,
            b,
            out,
            step_start(a, base, a.len() as int),
        )),
        step_start(a + b, base, (a.len() + b.len()) as int) == step_start(
            b,
            step_start(a, base, a.len() as int),
            b.len() as int,
        ),
{
    let ab = a + b;
    let middle = step_start(a, base, a.len() as int);
    assert forall|k: int| 0 <= k <= ab.len() implies (k <= a.len() ==> step_start(ab, base, k)
        == step_start(a, base, k)) && (k >= a.len() ==> step_start(ab, base, k) == step_start(
        b,
        middle,
        k - a.len(),
    )) by {
        lemma_start_of_concat(a, b, base, k);
    }
    if steps_fit(frame, ab, out_len, base) {
        assert forall|k: int| 0 <= k < a.len() implies #[trigger] step_fits(
            frame,
            a[k],
            out_len,
            step_start(a, base, k),
        ) by {
            assert(ab[k] == a[k]);
            assert(step_fits(frame, ab[k], out_len, step_start(ab, base, k)));
        }
        assert forall|k: int| 0 <= k < b.len() implies #[trigger] step_fits(
            frame,
            b[k],
            out_len,
            step_start(b, middle, k),
        ) by {
            assert(ab[a.len() + k] == b[k]);
            assert(step_fits(frame, ab[a.len() + k], out_len, step_start(ab, base, a.len() + k)));
        }
    }
    if steps_fit(frame, a, out_len, base) && steps_fit(frame, b, out_len, middle) {
        assert forall|k: int| 0 <= k < ab.len() implies #[trigger] step_fits(
            frame,
            ab[k],
            out_len,
            step_start(ab, base, k),
        ) by {
            if k < a.len() {
                assert(ab[k] == a[k]);
                assert(step_fits(frame, a[k], out_len, step_start(a, base, k)));
            } else {
                assert(ab[k] == b[k - a.len()]);
                assert(step_fits(frame, b[k - a.len()], out_len, step_start(b, middle, k - a.len())));
            }
        }
    }
    if steps_laid(frame, ab, out, base) {
        assert forall|k: int| 0 <= k < a.len() implies #[trigger] step_laid(
            frame,
            a[k],
            out,
            step_start(a, base, k),
        ) by {
            assert(ab[k] == a[k]);
            assert(step_laid(frame, ab[k], out, step_start(ab, base, k)));
        }
        assert forall|k: int| 0 <= k < b.len() implies #[trigger] step_laid(
            frame,
            b[k],
            out,
            step_start(b, middle, k),
        ) by {
            assert(ab[a.len() + k] == b[k]);
            assert(step_laid(frame, ab[a.len() + k], out, step_start(ab, base, a.len() + k)));
        }
    }
    if steps_laid(frame, a, out, base) && steps_laid(frame, b, out, middle) {
        assert forall|k: int| 0 <= k < ab.len() implies #[trigger] step_laid(
            frame,
            ab[k],
            out,
            step_start(ab, base, k),
        ) by {
            if k < a.len() {
                assert(ab[k] == a[k]);
                assert(step_laid(frame, a[k], out, step_start(a, base, k)));
            } else {
                assert(ab[k] == b[k - a.len()]);
                assert(step_laid(frame, b[k - a.len()], out, step_start(b, middle, k - a.len())));
            }
        }
    }
}

/// How the decoder laid a frame out, as the one thing that decides what has
/// to be copied where. Naming the layout rather than the pixel format keeps
/// the choice of it and the carrying of it out from drifting apart.
#[derive(Clone, Copy, PartialEq, Eq, Structural, Debug)]
pub enum Source {
    /// A plane per component, the chroma at half the width and height.
    Planar,
    /// The same, with the chroma at full height.
    PlanarTall,
    /// The same, at full width and height.
    PlanarWide,
    /// The same, ten bits a sample in the low bits.
    PlanarTen,
    /// A luma plane and a plane of chroma pairs.
    SemiPlanar,
    /// The same, the pairs the other way round.
    SemiPlanarSwapped,
    /// The same, ten bits a sample in the high bits.
    SemiPlanarTen,
    /// A luma plane and a plane of chroma pairs, kept as they are.
    AsIs,
}

/// What a decoded frame becomes when it is written to a camera.
#[derive(Clone, Copy, PartialEq, Eq, Debug)]
pub struct Image {
    pub width: u32,
    pub height: u32,
    pub format: Format,
    pub source: Source,
}

/// A frame's width and height, each rounded down to an even number, when
/// neither is negative or rounds down to nothing.
pub open spec fn frame_dimensions(width: i32, height: i32) -> Option<(usize, usize)> {
    if width >= 0 && height >= 0 && width - width % 2 != 0 && height - height % 2 != 0 {
        Some(((width - width % 2) as usize, (height - height % 2) as usize))
    } else {
        None
    }
}

fn dimensions(frame: &Frame<'_>) -> (r: Option<(usize, usize)>)
    ensures
        r == frame_dimensions(frame.width, frame.height),
{
    if frame.width < 0 || frame.height < 0 {
        return None;
    }
    let width = (frame.width - frame.width % 2) as usize;
    let height = (frame.height - frame.height % 2) as usize;
    if width != 0 && height != 0 {
        Some((width, height))
    } else {
        None
    }
}

/// What the camera is written, and from which layout, for a frame the
/// decoder laid out in `decoded`; `nv12` says whether the camera takes
/// interleaved chroma.
pub open spec fn conversion(decoded: PictureFormat, nv12: bool) -> Option<(Format, Source)> {
    match decoded {
        PictureFormat::Nv12 => if nv12 {
            Some((Format::Nv12, Source::AsIs))
        } else {
            Some((Format::I420, Source::SemiPlanar))
        },
        PictureFormat::Yuv420p | PictureFormat::Yuvj420p => Some((Format::I420, Source::Planar)),
        PictureFormat::Nv21 => Some((Format::I420, Source::SemiPlanarSwapped)),
        PictureFormat::Yuv422p => Some((Format::I420, Source::PlanarTall)),
        PictureFormat::Yuv444p => Some((Format::I420, Source::PlanarWide)),
        PictureFormat::Yuv420p10le => Some((Format::I420, Source::PlanarTen)),
        PictureFormat::P010le => Some((Format::I420, Source::SemiPlanarTen)),
        PictureFormat::Other(_) => None,
    }
}

/// Work out what a decoded frame becomes, without copying anything yet.
///
/// `nv12` says whether the device takes interleaved chroma. When it does, a
/// frame that already is NV12 keeps its chroma as it is, which is the whole
/// of what a hardware decoder hands over and saves splitting it into two
/// planes only for the program reading the camera to weave it back together.
/// Every other frame becomes I420, which every device takes.
pub fn image(frame: &Frame<'_>, nv12: bool) -> (r: Option<Image>)
    ensures
        r == match (frame_dimensions(frame.width, frame.height), conversion(frame.picture_format, nv12)) {
            (Some((width, height)), Some((format, source))) => Some(
                Image { width: width as u32, height: height as u32, format, source },
            ),
            _ => None,
        },
{
    let (width, height) = match dimensions(frame) {
        Some(dimensions) => dimensions,
        None => return None,
    };
    let (format, source) = match frame.picture_format {
        PictureFormat::Nv12 => if nv12 {
            (Format::Nv12, Source::AsIs)
        } else {
            (Format::I420, Source::SemiPlanar)
        },
        PictureFormat::Yuv420p | PictureFormat::Yuvj420p => (Format::I420, Source::Planar),
        PictureFormat::Nv21 => (Format::I420, Source::SemiPlanarSwapped),
        // 4:2:2 keeps every other chroma row, and 4:4:4 also keeps every other
        // chroma column.
        PictureFormat::Yuv422p => (Format::I420, Source::PlanarTall),
        PictureFormat::Yuv444p => (Format::I420, Source::PlanarWide),
        PictureFormat::Yuv420p10le => (Format::I420, Source::PlanarTen),
        PictureFormat::P010le => (Format::I420, Source::SemiPlanarTen),
        PictureFormat::Other(_) => return None,
    };
    Some(Image { width: width as u32, height: height as u32, format, source })
}

/// The steps that lay an image out: the luma plane, then the chroma, a
/// plane or a plane of pairs.
pub open spec fn image_steps(source: Source, width: usize, height: usize) -> Seq<Step> {
    let luma = Grid { columns: width, rows: height, column_step: 1, row_step: 1, offset: 0 };
    let chroma = Grid { columns: width / 2, rows: height / 2, column_step: 1, row_step: 1, offset: 0 };
    match source {
        Source::AsIs => seq![
            (0usize, luma, 0u32),
            (1usize, Grid { columns: width, rows: height / 2, column_step: 1, row_step: 1, offset: 0 }, 0u32),
        ],
        Source::Planar => seq![(0usize, luma, 0u32), (1usize, chroma, 0u32), (2usize, chroma, 0u32)],
        Source::PlanarTall => {
            let tall = Grid { row_step: 2, ..chroma };
            seq![(0usize, luma, 0u32), (1usize, tall, 0u32), (2usize, tall, 0u32)]
        },
        Source::PlanarWide => {
            let wide = Grid { column_step: 2, row_step: 2, ..chroma };
            seq![(0usize, luma, 0u32), (1usize, wide, 0u32), (2usize, wide, 0u32)]
        },
        Source::PlanarTen => seq![(0usize, luma, 2u32), (1usize, chroma, 2u32), (2usize, chroma, 2u32)],
        Source::SemiPlanar => seq![(0usize, luma, 0u32)] + pair_steps(chroma, 0, [0, 1]),
        Source::SemiPlanarSwapped => seq![(0usize, luma, 0u32)] + pair_steps(chroma, 0, [1, 0]),
        Source::SemiPlanarTen => seq![(0usize, luma, 8u32)] + pair_steps(chroma, 8, [0, 1]),
    }
}

/// How many bytes an image takes: both layouts carry twelve bits a pixel.
pub open spec fn image_size(image: Image) -> int {
    image.width * image.height * 3 / 2
}

impl Image {
    /// Whether the frame is written the way the decoder laid it out, with no
    /// conversion beyond dropping the padding a stride leaves at each row.
    pub fn passes_through(self) -> (r: bool)
        ensures
            r == (self.source == Source::AsIs),
    {
        match self.source {
            Source::AsIs => true,
            _ => false,
        }
    }

    /// How many bytes `write` fills.
    pub fn size(self) -> (r: usize)
        requires
            self.width * self.height * 3 <= usize::MAX,
        ensures
            r == image_size(self),
    {
        proof {
            assert(self.width * self.height <= self.width * self.height * 3) by (nonlinear_arith)
                requires
                    self.width * self.height >= 0,
            ;
            assert(self.width * self.height >= 0) by (nonlinear_arith);
        }
        self.width as usize * self.height as usize * 3 / 2
    }
}

/// Steps carried out one after the other by two calls.
proof fn lemma_two_runs(
    frame: &Frame,
    a: Seq<Step>,
    b: Seq<Step>,
    out_len: int,
    middle: Seq<u8>,
    last: Seq<u8>,
    end: int,
)
    requires
        a.len() == 1,
        middle.len() == out_len,
        last.len() == out_len,
        steps_fit(frame, a, out_len, 0),
        steps_laid(frame, a, middle, 0),
        steps_fit(frame, b, out_len, step_start(a, 0, 1)) ==> forall|i: int|
            0 <= i < out_len && !(step_start(a, 0, 1) <= i < end) ==> last[i] == middle[i],
        steps_fit(frame, b, out_len, step_start(a, 0, 1)) ==> steps_laid(frame, b, last, step_start(a, 0, 1)),
    ensures
        steps_fit(frame, a + b, out_len, 0) == steps_fit(frame, b, out_len, step_start(a, 0, 1)),
        steps_fit(frame, a + b, out_len, 0) ==> steps_laid(frame, a + b, last, 0),
{
    lemma_steps_concat(frame, a, b, out_len, last, 0);
    assert(step_start(a, 0, 0) == 0);
    assert(step_start(a, 0, 1) == step_size(a[0]));
    lemma_size_nonnegative(a[0].1);
    assert(step_fits(frame, a[0], out_len, step_start(a, 0, 0)));
    assert(step_laid(frame, a[0], middle, 0));
    if steps_fit(frame, b, out_len, step_start(a, 0, 1)) && step_size(a[0]) <= out_len {
        lemma_step_laid_kept(frame, a[0], middle, last, 0, step_size(a[0]));
        assert(step_laid(frame, a[0], last, step_start(a, 0, 0)));
    }
}

impl Image {
    /// Lay the frame out in `out`, which has to be exactly `size` bytes.
    ///
    /// The buffer is the one the camera is read from, so the frame is written
    /// where it is wanted rather than somewhere it has to be copied from again.
    pub fn write(self, frame: &Frame<'_>, out: &mut [u8]) -> (r: bool)
        requires
            self.width * self.height * 3 <= usize::MAX,
        ensures
            final(out)@.len() == old(out)@.len(),
            old(out)@.len() != image_size(self) ==> final(out)@ == old(out)@,
            r == (old(out)@.len() == image_size(self) && steps_fit(
                frame,
                image_steps(self.source, self.width as usize, self.height as usize),
                old(out)@.len() as int,
                0,
            )),
            r ==> steps_laid(
                frame,
                image_steps(self.source, self.width as usize, self.height as usize),
                final(out)@,
                0,
            ),
    {
        if out.len() != self.size() {
            return false;
        }
        let width = self.width as usize;
        let height = self.height as usize;
        let chroma_width = width / 2;
        let chroma_height = height / 2;
        let luma = Grid::direct(width, height);
        let chroma = Grid::direct(chroma_width, chroma_height);
        let ghost steps = image_steps(self.source, width, height);
        let ghost out_len = out@.len() as int;
        let mut buffer = Out::new(out);
        let done = match self.source {
            // The chroma of an NV12 frame is one plane of half as many rows,
            // holding a pair of samples where I420 holds one.
            Source::AsIs => {
                let planes = [(0usize, luma, 0u32), (1usize, Grid::direct(width, chroma_height), 0u32)];
                assert(planes@ =~= steps);
                planar(&mut buffer, frame, &planes)
            },
            Source::Planar => {
                let planes = [(0usize, luma, 0u32), (1usize, chroma, 0u32), (2usize, chroma, 0u32)];
                assert(planes@ =~= steps);
                planar(&mut buffer, frame, &planes)
            },
            Source::PlanarTall => {
                let tall = Grid { row_step: 2, ..chroma };
                let planes = [(0usize, luma, 0u32), (1usize, tall, 0u32), (2usize, tall, 0u32)];
                assert(planes@ =~= steps);
                planar(&mut buffer, frame, &planes)
            },
            Source::PlanarWide => {
                let wide = Grid { column_step: 2, row_step: 2, ..chroma };
                let planes = [(0usize, luma, 0u32), (1usize, wide, 0u32), (2usize, wide, 0u32)];
                assert(planes@ =~= steps);
                planar(&mut buffer, frame, &planes)
            },
            Source::PlanarTen => {
                let planes = [(0usize, luma, 2u32), (1usize, chroma, 2u32), (2usize, chroma, 2u32)];
                assert(planes@ =~= steps);
                planar(&mut buffer, frame, &planes)
            },
            Source::SemiPlanar => {
                let planes = [(0usize, luma, 0u32)];
                let ghost pairs = pair_steps(chroma, 0, [0, 1]);
                assert(planes@ + pairs =~= steps);
                if planar(&mut buffer, frame, &planes) {
                    let ghost middle = buffer.data@;
                    let done = interleaved(&mut buffer, frame, &chroma, 0, [0, 1]);
                    proof {
                        lemma_two_runs(frame, planes@, pairs, out_len, middle, buffer.data@, buffer.filled as int);
                    }
                    done
                } else {
                    proof {
                        lemma_steps_concat(frame, planes@, pairs, out_len, buffer.data@, 0);
                    }
                    false
                }
            },
            Source::SemiPlanarSwapped => {
                let planes = [(0usize, luma, 0u32)];
                let ghost pairs = pair_steps(chroma, 0, [1, 0]);
                assert(planes@ + pairs =~= steps);
                if planar(&mut buffer, frame, &planes) {
                    let ghost middle = buffer.data@;
                    let done = interleaved(&mut buffer, frame, &chroma, 0, [1, 0]);
                    proof {
                        lemma_two_runs(frame, planes@, pairs, out_len, middle, buffer.data@, buffer.filled as int);
                    }
                    done
                } else {
                    proof {
                        lemma_steps_concat(frame, planes@, pairs, out_len, buffer.data@, 0);
                    }
                    false
                }
            },
            Source::SemiPlanarTen => {
                let planes = [(0usize, luma, 8u32)];
                let ghost pairs = pair_steps(chroma, 8, [0, 1]);
                assert(planes@ + pairs =~= steps);
                if planar(&mut buffer, frame, &planes) {
                    let ghost middle = buffer.data@;
                    let done = interleaved(&mut buffer, frame, &chroma, 8, [0, 1]);
                    proof {
                        lemma_two_runs(frame, planes@, pairs, out_len, middle, buffer.data@, buffer.filled as int);
                    }
                    done
                } else {
                    proof {
                        lemma_steps_concat(frame, planes@, pairs, out_len, buffer.data@, 0);
                    }
                    false
                }
            },
        };
        proof {
            assert(has_resolved(buffer));
        }
        done
    }
}

/// Every layout fills exactly the bytes an image takes: both carry twelve
/// bits a pixel, the chroma at a quarter of the luma each.
pub proof fn lemma_layout_fills_image(image: Image)
    requires
        image.width % 2 == 0,
        image.height % 2 == 0,
    ensures
        step_start(
            image_steps(image.source, image.width as usize, image.height as usize),
            0,
            image_steps(image.source, image.width as usize, image.height as usize).len() as int,
        ) == image_size(image),
{
    let w = image.width as usize;
    let h = image.height as usize;
    let steps = image_steps(image.source, w, h);
    let half_w = w / 2;
    let half_h = h / 2;
    assert(w * h * 3 / 2 == w * h + half_w * half_h * 2) by (nonlinear_arith)
        requires
            w % 2 == 0,
            h % 2 == 0,
            half_w == w / 2,
            half_h == h / 2,
    ;
    assert(w * half_h == half_w * half_h * 2) by (nonlinear_arith)
        requires
            w % 2 == 0,
            half_w == w / 2,
    ;
    assert(h * w == w * h) by (nonlinear_arith);
    assert(half_h * half_w == half_w * half_h) by (nonlinear_arith);
    assert(half_h * w == w * half_h) by (nonlinear_arith);
    assert(steps.len() == 2 || steps.len() == 3);
    assert(step_size(steps[0]) == w * h);
    match image.source {
        Source::AsIs => {
            assert(step_size(steps[1]) == w * half_h);
        },
        Source::SemiPlanar | Source::SemiPlanarSwapped | Source::SemiPlanarTen => {
            assert(step_size(steps[1]) == half_w * half_h);
            assert(step_size(steps[2]) == half_w * half_h);
        },
        _ => {
            assert(step_size(steps[1]) == half_w * half_h);
            assert(step_size(steps[2]) == half_w * half_h);
        },
    }
    assert(step_start(steps, 0, 0) == 0);
    assert(step_start(steps, 0, 1) == w * h);
    assert(step_start(steps, 0, 2) == step_start(steps, 0, 1) + step_size(steps[1]));
    if steps.len() == 3 {
        assert(step_start(steps, 0, 3) == step_start(steps, 0, 2) + step_size(steps[2]));
    }
}


/// The image a frame becomes is never empty and has an even width and
/// height, so its chroma covers it exactly.
pub proof fn lemma_image_is_even(width: i32, height: i32, decoded: PictureFormat, nv12: bool)
    requires
        frame_dimensions(width, height) is Some,
        conversion(decoded, nv12) is Some,
    ensures
        ({
            let (w, h) = frame_dimensions(width, height)->0;
            &&& w > 0 && w % 2 == 0 && w <= width
            &&& h > 0 && h % 2 == 0 && h <= height
        }),
{
}

/// Byte `byte` of row `row` of plane `index` of a frame, its rows
/// `linesize` bytes apart.
pub open spec fn sample(frame: &Frame, index: int, row: int, byte: int) -> u8 {
    frame.planes@[index].data@[row * frame.planes@[index].linesize + byte]
}

/// Byte `(row, column)` of plane `plane` of an I420 picture `width` by
/// `height` packed in `out`: the luma plane, then the U plane, then the V
/// plane, each of the two at half the width and height.
pub open spec fn i420_at(out: Seq<u8>, width: int, height: int, plane: int, row: int, column: int) -> u8 {
    if plane == 0 {
        out[row * width + column]
    } else if plane == 1 {
        out[width * height + row * (width / 2) + column]
    } else {
        out[width * height + (width / 2) * (height / 2) + row * (width / 2) + column]
    }
}

/// Byte `(row, column)` of an NV12 picture `width` by `height` packed in
/// `out`: the luma plane (`plane` 0), then half as many rows of U and V
/// samples taking turns, as wide as the luma.
pub open spec fn nv12_at(out: Seq<u8>, width: int, height: int, plane: int, row: int, column: int) -> u8 {
    if plane == 0 {
        out[row * width + column]
    } else {
        out[width * height + row * width + column]
    }
}

/// The top eight of the ten bits a little endian pair of bytes holds in its
/// low bits.
pub open spec fn top_of_ten(low: u8, high: u8) -> u8 {
    ((low + high * 256) / 4 % 256) as u8
}

proof fn lemma_narrowed_ten(low: u8, high: u8)
    ensures
        narrowed(low, high, 2) == top_of_ten(low, high),
{
    let x: u16 = (low + high * 256) as u16;
    assert(x == low + high * 256);
    assert(((x >> 2u32) as u8) == ((x / 4) % 256) as u8) by (bit_vector);
}

proof fn lemma_narrowed_high(low: u8, high: u8)
    ensures
        narrowed(low, high, 8) == high,
{
    let x: u16 = (low + high * 256) as u16;
    assert(x == low + high * 256);
    assert((x / 256) as u8 == high) by (nonlinear_arith)
        requires
            x == low + high * 256,
            low < 256,
    ;
    assert(((x >> 8u32) as u8) == (x / 256) as u8) by (bit_vector);
}

/// Byte `(row, column)` of what a step laid down is the sample of the
/// frame's plane that the step reads there.
proof fn lemma_laid_sample(
    frame: &Frame,
    step: Step,
    out: Seq<u8>,
    out_len: int,
    filled: int,
    row: int,
    column: int,
)
    requires
        step_fits(frame, step, out_len, filled),
        step_laid(frame, step, out, filled),
        0 <= row < step.1.rows,
        0 <= column < step.1.columns,
    ensures
        ({
            let data = frame.planes@[step.0 as int].data@;
            let at = row_start(frame.planes@[step.0 as int].linesize as int, step.1, step.2, row) + column
                * step.1.column_step * sample_size(step.2);
            out[filled + row * step.1.columns + column] == if step.2 == 0 {
                data[at]
            } else {
                narrowed(data[at], data[at + 1], step.2)
            }
        }),
{
    let (sub, stride) = plane_view(frame, step.0 as int, step.1)->0;
    let grid = step.1;
    let shift = step.2;
    let size = sample_size(shift);
    assert(out[filled + row * grid.columns + column] == pixel(sub, stride, grid, shift, row, column));
    assert(row_start(stride, grid, shift, row) + row_length(grid, shift) <= sub.len());
    assert(column * grid.column_step * size + size <= row_length(grid, shift)) by (nonlinear_arith)
        requires
            0 <= column < grid.columns,
            grid.column_step >= 0,
            size >= 1,
            row_length(grid, shift) == (grid.columns_needed() - grid.offset) * size,
            grid.columns_needed() == (grid.columns - 1) * grid.column_step + grid.offset + 1,
    ;
    assert(row_start(stride, grid, shift, row) >= 0) by (nonlinear_arith)
        requires
            row >= 0,
            grid.row_step >= 0,
            stride > 0,
            grid.offset >= 0,
            size >= 1,
            row_start(stride, grid, shift, row) == row * grid.row_step * stride + grid.offset * size,
    ;
    assert(column * grid.column_step * size >= 0) by (nonlinear_arith)
        requires
            column >= 0,
            grid.column_step >= 0,
            size >= 1,
    ;
}

/// Whether `out` holds, as an I420 picture `width` by `height`, the luma of
/// plane 0 of `frame` and the chroma of its planes 1 (U) and 2 (V), each
/// chroma sample taken from every `row_step`th row and `column_step`th
/// sample of its plane.
pub open spec fn holds_planes(out: Seq<u8>, frame: &Frame, width: int, height: int, row_step: int, column_step: int) -> bool {
    &&& forall|r: int, c: int|
        0 <= r < height && 0 <= c < width ==> #[trigger] i420_at(out, width, height, 0, r, c) == sample(frame, 0, r, c)
    &&& forall|r: int, c: int|
        0 <= r < height / 2 && 0 <= c < width / 2 ==> #[trigger] i420_at(out, width, height, 1, r, c) == sample(
            frame,
            1,
            r * row_step,
            c * column_step,
        )
    &&& forall|r: int, c: int|
        0 <= r < height / 2 && 0 <= c < width / 2 ==> #[trigger] i420_at(out, width, height, 2, r, c) == sample(
            frame,
            2,
            r * row_step,
            c * column_step,
        )
}

/// Whether `out` holds, as an I420 picture `width` by `height`, the luma of
/// plane 0 of `frame` and the chroma of its plane 1, whose rows hold U and V
/// samples taking turns, the U sample of each pair `u` bytes into it.
pub open spec fn holds_pairs(out: Seq<u8>, frame: &Frame, width: int, height: int, u: int) -> bool {
    &&& forall|r: int, c: int|
        0 <= r < height && 0 <= c < width ==> #[trigger] i420_at(out, width, height, 0, r, c) == sample(frame, 0, r, c)
    &&& forall|r: int, c: int|
        0 <= r < height / 2 && 0 <= c < width / 2 ==> #[trigger] i420_at(out, width, height, 1, r, c) == sample(
            frame,
            1,
            r,
            2 * c + u,
        )
    &&& forall|r: int, c: int|
        0 <= r < height / 2 && 0 <= c < width / 2 ==> #[trigger] i420_at(out, width, height, 2, r, c) == sample(
            frame,
            1,
            r,
            2 * c + 1 - u,
        )
}

/// Whether `out` holds, as an NV12 picture `width` by `height`, plane 0 of
/// `frame` and then plane 1 as it is.
pub open spec fn holds_nv12(out: Seq<u8>, frame: &Frame, width: int, height: int) -> bool {
    &&& forall|r: int, c: int|
        0 <= r < height && 0 <= c < width ==> #[trigger] nv12_at(out, width, height, 0, r, c) == sample(frame, 0, r, c)
    &&& forall|r: int, c: int|
        0 <= r < height / 2 && 0 <= c < width ==> #[trigger] nv12_at(out, width, height, 1, r, c) == sample(frame, 1, r, c)
}

/// Whether `out` holds, as an I420 picture `width` by `height`, planes 0, 1
/// and 2 of `frame`, whose samples are ten bits in the low bits of little
/// endian pairs, each kept to its top eight bits.
pub open spec fn holds_ten(out: Seq<u8>, frame: &Frame, width: int, height: int) -> bool {
    &&& forall|r: int, c: int|
        0 <= r < height && 0 <= c < width ==> #[trigger] i420_at(out, width, height, 0, r, c) == top_of_ten(
            sample(frame, 0, r, 2 * c),
            sample(frame, 0, r, 2 * c + 1),
        )
    &&& forall|r: int, c: int|
        0 <= r < height / 2 && 0 <= c < width / 2 ==> #[trigger] i420_at(out, width, height, 1, r, c) == top_of_ten(
            sample(frame, 1, r, 2 * c),
            sample(frame, 1, r, 2 * c + 1),
        )
    &&& forall|r: int, c: int|
        0 <= r < height / 2 && 0 <= c < width / 2 ==> #[trigger] i420_at(out, width, height, 2, r, c) == top_of_ten(
            sample(frame, 2, r, 2 * c),
            sample(frame, 2, r, 2 * c + 1),
        )
}

/// Whether `out` holds, as an I420 picture `width` by `height`, the P010
/// planes of `frame`: samples in the high bits of little endian pairs, so
/// the high byte of each, the chroma pairs U first.
pub open spec fn holds_p010(out: Seq<u8>, frame: &Frame, width: int, height: int) -> bool {
    &&& forall|r: int, c: int|
        0 <= r < height && 0 <= c < width ==> #[trigger] i420_at(out, width, height, 0, r, c) == sample(
            frame,
            0,
            r,
            2 * c + 1,
        )
    &&& forall|r: int, c: int|
        0 <= r < height / 2 && 0 <= c < width / 2 ==> #[trigger] i420_at(out, width, height, 1, r, c) == sample(
            frame,
            1,
            r,
            4 * c + 1,
        )
    &&& forall|r: int, c: int|
        0 <= r < height / 2 && 0 <= c < width / 2 ==> #[trigger] i420_at(out, width, height, 2, r, c) == sample(
            frame,
            1,
            r,
            4 * c + 3,
        )
}

proof fn lemma_starts(steps: Seq<Step>, width: int, height: int)
    requires
        steps.len() >= 2,
        width >= 0,
        height >= 0,
        step_size(steps[0]) == height * width,
        steps.len() == 3 ==> step_size(steps[1]) == (height / 2) * (width / 2),
    ensures
        step_start(steps, 0, 0) == 0,
        step_start(steps, 0, 1) == width * height,
        steps.len() == 3 ==> step_start(steps, 0, 2) == width * height + (width / 2) * (height / 2),
{
    assert(height * width == width * height) by (nonlinear_arith);
    assert((height / 2) * (width / 2) == (width / 2) * (height / 2)) by (nonlinear_arith);
    assert(step_start(steps, 0, 0) == 0);
    assert(step_start(steps, 0, 1) == width * height);
    assert(step_start(steps, 0, 2) == step_start(steps, 0, 1) + step_size(steps[1]));
}

/// What a written picture holds, in terms of the decoded frame alone: the
/// luma plane comes first, row by row, then the chroma. I420 takes U before
/// V; 4:2:2 and 4:4:4 chroma are thinned to every other row (and column);
/// NV12 and NV21 chroma pairs are split, the U sample first in NV12 and
/// second in NV21; ten bit samples keep their top eight bits; an NV12 frame
/// written as NV12 is copied as it is.
#[verifier::spinoff_prover]
pub proof fn lemma_written_picture(frame: &Frame, nv12: bool, image: Image, out: Seq<u8>)
    requires
        frame_dimensions(frame.width, frame.height) == Some((image.width as usize, image.height as usize)),
        conversion(frame.picture_format, nv12) == Some((image.format, image.source)),
        steps_fit(frame, image_steps(image.source, image.width as usize, image.height as usize), out.len() as int, 0),
        steps_laid(frame, image_steps(image.source, image.width as usize, image.height as usize), out, 0),
    ensures
        ({
            let (w, h) = (image.width as int, image.height as int);
            &&& (frame.picture_format is Yuv420p || frame.picture_format is Yuvj420p) ==> holds_planes(
                out,
                frame,
                w,
                h,
                1,
                1,
            )
            &&& frame.picture_format is Yuv422p ==> holds_planes(out, frame, w, h, 2, 1)
            &&& frame.picture_format is Yuv444p ==> holds_planes(out, frame, w, h, 2, 2)
            &&& (frame.picture_format is Nv12 && !nv12) ==> holds_pairs(out, frame, w, h, 0)
            &&& frame.picture_format is Nv21 ==> holds_pairs(out, frame, w, h, 1)
            &&& (frame.picture_format is Nv12 && nv12) ==> holds_nv12(out, frame, w, h)
            &&& frame.picture_format is Yuv420p10le ==> holds_ten(out, frame, w, h)
            &&& frame.picture_format is P010le ==> holds_p010(out, frame, w, h)
        }),
{
    let w = image.width as int;
    let h = image.height as int;
    let steps = image_steps(image.source, image.width as usize, image.height as usize);
    let len = out.len() as int;
    lemma_starts(steps, w, h);
    assert(step_fits(frame, steps[0], len, step_start(steps, 0, 0)));
    assert(step_laid(frame, steps[0], out, step_start(steps, 0, 0)));
    assert(step_fits(frame, steps[1], len, step_start(steps, 0, 1)));
    assert(step_laid(frame, steps[1], out, step_start(steps, 0, 1)));
    if steps.len() == 3 {
        assert(step_fits(frame, steps[2], len, step_start(steps, 0, 2)));
        assert(step_laid(frame, steps[2], out, step_start(steps, 0, 2)));
    }
    match image.source {
        Source::AsIs => {
            assert forall|r: int, c: int| 0 <= r < h && 0 <= c < w implies #[trigger] nv12_at(out, w, h, 0, r, c)
                == sample(frame, 0, r, c) by {
                lemma_laid_sample(frame, steps[0], out, len, 0, r, c);
            }
            assert forall|r: int, c: int| 0 <= r < h / 2 && 0 <= c < w implies #[trigger] nv12_at(out, w, h, 1, r, c)
                == sample(frame, 1, r, c) by {
                lemma_laid_sample(frame, steps[1], out, len, w * h, r, c);
            }
        },
        Source::Planar | Source::PlanarTall | Source::PlanarWide => {
            let rs: int = if image.source is Planar { 1 } else { 2 };
            let cs: int = if image.source is PlanarWide { 2 } else { 1 };
            assert forall|r: int, c: int| 0 <= r < h && 0 <= c < w implies #[trigger] i420_at(out, w, h, 0, r, c)
                == sample(frame, 0, r, c) by {
                lemma_laid_sample(frame, steps[0], out, len, 0, r, c);
            }
            assert forall|r: int, c: int| 0 <= r < h / 2 && 0 <= c < w / 2 implies #[trigger] i420_at(out, w, h, 1, r, c)
                == sample(frame, 1, r * rs, c * cs) by {
                lemma_laid_sample(frame, steps[1], out, len, w * h, r, c);
            }
            assert forall|r: int, c: int| 0 <= r < h / 2 && 0 <= c < w / 2 implies #[trigger] i420_at(out, w, h, 2, r, c)
                == sample(frame, 2, r * rs, c * cs) by {
                lemma_laid_sample(frame, steps[2], out, len, w * h + (w / 2) * (h / 2), r, c);
            }
        },
        Source::SemiPlanar | Source::SemiPlanarSwapped => {
            let u: int = if image.source is SemiPlanar { 0 } else { 1 };
            assert forall|r: int, c: int| 0 <= r < h && 0 <= c < w implies #[trigger] i420_at(out, w, h, 0, r, c)
                == sample(frame, 0, r, c) by {
                lemma_laid_sample(frame, steps[0], out, len, 0, r, c);
            }
            assert forall|r: int, c: int| 0 <= r < h / 2 && 0 <= c < w / 2 implies #[trigger] i420_at(out, w, h, 1, r, c)
                == sample(frame, 1, r, 2 * c + u) by {
                lemma_laid_sample(frame, steps[1], out, len, w * h, r, c);
            }
            assert forall|r: int, c: int| 0 <= r < h / 2 && 0 <= c < w / 2 implies #[trigger] i420_at(out, w, h, 2, r, c)
                == sample(frame, 1, r, 2 * c + 1 - u) by {
                lemma_laid_sample(frame, steps[2], out, len, w * h + (w / 2) * (h / 2), r, c);
            }
        },
        Source::PlanarTen => {
            assert forall|r: int, c: int| 0 <= r < h && 0 <= c < w implies #[trigger] i420_at(out, w, h, 0, r, c)
                == top_of_ten(sample(frame, 0, r, 2 * c), sample(frame, 0, r, 2 * c + 1)) by {
                lemma_laid_sample(frame, steps[0], out, len, 0, r, c);
                lemma_narrowed_ten(sample(frame, 0, r, 2 * c), sample(frame, 0, r, 2 * c + 1));
            }
            assert forall|r: int, c: int| 0 <= r < h / 2 && 0 <= c < w / 2 implies #[trigger] i420_at(out, w, h, 1, r, c)
                == top_of_ten(sample(frame, 1, r, 2 * c), sample(frame, 1, r, 2 * c + 1)) by {
                lemma_laid_sample(frame, steps[1], out, len, w * h, r, c);
                let stride = frame.planes@[1].linesize as int;
                assert(row_start(stride, steps[1].1, 2, r) + c * 1 * 2 == r * stride + 2 * c);
                lemma_narrowed_ten(sample(frame, 1, r, 2 * c), sample(frame, 1, r, 2 * c + 1));
            }
            assert forall|r: int, c: int| 0 <= r < h / 2 && 0 <= c < w / 2 implies #[trigger] i420_at(out, w, h, 2, r, c)
                == top_of_ten(sample(frame, 2, r, 2 * c), sample(frame, 2, r, 2 * c + 1)) by {
                lemma_laid_sample(frame, steps[2], out, len, w * h + (w / 2) * (h / 2), r, c);
                lemma_narrowed_ten(sample(frame, 2, r, 2 * c), sample(frame, 2, r, 2 * c + 1));
            }
        },
        Source::SemiPlanarTen => {
            assert forall|r: int, c: int| 0 <= r < h && 0 <= c < w implies #[trigger] i420_at(out, w, h, 0, r, c)
                == sample(frame, 0, r, 2 * c + 1) by {
                lemma_laid_sample(frame, steps[0], out, len, 0, r, c);
                lemma_narrowed_high(sample(frame, 0, r, 2 * c), sample(frame, 0, r, 2 * c + 1));
            }
            assert forall|r: int, c: int| 0 <= r < h / 2 && 0 <= c < w / 2 implies #[trigger] i420_at(out, w, h, 1, r, c)
                == sample(frame, 1, r, 4 * c + 1) by {
                lemma_laid_sample(frame, steps[1], out, len, w * h, r, c);
                lemma_narrowed_high(sample(frame, 1, r, 4 * c), sample(frame, 1, r, 4 * c + 1));
            }
            assert forall|r: int, c: int| 0 <= r < h / 2 && 0 <= c < w / 2 implies #[trigger] i420_at(out, w, h, 2, r, c)
                == sample(frame, 1, r, 4 * c + 3) by {
                lemma_laid_sample(frame, steps[2], out, len, w * h + (w / 2) * (h / 2), r, c);
                lemma_narrowed_high(sample(frame, 1, r, 4 * c + 2), sample(frame, 1, r, 4 * c + 3));
            }
        },
    }
}

} // verus!
