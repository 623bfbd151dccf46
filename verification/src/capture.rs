//! Copying a captured region into a client's shared-memory buffer, for
//! wlr-screencopy (what `grim` and `wf-recorder` use).
//!
//! The region is read back from the renderer as tightly packed rows of four
//! bytes per pixel; the client's buffer has its own stride. Rendering and
//! reading back are the shell's; whether the copy may happen, and the copy
//! itself, are here.

use vstd::prelude::*;
use crate::desk::Rect;

verus! {

/// Why a capture was refused.
#[derive(Clone, Copy, PartialEq, Eq, Structural, Debug)]
pub enum CaptureError {
    /// The region has no pixels.
    EmptyRegion,
    /// The client's buffer is neither XRGB8888 nor ARGB8888.
    UnsupportedFormat,
    /// The client's buffer, or the read-back pixels, cannot hold the region.
    TooSmall,
}

impl CaptureError {
    pub fn message(self) -> (r: &'static str)
        ensures
            r@ == (match self {
                CaptureError::EmptyRegion => "empty capture region"@,
                CaptureError::UnsupportedFormat => "client buffer has an unsupported format"@,
                CaptureError::TooSmall => "client buffer is too small"@,
            }),
    {
        match self {
            CaptureError::EmptyRegion => "empty capture region",
            CaptureError::UnsupportedFormat => "client buffer has an unsupported format",
            CaptureError::TooSmall => "client buffer is too small",
        }
    }
}

/// Whether a region of `width` by `height` pixels fits: a row of the
/// client's buffer (`stride` bytes) holds a row of the region, its `len`
/// bytes hold `height` rows, and the read-back holds every row.
pub open spec fn region_fits(len: int, stride: int, pixels: int, width: int, height: int) -> bool {
    let row_bytes = width * 4;
    &&& stride >= row_bytes
    &&& len >= stride * height
    &&& pixels >= row_bytes * height
}

/// The outcome of a capture of a `width` by `height` region.
pub open spec fn spec_capture_check(width: i32, height: i32, format_ok: bool, len: int, stride: int, pixels: int) -> Result<
    (),
    CaptureError,
> {
    if width <= 0 || height <= 0 {
        Err(CaptureError::EmptyRegion)
    } else if !format_ok {
        Err(CaptureError::UnsupportedFormat)
    } else if !region_fits(len, stride, pixels, width as int, height as int) {
        Err(CaptureError::TooSmall)
    } else {
        Ok(())
    }
}

/// Row `r` of the region, byte `c`, is the read-back byte `r * row_bytes + c`
/// placed at `r * stride + c` in the client's buffer; the rest of each row
/// and everything after the last row are left as they were.
pub open spec fn copied(old_target: Seq<u8>, target: Seq<u8>, stride: int, pixels: Seq<u8>, row_bytes: int, rows: int) -> bool {
    &&& target.len() == old_target.len()
    &&& forall|r: int, c: int|
        0 <= r < rows && 0 <= c < row_bytes ==> #[trigger] target[r * stride + c] == pixels[r * row_bytes + c]
    &&& forall|r: int, c: int|
        0 <= r < rows && row_bytes <= c < stride ==> #[trigger] target[r * stride + c] == old_target[r * stride + c]
    &&& forall|k: int| rows * stride <= k < target.len() ==> #[trigger] target[k] == old_target[k]
}

/// Copy a `width` by `height` region of read-back `pixels` into the client's
/// buffer `target`, whose rows are `stride` bytes apart; or refuse, leaving
/// the buffer untouched.
pub fn copy_region(target: &mut Vec<u8>, stride: usize, format_ok: bool, pixels: &Vec<u8>, width: i32, height: i32) -> (r: Result<(), CaptureError>)
    ensures
        r == spec_capture_check(width, height, format_ok, old(target).len() as int, stride as int, pixels.len() as int),
        r is Ok ==> copied(old(target)@, final(target)@, stride as int, pixels@, width * 4, height as int),
        r is Err ==> final(target)@ == old(target)@,
{
    if width <= 0 || height <= 0 {
        return Err(CaptureError::EmptyRegion);
    }
    if !format_ok {
        return Err(CaptureError::UnsupportedFormat);
    }
    let rows = height as usize;
    let row_bytes: usize = match (width as usize).checked_mul(4) {
        Some(b) => b,
        None => return Err(CaptureError::TooSmall),
    };
    if stride < row_bytes {
        return Err(CaptureError::TooSmall);
    }
    let need_target = match stride.checked_mul(rows) {
        Some(n) => n,
        None => {
            proof {
                assert(stride * rows > usize::MAX);
                assert(stride * rows > target.len());
            }
            return Err(CaptureError::TooSmall);
        },
    };
    let need_pixels = match row_bytes.checked_mul(rows) {
        Some(n) => n,
        None => return Err(CaptureError::TooSmall),
    };
    if target.len() < need_target || pixels.len() < need_pixels {
        return Err(CaptureError::TooSmall);
    }
    let ghost before = target@;
    let mut row: usize = 0;
    while row < rows
        invariant
            rows == height as usize,
            row <= rows,
            row_bytes == width * 4,
            stride >= row_bytes,
            stride * rows <= target.len(),
            row_bytes * rows <= pixels.len(),
            target.len() == before.len(),
            forall|r: int, c: int|
                0 <= r < row && 0 <= c < row_bytes ==> #[trigger] target@[r * stride + c] == pixels@[r * row_bytes + c],
            forall|r: int, c: int|
                0 <= r < row && row_bytes <= c < stride ==> #[trigger] target@[r * stride + c] == before[r * stride + c],
            forall|k: int| row * stride <= k < target.len() ==> #[trigger] target@[k] == before[k],
        decreases rows - row,
    {
        proof {
            assert((row + 1) * stride <= stride * rows) by (nonlinear_arith)
                requires
                    row + 1 <= rows,
            ;
            assert((row + 1) * row_bytes <= row_bytes * rows) by (nonlinear_arith)
                requires
                    row + 1 <= rows,
            ;
            assert(row * stride + stride == (row + 1) * stride) by (nonlinear_arith);
            assert(row * row_bytes + row_bytes == (row + 1) * row_bytes) by (nonlinear_arith);
        }
        let base_t = row * stride;
        let base_p = row * row_bytes;
        let ghost at_row = target@;
        let mut c: usize = 0;
        while c < row_bytes
            invariant
                c <= row_bytes,
                base_t == row * stride,
                base_p == row * row_bytes,
                base_t + row_bytes <= target.len(),
                base_p + row_bytes <= pixels.len(),
                target.len() == at_row.len(),
                forall|j: int| 0 <= j < c ==> #[trigger] target@[base_t + j] == pixels@[base_p + j],
                forall|k: int| 0 <= k < target.len() && !(base_t <= k < base_t + c) ==> #[trigger] target@[k] == at_row[k],
            decreases row_bytes - c,
        {
            let b = pixels[base_p + c];
            target.set(base_t + c, b);
            c += 1;
        }
        proof {
            assert forall|r: int, cc: int|
                0 <= r < row + 1 && 0 <= cc < row_bytes implies #[trigger] target@[r * stride + cc] == pixels@[r * row_bytes + cc] by {
                if r == row {
                    assert(target@[base_t + cc] == pixels@[base_p + cc]);
                } else {
                    assert(r * stride + cc < row * stride) by (nonlinear_arith)
                        requires
                            r + 1 <= row,
                            cc < row_bytes,
                            row_bytes <= stride,
                    ;
                    assert(r * stride + cc >= 0) by (nonlinear_arith)
                        requires
                            r >= 0,
                            cc >= 0,
                            stride >= 0,
                    ;
                    assert(at_row[r * stride + cc] == pixels@[r * row_bytes + cc]);
                }
            }
            assert forall|r: int, cc: int|
                0 <= r < row + 1 && row_bytes <= cc < stride implies #[trigger] target@[r * stride + cc] == before[r * stride + cc] by {
                if r == row {
                    assert(target@[base_t + cc] == at_row[base_t + cc]);
                } else {
                    assert(r * stride + cc < row * stride) by (nonlinear_arith)
                        requires
                            r + 1 <= row,
                            cc < stride,
                    ;
                    assert(r * stride + cc >= 0) by (nonlinear_arith)
                        requires
                            r >= 0,
                            cc >= 0,
                            stride >= 0,
                    ;
                    assert(at_row[r * stride + cc] == before[r * stride + cc]);
                }
            }
            assert forall|k: int| (row + 1) * stride <= k < target.len() implies #[trigger] target@[k] == before[k] by {
                assert(at_row[k] == before[k]);
            }
        }
        row += 1;
    }
    Ok(())
}

/// `a + b`, held at the ends of the `i32` range.
pub open spec fn sat_add(a: i32, b: i32) -> int {
    if a + b > i32::MAX {
        i32::MAX as int
    } else if a + b < i32::MIN {
        i32::MIN as int
    } else {
        a + b
    }
}

/// The two rectangles share some area (touching edges do not count).
pub open spec fn overlaps(a: Rect, b: Rect) -> bool {
    a.x < sat_add(b.x, b.w) && b.x < sat_add(a.x, a.w) && a.y < sat_add(b.y, b.h) && b.y < sat_add(
        a.y,
        a.h,
    )
}

pub open spec fn max_i(a: int, b: int) -> int {
    if a >= b {
        a
    } else {
        b
    }
}

pub open spec fn min_i(a: int, b: int) -> int {
    if a <= b {
        a
    } else {
        b
    }
}

/// The region a capture covers: the requested one cut to the output, or
/// the whole output when the request misses it entirely.
pub open spec fn spec_capture_region(requested: Rect, full: Rect) -> Rect {
    if overlaps(requested, full) {
        let x0 = max_i(requested.x as int, full.x as int);
        let y0 = max_i(requested.y as int, full.y as int);
        let x1 = min_i(sat_add(requested.x, requested.w), sat_add(full.x, full.w));
        let y1 = min_i(sat_add(requested.y, requested.h), sat_add(full.y, full.h));
        Rect { x: x0 as i32, y: y0 as i32, w: (x1 - x0) as i32, h: (y1 - y0) as i32 }
    } else {
        full
    }
}

fn sat_add_exec(a: i32, b: i32) -> (r: i64)
    ensures
        r == sat_add(a, b),
{
    let v = a as i64 + b as i64;
    if v > i32::MAX as i64 {
        i32::MAX as i64
    } else if v < i32::MIN as i64 {
        i32::MIN as i64
    } else {
        v
    }
}

/// The region a capture of `requested` on an output whose whole area is
/// `full` copies.
pub fn capture_region(requested: Rect, full: Rect) -> (r: Rect)
    requires
        full.w >= 0,
        full.h >= 0,
        full.x + full.w <= i32::MAX,
        full.y + full.h <= i32::MAX,
    ensures
        r == spec_capture_region(requested, full),
{
    let rx1 = sat_add_exec(requested.x, requested.w);
    let ry1 = sat_add_exec(requested.y, requested.h);
    let fx1 = sat_add_exec(full.x, full.w);
    let fy1 = sat_add_exec(full.y, full.h);
    if !((requested.x as i64) < fx1 && (full.x as i64) < rx1 && (requested.y as i64) < fy1
        && (full.y as i64) < ry1) {
        return full;
    }
    let x0 = if requested.x >= full.x { requested.x } else { full.x };
    let y0 = if requested.y >= full.y { requested.y } else { full.y };
    let x1 = if rx1 <= fx1 { rx1 } else { fx1 };
    let y1 = if ry1 <= fy1 { ry1 } else { fy1 };
    Rect { x: x0, y: y0, w: (x1 - x0 as i64) as i32, h: (y1 - y0 as i64) as i32 }
}

} // verus!
