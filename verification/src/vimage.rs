//! Geometry of planar YUV images.
use vstd::prelude::*;
use vstd::slice::slice_subrange;

verus! {

/// Range of the values of a YUV image.
#[derive(Debug, Clone, Copy, PartialEq, Eq, Structural)]
pub struct PixelRange {
    pub yp_bias: i32,
    pub cb_cr_bias: i32,
    pub yp_range_max: i32,
    pub cb_cr_range_max: i32,
    pub yp_max: i32,
    pub yp_min: i32,
    pub cb_cr_max: i32,
    pub cb_cr_min: i32,
}

/// Video range: luma from 16 to 235, chroma from 16 to 240.
pub fn video_range() -> (r: PixelRange)
    ensures
        r == (PixelRange {
            yp_bias: 16,
            cb_cr_bias: 128,
            yp_range_max: 235,
            cb_cr_range_max: 240,
            yp_max: 235,
            yp_min: 16,
            cb_cr_max: 240,
            cb_cr_min: 16,
        }),
{
    PixelRange {
        yp_bias: 16,
        cb_cr_bias: 128,
        yp_range_max: 235,
        cb_cr_range_max: 240,
        yp_max: 235,
        yp_min: 16,
        cb_cr_max: 240,
        cb_cr_min: 16,
    }
}

/// Extent of a plane, and how far apart its rows begin.
#[derive(Debug, Clone, Copy, PartialEq, Eq, Structural)]
pub struct Plane {
    pub width: usize,
    pub height: usize,
    pub row_bytes: usize,
}

/// The luma plane of an image of `w` by `h` pixels.
pub fn luma_plane(w: usize, h: usize, stride: usize) -> (p: Plane)
    ensures
        p == (Plane { width: w, height: h, row_bytes: stride }),
{
    Plane { width: w, height: h, row_bytes: stride }
}

/// A chroma plane of an image of `w` by `h` pixels: one value, or one pair of
/// values, for every two columns and two rows.
pub fn chroma_plane(w: usize, h: usize, stride: usize) -> (p: Plane)
    ensures
        p == (Plane { width: w / 2, height: h / 2, row_bytes: stride }),
{
    Plane { width: w / 2, height: h / 2, row_bytes: stride }
}

/// A plane of packed pixels of four bytes each.
pub fn packed_plane(w: usize, h: usize) -> (p: Plane)
    requires
        w * 4 <= usize::MAX,
    ensures
        p == (Plane { width: w, height: h, row_bytes: (w * 4) as usize }),
{
    Plane { width: w, height: h, row_bytes: w * 4 }
}

/// Split an I420 image into its Y, U and V planes, which stand one behind the
/// other.
pub fn split_i420(w: usize, h: usize, yuv: &[u8]) -> (r: (&[u8], &[u8], &[u8]))
    requires
        w * h + (w / 2) * (h / 2) <= yuv@.len(),
    ensures
        r.0@.len() == w * h,
        r.1@.len() == (w / 2) * (h / 2),
        r.0@ + r.1@ + r.2@ == yuv@,
{
    let (half_w, half_h): (usize, usize) = (w / 2, h / 2);
    let n = yuv.len();
    assert(0 <= w * h && 0 <= half_w * half_h) by (nonlinear_arith);
    let y_len: usize = w * h;
    let u_end: usize = y_len + half_w * half_h;
    let y = slice_subrange(yuv, 0, y_len);
    let u = slice_subrange(yuv, y_len, u_end);
    let v = slice_subrange(yuv, u_end, n);
    assert(y@ + u@ + v@ =~= yuv@);
    (y, u, v)
}

/// How the planes of a decoded image are laid out.
#[derive(Debug, Clone, Copy, PartialEq, Eq, Structural)]
pub enum PlaneLayout {
    /// Three planes: Y, U, V.
    I420,
    /// Two planes: Y, and U and V interleaved.
    Nv12,
}

/// The layout of an image with this many planes; one with fewer than two is not
/// understood.
pub fn plane_layout(plane_count: usize) -> (r: Option<PlaneLayout>)
    ensures
        r == (if plane_count >= 3 {
            Some(PlaneLayout::I420)
        } else if plane_count == 2 {
            Some(PlaneLayout::Nv12)
        } else {
            None
        }),
{
    if plane_count >= 3 {
        Some(PlaneLayout::I420)
    } else if plane_count == 2 {
        Some(PlaneLayout::Nv12)
    } else {
        None
    }
}

/// Law: the three planes of an I420 image of even width and height hold three
/// bytes for every two pixels.
pub proof fn law_i420_size(w: int, h: int)
    requires
        w >= 0,
        h >= 0,
        w % 2 == 0,
        h % 2 == 0,
    ensures
        2 * (w * h + 2 * ((w / 2) * (h / 2))) == 3 * (w * h),
{
    let (a, b) = (w / 2, h / 2);
    assert(w * h == 4 * (a * b)) by (nonlinear_arith)
        requires
            w == 2 * a,
            h == 2 * b,
    ;
}

} // verus!
