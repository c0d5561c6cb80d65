//! Camera frames before they are encoded.

use vstd::arithmetic::div_mod::{lemma_add_mod_noop_right, lemma_fundamental_div_mod_converse};
use vstd::prelude::*;

verus! {

/// Target encode resolution.
pub const ENCODE_WIDTH: u32 = 640;

pub const ENCODE_HEIGHT: u32 = 480;

/// Frame rate that is asked of the camera.
pub const CAPTURE_FPS: u32 = 15;

// ---------------------------------------------------------------------------
// Camera formats
// ---------------------------------------------------------------------------
/// A format that a camera offers.
pub struct CameraFormat {
    /// Whether its pixels are NV12.
    pub nv12: bool,
    pub width: u32,
    pub height: u32,
    /// For each range of frame rates, how far its maximum is from
    /// [`CAPTURE_FPS`], in thousandths.
    pub fps_diffs: Vec<u64>,
}

/// The smallest of some numbers; the largest there is if there are none.
pub open spec fn smallest(s: Seq<u64>) -> u64
    decreases s.len(),
{
    if s.len() == 0 {
        u64::MAX
    } else {
        let m = smallest(s.drop_last());
        if s.last() < m {
            s.last()
        } else {
            m
        }
    }
}

impl CameraFormat {
    /// Whether frames can be scaled down to the encode resolution.
    pub open spec fn large_enough(self) -> bool {
        self.nv12 && self.width >= ENCODE_WIDTH && self.height >= ENCODE_HEIGHT
    }

    /// Number of pixels, and distance from the frame rate that is asked for.
    pub open spec fn cost(self) -> (int, int) {
        (self.width * self.height, smallest(self.fps_diffs@) as int)
    }
}

/// Whether a format of cost `a` is preferred over one of cost `b`.
pub open spec fn cheaper(a: (int, int), b: (int, int)) -> bool {
    a.0 < b.0 || (a.0 == b.0 && a.1 < b.1)
}

/// Whether `i` is the first of the cheapest formats that are large enough.
pub open spec fn is_best(formats: Seq<CameraFormat>, i: int) -> bool {
    &&& 0 <= i < formats.len()
    &&& formats[i].large_enough()
    &&& forall|j: int|
        0 <= j < formats.len() && (#[trigger] formats[j]).large_enough() ==> {
            &&& !cheaper(formats[j].cost(), formats[i].cost())
            &&& j < i ==> cheaper(formats[i].cost(), formats[j].cost())
        }
}

/// Whether `i` is the first NV12 format.
pub open spec fn is_first_nv12(formats: Seq<CameraFormat>, i: int) -> bool {
    &&& 0 <= i < formats.len()
    &&& formats[i].nv12
    &&& forall|j: int| 0 <= j < i ==> !(#[trigger] formats[j]).nv12
}

fn smallest_of(v: &Vec<u64>) -> (m: u64)
    ensures
        m == smallest(v@),
{
    let mut m: u64 = u64::MAX;
    let mut i: usize = 0;
    assert(v@.take(0) =~= Seq::empty());
    while i < v.len()
        invariant
            i <= v@.len(),
            m == smallest(v@.take(i as int)),
        decreases v@.len() - i,
    {
        proof {
            let t = v@.take(i + 1);
            assert(t.drop_last() =~= v@.take(i as int));
            assert(t.last() == v@[i as int]);
        }
        if v[i] < m {
            m = v[i];
        }
        i = i + 1;
    }
    assert(v@.take(v@.len() as int) =~= v@);
    m
}

/// Find the best NV12 format: smallest resolution >= encode target, closest to
/// 15fps. Where none is large enough, take the first NV12 format.
pub fn choose_format(formats: &Vec<CameraFormat>) -> (r: Option<usize>)
    ensures
        match r {
            Some(i) => is_best(formats@, i as int) || (is_first_nv12(formats@, i as int) && forall|
                j: int,
            |
                0 <= j < formats@.len() ==> !(#[trigger] formats@[j]).large_enough()),
            None => forall|j: int| 0 <= j < formats@.len() ==> !(#[trigger] formats@[j]).nv12,
        },
{
    let mut best: Option<usize> = None;
    let mut best_pixels: u64 = 0;
    let mut best_diff: u64 = 0;
    let mut first: Option<usize> = None;
    let mut i: usize = 0;
    while i < formats.len()
        invariant
            i <= formats@.len(),
            match best {
                Some(b) => {
                    &&& b < i
                    &&& formats@[b as int].large_enough()
                    &&& (best_pixels as int, best_diff as int) == formats@[b as int].cost()
                    &&& forall|j: int|
                        0 <= j < i && (#[trigger] formats@[j]).large_enough() ==> {
                            &&& !cheaper(formats@[j].cost(), formats@[b as int].cost())
                            &&& j < b ==> cheaper(formats@[b as int].cost(), formats@[j].cost())
                        }
                },
                None => forall|j: int| 0 <= j < i ==> !(#[trigger] formats@[j]).large_enough(),
            },
            match first {
                Some(f) => f < i && is_first_nv12(formats@, f as int),
                None => forall|j: int| 0 <= j < i ==> !(#[trigger] formats@[j]).nv12,
            },
        decreases formats@.len() - i,
    {
        let f = &formats[i];
        if f.nv12 {
            if first.is_none() {
                first = Some(i);
            }
            if f.width >= ENCODE_WIDTH && f.height >= ENCODE_HEIGHT {
                let (w, h): (u64, u64) = (f.width as u64, f.height as u64);
                assert(w * h <= u64::MAX) by (nonlinear_arith)
                    requires
                        w <= u32::MAX,
                        h <= u32::MAX,
                ;
                let pixels: u64 = w * h;
                let diff = smallest_of(&f.fps_diffs);
                if best.is_none() || pixels < best_pixels || (pixels == best_pixels && diff
                    < best_diff) {
                    best = Some(i);
                    best_pixels = pixels;
                    best_diff = diff;
                }
            }
        }
        i = i + 1;
    }
    match best {
        Some(b) => Some(b),
        None => first,
    }
}

/// Whether frames of this size have to be scaled to the encode resolution.
pub fn needs_resize(width: u32, height: u32) -> (r: bool)
    ensures
        r == (width != ENCODE_WIDTH || height != ENCODE_HEIGHT),
{
    width != ENCODE_WIDTH || height != ENCODE_HEIGHT
}

// ---------------------------------------------------------------------------
// Planes
// ---------------------------------------------------------------------------
/// A plane after `rows` rows of `w` bytes were copied from `src` into it; the
/// rows of the plane begin `stride` bytes apart.
pub open spec fn plane_filled(
    plane: Seq<u8>,
    stride: int,
    src: Seq<u8>,
    w: int,
    rows: int,
) -> Seq<u8> {
    Seq::new(
        plane.len(),
        |p: int|
            if p / stride < rows && p % stride < w {
                src[p / stride * w + p % stride]
            } else {
                plane[p]
            },
    )
}

/// Copy `rows` rows of `w` bytes into a plane whose rows begin `stride` bytes
/// apart.
pub fn fill_plane(plane: &mut Vec<u8>, stride: usize, src: &[u8], w: usize, rows: usize)
    requires
        0 < w <= stride,
        rows > 0 ==> (rows - 1) * stride + w <= old(plane)@.len(),
        rows * w <= src@.len(),
    ensures
        final(plane)@ == plane_filled(old(plane)@, stride as int, src@, w as int, rows as int),
{
    let ghost before = plane@;
    let (n, m) = (plane.len(), src.len());
    let mut row: usize = 0;
    let mut to: usize = 0;
    let mut from: usize = 0;
    while row < rows
        invariant
            row <= rows,
            0 < w <= stride,
            n == before.len(),
            m == src@.len(),
            plane@.len() == n,
            rows > 0 ==> (rows - 1) * stride + w <= n,
            rows * w <= m,
            row < rows ==> to == row * stride,
            from == row * w,
            plane@ == plane_filled(before, stride as int, src@, w as int, row as int),
        decreases rows - row,
    {
        assert(row * stride + w <= n) by (nonlinear_arith)
            requires
                row < rows,
                (rows - 1) * stride + w <= n,
        ;
        assert(row * w + w <= m && (row + 1) * w == row * w + w && (row + 1) * stride == row * stride
            + stride) by (nonlinear_arith)
            requires
                row < rows,
                rows * w <= m,
        ;
        copy_row(plane, stride, to, src, from, w, Ghost(row as int));
        from = from + w;
        row = row + 1;
        if row < rows {
            assert((rows - 1) * stride >= row * stride) by (nonlinear_arith)
                requires
                    row < rows,
            ;
            to = to + stride;
        }
        assert(plane@ =~= plane_filled(before, stride as int, src@, w as int, row as int)) by {
            let s = stride as int;
            assert forall|p: int| 0 <= p < n implies #[trigger] plane@[p] == plane_filled(
                before,
                s,
                src@,
                w as int,
                row as int,
            )[p] by {
                vstd::arithmetic::div_mod::lemma_mod_bound(p, s);
            }
        }
    }
    assert(plane@ =~= plane_filled(before, stride as int, src@, w as int, rows as int));
}

/// Copy one row.
fn copy_row(
    plane: &mut Vec<u8>,
    stride: usize,
    to: usize,
    src: &[u8],
    from: usize,
    w: usize,
    Ghost(row): Ghost<int>,
)
    requires
        0 < w <= stride,
        row >= 0,
        to == row * stride,
        to + w <= old(plane)@.len(),
        from + w <= src@.len(),
    ensures
        final(plane)@.len() == old(plane)@.len(),
        forall|p: int|
            0 <= p < old(plane)@.len() ==> #[trigger] final(plane)@[p] == (if p / stride as int
                == row && (p % stride as int) < w {
                src@[from + p % stride as int]
            } else {
                old(plane)@[p]
            }),
{
    let ghost before = plane@;
    let (n, m) = (plane.len(), src.len());
    let ghost s = stride as int;
    let mut i: usize = 0;
    proof {
        assert forall|p: int| 0 <= p < n implies !(p / s == row && #[trigger] (p % s) < 0) by {
            vstd::arithmetic::div_mod::lemma_mod_bound(p, s);
        }
    }
    while i < w
        invariant
            i <= w,
            0 < w <= stride,
            s == stride,
            n == before.len(),
            m == src@.len(),
            row >= 0,
            to == row * stride,
            to + w <= n,
            from + w <= m,
            plane@.len() == n,
            forall|p: int|
                0 <= p < n ==> #[trigger] plane@[p] == (if p / s == row && 0 <= p % s < i {
                    src@[from + p % s]
                } else {
                    before[p]
                }),
        decreases w - i,
    {
        let ghost so_far = plane@;
        plane.set(to + i, src[from + i]);
        proof {
            let q = to + i;
            lemma_fundamental_div_mod_converse(q as int, s, row, i as int);
            assert forall|p: int| 0 <= p < n implies #[trigger] plane@[p] == (if p / s == row && 0
                <= p % s < i + 1 {
                src@[from + p % s]
            } else {
                before[p]
            }) by {
                if p / s == row && p % s == i {
                    vstd::arithmetic::div_mod::lemma_fundamental_div_mod(p, s);
                    assert(s * (p / s) == row * stride) by (nonlinear_arith)
                        requires
                            p / s == row,
                            s == stride,
                    ;
                    assert(p == q);
                } else {
                    assert(p != q);
                    assert(plane@[p] == so_far[p]);
                }
            }
        }
        i = i + 1;
    }
    proof {
        assert forall|p: int| 0 <= p < n implies 0 <= #[trigger] (p % s) by {
            vstd::arithmetic::div_mod::lemma_mod_bound(p, s);
        }
    }
}

// ---------------------------------------------------------------------------
// Test pattern
// ---------------------------------------------------------------------------
/// Number of colour bars.
pub const BARS: u64 = 8;

/// Red, green and blue of a colour bar.
pub open spec fn bar_color(i: int) -> (int, int, int) {
    if i == 0 {
        (192, 192, 192)
    } else if i == 1 {
        (192, 192, 0)
    } else if i == 2 {
        (0, 192, 192)
    } else if i == 3 {
        (0, 192, 0)
    } else if i == 4 {
        (192, 0, 192)
    } else if i == 5 {
        (192, 0, 0)
    } else if i == 6 {
        (0, 0, 192)
    } else {
        (0, 0, 0)
    }
}

/// The colour bar in a column of frame `n`; the bars move two columns a frame.
pub open spec fn bar_at(n: u32, col: int) -> int {
    (col + n * 2 % ENCODE_WIDTH as int) % ENCODE_WIDTH as int * BARS / ENCODE_WIDTH as int
}

/// A value cut to a byte.
pub open spec fn clamped(v: int) -> u8 {
    if v < 0 {
        0
    } else if v > 255 {
        255
    } else {
        v as u8
    }
}

/// Luma of a colour (BT.601, video range).
pub open spec fn luma(c: (int, int, int)) -> u8 {
    clamped((66 * c.0 + 129 * c.1 + 25 * c.2 + 128) / 256 + 16)
}

/// Blue difference of a colour.
pub open spec fn chroma_b(c: (int, int, int)) -> u8 {
    clamped((-38 * c.0 - 74 * c.1 + 112 * c.2 + 128) / 256 + 128)
}

/// Red difference of a colour.
pub open spec fn chroma_r(c: (int, int, int)) -> u8 {
    clamped((112 * c.0 - 94 * c.1 - 18 * c.2 + 128) / 256 + 128)
}

/// Luma plane of frame `n` of the test pattern.
pub open spec fn pattern_y(n: u32) -> Seq<u8> {
    Seq::new(
        (ENCODE_WIDTH * ENCODE_HEIGHT) as nat,
        |p: int| luma(bar_color(bar_at(n, p % ENCODE_WIDTH as int))),
    )
}

/// Interleaved chroma plane of frame `n` of the test pattern: a pair for every
/// two columns of every two rows.
pub open spec fn pattern_cbcr(n: u32) -> Seq<u8> {
    Seq::new(
        (ENCODE_WIDTH * (ENCODE_HEIGHT as int / 2)) as nat,
        |p: int|
            {
                let c = bar_color(bar_at(n, p % ENCODE_WIDTH as int / 2 * 2));
                if p % 2 == 0 {
                    chroma_b(c)
                } else {
                    chroma_r(c)
                }
            },
    )
}

fn bar_rgb(i: u64) -> (r: (i64, i64, i64))
    requires
        i < BARS,
    ensures
        (r.0 as int, r.1 as int, r.2 as int) == bar_color(i as int),
        0 <= r.0 <= 192,
        0 <= r.1 <= 192,
        0 <= r.2 <= 192,
{
    if i == 0 {
        (192, 192, 192)
    } else if i == 1 {
        (192, 192, 0)
    } else if i == 2 {
        (0, 192, 192)
    } else if i == 3 {
        (0, 192, 0)
    } else if i == 4 {
        (192, 0, 192)
    } else if i == 5 {
        (192, 0, 0)
    } else if i == 6 {
        (0, 0, 192)
    } else {
        (0, 0, 0)
    }
}

fn clamp_byte(v: i64) -> (r: u8)
    ensures
        r == clamped(v as int),
{
    if v < 0 {
        0
    } else if v > 255 {
        255
    } else {
        v as u8
    }
}

/// The colour bar in column `col` of frame `n`.
fn bar_index(n: u32, col: u64) -> (i: u64)
    requires
        col < ENCODE_WIDTH,
    ensures
        i == bar_at(n, col as int),
        i < BARS,
{
    let w: u64 = ENCODE_WIDTH as u64;
    let offset: u64 = n as u64 * 2 % w;
    (col + offset) % w * BARS / w
}

/// Generate the luma plane of a frame of the test pattern into `out`.
pub fn test_pattern_y(n: u32, out: &mut Vec<u8>)
    ensures
        final(out)@ == pattern_y(n),
{
    out.clear();
    let total: u64 = 307_200;
    let mut p: u64 = 0;
    while p < total
        invariant
            total == ENCODE_WIDTH * ENCODE_HEIGHT,
            p <= total,
            out@.len() == p,
            forall|k: int| 0 <= k < p ==> #[trigger] out@[k] == pattern_y(n)[k],
        decreases total - p,
    {
        let (r, g, b) = bar_rgb(bar_index(n, p % ENCODE_WIDTH as u64));
        out.push(clamp_byte((66 * r + 129 * g + 25 * b + 128) / 256 + 16));
        p = p + 1;
    }
    assert(out@ =~= pattern_y(n));
}

/// Generate the chroma plane of a frame of the test pattern into `out`.
pub fn test_pattern_cbcr(n: u32, out: &mut Vec<u8>)
    ensures
        final(out)@ == pattern_cbcr(n),
{
    out.clear();
    let total: u64 = 153_600;
    let mut p: u64 = 0;
    while p < total
        invariant
            total == ENCODE_WIDTH * (ENCODE_HEIGHT as int / 2),
            p <= total,
            out@.len() == p,
            forall|k: int| 0 <= k < p ==> #[trigger] out@[k] == pattern_cbcr(n)[k],
        decreases total - p,
    {
        let (r, g, b) = bar_rgb(bar_index(n, p % ENCODE_WIDTH as u64 / 2 * 2));
        // 128 whole units are added before the division, so that it never
        // rounds a negative number.
        let v: i64 = if p % 2 == 0 {
            (32_768 + 112 * b - 38 * r - 74 * g + 128) / 256
        } else {
            (32_768 + 112 * r - 94 * g - 18 * b + 128) / 256
        };
        out.push(clamp_byte(v));
        p = p + 1;
    }
    assert(out@ =~= pattern_cbcr(n));
}

/// Law: the test pattern shows all eight bars, each 80 columns wide, and is back
/// where it started after 320 frames.
pub proof fn law_test_pattern(n: u32, col: int)
    requires
        0 <= col < ENCODE_WIDTH,
        n <= u32::MAX - 320,
    ensures
        0 <= bar_at(n, col) < BARS,
        n == 0 ==> bar_at(n, col) == col / 80,
        bar_at((n + 320) as u32, col) == bar_at(n, col),
{
}

/// Law: where every pixel of the test pattern comes from. The column `col` of
/// frame `n` shows the bar of the column `col + 2 * n`, counted round, in its
/// brightness and in both of its colour differences. The bars are 80 columns wide
/// and are white, yellow, cyan, green, magenta, red, blue and black.
pub proof fn law_test_pattern_picture(n: u32, row: int, col: int)
    requires
        0 <= row < 480,
        0 <= col < 640,
    ensures
        pattern_y(n).len() == 640 * 480,
        pattern_cbcr(n).len() == 640 * 240,
        ({
            let bar = (col + 2 * n) % 640 / 80;
            let ys = seq![181u8, 162u8, 132u8, 113u8, 84u8, 66u8, 35u8, 16u8];
            pattern_y(n)[row * 640 + col] == ys[bar]
        }),
        row % 2 == 0 && col % 2 == 0 ==> {
            let bar = (col + 2 * n) % 640 / 80;
            let cbs = seq![128u8, 44u8, 157u8, 73u8, 184u8, 100u8, 212u8, 128u8];
            let crs = seq![128u8, 142u8, 44u8, 58u8, 199u8, 212u8, 115u8, 128u8];
            &&& pattern_cbcr(n)[row / 2 * 640 + col] == cbs[bar]
            &&& pattern_cbcr(n)[row / 2 * 640 + col + 1] == crs[bar]
        },
{
    let bar = (col + 2 * n) % 640 / 80;
    lemma_bar(n, col);
    lemma_bar_bytes(bar);
    lemma_pattern_bytes(n, row, col);
    if row % 2 == 0 && col % 2 == 0 {
        lemma_pattern_bytes(n, row / 2, col);
        lemma_pattern_bytes(n, row / 2, col + 1);
    }
}

/// The bar in a column.
proof fn lemma_bar(n: u32, col: int)
    requires
        0 <= col < 640,
    ensures
        bar_at(n, col) == (col + 2 * n) % 640 / 80,
        0 <= bar_at(n, col) < 8,
{
    let x = (col + 2 * n) % 640;
    lemma_add_mod_noop_right(col, 2 * n as int, 640);
    assert(bar_at(n, col) == x * 8 / 640);
    lemma_fundamental_div_mod_converse(x * 8, 640, x / 80, x % 80 * 8);
}

/// What the bars look like.
proof fn lemma_bar_bytes(bar: int)
    requires
        0 <= bar < 8,
    ensures
        luma(bar_color(bar)) == seq![181u8, 162u8, 132u8, 113u8, 84u8, 66u8, 35u8, 16u8][bar],
        chroma_b(bar_color(bar)) == seq![128u8, 44u8, 157u8, 73u8, 184u8, 100u8, 212u8, 128u8][bar],
        chroma_r(bar_color(bar)) == seq![128u8, 142u8, 44u8, 58u8, 199u8, 212u8, 115u8, 128u8][bar],
{
}

proof fn lemma_bars_move(n: u32, col: int)
    requires
        n < u32::MAX,
        0 <= col < 640,
    ensures
        bar_at((n + 1) as u32, col) == bar_at(n, (col + 2) % 640),
{
    lemma_bar((n + 1) as u32, col);
    lemma_bar(n, (col + 2) % 640);
    lemma_add_mod_noop_right(2 * n as int, col + 2, 640);
}

/// The bytes of one place of both planes.
proof fn lemma_pattern_bytes(n: u32, row: int, col: int)
    requires
        0 <= row < 480,
        0 <= col < 640,
    ensures
        pattern_y(n)[row * 640 + col] == luma(bar_color(bar_at(n, col))),
        row < 240 && col % 2 == 0 ==> pattern_cbcr(n)[row * 640 + col] == chroma_b(
            bar_color(bar_at(n, col / 2 * 2)),
        ),
        row < 240 && col % 2 == 1 ==> pattern_cbcr(n)[row * 640 + col] == chroma_r(
            bar_color(bar_at(n, col / 2 * 2)),
        ),
{
    let p = row * 640 + col;
    lemma_fundamental_div_mod_converse(p, 640, row, col);
    lemma_fundamental_div_mod_converse(p, 2, row * 320 + col / 2, col % 2);
    assert(pattern_y(n)[p] == luma(bar_color(bar_at(n, p % 640))));
    if row < 240 {
        let c = bar_color(bar_at(n, p % 640 / 2 * 2));
        assert(pattern_cbcr(n)[p] == if p % 2 == 0 {
            chroma_b(c)
        } else {
            chroma_r(c)
        });
    }
}

/// Columns move in pairs.
proof fn lemma_pair(col: int)
    requires
        0 <= col < 640,
    ensures
        (col + 2) % 640 % 2 == col % 2,
        (col / 2 * 2 + 2) % 640 == (col + 2) % 640 / 2 * 2,
{
    if col < 638 {
        assert((col + 2) % 640 == col + 2);
        assert((col / 2 * 2 + 2) % 640 == col / 2 * 2 + 2);
    } else {
        assert((col + 2) % 640 == col - 638);
        assert(col / 2 * 2 + 2 == 640);
    }
}

/// Law: both planes of the test pattern move together, two columns from each frame
/// to the next.
pub proof fn law_test_pattern_moves(n: u32, row: int, col: int)
    requires
        n < u32::MAX,
        0 <= row < 480,
        0 <= col < 640,
    ensures
        ({
            let next = (n + 1) as u32;
            let from = (col + 2) % 640;
            &&& pattern_y(next)[row * 640 + col] == pattern_y(n)[row * 640 + from]
            &&& row < 240 ==> pattern_cbcr(next)[row * 640 + col] == pattern_cbcr(n)[row * 640
                + from]
        }),
{
    let next = (n + 1) as u32;
    let from = (col + 2) % 640;
    lemma_pattern_bytes(next, row, col);
    lemma_pattern_bytes(n, row, from);
    lemma_bars_move(n, col);
    lemma_pair(col);
    lemma_bars_move(n, col / 2 * 2);
}

/// Law: filling a plane puts every pixel of the picture in its place, and leaves
/// what lies beside and below the picture as it was.
pub proof fn law_plane_filled(
    plane: Seq<u8>,
    stride: int,
    src: Seq<u8>,
    w: int,
    rows: int,
    row: int,
    col: int,
)
    requires
        0 <= col < stride,
        0 <= row,
        row * stride + col < plane.len(),
    ensures
        plane_filled(plane, stride, src, w, rows).len() == plane.len(),
        row < rows && col < w ==> plane_filled(plane, stride, src, w, rows)[row * stride + col]
            == src[row * w + col],
        row >= rows || col >= w ==> plane_filled(plane, stride, src, w, rows)[row * stride + col]
            == plane[row * stride + col],
{
    lemma_fundamental_div_mod_converse(row * stride + col, stride, row, col);
    assert(row * stride >= 0) by (nonlinear_arith)
        requires
            row >= 0,
            stride > 0,
    ;
}

/// Law: the smallest number is one of the numbers, and none of them is smaller.
pub proof fn law_smallest(s: Seq<u64>)
    ensures
        forall|i: int| 0 <= i < s.len() ==> smallest(s) <= #[trigger] s[i],
        s.len() > 0 ==> exists|i: int| 0 <= i < s.len() && smallest(s) == #[trigger] s[i],
        s.len() == 0 ==> smallest(s) == u64::MAX,
    decreases s.len(),
{
    if s.len() > 0 {
        let t = s.drop_last();
        law_smallest(t);
        assert forall|i: int| 0 <= i < s.len() implies smallest(s) <= #[trigger] s[i] by {
            assert(i < t.len() ==> s[i] == t[i]);
        }
        if smallest(s) == s.last() {
            assert(s[s.len() - 1] == smallest(s));
        } else if t.len() == 0 {
            assert(s[0] == u64::MAX);
        } else {
            let i = choose|i: int| 0 <= i < t.len() && smallest(t) == #[trigger] t[i];
            assert(s[i] == smallest(s));
        }
    }
}

/// Law: the best format is an NV12 format of at least 640 by 480 pixels, and none
/// of the others has fewer pixels, nor as many at a frame rate nearer to the one
/// that is asked for. Of two that are alike in both the first is the best.
pub proof fn law_best_format(formats: Seq<CameraFormat>, i: int, j: int)
    requires
        is_best(formats, i),
        0 <= j < formats.len(),
        formats[j].nv12 && formats[j].width >= 640 && formats[j].height >= 480,
    ensures
        formats[i].nv12 && formats[i].width >= 640 && formats[i].height >= 480,
        ({
            let (here, there) = (
                formats[i].width * formats[i].height,
                formats[j].width * formats[j].height,
            );
            let (diff, other) = (
                smallest(formats[i].fps_diffs@),
                smallest(formats[j].fps_diffs@),
            );
            &&& here < there || (here == there && diff <= other)
            &&& here == there && diff == other ==> i <= j
        }),
        formats[j].large_enough(),
{
}

/// Law: the first of the formats that are large enough, have the fewest pixels and
/// then the nearest frame rate is the best one.
pub proof fn law_is_best(formats: Seq<CameraFormat>, i: int)
    requires
        0 <= i < formats.len(),
        formats[i].nv12 && formats[i].width >= 640 && formats[i].height >= 480,
        forall|j: int|
            0 <= j < formats.len() && (#[trigger] formats[j]).nv12 && formats[j].width >= 640
                && formats[j].height >= 480 ==> {
                let (here, there) = (
                    formats[i].width * formats[i].height,
                    formats[j].width * formats[j].height,
                );
                let (diff, other) = (
                    smallest(formats[i].fps_diffs@),
                    smallest(formats[j].fps_diffs@),
                );
                here < there || (here == there && (diff < other || (diff == other && i <= j)))
            },
    ensures
        is_best(formats, i),
{
}

/// Law: the first NV12 format is the one with none before it.
pub proof fn law_is_first(formats: Seq<CameraFormat>, i: int)
    requires
        0 <= i < formats.len(),
        formats[i].nv12,
        forall|j: int| 0 <= j < i ==> !(#[trigger] formats[j]).nv12,
    ensures
        is_first_nv12(formats, i),
{
}

/// Law: a format is large enough exactly if it is NV12 and has 640 by 480 pixels or
/// more, and the first NV12 format has none before it.
pub proof fn law_camera_formats(f: CameraFormat, formats: Seq<CameraFormat>, i: int, j: int)
    ensures
        f.large_enough() <==> f.nv12 && f.width >= 640 && f.height >= 480,
        is_first_nv12(formats, i) && 0 <= j < formats.len() && formats[j].nv12 ==> formats[i].nv12
            && 0 <= i <= j,
        ENCODE_WIDTH == 640 && ENCODE_HEIGHT == 480 && CAPTURE_FPS == 15,
{
}

} // verus!
