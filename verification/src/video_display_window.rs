//! Window display: pixel layout and drawing.

use vstd::arithmetic::div_mod::{
    lemma_fundamental_div_mod, lemma_fundamental_div_mod_converse, lemma_mod_bound,
};
use vstd::prelude::*;

use noto_sans_mono_bitmap::{get_raster, get_raster_width, FontWeight, RasterHeight};

use crate::kitty::minus;
use crate::video_compositor::{ConnectionKind, TileFrame};
use crate::video_display::{dot_visible, shown_name, TileDropState};

verus! {

/// Pixel gap between tiles in the window.
pub const TILE_GAP: u32 = 20;

/// Padding around the outside of the gallery.
pub const OUTER_PAD: u32 = 16;

/// Extra pixel rows below each tile for the label.
pub const LABEL_HEIGHT: u32 = 32;

/// Vertical offset from top of label area to start drawing text.
pub const LABEL_Y_OFFSET: u32 = 4;

/// Background colour for gaps (dark grey).
pub const BG_COLOR: u32 = 0x00181818;

/// Drop dot radius in pixels.
pub const DROP_DOT_RADIUS: u32 = 5;

/// Colour of the drop dot.
pub const DROP_DOT_COLOR: u32 = 0x00FF3333;

// ---------------------------------------------------------------------------
// Layout
// ---------------------------------------------------------------------------
/// Width of the gallery: the tiles of a row, gaps in between, and padding.
pub open spec fn window_width(cols: int, tile_w: int) -> int {
    2 * OUTER_PAD + cols * tile_w + minus(cols, 1) * TILE_GAP
}

/// Height of the gallery: the tiles of a column with their labels, gaps in
/// between, and padding.
pub open spec fn window_height(rows: int, tile_h: int) -> int {
    2 * OUTER_PAD + rows * (tile_h + LABEL_HEIGHT) + minus(rows, 1) * TILE_GAP
}

/// Left edge of the tiles in a column.
pub open spec fn tile_x(grid_col: int, tile_w: int) -> int {
    OUTER_PAD + grid_col * (tile_w + TILE_GAP)
}

/// Top edge of the tiles in a row.
pub open spec fn tile_y(grid_row: int, tile_h: int) -> int {
    OUTER_PAD + grid_row * (tile_h + LABEL_HEIGHT + TILE_GAP)
}

/// Size of the gallery in pixels, if its number of pixels fits in 32 bits.
pub fn window_size(cols: u32, rows: u32, tile_w: u32, tile_h: u32) -> (r: Option<(u32, u32)>)
    ensures
        ({
            let w = window_width(cols as int, tile_w as int);
            let h = window_height(rows as int, tile_h as int);
            match r {
                Some(s) => s.0 == w && s.1 == h && w * h <= u32::MAX,
                None => w > u32::MAX || h > u32::MAX || w * h > u32::MAX,
            }
        }),
{
    let (c, t): (u128, u128) = (cols as u128, tile_w as u128);
    let (d, u): (u128, u128) = (rows as u128, tile_h as u128 + LABEL_HEIGHT as u128);
    assert(c * t <= 0xFFFF_FFFF * 0xFFFF_FFFF) by (nonlinear_arith)
        requires
            c <= u32::MAX,
            t <= u32::MAX,
    ;
    assert(d * u <= 0xFFFF_FFFF * 0x2_0000_0000) by (nonlinear_arith)
        requires
            d <= u32::MAX,
            u <= 0x2_0000_0000,
    ;
    let gaps_c: u128 = if c >= 1 {
        c - 1
    } else {
        0
    };
    let gaps_d: u128 = if d >= 1 {
        d - 1
    } else {
        0
    };
    let gap: u128 = TILE_GAP as u128;
    assert(gaps_c * gap <= 0xFFFF_FFFF * 20 && gaps_d * gap <= 0xFFFF_FFFF * 20)
        by (nonlinear_arith)
        requires
            gaps_c <= u32::MAX,
            gaps_d <= u32::MAX,
            gap == 20,
    ;
    let w: u128 = 2 * OUTER_PAD as u128 + c * t + gaps_c * gap;
    let h: u128 = 2 * OUTER_PAD as u128 + d * u + gaps_d * gap;
    if w > 0xFFFF_FFFF || h > 0xFFFF_FFFF {
        return None;
    }
    assert(w * h <= 0xFFFF_FFFF * 0xFFFF_FFFF) by (nonlinear_arith)
        requires
            w <= u32::MAX,
            h <= u32::MAX,
    ;
    if w * h > 0xFFFF_FFFF {
        return None;
    }
    Some((w as u32, h as u32))
}

/// Size of the window for a gallery of this size on a screen with this many
/// pixels per point. A window is at least one point wide and high.
pub fn scaled_window_size(w: u32, h: u32, scale: u32) -> (r: (u32, u32))
    requires
        scale > 0,
    ensures
        r.0 == (if w / scale >= 1 {
            w / scale
        } else {
            1
        }),
        r.1 == (if h / scale >= 1 {
            h / scale
        } else {
            1
        }),
{
    let a: u32 = w / scale;
    let b: u32 = h / scale;
    (
        if a >= 1 {
            a
        } else {
            1
        },
        if b >= 1 {
            b
        } else {
            1
        },
    )
}

/// Where a tile is drawn, if that can be computed.
pub fn tile_origin(grid_col: u32, grid_row: u32, tile_w: u32, tile_h: u32) -> (r: Option<(u32, u32)>)
    ensures
        match r {
            Some(p) => p.0 == tile_x(grid_col as int, tile_w as int) && p.1 == tile_y(
                grid_row as int,
                tile_h as int,
            ),
            None => tile_x(grid_col as int, tile_w as int) > u32::MAX || tile_y(
                grid_row as int,
                tile_h as int,
            ) > u32::MAX,
        },
{
    let (c, t): (u128, u128) = (grid_col as u128, tile_w as u128 + TILE_GAP as u128);
    let (d, u): (u128, u128) = (
        grid_row as u128,
        tile_h as u128 + LABEL_HEIGHT as u128 + TILE_GAP as u128,
    );
    assert(c * t <= 0xFFFF_FFFF * 0x2_0000_0000) by (nonlinear_arith)
        requires
            c <= u32::MAX,
            t <= 0x2_0000_0000,
    ;
    assert(d * u <= 0xFFFF_FFFF * 0x2_0000_0000) by (nonlinear_arith)
        requires
            d <= u32::MAX,
            u <= 0x2_0000_0000,
    ;
    let x: u128 = OUTER_PAD as u128 + c * t;
    let y: u128 = OUTER_PAD as u128 + d * u;
    if x > 0xFFFF_FFFF || y > 0xFFFF_FFFF {
        None
    } else {
        Some((x as u32, y as u32))
    }
}

/// Law: every tile and its label lie inside the window, with the padding to
/// spare.
pub proof fn law_tiles_inside(cols: int, rows: int, grid_col: int, grid_row: int, tile_w: int, tile_h: int)
    requires
        0 <= grid_col < cols,
        0 <= grid_row < rows,
        tile_w >= 0,
        tile_h >= 0,
    ensures
        OUTER_PAD <= tile_x(grid_col, tile_w),
        tile_x(grid_col, tile_w) + tile_w + OUTER_PAD <= window_width(cols, tile_w),
        OUTER_PAD <= tile_y(grid_row, tile_h),
        tile_y(grid_row, tile_h) + tile_h + LABEL_HEIGHT + OUTER_PAD <= window_height(rows, tile_h),
{
    let g = TILE_GAP as int;
    assert(0 <= grid_col * (tile_w + g) && grid_col * (tile_w + g) + tile_w <= cols * tile_w + (cols
        - 1) * g) by (nonlinear_arith)
        requires
            0 <= grid_col < cols,
            tile_w >= 0,
            g >= 0,
    ;
    let h = tile_h + LABEL_HEIGHT;
    assert(0 <= grid_row * (h + g) && grid_row * (h + g) + h <= rows * h + (rows - 1) * g)
        by (nonlinear_arith)
        requires
            0 <= grid_row < rows,
            h >= 0,
            g >= 0,
    ;
}

// ---------------------------------------------------------------------------
// Pixels
// ---------------------------------------------------------------------------
/// Row and column of pixel `p` in a picture of width `w`.
proof fn lemma_pixel(w: int, row: int, col: int)
    requires
        w > 0,
        0 <= col < w,
        0 <= row,
    ensures
        (row * w + col) / w == row,
        (row * w + col) % w == col,
{
    lemma_fundamental_div_mod_converse(row * w + col, w, row, col);
}

/// A row of pixels written into a picture at `at`.
pub open spec fn with_row(buf: Seq<u32>, at: int, row: Seq<u32>) -> Seq<u32> {
    buf.take(at) + row + buf.skip(at + row.len())
}

/// The first `n` rows of a tile written into a picture.
pub open spec fn with_rows(
    buf: Seq<u32>,
    buf_w: int,
    x0: int,
    y0: int,
    data: Seq<u32>,
    tw: int,
    n: nat,
) -> Seq<u32>
    decreases n,
{
    if n == 0 {
        buf
    } else {
        with_row(
            with_rows(buf, buf_w, x0, y0, data, tw, (n - 1) as nat),
            (y0 + n - 1) * buf_w + x0,
            data.subrange((n - 1) * tw, n * tw),
        )
    }
}

/// Write a row of pixels into a picture.
fn put_row(buf: &mut Vec<u32>, at: usize, data: &[u32], from: usize, len: usize)
    requires
        at + len <= old(buf)@.len(),
        from + len <= data@.len(),
    ensures
        final(buf)@ == with_row(old(buf)@, at as int, data@.subrange(from as int, from + len)),
        final(buf)@.len() == old(buf)@.len(),
{
    let ghost before = buf@;
    let ghost row = data@.subrange(from as int, from + len);
    let (n, m) = (buf.len(), data.len());
    let mut i: usize = 0;
    while i < len
        invariant
            i <= len,
            n == before.len(),
            m == data@.len(),
            at + len <= before.len(),
            from + len <= data@.len(),
            buf@.len() == before.len(),
            forall|k: int|
                0 <= k < before.len() ==> #[trigger] buf@[k] == (if at <= k < at + i {
                    data@[from + k - at]
                } else {
                    before[k]
                }),
        decreases len - i,
    {
        buf.set(at + i, data[from + i]);
        i = i + 1;
    }
    assert(buf@ =~= with_row(before, at as int, row));
}

/// Blit packed-u32 pixels into the window pixel buffer using row copies.
fn blit(
    buf: &mut Vec<u32>,
    buf_w: u32,
    x0: u32,
    y0: u32,
    width: u32,
    height: u32,
    data: &[u32],
)
    requires
        width * height <= data@.len(),
        height > 0 ==> (y0 + height - 1) * buf_w + x0 + width <= old(buf)@.len(),
    ensures
        final(buf)@ == with_rows(
            old(buf)@,
            buf_w as int,
            x0 as int,
            y0 as int,
            data@,
            width as int,
            height as nat,
        ),
        final(buf)@.len() == old(buf)@.len(),
{
    let ghost before = buf@;
    let ghost (w, x, y, tw) = (buf_w as int, x0 as int, y0 as int, width as int);
    let (n, m) = (buf.len(), data.len());
    let mut dy: u32 = 0;
    let mut src: usize = 0;
    while dy < height
        invariant
            dy <= height,
            m == data@.len(),
            n == before.len(),
            buf@.len() == n,
            w == buf_w,
            x == x0,
            y == y0,
            tw == width,
            width * height <= data@.len(),
            height > 0 ==> (y0 + height - 1) * buf_w + x0 + width <= n,
            src == dy * width,
            buf@ == with_rows(before, w, x, y, data@, tw, dy as nat),
        decreases height - dy,
    {
        assert((y0 + dy) * buf_w + x0 + width <= n) by (nonlinear_arith)
            requires
                dy < height,
                (y0 + height - 1) * buf_w + x0 + width <= n,
        ;
        assert(dy * width + width <= width * height && (dy + 1) * width == dy * width + width)
            by (nonlinear_arith)
            requires
                dy < height,
        ;
        assert((y0 + dy) * buf_w <= n) by (nonlinear_arith)
            requires
                (y0 + dy) * buf_w + x0 + width <= n,
        ;
        let row: u64 = y0 as u64 + dy as u64;
        assert(row * buf_w <= u64::MAX) by (nonlinear_arith)
            requires
                row <= 0x1_FFFF_FFFE,
                buf_w <= u32::MAX,
                row * buf_w <= n,
                n <= usize::MAX,
        ;
        let at: usize = (row * buf_w as u64) as usize + x0 as usize;
        put_row(buf, at, data, src, width as usize);
        src = src + width as usize;
        dy = dy + 1;
        proof {
            assert((dy - 1) * tw == (dy - 1) * width);
            assert(dy * tw == dy * width);
        }
    }
}

/// Law: after a blit each pixel of the tile shows its pixel of the frame, and
/// every other pixel is as it was.
pub proof fn law_blit(
    buf: Seq<u32>,
    buf_w: int,
    x0: int,
    y0: int,
    data: Seq<u32>,
    tw: int,
    n: nat,
    row: int,
    col: int,
)
    requires
        0 <= x0,
        0 <= y0,
        0 <= tw,
        x0 + tw <= buf_w,
        tw * n <= data.len(),
        n > 0 ==> (y0 + n - 1) * buf_w + x0 + tw <= buf.len(),
        0 <= row,
        0 <= col < buf_w,
        row * buf_w + col < buf.len(),
    ensures
        with_rows(buf, buf_w, x0, y0, data, tw, n).len() == buf.len(),
        with_rows(buf, buf_w, x0, y0, data, tw, n)[row * buf_w + col] == (if y0 <= row < y0 + n
            && x0 <= col < x0 + tw {
            data[(row - y0) * tw + (col - x0)]
        } else {
            buf[row * buf_w + col]
        }),
    decreases n,
{
    if n > 0 {
        let m = (n - 1) as nat;
        let last = y0 + n - 1;
        assert(tw * m + tw == tw * n && tw * m >= 0) by (nonlinear_arith)
            requires
                m == n - 1,
                tw >= 0,
        ;
        assert(m * tw == tw * m && n * tw == tw * n) by (nonlinear_arith);
        assert(m > 0 ==> (y0 + m - 1) * buf_w + x0 + tw <= buf.len()) by (nonlinear_arith)
            requires
                m == n - 1,
                (y0 + n - 1) * buf_w + x0 + tw <= buf.len(),
                buf_w >= 0,
        ;
        law_blit(buf, buf_w, x0, y0, data, tw, m, row, col);
        let at = last * buf_w + x0;
        let p = row * buf_w + col;
        assert(last * buf_w >= 0) by (nonlinear_arith)
            requires
                last >= 0,
                buf_w >= 0,
        ;
        assert(row < last ==> row * buf_w + buf_w <= last * buf_w) by (nonlinear_arith)
            requires
                buf_w >= 0,
        ;
        assert(row > last ==> row * buf_w >= last * buf_w + buf_w) by (nonlinear_arith)
            requires
                buf_w >= 0,
        ;
        assert((row - y0) * tw == m * tw || row != last) by (nonlinear_arith)
            requires
                m == last - y0,
        ;
    }
}

/// The channels of a pixel.
pub open spec fn red(px: u32) -> int {
    px as int / 0x1_0000 % 0x100
}

pub open spec fn green(px: u32) -> int {
    px as int / 0x100 % 0x100
}

pub open spec fn blue(px: u32) -> int {
    px as int % 0x100
}

/// One channel of a mix: `a` parts in 255 of the foreground.
pub open spec fn mixed(fg: int, bg: int, a: int) -> int {
    (fg * a + bg * (255 - a)) / 255
}

/// A foreground colour over a background pixel.
pub open spec fn blended(bg: u32, fg: u32, alpha: u8) -> u32 {
    let a = alpha as int;
    (mixed(red(fg), red(bg), a) * 0x1_0000 + mixed(green(fg), green(bg), a) * 0x100 + mixed(
        blue(fg),
        blue(bg),
        a,
    )) as u32
}

fn mix(fg: u32, bg: u32, a: u32) -> (r: u32)
    requires
        fg < 256,
        bg < 256,
        a < 256,
    ensures
        r == mixed(fg as int, bg as int, a as int),
        r < 256,
{
    assert(fg * a + bg * (255 - a) <= 255 * 255) by (nonlinear_arith)
        requires
            0 <= fg <= 255,
            0 <= bg <= 255,
            0 <= a <= 255,
    ;
    assert(0 <= fg * a && 0 <= bg * (255 - a)) by (nonlinear_arith)
        requires
            0 <= fg,
            0 <= bg,
            0 <= a <= 255,
    ;
    (fg * a + bg * (255 - a)) / 255
}

/// Alpha-blend a foreground colour onto a background pixel using intensity as alpha.
pub fn blend_pixel(bg: u32, fg: u32, alpha: u8) -> (r: u32)
    ensures
        r == blended(bg, fg, alpha),
{
    let a: u32 = alpha as u32;
    let r: u32 = mix(fg / 0x1_0000 % 0x100, bg / 0x1_0000 % 0x100, a);
    let g: u32 = mix(fg / 0x100 % 0x100, bg / 0x100 % 0x100, a);
    let b: u32 = mix(fg % 0x100, bg % 0x100, a);
    r * 0x1_0000 + g * 0x100 + b
}

/// Law: full intensity shows the foreground, none the background.
pub proof fn law_blend_ends(bg: u32, fg: u32)
    requires
        bg < 0x100_0000,
        fg < 0x100_0000,
    ensures
        blended(bg, fg, 255) == fg,
        blended(bg, fg, 0) == bg,
{
}

// ---------------------------------------------------------------------------
// Text
// ---------------------------------------------------------------------------
/// Font weights that labels are drawn with.
#[derive(Debug, Clone, Copy, PartialEq, Eq, Structural)]
pub enum Weight {
    Regular,
    Bold,
}

/// Pixels from one character to the next.
pub const CHAR_WIDTH: u32 = 11;

/// Pixel rows of a character.
pub const CHAR_HEIGHT: u32 = 24;

/// The picture of a character: rows of intensities. There is none for a
/// character that the font does not have.
pub uninterp spec fn glyph_of(c: char, weight: Weight) -> Option<Seq<Seq<u8>>>;

/// The rows of a picture.
pub open spec fn rows_of(v: Seq<Vec<u8>>) -> Seq<Seq<u8>> {
    v.map(|_i: int, r: Vec<u8>| r@)
}

/// Whether a picture has the size of a character.
pub open spec fn is_glyph(rows: Seq<Seq<u8>>) -> bool {
    &&& rows.len() == CHAR_HEIGHT
    &&& forall|i: int| 0 <= i < rows.len() ==> (#[trigger] rows[i]).len() == CHAR_WIDTH
}

/// Calls `noto_sans_mono_bitmap::get_raster` at a height of 24 pixels: the
/// picture of a character, 24 rows of 11 intensities, for the characters that
/// the font has. The picture is named, not described.
#[verifier::external_body]
fn glyph(c: char, weight: Weight) -> (r: Option<Vec<Vec<u8>>>)
    ensures
        match r {
            Some(rows) => glyph_of(c, weight) == Some(rows_of(rows@)) && is_glyph(rows_of(rows@)),
            None => glyph_of(c, weight) is None,
        },
{
    let font_weight = match weight {
        Weight::Regular => FontWeight::Regular,
        Weight::Bold => FontWeight::Bold,
    };
    get_raster(c, font_weight, RasterHeight::Size24)
        .map(|g| g.raster().iter().map(|row| row.to_vec()).collect())
}

/// Calls `noto_sans_mono_bitmap::get_raster_width` at a height of 24 pixels: the
/// characters of both weights are 11 pixels wide.
#[verifier::external_body]
fn glyph_width(weight: Weight) -> (r: usize)
    ensures
        r == CHAR_WIDTH,
{
    let font_weight = match weight {
        Weight::Regular => FontWeight::Regular,
        Weight::Bold => FontWeight::Bold,
    };
    get_raster_width(font_weight, RasterHeight::Size24)
}

/// Measure the pixel width of a string at our chosen font size.
pub fn measure_text(text: &str) -> (r: u32)
    requires
        text@.len() * CHAR_WIDTH <= u32::MAX,
    ensures
        r == text@.len() * CHAR_WIDTH,
{
    let char_w: u32 = glyph_width(Weight::Regular) as u32;
    text.unicode_len() as u32 * char_w
}

/// The intensity that a character at (`x`, `y`) has at pixel `p` of a picture of
/// `w` by `h` pixels; zero outside of the character's cell.
pub open spec fn intensity(rows: Seq<Seq<u8>>, w: int, h: int, x: int, y: int, p: int) -> u8 {
    let r = p / w - y;
    let c = p % w - x;
    if 0 <= r < CHAR_HEIGHT && p / w < h && 0 <= c < CHAR_WIDTH {
        rows[r][c]
    } else {
        0
    }
}

/// A picture with a character drawn at (`x`, `y`).
pub open spec fn with_glyph(
    buf: Seq<u32>,
    w: int,
    h: int,
    x: int,
    y: int,
    rows: Seq<Seq<u8>>,
    color: u32,
) -> Seq<u32> {
    Seq::new(
        buf.len(),
        |p: int|
            {
                let a = intensity(rows, w, h, x, y, p);
                if a > 0 {
                    blended(buf[p], color, a)
                } else {
                    buf[p]
                }
            },
    )
}

/// A picture with a text drawn from (`x`, `y`) on. Characters that the font does
/// not have leave a space.
pub open spec fn with_text(
    buf: Seq<u32>,
    w: int,
    h: int,
    x: int,
    y: int,
    text: Seq<char>,
    color: u32,
    weight: Weight,
) -> Seq<u32>
    decreases text.len(),
{
    if text.len() == 0 {
        buf
    } else {
        let before = with_text(buf, w, h, x, y, text.drop_last(), color, weight);
        match glyph_of(text.last(), weight) {
            Some(rows) => with_glyph(
                before,
                w,
                h,
                x + (text.len() - 1) * CHAR_WIDTH,
                y,
                rows,
                color,
            ),
            None => before,
        }
    }
}

/// Draw a character into the pixel buffer.
pub fn draw_glyph(
    buf: &mut Vec<u32>,
    buf_w: u32,
    buf_h: u32,
    x: u32,
    y: u32,
    rows: &Vec<Vec<u8>>,
    color: u32,
)
    requires
        buf_w > 0,
        buf_w * buf_h <= u32::MAX,
        is_glyph(rows_of(rows@)),
        x + CHAR_WIDTH <= u32::MAX,
        y + CHAR_HEIGHT <= u32::MAX,
    ensures
        final(buf)@ == with_glyph(
            old(buf)@,
            buf_w as int,
            buf_h as int,
            x as int,
            y as int,
            rows_of(rows@),
            color,
        ),
{
    let ghost before = buf@;
    let ghost all = rows_of(rows@);
    let ghost (w, h, gx, gy) = (buf_w as int, buf_h as int, x as int, y as int);
    let mut i: u32 = 0;
    while i < CHAR_HEIGHT && y + i < buf_h
        invariant
            i <= CHAR_HEIGHT,
            buf_w > 0,
            buf_w * buf_h <= u32::MAX,
            w == buf_w,
            h == buf_h,
            gx == x,
            gy == y,
            all == rows_of(rows@),
            is_glyph(all),
            x + CHAR_WIDTH <= u32::MAX,
            y + CHAR_HEIGHT <= u32::MAX,
            buf@.len() == before.len(),
            forall|p: int|
                #![trigger buf@[p]]
                0 <= p < before.len() ==> buf@[p] == (if p / w < gy + i {
                    with_glyph(before, w, h, gx, gy, all, color)[p]
                } else {
                    before[p]
                }),
        decreases CHAR_HEIGHT - i,
    {
        let row = &rows[i as usize];
        assert(all[i as int] == row@);
        let mut j: u32 = 0;
        while j < CHAR_WIDTH && x + j < buf_w
            invariant
                i < CHAR_HEIGHT,
                y + i < buf_h,
                j <= CHAR_WIDTH,
                buf_w > 0,
                buf_w * buf_h <= u32::MAX,
                w == buf_w,
                h == buf_h,
                gx == x,
                gy == y,
                row@.len() == CHAR_WIDTH,
                all.len() == CHAR_HEIGHT,
                all[i as int] == row@,
                x + CHAR_WIDTH <= u32::MAX,
                y + CHAR_HEIGHT <= u32::MAX,
                buf@.len() == before.len(),
                forall|p: int|
                    #![trigger buf@[p]]
                    0 <= p < before.len() ==> buf@[p] == (if p / w < gy + i || (p / w == gy + i && p
                        % w < gx + j) {
                        with_glyph(before, w, h, gx, gy, all, color)[p]
                    } else {
                        before[p]
                    }),
            decreases CHAR_WIDTH - j,
        {
            let alpha: u8 = row[j as usize];
            let py: u32 = y + i;
            let px: u32 = x + j;
            proof {
                lemma_pixel(w, py as int, px as int);
                assert(py * buf_w + px < buf_w * buf_h) by (nonlinear_arith)
                    requires
                        py < buf_h,
                        px < buf_w,
                ;
                assert forall|p: int|
                    #![trigger buf@[p]]
                    0 <= p < before.len() && p / w == py && p % w == px implies p == py * buf_w
                    + px by {
                    lemma_fundamental_div_mod(p, w);
                    assert(w * (p / w) == py * buf_w) by (nonlinear_arith)
                        requires
                            p / w == py,
                            w == buf_w,
                    ;
                }
            }
            if alpha > 0 {
                let idx: usize = (py * buf_w + px) as usize;
                if idx < buf.len() {
                    let mixed_px = blend_pixel(buf[idx], color, alpha);
                    buf.set(idx, mixed_px);
                }
            }
            j = j + 1;
        }
        proof {
            assert forall|p: int| 0 <= p < before.len() implies #[trigger] buf@[p] == (if p / w < gy
                + i + 1 {
                with_glyph(before, w, h, gx, gy, all, color)[p]
            } else {
                before[p]
            }) by {
                lemma_mod_bound(p, w);
            }
        }
        i = i + 1;
    }
    proof {
        assert forall|p: int| 0 <= p < before.len() implies #[trigger] buf@[p] == with_glyph(
            before,
            w,
            h,
            gx,
            gy,
            all,
            color,
        )[p] by {}
        assert(buf@ =~= with_glyph(before, w, h, gx, gy, all, color));
    }
}

/// Draw a string into the pixel buffer. Returns the x position after the last character.
pub fn draw_text(
    buf: &mut Vec<u32>,
    buf_w: u32,
    buf_h: u32,
    x: u32,
    y: u32,
    text: &str,
    color: u32,
    weight: Weight,
) -> (end: u32)
    requires
        buf_w > 0,
        buf_w * buf_h <= u32::MAX,
        x + text@.len() * CHAR_WIDTH <= u32::MAX,
        y + CHAR_HEIGHT <= u32::MAX,
    ensures
        end == x + text@.len() * CHAR_WIDTH,
        final(buf)@ == with_text(
            old(buf)@,
            buf_w as int,
            buf_h as int,
            x as int,
            y as int,
            text@,
            color,
            weight,
        ),
{
    let ghost before = buf@;
    let char_w: u32 = glyph_width(weight) as u32;
    let n = text.unicode_len();
    let mut cx: u32 = x;
    let mut i: usize = 0;
    assert(text@.take(0) =~= Seq::empty());
    while i < n
        invariant
            n == text@.len(),
            i <= n,
            char_w == CHAR_WIDTH,
            buf_w > 0,
            buf_w * buf_h <= u32::MAX,
            x + n * CHAR_WIDTH <= u32::MAX,
            y + CHAR_HEIGHT <= u32::MAX,
            cx == x + i * CHAR_WIDTH,
            buf@ == with_text(
                before,
                buf_w as int,
                buf_h as int,
                x as int,
                y as int,
                text@.take(i as int),
                color,
                weight,
            ),
        decreases n - i,
    {
        let ch = text.get_char(i);
        proof {
            let t = text@.take(i + 1);
            assert(t.drop_last() =~= text@.take(i as int));
            assert(t.last() == ch);
        }
        if let Some(rows) = glyph(ch, weight) {
            draw_glyph(buf, buf_w, buf_h, cx, y, &rows, color);
        }
        cx = cx + char_w;
        i = i + 1;
    }
    assert(text@.take(n as int) =~= text@);
    cx
}

/// How a connection kind is written in a window.
pub open spec fn kind_text(kind: ConnectionKind) -> Seq<char> {
    match kind {
        ConnectionKind::Local => "(you)"@,
        ConnectionKind::Direct => "(direct)"@,
        ConnectionKind::Relay => "(relay)"@,
        ConnectionKind::Unknown => "(\u{2026})"@,
    }
}

/// Colour of a connection kind: grey, green or yellow.
pub open spec fn kind_color(kind: ConnectionKind) -> u32 {
    match kind {
        ConnectionKind::Local => 0x00888888,
        ConnectionKind::Direct => 0x0044CC44,
        ConnectionKind::Relay => 0x00CCCC44,
        ConnectionKind::Unknown => 0x00888888,
    }
}

/// Colour of names.
pub const NAME_COLOR: u32 = 0x00FFFFFF;

/// Characters of a label: name, space, and kind.
pub open spec fn label_chars(name: Seq<char>, kind: ConnectionKind) -> int {
    (shown_name(name).len() + 1 + kind_text(kind).len()) as int
}

/// Left edge of a label that is centered within `tile_w` pixels from `x0` on.
pub open spec fn label_x(x0: int, tile_w: int, name: Seq<char>, kind: ConnectionKind) -> int {
    x0 + minus(tile_w, label_chars(name, kind) * CHAR_WIDTH) / 2
}

/// A picture with the label of a tile: the name in bold white, then a space,
/// then the kind in its colour.
pub open spec fn with_label(
    buf: Seq<u32>,
    w: int,
    h: int,
    x: int,
    y: int,
    name: Seq<char>,
    kind: ConnectionKind,
) -> Seq<u32> {
    let n = shown_name(name);
    let a = with_text(buf, w, h, x, y, n, NAME_COLOR, Weight::Bold);
    let x1 = x + n.len() * CHAR_WIDTH;
    let b = with_text(a, w, h, x1, y, " "@, NAME_COLOR, Weight::Regular);
    with_text(b, w, h, x1 + CHAR_WIDTH, y, kind_text(kind), kind_color(kind), Weight::Regular)
}

/// The text and the colour of a connection kind.
fn kind_style(kind: ConnectionKind) -> (r: (&'static str, u32))
    ensures
        r.0@ == kind_text(kind),
        r.1 == kind_color(kind),
{
    match kind {
        ConnectionKind::Local => ("(you)", 0x00888888),
        ConnectionKind::Direct => ("(direct)", 0x0044CC44),
        ConnectionKind::Relay => ("(relay)", 0x00CCCC44),
        ConnectionKind::Unknown => ("(\u{2026})", 0x00888888),
    }
}

/// Draw name + connection kind label, centered within `tile_w` pixels.
pub fn draw_tile_label(
    buf: &mut Vec<u32>,
    buf_w: u32,
    buf_h: u32,
    x0: u32,
    y0: u32,
    tile_w: u32,
    name: &str,
    kind: ConnectionKind,
)
    requires
        buf_w > 0,
        buf_w * buf_h <= u32::MAX,
        label_chars(name@, kind) * CHAR_WIDTH <= u32::MAX,
        label_x(x0 as int, tile_w as int, name@, kind) + label_chars(name@, kind) * CHAR_WIDTH
            <= u32::MAX,
        y0 + CHAR_HEIGHT <= u32::MAX,
    ensures
        final(buf)@ == with_label(
            old(buf)@,
            buf_w as int,
            buf_h as int,
            label_x(x0 as int, tile_w as int, name@, kind),
            y0 as int,
            name@,
            kind,
        ),
{
    let shown = if name.is_empty() {
        "?"
    } else {
        name
    };
    let (kind_str, color) = kind_style(kind);
    let space = " ";
    proof {
        reveal_strlit(" ");
    }
    let text_w: u32 = measure_text(shown) + measure_text(space) + measure_text(kind_str);
    let start_x: u32 = x0 + tile_w.saturating_sub(text_w) / 2;
    let x1 = draw_text(buf, buf_w, buf_h, start_x, y0, shown, NAME_COLOR, Weight::Bold);
    let x2 = draw_text(buf, buf_w, buf_h, x1, y0, space, NAME_COLOR, Weight::Regular);
    let _ = draw_text(buf, buf_w, buf_h, x2, y0, kind_str, color, Weight::Regular);
}

// ---------------------------------------------------------------------------
// Drop dot
// ---------------------------------------------------------------------------
/// Whether pixel `p` of a picture of `w` by `h` pixels lies in a circle.
pub open spec fn in_circle(p: int, w: int, h: int, cx: int, cy: int, radius: int) -> bool {
    let dx = p % w - cx;
    let dy = p / w - cy;
    w > 0 && p / w < h && dx * dx + dy * dy <= radius * radius
}

/// A picture with a filled circle.
pub open spec fn with_circle(
    buf: Seq<u32>,
    w: int,
    h: int,
    cx: int,
    cy: int,
    radius: int,
    color: u32,
) -> Seq<u32> {
    Seq::new(
        buf.len(),
        |p: int|
            if in_circle(p, w, h, cx, cy, radius) {
                color
            } else {
                buf[p]
            },
    )
}

/// Draw a filled circle at (cx, cy) with given radius and colour. What lies
/// outside of the picture is left out.
pub fn draw_filled_circle(
    buf: &mut Vec<u32>,
    buf_w: u32,
    buf_h: u32,
    cx: u32,
    cy: u32,
    radius: u32,
    color: u32,
)
    requires
        buf_w * buf_h <= u32::MAX,
        buf_w * buf_h <= old(buf)@.len(),
        radius <= 32767,
        cx + radius <= i32::MAX,
        cy + radius <= i32::MAX,
    ensures
        final(buf)@ == with_circle(
            old(buf)@,
            buf_w as int,
            buf_h as int,
            cx as int,
            cy as int,
            radius as int,
            color,
        ),
{
    let ghost before = buf@;
    let ghost (w, h, gx, gy, gr) = (
        buf_w as int,
        buf_h as int,
        cx as int,
        cy as int,
        radius as int,
    );
    if buf_w == 0 {
        assert(buf@ =~= with_circle(before, w, h, gx, gy, gr, color));
        return;
    }
    let r: i64 = radius as i64;
    let mut dy: i64 = -r;
    proof {
        assert forall|p: int| in_circle(p, w, h, gx, gy, gr) implies gy - gr <= p / w <= gy + gr
            && gx - gr <= p % w <= gx + gr by {
            lemma_within(p % w - gx, p / w - gy, gr);
        }
    }
    while dy <= r
        invariant
            forall|p: int| #[trigger]
                in_circle(p, w, h, gx, gy, gr) ==> gy - gr <= p / w <= gy + gr && gx - gr <= p % w
                    <= gx + gr,
            -r <= dy <= r + 1,
            r == radius,
            radius <= 32767,
            buf_w > 0,
            buf_w * buf_h <= u32::MAX,
            buf_w * buf_h <= before.len(),
            w == buf_w,
            h == buf_h,
            gx == cx,
            gy == cy,
            gr == radius,
            cx + radius <= i32::MAX,
            cy + radius <= i32::MAX,
            buf@.len() == before.len(),
            forall|p: int|
                #![trigger buf@[p]]
                0 <= p < before.len() ==> buf@[p] == (if p / w < gy + dy && in_circle(
                    p,
                    w,
                    h,
                    gx,
                    gy,
                    gr,
                ) {
                    color
                } else {
                    before[p]
                }),
        decreases r + 1 - dy,
    {
        let mut dx: i64 = -r;
        while dx <= r
            invariant
                forall|p: int| #[trigger]
                    in_circle(p, w, h, gx, gy, gr) ==> gy - gr <= p / w <= gy + gr && gx - gr <= p
                        % w <= gx + gr,
                -r <= dx <= r + 1,
                -r <= dy <= r,
                r == radius,
                radius <= 32767,
                buf_w > 0,
                buf_w * buf_h <= u32::MAX,
                buf_w * buf_h <= before.len(),
                w == buf_w,
                h == buf_h,
                gx == cx,
                gy == cy,
                gr == radius,
                cx + radius <= i32::MAX,
                cy + radius <= i32::MAX,
                buf@.len() == before.len(),
                forall|p: int|
                    #![trigger buf@[p]]
                    0 <= p < before.len() ==> buf@[p] == (if (p / w < gy + dy || (p / w == gy + dy
                        && p % w < gx + dx)) && in_circle(p, w, h, gx, gy, gr) {
                        color
                    } else {
                        before[p]
                    }),
            decreases r + 1 - dx,
        {
            assert(0 <= dx * dx <= 0x4000_0000 && 0 <= dy * dy <= 0x4000_0000 && 0 <= r * r
                <= 0x4000_0000) by (nonlinear_arith)
                requires
                    -32767 <= dx <= 32767,
                    -32767 <= dy <= 32767,
                    0 <= r <= 32767,
            ;
            let px: i64 = cx as i64 + dx;
            let py: i64 = cy as i64 + dy;
            let inside = dx * dx + dy * dy <= r * r;
            if px >= 0 && py >= 0 && px < buf_w as i64 && py < buf_h as i64 {
                proof {
                    lemma_pixel(w, py as int, px as int);
                    assert(0 <= py * buf_w && py * buf_w + px < buf_w * buf_h) by (nonlinear_arith)
                        requires
                            0 <= py < buf_h,
                            0 <= px < buf_w,
                    ;
                    assert forall|p: int|
                        #![trigger buf@[p]]
                        0 <= p < before.len() && p / w == py && p % w == px implies p == py * buf_w
                        + px by {
                        lemma_fundamental_div_mod(p, w);
                        assert(w * (p / w) == py * buf_w) by (nonlinear_arith)
                            requires
                                p / w == py,
                                w == buf_w,
                        ;
                    }
                }
                if inside {
                    let idx: usize = (py as u32 * buf_w + px as u32) as usize;
                    buf.set(idx, color);
                }
            } else {
                proof {
                    assert forall|p: int|
                        0 <= p < before.len() && p / w == py && p % w == px implies !in_circle(
                        p,
                        w,
                        h,
                        gx,
                        gy,
                        gr,
                    ) by {
                        lemma_mod_bound(p, w);
                        vstd::arithmetic::div_mod::lemma_div_pos_is_pos(p, w);
                    }
                }
            }
            dx = dx + 1;
        }
        proof {
            assert forall|p: int| 0 <= p < before.len() implies #[trigger] buf@[p] == (if p / w < gy
                + dy + 1 && in_circle(p, w, h, gx, gy, gr) {
                color
            } else {
                before[p]
            }) by {}
        }
        dy = dy + 1;
    }
    proof {
        assert forall|p: int| 0 <= p < before.len() implies #[trigger] buf@[p] == with_circle(
            before,
            w,
            h,
            gx,
            gy,
            gr,
            color,
        )[p] by {}
        assert(buf@ =~= with_circle(before, w, h, gx, gy, gr, color));
    }
}

/// A point in a circle is no farther away than the radius, along both axes.
proof fn lemma_within(dx: int, dy: int, r: int)
    requires
        dx * dx + dy * dy <= r * r,
        r >= 0,
    ensures
        -r <= dx <= r,
        -r <= dy <= r,
{
    assert(dx * dx >= 0 && dy * dy >= 0) by (nonlinear_arith);
    assert(-r <= dx <= r) by (nonlinear_arith)
        requires
            dx * dx <= r * r,
            r >= 0,
    ;
    assert(-r <= dy <= r) by (nonlinear_arith)
        requires
            dy * dy <= r * r,
            r >= 0,
    ;
}

// ---------------------------------------------------------------------------
// Tiles
// ---------------------------------------------------------------------------
/// Blit a packed-u32 tile frame into the window pixel buffer.
pub fn blit_tile(buf: &mut Vec<u32>, buf_w: u32, x0: u32, y0: u32, tile: &TileFrame)
    requires
        tile.frame.width * tile.frame.height <= tile.frame.data@.len(),
        tile.frame.height > 0 ==> (y0 + tile.frame.height - 1) * buf_w + x0 + tile.frame.width
            <= old(buf)@.len(),
    ensures
        final(buf)@ == with_rows(
            old(buf)@,
            buf_w as int,
            x0 as int,
            y0 as int,
            tile.frame.data@,
            tile.frame.width as int,
            tile.frame.height as nat,
        ),
        final(buf)@.len() == old(buf)@.len(),
{
    blit(buf, buf_w, x0, y0, tile.frame.width, tile.frame.height, tile.frame.data.as_slice());
}

/// Fill the entire buffer with background, for `n` pixels.
pub fn fill_background(buf: &mut Vec<u32>, n: usize)
    ensures
        final(buf)@ == Seq::new(n as nat, |_i: int| BG_COLOR),
{
    buf.clear();
    let mut i: usize = 0;
    while i < n
        invariant
            i <= n,
            buf@.len() == i,
            forall|k: int| 0 <= k < i ==> #[trigger] buf@[k] == BG_COLOR,
        decreases n - i,
    {
        buf.push(BG_COLOR);
        i = i + 1;
    }
    assert(buf@ =~= Seq::new(n as nat, |_i: int| BG_COLOR));
}

/// The grid that a window shows.
#[derive(Debug, Clone, Copy, PartialEq, Eq, Structural)]
pub struct WindowGrid {
    pub cols: u32,
    pub rows: u32,
    /// Size of the largest frames.
    pub tile_w: u32,
    pub tile_h: u32,
}

impl WindowGrid {
    pub open spec fn width(self) -> int {
        window_width(self.cols as int, self.tile_w as int)
    }

    pub open spec fn height(self) -> int {
        window_height(self.rows as int, self.tile_h as int)
    }

    /// Where the label of a tile ends.
    pub open spec fn label_end(self, t: TileFrame) -> int {
        label_x(
            tile_x(t.grid_col as int, self.tile_w as int),
            self.tile_w as int,
            t.name@,
            t.conn_kind,
        ) + label_chars(t.name@, t.conn_kind) * CHAR_WIDTH
    }

    /// Whether a tile can be drawn: its frame is no larger than the others, its
    /// pixels are there, its place is in the grid, and the end of its label fits
    /// in 32 bits.
    pub open spec fn takes(self, t: TileFrame) -> bool {
        &&& t.grid_col < self.cols
        &&& t.grid_row < self.rows
        &&& t.frame.width <= self.tile_w
        &&& t.frame.height <= self.tile_h
        &&& t.frame.width * t.frame.height <= t.frame.data@.len()
        &&& self.label_end(t) <= u32::MAX
    }

    /// Whether a tile can be drawn.
    pub fn accepts(&self, t: &TileFrame) -> (r: bool)
        ensures
            r == self.takes(*t),
    {
        let (w, h): (u64, u64) = (t.frame.width as u64, t.frame.height as u64);
        assert(w * h <= u64::MAX) by (nonlinear_arith)
            requires
                w <= u32::MAX,
                h <= u32::MAX,
        ;
        let pixels: u64 = w * h;
        t.grid_col < self.cols && t.grid_row < self.rows && t.frame.width <= self.tile_w
            && t.frame.height <= self.tile_h && pixels <= t.frame.data.len() as u64
            && self.label_ends_in_range(t)
    }

    /// Whether the end of a tile's label fits in 32 bits.
    fn label_ends_in_range(&self, t: &TileFrame) -> (r: bool)
        ensures
            r == (self.label_end(*t) <= u32::MAX),
    {
        let (kind_str, _color) = kind_style(t.conn_kind);
        let shown = if t.name.as_str().is_empty() {
            "?"
        } else {
            t.name.as_str()
        };
        let (n, k): (u128, u128) = (shown.unicode_len() as u128, kind_str.unicode_len() as u128);
        let (chars, char_w): (u128, u128) = (n + 1 + k, CHAR_WIDTH as u128);
        assert(chars * char_w <= 0x4_0000_0000_0000_0000 * 11) by (nonlinear_arith)
            requires
                chars <= 0x4_0000_0000_0000_0000,
                char_w == 11,
        ;
        let text_w: u128 = chars * char_w;
        let (c, step): (u128, u128) = (
            t.grid_col as u128,
            self.tile_w as u128 + TILE_GAP as u128,
        );
        assert(c * step <= 0xFFFF_FFFF * 0x2_0000_0000) by (nonlinear_arith)
            requires
                c <= u32::MAX,
                step <= 0x2_0000_0000,
        ;
        let x0: u128 = OUTER_PAD as u128 + c * step;
        let spare: u128 = if self.tile_w as u128 >= text_w {
            self.tile_w as u128 - text_w
        } else {
            0
        };
        x0 + spare / 2 + text_w <= 0xFFFF_FFFF
    }
}

/// A picture with a tile: the frame, the red dot in its top left corner if it is
/// shown, and the label below it.
pub open spec fn with_tile(buf: Seq<u32>, g: WindowGrid, t: TileFrame, show_dot: bool) -> Seq<u32> {
    let w = g.width();
    let h = g.height();
    let x0 = tile_x(t.grid_col as int, g.tile_w as int);
    let y0 = tile_y(t.grid_row as int, g.tile_h as int);
    let a = with_rows(
        buf,
        w,
        x0,
        y0,
        t.frame.data@,
        t.frame.width as int,
        t.frame.height as nat,
    );
    let b = if show_dot {
        with_circle(
            a,
            w,
            h,
            x0 + DROP_DOT_RADIUS + 4,
            y0 + DROP_DOT_RADIUS + 4,
            DROP_DOT_RADIUS as int,
            DROP_DOT_COLOR,
        )
    } else {
        a
    };
    with_label(
        b,
        w,
        h,
        label_x(x0, g.tile_w as int, t.name@, t.conn_kind),
        y0 + t.frame.height + LABEL_Y_OFFSET,
        t.name@,
        t.conn_kind,
    )
}

/// Draw a tile into the pixel buffer of a window.
pub fn draw_tile(buf: &mut Vec<u32>, g: &WindowGrid, tile: &TileFrame, show_dot: bool)
    requires
        g.takes(*tile),
        g.width() * g.height() <= u32::MAX,
        old(buf)@.len() == g.width() * g.height(),
    ensures
        final(buf)@ == with_tile(old(buf)@, *g, *tile, show_dot),
        final(buf)@.len() == old(buf)@.len(),
{
    let ghost (w, h) = (g.width(), g.height());
    proof {
        lemma_window_bounds(*g);
        law_tiles_inside(
            g.cols as int,
            g.rows as int,
            tile.grid_col as int,
            tile.grid_row as int,
            g.tile_w as int,
            g.tile_h as int,
        );
    }
    let (out_w, out_h) = match window_size(g.cols, g.rows, g.tile_w, g.tile_h) {
        Some(s) => s,
        None => {
            assert(false);
            return;
        },
    };
    let (x0, y0) = match tile_origin(tile.grid_col, tile.grid_row, g.tile_w, g.tile_h) {
        Some(p) => p,
        None => {
            assert(false);
            return;
        },
    };
    let ghost (fw, fh) = (tile.frame.width as int, tile.frame.height as int);
    assert(fh > 0 ==> (y0 + fh - 1) * out_w + x0 + fw <= out_w * out_h) by (nonlinear_arith)
        requires
            y0 + fh <= out_h,
            x0 + fw <= out_w,
            0 <= y0,
            0 <= x0,
            0 <= fh,
    ;
    blit_tile(buf, out_w, x0, y0, tile);
    if show_dot {
        draw_filled_circle(
            buf,
            out_w,
            out_h,
            x0 + DROP_DOT_RADIUS + 4,
            y0 + DROP_DOT_RADIUS + 4,
            DROP_DOT_RADIUS,
            DROP_DOT_COLOR,
        );
    }
    let label_y: u32 = y0 + tile.frame.height + LABEL_Y_OFFSET;
    proof {
        lemma_kind_len(tile.conn_kind);
        reveal_strlit("?");
    }
    let ghost before_label = buf@;
    draw_tile_label(
        buf,
        out_w,
        out_h,
        x0,
        label_y,
        g.tile_w,
        tile.name.as_str(),
        tile.conn_kind,
    );
    proof {
        let lx = label_x(x0 as int, g.tile_w as int, tile.name@, tile.conn_kind);
        lemma_label_len(before_label, w, h, lx, label_y as int, tile.name@, tile.conn_kind);
    }
}

/// Both sides of a window are shorter than its number of pixels suggests.
proof fn lemma_window_bounds(g: WindowGrid)
    requires
        g.width() * g.height() <= u32::MAX,
    ensures
        32 <= g.width() <= 0x800_0000,
        32 <= g.height() <= 0x800_0000,
{
    let (c, t) = (g.cols as int, g.tile_w as int);
    let (d, u) = (g.rows as int, g.tile_h + LABEL_HEIGHT);
    assert(c * t >= 0 && d * u >= 0) by (nonlinear_arith)
        requires
            c >= 0,
            t >= 0,
            d >= 0,
            u >= 0,
    ;
    let (w, h) = (g.width(), g.height());
    assert(w <= 0x800_0000 && h <= 0x800_0000) by (nonlinear_arith)
        requires
            w >= 32,
            h >= 32,
            w * h <= 0xFFFF_FFFF,
    ;
}

/// Kinds are short.
proof fn lemma_kind_len(kind: ConnectionKind)
    ensures
        kind_text(kind).len() <= 8,
{
    reveal_strlit("(you)");
    reveal_strlit("(direct)");
    reveal_strlit("(relay)");
    reveal_strlit("(\u{2026})");
}

/// Drawing keeps the number of pixels.
proof fn lemma_text_len(
    buf: Seq<u32>,
    w: int,
    h: int,
    x: int,
    y: int,
    text: Seq<char>,
    color: u32,
    weight: Weight,
)
    ensures
        with_text(buf, w, h, x, y, text, color, weight).len() == buf.len(),
    decreases text.len(),
{
    if text.len() > 0 {
        lemma_text_len(buf, w, h, x, y, text.drop_last(), color, weight);
    }
}

proof fn lemma_label_len(
    buf: Seq<u32>,
    w: int,
    h: int,
    x: int,
    y: int,
    name: Seq<char>,
    kind: ConnectionKind,
)
    ensures
        with_label(buf, w, h, x, y, name, kind).len() == buf.len(),
{
    let n = shown_name(name);
    let x1 = x + n.len() * CHAR_WIDTH;
    let a = with_text(buf, w, h, x, y, n, NAME_COLOR, Weight::Bold);
    let b = with_text(a, w, h, x1, y, " "@, NAME_COLOR, Weight::Regular);
    lemma_text_len(buf, w, h, x, y, n, NAME_COLOR, Weight::Bold);
    lemma_text_len(a, w, h, x1, y, " "@, NAME_COLOR, Weight::Regular);
    lemma_text_len(
        b,
        w,
        h,
        x1 + CHAR_WIDTH,
        y,
        kind_text(kind),
        kind_color(kind),
        Weight::Regular,
    );
}

// ---------------------------------------------------------------------------
// The whole window
// ---------------------------------------------------------------------------
/// What is known of the drops of tile `i`.
pub open spec fn drop_state(states: Seq<TileDropState>, i: int) -> TileDropState {
    if i < states.len() {
        states[i]
    } else {
        TileDropState::initial()
    }
}

/// What is known of the drops of all tiles once those of `tiles` were looked at.
pub open spec fn watched(
    states: Seq<TileDropState>,
    tiles: Seq<TileFrame>,
    now: u64,
) -> Seq<TileDropState> {
    Seq::new(
        if tiles.len() >= states.len() {
            tiles.len()
        } else {
            states.len()
        },
        |i: int|
            if i < tiles.len() {
                drop_state(states, i).seen(tiles[i].video_drops, now)
            } else {
                states[i]
            },
    )
}

/// An empty window.
pub open spec fn background(g: WindowGrid) -> Seq<u32> {
    Seq::new((g.width() * g.height()) as nat, |_i: int| BG_COLOR)
}

/// The picture of a gallery: one tile after the other on the background.
pub open spec fn gallery_picture(
    g: WindowGrid,
    tiles: Seq<TileFrame>,
    states: Seq<TileDropState>,
    now: u64,
) -> Seq<u32>
    decreases tiles.len(),
{
    if tiles.len() == 0 {
        background(g)
    } else {
        with_tile(
            gallery_picture(g, tiles.drop_last(), states, now),
            g,
            tiles.last(),
            dot_visible(states[tiles.len() - 1].last_drop_ns, now),
        )
    }
}

/// Draw a gallery into the pixel buffer of a window. A tile has a red dot for a
/// while after its drop count rose.
pub fn draw_gallery(
    buf: &mut Vec<u32>,
    g: &WindowGrid,
    tiles: &[TileFrame],
    states: &mut Vec<TileDropState>,
    now_ns: u64,
)
    requires
        g.width() * g.height() <= u32::MAX,
        forall|i: int| 0 <= i < tiles@.len() ==> g.takes(#[trigger] tiles@[i]),
    ensures
        final(states)@ == watched(old(states)@, tiles@, now_ns),
        final(buf)@ == gallery_picture(*g, tiles@, final(states)@, now_ns),
        final(buf)@.len() == g.width() * g.height(),
{
    let ghost old_states = states@;
    proof {
        lemma_window_bounds(*g);
    }
    let (out_w, out_h) = match window_size(g.cols, g.rows, g.tile_w, g.tile_h) {
        Some(s) => s,
        None => {
            assert(false);
            return;
        },
    };
    fill_background(buf, (out_w * out_h) as usize);
    let ghost all = watched(old_states, tiles@, now_ns);
    assert(buf@ =~= background(*g));
    assert(tiles@.take(0) =~= Seq::empty());
    let mut i: usize = 0;
    while i < tiles.len()
        invariant
            i <= tiles@.len(),
            g.width() * g.height() <= u32::MAX,
            forall|k: int| 0 <= k < tiles@.len() ==> g.takes(#[trigger] tiles@[k]),
            all == watched(old_states, tiles@, now_ns),
            states@.len() == (if i >= old_states.len() {
                i as nat
            } else {
                old_states.len()
            }),
            forall|k: int| 0 <= k < i ==> #[trigger] states@[k] == all[k],
            forall|k: int| i <= k < old_states.len() ==> #[trigger] states@[k] == old_states[k],
            buf@ == gallery_picture(*g, tiles@.take(i as int), all, now_ns),
            buf@.len() == g.width() * g.height(),
        decreases tiles@.len() - i,
    {
        let tile = &tiles[i];
        if i >= states.len() {
            states.push(TileDropState::new());
        }
        let mut state = states[i];
        let show_dot = state.observe(tile.video_drops, now_ns);
        states.set(i, state);
        proof {
            assert(state == all[i as int]);
            let t = tiles@.take(i + 1);
            assert(t.drop_last() =~= tiles@.take(i as int));
            assert(t.last() == *tile);
        }
        draw_tile(buf, g, tile, show_dot);
        i = i + 1;
    }
    assert(tiles@.take(tiles@.len() as int) =~= tiles@);
    assert(states@ =~= all);
}

/// Whether pixel `p` belongs to a tile: it lies in its frame or its label.
pub open spec fn in_area(g: WindowGrid, t: TileFrame, p: int) -> bool {
    let x0 = tile_x(t.grid_col as int, g.tile_w as int);
    let y0 = tile_y(t.grid_row as int, g.tile_h as int);
    &&& x0 <= p % g.width() < x0 + g.tile_w
    &&& y0 <= p / g.width() < y0 + g.tile_h + LABEL_HEIGHT
}

/// Whether the label of a tile is no wider than the tile.
pub open spec fn label_fits(g: WindowGrid, t: TileFrame) -> bool {
    label_chars(t.name@, t.conn_kind) * CHAR_WIDTH <= g.tile_w
}

/// A text changes its own cells only, and each pixel by what it was.
proof fn lemma_text_local(
    a: Seq<u32>,
    b: Seq<u32>,
    w: int,
    h: int,
    x: int,
    y: int,
    text: Seq<char>,
    color: u32,
    weight: Weight,
    p: int,
)
    requires
        a.len() == b.len(),
        0 <= p < a.len(),
    ensures
        with_text(a, w, h, x, y, text, color, weight).len() == a.len(),
        a[p] == b[p] ==> with_text(a, w, h, x, y, text, color, weight)[p] == with_text(
            b,
            w,
            h,
            x,
            y,
            text,
            color,
            weight,
        )[p],
        !(y <= p / w < y + CHAR_HEIGHT && x <= p % w < x + text.len() * CHAR_WIDTH) ==> with_text(
            a,
            w,
            h,
            x,
            y,
            text,
            color,
            weight,
        )[p] == a[p],
    decreases text.len(),
{
    if text.len() > 0 {
        lemma_text_local(a, b, w, h, x, y, text.drop_last(), color, weight, p);
        lemma_text_len(b, w, h, x, y, text.drop_last(), color, weight);
    }
}

/// A label changes its own cells only, and each pixel by what it was.
proof fn lemma_label_local(
    a: Seq<u32>,
    b: Seq<u32>,
    w: int,
    h: int,
    x: int,
    y: int,
    name: Seq<char>,
    kind: ConnectionKind,
    p: int,
)
    requires
        a.len() == b.len(),
        0 <= p < a.len(),
    ensures
        a[p] == b[p] ==> with_label(a, w, h, x, y, name, kind)[p] == with_label(
            b,
            w,
            h,
            x,
            y,
            name,
            kind,
        )[p],
        !(y <= p / w < y + CHAR_HEIGHT && x <= p % w < x + label_chars(name, kind) * CHAR_WIDTH)
            ==> with_label(a, w, h, x, y, name, kind)[p] == a[p],
{
    reveal_strlit(" ");
    let n = shown_name(name);
    let k = kind_text(kind);
    let x1 = x + n.len() * CHAR_WIDTH;
    let x2 = x1 + CHAR_WIDTH;
    let a1 = with_text(a, w, h, x, y, n, NAME_COLOR, Weight::Bold);
    let b1 = with_text(b, w, h, x, y, n, NAME_COLOR, Weight::Bold);
    let a2 = with_text(a1, w, h, x1, y, " "@, NAME_COLOR, Weight::Regular);
    let b2 = with_text(b1, w, h, x1, y, " "@, NAME_COLOR, Weight::Regular);
    lemma_text_local(a, b, w, h, x, y, n, NAME_COLOR, Weight::Bold, p);
    lemma_text_len(b, w, h, x, y, n, NAME_COLOR, Weight::Bold);
    lemma_text_local(a1, b1, w, h, x1, y, " "@, NAME_COLOR, Weight::Regular, p);
    lemma_text_len(b1, w, h, x1, y, " "@, NAME_COLOR, Weight::Regular);
    lemma_text_local(a2, b2, w, h, x2, y, k, kind_color(kind), Weight::Regular, p);
    assert(label_chars(name, kind) * CHAR_WIDTH == n.len() * CHAR_WIDTH + CHAR_WIDTH + k.len()
        * CHAR_WIDTH) by (nonlinear_arith)
        requires
            label_chars(name, kind) == n.len() + 1 + k.len(),
    ;
    assert(n.len() * CHAR_WIDTH >= 0 && k.len() * CHAR_WIDTH >= 0);
}

/// A tile keeps to its area, and what it shows there depends on nothing else.
proof fn lemma_tile_local(
    a: Seq<u32>,
    b: Seq<u32>,
    g: WindowGrid,
    t: TileFrame,
    show_dot: bool,
    p: int,
)
    requires
        g.takes(t),
        label_fits(g, t),
        g.width() * g.height() <= u32::MAX,
        a.len() == g.width() * g.height(),
        b.len() == a.len(),
        0 <= p < a.len(),
    ensures
        with_tile(a, g, t, show_dot).len() == a.len(),
        a[p] == b[p] ==> with_tile(a, g, t, show_dot)[p] == with_tile(b, g, t, show_dot)[p],
        !in_area(g, t, p) ==> with_tile(a, g, t, show_dot)[p] == a[p],
{
    let (w, h) = (g.width(), g.height());
    let x0 = tile_x(t.grid_col as int, g.tile_w as int);
    let y0 = tile_y(t.grid_row as int, g.tile_h as int);
    let (fw, fh) = (t.frame.width as int, t.frame.height as nat);
    lemma_window_bounds(g);
    law_tiles_inside(
        g.cols as int,
        g.rows as int,
        t.grid_col as int,
        t.grid_row as int,
        g.tile_w as int,
        g.tile_h as int,
    );
    assert(fh > 0 ==> (y0 + fh - 1) * w + x0 + fw <= w * h) by (nonlinear_arith)
        requires
            y0 + fh <= h,
            x0 + fw <= w,
            0 <= w,
            0 <= y0,
            0 <= x0,
    ;
    let (row, col) = (p / w, p % w);
    lemma_fundamental_div_mod(p, w);
    lemma_mod_bound(p, w);
    vstd::arithmetic::div_mod::lemma_div_pos_is_pos(p, w);
    assert(row * w + col == p) by (nonlinear_arith)
        requires
            p == w * row + col,
    ;
    law_blit(a, w, x0, y0, t.frame.data@, fw, fh, row, col);
    law_blit(b, w, x0, y0, t.frame.data@, fw, fh, row, col);
    let a1 = with_rows(a, w, x0, y0, t.frame.data@, fw, fh);
    let b1 = with_rows(b, w, x0, y0, t.frame.data@, fw, fh);
    let (cx, cy, r) = (
        x0 + DROP_DOT_RADIUS + 4,
        y0 + DROP_DOT_RADIUS + 4,
        DROP_DOT_RADIUS as int,
    );
    lemma_kind_chars(t.name@, t.conn_kind);
    if in_circle(p, w, h, cx, cy, r) {
        lemma_within(col - cx, row - cy, r);
        assert(in_area(g, t, p));
    }
    let a2 = if show_dot {
        with_circle(a1, w, h, cx, cy, r, DROP_DOT_COLOR)
    } else {
        a1
    };
    let b2 = if show_dot {
        with_circle(b1, w, h, cx, cy, r, DROP_DOT_COLOR)
    } else {
        b1
    };
    let lx = label_x(x0, g.tile_w as int, t.name@, t.conn_kind);
    let ly = y0 + fh + LABEL_Y_OFFSET;
    lemma_label_local(a2, b2, w, h, lx, ly, t.name@, t.conn_kind, p);
    lemma_label_len(a2, w, h, lx, ly, t.name@, t.conn_kind);
}

/// Labels have at least five characters.
proof fn lemma_kind_chars(name: Seq<char>, kind: ConnectionKind)
    ensures
        label_chars(name, kind) >= 5,
{
    reveal_strlit("?");
    reveal_strlit("(you)");
    reveal_strlit("(direct)");
    reveal_strlit("(relay)");
    reveal_strlit("(\u{2026})");
}

/// The areas of tiles in different places have no pixel in common.
proof fn lemma_areas_apart(g: WindowGrid, s: TileFrame, t: TileFrame, p: int)
    requires
        s.grid_col != t.grid_col || s.grid_row != t.grid_row,
        in_area(g, s, p),
    ensures
        !in_area(g, t, p),
{
    let step_x = g.tile_w + TILE_GAP;
    let step_y = g.tile_h + LABEL_HEIGHT + TILE_GAP;
    let (a, b) = (s.grid_col as int, t.grid_col as int);
    let (c, d) = (s.grid_row as int, t.grid_row as int);
    assert(a < b ==> b * step_x >= a * step_x + step_x) by (nonlinear_arith)
        requires
            step_x > 0,
    ;
    assert(b < a ==> a * step_x >= b * step_x + step_x) by (nonlinear_arith)
        requires
            step_x > 0,
    ;
    assert(c < d ==> d * step_y >= c * step_y + step_y) by (nonlinear_arith)
        requires
            step_y > 0,
    ;
    assert(d < c ==> c * step_y >= d * step_y + step_y) by (nonlinear_arith)
        requires
            step_y > 0,
    ;
}

/// Law: in a window every tile shows what it would show alone, and around the
/// tiles there is background. Left out are galleries with two tiles in one place,
/// and those with a label that is wider than its tile: it runs on into the next.
pub proof fn law_gallery_tiles(
    g: WindowGrid,
    tiles: Seq<TileFrame>,
    states: Seq<TileDropState>,
    now: u64,
    p: int,
)
    requires
        g.width() * g.height() <= u32::MAX,
        forall|i: int|
            0 <= i < tiles.len() ==> g.takes(#[trigger] tiles[i]) && label_fits(g, tiles[i]),
        forall|i: int, j: int|
            0 <= i < j < tiles.len() ==> (#[trigger] tiles[i]).grid_col != (
            #[trigger] tiles[j]).grid_col || tiles[i].grid_row != tiles[j].grid_row,
        0 <= p < g.width() * g.height(),
    ensures
        gallery_picture(g, tiles, states, now).len() == g.width() * g.height(),
        forall|i: int|
            0 <= i < tiles.len() && in_area(g, #[trigger] tiles[i], p) ==> gallery_picture(
                g,
                tiles,
                states,
                now,
            )[p] == with_tile(
                background(g),
                g,
                tiles[i],
                dot_visible(states[i].last_drop_ns, now),
            )[p],
        (forall|i: int| 0 <= i < tiles.len() ==> !in_area(g, #[trigger] tiles[i], p))
            ==> gallery_picture(g, tiles, states, now)[p] == BG_COLOR,
    decreases tiles.len(),
{
    lemma_window_bounds(g);
    let bg = background(g);
    if tiles.len() > 0 {
        let front = tiles.drop_last();
        let n = front.len() as int;
        assert forall|i: int| 0 <= i < front.len() implies g.takes(#[trigger] front[i])
            && label_fits(g, front[i]) by {
            assert(front[i] == tiles[i]);
        }
        assert forall|i: int, j: int| 0 <= i < j < front.len() implies (
        #[trigger] front[i]).grid_col != (#[trigger] front[j]).grid_col || front[i].grid_row
            != front[j].grid_row by {
            assert(front[i] == tiles[i] && front[j] == tiles[j]);
        }
        law_gallery_tiles(g, front, states, now, p);
        let before = gallery_picture(g, front, states, now);
        let t = tiles.last();
        assert(tiles[n] == t);
        let dot = dot_visible(states[n].last_drop_ns, now);
        lemma_tile_local(before, bg, g, t, dot, p);
        if in_area(g, t, p) {
            assert forall|i: int| 0 <= i < n implies !in_area(g, #[trigger] tiles[i], p) by {
                lemma_areas_apart(g, t, tiles[i], p);
            }
            assert forall|i: int| 0 <= i < front.len() implies !in_area(
                g,
                #[trigger] front[i],
                p,
            ) by {
                assert(front[i] == tiles[i]);
            }
        } else {
            assert forall|i: int| 0 <= i < n && in_area(g, #[trigger] tiles[i], p) implies before[p]
                == with_tile(
                bg,
                g,
                tiles[i],
                dot_visible(states[i].last_drop_ns, now),
            )[p] by {
                assert(front[i] == tiles[i]);
            }
            if forall|i: int| 0 <= i < tiles.len() ==> !in_area(g, #[trigger] tiles[i], p) {
                assert forall|i: int| 0 <= i < front.len() implies !in_area(
                    g,
                    #[trigger] front[i],
                    p,
                ) by {
                    assert(front[i] == tiles[i]);
                }
            }
        }
    }
}

// ---------------------------------------------------------------------------
// Laws
// ---------------------------------------------------------------------------
/// Law: the size of the window. One tile takes its own pixels, 16 at each side, and
/// 32 below it for the label; every further one adds as many and 20 for the gap.
pub proof fn law_window_size(n: int, tile: int)
    requires
        n >= 1,
    ensures
        window_width(1, tile) == 16 + tile + 16,
        window_width(n + 1, tile) == window_width(n, tile) + 20 + tile,
        window_height(1, tile) == 16 + tile + 32 + 16,
        window_height(n + 1, tile) == window_height(n, tile) + 20 + tile + 32,
{
    let h = tile + 32;
    assert((n + 1) * tile == n * tile + tile && (n + 1) * h == n * h + h && 1 * tile == tile && 1 * h
        == h) by (nonlinear_arith);
}

/// Law: where the tiles stand: the first 16 pixels from the edges, and each next one
/// behind the one before, its label and the gap of 20.
pub proof fn law_tile_places(k: int, tile: int)
    ensures
        tile_x(0, tile) == 16,
        tile_y(0, tile) == 16,
        tile_x(k + 1, tile) == tile_x(k, tile) + tile + 20,
        tile_y(k + 1, tile) == tile_y(k, tile) + tile + 32 + 20,
{
    let (w, h) = (tile + 20, tile + 32 + 20);
    assert((k + 1) * w == k * w + w && (k + 1) * h == k * h + h && 0 * w == 0 && 0 * h == 0)
        by (nonlinear_arith);
}

/// Law: the channels of a pixel are its three lower bytes.
pub proof fn law_channels(px: u32)
    ensures
        0 <= red(px) < 256,
        0 <= green(px) < 256,
        0 <= blue(px) < 256,
        red(px) * 0x1_0000 + green(px) * 0x100 + blue(px) == px % 0x100_0000,
{
}

/// Law: every channel of a blended pixel lies between those of the two colours, as
/// near to that of the foreground as the intensity says, rounded down.
pub proof fn law_blend(bg: u32, fg: u32, alpha: u8)
    ensures
        ({
            let px = blended(bg, fg, alpha);
            let (a, b) = (alpha as int, 255 - alpha);
            &&& px < 0x100_0000
            &&& 255 * red(px) <= red(fg) * a + red(bg) * b < 255 * red(px) + 255
            &&& 255 * green(px) <= green(fg) * a + green(bg) * b < 255 * green(px) + 255
            &&& 255 * blue(px) <= blue(fg) * a + blue(bg) * b < 255 * blue(px) + 255
        }),
{
    let a = alpha as int;
    lemma_mixed(red(fg), red(bg), a);
    lemma_mixed(green(fg), green(bg), a);
    lemma_mixed(blue(fg), blue(bg), a);
    let (r, g, b) = (
        mixed(red(fg), red(bg), a),
        mixed(green(fg), green(bg), a),
        mixed(blue(fg), blue(bg), a),
    );
    let px = r * 0x1_0000 + g * 0x100 + b;
    assert(px / 0x1_0000 == r && px / 0x100 % 0x100 == g && px % 0x100 == b);
}

proof fn lemma_mixed(fg: int, bg: int, a: int)
    requires
        0 <= fg < 256,
        0 <= bg < 256,
        0 <= a < 256,
    ensures
        0 <= mixed(fg, bg, a) < 256,
        255 * mixed(fg, bg, a) <= fg * a + bg * (255 - a) < 255 * mixed(fg, bg, a) + 255,
{
    let sum = fg * a + bg * (255 - a);
    assert(0 <= sum <= 255 * 255) by (nonlinear_arith)
        requires
            0 <= fg < 256,
            0 <= bg < 256,
            0 <= a < 256,
            sum == fg * a + bg * (255 - a),
    ;
}

/// Law: which pixels a character changes. A pixel of its cell of 11 by 24 pixels is
/// mixed with the colour as the picture of the character says; all others, and those
/// below the window, stay.
pub proof fn law_character_pixel(
    buf: Seq<u32>,
    w: int,
    h: int,
    x: int,
    y: int,
    rows: Seq<Seq<u8>>,
    color: u32,
    row: int,
    col: int,
)
    requires
        0 <= col < w,
        0 <= row,
        row * w + col < buf.len(),
    ensures
        ({
            let after = with_glyph(buf, w, h, x, y, rows, color);
            let p = row * w + col;
            let inside = y <= row < y + 24 && row < h && x <= col < x + 11;
            &&& after.len() == buf.len()
            &&& inside && rows[row - y][col - x] > 0 ==> after[p] == blended(
                buf[p],
                color,
                rows[row - y][col - x],
            )
            &&& inside && rows[row - y][col - x] == 0 ==> after[p] == buf[p]
            &&& !inside ==> after[p] == buf[p]
        }),
{
    vstd::arithmetic::div_mod::lemma_fundamental_div_mod_converse(row * w + col, w, row, col);
    assert(row * w >= 0) by (nonlinear_arith)
        requires
            row >= 0,
            w > 0,
    ;
}

/// Law: the characters of a text stand side by side, 11 pixels each, also those that
/// the font does not have.
pub proof fn law_text_characters(
    buf: Seq<u32>,
    w: int,
    h: int,
    x: int,
    y: int,
    text: Seq<char>,
    c: char,
    color: u32,
    weight: Weight,
)
    ensures
        with_text(buf, w, h, x, y, Seq::empty(), color, weight) == buf,
        ({
            let before = with_text(buf, w, h, x, y, text, color, weight);
            let after = with_text(buf, w, h, x, y, text.push(c), color, weight);
            &&& glyph_of(c, weight) is None ==> after == before
            &&& glyph_of(c, weight) is Some ==> after == with_glyph(
                before,
                w,
                h,
                x + 11 * text.len(),
                y,
                glyph_of(c, weight)->0,
                color,
            )
        }),
        CHAR_WIDTH == 11,
        CHAR_HEIGHT == 24,
{
    assert(text.push(c).drop_last() =~= text);
}

/// Law: how a kind of connection is written, and in which colour.
pub proof fn law_kind_style()
    ensures
        kind_text(ConnectionKind::Local) == "(you)"@,
        kind_text(ConnectionKind::Direct) == "(direct)"@,
        kind_text(ConnectionKind::Relay) == "(relay)"@,
        kind_text(ConnectionKind::Unknown) == "(\u{2026})"@,
        kind_color(ConnectionKind::Local) == 0x888888,
        kind_color(ConnectionKind::Direct) == 0x44CC44,
        kind_color(ConnectionKind::Relay) == 0xCCCC44,
        kind_color(ConnectionKind::Unknown) == 0x888888,
        NAME_COLOR == 0xFFFFFF,
        BG_COLOR == 0x181818,
        DROP_DOT_COLOR == 0xFF3333,
        DROP_DOT_RADIUS == 5,
        LABEL_Y_OFFSET == 4,
{
}

/// Law: a label is the name, a space and the kind, and stands in the middle below
/// its tile, or begins at the edge of the tile where it is wider.
pub proof fn law_label_place(x0: int, tile_w: int, name: Seq<char>, kind: ConnectionKind)
    ensures
        label_chars(name, kind) == shown_name(name).len() + 1 + kind_text(kind).len(),
        ({
            let w = 11 * label_chars(name, kind);
            let x = label_x(x0, tile_w, name, kind);
            &&& w <= tile_w ==> 2 * (x - x0) + w <= tile_w <= 2 * (x - x0) + w + 1
            &&& w >= tile_w ==> x == x0
        }),
{
}

/// Law: the parts of a label: the name in bold and white from its left edge on, and
/// behind it and a space the kind, in its colour and not in bold.
pub proof fn law_label_parts(
    buf: Seq<u32>,
    w: int,
    h: int,
    x: int,
    y: int,
    name: Seq<char>,
    kind: ConnectionKind,
)
    ensures
        ({
            let n = shown_name(name).len();
            let named = with_text(buf, w, h, x, y, shown_name(name), 0xFFFFFF, Weight::Bold);
            let spaced = with_text(named, w, h, x + 11 * n, y, " "@, 0xFFFFFF, Weight::Regular);
            with_label(buf, w, h, x, y, name, kind) == with_text(
                spaced,
                w,
                h,
                x + 11 * (n + 1),
                y,
                kind_text(kind),
                kind_color(kind),
                Weight::Regular,
            )
        }),
{
}

/// Law: which pixels a circle changes: those no farther from its centre than its
/// radius, and none below the window.
pub proof fn law_circle_pixel(
    buf: Seq<u32>,
    w: int,
    h: int,
    cx: int,
    cy: int,
    radius: int,
    color: u32,
    row: int,
    col: int,
)
    requires
        0 <= col < w,
        0 <= row,
        row * w + col < buf.len(),
    ensures
        ({
            let after = with_circle(buf, w, h, cx, cy, radius, color);
            let p = row * w + col;
            let (dx, dy) = (col - cx, row - cy);
            &&& after.len() == buf.len()
            &&& row < h && dx * dx + dy * dy <= radius * radius ==> after[p] == color
            &&& row >= h || dx * dx + dy * dy > radius * radius ==> after[p] == buf[p]
        }),
{
    vstd::arithmetic::div_mod::lemma_fundamental_div_mod_converse(row * w + col, w, row, col);
    assert(row * w >= 0) by (nonlinear_arith)
        requires
            row >= 0,
            w > 0,
    ;
}

/// Law: what a tile is made of: its frame at its place, over that a red dot of five
/// pixels radius, nine pixels from its upper left corner, if it is shown, and over
/// that its label, four pixels below the frame.
pub proof fn law_tile_parts(buf: Seq<u32>, g: WindowGrid, t: TileFrame)
    ensures
        ({
            let (w, h) = (
                window_width(g.cols as int, g.tile_w as int),
                window_height(g.rows as int, g.tile_h as int),
            );
            let x0 = tile_x(t.grid_col as int, g.tile_w as int);
            let y0 = tile_y(t.grid_row as int, g.tile_h as int);
            let framed = with_rows(
                buf,
                w,
                x0,
                y0,
                t.frame.data@,
                t.frame.width as int,
                t.frame.height as nat,
            );
            let dotted = with_circle(framed, w, h, x0 + 9, y0 + 9, 5, 0xFF3333);
            let x = label_x(x0, g.tile_w as int, t.name@, t.conn_kind);
            let y = y0 + t.frame.height + 4;
            &&& with_tile(buf, g, t, false) == with_label(framed, w, h, x, y, t.name@, t.conn_kind)
            &&& with_tile(buf, g, t, true) == with_label(dotted, w, h, x, y, t.name@, t.conn_kind)
        }),
{
}

/// Law: which tiles can be drawn: those inside the grid whose frames are not larger
/// than its cells and have all their pixels, and whose labels end within 32 bits.
pub proof fn law_drawable_tiles(g: WindowGrid, t: TileFrame)
    ensures
        ({
            let x0 = tile_x(t.grid_col as int, g.tile_w as int);
            let end = label_x(x0, g.tile_w as int, t.name@, t.conn_kind) + 11 * label_chars(
                t.name@,
                t.conn_kind,
            );
            g.takes(t) <==> t.grid_col < g.cols && t.grid_row < g.rows && t.frame.width <= g.tile_w
                && t.frame.height <= g.tile_h && t.frame.data@.len() >= t.frame.width
                * t.frame.height && end < 0x1_0000_0000
        }),
        g.width() == window_width(g.cols as int, g.tile_w as int),
        g.height() == window_height(g.rows as int, g.tile_h as int),
{
}

/// Law: a gallery is drawn on an empty window, tile after tile, each with a dot if
/// the drops of its own are recent.
pub proof fn law_gallery_drawn(
    g: WindowGrid,
    tiles: Seq<TileFrame>,
    t: TileFrame,
    states: Seq<TileDropState>,
    now: u64,
    p: int,
)
    requires
        0 <= p < window_width(g.cols as int, g.tile_w as int) * window_height(
            g.rows as int,
            g.tile_h as int,
        ),
    ensures
        gallery_picture(g, Seq::empty(), states, now)[p] == 0x181818,
        gallery_picture(g, Seq::empty(), states, now).len() == window_width(
            g.cols as int,
            g.tile_w as int,
        ) * window_height(g.rows as int, g.tile_h as int),
        gallery_picture(g, tiles.push(t), states, now) == with_tile(
            gallery_picture(g, tiles, states, now),
            g,
            t,
            dot_visible(states[tiles.len() as int].last_drop_ns, now),
        ),
{
    assert(tiles.push(t).drop_last() =~= tiles);
}

/// Law: the drops of every tile are watched: a tile that was not seen before starts
/// with none, and what is known of tiles that are gone stays.
pub proof fn law_drops_watched(
    states: Seq<TileDropState>,
    tiles: Seq<TileFrame>,
    now: u64,
    i: int,
)
    ensures
        0 <= i < tiles.len() && i < states.len() ==> watched(states, tiles, now)[i]
            == states[i].seen(tiles[i].video_drops, now),
        states.len() <= i < tiles.len() ==> watched(states, tiles, now)[i]
            == TileDropState::initial().seen(tiles[i].video_drops, now),
        tiles.len() <= i < states.len() ==> watched(states, tiles, now)[i] == states[i],
        tiles.len() >= states.len() ==> watched(states, tiles, now).len() == tiles.len(),
        tiles.len() <= states.len() ==> watched(states, tiles, now).len() == states.len(),
{
}

} // verus!
