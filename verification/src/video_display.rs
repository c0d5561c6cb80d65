//! Terminal display: where tiles go, and what is drawn around them.

use vstd::prelude::*;

use crate::kitty::{
    delete_command, delete_image, display_image_at, div_ceil, div_up, fit_command, law_div_up, minus,
};
use crate::term::{cursor_to, move_to, WinSize};
use crate::text::{lemma_joined, put, put_repeat, repeated, utf8};
use crate::tui::{banner_drawable, banner_lines_of, banner_rows, draw_error_banner};
use crate::video_compositor::{
    copy_status, same_status, status_text, ConnectionKind, StatusInfo, StatusText, TileFrame,
    CELL_GAP_COLS, CELL_GAP_ROWS,
};

verus! {

// ---------------------------------------------------------------------------
// Images
// ---------------------------------------------------------------------------
//
// Image IDs: a pair (back/front) is reserved per tile slot.
// Slot i uses IDs (i*2 + 1) and (i*2 + 2).
/// Number of tiles that are displayed.
pub const MAX_TILES: usize = 9;

/// Number of image IDs that are deleted when the screen is cleared.
pub const IMAGE_IDS: u32 = 20;

/// The commands that delete the images 1 to `n`.
pub open spec fn delete_commands(n: nat) -> Seq<u8>
    decreases n,
{
    if n == 0 {
        Seq::empty()
    } else {
        delete_commands((n - 1) as nat) + delete_command(n as u32)
    }
}

/// Delete every image that a tile may have used.
pub fn delete_all_images(out: &mut Vec<u8>)
    ensures
        final(out)@ == old(out)@ + delete_commands(IMAGE_IDS as nat),
{
    let ghost before = out@;
    let mut i: u32 = 0;
    assert(before + delete_commands(0) =~= before);
    while i < IMAGE_IDS
        invariant
            i <= IMAGE_IDS,
            out@ == before + delete_commands(i as nat),
        decreases IMAGE_IDS - i,
    {
        delete_image(out, i + 1);
        i = i + 1;
        assert(out@ =~= before + delete_commands(i as nat));
    }
}

/// Clear all text and images.
pub fn clear_all_images(out: &mut Vec<u8>)
    ensures
        final(out)@ == old(out)@ + utf8("\x1b[2J"@) + delete_commands(IMAGE_IDS as nat),
{
    put(out, "\x1b[2J");
    delete_all_images(out);
}

/// Which image of each slot is drawn to next.
pub struct BackBuffers {
    toggles: Vec<bool>,
}

impl View for BackBuffers {
    type V = Seq<bool>;

    closed spec fn view(&self) -> Seq<bool> {
        self.toggles@
    }
}

/// The image of a slot.
pub open spec fn image_id(slot: int, second: bool) -> int {
    if second {
        slot * 2 + 2
    } else {
        slot * 2 + 1
    }
}

impl BackBuffers {
    pub fn new() -> (r: BackBuffers)
        ensures
            r@ == Seq::new(MAX_TILES as nat, |_i: int| false),
    {
        let mut toggles: Vec<bool> = Vec::new();
        let mut i: usize = 0;
        while i < MAX_TILES
            invariant
                i <= MAX_TILES,
                toggles@.len() == i,
                forall|k: int| 0 <= k < i ==> !(#[trigger] toggles@[k]),
            decreases MAX_TILES - i,
        {
            toggles.push(false);
            i = i + 1;
        }
        assert(toggles@ =~= Seq::new(MAX_TILES as nat, |_i: int| false));
        BackBuffers { toggles }
    }

    /// The image to draw the tile in `slot` to. The other one is next.
    pub fn next_image(&mut self, slot: usize) -> (id: u32)
        requires
            slot < MAX_TILES,
            old(self)@.len() == MAX_TILES,
        ensures
            id == image_id(slot as int, old(self)@[slot as int]),
            final(self)@ == old(self)@.update(slot as int, !old(self)@[slot as int]),
    {
        let second = self.toggles[slot];
        self.toggles.set(slot, !second);
        if second {
            (slot * 2 + 2) as u32
        } else {
            (slot * 2 + 1) as u32
        }
    }
}

/// Law: a tile is never drawn over the image that it shows, nor over the image
/// of another tile, and clearing the screen deletes every image.
pub proof fn law_images_apart(slot: int, other: int, second: bool, other_second: bool)
    requires
        0 <= slot < MAX_TILES,
        0 <= other < MAX_TILES,
    ensures
        image_id(slot, second) != image_id(slot, !second),
        slot != other ==> image_id(slot, second) != image_id(other, other_second),
        1 <= image_id(slot, second) <= IMAGE_IDS,
{
}

// ---------------------------------------------------------------------------
// Layout
// ---------------------------------------------------------------------------
/// The gallery in terminal cells.
#[derive(Debug, Clone, Copy, PartialEq, Eq, Structural)]
pub struct GalleryLayout {
    /// Terminal cells occupied by one tile.
    pub tile_cols: u32,
    pub tile_rows: u32,
    /// Rows below a tile for its label.
    pub label_rows: u32,
    /// Top-left offset that centers the gallery in the terminal.
    pub origin_col: u32,
    pub origin_row: u32,
}

/// Columns of a gallery of `cols` tiles side by side, gaps included.
pub open spec fn total_cols(cols: int, tile_cols: int) -> int {
    cols * tile_cols + (cols - 1) * CELL_GAP_COLS
}

/// Rows of a gallery of `rows` tiles on top of each other, labels and gaps
/// included.
pub open spec fn total_rows(rows: int, tile_rows: int, label_rows: int) -> int {
    rows * (tile_rows + label_rows) + (rows - 1) * CELL_GAP_ROWS
}

impl GalleryLayout {
    /// Where the tiles in a column of the grid begin.
    pub open spec fn col(self, grid_col: int) -> int {
        self.origin_col + grid_col * (self.tile_cols + CELL_GAP_COLS)
    }

    /// Where the tiles in a row of the grid begin.
    pub open spec fn row(self, grid_row: int) -> int {
        self.origin_row + grid_row * (self.tile_rows + self.label_rows + CELL_GAP_ROWS)
    }
}

/// The layout of a gallery: every tile takes as many cells as the largest
/// frame, and the whole is centered.
pub open spec fn layout_of(
    ws: WinSize,
    cell: (u32, u32),
    tile_px: (u32, u32),
    grid: (u32, u32),
    label_rows: u32,
) -> GalleryLayout {
    let tile_cols = div_up(tile_px.0 as int, cell.0 as int);
    let tile_rows = div_up(tile_px.1 as int, cell.1 as int);
    GalleryLayout {
        tile_cols: tile_cols as u32,
        tile_rows: tile_rows as u32,
        label_rows,
        origin_col: (minus(ws.cols as int, total_cols(grid.0 as int, tile_cols)) / 2) as u32,
        origin_row: (minus(
            ws.rows as int,
            total_rows(grid.1 as int, tile_rows, label_rows as int),
        ) / 2) as u32,
    }
}

/// Whether the size of a gallery can be computed.
pub open spec fn layout_fits(
    cell: (u32, u32),
    tile_px: (u32, u32),
    grid: (u32, u32),
    label_rows: u32,
) -> bool {
    let tile_cols = div_up(tile_px.0 as int, cell.0 as int);
    let tile_rows = div_up(tile_px.1 as int, cell.1 as int);
    &&& grid.0 >= 1
    &&& grid.1 >= 1
    &&& total_cols(grid.0 as int, tile_cols) <= u32::MAX
    &&& total_rows(grid.1 as int, tile_rows, label_rows as int) <= u32::MAX
}

/// `n * (size + extra) + (n - 1)`, and whether it is small enough.
fn span(n: u32, size: u32, extra: u32) -> (r: Option<u32>)
    requires
        n >= 1,
        extra <= 1,
    ensures
        match r {
            Some(v) => v == n * (size + extra) + (n - 1),
            None => n * (size + extra) + (n - 1) > u32::MAX,
        },
{
    let a: u64 = n as u64;
    let b: u64 = size as u64 + extra as u64;
    assert(a * b + a <= u64::MAX) by (nonlinear_arith)
        requires
            a <= u32::MAX,
            b <= 0x1_0000_0000,
    ;
    let total: u64 = a * b + (a - 1);
    if total <= 0xFFFF_FFFF {
        Some(total as u32)
    } else {
        None
    }
}

/// Compute the layout of a gallery. There is none where the size of a terminal
/// cell is not known, or where the gallery is too large to be computed.
pub fn compute_layout(
    ws: WinSize,
    tile_w: u32,
    tile_h: u32,
    cols: u32,
    rows: u32,
    label_rows: u32,
) -> (r: Option<GalleryLayout>)
    requires
        cols >= 1,
        rows >= 1,
        label_rows <= 1,
    ensures
        match ws.cell() {
            Some(cell) => if layout_fits(cell, (tile_w, tile_h), (cols, rows), label_rows) {
                r == Some(layout_of(ws, cell, (tile_w, tile_h), (cols, rows), label_rows))
            } else {
                r is None
            },
            None => r is None,
        },
{
    let (cell_w, cell_h) = match ws.cell_size() {
        Some(c) => c,
        None => {
            return None;
        },
    };
    let tile_cols = div_ceil(tile_w, cell_w);
    let tile_rows = div_ceil(tile_h, cell_h);
    let total_c = match span(cols, tile_cols, 0) {
        Some(v) => v,
        None => {
            return None;
        },
    };
    let total_r = match span(rows, tile_rows, label_rows) {
        Some(v) => v,
        None => {
            return None;
        },
    };
    Some(
        GalleryLayout {
            tile_cols,
            tile_rows,
            label_rows,
            origin_col: (ws.cols as u32).saturating_sub(total_c) / 2,
            origin_row: (ws.rows as u32).saturating_sub(total_r) / 2,
        },
    )
}

/// Law: tiles do not overlap: one begins behind the end of the one before it,
/// its label included, with a gap in between; and a gallery that fits the
/// terminal lies inside it.
pub proof fn law_tiles_apart(l: GalleryLayout, a: int, b: int, grid: (u32, u32), ws: WinSize)
    requires
        0 <= a < b,
    ensures
        l.col(a) + l.tile_cols < l.col(b),
        l.row(a) + l.tile_rows + l.label_rows < l.row(b),
        b < grid.0 && l.origin_col == minus(
            ws.cols as int,
            total_cols(grid.0 as int, l.tile_cols as int),
        ) / 2 && total_cols(grid.0 as int, l.tile_cols as int) <= ws.cols ==> l.col(b) + l.tile_cols
            <= ws.cols,
{
    let w = l.tile_cols + CELL_GAP_COLS;
    let h = l.tile_rows + l.label_rows + CELL_GAP_ROWS;
    assert(a * w + w <= b * w) by (nonlinear_arith)
        requires
            0 <= a < b,
            w >= 0,
    ;
    assert(a * h + h <= b * h) by (nonlinear_arith)
        requires
            0 <= a < b,
            h >= 0,
    ;
    let n = grid.0 as int;
    let t = l.tile_cols as int;
    if b < n {
        assert(b * w + t <= n * t + (n - 1)) by (nonlinear_arith)
            requires
                0 <= b < n,
                w == t + 1,
                t >= 0,
        ;
    }
}

/// The cell of a tile, if it can be computed.
pub fn tile_position(l: &GalleryLayout, grid_col: u32, grid_row: u32) -> (r: Option<(u32, u32)>)
    ensures
        match r {
            Some(p) => p.0 == l.col(grid_col as int) && p.1 == l.row(grid_row as int),
            None => l.col(grid_col as int) > u32::MAX || l.row(grid_row as int) > u32::MAX,
        },
{
    let gc: u128 = grid_col as u128;
    let gr: u128 = grid_row as u128;
    let step_c: u128 = l.tile_cols as u128 + CELL_GAP_COLS as u128;
    let step_r: u128 = l.tile_rows as u128 + l.label_rows as u128 + CELL_GAP_ROWS as u128;
    assert(gc * step_c <= 0xFFFF_FFFF * 0x2_0000_0000) by (nonlinear_arith)
        requires
            gc <= u32::MAX,
            step_c <= 0x2_0000_0000,
    ;
    assert(gr * step_r <= 0xFFFF_FFFF * 0x2_0000_0000) by (nonlinear_arith)
        requires
            gr <= u32::MAX,
            step_r <= 0x2_0000_0000,
    ;
    let col: u128 = l.origin_col as u128 + gc * step_c;
    let row: u128 = l.origin_row as u128 + gr * step_r;
    if col > 0xFFFF_FFFF || row > 0xFFFF_FFFF {
        None
    } else {
        Some((col as u32, row as u32))
    }
}

/// A number cut to 16 bits, as cell positions are.
pub open spec fn low16(n: int) -> int {
    n % 0x1_0000
}

/// A number cut to 16 bits.
fn cut16(n: u32) -> (r: u16)
    ensures
        r == low16(n as int),
{
    (n % 0x1_0000) as u16
}

// ---------------------------------------------------------------------------
// Labels
// ---------------------------------------------------------------------------
/// The number that stands for a connection kind in [`DrawnLabel`].
pub open spec fn kind_tag(kind: ConnectionKind) -> u8 {
    match kind {
        ConnectionKind::Unknown => 0,
        ConnectionKind::Direct => 1,
        ConnectionKind::Relay => 2,
        ConnectionKind::Local => 3,
    }
}

pub fn conn_kind_tag(kind: ConnectionKind) -> (r: u8)
    ensures
        r == kind_tag(kind),
{
    match kind {
        ConnectionKind::Unknown => 0,
        ConnectionKind::Direct => 1,
        ConnectionKind::Relay => 2,
        ConnectionKind::Local => 3,
    }
}

/// Per-tile label state used to avoid redrawing unchanged labels.
pub struct DrawnLabel {
    pub name: String,
    pub conn_kind_tag: u8,
}

/// A label, as contracts see it.
pub struct LabelText {
    pub name: Seq<char>,
    pub tag: u8,
}

impl View for DrawnLabel {
    type V = LabelText;

    open spec fn view(&self) -> LabelText {
        LabelText { name: self.name@, tag: self.conn_kind_tag }
    }
}

/// The texts of some labels.
pub open spec fn label_texts(v: Seq<DrawnLabel>) -> Seq<LabelText> {
    v.map(|_i: int, d: DrawnLabel| d@)
}

/// The empty label that stands for one that was not drawn yet.
pub open spec fn no_label() -> LabelText {
    LabelText { name: Seq::empty(), tag: 0 }
}

/// `s` made at least `n` long by appending `v`.
pub open spec fn grown<T>(s: Seq<T>, n: int, v: T) -> Seq<T> {
    if s.len() >= n {
        s
    } else {
        s + Seq::new((n - s.len()) as nat, |_i: int| v)
    }
}

/// The labels once the one of tile `i` is `l`.
pub open spec fn with_label(drawn: Seq<LabelText>, i: int, l: LabelText) -> Seq<LabelText> {
    grown(drawn, i + 1, no_label()).update(i, l)
}

/// Whether the label of tile `i` is not on screen as `l`.
pub open spec fn needs_label(drawn: Seq<LabelText>, i: int, l: LabelText) -> bool {
    !(i < drawn.len() && drawn[i] == l)
}

/// Note the label of tile `i`. Returns whether it has to be drawn.
pub fn note_label(drawn: &mut Vec<DrawnLabel>, i: usize, name: &str, kind: ConnectionKind) -> (r: bool)
    requires
        i < MAX_TILES,
    ensures
        ({
            let l = LabelText { name: name@, tag: kind_tag(kind) };
            &&& r == needs_label(label_texts(old(drawn)@), i as int, l)
            &&& label_texts(final(drawn)@) == (if r {
                with_label(label_texts(old(drawn)@), i as int, l)
            } else {
                label_texts(old(drawn)@)
            })
        }),
{
    let tag = conn_kind_tag(kind);
    let ghost l = LabelText { name: name@, tag };
    let ghost before = label_texts(drawn@);
    assert(before.len() == drawn@.len());
    if i < drawn.len() {
        let d = &drawn[i];
        assert(before[i as int] == d@);
        if d.conn_kind_tag == tag && d.name == name.to_owned() {
            return false;
        }
    }
    while drawn.len() <= i
        invariant
            label_texts(drawn@) == before || label_texts(drawn@) == grown(
                before,
                drawn@.len() as int,
                no_label(),
            ),
            drawn@.len() <= i + 1 || label_texts(drawn@) == before,
            before.len() <= drawn@.len(),
            i < MAX_TILES,
        decreases i + 1 - drawn@.len(),
    {
        let ghost so_far = drawn@;
        drawn.push(DrawnLabel { name: String::new(), conn_kind_tag: 0 });
        proof {
            assert(label_texts(drawn@) =~= label_texts(so_far).push(drawn@.last()@));
            assert(drawn@.last()@.name =~= Seq::<char>::empty());
            assert(label_texts(drawn@) =~= grown(before, drawn@.len() as int, no_label()));
        }
    }
    let ghost so_far = drawn@;
    assert(label_texts(drawn@) =~= grown(before, i + 1, no_label()));
    drawn.set(i, DrawnLabel { name: name.to_owned(), conn_kind_tag: tag });
    assert(label_texts(drawn@) =~= with_label(before, i as int, l));
    true
}

/// How a connection kind is written on screen.
pub open spec fn kind_label(kind: ConnectionKind) -> Seq<char> {
    match kind {
        ConnectionKind::Local => "\x1b[2m(you)\x1b[0m"@,
        ConnectionKind::Direct => "\x1b[32m(direct)\x1b[0m"@,
        ConnectionKind::Relay => "\x1b[33m(relay)\x1b[0m"@,
        ConnectionKind::Unknown => "\x1b[2m(…)\x1b[0m"@,
    }
}

/// Columns that a connection kind takes on screen.
pub open spec fn kind_width(kind: ConnectionKind) -> int {
    match kind {
        ConnectionKind::Local => 5,
        ConnectionKind::Direct => 8,
        ConnectionKind::Relay => 7,
        ConnectionKind::Unknown => 3,
    }
}

/// The name that is shown for a peer: a question mark if it is not known.
pub open spec fn shown_name(name: Seq<char>) -> Seq<char> {
    if name.len() == 0 {
        "?"@
    } else {
        name
    }
}

/// Columns that the label of a tile takes: name, space, and kind.
pub open spec fn label_width(name: Seq<char>, kind: ConnectionKind) -> int {
    shown_name(name).len() + 1 + kind_width(kind)
}

/// Column of the label of a tile that begins at `col`: centered below it.
pub open spec fn label_col(col: int, tile_cols: int, name: Seq<char>, kind: ConnectionKind) -> int {
    col + minus(tile_cols, label_width(name, kind)) / 2
}

/// The label of a tile: the name in bold, then the kind, then a space and as many
/// more as the label leaves free of the tile's columns.
pub open spec fn label_bytes(
    col: int,
    row: int,
    tile_cols: int,
    name: Seq<char>,
    kind: ConnectionKind,
) -> Seq<u8> {
    cursor_to(low16(label_col(col, tile_cols, name, kind)), low16(row)) + utf8("\x1b[1m"@) + utf8(
        shown_name(name),
    ) + utf8("\x1b[0m "@) + utf8(kind_label(kind)) + utf8(" "@) + repeated(
        utf8(" "@),
        minus(tile_cols, label_width(name, kind)) as nat,
    )
}

fn put_kind(out: &mut Vec<u8>, kind: ConnectionKind)
    ensures
        final(out)@ == old(out)@ + utf8(kind_label(kind)),
{
    match kind {
        ConnectionKind::Local => put(out, "\x1b[2m(you)\x1b[0m"),
        ConnectionKind::Direct => put(out, "\x1b[32m(direct)\x1b[0m"),
        ConnectionKind::Relay => put(out, "\x1b[33m(relay)\x1b[0m"),
        ConnectionKind::Unknown => put(out, "\x1b[2m(…)\x1b[0m"),
    }
}

/// Columns that the label of a tile leaves free.
fn label_room(tile_cols: u32, name: &str, kind: ConnectionKind) -> (r: u32)
    ensures
        r == minus(tile_cols as int, label_width(name@, kind)),
{
    let kind_len: usize = match kind {
        ConnectionKind::Local => 5,
        ConnectionKind::Direct => 8,
        ConnectionKind::Relay => 7,
        ConnectionKind::Unknown => 3,
    };
    let shown = if name.is_empty() {
        "?"
    } else {
        name
    };
    let n = shown.unicode_len();
    let t: usize = tile_cols as usize;
    t.saturating_sub(1 + kind_len).saturating_sub(n) as u32
}

/// Draw the label of a tile that begins at column `col`, in row `row`.
pub fn put_label(
    out: &mut Vec<u8>,
    col: u32,
    row: u32,
    tile_cols: u32,
    name: &str,
    kind: ConnectionKind,
)
    requires
        label_col(col as int, tile_cols as int, name@, kind) <= u32::MAX,
        low16(label_col(col as int, tile_cols as int, name@, kind)) < u16::MAX,
        low16(row as int) < u16::MAX,
    ensures
        final(out)@ == old(out)@ + label_bytes(
            col as int,
            row as int,
            tile_cols as int,
            name@,
            kind,
        ),
{
    let ghost before = out@;
    let room = label_room(tile_cols, name, kind);
    let ghost at = cursor_to(
        low16(label_col(col as int, tile_cols as int, name@, kind)),
        low16(row as int),
    );
    let ghost shown = utf8(shown_name(name@));
    move_to(out, cut16(col + room / 2), cut16(row));
    put(out, "\x1b[1m");
    if name.is_empty() {
        put(out, "?");
    } else {
        put(out, name);
    }
    put(out, "\x1b[0m ");
    put_kind(out, kind);
    put(out, " ");
    put_repeat(out, " ", room as usize);
    proof {
        let p1 = utf8("\x1b[1m"@);
        let p2 = utf8("\x1b[0m "@);
        let p3 = utf8(kind_label(kind));
        let p4 = utf8(" "@);
        let p5 = repeated(utf8(" "@), room as nat);
        lemma_joined(before, at, p1);
        lemma_joined(before, at + p1, shown);
        lemma_joined(before, at + p1 + shown, p2);
        lemma_joined(before, at + p1 + shown + p2, p3);
        lemma_joined(before, at + p1 + shown + p2 + p3, p4);
        lemma_joined(before, at + p1 + shown + p2 + p3 + p4, p5);
    }
}

// ---------------------------------------------------------------------------
// Drop indicator
// ---------------------------------------------------------------------------
/// How long the red dot is shown after drops were detected.
pub const DROP_DOT_NS: u64 = 1_000_000_000;

/// Per-tile state for tracking video drops and the red indicator dot.
#[derive(Debug, Clone, Copy, PartialEq, Eq, Structural)]
pub struct TileDropState {
    /// Last observed cumulative drop count for this tile.
    pub last_drop_count: u64,
    /// When drops were last detected (count increased), on a monotonic clock.
    pub last_drop_ns: Option<u64>,
    /// Whether the red dot is currently drawn.
    pub dot_drawn: bool,
}

/// Whether the dot is shown at `now` if drops were last detected at `at`.
pub open spec fn dot_visible(at: Option<u64>, now: u64) -> bool {
    at matches Some(t) && now - t < DROP_DOT_NS
}

impl TileDropState {
    pub open spec fn initial() -> TileDropState {
        TileDropState { last_drop_count: 0, last_drop_ns: None, dot_drawn: false }
    }

    /// The state after the drop count was seen to be `drops` at `now`.
    pub open spec fn seen(self, drops: u64, now: u64) -> TileDropState {
        if drops > self.last_drop_count {
            TileDropState { last_drop_count: drops, last_drop_ns: Some(now), ..self }
        } else {
            self
        }
    }

    pub fn new() -> (r: TileDropState)
        ensures
            r == TileDropState::initial(),
    {
        TileDropState { last_drop_count: 0, last_drop_ns: None, dot_drawn: false }
    }

    /// Look at the drop count. Returns whether the dot is to be shown.
    pub fn observe(&mut self, drops: u64, now_ns: u64) -> (show: bool)
        ensures
            *final(self) == old(self).seen(drops, now_ns),
            show == dot_visible(final(self).last_drop_ns, now_ns),
    {
        if drops > self.last_drop_count {
            self.last_drop_ns = Some(now_ns);
            self.last_drop_count = drops;
        }
        match self.last_drop_ns {
            Some(t) => now_ns.saturating_sub(t) < DROP_DOT_NS,
            None => false,
        }
    }
}

/// Law: a drop is shown for a second, and no longer unless more drops come.
pub proof fn law_dot_duration(s: TileDropState, drops: u64, at: u64, later: u64)
    requires
        drops > s.last_drop_count,
        at <= later,
    ensures
        dot_visible(s.seen(drops, at).last_drop_ns, at),
        dot_visible(s.seen(drops, at).seen(drops, later).last_drop_ns, later) == (later - at
            < DROP_DOT_NS),
{
}

/// The dot one row above a tile, or a space in its place; nothing in the top
/// row.
pub open spec fn dot_bytes(col: int, row: int, show: bool) -> Seq<u8> {
    if row > 0 {
        cursor_to(low16(col), low16(row - 1)) + (if show {
            utf8("\x1b[31m●\x1b[0m"@)
        } else {
            utf8(" "@)
        })
    } else {
        Seq::empty()
    }
}

/// Draw or clear the dot above a tile at (`col`, `row`).
fn put_dot(out: &mut Vec<u8>, col: u32, row: u32, show: bool)
    requires
        low16(col as int) < u16::MAX,
        row > 0 ==> low16(row - 1) < u16::MAX,
    ensures
        final(out)@ == old(out)@ + dot_bytes(col as int, row as int, show),
{
    let ghost before = out@;
    if row > 0 {
        move_to(out, cut16(col), cut16(row - 1));
        if show {
            put(out, "\x1b[31m●\x1b[0m");
        } else {
            put(out, " ");
        }
    }
    assert(out@ =~= before + dot_bytes(col as int, row as int, show));
}

// ---------------------------------------------------------------------------
// Status text
// ---------------------------------------------------------------------------
/// How many rows `text` would occupy when wrapped to `width` columns.
pub open spec fn wrapped_count(text: Seq<char>, width: int) -> int {
    if width == 0 || text.len() == 0 {
        1
    } else {
        div_up(text.len() as int, width)
    }
}

/// Count how many rows `text` would occupy when wrapped to `width` columns.
pub fn wrapped_line_count(text: &str, width: usize) -> (n: usize)
    ensures
        n == wrapped_count(text@, width as int),
        n >= 1,
{
    if width == 0 || text.is_empty() {
        return 1;
    }
    let chars = text.unicode_len();
    let n: usize = (chars - 1) / width + 1;
    assert(n == (chars + width - 1) / width as int) by (nonlinear_arith)
        requires
            n == (chars - 1) / width as int + 1,
            chars >= 1,
            width >= 1,
    ;
    n
}

/// How many terminal rows a status occupies: the message, and below a blank row
/// the copyable text.
pub open spec fn status_rows(status: Option<StatusText>, cols: int) -> int {
    match status {
        None => 0,
        Some(info) => match info.copyable {
            Some(t) => 2 + wrapped_count(t, cols),
            None => 1,
        },
    }
}

/// How many terminal rows a status occupies.
pub fn status_row_count(status: &Option<StatusInfo>, term_cols: usize) -> (n: usize)
    requires
        status_rows(status_text(*status), term_cols as int) <= usize::MAX,
    ensures
        n == status_rows(status_text(*status), term_cols as int),
{
    match status {
        None => 0,
        Some(info) => match &info.copyable {
            Some(t) => 2 + wrapped_line_count(t.as_str(), term_cols),
            None => 1,
        },
    }
}

/// Sequences that clear the `n` rows from `top` on.
pub open spec fn cleared_rows(top: int, n: nat) -> Seq<u8>
    decreases n,
{
    if n == 0 {
        Seq::empty()
    } else {
        cleared_rows(top, (n - 1) as nat) + cursor_to(0, top + n - 1) + utf8("\x1b[2K"@)
    }
}

/// The first row of a status of `n` rows that ends at `anchor`.
pub open spec fn status_top(anchor: int, n: int) -> int {
    minus(anchor, minus(n, 1))
}

/// What is drawn for a status: the message centered and dimmed, and the
/// copyable text at column 0 two rows below it.
pub open spec fn status_drawn(status: Option<StatusText>, cols: int, anchor: int) -> Seq<u8> {
    match status {
        None => Seq::empty(),
        Some(info) => {
            let top = status_top(anchor, status_rows(status, cols));
            cursor_to(minus(cols, info.message.len() as int) / 2, top) + utf8("\x1b[2K\x1b[2m"@)
                + utf8(info.message) + utf8("\x1b[0m"@) + (match info.copyable {
                Some(t) => cursor_to(0, top + 2) + utf8(t),
                None => Seq::empty(),
            })
        },
    }
}

/// What replaces the status `old` on screen by the status `new`.
pub open spec fn status_change(
    new: Option<StatusText>,
    old: Option<StatusText>,
    cols: int,
    anchor: int,
) -> Seq<u8> {
    let n = status_rows(old, cols);
    cleared_rows(status_top(anchor, n), n as nat) + status_drawn(new, cols, anchor)
}

/// Whether the rows of a status can be addressed.
pub open spec fn status_fits(status: Option<StatusText>, cols: int) -> bool {
    status_rows(status, cols) < u16::MAX
}

fn put_cleared_rows(out: &mut Vec<u8>, top: u16, n: u16)
    requires
        top + n <= u16::MAX,
    ensures
        final(out)@ == old(out)@ + cleared_rows(top as int, n as nat),
{
    let ghost before = out@;
    let mut i: u16 = 0;
    assert(before + cleared_rows(top as int, 0) =~= before);
    while i < n
        invariant
            i <= n,
            top + n <= u16::MAX,
            out@ == before + cleared_rows(top as int, i as nat),
        decreases n - i,
    {
        move_to(out, 0, top + i);
        put(out, "\x1b[2K");
        i = i + 1;
        assert(out@ =~= before + cleared_rows(top as int, i as nat));
    }
}

/// Draw (or clear) the status near the bottom of the terminal.
///
/// The message line is centered and dimmed.  The optional copyable text
/// (e.g. a ticket) is printed starting at column 0 so that terminal text
/// selection grabs only the ticket with no embedded whitespace.
pub fn draw_status_text(
    out: &mut Vec<u8>,
    new_status: &Option<StatusInfo>,
    old_status: &Option<StatusInfo>,
    term_cols: u16,
    anchor_row: u16,
)
    requires
        anchor_row < u16::MAX - 2,
        status_fits(status_text(*new_status), term_cols as int),
        status_fits(status_text(*old_status), term_cols as int),
    ensures
        final(out)@ == old(out)@ + status_change(
            status_text(*new_status),
            status_text(*old_status),
            term_cols as int,
            anchor_row as int,
        ),
{
    let ghost before = out@;
    let cols: usize = term_cols as usize;
    let old_rows: u16 = status_row_count(old_status, cols) as u16;
    let old_top: u16 = anchor_row.saturating_sub(old_rows.saturating_sub(1));
    put_cleared_rows(out, old_top, old_rows);
    put_status(out, new_status, term_cols, anchor_row);
    proof {
        let n = status_rows(status_text(*old_status), term_cols as int);
        lemma_joined(
            before,
            cleared_rows(status_top(anchor_row as int, n), n as nat),
            status_drawn(status_text(*new_status), term_cols as int, anchor_row as int),
        );
    }
}

/// Draw a status.
fn put_status(out: &mut Vec<u8>, status: &Option<StatusInfo>, term_cols: u16, anchor_row: u16)
    requires
        anchor_row < u16::MAX - 2,
        status_fits(status_text(*status), term_cols as int),
    ensures
        final(out)@ == old(out)@ + status_drawn(
            status_text(*status),
            term_cols as int,
            anchor_row as int,
        ),
{
    let ghost before = out@;
    let cols: usize = term_cols as usize;
    let ghost none = Seq::<u8>::empty();
    match status {
        None => {
            assert(before + none =~= before);
        },
        Some(info) => {
            let total: u16 = status_row_count(status, cols) as u16;
            let top: u16 = anchor_row.saturating_sub(total.saturating_sub(1));
            let msg_len = info.message.as_str().unicode_len();
            let col: usize = cols.saturating_sub(msg_len) / 2;
            move_to(out, col as u16, top);
            put(out, "\x1b[2K\x1b[2m");
            put(out, info.message.as_str());
            put(out, "\x1b[0m");
            let ghost c = cursor_to(col as int, top as int);
            let ghost p1 = utf8("\x1b[2K\x1b[2m"@);
            let ghost p2 = utf8(info.message@);
            let ghost p3 = utf8("\x1b[0m"@);
            proof {
                lemma_joined(before, c, p1);
                lemma_joined(before, c + p1, p2);
                lemma_joined(before, c + p1 + p2, p3);
            }
            match &info.copyable {
                Some(text) => {
                    let ghost mid = out@;
                    move_to(out, 0, top + 2);
                    put(out, text.as_str());
                    proof {
                        let c2 = cursor_to(0, top + 2);
                        lemma_joined(mid, c2, utf8(text@));
                        lemma_joined(before, c + p1 + p2 + p3, c2 + utf8(text@));
                    }
                },
                None => {
                    assert(c + p1 + p2 + p3 + none =~= c + p1 + p2 + p3);
                },
            }
        },
    }
}

// ---------------------------------------------------------------------------
// Display loop
// ---------------------------------------------------------------------------
/// What is on screen.
pub struct TerminalDisplay {
    /// Which image of each slot is drawn to next.
    pub back_buffers: BackBuffers,
    /// Number of tiles of the last gallery.
    pub last_tile_count: usize,
    /// The status on screen.
    pub last_status: Option<StatusInfo>,
    /// Whether the error banner is on screen.
    pub error_drawn: bool,
    /// Labels on screen, so that they are only redrawn when they change.
    pub drawn_labels: Vec<DrawnLabel>,
    /// Video drops and red dots of the tiles.
    pub drop_states: Vec<TileDropState>,
}

/// Rows from the anchor of the status to the bottom of the terminal.
pub const STATUS_ANCHOR_ROWS: u16 = 3;

/// Rows below a tile for its label.
pub const LABEL_ROWS: u32 = 1;

/// Where a tile is drawn, and whether every part of it can be addressed.
pub open spec fn tile_drawable(l: GalleryLayout, t: TileFrame) -> bool {
    let col = l.col(t.grid_col as int);
    let row = l.row(t.grid_row as int);
    let at = label_col(col, l.tile_cols as int, t.name@, t.conn_kind);
    &&& at <= u32::MAX
    &&& row + l.tile_rows <= u32::MAX
    &&& low16(col) < u16::MAX
    &&& low16(row) < u16::MAX
    &&& low16(at) < u16::MAX
    &&& low16(row + l.tile_rows) < u16::MAX
    &&& row > 0 ==> low16(row - 1) < u16::MAX
}

/// Whether every part of a tile can be addressed.
pub fn tile_fits(l: &GalleryLayout, t: &TileFrame) -> (r: bool)
    ensures
        r == tile_drawable(*l, *t),
{
    match tile_position(l, t.grid_col, t.grid_row) {
        None => false,
        Some((col, row)) => {
            let room = label_room(l.tile_cols, t.name.as_str(), t.conn_kind);
            let at: u64 = col as u64 + room as u64 / 2;
            let below: u64 = row as u64 + l.tile_rows as u64;
            at <= 0xFFFF_FFFF && below <= 0xFFFF_FFFF && col % 0x1_0000 < 0xFFFF && row % 0x1_0000
                < 0xFFFF && at % 0x1_0000 < 0xFFFF && below % 0x1_0000 < 0xFFFF && (row == 0 || (row
                - 1) % 0x1_0000 < 0xFFFF)
        },
    }
}

/// What is drawn for a tile once its image was transmitted as `id`: the image,
/// the label if it changed, and the dot if it changed.
pub open spec fn tile_bytes(
    l: GalleryLayout,
    t: TileFrame,
    id: u32,
    relabel: bool,
    redot: bool,
    show_dot: bool,
) -> Seq<u8> {
    let col = l.col(t.grid_col as int);
    let row = l.row(t.grid_row as int);
    cursor_to(low16(col), low16(row)) + fit_command(id, l.tile_cols, l.tile_rows) + (if relabel {
        label_bytes(col, row + l.tile_rows, l.tile_cols as int, t.name@, t.conn_kind)
    } else {
        Seq::empty()
    }) + (if redot {
        dot_bytes(col, row, show_dot)
    } else {
        Seq::empty()
    })
}

impl TerminalDisplay {
    pub open spec fn wf(self) -> bool {
        self.back_buffers@.len() == MAX_TILES
    }

    pub fn new() -> (r: TerminalDisplay)
        ensures
            r.wf(),
            r.back_buffers@ == Seq::new(MAX_TILES as nat, |_i: int| false),
            r.last_tile_count == 0,
            r.last_status is None,
            !r.error_drawn,
            r.drawn_labels@.len() == 0,
            r.drop_states@.len() == 0,
    {
        TerminalDisplay {
            back_buffers: BackBuffers::new(),
            last_tile_count: 0,
            last_status: None,
            error_drawn: false,
            drawn_labels: Vec::new(),
            drop_states: Vec::new(),
        }
    }

    /// Whether nothing but images is thought to be on screen.
    pub open spec fn forgotten(self) -> bool {
        &&& self.last_status is None
        &&& !self.error_drawn
        &&& self.drawn_labels@.len() == 0
        &&& self.drop_states@.len() == 0
    }

    /// Clear the screen, so that everything is drawn again (the terminal was
    /// resized).
    pub fn on_resize(&mut self, out: &mut Vec<u8>)
        requires
            old(self).wf(),
        ensures
            final(self).wf(),
            final(self).forgotten(),
            final(self).back_buffers == old(self).back_buffers,
            final(self).last_tile_count == old(self).last_tile_count,
            final(out)@ == old(out)@ + utf8("\x1b[2J"@) + delete_commands(IMAGE_IDS as nat),
    {
        clear_all_images(out);
        self.last_status = None;
        self.error_drawn = false;
        self.drawn_labels.clear();
        self.drop_states.clear();
    }

    /// Prepare for a gallery of `tile_count` tiles: if their number changed, the
    /// screen is cleared.
    pub fn on_gallery(&mut self, tile_count: usize, out: &mut Vec<u8>)
        requires
            old(self).wf(),
        ensures
            final(self).wf(),
            final(self).last_tile_count == tile_count,
            final(self).back_buffers == old(self).back_buffers,
            if tile_count != old(self).last_tile_count {
                &&& final(self).forgotten()
                &&& final(out)@ == old(out)@ + utf8("\x1b[2J"@) + delete_commands(IMAGE_IDS as nat)
            } else {
                &&& *final(self) == *old(self)
                &&& final(out)@ == old(out)@
            },
    {
        if tile_count != self.last_tile_count {
            self.on_resize(out);
            self.last_tile_count = tile_count;
        }
    }

    /// Draw the error banner if there is an error and it is not on screen yet.
    /// Without a known terminal size nothing is drawn.
    pub fn on_error(&mut self, out: &mut Vec<u8>, error: &Option<String>, ws: Option<WinSize>)
        requires
            !old(self).error_drawn && error is Some && ws is Some ==> banner_drawable(
                error->0@,
                ws->0,
            ),
        ensures
            final(self).error_drawn == (old(self).error_drawn || error is Some),
            final(self).back_buffers == old(self).back_buffers,
            final(self).last_tile_count == old(self).last_tile_count,
            final(self).last_status == old(self).last_status,
            final(self).drawn_labels == old(self).drawn_labels,
            final(self).drop_states == old(self).drop_states,
            final(out)@ == old(out)@ + (match (*error, ws) {
                (Some(e), Some(w)) if !old(self).error_drawn => banner_rows(
                    banner_lines_of(e@, w),
                    w,
                ),
                _ => Seq::empty(),
            }),
    {
        let ghost before = out@;
        assert(before + Seq::<u8>::empty() =~= before);
        if self.error_drawn {
            return;
        }
        if let Some(e) = error {
            if let Some(w) = ws {
                draw_error_banner(out, e.as_str(), w);
            }
            self.error_drawn = true;
        }
    }

    /// Draw the status if it is not on screen already. Where the size of the
    /// terminal is not known nothing is drawn.
    pub fn on_status(&mut self, out: &mut Vec<u8>, status: &Option<StatusInfo>, ws: Option<WinSize>)
        requires
            old(self).wf(),
            ws matches Some(w) ==> status_fits(status_text(*status), w.cols as int) && status_fits(
                status_text(old(self).last_status),
                w.cols as int,
            ),
        ensures
            final(self).wf(),
            status_text(final(self).last_status) == status_text(*status),
            final(self).back_buffers == old(self).back_buffers,
            final(self).last_tile_count == old(self).last_tile_count,
            final(self).error_drawn == old(self).error_drawn,
            final(self).drawn_labels == old(self).drawn_labels,
            final(self).drop_states == old(self).drop_states,
            final(out)@ == old(out)@ + (match ws {
                Some(w) if status_text(*status) != status_text(old(self).last_status) => {
                    status_change(
                        status_text(*status),
                        status_text(old(self).last_status),
                        w.cols as int,
                        minus(w.rows as int, STATUS_ANCHOR_ROWS as int),
                    )
                },
                _ => Seq::empty(),
            }),
    {
        let ghost before = out@;
        assert(before + Seq::<u8>::empty() =~= before);
        if same_status(status, &self.last_status) {
            return;
        }
        if let Some(w) = ws {
            let anchor = w.rows.saturating_sub(STATUS_ANCHOR_ROWS);
            draw_status_text(out, status, &self.last_status, w.cols, anchor);
        }
        self.last_status = copy_status(status);
    }

    /// The image to transmit the tile in `slot` to.
    pub fn begin_tile(&mut self, slot: usize) -> (id: u32)
        requires
            old(self).wf(),
            slot < MAX_TILES,
        ensures
            final(self).wf(),
            id == image_id(slot as int, old(self).back_buffers@[slot as int]),
            final(self).back_buffers@ == old(self).back_buffers@.update(
                slot as int,
                !old(self).back_buffers@[slot as int],
            ),
            final(self).last_tile_count == old(self).last_tile_count,
            final(self).last_status == old(self).last_status,
            final(self).error_drawn == old(self).error_drawn,
            final(self).drawn_labels == old(self).drawn_labels,
            final(self).drop_states == old(self).drop_states,
    {
        self.back_buffers.next_image(slot)
    }

    /// Draw the tile in `slot`, whose image was transmitted as `id`.
    pub fn finish_tile(
        &mut self,
        out: &mut Vec<u8>,
        slot: usize,
        tile: &TileFrame,
        layout: &GalleryLayout,
        id: u32,
        now_ns: u64,
    )
        requires
            old(self).wf(),
            slot < MAX_TILES,
            tile_drawable(*layout, *tile),
        ensures
            final(self).wf(),
            final(self).back_buffers == old(self).back_buffers,
            final(self).last_tile_count == old(self).last_tile_count,
            final(self).last_status == old(self).last_status,
            final(self).error_drawn == old(self).error_drawn,
            ({
                let label = LabelText { name: tile.name@, tag: kind_tag(tile.conn_kind) };
                let labels = label_texts(old(self).drawn_labels@);
                let relabel = needs_label(labels, slot as int, label);
                let dots = grown(old(self).drop_states@, slot + 1, TileDropState::initial());
                let seen = dots[slot as int].seen(tile.video_drops, now_ns);
                let show = dot_visible(seen.last_drop_ns, now_ns);
                &&& label_texts(final(self).drawn_labels@) == (if relabel {
                    with_label(labels, slot as int, label)
                } else {
                    labels
                })
                &&& final(self).drop_states@ == dots.update(
                    slot as int,
                    TileDropState { dot_drawn: show, ..seen },
                )
                &&& final(out)@ == old(out)@ + tile_bytes(
                    *layout,
                    *tile,
                    id,
                    relabel,
                    show != seen.dot_drawn,
                    show,
                )
            }),
    {
        let ghost before = out@;
        let ghost none = Seq::<u8>::empty();
        let (col, row) = match tile_position(layout, tile.grid_col, tile.grid_row) {
            Some(p) => p,
            None => {
                assert(false);
                return;
            },
        };
        display_image_at(
            out,
            id,
            cut16(col),
            cut16(row),
            Some(layout.tile_cols),
            Some(layout.tile_rows),
        );
        let ghost c = cursor_to(low16(col as int), low16(row as int));
        let ghost f = fit_command(id, layout.tile_cols, layout.tile_rows);
        proof {
            lemma_joined(before, c, f);
        }

        let relabel = note_label(&mut self.drawn_labels, slot, tile.name.as_str(), tile.conn_kind);
        let ghost l = label_bytes(
            col as int,
            row + layout.tile_rows,
            layout.tile_cols as int,
            tile.name@,
            tile.conn_kind,
        );
        if relabel {
            put_label(
                out,
                col,
                row + layout.tile_rows,
                layout.tile_cols,
                tile.name.as_str(),
                tile.conn_kind,
            );
        }
        let ghost l2 = if relabel {
            l
        } else {
            none
        };
        proof {
            assert(before + (c + f) + none =~= before + (c + f));
            lemma_joined(before, c + f, l2);
            assert(out@ == before + (c + f + l2));
        }

        grow_drop_states(&mut self.drop_states, slot);
        let mut state = self.drop_states[slot];
        let show = state.observe(tile.video_drops, now_ns);
        let redot = show != state.dot_drawn;
        if redot {
            put_dot(out, col, row, show);
        }
        let ghost d2 = if redot {
            dot_bytes(col as int, row as int, show)
        } else {
            none
        };
        proof {
            assert(before + (c + f + l2) + none =~= before + (c + f + l2));
            lemma_joined(before, c + f + l2, d2);
        }
        state.dot_drawn = show;
        self.drop_states.set(slot, state);
    }
}

/// Make room for the state of the tile in `slot`.
fn grow_drop_states(states: &mut Vec<TileDropState>, slot: usize)
    requires
        slot < MAX_TILES,
    ensures
        final(states)@ == grown(old(states)@, slot + 1, TileDropState::initial()),
{
    let ghost before = states@;
    while states.len() <= slot
        invariant
            slot < MAX_TILES,
            states@ == before || states@ == grown(
                before,
                states@.len() as int,
                TileDropState::initial(),
            ),
            states@.len() <= slot + 1 || states@ == before,
            before.len() <= states@.len(),
        decreases slot + 1 - states@.len(),
    {
        let ghost so_far = states@;
        states.push(TileDropState::new());
        assert(states@ =~= grown(before, states@.len() as int, TileDropState::initial()));
    }
    assert(states@ =~= grown(before, slot + 1, TileDropState::initial()));
}

/// The larger of two sizes.
pub open spec fn larger_size(a: int, b: int) -> int {
    if a >= b {
        a
    } else {
        b
    }
}

/// Width and height of the largest frames of some tiles.
pub open spec fn largest(tiles: Seq<TileFrame>) -> (int, int)
    decreases tiles.len(),
{
    if tiles.len() == 0 {
        (0, 0)
    } else {
        let (w, h) = largest(tiles.drop_last());
        (
            larger_size(w, tiles.last().frame.width as int),
            larger_size(h, tiles.last().frame.height as int),
        )
    }
}

/// Width and height that every tile of a gallery takes: those of the largest
/// frames, so that every tile occupies the same grid area. When a peer's
/// resolution is scaled down, the terminal scales the image up again. Without
/// tiles it is the size that cameras are asked for.
pub fn tile_size(tiles: &[TileFrame]) -> (r: (u32, u32))
    ensures
        tiles@.len() > 0 ==> r.0 == largest(tiles@).0 && r.1 == largest(tiles@).1,
        tiles@.len() == 0 ==> r == (640u32, 480u32),
{
    if tiles.len() == 0 {
        return (640, 480);
    }
    let mut w: u32 = 0;
    let mut h: u32 = 0;
    let mut i: usize = 0;
    assert(tiles@.take(0) =~= Seq::empty());
    while i < tiles.len()
        invariant
            i <= tiles@.len(),
            w == largest(tiles@.take(i as int)).0,
            h == largest(tiles@.take(i as int)).1,
        decreases tiles@.len() - i,
    {
        let t = &tiles[i];
        proof {
            let p = tiles@.take(i + 1);
            assert(p.drop_last() =~= tiles@.take(i as int));
            assert(p.last() == *t);
        }
        if t.frame.width > w {
            w = t.frame.width;
        }
        if t.frame.height > h {
            h = t.frame.height;
        }
        i = i + 1;
    }
    assert(tiles@.take(tiles@.len() as int) =~= tiles@);
    (w, h)
}

/// Law: every frame fits into the area of its tile.
pub proof fn law_frames_fit(tiles: Seq<TileFrame>, i: int)
    requires
        0 <= i < tiles.len(),
    ensures
        tiles[i].frame.width <= largest(tiles).0,
        tiles[i].frame.height <= largest(tiles).1,
    decreases tiles.len(),
{
    if i < tiles.len() - 1 {
        law_frames_fit(tiles.drop_last(), i);
    }
}

/// What is drawn for a ticket: a dimmed label and the ticket, centered, five
/// rows above the bottom. Widths are counted in characters.
pub open spec fn ticket_bytes(ticket: Seq<char>, ws: WinSize) -> Seq<u8> {
    cursor_to(
        minus(ws.cols as int, ("ticket: "@.len() + ticket.len()) as int) / 2,
        minus(ws.rows as int, 5),
    ) + utf8("\x1b[2K\x1b[2m"@) + utf8("ticket: "@) + utf8("\x1b[0m"@) + utf8(ticket)
}

/// Draw a ticket near the bottom of the terminal, high enough to fit 3-4 lines
/// of wrapped text.
pub fn draw_ticket(out: &mut Vec<u8>, ticket: &str, ws: WinSize)
    ensures
        final(out)@ == old(out)@ + ticket_bytes(ticket@, ws),
{
    let ghost before = out@;
    let label = "ticket: ";
    let cols: usize = ws.cols as usize;
    let taken = label.unicode_len();
    let col: usize = cols.saturating_sub(taken).saturating_sub(ticket.unicode_len()) / 2;
    move_to(out, col as u16, ws.rows.saturating_sub(5));
    put(out, "\x1b[2K\x1b[2m");
    put(out, label);
    put(out, "\x1b[0m");
    put(out, ticket);
    assert(out@ =~= before + ticket_bytes(ticket@, ws));
}

// ---------------------------------------------------------------------------
// Laws
// ---------------------------------------------------------------------------
/// Law: the images of a slot are numbered in pairs, from one on.
pub proof fn law_image_numbers(slot: int)
    ensures
        image_id(slot, false) == 2 * slot + 1,
        image_id(slot, true) == 2 * slot + 2,
        MAX_TILES == 9,
        IMAGE_IDS == 20,
        STATUS_ANCHOR_ROWS == 3,
        LABEL_ROWS == 1,
        DROP_DOT_NS == 1_000_000_000,
{
}

/// Law: every image is deleted, each by a command of its own: the one for `k` stands
/// behind those for the images before it.
pub proof fn law_every_image_is_deleted(n: nat, k: nat) -> (rest: Seq<u8>)
    requires
        1 <= k <= n <= u32::MAX,
    ensures
        delete_commands(0) == Seq::<u8>::empty(),
        delete_commands(n) == delete_commands((k - 1) as nat) + delete_command(k as u32) + rest,
    decreases n,
{
    if k == n {
        let rest = Seq::<u8>::empty();
        assert(delete_commands(n) =~= delete_commands((k - 1) as nat) + delete_command(k as u32)
            + rest);
        rest
    } else {
        let shorter = law_every_image_is_deleted((n - 1) as nat, k);
        let rest = shorter + delete_command(n as u32);
        assert(delete_commands(n) =~= delete_commands((k - 1) as nat) + delete_command(k as u32)
            + rest);
        rest
    }
}

/// Law: the size of a gallery. One tile takes its own columns and rows, the label
/// included, and every further one adds as many and one for the gap.
pub proof fn law_gallery_size(n: int, tile_cols: int, tile_rows: int, label_rows: int)
    ensures
        total_cols(1, tile_cols) == tile_cols,
        total_cols(n + 1, tile_cols) == total_cols(n, tile_cols) + 1 + tile_cols,
        total_rows(1, tile_rows, label_rows) == tile_rows + label_rows,
        total_rows(n + 1, tile_rows, label_rows) == total_rows(n, tile_rows, label_rows) + 1
            + tile_rows + label_rows,
{
    let both = tile_rows + label_rows;
    assert((n + 1) * tile_cols == n * tile_cols + tile_cols && (n + 1) * both == n * both + both)
        by (nonlinear_arith);
}

/// Law: where the tiles of a gallery begin: the first at the origin, and each next
/// one behind a gap of one.
pub proof fn law_tile_places(l: GalleryLayout, k: int)
    ensures
        l.col(0) == l.origin_col,
        l.row(0) == l.origin_row,
        l.col(k + 1) == l.col(k) + l.tile_cols + 1,
        l.row(k + 1) == l.row(k) + l.tile_rows + l.label_rows + 1,
{
    let (w, h) = (l.tile_cols + 1, l.tile_rows + l.label_rows + 1);
    assert((k + 1) * w == k * w + w && (k + 1) * h == k * h + h && 0 * w == 0 && 0 * h == 0)
        by (nonlinear_arith);
}

/// Law: a layout gives each tile the fewest cells that hold its pixels, and puts the
/// gallery in the middle of the terminal, or at its edge where it is larger.
pub proof fn law_layout(
    ws: WinSize,
    cell: (u32, u32),
    tile_px: (u32, u32),
    grid: (u32, u32),
    label_rows: u32,
)
    requires
        cell.0 > 0,
        cell.1 > 0,
        layout_fits(cell, tile_px, grid, label_rows),
    ensures
        ({
            let l = layout_of(ws, cell, tile_px, grid, label_rows);
            let w = total_cols(grid.0 as int, l.tile_cols as int);
            let h = total_rows(grid.1 as int, l.tile_rows as int, label_rows as int);
            &&& (l.tile_cols - 1) * cell.0 < tile_px.0 <= l.tile_cols * cell.0
            &&& (l.tile_rows - 1) * cell.1 < tile_px.1 <= l.tile_rows * cell.1
            &&& l.label_rows == label_rows
            &&& w <= ws.cols ==> 2 * l.origin_col + w <= ws.cols <= 2 * l.origin_col + w + 1
            &&& w >= ws.cols ==> l.origin_col == 0
            &&& h <= ws.rows ==> 2 * l.origin_row + h <= ws.rows <= 2 * l.origin_row + h + 1
            &&& h >= ws.rows ==> l.origin_row == 0
        }),
{
    law_div_up(tile_px.0 as int, cell.0 as int);
    law_div_up(tile_px.1 as int, cell.1 as int);
    let (c, r) = (
        div_up(tile_px.0 as int, cell.0 as int),
        div_up(tile_px.1 as int, cell.1 as int),
    );
    lemma_up_to(tile_px.0 as int, cell.0 as int);
    lemma_up_to(tile_px.1 as int, cell.1 as int);
    lemma_at_least_one_tile(grid.0 as int, c);
    lemma_at_least_one_tile(grid.1 as int, r + label_rows);
}

/// A size in cells is no larger than in pixels.
proof fn lemma_up_to(a: int, b: int)
    requires
        a >= 0,
        b > 0,
    ensures
        0 <= div_up(a, b) <= a,
{
    law_div_up(a, b);
    let q = div_up(a, b);
    assert(q <= a) by (nonlinear_arith)
        requires
            (q - 1) * b < a,
            b > 0,
            a >= 0,
            q >= 0,
    ;
}

proof fn lemma_at_least_one_tile(n: int, size: int)
    requires
        n >= 1,
        size >= 0,
    ensures
        n * size + (n - 1) >= 0,
        n * size >= 0,
{
    assert(n * size >= 0) by (nonlinear_arith)
        requires
            n >= 1,
            size >= 0,
    ;
}

/// Law: a gallery is laid out exactly if it has a tile and its columns and rows can
/// be counted in 32 bits.
pub proof fn law_layout_fits(
    cell: (u32, u32),
    tile_px: (u32, u32),
    grid: (u32, u32),
    label_rows: u32,
)
    ensures
        ({
            let w = total_cols(grid.0 as int, div_up(tile_px.0 as int, cell.0 as int));
            let h = total_rows(
                grid.1 as int,
                div_up(tile_px.1 as int, cell.1 as int),
                label_rows as int,
            );
            layout_fits(cell, tile_px, grid, label_rows) <==> grid.0 > 0 && grid.1 > 0 && w
                < 0x1_0000_0000 && h < 0x1_0000_0000
        }),
{
}

/// Law: a position is cut to its lower 16 bits.
pub proof fn law_low16(n: int)
    ensures
        0 <= low16(n) <= 0xFFFF,
        (n - low16(n)) % 0x1_0000 == 0,
        0 <= n <= 0xFFFF ==> low16(n) == n,
{
}

/// Law: labels of different kinds are told apart.
pub proof fn law_kind_tags(a: ConnectionKind, b: ConnectionKind)
    ensures
        kind_tag(a) == kind_tag(b) <==> a == b,
        kind_tag(ConnectionKind::Unknown) == 0,
        no_label() == (LabelText { name: Seq::empty(), tag: 0 }),
{
}

/// Law: a label is drawn once. After it was noted it is not drawn again until it is
/// another one, and the labels of other tiles are not touched.
pub proof fn law_label_drawn_once(
    drawn: Seq<LabelText>,
    i: int,
    l: LabelText,
    other: LabelText,
    j: int,
)
    requires
        0 <= i,
    ensures
        needs_label(with_label(drawn, i, l), i, other) <==> other != l,
        i >= drawn.len() ==> needs_label(drawn, i, l),
        i < drawn.len() ==> (needs_label(drawn, i, l) <==> drawn[i] != l),
        0 <= j < drawn.len() && j != i ==> with_label(drawn, i, l)[j] == drawn[j],
        drawn.len() <= j < i ==> with_label(drawn, i, l)[j] == no_label(),
        with_label(drawn, i, l).len() == (if i < drawn.len() {
            drawn.len() as int
        } else {
            i + 1
        }),
{
}

/// Law: how a kind of connection is written, and that its width is what is left of
/// that without the sequences that colour it.
pub proof fn law_kind_labels(kind: ConnectionKind)
    ensures
        kind_label(ConnectionKind::Local) == "\x1b[2m(you)\x1b[0m"@,
        kind_label(ConnectionKind::Direct) == "\x1b[32m(direct)\x1b[0m"@,
        kind_label(ConnectionKind::Relay) == "\x1b[33m(relay)\x1b[0m"@,
        kind_label(ConnectionKind::Unknown) == "\x1b[2m(…)\x1b[0m"@,
        kind_label(kind).len() == kind_width(kind) + (if kind is Direct || kind is Relay {
            9int
        } else {
            8
        }),
{
    reveal_strlit("\x1b[2m(you)\x1b[0m");
    reveal_strlit("\x1b[32m(direct)\x1b[0m");
    reveal_strlit("\x1b[33m(relay)\x1b[0m");
    reveal_strlit("\x1b[2m(…)\x1b[0m");
}

/// Law: a label is the name, or a question mark for a peer without one, a space and
/// the kind, and stands in the middle below its tile, or at the edge of the tile
/// where it is wider.
pub proof fn law_label(col: int, row: int, tile_cols: int, name: Seq<char>, kind: ConnectionKind)
    ensures
        name.len() > 0 ==> shown_name(name) == name,
        name.len() == 0 ==> shown_name(name) == "?"@,
        label_width(name, kind) == shown_name(name).len() + 1 + kind_width(kind),
        ({
            let w = label_width(name, kind);
            let at = label_col(col, tile_cols, name, kind);
            let free = if w <= tile_cols {
                tile_cols - w
            } else {
                0
            };
            &&& 2 * (at - col) <= free <= 2 * (at - col) + 1
            &&& label_bytes(col, row, tile_cols, name, kind) == cursor_to(
                at % 0x1_0000,
                row % 0x1_0000,
            ) + utf8("\x1b[1m"@) + utf8(shown_name(name)) + utf8("\x1b[0m "@) + utf8(
                kind_label(kind),
            ) + utf8(" "@) + repeated(utf8(" "@), free as nat)
        }),
{
}

/// Law: the dot is shown for one second after drops were detected, and not without
/// any. Drops are detected exactly if the count has grown.
pub proof fn law_drop_dot(s: TileDropState, drops: u64, t: u64, now: u64)
    ensures
        !dot_visible(None, now),
        dot_visible(Some(t), now) <==> now < t + 1_000_000_000,
        drops > s.last_drop_count ==> s.seen(drops, now) == (TileDropState {
            last_drop_count: drops,
            last_drop_ns: Some(now),
            dot_drawn: s.dot_drawn,
        }),
        drops <= s.last_drop_count ==> s.seen(drops, now) == s,
        TileDropState::initial() == (TileDropState {
            last_drop_count: 0,
            last_drop_ns: None,
            dot_drawn: false,
        }),
{
}

/// Law: the dot stands one row above its tile, red or taken away by a space; above
/// the top row there is none.
pub proof fn law_dot_place(col: int, row: int)
    ensures
        row <= 0 ==> dot_bytes(col, row, true).len() == 0 && dot_bytes(col, row, false).len() == 0,
        row > 0 ==> dot_bytes(col, row, true) == cursor_to(col % 0x1_0000, (row - 1) % 0x1_0000)
            + utf8("\x1b[31m●\x1b[0m"@),
        row > 0 ==> dot_bytes(col, row, false) == cursor_to(col % 0x1_0000, (row - 1) % 0x1_0000)
            + utf8(" "@),
{
}

/// Law: a text takes the fewest rows that hold its characters, and at least one.
pub proof fn law_wrapped_count(text: Seq<char>, width: int)
    requires
        width >= 0,
    ensures
        width == 0 || text.len() == 0 ==> wrapped_count(text, width) == 1,
        width > 0 && text.len() > 0 ==> (wrapped_count(text, width) - 1) * width < text.len()
            <= wrapped_count(text, width) * width,
{
    if width > 0 {
        law_div_up(text.len() as int, width);
    }
}

/// Law: the rows of a status: one for its message, and for a text to copy a blank
/// one and as many as it takes.
pub proof fn law_status_rows(message: Seq<char>, text: Seq<char>, cols: int)
    ensures
        status_rows(None, cols) == 0,
        status_rows(Some(StatusText { message, copyable: None }), cols) == 1,
        status_rows(Some(StatusText { message, copyable: Some(text) }), cols) == 2 + wrapped_count(
            text,
            cols,
        ),
{
}

/// Law: a status of `n` rows ends at its anchor, or starts at the top where there
/// are fewer rows above it.
pub proof fn law_status_top(anchor: int, n: int)
    requires
        anchor >= 0,
        n >= 0,
    ensures
        1 <= n <= anchor + 1 ==> status_top(anchor, n) + n - 1 == anchor,
        n > anchor + 1 ==> status_top(anchor, n) == 0,
        n == 0 ==> status_top(anchor, n) == anchor,
{
}

/// Law: rows are cleared one after the other, each once, from the top one on.
pub proof fn law_cleared_rows(top: int, n: nat, k: nat) -> (rest: Seq<u8>)
    requires
        k < n,
    ensures
        cleared_rows(top, 0) == Seq::<u8>::empty(),
        cleared_rows(top, n) == cleared_rows(top, k) + (cursor_to(0, top + k) + utf8("\x1b[2K"@))
            + rest,
    decreases n,
{
    let row = cursor_to(0, top + k) + utf8("\x1b[2K"@);
    if k == n - 1 {
        let rest = Seq::<u8>::empty();
        assert(cleared_rows(top, n) =~= cleared_rows(top, k) + row + rest);
        rest
    } else {
        let shorter = law_cleared_rows(top, (n - 1) as nat, k);
        let rest = shorter + (cursor_to(0, top + n - 1) + utf8("\x1b[2K"@));
        assert(cleared_rows(top, n) =~= cleared_rows(top, k) + row + rest);
        rest
    }
}

/// Law: what replaces a status on screen: the rows of the old one are cleared, and
/// the new one is written with its message in the middle and its text to copy at the
/// left, two rows below.
pub proof fn law_status_change(
    old_status: Option<StatusText>,
    message: Seq<char>,
    text: Seq<char>,
    cols: int,
    anchor: int,
)
    ensures
        status_drawn(None, cols, anchor) == Seq::<u8>::empty(),
        ({
            let plain = Some(StatusText { message, copyable: None });
            let free = if message.len() <= cols {
                cols - message.len()
            } else {
                0
            };
            &&& status_drawn(plain, cols, anchor) == cursor_to(free / 2, status_top(anchor, 1))
                + utf8("\x1b[2K\x1b[2m"@) + utf8(message) + utf8("\x1b[0m"@)
            &&& ({
                let both = Some(StatusText { message, copyable: Some(text) });
                let top = status_top(anchor, 2 + wrapped_count(text, cols));
                status_drawn(both, cols, anchor) == cursor_to(free / 2, top) + utf8(
                    "\x1b[2K\x1b[2m"@,
                ) + utf8(message) + utf8("\x1b[0m"@) + (cursor_to(0, top + 2) + utf8(text))
            })
            &&& status_change(plain, old_status, cols, anchor) == cleared_rows(
                status_top(anchor, status_rows(old_status, cols)),
                status_rows(old_status, cols) as nat,
            ) + status_drawn(plain, cols, anchor)
        }),
{
    let free = if message.len() <= cols {
        cols - message.len()
    } else {
        0
    };
    let plain = Some(StatusText { message, copyable: None });
    let drawn = cursor_to(free / 2, status_top(anchor, 1)) + utf8("\x1b[2K\x1b[2m"@) + utf8(message)
        + utf8("\x1b[0m"@);
    assert(status_drawn(plain, cols, anchor) =~= drawn);
}

/// Law: what is drawn of a tile: its image, scaled to its cells, always, and below it
/// the label and above it the dot if they have changed.
pub proof fn law_tile_drawn(l: GalleryLayout, t: TileFrame, id: u32, show_dot: bool)
    ensures
        ({
            let col = l.col(t.grid_col as int);
            let row = l.row(t.grid_row as int);
            let image = cursor_to(col % 0x1_0000, row % 0x1_0000) + fit_command(
                id,
                l.tile_cols,
                l.tile_rows,
            );
            let label = label_bytes(
                col,
                row + l.tile_rows,
                l.tile_cols as int,
                t.name@,
                t.conn_kind,
            );
            let dot = dot_bytes(col, row, show_dot);
            &&& tile_bytes(l, t, id, false, false, show_dot) == image
            &&& tile_bytes(l, t, id, true, false, show_dot) == image + label
            &&& tile_bytes(l, t, id, false, true, show_dot) == image + dot
            &&& tile_bytes(l, t, id, true, true, show_dot) == image + label + dot
        }),
{
    let col = l.col(t.grid_col as int);
    let row = l.row(t.grid_row as int);
    let image = cursor_to(low16(col), low16(row)) + fit_command(id, l.tile_cols, l.tile_rows);
    let label = label_bytes(col, row + l.tile_rows, l.tile_cols as int, t.name@, t.conn_kind);
    let dot = dot_bytes(col, row, show_dot);
    assert(tile_bytes(l, t, id, false, false, show_dot) =~= image);
    assert(tile_bytes(l, t, id, true, false, show_dot) =~= image + label);
    assert(tile_bytes(l, t, id, false, true, show_dot) =~= image + dot);
}

/// Law: a tile of a gallery of fewer than 65535 columns and rows can be drawn; of a
/// larger one exactly if none of its parts is cut to the last cell that there is.
pub proof fn law_tile_drawable(l: GalleryLayout, t: TileFrame)
    ensures
        ({
            let col = l.col(t.grid_col as int);
            let row = l.row(t.grid_row as int);
            let at = label_col(col, l.tile_cols as int, t.name@, t.conn_kind);
            &&& 0 <= col <= at < 0xFFFF && 0 <= row <= row + l.tile_rows < 0xFFFF ==> tile_drawable(
                l,
                t,
            )
            &&& tile_drawable(l, t) ==> at < 0x1_0000_0000 && row + l.tile_rows < 0x1_0000_0000
            &&& tile_drawable(l, t) ==> col % 0x1_0000 != 0xFFFF && row % 0x1_0000 != 0xFFFF && at
                % 0x1_0000 != 0xFFFF && (row + l.tile_rows) % 0x1_0000 != 0xFFFF && (row > 0
                ==> (row - 1) % 0x1_0000 != 0xFFFF)
        }),
{
}

/// Law: a status can be drawn if it has fewer than 65535 rows, and a display has two
/// images for each of nine tiles.
pub proof fn law_limits(status: Option<StatusText>, cols: int, d: TerminalDisplay)
    ensures
        status_rows(status, cols) < 0xFFFF ==> status_fits(status, cols),
        d.wf() <==> d.back_buffers@.len() == 9,
{
}

/// Law: the size of the tiles of a gallery is that of its widest and that of its
/// highest frame.
pub proof fn law_largest(tiles: Seq<TileFrame>)
    requires
        tiles.len() > 0,
    ensures
        exists|i: int|
            0 <= i < tiles.len() && (#[trigger] tiles[i]).frame.width == largest(tiles).0,
        exists|i: int|
            0 <= i < tiles.len() && (#[trigger] tiles[i]).frame.height == largest(tiles).1,
    decreases tiles.len(),
{
    let last = tiles.len() - 1;
    let rest = tiles.drop_last();
    assert(tiles[last] == tiles.last());
    if rest.len() > 0 {
        law_largest(rest);
        let i = choose|i: int|
            0 <= i < rest.len() && (#[trigger] rest[i]).frame.width == largest(rest).0;
        let j = choose|j: int|
            0 <= j < rest.len() && (#[trigger] rest[j]).frame.height == largest(rest).1;
        assert(tiles[i] == rest[i]);
        assert(tiles[j] == rest[j]);
    }
}

/// Law: a ticket stands in the middle of the fifth row from below, behind its label
/// of eight characters.
pub proof fn law_ticket(ticket: Seq<char>, ws: WinSize)
    ensures
        ({
            let free = if 8 + ticket.len() <= ws.cols {
                ws.cols - 8 - ticket.len()
            } else {
                0
            };
            let row = if ws.rows >= 5 {
                ws.rows - 5
            } else {
                0
            };
            ticket_bytes(ticket, ws) == cursor_to(free / 2, row) + utf8("\x1b[2K\x1b[2m"@) + utf8(
                "ticket: "@,
            ) + utf8("\x1b[0m"@) + utf8(ticket)
        }),
{
    reveal_strlit("ticket: ");
}

/// Law: a display that has forgotten what is on screen draws the status, the error,
/// the labels and the dots anew.
pub proof fn law_forgotten(d: TerminalDisplay, i: int, l: LabelText)
    requires
        d.forgotten(),
        0 <= i,
    ensures
        d.last_status is None,
        !d.error_drawn,
        needs_label(label_texts(d.drawn_labels@), i, l),
        d.drop_states@.len() == 0,
{
}

} // verus!
