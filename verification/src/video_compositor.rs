//! Arranges decoded video streams in a grid.

use vstd::prelude::*;

use crate::peer_map::{in_order, lookup, Entries, PeerMap};
use crate::pool::{BufPool, SharedBuf};
use crate::room::{lex_before, PeerId};
use crate::video_decode::RgbFrame;

verus! {

/// Status information shown at the bottom of the terminal display.
/// `copyable` is an optional raw string rendered at column 0 so that
/// terminal text selection copies it cleanly without embedded spaces.
#[derive(Debug, Clone)]
pub struct StatusInfo {
    pub message: String,
    /// Optional text (e.g. a ticket) printed left-aligned for easy copying.
    pub copyable: Option<String>,
}

/// A status, as contracts see it.
pub struct StatusText {
    pub message: Seq<char>,
    pub copyable: Option<Seq<char>>,
}

impl View for StatusInfo {
    type V = StatusText;

    open spec fn view(&self) -> StatusText {
        StatusText {
            message: self.message@,
            copyable: match self.copyable {
                Some(t) => Some(t@),
                None => None,
            },
        }
    }
}

/// The text of a status that may be missing.
pub open spec fn status_text(s: Option<StatusInfo>) -> Option<StatusText> {
    match s {
        Some(info) => Some(info@),
        None => None,
    }
}

/// Whether two statuses read the same.
pub fn same_status(a: &Option<StatusInfo>, b: &Option<StatusInfo>) -> (r: bool)
    ensures
        r == (status_text(*a) == status_text(*b)),
{
    match (a, b) {
        (None, None) => true,
        (Some(x), Some(y)) => {
            if x.message != y.message {
                return false;
            }
            match (&x.copyable, &y.copyable) {
                (None, None) => true,
                (Some(t), Some(u)) => *t == *u,
                _ => false,
            }
        },
        _ => false,
    }
}

/// Copy of a status.
pub fn copy_status(s: &Option<StatusInfo>) -> (r: Option<StatusInfo>)
    ensures
        status_text(r) == status_text(*s),
{
    match s {
        Some(info) => Some(
            StatusInfo {
                message: info.message.clone(),
                copyable: match &info.copyable {
                    Some(t) => Some(t.clone()),
                    None => None,
                },
            },
        ),
        None => None,
    }
}

/// Counters for video frame drops and receives in the receive path.
/// Incremented by the dispatcher, jitter buffer, and decoder.  Also used by
/// the congestion feedback reporter to compute per-interval loss fractions.
/// There is one per peer: it cannot be copied, so all who hold it count and read
/// the same numbers.
#[derive(Debug, PartialEq, Eq, Structural)]
pub struct VideoDropCounter {
    drops: u64,
    received: u64,
}

impl VideoDropCounter {
    /// Frames dropped so far, modulo 2^64.
    pub closed spec fn dropped(self) -> u64 {
        self.drops
    }

    /// Frames received so far, modulo 2^64.
    pub closed spec fn arrived(self) -> u64 {
        self.received
    }

    pub fn new() -> (r: VideoDropCounter)
        ensures
            r.dropped() == 0,
            r.arrived() == 0,
    {
        VideoDropCounter { drops: 0, received: 0 }
    }

    /// Increment the drop counter by 1.
    pub fn increment(&mut self)
        ensures
            final(self).dropped() == (old(self).dropped() + 1) % 0x1_0000_0000_0000_0000,
            final(self).arrived() == old(self).arrived(),
    {
        self.drops = self.drops.wrapping_add(1);
    }

    /// Increment the received counter by 1.
    pub fn increment_received(&mut self)
        ensures
            final(self).arrived() == (old(self).arrived() + 1) % 0x1_0000_0000_0000_0000,
            final(self).dropped() == old(self).dropped(),
    {
        self.received = self.received.wrapping_add(1);
    }

    /// Read the current drop total.
    pub fn get(&self) -> (n: u64)
        ensures
            n == self.dropped(),
    {
        self.drops
    }

    /// Read the current received total.
    pub fn get_received(&self) -> (n: u64)
        ensures
            n == self.arrived(),
    {
        self.received
    }
}

/// Gap in terminal cells between the columns of the gallery grid.
pub const CELL_GAP_COLS: u16 = 1;

/// Gap in terminal cells between the rows of the gallery grid.
pub const CELL_GAP_ROWS: u16 = 1;

/// Whether a peer is connected directly or via the iroh relay.
#[derive(Debug, Clone, Copy, PartialEq, Eq, Structural)]
pub enum ConnectionKind {
    /// Not yet determined.
    Unknown,
    /// Direct UDP hole-punch.
    Direct,
    /// Routed through an iroh relay server.
    Relay,
    /// This is the local participant (no network path).
    Local,
}

/// Commands to the compositor from the room.
pub enum CompositorCommand {
    RemovePeer(PeerId),
    /// Set (or update) the display name for a peer.
    SetPeerName(PeerId, String),
    /// Set (or update) the connection kind for a peer.
    SetConnectionKind(PeerId, ConnectionKind),
    /// Set (or update) how many video frames of a peer its drop counter has
    /// counted as dropped.
    SetVideoDropCounter(PeerId, u64),
}

/// A gallery frame: one or more peer frames with layout info.
pub struct GalleryFrame {
    /// Per-peer frames in display order, with grid position (col, row index).
    pub tiles: SharedBuf<TileFrame>,
    /// Grid dimensions.
    pub cols: u32,
    pub rows: u32,
}

pub struct TileFrame {
    pub peer_id: PeerId,
    pub frame: RgbFrame,
    pub grid_col: u32,
    pub grid_row: u32,
    /// Display name of this peer (empty if unknown).
    pub name: String,
    /// How we are connected to this peer.
    pub conn_kind: ConnectionKind,
    /// Cumulative count of dropped/failed video frames for this peer.
    pub video_drops: u64,
}

// ---------------------------------------------------------------------------
// Grid
// ---------------------------------------------------------------------------
/// Whether `c` columns are the fewest whose square holds `n` tiles.
pub open spec fn is_cols(n: int, c: int) -> bool {
    &&& c >= 1
    &&& n <= c * c
    &&& (c - 1) * (c - 1) < n
}

/// Rows that `n` tiles take in `cols` columns.
pub open spec fn rows_of(n: int, cols: int) -> int {
    (n + cols - 1) / cols
}

/// Columns and rows of a grid of `n` tiles.
pub fn grid_size(n: usize) -> (r: (u32, u32))
    requires
        1 <= n <= u32::MAX,
    ensures
        is_cols(n as int, r.0 as int),
        r.1 == rows_of(n as int, r.0 as int),
{
    let m: u64 = n as u64;
    let mut c: u64 = 1;
    while c * c < m
        invariant
            1 <= m <= u32::MAX,
            1 <= c <= 0x1_0000,
            (c - 1) * (c - 1) < m,
            c * c <= 0x1_0000_0000,
        decreases 0x1_0000 - c,
    {
        assert(c < 0x1_0000) by (nonlinear_arith)
            requires
                c * c < m,
                m <= u32::MAX,
        ;
        assert((c + 1) * (c + 1) <= 0x1_0000_0000 && (c + 1) * (c + 1) > c * c) by (nonlinear_arith)
            requires
                1 <= c < 0x1_0000,
        ;
        c = c + 1;
    }
    let rows: u64 = (m + c - 1) / c;
    assert(rows <= m) by (nonlinear_arith)
        requires
            rows == (m + c - 1) / (c as int),
            1 <= c,
            1 <= m,
    ;
    (c as u32, rows as u32)
}

/// Law: every tile has a cell of its own inside the grid.
pub proof fn law_cells(n: int, c: int, i: int, j: int)
    requires
        is_cols(n, c),
        0 <= i < j < n,
    ensures
        0 <= i % c < c,
        0 <= i / c < rows_of(n, c),
        0 <= j / c < rows_of(n, c),
        i % c != j % c || i / c != j / c,
{
    lemma_cell(n, c, i);
    lemma_cell(n, c, j);
}

proof fn lemma_cell(n: int, c: int, i: int)
    requires
        c >= 1,
        0 <= i < n,
    ensures
        0 <= i % c < c,
        0 <= i / c < rows_of(n, c),
        i == i / c * c + i % c,
{
    vstd::arithmetic::div_mod::lemma_fundamental_div_mod(i, c);
    assert(i / c * c == c * (i / c)) by (nonlinear_arith);
    vstd::arithmetic::div_mod::lemma_div_is_ordered(i, n - 1, c);
    vstd::arithmetic::div_mod::lemma_div_pos_is_pos(i, c);
    assert((n - 1) / c < (n + c - 1) / c) by (nonlinear_arith)
        requires
            c >= 1,
            n >= 1,
    ;
}

/// Law: the grid is as square as can be: it has at least as many columns as
/// rows, no row is empty, and fewer columns would need more rows than columns.
pub proof fn law_grid_shape(n: int, c: int)
    requires
        n >= 1,
        is_cols(n, c),
    ensures
        1 <= rows_of(n, c) <= c,
        (rows_of(n, c) - 1) * c < n <= rows_of(n, c) * c,
        c > 1 ==> rows_of(n, c - 1) > c - 1,
{
    let r = rows_of(n, c);
    vstd::arithmetic::div_mod::lemma_fundamental_div_mod(n + c - 1, c);
    vstd::arithmetic::div_mod::lemma_mod_bound(n + c - 1, c);
    assert((r - 1) * c < n <= r * c) by (nonlinear_arith)
        requires
            n + c - 1 == c * r + (n + c - 1) % c,
            0 <= (n + c - 1) % c < c,
    ;
    assert(1 <= r <= c) by (nonlinear_arith)
        requires
            (r - 1) * c < n <= r * c,
            n >= 1,
            n <= c * c,
            c >= 1,
    ;
    if c > 1 {
        let d = c - 1;
        let q = rows_of(n, d);
        vstd::arithmetic::div_mod::lemma_fundamental_div_mod(n + d - 1, d);
        vstd::arithmetic::div_mod::lemma_mod_bound(n + d - 1, d);
        assert(q > d) by (nonlinear_arith)
            requires
                n + d - 1 == d * q + (n + d - 1) % d,
                0 <= (n + d - 1) % d < d,
                d * d < n,
                d >= 1,
        ;
    }
}

// ---------------------------------------------------------------------------
// Compositor
// ---------------------------------------------------------------------------
/// What is known of the peers on screen.
pub struct Scene {
    pub frames: Entries<RgbFrame>,
    pub names: Entries<String>,
    pub conn_kinds: Entries<ConnectionKind>,
    pub drops: Entries<u64>,
}

/// Whether `t` is the tile of entry `i` of `frames`.
pub open spec fn is_tile(s: Scene, t: TileFrame, i: int, cols: int) -> bool {
    let id = s.frames[i].0;
    &&& t.peer_id@ == id
    &&& t.frame == s.frames[i].1
    &&& t.grid_col == i % cols
    &&& t.grid_row == i / cols
    &&& match lookup(s.names, id) {
        Some(name) => t.name@ == name@,
        None => t.name@ == Seq::<char>::empty(),
    }
    &&& t.conn_kind == match lookup(s.conn_kinds, id) {
        Some(kind) => kind,
        None => ConnectionKind::Unknown,
    }
    &&& t.video_drops == match lookup(s.drops, id) {
        Some(total) => total,
        None => 0,
    }
}

/// Whether `g` shows the scene `s`: one tile per frame, in the order of the
/// peers' identifiers, row by row. Nothing to show takes no grid.
pub open spec fn shows(s: Scene, g: GalleryFrame) -> bool {
    let n = s.frames.len() as int;
    &&& g.tiles@.len() == n
    &&& if n == 0 {
        g.cols == 0 && g.rows == 0
    } else {
        &&& is_cols(n, g.cols as int)
        &&& g.rows == rows_of(n, g.cols as int)
        &&& forall|i: int| 0 <= i < n ==> is_tile(s, #[trigger] g.tiles@[i], i, g.cols as int)
    }
}

/// Arranges N decoded video streams in a grid layout for display.
pub struct VideoCompositor {
    latest_frames: PeerMap<RgbFrame>,
    peer_names: PeerMap<String>,
    peer_conn_kinds: PeerMap<ConnectionKind>,
    peer_drops: PeerMap<u64>,
    tile_pool: BufPool<TileFrame>,
}

impl View for VideoCompositor {
    type V = Scene;

    closed spec fn view(&self) -> Scene {
        Scene {
            frames: self.latest_frames@,
            names: self.peer_names@,
            conn_kinds: self.peer_conn_kinds@,
            drops: self.peer_drops@,
        }
    }
}

/// Whether `b` is `a` but for the value of `id`, which is `v`.
pub open spec fn differs_at<V>(a: Entries<V>, b: Entries<V>, id: Seq<u8>, v: Option<V>) -> bool {
    forall|k: Seq<u8>| #[trigger]
        lookup(b, k) == (if k == id {
            v
        } else {
            lookup(a, k)
        })
}

/// The scene `b` that a command makes of the scene `a`.
pub open spec fn commanded(a: Scene, b: Scene, cmd: CompositorCommand) -> bool {
    match cmd {
        CompositorCommand::RemovePeer(id) => {
            &&& differs_at(a.frames, b.frames, id@, None)
            &&& differs_at(a.names, b.names, id@, None)
            &&& differs_at(a.conn_kinds, b.conn_kinds, id@, None)
            &&& differs_at(a.drops, b.drops, id@, None)
        },
        CompositorCommand::SetPeerName(id, name) => {
            &&& b.frames == a.frames
            &&& differs_at(a.names, b.names, id@, Some(name))
            &&& b.conn_kinds == a.conn_kinds
            &&& b.drops == a.drops
        },
        CompositorCommand::SetConnectionKind(id, kind) => {
            &&& b.frames == a.frames
            &&& b.names == a.names
            &&& differs_at(a.conn_kinds, b.conn_kinds, id@, Some(kind))
            &&& b.drops == a.drops
        },
        CompositorCommand::SetVideoDropCounter(id, total) => {
            &&& b.frames == a.frames
            &&& b.names == a.names
            &&& b.conn_kinds == a.conn_kinds
            &&& differs_at(a.drops, b.drops, id@, Some(total))
        },
    }
}

impl VideoCompositor {
    /// Everything is kept in the order of the peers' identifiers.
    pub open spec fn wf(self) -> bool {
        &&& in_order(self@.frames)
        &&& in_order(self@.names)
        &&& in_order(self@.conn_kinds)
        &&& in_order(self@.drops)
    }

    pub fn new() -> (r: VideoCompositor)
        ensures
            r.wf(),
            r@.frames.len() == 0,
            r@.names.len() == 0,
            r@.conn_kinds.len() == 0,
            r@.drops.len() == 0,
    {
        VideoCompositor {
            latest_frames: PeerMap::new(),
            peer_names: PeerMap::new(),
            peer_conn_kinds: PeerMap::new(),
            peer_drops: PeerMap::new(),
            tile_pool: BufPool::new(),
        }
    }

    /// Number of peers with a frame on screen.
    pub fn frame_count(&self) -> (n: usize)
        ensures
            n == self@.frames.len(),
    {
        self.latest_frames.len()
    }

    /// Arrange the latest frames. With no frames there is no gallery.
    pub fn build_gallery(&self) -> (r: Option<GalleryFrame>)
        requires
            self.wf(),
            self@.frames.len() <= u32::MAX,
        ensures
            r is Some == (self@.frames.len() > 0),
            r matches Some(g) ==> shows(self@, g),
    {
        let n = self.latest_frames.len();
        if n == 0 {
            return None;
        }
        let (cols, rows) = grid_size(n);
        let mut tiles = self.tile_pool.checkout_empty();
        let mut i: usize = 0;
        while i < n
            invariant
                self.wf(),
                n == self@.frames.len(),
                n <= u32::MAX,
                cols >= 1,
                i <= n,
                tiles@.len() == i,
                forall|k: int| 0 <= k < i ==> is_tile(self@, #[trigger] tiles@[k], k, cols as int),
            decreases n - i,
        {
            let peer_id = self.latest_frames.key_at(i);
            let frame = self.latest_frames.value_at(i);
            let name = match self.peer_names.get(&peer_id) {
                Some(name) => name.clone(),
                None => String::new(),
            };
            let conn_kind = match self.peer_conn_kinds.get(&peer_id) {
                Some(kind) => *kind,
                None => ConnectionKind::Unknown,
            };
            let video_drops: u64 = match self.peer_drops.get(&peer_id) {
                Some(total) => *total,
                None => 0,
            };
            let tile = TileFrame {
                peer_id,
                frame: RgbFrame {
                    group_id: frame.group_id,
                    capture_timestamp_us: frame.capture_timestamp_us,
                    width: frame.width,
                    height: frame.height,
                    data: frame.data.clone(),
                },
                grid_col: i as u32 % cols,
                grid_row: i as u32 / cols,
                name,
                conn_kind,
                video_drops,
            };
            assert(is_tile(self@, tile, i as int, cols as int));
            let ghost before = tiles@;
            tiles.push(tile);
            proof {
                assert forall|k: int| 0 <= k < i + 1 implies is_tile(
                    self@,
                    #[trigger] tiles@[k],
                    k,
                    cols as int,
                ) by {
                    if k < i {
                        assert(tiles@[k] == before[k]);
                    }
                }
            }
            i = i + 1;
        }
        Some(GalleryFrame { tiles: tiles.share(), cols, rows })
    }

    /// Take in a decoded frame. Returns the gallery to display.
    pub fn on_frame(&mut self, peer_id: PeerId, frame: RgbFrame) -> (r: Option<GalleryFrame>)
        requires
            old(self).wf(),
            old(self)@.frames.len() < u32::MAX,
        ensures
            final(self).wf(),
            differs_at(old(self)@.frames, final(self)@.frames, peer_id@, Some(frame)),
            final(self)@.names == old(self)@.names,
            final(self)@.conn_kinds == old(self)@.conn_kinds,
            final(self)@.drops == old(self)@.drops,
            r matches Some(g) && shows(final(self)@, g),
    {
        self.latest_frames.insert(peer_id, frame);
        proof {
            if self@.frames.len() == 0 {
                assert(lookup(self@.frames, peer_id@) is None);
            }
        }
        self.build_gallery()
    }

    /// Carry out a command. Returns the gallery to display, if there is one: the
    /// removal of a peer is always shown, names and kinds if there are frames,
    /// drops with the next gallery.
    pub fn on_command(&mut self, cmd: CompositorCommand) -> (r: Option<GalleryFrame>)
        requires
            old(self).wf(),
            old(self)@.frames.len() <= u32::MAX,
        ensures
            final(self).wf(),
            commanded(old(self)@, final(self)@, cmd),
            r is Some == match cmd {
                CompositorCommand::RemovePeer(_) => true,
                CompositorCommand::SetVideoDropCounter(_, _) => false,
                _ => final(self)@.frames.len() > 0,
            },
            r matches Some(g) ==> shows(final(self)@, g),
    {
        match cmd {
            CompositorCommand::RemovePeer(peer_id) => {
                self.latest_frames.remove(&peer_id);
                self.peer_names.remove(&peer_id);
                self.peer_conn_kinds.remove(&peer_id);
                self.peer_drops.remove(&peer_id);
                match self.build_gallery() {
                    Some(gallery) => Some(gallery),
                    None => Some(
                        GalleryFrame { tiles: SharedBuf::from_vec(Vec::new()), cols: 0, rows: 0 },
                    ),
                }
            },
            CompositorCommand::SetPeerName(peer_id, name) => {
                self.peer_names.insert(peer_id, name);
                self.build_gallery()
            },
            CompositorCommand::SetConnectionKind(peer_id, kind) => {
                self.peer_conn_kinds.insert(peer_id, kind);
                self.build_gallery()
            },
            CompositorCommand::SetVideoDropCounter(peer_id, total) => {
                self.peer_drops.insert(peer_id, total);
                None
            },
        }
    }
}

/// Law: tiles stand in the order of the peers' identifiers, so every
/// participant sees the others in the same arrangement.
pub proof fn law_tiles_in_order(s: Scene, g: GalleryFrame, i: int, j: int)
    requires
        in_order(s.frames),
        shows(s, g),
        0 <= i < j < g.tiles@.len(),
    ensures
        lex_before(g.tiles@[i].peer_id@, g.tiles@[j].peer_id@),
{
    assert(is_tile(s, g.tiles@[i], i, g.cols as int));
    assert(is_tile(s, g.tiles@[j], j, g.cols as int));
}

/// Law: what the gallery shows of a peer: its latest frame, in the cell that its
/// place in the order gives it, with the name, the kind of connection and the count
/// that were told last, and with an empty name, an unknown kind and a count of zero
/// where nothing was.
pub proof fn law_tile(s: Scene, g: GalleryFrame, i: int)
    requires
        shows(s, g),
        0 <= i < s.frames.len(),
    ensures
        g.tiles@.len() == s.frames.len(),
        ({
            let t = g.tiles@[i];
            let id = s.frames[i].0;
            &&& t.peer_id@ == id
            &&& t.frame == s.frames[i].1
            &&& t.grid_col < g.cols
            &&& t.grid_row < g.rows
            &&& t.grid_row * g.cols + t.grid_col == i
            &&& lookup(s.names, id) is Some ==> t.name@ == lookup(s.names, id)->0@
            &&& lookup(s.names, id) is None ==> t.name@.len() == 0
            &&& lookup(s.conn_kinds, id) is Some ==> t.conn_kind == lookup(s.conn_kinds, id)->0
            &&& lookup(s.conn_kinds, id) is None ==> t.conn_kind == ConnectionKind::Unknown
            &&& lookup(s.drops, id) is Some ==> t.video_drops == lookup(s.drops, id)->0
            &&& lookup(s.drops, id) is None ==> t.video_drops == 0
        }),
{
    let n = s.frames.len() as int;
    assert(is_tile(s, g.tiles@[i], i, g.cols as int));
    lemma_cell(n, g.cols as int, i);
}

/// Law: the size of the grid. It has the fewest columns whose square holds all
/// tiles, and as many rows as these take; nobody to show takes none of either.
pub proof fn law_grid(s: Scene, g: GalleryFrame)
    requires
        shows(s, g),
    ensures
        s.frames.len() == 0 ==> g.cols == 0 && g.rows == 0 && g.tiles@.len() == 0,
        s.frames.len() > 0 ==> {
            let n = s.frames.len() as int;
            &&& g.cols * g.cols >= n
            &&& (g.cols - 1) * (g.cols - 1) < n
            &&& g.rows * g.cols >= n
            &&& (g.rows - 1) * g.cols < n
        },
        CELL_GAP_COLS == 1 && CELL_GAP_ROWS == 1,
{
    if s.frames.len() > 0 {
        law_grid_shape(s.frames.len() as int, g.cols as int);
    }
}

/// Law: `c` columns are right for `n` tiles exactly if their square holds all tiles,
/// and that of one column less does not.
pub proof fn law_columns(n: int, c: int)
    ensures
        is_cols(n, c) <==> c > 0 && c * c >= n && (c - 1) * (c - 1) < n,
{
}

/// Law: a peer that is removed leaves nothing behind, and a name, a kind of
/// connection and a count are told of the peer that they are told of; everything
/// else about every other peer stays.
pub proof fn law_commands(
    a: Scene,
    b: Scene,
    id: PeerId,
    name: String,
    kind: ConnectionKind,
    total: u64,
    other: Seq<u8>,
)
    requires
        other != id@,
    ensures
        commanded(a, b, CompositorCommand::RemovePeer(id)) ==> {
            &&& lookup(b.frames, id@) is None
            &&& lookup(b.names, id@) is None
            &&& lookup(b.conn_kinds, id@) is None
            &&& lookup(b.drops, id@) is None
            &&& lookup(b.frames, other) == lookup(a.frames, other)
            &&& lookup(b.names, other) == lookup(a.names, other)
            &&& lookup(b.conn_kinds, other) == lookup(a.conn_kinds, other)
            &&& lookup(b.drops, other) == lookup(a.drops, other)
        },
        commanded(a, b, CompositorCommand::SetPeerName(id, name)) ==> {
            &&& lookup(b.names, id@) == Some(name)
            &&& lookup(b.names, other) == lookup(a.names, other)
            &&& b.frames == a.frames && b.conn_kinds == a.conn_kinds && b.drops == a.drops
        },
        commanded(a, b, CompositorCommand::SetConnectionKind(id, kind)) ==> {
            &&& lookup(b.conn_kinds, id@) == Some(kind)
            &&& lookup(b.conn_kinds, other) == lookup(a.conn_kinds, other)
            &&& b.frames == a.frames && b.names == a.names && b.drops == a.drops
        },
        commanded(a, b, CompositorCommand::SetVideoDropCounter(id, total)) ==> {
            &&& lookup(b.drops, id@) == Some(total)
            &&& lookup(b.drops, other) == lookup(a.drops, other)
            &&& b.frames == a.frames && b.names == a.names && b.conn_kinds == a.conn_kinds
        },
{
}

/// Law: a frame that comes in takes the place of the frame of its peer, and of no
/// other.
pub proof fn law_frame_replaces(
    a: Entries<RgbFrame>,
    b: Entries<RgbFrame>,
    id: Seq<u8>,
    frame: RgbFrame,
    other: Seq<u8>,
)
    requires
        differs_at(a, b, id, Some(frame)),
        other != id,
    ensures
        lookup(b, id) == Some(frame),
        lookup(b, other) == lookup(a, other),
{
}

/// Law: a status reads as its message and its text to copy, and two statuses read
/// the same exactly if both parts do.
pub proof fn law_status_text(s: StatusInfo)
    ensures
        status_text(None) is None,
        status_text(Some(s)) is Some,
        status_text(Some(s))->0.message == s.message@,
        s.copyable is Some ==> status_text(Some(s))->0.copyable == Some(s.copyable->0@),
        s.copyable is None ==> status_text(Some(s))->0.copyable is None,
{
}

} // verus!
