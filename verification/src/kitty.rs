//! Kitty graphics protocol: escape sequences that carry and place images.

use vstd::prelude::*;
use vstd::utf8::is_ascii_chars_encode_utf8;
use vstd::slice::slice_subrange;

use flate2::write::ZlibEncoder;
use flate2::Compression;
use std::io::Write;

use crate::b64::{base64_of, lemma_base64_bytes, standard_encode, Alphabet};
use crate::term::{cursor_to, move_to, WinSize};
use crate::text::{decimal, lemma_decimal_digits, lemma_decimal_unique, put, put_dec, utf8};
use crate::video_capture::{ENCODE_HEIGHT, ENCODE_WIDTH};
use crate::wire::append_bytes;

verus! {

// ---------------------------------------------------------------------------
// Detection
// ---------------------------------------------------------------------------
/// Asks whether the terminal supports the Kitty graphics protocol: a 1x1 RGB
/// image query.
pub const SUPPORT_QUERY: &'static str = "\x1b_Gi=31,s=1,v=1,a=q,t=d,f=24;AAAA\x1b\\";

/// Asks whether the terminal supports shared memory image transfer (`t=shm`).
pub const SHM_QUERY: &'static str = "\x1b_Gi=32,s=1,v=1,a=q,f=24,t=shm;/vc_shm_probe\x1b\\";

/// Name of the shared memory object that [`SHM_QUERY`] speaks of.
pub const SHM_PROBE_NAME: &'static str = "/vc_shm_probe";

/// Whether the bytes read so far end with the end of a response (`ESC \`).
pub fn response_complete(collected: &[u8]) -> (r: bool)
    ensures
        r == (collected@.len() >= 2 && collected@[collected@.len() - 2] == 0x1b
            && collected@.last() == 0x5c),
{
    let n = collected.len();
    n >= 2 && collected[n - 2] == 0x1b && collected[n - 1] == 0x5c
}

/// Whether a response says that the query was understood: it holds `OK`.
pub fn response_ok(collected: &[u8]) -> (r: bool)
    ensures
        r == exists|i: int|
            0 <= i < collected@.len() - 1 && #[trigger] collected@[i] == 0x4f && collected@[i + 1]
                == 0x4b,
{
    let n = collected.len();
    let mut i: usize = 0;
    while n - i >= 2
        invariant
            n == collected@.len(),
            i <= n,
            forall|k: int|
                0 <= k < i ==> !(#[trigger] collected@[k] == 0x4f && collected@[k + 1] == 0x4b),
        decreases n - i,
    {
        if collected[i] == 0x4f && collected[i + 1] == 0x4b {
            assert(collected@[i as int] == 0x4f);
            return true;
        }
        i = i + 1;
    }
    false
}

// ---------------------------------------------------------------------------
// Image transmission
// ---------------------------------------------------------------------------
/// Transfer mode, detected once at startup.
#[derive(Debug, Clone, Copy, PartialEq, Eq, Structural)]
pub enum TransferMode {
    /// POSIX shared memory: minimal PTY traffic.
    Shm,
    /// Inline base64 over the PTY: universal fallback.
    Pty,
}

/// Reusable state for [`transmit_image`].
///
/// Create once in the display loop and pass to every transmit call.
pub struct TransmitScratch {
    /// Pixels of the last image, three bytes each.
    pub rgb_data: Vec<u8>,
    /// Monotonic counter for unique shm names (shm path only).
    pub shm_counter: u64,
    /// Name of the last shared memory object.
    pub shm_name: Vec<u8>,
    /// What is to be written to the terminal.
    pub cmd_buf: Vec<u8>,
}

impl TransmitScratch {
    pub fn new() -> (r: TransmitScratch)
        ensures
            r.rgb_data@.len() == 0,
            r.shm_name@.len() == 0,
            r.cmd_buf@.len() == 0,
            r.shm_counter == 0,
    {
        TransmitScratch {
            rgb_data: Vec::new(),
            shm_counter: 0,
            shm_name: Vec::new(),
            cmd_buf: Vec::new(),
        }
    }
}

/// Red, green and blue of a packed pixel.
pub open spec fn rgb_of(px: u32) -> Seq<u8> {
    seq![(px / 0x1_0000 % 0x100) as u8, (px / 0x100 % 0x100) as u8, (px % 0x100) as u8]
}

/// Pixels as RGB24.
pub open spec fn rgb24(pixels: Seq<u32>) -> Seq<u8>
    decreases pixels.len(),
{
    if pixels.len() == 0 {
        Seq::empty()
    } else {
        rgb24(pixels.drop_last()) + rgb_of(pixels.last())
    }
}

/// Law: RGB24 takes three bytes per pixel; the colors of pixel `i` stand at `3 * i`.
pub proof fn law_rgb24_layout(pixels: Seq<u32>, i: int)
    requires
        0 <= i < pixels.len(),
    ensures
        rgb24(pixels).len() == 3 * pixels.len(),
        rgb24(pixels).subrange(3 * i, 3 * i + 3) == rgb_of(pixels[i]),
    decreases pixels.len(),
{
    let front = pixels.drop_last();
    if front.len() > 0 {
        law_rgb24_layout(front, if i < front.len() {
            i
        } else {
            0
        });
    }
    assert(rgb24(front).len() == 3 * front.len());
    if i < front.len() {
        assert(rgb24(pixels).subrange(3 * i, 3 * i + 3) =~= rgb24(front).subrange(3 * i, 3 * i + 3));
    } else {
        assert(rgb24(pixels).subrange(3 * i, 3 * i + 3) =~= rgb_of(pixels[i]));
    }
}

/// Convert the first `pixel_count` packed u32 pixels to RGB24 into `out`.
pub fn convert_to_rgb24(pixel_data: &[u32], pixel_count: usize, out: &mut Vec<u8>)
    requires
        pixel_count <= pixel_data@.len(),
    ensures
        final(out)@ == rgb24(pixel_data@.take(pixel_count as int)),
{
    out.clear();
    let mut i: usize = 0;
    assert(pixel_data@.take(0) =~= Seq::empty());
    while i < pixel_count
        invariant
            i <= pixel_count <= pixel_data@.len(),
            out@ == rgb24(pixel_data@.take(i as int)),
        decreases pixel_count - i,
    {
        let px: u32 = pixel_data[i];
        let ghost before = out@;
        out.push((px / 0x1_0000 % 0x100) as u8);
        out.push((px / 0x100 % 0x100) as u8);
        out.push((px % 0x100) as u8);
        proof {
            let t = pixel_data@.take(i + 1);
            assert(t.drop_last() =~= pixel_data@.take(i as int));
            assert(out@ =~= before + rgb_of(px));
        }
        i = i + 1;
    }
}

/// Name of a shared memory object: `/vc_<pid>_<counter>` (leading '/' required
/// by POSIX).
pub open spec fn shm_name_of(pid: u32, counter: u64) -> Seq<u8> {
    utf8("/vc_"@) + decimal(pid as nat) + utf8("_"@) + decimal(counter as nat)
}

/// Two texts that are split at the first underscore behind a common beginning
/// have the same parts.
proof fn lemma_split_at_underscore(
    start: Seq<u8>,
    a: Seq<u8>,
    c: Seq<u8>,
    b: Seq<u8>,
    d: Seq<u8>,
)
    requires
        start + a + seq![95u8] + c == start + b + seq![95u8] + d,
        forall|i: int| 0 <= i < a.len() ==> #[trigger] a[i] != 95,
        forall|i: int| 0 <= i < b.len() ==> #[trigger] b[i] != 95,
    ensures
        a == b,
        c == d,
{
    let x = start + a + seq![95u8] + c;
    let y = start + b + seq![95u8] + d;
    let k = start.len() as int;
    assert(x[k + a.len()] == 95);
    assert(y[k + b.len()] == 95);
    if a.len() < b.len() {
        assert(y[k + a.len()] == b[a.len() as int]);
    } else if b.len() < a.len() {
        assert(x[k + b.len()] == a[b.len() as int]);
    }
    assert(x.subrange(k, k + a.len()) =~= a);
    assert(y.subrange(k, k + b.len()) =~= b);
    assert(x.skip(k + a.len() + 1) =~= c);
    assert(y.skip(k + b.len() + 1) =~= d);
}

/// Law: no two images, of one process or of two, go through shared memory of the
/// same name.
pub proof fn law_shm_names_unique(p: u32, m: u64, q: u32, n: u64)
    requires
        shm_name_of(p, m) == shm_name_of(q, n),
    ensures
        p == q,
        m == n,
{
    assert(utf8("_"@) == seq![95u8]) by {
        reveal_strlit("_");
        is_ascii_chars_encode_utf8("_"@);
        assert(utf8("_"@) =~= seq![95u8]);
    }
    let (a, b) = (decimal(p as nat), decimal(q as nat));
    lemma_decimal_digits(p as nat);
    lemma_decimal_digits(q as nat);
    assert forall|i: int| 0 <= i < a.len() implies #[trigger] a[i] != 95 by {}
    assert forall|i: int| 0 <= i < b.len() implies #[trigger] b[i] != 95 by {}
    lemma_split_at_underscore(
        utf8("/vc_"@),
        a,
        decimal(m as nat),
        b,
        decimal(n as nat),
    );
    lemma_decimal_unique(p as nat, q as nat);
    lemma_decimal_unique(m as nat, n as nat);
}

/// The command that makes the terminal read an image from shared memory.
pub open spec fn shm_command(id: u32, width: u32, height: u32, name: Seq<u8>) -> Seq<u8> {
    utf8("\x1b_Gi="@) + decimal(id as nat) + utf8(",s="@) + decimal(width as nat) + utf8(",v="@)
        + decimal(height as nat) + utf8(",a=t,f=24,t=shm,q=2;"@) + name + utf8("\x1b\\"@)
}

/// Longest piece of base64 text in one command.
pub const CHUNK_SIZE: usize = 4096;

/// What precedes the base64 text in the first command of an image.
pub open spec fn first_keys(id: u32, width: u32, height: u32) -> Seq<u8> {
    utf8("i="@) + decimal(id as nat) + utf8(",s="@) + decimal(width as nat) + utf8(",v="@)
        + decimal(height as nat) + utf8(",a=t,f=24,o=z,t=d,q=2,m="@)
}

/// One command: its keys, whether more follow, and a piece of base64 text.
pub open spec fn chunk_command(keys: Seq<u8>, more: bool, chunk: Seq<u8>) -> Seq<u8> {
    utf8("\x1b_G"@) + keys + (if more {
        utf8("1;"@)
    } else {
        utf8("0;"@)
    }) + chunk + utf8("\x1b\\"@)
}

/// The commands that carry the base64 text `b64`, the first one with `keys`.
pub open spec fn chunk_commands(keys: Seq<u8>, b64: Seq<u8>) -> Seq<u8>
    decreases b64.len(),
{
    if b64.len() == 0 {
        Seq::empty()
    } else if b64.len() <= CHUNK_SIZE {
        chunk_command(keys, false, b64)
    } else {
        chunk_command(keys, true, b64.take(CHUNK_SIZE as int)) + chunk_commands(
            utf8("m="@),
            b64.skip(CHUNK_SIZE as int),
        )
    }
}

/// The zlib stream of `data` at the fastest level, if it could be made.
pub uninterp spec fn zlib_fast(data: Seq<u8>) -> Option<Seq<u8>>;

/// Calls `flate2::write::ZlibEncoder` at `Compression::fast`, writing all of
/// `data` and finishing the stream. The result is named, not described.
#[verifier::external_body]
fn zlib_compress(data: &[u8]) -> (r: Option<Vec<u8>>)
    ensures
        match r {
            Some(z) => zlib_fast(data@) == Some(z@),
            None => zlib_fast(data@) is None,
        },
{
    let mut encoder = ZlibEncoder::new(Vec::new(), Compression::fast());
    match encoder.write_all(data) {
        Ok(()) => encoder.finish().ok(),
        Err(_) => None,
    }
}

/// Write one command of an image to `out`.
fn put_chunk(out: &mut Vec<u8>, more: bool, chunk: &[u8])
    ensures
        final(out)@ == old(out)@ + (if more {
            utf8("1;"@)
        } else {
            utf8("0;"@)
        }) + chunk@ + utf8("\x1b\\"@),
{
    if more {
        put(out, "1;");
    } else {
        put(out, "0;");
    }
    append_bytes(out, chunk);
    put(out, "\x1b\\");
}

/// Write the commands that carry compressed pixels to `out`.
pub fn put_image_stream(out: &mut Vec<u8>, id: u32, width: u32, height: u32, compressed: &[u8])
    ensures
        final(out)@ == old(out)@ + chunk_commands(
            first_keys(id, width, height),
            base64_of(compressed@, Alphabet::Standard),
        ),
{
    let text = standard_encode(compressed);
    let b64 = text.as_str().as_bytes();
    proof {
        lemma_base64_bytes(compressed@, Alphabet::Standard);
    }
    let n = b64.len();
    let mut pos: usize = 0;
    let ghost goal = old(out)@ + chunk_commands(first_keys(id, width, height), b64@);
    assert(b64@.skip(0) =~= b64@);
    while pos < n
        invariant
            n == b64@.len(),
            pos <= n,
            goal == out@ + chunk_commands(
                if pos == 0 {
                    first_keys(id, width, height)
                } else {
                    utf8("m="@)
                },
                b64@.skip(pos as int),
            ),
        decreases n - pos,
    {
        let ghost keys = if pos == 0 {
            first_keys(id, width, height)
        } else {
            utf8("m="@)
        };
        let ghost left = b64@.skip(pos as int);
        let ghost before = out@;
        put(out, "\x1b_G");
        if pos == 0 {
            put(out, "i=");
            put_dec(out, id as u64);
            put(out, ",s=");
            put_dec(out, width as u64);
            put(out, ",v=");
            put_dec(out, height as u64);
            put(out, ",a=t,f=24,o=z,t=d,q=2,m=");
        } else {
            put(out, "m=");
        }
        assert(out@ =~= before + (utf8("\x1b_G"@) + keys));
        let more = n - pos > CHUNK_SIZE;
        let end: usize = if more {
            pos + CHUNK_SIZE
        } else {
            n
        };
        let chunk = slice_subrange(b64, pos, end);
        put_chunk(out, more, chunk);
        proof {
            assert(out@ =~= before + chunk_command(keys, more, chunk@));
            if more {
                assert(chunk@ =~= left.take(CHUNK_SIZE as int));
                assert(left.skip(CHUNK_SIZE as int) =~= b64@.skip(end as int));
                assert(goal =~= out@ + chunk_commands(utf8("m="@), b64@.skip(end as int)));
            } else {
                assert(chunk@ =~= left);
                assert(b64@.skip(end as int).len() == 0);
                assert(goal =~= out@ + chunk_commands(utf8("m="@), b64@.skip(end as int)));
            }
        }
        pos = end;
    }
    assert(goal =~= out@);
}

/// Why an image could not be transmitted.
#[derive(Debug, Clone, Copy, PartialEq, Eq, Structural)]
pub enum TransmitError {
    /// The pixels could not be compressed.
    Compression,
}

/// Prepare an image for transfer via POSIX shared memory (`t=shm`).
///
/// Afterwards `scratch` holds the pixels that go into the shared memory object,
/// its name, and the command to write once it is there. The terminal reads the
/// pixels directly from shared memory and unlinks the shm name.
pub fn transmit_image_shm(
    id: u32,
    width: u32,
    height: u32,
    pixel_data: &[u32],
    scratch: &mut TransmitScratch,
    pid: u32,
)
    requires
        width * height <= u32::MAX,
        width * height <= pixel_data@.len(),
        old(scratch).shm_counter < u64::MAX,
    ensures
        final(scratch).shm_counter == old(scratch).shm_counter + 1,
        final(scratch).rgb_data@ == rgb24(pixel_data@.take(width * height)),
        final(scratch).shm_name@ == shm_name_of(pid, final(scratch).shm_counter),
        final(scratch).cmd_buf@ == shm_command(id, width, height, final(scratch).shm_name@),
{
    let pixel_count: usize = (width * height) as usize;
    convert_to_rgb24(pixel_data, pixel_count, &mut scratch.rgb_data);
    scratch.shm_counter = scratch.shm_counter + 1;

    scratch.shm_name.clear();
    put(&mut scratch.shm_name, "/vc_");
    put_dec(&mut scratch.shm_name, pid as u64);
    put(&mut scratch.shm_name, "_");
    put_dec(&mut scratch.shm_name, scratch.shm_counter);
    assert(scratch.shm_name@ =~= shm_name_of(pid, scratch.shm_counter));

    scratch.cmd_buf.clear();
    put(&mut scratch.cmd_buf, "\x1b_Gi=");
    put_dec(&mut scratch.cmd_buf, id as u64);
    put(&mut scratch.cmd_buf, ",s=");
    put_dec(&mut scratch.cmd_buf, width as u64);
    put(&mut scratch.cmd_buf, ",v=");
    put_dec(&mut scratch.cmd_buf, height as u64);
    put(&mut scratch.cmd_buf, ",a=t,f=24,t=shm,q=2;");
    append_bytes(&mut scratch.cmd_buf, scratch.shm_name.as_slice());
    put(&mut scratch.cmd_buf, "\x1b\\");
    assert(scratch.cmd_buf@ =~= shm_command(id, width, height, scratch.shm_name@));
}

/// Prepare an image as zlib-compressed RGB24 via inline base64 over the PTY.
///
/// Uses `o=z` to tell the terminal the payload is zlib-compressed, and `f=24`
/// for raw RGB. Afterwards `scratch` holds the entire escape sequence stream, to
/// be written at once.
pub fn transmit_image_pty(
    id: u32,
    width: u32,
    height: u32,
    pixel_data: &[u32],
    scratch: &mut TransmitScratch,
) -> (r: Result<(), TransmitError>)
    requires
        width * height <= u32::MAX,
        width * height <= pixel_data@.len(),
    ensures
        final(scratch).shm_counter == old(scratch).shm_counter,
        match zlib_fast(rgb24(pixel_data@.take(width * height))) {
            Some(z) => r is Ok && final(scratch).cmd_buf@ == chunk_commands(
                first_keys(id, width, height),
                base64_of(z, Alphabet::Standard),
            ),
            None => r == Err::<(), TransmitError>(TransmitError::Compression),
        },
{
    let pixel_count: usize = (width * height) as usize;
    convert_to_rgb24(pixel_data, pixel_count, &mut scratch.rgb_data);
    match zlib_compress(scratch.rgb_data.as_slice()) {
        Some(compressed) => {
            scratch.cmd_buf.clear();
            put_image_stream(&mut scratch.cmd_buf, id, width, height, compressed.as_slice());
            proof {
                let c = chunk_commands(
                    first_keys(id, width, height),
                    base64_of(compressed@, Alphabet::Standard),
                );
                assert(Seq::<u8>::empty() + c =~= c);
            }
            Ok(())
        },
        None => Err(TransmitError::Compression),
    }
}

/// Prepare an image using the given transfer mode.
pub fn transmit_image(
    id: u32,
    width: u32,
    height: u32,
    pixel_data: &[u32],
    scratch: &mut TransmitScratch,
    mode: TransferMode,
    pid: u32,
) -> (r: Result<(), TransmitError>)
    requires
        width * height <= u32::MAX,
        width * height <= pixel_data@.len(),
        mode == TransferMode::Shm ==> old(scratch).shm_counter < u64::MAX,
    ensures
        match mode {
            TransferMode::Shm => {
                &&& r is Ok
                &&& final(scratch).shm_counter == old(scratch).shm_counter + 1
                &&& final(scratch).rgb_data@ == rgb24(pixel_data@.take(width * height))
                &&& final(scratch).shm_name@ == shm_name_of(pid, final(scratch).shm_counter)
                &&& final(scratch).cmd_buf@ == shm_command(
                    id,
                    width,
                    height,
                    final(scratch).shm_name@,
                )
            },
            TransferMode::Pty => {
                &&& final(scratch).shm_counter == old(scratch).shm_counter
                &&& match zlib_fast(rgb24(pixel_data@.take(width * height))) {
                    Some(z) => r is Ok && final(scratch).cmd_buf@ == chunk_commands(
                        first_keys(id, width, height),
                        base64_of(z, Alphabet::Standard),
                    ),
                    None => r == Err::<(), TransmitError>(TransmitError::Compression),
                }
            },
        },
{
    match mode {
        TransferMode::Shm => {
            transmit_image_shm(id, width, height, pixel_data, scratch, pid);
            Ok(())
        },
        TransferMode::Pty => transmit_image_pty(id, width, height, pixel_data, scratch),
    }
}

// ---------------------------------------------------------------------------
// Display / delete helpers
// ---------------------------------------------------------------------------
/// The sequence that takes an image off the screen and keeps its data.
pub open spec fn hide_command(id: u32) -> Seq<u8> {
    utf8("\x1b_Ga=d,d=i,i="@) + decimal(id as nat) + utf8(",q=2\x1b\\"@)
}

/// The sequence that places an image at the cursor.
pub open spec fn place_command(id: u32) -> Seq<u8> {
    utf8("\x1b_Ga=p,i="@) + decimal(id as nat) + utf8(",q=2\x1b\\"@)
}

/// The sequence that places an image at the cursor, scaled to cells.
pub open spec fn fit_command(id: u32, cols: u32, rows: u32) -> Seq<u8> {
    utf8("\x1b_Ga=p,i="@) + decimal(id as nat) + utf8(",c="@) + decimal(cols as nat) + utf8(",r="@)
        + decimal(rows as nat) + utf8(",q=2\x1b\\"@)
}

/// The sequence that deletes an image.
pub open spec fn delete_command(id: u32) -> Seq<u8> {
    utf8("\x1b_Ga=d,d=I,i="@) + decimal(id as nat) + utf8("\x1b\\"@)
}

/// `a / b`, rounded up.
pub open spec fn div_up(a: int, b: int) -> int {
    (a + b - 1) / b
}

/// `a / b`, rounded up.
pub fn div_ceil(a: u32, b: u32) -> (r: u32)
    requires
        b > 0,
    ensures
        r == div_up(a as int, b as int),
{
    let x: u64 = a as u64;
    let y: u64 = b as u64;
    let r: u64 = (x + y - 1) / y;
    assert(r <= u32::MAX) by (nonlinear_arith)
        requires
            r == (x + y - 1) / (y as int),
            x <= u32::MAX,
            y >= 1,
    ;
    r as u32
}

/// `a - b`, not under zero.
pub open spec fn minus(a: int, b: int) -> int {
    if a >= b {
        a - b
    } else {
        0
    }
}

/// Top-left cell that centers an image of the given pixel size; the top-left
/// corner where the size of the terminal is not known.
pub open spec fn centered(ws: Option<WinSize>, img_w: u32, img_h: u32) -> (int, int) {
    match ws {
        Some(w) => match w.cell() {
            Some((cell_w, cell_h)) => (
                minus(w.cols as int, div_up(img_w as int, cell_w as int)) / 2,
                minus(w.rows as int, div_up(img_h as int, cell_h as int)) / 2,
            ),
            None => (0, 0),
        },
        None => (0, 0),
    }
}

/// Compute the top-left cell position to center an image of the given pixel size.
pub fn centered_position(ws: Option<WinSize>, img_w: u32, img_h: u32) -> (r: (u16, u16))
    ensures
        r.0 == centered(ws, img_w, img_h).0,
        r.1 == centered(ws, img_w, img_h).1,
        r.0 < u16::MAX,
        r.1 < u16::MAX,
{
    let w = match ws {
        Some(w) => w,
        None => {
            return (0, 0);
        },
    };
    let (cell_w, cell_h) = match w.cell_size() {
        Some(c) => c,
        None => {
            return (0, 0);
        },
    };
    let img_cols: u32 = div_ceil(img_w, cell_w);
    let img_rows: u32 = div_ceil(img_h, cell_h);
    let col: u32 = (w.cols as u32).saturating_sub(img_cols) / 2;
    let row: u32 = (w.rows as u32).saturating_sub(img_rows) / 2;
    (col as u16, row as u16)
}

fn put_place(out: &mut Vec<u8>, id: u32)
    ensures
        final(out)@ == old(out)@ + place_command(id),
{
    let ghost before = out@;
    put(out, "\x1b_Ga=p,i=");
    put_dec(out, id as u64);
    put(out, ",q=2\x1b\\");
    assert(out@ =~= before + place_command(id));
}

/// Display a previously transmitted image centered in the terminal (`a=p`).
pub fn display_image(out: &mut Vec<u8>, id: u32, ws: Option<WinSize>)
    ensures
        final(out)@ == old(out)@ + hide_command(id) + cursor_to(
            centered(ws, ENCODE_WIDTH, ENCODE_HEIGHT).0,
            centered(ws, ENCODE_WIDTH, ENCODE_HEIGHT).1,
        ) + place_command(id),
{
    display_image_sized(out, id, ENCODE_WIDTH, ENCODE_HEIGHT, ws);
}

/// Display a previously transmitted image centered in the terminal, using the
/// actual image dimensions for centering.
pub fn display_image_sized(out: &mut Vec<u8>, id: u32, img_w: u32, img_h: u32, ws: Option<WinSize>)
    ensures
        final(out)@ == old(out)@ + hide_command(id) + cursor_to(
            centered(ws, img_w, img_h).0,
            centered(ws, img_w, img_h).1,
        ) + place_command(id),
{
    let (col, row) = centered_position(ws, img_w, img_h);
    let ghost before = out@;
    put(out, "\x1b_Ga=d,d=i,i=");
    put_dec(out, id as u64);
    put(out, ",q=2\x1b\\");
    assert(out@ =~= before + hide_command(id));
    move_to(out, col, row);
    put_place(out, id);
}

/// Display a previously transmitted image at a specific cell position (`a=p`),
/// scaled to so many columns and rows if both are given.
pub fn display_image_at(
    out: &mut Vec<u8>,
    id: u32,
    col: u16,
    row: u16,
    fit_cols: Option<u32>,
    fit_rows: Option<u32>,
)
    requires
        col < u16::MAX,
        row < u16::MAX,
    ensures
        final(out)@ == old(out)@ + cursor_to(col as int, row as int) + (match (fit_cols, fit_rows) {
            (Some(c), Some(r)) => fit_command(id, c, r),
            _ => place_command(id),
        }),
{
    move_to(out, col, row);
    match (fit_cols, fit_rows) {
        (Some(c), Some(r)) => {
            let ghost before = out@;
            put(out, "\x1b_Ga=p,i=");
            put_dec(out, id as u64);
            put(out, ",c=");
            put_dec(out, c as u64);
            put(out, ",r=");
            put_dec(out, r as u64);
            put(out, ",q=2\x1b\\");
            assert(out@ =~= before + fit_command(id, c, r));
        },
        _ => {
            put_place(out, id);
        },
    }
}

/// Delete an image by ID from the terminal.
pub fn delete_image(out: &mut Vec<u8>, id: u32)
    ensures
        final(out)@ == old(out)@ + delete_command(id),
{
    let ghost before = out@;
    put(out, "\x1b_Ga=d,d=I,i=");
    put_dec(out, id as u64);
    put(out, "\x1b\\");
    assert(out@ =~= before + delete_command(id));
}

// ---------------------------------------------------------------------------
// Laws
// ---------------------------------------------------------------------------
/// Law: a pixel becomes three bytes, red first, which together are its colour.
pub proof fn law_pixel_bytes(px: u32)
    ensures
        rgb_of(px).len() == 3,
        rgb_of(px)[0] * 0x1_0000 + rgb_of(px)[1] * 0x100 + rgb_of(px)[2] == px % 0x100_0000,
{
}

/// Law: an image takes the fewest cells that hold all of its pixels.
pub proof fn law_div_up(a: int, b: int)
    requires
        a >= 0,
        b > 0,
    ensures
        div_up(a, b) >= 0,
        (div_up(a, b) - 1) * b < a <= div_up(a, b) * b,
{
    let q = div_up(a, b);
    vstd::arithmetic::div_mod::lemma_fundamental_div_mod(a + b - 1, b);
    vstd::arithmetic::div_mod::lemma_mod_bound(a + b - 1, b);
    vstd::arithmetic::div_mod::lemma_div_pos_is_pos(a + b - 1, b);
    assert(b * q == q * b && (q - 1) * b == q * b - b) by (nonlinear_arith);
}

/// Law: a difference is exact where it is not negative, and zero otherwise.
pub proof fn law_minus(a: int, b: int)
    ensures
        a >= b ==> minus(a, b) + b == a,
        a <= b ==> minus(a, b) == 0,
{
}

/// Law: an image stands in the middle: what is left of the columns and rows is the
/// same on both sides, or one more behind it. One that is larger than the terminal
/// stands at its edge, and so does every image where the size is not known.
pub proof fn law_centered(ws: WinSize, img_w: u32, img_h: u32)
    ensures
        centered(None, img_w, img_h) == (0int, 0int),
        ws.cell() is None ==> centered(Some(ws), img_w, img_h) == (0int, 0int),
        ws.cell() is Some ==> {
            let (cell_w, cell_h) = ws.cell()->0;
            let (col, row) = centered(Some(ws), img_w, img_h);
            let cols = div_up(img_w as int, cell_w as int);
            let rows = div_up(img_h as int, cell_h as int);
            &&& cols <= ws.cols ==> col >= 0 && col + cols + col <= ws.cols <= col + cols + col + 1
            &&& cols > ws.cols ==> col == 0
            &&& rows <= ws.rows ==> row >= 0 && row + rows + row <= ws.rows <= row + rows + row + 1
            &&& rows > ws.rows ==> row == 0
        },
{
}

/// Law: what the commands say. Each is introduced by `ESC _ G` and ended by `ESC \`,
/// and names the image that it is about.
pub proof fn law_commands(id: u32, width: u32, height: u32, cols: u32, rows: u32, name: Seq<u8>)
    ensures
        shm_command(id, width, height, name) == utf8("\x1b_Gi="@) + decimal(id as nat) + utf8(
            ",s="@,
        ) + decimal(width as nat) + utf8(",v="@) + decimal(height as nat) + utf8(
            ",a=t,f=24,t=shm,q=2;"@,
        ) + name + utf8("\x1b\\"@),
        first_keys(id, width, height) == utf8("i="@) + decimal(id as nat) + utf8(",s="@) + decimal(
            width as nat,
        ) + utf8(",v="@) + decimal(height as nat) + utf8(",a=t,f=24,o=z,t=d,q=2,m="@),
        hide_command(id) == utf8("\x1b_Ga=d,d=i,i="@) + decimal(id as nat) + utf8(",q=2\x1b\\"@),
        place_command(id) == utf8("\x1b_Ga=p,i="@) + decimal(id as nat) + utf8(",q=2\x1b\\"@),
        fit_command(id, cols, rows) == utf8("\x1b_Ga=p,i="@) + decimal(id as nat) + utf8(",c="@)
            + decimal(cols as nat) + utf8(",r="@) + decimal(rows as nat) + utf8(",q=2\x1b\\"@),
        delete_command(id) == utf8("\x1b_Ga=d,d=I,i="@) + decimal(id as nat) + utf8("\x1b\\"@),
{
}

/// Law: the name of a shared memory object is made of the process and a counter.
pub proof fn law_shm_name(pid: u32, counter: u64)
    ensures
        shm_name_of(pid, counter) == utf8("/vc_"@) + decimal(pid as nat) + utf8("_"@) + decimal(
            counter as nat,
        ),
        SUPPORT_QUERY@ == "\x1b_Gi=31,s=1,v=1,a=q,t=d,f=24;AAAA\x1b\\"@,
        SHM_QUERY@ == "\x1b_Gi=32,s=1,v=1,a=q,f=24,t=shm;/vc_shm_probe\x1b\\"@,
        SHM_PROBE_NAME@ == "/vc_shm_probe"@,
{
}

/// Law: an image is sent in pieces of 4096 characters. Every piece but the last says
/// that more follow, every piece but the first has no keys of its own, and a text
/// that is empty takes no command.
pub proof fn law_image_in_pieces(keys: Seq<u8>, piece: Seq<u8>, rest: Seq<u8>)
    ensures
        chunk_commands(keys, Seq::empty()) == Seq::<u8>::empty(),
        0 < piece.len() <= 4096 ==> chunk_commands(keys, piece) == utf8("\x1b_G"@) + keys + utf8(
            "0;"@,
        ) + piece + utf8("\x1b\\"@),
        piece.len() == 4096 && rest.len() > 0 ==> chunk_commands(keys, piece + rest) == utf8(
            "\x1b_G"@,
        ) + keys + utf8("1;"@) + piece + utf8("\x1b\\"@) + chunk_commands(utf8("m="@), rest),
{
    if piece.len() == 4096 && rest.len() > 0 {
        assert((piece + rest).take(4096) =~= piece);
        assert((piece + rest).skip(4096) =~= rest);
    }
}

/// Law: a command is about one image only: the same bytes never name two.
pub proof fn law_commands_tell_images_apart(a: u32, b: u32)
    requires
        hide_command(a) == hide_command(b) || place_command(a) == place_command(b)
            || delete_command(a) == delete_command(b),
    ensures
        a == b,
{
    let (m, n) = (decimal(a as nat), decimal(b as nat));
    if hide_command(a) == hide_command(b) {
        lemma_between(utf8("\x1b_Ga=d,d=i,i="@), m, n, utf8(",q=2\x1b\\"@));
    } else if place_command(a) == place_command(b) {
        lemma_between(utf8("\x1b_Ga=p,i="@), m, n, utf8(",q=2\x1b\\"@));
    } else {
        lemma_between(utf8("\x1b_Ga=d,d=I,i="@), m, n, utf8("\x1b\\"@));
    }
    lemma_decimal_unique(a as nat, b as nat);
}

/// What stands between two given texts can be told.
proof fn lemma_between(before: Seq<u8>, m: Seq<u8>, n: Seq<u8>, after: Seq<u8>)
    requires
        before + m + after == before + n + after,
    ensures
        m == n,
{
    let s = before + m + after;
    assert(s.len() == before.len() + m.len() + after.len());
    assert((before + n + after).len() == before.len() + n.len() + after.len());
    let (i, j) = (before.len() as int, (before.len() + m.len()) as int);
    assert(s.subrange(i, j) =~= m);
    assert(s.subrange(i, j) =~= n);
}

} // verus!
