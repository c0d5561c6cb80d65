//! Simple TUI drawing helpers using ANSI escape sequences.

use vstd::prelude::*;

use crate::kitty::minus;
use crate::term::{cursor_to, move_to, WinSize};
use crate::text::{is_space, is_whitespace, lemma_joined, put, put_repeat, repeated, utf8};

verus! {

/// Switch to the alternate screen buffer, clear it, and hide the cursor.
pub fn init(out: &mut Vec<u8>)
    ensures
        final(out)@ == old(out)@ + utf8("\x1b[?1049h\x1b[2J\x1b[H\x1b[?25l"@),
{
    put(out, "\x1b[?1049h\x1b[2J\x1b[H\x1b[?25l");
}

/// Show cursor and restore main screen buffer on exit.
pub fn cleanup(out: &mut Vec<u8>)
    ensures
        final(out)@ == old(out)@ + utf8("\x1b[?25h\x1b[?1049l"@),
{
    put(out, "\x1b[?25h\x1b[?1049l");
}

/// Clear the screen (content only, no cursor state change).
pub fn clear(out: &mut Vec<u8>)
    ensures
        final(out)@ == old(out)@ + utf8("\x1b[2J\x1b[H"@),
{
    put(out, "\x1b[2J\x1b[H");
}

/// Draw a status line at the bottom of the terminal.
pub fn draw_status(out: &mut Vec<u8>, text: &str, ws: WinSize)
    ensures
        final(out)@ == old(out)@ + cursor_to(0, minus(ws.rows as int, 1)) + utf8("\x1b[2K\x1b[2m"@)
            + utf8(text@) + utf8("\x1b[0m"@),
{
    move_to(out, 0, ws.rows.saturating_sub(1));
    put(out, "\x1b[2K\x1b[2m");
    put(out, text);
    put(out, "\x1b[0m");
}

// ---------------------------------------------------------------------------
// Wrapping
// ---------------------------------------------------------------------------
/// The texts of a list of strings.
pub open spec fn texts(v: Seq<String>) -> Seq<Seq<char>> {
    v.map(|_i: int, s: String| s@)
}

/// `s` cut into pieces of `width` characters; the last one may be shorter.
pub open spec fn pieces(s: Seq<char>, width: nat) -> Seq<Seq<char>>
    decreases s.len(),
{
    if width == 0 || s.len() <= width {
        seq![s]
    } else {
        seq![s.take(width as int)] + pieces(s.skip(width as int), width)
    }
}

/// Wrap a long string into lines of at most `width` characters.
pub fn wrap_line(s: &str, width: usize) -> (r: Vec<String>)
    ensures
        texts(r@) == pieces(s@, width as nat),
{
    let mut lines: Vec<String> = Vec::new();
    let n = s.unicode_len();
    let mut i: usize = 0;
    let ghost goal = pieces(s@, width as nat);
    assert(s@.skip(0) =~= s@);
    assert(texts(lines@) + goal =~= goal);
    while width > 0 && n - i > width
        invariant
            goal == pieces(s@, width as nat),
            n == s@.len(),
            i <= n,
            texts(lines@) + pieces(s@.skip(i as int), width as nat) == goal,
        decreases n - i,
    {
        let ghost left = s@.skip(i as int);
        let ghost before = lines@;
        let head = s.substring_char(i, i + width);
        lines.push(head.to_owned());
        proof {
            assert(head@ =~= left.take(width as int));
            assert(left.skip(width as int) =~= s@.skip(i + width));
            assert(texts(lines@) =~= texts(before).push(head@));
            assert(texts(lines@) + pieces(s@.skip(i + width), width as nat) =~= texts(before)
                + pieces(left, width as nat));
        }
        i = i + width;
    }
    let ghost before = lines@;
    let rest = s.substring_char(i, n);
    lines.push(rest.to_owned());
    proof {
        assert(rest@ =~= s@.skip(i as int));
        assert(texts(lines@) =~= texts(before).push(rest@));
        assert(texts(lines@) =~= goal);
    }
    lines
}

/// All characters of some texts, end to end.
pub open spec fn joined(t: Seq<Seq<char>>) -> Seq<char>
    decreases t.len(),
{
    if t.len() == 0 {
        Seq::empty()
    } else {
        joined(t.drop_last()) + t.last()
    }
}

/// A text before others.
proof fn lemma_joined_front(first: Seq<char>, rest: Seq<Seq<char>>)
    ensures
        joined(seq![first] + rest) == first + joined(rest),
    decreases rest.len(),
{
    let t = seq![first] + rest;
    if rest.len() == 0 {
        reveal_with_fuel(joined, 2);
        assert(t.drop_last() =~= Seq::empty());
        assert(joined(t) =~= first);
        assert(first + joined(rest) =~= first);
    } else {
        assert(t.drop_last() =~= seq![first] + rest.drop_last());
        lemma_joined_front(first, rest.drop_last());
        assert(joined(t) =~= first + joined(rest));
    }
}

/// Law: wrapping loses nothing: the lines put together are the text, and none
/// is longer than the width.
pub proof fn law_wrap(s: Seq<char>, width: nat)
    requires
        width > 0,
    ensures
        joined(pieces(s, width)) == s,
        forall|i: int|
            0 <= i < pieces(s, width).len() ==> (#[trigger] pieces(s, width)[i]).len() <= width,
    decreases s.len(),
{
    let p = pieces(s, width);
    if s.len() <= width {
        lemma_joined_front(s, Seq::empty());
        assert(p =~= seq![s] + Seq::<Seq<char>>::empty());
        assert(joined(p) =~= s);
    } else {
        let head = s.take(width as int);
        let rest = pieces(s.skip(width as int), width);
        law_wrap(s.skip(width as int), width);
        lemma_joined_front(head, rest);
        assert(joined(p) =~= s);
        assert forall|i: int| 0 <= i < p.len() implies (#[trigger] p[i]).len() <= width by {
            if i > 0 {
                assert(p[i] == rest[i - 1]);
            }
        }
    }
}

// ---------------------------------------------------------------------------
// Boxes
// ---------------------------------------------------------------------------
/// A text, filled up with spaces to `width` characters.
pub open spec fn padded(t: Seq<char>, width: int) -> Seq<u8> {
    utf8(t) + repeated(utf8(" "@), minus(width, t.len() as int) as nat)
}

/// The lines of a box, the first one at `row`.
pub open spec fn box_lines(lines: Seq<Seq<char>>, col: int, row: int, width: int) -> Seq<u8>
    decreases lines.len(),
{
    if lines.len() == 0 {
        Seq::empty()
    } else {
        box_lines(lines.drop_last(), col, row, width) + cursor_to(col, row + lines.len() - 1)
            + utf8("│ "@) + padded(lines.last(), width) + utf8(" │"@)
    }
}

/// A horizontal line of a box that is `width` wide inside.
pub open spec fn box_rule(left: Seq<char>, right: Seq<char>, width: int) -> Seq<u8> {
    utf8(left) + repeated(utf8("─"@), (width + 2) as nat) + utf8(right)
}

/// The title of a box that is `width` wide inside, centered.
pub open spec fn box_title(title: Seq<char>, width: int) -> Seq<u8> {
    let spare = width + 2 - title.len();
    utf8("│"@) + repeated(utf8(" "@), (spare / 2) as nat) + utf8(title) + repeated(
        utf8(" "@),
        (spare - spare / 2) as nat,
    ) + utf8("│"@)
}

/// The top of a box: a rule, the title, and a rule.
pub open spec fn box_head(title: Seq<char>, col: int, row: int, width: int) -> Seq<u8> {
    cursor_to(col, row) + box_rule("╭"@, "╮"@, width) + cursor_to(col, row + 1) + box_title(
        title,
        width,
    ) + cursor_to(col, row + 2) + box_rule("├"@, "┤"@, width)
}

/// A box with its top left corner at (`col`, `row`).
pub open spec fn box_at(
    title: Seq<char>,
    lines: Seq<Seq<char>>,
    col: int,
    row: int,
    width: int,
) -> Seq<u8> {
    box_head(title, col, row, width) + box_lines(lines, col, row + 3, width) + cursor_to(
        col,
        row + 3 + lines.len(),
    ) + box_rule("╰"@, "╯"@, width)
}

fn put_rule(out: &mut Vec<u8>, left: &str, right: &str, width: usize)
    requires
        width + 2 <= usize::MAX,
    ensures
        final(out)@ == old(out)@ + box_rule(left@, right@, width as int),
{
    let ghost before = out@;
    put(out, left);
    put_repeat(out, "─", width + 2);
    put(out, right);
    assert(out@ =~= before + box_rule(left@, right@, width as int));
}

fn put_title(out: &mut Vec<u8>, title: &str, width: usize)
    requires
        width + 2 <= usize::MAX,
        title@.len() <= width + 2,
    ensures
        final(out)@ == old(out)@ + box_title(title@, width as int),
{
    let ghost before = out@;
    let n = title.unicode_len();
    let spare: usize = width + 2 - n;
    put(out, "│");
    put_repeat(out, " ", spare / 2);
    put(out, title);
    put_repeat(out, " ", spare - spare / 2);
    put(out, "│");
    assert(out@ =~= before + box_title(title@, width as int));
}

fn put_padded(out: &mut Vec<u8>, text: &str, width: usize)
    ensures
        final(out)@ == old(out)@ + padded(text@, width as int),
{
    let ghost before = out@;
    put(out, text);
    let n = text.unicode_len();
    put_repeat(out, " ", width.saturating_sub(n));
    assert(out@ =~= before + padded(text@, width as int));
}

/// Draw a box with its top left corner at (`col`, `row`).
fn put_box(
    out: &mut Vec<u8>,
    title: &str,
    lines: &Vec<String>,
    col: u16,
    row: u16,
    width: usize,
)
    requires
        col < u16::MAX,
        row + 3 + lines@.len() < u16::MAX,
        width + 2 <= usize::MAX,
        title@.len() <= width + 2,
    ensures
        final(out)@ == old(out)@ + box_at(
            title@,
            texts(lines@),
            col as int,
            row as int,
            width as int,
        ),
{
    let ghost before = out@;
    put_head(out, title, col, row, width);
    put_lines(out, lines, col, row + 3, width);
    move_to(out, col, row + 3 + lines.len() as u16);
    put_rule(out, "╰", "╯", width);
    assert(out@ =~= before + box_at(title@, texts(lines@), col as int, row as int, width as int));
}

fn put_head(out: &mut Vec<u8>, title: &str, col: u16, row: u16, width: usize)
    requires
        col < u16::MAX,
        row + 3 < u16::MAX,
        width + 2 <= usize::MAX,
        title@.len() <= width + 2,
    ensures
        final(out)@ == old(out)@ + box_head(title@, col as int, row as int, width as int),
{
    let ghost before = out@;
    move_to(out, col, row);
    put_rule(out, "╭", "╮", width);
    move_to(out, col, row + 1);
    put_title(out, title, width);
    move_to(out, col, row + 2);
    put_rule(out, "├", "┤", width);
    assert(out@ =~= before + box_head(title@, col as int, row as int, width as int));
}

fn put_lines(out: &mut Vec<u8>, lines: &Vec<String>, col: u16, row: u16, width: usize)
    requires
        col < u16::MAX,
        row + lines@.len() < u16::MAX,
    ensures
        final(out)@ == old(out)@ + box_lines(texts(lines@), col as int, row as int, width as int),
{
    let ghost before = out@;
    let ghost all = texts(lines@);
    let mut i: usize = 0;
    assert(all.take(0) =~= Seq::empty());
    assert(before + box_lines(all.take(0), col as int, row as int, width as int) =~= before);
    while i < lines.len()
        invariant
            i <= lines@.len(),
            all == texts(lines@),
            col < u16::MAX,
            row + lines@.len() < u16::MAX,
            out@ == before + box_lines(all.take(i as int), col as int, row as int, width as int),
        decreases lines@.len() - i,
    {
        move_to(out, col, row + i as u16);
        put(out, "│ ");
        put_padded(out, lines[i].as_str(), width);
        put(out, " │");
        proof {
            let t = all.take(i + 1);
            assert(t.drop_last() =~= all.take(i as int));
            assert(t.last() == lines@[i as int]@);
            assert(out@ =~= before + box_lines(t, col as int, row as int, width as int));
        }
        i = i + 1;
    }
    assert(all.take(lines@.len() as int) =~= all);
}

/// Length of the longest text, in characters; zero if there is none.
pub open spec fn longest(lines: Seq<Seq<char>>) -> int
    decreases lines.len(),
{
    if lines.len() == 0 {
        0
    } else {
        let a = longest(lines.drop_last());
        let b = lines.last().len() as int;
        if a >= b {
            a
        } else {
            b
        }
    }
}

fn longest_line(lines: &Vec<String>) -> (n: usize)
    ensures
        n == longest(texts(lines@)),
{
    let mut n: usize = 0;
    let mut i: usize = 0;
    let ghost all = texts(lines@);
    assert(all.take(0) =~= Seq::empty());
    while i < lines.len()
        invariant
            i <= lines@.len(),
            all == texts(lines@),
            n == longest(all.take(i as int)),
        decreases lines@.len() - i,
    {
        let len = lines[i].as_str().unicode_len();
        proof {
            let t = all.take(i + 1);
            assert(t.drop_last() =~= all.take(i as int));
            assert(t.last() == lines@[i as int]@);
        }
        if len > n {
            n = len;
        }
        i = i + 1;
    }
    assert(all.take(lines@.len() as int) =~= all);
    n
}

/// Width inside a box: that of the longest line or the title, at least 20, but
/// no more than the terminal allows. Widths are counted in characters, each of
/// which is taken to fill one column.
pub open spec fn content_width(longest: int, title: int, ws: WinSize) -> int {
    let a = if longest >= title {
        longest
    } else {
        title
    };
    let b = if a >= 20 {
        a
    } else {
        20
    };
    let max = minus(ws.cols as int, 8);
    if b <= max {
        b
    } else {
        max
    }
}

fn content_width_of(longest: usize, title: usize, ws: WinSize) -> (r: usize)
    ensures
        r == content_width(longest as int, title as int, ws),
        r <= u16::MAX,
{
    let a: usize = if longest >= title {
        longest
    } else {
        title
    };
    let b: usize = if a >= 20 {
        a
    } else {
        20
    };
    let max: usize = (ws.cols as usize).saturating_sub(8);
    if b <= max {
        b
    } else {
        max
    }
}

/// The lines, those that are longer than `max` characters wrapped.
pub open spec fn all_wrapped(lines: Seq<Seq<char>>, max: nat) -> Seq<Seq<char>>
    decreases lines.len(),
{
    if lines.len() == 0 {
        Seq::empty()
    } else {
        let line = lines.last();
        all_wrapped(lines.drop_last(), max) + (if line.len() > max {
            pieces(line, max)
        } else {
            seq![line]
        })
    }
}

fn wrap_lines(lines: &Vec<String>, max: usize) -> (r: Vec<String>)
    ensures
        texts(r@) == all_wrapped(texts(lines@), max as nat),
{
    let mut out: Vec<String> = Vec::new();
    let mut i: usize = 0;
    let ghost all = texts(lines@);
    assert(all.take(0) =~= Seq::empty());
    assert(texts(out@) =~= Seq::empty());
    while i < lines.len()
        invariant
            i <= lines@.len(),
            all == texts(lines@),
            texts(out@) == all_wrapped(all.take(i as int), max as nat),
        decreases lines@.len() - i,
    {
        let ghost before = out@;
        let line = lines[i].as_str();
        proof {
            let t = all.take(i + 1);
            assert(t.drop_last() =~= all.take(i as int));
            assert(t.last() == line@);
        }
        if line.unicode_len() > max {
            let mut more = wrap_line(line, max);
            let ghost w = more@;
            out.append(&mut more);
            assert(texts(out@) =~= texts(before) + texts(w));
        } else {
            out.push(line.to_owned());
            assert(texts(out@) =~= texts(before) + seq![line@]);
        }
        i = i + 1;
    }
    assert(all.take(lines@.len() as int) =~= all);
    out
}

/// A box in the middle of the terminal, with `extra` rows kept free below it.
pub open spec fn centered_box(
    title: Seq<char>,
    lines: Seq<Seq<char>>,
    ws: WinSize,
    extra: int,
) -> Seq<u8> {
    let width = content_width(longest(lines), title.len() as int, ws);
    box_at(
        title,
        lines,
        minus(ws.cols as int, width + 4) / 2,
        minus(ws.rows as int, lines.len() + 4 + extra) / 2,
        width,
    )
}

/// Whether the title fits into the box.
pub open spec fn title_fits(title: Seq<char>, lines: Seq<Seq<char>>, ws: WinSize) -> bool {
    title.len() <= content_width(longest(lines), title.len() as int, ws) + 2
}

/// Row below which a box in the middle of the terminal ends.
pub open spec fn box_end(n: int, ws: WinSize, extra: int) -> int {
    minus(ws.rows as int, n + 4 + extra) / 2 + 3 + n
}

/// Draw a box in the middle of the terminal. Returns the row of its bottom.
fn put_centered_box(
    out: &mut Vec<u8>,
    title: &str,
    lines: &Vec<String>,
    ws: WinSize,
    extra: usize,
) -> (bottom: u16)
    requires
        title_fits(title@, texts(lines@), ws),
        extra <= 2,
        box_end(lines@.len() as int, ws, extra as int) < u16::MAX,
    ensures
        final(out)@ == old(out)@ + centered_box(title@, texts(lines@), ws, extra as int),
        bottom == box_end(lines@.len() as int, ws, extra as int),
{
    let n = lines.len();
    let longest = longest_line(lines);
    let title_len = title.unicode_len();
    let width = content_width_of(longest, title_len, ws);
    let col: usize = (ws.cols as usize).saturating_sub(width + 4) / 2;
    let row: usize = (ws.rows as usize).saturating_sub(n + 4 + extra) / 2;
    put_box(out, title, lines, col as u16, row as u16, width);
    row as u16 + 3 + n as u16
}

/// Draw a box with a title centered on screen, containing lines of text.
/// Long lines are wrapped to fit within the terminal width. Widths are counted in
/// characters.
pub fn draw_centered_box(out: &mut Vec<u8>, title: &str, lines: &Vec<String>, ws: WinSize)
    requires
        title_fits(title@, all_wrapped(texts(lines@), minus(ws.cols as int, 8) as nat), ws),
        box_end(
            all_wrapped(texts(lines@), minus(ws.cols as int, 8) as nat).len() as int,
            ws,
            0,
        ) < u16::MAX,
    ensures
        final(out)@ == old(out)@ + centered_box(
            title@,
            all_wrapped(texts(lines@), minus(ws.cols as int, 8) as nat),
            ws,
            0,
        ),
{
    let max: usize = (ws.cols as usize).saturating_sub(8);
    let wrapped = wrap_lines(lines, max);
    put_centered_box(out, title, &wrapped, ws, 0);
}

/// Draw a centered box with a copyable text block below it.
/// The copyable text is printed starting at column 0 with no padding,
/// so terminal text selection copies it cleanly. Widths are counted in characters.
pub fn draw_centered_box_with_copyable(
    out: &mut Vec<u8>,
    title: &str,
    lines: &Vec<String>,
    copyable: &str,
    ws: WinSize,
)
    requires
        title_fits(title@, texts(lines@), ws),
        box_end(lines@.len() as int, ws, 2) + 2 < u16::MAX,
    ensures
        final(out)@ == old(out)@ + centered_box(title@, texts(lines@), ws, 2) + cursor_to(
            0,
            box_end(lines@.len() as int, ws, 2) + 2,
        ) + utf8(copyable@),
{
    let bottom = put_centered_box(out, title, lines, ws, 2);
    move_to(out, 0, bottom + 2);
    put(out, copyable);
}

/// Whether [`draw_centered_box`] can draw a box: it fits the terminal.
pub fn box_fits(title: &str, lines: &Vec<String>, ws: WinSize) -> (r: bool)
    ensures
        r == (title_fits(
            title@,
            all_wrapped(texts(lines@), minus(ws.cols as int, 8) as nat),
            ws,
        ) && box_end(
            all_wrapped(texts(lines@), minus(ws.cols as int, 8) as nat).len() as int,
            ws,
            0,
        ) < u16::MAX),
{
    let max: usize = (ws.cols as usize).saturating_sub(8);
    let wrapped = wrap_lines(lines, max);
    plain_box_fits(title, &wrapped, ws, 0)
}

/// Whether a box can be drawn without wrapping, with `extra` rows below it.
fn plain_box_fits(title: &str, lines: &Vec<String>, ws: WinSize, extra: usize) -> (r: bool)
    requires
        extra <= 2,
    ensures
        r == (title_fits(title@, texts(lines@), ws) && box_end(
            lines@.len() as int,
            ws,
            extra as int,
        ) < u16::MAX),
{
    let n = lines.len();
    let title_len = title.unicode_len();
    let width = content_width_of(longest_line(lines), title_len, ws);
    if title_len > width + 2 {
        return false;
    }
    if n >= 0xFFFF {
        return false;
    }
    let row: usize = (ws.rows as usize).saturating_sub(n + 4 + extra) / 2;
    row + 3 + n < 0xFFFF
}

/// Whether [`draw_centered_box_with_copyable`] can draw a box.
pub fn copyable_box_fits(title: &str, lines: &Vec<String>, ws: WinSize) -> (r: bool)
    ensures
        r == (title_fits(title@, texts(lines@), ws) && box_end(lines@.len() as int, ws, 2) + 2
            < u16::MAX),
{
    if !plain_box_fits(title, lines, ws, 2) {
        return false;
    }
    let n = lines.len();
    let row: usize = (ws.rows as usize).saturating_sub(n + 6) / 2;
    row + 5 + n < 0xFFFF
}

// ---------------------------------------------------------------------------
// Error banner
// ---------------------------------------------------------------------------
/// Number of characters before the first whitespace.
pub open spec fn word_len(s: Seq<char>) -> nat
    decreases s.len(),
{
    if s.len() == 0 || is_space(s[0]) {
        0
    } else {
        1 + word_len(s.skip(1))
    }
}

/// The words of a text, separated by any amount of whitespace.
pub open spec fn words(s: Seq<char>) -> Seq<Seq<char>>
    decreases s.len(),
{
    if s.len() == 0 {
        Seq::empty()
    } else if is_space(s[0]) {
        words(s.skip(1))
    } else {
        let n = word_len(s);
        if n == 0 || n > s.len() {
            Seq::empty()
        } else {
            seq![s.take(n as int)] + words(s.skip(n as int))
        }
    }
}

proof fn lemma_word_len(s: Seq<char>)
    ensures
        word_len(s) <= s.len(),
        s.len() > 0 && !is_space(s[0]) ==> word_len(s) >= 1,
    decreases s.len(),
{
    if s.len() > 0 && !is_space(s[0]) {
        lemma_word_len(s.skip(1));
    }
}

/// Split a text at whitespace.
pub fn split_words(s: &str) -> (r: Vec<String>)
    ensures
        texts(r@) == words(s@),
{
    let n = s.unicode_len();
    let mut out: Vec<String> = Vec::new();
    let mut i: usize = 0;
    assert(s@.skip(0) =~= s@);
    assert(texts(out@) + words(s@) =~= words(s@));
    while i < n
        invariant
            n == s@.len(),
            i <= n,
            texts(out@) + words(s@.skip(i as int)) == words(s@),
        decreases n - i,
    {
        let ghost left = s@.skip(i as int);
        if is_whitespace(s.get_char(i)) {
            assert(left.skip(1) =~= s@.skip(i + 1));
            i = i + 1;
        } else {
            let start = i;
            while i < n && !is_whitespace(s.get_char(i))
                invariant
                    n == s@.len(),
                    start <= i <= n,
                    left == s@.skip(start as int),
                    word_len(left) == i - start + word_len(s@.skip(i as int)),
                decreases n - i,
            {
                assert(s@.skip(i as int).skip(1) =~= s@.skip(i + 1));
                i = i + 1;
            }
            let ghost before = out@;
            let word = s.substring_char(start, i);
            out.push(word.to_owned());
            proof {
                lemma_word_len(left);
                assert(word_len(s@.skip(i as int)) == 0);
                assert(word@ =~= left.take(i - start));
                assert(left.skip(i - start) =~= s@.skip(i as int));
                assert(texts(out@) =~= texts(before).push(word@));
                assert(texts(out@) + words(s@.skip(i as int)) =~= texts(before) + words(left));
            }
        }
    }
    assert(s@.skip(i as int).len() == 0);
    assert(texts(out@) + Seq::<Seq<char>>::empty() =~= texts(out@));
    out
}

/// Lines of a banner while it is put together.
#[verifier::ext_equal]
pub struct Banner {
    /// Finished lines.
    pub lines: Seq<Seq<char>>,
    /// The line under way.
    pub current: Seq<char>,
}

/// `lines` and the pieces of a word that is too long for a line. The first line
/// is shorter than the others.
pub open spec fn hard_broken(
    lines: Seq<Seq<char>>,
    word: Seq<char>,
    first_max: nat,
    max: nat,
) -> Seq<Seq<char>>
    decreases
            word.len(),
            if lines.len() == 0 {
                1nat
            } else {
                0nat
            },
{
    let room = if lines.len() == 0 {
        first_max
    } else {
        max
    };
    let n = if room <= word.len() {
        room
    } else {
        word.len()
    };
    if word.len() == 0 || (n == 0 && lines.len() > 0) {
        lines
    } else {
        hard_broken(lines.push(word.take(n as int)), word.skip(n as int), first_max, max)
    }
}

/// The banner after one more word.
pub open spec fn with_word(b: Banner, word: Seq<char>, first_max: nat, max: nat) -> Banner {
    let line_max = if b.lines.len() == 0 {
        first_max
    } else {
        max
    };
    if b.current.len() == 0 {
        if word.len() > line_max {
            Banner { lines: hard_broken(b.lines, word, first_max, max), current: b.current }
        } else {
            Banner { lines: b.lines, current: word }
        }
    } else if b.current.len() + 1 + word.len() <= line_max {
        Banner { lines: b.lines, current: b.current + seq![' '] + word }
    } else if word.len() > max {
        Banner {
            lines: hard_broken(b.lines.push(b.current), word, first_max, max),
            current: Seq::empty(),
        }
    } else {
        Banner { lines: b.lines.push(b.current), current: word }
    }
}

/// The banner after some more words.
pub open spec fn with_words(b: Banner, list: Seq<Seq<char>>, first_max: nat, max: nat) -> Banner
    decreases list.len(),
{
    if list.len() == 0 {
        b
    } else {
        with_word(with_words(b, list.drop_last(), first_max, max), list.last(), first_max, max)
    }
}

/// Columns kept for the sign that a banner starts with, and spaces before its
/// other lines.
pub const BANNER_PREFIX_LEN: usize = 4;

/// The lines of the banner for a message: words as long as they fit, with four
/// columns kept free, and room for the sign in the first line.
pub open spec fn banner_lines_of(message: Seq<char>, ws: WinSize) -> Seq<Seq<char>> {
    let max = minus(ws.cols as int, 4) as nat;
    let b = with_words(
        Banner { lines: Seq::empty(), current: Seq::empty() },
        words(message),
        minus(max as int, BANNER_PREFIX_LEN as int) as nat,
        max,
    );
    let lines = if b.current.len() > 0 {
        b.lines.push(b.current)
    } else {
        b.lines
    };
    if lines.len() == 0 {
        seq![Seq::empty()]
    } else {
        lines
    }
}

/// Break a word that is too long for a line.
fn hard_break(lines: &mut Vec<String>, word: &str, first_max: usize, max: usize)
    requires
        max > 0,
    ensures
        texts(final(lines)@) == hard_broken(
            texts(old(lines)@),
            word@,
            first_max as nat,
            max as nat,
        ),
{
    let n = word.unicode_len();
    let mut i: usize = 0;
    assert(word@.skip(0) =~= word@);
    while i < n
        invariant
            max > 0,
            n == word@.len(),
            i <= n,
            hard_broken(texts(old(lines)@), word@, first_max as nat, max as nat) == hard_broken(
                texts(lines@),
                word@.skip(i as int),
                first_max as nat,
                max as nat,
            ),
        decreases
                n - i,
                if lines@.len() == 0 {
                    1nat
                } else {
                    0nat
                },
    {
        let ghost before = lines@;
        let room = if lines.len() == 0 {
            first_max
        } else {
            max
        };
        let end: usize = if n - i <= room {
            n
        } else {
            i + room
        };
        let piece = word.substring_char(i, end);
        lines.push(piece.to_owned());
        proof {
            let left = word@.skip(i as int);
            assert(piece@ =~= left.take(end - i));
            assert(left.skip(end - i) =~= word@.skip(end as int));
            assert(texts(lines@) =~= texts(before).push(piece@));
            assert(texts(before).len() == before.len());
        }
        i = end;
    }
}

/// The lines of the banner for a message.
pub fn banner_lines(message: &str, ws: WinSize) -> (r: Vec<String>)
    requires
        ws.cols > 4 || words(message@).len() == 0,
    ensures
        texts(r@) == banner_lines_of(message@, ws),
{
    let max: usize = (ws.cols as usize).saturating_sub(4);
    let first_max: usize = max.saturating_sub(BANNER_PREFIX_LEN);
    let list = split_words(message);
    let mut lines: Vec<String> = Vec::new();
    let mut current = String::new();
    let mut i: usize = 0;
    let ghost all = texts(list@);
    let ghost start = Banner { lines: Seq::empty(), current: Seq::empty() };
    proof {
        reveal_strlit(" ");
        assert(" "@ =~= seq![' ']);
        assert(all.take(0) =~= Seq::empty());
        assert(texts(lines@) =~= Seq::empty());
        assert(current@ =~= Seq::empty());
    }
    while i < list.len()
        invariant
            " "@ == seq![' '],
            i <= list@.len(),
            all == texts(list@),
            all.len() > 0 ==> max > 0,
            start == (Banner { lines: Seq::empty(), current: Seq::empty() }),
            (Banner { lines: texts(lines@), current: current@ }) == with_words(
                start,
                all.take(i as int),
                first_max as nat,
                max as nat,
            ),
        decreases list@.len() - i,
    {
        let word = list[i].as_str();
        let ghost b = Banner { lines: texts(lines@), current: current@ };
        proof {
            let t = all.take(i + 1);
            assert(t.drop_last() =~= all.take(i as int));
            assert(t.last() == word@);
            assert(texts(lines@).len() == lines@.len());
        }
        let line_max = if lines.len() == 0 {
            first_max
        } else {
            max
        };
        let word_len = word.unicode_len();
        if current.as_str().is_empty() {
            if word_len > line_max {
                hard_break(&mut lines, word, first_max, max);
            } else {
                current = word.to_owned();
            }
        } else {
            let current_len = current.as_str().unicode_len();
            if word_len <= line_max && current_len <= line_max - word_len && line_max - word_len
                - current_len >= 1 {
                current.append(" ");
                current.append(word);
                assert(current@ =~= b.current + seq![' '] + word@);
            } else {
                let ghost before = lines@;
                let mut done = String::new();
                core::mem::swap(&mut current, &mut done);
                lines.push(done);
                assert(texts(lines@) =~= texts(before).push(b.current));
                if word_len > max {
                    hard_break(&mut lines, word, first_max, max);
                    assert(current@ =~= Seq::empty());
                } else {
                    current = word.to_owned();
                }
            }
        }
        assert((Banner { lines: texts(lines@), current: current@ }) =~= with_word(
            b,
            word@,
            first_max as nat,
            max as nat,
        ));
        i = i + 1;
    }
    assert(all.take(list@.len() as int) =~= all);
    let ghost before = lines@;
    if !current.as_str().is_empty() {
        lines.push(current);
        assert(texts(lines@) =~= texts(before).push(current@));
    }
    assert(texts(lines@).len() == lines@.len());
    if lines.len() == 0 {
        let ghost none = lines@;
        lines.push(String::new());
        assert(texts(lines@) =~= seq![Seq::<char>::empty()]);
    }
    lines
}

/// Line `i` of a banner, with the sign or the indentation before it.
pub open spec fn banner_line(i: int, line: Seq<char>) -> Seq<u8> {
    (if i == 0 {
        utf8("⚠ "@)
    } else {
        repeated(utf8(" "@), BANNER_PREFIX_LEN as nat)
    }) + utf8(line)
}

/// Line `i` of a banner on screen, centered and in red. Its width is counted in
/// characters.
pub open spec fn banner_row(i: int, line: Seq<char>, ws: WinSize) -> Seq<u8> {
    let col = minus(ws.cols as int, BANNER_PREFIX_LEN + line.len()) / 2;
    cursor_to(col, 1 + i) + utf8("\x1b[1;31m"@) + banner_line(i, line) + utf8("\x1b[0m"@)
}

/// The lines of a banner on screen, from the second row on.
pub open spec fn banner_rows(lines: Seq<Seq<char>>, ws: WinSize) -> Seq<u8>
    decreases lines.len(),
{
    if lines.len() == 0 {
        Seq::empty()
    } else {
        banner_rows(lines.drop_last(), ws) + banner_row(lines.len() - 1, lines.last(), ws)
    }
}

/// Whether a banner for a message can be drawn: there is room for a character,
/// and its rows can be addressed.
pub open spec fn banner_drawable(message: Seq<char>, ws: WinSize) -> bool {
    &&& ws.cols > 4 || words(message).len() == 0
    &&& banner_lines_of(message, ws).len() < u16::MAX
}

/// Whether [`draw_error_banner`] can draw a banner for a message.
pub fn banner_fits(message: &str, ws: WinSize) -> (r: bool)
    ensures
        r == banner_drawable(message@, ws),
{
    if ws.cols <= 4 {
        let list = split_words(message);
        assert(texts(list@).len() == list@.len());
        if list.len() > 0 {
            return false;
        }
    }
    let lines = banner_lines(message, ws);
    assert(texts(lines@).len() == lines@.len());
    lines.len() < 0xFFFF
}

/// Draw line `i` of an error banner.
fn draw_banner_row(out: &mut Vec<u8>, i: u16, line: &str, ws: WinSize)
    requires
        i < u16::MAX - 1,
    ensures
        final(out)@ == old(out)@ + banner_row(i as int, line@, ws),
{
    let ghost before = out@;
    let len = line.unicode_len();
    let cols: usize = ws.cols as usize;
    let col: usize = cols.saturating_sub(BANNER_PREFIX_LEN).saturating_sub(len) / 2;
    let ghost start = cursor_to(col as int, 1 + i);
    let ghost red = utf8("\x1b[1;31m"@);
    move_to(out, col as u16, 1 + i);
    put(out, "\x1b[1;31m");
    proof {
        lemma_joined(before, start, red);
    }
    let ghost prefix = if i == 0 {
        utf8("⚠ "@)
    } else {
        repeated(utf8(" "@), BANNER_PREFIX_LEN as nat)
    };
    let ghost so_far = out@;
    if i == 0 {
        put(out, "⚠ ");
    } else {
        put_repeat(out, " ", BANNER_PREFIX_LEN);
    }
    put(out, line);
    proof {
        lemma_joined(so_far, prefix, utf8(line@));
        lemma_joined(before, start + red, banner_line(i as int, line@));
    }
    put(out, "\x1b[0m");
    proof {
        lemma_joined(before, start + red + banner_line(i as int, line@), utf8("\x1b[0m"@));
    }
}

/// Draw an error banner at the top of the terminal, wrapping across multiple lines.
pub fn draw_error_banner(out: &mut Vec<u8>, message: &str, ws: WinSize)
    requires
        banner_drawable(message@, ws),
    ensures
        final(out)@ == old(out)@ + banner_rows(banner_lines_of(message@, ws), ws),
{
    let ghost before = out@;
    let lines = banner_lines(message, ws);
    let ghost all = texts(lines@);
    let mut i: usize = 0;
    assert(all.take(0) =~= Seq::empty());
    assert(before + banner_rows(all.take(0), ws) =~= before);
    while i < lines.len()
        invariant
            i <= lines@.len(),
            all == texts(lines@),
            lines@.len() < u16::MAX,
            out@ == before + banner_rows(all.take(i as int), ws),
        decreases lines@.len() - i,
    {
        let line = lines[i].as_str();
        draw_banner_row(out, i as u16, line, ws);
        proof {
            let t = all.take(i + 1);
            assert(t.drop_last() =~= all.take(i as int));
            assert(t.last() == line@);
            lemma_joined(before, banner_rows(t.drop_last(), ws), banner_row(i as int, line@, ws));
        }
        i = i + 1;
    }
    assert(all.take(lines@.len() as int) =~= all);
}

/// Whether the lines of a banner keep to their room: the first one leaves place
/// for the sign.
spec fn in_room(lines: Seq<Seq<char>>, first_max: nat, max: nat) -> bool {
    forall|i: int|
        0 <= i < lines.len() ==> (#[trigger] lines[i]).len() <= (if i == 0 {
            first_max
        } else {
            max
        })
}

proof fn lemma_hard_broken(lines: Seq<Seq<char>>, word: Seq<char>, first_max: nat, max: nat)
    requires
        max > 0,
        in_room(lines, first_max, max),
    ensures
        in_room(hard_broken(lines, word, first_max, max), first_max, max),
        joined(hard_broken(lines, word, first_max, max)) == joined(lines) + word,
    decreases
            word.len(),
            if lines.len() == 0 {
                1nat
            } else {
                0nat
            },
{
    let room = if lines.len() == 0 {
        first_max
    } else {
        max
    };
    let n = (if room <= word.len() {
        room
    } else {
        word.len()
    }) as int;
    if word.len() > 0 {
        let more = lines.push(word.take(n));
        lemma_hard_broken(more, word.skip(n), first_max, max);
        assert(more.drop_last() =~= lines);
        assert(joined(lines) + word.take(n) + word.skip(n) =~= joined(lines) + word);
    } else {
        assert(joined(lines) + word =~= joined(lines));
    }
}

/// A text without its whitespace.
pub open spec fn unspaced(s: Seq<char>) -> Seq<char>
    decreases s.len(),
{
    if s.len() == 0 {
        Seq::empty()
    } else if is_space(s.last()) {
        unspaced(s.drop_last())
    } else {
        unspaced(s.drop_last()).push(s.last())
    }
}

proof fn lemma_unspaced_add(a: Seq<char>, b: Seq<char>)
    ensures
        unspaced(a + b) == unspaced(a) + unspaced(b),
    decreases b.len(),
{
    if b.len() == 0 {
        assert(a + b =~= a);
        assert(unspaced(a) + unspaced(b) =~= unspaced(a));
    } else {
        assert((a + b).drop_last() =~= a + b.drop_last());
        lemma_unspaced_add(a, b.drop_last());
        assert(unspaced(a + b) =~= unspaced(a) + unspaced(b));
    }
}

proof fn lemma_words(s: Seq<char>)
    ensures
        unspaced(joined(words(s))) == unspaced(s),
    decreases s.len(),
{
    if s.len() > 0 {
        lemma_word_len(s);
        if is_space(s[0]) {
            lemma_words(s.skip(1));
            assert(s =~= s.take(1) + s.skip(1));
            lemma_unspaced_add(s.take(1), s.skip(1));
            reveal_with_fuel(unspaced, 2);
            assert(unspaced(s.take(1)) =~= Seq::empty());
            assert(unspaced(s) =~= unspaced(s.skip(1)));
        } else {
            let n = word_len(s) as int;
            let head = s.take(n);
            let rest = words(s.skip(n));
            lemma_words(s.skip(n));
            lemma_joined_front(head, rest);
            lemma_unspaced_add(head, joined(rest));
            lemma_unspaced_add(head, s.skip(n));
            assert(s =~= head + s.skip(n));
        }
    }
}

proof fn lemma_with_word(b: Banner, word: Seq<char>, first_max: nat, max: nat)
    requires
        max > 0,
        first_max <= max,
        in_room(b.lines, first_max, max),
        b.current.len() <= (if b.lines.len() == 0 {
            first_max
        } else {
            max
        }),
    ensures
        ({
            let c = with_word(b, word, first_max, max);
            &&& in_room(c.lines, first_max, max)
            &&& c.current.len() <= (if c.lines.len() == 0 {
                first_max
            } else {
                max
            })
            &&& unspaced(joined(c.lines) + c.current) == unspaced(joined(b.lines) + b.current)
                + unspaced(word)
        }),
{
    let c = with_word(b, word, first_max, max);
    let line_max = if b.lines.len() == 0 {
        first_max
    } else {
        max
    };
    let before = joined(b.lines) + b.current;
    lemma_unspaced_add(before, word);
    if b.current.len() == 0 {
        assert(before =~= joined(b.lines));
        if word.len() > line_max {
            lemma_hard_broken(b.lines, word, first_max, max);
            assert(joined(c.lines) + c.current =~= before + word);
        } else {
            assert(joined(c.lines) + c.current =~= before + word);
        }
    } else if b.current.len() + 1 + word.len() <= line_max {
        let space = seq![' '];
        reveal_with_fuel(unspaced, 2);
        assert(space.drop_last() =~= Seq::empty());
        assert(unspaced(space) =~= Seq::empty());
        lemma_unspaced_add(before, space);
        lemma_unspaced_add(before + space, word);
        assert(joined(c.lines) + c.current =~= before + space + word);
        assert(unspaced(before) + unspaced(space) =~= unspaced(before));
    } else {
        let pushed = b.lines.push(b.current);
        assert(pushed.drop_last() =~= b.lines);
        assert(joined(pushed) == before);
        if word.len() > max {
            lemma_hard_broken(pushed, word, first_max, max);
            assert(joined(c.lines) + c.current =~= before + word);
        } else {
            assert(joined(c.lines) + c.current =~= before + word);
        }
    }
}

proof fn lemma_with_words(list: Seq<Seq<char>>, first_max: nat, max: nat)
    requires
        max > 0,
        first_max <= max,
    ensures
        ({
            let start = Banner { lines: Seq::empty(), current: Seq::empty() };
            let c = with_words(start, list, first_max, max);
            &&& in_room(c.lines, first_max, max)
            &&& c.current.len() <= (if c.lines.len() == 0 {
                first_max
            } else {
                max
            })
            &&& unspaced(joined(c.lines) + c.current) == unspaced(joined(list))
        }),
    decreases list.len(),
{
    let start = Banner { lines: Seq::empty(), current: Seq::empty() };
    if list.len() == 0 {
        assert(joined(start.lines) + start.current =~= Seq::empty());
    } else {
        let b = with_words(start, list.drop_last(), first_max, max);
        lemma_with_words(list.drop_last(), first_max, max);
        lemma_with_word(b, list.last(), first_max, max);
        lemma_unspaced_add(joined(list.drop_last()), list.last());
    }
}

/// Law: no line of a banner, with the sign or the indentation before it, is
/// wider than the terminal, and the lines show the letters of the message, all
/// of them and in order.
pub proof fn law_banner(message: Seq<char>, ws: WinSize)
    requires
        ws.cols > 4,
    ensures
        forall|i: int|
            0 <= i < banner_lines_of(message, ws).len() ==> BANNER_PREFIX_LEN + (
            #[trigger] banner_lines_of(message, ws)[i]).len() <= ws.cols,
        unspaced(joined(banner_lines_of(message, ws))) == unspaced(message),
{
    let max = minus(ws.cols as int, 4) as nat;
    let first_max = minus(max as int, BANNER_PREFIX_LEN as int) as nat;
    let list = words(message);
    let start = Banner { lines: Seq::empty(), current: Seq::empty() };
    let b = with_words(start, list, first_max, max);
    lemma_with_words(list, first_max, max);
    lemma_words(message);
    let lines = banner_lines_of(message, ws);
    if b.current.len() > 0 {
        assert(lines.drop_last() =~= b.lines);
    } else {
        assert(joined(b.lines) + b.current =~= joined(b.lines));
        if b.lines.len() == 0 {
            reveal_with_fuel(joined, 2);
            assert(lines.drop_last() =~= Seq::empty());
            assert(joined(lines) =~= Seq::empty());
        }
    }
}

// ---------------------------------------------------------------------------
// Log pane
// ---------------------------------------------------------------------------
/// Ring buffer of log lines for display in the TUI.
pub struct LogBuffer {
    lines: Vec<String>,
    capacity: usize,
}

impl View for LogBuffer {
    type V = Seq<Seq<char>>;

    closed spec fn view(&self) -> Seq<Seq<char>> {
        texts(self.lines@)
    }
}

/// The last `n` elements of `s`, or all if there are fewer.
pub open spec fn tail<T>(s: Seq<T>, n: int) -> Seq<T> {
    if s.len() <= n {
        s
    } else {
        s.skip(s.len() - n)
    }
}

impl LogBuffer {
    pub closed spec fn capacity(self) -> usize {
        self.capacity
    }

    pub fn new(capacity: usize) -> (r: LogBuffer)
        ensures
            r@ == Seq::<Seq<char>>::empty(),
            r.capacity() == capacity,
    {
        let r = LogBuffer { lines: Vec::new(), capacity };
        assert(r@ =~= Seq::empty());
        r
    }

    /// Add a line; the oldest one goes if the buffer is full.
    pub fn push(&mut self, line: String)
        requires
            old(self).capacity() > 0,
            old(self)@.len() <= old(self).capacity(),
        ensures
            final(self).capacity() == old(self).capacity(),
            final(self)@ == tail(old(self)@.push(line@), old(self).capacity() as int),
            final(self)@.len() <= final(self).capacity(),
    {
        let ghost before = self@;
        if self.lines.len() >= self.capacity {
            self.lines.remove(0);
        }
        self.lines.push(line);
        assert(self@ =~= tail(before.push(line@), self.capacity as int));
    }

    pub fn len(&self) -> (n: usize)
        ensures
            n == self@.len(),
    {
        self.lines.len()
    }

    /// The lines, oldest first.
    pub fn lines(&self) -> (r: Vec<String>)
        ensures
            texts(r@) == self@,
    {
        let mut out: Vec<String> = Vec::new();
        let mut i: usize = 0;
        while i < self.lines.len()
            invariant
                i <= self.lines@.len(),
                out@.len() == i,
                forall|k: int| 0 <= k < i ==> (#[trigger] out@[k])@ == self.lines@[k]@,
            decreases self.lines@.len() - i,
        {
            out.push(self.lines[i].clone());
            i = i + 1;
        }
        assert(texts(out@) =~= self@);
        out
    }
}

/// Law: a log buffer that line after line is pushed into holds the latest
/// lines, as many as its capacity. What it holds after `lines` and one more is
/// told by what it held after `lines`.
pub proof fn law_log_keeps_latest(lines: Seq<Seq<char>>, line: Seq<char>, capacity: int)
    requires
        capacity > 0,
    ensures
        tail(tail(lines, capacity).push(line), capacity) == tail(lines.push(line), capacity),
{
    assert(tail(tail(lines, capacity).push(line), capacity) =~= tail(lines.push(line), capacity));
}

/// The first `n` characters of a text.
pub open spec fn first_chars(t: Seq<char>, n: int) -> Seq<char> {
    if t.len() <= n {
        t
    } else {
        t.take(n)
    }
}

/// A log line on screen, dimmed and cut to the terminal's width.
pub open spec fn log_row(line: Seq<char>, row: int, cols: int) -> Seq<u8> {
    cursor_to(0, row) + utf8("\x1b[2K\x1b[2m"@) + utf8(first_chars(line, cols)) + utf8("\x1b[0m"@)
}

/// Log lines on screen from `row` on.
pub open spec fn log_rows(lines: Seq<Seq<char>>, row: int, cols: int) -> Seq<u8>
    decreases lines.len(),
{
    if lines.len() == 0 {
        Seq::empty()
    } else {
        log_rows(lines.drop_last(), row, cols) + log_row(
            lines.last(),
            row + lines.len() - 1,
            cols,
        )
    }
}

/// Draw one line of the log pane.
fn draw_log_row(out: &mut Vec<u8>, line: &str, row: u16, cols: usize)
    requires
        row < u16::MAX,
    ensures
        final(out)@ == old(out)@ + log_row(line@, row as int, cols as int),
{
    let ghost before = out@;
    let ghost start = cursor_to(0, row as int);
    let ghost dim = utf8("\x1b[2K\x1b[2m"@);
    move_to(out, 0, row);
    put(out, "\x1b[2K\x1b[2m");
    let len = line.unicode_len();
    let shown_len: usize = if len <= cols {
        len
    } else {
        cols
    };
    let cut = line.substring_char(0, shown_len);
    assert(cut@ =~= first_chars(line@, cols as int));
    put(out, cut);
    put(out, "\x1b[0m");
    proof {
        lemma_joined(before, start, dim);
        lemma_joined(before, start + dim, utf8(cut@));
        lemma_joined(before, start + dim + utf8(cut@), utf8("\x1b[0m"@));
    }
}

/// Whether every row of a log pane that shows up to `max_lines` of `n` lines can be
/// addressed.
pub open spec fn log_pane_drawable(n: int, max_lines: int, ws: WinSize) -> bool {
    &&& max_lines < usize::MAX
    &&& minus(ws.rows as int, max_lines + 1) + (if n <= max_lines {
        n
    } else {
        max_lines
    }) <= u16::MAX
}

/// Whether [`draw_log_pane`] can draw a log.
pub fn log_pane_fits(log_buf: &LogBuffer, max_lines: usize, ws: WinSize) -> (r: bool)
    ensures
        r == log_pane_drawable(log_buf@.len() as int, max_lines as int, ws),
{
    if max_lines == usize::MAX {
        return false;
    }
    let start_row: usize = (ws.rows as usize).saturating_sub(max_lines + 1);
    let n = log_buf.lines.len();
    let shown: usize = if n <= max_lines {
        n
    } else {
        max_lines
    };
    shown <= 0xFFFF && start_row <= 0xFFFF - shown
}

/// Draw the log pane at the bottom of the terminal (above the status line).
pub fn draw_log_pane(out: &mut Vec<u8>, log_buf: &LogBuffer, max_lines: usize, ws: WinSize)
    requires
        log_pane_drawable(log_buf@.len() as int, max_lines as int, ws),
    ensures
        final(out)@ == old(out)@ + log_rows(
            tail(log_buf@, max_lines as int),
            minus(ws.rows as int, max_lines + 1),
            ws.cols as int,
        ),
{
    let ghost before = out@;
    let start_row: usize = (ws.rows as usize).saturating_sub(max_lines + 1);
    let n = log_buf.lines.len();
    let first: usize = n.saturating_sub(max_lines);
    let ghost shown = tail(log_buf@, max_lines as int);
    let mut i: usize = first;
    let cols: usize = ws.cols as usize;
    assert(shown.take(0) =~= Seq::empty());
    assert(before + log_rows(shown.take(0), start_row as int, cols as int) =~= before);
    while i < n
        invariant
            n == log_buf.lines@.len(),
            first <= i <= n,
            start_row + (n - first) <= u16::MAX,
            start_row == minus(ws.rows as int, max_lines + 1),
            cols == ws.cols,
            shown.len() == n - first,
            forall|k: int| 0 <= k < shown.len() ==> #[trigger] shown[k] == log_buf.lines@[k + first]@,
            out@ == before + log_rows(shown.take(i - first), start_row as int, cols as int),
        decreases n - i,
    {
        let k: usize = i - first;
        let line = log_buf.lines[i].as_str();
        draw_log_row(out, line, (start_row + k) as u16, cols);
        proof {
            let t = shown.take(k + 1);
            assert(t.drop_last() =~= shown.take(k as int));
            assert(shown[k as int] == log_buf.lines@[i as int]@);
            assert(t.last() == line@);
            lemma_joined(
                before,
                log_rows(t.drop_last(), start_row as int, cols as int),
                log_row(line@, start_row + k, cols as int),
            );
        }
        i = i + 1;
    }
    assert(shown.take(n - first) =~= shown);
}

// ---------------------------------------------------------------------------
// Laws
// ---------------------------------------------------------------------------
/// Law: a line is only cut where it is full: every piece but the last has exactly
/// the width, no piece is empty unless the line is, and without a width there is
/// nothing to cut at.
pub proof fn law_pieces(s: Seq<char>, width: nat, i: int)
    requires
        0 <= i < pieces(s, width).len(),
    ensures
        width > 0 && i < pieces(s, width).len() - 1 ==> pieces(s, width)[i].len() == width,
        s.len() > 0 ==> pieces(s, width)[i].len() > 0,
        width == 0 || s.len() <= width ==> pieces(s, width) == seq![s],
    decreases s.len(),
{
    if width > 0 && s.len() > width {
        let rest = pieces(s.skip(width as int), width);
        if i > 0 {
            assert(pieces(s, width)[i] == rest[i - 1]);
            law_pieces(s.skip(width as int), width, i - 1);
        }
    }
}

/// Law: a text is filled up to the width with spaces; one that is as wide or wider
/// gets none.
pub proof fn law_padded(t: Seq<char>, width: int)
    ensures
        t.len() <= width ==> padded(t, width) == utf8(t) + repeated(
            utf8(" "@),
            (width - t.len()) as nat,
        ),
        t.len() >= width ==> padded(t, width) == utf8(t),
{
    if t.len() >= width {
        assert(padded(t, width) =~= utf8(t));
    }
}

/// Law: the lines of a box stand one below the other, each between two bars and
/// filled up to the width.
pub proof fn law_box_lines(lines: Seq<Seq<char>>, line: Seq<char>, col: int, row: int, width: int)
    ensures
        box_lines(Seq::empty(), col, row, width) == Seq::<u8>::empty(),
        box_lines(lines.push(line), col, row, width) == box_lines(lines, col, row, width)
            + cursor_to(col, row + lines.len()) + utf8("│ "@) + padded(line, width) + utf8(" │"@),
{
    assert(lines.push(line).drop_last() =~= lines);
}

/// Law: how a box is drawn: a rule, the title in the middle of the next row, another
/// rule, the lines, and a rule below them. The rules are as wide as the lines with a
/// space on both sides.
pub proof fn law_box(title: Seq<char>, lines: Seq<Seq<char>>, col: int, row: int, width: int)
    requires
        title.len() <= width + 2,
    ensures
        ({
            let rule = repeated(utf8("─"@), (width + 2) as nat);
            let left = (width + 2 - title.len()) / 2;
            let right = width + 2 - title.len() - left;
            let head = utf8("│"@) + repeated(utf8(" "@), left as nat) + utf8(title) + repeated(
                utf8(" "@),
                right as nat,
            ) + utf8("│"@);
            &&& 0 <= left <= right <= left + 1
            &&& box_at(title, lines, col, row, width) == cursor_to(col, row) + (utf8("╭"@) + rule
                + utf8("╮"@)) + cursor_to(col, row + 1) + head + cursor_to(col, row + 2) + (utf8(
                "├"@,
            ) + rule + utf8("┤"@)) + box_lines(lines, col, row + 3, width) + cursor_to(
                col,
                row + 3 + lines.len(),
            ) + (utf8("╰"@) + rule + utf8("╯"@))
        }),
{
}

/// Law: no line is longer than the longest, and one of them is as long.
pub proof fn law_longest(lines: Seq<Seq<char>>)
    ensures
        forall|i: int| 0 <= i < lines.len() ==> (#[trigger] lines[i]).len() <= longest(lines),
        lines.len() > 0 ==> exists|i: int|
            0 <= i < lines.len() && (#[trigger] lines[i]).len() == longest(lines),
        lines.len() == 0 ==> longest(lines) == 0,
    decreases lines.len(),
{
    if lines.len() > 0 {
        let rest = lines.drop_last();
        law_longest(rest);
        assert forall|i: int| 0 <= i < lines.len() implies (#[trigger] lines[i]).len() <= longest(
            lines,
        ) by {
            if i < rest.len() {
                assert(rest[i] == lines[i]);
            }
        }
        if longest(lines) == lines.last().len() {
            assert(lines[lines.len() - 1].len() == longest(lines));
        } else if rest.len() > 0 {
            let i = choose|i: int|
                0 <= i < rest.len() && (#[trigger] rest[i]).len() == longest(rest);
            assert(lines[i].len() == longest(lines));
        }
    }
}

/// Law: a box is as wide as its longest line and its title need, but not less than
/// 20, and never more than eight columns less than the terminal.
pub proof fn law_content_width(longest: int, title: int, ws: WinSize)
    ensures
        ({
            let w = content_width(longest, title, ws);
            let max = if ws.cols >= 8 {
                ws.cols - 8
            } else {
                0
            };
            &&& w <= max
            &&& w < max ==> w >= longest && w >= title && w >= 20
            &&& w == longest || w == title || w == 20 || w == max
            &&& longest <= max && title <= max && 20 <= max ==> w >= longest && w >= title && w
                >= 20
        }),
{
}

/// Law: the lines of a box are wrapped one by one: a line that fits stays as it is,
/// and any other is replaced by its pieces.
pub proof fn law_all_wrapped(lines: Seq<Seq<char>>, line: Seq<char>, max: nat)
    ensures
        all_wrapped(Seq::empty(), max) == Seq::<Seq<char>>::empty(),
        line.len() <= max ==> all_wrapped(lines.push(line), max) == all_wrapped(lines, max).push(
            line,
        ),
        line.len() > max ==> all_wrapped(lines.push(line), max) == all_wrapped(lines, max)
            + pieces(line, max),
{
    assert(lines.push(line).drop_last() =~= lines);
    if line.len() <= max {
        assert(all_wrapped(lines.push(line), max) =~= all_wrapped(lines, max).push(line));
    }
}

/// Law: a box stands in the middle of the terminal, with as much room on both sides,
/// or one more column or row behind it; one that is larger stands at the edge.
pub proof fn law_centered_box(title: Seq<char>, lines: Seq<Seq<char>>, ws: WinSize, extra: int)
    requires
        0 <= extra,
    ensures
        ({
            let width = content_width(longest(lines), title.len() as int, ws);
            let (w, h) = (width + 4, lines.len() + 4 + extra);
            let col = if w <= ws.cols {
                (ws.cols - w) / 2
            } else {
                0
            };
            let row = if h <= ws.rows {
                (ws.rows - h) / 2
            } else {
                0
            };
            &&& centered_box(title, lines, ws, extra) == box_at(title, lines, col, row, width)
            &&& box_end(lines.len() as int, ws, extra) == row + 3 + lines.len()
            &&& title_fits(title, lines, ws) <==> title.len() <= width + 2
        }),
{
}

/// Law: whitespace separates words: those of two texts with whitespace between them
/// are the words of the first and then those of the second.
pub proof fn law_words(a: Seq<char>, c: char, b: Seq<char>)
    requires
        is_space(c),
    ensures
        words(a + seq![c] + b) == words(a) + words(b),
    decreases a.len(),
{
    let s = a + seq![c] + b;
    if a.len() == 0 {
        assert(s.skip(1) =~= b);
        assert(words(a) + words(b) =~= words(b));
    } else if is_space(a[0]) {
        law_words(a.skip(1), c, b);
        assert(s.skip(1) =~= a.skip(1) + seq![c] + b);
    } else {
        lemma_word_len(a);
        lemma_word_ends(a, c, b);
        let n = word_len(a) as int;
        law_words(a.skip(n), c, b);
        assert(s.skip(n) =~= a.skip(n) + seq![c] + b);
        assert(s.take(n) =~= a.take(n));
        assert(words(s) =~= words(a) + words(b));
    }
}

/// A word ends at the latest where whitespace follows.
proof fn lemma_word_ends(a: Seq<char>, c: char, b: Seq<char>)
    requires
        is_space(c),
    ensures
        word_len(a + seq![c] + b) == word_len(a),
    decreases a.len(),
{
    let s = a + seq![c] + b;
    if a.len() > 0 && !is_space(a[0]) {
        lemma_word_ends(a.skip(1), c, b);
        assert(s.skip(1) =~= a.skip(1) + seq![c] + b);
    }
}

/// Law: characters without whitespace are one word, and nothing is none.
pub proof fn law_one_word(w: Seq<char>)
    requires
        forall|i: int| 0 <= i < w.len() ==> !is_space(#[trigger] w[i]),
    ensures
        w.len() > 0 ==> words(w) == seq![w],
        w.len() == 0 ==> words(w).len() == 0,
{
    if w.len() > 0 {
        lemma_whole_word(w);
        let n = word_len(w) as int;
        assert(w.take(n) =~= w);
        assert(w.skip(n) =~= Seq::empty());
        assert(words(w.skip(n)).len() == 0);
        assert(words(w) =~= seq![w]);
    }
}

proof fn lemma_whole_word(w: Seq<char>)
    requires
        forall|i: int| 0 <= i < w.len() ==> !is_space(#[trigger] w[i]),
    ensures
        word_len(w) == w.len(),
    decreases w.len(),
{
    if w.len() > 0 {
        let rest = w.skip(1);
        assert forall|i: int| 0 <= i < rest.len() implies !is_space(#[trigger] rest[i]) by {
            assert(rest[i] == w[i + 1]);
        }
        lemma_whole_word(rest);
    }
}

/// Law: where the next word of a banner goes. It goes on in the line under way, with
/// a space before it, if it fits there; else it starts a line of its own; and one
/// that is longer than a line is broken.
pub proof fn law_next_word(b: Banner, word: Seq<char>, first_max: nat, max: nat)
    ensures
        ({
            let c = with_word(b, word, first_max, max);
            let room = if b.lines.len() == 0 {
                first_max
            } else {
                max
            };
            &&& b.current.len() == 0 && word.len() <= room ==> c.lines == b.lines && c.current
                == word
            &&& b.current.len() > 0 && b.current.len() + 1 + word.len() <= room ==> c.lines
                == b.lines && c.current == b.current.push(' ') + word
            &&& b.current.len() > 0 && b.current.len() + 1 + word.len() > room && word.len() <= max
                ==> c.lines == b.lines.push(b.current) && c.current == word
            &&& b.current.len() == 0 && word.len() > room ==> c.lines == hard_broken(
                b.lines,
                word,
                first_max,
                max,
            ) && c.current.len() == 0
            &&& b.current.len() > 0 && b.current.len() + 1 + word.len() > room && word.len() > max
                ==> c.lines == hard_broken(b.lines.push(b.current), word, first_max, max)
                && c.current.len() == 0
        }),
        with_words(b, Seq::empty(), first_max, max) == b,
{
    assert(b.current + seq![' '] + word =~= b.current.push(' ') + word);
}

/// Law: a word that is broken fills every line but the last.
pub proof fn law_hard_break(lines: Seq<Seq<char>>, word: Seq<char>, first_max: nat, max: nat)
    requires
        word.len() > 0,
    ensures
        ({
            let room = if lines.len() == 0 {
                first_max
            } else {
                max
            };
            &&& 0 < room < word.len() ==> hard_broken(lines, word, first_max, max) == hard_broken(
                lines.push(word.take(room as int)),
                word.skip(room as int),
                first_max,
                max,
            )
            &&& word.len() <= room ==> hard_broken(lines, word, first_max, max) == lines.push(word)
        }),
{
    let room = if lines.len() == 0 {
        first_max
    } else {
        max
    };
    if word.len() <= room {
        let n = word.len() as int;
        assert(word.take(n) =~= word);
        assert(word.skip(n).len() == 0);
        assert(hard_broken(lines.push(word), word.skip(n), first_max, max) == lines.push(word));
    }
}

/// Law: a banner leaves four columns free, four more in its first line, and has at
/// least one line; its words follow each other.
pub proof fn law_banner_lines(message: Seq<char>, ws: WinSize)
    ensures
        ({
            let max: nat = if ws.cols >= 4 {
                (ws.cols - 4) as nat
            } else {
                0
            };
            let first_max: nat = if ws.cols >= 8 {
                (ws.cols - 8) as nat
            } else {
                0
            };
            let b = with_words(
                Banner { lines: Seq::empty(), current: Seq::empty() },
                words(message),
                first_max,
                max,
            );
            let lines = banner_lines_of(message, ws);
            &&& b.current.len() > 0 ==> lines == b.lines.push(b.current)
            &&& b.current.len() == 0 && b.lines.len() > 0 ==> lines == b.lines
            &&& b.current.len() == 0 && b.lines.len() == 0 ==> lines == seq![Seq::<char>::empty()]
        }),
        BANNER_PREFIX_LEN == 4,
{
}

/// Law: how a banner is drawn: its lines from the second row on, each in the middle,
/// in bold and red; a sign stands before the first, and four spaces before the
/// others.
pub proof fn law_banner_rows(lines: Seq<Seq<char>>, line: Seq<char>, ws: WinSize)
    ensures
        banner_rows(Seq::empty(), ws) == Seq::<u8>::empty(),
        ({
            let i = lines.len() as int;
            let free = if line.len() + 4 <= ws.cols {
                ws.cols - line.len() - 4
            } else {
                0
            };
            let before = if i == 0 {
                utf8("⚠ "@)
            } else {
                repeated(utf8(" "@), 4)
            };
            banner_rows(lines.push(line), ws) == banner_rows(lines, ws) + (cursor_to(
                free / 2,
                1 + i,
            ) + utf8("\x1b[1;31m"@) + (before + utf8(line)) + utf8("\x1b[0m"@))
        }),
{
    assert(lines.push(line).drop_last() =~= lines);
}

/// Law: a banner can be drawn exactly if there is room for a character, or no word to
/// draw, and its rows can be counted in 16 bits.
pub proof fn law_banner_drawable(message: Seq<char>, ws: WinSize)
    ensures
        banner_drawable(message, ws) <==> (ws.cols > 4 || words(message).len() == 0)
            && banner_lines_of(message, ws).len() < 0xFFFF,
{
}

/// Law: of a list that is too long the last elements are kept, in their order.
pub proof fn law_tail<T>(s: Seq<T>, n: int, i: int)
    requires
        0 <= n,
        0 <= i < tail(s, n).len(),
    ensures
        s.len() <= n ==> tail(s, n) == s,
        s.len() > n ==> tail(s, n).len() == n,
        tail(s, n)[i] == s[s.len() - tail(s, n).len() + i],
{
}

/// Law: a log line is cut to the columns of the terminal, never in the middle of a
/// character, and one that fits is shown in full.
pub proof fn law_log_row(line: Seq<char>, row: int, cols: int)
    requires
        cols >= 0,
    ensures
        line.len() <= cols ==> first_chars(line, cols) == line,
        line.len() > cols ==> first_chars(line, cols).len() == cols,
        forall|i: int|
            0 <= i < first_chars(line, cols).len() ==> #[trigger] first_chars(line, cols)[i]
                == line[i],
        log_row(line, row, cols) == cursor_to(0, row) + utf8("\x1b[2K\x1b[2m"@) + utf8(
            first_chars(line, cols),
        ) + utf8("\x1b[0m"@),
{
}

/// Law: log lines stand one below the other.
pub proof fn law_log_rows(lines: Seq<Seq<char>>, line: Seq<char>, row: int, cols: int)
    ensures
        log_rows(Seq::empty(), row, cols) == Seq::<u8>::empty(),
        log_rows(lines.push(line), row, cols) == log_rows(lines, row, cols) + log_row(
            line,
            row + lines.len(),
            cols,
        ),
{
    assert(lines.push(line).drop_last() =~= lines);
}

/// Law: a log pane can be drawn exactly if the last of its rows can be counted in 16
/// bits.
pub proof fn law_log_pane_drawable(n: int, max_lines: int, ws: WinSize)
    requires
        0 <= n,
        0 <= max_lines < usize::MAX,
    ensures
        ({
            let top = if ws.rows >= max_lines + 1 {
                ws.rows - max_lines - 1
            } else {
                0
            };
            let shown = if n <= max_lines {
                n
            } else {
                max_lines
            };
            log_pane_drawable(n, max_lines, ws) <==> top + shown < 0x1_0000
        }),
{
}

} // verus!
