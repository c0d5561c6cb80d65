//! Minimal terminal utilities: cursor movement, sizes and key presses.

use vstd::prelude::*;
use vstd::utf8::is_ascii_chars_encode_utf8;

use crate::text::{decimal, put, put_dec, utf8};

verus! {

/// Written when raw mode starts.
pub const HIDE_CURSOR: &'static str = "\x1b[?25l";

/// Written when raw mode ends.
pub const SHOW_CURSOR: &'static str = "\x1b[?25h";

/// Terminal size in cells and pixels.
#[derive(Debug, Clone, Copy, PartialEq, Eq, Structural)]
pub struct WinSize {
    pub cols: u16,
    pub rows: u16,
    pub x_pixel: u16,
    pub y_pixel: u16,
}

impl WinSize {
    /// Size of a terminal cell in pixels, if it is known and not zero.
    pub open spec fn cell(self) -> Option<(u32, u32)> {
        if self.x_pixel == 0 || self.y_pixel == 0 || self.cols == 0 || self.rows == 0 {
            None
        } else {
            let w = self.x_pixel as int / self.cols as int;
            let h = self.y_pixel as int / self.rows as int;
            if w == 0 || h == 0 {
                None
            } else {
                Some((w as u32, h as u32))
            }
        }
    }

    /// Size of a terminal cell in pixels, if it is known and not zero.
    pub fn cell_size(&self) -> (r: Option<(u32, u32)>)
        ensures
            r == self.cell(),
            r matches Some(c) ==> 1 <= c.0 <= u16::MAX && 1 <= c.1 <= u16::MAX,
    {
        if self.x_pixel == 0 || self.y_pixel == 0 || self.cols == 0 || self.rows == 0 {
            return None;
        }
        let w: u32 = (self.x_pixel / self.cols) as u32;
        let h: u32 = (self.y_pixel / self.rows) as u32;
        if w == 0 || h == 0 {
            return None;
        }
        Some((w, h))
    }
}

/// The sequence that moves the cursor to a cell; rows and columns count from 1.
pub open spec fn cursor_to(col: int, row: int) -> Seq<u8> {
    utf8("\x1b["@) + decimal((row + 1) as nat) + utf8(";"@) + decimal((col + 1) as nat) + utf8("H"@)
}

/// Move cursor to (col, row), 0-indexed. Emits CSI sequence directly.
pub fn move_to(out: &mut Vec<u8>, col: u16, row: u16)
    requires
        col < u16::MAX,
        row < u16::MAX,
    ensures
        final(out)@ == old(out)@ + cursor_to(col as int, row as int),
{
    let ghost before = out@;
    put(out, "\x1b[");
    put_dec(out, row as u64 + 1);
    put(out, ";");
    put_dec(out, col as u64 + 1);
    put(out, "H");
    assert(out@ =~= before + cursor_to(col as int, row as int));
}

/// A key press.
#[derive(Debug, Clone, Copy, PartialEq, Eq, Structural)]
pub enum KeyPress {
    Char(char),
    CtrlC,
    Escape,
}

/// The key press that the bytes read from the terminal stand for. An escape
/// sequence is not interpreted further. No bytes are no key press.
pub fn read_key(bytes: &[u8]) -> (r: Option<KeyPress>)
    ensures
        r == (if bytes@.len() == 0 {
            None
        } else if bytes@[0] == 3 {
            Some(KeyPress::CtrlC)
        } else if bytes@[0] == 0x1b {
            Some(KeyPress::Escape)
        } else {
            Some(KeyPress::Char(bytes@[0] as char))
        }),
{
    if bytes.len() == 0 {
        return None;
    }
    let b: u8 = bytes[0];
    if b == 3 {
        Some(KeyPress::CtrlC)
    } else if b == 0x1b {
        Some(KeyPress::Escape)
    } else {
        Some(KeyPress::Char(b as char))
    }
}

/// Law: the bytes that move the cursor: `ESC [`, the row, `;`, the column and `H`,
/// both counted from one.
pub proof fn law_cursor_to(col: nat, row: nat)
    ensures
        cursor_to(col as int, row as int) == seq![27u8, 91u8] + decimal(row + 1) + seq![59u8]
            + decimal(col + 1) + seq![72u8],
{
    reveal_strlit("\x1b[");
    reveal_strlit(";");
    reveal_strlit("H");
    is_ascii_chars_encode_utf8("\x1b["@);
    is_ascii_chars_encode_utf8(";"@);
    is_ascii_chars_encode_utf8("H"@);
    assert(utf8("\x1b["@) =~= seq![27u8, 91u8]);
    assert(utf8(";"@) =~= seq![59u8]);
    assert(utf8("H"@) =~= seq![72u8]);
}

/// Law: a cell is as large as it can be for all columns and rows to fit; it is not
/// known where any size is missing or a cell would be empty.
pub proof fn law_cell(s: WinSize)
    ensures
        s.cell() is Some <==> s.cols > 0 && s.rows > 0 && s.x_pixel >= s.cols && s.y_pixel
            >= s.rows,
        s.cell() is Some ==> {
            let (w, h) = s.cell()->0;
            &&& w * s.cols <= s.x_pixel < (w + 1) * s.cols
            &&& h * s.rows <= s.y_pixel < (h + 1) * s.rows
        },
{
    if s.cols > 0 && s.rows > 0 {
        lemma_quotient(s.x_pixel as int, s.cols as int);
        lemma_quotient(s.y_pixel as int, s.rows as int);
    }
}

proof fn lemma_quotient(a: int, b: int)
    requires
        a >= 0,
        b > 0,
    ensures
        a / b * b <= a < (a / b + 1) * b,
        a / b == 0 <==> a < b,
        0 <= a / b <= a,
{
    assert(a / b * b <= a < (a / b + 1) * b && (a / b == 0 <==> a < b) && 0 <= a / b <= a)
        by (nonlinear_arith)
        requires
            a >= 0,
            b > 0,
    ;
}

} // verus!
