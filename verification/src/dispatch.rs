//! What the terminal does with each parser action: printed characters,
//! control bytes, CSI sequences (cursor motion, erase, SGR attributes,
//! modes) and OSC sequences (title, hyperlinks).

use vstd::prelude::*;
use vstd::utf8::{decode_utf8, valid_utf8};
use crate::grid::{blank_row, plain_attrs, CellAttrs, Color, GridView};
use crate::terminal::{
    dirty_with, enter_alt, execute, min_us, print, sat_sub, strings_view, with_cursor, Cursor,
    EventView, TermView, Terminal, TerminalEvent,
};
use crate::text::{lossy_utf8_bytes, utf8_lossy, utf8_string};
use crate::vt::{action_view, actions_view, ActionView, VtAction};

verus! {

broadcast use vstd::std_specs::hash::group_hash_axioms;

/// Parameter `i` when present and non-zero, else the default `d`.
pub open spec fn param_or(list: Seq<u16>, i: int, d: u16) -> u16 {
    if 0 <= i < list.len() && list[i] > 0 {
        list[i]
    } else {
        d
    }
}

fn param(list: &[u16], i: usize, d: u16) -> (v: u16)
    ensures
        v == param_or(list@, i as int, d),
{
    if i < list.len() && list[i] > 0 {
        list[i]
    } else {
        d
    }
}

/// Attributes after one SGR parameter (other than 38/48).
pub open spec fn sgr_attr(a: CellAttrs, v: u16) -> CellAttrs {
    if v == 0 {
        plain_attrs()
    } else if v == 1 {
        CellAttrs { bold: true, ..a }
    } else if v == 3 {
        CellAttrs { italic: true, ..a }
    } else if v == 4 {
        CellAttrs { underline: true, ..a }
    } else if v == 9 {
        CellAttrs { strikethrough: true, ..a }
    } else if v == 7 {
        CellAttrs { inverse: true, ..a }
    } else if v == 22 {
        CellAttrs { bold: false, italic: false, ..a }
    } else if v == 24 {
        CellAttrs { underline: false, ..a }
    } else if v == 27 {
        CellAttrs { inverse: false, ..a }
    } else if 30 <= v <= 37 {
        CellAttrs { fg: Color::Indexed((v - 30) as u8), ..a }
    } else if v == 39 {
        CellAttrs { fg: Color::Default, ..a }
    } else if 40 <= v <= 47 {
        CellAttrs { bg: Color::Indexed((v - 40) as u8), ..a }
    } else if v == 49 {
        CellAttrs { bg: Color::Default, ..a }
    } else if 90 <= v <= 97 {
        CellAttrs { fg: Color::Indexed((v - 90 + 8) as u8), ..a }
    } else if 100 <= v <= 107 {
        CellAttrs { bg: Color::Indexed((v - 100 + 8) as u8), ..a }
    } else {
        a
    }
}

fn apply_sgr(a: CellAttrs, v: u16) -> (r: CellAttrs)
    ensures
        r == sgr_attr(a, v),
{
    let mut a = a;
    if v == 0 {
        a = CellAttrs::default();
    } else if v == 1 {
        a.bold = true;
    } else if v == 3 {
        a.italic = true;
    } else if v == 4 {
        a.underline = true;
    } else if v == 9 {
        a.strikethrough = true;
    } else if v == 7 {
        a.inverse = true;
    } else if v == 22 {
        a.bold = false;
        a.italic = false;
    } else if v == 24 {
        a.underline = false;
    } else if v == 27 {
        a.inverse = false;
    } else if 30 <= v && v <= 37 {
        a.fg = Color::Indexed((v - 30) as u8);
    } else if v == 39 {
        a.fg = Color::Default;
    } else if 40 <= v && v <= 47 {
        a.bg = Color::Indexed((v - 40) as u8);
    } else if v == 49 {
        a.bg = Color::Default;
    } else if 90 <= v && v <= 97 {
        a.fg = Color::Indexed((v - 90 + 8) as u8);
    } else if 100 <= v && v <= 107 {
        a.bg = Color::Indexed((v - 100 + 8) as u8);
    }
    a
}

/// Color of an SGR 38/48 at index `i`: `;5;n` (palette index, taken modulo
/// 256) or `;2;r;g;b` (each taken modulo 256); `None` when the form is
/// unknown or its values are missing.
pub open spec fn color_at(list: Seq<u16>, i: int) -> Option<Color> {
    if i + 1 < list.len() && list[i + 1] == 5 {
        if i + 2 < list.len() {
            Some(Color::Indexed(list[i + 2] as u8))
        } else {
            None
        }
    } else if i + 1 < list.len() && list[i + 1] == 2 {
        if i + 4 < list.len() {
            Some(Color::Rgb(list[i + 2] as u8, list[i + 3] as u8, list[i + 4] as u8))
        } else {
            None
        }
    } else {
        None
    }
}

/// Parameters an SGR 38/48 at index `i` takes, itself included.
pub open spec fn color_len(list: Seq<u16>, i: int) -> int {
    if i + 1 < list.len() && list[i + 1] == 5 {
        3
    } else if i + 1 < list.len() && list[i + 1] == 2 {
        5
    } else {
        1
    }
}

fn parse_color(list: &[u16], i: usize) -> (c: Option<Color>)
    requires
        i < list@.len(),
    ensures
        c == color_at(list@, i as int),
{
    let left = list.len() - i;
    if left > 1 && list[i + 1] == 5 {
        if left > 2 {
            Some(Color::Indexed(list[i + 2] as u8))
        } else {
            None
        }
    } else if left > 1 && list[i + 1] == 2 {
        if left > 4 {
            Some(Color::Rgb(list[i + 2] as u8, list[i + 3] as u8, list[i + 4] as u8))
        } else {
            None
        }
    } else {
        None
    }
}

fn color_param_consumed(list: &[u16], i: usize) -> (n: usize)
    requires
        i < list@.len(),
    ensures
        n == color_len(list@, i as int),
{
    let left = list.len() - i;
    if left > 1 && list[i + 1] == 5 {
        3
    } else if left > 1 && list[i + 1] == 2 {
        5
    } else {
        1
    }
}

/// Attributes after the SGR parameters from index `i` on, in order; a 38/48
/// sets the foreground/background from the values after it, which it takes.
pub open spec fn sgr_run(a: CellAttrs, list: Seq<u16>, i: int) -> CellAttrs
    decreases list.len() - i,
{
    if i < 0 || i >= list.len() {
        a
    } else {
        let v = list[i];
        if v == 38 || v == 48 {
            let a2 = match color_at(list, i) {
                Some(c) => if v == 38 {
                    CellAttrs { fg: c, ..a }
                } else {
                    CellAttrs { bg: c, ..a }
                },
                None => a,
            };
            let k = color_len(list, i);
            let next = if i + k <= list.len() {
                i + k
            } else {
                list.len() as int
            };
            sgr_run(a2, list, next)
        } else {
            sgr_run(sgr_attr(a, v), list, i + 1)
        }
    }
}

fn sgr_attrs(a: CellAttrs, list: &[u16]) -> (r: CellAttrs)
    ensures
        r == sgr_run(a, list@, 0),
{
    let ghost a0 = a;
    let mut a = a;
    let mut i: usize = 0;
    while i < list.len()
        invariant
            i <= list@.len(),
            sgr_run(a, list@, i as int) == sgr_run(a0, list@, 0),
        decreases list@.len() - i,
    {
        let v = list[i];
        if v == 38 || v == 48 {
            match parse_color(list, i) {
                Some(c) => {
                    if v == 38 {
                        a.fg = c;
                    } else {
                        a.bg = c;
                    }
                },
                None => {},
            }
            let k = color_param_consumed(list, i);
            i = if k <= list.len() - i {
                i + k
            } else {
                list.len()
            };
        } else {
            a = apply_sgr(a, v);
            i = i + 1;
        }
    }
    a
}

/// Screen rows `lo..hi` blanked and marked dirty.
pub open spec fn clear_rows(g: GridView, lo: int, hi: int) -> GridView {
    GridView {
        screen: Seq::new(
            g.screen.len(),
            |i: int|
                if lo <= i < hi {
                    blank_row(g.cols)
                } else {
                    g.screen[i]
                },
        ),
        dirty: Seq::new(
            g.dirty.len(),
            |i: int|
                if lo <= i < hi {
                    true
                } else {
                    g.dirty[i]
                },
        ),
        ..g
    }
}

/// CSI `J`: mode 0 erases from the cursor's row to the bottom, mode 2 the
/// whole screen and homes the cursor; the erased region becomes dirty.
pub open spec fn erase_display(s: TermView, mode: u16) -> TermView {
    let cols = s.config.cols;
    let rows = s.config.rows;
    if mode == 0 {
        TermView {
            grid: clear_rows(s.grid, s.cursor.y as int, rows as int),
            dirty_rect: dirty_with(
                dirty_with(s.dirty_rect, 0, s.cursor.y),
                (cols - 1) as usize,
                (rows - 1) as usize,
            ),
            ..s
        }
    } else if mode == 2 {
        TermView {
            grid: clear_rows(s.grid, 0, rows as int),
            cursor: Cursor { x: 0, y: 0, ..s.cursor },
            dirty_rect: dirty_with(dirty_with(s.dirty_rect, 0, 0), (cols - 1) as usize, (rows - 1) as usize),
            ..s
        }
    } else {
        s
    }
}

/// CSI `K`: erase from the cursor to the end of its line, which becomes dirty.
pub open spec fn erase_line(s: TermView) -> TermView {
    let cols = s.config.cols;
    let y = s.cursor.y;
    TermView {
        grid: crate::grid::grid_clear_range(s.grid, y as int, s.cursor.x as int, cols as int),
        dirty_rect: dirty_with(
            dirty_with(s.dirty_rect, min_us(s.cursor.x, (cols - 1) as usize), y),
            (cols - 1) as usize,
            y,
        ),
        ..s
    }
}

/// Final characters of the cursor-motion sequences.
pub open spec fn is_move(c: char) -> bool {
    c == 'A' || c == 'B' || c == 'C' || c == 'D' || c == 'G' || c == 'd' || c == 'H' || c == 'f'
}

/// Cursor after a motion sequence (counts and positions default to 1;
/// positions are 1-based; the cursor stays on the screen).
pub open spec fn moved_cursor(cur: Cursor, cols: usize, rows: usize, list: Seq<u16>, c: char) -> Cursor {
    let last_x = (cols - 1) as usize;
    let last_y = (rows - 1) as usize;
    let p = param_or(list, 0, 1) as usize;
    if c == 'A' {
        Cursor { y: sat_sub(cur.y, p), ..cur }
    } else if c == 'B' {
        Cursor { y: min_us((cur.y + p) as usize, last_y), ..cur }
    } else if c == 'C' {
        Cursor { x: min_us((cur.x + p) as usize, last_x), ..cur }
    } else if c == 'D' {
        Cursor { x: sat_sub(cur.x, p), ..cur }
    } else if c == 'G' {
        Cursor { x: min_us((p - 1) as usize, last_x), ..cur }
    } else if c == 'd' {
        Cursor { y: min_us((p - 1) as usize, last_y), ..cur }
    } else {
        Cursor {
            y: min_us((p - 1) as usize, last_y),
            x: min_us((param_or(list, 1, 1) - 1) as usize, last_x),
            ..cur
        }
    }
}

pub open spec fn is_mouse_mode(v: u16) -> bool {
    v == 1000 || v == 1002 || v == 1003
}

/// CSI `h` (set mode), by its first parameter: 1049 saves the cursor, homes
/// it and enters the alternate screen; 47 (not private) enters it too; the
/// private mouse modes 1000/1002/1003 turn tracking on (announced by an
/// event); private 1006 turns SGR mouse encoding on.
pub open spec fn set_mode(s: TermView, list: Seq<u16>, private: bool) -> TermView {
    if list.len() == 0 {
        s
    } else {
        let v = list[0];
        if v == 1049 && s.alt is None {
            enter_alt(
                with_cursor(
                    s,
                    Cursor { saved_x: s.cursor.x, saved_y: s.cursor.y, x: 0, y: 0, ..s.cursor },
                ),
            )
        } else if v == 47 && !private && s.alt is None {
            enter_alt(s)
        } else if is_mouse_mode(v) && private && !s.mouse_tracking {
            TermView { mouse_tracking: true, events: s.events.push(EventView::Mouse(true)), ..s }
        } else if v == 1006 && private {
            TermView { sgr_mouse: true, ..s }
        } else {
            s
        }
    }
}

/// The main screen back in place when the alternate screen is shown.
pub open spec fn leave_alt(s: TermView) -> TermView {
    match s.alt {
        Some(g) => TermView { grid: g, alt: None, ..s },
        None => s,
    }
}

/// CSI `l` (reset mode), by its first parameter: 1049 leaves the alternate
/// screen (if shown) and restores the saved cursor; 47 (not private) leaves
/// the alternate screen; the private mouse modes turn tracking off
/// (announced by an event); private 1006 turns SGR mouse encoding off.
pub open spec fn reset_mode(s: TermView, list: Seq<u16>, private: bool) -> TermView {
    if list.len() == 0 {
        s
    } else {
        let v = list[0];
        let t = leave_alt(s);
        let t = if v == 1049 || (v == 47 && !private) { t } else { s };
        if v == 1049 {
            with_cursor(
                t,
                Cursor {
                    x: min_us(t.cursor.saved_x, t.config.cols),
                    y: min_us(t.cursor.saved_y, (t.config.rows - 1) as usize),
                    ..t.cursor
                },
            )
        } else if private && is_mouse_mode(v) && t.mouse_tracking {
            TermView { mouse_tracking: false, events: t.events.push(EventView::Mouse(false)), ..t }
        } else if private && v == 1006 {
            TermView { sgr_mouse: false, ..t }
        } else {
            t
        }
    }
}

/// A CSI sequence. Sequences marked to be ignored, or with intermediates
/// other than a single `?` (private mode), change nothing.
pub open spec fn csi_spec(
    s: TermView,
    list: Seq<u16>,
    inter: Seq<u8>,
    ignore: bool,
    c: char,
) -> TermView {
    if ignore || (inter.len() > 0 && inter != seq![63u8]) {
        s
    } else {
        let private = inter == seq![63u8];
        if is_move(c) {
            with_cursor(s, moved_cursor(s.cursor, s.config.cols, s.config.rows, list, c))
        } else if c == 'J' {
            erase_display(s, param_or(list, 0, 0))
        } else if c == 'K' {
            erase_line(s)
        } else if c == 'm' {
            with_cursor(s, Cursor { attrs: sgr_run(s.cursor.attrs, list, 0), ..s.cursor })
        } else if c == 'h' {
            set_mode(s, list, private)
        } else if c == 'l' {
            reset_mode(s, list, private)
        } else {
            s
        }
    }
}

fn moved(cur: Cursor, cols: usize, rows: usize, list: &[u16], c: char) -> (r: Cursor)
    requires
        cols >= 1,
        rows >= 1,
        cols <= 0x7fff_ffff,
        rows <= 0x7fff_ffff,
        cur.x <= cols,
        cur.y < rows,
    ensures
        r == moved_cursor(cur, cols, rows, list@, c),
        r.x <= cols,
        r.y < rows,
{
    let last_x = cols - 1;
    let last_y = rows - 1;
    let p = param(list, 0, 1) as usize;
    let x = cur.x;
    let y = cur.y;
    if c == 'A' {
        Cursor { y: if y >= p { y - p } else { 0 }, ..cur }
    } else if c == 'B' {
        Cursor { y: if y + p <= last_y { y + p } else { last_y }, ..cur }
    } else if c == 'C' {
        Cursor { x: if x + p <= last_x { x + p } else { last_x }, ..cur }
    } else if c == 'D' {
        Cursor { x: if x >= p { x - p } else { 0 }, ..cur }
    } else if c == 'G' {
        Cursor { x: if p - 1 <= last_x { p - 1 } else { last_x }, ..cur }
    } else if c == 'd' {
        Cursor { y: if p - 1 <= last_y { p - 1 } else { last_y }, ..cur }
    } else {
        let q = param(list, 1, 1) as usize;
        Cursor {
            y: if p - 1 <= last_y { p - 1 } else { last_y },
            x: if q - 1 <= last_x { q - 1 } else { last_x },
            ..cur
        }
    }
}

impl Terminal {
    fn clear_rows_from(&mut self, lo: usize)
        requires
            old(self).wf(),
            lo <= old(self).config.rows,
        ensures
            final(self).wf(),
            final(self)@ == (TermView {
                grid: clear_rows(old(self)@.grid, lo as int, old(self).config.rows as int),
                ..old(self)@
            }),
    {
        let rows = self.rows();
        let mut y = lo;
        assert(clear_rows(old(self)@.grid, lo as int, lo as int).screen =~= old(self)@.grid.screen);
        assert(clear_rows(old(self)@.grid, lo as int, lo as int).dirty =~= old(self)@.grid.dirty);
        while y < rows
            invariant
                self.wf(),
                lo <= y <= rows,
                rows == self.config.rows,
                self@ == (TermView {
                    grid: clear_rows(old(self)@.grid, lo as int, y as int),
                    ..old(self)@
                }),
            decreases rows - y,
        {
            let ghost g = self@.grid;
            self.grid.clear_line(y);
            assert(self@.grid.screen =~= clear_rows(old(self)@.grid, lo as int, y + 1).screen);
            assert(self@.grid.dirty =~= clear_rows(old(self)@.grid, lo as int, y + 1).dirty);
            y = y + 1;
        }
    }

    fn erase_display(&mut self, mode: u16)
        requires
            old(self).wf(),
        ensures
            final(self).wf(),
            final(self)@ == erase_display(old(self)@, mode),
    {
        let cols = self.cols();
        let rows = self.rows();
        if mode == 0 {
            let y = self.cursor.y;
            self.clear_rows_from(y);
            self.mark_dirty(0, y);
            self.mark_dirty(cols - 1, rows - 1);
        } else if mode == 2 {
            self.clear_rows_from(0);
            self.cursor.x = 0;
            self.cursor.y = 0;
            self.mark_dirty(0, 0);
            self.mark_dirty(cols - 1, rows - 1);
        }
    }

    fn erase_line(&mut self)
        requires
            old(self).wf(),
        ensures
            final(self).wf(),
            final(self)@ == erase_line(old(self)@),
    {
        let cols = self.cols();
        let x = self.cursor.x;
        let y = self.cursor.y;
        self.grid.clear_range(y, x, cols);
        self.mark_dirty(if x < cols - 1 { x } else { cols - 1 }, y);
        self.mark_dirty(cols - 1, y);
    }

    fn move_cursor(&mut self, list: &[u16], c: char)
        requires
            old(self).wf(),
            is_move(c),
        ensures
            final(self).wf(),
            final(self)@ == with_cursor(
                old(self)@,
                moved_cursor(old(self).cursor, old(self).config.cols, old(self).config.rows, list@, c),
            ),
    {
        let cur = moved(self.cursor, self.cols(), self.rows(), list, c);
        self.cursor = cur;
    }

    fn set_mode(&mut self, list: &[u16], private: bool)
        requires
            old(self).wf(),
        ensures
            final(self).wf(),
            final(self)@ == set_mode(old(self)@, list@, private),
    {
        if list.len() == 0 {
            return ;
        }
        let v = list[0];
        if v == 1049 && self.alt_screen.is_none() {
            self.cursor.saved_x = self.cursor.x;
            self.cursor.saved_y = self.cursor.y;
            self.cursor.x = 0;
            self.cursor.y = 0;
            self.enter_alt();
        } else if v == 47 && !private && self.alt_screen.is_none() {
            self.enter_alt();
        } else if (v == 1000 || v == 1002 || v == 1003) && private && !self.mouse_tracking {
            self.mouse_tracking = true;
            self.events.push_back(TerminalEvent::Mouse(true));
            assert(self@.events =~= old(self)@.events.push(EventView::Mouse(true)));
        } else if v == 1006 && private {
            self.sgr_mouse = true;
        }
    }

    fn reset_mode(&mut self, list: &[u16], private: bool)
        requires
            old(self).wf(),
        ensures
            final(self).wf(),
            final(self)@ == reset_mode(old(self)@, list@, private),
    {
        if list.len() == 0 {
            return ;
        }
        let v = list[0];
        if v == 1049 || (v == 47 && !private) {
            if let Some(g) = self.alt_screen.take() {
                self.grid = g;
            }
        }
        let ghost t = self@;
        if v == 1049 {
            let cols = self.cols();
            let last_y = self.rows() - 1;
            let sx = self.cursor.saved_x;
            let sy = self.cursor.saved_y;
            self.cursor.x = if sx <= cols { sx } else { cols };
            self.cursor.y = if sy <= last_y { sy } else { last_y };
        } else if private && (v == 1000 || v == 1002 || v == 1003) && self.mouse_tracking {
            self.mouse_tracking = false;
            self.events.push_back(TerminalEvent::Mouse(false));
            assert(self@.events =~= t.events.push(EventView::Mouse(false)));
        } else if private && v == 1006 {
            self.sgr_mouse = false;
        }
    }

    /// A CSI sequence from the parser (see [`csi_spec`]).
    pub fn csi_dispatch(&mut self, list: &[u16], inter: &[u8], ignore: bool, c: char)
        requires
            old(self).wf(),
        ensures
            final(self).wf(),
            final(self)@ == csi_spec(old(self)@, list@, inter@, ignore, c),
    {
        let is_private = inter.len() == 1 && inter[0] == 63;
        if ignore || (inter.len() > 0 && !is_private) {
            return ;
        }
        assert(is_private == (inter@ == seq![63u8])) by {
            if inter@.len() == 1 && inter@[0] == 63 {
                assert(inter@ =~= seq![63u8]);
            }
        }
        if c == 'A' || c == 'B' || c == 'C' || c == 'D' || c == 'G' || c == 'd' || c == 'H' || c
            == 'f' {
            self.move_cursor(list, c);
        } else if c == 'J' {
            let mode = param(list, 0, 0);
            self.erase_display(mode);
        } else if c == 'K' {
            self.erase_line();
        } else if c == 'm' {
            let a = sgr_attrs(self.cursor.attrs, list);
            self.cursor.attrs = a;
        } else if c == 'h' {
            self.set_mode(list, is_private);
        } else if c == 'l' {
            self.reset_mode(list, is_private);
        }
    }
}

/// Value of a hexadecimal digit.
pub open spec fn hex_val(v: u8) -> Option<u8> {
    if 48 <= v <= 57 {
        Some((v - 48) as u8)
    } else if 97 <= v <= 102 {
        Some((v - 97 + 10) as u8)
    } else if 65 <= v <= 70 {
        Some((v - 65 + 10) as u8)
    } else {
        None
    }
}

fn hex(v: u8) -> (r: Option<u8>)
    ensures
        r == hex_val(v),
{
    if 48 <= v && v <= 57 {
        Some(v - 48)
    } else if 97 <= v && v <= 102 {
        Some(v - 97 + 10)
    } else if 65 <= v && v <= 70 {
        Some(v - 65 + 10)
    } else {
        None
    }
}

/// `%XX` escapes decoded to their byte; every other byte kept as it is.
pub open spec fn unescape(raw: Seq<u8>) -> Seq<u8>
    decreases raw.len(),
{
    if raw.len() == 0 {
        Seq::empty()
    } else if raw[0] == 37 && raw.len() > 2 && hex_val(raw[1]) is Some && hex_val(raw[2]) is Some {
        seq![(hex_val(raw[1])->0 * 16 + hex_val(raw[2])->0) as u8] + unescape(raw.skip(3))
    } else {
        seq![raw[0]] + unescape(raw.skip(1))
    }
}

/// Text of an OSC 8 URI: escapes decoded, then read as (lossy) UTF-8.
pub open spec fn uri_text(raw: Seq<u8>) -> Seq<char> {
    decode_utf8(utf8_lossy(unescape(raw)))
}

fn unescape_bytes(raw: &[u8]) -> (out: Vec<u8>)
    ensures
        out@ == unescape(raw@),
{
    let mut out: Vec<u8> = Vec::with_capacity(raw.len());
    let mut i: usize = 0;
    assert(raw@.skip(0) =~= raw@);
    while i < raw.len()
        invariant
            i <= raw@.len(),
            out@ + unescape(raw@.skip(i as int)) == unescape(raw@),
        decreases raw@.len() - i,
    {
        let ghost rest = raw@.skip(i as int);
        if raw[i] == 37 && raw.len() - i > 2 {
            match (hex(raw[i + 1]), hex(raw[i + 2])) {
                (Some(h), Some(l)) => {
                    assert(rest.skip(3) =~= raw@.skip(i + 3));
                    out.push(h * 16 + l);
                    assert(out@ + unescape(raw@.skip(i + 3)) =~= unescape(raw@));
                    i = i + 3;
                    continue ;
                },
                _ => {},
            }
        }
        assert(rest.skip(1) =~= raw@.skip(i + 1));
        out.push(raw[i]);
        assert(out@ + unescape(raw@.skip(i + 1)) =~= unescape(raw@));
        i = i + 1;
    }
    assert(raw@.skip(i as int) =~= Seq::<u8>::empty());
    assert(out@ =~= unescape(raw@));
    out
}

/// Decode an OSC 8 URI (`%XX` escapes; invalid UTF-8 replaced).
fn unescape_octet(raw: &[u8]) -> (s: String)
    ensures
        s@ == uri_text(raw@),
{
    let bytes = unescape_bytes(raw);
    let text = lossy_utf8_bytes(bytes.as_slice());
    match utf8_string(text.as_slice()) {
        Some(s) => s,
        None => String::new(),
    }
}

/// The id after `n`; after the largest id numbering starts again at 0.
pub open spec fn next_id(n: u32) -> u32 {
    if n == u32::MAX {
        0
    } else {
        (n + 1) as u32
    }
}

/// An OSC sequence: `0`/`2` queue a title event (when the title is valid
/// UTF-8); `8` opens a hyperlink with a fresh id for the (decoded) URI, or
/// closes the open one when the URI is empty. Others change nothing.
pub open spec fn osc_spec(s: TermView, params: Seq<Seq<u8>>) -> TermView {
    if params.len() == 0 {
        s
    } else if params[0] == seq![48u8] || params[0] == seq![50u8] {
        if params.len() > 1 && valid_utf8(params[1]) {
            TermView { events: s.events.push(EventView::Title(decode_utf8(params[1]))), ..s }
        } else {
            s
        }
    } else if params[0] == seq![56u8] {
        let raw = if params.len() > 2 {
            params[2]
        } else {
            Seq::empty()
        };
        if raw.len() == 0 {
            TermView { current_hyperlink: None, ..s }
        } else {
            let id = next_id(s.next_hyperlink);
            TermView {
                next_hyperlink: id,
                hyperlinks: s.hyperlinks.insert(id, uri_text(raw)),
                current_hyperlink: Some(id),
                ..s
            }
        }
    } else {
        s
    }
}

/// One parser action.
pub open spec fn apply_action(s: TermView, a: ActionView) -> TermView {
    match a {
        ActionView::Print(c) => print(s, c),
        ActionView::Execute(b) => execute(s, b),
        ActionView::Csi { params, intermediates, ignore, action } => csi_spec(
            s,
            params,
            intermediates,
            ignore,
            action,
        ),
        ActionView::Osc { params } => osc_spec(s, params),
    }
}

/// Parser actions applied in order.
pub open spec fn apply_actions(s: TermView, acts: Seq<ActionView>) -> TermView
    decreases acts.len(),
{
    if acts.len() == 0 {
        s
    } else {
        apply_action(apply_actions(s, acts.drop_last()), acts.last())
    }
}

fn is_one(v: &Vec<u8>, b: u8) -> (r: bool)
    ensures
        r == (v@ == seq![b]),
{
    if v.len() == 1 && v[0] == b {
        assert(v@ =~= seq![b]);
        true
    } else {
        false
    }
}

impl Terminal {
    /// An OSC sequence from the parser (see [`osc_spec`]).
    pub fn osc_dispatch(&mut self, params: &Vec<Vec<u8>>)
        requires
            old(self).wf(),
        ensures
            final(self).wf(),
            final(self)@ == osc_spec(old(self)@, crate::text::views(params@)),
    {
        let ghost ps = crate::text::views(params@);
        if params.len() == 0 {
            return ;
        }
        if is_one(&params[0], 48) || is_one(&params[0], 50) {
            if params.len() > 1 {
                match utf8_string(params[1].as_slice()) {
                    Some(t) => self.set_title(t),
                    None => {},
                }
            }
        } else if is_one(&params[0], 56) {
            if params.len() > 2 && params[2].len() > 0 {
                let uri = unescape_octet(params[2].as_slice());
                let id = if self.next_hyperlink == u32::MAX {
                    0
                } else {
                    self.next_hyperlink + 1
                };
                self.next_hyperlink = id;
                self.hyperlinks.insert(id, uri);
                self.current_hyperlink = Some(id);
                assert(self@.hyperlinks =~= old(self)@.hyperlinks.insert(id, uri_text(ps[2])));
            } else {
                self.current_hyperlink = None;
            }
        }
    }

    /// One parser action (see [`apply_action`]).
    pub fn apply_action(&mut self, a: &VtAction)
        requires
            old(self).wf(),
        ensures
            final(self).wf(),
            final(self)@ == apply_action(old(self)@, action_view(*a)),
    {
        match a {
            VtAction::Print(c) => self.print(*c),
            VtAction::Execute(b) => self.execute(*b),
            VtAction::Csi { params, intermediates, ignore, action } => {
                self.csi_dispatch(params.as_slice(), intermediates.as_slice(), *ignore, *action)
            },
            VtAction::Osc { params } => self.osc_dispatch(params),
        }
    }

    /// Parser actions, in order.
    pub fn apply_actions(&mut self, acts: &Vec<VtAction>)
        requires
            old(self).wf(),
        ensures
            final(self).wf(),
            final(self)@ == apply_actions(old(self)@, actions_view(acts@)),
    {
        let mut i: usize = 0;
        assert(actions_view(acts@).take(0) =~= Seq::<ActionView>::empty());
        while i < acts.len()
            invariant
                self.wf(),
                i <= acts@.len(),
                self@ == apply_actions(old(self)@, actions_view(acts@).take(i as int)),
            decreases acts@.len() - i,
        {
            self.apply_action(&acts[i]);
            assert(actions_view(acts@).take(i + 1).drop_last() =~= actions_view(acts@).take(i as int));
            i = i + 1;
        }
        assert(actions_view(acts@).take(i as int) =~= actions_view(acts@));
    }
}

} // verus!
