//! Handle registry behind the Android bridge: terminals addressed by a
//! numeric handle, with the operations the UI calls (feed, resize, read a
//! cell, viewport, mouse encoding, dirty flag, event polling).

use vstd::prelude::*;
use vstd::utf8::encode_utf8;
use crate::grid::{view_row, Color};
use crate::terminal::{
    event_view, initial_view, resize_spec, set_scroll_offset_spec, EventView, TermView, Terminal,
    TerminalConfig, TerminalEvent,
};
use crate::mouse::sgr_seq;

verus! {

/// Largest screen accepted from the UI (guards the allocator).
pub const MAX_COLS: i32 = 1024;

pub const MAX_ROWS: i32 = 512;

/// A dimension from the UI, clamped to `1..=max`.
pub open spec fn clamp_spec(v: i32, max: i32) -> usize {
    if v < 1 {
        1
    } else if v > max {
        max as usize
    } else {
        v as usize
    }
}

pub fn clamp_dim(v: i32, max: i32) -> (r: usize)
    requires
        max >= 1,
    ensures
        r == clamp_spec(v, max),
{
    let lo = if v < 1 { 1 } else { v };
    let c = if lo > max { max } else { lo };
    c as usize
}

/// 0xAARRGGBB of a color (opaque alpha); 0 for the default color.
pub open spec fn argb(c: Color) -> u32 {
    match c.spec_to_rgb24() {
        Some((r, g, b)) => (0xFF00_0000u32 | ((r as u32) << 16u32) | ((g as u32) << 8u32) | (
        b as u32)) as u32,
        None => 0,
    }
}

pub fn color_u32(c: Color) -> (v: u32)
    ensures
        v == argb(c),
{
    match c.to_rgb24() {
        Some((r, g, b)) => 0xFF00_0000u32 | ((r as u32) << 16u32) | ((g as u32) << 8u32) | (b as u32),
        None => 0,
    }
}

/// Little-endian bytes of `v`.
pub open spec fn le32(v: u32) -> Seq<u8> {
    seq![v as u8, (v >> 8u32) as u8, (v >> 16u32) as u8, (v >> 24u32) as u8]
}

fn push_le32(out: &mut Vec<u8>, v: u32)
    ensures
        final(out)@ == old(out)@ + le32(v),
{
    out.push(v as u8);
    out.push((v >> 8u32) as u8);
    out.push((v >> 16u32) as u8);
    out.push((v >> 24u32) as u8);
    assert(out@ =~= old(out)@ + le32(v));
}

/// Type and payload of an event as the bridge reports it: 1 title (UTF-8),
/// 2 bell, 3 mouse (1 byte), 4 kitty image (id, format, width, height,
/// data), 5 placement (id, x, y, cols, rows), 6 deletion (id); numbers are
/// little-endian u32. Hyperlink events have no record.
pub open spec fn event_record(e: EventView) -> Option<(u32, Seq<u8>)> {
    match e {
        EventView::Title(s) => Some((1, encode_utf8(s))),
        EventView::Bell => Some((2, Seq::empty())),
        EventView::Mouse(on) => Some(
            (
                3,
                seq![
                    if on {
                        1u8
                    } else {
                        0u8
                    },
                ],
            ),
        ),
        EventView::Hyperlink(_) => None,
        EventView::KittyImage { id, format, width_px, height_px, data } => Some(
            (4, le32(id) + seq![format] + le32(width_px) + le32(height_px) + data),
        ),
        EventView::KittyPlaced { id, x, y, cols, rows } => Some(
            (5, le32(id) + le32(x as u32) + le32(y as u32) + le32(cols as u32) + le32(rows as u32)),
        ),
        EventView::KittyDeleted { id } => Some((6, le32(id))),
    }
}

/// The bytes written for an event: type, payload length, payload.
pub open spec fn record_bytes(ty: u32, payload: Seq<u8>) -> Seq<u8> {
    le32(ty) + le32(payload.len() as u32) + payload
}

fn event_payload(e: &TerminalEvent) -> (r: Option<(u32, Vec<u8>)>)
    ensures
        match (r, event_record(event_view(*e))) {
            (Some((t, p)), Some((t2, p2))) => t == t2 && p@ == p2,
            (None, None) => true,
            _ => false,
        },
{
    match e {
        TerminalEvent::Title(s) => {
            let b = s.as_str().as_bytes();
            Some((1, crate::vt::to_vec(b)))
        },
        TerminalEvent::Bell => Some((2, Vec::new())),
        TerminalEvent::Mouse(on) => {
            let mut p: Vec<u8> = Vec::new();
            p.push(if *on { 1u8 } else { 0u8 });
            assert(p@ =~= seq![if *on { 1u8 } else { 0u8 }]);
            Some((3, p))
        },
        TerminalEvent::Hyperlink(_) => None,
        TerminalEvent::KittyImage { id, format, width_px, height_px, data } => {
            let mut p: Vec<u8> = Vec::new();
            push_le32(&mut p, *id);
            p.push(*format);
            push_le32(&mut p, *width_px);
            push_le32(&mut p, *height_px);
            let d: &Vec<u8> = &**data;
            let mut i: usize = 0;
            let ghost p0 = p@;
            while i < d.len()
                invariant
                    i <= d@.len(),
                    p@ == p0 + d@.take(i as int),
                decreases d@.len() - i,
            {
                p.push(d[i]);
                assert(p@ =~= p0 + d@.take(i + 1));
                i = i + 1;
            }
            assert(p@ =~= le32(*id) + seq![*format] + le32(*width_px) + le32(*height_px) + d@);
            Some((4, p))
        },
        TerminalEvent::KittyPlaced { id, x, y, cols, rows } => {
            let mut p: Vec<u8> = Vec::new();
            push_le32(&mut p, *id);
            push_le32(&mut p, *x as u32);
            push_le32(&mut p, *y as u32);
            push_le32(&mut p, *cols as u32);
            push_le32(&mut p, *rows as u32);
            Some((5, p))
        },
        TerminalEvent::KittyDeleted { id } => {
            let mut p: Vec<u8> = Vec::new();
            push_le32(&mut p, *id);
            Some((6, p))
        },
    }
}

/// Terminals addressed by handle (their index). A destroyed handle keeps a
/// fresh default terminal, so handles stay valid and are never reused.
pub struct Registry {
    pub terms: Vec<Terminal>,
}

impl Registry {
    pub open spec fn wf(&self) -> bool {
        forall|i: int| 0 <= i < self.terms@.len() ==> (#[trigger] self.terms@[i]).wf()
    }

    /// Model of handle `h`'s terminal.
    pub open spec fn term(&self, h: int) -> TermView {
        self.terms@[h]@
    }

    pub open spec fn valid(&self, h: u64) -> bool {
        h < self.terms@.len()
    }

    pub fn new() -> (r: Registry)
        ensures
            r.wf(),
            r.terms@.len() == 0,
    {
        Registry { terms: Vec::new() }
    }

    /// A new terminal of `cols` x `rows` (each clamped to the UI limits,
    /// scrollback of the default size); its handle.
    pub fn init_term(&mut self, cols: i32, rows: i32) -> (h: u64)
        requires
            old(self).wf(),
            old(self).terms@.len() < u64::MAX,
        ensures
            final(self).wf(),
            h == old(self).terms@.len(),
            final(self).terms@.len() == old(self).terms@.len() + 1,
            forall|i: int| 0 <= i < h ==> final(self).terms@[i] == old(self).terms@[i],
            final(self).term(h as int) == initial_view(
                TerminalConfig {
                    cols: clamp_spec(cols, MAX_COLS),
                    rows: clamp_spec(rows, MAX_ROWS),
                    scrollback_cap: 10_000,
                },
            ),
    {
        let cfg = TerminalConfig {
            cols: clamp_dim(cols, MAX_COLS),
            rows: clamp_dim(rows, MAX_ROWS),
            scrollback_cap: 10_000,
        };
        let t = Terminal::new(cfg);
        let h = self.terms.len() as u64;
        self.terms.push(t);
        h
    }

    /// Register an existing terminal (one restored from a saved session);
    /// its handle.
    pub fn adopt(&mut self, t: Terminal) -> (h: u64)
        requires
            old(self).wf(),
            t.wf(),
            old(self).terms@.len() < u64::MAX,
        ensures
            final(self).wf(),
            h == old(self).terms@.len(),
            final(self).terms@ == old(self).terms@.push(t),
    {
        let h = self.terms.len() as u64;
        self.terms.push(t);
        h
    }

    /// Replace the terminal of `h` by a fresh default one (unknown handles
    /// are ignored).
    pub fn destroy(&mut self, h: u64)
        requires
            old(self).wf(),
        ensures
            final(self).wf(),
            final(self).terms@.len() == old(self).terms@.len(),
            forall|i: int| 0 <= i < old(self).terms@.len() && i != h ==> final(self).terms@[i]
                == old(self).terms@[i],
            old(self).valid(h) ==> final(self).term(h as int) == initial_view(
                TerminalConfig { cols: 80, rows: 24, scrollback_cap: 10_000 },
            ),
    {
        if h < self.terms.len() as u64 {
            let t = Terminal::new(TerminalConfig::default());
            self.terms.set(h as usize, t);
        }
    }

    /// Feed bytes to `h` (nothing for an unknown handle or no bytes).
    pub fn write(&mut self, h: u64, bytes: &[u8])
        requires
            old(self).wf(),
        ensures
            final(self).wf(),
            final(self).terms@.len() == old(self).terms@.len(),
            forall|i: int| 0 <= i < old(self).terms@.len() && i != h ==> final(self).terms@[i]
                == old(self).terms@[i],
            !old(self).valid(h) || bytes@.len() == 0 ==> final(self).terms@ == old(self).terms@,
            old(self).valid(h) && bytes@.len() > 0 ==> exists|del: Seq<Seq<u32>>|
                #![trigger crate::feed::feed_spec(old(self).term(h as int), bytes@, del)]
                crate::feed::feed_spec(old(self).term(h as int), bytes@, del) == Some(
                    final(self).term(h as int),
                ),
    {
        if bytes.len() == 0 || h >= self.terms.len() as u64 {
            return ;
        }
        let i = h as usize;
        assert(self.terms@[i as int].wf());
        self.terms[i].feed_bytes(bytes);
    }
}

impl Registry {
    /// Resize `h` to `cols` x `rows` (each clamped to the UI limits).
    pub fn resize_term(&mut self, h: u64, cols: i32, rows: i32)
        requires
            old(self).wf(),
        ensures
            final(self).wf(),
            final(self).terms@.len() == old(self).terms@.len(),
            forall|i: int| 0 <= i < old(self).terms@.len() && i != h ==> final(self).terms@[i]
                == old(self).terms@[i],
            !old(self).valid(h) ==> final(self).terms@ == old(self).terms@,
            old(self).valid(h) ==> final(self).term(h as int) == resize_spec(
                old(self).term(h as int),
                clamp_spec(cols, MAX_COLS),
                clamp_spec(rows, MAX_ROWS),
            ),
    {
        if h >= self.terms.len() as u64 {
            return ;
        }
        let i = h as usize;
        assert(self.terms@[i as int].wf());
        let c = clamp_dim(cols, MAX_COLS);
        let r = clamp_dim(rows, MAX_ROWS);
        self.terms[i].resize(c, r);
    }

    /// `(fg, bg, char)` of the displayed cell `(x, y)` of `h` (through the
    /// viewport); `None` for an unknown handle, a cell off the screen, or a
    /// history line narrower than `x` (kept from before a resize).
    pub fn cell_at(&self, h: u64, x: i32, y: i32) -> (r: Option<(u32, u32, u32)>)
        requires
            self.wf(),
        ensures
            r == (if self.valid(h) && 0 <= x < self.term(h as int).config.cols && 0 <= y
                < self.term(h as int).config.rows && x < view_row(
                self.term(h as int).grid,
                y as int,
                self.term(h as int).scroll_offset as nat,
            ).len() {
                let c = view_row(
                    self.term(h as int).grid,
                    y as int,
                    self.term(h as int).scroll_offset as nat,
                )[x as int];
                Some((argb(c.attrs.fg), argb(c.attrs.bg), c.ch as u32))
            } else {
                None
            }),
    {
        if h >= self.terms.len() as u64 {
            return None;
        }
        let t = &self.terms[h as usize];
        assert(t.wf());
        if x < 0 || y < 0 || x as usize >= t.cols() || y as usize >= t.rows() {
            return None;
        }
        let line = t.view_line(y as usize);
        if x as usize >= line.cells.len() {
            return None;
        }
        let cell = line.cells[x as usize];
        Some((color_u32(cell.attrs.fg), color_u32(cell.attrs.bg), cell.ch as u32))
    }
}

impl Registry {
    /// Set the viewport of `h` (negative offsets count as 0).
    pub fn set_scroll_offset(&mut self, h: u64, k: i32)
        requires
            old(self).wf(),
        ensures
            final(self).wf(),
            final(self).terms@.len() == old(self).terms@.len(),
            forall|i: int| 0 <= i < old(self).terms@.len() && i != h ==> final(self).terms@[i]
                == old(self).terms@[i],
            !old(self).valid(h) ==> final(self).terms@ == old(self).terms@,
            old(self).valid(h) ==> final(self).term(h as int) == set_scroll_offset_spec(
                old(self).term(h as int),
                (if k < 0 {
                    0
                } else {
                    k
                }) as usize,
            ),
    {
        if h >= self.terms.len() as u64 {
            return ;
        }
        let i = h as usize;
        assert(self.terms@[i as int].wf());
        let kk = if k < 0 { 0 } else { k } as usize;
        self.terms[i].set_scroll_offset(kk);
    }

    /// Lines of scrollback of `h` (0 for an unknown handle).
    pub fn scroll_max(&self, h: u64) -> (n: i32)
        requires
            self.wf(),
        ensures
            n == (if self.valid(h) {
                self.term(h as int).grid.history.len() as i32
            } else {
                0
            }),
    {
        if h >= self.terms.len() as u64 {
            return 0;
        }
        self.terms[h as usize].scrollback_len() as i32
    }

    /// Encode a mouse event of `h` as SGR into `out`: its length; 0 while
    /// SGR mouse mode is off; -1 for an unknown handle or a too small `out`. Code and modifiers are clamped to
    /// 0..=255, negative coordinates count as 0.
    pub fn sgr_mouse(
        &self,
        h: u64,
        code: i32,
        mods: i32,
        release: bool,
        x: i32,
        y: i32,
        out: &mut [u8],
    ) -> (n: i32)
        requires
            self.wf(),
        ensures
            ({
                let c = (if code < 0 {
                    0
                } else if code > 255 {
                    255
                } else {
                    code
                }) as u8;
                let m = (if mods < 0 {
                    0
                } else if mods > 255 {
                    255
                } else {
                    mods
                }) as u8;
                let seq = sgr_seq(
                    c,
                    m,
                    release,
                    (if x < 0 {
                        0
                    } else {
                        x
                    }) as usize,
                    (if y < 0 {
                        0
                    } else {
                        y
                    }) as usize,
                );
                if !self.valid(h) {
                    n == -1 && final(out)@ == old(out)@
                } else if !self.term(h as int).sgr_mouse {
                    n == 0 && final(out)@ == old(out)@
                } else if seq.len() > old(out)@.len() {
                    n == -1 && final(out)@ == old(out)@
                } else {
                    n == seq.len() as i32 && final(out)@ == seq + old(out)@.skip(seq.len() as int)
                }
            }),
    {
        if h >= self.terms.len() as u64 {
            return -1;
        }
        let t = &self.terms[h as usize];
        let c: u8 = if code < 0 { 0 } else if code > 255 { 255 } else { code as u8 };
        let m: u8 = if mods < 0 { 0 } else if mods > 255 { 255 } else { mods as u8 };
        let xx = if x < 0 { 0 } else { x } as usize;
        let yy = if y < 0 { 0 } else { y } as usize;
        let mut seq: Vec<u8> = Vec::with_capacity(16);
        if !t.sgr_mouse_seq(c, m, release, xx, yy, &mut seq) {
            return 0;
        }
        assert(seq@ =~= sgr_seq(c, m, release, xx, yy));
        if seq.len() > out.len() {
            return -1;
        }
        let mut i: usize = 0;
        while i < seq.len()
            invariant
                i <= seq@.len() <= out@.len(),
                out@.len() == old(out)@.len(),
                forall|j: int| 0 <= j < i ==> out@[j] == seq@[j],
                forall|j: int| i <= j < out@.len() ==> out@[j] == old(out)@[j],
            decreases seq@.len() - i,
        {
            out[i] = seq[i];
            i = i + 1;
        }
        assert(out@ =~= seq@ + old(out)@.skip(seq@.len() as int));
        seq.len() as i32
    }

    /// Whether `h` changed since the last call (reading clears the mark);
    /// false for an unknown handle.
    pub fn dirty(&mut self, h: u64) -> (d: bool)
        requires
            old(self).wf(),
        ensures
            final(self).wf(),
            final(self).terms@.len() == old(self).terms@.len(),
            forall|i: int| 0 <= i < old(self).terms@.len() && i != h ==> final(self).terms@[i]
                == old(self).terms@[i],
            !old(self).valid(h) ==> !d && final(self).terms@ == old(self).terms@,
            old(self).valid(h) ==> d == (old(self).term(h as int).dirty_rect is Some)
                && final(self).term(h as int) == (TermView {
                dirty_rect: None,
                ..old(self).term(h as int)
            }),
    {
        if h >= self.terms.len() as u64 {
            return false;
        }
        let i = h as usize;
        assert(self.terms@[i as int].wf());
        self.terms[i].take_dirty()
    }
}

impl Terminal {
    /// Clear the dirty box; whether there was one.
    pub fn take_dirty(&mut self) -> (d: bool)
        requires
            old(self).wf(),
        ensures
            final(self).wf(),
            d == (old(self)@.dirty_rect is Some),
            final(self)@ == (TermView { dirty_rect: None, ..old(self)@ }),
    {
        let d = self.dirty_rect.is_some();
        self.dirty_rect = None;
        d
    }
}

/// What polling an event of a terminal gives, for an `out` buffer of `cap`
/// bytes: `(n, record)`; `n` is the record's length (and the event leaves
/// the queue), 0 when there is nothing to report (an event without a record
/// stays), -1 when `out` is too small (the event stays).
pub open spec fn poll_result(s: TermView, cap: nat) -> (int, Seq<u8>) {
    if s.events.len() == 0 {
        (0, Seq::empty())
    } else {
        match event_record(s.events[0]) {
            None => (0, Seq::empty()),
            Some((ty, p)) => {
                let rec = record_bytes(ty, p);
                if rec.len() > cap {
                    (-1, Seq::empty())
                } else {
                    ((rec.len() as i32) as int, rec)
                }
            },
        }
    }
}

impl Registry {
    /// Pop the oldest event of `h` into `out` as a record (see
    /// [`poll_result`]); -1 for an unknown handle.
    pub fn take_event(&mut self, h: u64, out: &mut [u8]) -> (n: i32)
        requires
            old(self).wf(),
        ensures
            final(self).wf(),
            final(self).terms@.len() == old(self).terms@.len(),
            forall|i: int| 0 <= i < old(self).terms@.len() && i != h ==> final(self).terms@[i]
                == old(self).terms@[i],
            !old(self).valid(h) ==> n == -1 && final(self).terms@ == old(self).terms@
                && final(out)@ == old(out)@,
            old(self).valid(h) ==> ({
                let r = poll_result(old(self).term(h as int), old(out)@.len());
                &&& n == r.0
                &&& final(out)@ == r.1 + old(out)@.skip(r.1.len() as int)
                &&& final(self).term(h as int) == (if r.1.len() > 0 {
                    TermView {
                        events: old(self).term(h as int).events.drop_first(),
                        ..old(self).term(h as int)
                    }
                } else {
                    old(self).term(h as int)
                })
            }),
    {
        if h >= self.terms.len() as u64 {
            return -1;
        }
        let i = h as usize;
        assert(self.terms@[i as int].wf());
        if self.terms[i].events.len() == 0 {
            assert(old(out)@.skip(0) =~= old(out)@);
            return 0;
        }
        let rec = match event_payload(&self.terms[i].events[0]) {
            None => {
                assert(old(out)@.skip(0) =~= old(out)@);
                return 0;
            },
            Some((ty, payload)) => {
                let mut r: Vec<u8> = Vec::new();
                push_le32(&mut r, ty);
                push_le32(&mut r, payload.len() as u32);
                let mut j: usize = 0;
                let ghost r0 = r@;
                while j < payload.len()
                    invariant
                        j <= payload@.len(),
                        r@ == r0 + payload@.take(j as int),
                    decreases payload@.len() - j,
                {
                    r.push(payload[j]);
                    assert(r@ =~= r0 + payload@.take(j + 1));
                    j = j + 1;
                }
                assert(r@ =~= record_bytes(ty, payload@));
                r
            },
        };
        if rec.len() > out.len() {
            assert(old(out)@.skip(0) =~= old(out)@);
            return -1;
        }
        let _ = self.terms[i].take_event();
        let mut j: usize = 0;
        while j < rec.len()
            invariant
                j <= rec@.len() <= out@.len(),
                out@.len() == old(out)@.len(),
                forall|k: int| 0 <= k < j ==> out@[k] == rec@[k],
                forall|k: int| j <= k < out@.len() ==> out@[k] == old(out)@[k],
            decreases rec@.len() - j,
        {
            out[j] = rec[j];
            j = j + 1;
        }
        assert(out@ =~= rec@ + old(out)@.skip(rec@.len() as int));
        rec.len() as i32
    }

    /// Text of the screen of `h` (not the viewport): each line's characters
    /// followed by a newline; empty for an unknown handle.
    pub fn grid_text(&self, h: u64) -> (s: Vec<char>)
        requires
            self.wf(),
        ensures
            s@ == (if self.valid(h) {
                screen_text(self.term(h as int).grid.screen)
            } else {
                Seq::empty()
            }),
    {
        if h >= self.terms.len() as u64 {
            return Vec::new();
        }
        let t = &self.terms[h as usize];
        assert(t.wf());
        let rows = t.rows();
        let mut out: Vec<char> = Vec::new();
        let mut y: usize = 0;
        while y < rows
            invariant
                t.wf(),
                rows == t.config.rows,
                y <= rows,
                out@ == screen_text(t@.grid.screen.take(y as int)),
            decreases rows - y,
        {
            let line = t.grid.line(y);
            let mut x: usize = 0;
            let ghost o0 = out@;
            while x < line.cells.len()
                invariant
                    x <= line.cells@.len(),
                    out@ == o0 + row_chars(line.cells@.take(x as int)),
                decreases line.cells@.len() - x,
            {
                out.push(line.cells[x].ch);
                assert(line.cells@.take(x + 1).drop_last() =~= line.cells@.take(x as int));
                assert(out@ =~= o0 + row_chars(line.cells@.take(x + 1)));
                x = x + 1;
            }
            out.push('\n');
            assert(line.cells@.take(x as int) =~= line.cells@);
            assert(t@.grid.screen.take(y + 1).drop_last() =~= t@.grid.screen.take(y as int));
            assert(out@ =~= screen_text(t@.grid.screen.take(y + 1)));
            y = y + 1;
        }
        assert(t@.grid.screen.take(y as int) =~= t@.grid.screen);
        out
    }
}

/// Characters of a row of cells.
pub open spec fn row_chars(row: Seq<crate::grid::Cell>) -> Seq<char>
    decreases row.len(),
{
    if row.len() == 0 {
        Seq::empty()
    } else {
        row_chars(row.drop_last()).push(row.last().ch)
    }
}

/// Rows' characters, each row followed by a newline.
pub open spec fn screen_text(rows: Seq<Seq<crate::grid::Cell>>) -> Seq<char>
    decreases rows.len(),
{
    if rows.len() == 0 {
        Seq::empty()
    } else {
        screen_text(rows.drop_last()) + row_chars(rows.last()) + seq!['\n']
    }
}

} // verus!
