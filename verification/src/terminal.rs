//! Terminal state machine: drives a `Grid` from VT events.

use std::collections::{HashMap, VecDeque};
use std::sync::Arc;
use vstd::prelude::*;
use vstd::std_specs::hash::{obeys_key_model, builds_valid_hashers};
use crate::grid::{
    blank_cell, blank_grid, grid_clear_range, grid_resize, grid_scroll1, grid_set, plain_attrs,
    spec_cell, view_row, Cell, CellAttrs, Grid, GridView, Line,
};
use crate::kitty::{KittyFormat, KittyImage, PendingChunk};
use crate::grid::lemma_scroll_one;
use crate::vt::VtParser;

verus! {

broadcast use vstd::std_specs::hash::group_hash_axioms;

#[derive(Debug, Clone, Copy, PartialEq, Eq, Structural)]
pub struct TerminalConfig {
    pub cols: usize,
    pub rows: usize,
    pub scrollback_cap: usize,
}

impl Default for TerminalConfig {
    fn default() -> (c: Self)
        ensures
            c == (TerminalConfig { cols: 80, rows: 24, scrollback_cap: 10_000 }),
    {
        TerminalConfig { cols: 80, rows: 24, scrollback_cap: 10_000 }
    }
}

#[derive(Debug, Clone, Copy, PartialEq, Eq, Structural)]
pub enum Mode {
    Insert,
    Wrap,
    AlternateScreen,
    BracketedPaste,
}

#[derive(Debug, Clone, Copy, PartialEq, Eq, Structural)]
pub struct Cursor {
    pub x: usize,
    pub y: usize,
    pub saved_x: usize,
    pub saved_y: usize,
    pub attrs: CellAttrs,
}

#[derive(Debug, Clone, PartialEq, Eq)]
pub enum TerminalEvent {
    Title(String),
    Bell,
    Hyperlink(Option<String>),
    Mouse(bool),
    /// A kitty image finished transmitting (full data for the renderer).
    KittyImage { id: u32, format: u8, width_px: u32, height_px: u32, data: Arc<Vec<u8>> },
    /// An image was placed on the grid (cells carry `attrs.image = id`).
    KittyPlaced { id: u32, x: usize, y: usize, cols: usize, rows: usize },
    /// An image left the registry.
    KittyDeleted { id: u32 },
}

/// Model of an event: strings and image data by their contents.
pub enum EventView {
    Title(Seq<char>),
    Bell,
    Hyperlink(Option<Seq<char>>),
    Mouse(bool),
    KittyImage { id: u32, format: u8, width_px: u32, height_px: u32, data: Seq<u8> },
    KittyPlaced { id: u32, x: usize, y: usize, cols: usize, rows: usize },
    KittyDeleted { id: u32 },
}

pub open spec fn event_view(e: TerminalEvent) -> EventView {
    match e {
        TerminalEvent::Title(s) => EventView::Title(s@),
        TerminalEvent::Bell => EventView::Bell,
        TerminalEvent::Hyperlink(o) => EventView::Hyperlink(
            match o {
                Some(s) => Some(s@),
                None => None,
            },
        ),
        TerminalEvent::Mouse(b) => EventView::Mouse(b),
        TerminalEvent::KittyImage { id, format, width_px, height_px, data } => EventView::KittyImage {
            id,
            format,
            width_px,
            height_px,
            data: data@,
        },
        TerminalEvent::KittyPlaced { id, x, y, cols, rows } => EventView::KittyPlaced {
            id,
            x,
            y,
            cols,
            rows,
        },
        TerminalEvent::KittyDeleted { id } => EventView::KittyDeleted { id },
    }
}

/// Model of a registered kitty image.
pub struct ImageView {
    pub format: KittyFormat,
    pub width_px: u32,
    pub height_px: u32,
    pub data: Seq<u8>,
}

pub open spec fn image_view(i: KittyImage) -> ImageView {
    ImageView { format: i.format, width_px: i.width_px, height_px: i.height_px, data: i.data@ }
}

/// Model of a half-transmitted image.
pub struct ChunkView {
    pub bytes: Seq<u8>,
    pub format: KittyFormat,
    pub width_px: u32,
    pub height_px: u32,
    pub image_id: u32,
}

pub open spec fn chunk_view(c: PendingChunk) -> ChunkView {
    ChunkView {
        bytes: c.bytes@,
        format: c.format,
        width_px: c.width_px,
        height_px: c.height_px,
        image_id: c.image_id,
    }
}

/// The terminal engine: feeds bytes from a PTY into a grid, tracking cursor,
/// attributes, alternate screen, hyperlinks, mouse modes, kitty images and
/// the queue of events for the embedding UI.
pub struct Terminal {
    pub config: TerminalConfig,
    pub grid: Grid,
    pub cursor: Cursor,
    pub mode: Mode,
    /// The main screen, kept aside while the alternate screen is shown.
    pub alt_screen: Option<Grid>,
    pub events: VecDeque<TerminalEvent>,
    /// Bounding box `(x0, y0, x1, y1)` of cells changed since the last read.
    pub dirty_rect: Option<(usize, usize, usize, usize)>,
    /// Viewport offset: 0 follows the bottom; k > 0 shows k lines of history.
    pub scroll_offset: usize,
    pub current_hyperlink: Option<u32>,
    pub hyperlinks: HashMap<u32, String>,
    pub next_hyperlink: u32,
    pub mouse_tracking: bool,
    pub sgr_mouse: bool,
    /// Registry of kitty images: id -> image.
    pub images: HashMap<u32, KittyImage>,
    pub next_image: u32,
    pub pending_chunk: Option<PendingChunk>,
    /// An APC whose terminator has not arrived yet.
    pub pending_apc: Option<Vec<u8>>,
    /// VT parser state (kept across feeds, so sequences may be split).
    pub parser: VtParser,
    /// Whether the parser has been given bytes: from then on it may hold a
    /// partial sequence, and every byte but a kitty APC goes through it.
    pub parser_used: bool,
}

/// Mathematical model of the terminal; the VT parser is modelled by the
/// bytes it has been given.
pub struct TermView {
    pub config: TerminalConfig,
    pub grid: GridView,
    pub cursor: Cursor,
    pub mode: Mode,
    pub alt: Option<GridView>,
    pub events: Seq<EventView>,
    pub dirty_rect: Option<(usize, usize, usize, usize)>,
    pub scroll_offset: usize,
    pub current_hyperlink: Option<u32>,
    pub hyperlinks: Map<u32, Seq<char>>,
    pub next_hyperlink: u32,
    pub mouse_tracking: bool,
    pub sgr_mouse: bool,
    pub images: Map<u32, ImageView>,
    pub next_image: u32,
    pub pending_chunk: Option<ChunkView>,
    pub pending_apc: Option<Seq<u8>>,
    /// Whether the VT parser has been given bytes.
    pub parser_used: bool,
    /// Every byte given to the VT parser so far, in order.
    pub vt_fed: Seq<u8>,
}

pub open spec fn events_view(q: Seq<TerminalEvent>) -> Seq<EventView> {
    Seq::new(q.len(), |i: int| event_view(q[i]))
}

pub open spec fn strings_view(m: Map<u32, String>) -> Map<u32, Seq<char>> {
    Map::new(|k: u32| m.dom().contains(k), |k: u32| m[k]@)
}

pub open spec fn images_view(m: Map<u32, KittyImage>) -> Map<u32, ImageView> {
    Map::new(|k: u32| m.dom().contains(k), |k: u32| image_view(m[k]))
}

impl View for Terminal {
    type V = TermView;

    open spec fn view(&self) -> TermView {
        TermView {
            config: self.config,
            grid: self.grid@,
            cursor: self.cursor,
            mode: self.mode,
            alt: match self.alt_screen {
                Some(g) => Some(g@),
                None => None,
            },
            events: events_view(self.events@),
            dirty_rect: self.dirty_rect,
            scroll_offset: self.scroll_offset,
            current_hyperlink: self.current_hyperlink,
            hyperlinks: strings_view(self.hyperlinks@),
            next_hyperlink: self.next_hyperlink,
            mouse_tracking: self.mouse_tracking,
            sgr_mouse: self.sgr_mouse,
            images: images_view(self.images@),
            next_image: self.next_image,
            pending_chunk: match self.pending_chunk {
                Some(c) => Some(chunk_view(c)),
                None => None,
            },
            pending_apc: match self.pending_apc {
                Some(p) => Some(p@),
                None => None,
            },
            parser_used: self.parser_used,
            vt_fed: self.parser.fed(),
        }
    }
}

/// Well-formed model: a non-empty screen of the configured size, the cursor
/// on a screen row and at most one column past a wide cell at the right
/// edge, the saved main screen (if any) of the same size.
pub open spec fn view_wf(s: TermView) -> bool {
    &&& s.config.cols >= 1
    &&& s.config.rows >= 1
    &&& s.grid.cols == s.config.cols
    &&& s.grid.rows == s.config.rows
    &&& s.grid.screen.len() == s.config.rows
    &&& s.config.cols <= 0x7fff_ffff
    &&& s.config.rows <= 0x7fff_ffff
    &&& s.cursor.x <= s.config.cols
    &&& s.cursor.y < s.config.rows
    &&& s.scroll_offset <= s.grid.history.len()
    &&& (s.alt is Some ==> s.grid.cap == 0 && s.grid.history.len() == 0)
    &&& s.parser_used == (s.vt_fed.len() > 0)
}

impl Terminal {
    /// Invariant of the executable state.
    pub open spec fn wf(&self) -> bool {
        &&& self.grid.wf()
        &&& view_wf(self@)
        &&& match self.alt_screen {
            Some(g) => g.wf() && g.cols == self.config.cols && g.rows == self.config.rows,
            None => true,
        }
        &&& obeys_key_model::<u32>()
        &&& builds_valid_hashers::<std::hash::RandomState>()
    }
}

pub open spec fn min_us(a: usize, b: usize) -> usize {
    if a <= b {
        a
    } else {
        b
    }
}

pub open spec fn max_us(a: usize, b: usize) -> usize {
    if a >= b {
        a
    } else {
        b
    }
}

/// Dirty box grown to include cell `(x, y)`.
pub open spec fn dirty_with(
    r: Option<(usize, usize, usize, usize)>,
    x: usize,
    y: usize,
) -> Option<(usize, usize, usize, usize)> {
    Some(
        match r {
            Some((x0, y0, x1, y1)) => (min_us(x0, x), min_us(y0, y), max_us(x1, x), max_us(y1, y)),
            None => (x, y, x, y),
        },
    )
}

/// Dirty box grown by the region `x..x+cols`, `y..y+rows` (clamped to the
/// screen): its first and last cell are added.
pub open spec fn dirty_with_range(
    s: TermView,
    x: usize,
    y: usize,
    cols: usize,
    rows: usize,
) -> Option<(usize, usize, usize, usize)> {
    let sc = s.config.cols;
    let sr = s.config.rows;
    let x1 = min_us(x, sc);
    let y1 = min_us(y, sr);
    let x2 = min_us((x + cols) as usize, sc);
    let y2 = min_us((y + rows) as usize, sr);
    dirty_with(
        dirty_with(s.dirty_rect, x1, y1),
        if x2 == 0 {
            0
        } else {
            (x2 - 1) as usize
        },
        if y2 == 0 {
            0
        } else {
            (y2 - 1) as usize
        },
    )
}

pub open spec fn with_cursor(s: TermView, c: Cursor) -> TermView {
    TermView { cursor: c, ..s }
}

/// Cursor moved below the last row scrolls the screen up one line.
pub open spec fn scroll_if_needed(s: TermView) -> TermView {
    if s.cursor.y >= s.config.rows {
        TermView {
            cursor: Cursor { y: (s.config.rows - 1) as usize, ..s.cursor },
            grid: grid_scroll1(s.grid),
            ..s
        }
    } else {
        s
    }
}

/// Line feed: one row down, scrolling at the bottom.
pub open spec fn linefeed(s: TermView) -> TermView {
    scroll_if_needed(
        with_cursor(
            s,
            Cursor { y: min_us((s.cursor.y + 1) as usize, s.config.rows), ..s.cursor },
        ),
    )
}

/// Carriage return: back to column 0.
pub open spec fn carriage_return(s: TermView) -> TermView {
    with_cursor(s, Cursor { x: 0, ..s.cursor })
}

/// Position for the next glyph: past the right edge it wraps to the start of
/// the next line (or stays on the last column when wrapping is off).
pub open spec fn wrap_if_needed(s: TermView) -> TermView {
    if s.cursor.x >= s.config.cols {
        if s.mode == Mode::Wrap {
            let t = scroll_if_needed(with_cursor(s, Cursor { y: (s.cursor.y + 1) as usize, ..s.cursor }));
            with_cursor(t, Cursor { x: 0, ..t.cursor })
        } else {
            with_cursor(s, Cursor { x: (s.config.cols - 1) as usize, ..s.cursor })
        }
    } else {
        s
    }
}

/// Attributes written with a glyph: the cursor's, with the open hyperlink.
pub open spec fn glyph_attrs(s: TermView) -> CellAttrs {
    CellAttrs { hyperlink: s.current_hyperlink, ..s.cursor.attrs }
}

/// The cell a printed glyph takes: one column, whatever the character
/// (double-width glyphs are not laid out over two columns).
pub open spec fn glyph_cell(ch: char, attrs: CellAttrs) -> Cell {
    Cell { ch, attrs, width: 1 }
}

/// Write glyph `ch` at the cursor and advance one column.
pub open spec fn write_glyph(t: TermView, ch: char) -> TermView {
    let c = glyph_cell(ch, glyph_attrs(t));
    TermView {
        grid: grid_set(t.grid, t.cursor.x as nat, t.cursor.y as int, c),
        cursor: Cursor { x: (t.cursor.x + 1) as usize, ..t.cursor },
        ..t
    }
}

/// Write glyph `ch` at the cursor (after wrapping) and advance one column.
pub open spec fn put_glyph(s: TermView, ch: char) -> TermView {
    write_glyph(wrap_if_needed(s), ch)
}

/// A character from the parser: CR, LF, other controls below 0x20 ignored,
/// anything else written.
pub open spec fn put_char(s: TermView, ch: char) -> TermView {
    if ch == '\r' {
        carriage_return(s)
    } else if ch == '\n' {
        linefeed(s)
    } else if (ch as u32) < 0x20 {
        s
    } else {
        put_glyph(s, ch)
    }
}

/// A printed character; the cell under the cursor afterwards becomes dirty.
pub open spec fn print(s: TermView, ch: char) -> TermView {
    let t = put_char(s, ch);
    TermView { dirty_rect: dirty_with(t.dirty_rect, t.cursor.x, t.cursor.y), ..t }
}

/// A control byte: BEL queues a bell event; CR, LF; TAB to the next multiple
/// of 8 (at most the last column); BS one column left.
pub open spec fn execute(s: TermView, b: u8) -> TermView {
    if b == 7 {
        TermView { events: s.events.push(EventView::Bell), ..s }
    } else if b == 13 {
        carriage_return(s)
    } else if b == 10 {
        linefeed(s)
    } else if b == 9 {
        with_cursor(
            s,
            Cursor {
                x: min_us((((s.cursor.x / 8) + 1) * 8) as usize, (s.config.cols - 1) as usize),
                ..s.cursor
            },
        )
    } else if b == 8 && s.cursor.x > 0 {
        with_cursor(s, Cursor { x: (s.cursor.x - 1) as usize, ..s.cursor })
    } else {
        s
    }
}

/// Bytes taken by the fast path: printable ASCII, CR and LF.
pub open spec fn is_fast_byte(b: u8) -> bool {
    (0x20 <= b <= 0x7e) || b == 13 || b == 10
}

/// One fast-path byte: CR, LF, or a printed character.
pub open spec fn fast_step(s: TermView, b: u8) -> TermView {
    if b == 13 {
        carriage_return(s)
    } else if b == 10 {
        linefeed(s)
    } else {
        print(s, b as char)
    }
}

/// A run of fast-path bytes, in order.
pub open spec fn put_fast(s: TermView, run: Seq<u8>) -> TermView
    decreases run.len(),
{
    if run.len() == 0 {
        s
    } else {
        fast_step(put_fast(s, run.drop_last()), run.last())
    }
}

/// The saved part of a terminal's state (a session snapshot): screen,
/// scrollback, cursor, modes and hyperlinks. Events, images and pending
/// input are not saved.
pub struct Snapshot {
    pub config: TerminalConfig,
    pub grid: Grid,
    pub cursor: Cursor,
    pub mode: Mode,
    pub alt_screen: Option<Grid>,
    pub scroll_offset: usize,
    pub current_hyperlink: Option<u32>,
    pub hyperlinks: HashMap<u32, String>,
    pub next_hyperlink: u32,
    pub mouse_tracking: bool,
    pub sgr_mouse: bool,
}

/// The snapshot of a terminal's saved part.
pub open spec fn snapshot_of(t: Terminal) -> Snapshot {
    Snapshot {
        config: t.config,
        grid: t.grid,
        cursor: t.cursor,
        mode: t.mode,
        alt_screen: t.alt_screen,
        scroll_offset: t.scroll_offset,
        current_hyperlink: t.current_hyperlink,
        hyperlinks: t.hyperlinks,
        next_hyperlink: t.next_hyperlink,
        mouse_tracking: t.mouse_tracking,
        sgr_mouse: t.sgr_mouse,
    }
}

/// A snapshot that describes a consistent terminal.
pub open spec fn restorable(s: Snapshot) -> bool {
    &&& s.grid.wf()
    &&& 1 <= s.config.cols <= 0x7fff_ffff
    &&& 1 <= s.config.rows <= 0x7fff_ffff
    &&& s.grid.cols == s.config.cols
    &&& s.grid.rows == s.config.rows
    &&& s.cursor.x <= s.config.cols
    &&& s.cursor.y < s.config.rows
    &&& s.scroll_offset <= s.grid.history().len()
    &&& match s.alt_screen {
        Some(g) => {
            &&& g.wf()
            &&& g.cols == s.config.cols
            &&& g.rows == s.config.rows
            &&& s.grid.scrollback.cap == 0
            &&& s.grid.history().len() == 0
        },
        None => true,
    }
}

/// The terminal a snapshot restores: its saved state, with no events, no
/// dirty region, no images and nothing pending.
pub open spec fn restored_view(s: Snapshot) -> TermView {
    TermView {
        config: s.config,
        grid: s.grid@,
        cursor: s.cursor,
        mode: s.mode,
        alt: match s.alt_screen {
            Some(g) => Some(g@),
            None => None,
        },
        events: Seq::empty(),
        dirty_rect: None,
        scroll_offset: s.scroll_offset,
        current_hyperlink: s.current_hyperlink,
        hyperlinks: strings_view(s.hyperlinks@),
        next_hyperlink: s.next_hyperlink,
        mouse_tracking: s.mouse_tracking,
        sgr_mouse: s.sgr_mouse,
        images: Map::empty(),
        next_image: 0,
        pending_chunk: None,
        pending_apc: None,
        parser_used: false,
        vt_fed: Seq::empty(),
    }
}

impl Terminal {
    /// A blank terminal; columns and rows are raised to at least 1.
    ///
    /// Sizes above 0x7fff_ffff are not taken: a position plus a CSI
    /// parameter (up to 65535) must stay within `usize` on a 32-bit target,
    /// and no such screen could be allocated (the bridge caps screens at
    /// 1024 x 512).
    pub fn new(config: TerminalConfig) -> (t: Self)
        requires
            config.cols <= 0x7fff_ffff,
            config.rows <= 0x7fff_ffff,
        ensures
            t.wf(),
            t@ == initial_view(config),
    {
        let config = TerminalConfig {
            cols: if config.cols < 1 { 1 } else { config.cols },
            rows: if config.rows < 1 { 1 } else { config.rows },
            scrollback_cap: config.scrollback_cap,
        };
        let grid = Grid::new(config.cols, config.rows, config.scrollback_cap);
        let cursor = Cursor { x: 0, y: 0, saved_x: 0, saved_y: 0, attrs: CellAttrs::default() };
        let t = Terminal {
            config,
            grid,
            cursor,
            mode: Mode::Wrap,
            alt_screen: None,
            events: VecDeque::new(),
            dirty_rect: None,
            scroll_offset: 0,
            current_hyperlink: None,
            hyperlinks: HashMap::new(),
            next_hyperlink: 0,
            mouse_tracking: false,
            sgr_mouse: false,
            images: HashMap::new(),
            next_image: 0,
            pending_chunk: None,
            pending_apc: None,
            parser: crate::vt::new_parser(),
            parser_used: false,
        };
        assert(t@.events =~= Seq::<EventView>::empty());
        assert(t@.hyperlinks =~= Map::<u32, Seq<char>>::empty());
        assert(t@.images =~= Map::<u32, ImageView>::empty());
        t
    }

    /// The terminal saved in `s`; `None` when the snapshot is not
    /// consistent (see [`restorable`]): a grid of the wrong shape or a
    /// cursor off the screen would make later writes index out of range,
    /// so such a snapshot is refused rather than read.
    pub fn restore(s: Snapshot) -> (r: Option<Terminal>)
        ensures
            r is Some <==> restorable(s),
            r matches Some(t) ==> t.wf() && t@ == restored_view(s),
    {
        let ok_grid = s.grid.check_wf();
        let ok_alt = match &s.alt_screen {
            Some(g) => g.check_wf() && g.cols == s.config.cols && g.rows == s.config.rows
                && s.grid.scrollback.cap == 0 && s.grid.scrollback.lines.len() == 0,
            None => true,
        };
        if !ok_grid || !ok_alt {
            return None;
        }
        if s.config.cols < 1 || s.config.cols > 0x7fff_ffff || s.config.rows < 1 || s.config.rows
            > 0x7fff_ffff {
            return None;
        }
        if s.grid.cols != s.config.cols || s.grid.rows != s.config.rows {
            return None;
        }
        if s.cursor.x > s.config.cols || s.cursor.y >= s.config.rows {
            return None;
        }
        if s.scroll_offset > s.grid.scrollback.lines.len() {
            return None;
        }
        let t = Terminal {
            config: s.config,
            grid: s.grid,
            cursor: s.cursor,
            mode: s.mode,
            alt_screen: s.alt_screen,
            events: VecDeque::new(),
            dirty_rect: None,
            scroll_offset: s.scroll_offset,
            current_hyperlink: s.current_hyperlink,
            hyperlinks: s.hyperlinks,
            next_hyperlink: s.next_hyperlink,
            mouse_tracking: s.mouse_tracking,
            sgr_mouse: s.sgr_mouse,
            images: HashMap::new(),
            next_image: 0,
            pending_chunk: None,
            pending_apc: None,
            parser: crate::vt::new_parser(),
            parser_used: false,
        };
        assert(t@.events =~= Seq::<EventView>::empty());
        assert(t@.images =~= Map::<u32, ImageView>::empty());
        Some(t)
    }

    pub fn cols(&self) -> (c: usize)
        ensures
            c == self.config.cols,
    {
        self.config.cols
    }

    pub fn rows(&self) -> (r: usize)
        ensures
            r == self.config.rows,
    {
        self.config.rows
    }

    /// Number of lines the viewport can scroll back (the scrollback length).
    pub fn scrollback_len(&self) -> (n: usize)
        ensures
            n == self@.grid.history.len(),
    {
        self.grid.scrollback_len()
    }

    pub fn scroll_offset(&self) -> (k: usize)
        ensures
            k == self.scroll_offset,
    {
        self.scroll_offset
    }

    /// Set the viewport offset (0 = follow the bottom), clamped to the
    /// scrollback. When it changes, the whole screen becomes dirty.
    pub fn set_scroll_offset(&mut self, k: usize)
        requires
            old(self).wf(),
        ensures
            final(self).wf(),
            final(self)@ == set_scroll_offset_spec(old(self)@, k),
    {
        let n = self.grid.scrollback_len();
        let k = if k < n { k } else { n };
        if k != self.scroll_offset {
            self.scroll_offset = k;
            let cols = self.cols();
            let rows = self.rows();
            self.dirty_rect = Some((0, 0, cols, rows));
        }
    }

    /// Display line `y` through the viewport (history when scrolled back).
    pub fn view_line(&self, y: usize) -> (l: &Line)
        requires
            self.wf(),
            y < self.config.rows,
        ensures
            l.cells@ == view_row(self@.grid, y as int, self.scroll_offset as nat),
    {
        self.grid.view_line(y, self.scroll_offset)
    }

    /// Encode a mouse event as SGR (mode 1006) into `out`. Nothing is written,
    /// and false returned, while SGR mode is off, so the UI may send without
    /// checking the mode first.
    pub fn sgr_mouse_seq(
        &self,
        code: u8,
        mods: u8,
        release: bool,
        x: usize,
        y: usize,
        out: &mut Vec<u8>,
    ) -> (sent: bool)
        ensures
            sent == self.sgr_mouse,
            final(out)@ == (if self.sgr_mouse {
                old(out)@ + crate::mouse::sgr_seq(code, mods, release, x, y)
            } else {
                old(out)@
            }),
    {
        if !self.sgr_mouse {
            return false;
        }
        crate::mouse::encode(code, mods, release, x, y, out);
        true
    }

    pub fn set_title(&mut self, title: String)
        requires
            old(self).wf(),
        ensures
            final(self).wf(),
            final(self)@ == (TermView {
                events: old(self)@.events.push(EventView::Title(title@)),
                ..old(self)@
            }),
    {
        self.events.push_back(TerminalEvent::Title(title));
        assert(self@.events =~= old(self)@.events.push(EventView::Title(title@)));
    }

    /// Pop the oldest event.
    pub fn take_event(&mut self) -> (e: Option<TerminalEvent>)
        requires
            old(self).wf(),
        ensures
            final(self).wf(),
            old(self)@.events.len() == 0 ==> e is None && final(self)@ == old(self)@,
            old(self)@.events.len() > 0 ==> e is Some && event_view(e->0) == old(self)@.events[0]
                && final(self)@ == (TermView { events: old(self)@.events.drop_first(), ..old(self)@ }),
    {
        let e = self.events.pop_front();
        assert(self@.events =~= (if old(self)@.events.len() > 0 { old(self)@.events.drop_first() } else { old(self)@.events }));
        e
    }

    pub fn has_event(&self) -> (b: bool)
        ensures
            b == (self@.events.len() > 0),
    {
        self.events.len() > 0
    }

    /// URI of hyperlink `id` (OSC 8); `None` for an unknown id.
    pub fn hyperlink_uri(&self, id: u32) -> (r: Option<&str>)
        requires
            self.wf(),
        ensures
            match r {
                Some(s) => self@.hyperlinks.contains_key(id) && s@ == self@.hyperlinks[id],
                None => !self@.hyperlinks.contains_key(id),
            },
    {
        match self.hyperlinks.get(&id) {
            Some(s) => Some(s.as_str()),
            None => None,
        }
    }

    pub(crate) fn mark_dirty(&mut self, x: usize, y: usize)
        ensures
            final(self)@ == (TermView { dirty_rect: dirty_with(old(self)@.dirty_rect, x, y), ..old(self)@ }),
            final(self).grid == old(self).grid,
            final(self).alt_screen == old(self).alt_screen,
    {
        self.dirty_rect = Some(
            match self.dirty_rect {
                Some((x0, y0, x1, y1)) => (
                    if x0 <= x { x0 } else { x },
                    if y0 <= y { y0 } else { y },
                    if x1 >= x { x1 } else { x },
                    if y1 >= y { y1 } else { y },
                ),
                None => (x, y, x, y),
            },
        );
    }

    pub(crate) fn maybe_scroll(&mut self)
        requires
            old(self).grid.wf(),
            old(self).grid.rows == old(self).config.rows,
            old(self).grid.cols == old(self).config.cols,
            old(self).config.rows >= 1,
        ensures
            final(self)@ == scroll_if_needed(old(self)@),
            final(self).grid.wf(),
            final(self).alt_screen == old(self).alt_screen,
    {
        if self.cursor.y >= self.rows() {
            self.cursor.y = self.rows() - 1;
            self.grid.scroll_up(1);
            proof {
                lemma_scroll_one(old(self).grid@);
            }
        }
    }
}

/// The model of a new terminal.
pub open spec fn initial_view(config: TerminalConfig) -> TermView {
    let cols: usize = if config.cols < 1 { 1 } else { config.cols };
    let rows: usize = if config.rows < 1 { 1 } else { config.rows };
    TermView {
        config: TerminalConfig { cols, rows, scrollback_cap: config.scrollback_cap },
        grid: blank_grid(cols as nat, rows as nat, config.scrollback_cap as nat),
        cursor: Cursor { x: 0, y: 0, saved_x: 0, saved_y: 0, attrs: plain_attrs() },
        mode: Mode::Wrap,
        alt: None,
        events: Seq::empty(),
        dirty_rect: None,
        scroll_offset: 0,
        current_hyperlink: None,
        hyperlinks: Map::empty(),
        next_hyperlink: 0,
        mouse_tracking: false,
        sgr_mouse: false,
        images: Map::empty(),
        next_image: 0,
        pending_chunk: None,
        pending_apc: None,
        parser_used: false,
        vt_fed: Seq::empty(),
    }
}

/// Viewport offset set to `k` clamped to the history; a change marks the
/// whole screen dirty.
pub open spec fn set_scroll_offset_spec(s: TermView, k: usize) -> TermView {
    let n = s.grid.history.len();
    let kk: usize = if k < n { k } else { n as usize };
    if kk != s.scroll_offset {
        TermView {
            scroll_offset: kk,
            dirty_rect: Some((0, 0, s.config.cols, s.config.rows)),
            ..s
        }
    } else {
        s
    }
}

impl Terminal {
    /// Write glyph `ch` at the cursor, wrapping first when past the edge.
    fn put_glyph(&mut self, ch: char)
        requires
            old(self).wf(),
        ensures
            final(self).wf(),
            final(self)@ == put_glyph(old(self)@, ch),
    {
        self.wrap_cursor();
        self.write_glyph(ch);
    }

    /// Past the right edge: wrap to the next line, or stay on the last column.
    fn wrap_cursor(&mut self)
        requires
            old(self).wf(),
        ensures
            final(self).wf(),
            final(self)@ == wrap_if_needed(old(self)@),
            final(self).cursor.x < final(self).config.cols,
    {
        if self.cursor.x >= self.cols() {
            if self.mode == Mode::Wrap {
                self.cursor.y = self.cursor.y + 1;
                self.maybe_scroll();
                self.cursor.x = 0;
            } else {
                self.cursor.x = self.cols() - 1;
            }
        }
    }

    fn write_glyph(&mut self, ch: char)
        requires
            old(self).wf(),
            old(self).cursor.x < old(self).config.cols,
        ensures
            final(self).wf(),
            final(self)@ == write_glyph(old(self)@, ch),
    {
        let attrs = CellAttrs { hyperlink: self.current_hyperlink, ..self.cursor.attrs };
        let _ = self.grid.set(self.cursor.x, self.cursor.y, Cell { ch, attrs, width: 1 });
        self.cursor.x = self.cursor.x + 1;
    }

    fn linefeed(&mut self)
        requires
            old(self).wf(),
        ensures
            final(self).wf(),
            final(self)@ == linefeed(old(self)@),
    {
        let y = self.cursor.y + 1;
        self.cursor.y = if y < self.rows() { y } else { self.rows() };
        self.maybe_scroll();
    }

    fn put_char(&mut self, ch: char)
        requires
            old(self).wf(),
        ensures
            final(self).wf(),
            final(self)@ == put_char(old(self)@, ch),
    {
        if ch == '\r' {
            self.cursor.x = 0;
        } else if ch == '\n' {
            self.linefeed();
        } else if (ch as u32) < 0x20 {
        } else {
            self.put_glyph(ch);
        }
    }

    /// A printable character from the parser.
    pub fn print(&mut self, ch: char)
        requires
            old(self).wf(),
        ensures
            final(self).wf(),
            final(self)@ == print(old(self)@, ch),
    {
        self.put_char(ch);
        let x = self.cursor.x;
        let y = self.cursor.y;
        self.mark_dirty(x, y);
    }

    /// A control byte from the parser.
    pub fn execute(&mut self, b: u8)
        requires
            old(self).wf(),
        ensures
            final(self).wf(),
            final(self)@ == execute(old(self)@, b),
    {
        if b == 7 {
            self.events.push_back(TerminalEvent::Bell);
            assert(self@.events =~= old(self)@.events.push(EventView::Bell));
        } else if b == 13 {
            self.cursor.x = 0;
        } else if b == 10 {
            self.linefeed();
        } else if b == 9 {
            let next = ((self.cursor.x / 8) + 1) * 8;
            let last = self.cols() - 1;
            self.cursor.x = if next <= last { next } else { last };
        } else if b == 8 && self.cursor.x > 0 {
            self.cursor.x = self.cursor.x - 1;
        }
    }

    /// A run of fast-path bytes (printable ASCII, CR, LF).
    pub(crate) fn put_fast(&mut self, run: &[u8])
        requires
            old(self).wf(),
            forall|i: int| 0 <= i < run@.len() ==> is_fast_byte(#[trigger] run@[i]),
        ensures
            final(self).wf(),
            final(self)@ == put_fast(old(self)@, run@),
    {
        let mut i: usize = 0;
        while i < run.len()
            invariant
                self.wf(),
                i <= run@.len(),
                self@ == put_fast(old(self)@, run@.take(i as int)),
            decreases run@.len() - i,
        {
            let b = run[i];
            assert(run@.take(i + 1).drop_last() =~= run@.take(i as int));
            if b == 13 {
                self.cursor.x = 0;
            } else if b == 10 {
                self.linefeed();
            } else {
                self.print(b as char);
            }
            i = i + 1;
        }
        assert(run@.take(i as int) =~= run@);
    }

    /// Resize screen (and the saved main screen) to `cols` x `rows`, both
    /// raised to at least 1; the cursor is kept inside.
    ///
    /// A size of 0 is raised because the cursor needs a cell to stand on.
    /// The main screen saved while the alternate one is shown is resized
    /// too: it comes back as the screen when the alternate screen is left,
    /// and at its old size it would not match the configured size that the
    /// cursor and every write are checked against. Sizes are bounded as in
    /// [`Terminal::new`].
    pub fn resize(&mut self, cols: usize, rows: usize)
        requires
            old(self).wf(),
            cols <= 0x7fff_ffff,
            rows <= 0x7fff_ffff,
        ensures
            final(self).wf(),
            final(self)@ == resize_spec(old(self)@, cols, rows),
    {
        let cols = if cols < 1 { 1 } else { cols };
        let rows = if rows < 1 { 1 } else { rows };
        self.config.cols = cols;
        self.config.rows = rows;
        self.grid.resize(cols, rows);
        let mut saved = None;
        std::mem::swap(&mut saved, &mut self.alt_screen);
        match saved {
            Some(mut g) => {
                g.resize(cols, rows);
                self.alt_screen = Some(g);
            },
            None => {},
        }
        self.cursor.x = if self.cursor.x < cols - 1 { self.cursor.x } else { cols - 1 };
        self.cursor.y = if self.cursor.y < rows - 1 { self.cursor.y } else { rows - 1 };
        let n = self.grid.scrollback_len();
        self.scroll_offset = if self.scroll_offset < n { self.scroll_offset } else { n };
    }

    /// Switch to a blank alternate screen, keeping the main screen aside.
    pub(crate) fn enter_alt(&mut self)
        requires
            old(self).wf(),
            old(self).alt_screen is None,
        ensures
            final(self).wf(),
            final(self)@ == enter_alt(old(self)@),
    {
        self.scroll_offset = 0;
        let mut g = Grid::new(self.cols(), self.rows(), 0);
        std::mem::swap(&mut self.grid, &mut g);
        self.alt_screen = Some(g);
    }
}

pub open spec fn sat_sub(a: usize, b: usize) -> usize {
    if a >= b {
        (a - b) as usize
    } else {
        0
    }
}

/// Terminal resized: dimensions raised to at least 1, screen and saved main
/// screen resized, cursor clamped to the last column and row.
pub open spec fn resize_spec(s: TermView, cols: usize, rows: usize) -> TermView {
    let c: usize = if cols < 1 { 1 } else { cols };
    let r: usize = if rows < 1 { 1 } else { rows };
    TermView {
        config: TerminalConfig { cols: c, rows: r, ..s.config },
        grid: grid_resize(s.grid, c as nat, r as nat),
        alt: match s.alt {
            Some(g) => Some(grid_resize(g, c as nat, r as nat)),
            None => None,
        },
        cursor: Cursor {
            x: min_us(s.cursor.x, (c - 1) as usize),
            y: min_us(s.cursor.y, (r - 1) as usize),
            ..s.cursor
        },
        ..s
    }
}

/// Alternate screen entered: a blank screen without scrollback; the main
/// screen is kept aside; the viewport returns to the bottom.
pub open spec fn enter_alt(s: TermView) -> TermView {
    TermView {
        scroll_offset: 0,
        alt: Some(s.grid),
        grid: blank_grid(s.config.cols as nat, s.config.rows as nat, 0),
        ..s
    }
}

} // verus!
