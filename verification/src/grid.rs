//! Cell buffer model: screen lines of cells plus a bounded scrollback history.

use vstd::prelude::*;

verus! {

/// Text attributes of one cell.
#[derive(Debug, Clone, Copy, PartialEq, Eq, Structural)]
pub struct CellAttrs {
    pub bold: bool,
    pub italic: bool,
    pub underline: bool,
    pub strikethrough: bool,
    pub inverse: bool,
    pub fg: Color,
    pub bg: Color,
    /// OSC 8 hyperlink id attached to the cell (see `Terminal::hyperlink_uri`).
    pub hyperlink: Option<u32>,
    /// Kitty image id placed over the cell.
    pub image: Option<u32>,
}

/// The attributes of a blank, unstyled cell.
pub open spec fn plain_attrs() -> CellAttrs {
    CellAttrs {
        bold: false,
        italic: false,
        underline: false,
        strikethrough: false,
        inverse: false,
        fg: Color::Default,
        bg: Color::Default,
        hyperlink: None,
        image: None,
    }
}

impl Default for CellAttrs {
    fn default() -> (a: Self)
        ensures
            a == plain_attrs(),
    {
        CellAttrs {
            bold: false,
            italic: false,
            underline: false,
            strikethrough: false,
            inverse: false,
            fg: Color::Default,
            bg: Color::Default,
            hyperlink: None,
            image: None,
        }
    }
}

impl CellAttrs {
    /// True when the attributes are those of an unstyled cell.
    pub fn is_plain(self) -> (b: bool)
        ensures
            b == (self == plain_attrs()),
    {
        self == CellAttrs::default()
    }
}

#[derive(Debug, Clone, Copy, PartialEq, Eq, Structural)]
pub enum Color {
    Default,
    Indexed(u8),
    Rgb(u8, u8, u8),
}

/// The sixteen base colors of the xterm palette.
pub open spec fn base16(i: int) -> (u8, u8, u8) {
    if i == 0 {
        (0, 0, 0)
    } else if i == 1 {
        (205, 0, 0)
    } else if i == 2 {
        (0, 205, 0)
    } else if i == 3 {
        (205, 205, 0)
    } else if i == 4 {
        (0, 0, 238)
    } else if i == 5 {
        (205, 0, 205)
    } else if i == 6 {
        (0, 205, 205)
    } else if i == 7 {
        (229, 229, 229)
    } else if i == 8 {
        (127, 127, 127)
    } else if i == 9 {
        (255, 0, 0)
    } else if i == 10 {
        (0, 255, 0)
    } else if i == 11 {
        (255, 255, 0)
    } else if i == 12 {
        (92, 92, 255)
    } else if i == 13 {
        (255, 0, 255)
    } else if i == 14 {
        (0, 255, 255)
    } else {
        (255, 255, 255)
    }
}

/// Intensity of step `k` (0..=5) of the 6x6x6 color cube.
pub open spec fn cube_level(k: int) -> int {
    if k == 0 {
        0
    } else {
        55 + 40 * k
    }
}

/// RGB value of an entry of the xterm 256-color palette.
pub open spec fn spec_indexed_to_rgb(i: u8) -> (u8, u8, u8) {
    if i < 16 {
        base16(i as int)
    } else if i < 232 {
        let n = i - 16;
        (
            cube_level(n / 36) as u8,
            cube_level((n / 6) % 6) as u8,
            cube_level(n % 6) as u8,
        )
    } else {
        let v = (8 + 10 * (i - 232)) as u8;
        (v, v, v)
    }
}

fn cube_step(k: u8) -> (v: u8)
    requires
        k < 6,
    ensures
        v == cube_level(k as int),
{
    if k == 0 {
        0
    } else {
        55 + 40 * k
    }
}

/// RGB value of an entry of the xterm 256-color palette
/// (16 base colors, 6x6x6 cube, 24-step gray ramp).
pub fn indexed_to_rgb(i: u8) -> (rgb: (u8, u8, u8))
    ensures
        rgb == spec_indexed_to_rgb(i),
{
    if i < 16 {
        let t: [(u8, u8, u8); 16] = [
            (0, 0, 0),
            (205, 0, 0),
            (0, 205, 0),
            (205, 205, 0),
            (0, 0, 238),
            (205, 0, 205),
            (0, 205, 205),
            (229, 229, 229),
            (127, 127, 127),
            (255, 0, 0),
            (0, 255, 0),
            (255, 255, 0),
            (92, 92, 255),
            (255, 0, 255),
            (0, 255, 255),
            (255, 255, 255),
        ];
        let r = t[i as usize];
        assert(r == base16(i as int));
        r
    } else if i < 232 {
        let n = i - 16;
        (cube_step(n / 36), cube_step((n / 6) % 6), cube_step(n % 6))
    } else {
        let v = 8 + 10 * (i - 232);
        (v, v, v)
    }
}

impl Color {
    /// RGB of the color; `None` for the default color (the renderer chooses).
    pub open spec fn spec_to_rgb24(self) -> Option<(u8, u8, u8)> {
        match self {
            Color::Default => None,
            Color::Indexed(i) => Some(spec_indexed_to_rgb(i)),
            Color::Rgb(r, g, b) => Some((r, g, b)),
        }
    }

    pub fn to_rgb24(self) -> (r: Option<(u8, u8, u8)>)
        ensures
            r == self.spec_to_rgb24(),
    {
        match self {
            Color::Default => None,
            Color::Indexed(i) => Some(indexed_to_rgb(i)),
            Color::Rgb(r, g, b) => Some((r, g, b)),
        }
    }
}

/// One terminal cell. `width` is 2 for wide (CJK/emoji) characters.
#[derive(Debug, Clone, Copy, PartialEq, Eq, Structural)]
pub struct Cell {
    pub ch: char,
    pub attrs: CellAttrs,
    pub width: u8,
}

/// Display width of a character: 2 inside the wide East Asian and emoji
/// blocks, 1 otherwise.
pub open spec fn spec_text_width(ch: char) -> u8 {
    let cp = ch as u32;
    if (0x1100 <= cp <= 0x115F) || (0x2E80 <= cp <= 0xA4CF) || (0xAC00 <= cp <= 0xD7A3) || (0xF900
        <= cp <= 0xFAFF) || (0xFE30 <= cp <= 0xFE4F) || (0xFF00 <= cp <= 0xFF60) || (0xFFE0 <= cp
        <= 0xFFE6) || (0x1F300 <= cp <= 0x1FAFF) {
        2
    } else {
        1
    }
}

pub fn text_width(ch: char) -> (w: u8)
    ensures
        w == spec_text_width(ch),
{
    if ch == '\u{0}' {
        return 1;
    }
    let cp = ch as u32;
    if (0x1100 <= cp && cp <= 0x115F) || (0x2E80 <= cp && cp <= 0xA4CF) || (0xAC00 <= cp && cp
        <= 0xD7A3) || (0xF900 <= cp && cp <= 0xFAFF) || (0xFE30 <= cp && cp <= 0xFE4F) || (0xFF00
        <= cp && cp <= 0xFF60) || (0xFFE0 <= cp && cp <= 0xFFE6) || (0x1F300 <= cp && cp
        <= 0x1FAFF) {
        2
    } else {
        1
    }
}

pub open spec fn spec_cell(ch: char, attrs: CellAttrs) -> Cell {
    Cell { ch, attrs, width: spec_text_width(ch) }
}

/// An empty cell: a space without attributes.
pub open spec fn blank_cell() -> Cell {
    Cell { ch: ' ', attrs: plain_attrs(), width: 1 }
}

pub fn blank() -> (c: Cell)
    ensures
        c == blank_cell(),
{
    Cell::new(' ', CellAttrs::default())
}

impl Cell {
    pub fn new(ch: char, attrs: CellAttrs) -> (c: Self)
        ensures
            c == spec_cell(ch, attrs),
    {
        Cell { ch, attrs, width: text_width(ch) }
    }

    pub fn is_empty(&self) -> (b: bool)
        ensures
            b == (self.ch == ' '),
    {
        self.ch == ' '
    }
}

pub open spec fn blank_row(cols: nat) -> Seq<Cell> {
    Seq::new(cols, |i: int| blank_cell())
}

#[derive(Debug, Clone)]
pub struct Line {
    pub cells: Vec<Cell>,
    pub dirty: bool,
}

impl Line {
    pub fn new(cols: usize) -> (l: Self)
        ensures
            l.cells@ == blank_row(cols as nat),
            l.dirty,
    {
        let mut cells: Vec<Cell> = Vec::with_capacity(cols);
        let mut i: usize = 0;
        while i < cols
            invariant
                i <= cols,
                cells@ == blank_row(i as nat),
            decreases cols - i,
        {
            cells.push(blank());
            i = i + 1;
        }
        Line { cells, dirty: true }
    }
}

/// Cells of each line of a sequence of lines.
pub open spec fn cells_of(lines: Seq<Line>) -> Seq<Seq<Cell>> {
    Seq::new(lines.len(), |i: int| lines[i].cells@)
}

/// Bounded history of lines that scrolled off the top of the screen,
/// oldest first.
#[derive(Debug, Clone)]
pub struct Scrollback {
    pub lines: Vec<Line>,
    pub cap: usize,
}

/// History after pushing `l`: the oldest line leaves once `cap` lines are
/// kept; with no capacity nothing is kept.
pub open spec fn history_push<T>(h: Seq<T>, cap: nat, l: T) -> Seq<T> {
    if cap == 0 {
        h
    } else if h.len() >= cap {
        h.drop_first().push(l)
    } else {
        h.push(l)
    }
}

impl Scrollback {
    pub open spec fn history(&self) -> Seq<Seq<Cell>> {
        cells_of(self.lines@)
    }

    pub open spec fn wf(&self) -> bool {
        self.lines@.len() <= self.cap
    }

    pub fn new(cap_entries: usize) -> (s: Self)
        ensures
            s.history() == Seq::<Seq<Cell>>::empty(),
            s.cap == cap_entries,
            s.wf(),
    {
        Scrollback { lines: Vec::new(), cap: cap_entries }
    }

    pub fn push(&mut self, line: Line)
        requires
            old(self).wf(),
        ensures
            final(self).wf(),
            final(self).cap == old(self).cap,
            final(self).lines@ == history_push(old(self).lines@, old(self).cap as nat, line),
            final(self).history() == history_push(
                old(self).history(),
                old(self).cap as nat,
                line.cells@,
            ),
    {
        if self.cap == 0 {
            return ;
        }
        if self.lines.len() == self.cap {
            self.lines.remove(0);
        }
        let ghost l = line;
        self.lines.push(line);
        assert(self.lines@ =~= history_push(old(self).lines@, old(self).cap as nat, l));
        assert(self.history() =~= history_push(old(self).history(), old(self).cap as nat, l.cells@));
    }

    pub fn len(&self) -> (n: usize)
        ensures
            n == self.history().len(),
    {
        self.lines.len()
    }

    pub fn is_empty(&self) -> (b: bool)
        ensures
            b == (self.history().len() == 0),
    {
        self.lines.len() == 0
    }

    /// The kept lines, oldest first.
    pub fn iter(&self) -> (it: std::slice::Iter<'_, Line>)
        ensures
            vstd::std_specs::iter::IteratorSpec::remaining(&it) == self.lines@.as_ref(),
    {
        broadcast use vstd::std_specs::slice::axiom_spec_slice_iter;
        self.lines.as_slice().iter()
    }
}

/// Screen buffer: `rows` lines of `cols` cells, plus scrollback.
#[derive(Debug, Clone)]
pub struct Grid {
    pub lines: Vec<Line>,
    pub cols: usize,
    pub rows: usize,
    pub scrollback: Scrollback,
}

/// Line `y` of `row` after writing cell `c` at column `x` (clamped to the last
/// column); a wide cell blanks the column to its right.
pub open spec fn row_set(row: Seq<Cell>, cols: nat, x: nat, c: Cell) -> Seq<Cell> {
    let xi = if x < cols { x } else { (cols - 1) as nat };
    let r = row.update(xi as int, c);
    if c.width == 2 && x + 1 < cols {
        r.update(x + 1 as int, blank_cell())
    } else {
        r
    }
}

/// Row with columns `lo..hi` blanked.
pub open spec fn row_clear(row: Seq<Cell>, lo: int, hi: int) -> Seq<Cell> {
    Seq::new(row.len(), |i: int| if lo <= i < hi { blank_cell() } else { row[i] })
}

/// Row resized to `cols` cells: truncated, or padded with blanks.
pub open spec fn row_resized(row: Seq<Cell>, cols: nat) -> Seq<Cell> {
    Seq::new(cols, |i: int| if i < row.len() { row[i] } else { blank_cell() })
}

/// Screen and history after scrolling up `n` lines.
pub open spec fn scrolled(
    screen: Seq<Seq<Cell>>,
    hist: Seq<Seq<Cell>>,
    cap: nat,
    cols: nat,
    n: nat,
) -> (Seq<Seq<Cell>>, Seq<Seq<Cell>>)
    decreases n,
{
    if n == 0 || screen.len() == 0 {
        (screen, hist)
    } else {
        scrolled(
            screen.drop_first().push(blank_row(cols)),
            history_push(hist, cap, screen[0]),
            cap,
            cols,
            (n - 1) as nat,
        )
    }
}


/// Mathematical model of a grid: dimensions, screen cells, per-line dirty
/// flags, and the scrollback history (oldest first) with its capacity.
pub struct GridView {
    pub cols: nat,
    pub rows: nat,
    pub cap: nat,
    pub screen: Seq<Seq<Cell>>,
    pub dirty: Seq<bool>,
    pub history: Seq<Seq<Cell>>,
}

/// Dirty flags of a sequence of lines.
pub open spec fn dirty_of(lines: Seq<Line>) -> Seq<bool> {
    Seq::new(lines.len(), |i: int| lines[i].dirty)
}

impl View for Grid {
    type V = GridView;

    open spec fn view(&self) -> GridView {
        GridView {
            cols: self.cols as nat,
            rows: self.rows as nat,
            cap: self.scrollback.cap as nat,
            screen: self.screen(),
            dirty: dirty_of(self.lines@),
            history: self.history(),
        }
    }
}

/// A blank grid.
pub open spec fn blank_grid(cols: nat, rows: nat, cap: nat) -> GridView {
    GridView {
        cols,
        rows,
        cap,
        screen: Seq::new(rows, |i: int| blank_row(cols)),
        dirty: Seq::new(rows, |i: int| true),
        history: Seq::empty(),
    }
}

/// Grid after writing cell `c` at `(x, y)` (see [`row_set`]).
pub open spec fn grid_set(g: GridView, x: nat, y: int, c: Cell) -> GridView {
    GridView {
        screen: g.screen.update(y, row_set(g.screen[y], g.cols, x, c)),
        dirty: g.dirty.update(y, true),
        ..g
    }
}

/// Grid after blanking columns `from..to` (clamped to `cols`) of line `y`.
pub open spec fn grid_clear_range(g: GridView, y: int, from: int, to: int) -> GridView {
    GridView {
        screen: g.screen.update(y, row_clear(g.screen[y], from, to)),
        dirty: g.dirty.update(y, true),
        ..g
    }
}

/// Grid after scrolling up one line: the top line goes to the history and a
/// blank dirty line enters at the bottom.
pub open spec fn grid_scroll1(g: GridView) -> GridView {
    if g.screen.len() == 0 {
        g
    } else {
        GridView {
            screen: g.screen.drop_first().push(blank_row(g.cols)),
            dirty: g.dirty.drop_first().push(true),
            history: history_push(g.history, g.cap, g.screen[0]),
            ..g
        }
    }
}

/// Grid after scrolling up `n` lines.
pub open spec fn grid_scroll(g: GridView, n: nat) -> GridView
    decreases n,
{
    if n == 0 {
        g
    } else {
        grid_scroll(grid_scroll1(g), (n - 1) as nat)
    }
}

/// Grid resized to `cols` x `rows`: lines are cut or padded, missing lines
/// are blank; every line is dirty; the history stays.
pub open spec fn grid_resize(g: GridView, cols: nat, rows: nat) -> GridView {
    GridView {
        cols,
        rows,
        screen: Seq::new(
            rows,
            |i: int|
                if i < g.screen.len() {
                    row_resized(g.screen[i], cols)
                } else {
                    blank_row(cols)
                },
        ),
        dirty: Seq::new(rows, |i: int| true),
        ..g
    }
}

impl Grid {
    /// Cells of each screen line, top first.
    pub open spec fn screen(&self) -> Seq<Seq<Cell>> {
        cells_of(self.lines@)
    }

    pub open spec fn history(&self) -> Seq<Seq<Cell>> {
        self.scrollback.history()
    }

    /// Line count equals `rows`, every line has `cols` cells.
    pub open spec fn wf(&self) -> bool {
        &&& self.lines@.len() == self.rows
        &&& forall|i: int| 0 <= i < self.rows ==> (#[trigger] self.lines@[i]).cells@.len() == self.cols
        &&& self.scrollback.wf()
    }

    /// Whether the grid is well formed (see [`Grid::wf`]); used on grids
    /// read back from a saved session.
    pub fn check_wf(&self) -> (b: bool)
        ensures
            b == self.wf(),
    {
        if self.lines.len() != self.rows || self.scrollback.lines.len() > self.scrollback.cap {
            return false;
        }
        let mut i: usize = 0;
        while i < self.lines.len()
            invariant
                i <= self.lines@.len(),
                self.lines@.len() == self.rows,
                forall|j: int| 0 <= j < i ==> (#[trigger] self.lines@[j]).cells@.len() == self.cols,
            decreases self.lines@.len() - i,
        {
            if self.lines[i].cells.len() != self.cols {
                return false;
            }
            i = i + 1;
        }
        true
    }

    /// A blank grid; columns and rows are raised to at least 1.
    pub fn new(cols: usize, rows: usize, scrollback_cap: usize) -> (g: Self)
        ensures
            g.wf(),
            g@ == blank_grid(
                (if cols < 1 { 1 } else { cols }) as nat,
                (if rows < 1 { 1 } else { rows }) as nat,
                scrollback_cap as nat,
            ),
    {
        let cols = if cols < 1 { 1 } else { cols };
        let rows = if rows < 1 { 1 } else { rows };
        let mut lines: Vec<Line> = Vec::with_capacity(rows);
        let mut i: usize = 0;
        while i < rows
            invariant
                i <= rows,
                lines@.len() == i,
                forall|j: int| 0 <= j < i ==> (#[trigger] lines@[j]).cells@ == blank_row(cols as nat),
                forall|j: int| 0 <= j < i ==> (#[trigger] lines@[j]).dirty,
            decreases rows - i,
        {
            lines.push(Line::new(cols));
            i = i + 1;
        }
        let g = Grid { lines, cols, rows, scrollback: Scrollback::new(scrollback_cap) };
        assert(g.screen() =~= blank_grid(cols as nat, rows as nat, scrollback_cap as nat).screen);
        assert(dirty_of(g.lines@) =~= blank_grid(cols as nat, rows as nat, scrollback_cap as nat).dirty);
        g
    }

    pub fn cols(&self) -> (c: usize)
        ensures
            c == self.cols,
    {
        self.cols
    }

    pub fn rows(&self) -> (r: usize)
        ensures
            r == self.rows,
    {
        self.rows
    }

    pub fn line(&self, y: usize) -> (l: &Line)
        requires
            y < self.lines@.len(),
        ensures
            *l == self.lines@[y as int],
    {
        &self.lines[y]
    }

    /// Number of lines in the scrollback.
    pub fn scrollback_len(&self) -> (n: usize)
        ensures
            n == self@.history.len(),
    {
        self.scrollback.len()
    }

    /// Line `y` through a viewport `offset` lines back into the history.
    pub fn view_line(&self, y: usize, offset: usize) -> (l: &Line)
        requires
            self.wf(),
            y < self.rows,
        ensures
            l.cells@ == view_row(self@, y as int, offset as nat),
    {
        let n = self.scrollback.lines.len();
        let k = if offset <= n { offset } else { n };
        if y < k {
            &self.scrollback.lines[n - k + y]
        } else {
            &self.lines[y - k]
        }
    }

    /// Write `cell` at `(x, y)`; `x` is clamped to the last column. A wide cell
    /// blanks the column to its right. Returns the cell's width.
    pub fn set(&mut self, x: usize, y: usize, cell: Cell) -> (w: usize)
        requires
            old(self).wf(),
            old(self).cols > 0,
            y < old(self).rows,
        ensures
            final(self).wf(),
            final(self)@ == grid_set(old(self)@, x as nat, y as int, cell),
            w == cell.width,
    {
        let w = cell.width as usize;
        let cols = self.cols;
        let xi = if x < cols { x } else { cols - 1 };
        let ghost old_row = self.lines@[y as int].cells@;
        self.lines[y].cells[xi] = cell;
        self.lines[y].dirty = true;
        if w == 2 && x < cols - 1 {
            self.lines[y].cells[x + 1] = blank();
        }
        assert(self.lines@[y as int].cells@ =~= row_set(old_row, cols as nat, x as nat, cell));
        assert(self.screen() =~= grid_set(old(self)@, x as nat, y as int, cell).screen);
        assert(dirty_of(self.lines@) =~= grid_set(old(self)@, x as nat, y as int, cell).dirty);
        w
    }

    /// Replace the cell at `(x, y)` as it is (no wide-cell handling, dirty
    /// flags untouched). Returns false, changing nothing, outside the screen.
    pub fn replace_cell(&mut self, x: usize, y: usize, cell: Cell) -> (ok: bool)
        requires
            old(self).wf(),
        ensures
            final(self).wf(),
            ok == (y < old(self).rows && x < old(self).cols),
            final(self)@ == (if ok {
                GridView {
                    screen: old(self)@.screen.update(
                        y as int,
                        old(self)@.screen[y as int].update(x as int, cell),
                    ),
                    ..old(self)@
                }
            } else {
                old(self)@
            }),
    {
        if y < self.rows && x < self.cols {
            self.lines[y].cells[x] = cell;
            assert(self.screen() =~= old(self)@.screen.update(
                y as int,
                old(self)@.screen[y as int].update(x as int, cell),
            ));
            assert(dirty_of(self.lines@) =~= old(self)@.dirty);
            true
        } else {
            false
        }
    }

    /// The cell at `(x, y)`, `None` outside the screen.
    pub fn cell(&self, x: usize, y: usize) -> (r: Option<Cell>)
        requires
            self.wf(),
        ensures
            r == (if y < self.rows && x < self.cols {
                Some(self@.screen[y as int][x as int])
            } else {
                None
            }),
    {
        if y < self.rows && x < self.cols {
            Some(self.lines[y].cells[x])
        } else {
            None
        }
    }

    pub fn clear_line(&mut self, y: usize)
        requires
            old(self).wf(),
            y < old(self).rows,
        ensures
            final(self).wf(),
            final(self)@ == grid_clear_range(old(self)@, y as int, 0, old(self).cols as int),
            final(self)@.screen[y as int] == blank_row(old(self).cols as nat),
    {
        let cols = self.cols;
        self.clear_range(y, 0, cols);
        assert(old(self).lines@[y as int].cells@.len() == cols);
        assert(row_clear(old(self).screen()[y as int], 0, cols as int) =~= blank_row(cols as nat));
    }

    /// Blank columns `from..to` of line `y` (both bounds clamped to `cols`).
    pub fn clear_range(&mut self, y: usize, from: usize, to: usize)
        requires
            old(self).wf(),
            y < old(self).rows,
            (if from < old(self).cols {
                from
            } else {
                old(self).cols
            }) <= (if to < old(self).cols {
                to
            } else {
                old(self).cols
            }),
        ensures
            final(self).wf(),
            final(self)@ == grid_clear_range(old(self)@, y as int, from as int, to as int),
    {
        let cols = self.cols;
        let lo = if from < cols { from } else { cols };
        let hi = if to < cols { to } else { cols };
        let ghost old_row = self.lines@[y as int].cells@;
        let mut i = lo;
        while i < hi
            invariant
                self.lines@.len() == old(self).lines@.len(),
                lo <= i <= hi <= cols,
                cols == old(self).cols,
                y < old(self).rows,
                old(self).wf(),
                old_row == old(self).lines@[y as int].cells@,
                self.lines@[y as int].cells@ == row_clear(old_row, lo as int, i as int),
                self.lines@[y as int].dirty == old(self).lines@[y as int].dirty,
                forall|j: int| 0 <= j < self.lines@.len() && j != y ==> self.lines@[j] == old(self).lines@[j],
                self.cols == old(self).cols,
                self.rows == old(self).rows,
                self.scrollback == old(self).scrollback,
            decreases hi - i,
        {
            self.lines[y].cells[i] = blank();
            assert(self.lines@[y as int].cells@ =~= row_clear(old_row, lo as int, i + 1));
            i = i + 1;
        }
        self.lines[y].dirty = true;
        assert(row_clear(old_row, lo as int, hi as int) =~= row_clear(old_row, from as int, to as int));
        assert(self.screen() =~= grid_clear_range(old(self)@, y as int, from as int, to as int).screen);
        assert(dirty_of(self.lines@) =~= grid_clear_range(old(self)@, y as int, from as int, to as int).dirty);
    }

    /// Scroll up `n` lines: the top line moves into the scrollback and a
    /// blank line enters at the bottom, `n` times.
    pub fn scroll_up(&mut self, n: usize)
        requires
            old(self).wf(),
        ensures
            final(self).wf(),
            final(self)@ == grid_scroll(old(self)@, n as nat),
    {
        let mut k: usize = 0;
        while k < n && self.lines.len() > 0
            invariant
                self.wf(),
                k <= n,
                grid_scroll(self@, (n - k) as nat) == grid_scroll(old(self)@, n as nat),
            decreases n - k,
        {
            let ghost g0 = self@;
            let moved = self.lines.remove(0);
            self.scrollback.push(moved);
            let fresh = Line::new(self.cols);
            self.lines.push(fresh);
            assert(self.screen() =~= grid_scroll1(g0).screen);
            assert(dirty_of(self.lines@) =~= grid_scroll1(g0).dirty);
            assert(self@ == grid_scroll1(g0));
            k = k + 1;
        }
        proof {
            lemma_scroll_empty(self@, (n - k) as nat);
        }
    }

    pub fn resize(&mut self, cols: usize, rows: usize)
        requires
            old(self).wf(),
        ensures
            final(self).wf(),
            final(self)@ == grid_resize(old(self)@, cols as nat, rows as nat),
    {
        let old_rows = self.lines.len();
        let mut i: usize = 0;
        while i < old_rows
            invariant
                old_rows == old(self).lines@.len(),
                self.lines@.len() == old_rows,
                i <= old_rows,
                old(self).wf(),
                forall|j: int| 0 <= j < i ==> (#[trigger] self.lines@[j]).cells@ == row_resized(old(self).lines@[j].cells@, cols as nat),
                forall|j: int| 0 <= j < i ==> (#[trigger] self.lines@[j]).dirty,
                forall|j: int| i <= j < old_rows ==> (#[trigger] self.lines@[j]) == old(self).lines@[j],
                self.scrollback == old(self).scrollback,
            decreases old_rows - i,
        {
            resize_cells(&mut self.lines[i].cells, cols);
            self.lines[i].dirty = true;
            i = i + 1;
        }
        while self.lines.len() < rows
            invariant
                old_rows == old(self).lines@.len(),
                old_rows <= self.lines@.len(),
                old(self).wf(),
                forall|j: int| 0 <= j < old_rows ==> (#[trigger] self.lines@[j]).cells@ == row_resized(old(self).lines@[j].cells@, cols as nat),
                forall|j: int| old_rows <= j < self.lines@.len() ==> (#[trigger] self.lines@[j]).cells@ == blank_row(cols as nat),
                forall|j: int| 0 <= j < self.lines@.len() ==> (#[trigger] self.lines@[j]).dirty,
                self.scrollback == old(self).scrollback,
            decreases rows - self.lines@.len(),
        {
            self.lines.push(Line::new(cols));
        }
        self.lines.truncate(rows);
        self.cols = cols;
        self.rows = rows;
        assert forall|j: int| 0 <= j < rows implies (#[trigger] self.lines@[j]).cells@.len() == cols by {
            if j < old_rows {
                assert(self.lines@[j].cells@ == row_resized(old(self).lines@[j].cells@, cols as nat));
            }
        }
        assert(self.screen() =~= grid_resize(old(self)@, cols as nat, rows as nat).screen);
        assert(dirty_of(self.lines@) =~= grid_resize(old(self)@, cols as nat, rows as nat).dirty);
    }
}

/// Scrolling one line is one step.
pub proof fn lemma_scroll_one(g: GridView)
    ensures
        grid_scroll(g, 1) == grid_scroll1(g),
{
    assert(grid_scroll(grid_scroll1(g), 0) == grid_scroll1(g));
}

/// Scrolling a grid without lines changes nothing.
proof fn lemma_scroll_empty(g: GridView, n: nat)
    requires
        n == 0 || g.screen.len() == 0,
    ensures
        grid_scroll(g, n) == g,
    decreases n,
{
    if n > 0 {
        lemma_scroll_empty(grid_scroll1(g), (n - 1) as nat);
    }
}

/// Row `y` of the display when the viewport is scrolled `offset` lines back
/// into the history (the offset is clamped to the history length): the
/// display shows lines `h - k .. h - k + rows` of history followed by screen.
pub open spec fn view_row(g: GridView, y: int, offset: nat) -> Seq<Cell> {
    let h = g.history;
    let k = if offset <= h.len() { offset } else { h.len() };
    if y < k {
        h[h.len() - k + y]
    } else {
        g.screen[y - k]
    }
}

/// Resize a row of cells to `cols`: truncate, or pad with blank cells.
fn resize_cells(cells: &mut Vec<Cell>, cols: usize)
    ensures
        final(cells)@ == row_resized(old(cells)@, cols as nat),
{
    if cols <= cells.len() {
        cells.truncate(cols);
    } else {
        while cells.len() < cols
            invariant
                old(cells)@.len() <= cells@.len() <= cols,
                forall|j: int| 0 <= j < cells@.len() ==> cells@[j] == (if j < old(cells)@.len() { old(cells)@[j] } else { blank_cell() }),
            decreases cols - cells@.len(),
        {
            cells.push(blank());
        }
    }
    assert(cells@ =~= row_resized(old(cells)@, cols as nat));
}

/// A cell covered by image `id`: blank, one column wide, carrying the id.
pub open spec fn placed_cell(c: Cell, id: u32) -> Cell {
    Cell { ch: ' ', attrs: CellAttrs { image: Some(id), ..c.attrs }, width: 1 }
}

/// A cell freed from image `id` (other cells unchanged).
pub open spec fn unplaced_cell(c: Cell, id: u32) -> Cell {
    if c.attrs.image == Some(id) {
        Cell { ch: ' ', attrs: CellAttrs { image: None, ..c.attrs }, ..c }
    } else {
        c
    }
}

/// Grid with columns `x0..x1` of rows `y0..y1` covered by image `id`.
pub open spec fn grid_place(g: GridView, x0: int, x1: int, y0: int, y1: int, id: u32) -> GridView {
    GridView {
        screen: Seq::new(
            g.screen.len(),
            |r: int|
                if y0 <= r < y1 {
                    Seq::new(
                        g.screen[r].len(),
                        |c: int|
                            if x0 <= c < x1 {
                                placed_cell(g.screen[r][c], id)
                            } else {
                                g.screen[r][c]
                            },
                    )
                } else {
                    g.screen[r]
                },
        ),
        ..g
    }
}

/// Grid with every cell freed from image `id`.
pub open spec fn grid_unplace(g: GridView, id: u32) -> GridView {
    GridView {
        screen: Seq::new(
            g.screen.len(),
            |r: int| Seq::new(g.screen[r].len(), |c: int| unplaced_cell(g.screen[r][c], id)),
        ),
        ..g
    }
}

impl Grid {
    /// Cover columns `x0..x1` of rows `y0..y1` with image `id` (line dirty
    /// flags untouched).
    pub fn place_image(&mut self, x0: usize, x1: usize, y0: usize, y1: usize, id: u32)
        requires
            old(self).wf(),
            x0 <= x1 <= old(self).cols,
            y0 <= y1 <= old(self).rows,
        ensures
            final(self).wf(),
            final(self)@ == grid_place(old(self)@, x0 as int, x1 as int, y0 as int, y1 as int, id),
    {
        let mut y = y0;
        while y < y1
            invariant
                self.wf(),
                y0 <= y <= y1 <= self.rows,
                x0 <= x1 <= self.cols,
                self.cols == old(self).cols,
                self.rows == old(self).rows,
                self.scrollback == old(self).scrollback,
                dirty_of(self.lines@) == dirty_of(old(self).lines@),
                self.screen() == grid_place(old(self)@, x0 as int, x1 as int, y0 as int, y as int, id).screen,
            decreases y1 - y,
        {
            let ghost before = self.screen();
            let mut x = x0;
            while x < x1
                invariant
                    self.wf(),
                    y0 <= y < y1 <= self.rows,
                    x0 <= x <= x1 <= self.cols,
                    self.cols == old(self).cols,
                    self.rows == old(self).rows,
                    self.scrollback == old(self).scrollback,
                    dirty_of(self.lines@) == dirty_of(old(self).lines@),
                    before.len() == self.rows,
                    forall|r: int| 0 <= r < self.rows && r != y ==> #[trigger] self.screen()[r] == before[r],
                    self.screen()[y as int] == Seq::new(
                        before[y as int].len(),
                        |c: int|
                            if x0 <= c < x {
                                placed_cell(before[y as int][c], id)
                            } else {
                                before[y as int][c]
                            },
                    ),
                decreases x1 - x,
            {
                let old_cell = self.lines[y].cells[x];
                let cell = Cell {
                    ch: ' ',
                    attrs: CellAttrs { image: Some(id), ..old_cell.attrs },
                    width: 1,
                };
                let ghost row_before = self.screen()[y as int];
                let ghost lines_before = self.lines@;
                let ghost screen_before = self.screen();
                self.lines[y].cells[x] = cell;
                assert forall|r: int| 0 <= r < self.rows && r != y implies #[trigger] self.screen()[r]
                    == before[r] by {
                    assert(self.lines@[r] == lines_before[r]);
                    assert(screen_before[r] == before[r]);
                }
                assert(self.screen()[y as int] =~= row_before.update(x as int, cell));
                assert(self.screen()[y as int] =~= Seq::new(
                    before[y as int].len(),
                    |c: int|
                        if x0 <= c < x + 1 {
                            placed_cell(before[y as int][c], id)
                        } else {
                            before[y as int][c]
                        },
                ));
                assert(dirty_of(self.lines@) =~= dirty_of(old(self).lines@));
                x = x + 1;
            }
            assert(self.screen() =~= grid_place(old(self)@, x0 as int, x1 as int, y0 as int, y + 1, id).screen);
            y = y + 1;
        }
        assert(self.screen() =~= grid_place(old(self)@, x0 as int, x1 as int, y0 as int, y1 as int, id).screen);
    }

    /// Free every cell covered by image `id`.
    pub fn clear_image(&mut self, id: u32)
        requires
            old(self).wf(),
        ensures
            final(self).wf(),
            final(self)@ == grid_unplace(old(self)@, id),
    {
        let rows = self.rows;
        let cols = self.cols;
        let mut y: usize = 0;
        while y < rows
            invariant
                self.wf(),
                y <= rows,
                rows == self.rows,
                cols == self.cols,
                self.cols == old(self).cols,
                self.rows == old(self).rows,
                self.scrollback == old(self).scrollback,
                old(self).wf(),
                dirty_of(self.lines@) == dirty_of(old(self).lines@),
                forall|r: int| 0 <= r < y ==> #[trigger] self.screen()[r] == Seq::new(
                    old(self).screen()[r].len(),
                    |c: int| unplaced_cell(old(self).screen()[r][c], id),
                ),
                forall|r: int| y <= r < rows ==> #[trigger] self.screen()[r] == old(self).screen()[r],
            decreases rows - y,
        {
            let ghost before = self.screen();
            let mut x: usize = 0;
            while x < cols
                invariant
                    self.wf(),
                    y < rows,
                    x <= cols,
                    rows == self.rows,
                    cols == self.cols,
                    self.cols == old(self).cols,
                    self.rows == old(self).rows,
                    self.scrollback == old(self).scrollback,
                    dirty_of(self.lines@) == dirty_of(old(self).lines@),
                    before[y as int].len() == cols,
                    before.len() == rows,
                    forall|r: int| 0 <= r < rows && r != y ==> #[trigger] self.screen()[r] == before[r],
                    self.screen()[y as int] == Seq::new(
                        cols as nat,
                        |c: int|
                            if c < x {
                                unplaced_cell(before[y as int][c], id)
                            } else {
                                before[y as int][c]
                            },
                    ),
                decreases cols - x,
            {
                let c0 = self.lines[y].cells[x];
                let ghost row_before = self.screen()[y as int];
                let ghost lines_before = self.lines@;
                let ghost screen_before = self.screen();
                if c0.attrs.image == Some(id) {
                    let cell = Cell { ch: ' ', attrs: CellAttrs { image: None, ..c0.attrs }, ..c0 };
                    self.lines[y].cells[x] = cell;
                    assert(self.screen()[y as int] =~= row_before.update(x as int, cell));
                }
                assert forall|r: int| 0 <= r < rows && r != y implies #[trigger] self.screen()[r]
                    == before[r] by {
                    assert(self.lines@[r] == lines_before[r]);
                    assert(screen_before[r] == before[r]);
                }
                assert(self.screen()[y as int] =~= Seq::new(
                    cols as nat,
                    |c: int|
                        if c < x + 1 {
                            unplaced_cell(before[y as int][c], id)
                        } else {
                            before[y as int][c]
                        },
                ));
                assert(dirty_of(self.lines@) =~= dirty_of(old(self).lines@));
                x = x + 1;
            }
            assert(self.screen()[y as int] =~= Seq::new(
                old(self).screen()[y as int].len(),
                |c: int| unplaced_cell(old(self).screen()[y as int][c], id),
            ));
            y = y + 1;
        }
        assert(self.screen() =~= grid_unplace(old(self)@, id).screen);
    }
}

} // verus!
