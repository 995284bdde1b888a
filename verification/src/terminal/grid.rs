use std::collections::VecDeque;
use vstd::prelude::*;
use vstd::utf8::*;
use crate::config::Platform;
use crate::text::{chars_of, find_char, first_index_of, replace_all, replace_chars, string_of, utf8_text};

verus! {

/// Most lines kept in the scrollback history.
pub const SCROLLBACK_MAX: usize = 10_000;

/// An RGB colour.
#[derive(Clone, Copy, Debug, PartialEq, Eq, Structural)]
pub struct Color(pub u8, pub u8, pub u8);

/// Default foreground colour.
pub open spec fn spec_default_fg() -> Color {
    Color(204, 204, 204)
}

/// Default background colour.
pub open spec fn spec_default_bg() -> Color {
    Color(0, 0, 0)
}

/// Default foreground colour.
pub fn default_fg() -> (c: Color)
    ensures
        c == spec_default_fg(),
{
    Color(204, 204, 204)
}

/// Default background colour.
pub fn default_bg() -> (c: Color)
    ensures
        c == spec_default_bg(),
{
    Color(0, 0, 0)
}

/// The eight standard ANSI colours (index 0 … 7).
pub open spec fn spec_ansi_color(i: int) -> Color {
    if i == 0 {
        Color(0, 0, 0)
    } else if i == 1 {
        Color(170, 0, 0)
    } else if i == 2 {
        Color(0, 170, 0)
    } else if i == 3 {
        Color(170, 170, 0)
    } else if i == 4 {
        Color(0, 0, 170)
    } else if i == 5 {
        Color(170, 0, 170)
    } else if i == 6 {
        Color(0, 170, 170)
    } else {
        Color(170, 170, 170)
    }
}

/// The eight bright ANSI colours (index 0 … 7).
pub open spec fn spec_ansi_bright(i: int) -> Color {
    if i == 0 {
        Color(85, 85, 85)
    } else if i == 1 {
        Color(255, 85, 85)
    } else if i == 2 {
        Color(85, 255, 85)
    } else if i == 3 {
        Color(255, 255, 85)
    } else if i == 4 {
        Color(85, 85, 255)
    } else if i == 5 {
        Color(255, 85, 255)
    } else if i == 6 {
        Color(85, 255, 255)
    } else {
        Color(255, 255, 255)
    }
}

/// Standard ANSI colour `i` (0 … 7).
pub fn ansi_color(i: u8) -> (c: Color)
    requires
        i < 8,
    ensures
        c == spec_ansi_color(i as int),
{
    match i {
        0 => Color(0, 0, 0),
        1 => Color(170, 0, 0),
        2 => Color(0, 170, 0),
        3 => Color(170, 170, 0),
        4 => Color(0, 0, 170),
        5 => Color(170, 0, 170),
        6 => Color(0, 170, 170),
        _ => Color(170, 170, 170),
    }
}

/// Bright ANSI colour `i` (0 … 7).
pub fn ansi_bright(i: u8) -> (c: Color)
    requires
        i < 8,
    ensures
        c == spec_ansi_bright(i as int),
{
    match i {
        0 => Color(85, 85, 85),
        1 => Color(255, 85, 85),
        2 => Color(85, 255, 85),
        3 => Color(255, 255, 85),
        4 => Color(85, 85, 255),
        5 => Color(255, 85, 255),
        6 => Color(85, 255, 255),
        _ => Color(255, 255, 255),
    }
}

/// Intensity of one component of the 6×6×6 colour cube.
pub open spec fn cube_component(v: int) -> int {
    if v == 0 {
        0
    } else {
        55 + v * 40
    }
}

/// The xterm 256-colour palette: 16 ANSI colours, a 6×6×6 cube, a grey ramp.
pub open spec fn spec_ansi_256(n: u8) -> Color {
    if n < 8 {
        spec_ansi_color(n as int)
    } else if n < 16 {
        spec_ansi_bright(n - 8)
    } else if n < 232 {
        let idx = n - 16;
        Color(
            cube_component(idx / 36) as u8,
            cube_component((idx / 6) % 6) as u8,
            cube_component(idx % 6) as u8,
        )
    } else {
        let v = 8 + (n - 232) * 10;
        Color(v as u8, v as u8, v as u8)
    }
}

fn cube_comp(v: u8) -> (r: u8)
    requires
        v < 6,
    ensures
        r == cube_component(v as int),
{
    if v == 0 {
        0
    } else {
        55 + v * 40
    }
}

/// Colour `n` of the xterm 256-colour palette.
pub fn ansi_256_color(n: u8) -> (c: Color)
    ensures
        c == spec_ansi_256(n),
{
    if n < 8 {
        ansi_color(n)
    } else if n < 16 {
        ansi_bright(n - 8)
    } else if n < 232 {
        let idx = n - 16;
        let b = idx % 6;
        let g = (idx / 6) % 6;
        let r = idx / 36;
        Color(cube_comp(r), cube_comp(g), cube_comp(b))
    } else {
        let v = 8 + (n - 232) * 10;
        Color(v, v, v)
    }
}

/// One character cell of the screen.
#[derive(Clone, Copy, Debug, PartialEq, Eq, Structural)]
pub struct Cell {
    pub ch: char,
    pub fg: Color,
    pub bg: Color,
}

/// An empty cell in the default colours.
pub open spec fn blank_cell() -> Cell {
    Cell { ch: ' ', fg: spec_default_fg(), bg: spec_default_bg() }
}

impl Cell {
    /// An empty cell in the default colours.
    pub fn blank() -> (c: Self)
        ensures
            c == blank_cell(),
    {
        Cell { ch: ' ', fg: default_fg(), bg: default_bg() }
    }
}

/// Something the terminal reports to the multiplexer.
#[derive(Debug, Clone)]
pub enum TermEvent {
    Bell,
    OscNotify(String),
    CwdChange(String),
    TitleChange(String),
    Exited,
}

/// What a `TermEvent` says, with its text as characters.
pub enum EventModel {
    Bell,
    OscNotify(Seq<char>),
    CwdChange(Seq<char>),
    TitleChange(Seq<char>),
    Exited,
}

impl View for TermEvent {
    type V = EventModel;

    open spec fn view(&self) -> EventModel {
        match self {
            TermEvent::Bell => EventModel::Bell,
            TermEvent::OscNotify(s) => EventModel::OscNotify(s@),
            TermEvent::CwdChange(s) => EventModel::CwdChange(s@),
            TermEvent::TitleChange(s) => EventModel::TitleChange(s@),
            TermEvent::Exited => EventModel::Exited,
        }
    }
}

/// A row of `n` blank cells.
pub open spec fn blank_row(n: nat) -> Seq<Cell> {
    Seq::new(n, |i: int| blank_cell())
}

/// `k` blank rows of `cols` cells.
pub open spec fn blank_rows(k: nat, cols: nat) -> Seq<Seq<Cell>> {
    Seq::new(k, |i: int| blank_row(cols))
}

/// `row` with the cells at columns `lo .. hi` blanked.
pub open spec fn fill_blank(row: Seq<Cell>, lo: int, hi: int) -> Seq<Cell> {
    Seq::new(row.len(), |i: int| if lo <= i < hi { blank_cell() } else { row[i] })
}

/// `row` cut or padded with blanks to `cols` cells.
pub open spec fn fit_row(row: Seq<Cell>, cols: nat) -> Seq<Cell> {
    Seq::new(cols, |j: int| if j < row.len() { row[j] } else { blank_cell() })
}

/// `rows` cut or padded with blank rows to `n` rows, each fitted to `cols` cells.
pub open spec fn fit_rows(rows: Seq<Seq<Cell>>, n: nat, cols: nat) -> Seq<Seq<Cell>> {
    Seq::new(n, |i: int| if i < rows.len() { fit_row(rows[i], cols) } else { blank_row(cols) })
}

/// `rows` with cell (`r`, `c`) replaced.
pub open spec fn set_cell(rows: Seq<Seq<Cell>>, r: int, c: int, x: Cell) -> Seq<Seq<Cell>> {
    rows.update(r, rows[r].update(c, x))
}

/// `rows` where every row has `cols` cells.
pub open spec fn rows_have_width(rows: Seq<Seq<Cell>>, cols: nat) -> bool {
    forall|i: int| 0 <= i < rows.len() ==> (#[trigger] rows[i]).len() == cols
}

/// Largest coordinate a grid may use: keeps every cursor computation in range.
pub open spec fn coord_limit() -> int {
    isize::MAX / 16
}

/// Sizes a grid can have: at least one cell each way, and not more cells than memory can hold.
pub open spec fn dims_fit(cols: int, rows: int) -> bool {
    &&& 1 <= cols
    &&& 1 <= rows
    &&& cols <= coord_limit()
    &&& rows <= coord_limit()
    &&& cols * rows <= coord_limit()
}

/// Whether a grid of `cols` × `rows` cells can be made (or resized to).
pub fn size_fits(cols: usize, rows: usize) -> (b: bool)
    ensures
        b == dims_fit(cols as int, rows as int),
{
    let limit: usize = (isize::MAX as usize) / 16;
    if cols < 1 || rows < 1 || cols > limit || rows > limit {
        return false;
    }
    match cols.checked_mul(rows) {
        Some(n) => n <= limit,
        None => false,
    }
}

/// The abstract state of a terminal grid.
pub struct GridModel {
    pub cells: Seq<Seq<Cell>>,
    pub cursor_col: usize,
    pub cursor_row: usize,
    pub saved_cursor: Option<(usize, usize)>,
    pub alt_backup: Option<(Seq<Seq<Cell>>, usize, usize)>,
    pub cols: usize,
    pub rows: usize,
    pub fg: Color,
    pub bg: Color,
    pub reverse: bool,
    pub scrollback: Seq<Seq<Cell>>,
    pub scroll_offset: usize,
    /// Every event handed to the event channel so far.
    pub events: Seq<EventModel>,
}

impl GridModel {
    /// Well-formedness of a grid state.
    pub open spec fn inv(self) -> bool {
        &&& dims_fit(self.cols as int, self.rows as int)
        &&& self.cells.len() == self.rows
        &&& rows_have_width(self.cells, self.cols as nat)
        &&& self.scrollback.len() <= SCROLLBACK_MAX
        &&& self.scroll_offset <= self.scrollback.len()
        &&& self.cursor_col <= coord_limit()
        &&& self.cursor_row <= coord_limit()
        &&& (self.saved_cursor matches Some((c, r)) ==> c <= coord_limit() && r <= coord_limit())
        &&& (self.alt_backup matches Some((a, c, r)) ==> {
            &&& a.len() == self.rows
            &&& rows_have_width(a, self.cols as nat)
            &&& c <= coord_limit()
            &&& r <= coord_limit()
        })
    }

    /// Foreground and background used for newly written cells.
    pub open spec fn pen(self) -> (Color, Color) {
        if self.reverse {
            (self.bg, self.fg)
        } else {
            (self.fg, self.bg)
        }
    }

    /// The first row moves into the scrollback (the oldest line is dropped
    /// when it is full) and a blank row appears at the bottom.
    pub open spec fn scrolled_up(self) -> GridModel {
        let sb = if self.scrollback.len() >= SCROLLBACK_MAX {
            self.scrollback.drop_first()
        } else {
            self.scrollback
        };
        GridModel {
            scrollback: sb.push(self.cells[0]),
            cells: self.cells.drop_first().push(blank_row(self.cols as nat)),
            ..self
        }
    }

    /// Cursor to the next row, scrolling when it falls off the bottom.
    pub open spec fn advanced_row(self) -> GridModel {
        if self.cursor_row + 1 >= self.rows {
            GridModel { cursor_row: (self.rows - 1) as usize, ..self.scrolled_up() }
        } else {
            GridModel { cursor_row: (self.cursor_row + 1) as usize, ..self }
        }
    }

    /// Writes `c`, `w` being its display width as Unicode reports it: wraps
    /// to the next row when the cursor stands past the last column, and a
    /// wide character also fills the next cell with `'\0'`.
    pub open spec fn wrote_char(self, c: char, w: Option<usize>) -> GridModel {
        let m1 = if self.cursor_col >= self.cols {
            GridModel { cursor_col: 0, ..self }.advanced_row()
        } else {
            self
        };
        let width = match w {
            Some(x) => if x == 0 {
                1
            } else {
                x
            },
            None => 1,
        };
        let (fg, bg) = m1.pen();
        let m2 = GridModel {
            cells: set_cell(
                m1.cells,
                m1.cursor_row as int,
                m1.cursor_col as int,
                Cell { ch: c, fg, bg },
            ),
            cursor_col: (m1.cursor_col + 1) as usize,
            ..m1
        };
        if width == 2 && m2.cursor_col < m2.cols {
            GridModel {
                cells: set_cell(
                    m2.cells,
                    m2.cursor_row as int,
                    m2.cursor_col as int,
                    Cell { ch: '\0', fg, bg },
                ),
                cursor_col: (m2.cursor_col + 1) as usize,
                ..m2
            }
        } else {
            m2
        }
    }

    /// The row shown at `visual_row`, counting the scrollback above the
    /// screen when scrolled back.
    pub open spec fn shown_row(self, visual_row: int) -> Seq<Cell> {
        if self.scroll_offset == 0 {
            self.cells[if visual_row < self.rows - 1 {
                visual_row
            } else {
                self.rows - 1
            }]
        } else {
            let abs = self.scrollback.len() - self.scroll_offset + visual_row;
            if abs < self.scrollback.len() {
                self.scrollback[abs]
            } else {
                let i = abs - self.scrollback.len();
                self.cells[if i < self.rows - 1 {
                    i
                } else {
                    self.rows - 1
                }]
            }
        }
    }

    /// The grid resized to `cols` × `rows`: rows and columns are cut or padded
    /// with blanks (the alternate-screen backup too) and the cursor is kept on
    /// screen.
    pub open spec fn resized(self, cols: usize, rows: usize) -> GridModel {
        GridModel {
            cells: fit_rows(self.cells, rows as nat, cols as nat),
            alt_backup: match self.alt_backup {
                Some((a, c, r)) => Some((fit_rows(a, rows as nat, cols as nat), c, r)),
                None => None,
            },
            cols,
            rows,
            cursor_col: if self.cursor_col < cols - 1 {
                self.cursor_col
            } else {
                (cols - 1) as usize
            },
            cursor_row: if self.cursor_row < rows - 1 {
                self.cursor_row
            } else {
                (rows - 1) as usize
            },
            ..self
        }
    }
}

/// Smaller of two integers.
pub open spec fn min_int(a: int, b: int) -> int {
    if a < b {
        a
    } else {
        b
    }
}

impl GridModel {
    /// Blanks from the cursor to the end of the screen.
    pub open spec fn erased_from_cursor(self) -> GridModel {
        GridModel {
            cells: Seq::new(
                self.rows as nat,
                |r: int|
                    if r == self.cursor_row {
                        fill_blank(self.cells[r], self.cursor_col as int, self.cols as int)
                    } else if r > self.cursor_row {
                        blank_row(self.cols as nat)
                    } else {
                        self.cells[r]
                    },
            ),
            ..self
        }
    }

    /// Blanks from the start of the screen to the cursor, inclusive.
    pub open spec fn erased_to_cursor(self) -> GridModel {
        GridModel {
            cells: Seq::new(
                self.rows as nat,
                |r: int|
                    if r < self.cursor_row {
                        blank_row(self.cols as nat)
                    } else if r == self.cursor_row {
                        fill_blank(
                            self.cells[r],
                            0,
                            min_int(self.cursor_col as int, self.cols - 1) + 1,
                        )
                    } else {
                        self.cells[r]
                    },
            ),
            ..self
        }
    }

    /// Blanks the whole screen.
    pub open spec fn cleared(self) -> GridModel {
        GridModel { cells: blank_rows(self.rows as nat, self.cols as nat), ..self }
    }

    /// Blanks the cursor row from the cursor to its end.
    pub open spec fn erased_line_from_cursor(self) -> GridModel {
        if self.cursor_col < self.cols {
            GridModel {
                cells: self.cells.update(
                    self.cursor_row as int,
                    fill_blank(
                        self.cells[self.cursor_row as int],
                        self.cursor_col as int,
                        self.cols as int,
                    ),
                ),
                ..self
            }
        } else {
            self
        }
    }

    /// Blanks the cursor row.
    pub open spec fn erased_line(self) -> GridModel {
        GridModel {
            cells: self.cells.update(self.cursor_row as int, blank_row(self.cols as nat)),
            ..self
        }
    }

    /// Blanks the cursor row from its start to the cursor, inclusive.
    pub open spec fn erased_line_to_cursor(self) -> GridModel {
        GridModel {
            cells: self.cells.update(
                self.cursor_row as int,
                fill_blank(
                    self.cells[self.cursor_row as int],
                    0,
                    min_int(self.cursor_col as int, self.cols - 1) + 1,
                ),
            ),
            ..self
        }
    }

    /// The view scrolled back `lines` lines into history, at most to its oldest line.
    pub open spec fn scrolled_back(self, lines: int) -> GridModel {
        GridModel {
            scroll_offset: if self.scroll_offset + lines < self.scrollback.len() {
                (self.scroll_offset + lines) as usize
            } else {
                self.scrollback.len() as usize
            },
            ..self
        }
    }

    /// The view scrolled forward `lines` lines toward the live view, stopping there.
    pub open spec fn scrolled_forward(self, lines: int) -> GridModel {
        GridModel {
            scroll_offset: if self.scroll_offset >= lines {
                (self.scroll_offset - lines) as usize
            } else {
                0
            },
            ..self
        }
    }

    /// Switches to a blank alternate screen, keeping the primary screen and
    /// cursor aside; cursor home, live view, default colours.
    pub open spec fn entered_alt_screen(self) -> GridModel {
        GridModel {
            cells: blank_rows(self.rows as nat, self.cols as nat),
            alt_backup: Some((self.cells, self.cursor_col, self.cursor_row)),
            cursor_col: 0,
            cursor_row: 0,
            scroll_offset: 0,
            fg: spec_default_fg(),
            bg: spec_default_bg(),
            ..self
        }
    }

    /// Returns to the primary screen and its cursor if the alternate screen is
    /// active; in any case back to the live view.
    pub open spec fn left_alt_screen(self) -> GridModel {
        match self.alt_backup {
            Some((p, c, r)) => GridModel {
                cells: p,
                cursor_col: c,
                cursor_row: r,
                alt_backup: None,
                scroll_offset: 0,
                ..self
            },
            None => GridModel { scroll_offset: 0, ..self },
        }
    }
}

/// `a - b`, or 0 when `b` is larger.
pub open spec fn sat_sub(a: usize, b: usize) -> usize {
    if a >= b {
        (a - b) as usize
    } else {
        0
    }
}

/// `a`, or `b` when `a` is larger.
pub open spec fn min_usize(a: int, b: int) -> usize {
    (if a < b {
        a
    } else {
        b
    }) as usize
}

/// `p`, counting 0 (an omitted parameter) as 1.
pub open spec fn at_least_one(p: usize) -> usize {
    if p == 0 {
        1
    } else {
        p
    }
}

/// The first numeric parameter of a control sequence (0 when absent).
pub open spec fn first_param(ps: Seq<Seq<u16>>) -> usize {
    if ps.len() > 0 && ps[0].len() > 0 {
        ps[0][0] as usize
    } else {
        0
    }
}

/// The second numeric parameter of a control sequence (0 when absent).
pub open spec fn second_param(ps: Seq<Seq<u16>>) -> usize {
    if ps.len() > 1 && ps[1].len() > 0 {
        ps[1][0] as usize
    } else {
        0
    }
}

/// All parameters and sub-parameters in order.
pub open spec fn flat(ps: Seq<Seq<u16>>) -> Seq<u16>
    decreases ps.len(),
{
    if ps.len() == 0 {
        Seq::empty()
    } else {
        flat(ps.drop_last()) + ps.last()
    }
}

/// The parameter groups of a control sequence as plain sequences.
pub open spec fn params_of(p: Seq<Vec<u16>>) -> Seq<Seq<u16>> {
    Seq::new(p.len(), |i: int| p[i]@)
}

/// `row` with the cells from `col` moved `n` places left and blanks shifted in at the end.
pub open spec fn deleted_chars(row: Seq<Cell>, col: int, n: int) -> Seq<Cell> {
    Seq::new(
        row.len(),
        |i: int|
            if i < col {
                row[i]
            } else if i < row.len() - n {
                row[i + n]
            } else {
                blank_cell()
            },
    )
}

/// `row` with `n` blanks inserted at `col`, the cells pushed past the end dropped.
pub open spec fn inserted_chars(row: Seq<Cell>, col: int, n: int) -> Seq<Cell> {
    Seq::new(
        row.len(),
        |i: int|
            if i < col {
                row[i]
            } else if i < col + n {
                blank_cell()
            } else {
                row[i - n]
            },
    )
}

/// `n` blank rows inserted at row `r`, the rows pushed past the bottom dropped.
pub open spec fn inserted_lines(cells: Seq<Seq<Cell>>, r: int, n: int, cols: nat) -> Seq<
    Seq<Cell>,
> {
    Seq::new(
        cells.len(),
        |i: int|
            if i < r {
                cells[i]
            } else if i < r + n {
                blank_row(cols)
            } else {
                cells[i - n]
            },
    )
}

/// `n` rows deleted at row `r`, blank rows shifted in at the bottom.
pub open spec fn deleted_lines(cells: Seq<Seq<Cell>>, r: int, n: int, cols: nat) -> Seq<
    Seq<Cell>,
> {
    Seq::new(
        cells.len(),
        |i: int|
            if i < r {
                cells[i]
            } else if i + n < cells.len() {
                cells[i + n]
            } else {
                blank_row(cols)
            },
    )
}

/// Parameters consumed after position `i` by an extended-colour selection
/// (`38;5;n`, `38;2;r;g;b` and the `48` forms).
pub open spec fn sgr_extra(all: Seq<u16>, i: int) -> nat {
    let p = all[i];
    if (p == 38 || p == 48) && i + 2 < all.len() && all[i + 1] == 5 {
        2
    } else if (p == 38 || p == 48) && i + 4 < all.len() && all[i + 1] == 2 {
        4
    } else {
        0
    }
}

/// A parameter's low byte, as a colour component or palette index.
pub open spec fn low_byte(v: u16) -> u8 {
    (v % 256) as u8
}

/// The pen (foreground, background, reverse video) after the graphic
/// rendition parameter at `i`.
pub open spec fn sgr_apply(all: Seq<u16>, i: int, st: (Color, Color, bool)) -> (Color, Color, bool) {
    let p = all[i];
    let (fg, bg, rev) = st;
    if p == 0 {
        (spec_default_fg(), spec_default_bg(), false)
    } else if p == 7 {
        (fg, bg, true)
    } else if p == 27 {
        (fg, bg, false)
    } else if 30 <= p <= 37 {
        (spec_ansi_color(p - 30), bg, rev)
    } else if p == 39 {
        (spec_default_fg(), bg, rev)
    } else if 40 <= p <= 47 {
        (fg, spec_ansi_color(p - 40), rev)
    } else if p == 49 {
        (fg, spec_default_bg(), rev)
    } else if 90 <= p <= 97 {
        (spec_ansi_bright(p - 90), bg, rev)
    } else if 100 <= p <= 107 {
        (fg, spec_ansi_bright(p - 100), rev)
    } else if sgr_extra(all, i) == 2 {
        let c = spec_ansi_256(low_byte(all[i + 2]));
        if p == 38 {
            (c, bg, rev)
        } else {
            (fg, c, rev)
        }
    } else if sgr_extra(all, i) == 4 {
        let c = Color(low_byte(all[i + 2]), low_byte(all[i + 3]), low_byte(all[i + 4]));
        if p == 38 {
            (c, bg, rev)
        } else {
            (fg, c, rev)
        }
    } else {
        st
    }
}

/// The pen after the graphic rendition parameters from position `i` on.
pub open spec fn sgr_from(all: Seq<u16>, i: int, st: (Color, Color, bool)) -> (Color, Color, bool)
    decreases all.len() - i,
{
    if i < 0 || i >= all.len() {
        st
    } else {
        sgr_from(all, i + 1 + sgr_extra(all, i), sgr_apply(all, i, st))
    }
}

impl GridModel {
    /// The grid after the control sequence with final character `c`,
    /// parameters `ps`, private (`?`) when `private`.
    pub open spec fn after_csi(self, ps: Seq<Seq<u16>>, private: bool, c: char) -> GridModel {
        let p1 = first_param(ps);
        let p2 = second_param(ps);
        let n = at_least_one(p1);
        let k = min_usize(n as int, self.cols - self.cursor_col);
        if private {
            if (p1 == 47 || p1 == 1047 || p1 == 1049) && c == 'h' {
                self.entered_alt_screen()
            } else if (p1 == 47 || p1 == 1047 || p1 == 1049) && c == 'l' {
                self.left_alt_screen()
            } else {
                self
            }
        } else if c == 'A' {
            GridModel { cursor_row: sat_sub(self.cursor_row, n), ..self }
        } else if c == 'B' {
            GridModel { cursor_row: min_usize(self.cursor_row + n, self.rows - 1), ..self }
        } else if c == 'C' {
            GridModel { cursor_col: min_usize(self.cursor_col + n, self.cols - 1), ..self }
        } else if c == 'D' {
            GridModel { cursor_col: sat_sub(self.cursor_col, n), ..self }
        } else if c == 'H' || c == 'f' {
            GridModel {
                cursor_row: min_usize(sat_sub(p1, 1) as int, self.rows - 1),
                cursor_col: min_usize(sat_sub(p2, 1) as int, self.cols - 1),
                ..self
            }
        } else if c == 'G' {
            GridModel { cursor_col: min_usize(sat_sub(p1, 1) as int, self.cols - 1), ..self }
        } else if c == 'E' {
            GridModel {
                cursor_row: min_usize(self.cursor_row + n, self.rows - 1),
                cursor_col: 0,
                ..self
            }
        } else if c == 'F' {
            GridModel { cursor_row: sat_sub(self.cursor_row, n), cursor_col: 0, ..self }
        } else if c == 'J' {
            if p1 == 0 {
                self.erased_from_cursor()
            } else if p1 == 1 {
                self.erased_to_cursor()
            } else if p1 == 2 || p1 == 3 {
                self.cleared()
            } else {
                self
            }
        } else if c == 'K' {
            if p1 == 0 {
                self.erased_line_from_cursor()
            } else if p1 == 1 {
                self.erased_line_to_cursor()
            } else if p1 == 2 {
                self.erased_line()
            } else {
                self
            }
        } else if c == 'X' || c == 'P' || c == '@' {
            if k == 0 {
                self
            } else {
                let row = self.cells[self.cursor_row as int];
                let col = self.cursor_col as int;
                GridModel {
                    cells: self.cells.update(
                        self.cursor_row as int,
                        if c == 'X' {
                            fill_blank(row, col, col + k)
                        } else if c == 'P' {
                            deleted_chars(row, col, k as int)
                        } else {
                            inserted_chars(row, col, k as int)
                        },
                    ),
                    ..self
                }
            }
        } else if c == 'L' {
            GridModel {
                cells: inserted_lines(self.cells, self.cursor_row as int, n as int, self.cols as nat),
                ..self
            }
        } else if c == 'M' {
            GridModel {
                cells: deleted_lines(self.cells, self.cursor_row as int, n as int, self.cols as nat),
                ..self
            }
        } else if c == 's' {
            GridModel { saved_cursor: Some((self.cursor_col, self.cursor_row)), ..self }
        } else if c == 'u' {
            match self.saved_cursor {
                Some((col, row)) => GridModel { cursor_col: col, cursor_row: row, ..self },
                None => self,
            }
        } else if c == 'm' {
            let st = sgr_from(flat(ps), 0, (self.fg, self.bg, self.reverse));
            GridModel { fg: st.0, bg: st.1, reverse: st.2, ..self }
        } else {
            self
        }
    }

    /// The control sequences that index the cursor row find it on screen.
    pub open spec fn csi_in_bounds(self, ps: Seq<Seq<u16>>, private: bool, c: char) -> bool {
        let p1 = first_param(ps);
        private || {
            &&& c == 'J' ==> (p1 == 0 ==> (self.cursor_col < self.cols ==> self.cursor_row
                < self.rows)) && (p1 == 1 ==> self.cursor_row < self.rows)
            &&& c == 'K' ==> (p1 == 0 ==> (self.cursor_col < self.cols ==> self.cursor_row
                < self.rows)) && (p1 == 1 || p1 == 2 ==> self.cursor_row < self.rows)
            &&& (c == 'X' || c == 'P' || c == '@') ==> self.cursor_col <= self.cols && (
            self.cursor_col < self.cols ==> self.cursor_row < self.rows)
            &&& c == 'L' ==> self.cursor_row <= self.rows
        }
    }
}

/// The parameters of an operating-system command as byte sequences.
pub open spec fn bytes_of(p: Seq<Vec<u8>>) -> Seq<Seq<u8>> {
    Seq::new(p.len(), |i: int| p[i]@)
}

/// Parameter `i` of an operating-system command as text (empty when absent
/// or not valid UTF-8).
pub open spec fn text_param(ps: Seq<Seq<u8>>, i: int) -> Seq<char> {
    if 0 <= i < ps.len() && valid_utf8(ps[i]) {
        decode_utf8(ps[i])
    } else {
        Seq::empty()
    }
}

/// The `file://` scheme prefix.
pub open spec fn file_scheme() -> Seq<char> {
    seq!['f', 'i', 'l', 'e', ':', '/', '/']
}

/// `p` without the slashes it starts with.
pub open spec fn without_leading_slashes(p: Seq<char>) -> Seq<char>
    decreases p.len(),
{
    if p.len() > 0 && p[0] == '/' {
        without_leading_slashes(p.skip(1))
    } else {
        p
    }
}

/// The path part of a working-directory report: a `file://` URI loses its
/// scheme and host.
pub open spec fn uri_path(raw: Seq<char>) -> Seq<char> {
    if raw.len() >= 7 && raw.take(7) == file_scheme() {
        let rest = raw.skip(7);
        match first_index_of(rest, '/') {
            Some(i) => rest.skip(i),
            None => rest,
        }
    } else {
        raw
    }
}

/// The directory named by a working-directory report: a `file://` URI loses
/// its scheme and host, on Windows the path loses its leading slashes (so
/// `/C:/x` is `C:/x`), and `%20` / `%3A` are decoded to a space and a colon.
pub open spec fn cwd_from_uri(raw: Seq<char>, platform: Platform) -> Seq<char> {
    let p = if platform == Platform::Windows {
        without_leading_slashes(uri_path(raw))
    } else {
        uri_path(raw)
    };
    replace_all(replace_all(p, seq!['%', '2', '0'], seq![' ']), seq!['%', '3', 'A'], seq![':'])
}

/// The event an operating-system command reports, if any: `0`/`2` set the
/// title, `7` reports the working directory (read as on `platform`), `9`
/// and `777` (body, else title) are notifications.
pub open spec fn osc_event(ps: Seq<Seq<u8>>, platform: Platform) -> Option<EventModel> {
    if ps.len() == 0 {
        None
    } else {
        let cmd = ps[0];
        if cmd == seq![48u8] || cmd == seq![50u8] {
            let t = text_param(ps, 1);
            if t.len() > 0 {
                Some(EventModel::TitleChange(t))
            } else {
                None
            }
        } else if cmd == seq![55u8] {
            let p = cwd_from_uri(text_param(ps, 1), platform);
            if p.len() > 0 {
                Some(EventModel::CwdChange(p))
            } else {
                None
            }
        } else if cmd == seq![57u8] {
            Some(EventModel::OscNotify(text_param(ps, 1)))
        } else if cmd == seq![55u8, 55u8, 55u8] {
            let t = if ps.len() > 3 {
                text_param(ps, 3)
            } else {
                text_param(ps, 2)
            };
            if t.len() > 0 {
                Some(EventModel::OscNotify(t))
            } else {
                None
            }
        } else {
            None
        }
    }
}

/// What an optional event says.
pub open spec fn event_view(e: Option<TermEvent>) -> Option<EventModel> {
    match e {
        Some(ev) => Some(ev@),
        None => None,
    }
}

impl GridModel {
    /// The grid after the control byte `byte`: bell (0x07) is reported,
    /// backspace (0x08) moves left, line feed (0x0A) moves down (scrolling at
    /// the bottom), carriage return (0x0D) goes to column 0.
    pub open spec fn after_execute(self, byte: u8) -> GridModel {
        if byte == 0x07 {
            GridModel { events: self.events.push(EventModel::Bell), ..self }
        } else if byte == 0x08 {
            if self.cursor_col > 0 {
                GridModel { cursor_col: (self.cursor_col - 1) as usize, ..self }
            } else {
                self
            }
        } else if byte == 0x0A {
            self.advanced_row()
        } else if byte == 0x0D {
            GridModel { cursor_col: 0, ..self }
        } else {
            self
        }
    }

    /// The grid after the escape sequence ending in `byte`: `7` saves the
    /// cursor, `8` restores it, `M` moves up or scrolls the screen down at the top.
    pub open spec fn after_esc(self, byte: u8) -> GridModel {
        if byte == 0x37 {
            GridModel { saved_cursor: Some((self.cursor_col, self.cursor_row)), ..self }
        } else if byte == 0x38 {
            match self.saved_cursor {
                Some((c, r)) => GridModel { cursor_col: c, cursor_row: r, ..self },
                None => self,
            }
        } else if byte == 0x4D {
            if self.cursor_row == 0 {
                GridModel {
                    cells: seq![blank_row(self.cols as nat)] + self.cells.drop_last(),
                    ..self
                }
            } else {
                GridModel { cursor_row: (self.cursor_row - 1) as usize, ..self }
            }
        } else {
            self
        }
    }
}

/// Parameter `i` of an operating-system command as characters.
fn text_param_of(params: &Vec<Vec<u8>>, i: usize) -> (v: Vec<char>)
    ensures
        v@ == text_param(bytes_of(params@), i as int),
{
    if i < params.len() {
        match utf8_text(params[i].as_slice()) {
            Some(s) => chars_of(s.as_str()),
            None => Vec::new(),
        }
    } else {
        Vec::new()
    }
}

/// The directory named by a working-directory report, read as on `platform`.
pub fn cwd_from_report(raw: &Vec<char>, platform: Platform) -> (p: Vec<char>)
    ensures
        p@ == cwd_from_uri(raw@, platform),
{
    let scheme = vec!['f', 'i', 'l', 'e', ':', '/', '/'];
    assert(scheme@ =~= file_scheme());
    let has_scheme = raw.len() >= 7 && occurs_at_start(raw, &scheme);
    let mut path: Vec<char> = Vec::new();
    if has_scheme {
        let mut start: usize = 7;
        let mut rest: Vec<char> = Vec::new();
        let mut i: usize = 7;
        while i < raw.len()
            invariant
                7 <= i <= raw@.len(),
                rest@ == raw@.subrange(7, i as int),
            decreases raw@.len() - i,
        {
            rest.push(raw[i]);
            i = i + 1;
            assert(rest@ =~= raw@.subrange(7, i as int));
        }
        assert(rest@ =~= raw@.skip(7));
        let from = match find_char(&rest, '/') {
            Some(k) => k,
            None => 0,
        };
        let mut j = from;
        assert(path@ =~= rest@.subrange(from as int, j as int));
        while j < rest.len()
            invariant
                from <= j <= rest@.len(),
                path@ == rest@.subrange(from as int, j as int),
            decreases rest@.len() - j,
        {
            path.push(rest[j]);
            j = j + 1;
            assert(path@ =~= rest@.subrange(from as int, j as int));
        }
        assert(path@ =~= rest@.skip(from as int));
        assert(rest@.skip(0) =~= rest@);
    } else {
        let mut j: usize = 0;
        while j < raw.len()
            invariant
                j <= raw@.len(),
                path@ == raw@.take(j as int),
            decreases raw@.len() - j,
        {
            path.push(raw[j]);
            j = j + 1;
            assert(path@ =~= raw@.take(j as int));
        }
        assert(raw@.take(raw@.len() as int) =~= raw@);
    }
    assert(path@ == uri_path(raw@));
    let path = match platform {
        Platform::Windows => slashes_stripped(&path),
        Platform::Other => path,
    };
    let pct20 = vec!['%', '2', '0'];
    let space = vec![' '];
    let pct3a = vec!['%', '3', 'A'];
    let colon = vec![':'];
    assert(pct20@ =~= seq!['%', '2', '0']);
    assert(space@ =~= seq![' ']);
    assert(pct3a@ =~= seq!['%', '3', 'A']);
    assert(colon@ =~= seq![':']);
    let sp = replace_chars(&path, &pct20, &space);
    replace_chars(&sp, &pct3a, &colon)
}

/// `p` without the slashes it starts with.
fn slashes_stripped(p: &Vec<char>) -> (q: Vec<char>)
    ensures
        q@ == without_leading_slashes(p@),
{
    let mut k: usize = 0;
    assert(p@.skip(0) =~= p@);
    while k < p.len() && p[k] == '/'
        invariant
            k <= p@.len(),
            without_leading_slashes(p@) == without_leading_slashes(p@.skip(k as int)),
        decreases p@.len() - k,
    {
        assert(p@.skip(k as int).skip(1) =~= p@.skip(k + 1));
        k = k + 1;
    }
    let mut q: Vec<char> = Vec::new();
    let mut j: usize = k;
    while j < p.len()
        invariant
            k <= j <= p@.len(),
            q@ == p@.subrange(k as int, j as int),
        decreases p@.len() - j,
    {
        q.push(p[j]);
        j = j + 1;
        assert(q@ =~= p@.subrange(k as int, j as int));
    }
    assert(q@ =~= p@.skip(k as int));
    q
}

/// Whether `v` starts with `pre`.
fn occurs_at_start(v: &Vec<char>, pre: &Vec<char>) -> (b: bool)
    requires
        pre@.len() <= v@.len(),
    ensures
        b == (v@.take(pre@.len() as int) == pre@),
{
    let mut j: usize = 0;
    while j < pre.len()
        invariant
            j <= pre@.len() <= v@.len(),
            forall|k: int| 0 <= k < j ==> v@[k] == pre@[k],
        decreases pre@.len() - j,
    {
        if v[j] != pre[j] {
            assert(v@.take(pre@.len() as int)[j as int] != pre@[j as int]);
            return false;
        }
        j = j + 1;
    }
    assert(v@.take(pre@.len() as int) =~= pre@);
    true
}

/// Whether `b` is the one-byte sequence `x`.
fn is_byte(b: &Vec<u8>, x: u8) -> (r: bool)
    ensures
        r == (b@ == seq![x]),
{
    let r = b.len() == 1 && b[0] == x;
    if r {
        assert(b@ =~= seq![x]);
    }
    r
}

/// The event an operating-system command (OSC) reports, if any, a
/// working-directory report being read as on `platform`.
pub fn osc_event_of(params: &Vec<Vec<u8>>, platform: Platform) -> (e: Option<TermEvent>)
    ensures
        event_view(e) == osc_event(bytes_of(params@), platform),
{
    let ghost ps = bytes_of(params@);
    if params.len() == 0 {
        return None;
    }
    let cmd = &params[0];
    assert(cmd@ == ps[0]);
    let is777 = cmd.len() == 3 && cmd[0] == 55 && cmd[1] == 55 && cmd[2] == 55;
    if is777 {
        assert(cmd@ =~= seq![55u8, 55u8, 55u8]);
    }
    if is_byte(cmd, 48) || is_byte(cmd, 50) {
        let t = text_param_of(params, 1);
        if t.len() > 0 {
            Some(TermEvent::TitleChange(string_of(&t)))
        } else {
            None
        }
    } else if is_byte(cmd, 55) {
        let raw = text_param_of(params, 1);
        let p = cwd_from_report(&raw, platform);
        if p.len() > 0 {
            Some(TermEvent::CwdChange(string_of(&p)))
        } else {
            None
        }
    } else if is_byte(cmd, 57) {
        let t = text_param_of(params, 1);
        Some(TermEvent::OscNotify(string_of(&t)))
    } else if is777 {
        let t = if params.len() > 3 {
            text_param_of(params, 3)
        } else {
            text_param_of(params, 2)
        };
        if t.len() > 0 {
            Some(TermEvent::OscNotify(string_of(&t)))
        } else {
            None
        }
    } else {
        proof {
            if cmd@ == seq![55u8, 55u8, 55u8] {
                assert(cmd@.len() == 3 && cmd@[0] == 55 && cmd@[1] == 55 && cmd@[2] == 55);
            }
        }
        None
    }
}

/// The cells of a deque of rows.
pub open spec fn rows_of(d: Seq<Vec<Cell>>) -> Seq<Seq<Cell>> {
    Seq::new(d.len(), |i: int| d[i]@)
}

/// Appending a row appends its cells.
pub proof fn lemma_rows_of_push(s: Seq<Vec<Cell>>, v: Vec<Cell>)
    ensures
        rows_of(s.push(v)) == rows_of(s).push(v@),
{
    assert(rows_of(s.push(v)) =~= rows_of(s).push(v@));
}

/// Dropping the first row drops its cells.
pub proof fn lemma_rows_of_drop_first(s: Seq<Vec<Cell>>)
    requires
        s.len() > 0,
    ensures
        rows_of(s.drop_first()) == rows_of(s).drop_first(),
        rows_of(s)[0] == s[0]@,
{
    assert(rows_of(s.drop_first()) =~= rows_of(s).drop_first());
}

/// Dropping the last row drops its cells.
pub proof fn lemma_rows_of_drop_last(s: Seq<Vec<Cell>>)
    requires
        s.len() > 0,
    ensures
        rows_of(s.drop_last()) == rows_of(s).drop_last(),
{
    assert(rows_of(s.drop_last()) =~= rows_of(s).drop_last());
}

/// Replacing a row replaces its cells.
pub proof fn lemma_rows_of_update(s: Seq<Vec<Cell>>, i: int, v: Vec<Cell>)
    requires
        0 <= i < s.len(),
    ensures
        rows_of(s.update(i, v)) == rows_of(s).update(i, v@),
{
    assert(rows_of(s.update(i, v)) =~= rows_of(s).update(i, v@));
}

/// Inserting a row inserts its cells.
pub proof fn lemma_rows_of_insert(s: Seq<Vec<Cell>>, i: int, v: Vec<Cell>)
    requires
        0 <= i <= s.len(),
    ensures
        rows_of(s.insert(i, v)) == rows_of(s).insert(i, v@),
{
    assert(rows_of(s.insert(i, v)) =~= rows_of(s).insert(i, v@));
}

/// Removing a row removes its cells.
pub proof fn lemma_rows_of_remove(s: Seq<Vec<Cell>>, i: int)
    requires
        0 <= i < s.len(),
    ensures
        rows_of(s.remove(i)) == rows_of(s).remove(i),
{
    assert(rows_of(s.remove(i)) =~= rows_of(s).remove(i));
}

/// Putting a row back where it was taken out replaces it.
pub proof fn lemma_remove_insert_is_update<T>(s: Seq<T>, i: int, v: T)
    requires
        0 <= i < s.len(),
    ensures
        s.remove(i).insert(i, v) == s.update(i, v),
{
    assert(s.remove(i).insert(i, v) =~= s.update(i, v));
}

/// Prepending a row prepends its cells.
pub proof fn lemma_rows_of_push_front(s: Seq<Vec<Cell>>, v: Vec<Cell>)
    ensures
        rows_of(seq![v] + s) == seq![v@] + rows_of(s),
{
    assert(rows_of(seq![v] + s) =~= seq![v@] + rows_of(s));
}

/// Display width of `c` in columns as the `unicode-width` crate reports it
/// (`None` for control characters).
pub uninterp spec fn unicode_width_of(c: char) -> Option<usize>;

/// `unicode_width::UnicodeWidthChar::width`: the width of `c` in terminal
/// columns, a function of `c` alone. Its source answers the first code
/// points without tables: printable ASCII (U+0020 to U+007E) is one column
/// wide, and the control codes below U+0020 and from U+007F to U+009F have
/// no width.
#[verifier::external_body]
fn char_width(c: char) -> (w: Option<usize>)
    ensures
        w == unicode_width_of(c),
        0x20 <= (c as u32) < 0x7F ==> w == Some(1usize),
        (c as u32) < 0x20 || (0x7F <= (c as u32) < 0xA0) ==> w is None,
{
    unicode_width::UnicodeWidthChar::width(c)
}

/// The sending half of the event channel (tokio's bounded mpsc channel).
#[verifier::external_type_specification]
#[verifier::external_body]
#[verifier::reject_recursive_types(T)]
pub struct ExSender<T>(tokio::sync::mpsc::Sender<T>);

/// Hands `ev` to the channel with tokio's `Sender::try_send`, without waiting.
/// Whether the event is accepted depends on the channel's fill state and on
/// the receiver, so nothing is stated of the outcome; a full or closed
/// channel drops the event, as the terminal does not block on its listener.
#[verifier::external_body]
fn send_event(tx: &tokio::sync::mpsc::Sender<TermEvent>, ev: TermEvent) {
    let _ = tx.try_send(ev);
}

/// The terminal screen: visible cells, cursor, colours, alternate screen and
/// scrollback, updated by the output of the program in the pane.
pub struct GridPerformer {
    cells: VecDeque<Vec<Cell>>,
    pub cursor_col: usize,
    pub cursor_row: usize,
    saved_cursor: Option<(usize, usize)>,
    /// Backup of primary screen cells+cursor when alternate screen is active.
    alt_backup: Option<(VecDeque<Vec<Cell>>, usize, usize)>,
    cols: usize,
    rows: usize,
    current_fg: Color,
    current_bg: Color,
    reverse_video: bool,
    event_tx: tokio::sync::mpsc::Sender<TermEvent>,
    scrollback: VecDeque<Vec<Cell>>,
    scroll_offset: usize,
    events: Ghost<Seq<EventModel>>,
}

impl View for GridPerformer {
    type V = GridModel;

    closed spec fn view(&self) -> GridModel {
        GridModel {
            cells: rows_of(self.cells@),
            cursor_col: self.cursor_col,
            cursor_row: self.cursor_row,
            saved_cursor: self.saved_cursor,
            alt_backup: match self.alt_backup {
                Some((a, c, r)) => Some((rows_of(a@), c, r)),
                None => None,
            },
            cols: self.cols,
            rows: self.rows,
            fg: self.current_fg,
            bg: self.current_bg,
            reverse: self.reverse_video,
            scrollback: rows_of(self.scrollback@),
            scroll_offset: self.scroll_offset,
            events: self.events@,
        }
    }
}

/// A row of `n` blank cells.
pub fn new_blank_row(n: usize) -> (v: Vec<Cell>)
    ensures
        v@ == blank_row(n as nat),
{
    let mut v: Vec<Cell> = Vec::new();
    let mut i: usize = 0;
    while i < n
        invariant
            i <= n,
            v@ == blank_row(i as nat),
        decreases n - i,
    {
        v.push(Cell::blank());
        i = i + 1;
        assert(v@ =~= blank_row(i as nat));
    }
    v
}

/// `rows` blank rows of `cols` cells.
pub fn new_blank_screen(cols: usize, rows: usize) -> (d: VecDeque<Vec<Cell>>)
    ensures
        rows_of(d@) == blank_rows(rows as nat, cols as nat),
{
    let mut d: VecDeque<Vec<Cell>> = VecDeque::new();
    let mut i: usize = 0;
    while i < rows
        invariant
            i <= rows,
            rows_of(d@) == blank_rows(i as nat, cols as nat),
        decreases rows - i,
    {
        let r = new_blank_row(cols);
        proof {
            lemma_rows_of_push(d@, r);
        }
        d.push_back(r);
        i = i + 1;
        assert(rows_of(d@) =~= blank_rows(i as nat, cols as nat));
    }
    d
}

/// Blanks cells `lo .. hi` of `row`.
fn blank_cells(row: &mut Vec<Cell>, lo: usize, hi: usize)
    requires
        hi <= old(row)@.len(),
    ensures
        final(row)@ == fill_blank(old(row)@, lo as int, hi as int),
{
    let ghost orig = row@;
    let mut i = lo;
    while i < hi
        invariant
            lo <= i,
            lo <= hi ==> i <= hi,
            lo > hi ==> i == lo,
            hi <= orig.len(),
            row@.len() == orig.len(),
            forall|j: int|
                0 <= j < orig.len() ==> #[trigger] row@[j] == if lo <= j < i {
                    blank_cell()
                } else {
                    orig[j]
                },
        decreases hi - i,
    {
        row.set(i, Cell::blank());
        i = i + 1;
    }
    assert(lo <= hi ==> i == hi);
    assert(lo > hi ==> i == lo);
    assert forall|j: int| 0 <= j < orig.len() implies #[trigger] row@[j] == fill_blank(
        orig,
        lo as int,
        hi as int,
    )[j] by {
        assert(row@[j] == if lo <= j < i {
            blank_cell()
        } else {
            orig[j]
        });
        assert(fill_blank(orig, lo as int, hi as int)[j] == if lo <= j < hi {
            blank_cell()
        } else {
            orig[j]
        });
        if lo <= hi {
            assert(i == hi);
        } else {
            assert(i == lo);
        }
    }
    assert(row@ =~= fill_blank(orig, lo as int, hi as int));
}

/// Moves the cells from `col + n` on `n` places left, blanking the last `n`.
fn delete_chars_in(row: &mut Vec<Cell>, col: usize, n: usize)
    requires
        col + n <= old(row)@.len(),
    ensures
        final(row)@ == deleted_chars(old(row)@, col as int, n as int),
{
    let ghost orig = row@;
    let len = row.len();
    let mut c = col;
    while c < len - n
        invariant
            len == orig.len(),
            col + n <= len,
            col <= c <= len - n,
            row@.len() == len,
            forall|j: int|
                0 <= j < len ==> #[trigger] row@[j] == if col <= j < c {
                    orig[j + n]
                } else {
                    orig[j]
                },
        decreases len - n - c,
    {
        let x = row[c + n];
        row.set(c, x);
        c = c + 1;
    }
    let mut c = len - n;
    while c < len
        invariant
            len == orig.len(),
            col + n <= len,
            len - n <= c <= len,
            row@.len() == len,
            forall|j: int|
                0 <= j < len ==> #[trigger] row@[j] == if j < col {
                    orig[j]
                } else if j < len - n {
                    orig[j + n]
                } else if j < c {
                    blank_cell()
                } else {
                    orig[j]
                },
        decreases len - c,
    {
        row.set(c, Cell::blank());
        c = c + 1;
    }
    assert(row@ =~= deleted_chars(orig, col as int, n as int));
}

/// Moves the cells from `col` on `n` places right, blanking `col .. col + n`.
fn insert_chars_in(row: &mut Vec<Cell>, col: usize, n: usize)
    requires
        col + n <= old(row)@.len(),
    ensures
        final(row)@ == inserted_chars(old(row)@, col as int, n as int),
{
    let ghost orig = row@;
    let len = row.len();
    let mut c = len - n;
    while c > col
        invariant
            len == orig.len(),
            col + n <= len,
            col <= c <= len - n,
            row@.len() == len,
            forall|j: int|
                0 <= j < len ==> #[trigger] row@[j] == if j >= c + n {
                    orig[j - n]
                } else {
                    orig[j]
                },
        decreases c,
    {
        c = c - 1;
        let x = row[c];
        row.set(c + n, x);
    }
    let mut c = col;
    while c < col + n
        invariant
            len == orig.len(),
            col + n <= len,
            col <= c <= col + n,
            row@.len() == len,
            forall|j: int|
                0 <= j < len ==> #[trigger] row@[j] == if j < col {
                    orig[j]
                } else if j < c {
                    blank_cell()
                } else if j >= col + n {
                    orig[j - n]
                } else {
                    orig[j]
                },
        decreases col + n - c,
    {
        row.set(c, Cell::blank());
        c = c + 1;
    }
    assert(row@ =~= inserted_chars(orig, col as int, n as int));
}

/// One more blank row inserted at `r` and the bottom row dropped.
pub proof fn lemma_insert_lines_step(cells: Seq<Seq<Cell>>, r: int, k: int, cols: nat)
    requires
        0 <= r <= cells.len(),
        0 <= k,
    ensures
        inserted_lines(cells, r, k, cols).insert(r, blank_row(cols)).drop_last()
            == inserted_lines(cells, r, k + 1, cols),
{
    let a = inserted_lines(cells, r, k, cols).insert(r, blank_row(cols)).drop_last();
    let b = inserted_lines(cells, r, k + 1, cols);
    assert forall|i: int| 0 <= i < a.len() implies a[i] == b[i] by {
        if i > r {
            assert(a[i] == inserted_lines(cells, r, k, cols)[i - 1]);
        }
    }
    assert(a =~= b);
}

/// One more row deleted at `r` and a blank row added at the bottom.
pub proof fn lemma_delete_lines_step(cells: Seq<Seq<Cell>>, r: int, k: int, cols: nat)
    requires
        0 <= r < cells.len(),
        0 <= k,
    ensures
        deleted_lines(cells, r, k, cols).remove(r).push(blank_row(cols)) == deleted_lines(
            cells,
            r,
            k + 1,
            cols,
        ),
{
    let a = deleted_lines(cells, r, k, cols).remove(r).push(blank_row(cols));
    let b = deleted_lines(cells, r, k + 1, cols);
    assert forall|i: int| 0 <= i < a.len() implies a[i] == b[i] by {
        if r <= i < cells.len() - 1 {
            assert(a[i] == deleted_lines(cells, r, k, cols)[i + 1]);
        }
    }
    assert(a =~= b);
}

/// Whether the intermediate bytes mark a private (`?`) sequence.
pub open spec fn is_private(im: Seq<u8>) -> bool {
    im == seq![63u8]
}

/// Parameter group `i`'s first value (0 when absent).
fn param_at(params: &Vec<Vec<u16>>, i: usize) -> (p: usize)
    ensures
        p == if i < params@.len() && params@[i as int]@.len() > 0 {
            params@[i as int]@[0] as usize
        } else {
            0
        },
{
    if i < params.len() && params[i].len() > 0 {
        params[i][0] as usize
    } else {
        0
    }
}

/// All parameters and sub-parameters of `params`, in order.
fn flatten_params(params: &Vec<Vec<u16>>) -> (all: Vec<u16>)
    ensures
        all@ == flat(params_of(params@)),
{
    let mut all: Vec<u16> = Vec::new();
    let mut i: usize = 0;
    while i < params.len()
        invariant
            i <= params@.len(),
            all@ == flat(params_of(params@).take(i as int)),
        decreases params@.len() - i,
    {
        let g = &params[i];
        let ghost base = all@;
        let mut j: usize = 0;
        while j < g.len()
            invariant
                j <= g@.len(),
                all@ == base + g@.take(j as int),
            decreases g@.len() - j,
        {
            all.push(g[j]);
            j = j + 1;
            assert(all@ =~= base + g@.take(j as int));
        }
        proof {
            let ps = params_of(params@);
            assert(ps.take(i + 1).drop_last() =~= ps.take(i as int));
            assert(ps.take(i + 1).last() == g@);
            assert(g@.take(g@.len() as int) =~= g@);
        }
        i = i + 1;
    }
    assert(params_of(params@).take(params@.len() as int) =~= params_of(params@));
    all
}

/// `row` cut or padded with blanks to `cols` cells.
fn fit_vec(row: &mut Vec<Cell>, cols: usize)
    ensures
        final(row)@ == fit_row(old(row)@, cols as nat),
{
    if row.len() > cols {
        row.truncate(cols);
    } else {
        let ghost orig = row@;
        while row.len() < cols
            invariant
                orig.len() <= row@.len() <= cols,
                forall|j: int|
                    0 <= j < row@.len() ==> #[trigger] row@[j] == if j < orig.len() {
                        orig[j]
                    } else {
                        blank_cell()
                    },
            decreases cols - row.len(),
        {
            row.push(Cell::blank());
        }
    }
    assert(row@ =~= fit_row(old(row)@, cols as nat));
}

/// The rows of `d` cut or padded to `rows` rows of `cols` cells.
fn fit_screen(d: &mut VecDeque<Vec<Cell>>, cols: usize, rows: usize)
    ensures
        rows_of(final(d)@) == fit_rows(rows_of(old(d)@), rows as nat, cols as nat),
        final(d)@.len() == rows,
{
    let ghost orig = rows_of(d@);
    while d.len() < rows
        invariant
            d@.len() <= rows || d@.len() == orig.len(),
            forall|j: int|
                0 <= j < d@.len() ==> #[trigger] rows_of(d@)[j] == if j < orig.len() {
                    orig[j]
                } else {
                    blank_row(cols as nat)
                },
            d@.len() >= orig.len(),
        decreases rows - d@.len(),
    {
        let r = new_blank_row(cols);
        proof {
            lemma_rows_of_push(d@, r);
        }
        d.push_back(r);
    }
    while d.len() > rows
        invariant
            d@.len() >= rows,
            forall|j: int|
                0 <= j < d@.len() ==> #[trigger] rows_of(d@)[j] == if j < orig.len() {
                    orig[j]
                } else {
                    blank_row(cols as nat)
                },
        decreases d@.len(),
    {
        proof {
            lemma_rows_of_drop_last(d@);
        }
        let _ = d.pop_back();
    }
    let mut i: usize = 0;
    while i < rows
        invariant
            d@.len() == rows,
            i <= rows,
            forall|j: int|
                0 <= j < rows ==> #[trigger] rows_of(d@)[j] == if j < i {
                    fit_row(if j < orig.len() { orig[j] } else { blank_row(cols as nat) }, cols as nat)
                } else if j < orig.len() {
                    orig[j]
                } else {
                    blank_row(cols as nat)
                },
        decreases rows - i,
    {
        let ghost before = d@;
        let mut row = d.remove(i).unwrap();
        assert(row@ == rows_of(before)[i as int]);
        fit_vec(&mut row, cols);
        d.insert(i, row);
        proof {
            lemma_remove_insert_is_update(before, i as int, row);
            lemma_rows_of_update(before, i as int, row);
        }
        i = i + 1;
    }
    proof {
        assert(fit_row(blank_row(cols as nat), cols as nat) =~= blank_row(cols as nat));
    }
    assert(rows_of(d@) =~= fit_rows(orig, rows as nat, cols as nat));
}

impl GridPerformer {
    /// The grid is well formed.
    pub open spec fn wf(&self) -> bool {
        self@.inv()
    }

    /// A blank `cols` × `rows` screen with the cursor at the top left, default
    /// colours, no scrollback, reporting to `event_tx`.
    pub fn new(cols: usize, rows: usize, event_tx: tokio::sync::mpsc::Sender<TermEvent>) -> (g:
        Self)
        requires
            dims_fit(cols as int, rows as int),
        ensures
            g.wf(),
            g@ == (GridModel {
                cells: blank_rows(rows as nat, cols as nat),
                cursor_col: 0,
                cursor_row: 0,
                saved_cursor: None,
                alt_backup: None,
                cols,
                rows,
                fg: spec_default_fg(),
                bg: spec_default_bg(),
                reverse: false,
                scrollback: Seq::empty(),
                scroll_offset: 0,
                events: Seq::empty(),
            }),
    {
        let cells = new_blank_screen(cols, rows);
        let g = GridPerformer {
            cells,
            cursor_col: 0,
            cursor_row: 0,
            saved_cursor: None,
            alt_backup: None,
            cols,
            rows,
            current_fg: default_fg(),
            current_bg: default_bg(),
            reverse_video: false,
            event_tx,
            scrollback: VecDeque::new(),
            scroll_offset: 0,
            events: Ghost(Seq::empty()),
        };
        assert(rows_of(g.scrollback@) =~= Seq::<Seq<Cell>>::empty());
        g
    }

    /// The cell at (`col`, `row`) of the screen, clamped to the screen.
    pub fn cell(&self, col: usize, row: usize) -> (c: &Cell)
        requires
            self.wf(),
        ensures
            *c == self@.cells[if row < self@.rows - 1 {
                row as int
            } else {
                self@.rows - 1
            }][if col < self@.cols - 1 {
                col as int
            } else {
                self@.cols - 1
            }],
    {
        let r = if row < self.rows - 1 {
            row
        } else {
            self.rows - 1
        };
        let c = if col < self.cols - 1 {
            col
        } else {
            self.cols - 1
        };
        assert(self.cells@[r as int]@.len() == self.cols) by {
            assert(rows_of(self.cells@)[r as int] == self.cells@[r as int]@);
        }
        &self.cells[r][c]
    }

    /// Number of columns.
    pub fn cols(&self) -> (n: usize)
        ensures
            n == self@.cols,
    {
        self.cols
    }

    /// Number of rows.
    pub fn rows(&self) -> (n: usize)
        ensures
            n == self@.rows,
    {
        self.rows
    }

    /// Returns the row to display for `visual_row` (0 = top of visible area),
    /// accounting for the current scroll offset.
    pub fn visible_row(&self, visual_row: usize) -> (r: &[Cell])
        requires
            self.wf(),
            self@.scroll_offset > 0 ==> self@.scrollback.len() - self@.scroll_offset + visual_row
                <= usize::MAX,
        ensures
            r@ == self@.shown_row(visual_row as int),
    {
        if self.scroll_offset == 0 {
            let i = if visual_row < self.rows - 1 {
                visual_row
            } else {
                self.rows - 1
            };
            return self.cells[i].as_slice();
        }
        let abs_start = self.scrollback.len() - self.scroll_offset;
        let abs_idx = abs_start + visual_row;
        if abs_idx < self.scrollback.len() {
            self.scrollback[abs_idx].as_slice()
        } else {
            let k = abs_idx - self.scrollback.len();
            let i = if k < self.rows - 1 {
                k
            } else {
                self.rows - 1
            };
            self.cells[i].as_slice()
        }
    }

    /// Scroll back `lines` lines into history, at most to its oldest line.
    pub fn scroll_up_by(&mut self, lines: usize)
        requires
            old(self).wf(),
        ensures
            final(self).wf(),
            final(self)@ == old(self)@.scrolled_back(lines as int),
    {
        let len = self.scrollback.len();
        self.scroll_offset = if lines < len - self.scroll_offset {
            self.scroll_offset + lines
        } else {
            len
        };
    }

    /// Scroll forward `lines` lines toward the live view, stopping there.
    pub fn scroll_down_by(&mut self, lines: usize)
        requires
            old(self).wf(),
        ensures
            final(self).wf(),
            final(self)@ == old(self)@.scrolled_forward(lines as int),
    {
        self.scroll_offset = if self.scroll_offset >= lines {
            self.scroll_offset - lines
        } else {
            0
        };
    }

    /// How many lines the view is scrolled back (0 = live view).
    pub fn scroll_offset(&self) -> (n: usize)
        ensures
            n == self@.scroll_offset,
    {
        self.scroll_offset
    }

    /// Number of lines in the scrollback history.
    pub fn scrollback_len(&self) -> (n: usize)
        ensures
            n == self@.scrollback.len(),
    {
        self.scrollback.len()
    }

    /// Back to the live view.
    fn reset_scroll(&mut self)
        requires
            old(self).wf(),
        ensures
            final(self).wf(),
            final(self)@ == (GridModel { scroll_offset: 0, ..old(self)@ }),
    {
        self.scroll_offset = 0;
    }

    /// Replaces cell (`r`, `c`) of the screen.
    fn put_cell(&mut self, r: usize, c: usize, x: Cell)
        requires
            old(self).wf(),
            r < old(self)@.rows,
            c < old(self)@.cols,
        ensures
            final(self).wf(),
            final(self)@ == (GridModel {
                cells: set_cell(old(self)@.cells, r as int, c as int, x),
                ..old(self)@
            }),
    {
        let ghost before = self.cells@;
        assert(rows_of(before)[r as int] == before[r as int]@);
        let mut row = self.cells.remove(r).unwrap();
        row.set(c, x);
        self.cells.insert(r, row);
        proof {
            lemma_remove_insert_is_update(before, r as int, row);
            lemma_rows_of_update(before, r as int, row);
            let m = set_cell(rows_of(before), r as int, c as int, x);
            assert(rows_of(self.cells@) =~= m);
            assert(rows_have_width(m, self.cols as nat));
        }
    }

    /// Replaces row `r` of the screen.
    fn put_row(&mut self, r: usize, row: Vec<Cell>)
        requires
            (GridModel { cells: old(self)@.cells.update(r as int, row@), ..old(self)@ }).inv(),
            r < old(self)@.cells.len(),
        ensures
            final(self).wf(),
            final(self)@ == (GridModel {
                cells: old(self)@.cells.update(r as int, row@),
                ..old(self)@
            }),
    {
        let ghost before = self.cells@;
        let _ = self.cells.remove(r);
        self.cells.insert(r, row);
        proof {
            lemma_remove_insert_is_update(before, r as int, row);
            lemma_rows_of_update(before, r as int, row);
        }
    }

    /// Takes row `r` of the screen out, leaving an empty row in its place.
    fn take_row(&mut self, r: usize) -> (row: Vec<Cell>)
        requires
            old(self).wf(),
            r < old(self)@.rows,
        ensures
            row@ == old(self)@.cells[r as int],
            final(self).cells@.len() == old(self).cells@.len(),
            final(self)@ == (GridModel {
                cells: old(self)@.cells.update(r as int, Seq::empty()),
                ..old(self)@
            }),
    {
        let ghost before = self.cells@;
        let row = self.cells.remove(r).unwrap();
        let empty: Vec<Cell> = Vec::new();
        let ghost e = empty;
        self.cells.insert(r, empty);
        proof {
            lemma_remove_insert_is_update(before, r as int, e);
            lemma_rows_of_update(before, r as int, e);
        }
        row
    }

    /// Moves the first row into the scrollback (dropping the oldest line when
    /// full) and adds a blank row at the bottom.
    fn scroll_up(&mut self)
        requires
            old(self).wf(),
        ensures
            final(self).wf(),
            final(self)@ == old(self)@.scrolled_up(),
    {
        let ghost before = self.cells@;
        let ghost sb0 = self.scrollback@;
        proof {
            lemma_rows_of_drop_first(before);
        }
        if let Some(displaced) = self.cells.pop_front() {
            if self.scrollback.len() >= SCROLLBACK_MAX {
                proof {
                    lemma_rows_of_drop_first(sb0);
                }
                let _ = self.scrollback.pop_front();
            }
            let ghost sb1 = self.scrollback@;
            proof {
                lemma_rows_of_push(sb1, displaced);
            }
            self.scrollback.push_back(displaced);
        }
        let ghost mid = self.cells@;
        let r = new_blank_row(self.cols);
        proof {
            lemma_rows_of_push(mid, r);
        }
        self.cells.push_back(r);
        proof {
            let m = rows_of(self.cells@);
            assert(rows_have_width(m, self.cols as nat)) by {
                assert forall|i: int| 0 <= i < m.len() implies (#[trigger] m[i]).len()
                    == self.cols by {
                    if i < m.len() - 1 {
                        assert(m[i] == rows_of(before)[i + 1]);
                    }
                }
            }
        }
    }

    fn advance_row(&mut self)
        requires
            old(self).wf(),
        ensures
            final(self).wf(),
            final(self)@ == old(self)@.advanced_row(),
    {
        let next = self.cursor_row + 1;
        if next >= self.rows {
            self.scroll_up();
            self.cursor_row = self.rows - 1;
        } else {
            self.cursor_row = next;
        }
    }

    /// Writes `c` of display width `w` at the cursor and advances it, as
    /// `print` does with the width Unicode gives `c`.
    pub fn write_char_with_width(&mut self, c: char, w: Option<usize>)
        requires
            old(self).wf(),
            old(self)@.cursor_col >= old(self)@.cols || old(self)@.cursor_row < old(self)@.rows,
        ensures
            final(self).wf(),
            final(self)@ == old(self)@.wrote_char(c, w),
    {
        if self.cursor_col >= self.cols {
            self.cursor_col = 0;
            self.advance_row();
        }
        let width = match w {
            Some(x) => if x == 0 {
                1
            } else {
                x
            },
            None => 1,
        };
        let (fg, bg) = if self.reverse_video {
            (self.current_bg, self.current_fg)
        } else {
            (self.current_fg, self.current_bg)
        };
        self.put_cell(self.cursor_row, self.cursor_col, Cell { ch: c, fg, bg });
        self.cursor_col = self.cursor_col + 1;
        if width == 2 && self.cursor_col < self.cols {
            self.put_cell(self.cursor_row, self.cursor_col, Cell { ch: '\0', fg, bg });
            self.cursor_col = self.cursor_col + 1;
        }
    }

    /// Writes the printable character `c` at the cursor (a wide character
    /// takes two cells) and advances the cursor, wrapping at the right edge.
    pub fn print(&mut self, c: char)
        requires
            old(self).wf(),
            old(self)@.cursor_col >= old(self)@.cols || old(self)@.cursor_row < old(self)@.rows,
        ensures
            final(self).wf(),
            final(self)@ == old(self)@.wrote_char(c, unicode_width_of(c)),
            0x20 <= (c as u32) < 0x7F ==> final(self)@ == old(self)@.wrote_char(c, Some(1usize)),
    {
        let w = char_width(c);
        self.write_char_with_width(c, w);
    }

    /// Blanks columns `lo .. hi` of row `r`.
    fn blank_range(&mut self, r: usize, lo: usize, hi: usize)
        requires
            old(self).wf(),
            r < old(self)@.rows,
            hi <= old(self)@.cols,
        ensures
            final(self).wf(),
            final(self)@ == (GridModel {
                cells: old(self)@.cells.update(
                    r as int,
                    fill_blank(old(self)@.cells[r as int], lo as int, hi as int),
                ),
                ..old(self)@
            }),
    {
        let ghost m0 = self@;
        let mut row = self.take_row(r);
        blank_cells(&mut row, lo, hi);
        proof {
            let m = GridModel { cells: self@.cells.update(r as int, row@), ..self@ };
            assert(m.cells =~= m0.cells.update(r as int, row@));
            assert(rows_have_width(m.cells, m0.cols as nat));
        }
        self.put_row(r, row);
        assert(self@.cells =~= old(self)@.cells.update(
            r as int,
            fill_blank(old(self)@.cells[r as int], lo as int, hi as int),
        ));
    }

    fn erase_from_cursor(&mut self)
        requires
            old(self).wf(),
            old(self)@.cursor_col < old(self)@.cols ==> old(self)@.cursor_row < old(self)@.rows,
        ensures
            final(self).wf(),
            final(self)@ == old(self)@.erased_from_cursor(),
    {
        let ghost m0 = self@;
        if self.cursor_col < self.cols {
            self.blank_range(self.cursor_row, self.cursor_col, self.cols);
        }
        let mut row = self.cursor_row + 1;
        assert(self@.cells =~~= Seq::new(
            m0.rows as nat,
            |r: int|
                if r == m0.cursor_row {
                    fill_blank(m0.cells[r], m0.cursor_col as int, m0.cols as int)
                } else if m0.cursor_row < r < row {
                    blank_row(m0.cols as nat)
                } else {
                    m0.cells[r]
                },
        ));
        while row < self.rows
            invariant
                self.wf(),
                self@ == (GridModel {
                    cells: Seq::new(
                        m0.rows as nat,
                        |r: int|
                            if r == m0.cursor_row {
                                fill_blank(m0.cells[r], m0.cursor_col as int, m0.cols as int)
                            } else if m0.cursor_row < r < row {
                                blank_row(m0.cols as nat)
                            } else {
                                m0.cells[r]
                            },
                    ),
                    ..m0
                }),
                m0.cursor_row + 1 <= row,
            decreases self.rows - row,
        {
            let ghost before = self@;
            self.blank_range(row, 0, self.cols);
            row = row + 1;
            assert(self@.cells =~~= Seq::new(
                m0.rows as nat,
                |r: int|
                    if r == m0.cursor_row {
                        fill_blank(m0.cells[r], m0.cursor_col as int, m0.cols as int)
                    } else if m0.cursor_row < r < row {
                        blank_row(m0.cols as nat)
                    } else {
                        m0.cells[r]
                    },
            ));
        }
        assert(self@.cells =~= m0.erased_from_cursor().cells);
    }

    fn clear_screen(&mut self)
        requires
            old(self).wf(),
        ensures
            final(self).wf(),
            final(self)@ == old(self)@.cleared(),
    {
        let ghost m0 = self@;
        let mut row: usize = 0;
        assert(self@.cells =~~= Seq::new(
            m0.rows as nat,
            |r: int|
                if r < row {
                    blank_row(m0.cols as nat)
                } else {
                    m0.cells[r]
                },
        ));
        while row < self.rows
            invariant
                self.wf(),
                row <= m0.rows,
                self@ == (GridModel {
                    cells: Seq::new(
                        m0.rows as nat,
                        |r: int|
                            if r < row {
                                blank_row(m0.cols as nat)
                            } else {
                                m0.cells[r]
                            },
                    ),
                    ..m0
                }),
            decreases self.rows - row,
        {
            self.blank_range(row, 0, self.cols);
            row = row + 1;
            assert(self@.cells =~~= Seq::new(
                m0.rows as nat,
                |r: int|
                    if r < row {
                        blank_row(m0.cols as nat)
                    } else {
                        m0.cells[r]
                    },
            ));
        }
        assert(self@.cells =~= m0.cleared().cells);
    }

    fn erase_line_from_cursor(&mut self)
        requires
            old(self).wf(),
            old(self)@.cursor_col < old(self)@.cols ==> old(self)@.cursor_row < old(self)@.rows,
        ensures
            final(self).wf(),
            final(self)@ == old(self)@.erased_line_from_cursor(),
    {
        if self.cursor_col < self.cols {
            self.blank_range(self.cursor_row, self.cursor_col, self.cols);
        }
    }

    fn erase_line(&mut self)
        requires
            old(self).wf(),
            old(self)@.cursor_row < old(self)@.rows,
        ensures
            final(self).wf(),
            final(self)@ == old(self)@.erased_line(),
    {
        self.blank_range(self.cursor_row, 0, self.cols);
        assert(fill_blank(old(self)@.cells[self.cursor_row as int], 0, self.cols as int)
            =~= blank_row(self.cols as nat));
    }

    fn erase_line_to_cursor(&mut self)
        requires
            old(self).wf(),
            old(self)@.cursor_row < old(self)@.rows,
        ensures
            final(self).wf(),
            final(self)@ == old(self)@.erased_line_to_cursor(),
    {
        let last = if self.cursor_col < self.cols - 1 {
            self.cursor_col
        } else {
            self.cols - 1
        };
        self.blank_range(self.cursor_row, 0, last + 1);
    }

    fn erase_to_cursor(&mut self)
        requires
            old(self).wf(),
            old(self)@.cursor_row < old(self)@.rows,
        ensures
            final(self).wf(),
            final(self)@ == old(self)@.erased_to_cursor(),
    {
        let ghost m0 = self@;
        let mut row: usize = 0;
        assert(self@.cells =~~= Seq::new(
            m0.rows as nat,
            |r: int|
                if r < row {
                    blank_row(m0.cols as nat)
                } else {
                    m0.cells[r]
                },
        ));
        while row < self.cursor_row
            invariant
                self.wf(),
                row <= m0.cursor_row < m0.rows,
                self@ == (GridModel {
                    cells: Seq::new(
                        m0.rows as nat,
                        |r: int|
                            if r < row {
                                blank_row(m0.cols as nat)
                            } else {
                                m0.cells[r]
                            },
                    ),
                    ..m0
                }),
            decreases self.cursor_row - row,
        {
            self.blank_range(row, 0, self.cols);
            row = row + 1;
            assert(self@.cells =~~= Seq::new(
                m0.rows as nat,
                |r: int|
                    if r < row {
                        blank_row(m0.cols as nat)
                    } else {
                        m0.cells[r]
                    },
            ));
        }
        self.erase_line_to_cursor();
        assert(self@.cells =~= m0.erased_to_cursor().cells);
    }

    fn enter_alt_screen(&mut self)
        requires
            old(self).wf(),
        ensures
            final(self).wf(),
            final(self)@ == old(self)@.entered_alt_screen(),
    {
        let mut primary = new_blank_screen(self.cols, self.rows);
        std::mem::swap(&mut self.cells, &mut primary);
        self.alt_backup = Some((primary, self.cursor_col, self.cursor_row));
        self.cursor_col = 0;
        self.cursor_row = 0;
        self.reset_scroll();
        self.current_fg = default_fg();
        self.current_bg = default_bg();
    }

    fn leave_alt_screen(&mut self)
        requires
            old(self).wf(),
        ensures
            final(self).wf(),
            final(self)@ == old(self)@.left_alt_screen(),
    {
        if let Some((primary, col, row)) = self.alt_backup.take() {
            self.cells = primary;
            self.cursor_col = col;
            self.cursor_row = row;
        }
        self.reset_scroll();
    }

    /// Resizes the screen to `cols` × `rows`: rows and columns are cut or
    /// padded with blanks (the saved alternate-screen backup too) and the
    /// cursor is moved back onto the screen.
    pub fn resize(&mut self, cols: usize, rows: usize)
        requires
            old(self).wf(),
            dims_fit(cols as int, rows as int),
        ensures
            final(self).wf(),
            final(self)@ == old(self)@.resized(cols, rows),
    {
        fit_screen(&mut self.cells, cols, rows);
        match self.alt_backup.take() {
            Some((a, c, r)) => {
                let mut a = a;
                fit_screen(&mut a, cols, rows);
                self.alt_backup = Some((a, c, r));
            },
            None => {},
        }
        self.cols = cols;
        self.rows = rows;
        if self.cursor_col >= cols - 1 {
            self.cursor_col = cols - 1;
        }
        if self.cursor_row >= rows - 1 {
            self.cursor_row = rows - 1;
        }
        assert(rows_have_width(self@.cells, cols as nat));
    }

    /// Inserts `n` blank rows at the cursor row, dropping rows pushed off the bottom.
    fn insert_lines(&mut self, n: usize)
        requires
            old(self).wf(),
            old(self)@.cursor_row <= old(self)@.rows,
        ensures
            final(self).wf(),
            final(self)@ == (GridModel {
                cells: inserted_lines(
                    old(self)@.cells,
                    old(self)@.cursor_row as int,
                    n as int,
                    old(self)@.cols as nat,
                ),
                ..old(self)@
            }),
    {
        let ghost m0 = self@;
        let mut k: usize = 0;
        assert(inserted_lines(m0.cells, m0.cursor_row as int, 0, m0.cols as nat) =~= m0.cells);
        while k < n
            invariant
                k <= n,
                m0.cursor_row <= m0.rows,
                self.wf(),
                self@ == (GridModel {
                    cells: inserted_lines(
                        m0.cells,
                        m0.cursor_row as int,
                        k as int,
                        m0.cols as nat,
                    ),
                    ..m0
                }),
            decreases n - k,
        {
            let ghost before = self.cells@;
            let r = new_blank_row(self.cols);
            self.cells.insert(self.cursor_row, r);
            proof {
                lemma_rows_of_insert(before, self.cursor_row as int, r);
            }
            let ghost mid = self.cells@;
            if self.cells.len() > self.rows {
                proof {
                    lemma_rows_of_drop_last(mid);
                }
                let _ = self.cells.pop_back();
            }
            proof {
                lemma_insert_lines_step(m0.cells, m0.cursor_row as int, k as int, m0.cols as nat);
                let m = rows_of(self.cells@);
                assert forall|i: int| 0 <= i < m.len() implies (#[trigger] m[i]).len() == m0.cols by {
                    assert(m[i] == inserted_lines(
                        m0.cells,
                        m0.cursor_row as int,
                        k + 1,
                        m0.cols as nat,
                    )[i]);
                }
            }
            k = k + 1;
        }
    }

    /// Deletes `n` rows at the cursor row, adding blank rows at the bottom.
    fn delete_lines(&mut self, n: usize)
        requires
            old(self).wf(),
        ensures
            final(self).wf(),
            final(self)@ == (GridModel {
                cells: deleted_lines(
                    old(self)@.cells,
                    old(self)@.cursor_row as int,
                    n as int,
                    old(self)@.cols as nat,
                ),
                ..old(self)@
            }),
    {
        let ghost m0 = self@;
        let mut k: usize = 0;
        assert(deleted_lines(m0.cells, m0.cursor_row as int, 0, m0.cols as nat) =~= m0.cells);
        while k < n
            invariant
                k <= n,
                self.wf(),
                self@ == (GridModel {
                    cells: deleted_lines(
                        m0.cells,
                        m0.cursor_row as int,
                        k as int,
                        m0.cols as nat,
                    ),
                    ..m0
                }),
            decreases n - k,
        {
            if self.cursor_row < self.cells.len() {
                let ghost before = self.cells@;
                proof {
                    lemma_rows_of_remove(before, self.cursor_row as int);
                }
                let _ = self.cells.remove(self.cursor_row);
                let ghost mid = self.cells@;
                let r = new_blank_row(self.cols);
                proof {
                    lemma_rows_of_push(mid, r);
                }
                self.cells.push_back(r);
                proof {
                    lemma_delete_lines_step(
                        m0.cells,
                        m0.cursor_row as int,
                        k as int,
                        m0.cols as nat,
                    );
                    let m = rows_of(self.cells@);
                    assert forall|i: int| 0 <= i < m.len() implies (#[trigger] m[i]).len()
                        == m0.cols by {
                        assert(m[i] == deleted_lines(
                            m0.cells,
                            m0.cursor_row as int,
                            k + 1,
                            m0.cols as nat,
                        )[i]);
                    }
                }
            } else {
                proof {
                    assert(deleted_lines(m0.cells, m0.cursor_row as int, k + 1, m0.cols as nat)
                        =~= deleted_lines(m0.cells, m0.cursor_row as int, k as int, m0.cols as nat));
                }
            }
            k = k + 1;
        }
    }

    /// Applies the graphic rendition parameters (colours, reverse video).
    fn apply_sgr(&mut self, params: &Vec<Vec<u16>>)
        requires
            old(self).wf(),
        ensures
            final(self).wf(),
            final(self)@ == (GridModel {
                fg: sgr_from(
                    flat(params_of(params@)),
                    0,
                    (old(self)@.fg, old(self)@.bg, old(self)@.reverse),
                ).0,
                bg: sgr_from(
                    flat(params_of(params@)),
                    0,
                    (old(self)@.fg, old(self)@.bg, old(self)@.reverse),
                ).1,
                reverse: sgr_from(
                    flat(params_of(params@)),
                    0,
                    (old(self)@.fg, old(self)@.bg, old(self)@.reverse),
                ).2,
                ..old(self)@
            }),
    {
        let all = flatten_params(params);
        let ghost m0 = self@;
        let ghost goal = sgr_from(all@, 0, (m0.fg, m0.bg, m0.reverse));
        let mut i: usize = 0;
        while i < all.len()
            invariant
                i <= all@.len(),
                self.wf(),
                self@ == (GridModel { fg: self@.fg, bg: self@.bg, reverse: self@.reverse, ..m0 }),
                sgr_from(all@, i as int, (self@.fg, self@.bg, self@.reverse)) == goal,
            decreases all@.len() - i,
        {
            let p = all[i];
            let len = all.len();
            let ghost st = (self@.fg, self@.bg, self@.reverse);
            let mut extra: usize = 0;
            if p == 0 {
                self.current_fg = default_fg();
                self.current_bg = default_bg();
                self.reverse_video = false;
            } else if p == 7 {
                self.reverse_video = true;
            } else if p == 27 {
                self.reverse_video = false;
            } else if 30 <= p && p <= 37 {
                self.current_fg = ansi_color((p - 30) as u8);
            } else if p == 39 {
                self.current_fg = default_fg();
            } else if 40 <= p && p <= 47 {
                self.current_bg = ansi_color((p - 40) as u8);
            } else if p == 49 {
                self.current_bg = default_bg();
            } else if 90 <= p && p <= 97 {
                self.current_fg = ansi_bright((p - 90) as u8);
            } else if 100 <= p && p <= 107 {
                self.current_bg = ansi_bright((p - 100) as u8);
            } else if (p == 38 || p == 48) && len - i > 2 && all[i + 1] == 5 {
                let c = ansi_256_color((all[i + 2] % 256) as u8);
                if p == 38 {
                    self.current_fg = c;
                } else {
                    self.current_bg = c;
                }
                extra = 2;
            } else if (p == 38 || p == 48) && len - i > 4 && all[i + 1] == 2 {
                let c = Color(
                    (all[i + 2] % 256) as u8,
                    (all[i + 3] % 256) as u8,
                    (all[i + 4] % 256) as u8,
                );
                if p == 38 {
                    self.current_fg = c;
                } else {
                    self.current_bg = c;
                }
                extra = 4;
            }
            proof {
                assert(extra == sgr_extra(all@, i as int));
                assert((self@.fg, self@.bg, self@.reverse) == sgr_apply(all@, i as int, st));
            }
            i = i + extra + 1;
        }
    }

    /// Whether printing a character now stays inside the screen: the cursor
    /// either wraps to a new line or stands on a row of the screen.
    pub fn can_print(&self) -> (b: bool)
        ensures
            b == (self@.cursor_col >= self@.cols || self@.cursor_row < self@.rows),
    {
        self.cursor_col >= self.cols || self.cursor_row < self.rows
    }

    /// Whether the control sequence `c` with `params` and `intermediates`
    /// only touches cells of the screen from the current cursor.
    pub fn csi_fits(&self, params: &Vec<Vec<u16>>, intermediates: &[u8], c: char) -> (b: bool)
        ensures
            b == self@.csi_in_bounds(params_of(params@), is_private(intermediates@), c),
    {
        let private = intermediates.len() == 1 && intermediates[0] == 63;
        proof {
            if private {
                assert(intermediates@ =~= seq![63u8]);
            }
        }
        let p1 = param_at(params, 0);
        assert(p1 == first_param(params_of(params@)));
        if private {
            return true;
        }
        let col_ok = self.cursor_col < self.cols;
        let row_ok = self.cursor_row < self.rows;
        if c == 'J' {
            (p1 != 0 || !col_ok || row_ok) && (p1 != 1 || row_ok)
        } else if c == 'K' {
            (p1 != 0 || !col_ok || row_ok) && (!(p1 == 1 || p1 == 2) || row_ok)
        } else if c == 'X' || c == 'P' || c == '@' {
            self.cursor_col <= self.cols && (!col_ok || row_ok)
        } else if c == 'L' {
            self.cursor_row <= self.rows
        } else {
            true
        }
    }

    /// Handles a control sequence (CSI): cursor movement, erasing, inserting
    /// and deleting characters or lines, cursor save/restore, colours, and the
    /// private alternate-screen modes 47, 1047 and 1049.
    pub fn csi_dispatch(&mut self, params: &Vec<Vec<u16>>, intermediates: &[u8], c: char)
        requires
            old(self).wf(),
            old(self)@.csi_in_bounds(params_of(params@), is_private(intermediates@), c),
        ensures
            final(self).wf(),
            final(self)@ == old(self)@.after_csi(
                params_of(params@),
                is_private(intermediates@),
                c,
            ),
    {
        let ghost ps = params_of(params@);
        let private = intermediates.len() == 1 && intermediates[0] == 63;
        proof {
            if private {
                assert(intermediates@ =~= seq![63u8]);
            }
        }
        let p1 = param_at(params, 0);
        let p2 = param_at(params, 1);
        assert(p1 == first_param(ps) && p2 == second_param(ps));
        if private {
            if (p1 == 47 || p1 == 1047 || p1 == 1049) && c == 'h' {
                self.enter_alt_screen();
            } else if (p1 == 47 || p1 == 1047 || p1 == 1049) && c == 'l' {
                self.leave_alt_screen();
            }
            return;
        }
        let n = if p1 == 0 {
            1
        } else {
            p1
        };
        let last_row = self.rows - 1;
        let last_col = self.cols - 1;
        if c == 'A' {
            self.cursor_row = if self.cursor_row >= n {
                self.cursor_row - n
            } else {
                0
            };
        } else if c == 'B' {
            let t = self.cursor_row + n;
            self.cursor_row = if t < last_row {
                t
            } else {
                last_row
            };
        } else if c == 'C' {
            let t = self.cursor_col + n;
            self.cursor_col = if t < last_col {
                t
            } else {
                last_col
            };
        } else if c == 'D' {
            self.cursor_col = if self.cursor_col >= n {
                self.cursor_col - n
            } else {
                0
            };
        } else if c == 'H' || c == 'f' {
            let r = if p1 >= 1 {
                p1 - 1
            } else {
                0
            };
            let k = if p2 >= 1 {
                p2 - 1
            } else {
                0
            };
            self.cursor_row = if r < last_row {
                r
            } else {
                last_row
            };
            self.cursor_col = if k < last_col {
                k
            } else {
                last_col
            };
        } else if c == 'G' {
            let k = if p1 >= 1 {
                p1 - 1
            } else {
                0
            };
            self.cursor_col = if k < last_col {
                k
            } else {
                last_col
            };
        } else if c == 'E' {
            let t = self.cursor_row + n;
            self.cursor_row = if t < last_row {
                t
            } else {
                last_row
            };
            self.cursor_col = 0;
        } else if c == 'F' {
            self.cursor_row = if self.cursor_row >= n {
                self.cursor_row - n
            } else {
                0
            };
            self.cursor_col = 0;
        } else if c == 'J' {
            if p1 == 0 {
                self.erase_from_cursor();
            } else if p1 == 1 {
                self.erase_to_cursor();
            } else if p1 == 2 || p1 == 3 {
                self.clear_screen();
            }
        } else if c == 'K' {
            if p1 == 0 {
                self.erase_line_from_cursor();
            } else if p1 == 1 {
                self.erase_line_to_cursor();
            } else if p1 == 2 {
                self.erase_line();
            }
        } else if c == 'X' || c == 'P' || c == '@' {
            let room = self.cols - self.cursor_col;
            let k = if n < room {
                n
            } else {
                room
            };
            if k > 0 {
                let r = self.cursor_row;
                let col = self.cursor_col;
                let ghost m0 = self@;
                let mut row = self.take_row(r);
                if c == 'X' {
                    blank_cells(&mut row, col, col + k);
                } else if c == 'P' {
                    delete_chars_in(&mut row, col, k);
                } else {
                    insert_chars_in(&mut row, col, k);
                }
                proof {
                    let m = GridModel { cells: self@.cells.update(r as int, row@), ..self@ };
                    assert(m.cells =~= m0.cells.update(r as int, row@));
                    assert(rows_have_width(m.cells, m0.cols as nat));
                }
                self.put_row(r, row);
                assert(self@.cells =~= m0.after_csi(ps, false, c).cells);
            }
        } else if c == 'L' {
            self.insert_lines(n);
        } else if c == 'M' {
            self.delete_lines(n);
        } else if c == 's' {
            self.saved_cursor = Some((self.cursor_col, self.cursor_row));
        } else if c == 'u' {
            if let Some((col, row)) = self.saved_cursor {
                self.cursor_col = col;
                self.cursor_row = row;
            }
        } else if c == 'm' {
            self.apply_sgr(params);
        }
    }

    /// Handles a control byte: bell (reported as an event), backspace, line
    /// feed and carriage return.
    pub fn execute(&mut self, byte: u8)
        requires
            old(self).wf(),
        ensures
            final(self).wf(),
            final(self)@ == old(self)@.after_execute(byte),
    {
        if byte == 0x07 {
            self.emit(TermEvent::Bell);
        } else if byte == 0x08 {
            if self.cursor_col > 0 {
                self.cursor_col = self.cursor_col - 1;
            }
        } else if byte == 0x0A {
            self.advance_row();
        } else if byte == 0x0D {
            self.cursor_col = 0;
        }
    }

    /// Handles an escape sequence: save (`7`) and restore (`8`) the cursor,
    /// reverse index (`M`).
    pub fn esc_dispatch(&mut self, byte: u8)
        requires
            old(self).wf(),
        ensures
            final(self).wf(),
            final(self)@ == old(self)@.after_esc(byte),
    {
        if byte == 0x37 {
            self.saved_cursor = Some((self.cursor_col, self.cursor_row));
        } else if byte == 0x38 {
            if let Some((c, r)) = self.saved_cursor {
                self.cursor_col = c;
                self.cursor_row = r;
            }
        } else if byte == 0x4D {
            if self.cursor_row == 0 {
                let ghost before = self.cells@;
                let r = new_blank_row(self.cols);
                self.cells.push_front(r);
                proof {
                    lemma_rows_of_push_front(before, r);
                }
                let ghost mid = self.cells@;
                if self.cells.len() > self.rows {
                    proof {
                        lemma_rows_of_drop_last(mid);
                    }
                    let _ = self.cells.pop_back();
                }
                proof {
                    let m = rows_of(before);
                    assert(rows_of(self.cells@) =~= seq![blank_row(self.cols as nat)]
                        + m.drop_last());
                    let q = rows_of(self.cells@);
                    assert forall|i: int| 0 <= i < q.len() implies (#[trigger] q[i]).len()
                        == self.cols by {
                        if i > 0 {
                            assert(q[i] == m[i - 1]);
                        }
                    }
                }
            } else {
                self.cursor_row = self.cursor_row - 1;
            }
        }
    }

    /// Handles an operating-system command (OSC): the event it reports, if
    /// any, is handed to the event channel; a working-directory report is
    /// read as on `platform`.
    pub fn osc_dispatch(&mut self, params: &Vec<Vec<u8>>, platform: Platform)
        requires
            old(self).wf(),
        ensures
            final(self).wf(),
            final(self)@ == (GridModel {
                events: match osc_event(bytes_of(params@), platform) {
                    Some(e) => old(self)@.events.push(e),
                    None => old(self)@.events,
                },
                ..old(self)@
            }),
    {
        match osc_event_of(params, platform) {
            Some(ev) => self.emit(ev),
            None => {},
        }
    }

    /// Records `ev` as emitted and hands it to the event channel.
    fn emit(&mut self, ev: TermEvent)
        requires
            old(self).wf(),
        ensures
            final(self).wf(),
            final(self)@ == (GridModel { events: old(self)@.events.push(ev@), ..old(self)@ }),
    {
        proof {
            self.events@ = self.events@.push(ev@);
        }
        send_event(&self.event_tx, ev);
    }
}

/// A well-formed grid never holds more than `SCROLLBACK_MAX` lines of
/// history, and its view never scrolls back past the oldest of them.
pub proof fn law_scrollback_bounded(g: GridModel)
    requires
        g.inv(),
    ensures
        g.scrollback.len() <= SCROLLBACK_MAX,
        g.scroll_offset <= g.scrollback.len(),
{
}

/// Scrolling back `k` lines and then forward `k` lines returns to the same
/// view, as long as the history reaches that far back.
pub proof fn law_scroll_back_then_forward(g: GridModel, k: int)
    requires
        g.inv(),
        k >= 0,
        g.scroll_offset + k <= g.scrollback.len(),
    ensures
        g.scrolled_back(k).scrolled_forward(k) == g,
{
}

/// Scrolling forward never goes past the live view, and scrolling back
/// never past the oldest line of history.
pub proof fn law_scroll_stays_in_history(g: GridModel, k: int)
    requires
        g.inv(),
        k >= 0,
    ensures
        g.scrolled_back(k).scroll_offset <= g.scrollback.len(),
        g.scrolled_forward(k).scroll_offset <= g.scroll_offset,
        g.scrolled_forward(g.scroll_offset as int).scroll_offset == 0,
{
}

/// New output does not move the view: printing, control characters and
/// control sequences other than the alternate-screen switches leave the
/// scroll position as it was (a reader scrolled back stays where they are),
/// and printing keeps the size.
pub proof fn law_output_keeps_view(g: GridModel, c: char, w: Option<usize>, byte: u8, ps: Seq<Seq<u16>>, f: char)
    requires
        g.inv(),
        g.cursor_col >= g.cols || g.cursor_row < g.rows,
    ensures
        g.wrote_char(c, w).scroll_offset == g.scroll_offset,
        g.wrote_char(c, w).cols == g.cols,
        g.wrote_char(c, w).rows == g.rows,
        g.wrote_char(c, w).scrollback.len() <= SCROLLBACK_MAX,
        g.after_execute(byte).scroll_offset == g.scroll_offset,
        g.after_csi(ps, false, f).scroll_offset == g.scroll_offset,
        g.after_esc(byte).scroll_offset == g.scroll_offset,
{
}

/// Entering the alternate screen and leaving it again gives back the
/// primary screen and cursor, in the live view with default colours.
pub proof fn law_alt_screen_round_trip(g: GridModel)
    ensures
        g.entered_alt_screen().left_alt_screen() == (GridModel {
            alt_backup: None,
            scroll_offset: 0,
            fg: spec_default_fg(),
            bg: spec_default_bg(),
            ..g
        }),
        g.entered_alt_screen().scroll_offset == 0,
        g.left_alt_screen().scroll_offset == 0,
{
}

/// One thing the terminal program makes the grid do, as the grid's
/// operations see it: print a character (with its display width), a control
/// byte, an escape or control sequence, an operating-system command, or the
/// reader scrolling the view back or forward.
pub enum GridStep {
    Print(char, Option<usize>),
    Execute(u8),
    Esc(u8),
    Csi(Seq<Seq<u16>>, bool, char),
    Osc(Seq<Seq<u8>>, Platform),
    ScrollBack(usize),
    ScrollForward(usize),
}

/// Whether `s` is a control sequence that enters or leaves the alternate
/// screen (`?47`, `?1047` or `?1049`, then `h` or `l`).
pub open spec fn is_screen_switch(s: GridStep) -> bool {
    match s {
        GridStep::Csi(ps, private, c) => private && is_screen_param(ps) && (c == 'h' || c == 'l'),
        _ => false,
    }
}

impl GridModel {
    /// The grid after step `s`, as the operation that performs it states.
    pub open spec fn after_step(self, s: GridStep) -> GridModel {
        match s {
            GridStep::Print(c, w) => self.wrote_char(c, w),
            GridStep::Execute(b) => self.after_execute(b),
            GridStep::Esc(b) => self.after_esc(b),
            GridStep::Csi(ps, private, c) => self.after_csi(ps, private, c),
            GridStep::Osc(ps, platform) => GridModel {
                events: match osc_event(ps, platform) {
                    Some(e) => self.events.push(e),
                    None => self.events,
                },
                ..self
            },
            GridStep::ScrollBack(k) => self.scrolled_back(k as int),
            GridStep::ScrollForward(k) => self.scrolled_forward(k as int),
        }
    }

    /// The grid after `steps`, in order.
    pub open spec fn after_steps(self, steps: Seq<GridStep>) -> GridModel
        decreases steps.len(),
    {
        if steps.len() == 0 {
            self
        } else {
            self.after_step(steps[0]).after_steps(steps.skip(1))
        }
    }
}

/// A step that does not switch screens leaves the kept primary screen alone.
proof fn lemma_step_keeps_backup(g: GridModel, s: GridStep)
    requires
        !is_screen_switch(s),
    ensures
        g.after_step(s).alt_backup == g.alt_backup,
{
    match s {
        GridStep::Csi(ps, private, c) => {
            assert(g.after_csi(ps, private, c).alt_backup == g.alt_backup);
        },
        _ => {},
    }
}

/// Steps that do not switch screens leave the kept primary screen alone.
proof fn lemma_steps_keep_backup(g: GridModel, steps: Seq<GridStep>)
    requires
        forall|i: int| 0 <= i < steps.len() ==> !is_screen_switch(#[trigger] steps[i]),
    ensures
        g.after_steps(steps).alt_backup == g.alt_backup,
    decreases steps.len(),
{
    if steps.len() > 0 {
        lemma_step_keeps_backup(g, steps[0]);
        assert forall|i: int| 0 <= i < steps.skip(1).len() implies !is_screen_switch(
            #[trigger] steps.skip(1)[i],
        ) by {
            assert(steps.skip(1)[i] == steps[i + 1]);
        }
        lemma_steps_keep_backup(g.after_step(steps[0]), steps.skip(1));
    }
}

/// Whether `ps` are the parameters of an alternate-screen switch (`?47`,
/// `?1047` or `?1049`).
pub open spec fn is_screen_param(ps: Seq<Seq<u16>>) -> bool {
    let p1 = first_param(ps);
    p1 == 47 || p1 == 1047 || p1 == 1049
}

/// The alternate screen keeps the primary screen whatever is shown on it.
/// `csi_dispatch` of `?1049h` (or `?47h`, `?1047h`) shows a blank screen,
/// cursor home, in the live view; after it any printing, control bytes,
/// escape and control sequences, operating-system commands and scrolling
/// other than another screen switch (no resize either); then `csi_dispatch`
/// of `?1049l` (or `?47l`, `?1047l`) gives back the primary screen's cells
/// and cursor, in the live view, with nothing kept aside.
pub proof fn law_alt_screen_restores_after_output(
    g: GridModel,
    enter: Seq<Seq<u16>>,
    steps: Seq<GridStep>,
    leave: Seq<Seq<u16>>,
)
    requires
        is_screen_param(enter),
        is_screen_param(leave),
        forall|i: int| 0 <= i < steps.len() ==> !is_screen_switch(#[trigger] steps[i]),
    ensures
        g.after_csi(enter, true, 'h').cells == blank_rows(g.rows as nat, g.cols as nat),
        g.after_csi(enter, true, 'h').cursor_col == 0,
        g.after_csi(enter, true, 'h').cursor_row == 0,
        g.after_csi(enter, true, 'h').scroll_offset == 0,
        ({
            let back = g.after_csi(enter, true, 'h').after_steps(steps).after_csi(leave, true, 'l');
            &&& back.cells == g.cells
            &&& back.cursor_col == g.cursor_col
            &&& back.cursor_row == g.cursor_row
            &&& back.scroll_offset == 0
            &&& back.alt_backup is None
        }),
{
    let alt = g.after_csi(enter, true, 'h');
    assert(alt == g.entered_alt_screen());
    lemma_steps_keep_backup(alt, steps);
    let shown = alt.after_steps(steps);
    assert(shown.after_csi(leave, true, 'l') == shown.left_alt_screen());
}

/// After a resize to a size the grid accepts, the cursor stands on the screen.
pub proof fn law_resize_keeps_cursor_on_screen(g: GridModel, cols: usize, rows: usize)
    requires
        dims_fit(cols as int, rows as int),
    ensures
        g.resized(cols, rows).cursor_col < cols,
        g.resized(cols, rows).cursor_row < rows,
        g.resized(cols, rows).cols == cols,
        g.resized(cols, rows).rows == rows,
{
}

/// The first value of parameter group `i` of a control sequence (0 when
/// the group is absent or empty).
pub open spec fn group_value(ps: Seq<Seq<u16>>, i: int) -> int {
    if 0 <= i < ps.len() && ps[i].len() > 0 {
        ps[i][0] as int
    } else {
        0
    }
}

/// `a` is `g` with only the cursor moved, to column `col` and row `row`.
pub open spec fn moved_to(g: GridModel, a: GridModel, col: int, row: int) -> bool {
    &&& a == GridModel { cursor_col: a.cursor_col, cursor_row: a.cursor_row, ..g }
    &&& a.cursor_col == col
    &&& a.cursor_row == row
}

/// Cursor movement by control sequence moves only the cursor, by `n`
/// places (an omitted or zero count meaning one) and never off the screen:
/// `A` up, `B` down, `C` right, `D` left, `E` / `F` down / up to column 0,
/// `G` to a column and `H` / `f` to a row and column (counted from 1).
/// In particular `C` never moves a cursor that stands on the screen left,
/// nor `D` right, nor `A` down, nor `B` up.
#[verifier::spinoff_prover]
#[verifier::rlimit(40)]
pub proof fn law_cursor_motion(g: GridModel, ps: Seq<Seq<u16>>)
    requires
        g.inv(),
    ensures
        ({
            let p1 = group_value(ps, 0);
            let p2 = group_value(ps, 1);
            let n = if p1 == 0 {
                1
            } else {
                p1
            };
            let col = g.cursor_col as int;
            let row = g.cursor_row as int;
            let last_col = g.cols - 1;
            let last_row = g.rows - 1;
            &&& moved_to(g, g.after_csi(ps, false, 'A'), col, if row >= n {
                row - n
            } else {
                0
            })
            &&& moved_to(g, g.after_csi(ps, false, 'B'), col, if row + n <= last_row {
                row + n
            } else {
                last_row
            })
            &&& moved_to(g, g.after_csi(ps, false, 'C'), if col + n <= last_col {
                col + n
            } else {
                last_col
            }, row)
            &&& moved_to(g, g.after_csi(ps, false, 'D'), if col >= n {
                col - n
            } else {
                0
            }, row)
            &&& moved_to(g, g.after_csi(ps, false, 'E'), 0, if row + n <= last_row {
                row + n
            } else {
                last_row
            })
            &&& moved_to(g, g.after_csi(ps, false, 'F'), 0, if row >= n {
                row - n
            } else {
                0
            })
            &&& moved_to(g, g.after_csi(ps, false, 'G'), if p1 <= 1 {
                0
            } else if p1 - 1 <= last_col {
                p1 - 1
            } else {
                last_col
            }, row)
            &&& moved_to(g, g.after_csi(ps, false, 'H'), if p2 <= 1 {
                0
            } else if p2 - 1 <= last_col {
                p2 - 1
            } else {
                last_col
            }, if p1 <= 1 {
                0
            } else if p1 - 1 <= last_row {
                p1 - 1
            } else {
                last_row
            })
            &&& g.after_csi(ps, false, 'f') == g.after_csi(ps, false, 'H')
            &&& col < g.cols ==> g.after_csi(ps, false, 'C').cursor_col >= col
            &&& g.after_csi(ps, false, 'D').cursor_col <= col
            &&& g.after_csi(ps, false, 'A').cursor_row <= row
            &&& row < g.rows ==> g.after_csi(ps, false, 'B').cursor_row >= row
        }),
{
}

/// `a` is `g` with only the screen's cells changed, each cell at row `r`,
/// column `c` now being `cell(r, c)`.
pub open spec fn screen_is(g: GridModel, a: GridModel, cell: spec_fn(int, int) -> Cell) -> bool {
    &&& a == GridModel { cells: a.cells, ..g }
    &&& a.cells.len() == g.rows
    &&& forall|r: int| 0 <= r < g.rows ==> (#[trigger] a.cells[r]).len() == g.cols
    &&& forall|r: int, c: int|
        0 <= r < g.rows && 0 <= c < g.cols ==> #[trigger] a.cells[r][c] == cell(r, c)
}

/// Erasing by control sequence blanks exactly the cells it names and
/// changes nothing else: `J` erases in the screen (0 from the cursor to the
/// end, 1 from the start to the cursor, 2 or 3 all), `K` in the cursor row
/// (0 from the cursor, 1 to the cursor, 2 all), `X` the `n` cells from the
/// cursor on.
#[verifier::spinoff_prover]
#[verifier::rlimit(40)]
pub proof fn law_erase(g: GridModel, ps: Seq<Seq<u16>>)
    requires
        g.inv(),
        g.cursor_row < g.rows,
        g.cursor_col < g.cols,
    ensures
        ({
            let p1 = group_value(ps, 0);
            let n = if p1 == 0 {
                1
            } else {
                p1
            };
            let col = g.cursor_col as int;
            let row = g.cursor_row as int;
            &&& screen_is(g, g.after_csi(ps, false, 'J'), |r: int, c: int|
                if (p1 == 0 && (r > row || (r == row && c >= col))) || (p1 == 1 && (r < row || (r
                    == row && c <= col))) || p1 == 2 || p1 == 3 {
                    blank_cell()
                } else {
                    g.cells[r][c]
                })
            &&& screen_is(g, g.after_csi(ps, false, 'K'), |r: int, c: int|
                if r == row && ((p1 == 0 && c >= col) || (p1 == 1 && c <= col) || p1 == 2) {
                    blank_cell()
                } else {
                    g.cells[r][c]
                })
            &&& screen_is(g, g.after_csi(ps, false, 'X'), |r: int, c: int|
                if r == row && col <= c < col + n {
                    blank_cell()
                } else {
                    g.cells[r][c]
                })
        }),
{
}

/// Inserting and deleting by control sequence shifts cells or rows and
/// changes nothing else: `P` deletes `n` cells at the cursor (the rest of the
/// row moves left, blanks come in at the end), `@` inserts `n` blanks there
/// (the row moves right, cells pushed past the end are lost), `L` inserts
/// `n` blank rows at the cursor row (rows pushed past the bottom are lost),
/// `M` deletes `n` rows there (blank rows come in at the bottom). An omitted
/// or zero count means one.
#[verifier::spinoff_prover]
#[verifier::rlimit(40)]
pub proof fn law_insert_delete(g: GridModel, ps: Seq<Seq<u16>>)
    requires
        g.inv(),
        g.cursor_row < g.rows,
        g.cursor_col < g.cols,
    ensures
        ({
            let p1 = group_value(ps, 0);
            let n = if p1 == 0 {
                1
            } else {
                p1
            };
            let col = g.cursor_col as int;
            let row = g.cursor_row as int;
            let k = if n <= g.cols - col {
                n
            } else {
                g.cols - col
            };
            &&& screen_is(g, g.after_csi(ps, false, 'P'), |r: int, c: int|
                if r != row || c < col {
                    g.cells[r][c]
                } else if c + k < g.cols {
                    g.cells[r][c + k]
                } else {
                    blank_cell()
                })
            &&& screen_is(g, g.after_csi(ps, false, '@'), |r: int, c: int|
                if r != row || c < col {
                    g.cells[r][c]
                } else if c < col + k {
                    blank_cell()
                } else {
                    g.cells[r][c - k]
                })
            &&& screen_is(g, g.after_csi(ps, false, 'L'), |r: int, c: int|
                if r < row {
                    g.cells[r][c]
                } else if r < row + n {
                    blank_cell()
                } else {
                    g.cells[r - n][c]
                })
            &&& screen_is(g, g.after_csi(ps, false, 'M'), |r: int, c: int|
                if r < row {
                    g.cells[r][c]
                } else if r + n < g.rows {
                    g.cells[r + n][c]
                } else {
                    blank_cell()
                })
        }),
{
}

/// Whether `c` ends a cursor-movement control sequence.
pub open spec fn is_cursor_motion(c: char) -> bool {
    c == 'A' || c == 'B' || c == 'C' || c == 'D' || c == 'E' || c == 'F' || c == 'G' || c == 'H'
        || c == 'f'
}

/// `g` with its cursor place saved.
pub open spec fn saved_here(g: GridModel) -> GridModel {
    GridModel { saved_cursor: Some((g.cursor_col, g.cursor_row)), ..g }
}

/// Saving the cursor and restoring it later gives back the saved place,
/// whatever cursor movement came between: `CSI s` … `CSI u`, and the same
/// with `ESC 7` … `ESC 8`.
pub proof fn law_save_restore_cursor(
    g: GridModel,
    ps: Seq<Seq<u16>>,
    move_ps: Seq<Seq<u16>>,
    c: char,
    qs: Seq<Seq<u16>>,
)
    requires
        g.inv(),
        is_cursor_motion(c),
    ensures
        g.after_csi(ps, false, 's').after_csi(move_ps, false, c).after_csi(qs, false, 'u')
            == saved_here(g),
        g.after_esc(0x37).after_csi(move_ps, false, c).after_esc(0x38) == saved_here(g),
{
}

/// Flattening one more parameter group appends its values.
proof fn lemma_flat_push(s: Seq<Seq<u16>>, x: Seq<u16>)
    ensures
        flat(s.push(x)) == flat(s) + x,
{
    assert(s.push(x).drop_last() =~= s);
}

/// The flattened parameters of one, two, three or five one-value groups.
proof fn lemma_flat_values(a: u16, b: u16, c: u16, d: u16, e: u16)
    ensures
        flat(seq![seq![a]]) == seq![a],
        flat(seq![seq![a], seq![b]]) == seq![a, b],
        flat(seq![seq![a], seq![b], seq![c]]) == seq![a, b, c],
        flat(seq![seq![a], seq![b], seq![c], seq![d], seq![e]]) == seq![a, b, c, d, e],
{
    let z = Seq::<Seq<u16>>::empty();
    assert(flat(z) =~= Seq::<u16>::empty());
    lemma_flat_push(z, seq![a]);
    assert(z.push(seq![a]) =~= seq![seq![a]]);
    assert(flat(seq![seq![a]]) =~= seq![a]);
    lemma_flat_push(seq![seq![a]], seq![b]);
    assert(seq![seq![a]].push(seq![b]) =~= seq![seq![a], seq![b]]);
    assert(flat(seq![seq![a], seq![b]]) =~= seq![a, b]);
    lemma_flat_push(seq![seq![a], seq![b]], seq![c]);
    assert(seq![seq![a], seq![b]].push(seq![c]) =~= seq![seq![a], seq![b], seq![c]]);
    assert(flat(seq![seq![a], seq![b], seq![c]]) =~= seq![a, b, c]);
    lemma_flat_push(seq![seq![a], seq![b], seq![c]], seq![d]);
    assert(seq![seq![a], seq![b], seq![c]].push(seq![d]) =~= seq![seq![a], seq![b], seq![c], seq![d]]);
    assert(flat(seq![seq![a], seq![b], seq![c], seq![d]]) =~= seq![a, b, c, d]);
    lemma_flat_push(seq![seq![a], seq![b], seq![c], seq![d]], seq![e]);
    assert(seq![seq![a], seq![b], seq![c], seq![d]].push(seq![e]) =~= seq![
        seq![a],
        seq![b],
        seq![c],
        seq![d],
        seq![e],
    ]);
    assert(flat(seq![seq![a], seq![b], seq![c], seq![d], seq![e]]) =~= seq![a, b, c, d, e]);
}

/// A graphic-rendition sequence sets the pen to what its flattened
/// parameters give, and changes nothing else.
proof fn lemma_after_sgr(g: GridModel, ps: Seq<Seq<u16>>)
    ensures
        ({
            let st = sgr_from(flat(ps), 0, (g.fg, g.bg, g.reverse));
            g.after_csi(ps, false, 'm') == GridModel { fg: st.0, bg: st.1, reverse: st.2, ..g }
        }),
{
}

/// Parameters that form a single rendition (one plain number, or one
/// extended colour) apply that rendition alone.
proof fn lemma_sgr_single(all: Seq<u16>, st: (Color, Color, bool))
    requires
        all.len() >= 1,
        sgr_extra(all, 0) + 1 == all.len(),
    ensures
        sgr_from(all, 0, st) == sgr_apply(all, 0, st),
{
    assert(sgr_from(all, all.len() as int, sgr_apply(all, 0, st)) == sgr_apply(all, 0, st));
}

/// The colours the pen can be set to by number: the eight standard and
/// eight bright ANSI colours, and the default foreground and background.
pub proof fn law_ansi_palette()
    ensures
        spec_default_fg() == Color(204, 204, 204),
        spec_default_bg() == Color(0, 0, 0),
        spec_ansi_color(0) == Color(0, 0, 0),
        spec_ansi_color(1) == Color(170, 0, 0),
        spec_ansi_color(2) == Color(0, 170, 0),
        spec_ansi_color(3) == Color(170, 170, 0),
        spec_ansi_color(4) == Color(0, 0, 170),
        spec_ansi_color(5) == Color(170, 0, 170),
        spec_ansi_color(6) == Color(0, 170, 170),
        spec_ansi_color(7) == Color(170, 170, 170),
        spec_ansi_bright(0) == Color(85, 85, 85),
        spec_ansi_bright(1) == Color(255, 85, 85),
        spec_ansi_bright(2) == Color(85, 255, 85),
        spec_ansi_bright(3) == Color(255, 255, 85),
        spec_ansi_bright(4) == Color(85, 85, 255),
        spec_ansi_bright(5) == Color(255, 85, 255),
        spec_ansi_bright(6) == Color(85, 255, 255),
        spec_ansi_bright(7) == Color(255, 255, 255),
{
}

/// `a` is `g` with only the pen changed: foreground `fg`, background `bg`,
/// reverse video `rev`.
pub open spec fn pen_is(g: GridModel, a: GridModel, fg: Color, bg: Color, rev: bool) -> bool {
    a == GridModel { fg, bg, reverse: rev, ..g }
}

/// One graphic-rendition parameter `p` (`CSI p m`) changes only the pen,
/// and only the part it names: 0 resets all, 7 / 27 turn reverse video on /
/// off, 30–37 and 90–97 set the foreground (standard / bright colour
/// `p - 30`, `p - 90`), 40–47 and 100–107 the background, 39 / 49 restore
/// the default foreground / background; any other number changes nothing.
#[verifier::spinoff_prover]
#[verifier::rlimit(40)]
pub proof fn law_sgr_parameter(g: GridModel, p: u16)
    ensures
        ({
            let a = g.after_csi(seq![seq![p]], false, 'm');
            &&& p == 0 ==> pen_is(g, a, spec_default_fg(), spec_default_bg(), false)
            &&& p == 7 ==> pen_is(g, a, g.fg, g.bg, true)
            &&& p == 27 ==> pen_is(g, a, g.fg, g.bg, false)
            &&& 30 <= p <= 37 ==> pen_is(g, a, spec_ansi_color(p - 30), g.bg, g.reverse)
            &&& p == 39 ==> pen_is(g, a, spec_default_fg(), g.bg, g.reverse)
            &&& 40 <= p <= 47 ==> pen_is(g, a, g.fg, spec_ansi_color(p - 40), g.reverse)
            &&& p == 49 ==> pen_is(g, a, g.fg, spec_default_bg(), g.reverse)
            &&& 90 <= p <= 97 ==> pen_is(g, a, spec_ansi_bright(p - 90), g.bg, g.reverse)
            &&& 100 <= p <= 107 ==> pen_is(g, a, g.fg, spec_ansi_bright(p - 100), g.reverse)
            &&& !(p == 0 || p == 7 || p == 27 || 30 <= p <= 37 || p == 39 || 40 <= p <= 47 || p
                == 49 || 90 <= p <= 97 || 100 <= p <= 107) ==> a == g
        }),
{
    lemma_flat_values(p, p, p, p, p);
    lemma_after_sgr(g, seq![seq![p]]);
    lemma_sgr_single(seq![p], (g.fg, g.bg, g.reverse));
}

/// Graphic-rendition parameters take effect one after another: `CSI p ; q m`
/// does what `CSI p m` then `CSI q m` do (for parameters that start no
/// extended colour).
#[verifier::spinoff_prover]
#[verifier::rlimit(40)]
pub proof fn law_sgr_in_order(g: GridModel, p: u16, q: u16)
    requires
        p != 38 && p != 48,
        q != 38 && q != 48,
    ensures
        g.after_csi(seq![seq![p], seq![q]], false, 'm') == g.after_csi(seq![seq![p]], false, 'm')
            .after_csi(seq![seq![q]], false, 'm'),
{
    lemma_flat_values(p, q, q, q, q);
    lemma_flat_values(q, q, q, q, q);
    let a = g.after_csi(seq![seq![p]], false, 'm');
    lemma_after_sgr(g, seq![seq![p], seq![q]]);
    lemma_after_sgr(g, seq![seq![p]]);
    lemma_after_sgr(a, seq![seq![q]]);
    let st = (g.fg, g.bg, g.reverse);
    let both = seq![p, q];
    lemma_sgr_single(seq![p], st);
    assert(sgr_extra(both, 0) == 0);
    assert(sgr_extra(both, 1) == 0);
    let s1 = sgr_apply(both, 0, st);
    assert(s1 == sgr_apply(seq![p], 0, st));
    assert(a.fg == s1.0 && a.bg == s1.1 && a.reverse == s1.2);
    assert((a.fg, a.bg, a.reverse) == s1);
    lemma_sgr_single(seq![q], s1);
    assert(sgr_apply(both, 1, s1) == sgr_apply(seq![q], 0, s1));
    assert(sgr_from(both, 2, sgr_apply(both, 1, s1)) == sgr_apply(both, 1, s1));
    assert(sgr_from(both, 1, s1) == sgr_apply(both, 1, s1));
    assert(sgr_from(both, 0, st) == sgr_from(both, 1, s1));
    assert(sgr_from(flat(seq![seq![p], seq![q]]), 0, st) == sgr_apply(seq![q], 0, s1));
}

/// The extended colours: `38;5;n` / `48;5;n` set the foreground / background
/// to colour `n` of the xterm palette, which for `n` below 16 is the colour
/// `30 + n` / `90 + n - 8` (`40 + n` / `100 + n - 8`) sets; `38;2;r;g;b` /
/// `48;2;r;g;b` set it to that RGB colour. Nothing else changes.
#[verifier::spinoff_prover]
#[verifier::rlimit(40)]
pub proof fn law_sgr_extended(g: GridModel, n: u16, r: u16, gr: u16, b: u16)
    requires
        n < 256,
        r < 256,
        gr < 256,
        b < 256,
    ensures
        ({
            let f5 = g.after_csi(seq![seq![38u16], seq![5u16], seq![n]], false, 'm');
            let b5 = g.after_csi(seq![seq![48u16], seq![5u16], seq![n]], false, 'm');
            &&& pen_is(g, f5, spec_ansi_256(n as u8), g.bg, g.reverse)
            &&& pen_is(g, b5, g.fg, spec_ansi_256(n as u8), g.reverse)
            &&& n < 8 ==> f5 == g.after_csi(seq![seq![(30 + n) as u16]], false, 'm') && b5
                == g.after_csi(seq![seq![(40 + n) as u16]], false, 'm')
            &&& 8 <= n < 16 ==> f5 == g.after_csi(seq![seq![(90 + n - 8) as u16]], false, 'm')
                && b5 == g.after_csi(seq![seq![(100 + n - 8) as u16]], false, 'm')
        }),
        pen_is(
            g,
            g.after_csi(seq![seq![38u16], seq![2u16], seq![r], seq![gr], seq![b]], false, 'm'),
            Color(r as u8, gr as u8, b as u8),
            g.bg,
            g.reverse,
        ),
        pen_is(
            g,
            g.after_csi(seq![seq![48u16], seq![2u16], seq![r], seq![gr], seq![b]], false, 'm'),
            g.fg,
            Color(r as u8, gr as u8, b as u8),
            g.reverse,
        ),
{
    lemma_sgr_256(g, 38, n);
    lemma_sgr_256(g, 48, n);
    lemma_sgr_rgb(g, 38, r, gr, b);
    lemma_sgr_rgb(g, 48, r, gr, b);
    if n < 8 {
        law_sgr_parameter(g, (30 + n) as u16);
        law_sgr_parameter(g, (40 + n) as u16);
    }
    if 8 <= n < 16 {
        law_sgr_parameter(g, (90 + n - 8) as u16);
        law_sgr_parameter(g, (100 + n - 8) as u16);
    }
}

/// `code;5;n` (`code` being 38 or 48) sets the foreground or background to
/// palette colour `n`.
#[verifier::spinoff_prover]
#[verifier::rlimit(40)]
proof fn lemma_sgr_256(g: GridModel, code: u16, n: u16)
    requires
        code == 38 || code == 48,
        n < 256,
    ensures
        ({
            let a = g.after_csi(seq![seq![code], seq![5u16], seq![n]], false, 'm');
            &&& code == 38 ==> pen_is(g, a, spec_ansi_256(n as u8), g.bg, g.reverse)
            &&& code == 48 ==> pen_is(g, a, g.fg, spec_ansi_256(n as u8), g.reverse)
        }),
{
    let st = (g.fg, g.bg, g.reverse);
    let all = seq![code, 5u16, n];
    lemma_flat_values(code, 5, n, n, n);
    lemma_after_sgr(g, seq![seq![code], seq![5u16], seq![n]]);
    assert(sgr_extra(all, 0) == 2);
    lemma_sgr_single(all, st);
    assert(low_byte(n) == n as u8);
}

/// `code;2;r;g;b` (`code` being 38 or 48) sets the foreground or
/// background to that RGB colour.
#[verifier::spinoff_prover]
#[verifier::rlimit(40)]
proof fn lemma_sgr_rgb(g: GridModel, code: u16, r: u16, gr: u16, b: u16)
    requires
        code == 38 || code == 48,
        r < 256,
        gr < 256,
        b < 256,
    ensures
        ({
            let a = g.after_csi(seq![seq![code], seq![2u16], seq![r], seq![gr], seq![b]], false, 'm');
            &&& code == 38 ==> pen_is(g, a, Color(r as u8, gr as u8, b as u8), g.bg, g.reverse)
            &&& code == 48 ==> pen_is(g, a, g.fg, Color(r as u8, gr as u8, b as u8), g.reverse)
        }),
{
    let st = (g.fg, g.bg, g.reverse);
    let all = seq![code, 2u16, r, gr, b];
    lemma_flat_values(code, 2, r, gr, b);
    lemma_after_sgr(g, seq![seq![code], seq![2u16], seq![r], seq![gr], seq![b]]);
    assert(sgr_extra(all, 0) == 4);
    lemma_sgr_single(all, st);
    assert(low_byte(r) == r as u8);
    assert(low_byte(gr) == gr as u8);
    assert(low_byte(b) == b as u8);
}

/// Operating-system commands 0 and 2 are the same command (set the title):
/// a non-empty UTF-8 title is reported as the new title, an empty, missing
/// or malformed one reports nothing.
pub proof fn law_osc_title(t: Seq<u8>, rest: Seq<Seq<u8>>, platform: Platform)
    ensures
        osc_event(seq![seq![48u8]] + rest, platform) == osc_event(seq![seq![50u8]] + rest, platform),
        valid_utf8(t) && decode_utf8(t).len() > 0 ==> osc_event(seq![seq![48u8], t], platform)
            == Some(EventModel::TitleChange(decode_utf8(t))) && osc_event(seq![seq![50u8], t], platform)
            == Some(EventModel::TitleChange(decode_utf8(t))),
        !(valid_utf8(t) && decode_utf8(t).len() > 0) ==> osc_event(seq![seq![48u8], t], platform) is None
            && osc_event(seq![seq![50u8], t], platform) is None,
        osc_event(seq![seq![48u8]], platform) is None,
        osc_event(seq![seq![50u8]], platform) is None,
{
    let a = seq![seq![48u8]] + rest;
    let b = seq![seq![50u8]] + rest;
    assert(a[0] == seq![48u8]);
    assert(b[0] == seq![50u8]);
    assert(a.len() == b.len());
    assert(forall|i: int| 1 <= i < a.len() ==> a[i] == b[i]);
    assert(text_param(a, 1) == text_param(b, 1));
    assert(seq![48u8][0] != seq![55u8][0]);
    assert(seq![seq![48u8], t][1] == t);
    assert(seq![seq![50u8], t][1] == t);
}

/// Operating-system command 9 is a notification with its text (empty when
/// missing or malformed); command 777 (`777;notify;title;body`) is a
/// notification with its body, or its title when there is no body, and
/// reports nothing when that text is empty or malformed. A command of any
/// other number, or none, reports nothing.
pub proof fn law_osc_notifications(
    t: Seq<u8>,
    a: Seq<u8>,
    title: Seq<u8>,
    body: Seq<u8>,
    cmd: Seq<u8>,
    rest: Seq<Seq<u8>>,
    platform: Platform,
)
    ensures
        osc_event(seq![seq![57u8], t], platform) == Some(
            EventModel::OscNotify(
                if valid_utf8(t) {
                    decode_utf8(t)
                } else {
                    Seq::empty()
                },
            ),
        ),
        osc_event(seq![seq![57u8]], platform) == Some(EventModel::OscNotify(Seq::empty())),
        osc_event(seq![seq![55u8, 55u8, 55u8], a, title, body], platform) == if valid_utf8(body)
            && decode_utf8(body).len() > 0 {
            Some(EventModel::OscNotify(decode_utf8(body)))
        } else {
            None
        },
        osc_event(seq![seq![55u8, 55u8, 55u8], a, title], platform) == if valid_utf8(title)
            && decode_utf8(title).len() > 0 {
            Some(EventModel::OscNotify(decode_utf8(title)))
        } else {
            None
        },
        osc_event(Seq::empty(), platform) is None,
        !(cmd == seq![48u8] || cmd == seq![50u8] || cmd == seq![55u8] || cmd == seq![57u8] || cmd
            == seq![55u8, 55u8, 55u8]) ==> osc_event(seq![cmd] + rest, platform) is None,
{
    assert((seq![cmd] + rest)[0] == cmd);
    assert(seq![seq![57u8], t][1] == t);
    assert(seq![seq![55u8, 55u8, 55u8], a, title, body][3] == body);
    assert(seq![seq![55u8, 55u8, 55u8], a, title][2] == title);
    assert(seq![55u8, 55u8, 55u8].len() != seq![48u8].len());
    assert(seq![55u8, 55u8, 55u8].len() != seq![50u8].len());
    assert(seq![55u8, 55u8, 55u8].len() != seq![55u8].len());
    assert(seq![55u8, 55u8, 55u8].len() != seq![57u8].len());
    assert(seq![57u8][0] != seq![48u8][0]);
    assert(seq![57u8][0] != seq![50u8][0]);
    assert(seq![57u8][0] != seq![55u8][0]);
}

/// Replacing occurrences of `pat` leaves a prefix without its first
/// character alone.
proof fn lemma_replace_after_plain_prefix(a: Seq<char>, x: Seq<char>, pat: Seq<char>, rep: Seq<char>)
    requires
        pat.len() > 0,
        !a.contains(pat[0]),
    ensures
        replace_all(a + x, pat, rep) == a + replace_all(x, pat, rep),
    decreases a.len(),
{
    if a.len() > 0 {
        let s = a + x;
        assert(s[0] == a[0]);
        assert(a.contains(a[0]));
        if s.len() >= pat.len() {
            assert(s.take(pat.len() as int)[0] == s[0]);
        }
        assert(s.drop_first() =~= a.drop_first() + x);
        assert forall|k: int| 0 <= k < a.drop_first().len() implies a.drop_first()[k] != pat[0] by {
            assert(a[k + 1] == a.drop_first()[k]);
            assert(a.contains(a[k + 1]));
        }
        lemma_replace_after_plain_prefix(a.drop_first(), x, pat, rep);
        assert(seq![s[0]] + (a.drop_first() + replace_all(x, pat, rep)) =~= a + replace_all(
            x,
            pat,
            rep,
        ));
    } else {
        assert(a + x =~= x);
        assert(a + replace_all(x, pat, rep) =~= replace_all(x, pat, rep));
    }
}

/// Text without the first character of `pat` is left alone by replacing.
proof fn lemma_replace_absent(a: Seq<char>, pat: Seq<char>, rep: Seq<char>)
    requires
        pat.len() > 0,
        !a.contains(pat[0]),
    ensures
        replace_all(a, pat, rep) == a,
{
    lemma_replace_after_plain_prefix(a, Seq::empty(), pat, rep);
    assert(a + Seq::<char>::empty() =~= a);
    assert(replace_all(Seq::<char>::empty(), pat, rep) == Seq::<char>::empty());
}

/// The first `/` of `host + "/" + rest`, when the host holds none, ends the host.
proof fn lemma_first_slash_after(host: Seq<char>, rest: Seq<char>)
    requires
        !host.contains('/'),
    ensures
        first_index_of(host + seq!['/'] + rest, '/') == Some(host.len() as int),
    decreases host.len(),
{
    let s = host + seq!['/'] + rest;
    if host.len() == 0 {
        assert(s[0] == '/');
    } else {
        assert(s[0] == host[0]);
        assert(host.contains(host[0]));
        assert(s.drop_first() =~= host.drop_first() + seq!['/'] + rest);
        assert forall|k: int| 0 <= k < host.drop_first().len() implies host.drop_first()[k] != '/' by {
            assert(host.contains(host[k + 1]));
        }
        lemma_first_slash_after(host.drop_first(), rest);
    }
}

/// A working-directory report (operating-system command 7) that is a plain
/// path, without a `file://` scheme or `%` escapes, reports that path (on
/// Windows when it does not start with `/`); an empty one reports nothing.
pub proof fn law_osc_cwd_plain(t: Seq<u8>, platform: Platform)
    requires
        valid_utf8(t),
        !decode_utf8(t).contains('%'),
        !(decode_utf8(t).len() >= 7 && decode_utf8(t).take(7) == file_scheme()),
        platform == Platform::Windows ==> decode_utf8(t).len() == 0 || decode_utf8(t)[0] != '/',
    ensures
        osc_event(seq![seq![55u8], t], platform) == if decode_utf8(t).len() > 0 {
            Some(EventModel::CwdChange(decode_utf8(t)))
        } else {
            None
        },
{
    let d = decode_utf8(t);
    assert(seq![seq![55u8], t][1] == t);
    assert(seq![seq![55u8], t][0] == seq![55u8]);
    assert(seq![55u8][0] != seq![48u8][0]);
    assert(seq![55u8][0] != seq![50u8][0]);
    assert(text_param(seq![seq![55u8], t], 1) == d);
    assert(uri_path(d) == d);
    if platform == Platform::Windows {
        assert(without_leading_slashes(d) == d);
    }
    assert(seq!['%', '2', '0'][0] == '%');
    assert(seq!['%', '3', 'A'][0] == '%');
    lemma_replace_absent(d, seq!['%', '2', '0'], seq![' ']);
    lemma_replace_absent(d, seq!['%', '3', 'A'], seq![':']);
    assert(cwd_from_uri(d, platform) == d);
}

/// A `file://host/path` working-directory report (without `%` escapes)
/// reports the path: with its leading `/` elsewhere, and without it on
/// Windows (so `file:///C:/Users` is `C:/Users` there).
pub proof fn law_osc_cwd_uri(t: Seq<u8>, host: Seq<char>, path: Seq<char>, platform: Platform)
    requires
        valid_utf8(t),
        decode_utf8(t) == file_scheme() + host + seq!['/'] + path,
        !host.contains('/'),
        !host.contains('%'),
        !path.contains('%'),
        path.len() == 0 || path[0] != '/',
    ensures
        platform == Platform::Other ==> osc_event(seq![seq![55u8], t], platform) == Some(
            EventModel::CwdChange(seq!['/'] + path),
        ),
        platform == Platform::Windows ==> osc_event(seq![seq![55u8], t], platform) == if path.len()
            > 0 {
            Some(EventModel::CwdChange(path))
        } else {
            None
        },
{
    let d = decode_utf8(t);
    assert(seq![seq![55u8], t][1] == t);
    assert(seq![seq![55u8], t][0] == seq![55u8]);
    assert(seq![55u8][0] != seq![48u8][0]);
    assert(seq![55u8][0] != seq![50u8][0]);
    assert(text_param(seq![seq![55u8], t], 1) == d);
    assert(d.take(7) =~= file_scheme());
    let rest = d.skip(7);
    assert(rest =~= host + seq!['/'] + path);
    lemma_first_slash_after(host, path);
    let p = rest.skip(host.len() as int);
    assert(p =~= seq!['/'] + path);
    assert(uri_path(d) == p);
    assert(p.skip(1) =~= path);
    assert(without_leading_slashes(p) == without_leading_slashes(path));
    assert(without_leading_slashes(path) == path);
    assert(seq!['%', '2', '0'][0] == '%');
    assert(seq!['%', '3', 'A'][0] == '%');
    assert(!p.contains('%')) by {
        if p.contains('%') {
            let k = choose|k: int| 0 <= k < p.len() && p[k] == '%';
            assert(k > 0);
            assert(path[k - 1] == '%');
            assert(path.contains('%'));
        }
    }
    lemma_replace_absent(p, seq!['%', '2', '0'], seq![' ']);
    lemma_replace_absent(p, seq!['%', '3', 'A'], seq![':']);
    lemma_replace_absent(path, seq!['%', '2', '0'], seq![' ']);
    lemma_replace_absent(path, seq!['%', '3', 'A'], seq![':']);
    if platform == Platform::Other {
        assert(cwd_from_uri(d, platform) == p);
    } else {
        assert(cwd_from_uri(d, platform) == path);
    }
}

/// In a working-directory report `%20` and `%3A` stand for a space and a
/// colon.
#[verifier::spinoff_prover]
#[verifier::rlimit(40)]
pub proof fn law_osc_cwd_escapes(t: Seq<u8>, a: Seq<char>, b: Seq<char>)
    requires
        valid_utf8(t),
        a.len() > 0,
        a[0] == '/',
        !a.contains('%'),
        !b.contains('%'),
        decode_utf8(t) == a + seq!['%', '2', '0'] + b || decode_utf8(t) == a + seq!['%', '3', 'A']
            + b,
    ensures
        decode_utf8(t) == a + seq!['%', '2', '0'] + b ==> osc_event(seq![seq![55u8], t], Platform::Other)
            == Some(EventModel::CwdChange(a + seq![' '] + b)),
        decode_utf8(t) == a + seq!['%', '3', 'A'] + b ==> osc_event(seq![seq![55u8], t], Platform::Other)
            == Some(EventModel::CwdChange(a + seq![':'] + b)),
{
    let d = decode_utf8(t);
    let p20 = seq!['%', '2', '0'];
    let p3a = seq!['%', '3', 'A'];
    assert(p20[0] == '%');
    assert(p3a[0] == '%');
    assert(seq![seq![55u8], t][1] == t);
    assert(seq![seq![55u8], t][0] == seq![55u8]);
    assert(seq![55u8][0] != seq![48u8][0]);
    assert(seq![55u8][0] != seq![50u8][0]);
    assert(text_param(seq![seq![55u8], t], 1) == d);
    assert(d[0] == '/');
    if d.len() >= 7 {
        assert(d.take(7)[0] != file_scheme()[0]);
    }
    assert(uri_path(d) == d);
    assert(!(seq![' '] + b).contains('%')) by {
        if (seq![' '] + b).contains('%') {
            let k = choose|k: int| 0 <= k < (seq![' '] + b).len() && (seq![' '] + b)[k] == '%';
            assert(b[k - 1] == '%');
            assert(b.contains('%'));
        }
    }
    assert(!(seq![':'] + b).contains('%')) by {
        if (seq![':'] + b).contains('%') {
            let k = choose|k: int| 0 <= k < (seq![':'] + b).len() && (seq![':'] + b)[k] == '%';
            assert(b[k - 1] == '%');
            assert(b.contains('%'));
        }
    }
    assert((a + p20 + b)[a.len() as int + 1] != (a + p3a + b)[a.len() as int + 1]);
    if d == a + p20 + b {
        lemma_replace_after_plain_prefix(a, p20 + b, p20, seq![' ']);
        assert(a + p20 + b =~= a + (p20 + b));
        assert((p20 + b).take(3) =~= p20);
        assert((p20 + b).skip(3) =~= b);
        lemma_replace_absent(b, p20, seq![' ']);
        assert(replace_all(p20 + b, p20, seq![' ']) == seq![' '] + b);
        lemma_replace_after_plain_prefix(a, seq![' '] + b, p3a, seq![':']);
        lemma_replace_absent(seq![' '] + b, p3a, seq![':']);
        assert(a + (seq![' '] + b) =~= a + seq![' '] + b);
    } else {
        lemma_replace_after_plain_prefix(a, p3a + b, p20, seq![' ']);
        assert(a + p3a + b =~= a + (p3a + b));
        assert(!(p3a + b).contains('%') ==> false) by {
            assert((p3a + b)[0] == '%');
        }
        assert((p3a + b).len() >= 3);
        assert((p3a + b).take(3) =~= p3a);
        assert((p3a + b).take(3) != p20) by {
            assert((p3a + b).take(3)[1] != p20[1]);
        }
        assert((p3a + b).drop_first() =~= seq!['3', 'A'] + b);
        assert(!(seq!['3', 'A'] + b).contains('%')) by {
            if (seq!['3', 'A'] + b).contains('%') {
                let k = choose|k: int| 0 <= k < (seq!['3', 'A'] + b).len() && (seq!['3', 'A']
                    + b)[k] == '%';
                assert(b[k - 2] == '%');
                assert(b.contains('%'));
            }
        }
        lemma_replace_absent(seq!['3', 'A'] + b, p20, seq![' ']);
        assert(seq![(p3a + b)[0]] + (seq!['3', 'A'] + b) =~= p3a + b);
        assert(replace_all(p3a + b, p20, seq![' ']) == p3a + b);
        lemma_replace_after_plain_prefix(a, p3a + b, p3a, seq![':']);
        assert((p3a + b).skip(3) =~= b);
        lemma_replace_absent(b, p3a, seq![':']);
        assert(a + (seq![':'] + b) =~= a + seq![':'] + b);
        assert(d == a + (p3a + b));
        assert(replace_all(d, p20, seq![' ']) == a + (p3a + b));
        assert(replace_all(p3a + b, p3a, seq![':']) == seq![':'] + b);
        assert(replace_all(d, p3a, seq![':']) == a + seq![':'] + b);
        assert(cwd_from_uri(d, Platform::Other) == a + seq![':'] + b);
    }
}

/// The colours a newly written cell gets: the pen's, swapped under reverse video.
pub open spec fn written_cell(g: GridModel, c: char) -> Cell {
    if g.reverse {
        Cell { ch: c, fg: g.bg, bg: g.fg }
    } else {
        Cell { ch: c, fg: g.fg, bg: g.bg }
    }
}

/// `a` is `g` with character `c` written at row `row`, column `col` and,
/// when `wide`, a `'\0'` written in the next cell; the cursor aside,
/// nothing else changes.
pub open spec fn wrote_at(g: GridModel, a: GridModel, c: char, row: int, col: int, wide: bool) -> bool {
    let a0 = GridModel { cursor_col: g.cursor_col, cursor_row: g.cursor_row, ..a };
    screen_is(
        g,
        a0,
        |r: int, k: int|
            if r == row && k == col {
                written_cell(g, c)
            } else if wide && r == row && k == col + 1 {
                written_cell(g, '\0')
            } else {
                g.cells[r][k]
            },
    )
}

/// Printing writes the character at the cursor in the pen's colours
/// (swapped under reverse video) and moves the cursor one column right; a
/// double-width character also fills the next cell with `'\0'` and moves
/// two columns. A cursor that stands past the last column first wraps to
/// the start of the next row. Nothing else changes.
#[verifier::spinoff_prover]
#[verifier::rlimit(40)]
pub proof fn law_print(g: GridModel, c: char, w: Option<usize>)
    requires
        g.inv(),
        g.cursor_row < g.rows,
    ensures
        ({
            let col = g.cursor_col as int;
            let row = g.cursor_row as int;
            let wide = w == Some(2usize) && col + 1 < g.cols;
            let a = g.wrote_char(c, w);
            &&& col < g.cols ==> wrote_at(g, a, c, row, col, wide)
            &&& col < g.cols ==> a.cursor_row == row
            &&& col < g.cols ==> a.cursor_col == if wide {
                col + 2
            } else {
                col + 1
            }
            &&& col >= g.cols && row + 1 < g.rows && w != Some(2usize) ==> wrote_at(
                g,
                a,
                c,
                row + 1,
                0,
                false,
            ) && a.cursor_col == 1 && a.cursor_row == row + 1
        }),
{
}

/// `a` is `g` with the screen scrolled up one row: the top row goes to the
/// history, the others move up and a blank row comes in at the bottom;
/// nothing else changes.
pub open spec fn scrolled_one_up(g: GridModel, a: GridModel) -> bool {
    &&& a == (GridModel { cells: a.cells, scrollback: a.scrollback, ..g })
    &&& a.scrollback == g.scrollback.push(g.cells[0])
    &&& a.cells.len() == g.rows
    &&& forall|r: int| 0 <= r < g.rows - 1 ==> #[trigger] a.cells[r] == g.cells[r + 1]
    &&& forall|k: int| 0 <= k < g.cols ==> #[trigger] a.cells[g.rows - 1][k] == blank_cell()
}

/// Control bytes: bell (0x07) reports a bell and changes nothing else,
/// backspace (0x08) moves one column left unless at the first, carriage
/// return (0x0D) goes to the first column, line feed (0x0A) moves one row
/// down, or at the bottom row scrolls the screen up one row (the top row
/// going to the history); any other byte changes nothing.
pub proof fn law_control_bytes(g: GridModel, byte: u8)
    requires
        g.inv(),
        g.cursor_row < g.rows,
    ensures
        g.after_execute(0x07) == (GridModel { events: g.events.push(EventModel::Bell), ..g }),
        moved_to(
            g,
            g.after_execute(0x08),
            if g.cursor_col > 0 {
                g.cursor_col - 1
            } else {
                0
            },
            g.cursor_row as int,
        ),
        moved_to(g, g.after_execute(0x0D), 0, g.cursor_row as int),
        g.cursor_row + 1 < g.rows ==> moved_to(
            g,
            g.after_execute(0x0A),
            g.cursor_col as int,
            g.cursor_row + 1,
        ),
        g.cursor_row + 1 == g.rows && g.scrollback.len() < SCROLLBACK_MAX ==> scrolled_one_up(
            g,
            g.after_execute(0x0A),
        ),
        !(byte == 0x07 || byte == 0x08 || byte == 0x0A || byte == 0x0D) ==> g.after_execute(byte)
            == g,
{
}

/// Reverse index (`ESC M`) moves the cursor up one row, or on the top row
/// scrolls the screen down one row: a blank row comes in at the top and the
/// bottom row is lost. Any other escape byte than `7`, `8` and `M` changes
/// nothing.
pub proof fn law_reverse_index(g: GridModel, byte: u8)
    requires
        g.inv(),
    ensures
        g.cursor_row > 0 ==> moved_to(
            g,
            g.after_esc(0x4D),
            g.cursor_col as int,
            g.cursor_row - 1,
        ),
        g.cursor_row == 0 ==> screen_is(
            g,
            g.after_esc(0x4D),
            |r: int, k: int|
                if r == 0 {
                    blank_cell()
                } else {
                    g.cells[r - 1][k]
                },
        ),
        !(byte == 0x37 || byte == 0x38 || byte == 0x4D) ==> g.after_esc(byte) == g,
{
}

} // verus!
