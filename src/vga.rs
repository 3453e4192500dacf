//! The 80 x 25 text-mode display: a grid of (character, color) cells with a
//! cursor, scrolling text output and the board drawing.

use vstd::prelude::*;
use vstd::utf8::encode_utf8;
use crate::game::{Player, Table, Win};

verus! {

pub const VGA_WIDTH: usize = 80;
pub const VGA_HEIGHT: usize = 25;
pub const VGA_CELLS: usize = 2000;
pub const DEFAULT_COLOR: u8 = 0x0f;
pub const SPACE: u8 = 32;
pub const NEWLINE: u8 = 10;
pub const BAR: u8 = 124;
pub const DASH: u8 = 45;
pub const SLASH: u8 = 47;
pub const BACKSLASH: u8 = 92;
pub const MARK_X: u8 = 88;
pub const MARK_O: u8 = 79;
pub const DIGIT_ONE: u8 = 49;
pub const COLOR_X: u8 = 0x0b;
pub const COLOR_O: u8 = 0x0e;
pub const COLOR_FREE: u8 = 0x08;
pub const COLOR_ERROR: u8 = 0x0c;
pub const COLOR_WIN: u8 = 0x0a;
pub const STRIKE_X: u8 = 0x0c;
pub const STRIKE_O: u8 = 0x0d;

/// One display cell: a character code and its color attribute.
#[derive(Clone, Copy, PartialEq, Eq, Structural, Debug)]
pub struct VgaChar {
    pub character: u8,
    pub color: u8,
}

impl VgaChar {
    pub fn new(character: u8, color: u8) -> (r: Self)
        ensures
            r == (VgaChar { character, color }),
    {
        Self { character, color }
    }
}

/// Cell index of row `r`, column `c`.
pub open spec fn idx(r: int, c: int) -> int {
    r * 80 + c
}

pub open spec fn blank(color: u8) -> VgaChar {
    VgaChar { character: SPACE, color }
}

/// What the display shows for a byte of text: printable ASCII and the line
/// break stand for themselves, anything else becomes a block glyph.
pub open spec fn shown(b: u8) -> u8 {
    if (0x20 <= b && b <= 0x7e) || b == 10 {
        b
    } else {
        0xfe
    }
}

/// The whole display with its cursor and active color.
pub ghost struct Screen {
    pub cells: Seq<VgaChar>,
    pub row: int,
    pub col: int,
    pub color: u8,
}

/// The grid moved up by one row, with a blank last row.
pub open spec fn scrolled(cells: Seq<VgaChar>, color: u8) -> Seq<VgaChar> {
    Seq::new(2000, |i: int| if i < 1920 { cells[i + 80] } else { blank(color) })
}

impl Screen {
    /// The grid has every cell and the cursor is on a row of it.
    pub open spec fn grid_wf(self) -> bool {
        &&& self.cells.len() == 2000
        &&& 0 <= self.row < 25
    }

    /// As `grid_wf`, with the cursor on a column of the row: a row that
    /// fills up is left at once.
    pub open spec fn wf(self) -> bool {
        &&& self.grid_wf()
        &&& 0 <= self.col < 80
    }

    pub open spec fn at(self, r: int, c: int) -> VgaChar {
        self.cells[idx(r, c)]
    }

    pub open spec fn with_color(self, color: u8) -> Screen {
        Screen { cells: self.cells, row: self.row, col: self.col, color }
    }

    pub open spec fn cleared(self) -> Screen {
        Screen { cells: Seq::new(2000, |i: int| blank(self.color)), row: 0, col: 0, color: self.color }
    }

    /// Moves to the start of the next row, scrolling when on the last row.
    pub open spec fn new_line(self) -> Screen {
        if self.row < 24 {
            Screen { cells: self.cells, row: self.row + 1, col: 0, color: self.color }
        } else {
            Screen { cells: scrolled(self.cells, self.color), row: self.row, col: 0, color: self.color }
        }
    }

    /// Writes one byte at the cursor and advances the column; on reaching
    /// the row's width it moves to a new row.
    pub open spec fn put(self, b: u8) -> Screen {
        if b == 10 {
            self.new_line()
        } else {
            let s = Screen {
                cells: self.cells.update(
                    idx(self.row, self.col),
                    VgaChar { character: b, color: self.color },
                ),
                row: self.row,
                col: self.col + 1,
                color: self.color,
            };
            if s.col >= 80 {
                s.new_line()
            } else {
                s
            }
        }
    }

    pub open spec fn write_bytes(self, bs: Seq<u8>) -> Screen
        decreases bs.len(),
    {
        if bs.len() == 0 {
            self
        } else {
            self.write_bytes(bs.drop_last()).put(shown(bs.last()))
        }
    }

    /// Writes the UTF-8 bytes of a text.
    pub open spec fn write_text(self, s: Seq<char>) -> Screen {
        self.write_bytes(encode_utf8(s))
    }
}

/// The glyph a board cell shows: the mark of the player holding it, or
/// its keypad digit when free.
pub open spec fn mark(cells: Seq<Option<Player>>, i: int) -> VgaChar {
    match cells[i] {
        Some(Player::X) => VgaChar { character: MARK_X, color: COLOR_X },
        Some(Player::O) => VgaChar { character: MARK_O, color: COLOR_O },
        None => VgaChar { character: (DIGIT_ONE + i) as u8, color: COLOR_FREE },
    }
}

pub open spec fn strike_color(p: Player) -> u8 {
    match p {
        Player::X => STRIKE_X,
        Player::O => STRIKE_O,
    }
}

/// Display row of the center of board position `pos`, for a grid drawn
/// from row `start`.
pub open spec fn center_row(start: int, pos: int) -> int {
    start + (pos / 3) * 4 + 1
}

pub open spec fn center_col(pos: int) -> int {
    (pos % 3) * 6 + 2
}

pub open spec fn sorted3(a: int, b: int, c: int) -> (int, int, int) {
    let (a1, b1) = if a <= b { (a, b) } else { (b, a) };
    let (b2, c2) = if b1 <= c { (b1, c) } else { (c, b1) };
    let (a3, b3) = if a1 <= b2 { (a1, b2) } else { (b2, a1) };
    (a3, b3, c2)
}

/// The six fixed glyph places of the falling diagonal, relative to the grid.
pub open spec fn falling_diagonal(dr: int, c: int) -> bool {
    (dr == 2 && c == 4) || (dr == 3 && c == 5) || (dr == 4 && c == 6) || (dr == 6 && c == 10)
        || (dr == 7 && c == 11) || (dr == 8 && c == 12)
}

/// The six fixed glyph places of the rising diagonal, relative to the grid.
pub open spec fn rising_diagonal(dr: int, c: int) -> bool {
    (dr == 2 && c == 12) || (dr == 3 && c == 11) || (dr == 4 && c == 10) || (dr == 6 && c == 6)
        || (dr == 7 && c == 5) || (dr == 8 && c == 4)
}

/// The glyph that the line through the winning positions puts at row `r`,
/// column `c`, if any. A row or column line runs between the three cell
/// centers without covering them; each diagonal has its own fixed places.
pub open spec fn overlay(start: int, w: Win, r: int, c: int) -> Option<u8> {
    let r1 = center_row(start, w.0 as int);
    let r2 = center_row(start, w.1 as int);
    let r3 = center_row(start, w.2 as int);
    let c1 = center_col(w.0 as int);
    let c2 = center_col(w.1 as int);
    let c3 = center_col(w.2 as int);
    if r1 == r2 && r2 == r3 {
        if r == r1 && r < 25 && c1 <= c <= c3 && c != c1 && c != c2 && c != c3 {
            Some(DASH)
        } else {
            None
        }
    } else if c1 == c2 && c2 == c3 {
        if c == c1 && r < 25 && r1 <= r <= r3 && r != r1 && r != r2 && r != r3 {
            Some(BAR)
        } else {
            None
        }
    } else if sorted3(w.0 as int, w.1 as int, w.2 as int) == (0int, 4int, 8int) {
        if r < 25 && falling_diagonal(r - start, c) {
            Some(BACKSLASH)
        } else {
            None
        }
    } else if sorted3(w.0 as int, w.1 as int, w.2 as int) == (2int, 4int, 6int) {
        if r < 25 && rising_diagonal(r - start, c) {
            Some(SLASH)
        } else {
            None
        }
    } else {
        None
    }
}

/// Positions on the board.
pub open spec fn win_wf(w: Win) -> bool {
    w.0 < 9 && w.1 < 9 && w.2 < 9
}

impl Screen {
    /// The screen with the winning line drawn over a grid that starts at
    /// row `start`; the cursor and color stay.
    pub open spec fn struck(self, start: int, w: Win, p: Player) -> Screen {
        Screen {
            cells: Seq::new(
                2000,
                |i: int|
                    match overlay(start, w, i / 80, i % 80) {
                        Some(g) => VgaChar { character: g, color: strike_color(p) },
                        None => self.cells[i],
                    },
            ),
            row: self.row,
            col: self.col,
            color: self.color,
        }
    }

    /// One board cell on its row: two spaces, the glyph, two spaces, and a
    /// bar unless it is the last cell of the row.
    pub open spec fn board_cell(self, cells: Seq<Option<Player>>, i: int, last: bool) -> Screen {
        let m = mark(cells, i);
        let s = self.with_color(m.color).write_text("  "@).put(m.character).write_text(
            "  "@,
        ).with_color(DEFAULT_COLOR);
        if last {
            s
        } else {
            s.put(BAR)
        }
    }

    /// One row of the board: a spacer line, the cell line, a spacer line and,
    /// between rows, a divider.
    pub open spec fn board_row(self, cells: Seq<Option<Player>>, gr: int) -> Screen {
        let s = self.write_text("     |     |     \n"@).board_cell(cells, gr * 3, false).board_cell(
            cells,
            gr * 3 + 1,
            false,
        ).board_cell(cells, gr * 3 + 2, true).put(NEWLINE).write_text("     |     |     \n"@);
        if gr < 2 {
            s.write_text(" ----+-----+---- \n"@)
        } else {
            s
        }
    }

    /// Each error message in turn, in the error color, on a line of its own.
    pub open spec fn error_lines(self, errors: Seq<String>) -> Screen
        decreases errors.len(),
    {
        if errors.len() == 0 {
            self
        } else {
            self.error_lines(errors.drop_last()).with_color(COLOR_ERROR).write_text(
                "\nError: "@,
            ).write_text(errors.last()@).write_text("\n"@).with_color(DEFAULT_COLOR)
        }
    }

    /// The title and the grid, drawn on a cleared screen.
    pub open spec fn board_grid(self, cells: Seq<Option<Player>>) -> Screen {
        self.cleared().write_text("Tic Tac Toe\n\n"@).board_row(cells, 0).board_row(
            cells,
            1,
        ).board_row(cells, 2)
    }

    /// The whole board view: title, grid, winning line, error messages and
    /// the announcement of the winner.
    pub open spec fn board(
        self,
        cells: Seq<Option<Player>>,
        errors: Seq<String>,
        winner: Option<(Player, Win)>,
    ) -> Screen {
        let start = self.cleared().write_text("Tic Tac Toe\n\n"@).row;
        let g = self.board_grid(cells);
        let g2 = match winner {
            Some((p, w)) => g.struck(start, w, p),
            None => g,
        };
        let e = g2.error_lines(errors);
        match winner {
            Some((Player::X, _)) => e.with_color(COLOR_WIN).write_text("\nPlayer X wins!\n"@).with_color(
                DEFAULT_COLOR,
            ),
            Some((Player::O, _)) => e.with_color(COLOR_WIN).write_text("\nPlayer O wins!\n"@).with_color(
                DEFAULT_COLOR,
            ),
            None => e,
        }
    }
}

/// A cell index splits into its row and column.
pub proof fn lemma_idx_split(i: int)
    requires
        0 <= i < 2000,
    ensures
        0 <= i / 80 < 25,
        0 <= i % 80 < 80,
        i == idx(i / 80, i % 80),
{
}


/// A line break on the last row scrolls: every row moves up by one, the
/// last row becomes blank in the active color, and the cursor starts the
/// last row.
pub proof fn lemma_new_line_at_bottom(s: Screen)
    requires
        s.grid_wf(),
        s.row == 24,
    ensures
        s.new_line().row == 24,
        s.new_line().col == 0,
        s.new_line().color == s.color,
        forall|r: int, c: int|
            0 <= r < 24 && 0 <= c < 80 ==> #[trigger] s.new_line().at(r, c) == s.at(r + 1, c),
        forall|c: int| 0 <= c < 80 ==> #[trigger] s.new_line().at(24, c) == blank(s.color),
{
    assert forall|r: int, c: int| 0 <= r < 24 && 0 <= c < 80 implies #[trigger] s.new_line().at(r, c)
        == s.at(r + 1, c) by {
        assert(idx(r, c) + 80 == idx(r + 1, c));
    }
}

/// A line of text that fits on one row before its line break: printable
/// ASCII only, shorter than the row's width.
pub open spec fn printable_line(line: Seq<u8>) -> bool {
    line.len() < 80 && forall|i: int| 0 <= i < line.len() ==> 0x20 <= #[trigger] line[i] <= 0x7e
}

/// What column `c` of a row shows after `line` was written on it from its start.
pub open spec fn line_cell(line: Seq<u8>, c: int, color: u8) -> VgaChar {
    if c < line.len() {
        VgaChar { character: line[c], color }
    } else {
        blank(color)
    }
}

/// The lines one after the other, each ended by a line break.
pub open spec fn lines_text(lines: Seq<Seq<u8>>) -> Seq<u8>
    decreases lines.len(),
{
    if lines.len() == 0 {
        Seq::empty()
    } else {
        lines_text(lines.drop_last()) + lines.last() + seq![10u8]
    }
}

proof fn lemma_write_bytes_append(s: Screen, a: Seq<u8>, b: Seq<u8>)
    ensures
        s.write_bytes(a + b) == s.write_bytes(a).write_bytes(b),
    decreases b.len(),
{
    if b.len() == 0 {
        assert(a + b =~= a);
    } else {
        assert((a + b).drop_last() =~= a + b.drop_last());
        assert((a + b).last() == b.last());
        lemma_write_bytes_append(s, a, b.drop_last());
    }
}

proof fn lemma_write_line(s: Screen, line: Seq<u8>)
    requires
        s.wf(),
        s.col == 0,
        printable_line(line),
    ensures
        s.write_bytes(line).wf(),
        s.write_bytes(line).row == s.row,
        s.write_bytes(line).col == line.len(),
        s.write_bytes(line).color == s.color,
        forall|r: int, c: int|
            0 <= r < 25 && 0 <= c < 80 ==> #[trigger] s.write_bytes(line).at(r, c) == (if r == s.row
                && c < line.len() {
                VgaChar { character: line[c], color: s.color }
            } else {
                s.at(r, c)
            }),
    decreases line.len(),
{
    if line.len() > 0 {
        let prefix = line.drop_last();
        assert(printable_line(prefix)) by {
            assert forall|i: int| 0 <= i < prefix.len() implies 0x20 <= #[trigger] prefix[i] <= 0x7e by {
                assert(prefix[i] == line[i]);
            }
        }
        lemma_write_line(s, prefix);
        let t = s.write_bytes(prefix);
        assert(0x20 <= line[line.len() - 1] <= 0x7e);
        assert(shown(line.last()) == line.last());
        assert forall|r: int, c: int| 0 <= r < 25 && 0 <= c < 80 implies #[trigger] s.write_bytes(
            line,
        ).at(r, c) == (if r == s.row && c < line.len() {
            VgaChar { character: line[c], color: s.color }
        } else {
            s.at(r, c)
        }) by {
            assert(t.at(r, c) == (if r == s.row && c < prefix.len() {
                VgaChar { character: prefix[c], color: s.color }
            } else {
                s.at(r, c)
            }));
        }
    }
}

/// Writing 25 lines of printable text, each ended by a line break, on a
/// cleared display (one line more than the rows above the cursor's last
/// row) scrolls once: the first line is gone, every later line stands one
/// row above where it was written, and the last row is blank.
pub proof fn lemma_one_line_past_the_bottom(s: Screen, lines: Seq<Seq<u8>>)
    requires
        s.wf(),
        lines.len() == 25,
        forall|k: int| 0 <= k < 25 ==> printable_line(#[trigger] lines[k]),
    ensures
        s.cleared().write_bytes(lines_text(lines)).row == 24,
        s.cleared().write_bytes(lines_text(lines)).col == 0,
        forall|r: int, c: int|
            0 <= r < 24 && 0 <= c < 80 ==> #[trigger] s.cleared().write_bytes(lines_text(lines)).at(
                r,
                c,
            ) == line_cell(lines[r + 1], c, s.color),
        forall|c: int|
            0 <= c < 80 ==> #[trigger] s.cleared().write_bytes(lines_text(lines)).at(24, c) == blank(
                s.color,
            ),
{
    let z = s.cleared();
    lemma_lines_on_fresh_rows(s, lines, 24);
    let t = z.write_bytes(lines_text(lines.take(24)));
    assert(lines.take(25) =~= lines);
    assert(lines.take(25).drop_last() =~= lines.take(24));
    let line = lines[24];
    lemma_write_bytes_append(z, lines_text(lines.take(24)) + line, seq![10u8]);
    lemma_write_bytes_append(z, lines_text(lines.take(24)), line);
    lemma_write_line(t, line);
    let u = t.write_bytes(line);
    assert(seq![10u8].drop_last() =~= Seq::<u8>::empty());
    assert(u.write_bytes(Seq::<u8>::empty()) == u);
    assert(seq![10u8].last() == 10);
    assert(u.write_bytes(seq![10u8]) == u.put(10));
    let v = u.put(10);
    assert forall|r: int, c: int| 0 <= r < 24 && 0 <= c < 80 implies #[trigger] v.at(r, c)
        == line_cell(lines[r + 1], c, s.color) by {
        assert(v.at(r, c) == u.cells[idx(r, c) + 80]);
        assert(idx(r, c) + 80 == idx(r + 1, c));
        assert(u.at(r + 1, c) == line_cell(lines[r + 1], c, s.color));
    }
    assert forall|c: int| 0 <= c < 80 implies #[trigger] v.at(24, c) == blank(s.color) by {
        assert(idx(24, c) >= 1920);
    }
}

/// After `k` lines (`k` below 25) on a cleared display, the cursor starts
/// row `k`, each of the first `k` rows holds its line and the rest are blank.
proof fn lemma_lines_on_fresh_rows(s: Screen, lines: Seq<Seq<u8>>, k: int)
    requires
        s.wf(),
        0 <= k <= 24,
        k <= lines.len(),
        forall|j: int| 0 <= j < lines.len() ==> printable_line(#[trigger] lines[j]),
    ensures
        s.cleared().write_bytes(lines_text(lines.take(k))).wf(),
        s.cleared().write_bytes(lines_text(lines.take(k))).row == k,
        s.cleared().write_bytes(lines_text(lines.take(k))).col == 0,
        s.cleared().write_bytes(lines_text(lines.take(k))).color == s.color,
        forall|r: int, c: int|
            0 <= r < 25 && 0 <= c < 80 ==> #[trigger] s.cleared().write_bytes(
                lines_text(lines.take(k)),
            ).at(r, c) == (if r < k {
                line_cell(lines[r], c, s.color)
            } else {
                blank(s.color)
            }),
    decreases k,
{
    let z = s.cleared();
    if k == 0 {
        assert(lines.take(0) =~= Seq::<Seq<u8>>::empty());
        assert forall|r: int, c: int| 0 <= r < 25 && 0 <= c < 80 implies #[trigger] z.at(r, c)
            == blank(s.color) by {
            assert(0 <= idx(r, c) < 2000);
        }
    } else {
        lemma_lines_on_fresh_rows(s, lines, k - 1);
        assert(lines.take(k).drop_last() =~= lines.take(k - 1));
        assert(lines.take(k).last() == lines[k - 1]);
        let t = z.write_bytes(lines_text(lines.take(k - 1)));
        let line = lines[k - 1];
        lemma_write_bytes_append(z, lines_text(lines.take(k - 1)) + line, seq![10u8]);
        lemma_write_bytes_append(z, lines_text(lines.take(k - 1)), line);
        lemma_write_line(t, line);
        let u = t.write_bytes(line);
        assert(seq![10u8].drop_last() =~= Seq::<u8>::empty());
        assert(u.write_bytes(Seq::<u8>::empty()) == u);
        assert(seq![10u8].last() == 10);
        assert(u.write_bytes(seq![10u8]) == u.put(10));
        assert forall|r: int, c: int| 0 <= r < 25 && 0 <= c < 80 implies #[trigger] u.put(10).at(
            r,
            c,
        ) == (if r < k {
            line_cell(lines[r], c, s.color)
        } else {
            blank(s.color)
        }) by {
            assert(u.at(r, c) == (if r == k - 1 && c < line.len() {
                VgaChar { character: line[c], color: s.color }
            } else {
                t.at(r, c)
            }));
        }
    }
}


/// Bytes that show as themselves: printable ASCII.
pub open spec fn printable_run(bs: Seq<u8>) -> bool {
    forall|i: int| 0 <= i < bs.len() ==> 0x20 <= #[trigger] bs[i] <= 0x7e
}

proof fn lemma_write_run(s: Screen, bs: Seq<u8>)
    requires
        s.wf(),
        s.col + bs.len() < 80,
        printable_run(bs),
    ensures
        s.write_bytes(bs).wf(),
        s.write_bytes(bs).row == s.row,
        s.write_bytes(bs).col == s.col + bs.len(),
        s.write_bytes(bs).color == s.color,
        forall|r: int, c: int|
            0 <= r < 25 && 0 <= c < 80 ==> #[trigger] s.write_bytes(bs).at(r, c) == (if r == s.row
                && s.col <= c < s.col + bs.len() {
                VgaChar { character: bs[c - s.col], color: s.color }
            } else {
                s.at(r, c)
            }),
    decreases bs.len(),
{
    if bs.len() > 0 {
        let prefix = bs.drop_last();
        assert(printable_run(prefix)) by {
            assert forall|i: int| 0 <= i < prefix.len() implies 0x20 <= #[trigger] prefix[i] <= 0x7e by {
                assert(prefix[i] == bs[i]);
            }
        }
        lemma_write_run(s, prefix);
        let t = s.write_bytes(prefix);
        assert(0x20 <= bs[bs.len() - 1] <= 0x7e);
        assert forall|r: int, c: int| 0 <= r < 25 && 0 <= c < 80 implies #[trigger] s.write_bytes(
            bs,
        ).at(r, c) == (if r == s.row && s.col <= c < s.col + bs.len() {
            VgaChar { character: bs[c - s.col], color: s.color }
        } else {
            s.at(r, c)
        }) by {
            assert(t.at(r, c) == (if r == s.row && s.col <= c < s.col + prefix.len() {
                VgaChar { character: prefix[c - s.col], color: s.color }
            } else {
                s.at(r, c)
            }));
        }
    }
}

proof fn lemma_write_then_break(s: Screen, body: Seq<u8>)
    ensures
        s.write_bytes(body + seq![10u8]) == s.write_bytes(body).put(10),
{
    lemma_write_bytes_append(s, body, seq![10u8]);
    let u = s.write_bytes(body);
    assert(seq![10u8].drop_last() =~= Seq::<u8>::empty());
    assert(u.write_bytes(Seq::<u8>::empty()) == u);
    assert(seq![10u8].last() == 10);
}

/// A line break above the last row keeps every cell.
proof fn lemma_break_keeps_cells(s: Screen)
    requires
        s.grid_wf(),
        s.row < 24,
    ensures
        s.put(10).wf(),
        s.put(10).row == s.row + 1,
        s.put(10).col == 0,
        s.put(10).color == s.color,
        s.put(10).cells == s.cells,
{
}

pub open spec fn title_body() -> Seq<u8> {
    seq![84u8, 105, 99, 32, 84, 97, 99, 32, 84, 111, 101]
}

pub open spec fn spacer_body() -> Seq<u8> {
    seq![32u8, 32, 32, 32, 32, 124, 32, 32, 32, 32, 32, 124, 32, 32, 32, 32, 32]
}

pub open spec fn divider_body() -> Seq<u8> {
    seq![32u8, 45, 45, 45, 45, 43, 45, 45, 45, 45, 45, 43, 45, 45, 45, 45, 32]
}

proof fn lemma_literal_bytes()
    ensures
        encode_utf8("Tic Tac Toe\n\n"@) == title_body() + seq![10u8] + seq![10u8],
        encode_utf8("     |     |     \n"@) == spacer_body() + seq![10u8],
        encode_utf8(" ----+-----+---- \n"@) == divider_body() + seq![10u8],
        encode_utf8("  "@) == seq![32u8, 32],
        printable_run(title_body()),
        printable_run(spacer_body()),
        printable_run(divider_body()),
        printable_run(seq![32u8, 32]),
{
    reveal_strlit("Tic Tac Toe\n\n");
    reveal_strlit("     |     |     \n");
    reveal_strlit(" ----+-----+---- \n");
    reveal_strlit("  ");
    assert(vstd::utf8::is_ascii_chars("Tic Tac Toe\n\n"@));
    assert(vstd::utf8::is_ascii_chars("     |     |     \n"@));
    assert(vstd::utf8::is_ascii_chars(" ----+-----+---- \n"@));
    assert(vstd::utf8::is_ascii_chars("  "@));
    vstd::utf8::is_ascii_chars_encode_utf8("Tic Tac Toe\n\n"@);
    vstd::utf8::is_ascii_chars_encode_utf8("     |     |     \n"@);
    vstd::utf8::is_ascii_chars_encode_utf8(" ----+-----+---- \n"@);
    vstd::utf8::is_ascii_chars_encode_utf8("  "@);
    assert(encode_utf8("Tic Tac Toe\n\n"@) =~= title_body() + seq![10u8] + seq![10u8]);
    assert(encode_utf8("     |     |     \n"@) =~= spacer_body() + seq![10u8]);
    assert(encode_utf8(" ----+-----+---- \n"@) =~= divider_body() + seq![10u8]);
    assert(encode_utf8("  "@) =~= seq![32u8, 32]);
}

/// Writes a literal line (a printable body and a line break) from column
/// 0 of a row above the last: only that row changes and the cursor starts
/// the next row.
proof fn lemma_literal_line(s: Screen, body: Seq<u8>)
    requires
        s.wf(),
        s.col == 0,
        s.row < 24,
        body.len() < 80,
        printable_run(body),
    ensures
        s.write_bytes(body + seq![10u8]).wf(),
        s.write_bytes(body + seq![10u8]).row == s.row + 1,
        s.write_bytes(body + seq![10u8]).col == 0,
        s.write_bytes(body + seq![10u8]).color == s.color,
        forall|r: int, c: int|
            0 <= r < 25 && 0 <= c < 80 && r != s.row ==> #[trigger] s.write_bytes(
                body + seq![10u8],
            ).at(r, c) == s.at(r, c),
        forall|c: int|
            0 <= c < body.len() ==> #[trigger] s.write_bytes(body + seq![10u8]).at(s.row, c) == (
            VgaChar { character: body[c], color: s.color }),
{
    lemma_write_then_break(s, body);
    lemma_write_run(s, body);
    let u = s.write_bytes(body);
    lemma_break_keeps_cells(u);
    assert forall|r: int, c: int| 0 <= r < 25 && 0 <= c < 80 && r != s.row implies #[trigger] s.write_bytes(
        body + seq![10u8],
    ).at(r, c) == s.at(r, c) by {
        assert(u.at(r, c) == s.at(r, c));
    }
    assert forall|c: int| 0 <= c < body.len() implies #[trigger] s.write_bytes(body + seq![10u8]).at(
        s.row,
        c,
    ) == (VgaChar { character: body[c], color: s.color }) by {
        assert(u.at(s.row, c) == VgaChar { character: body[c], color: s.color });
    }
}

/// Drawing board cell `i` from column `6 * (i % 3)` puts its glyph at
/// column `6 * (i % 3) + 2`, leaves the rest of the screen before it alone
/// and ends with the default color.
proof fn lemma_board_cell(s: Screen, cells: Seq<Option<Player>>, i: int, last: bool)
    requires
        s.wf(),
        0 <= i < 9,
        cells.len() == 9,
        s.col == 6 * (i % 3),
    ensures
        s.board_cell(cells, i, last).wf(),
        s.board_cell(cells, i, last).row == s.row,
        s.board_cell(cells, i, last).col == s.col + (if last { 5int } else { 6int }),
        s.board_cell(cells, i, last).color == DEFAULT_COLOR,
        s.board_cell(cells, i, last).at(s.row, s.col + 2) == mark(cells, i),
        forall|r: int, c: int|
            0 <= r < 25 && 0 <= c < 80 && (r != s.row || c < s.col) ==> #[trigger] s.board_cell(
                cells,
                i,
                last,
            ).at(r, c) == s.at(r, c),
{
    lemma_literal_bytes();
    let m = mark(cells, i);
    let a = s.with_color(m.color);
    let sp = seq![32u8, 32];
    lemma_write_run(a, sp);
    let b = a.write_text("  "@);
    assert(b == a.write_bytes(sp));
    let c = b.put(m.character);
    let d = c.write_text("  "@);
    assert(d == c.write_bytes(sp));
    lemma_write_run(c, sp);
    let e = d.with_color(DEFAULT_COLOR);
    if !last {
        let f = e.put(BAR);
        assert forall|r: int, cc: int|
            0 <= r < 25 && 0 <= cc < 80 && (r != s.row || cc < s.col) implies #[trigger] f.at(r, cc)
            == s.at(r, cc) by {
            assert(e.at(r, cc) == d.at(r, cc));
            assert(d.at(r, cc) == c.at(r, cc));
            assert(c.at(r, cc) == b.at(r, cc));
            assert(b.at(r, cc) == a.at(r, cc));
        }
        assert(f.at(s.row, s.col + 2) == d.at(s.row, s.col + 2));
    } else {
        assert forall|r: int, cc: int|
            0 <= r < 25 && 0 <= cc < 80 && (r != s.row || cc < s.col) implies #[trigger] e.at(r, cc)
            == s.at(r, cc) by {
            assert(d.at(r, cc) == c.at(r, cc));
            assert(c.at(r, cc) == b.at(r, cc));
            assert(b.at(r, cc) == a.at(r, cc));
        }
    }
    assert(d.at(s.row, s.col + 2) == c.at(s.row, s.col + 2));
}

/// Board row `gr`, drawn from the start of display row `2 + 4 * gr`, shows
/// the glyph of each of its cells on the row below at columns 2, 8 and 14,
/// and leaves the rows above alone.
proof fn lemma_board_row(s: Screen, cells: Seq<Option<Player>>, gr: int)
    requires
        s.wf(),
        0 <= gr < 3,
        cells.len() == 9,
        s.row == 2 + 4 * gr,
        s.col == 0,
    ensures
        s.board_row(cells, gr).wf(),
        s.board_row(cells, gr).row == s.row + (if gr < 2 { 4int } else { 3int }),
        s.board_row(cells, gr).col == 0,
        s.board_row(cells, gr).color == DEFAULT_COLOR,
        forall|gc: int|
            0 <= gc < 3 ==> #[trigger] s.board_row(cells, gr).at(s.row + 1, 6 * gc + 2) == mark(
                cells,
                3 * gr + gc,
            ),
        forall|r: int, c: int|
            0 <= r < s.row && 0 <= c < 80 ==> #[trigger] s.board_row(cells, gr).at(r, c) == s.at(r, c),
{
    lemma_literal_bytes();
    let s1 = s.write_text("     |     |     \n"@);
    lemma_literal_line(s, spacer_body());
    let i0 = 3 * gr;
    let c0 = s1.board_cell(cells, i0, false);
    lemma_board_cell(s1, cells, i0, false);
    let c1 = c0.board_cell(cells, i0 + 1, false);
    lemma_board_cell(c0, cells, i0 + 1, false);
    let c2 = c1.board_cell(cells, i0 + 2, true);
    lemma_board_cell(c1, cells, i0 + 2, true);
    let n = c2.put(NEWLINE);
    lemma_break_keeps_cells(c2);
    let s2 = n.write_text("     |     |     \n"@);
    lemma_literal_line(n, spacer_body());
    let t = s.board_row(cells, gr);
    if gr < 2 {
        lemma_literal_line(s2, divider_body());
    }
    assert(c2.at(s.row + 1, 2) == mark(cells, i0));
    assert(c2.at(s.row + 1, 8) == mark(cells, i0 + 1));
    assert(c2.at(s.row + 1, 14) == mark(cells, i0 + 2));
    assert forall|r: int, c: int| 0 <= r < 25 && 0 <= c < 80 && r <= s.row + 1 implies #[trigger] t.at(
        r,
        c,
    ) == c2.at(r, c) by {
        assert(n.at(r, c) == c2.at(r, c));
        assert(s2.at(r, c) == n.at(r, c));
    }
    assert forall|r: int, c: int| 0 <= r < s.row && 0 <= c < 80 implies #[trigger] t.at(r, c) == s.at(
        r,
        c,
    ) by {
        assert(c2.at(r, c) == c1.at(r, c));
        assert(c1.at(r, c) == c0.at(r, c));
        assert(c0.at(r, c) == s1.at(r, c));
    }
    assert forall|gc: int| 0 <= gc < 3 implies #[trigger] t.at(s.row + 1, 6 * gc + 2) == mark(
        cells,
        3 * gr + gc,
    ) by {
        assert(t.at(s.row + 1, 6 * gc + 2) == c2.at(s.row + 1, 6 * gc + 2));
    }
}

/// The board's layout: the title on row 0, then the grid from row 2, where
/// the glyph of position `i` stands on row `3 + 4 * (i / 3)`, column
/// `2 + 6 * (i % 3)`; afterwards the cursor starts row 13 and the color is
/// the default one.
pub proof fn lemma_board_layout(s: Screen, cells: Seq<Option<Player>>)
    requires
        s.wf(),
        cells.len() == 9,
    ensures
        s.cleared().write_text("Tic Tac Toe\n\n"@).row == 2,
        s.board_grid(cells).row == 13,
        s.board_grid(cells).col == 0,
        s.board_grid(cells).color == DEFAULT_COLOR,
        forall|c: int|
            0 <= c < 11 ==> #[trigger] s.board_grid(cells).at(0, c) == (VgaChar {
                character: title_body()[c],
                color: s.color,
            }),
        forall|i: int|
            0 <= i < 9 ==> #[trigger] s.board_grid(cells).at(3 + 4 * (i / 3), 2 + 6 * (i % 3))
                == mark(cells, i),
{
    lemma_literal_bytes();
    let z = s.cleared();
    lemma_write_then_break(z, title_body() + seq![10u8]);
    lemma_literal_line(z, title_body());
    let t1 = z.write_bytes(title_body() + seq![10u8]);
    lemma_break_keeps_cells(t1);
    let t = z.write_text("Tic Tac Toe\n\n"@);
    assert(t == t1.put(10));
    let r0 = t.board_row(cells, 0);
    lemma_board_row(t, cells, 0);
    let r1 = r0.board_row(cells, 1);
    lemma_board_row(r0, cells, 1);
    let r2 = r1.board_row(cells, 2);
    lemma_board_row(r1, cells, 2);
    assert forall|c: int| 0 <= c < 11 implies #[trigger] r2.at(0, c) == (VgaChar {
        character: title_body()[c],
        color: s.color,
    }) by {
        assert(r2.at(0, c) == r1.at(0, c));
        assert(r1.at(0, c) == r0.at(0, c));
        assert(r0.at(0, c) == t.at(0, c));
        assert(t.at(0, c) == t1.at(0, c));
    }
    assert forall|i: int| 0 <= i < 9 implies #[trigger] r2.at(3 + 4 * (i / 3), 2 + 6 * (i % 3))
        == mark(cells, i) by {
        let gr = i / 3;
        let gc = i % 3;
        assert(i == 3 * gr + gc);
        if gr == 0 {
            assert(t.row == 2);
            assert(r0.at(t.row + 1, 6 * gc + 2) == mark(cells, 3 * 0 + gc));
            assert(r1.at(3, 6 * gc + 2) == r0.at(3, 6 * gc + 2));
            assert(r2.at(3, 6 * gc + 2) == r1.at(3, 6 * gc + 2));
        } else if gr == 1 {
            assert(r0.row == 6);
            assert(r1.at(r0.row + 1, 6 * gc + 2) == mark(cells, 3 * 1 + gc));
            assert(r2.at(7, 6 * gc + 2) == r1.at(7, 6 * gc + 2));
        } else {
            assert(r1.row == 10);
            assert(r2.at(r1.row + 1, 6 * gc + 2) == mark(cells, 3 * 2 + gc));
        }
    }
}

/// The overlay for positions that form no row, column or diagonal of the
/// board changes nothing, whatever row the grid starts on.
pub proof fn lemma_no_line_no_overlay(s: Screen, start: int, w: Win, p: Player)
    requires
        s.grid_wf(),
        center_row(start, w.0 as int) != center_row(start, w.1 as int) || center_row(
            start,
            w.1 as int,
        ) != center_row(start, w.2 as int),
        center_col(w.0 as int) != center_col(w.1 as int) || center_col(w.1 as int) != center_col(
            w.2 as int,
        ),
        sorted3(w.0 as int, w.1 as int, w.2 as int) != (0int, 4int, 8int),
        sorted3(w.0 as int, w.1 as int, w.2 as int) != (2int, 4int, 6int),
    ensures
        s.struck(start, w, p) == s,
{
    assert(s.struck(start, w, p).cells =~= s.cells);
}

/// Owner of the display grid and its cursor.
pub struct VgaWriter {
    cells: Vec<VgaChar>,
    current_row: usize,
    current_col: usize,
    color: u8,
}

impl View for VgaWriter {
    type V = Screen;

    closed spec fn view(&self) -> Screen {
        Screen {
            cells: self.cells@,
            row: self.current_row as int,
            col: self.current_col as int,
            color: self.color,
        }
    }
}

impl VgaWriter {
    pub open spec fn wf(&self) -> bool {
        self@.wf()
    }

    /// A blank display in white on black, cursor at the top left.
    pub fn new() -> (r: Self)
        ensures
            r.wf(),
            r@.row == 0,
            r@.col == 0,
            r@.color == DEFAULT_COLOR,
            forall|i: int| 0 <= i < 2000 ==> r@.cells[i] == blank(DEFAULT_COLOR),
    {
        let mut cells: Vec<VgaChar> = Vec::new();
        let b = VgaChar::new(SPACE, DEFAULT_COLOR);
        let mut i: usize = 0;
        while i < VGA_CELLS
            invariant
                i <= VGA_CELLS,
                cells@.len() == i,
                b == blank(DEFAULT_COLOR),
                forall|j: int| 0 <= j < i ==> cells@[j] == blank(DEFAULT_COLOR),
            decreases VGA_CELLS - i,
        {
            cells.push(b);
            i += 1;
        }
        VgaWriter { cells, current_row: 0, current_col: 0, color: DEFAULT_COLOR }
    }

    /// The cell at row `row`, column `col`.
    pub fn cell(&self, row: usize, col: usize) -> (r: VgaChar)
        requires
            self.wf(),
            row < VGA_HEIGHT,
            col < VGA_WIDTH,
        ensures
            r == self@.at(row as int, col as int),
    {
        self.cells[row * VGA_WIDTH + col]
    }

    /// The cursor as (row, column).
    pub fn cursor(&self) -> (r: (usize, usize))
        ensures
            r.0 == self@.row,
            r.1 == self@.col,
    {
        (self.current_row, self.current_col)
    }

    pub fn color(&self) -> (r: u8)
        ensures
            r == self@.color,
    {
        self.color
    }

    /// Blanks every cell in the active color and moves the cursor to the origin.
    pub fn clear(&mut self)
        requires
            old(self).wf(),
        ensures
            final(self).wf(),
            final(self)@ == old(self)@.cleared(),
    {
        let b = VgaChar::new(SPACE, self.color);
        let mut i: usize = 0;
        while i < VGA_CELLS
            invariant
                i <= VGA_CELLS,
                self.cells@.len() == 2000,
                self.color == old(self).color,
                b == blank(self.color),
                forall|j: int| 0 <= j < i ==> self.cells@[j] == blank(self.color),
            decreases VGA_CELLS - i,
        {
            self.cells.set(i, b);
            i += 1;
        }
        self.current_row = 0;
        self.current_col = 0;
        assert(self@.cells =~= old(self)@.cleared().cells);
    }

    /// Sets the color of later writes; cells already written keep theirs.
    pub fn set_color(&mut self, color: u8)
        ensures
            final(self)@ == old(self)@.with_color(color),
    {
        self.color = color;
    }

    fn new_line(&mut self)
        requires
            old(self)@.grid_wf(),
        ensures
            final(self).wf(),
            final(self)@ == old(self)@.new_line(),
            old(self)@.row == 24 ==> final(self)@.row == 24,
            final(self)@.col == 0,
            final(self)@.color == old(self)@.color,
            old(self)@.row == 24 ==> forall|r: int, c: int|
                0 <= r < 24 && 0 <= c < 80 ==> #[trigger] final(self)@.at(r, c) == old(self)@.at(
                    r + 1,
                    c,
                ),
            old(self)@.row == 24 ==> forall|c: int|
                0 <= c < 80 ==> #[trigger] final(self)@.at(24, c) == blank(old(self)@.color),
    {
        proof {
            if old(self)@.row == 24 {
                lemma_new_line_at_bottom(old(self)@);
            }
        }
        self.current_col = 0;
        if self.current_row < VGA_HEIGHT - 1 {
            self.current_row += 1;
        } else {
            let mut i: usize = 0;
            while i < VGA_CELLS - VGA_WIDTH
                invariant
                    i <= VGA_CELLS - VGA_WIDTH,
                    self.cells@.len() == 2000,
                    self.color == old(self).color,
                    self.current_row == old(self).current_row,
                    self.current_col == 0,
                    old(self).cells@.len() == 2000,
                    forall|j: int| 0 <= j < i ==> self.cells@[j] == old(self).cells@[j + 80],
                    forall|j: int| i <= j < 2000 ==> self.cells@[j] == old(self).cells@[j],
                decreases VGA_CELLS - VGA_WIDTH - i,
            {
                let c = self.cells[i + VGA_WIDTH];
                self.cells.set(i, c);
                i += 1;
            }
            let b = VgaChar::new(SPACE, self.color);
            while i < VGA_CELLS
                invariant
                    VGA_CELLS - VGA_WIDTH <= i <= VGA_CELLS,
                    b == blank(self.color),
                    self.cells@.len() == 2000,
                    self.color == old(self).color,
                    self.current_row == old(self).current_row,
                    self.current_col == 0,
                    forall|j: int| 0 <= j < 1920 ==> self.cells@[j] == old(self).cells@[j + 80],
                    forall|j: int| 1920 <= j < i ==> self.cells@[j] == blank(self.color),
                decreases VGA_CELLS - i,
            {
                self.cells.set(i, b);
                i += 1;
            }
            assert(self@.cells =~= scrolled(old(self)@.cells, old(self)@.color));
        }
    }

    /// Writes one byte as it is; a line break moves to the next row.
    fn write_byte(&mut self, byte: u8)
        requires
            old(self).wf(),
        ensures
            final(self).wf(),
            final(self)@ == old(self)@.put(byte),
    {
        if byte == NEWLINE {
            self.new_line();
        } else {
            let i = self.current_row * VGA_WIDTH + self.current_col;
            self.cells.set(i, VgaChar { character: byte, color: self.color });
            self.current_col += 1;
            if self.current_col >= VGA_WIDTH {
                self.new_line();
            }
        }
    }


    /// Redraws the whole screen for a board: the title, the grid with each
    /// cell's mark or digit, the winning line if there is a winner, the
    /// error messages in turn and the announcement of the winner.
    pub fn draw_table(&mut self, table: &Table, errors: Vec<String>, winner: Option<(Player, Win)>)
        requires
            old(self).wf(),
            winner matches Some((_, w)) ==> win_wf(w),
        ensures
            final(self).wf(),
            final(self)@ == old(self)@.board(table.cells(), errors@, winner),
    {
        self.clear();
        self.write_string("Tic Tac Toe\n\n");
        let grid_start_row = self.current_row;
        self.draw_grid_row(table, 0);
        self.draw_grid_row(table, 1);
        self.draw_grid_row(table, 2);
        if let Some((player, win)) = winner {
            self.draw_strikethrough(grid_start_row, &win, player);
        }
        let ghost before_errors = self@;
        let mut k: usize = 0;
        while k < errors.len()
            invariant
                k <= errors@.len(),
                self.wf(),
                self@ == before_errors.error_lines(errors@.take(k as int)),
            decreases errors@.len() - k,
        {
            proof {
                assert(errors@.take(k + 1).drop_last() =~= errors@.take(k as int));
            }
            self.set_color(COLOR_ERROR);
            self.write_string("\nError: ");
            self.write_string(errors[k].as_str());
            self.write_string("\n");
            self.set_color(DEFAULT_COLOR);
            k += 1;
        }
        assert(errors@.take(k as int) =~= errors@);
        if let Some((player, _)) = winner {
            self.set_color(COLOR_WIN);
            match player {
                Player::X => self.write_string("\nPlayer X wins!\n"),
                Player::O => self.write_string("\nPlayer O wins!\n"),
            }
            self.set_color(DEFAULT_COLOR);
        }
    }

    /// Draws board row `grid_row`: its spacer lines, its three cells and,
    /// between rows, a divider.
    fn draw_grid_row(&mut self, table: &Table, grid_row: usize)
        requires
            old(self).wf(),
            grid_row < 3,
        ensures
            final(self).wf(),
            final(self)@ == old(self)@.board_row(table.cells(), grid_row as int),
    {
        self.write_string("     |     |     \n");
        self.draw_cell(table, grid_row * 3, false);
        self.draw_cell(table, grid_row * 3 + 1, false);
        self.draw_cell(table, grid_row * 3 + 2, true);
        self.write_byte(NEWLINE);
        self.write_string("     |     |     \n");
        if grid_row < 2 {
            self.write_string(" ----+-----+---- \n");
        }
    }

    /// Draws board position `index` in the color of its occupant.
    fn draw_cell(&mut self, table: &Table, index: usize, last: bool)
        requires
            old(self).wf(),
            index < 9,
        ensures
            final(self).wf(),
            final(self)@ == old(self)@.board_cell(table.cells(), index as int, last),
    {
        let ch = match table.state[index] {
            Some(Player::X) => {
                self.set_color(COLOR_X);
                MARK_X
            },
            Some(Player::O) => {
                self.set_color(COLOR_O);
                MARK_O
            },
            None => {
                self.set_color(COLOR_FREE);
                DIGIT_ONE + index as u8
            },
        };
        self.write_string("  ");
        self.write_byte(ch);
        self.write_string("  ");
        self.set_color(DEFAULT_COLOR);
        if !last {
            self.write_byte(BAR);
        }
    }

    /// Draws the line through the winning positions over a grid drawn from
    /// row `grid_start_row`.
    #[verifier::rlimit(50)]
    fn draw_strikethrough(&mut self, grid_start_row: usize, win: &Win, player: Player)
        requires
            old(self).wf(),
            grid_start_row < usize::MAX - 9,
            win_wf(*win),
        ensures
            final(self).wf(),
            final(self)@ == old(self)@.struck(grid_start_row as int, *win, player),
    {
        let Win(pos1, pos2, pos3) = *win;
        let row1 = grid_start_row + pos1 / 3 * 4 + 1;
        let row2 = grid_start_row + pos2 / 3 * 4 + 1;
        let row3 = grid_start_row + pos3 / 3 * 4 + 1;
        let col1 = pos1 % 3 * 6 + 2;
        let col2 = pos2 % 3 * 6 + 2;
        let col3 = pos3 % 3 * 6 + 2;
        let color = match player {
            Player::X => STRIKE_X,
            Player::O => STRIKE_O,
        };
        if row1 == row2 && row2 == row3 {
            self.strike_row(row1, col1, col2, col3, VgaChar::new(DASH, color));
        } else if col1 == col2 && col2 == col3 {
            self.strike_column(col1, row1, row2, row3, VgaChar::new(BAR, color));
        } else {
            let (a, b) = if pos1 <= pos2 { (pos1, pos2) } else { (pos2, pos1) };
            let (b, c) = if b <= pos3 { (b, pos3) } else { (pos3, b) };
            let (a, b) = if a <= b { (a, b) } else { (b, a) };
            if a == 0 && b == 4 && c == 8 {
                self.strike_diagonal(grid_start_row, true, VgaChar::new(BACKSLASH, color));
            } else if a == 2 && b == 4 && c == 6 {
                self.strike_diagonal(grid_start_row, false, VgaChar::new(SLASH, color));
            }
        }
        let ghost target = old(self)@.struck(grid_start_row as int, *win, player);
        assert forall|i: int| 0 <= i < 2000 implies self.cells@[i] == target.cells[i] by {
            lemma_idx_split(i);
            let r = i / 80;
            let c = i % 80;
            assert(self.cells@[idx(r, c)] == target.cells[i]);
        }
        assert(self.cells@ =~= target.cells);
    }

    /// Draws `mark` on the six fixed places of one diagonal of a grid drawn
    /// from row `start`: the falling one, or else the rising one.
    fn strike_diagonal(&mut self, start: usize, falling: bool, mark: VgaChar)
        requires
            old(self).wf(),
            start <= usize::MAX - 8,
        ensures
            final(self).wf(),
            final(self).current_row == old(self).current_row,
            final(self).current_col == old(self).current_col,
            final(self).color == old(self).color,
            forall|r: int, c: int|
                0 <= r < 25 && 0 <= c < 80 ==> #[trigger] final(self)@.cells[idx(r, c)] == (if (
                falling && falling_diagonal(r - start, c)) || (!falling && rising_diagonal(
                    r - start,
                    c,
                )) {
                    mark
                } else {
                    old(self)@.cells[idx(r, c)]
                }),
    {
        if falling {
            self.put_glyph(start + 2, 4, mark);
            self.put_glyph(start + 3, 5, mark);
            self.put_glyph(start + 4, 6, mark);
            self.put_glyph(start + 6, 10, mark);
            self.put_glyph(start + 7, 11, mark);
            self.put_glyph(start + 8, 12, mark);
        } else {
            self.put_glyph(start + 2, 12, mark);
            self.put_glyph(start + 3, 11, mark);
            self.put_glyph(start + 4, 10, mark);
            self.put_glyph(start + 6, 6, mark);
            self.put_glyph(start + 7, 5, mark);
            self.put_glyph(start + 8, 4, mark);
        }
    }

    /// Draws `mark` on `row` between columns `col1` and `col3`, leaving the
    /// three given columns alone.
    fn strike_row(&mut self, row: usize, col1: usize, col2: usize, col3: usize, mark: VgaChar)
        requires
            old(self).wf(),
            col1 < 80,
            col2 < 80,
            col3 < 80,
        ensures
            final(self).wf(),
            final(self).current_row == old(self).current_row,
            final(self).current_col == old(self).current_col,
            final(self).color == old(self).color,
            forall|r: int, c: int|
                0 <= r < 25 && 0 <= c < 80 ==> #[trigger] final(self)@.cells[idx(r, c)] == (if r
                    == row && col1 <= c <= col3 && c != col1 && c != col2 && c != col3 {
                    mark
                } else {
                    old(self)@.cells[idx(r, c)]
                }),
    {
        let mut col = col1;
        while col <= col3
            invariant
                col1 <= col,
                col <= col3 + 1 || col == col1,
                col1 < 80,
                col3 < 80,
                self.cells@.len() == 2000,
                self.current_row == old(self).current_row,
                self.current_col == old(self).current_col,
                self.color == old(self).color,
                old(self).cells@.len() == 2000,
                forall|r: int, c: int|
                    0 <= r < 25 && 0 <= c < 80 ==> #[trigger] self.cells@[idx(r, c)] == (if r == row
                        && col1 <= c < col && c != col1 && c != col2 && c != col3 {
                        mark
                    } else {
                        old(self)@.cells[idx(r, c)]
                    }),
            decreases col3 + 1 - col,
        {
            if col < VGA_WIDTH && row < VGA_HEIGHT && (col != col1 && col != col2 && col != col3) {
                self.cells.set(row * VGA_WIDTH + col, mark);
            }
            col += 1;
        }
    }

    /// Draws `mark` in column `col` between rows `row1` and `row3`, leaving
    /// the three given rows alone.
    fn strike_column(&mut self, col: usize, row1: usize, row2: usize, row3: usize, mark: VgaChar)
        requires
            old(self).wf(),
            col < 80,
            row3 < usize::MAX,
        ensures
            final(self).wf(),
            final(self).current_row == old(self).current_row,
            final(self).current_col == old(self).current_col,
            final(self).color == old(self).color,
            forall|r: int, c: int|
                0 <= r < 25 && 0 <= c < 80 ==> #[trigger] final(self)@.cells[idx(r, c)] == (if c
                    == col && row1 <= r <= row3 && r != row1 && r != row2 && r != row3 {
                    mark
                } else {
                    old(self)@.cells[idx(r, c)]
                }),
    {
        let mut row = row1;
        while row <= row3
            invariant
                row1 <= row,
                row <= row3 + 1 || row == row1,
                col < 80,
                row3 < usize::MAX,
                self.cells@.len() == 2000,
                self.current_row == old(self).current_row,
                self.current_col == old(self).current_col,
                self.color == old(self).color,
                old(self).cells@.len() == 2000,
                forall|r: int, c: int|
                    0 <= r < 25 && 0 <= c < 80 ==> #[trigger] self.cells@[idx(r, c)] == (if c == col
                        && row1 <= r < row && r != row1 && r != row2 && r != row3 {
                        mark
                    } else {
                        old(self)@.cells[idx(r, c)]
                    }),
            decreases row3 + 1 - row,
        {
            if (col < VGA_WIDTH && row < VGA_HEIGHT) && (row != row1 && row != row2 && row != row3) {
                self.cells.set(row * VGA_WIDTH + col, mark);
            }
            row += 1;
        }
    }

    /// Sets one cell of the grid, if `row` is on the display.
    fn put_glyph(&mut self, row: usize, col: usize, glyph: VgaChar)
        requires
            old(self).wf(),
            col < VGA_WIDTH,
        ensures
            final(self).wf(),
            final(self).current_row == old(self).current_row,
            final(self).current_col == old(self).current_col,
            final(self).color == old(self).color,
            row < 25 ==> final(self)@.cells == old(self)@.cells.update(idx(row as int, col as int), glyph),
            row >= 25 ==> final(self)@.cells == old(self)@.cells,
    {
        if row < VGA_HEIGHT {
            self.cells.set(row * VGA_WIDTH + col, glyph);
        }
    }

    /// Writes the bytes of `s`, showing unprintable ones as a block glyph.
    pub fn write_string(&mut self, s: &str)
        requires
            old(self).wf(),
        ensures
            final(self).wf(),
            final(self)@ == old(self)@.write_text(s@),
    {
        let bytes = s.as_bytes();
        let mut i: usize = 0;
        while i < bytes.len()
            invariant
                i <= bytes@.len(),
                bytes@ == encode_utf8(s@),
                self.wf(),
                self@ == old(self)@.write_bytes(bytes@.take(i as int)),
            decreases bytes@.len() - i,
        {
            let byte = bytes[i];
            proof {
                assert(bytes@.take(i + 1).drop_last() =~= bytes@.take(i as int));
            }
            if (0x20 <= byte && byte <= 0x7e) || byte == NEWLINE {
                self.write_byte(byte);
            } else {
                self.write_byte(0xfe);
            }
            i += 1;
        }
        assert(bytes@.take(i as int) =~= bytes@);
    }
}

} // verus!
