use tictactoe_kernel::game::{Event, Play, Player, Table, Win};
use tictactoe_kernel::vga::{VgaChar, VgaWriter, VGA_HEIGHT, VGA_WIDTH};

fn row_text(w: &VgaWriter, row: usize) -> String {
    (0..VGA_WIDTH).map(|c| w.cell(row, c).character as char).collect::<String>()
}

fn trimmed(w: &VgaWriter, row: usize) -> String {
    row_text(w, row).trim_end().to_string()
}

fn board_with(plays: &[(Play, Player)]) -> Table {
    let mut table = Table::new();
    for &(p, who) in plays {
        table.play(Event::new(p, who)).unwrap();
    }
    table
}

#[test]
fn text_is_written_at_the_cursor() {
    let mut w = VgaWriter::new();
    w.write_string("ab\ncd");
    assert_eq!(trimmed(&w, 0), "ab");
    assert_eq!(trimmed(&w, 1), "cd");
    assert_eq!(w.cursor(), (1, 2));
    assert_eq!(w.cell(0, 0), VgaChar::new(b'a', 0x0f));
}

#[test]
fn unprintable_bytes_show_a_block() {
    let mut w = VgaWriter::new();
    w.write_string("\u{e9}\t");
    assert_eq!(w.cell(0, 0).character, 0xfe);
    assert_eq!(w.cell(0, 1).character, 0xfe);
    assert_eq!(w.cell(0, 2).character, 0xfe);
    assert_eq!(w.cursor(), (0, 3));
}

#[test]
fn a_full_row_wraps() {
    let mut w = VgaWriter::new();
    let long: String = std::iter::repeat('x').take(VGA_WIDTH).chain(std::iter::once('y')).collect();
    w.write_string(&long);
    assert_eq!(w.cell(0, VGA_WIDTH - 1).character, b'x');
    assert_eq!(w.cell(1, 0).character, b'y');
    assert_eq!(w.cursor(), (1, 1));
}

#[test]
fn a_row_filled_to_the_width_moves_the_cursor_down_at_once() {
    let mut w = VgaWriter::new();
    let full: String = std::iter::repeat('z').take(VGA_WIDTH).collect();
    w.write_string(&full);
    assert_eq!(w.cursor(), (1, 0));
    w.write_string("\n");
    assert_eq!(w.cursor(), (2, 0));
    assert_eq!(row_text(&w, 0), full);
    assert_eq!(row_text(&w, 1), " ".repeat(VGA_WIDTH));
}

#[test]
fn one_line_more_than_the_height_scrolls_once() {
    let mut w = VgaWriter::new();
    for k in 0..VGA_HEIGHT {
        w.write_string(&format!("line {}\n", k));
    }
    for row in 0..VGA_HEIGHT - 1 {
        assert_eq!(trimmed(&w, row), format!("line {}", row + 1));
    }
    assert_eq!(row_text(&w, VGA_HEIGHT - 1), " ".repeat(VGA_WIDTH));
    assert_eq!(w.cursor(), (VGA_HEIGHT - 1, 0));
}

#[test]
fn colors_apply_to_later_writes_only() {
    let mut w = VgaWriter::new();
    w.write_string("a");
    w.set_color(0x0c);
    w.write_string("b");
    assert_eq!(w.cell(0, 0).color, 0x0f);
    assert_eq!(w.cell(0, 1).color, 0x0c);
    assert_eq!(w.color(), 0x0c);
}

#[test]
fn clear_blanks_in_the_active_color() {
    let mut w = VgaWriter::new();
    w.write_string("hello\nworld");
    w.set_color(0x1e);
    w.clear();
    assert_eq!(w.cursor(), (0, 0));
    for row in 0..VGA_HEIGHT {
        for col in 0..VGA_WIDTH {
            assert_eq!(w.cell(row, col), VgaChar::new(b' ', 0x1e));
        }
    }
}

#[test]
fn empty_board_layout() {
    let mut w = VgaWriter::new();
    w.draw_table(&Table::new(), Vec::new(), None);
    assert_eq!(trimmed(&w, 0), "Tic Tac Toe");
    assert_eq!(trimmed(&w, 2), "     |     |");
    assert_eq!(trimmed(&w, 3), "  1  |  2  |  3");
    assert_eq!(trimmed(&w, 5), " ----+-----+----");
    assert_eq!(trimmed(&w, 7), "  4  |  5  |  6");
    assert_eq!(trimmed(&w, 11), "  7  |  8  |  9");
    assert_eq!(trimmed(&w, 12), "     |     |");
    assert_eq!(trimmed(&w, 13), "");
    assert_eq!(w.cell(3, 2).color, 0x08);
    assert_eq!(w.cell(3, 5).color, 0x0f);
    assert_eq!(w.cursor(), (13, 0));
}

#[test]
fn marks_use_player_colors() {
    let mut w = VgaWriter::new();
    let table = board_with(&[(Play::One, Player::X), (Play::Two, Player::O)]);
    w.draw_table(&table, Vec::new(), None);
    assert_eq!(w.cell(3, 2), VgaChar::new(b'X', 0x0b));
    assert_eq!(w.cell(3, 8), VgaChar::new(b'O', 0x0e));
    assert_eq!(w.cell(3, 14), VgaChar::new(b'3', 0x08));
}

#[test]
fn falling_diagonal_win_draws_six_fixed_glyphs() {
    let mut w = VgaWriter::new();
    let table = board_with(&[(Play::One, Player::X), (Play::Five, Player::X), (Play::Nine, Player::X)]);
    w.draw_table(&table, Vec::new(), Some((Player::X, Win(0, 4, 8))));
    let start = 2;
    for (dr, col) in [(2, 4), (3, 5), (4, 6), (6, 10), (7, 11), (8, 12)] {
        assert_eq!(w.cell(start + dr, col), VgaChar::new(b'\\', 0x0c));
    }
    for row in 0..VGA_HEIGHT {
        for col in 0..VGA_WIDTH {
            let c = w.cell(row, col);
            assert!(!(c.character == b'-' && c.color == 0x0c));
            assert!(!(c.character == b'|' && c.color == 0x0c));
        }
    }
    assert_eq!(w.cell(3, 2), VgaChar::new(b'X', 0x0b));
    assert_eq!(trimmed(&w, 14), "Player X wins!");
    assert_eq!(w.cell(14, 0).color, 0x0a);
}

#[test]
fn rising_diagonal_win_draws_six_fixed_glyphs() {
    let mut w = VgaWriter::new();
    let table = board_with(&[(Play::Three, Player::O), (Play::Five, Player::O), (Play::Seven, Player::O)]);
    w.draw_table(&table, Vec::new(), Some((Player::O, Win(2, 4, 6))));
    for (dr, col) in [(2, 12), (3, 11), (4, 10), (6, 6), (7, 5), (8, 4)] {
        assert_eq!(w.cell(2 + dr, col), VgaChar::new(b'/', 0x0d));
    }
    assert_eq!(trimmed(&w, 14), "Player O wins!");
}

#[test]
fn middle_row_win_strikes_between_the_centers() {
    let mut w = VgaWriter::new();
    let table = board_with(&[(Play::Four, Player::O), (Play::Five, Player::O), (Play::Six, Player::O)]);
    w.draw_table(&table, Vec::new(), Some((Player::O, Win(3, 4, 5))));
    let row = 7;
    for col in (3..=7).chain(9..=13) {
        assert_eq!(w.cell(row, col), VgaChar::new(b'-', 0x0d));
    }
    for col in [2, 8, 14] {
        assert_eq!(w.cell(row, col), VgaChar::new(b'O', 0x0e));
    }
    assert_eq!(w.cell(row, 1).character, b' ');
    assert_eq!(w.cell(row, 15).character, b' ');
}

#[test]
fn column_win_strikes_between_the_centers() {
    let mut w = VgaWriter::new();
    let table = board_with(&[(Play::Two, Player::X), (Play::Five, Player::X), (Play::Eight, Player::X)]);
    w.draw_table(&table, Vec::new(), Some((Player::X, Win(1, 4, 7))));
    for row in (4..=6).chain(8..=10) {
        assert_eq!(w.cell(row, 8), VgaChar::new(b'|', 0x0c));
    }
    for row in [3, 7, 11] {
        assert_eq!(w.cell(row, 8), VgaChar::new(b'X', 0x0b));
    }
}

#[test]
fn errors_follow_the_board_in_red() {
    let mut w = VgaWriter::new();
    let errors = vec!["Cell already occupied".to_string(), "second".to_string()];
    w.draw_table(&Table::new(), errors, None);
    assert_eq!(trimmed(&w, 14), "Error: Cell already occupied");
    assert_eq!(w.cell(14, 0).color, 0x0c);
    assert_eq!(trimmed(&w, 16), "Error: second");
    assert_eq!(w.color(), 0x0f);
}

#[test]
fn positions_that_form_no_line_draw_no_overlay() {
    let mut plain = VgaWriter::new();
    let mut other = VgaWriter::new();
    let table = board_with(&[(Play::One, Player::X), (Play::Two, Player::X), (Play::Six, Player::X)]);
    plain.draw_table(&table, Vec::new(), None);
    other.draw_table(&table, Vec::new(), Some((Player::X, Win(0, 1, 5))));
    for row in 0..13 {
        for col in 0..VGA_WIDTH {
            assert_eq!(plain.cell(row, col), other.cell(row, col));
        }
    }
}
