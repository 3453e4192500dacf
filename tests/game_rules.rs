use tictactoe_kernel::game::{play_round, Event, Play, PlayError, Player, Table, Win};

#[test]
fn flip_alternates_players() {
    assert_eq!(Player::X.flip(), Player::O);
    assert_eq!(Player::O.flip(), Player::X);
}

#[test]
fn digits_select_cells() {
    assert_eq!(Play::from_digit(1), Some(Play::One));
    assert_eq!(Play::from_digit(5), Some(Play::Five));
    assert_eq!(Play::from_digit(9), Some(Play::Nine));
    assert_eq!(Play::from_digit(0), None);
    assert_eq!(Play::from_digit(10), None);
    assert_eq!(Play::Seven.index(), 6);
}

#[test]
fn play_marks_a_free_cell() {
    let mut table = Table::new();
    assert_eq!(table.play(Event::new(Play::Five, Player::X)), Ok(()));
    assert_eq!(table.state[4], Some(Player::X));
    assert!(table.state.iter().enumerate().all(|(i, c)| i == 4 || c.is_none()));
}

#[test]
fn play_refuses_a_taken_cell() {
    let mut table = Table::new();
    table.play(Event::new(Play::One, Player::X)).unwrap();
    assert_eq!(table.play(Event::new(Play::One, Player::O)), Err(PlayError::Occupied));
    assert_eq!(table.state[0], Some(Player::X));
    assert_eq!(PlayError::Occupied.message(), "Cell already occupied");
    assert_eq!(PlayError::OutOfBounds.message(), "Index out of bounds");
}

#[test]
fn no_winner_on_an_empty_or_mixed_board() {
    let mut table = Table::new();
    assert!(table.check_wins().is_none());
    table.play(Event::new(Play::One, Player::X)).unwrap();
    table.play(Event::new(Play::Two, Player::O)).unwrap();
    table.play(Event::new(Play::Three, Player::X)).unwrap();
    assert!(table.check_wins().is_none());
}

#[test]
fn row_column_and_diagonal_wins() {
    let mut rows = Table::new();
    for p in [Play::Four, Play::Five, Play::Six] {
        rows.play(Event::new(p, Player::O)).unwrap();
    }
    assert_eq!(rows.check_wins(), Some((Player::O, Win(3, 4, 5))));

    let mut cols = Table::new();
    for p in [Play::Three, Play::Six, Play::Nine] {
        cols.play(Event::new(p, Player::X)).unwrap();
    }
    assert_eq!(cols.check_wins(), Some((Player::X, Win(2, 5, 8))));

    let mut diag = Table::new();
    for p in [Play::Three, Play::Five, Play::Seven] {
        diag.play(Event::new(p, Player::X)).unwrap();
    }
    assert_eq!(diag.check_wins(), Some((Player::X, Win(2, 4, 6))));
}

#[test]
fn first_line_in_order_wins() {
    let mut table = Table::new();
    for p in [Play::One, Play::Two, Play::Three, Play::Four, Play::Seven] {
        table.play(Event::new(p, Player::X)).unwrap();
    }
    assert_eq!(table.check_wins(), Some((Player::X, Win(0, 1, 2))));
}

#[test]
fn round_alternates_players_and_collects_errors() {
    let mut table = Table::new();
    let plays = vec![Play::One, Play::One, Play::Two, Play::Five];
    let (next, errors) = play_round(&mut table, Player::X, &plays);
    assert_eq!(table.state[0], Some(Player::X));
    assert_eq!(table.state[1], Some(Player::O));
    assert_eq!(table.state[4], Some(Player::X));
    assert_eq!(next, Player::O);
    assert_eq!(errors, vec!["Cell already occupied".to_string()]);
}

#[test]
fn empty_round_changes_nothing() {
    let mut table = Table::new();
    let (next, errors) = play_round(&mut table, Player::O, &Vec::new());
    assert_eq!(next, Player::O);
    assert!(errors.is_empty());
    assert!(table.state.iter().all(|c| c.is_none()));
}
