//! Board state and the rules for placing a mark.

use vstd::prelude::*;

verus! {

/// One of the nine cells of the board, numbered as on the keypad digits 1 to 9.
#[derive(Clone, Copy, PartialEq, Eq, Structural, Debug)]
pub enum Play {
    One,
    Two,
    Three,
    Four,
    Five,
    Six,
    Seven,
    Eight,
    Nine,
}

impl Play {
    /// Position of the cell on the board, row by row from the top left.
    pub open spec fn index_spec(self) -> nat {
        match self {
            Play::One => 0,
            Play::Two => 1,
            Play::Three => 2,
            Play::Four => 3,
            Play::Five => 4,
            Play::Six => 5,
            Play::Seven => 6,
            Play::Eight => 7,
            Play::Nine => 8,
        }
    }

    pub fn index(self) -> (r: usize)
        ensures
            r == self.index_spec(),
    {
        match self {
            Play::One => 0,
            Play::Two => 1,
            Play::Three => 2,
            Play::Four => 3,
            Play::Five => 4,
            Play::Six => 5,
            Play::Seven => 6,
            Play::Eight => 7,
            Play::Nine => 8,
        }
    }

    /// The cell selected by a digit key; digits outside 1 to 9 select none.
    pub fn from_digit(digit: u8) -> (r: Option<Play>)
        ensures
            r.is_some() <==> 1 <= digit <= 9,
            r matches Some(p) ==> p.index_spec() == digit - 1,
    {
        match digit {
            1 => Some(Play::One),
            2 => Some(Play::Two),
            3 => Some(Play::Three),
            4 => Some(Play::Four),
            5 => Some(Play::Five),
            6 => Some(Play::Six),
            7 => Some(Play::Seven),
            8 => Some(Play::Eight),
            9 => Some(Play::Nine),
            _ => None,
        }
    }
}

#[derive(Clone, Copy, PartialEq, Eq, Structural, Debug)]
pub enum Player {
    X,
    O,
}

impl Player {
    pub open spec fn other(self) -> Player {
        match self {
            Player::X => Player::O,
            Player::O => Player::X,
        }
    }

    /// The player whose turn comes next.
    pub fn flip(&self) -> (r: Self)
        ensures
            r == self.other(),
    {
        match self {
            Player::X => Player::O,
            Player::O => Player::X,
        }
    }
}

/// A cell selection attributed to the player who made it.
#[derive(Clone, Copy, PartialEq, Eq, Structural, Debug)]
pub struct Event {
    pub play: Play,
    pub player: Player,
}

impl Event {
    pub fn new(play: Play, player: Player) -> (r: Self)
        ensures
            r.play == play,
            r.player == player,
    {
        Self { play, player }
    }
}

/// Why a move was refused.
#[derive(Clone, Copy, PartialEq, Eq, Structural, Debug)]
pub enum PlayError {
    OutOfBounds,
    Occupied,
}

impl PlayError {
    /// The message shown to the players.
    pub fn message(&self) -> (r: String)
        ensures
            r@ == self.message_spec(),
    {
        match self {
            PlayError::OutOfBounds => "Index out of bounds".to_string(),
            PlayError::Occupied => "Cell already occupied".to_string(),
        }
    }

    pub open spec fn message_spec(self) -> Seq<char> {
        match self {
            PlayError::OutOfBounds => "Index out of bounds"@,
            PlayError::Occupied => "Cell already occupied"@,
        }
    }
}

/// The three positions of a completed line, in increasing order.
#[derive(Clone, Copy, PartialEq, Eq, Structural, Debug)]
pub struct Win(pub usize, pub usize, pub usize);

/// The nine cells of the board, row by row from the top left.
pub struct Table {
    pub state: [Option<Player>; 9],
}

/// The eight lines of three: rows, then columns, then diagonals.
pub open spec fn line_spec(k: int) -> (nat, nat, nat) {
    if k == 0 { (0, 1, 2) }
    else if k == 1 { (3, 4, 5) }
    else if k == 2 { (6, 7, 8) }
    else if k == 3 { (0, 3, 6) }
    else if k == 4 { (1, 4, 7) }
    else if k == 5 { (2, 5, 8) }
    else if k == 6 { (0, 4, 8) }
    else { (2, 4, 6) }
}

pub const LINE_COUNT: usize = 8;

fn line(k: usize) -> (r: (usize, usize, usize))
    requires
        k < LINE_COUNT,
    ensures
        r.0 == line_spec(k as int).0,
        r.1 == line_spec(k as int).1,
        r.2 == line_spec(k as int).2,
{
    if k == 0 { (0, 1, 2) }
    else if k == 1 { (3, 4, 5) }
    else if k == 2 { (6, 7, 8) }
    else if k == 3 { (0, 3, 6) }
    else if k == 4 { (1, 4, 7) }
    else if k == 5 { (2, 5, 8) }
    else if k == 6 { (0, 4, 8) }
    else { (2, 4, 6) }
}

impl Table {
    pub open spec fn cells(&self) -> Seq<Option<Player>> {
        self.state@
    }

    /// Whether line `k` is held by one player on `cells`.
    pub open spec fn line_won(cells: Seq<Option<Player>>, k: int) -> bool {
        let (a, b, c) = line_spec(k);
        &&& cells[a as int].is_some()
        &&& cells[a as int] == cells[b as int]
        &&& cells[b as int] == cells[c as int]
    }

    pub fn new() -> (r: Self)
        ensures
            forall|i: int| 0 <= i < 9 ==> r.cells()[i].is_none(),
    {
        Self { state: [None; 9] }
    }

    /// Marks the cell of `event.play` for `event.player`, unless it is taken.
    pub fn play(&mut self, event: Event) -> (r: Result<(), PlayError>)
        ensures
            r is Err <==> old(self).cells()[event.play.index_spec() as int].is_some(),
            r is Err ==> r == Err::<(), PlayError>(PlayError::Occupied),
            r is Ok ==> final(self).cells() == old(self).cells().update(
                event.play.index_spec() as int,
                Some(event.player),
            ),
            r is Err ==> final(self).cells() == old(self).cells(),
    {
        let index = event.play.index();
        if index >= 9 {
            return Err(PlayError::OutOfBounds);
        }
        if self.state[index].is_some() {
            return Err(PlayError::Occupied);
        }
        self.state[index] = Some(event.player);
        Ok(())
    }

    /// The first line of three, in the order rows, columns, diagonals, that
    /// one player holds, with that player.
    pub fn check_wins(&self) -> (r: Option<(Player, Win)>)
        ensures
            r is None <==> forall|k: int| 0 <= k < 8 ==> !Self::line_won(self.cells(), k),
            r matches Some((p, w)) ==> exists|k: int|
                #![trigger line_spec(k)]
                0 <= k < 8 && Self::line_won(self.cells(), k)
                    && (forall|j: int| 0 <= j < k ==> !Self::line_won(self.cells(), j))
                    && w.0 == line_spec(k).0 && w.1 == line_spec(k).1 && w.2 == line_spec(k).2
                    && self.cells()[w.0 as int] == Some(p),
    {
        let mut k: usize = 0;
        while k < LINE_COUNT
            invariant
                k <= LINE_COUNT,
                forall|j: int| 0 <= j < k ==> !Self::line_won(self.cells(), j),
            decreases LINE_COUNT - k,
        {
            let (a, b, c) = line(k);
            if let (Some(pa), Some(pb), Some(pc)) = (self.state[a], self.state[b], self.state[c]) {
                if pa == pb && pb == pc {
                    assert(Self::line_won(self.cells(), k as int));
                    return Some((pa, Win(a, b, c)));
                }
            }
            k += 1;
        }
        None
    }
}

/// The board, the player to move and the error messages after a batch of
/// selections is applied in order: a free cell takes the mark of the player
/// to move and the turn passes; a taken cell leaves both as they were and
/// adds its message.
pub open spec fn apply_plays(
    cells: Seq<Option<Player>>,
    player: Player,
    plays: Seq<Play>,
) -> (Seq<Option<Player>>, Player, Seq<Seq<char>>)
    decreases plays.len(),
{
    if plays.len() == 0 {
        (cells, player, Seq::empty())
    } else {
        let (c, pl, errs) = apply_plays(cells, player, plays.drop_last());
        let i = plays.last().index_spec() as int;
        if c[i].is_some() {
            (c, pl, errs.push(PlayError::Occupied.message_spec()))
        } else {
            (c.update(i, Some(pl)), pl.other(), errs)
        }
    }
}

/// One round of the game loop: applies the drained selections in order for
/// the alternating players, starting with `player`. Returns the player to
/// move next and the messages of the refused selections.
pub fn play_round(table: &mut Table, player: Player, plays: &Vec<Play>) -> (r: (Player, Vec<String>))
    ensures
        (final(table).cells(), r.0, r.1@.map_values(|e: String| e@)) == apply_plays(
            old(table).cells(),
            player,
            plays@,
        ),
{
    let mut current = player;
    let mut errors: Vec<String> = Vec::new();
    let mut k: usize = 0;
    while k < plays.len()
        invariant
            k <= plays@.len(),
            table.cells().len() == 9,
            (table.cells(), current, errors@.map_values(|e: String| e@)) == apply_plays(
                old(table).cells(),
                player,
                plays@.take(k as int),
            ),
        decreases plays@.len() - k,
    {
        proof {
            assert(plays@.take(k + 1).drop_last() =~= plays@.take(k as int));
        }
        let event = Event::new(plays[k], current);
        let ghost before = errors@.map_values(|e: String| e@);
        match table.play(event) {
            Ok(_) => current = current.flip(),
            Err(e) => {
                let m = e.message();
                errors.push(m);
                assert(errors@.map_values(|e: String| e@) =~= before.push(m@));
            },
        }
        k += 1;
    }
    assert(plays@.take(k as int) =~= plays@);
    (current, errors)
}

} // verus!
