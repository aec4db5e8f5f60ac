//! The game engine: turn validation and application, and win or tie
//! detection over the eight lines of the board.

use vstd::prelude::*;
use crate::board::{GameState, Player, SlotValue, is_full, opponent, ROW};

verus! {

/// The result of a finished game.
#[derive(Clone, Copy, Debug, PartialEq, Eq, Structural)]
pub enum Winner {
    Player(Player),
    Tie,
}

/// Why a turn was refused.
#[derive(Clone, Copy, Debug, PartialEq, Eq, Structural)]
pub enum GameError {
    SlotTaken,
    InvalidSlot,
}

/// A game in progress; it owns the state and is the only writer to it.
pub struct Game {
    pub state: GameState,
}

/// Number of lines that win: three rows, three columns, two diagonals.
pub const NUM_LINES: usize = 8;

/// The 1-based slots of line `k`: rows first, then columns, then diagonals.
pub open spec fn line_slots(k: int) -> (int, int, int) {
    if k == 0 {
        (1, 2, 3)
    } else if k == 1 {
        (4, 5, 6)
    } else if k == 2 {
        (7, 8, 9)
    } else if k == 3 {
        (1, 4, 7)
    } else if k == 4 {
        (2, 5, 8)
    } else if k == 5 {
        (3, 6, 9)
    } else if k == 6 {
        (1, 5, 9)
    } else {
        (3, 5, 7)
    }
}

/// The `m`-th (0-based) slot of line `k`.
pub open spec fn line_slot(k: int, m: int) -> int {
    let (a, b, c) = line_slots(k);
    if m == 0 {
        a
    } else if m == 1 {
        b
    } else {
        c
    }
}

/// The player holding all three cells of line `k` of board `b`, if one does.
pub open spec fn line_owner(b: Seq<SlotValue>, k: int) -> Option<Player> {
    let (x, y, z) = line_slots(k);
    match b[x - 1] {
        Some(p) => if b[y - 1] == Some(p) && b[z - 1] == Some(p) {
            Some(p)
        } else {
            None
        },
        None => None,
    }
}

/// The owner of the first line, from line `k` on, that some player holds.
pub open spec fn first_owner_from(b: Seq<SlotValue>, k: int) -> Option<Player>
    decreases NUM_LINES - k,
{
    if k >= NUM_LINES {
        None
    } else if line_owner(b, k).is_some() {
        line_owner(b, k)
    } else {
        first_owner_from(b, k + 1)
    }
}

/// The state of the game on board `b`: the player of the first line in table
/// order that one player holds; otherwise a tie when the board is full;
/// otherwise no result yet.
pub open spec fn outcome(b: Seq<SlotValue>) -> Option<Winner> {
    match first_owner_from(b, 0) {
        Some(p) => Some(Winner::Player(p)),
        None => if is_full(b) {
            Some(Winner::Tie)
        } else {
            None
        },
    }
}

/// The markers found on the first `m` slots of line `k`, empty cells skipped.
pub open spec fn line_markers(b: Seq<SlotValue>, k: int, m: int) -> Seq<Player>
    decreases m,
{
    if m <= 0 {
        Seq::empty()
    } else {
        let rest = line_markers(b, k, m - 1);
        match b[line_slot(k, m - 1) - 1] {
            Some(p) => rest.push(p),
            None => rest,
        }
    }
}

/// Number of taken cells among the first `n` cells of `b`.
pub open spec fn taken_count(b: Seq<SlotValue>, n: int) -> int
    decreases n,
{
    if n <= 0 {
        0
    } else {
        taken_count(b, n - 1) + if b[n - 1].is_some() {
            1int
        } else {
            0int
        }
    }
}

proof fn lemma_taken_count(b: Seq<SlotValue>, n: int)
    requires
        0 <= n <= b.len(),
    ensures
        0 <= taken_count(b, n) <= n,
        taken_count(b, n) == n <==> forall|i: int| 0 <= i < n ==> (#[trigger] b[i]).is_some(),
    decreases n,
{
    if n > 0 {
        lemma_taken_count(b, n - 1);
    }
}

proof fn lemma_line_markers(b: Seq<SlotValue>, k: int)
    requires
        b.len() == 9,
        0 <= k < NUM_LINES,
    ensures
        line_owner(b, k).is_some() <==> (line_markers(b, k, 3).len() == 3
            && line_markers(b, k, 3)[1] == line_markers(b, k, 3)[0]
            && line_markers(b, k, 3)[2] == line_markers(b, k, 3)[0]),
        line_owner(b, k).is_some() ==> line_owner(b, k) == Some(line_markers(b, k, 3)[0]),
{
    reveal_with_fuel(line_markers, 4);
    let (x, y, z) = line_slots(k);
    assert(line_slot(k, 0) == x && line_slot(k, 1) == y && line_slot(k, 2) == z);
    if line_markers(b, k, 3).len() == 3 {
        assert(b[x - 1].is_some() && b[y - 1].is_some() && b[z - 1].is_some());
    }
}

/// The search for a held line skips the lines before `k` that no player holds.
proof fn lemma_first_owner_skips(b: Seq<SlotValue>, k: int)
    requires
        0 <= k <= NUM_LINES,
        forall|j: int| 0 <= j < k ==> (#[trigger] line_owner(b, j)).is_none(),
    ensures
        first_owner_from(b, 0) == first_owner_from(b, k),
    decreases k,
{
    if k > 0 {
        lemma_first_owner_skips(b, k - 1);
    }
}

/// When exactly one line is held by one player, that player is the winner.
pub proof fn lemma_single_line_wins(b: Seq<SlotValue>, k: int, p: Player)
    requires
        b.len() == 9,
        0 <= k < NUM_LINES,
        line_owner(b, k) == Some(p),
        forall|j: int| 0 <= j < NUM_LINES && j != k ==> (#[trigger] line_owner(b, j)).is_none(),
    ensures
        outcome(b) == Some(Winner::Player(p)),
{
    lemma_first_owner_skips(b, k);
}

/// A full board on which no line is held by one player is a tie.
pub proof fn lemma_full_board_ties(b: Seq<SlotValue>)
    requires
        b.len() == 9,
        is_full(b),
        forall|j: int| 0 <= j < NUM_LINES ==> (#[trigger] line_owner(b, j)).is_none(),
    ensures
        outcome(b) == Some(Winner::Tie),
{
    lemma_first_owner_skips(b, NUM_LINES as int);
}

/// A board with an empty cell on which no line is held by one player has no
/// result yet.
pub proof fn lemma_open_board_continues(b: Seq<SlotValue>)
    requires
        b.len() == 9,
        exists|i: int| 0 <= i < 9 && (#[trigger] b[i]).is_none(),
        forall|j: int| 0 <= j < NUM_LINES ==> (#[trigger] line_owner(b, j)).is_none(),
    ensures
        outcome(b).is_none(),
{
    lemma_first_owner_skips(b, NUM_LINES as int);
}

/// The 1-based slots of line `k`.
fn winner_positions(k: usize) -> (r: [usize; 3])
    requires
        k < NUM_LINES,
    ensures
        forall|m: int| 0 <= m < 3 ==> r@[m] == line_slot(k as int, m),
        forall|m: int| 0 <= m < 3 ==> 1 <= #[trigger] r@[m] <= 9,
{
    if k == 0 {
        [1, 2, 3]
    } else if k == 1 {
        [4, 5, 6]
    } else if k == 2 {
        [7, 8, 9]
    } else if k == 3 {
        [1, 4, 7]
    } else if k == 4 {
        [2, 5, 8]
    } else if k == 5 {
        [3, 6, 9]
    } else if k == 6 {
        [1, 5, 9]
    } else {
        [3, 5, 7]
    }
}

/// True when every item of `v` equals the first one (also when `v` is empty).
pub fn is_all_same(v: &Vec<Player>) -> (r: bool)
    ensures
        r == forall|i: int| 0 <= i < v@.len() ==> #[trigger] v@[i] == v@[0],
{
    if v.len() == 0 {
        return true;
    }
    let first = v[0];
    let mut i: usize = 1;
    while i < v.len()
        invariant
            1 <= i <= v@.len(),
            first == v@[0],
            forall|j: int| 0 <= j < i ==> #[trigger] v@[j] == first,
        decreases v@.len() - i,
    {
        if v[i] != first {
            return false;
        }
        i = i + 1;
    }
    true
}

impl Game {
    /// The winner or tie on the current board, or `None` while the game goes on.
    pub fn check_winner(&self) -> (r: Option<Winner>)
        ensures
            r == outcome(self.state.board@),
    {
        let ghost b = self.state.board@;
        let mut winner: Option<Player> = None;
        let mut k: usize = 0;
        while k < NUM_LINES
            invariant_except_break
                winner is None,
                first_owner_from(b, 0) == first_owner_from(b, k as int),
            invariant
                k <= NUM_LINES,
                b == self.state.board@,
            ensures
                winner == first_owner_from(b, 0),
            decreases NUM_LINES - k,
        {
            let pos = winner_positions(k);
            let mut taken: Vec<Player> = Vec::new();
            let mut m: usize = 0;
            while m < ROW
                invariant
                    m <= ROW,
                    k < NUM_LINES,
                    b == self.state.board@,
                    forall|j: int| 0 <= j < 3 ==> pos@[j] == line_slot(k as int, j),
                    forall|j: int| 0 <= j < 3 ==> 1 <= #[trigger] pos@[j] <= 9,
                    taken@ == line_markers(b, k as int, m as int),
                decreases ROW - m,
            {
                if let Some(p) = self.state.board[pos[m] - 1] {
                    taken.push(p);
                }
                m = m + 1;
            }
            proof {
                lemma_line_markers(b, k as int);
            }
            let same = is_all_same(&taken);
            if taken.len() == ROW && same {
                assert(taken@[1] == taken@[0] && taken@[2] == taken@[0]);
                assert(first_owner_from(b, k as int) == line_owner(b, k as int));
                winner = Some(taken[0]);
                break;
            }
            assert(line_owner(b, k as int) is None) by {
                if taken@.len() == 3 && taken@[1] == taken@[0] && taken@[2] == taken@[0] {
                    assert forall|i: int| 0 <= i < taken@.len() implies #[trigger] taken@[i]
                        == taken@[0] by {
                        assert(i == 0 || i == 1 || i == 2);
                    }
                }
            }
            k = k + 1;
        }
        match winner {
            Some(p) => Some(Winner::Player(p)),
            None => {
                let mut count: usize = 0;
                let mut i: usize = 0;
                while i < 9
                    invariant
                        i <= 9,
                        b == self.state.board@,
                        count == taken_count(b, i as int),
                        count <= i,
                    decreases 9 - i,
                {
                    proof {
                        lemma_taken_count(b, i as int);
                    }
                    if self.state.board[i].is_some() {
                        count = count + 1;
                    }
                    i = i + 1;
                }
                proof {
                    lemma_taken_count(b, 9);
                }
                if count == 9 {
                    Some(Winner::Tie)
                } else {
                    None
                }
            },
        }
    }

    /// Places the current player's marker on `slot` (1 to 9) and passes the
    /// turn. A slot outside 1 to 9 or a taken cell is refused, and then
    /// nothing changes.
    pub fn run_turn(&mut self, slot: usize) -> (r: Result<(), GameError>)
        ensures
            r == Err::<(), GameError>(GameError::InvalidSlot) <==> !(1 <= slot <= 9),
            r == Err::<(), GameError>(GameError::SlotTaken) <==> (1 <= slot <= 9
                && old(self).state.board@[slot - 1].is_some()),
            r is Err ==> *final(self) == *old(self),
            r is Ok ==> final(self).state.board@ == old(self).state.board@.update(
                slot - 1,
                Some(old(self).state.current_player),
            ),
            r is Ok ==> final(self).state.current_player == opponent(
                old(self).state.current_player,
            ),
    {
        if !(1 <= slot && slot <= 9) {
            return Err(GameError::InvalidSlot);
        }
        let real_slot: usize = slot - 1;
        if self.state.board[real_slot].is_some() {
            return Err(GameError::SlotTaken);
        }
        self.state.board[real_slot] = Some(self.state.current_player);
        Game::next_player(&mut self.state);
        Ok(())
    }

    /// Passes the turn to the other player; the board is left as it is.
    pub fn next_player(state: &mut GameState)
        ensures
            final(state).current_player == opponent(old(state).current_player),
            final(state).board == old(state).board,
    {
        let next_player = match state.current_player {
            Player::X => Player::O,
            Player::O => Player::X,
        };
        state.current_player = next_player;
    }
}

} // verus!
