//! The board model: players, cells, and the state of a game in progress.

use vstd::prelude::*;

verus! {

/// Number of cells in a row of the board.
pub const ROW: usize = 3;

/// One of the two players.
#[derive(Clone, Copy, Debug, PartialEq, Eq, Structural)]
pub enum Player {
    X,
    O,
}

/// What a cell holds: the marker of the player who took it, if any.
pub type SlotValue = Option<Player>;

/// The player who moves after `p`.
pub open spec fn opponent(p: Player) -> Player {
    match p {
        Player::X => Player::O,
        Player::O => Player::X,
    }
}

/// The single-character marker of a player.
pub open spec fn marker_text(p: Player) -> Seq<char> {
    match p {
        Player::X => seq!['X'],
        Player::O => seq!['O'],
    }
}

impl Player {
    /// The player's marker as text, `"X"` or `"O"`.
    pub fn marker(&self) -> (r: String)
        ensures
            r@ == marker_text(*self),
    {
        match self {
            Player::X => {
                proof { reveal_strlit("X"); }
                "X".to_owned()
            },
            Player::O => {
                proof { reveal_strlit("O"); }
                "O".to_owned()
            },
        }
    }
}

/// The board, cells 1 to 9 in row-major order stored at indices 0 to 8, and
/// the player whose turn is next.
pub struct GameState {
    pub board: [SlotValue; 9],
    pub current_player: Player,
}

/// True when every cell of `b` is taken.
pub open spec fn is_full(b: Seq<SlotValue>) -> bool {
    forall|i: int| 0 <= i < b.len() ==> (#[trigger] b[i]).is_some()
}

impl GameState {
    /// An empty board with X to move.
    pub fn new() -> (r: Self)
        ensures
            forall|i: int| 0 <= i < 9 ==> (#[trigger] r.board@[i]).is_none(),
            r.current_player == Player::X,
    {
        GameState { board: [None; 9], current_player: Player::X }
    }
}

} // verus!
