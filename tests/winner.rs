use tictactoe::board::{GameState, Player};
use tictactoe::game::{Game, Winner};

#[test]
fn test_check_winner_horizontal() {
    let game_state = GameState {
        board: [
            Some(Player::X), Some(Player::X), Some(Player::X),
            Some(Player::O), Some(Player::O), None,
            None,            None,            None,
        ],
        current_player: Player::X,
    };

    let mut game = Game { state: game_state };
    assert_eq!(game.check_winner(), Some(Winner::Player(Player::X)));

    game.state.board[2] = Some(Player::O);
    assert_eq!(game.check_winner(), None);
}

#[test]
fn test_check_winner_vertical() {
    let game_state = GameState {
        board: [
            Some(Player::X), Some(Player::O), None,
            Some(Player::X), Some(Player::O), None,
            Some(Player::X), None,            None,
        ],
        current_player: Player::X,
    };
    let mut game = Game { state: game_state };

    assert_eq!(game.check_winner(), Some(Winner::Player(Player::X)));

    game.state.board[6] = Some(Player::O);
    assert_eq!(game.check_winner(), None);
}

#[test]
fn test_check_winner_diagonal() {
    let game_state = GameState {
        board: [
            Some(Player::X), Some(Player::O), None,
            Some(Player::O), Some(Player::X), None,
            None,            None,            Some(Player::X),
        ],
        current_player: Player::O,
    };

    let game = Game { state: game_state };
    assert_eq!(game.check_winner(), Some(Winner::Player(Player::X)));
}

#[test]
fn test_check_winner_tie() {
    let game_state = GameState {
        board: [
            Some(Player::X), Some(Player::O), Some(Player::X),
            Some(Player::O), Some(Player::X), Some(Player::O),
            Some(Player::O), Some(Player::X), Some(Player::O),
        ],
        current_player: Player::X,
    };

    let game = Game { state: game_state };
    assert_eq!(game.check_winner(), Some(Winner::Tie));
}

fn game_with(board: [Option<Player>; 9]) -> Game {
    Game { state: GameState { board, current_player: Player::X } }
}

#[test]
fn empty_board_has_no_result() {
    let game = Game { state: GameState::new() };
    assert_eq!(game.check_winner(), None);
}

#[test]
fn each_line_alone_wins_for_its_player() {
    let lines: [[usize; 3]; 8] = [
        [1, 2, 3], [4, 5, 6], [7, 8, 9],
        [1, 4, 7], [2, 5, 8], [3, 6, 9],
        [1, 5, 9], [3, 5, 7],
    ];
    for p in [Player::X, Player::O] {
        for line in lines.iter() {
            let mut board: [Option<Player>; 9] = [None; 9];
            for s in line.iter() {
                board[s - 1] = Some(p);
            }
            assert_eq!(game_with(board).check_winner(), Some(Winner::Player(p)));
        }
    }
}

#[test]
fn o_wins_anti_diagonal() {
    let board = [
        Some(Player::X), Some(Player::X), Some(Player::O),
        None,            Some(Player::O), None,
        Some(Player::O), None,            Some(Player::X),
    ];
    assert_eq!(game_with(board).check_winner(), Some(Winner::Player(Player::O)));
}

#[test]
fn first_line_in_table_order_decides() {
    // Row 1 (held by O) comes before row 3 (held by X) in the line table.
    let board = [
        Some(Player::O), Some(Player::O), Some(Player::O),
        None,            None,            None,
        Some(Player::X), Some(Player::X), Some(Player::X),
    ];
    assert_eq!(game_with(board).check_winner(), Some(Winner::Player(Player::O)));
}

#[test]
fn full_board_with_a_line_is_a_win_not_a_tie() {
    let board = [
        Some(Player::X), Some(Player::X), Some(Player::X),
        Some(Player::O), Some(Player::O), Some(Player::X),
        Some(Player::X), Some(Player::O), Some(Player::O),
    ];
    assert_eq!(game_with(board).check_winner(), Some(Winner::Player(Player::X)));
}

#[test]
fn one_empty_cell_without_line_has_no_result() {
    let board = [
        Some(Player::X), Some(Player::O), Some(Player::X),
        Some(Player::O), Some(Player::X), Some(Player::O),
        Some(Player::O), Some(Player::X), None,
    ];
    assert_eq!(game_with(board).check_winner(), None);
}
