use tictactoe::board::BoardCellType;
use tictactoe::engine::{Game, GameStatus, InvalidCell, Message};

fn play_all(game: &mut Game, cells: &[u8]) {
    for &cell in cells {
        let outcome = game.play(cell);
        assert_eq!(outcome, Ok(true));
    }
}

#[test]
fn new_game_is_empty_and_x_to_play() {
    let game = Game::new();
    assert_eq!(game.board_cell_types(), [BoardCellType::Empty; 9]);
    assert_eq!(game.current_player(), BoardCellType::X);
    assert_eq!(game.status(), GameStatus::InProgress(BoardCellType::X));
    assert_eq!(game.message(), "X to play");
    assert_eq!(game.winning_lines(), vec![]);
    assert_eq!(game.winning_squares(), vec![]);
    assert_eq!(game.winner(), None);
}

#[test]
fn board_alternates_marks_by_history_order() {
    let mut game = Game::new();
    play_all(&mut game, &[4, 0, 8]);
    let mut expected = [BoardCellType::Empty; 9];
    expected[4] = BoardCellType::X;
    expected[0] = BoardCellType::O;
    expected[8] = BoardCellType::X;
    assert_eq!(game.board_cell_types(), expected);
    assert_eq!(game.current_player(), BoardCellType::O);
}

#[test]
fn reset_is_idempotent() {
    let mut game = Game::new();
    play_all(&mut game, &[4, 0, 8]);
    let mut twice = Game::new();
    play_all(&mut twice, &[4, 0, 8]);

    game.reset();
    twice.reset();
    twice.reset();

    assert_eq!(game.board_cell_types(), twice.board_cell_types());
    assert_eq!(game.board_cell_types(), [BoardCellType::Empty; 9]);
    assert_eq!(game.status(), twice.status());
    assert_eq!(game.status(), GameStatus::InProgress(BoardCellType::X));
    assert_eq!(game.message(), twice.message());
}

#[test]
fn undo_restores_the_state_before_a_play() {
    let mut game = Game::new();
    play_all(&mut game, &[0, 3]);
    let before = game.board_cell_types();
    let outcome = game.play(1);
    assert_eq!(outcome, Ok(true));
    assert!(game.undo());
    assert_eq!(game.board_cell_types(), before);
    assert_eq!(game.current_player(), BoardCellType::X);
}

#[test]
fn undo_on_empty_history_is_a_no_op() {
    let mut game = Game::new();
    assert!(!game.undo());
    assert_eq!(game.board_cell_types(), [BoardCellType::Empty; 9]);
    assert_eq!(game.status(), GameStatus::InProgress(BoardCellType::X));
}

#[test]
fn playing_an_occupied_cell_is_a_no_op() {
    let mut game = Game::new();
    play_all(&mut game, &[4]);
    let before = game.board_cell_types();
    assert_eq!(game.play(4), Ok(false));
    assert_eq!(game.board_cell_types(), before);
    assert_eq!(game.current_player(), BoardCellType::O);
}

#[test]
fn out_of_range_cells_are_rejected_as_invalid() {
    let mut game = Game::new();
    assert_eq!(game.play(9), Err(InvalidCell));
    assert_eq!(game.play(255), Err(InvalidCell));
    assert_eq!(game.board_cell_types(), [BoardCellType::Empty; 9]);
    assert_eq!(game.update(Message::MoveMade(12)), Err(InvalidCell));
    assert_eq!(game.status(), GameStatus::InProgress(BoardCellType::X));
}

#[test]
fn x_wins_the_top_row() {
    let mut game = Game::new();
    play_all(&mut game, &[0, 3, 1, 4, 2]);
    assert_eq!(game.status(), GameStatus::Won(BoardCellType::X));
    assert_eq!(game.winner(), Some(BoardCellType::X));
    assert_eq!(game.winning_lines(), vec![(0, 1, 2)]);
    assert_eq!(game.winning_squares(), vec![0, 1, 2]);
    assert_eq!(game.message(), "X wins!");
}

#[test]
fn o_wins_the_middle_row() {
    let mut game = Game::new();
    play_all(&mut game, &[0, 3, 1, 4, 6, 5]);
    assert_eq!(game.status(), GameStatus::Won(BoardCellType::O));
    assert_eq!(game.winning_lines(), vec![(3, 4, 5)]);
    assert_eq!(game.winning_squares(), vec![3, 4, 5]);
    assert_eq!(game.message(), "O wins!");
}

#[test]
fn a_full_board_with_no_line_is_a_draw() {
    let mut game = Game::new();
    play_all(&mut game, &[0, 1, 2, 4, 3, 5, 7, 6, 8]);
    assert_eq!(game.status(), GameStatus::Draw);
    assert_eq!(game.winner(), None);
    assert_eq!(game.winning_squares(), vec![]);
    assert_eq!(game.message(), "It's a draw!");
}

#[test]
fn a_final_move_can_complete_two_lines_at_once() {
    let mut game = Game::new();
    play_all(&mut game, &[0, 1, 2, 3, 4, 6, 5, 7, 8]);
    assert_eq!(game.status(), GameStatus::Won(BoardCellType::X));
    assert_eq!(game.winning_lines(), vec![(2, 5, 8), (0, 4, 8)]);
    assert_eq!(game.winning_squares(), vec![2, 5, 8, 0, 4]);
    assert_eq!(game.message(), "X wins!");
}

#[test]
fn a_won_board_freezes_until_undo() {
    let mut game = Game::new();
    play_all(&mut game, &[0, 3, 1, 4, 2]);
    let before = game.board_cell_types();
    assert_eq!(game.play(5), Ok(false));
    assert_eq!(game.board_cell_types(), before);
    assert_eq!(game.status(), GameStatus::Won(BoardCellType::X));

    assert!(game.undo());
    let mut expected = [BoardCellType::Empty; 9];
    expected[0] = BoardCellType::X;
    expected[3] = BoardCellType::O;
    expected[1] = BoardCellType::X;
    expected[4] = BoardCellType::O;
    assert_eq!(game.board_cell_types(), expected);
    assert_eq!(game.status(), GameStatus::InProgress(BoardCellType::X));
    assert_eq!(game.message(), "X to play");
}

#[test]
fn update_dispatches_commands() {
    let mut game = Game::new();
    assert_eq!(game.update(Message::MoveMade(4)), Ok(true));
    assert_eq!(game.update(Message::MoveMade(4)), Ok(false));
    assert_eq!(game.current_player(), BoardCellType::O);
    assert_eq!(game.update(Message::Undo), Ok(true));
    assert_eq!(game.update(Message::Undo), Ok(false));
    assert_eq!(game.update(Message::MoveMade(0)), Ok(true));
    assert_eq!(game.update(Message::Reset), Ok(true));
    assert_eq!(game.board_cell_types(), [BoardCellType::Empty; 9]);
}

#[test]
fn marks_render_as_their_symbols() {
    assert_eq!(BoardCellType::X.to_char(), 'X');
    assert_eq!(BoardCellType::O.to_char(), 'O');
    assert_eq!(BoardCellType::Empty.to_char(), ' ');
}
