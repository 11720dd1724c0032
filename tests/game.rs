use tictactoe::game::{Game, GameError, Mark, Outcome, NO_SCORE, WIN_SCORE};

const X: Option<Mark> = Some(Mark::Cross);
const O: Option<Mark> = Some(Mark::Circle);
const E: Option<Mark> = None;

fn game_of(board: [Option<Mark>; 9], turn: Mark) -> Game {
    Game { board, turn }
}

fn play_out(game: &mut Game) -> Outcome {
    let mut plies = 0;
    while game.outcome() == Outcome::InProgress {
        assert_eq!(game.ai_play(), Ok(()));
        plies += 1;
        assert!(plies <= 9);
    }
    game.outcome()
}

fn count(game: &Game, m: Mark) -> usize {
    game.board.iter().filter(|c| **c == Some(m)).count()
}

#[test]
fn test_negamax() {
    let mut game = Game::new();
    assert_eq!(play_out(&mut game), Outcome::Draw);
}

#[test]
fn best_play_from_empty_board_draws() {
    let mut game = Game::default();
    assert_eq!(game.negamax(), 0);
    assert_eq!(play_out(&mut game), Outcome::Draw);
    assert!(game.board.iter().all(|c| c.is_some()));
}

#[test]
fn cross_completes_top_row() {
    let mut game = game_of([X, X, E, O, O, E, E, E, E], Mark::Cross);
    assert_eq!(game.ai_play(), Ok(()));
    assert_eq!(game.board, [X, X, X, O, O, E, E, E, E]);
    assert_eq!(game.turn, Mark::Circle);
    assert_eq!(game.outcome(), Outcome::Win(Mark::Cross));
}

#[test]
fn circle_takes_win_over_block() {
    let mut game = game_of([O, O, E, X, X, E, E, E, E], Mark::Circle);
    assert_eq!(game.ai_play(), Ok(()));
    assert_eq!(game.board[2], O);
    assert_eq!(game.board[5], E);
    assert_eq!(game.outcome(), Outcome::Win(Mark::Circle));
}

#[test]
fn corner_and_centre_opening_draws() {
    let mut game = game_of([X, E, E, E, O, E, E, E, E], Mark::Cross);
    assert_eq!(play_out(&mut game), Outcome::Draw);
}

#[test]
fn occupied_cell_is_refused() {
    let mut game = Game::new();
    assert_eq!(game.set_tile(4), Ok(()));
    let before = game.get_legal_moves();
    assert_eq!(game.set_tile(4), Err(GameError::CellOccupied));
    assert_eq!(game.get_legal_moves(), before);
    assert_eq!(game.board[4], O);
    assert_eq!(game.turn, Mark::Cross);
}

#[test]
fn place_then_undo_round_trips() {
    let mut game = game_of([X, E, O, E, E, E, E, E, E], Mark::Cross);
    let board = game.board;
    assert_eq!(game.set_tile(5), Ok(()));
    assert_eq!(game.board[5], X);
    assert_eq!(game.turn, Mark::Circle);
    assert_eq!(game.takeback(5), Ok(()));
    assert_eq!(game.board, board);
    assert_eq!(game.turn, Mark::Cross);
}

#[test]
fn undo_of_empty_cell_is_refused() {
    let mut game = Game::new();
    assert_eq!(game.takeback(3), Err(GameError::CellAlreadyEmpty));
    assert_eq!(game.board, [E; 9]);
    assert_eq!(game.turn, Mark::Circle);
}

#[test]
fn marks_stay_balanced_during_play() {
    let mut game = Game::new();
    for cell in [4, 0, 8, 2, 6] {
        assert_eq!(game.set_tile(cell), Ok(()));
        let a = count(&game, Mark::Circle);
        let b = count(&game, Mark::Cross);
        assert!(a == b || a == b + 1);
        assert_eq!(game.turn == Mark::Circle, a == b);
    }
    assert_eq!(game.set_tile(4), Err(GameError::CellOccupied));
    assert_eq!(count(&game, Mark::Circle), 3);
    assert_eq!(count(&game, Mark::Cross), 2);
}

#[test]
fn legal_moves_are_ascending_empty_cells() {
    let game = game_of([X, E, O, E, X, E, O, E, E], Mark::Circle);
    assert_eq!(game.get_legal_moves(), vec![1, 3, 5, 7, 8]);
    assert_eq!(Game::new().get_legal_moves(), vec![0, 1, 2, 3, 4, 5, 6, 7, 8]);
    let full = game_of([X, O, X, X, O, O, O, X, X], Mark::Circle);
    assert_eq!(full.get_legal_moves(), Vec::<usize>::new());
}

#[test]
fn outcome_reports_each_case() {
    assert_eq!(Game::new().outcome(), Outcome::InProgress);
    let draw = game_of([X, O, X, X, O, O, O, X, X], Mark::Circle);
    assert_eq!(draw.outcome(), Outcome::Draw);
    let column = game_of([O, X, E, O, X, E, E, X, E], Mark::Circle);
    assert_eq!(column.outcome(), Outcome::Win(Mark::Cross));
    let diagonal = game_of([O, X, X, E, O, X, E, E, O], Mark::Cross);
    assert_eq!(diagonal.outcome(), Outcome::Win(Mark::Circle));
    let anti = game_of([O, O, X, E, X, E, X, E, E], Mark::Circle);
    assert_eq!(anti.outcome(), Outcome::Win(Mark::Cross));
    let full_win = game_of([X, X, X, O, O, X, X, O, O], Mark::Circle);
    assert_eq!(full_win.outcome(), Outcome::Win(Mark::Cross));
    assert_eq!(full_win.is_game_ended(), Some(Mark::Cross));
    assert_eq!(draw.is_game_ended(), None);
}

#[test]
fn evaluate_scores_from_fixed_perspective() {
    let cross = game_of([X, X, X, O, O, E, E, E, E], Mark::Circle);
    assert_eq!(cross.evaluate(), WIN_SCORE);
    assert_eq!(cross.evaluate(), 5000);
    let circle = game_of([O, X, X, E, O, X, E, E, O], Mark::Cross);
    assert_eq!(circle.evaluate(), -5000);
    assert_eq!(Game::new().evaluate(), 0);
    let draw = game_of([X, O, X, X, O, O, O, X, X], Mark::Circle);
    assert_eq!(draw.evaluate(), 0);
}

#[test]
fn negamax_scores_for_side_to_move() {
    let mut lost = game_of([X, X, X, O, O, E, E, E, E], Mark::Circle);
    assert_eq!(lost.negamax(), -5000);
    let mut winning = game_of([X, X, E, O, O, E, E, E, E], Mark::Cross);
    let board = winning.board;
    assert_eq!(winning.negamax(), 5000);
    assert_eq!(winning.board, board);
    assert_eq!(winning.turn, Mark::Cross);
    let mut draw = game_of([X, O, X, X, O, O, O, X, X], Mark::Circle);
    assert_eq!(draw.negamax(), 0);
    assert!(NO_SCORE < -5000);
}

#[test]
fn ai_play_on_full_board_fails() {
    let mut game = game_of([X, O, X, X, O, O, O, X, X], Mark::Circle);
    assert_eq!(game.ai_play(), Err(GameError::NoLegalMoves));
    assert_eq!(game.board, [X, O, X, X, O, O, O, X, X]);
    assert_eq!(game.turn, Mark::Circle);
}

#[test]
fn ai_play_breaks_ties_by_lowest_index() {
    let mut game = Game::new();
    assert_eq!(game.ai_play(), Ok(()));
    assert_eq!(game.board[0], O);
    assert_eq!(game.turn, Mark::Cross);
}

#[test]
fn clear_board_resets_cells_and_turn() {
    let mut game = game_of([X, O, E, E, X, E, E, E, E], Mark::Circle);
    game.clear_board();
    assert_eq!(game.board, [E; 9]);
    assert_eq!(game.turn, Mark::Circle);
}

#[test]
fn marks_alternate() {
    assert_eq!(Mark::Circle.other(), Mark::Cross);
    assert_eq!(Mark::Cross.other(), Mark::Circle);
    assert_eq!(Mark::Circle.sign(), -1);
    assert_eq!(Mark::Cross.sign(), 1);
}
