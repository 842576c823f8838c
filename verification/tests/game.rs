use gomoku::board::Player;
use gomoku::game::{
    AiEvent, Game, GamePhase, GameResultState, Key, KeyOutcome, UndoOutcome,
};

const B: Player = Player::Black;
const W: Player = Player::White;

const CHOOSE: &str = "Choose your side: Press 'B' for Black, 'W' for White";
const YOUR_TURN_BLACK: &str = "Your turn (Black) | Press 'U' to Undo, 'R' to Restart";
const YOUR_TURN_WHITE: &str = "Your turn (White) | Press 'U' to Undo, 'R' to Restart";
const THINKING: &str = "AI is thinking... | Press 'U' to Undo, 'R' to Restart";

fn playing_as_black() -> Game {
    let mut g = Game::new();
    assert_eq!(g.handle_key(Key::ChooseBlack), KeyOutcome::SideChosen(B));
    g
}

fn cells(g: &Game) -> Vec<Option<Player>> {
    let mut v = Vec::new();
    for y in 0..15 {
        for x in 0..15 {
            v.push(g.board().get(x, y));
        }
    }
    v
}

#[test]
fn new_game_waits_for_side_choice() {
    let g = Game::new();
    assert_eq!(g.phase(), GamePhase::ChooseSide);
    assert_eq!(g.status_text(), CHOOSE);
    assert_eq!(g.current_player(), B);
    assert_eq!(g.human_player(), B);
    assert_eq!(g.move_count(), 0);
    assert_eq!(g.last_move(), None);
    assert_eq!(g.game_result(), None);
    assert!(!g.ai_thinking());
}

#[test]
fn choosing_black_starts_with_players_turn() {
    let g = playing_as_black();
    assert_eq!(g.phase(), GamePhase::Playing);
    assert_eq!(g.human_player(), B);
    assert_eq!(g.status_text(), YOUR_TURN_BLACK);
}

#[test]
fn choosing_white_lets_the_computer_start() {
    let mut g = Game::new();
    assert_eq!(g.handle_key(Key::ChooseWhite), KeyOutcome::SideChosen(W));
    assert_eq!(g.status_text(), THINKING);
    let (board, ai) = g.trigger_ai_move().expect("the computer moves first");
    assert_eq!(ai, B);
    assert_eq!(board.get(7, 7), None);
    assert!(g.ai_thinking());
    assert!(g.trigger_ai_move().is_none());
    assert_eq!(g.handle_ai_result(AiEvent::Move(7, 7)), Some(Ok(())));
    assert!(!g.ai_thinking());
    assert_eq!(g.current_player(), W);
    assert_eq!(g.status_text(), YOUR_TURN_WHITE);
    assert_eq!(g.last_move(), Some((7, 7)));
}

#[test]
fn side_keys_ignored_during_play() {
    let mut g = playing_as_black();
    assert_eq!(g.handle_key(Key::ChooseWhite), KeyOutcome::Ignored);
    assert_eq!(g.human_player(), B);
    assert_eq!(g.handle_key(Key::Quit), KeyOutcome::Quit);
}

#[test]
fn human_move_passes_turn_to_computer() {
    let mut g = playing_as_black();
    assert_eq!(g.human_move(7, 7), Some(Ok(())));
    assert_eq!(g.current_player(), W);
    assert_eq!(g.status_text(), THINKING);
    assert_eq!(g.board().get(7, 7), Some(B));
    assert_eq!(g.move_count(), 1);
    assert_eq!(g.human_move(8, 8), None);
    assert_eq!(g.board().get(8, 8), None);
}

#[test]
fn clicks_ignored_before_side_choice() {
    let mut g = Game::new();
    assert_eq!(g.human_move(7, 7), None);
    assert_eq!(g.move_count(), 0);
}

#[test]
fn refused_moves() {
    let mut g = playing_as_black();
    assert_eq!(g.make_move(15, 3, B), Err("Move out of bounds."));
    assert_eq!(g.make_move(3, 20, B), Err("Move out of bounds."));
    assert_eq!(g.make_move(3, 3, B), Ok(()));
    assert_eq!(g.make_move(3, 3, W), Err("Cell is already occupied."));
    assert_eq!(g.move_count(), 1);
    assert_eq!(g.current_player(), W);
}

#[test]
fn five_in_a_row_wins() {
    let mut g = playing_as_black();
    for i in 0..4 {
        assert_eq!(g.make_move(3 + i, 7, B), Ok(()));
        assert_eq!(g.make_move(3 + i, 8, W), Ok(()));
    }
    assert_eq!(g.game_result(), None);
    assert_eq!(g.make_move(7, 7, B), Ok(()));
    assert_eq!(g.game_result(), Some(GameResultState::Winner(B)));
    assert_eq!(g.phase(), GamePhase::GameOver);
    assert_eq!(g.status_text(), "Black wins! Press 'R' to restart.");
    assert_eq!(g.make_move(0, 0, W), Err("Game is already over."));
    assert_eq!(g.handle_key(Key::Undo), KeyOutcome::CannotUndo);
}

#[test]
fn white_win_message() {
    let mut g = playing_as_black();
    for i in 0..5 {
        assert_eq!(g.make_move(2, 2 + i, W), Ok(()));
    }
    assert_eq!(g.status_text(), "White wins! Press 'R' to restart.");
    assert_eq!(g.game_result(), Some(GameResultState::Winner(W)));
}

#[test]
fn full_board_without_five_is_a_draw() {
    let mut g = playing_as_black();
    for y in 0..15 {
        for x in 0..15 {
            let p = if ((x / 2) + y) % 2 == 0 { B } else { W };
            assert_eq!(g.make_move(x, y, p), Ok(()));
        }
    }
    assert_eq!(g.game_result(), Some(GameResultState::Draw));
    assert_eq!(g.phase(), GamePhase::GameOver);
    assert_eq!(g.status_text(), "It's a draw! Press 'R' to restart.");
    assert_eq!(g.move_count(), 225);
}

#[test]
fn undo_takes_back_move_and_reply() {
    let mut g = playing_as_black();
    assert_eq!(g.human_move(7, 7), Some(Ok(())));
    let before = cells(&g);
    let last = g.last_move();
    assert!(g.trigger_ai_move().is_some());
    assert_eq!(g.handle_ai_result(AiEvent::Move(8, 8)), Some(Ok(())));
    assert_eq!(g.human_move(6, 6), Some(Ok(())));
    assert!(g.trigger_ai_move().is_some());
    assert_eq!(g.handle_key(Key::Undo), KeyOutcome::CannotUndo);
    assert_eq!(g.handle_ai_result(AiEvent::Move(9, 9)), Some(Ok(())));
    assert_eq!(g.handle_key(Key::Undo), KeyOutcome::Undo(UndoOutcome::Undone(2)));
    assert_eq!(g.handle_key(Key::Undo), KeyOutcome::Undo(UndoOutcome::Undone(2)));
    assert_eq!(g.move_count(), 0);
    assert_eq!(g.last_move(), None);
    assert_eq!(g.current_player(), B);
    assert_eq!(g.status_text(), YOUR_TURN_BLACK);
    assert_eq!(g.human_move(7, 7), Some(Ok(())));
    assert_eq!(cells(&g), before);
    assert_eq!(g.last_move(), last);
}

#[test]
fn undo_restores_position_before_the_turn() {
    let mut g = playing_as_black();
    assert_eq!(g.make_move(7, 7, B), Ok(()));
    assert_eq!(g.make_move(8, 7, W), Ok(()));
    let before = cells(&g);
    assert_eq!(g.make_move(7, 8, B), Ok(()));
    assert_eq!(g.make_move(8, 8, W), Ok(()));
    assert_eq!(g.undo_move(), UndoOutcome::Undone(2));
    assert_eq!(cells(&g), before);
    assert_eq!(g.last_move(), Some((8, 7)));
    assert_eq!(g.current_player(), B);
    assert_eq!(g.move_count(), 2);
}

#[test]
fn undo_single_move() {
    let mut g = playing_as_black();
    assert_eq!(g.make_move(4, 5, W), Ok(()));
    assert_eq!(g.undo_move(), UndoOutcome::Undone(1));
    assert_eq!(g.current_player(), W);
    assert_eq!(g.move_count(), 0);
    assert_eq!(g.board().get(4, 5), None);
    assert_eq!(g.status_text(), THINKING);
}

#[test]
fn undo_refused_without_moves_or_outside_play() {
    let mut g = Game::new();
    assert_eq!(g.undo_move(), UndoOutcome::NotAllowed);
    assert_eq!(g.handle_key(Key::Undo), KeyOutcome::CannotUndo);
    let mut g = playing_as_black();
    assert_eq!(g.undo_move(), UndoOutcome::NothingToUndo);
    assert_eq!(g.handle_key(Key::Undo), KeyOutcome::Undo(UndoOutcome::NothingToUndo));
}

#[test]
fn restart_clears_the_game_but_keeps_the_side() {
    let mut g = Game::new();
    g.handle_key(Key::ChooseWhite);
    assert_eq!(g.make_move(7, 7, B), Ok(()));
    assert_eq!(g.handle_key(Key::Restart), KeyOutcome::Restarted);
    assert_eq!(g.phase(), GamePhase::ChooseSide);
    assert_eq!(g.move_count(), 0);
    assert_eq!(g.board().get(7, 7), None);
    assert_eq!(g.current_player(), B);
    assert_eq!(g.human_player(), W);
    assert_eq!(g.status_text(), CHOOSE);
    g.reset_game();
    assert_eq!(g.status_text(), CHOOSE);
}

#[test]
fn refused_computer_move_passes_the_turn() {
    let mut g = playing_as_black();
    assert_eq!(g.human_move(7, 7), Some(Ok(())));
    assert!(g.trigger_ai_move().is_some());
    assert_eq!(g.handle_ai_result(AiEvent::Move(7, 7)), Some(Err("Cell is already occupied.")));
    assert_eq!(g.current_player(), B);
    assert!(!g.ai_thinking());
    assert_eq!(g.status_text(), YOUR_TURN_BLACK);
    assert_eq!(g.move_count(), 1);
}

#[test]
fn lost_search_ends_the_game() {
    let mut g = playing_as_black();
    assert_eq!(g.human_move(7, 7), Some(Ok(())));
    assert!(g.trigger_ai_move().is_some());
    assert_eq!(g.handle_ai_result(AiEvent::Disconnected), None);
    assert_eq!(g.phase(), GamePhase::GameOver);
    assert_eq!(g.status_text(), "AI Error! Press 'R' to restart.");
    assert!(!g.ai_thinking());
    assert_eq!(g.game_result(), None);
}

#[test]
fn check_draw_counts_moves() {
    let mut g = playing_as_black();
    assert!(!g.check_draw());
    assert_eq!(g.make_move(0, 0, B), Ok(()));
    assert!(!g.check_draw());
}

#[test]
fn update_status_text_leaves_finished_game() {
    let mut g = playing_as_black();
    for i in 0..5 {
        assert_eq!(g.make_move(i, 0, B), Ok(()));
    }
    g.update_status_text();
    assert_eq!(g.status_text(), "Black wins! Press 'R' to restart.");
}

#[test]
fn computer_answer_is_accepted() {
    let mut g = playing_as_black();
    assert_eq!(g.human_move(0, 0), Some(Ok(())));
    let (board, ai) = g.trigger_ai_move().expect("computer's turn");
    assert_eq!(ai, W);
    let choice = gomoku::search::ai_choose_move(&board, ai);
    assert_eq!(choice, gomoku::search::AiChoice::Best(1, 1));
    assert_eq!(g.handle_ai_result(AiEvent::Move(1, 1)), Some(Ok(())));
    assert_eq!(g.board().get(1, 1), Some(W));
    assert_eq!(g.current_player(), B);
}

#[test]
fn no_five_stands_before_the_game_ends() {
    let mut g = playing_as_black();
    for i in 0..4 {
        assert_eq!(g.make_move(i, 3, B), Ok(()));
        assert_eq!(gomoku::rules::check_immediate_win(g.board()), None);
        assert_eq!(g.game_result(), None);
    }
    assert_eq!(g.make_move(4, 3, B), Ok(()));
    assert_eq!(gomoku::rules::check_immediate_win(g.board()), Some(B));
    assert_eq!(g.game_result(), Some(GameResultState::Winner(B)));
}
