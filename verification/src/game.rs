//! The game: whose turn it is, the moves played so far, undo and restart, the computer's
//! turn and the status line shown to the player.
use vstd::prelude::*;

use crate::board::{Board, Cells, Player, cell, cell_index, on_board, put};
use crate::rules::{check_win, has_five, wins_through};
use crate::search::Move;

verus! {

/// The status line while the player picks a side.
pub const MSG_CHOOSE_SIDE: &'static str = "Choose your side: Press 'B' for Black, 'W' for White";

/// The status line after a draw.
pub const MSG_DRAW: &'static str = "It's a draw! Press 'R' to restart.";

/// The status line after the computer's search stopped without an answer.
pub const MSG_AI_ERROR: &'static str = "AI Error! Press 'R' to restart.";

/// The end of the status line after a win.
pub const MSG_WINS: &'static str = " wins! Press 'R' to restart.";

/// The status line part while the computer thinks.
pub const MSG_AI_THINKING: &'static str = "AI is thinking...";

/// The start of the status line part on the player's turn.
pub const MSG_YOUR_TURN: &'static str = "Your turn (";

/// The end of the status line part on the player's turn.
pub const MSG_YOUR_TURN_END: &'static str = ")";

/// The end of the status line during play.
pub const MSG_PLAY_KEYS: &'static str = " | Press 'U' to Undo, 'R' to Restart";

/// The name of the black player.
pub const NAME_BLACK: &'static str = "Black";

/// The name of the white player.
pub const NAME_WHITE: &'static str = "White";

/// A move on a game that is over.
pub const ERR_GAME_OVER: &'static str = "Game is already over.";

/// A move off the board.
pub const ERR_OUT_OF_BOUNDS: &'static str = "Move out of bounds.";

/// A move on an occupied cell.
pub const ERR_OCCUPIED: &'static str = "Cell is already occupied.";

/// The stage of the game.
#[derive(Debug, Clone, Copy, PartialEq, Eq, Structural)]
pub enum GamePhase {
    ChooseSide,
    Playing,
    GameOver,
}

/// How a game ended.
#[derive(Debug, Clone, Copy, PartialEq, Eq, Structural)]
pub enum GameResultState {
    Winner(Player),
    Draw,
}

/// What undo did.
#[derive(Debug, Clone, Copy, PartialEq, Eq, Structural)]
pub enum UndoOutcome {
    /// Undo is only possible during play and while the computer is not thinking.
    NotAllowed,
    /// No move has been played.
    NothingToUndo,
    /// This many moves were taken back.
    Undone(usize),
}

/// What the computer's search thread reported.
#[derive(Debug, Clone, Copy, PartialEq, Eq, Structural)]
pub enum AiEvent {
    /// The move it chose, as (column, row).
    Move(usize, usize),
    /// It stopped without an answer.
    Disconnected,
}

/// The keys the game reacts to.
#[derive(Debug, Clone, Copy, PartialEq, Eq, Structural)]
pub enum Key {
    Undo,
    Restart,
    ChooseBlack,
    ChooseWhite,
    Quit,
}

/// What a key press did.
#[derive(Debug, Clone, Copy, PartialEq, Eq, Structural)]
pub enum KeyOutcome {
    Undo(UndoOutcome),
    CannotUndo,
    Restarted,
    SideChosen(Player),
    Quit,
    Ignored,
}

/// A played move: (column, row, player).
pub type HistoryEntry = (usize, usize, Player);

/// The model of a game.
pub struct GameView {
    pub board: Cells,
    pub current_player: Player,
    pub human_player: Player,
    pub phase: GamePhase,
    pub game_result: Option<GameResultState>,
    pub last_move: Option<Move>,
    pub history: Seq<HistoryEntry>,
    pub ai_thinking: bool,
    pub status: Seq<char>,
}

/// The name of a player as the status line writes it.
pub open spec fn player_name(p: Player) -> Seq<char> {
    if p == Player::Black {
        NAME_BLACK@
    } else {
        NAME_WHITE@
    }
}

/// The status line after `p` has won.
pub open spec fn win_text(p: Player) -> Seq<char> {
    player_name(p) + MSG_WINS@
}

/// The status line during play.
pub open spec fn turn_text(current: Player, human: Player) -> Seq<char> {
    (if current == human {
        MSG_YOUR_TURN@ + player_name(current) + MSG_YOUR_TURN_END@
    } else {
        MSG_AI_THINKING@
    }) + MSG_PLAY_KEYS@
}

/// The status line as the status update leaves it: unchanged once the game is over.
pub open spec fn status_after_update(v: GameView) -> Seq<char> {
    if v.phase == GamePhase::GameOver {
        v.status
    } else if v.phase == GamePhase::ChooseSide {
        MSG_CHOOSE_SIDE@
    } else {
        turn_text(v.current_player, v.human_player)
    }
}

/// The game after a status update.
pub open spec fn with_status_update(v: GameView) -> GameView {
    GameView { status: status_after_update(v), ..v }
}

/// The cell of a played move.
pub open spec fn entry_index(e: HistoryEntry) -> int {
    cell_index(e.0 as int, e.1 as int)
}

/// The last move of a history, if any.
pub open spec fn last_of(h: Seq<HistoryEntry>) -> Option<Move> {
    if h.len() == 0 {
        None
    } else {
        Some((h.last().0, h.last().1))
    }
}

/// A well-formed game: the board holds exactly the stones of the history, each move on its
/// own cell; the last move is the last of the history; a result ends the game; a winner has
/// five in a row; a draw came after the 225th move; and without a result nobody has five in
/// a row.
pub open spec fn view_wf(v: GameView) -> bool {
    &&& v.board.len() == 225
    &&& forall|j: int|
        0 <= j < v.history.len() ==> on_board(
            (#[trigger] v.history[j]).0 as int,
            v.history[j].1 as int,
        ) && cell(v.board, v.history[j].0 as int, v.history[j].1 as int) == Some(v.history[j].2)
    &&& forall|j: int, k: int|
        0 <= j < k < v.history.len() ==> entry_index(#[trigger] v.history[j]) != entry_index(
            #[trigger] v.history[k],
        )
    &&& forall|i: int|
        0 <= i < 225 && (#[trigger] v.board[i]) is Some ==> exists|j: int|
            0 <= j < v.history.len() && entry_index(#[trigger] v.history[j]) == i
    &&& v.last_move == last_of(v.history)
    &&& v.game_result is Some ==> v.phase == GamePhase::GameOver
    &&& v.game_result matches Some(GameResultState::Winner(p)) ==> has_five(v.board, p)
    &&& v.game_result matches Some(GameResultState::Draw) ==> v.history.len() == 225
    &&& v.game_result is None ==> !has_five(v.board, Player::Black) && !has_five(
        v.board,
        Player::White,
    )
}

/// The game as it starts, or restarts with `human` as the player's side.
pub open spec fn fresh_view(human: Player) -> GameView {
    GameView {
        board: Seq::new(225, |i: int| None),
        current_player: Player::Black,
        human_player: human,
        phase: GamePhase::ChooseSide,
        game_result: None,
        last_move: None,
        history: Seq::empty(),
        ai_thinking: false,
        status: MSG_CHOOSE_SIDE@,
    }
}

/// Whether a move of `p` at column `x`, row `y` is refused, and why.
pub open spec fn move_outcome(v: GameView, x: usize, y: usize) -> Result<(), &'static str> {
    if v.game_result is Some {
        Err(ERR_GAME_OVER)
    } else if x >= 15 || y >= 15 {
        Err(ERR_OUT_OF_BOUNDS)
    } else if cell(v.board, x as int, y as int) is Some {
        Err(ERR_OCCUPIED)
    } else {
        Ok(())
    }
}

/// The game after `p` plays at column `x`, row `y`: nothing changes if the move is refused;
/// otherwise the stone is placed and recorded, and a five through it wins for `p`, the 225th
/// move draws, and any other move passes the turn to the opponent.
pub open spec fn after_move(v: GameView, x: usize, y: usize, p: Player) -> GameView {
    if move_outcome(v, x, y) is Err {
        v
    } else {
        let b2 = put(v.board, x as int, y as int, Some(p));
        let h2 = v.history.push((x, y, p));
        if wins_through(b2, x as int, y as int, p) {
            GameView {
                board: b2,
                history: h2,
                last_move: Some((x, y)),
                phase: GamePhase::GameOver,
                game_result: Some(GameResultState::Winner(p)),
                status: win_text(p),
                ..v
            }
        } else if h2.len() == 225 {
            GameView {
                board: b2,
                history: h2,
                last_move: Some((x, y)),
                phase: GamePhase::GameOver,
                game_result: Some(GameResultState::Draw),
                status: MSG_DRAW@,
                ..v
            }
        } else {
            with_status_update(
                GameView {
                    board: b2,
                    history: h2,
                    last_move: Some((x, y)),
                    current_player: p.spec_opponent(),
                    ..v
                },
            )
        }
    }
}

/// What undo does: nothing outside of play or while the computer thinks, nothing without
/// moves, and otherwise it takes back the last two moves, or the only one.
pub open spec fn undo_outcome(v: GameView) -> UndoOutcome {
    if v.phase != GamePhase::Playing || v.ai_thinking {
        UndoOutcome::NotAllowed
    } else if v.history.len() == 0 {
        UndoOutcome::NothingToUndo
    } else if v.history.len() >= 2 {
        UndoOutcome::Undone(2)
    } else {
        UndoOutcome::Undone(1)
    }
}

/// The board after the last `k` moves of `h` are taken back.
pub open spec fn board_without_last(b: Cells, h: Seq<HistoryEntry>, k: int) -> Cells
    decreases k,
{
    if k <= 0 {
        b
    } else {
        let e = h[h.len() - k];
        put(board_without_last(b, h, k - 1), e.0 as int, e.1 as int, None)
    }
}

/// The game after undo: the last `n` moves are gone from the board and the history, the
/// turn goes to the player of the earliest of them, the result is cleared and play goes on.
pub open spec fn after_undo(v: GameView) -> GameView {
    match undo_outcome(v) {
        UndoOutcome::Undone(n) => {
            let len = v.history.len();
            with_status_update(
                GameView {
                    board: board_without_last(v.board, v.history, n as int),
                    history: v.history.take(len - n),
                    current_player: v.history[len - n].2,
                    last_move: last_of(v.history.take(len - n)),
                    game_result: None,
                    phase: GamePhase::Playing,
                    ..v
                },
            )
        },
        _ => v,
    }
}

/// Whether it is the computer's turn to start thinking.
pub open spec fn ai_turn_due(v: GameView) -> bool {
    v.current_player != v.human_player && v.phase == GamePhase::Playing && !v.ai_thinking
}

/// The game after the computer's search reported `ev`.
pub open spec fn after_ai_event(v: GameView, ev: AiEvent) -> GameView {
    match ev {
        AiEvent::Move(x, y) => {
            let p = v.current_player;
            let v1 = after_move(v, x, y, p);
            let v2 = if move_outcome(v, x, y) is Err {
                GameView { current_player: p.spec_opponent(), ..v1 }
            } else {
                v1
            };
            with_status_update(GameView { ai_thinking: false, ..v2 })
        },
        AiEvent::Disconnected => GameView {
            ai_thinking: false,
            status: MSG_AI_ERROR@,
            phase: GamePhase::GameOver,
            ..v
        },
    }
}

/// Whether a click of the player places a stone: only during play, on the player's turn and
/// while the computer is not thinking.
pub open spec fn human_may_move(v: GameView) -> bool {
    v.phase == GamePhase::Playing && !v.ai_thinking && v.current_player == v.human_player
}

/// What a key press does.
pub open spec fn key_outcome(v: GameView, key: Key) -> KeyOutcome {
    match key {
        Key::Undo => if v.phase == GamePhase::Playing && !v.ai_thinking {
            KeyOutcome::Undo(undo_outcome(v))
        } else {
            KeyOutcome::CannotUndo
        },
        Key::Restart => KeyOutcome::Restarted,
        Key::ChooseBlack => if v.phase == GamePhase::ChooseSide {
            KeyOutcome::SideChosen(Player::Black)
        } else {
            KeyOutcome::Ignored
        },
        Key::ChooseWhite => if v.phase == GamePhase::ChooseSide {
            KeyOutcome::SideChosen(Player::White)
        } else {
            KeyOutcome::Ignored
        },
        Key::Quit => KeyOutcome::Quit,
    }
}

/// The game after a key press.
pub open spec fn after_key(v: GameView, key: Key) -> GameView {
    match key_outcome(v, key) {
        KeyOutcome::Undo(_) => after_undo(v),
        KeyOutcome::Restarted => fresh_view(v.human_player),
        KeyOutcome::SideChosen(p) => with_status_update(
            GameView { human_player: p, phase: GamePhase::Playing, ..v },
        ),
        _ => v,
    }
}

/// What the keys do. A side key (B or W) acts only while the side is being chosen: then the
/// player takes that side and play starts on the same empty board; at any other time it is
/// ignored and nothing changes. Quit changes nothing. Undo outside play, or while the
/// computer is thinking, is refused and changes nothing. Restart clears the board and the
/// moves and goes back to choosing a side, keeping the player's side. No key but Undo and
/// Restart touches the board or the moves.
pub proof fn lemma_key_effects(v: GameView, key: Key)
    ensures
        (key == Key::ChooseBlack || key == Key::ChooseWhite) && v.phase != GamePhase::ChooseSide
            ==> key_outcome(v, key) == KeyOutcome::Ignored && after_key(v, key) == v,
        key == Key::ChooseBlack && v.phase == GamePhase::ChooseSide ==> key_outcome(v, key)
            == KeyOutcome::SideChosen(Player::Black) && after_key(v, key).human_player
            == Player::Black && after_key(v, key).phase == GamePhase::Playing,
        key == Key::ChooseWhite && v.phase == GamePhase::ChooseSide ==> key_outcome(v, key)
            == KeyOutcome::SideChosen(Player::White) && after_key(v, key).human_player
            == Player::White && after_key(v, key).phase == GamePhase::Playing,
        key == Key::Quit ==> key_outcome(v, key) == KeyOutcome::Quit && after_key(v, key) == v,
        key == Key::Undo && (v.phase != GamePhase::Playing || v.ai_thinking) ==> key_outcome(v, key)
            == KeyOutcome::CannotUndo && after_key(v, key) == v,
        key == Key::Restart ==> key_outcome(v, key) == KeyOutcome::Restarted && after_key(
            v,
            key,
        ).phase == GamePhase::ChooseSide && after_key(v, key).history.len() == 0 && after_key(
            v,
            key,
        ).human_player == v.human_player && forall|i: int|
            0 <= i < 225 ==> #[trigger] after_key(v, key).board[i] is None,
        key != Key::Undo && key != Key::Restart ==> after_key(v, key).board == v.board && after_key(
            v,
            key,
        ).history == v.history && after_key(v, key).game_result == v.game_result,
{
}

proof fn lemma_place_keeps_history(v: GameView, x: usize, y: usize, p: Player)
    requires
        view_wf(v),
        move_outcome(v, x, y) is Ok,
    ensures
        ({
            let b2 = put(v.board, x as int, y as int, Some(p));
            let h2 = v.history.push((x, y, p));
            &&& b2.len() == 225
            &&& forall|j: int|
                0 <= j < h2.len() ==> on_board((#[trigger] h2[j]).0 as int, h2[j].1 as int)
                    && cell(b2, h2[j].0 as int, h2[j].1 as int) == Some(h2[j].2)
            &&& forall|j: int, k: int|
                0 <= j < k < h2.len() ==> entry_index(#[trigger] h2[j]) != entry_index(
                    #[trigger] h2[k],
                )
            &&& forall|i: int|
                0 <= i < 225 && (#[trigger] b2[i]) is Some ==> exists|j: int|
                    0 <= j < h2.len() && entry_index(#[trigger] h2[j]) == i
        }),
{
    let b2 = put(v.board, x as int, y as int, Some(p));
    let h2 = v.history.push((x, y, p));
    let n = v.history.len();
    assert forall|j: int| 0 <= j < n implies entry_index(#[trigger] h2[j]) != cell_index(
        x as int,
        y as int,
    ) by {
        assert(h2[j] == v.history[j]);
        assert(cell(v.board, v.history[j].0 as int, v.history[j].1 as int) is Some);
    }
    assert forall|j: int| 0 <= j < h2.len() implies on_board(
        (#[trigger] h2[j]).0 as int,
        h2[j].1 as int,
    ) && cell(b2, h2[j].0 as int, h2[j].1 as int) == Some(h2[j].2) by {
        if j < n {
            assert(h2[j] == v.history[j]);
        }
    }
    assert forall|j: int, k: int| 0 <= j < k < h2.len() implies entry_index(
        #[trigger] h2[j],
    ) != entry_index(#[trigger] h2[k]) by {
        assert(h2[j] == v.history[j]);
        if k < n {
            assert(h2[k] == v.history[k]);
        }
    }
    assert forall|i: int| 0 <= i < 225 && (#[trigger] b2[i]) is Some implies exists|j: int|
        0 <= j < h2.len() && entry_index(#[trigger] h2[j]) == i by {
        if i == cell_index(x as int, y as int) {
            assert(entry_index(h2[n as int]) == i);
        } else {
            assert(v.board[i] is Some);
            let j = choose|j: int| 0 <= j < n && entry_index(#[trigger] v.history[j]) == i;
            assert(h2[j] == v.history[j]);
        }
    }
}

/// Every move keeps a well-formed game well-formed.
pub proof fn lemma_move_keeps_wf(v: GameView, x: usize, y: usize, p: Player)
    requires
        view_wf(v),
    ensures
        view_wf(after_move(v, x, y, p)),
{
    if move_outcome(v, x, y) is Ok {
        lemma_place_keeps_history(v, x, y, p);
        let b2 = put(v.board, x as int, y as int, Some(p));
        assert(crate::board::stone_at(b2, x as int, y as int, p));
        if wins_through(b2, x as int, y as int, p) {
            crate::rules::lemma_win_check_has_five(b2, x as int, y as int, p);
        } else {
            crate::rules::lemma_win_check_exact(b2, x as int, y as int, p);
            if has_five(b2, Player::Black) {
                crate::rules::lemma_new_five(v.board, x as int, y as int, p, Player::Black);
            }
            if has_five(b2, Player::White) {
                crate::rules::lemma_new_five(v.board, x as int, y as int, p, Player::White);
            }
        }
    }
}

/// Undo keeps a well-formed game well-formed.
pub proof fn lemma_undo_keeps_wf(v: GameView)
    requires
        view_wf(v),
    ensures
        view_wf(after_undo(v)),
{
    if let UndoOutcome::Undone(n) = undo_outcome(v) {
        let h = v.history;
        let len = h.len();
        let b = v.board;
        let e1 = h[len - 1];
        let b1 = put(b, e1.0 as int, e1.1 as int, None);
        assert(board_without_last(b, h, 0) == b);
        assert(board_without_last(b, h, 1) == b1);
        let b2 = board_without_last(b, h, n as int);
        let h2 = h.take(len - n);
        assert(on_board(e1.0 as int, e1.1 as int));
        if n == 2 {
            let e2 = h[len - 2];
            assert(on_board(e2.0 as int, e2.1 as int));
            assert(b2 == put(b1, e2.0 as int, e2.1 as int, None));
        }
        assert(b2.len() == 225);
        // The cleared cells are those of the moves taken back.
        assert forall|i: int|
            0 <= i < 225 && !(exists|j: int| len - n <= j < len && entry_index(#[trigger] h[j]) == i)
                implies b2[i] == b[i] by {
            assert(entry_index(e1) != i);
            if n == 2 {
                assert(entry_index(h[len - 2]) != i);
            }
        }
        assert forall|j: int| 0 <= j < h2.len() implies on_board(
            (#[trigger] h2[j]).0 as int,
            h2[j].1 as int,
        ) && cell(b2, h2[j].0 as int, h2[j].1 as int) == Some(h2[j].2) by {
            assert(h2[j] == h[j]);
            assert forall|k: int| len - n <= k < len implies entry_index(#[trigger] h[k])
                != entry_index(h[j]) by {}
        }
        assert forall|j: int, k: int| 0 <= j < k < h2.len() implies entry_index(
            #[trigger] h2[j],
        ) != entry_index(#[trigger] h2[k]) by {
            assert(h2[j] == h[j]);
            assert(h2[k] == h[k]);
        }
        assert forall|i: int| 0 <= i < 225 && (#[trigger] b2[i]) is Some implies exists|j: int|
            0 <= j < h2.len() && entry_index(#[trigger] h2[j]) == i by {
            if exists|j: int| len - n <= j < len && entry_index(#[trigger] h[j]) == i {
                let j = choose|j: int| len - n <= j < len && entry_index(#[trigger] h[j]) == i;
                if j == len - 1 {
                    assert(b1[i] is None);
                    if n == 2 {
                        let e2 = h[len - 2];
                        assert(entry_index(e2) != i);
                    }
                } else {
                    assert(b2[i] is None);
                }
            } else {
                assert(b[i] is Some);
                let j = choose|j: int| 0 <= j < len && entry_index(#[trigger] h[j]) == i;
                assert(h2[j] == h[j]);
            }
        }
        assert(v.game_result is None);
        if has_five(b1, Player::Black) {
            crate::rules::lemma_cleared_five(b, e1.0 as int, e1.1 as int, Player::Black);
        }
        if has_five(b1, Player::White) {
            crate::rules::lemma_cleared_five(b, e1.0 as int, e1.1 as int, Player::White);
        }
        if n == 2 {
            let e2 = h[len - 2];
            if has_five(b2, Player::Black) {
                crate::rules::lemma_cleared_five(b1, e2.0 as int, e2.1 as int, Player::Black);
            }
            if has_five(b2, Player::White) {
                crate::rules::lemma_cleared_five(b1, e2.0 as int, e2.1 as int, Player::White);
            }
        }
    }
}

/// Undo takes back a turn: from a game in play, after a move of the side to move and a reply,
/// neither of which ends the game, undo restores the board, the history, the last move and
/// the side to move.
pub proof fn lemma_undo_restores(v: GameView, x1: usize, y1: usize, x2: usize, y2: usize, p2: Player)
    requires
        view_wf(v),
        v.phase == GamePhase::Playing,
        !v.ai_thinking,
        move_outcome(v, x1, y1) is Ok,
        move_outcome(after_move(v, x1, y1, v.current_player), x2, y2) is Ok,
        after_move(after_move(v, x1, y1, v.current_player), x2, y2, p2).phase == GamePhase::Playing,
    ensures
        ({
            let u = after_undo(after_move(after_move(v, x1, y1, v.current_player), x2, y2, p2));
            &&& u.board == v.board
            &&& u.history == v.history
            &&& u.last_move == v.last_move
            &&& u.current_player == v.current_player
            &&& u.phase == GamePhase::Playing
            &&& u.game_result is None
        }),
{
    let p1 = v.current_player;
    let v1 = after_move(v, x1, y1, p1);
    let v2 = after_move(v1, x2, y2, p2);
    lemma_move_keeps_wf(v, x1, y1, p1);
    assert(v1.phase == GamePhase::Playing);
    let h = v.history;
    let h2 = v2.history;
    assert(h2 == h.push((x1, y1, p1)).push((x2, y2, p2)));
    assert(h2.take(h.len() as int) =~= h);
    let b = v.board;
    let b1 = put(b, x1 as int, y1 as int, Some(p1));
    let b2 = put(b1, x2 as int, y2 as int, Some(p2));
    assert(v2.board == b2);
    let len = h2.len();
    assert(board_without_last(b2, h2, 0) == b2);
    assert(board_without_last(b2, h2, 1) == put(b2, x2 as int, y2 as int, None));
    let u_board = board_without_last(b2, h2, 2);
    assert(u_board == put(put(b2, x2 as int, y2 as int, None), x1 as int, y1 as int, None));
    assert(cell_index(x1 as int, y1 as int) != cell_index(x2 as int, y2 as int));
    assert(u_board =~= b);
}

/// A draw is declared only on a full board: the 225 moves of a drawn game cover every cell.
pub proof fn lemma_draw_full(v: GameView)
    requires
        view_wf(v),
        v.game_result == Some(GameResultState::Draw),
    ensures
        crate::board::board_full(v.board),
{
    let h = v.history;
    let ix = Seq::new(h.len(), |j: int| entry_index(h[j]));
    assert(ix.no_duplicates()) by {
        assert forall|a: int, b: int| 0 <= a < ix.len() && 0 <= b < ix.len() && a != b implies ix[a]
            != ix[b] by {
            if a < b {
                assert(entry_index(h[a]) != entry_index(h[b]));
            } else {
                assert(entry_index(h[b]) != entry_index(h[a]));
            }
        }
    }
    ix.unique_seq_to_set();
    let range = vstd::set_lib::set_int_range(0, 225);
    vstd::set_lib::lemma_int_range(0, 225);
    assert(ix.to_set().subset_of(range)) by {
        assert forall|i: int| ix.to_set().contains(i) implies range.contains(i) by {
            let j = choose|j: int| 0 <= j < ix.len() && ix[j] == i;
            assert(on_board(h[j].0 as int, h[j].1 as int));
        }
    }
    vstd::seq_lib::seq_to_set_is_finite(ix);
    vstd::set_lib::lemma_subset_equality(ix.to_set(), range);
    assert forall|i: int| 0 <= i < 225 implies (#[trigger] v.board[i]) is Some by {
        assert(range.contains(i));
        assert(ix.to_set().contains(i));
        let j = choose|j: int| 0 <= j < ix.len() && ix[j] == i;
        assert(cell(v.board, h[j].0 as int, h[j].1 as int) == Some(h[j].2));
    }
}

/// The computer's answer is accepted: when it is the computer's turn in a well-formed game
/// and it answers with a move, that move is legal once its turn has started.
pub proof fn lemma_ai_move_accepted(v: GameView, x: usize, y: usize)
    requires
        view_wf(v),
        ai_turn_due(v),
        crate::search::ai_choice(v.board, v.current_player) == Some((x, y)),
    ensures
        move_outcome(with_status_update(GameView { ai_thinking: true, ..v }), x, y) is Ok,
{
    crate::search::lemma_ai_choice_legal(v.board, v.current_player);
}

/// The state of a game of five in a row between the player and the computer.
pub struct Game {
    board: Board,
    current_player: Player,
    human_player: Player,
    phase: GamePhase,
    game_result: Option<GameResultState>,
    last_move: Option<Move>,
    move_history: Vec<HistoryEntry>,
    ai_thinking: bool,
    status_text: String,
}

impl View for Game {
    type V = GameView;

    closed spec fn view(&self) -> GameView {
        GameView {
            board: self.board@,
            current_player: self.current_player,
            human_player: self.human_player,
            phase: self.phase,
            game_result: self.game_result,
            last_move: self.last_move,
            history: self.move_history@,
            ai_thinking: self.ai_thinking,
            status: self.status_text@,
        }
    }
}

/// The name of a player.
fn name_of(p: Player) -> (r: &'static str)
    ensures
        r@ == player_name(p),
{
    if p == Player::Black {
        NAME_BLACK
    } else {
        NAME_WHITE
    }
}

impl Game {
    pub open spec fn wf(&self) -> bool {
        view_wf(self@)
    }

    /// A new game: empty board, Black to move, the player about to pick a side.
    pub fn new() -> (g: Game)
        ensures
            g.wf(),
            g@ == fresh_view(Player::Black),
    {
        let g = Game {
            board: Board::new(),
            current_player: Player::Black,
            human_player: Player::Black,
            phase: GamePhase::ChooseSide,
            game_result: None,
            last_move: None,
            move_history: Vec::new(),
            ai_thinking: false,
            status_text: String::from_str(MSG_CHOOSE_SIDE),
        };
        assert(g@.board =~= fresh_view(Player::Black).board);
        g
    }

    /// Whether all 225 moves have been played.
    pub fn check_draw(&self) -> (r: bool)
        ensures
            r == (self@.history.len() == 225),
    {
        self.move_history.len() == 225
    }

    /// Rewrites the status line: the side choice, or whose turn it is during play; left as
    /// it is once the game is over.
    pub fn update_status_text(&mut self)
        ensures
            final(self)@ == with_status_update(old(self)@),
    {
        if self.phase == GamePhase::GameOver {
            return ;
        }
        if self.phase == GamePhase::ChooseSide {
            self.status_text = String::from_str(MSG_CHOOSE_SIDE);
            return ;
        }
        let current_player_name = name_of(self.current_player);
        let mut text = if self.current_player == self.human_player {
            let mut t = String::from_str(MSG_YOUR_TURN);
            t.append(current_player_name);
            t.append(MSG_YOUR_TURN_END);
            t
        } else {
            String::from_str(MSG_AI_THINKING)
        };
        text.append(MSG_PLAY_KEYS);
        self.status_text = text;
    }

    /// Places a stone of `player` at column `x`, row `y`. Refused when the game is over, the
    /// cell is off the board or occupied. Otherwise the move is recorded; five in a row
    /// through the new stone ends the game with `player` as winner, the 225th move ends it in
    /// a draw, and any other move passes the turn to the opponent.
    pub fn make_move(&mut self, x: usize, y: usize, player: Player) -> (r: Result<(), &'static str>)
        requires
            old(self).wf(),
        ensures
            final(self).wf(),
            r == move_outcome(old(self)@, x, y),
            final(self)@ == after_move(old(self)@, x, y, player),
    {
        proof {
            lemma_move_keeps_wf(self@, x, y, player);
        }
        if self.game_result.is_some() {
            return Err(ERR_GAME_OVER);
        }
        if x >= 15 || y >= 15 {
            return Err(ERR_OUT_OF_BOUNDS);
        }
        if self.board.get(x, y).is_some() {
            return Err(ERR_OCCUPIED);
        }
        self.board.set(x, y, Some(player));
        self.last_move = Some((x, y));
        self.move_history.push((x, y, player));
        if check_win(&self.board, x, y, player) {
            self.phase = GamePhase::GameOver;
            self.game_result = Some(GameResultState::Winner(player));
            let mut text = String::from_str(name_of(player));
            text.append(MSG_WINS);
            self.status_text = text;
        } else if self.check_draw() {
            self.phase = GamePhase::GameOver;
            self.game_result = Some(GameResultState::Draw);
            self.status_text = String::from_str(MSG_DRAW);
        } else {
            self.current_player = player.opponent();
            self.update_status_text();
        }
        Ok(())
    }

    /// Takes back the last two moves (the player's and the computer's), or the only one,
    /// during play and while the computer is not thinking. The turn goes back to the player
    /// of the earliest move taken back.
    pub fn undo_move(&mut self) -> (r: UndoOutcome)
        requires
            old(self).wf(),
        ensures
            final(self).wf(),
            r == undo_outcome(old(self)@),
            final(self)@ == after_undo(old(self)@),
    {
        proof {
            lemma_undo_keeps_wf(self@);
        }
        if self.phase != GamePhase::Playing || self.ai_thinking {
            return UndoOutcome::NotAllowed;
        }
        let num_moves_to_undo: usize = if self.move_history.len() >= 2 {
            2
        } else {
            self.move_history.len()
        };
        if num_moves_to_undo == 0 {
            return UndoOutcome::NothingToUndo;
        }
        let ghost v = self@;
        let ghost h = self.move_history@;
        let ghost len = h.len();
        let mut k: usize = 0;
        while k < num_moves_to_undo
            invariant
                view_wf(v),
                h == v.history,
                len == h.len(),
                1 <= num_moves_to_undo <= 2,
                num_moves_to_undo <= len,
                k <= num_moves_to_undo,
                self.board.wf(),
                self.board@ == board_without_last(v.board, h, k as int),
                self.move_history@ == h.take(len - k),
                k > 0 ==> self.current_player == h[len - k].2,
                k == 0 ==> self.current_player == v.current_player,
                self.human_player == v.human_player,
                self.phase == v.phase,
                self.game_result == v.game_result,
                self.last_move == v.last_move,
                self.ai_thinking == v.ai_thinking,
                self.status_text@ == v.status,
            decreases num_moves_to_undo - k,
        {
            assert(h.take(len - k).drop_last() == h.take(len - k - 1));
            let popped = self.move_history.pop();
            match popped {
                Some((x, y, player)) => {
                    assert((x, y, player) == h[len - k - 1]);
                    assert(on_board(h[len - k - 1].0 as int, h[len - k - 1].1 as int));
                    self.board.set(x, y, None);
                    self.current_player = player;
                },
                None => {},
            }
            k = k + 1;
        }
        let remaining = self.move_history.len();
        self.last_move = if remaining > 0 {
            let e = self.move_history[remaining - 1];
            Some((e.0, e.1))
        } else {
            None
        };
        self.game_result = None;
        self.phase = GamePhase::Playing;
        self.update_status_text();
        UndoOutcome::Undone(num_moves_to_undo)
    }

    /// Starts a new game: empty board, Black to move, the player about to pick a side again.
    pub fn reset_game(&mut self)
        requires
            old(self).wf(),
        ensures
            final(self).wf(),
            final(self)@ == fresh_view(old(self)@.human_player),
    {
        self.board = Board::new();
        self.current_player = Player::Black;
        self.phase = GamePhase::ChooseSide;
        self.game_result = None;
        self.last_move = None;
        self.move_history.clear();
        self.ai_thinking = false;
        self.status_text = String::from_str(MSG_CHOOSE_SIDE);
        assert(self@.board =~= fresh_view(self.human_player).board);
    }

    /// Hands the turn to the computer when it is its turn during play and it is not already
    /// thinking: marks it as thinking and returns a copy of the board and the side it plays.
    pub fn trigger_ai_move(&mut self) -> (r: Option<(Board, Player)>)
        requires
            old(self).wf(),
        ensures
            final(self).wf(),
            ai_turn_due(old(self)@) ==> (r matches Some((b, p)) && b.wf() && b@ == old(self)@.board
                && p == old(self)@.current_player && final(self)@ == with_status_update(
                GameView { ai_thinking: true, ..old(self)@ },
            )),
            !ai_turn_due(old(self)@) ==> r is None && final(self)@ == old(self)@,
    {
        if self.current_player == self.human_player || self.phase != GamePhase::Playing
            || self.ai_thinking {
            return None;
        }
        self.ai_thinking = true;
        self.update_status_text();
        let current_board = self.board.copy();
        Some((current_board, self.current_player))
    }

    /// Takes in what the computer's search reported. A move is played for the side to move;
    /// if it is refused, the turn passes to the other side anyway. Either way the computer
    /// stops thinking. A search that stopped without an answer ends the game with an error
    /// line.
    pub fn handle_ai_result(&mut self, event: AiEvent) -> (r: Option<Result<(), &'static str>>)
        requires
            old(self).wf(),
        ensures
            final(self).wf(),
            final(self)@ == after_ai_event(old(self)@, event),
            r == match event {
                AiEvent::Move(x, y) => Some(move_outcome(old(self)@, x, y)),
                AiEvent::Disconnected => None,
            },
    {
        match event {
            AiEvent::Move(x, y) => {
                let ai_player = self.current_player;
                let result = self.make_move(x, y, ai_player);
                if result.is_err() {
                    self.current_player = ai_player.opponent();
                }
                self.ai_thinking = false;
                self.update_status_text();
                Some(result)
            },
            AiEvent::Disconnected => {
                self.ai_thinking = false;
                self.status_text = String::from_str(MSG_AI_ERROR);
                self.phase = GamePhase::GameOver;
                None
            },
        }
    }

    /// A click of the player on column `x`, row `y`: plays there for the player during play,
    /// on the player's turn and while the computer is not thinking; otherwise does nothing.
    pub fn human_move(&mut self, x: usize, y: usize) -> (r: Option<Result<(), &'static str>>)
        requires
            old(self).wf(),
        ensures
            final(self).wf(),
            human_may_move(old(self)@) ==> r == Some(move_outcome(old(self)@, x, y)),
            human_may_move(old(self)@) ==> final(self)@ == after_move(
                old(self)@,
                x,
                y,
                old(self)@.human_player,
            ),
            !human_may_move(old(self)@) ==> r is None && final(self)@ == old(self)@,
    {
        if self.phase != GamePhase::Playing {
            return None;
        }
        if self.ai_thinking || self.current_player != self.human_player {
            return None;
        }
        let human = self.human_player;
        Some(self.make_move(x, y, human))
    }

    /// A key press: undo (during play, while the computer is not thinking), restart, pick
    /// Black or White (while choosing a side), or quit.
    pub fn handle_key(&mut self, key: Key) -> (r: KeyOutcome)
        requires
            old(self).wf(),
        ensures
            final(self).wf(),
            r == key_outcome(old(self)@, key),
            final(self)@ == after_key(old(self)@, key),
    {
        match key {
            Key::Undo => {
                if self.phase == GamePhase::Playing && !self.ai_thinking {
                    KeyOutcome::Undo(self.undo_move())
                } else {
                    KeyOutcome::CannotUndo
                }
            },
            Key::Restart => {
                self.reset_game();
                KeyOutcome::Restarted
            },
            Key::ChooseBlack => {
                if self.phase == GamePhase::ChooseSide {
                    self.human_player = Player::Black;
                    self.phase = GamePhase::Playing;
                    self.update_status_text();
                    KeyOutcome::SideChosen(Player::Black)
                } else {
                    KeyOutcome::Ignored
                }
            },
            Key::ChooseWhite => {
                if self.phase == GamePhase::ChooseSide {
                    self.human_player = Player::White;
                    self.phase = GamePhase::Playing;
                    self.update_status_text();
                    KeyOutcome::SideChosen(Player::White)
                } else {
                    KeyOutcome::Ignored
                }
            },
            Key::Quit => KeyOutcome::Quit,
        }
    }

    /// The board.
    pub fn board(&self) -> (b: &Board)
        requires
            self.wf(),
        ensures
            b.wf(),
            b@ == self@.board,
    {
        &self.board
    }

    /// The side to move.
    pub fn current_player(&self) -> (p: Player)
        ensures
            p == self@.current_player,
    {
        self.current_player
    }

    /// The player's side.
    pub fn human_player(&self) -> (p: Player)
        ensures
            p == self@.human_player,
    {
        self.human_player
    }

    /// The stage of the game.
    pub fn phase(&self) -> (p: GamePhase)
        ensures
            p == self@.phase,
    {
        self.phase
    }

    /// How the game ended, if it has.
    pub fn game_result(&self) -> (r: Option<GameResultState>)
        ensures
            r == self@.game_result,
    {
        self.game_result
    }

    /// The last move, as (column, row).
    pub fn last_move(&self) -> (m: Option<Move>)
        ensures
            m == self@.last_move,
    {
        self.last_move
    }

    /// Whether the computer is thinking.
    pub fn ai_thinking(&self) -> (t: bool)
        ensures
            t == self@.ai_thinking,
    {
        self.ai_thinking
    }

    /// The number of moves played.
    pub fn move_count(&self) -> (n: usize)
        ensures
            n == self@.history.len(),
    {
        self.move_history.len()
    }

    /// The status line.
    pub fn status_text(&self) -> (t: &str)
        ensures
            t@ == self@.status,
    {
        self.status_text.as_str()
    }
}

} // verus!
