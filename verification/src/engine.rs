//! The game engine: the stored move history, the command state machine that
//! changes it, and the queries derived from it.

use vstd::prelude::*;
use vstd::string::StringExecFns;
use crate::board::{BoardCellType, board_of, derive_board, mark_of_ply, valid_history};
use crate::wins::{
    cell_in_line, detect_winning_lines, first_complete_from, is_winning_cell,
    lemma_first_complete_from, lemma_win_line_cells_in_range, line_complete, some_line_complete,
    win_line, win_line_cells, winner_of,
};

verus! {

/// A player's intent, as the renderer forwards it: play a cell, undo the
/// most recent move, or clear the whole board.
#[derive(Debug, Clone, Copy)]
pub enum Message {
    MoveMade(u8),
    Reset,
    Undo,
}

/// The derived status of a game: still open with a player to move, frozen
/// with a winning mark, or drawn with all nine cells filled.
#[derive(Debug, Clone, Copy, PartialEq, Eq, Structural)]
pub enum GameStatus {
    InProgress(BoardCellType),
    Won(BoardCellType),
    Draw,
}

/// The rejection of a cell index outside `[0, 8]`: a caller error, distinct
/// from the silent no-op that answers a merely illegal command.
#[derive(Debug, Clone, Copy, PartialEq, Eq, Structural)]
pub struct InvalidCell;

/// The status derived from history `h`: won by the first completed line's
/// mark, else drawn when all nine cells are filled, else in progress with
/// the alternation mark of the next ply to move.
pub open spec fn status_of(h: Seq<u8>) -> GameStatus {
    match winner_of(board_of(h)) {
        Some(m) => GameStatus::Won(m),
        None => if h.len() == 9 {
            GameStatus::Draw
        } else {
            GameStatus::InProgress(mark_of_ply(h.len() as int))
        },
    }
}

/// A play of `cell` is accepted exactly when the cell is not already taken
/// and the game is not already won.
pub open spec fn play_allowed(h: Seq<u8>, cell: u8) -> bool {
    !h.contains(cell) && !(status_of(h) is Won)
}

/// What a `play` command does to the history: append the cell when the play
/// is accepted, leave the history unchanged when it is not.
pub open spec fn play_transition(h: Seq<u8>, cell: u8) -> Seq<u8> {
    if play_allowed(h, cell) {
        h.push(cell)
    } else {
        h
    }
}

/// What an `undo` command does to the history: remove the most recent move,
/// or nothing when there is none.
pub open spec fn undo_transition(h: Seq<u8>) -> Seq<u8> {
    if h.len() == 0 {
        h
    } else {
        h.drop_last()
    }
}

/// What a `reset` command does to the history: empty it, unconditionally.
pub open spec fn reset_transition(h: Seq<u8>) -> Seq<u8> {
    Seq::empty()
}

/// The display text for history `h`: who won, that the game is drawn, or
/// whose turn it is.
pub open spec fn message_of(h: Seq<u8>) -> Seq<char> {
    match status_of(h) {
        GameStatus::Won(m) => if m == BoardCellType::X {
            "X wins!"@
        } else {
            "O wins!"@
        },
        GameStatus::Draw => "It's a draw!"@,
        GameStatus::InProgress(m) => if m == BoardCellType::X {
            "X to play"@
        } else {
            "O to play"@
        },
    }
}

/// Appending a fresh cell index keeps a history valid.
pub proof fn lemma_play_keeps_valid(h: Seq<u8>, cell: u8)
    requires
        valid_history(h),
        cell < 9,
        !h.contains(cell),
    ensures
        valid_history(h.push(cell)),
{
    let h1 = h.push(cell);
    assert(forall|i: int| 0 <= i < h.len() ==> h1[i] == h[i]);
    assert forall|i: int, j: int|
        0 <= i < h1.len() && 0 <= j < h1.len() && i != j implies h1[i] != h1[j] by {
        if i < h.len() && j < h.len() {
            assert(h[i] != h[j]);
        } else if i < h.len() {
            assert(h1[j] == cell);
            assert(h[i] != cell);
        } else {
            assert(h1[i] == cell);
            assert(h[j] != cell);
        }
    }
}

/// Removing the most recent move keeps a history valid.
pub proof fn lemma_undo_keeps_valid(h: Seq<u8>)
    requires
        valid_history(h),
    ensures
        valid_history(undo_transition(h)),
{
    if h.len() > 0 {
        let h1 = h.drop_last();
        assert(forall|i: int| 0 <= i < h1.len() ==> h1[i] == h[i]);
    }
}

/// The game engine. Its one piece of stored state is the move history; the
/// board, the status, the winning cells and the display text are recomputed
/// from it on every query.
pub struct Game {
    moves: Vec<u8>,
}

impl View for Game {
    type V = Seq<u8>;

    /// A game is modelled by its move history alone.
    closed spec fn view(&self) -> Seq<u8> {
        self.moves@
    }
}

impl Game {
    /// The engine's invariant: its history is valid. Every constructor
    /// establishes it and every command preserves it.
    pub open spec fn wf(&self) -> bool {
        valid_history(self@)
    }

    /// A fresh engine with an empty history.
    pub fn new() -> (game: Game)
        ensures
            game@ == Seq::<u8>::empty(),
            game.wf(),
    {
        Game { moves: Vec::new() }
    }

    /// Whether `cell` has already been played.
    fn contains_move(&self, cell: u8) -> (taken: bool)
        ensures
            taken == self@.contains(cell),
    {
        vec_contains(&self.moves, cell)
    }

    /// The derived board: the occupant of each of the nine cells, in
    /// row-major order.
    pub fn board_cell_types(&self) -> (board: [BoardCellType; 9])
        requires
            self.wf(),
        ensures
            board@ == board_of(self@),
    {
        derive_board(&self.moves)
    }

    /// The mark of the player whose turn it is next: plies alternate and
    /// `X` moves first.
    pub fn current_player(&self) -> (mark: BoardCellType)
        ensures
            mark == mark_of_ply(self@.len() as int),
    {
        if self.moves.len() % 2 == 0 {
            BoardCellType::X
        } else {
            BoardCellType::O
        }
    }

    /// Every completed winning line on the current board, each once, in the
    /// fixed table order: rows, then columns, then diagonals.
    pub fn winning_lines(&self) -> (wins: Vec<(u8, u8, u8)>)
        requires
            self.wf(),
        ensures
            wins@.len() <= 8,
            wins@.no_duplicates(),
            forall|i: int|
                0 <= i < wins@.len() ==> exists|k: int|
                    0 <= k < 8 && #[trigger] wins@[i] == win_line(k) && line_complete(
                        board_of(self@),
                        k,
                    ),
            forall|k: int|
                0 <= k < 8 && #[trigger] line_complete(board_of(self@), k) ==> wins@.contains(
                    win_line(k),
                ),
            forall|i1: int, i2: int, k1: int, k2: int|
                #![trigger wins@[i1], wins@[i2], win_line(k1), win_line(k2)]
                0 <= i1 < i2 < wins@.len() && 0 <= k1 < 8 && 0 <= k2 < 8 && wins@[i1] == win_line(
                    k1,
                ) && wins@[i2] == win_line(k2) ==> k1 < k2,
            wins@.len() > 0 ==> wins@[0] == win_line(first_complete_from(board_of(self@), 0)),
            (wins@.len() > 0) <==> some_line_complete(board_of(self@)),
    {
        let board = self.board_cell_types();
        detect_winning_lines(&board)
    }

    /// Every cell that lies on some completed winning line, each listed
    /// once.
    pub fn winning_squares(&self) -> (cells: Vec<u8>)
        requires
            self.wf(),
        ensures
            cells@.no_duplicates(),
            forall|c: u8| #[trigger] cells@.contains(c) <==> is_winning_cell(board_of(self@), c),
    {
        let ghost b = board_of(self@);
        let board = self.board_cell_types();
        let mut cells: Vec<u8> = Vec::new();
        let mut k: usize = 0;
        while k < 8
            invariant
                k <= 8,
                board@ == b,
                cells@.no_duplicates(),
                forall|c: u8| #[trigger]
                    cells@.contains(c) <==> exists|j: int|
                        0 <= j < k && line_complete(b, j) && cell_in_line(c, j),
            decreases 8 - k,
        {
            let ghost prev = cells@;
            let (c0, c1, c2) = win_line_cells(k);
            let v0 = board[c0 as usize];
            if v0 != BoardCellType::Empty && v0 == board[c1 as usize] && v0 == board[c2 as usize] {
                assert(line_complete(b, k as int));
                push_if_absent(&mut cells, c0);
                push_if_absent(&mut cells, c1);
                push_if_absent(&mut cells, c2);
                assert forall|c: u8| #[trigger]
                    cells@.contains(c) <==> exists|j: int|
                        0 <= j < k + 1 && line_complete(b, j) && cell_in_line(c, j) by {
                    if cells@.contains(c) {
                        if prev.contains(c) {
                            let j = choose|j: int|
                                0 <= j < k && line_complete(b, j) && cell_in_line(c, j);
                            assert(0 <= j < k + 1 && line_complete(b, j) && cell_in_line(c, j));
                        } else {
                            assert(cell_in_line(c, k as int));
                            assert(0 <= (k as int) < k + 1 && line_complete(b, k as int)
                                && cell_in_line(c, k as int));
                        }
                    }
                    if exists|j: int| 0 <= j < k + 1 && line_complete(b, j) && cell_in_line(c, j) {
                        let j = choose|j: int|
                            0 <= j < k + 1 && line_complete(b, j) && cell_in_line(c, j);
                        if j < k {
                            assert(prev.contains(c));
                        } else {
                            assert(cell_in_line(c, k as int));
                        }
                        assert(cells@.contains(c));
                    }
                }
            } else {
                assert(!line_complete(b, k as int));
                assert forall|c: u8| #[trigger]
                    cells@.contains(c) <==> exists|j: int|
                        0 <= j < k + 1 && line_complete(b, j) && cell_in_line(c, j) by {
                    if exists|j: int| 0 <= j < k + 1 && line_complete(b, j) && cell_in_line(c, j) {
                        let j = choose|j: int|
                            0 <= j < k + 1 && line_complete(b, j) && cell_in_line(c, j);
                        assert(j < k);
                    }
                }
            }
            k += 1;
        }
        cells
    }

    /// The winning mark, when some line is completed: the common mark of
    /// the first completed line in table order.
    pub fn winner(&self) -> (winning_mark: Option<BoardCellType>)
        requires
            self.wf(),
        ensures
            winning_mark == winner_of(board_of(self@)),
    {
        let ghost b = board_of(self@);
        let board = self.board_cell_types();
        let wins = detect_winning_lines(&board);
        if wins.len() > 0 {
            let (c0, _c1, _c2) = wins[0];
            proof {
                lemma_first_complete_from(b, 0);
                lemma_win_line_cells_in_range(first_complete_from(b, 0));
            }
            Some(board[c0 as usize])
        } else {
            None
        }
    }

    /// The derived status: won, drawn, or in progress with the next mark.
    pub fn status(&self) -> (current: GameStatus)
        requires
            self.wf(),
        ensures
            current == status_of(self@),
    {
        match self.winner() {
            Some(winning_mark) => GameStatus::Won(winning_mark),
            None => {
                if self.moves.len() == 9 {
                    GameStatus::Draw
                } else {
                    GameStatus::InProgress(self.current_player())
                }
            },
        }
    }

    /// The display text: `"X wins!"` or `"O wins!"` when won, `"It's a
    /// draw!"` when drawn, `"X to play"` or `"O to play"` while in
    /// progress.
    pub fn message(&self) -> (text: String)
        requires
            self.wf(),
        ensures
            text@ == message_of(self@),
    {
        match self.status() {
            GameStatus::Won(m) => {
                if matches!(m, BoardCellType::X) {
                    String::from_str("X wins!")
                } else {
                    String::from_str("O wins!")
                }
            },
            GameStatus::Draw => String::from_str("It's a draw!"),
            GameStatus::InProgress(m) => {
                if matches!(m, BoardCellType::X) {
                    String::from_str("X to play")
                } else {
                    String::from_str("O to play")
                }
            },
        }
    }

    /// Play `cell`. A cell index outside the board is a caller error and is
    /// rejected outright; an occupied cell or a play after a win is a
    /// silent no-op; otherwise the move is appended to the history. The
    /// `Ok` value says whether the move was accepted.
    pub fn play(&mut self, cell: u8) -> (outcome: Result<bool, InvalidCell>)
        requires
            old(self).wf(),
        ensures
            final(self).wf(),
            cell < 9 ==> outcome == Ok::<bool, InvalidCell>(play_allowed(old(self)@, cell))
                && final(self)@ == play_transition(old(self)@, cell),
            cell >= 9 ==> outcome == Err::<bool, InvalidCell>(InvalidCell)
                && final(self)@ == old(self)@,
    {
        if cell >= 9 {
            return Err(InvalidCell);
        }
        if self.contains_move(cell) {
            return Ok(false);
        }
        if self.winner().is_some() {
            return Ok(false);
        }
        proof {
            lemma_play_keeps_valid(self@, cell);
        }
        self.moves.push(cell);
        Ok(true)
    }

    /// Remove the most recent move, by either player; a no-op on an empty
    /// history. Returns whether a move was removed.
    pub fn undo(&mut self) -> (undone: bool)
        requires
            old(self).wf(),
        ensures
            final(self).wf(),
            final(self)@ == undo_transition(old(self)@),
            undone == (old(self)@.len() > 0),
    {
        proof {
            lemma_undo_keeps_valid(self@);
        }
        self.moves.pop().is_some()
    }

    /// Empty the history, unconditionally.
    pub fn reset(&mut self)
        ensures
            final(self).wf(),
            final(self)@ == reset_transition(old(self)@),
    {
        self.moves.clear();
    }

    /// Dispatch one command. `MoveMade` plays its cell, `Undo` removes the
    /// most recent move, `Reset` clears the board; the `Ok` value says
    /// whether the command changed anything.
    pub fn update(&mut self, message: Message) -> (outcome: Result<bool, InvalidCell>)
        requires
            old(self).wf(),
        ensures
            final(self).wf(),
            match message {
                Message::MoveMade(cell) => (cell < 9 ==> outcome == Ok::<bool, InvalidCell>(
                    play_allowed(old(self)@, cell),
                ) && final(self)@ == play_transition(old(self)@, cell)) && (cell >= 9 ==> outcome
                    == Err::<bool, InvalidCell>(InvalidCell) && final(self)@ == old(self)@),
                Message::Undo => outcome == Ok::<bool, InvalidCell>(old(self)@.len() > 0)
                    && final(self)@ == undo_transition(old(self)@),
                Message::Reset => outcome == Ok::<bool, InvalidCell>(true)
                    && final(self)@ == reset_transition(old(self)@),
            },
    {
        match message {
            Message::MoveMade(cell) => self.play(cell),
            Message::Undo => {
                let undone = self.undo();
                Ok(undone)
            },
            Message::Reset => {
                self.reset();
                Ok(true)
            },
        }
    }
}

/// Whether `v` holds the value `x`.
fn vec_contains(v: &Vec<u8>, x: u8) -> (found: bool)
    ensures
        found == v@.contains(x),
{
    let mut i: usize = 0;
    while i < v.len()
        invariant
            i <= v@.len(),
            forall|j: int| 0 <= j < i ==> v@[j] != x,
        decreases v@.len() - i,
    {
        if v[i] == x {
            assert(v@[i as int] == x);
            return true;
        }
        i += 1;
    }
    false
}

/// Appending a value that a sequence does not hold keeps it duplicate-free.
proof fn lemma_push_no_dup(s: Seq<u8>, x: u8)
    requires
        s.no_duplicates(),
        !s.contains(x),
    ensures
        s.push(x).no_duplicates(),
{
    let s1 = s.push(x);
    assert forall|i: int, j: int|
        0 <= i < s1.len() && 0 <= j < s1.len() && i != j implies s1[i] != s1[j] by {
        if i < s.len() && j < s.len() {
            assert(s[i] != s[j]);
        } else if i < s.len() {
            assert(s1[j] == x);
            assert(s[i] != x);
        } else {
            assert(s1[i] == x);
            assert(s[j] != x);
        }
    }
}

/// Append `c` unless it is already present, keeping the list duplicate-free.
fn push_if_absent(cells: &mut Vec<u8>, c: u8)
    requires
        old(cells)@.no_duplicates(),
    ensures
        final(cells)@.no_duplicates(),
        forall|x: u8| #[trigger]
            final(cells)@.contains(x) <==> (old(cells)@.contains(x) || x == c),
{
    let present = vec_contains(cells, c);
    if !present {
        let ghost prev = cells@;
        proof {
            lemma_push_no_dup(cells@, c);
        }
        cells.push(c);
        assert forall|x: u8| #[trigger]
            cells@.contains(x) <==> (prev.contains(x) || x == c) by {
            if cells@.contains(x) {
                let i = choose|i: int| 0 <= i < cells@.len() && cells@[i] == x;
                if i < prev.len() {
                    assert(prev[i] == x);
                    assert(prev.contains(x));
                }
            }
            if prev.contains(x) {
                let i = choose|i: int| 0 <= i < prev.len() && prev[i] == x;
                assert(cells@[i] == x);
                assert(cells@.contains(x));
            }
            if x == c {
                assert(cells@[cells@.len() - 1] == c);
                assert(cells@.contains(x));
            }
        }
    }
}

} // verus!
