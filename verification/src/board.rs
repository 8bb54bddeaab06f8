//! Marks, move histories, and the board derived from a history.

use vstd::prelude::*;

verus! {

/// The occupant of one board cell. `X` and `O` are the two players' marks
/// (`X` moves first); `Empty` is the derived absence of a move, never a move
/// itself.
#[derive(Debug, Clone, Copy, PartialEq, Eq, Structural)]
pub enum BoardCellType {
    Empty,
    X,
    O,
}

impl BoardCellType {
    /// The conventional one-character symbol for this mark.
    pub open spec fn spec_char(self) -> char {
        match self {
            BoardCellType::Empty => ' ',
            BoardCellType::X => 'X',
            BoardCellType::O => 'O',
        }
    }

    /// Render this mark as its conventional symbol.
    pub fn to_char(&self) -> (c: char)
        ensures
            c == self.spec_char(),
    {
        match self {
            BoardCellType::Empty => ' ',
            BoardCellType::X => 'X',
            BoardCellType::O => 'O',
        }
    }
}

/// The mark placed by the ply at position `i` of a history: marks alternate
/// strictly by position, and the player who moves first plays `X`.
pub open spec fn mark_of_ply(i: int) -> BoardCellType {
    if i % 2 == 0 {
        BoardCellType::X
    } else {
        BoardCellType::O
    }
}

/// A move history is valid when every entry is a cell index in `[0, 8]` and
/// no cell is played twice.
pub open spec fn valid_history(h: Seq<u8>) -> bool {
    &&& forall|i: int| 0 <= i < h.len() ==> h[i] < 9
    &&& h.no_duplicates()
}

/// The mark on cell `c` after the moves of `h`: the alternation mark of the
/// ply that chose `c`, or `Empty` when no ply did.
pub open spec fn cell_mark(h: Seq<u8>, c: u8) -> BoardCellType {
    if h.contains(c) {
        mark_of_ply(h.index_of(c))
    } else {
        BoardCellType::Empty
    }
}

/// The full board derived from the history `h`, as a sequence of 9 marks in
/// row-major cell order.
pub open spec fn board_of(h: Seq<u8>) -> Seq<BoardCellType> {
    Seq::new(9, |c: int| cell_mark(h, c as u8))
}

/// In a history without duplicates, any position holding `c` is the one
/// `index_of` returns, so the mark on `c` is that position's alternation
/// mark.
pub proof fn lemma_cell_mark_at(h: Seq<u8>, i: int)
    requires
        h.no_duplicates(),
        0 <= i < h.len(),
    ensures
        cell_mark(h, h[i]) == mark_of_ply(i),
{
    let c = h[i];
    assert(h.contains(c));
    let w = h.index_of(c);
    assert(h[w] == c);
    assert(w == i);
}

/// Extending a history by one ply changes only the cell that ply plays.
pub proof fn lemma_cell_mark_step(h: Seq<u8>, j: int, c: u8)
    requires
        h.no_duplicates(),
        0 <= j < h.len(),
    ensures
        cell_mark(h.take(j + 1), c) == if h[j] == c {
            mark_of_ply(j)
        } else {
            cell_mark(h.take(j), c)
        },
{
    let h1 = h.take(j + 1);
    let h0 = h.take(j);
    assert(forall|a: int, b: int|
        0 <= a < h.len() && 0 <= b < h.len() && a != b ==> h[a] != h[b]);
    if h[j] == c {
        assert(h1[j] == c);
        assert(h1.contains(c));
        let w = h1.index_of(c);
        assert(h1[w] == c && 0 <= w <= j);
        assert(h[w] == c);
        assert(w == j);
    } else {
        if h1.contains(c) {
            let w1 = h1.index_of(c);
            assert(h1[w1] == c && 0 <= w1 <= j);
            assert(h[w1] == c);
            assert(w1 != j);
            assert(h0[w1] == c);
            assert(h0.contains(c));
        }
        if h0.contains(c) {
            let w0 = h0.index_of(c);
            assert(h0[w0] == c && 0 <= w0 < j);
            assert(h[w0] == c);
            assert(h1[w0] == c);
            assert(h1.contains(c));
            let w1 = h1.index_of(c);
            assert(h1[w1] == c);
            assert(h[w1] == c);
            assert(w1 == w0);
        }
    }
}

/// Derive the occupant of every cell from the move history, scanning the
/// history in order: the ply at position `i` puts its alternation mark on
/// the cell it names.
pub fn derive_board(moves: &Vec<u8>) -> (board: [BoardCellType; 9])
    requires
        valid_history(moves@),
    ensures
        board@ == board_of(moves@),
{
    let mut board: [BoardCellType; 9] = [BoardCellType::Empty; 9];
    proof {
        assert(moves@.take(0) =~= Seq::<u8>::empty());
        assert forall|c: int| 0 <= c < 9 implies board@[c] == cell_mark(
            moves@.take(0),
            c as u8,
        ) by {
            assert(!moves@.take(0).contains(c as u8));
        }
    }
    let mut j: usize = 0;
    while j < moves.len()
        invariant
            valid_history(moves@),
            j <= moves.len(),
            board@.len() == 9,
            forall|c: int| 0 <= c < 9 ==> board@[c] == cell_mark(moves@.take(j as int), c as u8),
        decreases moves.len() - j,
    {
        let cell = moves[j];
        let ghost prev = board@;
        if j % 2 == 0 {
            board[cell as usize] = BoardCellType::X;
        } else {
            board[cell as usize] = BoardCellType::O;
        }
        assert(board@ =~= prev.update(cell as int, mark_of_ply(j as int)));
        proof {
            assert forall|c: int| 0 <= c < 9 implies board@[c] == cell_mark(
                moves@.take(j + 1),
                c as u8,
            ) by {
                lemma_cell_mark_step(moves@, j as int, c as u8);
            }
        }
        j += 1;
    }
    proof {
        assert(moves@.take(moves@.len() as int) =~= moves@);
        assert(board@ =~= board_of(moves@));
    }
    board
}

} // verus!
