//! General properties of the engine, stated over the mathematical model
//! and proved once for all histories.

use vstd::prelude::*;
use vstd::set_lib::{lemma_int_range, lemma_len_subset, set_int_range};
use crate::board::{
    BoardCellType, board_of, lemma_cell_mark_at, mark_of_ply, valid_history,
};
use crate::engine::{
    play_allowed, play_transition, reset_transition, status_of, undo_transition,
};
use crate::wins::{cell_in_line, is_winning_cell, line_complete, some_line_complete};

verus! {

/// Alternation: in a valid history the ply at position `i` puts `X` on the
/// cell it names when `i` is even and `O` when `i` is odd, independent of
/// which cells were chosen.
pub proof fn lemma_board_alternation(h: Seq<u8>, i: int)
    requires
        valid_history(h),
        0 <= i < h.len(),
    ensures
        board_of(h)[h[i] as int] == mark_of_ply(i),
{
    lemma_cell_mark_at(h, i);
}

/// A cell that no ply names stays `Empty`.
pub proof fn lemma_unplayed_cell_empty(h: Seq<u8>, c: u8)
    requires
        c < 9,
        !h.contains(c),
    ensures
        board_of(h)[c as int] == BoardCellType::Empty,
{
}

/// A valid history holds at most nine moves: its entries are distinct
/// values drawn from the nine cell indices.
pub proof fn lemma_history_at_most_nine(h: Seq<u8>)
    requires
        valid_history(h),
    ensures
        h.len() <= 9,
{
    let ints = h.map_values(|c: u8| c as int);
    assert forall|i: int, j: int|
        0 <= i < ints.len() && 0 <= j < ints.len() && i != j implies ints[i] != ints[j] by {
        assert(h[i] != h[j]);
    }
    ints.unique_seq_to_set();
    lemma_int_range(0, 9);
    assert forall|x: int| ints.to_set().contains(x) implies set_int_range(0, 9).contains(x) by {
        let i = choose|i: int| 0 <= i < ints.len() && ints[i] == x;
        assert(h[i] < 9);
    }
    lemma_len_subset(ints.to_set(), set_int_range(0, 9));
}

/// Resetting twice yields the same empty history as resetting once.
pub proof fn lemma_reset_idempotent(h: Seq<u8>)
    ensures
        reset_transition(reset_transition(h)) == reset_transition(h),
{
}

/// An accepted play followed by an undo restores the exact prior history.
/// The play must be accepted: after an ignored play, an undo would remove
/// the move made before it instead.
pub proof fn lemma_play_then_undo_round_trip(h: Seq<u8>, cell: u8)
    requires
        play_allowed(h, cell),
    ensures
        undo_transition(play_transition(h, cell)) == h,
{
    assert(h.push(cell).drop_last() =~= h);
}

/// An illegal play -- an occupied cell, or any play once the game is won --
/// leaves the history unchanged, and in particular its length.
pub proof fn lemma_illegal_play_is_no_op(h: Seq<u8>, cell: u8)
    requires
        h.contains(cell) || status_of(h) is Won,
    ensures
        play_transition(h, cell) == h,
        play_transition(h, cell).len() == h.len(),
{
}

/// A winning cell exists only once the game is won.
pub proof fn lemma_winning_cells_only_when_won(h: Seq<u8>, c: u8)
    requires
        is_winning_cell(board_of(h), c),
    ensures
        status_of(h) is Won,
{
    let k = choose|k: int|
        0 <= k < 8 && line_complete(board_of(h), k) && cell_in_line(c, k);
    assert(line_complete(board_of(h), k));
    assert(some_line_complete(board_of(h)));
}

} // verus!
