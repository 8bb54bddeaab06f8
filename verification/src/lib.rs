//! A verified engine for a two-player, turn-based game on a 3x3 grid.
//!
//! The stored state is a single move history: an ordered sequence of cell
//! indices. The board, the player whose turn it is, the completed winning
//! lines and the overall status are all derived from that history on demand.
//! Commands (play, undo, reset) are the only way the history changes, and
//! illegal commands are silent no-ops.

pub mod board;
pub mod engine;
pub mod laws;
pub mod wins;

use vstd::prelude::*;

verus! {

/// The sequence `s` split into consecutive rows of `width` elements each,
/// in order; a trailing group shorter than `width` is dropped. When `width`
/// is zero there are no rows.
pub open spec fn rows_of<T>(s: Seq<T>, width: nat) -> Seq<Seq<T>>
    decreases s.len(),
{
    if width == 0 || s.len() < width {
        Seq::empty()
    } else {
        seq![s.take(width as int)] + rows_of(s.skip(width as int), width)
    }
}

/// Reshape a flat vector into a vector of rows of `column_count` elements
/// each, keeping the order; elements left over after the last full row are
/// discarded.
#[allow(non_snake_case)]
pub fn shape_2D<T>(v: Vec<T>, column_count: u8) -> (shaped: Vec<Vec<T>>)
    ensures
        shaped@.map_values(|row: Vec<T>| row@) == rows_of(v@, column_count as nat),
{
    let width = column_count as usize;
    let ghost all = v@;
    let mut rest = v;
    let mut shaped: Vec<Vec<T>> = Vec::new();
    let mut row: Vec<T> = Vec::new();
    proof {
        assert(shaped@.map_values(|r: Vec<T>| r@) =~= Seq::<Seq<T>>::empty());
        assert(Seq::<Seq<T>>::empty().flatten() + row@ + rest@ =~= all);
        assert(Seq::<Seq<T>>::empty() + rows_of(row@ + rest@, width as nat) =~= rows_of(
            row@ + rest@,
            width as nat,
        ));
        assert(row@ + rest@ =~= all);
    }
    while rest.len() > 0
        invariant
            all == shaped@.map_values(|r: Vec<T>| r@).flatten() + row@ + rest@,
            rows_of(all, width as nat) == shaped@.map_values(|r: Vec<T>| r@) + rows_of(
                row@ + rest@,
                width as nat,
            ),
            forall|i: int| 0 <= i < shaped@.len() ==> (#[trigger] shaped@[i])@.len() == width,
            width > 0 ==> row@.len() < width,
            width == 0 ==> shaped@.len() == 0,
            width == column_count,
        decreases rest@.len(),
    {
        let ghost old_row = row@;
        let ghost old_rest = rest@;
        let element = rest.remove(0);
        row.push(element);
        assert(old_row + old_rest == row@ + rest@);
        if row.len() == width {
            let ghost old_shaped = shaped@.map_values(|r: Vec<T>| r@);
            shaped.push(row);
            row = Vec::new();
            proof {
                assert(shaped@.map_values(|r: Vec<T>| r@) =~= old_shaped.push(old_row.push(
                    element,
                )));
                lemma_rows_of_step(old_row.push(element) + rest@, width as nat);
                assert((old_row.push(element) + rest@).take(width as int) =~= old_row.push(
                    element,
                ));
                assert((old_row.push(element) + rest@).skip(width as int) =~= rest@);
                assert(old_shaped.push(old_row.push(element)) + rows_of(rest@, width as nat)
                    =~= old_shaped + (seq![old_row.push(element)] + rows_of(rest@, width as nat)));
                assert(old_shaped.push(old_row.push(element)).flatten() + Seq::<T>::empty() + rest@
                    =~= old_shaped.flatten() + old_row + old_rest) by {
                    old_shaped.lemma_flatten_push(old_row.push(element));
                }
            }
        }
    }
    proof {
        assert(rows_of(row@ + rest@, width as nat) == Seq::<Seq<T>>::empty());
        assert(shaped@.map_values(|r: Vec<T>| r@) + Seq::<Seq<T>>::empty() =~= shaped@.map_values(
            |r: Vec<T>| r@,
        ));
    }
    shaped
}

/// Unfolds one row from the front of `rows_of` when a full row is available.
proof fn lemma_rows_of_step<T>(s: Seq<T>, width: nat)
    requires
        width > 0,
        s.len() >= width,
    ensures
        rows_of(s, width) == seq![s.take(width as int)] + rows_of(s.skip(width as int), width),
{
}

} // verus!
