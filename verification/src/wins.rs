//! The eight fixed winning lines and win detection over a derived board.

use vstd::prelude::*;
use crate::board::BoardCellType;

verus! {

/// The three cells of winning line `k`, for `k` in `[0, 8)`: the three rows,
/// then the three columns, then the two diagonals.
pub open spec fn win_line(k: int) -> (u8, u8, u8) {
    if k == 0 {
        (0u8, 1u8, 2u8)
    } else if k == 1 {
        (3u8, 4u8, 5u8)
    } else if k == 2 {
        (6u8, 7u8, 8u8)
    } else if k == 3 {
        (0u8, 3u8, 6u8)
    } else if k == 4 {
        (1u8, 4u8, 7u8)
    } else if k == 5 {
        (2u8, 5u8, 8u8)
    } else {
        if k == 6 {
            (0u8, 4u8, 8u8)
        } else {
            (2u8, 4u8, 6u8)
        }
    }
}

/// Whether cell `c` belongs to winning line `k`.
pub open spec fn cell_in_line(c: u8, k: int) -> bool {
    c == win_line(k).0 || c == win_line(k).1 || c == win_line(k).2
}

/// Winning line `k` is completed on board `b`: all three of its cells hold
/// the same non-`Empty` mark.
pub open spec fn line_complete(b: Seq<BoardCellType>, k: int) -> bool {
    &&& b[win_line(k).0 as int] != BoardCellType::Empty
    &&& b[win_line(k).0 as int] == b[win_line(k).1 as int]
    &&& b[win_line(k).0 as int] == b[win_line(k).2 as int]
}

/// The common mark of winning line `k` on board `b` (its first cell's mark).
pub open spec fn line_mark(b: Seq<BoardCellType>, k: int) -> BoardCellType {
    b[win_line(k).0 as int]
}

/// Some winning line is completed on board `b`.
pub open spec fn some_line_complete(b: Seq<BoardCellType>) -> bool {
    exists|k: int| 0 <= k < 8 && line_complete(b, k)
}

/// The index of the first completed winning line at or after `k` in the
/// fixed table order; 8 when no line from `k` on is completed.
pub open spec fn first_complete_from(b: Seq<BoardCellType>, k: int) -> int
    decreases 8 - k,
{
    if k < 0 || k >= 8 {
        8
    } else if line_complete(b, k) {
        k
    } else {
        first_complete_from(b, k + 1)
    }
}

/// The winning mark on board `b`: the common mark of the first completed
/// line in table order, or `None` when no line is completed.
pub open spec fn winner_of(b: Seq<BoardCellType>) -> Option<BoardCellType> {
    if some_line_complete(b) {
        Some(line_mark(b, first_complete_from(b, 0)))
    } else {
        None
    }
}

/// Cell `c` belongs to some completed winning line on board `b`.
pub open spec fn is_winning_cell(b: Seq<BoardCellType>, c: u8) -> bool {
    exists|k: int| 0 <= k < 8 && line_complete(b, k) && cell_in_line(c, k)
}

/// Distinct table indices name distinct winning lines.
pub proof fn lemma_win_line_injective(k1: int, k2: int)
    requires
        0 <= k1 < 8,
        0 <= k2 < 8,
        win_line(k1) == win_line(k2),
    ensures
        k1 == k2,
{
}

/// Every cell of every winning line is a valid cell index.
pub proof fn lemma_win_line_cells_in_range(k: int)
    requires
        0 <= k < 8,
    ensures
        win_line(k).0 < 9,
        win_line(k).1 < 9,
        win_line(k).2 < 9,
{
}

/// `first_complete_from(b, k)` really is the first completed line at or
/// after `k`: nothing before it is completed, and it is completed itself
/// exactly when any line from `k` on is.
pub proof fn lemma_first_complete_from(b: Seq<BoardCellType>, k: int)
    requires
        0 <= k <= 8,
    ensures
        k <= first_complete_from(b, k) <= 8,
        first_complete_from(b, k) < 8 ==> line_complete(b, first_complete_from(b, k)),
        forall|j: int| k <= j < first_complete_from(b, k) ==> !line_complete(b, j),
        (first_complete_from(b, k) < 8) <==> exists|j: int| k <= j < 8 && line_complete(b, j),
    decreases 8 - k,
{
    if k < 8 {
        lemma_first_complete_from(b, k + 1);
        if line_complete(b, k) {
        } else {
            if first_complete_from(b, k) < 8 {
            } else {
                assert forall|j: int| k <= j < 8 implies !line_complete(b, j) by {
                    if j > k {
                        assert(!line_complete(b, j));
                    }
                }
            }
        }
    }
}

/// The three cells of winning line `k`, as executable data.
pub fn win_line_cells(k: usize) -> (cells: (u8, u8, u8))
    requires
        k < 8,
    ensures
        cells == win_line(k as int),
        cells.0 < 9,
        cells.1 < 9,
        cells.2 < 9,
{
    if k == 0 {
        (0u8, 1u8, 2u8)
    } else if k == 1 {
        (3u8, 4u8, 5u8)
    } else if k == 2 {
        (6u8, 7u8, 8u8)
    } else if k == 3 {
        (0u8, 3u8, 6u8)
    } else if k == 4 {
        (1u8, 4u8, 7u8)
    } else if k == 5 {
        (2u8, 5u8, 8u8)
    } else if k == 6 {
        (0u8, 4u8, 8u8)
    } else {
        (2u8, 4u8, 6u8)
    }
}

/// Collect the completed winning lines of `board`: exactly the completed
/// lines of the fixed table, each once, in table order.
pub fn detect_winning_lines(board: &[BoardCellType; 9]) -> (wins: Vec<(u8, u8, u8)>)
    ensures
        wins@.len() <= 8,
        wins@.no_duplicates(),
        forall|i: int|
            0 <= i < wins@.len() ==> exists|k: int|
                0 <= k < 8 && #[trigger] wins@[i] == win_line(k) && line_complete(board@, k),
        forall|k: int|
            0 <= k < 8 && #[trigger] line_complete(board@, k) ==> wins@.contains(win_line(k)),
        forall|i1: int, i2: int, k1: int, k2: int|
            #![trigger wins@[i1], wins@[i2], win_line(k1), win_line(k2)]
            0 <= i1 < i2 < wins@.len() && 0 <= k1 < 8 && 0 <= k2 < 8 && wins@[i1] == win_line(k1)
                && wins@[i2] == win_line(k2) ==> k1 < k2,
        wins@.len() > 0 ==> wins@[0] == win_line(first_complete_from(board@, 0)),
        (wins@.len() > 0) <==> some_line_complete(board@),
{
    let mut wins: Vec<(u8, u8, u8)> = Vec::new();
    let mut k: usize = 0;
    while k < 8
        invariant
            k <= 8,
            wins@.len() <= k,
            wins@.no_duplicates(),
            forall|i: int|
                0 <= i < wins@.len() ==> exists|j: int|
                    0 <= j < k && #[trigger] wins@[i] == win_line(j) && line_complete(board@, j),
            forall|j: int|
                0 <= j < k && #[trigger] line_complete(board@, j) ==> wins@.contains(win_line(j)),
            forall|i1: int, i2: int, k1: int, k2: int|
                #![trigger wins@[i1], wins@[i2], win_line(k1), win_line(k2)]
                0 <= i1 < i2 < wins@.len() && 0 <= k1 < 8 && 0 <= k2 < 8 && wins@[i1] == win_line(
                    k1,
                ) && wins@[i2] == win_line(k2) ==> k1 < k2,
            wins@.len() > 0 ==> wins@[0] == win_line(first_complete_from(board@, 0)),
            (wins@.len() > 0) <==> exists|j: int| 0 <= j < k && line_complete(board@, j),
        decreases 8 - k,
    {
        let (c0, c1, c2) = win_line_cells(k);
        let v0 = board[c0 as usize];
        let v1 = board[c1 as usize];
        let v2 = board[c2 as usize];
        if v0 != BoardCellType::Empty && v0 == v1 && v0 == v2 {
            proof {
                assert(line_complete(board@, k as int));
                if wins@.len() == 0 {
                    lemma_first_complete_from(board@, 0);
                    assert(forall|j: int| 0 <= j < k ==> !line_complete(board@, j));
                    assert(first_complete_from(board@, 0) == k as int);
                }
            }
            let ghost prev_wins = wins@;
            wins.push((c0, c1, c2));
            proof {
                assert(wins@.last() == win_line(k as int));
                assert forall|j: int|
                    0 <= j < k + 1 && #[trigger] line_complete(board@, j) implies wins@.contains(
                    win_line(j),
                ) by {
                    if j < k {
                        let w = choose|w: int| 0 <= w < prev_wins.len() && prev_wins[w] == win_line(
                            j,
                        );
                        assert(wins@[w] == win_line(j));
                    } else {
                        assert(wins@[wins@.len() - 1] == win_line(j));
                    }
                }
                assert forall|i1: int, i2: int, k1: int, k2: int|
                    0 <= i1 < i2 < wins@.len() && 0 <= k1 < 8 && 0 <= k2 < 8 && wins@[i1]
                        == win_line(k1) && wins@[i2] == win_line(k2) implies k1 < k2 by {
                    if i2 == wins@.len() - 1 {
                        lemma_win_line_injective(k2, k as int);
                        let j = choose|j: int|
                            0 <= j < k && prev_wins[i1] == win_line(j) && line_complete(board@, j);
                        lemma_win_line_injective(k1, j);
                    } else {
                        assert(prev_wins[i1] == win_line(k1) && prev_wins[i2] == win_line(k2));
                    }
                }
                assert forall|i1: int, i2: int|
                    0 <= i1 < i2 < wins@.len() implies wins@[i1] != wins@[i2] by {
                    if i2 == wins@.len() - 1 {
                        let j = choose|j: int|
                            0 <= j < k && prev_wins[i1] == win_line(j) && line_complete(board@, j);
                        if wins@[i1] == wins@[i2] {
                            lemma_win_line_injective(j, k as int);
                        }
                    } else {
                        assert(prev_wins[i1] != prev_wins[i2]);
                    }
                }
            }
        }
        k += 1;
    }
    wins
}

} // verus!
