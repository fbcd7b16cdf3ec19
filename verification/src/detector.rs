//! Win and draw detection.

use vstd::prelude::*;
use crate::cell_list::holds;

verus! {

/// The eight winning lines: three rows, three columns, two diagonals.
pub const WIN_LINES: [(u8, u8, u8); 8] = [
    (1, 2, 3),
    (4, 5, 6),
    (7, 8, 9),
    (1, 4, 7),
    (2, 5, 8),
    (3, 6, 9),
    (1, 5, 9),
    (3, 5, 7),
];

/// Whether all three cells of `line` are among `occupied`.
pub open spec fn line_within(line: (u8, u8, u8), occupied: Set<u8>) -> bool {
    occupied.contains(line.0) && occupied.contains(line.1) && occupied.contains(line.2)
}

/// Whether `occupied` holds a complete winning line.
pub open spec fn wins(occupied: Set<u8>) -> bool {
    exists|k: int| 0 <= k < 8 && line_within(#[trigger] WIN_LINES@[k], occupied)
}

/// Whether the cells in `occupied` include a complete winning line.
pub fn check_win(occupied: &[u8]) -> (won: bool)
    ensures
        won == wins(occupied@.to_set()),
{
    let mut k: usize = 0;
    while k < 8
        invariant
            k <= 8,
            forall|j: int| 0 <= j < k ==> !line_within(#[trigger] WIN_LINES@[j], occupied@.to_set()),
        decreases 8 - k,
    {
        let line: (u8, u8, u8) = WIN_LINES[k];
        if holds(occupied, line.0) && holds(occupied, line.1) && holds(occupied, line.2) {
            return true;
        }
        k = k + 1;
    }
    false
}

/// Whether no cell is left to claim.
pub fn check_draw(remaining: &[u8]) -> (drawn: bool)
    ensures
        drawn == (remaining@.len() == 0),
{
    remaining.len() == 0
}

/// A set of cells that includes one of the eight lines wins, whatever
/// else it holds.
pub proof fn lemma_line_wins(k: int, occupied: Set<u8>)
    requires
        0 <= k < 8,
        line_within(WIN_LINES@[k], occupied),
    ensures
        wins(occupied),
{
}

/// More cells never take a win away.
pub proof fn lemma_wins_monotone(fewer: Set<u8>, more: Set<u8>)
    requires
        fewer.subset_of(more),
        wins(fewer),
    ensures
        wins(more),
{
    let k = choose|k: int| 0 <= k < 8 && line_within(#[trigger] WIN_LINES@[k], fewer);
    lemma_line_wins(k, more);
}

} // verus!
