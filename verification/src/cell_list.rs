//! Searching a list of cells.

use vstd::prelude::*;

verus! {

/// The first place at which `cell` stands in `cells`, if it is there at all.
pub fn position_of(cells: &[u8], cell: u8) -> (place: Option<usize>)
    ensures
        match place {
            Some(at) => at < cells@.len() && cells@[at as int] == cell && forall|j: int|
                0 <= j < at ==> cells@[j] != cell,
            None => !cells@.contains(cell),
        },
{
    let mut i: usize = 0;
    while i < cells.len()
        invariant
            i <= cells.len(),
            forall|j: int| 0 <= j < i ==> cells@[j] != cell,
        decreases cells.len() - i,
    {
        if cells[i] == cell {
            return Some(i);
        }
        i = i + 1;
    }
    None
}

/// Whether `cell` is among `cells`.
pub fn holds(cells: &[u8], cell: u8) -> (found: bool)
    ensures
        found == cells@.contains(cell),
{
    position_of(cells, cell).is_some()
}

} // verus!
