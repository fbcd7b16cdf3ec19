//! The board: nine cells, numbered 1 to 9 row by row, each empty or held by
//! one side.

use vstd::prelude::*;

verus! {

/// One of the two sides of a game.
#[derive(Clone, Copy, Debug, PartialEq, Eq, Structural)]
pub enum Side {
    /// The human, who moves first.
    Player,
    /// The automated opponent.
    Opponent,
}

/// The state of one cell: `None` while it is empty, otherwise its holder.
pub type Cell = Option<Side>;

/// Whether `cell` names one of the nine positions.
pub open spec fn is_cell(cell: int) -> bool {
    1 <= cell <= 9
}

/// The cells among the first `n` whose state is `what`, in ascending order.
pub open spec fn cells_in_state(cells: Seq<Cell>, what: Cell, n: nat) -> Seq<u8>
    decreases n,
{
    if n == 0 {
        Seq::empty()
    } else {
        let rest = cells_in_state(cells, what, (n - 1) as nat);
        if cells[n - 1] == what {
            rest.push(n as u8)
        } else {
            rest
        }
    }
}

/// The empty cells of a board, in ascending order.
pub open spec fn remaining_cells(cells: Seq<Cell>) -> Seq<u8> {
    cells_in_state(cells, None, 9)
}

/// The cells that `owner` holds, in ascending order.
pub open spec fn occupied_cells(cells: Seq<Cell>, owner: Side) -> Seq<u8> {
    cells_in_state(cells, Some(owner), 9)
}

/// A board on which `cell` has been given to `owner`.
pub open spec fn marked(cells: Seq<Cell>, cell: u8, owner: Side) -> Seq<Cell> {
    cells.update(cell - 1, Some(owner))
}

/// The 3x3 grid.
#[derive(Clone, Copy, Debug)]
pub struct Board {
    cells: [Cell; 9],
}

impl View for Board {
    type V = Seq<Cell>;

    /// The nine cell states; cell `c` stands at index `c - 1`.
    closed spec fn view(&self) -> Seq<Cell> {
        self.cells@
    }
}

impl Board {
    /// A board with every cell empty.
    pub fn new() -> (board: Board)
        ensures
            board@.len() == 9,
            forall|i: int| 0 <= i < 9 ==> board@[i] is None,
    {
        Board { cells: [None; 9] }
    }

    /// The state of `cell`.
    pub fn get(&self, cell: u8) -> (state: Cell)
        requires
            is_cell(cell as int),
        ensures
            state == self@[cell - 1],
    {
        self.cells[(cell - 1) as usize]
    }

    /// Whether `cell` is on the board and nobody holds it.
    pub fn is_empty(&self, cell: u8) -> (empty: bool)
        ensures
            empty == (is_cell(cell as int) && self@[cell - 1] is None),
    {
        if 1 <= cell && cell <= 9 {
            self.cells[(cell - 1) as usize].is_none()
        } else {
            false
        }
    }

    /// The board always has nine cells.
    pub proof fn lemma_nine_cells(&self)
        ensures
            self@.len() == 9,
    {
    }

    /// The cells whose state is `what`, in ascending order.
    fn cells_in(&self, what: Cell) -> (found: Vec<u8>)
        ensures
            found@ == cells_in_state(self@, what, 9),
    {
        let mut found: Vec<u8> = Vec::new();
        let mut cell: u8 = 1;
        while cell <= 9
            invariant
                1 <= cell <= 10,
                found@ == cells_in_state(self@, what, (cell - 1) as nat),
            decreases 10 - cell,
        {
            let state: Cell = self.cells[(cell - 1) as usize];
            let same: bool = match (state, what) {
                (None, None) => true,
                (Some(Side::Player), Some(Side::Player)) => true,
                (Some(Side::Opponent), Some(Side::Opponent)) => true,
                _ => false,
            };
            if same {
                found.push(cell);
            }
            cell = cell + 1;
        }
        found
    }

    /// The cells that `owner` holds, in ascending order.
    pub fn occupied_by(&self, owner: Side) -> (held: Vec<u8>)
        ensures
            held@ == occupied_cells(self@, owner),
    {
        self.cells_in(Some(owner))
    }

    /// The cells that nobody holds, in ascending order.
    pub fn empty_cells(&self) -> (free: Vec<u8>)
        ensures
            free@ == remaining_cells(self@),
    {
        self.cells_in(None)
    }

    /// Gives the empty cell `cell` to `owner`.
    pub fn mark(&mut self, cell: u8, owner: Side)
        requires
            is_cell(cell as int),
            old(self)@[cell - 1] is None,
        ensures
            final(self)@ == marked(old(self)@, cell, owner),
    {
        self.cells[(cell - 1) as usize] = Some(owner);
    }
}

/// What a listing holds: cells in ascending order, each in the state asked
/// for, and none of those among the first `n` left out.
pub proof fn lemma_cells_in_state(cells: Seq<Cell>, what: Cell, n: nat)
    requires
        n <= 255,
    ensures
        cells_in_state(cells, what, n).len() <= n,
        forall|i: int|
            0 <= i < cells_in_state(cells, what, n).len() ==> {
                let c = #[trigger] cells_in_state(cells, what, n)[i];
                1 <= c <= n && cells[c - 1] == what
            },
        forall|i: int, j: int|
            0 <= i < j < cells_in_state(cells, what, n).len() ==> cells_in_state(cells, what, n)[i]
                < cells_in_state(cells, what, n)[j],
        forall|c: u8|
            1 <= c <= n && cells[c - 1] == what ==> cells_in_state(cells, what, n).contains(c),
    decreases n,
{
    if n > 0 {
        let rest = cells_in_state(cells, what, (n - 1) as nat);
        let all = cells_in_state(cells, what, n);
        lemma_cells_in_state(cells, what, (n - 1) as nat);
        assert forall|c: u8| 1 <= c <= n && cells[c - 1] == what implies all.contains(c) by {
            if c == n {
                assert(all[all.len() - 1] == c);
            } else {
                assert(rest.contains(c));
                let i = choose|i: int| 0 <= i < rest.len() && rest[i] == c;
                assert(all[i] == c);
            }
        }
    }
}

/// How a listing changes when one cell changes its state: the cell leaves the
/// listing of its former state, enters that of its new state at its place in
/// the order, and every other listing stays as it was.
pub proof fn lemma_cells_in_state_update(cells: Seq<Cell>, cell: u8, to: Cell, what: Cell, n: nat)
    requires
        cells.len() == 9,
        is_cell(cell as int),
        cells[cell - 1] != to,
        n <= 9,
    ensures
        ({
            let before = cells_in_state(cells, what, n);
            let after = cells_in_state(cells.update(cell - 1, to), what, n);
            let at = cells_in_state(cells, what, (cell - 1) as nat).len() as int;
            if n < cell || (what != to && what != cells[cell - 1]) {
                after == before
            } else if what == to {
                0 <= at <= before.len() && after == before.insert(at, cell)
            } else {
                0 <= at < before.len() && before[at] == cell && after == before.remove(at)
            }
        }),
    decreases n,
{
    let changed = cells.update(cell - 1, to);
    let before = cells_in_state(cells, what, n);
    let after = cells_in_state(changed, what, n);
    let at = cells_in_state(cells, what, (cell - 1) as nat).len() as int;
    if n > 0 {
        let m = (n - 1) as nat;
        lemma_cells_in_state_update(cells, cell, to, what, m);
        let before_m = cells_in_state(cells, what, m);
        let after_m = cells_in_state(changed, what, m);
        if n < cell || (what != to && what != cells[cell - 1]) {
            assert(after == before);
        } else if n == cell {
            assert(after_m == before_m);
            if what == to {
                assert(after == before.insert(at, cell));
            } else {
                assert(after == before.remove(at));
            }
        } else {
            assert(changed[n - 1] == cells[n - 1]);
            if what == to {
                assert(after_m == before_m.insert(at, cell));
                if cells[n - 1] == what {
                    assert(after == before.insert(at, cell));
                }
            } else {
                assert(after_m == before_m.remove(at));
                if cells[n - 1] == what {
                    assert(after == before.remove(at));
                }
            }
        }
    }
}

/// Marking an empty cell takes exactly that cell out of the empty ones, adds
/// it to those of its new holder, and leaves the other side's as they were.
pub proof fn lemma_marked(cells: Seq<Cell>, cell: u8, owner: Side, at: int)
    requires
        cells.len() == 9,
        0 <= at < remaining_cells(cells).len(),
        remaining_cells(cells)[at] == cell,
    ensures
        is_cell(cell as int),
        cells[cell - 1] is None,
        remaining_cells(marked(cells, cell, owner)) == remaining_cells(cells).remove(at),
        occupied_cells(marked(cells, cell, owner), owner).len() == occupied_cells(
            cells,
            owner,
        ).len() + 1,
        forall|other: Side|
            other != owner ==> occupied_cells(marked(cells, cell, owner), other) == occupied_cells(
                cells,
                other,
            ),
{
    lemma_cells_in_state(cells, None, 9);
    lemma_cells_in_state_update(cells, cell, Some(owner), None, 9);
    lemma_cells_in_state_update(cells, cell, Some(owner), Some(owner), 9);
    assert forall|other: Side| other != owner implies occupied_cells(
        marked(cells, cell, owner),
        other,
    ) == occupied_cells(cells, other) by {
        lemma_cells_in_state_update(cells, cell, Some(owner), Some(other), 9);
    }
}

/// Every cell is in exactly one state, so the three listings share out the
/// first `n` cells between them.
pub proof fn lemma_cells_partition(cells: Seq<Cell>, n: nat)
    requires
        cells.len() == 9,
        n <= 9,
    ensures
        cells_in_state(cells, None, n).len() + cells_in_state(cells, Some(Side::Player), n).len()
            + cells_in_state(cells, Some(Side::Opponent), n).len() == n,
    decreases n,
{
    if n > 0 {
        lemma_cells_partition(cells, (n - 1) as nat);
        match cells[n - 1] {
            None => {},
            Some(Side::Player) => {},
            Some(Side::Opponent) => {},
        }
    }
}

/// The remaining cells are the empty cells of the board, each of them once.
pub proof fn lemma_remaining_cells(cells: Seq<Cell>)
    requires
        cells.len() == 9,
    ensures
        remaining_cells(cells).no_duplicates(),
        forall|c: u8|
            #[trigger] remaining_cells(cells).contains(c) <==> is_cell(c as int) && cells[c - 1] is None,
{
    lemma_cells_in_state(cells, None, 9);
}

/// A claim gives one empty cell to its new holder and touches nothing
/// else: every other cell keeps its state, and the remaining cells are
/// those of before without the one claimed.
pub proof fn lemma_claim(cells: Seq<Cell>, cell: u8, owner: Side)
    requires
        cells.len() == 9,
        remaining_cells(cells).contains(cell),
    ensures
        is_cell(cell as int),
        cells[cell - 1] is None,
        marked(cells, cell, owner)[cell - 1] == Some(owner),
        forall|c: int| is_cell(c) && c != cell ==> marked(cells, cell, owner)[c - 1] == cells[c - 1],
        forall|c: u8|
            #[trigger] remaining_cells(marked(cells, cell, owner)).contains(c) <==> remaining_cells(
                cells,
            ).contains(c) && c != cell,
{
    lemma_remaining_cells(cells);
    assert(is_cell(cell as int));
    lemma_remaining_cells(marked(cells, cell, owner));
}

/// The board after the claims `moves`, made in that order.
pub open spec fn board_after(cells: Seq<Cell>, moves: Seq<(u8, Side)>) -> Seq<Cell>
    decreases moves.len(),
{
    if moves.len() == 0 {
        cells
    } else {
        marked(board_after(cells, moves.drop_last()), moves.last().0, moves.last().1)
    }
}

/// Whether each of `moves` claims a cell that is empty when its turn comes.
pub open spec fn claims_in_turn(cells: Seq<Cell>, moves: Seq<(u8, Side)>) -> bool
    decreases moves.len(),
{
    moves.len() == 0 || {
        &&& claims_in_turn(cells, moves.drop_last())
        &&& remaining_cells(board_after(cells, moves.drop_last())).contains(moves.last().0)
    }
}

/// Over a whole history of claims no cell is given away twice: the claims
/// name different cells, each cell claimed belongs to the side that claimed
/// it, and the cells that remain are those of the start that nobody
/// claimed.
pub proof fn lemma_claimed_once(cells: Seq<Cell>, moves: Seq<(u8, Side)>)
    requires
        cells.len() == 9,
        claims_in_turn(cells, moves),
    ensures
        board_after(cells, moves).len() == 9,
        forall|i: int, j: int| 0 <= i < j < moves.len() ==> moves[i].0 != moves[j].0,
        forall|i: int|
            0 <= i < moves.len() ==> remaining_cells(cells).contains(moves[i].0) && board_after(
                cells,
                moves,
            )[moves[i].0 - 1] == Some(moves[i].1),
        forall|c: u8|
            #[trigger] remaining_cells(board_after(cells, moves)).contains(c) <==> remaining_cells(
                cells,
            ).contains(c) && forall|i: int| 0 <= i < moves.len() ==> moves[i].0 != c,
    decreases moves.len(),
{
    if moves.len() > 0 {
        let earlier = moves.drop_last();
        let (cell, owner) = moves.last();
        let before = board_after(cells, earlier);
        lemma_claimed_once(cells, earlier);
        lemma_claim(before, cell, owner);
        assert forall|i: int, j: int| 0 <= i < j < moves.len() implies moves[i].0 != moves[j].0 by {
            if j == moves.len() - 1 {
                assert(moves[i] == earlier[i]);
            } else {
                assert(moves[i] == earlier[i] && moves[j] == earlier[j]);
            }
        }
        assert forall|i: int| 0 <= i < moves.len() implies remaining_cells(cells).contains(
            moves[i].0,
        ) && board_after(cells, moves)[moves[i].0 - 1] == Some(moves[i].1) by {
            if i < moves.len() - 1 {
                assert(moves[i] == earlier[i]);
                assert(before[earlier[i].0 - 1] == Some(earlier[i].1));
                assert(is_cell(moves[i].0 as int)) by {
                    lemma_remaining_cells(cells);
                }
                assert(moves[i].0 != cell);
            } else {
                assert(remaining_cells(before).contains(cell));
            }
        }
        assert forall|c: u8|
            remaining_cells(board_after(cells, moves)).contains(c) <==> remaining_cells(
                cells,
            ).contains(c) && forall|i: int| 0 <= i < moves.len() ==> moves[i].0 != c by {
            if remaining_cells(before).contains(c) && c != cell {
                assert forall|i: int| 0 <= i < moves.len() implies moves[i].0 != c by {
                    if i < moves.len() - 1 {
                        assert(moves[i] == earlier[i]);
                    }
                }
            }
            if remaining_cells(cells).contains(c) && forall|i: int|
                0 <= i < moves.len() ==> moves[i].0 != c {
                assert(moves[moves.len() - 1].0 != c);
                assert forall|i: int| 0 <= i < earlier.len() implies earlier[i].0 != c by {
                    assert(moves[i] == earlier[i]);
                }
            }
        }
    }
}

} // verus!
