//! The turn controller: one game from the empty board to its outcome.
//!
//! A turn is the player's move and then the opponent's. After each of the
//! two the game says what it waits for next, or how it ended.

use crate::board::{
    is_cell, lemma_cells_partition, lemma_claim, lemma_marked, lemma_remaining_cells, marked,
    occupied_cells, remaining_cells, Board, Cell, Side,
};
use crate::cell_list::position_of;
use crate::detector::{check_draw, check_win, line_within, wins, WIN_LINES};
use crate::selector::{select, select_at};
use crate::validator::{validate, validation, ValidationError};
use vstd::prelude::*;

verus! {

/// What a game waits for, or how it ended.
#[derive(Clone, Copy, Debug, PartialEq, Eq, Structural)]
pub enum Status {
    /// The player is to name a cell.
    AwaitingPlayer,
    /// The player has moved and the opponent is to answer.
    AwaitingOpponent,
    /// The player completed a line.
    PlayerWon,
    /// The opponent completed a line.
    OpponentWon,
    /// Every cell is claimed and nobody completed a line.
    Draw,
}

/// A game as the rules see it.
pub struct GameView {
    /// The nine cell states; cell `c` stands at index `c - 1`.
    pub cells: Seq<Cell>,
    /// The number of moves that the player has made.
    pub turn: nat,
    /// What the game waits for, or how it ended.
    pub status: Status,
}

/// Whether a move is awaited.
pub open spec fn is_running(game: GameView) -> bool {
    game.status == Status::AwaitingPlayer || game.status == Status::AwaitingOpponent
}

/// Whether `side` holds a complete winning line.
pub open spec fn has_won(cells: Seq<Cell>, side: Side) -> bool {
    wins(occupied_cells(cells, side).to_set())
}

/// The game before any move.
pub open spec fn initial() -> GameView {
    GameView { cells: Seq::new(9, |i: int| None), turn: 0, status: Status::AwaitingPlayer }
}

/// The game after the player has claimed `cell`. From the third turn on a
/// completed line ends the game, and failing that a full board does.
pub open spec fn after_player(game: GameView, cell: u8) -> GameView {
    let cells = marked(game.cells, cell, Side::Player);
    let turn = game.turn + 1;
    GameView {
        cells,
        turn,
        status: if turn >= 3 && has_won(cells, Side::Player) {
            Status::PlayerWon
        } else if turn >= 3 && remaining_cells(cells).len() == 0 {
            Status::Draw
        } else {
            Status::AwaitingOpponent
        },
    }
}

/// The game after the opponent has claimed `cell`. From the third turn on
/// a completed line ends the game.
pub open spec fn after_opponent(game: GameView, cell: u8) -> GameView {
    let cells = marked(game.cells, cell, Side::Opponent);
    GameView {
        cells,
        turn: game.turn,
        status: if game.turn >= 3 && has_won(cells, Side::Opponent) {
            Status::OpponentWon
        } else {
            Status::AwaitingPlayer
        },
    }
}

/// What holds of every game that was played by the rules: the player has
/// made as many marks as turns were counted, the opponent as many or one
/// less, and the status says who completed a line, if anybody.
pub open spec fn valid(game: GameView) -> bool {
    let player = occupied_cells(game.cells, Side::Player).len();
    let opponent = occupied_cells(game.cells, Side::Opponent).len();
    &&& game.cells.len() == 9
    &&& player == game.turn
    &&& match game.status {
        Status::AwaitingPlayer => {
            &&& opponent == game.turn
            &&& !has_won(game.cells, Side::Player)
            &&& !has_won(game.cells, Side::Opponent)
        },
        Status::AwaitingOpponent => {
            &&& opponent + 1 == game.turn
            &&& remaining_cells(game.cells).len() > 0
            &&& !has_won(game.cells, Side::Player)
            &&& !has_won(game.cells, Side::Opponent)
        },
        Status::PlayerWon => {
            &&& opponent + 1 == game.turn
            &&& has_won(game.cells, Side::Player)
            &&& !has_won(game.cells, Side::Opponent)
        },
        Status::OpponentWon => {
            &&& opponent == game.turn
            &&& has_won(game.cells, Side::Opponent)
            &&& !has_won(game.cells, Side::Player)
        },
        Status::Draw => {
            &&& opponent + 1 == game.turn
            &&& remaining_cells(game.cells).len() == 0
            &&& !has_won(game.cells, Side::Player)
            &&& !has_won(game.cells, Side::Opponent)
        },
    }
}

/// A line cannot be completed with fewer than three marks, so nothing is
/// lost by looking for a winner from the third turn on only.
pub proof fn lemma_win_needs_three_marks(cells: Seq<Cell>, side: Side)
    requires
        cells.len() == 9,
        has_won(cells, side),
    ensures
        occupied_cells(cells, side).len() >= 3,
{
    let held = occupied_cells(cells, side);
    let k = choose|k: int| 0 <= k < 8 && line_within(#[trigger] WIN_LINES@[k], held.to_set());
    let line = WIN_LINES@[k];
    assert(line.0 != line.1 && line.1 != line.2 && line.0 != line.2);
    assert(held.contains(line.0) && held.contains(line.1) && held.contains(line.2));
    let a = choose|i: int| 0 <= i < held.len() && held[i] == line.0;
    let b = choose|i: int| 0 <= i < held.len() && held[i] == line.1;
    let c = choose|i: int| 0 <= i < held.len() && held[i] == line.2;
    assert(a != b && b != c && a != c);
}

/// The marks on the board and the cells left add up to nine, whatever the
/// game waits for: while the player is awaited the two sides have marked
/// equally often, otherwise the player is one mark ahead or the opponent
/// has just drawn level by winning.
pub proof fn lemma_marks_and_turns(game: GameView)
    requires
        valid(game),
    ensures
        game.turn <= 5,
        remaining_cells(game.cells).len() == match game.status {
            Status::AwaitingPlayer | Status::OpponentWon => 9 - 2 * game.turn,
            _ => 10 - 2 * game.turn,
        },
{
    lemma_cells_partition(game.cells, 9);
}

/// Whenever a move is awaited there is a cell to claim: the board is never
/// full while the game is still running.
pub proof fn lemma_awaited_move_exists(game: GameView)
    requires
        valid(game),
        is_running(game),
    ensures
        remaining_cells(game.cells).len() > 0,
        game.turn <= 4,
{
    lemma_marks_and_turns(game);
}

/// The empty board is a valid game, and each of the nine cells is among
/// the remaining ones exactly once.
pub proof fn lemma_initial()
    ensures
        valid(initial()),
        remaining_cells(initial().cells) == seq![1u8, 2u8, 3u8, 4u8, 5u8, 6u8, 7u8, 8u8, 9u8],
{
    let cells = initial().cells;
    reveal_with_fuel(crate::board::cells_in_state, 10);
    assert(remaining_cells(cells) == seq![1u8, 2u8, 3u8, 4u8, 5u8, 6u8, 7u8, 8u8, 9u8]);
    assert(occupied_cells(cells, Side::Player).len() == 0);
    assert(occupied_cells(cells, Side::Opponent).len() == 0);
    if has_won(cells, Side::Player) {
        lemma_win_needs_three_marks(cells, Side::Player);
    }
    if has_won(cells, Side::Opponent) {
        lemma_win_needs_three_marks(cells, Side::Opponent);
    }
}

/// A move of the player on a remaining cell keeps the game valid.
pub proof fn lemma_after_player_valid(game: GameView, cell: u8)
    requires
        valid(game),
        game.status == Status::AwaitingPlayer,
        remaining_cells(game.cells).contains(cell),
    ensures
        valid(after_player(game, cell)),
{
    let next = after_player(game, cell);
    let at = choose|i: int|
        0 <= i < remaining_cells(game.cells).len() && remaining_cells(game.cells)[i] == cell;
    lemma_marked(game.cells, cell, Side::Player, at);
    lemma_cells_partition(game.cells, 9);
    lemma_cells_partition(next.cells, 9);
    if has_won(next.cells, Side::Player) {
        lemma_win_needs_three_marks(next.cells, Side::Player);
    }
}

/// A move of the opponent on a remaining cell keeps the game valid.
pub proof fn lemma_after_opponent_valid(game: GameView, cell: u8)
    requires
        valid(game),
        game.status == Status::AwaitingOpponent,
        remaining_cells(game.cells).contains(cell),
    ensures
        valid(after_opponent(game, cell)),
{
    let next = after_opponent(game, cell);
    let at = choose|i: int|
        0 <= i < remaining_cells(game.cells).len() && remaining_cells(game.cells)[i] == cell;
    lemma_marked(game.cells, cell, Side::Opponent, at);
    if has_won(next.cells, Side::Opponent) {
        lemma_win_needs_three_marks(next.cells, Side::Opponent);
    }
}

/// Looking for an end of the game from the third turn on only misses
/// nothing: in a valid game the status after the player's move is what it
/// would be if the winner and the full board were looked for every time,
/// the win first.
pub proof fn lemma_turn_gate_player(game: GameView, cell: u8)
    requires
        valid(game),
        game.status == Status::AwaitingPlayer,
        remaining_cells(game.cells).contains(cell),
    ensures
        after_player(game, cell).status == if has_won(after_player(game, cell).cells, Side::Player) {
            Status::PlayerWon
        } else if remaining_cells(after_player(game, cell).cells).len() == 0 {
            Status::Draw
        } else {
            Status::AwaitingOpponent
        },
{
    lemma_after_player_valid(game, cell);
}

/// The same of the opponent's move: its status is what it would be if a
/// winner were looked for every time. The board is not full then, so no
/// draw goes unseen.
pub proof fn lemma_turn_gate_opponent(game: GameView, cell: u8)
    requires
        valid(game),
        game.status == Status::AwaitingOpponent,
        remaining_cells(game.cells).contains(cell),
    ensures
        after_opponent(game, cell).status == if has_won(
            after_opponent(game, cell).cells,
            Side::Opponent,
        ) {
            Status::OpponentWon
        } else {
            Status::AwaitingPlayer
        },
        remaining_cells(after_opponent(game, cell).cells).len() > 0,
{
    lemma_after_opponent_valid(game, cell);
    lemma_marks_and_turns(after_opponent(game, cell));
}

/// The game after the side to move has claimed `cell`; a game that has
/// ended stays as it is.
pub open spec fn after_move(game: GameView, cell: u8) -> GameView {
    match game.status {
        Status::AwaitingPlayer => after_player(game, cell),
        Status::AwaitingOpponent => after_opponent(game, cell),
        _ => game,
    }
}

/// The game after the claims `moves`, made from the empty board on by the
/// two sides in turn.
pub open spec fn game_after(moves: Seq<u8>) -> GameView
    decreases moves.len(),
{
    if moves.len() == 0 {
        initial()
    } else {
        after_move(game_after(moves.drop_last()), moves.last())
    }
}

/// Whether each of `moves` is made while a move is awaited and claims a
/// cell that remains then.
pub open spec fn by_the_rules(moves: Seq<u8>) -> bool
    decreases moves.len(),
{
    moves.len() == 0 || {
        &&& by_the_rules(moves.drop_last())
        &&& is_running(game_after(moves.drop_last()))
        &&& remaining_cells(game_after(moves.drop_last()).cells).contains(moves.last())
    }
}

/// Of every game played by the rules: it is valid; no cell is claimed
/// twice in its history; the cells claimed are the player's and the
/// opponent's by turns, and stay theirs; the cells that remain are those
/// that nobody has claimed; and the player is awaited after an even number
/// of claims, the opponent after an odd one.
pub proof fn lemma_games_by_the_rules(moves: Seq<u8>)
    requires
        by_the_rules(moves),
    ensures
        valid(game_after(moves)),
        moves.len() <= 9,
        remaining_cells(game_after(moves).cells).len() + moves.len() == 9,
        forall|i: int, j: int| 0 <= i < j < moves.len() ==> moves[i] != moves[j],
        forall|i: int|
            0 <= i < moves.len() ==> is_cell(moves[i] as int) && game_after(moves).cells[moves[i]
                - 1] == Some(
                if i % 2 == 0 {
                    Side::Player
                } else {
                    Side::Opponent
                },
            ),
        forall|c: u8|
            #[trigger] remaining_cells(game_after(moves).cells).contains(c) <==> is_cell(c as int)
                && forall|i: int| 0 <= i < moves.len() ==> moves[i] != c,
        game_after(moves).status == Status::AwaitingPlayer ==> moves.len() % 2 == 0,
        game_after(moves).status == Status::AwaitingOpponent ==> moves.len() % 2 == 1,
    decreases moves.len(),
{
    if moves.len() == 0 {
        lemma_initial();
        lemma_remaining_cells(initial().cells);
    } else {
        let earlier = moves.drop_last();
        let cell = moves.last();
        let before = game_after(earlier);
        let after = game_after(moves);
        lemma_games_by_the_rules(earlier);
        let owner = if before.status == Status::AwaitingPlayer {
            lemma_after_player_valid(before, cell);
            Side::Player
        } else {
            lemma_after_opponent_valid(before, cell);
            Side::Opponent
        };
        assert(after.cells == marked(before.cells, cell, owner));
        lemma_claim(before.cells, cell, owner);
        lemma_marks_and_turns(before);
        lemma_marks_and_turns(after);
        assert forall|i: int, j: int| 0 <= i < j < moves.len() implies moves[i] != moves[j] by {
            assert(moves[i] == earlier[i]);
            if j < moves.len() - 1 {
                assert(moves[j] == earlier[j]);
            }
        }
        assert forall|i: int| 0 <= i < moves.len() implies is_cell(moves[i] as int)
            && after.cells[moves[i] - 1] == Some(
            if i % 2 == 0 {
                Side::Player
            } else {
                Side::Opponent
            },
        ) by {
            if i < moves.len() - 1 {
                assert(moves[i] == earlier[i]);
                assert(moves[i] != cell);
            }
        }
        assert forall|c: u8| #[trigger]
            remaining_cells(after.cells).contains(c) <==> is_cell(c as int) && forall|i: int|
                0 <= i < moves.len() ==> moves[i] != c by {
            if remaining_cells(before.cells).contains(c) && c != cell {
                assert forall|i: int| 0 <= i < moves.len() implies moves[i] != c by {
                    if i < moves.len() - 1 {
                        assert(moves[i] == earlier[i]);
                    }
                }
            }
            if is_cell(c as int) && forall|i: int| 0 <= i < moves.len() ==> moves[i] != c {
                assert(moves[moves.len() - 1] != c);
                assert forall|i: int| 0 <= i < earlier.len() implies earlier[i] != c by {
                    assert(moves[i] == earlier[i]);
                }
            }
        }
    }
}

/// One game: the board, the cells still empty, the turn counter and the
/// status, kept in step with one another.
#[derive(Debug)]
pub struct Game {
    board: Board,
    remaining: Vec<u8>,
    turn: u8,
    status: Status,
}

impl View for Game {
    type V = GameView;

    closed spec fn view(&self) -> GameView {
        GameView { cells: self.board@, turn: self.turn as nat, status: self.status }
    }
}

impl Game {
    /// Whether the parts of the game agree: the list of remaining cells is
    /// that of the board's empty cells, and the game is valid.
    pub closed spec fn wf(&self) -> bool {
        &&& self.remaining@ == remaining_cells(self.board@)
        &&& valid(self@)
    }

    /// A well-formed game is a valid one.
    pub proof fn lemma_wf_valid(&self)
        requires
            self.wf(),
        ensures
            valid(self@),
    {
    }

    /// A game on the empty board, the player to move.
    pub fn new() -> (game: Game)
        ensures
            game.wf(),
            game@ == initial(),
    {
        let board = Board::new();
        let remaining = board.empty_cells();
        proof {
            board.lemma_nine_cells();
            assert(board@ == initial().cells);
            lemma_initial();
        }
        Game { board, remaining, turn: 0, status: Status::AwaitingPlayer }
    }

    /// The board.
    pub fn board(&self) -> (board: &Board)
        ensures
            board@ == self@.cells,
    {
        &self.board
    }

    /// The cells still empty, in ascending order.
    pub fn remaining(&self) -> (remaining: &[u8])
        requires
            self.wf(),
        ensures
            remaining@ == remaining_cells(self@.cells),
    {
        self.remaining.as_slice()
    }

    /// The number of moves that the player has made.
    pub fn turn(&self) -> (turn: u8)
        ensures
            turn == self@.turn,
    {
        self.turn
    }

    /// What the game waits for, or how it ended.
    pub fn status(&self) -> (status: Status)
        ensures
            status == self@.status,
    {
        self.status
    }

    /// Whether the game has ended.
    pub fn is_over(&self) -> (over: bool)
        ensures
            over == !is_running(self@),
    {
        match self.status {
            Status::AwaitingPlayer | Status::AwaitingOpponent => false,
            _ => true,
        }
    }

    /// Gives the remaining cell `cell` to `owner` and takes it off the
    /// list of remaining cells.
    fn claim(&mut self, cell: u8, owner: Side)
        requires
            old(self).remaining@ == remaining_cells(old(self).board@),
            old(self).remaining@.contains(cell),
            old(self).board@.len() == 9,
        ensures
            final(self).board@ == marked(old(self).board@, cell, owner),
            final(self).remaining@ == remaining_cells(final(self).board@),
            final(self).turn == old(self).turn,
            final(self).status == old(self).status,
    {
        let at: usize = position_of(self.remaining.as_slice(), cell).unwrap();
        proof {
            lemma_marked(self.board@, cell, owner, at as int);
        }
        self.board.mark(cell, owner);
        self.remaining.remove(at);
    }

    /// The player's move. The input is validated against the remaining
    /// cells; where it is refused the game stays as it was, and the player
    /// is awaited again. Otherwise the cell becomes the player's, the turn
    /// is counted, and the game goes on to the opponent or ends.
    pub fn player_turn(&mut self, raw_input: &str) -> (verdict: Result<u8, ValidationError>)
        requires
            old(self).wf(),
            old(self)@.status == Status::AwaitingPlayer,
        ensures
            final(self).wf(),
            verdict == validation(raw_input@, remaining_cells(old(self)@.cells)),
            match verdict {
                Ok(cell) => final(self)@ == after_player(old(self)@, cell),
                Err(_) => final(self)@ == old(self)@,
            },
    {
        let cell: u8 = match validate(raw_input, self.remaining.as_slice()) {
            Ok(cell) => cell,
            Err(refusal) => {
                return Err(refusal);
            },
        };
        proof {
            lemma_awaited_move_exists(self@);
            lemma_after_player_valid(self@, cell);
        }
        self.claim(cell, Side::Player);
        self.turn = self.turn + 1;
        if self.turn >= 3 {
            let held = self.board.occupied_by(Side::Player);
            if check_win(held.as_slice()) {
                self.status = Status::PlayerWon;
            } else if check_draw(self.remaining.as_slice()) {
                self.status = Status::Draw;
            } else {
                self.status = Status::AwaitingOpponent;
            }
        } else {
            self.status = Status::AwaitingOpponent;
        }
        Ok(cell)
    }

    /// The opponent's move for the draw `index`: the cell at that place
    /// among the remaining ones becomes the opponent's, and the game goes
    /// back to the player or ends.
    pub fn opponent_turn_at(&mut self, index: usize) -> (cell: u8)
        requires
            old(self).wf(),
            old(self)@.status == Status::AwaitingOpponent,
            index < remaining_cells(old(self)@.cells).len(),
        ensures
            final(self).wf(),
            cell == remaining_cells(old(self)@.cells)[index as int],
            final(self)@ == after_opponent(old(self)@, cell),
    {
        let cell = select_at(self.remaining.as_slice(), index);
        self.opponent_claims(cell);
        cell
    }

    /// The opponent's move: a remaining cell drawn at random becomes the
    /// opponent's, and the game goes back to the player or ends.
    pub fn opponent_turn(&mut self) -> (cell: u8)
        requires
            old(self).wf(),
            old(self)@.status == Status::AwaitingOpponent,
        ensures
            final(self).wf(),
            remaining_cells(old(self)@.cells).contains(cell),
            final(self)@ == after_opponent(old(self)@, cell),
    {
        proof {
            lemma_awaited_move_exists(self@);
        }
        let cell = select(self.remaining.as_slice());
        self.opponent_claims(cell);
        cell
    }

    /// Marks the selected cell for the opponent and looks for a winner.
    fn opponent_claims(&mut self, cell: u8)
        requires
            old(self).wf(),
            old(self)@.status == Status::AwaitingOpponent,
            remaining_cells(old(self)@.cells).contains(cell),
        ensures
            final(self).wf(),
            final(self)@ == after_opponent(old(self)@, cell),
    {
        proof {
            lemma_after_opponent_valid(self@, cell);
        }
        self.claim(cell, Side::Opponent);
        if self.turn >= 3 {
            let held = self.board.occupied_by(Side::Opponent);
            if check_win(held.as_slice()) {
                self.status = Status::OpponentWon;
            } else {
                self.status = Status::AwaitingPlayer;
            }
        } else {
            self.status = Status::AwaitingPlayer;
        }
    }
}

} // verus!
