//! The rules engine: board state, move validation, terminal-state detection
//! and successor enumeration for 3x3 tic-tac-toe.
//!
//! A board is a 3x3 grid of cells, each empty or holding one [`Piece`].
//! The grid is stored in an `array2d::Array2D<u8>` (see [`crate::grid`]),
//! with `0` for an empty cell, `1` for `X` and `2` for `O`; all contracts
//! speak of the decoded row-major view, a `Seq<Option<Piece>>` of length 9.

use vstd::prelude::*;
use crate::grid::{grid_cells, grid_num_rows, grid_num_cols, grid_filled, grid_get, grid_set,
    grid_clone};

verus! {

/// One of the two players' marks. The first player plays `X`.
#[derive(Debug, Clone, Copy, PartialEq, Eq, Hash, Structural)]
pub enum Piece {
    X,
    O,
}

impl Piece {
    /// The opposing mark.
    pub open spec fn spec_other(self) -> Piece {
        match self {
            Piece::X => Piece::O,
            Piece::O => Piece::X,
        }
    }

    /// Returns the opposing mark.
    pub fn other(&self) -> (r: Piece)
        ensures
            r == self.spec_other(),
    {
        match self {
            Piece::X => Piece::O,
            Piece::O => Piece::X,
        }
    }
}

/// The terminal result of a finished game.
#[derive(Debug, Clone, Copy, PartialEq, Eq, Hash, Structural)]
pub enum Winner {
    X,
    O,
    Tie,
}

/// The win recorded for the player of mark `p`.
pub open spec fn winner_for(p: Piece) -> Winner {
    match p {
        Piece::X => Winner::X,
        Piece::O => Winner::O,
    }
}

impl From<Piece> for Winner {
    fn from(piece: Piece) -> Self {
        match piece {
            Piece::X => Self::X,
            Piece::O => Self::O,
        }
    }
}

impl vstd::std_specs::convert::FromSpecImpl<Piece> for Winner {
    open spec fn obeys_from_spec() -> bool {
        true
    }

    open spec fn from_spec(piece: Piece) -> Winner {
        winner_for(piece)
    }
}

/// Why a move was rejected; the board is left unchanged in every case.
#[derive(Debug, Clone, Copy, PartialEq, Eq, Structural)]
pub enum MoveError {
    /// The game already has an outcome; no further moves are accepted.
    GameAlreadyOver,
    /// The coordinates fall outside the 3x3 grid.
    InvalidPosition { row: usize, col: usize },
    /// The target cell already holds a mark.
    TileNotEmpty { other_piece: Piece, row: usize, col: usize },
}

/// The cell encoded by the stored code: `0` empty, `1` for `X`, `2` for `O`.
pub open spec fn decode_cell(v: u8) -> Option<Piece> {
    if v == 1 {
        Some(Piece::X)
    } else if v == 2 {
        Some(Piece::O)
    } else {
        None
    }
}

/// The decoded view of a row-major code sequence.
pub open spec fn view_of(cells: Seq<u8>) -> Seq<Option<Piece>> {
    Seq::new(cells.len(), |i: int| decode_cell(cells[i]))
}

/// The all-empty board.
pub open spec fn empty_board() -> Seq<Option<Piece>> {
    Seq::new(9, |i: int| None)
}

/// The mark owning the line of cells `a`, `a + s`, `a + 2 * s`, if one mark
/// occupies all three; `None` otherwise.
pub open spec fn line_won(b: Seq<Option<Piece>>, a: int, s: int) -> Option<Piece> {
    if b[a] is Some && b[a + s] == b[a] && b[a + 2 * s] == b[a] {
        b[a]
    } else {
        None
    }
}

/// The owner of the first completed line, checking rows, then columns, then
/// the main diagonal, then the anti-diagonal. The order matters only on
/// boards where two marks both own a line, which legal play never produces.
pub open spec fn first_line_piece(b: Seq<Option<Piece>>) -> Option<Piece> {
    if line_won(b, 0, 1) is Some {
        line_won(b, 0, 1)
    } else if line_won(b, 3, 1) is Some {
        line_won(b, 3, 1)
    } else if line_won(b, 6, 1) is Some {
        line_won(b, 6, 1)
    } else if line_won(b, 0, 3) is Some {
        line_won(b, 0, 3)
    } else if line_won(b, 1, 3) is Some {
        line_won(b, 1, 3)
    } else if line_won(b, 2, 3) is Some {
        line_won(b, 2, 3)
    } else if line_won(b, 0, 4) is Some {
        line_won(b, 0, 4)
    } else if line_won(b, 2, 2) is Some {
        line_won(b, 2, 2)
    } else {
        None
    }
}

/// Whether every cell is occupied.
pub open spec fn is_full(b: Seq<Option<Piece>>) -> bool {
    forall|i: int| 0 <= i < 9 ==> b[i] is Some
}

/// The outcome a full rescan of the board detects: the first completed
/// line's win, else a tie on a full board, else none.
pub open spec fn winner_of(b: Seq<Option<Piece>>) -> Option<Winner> {
    match first_line_piece(b) {
        Some(p) => Some(winner_for(p)),
        None => if is_full(b) {
            Some(Winner::Tie)
        } else {
            None
        },
    }
}

/// The number of empty cells among positions `i..9`.
pub open spec fn empties_from(b: Seq<Option<Piece>>, i: int) -> nat
    decreases 9 - i,
{
    if i < 0 || i >= 9 {
        0
    } else {
        (if b[i] is None { 1nat } else { 0nat }) + empties_from(b, i + 1)
    }
}

/// The number of empty cells on the board.
pub open spec fn empty_count(b: Seq<Option<Piece>>) -> nat {
    empties_from(b, 0)
}

/// The coordinates of the empty cells among positions `i..9`, in row-major
/// scan order.
pub open spec fn moves_from(b: Seq<Option<Piece>>, i: int) -> Seq<(usize, usize)>
    decreases 9 - i,
{
    if i < 0 || i >= 9 {
        Seq::empty()
    } else if b[i] is None {
        seq![((i / 3) as usize, (i % 3) as usize)] + moves_from(b, i + 1)
    } else {
        moves_from(b, i + 1)
    }
}

/// The board after placing `p` at coordinate `m`.
pub open spec fn next_board(b: Seq<Option<Piece>>, m: (usize, usize), p: Piece) -> Seq<
    Option<Piece>,
> {
    b.update(m.0 as int * 3 + m.1 as int, Some(p))
}

/// A 3x3 board together with the mark whose turn it is and the outcome, if
/// the game has ended.
pub struct Game {
    board: array2d::Array2D<u8>,
    current_piece: Piece,
    pub winner: Option<Winner>,
}

impl Game {
    /// The decoded row-major view of the board.
    pub closed spec fn board_view(self) -> Seq<Option<Piece>> {
        view_of(grid_cells(self.board))
    }

    /// The mark whose turn it is.
    pub closed spec fn turn(self) -> Piece {
        self.current_piece
    }

    /// The recorded outcome, if the game has ended.
    pub closed spec fn outcome(self) -> Option<Winner> {
        self.winner
    }

    /// The stored grid is 3x3 and every cell code is meaningful.
    pub closed spec fn grid_ok(self) -> bool {
        &&& grid_num_rows(self.board) == 3
        &&& grid_num_cols(self.board) == 3
        &&& grid_cells(self.board).len() == 9
        &&& forall|i: int| 0 <= i < 9 ==> grid_cells(self.board)[i] <= 2
    }

    /// Well-formed: the grid is in shape and the recorded outcome is exactly
    /// what a rescan of the board detects.
    pub open spec fn wf(self) -> bool {
        &&& self.grid_ok()
        &&& self.outcome() == winner_of(self.board_view())
    }

    /// The ordered legal moves: every empty cell in row-major order while
    /// the game is running, and none once it has an outcome.
    pub open spec fn legal_moves(self) -> Seq<(usize, usize)> {
        if self.outcome() is Some {
            Seq::empty()
        } else {
            moves_from(self.board_view(), 0)
        }
    }
}

/// Whether `b` and `a` hold the same position: equal grids, the same mark to
/// move and the same recorded outcome.
pub closed spec fn same_position(a: Game, b: Game) -> bool {
    &&& grid_cells(b.board) == grid_cells(a.board)
    &&& grid_num_rows(b.board) == grid_num_rows(a.board)
    &&& grid_num_cols(b.board) == grid_num_cols(a.board)
    &&& b.current_piece == a.current_piece
    &&& b.winner == a.winner
}

/// Whether `c` is the position reached from `g` by playing the legal move
/// `m`: the mover's mark fills the chosen cell, the turn flips, and the
/// outcome is rescanned.
pub open spec fn is_successor(g: Game, m: (usize, usize), c: Game) -> bool {
    &&& c.wf()
    &&& c.board_view() == next_board(g.board_view(), m, g.turn())
    &&& c.turn() == g.turn().spec_other()
}

impl Clone for Game {
    /// The copy holds the same position.
    fn clone(&self) -> (res: Game)
        ensures
            same_position(*self, res),
    {
        Game {
            board: grid_clone(&self.board),
            current_piece: self.current_piece,
            winner: self.winner,
        }
    }
}

impl Default for Game {
    fn default() -> (g: Game)
        ensures
            g.wf(),
            g.board_view() == empty_board(),
            g.turn() == Piece::X,
            g.outcome() is None,
    {
        Game::new()
    }
}

impl Game {
    /// A new game: all cells empty, `X` to move, no outcome.
    pub fn new() -> (g: Game)
        ensures
            g.wf(),
            g.board_view() == empty_board(),
            g.turn() == Piece::X,
            g.outcome() is None,
    {
        let g = Game { board: grid_filled(0, 3, 3), current_piece: Piece::X, winner: None };
        proof {
            assert(g.board_view() =~= empty_board());
        }
        g
    }

    /// Whether the game has an outcome.
    pub fn is_finished(&self) -> (r: bool)
        ensures
            r == (self.outcome() is Some),
    {
        self.winner.is_some()
    }

    /// The recorded outcome, if the game has ended.
    pub fn winner(&self) -> (w: Option<Winner>)
        ensures
            w == self.outcome(),
    {
        self.winner
    }

    /// The stored code of cell (`row`, `col`).
    fn cell_code_at(&self, row: usize, col: usize) -> (v: u8)
        requires
            self.grid_ok(),
            row < 3,
            col < 3,
        ensures
            v == grid_cells(self.board)[row as int * 3 + col as int],
            v <= 2,
            self.board_view()[row as int * 3 + col as int] == decode_cell(v),
    {
        grid_get(&self.board, row, col)
    }

    /// The content of cell (`row`, `col`).
    pub fn piece_at(&self, row: usize, col: usize) -> (p: Option<Piece>)
        requires
            self.grid_ok(),
            row < 3,
            col < 3,
        ensures
            p == self.board_view()[row as int * 3 + col as int],
    {
        let v = self.cell_code_at(row, col);
        if v == 1 {
            Some(Piece::X)
        } else if v == 2 {
            Some(Piece::O)
        } else {
            None
        }
    }

    /// The number of empty cells on the board.
    pub fn empty_cell_count(&self) -> (n: u64)
        requires
            self.grid_ok(),
        ensures
            n == empty_count(self.board_view()),
            n <= 9,
    {
        let ghost b = self.board_view();
        let mut n: u64 = 0;
        let mut idx: usize = 0;
        while idx < 9
            invariant
                self.grid_ok(),
                b == self.board_view(),
                0 <= idx <= 9,
                n <= idx,
                n + empties_from(b, idx as int) == empty_count(b),
            decreases 9 - idx,
        {
            let row = idx / 3;
            let col = idx % 3;
            let v = self.cell_code_at(row, col);
            assert(row as int * 3 + col as int == idx as int);
            if v == 0 {
                n = n + 1;
            }
            idx = idx + 1;
        }
        n
    }

    /// Rescans the whole board for an outcome: each row, each column and the
    /// two diagonals, in that order, then the tie check on a full board.
    #[verifier::rlimit(50)]
    fn to_winner(&self) -> (w: Option<Winner>)
        requires
            self.grid_ok(),
        ensures
            w == winner_of(self.board_view()),
    {
        let v0 = self.cell_code_at(0, 0);
        let v1 = self.cell_code_at(0, 1);
        let v2 = self.cell_code_at(0, 2);
        let v3 = self.cell_code_at(1, 0);
        let v4 = self.cell_code_at(1, 1);
        let v5 = self.cell_code_at(1, 2);
        let v6 = self.cell_code_at(2, 0);
        let v7 = self.cell_code_at(2, 1);
        let v8 = self.cell_code_at(2, 2);
        proof {
            let b = self.board_view();
            assert(b[0] == decode_cell(v0));
            assert(b[1] == decode_cell(v1));
            assert(b[2] == decode_cell(v2));
            assert(b[3] == decode_cell(v3));
            assert(b[4] == decode_cell(v4));
            assert(b[5] == decode_cell(v5));
            assert(b[6] == decode_cell(v6));
            assert(b[7] == decode_cell(v7));
            assert(b[8] == decode_cell(v8));
            assert(line_won(b, 0, 1) == (if v0 != 0 && v1 == v0 && v2 == v0 { b[0] } else { None }));
            assert(line_won(b, 3, 1) == (if v3 != 0 && v4 == v3 && v5 == v3 { b[3] } else { None }));
            assert(line_won(b, 6, 1) == (if v6 != 0 && v7 == v6 && v8 == v6 { b[6] } else { None }));
            assert(line_won(b, 0, 3) == (if v0 != 0 && v3 == v0 && v6 == v0 { b[0] } else { None }));
            assert(line_won(b, 1, 3) == (if v1 != 0 && v4 == v1 && v7 == v1 { b[1] } else { None }));
            assert(line_won(b, 2, 3) == (if v2 != 0 && v5 == v2 && v8 == v2 { b[2] } else { None }));
            assert(line_won(b, 0, 4) == (if v0 != 0 && v4 == v0 && v8 == v0 { b[0] } else { None }));
            assert(line_won(b, 2, 2) == (if v2 != 0 && v4 == v2 && v6 == v2 { b[2] } else { None }));
        }
        // Rows.
        if v0 != 0 && v1 == v0 && v2 == v0 {
            return Some(winner_from_code(v0));
        }
        if v3 != 0 && v4 == v3 && v5 == v3 {
            return Some(winner_from_code(v3));
        }
        if v6 != 0 && v7 == v6 && v8 == v6 {
            return Some(winner_from_code(v6));
        }
        // Columns.
        if v0 != 0 && v3 == v0 && v6 == v0 {
            return Some(winner_from_code(v0));
        }
        if v1 != 0 && v4 == v1 && v7 == v1 {
            return Some(winner_from_code(v1));
        }
        if v2 != 0 && v5 == v2 && v8 == v2 {
            return Some(winner_from_code(v2));
        }
        // Main diagonal.
        if v0 != 0 && v4 == v0 && v8 == v0 {
            return Some(winner_from_code(v0));
        }
        // Anti-diagonal.
        if v2 != 0 && v4 == v2 && v6 == v2 {
            return Some(winner_from_code(v2));
        }
        // Tie on a full board.
        if v0 != 0 && v1 != 0 && v2 != 0 && v3 != 0 && v4 != 0 && v5 != 0 && v6 != 0 && v7 != 0
            && v8 != 0 {
            proof {
                let b = self.board_view();
                assert forall|i: int| 0 <= i < 9 implies b[i] is Some by {
                    assert(b[i] == decode_cell(grid_cells(self.board)[i]));
                }
            }
            return Some(Winner::Tie);
        }
        proof {
            let b = self.board_view();
            assert(b[0] is None || b[1] is None || b[2] is None || b[3] is None || b[4] is None
                || b[5] is None || b[6] is None || b[7] is None || b[8] is None);
            assert(!is_full(b));
        }
        None
    }

    /// Places the current mark at (`row`, `col`), flips the turn and
    /// rescans the outcome. Rejects the move, leaving the game unchanged,
    /// if the game is already over, the coordinates are out of range, or
    /// the cell is occupied — in that order of checks.
    pub fn make_move(&mut self, row: usize, col: usize) -> (r: Result<(), MoveError>)
        requires
            old(self).wf(),
        ensures
            final(self).wf(),
            (if old(self).outcome() is Some {
                r == Err::<(), MoveError>(MoveError::GameAlreadyOver)
                    && *final(self) == *old(self)
            } else if row >= 3 || col >= 3 {
                r == Err::<(), MoveError>((MoveError::InvalidPosition { row, col }))
                    && *final(self) == *old(self)
            } else if old(self).board_view()[row as int * 3 + col as int] is Some {
                r == Err::<(), MoveError>(
                    (MoveError::TileNotEmpty {
                        other_piece: old(self).board_view()[row as int * 3 + col as int]->0,
                        row,
                        col,
                    }),
                ) && *final(self) == *old(self)
            } else {
                &&& r == Ok::<(), MoveError>(())
                &&& final(self).board_view() == next_board(
                    old(self).board_view(),
                    (row, col),
                    old(self).turn(),
                )
                &&& final(self).turn() == old(self).turn().spec_other()
                &&& final(self).outcome() == winner_of(final(self).board_view())
            }),
    {
        if self.winner.is_some() {
            return Err(MoveError::GameAlreadyOver);
        }
        if row >= 3 || col >= 3 {
            return Err(MoveError::InvalidPosition { row, col });
        }
        let v = self.cell_code_at(row, col);
        if v != 0 {
            let other_piece = if v == 1 {
                Piece::X
            } else {
                Piece::O
            };
            return Err(MoveError::TileNotEmpty { other_piece, row, col });
        }
        let ghost old_cells = grid_cells(self.board);
        let ghost idx = row as int * 3 + col as int;
        let code: u8 = match self.current_piece {
            Piece::X => 1,
            Piece::O => 2,
        };
        grid_set(&mut self.board, row, col, code);
        proof {
            assert(grid_cells(self.board) == old_cells.update(idx, code));
            assert(self.board_view() =~= old(self).board_view().update(
                idx,
                Some(old(self).current_piece),
            ));
        }
        self.current_piece = self.current_piece.other();
        self.winner = self.to_winner();
        Ok(())
    }

    /// The ordered sequence of all legal moves: every empty cell coordinate
    /// in row-major order, or none once the game has an outcome.
    pub fn valid_moves(&self) -> (ms: Vec<(usize, usize)>)
        requires
            self.wf(),
        ensures
            ms@ == self.legal_moves(),
    {
        let mut ms: Vec<(usize, usize)> = Vec::new();
        if self.is_finished() {
            proof {
                assert(ms@ =~= self.legal_moves());
            }
            return ms;
        }
        let ghost b = self.board_view();
        let mut idx: usize = 0;
        while idx < 9
            invariant
                self.wf(),
                self.winner is None,
                b == self.board_view(),
                0 <= idx <= 9,
                ms@ + moves_from(b, idx as int) == self.legal_moves(),
            decreases 9 - idx,
        {
            let row = idx / 3;
            let col = idx % 3;
            assert(row as int * 3 + col as int == idx as int);
            let v = self.cell_code_at(row, col);
            let ghost ms0 = ms@;
            if v == 0 {
                ms.push((row, col));
                proof {
                    assert(moves_from(b, idx as int) == seq![(row, col)] + moves_from(
                        b,
                        idx as int + 1,
                    ));
                    assert(ms@ + moves_from(b, idx as int + 1) =~= ms0 + moves_from(
                        b,
                        idx as int,
                    ));
                }
            }
            idx = idx + 1;
        }
        proof {
            assert(ms@ =~= self.legal_moves());
        }
        ms
    }
}

/// The stored code's win: relies on the code being a mark's.
fn winner_from_code(v: u8) -> (w: Winner)
    requires
        1 <= v <= 2,
    ensures
        decode_cell(v) is Some,
        w == winner_for(decode_cell(v)->0),
{
    if v == 1 {
        Winner::X
    } else {
        Winner::O
    }
}

/// The character a cell is rendered as: a space, `X` or `O`.
pub open spec fn char_for(maybe_piece: Option<Piece>) -> char {
    match maybe_piece {
        None => ' ',
        Some(Piece::X) => 'X',
        Some(Piece::O) => 'O',
    }
}

/// Renders one cell as a character.
pub fn to_char(maybe_piece: &Option<Piece>) -> (c: char)
    ensures
        c == char_for(*maybe_piece),
{
    match maybe_piece {
        None => ' ',
        Some(Piece::X) => 'X',
        Some(Piece::O) => 'O',
    }
}

/// One successor game per legal move of `game`, in the moves' order.
pub fn next_games(game: &Game) -> (gs: Vec<Game>)
    requires
        game.wf(),
    ensures
        gs@.len() == game.legal_moves().len(),
        forall|i: int|
            0 <= i < gs@.len() ==> is_successor(*game, game.legal_moves()[i], #[trigger] gs@[i]),
{
    let moves = game.valid_moves();
    let mut gs: Vec<Game> = Vec::new();
    proof {
        lemma_moves_from_props(game.board_view(), 0);
    }
    let mut k: usize = 0;
    while k < moves.len()
        invariant
            game.wf(),
            moves@ == game.legal_moves(),
            0 <= k <= moves@.len(),
            gs@.len() == k,
            forall|i: int|
                0 <= i < k ==> is_successor(*game, game.legal_moves()[i], #[trigger] gs@[i]),
        decreases moves@.len() - k,
    {
        let (row, col) = moves[k];
        let mut g2 = game.clone();
        proof {
            assert(game.legal_moves().len() > 0);
            assert(game.winner is None);
            lemma_moves_from_props(game.board_view(), 0);
            assert(g2.board_view() == game.board_view());
        }
        let res = g2.make_move(row, col);
        proof {
            assert(res is Ok);
            assert(is_successor(*game, (row, col), g2));
        }
        gs.push(g2);
        k = k + 1;
    }
    gs
}

/// Whether `m` is an in-range coordinate of an empty cell of `b` at a
/// row-major position in `i..9`.
pub open spec fn move_index(m: (usize, usize)) -> int {
    m.0 as int * 3 + m.1 as int
}

pub open spec fn legal_move_at(b: Seq<Option<Piece>>, i: int, m: (usize, usize)) -> bool {
    &&& (m.0 as int) < 3
    &&& (m.1 as int) < 3
    &&& b[move_index(m)] is None
    &&& i <= move_index(m) < 9
}

/// Every move listed by `moves_from(b, i)` is an in-range coordinate of an
/// empty cell, at a row-major position in `i..9`.
pub proof fn lemma_moves_from_props(b: Seq<Option<Piece>>, i: int)
    requires
        b.len() == 9,
    ensures
        forall|k: int|
            0 <= k < moves_from(b, i).len() ==> legal_move_at(b, i, #[trigger] moves_from(b, i)[k]),
    decreases 9 - i,
{
    if i < 0 || i >= 9 {
    } else {
        lemma_moves_from_props(b, i + 1);
        let rest = moves_from(b, i + 1);
        if b[i] is None {
            let m0 = ((i / 3) as usize, (i % 3) as usize);
            assert(moves_from(b, i) == seq![m0] + rest);
            assert(move_index(m0) == (i / 3) * 3 + (i % 3));
            assert(legal_move_at(b, i, m0));
            assert forall|k: int|
                0 <= k < moves_from(b, i).len() implies legal_move_at(
                b,
                i,
                moves_from(b, i)[k],
            ) by {
                if k == 0 {
                    assert(moves_from(b, i)[0] == m0);
                } else {
                    assert(moves_from(b, i)[k] == rest[k - 1]);
                    assert(legal_move_at(b, i + 1, rest[k - 1]));
                }
            }
        } else {
            assert forall|k: int|
                0 <= k < moves_from(b, i).len() implies legal_move_at(
                b,
                i,
                moves_from(b, i)[k],
            ) by {
                assert(moves_from(b, i)[k] == rest[k]);
                assert(legal_move_at(b, i + 1, rest[k]));
            }
        }
    }
}

/// `moves_from` lists exactly one move per empty cell.
pub proof fn lemma_moves_len(b: Seq<Option<Piece>>, i: int)
    ensures
        moves_from(b, i).len() == empties_from(b, i),
    decreases 9 - i,
{
    if i < 0 || i >= 9 {
    } else {
        lemma_moves_len(b, i + 1);
    }
}

/// Occupying an empty cell removes exactly that cell from the empty count
/// taken from any starting position.
pub proof fn lemma_empties_update_from(b: Seq<Option<Piece>>, idx: int, p: Piece, i: int)
    requires
        b.len() == 9,
        0 <= idx < 9,
        0 <= i,
        b[idx] is None,
    ensures
        empties_from(b.update(idx, Some(p)), i) + (if i <= idx { 1nat } else { 0nat })
            == empties_from(b, i),
    decreases 9 - i,
{
    if i < 0 || i >= 9 {
    } else {
        lemma_empties_update_from(b, idx, p, i + 1);
        let upd = b.update(idx, Some(p));
        if i == idx {
            assert(upd[i] is Some);
            assert(empties_from(upd, i) == empties_from(upd, i + 1));
            assert(empties_from(b, i) == 1 + empties_from(b, i + 1));
        } else {
            assert(upd[i] == b[i]);
        }
    }
}

/// Occupying an empty cell reduces the board's empty count by one.
pub proof fn lemma_empty_count_update(b: Seq<Option<Piece>>, idx: int, p: Piece)
    requires
        b.len() == 9,
        0 <= idx < 9,
        b[idx] is None,
    ensures
        empty_count(b.update(idx, Some(p))) + 1 == empty_count(b),
{
    lemma_empties_update_from(b, idx, p, 0);
}

/// The empty count from position `i` never exceeds the cells left to scan.
pub proof fn lemma_empties_bound(b: Seq<Option<Piece>>, i: int)
    requires
        0 <= i <= 9,
    ensures
        empties_from(b, i) <= 9 - i,
    decreases 9 - i,
{
    if i < 9 {
        lemma_empties_bound(b, i + 1);
    }
}

/// A board with an empty cell has a positive empty count.
pub proof fn lemma_empties_positive(b: Seq<Option<Piece>>, i: int)
    requires
        0 <= i < 9,
        b[i] is None,
    ensures
        empty_count(b) >= 1,
{
    lemma_empties_positive_from(b, i, 0);
}

proof fn lemma_empties_positive_from(b: Seq<Option<Piece>>, i: int, j: int)
    requires
        0 <= j <= i < 9,
        b[i] is None,
    ensures
        empties_from(b, j) >= 1,
    decreases 9 - j,
{
    if j < i {
        lemma_empties_positive_from(b, i, j + 1);
    }
}


/// Whether one mark occupies all of cells `a`, `a + s`, `a + 2 * s`.
pub open spec fn complete_line(b: Seq<Option<Piece>>, a: int, s: int, p: Piece) -> bool {
    b[a] == Some(p) && b[a + s] == Some(p) && b[a + 2 * s] == Some(p)
}

/// Whether `p` owns any of the eight lines: three rows, three columns, the
/// main diagonal, the anti-diagonal.
pub open spec fn has_line(b: Seq<Option<Piece>>, p: Piece) -> bool {
    ||| complete_line(b, 0, 1, p)
    ||| complete_line(b, 3, 1, p)
    ||| complete_line(b, 6, 1, p)
    ||| complete_line(b, 0, 3, p)
    ||| complete_line(b, 1, 3, p)
    ||| complete_line(b, 2, 3, p)
    ||| complete_line(b, 0, 4, p)
    ||| complete_line(b, 2, 2, p)
}

/// The position after the move list `ms` is played out from the empty
/// board, `X` first, or `None` if some move in the list is not legal when
/// its turn comes.
pub open spec fn play_out(ms: Seq<(usize, usize)>) -> Option<(Seq<Option<Piece>>, Piece)>
    decreases ms.len(),
{
    if ms.len() == 0 {
        Some((empty_board(), Piece::X))
    } else {
        match play_out(ms.drop_last()) {
            None => None,
            Some(st) => {
                if winner_of(st.0) is None && legal_move_at(st.0, 0, ms.last()) {
                    Some((next_board(st.0, ms.last(), st.1), st.1.spec_other()))
                } else {
                    None
                }
            },
        }
    }
}

/// The board after `ms` is played out, when that play is legal.
pub open spec fn played_board(ms: Seq<(usize, usize)>) -> Seq<Option<Piece>> {
    match play_out(ms) {
        Some(st) => st.0,
        None => empty_board(),
    }
}

/// The mark to move after `ms` is played out, when that play is legal.
pub open spec fn played_turn(ms: Seq<(usize, usize)>) -> Piece {
    match play_out(ms) {
        Some(st) => st.1,
        None => Piece::X,
    }
}

/// Whether the position can be reached from the empty board by legal
/// alternating play.
pub open spec fn reachable(b: Seq<Option<Piece>>, cur: Piece) -> bool {
    exists|ms: Seq<(usize, usize)>| play_out(ms) == Some((b, cur))
}

/// A board with no detected outcome has no completed line at all.
proof fn lemma_no_winner_no_line(b: Seq<Option<Piece>>)
    requires
        winner_of(b) is None,
    ensures
        !has_line(b, Piece::X),
        !has_line(b, Piece::O),
{
}

/// The first completed line's owner indeed owns a completed line.
proof fn lemma_first_line_piece_complete(b: Seq<Option<Piece>>)
    ensures
        first_line_piece(b) is Some ==> has_line(b, first_line_piece(b)->0),
{
}

/// A completed line makes the scan find some completed line.
proof fn lemma_has_line_first_some(b: Seq<Option<Piece>>, p: Piece)
    requires
        has_line(b, p),
    ensures
        first_line_piece(b) is Some,
{
}

/// A line completed by placing `q` on a board that had no completed line
/// can only be a line of `q` itself.
proof fn lemma_new_line_is_movers(b0: Seq<Option<Piece>>, idx: int, q: Piece, p: Piece)
    requires
        b0.len() == 9,
        0 <= idx < 9,
        !has_line(b0, p),
        has_line(b0.update(idx, Some(q)), p),
    ensures
        p == q,
{
    let b = b0.update(idx, Some(q));
    assert(b[idx] == Some(q));
    assert(b[idx] == Some(p)) by {
        if complete_line(b, 0, 1, p) {
            if idx != 0 && idx != 1 && idx != 2 {
                assert(complete_line(b0, 0, 1, p));
                assert(false);
            }
        } else if complete_line(b, 3, 1, p) {
            if idx != 3 && idx != 4 && idx != 5 {
                assert(complete_line(b0, 3, 1, p));
                assert(false);
            }
        } else if complete_line(b, 6, 1, p) {
            if idx != 6 && idx != 7 && idx != 8 {
                assert(complete_line(b0, 6, 1, p));
                assert(false);
            }
        } else if complete_line(b, 0, 3, p) {
            if idx != 0 && idx != 3 && idx != 6 {
                assert(complete_line(b0, 0, 3, p));
                assert(false);
            }
        } else if complete_line(b, 1, 3, p) {
            if idx != 1 && idx != 4 && idx != 7 {
                assert(complete_line(b0, 1, 3, p));
                assert(false);
            }
        } else if complete_line(b, 2, 3, p) {
            if idx != 2 && idx != 5 && idx != 8 {
                assert(complete_line(b0, 2, 3, p));
                assert(false);
            }
        } else if complete_line(b, 0, 4, p) {
            if idx != 0 && idx != 4 && idx != 8 {
                assert(complete_line(b0, 0, 4, p));
                assert(false);
            }
        } else if complete_line(b, 2, 2, p) {
            if idx != 2 && idx != 4 && idx != 6 {
                assert(complete_line(b0, 2, 2, p));
                assert(false);
            }
        } else {
            assert(!has_line(b, p));
            assert(false);
        }
    }
}

/// Along a legal play-out the two marks never both own a completed line.
proof fn lemma_play_out_single_mark_lines(ms: Seq<(usize, usize)>)
    requires
        play_out(ms) is Some,
    ensures
        played_board(ms).len() == 9,
        !(has_line(played_board(ms), Piece::X) && has_line(played_board(ms), Piece::O)),
    decreases ms.len(),
{
    if ms.len() == 0 {
        assert(!has_line(played_board(ms), Piece::X));
        assert(!has_line(played_board(ms), Piece::O));
    } else {
        let prev = ms.drop_last();
        lemma_play_out_single_mark_lines(prev);
        let b0 = played_board(prev);
        let cur0 = played_turn(prev);
        let idx = move_index(ms.last());
        let b = played_board(ms);
        assert(b == b0.update(idx, Some(cur0)));
        lemma_no_winner_no_line(b0);
        if has_line(b, Piece::X) && has_line(b, Piece::O) {
            lemma_new_line_is_movers(b0, idx, cur0, Piece::X);
            lemma_new_line_is_movers(b0, idx, cur0, Piece::O);
            assert(false);
        }
    }
}

/// On any position reachable by legal play from the empty board, the two
/// marks never both own a completed line, and the rescan detects a mark's
/// win exactly when that mark owns a completed line — detection can never
/// be contradictory.
pub proof fn lemma_no_double_winner(b: Seq<Option<Piece>>, cur: Piece)
    requires
        reachable(b, cur),
    ensures
        !(has_line(b, Piece::X) && has_line(b, Piece::O)),
        winner_of(b) == Some(Winner::X) <==> has_line(b, Piece::X),
        winner_of(b) == Some(Winner::O) <==> has_line(b, Piece::O),
{
    let ms = choose|ms: Seq<(usize, usize)>| play_out(ms) == Some((b, cur));
    lemma_play_out_single_mark_lines(ms);
    assert(played_board(ms) == b);
    lemma_first_line_piece_complete(b);
    if has_line(b, Piece::X) {
        lemma_has_line_first_some(b, Piece::X);
    }
    if has_line(b, Piece::O) {
        lemma_has_line_first_some(b, Piece::O);
    }
}

/// Playing a legal move fills the chosen cell with the mover's mark and,
/// as long as the game then still has no outcome, leaves exactly one fewer
/// legal move than before.
pub proof fn lemma_apply_move_legal_moves(g: Game, m: (usize, usize), g2: Game)
    requires
        g.wf(),
        g.legal_moves().contains(m),
        is_successor(g, m, g2),
    ensures
        g2.board_view()[move_index(m)] == Some(g.turn()),
        g2.outcome() is None ==> g2.legal_moves().len() + 1 == g.legal_moves().len(),
{
    let b = g.board_view();
    assert(g.outcome() is None);
    let k = choose|k: int| 0 <= k < g.legal_moves().len() && g.legal_moves()[k] == m;
    lemma_moves_from_props(b, 0);
    assert(moves_from(b, 0)[k] == m);
    assert(legal_move_at(b, 0, m));
    assert(g2.board_view() == b.update(move_index(m), Some(g.turn())));
    lemma_moves_len(b, 0);
    lemma_moves_len(g2.board_view(), 0);
    lemma_empty_count_update(b, move_index(m), g.turn());
}

/// Completing the top row for the first player ends the game at once: the
/// outcome is the first player's win whatever the rest of the board holds,
/// and no legal moves remain even where cells are still empty.
pub proof fn lemma_top_row_win(g: Game)
    requires
        g.wf(),
        g.board_view()[0] == Some(Piece::X),
        g.board_view()[1] == Some(Piece::X),
        g.board_view()[2] == Some(Piece::X),
    ensures
        g.outcome() == Some(Winner::X),
        g.legal_moves() == Seq::<(usize, usize)>::empty(),
{
    assert(line_won(g.board_view(), 0, 1) == Some(Piece::X));
}

/// A fully occupied board with no completed line is a tie.
pub proof fn lemma_full_board_tie(b: Seq<Option<Piece>>)
    requires
        b.len() == 9,
        is_full(b),
        !has_line(b, Piece::X),
        !has_line(b, Piece::O),
    ensures
        winner_of(b) == Some(Winner::Tie),
{
    lemma_first_line_piece_complete(b);
    if first_line_piece(b) is Some {
        let p = first_line_piece(b)->0;
        assert(has_line(b, p));
        assert(false);
    }
}


/// Two games holding the same position agree on every observation.
pub proof fn lemma_same_position(a: Game, b: Game)
    requires
        same_position(a, b),
    ensures
        b.board_view() == a.board_view(),
        b.turn() == a.turn(),
        b.outcome() == a.outcome(),
        b.grid_ok() == a.grid_ok(),
{
}

/// A game whose grid is in shape has one view cell per grid position.
pub proof fn lemma_wf_view_len(g: Game)
    requires
        g.grid_ok(),
    ensures
        g.board_view().len() == 9,
{
}



/// A well-formed game is out of legal moves exactly when it has an
/// outcome: a running game always has at least one empty cell to play.
pub proof fn lemma_legal_moves_empty_iff_finished(g: Game)
    requires
        g.wf(),
    ensures
        g.legal_moves().len() == 0 <==> g.outcome() is Some,
{
    if g.outcome() is None {
        lemma_wf_view_len(g);
        lemma_moves_len(g.board_view(), 0);
        assert(!is_full(g.board_view()));
        let i0 = choose|i: int| 0 <= i < 9 && !(g.board_view()[i] is Some);
        lemma_empties_positive(g.board_view(), i0);
    }
}

} // verus!
