//! The board as a value: built from text, shown as text, scored, and moved
//! on. Every move gives a new board; none is changed in place.

use crate::rules::{
    after_move, cell_char, char_cell, children_of, col_held, decode, empty_count, has_line,
    is_full, legal_moves, lemma_claim_open_cells, lemma_open_cells_are_open,
    lemma_open_cells_bound, open_cells, render, render_row, render_rows, row_held, score_of,
    terminal, valid_encoding, well_formed, GameError, Move, Player, Position,
};
use vstd::prelude::*;
use vstd::string::*;

verus! {

/// A position of the game. Its cells are kept row by row.
pub struct Node {
    player: Player,
    state: Vec<Option<Player>>,
    moves: Vec<Move>,
    is_max: bool,
}

impl View for Node {
    type V = Position;

    closed spec fn view(&self) -> Position {
        Position {
            grid: self.state@,
            to_move: self.player,
            maximising: self.is_max,
            history: self.moves@,
        }
    }
}

impl Clone for Node {
    fn clone(&self) -> (r: Node)
        ensures
            r@ == self@,
    {
        proof {
            use_type_invariant(self);
        }
        let state = self.state.clone();
        let moves = self.moves.clone();
        assert(state@ =~= self.state@);
        assert(moves@ =~= self.moves@);
        Node { player: self.player, state, moves, is_max: self.is_max }
    }
}

/// The text of one cell.
fn cell_text(cell: Option<Player>) -> (r: &'static str)
    ensures
        r@ == seq![cell_char(cell)],
{
    proof {
        reveal_strlit(".");
        reveal_strlit("x");
        reveal_strlit("o");
    }
    let r = match cell {
        Some(Player::X) => "x",
        Some(Player::O) => "o",
        None => ".",
    };
    assert(r@ =~= seq![cell_char(cell)]);
    r
}

impl Node {
    /// Every board is a well-formed position.
    #[verifier::type_invariant]
    pub open spec fn inv(&self) -> bool {
        well_formed(self@)
    }

    /// Reads a board from nine characters, row by row: `.` for an empty
    /// cell, `x` and `o` for a taken one. `player` moves next. Any other text
    /// is refused.
    pub fn from_string(string: String, player: Player) -> (r: Result<Node, GameError>)
        ensures
            match r {
                Ok(node) => valid_encoding(string@) && well_formed(node@) && node@ == (Position {
                    grid: decode(string@),
                    to_move: player,
                    maximising: player == Player::X,
                    history: Seq::empty(),
                }),
                Err(e) => !valid_encoding(string@) && e == GameError::InvalidEncoding,
            },
    {
        let text = string.as_str();
        if text.unicode_len() != 9 {
            return Err(GameError::InvalidEncoding);
        }
        let mut state: Vec<Option<Player>> = Vec::new();
        let mut i: usize = 0;
        while i < 9
            invariant
                i <= 9,
                text@ == string@,
                text@.len() == 9,
                state@.len() == i,
                forall|j: int| 0 <= j < i ==> char_cell(#[trigger] text@[j]) == Some(state@[j]),
            decreases 9 - i,
        {
            let ch = text.get_char(i);
            let cell = if ch == '.' {
                None
            } else if ch == 'x' {
                Some(Player::X)
            } else if ch == 'o' {
                Some(Player::O)
            } else {
                return Err(GameError::InvalidEncoding);
            };
            state.push(cell);
            i += 1;
        }
        proof {
            assert(state@ =~= decode(string@));
            lemma_open_cells_bound(state@, 9);
        }
        let is_max = match player {
            Player::X => true,
            Player::O => false,
        };
        Ok(Node { player, state, moves: Vec::new(), is_max })
    }

    /// The board as text: three lines of three characters, then an empty
    /// line.
    pub fn string(&self) -> (s: String)
        ensures
            s@ == render(self@.grid),
    {
        proof {
            use_type_invariant(self);
        }
        let mut s = String::new();
        let mut r: usize = 0;
        while r < 3
            invariant
                r <= 3,
                self.state@.len() == 9,
                s@ == render_rows(self.state@, r as nat),
            decreases 3 - r,
        {
            let ghost before = s@;
            s.append(cell_text(self.state[3 * r]));
            s.append(cell_text(self.state[3 * r + 1]));
            s.append(cell_text(self.state[3 * r + 2]));
            s.append("\n");
            proof {
                reveal_strlit("\n");
                assert(s@ =~= before + render_row(self.state@, r as int));
            }
            r += 1;
        }
        s.append("\n");
        proof {
            reveal_strlit("\n");
            assert(s@ =~= render(self.state@));
        }
        s
    }

    /// Whether `p` holds the cell at place `i`.
    fn holds(&self, i: usize, p: Player) -> (r: bool)
        requires
            i < 9,
        ensures
            r == (self@.grid[i as int] == Some(p)),
    {
        proof {
            use_type_invariant(self);
        }
        match self.state[i] {
            Some(q) => q == p,
            None => false,
        }
    }

    /// Whether `p` holds a complete row, column or diagonal.
    fn wins(&self, p: Player) -> (r: bool)
        ensures
            r == has_line(self@.grid, p),
    {
        let mut k: usize = 0;
        while k < 3
            invariant
                k <= 3,
                forall|j: int| 0 <= j < k ==> !#[trigger] row_held(self@.grid, p, j),
            decreases 3 - k,
        {
            if self.holds(3 * k, p) && self.holds(3 * k + 1, p) && self.holds(3 * k + 2, p) {
                assert(row_held(self@.grid, p, k as int));
                return true;
            }
            k += 1;
        }
        k = 0;
        while k < 3
            invariant
                k <= 3,
                forall|j: int| 0 <= j < 3 ==> !#[trigger] row_held(self@.grid, p, j),
                forall|j: int| 0 <= j < k ==> !#[trigger] col_held(self@.grid, p, j),
            decreases 3 - k,
        {
            if self.holds(k, p) && self.holds(3 + k, p) && self.holds(6 + k, p) {
                assert(col_held(self@.grid, p, k as int));
                return true;
            }
            k += 1;
        }
        if self.holds(0, p) && self.holds(4, p) && self.holds(8, p) {
            return true;
        }
        self.holds(2, p) && self.holds(4, p) && self.holds(6, p)
    }

    /// 10 where `X` holds a line, else -10 where `O` holds one, else 0.
    pub fn score(&self) -> (r: i32)
        ensures
            r == score_of(self@.grid),
    {
        if self.wins(Player::X) {
            10
        } else if self.wins(Player::O) {
            -10
        } else {
            0
        }
    }

    /// Whether the game is over: a line is complete, or no cell is empty.
    pub fn is_terminal(&self) -> (r: bool)
        ensures
            r == terminal(self@.grid),
            r == (score_of(self@.grid) != 0 || is_full(self@.grid)),
    {
        proof {
            use_type_invariant(self);
        }
        if self.score() != 0 {
            return true;
        }
        let mut i: usize = 0;
        while i < 9
            invariant
                i <= 9,
                self.state@.len() == 9,
                self.state@ == self@.grid,
                score_of(self@.grid) == 0,
                forall|j: int| 0 <= j < i ==> (#[trigger] self.state@[j]).is_some(),
            decreases 9 - i,
        {
            if self.state[i].is_none() {
                assert(!self@.grid[i as int].is_some());
                return false;
            }
            i += 1;
        }
        true
    }

    /// Whether the side to move is the maximising one, which is `X`.
    pub fn is_maximising(&self) -> (r: bool)
        ensures
            r == self@.maximising,
            r == (self@.to_move == Player::X),
    {
        proof {
            use_type_invariant(self);
        }
        self.is_max
    }

    /// The side whose turn it is.
    pub fn to_move(&self) -> (r: Player)
        ensures
            r == self@.to_move,
    {
        self.player
    }

    /// The moves made so far, oldest first.
    pub fn moves(&self) -> (r: Vec<Move>)
        ensures
            r@ == self@.history,
    {
        let r = self.moves.clone();
        assert(r@ =~= self.moves@);
        r
    }

    /// The moves that may be made now: none once the game is over, else one
    /// for each empty cell, row by row.
    pub fn legal_moves(&self) -> (moves: Vec<Move>)
        ensures
            moves@ == legal_moves(self@),
    {
        proof {
            use_type_invariant(self);
        }
        let mut moves: Vec<Move> = Vec::new();
        if self.is_terminal() {
            return moves;
        }
        let mut i: usize = 0;
        while i < 9
            invariant
                i <= 9,
                self.state@.len() == 9,
                self.state@ == self@.grid,
                moves@ == open_cells(self.state@, i as nat),
            decreases 9 - i,
        {
            if self.state[i].is_none() {
                moves.push(Move { row: i / 3, col: i % 3 });
            }
            i += 1;
        }
        moves
    }

    /// The board after the side to move has claimed the empty cell of `m`.
    fn place(&self, m: Move) -> (r: Node)
        requires
            m.on_board(),
            self@.grid[m.index()].is_none(),
        ensures
            r@ == after_move(self@, m),
    {
        proof {
            use_type_invariant(self);
        }
        let mut state = self.state.clone();
        let mut moves = self.moves.clone();
        assert(state@ =~= self.state@);
        assert(moves@ =~= self.moves@);
        state.set(3 * m.row + m.col, Some(self.player));
        moves.push(m);
        proof {
            lemma_claim_open_cells(self.state@, m.index(), self.player, 9);
            assert forall|k: int| 0 <= k < moves@.len() implies (#[trigger] moves@[k]).on_board()
                && state@[moves@[k].index()].is_some() by {
                if k < self.moves@.len() {
                    assert(self.moves@[k].on_board());
                }
            }
        }
        Node { player: self.player.opponent(), state, moves, is_max: !self.is_max }
    }

    /// The board after the side to move has claimed the cell of `m`: that
    /// cell is taken, the turn passes, and `m` joins the history. A cell
    /// that is already taken cannot be claimed.
    pub fn make_move(&self, m: Move) -> (r: Result<Node, GameError>)
        requires
            m.on_board(),
        ensures
            match r {
                Ok(node) => self@.grid[m.index()].is_none() && node@ == after_move(self@, m),
                Err(e) => self@.grid[m.index()].is_some() && e == GameError::CellOccupied,
            },
    {
        proof {
            use_type_invariant(self);
        }
        if self.state[3 * m.row + m.col].is_some() {
            Err(GameError::CellOccupied)
        } else {
            Ok(self.place(m))
        }
    }

    /// The boards one move away, in the order of the legal moves; none once
    /// the game is over.
    pub fn children(&self) -> (chdn: Vec<Node>)
        ensures
            chdn@.len() == children_of(self@).len(),
            forall|k: int| 0 <= k < chdn@.len() ==> (#[trigger] chdn@[k])@ == children_of(self@)[k],
            terminal(self@.grid) ==> chdn@.len() == 0,
            !terminal(self@.grid) ==> chdn@.len() == empty_count(self@.grid),
    {
        proof {
            use_type_invariant(self);
        }
        let moves = self.legal_moves();
        let mut chdn: Vec<Node> = Vec::new();
        let mut k: usize = 0;
        while k < moves.len()
            invariant
                k <= moves@.len(),
                moves@ == legal_moves(self@),
                chdn@.len() == k,
                forall|j: int| 0 <= j < k ==> (#[trigger] chdn@[j])@ == after_move(self@, moves@[j]),
            decreases moves@.len() - k,
        {
            proof {
                lemma_open_cells_are_open(self@.grid, 9, k as int);
            }
            chdn.push(self.place(moves[k]));
            k += 1;
        }
        chdn
    }
}

} // verus!
