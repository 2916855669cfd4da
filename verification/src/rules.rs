//! The mathematical model of the game: a grid of nine cells in row-major
//! order, the lines that win, and what a move does to a position.

use vstd::prelude::*;

verus! {

/// One of the two sides. `X` maximises the score, `O` minimises it.
#[derive(Clone, Copy, PartialEq, Eq, Structural, Debug)]
pub enum Player {
    X,
    O,
}

impl Player {
    /// The side that moves after this one.
    pub open spec fn other(self) -> Player {
        match self {
            Player::X => Player::O,
            Player::O => Player::X,
        }
    }

    /// The side that moves after this one.
    pub fn opponent(self) -> (r: Player)
        ensures
            r == self.other(),
    {
        match self {
            Player::X => Player::O,
            Player::O => Player::X,
        }
    }
}

/// A cell to claim, by row and column.
#[derive(Clone, Copy, PartialEq, Eq, Structural, Debug)]
pub struct Move {
    pub row: usize,
    pub col: usize,
}

impl Move {
    /// Both coordinates lie on the 3×3 board.
    pub open spec fn on_board(self) -> bool {
        self.row < 3 && self.col < 3
    }

    /// The cell's place in row-major order.
    pub open spec fn index(self) -> int {
        3 * self.row + self.col
    }

    /// Whether both coordinates lie on the 3×3 board.
    pub fn is_on_board(&self) -> (r: bool)
        ensures
            r == self.on_board(),
    {
        self.row < 3 && self.col < 3
    }
}

/// The move that claims the cell at place `i` in row-major order.
pub open spec fn move_at(i: int) -> Move {
    Move { row: (i / 3) as usize, col: (i % 3) as usize }
}

/// Everything that can go wrong.
#[derive(Clone, Copy, PartialEq, Eq, Structural, Debug)]
pub enum GameError {
    /// The board text is not nine characters out of `.`, `x` and `o`.
    InvalidEncoding,
    /// The move's cell is already taken.
    CellOccupied,
    /// The move text is not two digits that name a row and a column.
    MalformedMoveInput,
}

/// A position as a mathematical value.
pub struct Position {
    /// Nine cells, row by row; `None` is an empty cell.
    pub grid: Seq<Option<Player>>,
    /// The side whose turn it is.
    pub to_move: Player,
    /// Whether the side to move is the maximising one.
    pub maximising: bool,
    /// The moves made so far, oldest first.
    pub history: Seq<Move>,
}

/// `p` holds all three cells of row `r`.
pub open spec fn row_held(grid: Seq<Option<Player>>, p: Player, r: int) -> bool {
    grid[3 * r] == Some(p) && grid[3 * r + 1] == Some(p) && grid[3 * r + 2] == Some(p)
}

/// `p` holds all three cells of column `c`.
pub open spec fn col_held(grid: Seq<Option<Player>>, p: Player, c: int) -> bool {
    grid[c] == Some(p) && grid[3 + c] == Some(p) && grid[6 + c] == Some(p)
}

/// `p` holds the diagonal from the top left to the bottom right.
pub open spec fn diagonal_held(grid: Seq<Option<Player>>, p: Player) -> bool {
    grid[0] == Some(p) && grid[4] == Some(p) && grid[8] == Some(p)
}

/// `p` holds the diagonal from the top right to the bottom left.
pub open spec fn antidiagonal_held(grid: Seq<Option<Player>>, p: Player) -> bool {
    grid[2] == Some(p) && grid[4] == Some(p) && grid[6] == Some(p)
}

/// `p` holds a complete row, column or diagonal.
pub open spec fn has_line(grid: Seq<Option<Player>>, p: Player) -> bool {
    ||| exists|r: int| 0 <= r < 3 && #[trigger] row_held(grid, p, r)
    ||| exists|c: int| 0 <= c < 3 && #[trigger] col_held(grid, p, c)
    ||| diagonal_held(grid, p)
    ||| antidiagonal_held(grid, p)
}

/// 10 where `X` holds a line, else -10 where `O` holds one, else 0.
pub open spec fn score_of(grid: Seq<Option<Player>>) -> int {
    if has_line(grid, Player::X) {
        10
    } else if has_line(grid, Player::O) {
        -10
    } else {
        0
    }
}

/// No cell is empty.
pub open spec fn is_full(grid: Seq<Option<Player>>) -> bool {
    forall|i: int| 0 <= i < 9 ==> (#[trigger] grid[i]).is_some()
}

/// The game is over: somebody holds a line, or the board is full.
pub open spec fn terminal(grid: Seq<Option<Player>>) -> bool {
    score_of(grid) != 0 || is_full(grid)
}

/// The moves to the empty cells among the first `n`, in row-major order.
pub open spec fn open_cells(grid: Seq<Option<Player>>, n: nat) -> Seq<Move>
    decreases n,
{
    if n == 0 {
        Seq::empty()
    } else if grid[n - 1].is_none() {
        open_cells(grid, (n - 1) as nat).push(move_at(n - 1))
    } else {
        open_cells(grid, (n - 1) as nat)
    }
}

/// How many cells are empty.
pub open spec fn empty_count(grid: Seq<Option<Player>>) -> nat {
    open_cells(grid, 9).len()
}

/// The moves that may be made: none once the game is over, else every empty
/// cell, row by row.
pub open spec fn legal_moves(v: Position) -> Seq<Move> {
    if terminal(v.grid) {
        Seq::empty()
    } else {
        open_cells(v.grid, 9)
    }
}

/// The position after the side to move claims the cell of `m`.
pub open spec fn after_move(v: Position, m: Move) -> Position {
    Position {
        grid: v.grid.update(m.index(), Some(v.to_move)),
        to_move: v.to_move.other(),
        maximising: !v.maximising,
        history: v.history.push(m),
    }
}

/// The positions one move away, in the order of `legal_moves`.
pub open spec fn children_of(v: Position) -> Seq<Position> {
    Seq::new(legal_moves(v).len(), |k: int| after_move(v, legal_moves(v)[k]))
}

/// What every position of a game satisfies: nine cells, the maximising flag
/// set exactly for `X`, and each move of the history on a cell that is now
/// taken, with room on the board for them all.
pub open spec fn well_formed(v: Position) -> bool {
    &&& v.grid.len() == 9
    &&& v.maximising == (v.to_move == Player::X)
    &&& v.history.len() + empty_count(v.grid) <= 9
    &&& forall|k: int|
        0 <= k < v.history.len() ==> (#[trigger] v.history[k]).on_board()
            && v.grid[v.history[k].index()].is_some()
}

/// The cell that a character of a board text stands for, if it stands for one.
pub open spec fn char_cell(ch: char) -> Option<Option<Player>> {
    if ch == '.' {
        Some(None)
    } else if ch == 'x' {
        Some(Some(Player::X))
    } else if ch == 'o' {
        Some(Some(Player::O))
    } else {
        None
    }
}

/// A board text: nine characters, each of them `.`, `x` or `o`.
pub open spec fn valid_encoding(s: Seq<char>) -> bool {
    s.len() == 9 && forall|i: int| 0 <= i < 9 ==> char_cell(#[trigger] s[i]).is_some()
}

/// The grid that a board text describes.
pub open spec fn decode(s: Seq<char>) -> Seq<Option<Player>> {
    Seq::new(9, |i: int| char_cell(s[i]).unwrap())
}

/// The character that shows a cell.
pub open spec fn cell_char(c: Option<Player>) -> char {
    match c {
        None => '.',
        Some(Player::X) => 'x',
        Some(Player::O) => 'o',
    }
}

/// Row `r` as text: its three cells and a line feed.
pub open spec fn render_row(grid: Seq<Option<Player>>, r: int) -> Seq<char> {
    seq![cell_char(grid[3 * r]), cell_char(grid[3 * r + 1]), cell_char(grid[3 * r + 2]), '\n']
}

/// The first `n` rows as text.
pub open spec fn render_rows(grid: Seq<Option<Player>>, n: nat) -> Seq<char>
    decreases n,
{
    if n == 0 {
        Seq::empty()
    } else {
        render_rows(grid, (n - 1) as nat) + render_row(grid, n - 1)
    }
}

/// The board as text: the three rows, then an empty line.
pub open spec fn render(grid: Seq<Option<Player>>) -> Seq<char> {
    render_rows(grid, 3) + seq!['\n']
}

/// Claiming an empty cell leaves one empty cell fewer among the first `n`
/// when the cell is among them, and as many otherwise.
pub proof fn lemma_claim_open_cells(grid: Seq<Option<Player>>, i: int, p: Player, n: nat)
    requires
        grid.len() == 9,
        0 <= i < 9,
        n <= 9,
        grid[i].is_none(),
    ensures
        open_cells(grid.update(i, Some(p)), n).len() + (if i < n { 1int } else { 0int })
            == open_cells(grid, n).len(),
    decreases n,
{
    if n > 0 {
        lemma_claim_open_cells(grid, i, p, (n - 1) as nat);
    }
}

/// Among the first `n` cells at most `n` are empty.
pub proof fn lemma_open_cells_bound(grid: Seq<Option<Player>>, n: nat)
    ensures
        open_cells(grid, n).len() <= n,
    decreases n,
{
    if n > 0 {
        lemma_open_cells_bound(grid, (n - 1) as nat);
    }
}

/// Each legal move is on the board and names an empty cell.
pub proof fn lemma_open_cells_are_open(grid: Seq<Option<Player>>, n: nat, k: int)
    requires
        n <= 9,
        0 <= k < open_cells(grid, n).len(),
    ensures
        open_cells(grid, n)[k].on_board(),
        0 <= open_cells(grid, n)[k].index() < n,
        grid[open_cells(grid, n)[k].index()].is_none(),
        open_cells(grid, n)[k] == move_at(open_cells(grid, n)[k].index()),
    decreases n,
{
    if n > 0 {
        if grid[n - 1].is_none() {
            if k < open_cells(grid, (n - 1) as nat).len() {
                lemma_open_cells_are_open(grid, (n - 1) as nat, k);
            }
        } else {
            lemma_open_cells_are_open(grid, (n - 1) as nat, k);
        }
    }
}

/// Where a cell among the first `n` is empty, the list of empty cells is
/// not.
pub proof fn lemma_some_cell_is_open(grid: Seq<Option<Player>>, n: nat)
    requires
        exists|i: int| 0 <= i < n && (#[trigger] grid[i]).is_none(),
    ensures
        open_cells(grid, n).len() > 0,
    decreases n,
{
    if n > 0 && !grid[n - 1].is_none() {
        let i = choose|i: int| 0 <= i < n && (#[trigger] grid[i]).is_none();
        assert(0 <= i < n - 1 && grid[i].is_none());
        lemma_some_cell_is_open(grid, (n - 1) as nat);
    }
}

/// A cell that `p` claims completes no line for `q`, another side.
pub proof fn lemma_move_makes_no_line_for_the_other(
    grid: Seq<Option<Player>>,
    i: int,
    p: Player,
    q: Player,
)
    requires
        grid.len() == 9,
        0 <= i < 9,
        p != q,
        !has_line(grid, q),
    ensures
        !has_line(grid.update(i, Some(p)), q),
{
    let after = grid.update(i, Some(p));
    assert forall|r: int| 0 <= r < 3 implies !#[trigger] row_held(after, q, r) by {
        assert(!row_held(grid, q, r));
    }
    assert forall|c: int| 0 <= c < 3 implies !#[trigger] col_held(after, q, c) by {
        assert(!col_held(grid, q, c));
    }
}

} // verus!
