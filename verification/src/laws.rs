//! What holds of every board, stated over the model and proved.

use crate::rules::{
    after_move, cell_char, char_cell, children_of, decode, empty_count, has_line, is_full,
    legal_moves, lemma_claim_open_cells, lemma_open_cells_are_open, lemma_open_cells_bound,
    lemma_some_cell_is_open, open_cells, render, render_row, render_rows, score_of, terminal,
    valid_encoding, well_formed, Move, Player, Position,
};
use crate::search::lemma_child_has_fewer_empty;
use vstd::prelude::*;

verus! {

/// A board text comes back when the board it describes is shown: the same
/// nine characters, with a line feed after each three and one more at the
/// end.
pub proof fn law_text_round_trip(s: Seq<char>)
    requires
        valid_encoding(s),
    ensures
        render(decode(s)) == s.subrange(0, 3) + seq!['\n'] + s.subrange(3, 6) + seq!['\n']
            + s.subrange(6, 9) + seq!['\n', '\n'],
        forall|i: int| 0 <= i < 9 ==> #[trigger] render(decode(s))[i + i / 3] == s[i],
{
    let grid = decode(s);
    assert forall|i: int| 0 <= i < 9 implies cell_char(#[trigger] grid[i]) == s[i] by {
        assert(char_cell(s[i]).is_some());
    }
    reveal_with_fuel(render_rows, 4);
    let shown = s.subrange(0, 3) + seq!['\n'] + s.subrange(3, 6) + seq!['\n'] + s.subrange(6, 9)
        + seq!['\n', '\n'];
    assert(render_row(grid, 0) =~= s.subrange(0, 3) + seq!['\n']);
    assert(render_row(grid, 1) =~= s.subrange(3, 6) + seq!['\n']);
    assert(render_row(grid, 2) =~= s.subrange(6, 9) + seq!['\n']);
    assert(render(grid) =~= shown);
    assert forall|i: int| 0 <= i < 9 implies #[trigger] render(decode(s))[i + i / 3] == s[i] by {
        assert(shown[i + i / 3] == s[i]);
    }
}

/// The score is 10, -10 or 0: 10 exactly where `X` holds a line, -10 exactly
/// where `O` holds one and `X` none, 0 exactly where neither holds one.
pub proof fn law_score_by_lines(grid: Seq<Option<Player>>)
    ensures
        score_of(grid) == 10 || score_of(grid) == -10 || score_of(grid) == 0,
        score_of(grid) == 10 <==> has_line(grid, Player::X),
        score_of(grid) == -10 <==> has_line(grid, Player::O) && !has_line(grid, Player::X),
        score_of(grid) == 0 <==> !has_line(grid, Player::X) && !has_line(grid, Player::O),
{
}

/// Where the two sides do not both hold a line, each side's score stands
/// exactly for a line of that side and none of the other.
pub proof fn law_score_of_one_winner(grid: Seq<Option<Player>>)
    requires
        !(has_line(grid, Player::X) && has_line(grid, Player::O)),
    ensures
        score_of(grid) == 10 <==> has_line(grid, Player::X) && !has_line(grid, Player::O),
        score_of(grid) == -10 <==> has_line(grid, Player::O) && !has_line(grid, Player::X),
        score_of(grid) == 0 <==> !has_line(grid, Player::X) && !has_line(grid, Player::O),
{
}

/// The empty cells are counted as one would count them: the number of
/// cells of the grid that hold nothing.
pub proof fn law_empty_count_counts_empty_cells(grid: Seq<Option<Player>>)
    requires
        grid.len() == 9,
    ensures
        empty_count(grid) == grid.filter(|c: Option<Player>| c.is_none()).len(),
        empty_count(grid) <= 9,
        empty_count(grid) == 0 <==> is_full(grid),
{
    lemma_open_cells_match_filter(grid, 9);
    assert(grid.take(9) =~= grid);
    lemma_open_cells_bound(grid, 9);
    if empty_count(grid) == 0 {
        assert forall|i: int| 0 <= i < 9 implies (#[trigger] grid[i]).is_some() by {
            if grid[i].is_none() {
                lemma_some_cell_is_open(grid, 9);
            }
        }
    } else {
        lemma_open_cells_are_open(grid, 9, 0);
        assert(grid[open_cells(grid, 9)[0].index()].is_none());
    }
}

/// Among the first `n` cells, the list of empty ones is as long as the
/// filter of those cells by emptiness.
proof fn lemma_open_cells_match_filter(grid: Seq<Option<Player>>, n: nat)
    requires
        n <= grid.len(),
    ensures
        open_cells(grid, n).len() == grid.take(n as int).filter(
            |c: Option<Player>| c.is_none(),
        ).len(),
    decreases n,
{
    reveal(Seq::filter);
    if n > 0 {
        lemma_open_cells_match_filter(grid, (n - 1) as nat);
        assert(grid.take(n as int).drop_last() =~= grid.take(n - 1));
    }
}

/// A board has as many children as it has empty cells while the game goes
/// on, and none once it is over; each child has one empty cell fewer.
pub proof fn law_children_count(v: Position)
    requires
        well_formed(v),
    ensures
        terminal(v.grid) ==> children_of(v).len() == 0,
        !terminal(v.grid) ==> children_of(v).len() == empty_count(v.grid) && empty_count(v.grid)
            > 0,
        forall|k: int|
            0 <= k < children_of(v).len() ==> empty_count((#[trigger] children_of(v)[k]).grid) + 1
                == empty_count(v.grid),
{
    if !terminal(v.grid) {
        law_empty_count_counts_empty_cells(v.grid);
        assert forall|k: int| 0 <= k < children_of(v).len() implies empty_count(
            (#[trigger] children_of(v)[k]).grid,
        ) + 1 == empty_count(v.grid) by {
            lemma_child_has_fewer_empty(v, k);
        }
    }
}

/// A move to an empty cell leads from one position of a game to another:
/// the cell is taken by the side that moved and no other cell changes, the
/// turn and the maximising flag pass to the other side, the history grows by
/// that move, and one empty cell fewer is left.
pub proof fn law_move_keeps_the_game(v: Position, m: Move)
    requires
        well_formed(v),
        m.on_board(),
        v.grid[m.index()].is_none(),
    ensures
        well_formed(after_move(v, m)),
        after_move(v, m).grid[m.index()] == Some(v.to_move),
        forall|i: int| 0 <= i < 9 && i != m.index() ==> after_move(v, m).grid[i] == v.grid[i],
        after_move(v, m).to_move != v.to_move,
        after_move(v, m).history.len() == v.history.len() + 1,
        after_move(v, m).history.last() == m,
        empty_count(after_move(v, m).grid) + 1 == empty_count(v.grid),
{
    lemma_claim_open_cells(v.grid, m.index(), v.to_move, 9);
    let c = after_move(v, m);
    assert forall|j: int| 0 <= j < c.history.len() implies (#[trigger] c.history[j]).on_board()
        && c.grid[c.history[j].index()].is_some() by {
        if j < v.history.len() {
            assert(v.history[j].on_board());
        }
    }
}

/// In a position of a game at most nine moves have been made, and the
/// maximising side is `X`.
pub proof fn law_history_fits_the_board(v: Position)
    requires
        well_formed(v),
    ensures
        v.history.len() <= 9,
        v.maximising <==> v.to_move == Player::X,
{
}

/// The legal moves are exactly the moves to the empty cells of a board on
/// which the game goes on, each once and in row-major order.
pub proof fn law_legal_moves_are_the_empty_cells(v: Position)
    requires
        well_formed(v),
        !terminal(v.grid),
    ensures
        forall|k: int|
            0 <= k < legal_moves(v).len() ==> (#[trigger] legal_moves(v)[k]).on_board()
                && v.grid[legal_moves(v)[k].index()].is_none(),
        forall|j: int, k: int|
            0 <= j < k < legal_moves(v).len() ==> (#[trigger] legal_moves(v)[j]).index() < (
            #[trigger] legal_moves(v)[k]).index(),
        forall|m: Move|
            m.on_board() && v.grid[m.index()].is_none() ==> #[trigger] legal_moves(v).contains(m),
{
    assert forall|k: int| 0 <= k < legal_moves(v).len() implies (#[trigger] legal_moves(
        v,
    )[k]).on_board() && v.grid[legal_moves(v)[k].index()].is_none() by {
        lemma_open_cells_are_open(v.grid, 9, k);
    }
    assert forall|j: int, k: int| 0 <= j < k < legal_moves(v).len() implies (#[trigger] legal_moves(
        v,
    )[j]).index() < (#[trigger] legal_moves(v)[k]).index() by {
        lemma_open_cells_ascend(v.grid, 9, j, k);
    }
    assert forall|m: Move| m.on_board() && v.grid[m.index()].is_none() implies #[trigger] legal_moves(
        v,
    ).contains(m) by {
        lemma_open_cells_hold_each(v.grid, 9, m);
    }
}

/// The list of empty cells goes up in row-major order.
proof fn lemma_open_cells_ascend(grid: Seq<Option<Player>>, n: nat, j: int, k: int)
    requires
        n <= 9,
        0 <= j < k < open_cells(grid, n).len(),
    ensures
        open_cells(grid, n)[j].index() < open_cells(grid, n)[k].index(),
    decreases n,
{
    if n > 0 {
        let rest = open_cells(grid, (n - 1) as nat);
        if k < rest.len() {
            lemma_open_cells_ascend(grid, (n - 1) as nat, j, k);
        } else {
            lemma_open_cells_are_open(grid, (n - 1) as nat, j);
        }
    }
}

/// Each empty cell among the first `n` is in the list of empty cells.
proof fn lemma_open_cells_hold_each(grid: Seq<Option<Player>>, n: nat, m: Move)
    requires
        n <= 9,
        m.on_board(),
        m.index() < n,
        grid[m.index()].is_none(),
    ensures
        open_cells(grid, n).contains(m),
    decreases n,
{
    let rest = open_cells(grid, (n - 1) as nat);
    if m.index() == n - 1 {
        assert(rest.push(m)[rest.len() as int] == m);
    } else {
        lemma_open_cells_hold_each(grid, (n - 1) as nat, m);
        let k = rest.index_of(m);
        assert(open_cells(grid, n)[k] == m);
    }
}

} // verus!
