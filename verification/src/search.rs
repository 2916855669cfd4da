//! Exhaustive minimax: from a position, the end of the game that both sides
//! reach when each plays its best, `X` for the highest score and `O` for the
//! lowest. Nothing is pruned and nothing is remembered, so among equally
//! good moves the first in row-major order is the one played.

use crate::board::Node;
use crate::laws::law_legal_moves_are_the_empty_cells;
use crate::rules::{
    after_move, children_of, empty_count, has_line, legal_moves, lemma_claim_open_cells,
    lemma_move_makes_no_line_for_the_other, lemma_open_cells_are_open, lemma_some_cell_is_open,
    open_cells, score_of, terminal, well_formed, Move, Player, Position,
};
use vstd::prelude::*;

verus! {

/// The score that the search starts from: worse for the side to move than
/// any score of a real board.
pub open spec fn opening_bound(maximising: bool) -> int {
    if maximising {
        -100
    } else {
        100
    }
}

/// Whether `candidate` is strictly better than `bound` for the side to move.
pub open spec fn improves(maximising: bool, candidate: int, bound: int) -> bool {
    if maximising {
        candidate > bound
    } else {
        candidate < bound
    }
}

/// The end of the game under best play from `v`: `v` itself where the game
/// is over, else the best of what its children lead to.
pub open spec fn best_play(v: Position) -> Position
    decreases empty_count(v.grid), empty_count(v.grid) + 1,
    when v.grid.len() == 9
{
    if terminal(v.grid) {
        v
    } else {
        best_among(v, empty_count(v.grid)).0
    }
}

/// The search after the first `n` children of `v`: the best end found so
/// far with its score, where a later child replaces an earlier one only if
/// it is strictly better. Before the first child this is `v` itself with the
/// opening bound.
pub open spec fn best_among(v: Position, n: nat) -> (Position, int)
    decreases empty_count(v.grid), n,
    when v.grid.len() == 9 && !terminal(v.grid) && n <= empty_count(v.grid)
{
    if n == 0 {
        (v, opening_bound(v.maximising))
    } else {
        let found = best_among(v, (n - 1) as nat);
        let leaf = {
            proof {
                lemma_child_has_fewer_empty(v, n - 1);
            }
            best_play(children_of(v)[n - 1])
        };
        let score = score_of(leaf.grid);
        if improves(v.maximising, score, found.1) {
            (leaf, score)
        } else {
            found
        }
    }
}

/// A child of a position that is not over is a position of a game too, with
/// one empty cell fewer.
pub proof fn lemma_child_has_fewer_empty(v: Position, k: int)
    requires
        v.grid.len() == 9,
        !terminal(v.grid),
        0 <= k < empty_count(v.grid),
    ensures
        children_of(v)[k] == after_move(v, open_cells(v.grid, 9)[k]),
        children_of(v)[k].grid.len() == 9,
        empty_count(children_of(v)[k].grid) + 1 == empty_count(v.grid),
        well_formed(v) ==> well_formed(children_of(v)[k]),
{
    let m = open_cells(v.grid, 9)[k];
    lemma_open_cells_are_open(v.grid, 9, k);
    lemma_claim_open_cells(v.grid, m.index(), v.to_move, 9);
    if well_formed(v) {
        let c = after_move(v, m);
        assert forall|j: int| 0 <= j < c.history.len() implies (#[trigger] c.history[j]).on_board()
            && c.grid[c.history[j].index()].is_some() by {
            if j < v.history.len() {
                assert(v.history[j].on_board());
            }
        }
    }
}

/// Searches the whole game below `node` and returns the end of the game
/// under best play by both sides: its history holds the moves already made
/// and then the moves of that play.
pub fn minimax(node: Node) -> (leaf: Node)
    ensures
        leaf@ == best_play(node@),
    decreases empty_count(node@.grid),
{
    proof {
        use_type_invariant(&node);
    }
    if node.is_terminal() {
        return node;
    }
    let maximising = node.is_maximising();
    let mut best_score: i32 = if maximising {
        -100
    } else {
        100
    };
    let mut best_node = node.clone();
    let children = node.children();
    let mut k: usize = 0;
    while k < children.len()
        invariant
            k <= children@.len(),
            node@.grid.len() == 9,
            !terminal(node@.grid),
            maximising == node@.maximising,
            children@.len() == empty_count(node@.grid),
            forall|j: int|
                0 <= j < children@.len() ==> (#[trigger] children@[j])@ == children_of(node@)[j],
            best_among(node@, k as nat) == (best_node@, best_score as int),
        decreases children@.len() - k,
    {
        proof {
            lemma_child_has_fewer_empty(node@, k as int);
        }
        let variation = minimax(children[k].clone());
        let score = variation.score();
        let better = if maximising {
            score > best_score
        } else {
            score < best_score
        };
        if better {
            best_node = variation;
            best_score = score;
        }
        k += 1;
    }
    best_node
}

/// The end of a game that goes on from `v`: a finished position whose
/// history begins with the history of `v`.
pub open spec fn ends_from(v: Position, leaf: Position) -> bool {
    &&& well_formed(leaf)
    &&& terminal(leaf.grid)
    &&& v.history.len() <= leaf.history.len()
    &&& leaf.history.subrange(0, v.history.len() as int) == v.history
}

/// The end of a game that goes on from `v` by at least one move, the first
/// of them a legal move of `v`.
pub open spec fn continues_from(v: Position, leaf: Position) -> bool {
    &&& ends_from(v, leaf)
    &&& v.history.len() < leaf.history.len()
    &&& legal_moves(v).contains(leaf.history[v.history.len() as int])
}

/// The move that best play makes next: none where the game is over, else
/// the move that follows the history of `v` in the history of its best end.
pub open spec fn best_reply(v: Position) -> Option<Move> {
    if terminal(v.grid) {
        None
    } else {
        Some(best_play(v).history[v.history.len() as int])
    }
}

/// Before the first child the search holds the position itself, with the
/// opening bound; after at least one child it holds the end of a game that
/// goes on from the position, with that end's score.
pub proof fn lemma_best_among_continues(v: Position, n: nat)
    requires
        well_formed(v),
        !terminal(v.grid),
        n <= empty_count(v.grid),
    ensures
        n == 0 ==> best_among(v, n) == (v, opening_bound(v.maximising)),
        n > 0 ==> continues_from(v, best_among(v, n).0) && best_among(v, n).1 == score_of(
            best_among(v, n).0.grid,
        ),
    decreases empty_count(v.grid), n,
{
    if n > 0 {
        let k = n - 1;
        lemma_best_among_continues(v, k as nat);
        lemma_child_has_fewer_empty(v, k);
        let child = children_of(v)[k];
        let leaf = best_play(child);
        law_best_play_ends_the_game(child);
        assert(leaf.history[v.history.len() as int] == child.history[v.history.len() as int]) by {
            assert(leaf.history.subrange(0, child.history.len() as int)[v.history.len() as int]
                == leaf.history[v.history.len() as int]);
        }
        assert(legal_moves(v)[k] == child.history[v.history.len() as int]);
        assert(leaf.history.subrange(0, v.history.len() as int) =~= v.history) by {
            assert forall|j: int| 0 <= j < v.history.len() implies leaf.history[j]
                == v.history[j] by {
                assert(leaf.history.subrange(0, child.history.len() as int)[j] == leaf.history[j]);
            }
        }
    }
}

/// Best play ends the game: what the search returns is a finished,
/// well-formed position whose history begins with the moves already made.
/// Where the game was not over, at least one move follows them, and the
/// first that follows is a legal move.
pub proof fn law_best_play_ends_the_game(v: Position)
    requires
        well_formed(v),
    ensures
        ends_from(v, best_play(v)),
        terminal(v.grid) ==> best_play(v) == v,
        !terminal(v.grid) ==> continues_from(v, best_play(v)),
    decreases empty_count(v.grid), empty_count(v.grid) + 1,
{
    if terminal(v.grid) {
        assert(v.history.subrange(0, v.history.len() as int) =~= v.history);
    } else {
        assert(empty_count(v.grid) > 0) by {
            lemma_some_cell_is_open(v.grid, 9);
        }
        lemma_best_among_continues(v, empty_count(v.grid));
    }
}

/// The score of the end that best play reaches from the child at place `k`.
pub open spec fn child_score(v: Position, k: int) -> int {
    score_of(best_play(children_of(v)[k]).grid)
}

/// After the first `n` children, `n` at least one, the search holds what
/// best play reaches from one of them: no child among them is better for
/// the side to move, and every child before that one is strictly worse.
pub proof fn lemma_best_among_is_best(v: Position, n: nat) -> (k: int)
    requires
        well_formed(v),
        !terminal(v.grid),
        0 < n <= empty_count(v.grid),
    ensures
        0 <= k < n,
        best_among(v, n) == (best_play(children_of(v)[k]), child_score(v, k)),
        forall|j: int| 0 <= j < n ==> !improves(v.maximising, #[trigger] child_score(v, j), child_score(v, k)),
        forall|j: int| 0 <= j < k ==> improves(v.maximising, child_score(v, k), #[trigger] child_score(v, j)),
    decreases n,
{
    let last = n - 1;
    lemma_child_has_fewer_empty(v, last);
    law_best_play_ends_the_game(children_of(v)[last]);
    if n == 1 {
        assert(best_among(v, 0).1 == opening_bound(v.maximising));
        last
    } else {
        let before = lemma_best_among_is_best(v, last as nat);
        if improves(v.maximising, child_score(v, last), child_score(v, before)) {
            last
        } else {
            before
        }
    }
}

/// Best play is best: while the game goes on, the end that the search
/// returns is the end that best play reaches from one of the children; no
/// child promises the side to move a better score, and every child before
/// that one promises a strictly worse one, so that of equally good moves
/// the first is made.
pub proof fn law_best_play_is_best(v: Position) -> (k: int)
    requires
        well_formed(v),
        !terminal(v.grid),
    ensures
        0 <= k < children_of(v).len(),
        best_play(v) == best_play(children_of(v)[k]),
        best_reply(v) == Some(legal_moves(v)[k]),
        forall|j: int|
            0 <= j < children_of(v).len() ==> !improves(
                v.maximising,
                #[trigger] child_score(v, j),
                score_of(best_play(v).grid),
            ),
        forall|j: int|
            0 <= j < k ==> improves(
                v.maximising,
                score_of(best_play(v).grid),
                #[trigger] child_score(v, j),
            ),
{
    lemma_some_cell_is_open(v.grid, 9);
    let k = lemma_best_among_is_best(v, empty_count(v.grid));
    lemma_child_has_fewer_empty(v, k);
    law_best_play_ends_the_game(children_of(v)[k]);
    let child = children_of(v)[k];
    let leaf = best_play(child);
    assert(leaf.history.subrange(0, child.history.len() as int)[v.history.len() as int]
        == leaf.history[v.history.len() as int]);
    k
}

/// A side that can complete a line with its move wins under best play: the
/// search ends on a board that scores 10 where that side is `X` and -10
/// where it is `O`.
pub proof fn law_winning_move_is_taken(v: Position, m: Move)
    requires
        well_formed(v),
        !terminal(v.grid),
        m.on_board(),
        v.grid[m.index()].is_none(),
        has_line(after_move(v, m).grid, v.to_move),
    ensures
        score_of(best_play(v).grid) == (if v.to_move == Player::X { 10int } else { -10int }),
{
    let k = law_best_play_is_best(v);
    law_legal_moves_are_the_empty_cells(v);
    assert(legal_moves(v).contains(m));
    let w = legal_moves(v).index_of(m);
    let child = children_of(v)[w];
    lemma_child_has_fewer_empty(v, w);
    law_best_play_ends_the_game(child);
    law_best_play_ends_the_game(v);
    if v.to_move == Player::O {
        lemma_move_makes_no_line_for_the_other(v.grid, m.index(), Player::O, Player::X);
    }
    assert(terminal(child.grid));
    assert(child_score(v, w) == score_of(child.grid));
}

/// The move that best play makes next from `node`, if the game is not over.
/// It is on the board and its cell is empty.
pub fn best_move(node: &Node) -> (r: Option<Move>)
    ensures
        r == best_reply(node@),
        r.is_some() == !terminal(node@.grid),
        match r {
            Some(m) => m.on_board() && node@.grid[m.index()].is_none(),
            None => true,
        },
{
    proof {
        use_type_invariant(node);
        law_best_play_ends_the_game(node@);
    }
    if node.is_terminal() {
        return None;
    }
    let leaf = minimax(node.clone());
    let line = leaf.moves();
    let played = node.moves();
    let m = line[played.len()];
    proof {
        let k = legal_moves(node@).index_of(m);
        lemma_open_cells_are_open(node@.grid, 9, k);
    }
    Some(m)
}

} // verus!
