//! Moves as text: two digits, the row and then the column.

use crate::rules::{GameError, Move};
use vstd::prelude::*;
use vstd::string::*;

verus! {

/// The row or column that a character names: `0`, `1` or `2`.
pub open spec fn coordinate_of(ch: char) -> Option<usize> {
    if ch == '0' {
        Some(0usize)
    } else if ch == '1' {
        Some(1usize)
    } else if ch == '2' {
        Some(2usize)
    } else {
        None
    }
}

/// The move that a text names: exactly two characters, the row and then the
/// column, each a digit on the board.
pub open spec fn move_of_text(s: Seq<char>) -> Option<Move> {
    if s.len() == 2 && coordinate_of(s[0]).is_some() && coordinate_of(s[1]).is_some() {
        Some(Move { row: coordinate_of(s[0]).unwrap(), col: coordinate_of(s[1]).unwrap() })
    } else {
        None
    }
}

/// Reads one character as a row or column.
fn coordinate(ch: char) -> (r: Option<usize>)
    ensures
        r == coordinate_of(ch),
{
    if ch == '0' {
        Some(0)
    } else if ch == '1' {
        Some(1)
    } else if ch == '2' {
        Some(2)
    } else {
        None
    }
}

/// Reads a move from its text, with nothing before or after the two digits.
/// The move that comes back is on the board.
pub fn parse_move(text: &str) -> (r: Result<Move, GameError>)
    ensures
        match r {
            Ok(m) => move_of_text(text@) == Some(m) && m.on_board(),
            Err(e) => move_of_text(text@).is_none() && e == GameError::MalformedMoveInput,
        },
{
    if text.unicode_len() != 2 {
        return Err(GameError::MalformedMoveInput);
    }
    match (coordinate(text.get_char(0)), coordinate(text.get_char(1))) {
        (Some(row), Some(col)) => Ok(Move { row, col }),
        _ => Err(GameError::MalformedMoveInput),
    }
}

} // verus!
