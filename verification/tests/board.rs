use tictactoe::board::Node;
use tictactoe::rules::{GameError, Move, Player};

fn board(text: &str, player: Player) -> Node {
    Node::from_string(String::from(text), player).unwrap()
}

#[test]
fn from_string() {
    let _ = Node::from_string(String::from("ox.o....."), Player::X).unwrap();
}

#[test]
fn to_string() {
    let node = Node::from_string(String::from("ox.o....."), Player::X).unwrap();
    let _ = node.string();
}

#[test]
fn to_score_0() {
    let node = Node::from_string(String::from("ox.o....."), Player::X).unwrap();
    let score = node.score();
    assert_eq!(0, score);
}

#[test]
fn to_score_10() {
    let node = Node::from_string(String::from("xxxoo...."), Player::X).unwrap();
    let score = node.score();
    assert_eq!(10, score);
}

#[test]
fn to_score_minus_10() {
    let node = Node::from_string(String::from("ox.ox.o.."), Player::X).unwrap();
    let score = node.score();
    assert_eq!(-10, score);
    let node = Node::from_string(String::from(".xo.xo..o"), Player::X).unwrap();
    let score = node.score();
    assert_eq!(-10, score);
}

#[test]
fn children() {
    let node = Node::from_string(String::from("ox.o....."), Player::X).unwrap();
    let children = node.children();
    assert_eq!(6, children.len());
}

#[test]
fn no_children() {
    let node = Node::from_string(String::from("ox.ox.o.."), Player::X).unwrap();
    let children = node.children();
    assert_eq!(0, children.len());
}

#[test]
fn make_move() {
    let node = Node::from_string(String::from("ox.o....."), Player::X).unwrap();
    let child = node.make_move(Move { row: 0, col: 2 }).unwrap();
    assert_eq!("oxx\no..\n...\n\n", child.string());
}

#[test]
fn from_string_refuses_short_text() {
    let r = Node::from_string(String::from("ox.o...."), Player::X);
    assert_eq!(Some(GameError::InvalidEncoding), r.err());
}

#[test]
fn from_string_refuses_long_text() {
    let r = Node::from_string(String::from("ox.o......"), Player::O);
    assert_eq!(Some(GameError::InvalidEncoding), r.err());
}

#[test]
fn from_string_refuses_empty_text() {
    let r = Node::from_string(String::new(), Player::O);
    assert_eq!(Some(GameError::InvalidEncoding), r.err());
}

#[test]
fn from_string_refuses_other_characters() {
    for text in ["ox.o....X", "         ", "ox.o...0.", "OX.......", "ox.o....\n"] {
        let r = Node::from_string(String::from(text), Player::X);
        assert_eq!(Some(GameError::InvalidEncoding), r.err());
    }
}

#[test]
fn from_string_counts_characters_not_bytes() {
    let r = Node::from_string(String::from("ox.o...é"), Player::X);
    assert_eq!(Some(GameError::InvalidEncoding), r.err());
    let r = Node::from_string(String::from("ox.o....é"), Player::X);
    assert_eq!(Some(GameError::InvalidEncoding), r.err());
}

#[test]
fn new_board_has_no_history_and_the_given_side() {
    let node = board(".........", Player::O);
    assert!(node.moves().is_empty());
    assert_eq!(Player::O, node.to_move());
    assert!(!node.is_maximising());
    let node = board(".........", Player::X);
    assert_eq!(Player::X, node.to_move());
    assert!(node.is_maximising());
}

#[test]
fn string_gives_the_text_back_in_three_lines() {
    assert_eq!("...\n...\n...\n\n", board(".........", Player::X).string());
    assert_eq!("ox.\no..\n...\n\n", board("ox.o.....", Player::X).string());
    assert_eq!("xox\noxo\noxo\n\n", board("xoxoxooxo", Player::O).string());
    assert_eq!("..x\n.o.\nx..\n\n", board("..x.o.x..", Player::O).string());
}

#[test]
fn string_round_trips_every_cell() {
    let cells = ['.', 'x', 'o'];
    for i in 0..9 {
        for ch in cells {
            let mut text: Vec<char> = ".........".chars().collect();
            text[i] = ch;
            let text: String = text.into_iter().collect();
            let shown = board(&text, Player::X).string();
            let expected = format!("{}\n{}\n{}\n\n", &text[0..3], &text[3..6], &text[6..9]);
            assert_eq!(expected, shown);
        }
    }
}

#[test]
fn score_finds_every_line() {
    let lines = [
        "ppp......", "...ppp...", "......ppp", "p..p..p..", ".p..p..p.", "..p..p..p", "p...p...p",
        "..p.p.p..",
    ];
    for line in lines {
        let x = board(&line.replace('p', "x"), Player::X);
        assert_eq!(10, x.score());
        assert!(x.is_terminal());
        let o = board(&line.replace('p', "o"), Player::X);
        assert_eq!(-10, o.score());
        assert!(o.is_terminal());
    }
}

#[test]
fn score_is_zero_without_a_line() {
    for text in [".........", "xx.oo....", "xoxxoooxx", "xo.ox.o..", "x.x.o.x.o"] {
        assert_eq!(0, board(text, Player::X).score());
    }
}

#[test]
fn score_needs_one_owner_for_the_whole_line() {
    assert_eq!(0, board("xxo......", Player::X).score());
    assert_eq!(0, board("x...o...x", Player::X).score());
    assert_eq!(0, board("o..x..o..", Player::X).score());
}

#[test]
fn score_looks_for_x_first() {
    assert_eq!(10, board("xxxooo...", Player::X).score());
    assert_eq!(10, board("oooxxx...", Player::O).score());
    assert_eq!(10, board("ox.ox.ox.", Player::O).score());
}

#[test]
fn is_terminal_on_win_draw_and_open_board() {
    assert!(!board(".........", Player::O).is_terminal());
    assert!(!board("ox.o.....", Player::X).is_terminal());
    assert!(!board("xoxxoooxx".replace("xx", "x.").as_str(), Player::X).is_terminal());
    assert!(board("xoxxoooxx", Player::X).is_terminal());
    assert!(board("xxxoo....", Player::O).is_terminal());
    assert!(board("ox.ox.o..", Player::X).is_terminal());
}

#[test]
fn legal_moves_come_row_by_row() {
    let node = board("ox.o.....", Player::X);
    let expected = vec![
        Move { row: 0, col: 2 },
        Move { row: 1, col: 1 },
        Move { row: 1, col: 2 },
        Move { row: 2, col: 0 },
        Move { row: 2, col: 1 },
        Move { row: 2, col: 2 },
    ];
    assert_eq!(expected, node.legal_moves());
}

#[test]
fn legal_moves_are_none_once_the_game_is_over() {
    assert!(board("xxxoo....", Player::O).legal_moves().is_empty());
    assert!(board("xoxxoooxx", Player::O).legal_moves().is_empty());
}

#[test]
fn children_are_the_legal_moves_applied_in_order() {
    let node = board("ox.o.....", Player::X);
    let shown: Vec<String> = node.children().iter().map(|c| c.string()).collect();
    let expected = vec![
        "oxx\no..\n...\n\n",
        "ox.\nox.\n...\n\n",
        "ox.\no.x\n...\n\n",
        "ox.\no..\nx..\n\n",
        "ox.\no..\n.x.\n\n",
        "ox.\no..\n..x\n\n",
    ];
    assert_eq!(expected, shown);
    for (child, m) in node.children().iter().zip(node.legal_moves()) {
        assert_eq!(vec![m], child.moves());
        assert_eq!(Player::O, child.to_move());
        assert!(!child.is_maximising());
    }
}

#[test]
fn children_count_the_empty_cells() {
    for text in [".........", "x........", "xo.......", "xoxxo.oxx", "xoxxoo.x."] {
        let node = board(text, Player::X);
        assert!(!node.is_terminal());
        let empty = text.chars().filter(|c| *c == '.').count();
        assert_eq!(empty, node.children().len());
    }
    assert_eq!(0, board("xoxxoooxx", Player::X).children().len());
}

#[test]
fn make_move_on_a_taken_cell_is_refused() {
    let node = board("ox.o.....", Player::X);
    for m in [Move { row: 0, col: 0 }, Move { row: 0, col: 1 }, Move { row: 1, col: 0 }] {
        assert_eq!(Some(GameError::CellOccupied), node.make_move(m).err());
    }
    assert_eq!("ox.\no..\n...\n\n", node.string());
}

#[test]
fn make_move_passes_the_turn_and_records_the_move() {
    let node = board(".........", Player::O);
    let one = node.make_move(Move { row: 1, col: 1 }).unwrap();
    assert_eq!("...\n.o.\n...\n\n", one.string());
    assert_eq!(Player::X, one.to_move());
    assert!(one.is_maximising());
    let two = one.make_move(Move { row: 2, col: 0 }).unwrap();
    assert_eq!("...\n.o.\nx..\n\n", two.string());
    assert_eq!(Player::O, two.to_move());
    assert!(!two.is_maximising());
    assert_eq!(vec![Move { row: 1, col: 1 }, Move { row: 2, col: 0 }], two.moves());
    assert_eq!("...\n...\n...\n\n", node.string());
    assert!(node.moves().is_empty());
}

#[test]
fn make_move_is_allowed_after_the_game_is_won() {
    let node = board("xxxoo....", Player::O);
    let next = node.make_move(Move { row: 1, col: 2 }).unwrap();
    assert_eq!("xxx\nooo\n...\n\n", next.string());
    assert_eq!(10, next.score());
}

#[test]
fn clone_keeps_the_whole_position() {
    let node = board("ox.o.....", Player::X).make_move(Move { row: 2, col: 2 }).unwrap();
    let copy = node.clone();
    assert_eq!(node.string(), copy.string());
    assert_eq!(node.moves(), copy.moves());
    assert_eq!(node.to_move(), copy.to_move());
    assert_eq!(node.is_maximising(), copy.is_maximising());
}

#[test]
fn opponent_swaps_the_sides() {
    assert_eq!(Player::O, Player::X.opponent());
    assert_eq!(Player::X, Player::O.opponent());
}
