use chess_engine::{Move, OpeningDatabase, ParseError, PgnParser};

fn mv(text: &str) -> Move {
    Move::from_uci(text).unwrap()
}

#[test]
fn test_opening() {
    let test_in = String::from(
        "1.e4 c6 2.d4 d5 3.e5 Bf5 4.Bd3 Bxd3 5.Qxd3 e6 6.f4 c5 7.c3 Nc6 8.Nf3 Qb6 9.O-O Nh6",
    );
    let mut db = OpeningDatabase::new();
    db.add_png(test_in);
    let lines = db.print();
    assert_eq!(lines.len(), 20);
}

#[test]
fn opening_line_is_followed_move_by_move() {
    let mut db = OpeningDatabase::new();
    db.add_png(String::from("1. e4 e5 2. Nf3 Nc6 3. Bb5 a6"));
    assert!(!db.is_exhausted());
    assert_eq!(db.suggest(), Some(mv("e2e4")));
    assert!(db.contains_child(mv("e2e4")));
    assert!(!db.contains_child(mv("d2d4")));
    assert!(db.choose_opening_move(mv("e2e4")));
    assert_eq!(db.suggest(), Some(mv("e7e5")));
    assert!(db.choose_opening_move(mv("e7e5")));
    assert!(db.choose_opening_move(mv("g1f3")));
    assert!(db.choose_opening_move(mv("b8c6")));
    assert!(db.choose_opening_move(mv("f1b5")));
    assert!(!db.is_exhausted());
    assert!(!db.is_end());
    assert!(db.choose_opening_move(mv("a7a6")));
    assert!(db.is_end());
    assert!(db.is_exhausted());
    assert_eq!(db.suggest(), None);
}

#[test]
fn opening_descend_fails_off_the_book() {
    let mut db = OpeningDatabase::new();
    db.add_png(String::from("1. d4 d5"));
    assert!(!db.choose_opening_move(mv("e2e4")));
    assert_eq!(db.suggest(), Some(mv("d2d4")));
}

#[test]
fn opening_castling_and_captures_resolve() {
    let mut db = OpeningDatabase::new();
    db.add_png(String::from("1. e4 e5 2. Nf3 Nc6 3. Bc4 Nf6 4. O-O Nxe4"));
    for text in ["e2e4", "e7e5", "g1f3", "b8c6", "f1c4", "g8f6", "e1g1", "f6e4"] {
        assert!(db.choose_opening_move(mv(text)), "{}", text);
    }
    assert!(db.is_end());
}

#[test]
fn opening_line_with_odd_number_of_moves() {
    let mut db = OpeningDatabase::new();
    db.add_png(String::from("1. e4 e5 2. Nf3"));
    assert!(db.choose_opening_move(mv("e2e4")));
    assert!(db.choose_opening_move(mv("e7e5")));
    assert!(db.choose_opening_move(mv("g1f3")));
    assert!(db.is_end());
}

#[test]
fn opening_bad_line_is_skipped() {
    let mut db = OpeningDatabase::new();
    db.add_png(String::from("1. e4 e5 2. Ke3 Nc6"));
    assert!(db.is_exhausted());
    assert_eq!(db.suggest(), None);
    db.add_png(String::from("1. e4 e5 1-0"));
    assert_eq!(db.suggest(), None);
    db.add_png(String::from("1. d4 d5"));
    assert_eq!(db.suggest(), Some(mv("d2d4")));
}

#[test]
fn opening_empty_text_marks_the_root() {
    let mut db = OpeningDatabase::new();
    assert!(!db.is_end());
    db.add_png(String::from("   "));
    assert!(db.is_end());
    assert!(db.is_exhausted());
}

#[test]
fn opening_clone_keeps_the_lines() {
    let mut db = OpeningDatabase::new();
    db.add_png(String::from("1. c4 e5"));
    let copy = db.clone();
    assert!(db.choose_opening_move(mv("c2c4")));
    assert_eq!(copy.suggest(), Some(mv("c2c4")));
    assert_eq!(copy.root().childern().len(), 1);
}

#[test]
fn pgn_parser_reads_pairs() {
    let mut parser = PgnParser::new("1.e4 c6 2. d4  d5 10. O-O Nh6");
    assert_eq!(parser.next_token(), Ok(("e4".to_string(), "c6".to_string())));
    assert_eq!(parser.next_token(), Ok(("d4".to_string(), "d5".to_string())));
    assert_eq!(parser.next_token(), Ok(("O-O".to_string(), "Nh6".to_string())));
    assert_eq!(parser.next_token(), Err(ParseError::NoValidChar));
    assert_eq!(parser.next_token(), Err(ParseError::NoValidChar));
}

#[test]
fn pgn_parser_last_pair_may_lack_its_second_move() {
    let mut parser = PgnParser::new("1. e4 e5 2. Nf3");
    assert_eq!(parser.next_token(), Ok(("e4".to_string(), "e5".to_string())));
    assert_eq!(parser.next_token(), Ok(("Nf3".to_string(), "".to_string())));
    assert_eq!(parser.next_token(), Err(ParseError::NoValidChar));
}

#[test]
fn pgn_parser_rejects_what_is_no_move() {
    let mut parser = PgnParser::new("1. e4 e5 (");
    assert_eq!(parser.next_token(), Ok(("e4".to_string(), "e5".to_string())));
    assert_eq!(parser.next_token(), Err(ParseError::InvalidMove));
    let mut empty = PgnParser::new("");
    assert!(empty.at_end());
    assert_eq!(empty.next_token(), Err(ParseError::NoValidChar));
}

#[test]
fn pgn_parser_steps() {
    let mut parser = PgnParser::new("  ab \tcd");
    assert!(!parser.is_letter());
    parser.skip_whitespace();
    assert!(parser.is_letter());
    assert_eq!(parser.read_move(), "ab");
    assert_eq!(parser.read_move(), "cd");
    assert!(parser.at_end());
    parser.read_char();
    assert!(parser.at_end());
    assert_eq!(parser.read_move(), "");
}
