use chess_engine::{Move, Trie};

fn mv(text: &str) -> Move {
    Move::from_uci(text).unwrap()
}

#[test]
fn db_test() {
    let mut db = Trie::default();
    let chess_line_1 = vec![mv("d2d4"), mv("g8f6"), mv("c2c4"), mv("e7e6")];
    let chess_line_2 = vec![mv("d2d4"), mv("d7d5"), mv("c2c4"), mv("e7e6")];
    let chess_line_3 = vec![mv("d2d4"), mv("d7d5"), mv("c2c4"), mv("b8c6")];

    db.insert(&chess_line_1);
    db.insert(&chess_line_2);
    db.insert(&chess_line_3);

    assert!(db.change_root(mv("d2d4")));
    assert!(db.change_root(mv("d7d5")));
    assert!(db.change_root(mv("c2c4")));
}

#[test]
fn trie_finds_only_whole_lines() {
    let mut db = Trie::default();
    let line = vec![mv("e2e4"), mv("e7e5"), mv("g1f3")];
    db.insert(&line);
    assert!(db.search(&line));
    assert!(!db.search(&line[..2]));
    assert!(!db.search(&[mv("e2e4"), mv("c7c5")]));
    assert!(!db.search(&[]));
    assert!(!db.is_end());
}

#[test]
fn trie_longer_line_unmarks_the_nodes_it_passes() {
    let mut db = Trie::default();
    let short = vec![mv("e2e4"), mv("e7e5")];
    let long = vec![mv("e2e4"), mv("e7e5"), mv("g1f3")];
    db.insert(&short);
    assert!(db.search(&short));
    db.insert(&long);
    assert!(db.search(&long));
    assert!(!db.search(&short));
    db.insert(&short);
    assert!(db.search(&short));
    assert!(db.search(&long));
}

#[test]
fn trie_empty_line_marks_the_root() {
    let mut db = Trie::default();
    assert!(!db.is_end());
    db.insert(&[]);
    assert!(db.is_end());
    assert!(db.search(&[]));
}

#[test]
fn trie_change_root_fails_on_unknown_move() {
    let mut db = Trie::default();
    db.insert(&[mv("e2e4"), mv("e7e5")]);
    assert!(db.child_exits(&mv("e2e4")));
    assert!(!db.child_exits(&mv("d2d4")));
    assert!(!db.change_root(mv("d2d4")));
    assert!(db.child_exits(&mv("e2e4")));
    assert!(db.change_root(mv("e2e4")));
    assert!(db.child_exits(&mv("e7e5")));
    assert!(!db.child_exits(&mv("e2e4")));
    assert!(db.change_root(mv("e7e5")));
    assert!(db.is_end());
    assert!(db.is_leaf());
}

#[test]
fn trie_keeps_children_in_the_order_of_insertion() {
    let mut db = Trie::default();
    assert_eq!(db.first_key(), None);
    db.insert(&[mv("d2d4")]);
    db.insert(&[mv("e2e4")]);
    db.insert(&[mv("c2c4")]);
    assert_eq!(db.first_key(), Some(mv("d2d4")));
    let keys: Vec<Move> = db.root().childern().iter().map(|entry| entry.0).collect();
    assert_eq!(keys, vec![mv("d2d4"), mv("e2e4"), mv("c2c4")]);
}

#[test]
fn trie_clone_is_independent() {
    let mut db = Trie::default();
    db.insert(&[mv("e2e4"), mv("e7e5")]);
    let copy = db.clone();
    assert!(db.change_root(mv("e2e4")));
    assert!(copy.child_exits(&mv("e2e4")));
    assert!(copy.search(&[mv("e2e4"), mv("e7e5")]));
}

#[test]
fn trie_print_lists_the_tree() {
    let mut db = Trie::default();
    db.insert(&[mv("e2e4"), mv("e7e5")]);
    db.insert(&[mv("d2d4")]);
    let lines = db.print();
    assert_eq!(
        lines,
        vec![
            "".to_string(),
            "  e2e4".to_string(),
            "    e7e5".to_string(),
            "    [END]".to_string(),
            "  d2d4".to_string(),
            "  [END]".to_string(),
        ]
    );
}

#[test]
fn node_print_lists_the_children() {
    let mut db = Trie::default();
    db.insert(&[mv("e2e4"), mv("e7e5")]);
    db.insert(&[mv("d2d4")]);
    assert_eq!(db.root().print("x"), vec!["axe2e4".to_string(), "axd2d4".to_string()]);
    assert!(!db.root().is_end());
    assert!(db.root().get(&mv("d2d4")).unwrap().is_end());
    assert!(db.root().get(&mv("c2c4")).is_none());
    let mut lines = vec!["first".to_string()];
    db.root().get(&mv("e2e4")).unwrap().pprint("e2e4", 1, &mut lines);
    assert_eq!(
        lines,
        vec![
            "first".to_string(),
            "  e2e4".to_string(),
            "    e7e5".to_string(),
            "    [END]".to_string()
        ]
    );
}
