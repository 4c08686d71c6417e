use chess_engine::uci::command_kind;
use chess_engine::{CommandKind, GamePhases, Move, OpeningDatabase, Position, UCI};

fn lines(uci: &mut UCI, line: &str) -> Vec<String> {
    let reply = uci.handle_line(line);
    assert!(!reply.quit);
    reply.lines
}

#[test]
fn uci_identifies_itself() {
    let mut uci = UCI::new();
    assert_eq!(lines(&mut uci, "uci"), vec!["id name NotSoBrightBot", "id author Sahil", "uciok"]);
    assert_eq!(lines(&mut uci, "isready"), vec!["readyok"]);
    assert_eq!(lines(&mut uci, "  isready  "), vec!["readyok"]);
}

#[test]
fn uci_ignores_what_it_does_not_know() {
    let mut uci = UCI::new();
    let before = uci.engine().board().hash();
    assert!(lines(&mut uci, "").is_empty());
    assert!(lines(&mut uci, "   ").is_empty());
    assert!(lines(&mut uci, "d").is_empty());
    assert!(lines(&mut uci, "setoption name Hash value 16").is_empty());
    assert!(lines(&mut uci, "stop").is_empty());
    assert_eq!(uci.engine().board().hash(), before);
    assert_eq!(uci.engine().history().len(), 1);
}

#[test]
fn uci_reports_a_position_it_cannot_set() {
    let mut uci = UCI::new();
    for line in ["position", "position fen", "position fen 8/8/8/8/8/8/8/8 w - - 0 1", "position x"] {
        let reply = uci.handle_line(line);
        assert_eq!(reply.log, vec!["invalid position"], "{}", line);
        assert!(reply.lines.is_empty());
    }
    for line in ["position startpos", "position startpos moves e2e5", "isready", "nonsense", ""] {
        let reply = uci.handle_line(line);
        assert!(reply.log.is_empty(), "{}", line);
    }
}

#[test]
fn uci_quit_ends_the_loop() {
    let mut uci = UCI::new();
    let reply = uci.handle_line("quit");
    assert!(reply.quit);
    assert!(reply.lines.is_empty());
}

#[test]
fn uci_command_words() {
    assert_eq!(command_kind("uci"), CommandKind::Uci);
    assert_eq!(command_kind("isready"), CommandKind::IsReady);
    assert_eq!(command_kind("position"), CommandKind::Position);
    assert_eq!(command_kind("ucinewgame"), CommandKind::NewGame);
    assert_eq!(command_kind("go"), CommandKind::Go);
    assert_eq!(command_kind("stop"), CommandKind::Stop);
    assert_eq!(command_kind("quit"), CommandKind::Quit);
    assert_eq!(command_kind("d"), CommandKind::Debug);
    assert_eq!(command_kind("UCI"), CommandKind::Unknown);
    assert_eq!(command_kind(""), CommandKind::Unknown);
}

#[test]
fn uci_position_applies_each_move_in_order() {
    let mut uci = UCI::new();
    assert!(lines(&mut uci, "position startpos moves e2e4 e7e5 g1f3").is_empty());
    let expected = Position::start()
        .try_move(Move::from_uci("e2e4").unwrap())
        .unwrap()
        .try_move(Move::from_uci("e7e5").unwrap())
        .unwrap()
        .try_move(Move::from_uci("g1f3").unwrap())
        .unwrap();
    assert_eq!(uci.engine().board().hash(), expected.hash());
    assert_eq!(uci.engine().history().len(), 4);
    assert_eq!(uci.engine().history()[0], Position::start().hash());
    assert_eq!(uci.engine().history()[3], expected.hash());
    assert_eq!(*uci.engine().game_state().last_move(), Move::from_uci("g1f3"));
}

#[test]
fn uci_position_skips_illegal_moves() {
    let mut uci = UCI::new();
    lines(&mut uci, "position startpos moves e2e5 e2e4 zzzz e7e5");
    let expected = Position::start()
        .try_move(Move::from_uci("e2e4").unwrap())
        .unwrap()
        .try_move(Move::from_uci("e7e5").unwrap())
        .unwrap();
    assert_eq!(uci.engine().board().hash(), expected.hash());
    assert_eq!(uci.engine().history().len(), 3);
}

#[test]
fn uci_position_reads_a_fen() {
    let mut uci = UCI::new();
    let fen = "8/8/1P2K3/8/2n5/1q6/8/5k2 b - - 0 1";
    lines(&mut uci, "position fen 8/8/1P2K3/8/2n5/1q6/8/5k2 b - - 0 1");
    assert_eq!(uci.engine().board().hash(), Position::from_fen(fen).unwrap().hash());
    assert_eq!(uci.engine().history().len(), 1);
    lines(&mut uci, "position fen 8/8/1P2K3/8/2n5/1q6/8/5k2 b - - 0 1 moves b3b6");
    let expected =
        Position::from_fen(fen).unwrap().try_move(Move::from_uci("b3b6").unwrap()).unwrap();
    assert_eq!(uci.engine().board().hash(), expected.hash());
    assert_eq!(uci.engine().history().len(), 2);
}

#[test]
fn uci_malformed_position_changes_nothing() {
    let mut uci = UCI::new();
    lines(&mut uci, "position startpos moves e2e4");
    let before = uci.engine().board().hash();
    lines(&mut uci, "position fen this is no fen at all");
    lines(&mut uci, "position fen 8/8/8/8/8/8/8/8 w - - 0 1");
    lines(&mut uci, "position fen");
    lines(&mut uci, "position");
    lines(&mut uci, "position elsewhere");
    assert_eq!(uci.engine().board().hash(), before);
    assert_eq!(uci.engine().history().len(), 2);
}

#[test]
fn uci_go_answers_with_a_legal_move_and_plays_it() {
    let mut uci = UCI::new();
    let started = std::time::Instant::now();
    let answer = lines(&mut uci, "go movetime 100");
    assert!(started.elapsed().as_secs() < 15);
    assert_eq!(answer.len(), 1);
    assert!(answer[0].starts_with("bestmove "));
    let mov = Move::from_uci(&answer[0]["bestmove ".len()..]).unwrap();
    let expected = Position::start().try_move(mov).unwrap();
    assert_eq!(uci.engine().board().hash(), expected.hash());
    assert_eq!(uci.engine().history().len(), 2);
    assert_eq!(uci.engine().get_best_mov(), Some(mov));
    assert_eq!(lines(&mut uci, "stop"), answer);
}

#[test]
fn uci_go_plays_from_the_book() {
    let mut book = OpeningDatabase::new();
    book.add_png(String::from("1. d4 d5 2. c4 e6"));
    let mut uci = UCI::new();
    uci.add_db(book);
    assert_eq!(lines(&mut uci, "go movetime 100"), vec!["bestmove d2d4"]);
    assert_eq!(*uci.engine().game_state().game_phases(), GamePhases::Opening);
    lines(&mut uci, "ucinewgame");
    assert_eq!(uci.engine().board().hash(), Position::start().hash());
    assert_eq!(uci.engine().history().len(), 1);
    assert_eq!(uci.engine().get_best_mov(), None);
    assert_eq!(lines(&mut uci, "go"), vec!["bestmove d2d4"]);
}

#[test]
fn uci_go_without_a_legal_move_says_nothing() {
    let mut uci = UCI::new();
    lines(&mut uci, "position fen 7k/5Q2/6K1/8/8/8/8/8 b - - 0 1");
    assert!(lines(&mut uci, "go movetime 10").is_empty());
    assert_eq!(uci.engine().history().len(), 1);
}
