use chess_engine::{Engine, Evaluation, GameState, MaterialSumExt, Move, Position};
use std::str::FromStr;

fn best_move_text(engine: &Engine) -> String {
    engine.get_best_mov().unwrap().to_uci()
}

#[test]
fn engine_best_move_checkmate() {
    let mut engine =
        Engine::from_fen("r1b1kb2/pppp1p1p/2n1p2n/8/3q2r1/8/PPPPKPP1/RNBQ1BNR b q - 0 11")
            .expect("IDIOT");
    let _eval = engine.search(1);
    assert_eq!(best_move_text(&engine), "d4e4");
}

#[test]
fn engine_test_best_move_capture_queen() {
    let mut engine =
        Engine::from_fen("rn2k1nr/ppp2ppp/8/3pp3/8/P1P3qb/1PQPPP2/RNB1KB2 w Qkq - 0 8").unwrap();
    let _eval = engine.search(3);
    assert_eq!(best_move_text(&engine).as_str(), "f2g3");
}

#[test]
fn engine_eval_board_black() {
    let engine = Engine::from_fen("8/8/1P2K3/8/2n5/1q6/8/5k2 b - - 0 1").unwrap();
    let facts = engine.board().facts();
    let eval = Evaluation::new(&facts, GameState::new()).eval_board(&facts, engine.history());
    assert!(eval > 0);
}

#[test]
fn engine_eval_board_white() {
    let engine = Engine::from_fen("8/8/1P2K3/8/2n5/1q6/8/5k2 w - - 0 1").unwrap();
    let facts = engine.board().facts();
    let eval = Evaluation::new(&facts, GameState::new()).eval_board(&facts, engine.history());
    assert!(eval < 0);
}

#[test]
fn engine_best_move_capture_free_pawn() {
    let mut engine =
        Engine::from_fen("1nbqkbnr/1ppppppp/8/8/r1PP4/8/PP2PPPP/R1BQKBNR b KQk - 0 1").unwrap();
    let _eval = engine.search(1);
    assert_eq!(best_move_text(&engine).as_str(), "a4c4");
}

#[test]
fn test_move_repetition() {
    let _engine = Engine::new();
}

#[test]
fn test_material_bitboard_sum() {
    let engine = Engine::new();
    let mat = engine.board().facts().material_sum_bitboard();
    assert_eq!(mat.white, mat.black);
}

#[test]
fn mate_in_one_with_rooks_after_deepening() {
    let mut engine = Engine::from_fen("3K4/7r/6r1/1k6/8/8/8/8 b - - 0 1").unwrap();
    let eval = engine.search_to_depth(3);
    assert_eq!(eval, chess_engine::INF);
    assert_eq!(best_move_text(&engine).as_str(), "g6g8");
}

#[test]
fn start_position_has_twenty_moves() {
    let start = Position::start();
    assert_eq!(start.legal_moves().len(), 20);
    let e4 = Move::from_uci("e2e4").unwrap();
    assert!(start.try_move(e4).is_some());
    let bad = Move::from_uci("e2e5").unwrap();
    assert!(start.try_move(bad).is_none());
}

#[test]
fn engine_history_ends_with_the_current_position() {
    let mut engine = Engine::new();
    assert_eq!(engine.history(), &[Position::start().hash()]);
    let e4 = Move::from_uci("e2e4").unwrap();
    assert!(engine.play_move(e4));
    assert_eq!(engine.history().len(), 2);
    assert_eq!(engine.history()[1], engine.board().hash());
    assert_ne!(engine.history()[0], engine.history()[1]);
    assert_eq!(*engine.game_state().last_move(), Some(e4));
    assert!(!engine.play_move(e4));
    assert_eq!(engine.history().len(), 2);
    assert!(!engine.play_best_move());
}

#[test]
fn engine_rejects_what_is_no_position() {
    assert_eq!(Engine::from_fen("no fen").err(), Some(chess_engine::EngineError::InvalidFen));
    assert!(Engine::from_fen("8/8/8/8/8/8/8/8 w - - 0 1").is_err());
    assert!(Engine::from_fen("4k3/8/8/8/8/8/8/8 w - - 0 1").is_err());
    assert!(Engine::from_fen("QQQQQQQQ/QQQQQQQQ/Q7/8/8/8/8/k6K w - - 0 1").is_err());
    assert!(Position::from_fen("rnbqkbnr/pppppppp/8/8/8/8/PPPPPPPP/RNBQKBNR w KQkq - 0 1").is_some());
}

#[test]
fn engine_search_finds_mate_score() {
    let mut engine =
        Engine::from_fen("r1b1kb2/pppp1p1p/2n1p2n/8/3q2r1/8/PPPPKPP1/RNBQ1BNR b q - 0 11").unwrap();
    assert_eq!(engine.search(1), chess_engine::INF);
    assert!(engine.play_best_move());
    assert_eq!(engine.board().facts().status, chess_engine::BoardStatus::Checkmate);
    assert!(engine.board().legal_moves().is_empty());
    engine.search(2);
    assert_eq!(best_move_text(&engine), "d4e4");
}

#[test]
fn engine_past_deadline_falls_back_to_the_first_legal_move() {
    let mut engine = Engine::new();
    let eval = engine.search_iterative_deeping(std::time::Instant::now());
    assert_eq!(eval, 0);
    assert_eq!(engine.get_best_mov(), Some(engine.board().legal_moves()[0]));
    assert_eq!(*engine.game_state().game_phases(), chess_engine::GamePhases::Opening);
}

#[test]
fn engine_book_move_that_is_not_legal_ends_the_opening() {
    let mut book = chess_engine::OpeningDatabase::new();
    book.add_png(String::from("1. e4 e5"));
    let mut engine = Engine::from_fen("8/8/1P2K3/8/2n5/1q6/8/5k2 b - - 0 1").unwrap();
    engine.add_opening_db(book);
    engine.search_iterative_deeping(std::time::Instant::now());
    assert_eq!(*engine.game_state().game_phases(), chess_engine::GamePhases::MiddleGame);
    let best = engine.get_best_mov().unwrap();
    assert!(engine.board().legal_moves().contains(&best));
}

#[test]
fn engine_leaves_the_book_when_the_game_does() {
    let mut book = chess_engine::OpeningDatabase::new();
    book.add_png(String::from("1. e4 e5 2. Nf3"));
    let mut engine = Engine::new();
    engine.add_opening_db(book);
    assert!(engine.play_move(Move::from_uci("d2d4").unwrap()));
    engine.search_iterative_deeping(std::time::Instant::now());
    assert_eq!(*engine.game_state().game_phases(), chess_engine::GamePhases::MiddleGame);
    assert!(engine.get_best_mov().is_some());
}

#[test]
fn engine_follows_the_book_after_the_last_move() {
    let mut book = chess_engine::OpeningDatabase::new();
    book.add_png(String::from("1. e4 e5 2. Nf3"));
    let mut engine = Engine::new();
    engine.add_opening_db(book);
    assert!(engine.play_move(Move::from_uci("e2e4").unwrap()));
    let eval = engine.search_iterative_deeping(std::time::Instant::now());
    assert_eq!(eval, 0);
    assert_eq!(best_move_text(&engine), "e7e5");
    assert_eq!(*engine.game_state().game_phases(), chess_engine::GamePhases::Opening);
    assert_eq!(engine.opening_database().suggest(), Move::from_uci("g1f3"));
}

#[test]
fn engine_eval_scores_for_the_side_on_its_board() {
    let engine = Engine::from_fen("8/8/1P2K3/8/2n5/1q6/8/5k2 b - - 0 1").unwrap();
    let mut state = GameState::new();
    assert_eq!(engine.eval(engine.board(), &mut state), 1175);
    assert_eq!(state.game_phases, chess_engine::GamePhases::EndGame);
    let after = engine.board().try_move(Move::from_uci("b3b6").unwrap()).unwrap();
    // White to move, in check and without its pawn: material -1200, squares 15, check 20,
    // the king on e6 -10; turned to Black, who is the engine
    let score = engine.eval(&after, &mut state);
    assert_eq!(score, 1200 - 15 - 20 + 10);
}

#[test]
fn moves_are_written_in_coordinates() {
    assert_eq!(Move { from: 12, to: 28, promotion: None }.to_uci(), "e2e4");
    assert_eq!(
        Move { from: 52, to: 60, promotion: Some(chess_engine::Piece::Queen) }.to_uci(),
        "e7e8q"
    );
    assert_eq!(
        Move::from_uci("a7a8n"),
        Some(Move { from: 48, to: 56, promotion: Some(chess_engine::Piece::Knight) })
    );
    assert_eq!(Move::from_uci("e2e4"), Some(Move { from: 12, to: 28, promotion: None }));
    assert_eq!(Move::from_uci("e2"), None);
    assert_eq!(Move::from_uci("i2e4"), None);
    assert_eq!(Move::from_uci("e7e8x"), None);
}

#[test]
fn position_answers_san() {
    let start = Position::start();
    assert_eq!(start.find_san("e4"), Move::from_uci("e2e4"));
    assert_eq!(start.find_san("Nf3"), Move::from_uci("g1f3"));
    assert_eq!(start.find_san("Ke2"), None);
    assert_eq!(start.find_san(""), None);
    assert_eq!(start.side_to_move(), chess_engine::Color::White);
    assert!(!start.in_check());
    assert!(start.is_occupied(0));
    assert!(!start.is_occupied(28));
    let after = start.make_move(Move::from_uci("e2e4").unwrap());
    assert_eq!(after.side_to_move(), chess_engine::Color::Black);
    assert!(after.is_occupied(28));
    assert!(!after.is_occupied(12));
    assert_ne!(after.hash(), start.hash());
}

#[test]
fn coordinate_moves_are_read_as_the_squares_say() {
    assert_eq!(Move::from_uci("a1h8"), Some(Move { from: 0, to: 63, promotion: None }));
    assert_eq!(Move::from_uci("h8a1"), Some(Move { from: 63, to: 0, promotion: None }));
    assert_eq!(
        Move::from_uci("b7b8r"),
        Some(Move { from: 49, to: 57, promotion: Some(chess_engine::Piece::Rook) })
    );
    assert_eq!(
        Move::from_uci("b7b8b"),
        Some(Move { from: 49, to: 57, promotion: Some(chess_engine::Piece::Bishop) })
    );
    // only a text of five bytes is read for a promotion
    assert_eq!(Move::from_uci("e2e4zz"), Some(Move { from: 12, to: 28, promotion: None }));
    assert_eq!(Move::from_uci("e7e8\u{e9}"), Some(Move { from: 52, to: 60, promotion: None }));
    assert_eq!(Move::from_uci("e7e8Q"), None);
    assert_eq!(Move::from_uci("e7e8k"), None);
    assert_eq!(Move::from_uci("e9e4"), None);
    assert_eq!(Move::from_uci("e2e"), None);
    assert_eq!(Move::from_uci("\u{e9}2e4"), None);
    assert_eq!(Move::from_uci("e\u{e9}e4"), None);
    assert_eq!(Move::from_uci(""), None);
}

#[test]
fn engine_is_read_from_a_fen() {
    let engine = Engine::from_str("8/8/1P2K3/8/2n5/1q6/8/5k2 b - - 0 1").unwrap();
    assert_eq!(engine.board().side_to_move(), chess_engine::Color::Black);
    assert_eq!(engine.history(), &[engine.board().hash()]);
    assert_eq!(engine.get_best_mov(), None);
    assert!("nothing".parse::<Engine>().is_err());
}

#[test]
fn search_with_pruning_finds_what_the_full_search_finds() {
    for fen in [
        "3K4/7r/6r1/1k6/8/8/8/8 b - - 0 1",
        "8/8/1P2K3/8/2n5/1q6/8/5k2 b - - 0 1",
        "4k3/p7/8/4P3/8/8/8/4K3 w - - 0 1",
    ] {
        for depth in [0, 1, 2] {
            let mut pruned = Engine::from_fen(fen).unwrap();
            let mut full = Engine::from_fen(fen).unwrap();
            // a first look at the board takes both engines to the endgame
            pruned.search(0);
            full.search(0);
            assert!(pruned.game_state().game_phases().is_end());
            assert_eq!(pruned.search(depth), full.search_slow(depth), "{} at {}", fen, depth);
        }
    }
}

#[test]
fn search_slow_takes_the_free_pawn() {
    let mut engine =
        Engine::from_fen("1nbqkbnr/1ppppppp/8/8/r1PP4/8/PP2PPPP/R1BQKBNR b KQk - 0 1").unwrap();
    engine.search_slow(1);
    assert_eq!(best_move_text(&engine).as_str(), "a4c4");
}

#[test]
fn play_moves_plays_the_legal_ones() {
    let mut engine = Engine::new();
    let moves: Vec<Move> =
        ["e2e4", "e2e4", "e7e5", "a1a8", "g1f3"].iter().map(|t| Move::from_uci(t).unwrap()).collect();
    engine.play_moves(moves);
    assert_eq!(engine.history().len(), 4);
    let mut other = Engine::new();
    for text in ["e2e4", "e7e5", "g1f3"] {
        assert!(other.play_move(Move::from_uci(text).unwrap()));
    }
    assert_eq!(engine.board().hash(), other.board().hash());
    assert_eq!(engine.history(), other.history());
}
