use chess_engine::eval::count_repetitions;
use chess_engine::{
    BoardFacts, BoardMaterial, BoardStatus, Color, Evaluation, GamePhases, GameState,
    MaterialSumExt, Piece, PieceFromColor, Position, INF,
};

fn facts_of(fen: &str) -> BoardFacts {
    Position::from_fen(fen).unwrap().facts()
}

fn evaluator(side: Color, phase: GamePhases) -> Evaluation {
    let mut game_state = GameState::new();
    game_state.game_phases = phase;
    Evaluation { engine_side: side, game_state }
}

fn bit(sq: u8) -> u64 {
    1u64 << sq
}

#[test]
fn eval_start_position_is_420_for_the_side_to_move() {
    let facts = facts_of("rnbqkbnr/pppppppp/8/8/8/8/PPPPPPPP/RNBQKBNR w KQkq - 0 1");
    let mut white = evaluator(Color::White, GamePhases::Opening);
    assert_eq!(white.eval_board(&facts, &[facts.hash]), 420);
    assert_eq!(white.game_state.game_phases, GamePhases::Opening);
    let mut black = evaluator(Color::Black, GamePhases::Opening);
    assert_eq!(black.eval_board(&facts, &[facts.hash]), -420);
}

#[test]
fn eval_queen_and_knight_against_pawn() {
    let facts = facts_of("8/8/1P2K3/8/2n5/1q6/8/5k2 b - - 0 1");
    let mut black = evaluator(Color::Black, GamePhases::Opening);
    assert_eq!(black.eval_board(&facts, &[facts.hash]), 1175);
    assert_eq!(black.game_state.game_phases, GamePhases::EndGame);

    let facts = facts_of("8/8/1P2K3/8/2n5/1q6/8/5k2 w - - 0 1");
    let mut white = evaluator(Color::White, GamePhases::Opening);
    assert_eq!(white.eval_board(&facts, &[facts.hash]), -999);
    assert_eq!(white.game_state.game_phases, GamePhases::EndGame);
}

#[test]
fn eval_check_in_the_endgame_counts_twenty_for_the_side_in_check() {
    let facts = facts_of("4k3/8/8/8/8/8/4R3/4K3 b - - 0 1");
    assert!(facts.in_check());
    let mut white = evaluator(Color::White, GamePhases::MiddleGame);
    assert_eq!(white.eval_board(&facts, &[]), 506);
    let mut black = evaluator(Color::Black, GamePhases::MiddleGame);
    assert_eq!(black.eval_board(&facts, &[]), -524);
}

#[test]
fn eval_third_occurrence_is_a_draw() {
    let facts = facts_of("8/8/1P2K3/8/2n5/1q6/8/5k2 b - - 0 1");
    let h = facts.hash;
    let mut eval = evaluator(Color::Black, GamePhases::Opening);
    assert_eq!(eval.eval_board(&facts, &[h, 1, h, 2, h]), 0);
    assert_eq!(eval.game_state.game_phases, GamePhases::Opening);
    assert_eq!(eval.eval_board(&facts, &[h, 1, h, 2]), 1175);
    assert_eq!(count_repetitions(&[h, 1, h, 2, h], h), 3);
    assert_eq!(count_repetitions(&[], h), 0);
}

#[test]
fn eval_checkmate_and_stalemate() {
    let mated = facts_of("rnb1kbnr/pppp1ppp/8/4p3/6Pq/5P2/PPPPP2P/RNBQKBNR w KQkq - 1 3");
    assert_eq!(mated.status, BoardStatus::Checkmate);
    let mut white = evaluator(Color::White, GamePhases::Opening);
    assert_eq!(white.eval_board(&mated, &[]), -INF);
    assert_eq!(white.game_state.game_phases, GamePhases::Opening);
    let mut black = evaluator(Color::Black, GamePhases::Opening);
    assert_eq!(black.eval_board(&mated, &[]), INF);

    let stale = facts_of("7k/5Q2/6K1/8/8/8/8/8 b - - 0 1");
    assert_eq!(stale.status, BoardStatus::Stalemate);
    let mut black = evaluator(Color::Black, GamePhases::MiddleGame);
    assert_eq!(black.eval_board(&stale, &[]), 0);
    assert_eq!(black.game_state.game_phases, GamePhases::MiddleGame);
}

#[test]
fn eval_bishop_pair_counts_for_its_owner() {
    let facts = facts_of("4k3/8/8/8/8/8/8/2B1KB2 w - - 0 1");
    let mut white = evaluator(Color::White, GamePhases::EndGame);
    let with_pair = white.eval_board(&facts, &[]);
    // material 600, bishops -10 -5 each, kings -20 -5 each, pair +10, edge of e8 +14
    assert_eq!(with_pair, 600 - 30 - 50 + 10 + 14);
    let facts = facts_of("4k3/8/8/8/8/8/8/2B1KB2 b - - 0 1");
    let mut black = evaluator(Color::Black, GamePhases::EndGame);
    // for Black: material -600, the same squares, pair -10, edge of e1 +16
    assert_eq!(black.eval_board(&facts, &[]), -600 - 30 - 50 - 10 + 16);
}

#[test]
fn eval_passed_pawn_bonus_follows_the_rank() {
    // white pawn on e5 with no black pawn before it, black pawn on a7 blocked by none
    let facts = facts_of("4k3/p7/8/4P3/8/8/8/4K3 w - - 0 1");
    let mut white = evaluator(Color::White, GamePhases::EndGame);
    // material 0; pawn e5: table 20, passed 15 + 50; pawn a7: table at 63-48=15 is 50,
    // passed 15 + 10; kings -25 each; edge of e8 14
    assert_eq!(white.eval_board(&facts, &[]), 20 + 65 + 50 + 25 - 50 + 14);
    // with a black pawn on d6 neither pawn is passed: each stands in the span of the other
    let facts = facts_of("4k3/8/3p4/4P3/8/8/8/4K3 w - - 0 1");
    let mut white = evaluator(Color::White, GamePhases::EndGame);
    // pawn e5: 20; pawn d6 (43): table at 63 - 43 = 20 is 30
    assert_eq!(white.eval_board(&facts, &[]), 20 + 30 - 50 + 14);
    // a black pawn on d4 is behind the white pawn and leaves it passed; it is passed itself
    let facts = facts_of("4k3/8/8/4P3/3p4/8/8/4K3 w - - 0 1");
    let mut white = evaluator(Color::White, GamePhases::EndGame);
    // pawn e5: 20 + 65; pawn d4 (27): table at 36 is 20, passed 15 + 50
    assert_eq!(white.eval_board(&facts, &[]), 20 + 65 + 20 + 65 - 50 + 14);
}

#[test]
fn eval_home_squares() {
    let eval = evaluator(Color::White, GamePhases::Opening);
    assert!(eval.is_piece_on_original_pos(Piece::Knight, 1, Color::White));
    assert!(eval.is_piece_on_original_pos(Piece::Knight, 62, Color::Black));
    assert!(eval.is_piece_on_original_pos(Piece::Bishop, 5, Color::White));
    assert!(eval.is_piece_on_original_pos(Piece::Rook, 56, Color::Black));
    assert!(eval.is_piece_on_original_pos(Piece::King, 4, Color::White));
    assert!(eval.is_piece_on_original_pos(Piece::King, 60, Color::Black));
    assert!(!eval.is_piece_on_original_pos(Piece::King, 60, Color::White));
    assert!(!eval.is_piece_on_original_pos(Piece::Queen, 3, Color::White));
    assert!(!eval.is_piece_on_original_pos(Piece::Pawn, 8, Color::White));
    assert!(!eval.is_piece_on_original_pos(Piece::Knight, 2, Color::White));
}

#[test]
fn eval_mobility_is_twice_the_moves() {
    let eval = evaluator(Color::White, GamePhases::Opening);
    let moves = Position::start().legal_moves();
    assert_eq!(eval.eval_mobility(&moves), 40);
    assert_eq!(eval.eval_mobility(&[]), 0);
}

#[test]
fn eval_on_hand_made_facts() {
    // a lone white knight on b1 and the two kings on e1 and e8, Black to move, no king
    // bitboard for Black at all: the hunted king has no square and adds nothing
    let facts = BoardFacts {
        pawns: 0,
        knights: bit(1),
        bishops: 0,
        rooks: 0,
        queens: 0,
        kings: bit(4),
        white: bit(1) | bit(4),
        black: 0,
        side_to_move: Color::Black,
        checkers: 0,
        status: BoardStatus::Ongoing,
        hash: 7,
    };
    let mut white = evaluator(Color::White, GamePhases::EndGame);
    // for Black to move: material -20300, knight b1 -40 - 5, king e1 -20 - 5, turned
    assert_eq!(white.eval_board(&facts, &[]), 20300 + 45 + 25);
}

#[test]
fn material_is_counted_two_ways() {
    let facts = facts_of("rnbqkbnr/pppppppp/8/8/8/8/PPPPPPPP/RNBQKBNR w KQkq - 0 1");
    let expected = BoardMaterial { white: 23_900, black: 23_900 };
    assert_eq!(facts.material_sum_bitboard(), expected);
    assert_eq!(facts.material_sum(), expected);
    let facts = facts_of("8/8/1P2K3/8/2n5/1q6/8/5k2 b - - 0 1");
    let expected = BoardMaterial { white: 20_100, black: 21_200 };
    assert_eq!(facts.material_sum_bitboard(), expected);
    assert_eq!(facts.material_sum(), expected);
}

#[test]
fn facts_answer_for_squares() {
    let facts = facts_of("8/8/1P2K3/8/2n5/1q6/8/5k2 b - - 0 1");
    assert_eq!(facts.get_piece(41), Some((Piece::Pawn, Color::White)));
    assert_eq!(facts.get_piece(44), Some((Piece::King, Color::White)));
    assert_eq!(facts.get_piece(26), Some((Piece::Knight, Color::Black)));
    assert_eq!(facts.get_piece(17), Some((Piece::Queen, Color::Black)));
    assert_eq!(facts.get_piece(5), Some((Piece::King, Color::Black)));
    assert_eq!(facts.get_piece(0), None);
    assert_eq!(facts.get_piece(64), None);
    assert_eq!(facts.piece_on(41), Some(Piece::Pawn));
    assert_eq!(facts.color_on(41), Some(Color::White));
    assert_eq!(facts.pieces(Piece::Queen), bit(17));
    assert_eq!(facts.color_mask(Color::White), bit(41) | bit(44));
    assert_eq!(facts.pieces_white(Piece::King), bit(44));
    assert_eq!(facts.pieces_black(Piece::King), bit(5));
    assert_eq!(facts.pieces_color(Piece::Knight, Color::Black), bit(26));
    assert_eq!(facts.pieces_color(Piece::Knight, Color::White), 0);
    assert_eq!(facts.side_to_move, Color::Black);
    assert!(!facts.in_check());
}
