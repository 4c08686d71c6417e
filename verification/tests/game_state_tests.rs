use chess_engine::{
    BoardFacts, BoardMaterial, Color, GamePhases, GameState, MaterialSumExt, Move, Position,
};

fn facts_of(fen: &str) -> BoardFacts {
    Position::from_fen(fen).unwrap().facts()
}

fn updated(phase: GamePhases, fen: &str) -> GamePhases {
    let facts = facts_of(fen);
    let mut phase = phase;
    phase.update(facts.material_sum_bitboard(), &facts);
    phase
}

#[test]
fn phase_starts_in_the_opening() {
    assert_eq!(GamePhases::default(), GamePhases::Opening);
    assert!(!GamePhases::default().is_end());
}

#[test]
fn phase_moves_to_the_endgame_without_queens() {
    let no_queens = "rnb1kbnr/pppppppp/8/8/8/8/PPPPPPPP/RNB1KBNR w KQkq - 0 1";
    assert_eq!(updated(GamePhases::Opening, no_queens), GamePhases::EndGame);
    assert_eq!(updated(GamePhases::MiddleGame, no_queens), GamePhases::EndGame);
}

#[test]
fn phase_moves_to_the_endgame_on_two_thresholds() {
    let start = "rnbqkbnr/pppppppp/8/8/8/8/PPPPPPPP/RNBQKBNR w KQkq - 0 1";
    assert_eq!(updated(GamePhases::Opening, start), GamePhases::Opening);
    assert_eq!(updated(GamePhases::MiddleGame, start), GamePhases::MiddleGame);
    // three knights: one threshold
    let one = "r1bqkbnr/pppppppp/8/8/8/8/PPPPPPPP/RNBQKBNR w KQkq - 0 1";
    assert_eq!(updated(GamePhases::MiddleGame, one), GamePhases::MiddleGame);
    // three knights and three bishops: two thresholds
    let two = "r2qkbnr/pppppppp/8/8/8/8/PPPPPPPP/RNBQKBNR w KQkq - 0 1";
    assert_eq!(updated(GamePhases::MiddleGame, two), GamePhases::EndGame);
    // twelve pawns and three rooks
    let other = "1nbqkbnr/pp2pppp/8/8/8/8/PP2PPPP/RNBQKBNR w KQk - 0 1";
    assert_eq!(updated(GamePhases::Opening, other), GamePhases::EndGame);
    // thirteen pawns and three rooks: one threshold
    let short = "1nbqkbnr/ppp1pppp/8/8/8/8/PP2PPPP/RNBQKBNR w KQk - 0 1";
    assert_eq!(updated(GamePhases::Opening, short), GamePhases::Opening);
}

#[test]
fn phase_never_goes_back() {
    let start = "rnbqkbnr/pppppppp/8/8/8/8/PPPPPPPP/RNBQKBNR w KQkq - 0 1";
    assert_eq!(updated(GamePhases::EndGame, start), GamePhases::EndGame);
    let mut phase = GamePhases::EndGame;
    phase.set_middlegame();
    assert_eq!(phase, GamePhases::EndGame);
    let mut phase = GamePhases::Opening;
    phase.set_middlegame();
    assert_eq!(phase, GamePhases::MiddleGame);
    phase.set_middlegame();
    assert_eq!(phase, GamePhases::MiddleGame);
    phase.set_endgame();
    assert_eq!(phase, GamePhases::EndGame);
    assert!(phase.is_end());
}

#[test]
fn game_state_accessors() {
    let mut state = GameState::new();
    assert_eq!(*state.game_phases(), GamePhases::Opening);
    assert_eq!(*state.last_move(), None);
    for color in [Color::White, Color::Black] {
        assert!(!state.has_castel(color));
        assert!(!state.has_opp_castel(color));
        assert!(!state.has_castel_right(color));
        assert!(!state.has_opp_castel_right(color));
    }
    state.has_white_castel = true;
    state.black_castel_right = true;
    assert!(state.has_castel(Color::White));
    assert!(!state.has_castel(Color::Black));
    assert!(state.has_opp_castel(Color::Black));
    assert!(state.has_castel_right(Color::Black));
    assert!(state.has_opp_castel_right(Color::White));
    let mov = Move::from_uci("e2e4").unwrap();
    state.set_lastmove(mov);
    assert_eq!(*state.last_move(), Some(mov));
    state.update_from_last_move();
    assert_eq!(*state.last_move(), Some(mov));
    state.set_gamephases_middlegame();
    assert_eq!(*state.game_phases(), GamePhases::MiddleGame);
    let facts = facts_of("4k3/8/8/8/8/8/8/4K3 w - - 0 1");
    state.update_game_phase(BoardMaterial { white: 0, black: 0 }, &facts);
    assert_eq!(*state.game_phases(), GamePhases::EndGame);
    assert_eq!(*state.last_move(), Some(mov));
}
