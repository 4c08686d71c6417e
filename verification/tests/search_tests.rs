use chess_engine::{Engine, GamePhases, GameState, Move, Position, INF};

fn texts(moves: &[Move]) -> Vec<String> {
    moves.iter().map(|m| m.to_uci()).collect()
}

fn state_in(phase: GamePhases) -> GameState {
    let mut state = GameState::new();
    state.game_phases = phase;
    state
}

#[test]
fn ordering_keeps_the_moves_and_puts_captures_first() {
    let fen = "1nbqkbnr/1ppppppp/8/8/r1PP4/8/PP2PPPP/R1BQKBNR b KQk - 0 1";
    let engine = Engine::from_fen(fen).unwrap();
    let generated = engine.board().legal_moves();
    let ordered = engine.order_moves(engine.board(), &state_in(GamePhases::MiddleGame));
    assert_eq!(ordered.len(), generated.len());
    for m in generated.iter() {
        assert!(ordered.contains(m));
    }
    // the rook takes on a2 or on c4; every other move goes to an empty square
    assert_eq!(texts(&ordered[..2]), vec!["a4a2", "a4c4"]);
    let captures: Vec<Move> =
        generated.iter().copied().filter(|m| engine.board().is_occupied(m.to)).collect();
    let quiet: Vec<Move> =
        generated.iter().copied().filter(|m| !engine.board().is_occupied(m.to)).collect();
    assert_eq!(&ordered[..captures.len()], &captures[..]);
    assert_eq!(&ordered[captures.len()..], &quiet[..]);
}

#[test]
fn ordering_puts_checks_first_in_the_endgame_only() {
    let fen = "3K4/7r/6r1/1k6/8/8/8/8 b - - 0 1";
    let engine = Engine::from_fen(fen).unwrap();
    let generated = engine.board().legal_moves();
    let before = engine.order_moves(engine.board(), &state_in(GamePhases::MiddleGame));
    assert_eq!(before, generated);
    let ordered = engine.order_moves(engine.board(), &state_in(GamePhases::EndGame));
    let checks: Vec<Move> = generated
        .iter()
        .copied()
        .filter(|m| engine.board().make_move(*m).in_check())
        .collect();
    let rest: Vec<Move> = generated
        .iter()
        .copied()
        .filter(|m| !engine.board().make_move(*m).in_check())
        .collect();
    assert!(checks.contains(&Move::from_uci("g6g8").unwrap()));
    assert!(!checks.is_empty() && !rest.is_empty());
    assert_eq!(&ordered[..checks.len()], &checks[..]);
    assert_eq!(&ordered[checks.len()..], &rest[..]);
}

#[test]
fn ordering_puts_promotions_before_quiet_moves() {
    let fen = "8/4P3/8/8/8/k7/8/4K3 w - - 0 1";
    let engine = Engine::from_fen(fen).unwrap();
    let ordered = engine.order_moves(engine.board(), &state_in(GamePhases::MiddleGame));
    let promotions = ordered.iter().take_while(|m| m.promotion.is_some()).count();
    assert_eq!(promotions, 4);
    assert!(ordered[promotions..].iter().all(|m| m.promotion.is_none()));
}

#[test]
fn searching_for_one_side_is_searching_for_the_other_with_the_signs_turned() {
    let start = Position::start();
    let white = Engine::new();
    let black =
        Engine::from_fen("rnbqkbnr/pppppppp/8/8/8/8/PPPPPPPP/RNBQKBNR b KQkq - 0 1").unwrap();
    for depth in [0, 1, 2] {
        let mut state = GameState::new();
        let as_white = white.search_alpha_beta(depth, &start, -INF, INF, true, &mut state);
        let mut other = GameState::new();
        let as_black = black.search_alpha_beta(depth, &start, -INF, INF, false, &mut other);
        assert_eq!(as_white, -as_black);
        assert_eq!(state.game_phases, other.game_phases);
        assert_eq!(state.game_phases, GamePhases::Opening);
    }
    let mut state = GameState::new();
    assert_eq!(white.search_alpha_beta(0, &start, -INF, INF, true, &mut state), 420);
}

#[test]
fn a_narrow_window_bounds_the_value() {
    let fen = "8/8/1P2K3/8/2n5/1q6/8/5k2 b - - 0 1";
    let engine = Engine::from_fen(fen).unwrap();
    let mut state = state_in(GamePhases::EndGame);
    let exact = engine.search_minimax(2, engine.board(), true, &mut state);
    let full = engine.search_alpha_beta(2, engine.board(), -INF, INF, true, &mut state);
    assert_eq!(full, exact);
    let low = engine.search_alpha_beta(2, engine.board(), exact + 1, exact + 50, true, &mut state);
    assert!(low <= exact + 1 && exact <= low);
    let high = engine.search_alpha_beta(2, engine.board(), exact - 50, exact - 1, true, &mut state);
    assert!(high >= exact - 1 && exact >= high);
    let inside = engine.search_alpha_beta(2, engine.board(), exact - 1, exact + 1, true, &mut state);
    assert_eq!(inside, exact);
}

#[test]
fn choose_move_returns_a_legal_move() {
    let mut engine = Engine::from_fen("8/8/1P2K3/8/2n5/1q6/8/5k2 b - - 0 1").unwrap();
    let chosen = engine.choose_move(std::time::Instant::now()).unwrap();
    assert!(engine.board().legal_moves().contains(&chosen));
    assert_eq!(engine.get_best_mov(), Some(chosen));
    assert_eq!(engine.board().status(), chess_engine::BoardStatus::Ongoing);
    let mut mated =
        Engine::from_fen("rnb1kbnr/pppp1ppp/8/4p3/6Pq/5P2/PPPPP2P/RNBQKBNR w KQkq - 1 3").unwrap();
    assert_eq!(mated.choose_move(std::time::Instant::now()), None);
    assert_eq!(mated.board().status(), chess_engine::BoardStatus::Checkmate);
}

#[test]
fn search_never_takes_the_phase_back() {
    let mut engine = Engine::new();
    engine.search_to_depth(2);
    assert_eq!(*engine.game_state().game_phases(), GamePhases::Opening);
    let mut engine = Engine::from_fen("8/8/1P2K3/8/2n5/1q6/8/5k2 b - - 0 1").unwrap();
    assert_eq!(*engine.game_state().game_phases(), GamePhases::Opening);
    engine.search(0);
    assert_eq!(*engine.game_state().game_phases(), GamePhases::EndGame);
    engine.search_to_depth(2);
    assert_eq!(*engine.game_state().game_phases(), GamePhases::EndGame);
    engine.search_slow(1);
    assert_eq!(*engine.game_state().game_phases(), GamePhases::EndGame);
    engine.choose_move(std::time::Instant::now());
    assert_eq!(*engine.game_state().game_phases(), GamePhases::EndGame);
}
