//! Static evaluation of a position.
//!
//! A position is scored for the side to move, from material, piece placement, development,
//! the bishop pair, passed pawns and, in the endgame, the hunt for the enemy king. The
//! score is then turned to the side the engine plays.

use vstd::prelude::*;
use vstd::std_specs::bits::{axiom_u64_trailing_zeros, u64_trailing_zeros};
use crate::bits::{bit_count, count_bits, has_bit, lemma_common_bit};
use crate::board::BoardFacts;
use crate::consts::{
    lemma_table_entry_bound,
    spec_square_bonus,
    square_bonus,
    INF,
    KING_EDGE,
    MAX_SQUARE_BONUS,
    PASSED_PAWN_RANK_BONUS,
};
use crate::game_phase::GamePhases;
use crate::game_state::GameState;
use crate::material::{
    lemma_side_material_bound,
    side_material,
    BoardMaterial,
    MaterialSumExt,
};
use crate::pieces::{file_of, rank_of, BoardStatus, Color, Move, Piece};

verus! {

/// The terms that an evaluation may be made of.
#[derive(Clone, Copy, Debug, PartialEq, Eq, Hash)]
pub enum EvalFlags {
    PieceCount,
    Mobility,
    KingSafety,
    PieceSquare,
    FavourBishopPairs,
}

/// The bitboard of the a-file.
pub const FILE_A: u64 = 0x0101010101010101;

/// Penalty for a piece that still stands where it started.
pub const HOME_SQUARE_PENALTY: isize = 5;

/// Bonus for owning exactly two bishops.
pub const BISHOP_PAIR_BONUS: isize = 10;

/// Base bonus of a passed pawn.
pub const PASSED_PAWN_BONUS: isize = 15;

/// Bonus for giving check in the endgame.
pub const CHECK_BONUS: isize = 20;

/// How often `hash` occurs in `history`.
pub open spec fn repetitions(history: Seq<u64>, hash: u64) -> nat
    decreases history.len(),
{
    if history.len() == 0 {
        0
    } else {
        repetitions(history.drop_last(), hash) + if history.last() == hash {
            1nat
        } else {
            0nat
        }
    }
}

/// Whether `sq` is a square on which a piece of the given kind and colour starts the game.
/// Pawns and queens have no such square.
pub open spec fn is_home_square(piece: Piece, color: Color, sq: int) -> bool {
    match (piece, color) {
        (Piece::Knight, Color::White) => sq == 1 || sq == 6,
        (Piece::Knight, Color::Black) => sq == 57 || sq == 62,
        (Piece::Bishop, Color::White) => sq == 2 || sq == 5,
        (Piece::Bishop, Color::Black) => sq == 58 || sq == 61,
        (Piece::Rook, Color::White) => sq == 0 || sq == 7,
        (Piece::Rook, Color::Black) => sq == 56 || sq == 63,
        (Piece::King, Color::White) => sq == 4,
        (Piece::King, Color::Black) => sq == 60,
        _ => false,
    }
}

/// The bitboard of one file.
pub open spec fn file_mask(file: int) -> u64 {
    FILE_A << (file as u64)
}

/// The bitboard of a file and the files next to it.
pub open spec fn three_files(file: int) -> u64 {
    file_mask(file) | file_mask(if file > 0 { file - 1 } else { 0 }) | file_mask(
        if file < 7 {
            file + 1
        } else {
            7
        },
    )
}

/// The squares that a pawn of the given colour on `sq` has before it: its own file and the
/// two next to it, on every rank ahead of the pawn.
pub open spec fn forward_span(color: Color, sq: int) -> u64 {
    match color {
        Color::White => if rank_of(sq) >= 7 {
            0
        } else {
            three_files(file_of(sq)) << ((8 * (rank_of(sq) + 1)) as u64)
        },
        Color::Black => if rank_of(sq) <= 0 {
            0
        } else {
            three_files(file_of(sq)) >> ((8 * (8 - rank_of(sq))) as u64)
        },
    }
}

/// Number of ranks between a square and the back rank of the given colour.
pub open spec fn relative_rank(color: Color, sq: int) -> int {
    match color {
        Color::White => rank_of(sq),
        Color::Black => 7 - rank_of(sq),
    }
}

/// Whether the square `e` lies before a pawn of the given colour on `sq`: on the pawn's
/// file or one next to it, and on a rank that the pawn has still to reach.
pub open spec fn lies_before(color: Color, sq: int, e: int) -> bool {
    &&& 0 <= e < 64
    &&& -1 <= file_of(e) - file_of(sq) <= 1
    &&& match color {
        Color::White => rank_of(e) > rank_of(sq),
        Color::Black => rank_of(e) < rank_of(sq),
    }
}

/// Whether a pawn of the given colour on `sq` is passed: no enemy pawn lies before it.
pub open spec fn is_passed(facts: BoardFacts, color: Color, sq: int) -> bool {
    forall|e: int|
        #![trigger lies_before(color, sq, e)]
        lies_before(color, sq, e) ==> !has_bit(
            facts.pawns & facts.spec_color_mask(color.spec_opposite()),
            e,
        )
}

proof fn lemma_file_bit(f: u64, e: u64)
    requires
        f < 8,
        e < 64,
    ensures
        ((FILE_A << f) >> e) & 1 == 1 <==> e % 8 == f,
{
    assert(((0x0101010101010101u64 << f) >> e) & 1 == 1 <==> e % 8 == f) by (bit_vector)
        requires
            f < 8,
            e < 64,
    ;
}

proof fn lemma_or_bit(a: u64, b: u64, c: u64, e: u64)
    requires
        e < 64,
    ensures
        ((a | b | c) >> e) & 1 == 1 <==> ((a >> e) & 1 == 1 || (b >> e) & 1 == 1 || (c >> e) & 1
            == 1),
{
    assert(((a | b | c) >> e) & 1 == 1 <==> ((a >> e) & 1 == 1 || (b >> e) & 1 == 1 || (c >> e)
        & 1 == 1)) by (bit_vector)
        requires
            e < 64,
    ;
}

proof fn lemma_shl_bit(x: u64, k: u64, e: u64)
    requires
        k < 64,
        e < 64,
    ensures
        ((x << k) >> e) & 1 == 1 <==> (e >= k && (x >> ((e - k) as u64)) & 1 == 1),
{
    if e >= k {
        let d = (e - k) as u64;
        assert(((x << k) >> e) & 1 == 1 <==> (x >> d) & 1 == 1) by (bit_vector)
            requires
                k < 64,
                e < 64,
                e >= k,
                d == e - k,
        ;
    } else {
        assert(((x << k) >> e) & 1 == 0) by (bit_vector)
            requires
                k < 64,
                e < k,
        ;
    }
}

proof fn lemma_shr_bit(x: u64, k: u64, e: u64)
    requires
        k < 64,
        e < 64,
    ensures
        ((x >> k) >> e) & 1 == 1 <==> (e + k < 64 && (x >> ((e + k) as u64)) & 1 == 1),
{
    if e + k < 64 {
        let d = (e + k) as u64;
        assert(((x >> k) >> e) & 1 == 1 <==> (x >> d) & 1 == 1) by (bit_vector)
            requires
                k < 64,
                e < 64,
                e + k < 64,
                d == e + k,
        ;
    } else {
        assert(((x >> k) >> e) & 1 == 0) by (bit_vector)
            requires
                k < 64,
                e < 64,
                e + k >= 64,
        ;
    }
}

/// The bits of `three_files`: the squares on a file and on the files next to it.
proof fn lemma_three_files_bit(file: int, e: int)
    requires
        0 <= file < 8,
        0 <= e < 64,
    ensures
        has_bit(three_files(file), e) <==> -1 <= file_of(e) - file <= 1,
{
    let left = if file > 0 {
        file - 1
    } else {
        0
    };
    let right = if file < 7 {
        file + 1
    } else {
        7
    };
    lemma_file_bit(file as u64, e as u64);
    lemma_file_bit(left as u64, e as u64);
    lemma_file_bit(right as u64, e as u64);
    lemma_or_bit(file_mask(file), file_mask(left), file_mask(right), e as u64);
}

proof fn lemma_ranks_apart(e: int, ranks: int)
    requires
        0 <= e < 64,
        0 <= ranks <= 8,
    ensures
        e >= 8 * ranks <==> e / 8 >= ranks,
        e >= 8 * ranks ==> (e - 8 * ranks) % 8 == e % 8 && (e - 8 * ranks) / 8 == e / 8 - ranks,
        (e + 8 * ranks) % 8 == e % 8,
        (e + 8 * ranks) / 8 == e / 8 + ranks,
{
}

proof fn lemma_white_span_bit(sq: int, e: int)
    requires
        0 <= sq < 64,
        0 <= e < 64,
    ensures
        has_bit(forward_span(Color::White, sq), e) <==> lies_before(Color::White, sq, e),
{
    let file = sq % 8;
    let rank = sq / 8;
    if rank >= 7 {
        let at = e as u64;
        assert((0u64 >> at) & 1 == 0) by (bit_vector);
    } else {
        let ranks = rank + 1;
        let k = (8 * ranks) as u64;
        lemma_shl_bit(three_files(file), k, e as u64);
        lemma_ranks_apart(e, ranks);
        if e >= 8 * ranks {
            lemma_three_files_bit(file, e - 8 * ranks);
        }
    }
}

proof fn lemma_black_span_bit(sq: int, e: int)
    requires
        0 <= sq < 64,
        0 <= e < 64,
    ensures
        has_bit(forward_span(Color::Black, sq), e) <==> lies_before(Color::Black, sq, e),
{
    let file = sq % 8;
    let rank = sq / 8;
    if rank <= 0 {
        let at = e as u64;
        assert((0u64 >> at) & 1 == 0) by (bit_vector);
    } else {
        let ranks = 8 - rank;
        let k = (8 * ranks) as u64;
        lemma_shr_bit(three_files(file), k, e as u64);
        lemma_ranks_apart(e, ranks);
        if e + 8 * ranks < 64 {
            lemma_three_files_bit(file, e + 8 * ranks);
        }
    }
}

/// The bits of the forward span: the squares that lie before the pawn.
pub proof fn lemma_forward_span_bit(color: Color, sq: int, e: int)
    requires
        0 <= sq < 64,
        0 <= e < 64,
    ensures
        has_bit(forward_span(color, sq), e) <==> lies_before(color, sq, e),
{
    match color {
        Color::White => lemma_white_span_bit(sq, e),
        Color::Black => lemma_black_span_bit(sq, e),
    }
}

/// A pawn is passed exactly when its forward span holds no enemy pawn.
pub proof fn lemma_passed_by_span(facts: BoardFacts, color: Color, sq: int)
    requires
        0 <= sq < 64,
    ensures
        is_passed(facts, color, sq) <==> forward_span(color, sq) & (facts.pawns
            & facts.spec_color_mask(color.spec_opposite())) == 0,
{
    let span = forward_span(color, sq);
    let enemy = facts.pawns & facts.spec_color_mask(color.spec_opposite());
    let common = span & enemy;
    if common == 0 {
        assert forall|e: int| #![trigger lies_before(color, sq, e)] lies_before(color, sq, e)
            implies !has_bit(enemy, e) by {
            lemma_forward_span_bit(color, sq, e);
            lemma_common_bit(span, enemy, e);
        }
    } else {
        axiom_u64_trailing_zeros(common);
        let e = u64_trailing_zeros(common) as int;
        lemma_common_bit(span, enemy, e);
        lemma_forward_span_bit(color, sq, e);
    }
}

/// Bonus of a pawn of the given colour on `sq`: 15 and the rank bonus if it is passed.
pub open spec fn passed_pawn_score(facts: BoardFacts, color: Color, sq: int) -> int {
    if is_passed(facts, color, sq) {
        PASSED_PAWN_BONUS + PASSED_PAWN_RANK_BONUS[relative_rank(color, sq)]
    } else {
        0
    }
}

/// What one square adds to the score: the table entry of the piece on it, the bonus of a
/// passed pawn, and the penalty of a piece on its home square.
pub open spec fn square_score(facts: BoardFacts, sq: int, endgame: bool) -> int {
    match facts.spec_get_piece(sq) {
        Some((piece, color)) => spec_square_bonus(piece, color, sq, endgame) + (if piece
            == Piece::Pawn {
            passed_pawn_score(facts, color, sq)
        } else {
            0
        }) - (if is_home_square(piece, color, sq) {
            HOME_SQUARE_PENALTY as int
        } else {
            0
        }),
        None => 0,
    }
}

/// What the squares below `n` add to the score.
pub open spec fn squares_score(facts: BoardFacts, endgame: bool, n: int) -> int
    decreases n,
{
    if n <= 0 {
        0
    } else {
        squares_score(facts, endgame, n - 1) + square_score(facts, n - 1, endgame)
    }
}

/// Number of bishops of one colour.
pub open spec fn bishops_of(facts: BoardFacts, color: Color) -> nat {
    bit_count(facts.bishops & facts.spec_color_mask(color))
}

/// The bishop pair: 10 for the side to move if it has exactly two bishops, 10 against it
/// if the other side has.
pub open spec fn bishop_pair_score(facts: BoardFacts) -> int {
    (if bishops_of(facts, facts.side_to_move) == 2 {
        BISHOP_PAIR_BONUS as int
    } else {
        0
    }) - (if bishops_of(facts, facts.side_to_move.spec_opposite()) == 2 {
        BISHOP_PAIR_BONUS as int
    } else {
        0
    })
}

/// The lowest square that holds a king of the given colour.
pub open spec fn king_square(facts: BoardFacts, color: Color) -> Option<int> {
    let kings = facts.kings & facts.spec_color_mask(color);
    if kings == 0 {
        None
    } else {
        Some(u64_trailing_zeros(kings) as int)
    }
}

/// Reward for the square of the king that the engine hunts.
pub open spec fn king_edge_score(facts: BoardFacts, engine_side: Color) -> int {
    match king_square(facts, engine_side.spec_opposite()) {
        Some(sq) => KING_EDGE[sq] as int,
        None => 0,
    }
}

/// The terms of the endgame: 20 if the side to move is the engine's opponent and stands in
/// check, and the reward for the square of the opponent's king.
pub open spec fn endgame_score(facts: BoardFacts, engine_side: Color) -> int {
    (if facts.spec_in_check() && facts.side_to_move != engine_side {
        CHECK_BONUS as int
    } else {
        0
    }) + king_edge_score(facts, engine_side)
}

/// The score of an ongoing game for the side to move.
pub open spec fn side_score(facts: BoardFacts, engine_side: Color, endgame: bool) -> int {
    side_material(facts, facts.side_to_move) - side_material(
        facts,
        facts.side_to_move.spec_opposite(),
    ) + squares_score(facts, endgame, 64) + bishop_pair_score(facts) + (if endgame {
        endgame_score(facts, engine_side)
    } else {
        0
    })
}

/// A score for the side to move, turned to the engine's side.
pub open spec fn from_engine_side(score: int, side_to_move: Color, engine_side: Color) -> int {
    if side_to_move == engine_side {
        score
    } else {
        -score
    }
}

/// The score of a position that has not occurred three times, and the phase after the
/// evaluation. A stalemate is 0. A checkmate is lost for the side to move: `-INF` if that
/// is the engine, `INF` if not. An ongoing game moves the phase on and is then scored by
/// `side_score`.
pub open spec fn fresh_evaluation(facts: BoardFacts, engine_side: Color, phase: GamePhases) -> (
    int,
    GamePhases,
) {
    match facts.status {
        BoardStatus::Stalemate => (0, phase),
        BoardStatus::Checkmate => (from_engine_side(-INF, facts.side_to_move, engine_side), phase),
        BoardStatus::Ongoing => {
            let next = phase.updated(facts);
            (
                from_engine_side(
                    side_score(facts, engine_side, next.spec_is_end()),
                    facts.side_to_move,
                    engine_side,
                ),
                next,
            )
        },
    }
}

/// The score of a position for the engine, and the phase after the evaluation. A position
/// whose hash occurs at least three times in the history is a draw.
pub open spec fn evaluation(
    facts: BoardFacts,
    history: Seq<u64>,
    engine_side: Color,
    phase: GamePhases,
) -> (int, GamePhases) {
    if repetitions(history, facts.hash) >= 3 {
        (0, phase)
    } else {
        fresh_evaluation(facts, engine_side, phase)
    }
}

/// No square adds more than this to a score, or takes more from it.
pub const MAX_SQUARE_SCORE: isize = 155;

/// No score of an ongoing game exceeds this in absolute value.
pub const MAX_SIDE_SCORE: isize = 1_424_370;

/// What a square adds to the score is bounded.
pub proof fn lemma_square_score_bound(facts: BoardFacts, sq: int, endgame: bool)
    requires
        0 <= sq < 64,
    ensures
        -MAX_SQUARE_SCORE <= square_score(facts, sq, endgame) <= MAX_SQUARE_SCORE,
{
    lemma_table_entry_bound(Piece::Pawn, endgame, sq);
    lemma_table_entry_bound(Piece::Knight, endgame, sq);
    lemma_table_entry_bound(Piece::Bishop, endgame, sq);
    lemma_table_entry_bound(Piece::Rook, endgame, sq);
    lemma_table_entry_bound(Piece::Queen, endgame, sq);
    lemma_table_entry_bound(Piece::King, endgame, sq);
    lemma_table_entry_bound(Piece::Pawn, endgame, 63 - sq);
    lemma_table_entry_bound(Piece::Knight, endgame, 63 - sq);
    lemma_table_entry_bound(Piece::Bishop, endgame, 63 - sq);
    lemma_table_entry_bound(Piece::Rook, endgame, 63 - sq);
    lemma_table_entry_bound(Piece::Queen, endgame, 63 - sq);
    lemma_table_entry_bound(Piece::King, endgame, 63 - sq);
}

/// What the squares below `n` add to the score is bounded.
pub proof fn lemma_squares_score_bound(facts: BoardFacts, endgame: bool, n: int)
    requires
        0 <= n <= 64,
    ensures
        -MAX_SQUARE_SCORE * n <= squares_score(facts, endgame, n) <= MAX_SQUARE_SCORE * n,
    decreases n,
{
    if n > 0 {
        lemma_squares_score_bound(facts, endgame, n - 1);
        lemma_square_score_bound(facts, n - 1, endgame);
    }
}

/// The reward for the square of the hunted king is at most 20 in absolute value.
pub proof fn lemma_king_edge_bound(facts: BoardFacts, engine_side: Color)
    ensures
        -20 <= king_edge_score(facts, engine_side) <= 20,
{
    let kings = facts.kings & facts.spec_color_mask(engine_side.spec_opposite());
    axiom_u64_trailing_zeros(kings);
}

/// The score of an ongoing game lies strictly between the scores of a lost and a won game.
pub proof fn lemma_side_score_bound(facts: BoardFacts, engine_side: Color, endgame: bool)
    ensures
        -MAX_SIDE_SCORE <= side_score(facts, engine_side, endgame) <= MAX_SIDE_SCORE,
        MAX_SIDE_SCORE < INF,
{
    lemma_side_material_bound(facts, facts.side_to_move);
    lemma_side_material_bound(facts, facts.side_to_move.spec_opposite());
    lemma_squares_score_bound(facts, endgame, 64);
    lemma_king_edge_bound(facts, engine_side);
}

/// Every score lies between `-INF` and `INF`, and only a checkmate reaches them.
pub proof fn lemma_evaluation_bound(
    facts: BoardFacts,
    history: Seq<u64>,
    engine_side: Color,
    phase: GamePhases,
)
    ensures
        -INF <= evaluation(facts, history, engine_side, phase).0 <= INF,
        evaluation(facts, history, engine_side, phase).0 == INF || evaluation(
            facts,
            history,
            engine_side,
            phase,
        ).0 == -INF ==> facts.status == BoardStatus::Checkmate,
        evaluation(facts, history, engine_side, phase).1.rank() >= phase.rank(),
{
    lemma_side_score_bound(facts, engine_side, phase.updated(facts).spec_is_end());
}

/// A position that has occurred at most twice is scored by what is on the board: where
/// its score is not 0, that is not for a repetition.
pub proof fn lemma_score_without_repetition(
    facts: BoardFacts,
    history: Seq<u64>,
    engine_side: Color,
    phase: GamePhases,
)
    requires
        repetitions(history, facts.hash) <= 2,
    ensures
        evaluation(facts, history, engine_side, phase) == fresh_evaluation(
            facts,
            engine_side,
            phase,
        ),
{
}

/// Whether the terms that depend on the engine's side are the same for both sides, where
/// the evaluation reaches them: in an ongoing endgame that is not drawn by repetition.
pub open spec fn sides_agree(facts: BoardFacts, history: Seq<u64>, phase: GamePhases) -> bool {
    repetitions(history, facts.hash) < 3 && facts.status == BoardStatus::Ongoing && phase.updated(
        facts,
    ).spec_is_end() ==> endgame_score(facts, Color::White) == endgame_score(facts, Color::Black)
}

/// The score for White is the negation of the score for Black, and the phase moves on in
/// the same way for both. The endgame terms look at the engine's opponent only, so the law
/// is stated where they agree for both sides.
pub proof fn lemma_score_turns_with_side(facts: BoardFacts, history: Seq<u64>, phase: GamePhases)
    requires
        sides_agree(facts, history, phase),
    ensures
        evaluation(facts, history, Color::White, phase).0 == -evaluation(
            facts,
            history,
            Color::Black,
            phase,
        ).0,
        evaluation(facts, history, Color::White, phase).1 == evaluation(
            facts,
            history,
            Color::Black,
            phase,
        ).1,
{
}

/// What one evaluation is given: the facts of a position, the history of the game and
/// the side that the engine plays.
pub struct Evaluated {
    pub facts: BoardFacts,
    pub history: Seq<u64>,
    pub engine_side: Color,
}

/// The phase of the game after a series of evaluations, each of which starts in the phase
/// that the one before has left.
pub open spec fn phase_after_evaluations(phase: GamePhases, calls: Seq<Evaluated>) -> GamePhases
    decreases calls.len(),
{
    if calls.len() == 0 {
        phase
    } else {
        evaluation(
            calls.last().facts,
            calls.last().history,
            calls.last().engine_side,
            phase_after_evaluations(phase, calls.drop_last()),
        ).1
    }
}

/// Evaluations never take the game back to an earlier phase: after any series of them the
/// phase is at least what it was after any shorter part of the series.
pub proof fn lemma_evaluations_never_regress(phase: GamePhases, calls: Seq<Evaluated>, n: int)
    requires
        0 <= n <= calls.len(),
    ensures
        phase_after_evaluations(phase, calls.take(n)).rank() <= phase_after_evaluations(
            phase,
            calls,
        ).rank(),
    decreases calls.len(),
{
    if n == calls.len() {
        assert(calls.take(n) =~= calls);
    } else {
        assert(calls.drop_last().take(n) =~= calls.take(n));
        lemma_evaluations_never_regress(phase, calls.drop_last(), n);
        lemma_evaluation_bound(
            calls.last().facts,
            calls.last().history,
            calls.last().engine_side,
            phase_after_evaluations(phase, calls.drop_last()),
        );
    }
}

/// An evaluator for one side: it scores positions for the side the engine plays and
/// carries the game state, whose phase its evaluations move on.
pub struct Evaluation {
    pub engine_side: Color,
    pub game_state: GameState,
}

/// How often `hash` occurs in `history`.
pub fn count_repetitions(history: &[u64], hash: u64) -> (n: usize)
    ensures
        n == repetitions(history@, hash),
{
    let mut n: usize = 0;
    let mut i: usize = 0;
    while i < history.len()
        invariant
            i <= history.len(),
            n <= i,
            n == repetitions(history@.take(i as int), hash),
        decreases history.len() - i,
    {
        assert(history@.take(i + 1).drop_last() =~= history@.take(i as int));
        if history[i] == hash {
            n += 1;
        }
        i += 1;
    }
    assert(history@.take(history.len() as int) =~= history@);
    n
}

impl Evaluation {
    /// An evaluator for the side that is to move on `engine_side`.
    pub fn new(engine_side: &BoardFacts, game_state: GameState) -> (e: Self)
        ensures
            e.engine_side == engine_side.side_to_move,
            e.game_state == game_state,
    {
        Self { engine_side: engine_side.side_to_move, game_state }
    }

    /// Whether a piece stands on a square on which a piece of its kind and colour starts.
    pub fn is_piece_on_original_pos(&self, piece: Piece, square: u8, color: Color) -> (r: bool)
        ensures
            r == is_home_square(piece, color, square as int),
    {
        match piece {
            Piece::Knight => match color {
                Color::White => square == 1 || square == 6,
                Color::Black => square == 57 || square == 62,
            },
            Piece::Bishop => match color {
                Color::White => square == 2 || square == 5,
                Color::Black => square == 58 || square == 61,
            },
            Piece::Rook => match color {
                Color::White => square == 0 || square == 7,
                Color::Black => square == 56 || square == 63,
            },
            Piece::King => match color {
                Color::White => square == 4,
                Color::Black => square == 60,
            },
            _ => false,
        }
    }

    /// The bitboard of one file.
    fn file_bitboard(&self, file_idx: u8) -> (r: u64)
        requires
            file_idx < 8,
        ensures
            r == file_mask(file_idx as int),
    {
        FILE_A << (file_idx as u64)
    }

    fn pass_pawn_files(&self, square: u8) -> (r: u64)
        requires
            square < 64,
        ensures
            r == three_files(file_of(square as int)),
    {
        let file: u8 = square % 8;
        let left: u8 = if file > 0 {
            file - 1
        } else {
            0
        };
        let right: u8 = if file < 7 {
            file + 1
        } else {
            7
        };
        self.file_bitboard(file) | self.file_bitboard(left) | self.file_bitboard(right)
    }

    /// The squares before a black pawn: its file and the files next to it, on the ranks
    /// below it.
    fn pass_pawn_bitmask_black(&self, square: u8) -> (r: u64)
        requires
            square < 64,
        ensures
            r == forward_span(Color::Black, square as int),
    {
        let rank: u8 = square / 8;
        if rank == 0 {
            0
        } else {
            self.pass_pawn_files(square) >> ((8 * (8 - rank)) as u64)
        }
    }

    /// The squares before a white pawn: its file and the files next to it, on the ranks
    /// above it.
    fn pass_pawn_bitmask_white(&self, square: u8) -> (r: u64)
        requires
            square < 64,
        ensures
            r == forward_span(Color::White, square as int),
    {
        let rank: u8 = square / 8;
        if rank >= 7 {
            0
        } else {
            self.pass_pawn_files(square) << ((8 * (rank + 1)) as u64)
        }
    }

    /// The bonus of a pawn: 15 and the bonus of its rank if it is passed, 0 if it is not.
    fn pass_pawn(&self, facts: &BoardFacts, square: u8, color: Color) -> (r: isize)
        requires
            square < 64,
        ensures
            r == passed_pawn_score(*facts, color, square as int),
            0 <= r <= 105,
    {
        let pawn_mask = match color {
            Color::White => self.pass_pawn_bitmask_white(square),
            Color::Black => self.pass_pawn_bitmask_black(square),
        };
        let enemy_pawns = facts.pawns & facts.color_mask(color.opposite());
        proof {
            lemma_passed_by_span(*facts, color, square as int);
        }
        if pawn_mask & enemy_pawns == 0 {
            let rank: usize = match color {
                Color::White => (square / 8) as usize,
                Color::Black => 7 - (square / 8) as usize,
            };
            PASSED_PAWN_BONUS + PASSED_PAWN_RANK_BONUS[rank]
        } else {
            0
        }
    }

    /// The bishop pair, for the side to move: 10 if it has exactly two bishops, 10 less if
    /// the other side has.
    fn favour_bishop_pair(&self, facts: &BoardFacts) -> (r: isize)
        ensures
            r == bishop_pair_score(*facts),
            -10 <= r <= 10,
    {
        let own = count_bits(facts.bishops & facts.color_mask(facts.side_to_move));
        let other = count_bits(facts.bishops & facts.color_mask(facts.side_to_move.opposite()));
        let mut score: isize = 0;
        if own == 2 {
            score = score + BISHOP_PAIR_BONUS;
        }
        if other == 2 {
            score = score - BISHOP_PAIR_BONUS;
        }
        score
    }

    /// What the occupied squares add to the score.
    fn eval_squares(&self, facts: &BoardFacts, endgame: bool) -> (r: isize)
        ensures
            r == squares_score(*facts, endgame, 64),
    {
        let mut value_based_on_pos: isize = 0;
        let mut x: u8 = 0;
        while x < 64
            invariant
                x <= 64,
                value_based_on_pos == squares_score(*facts, endgame, x as int),
            decreases 64 - x,
        {
            proof {
                lemma_squares_score_bound(*facts, endgame, x as int);
                lemma_square_score_bound(*facts, x as int, endgame);
            }
            if let Some((piece, color)) = facts.get_piece(x) {
                let mut value = square_bonus(piece, color, x, endgame);
                if piece == Piece::Pawn {
                    value = value + self.pass_pawn(facts, x, color);
                }
                if self.is_piece_on_original_pos(piece, x, color) {
                    value = value - HOME_SQUARE_PENALTY;
                }
                value_based_on_pos = value_based_on_pos + value;
            }
            x += 1;
        }
        value_based_on_pos
    }

    /// Reward for the square of the opponent's king: high on the rim of the board, low in
    /// its centre.
    fn push_enemy_king_to_edge(&self, facts: &BoardFacts) -> (r: isize)
        ensures
            r == king_edge_score(*facts, self.engine_side),
            -20 <= r <= 20,
    {
        let enemy_king = facts.kings & facts.color_mask(self.engine_side.opposite());
        proof {
            axiom_u64_trailing_zeros(enemy_king);
        }
        if enemy_king == 0 {
            0
        } else {
            KING_EDGE[enemy_king.trailing_zeros() as usize]
        }
    }

    /// Scores a position for the engine's side and moves the phase of the game on.
    pub fn eval_board(&mut self, facts: &BoardFacts, board_history: &[u64]) -> (score: isize)
        ensures
            score == evaluation(
                *facts,
                board_history@,
                old(self).engine_side,
                old(self).game_state.game_phases,
            ).0,
            *final(self) == (Evaluation {
                game_state: GameState {
                    game_phases: evaluation(
                        *facts,
                        board_history@,
                        old(self).engine_side,
                        old(self).game_state.game_phases,
                    ).1,
                    ..old(self).game_state
                },
                ..*old(self)
            }),
            -INF <= score <= INF,
            final(self).game_state.game_phases.rank() >= old(self).game_state.game_phases.rank(),
    {
        proof {
            lemma_evaluation_bound(
                *facts,
                board_history@,
                self.engine_side,
                self.game_state.game_phases,
            );
        }
        let repeat_board = count_repetitions(board_history, facts.hash);
        if repeat_board > 2 {
            return 0;
        }
        match facts.status {
            BoardStatus::Ongoing => {
                let board_sum = facts.material_sum_bitboard();
                proof {
                    lemma_side_material_bound(*facts, Color::White);
                    lemma_side_material_bound(*facts, Color::Black);
                }
                let material = match facts.side_to_move {
                    Color::White => board_sum.white as isize - board_sum.black as isize,
                    Color::Black => board_sum.black as isize - board_sum.white as isize,
                };
                self.game_state.update_game_phase(board_sum, facts);
                let endgame = self.game_state.game_phases().is_end();
                proof {
                    lemma_squares_score_bound(*facts, endgame, 64);
                }
                let mut eval = material + self.eval_squares(facts, endgame)
                    + self.favour_bishop_pair(facts);
                if endgame {
                    if facts.in_check() && self.engine_side != facts.side_to_move {
                        eval = eval + CHECK_BONUS;
                    }
                    eval = eval + self.push_enemy_king_to_edge(facts);
                }
                if facts.side_to_move != self.engine_side {
                    -eval
                } else {
                    eval
                }
            },
            BoardStatus::Stalemate => 0,
            BoardStatus::Checkmate => {
                if facts.side_to_move == self.engine_side {
                    -INF
                } else {
                    INF
                }
            },
        }
    }

    /// Twice the number of moves.
    pub fn eval_mobility(&self, moves: &[Move]) -> (r: isize)
        requires
            2 * moves@.len() <= isize::MAX,
        ensures
            r == 2 * moves@.len(),
    {
        (moves.len() * 2) as isize
    }
}

} // verus!
