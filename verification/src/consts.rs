//! Piece values and piece-square tables.
//!
//! A table holds one centipawn adjustment per square, indexed by the square's number
//! (a1 = 0, ..., h8 = 63). The tables are written for White; Black reads the same table
//! with the index reversed.

use vstd::prelude::*;
use crate::pieces::{Color, Piece};

verus! {

/// The score of a won game. Every other score lies strictly between `-INF` and `INF`.
pub const INF: isize = 1073741824;

/// Material of one side at the start of a game.
pub const INITIAL_BOARD_VALUE: u16 = 23_900;

/// Largest absolute value of an entry of any piece-square table.
pub const MAX_SQUARE_BONUS: isize = 50;

/// White's table for pawns.
pub const PAWN_VALUE_PER_SQUARE_WHITE: [isize; 64] = [
    0, 0, 0, 0, 0, 0, 0, 0,
    50, 50, 50, 50, 50, 50, 50, 50,
    10, 10, 20, 30, 30, 20, 10, 10,
    5, 5, 10, 25, 25, 10, 5, 5,
    0, 0, 0, 20, 20, 0, 0, 0,
    5, -5, -10, 0, 0, -10, -5, 5,
    5, 10, 10, -20, -20, 10, 10, 5,
    0, 0, 0, 0, 0, 0, 0, 0,
];

/// White's table for knights.
pub const KNIGHT_VALUE_PER_SQUARE_WHITE: [isize; 64] = [
    -50, -40, -30, -30, -30, -30, -40, -50,
    -40, -20, 0, 0, 0, 0, -20, -40,
    -30, 0, 10, 15, 15, 10, 0, -30,
    -30, 5, 15, 20, 20, 15, 5, -30,
    -30, 0, 15, 20, 20, 15, 0, -30,
    -30, 5, 10, 15, 15, 10, 5, -30,
    -40, -20, 0, 5, 5, 0, -20, -40,
    -50, -40, -30, -30, -30, -30, -40, -50,
];

/// White's table for bishops.
pub const BISHOP_VALUE_PER_SQUARE_WHITE: [isize; 64] = [
    -20, -10, -10, -10, -10, -10, -10, -20,
    -10, 0, 0, 0, 0, 0, 0, -10,
    -10, 0, 5, 10, 10, 5, 0, -10,
    -10, 5, 5, 10, 10, 5, 5, -10,
    -10, 0, 10, 10, 10, 10, 0, -10,
    -10, 10, 10, 10, 10, 10, 10, -10,
    -10, 5, 0, 0, 0, 0, 5, -10,
    -20, -10, -10, -10, -10, -10, -10, -20,
];

/// White's table for rooks.
pub const ROOK_VALUE_PER_SQUARE_WHITE: [isize; 64] = [
    0, 0, 0, 0, 0, 0, 0, 0,
    5, 10, 10, 10, 10, 10, 10, 5,
    -5, 0, 0, 0, 0, 0, 0, -5,
    -5, 0, 0, 0, 0, 0, 0, -5,
    -5, 0, 0, 0, 0, 0, 0, -5,
    -5, 0, 0, 0, 0, 0, 0, -5,
    -5, 0, 0, 0, 0, 0, 0, -5,
    0, 0, 0, 5, 5, 0, 0, 0,
];

/// White's table for queens.
pub const QUEEN_VALUE_PER_SQUARE_WHITE: [isize; 64] = [
    -20, -10, -10, -5, -5, -10, -10, -20,
    -10, 0, 0, 0, 0, 0, 0, -10,
    -10, 0, 5, 5, 5, 5, 0, -10,
    -5, 0, 5, 5, 5, 5, 0, -5,
    0, 0, 5, 5, 5, 5, 0, -5,
    -10, 5, 5, 5, 5, 5, 0, -10,
    -10, 0, 5, 0, 0, 0, 0, -10,
    -20, -10, -10, -5, -5, -10, -10, -20,
];

/// White's table for the king before the endgame.
pub const KING_MIDDLE_WHITE: [isize; 64] = [
    -30, -40, -40, -50, -50, -40, -40, -30,
    -30, -40, -40, -50, -50, -40, -40, -30,
    -30, -40, -40, -50, -50, -40, -40, -30,
    -30, -40, -40, -50, -50, -40, -40, -30,
    -20, -30, -30, -40, -40, -30, -30, -20,
    -10, -20, -20, -20, -20, -20, -20, -10,
    20, 20, 0, 0, 0, 0, 20, 20,
    20, 30, 10, 0, 0, 10, 30, 20,
];

/// White's table for the king in the endgame.
pub const KING_ENDGAME_WHITE: [isize; 64] = [
    -50, -40, -30, -20, -20, -30, -40, -50,
    -30, -20, -10, 0, 0, -10, -20, -30,
    -30, -10, 20, 30, 30, 20, -10, -30,
    -30, -10, 30, 40, 40, 30, -10, -30,
    -30, -10, 30, 40, 40, 30, -10, -30,
    -30, -10, 20, 30, 30, 20, -10, -30,
    -30, -30, 0, 0, 0, 0, -30, -30,
    -50, -30, -30, -30, -30, -30, -30, -50,
];

/// Reward for the square of a bare enemy king: highest on the rim, lowest in the centre.
pub const KING_EDGE: [isize; 64] = [
    16, 16, 16, 16, 16, 16, 16, 16,
    16, 14, 14, 14, 14, 14, 14, 16,
    16, 14, -10, -10, -10, -10, 14, 16,
    16, 14, -10, -20, -20, -10, 14, 16,
    16, 14, -10, -20, -20, -20, 14, 16,
    16, 14, -10, -10, -10, -10, 14, 16,
    16, 14, 14, 14, 14, 14, 14, 16,
    16, 14, 14, 14, 14, 14, 14, 16,
];

/// Bonus of a passed pawn by the number of ranks it stands above its own back rank.
pub const PASSED_PAWN_RANK_BONUS: [isize; 8] = [0, 10, 30, 40, 50, 60, 90, 0];

/// Value of a piece in centipawns.
pub open spec fn spec_piece_value(kind: Piece) -> int {
    match kind {
        Piece::Pawn => 100,
        Piece::Knight => 300,
        Piece::Bishop => 300,
        Piece::Rook => 500,
        Piece::Queen => 900,
        Piece::King => 20_000,
    }
}

/// Value of a piece in centipawns.
pub fn piece_value(kind: Piece) -> (v: u32)
    ensures
        v == spec_piece_value(kind),
{
    match kind {
        Piece::Pawn => 100,
        Piece::Knight => 300,
        Piece::Bishop => 300,
        Piece::Rook => 500,
        Piece::Queen => 900,
        Piece::King => 20_000,
    }
}

/// The pieces a side starts with are worth `INITIAL_BOARD_VALUE`.
pub proof fn lemma_initial_board_value()
    ensures
        8 * spec_piece_value(Piece::Pawn) + 2 * spec_piece_value(Piece::Knight) + 2
            * spec_piece_value(Piece::Bishop) + 2 * spec_piece_value(Piece::Rook)
            + spec_piece_value(Piece::Queen) + spec_piece_value(Piece::King)
            == INITIAL_BOARD_VALUE,
{
}

/// Entry `i` of White's table for a piece kind. The king has one table for the endgame and
/// one for the rest of the game.
pub open spec fn table_entry(kind: Piece, endgame: bool, i: int) -> int {
    match kind {
        Piece::Pawn => PAWN_VALUE_PER_SQUARE_WHITE[i] as int,
        Piece::Knight => KNIGHT_VALUE_PER_SQUARE_WHITE[i] as int,
        Piece::Bishop => BISHOP_VALUE_PER_SQUARE_WHITE[i] as int,
        Piece::Rook => ROOK_VALUE_PER_SQUARE_WHITE[i] as int,
        Piece::Queen => QUEEN_VALUE_PER_SQUARE_WHITE[i] as int,
        Piece::King => if endgame {
            KING_ENDGAME_WHITE[i] as int
        } else {
            KING_MIDDLE_WHITE[i] as int
        },
    }
}

/// Adjustment for a piece of the given kind and colour standing on `sq`.
pub open spec fn spec_square_bonus(kind: Piece, color: Color, sq: int, endgame: bool) -> int {
    match color {
        Color::White => table_entry(kind, endgame, sq),
        Color::Black => table_entry(kind, endgame, 63 - sq),
    }
}

/// Every table entry is at most `MAX_SQUARE_BONUS` in absolute value.
pub proof fn lemma_table_entry_bound(kind: Piece, endgame: bool, i: int)
    requires
        0 <= i < 64,
    ensures
        -MAX_SQUARE_BONUS <= table_entry(kind, endgame, i) <= MAX_SQUARE_BONUS,
{
}

/// White's table for a piece kind.
pub fn white_table(kind: Piece, endgame: bool) -> (t: [isize; 64])
    ensures
        forall|i: int| 0 <= i < 64 ==> t[i] == table_entry(kind, endgame, i),
{
    match kind {
        Piece::Pawn => PAWN_VALUE_PER_SQUARE_WHITE,
        Piece::Knight => KNIGHT_VALUE_PER_SQUARE_WHITE,
        Piece::Bishop => BISHOP_VALUE_PER_SQUARE_WHITE,
        Piece::Rook => ROOK_VALUE_PER_SQUARE_WHITE,
        Piece::Queen => QUEEN_VALUE_PER_SQUARE_WHITE,
        Piece::King => if endgame {
            KING_ENDGAME_WHITE
        } else {
            KING_MIDDLE_WHITE
        },
    }
}

/// An array read backwards: entry `i` of the result is entry `N - 1 - i` of `arr`.
pub fn reverse<const N: usize>(arr: [isize; N]) -> (reversed: [isize; N])
    ensures
        forall|i: int| 0 <= i < N ==> reversed[i] == arr[N - 1 - i],
{
    let mut reversed = [0; N];
    let mut i: usize = 0;
    while i < N
        invariant
            i <= N,
            forall|j: int| 0 <= j < i ==> reversed[j] == arr[N - 1 - j],
        decreases N - i,
    {
        reversed[i] = arr[N - 1 - i];
        i += 1;
    }
    reversed
}

/// Black's table for a piece kind: White's table with the squares in reverse order.
pub fn black_table(kind: Piece, endgame: bool) -> (t: [isize; 64])
    ensures
        forall|i: int| 0 <= i < 64 ==> t[i] == table_entry(kind, endgame, 63 - i),
        forall|i: int| 0 <= i < 64 ==> t[i] == spec_square_bonus(kind, Color::Black, i, endgame),
{
    reverse(white_table(kind, endgame))
}

/// Adjustment for a piece of the given kind and colour standing on `sq`.
pub fn square_bonus(kind: Piece, color: Color, sq: u8, endgame: bool) -> (v: isize)
    requires
        sq < 64,
    ensures
        v == spec_square_bonus(kind, color, sq as int, endgame),
        -MAX_SQUARE_BONUS <= v <= MAX_SQUARE_BONUS,
{
    let i: usize = match color {
        Color::White => sq as usize,
        Color::Black => 63 - sq as usize,
    };
    proof {
        lemma_table_entry_bound(kind, endgame, i as int);
    }
    match kind {
        Piece::Pawn => PAWN_VALUE_PER_SQUARE_WHITE[i],
        Piece::Knight => KNIGHT_VALUE_PER_SQUARE_WHITE[i],
        Piece::Bishop => BISHOP_VALUE_PER_SQUARE_WHITE[i],
        Piece::Rook => ROOK_VALUE_PER_SQUARE_WHITE[i],
        Piece::Queen => QUEEN_VALUE_PER_SQUARE_WHITE[i],
        Piece::King => if endgame {
            KING_ENDGAME_WHITE[i]
        } else {
            KING_MIDDLE_WHITE[i]
        },
    }
}

/// What Black reads on a square is what White reads on the square opposite to it: for
/// every piece kind, Black's entry `i` is White's entry `63 - i`.
pub proof fn lemma_black_mirrors_white(kind: Piece, endgame: bool, i: int)
    requires
        0 <= i < 64,
    ensures
        spec_square_bonus(kind, Color::Black, i, endgame) == spec_square_bonus(
            kind,
            Color::White,
            63 - i,
            endgame,
        ),
{
}

} // verus!
