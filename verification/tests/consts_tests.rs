use chess_engine::consts::{
    BISHOP_VALUE_PER_SQUARE_WHITE, KNIGHT_VALUE_PER_SQUARE_WHITE, PAWN_VALUE_PER_SQUARE_WHITE,
    QUEEN_VALUE_PER_SQUARE_WHITE, ROOK_VALUE_PER_SQUARE_WHITE,
};
use chess_engine::{
    black_table, piece_value, reverse, square_bonus, white_table, Color, Piece, INF,
    INITIAL_BOARD_VALUE, KING_EDGE, KING_ENDGAME_WHITE, KING_MIDDLE_WHITE,
};

const KINDS: [Piece; 6] =
    [Piece::Pawn, Piece::Knight, Piece::Bishop, Piece::Rook, Piece::Queen, Piece::King];

#[test]
fn black_tables_mirror_white_tables() {
    for kind in KINDS {
        for endgame in [false, true] {
            let white = white_table(kind, endgame);
            let black = black_table(kind, endgame);
            for i in 0..64usize {
                assert_eq!(black[i], white[63 - i]);
                assert_eq!(square_bonus(kind, Color::Black, i as u8, endgame), black[i]);
                assert_eq!(square_bonus(kind, Color::White, i as u8, endgame), white[i]);
            }
        }
    }
}

#[test]
fn tables_are_the_named_constants() {
    assert_eq!(white_table(Piece::Pawn, false), PAWN_VALUE_PER_SQUARE_WHITE);
    assert_eq!(white_table(Piece::Knight, true), KNIGHT_VALUE_PER_SQUARE_WHITE);
    assert_eq!(white_table(Piece::Bishop, false), BISHOP_VALUE_PER_SQUARE_WHITE);
    assert_eq!(white_table(Piece::Rook, true), ROOK_VALUE_PER_SQUARE_WHITE);
    assert_eq!(white_table(Piece::Queen, false), QUEEN_VALUE_PER_SQUARE_WHITE);
    assert_eq!(white_table(Piece::King, false), KING_MIDDLE_WHITE);
    assert_eq!(white_table(Piece::King, true), KING_ENDGAME_WHITE);
    assert_eq!(square_bonus(Piece::Pawn, Color::White, 8, false), 50);
    assert_eq!(square_bonus(Piece::Pawn, Color::Black, 55, false), 50);
    assert_eq!(square_bonus(Piece::King, Color::White, 27, true), 40);
    assert_eq!(square_bonus(Piece::King, Color::White, 27, false), -50);
    assert_eq!(KING_EDGE[0], 16);
    assert_eq!(KING_EDGE[27], -20);
}

#[test]
fn reverse_reads_an_array_backwards() {
    assert_eq!(reverse([1, 2, 3]), [3, 2, 1]);
    assert_eq!(reverse([7]), [7]);
    let none: [isize; 0] = [];
    assert_eq!(reverse(none), none);
    assert_eq!(reverse(reverse(KING_MIDDLE_WHITE)), KING_MIDDLE_WHITE);
}

#[test]
fn piece_values_sum_to_the_initial_board_value() {
    assert_eq!(piece_value(Piece::Pawn), 100);
    assert_eq!(piece_value(Piece::Knight), 300);
    assert_eq!(piece_value(Piece::Bishop), 300);
    assert_eq!(piece_value(Piece::Rook), 500);
    assert_eq!(piece_value(Piece::Queen), 900);
    assert_eq!(piece_value(Piece::King), 20_000);
    let total = 8 * piece_value(Piece::Pawn)
        + 2 * piece_value(Piece::Knight)
        + 2 * piece_value(Piece::Bishop)
        + 2 * piece_value(Piece::Rook)
        + piece_value(Piece::Queen)
        + piece_value(Piece::King);
    assert_eq!(total, INITIAL_BOARD_VALUE as u32);
    assert_eq!(INF, 1 << 30);
    assert!(-INF < 0 && INF < isize::MAX);
}
