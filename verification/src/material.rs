//! Material: the summed value of the pieces of each side.

use vstd::prelude::*;
use crate::bits::{
    bit_count, bits_below, count_bits, has_bit, lemma_bit_count_counts_squares, lemma_common_bit,
};
use crate::board::{BoardFacts, PieceFromColor};
use crate::consts::{piece_value, spec_piece_value};
use crate::pieces::{Color, Piece};

verus! {

/// The material of both sides, in centipawns.
#[derive(Clone, Copy, Debug, PartialEq, Eq, Structural)]
pub struct BoardMaterial {
    pub white: u32,
    pub black: u32,
}

/// Value of the pieces of one kind and colour, counted on the bitboards.
pub open spec fn kind_material(facts: BoardFacts, kind: Piece, color: Color) -> int {
    bit_count(facts.spec_pieces(kind) & facts.spec_color_mask(color)) * spec_piece_value(kind)
}

/// Value of all pieces of one colour, counted on the bitboards.
pub open spec fn side_material(facts: BoardFacts, color: Color) -> int {
    kind_material(facts, Piece::Pawn, color) + kind_material(facts, Piece::Knight, color)
        + kind_material(facts, Piece::Bishop, color) + kind_material(facts, Piece::Rook, color)
        + kind_material(facts, Piece::Queen, color) + kind_material(facts, Piece::King, color)
}

/// Value of the piece of the given colour on a square, 0 where there is none.
pub open spec fn square_material(facts: BoardFacts, color: Color, sq: int) -> int {
    match facts.spec_get_piece(sq) {
        Some((p, c)) => if c == color {
            spec_piece_value(p)
        } else {
            0
        },
        None => 0,
    }
}

/// Value of the pieces of one colour on the squares below `n`, counted square by square.
pub open spec fn squares_material(facts: BoardFacts, color: Color, n: int) -> int
    decreases n,
{
    if n <= 0 {
        0
    } else {
        squares_material(facts, color, n - 1) + square_material(facts, color, n - 1)
    }
}

/// No side's material exceeds this.
pub const MAX_SIDE_MATERIAL: u32 = 1_414_400;

/// The bitboard count of a side's material is at most `MAX_SIDE_MATERIAL`.
pub proof fn lemma_side_material_bound(facts: BoardFacts, color: Color)
    ensures
        0 <= side_material(facts, color) <= MAX_SIDE_MATERIAL,
{
    let m = facts.spec_color_mask(color);
    crate::bits::lemma_bit_count_bound(facts.pawns & m);
    crate::bits::lemma_bit_count_bound(facts.knights & m);
    crate::bits::lemma_bit_count_bound(facts.bishops & m);
    crate::bits::lemma_bit_count_bound(facts.rooks & m);
    crate::bits::lemma_bit_count_bound(facts.queens & m);
    crate::bits::lemma_bit_count_bound(facts.kings & m);
}

fn kind_sum(facts: &BoardFacts, kind: Piece, color: Color) -> (r: u32)
    ensures
        r == kind_material(*facts, kind, color),
        r <= 64 * spec_piece_value(kind),
{
    let n = count_bits(facts.pieces(kind) & facts.color_mask(color));
    assert(n * spec_piece_value(kind) <= 64 * spec_piece_value(kind)) by (nonlinear_arith)
        requires
            0 <= n <= 64,
            spec_piece_value(kind) >= 0,
    ;
    n * piece_value(kind)
}

fn side_sum(facts: &BoardFacts, color: Color) -> (r: u32)
    ensures
        r == side_material(*facts, color),
        r <= MAX_SIDE_MATERIAL,
{
    kind_sum(facts, Piece::Pawn, color) + kind_sum(facts, Piece::Knight, color) + kind_sum(
        facts,
        Piece::Bishop,
        color,
    ) + kind_sum(facts, Piece::Rook, color) + kind_sum(facts, Piece::Queen, color) + kind_sum(
        facts,
        Piece::King,
        color,
    )
}

/// Two ways to sum the material of a board.
pub trait MaterialSumExt {
    /// The material of both sides, counted square by square.
    spec fn spec_material_sum(&self) -> BoardMaterial;

    /// The material of both sides, counted on the bitboards.
    spec fn spec_material_sum_bitboard(&self) -> BoardMaterial;

    fn material_sum(&self) -> (mat: BoardMaterial)
        ensures
            mat == self.spec_material_sum(),
    ;

    fn material_sum_bitboard(&self) -> (mat: BoardMaterial)
        ensures
            mat == self.spec_material_sum_bitboard(),
    ;
}

proof fn lemma_squares_material_bound(facts: BoardFacts, color: Color, n: int)
    requires
        0 <= n,
    ensures
        0 <= squares_material(facts, color, n) <= 20_000 * n,
    decreases n,
{
    if n > 0 {
        lemma_squares_material_bound(facts, color, n - 1);
    }
}

impl MaterialSumExt for BoardFacts {
    open spec fn spec_material_sum(&self) -> BoardMaterial {
        BoardMaterial {
            white: squares_material(*self, Color::White, 64) as u32,
            black: squares_material(*self, Color::Black, 64) as u32,
        }
    }

    open spec fn spec_material_sum_bitboard(&self) -> BoardMaterial {
        BoardMaterial {
            white: side_material(*self, Color::White) as u32,
            black: side_material(*self, Color::Black) as u32,
        }
    }

    fn material_sum(&self) -> (mat: BoardMaterial) {
        let mut mat = BoardMaterial { white: 0, black: 0 };
        let mut sq: u8 = 0;
        while sq < 64
            invariant
                sq <= 64,
                mat.white == squares_material(*self, Color::White, sq as int),
                mat.black == squares_material(*self, Color::Black, sq as int),
            decreases 64 - sq,
        {
            proof {
                lemma_squares_material_bound(*self, Color::White, sq as int);
                lemma_squares_material_bound(*self, Color::Black, sq as int);
            }
            if let Some((piece, color)) = self.get_piece(sq) {
                let value = piece_value(piece);
                match color {
                    Color::White => {
                        mat.white = mat.white + value;
                    },
                    Color::Black => {
                        mat.black = mat.black + value;
                    },
                }
            }
            sq += 1;
        }
        mat
    }

    fn material_sum_bitboard(&self) -> (mat: BoardMaterial) {
        BoardMaterial { white: side_sum(self, Color::White), black: side_sum(self, Color::Black) }
    }
}

/// Whether no square holds two pieces: the bitboards of the piece kinds share no square,
/// and neither do those of the two colours.
pub open spec fn one_piece_per_square(facts: BoardFacts) -> bool {
    &&& facts.pawns & facts.knights == 0
    &&& facts.pawns & facts.bishops == 0
    &&& facts.pawns & facts.rooks == 0
    &&& facts.pawns & facts.queens == 0
    &&& facts.pawns & facts.kings == 0
    &&& facts.knights & facts.bishops == 0
    &&& facts.knights & facts.rooks == 0
    &&& facts.knights & facts.queens == 0
    &&& facts.knights & facts.kings == 0
    &&& facts.bishops & facts.rooks == 0
    &&& facts.bishops & facts.queens == 0
    &&& facts.bishops & facts.kings == 0
    &&& facts.rooks & facts.queens == 0
    &&& facts.rooks & facts.kings == 0
    &&& facts.queens & facts.kings == 0
    &&& facts.white & facts.black == 0
}

/// Value of the pieces of one kind and colour on the squares below `n`.
pub open spec fn kind_material_below(facts: BoardFacts, kind: Piece, color: Color, n: int) -> int {
    bits_below(facts.spec_pieces(kind) & facts.spec_color_mask(color), n) * spec_piece_value(kind)
}

/// Value of all pieces of one colour on the squares below `n`, counted on the bitboards.
pub open spec fn side_material_below(facts: BoardFacts, color: Color, n: int) -> int {
    kind_material_below(facts, Piece::Pawn, color, n) + kind_material_below(
        facts,
        Piece::Knight,
        color,
        n,
    ) + kind_material_below(facts, Piece::Bishop, color, n) + kind_material_below(
        facts,
        Piece::Rook,
        color,
        n,
    ) + kind_material_below(facts, Piece::Queen, color, n) + kind_material_below(
        facts,
        Piece::King,
        color,
        n,
    )
}

proof fn lemma_square_holds_one(facts: BoardFacts, color: Color, sq: int)
    requires
        one_piece_per_square(facts),
        0 <= sq < 64,
    ensures
        forall|kind: Piece|
            has_bit(#[trigger] facts.spec_pieces(kind) & facts.spec_color_mask(color), sq)
                <==> facts.spec_get_piece(sq) == Some((kind, color)),
{
    lemma_common_bit(facts.pawns, facts.knights, sq);
    lemma_common_bit(facts.pawns, facts.bishops, sq);
    lemma_common_bit(facts.pawns, facts.rooks, sq);
    lemma_common_bit(facts.pawns, facts.queens, sq);
    lemma_common_bit(facts.pawns, facts.kings, sq);
    lemma_common_bit(facts.knights, facts.bishops, sq);
    lemma_common_bit(facts.knights, facts.rooks, sq);
    lemma_common_bit(facts.knights, facts.queens, sq);
    lemma_common_bit(facts.knights, facts.kings, sq);
    lemma_common_bit(facts.bishops, facts.rooks, sq);
    lemma_common_bit(facts.bishops, facts.queens, sq);
    lemma_common_bit(facts.bishops, facts.kings, sq);
    lemma_common_bit(facts.rooks, facts.queens, sq);
    lemma_common_bit(facts.rooks, facts.kings, sq);
    lemma_common_bit(facts.queens, facts.kings, sq);
    lemma_common_bit(facts.white, facts.black, sq);
    let mask = facts.spec_color_mask(color);
    lemma_common_bit(facts.pawns, mask, sq);
    lemma_common_bit(facts.knights, mask, sq);
    lemma_common_bit(facts.bishops, mask, sq);
    lemma_common_bit(facts.rooks, mask, sq);
    lemma_common_bit(facts.queens, mask, sq);
    lemma_common_bit(facts.kings, mask, sq);
}

proof fn lemma_material_below(facts: BoardFacts, color: Color, n: int)
    requires
        one_piece_per_square(facts),
        0 <= n <= 64,
    ensures
        squares_material(facts, color, n) == side_material_below(facts, color, n),
    decreases n,
{
    if n > 0 {
        lemma_material_below(facts, color, n - 1);
        lemma_square_holds_one(facts, color, n - 1);
    }
}

/// On a board with one piece per square at most, counting the material square by square
/// and counting it on the bitboards give the same sums.
pub proof fn lemma_material_counts_agree(facts: BoardFacts)
    requires
        one_piece_per_square(facts),
    ensures
        facts.spec_material_sum() == facts.spec_material_sum_bitboard(),
{
    lemma_material_below(facts, Color::White, 64);
    lemma_material_below(facts, Color::Black, 64);
    lemma_bit_count_counts_squares(facts.pawns & facts.white);
    lemma_bit_count_counts_squares(facts.knights & facts.white);
    lemma_bit_count_counts_squares(facts.bishops & facts.white);
    lemma_bit_count_counts_squares(facts.rooks & facts.white);
    lemma_bit_count_counts_squares(facts.queens & facts.white);
    lemma_bit_count_counts_squares(facts.kings & facts.white);
    lemma_bit_count_counts_squares(facts.pawns & facts.black);
    lemma_bit_count_counts_squares(facts.knights & facts.black);
    lemma_bit_count_counts_squares(facts.bishops & facts.black);
    lemma_bit_count_counts_squares(facts.rooks & facts.black);
    lemma_bit_count_counts_squares(facts.queens & facts.black);
    lemma_bit_count_counts_squares(facts.kings & facts.black);
}

} // verus!
