//! The plain vocabulary of the engine: colours, piece kinds, moves and square indices.

use vstd::prelude::*;
use crate::text::{bytes_as_chars, string_of_bytes};

verus! {

/// The two sides of a game.
#[derive(Clone, Copy, Debug, PartialEq, Eq, Structural)]
pub enum Color {
    White,
    Black,
}

impl Color {
    /// The other side.
    pub open spec fn spec_opposite(self) -> Color {
        match self {
            Color::White => Color::Black,
            Color::Black => Color::White,
        }
    }

    /// The other side.
    #[verifier::when_used_as_spec(spec_opposite)]
    pub fn opposite(self) -> (c: Color)
        ensures
            c == self.spec_opposite(),
    {
        match self {
            Color::White => Color::Black,
            Color::Black => Color::White,
        }
    }
}

/// The six kinds of chess piece.
#[derive(Clone, Copy, Debug, PartialEq, Eq, Structural)]
pub enum Piece {
    Pawn,
    Knight,
    Bishop,
    Rook,
    Queen,
    King,
}

/// Whether a position still has moves to play, and if not, how it ended.
#[derive(Clone, Copy, Debug, PartialEq, Eq, Structural)]
pub enum BoardStatus {
    Ongoing,
    Stalemate,
    Checkmate,
}

/// A move in coordinates: squares are numbered 0..64 with a1 = 0, b1 = 1, ..., h8 = 63.
#[derive(Clone, Copy, Debug, PartialEq, Eq, Structural)]
pub struct Move {
    pub from: u8,
    pub to: u8,
    pub promotion: Option<Piece>,
}

/// File (column) of a square, 0 for the a-file.
pub open spec fn file_of(sq: int) -> int {
    sq % 8
}

/// Rank (row) of a square, 0 for the first rank.
pub open spec fn rank_of(sq: int) -> int {
    sq / 8
}

/// The byte of the lower-case letter of a piece kind.
pub open spec fn piece_letter(p: Piece) -> u8 {
    match p {
        Piece::Pawn => 112,
        Piece::Knight => 110,
        Piece::Bishop => 98,
        Piece::Rook => 114,
        Piece::Queen => 113,
        Piece::King => 107,
    }
}

/// The name of a square in bytes: the letter of its file, from `a`, and the digit of its
/// rank, from `1`.
pub open spec fn square_name(sq: int) -> Seq<u8> {
    seq![(97 + file_of(sq)) as u8, (49 + rank_of(sq)) as u8]
}

impl Move {
    /// The move in coordinate notation, in bytes: the names of its two squares and, for a
    /// promotion, the letter of the piece.
    pub open spec fn text_bytes(self) -> Seq<u8> {
        square_name(self.from as int) + square_name(self.to as int) + match self.promotion {
            Some(p) => seq![piece_letter(p)],
            None => Seq::<u8>::empty(),
        }
    }

    /// The move in coordinate notation, such as `e2e4` or `e7e8q`.
    pub open spec fn text(self) -> Seq<char> {
        bytes_as_chars(self.text_bytes())
    }

    /// The move in coordinate notation.
    pub fn to_uci(&self) -> (s: String)
        ensures
            s@ == self.text(),
    {
        let mut bytes: Vec<u8> = Vec::new();
        bytes.push(97 + self.from % 8);
        bytes.push(49 + self.from / 8);
        bytes.push(97 + self.to % 8);
        bytes.push(49 + self.to / 8);
        match self.promotion {
            Some(p) => {
                let letter: u8 = match p {
                    Piece::Pawn => 112,
                    Piece::Knight => 110,
                    Piece::Bishop => 98,
                    Piece::Rook => 114,
                    Piece::Queen => 113,
                    Piece::King => 107,
                };
                bytes.push(letter);
            },
            None => {},
        }
        string_of_bytes(&bytes)
    }
}

} // verus!
