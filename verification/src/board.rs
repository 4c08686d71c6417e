//! The board adapter: positions, their legal moves and the facts the engine reads from them.
//!
//! Move generation, move execution and position parsing are the work of the `chess` crate.
//! The functions marked `external_body` below call it; what they state of it is taken on
//! trust. Everything else in the engine reasons about positions through these statements.

use vstd::prelude::*;
use crate::bits::{bit_count, count_bits, has_bit, test_bit};
use crate::pieces::{BoardStatus, Color, Move, Piece};

verus! {

/// The board of the `chess` crate. Nothing is known of what is inside it: the functions
/// below ask the crate.
#[verifier::external_type_specification]
#[verifier::external_body]
pub struct ExBoard(chess::Board);

/// The description of a board that the `chess` crate reads from a FEN text, before it is
/// checked and set up.
#[verifier::external_type_specification]
#[verifier::external_body]
pub struct ExBoardBuilder(chess::BoardBuilder);

/// The standard starting position.
pub const START_FEN: &'static str = "rnbqkbnr/pppppppp/8/8/8/8/PPPPPPPP/RNBQKBNR w KQkq - 0 1";

/// Most pieces a side may have for its moves to be generated.
pub const MAX_PIECES_PER_SIDE: u32 = 16;

/// The board description that `chess::BoardBuilder::from_str` reads from a FEN text.
pub uninterp spec fn fen_builder(text: Seq<char>) -> Option<chess::BoardBuilder>;

/// What a board description holds on a square.
pub uninterp spec fn builder_piece_on(b: chess::BoardBuilder, sq: int) -> Option<(Piece, Color)>;

/// The side to move of a board description.
pub uninterp spec fn builder_side_of(b: chess::BoardBuilder) -> Color;

/// The board that `chess::Board::try_from` makes of a description, if it accepts it.
pub uninterp spec fn builder_board(b: chess::BoardBuilder) -> Option<chess::Board>;

/// The bitboard of all pieces of one kind on a board.
pub uninterp spec fn board_pieces_of(b: chess::Board, kind: Piece) -> u64;

/// The bitboard of all pieces of one colour on a board.
pub uninterp spec fn board_color_of(b: chess::Board, color: Color) -> u64;

/// The side to move on a board.
pub uninterp spec fn board_side_of(b: chess::Board) -> Color;

/// The 64-bit hash of a board.
pub uninterp spec fn board_hash_of(b: chess::Board) -> u64;

/// The bitboard of the pieces that give check to the side to move.
pub uninterp spec fn board_checkers_of(b: chess::Board) -> u64;

/// The legal moves of a board, in the order in which they are generated.
pub uninterp spec fn board_moves_of(b: chess::Board) -> Seq<Move>;

/// The board after a move.
pub uninterp spec fn board_after(b: chess::Board, m: Move) -> chess::Board;

/// The move that a text in standard algebraic notation denotes on a board.
pub uninterp spec fn san_move(b: chess::Board, text: Seq<char>) -> Option<Move>;

/// The square that a file letter and a rank digit name: `a1` is 0, `b1` is 1, `h8` is 63.
pub open spec fn square_named(file: char, rank: char) -> Option<u8> {
    if 97 <= file as u32 <= 104 && 49 <= rank as u32 <= 56 {
        Some(((rank as u32 - 49) * 8 + (file as u32 - 97)) as u8)
    } else {
        None
    }
}

/// The piece that a promotion letter names.
pub open spec fn promotion_named(letter: char) -> Option<Piece> {
    if letter == 'q' {
        Some(Piece::Queen)
    } else if letter == 'r' {
        Some(Piece::Rook)
    } else if letter == 'n' {
        Some(Piece::Knight)
    } else if letter == 'b' {
        Some(Piece::Bishop)
    } else {
        None
    }
}

/// The move that a text in coordinate notation denotes. The text starts with the names
/// of two squares. A text of exactly five bytes ends with the letter of the piece that a
/// pawn promotes to; what follows the squares in a text of any other length is not read.
pub open spec fn uci_move(text: Seq<char>) -> Option<Move> {
    if text.len() < 4 {
        None
    } else {
        match (square_named(text[0], text[1]), square_named(text[2], text[3])) {
            (Some(from), Some(to)) => if text.len() == 5 && (text[4] as u32) < 128 {
                match promotion_named(text[4]) {
                    Some(p) => Some(Move { from, to, promotion: Some(p) }),
                    None => None,
                }
            } else {
                Some(Move { from, to, promotion: None })
            },
            _ => None,
        }
    }
}

/// Whether neither side has more pieces than the move generator has room for.
pub open spec fn within_piece_limit(b: chess::Board) -> bool {
    &&& bit_count(board_color_of(b, Color::White)) <= MAX_PIECES_PER_SIDE
    &&& bit_count(board_color_of(b, Color::Black)) <= MAX_PIECES_PER_SIDE
}

/// Whether a board description has a king of the side to move.
pub open spec fn builder_has_king(b: chess::BoardBuilder) -> bool {
    exists|sq: int|
        0 <= sq < 64 && #[trigger] builder_piece_on(b, sq) == Some(
            (Piece::King, builder_side_of(b)),
        )
}

/// The board that a FEN text describes: the text must be readable, name a king for the
/// side to move and pass the sanity checks of `chess::Board::try_from`.
pub open spec fn fen_board(text: Seq<char>) -> Option<chess::Board> {
    match fen_builder(text) {
        Some(b) => if builder_has_king(b) {
            builder_board(b)
        } else {
            None
        },
        None => None,
    }
}

/// The status of a board with the given number of legal moves and the given checkers.
pub open spec fn status_from(moves: nat, checkers: u64) -> BoardStatus {
    if moves != 0 {
        BoardStatus::Ongoing
    } else if checkers == 0 {
        BoardStatus::Stalemate
    } else {
        BoardStatus::Checkmate
    }
}

/// Calls `chess::BoardBuilder::from_str`, which reads the first four fields of a FEN text
/// and fails on a text it cannot read.
#[verifier::external_body]
fn parse_builder(fen: &str) -> (r: Option<chess::BoardBuilder>)
    ensures
        r == fen_builder(fen@),
{
    <chess::BoardBuilder as std::str::FromStr>::from_str(fen).ok()
}

/// Reads one square of a board description through its `Index<Square>`.
#[verifier::external_body]
fn builder_piece(b: &chess::BoardBuilder, sq: u8) -> (r: Option<(Piece, Color)>)
    requires
        sq < 64,
    ensures
        r == builder_piece_on(*b, sq as int),
{
    b[chess::ALL_SQUARES[sq as usize]].map(|(p, c)| (
        match p {
            chess::Piece::Pawn => Piece::Pawn,
            chess::Piece::Knight => Piece::Knight,
            chess::Piece::Bishop => Piece::Bishop,
            chess::Piece::Rook => Piece::Rook,
            chess::Piece::Queen => Piece::Queen,
            chess::Piece::King => Piece::King,
        },
        match c {
            chess::Color::White => Color::White,
            chess::Color::Black => Color::Black,
        },
    ))
}

/// Calls `chess::BoardBuilder::get_side_to_move`.
#[verifier::external_body]
fn builder_side(b: &chess::BoardBuilder) -> (r: Color)
    ensures
        r == builder_side_of(*b),
{
    match b.get_side_to_move() {
        chess::Color::White => Color::White,
        chess::Color::Black => Color::Black,
    }
}

/// Calls `chess::Board::try_from`, which sets the pieces up and rejects a board that
/// fails its sanity checks. It looks for the king of the side to move before those
/// checks, so a description without one is not handed to it.
#[verifier::external_body]
fn build_board(b: &chess::BoardBuilder) -> (r: Option<chess::Board>)
    requires
        builder_has_king(*b),
    ensures
        r == builder_board(*b),
{
    <chess::Board as std::convert::TryFrom<&chess::BoardBuilder>>::try_from(b).ok()
}

/// Calls `chess::Board::default`, the starting position: the board that `START_FEN`
/// describes, on which each side has sixteen pieces.
#[verifier::external_body]
fn board_default() -> (r: chess::Board)
    ensures
        Some(r) == fen_board(START_FEN@),
        bit_count(board_color_of(r, Color::White)) == 16,
        bit_count(board_color_of(r, Color::Black)) == 16,
{
    chess::Board::default()
}

/// Calls `chess::Board::pieces`.
#[verifier::external_body]
fn board_pieces(b: &chess::Board, kind: Piece) -> (r: u64)
    ensures
        r == board_pieces_of(*b, kind),
{
    let piece = match kind {
        Piece::Pawn => chess::Piece::Pawn,
        Piece::Knight => chess::Piece::Knight,
        Piece::Bishop => chess::Piece::Bishop,
        Piece::Rook => chess::Piece::Rook,
        Piece::Queen => chess::Piece::Queen,
        Piece::King => chess::Piece::King,
    };
    b.pieces(piece).0
}

/// Calls `chess::Board::color_combined`.
#[verifier::external_body]
fn board_color(b: &chess::Board, color: Color) -> (r: u64)
    ensures
        r == board_color_of(*b, color),
{
    let side = match color {
        Color::White => chess::Color::White,
        Color::Black => chess::Color::Black,
    };
    b.color_combined(side).0
}

/// Calls `chess::Board::side_to_move`.
#[verifier::external_body]
fn board_side(b: &chess::Board) -> (r: Color)
    ensures
        r == board_side_of(*b),
{
    match b.side_to_move() {
        chess::Color::White => Color::White,
        chess::Color::Black => Color::Black,
    }
}

/// Calls `chess::Board::get_hash`. The hash is computed from the board and from tables
/// that the crate generates from a fixed seed when it is built.
#[verifier::external_body]
fn board_hash(b: &chess::Board) -> (r: u64)
    ensures
        r == board_hash_of(*b),
{
    b.get_hash()
}

/// Calls `chess::Board::checkers`.
#[verifier::external_body]
fn board_checkers(b: &chess::Board) -> (r: u64)
    ensures
        r == board_checkers_of(*b),
{
    b.checkers().0
}

/// Calls `chess::Board::status`, which counts the legal moves: a board with a legal move
/// is ongoing, one without is checkmate if the side to move is in check and stalemate if
/// it is not.
#[verifier::external_body]
fn board_status(b: &chess::Board) -> (r: BoardStatus)
    requires
        within_piece_limit(*b),
    ensures
        r == status_from(board_moves_of(*b).len(), board_checkers_of(*b)),
{
    match b.status() {
        chess::BoardStatus::Ongoing => BoardStatus::Ongoing,
        chess::BoardStatus::Stalemate => BoardStatus::Stalemate,
        chess::BoardStatus::Checkmate => BoardStatus::Checkmate,
    }
}

/// Collects `chess::MoveGen::new_legal`, which yields each legal move once. The generator
/// keeps one entry per moving piece in a list with room for the pieces of a regular game.
#[verifier::external_body]
fn board_moves(b: &chess::Board) -> (r: Vec<Move>)
    requires
        within_piece_limit(*b),
    ensures
        r@ == board_moves_of(*b),
{
    chess::MoveGen::new_legal(b).map(|m| Move {
        from: m.get_source().to_int(),
        to: m.get_dest().to_int(),
        promotion: m.get_promotion().map(|p| match p {
            chess::Piece::Pawn => Piece::Pawn,
            chess::Piece::Knight => Piece::Knight,
            chess::Piece::Bishop => Piece::Bishop,
            chess::Piece::Rook => Piece::Rook,
            chess::Piece::Queen => Piece::Queen,
            chess::Piece::King => Piece::King,
        }),
    }).collect()
}

/// Calls `chess::Board::make_move_new`, which is meant for legal moves only. A legal move
/// moves one piece of the side to move and may take one piece of the other side off the
/// board, so no side has more pieces after it than before.
#[verifier::external_body]
fn board_make_move(b: &chess::Board, m: Move) -> (r: chess::Board)
    requires
        within_piece_limit(*b),
        board_moves_of(*b).contains(m),
    ensures
        r == board_after(*b, m),
        bit_count(board_color_of(r, Color::White)) <= bit_count(board_color_of(*b, Color::White)),
        bit_count(board_color_of(r, Color::Black)) <= bit_count(board_color_of(*b, Color::Black)),
{
    let promotion = m.promotion.map(|p| match p {
        Piece::Pawn => chess::Piece::Pawn,
        Piece::Knight => chess::Piece::Knight,
        Piece::Bishop => chess::Piece::Bishop,
        Piece::Rook => chess::Piece::Rook,
        Piece::Queen => chess::Piece::Queen,
        Piece::King => chess::Piece::King,
    });
    let from = chess::ALL_SQUARES[m.from as usize];
    let to = chess::ALL_SQUARES[m.to as usize];
    b.make_move_new(chess::ChessMove::new(from, to, promotion))
}

/// Calls `chess::ChessMove::from_san`, which looks among the legal moves of the board for
/// the one that the text denotes.
#[verifier::external_body]
fn board_san(b: &chess::Board, san: &str) -> (r: Option<Move>)
    requires
        within_piece_limit(*b),
    ensures
        r == san_move(*b, san@),
        r matches Some(m) ==> board_moves_of(*b).contains(m),
{
    chess::ChessMove::from_san(b, san).ok().map(|m| Move {
        from: m.get_source().to_int(),
        to: m.get_dest().to_int(),
        promotion: m.get_promotion().map(|p| match p {
            chess::Piece::Pawn => Piece::Pawn,
            chess::Piece::Knight => Piece::Knight,
            chess::Piece::Bishop => Piece::Bishop,
            chess::Piece::Rook => Piece::Rook,
            chess::Piece::Queen => Piece::Queen,
            chess::Piece::King => Piece::King,
        }),
    })
}

/// Calls `chess::ChessMove::from_str`. It reads a square from the first two bytes and one
/// from the next two, each a letter from `a` to `h` and a digit from `1` to `8`. Where the
/// text has five bytes, the last must be one of `q`, `r`, `n`, `b`. It fails on any other
/// text, but does not look at what follows the squares in a text of another length.
#[verifier::external_body]
fn parse_move(text: &str) -> (r: Option<Move>)
    ensures
        r == uci_move(text@),
{
    <chess::ChessMove as std::str::FromStr>::from_str(text).ok().map(|m| Move {
        from: m.get_source().to_int(),
        to: m.get_dest().to_int(),
        promotion: m.get_promotion().map(|p| match p {
            chess::Piece::Pawn => Piece::Pawn,
            chess::Piece::Knight => Piece::Knight,
            chess::Piece::Bishop => Piece::Bishop,
            chess::Piece::Rook => Piece::Rook,
            chess::Piece::Queen => Piece::Queen,
            chess::Piece::King => Piece::King,
        }),
    })
}

/// What the engine reads from a position: one bitboard per piece kind and per colour, the
/// side to move, the pieces that give check, the status and the hash.
#[derive(Clone, Copy, Debug, PartialEq, Eq, Structural)]
pub struct BoardFacts {
    pub pawns: u64,
    pub knights: u64,
    pub bishops: u64,
    pub rooks: u64,
    pub queens: u64,
    pub kings: u64,
    pub white: u64,
    pub black: u64,
    pub side_to_move: Color,
    pub checkers: u64,
    pub status: BoardStatus,
    pub hash: u64,
}

/// The facts of a board, as the `chess` crate reports them.
pub open spec fn facts_of(b: chess::Board) -> BoardFacts {
    BoardFacts {
        pawns: board_pieces_of(b, Piece::Pawn),
        knights: board_pieces_of(b, Piece::Knight),
        bishops: board_pieces_of(b, Piece::Bishop),
        rooks: board_pieces_of(b, Piece::Rook),
        queens: board_pieces_of(b, Piece::Queen),
        kings: board_pieces_of(b, Piece::King),
        white: board_color_of(b, Color::White),
        black: board_color_of(b, Color::Black),
        side_to_move: board_side_of(b),
        checkers: board_checkers_of(b),
        status: status_from(board_moves_of(b).len(), board_checkers_of(b)),
        hash: board_hash_of(b),
    }
}

impl BoardFacts {
    /// The bitboard of all pieces of one kind.
    pub open spec fn spec_pieces(&self, kind: Piece) -> u64 {
        match kind {
            Piece::Pawn => self.pawns,
            Piece::Knight => self.knights,
            Piece::Bishop => self.bishops,
            Piece::Rook => self.rooks,
            Piece::Queen => self.queens,
            Piece::King => self.kings,
        }
    }

    /// The bitboard of all pieces of one kind.
    #[verifier::when_used_as_spec(spec_pieces)]
    pub fn pieces(&self, kind: Piece) -> (r: u64)
        ensures
            r == self.spec_pieces(kind),
    {
        match kind {
            Piece::Pawn => self.pawns,
            Piece::Knight => self.knights,
            Piece::Bishop => self.bishops,
            Piece::Rook => self.rooks,
            Piece::Queen => self.queens,
            Piece::King => self.kings,
        }
    }

    /// The bitboard of all pieces of one colour.
    pub open spec fn spec_color_mask(&self, color: Color) -> u64 {
        match color {
            Color::White => self.white,
            Color::Black => self.black,
        }
    }

    /// The bitboard of all pieces of one colour.
    #[verifier::when_used_as_spec(spec_color_mask)]
    pub fn color_mask(&self, color: Color) -> (r: u64)
        ensures
            r == self.spec_color_mask(color),
    {
        match color {
            Color::White => self.white,
            Color::Black => self.black,
        }
    }

    /// Whether the side to move is in check.
    pub open spec fn spec_in_check(&self) -> bool {
        self.checkers != 0
    }

    /// Whether the side to move is in check.
    #[verifier::when_used_as_spec(spec_in_check)]
    pub fn in_check(&self) -> (r: bool)
        ensures
            r == self.spec_in_check(),
    {
        self.checkers != 0
    }

    /// The kind of the piece on a square: the first kind, from pawn to king, whose bitboard
    /// holds the square.
    pub open spec fn spec_piece_on(self, sq: int) -> Option<Piece> {
        if has_bit(self.pawns, sq) {
            Some(Piece::Pawn)
        } else if has_bit(self.knights, sq) {
            Some(Piece::Knight)
        } else if has_bit(self.bishops, sq) {
            Some(Piece::Bishop)
        } else if has_bit(self.rooks, sq) {
            Some(Piece::Rook)
        } else if has_bit(self.queens, sq) {
            Some(Piece::Queen)
        } else if has_bit(self.kings, sq) {
            Some(Piece::King)
        } else {
            None
        }
    }

    /// The kind of the piece on a square.
    pub fn piece_on(&self, sq: u8) -> (r: Option<Piece>)
        ensures
            r == self.spec_piece_on(sq as int),
    {
        if test_bit(self.pawns, sq) {
            Some(Piece::Pawn)
        } else if test_bit(self.knights, sq) {
            Some(Piece::Knight)
        } else if test_bit(self.bishops, sq) {
            Some(Piece::Bishop)
        } else if test_bit(self.rooks, sq) {
            Some(Piece::Rook)
        } else if test_bit(self.queens, sq) {
            Some(Piece::Queen)
        } else if test_bit(self.kings, sq) {
            Some(Piece::King)
        } else {
            None
        }
    }

    /// The colour of the piece on a square.
    pub open spec fn spec_color_on(self, sq: int) -> Option<Color> {
        if has_bit(self.white, sq) {
            Some(Color::White)
        } else if has_bit(self.black, sq) {
            Some(Color::Black)
        } else {
            None
        }
    }

    /// The colour of the piece on a square.
    pub fn color_on(&self, sq: u8) -> (r: Option<Color>)
        ensures
            r == self.spec_color_on(sq as int),
    {
        if test_bit(self.white, sq) {
            Some(Color::White)
        } else if test_bit(self.black, sq) {
            Some(Color::Black)
        } else {
            None
        }
    }

    /// The piece on a square with its colour, where the square has both.
    pub open spec fn spec_get_piece(self, sq: int) -> Option<(Piece, Color)> {
        match (self.spec_piece_on(sq), self.spec_color_on(sq)) {
            (Some(p), Some(c)) => Some((p, c)),
            _ => None,
        }
    }

    /// The piece on a square with its colour, where the square has both.
    pub fn get_piece(&self, sq: u8) -> (r: Option<(Piece, Color)>)
        ensures
            r == self.spec_get_piece(sq as int),
    {
        match (self.piece_on(sq), self.color_on(sq)) {
            (Some(p), Some(c)) => Some((p, c)),
            _ => None,
        }
    }
}

/// Bitboards of one piece kind by colour.
pub trait PieceFromColor {
    spec fn spec_pieces_white(&self, piece: Piece) -> u64;

    spec fn spec_pieces_black(&self, piece: Piece) -> u64;

    fn pieces_white(&self, piece: Piece) -> (r: u64)
        ensures
            r == self.spec_pieces_white(piece),
    ;

    fn pieces_black(&self, piece: Piece) -> (r: u64)
        ensures
            r == self.spec_pieces_black(piece),
    ;

    fn pieces_color(&self, piece: Piece, color: Color) -> (r: u64)
        ensures
            r == match color {
                Color::White => self.spec_pieces_white(piece),
                Color::Black => self.spec_pieces_black(piece),
            },
    {
        match color {
            Color::White => self.pieces_white(piece),
            Color::Black => self.pieces_black(piece),
        }
    }
}

impl PieceFromColor for BoardFacts {
    open spec fn spec_pieces_white(&self, piece: Piece) -> u64 {
        self.spec_pieces(piece) & self.white
    }

    open spec fn spec_pieces_black(&self, piece: Piece) -> u64 {
        self.spec_pieces(piece) & self.black
    }

    fn pieces_white(&self, piece: Piece) -> (r: u64) {
        self.pieces(piece) & self.white
    }

    fn pieces_black(&self, piece: Piece) -> (r: u64) {
        self.pieces(piece) & self.black
    }
}

/// A chess position: the board that the `chess` crate plays on, with what was read from
/// it when the position was made. The status of the position is asked for when it is
/// needed, since it takes a round of move generation to know it.
#[derive(Clone, Copy, Debug)]
pub struct Position {
    board: chess::Board,
    seen: BoardFacts,
}

impl Position {
    #[verifier::type_invariant]
    spec fn inv(self) -> bool {
        &&& self.seen == (BoardFacts { status: BoardStatus::Ongoing, ..facts_of(self.board) })
        &&& within_piece_limit(self.board)
    }

    /// The board of the position.
    pub closed spec fn board(self) -> chess::Board {
        self.board
    }

    /// The position of a board.
    pub closed spec fn of(board: chess::Board) -> Position {
        Position { board, seen: BoardFacts { status: BoardStatus::Ongoing, ..facts_of(board) } }
    }

    /// The facts of the position.
    pub open spec fn spec_facts(self) -> BoardFacts {
        facts_of(self.board())
    }

    /// The legal moves of the position, in the order in which they are generated.
    pub open spec fn moves(self) -> Seq<Move> {
        board_moves_of(self.board())
    }

    /// The position after a move.
    pub open spec fn after(self, m: Move) -> Position {
        Position::of(board_after(self.board(), m))
    }

    /// The position that a FEN text describes, where it describes one that can be played:
    /// the text is readable, the board passes the sanity checks and no side has more than
    /// `MAX_PIECES_PER_SIDE` pieces.
    pub open spec fn spec_from_fen(text: Seq<char>) -> Option<Position> {
        match fen_board(text) {
            Some(b) => if within_piece_limit(b) {
                Some(Position::of(b))
            } else {
                None
            },
            None => None,
        }
    }

    /// The starting position of a game.
    pub open spec fn spec_start() -> Position {
        Position::spec_from_fen(START_FEN@).unwrap()
    }

    /// The board of a position after a move is the board after the move.
    pub proof fn lemma_board_after(p: Position, m: Move)
        ensures
            p.after(m).board() == board_after(p.board(), m),
            p.after(m).moves() == board_moves_of(board_after(p.board(), m)),
            p.after(m).spec_facts() == facts_of(board_after(p.board(), m)),
    {
    }

    fn snapshot(board: chess::Board) -> (p: Position)
        requires
            within_piece_limit(board),
        ensures
            p == Position::of(board),
    {
        let seen = BoardFacts {
            pawns: board_pieces(&board, Piece::Pawn),
            knights: board_pieces(&board, Piece::Knight),
            bishops: board_pieces(&board, Piece::Bishop),
            rooks: board_pieces(&board, Piece::Rook),
            queens: board_pieces(&board, Piece::Queen),
            kings: board_pieces(&board, Piece::King),
            white: board_color(&board, Color::White),
            black: board_color(&board, Color::Black),
            side_to_move: board_side(&board),
            checkers: board_checkers(&board),
            status: BoardStatus::Ongoing,
            hash: board_hash(&board),
        };
        Position { board, seen }
    }

    fn checked(board: chess::Board) -> (r: Option<Position>)
        ensures
            r == if within_piece_limit(board) {
                Some(Position::of(board))
            } else {
                None::<Position>
            },
    {
        let white = board_color(&board, Color::White);
        let black = board_color(&board, Color::Black);
        if count_bits(white) <= MAX_PIECES_PER_SIDE && count_bits(black) <= MAX_PIECES_PER_SIDE {
            Some(Position::snapshot(board))
        } else {
            None
        }
    }

    /// Reads a position from a FEN text. `None` where the text does not describe a position
    /// that can be played.
    pub fn from_fen(fen: &str) -> (r: Option<Position>)
        ensures
            r == Position::spec_from_fen(fen@),
    {
        let builder = match parse_builder(fen) {
            Some(b) => b,
            None => {
                return None;
            },
        };
        let side = builder_side(&builder);
        let mut found = false;
        let mut sq: u8 = 0;
        while sq < 64 && !found
            invariant
                sq <= 64,
                side == builder_side_of(builder),
                found ==> builder_has_king(builder),
                !found ==> forall|i: int|
                    0 <= i < sq ==> #[trigger] builder_piece_on(builder, i) != Some(
                        (Piece::King, side),
                    ),
            decreases 64 - sq + if found { 0int } else { 1int },
        {
            match builder_piece(&builder, sq) {
                Some((Piece::King, c)) => {
                    if c == side {
                        found = true;
                    }
                },
                _ => {},
            }
            if !found {
                sq += 1;
            }
        }
        if !found {
            return None;
        }
        match build_board(&builder) {
            Some(board) => Position::checked(board),
            None => None,
        }
    }

    /// The starting position of a game.
    pub fn start() -> (p: Position)
        ensures
            Some(p) == Position::spec_from_fen(START_FEN@),
            p == Position::spec_start(),
    {
        Position::snapshot(board_default())
    }

    /// The facts of the position.
    pub fn facts(&self) -> (f: BoardFacts)
        ensures
            f == self.spec_facts(),
    {
        proof {
            use_type_invariant(self);
        }
        BoardFacts { status: board_status(&self.board), ..self.seen }
    }

    /// Whether the game goes on in the position, and how it ended if it does not.
    pub fn status(&self) -> (r: BoardStatus)
        ensures
            r == self.spec_facts().status,
            r == BoardStatus::Ongoing <==> self.moves().len() > 0,
    {
        proof {
            use_type_invariant(self);
        }
        board_status(&self.board)
    }

    /// Whether the side to move is in check.
    pub fn in_check(&self) -> (r: bool)
        ensures
            r == self.spec_facts().spec_in_check(),
    {
        proof {
            use_type_invariant(self);
        }
        self.seen.in_check()
    }

    /// Whether a piece stands on a square.
    pub fn is_occupied(&self, sq: u8) -> (r: bool)
        ensures
            r == self.spec_facts().spec_piece_on(sq as int).is_some(),
    {
        proof {
            use_type_invariant(self);
        }
        self.seen.piece_on(sq).is_some()
    }

    /// The side to move.
    pub fn side_to_move(&self) -> (r: Color)
        ensures
            r == self.spec_facts().side_to_move,
    {
        proof {
            use_type_invariant(self);
        }
        self.seen.side_to_move
    }

    /// The hash of the position.
    pub fn hash(&self) -> (r: u64)
        ensures
            r == self.spec_facts().hash,
    {
        proof {
            use_type_invariant(self);
        }
        self.seen.hash
    }

    /// The legal moves of the position.
    pub fn legal_moves(&self) -> (moves: Vec<Move>)
        ensures
            moves@ == self.moves(),
    {
        proof {
            use_type_invariant(self);
        }
        board_moves(&self.board)
    }

    /// The position after a legal move.
    pub fn make_move(&self, m: Move) -> (p: Position)
        requires
            self.moves().contains(m),
        ensures
            p == self.after(m),
    {
        proof {
            use_type_invariant(self);
        }
        Position::snapshot(board_make_move(&self.board, m))
    }

    /// The move that a text in standard algebraic notation denotes in the position, if it
    /// denotes a legal one.
    pub fn find_san(&self, san: &str) -> (r: Option<Move>)
        ensures
            r == san_move(self.board(), san@),
            r matches Some(m) ==> self.moves().contains(m),
    {
        proof {
            use_type_invariant(self);
        }
        board_san(&self.board, san)
    }
}

/// Whether `m` occurs in `moves`.
pub fn contains_move(moves: &Vec<Move>, m: Move) -> (r: bool)
    ensures
        r == moves@.contains(m),
{
    let mut i: usize = 0;
    while i < moves.len()
        invariant
            i <= moves.len(),
            forall|j: int| 0 <= j < i ==> moves@[j] != m,
        decreases moves.len() - i,
    {
        if moves[i] == m {
            return true;
        }
        i += 1;
    }
    false
}

impl Position {
    /// The position after `m`, where `m` is a legal move; `None` where it is not.
    pub fn try_move(&self, m: Move) -> (r: Option<Position>)
        ensures
            r == if self.moves().contains(m) {
                Some(self.after(m))
            } else {
                None::<Position>
            },
    {
        let moves = self.legal_moves();
        if contains_move(&moves, m) {
            Some(self.make_move(m))
        } else {
            None
        }
    }
}

impl Move {
    /// Reads a move in coordinate notation, such as `e2e4` or `e7e8q`.
    pub fn from_uci(text: &str) -> (r: Option<Move>)
        ensures
            r == uci_move(text@),
    {
        parse_move(text)
    }
}

} // verus!
