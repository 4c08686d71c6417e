//! The opening book: lines of moves read from game notation, kept in a prefix tree.

use vstd::prelude::*;
use vstd::string::{StrSliceExecFns, StringSliceAdditionalSpecFns};
use vstd::utf8::encode_utf8;
use crate::board::{board_after, board_moves_of, san_move, Position};
use crate::pieces::Move;
use crate::text::{
    bytes_as_chars, in_class, is_letter_byte, is_space_byte, lemma_skip_class, skip_class,
    string_of_bytes, texts, ByteClass,
};
use crate::trie::{mark_after_insert, printed, Node, Trie};

verus! {

/// Why no further pair of moves could be read.
#[derive(Clone, Copy, Debug, PartialEq, Eq, Structural)]
pub enum ParseError {
    /// The text is at its end.
    NoValidChar,
    /// The text goes on with something that starts neither a move nor a move number.
    InvalidMove,
}

/// A pair of moves as it stands in the text, and the place where reading goes on.
pub struct TokenPair {
    pub white: Seq<u8>,
    pub black: Seq<u8>,
    pub next: int,
}

/// What the reader finds at `pos`. It passes white space, digits and dots. At the end of
/// the text there is nothing more to read. A letter starts the first word of a pair; the
/// second word follows after white space and is empty where the text ends before it.
/// Reading goes on one byte after the second word. Anything else is an error.
pub open spec fn token_at(input: Seq<u8>, pos: int) -> Result<TokenPair, ParseError> {
    let start = skip_class(input, pos, ByteClass::Noise);
    if start >= input.len() {
        Err(ParseError::NoValidChar)
    } else if !is_letter_byte(input[start]) {
        Err(ParseError::InvalidMove)
    } else {
        let white_end = skip_class(input, start, ByteClass::Word);
        let black_start = skip_class(input, white_end, ByteClass::Space);
        let black_end = skip_class(input, black_start, ByteClass::Word);
        Ok(
            TokenPair {
                white: input.subrange(start, white_end),
                black: input.subrange(black_start, black_end),
                next: if black_end < input.len() {
                    black_end + 1
                } else {
                    input.len() as int
                },
            },
        )
    }
}

/// A reader of game notation: moves in pairs, with or without move numbers before them.
pub struct PgnParser {
    input: Vec<u8>,
    position: usize,
    read_position: usize,
    char: u8,
    eof: bool,
}

impl PgnParser {
    /// Whether the reader's view of the next byte fits its place in the text.
    pub closed spec fn wf(self) -> bool {
        &&& self.position <= self.input@.len()
        &&& self.position < self.input@.len() ==> self.char == self.input@[self.position as int]
            && self.read_position == self.position + 1 && !self.eof
        &&& self.position == self.input@.len() ==> self.char == 0 && self.read_position
            == self.position && self.eof
    }

    /// The text that is read.
    pub closed spec fn text(self) -> Seq<u8> {
        self.input@
    }

    /// The index of the byte that is read next; the length of the text at its end.
    pub closed spec fn cursor(self) -> int {
        self.position as int
    }

    /// A reader at the start of `input`.
    pub fn new(input: &str) -> (p: Self)
        ensures
            p.wf(),
            p.text() == input.spec_bytes(),
            p.cursor() == 0,
    {
        let input = input.as_bytes_vec();
        if input.len() == 0 {
            Self { input, position: 0, read_position: 0, char: 0, eof: true }
        } else {
            let first = input[0];
            Self { input, position: 0, read_position: 1, char: first, eof: false }
        }
    }

    /// Moves on by one byte. At the end of the text the reader stays where it is.
    pub fn read_char(&mut self)
        requires
            old(self).wf(),
        ensures
            final(self).wf(),
            final(self).text() == old(self).text(),
            final(self).cursor() == if old(self).cursor() < old(self).text().len() {
                old(self).cursor() + 1
            } else {
                old(self).cursor()
            },
    {
        if self.read_position >= self.input.len() {
            self.char = 0;
            self.eof = true;
            self.position = self.input.len();
            self.read_position = self.input.len();
        } else {
            self.char = self.input[self.read_position];
            self.position = self.read_position;
            self.read_position = self.read_position + 1;
        }
    }

    /// Whether the next byte is white space.
    fn at_space(&self) -> (r: bool)
        requires
            self.wf(),
        ensures
            r == (self.cursor() < self.text().len() && is_space_byte(
                self.text()[self.cursor()],
            )),
    {
        let c = self.char;
        (9 <= c && c <= 13) || c == 32 || c == 0x85 || c == 0xA0
    }

    /// Whether the reader is at the end of the text.
    pub fn at_end(&self) -> (r: bool)
        requires
            self.wf(),
        ensures
            r == (self.cursor() >= self.text().len()),
    {
        self.eof
    }

    /// Passes the white space before the next word.
    pub fn skip_whitespace(&mut self)
        requires
            old(self).wf(),
        ensures
            final(self).wf(),
            final(self).text() == old(self).text(),
            final(self).cursor() == skip_class(
                old(self).text(),
                old(self).cursor(),
                ByteClass::Space,
            ),
    {
        while self.at_space()
            invariant
                self.wf(),
                self.text() == old(self).text(),
                0 <= self.cursor() <= self.text().len(),
                skip_class(old(self).text(), old(self).cursor(), ByteClass::Space) == skip_class(
                    self.text(),
                    self.cursor(),
                    ByteClass::Space,
                ),
            decreases self.text().len() - self.cursor(),
        {
            self.read_char();
        }
    }

    /// Whether the next byte is a letter.
    pub fn is_letter(&self) -> (r: bool)
        requires
            self.wf(),
        ensures
            r == (self.cursor() < self.text().len() && is_letter_byte(
                self.text()[self.cursor()],
            )),
    {
        let c = self.char;
        (65 <= c && c <= 90) || (97 <= c && c <= 122) || c == 0xAA || c == 0xB5 || c == 0xBA || (
        0xC0 <= c && c <= 0xD6) || (0xD8 <= c && c <= 0xF6) || 0xF8 <= c
    }

    /// Whether the next byte is a digit, a dot or white space.
    fn at_noise(&self) -> (r: bool)
        requires
            self.wf(),
        ensures
            r == (self.cursor() < self.text().len() && in_class(
                self.text()[self.cursor()],
                ByteClass::Noise,
            )),
    {
        let c = self.char;
        self.at_space() || (48 <= c && c <= 57) || c == 46
    }

    fn read_word(&mut self) -> (word: Vec<u8>)
        requires
            old(self).wf(),
        ensures
            final(self).wf(),
            final(self).text() == old(self).text(),
            final(self).cursor() == skip_class(
                old(self).text(),
                skip_class(old(self).text(), old(self).cursor(), ByteClass::Space),
                ByteClass::Word,
            ),
            word@ == old(self).text().subrange(
                skip_class(old(self).text(), old(self).cursor(), ByteClass::Space),
                final(self).cursor(),
            ),
    {
        self.skip_whitespace();
        proof {
            lemma_skip_class(old(self).text(), old(self).cursor(), ByteClass::Space);
        }
        let ghost start = self.cursor();
        let mut word: Vec<u8> = Vec::new();
        while !self.at_end() && !self.at_space()
            invariant
                self.wf(),
                self.text() == old(self).text(),
                0 <= start <= self.cursor() <= self.text().len(),
                skip_class(self.text(), start, ByteClass::Word) == skip_class(
                    self.text(),
                    self.cursor(),
                    ByteClass::Word,
                ),
                word@ == self.text().subrange(start, self.cursor()),
            decreases self.text().len() - self.cursor(),
        {
            word.push(self.char);
            self.read_char();
        }
        word
    }

    /// Reads the next word: the bytes from the next one that is not white space up to the
    /// next white space or the end of the text.
    pub fn read_move(&mut self) -> (word: String)
        requires
            old(self).wf(),
        ensures
            final(self).wf(),
            final(self).text() == old(self).text(),
            final(self).cursor() == skip_class(
                old(self).text(),
                skip_class(old(self).text(), old(self).cursor(), ByteClass::Space),
                ByteClass::Word,
            ),
            word@ == bytes_as_chars(
                old(self).text().subrange(
                    skip_class(old(self).text(), old(self).cursor(), ByteClass::Space),
                    final(self).cursor(),
                ),
            ),
    {
        let word = self.read_word();
        string_of_bytes(&word)
    }

    /// Reads the next pair of moves.
    pub fn next_token(&mut self) -> (r: Result<(String, String), ParseError>)
        requires
            old(self).wf(),
        ensures
            final(self).wf(),
            final(self).text() == old(self).text(),
            match (r, token_at(old(self).text(), old(self).cursor())) {
                (Ok((white, black)), Ok(pair)) => white@ == bytes_as_chars(pair.white) && black@
                    == bytes_as_chars(pair.black) && final(self).cursor() == pair.next,
                (Err(e), Err(expected)) => e == expected,
                _ => false,
            },
    {
        while self.at_noise()
            invariant
                self.wf(),
                self.text() == old(self).text(),
                0 <= self.cursor() <= self.text().len(),
                skip_class(old(self).text(), old(self).cursor(), ByteClass::Noise) == skip_class(
                    self.text(),
                    self.cursor(),
                    ByteClass::Noise,
                ),
            decreases self.text().len() - self.cursor(),
        {
            self.read_char();
        }
        if self.at_end() {
            return Err(ParseError::NoValidChar);
        }
        if !self.is_letter() {
            return Err(ParseError::InvalidMove);
        }
        let ghost start = self.cursor();
        proof {
            lemma_skip_class(self.text(), start, ByteClass::Space);
            lemma_skip_class(self.text(), start, ByteClass::Word);
        }
        let left_move = self.read_move();
        let right_move = self.read_move();
        self.read_char();
        Ok((left_move, right_move))
    }
}

/// The moves that a notation text denotes from `pos` on, played from `position`. Each word
/// must denote a legal move in the position that the moves before it lead to; a text
/// with a word that does not, or with something that is no word, has no line.
pub open spec fn line_from(input: Seq<u8>, pos: int, position: Position) -> Option<Seq<Move>>
    decreases input.len() - pos,
{
    match token_at(input, pos) {
        Err(ParseError::NoValidChar) => Some(Seq::empty()),
        Err(ParseError::InvalidMove) => None,
        Ok(pair) => match san_move(position.board(), bytes_as_chars(pair.white)) {
            None => None,
            Some(white) => if pair.black.len() == 0 {
                Some(seq![white])
            } else {
                match san_move(position.after(white).board(), bytes_as_chars(pair.black)) {
                    None => None,
                    Some(black) => if 0 <= pos < pair.next <= input.len() {
                        match line_from(input, pair.next, position.after(white).after(black)) {
                            Some(rest) => Some(seq![white, black] + rest),
                            None => None,
                        }
                    } else {
                        None
                    },
                }
            },
        },
    }
}

/// A pair of moves ends after the place where reading started.
pub proof fn lemma_token_advances(input: Seq<u8>, pos: int)
    requires
        0 <= pos <= input.len(),
    ensures
        token_at(input, pos) matches Ok(pair) ==> pos < pair.next <= input.len() && pair.white.len()
            > 0,
{
    lemma_skip_class(input, pos, ByteClass::Noise);
    let start = skip_class(input, pos, ByteClass::Noise);
    if start < input.len() {
        lemma_skip_class(input, start, ByteClass::Word);
        let white_end = skip_class(input, start, ByteClass::Word);
        lemma_skip_class(input, white_end, ByteClass::Space);
        let black_start = skip_class(input, white_end, ByteClass::Space);
        lemma_skip_class(input, black_start, ByteClass::Word);
    }
}

/// The line of a text with the moves read before it put in front.
pub open spec fn line_after(read: Seq<Move>, rest: Option<Seq<Move>>) -> Option<Seq<Move>> {
    match rest {
        Some(r) => Some(read + r),
        None => None,
    }
}

/// The book of openings.
#[derive(Debug)]
pub struct OpeningDatabase {
    opening_lines: Trie,
}

impl Clone for OpeningDatabase {
    fn clone(&self) -> (r: Self)
        ensures
            r.tree().same_as(self.tree()),
    {
        Self { opening_lines: self.opening_lines.clone() }
    }
}

impl OpeningDatabase {
    /// The book below the place that the game has reached.
    pub closed spec fn tree(self) -> Node {
        self.opening_lines.tree()
    }

    /// Whether a line of the book ends at the place that the game has reached.
    pub fn is_end(&self) -> (r: bool)
        ensures
            r == self.tree().terminal(),
    {
        self.opening_lines.is_end()
    }

    /// A book without lines.
    pub fn new() -> (r: Self)
        ensures
            r.tree().entries().len() == 0,
            !r.tree().terminal(),
    {
        Self { opening_lines: Trie::default() }
    }

    /// Follows a move of the game into the book, if the book knows the move, and says
    /// whether it did.
    pub fn choose_opening_move(&mut self, chess_move: Move) -> (r: bool)
        ensures
            r == old(self).tree().child(chess_move).is_some(),
            final(self).tree() == match old(self).tree().child(chess_move) {
                Some(c) => c,
                None => old(self).tree(),
            },
    {
        self.opening_lines.change_root(chess_move)
    }

    /// Whether the book knows `chess_move` at the place that the game has reached.
    pub fn contains_child(&self, chess_move: Move) -> (r: bool)
        ensures
            r == self.tree().child(chess_move).is_some(),
    {
        self.opening_lines.child_exits(&chess_move)
    }

    /// Whether the book has nothing more to say: a line ends here, or no move goes on.
    pub fn is_exhausted(&self) -> (r: bool)
        ensures
            r == (self.tree().terminal() || self.tree().entries().len() == 0),
    {
        self.opening_lines.is_end() || self.opening_lines.is_leaf()
    }

    /// A move with which the book goes on: the one that was added first.
    pub fn suggest(&self) -> (r: Option<Move>)
        ensures
            r == if self.tree().entries().len() > 0 {
                Some(self.tree().entries()[0].0)
            } else {
                None::<Move>
            },
            r matches Some(m) ==> self.tree().child(m).is_some(),
    {
        self.opening_lines.first_key()
    }

    /// Adds the line of a game in notation, such as `1. e4 e5 2. Nf3`. A text that is not
    /// the notation of legal moves from the starting position leaves the book as it is.
    pub fn add_png(&mut self, pgn: String)
        ensures
            match line_from(encode_utf8(pgn@), 0, Position::spec_start()) {
                Some(line) => {
                    &&& forall|p: Seq<Move>| #[trigger]
                        final(self).tree().has_path(p) <==> old(self).tree().has_path(p)
                            || p.is_prefix_of(line)
                    &&& forall|p: Seq<Move>| #[trigger]
                        final(self).tree().ends_at(p) == mark_after_insert(
                            old(self).tree().ends_at(p),
                            line,
                            p,
                        )
                },
                None => final(self).tree() == old(self).tree(),
            },
    {
        let mut moves: Vec<Move> = Vec::new();
        let mut parser = PgnParser::new(pgn.as_str());
        let mut board = Position::start();
        let ghost text = parser.text();
        let ghost whole = line_from(text, 0, Position::spec_start());
        loop
            invariant_except_break
                whole == line_after(moves@, line_from(text, parser.cursor(), board)),
            invariant
                parser.wf(),
                parser.text() == text,
                text == encode_utf8(pgn@),
                whole == line_from(text, 0, Position::spec_start()),
                0 <= parser.cursor() <= text.len(),
                *self == *old(self),
            ensures
                whole == Some(moves@),
            decreases text.len() - parser.cursor(),
        {
            let ghost pos = parser.cursor();
            proof {
                lemma_token_advances(text, pos);
            }
            match parser.next_token() {
                Ok((white, black)) => {
                    let white_move = match board.find_san(white.as_str()) {
                        Some(m) => m,
                        None => {
                            return ;
                        },
                    };
                    board = board.make_move(white_move);
                    moves.push(white_move);
                    if black.as_str().unicode_len() == 0 {
                        break ;
                    }
                    let black_move = match board.find_san(black.as_str()) {
                        Some(m) => m,
                        None => {
                            return ;
                        },
                    };
                    board = board.make_move(black_move);
                    moves.push(black_move);
                },
                Err(ParseError::NoValidChar) => {
                    break ;
                },
                Err(ParseError::InvalidMove) => {
                    return ;
                },
            }
        }
        self.opening_lines.insert(moves.as_slice());
    }

    /// The lines of the printed book below the place that the game has reached.
    pub fn print(&self) -> (lines: Vec<String>)
        ensures
            texts(lines@) == printed(self.tree(), Seq::empty(), 0),
    {
        self.opening_lines.print()
    }

    /// The book below the place that the game has reached.
    pub fn root(&self) -> (r: &Node)
        ensures
            *r == self.tree(),
    {
        self.opening_lines.root()
    }
}

} // verus!
