//! The text protocol: one command per line, answered by lines of text.
//!
//! The loop that reads the commands and prints the answers is not here. It hands each line
//! to `UCI::handle_line` and prints what comes back.

use vstd::prelude::*;
use vstd::string::{StringExecFns, StringSliceAdditionalSpecFns};
use vstd::utf8::encode_utf8;
use crate::board::{uci_move, Position};
use crate::engine::Engine;
use crate::game_phase::GamePhases;
use crate::opening::OpeningDatabase;
use crate::pieces::Move;
use crate::text::{
    decimal, join_words, joined, parse_number, same_text, split_words, texts, words_of,
};

verus! {

/// Time for a move where the command names none, in milliseconds.
pub const DEFAULT_THINK_TIME_MS: u64 = 1000;

/// The longest time for a move that a command can ask for, in milliseconds.
pub const MAX_THINK_TIME_MS: u64 = 86_400_000;

/// Adds a number of milliseconds to `std::time::Instant::now`. The addition fails on a
/// time that the clock cannot represent, so the number is kept to a day at most.
#[verifier::external_body]
fn deadline_in(ms: u64) -> std::time::Instant
    requires
        ms <= MAX_THINK_TIME_MS,
{
    std::time::Instant::now() + std::time::Duration::from_millis(ms)
}

/// The commands of the protocol.
#[derive(Clone, Copy, Debug, PartialEq, Eq, Structural)]
pub enum CommandKind {
    Uci,
    IsReady,
    Position,
    NewGame,
    Go,
    Stop,
    Quit,
    Debug,
    Unknown,
}

/// The command that a word names.
pub open spec fn spec_command_kind(word: Seq<char>) -> CommandKind {
    if word == "uci"@ {
        CommandKind::Uci
    } else if word == "isready"@ {
        CommandKind::IsReady
    } else if word == "position"@ {
        CommandKind::Position
    } else if word == "ucinewgame"@ {
        CommandKind::NewGame
    } else if word == "go"@ {
        CommandKind::Go
    } else if word == "stop"@ {
        CommandKind::Stop
    } else if word == "quit"@ {
        CommandKind::Quit
    } else if word == "d"@ {
        CommandKind::Debug
    } else {
        CommandKind::Unknown
    }
}

/// The command that a word names.
pub fn command_kind(word: &str) -> (kind: CommandKind)
    ensures
        kind == spec_command_kind(word@),
{
    if same_text(word, "uci") {
        CommandKind::Uci
    } else if same_text(word, "isready") {
        CommandKind::IsReady
    } else if same_text(word, "position") {
        CommandKind::Position
    } else if same_text(word, "ucinewgame") {
        CommandKind::NewGame
    } else if same_text(word, "go") {
        CommandKind::Go
    } else if same_text(word, "stop") {
        CommandKind::Stop
    } else if same_text(word, "quit") {
        CommandKind::Quit
    } else if same_text(word, "d") {
        CommandKind::Debug
    } else {
        CommandKind::Unknown
    }
}

/// The first index at or after `from` of the word `moves`, or the number of words if it
/// does not occur.
pub open spec fn moves_keyword(words: Seq<Seq<char>>, from: int) -> int
    decreases words.len() - from,
{
    if from < 0 || from >= words.len() {
        words.len() as int
    } else if words[from] == "moves"@ {
        from
    } else {
        moves_keyword(words, from + 1)
    }
}

/// The index of the first word of a `position` command that may be a move.
pub open spec fn moves_start(words: Seq<Seq<char>>) -> int {
    if words.len() >= 2 && words[1] == "fen"@ {
        moves_keyword(words, 2)
    } else {
        2
    }
}

/// The position that a `position` command names: the starting position, or the position
/// of the FEN that stands before the word `moves`.
pub open spec fn position_named(words: Seq<Seq<char>>) -> Option<Position> {
    if words.len() < 2 {
        None
    } else if words[1] == "startpos"@ {
        Some(Position::spec_start())
    } else if words[1] == "fen"@ {
        Position::spec_from_fen(joined(words.subrange(2, moves_keyword(words, 2))))
    } else {
        None
    }
}

/// The position after each of `words` that is a legal move has been played in turn. A
/// word that is no move, or no legal one, is passed over.
pub open spec fn moves_applied(p: Position, words: Seq<Seq<char>>) -> Position
    decreases words.len(),
{
    if words.len() == 0 {
        p
    } else {
        let q = moves_applied(p, words.drop_last());
        match uci_move(words.last()) {
            Some(m) => if q.moves().contains(m) {
                q.after(m)
            } else {
                q
            },
            None => q,
        }
    }
}

/// The hashes of the positions that `moves_applied` goes through, the first position
/// included.
pub open spec fn hashes_applied(p: Position, words: Seq<Seq<char>>) -> Seq<u64>
    decreases words.len(),
{
    if words.len() == 0 {
        seq![p.spec_facts().hash]
    } else {
        let q = moves_applied(p, words.drop_last());
        let before = hashes_applied(p, words.drop_last());
        match uci_move(words.last()) {
            Some(m) => if q.moves().contains(m) {
                before.push(q.after(m).spec_facts().hash)
            } else {
                before
            },
            None => before,
        }
    }
}

/// The time for a move that a `go` command asks for: the number after `movetime`, a day
/// at most, and the default where the command names no time.
pub open spec fn think_time(words: Seq<Seq<char>>) -> int {
    if words.len() >= 3 && words[1] == "movetime"@ {
        match decimal(encode_utf8(words[2])) {
            Some(n) => if n <= MAX_THINK_TIME_MS {
                n
            } else {
                MAX_THINK_TIME_MS as int
            },
            None => DEFAULT_THINK_TIME_MS as int,
        }
    } else {
        DEFAULT_THINK_TIME_MS as int
    }
}

/// The line that announces a move.
pub open spec fn bestmove_line(m: Move) -> Seq<char> {
    "bestmove "@ + m.text()
}

/// What is answered to a line: the lines to print, the lines for the log, and whether
/// the loop ends.
pub struct Reply {
    pub lines: Vec<String>,
    pub log: Vec<String>,
    pub quit: bool,
}

/// The lines of the log after a line of the protocol: one for a `position` command that
/// names no position, none otherwise.
pub open spec fn logged(words: Seq<Seq<char>>) -> Seq<Seq<char>> {
    if words.len() > 0 && spec_command_kind(words[0]) == CommandKind::Position && position_named(
        words,
    ).is_none() {
        seq!["invalid position"@]
    } else {
        Seq::empty()
    }
}

/// The protocol's side of the engine: the engine itself, the time it was last given for
/// a move, and the book that every new game starts with.
pub struct UCI {
    engine: Engine,
    curr_think_time: u64,
    opening_db: OpeningDatabase,
}

impl UCI {
    /// The engine.
    pub closed spec fn spec_engine(&self) -> Engine {
        self.engine
    }

    /// The book that every new game starts with.
    pub closed spec fn book(&self) -> OpeningDatabase {
        self.opening_db
    }

    /// The time that the last `go` command gave for a move, in milliseconds.
    pub closed spec fn think_time_ms(&self) -> u64 {
        self.curr_think_time
    }

    /// A protocol handler with an engine at the start of a game and an empty book.
    pub fn new() -> (u: Self)
        ensures
            u.spec_engine().position() == Position::spec_start(),
            u.spec_engine().wf(),
            u.spec_engine().best().is_none(),
            u.spec_engine().past() == seq![Position::spec_start().spec_facts().hash],
            u.book().tree().entries().len() == 0,
    {
        Self { engine: Engine::new(), curr_think_time: 0, opening_db: OpeningDatabase::new() }
    }

    /// The engine.
    pub fn engine(&self) -> (e: &Engine)
        ensures
            *e == self.spec_engine(),
    {
        &self.engine
    }

    /// Gives the engine a book of openings and keeps a copy for the games to come.
    pub fn add_db(&mut self, opening_database: OpeningDatabase)
        ensures
            final(self).spec_engine().book() == opening_database,
            final(self).book().tree().same_as(opening_database.tree()),
            final(self).spec_engine().position() == old(self).spec_engine().position(),
            final(self).spec_engine().past() == old(self).spec_engine().past(),
            final(self).spec_engine().best() == old(self).spec_engine().best(),
            final(self).spec_engine().state() == old(self).spec_engine().state(),
    {
        self.opening_db = opening_database.clone();
        self.engine.add_opening_db(opening_database);
    }

    /// Answers `stop`: the line of the best move found so far, if there is one.
    fn handle_stop_command(&self) -> (line: Option<String>)
        ensures
            match (line, self.spec_engine().best()) {
                (Some(text), Some(m)) => text@ == bestmove_line(m),
                (None, None) => true,
                _ => false,
            },
    {
        match self.engine.get_best_mov() {
            Some(mov) => {
                let mut msg = String::from_str("bestmove ");
                msg.append(mov.to_uci().as_str());
                Some(msg)
            },
            None => None,
        }
    }

    /// Answers `ucinewgame`: a new engine at the start of a game, with a copy of the book.
    fn handle_ucinewgame_command(&mut self)
        ensures
            final(self).spec_engine().position() == Position::spec_start(),
            final(self).spec_engine().wf(),
            final(self).spec_engine().best().is_none(),
            final(self).spec_engine().past() == seq![Position::spec_start().spec_facts().hash],
            final(self).spec_engine().state().game_phases == GamePhases::Opening,
            final(self).spec_engine().state().last_move.is_none(),
            final(self).spec_engine().book().tree().same_as(old(self).book().tree()),
            final(self).book() == old(self).book(),
    {
        self.engine = Engine::new();
        self.engine.add_opening_db(self.opening_db.clone());
    }

    /// Whether `after` is the handler that a `position` command makes of `before`. A
    /// command that names no position changes nothing. Otherwise a new engine is set on
    /// the position named, with a copy of the book, and plays the moves of the command.
    pub open spec fn position_set(before: &UCI, after: &UCI, words: Seq<Seq<char>>) -> bool {
        match position_named(words) {
            None => *after == *before,
            Some(p) => {
                let moves = words.subrange(moves_start(words), words.len() as int);
                &&& after.spec_engine().position() == moves_applied(p, moves)
                &&& after.spec_engine().past() == hashes_applied(p, moves)
                &&& after.spec_engine().wf()
                &&& after.spec_engine().best().is_none()
                &&& after.spec_engine().state().game_phases == GamePhases::Opening
                &&& after.spec_engine().book().tree().same_as(before.book().tree())
                &&& after.book() == before.book()
            },
        }
    }

    /// Answers `position`, and says whether the command named a position.
    fn handle_position_command(&mut self, words: &Vec<String>) -> (named: bool)
        requires
            words@.len() >= 1,
        ensures
            UCI::position_set(old(self), final(self), texts(words@)),
            named == position_named(texts(words@)).is_some(),
    {
        let ghost all = texts(words@);
        if words.len() < 2 {
            return false;
        }
        assert(all[1] == words@[1]@);
        proof {
            reveal_strlit("startpos");
            reveal_strlit("fen");
        }
        let mut next: usize = 2;
        let engine = if same_text(words[1].as_str(), "startpos") {
            Engine::new()
        } else if same_text(words[1].as_str(), "fen") {
            while next < words.len() && !same_text(words[next].as_str(), "moves")
                invariant
                    2 <= next <= words@.len(),
                    all == texts(words@),
                    moves_keyword(all, 2) == moves_keyword(all, next as int),
                decreases words@.len() - next,
            {
                next += 1;
            }
            let fen = join_words(words, 2, next);
            match Engine::from_fen(fen.as_str()) {
                Ok(engine) => engine,
                Err(_) => {
                    return false;
                },
            }
        } else {
            return false;
        };
        let ghost base = engine.position();
        let ghost moves = all.subrange(next as int, all.len() as int);
        self.engine = engine;
        self.engine.add_opening_db(self.opening_db.clone());
        let mut i: usize = next;
        while i < words.len()
            invariant
                next <= i <= words@.len(),
                all == texts(words@),
                moves == all.subrange(next as int, all.len() as int),
                self.spec_engine().position() == moves_applied(base, moves.take(i - next)),
                self.spec_engine().past() == hashes_applied(base, moves.take(i - next)),
                self.spec_engine().wf(),
                self.spec_engine().best().is_none(),
                self.spec_engine().state().game_phases == GamePhases::Opening,
                self.spec_engine().book().tree().same_as(old(self).book().tree()),
                self.book() == old(self).book(),
            decreases words@.len() - i,
        {
            assert(moves.take(i + 1 - next).drop_last() =~= moves.take(i - next));
            match Move::from_uci(words[i].as_str()) {
                Some(mov) => {
                    self.engine.play_move(mov);
                },
                None => {},
            }
            i += 1;
        }
        assert(moves.take(words@.len() - next) =~= moves);
        true
    }

    /// Whether `after` is the handler that a `go` command makes of `before`, with `line`
    /// as its answer. The engine chooses a legal move, announces it and plays it. Only in
    /// a position without a legal move is there no answer.
    pub open spec fn move_made(before: &UCI, after: &UCI, line: Option<String>) -> bool {
        let p = before.spec_engine().position();
        match line {
            Some(text) => exists|m: Move|
                {
                    &&& #[trigger] p.moves().contains(m)
                    &&& text@ == bestmove_line(m)
                    &&& after.spec_engine().position() == p.after(m)
                    &&& after.spec_engine().past() == before.spec_engine().past().push(
                        p.after(m).spec_facts().hash,
                    )
                    &&& after.spec_engine().wf()
                },
            None => {
                &&& p.moves().len() == 0
                &&& after.spec_engine().position() == p
                &&& after.spec_engine().past() == before.spec_engine().past()
            },
        }
    }

    /// Answers `go`.
    fn handle_go_command(&mut self, words: &Vec<String>) -> (line: Option<String>)
        requires
            words@.len() >= 1,
        ensures
            UCI::move_made(old(self), final(self), line),
            final(self).think_time_ms() == think_time(texts(words@)),
            final(self).book() == old(self).book(),
    {
        let mut ms = DEFAULT_THINK_TIME_MS;
        if words.len() >= 3 {
            if same_text(words[1].as_str(), "movetime") {
                match parse_number(words[2].as_str()) {
                    Some(n) => {
                        ms = if n <= MAX_THINK_TIME_MS {
                            n
                        } else {
                            MAX_THINK_TIME_MS
                        };
                    },
                    None => {},
                }
            }
        }
        self.curr_think_time = ms;
        let deadline = deadline_in(ms);
        self.engine.search_iterative_deeping(deadline);
        match self.engine.get_best_mov() {
            Some(mov) => {
                let mut msg = String::from_str("bestmove ");
                msg.append(mov.to_uci().as_str());
                self.engine.play_best_move();
                Some(msg)
            },
            None => None,
        }
    }

    /// Answers one line of the protocol. `uci` and `isready` are answered by their fixed
    /// lines. `position` sets the engine up, `ucinewgame` starts a new game, `go` chooses
    /// and plays a move, `stop` names the best move found, `quit` ends the loop. Any
    /// other line is passed over.
    pub fn handle_line(&mut self, line: &str) -> (reply: Reply)
        ensures
            ({
                let words = words_of(line.spec_bytes());
                let kind = if words.len() == 0 {
                    CommandKind::Unknown
                } else {
                    spec_command_kind(words[0])
                };
                &&& reply.quit == (kind == CommandKind::Quit)
                &&& texts(reply.log@) == logged(words)
                &&& match kind {
                    CommandKind::Uci => texts(reply.lines@) == seq![
                        "id name NotSoBrightBot"@,
                        "id author Sahil"@,
                        "uciok"@,
                    ] && *final(self) == *old(self),
                    CommandKind::IsReady => texts(reply.lines@) == seq!["readyok"@] && *final(self)
                        == *old(self),
                    CommandKind::Position => reply.lines@.len() == 0 && UCI::position_set(
                        old(self),
                        final(self),
                        words,
                    ),
                    CommandKind::NewGame => reply.lines@.len() == 0 && final(self).spec_engine().position() == Position::spec_start() && final(self).spec_engine().past() == seq![Position::spec_start().spec_facts().hash]
                        && final(self).spec_engine().best().is_none() && final(self).spec_engine().book().tree().same_as(old(self).book().tree()),
                    CommandKind::Go => {
                        &&& reply.lines@.len() <= 1
                        &&& UCI::move_made(
                            old(self),
                            final(self),
                            if reply.lines@.len() == 1 {
                                Some(reply.lines@[0])
                            } else {
                                None
                            },
                        )
                        &&& final(self).think_time_ms() == think_time(words)
                    },
                    CommandKind::Stop => {
                        &&& *final(self) == *old(self)
                        &&& match old(self).spec_engine().best() {
                            Some(m) => texts(reply.lines@) == seq![bestmove_line(m)],
                            None => reply.lines@.len() == 0,
                        }
                    },
                    CommandKind::Quit | CommandKind::Debug | CommandKind::Unknown => reply.lines@.len()
                        == 0 && *final(self) == *old(self),
                }
            }),
    {
        let words = split_words(line);
        let mut lines: Vec<String> = Vec::new();
        let mut log: Vec<String> = Vec::new();
        if words.len() == 0 {
            return Reply { lines, log, quit: false };
        }
        match command_kind(words[0].as_str()) {
            CommandKind::Uci => {
                lines.push(String::from_str("id name NotSoBrightBot"));
                lines.push(String::from_str("id author Sahil"));
                lines.push(String::from_str("uciok"));
                Reply { lines, log, quit: false }
            },
            CommandKind::IsReady => {
                lines.push(String::from_str("readyok"));
                Reply { lines, log, quit: false }
            },
            CommandKind::Position => {
                if !self.handle_position_command(&words) {
                    log.push(String::from_str("invalid position"));
                }
                Reply { lines, log, quit: false }
            },
            CommandKind::NewGame => {
                self.handle_ucinewgame_command();
                Reply { lines, log, quit: false }
            },
            CommandKind::Go => {
                match self.handle_go_command(&words) {
                    Some(msg) => {
                        lines.push(msg);
                    },
                    None => {},
                }
                Reply { lines, log, quit: false }
            },
            CommandKind::Stop => {
                match self.handle_stop_command() {
                    Some(msg) => {
                        lines.push(msg);
                    },
                    None => {},
                }
                Reply { lines, log, quit: false }
            },
            CommandKind::Quit => Reply { lines, log, quit: true },
            CommandKind::Debug => Reply { lines, log, quit: false },
            CommandKind::Unknown => Reply { lines, log, quit: false },
        }
    }
}

impl Default for UCI {
    fn default() -> (u: Self)
        ensures
            u.spec_engine().position() == Position::spec_start(),
    {
        UCI::new()
    }
}

} // verus!
