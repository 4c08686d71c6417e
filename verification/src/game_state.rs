//! What the engine remembers of a game besides the position.

use vstd::prelude::*;
use crate::board::BoardFacts;
use crate::game_phase::GamePhases;
use crate::material::BoardMaterial;
use crate::pieces::{Color, Move};

verus! {

/// The phase of the game, the move played last and the castling flags of both sides.
#[derive(Clone, Copy, Debug)]
pub struct GameState {
    pub game_phases: GamePhases,
    pub last_move: Option<Move>,
    pub has_black_castel: bool,
    pub has_white_castel: bool,
    pub black_castel_right: bool,
    pub white_castel_right: bool,
}

impl GameState {
    /// The state at the start of a game: the opening, no move played, no flag set.
    pub fn new() -> (s: Self)
        ensures
            s.game_phases == GamePhases::Opening,
            s.last_move.is_none(),
            !s.has_black_castel && !s.has_white_castel,
            !s.black_castel_right && !s.white_castel_right,
    {
        Self {
            game_phases: GamePhases::Opening,
            last_move: None,
            has_black_castel: false,
            has_white_castel: false,
            black_castel_right: false,
            white_castel_right: false,
        }
    }

    /// Keeps the state as it is: the last move changes none of the flags.
    pub fn update_from_last_move(&mut self)
        ensures
            *final(self) == *old(self),
    {
    }

    /// Whether the side of the given colour has castled.
    pub fn has_castel(&self, color: Color) -> (r: bool)
        ensures
            r == match color {
                Color::White => self.has_white_castel,
                Color::Black => self.has_black_castel,
            },
    {
        match color {
            Color::White => self.has_white_castel,
            Color::Black => self.has_black_castel,
        }
    }

    /// Whether the opponent of the given colour has castled.
    pub fn has_opp_castel(&self, color: Color) -> (r: bool)
        ensures
            r == match color {
                Color::Black => self.has_white_castel,
                Color::White => self.has_black_castel,
            },
    {
        match color {
            Color::Black => self.has_white_castel,
            Color::White => self.has_black_castel,
        }
    }

    /// Whether the side of the given colour may still castle.
    pub fn has_castel_right(&self, color: Color) -> (r: bool)
        ensures
            r == match color {
                Color::White => self.white_castel_right,
                Color::Black => self.black_castel_right,
            },
    {
        match color {
            Color::White => self.white_castel_right,
            Color::Black => self.black_castel_right,
        }
    }

    /// Whether the opponent of the given colour may still castle.
    pub fn has_opp_castel_right(&self, color: Color) -> (r: bool)
        ensures
            r == match color {
                Color::Black => self.white_castel_right,
                Color::White => self.black_castel_right,
            },
    {
        match color {
            Color::Black => self.white_castel_right,
            Color::White => self.black_castel_right,
        }
    }

    /// The phase of the game.
    pub fn game_phases(&self) -> (r: &GamePhases)
        ensures
            *r == self.game_phases,
    {
        &self.game_phases
    }

    /// The move played last.
    pub fn last_move(&self) -> (r: &Option<Move>)
        ensures
            *r == self.last_move,
    {
        &self.last_move
    }

    /// Leaves the opening; nothing else changes.
    pub fn set_gamephases_middlegame(&mut self)
        ensures
            *final(self) == (GameState {
                game_phases: old(self).game_phases.left_opening(),
                ..*old(self)
            }),
    {
        self.game_phases.set_middlegame()
    }

    /// Records the move played last; nothing else changes.
    pub fn set_lastmove(&mut self, mov: Move)
        ensures
            *final(self) == (GameState { last_move: Some(mov), ..*old(self) }),
    {
        self.last_move = Some(mov)
    }

    /// Moves the phase on when the material on the board calls for it; nothing else changes.
    pub fn update_game_phase(&mut self, board_materail: BoardMaterial, facts: &BoardFacts)
        ensures
            *final(self) == (GameState {
                game_phases: old(self).game_phases.updated(*facts),
                ..*old(self)
            }),
    {
        self.game_phases.update(board_materail, facts);
    }
}

} // verus!
