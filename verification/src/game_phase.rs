//! The phase of a game: opening, middlegame or endgame.

use vstd::prelude::*;
use crate::bits::{bit_count, count_bits};
use crate::board::BoardFacts;
use crate::material::BoardMaterial;

verus! {

/// The phase of a game. A game only moves forward through the phases.
#[derive(Clone, Copy, Debug, PartialEq, Eq, Structural)]
pub enum GamePhases {
    Opening,
    MiddleGame,
    EndGame,
}

impl Default for GamePhases {
    fn default() -> (r: Self)
        ensures
            r == GamePhases::Opening,
    {
        GamePhases::Opening
    }
}

/// How many of the four piece counts are at or below their endgame threshold: pawns 12,
/// knights 3, bishops 3, rooks 3.
pub open spec fn thresholds_met(facts: BoardFacts) -> int {
    (if bit_count(facts.pawns) <= 12 { 1int } else { 0int })
    + (if bit_count(facts.knights) <= 3 { 1int } else { 0int })
    + (if bit_count(facts.bishops) <= 3 { 1int } else { 0int })
    + (if bit_count(facts.rooks) <= 3 { 1int } else { 0int })
}

/// Whether the material on the board is that of an endgame: the queens are off, or at
/// least two of the piece counts are at or below their threshold.
pub open spec fn endgame_material(facts: BoardFacts) -> bool {
    facts.queens == 0 || thresholds_met(facts) >= 2
}

impl GamePhases {
    /// Position of the phase in the course of a game.
    pub open spec fn rank(self) -> int {
        match self {
            GamePhases::Opening => 0,
            GamePhases::MiddleGame => 1,
            GamePhases::EndGame => 2,
        }
    }

    /// The phase after a look at the board: the endgame once its material is reached, and
    /// the phase as it was otherwise.
    pub open spec fn updated(self, facts: BoardFacts) -> GamePhases {
        if self == GamePhases::EndGame || endgame_material(facts) {
            GamePhases::EndGame
        } else {
            self
        }
    }

    /// Moves to the endgame when the material on the board calls for it.
    pub fn update(&mut self, mat: BoardMaterial, facts: &BoardFacts)
        ensures
            *final(self) == old(self).updated(*facts),
            final(self).rank() >= old(self).rank(),
    {
        if self.is_end() {
            return ;
        }
        if facts.queens == 0 {
            self.set_endgame();
        } else {
            let mut total: u8 = 0;
            if count_bits(facts.pawns) <= 12 {
                total += 1;
            }
            if count_bits(facts.knights) <= 3 {
                total += 1;
            }
            if count_bits(facts.bishops) <= 3 {
                total += 1;
            }
            if count_bits(facts.rooks) <= 3 {
                total += 1;
            }
            if total >= 2 {
                self.set_endgame();
            }
        }
    }

    /// Moves to the endgame.
    pub fn set_endgame(&mut self)
        ensures
            *final(self) == GamePhases::EndGame,
    {
        *self = GamePhases::EndGame
    }

    /// Whether the endgame is reached.
    #[verifier::when_used_as_spec(spec_is_end)]
    pub fn is_end(&self) -> (r: bool)
        ensures
            r == (*self == GamePhases::EndGame),
    {
        *self == GamePhases::EndGame
    }

    /// Whether the endgame is reached.
    pub open spec fn spec_is_end(&self) -> bool {
        *self == GamePhases::EndGame
    }

    /// Leaves the opening. An endgame stays an endgame.
    pub fn set_middlegame(&mut self)
        ensures
            *final(self) == old(self).left_opening(),
            final(self).rank() >= old(self).rank(),
    {
        if !self.is_end() {
            *self = GamePhases::MiddleGame
        }
    }

    /// The phase once the opening is over.
    pub open spec fn left_opening(self) -> GamePhases {
        if self == GamePhases::EndGame {
            GamePhases::EndGame
        } else {
            GamePhases::MiddleGame
        }
    }
}

/// The phase after a look at each of a series of boards in turn.
pub open spec fn phase_after_all(phase: GamePhases, boards: Seq<BoardFacts>) -> GamePhases
    decreases boards.len(),
{
    if boards.len() == 0 {
        phase
    } else {
        phase_after_all(phase, boards.drop_last()).updated(boards.last())
    }
}

/// The phase never goes back: after any series of updates the phase is at least where it
/// was after any shorter part of the series.
pub proof fn lemma_phase_never_regresses(phase: GamePhases, boards: Seq<BoardFacts>, n: int)
    requires
        0 <= n <= boards.len(),
    ensures
        phase_after_all(phase, boards.take(n)).rank() <= phase_after_all(phase, boards).rank(),
    decreases boards.len(),
{
    if n == boards.len() {
        assert(boards.take(n) =~= boards);
    } else {
        assert(boards.drop_last().take(n) =~= boards.take(n));
        lemma_phase_never_regresses(phase, boards.drop_last(), n);
    }
}

/// Once the endgame is reached, it is kept.
pub proof fn lemma_endgame_is_kept(boards: Seq<BoardFacts>)
    ensures
        phase_after_all(GamePhases::EndGame, boards) == GamePhases::EndGame,
    decreases boards.len(),
{
    if boards.len() > 0 {
        lemma_endgame_is_kept(boards.drop_last());
    }
}

} // verus!
