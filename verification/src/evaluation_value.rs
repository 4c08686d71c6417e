//! A score that tells a forced mate apart from a count of centipawns.

use vstd::prelude::*;
use std::cmp::Ordering;
use crate::consts::INF;

verus! {

/// The value of a position: a score in centipawns, or a checkmate. `CheckMate(true)` is
/// the best value there is and `CheckMate(false)` the worst; every score lies between.
#[derive(Debug, PartialEq, Eq, Clone, Copy, Structural)]
pub enum EvaluationValue {
    Eval(isize),
    CheckMate(bool),
}

impl EvaluationValue {
    /// Place of a value among the three kinds: lost mate, score, won mate.
    pub open spec fn class(self) -> int {
        match self {
            EvaluationValue::CheckMate(false) => 0,
            EvaluationValue::Eval(_) => 1,
            EvaluationValue::CheckMate(true) => 2,
        }
    }

    /// Whether `self` is a worse value than `other`.
    pub open spec fn below(self, other: EvaluationValue) -> bool {
        self.class() < other.class() || match (self, other) {
            (EvaluationValue::Eval(a), EvaluationValue::Eval(b)) => a < b,
            _ => false,
        }
    }

    /// How `self` compares with `other`.
    pub open spec fn order_of(self, other: EvaluationValue) -> Ordering {
        if self.below(other) {
            Ordering::Less
        } else if other.below(self) {
            Ordering::Greater
        } else {
            Ordering::Equal
        }
    }

    /// The value that a score stands for: the two sentinels stand for the mates.
    pub open spec fn of_score(value: isize) -> EvaluationValue {
        if value == INF {
            EvaluationValue::CheckMate(true)
        } else if value == -INF {
            EvaluationValue::CheckMate(false)
        } else {
            EvaluationValue::Eval(value)
        }
    }

    /// Compares two values: a lost mate is below every score, a won mate above.
    pub fn cmp(&self, other: &Self) -> (r: Ordering)
        ensures
            r == self.order_of(*other),
    {
        match (other, self) {
            (EvaluationValue::Eval(other_eval), EvaluationValue::Eval(self_eval)) => {
                if *other_eval > *self_eval {
                    Ordering::Less
                } else if *other_eval < *self_eval {
                    Ordering::Greater
                } else {
                    Ordering::Equal
                }
            },
            (EvaluationValue::Eval(_), EvaluationValue::CheckMate(self_mate)) => {
                if *self_mate {
                    Ordering::Greater
                } else {
                    Ordering::Less
                }
            },
            (EvaluationValue::CheckMate(other_mate), EvaluationValue::Eval(_)) => {
                if *other_mate {
                    Ordering::Less
                } else {
                    Ordering::Greater
                }
            },
            (EvaluationValue::CheckMate(other_mate), EvaluationValue::CheckMate(self_mate)) => {
                if *other_mate == *self_mate {
                    Ordering::Equal
                } else if *other_mate {
                    Ordering::Less
                } else {
                    Ordering::Greater
                }
            },
        }
    }

    /// Two values compare as equal exactly when they are the same value.
    pub proof fn lemma_equal_is_same(a: EvaluationValue, b: EvaluationValue)
        ensures
            a.order_of(b) == Ordering::Equal <==> a == b,
    {
    }

    /// Comparing the other way round gives the opposite answer.
    pub proof fn lemma_order_reverses(a: EvaluationValue, b: EvaluationValue)
        ensures
            a.order_of(b) == Ordering::Less <==> b.order_of(a) == Ordering::Greater,
    {
    }

    /// What is below a value is below everything above that value.
    pub proof fn lemma_order_is_transitive(
        a: EvaluationValue,
        b: EvaluationValue,
        c: EvaluationValue,
    )
        requires
            a.order_of(b) == Ordering::Less,
            b.order_of(c) == Ordering::Less,
        ensures
            a.order_of(c) == Ordering::Less,
    {
    }

    /// Values of scores compare as the scores do.
    pub proof fn lemma_scores_keep_their_order(a: isize, b: isize)
        requires
            -INF <= a <= INF,
            -INF <= b <= INF,
        ensures
            EvaluationValue::of_score(a).below(EvaluationValue::of_score(b)) <==> a < b,
    {
    }
}

impl From<isize> for EvaluationValue {
    fn from(value: isize) -> (r: Self) {
        if value == INF {
            EvaluationValue::CheckMate(true)
        } else if value == -INF {
            EvaluationValue::CheckMate(false)
        } else {
            EvaluationValue::Eval(value)
        }
    }
}

impl vstd::std_specs::convert::FromSpecImpl<isize> for EvaluationValue {
    open spec fn obeys_from_spec() -> bool {
        true
    }

    open spec fn from_spec(value: isize) -> Self {
        EvaluationValue::of_score(value)
    }
}

impl PartialOrd for EvaluationValue {
    fn partial_cmp(&self, other: &Self) -> (r: Option<Ordering>) {
        Some(self.cmp(other))
    }
}

impl vstd::std_specs::cmp::PartialOrdSpecImpl for EvaluationValue {
    open spec fn obeys_partial_cmp_spec() -> bool {
        true
    }

    open spec fn partial_cmp_spec(&self, other: &Self) -> Option<Ordering> {
        Some(self.order_of(*other))
    }
}

} // verus!
