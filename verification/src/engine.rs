//! The searcher: move ordering, alpha-beta search, the choice of a move at the root, the
//! opening book and iterative deepening.

use vstd::prelude::*;
use vstd::seq_lib::{lemma_multiset_commutative, to_multiset_build};
use crate::board::{contains_move, Position};
use crate::consts::INF;
use crate::eval::{
    evaluation, lemma_evaluation_bound, lemma_score_turns_with_side, sides_agree, Evaluation,
};
use crate::game_phase::GamePhases;
use crate::game_state::GameState;
use crate::opening::OpeningDatabase;
use crate::trie::Node;
use crate::pieces::{Color, Move};

verus! {

/// How a position at the end of a line is scored: its score, and the phase of the game
/// after it was looked at.
pub type Leaf = spec_fn(Position, GamePhases) -> (int, GamePhases);

/// The rank of a move in the order of search. In the endgame a move that gives check
/// comes first. Then come the moves onto an occupied square, then the promotions, then
/// the rest.
pub open spec fn move_class(p: Position, m: Move, endgame: bool) -> int {
    if endgame && p.after(m).spec_facts().spec_in_check() {
        0
    } else if p.spec_facts().spec_piece_on(m.to as int).is_some() {
        1
    } else if m.promotion.is_some() {
        2
    } else {
        3
    }
}

/// The moves of one rank, in the order in which they stand in `moves`.
pub open spec fn bucket(moves: Seq<Move>, p: Position, endgame: bool, class: int) -> Seq<Move>
    decreases moves.len(),
{
    if moves.len() == 0 {
        Seq::empty()
    } else {
        let rest = bucket(moves.drop_last(), p, endgame, class);
        if move_class(p, moves.last(), endgame) == class {
            rest.push(moves.last())
        } else {
            rest
        }
    }
}

/// The moves of the ranks below `class`, rank by rank.
pub open spec fn buckets_below(moves: Seq<Move>, p: Position, endgame: bool, class: int) -> Seq<
    Move,
>
    decreases class,
{
    if class <= 0 {
        Seq::empty()
    } else {
        buckets_below(moves, p, endgame, class - 1) + bucket(moves, p, endgame, class - 1)
    }
}

/// The moves in the order of search: by rank, and within a rank in the order in which
/// they were generated.
pub open spec fn ordered(moves: Seq<Move>, p: Position, endgame: bool) -> Seq<Move> {
    buckets_below(moves, p, endgame, 4)
}

/// The legal moves of a position in the order of search.
pub open spec fn ordered_moves(p: Position, phase: GamePhases) -> Seq<Move> {
    ordered(p.moves(), p, phase.spec_is_end())
}

proof fn lemma_bucket_members(moves: Seq<Move>, p: Position, endgame: bool, class: int, m: Move)
    ensures
        bucket(moves, p, endgame, class).contains(m) <==> moves.contains(m) && move_class(
            p,
            m,
            endgame,
        ) == class,
    decreases moves.len(),
{
    let b = bucket(moves, p, endgame, class);
    if moves.len() > 0 {
        let rest = bucket(moves.drop_last(), p, endgame, class);
        lemma_bucket_members(moves.drop_last(), p, endgame, class, m);
        if moves.contains(m) {
            let i = choose|i: int| 0 <= i < moves.len() && moves[i] == m;
            if i < moves.len() - 1 {
                assert(moves.drop_last()[i] == m);
            }
        }
        if move_class(p, moves.last(), endgame) == class {
            assert(b[b.len() - 1] == moves.last());
            if rest.contains(m) {
                let i = choose|i: int| 0 <= i < rest.len() && rest[i] == m;
                assert(b[i] == m);
            }
        }
    }
}

proof fn lemma_buckets_below_members(
    moves: Seq<Move>,
    p: Position,
    endgame: bool,
    class: int,
    m: Move,
)
    requires
        0 <= class,
    ensures
        buckets_below(moves, p, endgame, class).contains(m) <==> moves.contains(m) && 0
            <= move_class(p, m, endgame) < class,
    decreases class,
{
    if class > 0 {
        let below = buckets_below(moves, p, endgame, class - 1);
        let this = bucket(moves, p, endgame, class - 1);
        lemma_buckets_below_members(moves, p, endgame, class - 1, m);
        lemma_bucket_members(moves, p, endgame, class - 1, m);
        let all = below + this;
        if below.contains(m) {
            let i = choose|i: int| 0 <= i < below.len() && below[i] == m;
            assert(all[i] == m);
        }
        if this.contains(m) {
            let i = choose|i: int| 0 <= i < this.len() && this[i] == m;
            assert(all[below.len() + i] == m);
        }
    }
}

/// Ordering neither adds a move nor loses one.
pub proof fn lemma_ordered_members(moves: Seq<Move>, p: Position, endgame: bool, m: Move)
    ensures
        ordered(moves, p, endgame).contains(m) <==> moves.contains(m),
{
    lemma_buckets_below_members(moves, p, endgame, 4, m);
}

proof fn lemma_bucket_sum(moves: Seq<Move>, p: Position, endgame: bool)
    ensures
        bucket(moves, p, endgame, 0).len() + bucket(moves, p, endgame, 1).len() + bucket(
            moves,
            p,
            endgame,
            2,
        ).len() + bucket(moves, p, endgame, 3).len() == moves.len(),
    decreases moves.len(),
{
    if moves.len() > 0 {
        lemma_bucket_sum(moves.drop_last(), p, endgame);
    }
}

/// Ordering keeps the number of moves.
pub proof fn lemma_ordered_len(moves: Seq<Move>, p: Position, endgame: bool)
    ensures
        ordered(moves, p, endgame).len() == moves.len(),
{
    lemma_bucket_sum(moves, p, endgame);
    reveal_with_fuel(buckets_below, 5);
}

proof fn lemma_ordered_multiset(moves: Seq<Move>, p: Position, endgame: bool)
    ensures
        ordered(moves, p, endgame).to_multiset() =~= bucket(moves, p, endgame, 0).to_multiset().add(
            bucket(moves, p, endgame, 1).to_multiset(),
        ).add(bucket(moves, p, endgame, 2).to_multiset()).add(
            bucket(moves, p, endgame, 3).to_multiset(),
        ),
{
    broadcast use vstd::multiset::group_multiset_axioms;

    reveal_with_fuel(buckets_below, 5);
    let b0 = bucket(moves, p, endgame, 0);
    let b1 = bucket(moves, p, endgame, 1);
    let b2 = bucket(moves, p, endgame, 2);
    let b3 = bucket(moves, p, endgame, 3);
    lemma_multiset_commutative(b0, b1);
    lemma_multiset_commutative(b0 + b1, b2);
    lemma_multiset_commutative(b0 + b1 + b2, b3);
}

/// The moves in the order of search are the moves that were given, each as often as it
/// was given.
pub proof fn lemma_ordered_is_permutation(moves: Seq<Move>, p: Position, endgame: bool)
    ensures
        ordered(moves, p, endgame).to_multiset() =~= moves.to_multiset(),
    decreases moves.len(),
{
    broadcast use vstd::multiset::group_multiset_axioms;

    lemma_ordered_multiset(moves, p, endgame);
    if moves.len() == 0 {
        assert(bucket(moves, p, endgame, 0) =~= moves);
        moves.to_multiset_ensures();
    } else {
        let rest = moves.drop_last();
        let last = moves.last();
        lemma_ordered_is_permutation(rest, p, endgame);
        lemma_ordered_multiset(rest, p, endgame);
        to_multiset_build(bucket(rest, p, endgame, 0), last);
        to_multiset_build(bucket(rest, p, endgame, 1), last);
        to_multiset_build(bucket(rest, p, endgame, 2), last);
        to_multiset_build(bucket(rest, p, endgame, 3), last);
        to_multiset_build(rest, last);
        assert(moves =~= rest.push(last));
    }
}

/// The larger of two scores.
pub open spec fn max_of(a: int, b: int) -> int {
    if a >= b {
        a
    } else {
        b
    }
}

/// The smaller of two scores.
pub open spec fn min_of(a: int, b: int) -> int {
    if a <= b {
        a
    } else {
        b
    }
}

/// The value of a position searched to a depth, within the window from `alpha` to
/// `beta`, and the phase of the game after the search. At depth 0, and where no move is
/// legal, the position is scored as it stands. Otherwise its value is that of its moves,
/// searched in order one ply less deep.
pub open spec fn alpha_beta(
    leaf: Leaf,
    p: Position,
    depth: nat,
    alpha: int,
    beta: int,
    maximizing: bool,
    phase: GamePhases,
) -> (int, GamePhases)
    decreases depth, 0nat,
{
    if depth == 0 || p.moves().len() == 0 {
        leaf(p, phase)
    } else {
        alpha_beta_moves(
            leaf,
            p,
            ordered_moves(p, phase),
            0,
            (depth - 1) as nat,
            alpha,
            beta,
            maximizing,
            if maximizing {
                -INF
            } else {
                INF as int
            },
            phase,
        )
    }
}

/// The value of a position from its moves from number `i` on, each searched to
/// `child_depth`, where `best` is the value of the moves before. The maximizing side
/// keeps the largest value and raises `alpha` to it, the minimizing side keeps the
/// smallest and lowers `beta`; the search of the moves ends when the window is empty.
pub open spec fn alpha_beta_moves(
    leaf: Leaf,
    p: Position,
    moves: Seq<Move>,
    i: nat,
    child_depth: nat,
    alpha: int,
    beta: int,
    maximizing: bool,
    best: int,
    phase: GamePhases,
) -> (int, GamePhases)
    decreases child_depth, 1 + moves.len() - i,
{
    if i >= moves.len() {
        (best, phase)
    } else {
        let (value, next) = alpha_beta(
            leaf,
            p.after(moves[i as int]),
            child_depth,
            alpha,
            beta,
            !maximizing,
            phase,
        );
        if maximizing {
            let raised = max_of(alpha, value);
            if beta <= raised {
                (max_of(best, value), next)
            } else {
                alpha_beta_moves(
                    leaf,
                    p,
                    moves,
                    i + 1,
                    child_depth,
                    raised,
                    beta,
                    maximizing,
                    max_of(best, value),
                    next,
                )
            }
        } else {
            let lowered = min_of(beta, value);
            if lowered <= alpha {
                (min_of(best, value), next)
            } else {
                alpha_beta_moves(
                    leaf,
                    p,
                    moves,
                    i + 1,
                    child_depth,
                    alpha,
                    lowered,
                    maximizing,
                    min_of(best, value),
                    next,
                )
            }
        }
    }
}

/// What a search at the root has found: the best value, the move that has it, and the
/// phase of the game.
pub struct Found {
    pub eval: int,
    pub best_move: Option<Move>,
    pub phase: GamePhases,
}

/// The search of the root's moves from number `i` on. Each move is answered by the other
/// side and searched to `depth` with the full window. A move becomes the best move if its
/// value is above the best so far, or if there is no best move yet.
pub open spec fn root_moves(
    leaf: Leaf,
    p: Position,
    moves: Seq<Move>,
    i: nat,
    depth: nat,
    found: Found,
) -> Found
    decreases moves.len() - i,
{
    if i >= moves.len() {
        found
    } else {
        let (value, next) = alpha_beta(
            leaf,
            p.after(moves[i as int]),
            depth,
            -INF,
            INF as int,
            false,
            found.phase,
        );
        if value > found.eval || found.best_move.is_none() {
            root_moves(
                leaf,
                p,
                moves,
                i + 1,
                depth,
                Found { eval: value, best_move: Some(moves[i as int]), phase: next },
            )
        } else {
            root_moves(leaf, p, moves, i + 1, depth, Found { phase: next, ..found })
        }
    }
}

/// A search at the root: the moves of the position in the order of search, each searched
/// to `depth`. The search starts without a best value and with the best move of the
/// search before.
pub open spec fn root_search(
    leaf: Leaf,
    p: Position,
    depth: nat,
    best_move: Option<Move>,
    phase: GamePhases,
) -> Found {
    root_moves(
        leaf,
        p,
        ordered_moves(p, phase),
        0,
        depth,
        Found { eval: -INF, best_move, phase },
    )
}

/// The searches to the depths 1 to `rounds`, one after the other. Each starts with the
/// best move and the phase that the one before has left.
pub open spec fn deepened(
    leaf: Leaf,
    p: Position,
    rounds: nat,
    best_move: Option<Move>,
    phase: GamePhases,
) -> Found
    decreases rounds,
{
    if rounds == 0 {
        Found { eval: -INF, best_move, phase }
    } else {
        let before = deepened(leaf, p, (rounds - 1) as nat, best_move, phase);
        let last = root_search(leaf, p, rounds, before.best_move, before.phase);
        Found { eval: max_of(before.eval, last.eval), ..last }
    }
}

/// The evaluation at the end of a line, seen from `engine_side` with the game's `history`.
pub open spec fn evaluator(engine_side: Color, history: Seq<u64>) -> Leaf {
    |p: Position, phase: GamePhases| evaluation(p.spec_facts(), history, engine_side, phase)
}

/// An evaluation with the sign of its scores turned.
pub open spec fn negated(leaf: Leaf) -> Leaf {
    |p: Position, phase: GamePhases| (-leaf(p, phase).0, leaf(p, phase).1)
}

/// A search for the maximizing side is a search for the minimizing side with every sign
/// turned: with the scores at the ends of the lines negated and the window mirrored, the
/// minimizing search finds the negated value, and leaves the game in the same phase.
pub proof fn lemma_negamax(
    leaf: Leaf,
    p: Position,
    depth: nat,
    alpha: int,
    beta: int,
    maximizing: bool,
    phase: GamePhases,
)
    ensures
        alpha_beta(negated(leaf), p, depth, -beta, -alpha, !maximizing, phase) == (
            -alpha_beta(leaf, p, depth, alpha, beta, maximizing, phase).0,
            alpha_beta(leaf, p, depth, alpha, beta, maximizing, phase).1,
        ),
    decreases depth, 0nat,
{
    if depth > 0 && p.moves().len() > 0 {
        lemma_negamax_moves(
            leaf,
            p,
            ordered_moves(p, phase),
            0,
            (depth - 1) as nat,
            alpha,
            beta,
            maximizing,
            if maximizing {
                -INF
            } else {
                INF as int
            },
            phase,
        );
    }
}

proof fn lemma_negamax_moves(
    leaf: Leaf,
    p: Position,
    moves: Seq<Move>,
    i: nat,
    child_depth: nat,
    alpha: int,
    beta: int,
    maximizing: bool,
    best: int,
    phase: GamePhases,
)
    ensures
        alpha_beta_moves(
            negated(leaf),
            p,
            moves,
            i,
            child_depth,
            -beta,
            -alpha,
            !maximizing,
            -best,
            phase,
        ) == (
            -alpha_beta_moves(
                leaf,
                p,
                moves,
                i,
                child_depth,
                alpha,
                beta,
                maximizing,
                best,
                phase,
            ).0,
            alpha_beta_moves(leaf, p, moves, i, child_depth, alpha, beta, maximizing, best, phase).1,
        ),
    decreases child_depth, 1 + moves.len() - i,
{
    if i < moves.len() {
        let child = p.after(moves[i as int]);
        lemma_negamax(leaf, child, child_depth, alpha, beta, !maximizing, phase);
        let (value, next) = alpha_beta(leaf, child, child_depth, alpha, beta, !maximizing, phase);
        if maximizing {
            let raised = max_of(alpha, value);
            if beta > raised {
                lemma_negamax_moves(
                    leaf,
                    p,
                    moves,
                    i + 1,
                    child_depth,
                    raised,
                    beta,
                    maximizing,
                    max_of(best, value),
                    next,
                );
            }
        } else {
            let lowered = min_of(beta, value);
            if lowered > alpha {
                lemma_negamax_moves(
                    leaf,
                    p,
                    moves,
                    i + 1,
                    child_depth,
                    alpha,
                    lowered,
                    maximizing,
                    min_of(best, value),
                    next,
                );
            }
        }
    }
}

/// Whether each move of `path` is legal in the position that the moves before it lead
/// to from `p`.
pub open spec fn legal_path(p: Position, path: Seq<Move>) -> bool
    decreases path.len(),
{
    path.len() == 0 || (p.moves().contains(path[0]) && legal_path(
        p.after(path[0]),
        path.drop_first(),
    ))
}

/// The position that the moves of `path` lead to from `p`.
pub open spec fn end_of(p: Position, path: Seq<Move>) -> Position
    decreases path.len(),
{
    if path.len() == 0 {
        p
    } else {
        end_of(p.after(path[0]), path.drop_first())
    }
}

/// Whether `q` is `p` or comes from `p` by at most `plies` legal moves.
pub open spec fn reachable(p: Position, q: Position, plies: nat) -> bool {
    exists|path: Seq<Move>|
        path.len() <= plies && legal_path(p, path) && #[trigger] end_of(p, path) == q
}

/// Whether `other` scores a position as `leaf` does, with the sign turned.
pub open spec fn turned(leaf: Leaf, other: Leaf, q: Position, phase: GamePhases) -> bool {
    other(q, phase) == (-leaf(q, phase).0, leaf(q, phase).1)
}

/// Whether `other` is `leaf` with the sign turned on every position within `plies` moves
/// of `p`.
pub open spec fn turned_within(leaf: Leaf, other: Leaf, p: Position, plies: nat) -> bool {
    forall|q: Position, phase: GamePhases|
        reachable(p, q, plies) ==> #[trigger] turned(leaf, other, q, phase)
}

proof fn lemma_turned_for_child(leaf: Leaf, other: Leaf, p: Position, m: Move, plies: nat)
    requires
        turned_within(leaf, other, p, plies + 1),
        p.moves().contains(m),
    ensures
        turned_within(leaf, other, p.after(m), plies),
{
    assert forall|q: Position, phase: GamePhases| reachable(p.after(m), q, plies) implies #[trigger] turned(
        leaf,
        other,
        q,
        phase,
    ) by {
        let path = choose|path: Seq<Move>|
            path.len() <= plies && legal_path(p.after(m), path) && #[trigger] end_of(
                p.after(m),
                path,
            ) == q;
        let longer = seq![m] + path;
        assert(longer.drop_first() =~= path);
        assert(end_of(p, longer) == q);
    }
}

/// The search for one side is the search for the other with every sign turned, where
/// the scores at the ends of the lines are: it is enough that they are on the positions
/// that the search can reach.
pub proof fn lemma_negamax_within(
    leaf: Leaf,
    other: Leaf,
    p: Position,
    depth: nat,
    alpha: int,
    beta: int,
    maximizing: bool,
    phase: GamePhases,
)
    requires
        turned_within(leaf, other, p, depth),
    ensures
        alpha_beta(other, p, depth, -beta, -alpha, !maximizing, phase) == (
            -alpha_beta(leaf, p, depth, alpha, beta, maximizing, phase).0,
            alpha_beta(leaf, p, depth, alpha, beta, maximizing, phase).1,
        ),
    decreases depth, 0nat,
{
    if depth == 0 || p.moves().len() == 0 {
        assert(end_of(p, Seq::<Move>::empty()) == p);
        assert(turned(leaf, other, p, phase));
    } else {
        let moves = ordered_moves(p, phase);
        assert forall|j: int| 0 <= j < moves.len() implies p.moves().contains(moves[j]) by {
            lemma_ordered_members(p.moves(), p, phase.spec_is_end(), moves[j]);
        }
        lemma_negamax_moves_within(
            leaf,
            other,
            p,
            moves,
            0,
            (depth - 1) as nat,
            alpha,
            beta,
            maximizing,
            if maximizing {
                -INF
            } else {
                INF as int
            },
            phase,
        );
    }
}

proof fn lemma_negamax_moves_within(
    leaf: Leaf,
    other: Leaf,
    p: Position,
    moves: Seq<Move>,
    i: nat,
    child_depth: nat,
    alpha: int,
    beta: int,
    maximizing: bool,
    best: int,
    phase: GamePhases,
)
    requires
        turned_within(leaf, other, p, child_depth + 1),
        forall|j: int| 0 <= j < moves.len() ==> p.moves().contains(moves[j]),
    ensures
        alpha_beta_moves(
            other,
            p,
            moves,
            i,
            child_depth,
            -beta,
            -alpha,
            !maximizing,
            -best,
            phase,
        ) == (
            -alpha_beta_moves(
                leaf,
                p,
                moves,
                i,
                child_depth,
                alpha,
                beta,
                maximizing,
                best,
                phase,
            ).0,
            alpha_beta_moves(leaf, p, moves, i, child_depth, alpha, beta, maximizing, best, phase).1,
        ),
    decreases child_depth, 1 + moves.len() - i,
{
    if i < moves.len() {
        let child = p.after(moves[i as int]);
        lemma_turned_for_child(leaf, other, p, moves[i as int], child_depth);
        lemma_negamax_within(leaf, other, child, child_depth, alpha, beta, !maximizing, phase);
        let (value, next) = alpha_beta(leaf, child, child_depth, alpha, beta, !maximizing, phase);
        if maximizing {
            let raised = max_of(alpha, value);
            if beta > raised {
                lemma_negamax_moves_within(
                    leaf,
                    other,
                    p,
                    moves,
                    i + 1,
                    child_depth,
                    raised,
                    beta,
                    maximizing,
                    max_of(best, value),
                    next,
                );
            }
        } else {
            let lowered = min_of(beta, value);
            if lowered > alpha {
                lemma_negamax_moves_within(
                    leaf,
                    other,
                    p,
                    moves,
                    i + 1,
                    child_depth,
                    alpha,
                    lowered,
                    maximizing,
                    min_of(best, value),
                    next,
                );
            }
        }
    }
}

/// Searching as the maximizing side for White finds the negation of what searching as
/// the minimizing side for Black finds, and leaves the game in the same phase. The terms
/// of the endgame look at the engine's opponent only, so the law is stated where they
/// agree for both sides on the positions that the search can reach.
pub proof fn lemma_search_turns_with_side(
    history: Seq<u64>,
    p: Position,
    depth: nat,
    phase: GamePhases,
)
    requires
        forall|q: Position, ph: GamePhases|
            reachable(p, q, depth) ==> #[trigger] sides_agree(q.spec_facts(), history, ph),
    ensures
        alpha_beta(evaluator(Color::White, history), p, depth, -INF, INF as int, true, phase).0
            == -alpha_beta(
            evaluator(Color::Black, history),
            p,
            depth,
            -INF,
            INF as int,
            false,
            phase,
        ).0,
        alpha_beta(evaluator(Color::White, history), p, depth, -INF, INF as int, true, phase).1
            == alpha_beta(
            evaluator(Color::Black, history),
            p,
            depth,
            -INF,
            INF as int,
            false,
            phase,
        ).1,
{
    let white = evaluator(Color::White, history);
    let black = evaluator(Color::Black, history);
    assert forall|q: Position, ph: GamePhases| reachable(p, q, depth) implies #[trigger] turned(
        white,
        black,
        q,
        ph,
    ) by {
        lemma_score_turns_with_side(q.spec_facts(), history, ph);
    }
    lemma_negamax_within(white, black, p, depth, -INF, INF as int, true, phase);
}

/// The value of a position searched to a depth without a window: the best of the values
/// of all its moves, in the order in which they are generated, and the phase of the game
/// after the search.
pub open spec fn minimax(
    leaf: Leaf,
    p: Position,
    depth: nat,
    maximizing: bool,
    phase: GamePhases,
) -> (int, GamePhases)
    decreases depth, 0nat,
{
    if depth == 0 || p.moves().len() == 0 {
        leaf(p, phase)
    } else {
        minimax_moves(
            leaf,
            p,
            p.moves(),
            0,
            (depth - 1) as nat,
            maximizing,
            if maximizing {
                -INF
            } else {
                INF as int
            },
            phase,
        )
    }
}

/// The best of `best` and the values of the moves from number `i` on, each searched to
/// `child_depth`: the largest for the maximizing side, the smallest for the other.
pub open spec fn minimax_moves(
    leaf: Leaf,
    p: Position,
    moves: Seq<Move>,
    i: nat,
    child_depth: nat,
    maximizing: bool,
    best: int,
    phase: GamePhases,
) -> (int, GamePhases)
    decreases child_depth, 1 + moves.len() - i,
{
    if i >= moves.len() {
        (best, phase)
    } else {
        let (value, next) = minimax(leaf, p.after(moves[i as int]), child_depth, !maximizing, phase);
        minimax_moves(
            leaf,
            p,
            moves,
            i + 1,
            child_depth,
            maximizing,
            if maximizing {
                max_of(best, value)
            } else {
                min_of(best, value)
            },
            next,
        )
    }
}

/// What `leaf` makes of a position in a phase.
pub open spec fn scored(leaf: Leaf, q: Position, phase: GamePhases) -> (int, GamePhases) {
    leaf(q, phase)
}

/// Whether `leaf` leaves the game in `phase` wherever it finds it there, and gives scores
/// from `-INF` to `INF`.
pub open spec fn steady(leaf: Leaf, phase: GamePhases) -> bool {
    forall|q: Position|
        (#[trigger] scored(leaf, q, phase)).1 == phase && -INF <= scored(leaf, q, phase).0 <= INF
}

/// The value of the move `m` for the side that makes it, searched without a window.
pub open spec fn move_value(
    leaf: Leaf,
    p: Position,
    m: Move,
    child_depth: nat,
    maximizing: bool,
    phase: GamePhases,
) -> int {
    minimax(leaf, p.after(m), child_depth, !maximizing, phase).0
}

/// Whether `a` is at least as good as `b` for the side to choose.
pub open spec fn no_worse(maximizing: bool, a: int, b: int) -> bool {
    if maximizing {
        a >= b
    } else {
        a <= b
    }
}

/// With a steady evaluation the search without a window leaves the phase as it is, and
/// its value lies between `-INF` and `INF`.
pub proof fn lemma_minimax_steady(
    leaf: Leaf,
    p: Position,
    depth: nat,
    maximizing: bool,
    phase: GamePhases,
)
    requires
        steady(leaf, phase),
    ensures
        minimax(leaf, p, depth, maximizing, phase).1 == phase,
        -INF <= minimax(leaf, p, depth, maximizing, phase).0 <= INF,
    decreases depth, 0nat,
{
    if depth == 0 || p.moves().len() == 0 {
        assert(scored(leaf, p, phase).1 == phase);
    } else {
        lemma_minimax_moves_choice(
            leaf,
            p,
            p.moves(),
            0,
            (depth - 1) as nat,
            maximizing,
            if maximizing {
                -INF
            } else {
                INF as int
            },
            phase,
        );
    }
}

/// The best of the moves is no worse than `best` and than any of the moves, and it is
/// `best` or the value of one of the moves.
proof fn lemma_minimax_moves_choice(
    leaf: Leaf,
    p: Position,
    moves: Seq<Move>,
    i: nat,
    child_depth: nat,
    maximizing: bool,
    best: int,
    phase: GamePhases,
)
    requires
        steady(leaf, phase),
        -INF <= best <= INF,
    ensures
        minimax_moves(leaf, p, moves, i, child_depth, maximizing, best, phase).1 == phase,
        -INF <= minimax_moves(leaf, p, moves, i, child_depth, maximizing, best, phase).0 <= INF,
        no_worse(
            maximizing,
            minimax_moves(leaf, p, moves, i, child_depth, maximizing, best, phase).0,
            best,
        ),
        forall|j: int|
            i <= j < moves.len() ==> no_worse(
                maximizing,
                minimax_moves(leaf, p, moves, i, child_depth, maximizing, best, phase).0,
                #[trigger] move_value(leaf, p, moves[j], child_depth, maximizing, phase),
            ),
        minimax_moves(leaf, p, moves, i, child_depth, maximizing, best, phase).0 == best
            || exists|j: int|
            i <= j < moves.len() && minimax_moves(
                leaf,
                p,
                moves,
                i,
                child_depth,
                maximizing,
                best,
                phase,
            ).0 == #[trigger] move_value(leaf, p, moves[j], child_depth, maximizing, phase),
    decreases child_depth, 1 + moves.len() - i,
{
    if i < moves.len() {
        let m = moves[i as int];
        lemma_minimax_steady(leaf, p.after(m), child_depth, !maximizing, phase);
        let value = move_value(leaf, p, m, child_depth, maximizing, phase);
        let better = if maximizing {
            max_of(best, value)
        } else {
            min_of(best, value)
        };
        lemma_minimax_moves_choice(leaf, p, moves, i + 1, child_depth, maximizing, better, phase);
    }
}

/// The best of the moves does not depend on their order: two lists of the same moves
/// have the same best.
proof fn lemma_minimax_moves_any_order(
    leaf: Leaf,
    p: Position,
    one: Seq<Move>,
    other: Seq<Move>,
    child_depth: nat,
    maximizing: bool,
    best: int,
    phase: GamePhases,
)
    requires
        steady(leaf, phase),
        -INF <= best <= INF,
        forall|m: Move| one.contains(m) <==> other.contains(m),
    ensures
        minimax_moves(leaf, p, one, 0, child_depth, maximizing, best, phase) == minimax_moves(
            leaf,
            p,
            other,
            0,
            child_depth,
            maximizing,
            best,
            phase,
        ),
{
    lemma_minimax_moves_choice(leaf, p, one, 0, child_depth, maximizing, best, phase);
    lemma_minimax_moves_choice(leaf, p, other, 0, child_depth, maximizing, best, phase);
    let a = minimax_moves(leaf, p, one, 0, child_depth, maximizing, best, phase).0;
    let b = minimax_moves(leaf, p, other, 0, child_depth, maximizing, best, phase).0;
    assert(no_worse(maximizing, b, a)) by {
        if a != best {
            let j = choose|j: int|
                0 <= j < one.len() && a == #[trigger] move_value(
                    leaf,
                    p,
                    one[j],
                    child_depth,
                    maximizing,
                    phase,
                );
            assert(one.contains(one[j]));
            let k = choose|k: int| 0 <= k < other.len() && other[k] == one[j];
        }
    }
    assert(no_worse(maximizing, a, b)) by {
        if b != best {
            let j = choose|j: int|
                0 <= j < other.len() && b == #[trigger] move_value(
                    leaf,
                    p,
                    other[j],
                    child_depth,
                    maximizing,
                    phase,
                );
            assert(other.contains(other[j]));
            let k = choose|k: int| 0 <= k < one.len() && one[k] == other[j];
        }
    }
}

/// What a search within a window says of the value without a window. A value inside the
/// window is the value itself. A value at or below the window is an upper bound of it,
/// a value at or above the window a lower bound.
pub open spec fn bounds(value: int, exact: int, alpha: int, beta: int) -> bool {
    &&& value <= alpha ==> exact <= value
    &&& value >= beta ==> exact >= value
    &&& alpha < value < beta ==> exact == value
}

/// With a steady evaluation the search within a window leaves the phase as it is, and
/// its value bounds the value of the search without a window.
pub proof fn lemma_alpha_beta_bounds(
    leaf: Leaf,
    p: Position,
    depth: nat,
    alpha: int,
    beta: int,
    maximizing: bool,
    phase: GamePhases,
)
    requires
        steady(leaf, phase),
        -INF <= alpha < beta <= INF,
    ensures
        alpha_beta(leaf, p, depth, alpha, beta, maximizing, phase).1 == phase,
        bounds(
            alpha_beta(leaf, p, depth, alpha, beta, maximizing, phase).0,
            minimax(leaf, p, depth, maximizing, phase).0,
            alpha,
            beta,
        ),
    decreases depth, 0nat,
{
    if depth == 0 || p.moves().len() == 0 {
        assert(scored(leaf, p, phase).1 == phase);
    } else {
        let start = if maximizing {
            -INF
        } else {
            INF as int
        };
        let moves = ordered_moves(p, phase);
        assert forall|m: Move| moves.contains(m) <==> p.moves().contains(m) by {
            lemma_ordered_members(p.moves(), p, phase.spec_is_end(), m);
        }
        lemma_minimax_moves_any_order(
            leaf,
            p,
            moves,
            p.moves(),
            (depth - 1) as nat,
            maximizing,
            start,
            phase,
        );
        lemma_alpha_beta_moves_bounds(
            leaf,
            p,
            moves,
            0,
            (depth - 1) as nat,
            alpha,
            beta,
            alpha,
            beta,
            maximizing,
            start,
            start,
            phase,
        );
    }
}

proof fn lemma_alpha_beta_moves_bounds(
    leaf: Leaf,
    p: Position,
    moves: Seq<Move>,
    i: nat,
    child_depth: nat,
    alpha: int,
    beta: int,
    low: int,
    high: int,
    maximizing: bool,
    best: int,
    exact: int,
    phase: GamePhases,
)
    requires
        steady(leaf, phase),
        -INF <= alpha < beta <= INF,
        -INF <= best <= INF,
        -INF <= exact <= INF,
        low < high,
        maximizing ==> low == max_of(alpha, best) && high == beta && (best <= alpha ==> exact
            <= best) && (best > alpha ==> exact == best),
        !maximizing ==> high == min_of(beta, best) && low == alpha && (best >= beta ==> exact
            >= best) && (best < beta ==> exact == best),
    ensures
        alpha_beta_moves(leaf, p, moves, i, child_depth, low, high, maximizing, best, phase).1
            == phase,
        bounds(
            alpha_beta_moves(leaf, p, moves, i, child_depth, low, high, maximizing, best, phase).0,
            minimax_moves(leaf, p, moves, i, child_depth, maximizing, exact, phase).0,
            alpha,
            beta,
        ),
    decreases child_depth, 1 + moves.len() - i,
{
    if i < moves.len() {
        let child = p.after(moves[i as int]);
        lemma_alpha_beta_bounds(leaf, child, child_depth, low, high, !maximizing, phase);
        lemma_minimax_steady(leaf, child, child_depth, !maximizing, phase);
        let value = alpha_beta(leaf, child, child_depth, low, high, !maximizing, phase).0;
        let truth = minimax(leaf, child, child_depth, !maximizing, phase).0;
        lemma_alpha_beta_range(leaf, child, child_depth, low, high, !maximizing, phase);
        if maximizing {
            let raised = max_of(low, value);
            let exact_next = max_of(exact, truth);
            if high <= raised {
                lemma_minimax_moves_choice(
                    leaf,
                    p,
                    moves,
                    i + 1,
                    child_depth,
                    maximizing,
                    exact_next,
                    phase,
                );
            } else {
                lemma_alpha_beta_moves_bounds(
                    leaf,
                    p,
                    moves,
                    i + 1,
                    child_depth,
                    alpha,
                    beta,
                    raised,
                    high,
                    maximizing,
                    max_of(best, value),
                    exact_next,
                    phase,
                );
            }
        } else {
            let lowered = min_of(high, value);
            let exact_next = min_of(exact, truth);
            if lowered <= low {
                lemma_minimax_moves_choice(
                    leaf,
                    p,
                    moves,
                    i + 1,
                    child_depth,
                    maximizing,
                    exact_next,
                    phase,
                );
            } else {
                lemma_alpha_beta_moves_bounds(
                    leaf,
                    p,
                    moves,
                    i + 1,
                    child_depth,
                    alpha,
                    beta,
                    low,
                    lowered,
                    maximizing,
                    min_of(best, value),
                    exact_next,
                    phase,
                );
            }
        }
    }
}

/// With a steady evaluation the value of a search within a window lies between `-INF`
/// and `INF`.
proof fn lemma_alpha_beta_range(
    leaf: Leaf,
    p: Position,
    depth: nat,
    alpha: int,
    beta: int,
    maximizing: bool,
    phase: GamePhases,
)
    requires
        steady(leaf, phase),
    ensures
        alpha_beta(leaf, p, depth, alpha, beta, maximizing, phase).1 == phase,
        -INF <= alpha_beta(leaf, p, depth, alpha, beta, maximizing, phase).0 <= INF,
    decreases depth, 0nat,
{
    if depth == 0 || p.moves().len() == 0 {
        assert(scored(leaf, p, phase).1 == phase);
    } else {
        lemma_alpha_beta_moves_range(
            leaf,
            p,
            ordered_moves(p, phase),
            0,
            (depth - 1) as nat,
            alpha,
            beta,
            maximizing,
            if maximizing {
                -INF
            } else {
                INF as int
            },
            phase,
        );
    }
}

proof fn lemma_alpha_beta_moves_range(
    leaf: Leaf,
    p: Position,
    moves: Seq<Move>,
    i: nat,
    child_depth: nat,
    alpha: int,
    beta: int,
    maximizing: bool,
    best: int,
    phase: GamePhases,
)
    requires
        steady(leaf, phase),
        -INF <= best <= INF,
    ensures
        alpha_beta_moves(leaf, p, moves, i, child_depth, alpha, beta, maximizing, best, phase).1
            == phase,
        -INF <= alpha_beta_moves(
            leaf,
            p,
            moves,
            i,
            child_depth,
            alpha,
            beta,
            maximizing,
            best,
            phase,
        ).0 <= INF,
    decreases child_depth, 1 + moves.len() - i,
{
    if i < moves.len() {
        let child = p.after(moves[i as int]);
        lemma_alpha_beta_range(leaf, child, child_depth, alpha, beta, !maximizing, phase);
        let value = alpha_beta(leaf, child, child_depth, alpha, beta, !maximizing, phase).0;
        if maximizing {
            if beta > max_of(alpha, value) {
                lemma_alpha_beta_moves_range(
                    leaf,
                    p,
                    moves,
                    i + 1,
                    child_depth,
                    max_of(alpha, value),
                    beta,
                    maximizing,
                    max_of(best, value),
                    phase,
                );
            }
        } else {
            if min_of(beta, value) > alpha {
                lemma_alpha_beta_moves_range(
                    leaf,
                    p,
                    moves,
                    i + 1,
                    child_depth,
                    alpha,
                    min_of(beta, value),
                    maximizing,
                    min_of(best, value),
                    phase,
                );
            }
        }
    }
}

/// Pruning loses nothing: with a steady evaluation, the search with the full window
/// finds the value that the search of every line finds.
pub proof fn lemma_alpha_beta_is_minimax(
    leaf: Leaf,
    p: Position,
    depth: nat,
    maximizing: bool,
    phase: GamePhases,
)
    requires
        steady(leaf, phase),
    ensures
        alpha_beta(leaf, p, depth, -INF, INF as int, maximizing, phase) == minimax(
            leaf,
            p,
            depth,
            maximizing,
            phase,
        ),
{
    lemma_alpha_beta_bounds(leaf, p, depth, -INF, INF as int, maximizing, phase);
    lemma_alpha_beta_range(leaf, p, depth, -INF, INF as int, maximizing, phase);
    lemma_minimax_steady(leaf, p, depth, maximizing, phase);
}

/// Once the endgame is reached, the engine's evaluation is steady: it keeps the phase,
/// and its scores lie between `-INF` and `INF`.
pub proof fn lemma_evaluator_is_steady_in_endgame(engine_side: Color, history: Seq<u64>)
    ensures
        steady(evaluator(engine_side, history), GamePhases::EndGame),
{
    let leaf = evaluator(engine_side, history);
    assert forall|q: Position|
        (#[trigger] scored(leaf, q, GamePhases::EndGame)).1 == GamePhases::EndGame && -INF
            <= scored(leaf, q, GamePhases::EndGame).0 <= INF by {
        lemma_evaluation_bound(q.spec_facts(), history, engine_side, GamePhases::EndGame);
    }
}

/// The search of the root's moves from number `i` on without a window: as `root_moves`,
/// with every line searched to its end.
pub open spec fn slow_root_moves(
    leaf: Leaf,
    p: Position,
    moves: Seq<Move>,
    i: nat,
    depth: nat,
    found: Found,
) -> Found
    decreases moves.len() - i,
{
    if i >= moves.len() {
        found
    } else {
        let (value, next) = minimax(leaf, p.after(moves[i as int]), depth, false, found.phase);
        if value > found.eval || found.best_move.is_none() {
            slow_root_moves(
                leaf,
                p,
                moves,
                i + 1,
                depth,
                Found { eval: value, best_move: Some(moves[i as int]), phase: next },
            )
        } else {
            slow_root_moves(leaf, p, moves, i + 1, depth, Found { phase: next, ..found })
        }
    }
}

/// The position after each of `moves` that is legal has been played in turn.
pub open spec fn played(p: Position, moves: Seq<Move>) -> Position
    decreases moves.len(),
{
    if moves.len() == 0 {
        p
    } else {
        let q = played(p, moves.drop_last());
        if q.moves().contains(moves.last()) {
            q.after(moves.last())
        } else {
            q
        }
    }
}

/// Whether `leaf` never takes the game back to an earlier phase.
pub open spec fn rising(leaf: Leaf) -> bool {
    forall|q: Position, phase: GamePhases|
        (#[trigger] scored(leaf, q, phase)).1.rank() >= phase.rank()
}

/// A search never takes the game back to an earlier phase, where the scoring of the
/// positions at the ends of its lines does not.
pub proof fn lemma_search_never_regresses(
    leaf: Leaf,
    p: Position,
    depth: nat,
    alpha: int,
    beta: int,
    maximizing: bool,
    phase: GamePhases,
)
    requires
        rising(leaf),
    ensures
        alpha_beta(leaf, p, depth, alpha, beta, maximizing, phase).1.rank() >= phase.rank(),
    decreases depth, 0nat,
{
    if depth == 0 || p.moves().len() == 0 {
        assert(scored(leaf, p, phase).1.rank() >= phase.rank());
    } else {
        lemma_search_moves_never_regress(
            leaf,
            p,
            ordered_moves(p, phase),
            0,
            (depth - 1) as nat,
            alpha,
            beta,
            maximizing,
            if maximizing {
                -INF
            } else {
                INF as int
            },
            phase,
        );
    }
}

proof fn lemma_search_moves_never_regress(
    leaf: Leaf,
    p: Position,
    moves: Seq<Move>,
    i: nat,
    child_depth: nat,
    alpha: int,
    beta: int,
    maximizing: bool,
    best: int,
    phase: GamePhases,
)
    requires
        rising(leaf),
    ensures
        alpha_beta_moves(
            leaf,
            p,
            moves,
            i,
            child_depth,
            alpha,
            beta,
            maximizing,
            best,
            phase,
        ).1.rank() >= phase.rank(),
    decreases child_depth, 1 + moves.len() - i,
{
    if i < moves.len() {
        let child = p.after(moves[i as int]);
        lemma_search_never_regresses(leaf, child, child_depth, alpha, beta, !maximizing, phase);
        let (value, next) = alpha_beta(leaf, child, child_depth, alpha, beta, !maximizing, phase);
        if maximizing {
            if beta > max_of(alpha, value) {
                lemma_search_moves_never_regress(
                    leaf,
                    p,
                    moves,
                    i + 1,
                    child_depth,
                    max_of(alpha, value),
                    beta,
                    maximizing,
                    max_of(best, value),
                    next,
                );
            }
        } else {
            if min_of(beta, value) > alpha {
                lemma_search_moves_never_regress(
                    leaf,
                    p,
                    moves,
                    i + 1,
                    child_depth,
                    alpha,
                    min_of(beta, value),
                    maximizing,
                    min_of(best, value),
                    next,
                );
            }
        }
    }
}

/// A search at the root never takes the game back to an earlier phase.
pub proof fn lemma_root_never_regresses(
    leaf: Leaf,
    p: Position,
    moves: Seq<Move>,
    i: nat,
    depth: nat,
    found: Found,
)
    requires
        rising(leaf),
    ensures
        root_moves(leaf, p, moves, i, depth, found).phase.rank() >= found.phase.rank(),
    decreases moves.len() - i,
{
    if i < moves.len() {
        lemma_search_never_regresses(
            leaf,
            p.after(moves[i as int]),
            depth,
            -INF,
            INF as int,
            false,
            found.phase,
        );
        let (value, next) = alpha_beta(
            leaf,
            p.after(moves[i as int]),
            depth,
            -INF,
            INF as int,
            false,
            found.phase,
        );
        if value > found.eval || found.best_move.is_none() {
            lemma_root_never_regresses(
                leaf,
                p,
                moves,
                i + 1,
                depth,
                Found { eval: value, best_move: Some(moves[i as int]), phase: next },
            );
        } else {
            lemma_root_never_regresses(leaf, p, moves, i + 1, depth, Found { phase: next, ..found });
        }
    }
}

/// Rounds of search never take the game back to an earlier phase.
pub proof fn lemma_deepening_never_regresses(
    leaf: Leaf,
    p: Position,
    rounds: nat,
    best_move: Option<Move>,
    phase: GamePhases,
)
    requires
        rising(leaf),
    ensures
        deepened(leaf, p, rounds, best_move, phase).phase.rank() >= phase.rank(),
    decreases rounds,
{
    if rounds > 0 {
        let before = deepened(leaf, p, (rounds - 1) as nat, best_move, phase);
        lemma_deepening_never_regresses(leaf, p, (rounds - 1) as nat, best_move, phase);
        lemma_root_never_regresses(
            leaf,
            p,
            ordered_moves(p, before.phase),
            0,
            rounds,
            Found { eval: -INF, best_move: before.best_move, phase: before.phase },
        );
    }
}

/// The engine's evaluation never takes the game back to an earlier phase.
pub proof fn lemma_evaluator_is_rising(engine_side: Color, history: Seq<u64>)
    ensures
        rising(evaluator(engine_side, history)),
{
    let leaf = evaluator(engine_side, history);
    assert forall|q: Position, phase: GamePhases|
        (#[trigger] scored(leaf, q, phase)).1.rank() >= phase.rank() by {
        lemma_evaluation_bound(q.spec_facts(), history, engine_side, phase);
    }
}

/// A point in time, as the standard library measures it.
#[verifier::external_type_specification]
#[verifier::external_body]
pub struct ExInstant(std::time::Instant);

/// Compares `std::time::Instant::now` with a deadline. The answer depends on the clock,
/// so nothing is known of it.
#[verifier::external_body]
fn time_is_up(deadline: &std::time::Instant) -> bool {
    std::time::Instant::now() >= *deadline
}

/// The engine: a position with its history, the state of the game, the book of openings
/// and the best move found so far.
pub struct Engine {
    board: Position,
    best_move: Option<Move>,
    side_playing: Color,
    board_history: Vec<u64>,
    game_state: GameState,
    opening_database: OpeningDatabase,
}

/// Why an engine could not be set up.
#[derive(Clone, Copy, Debug, PartialEq, Eq, Structural)]
pub enum EngineError {
    /// The text is not the FEN of a position that can be played.
    InvalidFen,
}

impl Engine {
    /// The position on the engine's board.
    pub closed spec fn position(&self) -> Position {
        self.board
    }

    /// The best move found so far.
    pub closed spec fn best(&self) -> Option<Move> {
        self.best_move
    }

    /// The side that the engine holds to be on the move.
    pub closed spec fn side(&self) -> Color {
        self.side_playing
    }

    /// The hashes of the positions of the game, the current one last.
    pub closed spec fn past(&self) -> Seq<u64> {
        self.board_history@
    }

    /// The state of the game.
    pub closed spec fn state(&self) -> GameState {
        self.game_state
    }

    /// The book of openings.
    pub closed spec fn book(&self) -> OpeningDatabase {
        self.opening_database
    }

    /// Whether the history ends with the current position and the side on the move is the
    /// one that moves in it.
    pub open spec fn wf(&self) -> bool {
        &&& self.past().len() > 0
        &&& self.past().last() == self.position().spec_facts().hash
        &&& self.side() == self.position().spec_facts().side_to_move
    }

    /// How the engine scores the end of a line: for the side that is on the move on its
    /// board, with the history of its game.
    pub open spec fn leaf(&self) -> Leaf {
        evaluator(self.position().spec_facts().side_to_move, self.past())
    }

    /// Whether two engines differ in nothing but the best move and the phase of the game.
    pub open spec fn same_game(&self, other: &Engine) -> bool {
        &&& self.position() == other.position()
        &&& self.side() == other.side()
        &&& self.past() == other.past()
        &&& self.book() == other.book()
        &&& self.state() == (GameState { game_phases: self.state().game_phases, ..other.state() })
    }

    fn on(board: Position) -> (e: Self)
        ensures
            e.position() == board,
            e.best().is_none(),
            e.wf(),
            e.past() == seq![board.spec_facts().hash],
            e.state().game_phases == GamePhases::Opening,
            e.state().last_move.is_none(),
            e.book().tree().entries().len() == 0,
            !e.book().tree().terminal(),
    {
        let mut board_history = Vec::new();
        board_history.push(board.hash());
        Self {
            opening_database: OpeningDatabase::new(),
            board,
            best_move: None,
            side_playing: board.side_to_move(),
            board_history,
            game_state: GameState::new(),
        }
    }

    /// An engine at the start of a game, with an empty book.
    pub fn new() -> (e: Self)
        ensures
            e.position() == Position::spec_start(),
            e.best().is_none(),
            e.wf(),
            e.past() == seq![e.position().spec_facts().hash],
            e.state().game_phases == GamePhases::Opening,
            e.state().last_move.is_none(),
            e.book().tree().entries().len() == 0,
    {
        Engine::on(Position::start())
    }

    /// An engine on the position of a FEN text, with an empty book.
    pub fn from_fen(fen: &str) -> (r: Result<Self, EngineError>)
        ensures
            match (r, Position::spec_from_fen(fen@)) {
                (Ok(e), Some(p)) => e.position() == p && e.best().is_none() && e.wf() && e.past()
                    == seq![p.spec_facts().hash] && e.state().game_phases == GamePhases::Opening
                    && e.state().last_move.is_none() && e.book().tree().entries().len() == 0,
                (Err(error), None) => error == EngineError::InvalidFen,
                _ => false,
            },
    {
        match Position::from_fen(fen) {
            Some(board) => Ok(Engine::on(board)),
            None => Err(EngineError::InvalidFen),
        }
    }

    /// The position on the engine's board.
    pub fn board(&self) -> (r: &Position)
        ensures
            *r == self.position(),
    {
        &self.board
    }

    /// The hashes of the positions of the game, the current one last.
    pub fn history(&self) -> (r: &[u64])
        ensures
            r@ == self.past(),
    {
        self.board_history.as_slice()
    }

    /// The state of the game.
    pub fn game_state(&self) -> (r: &GameState)
        ensures
            *r == self.state(),
    {
        &self.game_state
    }

    /// The book of openings, at the place that the game has reached in it.
    pub fn opening_database(&self) -> (r: &OpeningDatabase)
        ensures
            *r == self.book(),
    {
        &self.opening_database
    }

    /// Gives the engine a book of openings.
    pub fn add_opening_db(&mut self, op_db: OpeningDatabase)
        ensures
            final(self).book() == op_db,
            final(self).position() == old(self).position(),
            final(self).best() == old(self).best(),
            final(self).side() == old(self).side(),
            final(self).past() == old(self).past(),
            final(self).state() == old(self).state(),
    {
        self.opening_database = op_db;
    }

    fn gen_legal_moves(&self, board: &Position) -> (moves: Vec<Move>)
        ensures
            moves@ == board.moves(),
    {
        board.legal_moves()
    }

    fn class_of(&self, board: &Position, m: Move, endgame: bool) -> (class: u8)
        requires
            board.moves().contains(m),
        ensures
            class == move_class(*board, m, endgame),
    {
        if endgame && board.make_move(m).in_check() {
            0
        } else if board.is_occupied(m.to) {
            1
        } else if m.promotion.is_some() {
            2
        } else {
            3
        }
    }

    /// Puts moves into the order of search: checks first in the endgame, then captures,
    /// then promotions, then the rest, each group in the order it had.
    fn sort_moves_in_place(&self, board: &Position, moves: &mut Vec<Move>, game_state: &GameState)
        requires
            forall|i: int| 0 <= i < old(moves)@.len() ==> board.moves().contains(old(moves)@[i]),
        ensures
            final(moves)@ == ordered(old(moves)@, *board, game_state.game_phases.spec_is_end()),
    {
        let endgame = game_state.game_phases().is_end();
        let ghost given = moves@;
        let n = moves.len();
        let mut classes: Vec<u8> = Vec::new();
        let mut i: usize = 0;
        while i < n
            invariant
                i <= n,
                n == moves@.len(),
                moves@ == given,
                classes@.len() == i,
                forall|j: int| 0 <= j < given.len() ==> board.moves().contains(given[j]),
                forall|j: int| 0 <= j < i ==> classes@[j] == move_class(*board, given[j], endgame),
            decreases n - i,
        {
            let class = self.class_of(board, moves[i], endgame);
            classes.push(class);
            i += 1;
        }
        let mut sorted: Vec<Move> = Vec::new();
        let mut class: u8 = 0;
        while class < 4
            invariant
                class <= 4,
                n == moves@.len(),
                moves@ == given,
                classes@.len() == n,
                forall|j: int| 0 <= j < n ==> classes@[j] == move_class(*board, given[j], endgame),
                sorted@ == buckets_below(given, *board, endgame, class as int),
            decreases 4 - class,
        {
            let ghost below = sorted@;
            let mut k: usize = 0;
            while k < n
                invariant
                    k <= n,
                    class < 4,
                    n == moves@.len(),
                    moves@ == given,
                    classes@.len() == n,
                    forall|j: int|
                        0 <= j < n ==> classes@[j] == move_class(*board, given[j], endgame),
                    sorted@ == below + bucket(given.take(k as int), *board, endgame, class as int),
                decreases n - k,
            {
                assert(given.take(k + 1).drop_last() =~= given.take(k as int));
                if classes[k] == class {
                    sorted.push(moves[k]);
                }
                k += 1;
            }
            assert(given.take(n as int) =~= given);
            class += 1;
        }
        *moves = sorted;
    }

    /// The legal moves of a position in the order in which the search takes them.
    pub fn order_moves(&self, board: &Position, game_state: &GameState) -> (moves: Vec<Move>)
        ensures
            moves@ == ordered_moves(*board, game_state.game_phases),
    {
        let mut moves = self.gen_legal_moves(board);
        self.sort_moves_in_place(board, &mut moves, game_state);
        moves
    }

    /// The best move found so far.
    pub fn get_best_mov(&self) -> (r: Option<Move>)
        ensures
            r == self.best(),
    {
        self.best_move
    }

    /// Scores a position for the side that is on the move on the engine's board, and moves
    /// the phase of the game on.
    pub fn eval(&self, board: &Position, game_state: &mut GameState) -> (score: isize)
        ensures
            score == (self.leaf())(*board, old(game_state).game_phases).0,
            *final(game_state) == (GameState {
                game_phases: (self.leaf())(*board, old(game_state).game_phases).1,
                ..*old(game_state)
            }),
            -INF <= score <= INF,
    {
        let root = self.board.facts();
        let facts = board.facts();
        let mut eval = Evaluation::new(&root, *game_state);
        let score = eval.eval_board(&facts, self.board_history.as_slice());
        *game_state = eval.game_state;
        score
    }

    /// Searches a position to a depth within a window, the two sides taking turns to
    /// keep the largest and the smallest value of their moves.
    pub fn search_alpha_beta(
        &self,
        depth: usize,
        board: &Position,
        alpha: isize,
        beta: isize,
        is_maximizing: bool,
        game_state: &mut GameState,
    ) -> (value: isize)
        ensures
            value == alpha_beta(
                self.leaf(),
                *board,
                depth as nat,
                alpha as int,
                beta as int,
                is_maximizing,
                old(game_state).game_phases,
            ).0,
            *final(game_state) == (GameState {
                game_phases: alpha_beta(
                    self.leaf(),
                    *board,
                    depth as nat,
                    alpha as int,
                    beta as int,
                    is_maximizing,
                    old(game_state).game_phases,
                ).1,
                ..*old(game_state)
            }),
            -INF <= value <= INF,
        decreases depth,
    {
        if depth == 0 {
            return self.eval(board, game_state);
        }
        let mut best_eval = if is_maximizing {
            -INF
        } else {
            INF
        };
        let mut moves = self.gen_legal_moves(board);
        if moves.len() == 0 {
            return self.eval(board, game_state);
        }
        self.sort_moves_in_place(board, &mut moves, game_state);
        let ghost leaf = self.leaf();
        let ghost order = ordered_moves(*board, old(game_state).game_phases);
        let ghost target = alpha_beta(
            leaf,
            *board,
            depth as nat,
            alpha as int,
            beta as int,
            is_maximizing,
            old(game_state).game_phases,
        );
        let mut alpha = alpha;
        let mut beta = beta;
        let mut i: usize = 0;
        while i < moves.len()
            invariant_except_break
                target == alpha_beta_moves(
                    leaf,
                    *board,
                    order,
                    i as nat,
                    (depth - 1) as nat,
                    alpha as int,
                    beta as int,
                    is_maximizing,
                    best_eval as int,
                    game_state.game_phases,
                ),
            invariant
                i <= moves@.len(),
                depth > 0,
                moves@ == order,
                leaf == self.leaf(),
                order == ordered(board.moves(), *board, old(game_state).game_phases.spec_is_end()),
                -INF <= best_eval <= INF,
                *game_state == (GameState {
                    game_phases: game_state.game_phases,
                    ..*old(game_state)
                }),
            ensures
                target == (best_eval as int, game_state.game_phases),
            decreases moves@.len() - i,
        {
            let m = moves[i];
            proof {
                lemma_ordered_members(
                    board.moves(),
                    *board,
                    old(game_state).game_phases.spec_is_end(),
                    m,
                );
            }
            let next_board = board.make_move(m);
            let eval = self.search_alpha_beta(
                depth - 1,
                &next_board,
                alpha,
                beta,
                !is_maximizing,
                game_state,
            );
            if is_maximizing {
                if eval > best_eval {
                    best_eval = eval;
                }
                if eval > alpha {
                    alpha = eval;
                }
                if beta <= alpha {
                    break ;
                }
            } else {
                if eval < best_eval {
                    best_eval = eval;
                }
                if eval < beta {
                    beta = eval;
                }
                if beta <= alpha {
                    break ;
                }
            }
            i += 1;
        }
        best_eval
    }

    /// Searches the moves of the engine's position to a depth and keeps the best of them.
    /// The phase of the game moves on with the positions that the search looks at.
    pub fn search(&mut self, depth: usize) -> (best_eval: isize)
        ensures
            best_eval == root_search(
                old(self).leaf(),
                old(self).position(),
                depth as nat,
                old(self).best(),
                old(self).state().game_phases,
            ).eval,
            final(self).best() == root_search(
                old(self).leaf(),
                old(self).position(),
                depth as nat,
                old(self).best(),
                old(self).state().game_phases,
            ).best_move,
            final(self).state().game_phases == root_search(
                old(self).leaf(),
                old(self).position(),
                depth as nat,
                old(self).best(),
                old(self).state().game_phases,
            ).phase,
            final(self).state().game_phases.rank() >= old(self).state().game_phases.rank(),
            final(self).same_game(old(self)),
            -INF <= best_eval <= INF,
            final(self).best() matches Some(m) ==> old(self).best() == Some(m) || old(self).position().moves().contains(m),
            old(self).position().moves().len() > 0 ==> final(self).best().is_some(),
    {
        proof {
            lemma_evaluator_is_rising(self.position().spec_facts().side_to_move, self.past());
            lemma_root_never_regresses(
                self.leaf(),
                self.position(),
                ordered_moves(self.position(), self.state().game_phases),
                0,
                depth as nat,
                Found { eval: -INF, best_move: self.best(), phase: self.state().game_phases },
            );
        }
        let mut game_state = self.game_state;
        let mut legal_moves = self.gen_legal_moves(&self.board);
        self.sort_moves_in_place(&self.board, &mut legal_moves, &game_state);
        let ghost leaf = self.leaf();
        let ghost order = ordered_moves(self.position(), self.state().game_phases);
        let ghost target = root_search(
            leaf,
            self.position(),
            depth as nat,
            self.best(),
            self.state().game_phases,
        );
        proof {
            lemma_ordered_len(
                self.position().moves(),
                self.position(),
                self.state().game_phases.spec_is_end(),
            );
        }
        let mut best_eval = -INF;
        let mut best_move = self.best_move;
        let mut i: usize = 0;
        while i < legal_moves.len()
            invariant
                i <= legal_moves@.len(),
                legal_moves@ == order,
                order == ordered(
                    self.position().moves(),
                    self.position(),
                    old(self).state().game_phases.spec_is_end(),
                ),
                *self == *old(self),
                leaf == self.leaf(),
                -INF <= best_eval <= INF,
                game_state == (GameState {
                    game_phases: game_state.game_phases,
                    ..old(self).state()
                }),
                target == root_moves(
                    leaf,
                    self.position(),
                    order,
                    i as nat,
                    depth as nat,
                    Found {
                        eval: best_eval as int,
                        best_move,
                        phase: game_state.game_phases,
                    },
                ),
                best_move matches Some(m) ==> old(self).best() == Some(m)
                    || self.position().moves().contains(m),
                i > 0 ==> best_move.is_some(),
            decreases legal_moves@.len() - i,
        {
            let m = legal_moves[i];
            proof {
                lemma_ordered_members(
                    self.position().moves(),
                    self.position(),
                    old(self).state().game_phases.spec_is_end(),
                    m,
                );
            }
            let next_board = self.board.make_move(m);
            let next_eval = self.search_alpha_beta(
                depth,
                &next_board,
                -INF,
                INF,
                false,
                &mut game_state,
            );
            if next_eval > best_eval || best_move.is_none() {
                best_eval = next_eval;
                best_move = Some(m);
            }
            i += 1;
        }
        self.best_move = best_move;
        self.game_state = game_state;
        best_eval
    }
}

/// What the book answers at the start of a search: whether it gives a move, the best
/// move and the book after the answer, and whether the game leaves the opening.
pub struct BookAnswer {
    pub found: bool,
    pub best_move: Option<Move>,
    pub tree: Node,
    pub leaves_opening: bool,
}

/// The answer of the book `tree` in position `p` after `last_move`. The book first follows
/// the last move of the game, if there is one; where it cannot, the opening is over. It
/// then gives the move that it learnt first and follows it. A move that is not legal in
/// the position is not given: the opening is over then, too.
pub open spec fn book_answer(
    tree: Node,
    last_move: Option<Move>,
    best_move: Option<Move>,
    p: Position,
) -> BookAnswer {
    let here = match last_move {
        Some(last) => tree.child(last),
        None => Some(tree),
    };
    match here {
        None => BookAnswer { found: false, best_move, tree, leaves_opening: true },
        Some(t) => if t.entries().len() == 0 {
            BookAnswer { found: false, best_move, tree: t, leaves_opening: false }
        } else if p.moves().contains(t.entries()[0].0) {
            BookAnswer {
                found: true,
                best_move: Some(t.entries()[0].0),
                tree: t.child(t.entries()[0].0).unwrap(),
                leaves_opening: false,
            }
        } else {
            BookAnswer { found: false, best_move, tree: t, leaves_opening: true }
        },
    }
}

/// The move that a search stopped after `rounds` rounds has chosen. Without a round it
/// is the first legal move, with a score of 0. With rounds it is what the deepest of
/// them has found.
pub open spec fn chosen(leaf: Leaf, p: Position, rounds: nat, phase: GamePhases) -> Found {
    if rounds == 0 {
        Found {
            eval: 0,
            best_move: if p.moves().len() > 0 {
                Some(p.moves()[0])
            } else {
                None
            },
            phase,
        }
    } else {
        deepened(leaf, p, rounds, None, phase)
    }
}

/// What rounds of search find is a legal move, and they find one where there is one.
pub proof fn lemma_deepened_is_legal(
    leaf: Leaf,
    p: Position,
    rounds: nat,
    best_move: Option<Move>,
    phase: GamePhases,
)
    ensures
        deepened(leaf, p, rounds, best_move, phase).best_move matches Some(m) ==> best_move
            == Some(m) || p.moves().contains(m),
        rounds > 0 && p.moves().len() > 0 ==> deepened(
            leaf,
            p,
            rounds,
            best_move,
            phase,
        ).best_move.is_some(),
    decreases rounds,
{
    if rounds > 0 {
        let before = deepened(leaf, p, (rounds - 1) as nat, best_move, phase);
        lemma_deepened_is_legal(leaf, p, (rounds - 1) as nat, best_move, phase);
        lemma_root_moves_is_legal(
            leaf,
            p,
            before.phase.spec_is_end(),
            0,
            rounds,
            Found { eval: -INF, best_move: before.best_move, phase: before.phase },
        );
        lemma_ordered_len(p.moves(), p, before.phase.spec_is_end());
    }
}

proof fn lemma_root_moves_is_legal(
    leaf: Leaf,
    p: Position,
    endgame: bool,
    i: nat,
    depth: nat,
    found: Found,
)
    ensures
        root_moves(leaf, p, ordered(p.moves(), p, endgame), i, depth, found).best_move matches Some(
            m,
        ) ==> found.best_move == Some(m) || p.moves().contains(m),
        i < ordered(p.moves(), p, endgame).len() || found.best_move.is_some() ==> root_moves(
            leaf,
            p,
            ordered(p.moves(), p, endgame),
            i,
            depth,
            found,
        ).best_move.is_some(),
    decreases ordered(p.moves(), p, endgame).len() - i,
{
    let moves = ordered(p.moves(), p, endgame);
    if i < moves.len() {
        lemma_ordered_members(p.moves(), p, endgame, moves[i as int]);
        let (value, next) = alpha_beta(
            leaf,
            p.after(moves[i as int]),
            depth,
            -INF,
            INF as int,
            false,
            found.phase,
        );
        if value > found.eval || found.best_move.is_none() {
            lemma_root_moves_is_legal(
                leaf,
                p,
                endgame,
                i + 1,
                depth,
                Found { eval: value, best_move: Some(moves[i as int]), phase: next },
            );
        } else {
            lemma_root_moves_is_legal(
                leaf,
                p,
                endgame,
                i + 1,
                depth,
                Found { phase: next, ..found },
            );
        }
    }
}

/// An engine is read from the FEN of its position.
impl std::str::FromStr for Engine {
    type Err = EngineError;

    fn from_str(s: &str) -> (r: Result<Self, EngineError>)
        ensures
            match (r, Position::spec_from_fen(s@)) {
                (Ok(e), Some(p)) => e.position() == p && e.best().is_none() && e.wf() && e.past()
                    == seq![p.spec_facts().hash] && e.state().game_phases == GamePhases::Opening
                    && e.state().last_move.is_none() && e.book().tree().entries().len() == 0,
                (Err(error), None) => error == EngineError::InvalidFen,
                _ => false,
            },
    {
        Engine::from_fen(s)
    }
}

impl Engine {
    /// Plays a move on the engine's board, if it is legal there, and says whether it was.
    /// The hash of the new position goes to the end of the history.
    pub fn play_move(&mut self, mov: Move) -> (played: bool)
        ensures
            played == old(self).position().moves().contains(mov),
            played ==> {
                &&& final(self).position() == old(self).position().after(mov)
                &&& final(self).past() == old(self).past().push(
                    final(self).position().spec_facts().hash,
                )
                &&& final(self).state() == (GameState {
                    last_move: Some(mov),
                    ..old(self).state()
                })
                &&& final(self).wf()
                &&& final(self).best() == old(self).best()
                &&& final(self).book() == old(self).book()
            },
            !played ==> *final(self) == *old(self),
    {
        match self.board.try_move(mov) {
            Some(board) => {
                self.board = board;
                self.board_history.push(board.hash());
                self.game_state.set_lastmove(mov);
                self.side_playing = self.board.side_to_move();
                true
            },
            None => false,
        }
    }

    /// Plays the best move found so far, if there is one and it is legal.
    pub fn play_best_move(&mut self) -> (played: bool)
        ensures
            played == match old(self).best() {
                Some(m) => old(self).position().moves().contains(m),
                None => false,
            },
            played ==> {
                &&& final(self).position() == old(self).position().after(old(self).best().unwrap())
                &&& final(self).past() == old(self).past().push(
                    final(self).position().spec_facts().hash,
                )
                &&& final(self).wf()
            },
            !played ==> *final(self) == *old(self),
    {
        match self.best_move {
            Some(m) => self.play_move(m),
            None => false,
        }
    }

    /// Asks the book for a move and says whether it gave one.
    fn get_best_move_from_opening_database(&mut self) -> (found: bool)
        ensures
            found == book_answer(
                old(self).book().tree(),
                old(self).state().last_move,
                old(self).best(),
                old(self).position(),
            ).found,
            final(self).best() == book_answer(
                old(self).book().tree(),
                old(self).state().last_move,
                old(self).best(),
                old(self).position(),
            ).best_move,
            final(self).book().tree() == book_answer(
                old(self).book().tree(),
                old(self).state().last_move,
                old(self).best(),
                old(self).position(),
            ).tree,
            final(self).state() == (GameState {
                game_phases: if book_answer(
                    old(self).book().tree(),
                    old(self).state().last_move,
                    old(self).best(),
                    old(self).position(),
                ).leaves_opening {
                    old(self).state().game_phases.left_opening()
                } else {
                    old(self).state().game_phases
                },
                ..old(self).state()
            }),
            final(self).position() == old(self).position(),
            final(self).past() == old(self).past(),
            final(self).side() == old(self).side(),
    {
        if let Some(last) = self.game_state.last_move {
            if !self.opening_database.choose_opening_move(last) {
                self.game_state.set_gamephases_middlegame();
                return false;
            }
        }
        match self.opening_database.suggest() {
            Some(x) => {
                let moves = self.board.legal_moves();
                if contains_move(&moves, x) {
                    self.best_move = Some(x);
                    self.opening_database.choose_opening_move(x);
                    true
                } else {
                    self.game_state.set_gamephases_middlegame();
                    false
                }
            },
            None => false,
        }
    }

    /// Searches to the depths 1, 2, ... up to `max_depth`, each search starting from what
    /// the one before has found, and returns the best value that any of them has found.
    pub fn search_to_depth(&mut self, max_depth: usize) -> (best_eval: isize)
        ensures
            best_eval == deepened(
                old(self).leaf(),
                old(self).position(),
                max_depth as nat,
                old(self).best(),
                old(self).state().game_phases,
            ).eval,
            final(self).best() == deepened(
                old(self).leaf(),
                old(self).position(),
                max_depth as nat,
                old(self).best(),
                old(self).state().game_phases,
            ).best_move,
            final(self).state().game_phases == deepened(
                old(self).leaf(),
                old(self).position(),
                max_depth as nat,
                old(self).best(),
                old(self).state().game_phases,
            ).phase,
            final(self).same_game(old(self)),
            final(self).state().game_phases.rank() >= old(self).state().game_phases.rank(),
    {
        proof {
            lemma_evaluator_is_rising(self.position().spec_facts().side_to_move, self.past());
            lemma_deepening_never_regresses(
                self.leaf(),
                self.position(),
                max_depth as nat,
                self.best(),
                self.state().game_phases,
            );
        }
        let mut best_eval = -INF;
        let mut depth: usize = 0;
        while depth < max_depth
            invariant
                depth <= max_depth,
                self.same_game(old(self)),
                -INF <= best_eval <= INF,
                self.leaf() == old(self).leaf(),
                deepened(
                    old(self).leaf(),
                    old(self).position(),
                    depth as nat,
                    old(self).best(),
                    old(self).state().game_phases,
                ) == (Found {
                    eval: best_eval as int,
                    best_move: self.best(),
                    phase: self.state().game_phases,
                }),
            decreases max_depth - depth,
        {
            depth += 1;
            let eval = self.search(depth);
            if eval > best_eval {
                best_eval = eval;
            }
        }
        best_eval
    }

    /// Whether a search asks the book: the game is in the opening and the book has more
    /// to say.
    pub open spec fn asks_book(&self) -> bool {
        self.state().game_phases == GamePhases::Opening && !(self.book().tree().terminal()
            || self.book().tree().entries().len() == 0)
    }

    /// What the book answers to a search that asks it.
    pub open spec fn answer(&self) -> BookAnswer {
        book_answer(self.book().tree(), self.state().last_move, None, self.position())
    }

    /// The phase of the game when the book has not given a move.
    pub open spec fn phase_after_book(&self) -> GamePhases {
        if self.asks_book() && self.answer().leaves_opening {
            self.state().game_phases.left_opening()
        } else {
            self.state().game_phases
        }
    }

    /// What a search that stops after `rounds` rounds chooses when the book has not given
    /// a move.
    pub open spec fn choice(&self, rounds: nat) -> Found {
        chosen(self.leaf(), self.position(), rounds, self.phase_after_book())
    }

    /// Chooses a move before a deadline. The book is asked first, while the game is in
    /// the opening. Otherwise the position is searched to the depths 1, 2, ... for as long
    /// as the deadline has not passed when a round starts. The move chosen is a legal
    /// move, and there is one wherever the position has a legal move.
    pub fn search_iterative_deeping(&mut self, search_cancel_time: std::time::Instant) -> (best_eval:
        isize)
        ensures
            final(self).position() == old(self).position(),
            final(self).past() == old(self).past(),
            final(self).side() == old(self).side(),
            final(self).best() matches Some(m) ==> old(self).position().moves().contains(m),
            old(self).position().moves().len() > 0 ==> final(self).best().is_some(),
            final(self).state().game_phases.rank() >= old(self).state().game_phases.rank(),
            old(self).asks_book() && old(self).answer().found ==> {
                &&& best_eval == 0
                &&& final(self).best() == old(self).answer().best_move
                &&& final(self).book().tree() == old(self).answer().tree
                &&& final(self).state() == old(self).state()
            },
            !(old(self).asks_book() && old(self).answer().found) ==> {
                &&& final(self).book().tree() == if old(self).asks_book() {
                    old(self).answer().tree
                } else {
                    old(self).book().tree()
                }
                &&& exists|rounds: nat|
                    {
                        &&& best_eval == (#[trigger] old(self).choice(rounds)).eval
                        &&& final(self).best() == old(self).choice(rounds).best_move
                        &&& final(self).state() == (GameState {
                            game_phases: old(self).choice(rounds).phase,
                            ..old(self).state()
                        })
                    }
            },
    {
        self.best_move = None;
        if !self.opening_database.is_exhausted() && self.game_state.game_phases
            == GamePhases::Opening && self.get_best_move_from_opening_database() {
            return 0;
        }
        let ghost phase = self.state().game_phases;
        let ghost start = *self;
        let mut best_eval = -INF;
        let mut depth: usize = 0;
        while depth < usize::MAX
            invariant
                self.same_game(&start),
                -INF <= best_eval <= INF,
                self.state().game_phases.rank() >= old(self).state().game_phases.rank(),
                self.leaf() == old(self).leaf(),
                self.position() == old(self).position(),
                start.best().is_none(),
                start.state().game_phases == phase,
                deepened(old(self).leaf(), old(self).position(), depth as nat, None, phase) == (
                Found {
                    eval: best_eval as int,
                    best_move: self.best(),
                    phase: self.state().game_phases,
                }),
            decreases usize::MAX - depth,
        {
            if time_is_up(&search_cancel_time) {
                break ;
            }
            depth += 1;
            let eval = self.search(depth);
            if eval > best_eval {
                best_eval = eval;
            }
        }
        proof {
            lemma_deepened_is_legal(
                old(self).leaf(),
                old(self).position(),
                depth as nat,
                None,
                phase,
            );
        }
        if depth == 0 {
            let moves = self.board.legal_moves();
            if moves.len() > 0 {
                self.best_move = Some(moves[0]);
            }
            best_eval = 0;
        }
        assert(best_eval == old(self).choice(depth as nat).eval);
        best_eval
    }
}

impl Engine {
    /// Chooses a move before a deadline, as `search_iterative_deeping` does, and returns
    /// it: a legal move of the engine's position, or nothing where it has none.
    pub fn choose_move(&mut self, deadline: std::time::Instant) -> (chosen: Option<Move>)
        ensures
            chosen == final(self).best(),
            chosen matches Some(m) ==> old(self).position().moves().contains(m),
            old(self).position().moves().len() > 0 ==> chosen.is_some(),
            final(self).position() == old(self).position(),
            final(self).past() == old(self).past(),
            final(self).side() == old(self).side(),
    {
        self.search_iterative_deeping(deadline);
        self.best_move
    }

    /// Plays each of `moves` that is legal when its turn comes.
    pub fn play_moves(&mut self, moves: Vec<Move>)
        ensures
            final(self).position() == played(old(self).position(), moves@),
            old(self).wf() ==> final(self).wf(),
            final(self).best() == old(self).best(),
            final(self).book() == old(self).book(),
    {
        let mut i: usize = 0;
        while i < moves.len()
            invariant
                i <= moves@.len(),
                self.position() == played(old(self).position(), moves@.take(i as int)),
                old(self).wf() ==> self.wf(),
                self.best() == old(self).best(),
                self.book() == old(self).book(),
            decreases moves@.len() - i,
        {
            assert(moves@.take(i + 1).drop_last() =~= moves@.take(i as int));
            self.play_move(moves[i]);
            i += 1;
        }
        assert(moves@.take(moves@.len() as int) =~= moves@);
    }

    /// Searches a position to a depth along every line, the two sides taking turns to
    /// keep the largest and the smallest value of their moves.
    pub fn search_minimax(
        &self,
        depth: usize,
        board: &Position,
        is_maximizing: bool,
        game_state: &mut GameState,
    ) -> (value: isize)
        ensures
            value == minimax(
                self.leaf(),
                *board,
                depth as nat,
                is_maximizing,
                old(game_state).game_phases,
            ).0,
            *final(game_state) == (GameState {
                game_phases: minimax(
                    self.leaf(),
                    *board,
                    depth as nat,
                    is_maximizing,
                    old(game_state).game_phases,
                ).1,
                ..*old(game_state)
            }),
            -INF <= value <= INF,
        decreases depth,
    {
        if depth == 0 {
            return self.eval(board, game_state);
        }
        let mut best_eval = if is_maximizing {
            -INF
        } else {
            INF
        };
        let moves = self.gen_legal_moves(board);
        if moves.len() == 0 {
            return self.eval(board, game_state);
        }
        let ghost leaf = self.leaf();
        let ghost target = minimax(
            leaf,
            *board,
            depth as nat,
            is_maximizing,
            old(game_state).game_phases,
        );
        let mut i: usize = 0;
        while i < moves.len()
            invariant
                i <= moves@.len(),
                depth > 0,
                moves@ == board.moves(),
                leaf == self.leaf(),
                -INF <= best_eval <= INF,
                *game_state == (GameState {
                    game_phases: game_state.game_phases,
                    ..*old(game_state)
                }),
                target == minimax_moves(
                    leaf,
                    *board,
                    moves@,
                    i as nat,
                    (depth - 1) as nat,
                    is_maximizing,
                    best_eval as int,
                    game_state.game_phases,
                ),
            decreases moves@.len() - i,
        {
            let next_board = board.make_move(moves[i]);
            let next_eval = self.search_minimax(depth - 1, &next_board, !is_maximizing, game_state);
            if is_maximizing {
                if next_eval > best_eval {
                    best_eval = next_eval;
                }
            } else {
                if next_eval < best_eval {
                    best_eval = next_eval;
                }
            }
            i += 1;
        }
        best_eval
    }

    /// Searches the moves of the engine's position to a depth along every line and keeps
    /// the best of them. The moves are taken in the order in which they are generated.
    pub fn search_slow(&mut self, depth: usize) -> (best_eval: isize)
        ensures
            (Found {
                eval: best_eval as int,
                best_move: final(self).best(),
                phase: final(self).state().game_phases,
            }) == slow_root_moves(
                old(self).leaf(),
                old(self).position(),
                old(self).position().moves(),
                0,
                depth as nat,
                Found {
                    eval: -INF,
                    best_move: old(self).best(),
                    phase: old(self).state().game_phases,
                },
            ),
            final(self).same_game(old(self)),
            -INF <= best_eval <= INF,
    {
        let mut game_state = self.game_state;
        let legal_moves = self.gen_legal_moves(&self.board);
        let ghost leaf = self.leaf();
        let ghost target = slow_root_moves(
            leaf,
            self.position(),
            self.position().moves(),
            0,
            depth as nat,
            Found { eval: -INF, best_move: self.best(), phase: self.state().game_phases },
        );
        let mut best_eval = -INF;
        let mut best_move = self.best_move;
        let mut i: usize = 0;
        while i < legal_moves.len()
            invariant
                i <= legal_moves@.len(),
                legal_moves@ == self.position().moves(),
                *self == *old(self),
                leaf == self.leaf(),
                -INF <= best_eval <= INF,
                game_state == (GameState {
                    game_phases: game_state.game_phases,
                    ..old(self).state()
                }),
                target == slow_root_moves(
                    leaf,
                    self.position(),
                    legal_moves@,
                    i as nat,
                    depth as nat,
                    Found {
                        eval: best_eval as int,
                        best_move,
                        phase: game_state.game_phases,
                    },
                ),
            decreases legal_moves@.len() - i,
        {
            let m = legal_moves[i];
            let next_board = self.board.make_move(m);
            let next_eval = self.search_minimax(depth, &next_board, false, &mut game_state);
            if next_eval > best_eval || best_move.is_none() {
                best_eval = next_eval;
                best_move = Some(m);
            }
            i += 1;
        }
        self.best_move = best_move;
        self.game_state = game_state;
        best_eval
    }
}

} // verus!
