//! A classical alpha-beta chess engine core: static evaluation, move ordering,
//! search, an opening book and the text protocol that drives them.

pub mod bits;
pub mod board;
pub mod consts;
pub mod engine;
pub mod eval;
pub mod evaluation_value;
pub mod game_phase;
pub mod game_state;
pub mod material;
pub mod opening;
pub mod pieces;
pub mod text;
pub mod trie;
pub mod uci;

pub use board::{BoardFacts, PieceFromColor, Position};
pub use consts::{
    black_table, piece_value, reverse, square_bonus, white_table, INF, INITIAL_BOARD_VALUE,
    KING_EDGE, KING_ENDGAME_WHITE, KING_MIDDLE_WHITE,
};
pub use engine::{Engine, EngineError};
pub use eval::{EvalFlags, Evaluation};
pub use evaluation_value::EvaluationValue;
pub use game_phase::GamePhases;
pub use game_state::GameState;
pub use material::{BoardMaterial, MaterialSumExt};
pub use opening::{OpeningDatabase, ParseError, PgnParser};
pub use pieces::{BoardStatus, Color, Move, Piece};
pub use trie::{Node, Trie};
pub use uci::{CommandKind, Reply, UCI};
