//! Rules engine and adversarial search for a two-player game of stacked
//! pieces on an 8x8 board.
//!
//! Each side has four pieces, three high at the start. A piece moves along
//! ranks, files and diagonals as far as it is tall, takes a step of height
//! off an enemy piece that it meets, and scores its height when it leaves
//! the board past the far rank. The side with more points wins.
//!
//! The modules, from the ground up: `geometry` has the squares, `board` the
//! pieces, the moves and the outcome, `moves` the generation of legal moves
//! and `rules` the rules that it follows, `encoding` the compact form of a
//! board, `protocol` the moves as text. `rank`, `fraction` and `heuristic`
//! have the values of evaluations; `go_fast`, `naive` and `genius` are
//! evaluations; `minmax` and `random` are players, `game` sets two players
//! against each other, and `clock` and `chance` are what the players have
//! of the machine.

pub mod board;
pub mod chance;
pub mod clock;
pub mod encoding;
pub mod fraction;
pub mod game;
pub mod genius;
pub mod geometry;
pub mod go_fast;
pub mod heuristic;
pub mod minmax;
pub mod moves;
pub mod naive;
pub mod protocol;
pub mod random;
pub mod rank;
pub mod rules;

pub use board::{Board, Height, Move, Piece, Winner};
pub use fraction::Fraction;
pub use game::{Game, GamePlayer};
pub use genius::GeniusHeuristic;
pub use geometry::{Color, Position, PositionOffset};
pub use go_fast::{GoFastHeuristic, GoFasterHeuristic};
pub use heuristic::{HResult, Heuristic, HeuristicPlayer};
pub use minmax::MinMaxPlayer;
pub use moves::LegalMoveIterator;
pub use naive::NaiveHeuristic;
pub use protocol::{
    deserialize_move, serialize_move, MoveParseError, ProtocolError, StdioGamePlayer,
};
pub use random::{ForwardRandomPlayer, RandomPlayer};
pub use rank::Ranked;
