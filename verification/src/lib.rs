//! Decision engine for a turn-based, grid-based multi-agent survival game.
//!
//! Given a snapshot of the board (grid size, every agent's body, available
//! food), the planner chooses which of the four cardinal moves the controlled
//! agent should take next, by enumerating joint opponent moves, simulating a
//! pure state transition (growth, out-of-bounds eviction, collision
//! resolution) and averaging outcomes over a depth-bounded lookahead.

pub mod api_types;
pub mod error;
pub mod game_state;
pub mod planner;
