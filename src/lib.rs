//! Turn-based movement arbitration and script-event bookkeeping for a tile-grid game.
//!
//! - `action`: per-entity input state, direction resolution and the move cooldown.
//! - `level`: positions, cell states and the layered occupancy grid.
//! - `arbiter`: resolving move requests against a grid and counting turns.
//! - `registry`: registration ids, event handlers and variable watchers of the
//!   scripting session.
//! - `vars`: script variables, written only after their watchers were told.
//! - `layout`: grid dimensions and layer indices from level content.
//! - `duration`: durations given as a number of seconds in single precision.
//! - `types`: small shared value types.

pub mod action;
pub mod arbiter;
pub mod duration;
pub mod layout;
pub mod level;
pub mod registry;
pub mod types;
pub mod vars;
