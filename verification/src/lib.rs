//! A cooperative, single-threaded script runtime for a 2D overworld game.
//!
//! Game-logic scripts (room intros, dialogues, cut-scenes) suspend themselves
//! at semantic points — "wait until event X happens" — and resume exactly once
//! when that event is raised, without blocking the game loop and without
//! operating-system threads.

pub mod args;
pub mod codegen;
pub mod common;
pub mod default_runtime;
pub mod dialog;
pub mod game_context;
pub mod geometry;
pub mod handle;
pub mod pass_map;
pub mod resources;
pub mod script;

