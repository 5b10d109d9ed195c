//! The logic of an editor's agent panel: an external coding agent is launched, talked to and
//! shown, and what it asks for is guarded.

pub mod assoc;
pub mod command;
pub mod config;
pub mod events;
pub mod fs;
pub mod item;
pub mod keypress;
pub mod manager;
pub mod mapping;
pub mod panel;
pub mod paths;
pub mod permission;
pub mod process;
pub mod prompt;
pub mod session;
pub mod state;
pub mod text;
