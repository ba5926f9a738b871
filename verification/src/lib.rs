//! A tray-menu launcher for web pages and shell commands: its configuration,
//! command evaluation, menu model, state and decisions, verified with Verus.

pub mod text;
pub mod errors;
pub mod config;
pub mod cmd;
pub mod menu;
pub mod state;
pub mod process;
pub mod events;
pub mod tray;
