//! The logic of a small terminal session keeper: naming sessions, keeping
//! their output for replay, deciding what a request does to the session table,
//! and drawing what the user sees.
pub mod browse;
pub mod cli;
pub mod client;
pub mod clipboard;
pub mod command;
pub mod completions;
pub mod daemon;
pub mod error;
pub mod input;
pub mod live;
pub mod name;
pub mod order;
pub mod paths;
pub mod protocol;
pub mod record;
pub mod screen;
pub mod session_io;
pub mod sessions;
pub mod startup;
pub mod text;
pub mod wire;
