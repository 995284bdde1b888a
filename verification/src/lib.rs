//! Verified core of a terminal multiplexer: the pane layout tree, the terminal
//! grid driven by escape sequences, pane status tracking, key dispatch and the
//! workspace/tab/pane session state machine.
pub mod config;
pub mod input;
pub mod multiplexer;
pub mod terminal;
pub mod text;
pub mod ui;
