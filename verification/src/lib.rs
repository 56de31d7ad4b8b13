//! Core of a terminal speedcube timer: the stopwatch state machine, the
//! incremental trimmed-mean statistics over the solve history, the
//! grid/selection navigation state machine, and the flat-file history
//! format. All durations are integer milliseconds.

pub mod app;
pub mod config;
pub mod navigate;
pub mod stats;
pub mod system_command;
pub mod persist;
pub mod text;
pub mod timer;
