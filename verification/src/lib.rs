//! Reconnaissance helpers: text rendering, host and port bookkeeping,
//! finding tallies and the decisions of a subprocess runner.
pub mod text;
pub mod order;
pub mod tally;
pub mod words;
pub mod drill;
pub mod ports;
pub mod options;
pub mod hosts;
pub mod inventory;
pub mod preview;
pub mod merge;
pub mod runner;
pub mod watchdog;
pub mod executable;
