//! Text-stream composition: patterns, the commands they name, and the rules by
//! which a pattern is turned into parallel pipelines and output records.

pub mod app;
pub mod cli;
pub mod command;
pub mod commands;
pub mod env;
pub mod error;
pub mod filter;
pub mod io;
pub mod pager;
pub mod pattern;
pub mod process;
pub mod shell;
pub mod spawn;
pub mod text;
pub mod transfer;
