//! What holds of the engine, proved from the definitions that the contracts
//! of its functions use.
//!
//! `parsing` is about the line parser, `lines` about rendered lines, `blocks`
//! about the two sorted blocks, `script` about every line of the script,
//! `splitting` about the script as a text, and `run` about a whole run.

pub mod parsing;
pub mod lines;
pub mod blocks;
pub mod script;
pub mod splitting;
pub mod run;
