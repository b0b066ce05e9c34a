//! Release selection, tagging metadata, file naming and command planning for
//! a bit-perfect CD archiving tool.
pub mod config;
pub mod cue;
pub mod encode;
pub mod metadata;
pub mod naming;
pub mod pattern;
pub mod release;
pub mod riprip;
pub mod session;
pub mod text;
