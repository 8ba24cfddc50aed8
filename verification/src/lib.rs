//! FromFix: the decisions behind a fix for FromSoftware games.
pub mod text;
pub mod memory;
pub mod config;
pub mod state;
pub mod plan;
pub mod sekiro;
pub mod ds3;
pub mod host;
