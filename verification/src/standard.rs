//! The engine for a caller that owns the connection and blocks on it.
pub mod board;
pub mod parser;
