//! The engine for callers that share one board between many tasks.
pub mod board;
pub mod boardio;
pub mod network;
pub mod parser;
