//! A bridge between two chat protocols: requests in the "Responses" shape are
//! rewritten into the "Chat Completions" shape, and replies (whole or streamed)
//! are rewritten back.

pub mod text;
pub mod json;
pub mod config;
pub mod converter;
pub mod stream;
pub mod server;
