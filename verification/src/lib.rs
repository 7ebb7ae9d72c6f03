//! Verified core of a small chat bot: text helpers, request encoding,
//! in-place sorting, duration parsing and the bot's command logic.

pub mod http_utils;
pub mod order;
pub mod sorting;
pub mod text;
pub mod duration;
pub mod cleverbot;
pub mod colour;
pub mod giphy;
pub mod statics;
pub mod linear_parse;
pub mod guild;
pub mod commands;
