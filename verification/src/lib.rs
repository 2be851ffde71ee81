//! Shamash: the decision logic of a wake-word music bot.
pub mod text;
pub mod parser;
pub mod wav;
pub mod search;
pub mod config;
pub mod audio;
pub mod fetch;
pub mod player;
pub mod voice;
pub mod pipeline;
pub mod parakeet;
pub mod listener;
pub mod bot;
pub mod whisper;
