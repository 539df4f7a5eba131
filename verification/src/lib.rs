//! The library of a Discord bot: its command parsers, playlist file format, news digest,
//! music and speech decisions, idle-player bookkeeping and the texts it answers with.
pub mod commands;
pub mod config;
pub mod error;
pub mod inactivity;
pub mod json;
pub mod llm;
pub mod music;
pub mod news;
pub mod playlist;
pub mod slop;
pub mod text;
pub mod tts;
pub mod web;
