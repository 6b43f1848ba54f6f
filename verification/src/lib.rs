//! The decision logic of a terminal command center: what each card shows, how
//! metadata is cleaned and matched, how lyrics are parsed and timed, and how the
//! keyboard drives the inbox. Every function here is pure; clocks, files,
//! processes, sockets and the terminal live with the caller.

pub mod art;
pub mod cache;
pub mod catalogue;
pub mod demo;
pub mod digits;
pub mod discord;
pub mod fetching;
pub mod format;
pub mod git;
pub mod imessage;
pub mod inbox;
pub mod json;
pub mod keybinds_card;
pub mod layout;
pub mod lrc;
pub mod lrc_laws;
pub mod lyrics;
pub mod lyrics_card;
pub mod media_cards;
pub mod message_cards;
pub mod misses;
pub mod options;
pub mod paint;
pub mod panel;
pub mod music;
pub mod playback;
pub mod player;
pub mod processes;
pub mod robots;
pub mod sample;
pub mod silicon;
pub mod state;
pub mod status;
pub mod text;
pub mod theme;
pub mod titles;
pub mod usage;
pub mod voice;
pub mod weather_card;
pub mod weather_report;
pub mod width;
