//! On-device dictation: the logic behind the window.

pub mod audio;
pub mod cli;
pub mod config;
pub mod history;
pub mod lines;
pub mod models;
pub mod moment;
pub mod number;
pub mod order;
pub mod output;
pub mod path;
pub mod picker;
pub mod players;
pub mod preferences;
pub mod replace;
pub mod stage;
pub mod text;
pub mod transcribe;
pub mod ui;
