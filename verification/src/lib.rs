pub mod calendar;
pub mod config;
pub mod date;
pub mod position;
pub mod terminal;
pub mod text;
pub mod tui;
