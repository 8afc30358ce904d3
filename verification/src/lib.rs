pub mod daemon;
pub mod text;
pub mod protocol;
pub mod selector;
pub mod config;
pub mod input;
pub mod color;
pub mod ui;
pub mod manager;
pub mod tui;
pub mod cli;
pub mod ipc;
