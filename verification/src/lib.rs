//! Gyre: the logic of a command-line agent.
pub mod admin;
pub mod agents_view;
pub mod argv;
pub mod ast;
pub mod browser;
pub mod cdp;
pub mod clock;
pub mod commands;
pub mod config;
pub mod data;
pub mod goal;
pub mod hooks;
pub mod host;
pub mod json;
pub mod keybindings;
pub mod launcher;
pub mod manage;
pub mod manage_run;
pub mod markdown;
pub mod memory;
pub mod menu;
pub mod numeral;
pub mod order;
pub mod outline;
pub mod paste;
pub mod pattern;
pub mod pieces;
pub mod program;
pub mod prompts;
pub mod queue;
pub mod queue_cmd;
pub mod repl;
pub mod review;
pub mod say;
pub mod secrets;
pub mod servers;
pub mod session;
pub mod shape;
pub mod show;
pub mod summary;
pub mod switch;
pub mod text;
pub mod todo;
pub mod turn;
