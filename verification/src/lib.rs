//! The rules behind a terminal UI for managing Amp `--no-tui` runners.
//!
//! The library does no input or output. A step that needs the outside returns what it asks for,
//! and the answer is an argument of the next step.
pub mod text;
pub mod path;
pub mod runner;
pub mod args;
pub mod json;
pub mod listing;
pub mod order;
pub mod process;
pub mod dirpick;
pub mod trail;
pub mod document;
pub mod config;
pub mod client;
pub mod launch;
pub mod stop;
pub mod jobs;
pub mod start;
pub mod flags;
pub mod picker;
pub mod app;
pub mod conduct;
pub mod screen;
