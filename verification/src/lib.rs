//! Verified core of a fast terminal emulator: escape-sequence parsers, the
//! cell grid, colour handling, the client/server wire framing and the pure
//! helpers of the frontend and the glyph pipeline.

pub mod color;
pub mod grid;
pub mod parser;
pub mod protocol;
pub mod base64;
pub mod basic_parser;
pub mod text;
pub mod graphics;
pub mod control_strings;
pub mod server_sync;
pub mod clock;
pub mod frontend;
pub mod input;
pub mod font;
pub mod gpu;
pub mod backend;
pub mod build_info;
pub mod profiling;
pub mod native_scroll;
pub mod ipc;
pub mod cli;
pub mod config;
pub mod client;
pub mod host_commands;
pub mod daemon;
pub mod metrics;
pub mod font_cache;
pub mod keys;
pub mod platform;
pub mod surface;
pub mod bitmap;
pub mod numerals;
pub mod metrics_cache;
pub mod host_input;
pub mod draw;
pub mod visual;
pub mod child_env;
