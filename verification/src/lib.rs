//! Configurable hot corners and hot edges for wayland.

pub mod app;
pub mod commands;
pub mod config;
pub mod decimal;
pub mod effects;
pub mod gap;
pub mod gaps;
pub mod globals;
pub mod heap;
pub mod laws;
pub mod list;
pub mod log;
pub mod objects;
pub mod protocol;
pub mod seat;
pub mod surface;
pub mod text;
pub mod utils;
