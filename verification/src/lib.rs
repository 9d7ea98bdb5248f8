//! The verified core of the Beam remote-desktop agent.

pub mod abr;
pub mod audio;
pub mod capture_loop;
pub mod cli;
pub mod clipboard;
pub mod clipboard_sync;
pub mod command;
pub mod cursor;
pub mod desktop;
pub mod desktop_config;
pub mod dispatch;
pub mod display;
pub mod double;
pub mod encoder;
pub mod filetransfer;
pub mod float_bits;
pub mod gpu;
pub mod h264;
pub mod input;
pub mod json;
pub mod number;
pub mod paths;
pub mod peer;
pub mod session;
pub mod text;
