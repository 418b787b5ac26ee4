//! Curation of a library of QEMU virtual-machine definitions.
//!
//! Each machine is persisted on disk as a free-form shell launch script.
//! This crate recovers a structured configuration from such a script
//! (extraction), applies targeted field changes back into the script while
//! leaving every unrelated line untouched (synthesis), and keeps both
//! directions consistent through one canonical token table per dimension.

pub mod app;
pub mod ascii_art;
pub mod discovery;
pub mod launch_parser;
pub mod qemu_config;
pub mod rewrite;
pub mod settings_help;
pub mod snapshot;
pub mod text;
pub mod usb;
