//! Core of a background hotkey launcher: a declarative configuration maps
//! key combinations to targets (paths or URLs); the library parses the
//! configuration document, parses key-combination strings, reconciles the
//! set of active OS hotkey registrations against a freshly loaded
//! configuration, and decides how each incoming event (hotkey press,
//! configuration change, tray interaction) is handled.
//!
//! All I/O — reading and writing the configuration file, talking to the OS
//! hotkey, tray and file-watch facilities, launching targets — lives outside
//! this crate; the library works on plain values and byte strings.

pub mod combo;
pub mod config;
pub mod dispatch;
pub mod registry;
pub mod startup;
