//! Calendar account registry, event classification and alert scheduling for
//! a multi-account calendar notifier.
//!
//! Every rule of the notifier is stated here over plain values and proved:
//! which accounts the registry keeps, when a token counts as expired, which
//! events of a poll matter to an account, into which bucket an event falls,
//! and which pending event an alert is raised for. Network calls, windows and
//! files are left to the program that links this library.

pub mod config;
pub mod text;
pub mod event;
pub mod classify;
pub mod types;
pub mod preferences;
pub mod localtime;
pub mod account;
pub mod scheduler;
pub mod registry;
pub mod utils;
pub mod autostart;
pub mod state;
pub mod tray;
