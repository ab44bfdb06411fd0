//! A bounded, de-duplicated clipboard history engine.
//!
//! The crate verifies the state engine of a clipboard history manager: the
//! store that keeps a capped, de-duplicated collection of clipboard entries
//! with pin-aware retention, the configuration store, the change detector
//! that turns raw clipboard samples into insert events, and the
//! reconfiguration logic that reacts to configuration updates.
//! Durable persistence and the OS clipboard, hotkey and window collaborators
//! are left to an unverified shell around this crate.

pub mod clipboard;
pub mod config;
pub mod database;
pub mod types;
pub mod window;
