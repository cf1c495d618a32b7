//! Driving button and encoder decks over HID.
//!
//! The library decides what is written to a device and what becomes of the answers; it does no
//! input or output itself. A call on a [`device::Device`] gives a [`call::Call`], which asks for
//! one report after another to be written. A [`watcher::DeviceWatcher`] turns what the host tells
//! about device ids into events.

pub mod call;
pub mod device;
pub mod device_history;
pub mod device_laws;
pub mod error;
pub mod query;
pub mod report;
pub mod state;
pub mod text;
pub mod types;
pub mod watcher;
pub mod watcher_laws;
pub mod wire_laws;
