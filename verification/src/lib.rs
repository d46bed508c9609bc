//! gr3sync: pull photos off a RICOH GR III over Bluetooth and Wi-Fi.
//!
//! The layering mirrors the two radios the camera has, plus the host-side work
//! of getting between them:
//!
//! | module | responsibility |
//! |---|---|
//! | [`protocol`] | BLE UUIDs and value codecs |
//! | [`ble`] | the camera session, over any GATT transport |
//! | [`camera`] | the Wi-Fi HTTP API |
//! | [`netlink`] | joining and restoring the host's Wi-Fi association |
//! | [`state`] | what has already been downloaded |
//! | [`sync`] | the orchestration, and the teardown that makes it safe |
//! | [`config`] | persistent defaults |
//! | [`cli`] | what arguments mean and what is shown |
//! | [`emulator`] | a stand-in camera, for tests |
//!
//! This crate decides; it does not reach outside. What has to be done over a
//! radio, a socket or a file system is handed out as a value (an operation, a
//! unit of work) and what came of it is handed back, so a whole sync is a state
//! machine that is stepped from outside. [`procedure`] holds what these
//! machines share.
//!
//! Nothing here is officially documented by RICOH.

pub mod ble;
pub mod camera;
pub mod cli;
pub mod config;
pub mod emulator;
pub mod error;
pub mod hexadecimal;
pub mod ids;
pub mod json;
pub mod netlink;
pub mod paths;
pub mod procedure;
pub mod protocol;
pub mod state;
pub mod sync;
pub mod text;
pub mod textmap;

pub use camera::{Camera, PhotoRef};
pub use config::Config;
pub use error::{Error, Result};
pub use state::Ledger;
pub use sync::{Options, Outcome};
