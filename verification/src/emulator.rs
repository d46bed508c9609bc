//! A stand-in for the camera, for tests and for the container image.
//!
//! **Read [`gatt`]'s module docs before trusting a green test against this.**
//! The emulator is built from the same reverse-engineered documentation as
//! gr3sync itself, so by default it agrees with gr3sync's assumptions whether
//! or not the real camera does. It verifies the transport chain and guards
//! against regressions; it cannot tell you the documentation is right.

pub mod gatt;
pub mod http;

pub use gatt::{CharacteristicState, GattTable, Provenance};
pub use http::{Card, Response};
