//! Core of a surveillance and incident-response platform: an MQTT-style
//! publish/subscribe protocol (wire codec, broker and client state machines)
//! and the coordination rules that cameras, drones and the monitoring station
//! follow on top of it.
//!
//! Everything here is pure: sockets, threads, clocks and floating-point
//! geometry belong to the caller, which hands in bytes, timestamps and
//! already-decided proximity facts and receives bytes and actions back.

pub mod apps;
pub mod encoding;
pub mod id_list;
pub mod mqtt;
pub mod views;
