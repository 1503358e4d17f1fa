//! The broker side of the protocol.

pub mod session;
pub mod mqtt_server;
pub mod message_processor;
pub mod packet;
