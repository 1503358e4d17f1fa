//! The publish/subscribe protocol: messages, client side and broker side.

pub mod client;
pub mod messages;
pub mod mqtt_error;
pub mod mqtt_utils;
pub mod packet_id;
pub mod retransmitter;
pub mod server;
