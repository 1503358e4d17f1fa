//! The client side of the protocol.

pub mod mqtt_client;
pub mod mqtt_client_server_connection;
pub mod mqtt_client_writer;
