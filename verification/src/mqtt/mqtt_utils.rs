//! Helpers shared by the clients of the broker.

pub mod will_message_utils;
