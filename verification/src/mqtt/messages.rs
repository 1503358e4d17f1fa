//! Control packets and their wire encoding.

pub mod connack_message;
pub mod connect_flags;
pub mod connect_return_code;
pub mod disconnect_message;
pub mod fixed_header;
pub mod packet_type;
pub mod puback_message;
pub mod publish_flags;
pub mod publish_message;
pub mod subscribe_message;
pub mod subscribe_return_code;
pub mod suback_message;
pub mod connect_message;
