use vstd::prelude::*;

verus! {

/// Why a protocol operation was refused.
#[derive(Debug, Clone, Copy, PartialEq, Eq, Structural)]
pub enum MqttError {
    /// The bytes are no well-formed packet: truncated, with a remaining
    /// length that does not match, with text that is not UTF-8, with
    /// reserved bits set, or with a quality of service of 3.
    MalformedPacket,
    /// A field is too long to be written: a string over 65535 bytes or a
    /// body over the largest remaining length.
    TooLong,
    /// The requested quality of service is not 0 or 1.
    UnsupportedQos,
    /// The broker refused at least one of the requested subscriptions.
    SubscriptionRefused,
    /// The client is not known to the broker, or is not connected.
    UnknownClient,
    /// The operation needs a connection and there is none.
    NotConnected,
    /// The broker answered the CONNECT with a refusal.
    ConnectionRefused,
}

} // verus!
