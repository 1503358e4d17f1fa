use vstd::prelude::*;

verus! {

/// The kind of a control packet, carried in the high nibble of its first
/// byte.
#[derive(Debug, Clone, Copy, PartialEq, Eq, Structural)]
pub enum PacketType {
    Connect,
    Connack,
    Publish,
    Puback,
    Subscribe,
    Suback,
    Disconnect,
}

impl PacketType {
    /// The number that stands for this kind on the wire.
    pub open spec fn code(self) -> u8 {
        match self {
            PacketType::Connect => 1,
            PacketType::Connack => 2,
            PacketType::Publish => 3,
            PacketType::Puback => 4,
            PacketType::Subscribe => 8,
            PacketType::Suback => 9,
            PacketType::Disconnect => 14,
        }
    }

    /// The kind a wire number stands for, if any.
    pub open spec fn of_code(code: u8) -> Option<PacketType> {
        if code == 1 {
            Some(PacketType::Connect)
        } else if code == 2 {
            Some(PacketType::Connack)
        } else if code == 3 {
            Some(PacketType::Publish)
        } else if code == 4 {
            Some(PacketType::Puback)
        } else if code == 8 {
            Some(PacketType::Subscribe)
        } else if code == 9 {
            Some(PacketType::Suback)
        } else if code == 14 {
            Some(PacketType::Disconnect)
        } else {
            None
        }
    }

    pub fn to_u8(&self) -> (code: u8)
        ensures
            code == self.code(),
            Self::of_code(code) == Some(*self),
    {
        match self {
            PacketType::Connect => 1,
            PacketType::Connack => 2,
            PacketType::Publish => 3,
            PacketType::Puback => 4,
            PacketType::Subscribe => 8,
            PacketType::Suback => 9,
            PacketType::Disconnect => 14,
        }
    }

    pub fn from_u8(code: u8) -> (kind: Option<PacketType>)
        ensures
            kind == Self::of_code(code),
    {
        if code == 1 {
            Some(PacketType::Connect)
        } else if code == 2 {
            Some(PacketType::Connack)
        } else if code == 3 {
            Some(PacketType::Publish)
        } else if code == 4 {
            Some(PacketType::Puback)
        } else if code == 8 {
            Some(PacketType::Subscribe)
        } else if code == 9 {
            Some(PacketType::Suback)
        } else if code == 14 {
            Some(PacketType::Disconnect)
        } else {
            None
        }
    }
}

} // verus!
