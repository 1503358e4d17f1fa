use vstd::prelude::*;

verus! {

/// The flags byte of a CONNECT packet's variable header.
///
/// Bit layout, most significant first: username, password, will-retain,
/// will-qos (two bits), will-flag, clean-session, reserved.
#[derive(Debug, Clone, Copy, PartialEq, Eq, Structural)]
pub struct ConnectFlags {
    pub username_flag: bool,
    pub password_flag: bool,
    pub will_retain: bool,
    pub will_qos: u8,
    pub will_flag: bool,
    pub clean_session: bool,
    pub reserved: bool,
}

/// Numeric weight of a flag that sits at the bit worth `weight`.
pub open spec fn bit_value(flag: bool, weight: int) -> int {
    if flag {
        weight
    } else {
        0
    }
}

impl ConnectFlags {
    /// The byte these flags are written as. The reserved bit is never written
    /// and only the two low bits of `will_qos` are kept.
    pub open spec fn byte_value(self) -> int {
        bit_value(self.username_flag, 128) + bit_value(self.password_flag, 64) + bit_value(
            self.will_retain,
            32,
        ) + 8 * (self.will_qos as int % 4) + bit_value(self.will_flag, 4) + bit_value(
            self.clean_session,
            2,
        )
    }

    /// The flags a byte stands for.
    pub open spec fn of_byte(byte: u8) -> ConnectFlags {
        ConnectFlags {
            username_flag: byte as int / 128 % 2 == 1,
            password_flag: byte as int / 64 % 2 == 1,
            will_retain: byte as int / 32 % 2 == 1,
            will_qos: (byte as int / 8 % 4) as u8,
            will_flag: byte as int / 4 % 2 == 1,
            clean_session: byte as int / 2 % 2 == 1,
            reserved: byte as int % 2 == 1,
        }
    }

    /// Flags that a conforming CONNECT may carry: a will QoS of 0, 1 or 2 and
    /// the reserved bit clear.
    pub open spec fn is_canonical(self) -> bool {
        self.will_qos < 3 && !self.reserved
    }

    pub fn new(
        clean_session: bool,
        will_flag: bool,
        will_qos: u8,
        will_retain: bool,
        username_flag: bool,
        password_flag: bool,
        reserved: bool,
    ) -> (flags: Self)
        ensures
            flags == (ConnectFlags {
                username_flag,
                password_flag,
                will_retain,
                will_qos,
                will_flag,
                clean_session,
                reserved,
            }),
    {
        ConnectFlags {
            username_flag,
            clean_session,
            will_flag,
            will_qos,
            will_retain,
            password_flag,
            reserved,
        }
    }

    pub fn to_byte(&self) -> (byte: u8)
        ensures
            byte as int == self.byte_value(),
    {
        let mut byte: u8 = 8 * (self.will_qos % 4);
        if self.username_flag {
            byte = byte + 128;
        }
        if self.password_flag {
            byte = byte + 64;
        }
        if self.will_retain {
            byte = byte + 32;
        }
        if self.will_flag {
            byte = byte + 4;
        }
        if self.clean_session {
            byte = byte + 2;
        }
        byte
    }

    pub fn from_byte(byte: u8) -> (flags: ConnectFlags)
        ensures
            flags == Self::of_byte(byte),
    {
        ConnectFlags {
            username_flag: byte / 128 % 2 == 1,
            password_flag: byte / 64 % 2 == 1,
            will_retain: byte / 32 % 2 == 1,
            will_qos: byte / 8 % 4,
            will_flag: byte / 4 % 2 == 1,
            clean_session: byte / 2 % 2 == 1,
            reserved: byte % 2 == 1,
        }
    }

    /// Reading back a written flags byte restores every flag, provided the
    /// will QoS fits its two bits and the reserved bit is clear.
    pub proof fn lemma_from_byte_of_to_byte(self)
        requires
            self.will_qos < 4,
            !self.reserved,
        ensures
            0 <= self.byte_value() < 256,
            Self::of_byte(self.byte_value() as u8) == self,
    {
    }

    /// Writing the flags read from a byte restores the byte up to its
    /// reserved bit.
    pub proof fn lemma_to_byte_of_from_byte(byte: u8)
        ensures
            Self::of_byte(byte).byte_value() == byte as int - byte as int % 2,
    {
        let b = byte;
        assert(128 * (b / 128 % 2) + 64 * (b / 64 % 2) + 32 * (b / 32 % 2) + 8 * (b / 8 % 4) + 4
            * (b / 4 % 2) + 2 * (b / 2 % 2) == b - b % 2) by (bit_vector);
        assert((b / 8 % 4) as u8 % 4 == b / 8 % 4) by (bit_vector);
    }
}

} // verus!
