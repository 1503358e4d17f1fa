use crate::mqtt::mqtt_error::MqttError;
use vstd::prelude::*;

verus! {

/// The flag bits of a PUBLISH: duplicate delivery, quality of service,
/// retain.
#[derive(Debug, Clone, Copy, PartialEq, Eq, Structural)]
pub struct PublishFlags {
    pub dup: bool,
    pub qos: u8,
    pub retain: bool,
}

impl PublishFlags {
    /// The low nibble of the first byte: DUP is bit 3, QoS bits 2 and 1,
    /// RETAIN bit 0.
    pub open spec fn nibble(self) -> int {
        (if self.dup {
            8int
        } else {
            0int
        }) + 2 * (self.qos % 4) + (if self.retain {
            1int
        } else {
            0int
        })
    }

    /// The flags a nibble stands for; a quality of service of 3 stands for
    /// none.
    pub open spec fn of_nibble(nibble: u8) -> Option<PublishFlags> {
        if nibble >= 16 || nibble / 2 % 4 == 3 {
            None
        } else {
            Some(PublishFlags { dup: nibble / 8 == 1, qos: nibble / 2 % 4, retain: nibble % 2 == 1 })
        }
    }

    pub open spec fn valid(self) -> bool {
        self.qos <= 2
    }

    pub proof fn lemma_of_nibble(self)
        requires
            self.valid(),
        ensures
            0 <= self.nibble() < 16,
            Self::of_nibble(self.nibble() as u8) == Some(self),
    {
    }

    /// Builds flags from three numbers as a caller would write them: 0 or 1
    /// for `dup` and `retain`, 0 to 2 for `qos`.
    pub fn new(dup: u8, qos: u8, retain: u8) -> (r: Result<PublishFlags, MqttError>)
        ensures
            match r {
                Ok(flags) => dup <= 1 && qos <= 2 && retain <= 1 && flags == (PublishFlags {
                    dup: dup == 1,
                    qos,
                    retain: retain == 1,
                }),
                Err(e) => (dup > 1 || qos > 2 || retain > 1) && e == MqttError::MalformedPacket,
            },
    {
        if dup > 1 || qos > 2 || retain > 1 {
            Err(MqttError::MalformedPacket)
        } else {
            Ok(PublishFlags { dup: dup == 1, qos, retain: retain == 1 })
        }
    }

    /// The flags as the low nibble of a first byte. Only the two low bits
    /// of the quality of service are kept.
    pub fn to_flags_byte(&self) -> (nibble: u8)
        ensures
            nibble == self.nibble(),
            nibble < 16,
    {
        let mut nibble: u8 = 2 * (self.qos % 4);
        if self.dup {
            nibble = nibble + 8;
        }
        if self.retain {
            nibble = nibble + 1;
        }
        nibble
    }

    pub fn from_flags_byte(nibble: u8) -> (r: Option<PublishFlags>)
        ensures
            r == Self::of_nibble(nibble),
            r matches Some(flags) ==> flags.valid(),
    {
        if nibble >= 16 || nibble / 2 % 4 == 3 {
            None
        } else {
            Some(PublishFlags { dup: nibble / 8 == 1, qos: nibble / 2 % 4, retain: nibble % 2 == 1 })
        }
    }
}

} // verus!
