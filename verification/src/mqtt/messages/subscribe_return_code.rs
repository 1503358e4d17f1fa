use vstd::prelude::*;

verus! {

/// The broker's answer to one requested subscription: the quality of
/// service it grants, or a refusal.
#[derive(Debug, Clone, Copy, PartialEq, Eq, Structural)]
pub enum SubscribeReturnCode {
    QoS0,
    QoS1,
    QoS2,
    Failure,
}

impl SubscribeReturnCode {
    pub open spec fn code(self) -> u8 {
        match self {
            SubscribeReturnCode::QoS0 => 0x00,
            SubscribeReturnCode::QoS1 => 0x01,
            SubscribeReturnCode::QoS2 => 0x02,
            SubscribeReturnCode::Failure => 0x80,
        }
    }

    pub open spec fn of_code(code: u8) -> Option<SubscribeReturnCode> {
        if code == 0x00 {
            Some(SubscribeReturnCode::QoS0)
        } else if code == 0x01 {
            Some(SubscribeReturnCode::QoS1)
        } else if code == 0x02 {
            Some(SubscribeReturnCode::QoS2)
        } else if code == 0x80 {
            Some(SubscribeReturnCode::Failure)
        } else {
            None
        }
    }

    /// The code that grants quality of service `qos` (0, 1 or 2).
    pub open spec fn granting(qos: u8) -> SubscribeReturnCode {
        if qos == 0 {
            SubscribeReturnCode::QoS0
        } else if qos == 1 {
            SubscribeReturnCode::QoS1
        } else {
            SubscribeReturnCode::QoS2
        }
    }

    pub proof fn lemma_of_code(self)
        ensures
            Self::of_code(self.code()) == Some(self),
    {
    }

    pub fn to_u8(&self) -> (code: u8)
        ensures
            code == self.code(),
    {
        match self {
            SubscribeReturnCode::QoS0 => 0x00,
            SubscribeReturnCode::QoS1 => 0x01,
            SubscribeReturnCode::QoS2 => 0x02,
            SubscribeReturnCode::Failure => 0x80,
        }
    }

    pub fn from_u8(code: u8) -> (r: Option<SubscribeReturnCode>)
        ensures
            r == Self::of_code(code),
    {
        if code == 0x00 {
            Some(SubscribeReturnCode::QoS0)
        } else if code == 0x01 {
            Some(SubscribeReturnCode::QoS1)
        } else if code == 0x02 {
            Some(SubscribeReturnCode::QoS2)
        } else if code == 0x80 {
            Some(SubscribeReturnCode::Failure)
        } else {
            None
        }
    }

    pub fn is_failure(&self) -> (b: bool)
        ensures
            b == (*self == SubscribeReturnCode::Failure),
    {
        match self {
            SubscribeReturnCode::Failure => true,
            _ => false,
        }
    }
}

} // verus!
