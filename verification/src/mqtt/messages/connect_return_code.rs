use vstd::prelude::*;

verus! {

/// The broker's verdict on a CONNECT. Only `ConnectionAccepted` opens the
/// session.
#[derive(Debug, Clone, Copy, PartialEq, Eq, Structural)]
pub enum ConnectReturnCode {
    ConnectionAccepted,
    UnacceptableProtocolVersion,
    IdentifierRejected,
    ServerUnavailable,
    BadUsernameOrPassword,
    NotAuthorized,
}

impl ConnectReturnCode {
    pub open spec fn code(self) -> u8 {
        match self {
            ConnectReturnCode::ConnectionAccepted => 0,
            ConnectReturnCode::UnacceptableProtocolVersion => 1,
            ConnectReturnCode::IdentifierRejected => 2,
            ConnectReturnCode::ServerUnavailable => 3,
            ConnectReturnCode::BadUsernameOrPassword => 4,
            ConnectReturnCode::NotAuthorized => 5,
        }
    }

    pub open spec fn of_code(code: u8) -> Option<ConnectReturnCode> {
        if code == 0 {
            Some(ConnectReturnCode::ConnectionAccepted)
        } else if code == 1 {
            Some(ConnectReturnCode::UnacceptableProtocolVersion)
        } else if code == 2 {
            Some(ConnectReturnCode::IdentifierRejected)
        } else if code == 3 {
            Some(ConnectReturnCode::ServerUnavailable)
        } else if code == 4 {
            Some(ConnectReturnCode::BadUsernameOrPassword)
        } else if code == 5 {
            Some(ConnectReturnCode::NotAuthorized)
        } else {
            None
        }
    }

    pub proof fn lemma_of_code(self)
        ensures
            Self::of_code(self.code()) == Some(self),
    {
    }

    pub fn to_u8(&self) -> (code: u8)
        ensures
            code == self.code(),
    {
        match self {
            ConnectReturnCode::ConnectionAccepted => 0,
            ConnectReturnCode::UnacceptableProtocolVersion => 1,
            ConnectReturnCode::IdentifierRejected => 2,
            ConnectReturnCode::ServerUnavailable => 3,
            ConnectReturnCode::BadUsernameOrPassword => 4,
            ConnectReturnCode::NotAuthorized => 5,
        }
    }

    pub fn from_u8(code: u8) -> (r: Option<ConnectReturnCode>)
        ensures
            r == Self::of_code(code),
    {
        if code == 0 {
            Some(ConnectReturnCode::ConnectionAccepted)
        } else if code == 1 {
            Some(ConnectReturnCode::UnacceptableProtocolVersion)
        } else if code == 2 {
            Some(ConnectReturnCode::IdentifierRejected)
        } else if code == 3 {
            Some(ConnectReturnCode::ServerUnavailable)
        } else if code == 4 {
            Some(ConnectReturnCode::BadUsernameOrPassword)
        } else if code == 5 {
            Some(ConnectReturnCode::NotAuthorized)
        } else {
            None
        }
    }
}

} // verus!
