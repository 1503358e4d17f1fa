use vstd::prelude::*;

verus! {

/// The kinds of application that talk over the broker.
#[derive(Debug, Clone, Copy, PartialEq, Eq, Structural)]
pub enum AppType {
    Cameras,
    Dron,
    Monitoreo,
}

impl AppType {
    pub open spec fn code(self) -> u8 {
        match self {
            AppType::Cameras => 0,
            AppType::Dron => 1,
            AppType::Monitoreo => 2,
        }
    }

    pub open spec fn of_code(code: u8) -> Option<AppType> {
        if code == 0 {
            Some(AppType::Cameras)
        } else if code == 1 {
            Some(AppType::Dron)
        } else if code == 2 {
            Some(AppType::Monitoreo)
        } else {
            None
        }
    }

    pub fn to_byte(&self) -> (code: u8)
        ensures
            code == self.code(),
            Self::of_code(code) == Some(*self),
    {
        match self {
            AppType::Cameras => 0,
            AppType::Dron => 1,
            AppType::Monitoreo => 2,
        }
    }

    pub fn from_byte(code: u8) -> (r: Option<AppType>)
        ensures
            r == Self::of_code(code),
    {
        if code == 0 {
            Some(AppType::Cameras)
        } else if code == 1 {
            Some(AppType::Dron)
        } else if code == 2 {
            Some(AppType::Monitoreo)
        } else {
            None
        }
    }
}

} // verus!
