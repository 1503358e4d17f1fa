use vstd::prelude::*;

verus! {

/// What a camera is doing: saving energy, or recording.
#[derive(Debug, Clone, Copy, PartialEq, Eq, Structural)]
pub enum CameraState {
    SavingMode,
    Active,
}

impl CameraState {
    pub open spec fn code(self) -> u8 {
        match self {
            CameraState::SavingMode => 0,
            CameraState::Active => 1,
        }
    }

    pub open spec fn of_code(code: u8) -> Option<CameraState> {
        if code == 0 {
            Some(CameraState::SavingMode)
        } else if code == 1 {
            Some(CameraState::Active)
        } else {
            None
        }
    }

    pub fn to_byte(&self) -> (code: u8)
        ensures
            code == self.code(),
            Self::of_code(code) == Some(*self),
    {
        match self {
            CameraState::SavingMode => 0,
            CameraState::Active => 1,
        }
    }

    pub fn from_byte(code: u8) -> (r: Option<CameraState>)
        ensures
            r == Self::of_code(code),
    {
        if code == 0 {
            Some(CameraState::SavingMode)
        } else if code == 1 {
            Some(CameraState::Active)
        } else {
            None
        }
    }
}

} // verus!
