use vstd::prelude::*;

verus! {

/// Why a payload could not be read.
#[derive(Debug, Clone, Copy, PartialEq, Eq, Structural)]
pub enum PayloadError {
    /// The payload has not the number of bytes its layout asks for.
    WrongLength,
    /// A byte that stands for a state, a source or a yes/no holds a value
    /// that stands for none.
    InvalidValue,
}

} // verus!
