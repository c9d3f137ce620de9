//! What can go wrong when a block is opened.

use crate::text::hex;
use vstd::prelude::*;
use vstd::string::*;

verus! {

/// Why a block could not be opened.
#[derive(Debug, Clone, Copy, PartialEq, Eq, Structural)]
pub enum MemError {
    /// Zero bytes were asked for.
    ZeroSize,
    /// The system created no surface, or none with an address.
    BlockCreateFailed,
    /// The system refused the lock, with this status.
    BlockLockFailed(i32),
}

impl MemError {
    /// The message that describes the error.
    pub open spec fn message(self) -> Seq<char> {
        match self {
            MemError::ZeroSize => "zero-size allocation"@,
            MemError::BlockCreateFailed => "IOSurfaceCreate failed"@,
            MemError::BlockLockFailed(status) => "IOSurfaceLock failed: "@ + ("0x"@
                + crate::text::numeral((status as u32) as nat, 16)),
        }
    }

    /// The error as text; a lock status is shown as the bits of its 32-bit pattern.
    pub fn to_string(&self) -> (s: String)
        ensures
            s@ == self.message(),
    {
        match self {
            MemError::ZeroSize => String::from_str("zero-size allocation"),
            MemError::BlockCreateFailed => String::from_str("IOSurfaceCreate failed"),
            MemError::BlockLockFailed(status) => {
                let code = hex(*status as u32);
                let mut s = String::from_str("IOSurfaceLock failed: ");
                s.append(code.as_str());
                s
            },
        }
    }
}

} // verus!
