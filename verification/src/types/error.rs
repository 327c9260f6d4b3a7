use vstd::prelude::*;

verus! {

/// Why register allocation failed.
#[derive(Clone, Copy, Debug, PartialEq, Eq, Structural)]
pub enum Error {
    /// A register was needed while none was free, or an argument had no register.
    OutOfRegs,
    /// A virtual register was read before any register was given to it.
    UnallocedVReg,
    /// A virtual register was read more times than it was counted as used.
    OverusedVReg,
}

/// The diagnostic printed for an error.
pub open spec fn error_text(e: Error) -> Seq<char> {
    match e {
        Error::OutOfRegs => "error: out of registers\n"@,
        Error::UnallocedVReg => "error: unalloced vreg used\n"@,
        Error::OverusedVReg => "error: a vreg was overused\n"@,
    }
}

impl Error {
    /// The diagnostic for this error, one line ended by a line feed.
    pub fn message(&self) -> (s: String)
        ensures
            s@ == error_text(*self),
    {
        match self {
            Error::OutOfRegs => String::from_str("error: out of registers\n"),
            Error::UnallocedVReg => String::from_str("error: unalloced vreg used\n"),
            Error::OverusedVReg => String::from_str("error: a vreg was overused\n"),
        }
    }
}

} // verus!
