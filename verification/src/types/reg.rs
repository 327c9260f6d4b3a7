use vstd::prelude::*;

verus! {

/// A machine register of the target.
#[derive(Clone, Copy, Debug, PartialEq, Eq, Hash, Structural)]
pub enum Reg {
    X0,
    X1,
    X8,
    X9,
    X10,
    X11,
}

impl View for Reg {
    type V = Reg;

    open spec fn view(&self) -> Reg {
        *self
    }
}

/// The assembler name of a register.
pub open spec fn reg_text(r: Reg) -> Seq<char> {
    match r {
        Reg::X0 => "X0"@,
        Reg::X1 => "X1"@,
        Reg::X8 => "X8"@,
        Reg::X9 => "X9"@,
        Reg::X10 => "X10"@,
        Reg::X11 => "X11"@,
    }
}

impl Reg {
    /// Renders the register by its assembler name.
    pub fn to_string(&self) -> (s: String)
        ensures
            s@ == reg_text(*self),
    {
        match self {
            Reg::X0 => String::from_str("X0"),
            Reg::X1 => String::from_str("X1"),
            Reg::X8 => String::from_str("X8"),
            Reg::X9 => String::from_str("X9"),
            Reg::X10 => String::from_str("X10"),
            Reg::X11 => String::from_str("X11"),
        }
    }
}

} // verus!
