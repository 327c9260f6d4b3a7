use vstd::prelude::*;

verus! {

/// A binary arithmetic operator of the source language.
#[derive(Clone, Copy, Debug, PartialEq, Eq, Structural)]
pub enum Binop {
    Add,
    Sub,
}

impl View for Binop {
    type V = Binop;

    open spec fn view(&self) -> Binop {
        *self
    }
}

/// The text of an operator as it is shown in a syntax tree dump.
pub open spec fn binop_text(op: Binop) -> Seq<char> {
    match op {
        Binop::Add => "+"@,
        Binop::Sub => "-"@,
    }
}

impl Binop {
    /// Renders the operator as `+` or `-`.
    pub fn to_string(&self) -> (s: String)
        ensures
            s@ == binop_text(*self),
    {
        match self {
            Binop::Add => String::from_str("+"),
            Binop::Sub => String::from_str("-"),
        }
    }
}

} // verus!
