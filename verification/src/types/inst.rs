use vstd::prelude::*;

use super::binop::Binop;
use super::reg::{reg_text, Reg};
use super::vreg::{vreg_text, VReg, VRegModel};
use crate::text::{decimal_int, decimal_nat, push_i64, push_usize};

verus! {

/// An instruction over registers of type `R`: an arithmetic operation, an integer
/// move, or the address of a string literal (by its index in the string table).
#[derive(Debug)]
pub enum Inst<R> {
    Binop(R, Binop, R, R),
    Mov(R, i64),
    Adr(R, usize),
}

impl<R: View> View for Inst<R> {
    type V = Inst<R::V>;

    open spec fn view(&self) -> Inst<R::V> {
        match self {
            Inst::Binop(d, op, l, r) => Inst::Binop(d@, *op, l@, r@),
            Inst::Mov(d, v) => Inst::Mov(d@, *v),
            Inst::Adr(d, i) => Inst::Adr(d@, *i),
        }
    }
}

/// The register an instruction writes.
pub open spec fn inst_dst<T>(i: Inst<T>) -> T {
    match i {
        Inst::Binop(d, _, _, _) => d,
        Inst::Mov(d, _) => d,
        Inst::Adr(d, _) => d,
    }
}

/// The instruction with its destination register replaced by `reg`.
pub open spec fn inst_with_dst<T>(i: Inst<T>, reg: T) -> Inst<T> {
    match i {
        Inst::Binop(_, op, l, r) => Inst::Binop(reg, op, l, r),
        Inst::Mov(_, v) => Inst::Mov(reg, v),
        Inst::Adr(_, idx) => Inst::Adr(reg, idx),
    }
}

impl<R> Inst<R> {
    /// The same instruction writing to `reg`.
    pub fn with_dst(self, reg: R) -> (r: Self)
        ensures
            r == inst_with_dst(self, reg),
    {
        match self {
            Inst::Binop(_, op, lhs, rhs) => Inst::Binop(reg, op, lhs, rhs),
            Inst::Mov(_, val) => Inst::Mov(reg, val),
            Inst::Adr(_, idx) => Inst::Adr(reg, idx),
        }
    }
}

/// The mnemonic of an arithmetic operator.
pub open spec fn op_mnemonic(op: Binop) -> Seq<char> {
    match op {
        Binop::Add => "add"@,
        Binop::Sub => "sub"@,
    }
}

fn mnemonic(op: Binop) -> (s: &'static str)
    ensures
        s@ == op_mnemonic(op),
{
    match op {
        Binop::Add => "add",
        Binop::Sub => "sub",
    }
}

/// The assembler text of an instruction over machine registers.
pub open spec fn asm_inst_text(i: Inst<Reg>) -> Seq<char> {
    match i {
        Inst::Binop(d, op, l, r) => op_mnemonic(op) + " "@ + reg_text(d) + ", "@ + reg_text(l) + ", "@
            + reg_text(r),
        Inst::Mov(d, v) => "mov "@ + reg_text(d) + ", #"@ + decimal_int(v as int),
        Inst::Adr(d, idx) => "adr "@ + reg_text(d) + ", .lit"@ + decimal_nat(idx as nat),
    }
}

/// The intermediate-code text of an instruction over virtual registers.
pub open spec fn ir_inst_text(i: Inst<VRegModel>) -> Seq<char> {
    match i {
        Inst::Binop(d, op, l, r) => vreg_text(d) + " = "@ + op_mnemonic(op) + " "@ + vreg_text(l) + ", "@
            + vreg_text(r),
        Inst::Mov(d, v) => vreg_text(d) + " = int #"@ + decimal_int(v as int),
        Inst::Adr(d, idx) => vreg_text(d) + " = adr $lit"@ + decimal_nat(idx as nat),
    }
}

impl Inst<Reg> {
    /// Renders the instruction as assembler text, such as `add X8, X0, X9`.
    pub fn to_string(&self) -> (s: String)
        ensures
            s@ == asm_inst_text(self@),
    {
        match self {
            Inst::Binop(d, op, l, r) => {
                let mut s = String::from_str(mnemonic(*op));
                s.append(" ");
                s.append(d.to_string().as_str());
                s.append(", ");
                s.append(l.to_string().as_str());
                s.append(", ");
                s.append(r.to_string().as_str());
                s
            },
            Inst::Mov(d, v) => {
                let mut s = String::from_str("mov ");
                s.append(d.to_string().as_str());
                s.append(", #");
                push_i64(&mut s, *v);
                s
            },
            Inst::Adr(d, idx) => {
                let mut s = String::from_str("adr ");
                s.append(d.to_string().as_str());
                s.append(", .lit");
                push_usize(&mut s, *idx);
                s
            },
        }
    }
}

impl Inst<VReg> {
    /// Renders the instruction as intermediate code, such as `%2 = add %0, %1`.
    pub fn to_string(&self) -> (s: String)
        ensures
            s@ == ir_inst_text(self@),
    {
        match self {
            Inst::Binop(d, op, l, r) => {
                let mut s = d.to_string();
                s.append(" = ");
                s.append(mnemonic(*op));
                s.append(" ");
                s.append(l.to_string().as_str());
                s.append(", ");
                s.append(r.to_string().as_str());
                s
            },
            Inst::Mov(d, v) => {
                let mut s = d.to_string();
                s.append(" = int #");
                push_i64(&mut s, *v);
                s
            },
            Inst::Adr(d, idx) => {
                let mut s = d.to_string();
                s.append(" = adr $lit");
                push_usize(&mut s, *idx);
                s
            },
        }
    }
}

} // verus!
