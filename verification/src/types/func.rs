use vstd::prelude::*;

use super::inst::{asm_inst_text, ir_inst_text, Inst};
use super::reg::Reg;
use super::vreg::{vreg_text, VReg, VRegModel};

verus! {

/// A compiled function: its name, the registers holding its arguments, its
/// instructions and the register holding its result.
#[derive(Debug)]
pub struct Fn<R> {
    pub name: String,
    pub args: Vec<R>,
    pub insts: Vec<Inst<R>>,
    pub ret: R,
}

/// What a compiled function denotes.
pub struct FnModel<T> {
    pub name: Seq<char>,
    pub args: Seq<T>,
    pub insts: Seq<Inst<T>>,
    pub ret: T,
}

/// The views of a list of registers.
pub open spec fn reg_views<R: View>(v: Seq<R>) -> Seq<R::V> {
    v.map_values(|r: R| r@)
}

/// The views of a list of instructions.
pub open spec fn inst_views<R: View>(v: Seq<Inst<R>>) -> Seq<Inst<R::V>> {
    v.map_values(|i: Inst<R>| i@)
}

impl<R: View> View for Fn<R> {
    type V = FnModel<R::V>;

    open spec fn view(&self) -> FnModel<R::V> {
        FnModel {
            name: self.name@,
            args: reg_views(self.args@),
            insts: inst_views(self.insts@),
            ret: self.ret@,
        }
    }
}

impl<R: View> Fn<R> {
    /// A function from its parts.
    pub fn new(name: String, args: Vec<R>, insts: Vec<Inst<R>>, ret: R) -> (f: Self)
        ensures
            f.name == name,
            f.args == args,
            f.insts == insts,
            f.ret == ret,
    {
        Fn { name, args, insts, ret }
    }

    /// The parts of the function: name, argument registers, instructions, result register.
    pub fn consume(self) -> (r: (String, Vec<R>, Vec<Inst<R>>, R))
        ensures
            r.0 == self.name,
            r.1 == self.args,
            r.2 == self.insts,
            r.3 == self.ret,
    {
        (self.name, self.args, self.insts, self.ret)
    }
}

/// The texts of a list of parts joined by `sep`.
pub open spec fn join(parts: Seq<Seq<char>>, sep: Seq<char>) -> Seq<char>
    decreases parts.len(),
{
    if parts.len() == 0 {
        Seq::empty()
    } else if parts.len() == 1 {
        parts[0]
    } else {
        join(parts.drop_last(), sep) + sep + parts.last()
    }
}

/// Each part on a line of its own, indented by two spaces.
pub open spec fn indented_lines(parts: Seq<Seq<char>>) -> Seq<char>
    decreases parts.len(),
{
    if parts.len() == 0 {
        Seq::empty()
    } else {
        indented_lines(parts.drop_last()) + "  "@ + parts.last() + "\n"@
    }
}

/// The assembler text of a function: its label, its instructions, then `ret`.
pub open spec fn asm_fn_text(f: FnModel<Reg>) -> Seq<char> {
    f.name + ":\n"@ + indented_lines(f.insts.map_values(|i: Inst<Reg>| asm_inst_text(i))) + "  ret"@
}

/// The intermediate-code text of a function: header with its argument registers,
/// its instructions, the `ret` of its result register, and the closing brace.
pub open spec fn ir_fn_text(f: FnModel<VRegModel>) -> Seq<char> {
    "fn $"@ + f.name + "("@ + join(f.args.map_values(|a: VRegModel| vreg_text(a)), ", "@) + ") {\n"@
        + indented_lines(f.insts.map_values(|i: Inst<VRegModel>| ir_inst_text(i))) + "  ret "@
        + vreg_text(f.ret) + "\n}"@
}

impl Fn<Reg> {
    /// Renders the function as assembler text.
    pub fn to_string(&self) -> (s: String)
        ensures
            s@ == asm_fn_text(self@),
    {
        let mut s = self.name.clone();
        s.append(":\n");
        let ghost head = s@;
        let ghost texts = self@.insts.map_values(|i: Inst<Reg>| asm_inst_text(i));
        let mut k: usize = 0;
        while k < self.insts.len()
            invariant
                k <= self.insts.len(),
                texts.len() == self.insts.len(),
                forall|j: int| 0 <= j < texts.len() ==> #[trigger] texts[j] == asm_inst_text(self.insts@[j]@),
                s@ == head + indented_lines(texts.take(k as int)),
            decreases self.insts.len() - k,
        {
            s.append("  ");
            s.append(self.insts[k].to_string().as_str());
            s.append("\n");
            proof {
                assert(texts.take(k + 1).drop_last() =~= texts.take(k as int));
            }
            k = k + 1;
        }
        proof {
            assert(texts.take(k as int) =~= texts);
        }
        s.append("  ret");
        s
    }
}

impl Fn<VReg> {
    /// Renders the function as intermediate code.
    pub fn to_string(&self) -> (s: String)
        ensures
            s@ == ir_fn_text(self@),
    {
        let mut s = String::from_str("fn $");
        s.append(self.name.as_str());
        s.append("(");
        let ghost head = s@;
        let ghost names = self@.args.map_values(|a: VRegModel| vreg_text(a));
        let mut k: usize = 0;
        while k < self.args.len()
            invariant
                k <= self.args.len(),
                names.len() == self.args.len(),
                forall|j: int| 0 <= j < names.len() ==> #[trigger] names[j] == vreg_text(self.args@[j]@),
                s@ == head + join(names.take(k as int), ", "@),
            decreases self.args.len() - k,
        {
            if k > 0 {
                s.append(", ");
            }
            s.append(self.args[k].to_string().as_str());
            proof {
                assert(names.take(k + 1).drop_last() =~= names.take(k as int));
                if k == 0 {
                    assert(names.take(1)[0] == names[0]);
                }
            }
            k = k + 1;
        }
        proof {
            assert(names.take(k as int) =~= names);
        }
        s.append(") {\n");
        let ghost mid = s@;
        let ghost texts = self@.insts.map_values(|i: Inst<VRegModel>| ir_inst_text(i));
        let mut k: usize = 0;
        while k < self.insts.len()
            invariant
                k <= self.insts.len(),
                texts.len() == self.insts.len(),
                forall|j: int| 0 <= j < texts.len() ==> #[trigger] texts[j] == ir_inst_text(self.insts@[j]@),
                s@ == mid + indented_lines(texts.take(k as int)),
            decreases self.insts.len() - k,
        {
            s.append("  ");
            s.append(self.insts[k].to_string().as_str());
            s.append("\n");
            proof {
                assert(texts.take(k + 1).drop_last() =~= texts.take(k as int));
            }
            k = k + 1;
        }
        proof {
            assert(texts.take(k as int) =~= texts);
        }
        s.append("  ret ");
        s.append(self.ret.to_string().as_str());
        s.append("\n}");
        s
    }
}

} // verus!
