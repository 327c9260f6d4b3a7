use vstd::prelude::*;

use super::ast::texts;
use super::func::{asm_fn_text, ir_fn_text, join, Fn, FnModel};
use super::reg::Reg;
use super::vreg::{VReg, VRegModel};
use crate::text::{decimal_nat, push_usize};

verus! {

/// A compilation unit: the string table and the compiled functions.
#[derive(Debug)]
pub struct Ctx<R> {
    pub strings: Vec<String>,
    pub fns: Vec<Fn<R>>,
}

/// What a compilation unit denotes.
pub struct CtxModel<T> {
    pub strings: Seq<Seq<char>>,
    pub fns: Seq<FnModel<T>>,
}

/// The views of a list of functions.
pub open spec fn fn_views<R: View>(v: Seq<Fn<R>>) -> Seq<FnModel<R::V>> {
    v.map_values(|f: Fn<R>| f@)
}

impl<R: View> View for Ctx<R> {
    type V = CtxModel<R::V>;

    open spec fn view(&self) -> CtxModel<R::V> {
        CtxModel { strings: texts(self.strings@), fns: fn_views(self.fns@) }
    }
}

impl<R: View> Ctx<R> {
    /// A unit from its string table and functions.
    pub fn new(strings: Vec<String>, fns: Vec<Fn<R>>) -> (c: Self)
        ensures
            c.strings == strings,
            c.fns == fns,
    {
        Ctx { strings, fns }
    }

    /// The string table and the functions of the unit.
    pub fn consume(self) -> (r: (Vec<String>, Vec<Fn<R>>))
        ensures
            r.0 == self.strings,
            r.1 == self.fns,
    {
        (self.strings, self.fns)
    }
}

/// The assembler directive for the string literal at index `k`.
pub open spec fn asm_literal_text(k: int, s: Seq<char>) -> Seq<char> {
    ".lit"@ + decimal_nat(k as nat) + ": .ascii \""@ + s + "\""@
}

/// The intermediate-code binding for the string literal at index `k`.
pub open spec fn ir_literal_text(k: int, s: Seq<char>) -> Seq<char> {
    "let $lit"@ + decimal_nat(k as nat) + " = \""@ + s + "\""@
}

/// The functions, separated by blank lines, then a line feed; then, when the table
/// is not empty, a blank line and the literals separated by blank lines.
pub open spec fn unit_text(fns: Seq<Seq<char>>, literals: Seq<Seq<char>>) -> Seq<char> {
    join(fns, "\n\n"@) + "\n"@ + if literals.len() > 0 {
        "\n"@ + join(literals, "\n\n"@) + "\n"@
    } else {
        Seq::empty()
    }
}

/// The assembler text of a unit.
pub open spec fn asm_ctx_text(c: CtxModel<Reg>) -> Seq<char> {
    unit_text(
        c.fns.map_values(|f: FnModel<Reg>| asm_fn_text(f)),
        Seq::new(c.strings.len(), |k: int| asm_literal_text(k, c.strings[k])),
    )
}

/// The intermediate-code text of a unit.
pub open spec fn ir_ctx_text(c: CtxModel<VRegModel>) -> Seq<char> {
    unit_text(
        c.fns.map_values(|f: FnModel<VRegModel>| ir_fn_text(f)),
        Seq::new(c.strings.len(), |k: int| ir_literal_text(k, c.strings[k])),
    )
}

/// Appends `sep` before every part but the first.
fn push_joined(s: &mut String, parts: &Vec<String>, sep: &str)
    ensures
        final(s)@ == old(s)@ + join(texts(parts@), sep@),
{
    let ghost head = old(s)@;
    let ghost all = texts(parts@);
    let mut k: usize = 0;
    while k < parts.len()
        invariant
            k <= parts.len(),
            all == texts(parts@),
            s@ == head + join(all.take(k as int), sep@),
        decreases parts.len() - k,
    {
        if k > 0 {
            s.append(sep);
        }
        s.append(parts[k].as_str());
        proof {
            assert(all.take(k + 1).drop_last() =~= all.take(k as int));
            if k == 0 {
                assert(all.take(1)[0] == all[0]);
            }
        }
        k = k + 1;
    }
    proof {
        assert(all.take(k as int) =~= all);
    }
}

impl Ctx<Reg> {
    /// Renders the unit as assembler text: the functions, then the literals as
    /// `.lit<k>: .ascii "<text>"`.
    pub fn to_string(&self) -> (s: String)
        ensures
            s@ == asm_ctx_text(self@),
    {
        let mut fns: Vec<String> = Vec::new();
        let mut k: usize = 0;
        while k < self.fns.len()
            invariant
                k <= self.fns.len(),
                texts(fns@) == fn_views(self.fns@).take(k as int).map_values(|f: FnModel<Reg>| asm_fn_text(f)),
            decreases self.fns.len() - k,
        {
            let ghost prev = fns@;
            fns.push(self.fns[k].to_string());
            proof {
                assert(texts(fns@) =~= texts(prev).push(asm_fn_text(self.fns@[k as int]@)));
                assert(fn_views(self.fns@).take(k + 1).map_values(|f: FnModel<Reg>| asm_fn_text(f))
                    =~= fn_views(self.fns@).take(k as int).map_values(|f: FnModel<Reg>| asm_fn_text(f)).push(
                    asm_fn_text(self.fns@[k as int]@),
                ));
            }
            k = k + 1;
        }
        let mut lits: Vec<String> = Vec::new();
        let mut k: usize = 0;
        while k < self.strings.len()
            invariant
                k <= self.strings.len(),
                texts(lits@) == Seq::new(k as nat, |j: int| asm_literal_text(j, self.strings@[j]@)),
            decreases self.strings.len() - k,
        {
            let mut t = String::from_str(".lit");
            push_usize(&mut t, k);
            t.append(": .ascii \"");
            t.append(self.strings[k].as_str());
            t.append("\"");
            let ghost prev = lits@;
            proof {
                assert(t@ =~= asm_literal_text(k as int, self.strings@[k as int]@));
            }
            let ghost tv = t@;
            lits.push(t);
            proof {
                assert(texts(lits@) =~= texts(prev).push(tv));
                assert(texts(lits@) =~= Seq::new((k + 1) as nat, |j: int| asm_literal_text(j, self.strings@[j]@)));
            }
            k = k + 1;
        }
        let mut s = String::new();
        push_joined(&mut s, &fns, "\n\n");
        s.append("\n");
        if lits.len() > 0 {
            s.append("\n");
            push_joined(&mut s, &lits, "\n\n");
            s.append("\n");
        }
        proof {
            assert(fn_views(self.fns@).take(self.fns.len() as int) =~= self@.fns);
            assert(Seq::new(self.strings.len() as nat, |j: int| asm_literal_text(j, self.strings@[j]@))
                =~= Seq::new(self@.strings.len(), |k: int| asm_literal_text(k, self@.strings[k])));
        }
        s
    }
}

impl Ctx<VReg> {
    /// Renders the unit as intermediate code: the functions, then the literals as
    /// `let $lit<k> = "<text>"`.
    pub fn to_string(&self) -> (s: String)
        ensures
            s@ == ir_ctx_text(self@),
    {
        let mut fns: Vec<String> = Vec::new();
        let mut k: usize = 0;
        while k < self.fns.len()
            invariant
                k <= self.fns.len(),
                texts(fns@) == fn_views(self.fns@).take(k as int).map_values(|f: FnModel<VRegModel>| ir_fn_text(f)),
            decreases self.fns.len() - k,
        {
            let ghost prev = fns@;
            fns.push(self.fns[k].to_string());
            proof {
                assert(texts(fns@) =~= texts(prev).push(ir_fn_text(self.fns@[k as int]@)));
                assert(fn_views(self.fns@).take(k + 1).map_values(|f: FnModel<VRegModel>| ir_fn_text(f))
                    =~= fn_views(self.fns@).take(k as int).map_values(|f: FnModel<VRegModel>| ir_fn_text(f)).push(
                    ir_fn_text(self.fns@[k as int]@),
                ));
            }
            k = k + 1;
        }
        let mut lits: Vec<String> = Vec::new();
        let mut k: usize = 0;
        while k < self.strings.len()
            invariant
                k <= self.strings.len(),
                texts(lits@) == Seq::new(k as nat, |j: int| ir_literal_text(j, self.strings@[j]@)),
            decreases self.strings.len() - k,
        {
            let mut t = String::from_str("let $lit");
            push_usize(&mut t, k);
            t.append(" = \"");
            t.append(self.strings[k].as_str());
            t.append("\"");
            let ghost prev = lits@;
            proof {
                assert(t@ =~= ir_literal_text(k as int, self.strings@[k as int]@));
            }
            let ghost tv = t@;
            lits.push(t);
            proof {
                assert(texts(lits@) =~= texts(prev).push(tv));
                assert(texts(lits@) =~= Seq::new((k + 1) as nat, |j: int| ir_literal_text(j, self.strings@[j]@)));
            }
            k = k + 1;
        }
        let mut s = String::new();
        push_joined(&mut s, &fns, "\n\n");
        s.append("\n");
        if lits.len() > 0 {
            s.append("\n");
            push_joined(&mut s, &lits, "\n\n");
            s.append("\n");
        }
        proof {
            assert(fn_views(self.fns@).take(self.fns.len() as int) =~= self@.fns);
            assert(Seq::new(self.strings.len() as nat, |j: int| ir_literal_text(j, self.strings@[j]@))
                =~= Seq::new(self@.strings.len(), |k: int| ir_literal_text(k, self@.strings[k])));
        }
        s
    }
}

} // verus!
