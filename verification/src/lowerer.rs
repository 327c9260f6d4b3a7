use vstd::prelude::*;

use crate::collect_strings::decl_views;
use crate::types::ast::texts;
use crate::types::ctx::fn_views;
use crate::types::func::{inst_views, reg_views};
use crate::types::vreg::{vreg_index, vreg_named, vreg_succ};
use crate::types::{Ctx, Decl, DeclModel, Expr, ExprModel, Fn, FnModel, Inst, VReg, VRegModel};

verus! {

/// The position of the first register in `args` named `n`, or the length of `args`.
pub open spec fn first_named(args: Seq<VRegModel>, n: Seq<char>) -> int
    decreases args.len(),
{
    if args.len() == 0 {
        0
    } else if vreg_named(args[0], n) {
        0
    } else {
        1 + first_named(args.drop_first(), n)
    }
}

/// The instructions that compute `e` into registers numbered from `reg` on, and the
/// register that holds the result. An identifier is the first argument register
/// with its name, and needs no instruction; each literal is moved into the current
/// register; an operation computes its left operand from the current register, its
/// right operand from the register after the left one's result, and writes the
/// register after the right one's result.
pub open spec fn lower_spec(args: Seq<VRegModel>, reg: VRegModel, e: ExprModel<usize>) -> (
    VRegModel,
    Seq<Inst<VRegModel>>,
)
    decreases e,
{
    match e {
        ExprModel::Binop(op, l, r) => {
            let (lr, li) = lower_spec(args, reg, *l);
            let (rr, ri) = lower_spec(args, vreg_succ(lr), *r);
            let d = vreg_succ(rr);
            (d, li + ri + seq![Inst::Binop(d, op, lr, rr)])
        },
        ExprModel::Identifier(n) => (args[first_named(args, n)], Seq::empty()),
        ExprModel::Integer(v) => (reg, seq![Inst::Mov(reg, v)]),
        ExprModel::String(i) => (reg, seq![Inst::Adr(reg, i)]),
    }
}

/// A register that has a successor within the numbering.
pub open spec fn has_succ(v: VRegModel) -> bool {
    !(v is Indexed && vreg_index(v) == usize::MAX)
}

/// Whether `e` can be lowered from `reg`: each identifier names an argument and no
/// register number runs past `usize::MAX`.
pub open spec fn lower_fits(args: Seq<VRegModel>, reg: VRegModel, e: ExprModel<usize>) -> bool
    decreases e,
{
    match e {
        ExprModel::Binop(op, l, r) => {
            let (lr, li) = lower_spec(args, reg, *l);
            let (rr, ri) = lower_spec(args, vreg_succ(lr), *r);
            &&& lower_fits(args, reg, *l)
            &&& has_succ(lr)
            &&& lower_fits(args, vreg_succ(lr), *r)
            &&& has_succ(rr)
        },
        ExprModel::Identifier(n) => first_named(args, n) < args.len(),
        ExprModel::Integer(_) => true,
        ExprModel::String(_) => true,
    }
}

/// Lowers an expression into instructions over virtual registers, numbering them
/// from `reg`; returns the result register and the instructions.
pub fn lower_expr(args: &[VReg], reg: VReg, expr: Expr<usize>) -> (r: (VReg, Vec<Inst<VReg>>))
    requires
        lower_fits(reg_views(args@), reg@, expr@),
    ensures
        (r.0@, inst_views(r.1@)) == lower_spec(reg_views(args@), reg@, expr@),
    decreases expr,
{
    let ghost a = reg_views(args@);
    match expr {
        Expr::Binop(op, lhs, rhs) => {
            let (lhs_reg, lhs_insts) = lower_expr(args, reg, *lhs);
            let (rhs_reg, rhs_insts) = lower_expr(args, lhs_reg.succ(), *rhs);
            let reg = rhs_reg.succ();
            let ghost li = inst_views(lhs_insts@);
            let ghost ri = inst_views(rhs_insts@);
            let ghost last = Inst::Binop(reg@, op, lhs_reg@, rhs_reg@);
            let mut insts = lhs_insts;
            let mut rest = rhs_insts;
            insts.append(&mut rest);
            insts.push(Inst::Binop(reg.clone(), op, lhs_reg, rhs_reg));
            proof {
                assert(inst_views(insts@) =~= li + ri + seq![last]);
            }
            (reg, insts)
        },
        Expr::Identifier(value) => {
            let mut i: usize = 0;
            proof {
                assert(a.skip(0) =~= a);
            }
            while i < args.len()
                invariant
                    a == reg_views(args@),
                    lower_spec(a, reg@, expr@) == (a[first_named(a, value@)], Seq::<Inst<VRegModel>>::empty()),
                    i <= args.len(),
                    first_named(a, value@) < a.len(),
                    first_named(a, value@) == i + first_named(a.skip(i as int), value@),
                decreases args.len() - i,
            {
                if args[i].is_named(value.as_str()) {
                    proof {
                        assert(a.skip(i as int)[0] == a[i as int]);
                        assert(first_named(a.skip(i as int), value@) == 0);
                        assert(a[i as int] == args@[i as int]@);
                    }
                    let none: Vec<Inst<VReg>> = Vec::new();
                    proof {
                        assert(inst_views(none@) =~= Seq::<Inst<VRegModel>>::empty());
                    }
                    return (args[i].clone(), none);
                }
                proof {
                    assert(a.skip(i as int).drop_first() =~= a.skip(i + 1));
                }
                i = i + 1;
            }
            proof {
                assert(a.skip(i as int).len() == 0);
            }
            (args[0].clone(), Vec::new())
        },
        Expr::Integer(value) => {
            let r = reg.clone();
            (r, vec![Inst::Mov(reg, value)])
        },
        Expr::String(index) => {
            let r = reg.clone();
            (r, vec![Inst::Adr(reg, index)])
        },
    }
}

/// The number of nodes of an expression.
pub open spec fn expr_size<T>(e: ExprModel<T>) -> nat
    decreases e,
{
    match e {
        ExprModel::Binop(_, l, r) => 1 + expr_size(*l) + expr_size(*r),
        _ => 1,
    }
}

/// How many temporaries the lowered code of `e` holds at once at its peak: a leaf
/// holds one; an operation evaluates its left operand, then its right one while the
/// left value is held.
pub open spec fn regs_needed<T>(e: ExprModel<T>) -> nat
    decreases e,
{
    match e {
        ExprModel::Binop(_, l, r) => {
            let nl = regs_needed(*l);
            let nr = 1 + regs_needed(*r);
            if nl >= nr {
                nl
            } else {
                nr
            }
        },
        _ => 1,
    }
}

/// Whether every identifier of `e` is one of `names`.
pub open spec fn idents_within<T>(e: ExprModel<T>, names: Seq<Seq<char>>) -> bool
    decreases e,
{
    match e {
        ExprModel::Binop(_, l, r) => idents_within(*l, names) && idents_within(*r, names),
        ExprModel::Identifier(n) => names.contains(n),
        _ => true,
    }
}

/// The argument registers of a function: one per parameter, carrying its name and
/// numbered 0.
pub open spec fn named_args(names: Seq<Seq<char>>) -> Seq<VRegModel> {
    names.map_values(|n: Seq<char>| VRegModel::Named(n, 0))
}

/// What lowering a declaration gives: its parameters become named registers, and its
/// body is lowered from the register numbered 0.
pub open spec fn lower_decl_spec(d: DeclModel<usize>) -> FnModel<VRegModel> {
    match d {
        DeclModel::Bind(name, params, body) => {
            let args = named_args(params);
            let (ret, insts) = lower_spec(args, VRegModel::Indexed(0), body);
            FnModel { name, args, insts, ret }
        },
    }
}

/// Whether a declaration can be lowered: its body names only its parameters, and its
/// registers can be numbered within `usize`.
pub open spec fn decl_lowerable(d: DeclModel<usize>) -> bool {
    match d {
        DeclModel::Bind(_, params, body) => idents_within(body, params) && expr_size(body) <= usize::MAX,
    }
}

proof fn lemma_first_named(names: Seq<Seq<char>>, n: Seq<char>)
    requires
        names.contains(n),
    ensures
        0 <= first_named(named_args(names), n) < names.len(),
    decreases names.len(),
{
    let a = named_args(names);
    if names[0] != n {
        assert(a.drop_first() =~= named_args(names.drop_first()));
        let k = choose|k: int| 0 <= k < names.len() && names[k] == n;
        assert(names.drop_first()[k - 1] == n);
        lemma_first_named(names.drop_first(), n);
    }
}

proof fn lemma_lower_fits(names: Seq<Seq<char>>, reg: VRegModel, e: ExprModel<usize>)
    requires
        idents_within(e, names),
        vreg_index(reg) + expr_size(e) <= usize::MAX,
    ensures
        lower_fits(named_args(names), reg, e),
        vreg_index(lower_spec(named_args(names), reg, e).0) + 1 <= vreg_index(reg) + expr_size(e),
    decreases e,
{
    let args = named_args(names);
    match e {
        ExprModel::Binop(op, l, r) => {
            lemma_lower_fits(names, reg, *l);
            let lr = lower_spec(args, reg, *l).0;
            lemma_lower_fits(names, vreg_succ(lr), *r);
        },
        ExprModel::Identifier(n) => {
            lemma_first_named(names, n);
            let k = first_named(args, n);
            assert(args[k] == VRegModel::Named(names[k], 0));
        },
        _ => {},
    }
}

/// Lowers a declaration to a function over virtual registers.
pub fn lower_decl(decl: Decl<usize>) -> (f: Fn<VReg>)
    requires
        decl_lowerable(decl@),
    ensures
        f@ == lower_decl_spec(decl@),
{
    match decl {
        Decl::Bind(symbol, args, expr) => {
            let reg = VReg::default();
            let mut regs: Vec<VReg> = Vec::new();
            let mut i: usize = 0;
            while i < args.len()
                invariant
                    i <= args.len(),
                    reg@ == VRegModel::Indexed(0),
                    reg_views(regs@) == named_args(texts(args@)).take(i as int),
                decreases args.len() - i,
            {
                let ghost prev = regs@;
                let a = reg.with_name(args[i].clone());
                let ghost av = a@;
                regs.push(a);
                proof {
                    assert(reg_views(regs@) =~= reg_views(prev).push(av));
                    assert(named_args(texts(args@)).take(i + 1) =~= named_args(texts(args@)).take(i as int).push(av));
                }
                i = i + 1;
            }
            proof {
                assert(named_args(texts(args@)).take(i as int) =~= named_args(texts(args@)));
                lemma_lower_fits(texts(args@), reg@, expr@);
            }
            let (ret, insts) = lower_expr(regs.as_slice(), reg, expr);
            Fn::new(symbol, regs, insts, ret)
        },
    }
}

/// Lowers every declaration, in order, keeping the string table.
pub fn lower(strings: Vec<String>, decls: Vec<Decl<usize>>) -> (c: Ctx<VReg>)
    requires
        forall|i: int| 0 <= i < decls.len() ==> decl_lowerable(#[trigger] decls@[i]@),
    ensures
        c@.strings == texts(strings@),
        c@.fns == decl_views(decls@).map_values(|d: DeclModel<usize>| lower_decl_spec(d)),
{
    let ghost ds = decls@;
    let mut fns: Vec<Fn<VReg>> = Vec::new();
    for d in it: decls
        invariant
            it.seq() == ds,
            forall|i: int| 0 <= i < ds.len() ==> decl_lowerable(#[trigger] ds[i]@),
            fn_views(fns@) == decl_views(ds.take(it.index() as int)).map_values(
                |d: DeclModel<usize>| lower_decl_spec(d),
            ),
    {
        let ghost k = it.index();
        let ghost prev = fns@;
        proof {
            assert(d == ds[k as int]);
        }
        let f = lower_decl(d);
        let ghost fv = f@;
        fns.push(f);
        proof {
            assert(fn_views(fns@) =~= fn_views(prev).push(fv));
            assert(decl_views(ds.take(k + 1)).map_values(|d: DeclModel<usize>| lower_decl_spec(d))
                =~= decl_views(ds.take(k as int)).map_values(|d: DeclModel<usize>| lower_decl_spec(d)).push(fv));
        }
    }
    proof {
        assert(ds.take(ds.len() as int) =~= ds);
    }
    Ctx::new(strings, fns)
}

/// The number of nodes of an expression, if it fits in `usize`.
fn checked_size(e: &Expr<usize>) -> (r: Option<usize>)
    ensures
        match r {
            Some(n) => n == expr_size(e@),
            None => expr_size(e@) > usize::MAX,
        },
    decreases e,
{
    match e {
        Expr::Binop(_, l, r) => {
            let a = checked_size(l)?;
            let b = checked_size(r)?;
            match a.checked_add(b) {
                Some(c) => c.checked_add(1),
                None => None,
            }
        },
        _ => Some(1),
    }
}

/// Whether `name` is one of `names`.
fn has_name(names: &Vec<String>, name: &String) -> (r: bool)
    ensures
        r == texts(names@).contains(name@),
{
    let mut i: usize = 0;
    while i < names.len()
        invariant
            i <= names.len(),
            forall|j: int| 0 <= j < i ==> names@[j]@ != name@,
        decreases names.len() - i,
    {
        if names[i] == *name {
            proof {
                assert(texts(names@)[i as int] == name@);
            }
            return true;
        }
        i = i + 1;
    }
    proof {
        if texts(names@).contains(name@) {
            let j = choose|j: int| 0 <= j < texts(names@).len() && texts(names@)[j] == name@;
            assert(names@[j]@ == name@);
        }
    }
    false
}

/// Whether every identifier of `e` is one of `names`.
fn idents_bound(e: &Expr<usize>, names: &Vec<String>) -> (r: bool)
    ensures
        r == idents_within(e@, texts(names@)),
    decreases e,
{
    match e {
        Expr::Binop(_, l, r) => idents_bound(l, names) && idents_bound(r, names),
        Expr::Identifier(n) => has_name(names, n),
        _ => true,
    }
}

/// Whether a declaration can be lowered: its body names only its parameters, and
/// its registers can be numbered within `usize`.
pub fn is_lowerable(decl: &Decl<usize>) -> (r: bool)
    ensures
        r == decl_lowerable(decl@),
{
    match decl {
        Decl::Bind(_, args, body) => idents_bound(body, args) && checked_size(body).is_some(),
    }
}

} // verus!
