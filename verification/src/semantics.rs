use vstd::prelude::*;

use crate::lowerer::{expr_size, lower_spec};
use crate::types::inst::inst_dst;
use crate::types::vreg::vreg_succ;
use crate::types::{Binop, ExprModel, Inst, VRegModel};

verus! {

/// The value of an operator applied to two values.
pub open spec fn apply(op: Binop, a: int, b: int) -> int {
    match op {
        Binop::Add => a + b,
        Binop::Sub => a - b,
    }
}

/// The value of an expression, given the address of each string literal (by its
/// index in the table) and the value of each identifier.
pub open spec fn eval_expr(e: ExprModel<usize>, addr: spec_fn(usize) -> int, ident: spec_fn(Seq<char>) -> int) -> int
    decreases e,
{
    match e {
        ExprModel::Binop(op, l, r) => apply(op, eval_expr(*l, addr, ident), eval_expr(*r, addr, ident)),
        ExprModel::Identifier(n) => ident(n),
        ExprModel::Integer(v) => v as int,
        ExprModel::String(i) => addr(i),
    }
}

/// Whether an expression names no identifier.
pub open spec fn ident_free<T>(e: ExprModel<T>) -> bool
    decreases e,
{
    match e {
        ExprModel::Binop(_, l, r) => ident_free(*l) && ident_free(*r),
        ExprModel::Identifier(_) => false,
        _ => true,
    }
}

/// The contents of the registers with `d` set to `v`.
pub open spec fn write<T>(env: spec_fn(T) -> int, d: T, v: int) -> spec_fn(T) -> int {
    |x: T| if x == d { v } else { env(x) }
}

/// The value an instruction computes from the registers' contents: an operation
/// reads its operands, a move its immediate, an address load the literal's address.
pub open spec fn inst_value<T>(env: spec_fn(T) -> int, i: Inst<T>, addr: spec_fn(usize) -> int) -> int {
    match i {
        Inst::Binop(_, op, l, r) => apply(op, env(l), env(r)),
        Inst::Mov(_, v) => v as int,
        Inst::Adr(_, idx) => addr(idx),
    }
}

/// The registers' contents after running the instructions in order from `env`;
/// each instruction reads its operands, then writes its destination.
pub open spec fn run<T>(env: spec_fn(T) -> int, s: Seq<Inst<T>>, addr: spec_fn(usize) -> int) -> spec_fn(T) -> int
    decreases s.len(),
{
    if s.len() == 0 {
        env
    } else {
        let before = run(env, s.drop_last(), addr);
        write(before, inst_dst(s.last()), inst_value(before, s.last(), addr))
    }
}

/// Running two lists of instructions one after the other is running their
/// concatenation.
pub proof fn lemma_run_concat<T>(env: spec_fn(T) -> int, s1: Seq<Inst<T>>, s2: Seq<Inst<T>>, addr: spec_fn(usize) -> int)
    ensures
        run(env, s1 + s2, addr) == run(run(env, s1, addr), s2, addr),
    decreases s2.len(),
{
    if s2.len() == 0 {
        assert(s1 + s2 =~= s1);
    } else {
        assert((s1 + s2).drop_last() =~= s1 + s2.drop_last());
        assert((s1 + s2).last() == s2.last());
        lemma_run_concat(env, s1, s2.drop_last(), addr);
    }
}

/// Running one instruction writes its value to its destination.
pub proof fn lemma_run_one<T>(env: spec_fn(T) -> int, i: Inst<T>, addr: spec_fn(usize) -> int)
    ensures
        run(env, seq![i], addr) == write(env, inst_dst(i), inst_value(env, i, addr)),
{
    assert(seq![i].drop_last() =~= Seq::<Inst<T>>::empty());
    assert(run(env, Seq::<Inst<T>>::empty(), addr) == env);
}

/// The numbered register `k`.
pub open spec fn ix(k: int) -> VRegModel {
    VRegModel::Indexed(k as usize)
}

/// Whether `v` is a numbered register in `[lo, hi)`.
pub open spec fn in_range(v: VRegModel, lo: int, hi: int) -> bool {
    v matches VRegModel::Indexed(i) && lo <= i < hi
}

/// Lowering an expression without identifiers from the register numbered `k` gives
/// one instruction per node, whose destinations are the registers numbered `k`,
/// `k + 1`, ... in order; the result is in the last of them, and running the
/// instructions leaves the value of the expression there and every other register
/// as it was.
#[verifier::spinoff_prover]
pub proof fn law_lower_computes(
    args: Seq<VRegModel>,
    k: int,
    e: ExprModel<usize>,
    env: spec_fn(VRegModel) -> int,
    addr: spec_fn(usize) -> int,
    ident: spec_fn(Seq<char>) -> int,
)
    requires
        ident_free(e),
        0 <= k,
        k + expr_size(e) <= usize::MAX,
    ensures
        lower_spec(args, ix(k), e).0 == ix(k + expr_size(e) - 1),
        lower_spec(args, ix(k), e).1.len() == expr_size(e),
        forall|j: int| 0 <= j < expr_size(e) ==> inst_dst(#[trigger] lower_spec(args, ix(k), e).1[j]) == ix(k + j),
        run(env, lower_spec(args, ix(k), e).1, addr)(ix(k + expr_size(e) - 1)) == eval_expr(e, addr, ident),
        forall|x: VRegModel| !in_range(x, k, k + expr_size(e)) ==> #[trigger] run(env, lower_spec(args, ix(k), e).1, addr)(x) == env(x),
    decreases e,
{
    match e {
        ExprModel::Binop(op, l, r) => {
            let sl = expr_size(*l);
            let sr = expr_size(*r);
            law_lower_computes(args, k, *l, env, addr, ident);
            let (lr, li) = lower_spec(args, ix(k), *l);
            assert(lr == ix(k + sl - 1));
            assert(vreg_succ(lr) == ix(k + sl));
            let env1 = run(env, li, addr);
            law_lower_computes(args, k + sl, *r, env1, addr, ident);
            let (rr, ri) = lower_spec(args, ix(k + sl), *r);
            let env2 = run(env1, ri, addr);
            let d = ix(k + sl + sr);
            assert(vreg_succ(rr) == d);
            let last = Inst::Binop(d, op, lr, rr);
            let insts = li + ri + seq![last];
            assert(lower_spec(args, ix(k), e) == (d, insts));
            lemma_run_concat(env, li, ri, addr);
            lemma_run_concat(env, li + ri, seq![last], addr);
            assert(seq![last].drop_last() =~= Seq::<Inst<VRegModel>>::empty());
            assert(run(env1, ri, addr) == run(run(env, li, addr), ri, addr));
            assert(run(env, li + ri, addr) == env2);
            let env3 = run(env2, seq![last], addr);
            lemma_run_one(env2, last, addr);
            assert(run(env, insts, addr) == env3);
            assert(!in_range(lr, k + sl, k + sl + sr));
            assert(env2(lr) == env1(lr));
            assert(env3(d) == eval_expr(e, addr, ident));
            assert forall|x: VRegModel| !in_range(x, k, k + expr_size(e)) implies #[trigger] run(env, insts, addr)(x) == env(x) by {
                assert(x != d);
                assert(!in_range(x, k + sl, k + sl + sr));
                assert(!in_range(x, k, k + sl));
            }
            assert forall|j: int| 0 <= j < expr_size(e) implies inst_dst(#[trigger] insts[j]) == ix(k + j) by {
                if j < sl {
                    assert(insts[j] == li[j]);
                } else if j < sl + sr {
                    assert(insts[j] == ri[j - sl]);
                }
            }
        },
        ExprModel::Integer(v) => {
            lemma_run_one(env, Inst::Mov(ix(k), v), addr);
        },
        ExprModel::String(i) => {
            lemma_run_one(env, Inst::Adr(ix(k), i), addr);
        },
        ExprModel::Identifier(_) => {},
    }
}

} // verus!
