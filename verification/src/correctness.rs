use vstd::prelude::*;

use crate::collect_strings::{decls_literals, expr_literals, index_decls, index_literals};
use crate::lowerer::{expr_size, lower_decl_spec, lower_spec, named_args, regs_needed};
use crate::parser::{law_parsed_decls_plain, parse_program, plain_decl};
use crate::regalloc::{
    add_use, alloc_args_spec, alloc_inst_spec, alloc_insts_spec, alloc_step, arg_counts, count_of, count_uses,
    initial_free, inst_uses, regalloc_fn_spec, retarget_last, usage_counts_spec, use_step, AllocModel,
};
use crate::semantics::{
    apply, eval_expr, ident_free, in_range, inst_value, ix, law_lower_computes, lemma_run_concat, lemma_run_one, run,
};
use crate::types::ast::decl_body;
use crate::types::inst::{inst_dst, inst_with_dst};
use crate::types::{Binop, DeclModel, Error, ExprModel, FnModel, Inst, Reg, VRegModel};

verus! {

/// Adding the reads of two lists one after the other is adding those of their
/// concatenation.
pub proof fn lemma_count_uses_concat(m: Map<VRegModel, usize>, s1: Seq<Inst<VRegModel>>, s2: Seq<Inst<VRegModel>>)
    ensures
        count_uses(m, s1 + s2) == count_uses(count_uses(m, s1), s2),
    decreases s2.len(),
{
    if s2.len() == 0 {
        assert(s1 + s2 =~= s1);
    } else {
        assert((s1 + s2).drop_last() =~= s1 + s2.drop_last());
        assert((s1 + s2).last() == s2.last());
        lemma_count_uses_concat(m, s1, s2.drop_last());
    }
}

/// The reads in the code lowered from an expression without identifiers: every
/// register it writes is read exactly once, but the last one, which is not read;
/// other registers keep their counts.
#[verifier::spinoff_prover]
pub proof fn lemma_lowered_counts(args: Seq<VRegModel>, m: Map<VRegModel, usize>, k: int, e: ExprModel<usize>)
    requires
        ident_free(e),
        0 <= k,
        k + expr_size(e) <= usize::MAX,
        forall|a: int| k <= a < k + expr_size(e) ==> !m.contains_key(#[trigger] ix(a)),
    ensures
        ({
            let out = count_uses(m, lower_spec(args, ix(k), e).1);
            &&& forall|v: VRegModel| !in_range(v, k, k + expr_size(e)) ==> (#[trigger] out.contains_key(v)
                == m.contains_key(v) && (m.contains_key(v) ==> out[v] == m[v]))
            &&& forall|a: int| k <= a < k + expr_size(e) - 1 ==> #[trigger] out.contains_key(ix(a)) && out[ix(a)] == 1
            &&& !out.contains_key(ix(k + expr_size(e) - 1))
        }),
    decreases e,
{
    match e {
        ExprModel::Binop(op, l, r) => {
            let sl = expr_size(*l);
            let sr = expr_size(*r);
            let (lr, li) = lower_spec(args, ix(k), *l);
            law_lower_computes(args, k, *l, |x: VRegModel| 0, |i: usize| 0, |n: Seq<char>| 0);
            law_lower_computes(args, k + sl, *r, |x: VRegModel| 0, |i: usize| 0, |n: Seq<char>| 0);
            assert(lr == ix(k + sl - 1));
            let (rr, ri) = lower_spec(args, ix(k + sl), *r);
            assert(rr == ix(k + sl + sr - 1));
            let d = ix(k + sl + sr);
            let last = Inst::Binop(d, op, lr, rr);
            assert(lower_spec(args, ix(k), e).1 == li + ri + seq![last]);
            lemma_lowered_counts(args, m, k, *l);
            let m1 = count_uses(m, li);
            assert forall|a: int| k + sl <= a < k + sl + sr implies !m1.contains_key(#[trigger] ix(a)) by {
                assert(!in_range(ix(a), k, k + sl));
                assert(!m.contains_key(ix(a)));
            }
            lemma_lowered_counts(args, m1, k + sl, *r);
            let m2 = count_uses(m1, ri);
            lemma_count_uses_concat(m, li, ri);
            lemma_count_uses_concat(m, li + ri, seq![last]);
            assert(seq![last].drop_last() =~= Seq::<Inst<VRegModel>>::empty());
            let m3 = count_uses(m2, seq![last]);
            assert(count_uses(m2, Seq::<Inst<VRegModel>>::empty()) == m2);
            assert(m3 == inst_uses(m2, last));
            assert(!in_range(lr, k + sl, k + sl + sr));
            assert(!m2.contains_key(rr));
            assert(!m1.contains_key(lr));
            assert(!m2.contains_key(lr));
            let out = count_uses(m, lower_spec(args, ix(k), e).1);
            assert(out == m3);
            assert forall|v: VRegModel| !in_range(v, k, k + expr_size(e)) implies (#[trigger] out.contains_key(v)
                == m.contains_key(v) && (m.contains_key(v) ==> out[v] == m[v])) by {
                assert(!in_range(v, k, k + sl));
                assert(!in_range(v, k + sl, k + sl + sr));
                assert(v != lr && v != rr);
                assert(m3.contains_key(v) == m2.contains_key(v));
                assert(m2.contains_key(v) == m1.contains_key(v));
                assert(m1.contains_key(v) == m.contains_key(v));
                if m.contains_key(v) {
                    assert(m1[v] == m[v]);
                    assert(m2[v] == m1[v]);
                    assert(m3[v] == m2[v]);
                }
            }
            assert forall|a: int| k <= a < k + expr_size(e) - 1 implies #[trigger] out.contains_key(ix(a)) && out[ix(a)] == 1 by {
                let m12 = add_use(m2, lr);
                if a < k + sl - 1 {
                    assert(!in_range(ix(a), k + sl, k + sl + sr));
                    assert(ix(a) != lr && ix(a) != rr);
                    assert(k <= a < k + expr_size(*l) - 1);
                    assert(count_uses(m, lower_spec(args, ix(k), *l).1).contains_key(ix(a)));
                    assert(m1.contains_key(ix(a)) && m1[ix(a)] == 1);
                    assert(m2.contains_key(ix(a)) == m1.contains_key(ix(a)));
                    assert(m2[ix(a)] == m1[ix(a)]);
                } else if a == k + sl - 1 {
                    assert(count_of(m2, lr) == 0);
                    assert(m12[lr] == 1);
                } else if a < k + sl + sr - 1 {
                    assert(ix(a) != lr && ix(a) != rr);
                    assert(k + sl <= a < k + sl + expr_size(*r) - 1);
                    assert(count_uses(m1, lower_spec(args, ix(k + sl), *r).1).contains_key(ix(a)));
                    assert(m2.contains_key(ix(a)) && m2[ix(a)] == 1);
                } else {
                    assert(ix(a) == rr);
                    assert(!m12.contains_key(rr));
                    assert(count_of(m12, rr) == 0);
                }
            }
            assert(ix(k + expr_size(e) - 1) == d);
            assert(d != lr && d != rr);
            assert(!in_range(d, k + sl, k + sl + sr));
            assert(!in_range(d, k, k + sl));
        },
        ExprModel::Integer(v) => {
            assert(seq![Inst::Mov(ix(k), v)].drop_last() =~= Seq::<Inst<VRegModel>>::empty());
            assert(count_uses(m, Seq::<Inst<VRegModel>>::empty()) == m);
        },
        ExprModel::String(i) => {
            assert(seq![Inst::Adr(ix(k), i)].drop_last() =~= Seq::<Inst<VRegModel>>::empty());
            assert(count_uses(m, Seq::<Inst<VRegModel>>::empty()) == m);
        },
        ExprModel::Identifier(_) => {},
    }
}

/// Giving the arguments their registers leaves the free registers and the counts as
/// they were.
pub proof fn lemma_alloc_args_keeps(st: AllocModel, args: Seq<VRegModel>)
    ensures
        alloc_args_spec(st, args).0.free == st.free,
        alloc_args_spec(st, args).0.counts == st.counts,
    decreases args.len(),
{
    if args.len() > 0 {
        lemma_alloc_args_keeps(st, args.drop_last());
    }
}

/// Allocating two lists one after the other is allocating their concatenation.
pub proof fn lemma_alloc_insts_concat(st: AllocModel, s1: Seq<Inst<VRegModel>>, s2: Seq<Inst<VRegModel>>)
    ensures
        alloc_insts_spec(st, s1 + s2) == match alloc_insts_spec(st, s1) {
            Err(e) => Err(e),
            Ok((st1, o1)) => match alloc_insts_spec(st1, s2) {
                Err(e) => Err(e),
                Ok((st2, o2)) => Ok((st2, o1 + o2)),
            },
        },
    decreases s2.len(),
{
    if s2.len() == 0 {
        assert(s1 + s2 =~= s1);
        match alloc_insts_spec(st, s1) {
            Ok((st1, o1)) => {
                assert(o1 + Seq::<Inst<Reg>>::empty() =~= o1);
            },
            Err(_) => {},
        }
    } else {
        assert((s1 + s2).drop_last() =~= s1 + s2.drop_last());
        assert((s1 + s2).last() == s2.last());
        lemma_alloc_insts_concat(st, s1, s2.drop_last());
        match alloc_insts_spec(st, s1) {
            Ok((st1, o1)) => match alloc_insts_spec(st1, s2.drop_last()) {
                Ok((st2, o2)) => match alloc_inst_spec(st2, s2.last()) {
                    Ok((st3, i)) => {
                        assert((o1 + o2).push(i) =~= o1 + o2.push(i));
                    },
                    Err(_) => {},
                },
                Err(_) => {},
            },
            Err(_) => {},
        }
    }
}

/// Allocating one instruction as a list.
pub proof fn lemma_alloc_insts_one(st: AllocModel, i: Inst<VRegModel>)
    ensures
        alloc_insts_spec(st, seq![i]) == match alloc_inst_spec(st, i) {
            Err(e) => Err(e),
            Ok((st1, o)) => Ok((st1, seq![o])),
        },
{
    assert(seq![i].drop_last() =~= Seq::<Inst<VRegModel>>::empty());
    assert(alloc_insts_spec(st, Seq::<Inst<VRegModel>>::empty()) == Ok::<(AllocModel, Seq<Inst<Reg>>), Error>((st, Seq::empty())));
    match alloc_inst_spec(st, i) {
        Ok((st1, o)) => {
            assert(Seq::<Inst<Reg>>::empty().push(o) =~= seq![o]);
        },
        Err(_) => {},
    }
}

/// Adding a register that is not in a list without repetitions keeps it without.
pub proof fn lemma_push_no_dup(s: Seq<Reg>, x: Reg)
    requires
        s.no_duplicates(),
        !s.contains(x),
    ensures
        s.push(x).no_duplicates(),
{
    assert forall|i: int, j: int| 0 <= i < s.push(x).len() && 0 <= j < s.push(x).len() && i != j implies s.push(x)[i]
        != s.push(x)[j] by {
        if i < s.len() && j < s.len() {
        } else if i < s.len() {
            assert(s.contains(s[i]));
        } else if j < s.len() {
            assert(s.contains(s[j]));
        }
    }
}

/// Whether the allocator state leaves the registers in `prot` alone: none of them is
/// free, and no free register occurs twice.
pub open spec fn guards(st: AllocModel, prot: Set<Reg>) -> bool {
    &&& st.free.no_duplicates()
    &&& forall|x: Reg| prot.contains(x) ==> !st.free.contains(x)
}

/// Whether `st2` agrees with `st` on the register `v`: whether it has a register
/// and a count, and which.
pub open spec fn agree_at(st: AllocModel, st2: AllocModel, v: VRegModel) -> bool {
    &&& st2.map.contains_key(v) == st.map.contains_key(v)
    &&& st.map.contains_key(v) ==> st2.map[v] == st.map[v]
    &&& st2.counts.contains_key(v) == st.counts.contains_key(v)
    &&& st.counts.contains_key(v) ==> st2.counts[v] == st.counts[v]
}

/// Whether `st2` agrees with `st` on every register outside `[lo, hi)`.
pub open spec fn same_outside(st: AllocModel, st2: AllocModel, lo: int, hi: int) -> bool {
    forall|v: VRegModel| !in_range(v, lo, hi) ==> #[trigger] agree_at(st, st2, v)
}

/// Allocating a move or an address load into the register numbered `k`.
proof fn lemma_alloc_leaf(
    k: int,
    i: Inst<VRegModel>,
    st: AllocModel,
    prot: Set<Reg>,
    top_used: bool,
    env: spec_fn(Reg) -> int,
    addr: spec_fn(usize) -> int,
)
    requires
        !(i is Binop),
        inst_dst(i) == ix(k),
        0 <= k <= usize::MAX,
        top_used ==> st.counts.contains_key(ix(k)) && st.counts[ix(k)] == 1,
        !top_used ==> !st.counts.contains_key(ix(k)),
        guards(st, prot),
    ensures
        alloc_inst_spec(st, i) is Ok <==> st.free.len() >= 1,
        match alloc_inst_spec(st, i) {
            Err(_) => true,
            Ok((st2, o)) => {
                &&& st2.free.len() + (if top_used { 1int } else { 0int }) == st.free.len()
                &&& st2.map.contains_key(ix(k))
                &&& inst_dst(o) == st2.map[ix(k)]
                &&& guards(st2, prot)
                &&& !prot.contains(st2.map[ix(k)])
                &&& top_used ==> !st2.free.contains(st2.map[ix(k)])
                &&& same_outside(st, st2, k, k + 1)
                &&& st2.counts == st.counts
                &&& inst_value(env, o, addr) == inst_value(|x: VRegModel| 0int, i, addr)
            },
        },
{
    match alloc_step(st, ix(k)) {
        Err(_) => {},
        Ok((st2, reg)) => {
            let last = st.free.last();
            assert(st.free.contains(last));
            assert(!prot.contains(last));
            if top_used {
                assert(count_of(st.counts, ix(k)) == 1);
                assert(st2.free =~= st.free.drop_last());
                assert forall|x: Reg| st2.free.contains(x) implies st.free.contains(x) && x != last by {
                    let j = choose|j: int| 0 <= j < st2.free.len() && st2.free[j] == x;
                    assert(st.free[j] == x);
                }
            } else {
                assert(count_of(st.counts, ix(k)) == 0);
            }
            assert forall|v: VRegModel| !in_range(v, k, k + 1) implies #[trigger] agree_at(st, st2, v) by {
                assert(v != ix(k));
            }
        },
    }
}

/// The allocator state after the operation that combines the two operands `lr` and
/// `rr` into `d`: both operands read for the last time, `d` given the left
/// operand's register.
pub open spec fn after_last(st: AllocModel, d: VRegModel, lr: VRegModel, rr: VRegModel, top_used: bool) -> AllocModel {
    let free = st.free.push(st.map[rr]);
    let free = if top_used {
        free
    } else {
        free.push(st.map[lr])
    };
    AllocModel {
        free,
        map: st.map.insert(d, st.map[lr]),
        counts: st.counts.insert(rr, 0).insert(lr, 0),
    }
}

/// Allocating the operation that reads its two operands for the last time: its
/// destination gets the left operand's register, and the registers in `prot` stay
/// guarded.
proof fn lemma_alloc_last(st: AllocModel, prot: Set<Reg>, op: Binop, d: VRegModel, lr: VRegModel, rr: VRegModel, top_used: bool)
    requires
        lr != rr,
        d != lr,
        d != rr,
        st.map.contains_key(lr),
        st.map.contains_key(rr),
        st.counts.contains_key(lr) && st.counts[lr] == 1,
        st.counts.contains_key(rr) && st.counts[rr] == 1,
        guards(st, prot.insert(st.map[lr])),
        !prot.contains(st.map[lr]),
        !st.free.contains(st.map[rr]),
        !prot.insert(st.map[lr]).contains(st.map[rr]),
        top_used ==> count_of(st.counts, d) == 1,
        !top_used ==> count_of(st.counts, d) == 0,
    ensures
        alloc_inst_spec(st, Inst::Binop(d, op, lr, rr)) == Ok::<(AllocModel, Inst<Reg>), Error>(
            (after_last(st, d, lr, rr, top_used), Inst::Binop(st.map[lr], op, st.map[lr], st.map[rr])),
        ),
        guards(after_last(st, d, lr, rr, top_used), prot),
        top_used ==> !after_last(st, d, lr, rr, top_used).free.contains(st.map[lr]),
{
    let rl = st.map[lr];
    let rrr = st.map[rr];
    let st_a = AllocModel { free: st.free.push(rrr), map: st.map, counts: st.counts.insert(rr, 0) };
    assert(use_step(st, rr) == Ok::<(AllocModel, Reg), Error>((st_a, rrr)));
    let st_b = AllocModel { free: st_a.free.push(rl), map: st_a.map, counts: st_a.counts.insert(lr, 0) };
    assert(use_step(st_a, lr) == Ok::<(AllocModel, Reg), Error>((st_b, rl)));
    assert(count_of(st_b.counts, d) == count_of(st.counts, d));
    assert(st_b.free.last() == rl);
    if top_used {
        assert(st_b.free.drop_last() =~= st_a.free);
    }
    let st_c = after_last(st, d, lr, rr, top_used);
    assert(alloc_step(st_b, d) == Ok::<(AllocModel, Reg), Error>((st_c, rl)));
    assert(prot.insert(rl).contains(rl));
    assert(rl != rrr);
    lemma_push_no_dup(st.free, rrr);
    lemma_push_no_dup(st_a.free, rl);
    assert forall|x: Reg| prot.contains(x) implies !st_c.free.contains(x) by {
        assert(prot.insert(rl).contains(x));
        assert(x != rl);
        assert(x != rrr);
        assert(!st.free.contains(x));
        if st_c.free.contains(x) {
            let j = choose|j: int| 0 <= j < st_c.free.len() && st_c.free[j] == x;
            if j < st.free.len() {
                assert(st_c.free[j] == st.free[j]);
                assert(st.free.contains(x));
            } else if j == st.free.len() {
                assert(st_c.free[j] == rrr);
            } else {
                assert(st_c.free[j] == rl);
            }
        }
    }
    if top_used {
        assert forall|j: int| 0 <= j < st_c.free.len() implies st_c.free[j] != rl by {
            if j < st.free.len() {
                assert(st.free.contains(st.free[j]));
            }
        }
    }
}

/// The state after both operands and the combining operation agrees with the one
/// before them outside the registers they write.
proof fn lemma_same_outside_chain(
    st: AllocModel,
    st_l: AllocModel,
    st_r: AllocModel,
    k: int,
    sl: int,
    sr: int,
    d: VRegModel,
    lr: VRegModel,
    rr: VRegModel,
    top_used: bool,
)
    requires
        0 <= k,
        1 <= sl,
        1 <= sr,
        same_outside(st, st_l, k, k + sl),
        same_outside(st_l, st_r, k + sl, k + sl + sr),
        in_range(d, k, k + sl + sr + 1),
        in_range(lr, k, k + sl + sr + 1),
        in_range(rr, k, k + sl + sr + 1),
        st_r.map.contains_key(lr),
    ensures
        same_outside(st, after_last(st_r, d, lr, rr, top_used), k, k + sl + sr + 1),
{
    let st_c = after_last(st_r, d, lr, rr, top_used);
    assert forall|v: VRegModel| !in_range(v, k, k + sl + sr + 1) implies #[trigger] agree_at(st, st_c, v) by {
        assert(!in_range(v, k, k + sl));
        assert(!in_range(v, k + sl, k + sl + sr));
        assert(v != lr && v != rr && v != d);
        assert(agree_at(st, st_l, v));
        assert(agree_at(st_l, st_r, v));
    }
    assert(same_outside(st, st_c, k, k + sl + sr + 1));
}

/// Allocating the code lowered from an expression without identifiers, from a state
/// in which each register it writes but the last is to be read once: the result
/// ends in a register outside `prot` (and not free if it is to be read), running
/// the allocated code leaves the expression's value there and the registers in
/// `prot` untouched.
#[verifier::spinoff_prover]
pub proof fn lemma_alloc_lowered(
    args: Seq<VRegModel>,
    k: int,
    e: ExprModel<usize>,
    st: AllocModel,
    prot: Set<Reg>,
    top_used: bool,
    env: spec_fn(Reg) -> int,
    addr: spec_fn(usize) -> int,
    ident: spec_fn(Seq<char>) -> int,
)
    requires
        ident_free(e),
        0 <= k,
        k + expr_size(e) <= usize::MAX,
        forall|a: int| k <= a < k + expr_size(e) - 1 ==> #[trigger] st.counts.contains_key(ix(a)) && st.counts[ix(a)] == 1,
        top_used ==> st.counts.contains_key(ix(k + expr_size(e) - 1)) && st.counts[ix(k + expr_size(e) - 1)] == 1,
        !top_used ==> !st.counts.contains_key(ix(k + expr_size(e) - 1)),
        guards(st, prot),
    ensures
        alloc_insts_spec(st, lower_spec(args, ix(k), e).1) is Ok <==> st.free.len() >= regs_needed(e),
        match alloc_insts_spec(st, lower_spec(args, ix(k), e).1) {
            Err(_) => true,
            Ok((st2, out)) => {
                let top = ix(k + expr_size(e) - 1);
                &&& st2.free.len() + (if top_used { 1int } else { 0int }) == st.free.len()
                &&& st2.map.contains_key(top)
                &&& out.len() == expr_size(e)
                &&& inst_dst(out.last()) == st2.map[top]
                &&& guards(st2, prot)
                &&& !prot.contains(st2.map[top])
                &&& top_used ==> !st2.free.contains(st2.map[top])
                &&& same_outside(st, st2, k, k + expr_size(e))
                &&& top_used ==> st2.counts.contains_key(top) && st2.counts[top] == 1
                &&& !top_used ==> !st2.counts.contains_key(top)
                &&& run(env, out, addr)(st2.map[top]) == eval_expr(e, addr, ident)
                &&& forall|x: Reg| prot.contains(x) ==> #[trigger] run(env, out, addr)(x) == env(x)
            },
        },
    decreases e,
{
    match e {
        ExprModel::Binop(op, l, r) => {
            let sl = expr_size(*l);
            let sr = expr_size(*r);
            let n = expr_size(e);
            law_lower_computes(args, k, *l, |x: VRegModel| 0, |i: usize| 0, |n: Seq<char>| 0);
            law_lower_computes(args, k + sl, *r, |x: VRegModel| 0, |i: usize| 0, |n: Seq<char>| 0);
            let (lr, li) = lower_spec(args, ix(k), *l);
            let (rr, ri) = lower_spec(args, ix(k + sl), *r);
            assert(lr == ix(k + sl - 1));
            assert(rr == ix(k + sl + sr - 1));
            let d = ix(k + sl + sr);
            let last = Inst::Binop(d, op, lr, rr);
            assert(lower_spec(args, ix(k), e).1 == li + ri + seq![last]);
            assert(lr != rr && lr != d && rr != d);
            assert(st.counts.contains_key(ix(k + sl - 1)));
            lemma_alloc_lowered(args, k, *l, st, prot, true, env, addr, ident);
            lemma_alloc_insts_concat(st, li, ri);
            lemma_alloc_insts_concat(st, li + ri, seq![last]);
            match alloc_insts_spec(st, li) {
                Err(_) => {},
                Ok((st_l, o_l)) => {
                    let rl = st_l.map[lr];
                    let prot_r = prot.insert(rl);
                    assert(same_outside(st, st_l, k, k + sl));
                    assert(guards(st_l, prot));
                    assert forall|a: int| k + sl <= a < k + sl + sr - 1 implies #[trigger] st_l.counts.contains_key(ix(a))
                        && st_l.counts[ix(a)] == 1 by {
                        assert(!in_range(ix(a), k, k + sl));
                        assert(n == 1 + sl + sr);
                        assert(a < k + n - 1);
                        assert(st.counts.contains_key(ix(a)));
                        assert(st.counts[ix(a)] == 1);
                        assert(agree_at(st, st_l, ix(a)));
                    }
                    assert(!in_range(rr, k, k + sl));
                    assert(st.counts.contains_key(rr));
                    assert(agree_at(st, st_l, rr));
                    assert(guards(st_l, prot_r));
                    let env1 = run(env, o_l, addr);
                    lemma_alloc_lowered(args, k + sl, *r, st_l, prot_r, true, env1, addr, ident);
                    match alloc_insts_spec(st_l, ri) {
                        Err(_) => {},
                        Ok((st_r, o_r)) => {
                            let rrr = st_r.map[rr];
                            assert(!in_range(lr, k + sl, k + sl + sr));
                            assert(agree_at(st_l, st_r, lr));
                            assert(st_r.map.contains_key(lr));
                            assert(st_r.map[lr] == rl);
                            assert(st_r.counts.contains_key(lr) && st_r.counts[lr] == 1);
                            assert(prot_r.contains(rl));
                            assert(!st_r.free.contains(rl));
                            assert(rl != rrr);
                            let o_last = Inst::Binop(rl, op, rl, rrr);
                            assert(d == ix(k + n - 1));
                            assert(agree_at(st, st_l, d));
                            assert(agree_at(st_l, st_r, d));
                            assert(agree_at(st_l, st_r, lr));
                            lemma_alloc_last(st_r, prot, op, d, lr, rr, top_used);
                            let st_c = after_last(st_r, d, lr, rr, top_used);
                            lemma_alloc_insts_one(st_r, last);
                            let out = o_l + o_r + seq![o_last];
                            assert(alloc_insts_spec(st, lower_spec(args, ix(k), e).1) == Ok::<(AllocModel, Seq<Inst<Reg>>), Error>((st_c, out)));
                            lemma_same_outside_chain(st, st_l, st_r, k, sl as int, sr as int, d, lr, rr, top_used);
                            assert(st_c.map[d] == rl);
                            // what the code computes
                            let env2 = run(env1, o_r, addr);
                            lemma_run_concat(env, o_l, o_r, addr);
                            lemma_run_concat(env, o_l + o_r, seq![o_last], addr);
                            lemma_run_one(env2, o_last, addr);
                            assert(prot_r.contains(rl));
                            assert(env2(rl) == env1(rl));
                            assert(run(env, out, addr)(rl) == eval_expr(e, addr, ident));
                            assert forall|x: Reg| prot.contains(x) implies #[trigger] run(env, out, addr)(x) == env(x) by {
                                assert(prot_r.contains(x));
                                assert(env2(x) == env1(x));
                                assert(env1(x) == env(x));
                            }
                            assert(out.last() == o_last);
                        },
                    }
                },
            }
        },
        ExprModel::Integer(v) => {
            let i = Inst::Mov(ix(k), v);
            lemma_alloc_insts_one(st, i);
            lemma_alloc_leaf(k, i, st, prot, top_used, env, addr);
            match alloc_inst_spec(st, i) {
                Ok((st2, o)) => {
                    lemma_run_one(env, o, addr);
                },
                Err(_) => {},
            }
        },
        ExprModel::String(idx) => {
            let i = Inst::Adr(ix(k), idx);
            lemma_alloc_insts_one(st, i);
            lemma_alloc_leaf(k, i, st, prot, top_used, env, addr);
            match alloc_inst_spec(st, i) {
                Ok((st2, o)) => {
                    lemma_run_one(env, o, addr);
                },
                Err(_) => {},
            }
        },
        ExprModel::Identifier(_) => {},
    }
}

/// Every key of the argument counts is one of the arguments.
proof fn lemma_arg_counts_keys(args: Seq<VRegModel>)
    ensures
        forall|v: VRegModel| #[trigger] arg_counts(args).contains_key(v) ==> args.contains(v),
    decreases args.len(),
{
    if args.len() > 0 {
        lemma_arg_counts_keys(args.drop_last());
        assert forall|v: VRegModel| #[trigger] arg_counts(args).contains_key(v) implies args.contains(v) by {
            if v != args.last() {
                assert(arg_counts(args.drop_last()).contains_key(v));
                let j = choose|j: int| 0 <= j < args.drop_last().len() && args.drop_last()[j] == v;
                assert(args[j] == v);
            } else {
                assert(args[args.len() - 1] == v);
            }
        }
    }
}

/// An expression has at least one node.
pub proof fn lemma_expr_size_pos<T>(e: ExprModel<T>)
    ensures
        expr_size(e) >= 1,
{
}

/// Writing the last instruction's value to `X0` instead of its destination leaves
/// in `X0` what the destination would have held.
proof fn lemma_run_retarget(env: spec_fn(Reg) -> int, out: Seq<Inst<Reg>>, addr: spec_fn(usize) -> int)
    requires
        out.len() > 0,
    ensures
        run(env, retarget_last(out), addr)(Reg::X0) == run(env, out, addr)(inst_dst(out.last())),
{
    let t = retarget_last(out);
    assert(t.drop_last() =~= out.drop_last());
    assert(t.last() == inst_with_dst(out.last(), Reg::X0));
    let before = run(env, out.drop_last(), addr);
    assert(inst_value(before, t.last(), addr) == inst_value(before, out.last(), addr));
}

/// The compiler is correct on declarations whose body names no identifier: register
/// allocation of the lowered function succeeds exactly when the body needs at most
/// the four temporaries, and then running its machine code from any register
/// contents leaves the value of the body in `X0`.
#[verifier::spinoff_prover]
pub proof fn law_compile_computes(
    d: DeclModel<usize>,
    env: spec_fn(Reg) -> int,
    addr: spec_fn(usize) -> int,
    ident: spec_fn(Seq<char>) -> int,
)
    requires
        d matches DeclModel::Bind(_, _, body) && ident_free(body) && expr_size(body) <= usize::MAX,
    ensures
        d matches DeclModel::Bind(_, _, body) && (regalloc_fn_spec(lower_decl_spec(d)) is Ok <==> regs_needed(body)
            <= 4),
        regalloc_fn_spec(lower_decl_spec(d)) matches Ok(g) ==> d matches DeclModel::Bind(_, _, body) && run(
            env,
            g.insts,
            addr,
        )(Reg::X0) == eval_expr(body, addr, ident),
{
    let DeclModel::Bind(name, params, body) = d;
    let args = named_args(params);
    let f = lower_decl_spec(d);
    let n = expr_size(body);
    lemma_expr_size_pos(body);
    assert(VRegModel::Indexed(0) == ix(0));
    let insts = lower_spec(args, ix(0), body).1;
    assert(f.insts == insts);
    let base = arg_counts(args);
    lemma_arg_counts_keys(args);
    assert forall|a: int| 0 <= a < n implies !base.contains_key(#[trigger] ix(a)) by {
        if base.contains_key(ix(a)) {
            assert(args.contains(ix(a)));
            let j = choose|j: int| 0 <= j < args.len() && args[j] == ix(a);
            assert(args[j] == VRegModel::Named(params[j], 0));
        }
    }
    lemma_lowered_counts(args, base, 0, body);
    let counts = usage_counts_spec(f);
    assert(counts == count_uses(base, insts));
    let st0 = AllocModel { free: initial_free(), map: Map::empty(), counts };
    lemma_alloc_args_keeps(st0, args);
    let st1 = alloc_args_spec(st0, args).0;
    assert(initial_free().no_duplicates()) by {
        let s = initial_free();
        assert forall|i: int, j: int| 0 <= i < s.len() && 0 <= j < s.len() && i != j implies s[i] != s[j] by {
        }
    }
    assert forall|a: int| 0 <= a < n - 1 implies #[trigger] st1.counts.contains_key(ix(a)) && st1.counts[ix(a)] == 1 by {
        assert(counts.contains_key(ix(a)));
    }
    lemma_alloc_lowered(args, 0, body, st1, Set::empty(), false, env, addr, ident);
    match alloc_insts_spec(st1, insts) {
        Err(_) => {},
        Ok((st2, out)) => {
            lemma_run_retarget(env, out, addr);
        },
    }
}

proof fn lemma_index_literals_keeps(e: ExprModel<Seq<char>>, base: nat)
    ensures
        ident_free(index_literals(e, base)) == ident_free(e),
        expr_size(index_literals(e, base)) == expr_size(e),
        regs_needed(index_literals(e, base)) == regs_needed(e),
    decreases e,
{
    match e {
        ExprModel::Binop(_, l, r) => {
            lemma_index_literals_keeps(*l, base);
            lemma_index_literals_keeps(*r, base + expr_literals(*l).len());
        },
        _ => {},
    }
}

proof fn lemma_index_decls_keeps(ds: Seq<DeclModel<Seq<char>>>, base: nat)
    ensures
        index_decls(ds, base).len() == ds.len(),
        forall|i: int|
            0 <= i < ds.len() ==> (#[trigger] index_decls(ds, base)[i] matches DeclModel::Bind(_, params2, body2)
                && ds[i] matches DeclModel::Bind(_, params, body) && params2 == params && ident_free(body2)
                == ident_free(body) && expr_size(body2) == expr_size(body) && regs_needed(body2) == regs_needed(body)),
    decreases ds.len(),
{
    if ds.len() > 0 {
        lemma_index_decls_keeps(ds.drop_last(), base);
        let b = base + decls_literals(ds.drop_last()).len();
        match ds.last() {
            DeclModel::Bind(_, _, body) => lemma_index_literals_keeps(body, b),
        }
        assert forall|i: int| 0 <= i < ds.len() implies (#[trigger] index_decls(ds, base)[i] matches DeclModel::Bind(
            _,
            params2,
            body2,
        ) && ds[i] matches DeclModel::Bind(_, params, body) && params2 == params && ident_free(body2)
            == ident_free(body) && expr_size(body2) == expr_size(body) && regs_needed(body2) == regs_needed(body)) by {
            if i < ds.len() - 1 {
                assert(index_decls(ds, base)[i] == index_decls(ds.drop_last(), base)[i]);
                assert(ds[i] == ds.drop_last()[i]);
            }
        }
    }
}

/// The whole compiler is correct on what the parser reads: for each declaration of
/// a parsed program, after its string literals are numbered from 0, register
/// allocation of the lowered function succeeds, and running its machine code leaves
/// the value of the declaration's body in `X0`.
pub proof fn law_pipeline_computes(
    s: Seq<char>,
    i: int,
    env: spec_fn(Reg) -> int,
    addr: spec_fn(usize) -> int,
    ident: spec_fn(Seq<char>) -> int,
)
    requires
        parse_program(s) is Done,
        0 <= i < parse_program(s)->Done_0.len(),
        expr_size(decl_body(parse_program(s)->Done_0[i])) <= usize::MAX,
    ensures
        regalloc_fn_spec(lower_decl_spec(index_decls(parse_program(s)->Done_0, 0)[i])) is Ok,
        ({
            let cd = index_decls(parse_program(s)->Done_0, 0)[i];
            regalloc_fn_spec(lower_decl_spec(cd)) matches Ok(g) ==> run(env, g.insts, addr)(Reg::X0) == eval_expr(
                decl_body(cd),
                addr,
                ident,
            )
        }),
{
    law_parsed_decls_plain(s);
    let ds = parse_program(s)->Done_0;
    lemma_index_decls_keeps(ds, 0);
    assert(plain_decl(ds[i]));
    let cd = index_decls(ds, 0)[i];
    law_compile_computes(cd, env, addr, ident);
}


/// Whether the virtual register `v` has a register and reads still to come.
pub open spec fn live(st: AllocModel, v: VRegModel) -> bool {
    &&& st.map.contains_key(v)
    &&& st.counts.contains_key(v)
    &&& st.counts[v] > 0
}

/// Whether the machine registers `menv` stand for the virtual registers `venv` under
/// the allocator state: no free register occurs twice, and each virtual register
/// with reads to come holds its value in a register of its own that is not free.
pub open spec fn simulates(st: AllocModel, menv: spec_fn(Reg) -> int, venv: spec_fn(VRegModel) -> int) -> bool {
    &&& st.free.no_duplicates()
    &&& forall|v: VRegModel| #[trigger] live(st, v) ==> !st.free.contains(st.map[v]) && menv(st.map[v]) == venv(v)
    &&& forall|v: VRegModel, w: VRegModel| #[trigger] live(st, v) && #[trigger] live(st, w) && v != w ==> st.map[v] != st.map[w]
}

/// Reading a virtual register that has a count: it has reads to come, its register
/// holds its value, and the machine registers still stand for the virtual ones.
proof fn lemma_use_simulates(st: AllocModel, menv: spec_fn(Reg) -> int, venv: spec_fn(VRegModel) -> int, v: VRegModel)
    requires
        simulates(st, menv, venv),
        st.counts.contains_key(v),
    ensures
        use_step(st, v) matches Ok((st1, reg)) ==> {
            &&& live(st, v)
            &&& reg == st.map[v]
            &&& menv(reg) == venv(v)
            &&& simulates(st1, menv, venv)
            &&& st1.map == st.map
            &&& st1.counts.dom() == st.counts.dom()
        },
{
    match use_step(st, v) {
        Err(_) => {},
        Ok((st1, reg)) => {
            assert(live(st, v));
            let c = st.counts[v] - 1;
            if c == 0 {
                lemma_push_no_dup(st.free, reg);
            }
            assert forall|w: VRegModel| #[trigger] live(st1, w) implies !st1.free.contains(st1.map[w]) && menv(st1.map[w]) == venv(w) by {
                assert(live(st, w));
                if c == 0 {
                    assert(w != v);
                    assert(st.map[w] != st.map[v]);
                    if st1.free.contains(st1.map[w]) {
                        let j = choose|j: int| 0 <= j < st1.free.len() && st1.free[j] == st1.map[w];
                        if j < st.free.len() {
                            assert(st.free[j] == st1.free[j]);
                            assert(st.free.contains(st.map[w]));
                        }
                    }
                }
            }
            assert forall|a: VRegModel, b: VRegModel| #[trigger] live(st1, a) && #[trigger] live(st1, b) && a != b implies st1.map[a] != st1.map[b] by {
                assert(live(st, a));
                assert(live(st, b));
            }
            assert(st1.counts.dom() =~= st.counts.dom());
        },
    }
}

/// Giving `d` a register: the register was free, and once `d` and its register are
/// both written with `x`, the machine registers still stand for the virtual ones.
proof fn lemma_alloc_step_simulates(
    st: AllocModel,
    menv: spec_fn(Reg) -> int,
    venv: spec_fn(VRegModel) -> int,
    d: VRegModel,
    x: int,
)
    requires
        simulates(st, menv, venv),
    ensures
        alloc_step(st, d) matches Ok((st1, dr)) ==> {
            &&& st.free.contains(dr)
            &&& st1.map == st.map.insert(d, dr)
            &&& st1.counts == st.counts
            &&& simulates(st1, crate::semantics::write(menv, dr, x), crate::semantics::write(venv, d, x))
        },
{
    match alloc_step(st, d) {
        Err(_) => {},
        Ok((st1, dr)) => {
            let n = st.free.len();
            assert(st.free[n - 1] == dr);
            let menv1 = crate::semantics::write(menv, dr, x);
            let venv1 = crate::semantics::write(venv, d, x);
            assert(st1.free.no_duplicates()) by {
                if count_of(st.counts, d) != 0 {
                    assert forall|i: int, j: int| 0 <= i < st1.free.len() && 0 <= j < st1.free.len() && i != j implies st1.free[i] != st1.free[j] by {
                        assert(st1.free[i] == st.free[i]);
                        assert(st1.free[j] == st.free[j]);
                    }
                }
            }
            assert forall|w: VRegModel| #[trigger] live(st1, w) implies !st1.free.contains(st1.map[w]) && menv1(st1.map[w]) == venv1(w) by {
                if st1.free.contains(st1.map[w]) {
                    let j = choose|j: int| 0 <= j < st1.free.len() && st1.free[j] == st1.map[w];
                    assert(st1.free[j] == st.free[j]);
                    if w == d {
                        assert(count_of(st.counts, d) != 0);
                        assert(j < n - 1);
                    } else {
                        assert(live(st, w));
                        assert(st.free.contains(st.map[w]));
                    }
                }
                if w != d {
                    assert(live(st, w));
                    assert(st.map[w] != dr);
                }
            }
            assert forall|a: VRegModel, b: VRegModel| #[trigger] live(st1, a) && #[trigger] live(st1, b) && a != b implies st1.map[a] != st1.map[b] by {
                if a == d {
                    assert(live(st, b));
                } else if b == d {
                    assert(live(st, a));
                } else {
                    assert(live(st, a));
                    assert(live(st, b));
                }
            }
        },
    }
}


/// Whether the operands of `i` have counts.
pub open spec fn operands_counted(counts: Map<VRegModel, usize>, i: Inst<VRegModel>) -> bool {
    i matches Inst::Binop(_, _, l, r) ==> counts.contains_key(l) && counts.contains_key(r)
}

/// Allocating one instruction whose operands have counts: the allocated instruction
/// computes the value the virtual one does, and after both write it the machine
/// registers still stand for the virtual ones.
proof fn lemma_alloc_inst_simulates(
    st: AllocModel,
    menv: spec_fn(Reg) -> int,
    venv: spec_fn(VRegModel) -> int,
    i: Inst<VRegModel>,
    addr: spec_fn(usize) -> int,
)
    requires
        simulates(st, menv, venv),
        operands_counted(st.counts, i),
    ensures
        alloc_inst_spec(st, i) matches Ok((st1, o)) ==> {
            &&& inst_value(menv, o, addr) == inst_value(venv, i, addr)
            &&& simulates(
                st1,
                crate::semantics::write(menv, inst_dst(o), inst_value(menv, o, addr)),
                crate::semantics::write(venv, inst_dst(i), inst_value(venv, i, addr)),
            )
            &&& st1.counts.dom() == st.counts.dom()
        },
{
    match i {
        Inst::Binop(d, op, l, r) => {
            lemma_use_simulates(st, menv, venv, r);
            match use_step(st, r) {
                Err(_) => {},
                Ok((st1, rr)) => {
                    lemma_use_simulates(st1, menv, venv, l);
                    match use_step(st1, l) {
                        Err(_) => {},
                        Ok((st2, lr)) => {
                            let x = apply(op, venv(l), venv(r));
                            lemma_alloc_step_simulates(st2, menv, venv, d, x);
                        },
                    }
                },
            }
        },
        Inst::Mov(d, v) => {
            lemma_alloc_step_simulates(st, menv, venv, d, v as int);
        },
        Inst::Adr(d, idx) => {
            lemma_alloc_step_simulates(st, menv, venv, d, addr(idx));
        },
    }
}

/// Allocating a list of instructions whose operands have counts: running the
/// allocated code keeps the machine registers standing for the virtual ones, and
/// the last allocated instruction writes the value the last virtual one writes.
proof fn lemma_alloc_insts_simulates(
    st: AllocModel,
    menv: spec_fn(Reg) -> int,
    venv: spec_fn(VRegModel) -> int,
    insts: Seq<Inst<VRegModel>>,
    addr: spec_fn(usize) -> int,
)
    requires
        simulates(st, menv, venv),
        forall|k: int| 0 <= k < insts.len() ==> operands_counted(st.counts, #[trigger] insts[k]),
    ensures
        alloc_insts_spec(st, insts) matches Ok((st1, out)) ==> {
            &&& simulates(st1, run(menv, out, addr), run(venv, insts, addr))
            &&& st1.counts.dom() == st.counts.dom()
            &&& out.len() == insts.len()
            &&& insts.len() > 0 ==> run(menv, out, addr)(inst_dst(out.last())) == run(venv, insts, addr)(
                inst_dst(insts.last()),
            )
        },
    decreases insts.len(),
{
    if insts.len() > 0 {
        let front = insts.drop_last();
        assert forall|k: int| 0 <= k < front.len() implies operands_counted(st.counts, #[trigger] front[k]) by {
            assert(front[k] == insts[k]);
        }
        lemma_alloc_insts_simulates(st, menv, venv, front, addr);
        match alloc_insts_spec(st, front) {
            Err(_) => {},
            Ok((st1, out1)) => {
                let menv1 = run(menv, out1, addr);
                let venv1 = run(venv, front, addr);
                assert(operands_counted(st.counts, insts[insts.len() - 1]));
                lemma_alloc_inst_simulates(st1, menv1, venv1, insts.last(), addr);
                match alloc_inst_spec(st1, insts.last()) {
                    Err(_) => {},
                    Ok((st2, o)) => {
                        let out = out1.push(o);
                        assert(out.drop_last() =~= out1);
                        assert(out.last() == o);
                    },
                }
            },
        }
    }
}

/// Counting reads keeps every key and gives one to each operand.
proof fn lemma_count_uses_keys(m: Map<VRegModel, usize>, insts: Seq<Inst<VRegModel>>)
    ensures
        forall|v: VRegModel| m.contains_key(v) ==> #[trigger] count_uses(m, insts).contains_key(v),
        forall|k: int| 0 <= k < insts.len() ==> operands_counted(count_uses(m, insts), #[trigger] insts[k]),
    decreases insts.len(),
{
    if insts.len() > 0 {
        let front = insts.drop_last();
        lemma_count_uses_keys(m, front);
        assert forall|v: VRegModel| m.contains_key(v) implies #[trigger] count_uses(m, insts).contains_key(v) by {
            assert(count_uses(m, front).contains_key(v));
        }
        assert forall|k: int| 0 <= k < insts.len() implies operands_counted(count_uses(m, insts), #[trigger] insts[k]) by {
            if k < insts.len() - 1 {
                assert(insts[k] == front[k]);
                assert(operands_counted(count_uses(m, front), front[k]));
            }
        }
    }
}

/// The arguments in the first two positions get `X0` and `X1`; no other register
/// is given.
proof fn lemma_alloc_args_map(st: AllocModel, args: Seq<VRegModel>)
    ensures
        forall|v: VRegModel| #[trigger] alloc_args_spec(st, args).0.map.contains_key(v) ==> {
            ||| st.map.contains_key(v) && alloc_args_spec(st, args).0.map[v] == st.map[v]
            ||| args.len() >= 1 && v == args[0] && alloc_args_spec(st, args).0.map[v] == Reg::X0
            ||| args.len() >= 2 && v == args[1] && alloc_args_spec(st, args).0.map[v] == Reg::X1
        },
    decreases args.len(),
{
    if args.len() > 0 {
        let front = args.drop_last();
        lemma_alloc_args_map(st, front);
        assert forall|v: VRegModel| #[trigger] alloc_args_spec(st, args).0.map.contains_key(v) implies {
            ||| st.map.contains_key(v) && alloc_args_spec(st, args).0.map[v] == st.map[v]
            ||| args.len() >= 1 && v == args[0] && alloc_args_spec(st, args).0.map[v] == Reg::X0
            ||| args.len() >= 2 && v == args[1] && alloc_args_spec(st, args).0.map[v] == Reg::X1
        } by {
            if front.len() >= 1 {
                assert(front[0] == args[0]);
            }
            if front.len() >= 2 {
                assert(front[1] == args[1]);
            }
            if v != args.last() {
                assert(alloc_args_spec(st, front).0.map.contains_key(v));
            }
        }
    }
}

/// The allocator state once the arguments of `f` have their registers.
pub open spec fn alloc_start(f: FnModel<VRegModel>) -> AllocModel {
    alloc_args_spec(AllocModel { free: initial_free(), map: Map::empty(), counts: usage_counts_spec(f) }, f.args).0
}

/// Register allocation keeps what a function computes, arguments included: when
/// allocation succeeds, running the machine code from registers where `X0` and `X1`
/// hold the first two arguments' values leaves in `X0` the value that running the
/// virtual-register code gives the last instruction's destination (each virtual
/// register read gives its latest write). On the way, after each allocated prefix,
/// every virtual register with reads still to come keeps its value in a register of
/// its own that is not free, so none is overwritten before its last read.
pub proof fn law_regalloc_computes(
    f: FnModel<VRegModel>,
    menv: spec_fn(Reg) -> int,
    venv: spec_fn(VRegModel) -> int,
    addr: spec_fn(usize) -> int,
)
    requires
        f.insts.len() > 0,
        f.args.len() >= 1 ==> menv(Reg::X0) == venv(f.args[0]),
        f.args.len() >= 2 ==> menv(Reg::X1) == venv(f.args[1]),
    ensures
        regalloc_fn_spec(f) matches Ok(g) ==> run(menv, g.insts, addr)(Reg::X0) == run(venv, f.insts, addr)(
            inst_dst(f.insts.last()),
        ),
        forall|n: int|
            0 <= n <= f.insts.len() ==> (#[trigger] alloc_insts_spec(alloc_start(f), f.insts.take(n)) matches Ok((st, out))
                ==> simulates(st, run(menv, out, addr), run(venv, f.insts.take(n), addr))),
{
    let counts = usage_counts_spec(f);
    let st0 = AllocModel { free: initial_free(), map: Map::empty(), counts };
    lemma_alloc_args_keeps(st0, f.args);
    lemma_alloc_args_map(st0, f.args);
    let st1 = alloc_args_spec(st0, f.args).0;
    assert(initial_free().no_duplicates()) by {
        let s = initial_free();
        assert forall|i: int, j: int| 0 <= i < s.len() && 0 <= j < s.len() && i != j implies s[i] != s[j] by {}
    }
    assert forall|v: VRegModel| #[trigger] live(st1, v) implies !st1.free.contains(st1.map[v]) && menv(st1.map[v]) == venv(v) by {
        assert(st1.map[v] == Reg::X0 || st1.map[v] == Reg::X1);
        if st1.free.contains(st1.map[v]) {
            let j = choose|j: int| 0 <= j < st1.free.len() && st1.free[j] == st1.map[v];
            assert(initial_free()[j] != Reg::X0 && initial_free()[j] != Reg::X1);
        }
    }
    assert(simulates(st1, menv, venv));
    lemma_count_uses_keys(arg_counts(f.args), f.insts);
    assert forall|n: int| 0 <= n <= f.insts.len() implies (#[trigger] alloc_insts_spec(alloc_start(f), f.insts.take(n)) matches Ok((st, out))
        ==> simulates(st, run(menv, out, addr), run(venv, f.insts.take(n), addr))) by {
        let pre = f.insts.take(n);
        assert forall|k: int| 0 <= k < pre.len() implies operands_counted(st1.counts, #[trigger] pre[k]) by {
            assert(pre[k] == f.insts[k]);
        }
        lemma_alloc_insts_simulates(st1, menv, venv, pre, addr);
    }
    lemma_alloc_insts_simulates(st1, menv, venv, f.insts, addr);
    match alloc_insts_spec(st1, f.insts) {
        Err(_) => {},
        Ok((_, out)) => {
            lemma_run_retarget(menv, out, addr);
        },
    }
}

} // verus!
