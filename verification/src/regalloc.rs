use vstd::prelude::*;

use crate::types::func::{inst_views, reg_views};
use crate::types::inst::{inst_dst, inst_with_dst};
use crate::types::ast::texts;
use crate::types::ctx::fn_views;
use crate::types::{Ctx, CtxModel, Error, Fn, FnModel, Inst, Reg, VReg, VRegModel};
use crate::vreg_map::VRegMap;

verus! {

/// The state of the register allocator: the free registers (the last one is handed
/// out next), the register given to each virtual register, and how many reads of
/// each virtual register are still to come.
pub struct AllocModel {
    pub free: Seq<Reg>,
    pub map: Map<VRegModel, Reg>,
    pub counts: Map<VRegModel, usize>,
}

/// The free registers at the start: `X8` is handed out first, then `X9`, `X10`, `X11`.
pub open spec fn initial_free() -> Seq<Reg> {
    seq![Reg::X11, Reg::X10, Reg::X9, Reg::X8]
}

/// The count of reads still to come for `v` (none when it has no entry).
pub open spec fn count_of(counts: Map<VRegModel, usize>, v: VRegModel) -> usize {
    if counts.contains_key(v) {
        counts[v]
    } else {
        0
    }
}

/// Gives `v` the last free register. The register stays free when no read of `v`
/// is to come. Fails when no register is free.
pub open spec fn alloc_step(st: AllocModel, v: VRegModel) -> Result<(AllocModel, Reg), Error> {
    if st.free.len() == 0 {
        Err(Error::OutOfRegs)
    } else {
        let reg = st.free.last();
        let free = if count_of(st.counts, v) != 0 {
            st.free.drop_last()
        } else {
            st.free
        };
        Ok((AllocModel { free, map: st.map.insert(v, reg), counts: st.counts }, reg))
    }
}

/// Gives the argument at position `index` its calling-convention register: `X0`
/// for the first, `X1` for the second; any other position fails.
pub open spec fn alloc_arg_step(st: AllocModel, v: VRegModel, index: int) -> Result<(AllocModel, Reg), Error> {
    if index == 0 || index == 1 {
        let reg = if index == 0 {
            Reg::X0
        } else {
            Reg::X1
        };
        Ok((AllocModel { map: st.map.insert(v, reg), ..st }, reg))
    } else {
        Err(Error::OutOfRegs)
    }
}

/// Reads `v`: its register, with one read fewer to come; when that was its last
/// read, the register becomes free again. Fails when `v` has no register, or when
/// its count is already zero.
pub open spec fn use_step(st: AllocModel, v: VRegModel) -> Result<(AllocModel, Reg), Error> {
    if !st.map.contains_key(v) {
        Err(Error::UnallocedVReg)
    } else {
        let reg = st.map[v];
        if st.counts.contains_key(v) {
            if st.counts[v] == 0 {
                Err(Error::OverusedVReg)
            } else {
                let c = (st.counts[v] - 1) as usize;
                let free = if c == 0 {
                    st.free.push(reg)
                } else {
                    st.free
                };
                Ok((AllocModel { free, map: st.map, counts: st.counts.insert(v, c) }, reg))
            }
        } else {
            Ok((st, reg))
        }
    }
}

/// A register allocator over a fixed pool of temporaries.
pub struct RegAlloc {
    pub free_regs: Vec<Reg>,
    pub vreg_to_reg: VRegMap<Reg>,
    pub usage_counts: VRegMap<usize>,
}

impl RegAlloc {
    /// Whether the allocator's maps are well formed.
    pub open spec fn wf(&self) -> bool {
        self.vreg_to_reg.wf() && self.usage_counts.wf()
    }

    /// The state the allocator is in.
    pub open spec fn model(&self) -> AllocModel {
        AllocModel {
            free: self.free_regs@,
            map: self.vreg_to_reg.view(),
            counts: self.usage_counts.view(),
        }
    }

    /// An allocator with all temporaries free, no register given, and the given
    /// counts of reads to come.
    pub fn new(usage_counts: VRegMap<usize>) -> (a: Self)
        requires
            usage_counts.wf(),
        ensures
            a.wf(),
            a.model() == (AllocModel {
                free: initial_free(),
                map: Map::empty(),
                counts: usage_counts.view(),
            }),
    {
        let a = RegAlloc {
            free_regs: vec![Reg::X11, Reg::X10, Reg::X9, Reg::X8],
            vreg_to_reg: VRegMap::new(),
            usage_counts,
        };
        proof {
            assert(a.free_regs@ =~= initial_free());
        }
        a
    }

    /// Gives `vreg` a register, as `alloc_step` describes.
    pub fn allocate(&mut self, vreg: VReg) -> (r: Result<Reg, Error>)
        requires
            old(self).wf(),
        ensures
            final(self).wf(),
            match alloc_step(old(self).model(), vreg@) {
                Ok((st, reg)) => r == Ok::<Reg, Error>(reg) && final(self).model() == st,
                Err(e) => r == Err::<Reg, Error>(e) && final(self).model() == old(self).model(),
            },
    {
        if self.free_regs.len() == 0 {
            return Err(Error::OutOfRegs);
        }
        let reg = self.free_regs[self.free_regs.len() - 1];
        let usage_count = match self.usage_counts.get(&vreg) {
            Some(c) => c,
            None => 0,
        };
        self.vreg_to_reg.insert(vreg, reg);
        let should_keep_alive = usage_count != 0;
        if should_keep_alive {
            self.free_regs.pop();
            proof {
                assert(self.free_regs@ =~= old(self).free_regs@.drop_last());
            }
        }
        Ok(reg)
    }

    /// Gives the argument at position `index` its register, as `alloc_arg_step` describes.
    pub fn alloc_arg(&mut self, vreg: VReg, index: usize) -> (r: Result<Reg, Error>)
        requires
            old(self).wf(),
        ensures
            final(self).wf(),
            match alloc_arg_step(old(self).model(), vreg@, index as int) {
                Ok((st, reg)) => r == Ok::<Reg, Error>(reg) && final(self).model() == st,
                Err(e) => r == Err::<Reg, Error>(e) && final(self).model() == old(self).model(),
            },
    {
        let reg = match index {
            0 => Reg::X0,
            1 => Reg::X1,
            _ => return Err(Error::OutOfRegs),
        };
        self.vreg_to_reg.insert(vreg, reg);
        Ok(reg)
    }

    /// Reads `vreg`, as `use_step` describes.
    pub fn use_(&mut self, vreg: VReg) -> (r: Result<Reg, Error>)
        requires
            old(self).wf(),
        ensures
            final(self).wf(),
            match use_step(old(self).model(), vreg@) {
                Ok((st, reg)) => r == Ok::<Reg, Error>(reg) && final(self).model() == st,
                Err(e) => r == Err::<Reg, Error>(e) && final(self).model() == old(self).model(),
            },
    {
        let reg = match self.vreg_to_reg.get(&vreg) {
            Some(reg) => reg,
            None => return Err(Error::UnallocedVReg),
        };
        if let Some(usage_count) = self.usage_counts.get(&vreg) {
            let is_overused = usage_count == 0;
            if is_overused {
                return Err(Error::OverusedVReg);
            }
            let usage_count = usage_count - 1;
            self.usage_counts.insert(vreg, usage_count);
            let should_free = usage_count == 0;
            if should_free {
                self.free_regs.push(reg);
            }
        }
        Ok(reg)
    }
}

/// The counts for the arguments: each argument counts its own position (a later
/// argument with the same register replaces an earlier one).
pub open spec fn arg_counts(args: Seq<VRegModel>) -> Map<VRegModel, usize>
    decreases args.len(),
{
    if args.len() == 0 {
        Map::empty()
    } else {
        arg_counts(args.drop_last()).insert(args.last(), (args.len() - 1) as usize)
    }
}

/// One more read of `v`.
pub open spec fn add_use(m: Map<VRegModel, usize>, v: VRegModel) -> Map<VRegModel, usize> {
    m.insert(v, (count_of(m, v) + 1) as usize)
}

/// The reads of one instruction: both operands of an operation, the left one first.
pub open spec fn inst_uses(m: Map<VRegModel, usize>, i: Inst<VRegModel>) -> Map<VRegModel, usize> {
    match i {
        Inst::Binop(_, _, l, r) => add_use(add_use(m, l), r),
        _ => m,
    }
}

/// The counts `m` with the reads of `insts` added, in order.
pub open spec fn count_uses(m: Map<VRegModel, usize>, insts: Seq<Inst<VRegModel>>) -> Map<VRegModel, usize>
    decreases insts.len(),
{
    if insts.len() == 0 {
        m
    } else {
        inst_uses(count_uses(m, insts.drop_last()), insts.last())
    }
}

/// The counts a function's register allocation starts from.
pub open spec fn usage_counts_spec(f: FnModel<VRegModel>) -> Map<VRegModel, usize> {
    count_uses(arg_counts(f.args), f.insts)
}

/// Whether the counts of a function fit in `usize`.
pub open spec fn counts_fit(f: FnModel<VRegModel>) -> bool {
    f.args.len() + 2 * f.insts.len() <= usize::MAX
}

/// Counts, for each virtual register of `f`, the reads of it, starting an argument
/// from its position; returns the function unchanged with the counts.
pub fn collect_usage_counts(f: Fn<VReg>) -> (r: (Fn<VReg>, VRegMap<usize>))
    requires
        counts_fit(f@),
    ensures
        r.0@ == f@,
        r.1.wf(),
        r.1.view() == usage_counts_spec(f@),
{
    let ghost fv = f@;
    let (name, args, insts, ret) = f.consume();
    let mut usage_counts: VRegMap<usize> = VRegMap::new();
    let mut index: usize = 0;
    while index < args.len()
        invariant
            index <= args.len(),
            reg_views(args@) == fv.args,
            fv.args.len() + 2 * fv.insts.len() <= usize::MAX,
            usage_counts.wf(),
            usage_counts.view() == arg_counts(fv.args.take(index as int)),
            forall|k: VRegModel| #[trigger] usage_counts.view().contains_key(k) ==> usage_counts.view()[k] < index,
        decreases args.len() - index,
    {
        usage_counts.insert(args[index].clone(), index);
        proof {
            assert(fv.args.take(index + 1).drop_last() =~= fv.args.take(index as int));
        }
        index = index + 1;
    }
    proof {
        assert(fv.args.take(args.len() as int) =~= fv.args);
    }
    let ghost base = usage_counts.view();
    let mut j: usize = 0;
    while j < insts.len()
        invariant
            j <= insts.len(),
            inst_views(insts@) == fv.insts,
            reg_views(args@) == fv.args,
            fv.args.len() + 2 * fv.insts.len() <= usize::MAX,
            usage_counts.wf(),
            usage_counts.view() == count_uses(base, fv.insts.take(j as int)),
            forall|k: VRegModel| #[trigger] usage_counts.view().contains_key(k) ==> usage_counts.view()[k] <= args.len() + 2 * j,
        decreases insts.len() - j,
    {
        let ghost before = usage_counts.view();
        match &insts[j] {
            Inst::Binop(_, _, lhs, rhs) => {
                let cl = match usage_counts.get(lhs) {
                    Some(c) => c,
                    None => 0,
                };
                usage_counts.insert(lhs.clone(), cl + 1);
                proof {
                    assert forall|k: VRegModel| #[trigger] usage_counts.view().contains_key(k) implies usage_counts.view()[k]
                        <= args.len() + 2 * j + 1 by {
                        if k != lhs@ {
                            assert(before.contains_key(k));
                        } else if before.contains_key(k) {
                            assert(before[k] <= args.len() + 2 * j);
                        }
                    }
                }
                let ghost mid = usage_counts.view();
                let cr = match usage_counts.get(rhs) {
                    Some(c) => c,
                    None => 0,
                };
                usage_counts.insert(rhs.clone(), cr + 1);
                proof {
                    assert forall|k: VRegModel| #[trigger] usage_counts.view().contains_key(k) implies usage_counts.view()[k]
                        <= args.len() + 2 * (j + 1) by {
                        if k != rhs@ {
                            assert(mid.contains_key(k));
                        } else if mid.contains_key(k) {
                            assert(mid[k] <= args.len() + 2 * j + 1);
                        }
                    }
                }
            },
            Inst::Mov(_, _) => {},
            Inst::Adr(_, _) => {},
        }
        proof {
            assert(fv.insts.take(j + 1).drop_last() =~= fv.insts.take(j as int));
            assert(fv.insts.take(j + 1).last() == insts@[j as int]@);
        }
        j = j + 1;
    }
    proof {
        assert(fv.insts.take(insts.len() as int) =~= fv.insts);
    }
    (Fn::new(name, args, insts, ret), usage_counts)
}

/// Gives the arguments their registers in order; an argument that cannot have one
/// is left out of the returned list.
pub open spec fn alloc_args_spec(st: AllocModel, args: Seq<VRegModel>) -> (AllocModel, Seq<Reg>)
    decreases args.len(),
{
    if args.len() == 0 {
        (st, Seq::empty())
    } else {
        let (st1, regs) = alloc_args_spec(st, args.drop_last());
        match alloc_arg_step(st1, args.last(), args.len() - 1) {
            Ok((st2, r)) => (st2, regs.push(r)),
            Err(_) => (st1, regs),
        }
    }
}

/// Allocates one instruction: an operation reads its right operand, then its left
/// one, then gives its destination a register; a move gives its destination one.
pub open spec fn alloc_inst_spec(st: AllocModel, i: Inst<VRegModel>) -> Result<(AllocModel, Inst<Reg>), Error> {
    match i {
        Inst::Binop(d, op, l, r) => match use_step(st, r) {
            Err(e) => Err(e),
            Ok((st1, rr)) => match use_step(st1, l) {
                Err(e) => Err(e),
                Ok((st2, lr)) => match alloc_step(st2, d) {
                    Err(e) => Err(e),
                    Ok((st3, dr)) => Ok((st3, Inst::Binop(dr, op, lr, rr))),
                },
            },
        },
        Inst::Mov(d, v) => match alloc_step(st, d) {
            Err(e) => Err(e),
            Ok((st1, dr)) => Ok((st1, Inst::Mov(dr, v))),
        },
        Inst::Adr(d, idx) => match alloc_step(st, d) {
            Err(e) => Err(e),
            Ok((st1, dr)) => Ok((st1, Inst::Adr(dr, idx))),
        },
    }
}

/// Allocates the instructions in order; the first failure is the result.
pub open spec fn alloc_insts_spec(st: AllocModel, insts: Seq<Inst<VRegModel>>) -> Result<(AllocModel, Seq<Inst<Reg>>), Error>
    decreases insts.len(),
{
    if insts.len() == 0 {
        Ok((st, Seq::empty()))
    } else {
        match alloc_insts_spec(st, insts.drop_last()) {
            Err(e) => Err(e),
            Ok((st1, out)) => match alloc_inst_spec(st1, insts.last()) {
                Err(e) => Err(e),
                Ok((st2, i)) => Ok((st2, out.push(i))),
            },
        }
    }
}

/// The instructions with the last one writing `X0`, the result register.
pub open spec fn retarget_last(s: Seq<Inst<Reg>>) -> Seq<Inst<Reg>> {
    if s.len() == 0 {
        s
    } else {
        s.update(s.len() - 1, inst_with_dst(s.last(), Reg::X0))
    }
}

/// Register allocation of a function: count the reads, give the arguments their
/// registers, allocate the instructions, and return the result in `X0`.
pub open spec fn regalloc_fn_spec(f: FnModel<VRegModel>) -> Result<FnModel<Reg>, Error> {
    let st0 = AllocModel { free: initial_free(), map: Map::empty(), counts: usage_counts_spec(f) };
    let (st1, arg_regs) = alloc_args_spec(st0, f.args);
    match alloc_insts_spec(st1, f.insts) {
        Err(e) => Err(e),
        Ok((_, insts)) => Ok(FnModel { name: f.name, args: arg_regs, insts: retarget_last(insts), ret: Reg::X0 }),
    }
}

/// Once allocation of a prefix of the instructions fails, allocation of all of them
/// fails with the same error.
pub proof fn lemma_alloc_insts_prefix(st: AllocModel, s: Seq<Inst<VRegModel>>, n: int)
    requires
        0 <= n <= s.len(),
    ensures
        alloc_insts_spec(st, s.take(n)) is Err ==> alloc_insts_spec(st, s) == alloc_insts_spec(st, s.take(n)),
    decreases s.len() - n,
{
    if !(alloc_insts_spec(st, s.take(n)) is Err) {
    } else if n == s.len() {
        assert(s.take(n) =~= s);
    } else {
        assert(s.take(n + 1).drop_last() =~= s.take(n));
        lemma_alloc_insts_prefix(st, s, n + 1);
    }
}

/// Machine registers are their own views.
pub proof fn lemma_reg_views(s: Seq<Reg>)
    ensures
        reg_views(s) == s,
{
    assert(reg_views(s) =~= s);
}

/// Instructions over machine registers are their own views.
pub proof fn lemma_reg_inst_views(s: Seq<Inst<Reg>>)
    ensures
        inst_views(s) == s,
{
    assert forall|i: int| 0 <= i < s.len() implies #[trigger] inst_views(s)[i] == s[i] by {
        match s[i] {
            Inst::Binop(d, op, l, r) => {},
            Inst::Mov(d, v) => {},
            Inst::Adr(d, idx) => {},
        }
    }
    assert(inst_views(s) =~= s);
}

/// Allocates machine registers for a function, as `regalloc_fn_spec` describes.
pub fn regalloc_fn(f: Fn<VReg>) -> (r: Result<Fn<Reg>, Error>)
    requires
        counts_fit(f@),
    ensures
        match regalloc_fn_spec(f@) {
            Ok(g) => r matches Ok(h) && h@ == g,
            Err(e) => r matches Err(x) && x == e,
        },
{
    let ghost fv = f@;
    let (g, usage_counts) = collect_usage_counts(f);
    let (name, args, insts, _) = g.consume();
    let mut allocator = RegAlloc::new(usage_counts);
    let ghost st0 = allocator.model();

    let mut arg_regs: Vec<Reg> = Vec::new();
    let mut i: usize = 0;
    while i < args.len()
        invariant
            i <= args.len(),
            reg_views(args@) == fv.args,
            allocator.wf(),
            (allocator.model(), arg_regs@) == alloc_args_spec(st0, fv.args.take(i as int)),
        decreases args.len() - i,
    {
        proof {
            assert(fv.args.take(i + 1).drop_last() =~= fv.args.take(i as int));
        }
        match allocator.alloc_arg(args[i].clone(), i) {
            Ok(reg) => {
                arg_regs.push(reg);
            },
            Err(_) => {},
        }
        i = i + 1;
    }
    proof {
        assert(fv.args.take(args.len() as int) =~= fv.args);
    }
    let ghost st1 = allocator.model();

    let insts_len = insts.len();
    let mut alloced: Vec<Inst<Reg>> = Vec::new();
    for inst in it: insts
        invariant
            fv == f@,
            it.seq() == insts@,
            insts_len == insts@.len(),
            inst_views(insts@) == fv.insts,
            allocator.wf(),
            alloc_insts_spec(st1, fv.insts.take(it.index() as int)) == Ok::<(AllocModel, Seq<Inst<Reg>>), Error>((allocator.model(), alloced@)),
            alloced@.len() == it.index(),
            fv.name == name@,
            st0.counts == usage_counts_spec(fv),
            st0 == (AllocModel { free: initial_free(), map: Map::empty(), counts: usage_counts_spec(fv) }),
            (st1, arg_regs@) == alloc_args_spec(st0, fv.args),
    {
        let ghost k = it.index();
        let ghost iv = inst@;
        proof {
            assert(fv.insts.take(k + 1).drop_last() =~= fv.insts.take(k as int));
            assert(fv.insts.take(k + 1).last() == iv);
            lemma_alloc_insts_prefix(st1, fv.insts, k + 1);
        }
        let inst = match inst {
            Inst::Binop(dst, op, lhs, rhs) => {
                let rhs = allocator.use_(rhs)?;
                let lhs = allocator.use_(lhs)?;
                let dst = allocator.allocate(dst)?;
                Inst::Binop(dst, op, lhs, rhs)
            },
            Inst::Mov(dst, val) => {
                let dst = allocator.allocate(dst)?;
                Inst::Mov(dst, val)
            },
            Inst::Adr(dst, idx) => {
                let dst = allocator.allocate(dst)?;
                Inst::Adr(dst, idx)
            },
        };
        alloced.push(inst);
    }
    proof {
        assert(fv.insts.take(insts_len as int) =~= fv.insts);
    }
    let ghost raw = alloced@;
    if alloced.len() > 0 {
        let last = alloced.pop().unwrap();
        alloced.push(last.with_dst(Reg::X0));
    }
    proof {
        assert(alloced@ =~= retarget_last(raw));
        lemma_reg_views(arg_regs@);
        lemma_reg_inst_views(alloced@);
    }
    Ok(Fn::new(name, arg_regs, alloced, Reg::X0))
}

/// Register allocation of each function in order; the first failure is the result.
pub open spec fn alloc_fns(fns: Seq<FnModel<VRegModel>>) -> Result<Seq<FnModel<Reg>>, Error>
    decreases fns.len(),
{
    if fns.len() == 0 {
        Ok(Seq::empty())
    } else {
        match alloc_fns(fns.drop_last()) {
            Err(e) => Err(e),
            Ok(done) => match regalloc_fn_spec(fns.last()) {
                Err(e) => Err(e),
                Ok(g) => Ok(done.push(g)),
            },
        }
    }
}

/// Once allocation of a prefix of the functions fails, allocation of all of them
/// fails with the same error.
pub proof fn lemma_alloc_fns_prefix(s: Seq<FnModel<VRegModel>>, n: int)
    requires
        0 <= n <= s.len(),
    ensures
        alloc_fns(s.take(n)) is Err ==> alloc_fns(s) == alloc_fns(s.take(n)),
    decreases s.len() - n,
{
    if !(alloc_fns(s.take(n)) is Err) {
    } else if n == s.len() {
        assert(s.take(n) =~= s);
    } else {
        assert(s.take(n + 1).drop_last() =~= s.take(n));
        lemma_alloc_fns_prefix(s, n + 1);
    }
}

/// Allocates machine registers for every function of a unit, keeping its string
/// table; fails with the first function's error.
pub fn regalloc(ctx: Ctx<VReg>) -> (r: Result<Ctx<Reg>, Error>)
    requires
        forall|i: int| 0 <= i < ctx@.fns.len() ==> counts_fit(#[trigger] ctx@.fns[i]),
    ensures
        match alloc_fns(ctx@.fns) {
            Ok(gs) => r matches Ok(c) && c@ == (CtxModel { strings: ctx@.strings, fns: gs }),
            Err(e) => r matches Err(x) && x == e,
        },
{
    let ghost cv = ctx@;
    let (strings, fns) = ctx.consume();
    let mut out: Vec<Fn<Reg>> = Vec::new();
    proof {
        assert(cv.fns.take(0) =~= Seq::<FnModel<VRegModel>>::empty());
        assert(fn_views(out@) =~= Seq::<FnModel<Reg>>::empty());
    }
    for f in it: fns
        invariant
            cv == ctx@,
            it.seq() == fns@,
            fn_views(fns@) == cv.fns,
            texts(strings@) == cv.strings,
            forall|i: int| 0 <= i < cv.fns.len() ==> counts_fit(#[trigger] cv.fns[i]),
            alloc_fns(cv.fns.take(it.index() as int)) == Ok::<Seq<FnModel<Reg>>, Error>(fn_views(out@)),
    {
        let ghost k = it.index();
        proof {
            assert(cv.fns.take(k + 1).drop_last() =~= cv.fns.take(k as int));
            assert(cv.fns.take(k + 1).last() == f@);
            assert(counts_fit(cv.fns[k as int]));
            lemma_alloc_fns_prefix(cv.fns, k + 1);
        }
        let g = regalloc_fn(f)?;
        let ghost prev = out@;
        let ghost gv = g@;
        out.push(g);
        proof {
            assert(fn_views(out@) =~= fn_views(prev).push(gv));
        }
    }
    proof {
        assert(cv.fns.take(fns@.len() as int) =~= cv.fns);
    }
    Ok(Ctx::new(strings, out))
}

/// Whether an allocated instruction does what the virtual one did: the same kind,
/// operator, immediate or literal.
pub open spec fn same_shape(a: Inst<VRegModel>, b: Inst<Reg>) -> bool {
    match (a, b) {
        (Inst::Binop(_, op1, _, _), Inst::Binop(_, op2, _, _)) => op1 == op2,
        (Inst::Mov(_, v1), Inst::Mov(_, v2)) => v1 == v2,
        (Inst::Adr(_, i1), Inst::Adr(_, i2)) => i1 == i2,
        _ => false,
    }
}

proof fn lemma_alloc_insts_shape(st: AllocModel, insts: Seq<Inst<VRegModel>>)
    ensures
        alloc_insts_spec(st, insts) matches Ok((_, out)) ==> out.len() == insts.len() && forall|i: int|
            0 <= i < insts.len() ==> same_shape(#[trigger] insts[i], out[i]),
    decreases insts.len(),
{
    if insts.len() > 0 {
        lemma_alloc_insts_shape(st, insts.drop_last());
        match alloc_insts_spec(st, insts.drop_last()) {
            Ok((st1, o1)) => match alloc_inst_spec(st1, insts.last()) {
                Ok((st2, i)) => {
                    assert forall|j: int| 0 <= j < insts.len() implies same_shape(#[trigger] insts[j], o1.push(i)[j]) by {
                        if j < insts.len() - 1 {
                            assert(insts[j] == insts.drop_last()[j]);
                        }
                    }
                },
                Err(_) => {},
            },
            Err(_) => {},
        }
    }
}

proof fn lemma_alloc_args_regs(st: AllocModel, args: Seq<VRegModel>)
    ensures
        alloc_args_spec(st, args).1 == seq![Reg::X0, Reg::X1].take(if args.len() < 2 { args.len() as int } else { 2 }),
    decreases args.len(),
{
    if args.len() > 0 {
        lemma_alloc_args_regs(st, args.drop_last());
        if args.len() == 1 {
            assert(Seq::<Reg>::empty().push(Reg::X0) =~= seq![Reg::X0, Reg::X1].take(1));
        } else if args.len() == 2 {
            assert(seq![Reg::X0, Reg::X1].take(1).push(Reg::X1) =~= seq![Reg::X0, Reg::X1].take(2));
        }
    } else {
        assert(seq![Reg::X0, Reg::X1].take(0) =~= Seq::<Reg>::empty());
    }
}

/// Register allocation keeps the program: the function keeps its name and has one
/// instruction for each of its own, of the same kind, operator and operand value;
/// the last instruction and the result are in `X0`, and the arguments are in `X0`
/// and `X1` (a function with more arguments keeps only those two).
pub proof fn law_regalloc_keeps_shape(f: FnModel<VRegModel>)
    ensures
        regalloc_fn_spec(f) matches Ok(g) ==> {
            &&& g.name == f.name
            &&& g.ret == Reg::X0
            &&& g.insts.len() == f.insts.len()
            &&& forall|i: int| 0 <= i < f.insts.len() ==> same_shape(#[trigger] f.insts[i], g.insts[i])
            &&& g.insts.len() > 0 ==> inst_dst(g.insts.last()) == Reg::X0
            &&& g.args == seq![Reg::X0, Reg::X1].take(if f.args.len() < 2 { f.args.len() as int } else { 2 })
        },
{
    let st0 = AllocModel { free: initial_free(), map: Map::empty(), counts: usage_counts_spec(f) };
    let (st1, arg_regs) = alloc_args_spec(st0, f.args);
    lemma_alloc_args_regs(st0, f.args);
    lemma_alloc_insts_shape(st1, f.insts);
    match alloc_insts_spec(st1, f.insts) {
        Ok((_, out)) => {
            assert forall|i: int| 0 <= i < f.insts.len() implies same_shape(#[trigger] f.insts[i], retarget_last(out)[i]) by {
                assert(same_shape(f.insts[i], out[i]));
                if i == out.len() - 1 {
                    match (f.insts[i], out[i]) {
                        (Inst::Binop(_, _, _, _), Inst::Binop(_, _, _, _)) => {},
                        (Inst::Mov(_, _), Inst::Mov(_, _)) => {},
                        (Inst::Adr(_, _), Inst::Adr(_, _)) => {},
                        _ => {},
                    }
                }
            }
        },
        Err(_) => {},
    }
}

/// Whether the counts of every function of a unit fit in `usize`.
pub fn counts_fit_all(ctx: &Ctx<VReg>) -> (r: bool)
    ensures
        r == forall|i: int| 0 <= i < ctx@.fns.len() ==> counts_fit(#[trigger] ctx@.fns[i]),
{
    let mut i: usize = 0;
    while i < ctx.fns.len()
        invariant
            i <= ctx.fns.len(),
            forall|j: int| 0 <= j < i ==> counts_fit(#[trigger] ctx@.fns[j]),
        decreases ctx.fns.len() - i,
    {
        let f = &ctx.fns[i];
        let ok = match f.insts.len().checked_mul(2) {
            Some(two) => f.args.len().checked_add(two).is_some(),
            None => false,
        };
        if !ok {
            proof {
                assert(ctx@.fns[i as int] == f@);
                assert(!counts_fit(ctx@.fns[i as int]));
            }
            return false;
        }
        proof {
            assert(ctx@.fns[i as int] == f@);
        }
        i = i + 1;
    }
    true
}

} // verus!
