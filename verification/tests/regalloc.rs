use minicomp::regalloc::{collect_usage_counts, regalloc_fn, RegAlloc};
use minicomp::vreg_map::VRegMap;
use minicomp::{regalloc, Binop, Ctx, Error, Fn, Inst, Reg, VReg};

fn ix(i: usize) -> VReg {
    VReg::Indexed(i)
}

#[test]
fn counts_reads_and_argument_positions() {
    let f = Fn::new(
        "f".to_string(),
        vec![VReg::Named("a".to_string(), 0), VReg::Named("b".to_string(), 0)],
        vec![
            Inst::Binop(ix(0), Binop::Add, VReg::Named("b".to_string(), 0), VReg::Named("b".to_string(), 0)),
            Inst::Binop(ix(1), Binop::Add, ix(0), VReg::Named("a".to_string(), 0)),
        ],
        ix(1),
    );
    let (g, counts) = collect_usage_counts(f);
    assert_eq!(g.insts.len(), 2);
    assert_eq!(counts.get(&VReg::Named("a".to_string(), 0)), Some(1));
    assert_eq!(counts.get(&VReg::Named("b".to_string(), 0)), Some(3));
    assert_eq!(counts.get(&ix(0)), Some(1));
    assert_eq!(counts.get(&ix(1)), None);
}

#[test]
fn out_of_registers() {
    let mut insts = vec![];
    for i in 0..5 {
        insts.push(Inst::Mov(ix(i), i as i64));
    }
    insts.push(Inst::Binop(ix(5), Binop::Add, ix(0), ix(1)));
    insts.push(Inst::Binop(ix(6), Binop::Add, ix(2), ix(3)));
    insts.push(Inst::Binop(ix(7), Binop::Add, ix(4), ix(5)));
    insts.push(Inst::Binop(ix(8), Binop::Add, ix(6), ix(7)));
    let f = Fn::new("f".to_string(), vec![], insts, ix(8));
    assert_eq!(regalloc_fn(f).unwrap_err(), Error::OutOfRegs);
}

#[test]
fn four_live_values_fit() {
    let mut insts = vec![];
    for i in 0..4 {
        insts.push(Inst::Mov(ix(i), i as i64));
    }
    insts.push(Inst::Binop(ix(4), Binop::Add, ix(0), ix(1)));
    insts.push(Inst::Binop(ix(5), Binop::Add, ix(2), ix(3)));
    insts.push(Inst::Binop(ix(6), Binop::Sub, ix(4), ix(5)));
    let f = Fn::new("f".to_string(), vec![], insts, ix(6));
    let g = regalloc_fn(f).unwrap();
    assert_eq!(
        g.to_string(),
        "f:\n  mov X8, #0\n  mov X9, #1\n  mov X10, #2\n  mov X11, #3\n  add X8, X8, X9\n  add X10, X10, X11\n  sub X0, X8, X10\n  ret"
    );
}

#[test]
fn unallocated_register() {
    let f = Fn::new("f".to_string(), vec![], vec![Inst::Binop(ix(1), Binop::Add, ix(0), ix(0))], ix(1));
    assert_eq!(regalloc_fn(f).unwrap_err(), Error::UnallocedVReg);
}

#[test]
fn overused_register() {
    let mut counts = VRegMap::new();
    counts.insert(ix(0), 0usize);
    let mut a = RegAlloc::new(counts);
    assert_eq!(a.allocate(ix(0)), Ok(Reg::X8));
    assert_eq!(a.free_regs, vec![Reg::X11, Reg::X10, Reg::X9, Reg::X8]);
    assert_eq!(a.use_(ix(0)), Err(Error::OverusedVReg));
    assert_eq!(a.use_(ix(1)), Err(Error::UnallocedVReg));
}

#[test]
fn allocator_steps() {
    let mut counts = VRegMap::new();
    counts.insert(ix(0), 2usize);
    let mut a = RegAlloc::new(counts);
    assert_eq!(a.allocate(ix(0)), Ok(Reg::X8));
    assert_eq!(a.free_regs, vec![Reg::X11, Reg::X10, Reg::X9]);
    assert_eq!(a.use_(ix(0)), Ok(Reg::X8));
    assert_eq!(a.free_regs, vec![Reg::X11, Reg::X10, Reg::X9]);
    assert_eq!(a.use_(ix(0)), Ok(Reg::X8));
    assert_eq!(a.free_regs, vec![Reg::X11, Reg::X10, Reg::X9, Reg::X8]);
    assert_eq!(a.alloc_arg(ix(5), 0), Ok(Reg::X0));
    assert_eq!(a.alloc_arg(ix(6), 1), Ok(Reg::X1));
    assert_eq!(a.alloc_arg(ix(7), 2), Err(Error::OutOfRegs));
    assert_eq!(a.use_(ix(6)), Ok(Reg::X1));
    assert_eq!(a.vreg_to_reg.get(&ix(7)), None);
}

#[test]
fn extra_arguments_are_dropped() {
    let f = Fn::new(
        "f".to_string(),
        vec![VReg::Named("a".to_string(), 0), VReg::Named("b".to_string(), 0), VReg::Named("c".to_string(), 0)],
        vec![Inst::Mov(ix(0), 1)],
        ix(0),
    );
    let g = regalloc_fn(f).unwrap();
    assert_eq!(g.args, vec![Reg::X0, Reg::X1]);
    assert_eq!(g.ret, Reg::X0);
    assert_eq!(g.to_string(), "f:\n  mov X0, #1\n  ret");
}

#[test]
fn empty_function() {
    let f: Fn<VReg> = Fn::new("e".to_string(), vec![], vec![], ix(0));
    let g = regalloc_fn(f).unwrap();
    assert!(g.insts.is_empty());
    assert_eq!(g.to_string(), "e:\n  ret");
}

#[test]
fn first_failing_function_fails_the_unit() {
    let ok = Fn::new("a".to_string(), vec![], vec![Inst::Mov(ix(0), 1)], ix(0));
    let bad = Fn::new("b".to_string(), vec![], vec![Inst::Binop(ix(1), Binop::Add, ix(0), ix(0))], ix(1));
    let ctx = Ctx::new(vec!["s".to_string()], vec![ok, bad]);
    assert_eq!(regalloc(ctx).unwrap_err(), Error::UnallocedVReg);
    let ok = Fn::new("a".to_string(), vec![], vec![Inst::Mov(ix(0), 1)], ix(0));
    let ctx = Ctx::new(vec!["s".to_string()], vec![ok]);
    let out = regalloc(ctx).unwrap();
    assert_eq!(out.strings, vec!["s".to_string()]);
}

fn named(n: &str, k: usize) -> VReg {
    VReg::Named(n.to_string(), k)
}

/// Runs virtual-register code: each read gives the register's latest write.
fn run_virtual(args: &[(VReg, i64)], insts: &[Inst<VReg>]) -> i64 {
    let mut vals: Vec<(VReg, i64)> = args.to_vec();
    let get = |vals: &Vec<(VReg, i64)>, v: &VReg| vals.iter().rev().find(|(w, _)| w == v).unwrap().1;
    let mut last = 0;
    for i in insts {
        let (d, x) = match i {
            Inst::Binop(d, op, l, r) => {
                let (a, b) = (get(&vals, l), get(&vals, r));
                (d.clone(), if *op == Binop::Add { a + b } else { a - b })
            },
            Inst::Mov(d, v) => (d.clone(), *v),
            Inst::Adr(d, idx) => (d.clone(), 1000 + *idx as i64),
        };
        vals.push((d, x));
        last = x;
    }
    last
}

/// Runs machine code from the given contents of `X0` and `X1`, the rest zero.
fn run_machine(x0: i64, x1: i64, insts: &[Inst<Reg>]) -> i64 {
    let mut regs: Vec<(Reg, i64)> = vec![(Reg::X0, x0), (Reg::X1, x1)];
    let get = |regs: &Vec<(Reg, i64)>, r: Reg| regs.iter().rev().find(|(q, _)| *q == r).map(|p| p.1).unwrap_or(0);
    for i in insts {
        let (d, x) = match i {
            Inst::Binop(d, op, l, r) => {
                let (a, b) = (get(&regs, *l), get(&regs, *r));
                (*d, if *op == Binop::Add { a + b } else { a - b })
            },
            Inst::Mov(d, v) => (*d, *v),
            Inst::Adr(d, idx) => (*d, 1000 + *idx as i64),
        };
        regs.push((d, x));
    }
    get(&regs, Reg::X0)
}

#[test]
fn allocated_code_with_arguments_computes_the_same() {
    let (a, b) = (named("a", 0), named("b", 0));
    // (a - 3) + (b - a) + 7: `a` is read twice, so `X0` stays taken until its last read.
    let code = || {
        vec![
            Inst::Mov(ix(0), 3),
            Inst::Binop(ix(1), Binop::Sub, named("a", 0), ix(0)),
            Inst::Binop(ix(2), Binop::Sub, named("b", 0), named("a", 0)),
            Inst::Binop(ix(3), Binop::Add, ix(1), ix(2)),
            Inst::Mov(ix(4), 7),
            Inst::Binop(ix(5), Binop::Add, ix(3), ix(4)),
        ]
    };
    let insts = code();
    for (x0, x1) in [(0i64, 0i64), (5, 9), (-4, 11), (100, -100)] {
        let f = Fn::new("f".to_string(), vec![a.clone(), b.clone()], code(), ix(5));
        let g = regalloc_fn(f).unwrap();
        let want = run_virtual(&[(a.clone(), x0), (b.clone(), x1)], &insts);
        assert_eq!(want, (x0 - 3) + (x1 - x0) + 7);
        assert_eq!(run_machine(x0, x1, &g.insts), want);
    }
}

#[test]
fn redefined_register_reads_its_latest_value() {
    let a = named("a", 0);
    let code = || {
        vec![
            Inst::Mov(ix(0), 2),
            Inst::Binop(ix(1), Binop::Add, named("a", 0), ix(0)),
            Inst::Mov(ix(0), 10),
            Inst::Binop(ix(2), Binop::Sub, ix(0), ix(1)),
        ]
    };
    let insts = code();
    let f = Fn::new("f".to_string(), vec![a.clone()], code(), ix(2));
    let g = regalloc_fn(f).unwrap();
    for x0 in [0i64, 1, 42] {
        let want = run_virtual(&[(a.clone(), x0)], &insts);
        assert_eq!(want, 10 - (x0 + 2));
        assert_eq!(run_machine(x0, 0, &g.insts), want);
    }
}
