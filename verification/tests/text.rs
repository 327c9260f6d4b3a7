use minicomp::{Binop, Ctx, Decl, Error, Expr, Fn, Inst, Reg, VReg};

#[test]
fn reg_names() {
    assert_eq!(Reg::X0.to_string(), "X0");
    assert_eq!(Reg::X1.to_string(), "X1");
    assert_eq!(Reg::X8.to_string(), "X8");
    assert_eq!(Reg::X9.to_string(), "X9");
    assert_eq!(Reg::X10.to_string(), "X10");
    assert_eq!(Reg::X11.to_string(), "X11");
}

#[test]
fn binop_symbols() {
    assert_eq!(Binop::Add.to_string(), "+");
    assert_eq!(Binop::Sub.to_string(), "-");
}

#[test]
fn vreg_text() {
    assert_eq!(VReg::Indexed(0).to_string(), "%0");
    assert_eq!(VReg::Indexed(42).to_string(), "%42");
    assert_eq!(VReg::Named("x".to_string(), 7).to_string(), "%x_7");
}

#[test]
fn vreg_numbering() {
    assert_eq!(VReg::Indexed(3).succ(), VReg::Indexed(4));
    assert_eq!(VReg::Named("a".to_string(), 5).succ(), VReg::Indexed(5));
    assert_eq!(VReg::Indexed(2).with_name("b".to_string()), VReg::Named("b".to_string(), 2));
    assert!(VReg::Named("a".to_string(), 0).is_named("a"));
    assert!(!VReg::Named("a".to_string(), 0).is_named("ab"));
    assert!(!VReg::Indexed(0).is_named("a"));
    assert_eq!(VReg::default(), VReg::Indexed(0));
    assert_ne!(VReg::Indexed(0), VReg::Named("a".to_string(), 0));
}

#[test]
fn asm_instructions() {
    assert_eq!(Inst::Binop(Reg::X8, Binop::Add, Reg::X0, Reg::X9).to_string(), "add X8, X0, X9");
    assert_eq!(Inst::Binop(Reg::X0, Binop::Sub, Reg::X10, Reg::X11).to_string(), "sub X0, X10, X11");
    assert_eq!(Inst::Mov(Reg::X8, 12).to_string(), "mov X8, #12");
    assert_eq!(Inst::Mov(Reg::X8, -5).to_string(), "mov X8, #-5");
    assert_eq!(Inst::Mov(Reg::X8, i64::MIN).to_string(), "mov X8, #-9223372036854775808");
    assert_eq!(Inst::<Reg>::Adr(Reg::X9, 3).to_string(), "adr X9, .lit3");
}

#[test]
fn ir_instructions() {
    let i = Inst::Binop(VReg::Indexed(2), Binop::Add, VReg::Indexed(0), VReg::Named("x".to_string(), 0));
    assert_eq!(i.to_string(), "%2 = add %0, %x_0");
    assert_eq!(Inst::Mov(VReg::Indexed(0), 7).to_string(), "%0 = int #7");
    assert_eq!(Inst::<VReg>::Adr(VReg::Indexed(1), 0).to_string(), "%1 = adr $lit0");
}

#[test]
fn with_dst_keeps_operands() {
    let i = Inst::Binop(Reg::X8, Binop::Sub, Reg::X9, Reg::X10).with_dst(Reg::X0);
    assert_eq!(i.to_string(), "sub X0, X9, X10");
    assert_eq!(Inst::Mov(Reg::X8, 1).with_dst(Reg::X0).to_string(), "mov X0, #1");
    assert_eq!(Inst::<Reg>::Adr(Reg::X8, 2).with_dst(Reg::X1).to_string(), "adr X1, .lit2");
}

#[test]
fn asm_function() {
    let f = Fn::new(
        "main".to_string(),
        vec![],
        vec![Inst::Mov(Reg::X8, 1), Inst::Mov(Reg::X9, 2), Inst::Binop(Reg::X0, Binop::Add, Reg::X8, Reg::X9)],
        Reg::X0,
    );
    assert_eq!(f.to_string(), "main:\n  mov X8, #1\n  mov X9, #2\n  add X0, X8, X9\n  ret");
}

#[test]
fn ir_function() {
    let f = Fn::new(
        "f".to_string(),
        vec![VReg::Named("a".to_string(), 0), VReg::Named("b".to_string(), 0)],
        vec![Inst::Mov(VReg::Indexed(0), 1)],
        VReg::Indexed(0),
    );
    assert_eq!(f.to_string(), "fn $f(%a_0, %b_0) {\n  %0 = int #1\n  ret %0\n}");
    let empty: Fn<VReg> = Fn::new("g".to_string(), vec![], vec![], VReg::Indexed(0));
    assert_eq!(empty.to_string(), "fn $g() {\n  ret %0\n}");
}

#[test]
fn function_parts() {
    let f = Fn::new("h".to_string(), vec![Reg::X0], vec![Inst::Mov(Reg::X0, 3)], Reg::X0);
    let (name, args, insts, ret) = f.consume();
    assert_eq!(name, "h");
    assert_eq!(args, vec![Reg::X0]);
    assert_eq!(insts.len(), 1);
    assert_eq!(ret, Reg::X0);
}

#[test]
fn asm_unit() {
    let f = Fn::new("a".to_string(), vec![], vec![Inst::Mov(Reg::X0, 1)], Reg::X0);
    let g = Fn::new("b".to_string(), vec![], vec![Inst::Adr(Reg::X0, 0)], Reg::X0);
    let ctx = Ctx::new(vec!["hi".to_string(), "yo".to_string()], vec![f, g]);
    assert_eq!(
        ctx.to_string(),
        "a:\n  mov X0, #1\n  ret\n\nb:\n  adr X0, .lit0\n  ret\n\n.lit0: .ascii \"hi\"\n\n.lit1: .ascii \"yo\"\n"
    );
    let none: Ctx<Reg> = Ctx::new(vec![], vec![]);
    assert_eq!(none.to_string(), "\n");
}

#[test]
fn ir_unit() {
    let f = Fn::new("a".to_string(), vec![], vec![Inst::Adr(VReg::Indexed(0), 0)], VReg::Indexed(0));
    let ctx = Ctx::new(vec!["s".to_string()], vec![f]);
    assert_eq!(ctx.to_string(), "fn $a() {\n  %0 = adr $lit0\n  ret %0\n}\n\nlet $lit0 = \"s\"\n");
    let (strings, fns) = ctx.consume();
    assert_eq!(strings, vec!["s".to_string()]);
    assert_eq!(fns.len(), 1);
}

#[test]
fn syntax_tree_dump() {
    let e: Expr<String> = Expr::Binop(
        Binop::Sub,
        Box::new(Expr::Binop(Binop::Add, Box::new(Expr::Integer(1)), Box::new(Expr::String("x".to_string())))),
        Box::new(Expr::Integer(-2)),
    );
    assert_eq!(e.to_string(), "binop -\n  binop +\n    int 1\n    string 'x'\n  int -2\n");
    let d = Decl::Bind("main".to_string(), vec![], e);
    assert_eq!(d.to_string(), "fn main\n  binop -\n    binop +\n      int 1\n      string 'x'\n    int -2\n");
    let leaf = Decl::Bind("k".to_string(), vec![], Expr::Integer(0));
    assert_eq!(leaf.to_string(), "fn k\n  int 0\n");
    assert_eq!(Expr::<String>::Identifier("v".to_string()).to_string(), "ident v");
}

#[test]
fn syntax_tree_dump_splits_lines() {
    let e: Expr<String> = Expr::String("a\nb\r\nc".to_string());
    let d = Decl::Bind("m".to_string(), vec![], e);
    assert_eq!(d.to_string(), "fn m\n  string 'a\n  b\n  c'\n");
    let bare_cr: Expr<String> = Expr::String("a\rb".to_string());
    let d = Decl::Bind("m".to_string(), vec![], bare_cr);
    assert_eq!(d.to_string(), "fn m\n  string 'a\rb'\n");
}

#[test]
fn error_messages() {
    assert_eq!(Error::OutOfRegs.message(), "error: out of registers\n");
    assert_eq!(Error::UnallocedVReg.message(), "error: unalloced vreg used\n");
    assert_eq!(Error::OverusedVReg.message(), "error: a vreg was overused\n");
}
