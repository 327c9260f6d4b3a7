use minicomp::collect_strings::collect_strings_expr;
use minicomp::{collect_strings, counts_fit_all, is_lowerable, lower, regalloc, try_parse, Binop, Decl, Error, Expr, Inst, Reg};

fn resolve(e: &Expr<usize>, table: &[String]) -> Expr<String> {
    match e {
        Expr::Binop(op, l, r) => Expr::Binop(*op, Box::new(resolve(l, table)), Box::new(resolve(r, table))),
        Expr::Identifier(n) => Expr::Identifier(n.clone()),
        Expr::Integer(v) => Expr::Integer(*v),
        Expr::String(i) => Expr::String(table[*i].clone()),
    }
}

#[test]
fn collects_literals_in_order() {
    let (_, decls) = try_parse("a = \"x\" + \"y\"\nb = \"z\" - 1").unwrap();
    let (strings, indexed) = collect_strings(vec![], &decls);
    assert_eq!(strings, vec!["x".to_string(), "y".to_string(), "z".to_string()]);
    assert_eq!(
        format!("{:?}", indexed),
        "[Bind(\"a\", [], Binop(Add, String(0), String(1))), Bind(\"b\", [], Binop(Sub, String(2), Integer(1)))]"
    );
}

#[test]
fn collects_after_existing_entries() {
    let (_, decls) = try_parse("a = \"x\"").unwrap();
    let (strings, indexed) = collect_strings(vec!["p".to_string()], &decls);
    assert_eq!(strings, vec!["p".to_string(), "x".to_string()]);
    assert_eq!(format!("{:?}", indexed), "[Bind(\"a\", [], String(1))]");
}

#[test]
fn collecting_loses_nothing() {
    let (_, decls) = try_parse("a = \"x\" + 1 - \"y\"\nb = 2\nc = \"x\"").unwrap();
    let (strings, indexed) = collect_strings(vec!["q".to_string()], &decls);
    for (d, i) in decls.iter().zip(indexed.iter()) {
        let (Decl::Bind(n1, a1, e1), Decl::Bind(n2, a2, e2)) = (d, i);
        assert_eq!(n1, n2);
        assert_eq!(a1, a2);
        assert_eq!(format!("{:?}", e1), format!("{:?}", resolve(e2, &strings)));
    }
}

fn compile(src: &str) -> (String, String) {
    let (_, decls) = try_parse(src).unwrap();
    let (strings, decls) = collect_strings(vec![], &decls);
    assert!(decls.iter().all(is_lowerable));
    let ir = lower(strings, decls);
    let ir_text = ir.to_string();
    assert!(counts_fit_all(&ir));
    let machine = regalloc(ir).unwrap();
    (ir_text, machine.to_string())
}

#[test]
fn compiles_a_sum() {
    let (ir, machine) = compile("main = 1 + 2");
    assert_eq!(ir, "fn $main() {\n  %0 = int #1\n  %1 = int #2\n  %2 = add %0, %1\n  ret %2\n}\n");
    assert_eq!(machine, "main:\n  mov X8, #1\n  mov X9, #2\n  add X0, X8, X9\n  ret\n");
}

#[test]
fn compiles_with_a_literal() {
    let (ir, machine) = compile("main = 1 + \"x\" - 2");
    assert_eq!(
        ir,
        "fn $main() {\n  %0 = int #1\n  %1 = adr $lit0\n  %2 = add %0, %1\n  %3 = int #2\n  %4 = sub %2, %3\n  ret %4\n}\n\nlet $lit0 = \"x\"\n"
    );
    assert_eq!(
        machine,
        "main:\n  mov X8, #1\n  adr X9, .lit0\n  add X8, X8, X9\n  mov X9, #2\n  sub X0, X8, X9\n  ret\n\n.lit0: .ascii \"x\"\n"
    );
}

#[test]
fn compiles_several_functions() {
    let (_, machine) = compile("a = 5\nb = \"s\"");
    assert_eq!(machine, "a:\n  mov X0, #5\n  ret\n\nb:\n  adr X0, .lit0\n  ret\n\n.lit0: .ascii \"s\"\n");
}

#[test]
fn lowers_parameters() {
    let body = Expr::Binop(
        Binop::Sub,
        Box::new(Expr::Binop(
            Binop::Add,
            Box::new(Expr::Identifier("a".to_string())),
            Box::new(Expr::Identifier("b".to_string())),
        )),
        Box::new(Expr::Integer(1)),
    );
    let d: Decl<usize> = Decl::Bind("f".to_string(), vec!["a".to_string(), "b".to_string()], body);
    assert!(is_lowerable(&d));
    let ir = lower(vec![], vec![d]);
    assert_eq!(
        ir.to_string(),
        "fn $f(%a_0, %b_0) {\n  %0 = add %a_0, %b_0\n  %1 = int #1\n  %2 = sub %0, %1\n  ret %2\n}\n"
    );
    let machine = regalloc(ir).unwrap();
    assert_eq!(machine.fns[0].args, vec![Reg::X0, Reg::X1]);
    assert_eq!(machine.to_string(), "f:\n  add X0, X0, X1\n  mov X8, #1\n  sub X0, X0, X8\n  ret\n");
}

#[test]
fn unbound_identifier_is_not_lowerable() {
    let d: Decl<usize> = Decl::Bind("f".to_string(), vec!["a".to_string()], Expr::Identifier("b".to_string()));
    assert!(!is_lowerable(&d));
    let d: Decl<usize> = Decl::Bind("f".to_string(), vec!["a".to_string()], Expr::Identifier("a".to_string()));
    assert!(is_lowerable(&d));
}

/// Runs machine code from zeroed registers; a literal's address is 1000 plus its index.
fn run(insts: &[Inst<Reg>]) -> i64 {
    let mut regs = std::collections::HashMap::new();
    let get = |regs: &std::collections::HashMap<Reg, i64>, r: Reg| *regs.get(&r).unwrap_or(&0);
    for i in insts {
        match i {
            Inst::Binop(d, op, l, r) => {
                let v = match op {
                    Binop::Add => get(&regs, *l) + get(&regs, *r),
                    Binop::Sub => get(&regs, *l) - get(&regs, *r),
                };
                regs.insert(*d, v);
            },
            Inst::Mov(d, v) => {
                regs.insert(*d, *v);
            },
            Inst::Adr(d, idx) => {
                regs.insert(*d, 1000 + *idx as i64);
            },
        }
    }
    get(&regs, Reg::X0)
}

#[test]
fn compiled_code_computes_the_body() {
    let cases: Vec<(&str, i64)> = vec![
        ("main = 10 - 3 + 5 - 1", 11),
        ("main = 7", 7),
        ("main = \"a\" + 1 - \"b\"", 1000 + 1 - 1001),
        ("main = 1 + 2 + 3 + 4 + 5 + 6 + 7 + 8", 36),
    ];
    for (src, want) in cases {
        let (_, decls) = try_parse(src).unwrap();
        let (strings, decls) = collect_strings(vec![], &decls);
        let machine = regalloc(lower(strings, decls)).unwrap();
        assert_eq!(run(&machine.fns[0].insts), want, "{}", src);
    }
}

/// `1 + (2 + (3 + ...))` with `depth` operations, nested to the right.
fn right_nested(depth: i64) -> Expr<usize> {
    let mut e = Expr::Integer(depth + 1);
    let mut i = depth;
    while i >= 1 {
        e = Expr::Binop(Binop::Add, Box::new(Expr::Integer(i)), Box::new(e));
        i -= 1;
    }
    e
}

#[test]
fn right_nesting_needs_one_temporary_per_level() {
    let fits = Decl::Bind("f".to_string(), vec![], right_nested(3));
    let machine = regalloc(lower(vec![], vec![fits])).unwrap();
    assert_eq!(run(&machine.fns[0].insts), 1 + 2 + 3 + 4);
    let too_deep = Decl::Bind("g".to_string(), vec![], right_nested(4));
    assert_eq!(regalloc(lower(vec![], vec![too_deep])).unwrap_err(), Error::OutOfRegs);
}

#[test]
fn long_parsed_chains_fit_the_registers() {
    let mut src = "main = 0".to_string();
    for i in 1..200 {
        src.push_str(if i % 2 == 0 { " + " } else { " - " });
        src.push_str(&i.to_string());
    }
    let (_, decls) = try_parse(&src).unwrap();
    let (strings, decls) = collect_strings(vec![], &decls);
    let machine = regalloc(lower(strings, decls)).unwrap();
    let want: i64 = (1..200).map(|i: i64| if i % 2 == 0 { i } else { -i }).sum();
    assert_eq!(run(&machine.fns[0].insts), want);
}

/// The string indices of an expression, from left to right.
fn indices(e: &Expr<usize>, out: &mut Vec<usize>) {
    match e {
        Expr::Binop(_, l, r) => {
            indices(l, out);
            indices(r, out);
        },
        Expr::String(i) => out.push(*i),
        _ => {},
    }
}

#[test]
fn collecting_one_expression_numbers_within_the_new_entries() {
    let (_, decls) = try_parse("a = \"x\" + 1 - \"y\" + \"x\"").unwrap();
    let Decl::Bind(_, _, body) = &decls[0];
    let table = vec!["p".to_string(), "q".to_string()];
    let (strings, indexed) = collect_strings_expr(table, body);
    assert_eq!(strings, vec!["p", "q", "x", "y", "x"]);
    let mut seen = vec![];
    indices(&indexed, &mut seen);
    assert_eq!(seen, vec![2, 3, 4]);
    assert!(seen.iter().all(|i| 2 <= *i && *i < strings.len()));
    assert_eq!(format!("{:?}", resolve(&indexed, &strings)), format!("{:?}", body));
}

#[test]
fn collecting_splits_over_concatenation() {
    let (_, a) = try_parse("a = \"x\" + 1\nb = \"y\"").unwrap();
    let (_, b) = try_parse("c = 2 - \"z\"\nd = \"w\" + \"v\"").unwrap();
    let (_, ab) = try_parse("a = \"x\" + 1\nb = \"y\"\nc = 2 - \"z\"\nd = \"w\" + \"v\"").unwrap();
    let table = vec!["t".to_string()];
    let (s_ab, d_ab) = collect_strings(table.clone(), &ab);
    let (s_a, d_a) = collect_strings(table.clone(), &a);
    let (s_b, d_b) = collect_strings(s_a, &b);
    assert_eq!(s_ab, s_b);
    assert_eq!(format!("{:?}", d_ab), format!("{:?}{:?}", d_a, d_b).replace("][", ", "));
    let (s_e, d_e) = collect_strings(table.clone(), &[]);
    assert_eq!(s_e, table);
    assert!(d_e.is_empty());
}
