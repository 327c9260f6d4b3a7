use vstd::prelude::*;

use crate::types::ast::texts;
use crate::types::{Decl, DeclModel, Expr, ExprModel};

verus! {

/// The string literals of an expression, from left to right.
pub open spec fn expr_literals(e: ExprModel<Seq<char>>) -> Seq<Seq<char>>
    decreases e,
{
    match e {
        ExprModel::Binop(_, l, r) => expr_literals(*l) + expr_literals(*r),
        ExprModel::Identifier(_) => Seq::empty(),
        ExprModel::Integer(_) => Seq::empty(),
        ExprModel::String(v) => seq![v],
    }
}

/// The expression with its string literals replaced, from left to right, by the
/// indices `base`, `base + 1`, ...
pub open spec fn index_literals(e: ExprModel<Seq<char>>, base: nat) -> ExprModel<usize>
    decreases e,
{
    match e {
        ExprModel::Binop(op, l, r) => ExprModel::Binop(
            op,
            Box::new(index_literals(*l, base)),
            Box::new(index_literals(*r, base + expr_literals(*l).len())),
        ),
        ExprModel::Identifier(n) => ExprModel::Identifier(n),
        ExprModel::Integer(v) => ExprModel::Integer(v),
        ExprModel::String(_) => ExprModel::String(base as usize),
    }
}

/// The string literals of a declaration's body.
pub open spec fn decl_literals(d: DeclModel<Seq<char>>) -> Seq<Seq<char>> {
    match d {
        DeclModel::Bind(_, _, body) => expr_literals(body),
    }
}

/// The declaration with its literals numbered from `base`.
pub open spec fn index_decl(d: DeclModel<Seq<char>>, base: nat) -> DeclModel<usize> {
    match d {
        DeclModel::Bind(name, args, body) => DeclModel::Bind(name, args, index_literals(body, base)),
    }
}

/// The string literals of a list of declarations, in order.
pub open spec fn decls_literals(ds: Seq<DeclModel<Seq<char>>>) -> Seq<Seq<char>>
    decreases ds.len(),
{
    if ds.len() == 0 {
        Seq::empty()
    } else {
        decls_literals(ds.drop_last()) + decl_literals(ds.last())
    }
}

/// The declarations with their literals numbered, in order, from `base`.
pub open spec fn index_decls(ds: Seq<DeclModel<Seq<char>>>, base: nat) -> Seq<DeclModel<usize>>
    decreases ds.len(),
{
    if ds.len() == 0 {
        Seq::empty()
    } else {
        index_decls(ds.drop_last(), base).push(
            index_decl(ds.last(), base + decls_literals(ds.drop_last()).len()),
        )
    }
}

/// The texts of the declarations in a list.
pub open spec fn decl_views<S: View>(v: Seq<Decl<S>>) -> Seq<DeclModel<S::V>> {
    v.map_values(|d: Decl<S>| d@)
}

/// A copy of a list of strings.
fn copy_texts(v: &Vec<String>) -> (r: Vec<String>)
    ensures
        texts(r@) == texts(v@),
{
    let mut r: Vec<String> = Vec::new();
    let mut i: usize = 0;
    while i < v.len()
        invariant
            i <= v.len(),
            texts(r@) == texts(v@.take(i as int)),
        decreases v.len() - i,
    {
        let ghost prev = r@;
        r.push(v[i].clone());
        proof {
            assert(texts(r@) =~= texts(prev).push(v@[i as int]@));
            assert(v@.take(i + 1) =~= v@.take(i as int).push(v@[i as int]));
            assert(texts(v@.take(i + 1)) =~= texts(v@.take(i as int)).push(v@[i as int]@));
        }
        i = i + 1;
    }
    proof {
        assert(v@.take(v.len() as int) =~= v@);
    }
    r
}

/// Moves the string literals of `expr` into `strings`, from left to right, and
/// returns the table with the expression that refers to them by index: each index
/// lies between the old and the new length of the table, and names its literal.
pub fn collect_strings_expr(strings: Vec<String>, expr: &Expr<String>) -> (r: (Vec<String>, Expr<usize>))
    ensures
        texts(r.0@) == texts(strings@) + expr_literals(expr@),
        r.1@ == index_literals(expr@, strings.len() as nat),
        indices_within(r.1@, strings.len() as int, r.0.len() as int),
        resolve_literals(r.1@, texts(r.0@)) == expr@,
    decreases expr,
{
    let ghost t0 = texts(strings@);
    let r = match expr {
        Expr::Binop(op, lhs, rhs) => {
            let ghost base = strings.len();
            let ghost t0 = texts(strings@);
            let (strings, l) = collect_strings_expr(strings, lhs);
            proof {
                assert(texts(strings@).len() == strings@.len());
                assert(t0.len() == base);
            }
            let (strings, r) = collect_strings_expr(strings, rhs);
            proof {
                assert(t0 + expr_literals((**lhs)@) + expr_literals((**rhs)@) =~= t0 + expr_literals(expr@));
            }
            (strings, Expr::Binop(*op, Box::new(l), Box::new(r)))
        },
        Expr::Identifier(value) => {
            proof {
                assert(texts(strings@) + expr_literals(expr@) =~= texts(strings@));
            }
            (strings, Expr::Identifier(value.clone()))
        },
        Expr::Integer(value) => {
            proof {
                assert(texts(strings@) + expr_literals(expr@) =~= texts(strings@));
            }
            (strings, Expr::Integer(*value))
        },
        Expr::String(value) => {
            let ghost prev = strings@;
            let mut strings = strings;
            strings.push(value.clone());
            let index = strings.len() - 1;
            proof {
                assert(texts(strings@) =~= texts(prev) + expr_literals(expr@));
            }
            (strings, Expr::String(index))
        },
    };
    proof {
        assert(texts(r.0@).len() == r.0@.len());
        assert(t0.len() == strings@.len());
        law_collect_strings_expr_round_trip(t0, expr@);
    }
    r
}

/// Moves the string literals of a declaration into `strings`.
pub fn collect_strings_decl(strings: Vec<String>, decl: &Decl<String>) -> (r: (Vec<String>, Decl<usize>))
    ensures
        texts(r.0@) == texts(strings@) + decl_literals(decl@),
        r.1@ == index_decl(decl@, strings.len() as nat),
{
    match decl {
        Decl::Bind(symbol, args, expr) => {
            let (strings, expr) = collect_strings_expr(strings, expr);
            (strings, Decl::Bind(symbol.clone(), copy_texts(args), expr))
        },
    }
}

/// Moves the string literals of all declarations, in order, into `strings`; each
/// literal is replaced by its index in the returned table.
pub fn collect_strings(strings: Vec<String>, decls: &[Decl<String>]) -> (r: (Vec<String>, Vec<Decl<usize>>))
    ensures
        texts(r.0@) == texts(strings@) + decls_literals(decl_views(decls@)),
        decl_views(r.1@) == index_decls(decl_views(decls@), strings.len() as nat),
{
    let ghost t0 = texts(strings@);
    let ghost base = strings.len() as nat;
    let mut strings = strings;
    let mut out: Vec<Decl<usize>> = Vec::new();
    let mut i: usize = 0;
    while i < decls.len()
        invariant
            i <= decls.len(),
            texts(strings@) == t0 + decls_literals(decl_views(decls@.take(i as int))),
            decl_views(out@) == index_decls(decl_views(decls@.take(i as int)), base),
            t0.len() == base,
        decreases decls.len() - i,
    {
        proof {
            assert(decl_views(decls@.take(i + 1)) =~= decl_views(decls@.take(i as int)).push(decls@[i as int]@));
            assert(decl_views(decls@.take(i + 1)).drop_last() =~= decl_views(decls@.take(i as int)));
            assert(texts(strings@).len() == strings@.len());
        }
        let (s2, d) = collect_strings_decl(strings, &decls[i]);
        strings = s2;
        let ghost prev = out@;
        let ghost dv = d@;
        out.push(d);
        proof {
            assert(decl_views(out@) =~= decl_views(prev).push(dv));
        }
        i = i + 1;
    }
    proof {
        assert(decls@.take(decls.len() as int) =~= decls@);
    }
    (strings, out)
}

/// The expression with each string index replaced by the entry of `table` it names.
pub open spec fn resolve_literals(e: ExprModel<usize>, table: Seq<Seq<char>>) -> ExprModel<Seq<char>>
    decreases e,
{
    match e {
        ExprModel::Binop(op, l, r) => ExprModel::Binop(
            op,
            Box::new(resolve_literals(*l, table)),
            Box::new(resolve_literals(*r, table)),
        ),
        ExprModel::Identifier(n) => ExprModel::Identifier(n),
        ExprModel::Integer(v) => ExprModel::Integer(v),
        ExprModel::String(i) => ExprModel::String(table[i as int]),
    }
}

/// The declarations with each string index replaced by the entry of `table` it names.
pub open spec fn resolve_decls(ds: Seq<DeclModel<usize>>, table: Seq<Seq<char>>) -> Seq<DeclModel<Seq<char>>> {
    ds.map_values(
        |d: DeclModel<usize>|
            match d {
                DeclModel::Bind(name, args, body) => DeclModel::Bind(name, args, resolve_literals(body, table)),
            },
    )
}

proof fn lemma_expr_round_trip(e: ExprModel<Seq<char>>, table: Seq<Seq<char>>, base: int)
    requires
        0 <= base,
        base + expr_literals(e).len() <= usize::MAX,
        base + expr_literals(e).len() <= table.len(),
        table.subrange(base, base + expr_literals(e).len()) == expr_literals(e),
    ensures
        resolve_literals(index_literals(e, base as nat), table) == e,
    decreases e,
{
    match e {
        ExprModel::Binop(op, l, r) => {
            let ll = expr_literals(*l);
            let rl = expr_literals(*r);
            assert(table.subrange(base, base + ll.len()) =~= ll) by {
                assert(table.subrange(base, base + ll.len()) =~= table.subrange(
                    base,
                    base + expr_literals(e).len(),
                ).subrange(0, ll.len() as int));
            }
            assert(table.subrange(base + ll.len(), base + ll.len() + rl.len()) =~= rl) by {
                assert(table.subrange(base + ll.len(), base + ll.len() + rl.len()) =~= table.subrange(
                    base,
                    base + expr_literals(e).len(),
                ).subrange(ll.len() as int, (ll.len() + rl.len()) as int));
            }
            lemma_expr_round_trip(*l, table, base);
            lemma_expr_round_trip(*r, table, base + ll.len());
        },
        ExprModel::String(v) => {
            assert(table.subrange(base, base + 1)[0] == table[base]);
        },
        _ => {},
    }
}

proof fn lemma_decls_round_trip(ds: Seq<DeclModel<Seq<char>>>, table: Seq<Seq<char>>, base: int)
    requires
        0 <= base,
        base + decls_literals(ds).len() <= usize::MAX,
        base + decls_literals(ds).len() <= table.len(),
        table.subrange(base, base + decls_literals(ds).len()) == decls_literals(ds),
    ensures
        resolve_decls(index_decls(ds, base as nat), table) == ds,
    decreases ds.len(),
{
    if ds.len() > 0 {
        let pre = ds.drop_last();
        let pl = decls_literals(pre);
        let dl = decl_literals(ds.last());
        assert(table.subrange(base, base + pl.len()) =~= pl) by {
            assert(table.subrange(base, base + pl.len()) =~= table.subrange(
                base as int,
                base + decls_literals(ds).len(),
            ).subrange(0, pl.len() as int));
        }
        assert(table.subrange(base + pl.len(), base + pl.len() + dl.len()) =~= dl) by {
            assert(table.subrange(base + pl.len(), base + pl.len() + dl.len()) =~= table.subrange(
                base as int,
                base + decls_literals(ds).len(),
            ).subrange(pl.len() as int, (pl.len() + dl.len()) as int));
        }
        lemma_decls_round_trip(pre, table, base);
        match ds.last() {
            DeclModel::Bind(name, args, body) => {
                lemma_expr_round_trip(body, table, base + pl.len());
            },
        }
        assert(resolve_decls(index_decls(ds, base as nat), table) =~= resolve_decls(index_decls(pre, base as nat), table).push(ds.last()));
        assert(pre.push(ds.last()) =~= ds);
    } else {
        assert(resolve_decls(index_decls(ds, base as nat), table) =~= ds);
    }
}

/// Collecting string literals loses nothing: looking each index up in the table
/// that collection returns gives back the declarations it was given.
pub proof fn law_collect_strings_round_trip(table: Seq<Seq<char>>, ds: Seq<DeclModel<Seq<char>>>)
    requires
        table.len() + decls_literals(ds).len() <= usize::MAX,
    ensures
        resolve_decls(index_decls(ds, table.len()), table + decls_literals(ds)) == ds,
{
    let full = table + decls_literals(ds);
    assert(full.subrange(table.len() as int, (table.len() + decls_literals(ds).len()) as int) =~= decls_literals(ds));
    lemma_decls_round_trip(ds, full, table.len() as int);
}


/// Whether every string index of `e` lies in `[lo, hi)`.
pub open spec fn indices_within(e: ExprModel<usize>, lo: int, hi: int) -> bool
    decreases e,
{
    match e {
        ExprModel::Binop(_, l, r) => indices_within(*l, lo, hi) && indices_within(*r, lo, hi),
        ExprModel::String(i) => lo <= i < hi,
        _ => true,
    }
}

proof fn lemma_indices_within_widen(e: ExprModel<usize>, lo: int, hi: int, lo2: int, hi2: int)
    requires
        indices_within(e, lo, hi),
        lo2 <= lo,
        hi <= hi2,
    ensures
        indices_within(e, lo2, hi2),
    decreases e,
{
    match e {
        ExprModel::Binop(_, l, r) => {
            lemma_indices_within_widen(*l, lo, hi, lo2, hi2);
            lemma_indices_within_widen(*r, lo, hi, lo2, hi2);
        },
        _ => {},
    }
}

proof fn lemma_index_literals_within(e: ExprModel<Seq<char>>, base: nat)
    requires
        base + expr_literals(e).len() <= usize::MAX,
    ensures
        indices_within(index_literals(e, base), base as int, (base + expr_literals(e).len()) as int),
    decreases e,
{
    match e {
        ExprModel::Binop(op, l, r) => {
            let ll = expr_literals(*l).len();
            let n = expr_literals(e).len();
            lemma_index_literals_within(*l, base);
            lemma_index_literals_within(*r, base + ll);
            lemma_indices_within_widen(index_literals(*l, base), base as int, (base + ll) as int, base as int, (base + n) as int);
            lemma_indices_within_widen(index_literals(*r, base + ll), (base + ll) as int, (base + n) as int, base as int, (base + n) as int);
        },
        _ => {},
    }
}

/// Collecting the string literals of one expression loses nothing: every index in
/// the result lies between the old and the new length of the table, and looking
/// each one up in the new table gives back the expression.
pub proof fn law_collect_strings_expr_round_trip(table: Seq<Seq<char>>, e: ExprModel<Seq<char>>)
    requires
        table.len() + expr_literals(e).len() <= usize::MAX,
    ensures
        indices_within(index_literals(e, table.len()), table.len() as int, (table.len() + expr_literals(e).len()) as int),
        resolve_literals(index_literals(e, table.len()), table + expr_literals(e)) == e,
{
    let full = table + expr_literals(e);
    assert(full.subrange(table.len() as int, (table.len() + expr_literals(e).len()) as int) =~= expr_literals(e));
    lemma_expr_round_trip(e, full, table.len() as int);
    lemma_index_literals_within(e, table.len());
}

/// Collection splits over concatenated declaration lists: collecting from `a + b`
/// gives what collecting from `a`, then from `b` with the table that results, gives;
/// collecting from no declarations gives back the table and no declarations.
pub proof fn law_collect_strings_concat(table: Seq<Seq<char>>, a: Seq<DeclModel<Seq<char>>>, b: Seq<DeclModel<Seq<char>>>)
    ensures
        table + decls_literals(a + b) == (table + decls_literals(a)) + decls_literals(b),
        index_decls(a + b, table.len()) == index_decls(a, table.len()) + index_decls(
            b,
            (table + decls_literals(a)).len(),
        ),
        table + decls_literals(Seq::empty()) == table,
        index_decls(Seq::empty(), table.len()) == Seq::<DeclModel<usize>>::empty(),
    decreases b.len(),
{
    assert(table + decls_literals(Seq::empty()) =~= table);
    if b.len() == 0 {
        assert(a + b =~= a);
        assert(index_decls(a, table.len()) + index_decls(b, (table + decls_literals(a)).len()) =~= index_decls(a, table.len()));
        assert((table + decls_literals(a)) + decls_literals(b) =~= table + decls_literals(a));
    } else {
        let bf = b.drop_last();
        law_collect_strings_concat(table, a, bf);
        assert((a + b).drop_last() =~= a + bf);
        assert((a + b).last() == b.last());
        assert(decls_literals(a + b) =~= decls_literals(a) + decls_literals(b)) by {
            assert(table + decls_literals(a + bf) =~= (table + decls_literals(a)) + decls_literals(bf));
            assert(decls_literals(a + bf) =~= decls_literals(a) + decls_literals(bf)) by {
                assert((table + decls_literals(a + bf)).subrange(table.len() as int, (table + decls_literals(a + bf)).len() as int)
                    =~= decls_literals(a + bf));
                assert(((table + decls_literals(a)) + decls_literals(bf)).subrange(
                    table.len() as int,
                    ((table + decls_literals(a)) + decls_literals(bf)).len() as int,
                ) =~= decls_literals(a) + decls_literals(bf));
            }
        }
        assert(index_decls(a + b, table.len()) =~= index_decls(a, table.len()) + index_decls(b, (table + decls_literals(a)).len()));
    }
}

} // verus!
