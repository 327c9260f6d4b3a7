use vstd::prelude::*;

use crate::lowerer::regs_needed;
use crate::semantics::ident_free;
use crate::text::{chars_of, decimal_nat, law_decimal_nat_is_numeral, push_chars};
use crate::types::ast::texts;
use crate::types::{Binop, Decl, DeclModel, Expr, ExprModel};

verus! {

/// What the standard library's `char::is_alphanumeric` answers for `c`
/// (a Unicode property: alphabetic or numeric).
pub uninterp spec fn char_is_alphanumeric(c: char) -> bool;

/// Whether `c` is an ASCII letter or digit.
pub open spec fn ascii_alphanumeric(c: char) -> bool {
    ('0' <= c && c <= '9') || ('a' <= c && c <= 'z') || ('A' <= c && c <= 'Z')
}

/// Whether `c` is a letter or a number: for an ASCII character, an ASCII letter or
/// digit; beyond ASCII, the Unicode property named by `char_is_alphanumeric`.
pub open spec fn alphanumeric(c: char) -> bool {
    if c <= '\u{7f}' {
        ascii_alphanumeric(c)
    } else {
        char_is_alphanumeric(c)
    }
}

/// `char::is_alphanumeric`.
/// Trusted: the result is the Unicode property named by `char_is_alphanumeric`, a
/// function of the character alone; on an ASCII character it is true exactly for
/// the letters and digits (the Alphabetic and numeric characters of ASCII, as the
/// documentation's `is_alphabetic` and `is_numeric` describe them). Nothing more is
/// stated of characters beyond ASCII.
#[verifier::external_body]
fn is_alphanumeric(c: char) -> (r: bool)
    ensures
        r == char_is_alphanumeric(c),
        c <= '\u{7f}' ==> r == ascii_alphanumeric(c),
{
    c.is_alphanumeric()
}

/// The classes of characters that the scanner skips over.
#[derive(Clone, Copy, PartialEq, Eq, Structural)]
pub enum CharClass {
    /// Space and tab.
    Space,
    /// Space, tab, carriage return and line feed.
    Multispace,
    /// The ASCII decimal digits.
    Digit,
    /// Letters and numbers (Unicode), as `alphanumeric` describes them.
    Alphanumeric,
    /// Every character but the double quote.
    NotQuote,
}

/// Whether `c` belongs to the class `k`.
pub open spec fn in_class(k: CharClass, c: char) -> bool {
    match k {
        CharClass::Space => c == ' ' || c == '\t',
        CharClass::Multispace => c == ' ' || c == '\t' || c == '\r' || c == '\n',
        CharClass::Digit => '0' <= c && c <= '9',
        CharClass::Alphanumeric => alphanumeric(c),
        CharClass::NotQuote => c != '"',
    }
}

fn exec_in_class(k: CharClass, c: char) -> (r: bool)
    ensures
        r == in_class(k, c),
{
    match k {
        CharClass::Space => c == ' ' || c == '\t',
        CharClass::Multispace => c == ' ' || c == '\t' || c == '\r' || c == '\n',
        CharClass::Digit => '0' <= c && c <= '9',
        CharClass::Alphanumeric => is_alphanumeric(c),
        CharClass::NotQuote => c != '"',
    }
}

/// The end of the longest run of characters of class `k` that starts at `p`.
pub open spec fn skip_class(s: Seq<char>, p: int, k: CharClass) -> int
    decreases s.len() - p,
{
    if p < 0 || p >= s.len() || !in_class(k, s[p]) {
        p
    } else {
        skip_class(s, p + 1, k)
    }
}

/// The run skipped from `p` stays within the text, holds only characters of the
/// class, and ends at the text's end or at a character outside the class.
pub proof fn lemma_skip_class(s: Seq<char>, p: int, k: CharClass)
    requires
        0 <= p <= s.len(),
    ensures
        p <= skip_class(s, p, k) <= s.len(),
        forall|i: int| p <= i < skip_class(s, p, k) ==> in_class(k, #[trigger] s[i]),
        skip_class(s, p, k) < s.len() ==> !in_class(k, s[skip_class(s, p, k)]),
    decreases s.len() - p,
{
    if p < s.len() && in_class(k, s[p]) {
        lemma_skip_class(s, p + 1, k);
    }
}

/// The end of the run of characters of class `k` that starts at `p`.
fn skip(s: &Vec<char>, p: usize, k: CharClass) -> (q: usize)
    requires
        p <= s.len(),
    ensures
        q == skip_class(s@, p as int, k),
        p <= q <= s.len(),
{
    let mut q = p;
    while q < s.len() && exec_in_class(k, s[q])
        invariant
            p <= q <= s.len(),
            skip_class(s@, p as int, k) == skip_class(s@, q as int, k),
        decreases s.len() - q,
    {
        q = q + 1;
    }
    q
}

/// The value of the decimal digits `s[p..q]`.
pub open spec fn digits_value(s: Seq<char>, p: int, q: int) -> nat
    decreases q - p,
{
    if q <= p {
        0
    } else {
        digits_value(s, p, q - 1) * 10 + ((s[q - 1] as int - 48) as nat)
    }
}

/// A longer run of digits has at least the value of its prefix.
pub proof fn lemma_digits_value_grows(s: Seq<char>, p: int, i: int, j: int)
    requires
        p <= i <= j,
        forall|k: int| p <= k < j ==> '0' <= #[trigger] s[k] && s[k] <= '9',
    ensures
        digits_value(s, p, i) <= digits_value(s, p, j),
    decreases j - i,
{
    if i < j {
        lemma_digits_value_grows(s, p, i, j - 1);
    }
}

/// Why a text could not be parsed: the cases in which parsing cannot go on. They
/// are the only inputs on which reading has no answer (a literal that has no value,
/// or no end); everywhere else the parser answers, if only with no declaration.
#[derive(Clone, Copy, Debug, PartialEq, Eq, Structural)]
pub enum ParseFault {
    /// An integer literal above `i64::MAX`.
    IntegerTooLarge,
    /// A string literal with no closing double quote.
    UnterminatedString,
}

/// The outcome of scanning a construct at a position: what was read and where it
/// ends, no match (nothing is consumed), or a fault that stops parsing.
pub enum Scan<T> {
    Done(T, int),
    NoMatch,
    Fault(ParseFault),
}

/// Whether an executable scan result agrees with the outcome `m`.
pub open spec fn agrees<X: View>(r: Result<Option<(X, usize)>, ParseFault>, m: Scan<X::V>) -> bool {
    match m {
        Scan::Done(v, q) => r matches Ok(Some((x, e))) && x@ == v && e == q,
        Scan::NoMatch => r matches Ok(None),
        Scan::Fault(f) => r == Err::<Option<(X, usize)>, ParseFault>(f),
    }
}

/// An integer literal at `p`: a run of decimal digits whose value is at most
/// `i64::MAX` (a larger one is a fault).
pub open spec fn scan_integer(s: Seq<char>, p: int) -> Scan<ExprModel<Seq<char>>> {
    let q = skip_class(s, p, CharClass::Digit);
    if q > p {
        let v = digits_value(s, p, q);
        if v <= i64::MAX {
            Scan::Done(ExprModel::Integer(v as i64), q)
        } else {
            Scan::Fault(ParseFault::IntegerTooLarge)
        }
    } else {
        Scan::NoMatch
    }
}

/// A string literal at `p`: a double quote, the characters up to the next double
/// quote (with no escapes), and that quote (a missing one is a fault).
pub open spec fn scan_string(s: Seq<char>, p: int) -> Scan<ExprModel<Seq<char>>> {
    if 0 <= p < s.len() && s[p] == '"' {
        let e = skip_class(s, p + 1, CharClass::NotQuote);
        if e < s.len() {
            Scan::Done(ExprModel::String(s.subrange(p + 1, e)), e + 1)
        } else {
            Scan::Fault(ParseFault::UnterminatedString)
        }
    } else {
        Scan::NoMatch
    }
}

/// A literal at `p`: an integer literal, or else a string literal.
pub open spec fn scan_literal(s: Seq<char>, p: int) -> Scan<ExprModel<Seq<char>>> {
    match scan_integer(s, p) {
        Scan::NoMatch => scan_string(s, p),
        r => r,
    }
}

/// A literal that is read ends after the position where it starts.
pub proof fn lemma_literal_advances(s: Seq<char>, p: int)
    requires
        0 <= p <= s.len(),
    ensures
        scan_literal(s, p) matches Scan::Done(_, q) ==> p < q <= s.len(),
        scan_literal(s, p) matches Scan::Done(e, _) ==> ident_free(e) && regs_needed(e) == 1,
{
    lemma_skip_class(s, p, CharClass::Digit);
    if p < s.len() {
        lemma_skip_class(s, p + 1, CharClass::NotQuote);
    }
}

/// An additive operator at `p`, after spaces and tabs, and the position after it.
pub open spec fn scan_operator(s: Seq<char>, p: int) -> Option<(Binop, int)> {
    let q = skip_class(s, p, CharClass::Space);
    if 0 <= q < s.len() && s[q] == '+' {
        Some((Binop::Add, q + 1))
    } else if 0 <= q < s.len() && s[q] == '-' {
        Some((Binop::Sub, q + 1))
    } else {
        None
    }
}

/// The operator-literal pairs that follow `acc` from `p` on, folded to the left.
/// A pair that does not scan ends the chain before its leading spaces.
pub open spec fn scan_chain(s: Seq<char>, p: int, acc: ExprModel<Seq<char>>) -> Scan<
    ExprModel<Seq<char>>,
>
    decreases s.len() - p,
{
    if p < 0 || p > s.len() {
        Scan::Done(acc, p)
    } else {
        match scan_operator(s, p) {
            None => Scan::Done(acc, p),
            Some((op, q1)) => {
                let q2 = skip_class(s, q1, CharClass::Space);
                match scan_literal(s, q2) {
                    Scan::Done(e, q3) => {
                        proof {
                            lemma_skip_class(s, p, CharClass::Space);
                            lemma_skip_class(s, q1, CharClass::Space);
                            lemma_literal_advances(s, q2);
                        }
                        scan_chain(s, q3, ExprModel::Binop(op, Box::new(acc), Box::new(e)))
                    },
                    Scan::NoMatch => Scan::Done(acc, p),
                    Scan::Fault(f) => Scan::Fault(f),
                }
            },
        }
    }
}

/// An expression at `p`: a literal followed by additive operators and literals,
/// grouped to the left.
pub open spec fn scan_expr(s: Seq<char>, p: int) -> Scan<ExprModel<Seq<char>>> {
    match scan_literal(s, p) {
        Scan::Done(e, q) => scan_chain(s, q, e),
        Scan::NoMatch => Scan::NoMatch,
        Scan::Fault(f) => Scan::Fault(f),
    }
}

/// A declaration at `p`: an alphanumeric name, `=` between optional spaces and tabs,
/// and an expression. The declaration has no parameters.
pub open spec fn scan_decl(s: Seq<char>, p: int) -> Scan<DeclModel<Seq<char>>> {
    let q = skip_class(s, p, CharClass::Alphanumeric);
    let q1 = skip_class(s, q, CharClass::Space);
    if q <= p {
        Scan::NoMatch
    } else if 0 <= q1 < s.len() && s[q1] == '=' {
        let q2 = skip_class(s, q1 + 1, CharClass::Space);
        match scan_expr(s, q2) {
            Scan::Done(e, q3) => Scan::Done(DeclModel::Bind(s.subrange(p, q), Seq::empty(), e), q3),
            Scan::NoMatch => Scan::NoMatch,
            Scan::Fault(f) => Scan::Fault(f),
        }
    } else {
        Scan::NoMatch
    }
}

/// An operator chain that is read ends within the text, not before it starts.
pub proof fn lemma_chain_bounds(s: Seq<char>, p: int, acc: ExprModel<Seq<char>>)
    requires
        0 <= p <= s.len(),
    ensures
        scan_chain(s, p, acc) matches Scan::Done(_, q) ==> p <= q <= s.len(),
    decreases s.len() - p,
{
    match scan_operator(s, p) {
        None => {},
        Some((op, q1)) => {
            lemma_skip_class(s, p, CharClass::Space);
            let q2 = skip_class(s, q1, CharClass::Space);
            lemma_skip_class(s, q1, CharClass::Space);
            lemma_literal_advances(s, q2);
            match scan_literal(s, q2) {
                Scan::Done(e, q3) => {
                    lemma_chain_bounds(s, q3, ExprModel::Binop(op, Box::new(acc), Box::new(e)));
                },
                _ => {},
            }
        },
    }
}

/// An expression that is read ends after the position where it starts.
pub proof fn lemma_expr_advances(s: Seq<char>, p: int)
    requires
        0 <= p <= s.len(),
    ensures
        scan_expr(s, p) matches Scan::Done(_, q) ==> p < q <= s.len(),
{
    lemma_literal_advances(s, p);
    match scan_literal(s, p) {
        Scan::Done(e, q) => lemma_chain_bounds(s, q, e),
        _ => {},
    }
}

/// A declaration that is read ends after the position where it starts.
pub proof fn lemma_decl_advances(s: Seq<char>, p: int)
    requires
        0 <= p <= s.len(),
    ensures
        scan_decl(s, p) matches Scan::Done(_, q) ==> p < q <= s.len(),
{
    lemma_skip_class(s, p, CharClass::Alphanumeric);
    let q = skip_class(s, p, CharClass::Alphanumeric);
    lemma_skip_class(s, q, CharClass::Space);
    let q1 = skip_class(s, q, CharClass::Space);
    if q > p && 0 <= q1 < s.len() && s[q1] == '=' {
        lemma_skip_class(s, q1 + 1, CharClass::Space);
        lemma_expr_advances(s, skip_class(s, q1 + 1, CharClass::Space));
    }
}

/// The declarations from `p` on, each between optional whitespace. The first one
/// that does not scan ends the list before its leading whitespace.
pub open spec fn scan_decls(s: Seq<char>, p: int) -> Scan<Seq<DeclModel<Seq<char>>>>
    decreases s.len() - p,
{
    if p < 0 || p > s.len() {
        Scan::Done(Seq::empty(), p)
    } else {
        let q = skip_class(s, p, CharClass::Multispace);
        match scan_decl(s, q) {
            Scan::Done(d, q2) => {
                let q3 = skip_class(s, q2, CharClass::Multispace);
                proof {
                    lemma_skip_class(s, p, CharClass::Multispace);
                    lemma_decl_advances(s, q);
                    lemma_skip_class(s, q2, CharClass::Multispace);
                }
                match scan_decls(s, q3) {
                    Scan::Done(ds, r) => Scan::Done(seq![d] + ds, r),
                    Scan::NoMatch => Scan::NoMatch,
                    Scan::Fault(f) => Scan::Fault(f),
                }
            },
            Scan::NoMatch => Scan::Done(Seq::empty(), p),
            Scan::Fault(f) => Scan::Fault(f),
        }
    }
}

/// A whole program: the declarations, then trailing whitespace. `Done` holds the
/// declarations and the position where the unparsed rest of the text begins.
pub open spec fn parse_program(s: Seq<char>) -> Scan<Seq<DeclModel<Seq<char>>>> {
    match scan_decls(s, 0) {
        Scan::Done(ds, p) => Scan::Done(ds, skip_class(s, p, CharClass::Multispace)),
        Scan::NoMatch => Scan::NoMatch,
        Scan::Fault(f) => Scan::Fault(f),
    }
}

/// The texts of a list of parsed declarations.
pub open spec fn decls_view(v: Seq<Decl<String>>) -> Seq<DeclModel<Seq<char>>> {
    v.map_values(|d: Decl<String>| d@)
}

/// The characters `s[p..q]` as a string.
fn text_between(s: &Vec<char>, p: usize, q: usize) -> (t: String)
    requires
        p <= q <= s.len(),
    ensures
        t@ == s@.subrange(p as int, q as int),
{
    let mut t = String::new();
    push_chars(&mut t, s, p, q);
    proof {
        assert(t@ =~= s@.subrange(p as int, q as int));
    }
    t
}

/// The integer literal at `p`.
fn parse_integer(s: &Vec<char>, p: usize) -> (r: Result<Option<(Expr<String>, usize)>, ParseFault>)
    requires
        p <= s.len(),
    ensures
        agrees(r, scan_integer(s@, p as int)),
{
    let q = skip(s, p, CharClass::Digit);
    if q <= p {
        return Ok(None);
    }
    proof {
        lemma_skip_class(s@, p as int, CharClass::Digit);
    }
    let mut v: u64 = 0;
    let mut i = p;
    while i < q
        invariant
            p <= i <= q <= s.len(),
            q == skip_class(s@, p as int, CharClass::Digit),
            forall|k: int| p <= k < q ==> '0' <= #[trigger] s@[k] && s@[k] <= '9',
            v == digits_value(s@, p as int, i as int),
            v <= i64::MAX,
        decreases q - i,
    {
        let d: u64 = ((s[i] as u32) - 48) as u64;
        assert('0' <= s@[i as int] && s@[i as int] <= '9');
        if v > (9223372036854775807u64 - d) / 10 {
            proof {
                assert(digits_value(s@, p as int, i + 1) == v * 10 + d);
                assert(v * 10 + d > i64::MAX) by (nonlinear_arith)
                    requires
                        v > (9223372036854775807u64 - d) / 10,
                        d <= 9,
                ;
                lemma_digits_value_grows(s@, p as int, i + 1, q as int);
            }
            return Err(ParseFault::IntegerTooLarge);
        }
        proof {
            assert(v * 10 + d <= i64::MAX) by (nonlinear_arith)
                requires
                    v <= (9223372036854775807u64 - d) / 10,
                    d <= 9,
            ;
        }
        v = v * 10 + d;
        i = i + 1;
    }
    Ok(Some((Expr::Integer(v as i64), q)))
}

/// The string literal at `p`. A literal with no closing quote is a fault: the
/// literal has no end, and no declaration can follow it.
fn parse_string(s: &Vec<char>, p: usize) -> (r: Result<Option<(Expr<String>, usize)>, ParseFault>)
    requires
        p <= s.len(),
    ensures
        agrees(r, scan_string(s@, p as int)),
{
    if p < s.len() && s[p] == '"' {
        let e = skip(s, p + 1, CharClass::NotQuote);
        if e < s.len() {
            let t = text_between(s, p + 1, e);
            Ok(Some((Expr::String(t), e + 1)))
        } else {
            Err(ParseFault::UnterminatedString)
        }
    } else {
        Ok(None)
    }
}

/// The literal at `p`: an integer, or else a string.
fn parse_literal(s: &Vec<char>, p: usize) -> (r: Result<Option<(Expr<String>, usize)>, ParseFault>)
    requires
        p <= s.len(),
    ensures
        agrees(r, scan_literal(s@, p as int)),
{
    match parse_integer(s, p) {
        Ok(None) => parse_string(s, p),
        other => other,
    }
}

/// The additive operator at `q`, if there is one.
fn lex_addsubop(s: &Vec<char>, q: usize) -> (r: Option<Binop>)
    requires
        q <= s.len(),
    ensures
        r == (if q < s.len() && s@[q as int] == '+' {
            Some(Binop::Add)
        } else if q < s.len() && s@[q as int] == '-' {
            Some(Binop::Sub)
        } else {
            None::<Binop>
        }),
{
    if q < s.len() && s[q] == '+' {
        Some(Binop::Add)
    } else if q < s.len() && s[q] == '-' {
        Some(Binop::Sub)
    } else {
        None
    }
}

/// A literal followed by operators and literals, grouped to the left.
fn parse_add(s: &Vec<char>, start: usize) -> (r: Result<Option<(Expr<String>, usize)>, ParseFault>)
    requires
        start <= s.len(),
    ensures
        agrees(r, scan_expr(s@, start as int)),
{
    let (first, q0) = match parse_literal(s, start) {
        Ok(Some(x)) => x,
        Ok(None) => return Ok(None),
        Err(f) => return Err(f),
    };
    proof {
        lemma_literal_advances(s@, start as int);
    }
    let mut p = q0;
    let mut acc = first;
    loop
        invariant
            p <= s.len(),
            scan_expr(s@, start as int) == scan_chain(s@, p as int, acc@),
        decreases s.len() - p,
    {
        let q = skip(s, p, CharClass::Space);
        let op = match lex_addsubop(s, q) {
            Some(op) => op,
            None => {
                proof {
                    assert(scan_operator(s@, p as int) is None);
                }
                return Ok(Some((acc, p)));
            },
        };
        proof {
            assert(scan_operator(s@, p as int) == Some((op, q + 1)));
        }
        let q2 = skip(s, q + 1, CharClass::Space);
        match parse_literal(s, q2) {
            Ok(Some((e, q3))) => {
                proof {
                    lemma_literal_advances(s@, q2 as int);
                }
                acc = Expr::Binop(op, Box::new(acc), Box::new(e));
                p = q3;
            },
            Ok(None) => {
                return Ok(Some((acc, p)));
            },
            Err(f) => {
                return Err(f);
            },
        }
    }
}

/// An expression at `p`.
fn parse_expr(s: &Vec<char>, p: usize) -> (r: Result<Option<(Expr<String>, usize)>, ParseFault>)
    requires
        p <= s.len(),
    ensures
        agrees(r, scan_expr(s@, p as int)),
{
    parse_add(s, p)
}

/// The end of the name that starts at `p`.
fn lex_symbol(s: &Vec<char>, p: usize) -> (q: usize)
    requires
        p <= s.len(),
    ensures
        q == skip_class(s@, p as int, CharClass::Alphanumeric),
        p <= q <= s.len(),
{
    skip(s, p, CharClass::Alphanumeric)
}

/// A declaration `name = expression` at `p`.
fn parse_decl(s: &Vec<char>, p: usize) -> (r: Result<Option<(Decl<String>, usize)>, ParseFault>)
    requires
        p <= s.len(),
    ensures
        agrees(r, scan_decl(s@, p as int)),
{
    let q = lex_symbol(s, p);
    let q1 = skip(s, q, CharClass::Space);
    if q <= p {
        return Ok(None);
    }
    if q1 < s.len() && s[q1] == '=' {
        let q2 = skip(s, q1 + 1, CharClass::Space);
        match parse_expr(s, q2) {
            Ok(Some((e, q3))) => {
                let name = text_between(s, p, q);
                let args: Vec<String> = Vec::new();
                proof {
                    assert(texts(args@) =~= Seq::<Seq<char>>::empty());
                }
                Ok(Some((Decl::Bind(name, args, e), q3)))
            },
            Ok(None) => Ok(None),
            Err(f) => Err(f),
        }
    } else {
        Ok(None)
    }
}

/// The outcome `m` with `ds` put before the declarations it holds.
pub open spec fn prepend(ds: Seq<DeclModel<Seq<char>>>, m: Scan<Seq<DeclModel<Seq<char>>>>) -> Scan<
    Seq<DeclModel<Seq<char>>>,
> {
    match m {
        Scan::Done(x, r) => Scan::Done(ds + x, r),
        Scan::NoMatch => Scan::NoMatch,
        Scan::Fault(f) => Scan::Fault(f),
    }
}

/// A list of declarations that is read ends within the text, not before it starts.
pub proof fn lemma_decls_bounds(s: Seq<char>, p: int)
    requires
        0 <= p <= s.len(),
    ensures
        scan_decls(s, p) matches Scan::Done(_, q) ==> p <= q <= s.len(),
        !(scan_decls(s, p) is NoMatch),
    decreases s.len() - p,
{
    lemma_skip_class(s, p, CharClass::Multispace);
    let q = skip_class(s, p, CharClass::Multispace);
    lemma_decl_advances(s, q);
    match scan_decl(s, q) {
        Scan::Done(d, q2) => {
            lemma_skip_class(s, q2, CharClass::Multispace);
            lemma_decls_bounds(s, skip_class(s, q2, CharClass::Multispace));
        },
        _ => {},
    }
}

fn parse_decls(s: &Vec<char>) -> (r: Result<(Vec<Decl<String>>, usize), ParseFault>)
    ensures
        match scan_decls(s@, 0) {
            Scan::Done(ds, q) => r matches Ok((v, e)) && decls_view(v@) == ds && e == q,
            Scan::NoMatch => false,
            Scan::Fault(f) => r == Err::<(Vec<Decl<String>>, usize), ParseFault>(f),
        },
{
    let mut out: Vec<Decl<String>> = Vec::new();
    let mut p: usize = 0;
    proof {
        lemma_decls_bounds(s@, 0);
        assert(decls_view(out@) =~= Seq::<DeclModel<Seq<char>>>::empty());
        assert(prepend(decls_view(out@), scan_decls(s@, 0)) =~= scan_decls(s@, 0)) by {
            match scan_decls(s@, 0) {
                Scan::Done(x, r) => {
                    assert(Seq::<DeclModel<Seq<char>>>::empty() + x =~= x);
                },
                _ => {},
            }
        }
    }
    loop
        invariant
            p <= s.len(),
            scan_decls(s@, 0) == prepend(decls_view(out@), scan_decls(s@, p as int)),
        decreases s.len() - p,
    {
        let q = skip(s, p, CharClass::Multispace);
        match parse_decl(s, q) {
            Ok(Some((d, q2))) => {
                proof {
                    lemma_decl_advances(s@, q as int);
                }
                let q3 = skip(s, q2, CharClass::Multispace);
                proof {
                    let ghost before = decls_view(out@);
                    match scan_decls(s@, q3 as int) {
                        Scan::Done(x, r) => {
                            assert(before + (seq![d@] + x) =~= before.push(d@) + x);
                        },
                        _ => {},
                    }
                }
                let ghost prev = out@;
                let ghost dv = d@;
                out.push(d);
                proof {
                    assert(decls_view(out@) =~= decls_view(prev).push(dv));
                }
                p = q3;
            },
            Ok(None) => {
                proof {
                    assert(decls_view(out@) + Seq::<DeclModel<Seq<char>>>::empty() =~= decls_view(out@));
                }
                return Ok((out, p));
            },
            Err(f) => {
                return Err(f);
            },
        }
    }
}

/// Parses a program, stopping with a fault where parsing cannot go on.
///
/// A fault comes exactly where a literal has no answer: an integer literal above
/// `i64::MAX`, or a string literal with no closing quote, met where the grammar
/// reads a literal. These are the inputs that `parse` excludes by its `requires`;
/// a caller that must stop there (the command-line driver does) panics on the
/// fault instead of reading on.
///
/// On success the result holds the text that follows the last declaration and its
/// trailing whitespace, and the declarations read, as `parse_program` describes.
pub fn try_parse(i: &str) -> (r: Result<(String, Vec<Decl<String>>), ParseFault>)
    ensures
        match parse_program(i@) {
            Scan::Done(ds, q) => r matches Ok((rest, v)) && rest@ == i@.skip(q) && decls_view(v@) == ds,
            Scan::NoMatch => false,
            Scan::Fault(f) => r == Err::<(String, Vec<Decl<String>>), ParseFault>(f),
        },
{
    let s = chars_of(i);
    proof {
        lemma_decls_bounds(s@, 0);
    }
    match parse_decls(&s) {
        Ok((v, p)) => {
            let q = skip(&s, p, CharClass::Multispace);
            let rest = text_between(&s, q, s.len());
            proof {
                assert(s@.subrange(q as int, s@.len() as int) =~= i@.skip(q as int));
            }
            Ok((rest, v))
        },
        Err(f) => Err(f),
    }
}

/// Parses a program: declarations `name = literal (+|- literal)*`, each between
/// optional whitespace, until one does not scan; then trailing whitespace.
/// Returns the unparsed rest of the text and the declarations.
pub fn parse(i: &str) -> (r: (String, Vec<Decl<String>>))
    requires
        !(parse_program(i@) is Fault),
    ensures
        parse_program(i@) matches Scan::Done(ds, q) && r.0@ == i@.skip(q) && decls_view(r.1@) == ds,
{
    match try_parse(i) {
        Ok(res) => res,
        Err(_) => {
            proof {
                assert(false);
            }
            (String::new(), Vec::new())
        },
    }
}

/// Whether a declaration has no parameters, its body names no identifier, and its
/// body needs at most two temporaries.
pub open spec fn plain_decl<T>(d: DeclModel<T>) -> bool {
    d matches DeclModel::Bind(_, params, body) && params.len() == 0 && ident_free(body) && regs_needed(body) <= 2
}

proof fn lemma_chain_plain(s: Seq<char>, p: int, acc: ExprModel<Seq<char>>)
    requires
        ident_free(acc),
        regs_needed(acc) <= 2,
    ensures
        scan_chain(s, p, acc) matches Scan::Done(e, _) ==> ident_free(e) && regs_needed(e) <= 2,
    decreases s.len() - p,
{
    if 0 <= p <= s.len() {
        match scan_operator(s, p) {
            None => {},
            Some((op, q1)) => {
                let q2 = skip_class(s, q1, CharClass::Space);
                match scan_literal(s, q2) {
                    Scan::Done(e, q3) => {
                        lemma_skip_class(s, p, CharClass::Space);
                        lemma_skip_class(s, q1, CharClass::Space);
                        lemma_literal_advances(s, q2);
                        lemma_chain_plain(s, q3, ExprModel::Binop(op, Box::new(acc), Box::new(e)));
                    },
                    _ => {},
                }
            },
        }
    }
}

proof fn lemma_decls_plain(s: Seq<char>, p: int)
    requires
        0 <= p <= s.len(),
    ensures
        scan_decls(s, p) matches Scan::Done(ds, _) ==> forall|i: int| 0 <= i < ds.len() ==> plain_decl(#[trigger] ds[i]),
    decreases s.len() - p,
{
    lemma_skip_class(s, p, CharClass::Multispace);
    let q = skip_class(s, p, CharClass::Multispace);
    lemma_decl_advances(s, q);
    match scan_decl(s, q) {
        Scan::Done(d, q2) => {
            let k = skip_class(s, q, CharClass::Alphanumeric);
            let q1 = skip_class(s, k, CharClass::Space);
            let q2e = skip_class(s, q1 + 1, CharClass::Space);
            match scan_literal(s, q2e) {
                Scan::Done(e, q) => lemma_chain_plain(s, q, e),
                _ => {},
            }
            lemma_skip_class(s, q2, CharClass::Multispace);
            let q3 = skip_class(s, q2, CharClass::Multispace);
            lemma_decls_plain(s, q3);
            match scan_decls(s, q3) {
                Scan::Done(ds, r) => {
                    assert forall|i: int| 0 <= i < (seq![d] + ds).len() implies plain_decl(#[trigger] (seq![d] + ds)[i]) by {
                        if i > 0 {
                            assert((seq![d] + ds)[i] == ds[i - 1]);
                        }
                    }
                },
                _ => {},
            }
        },
        _ => {},
    }
}

/// The parser yields plain declarations: none has parameters, no body names an
/// identifier, and no body needs more than two temporaries (the right operand of
/// each operation is a literal).
pub proof fn law_parsed_decls_plain(s: Seq<char>)
    ensures
        parse_program(s) matches Scan::Done(ds, _) ==> forall|i: int| 0 <= i < ds.len() ==> plain_decl(#[trigger] ds[i]),
{
    lemma_decls_plain(s, 0);
}

/// The parser answers every text: with the declarations it read, or with a fault.
pub proof fn law_parse_total(s: Seq<char>)
    ensures
        !(parse_program(s) is NoMatch),
        parse_program(s) matches Scan::Done(_, q) ==> 0 <= q <= s.len(),
{
    lemma_decls_bounds(s, 0);
    match scan_decls(s, 0) {
        Scan::Done(_, p) => lemma_skip_class(s, p, CharClass::Multispace),
        _ => {},
    }
}


/// A scan outcome with its end position moved by `n`.
pub open spec fn shifted<T>(r: Scan<T>, n: int) -> Scan<T> {
    match r {
        Scan::Done(v, q) => Scan::Done(v, q + n),
        Scan::NoMatch => Scan::NoMatch,
        Scan::Fault(f) => Scan::Fault(f),
    }
}

proof fn lemma_skip_shift(pre: Seq<char>, s: Seq<char>, p: int, k: CharClass)
    requires
        0 <= p <= s.len(),
    ensures
        skip_class(pre + s, p + pre.len(), k) == skip_class(s, p, k) + pre.len(),
    decreases s.len() - p,
{
    if p < s.len() {
        assert((pre + s)[p + pre.len()] == s[p]);
        lemma_skip_shift(pre, s, p + 1, k);
    }
}

pub proof fn lemma_digits_shift(pre: Seq<char>, s: Seq<char>, p: int, q: int)
    requires
        0 <= p,
        q <= s.len(),
    ensures
        digits_value(pre + s, p + pre.len(), q + pre.len()) == digits_value(s, p, q),
    decreases q - p,
{
    if q > p {
        assert((pre + s)[q - 1 + pre.len()] == s[q - 1]);
        lemma_digits_shift(pre, s, p, q - 1);
    }
}

proof fn lemma_literal_shift(pre: Seq<char>, s: Seq<char>, p: int)
    requires
        0 <= p <= s.len(),
    ensures
        scan_literal(pre + s, p + pre.len()) == shifted(scan_literal(s, p), pre.len() as int),
{
    let n = pre.len() as int;
    let t = pre + s;
    lemma_skip_shift(pre, s, p, CharClass::Digit);
    lemma_skip_class(s, p, CharClass::Digit);
    lemma_digits_shift(pre, s, p, skip_class(s, p, CharClass::Digit));
    if p < s.len() {
        assert(t[p + n] == s[p]);
        lemma_skip_shift(pre, s, p + 1, CharClass::NotQuote);
        lemma_skip_class(s, p + 1, CharClass::NotQuote);
        let e = skip_class(s, p + 1, CharClass::NotQuote);
        assert(t.subrange(p + n + 1, e + n) =~= s.subrange(p + 1, e));
    }
}

proof fn lemma_operator_shift(pre: Seq<char>, s: Seq<char>, p: int)
    requires
        0 <= p <= s.len(),
    ensures
        scan_operator(pre + s, p + pre.len()) == match scan_operator(s, p) {
            Some((op, q)) => Some((op, q + pre.len())),
            None => None,
        },
{
    lemma_skip_shift(pre, s, p, CharClass::Space);
    lemma_skip_class(s, p, CharClass::Space);
    let q = skip_class(s, p, CharClass::Space);
    if q < s.len() {
        assert((pre + s)[q + pre.len()] == s[q]);
    }
}

proof fn lemma_chain_shift(pre: Seq<char>, s: Seq<char>, p: int, acc: ExprModel<Seq<char>>)
    requires
        0 <= p <= s.len(),
    ensures
        scan_chain(pre + s, p + pre.len(), acc) == shifted(scan_chain(s, p, acc), pre.len() as int),
    decreases s.len() - p,
{
    let n = pre.len() as int;
    lemma_operator_shift(pre, s, p);
    match scan_operator(s, p) {
        None => {},
        Some((op, q1)) => {
            lemma_skip_class(s, p, CharClass::Space);
            lemma_skip_shift(pre, s, q1, CharClass::Space);
            lemma_skip_class(s, q1, CharClass::Space);
            let q2 = skip_class(s, q1, CharClass::Space);
            lemma_literal_shift(pre, s, q2);
            lemma_literal_advances(s, q2);
            match scan_literal(s, q2) {
                Scan::Done(e, q3) => {
                    lemma_chain_shift(pre, s, q3, ExprModel::Binop(op, Box::new(acc), Box::new(e)));
                },
                _ => {},
            }
        },
    }
}

proof fn lemma_decl_shift(pre: Seq<char>, s: Seq<char>, p: int)
    requires
        0 <= p <= s.len(),
    ensures
        scan_decl(pre + s, p + pre.len()) == shifted(scan_decl(s, p), pre.len() as int),
{
    let n = pre.len() as int;
    let t = pre + s;
    lemma_skip_shift(pre, s, p, CharClass::Alphanumeric);
    lemma_skip_class(s, p, CharClass::Alphanumeric);
    let q = skip_class(s, p, CharClass::Alphanumeric);
    lemma_skip_shift(pre, s, q, CharClass::Space);
    lemma_skip_class(s, q, CharClass::Space);
    let q1 = skip_class(s, q, CharClass::Space);
    assert(t.subrange(p + n, q + n) =~= s.subrange(p, q));
    if q1 < s.len() {
        assert(t[q1 + n] == s[q1]);
        lemma_skip_shift(pre, s, q1 + 1, CharClass::Space);
        lemma_skip_class(s, q1 + 1, CharClass::Space);
        let q2 = skip_class(s, q1 + 1, CharClass::Space);
        lemma_literal_shift(pre, s, q2);
        lemma_literal_advances(s, q2);
        match scan_literal(s, q2) {
            Scan::Done(e, q3) => lemma_chain_shift(pre, s, q3, e),
            _ => {},
        }
    }
}

proof fn lemma_decls_shift(pre: Seq<char>, s: Seq<char>, p: int)
    requires
        0 <= p <= s.len(),
    ensures
        scan_decls(pre + s, p + pre.len()) == shifted(scan_decls(s, p), pre.len() as int),
    decreases s.len() - p,
{
    lemma_skip_shift(pre, s, p, CharClass::Multispace);
    lemma_skip_class(s, p, CharClass::Multispace);
    let q = skip_class(s, p, CharClass::Multispace);
    lemma_decl_shift(pre, s, q);
    lemma_decl_advances(s, q);
    match scan_decl(s, q) {
        Scan::Done(d, q2) => {
            lemma_skip_shift(pre, s, q2, CharClass::Multispace);
            lemma_skip_class(s, q2, CharClass::Multispace);
            lemma_decls_shift(pre, s, skip_class(s, q2, CharClass::Multispace));
        },
        _ => {},
    }
}


/// Whether `c` is a space, a tab, a carriage return or a line feed.
pub open spec fn is_whitespace(c: char) -> bool {
    c == ' ' || c == '\t' || c == '\r' || c == '\n'
}

/// Skipping whitespace from the start of a run of whitespace ends where skipping
/// from the run's end does.
proof fn lemma_skip_whitespace_run(t: Seq<char>, i: int, n: int)
    requires
        0 <= i <= n <= t.len(),
        forall|j: int| i <= j < n ==> is_whitespace(#[trigger] t[j]),
    ensures
        skip_class(t, i, CharClass::Multispace) == skip_class(t, n, CharClass::Multispace),
    decreases n - i,
{
    if i < n {
        lemma_skip_whitespace_run(t, i + 1, n);
    }
}

/// Leading whitespace does not change what is parsed: a text with any run of spaces,
/// tabs, carriage returns and line feeds put before it parses to the same
/// declarations (or the same fault), with the unparsed rest starting at the same
/// character.
pub proof fn law_parse_skips_leading_whitespace(ws: Seq<char>, s: Seq<char>)
    requires
        forall|i: int| 0 <= i < ws.len() ==> is_whitespace(#[trigger] ws[i]),
    ensures
        parse_program(ws + s) == shifted(parse_program(s), ws.len() as int),
        (ws + s).skip(ws.len() as int) == s,
{
    let n = ws.len() as int;
    let t = ws + s;
    assert forall|j: int| 0 <= j < n implies is_whitespace(#[trigger] t[j]) by {
        assert(t[j] == ws[j]);
    }
    lemma_skip_whitespace_run(t, 0, n);
    lemma_decls_shift(ws, s, 0);
    lemma_decls_bounds(s, 0);
    lemma_skip_shift(ws, s, 0, CharClass::Multispace);
    match scan_decls(s, 0) {
        Scan::Done(ds, r) => {
            lemma_skip_shift(ws, s, r, CharClass::Multispace);
        },
        _ => {},
    }
    assert(t.skip(n) =~= s);
}


/// Whether `c` is a space or a tab.
pub open spec fn is_blank(c: char) -> bool {
    c == ' ' || c == '\t'
}

/// The character of an additive operator.
pub open spec fn operator_char(op: Binop) -> char {
    match op {
        Binop::Add => '+',
        Binop::Sub => '-',
    }
}

/// The text `name a = b x c op d y`: a declaration of a name, with the runs `a`,
/// `b`, `c`, `d` around `=` and the operator.
pub open spec fn spaced_decl(
    name: Seq<char>,
    a: Seq<char>,
    b: Seq<char>,
    x: char,
    c: Seq<char>,
    op: Binop,
    d: Seq<char>,
    y: char,
) -> Seq<char> {
    name + a + seq!['='] + b + seq![x] + c + seq![operator_char(op)] + d + seq![y]
}

proof fn lemma_skip_to(t: Seq<char>, i: int, j: int, k: CharClass)
    requires
        0 <= i <= j <= t.len(),
        forall|m: int| i <= m < j ==> in_class(k, #[trigger] t[m]),
        j < t.len() ==> !in_class(k, t[j]),
    ensures
        skip_class(t, i, k) == j,
    decreases j - i,
{
    if i < j {
        lemma_skip_to(t, i + 1, j, k);
    }
}

/// Spaces and tabs, in any number, separate the tokens of a declaration: a name of
/// lower-case letters, then any run of spaces and tabs, `=`, another run, a digit,
/// another run, an additive operator, another run and a digit parse to exactly the
/// one declaration of that name with that operation on the two digits' values, and
/// nothing of the text is left.
pub proof fn law_separators_are_blanks(
    name: Seq<char>,
    a: Seq<char>,
    b: Seq<char>,
    x: char,
    c: Seq<char>,
    op: Binop,
    d: Seq<char>,
    y: char,
)
    requires
        name.len() >= 1,
        forall|i: int| 0 <= i < name.len() ==> 'a' <= #[trigger] name[i] && name[i] <= 'z',
        forall|i: int| 0 <= i < a.len() ==> is_blank(#[trigger] a[i]),
        forall|i: int| 0 <= i < b.len() ==> is_blank(#[trigger] b[i]),
        forall|i: int| 0 <= i < c.len() ==> is_blank(#[trigger] c[i]),
        forall|i: int| 0 <= i < d.len() ==> is_blank(#[trigger] d[i]),
        '0' <= x && x <= '9',
        '0' <= y && y <= '9',
    ensures
        parse_program(spaced_decl(name, a, b, x, c, op, d, y)) == Scan::Done(
            seq![
                DeclModel::Bind(
                    name,
                    Seq::empty(),
                    ExprModel::Binop(
                        op,
                        Box::new(ExprModel::<Seq<char>>::Integer((x as int - 48) as i64)),
                        Box::new(ExprModel::<Seq<char>>::Integer((y as int - 48) as i64)),
                    ),
                ),
            ],
            spaced_decl(name, a, b, x, c, op, d, y).len() as int,
        ),
{
    let t = spaced_decl(name, a, b, x, c, op, d, y);
    let nn = name.len() as int;
    let ea = nn + a.len();
    let sb = ea + 1;
    let eb = sb + b.len();
    let sc = eb + 1;
    let ec = sc + c.len();
    let sd = ec + 1;
    let ed = sd + d.len();
    let len = ed + 1;
    assert(t.len() == len);
    assert forall|m: int| 0 <= m < nn implies #[trigger] t[m] == name[m] by {}
    assert forall|m: int| nn <= m < ea implies #[trigger] t[m] == a[m - nn] by {}
    assert(t[ea] == '=');
    assert forall|m: int| sb <= m < eb implies #[trigger] t[m] == b[m - sb] by {}
    assert(t[eb] == x);
    assert forall|m: int| sc <= m < ec implies #[trigger] t[m] == c[m - sc] by {}
    assert(t[ec] == operator_char(op));
    assert forall|m: int| sd <= m < ed implies #[trigger] t[m] == d[m - sd] by {}
    assert(t[ed] == y);
    // the name
    assert(!in_class(CharClass::Multispace, t[0]));
    lemma_skip_to(t, 0, 0, CharClass::Multispace);
    assert forall|m: int| 0 <= m < nn implies in_class(CharClass::Alphanumeric, #[trigger] t[m]) by {
        assert(t[m] == name[m]);
    }
    if nn < ea {
        assert(t[nn] == a[0]);
    }
    lemma_skip_to(t, 0, nn, CharClass::Alphanumeric);
    assert(t.subrange(0, nn) =~= name);
    // `=` between runs
    assert forall|m: int| nn <= m < ea implies in_class(CharClass::Space, #[trigger] t[m]) by {
        assert(t[m] == a[m - nn]);
    }
    lemma_skip_to(t, nn, ea, CharClass::Space);
    assert forall|m: int| sb <= m < eb implies in_class(CharClass::Space, #[trigger] t[m]) by {
        assert(t[m] == b[m - sb]);
    }
    lemma_skip_to(t, sb, eb, CharClass::Space);
    // the first digit
    if sc < ec {
        assert(t[sc] == c[0]);
    }
    lemma_skip_to(t, eb, sc, CharClass::Digit);
    assert(digits_value(t, eb, eb) == 0);
    assert(digits_value(t, eb, sc) == (x as int - 48) as nat);
    // the operator between runs
    assert forall|m: int| sc <= m < ec implies in_class(CharClass::Space, #[trigger] t[m]) by {
        assert(t[m] == c[m - sc]);
    }
    lemma_skip_to(t, sc, ec, CharClass::Space);
    assert forall|m: int| sd <= m < ed implies in_class(CharClass::Space, #[trigger] t[m]) by {
        assert(t[m] == d[m - sd]);
    }
    lemma_skip_to(t, sd, ed, CharClass::Space);
    // the second digit, then the end
    lemma_skip_to(t, ed, len, CharClass::Digit);
    assert(digits_value(t, ed, ed) == 0);
    assert(digits_value(t, ed, len) == (y as int - 48) as nat);
    lemma_skip_to(t, len, len, CharClass::Space);
    lemma_skip_to(t, len, len, CharClass::Multispace);
    lemma_skip_to(t, len, len, CharClass::Alphanumeric);
    let e = ExprModel::Binop(
        op,
        Box::new(ExprModel::<Seq<char>>::Integer((x as int - 48) as i64)),
        Box::new(ExprModel::<Seq<char>>::Integer((y as int - 48) as i64)),
    );
    assert(scan_literal(t, eb) == Scan::Done(ExprModel::<Seq<char>>::Integer((x as int - 48) as i64), sc));
    assert(scan_operator(t, sc) == Some((op, sd)));
    assert(scan_literal(t, ed) == Scan::Done(ExprModel::<Seq<char>>::Integer((y as int - 48) as i64), len));
    assert(scan_chain(t, len, e) == Scan::Done(e, len));
    assert(scan_expr(t, eb) == Scan::Done(e, len));
    assert(scan_decl(t, 0) == Scan::Done(DeclModel::Bind(name, Seq::empty(), e), len));
    assert(scan_decl(t, len) == Scan::<DeclModel<Seq<char>>>::NoMatch);
    assert(scan_decls(t, len) == Scan::Done(Seq::<DeclModel<Seq<char>>>::empty(), len));
    assert(seq![DeclModel::Bind(name, Seq::empty(), e)] + Seq::<DeclModel<Seq<char>>>::empty() =~= seq![DeclModel::Bind(name, Seq::empty(), e)]);
}


/// Integer literals read back what decimal printing writes: `name = ` followed by
/// the decimal numeral of a value up to `i64::MAX` parses to exactly the one
/// declaration of that name with that value, and nothing of the text is left.
pub proof fn law_parse_reads_decimal(name: Seq<char>, n: nat)
    requires
        name.len() >= 1,
        forall|i: int| 0 <= i < name.len() ==> 'a' <= #[trigger] name[i] && name[i] <= 'z',
        n <= i64::MAX,
    ensures
        parse_program(name + seq![' ', '=', ' '] + decimal_nat(n)) == Scan::Done(
            seq![DeclModel::Bind(name, Seq::empty(), ExprModel::<Seq<char>>::Integer(n as i64))],
            (name + seq![' ', '=', ' '] + decimal_nat(n)).len() as int,
        ),
{
    let num = decimal_nat(n);
    law_decimal_nat_is_numeral(n);
    let t = name + seq![' ', '=', ' '] + num;
    let nn = name.len() as int;
    let sb = nn + 3;
    let len = t.len() as int;
    assert(len == sb + num.len());
    assert forall|m: int| 0 <= m < nn implies #[trigger] t[m] == name[m] by {}
    assert(t[nn] == ' ' && t[nn + 1] == '=' && t[nn + 2] == ' ');
    assert forall|m: int| sb <= m < len implies #[trigger] t[m] == num[m - sb] by {}
    assert(!in_class(CharClass::Multispace, t[0]));
    lemma_skip_to(t, 0, 0, CharClass::Multispace);
    assert forall|m: int| 0 <= m < nn implies in_class(CharClass::Alphanumeric, #[trigger] t[m]) by {
        assert(t[m] == name[m]);
    }
    lemma_skip_to(t, 0, nn, CharClass::Alphanumeric);
    assert(t.subrange(0, nn) =~= name);
    lemma_skip_to(t, nn, nn + 1, CharClass::Space);
    lemma_skip_to(t, nn + 2, sb, CharClass::Space);
    assert forall|m: int| sb <= m < len implies in_class(CharClass::Digit, #[trigger] t[m]) by {
        assert(t[m] == num[m - sb]);
    }
    lemma_skip_to(t, sb, len, CharClass::Digit);
    lemma_digits_shift(name + seq![' ', '=', ' '], num, 0, num.len() as int);
    lemma_skip_to(t, len, len, CharClass::Space);
    lemma_skip_to(t, len, len, CharClass::Multispace);
    lemma_skip_to(t, len, len, CharClass::Alphanumeric);
    let e = ExprModel::<Seq<char>>::Integer(n as i64);
    assert(scan_literal(t, sb) == Scan::Done(e, len));
    assert(scan_chain(t, len, e) == Scan::Done(e, len));
    assert(scan_decl(t, 0) == Scan::Done(DeclModel::Bind(name, Seq::empty(), e), len));
    assert(scan_decl(t, len) == Scan::<DeclModel<Seq<char>>>::NoMatch);
    assert(scan_decls(t, len) == Scan::Done(Seq::<DeclModel<Seq<char>>>::empty(), len));
    assert(seq![DeclModel::Bind(name, Seq::empty(), e)] + Seq::<DeclModel<Seq<char>>>::empty() =~= seq![DeclModel::Bind(name, Seq::empty(), e)]);
}

} // verus!
