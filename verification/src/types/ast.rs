use vstd::prelude::*;

use super::binop::{binop_text, Binop};
use crate::text::{chars_of, decimal_int, indent_each, push_i64, push_indented, text_lines};

verus! {

/// An expression of the source language. `S` is how a string literal is held:
/// its text after parsing, its index in the string table after collection.
#[derive(Debug)]
pub enum Expr<S> {
    Binop(Binop, Box<Expr<S>>, Box<Expr<S>>),
    Identifier(String),
    Integer(i64),
    String(S),
}

/// What an expression denotes, with texts as character sequences.
pub enum ExprModel<T> {
    Binop(Binop, Box<ExprModel<T>>, Box<ExprModel<T>>),
    Identifier(Seq<char>),
    Integer(i64),
    String(T),
}

impl<S: View> View for Expr<S> {
    type V = ExprModel<S::V>;

    open spec fn view(&self) -> ExprModel<S::V>
        decreases self,
    {
        match self {
            Expr::Binop(op, l, r) => ExprModel::Binop(*op, Box::new((**l).view()), Box::new((**r).view())),
            Expr::Identifier(n) => ExprModel::Identifier(n@),
            Expr::Integer(v) => ExprModel::Integer(*v),
            Expr::String(s) => ExprModel::String(s@),
        }
    }
}

/// A top-level declaration: a named function with its parameters and body.
#[derive(Debug)]
pub enum Decl<S> {
    Bind(String, Vec<String>, Expr<S>),
}

/// What a declaration denotes.
pub enum DeclModel<T> {
    Bind(Seq<char>, Seq<Seq<char>>, ExprModel<T>),
}

/// The texts of a list of strings.
pub open spec fn texts(v: Seq<String>) -> Seq<Seq<char>> {
    v.map_values(|s: String| s@)
}

impl<S: View> View for Decl<S> {
    type V = DeclModel<S::V>;

    open spec fn view(&self) -> DeclModel<S::V> {
        match self {
            Decl::Bind(name, args, body) => DeclModel::Bind(name@, texts(args@), body@),
        }
    }
}

/// The body of a declaration.
pub open spec fn decl_body<T>(d: DeclModel<T>) -> ExprModel<T> {
    match d {
        DeclModel::Bind(_, _, body) => body,
    }
}

/// The syntax-tree dump of an expression: one node per line, children indented.
pub open spec fn expr_text(e: ExprModel<Seq<char>>) -> Seq<char>
    decreases e,
{
    match e {
        ExprModel::Binop(op, l, r) => "binop "@ + binop_text(op) + "\n"@ + indent_each(
            text_lines(expr_text(*l)),
        ) + indent_each(text_lines(expr_text(*r))),
        ExprModel::Identifier(n) => "ident "@ + n,
        ExprModel::Integer(v) => "int "@ + decimal_int(v as int),
        ExprModel::String(s) => "string '"@ + s + "'"@,
    }
}

/// The syntax-tree dump of a declaration: its name, then its body indented.
pub open spec fn decl_text(d: DeclModel<Seq<char>>) -> Seq<char> {
    match d {
        DeclModel::Bind(name, _, body) => "fn "@ + name + "\n"@ + indent_each(text_lines(expr_text(body))),
    }
}

impl Expr<String> {
    /// Renders the syntax tree of the expression.
    pub fn to_string(&self) -> (s: String)
        ensures
            s@ == expr_text(self@),
        decreases self,
    {
        match self {
            Expr::Binop(op, l, r) => {
                let mut s = String::from_str("binop ");
                let o = op.to_string();
                s.append(o.as_str());
                s.append("\n");
                let lt = l.to_string();
                push_indented(&mut s, &chars_of(lt.as_str()));
                let rt = r.to_string();
                push_indented(&mut s, &chars_of(rt.as_str()));
                s
            },
            Expr::Identifier(n) => {
                let mut s = String::from_str("ident ");
                s.append(n.as_str());
                s
            },
            Expr::Integer(v) => {
                let mut s = String::from_str("int ");
                push_i64(&mut s, *v);
                s
            },
            Expr::String(v) => {
                let mut s = String::from_str("string '");
                s.append(v.as_str());
                s.append("'");
                s
            },
        }
    }
}

impl Decl<String> {
    /// Renders the declaration: `fn name`, then the body's tree indented.
    pub fn to_string(&self) -> (s: String)
        ensures
            s@ == decl_text(self@),
    {
        match self {
            Decl::Bind(name, _, body) => {
                let mut s = String::from_str("fn ");
                s.append(name.as_str());
                s.append("\n");
                let bt = body.to_string();
                push_indented(&mut s, &chars_of(bt.as_str()));
                s
            },
        }
    }
}

} // verus!
