//! A small compiler for a C-like expression language, targeting x86-64
//! assembly text in Intel (NASM) syntax.
//!
//! The pipeline has three stages: a bracket- and quote-aware tokenizer
//! ([`lex::tokenize`]), a recursive-descent parser that builds an abstract
//! syntax tree of [`Define`] and [`Expr`] values, and a single-pass code
//! generator ([`Define::emit`]) that lowers the tree to one translation
//! unit of assembly text. Each stage's behaviour is specified exactly
//! against a mathematical mirror over `Seq<char>`.
use vstd::prelude::*;

pub mod emit;
mod iset;
pub mod laws;
pub mod lex;
mod parse;
mod txt;

use lex::Name;

verus! {

/// Memory-access width for loads through a pointer and pointer stores.
#[derive(Clone, Copy, PartialEq, Eq, Debug)]
pub enum Size {
    Byte,
    Word,
    Long,
    Normal,
}

/// Abstract syntax tree of expressions.
#[derive(PartialEq, Debug)]
pub enum Expr {
    // Literal
    Integer(i64),
    String(String),
    Undefined,
    // Reference
    Variable(Name),
    Pointer(Name),
    Derefer(Box<Expr>, Size),
    Call(Box<Expr>, Vec<Expr>),
    // Structure
    Block(Vec<Expr>),
    Let(Box<Expr>, Box<Expr>),
    If(Box<Expr>, Box<Expr>, Option<Box<Expr>>),
    While(Box<Expr>, Box<Expr>),
    Break(Box<Expr>),
    Return(Box<Expr>),
    // Operator
    Add(Box<Expr>, Box<Expr>),
    Sub(Box<Expr>, Box<Expr>),
    Mul(Box<Expr>, Box<Expr>),
    Div(Box<Expr>, Box<Expr>),
    Mod(Box<Expr>, Box<Expr>),
    Eql(Box<Expr>, Box<Expr>),
    NotEq(Box<Expr>, Box<Expr>),
    Gt(Box<Expr>, Box<Expr>),
    Lt(Box<Expr>, Box<Expr>),
    GtEq(Box<Expr>, Box<Expr>),
    LtEq(Box<Expr>, Box<Expr>),
    And(Box<Expr>, Box<Expr>),
    Or(Box<Expr>, Box<Expr>),
    Xor(Box<Expr>, Box<Expr>),
}

/// A function definition: name, ordered set of parameter names, body.
/// The parameter set keeps insertion order and holds no duplicates.
pub struct Define(pub Name, pub indexmap::IndexSet<String>, pub Expr);

/// Mathematical model of an [`Expr`]: the same tree over `Seq<char>` and `int`.
pub enum ExprV {
    Integer(int),
    Strlit(Seq<char>),
    Undefined,
    Variable(Seq<char>),
    Pointer(Seq<char>),
    Derefer(Box<ExprV>, Size),
    Call(Box<ExprV>, Seq<ExprV>),
    Block(Seq<ExprV>),
    Let(Box<ExprV>, Box<ExprV>),
    If(Box<ExprV>, Box<ExprV>, Option<Box<ExprV>>),
    While(Box<ExprV>, Box<ExprV>),
    Break(Box<ExprV>),
    Return(Box<ExprV>),
    Add(Box<ExprV>, Box<ExprV>),
    Sub(Box<ExprV>, Box<ExprV>),
    Mul(Box<ExprV>, Box<ExprV>),
    Div(Box<ExprV>, Box<ExprV>),
    Mod(Box<ExprV>, Box<ExprV>),
    Eql(Box<ExprV>, Box<ExprV>),
    NotEq(Box<ExprV>, Box<ExprV>),
    Gt(Box<ExprV>, Box<ExprV>),
    Lt(Box<ExprV>, Box<ExprV>),
    GtEq(Box<ExprV>, Box<ExprV>),
    LtEq(Box<ExprV>, Box<ExprV>),
    And(Box<ExprV>, Box<ExprV>),
    Or(Box<ExprV>, Box<ExprV>),
    Xor(Box<ExprV>, Box<ExprV>),
}

/// Mathematical model of a [`Define`].
pub struct DefineV {
    pub name: Seq<char>,
    pub params: Seq<Seq<char>>,
    pub body: ExprV,
}

pub open spec fn expr_view(e: Expr) -> ExprV
    decreases e,
{
    match e {
        Expr::Integer(v) => ExprV::Integer(v as int),
        Expr::String(s) => ExprV::Strlit(s@),
        Expr::Undefined => ExprV::Undefined,
        Expr::Variable(n) => ExprV::Variable(n@),
        Expr::Pointer(n) => ExprV::Pointer(n@),
        Expr::Derefer(e1, sz) => ExprV::Derefer(Box::new(expr_view(*e1)), sz),
        Expr::Call(c, args) => ExprV::Call(Box::new(expr_view(*c)), exprs_view(args@)),
        Expr::Block(es) => ExprV::Block(exprs_view(es@)),
        Expr::Let(l, r) => ExprV::Let(Box::new(expr_view(*l)), Box::new(expr_view(*r))),
        Expr::If(c, t, e2) => ExprV::If(
            Box::new(expr_view(*c)),
            Box::new(expr_view(*t)),
            match e2 {
                Some(x) => Some(Box::new(expr_view(*x))),
                None => None,
            },
        ),
        Expr::While(c, b) => ExprV::While(Box::new(expr_view(*c)), Box::new(expr_view(*b))),
        Expr::Break(x) => ExprV::Break(Box::new(expr_view(*x))),
        Expr::Return(x) => ExprV::Return(Box::new(expr_view(*x))),
        Expr::Add(a, b) => ExprV::Add(Box::new(expr_view(*a)), Box::new(expr_view(*b))),
        Expr::Sub(a, b) => ExprV::Sub(Box::new(expr_view(*a)), Box::new(expr_view(*b))),
        Expr::Mul(a, b) => ExprV::Mul(Box::new(expr_view(*a)), Box::new(expr_view(*b))),
        Expr::Div(a, b) => ExprV::Div(Box::new(expr_view(*a)), Box::new(expr_view(*b))),
        Expr::Mod(a, b) => ExprV::Mod(Box::new(expr_view(*a)), Box::new(expr_view(*b))),
        Expr::Eql(a, b) => ExprV::Eql(Box::new(expr_view(*a)), Box::new(expr_view(*b))),
        Expr::NotEq(a, b) => ExprV::NotEq(Box::new(expr_view(*a)), Box::new(expr_view(*b))),
        Expr::Gt(a, b) => ExprV::Gt(Box::new(expr_view(*a)), Box::new(expr_view(*b))),
        Expr::Lt(a, b) => ExprV::Lt(Box::new(expr_view(*a)), Box::new(expr_view(*b))),
        Expr::GtEq(a, b) => ExprV::GtEq(Box::new(expr_view(*a)), Box::new(expr_view(*b))),
        Expr::LtEq(a, b) => ExprV::LtEq(Box::new(expr_view(*a)), Box::new(expr_view(*b))),
        Expr::And(a, b) => ExprV::And(Box::new(expr_view(*a)), Box::new(expr_view(*b))),
        Expr::Or(a, b) => ExprV::Or(Box::new(expr_view(*a)), Box::new(expr_view(*b))),
        Expr::Xor(a, b) => ExprV::Xor(Box::new(expr_view(*a)), Box::new(expr_view(*b))),
    }
}

pub open spec fn exprs_view(es: Seq<Expr>) -> Seq<ExprV>
    decreases es,
{
    if es.len() == 0 {
        Seq::empty()
    } else {
        seq![expr_view(es[0])] + exprs_view(es.drop_first())
    }
}

pub broadcast proof fn lemma_exprs_view_len(es: Seq<Expr>)
    ensures
        (#[trigger] exprs_view(es)).len() == es.len(),
    decreases es,
{
    if es.len() > 0 {
        lemma_exprs_view_len(es.drop_first());
    }
}

pub broadcast proof fn lemma_exprs_view_index(es: Seq<Expr>, i: int)
    requires
        0 <= i < es.len(),
    ensures
        #[trigger] exprs_view(es)[i] == expr_view(es[i]),
    decreases es,
{
    lemma_exprs_view_len(es);
    if i > 0 {
        lemma_exprs_view_index(es.drop_first(), i - 1);
    }
}

impl View for Expr {
    type V = ExprV;

    open spec fn view(&self) -> ExprV {
        expr_view(*self)
    }
}

impl View for Define {
    type V = DefineV;

    open spec fn view(&self) -> DefineV {
        DefineV { name: self.0@, params: iset::iset_elems(self.1), body: expr_view(self.2) }
    }
}

} // verus!
