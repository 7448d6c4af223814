use vstd::prelude::*;

verus! {

/// A half-open byte range `[lo, hi)` into the source text.
#[derive(Debug, Clone, Copy, PartialEq, Eq, Structural)]
pub struct Span {
    pub lo: usize,
    pub hi: usize,
}

/// The mathematical form of a span: the same two offsets, as integers.
pub ghost struct SpanM {
    pub lo: int,
    pub hi: int,
}

impl View for Span {
    type V = SpanM;

    open spec fn view(&self) -> SpanM {
        SpanM { lo: self.lo as int, hi: self.hi as int }
    }
}

/// The span that starts at offset `lo` and covers `len` bytes.
pub fn span_in(lo: usize, len: usize) -> (s: Span)
    requires
        lo + len <= usize::MAX,
    ensures
        s.lo == lo,
        s.hi == lo + len,
{
    Span { lo, hi: lo + len }
}

/// One parsed program: its top-level statements, in source order.
#[derive(Debug)]
pub struct Program {
    pub stmts: Vec<Expr>,
}

/// An expression node together with its source span.
#[derive(Debug)]
pub struct Expr {
    pub span: Span,
    pub node: Expr_,
}

/// The shapes an expression can take.
///
/// A numeric literal carries its source text; the number capability
/// (`crate::numbers::NumberOps`) turns that text into double bits when the
/// node is evaluated. Identifiers and string literals carry their bytes.
#[derive(Debug)]
pub enum Expr_ {
    Add(Box<Expr>, Box<Expr>),
    Sub(Box<Expr>, Box<Expr>),
    Mul(Box<Expr>, Box<Expr>),
    Div(Box<Expr>, Box<Expr>),
    Mod(Box<Expr>, Box<Expr>),
    Var(Vec<u8>),
    Assign(Vec<u8>, Box<Expr>),
    Function(Vec<u8>, Box<Expr>),
    Return(Box<Expr>),
    Number(Vec<u8>),
    String(Vec<u8>),
    List(Vec<Expr>),
}

/// The five arithmetic operators, as one tag in the mathematical model.
pub ghost enum BinOp {
    Add,
    Sub,
    Mul,
    Div,
    Mod,
}

/// The operator's source symbol, used in error payloads.
pub open spec fn op_sym(op: BinOp) -> u8 {
    match op {
        BinOp::Add => 43u8,  // +
        BinOp::Sub => 45u8,  // -
        BinOp::Mul => 42u8,  // *
        BinOp::Div => 47u8,  // /
        BinOp::Mod => 37u8,  // %
    }
}

/// The mathematical form of an expression.
pub ghost struct ExprModel {
    pub span: SpanM,
    pub node: NodeModel,
}

/// The mathematical form of an expression's shape.
pub ghost enum NodeModel {
    Bin(BinOp, Box<ExprModel>, Box<ExprModel>),
    Var(Seq<u8>),
    Assign(Seq<u8>, Box<ExprModel>),
    Function(Seq<u8>, Box<ExprModel>),
    Return(Box<ExprModel>),
    Number(Seq<u8>),
    String(Seq<u8>),
    List(Seq<ExprModel>),
}

pub open spec fn expr_view(e: Expr) -> ExprModel
    decreases e,
{
    ExprModel {
        span: e.span@,
        node: match e.node {
            Expr_::Add(a, b) => NodeModel::Bin(
                BinOp::Add,
                Box::new(expr_view(*a)),
                Box::new(expr_view(*b)),
            ),
            Expr_::Sub(a, b) => NodeModel::Bin(
                BinOp::Sub,
                Box::new(expr_view(*a)),
                Box::new(expr_view(*b)),
            ),
            Expr_::Mul(a, b) => NodeModel::Bin(
                BinOp::Mul,
                Box::new(expr_view(*a)),
                Box::new(expr_view(*b)),
            ),
            Expr_::Div(a, b) => NodeModel::Bin(
                BinOp::Div,
                Box::new(expr_view(*a)),
                Box::new(expr_view(*b)),
            ),
            Expr_::Mod(a, b) => NodeModel::Bin(
                BinOp::Mod,
                Box::new(expr_view(*a)),
                Box::new(expr_view(*b)),
            ),
            Expr_::Var(n) => NodeModel::Var(n@),
            Expr_::Assign(n, r) => NodeModel::Assign(n@, Box::new(expr_view(*r))),
            Expr_::Function(n, a) => NodeModel::Function(n@, Box::new(expr_view(*a))),
            Expr_::Return(r) => NodeModel::Return(Box::new(expr_view(*r))),
            Expr_::Number(t) => NodeModel::Number(t@),
            Expr_::String(s) => NodeModel::String(s@),
            Expr_::List(es) => NodeModel::List(exprs_view(es@)),
        },
    }
}

pub open spec fn exprs_view(es: Seq<Expr>) -> Seq<ExprModel>
    decreases es,
{
    if es.len() == 0 {
        Seq::empty()
    } else {
        exprs_view(es.drop_last()).push(expr_view(es.last()))
    }
}

impl View for Expr {
    type V = ExprModel;

    open spec fn view(&self) -> ExprModel {
        expr_view(*self)
    }
}

impl View for Program {
    type V = Seq<ExprModel>;

    open spec fn view(&self) -> Seq<ExprModel> {
        exprs_view(self.stmts@)
    }
}

/// A structural size for expressions, used as a termination measure.
pub open spec fn expr_size(e: Expr) -> nat
    decreases e,
{
    1 + match e.node {
        Expr_::Add(a, b) => expr_size(*a) + expr_size(*b),
        Expr_::Sub(a, b) => expr_size(*a) + expr_size(*b),
        Expr_::Mul(a, b) => expr_size(*a) + expr_size(*b),
        Expr_::Div(a, b) => expr_size(*a) + expr_size(*b),
        Expr_::Mod(a, b) => expr_size(*a) + expr_size(*b),
        Expr_::Assign(_, r) => expr_size(*r),
        Expr_::Function(_, a) => expr_size(*a),
        Expr_::Return(r) => expr_size(*r),
        Expr_::List(es) => exprs_size(es@),
        _ => 0,
    }
}

pub open spec fn exprs_size(es: Seq<Expr>) -> nat
    decreases es,
{
    if es.len() == 0 {
        0
    } else {
        exprs_size(es.drop_last()) + expr_size(es.last())
    }
}

/// Every element of a sequence is at most the sequence's total size.
pub proof fn lemma_exprs_size_index(es: Seq<Expr>, i: int)
    requires
        0 <= i < es.len(),
    ensures
        expr_size(es[i]) <= exprs_size(es),
    decreases es,
{
    if i == es.len() - 1 {
        assert(es.last() == es[i]);
    } else {
        lemma_exprs_size_index(es.drop_last(), i);
        assert(es.drop_last()[i] == es[i]);
    }
}

/// `exprs_view` maps the sequence element by element.
pub proof fn lemma_exprs_view(es: Seq<Expr>)
    ensures
        exprs_view(es).len() == es.len(),
        forall|i: int| 0 <= i < es.len() ==> exprs_view(es)[i] == expr_view(es[i]),
    decreases es,
{
    if es.len() > 0 {
        lemma_exprs_view(es.drop_last());
    }
}

} // verus!
