use vstd::prelude::*;
use crate::ast::{BinOp, Expr, ExprModel, Expr_, NodeModel, Program, Span, SpanM, expr_view,
    exprs_view, lemma_exprs_view};
use crate::bytes::bytes_dup;
use crate::lexer::{Token, TokenModel, toks_view};
use crate::values::QueryError;

verus! {

// The grammar, lowest to highest precedence:
//
//   program    := statement*
//   statement  := ("return")? assignment ";"
//   assignment := IDENT "(" assignment ")" | IDENT "=" assignment | object
//   object     := "[" list "]" | "[" "]" | term
//   list       := object | list "," object
//   term       := term ("+"|"-") factor | factor
//   factor     := factor ("*"|"/"|"%") atom | atom
//   atom       := IDENT | NUMBER | STRING | "(" assignment ")"
//
// The specification parsers below are the grammar in functional form, one
// function per nonterminal, descending on a fuel argument; the fuel in
// `parse_m` is generous enough for every input a machine can hold, so the
// bound is never the deciding factor. The executable parser mirrors them
// and is proved to return exactly what they say.

type Toks = Seq<(TokenModel, SpanM)>;

/// One parsed expression and the position after it.
pub ghost struct PE {
    pub e: ExprModel,
    pub i: int,
}

/// A parsed list body: its elements, their combined span, the position
/// after them.
pub ghost struct PL {
    pub elems: Seq<ExprModel>,
    pub span: SpanM,
    pub i: int,
}

pub open spec fn p_atom(t: Toks, i: int, f: nat) -> Option<PE>
    decreases f,
{
    if f == 0 || !(0 <= i < t.len()) {
        None
    } else {
        match t[i].0 {
            TokenModel::Ident(v) => Some(
                PE { e: ExprModel { span: t[i].1, node: NodeModel::Var(v) }, i: i + 1 },
            ),
            TokenModel::Number(x) => Some(
                PE { e: ExprModel { span: t[i].1, node: NodeModel::Number(x) }, i: i + 1 },
            ),
            TokenModel::String(sv) => Some(
                PE { e: ExprModel { span: t[i].1, node: NodeModel::String(sv) }, i: i + 1 },
            ),
            TokenModel::LParen => match p_assign(t, i + 1, (f - 1) as nat) {
                Some(pe) => if pe.i < t.len() && t[pe.i].0 is RParen {
                    Some(PE { e: pe.e, i: pe.i + 1 })
                } else {
                    None
                },
                None => None,
            },
            _ => None,
        }
    }
}

pub open spec fn p_fact(t: Toks, i: int, f: nat) -> Option<PE>
    decreases f,
{
    if f == 0 {
        None
    } else {
        match p_atom(t, i, (f - 1) as nat) {
            Some(pe) => p_fact_rest(t, pe.e, pe.i, (f - 1) as nat),
            None => None,
        }
    }
}

pub open spec fn p_fact_rest(t: Toks, acc: ExprModel, i: int, f: nat) -> Option<PE>
    decreases f,
{
    if f == 0 {
        None
    } else if 0 <= i < t.len() && (t[i].0 is Star || t[i].0 is Slash || t[i].0 is Percent) {
        let op = if t[i].0 is Star {
            BinOp::Mul
        } else if t[i].0 is Slash {
            BinOp::Div
        } else {
            BinOp::Mod
        };
        match p_atom(t, i + 1, (f - 1) as nat) {
            Some(pe) => p_fact_rest(
                t,
                ExprModel {
                    span: SpanM { lo: acc.span.lo, hi: pe.e.span.hi },
                    node: NodeModel::Bin(op, Box::new(acc), Box::new(pe.e)),
                },
                pe.i,
                (f - 1) as nat,
            ),
            None => None,
        }
    } else {
        Some(PE { e: acc, i })
    }
}

pub open spec fn p_term(t: Toks, i: int, f: nat) -> Option<PE>
    decreases f,
{
    if f == 0 {
        None
    } else {
        match p_fact(t, i, (f - 1) as nat) {
            Some(pe) => p_term_rest(t, pe.e, pe.i, (f - 1) as nat),
            None => None,
        }
    }
}

pub open spec fn p_term_rest(t: Toks, acc: ExprModel, i: int, f: nat) -> Option<PE>
    decreases f,
{
    if f == 0 {
        None
    } else if 0 <= i < t.len() && (t[i].0 is Plus || t[i].0 is Minus) {
        let op = if t[i].0 is Plus {
            BinOp::Add
        } else {
            BinOp::Sub
        };
        match p_fact(t, i + 1, (f - 1) as nat) {
            Some(pe) => p_term_rest(
                t,
                ExprModel {
                    span: SpanM { lo: acc.span.lo, hi: pe.e.span.hi },
                    node: NodeModel::Bin(op, Box::new(acc), Box::new(pe.e)),
                },
                pe.i,
                (f - 1) as nat,
            ),
            None => None,
        }
    } else {
        Some(PE { e: acc, i })
    }
}

pub open spec fn p_list(t: Toks, i: int, f: nat) -> Option<PL>
    decreases f,
{
    if f == 0 {
        None
    } else {
        match p_object(t, i, (f - 1) as nat) {
            Some(pe) => p_list_rest(t, seq![pe.e], pe.e.span, pe.i, (f - 1) as nat),
            None => None,
        }
    }
}

pub open spec fn p_list_rest(t: Toks, elems: Seq<ExprModel>, sp: SpanM, i: int, f: nat) -> Option<
    PL,
>
    decreases f,
{
    if f == 0 {
        None
    } else if 0 <= i < t.len() && t[i].0 is Comma {
        match p_object(t, i + 1, (f - 1) as nat) {
            Some(pe) => p_list_rest(
                t,
                elems.push(pe.e),
                SpanM { lo: sp.lo, hi: pe.e.span.hi },
                pe.i,
                (f - 1) as nat,
            ),
            None => None,
        }
    } else {
        Some(PL { elems, span: sp, i })
    }
}

pub open spec fn p_object(t: Toks, i: int, f: nat) -> Option<PE>
    decreases f,
{
    if f == 0 {
        None
    } else if 0 <= i < t.len() && t[i].0 is LBracket {
        if i + 1 < t.len() && t[i + 1].0 is RBracket {
            Some(
                PE {
                    e: ExprModel {
                        span: SpanM { lo: t[i].1.lo, hi: t[i + 1].1.hi },
                        node: NodeModel::List(Seq::empty()),
                    },
                    i: i + 2,
                },
            )
        } else {
            match p_list(t, i + 1, (f - 1) as nat) {
                Some(pl) => if pl.i < t.len() && t[pl.i].0 is RBracket {
                    Some(
                        PE {
                            e: ExprModel { span: pl.span, node: NodeModel::List(pl.elems) },
                            i: pl.i + 1,
                        },
                    )
                } else {
                    None
                },
                None => None,
            }
        }
    } else {
        p_term(t, i, (f - 1) as nat)
    }
}

pub open spec fn p_assign(t: Toks, i: int, f: nat) -> Option<PE>
    decreases f,
{
    if f == 0 {
        None
    } else if 0 <= i && i + 1 < t.len() && t[i].0 is Ident && t[i + 1].0 is LParen {
        match p_assign(t, i + 2, (f - 1) as nat) {
            Some(pe) => if pe.i < t.len() && t[pe.i].0 is RParen {
                Some(
                    PE {
                        e: ExprModel {
                            span: SpanM { lo: t[i].1.lo, hi: t[pe.i].1.hi },
                            node: NodeModel::Function(t[i].0->Ident_0, Box::new(pe.e)),
                        },
                        i: pe.i + 1,
                    },
                )
            } else {
                None
            },
            None => None,
        }
    } else if 0 <= i && i + 1 < t.len() && t[i].0 is Ident && t[i + 1].0 is Equals {
        match p_assign(t, i + 2, (f - 1) as nat) {
            Some(pe) => Some(
                PE {
                    e: ExprModel {
                        span: SpanM { lo: t[i].1.lo, hi: pe.e.span.hi },
                        node: NodeModel::Assign(t[i].0->Ident_0, Box::new(pe.e)),
                    },
                    i: pe.i,
                },
            ),
            None => None,
        }
    } else {
        p_object(t, i, (f - 1) as nat)
    }
}

pub open spec fn p_ret(t: Toks, i: int, f: nat) -> Option<PE>
    decreases f,
{
    if f == 0 {
        None
    } else if 0 <= i < t.len() && t[i].0 is Return {
        match p_assign(t, i + 1, (f - 1) as nat) {
            Some(pe) => Some(
                PE {
                    e: ExprModel {
                        span: SpanM { lo: t[i].1.lo, hi: pe.e.span.hi },
                        node: NodeModel::Return(Box::new(pe.e)),
                    },
                    i: pe.i,
                },
            ),
            None => None,
        }
    } else {
        p_assign(t, i, (f - 1) as nat)
    }
}

pub open spec fn p_stmts(t: Toks, i: int, f: nat) -> Option<Seq<ExprModel>>
    decreases f,
{
    if f == 0 {
        None
    } else if i >= t.len() {
        Some(Seq::empty())
    } else {
        match p_ret(t, i, (f - 1) as nat) {
            Some(pe) => if pe.i < t.len() && t[pe.i].0 is Semi {
                match p_stmts(t, pe.i + 1, (f - 1) as nat) {
                    Some(rest) => Some(seq![pe.e] + rest),
                    None => None,
                }
            } else {
                None
            },
            None => None,
        }
    }
}

/// Token streams longer than this are rejected outright; no machine can
/// hold a program of that size.
pub const MAX_PARSE_TOKENS: u64 = 0x0400_0000_0000_0000u64;

/// What parsing a token stream means: the statement sequence the grammar
/// derives, or nothing when the stream violates the grammar.
pub open spec fn parse_m(t: Toks) -> Option<Seq<ExprModel>> {
    if t.len() as int > MAX_PARSE_TOKENS as int {
        None
    } else {
        p_stmts(t, 0, (8 * t.len() + 8) as nat)
    }
}

fn parse_atom(toks: &Vec<(Token, Span)>, i: usize, f: u64) -> (r: Option<(Expr, usize)>)
    requires
        i <= toks@.len(),
    ensures
        match r {
            Some(p) => p_atom(toks_view(toks@), i as int, f as nat) == Some(
                PE { e: expr_view(p.0), i: p.1 as int },
            ) && p.1 <= toks@.len(),
            None => p_atom(toks_view(toks@), i as int, f as nat) is None,
        },
    decreases f,
{
    if f == 0 || i >= toks.len() {
        return None;
    }
    let sp = toks[i].1;
    match &toks[i].0 {
        Token::Ident(v) => Some((Expr { span: sp, node: Expr_::Var(bytes_dup(v)) }, i + 1)),
        Token::Number(x) => Some((Expr { span: sp, node: Expr_::Number(bytes_dup(x)) }, i + 1)),
        Token::String(sv) => Some((Expr { span: sp, node: Expr_::String(bytes_dup(sv)) }, i + 1)),
        Token::LParen => {
            match parse_assign(toks, i + 1, f - 1) {
                Some((e, j)) => {
                    if j < toks.len() {
                        match &toks[j].0 {
                            Token::RParen => Some((e, j + 1)),
                            _ => None,
                        }
                    } else {
                        None
                    }
                },
                None => None,
            }
        },
        _ => None,
    }
}

fn parse_fact(toks: &Vec<(Token, Span)>, i: usize, f: u64) -> (r: Option<(Expr, usize)>)
    requires
        i <= toks@.len(),
    ensures
        match r {
            Some(p) => p_fact(toks_view(toks@), i as int, f as nat) == Some(
                PE { e: expr_view(p.0), i: p.1 as int },
            ) && p.1 <= toks@.len(),
            None => p_fact(toks_view(toks@), i as int, f as nat) is None,
        },
    decreases f,
{
    if f == 0 {
        return None;
    }
    match parse_atom(toks, i, f - 1) {
        Some((e, j)) => parse_fact_rest(toks, e, j, f - 1),
        None => None,
    }
}

fn parse_fact_rest(toks: &Vec<(Token, Span)>, acc: Expr, i: usize, f: u64) -> (r: Option<
    (Expr, usize),
>)
    requires
        i <= toks@.len(),
    ensures
        match r {
            Some(p) => p_fact_rest(toks_view(toks@), expr_view(acc), i as int, f as nat) == Some(
                PE { e: expr_view(p.0), i: p.1 as int },
            ) && p.1 <= toks@.len(),
            None => p_fact_rest(toks_view(toks@), expr_view(acc), i as int, f as nat) is None,
        },
    decreases f,
{
    if f == 0 {
        return None;
    }
    if i < toks.len() {
        let is_op = match &toks[i].0 {
            Token::Star => true,
            Token::Slash => true,
            Token::Percent => true,
            _ => false,
        };
        if is_op {
            match parse_atom(toks, i + 1, f - 1) {
                Some((e, j)) => {
                    let span = Span { lo: acc.span.lo, hi: e.span.hi };
                    let node = match &toks[i].0 {
                        Token::Star => Expr_::Mul(Box::new(acc), Box::new(e)),
                        Token::Slash => Expr_::Div(Box::new(acc), Box::new(e)),
                        _ => Expr_::Mod(Box::new(acc), Box::new(e)),
                    };
                    return parse_fact_rest(toks, Expr { span, node }, j, f - 1);
                },
                None => {
                    return None;
                },
            }
        }
    }
    Some((acc, i))
}

fn parse_term(toks: &Vec<(Token, Span)>, i: usize, f: u64) -> (r: Option<(Expr, usize)>)
    requires
        i <= toks@.len(),
    ensures
        match r {
            Some(p) => p_term(toks_view(toks@), i as int, f as nat) == Some(
                PE { e: expr_view(p.0), i: p.1 as int },
            ) && p.1 <= toks@.len(),
            None => p_term(toks_view(toks@), i as int, f as nat) is None,
        },
    decreases f,
{
    if f == 0 {
        return None;
    }
    match parse_fact(toks, i, f - 1) {
        Some((e, j)) => parse_term_rest(toks, e, j, f - 1),
        None => None,
    }
}

fn parse_term_rest(toks: &Vec<(Token, Span)>, acc: Expr, i: usize, f: u64) -> (r: Option<
    (Expr, usize),
>)
    requires
        i <= toks@.len(),
    ensures
        match r {
            Some(p) => p_term_rest(toks_view(toks@), expr_view(acc), i as int, f as nat) == Some(
                PE { e: expr_view(p.0), i: p.1 as int },
            ) && p.1 <= toks@.len(),
            None => p_term_rest(toks_view(toks@), expr_view(acc), i as int, f as nat) is None,
        },
    decreases f,
{
    if f == 0 {
        return None;
    }
    if i < toks.len() {
        let is_op = match &toks[i].0 {
            Token::Plus => true,
            Token::Minus => true,
            _ => false,
        };
        if is_op {
            match parse_fact(toks, i + 1, f - 1) {
                Some((e, j)) => {
                    let span = Span { lo: acc.span.lo, hi: e.span.hi };
                    let node = match &toks[i].0 {
                        Token::Plus => Expr_::Add(Box::new(acc), Box::new(e)),
                        _ => Expr_::Sub(Box::new(acc), Box::new(e)),
                    };
                    return parse_term_rest(toks, Expr { span, node }, j, f - 1);
                },
                None => {
                    return None;
                },
            }
        }
    }
    Some((acc, i))
}

fn parse_list(toks: &Vec<(Token, Span)>, i: usize, f: u64) -> (r: Option<(Vec<Expr>, Span, usize)>)
    requires
        i <= toks@.len(),
    ensures
        match r {
            Some(p) => p_list(toks_view(toks@), i as int, f as nat) == Some(
                PL { elems: exprs_view(p.0@), span: p.1@, i: p.2 as int },
            ) && p.2 <= toks@.len(),
            None => p_list(toks_view(toks@), i as int, f as nat) is None,
        },
    decreases f,
{
    if f == 0 {
        return None;
    }
    match parse_object(toks, i, f - 1) {
        Some((e, j)) => {
            let sp = e.span;
            let ghost ev = expr_view(e);
            let mut elems: Vec<Expr> = Vec::new();
            elems.push(e);
            proof {
                assert(elems@.drop_last() =~= Seq::<Expr>::empty());
                assert(exprs_view(Seq::<Expr>::empty()) =~= Seq::<ExprModel>::empty());
                assert(exprs_view(elems@) =~= seq![ev]);
            }
            parse_list_rest(toks, elems, sp, j, f - 1)
        },
        None => None,
    }
}

fn parse_list_rest(toks: &Vec<(Token, Span)>, elems: Vec<Expr>, sp: Span, i: usize, f: u64) -> (r:
    Option<(Vec<Expr>, Span, usize)>)
    requires
        i <= toks@.len(),
    ensures
        match r {
            Some(p) => p_list_rest(
                toks_view(toks@),
                exprs_view(elems@),
                sp@,
                i as int,
                f as nat,
            ) == Some(PL { elems: exprs_view(p.0@), span: p.1@, i: p.2 as int }) && p.2
                <= toks@.len(),
            None => p_list_rest(
                toks_view(toks@),
                exprs_view(elems@),
                sp@,
                i as int,
                f as nat,
            ) is None,
        },
    decreases f,
{
    if f == 0 {
        return None;
    }
    if i < toks.len() {
        let is_comma = match &toks[i].0 {
            Token::Comma => true,
            _ => false,
        };
        if is_comma {
            match parse_object(toks, i + 1, f - 1) {
                Some((e, j)) => {
                    let sp2 = Span { lo: sp.lo, hi: e.span.hi };
                    let ghost oldelems = elems@;
                    let ghost ev = expr_view(e);
                    let mut elems2 = elems;
                    elems2.push(e);
                    proof {
                        assert(elems2@.drop_last() =~= oldelems);
                        assert(exprs_view(elems2@) == exprs_view(oldelems).push(ev));
                    }
                    return parse_list_rest(toks, elems2, sp2, j, f - 1);
                },
                None => {
                    return None;
                },
            }
        }
    }
    Some((elems, sp, i))
}

fn parse_object(toks: &Vec<(Token, Span)>, i: usize, f: u64) -> (r: Option<(Expr, usize)>)
    requires
        i <= toks@.len(),
    ensures
        match r {
            Some(p) => p_object(toks_view(toks@), i as int, f as nat) == Some(
                PE { e: expr_view(p.0), i: p.1 as int },
            ) && p.1 <= toks@.len(),
            None => p_object(toks_view(toks@), i as int, f as nat) is None,
        },
    decreases f,
{
    if f == 0 {
        return None;
    }
    if i < toks.len() {
        let is_lb = match &toks[i].0 {
            Token::LBracket => true,
            _ => false,
        };
        if is_lb {
            if i + 1 < toks.len() {
                let is_rb = match &toks[i + 1].0 {
                    Token::RBracket => true,
                    _ => false,
                };
                if is_rb {
                    let span = Span { lo: toks[i].1.lo, hi: toks[i + 1].1.hi };
                    proof {
                        assert(exprs_view(Seq::<Expr>::empty()) =~= Seq::<ExprModel>::empty());
                    }
                    return Some((Expr { span, node: Expr_::List(Vec::new()) }, i + 2));
                }
            }
            match parse_list(toks, i + 1, f - 1) {
                Some((elems, sp, j)) => {
                    if j < toks.len() {
                        match &toks[j].0 {
                            Token::RBracket => {
                                return Some(
                                    (Expr { span: sp, node: Expr_::List(elems) }, j + 1),
                                );
                            },
                            _ => {
                                return None;
                            },
                        }
                    } else {
                        return None;
                    }
                },
                None => {
                    return None;
                },
            }
        }
    }
    parse_term(toks, i, f - 1)
}

fn parse_assign(toks: &Vec<(Token, Span)>, i: usize, f: u64) -> (r: Option<(Expr, usize)>)
    requires
        i <= toks@.len(),
    ensures
        match r {
            Some(p) => p_assign(toks_view(toks@), i as int, f as nat) == Some(
                PE { e: expr_view(p.0), i: p.1 as int },
            ) && p.1 <= toks@.len(),
            None => p_assign(toks_view(toks@), i as int, f as nat) is None,
        },
    decreases f,
{
    if f == 0 {
        return None;
    }
    if i < toks.len() && i + 1 < toks.len() {
        let is_call = match (&toks[i].0, &toks[i + 1].0) {
            (Token::Ident(_), Token::LParen) => true,
            _ => false,
        };
        let is_assign = match (&toks[i].0, &toks[i + 1].0) {
            (Token::Ident(_), Token::Equals) => true,
            _ => false,
        };
        if is_call {
            match parse_assign(toks, i + 2, f - 1) {
                Some((e, j)) => {
                    if j < toks.len() {
                        let is_rp = match &toks[j].0 {
                            Token::RParen => true,
                            _ => false,
                        };
                        if is_rp {
                            let name = match &toks[i].0 {
                                Token::Ident(v) => bytes_dup(v),
                                _ => Vec::new(),
                            };
                            let span = Span { lo: toks[i].1.lo, hi: toks[j].1.hi };
                            return Some(
                                (
                                    Expr {
                                        span,
                                        node: Expr_::Function(name, Box::new(e)),
                                    },
                                    j + 1,
                                ),
                            );
                        }
                    }
                    return None;
                },
                None => {
                    return None;
                },
            }
        }
        if is_assign {
            match parse_assign(toks, i + 2, f - 1) {
                Some((e, j)) => {
                    let name = match &toks[i].0 {
                        Token::Ident(v) => bytes_dup(v),
                        _ => Vec::new(),
                    };
                    let span = Span { lo: toks[i].1.lo, hi: e.span.hi };
                    return Some(
                        (Expr { span, node: Expr_::Assign(name, Box::new(e)) }, j),
                    );
                },
                None => {
                    return None;
                },
            }
        }
    }
    parse_object(toks, i, f - 1)
}

fn parse_ret(toks: &Vec<(Token, Span)>, i: usize, f: u64) -> (r: Option<(Expr, usize)>)
    requires
        i <= toks@.len(),
    ensures
        match r {
            Some(p) => p_ret(toks_view(toks@), i as int, f as nat) == Some(
                PE { e: expr_view(p.0), i: p.1 as int },
            ) && p.1 <= toks@.len(),
            None => p_ret(toks_view(toks@), i as int, f as nat) is None,
        },
    decreases f,
{
    if f == 0 {
        return None;
    }
    if i < toks.len() {
        let is_ret = match &toks[i].0 {
            Token::Return => true,
            _ => false,
        };
        if is_ret {
            match parse_assign(toks, i + 1, f - 1) {
                Some((e, j)) => {
                    let span = Span { lo: toks[i].1.lo, hi: e.span.hi };
                    return Some((Expr { span, node: Expr_::Return(Box::new(e)) }, j));
                },
                None => {
                    return None;
                },
            }
        }
    }
    parse_assign(toks, i, f - 1)
}

fn parse_stmts(toks: &Vec<(Token, Span)>, i: usize, f: u64) -> (r: Option<Vec<Expr>>)
    requires
        i <= toks@.len(),
    ensures
        match r {
            Some(v) => p_stmts(toks_view(toks@), i as int, f as nat) == Some(exprs_view(v@)),
            None => p_stmts(toks_view(toks@), i as int, f as nat) is None,
        },
    decreases f,
{
    if f == 0 {
        return None;
    }
    if i >= toks.len() {
        proof {
            assert(exprs_view(Seq::<Expr>::empty()) =~= Seq::<ExprModel>::empty());
        }
        return Some(Vec::new());
    }
    match parse_ret(toks, i, f - 1) {
        Some((e, j)) => {
            if j < toks.len() {
                let is_semi = match &toks[j].0 {
                    Token::Semi => true,
                    _ => false,
                };
                if is_semi {
                    match parse_stmts(toks, j + 1, f - 1) {
                        Some(rest) => {
                            let ghost ev = expr_view(e);
                            let ghost restv = rest@;
                            let mut v = rest;
                            v.insert(0, e);
                            proof {
                                lemma_exprs_view(v@);
                                lemma_exprs_view(restv);
                                assert(v@ =~= seq![v@[0]] + restv);
                                assert(exprs_view(v@) =~= seq![ev] + exprs_view(restv));
                            }
                            return Some(v);
                        },
                        None => {
                            return None;
                        },
                    }
                }
            }
            None
        },
        None => None,
    }
}

/// Parses a token stream into a program under the grammar above, or
/// reports the parsing-failure error.
pub fn parse(tokens: &Vec<(Token, Span)>) -> (r: Result<Program, QueryError>)
    ensures
        match r {
            Ok(p) => parse_m(toks_view(tokens@)) == Some(p@),
            Err(e) => parse_m(toks_view(tokens@)) is None && e == QueryError::ParsingError,
        },
{
    if (tokens.len() as u64) > MAX_PARSE_TOKENS {
        return Err(QueryError::ParsingError);
    }
    let f: u64 = 8 * (tokens.len() as u64) + 8;
    match parse_stmts(tokens, 0, f) {
        Some(v) => Ok(Program { stmts: v }),
        None => Err(QueryError::ParsingError),
    }
}

} // verus!
