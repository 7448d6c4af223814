use vstd::prelude::*;
use crate::ast::{
    BinOp, Expr, ExprModel, Expr_, NodeModel, Program, expr_size, expr_view, exprs_size,
    exprs_view, lemma_exprs_size_index, lemma_exprs_view, op_sym,
};
use crate::bytes::bytes_dup;
use crate::numbers::{NumberOps, is_zero_bits, zero_bits};
use crate::values::{
    DataType, Env, ErrorModel, NativeFn, QueryError, ValueModel, fill_env, lemma_values_size_index,
    lemma_values_view, lines_view, print_name, result_view, value_size, value_view, values_size,
    values_view,
};

verus! {

// The number capability (crate::numbers::NumberOps) carries no contract, so
// evaluation is specified against a trace of the answers it gave, one entry
// per call, in call order. The specification functions below consume such a
// trace from the front and return `None` when the trace does not fit the
// calls the evaluation makes; the executable evaluator returns the trace of
// the answers it actually received, and its postcondition states that the
// specification, run on that trace, yields exactly the returned result, the
// final environment, and the emitted lines.

/// One recorded answer of the number capability.
pub ghost enum OracleAnswer {
    /// An arithmetic result (bits of a double).
    Arith(u64),
    /// A literal-parsing result.
    Parse(Option<u64>),
    /// A number rendering.
    Render(Seq<u8>),
}

/// Renders a value as the diagnostic sink shows it: `none`, a number as the
/// capability rendered it, a string in double quotes, a list in brackets
/// with `, ` between the elements, a native function as `fn`.
pub open spec fn render_m(v: ValueModel, tr: Seq<OracleAnswer>) -> Option<
    (Seq<u8>, Seq<OracleAnswer>),
>
    decreases v,
{
    match v {
        ValueModel::Nothing => Some((seq![110u8, 111u8, 110u8, 101u8], tr)),
        ValueModel::Number(_) => if tr.len() > 0 && tr[0] is Render {
            Some((tr[0]->Render_0, tr.drop_first()))
        } else {
            None
        },
        ValueModel::String(s) => Some((seq![34u8] + s + seq![34u8], tr)),
        ValueModel::Function(_) => Some((seq![102u8, 110u8], tr)),
        ValueModel::List(vs) => match render_items_m(vs, tr) {
            Some((body, tr2)) => Some((seq![91u8] + body + seq![93u8], tr2)),
            None => None,
        },
    }
}

pub open spec fn render_items_m(vs: Seq<ValueModel>, tr: Seq<OracleAnswer>) -> Option<
    (Seq<u8>, Seq<OracleAnswer>),
>
    decreases vs,
{
    if vs.len() == 0 {
        Some((Seq::empty(), tr))
    } else {
        match render_items_m(vs.drop_last(), tr) {
            Some((front, tr1)) => match render_m(vs.last(), tr1) {
                Some((lastb, tr2)) => Some(
                    (
                        if vs.len() == 1 {
                            lastb
                        } else {
                            front + seq![44u8, 32u8] + lastb
                        },
                        tr2,
                    ),
                ),
                None => None,
            },
            None => None,
        }
    }
}

/// What the built-in `print` does: renders each argument as one line.
pub open spec fn print_m(vs: Seq<ValueModel>, tr: Seq<OracleAnswer>) -> Option<
    (Seq<Seq<u8>>, Seq<OracleAnswer>),
>
    decreases vs,
{
    if vs.len() == 0 {
        Some((Seq::empty(), tr))
    } else {
        match print_m(vs.drop_last(), tr) {
            Some((lines, tr1)) => match render_m(vs.last(), tr1) {
                Some((line, tr2)) => Some((lines.push(line), tr2)),
                None => None,
            },
            None => None,
        }
    }
}

/// What evaluating one expression produces: a value or an error, the
/// environment afterwards, and the lines emitted to the diagnostic sink.
#[verifier::ext_equal]
pub ghost struct EvalOutcome {
    pub res: Result<ValueModel, ErrorModel>,
    pub env: Map<Seq<u8>, ValueModel>,
    pub emits: Seq<Seq<u8>>,
}

/// The arithmetic tail of a binary node, once both operands are values:
/// both must be numbers (else invalid-type, named by the operator symbol),
/// division and modulo by a zero divisor are a math error, and otherwise
/// the result is the next arithmetic answer of the capability.
pub open spec fn bin_tail_m(
    op: BinOp,
    v1: ValueModel,
    v2: ValueModel,
    tr: Seq<OracleAnswer>,
) -> Option<(Result<ValueModel, ErrorModel>, Seq<OracleAnswer>)> {
    match (v1, v2) {
        (ValueModel::Number(x), ValueModel::Number(y)) => {
            if (op is Div || op is Mod) && zero_bits(y) {
                Some((Err(ErrorModel::Math(seq![op_sym(op)])), tr))
            } else if tr.len() > 0 && tr[0] is Arith {
                Some((Ok(ValueModel::Number(tr[0]->Arith_0)), tr.drop_first()))
            } else {
                None
            }
        },
        _ => Some((Err(ErrorModel::InvalidType(seq![op_sym(op)])), tr)),
    }
}

/// The per-node evaluation rules of the engine (see the crate root for the
/// grammar): a depth-first walk threading the environment, evaluating left
/// before right, stopping at the first error.
pub open spec fn eval_expr_m(
    env: Map<Seq<u8>, ValueModel>,
    e: ExprModel,
    tr: Seq<OracleAnswer>,
) -> Option<(EvalOutcome, Seq<OracleAnswer>)>
    decreases e,
{
    match e.node {
        NodeModel::Number(_) => if tr.len() > 0 && tr[0] is Parse {
            match tr[0]->Parse_0 {
                Some(b) => Some(
                    (
                        EvalOutcome { res: Ok(ValueModel::Number(b)), env, emits: Seq::empty() },
                        tr.drop_first(),
                    ),
                ),
                None => Some(
                    (
                        EvalOutcome { res: Err(ErrorModel::Lexing), env, emits: Seq::empty() },
                        tr.drop_first(),
                    ),
                ),
            }
        } else {
            None
        },
        NodeModel::String(s) => Some(
            (EvalOutcome { res: Ok(ValueModel::String(s)), env, emits: Seq::empty() }, tr),
        ),
        NodeModel::Var(x) => Some(
            (
                EvalOutcome {
                    res: if env.contains_key(x) {
                        Ok(env[x])
                    } else {
                        Err(ErrorModel::VariableNotDefined(x))
                    },
                    env,
                    emits: Seq::empty(),
                },
                tr,
            ),
        ),
        NodeModel::Assign(x, rhs) => match eval_expr_m(env, *rhs, tr) {
            Some((o1, tr1)) => match o1.res {
                Ok(v) => Some(
                    (EvalOutcome { res: Ok(v), env: o1.env.insert(x, v), emits: o1.emits }, tr1),
                ),
                Err(_) => Some((o1, tr1)),
            },
            None => None,
        },
        NodeModel::Bin(op, a, b) => match eval_expr_m(env, *a, tr) {
            Some((o1, tr1)) => match o1.res {
                Err(_) => Some((o1, tr1)),
                Ok(v1) => match eval_expr_m(o1.env, *b, tr1) {
                    Some((o2, tr2)) => match o2.res {
                        Err(er) => Some(
                            (
                                EvalOutcome {
                                    res: Err(er),
                                    env: o2.env,
                                    emits: o1.emits + o2.emits,
                                },
                                tr2,
                            ),
                        ),
                        Ok(v2) => match bin_tail_m(op, v1, v2, tr2) {
                            Some((res, tr3)) => Some(
                                (
                                    EvalOutcome {
                                        res,
                                        env: o2.env,
                                        emits: o1.emits + o2.emits,
                                    },
                                    tr3,
                                ),
                            ),
                            None => None,
                        },
                    },
                    None => None,
                },
            },
            None => None,
        },
        NodeModel::Return(inner) => match eval_expr_m(env, *inner, tr) {
            Some((o1, tr1)) => match o1.res {
                Err(_) => Some((o1, tr1)),
                Ok(v) => match render_m(v, tr1) {
                    Some((line, tr2)) => Some(
                        (
                            EvalOutcome {
                                res: Ok(v),
                                env: o1.env,
                                emits: o1.emits.push(line),
                            },
                            tr2,
                        ),
                    ),
                    None => None,
                },
            },
            None => None,
        },
        NodeModel::Function(name, arg) => match eval_expr_m(env, *arg, tr) {
            Some((o1, tr1)) => match o1.res {
                Err(_) => Some((o1, tr1)),
                Ok(v) => if !o1.env.contains_key(name) {
                    Some(
                        (
                            EvalOutcome {
                                res: Err(ErrorModel::VariableNotDefined(name)),
                                env: o1.env,
                                emits: o1.emits,
                            },
                            tr1,
                        ),
                    )
                } else {
                    match o1.env[name] {
                        ValueModel::Function(NativeFn::Print) => match print_m(seq![v], tr1) {
                            Some((lines, tr2)) => Some(
                                (
                                    EvalOutcome {
                                        res: Ok(ValueModel::Nothing),
                                        env: o1.env,
                                        emits: o1.emits + lines,
                                    },
                                    tr2,
                                ),
                            ),
                            None => None,
                        },
                        _ => Some(
                            (
                                EvalOutcome {
                                    res: Err(ErrorModel::InvalidType(name)),
                                    env: o1.env,
                                    emits: o1.emits,
                                },
                                tr1,
                            ),
                        ),
                    }
                },
            },
            None => None,
        },
        NodeModel::List(es) => match eval_elems_m(env, es, tr) {
            Some((r, env2, emits, tr2)) => Some(
                (
                    EvalOutcome {
                        res: match r {
                            Ok(vs) => Ok(ValueModel::List(vs)),
                            Err(er) => Err(er),
                        },
                        env: env2,
                        emits,
                    },
                    tr2,
                ),
            ),
            None => None,
        },
    }
}

/// Evaluates list elements left to right, stopping at the first failure.
pub open spec fn eval_elems_m(
    env: Map<Seq<u8>, ValueModel>,
    es: Seq<ExprModel>,
    tr: Seq<OracleAnswer>,
) -> Option<
    (Result<Seq<ValueModel>, ErrorModel>, Map<Seq<u8>, ValueModel>, Seq<Seq<u8>>, Seq<
        OracleAnswer,
    >),
>
    decreases es,
{
    if es.len() == 0 {
        Some((Ok(Seq::empty()), env, Seq::empty(), tr))
    } else {
        match eval_elems_m(env, es.drop_last(), tr) {
            Some((r1, env1, emits1, tr1)) => match r1 {
                Err(_) => Some((r1, env1, emits1, tr1)),
                Ok(vs) => match eval_expr_m(env1, es.last(), tr1) {
                    Some((o2, tr2)) => match o2.res {
                        Ok(v) => Some((Ok(vs.push(v)), o2.env, emits1 + o2.emits, tr2)),
                        Err(er) => Some((Err(er), o2.env, emits1 + o2.emits, tr2)),
                    },
                    None => None,
                },
            },
            None => None,
        }
    }
}

/// Evaluates the statements in order; the program's result is the value of
/// the last statement, and a program with no statements is the well-defined
/// empty-program error.
pub open spec fn eval_stmts_m(
    env: Map<Seq<u8>, ValueModel>,
    ss: Seq<ExprModel>,
    tr: Seq<OracleAnswer>,
) -> Option<(EvalOutcome, Seq<OracleAnswer>)>
    decreases ss,
{
    if ss.len() == 0 {
        Some((EvalOutcome { res: Err(ErrorModel::EmptyProgram), env, emits: Seq::empty() }, tr))
    } else if ss.len() == 1 {
        eval_expr_m(env, ss.last(), tr)
    } else {
        match eval_stmts_m(env, ss.drop_last(), tr) {
            Some((o1, tr1)) => match o1.res {
                Err(_) => Some((o1, tr1)),
                Ok(_) => match eval_expr_m(o1.env, ss.last(), tr1) {
                    Some((o2, tr2)) => Some(
                        (
                            EvalOutcome {
                                res: o2.res,
                                env: o2.env,
                                emits: o1.emits + o2.emits,
                            },
                            tr2,
                        ),
                    ),
                    None => None,
                },
            },
            None => None,
        }
    }
}

/// The environment every evaluation starts from: the native-function table,
/// holding `print`.
pub open spec fn initial_env() -> Map<Seq<u8>, ValueModel> {
    Map::empty().insert(print_name(), ValueModel::Function(NativeFn::Print))
}

/// What running a whole parsed program means.
pub open spec fn eval_prog_m(ss: Seq<ExprModel>, tr: Seq<OracleAnswer>) -> Option<
    (EvalOutcome, Seq<OracleAnswer>),
> {
    eval_stmts_m(initial_env(), ss, tr)
}

// Answers beyond the ones a run consumes do not change it: appending to the
// trace appends to the leftover. These lemmas let a caller splice the traces
// of consecutive sub-evaluations into one.

pub proof fn lemma_render_extend(v: ValueModel, tr: Seq<OracleAnswer>, ext: Seq<OracleAnswer>)
    ensures
        render_m(v, tr) is Some ==> render_m(v, tr + ext) == Some(
            (render_m(v, tr)->Some_0.0, render_m(v, tr)->Some_0.1 + ext),
        ),
    decreases v,
{
    match v {
        ValueModel::Number(_) => {
            if render_m(v, tr) is Some {
                assert((tr + ext)[0] == tr[0]);
                assert((tr + ext).drop_first() =~= tr.drop_first() + ext);
            }
        },
        ValueModel::List(vs) => {
            lemma_render_items_extend(vs, tr, ext);
        },
        _ => {},
    }
}

pub proof fn lemma_render_items_extend(
    vs: Seq<ValueModel>,
    tr: Seq<OracleAnswer>,
    ext: Seq<OracleAnswer>,
)
    ensures
        render_items_m(vs, tr) is Some ==> render_items_m(vs, tr + ext) == Some(
            (render_items_m(vs, tr)->Some_0.0, render_items_m(vs, tr)->Some_0.1 + ext),
        ),
    decreases vs,
{
    if vs.len() > 0 {
        lemma_render_items_extend(vs.drop_last(), tr, ext);
        if render_items_m(vs.drop_last(), tr) is Some {
            let tr1 = render_items_m(vs.drop_last(), tr)->Some_0.1;
            lemma_render_extend(vs.last(), tr1, ext);
        }
    }
}

pub proof fn lemma_print_extend(
    vs: Seq<ValueModel>,
    tr: Seq<OracleAnswer>,
    ext: Seq<OracleAnswer>,
)
    ensures
        print_m(vs, tr) is Some ==> print_m(vs, tr + ext) == Some(
            (print_m(vs, tr)->Some_0.0, print_m(vs, tr)->Some_0.1 + ext),
        ),
    decreases vs,
{
    if vs.len() > 0 {
        lemma_print_extend(vs.drop_last(), tr, ext);
        if print_m(vs.drop_last(), tr) is Some {
            let tr1 = print_m(vs.drop_last(), tr)->Some_0.1;
            lemma_render_extend(vs.last(), tr1, ext);
        }
    }
}

pub proof fn lemma_bin_tail_extend(
    op: BinOp,
    v1: ValueModel,
    v2: ValueModel,
    tr: Seq<OracleAnswer>,
    ext: Seq<OracleAnswer>,
)
    ensures
        bin_tail_m(op, v1, v2, tr) is Some ==> bin_tail_m(op, v1, v2, tr + ext) == Some(
            (bin_tail_m(op, v1, v2, tr)->Some_0.0, bin_tail_m(op, v1, v2, tr)->Some_0.1 + ext),
        ),
{
    if bin_tail_m(op, v1, v2, tr) is Some {
        if tr.len() > 0 {
            assert((tr + ext)[0] == tr[0]);
            assert((tr + ext).drop_first() =~= tr.drop_first() + ext);
        }
    }
}

pub proof fn lemma_eval_extend(
    env: Map<Seq<u8>, ValueModel>,
    e: ExprModel,
    tr: Seq<OracleAnswer>,
    ext: Seq<OracleAnswer>,
)
    ensures
        eval_expr_m(env, e, tr) is Some ==> eval_expr_m(env, e, tr + ext) == Some(
            (eval_expr_m(env, e, tr)->Some_0.0, eval_expr_m(env, e, tr)->Some_0.1 + ext),
        ),
    decreases e,
{
    match e.node {
        NodeModel::Number(_) => {
            if eval_expr_m(env, e, tr) is Some {
                assert((tr + ext)[0] == tr[0]);
                assert((tr + ext).drop_first() =~= tr.drop_first() + ext);
            }
        },
        NodeModel::Assign(_, rhs) => {
            lemma_eval_extend(env, *rhs, tr, ext);
        },
        NodeModel::Bin(op, a, b) => {
            lemma_eval_extend(env, *a, tr, ext);
            if eval_expr_m(env, *a, tr) is Some {
                let (o1, tr1) = eval_expr_m(env, *a, tr)->Some_0;
                if o1.res is Ok {
                    lemma_eval_extend(o1.env, *b, tr1, ext);
                    if eval_expr_m(o1.env, *b, tr1) is Some {
                        let (o2, tr2) = eval_expr_m(o1.env, *b, tr1)->Some_0;
                        if o2.res is Ok {
                            lemma_bin_tail_extend(
                                op,
                                o1.res->Ok_0,
                                o2.res->Ok_0,
                                tr2,
                                ext,
                            );
                        }
                    }
                }
            }
        },
        NodeModel::Return(inner) => {
            lemma_eval_extend(env, *inner, tr, ext);
            if eval_expr_m(env, *inner, tr) is Some {
                let (o1, tr1) = eval_expr_m(env, *inner, tr)->Some_0;
                if o1.res is Ok {
                    lemma_render_extend(o1.res->Ok_0, tr1, ext);
                }
            }
        },
        NodeModel::Function(name, arg) => {
            lemma_eval_extend(env, *arg, tr, ext);
            if eval_expr_m(env, *arg, tr) is Some {
                let (o1, tr1) = eval_expr_m(env, *arg, tr)->Some_0;
                if o1.res is Ok {
                    lemma_print_extend(seq![o1.res->Ok_0], tr1, ext);
                }
            }
        },
        NodeModel::List(es) => {
            lemma_elems_extend(env, es, tr, ext);
        },
        _ => {},
    }
}

pub proof fn lemma_elems_extend(
    env: Map<Seq<u8>, ValueModel>,
    es: Seq<ExprModel>,
    tr: Seq<OracleAnswer>,
    ext: Seq<OracleAnswer>,
)
    ensures
        eval_elems_m(env, es, tr) is Some ==> eval_elems_m(env, es, tr + ext) == Some(
            (
                eval_elems_m(env, es, tr)->Some_0.0,
                eval_elems_m(env, es, tr)->Some_0.1,
                eval_elems_m(env, es, tr)->Some_0.2,
                eval_elems_m(env, es, tr)->Some_0.3 + ext,
            ),
        ),
    decreases es,
{
    if es.len() > 0 {
        lemma_elems_extend(env, es.drop_last(), tr, ext);
        if eval_elems_m(env, es.drop_last(), tr) is Some {
            let (r1, env1, emits1, tr1) = eval_elems_m(env, es.drop_last(), tr)->Some_0;
            if r1 is Ok {
                lemma_eval_extend(env1, es.last(), tr1, ext);
            }
        }
    }
}

pub proof fn lemma_stmts_extend(
    env: Map<Seq<u8>, ValueModel>,
    ss: Seq<ExprModel>,
    tr: Seq<OracleAnswer>,
    ext: Seq<OracleAnswer>,
)
    ensures
        eval_stmts_m(env, ss, tr) is Some ==> eval_stmts_m(env, ss, tr + ext) == Some(
            (eval_stmts_m(env, ss, tr)->Some_0.0, eval_stmts_m(env, ss, tr)->Some_0.1 + ext),
        ),
    decreases ss,
{
    if ss.len() == 1 {
        lemma_eval_extend(env, ss.last(), tr, ext);
    } else if ss.len() > 1 {
        lemma_stmts_extend(env, ss.drop_last(), tr, ext);
        if eval_stmts_m(env, ss.drop_last(), tr) is Some {
            let (o1, tr1) = eval_stmts_m(env, ss.drop_last(), tr)->Some_0;
            if o1.res is Ok {
                lemma_eval_extend(o1.env, ss.last(), tr1, ext);
            }
        }
    }
}

// An error at some element or statement decides the whole run: whatever
// follows the failing position is never reached.

pub proof fn lemma_elems_error_absorbs(
    env: Map<Seq<u8>, ValueModel>,
    es: Seq<ExprModel>,
    k: int,
    tr: Seq<OracleAnswer>,
)
    requires
        0 <= k <= es.len(),
        eval_elems_m(env, es.take(k), tr) is Some,
        eval_elems_m(env, es.take(k), tr)->Some_0.0 is Err,
    ensures
        eval_elems_m(env, es, tr) == eval_elems_m(env, es.take(k), tr),
    decreases es.len(),
{
    if k == es.len() {
        assert(es.take(k) =~= es);
    } else {
        assert(es.drop_last().take(k) =~= es.take(k));
        lemma_elems_error_absorbs(env, es.drop_last(), k, tr);
    }
}

/// Chains two "the vector only grew" facts and splits the combined growth.
pub proof fn lemma_prefix_chain<T>(l0: Seq<T>, l1: Seq<T>, l2: Seq<T>)
    requires
        l0.len() <= l1.len() <= l2.len(),
        l1.take(l0.len() as int) == l0,
        l2.take(l1.len() as int) == l1,
    ensures
        l2.take(l0.len() as int) == l0,
        l2.skip(l0.len() as int) == l1.skip(l0.len() as int) + l2.skip(l1.len() as int),
{
    let n0 = l0.len() as int;
    let n1 = l1.len() as int;
    assert forall|i: int| 0 <= i < n1 implies l2[i] == l1[i] by {
        assert(l2.take(n1)[i] == l2[i]);
    }
    assert forall|i: int| 0 <= i < n0 implies l1[i] == l0[i] by {
        assert(l1.take(n0)[i] == l1[i]);
    }
    assert(l2.take(n0) =~= l0);
    assert(l2.skip(n0) =~= l1.skip(n0) + l2.skip(n1));
}

pub proof fn lemma_stmts_error_absorbs(
    env: Map<Seq<u8>, ValueModel>,
    ss: Seq<ExprModel>,
    k: int,
    tr: Seq<OracleAnswer>,
)
    requires
        1 <= k <= ss.len(),
        eval_stmts_m(env, ss.take(k), tr) is Some,
        eval_stmts_m(env, ss.take(k), tr)->Some_0.0.res is Err,
    ensures
        eval_stmts_m(env, ss, tr) == eval_stmts_m(env, ss.take(k), tr),
    decreases ss.len(),
{
    if k == ss.len() {
        assert(ss.take(k) =~= ss);
    } else {
        assert(ss.drop_last().take(k) =~= ss.take(k));
        lemma_stmts_error_absorbs(env, ss.drop_last(), k, tr);
    }
}

/// Renders one value for the diagnostic sink; the returned trace holds the
/// number renderings the capability produced, in order.
pub fn render_value<N: NumberOps>(v: &DataType, ops: &N) -> (r: (Vec<u8>, Ghost<
    Seq<OracleAnswer>,
>))
    ensures
        render_m(value_view(*v), r.1@) == Some((r.0@, Seq::<OracleAnswer>::empty())),
    decreases value_size(*v),
{
    match v {
        DataType::Nothing => {
            let mut b: Vec<u8> = Vec::new();
            b.push(110);
            b.push(111);
            b.push(110);
            b.push(101);
            proof {
                assert(b@ =~= seq![110u8, 111u8, 110u8, 101u8]);
            }
            (b, Ghost(Seq::empty()))
        },
        DataType::Number(bits) => {
            let line = ops.num_render(*bits);
            let ghost tr = seq![OracleAnswer::Render(line@)];
            proof {
                assert(tr.drop_first() =~= Seq::<OracleAnswer>::empty());
            }
            (line, Ghost(tr))
        },
        DataType::String(s) => {
            let mut b: Vec<u8> = Vec::new();
            b.push(34);
            let mut sc = bytes_dup(s);
            b.append(&mut sc);
            b.push(34);
            proof {
                assert(b@ =~= seq![34u8] + s@ + seq![34u8]);
            }
            (b, Ghost(Seq::empty()))
        },
        DataType::Function(_) => {
            let mut b: Vec<u8> = Vec::new();
            b.push(102);
            b.push(110);
            proof {
                assert(b@ =~= seq![102u8, 110u8]);
            }
            (b, Ghost(Seq::empty()))
        },
        DataType::List(vs) => {
            let mut b: Vec<u8> = Vec::new();
            b.push(91);
            let ghost mut body: Seq<u8> = Seq::empty();
            let ghost mut tr: Seq<OracleAnswer> = Seq::empty();
            let mut i: usize = 0;
            proof {
                assert(values_view(vs@.take(0)) =~= Seq::<ValueModel>::empty());
            }
            while i < vs.len()
                invariant
                    i <= vs@.len(),
                    value_size(*v) == 1 + values_size(vs@),
                    render_items_m(values_view(vs@.take(i as int)), tr) == Some(
                        (body, Seq::<OracleAnswer>::empty()),
                    ),
                    b@ == seq![91u8] + body,
                decreases vs@.len() - i,
            {
                proof {
                    lemma_values_size_index(vs@, i as int);
                }
                let (c, gtr) = render_value(&vs[i], ops);
                proof {
                    lemma_render_items_extend(values_view(vs@.take(i as int)), tr, gtr@);
                    assert(Seq::<OracleAnswer>::empty() + gtr@ =~= gtr@);
                    assert(vs@.take(i as int + 1).drop_last() =~= vs@.take(i as int));
                    assert(vs@.take(i as int + 1).last() == vs@[i as int]);
                    lemma_values_view(vs@.take(i as int + 1));
                }
                if i > 0 {
                    b.push(44);
                    b.push(32);
                }
                let mut cc = c;
                let ghost cbytes = cc@;
                b.append(&mut cc);
                proof {
                    if i == 0 {
                        assert(values_view(vs@.take(0)) =~= Seq::<ValueModel>::empty());
                        assert(body =~= Seq::<u8>::empty());
                    }
                    let newbody = if i == 0 {
                        cbytes
                    } else {
                        body + seq![44u8, 32u8] + cbytes
                    };
                    assert(b@ =~= seq![91u8] + newbody);
                    body = newbody;
                    tr = tr + gtr@;
                    let vsx = values_view(vs@.take(i as int));
                    let vsy = values_view(vs@.take(i as int + 1));
                    assert(vsy == vsx.push(value_view(vs@[i as int])));
                    assert(vsy.drop_last() =~= vsx);
                    assert(vsy.last() == value_view(vs@[i as int]));
                    assert(render_items_m(vsy, tr) == Some(
                        (body, Seq::<OracleAnswer>::empty()),
                    ));
                }
                i += 1;
            }
            b.push(93);
            proof {
                assert(vs@.take(vs@.len() as int) =~= vs@);
                assert(b@ =~= seq![91u8] + body + seq![93u8]);
            }
            (b, Ghost(tr))
        },
    }
}

/// The built-in diagnostic sink: renders each argument as one emitted
/// line and yields the unit value.
pub fn q_print<N: NumberOps>(args: &Vec<DataType>, ops: &N, out: &mut Vec<Vec<u8>>) -> (r: (
    Result<DataType, QueryError>,
    Ghost<Seq<OracleAnswer>>,
))
    ensures
        final(out)@.len() >= old(out)@.len(),
        lines_view(final(out)@).take(old(out)@.len() as int) == lines_view(old(out)@),
        print_m(values_view(args@), r.1@) == Some(
            (
                lines_view(final(out)@).skip(old(out)@.len() as int),
                Seq::<OracleAnswer>::empty(),
            ),
        ),
        r.0 == Ok::<DataType, QueryError>(DataType::Nothing),
{
    let ghost n0 = out@.len() as int;
    let ghost mut tr: Seq<OracleAnswer> = Seq::empty();
    let mut i: usize = 0;
    proof {
        assert(values_view(args@.take(0)) =~= Seq::<ValueModel>::empty());
        assert(lines_view(out@).skip(n0) =~= Seq::<Seq<u8>>::empty());
        assert(lines_view(out@).take(n0) =~= lines_view(out@));
    }
    while i < args.len()
        invariant
            i <= args@.len(),
            out@.len() >= n0,
            n0 == old(out)@.len(),
            lines_view(out@).take(n0) == lines_view(old(out)@),
            print_m(values_view(args@.take(i as int)), tr) == Some(
                (lines_view(out@).skip(n0), Seq::<OracleAnswer>::empty()),
            ),
        decreases args@.len() - i,
    {
        let (line, gtr) = render_value(&args[i], ops);
        proof {
            lemma_print_extend(values_view(args@.take(i as int)), tr, gtr@);
            assert(Seq::<OracleAnswer>::empty() + gtr@ =~= gtr@);
            assert(args@.take(i as int + 1).drop_last() =~= args@.take(i as int));
            assert(args@.take(i as int + 1).last() == args@[i as int]);
        }
        let ghost before = out@;
        out.push(line);
        proof {
            tr = tr + gtr@;
            assert(lines_view(out@) =~= lines_view(before).push(line@));
            assert(lines_view(out@).take(n0) =~= lines_view(before).take(n0));
            assert(lines_view(out@).skip(n0) =~= lines_view(before).skip(n0).push(line@));
            let vsx = values_view(args@.take(i as int));
            let vsy = values_view(args@.take(i as int + 1));
            assert(vsy == vsx.push(value_view(args@[i as int])));
            assert(vsy.drop_last() =~= vsx);
            assert(vsy.last() == value_view(args@[i as int]));
            assert(print_m(vsy, tr) == Some(
                (lines_view(out@).skip(n0), Seq::<OracleAnswer>::empty()),
            ));
        }
        i += 1;
    }
    proof {
        assert(args@.take(args@.len() as int) =~= args@);
    }
    (Ok(DataType::Nothing), Ghost(tr))
}

/// An arithmetic operator of the executable evaluator.
#[derive(Debug, Clone, Copy, PartialEq, Eq, Structural)]
pub enum OpKind {
    Add,
    Sub,
    Mul,
    Div,
    Mod,
}

pub open spec fn op_model(k: OpKind) -> BinOp {
    match k {
        OpKind::Add => BinOp::Add,
        OpKind::Sub => BinOp::Sub,
        OpKind::Mul => BinOp::Mul,
        OpKind::Div => BinOp::Div,
        OpKind::Mod => BinOp::Mod,
    }
}

/// Applies one arithmetic operator to two already-evaluated operands.
fn apply_binop<N: NumberOps>(op: OpKind, v1: &DataType, v2: &DataType, ops: &N) -> (r: (
    Result<DataType, QueryError>,
    Ghost<Seq<OracleAnswer>>,
))
    ensures
        bin_tail_m(op_model(op), value_view(*v1), value_view(*v2), r.1@) == Some(
            (result_view(r.0), Seq::<OracleAnswer>::empty()),
        ),
{
    let sym: u8 = match op {
        OpKind::Add => 43,
        OpKind::Sub => 45,
        OpKind::Mul => 42,
        OpKind::Div => 47,
        OpKind::Mod => 37,
    };
    proof {
        assert(sym == op_sym(op_model(op)));
    }
    match (v1, v2) {
        (DataType::Number(xr), DataType::Number(yr)) => {
            let x = *xr;
            let y = *yr;
            let divlike = match op {
                OpKind::Div => true,
                OpKind::Mod => true,
                _ => false,
            };
            if divlike && is_zero_bits(y) {
                let mut m: Vec<u8> = Vec::new();
                m.push(sym);
                proof {
                    assert(m@ =~= seq![op_sym(op_model(op))]);
                }
                (Err(QueryError::MathError(m)), Ghost(Seq::empty()))
            } else {
                let bits = match op {
                    OpKind::Add => ops.num_add(x, y),
                    OpKind::Sub => ops.num_sub(x, y),
                    OpKind::Mul => ops.num_mul(x, y),
                    OpKind::Div => ops.num_div(x, y),
                    OpKind::Mod => ops.num_rem(x, y),
                };
                let ghost tr = seq![OracleAnswer::Arith(bits)];
                proof {
                    assert(tr.drop_first() =~= Seq::<OracleAnswer>::empty());
                }
                (Ok(DataType::Number(bits)), Ghost(tr))
            }
        },
        _ => {
            let mut m: Vec<u8> = Vec::new();
            m.push(sym);
            proof {
                assert(m@ =~= seq![op_sym(op_model(op))]);
            }
            (Err(QueryError::InvalidType(m)), Ghost(Seq::empty()))
        },
    }
}

/// Evaluates one binary arithmetic node: left operand, right operand, then
/// the arithmetic tail.
fn eval_bin<N: NumberOps>(
    env: &mut Env,
    op: OpKind,
    a: &Expr,
    b: &Expr,
    ops: &N,
    out: &mut Vec<Vec<u8>>,
    em: Ghost<ExprModel>,
) -> (r: (Result<DataType, QueryError>, Ghost<Seq<OracleAnswer>>))
    requires
        em@.node == NodeModel::Bin(
            op_model(op),
            Box::new(expr_view(*a)),
            Box::new(expr_view(*b)),
        ),
    ensures
        final(out)@.len() >= old(out)@.len(),
        lines_view(final(out)@).take(old(out)@.len() as int) == lines_view(old(out)@),
        eval_expr_m(old(env)@, em@, r.1@) == Some(
            (
                EvalOutcome {
                    res: result_view(r.0),
                    env: final(env)@,
                    emits: lines_view(final(out)@).skip(old(out)@.len() as int),
                },
                Seq::<OracleAnswer>::empty(),
            ),
        ),
    decreases expr_size(*a) + expr_size(*b),
{
    let ghost env0 = env@;
    let ghost out0 = out@;
    let ghost n0 = out@.len() as int;
    let (r1, t1) = interpret_expr(env, a, ops, out);
    let v1 = match r1 {
        Err(er) => {
            return (Err(er), t1);
        },
        Ok(v) => v,
    };
    let ghost env1 = env@;
    let ghost mid = out@;
    let (r2, t2) = interpret_expr(env, b, ops, out);
    let v2 = match r2 {
        Err(er) => {
            proof {
                lemma_eval_extend(env0, expr_view(*a), t1@, t2@);
                assert(Seq::<OracleAnswer>::empty() + t2@ =~= t2@);
                lemma_prefix_chain(lines_view(out0), lines_view(mid), lines_view(out@));
            }
            return (Err(er), Ghost(t1@ + t2@));
        },
        Ok(v) => v,
    };
    let (r3, t3) = apply_binop(op, &v1, &v2, ops);
    let ghost tr = t1@ + t2@ + t3@;
    proof {
        lemma_eval_extend(env0, expr_view(*a), t1@, t2@ + t3@);
        assert(t1@ + (t2@ + t3@) =~= tr);
        assert(Seq::<OracleAnswer>::empty() + (t2@ + t3@) =~= t2@ + t3@);
        lemma_eval_extend(env1, expr_view(*b), t2@, t3@);
        assert(Seq::<OracleAnswer>::empty() + t3@ =~= t3@);
        lemma_prefix_chain(lines_view(out0), lines_view(mid), lines_view(out@));
    }
    (r3, Ghost(tr))
}

/// Evaluates one expression against the environment, producing its value
/// or the first error, appending any diagnostic lines to `out`. The ghost
/// result is the trace of capability answers the run consumed: running the
/// specification on that trace gives exactly this result.
pub fn interpret_expr<N: NumberOps>(
    env: &mut Env,
    e: &Expr,
    ops: &N,
    out: &mut Vec<Vec<u8>>,
) -> (r: (Result<DataType, QueryError>, Ghost<Seq<OracleAnswer>>))
    ensures
        final(out)@.len() >= old(out)@.len(),
        lines_view(final(out)@).take(old(out)@.len() as int) == lines_view(old(out)@),
        eval_expr_m(old(env)@, expr_view(*e), r.1@) == Some(
            (
                EvalOutcome {
                    res: result_view(r.0),
                    env: final(env)@,
                    emits: lines_view(final(out)@).skip(old(out)@.len() as int),
                },
                Seq::<OracleAnswer>::empty(),
            ),
        ),
    decreases expr_size(*e),
{
    let ghost env0 = env@;
    let ghost out0 = out@;
    let ghost n0 = out@.len() as int;
    proof {
        assert(lines_view(out@).take(n0) =~= lines_view(out0));
        assert(lines_view(out@).skip(n0) =~= Seq::<Seq<u8>>::empty());
    }
    match &e.node {
        Expr_::Add(a, b) => eval_bin(env, OpKind::Add, a, b, ops, out, Ghost(expr_view(*e))),
        Expr_::Sub(a, b) => eval_bin(env, OpKind::Sub, a, b, ops, out, Ghost(expr_view(*e))),
        Expr_::Mul(a, b) => eval_bin(env, OpKind::Mul, a, b, ops, out, Ghost(expr_view(*e))),
        Expr_::Div(a, b) => eval_bin(env, OpKind::Div, a, b, ops, out, Ghost(expr_view(*e))),
        Expr_::Mod(a, b) => eval_bin(env, OpKind::Mod, a, b, ops, out, Ghost(expr_view(*e))),
        Expr_::Number(txt) => {
            match ops.num_parse(txt) {
                Some(bits) => {
                    let ghost tr = seq![OracleAnswer::Parse(Some(bits))];
                    proof {
                        assert(tr.drop_first() =~= Seq::<OracleAnswer>::empty());
                    }
                    (Ok(DataType::Number(bits)), Ghost(tr))
                },
                Option::None => {
                    let ghost tr = seq![OracleAnswer::Parse(Option::<u64>::None)];
                    proof {
                        assert(tr.drop_first() =~= Seq::<OracleAnswer>::empty());
                    }
                    (Err(QueryError::LexingError), Ghost(tr))
                },
            }
        },
        Expr_::String(s) => (Ok(DataType::String(bytes_dup(s))), Ghost(Seq::empty())),
        Expr_::Var(name) => {
            match env.get(name) {
                Some(v) => (Ok(v), Ghost(Seq::empty())),
                Option::None => (
                    Err(QueryError::VariableNotDefined(bytes_dup(name))),
                    Ghost(Seq::empty()),
                ),
            }
        },
        Expr_::Assign(name, rhs) => {
            let (r1, t1) = interpret_expr(env, rhs, ops, out);
            match r1 {
                Err(er) => (Err(er), t1),
                Ok(v) => {
                    let key = bytes_dup(name);
                    let vc = v.duplicate();
                    env.insert(key, vc);
                    (Ok(v), t1)
                },
            }
        },
        Expr_::Return(inner) => {
            let (r1, t1) = interpret_expr(env, inner, ops, out);
            match r1 {
                Err(er) => (Err(er), t1),
                Ok(v) => {
                    let ghost mid = out@;
                    let ghost env1 = env@;
                    let (line, t2) = render_value(&v, ops);
                    out.push(line);
                    let ghost tr = t1@ + t2@;
                    proof {
                        lemma_eval_extend(env0, expr_view(**inner), t1@, t2@);
                        assert(Seq::<OracleAnswer>::empty() + t2@ =~= t2@);
                        assert(lines_view(out@) =~= lines_view(mid).push(line@));
                        assert(lines_view(out@).take(n0) =~= lines_view(mid).take(n0));
                        assert(lines_view(out@).skip(n0) =~= lines_view(mid).skip(n0).push(
                            line@,
                        ));
                    }
                    (Ok(v), Ghost(tr))
                },
            }
        },
        Expr_::Function(name, arg) => {
            let (r1, t1) = interpret_expr(env, arg, ops, out);
            match r1 {
                Err(er) => (Err(er), t1),
                Ok(v) => {
                    match env.get(name) {
                        Option::None => (
                            Err(QueryError::VariableNotDefined(bytes_dup(name))),
                            t1,
                        ),
                        Some(DataType::Function(NativeFn::Print)) => {
                            let ghost mid = out@;
                            let ghost env1 = env@;
                            let mut args: Vec<DataType> = Vec::new();
                            args.push(v);
                            let (pr, t2) = q_print(&args, ops, out);
                            let ghost tr = t1@ + t2@;
                            proof {
                                lemma_eval_extend(env0, expr_view(**arg), t1@, t2@);
                                assert(Seq::<OracleAnswer>::empty() + t2@ =~= t2@);
                                assert(args@.drop_last() =~= Seq::<DataType>::empty());
                                assert(values_view(args@.drop_last())
                                    =~= Seq::<ValueModel>::empty());
                                assert(values_view(args@) =~= seq![
                                    value_view(args@.last()),
                                ]);
                                lemma_prefix_chain(
                                    lines_view(out0),
                                    lines_view(mid),
                                    lines_view(out@),
                                );
                            }
                            (pr, Ghost(tr))
                        },
                        Some(_) => (Err(QueryError::InvalidType(bytes_dup(name))), t1),
                    }
                },
            }
        },
        Expr_::List(es) => {
            let mut l: Vec<DataType> = Vec::new();
            let ghost mut tr: Seq<OracleAnswer> = Seq::empty();
            let mut i: usize = 0;
            proof {
                assert(exprs_view(es@.take(0)) =~= Seq::<ExprModel>::empty());
                assert(values_view(l@) =~= Seq::<ValueModel>::empty());
            }
            while i < es.len()
                invariant
                    i <= es@.len(),
                    env0 == old(env)@,
                    out0 == old(out)@,
                    expr_size(*e) == 1 + exprs_size(es@),
                    expr_view(*e).node == NodeModel::List(exprs_view(es@)),
                    n0 == out0.len(),
                    out@.len() >= n0,
                    lines_view(out@).take(n0) == lines_view(out0),
                    eval_elems_m(env0, exprs_view(es@.take(i as int)), tr) == Some(
                        (
                            Ok::<Seq<ValueModel>, ErrorModel>(values_view(l@)),
                            env@,
                            lines_view(out@).skip(n0),
                            Seq::<OracleAnswer>::empty(),
                        ),
                    ),
                decreases es@.len() - i,
            {
                proof {
                    lemma_exprs_size_index(es@, i as int);
                }
                let ghost mid = out@;
                let ghost env_mid = env@;
                let (r1, t1) = interpret_expr(env, &es[i], ops, out);
                proof {
                    lemma_elems_extend(env0, exprs_view(es@.take(i as int)), tr, t1@);
                    assert(Seq::<OracleAnswer>::empty() + t1@ =~= t1@);
                    assert(es@.take(i as int + 1).drop_last() =~= es@.take(i as int));
                    assert(es@.take(i as int + 1).last() == es@[i as int]);
                    let ey = exprs_view(es@.take(i as int + 1));
                    assert(ey.drop_last() =~= exprs_view(es@.take(i as int)));
                    assert(ey.last() == expr_view(es@[i as int]));
                    lemma_prefix_chain(lines_view(out0), lines_view(mid), lines_view(out@));
                    tr = tr + t1@;
                }
                let ghost elemres: Result<Seq<ValueModel>, ErrorModel> = match result_view(r1) {
                    Ok(vm) => Ok(values_view(l@).push(vm)),
                    Err(em) => Err(em),
                };
                proof {
                    assert(eval_elems_m(env0, exprs_view(es@.take(i as int + 1)), tr) == Some(
                        (
                            elemres,
                            env@,
                            lines_view(out@).skip(n0),
                            Seq::<OracleAnswer>::empty(),
                        ),
                    ));
                }
                match r1 {
                    Err(er) => {
                        proof {
                            lemma_exprs_view(es@);
                            lemma_exprs_view(es@.take(i as int + 1));
                            assert(exprs_view(es@).take(i as int + 1) =~= exprs_view(
                                es@.take(i as int + 1),
                            ));
                            lemma_elems_error_absorbs(
                                env0,
                                exprs_view(es@),
                                i as int + 1,
                                tr,
                            );
                        }
                        return (Err(er), Ghost(tr));
                    },
                    Ok(v) => {
                        let ghost lprev = l@;
                        l.push(v);
                        proof {
                            assert(l@.drop_last() =~= lprev);
                            assert(values_view(l@) == values_view(lprev).push(
                                value_view(l@.last()),
                            ));
                        }
                    },
                }
                i += 1;
            }
            proof {
                assert(es@.take(es@.len() as int) =~= es@);
            }
            (Ok(DataType::List(l)), Ghost(tr))
        },
    }
}

/// The environment an evaluation starts from: freshly built, seeded with
/// the native-function table.
fn get_env() -> (e: Env)
    ensures
        e@ == initial_env(),
{
    let mut e = Env::new();
    fill_env(&mut e);
    e
}

/// Runs a parsed program: a fresh environment, the statements in order,
/// the last statement's value as the result; a program with no statements
/// reports the empty-program error instead of crashing.
pub fn interpret_prog<N: NumberOps>(p: &Program, ops: &N, out: &mut Vec<Vec<u8>>) -> (r: Result<
    DataType,
    QueryError,
>)
    ensures
        final(out)@.len() >= old(out)@.len(),
        lines_view(final(out)@).take(old(out)@.len() as int) == lines_view(old(out)@),
        exists|tr: Seq<OracleAnswer>, envf: Map<Seq<u8>, ValueModel>|
            eval_prog_m(p@, tr) == Some(
                (
                    EvalOutcome {
                        res: result_view(r),
                        env: envf,
                        emits: lines_view(final(out)@).skip(old(out)@.len() as int),
                    },
                    Seq::<OracleAnswer>::empty(),
                ),
            ),
{
    let ghost out0 = out@;
    let ghost n0 = out@.len() as int;
    proof {
        assert(lines_view(out@).take(n0) =~= lines_view(out0));
        assert(lines_view(out@).skip(n0) =~= Seq::<Seq<u8>>::empty());
    }
    let mut env = get_env();
    if p.stmts.len() == 0 {
        proof {
            assert(exprs_view(p.stmts@) =~= Seq::<ExprModel>::empty());
            let tr = Seq::<OracleAnswer>::empty();
            assert(eval_prog_m(p@, tr) == Some(
                (
                    EvalOutcome {
                        res: Err::<ValueModel, ErrorModel>(ErrorModel::EmptyProgram),
                        env: initial_env(),
                        emits: Seq::empty(),
                    },
                    Seq::<OracleAnswer>::empty(),
                ),
            ));
        }
        return Err(QueryError::EmptyProgram);
    }
    let ghost ss = exprs_view(p.stmts@);
    let ghost mut tr: Seq<OracleAnswer> = Seq::empty();
    proof {
        lemma_exprs_view(p.stmts@);
    }
    let mut i: usize = 0;
    let mut last: Result<DataType, QueryError> = Err(QueryError::EmptyProgram);
    while i < p.stmts.len()
        invariant
            0 <= i <= p.stmts@.len(),
            p.stmts@.len() > 0,
            ss == exprs_view(p.stmts@),
            ss.len() == p.stmts@.len(),
            forall|k: int| 0 <= k < ss.len() ==> ss[k] == expr_view(p.stmts@[k]),
            n0 == out0.len(),
            out0 == old(out)@,
            out@.len() >= n0,
            lines_view(out@).take(n0) == lines_view(out0),
            i > 0 ==> eval_stmts_m(initial_env(), ss.take(i as int), tr) == Some(
                (
                    EvalOutcome {
                        res: result_view(last),
                        env: env@,
                        emits: lines_view(out@).skip(n0),
                    },
                    Seq::<OracleAnswer>::empty(),
                ),
            ),
            i > 0 ==> result_view(last) is Ok,
            i == 0 ==> env@ == initial_env() && tr == Seq::<OracleAnswer>::empty()
                && out@ == out0,
        decreases p.stmts@.len() - i,
    {
        let ghost mid = out@;
        let ghost env_mid = env@;
        let (r1, t1) = interpret_expr(&mut env, &p.stmts[i], ops, out);
        proof {
            assert(ss.take(i as int + 1).drop_last() =~= ss.take(i as int));
            assert(ss.take(i as int + 1).last() == ss[i as int]);
            if i == 0 {
                assert(lines_view(mid).skip(n0) =~= Seq::<Seq<u8>>::empty());
                assert(Seq::<Seq<u8>>::empty() + lines_view(out@).skip(n0) =~= lines_view(
                    out@,
                ).skip(n0));
            } else {
                lemma_stmts_extend(initial_env(), ss.take(i as int), tr, t1@);
                assert(Seq::<OracleAnswer>::empty() + t1@ =~= t1@);
                lemma_prefix_chain(lines_view(out0), lines_view(mid), lines_view(out@));
            }
            tr = tr + t1@;
            if i == 0 {
                assert(tr =~= t1@);
                assert(mid.len() as int == n0);
            }
            assert(eval_stmts_m(initial_env(), ss.take(i as int + 1), tr) == Some(
                (
                    EvalOutcome {
                        res: result_view(r1),
                        env: env@,
                        emits: lines_view(out@).skip(n0),
                    },
                    Seq::<OracleAnswer>::empty(),
                ),
            ));
        }
        match r1 {
            Err(er) => {
                proof {
                    lemma_stmts_error_absorbs(initial_env(), ss, i as int + 1, tr);
                    assert(eval_prog_m(p@, tr) == Some(
                        (
                            EvalOutcome {
                                res: result_view(Err::<DataType, QueryError>(er)),
                                env: eval_stmts_m(initial_env(), ss, tr)->Some_0.0.env,
                                emits: lines_view(out@).skip(n0),
                            },
                            Seq::<OracleAnswer>::empty(),
                        ),
                    ));
                }
                return Err(er);
            },
            Ok(v) => {
                last = Ok(v);
            },
        }
        i += 1;
    }
    proof {
        assert(ss.take(ss.len() as int) =~= ss);
        assert(eval_prog_m(p@, tr) == Some(
            (
                EvalOutcome {
                    res: result_view(last),
                    env: eval_stmts_m(initial_env(), ss, tr)->Some_0.0.env,
                    emits: lines_view(out@).skip(n0),
                },
                Seq::<OracleAnswer>::empty(),
            ),
        ));
    }
    last
}

} // verus!
