use vstd::prelude::*;
use crate::ast::{BinOp, ExprModel, NodeModel, SpanM, op_sym};
use crate::interp::{EvalOutcome, OracleAnswer, bin_tail_m, eval_elems_m, eval_expr_m};
use crate::numbers::zero_bits;
use crate::values::{ErrorModel, ValueModel};

verus! {

// Laws of the engine, stated once and proved for every environment, every
// expression and every behaviour of the number capability.

/// Division and modulo by a zero-valued number fail with the math error
/// naming the operator, for any left operand; on a non-zero divisor the
/// same node yields a number (the capability's answer). No type error and
/// no other error kind can come out of the arithmetic tail of `/` or `%`
/// on two numbers.
pub proof fn law_division_by_zero(op: BinOp, x: u64, y: u64, tr: Seq<OracleAnswer>)
    requires
        op is Div || op is Mod,
    ensures
        zero_bits(y) ==> bin_tail_m(op, ValueModel::Number(x), ValueModel::Number(y), tr)
            == Some(
            (Err::<ValueModel, ErrorModel>(ErrorModel::Math(seq![op_sym(op)])), tr),
        ),
        !zero_bits(y) && tr.len() > 0 && tr[0] is Arith ==> bin_tail_m(
            op,
            ValueModel::Number(x),
            ValueModel::Number(y),
            tr,
        ) == Some(
            (Ok::<ValueModel, ErrorModel>(ValueModel::Number(tr[0]->Arith_0)), tr.drop_first()),
        ),
{
}

/// On two numbers the arithmetic tail can only fail one way: a zero
/// divisor under `/` or `%`, reported as the math error naming the
/// operator. `+`, `-` and `*` on numbers never fail, and numbers never
/// raise a type error.
pub proof fn law_math_error_needs_zero_divisor(op: BinOp, x: u64, y: u64, tr: Seq<OracleAnswer>)
    ensures
        ({
            let br = bin_tail_m(op, ValueModel::Number(x), ValueModel::Number(y), tr);
            br is Some && br->Some_0.0 is Err ==> (op is Div || op is Mod) && zero_bits(y)
                && br->Some_0.0->Err_0 == ErrorModel::Math(seq![op_sym(op)])
        }),
{
}

/// An expression with no division and no modulo anywhere inside it.
pub open spec fn no_div_mod(e: ExprModel) -> bool
    decreases e,
{
    match e.node {
        NodeModel::Bin(op, a, b) => !(op is Div) && !(op is Mod) && no_div_mod(*a) && no_div_mod(
            *b,
        ),
        NodeModel::Assign(_, r) => no_div_mod(*r),
        NodeModel::Function(_, a) => no_div_mod(*a),
        NodeModel::Return(r) => no_div_mod(*r),
        NodeModel::List(es) => no_div_mod_all(es),
        _ => true,
    }
}

pub open spec fn no_div_mod_all(es: Seq<ExprModel>) -> bool
    decreases es,
{
    if es.len() == 0 {
        true
    } else {
        no_div_mod_all(es.drop_last()) && no_div_mod(es.last())
    }
}

/// Only division and modulo can raise the math error: an expression free
/// of them never produces one, whatever the environment, the variables'
/// values, and the capability's answers.
pub proof fn law_math_error_only_div_mod(
    env: Map<Seq<u8>, ValueModel>,
    e: ExprModel,
    tr: Seq<OracleAnswer>,
)
    requires
        no_div_mod(e),
    ensures
        eval_expr_m(env, e, tr) matches Some(p) ==> !(p.0.res matches Err(er) && er is Math),
    decreases e,
{
    match e.node {
        NodeModel::Assign(_, rhs) => {
            law_math_error_only_div_mod(env, *rhs, tr);
        },
        NodeModel::Bin(op, a, b) => {
            law_math_error_only_div_mod(env, *a, tr);
            if eval_expr_m(env, *a, tr) is Some {
                let (o1, tr1) = eval_expr_m(env, *a, tr)->Some_0;
                if o1.res is Ok {
                    law_math_error_only_div_mod(o1.env, *b, tr1);
                }
            }
        },
        NodeModel::Return(inner) => {
            law_math_error_only_div_mod(env, *inner, tr);
        },
        NodeModel::Function(_, arg) => {
            law_math_error_only_div_mod(env, *arg, tr);
        },
        NodeModel::List(es) => {
            law_math_error_only_div_mod_elems(env, es, tr);
        },
        _ => {},
    }
}

pub proof fn law_math_error_only_div_mod_elems(
    env: Map<Seq<u8>, ValueModel>,
    es: Seq<ExprModel>,
    tr: Seq<OracleAnswer>,
)
    requires
        no_div_mod_all(es),
    ensures
        eval_elems_m(env, es, tr) matches Some(p) ==> !(p.0 matches Err(er) && er is Math),
    decreases es,
{
    if es.len() > 0 {
        law_math_error_only_div_mod_elems(env, es.drop_last(), tr);
        if eval_elems_m(env, es.drop_last(), tr) is Some {
            let (r1, env1, emits1, tr1) = eval_elems_m(env, es.drop_last(), tr)->Some_0;
            if r1 is Ok {
                law_math_error_only_div_mod(env1, es.last(), tr1);
            }
        }
    }
}

/// Write-then-read consistency: a successful assignment binds the name to
/// the assigned value in the resulting environment, and reading the name
/// back in that environment yields that very value, unchanged, with no
/// side effect.
pub proof fn law_assign_then_read(
    env: Map<Seq<u8>, ValueModel>,
    x: Seq<u8>,
    rhs: ExprModel,
    sp1: SpanM,
    sp2: SpanM,
    tr: Seq<OracleAnswer>,
    tr2: Seq<OracleAnswer>,
)
    ensures
        ({
            let ae = ExprModel { span: sp1, node: NodeModel::Assign(x, Box::new(rhs)) };
            let pr = eval_expr_m(env, ae, tr);
            pr is Some && pr->Some_0.0.res is Ok ==> {
                let o = pr->Some_0.0;
                let v = o.res->Ok_0;
                &&& o.env.contains_key(x)
                &&& o.env[x] == v
                &&& eval_expr_m(
                    o.env,
                    ExprModel { span: sp2, node: NodeModel::Var(x) },
                    tr2,
                ) == Some((EvalOutcome { res: Ok(v), env: o.env, emits: Seq::empty() }, tr2))
            }
        }),
{
}

/// Reading an identifier that was never bound fails with
/// variable-not-defined, naming it, and changes nothing.
pub proof fn law_read_unbound(
    env: Map<Seq<u8>, ValueModel>,
    x: Seq<u8>,
    sp: SpanM,
    tr: Seq<OracleAnswer>,
)
    requires
        !env.contains_key(x),
    ensures
        eval_expr_m(env, ExprModel { span: sp, node: NodeModel::Var(x) }, tr) == Some(
            (
                EvalOutcome {
                    res: Err::<ValueModel, ErrorModel>(ErrorModel::VariableNotDefined(x)),
                    env,
                    emits: Seq::empty(),
                },
                tr,
            ),
        ),
{
}

/// Calling a name decides its error by the binding: once the argument has
/// a value, an unbound callee fails with variable-not-defined and a callee
/// bound to anything but a function fails with invalid-type, each naming
/// the callee.
pub proof fn law_call_errors(
    env: Map<Seq<u8>, ValueModel>,
    name: Seq<u8>,
    arg: ExprModel,
    sp: SpanM,
    tr: Seq<OracleAnswer>,
)
    ensures
        ({
            let call = ExprModel { span: sp, node: NodeModel::Function(name, Box::new(arg)) };
            let pr = eval_expr_m(env, call, tr);
            let qr = eval_expr_m(env, arg, tr);
            pr is Some && qr is Some && qr->Some_0.0.res is Ok ==> {
                let p = pr->Some_0.0;
                let qo = qr->Some_0.0;
                &&& (!qo.env.contains_key(name) ==> p.res == Err::<ValueModel, ErrorModel>(
                    ErrorModel::VariableNotDefined(name),
                ))
                &&& (qo.env.contains_key(name) && !(qo.env[name] is Function) ==> p.res
                    == Err::<ValueModel, ErrorModel>(ErrorModel::InvalidType(name)))
            }
        }),
{
}

/// A list expression that succeeds holds exactly one value per element
/// expression, in their order of evaluation.
pub proof fn law_list_lengths(
    env: Map<Seq<u8>, ValueModel>,
    es: Seq<ExprModel>,
    tr: Seq<OracleAnswer>,
)
    ensures
        eval_elems_m(env, es, tr) is Some && eval_elems_m(env, es, tr)->Some_0.0 is Ok
            ==> eval_elems_m(env, es, tr)->Some_0.0->Ok_0.len() == es.len(),
    decreases es,
{
    if es.len() > 0 {
        law_list_lengths(env, es.drop_last(), tr);
    }
}

} // verus!
