//! A minimal expression-oriented scripting engine: a tokenizer, an
//! operator-precedence parser and a tree-walking evaluator over a mutable
//! variable environment. The pipeline is `query`: source text in, the last
//! statement's value (or the first error) out, with diagnostic lines
//! collected for the caller to emit.
//!
//! Numbers are IEEE-754 double bit patterns carried as `u64`; every
//! operation on them is injected through the `numbers::NumberOps`
//! capability, and the contracts hold for every answer it can give (see
//! `interp`).

pub mod ast;
pub mod bytes;
pub mod interp;
pub mod laws;
pub mod lexer;
pub mod numbers;
pub mod parser;
pub mod values;

use vstd::prelude::*;
use crate::interp::{EvalOutcome, OracleAnswer, eval_prog_m, interpret_prog};
use crate::lexer::{lex_m, tokenize};
use crate::numbers::NumberOps;
use crate::parser::{parse, parse_m};
use crate::values::{DataType, ErrorModel, QueryError, ValueModel, lines_view, result_view};
use vstd::string::StringSliceAdditionalSpecFns;

verus! {

/// What running a source text means: tokenize, parse, evaluate, in that
/// order; a lexing or parsing failure is reported before evaluation ever
/// starts. Yields the result, the emitted lines, and the unconsumed part
/// of the capability-answer trace.
pub open spec fn query_m(src: Seq<u8>, tr: Seq<OracleAnswer>) -> Option<
    (Result<ValueModel, ErrorModel>, Seq<Seq<u8>>, Seq<OracleAnswer>),
> {
    match lex_m(src, 0) {
        None => Some((Err(ErrorModel::Lexing), Seq::empty(), tr)),
        Some(toks) => match parse_m(toks) {
            None => Some((Err(ErrorModel::Parsing), Seq::empty(), tr)),
            Some(ss) => match eval_prog_m(ss, tr) {
                Some((o, rest)) => Some((o.res, o.emits, rest)),
                None => None,
            },
        },
    }
}

/// The engine's entry point: runs `code` and returns the last statement's
/// value or the first error. Lines for the diagnostic sink are appended to
/// `out`; `ops` is the host's number capability.
pub fn query<N: NumberOps>(code: &str, ops: &N, out: &mut Vec<Vec<u8>>) -> (r: Result<
    DataType,
    QueryError,
>)
    ensures
        final(out)@.len() >= old(out)@.len(),
        lines_view(final(out)@).take(old(out)@.len() as int) == lines_view(old(out)@),
        exists|tr: Seq<OracleAnswer>|
            query_m(code.spec_bytes(), tr) == Some(
                (
                    result_view(r),
                    lines_view(final(out)@).skip(old(out)@.len() as int),
                    Seq::<OracleAnswer>::empty(),
                ),
            ),
{
    let ghost n0 = out@.len() as int;
    proof {
        assert(lines_view(out@).take(n0) =~= lines_view(out@));
        assert(lines_view(out@).skip(n0) =~= Seq::<Seq<u8>>::empty());
    }
    let tokens = match tokenize(code) {
        Ok(t) => t,
        Err(e) => {
            proof {
                let tr = Seq::<OracleAnswer>::empty();
                assert(query_m(code.spec_bytes(), tr) == Some(
                    (
                        Err::<ValueModel, ErrorModel>(ErrorModel::Lexing),
                        Seq::<Seq<u8>>::empty(),
                        tr,
                    ),
                ));
            }
            return Err(e);
        },
    };
    let prog = match parse(&tokens) {
        Ok(p) => p,
        Err(e) => {
            proof {
                let tr = Seq::<OracleAnswer>::empty();
                assert(query_m(code.spec_bytes(), tr) == Some(
                    (
                        Err::<ValueModel, ErrorModel>(ErrorModel::Parsing),
                        Seq::<Seq<u8>>::empty(),
                        tr,
                    ),
                ));
            }
            return Err(e);
        },
    };
    let r = interpret_prog(&prog, ops, out);
    proof {
        let (tr, envf) = choose|tr: Seq<OracleAnswer>, envf: Map<Seq<u8>, ValueModel>|
            eval_prog_m(prog@, tr) == Some(
                (
                    EvalOutcome {
                        res: result_view(r),
                        env: envf,
                        emits: lines_view(out@).skip(n0),
                    },
                    Seq::<OracleAnswer>::empty(),
                ),
            );
        assert(query_m(code.spec_bytes(), tr) == Some(
            (result_view(r), lines_view(out@).skip(n0), Seq::<OracleAnswer>::empty()),
        ));
    }
    r
}

} // verus!
