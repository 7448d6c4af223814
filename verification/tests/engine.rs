use querylang::ast::{span_in, Expr, Expr_};
use querylang::lexer::{tokenize, Token};
use querylang::numbers::NumberOps;
use querylang::parser::parse;
use querylang::query;
use querylang::values::{DataType, Env, QueryError};

/// The host's number capability: IEEE-754 doubles carried as bit patterns.
struct Ieee;

impl NumberOps for Ieee {
    fn num_parse(&self, text: &Vec<u8>) -> Option<u64> {
        let s = std::str::from_utf8(text).ok()?;
        let f: f64 = s.parse().ok()?;
        Some(f.to_bits())
    }

    fn num_add(&self, a: u64, b: u64) -> u64 {
        (f64::from_bits(a) + f64::from_bits(b)).to_bits()
    }

    fn num_sub(&self, a: u64, b: u64) -> u64 {
        (f64::from_bits(a) - f64::from_bits(b)).to_bits()
    }

    fn num_mul(&self, a: u64, b: u64) -> u64 {
        (f64::from_bits(a) * f64::from_bits(b)).to_bits()
    }

    fn num_div(&self, a: u64, b: u64) -> u64 {
        (f64::from_bits(a) / f64::from_bits(b)).to_bits()
    }

    fn num_rem(&self, a: u64, b: u64) -> u64 {
        (f64::from_bits(a) % f64::from_bits(b)).to_bits()
    }

    fn num_render(&self, bits: u64) -> Vec<u8> {
        format!("{:?}", f64::from_bits(bits)).into_bytes()
    }
}

fn run(code: &str) -> (Result<DataType, QueryError>, Vec<Vec<u8>>) {
    let ops = Ieee;
    let mut out: Vec<Vec<u8>> = Vec::new();
    let r = query(code, &ops, &mut out);
    (r, out)
}

fn expect_number(code: &str, want: f64) {
    let (r, _) = run(code);
    match r {
        Ok(DataType::Number(bits)) => assert_eq!(bits, want.to_bits()),
        other => panic!("expected a number, got {:?}", other),
    }
}

#[test]
fn end_to_end_assign_and_arith() {
    expect_number("x = 5; y = x + 3; y * 2;", 16.0);
}

#[test]
fn print_list_emits_rendering() {
    let (r, out) = run("print([1,2]);");
    assert!(matches!(r, Ok(DataType::Nothing)));
    assert_eq!(out.len(), 1);
    assert_eq!(out[0], b"[1.0, 2.0]".to_vec());
}

#[test]
fn division_by_zero_is_math_error() {
    let (r, _) = run("1 / 0;");
    match r {
        Err(QueryError::MathError(m)) => assert_eq!(m, b"/".to_vec()),
        other => panic!("expected a math error, got {:?}", other),
    }
}

#[test]
fn modulo_by_zero_is_math_error() {
    let (r, _) = run("5 % 0;");
    match r {
        Err(QueryError::MathError(m)) => assert_eq!(m, b"%".to_vec()),
        other => panic!("expected a math error, got {:?}", other),
    }
}

#[test]
fn zero_numerator_divides_fine() {
    expect_number("0 / 5;", 0.0);
}

#[test]
fn empty_source_is_empty_program_error() {
    let (r, _) = run("");
    assert!(matches!(r, Err(QueryError::EmptyProgram)));
}

#[test]
fn list_literal_keeps_order() {
    let (r, _) = run("[1, 2, 3];");
    match r {
        Ok(DataType::List(vs)) => {
            assert_eq!(vs.len(), 3);
            for (k, want) in [1.0f64, 2.0, 3.0].iter().enumerate() {
                match &vs[k] {
                    DataType::Number(bits) => assert_eq!(*bits, want.to_bits()),
                    other => panic!("element {} is {:?}", k, other),
                }
            }
        },
        other => panic!("expected a list, got {:?}", other),
    }
}

#[test]
fn empty_list_literal() {
    let (r, _) = run("[];");
    match r {
        Ok(DataType::List(vs)) => assert_eq!(vs.len(), 0),
        other => panic!("expected a list, got {:?}", other),
    }
}

fn eq_ignoring_spans(a: &Expr, b: &Expr) -> bool {
    match (&a.node, &b.node) {
        (Expr_::Add(a1, a2), Expr_::Add(b1, b2)) => {
            eq_ignoring_spans(a1, b1) && eq_ignoring_spans(a2, b2)
        },
        (Expr_::Sub(a1, a2), Expr_::Sub(b1, b2)) => {
            eq_ignoring_spans(a1, b1) && eq_ignoring_spans(a2, b2)
        },
        (Expr_::Mul(a1, a2), Expr_::Mul(b1, b2)) => {
            eq_ignoring_spans(a1, b1) && eq_ignoring_spans(a2, b2)
        },
        (Expr_::Div(a1, a2), Expr_::Div(b1, b2)) => {
            eq_ignoring_spans(a1, b1) && eq_ignoring_spans(a2, b2)
        },
        (Expr_::Mod(a1, a2), Expr_::Mod(b1, b2)) => {
            eq_ignoring_spans(a1, b1) && eq_ignoring_spans(a2, b2)
        },
        (Expr_::Var(x), Expr_::Var(y)) => x == y,
        (Expr_::Assign(x, r1), Expr_::Assign(y, r2)) => x == y && eq_ignoring_spans(r1, r2),
        (Expr_::Function(x, r1), Expr_::Function(y, r2)) => x == y && eq_ignoring_spans(r1, r2),
        (Expr_::Return(r1), Expr_::Return(r2)) => eq_ignoring_spans(r1, r2),
        (Expr_::Number(x), Expr_::Number(y)) => x == y,
        (Expr_::String(x), Expr_::String(y)) => x == y,
        (Expr_::List(xs), Expr_::List(ys)) => {
            xs.len() == ys.len() && xs.iter().zip(ys.iter()).all(|(p, q)| eq_ignoring_spans(p, q))
        },
        _ => false,
    }
}

#[test]
fn whitespace_and_comments_do_not_change_the_ast() {
    let t1 = tokenize("1+2;").unwrap();
    let t2 = tokenize("1 + 2; # note\n").unwrap();
    let p1 = parse(&t1).unwrap();
    let p2 = parse(&t2).unwrap();
    assert_eq!(p1.stmts.len(), 1);
    assert_eq!(p2.stmts.len(), 1);
    assert!(eq_ignoring_spans(&p1.stmts[0], &p2.stmts[0]));
}

#[test]
fn token_stream_has_no_trivia() {
    let toks = tokenize("1 + 2 # trailing comment").unwrap();
    assert_eq!(toks.len(), 3);
    for (t, _) in toks.iter() {
        assert!(!matches!(t, Token::Whitespace));
        assert!(!matches!(t, Token::Comment));
    }
}

#[test]
fn write_then_read_returns_the_value() {
    expect_number("x = 5; x;", 5.0);
}

#[test]
fn reading_unbound_identifier_fails() {
    let (r, _) = run("y;");
    match r {
        Err(QueryError::VariableNotDefined(n)) => assert_eq!(n, b"y".to_vec()),
        other => panic!("expected variable-not-defined, got {:?}", other),
    }
}

#[test]
fn calling_a_non_function_is_invalid_type() {
    let (r, _) = run("x = 5; x(1);");
    match r {
        Err(QueryError::InvalidType(n)) => assert_eq!(n, b"x".to_vec()),
        other => panic!("expected invalid-type, got {:?}", other),
    }
}

#[test]
fn calling_an_unbound_identifier_fails() {
    let (r, _) = run("foo(1);");
    match r {
        Err(QueryError::VariableNotDefined(n)) => assert_eq!(n, b"foo".to_vec()),
        other => panic!("expected variable-not-defined, got {:?}", other),
    }
}

#[test]
fn arithmetic_on_a_string_is_invalid_type() {
    let (r, _) = run("\"a\" + 1;");
    match r {
        Err(QueryError::InvalidType(m)) => assert_eq!(m, b"+".to_vec()),
        other => panic!("expected invalid-type, got {:?}", other),
    }
}

#[test]
fn unrecognized_byte_is_a_lexing_error() {
    let (r, _) = run("1 @ 2;");
    assert!(matches!(r, Err(QueryError::LexingError)));
}

#[test]
fn unterminated_string_is_a_lexing_error() {
    let (r, _) = run("\"abc;");
    assert!(matches!(r, Err(QueryError::LexingError)));
}

#[test]
fn two_dots_do_not_lex() {
    let (r, _) = run("1..2;");
    assert!(matches!(r, Err(QueryError::LexingError)));
}

#[test]
fn missing_semicolon_is_a_parse_error() {
    let (r, _) = run("1 + 2");
    assert!(matches!(r, Err(QueryError::ParsingError)));
}

#[test]
fn dangling_operator_is_a_parse_error() {
    let (r, _) = run("1 + ;");
    assert!(matches!(r, Err(QueryError::ParsingError)));
}

#[test]
fn return_emits_and_yields_the_value() {
    let (r, out) = run("return 5;");
    match r {
        Ok(DataType::Number(bits)) => assert_eq!(bits, 5.0f64.to_bits()),
        other => panic!("expected a number, got {:?}", other),
    }
    assert_eq!(out.len(), 1);
    assert_eq!(out[0], b"5.0".to_vec());
}

#[test]
fn string_literal_evaluates_to_its_bytes() {
    let (r, _) = run("\"hi\";");
    match r {
        Ok(DataType::String(s)) => assert_eq!(s, b"hi".to_vec()),
        other => panic!("expected a string, got {:?}", other),
    }
}

#[test]
fn precedence_binds_products_tighter() {
    expect_number("1 + 2 * 3;", 7.0);
}

#[test]
fn subtraction_associates_to_the_left() {
    expect_number("10 - 2 - 3;", 5.0);
}

#[test]
fn parentheses_group_first() {
    expect_number("(1 + 2) * 3;", 9.0);
}

#[test]
fn modulo_of_numbers() {
    expect_number("7 % 4;", 3.0);
}

#[test]
fn fractional_literals_add() {
    expect_number("1.5 + 2.25;", 3.75);
}

#[test]
fn trailing_dot_literal_parses() {
    expect_number("2. + 1;", 3.0);
}

#[test]
fn chained_assignment_threads_the_value() {
    expect_number("x = y = 2; x + y;", 4.0);
}

#[test]
fn identifier_containing_keyword_is_an_identifier() {
    expect_number("returns = 1; returns;", 1.0);
}

#[test]
fn print_returns_the_unit_value() {
    let (r, out) = run("print(5);");
    assert!(matches!(r, Ok(DataType::Nothing)));
    assert_eq!(out, vec![b"5.0".to_vec()]);
}

#[test]
fn later_statement_sees_earlier_assignment() {
    expect_number("x = 1; x = x + 1; x;", 2.0);
}

#[test]
fn lexer_spans_are_byte_offsets() {
    let toks = tokenize("x = 5;").unwrap();
    assert_eq!(toks.len(), 4);
    assert_eq!((toks[0].1.lo, toks[0].1.hi), (0, 1));
    assert_eq!((toks[1].1.lo, toks[1].1.hi), (2, 3));
    assert_eq!((toks[2].1.lo, toks[2].1.hi), (4, 5));
    assert_eq!((toks[3].1.lo, toks[3].1.hi), (5, 6));
}

#[test]
fn span_in_builds_a_half_open_range() {
    let sp = span_in(3, 4);
    assert_eq!(sp.lo, 3);
    assert_eq!(sp.hi, 7);
}

#[test]
fn environment_starts_with_print() {
    let mut env = Env::new();
    querylang::values::fill_env(&mut env);
    let key = b"print".to_vec();
    match env.get(&key) {
        Some(DataType::Function(_)) => {},
        other => panic!("expected the print binding, got {:?}", other),
    }
}

#[test]
fn print_rendering_distinguishes_shapes() {
    let (r, out) = run("print([\"a\", [], 1]);");
    assert!(matches!(r, Ok(DataType::Nothing)));
    assert_eq!(out, vec![b"[\"a\", [], 1.0]".to_vec()]);
}
