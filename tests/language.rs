use marble::builtin::church_bool_of;
use marble::compiler::Compiler;
use marble::environment::Environment;
use marble::error::{Error, ErrorType};
use marble::expr::{call, identifier, AnnotatedExpr, Expr};
use marble::identifier::IdentifierTable;
use marble::interpreter::Interpreter;
use marble::scanner::tokenize;
use marble::token::TokenType;
use marble::value::{Arithmetic, Operator, Value, ValueKind, ValueRef};
use marble::{compile, evaluate_string, execute_string};
use std::rc::Rc;

struct Doubles;

impl Arithmetic for Doubles {
    fn literal(&self, whole: u64, digits: &Vec<u8>) -> u64 {
        let mut factor = 0.1;
        let mut fraction = 0.0;
        for d in digits {
            fraction += *d as f64 * factor;
            factor *= 0.1;
        }
        (whole as f64 + fraction).to_bits()
    }

    fn apply(&self, op: Operator, lhs: u64, rhs: u64) -> u64 {
        let (a, b) = (f64::from_bits(lhs), f64::from_bits(rhs));
        let r = match op {
            Operator::Add => a + b,
            Operator::Sub => a - b,
            Operator::Mul => a * b,
            Operator::Div => a / b,
        };
        r.to_bits()
    }

    fn equal(&self, lhs: u64, rhs: u64) -> bool {
        f64::from_bits(lhs) == f64::from_bits(rhs)
    }

    fn render(&self, n: u64) -> Vec<u8> {
        format!("{}", f64::from_bits(n)).into_bytes()
    }
}

fn number(v: &ValueRef) -> f64 {
    match v.as_ref() {
        Value::Number(n) => f64::from_bits(*n),
        _ => panic!("not a number"),
    }
}

fn run(code: &str) -> (ValueRef, String) {
    match execute_string(code, Doubles) {
        Ok((v, out)) => (v, String::from_utf8(out).unwrap()),
        Err(e) => panic!("{code} failed: {:?}", e.error.error_type()),
    }
}

fn error_of(code: &str) -> Error {
    match execute_string(code, Doubles) {
        Ok(_) => panic!("{code} did not fail"),
        Err(e) => e.error,
    }
}

#[test]
fn string_literal_program() {
    let (v, out) = run("str Hello World ing");
    assert_eq!(out, "");
    match v.as_ref() {
        Value::String(s) => assert_eq!(s.as_slice(), "Hello World".as_bytes()),
        _ => panic!("not a string"),
    }
}

#[test]
fn addition_program() {
    let (v, out) = run("Add of One of Two");
    assert_eq!(out, "");
    assert_eq!(number(&v), 3.0);
}

#[test]
fn factorial_program() {
    let (v, out) = run("let fact be fn self n do If of do Is of n of Zero end of fn u do One end of fn u do Mul of n of do self of self of do Sub of n of One end end end of Unit end in fact of fact of Five");
    assert_eq!(out, "");
    assert_eq!(number(&v), 120.0);
}

#[test]
fn let_initialiser_cannot_recurse_by_name() {
    match error_of("let fact be fn n do If of Is of n of Zero of fn u do One end of fn u do Mul of n of fact of Sub of n of One end end in fact of Five") {
        Error::IdentifierIsNotDefined(name) => assert_eq!(name, b"fact".to_vec()),
        _ => panic!("wrong error"),
    }
}

#[test]
fn println_program() {
    let (v, out) = run("PrintLn of str Hello World ing");
    assert_eq!(out, "Hello World\n");
    assert_eq!(v.get_type(), ValueKind::Function);
}

#[test]
fn loop_program() {
    let (v, out) = run("let loop be fn self n do If of do Is of n of Zero end of fn u do One end of fn u do self of self of do Sub of n of One end end of Unit end in loop of loop of Ten");
    assert_eq!(out, "");
    assert_eq!(number(&v), 1.0);
}

#[test]
fn undefined_name_program() {
    match error_of("do Print of str X ing then Y end") {
        Error::IdentifierIsNotDefined(name) => assert_eq!(name, "Y".as_bytes().to_vec()),
        _ => panic!("wrong error"),
    }
    assert_eq!(Error::IdentifierIsNotDefined(Vec::new()).error_type(), ErrorType::Compile);
}

#[test]
fn print_then_sequence() {
    let (_, out) = run("Print of str A ing then Print of str B ing");
    assert_eq!(out, "AB");
}

#[test]
fn fractions_and_division() {
    let (v, _) = run("Div of One of Four");
    assert_eq!(number(&v), 0.25);
    let (v, _) = run("Add of OnePointFive of TwoPointFive");
    assert_eq!(number(&v), 4.0);
    let (_, out) = run("Print of do Div of Seven of Two end");
    assert_eq!(out, "3.5");
}

#[test]
fn church_logic() {
    let (v, _) = run("If of do And of True of do Not of False end end of One of Two");
    assert_eq!(number(&v), 1.0);
    let (v, _) = run("If of do Or of False of False end of One of Two");
    assert_eq!(number(&v), 2.0);
    let (v, _) = run("IsNot of str a ing of str b ing");
    assert_eq!(church_bool_of(&v), Some(true));
    let (v, _) = run("Is of Unit of Unit");
    assert_eq!(church_bool_of(&v), Some(true));
    let (v, _) = run("Is of Unit of One");
    assert_eq!(church_bool_of(&v), Some(false));
}

#[test]
fn tuples() {
    let (v, _) = run("let t be Tuple of One of Two in Add of do TFirst of t end of do TSecond of t end");
    assert_eq!(number(&v), 3.0);
}

#[test]
fn comments_are_skipped() {
    let (v, _) = run("com a comment ment Add of One comment rest of line\n of Two");
    assert_eq!(number(&v), 3.0);
}

#[test]
fn forcing_twice_evaluates_once() {
    let (_, out) = run("let x be Print of str Once ing in Is of x of x");
    assert_eq!(out, "Once");
}

#[test]
fn forcing_a_forced_value_is_identity() {
    let mut interpreter = Interpreter::new(Doubles);
    let v: ValueRef = Rc::new(Value::Unit);
    let r = interpreter.force(v.clone(), 10).ok().unwrap();
    assert!(Rc::ptr_eq(&r, &v));

    let expr = compile("Add of One of Two", &Doubles).ok().unwrap();
    let lazy = interpreter.evaluate(&expr, &Environment::root());
    let first = interpreter.force(lazy.clone(), 100).ok().unwrap();
    let second = interpreter.force(lazy, 100).ok().unwrap();
    assert!(Rc::ptr_eq(&first, &second));
    let again = interpreter.force(first.clone(), 100).ok().unwrap();
    assert!(Rc::ptr_eq(&first, &again));
}

#[test]
fn thunk_that_needs_itself_fails() {
    let mut interpreter = Interpreter::new(Doubles);
    let env = Environment::extend(Environment::root(), Rc::new(Value::Lazy(0)));
    let expr = call(identifier(0), identifier(0));
    let lazy = interpreter.evaluate(&expr, &env);
    match interpreter.force(lazy, 100) {
        Err(e) => assert!(matches!(e.error, Error::ValueDependsOnItself)),
        Ok(_) => panic!("forced a value that depends on itself"),
    }
}

fn same_tree(a: &AnnotatedExpr, b: &AnnotatedExpr) -> bool {
    if a.token != b.token {
        return false;
    }
    match (&a.expr, &b.expr) {
        (Expr::Identifier(x), Expr::Identifier(y)) => x == y,
        (Expr::Call(f, x), Expr::Call(g, y)) => same_tree(f, g) && same_tree(x, y),
        (Expr::Fn(x), Expr::Fn(y)) => same_tree(x, y),
        (Expr::Value(x), Expr::Value(y)) => match (x.as_ref(), y.as_ref()) {
            (Value::Number(p), Value::Number(q)) => p == q,
            (Value::String(p), Value::String(q)) => p == q,
            (Value::Unit, Value::Unit) => true,
            (Value::Fn(p, _), Value::Fn(q, _)) => same_tree(p, q),
            (Value::Builtin(_), Value::Builtin(_)) => true,
            _ => false,
        },
        _ => false,
    }
}

#[test]
fn compiling_twice_gives_the_same_tree() {
    let code = "let f be fn a b do Add of a of b end in f of One of TwoPointFive then str x ing";
    let a = compile(code, &Doubles).ok().unwrap();
    let b = compile(code, &Doubles).ok().unwrap();
    assert!(same_tree(&a, &b));
}

#[test]
fn let_initialiser_does_not_see_its_name() {
    match error_of("let x be x in x") {
        Error::IdentifierIsNotDefined(name) => assert_eq!(name, b"x".to_vec()),
        _ => panic!("wrong error"),
    }
}

#[test]
fn de_bruijn_depths() {
    let mut compiler = Compiler::new("fn a b do a end");
    compiler.with_bindings(Vec::new());
    let e = compiler.compile(&Doubles).ok().unwrap();
    match &e.expr {
        Expr::Fn(inner) => match &inner.expr {
            Expr::Fn(body) => assert!(matches!(body.expr, Expr::Identifier(1))),
            _ => panic!("not curried"),
        },
        _ => panic!("not a function"),
    }
}

#[test]
fn compile_errors() {
    assert!(matches!(error_of("One Two"), Error::ExpectedEofAfterExpression));
    assert!(matches!(error_of("do One"), Error::ExpectedEndAfterDoBlock));
    assert!(matches!(error_of("fn x One"), Error::ExpectedDoAsFunctionBody));
    assert!(matches!(error_of("fn do One end"), Error::ExpectedIdentifierAsFunctionArgument));
    assert!(matches!(error_of("let One be Two in Three"), Error::ExpectedIdentifierAsVariableName));
    assert!(matches!(error_of("let x One"), Error::ExpectedBeInAssignment));
    assert!(matches!(error_of("let x be One One"), Error::ExpectedInAfterAssignment));
    assert!(matches!(error_of("end"), Error::ExpectedExpressionFound(_)));
    assert!(matches!(error_of(""), Error::ExpectedExpressionFound(_)));
}

#[test]
fn runtime_errors() {
    assert!(matches!(error_of("One of Two"), Error::ValueNotCallable(ValueKind::Number)));
    assert!(matches!(
        error_of("Add of str a ing of One"),
        Error::ArgumentToOperatorMustBeANumber(Operator::Add)
    ));
    assert!(matches!(
        error_of("Mul of One of Unit"),
        Error::ArgumentToOperatorMustBeANumber(Operator::Mul)
    ));
    assert_eq!(Error::ValueDependsOnItself.error_type(), ErrorType::Runtime);
}

#[test]
fn unbounded_recursion_stops() {
    assert!(matches!(
        error_of("let f be fn s do s of s end in f of f"),
        Error::NestingTooDeep
    ));
}

#[test]
fn strings_open_and_closed() {
    let (v, _) = run("string");
    assert!(matches!(v.as_ref(), Value::String(s) if s.is_empty()));
    let (v, _) = run("str ing");
    assert!(matches!(v.as_ref(), Value::String(s) if s.is_empty()));
    let (v, _) = run("str a b");
    assert!(matches!(v.as_ref(), Value::String(s) if s.as_slice() == "a b".as_bytes()));
}

#[test]
fn scanner_ends_every_prefix() {
    let text = "let x be str a ing in com c ment x comment z\n of FortyTwo";
    for end in 0..=text.len() {
        let tokens = tokenize(&text[..end]);
        assert_eq!(tokens.last().unwrap().token_type, TokenType::Eof);
        assert!(tokens[..tokens.len() - 1].iter().all(|t| t.token_type != TokenType::Eof));
    }
}

#[test]
fn scanner_kinds() {
    let tokens = tokenize("fn x do Seven end str a ing Foo");
    let kinds: Vec<TokenType> = tokens.iter().map(|t| t.token_type).collect();
    assert_eq!(
        kinds,
        vec![
            TokenType::Fn,
            TokenType::Identifier,
            TokenType::Do,
            TokenType::Number,
            TokenType::End,
            TokenType::String(true),
            TokenType::Identifier,
            TokenType::Eof
        ]
    );
    assert_eq!((tokens[5].start, tokens[5].end), (18, 27));
}

#[test]
fn identifier_table_shadowing() {
    let mut t = IdentifierTable::new();
    assert_eq!(t.push(b"a"), 0);
    assert_eq!(t.push(b"b"), 1);
    assert_eq!(t.push(b"a"), 2);
    assert_eq!(t.distance_from_top(b"a"), Some(0));
    assert_eq!(t.distance_from_top(b"b"), Some(1));
    assert_eq!(t.distance_from_root(b"b"), Some(1));
    assert_eq!(t.distance_from_top(b"c"), None);
    assert!(t.is_defined(b"b"));
    t.pop();
    assert_eq!(t.distance_from_top(b"a"), Some(1));
    assert_eq!(t.name(0), b"a");
}

#[test]
fn evaluate_string_gives_value() {
    let v = evaluate_string("Sub of Ten of Three", Doubles).ok().unwrap();
    assert_eq!(number(&v), 7.0);
}

#[test]
fn failed_thunk_is_retried_not_self_dependent() {
    let mut interpreter = Interpreter::new(Doubles);
    let expr = compile("Add of Unit of One", &Doubles).ok().unwrap();
    let lazy = interpreter.evaluate(&expr, &Environment::root());
    let first = interpreter.force(lazy.clone(), 100);
    let second = interpreter.force(lazy, 100);
    assert!(matches!(first, Err(ref e) if matches!(e.error, Error::ArgumentToOperatorMustBeANumber(Operator::Add))));
    assert!(matches!(second, Err(ref e) if matches!(e.error, Error::ArgumentToOperatorMustBeANumber(Operator::Add))));
}

#[test]
fn error_messages() {
    assert_eq!(
        Error::IdentifierIsNotDefined(b"Y".to_vec()).message(),
        b"Identifier Y is not defined.".to_vec()
    );
    assert_eq!(
        Error::ValueNotCallable(ValueKind::Number).message(),
        b"Number value is not callable.".to_vec()
    );
    let e = match execute_string("end", Doubles) {
        Err(e) => e,
        Ok(_) => panic!("compiled"),
    };
    assert_eq!(e.error.message(), b"Expected expression, found end.".to_vec());
}

#[test]
fn standard_names_in_order() {
    let names: Vec<Vec<u8>> = Compiler::default_bindings().into_iter().map(|b| b.0).collect();
    assert_eq!(names.len(), 18);
    assert_eq!(names[0], b"True".to_vec());
    assert_eq!(names[7], b"PrintLn".to_vec());
    assert_eq!(names[17], b"TSecond".to_vec());
}
