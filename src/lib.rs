//! Marble: a small, pure, lazy, higher-order language whose programs are
//! whitespace-separated words, with numbers spelled out in English.
//!
//! Source text goes through the scanner and the compiler into a de Bruijn
//! expression tree, which the call-by-need interpreter reduces to a value.
pub mod builtin;
pub mod compiler;
pub mod environment;
pub mod error;
pub mod expr;
pub mod identifier;
pub mod interpreter;
pub mod number;
pub mod scanner;
pub mod source;
pub mod token;
pub mod value;

use crate::builtin::{default_names, default_shapes};
use crate::compiler::{accepts, compile_fault, expr_at, is_fault, wrap_bindings, Compiler};
use crate::scanner::{lemma_scanned_unique, scanned};
use crate::token::Token;
use crate::error::AnnotatedError;
use crate::expr::{scoped, shape_of, ExprRef, Shape};
use crate::interpreter::{is_lazy, Interpreter, ValueResult};
use crate::value::{Arithmetic, ValueRef};
use vstd::prelude::*;
use vstd::string::StringSliceAdditionalSpecFns;

verus! {

proof fn lemma_empty_prefix(s: Seq<Seq<u8>>)
    ensures
        Seq::<Seq<u8>>::empty() + s == s,
{
    assert(Seq::<Seq<u8>>::empty() + s =~= s);
}

proof fn lemma_empty_shapes(s: Seq<Shape>)
    ensures
        Seq::<Shape>::empty() + s == s,
{
    assert(Seq::<Shape>::empty() + s =~= s);
}

/// What running a program gives: its value and the output it wrote.
pub type OutputResult = Result<(ValueRef, Vec<u8>), AnnotatedError>;

/// What compiling the source `code`, scanned as `ts`, gives with the standard
/// names in scope: success exactly where the grammar accepts the tokens, a
/// tree of the shape that it gives, else its first fault.
pub open spec fn compiled(code: Seq<u8>, ts: Seq<Token>, r: Result<ExprRef, AnnotatedError>) -> bool {
    &&& (r is Ok) == accepts(ts, code, default_names())
    &&& r matches Ok(e) ==> (expr_at(ts, code, default_names(), 0) matches Ok((s, _)) && shape_of(*e)
        == wrap_bindings(s, default_shapes(), 0))
    &&& r matches Err(e) ==> (compile_fault(ts, code, default_names()) matches Some((p, f))
        && is_fault(e, ts, p, f))
}

/// Compiling is pure: two compilations of the same source both succeed or
/// both fail; their trees have the same shape, their errors the same token.
pub proof fn lemma_compile_pure(
    code: Seq<u8>,
    ts1: Seq<Token>,
    ts2: Seq<Token>,
    r1: Result<ExprRef, AnnotatedError>,
    r2: Result<ExprRef, AnnotatedError>,
)
    requires
        scanned(code, ts1),
        compiled(code, ts1, r1),
        scanned(code, ts2),
        compiled(code, ts2, r2),
    ensures
        (r1 is Ok) == (r2 is Ok),
        r1 matches Ok(e1) ==> (r2 matches Ok(e2) && shape_of(*e1) == shape_of(*e2)),
        r1 matches Err(f1) ==> (r2 matches Err(f2) && f1.token == f2.token),
{
    lemma_scanned_unique(code, ts1, ts2);
}

/// Compiles `code` with the standard names in scope.
/// It succeeds exactly when the scan of `code` parses, every name resolving to
/// a binder or a standard name.
pub fn compile<A: Arithmetic>(code: &str, arith: &A) -> (r: Result<ExprRef, AnnotatedError>)
    ensures
        r matches Ok(e) ==> scoped(*e, 0),
        exists|ts: Seq<Token>| #[trigger] scanned(code.spec_bytes(), ts) && compiled(code.spec_bytes(), ts, r),
{
    let mut compiler = Compiler::new(code);
    compiler.with_bindings(Compiler::default_bindings());
    proof {
        lemma_empty_prefix(default_names());
        lemma_empty_shapes(default_shapes());
    }
    let r = compiler.compile(arith);
    assert(scanned(code.spec_bytes(), compiler.tokens()));
    r
}

/// Compiles and runs `code`: its forced value and the output it wrote.
pub fn execute_string<A: Arithmetic>(code: &str, arith: A) -> (r: OutputResult)
    ensures
        r matches Ok((v, _)) ==> !is_lazy(*v),
        exists|ts: Seq<Token>|
            #[trigger] scanned(code.spec_bytes(), ts) && (r is Ok ==> accepts(
                ts,
                code.spec_bytes(),
                default_names(),
            )) && (compile_fault(ts, code.spec_bytes(), default_names()) matches Some((p, f)) ==> (
            r matches Err(e) && is_fault(e, ts, p, f))),
{
    let compiled_expr = compile(code, &arith);
    let ghost ts = choose|ts: Seq<Token>| #[trigger] scanned(code.spec_bytes(), ts) && compiled(code.spec_bytes(), ts, compiled_expr);
    proof {
        reveal(accepts);
    }
    let expr = match compiled_expr {
        Ok(e) => e,
        Err(e) => {
            assert(scanned(code.spec_bytes(), ts));
            return Err(e);
        },
    };
    assert(scanned(code.spec_bytes(), ts));
    let mut interpreter = Interpreter::new(arith);
    match interpreter.interpret(&expr) {
        Ok(v) => {
            let output = interpreter.output().clone();
            Ok((v, output))
        },
        Err(e) => Err(e),
    }
}

/// Compiles and runs `code`, giving its forced value.
pub fn evaluate_string<A: Arithmetic>(code: &str, arith: A) -> (r: ValueResult)
    ensures
        r matches Ok(v) ==> !is_lazy(*v),
{
    match execute_string(code, arith) {
        Ok((v, _)) => Ok(v),
        Err(e) => Err(e),
    }
}

} // verus!
