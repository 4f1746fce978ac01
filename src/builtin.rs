//! The values that every program starts with in scope: Church-encoded
//! booleans and pairs, `Unit`, and the primitive operations.
use crate::environment::Environment;
use crate::expr::{
    app, call, closure_term, value_shape, Shape, env_ok, fun, identifier, lam, scoped, term_of, value_ok, var, Expr,
    Term,
};
use crate::value::{BuiltIn, Operator, Value, ValueRef};
use std::rc::Rc;
use vstd::prelude::*;
use vstd::string::StringSliceAdditionalSpecFns;

verus! {

/// A closure over the empty environment.
pub fn fun_val(body: crate::expr::ExprRef) -> (r: ValueRef)
    ensures
        *r matches Value::Fn(b, e) && b == body && e.values().len() == 0,
        closure_term(*r) == Some(term_of(*body)),
        scoped(*body, 1) ==> value_ok(*r, 0),
{
    Rc::new(Value::Fn(body, Environment::root()))
}

/// A primitive operation as a value.
pub fn builtin(b: BuiltIn) -> (r: ValueRef)
    ensures
        *r == Value::Builtin(b),
        value_ok(*r, 0),
{
    Rc::new(Value::Builtin(b))
}

/// The unit value.
pub fn get_unit() -> (r: ValueRef)
    ensures
        *r == Value::Unit,
        value_ok(*r, 0),
{
    Rc::new(Value::Unit)
}

/// The Church boolean that a value is: `λa.λb.a` or `λa.λb.b`.
pub open spec fn church_bool(v: Value) -> Option<bool> {
    match v {
        Value::Fn(body, _) => match body.expr {
            Expr::Fn(inner) => match inner.expr {
                Expr::Identifier(1) => Some(true),
                Expr::Identifier(0) => Some(false),
                _ => None,
            },
            _ => None,
        },
        _ => None,
    }
}

/// The Church boolean that a value is, if it is one.
pub fn church_bool_of(v: &Value) -> (r: Option<bool>)
    ensures
        r == church_bool(*v),
{
    match v {
        Value::Fn(body, _) => match &body.expr {
            Expr::Fn(inner) => match &inner.expr {
                Expr::Identifier(1) => Some(true),
                Expr::Identifier(0) => Some(false),
                _ => None,
            },
            _ => None,
        },
        _ => None,
    }
}

/// Whether `t` applies its innermost variable to the Church boolean `b`.
pub open spec fn applies_to_bool(t: Term, b: bool) -> bool {
    match t {
        Term::App(f, x) => *f == var(0) && match *x {
            Term::Lit(v) => church_bool(v) == Some(b),
            _ => false,
        },
        _ => false,
    }
}

/// `True = λa.λb.a`
pub fn get_true() -> (r: ValueRef)
    ensures
        closure_term(*r) == Some(lam(var(1))),
        church_bool(*r) == Some(true),
        value_ok(*r, 0),
{
    fun_val(fun(identifier(1)))
}

/// `False = λa.λb.b`
pub fn get_false() -> (r: ValueRef)
    ensures
        closure_term(*r) == Some(lam(var(0))),
        church_bool(*r) == Some(false),
        value_ok(*r, 0),
{
    fun_val(fun(identifier(0)))
}

/// `Not p = λa.λb. p b a`
pub fn get_not() -> (r: ValueRef)
    ensures
        closure_term(*r) == Some(lam(lam(app(app(var(2), var(0)), var(1))))),
        value_ok(*r, 0),
{
    fun_val(fun(fun(call(call(identifier(2), identifier(0)), identifier(1)))))
}

/// `If p a b = p a b`
pub fn get_if() -> (r: ValueRef)
    ensures
        closure_term(*r) == Some(lam(lam(app(app(var(2), var(1)), var(0))))),
        value_ok(*r, 0),
{
    fun_val(fun(fun(call(call(identifier(2), identifier(1)), identifier(0)))))
}

/// `Or a b = a a b`
pub fn get_or() -> (r: ValueRef)
    ensures
        closure_term(*r) == Some(lam(app(app(var(1), var(1)), var(0)))),
        value_ok(*r, 0),
{
    fun_val(fun(call(call(identifier(1), identifier(1)), identifier(0))))
}

/// `And a b = a b a`
pub fn get_and() -> (r: ValueRef)
    ensures
        closure_term(*r) == Some(lam(app(app(var(1), var(0)), var(1)))),
        value_ok(*r, 0),
{
    fun_val(fun(call(call(identifier(1), identifier(0)), identifier(1))))
}

/// `Tuple a b = λs. s a b`
pub fn get_tuple() -> (r: ValueRef)
    ensures
        closure_term(*r) == Some(lam(lam(app(app(var(0), var(2)), var(1))))),
        value_ok(*r, 0),
{
    fun_val(fun(fun(call(call(identifier(0), identifier(2)), identifier(1)))))
}

/// `TFirst t = t True`
pub fn get_first() -> (r: ValueRef)
    ensures
        closure_term(*r) matches Some(t) && applies_to_bool(t, true),
        value_ok(*r, 0),
{
    fun_val(call(identifier(0), Expr::Value(get_true()).default_ref()))
}

/// `TSecond t = t False`
pub fn get_second() -> (r: ValueRef)
    ensures
        closure_term(*r) matches Some(t) && applies_to_bool(t, false),
        value_ok(*r, 0),
{
    fun_val(call(identifier(0), Expr::Value(get_false()).default_ref()))
}

/// The continuation that printing returns: it applies its argument to `Unit`.
pub fn print_continuation() -> (r: ValueRef)
    ensures
        closure_term(*r) == Some(app(var(0), Term::Lit(Value::Unit))),
        *r matches Value::Fn(_, _),
        value_ok(*r, 0),
{
    fun_val(call(identifier(0), Expr::Value(get_unit()).default_ref()))
}

/// `Print`: writes its argument and returns a continuation.
pub fn get_print() -> (r: ValueRef)
    ensures
        *r == Value::Builtin(BuiltIn::Print),
        value_ok(*r, 0),
{
    builtin(BuiltIn::Print)
}

/// `PrintLn`: writes its argument and a line feed.
pub fn get_println() -> (r: ValueRef)
    ensures
        *r == Value::Builtin(BuiltIn::PrintLn),
        value_ok(*r, 0),
{
    builtin(BuiltIn::PrintLn)
}

/// `Is`: equality of numbers, strings and unit.
pub fn get_is() -> (r: ValueRef)
    ensures
        *r == Value::Builtin(BuiltIn::Is),
        value_ok(*r, 0),
{
    builtin(BuiltIn::Is)
}

/// `IsNot`: the negation of `Is`.
pub fn get_is_not() -> (r: ValueRef)
    ensures
        *r == Value::Builtin(BuiltIn::IsNot),
        value_ok(*r, 0),
{
    builtin(BuiltIn::IsNot)
}

/// `Add`
pub fn get_add() -> (r: ValueRef)
    ensures
        *r == Value::Builtin(BuiltIn::Operation(Operator::Add)),
        value_ok(*r, 0),
{
    builtin(BuiltIn::Operation(Operator::Add))
}

/// `Sub`
pub fn get_sub() -> (r: ValueRef)
    ensures
        *r == Value::Builtin(BuiltIn::Operation(Operator::Sub)),
        value_ok(*r, 0),
{
    builtin(BuiltIn::Operation(Operator::Sub))
}

/// `Mul`
pub fn get_mul() -> (r: ValueRef)
    ensures
        *r == Value::Builtin(BuiltIn::Operation(Operator::Mul)),
        value_ok(*r, 0),
{
    builtin(BuiltIn::Operation(Operator::Mul))
}

/// `Div`
pub fn get_div() -> (r: ValueRef)
    ensures
        *r == Value::Builtin(BuiltIn::Operation(Operator::Div)),
        value_ok(*r, 0),
{
    builtin(BuiltIn::Operation(Operator::Div))
}

/// The standard names, in the order they are bound around a program.
pub open spec fn default_names() -> Seq<Seq<u8>> {
    seq!["True".spec_bytes(), "False".spec_bytes(), "And".spec_bytes(), "Or".spec_bytes(), "Not".spec_bytes(), "If".spec_bytes(), "Unit".spec_bytes(), "PrintLn".spec_bytes(), "Print".spec_bytes(), "Is".spec_bytes(), "IsNot".spec_bytes(), "Add".spec_bytes(), "Sub".spec_bytes(), "Mul".spec_bytes(), "Div".spec_bytes(), "Tuple".spec_bytes(), "TFirst".spec_bytes(), "TSecond".spec_bytes()]
}

/// The value bound to the `i`-th standard name.
pub open spec fn standard_value(i: int, v: Value) -> bool {
    if i == 0 {
        closure_term(v) == Some(lam(var(1)))
    } else if i == 1 {
        closure_term(v) == Some(lam(var(0)))
    } else if i == 2 {
        closure_term(v) == Some(lam(app(app(var(1), var(0)), var(1))))
    } else if i == 3 {
        closure_term(v) == Some(lam(app(app(var(1), var(1)), var(0))))
    } else if i == 4 {
        closure_term(v) == Some(lam(lam(app(app(var(2), var(0)), var(1)))))
    } else if i == 5 {
        closure_term(v) == Some(lam(lam(app(app(var(2), var(1)), var(0)))))
    } else if i == 6 {
        v == Value::Unit
    } else if i == 7 {
        v == Value::Builtin(BuiltIn::PrintLn)
    } else if i == 8 {
        v == Value::Builtin(BuiltIn::Print)
    } else if i == 9 {
        v == Value::Builtin(BuiltIn::Is)
    } else if i == 10 {
        v == Value::Builtin(BuiltIn::IsNot)
    } else if i == 11 {
        v == Value::Builtin(BuiltIn::Operation(Operator::Add))
    } else if i == 12 {
        v == Value::Builtin(BuiltIn::Operation(Operator::Sub))
    } else if i == 13 {
        v == Value::Builtin(BuiltIn::Operation(Operator::Mul))
    } else if i == 14 {
        v == Value::Builtin(BuiltIn::Operation(Operator::Div))
    } else if i == 15 {
        closure_term(v) == Some(lam(lam(app(app(var(0), var(2)), var(1)))))
    } else if i == 16 {
        closure_term(v) matches Some(t) && applies_to_bool(t, true)
    } else if i == 17 {
        closure_term(v) matches Some(t) && applies_to_bool(t, false)
    } else {
        false
    }
}

/// The shapes of the standard values: none is a string or a number.
pub open spec fn default_shapes() -> Seq<Shape> {
    Seq::new(18, |i: int| Shape::Other)
}

/// A name given as a string literal, as UTF-8 bytes.
fn name_of(s: &str) -> (r: Vec<u8>)
    ensures
        r@ == s.spec_bytes(),
{
    vstd::slice::slice_to_vec(s.as_bytes())
}

/// The names in scope in every program, with the values they stand for.
pub fn default_bindings() -> (r: Vec<(Vec<u8>, ValueRef)>)
    ensures
        r@.len() == 18,
        forall|i: int| 0 <= i < r@.len() ==> value_ok(*(#[trigger] r@[i]).1, 0),
        r@.map_values(|b: (Vec<u8>, ValueRef)| b.0@) == default_names(),
        forall|i: int| 0 <= i < r@.len() ==> standard_value(i, *(#[trigger] r@[i]).1),
        r@.map_values(|b: (Vec<u8>, ValueRef)| value_shape(*b.1)) == default_shapes(),
{
    let mut bindings: Vec<(Vec<u8>, ValueRef)> = Vec::new();
    bindings.push((name_of("True"), get_true()));
    bindings.push((name_of("False"), get_false()));
    bindings.push((name_of("And"), get_and()));
    bindings.push((name_of("Or"), get_or()));
    bindings.push((name_of("Not"), get_not()));
    bindings.push((name_of("If"), get_if()));
    bindings.push((name_of("Unit"), get_unit()));
    bindings.push((name_of("PrintLn"), get_println()));
    bindings.push((name_of("Print"), get_print()));
    bindings.push((name_of("Is"), get_is()));
    bindings.push((name_of("IsNot"), get_is_not()));
    bindings.push((name_of("Add"), get_add()));
    bindings.push((name_of("Sub"), get_sub()));
    bindings.push((name_of("Mul"), get_mul()));
    bindings.push((name_of("Div"), get_div()));
    bindings.push((name_of("Tuple"), get_tuple()));
    bindings.push((name_of("TFirst"), get_first()));
    bindings.push((name_of("TSecond"), get_second()));
    assert(bindings@.map_values(|b: (Vec<u8>, ValueRef)| b.0@) =~= default_names());
    assert(bindings@.map_values(|b: (Vec<u8>, ValueRef)| value_shape(*b.1)) =~= default_shapes());
    bindings
}

} // verus!
