//! Runtime values.
use crate::environment::EnvRef;
use crate::expr::ExprRef;
use std::rc::Rc;
use vstd::prelude::*;
use vstd::string::StringSliceAdditionalSpecFns;

verus! {

pub type ValueRef = Rc<Value>;

/// The four arithmetic operators.
#[derive(Clone, Copy, Debug, PartialEq, Eq, Structural)]
pub enum Operator {
    Add,
    Sub,
    Mul,
    Div,
}

/// Arithmetic on numbers, which are IEEE-754 doubles held as their bits. The
/// host supplies it: the library itself does no floating-point arithmetic.
pub trait Arithmetic {
    /// The double nearest to a decimal literal: its whole part, then its digits
    /// after the point.
    fn literal(&self, whole: u64, digits: &Vec<u8>) -> u64;

    /// `lhs op rhs` in double arithmetic.
    fn apply(&self, op: Operator, lhs: u64, rhs: u64) -> u64;

    /// Whether two doubles are equal.
    fn equal(&self, lhs: u64, rhs: u64) -> bool;

    /// How a double is printed.
    fn render(&self, n: u64) -> Vec<u8>;
}

/// The primitive operations. An operation of two arguments, applied to the
/// first, becomes its `…Of` form, which holds that argument.
pub enum BuiltIn {
    Print,
    PrintLn,
    Is,
    IsOf(ValueRef),
    IsNot,
    IsNotOf(ValueRef),
    Operation(Operator),
    OperationOf(Operator, u64),
}

/// A value.
pub enum Value {
    /// A double, as its bits.
    Number(u64),
    /// UTF-8 text.
    String(Vec<u8>),
    Unit,
    /// A deferred call: the index of its thunk in the interpreter.
    Lazy(usize),
    /// A closure: its body and the environment it was made in.
    Fn(ExprRef, EnvRef),
    Builtin(BuiltIn),
}

/// The kinds of value, by name.
#[derive(Clone, Copy, Debug, PartialEq, Eq, Structural)]
pub enum ValueKind {
    Number,
    String,
    Unit,
    Lazy,
    Function,
    Builtin,
}

pub open spec fn kind_of(v: Value) -> ValueKind {
    match v {
        Value::Number(_) => ValueKind::Number,
        Value::String(_) => ValueKind::String,
        Value::Unit => ValueKind::Unit,
        Value::Lazy(_) => ValueKind::Lazy,
        Value::Fn(_, _) => ValueKind::Function,
        Value::Builtin(_) => ValueKind::Builtin,
    }
}

impl Value {
    /// The kind of this value.
    pub fn get_type(&self) -> (r: ValueKind)
        ensures
            r == kind_of(*self),
    {
        match self {
            Value::Number(_) => ValueKind::Number,
            Value::String(_) => ValueKind::String,
            Value::Unit => ValueKind::Unit,
            Value::Lazy(_) => ValueKind::Lazy,
            Value::Fn(_, _) => ValueKind::Function,
            Value::Builtin(_) => ValueKind::Builtin,
        }
    }

    /// The number this value holds, for an operator that needs one.
    pub fn number_for_operator(&self) -> (r: Option<u64>)
        ensures
            r == (match *self {
                Value::Number(n) => Some(n),
                _ => None::<u64>,
            }),
    {
        match self {
            Value::Number(n) => Some(*n),
            _ => None,
        }
    }

    pub fn new_ref(self) -> (r: ValueRef)
        ensures
            *r == self,
    {
        Rc::new(self)
    }
}

/// The text of a string literal in the source of the library.
fn text_of(s: &str) -> (r: Vec<u8>)
    ensures
        r@ == s.spec_bytes(),
{
    let mut v: Vec<u8> = Vec::new();
    v.extend_from_slice(s.as_bytes());
    v
}

impl Value {
    /// How a value is shown to a host: a number as the arithmetic renders it,
    /// a string as its text, and the other kinds by name.
    pub fn display<A: Arithmetic>(&self, arith: &A) -> (r: Vec<u8>)
        ensures
            *self matches Value::String(s) ==> r@ == s@,
            *self is Unit ==> r@ == "Unit".spec_bytes(),
            *self is Lazy ==> r@ == "Lazy".spec_bytes(),
            *self is Fn ==> r@ == "Function".spec_bytes(),
            *self is Builtin ==> "Builtin ".spec_bytes().len() <= r@.len() && r@.subrange(
                0,
                "Builtin ".spec_bytes().len() as int,
            ) == "Builtin ".spec_bytes(),
    {
        match self {
            Value::Number(n) => arith.render(*n),
            Value::String(s) => s.clone(),
            Value::Unit => text_of("Unit"),
            Value::Lazy(_) => text_of("Lazy"),
            Value::Fn(_, _) => text_of("Function"),
            Value::Builtin(b) => {
                let mut t = text_of("Builtin ");
                let name = match b {
                    BuiltIn::Print => "Print",
                    BuiltIn::PrintLn => "PrintLn",
                    BuiltIn::Is => "Is",
                    BuiltIn::IsOf(_) => "IsOf",
                    BuiltIn::IsNot => "IsNot",
                    BuiltIn::IsNotOf(_) => "IsNotOf",
                    BuiltIn::Operation(Operator::Add) => "Add",
                    BuiltIn::Operation(Operator::Sub) => "Sub",
                    BuiltIn::Operation(Operator::Mul) => "Mul",
                    BuiltIn::Operation(Operator::Div) => "Div",
                    BuiltIn::OperationOf(Operator::Add, _) => "AddOf",
                    BuiltIn::OperationOf(Operator::Sub, _) => "SubOf",
                    BuiltIn::OperationOf(Operator::Mul, _) => "MulOf",
                    BuiltIn::OperationOf(Operator::Div, _) => "DivOf",
                };
                let ghost head = t@;
                t.extend_from_slice(name.as_bytes());
                assert(t@.subrange(0, head.len() as int) =~= head);
                t
            },
        }
    }
}

impl ValueKind {
    /// The name of the kind.
    pub fn name(&self) -> (r: &'static str)
        ensures
            r.spec_bytes() == kind_name(*self),
    {
        match self {
            ValueKind::Number => "Number",
            ValueKind::String => "String",
            ValueKind::Unit => "Unit",
            ValueKind::Lazy => "Lazy",
            ValueKind::Function => "Function",
            ValueKind::Builtin => "Builtin",
        }
    }
}

/// The name of a kind of value, as bytes.
pub open spec fn kind_name(k: ValueKind) -> Seq<u8> {
    match k {
        ValueKind::Number => "Number".spec_bytes(),
        ValueKind::String => "String".spec_bytes(),
        ValueKind::Unit => "Unit".spec_bytes(),
        ValueKind::Lazy => "Lazy".spec_bytes(),
        ValueKind::Function => "Function".spec_bytes(),
        ValueKind::Builtin => "Builtin".spec_bytes(),
    }
}

} // verus!
