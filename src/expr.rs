//! The expression tree: de Bruijn-indexed, each node with the token that
//! produced it.
use crate::environment::{EnvRef, Environment};
use crate::token::Token;
use crate::value::{Value, ValueRef};
use std::rc::Rc;
use vstd::prelude::*;

verus! {

pub type ExprRef = Rc<AnnotatedExpr>;

/// A node and the token that produced it.
pub struct AnnotatedExpr {
    pub expr: Expr,
    pub token: Token,
}

/// The forms of expression.
pub enum Expr {
    /// A bound variable, by de Bruijn depth: 0 is the innermost binder.
    Identifier(usize),
    /// A callee applied to one argument.
    Call(ExprRef, ExprRef),
    /// A value known when compiling: a literal or a built-in.
    Value(ValueRef),
    /// A function of one argument, by its body.
    Fn(ExprRef),
}

/// The tree a compiled expression has, without its tokens: variables by
/// depth, calls, functions, string literals by their text, number literals,
/// and other literal values.
pub enum Shape {
    Var(usize),
    App(Box<Shape>, Box<Shape>),
    Lam(Box<Shape>),
    Str(Seq<u8>),
    Num,
    Other,
}

/// The shape of a literal value.
pub open spec fn value_shape(v: Value) -> Shape {
    match v {
        Value::String(s) => Shape::Str(s@),
        Value::Number(_) => Shape::Num,
        _ => Shape::Other,
    }
}

/// The tree of `e`, without its tokens.
pub open spec fn shape_of(e: AnnotatedExpr) -> Shape
    decreases e,
{
    match e.expr {
        Expr::Identifier(d) => Shape::Var(d),
        Expr::Call(callee, argument) => Shape::App(
            Box::new(shape_of(*callee)),
            Box::new(shape_of(*argument)),
        ),
        Expr::Value(v) => value_shape(*v),
        Expr::Fn(body) => Shape::Lam(Box::new(shape_of(*body))),
    }
}

pub open spec fn sapp(f: Shape, x: Shape) -> Shape {
    Shape::App(Box::new(f), Box::new(x))
}

pub open spec fn slam(body: Shape) -> Shape {
    Shape::Lam(Box::new(body))
}

/// `n` functions around `body`.
pub open spec fn slams(body: Shape, n: nat) -> Shape
    decreases n,
{
    if n == 0 {
        body
    } else {
        slam(slams(body, (n - 1) as nat))
    }
}

/// The shape of an expression, without its tokens.
pub enum Term {
    Var(usize),
    App(Box<Term>, Box<Term>),
    Lam(Box<Term>),
    Lit(Value),
}

/// The shape of `e`.
pub open spec fn term_of(e: AnnotatedExpr) -> Term
    decreases e,
{
    match e.expr {
        Expr::Identifier(d) => Term::Var(d),
        Expr::Call(callee, argument) => Term::App(
            Box::new(term_of(*callee)),
            Box::new(term_of(*argument)),
        ),
        Expr::Value(v) => Term::Lit(*v),
        Expr::Fn(body) => Term::Lam(Box::new(term_of(*body))),
    }
}

pub open spec fn var(d: usize) -> Term {
    Term::Var(d)
}

pub open spec fn app(f: Term, x: Term) -> Term {
    Term::App(Box::new(f), Box::new(x))
}

pub open spec fn lam(body: Term) -> Term {
    Term::Lam(Box::new(body))
}

/// The shape of a closure's body, for a closure over the empty environment.
pub open spec fn closure_term(v: Value) -> Option<Term> {
    match v {
        Value::Fn(body, env) => if *env is Root {
            Some(term_of(*body))
        } else {
            None
        },
        _ => None,
    }
}

/// Whether every variable of `e` is bound, with `depth` binders around it,
/// and every value in it is well formed with no thunks.
pub open spec fn scoped(e: AnnotatedExpr, depth: nat) -> bool
    decreases e,
{
    match e.expr {
        Expr::Identifier(d) => d < depth,
        Expr::Call(callee, argument) => scoped(*callee, depth) && scoped(*argument, depth),
        Expr::Value(v) => value_ok(*v, 0),
        Expr::Fn(body) => scoped(*body, depth + 1),
    }
}

/// Whether a value is well formed among `n` thunks: its thunks exist, and
/// each closure's body is scoped in its environment and one argument.
pub open spec fn value_ok(v: Value, n: nat) -> bool
    decreases v,
{
    match v {
        Value::Lazy(id) => id < n,
        Value::Fn(body, env) => scoped(*body, env.values().len() + 1) && env_ok(*env, n),
        _ => true,
    }
}

/// Whether every value an environment binds is well formed among `n` thunks.
pub open spec fn env_ok(e: Environment, n: nat) -> bool
    decreases e,
{
    match e {
        Environment::Value { value, parent } => value_ok(*value, n) && env_ok(*parent, n),
        Environment::Root => true,
    }
}

/// The environment behind a shared reference.
pub open spec fn env_at(e: &EnvRef) -> Environment {
    **e
}

/// The value behind a shared reference.
pub open spec fn value_at(v: &ValueRef) -> Value {
    **v
}

/// The environment of a closure.
pub open spec fn closure_env(v: Value) -> Environment {
    match v {
        Value::Fn(_, env) => *env,
        _ => Environment::Root,
    }
}

/// The innermost value an environment binds.
pub open spec fn innermost(e: Environment) -> Value {
    match e {
        Environment::Value { value, parent: _ } => *value,
        Environment::Root => Value::Unit,
    }
}

/// An environment without its innermost frame.
pub open spec fn enclosing(e: Environment) -> Environment {
    match e {
        Environment::Value { value: _, parent } => *parent,
        Environment::Root => Environment::Root,
    }
}

/// A value well formed among `n` thunks stays so among more.
pub proof fn lemma_value_ok_grows(v: Value, n: nat, m: nat)
    requires
        value_ok(v, n),
        n <= m,
    ensures
        value_ok(v, m),
    decreases v,
{
    if v is Fn {
        assert(decreases_to!(v => v->Fn_1));
        lemma_env_ok_grows(closure_env(v), n, m);
    }
}

/// An environment well formed among `n` thunks stays so among more.
pub proof fn lemma_env_ok_grows(e: Environment, n: nat, m: nat)
    requires
        env_ok(e, n),
        n <= m,
    ensures
        env_ok(e, m),
    decreases e,
{
    if e is Value {
        assert(decreases_to!(e => e->Value_value));
        assert(decreases_to!(e => e->Value_parent));
        lemma_value_ok_grows(innermost(e), n, m);
        lemma_env_ok_grows(enclosing(e), n, m);
    }
}

/// What a well-formed environment binds is well formed.
pub proof fn lemma_env_ok_lookup(e: Environment, n: nat, d: int)
    requires
        env_ok(e, n),
        0 <= d < e.values().len(),
    ensures
        value_ok(*e.values()[d], n),
    decreases e,
{
    if e is Value && d > 0 {
        assert(decreases_to!(e => e->Value_parent));
        lemma_env_ok_lookup(enclosing(e), n, d - 1);
        assert(e.values()[d] == enclosing(e).values()[d - 1]);
    }
}

impl Expr {
    /// This node, annotated with `token`.
    pub fn annotate(self, token: Token) -> (r: ExprRef)
        ensures
            r.expr == self,
            r.token == token,
    {
        Rc::new(AnnotatedExpr { expr: self, token })
    }

    /// This node, with the token of generated code.
    pub fn default_ref(self) -> (r: ExprRef)
        ensures
            r.expr == self,
            r.token == Token::generated_spec(),
    {
        self.annotate(Token::generated())
    }
}

impl AnnotatedExpr {
    pub fn new(expr: Expr, token: Token) -> (r: AnnotatedExpr)
        ensures
            r.expr == expr,
            r.token == token,
    {
        AnnotatedExpr { expr, token }
    }

    pub fn new_ref(self) -> (r: ExprRef)
        ensures
            *r == self,
    {
        Rc::new(self)
    }

    pub fn expr(&self) -> (r: &Expr)
        ensures
            *r == self.expr,
    {
        &self.expr
    }
}

/// The variable at depth `d`.
pub fn identifier(d: usize) -> (r: ExprRef)
    ensures
        r.expr == Expr::Identifier(d),
        term_of(*r) == var(d),
        forall|depth: nat| #[trigger] scoped(*r, depth) == (d < depth),
{
    Expr::Identifier(d).default_ref()
}

/// `callee` applied to `argument`.
pub fn call(callee: ExprRef, argument: ExprRef) -> (r: ExprRef)
    ensures
        r.expr == Expr::Call(callee, argument),
        term_of(*r) == app(term_of(*callee), term_of(*argument)),
        forall|depth: nat|
            #[trigger] scoped(*r, depth) == (scoped(*callee, depth) && scoped(*argument, depth)),
{
    Expr::Call(callee, argument).default_ref()
}

/// The function with body `body`.
pub fn fun(body: ExprRef) -> (r: ExprRef)
    ensures
        r.expr == Expr::Fn(body),
        term_of(*r) == lam(term_of(*body)),
        forall|depth: nat| #[trigger] scoped(*r, depth) == scoped(*body, depth + 1),
{
    Expr::Fn(body).default_ref()
}

} // verus!
