//! A call-by-need evaluator. A call becomes a thunk in the interpreter's
//! store; forcing it evaluates the call once and keeps the result.
use crate::builtin::{church_bool, get_false, get_true, print_continuation};
use crate::environment::{EnvRef, Environment};
use crate::expr::AnnotatedExpr;
use crate::error::{AnnotatedError, Error};
use crate::expr::{
    app, closure_term, var, Term, env_at, env_ok, lemma_env_ok_grows, lemma_env_ok_lookup, lemma_value_ok_grows, scoped,
    value_at, value_ok, Expr, ExprRef,
};
use crate::token::Token;
use crate::value::{kind_of, Arithmetic, BuiltIn, Operator, Value, ValueRef};
use std::rc::Rc;
use vstd::prelude::*;

verus! {

pub type ValueResult = Result<ValueRef, AnnotatedError>;

/// How deep forcing may nest before evaluation stops with `NestingTooDeep`.
pub const MAX_NESTING: u64 = 5000;

/// The state of a deferred call.
pub enum Thunk {
    /// Not forced yet: a call expression and the environment it was made in.
    Pending(ExprRef, EnvRef),
    /// Being forced; the token of its call.
    Forcing(Token),
    /// Forced, with its value, which is never lazy.
    Done(ValueRef),
}

/// Whether a value is a deferred call.
pub open spec fn is_lazy(v: Value) -> bool {
    v is Lazy
}

/// The text that printing a value writes, where the value fixes it: all but a
/// number, whose form the host arithmetic gives.
pub open spec fn printed_text(v: Value) -> Option<Seq<u8>> {
    match v {
        Value::String(s) => Some(s@),
        Value::Unit => Some(seq![('U' as u8), ('n' as u8), ('i' as u8), ('t' as u8)]),
        Value::Fn(_, _) => Some(
            seq![('F' as u8), ('u' as u8), ('n' as u8), ('c' as u8), ('t' as u8), ('i' as u8), ('o' as u8), ('n' as u8)],
        ),
        Value::Builtin(_) => Some(seq![('B' as u8), ('u' as u8), ('i' as u8), ('l' as u8), ('t' as u8), ('i' as u8), ('n' as u8), (' ' as u8), ('F' as u8), ('u' as u8), ('n' as u8), ('c' as u8), ('t' as u8), ('i' as u8), ('o' as u8), ('n' as u8)]),
        _ => None,
    }
}

/// Whether `Is` finds two values equal, where that does not rest on number
/// arithmetic: equal strings, or both unit; never values of different kinds.
pub open spec fn same_plain(l: Value, r: Value) -> Option<bool> {
    match (l, r) {
        (Value::Number(_), Value::Number(_)) => None,
        (Value::String(a), Value::String(b)) => Some(a@ == b@),
        (Value::Unit, Value::Unit) => Some(true),
        _ => Some(false),
    }
}

/// What applying a primitive other than printing gives: `Is` and `IsNot`
/// hold their first argument; their second forms give a Church boolean, which
/// is the plain comparison where it fixes one; an operator takes numbers only.
pub open spec fn applied(b: BuiltIn, x: ValueRef, r: Result<ValueRef, Error>) -> bool {
    match b {
        BuiltIn::Print => true,
        BuiltIn::PrintLn => true,
        BuiltIn::Is => r matches Ok(v) && *v == Value::Builtin(BuiltIn::IsOf(x)),
        BuiltIn::IsNot => r matches Ok(v) && *v == Value::Builtin(BuiltIn::IsNotOf(x)),
        BuiltIn::IsOf(l) => r matches Ok(v) && church_bool(*v) is Some && (same_plain(*l, *x) matches Some(
            s,
        ) ==> church_bool(*v) == Some(s)),
        BuiltIn::IsNotOf(l) => r matches Ok(v) && church_bool(*v) is Some && (same_plain(
            *l,
            *x,
        ) matches Some(s) ==> church_bool(*v) == Some(!s)),
        BuiltIn::Operation(op) => match *x {
            Value::Number(n) => r matches Ok(v) && *v == Value::Builtin(BuiltIn::OperationOf(op, n)),
            _ => r matches Err(Error::ArgumentToOperatorMustBeANumber(o)) && o == op,
        },
        BuiltIn::OperationOf(op, _) => match *x {
            Value::Number(_) => r matches Ok(v) && *v is Number,
            _ => r matches Err(Error::ArgumentToOperatorMustBeANumber(o)) && o == op,
        },
    }
}

/// Whether a thunk is well formed among `n` thunks: a pending one is a call,
/// scoped in its environment, which is well formed; a forced one holds a
/// well-formed value that is not lazy.
pub open spec fn thunk_ok(t: Thunk, n: nat) -> bool {
    match t {
        Thunk::Pending(call, env) => call.expr is Call && scoped(*call, env.values().len())
            && env_ok(*env, n),
        Thunk::Forcing(_) => true,
        Thunk::Done(x) => !is_lazy(*x) && value_ok(*x, n),
    }
}

/// A thunk well formed among `n` thunks stays so among more.
pub proof fn lemma_thunk_ok_grows(t: Thunk, n: nat, m: nat)
    requires
        thunk_ok(t, n),
        n <= m,
    ensures
        thunk_ok(t, m),
{
    match t {
        Thunk::Pending(_, env) => lemma_env_ok_grows(env_at(&env), n, m),
        Thunk::Done(x) => lemma_value_ok_grows(value_at(&x), n, m),
        Thunk::Forcing(_) => {},
    }
}

/// The value of a successful result.
pub open spec fn result_value(r: Result<ValueRef, Error>) -> Value {
    match r {
        Ok(v) => *v,
        Err(_) => Value::Unit,
    }
}

/// The value that a variable or a literal gives in `env` without creating a
/// thunk; nothing for the other forms.
pub open spec fn direct_ref(e: AnnotatedExpr, env: Environment) -> Option<ValueRef> {
    match e.expr {
        Expr::Identifier(d) => if d < env.values().len() {
            Some(env.values()[d as int])
        } else {
            None
        },
        Expr::Value(v) => Some(v),
        _ => None,
    }
}

/// A result with its error's token dropped.
pub open spec fn plain_result(r: ValueResult) -> Result<ValueRef, Error> {
    match r {
        Ok(v) => Ok(v),
        Err(e) => Err(e.error),
    }
}

/// What forcing the pending call `call` in `env`, thunk `id`, with nesting
/// budget `depth`, gives as `r`, where the callee and the argument are
/// variables or literals: with no budget left it stops; a callee that is the
/// thunk itself depends on itself; a closure gives its body's value in its
/// environment extended by the argument; a primitive gives what applying it
/// to the argument gives, its error attributed to the call; any other value
/// is not callable, attributed to the callee.
pub open spec fn pending_step(
    call: AnnotatedExpr,
    env: Environment,
    id: usize,
    depth: u64,
    r: ValueResult,
) -> bool {
    match call.expr {
        Expr::Call(c, a) => {
            &&& depth == 0 ==> r == Err::<ValueRef, AnnotatedError>(
                Error::NestingTooDeep.annotate_spec(call.token),
            )
            &&& depth > 0 ==> match direct_ref(*c, env) {
                Some(f) => match *f {
                    Value::Lazy(j) => j == id ==> r == Err::<ValueRef, AnnotatedError>(
                        Error::ValueDependsOnItself.annotate_spec(call.token),
                    ),
                    Value::Fn(body, cenv) => match direct_ref(*a, env) {
                        Some(x) => match direct_ref(*body, Environment::Value { value: x, parent: cenv }) {
                            Some(v) => !is_lazy(*v) ==> r == Ok::<ValueRef, AnnotatedError>(v),
                            None => true,
                        },
                        None => true,
                    },
                    Value::Builtin(b) => match direct_ref(*a, env) {
                        Some(x) => !is_lazy(*x) ==> applied(b, x, plain_result(r)) && (r matches Err(
                            e,
                        ) ==> e.token == call.token),
                        None => true,
                    },
                    w => r == Err::<ValueRef, AnnotatedError>(
                        Error::ValueNotCallable(kind_of(w)).annotate_spec(c.token),
                    ),
                },
                None => true,
            }
        },
        _ => true,
    }
}

/// Evaluates expressions, holding the thunks and the output written so far.
pub struct Interpreter<A: Arithmetic> {
    thunks: Vec<Thunk>,
    output: Vec<u8>,
    arith: A,
}

impl<A: Arithmetic> Interpreter<A> {
    /// The thunks, by index.
    pub closed spec fn store(&self) -> Seq<Thunk> {
        self.thunks@
    }

    /// The output written so far.
    pub closed spec fn written(&self) -> Seq<u8> {
        self.output@
    }

    /// Every thunk is well formed among those of the interpreter.
    pub open spec fn wf(&self) -> bool {
        forall|i: int|
            0 <= i < self.store().len() ==> thunk_ok(#[trigger] self.store()[i], self.store().len())
    }

    /// A fresh interpreter with no thunks and no output.
    pub fn new(arith: A) -> (r: Self)
        ensures
            r.wf(),
            r.store().len() == 0,
            r.written().len() == 0,
    {
        Interpreter { thunks: Vec::new(), output: Vec::new(), arith }
    }

    /// The output written so far.
    pub fn output(&self) -> (r: &Vec<u8>)
        ensures
            r@ == self.written(),
    {
        &self.output
    }

    /// Evaluates a whole program in the empty environment and forces it.
    pub fn interpret(&mut self, expr: &ExprRef) -> (r: ValueResult)
        requires
            old(self).wf(),
            scoped(**expr, 0),
        ensures
            final(self).wf(),
            r matches Ok(v) ==> !is_lazy(*v),
            expr.expr matches Expr::Value(v) ==> (!is_lazy(*v) ==> r == Ok::<ValueRef, AnnotatedError>(v)),
            expr.expr matches Expr::Fn(body) ==> (r matches Ok(v) && *v matches Value::Fn(b, e) && b == body
                && e.values().len() == 0),
    {
        let root = Environment::root();
        let value = self.evaluate(expr, &root);
        self.force(value, MAX_NESTING)
    }

    /// Evaluates without forcing: a call becomes a new pending thunk, a
    /// function a closure over `env`, a variable the value bound to it.
    pub fn evaluate(&mut self, expr: &ExprRef, env: &EnvRef) -> (r: ValueRef)
        requires
            old(self).wf(),
            scoped(**expr, env.values().len()),
            env_ok(**env, old(self).store().len()),
        ensures
            final(self).wf(),
            final(self).written() == old(self).written(),
            final(self).store().len() >= old(self).store().len(),
            forall|i: int|
                0 <= i < old(self).store().len() ==> final(self).store()[i] == old(self).store()[i],
            value_ok(*r, final(self).store().len()),
            match expr.expr {
                Expr::Identifier(d) => r == env.values()[d as int],
                Expr::Value(v) => r == v,
                Expr::Fn(body) => *r == Value::Fn(body, *env),
                Expr::Call(_, _) => *r == Value::Lazy(old(self).store().len() as usize)
                    && final(self).store() == old(self).store().push(Thunk::Pending(*expr, *env)),
            },
    {
        let n = self.thunks.len();
        match &expr.expr {
            Expr::Identifier(d) => {
                proof {
                    lemma_env_ok_lookup(env_at(env), n as nat, *d as int);
                }
                env.find(*d)
            },
            Expr::Value(v) => {
                proof {
                    lemma_value_ok_grows(value_at(v), 0, n as nat);
                }
                v.clone()
            },
            Expr::Fn(body) => Rc::new(Value::Fn(body.clone(), env.clone())),
            Expr::Call(_, _) => {
                proof {
                    assert forall|i: int| 0 <= i < n implies thunk_ok(
                        #[trigger] self.store()[i],
                        (n + 1) as nat,
                    ) by {
                        lemma_thunk_ok_grows(self.store()[i], n as nat, (n + 1) as nat);
                    }
                    lemma_env_ok_grows(env_at(env), n as nat, (n + 1) as nat);
                }
                self.thunks.push(Thunk::Pending(expr.clone(), env.clone()));
                Rc::new(Value::Lazy(n))
            },
        }
    }

    /// Forces a value: a value that is not lazy is returned as it is; a
    /// forced thunk gives its value; a pending one is evaluated, with its
    /// result kept in the thunk; one being forced depends on itself.
    pub fn force(&mut self, value: ValueRef, depth: u64) -> (r: ValueResult)
        requires
            old(self).wf(),
            value_ok(*value, old(self).store().len()),
        ensures
            final(self).wf(),
            final(self).store().len() >= old(self).store().len(),
            r matches Ok(v) ==> !is_lazy(*v) && value_ok(*v, final(self).store().len()),
            !is_lazy(*value) ==> r == Ok::<ValueRef, AnnotatedError>(value) && *final(self)
                == *old(self),
            *value matches Value::Lazy(id) ==> match old(self).store()[id as int] {
                Thunk::Done(x) => r == Ok::<ValueRef, AnnotatedError>(x) && *final(self) == *old(
                    self,
                ),
                Thunk::Forcing(token) => r == Err::<ValueRef, AnnotatedError>(
                    Error::ValueDependsOnItself.annotate_spec(token),
                ) && *final(self) == *old(self),
                Thunk::Pending(call, env) => {
                    &&& r matches Ok(v) ==> final(self).store()[id as int] == Thunk::Done(v)
                    &&& r is Err ==> final(self).store()[id as int] == old(self).store()[id as int]
                    &&& pending_step(*call, *env, id, depth, r)
                    &&& depth == 0 ==> *final(self) == *old(self)
                },
            },
        decreases depth,
    {
        let id = match &*value {
            Value::Lazy(id) => *id,
            _ => return Ok(value),
        };
        let (call_expr, env) = match &self.thunks[id] {
            Thunk::Done(x) => return Ok(x.clone()),
            Thunk::Forcing(token) => return Err(Error::ValueDependsOnItself.annotate(*token)),
            Thunk::Pending(e, env) => (e.clone(), env.clone()),
        };
        if depth == 0 {
            return Err(Error::NestingTooDeep.annotate(call_expr.token));
        }
        let (callee_expr, arg_expr) = match &call_expr.expr {
            Expr::Call(callee, arg) => (callee.clone(), arg.clone()),
            _ => vstd::pervasive::unreached(),
        };
        self.thunks.set(id, Thunk::Forcing(call_expr.token));
        let n0 = self.thunks.len();
        assert forall|i: int| 0 <= i < n0 implies thunk_ok(#[trigger] self.store()[i], n0 as nat) by {
            if i != id {
                assert(self.store()[i] == old(self).store()[i]);
            }
        }
        let callee = self.evaluate(&callee_expr, &env);
        let callee = match self.force(callee, depth - 1) {
            Ok(v) => v,
            Err(e) => {
                self.restore(id, &call_expr, &env, Ghost(n0 as nat));
                return Err(e);
            },
        };
        let n1 = self.thunks.len();
        proof {
            lemma_env_ok_grows(env_at(&env), n0 as nat, n1 as nat);
        }
        let arg = self.evaluate(&arg_expr, &env);
        let n2 = self.thunks.len();
        proof {
            lemma_value_ok_grows(value_at(&callee), n1 as nat, n2 as nat);
            lemma_env_ok_grows(env_at(&env), n0 as nat, n2 as nat);
        }
        let result = match &*callee {
            Value::Fn(body, closure_env) => {
                let inner = Environment::extend(closure_env.clone(), arg);
                assert(env_ok(*inner, n2 as nat));
                self.evaluate(body, &inner)
            },
            Value::Builtin(b) => {
                let arg = match self.force(arg, depth - 1) {
                    Ok(v) => v,
                    Err(e) => {
                        self.restore(id, &call_expr, &env, Ghost(n0 as nat));
                        return Err(e);
                    },
                };
                match self.apply_builtin(b, arg) {
                    Ok(v) => v,
                    Err(e) => {
                        self.restore(id, &call_expr, &env, Ghost(n0 as nat));
                        return Err(e.annotate(call_expr.token));
                    },
                }
            },
            _ => {
                self.restore(id, &call_expr, &env, Ghost(n0 as nat));
                return Err(Error::ValueNotCallable(callee.get_type()).annotate(callee_expr.token));
            },
        };
        let result = match self.force(result, depth - 1) {
            Ok(v) => v,
            Err(e) => {
                self.restore(id, &call_expr, &env, Ghost(n0 as nat));
                return Err(e);
            },
        };
        self.thunks.set(id, Thunk::Done(result.clone()));
        Ok(result)
    }

    /// Puts a thunk whose forcing failed back to pending.
    fn restore(&mut self, id: usize, call: &ExprRef, env: &EnvRef, n0: Ghost<nat>)
        requires
            old(self).wf(),
            id < old(self).store().len(),
            n0@ <= old(self).store().len(),
            call.expr is Call,
            scoped(**call, env.values().len()),
            env_ok(**env, n0@),
        ensures
            final(self).wf(),
            final(self).written() == old(self).written(),
            final(self).store().len() == old(self).store().len(),
            final(self).store()[id as int] == Thunk::Pending(*call, *env),
    {
        let n = self.thunks.len();
        proof {
            lemma_env_ok_grows(env_at(env), n0@, n as nat);
        }
        self.thunks.set(id, Thunk::Pending(call.clone(), env.clone()));
        assert forall|i: int| 0 <= i < n implies thunk_ok(#[trigger] self.store()[i], n as nat) by {
            if i != id {
                assert(self.store()[i] == old(self).store()[i]);
            }
        }
    }

    /// Writes the printed form of a value that is not lazy.
    fn write_value(&mut self, x: &Value)
        requires
            !is_lazy(*x),
        ensures
            final(self).store() == old(self).store(),
            printed_text(*x) matches Some(t) ==> final(self).written() == old(self).written() + t,
    {
        let text: Vec<u8> = match x {
            Value::Number(n) => self.arith.render(*n),
            Value::String(s) => s.clone(),
            Value::Unit => vec![('U' as u8), ('n' as u8), ('i' as u8), ('t' as u8)],
            Value::Fn(_, _) => vec![('F' as u8), ('u' as u8), ('n' as u8), ('c' as u8), ('t' as u8), ('i' as u8), ('o' as u8), ('n' as u8)],
            Value::Builtin(_) => vec![
                ('B' as u8), ('u' as u8), ('i' as u8), ('l' as u8), ('t' as u8), ('i' as u8), ('n' as u8),
                (' ' as u8),
                ('F' as u8), ('u' as u8), ('n' as u8), ('c' as u8), ('t' as u8), ('i' as u8), ('o' as u8), ('n' as u8),
            ],
            Value::Lazy(_) => Vec::new(),
        };
        self.output.extend_from_slice(text.as_slice());
    }

    /// Writes the printed form of `x`, and a line feed where `newline`;
    /// gives the continuation that printing returns.
    fn print(&mut self, x: &Value, newline: bool) -> (r: Result<ValueRef, Error>)
        requires
            old(self).wf(),
            !is_lazy(*x),
        ensures
            final(self).wf(),
            final(self).store() == old(self).store(),
            r matches Ok(v) && *v matches Value::Fn(_, _) && value_ok(*v, 0) && closure_term(*v)
                == Some(app(var(0), Term::Lit(Value::Unit))),
            printed_text(*x) matches Some(t) ==> final(self).written() == (if newline {
                old(self).written() + t.push(10)
            } else {
                old(self).written() + t
            }),
    {
        self.write_value(x);
        if newline {
            self.output.push(10);
        }
        Ok(print_continuation())
    }

    /// Whether `Is` finds `l` and `r` equal.
    fn same(&self, l: &Value, r: &Value) -> (b: bool)
        ensures
            same_plain(*l, *r) matches Some(s) ==> b == s,
    {
        match (l, r) {
            (Value::Number(a), Value::Number(b)) => self.arith.equal(*a, *b),
            (Value::String(a), Value::String(b)) => crate::identifier::bytes_equal(a.as_slice(), b.as_slice()),
            (Value::Unit, Value::Unit) => true,
            _ => false,
        }
    }

    /// Applies a primitive to a forced argument.
    pub fn apply_builtin(&mut self, b: &BuiltIn, x: ValueRef) -> (r: Result<ValueRef, Error>)
        requires
            old(self).wf(),
            !is_lazy(*x),
        ensures
            final(self).wf(),
            final(self).store() == old(self).store(),
            r matches Ok(v) ==> value_ok(*v, final(self).store().len()),
            applied(*b, x, r),
            !(*b is Print || *b is PrintLn) ==> final(self).written() == old(self).written(),
            (*b is Print || *b is PrintLn) ==> (r matches Ok(v) && closure_term(*v) == Some(
                app(var(0), Term::Lit(Value::Unit)),
            )),
            *b is Print ==> (printed_text(*x) matches Some(t) ==> final(self).written() == old(
                self,
            ).written() + t),
            *b is PrintLn ==> (printed_text(*x) matches Some(t) ==> final(self).written() == old(
                self,
            ).written() + t.push(10)),
    {
        let n = self.thunks.len();
        let r = match b {
            BuiltIn::Print => self.print(&*x, false),
            BuiltIn::PrintLn => self.print(&*x, true),
            BuiltIn::Is => Ok(Rc::new(Value::Builtin(BuiltIn::IsOf(x)))),
            BuiltIn::IsNot => Ok(Rc::new(Value::Builtin(BuiltIn::IsNotOf(x)))),
            BuiltIn::IsOf(l) => if self.same(&**l, &*x) {
                Ok(get_true())
            } else {
                Ok(get_false())
            },
            BuiltIn::IsNotOf(l) => if self.same(&**l, &*x) {
                Ok(get_false())
            } else {
                Ok(get_true())
            },
            BuiltIn::Operation(op) => match x.number_for_operator() {
                Some(m) => Ok(Rc::new(Value::Builtin(BuiltIn::OperationOf(*op, m)))),
                None => Err(Error::ArgumentToOperatorMustBeANumber(*op)),
            },
            BuiltIn::OperationOf(op, l) => match x.number_for_operator() {
                Some(m) => Ok(Rc::new(Value::Number(self.arith.apply(*op, *l, m)))),
                None => Err(Error::ArgumentToOperatorMustBeANumber(*op)),
            },
        };
        proof {
            if r is Ok {
                lemma_value_ok_grows(result_value(r), 0, n as nat);
            }
        }
        r
    }
}

} // verus!
