//! A single-pass recursive-descent compiler from tokens to the expression
//! tree. Names become de Bruijn depths; `let`, `then` and functions of several
//! arguments become functions of one.
use crate::builtin::{default_bindings, default_names, default_shapes, standard_value};
use crate::error::{AnnotatedError, Error};
use crate::expr::{
    sapp, scoped, shape_of, slam, slams, value_ok, value_shape, AnnotatedExpr, Expr, ExprRef, Shape,
};
use crate::identifier::{depth_of, IdentifierTable};
use crate::number::{decimal_value, parse_decimal};
use crate::scanner::{scanned, tokenize};
use crate::token::{Token, TokenType};
use crate::value::{Arithmetic, Value, ValueRef};
use std::rc::Rc;
use vstd::prelude::*;
use vstd::slice::{slice_subrange, slice_to_vec};
use vstd::string::StringSliceAdditionalSpecFns;

verus! {

/// What a parsing step gives: the expression and the index of the next token.
pub type ParseResult = Result<(ExprRef, usize), AnnotatedError>;

/// A name and the value it is bound to around the program.
pub type Binding = (Vec<u8>, ValueRef);

/// The kind of the token at `p`; `Eof` past the end.
pub open spec fn kind_at(ts: Seq<Token>, p: int) -> TokenType {
    if 0 <= p < ts.len() {
        ts[p].token_type
    } else {
        TokenType::Eof
    }
}

/// The source text of the token at `p`.
pub open spec fn text_at(ts: Seq<Token>, src: Seq<u8>, p: int) -> Seq<u8> {
    src.subrange(ts[p].start as int, ts[p].end as int)
}

/// The text a string token holds: between `str` and its whitespace and the
/// whitespace and closing `ing`; to the end where the string is not closed;
/// nothing for `string`.
pub open spec fn string_content(src: Seq<u8>, t: Token, terminated: bool) -> Seq<u8> {
    let len = t.end - t.start;
    if !terminated {
        if len > 4 {
            src.subrange(t.start + 4, t.end as int)
        } else {
            Seq::empty()
        }
    } else if len >= 8 {
        src.subrange(t.start + 4, t.end - 4)
    } else {
        Seq::empty()
    }
}

/// The shape of the tree behind a shared reference.
pub open spec fn shape_at(e: &ExprRef) -> Shape {
    shape_of(**e)
}

/// What goes wrong when compiling, at a token.
pub enum Fault {
    VariableName,
    FunctionArgument,
    Be,
    In,
    EofAfterExpression,
    ExpressionFound,
    EndAfterDoBlock,
    DoAsFunctionBody,
    NotDefined(Seq<u8>),
}

/// What parses at a token: the shape of the tree and the index of the token
/// after it; or the first fault, with the index of its token.
pub type Parsed = Result<(Shape, int), (int, Fault)>;

/// The grammar, as a parser of shapes: what an expression that starts at token
/// `p` compiles to and where it ends, with `names` in scope; or where and how
/// it first fails.
/// `expression = then_expr`
pub open spec fn expr_at(ts: Seq<Token>, src: Seq<u8>, names: Seq<Seq<u8>>, p: int) -> Parsed
    decreases ts.len() - p, 5nat,
{
    if p < 0 || p >= ts.len() {
        Err((p, Fault::ExpressionFound))
    } else {
        then_at(ts, src, names, p)
    }
}

/// `then_expr = let_expr { "then" let_expr }`: `A then B` is `A` applied to a
/// function of one ignored argument with body `B`, left-associative.
pub open spec fn then_at(ts: Seq<Token>, src: Seq<u8>, names: Seq<Seq<u8>>, p: int) -> Parsed
    decreases ts.len() - p, 4nat,
{
    if p < 0 || p >= ts.len() {
        Err((p, Fault::ExpressionFound))
    } else {
        match let_at(ts, src, names, p) {
            Err(f) => Err(f),
            Ok((s, q)) => if q <= p || q > ts.len() {
                Err((q, Fault::ExpressionFound))
            } else {
                then_tail(ts, src, names, q, s)
            },
        }
    }
}

/// The `{ "then" let_expr }` part of `then_expr`, from token `q`, after `acc`.
pub open spec fn then_tail(
    ts: Seq<Token>,
    src: Seq<u8>,
    names: Seq<Seq<u8>>,
    q: int,
    acc: Shape,
) -> Parsed
    decreases ts.len() - q, 4nat,
{
    if q < 0 || q >= ts.len() {
        Err((q, Fault::ExpressionFound))
    } else if kind_at(ts, q) == TokenType::Then {
        match let_at(ts, src, names.push("then".spec_bytes()), q + 1) {
            Err(f) => Err(f),
            Ok((s2, q2)) => if q2 <= q || q2 > ts.len() {
                Err((q2, Fault::ExpressionFound))
            } else {
                then_tail(ts, src, names, q2, sapp(acc, slam(s2)))
            },
        }
    } else {
        Ok((acc, q))
    }
}

/// `let_expr = "let" Ident "be" then_expr "in" then_expr | call`: the function
/// of the name with the body, applied to the value; the name is in scope in
/// the body only.
pub open spec fn let_at(ts: Seq<Token>, src: Seq<u8>, names: Seq<Seq<u8>>, p: int) -> Parsed
    decreases ts.len() - p, 3nat,
{
    if p < 0 || p >= ts.len() {
        Err((p, Fault::ExpressionFound))
    } else if kind_at(ts, p) == TokenType::Let {
        if kind_at(ts, p + 1) != TokenType::Identifier {
            Err((p + 1, Fault::VariableName))
        } else if kind_at(ts, p + 2) != TokenType::Be {
            Err((p + 2, Fault::Be))
        } else {
            match then_at(ts, src, names, p + 3) {
                Err(f) => Err(f),
                Ok((v, q)) => if q <= p {
                    Err((q, Fault::ExpressionFound))
                } else if kind_at(ts, q) != TokenType::In {
                    Err((q, Fault::In))
                } else {
                    match then_at(ts, src, names.push(text_at(ts, src, p + 1)), q + 1) {
                        Err(f) => Err(f),
                        Ok((body, q2)) => Ok((sapp(slam(body), v), q2)),
                    }
                },
            }
        }
    } else {
        call_at(ts, src, names, p)
    }
}

/// `call = value { "of" value }`, left-associative.
pub open spec fn call_at(ts: Seq<Token>, src: Seq<u8>, names: Seq<Seq<u8>>, p: int) -> Parsed
    decreases ts.len() - p, 2nat,
{
    if p < 0 || p >= ts.len() {
        Err((p, Fault::ExpressionFound))
    } else {
        match value_at(ts, src, names, p) {
            Err(f) => Err(f),
            Ok((s, q)) => if q <= p || q > ts.len() {
                Err((q, Fault::ExpressionFound))
            } else {
                call_tail(ts, src, names, q, s)
            },
        }
    }
}

/// The `{ "of" value }` part of `call`, from token `q`, after `acc`.
pub open spec fn call_tail(
    ts: Seq<Token>,
    src: Seq<u8>,
    names: Seq<Seq<u8>>,
    q: int,
    acc: Shape,
) -> Parsed
    decreases ts.len() - q, 2nat,
{
    if q < 0 || q >= ts.len() {
        Err((q, Fault::ExpressionFound))
    } else if kind_at(ts, q) == TokenType::Of {
        match value_at(ts, src, names, q + 1) {
            Err(f) => Err(f),
            Ok((s2, q2)) => if q2 <= q || q2 > ts.len() {
                Err((q2, Fault::ExpressionFound))
            } else {
                call_tail(ts, src, names, q2, sapp(acc, s2))
            },
        }
    } else {
        Ok((acc, q))
    }
}

/// `value = "do" expression "end" | "fn" Ident { Ident } "do" expression "end"
/// | String | Number | Ident`, a name being one in scope, read as its depth.
pub open spec fn value_at(ts: Seq<Token>, src: Seq<u8>, names: Seq<Seq<u8>>, p: int) -> Parsed
    decreases ts.len() - p, 1nat,
{
    if p < 0 || p >= ts.len() {
        Err((p, Fault::ExpressionFound))
    } else {
        match kind_at(ts, p) {
            TokenType::Do => block_at(ts, src, names, p + 1),
            TokenType::Fn => fn_at(ts, src, names, p + 1),
            TokenType::String(terminated) => Ok(
                (Shape::Str(string_content(src, ts[p], terminated)), p + 1),
            ),
            TokenType::Number => if decimal_value(text_at(ts, src, p)) is Some {
                Ok((Shape::Num, p + 1))
            } else {
                Err((p, Fault::ExpressionFound))
            },
            TokenType::Identifier => match depth_of(names, text_at(ts, src, p)) {
                Some(d) => Ok((Shape::Var(d as usize), p + 1)),
                None => Err((p, Fault::NotDefined(text_at(ts, src, p)))),
            },
            _ => Err((p, Fault::ExpressionFound)),
        }
    }
}

/// `expression "end"`, after a `do`.
pub open spec fn block_at(ts: Seq<Token>, src: Seq<u8>, names: Seq<Seq<u8>>, p: int) -> Parsed
    decreases ts.len() - p, 6nat,
{
    if p < 0 || p >= ts.len() {
        Err((p, Fault::ExpressionFound))
    } else {
        match expr_at(ts, src, names, p) {
            Err(f) => Err(f),
            Ok((s, q)) => if q <= p {
                Err((q, Fault::ExpressionFound))
            } else if kind_at(ts, q) != TokenType::End {
                Err((q, Fault::EndAfterDoBlock))
            } else {
                Ok((s, q + 1))
            },
        }
    }
}

/// `Ident { Ident } "do" expression "end"`, after a `fn`: one function per
/// argument around the body; the last argument is innermost.
pub open spec fn fn_at(ts: Seq<Token>, src: Seq<u8>, names: Seq<Seq<u8>>, p: int) -> Parsed
    decreases ts.len() - p, 8nat,
{
    if p < 0 || p >= ts.len() {
        Err((p, Fault::ExpressionFound))
    } else if kind_at(ts, p) != TokenType::Identifier {
        Err((p, Fault::FunctionArgument))
    } else {
        fn_args(ts, src, names.push(text_at(ts, src, p)), p + 1, 1)
    }
}

/// The further arguments of a function, then its body, `n` arguments read.
pub open spec fn fn_args(ts: Seq<Token>, src: Seq<u8>, names: Seq<Seq<u8>>, q: int, n: nat) -> Parsed
    decreases ts.len() - q, 7nat,
{
    if q < 0 || q >= ts.len() {
        Err((q, Fault::ExpressionFound))
    } else if kind_at(ts, q) == TokenType::Identifier {
        fn_args(ts, src, names.push(text_at(ts, src, q)), q + 1, n + 1)
    } else if kind_at(ts, q) == TokenType::Do {
        match block_at(ts, src, names, q + 1) {
            Err(f) => Err(f),
            Ok((s, q2)) => Ok((slams(s, n), q2)),
        }
    } else {
        Err((q, Fault::DoAsFunctionBody))
    }
}

/// Whether a program compiles: an expression over all its tokens, with the
/// bound `names` in scope.
#[verifier::opaque]
pub open spec fn accepts(ts: Seq<Token>, src: Seq<u8>, names: Seq<Seq<u8>>) -> bool {
    match expr_at(ts, src, names, 0) {
        Ok((_, q)) => kind_at(ts, q) == TokenType::Eof,
        Err(_) => false,
    }
}

/// Where and how compiling a program first fails, if it does.
pub open spec fn compile_fault(ts: Seq<Token>, src: Seq<u8>, names: Seq<Seq<u8>>) -> Option<(int, Fault)> {
    match expr_at(ts, src, names, 0) {
        Ok((_, q)) => if kind_at(ts, q) == TokenType::Eof {
            None
        } else {
            Some((q, Fault::EofAfterExpression))
        },
        Err(f) => Some(f),
    }
}

/// The program's tree inside the bindings from the `k`-th on: each binding,
/// innermost last, is a function of its name applied to its value.
pub open spec fn wrap_bindings(s: Shape, providers: Seq<Shape>, k: int) -> Shape
    decreases providers.len() - k,
{
    if k < 0 || k >= providers.len() {
        s
    } else {
        sapp(slam(wrap_bindings(s, providers, k + 1)), providers[k])
    }
}

/// Whether an error is the fault `f` at token `p`.
pub open spec fn is_fault(e: AnnotatedError, ts: Seq<Token>, p: int, f: Fault) -> bool {
    &&& 0 <= p < ts.len()
    &&& e.token == ts[p]
    &&& match f {
        Fault::VariableName => e.error == Error::ExpectedIdentifierAsVariableName,
        Fault::FunctionArgument => e.error == Error::ExpectedIdentifierAsFunctionArgument,
        Fault::Be => e.error == Error::ExpectedBeInAssignment,
        Fault::In => e.error == Error::ExpectedInAfterAssignment,
        Fault::EofAfterExpression => e.error == Error::ExpectedEofAfterExpression,
        Fault::ExpressionFound => e.error == Error::ExpectedExpressionFound(ts[p]),
        Fault::EndAfterDoBlock => e.error == Error::ExpectedEndAfterDoBlock,
        Fault::DoAsFunctionBody => e.error == Error::ExpectedDoAsFunctionBody,
        Fault::NotDefined(name) => e.error matches Error::IdentifierIsNotDefined(n) && n@ == name,
    }
}

/// A parsing step agrees with the spec parser: it succeeds exactly where that
/// does, ending at the same token, with a tree of the same shape; and it
/// fails with the same fault at the same token.
pub open spec fn agrees(r: ParseResult, s: Parsed, ts: Seq<Token>) -> bool {
    match s {
        Ok((sh, q)) => r matches Ok((e, p)) && p == q && shape_of(*e) == sh,
        Err((q, f)) => r matches Err(e) && is_fault(e, ts, q, f),
    }
}

/// Compiles one source text.
pub struct Compiler {
    source: Vec<u8>,
    tokens: Vec<Token>,
    extra_bindings: Vec<Binding>,
}

/// On success: the next index lies past `pos`, the expression is scoped in the
/// names that were there, and the names are as they were.
pub open spec fn parsed(
    r: ParseResult,
    pos: usize,
    n_tokens: nat,
    before: Seq<Seq<u8>>,
    after: Seq<Seq<u8>>,
) -> bool {
    r matches Ok((e, p)) ==> pos < p < n_tokens && scoped(*e, before.len()) && after == before
}

impl Compiler {
    pub closed spec fn wf(&self) -> bool {
        &&& self.tokens@.len() > 0
        &&& self.tokens@.last().token_type == TokenType::Eof
        &&& forall|i: int|
            0 <= i < self.tokens@.len() - 1 ==> (#[trigger] self.tokens@[i]).token_type
                != TokenType::Eof
        &&& forall|i: int|
            0 <= i < self.tokens@.len() ==> (#[trigger] self.tokens@[i]).start
                <= self.tokens@[i].end <= self.source@.len()
        &&& forall|i: int|
            0 <= i < self.extra_bindings@.len() ==> value_ok(*(#[trigger] self.extra_bindings@[i]).1, 0)
    }

    /// The number of names bound around the program.
    pub closed spec fn n_bindings(&self) -> nat {
        self.extra_bindings@.len()
    }

    /// The source text, as bytes.
    pub closed spec fn text(&self) -> Seq<u8> {
        self.source@
    }

    /// The tokens of the source.
    pub closed spec fn tokens(&self) -> Seq<Token> {
        self.tokens@
    }

    /// The shapes of the values bound around the program, outermost first.
    pub closed spec fn binding_shapes(&self) -> Seq<Shape> {
        self.extra_bindings@.map_values(|b: Binding| value_shape(*b.1))
    }

    /// The names bound around the program, outermost first.
    pub closed spec fn binding_names(&self) -> Seq<Seq<u8>> {
        self.extra_bindings@.map_values(|b: Binding| b.0@)
    }

    /// A compiler for `source`, with no names bound around it yet.
    pub fn new(source: &str) -> (r: Compiler)
        ensures
            r.wf(),
            r.n_bindings() == 0,
            r.binding_names() == Seq::<Seq<u8>>::empty(),
            r.binding_shapes() == Seq::<Shape>::empty(),
            r.text() == source.spec_bytes(),
            scanned(r.text(), r.tokens()),
    {
        let tokens = tokenize(source);
        let mut bytes: Vec<u8> = Vec::new();
        bytes.extend_from_slice(source.as_bytes());
        assert(bytes@ =~= source.spec_bytes());
        let r = Compiler { source: bytes, tokens, extra_bindings: Vec::new() };
        assert(r.binding_names() =~= Seq::<Seq<u8>>::empty());
        assert(r.binding_shapes() =~= Seq::<Shape>::empty());
        r
    }

    /// The names that every program has in scope, with their values.
    pub fn default_bindings() -> (r: Vec<Binding>)
        ensures
            forall|i: int| 0 <= i < r@.len() ==> value_ok(*(#[trigger] r@[i]).1, 0),
            r@.map_values(|b: Binding| b.0@) == default_names(),
            forall|i: int| 0 <= i < r@.len() ==> standard_value(i, *(#[trigger] r@[i]).1),
            r@.map_values(|b: Binding| value_shape(*b.1)) == default_shapes(),
    {
        default_bindings()
    }

    /// Binds more names around the program.
    pub fn with_bindings(&mut self, bindings: Vec<Binding>)
        requires
            old(self).wf(),
            forall|i: int| 0 <= i < bindings@.len() ==> value_ok(*(#[trigger] bindings@[i]).1, 0),
        ensures
            final(self).wf(),
            final(self).n_bindings() == old(self).n_bindings() + bindings@.len(),
            final(self).binding_names() == old(self).binding_names() + bindings@.map_values(
                |b: Binding| b.0@,
            ),
            final(self).tokens() == old(self).tokens(),
            final(self).text() == old(self).text(),
            final(self).binding_shapes() == old(self).binding_shapes() + bindings@.map_values(
                |b: Binding| value_shape(*b.1),
            ),
    {
        let mut i: usize = 0;
        assert(bindings@.map_values(|b: Binding| b.0@).take(0) =~= Seq::<Seq<u8>>::empty());
        assert(old(self).binding_names() + Seq::<Seq<u8>>::empty() =~= old(self).binding_names());
        assert(bindings@.map_values(|b: Binding| value_shape(*b.1)).take(0) =~= Seq::<Shape>::empty());
        assert(old(self).binding_shapes() + Seq::<Shape>::empty() =~= old(self).binding_shapes());
        while i < bindings.len()
            invariant
                self.wf(),
                i <= bindings@.len(),
                self.n_bindings() == old(self).n_bindings() + i,
                self.tokens@ == old(self).tokens@,
                self.source@ == old(self).source@,
                self.binding_names() == old(self).binding_names() + bindings@.map_values(
                    |b: Binding| b.0@,
                ).take(i as int),
                self.binding_shapes() == old(self).binding_shapes() + bindings@.map_values(
                    |b: Binding| value_shape(*b.1),
                ).take(i as int),
                forall|j: int| 0 <= j < bindings@.len() ==> value_ok(*(#[trigger] bindings@[j]).1, 0),
            decreases bindings@.len() - i,
        {
            let (name, value) = &bindings[i];
            let nm = name.clone();
            assert(nm@ == bindings@[i as int].0@);
            let vv = value.clone();
            assert(*vv == *bindings@[i as int].1);
            let ghost before = self.binding_names();
            let ghost before_shapes = self.binding_shapes();
            self.extra_bindings.push((nm, vv));
            assert(self.binding_names() =~= before.push(bindings@[i as int].0@));
            assert(self.binding_shapes() =~= before_shapes.push(value_shape(*bindings@[i as int].1)));
            assert(self.binding_shapes() =~= old(self).binding_shapes() + bindings@.map_values(
                |b: Binding| value_shape(*b.1),
            ).take(i + 1));
            assert(self.binding_names() =~= old(self).binding_names() + bindings@.map_values(
                |b: Binding| b.0@,
            ).take(i + 1));
            i += 1;
        }
        assert(bindings@.map_values(|b: Binding| b.0@).take(i as int) =~= bindings@.map_values(
            |b: Binding| b.0@,
        ));
        assert(bindings@.map_values(|b: Binding| value_shape(*b.1)).take(i as int) =~= bindings@.map_values(
            |b: Binding| value_shape(*b.1),
        ));
    }

    /// Compiles the program: every name resolves to a binder or to one of the
    /// bindings around it, and all the source is used.
    pub fn compile<A: Arithmetic>(&self, arith: &A) -> (r: Result<ExprRef, AnnotatedError>)
        requires
            self.wf(),
        ensures
            r matches Ok(e) ==> scoped(*e, 0),
            (r is Ok) == accepts(self.tokens(), self.text(), self.binding_names()),
            r matches Ok(e) ==> (expr_at(self.tokens(), self.text(), self.binding_names(), 0) matches Ok(
                (s, _),
            ) && shape_of(*e) == wrap_bindings(s, self.binding_shapes(), 0)),
            r matches Err(e) ==> (compile_fault(self.tokens(), self.text(), self.binding_names()) matches Some(
                (p, f),
            ) && is_fault(e, self.tokens(), p, f)),
    {
        proof {
            reveal(accepts);
        }
        let mut names = IdentifierTable::new();
        let n = self.extra_bindings.len();
        let mut i: usize = 0;
        while i < n
            invariant
                n == self.extra_bindings@.len(),
                i <= n,
                names@.len() == i,
                names@ == self.binding_names().take(i as int),
            decreases n - i,
        {
            names.push(self.extra_bindings[i].0.as_slice());
            assert(names@ =~= self.binding_names().take(i + 1));
            i += 1;
        }
        assert(names@ =~= self.binding_names());
        let (mut expr, p) = match self.expression(&mut names, arith, 0) {
            Ok(x) => x,
            Err(e) => return Err(e),
        };
        let ghost s0 = shape_at(&expr);
        let mut k = n;
        while k > 0
            invariant
                self.wf(),
                k <= n,
                n == self.extra_bindings@.len(),
                scoped(*expr, k as nat),
                shape_of(*expr) == wrap_bindings(s0, self.binding_shapes(), k as int),
            decreases k,
        {
            k -= 1;
            let function = Expr::Fn(expr).default_ref();
            assert(scoped(*function, k as nat));
            let provider = Expr::Value(self.extra_bindings[k].1.clone()).default_ref();
            assert(scoped(*provider, k as nat));
            assert(shape_of(*provider) == self.binding_shapes()[k as int]);
            assert(shape_of(*function) == slam(wrap_bindings(s0, self.binding_shapes(), k + 1)));
            expr = Expr::Call(function, provider).default_ref();
        }
        match self.match_consume(p, TokenType::Eof, Error::ExpectedEofAfterExpression) {
            Ok(_) => Ok(expr),
            Err(e) => Err(e),
        }
    }

    fn peek(&self, pos: usize) -> (t: Token)
        requires
            self.wf(),
            pos < self.tokens@.len(),
        ensures
            t == self.tokens@[pos as int],
    {
        self.tokens[pos]
    }

    /// The token at `pos` and the index after it; `Eof` is never passed.
    fn consume(&self, pos: usize) -> (r: (Token, usize))
        requires
            self.wf(),
            pos < self.tokens@.len(),
        ensures
            r.0 == self.tokens@[pos as int],
            r.0.start <= r.0.end <= self.source@.len(),
            r.0.token_type == TokenType::Eof ==> r.1 == pos,
            r.0.token_type != TokenType::Eof ==> r.1 == pos + 1,
            r.1 < self.tokens@.len(),
    {
        let n = self.tokens.len();
        let t = self.tokens[pos];
        if t.token_type == TokenType::Eof {
            (t, pos)
        } else {
            assert(pos != n - 1);
            (t, pos + 1)
        }
    }

    /// Consumes the token at `pos` where it is of the kind given.
    fn matches(&self, pos: usize, kind: TokenType) -> (r: Option<(Token, usize)>)
        requires
            self.wf(),
            pos < self.tokens@.len(),
        ensures
            r matches Some((t, p)) ==> t.token_type == kind && t == self.tokens@[pos as int]
                && t.start <= t.end <= self.source@.len() && p < self.tokens@.len() && (kind
                != TokenType::Eof ==> p == pos + 1),
            (r is None) == (self.tokens@[pos as int].token_type != kind),
    {
        if self.peek(pos).token_type == kind {
            Some(self.consume(pos))
        } else {
            None
        }
    }

    /// Consumes a token of the kind given, or fails with `error` at the token there.
    fn match_consume(&self, pos: usize, kind: TokenType, error: Error) -> (r: Result<
        (Token, usize),
        AnnotatedError,
    >)
        requires
            self.wf(),
            pos < self.tokens@.len(),
        ensures
            r matches Ok((t, p)) ==> t.token_type == kind && t == self.tokens@[pos as int]
                && t.start <= t.end <= self.source@.len() && p < self.tokens@.len() && (kind
                != TokenType::Eof ==> p == pos + 1),
            (self.tokens@[pos as int].token_type == kind) == (r is Ok),
            r matches Err(e) ==> e == error.annotate_spec(self.tokens@[pos as int]),
    {
        let peeked = self.peek(pos);
        match self.matches(pos, kind) {
            Some(x) => Ok(x),
            None => Err(error.annotate(peeked)),
        }
    }

    /// The source text of a token.
    fn lexeme(&self, t: Token) -> (r: &[u8])
        requires
            t.start <= t.end <= self.source@.len(),
        ensures
            r@ == self.source@.subrange(t.start as int, t.end as int),
    {
        slice_subrange(self.source.as_slice(), t.start, t.end)
    }

    fn expression<A: Arithmetic>(&self, names: &mut IdentifierTable, arith: &A, pos: usize) -> (r:
        ParseResult)
        requires
            self.wf(),
            pos < self.tokens@.len(),
        ensures
            parsed(r, pos, self.tokens@.len(), old(names)@, final(names)@),
                    agrees(r, expr_at(self.tokens@, self.source@, old(names)@, pos as int), self.tokens@),
        decreases self.tokens@.len() - pos, 5nat,
    {
        self.then_expression(names, arith, pos)
    }

    /// `a then b then c`: each right side becomes a function of one ignored
    /// argument, applied as the argument of what stands to its left.
    fn then_expression<A: Arithmetic>(
        &self,
        names: &mut IdentifierTable,
        arith: &A,
        pos: usize,
    ) -> (r: ParseResult)
        requires
            self.wf(),
            pos < self.tokens@.len(),
        ensures
            parsed(r, pos, self.tokens@.len(), old(names)@, final(names)@),
                    agrees(r, then_at(self.tokens@, self.source@, old(names)@, pos as int), self.tokens@),
        decreases self.tokens@.len() - pos, 4nat,
    {
        let (mut lhs, mut p) = match self.let_expression(names, arith, pos) {
            Ok(x) => x,
            Err(e) => return Err(e),
        };
        loop
            invariant
                self.wf(),
                pos < p < self.tokens@.len(),
                names@ == old(names)@,
                scoped(*lhs, names@.len()),
                then_at(self.tokens@, self.source@, old(names)@, pos as int) == then_tail(
                    self.tokens@,
                    self.source@,
                    old(names)@,
                    p as int,
                    shape_of(*lhs),
                ),
            decreases self.tokens@.len() - p,
        {
            match self.matches(p, TokenType::Then) {
                None => return Ok((lhs, p)),
                Some((then_token, q1)) => {
                    names.push("then".as_bytes());
                    let (rhs, q2) = match self.let_expression(names, arith, q1) {
                        Ok(x) => x,
                        Err(e) => return Err(e),
                    };
                    names.pop();
                    assert(names@ =~= old(names)@);
                    let function = Expr::Fn(rhs).annotate(then_token);
                    assert(scoped(*function, names@.len()));
                    assert(shape_of(*function) == slam(shape_of(*rhs)));
                    let ghost before = shape_at(&lhs);
                    lhs = Expr::Call(lhs, function).annotate(then_token);
                    assert(shape_of(*lhs) == sapp(before, slam(shape_of(*rhs))));
                    p = q2;
                },
            }
        }
    }

    /// `let x be v in b`: the function of `x` with body `b`, applied to `v`.
    /// `x` is in scope in `b` only.
    fn let_expression<A: Arithmetic>(
        &self,
        names: &mut IdentifierTable,
        arith: &A,
        pos: usize,
    ) -> (r: ParseResult)
        requires
            self.wf(),
            pos < self.tokens@.len(),
        ensures
            parsed(r, pos, self.tokens@.len(), old(names)@, final(names)@),
            self.tokens@[pos as int].token_type == TokenType::Let ==> {
                &&& r matches Ok((e, _)) ==> e.expr matches Expr::Call(f, _) && f.expr is Fn
                &&& self.tokens@[pos + 1].token_type != TokenType::Identifier ==> (r matches Err(
                    err,
                ) && err.error == Error::ExpectedIdentifierAsVariableName)
            },
                    agrees(r, let_at(self.tokens@, self.source@, old(names)@, pos as int), self.tokens@),
        decreases self.tokens@.len() - pos, 3nat,
    {
        let q1 = match self.matches(pos, TokenType::Let) {
            None => return self.call(names, arith, pos),
            Some((_, q1)) => q1,
        };
        let (variable, q2) = match self.match_consume(
            q1,
            TokenType::Identifier,
            Error::ExpectedIdentifierAsVariableName,
        ) {
            Ok(x) => x,
            Err(e) => return Err(e),
        };
        let (be_token, q3) = match self.match_consume(q2, TokenType::Be, Error::ExpectedBeInAssignment) {
            Ok(x) => x,
            Err(e) => return Err(e),
        };
        let (value, q4) = match self.then_expression(names, arith, q3) {
            Ok(x) => x,
            Err(e) => return Err(e),
        };
        let (in_token, q5) = match self.match_consume(q4, TokenType::In, Error::ExpectedInAfterAssignment) {
            Ok(x) => x,
            Err(e) => return Err(e),
        };
        names.push(self.lexeme(variable));
        let (body, q6) = match self.then_expression(names, arith, q5) {
            Ok(x) => x,
            Err(e) => return Err(e),
        };
        names.pop();
        assert(names@ =~= old(names)@);
        let function = Expr::Fn(body).annotate(in_token);
        assert(scoped(*function, names@.len()));
        assert(shape_of(*function) == slam(shape_of(*body)));
        Ok((Expr::Call(function, value).annotate(be_token), q6))
    }

    /// `f of a of b`: calls, left-associative.
    fn call<A: Arithmetic>(&self, names: &mut IdentifierTable, arith: &A, pos: usize) -> (r:
        ParseResult)
        requires
            self.wf(),
            pos < self.tokens@.len(),
        ensures
            parsed(r, pos, self.tokens@.len(), old(names)@, final(names)@),
                    agrees(r, call_at(self.tokens@, self.source@, old(names)@, pos as int), self.tokens@),
        decreases self.tokens@.len() - pos, 2nat,
    {
        let (mut lhs, mut p) = match self.value(names, arith, pos) {
            Ok(x) => x,
            Err(e) => return Err(e),
        };
        loop
            invariant
                self.wf(),
                pos < p < self.tokens@.len(),
                names@ == old(names)@,
                scoped(*lhs, names@.len()),
                call_at(self.tokens@, self.source@, old(names)@, pos as int) == call_tail(
                    self.tokens@,
                    self.source@,
                    old(names)@,
                    p as int,
                    shape_of(*lhs),
                ),
            decreases self.tokens@.len() - p,
        {
            match self.matches(p, TokenType::Of) {
                None => return Ok((lhs, p)),
                Some((of_token, q1)) => {
                    let (rhs, q2) = match self.value(names, arith, q1) {
                        Ok(x) => x,
                        Err(e) => return Err(e),
                    };
                    let ghost before = shape_at(&lhs);
                    lhs = Expr::Call(lhs, rhs).annotate(of_token);
                    assert(shape_of(*lhs) == sapp(before, shape_of(*rhs)));
                    p = q2;
                },
            }
        }
    }

    /// A block, a function, a string, a number or a name. A name becomes its
    /// de Bruijn depth among the names in scope; a token that starts no value
    /// is an error at that token.
    fn value<A: Arithmetic>(&self, names: &mut IdentifierTable, arith: &A, pos: usize) -> (r:
        ParseResult)
        requires
            self.wf(),
            pos < self.tokens@.len(),
        ensures
            parsed(r, pos, self.tokens@.len(), old(names)@, final(names)@),
            ({
                let t = self.tokens@[pos as int];
                let name = self.source@.subrange(t.start as int, t.end as int);
                match t.token_type {
                    TokenType::Identifier => match depth_of(old(names)@, name) {
                        Some(d) => r matches Ok((e, p)) && e.expr == Expr::Identifier(d as usize)
                            && e.token == t && p == pos + 1,
                        None => r matches Err(err) && err.token == t && (err.error matches Error::IdentifierIsNotDefined(n) && n@ == name),
                    },
                    TokenType::String(_) => r matches Ok((e, p)) && e.expr is Value && p == pos + 1,
                    TokenType::Number => decimal_value(name) is Some ==> (r matches Ok((e, p))
                        && e.token == t && p == pos + 1 && (e.expr matches Expr::Value(v) && *v is Number)),
                    TokenType::Do | TokenType::Fn => true,
                    _ => r matches Err(err) && err.token == t
                        && err.error == Error::ExpectedExpressionFound(t),
                }
            }),
                    agrees(r, value_at(self.tokens@, self.source@, old(names)@, pos as int), self.tokens@),
        decreases self.tokens@.len() - pos, 1nat,
    {
        let (token, q1) = self.consume(pos);
        match token.token_type {
            TokenType::Do => self.block(names, arith, q1),
            TokenType::Fn => self.function(names, arith, q1, token),
            TokenType::String(terminated) => Ok((self.string_of(token, terminated), q1)),
            TokenType::Number => match parse_decimal(self.lexeme(token)) {
                Some(d) => {
                    let n = arith.literal(d.whole, &d.digits);
                    let v = Rc::new(Value::Number(n));
                    assert(value_ok(*v, 0));
                    Ok((Expr::Value(v).annotate(token), q1))
                },
                None => Err(Error::ExpectedExpressionFound(token).annotate(token)),
            },
            TokenType::Identifier => {
                let name = self.lexeme(token);
                match names.distance_from_top(name) {
                    Some(d) => Ok((Expr::Identifier(d).annotate(token), q1)),
                    None => Err(Error::IdentifierIsNotDefined(slice_to_vec(name)).annotate(token)),
                }
            },
            _ => Err(Error::ExpectedExpressionFound(token).annotate(token)),
        }
    }

    /// The string that a `str … ing` token holds: what lies between the
    /// opening word and its whitespace and the whitespace and closing word; to
    /// the end of the source where the string is not closed.
    fn string_of(&self, token: Token, terminated: bool) -> (r: ExprRef)
        requires
            token.start <= token.end <= self.source@.len(),
        ensures
            r.expr matches Expr::Value(v) && *v matches Value::String(_) && value_ok(*v, 0),
            shape_of(*r) == Shape::Str(string_content(self.source@, token, terminated)),
    {
        let len = token.end - token.start;
        let content: Vec<u8> = if !terminated {
            if len > 4 {
                slice_to_vec(slice_subrange(self.source.as_slice(), token.start + 4, token.end))
            } else {
                Vec::new()
            }
        } else if len >= 8 {
            slice_to_vec(slice_subrange(self.source.as_slice(), token.start + 4, token.end - 4))
        } else {
            Vec::new()
        };
        let r = Expr::Value(Rc::new(Value::String(content))).annotate(token);
        assert(shape_of(*r) == value_shape(Value::String(content)));
        r
    }

    /// `do e end`
    fn block<A: Arithmetic>(&self, names: &mut IdentifierTable, arith: &A, pos: usize) -> (r:
        ParseResult)
        requires
            self.wf(),
            pos < self.tokens@.len(),
        ensures
            parsed(r, pos, self.tokens@.len(), old(names)@, final(names)@),
                    agrees(r, block_at(self.tokens@, self.source@, old(names)@, pos as int), self.tokens@),
        decreases self.tokens@.len() - pos, 6nat,
    {
        let (e, p) = match self.expression(names, arith, pos) {
            Ok(x) => x,
            Err(e) => return Err(e),
        };
        match self.match_consume(p, TokenType::End, Error::ExpectedEndAfterDoBlock) {
            Ok((_, q2)) => Ok((e, q2)),
            Err(e) => Err(e),
        }
    }

    /// `fn a b c do e end`: one function per argument, the first outermost.
    fn function<A: Arithmetic>(
        &self,
        names: &mut IdentifierTable,
        arith: &A,
        pos: usize,
        fn_token: Token,
    ) -> (r: ParseResult)
        requires
            self.wf(),
            pos < self.tokens@.len(),
        ensures
            parsed(r, pos, self.tokens@.len(), old(names)@, final(names)@),
            r matches Ok((e, _)) ==> e.expr is Fn && e.token == fn_token,
            self.tokens@[pos as int].token_type != TokenType::Identifier ==> (r matches Err(err)
                && err.error == Error::ExpectedIdentifierAsFunctionArgument),
                    agrees(r, fn_at(self.tokens@, self.source@, old(names)@, pos as int), self.tokens@),
        decreases self.tokens@.len() - pos, 7nat,
    {
        let (first, mut p) = match self.match_consume(
            pos,
            TokenType::Identifier,
            Error::ExpectedIdentifierAsFunctionArgument,
        ) {
            Ok(x) => x,
            Err(e) => return Err(e),
        };
        let ghost base = names@;
        names.push(self.lexeme(first));
        let mut count: usize = 1;
        loop
            invariant
                self.wf(),
                pos < p < self.tokens@.len(),
                count <= p - pos,
                count >= 1,
                names@.len() == base.len() + count,
                forall|j: int| 0 <= j < base.len() ==> names@[j] == base[j],
                fn_at(self.tokens@, self.source@, base, pos as int) == fn_args(
                    self.tokens@,
                    self.source@,
                    names@,
                    p as int,
                    count as nat,
                ),
            ensures
                self.tokens@[p as int].token_type != TokenType::Identifier,
            decreases self.tokens@.len() - p,
        {
            match self.matches(p, TokenType::Identifier) {
                None => break,
                Some((t, q2)) => {
                    names.push(self.lexeme(t));
                    count += 1;
                    p = q2;
                },
            }
        }
        let (_, q3) = match self.match_consume(p, TokenType::Do, Error::ExpectedDoAsFunctionBody) {
            Ok(x) => x,
            Err(e) => return Err(e),
        };
        let (body, q4) = match self.block(names, arith, q3) {
            Ok(x) => x,
            Err(e) => return Err(e),
        };
        let ghost body_shape = shape_at(&body);
        let mut expr = body;
        let mut k = count;
        while k > 0
            invariant
                k <= count,
                count >= 1,
                names@.len() == base.len() + k,
                forall|j: int| 0 <= j < base.len() ==> names@[j] == base[j],
                scoped(*expr, names@.len()),
                k < count ==> (expr.expr is Fn && expr.token == fn_token),
                shape_of(*expr) == slams(body_shape, (count - k) as nat),
            decreases k,
        {
            let ghost before = shape_at(&expr);
            expr = Expr::Fn(expr).annotate(fn_token);
            assert(shape_of(*expr) == slam(before));
            names.pop();
            k -= 1;
        }
        assert(names@ =~= base);
        Ok((expr, q4))
    }
}

} // verus!
