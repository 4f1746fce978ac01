//! Source text, positions in it and the rendering of errors for a host.
use crate::error::{is_compile_error, AnnotatedError, Error};
use crate::token::Token;
use crate::token::TokenType;
use crate::value::{kind_name, Operator};
use vstd::prelude::*;
use vstd::string::StringSliceAdditionalSpecFns;

verus! {

/// The zero-based line of byte `offset`: the line feeds before it.
pub open spec fn line_of(text: Seq<u8>, offset: int) -> nat
    decreases offset,
{
    if offset <= 0 {
        0
    } else if text[offset - 1] == 10 {
        line_of(text, offset - 1) + 1
    } else {
        line_of(text, offset - 1)
    }
}

/// Where the line of byte `offset` starts: just after the last line feed
/// before it, or at the start.
pub open spec fn line_start(text: Seq<u8>, offset: int) -> int
    decreases offset,
{
    if offset <= 0 {
        0
    } else if text[offset - 1] == 10 {
        offset
    } else {
        line_start(text, offset - 1)
    }
}

/// The decimal digits of `n`, most significant first.
pub open spec fn decimal_text(n: nat) -> Seq<u8>
    decreases n,
{
    if n < 10 {
        seq![(48 + n) as u8]
    } else {
        decimal_text(n / 10).push((48 + n % 10) as u8)
    }
}

/// A source text.
pub struct Source {
    text: Vec<u8>,
}

impl Source {
    pub closed spec fn bytes(&self) -> Seq<u8> {
        self.text@
    }

    pub fn new(source: &str) -> (r: Source)
        ensures
            r.bytes() == source.spec_bytes(),
    {
        let mut text: Vec<u8> = Vec::new();
        text.extend_from_slice(source.as_bytes());
        assert(text@ =~= source.spec_bytes());
        Source { text }
    }

    /// The length in bytes.
    pub fn len(&self) -> (r: usize)
        ensures
            r == self.bytes().len(),
    {
        self.text.len()
    }

    pub fn is_empty(&self) -> (r: bool)
        ensures
            r == (self.bytes().len() == 0),
    {
        self.text.len() == 0
    }

    /// The text a token covers; empty where its range lies outside the source.
    pub fn lexeme(&self, token: &Token) -> (r: Vec<u8>)
        ensures
            token.start <= token.end <= self.bytes().len() ==> r@ == self.bytes().subrange(
                token.start as int,
                token.end as int,
            ),
    {
        if token.start <= token.end && token.end <= self.text.len() {
            vstd::slice::slice_to_vec(
                vstd::slice::slice_subrange(self.text.as_slice(), token.start, token.end),
            )
        } else {
            Vec::new()
        }
    }

    /// The zero-based line and byte column of `offset`.
    pub fn line_col(&self, offset: usize) -> (r: (usize, usize))
        requires
            offset <= self.bytes().len(),
        ensures
            r.0 == line_of(self.bytes(), offset as int),
            r.1 == offset - line_start(self.bytes(), offset as int),
            r.0 <= offset,
            r.1 <= offset,
    {
        let mut i: usize = 0;
        let mut line: usize = 0;
        let mut start: usize = 0;
        while i < offset
            invariant
                i <= offset <= self.text@.len(),
                line == line_of(self.text@, i as int),
                start == line_start(self.text@, i as int),
                line <= i,
                start <= i,
            decreases offset - i,
        {
            if self.text[i] == 10 {
                line += 1;
                start = i + 1;
            }
            i += 1;
        }
        (line, offset - start)
    }

    /// Where a token starts: zero-based line and column.
    pub fn start(&self, token: &Token) -> (r: (usize, usize))
        requires
            token.start <= self.bytes().len(),
        ensures
            r.0 == line_of(self.bytes(), token.start as int),
            r.1 == token.start - line_start(self.bytes(), token.start as int),
            r.0 <= token.start,
            r.1 <= token.start,
    {
        self.line_col(token.start)
    }

    /// Where a token ends: zero-based line and column.
    pub fn end(&self, token: &Token) -> (r: (usize, usize))
        requires
            token.end <= self.bytes().len(),
        ensures
            r.0 == line_of(self.bytes(), token.end as int),
            r.1 == token.end - line_start(self.bytes(), token.end as int),
    {
        self.line_col(token.end)
    }
}

/// The decimal digits of `n`.
pub fn decimal(n: usize) -> (r: Vec<u8>)
    ensures
        r@ == decimal_text(n as nat),
    decreases n,
{
    if n < 10 {
        let mut v: Vec<u8> = Vec::new();
        v.push((48 + n) as u8);
        assert(v@ =~= decimal_text(n as nat));
        v
    } else {
        let mut v = decimal(n / 10);
        v.push((48 + n % 10) as u8);
        v
    }
}

fn push_str(out: &mut Vec<u8>, s: &str)
    ensures
        final(out)@ == old(out)@ + s.spec_bytes(),
{
    out.extend_from_slice(s.as_bytes());
}

/// The name of an operator, as bytes.
pub open spec fn operator_text(op: Operator) -> Seq<u8> {
    match op {
        Operator::Add => "Add".spec_bytes(),
        Operator::Sub => "Sub".spec_bytes(),
        Operator::Mul => "Mul".spec_bytes(),
        Operator::Div => "Div".spec_bytes(),
    }
}

fn operator_name(op: Operator) -> (r: &'static str)
    ensures
        r.spec_bytes() == operator_text(op),
{
    match op {
        Operator::Add => "Add",
        Operator::Sub => "Sub",
        Operator::Mul => "Mul",
        Operator::Div => "Div",
    }
}

/// How a kind of token is named in messages, as bytes.
pub open spec fn token_type_text(t: TokenType) -> Seq<u8> {
    match t {
        TokenType::String(_) => "String".spec_bytes(),
        TokenType::Number => "Number".spec_bytes(),
        TokenType::Identifier => "Identifier".spec_bytes(),
        TokenType::Fn => "fn".spec_bytes(),
        TokenType::Of => "of".spec_bytes(),
        TokenType::Do => "do".spec_bytes(),
        TokenType::End => "end".spec_bytes(),
        TokenType::Let => "let".spec_bytes(),
        TokenType::Be => "be".spec_bytes(),
        TokenType::In => "in".spec_bytes(),
        TokenType::Then => "then".spec_bytes(),
        TokenType::Comment => "Comment".spec_bytes(),
        TokenType::Eof => "Eof".spec_bytes(),
        TokenType::Generated => "Generated".spec_bytes(),
    }
}

fn token_type_name(t: TokenType) -> (r: &'static str)
    ensures
        r.spec_bytes() == token_type_text(t),
{
    match t {
        TokenType::String(_) => "String",
        TokenType::Number => "Number",
        TokenType::Identifier => "Identifier",
        TokenType::Fn => "fn",
        TokenType::Of => "of",
        TokenType::Do => "do",
        TokenType::End => "end",
        TokenType::Let => "let",
        TokenType::Be => "be",
        TokenType::In => "in",
        TokenType::Then => "then",
        TokenType::Comment => "Comment",
        TokenType::Eof => "Eof",
        TokenType::Generated => "Generated",
    }
}

/// The message of an error, as bytes.
pub open spec fn message_text(e: Error) -> Seq<u8> {
    match e {
        Error::ExpectedIdentifierAsVariableName => "Expected an identifier after 'let'.".spec_bytes(),
        Error::ExpectedIdentifierAsFunctionArgument => "Expected an identifier for a function argument after 'fn'.".spec_bytes(),
        Error::ExpectedBeInAssignment => "Expected 'be' in 'let' assignment.".spec_bytes(),
        Error::ExpectedInAfterAssignment => "Expected 'in' after assignment.".spec_bytes(),
        Error::ExpectedEofAfterExpression => "Expected Eof after expression. Did you miss a function call ('of')?".spec_bytes(),
        Error::ExpectedEndAfterDoBlock => "Expected 'end' after do block. Did you miss a function call ('of')?".spec_bytes(),
        Error::ExpectedDoAsFunctionBody => "Expected do to start function body.".spec_bytes(),
        Error::ValueDependsOnItself => "Calculation of value depends on itself.".spec_bytes(),
        Error::OutputNotWritable => "Outputstream is not writable.".spec_bytes(),
        Error::NestingTooDeep => "Evaluation nests too deeply.".spec_bytes(),
        Error::ExpectedExpressionFound(t) => "Expected expression, found ".spec_bytes()
            + token_type_text(t.token_type) + ".".spec_bytes(),
        Error::IdentifierIsNotDefined(name) => "Identifier ".spec_bytes() + name@
            + " is not defined.".spec_bytes(),
        Error::ValueNotCallable(kind) => kind_name(kind) + " value is not callable.".spec_bytes(),
        Error::ArgumentToOperatorMustBeANumber(op) => "Argument to ".spec_bytes() + operator_text(op)
            + " must be a number!".spec_bytes(),
    }
}

impl Error {
    /// The message that describes this error.
    pub fn message(&self) -> (r: Vec<u8>)
        ensures
            r@ == message_text(*self),
    {
        let mut m: Vec<u8> = Vec::new();
        match self {
            Error::ExpectedIdentifierAsVariableName => push_str(&mut m, "Expected an identifier after 'let'."),
            Error::ExpectedIdentifierAsFunctionArgument => push_str(&mut m, "Expected an identifier for a function argument after 'fn'."),
            Error::ExpectedBeInAssignment => push_str(&mut m, "Expected 'be' in 'let' assignment."),
            Error::ExpectedInAfterAssignment => push_str(&mut m, "Expected 'in' after assignment."),
            Error::ExpectedEofAfterExpression => push_str(&mut m, "Expected Eof after expression. Did you miss a function call ('of')?"),
            Error::ExpectedEndAfterDoBlock => push_str(&mut m, "Expected 'end' after do block. Did you miss a function call ('of')?"),
            Error::ExpectedDoAsFunctionBody => push_str(&mut m, "Expected do to start function body."),
            Error::ValueDependsOnItself => push_str(&mut m, "Calculation of value depends on itself."),
            Error::OutputNotWritable => push_str(&mut m, "Outputstream is not writable."),
            Error::NestingTooDeep => push_str(&mut m, "Evaluation nests too deeply."),
            Error::ExpectedExpressionFound(t) => {
                push_str(&mut m, "Expected expression, found ");
                push_str(&mut m, token_type_name(t.token_type));
                push_str(&mut m, ".");
            },
            Error::IdentifierIsNotDefined(name) => {
                push_str(&mut m, "Identifier ");
                m.extend_from_slice(name.as_slice());
                push_str(&mut m, " is not defined.");
            },
            Error::ValueNotCallable(kind) => {
                push_str(&mut m, kind.name());
                push_str(&mut m, " value is not callable.");
            },
            Error::ArgumentToOperatorMustBeANumber(op) => {
                push_str(&mut m, "Argument to ");
                push_str(&mut m, operator_name(*op));
                push_str(&mut m, " must be a number!");
            },
        }
        assert(m@ =~= message_text(*self));
        m
    }
}

/// The first line of a rendered error: its kind, where it is and its text.
pub open spec fn error_header(compile: bool, line: nat, col: nat, lexeme: Seq<u8>) -> Seq<u8> {
    (if compile {
        seq![('C' as u8), ('o' as u8), ('m' as u8), ('p' as u8), ('i' as u8), ('l' as u8), ('e' as u8)]
    } else {
        seq![('R' as u8), ('u' as u8), ('n' as u8), ('t' as u8), ('i' as u8), ('m' as u8), ('e' as u8)]
    }) + seq![(' ' as u8), ('E' as u8), ('r' as u8), ('r' as u8), ('o' as u8), ('r' as u8), (' ' as u8), ('a' as u8), ('t' as u8), (' ' as u8)]
        + decimal_text(line) + seq![(':' as u8)] + decimal_text(col) + seq![(' ' as u8), ('=' as u8), ('>' as u8), (' ' as u8), ('\'' as u8)] + lexeme + seq![('\'' as u8), 10u8]
}

/// The first line of the rendering of `e` against the source `text`.
pub open spec fn rendered_header(e: AnnotatedError, text: Seq<u8>) -> Seq<u8> {
    error_header(
        is_compile_error(e.error),
        line_of(text, e.token.start as int) + 1,
        (e.token.start - line_start(text, e.token.start as int) + 1) as nat,
        text.subrange(e.token.start as int, e.token.end as int),
    )
}

impl AnnotatedError {
    /// Renders the error for a host: `Compile Error at 1:5 => 'x'`, a line
    /// feed, then the message. Line and column count from one.
    pub fn of_source(&self, source: &Source) -> (r: Vec<u8>)
        requires
            self.token.start <= self.token.end <= source.bytes().len(),
            self.token.start < usize::MAX,
        ensures
            ({
                let h = rendered_header(*self, source.bytes());
                h.len() <= r@.len() && r@.subrange(0, h.len() as int) == h
            }),
    {
        let (line, col) = source.start(&self.token);
        let mut out: Vec<u8> = Vec::new();
        let kind: Vec<u8> = if self.error.error_type() == crate::error::ErrorType::Compile {
            vec![('C' as u8), ('o' as u8), ('m' as u8), ('p' as u8), ('i' as u8), ('l' as u8), ('e' as u8)]
        } else {
            vec![('R' as u8), ('u' as u8), ('n' as u8), ('t' as u8), ('i' as u8), ('m' as u8), ('e' as u8)]
        };
        out.extend_from_slice(kind.as_slice());
        let at: Vec<u8> = vec![(' ' as u8), ('E' as u8), ('r' as u8), ('r' as u8), ('o' as u8), ('r' as u8), (' ' as u8), ('a' as u8), ('t' as u8), (' ' as u8)];
        out.extend_from_slice(at.as_slice());
        out.extend_from_slice(decimal(line + 1).as_slice());
        out.push(':' as u8);
        out.extend_from_slice(decimal(col + 1).as_slice());
        let arrow: Vec<u8> = vec![(' ' as u8), ('=' as u8), ('>' as u8), (' ' as u8), ('\'' as u8)];
        out.extend_from_slice(arrow.as_slice());
        out.extend_from_slice(source.lexeme(&self.token).as_slice());
        out.push('\'' as u8);
        out.push(10);
        let ghost header = out@;
        out.extend_from_slice(self.error.message().as_slice());
        assert(out@.subrange(0, header.len() as int) =~= header);
        out
    }
}

} // verus!
