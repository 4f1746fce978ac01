//! Scans source text into tokens. Words are separated by ASCII whitespace;
//! `str … ing` is a string, `com … ment` and `comment` to the end of the
//! line are comments, and each other word is a keyword, a number or a name.
use crate::identifier::bytes_equal;
use crate::number::{decimal_value, parse_decimal};
use crate::token::{Token, TokenType};
use vstd::prelude::*;
use vstd::string::StringSliceAdditionalSpecFns;

verus! {

/// ASCII whitespace: space, tab, line feed, form feed, carriage return.
pub open spec fn is_ws(b: u8) -> bool {
    b == 32 || b == 9 || b == 10 || b == 12 || b == 13
}

/// A word: one byte or more, none of them whitespace.
pub open spec fn is_word(w: Seq<u8>) -> bool {
    w.len() > 0 && forall|i: int| 0 <= i < w.len() ==> !is_ws(#[trigger] w[i])
}

/// The kind of token that a plain word is: a keyword, else a number where the
/// word spells one, else a name.
pub open spec fn word_type(w: Seq<u8>) -> TokenType {
    match keyword_type(w) {
        Some(t) => t,
        None => if decimal_value(w) is Some {
            TokenType::Number
        } else {
            TokenType::Identifier
        },
    }
}

/// The first index from `i` on that is not whitespace, or the length.
pub open spec fn skip_ws(s: Seq<u8>, i: int) -> int
    decreases s.len() - i,
{
    if i >= s.len() {
        i
    } else if is_ws(s[i]) {
        skip_ws(s, i + 1)
    } else {
        i
    }
}

/// The first index from `i` on that is whitespace, or the length.
pub open spec fn word_end(s: Seq<u8>, i: int) -> int
    decreases s.len() - i,
{
    if i >= s.len() {
        i
    } else if is_ws(s[i]) {
        i
    } else {
        word_end(s, i + 1)
    }
}

/// Whether whitespace at `j` is followed by the word `w`, which ends at the
/// end or at whitespace: where a string or a comment closes.
pub open spec fn closer_at(s: Seq<u8>, j: int, w: Seq<u8>) -> bool {
    let e = j + 1 + w.len();
    &&& 0 <= j
    &&& e <= s.len()
    &&& is_ws(s[j])
    &&& s.subrange(j + 1, e) == w
    &&& (e == s.len() || is_ws(s[e]))
}

/// The kinds of token that stand for one plain word.
pub open spec fn is_word_type(t: TokenType) -> bool {
    match t {
        TokenType::Number | TokenType::Identifier | TokenType::Fn | TokenType::Of
        | TokenType::Do | TokenType::End | TokenType::Let | TokenType::Be | TokenType::In
        | TokenType::Then => true,
        _ => false,
    }
}

/// The keyword that a word is, if it is one.
pub open spec fn keyword_type(w: Seq<u8>) -> Option<TokenType> {
    if w == seq![('f' as u8), ('n' as u8)] {
        Some(TokenType::Fn)
    } else if w == seq![('o' as u8), ('f' as u8)] {
        Some(TokenType::Of)
    } else if w == seq![('d' as u8), ('o' as u8)] {
        Some(TokenType::Do)
    } else if w == seq![('e' as u8), ('n' as u8), ('d' as u8)] {
        Some(TokenType::End)
    } else if w == seq![('l' as u8), ('e' as u8), ('t' as u8)] {
        Some(TokenType::Let)
    } else if w == seq![('b' as u8), ('e' as u8)] {
        Some(TokenType::Be)
    } else if w == seq![('i' as u8), ('n' as u8)] {
        Some(TokenType::In)
    } else if w == seq![('t' as u8), ('h' as u8), ('e' as u8), ('n' as u8)] {
        Some(TokenType::Then)
    } else {
        None
    }
}

fn check_keyword(w: &[u8]) -> (r: Option<TokenType>)
    ensures
        r == keyword_type(w@),
{
    let k: Vec<u8> = vec![('f' as u8), ('n' as u8)];
    if bytes_equal(w, k.as_slice()) {
        return Some(TokenType::Fn);
    }
    let k: Vec<u8> = vec![('o' as u8), ('f' as u8)];
    if bytes_equal(w, k.as_slice()) {
        return Some(TokenType::Of);
    }
    let k: Vec<u8> = vec![('d' as u8), ('o' as u8)];
    if bytes_equal(w, k.as_slice()) {
        return Some(TokenType::Do);
    }
    let k: Vec<u8> = vec![('e' as u8), ('n' as u8), ('d' as u8)];
    if bytes_equal(w, k.as_slice()) {
        return Some(TokenType::End);
    }
    let k: Vec<u8> = vec![('l' as u8), ('e' as u8), ('t' as u8)];
    if bytes_equal(w, k.as_slice()) {
        return Some(TokenType::Let);
    }
    let k: Vec<u8> = vec![('b' as u8), ('e' as u8)];
    if bytes_equal(w, k.as_slice()) {
        return Some(TokenType::Be);
    }
    let k: Vec<u8> = vec![('i' as u8), ('n' as u8)];
    if bytes_equal(w, k.as_slice()) {
        return Some(TokenType::In);
    }
    let k: Vec<u8> = vec![('t' as u8), ('h' as u8), ('e' as u8), ('n' as u8)];
    if bytes_equal(w, k.as_slice()) {
        return Some(TokenType::Then);
    }
    None
}

pub open spec fn string_text() -> Seq<u8> {
    seq![('s' as u8), ('t' as u8), ('r' as u8), ('i' as u8), ('n' as u8), ('g' as u8)]
}

fn string_word() -> (r: Vec<u8>)
    ensures
        r@ == string_text(),
{
    vec![('s' as u8), ('t' as u8), ('r' as u8), ('i' as u8), ('n' as u8), ('g' as u8)]
}

pub open spec fn str_text() -> Seq<u8> {
    seq![('s' as u8), ('t' as u8), ('r' as u8)]
}

fn str_word() -> (r: Vec<u8>)
    ensures
        r@ == str_text(),
{
    vec![('s' as u8), ('t' as u8), ('r' as u8)]
}

pub open spec fn com_text() -> Seq<u8> {
    seq![('c' as u8), ('o' as u8), ('m' as u8)]
}

fn com_word() -> (r: Vec<u8>)
    ensures
        r@ == com_text(),
{
    vec![('c' as u8), ('o' as u8), ('m' as u8)]
}

pub open spec fn comment_text() -> Seq<u8> {
    seq![('c' as u8), ('o' as u8), ('m' as u8), ('m' as u8), ('e' as u8), ('n' as u8), ('t' as u8)]
}

fn comment_word() -> (r: Vec<u8>)
    ensures
        r@ == comment_text(),
{
    vec![('c' as u8), ('o' as u8), ('m' as u8), ('m' as u8), ('e' as u8), ('n' as u8), ('t' as u8)]
}

pub open spec fn ing_text() -> Seq<u8> {
    seq![('i' as u8), ('n' as u8), ('g' as u8)]
}

fn ing_word() -> (r: Vec<u8>)
    ensures
        r@ == ing_text(),
{
    vec![('i' as u8), ('n' as u8), ('g' as u8)]
}

pub open spec fn ment_text() -> Seq<u8> {
    seq![('m' as u8), ('e' as u8), ('n' as u8), ('t' as u8)]
}

fn ment_word() -> (r: Vec<u8>)
    ensures
        r@ == ment_text(),
{
    vec![('m' as u8), ('e' as u8), ('n' as u8), ('t' as u8)]
}

/// The token read from the first word after byte `pos` of `s`, where that
/// word opens no comment: `Eof` at the end; `string` is an empty closed
/// string; `str` runs to the first closing `ing`, or to the end where there is
/// none; any other word is its keyword, number or name.
pub open spec fn token_at(s: Seq<u8>, pos: int, t: Token) -> bool {
    let a = skip_ws(s, pos);
    let e = word_end(s, a);
    let w = s.subrange(a, e);
    &&& t.start == a
    &&& if a >= s.len() {
        t.token_type == TokenType::Eof && t.end == a
    } else if w == string_text() {
        t.token_type == TokenType::String(true) && t.end == e
    } else if w == str_text() {
        let j = first_closer(s, e, ing_text());
        if j < 0 {
            t.token_type == TokenType::String(false) && t.end == s.len()
        } else {
            t.token_type == TokenType::String(true) && t.end == j + 1 + ing_text().len()
        }
    } else {
        t.token_type == word_type(w) && t.end == e
    }
}

/// The first index from `from` on where whitespace is followed by the closing
/// word `w`; -1 where there is none.
pub open spec fn first_closer(s: Seq<u8>, from: int, w: Seq<u8>) -> int
    decreases s.len() - from,
{
    if from < 0 || from >= s.len() {
        -1
    } else if closer_at(s, from, w) {
        from
    } else {
        first_closer(s, from + 1, w)
    }
}

/// The first line feed from `i` on, or the end.
pub open spec fn line_end(s: Seq<u8>, i: int) -> int
    decreases s.len() - i,
{
    if i < 0 || i >= s.len() {
        s.len() as int
    } else if s[i] == 10 {
        i
    } else {
        line_end(s, i + 1)
    }
}

/// Where scanning goes on after the comment word `a..e`: after the first
/// closing `ment` (or at the end) for `com`, at the end of the line for
/// `comment`.
pub open spec fn after_comment(s: Seq<u8>, a: int, e: int) -> int {
    if s.subrange(a, e) == com_text() {
        let j = first_closer(s, e, ment_text());
        if j < 0 {
            s.len() as int
        } else {
            j + 1 + ment_text().len()
        }
    } else {
        line_end(s, e)
    }
}

proof fn lemma_first_closer_found(s: Seq<u8>, from: int, x: int, w: Seq<u8>)
    requires
        0 <= from <= x,
        forall|j: int| from <= j < x ==> !#[trigger] closer_at(s, j, w),
        closer_at(s, x, w),
    ensures
        first_closer(s, from, w) == x,
    decreases x - from,
{
    if from < x {
        lemma_first_closer_found(s, from + 1, x, w);
    }
}

proof fn lemma_first_closer_none(s: Seq<u8>, from: int, w: Seq<u8>)
    requires
        0 <= from,
        forall|j: int| from <= j ==> !#[trigger] closer_at(s, j, w),
    ensures
        first_closer(s, from, w) < 0,
    decreases s.len() - from,
{
    if from < s.len() {
        lemma_first_closer_none(s, from + 1, w);
    }
}

/// What the next token read from byte `pos` of `s` is: comments are skipped,
/// then it is the token of the first word.
#[verifier::opaque]
pub open spec fn scans_to(s: Seq<u8>, pos: int, t: Token) -> bool
    decreases s.len() - pos,
{
    let a = skip_ws(s, pos);
    let e = word_end(s, a);
    let first = s.subrange(a, e);
    if first == com_text() || first == comment_text() {
        let r = after_comment(s, a, e);
        if pos < r && r <= s.len() {
            scans_to(s, r, t)
        } else {
            false
        }
    } else {
        token_at(s, pos, t)
    }
}

proof fn lemma_skip_ws(s: Seq<u8>, i: int)
    requires
        0 <= i <= s.len(),
    ensures
        i <= skip_ws(s, i) <= s.len(),
        skip_ws(s, i) < s.len() ==> !is_ws(s[skip_ws(s, i)]),
    decreases s.len() - i,
{
    if i < s.len() && is_ws(s[i]) {
        lemma_skip_ws(s, i + 1);
    }
}

proof fn lemma_word_end(s: Seq<u8>, i: int)
    requires
        0 <= i <= s.len(),
    ensures
        i <= word_end(s, i) <= s.len(),
        i < s.len() && !is_ws(s[i]) ==> i < word_end(s, i),
    decreases s.len() - i,
{
    if i < s.len() && !is_ws(s[i]) {
        lemma_word_end(s, i + 1);
    }
}

proof fn lemma_first_closer_range(s: Seq<u8>, from: int, w: Seq<u8>)
    requires
        0 <= from,
    ensures
        first_closer(s, from, w) >= 0 ==> from <= first_closer(s, from, w) && closer_at(
            s,
            first_closer(s, from, w),
            w,
        ),
    decreases s.len() - from,
{
    if from < s.len() && !closer_at(s, from, w) {
        lemma_first_closer_range(s, from + 1, w);
    }
}

/// A token read from `pos` lies between `pos` and the end, past `pos` unless
/// it is `Eof`, which stands exactly at the end.
pub proof fn lemma_scans_to_bounds(s: Seq<u8>, pos: int, t: Token)
    requires
        0 <= pos <= s.len(),
        scans_to(s, pos, t),
    ensures
        pos <= t.start <= t.end <= s.len(),
        (t.token_type == TokenType::Eof) == (t.start == s.len()),
        t.token_type == TokenType::Eof ==> t.end == s.len(),
        t.token_type != TokenType::Eof ==> pos < t.end,
    decreases s.len() - pos,
{
    reveal(scans_to);
    let a = skip_ws(s, pos);
    lemma_skip_ws(s, pos);
    lemma_word_end(s, a);
    let e = word_end(s, a);
    let first = s.subrange(a, e);
    if first == com_text() || first == comment_text() {
        let r = after_comment(s, a, e);
        lemma_scans_to_bounds(s, r, t);
    } else {
        lemma_first_closer_range(s, e, ing_text());
    }
}

/// Reading from the same place gives the same token.
pub proof fn lemma_scans_to_unique(s: Seq<u8>, pos: int, t1: Token, t2: Token)
    requires
        scans_to(s, pos, t1),
        scans_to(s, pos, t2),
    ensures
        t1 == t2,
    decreases s.len() - pos,
{
    reveal(scans_to);
    let a = skip_ws(s, pos);
    let e = word_end(s, a);
    let first = s.subrange(a, e);
    if first == com_text() || first == comment_text() {
        lemma_scans_to_unique(s, after_comment(s, a, e), t1, t2);
    }
}

proof fn lemma_prefix_equal(s: Seq<u8>, ts1: Seq<Token>, ts2: Seq<Token>, i: int)
    requires
        scanned(s, ts1),
        scanned(s, ts2),
        0 <= i < ts1.len(),
        i < ts2.len(),
    ensures
        ts1[i] == ts2[i],
    decreases i,
{
    reveal(scanned);
    if i == 0 {
        lemma_scans_to_unique(s, 0, ts1[0], ts2[0]);
    } else {
        lemma_prefix_equal(s, ts1, ts2, i - 1);
        lemma_scans_to_unique(s, ts1[i - 1].end as int, ts1[i], ts2[i]);
    }
}

/// A source has one scan.
pub proof fn lemma_scanned_unique(s: Seq<u8>, ts1: Seq<Token>, ts2: Seq<Token>)
    requires
        scanned(s, ts1),
        scanned(s, ts2),
    ensures
        ts1 == ts2,
{
    reveal(scanned);
    assert forall|i: int| 0 <= i < ts1.len() && i < ts2.len() implies ts1[i] == ts2[i] by {
        lemma_prefix_equal(s, ts1, ts2, i);
    }
    if ts1.len() < ts2.len() {
        assert(ts1[ts1.len() - 1] == ts2[ts1.len() - 1]);
    } else if ts2.len() < ts1.len() {
        assert(ts1[ts2.len() - 1] == ts2[ts2.len() - 1]);
    }
    assert(ts1 =~= ts2);
}

fn is_ws_byte(b: u8) -> (r: bool)
    ensures
        r == is_ws(b),
{
    b == 32 || b == 9 || b == 10 || b == 12 || b == 13
}

/// Reads tokens from a source, one at a time.
pub struct Scanner {
    source: Vec<u8>,
    current: usize,
}

impl Scanner {
    /// The bytes of the source.
    pub closed spec fn text(&self) -> Seq<u8> {
        self.source@
    }

    /// How far the scanner has read.
    pub closed spec fn position(&self) -> int {
        self.current as int
    }

    pub closed spec fn wf(&self) -> bool {
        self.current <= self.source@.len()
    }

    /// A scanner at the start of `source`.
    pub fn new(source: &str) -> (r: Scanner)
        ensures
            r.wf(),
            r.text() == source.spec_bytes(),
            r.position() == 0,
            r.position() <= r.text().len(),
    {
        let mut bytes: Vec<u8> = Vec::new();
        bytes.extend_from_slice(source.as_bytes());
        assert(bytes@ =~= source.spec_bytes());
        Scanner { source: bytes, current: 0 }
    }

    fn skip_whitespace(&mut self)
        requires
            old(self).wf(),
        ensures
            final(self).wf(),
            final(self).source@ == old(self).source@,
            old(self).current <= final(self).current,
            final(self).current == final(self).source@.len() || !is_ws(
                final(self).source@[final(self).current as int],
            ),
            final(self).current == skip_ws(old(self).source@, old(self).current as int),
    {
        while self.current < self.source.len() && is_ws_byte(self.source[self.current])
            invariant
                self.wf(),
                self.source@ == old(self).source@,
                old(self).current <= self.current,
                skip_ws(self.source@, old(self).current as int) == skip_ws(self.source@, self.current as int),
            decreases self.source@.len() - self.current,
        {
            self.current += 1;
        }
    }

    fn consume_non_whitespace(&mut self)
        requires
            old(self).wf(),
        ensures
            final(self).wf(),
            final(self).source@ == old(self).source@,
            old(self).current <= final(self).current,
            forall|i: int|
                old(self).current <= i < final(self).current ==> !is_ws(
                    #[trigger] final(self).source@[i],
                ),
            final(self).current == final(self).source@.len() || is_ws(
                final(self).source@[final(self).current as int],
            ),
            final(self).current == word_end(old(self).source@, old(self).current as int),
    {
        while self.current < self.source.len() && !is_ws_byte(self.source[self.current])
            invariant
                self.wf(),
                self.source@ == old(self).source@,
                old(self).current <= self.current,
                word_end(self.source@, old(self).current as int) == word_end(self.source@, self.current as int),
                forall|i: int| old(self).current <= i < self.current ==> !is_ws(#[trigger] self.source@[i]),
            decreases self.source@.len() - self.current,
        {
            self.current += 1;
        }
    }

    /// Whether `target` stands at the current position.
    fn at(&self, target: &Vec<u8>) -> (r: bool)
        requires
            self.wf(),
        ensures
            r == (self.current + target@.len() <= self.source@.len() && self.source@.subrange(
                self.current as int,
                self.current + target@.len(),
            ) == target@),
    {
        if self.source.len() - self.current < target.len() {
            return false;
        }
        let mut k: usize = 0;
        while k < target.len()
            invariant
                self.wf(),
                self.current + target@.len() <= self.source.len(),
                k <= target@.len(),
                forall|m: int| 0 <= m < k ==> self.source@[self.current + m] == target@[m],
            decreases target@.len() - k,
        {
            if self.source[self.current + k] != target[k] {
                assert(self.source@.subrange(self.current as int, self.current + target@.len())[k as int]
                    != target@[k as int]);
                return false;
            }
            k += 1;
        }
        assert(self.source@.subrange(self.current as int, self.current + target@.len()) =~= target@);
        true
    }

    /// Consumes up to and including the first whitespace-delimited `target`
    /// that follows whitespace; whether one was found before the end.
    fn consume_until(&mut self, target: &Vec<u8>) -> (found: bool)
        requires
            old(self).wf(),
            forall|k: int| 0 <= k < target@.len() ==> !is_ws(#[trigger] target@[k]),
        ensures
            final(self).wf(),
            final(self).source@ == old(self).source@,
            old(self).current <= final(self).current,
            !found ==> final(self).current == final(self).source@.len(),
            !found ==> forall|j: int|
                old(self).current <= j ==> !#[trigger] closer_at(old(self).source@, j, target@),
            found ==> closer_at(old(self).source@, final(self).current - target@.len() - 1, target@),
            found ==> first_closer(old(self).source@, old(self).current as int, target@)
                == final(self).current - target@.len() - 1,
            !found ==> first_closer(old(self).source@, old(self).current as int, target@) < 0,
            found ==> forall|j: int|
                old(self).current <= j < final(self).current - target@.len() - 1 ==> !#[trigger] closer_at(
                    old(self).source@,
                    j,
                    target@,
                ),
            found ==> {
                let e = final(self).current as int;
                let b = e - target@.len();
                &&& old(self).current < b
                &&& is_ws(final(self).source@[b - 1])
                &&& final(self).source@.subrange(b, e) == target@
                &&& (e == final(self).source@.len() || is_ws(final(self).source@[e]))
            },
    {
        while self.current < self.source.len()
            invariant
                self.wf(),
                self.source@ == old(self).source@,
                old(self).current <= self.current,
                forall|k: int| 0 <= k < target@.len() ==> !is_ws(#[trigger] target@[k]),
                forall|j: int|
                    old(self).current <= j < self.current ==> !#[trigger] closer_at(self.source@, j, target@),
            decreases self.source@.len() - self.current,
        {
            let j = self.current;
            let c = self.source[self.current];
            self.current += 1;
            if is_ws_byte(c) && self.at(target) {
                self.current += target.len();
                if self.current == self.source.len() || is_ws_byte(self.source[self.current]) {
                    proof {
                        lemma_first_closer_found(self.source@, old(self).current as int, j as int, target@);
                    }
                    return true;
                }
                assert forall|m: int| j <= m < self.current implies !#[trigger] closer_at(self.source@, m, target@) by {
                    if j < m {
                        assert(self.source@[m] == self.source@.subrange(j + 1, j + 1 + target@.len())[m - j - 1]);
                    }
                }
            }
        }
        proof {
            assert forall|j: int| old(self).current <= j implies !#[trigger] closer_at(old(self).source@, j, target@) by {
                if j >= self.source@.len() {
                }
            }
            lemma_first_closer_none(self.source@, old(self).current as int, target@);
        }
        false
    }

    /// Consumes up to the next line feed or the end.
    fn consume_line(&mut self)
        requires
            old(self).wf(),
        ensures
            final(self).wf(),
            final(self).source@ == old(self).source@,
            old(self).current <= final(self).current,
            final(self).current == line_end(old(self).source@, old(self).current as int),
    {
        while self.current < self.source.len() && self.source[self.current] != 10
            invariant
                self.wf(),
                self.source@ == old(self).source@,
                old(self).current <= self.current,
                line_end(self.source@, old(self).current as int) == line_end(self.source@, self.current as int),
            decreases self.source@.len() - self.current,
        {
            self.current += 1;
        }
    }

    /// The next token. Comments are skipped; at the end of the source, and
    /// on every call after it, the token is `Eof`.
    pub fn next_token(&mut self) -> (t: Token)
        requires
            old(self).wf(),
        ensures
            final(self).wf(),
            final(self).text() == old(self).text(),
            t.end == final(self).position(),
            final(self).position() <= final(self).text().len(),
            scans_to(old(self).text(), old(self).position(), t),
            old(self).position() <= t.start <= t.end,
            (t.token_type == TokenType::Eof) == (t.start == old(self).text().len()),
            t.token_type != TokenType::Eof ==> old(self).position() < t.end,
    {
        loop
            invariant
                self.wf(),
                self.source@ == old(self).source@,
                old(self).current <= self.current,
                forall|t: Token|
                    #[trigger] scans_to(self.source@, self.current as int, t) ==> scans_to(
                        self.source@,
                        old(self).current as int,
                        t,
                    ),
            decreases self.source@.len() - self.current,
        {
            proof {
                reveal(scans_to);
            }
            let ghost here = self.current as int;
            self.skip_whitespace();
            let start = self.current;
            if start >= self.source.len() {
                let t = Token { token_type: TokenType::Eof, start, end: start };
                assert(self.source@.subrange(start as int, word_end(self.source@, start as int)) =~= Seq::<u8>::empty());
                assert(scans_to(self.source@, here, t));
                return t;
            }
            self.consume_non_whitespace();
            let end = self.current;
            let word = vstd::slice::slice_subrange(self.source.as_slice(), start, end);
            assert(word@ =~= self.source@.subrange(start as int, end as int));
            if bytes_equal(word, string_word().as_slice()) {
                let t = Token { token_type: TokenType::String(true), start, end };
                assert(scans_to(self.source@, here, t));
                return t;
            }
            if bytes_equal(word, str_word().as_slice()) {
                let ing = ing_word();
                let terminated = self.consume_until(&ing);
                let t = Token { token_type: TokenType::String(terminated), start, end: self.current };
                proof {
                    let w = self.source@.subrange(start as int, t.end as int);
                    assert(w.subrange(0, 3) =~= self.source@.subrange(start as int, end as int));
                    if terminated {
                        assert(w.subrange(w.len() - 3, w.len() as int) =~= self.source@.subrange(
                            t.end - 3,
                            t.end as int,
                        ));
                    }
                    assert(scans_to(self.source@, here, t));
                }
                return t;
            }
            if bytes_equal(word, com_word().as_slice()) {
                self.consume_until(&ment_word());
                assert(self.current as int == after_comment(self.source@, start as int, end as int));
                assert forall|t: Token| #[trigger] scans_to(self.source@, self.current as int, t) implies scans_to(
                    self.source@,
                    here,
                    t,
                ) by {}
            } else if bytes_equal(word, comment_word().as_slice()) {
                self.consume_line();
                assert(self.current as int == after_comment(self.source@, start as int, end as int));
                assert forall|t: Token| #[trigger] scans_to(self.source@, self.current as int, t) implies scans_to(
                    self.source@,
                    here,
                    t,
                ) by {}
            } else {
                let token_type = match check_keyword(word) {
                    Some(k) => k,
                    None => if parse_decimal(word).is_some() {
                        TokenType::Number
                    } else {
                        TokenType::Identifier
                    },
                };
                let t = Token { token_type, start, end };
                assert(scans_to(self.source@, here, t));
                return t;
            }
        }
    }
}

/// Whether `ts` is the scan of `s`: every token up to and including the
/// first `Eof`, the first read from the start and each other from where the
/// one before it ended.
#[verifier::opaque]
pub open spec fn scanned(s: Seq<u8>, ts: Seq<Token>) -> bool {
    &&& ts.len() > 0
    &&& ts.last().token_type == TokenType::Eof
    &&& forall|i: int| 0 <= i < ts.len() - 1 ==> (#[trigger] ts[i]).token_type != TokenType::Eof
    &&& scans_to(s, 0, ts[0])
    &&& forall|i: int| 0 <= i < ts.len() - 1 ==> scans_to(s, (#[trigger] ts[i]).end as int, ts[i + 1])
}

/// Scans a whole source: every token up to and including the first `Eof`,
/// each read from where the one before it ended.
pub fn tokenize(source: &str) -> (r: Vec<Token>)
    ensures
        scanned(source.spec_bytes(), r@),
        r@.len() > 0,
        r@.last().token_type == TokenType::Eof,
        forall|i: int| 0 <= i < r@.len() - 1 ==> (#[trigger] r@[i]).token_type != TokenType::Eof,
        scans_to(source.spec_bytes(), 0, r@[0]),
        forall|i: int|
            0 <= i < r@.len() - 1 ==> scans_to(source.spec_bytes(), (#[trigger] r@[i]).end as int, r@[i + 1]),
        forall|i: int|
            0 <= i < r@.len() ==> (#[trigger] r@[i]).start <= r@[i].end <= source.spec_bytes().len(),
{
    proof {
        reveal(scanned);
    }
    let mut scanner = Scanner::new(source);
    let mut tokens: Vec<Token> = Vec::new();
    loop
        invariant
            scanner.wf(),
            scanner.text() == source.spec_bytes(),
            0 <= scanner.position() <= scanner.text().len(),
            forall|i: int| 0 <= i < tokens@.len() ==> (#[trigger] tokens@[i]).token_type != TokenType::Eof,
            tokens@.len() == 0 ==> scanner.position() == 0,
            tokens@.len() > 0 ==> scanner.position() == tokens@.last().end,
            tokens@.len() > 0 ==> scans_to(source.spec_bytes(), 0, tokens@[0]),
            forall|i: int|
                0 <= i < tokens@.len() ==> (#[trigger] tokens@[i]).start <= tokens@[i].end
                    <= scanner.position(),
            forall|i: int|
                0 <= i < tokens@.len() - 1 ==> scans_to(source.spec_bytes(), (#[trigger] tokens@[i]).end as int, tokens@[i + 1]),
        decreases scanner.text().len() - scanner.position(),
    {
        let t = scanner.next_token();
        proof {
            reveal(scans_to);
        }
        tokens.push(t);
        if t.token_type == TokenType::Eof {
            proof {
                reveal(scanned);
            }
            return tokens;
        }
    }
}

} // verus!
