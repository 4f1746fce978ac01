//! Numbers spelled out as English words in PascalCase: `OneHundredTwentyThree`.
//!
//! Text is handled as bytes. A *part* starts at a byte and runs up to the next
//! ASCII uppercase letter or the end; number words are parts.
use vstd::prelude::*;
use vstd::string::StringSliceAdditionalSpecFns;
use vstd::utf8::{encode_utf8, is_ascii_chars};

verus! {

/// An ASCII uppercase letter, where a part begins.
pub open spec fn is_upper(b: u8) -> bool {
    ('A' as u8) <= b <= ('Z' as u8)
}

/// Text made of ASCII bytes only.
pub open spec fn is_ascii_bytes(s: Seq<u8>) -> bool {
    forall|i: int| 0 <= i < s.len() ==> #[trigger] s[i] < 128
}

/// The characters that ASCII bytes stand for.
pub open spec fn ascii_chars(s: Seq<u8>) -> Seq<char> {
    Seq::new(s.len(), |i: int| s[i] as char)
}

/// A thousand to the power `k`.
pub open spec fn pow1000(k: nat) -> nat
    decreases k,
{
    if k == 0 {
        1
    } else {
        1000 * pow1000((k - 1) as nat)
    }
}

/// Every number word, by index: zero to nineteen, the tens from twenty to
/// ninety, `Hundred`, then the factors from `Thousand` to `Quintillion`.
pub open spec fn word_text(k: nat) -> Seq<u8> {
    if k == 0 {
        seq![('Z' as u8), ('e' as u8), ('r' as u8), ('o' as u8)]
    } else if k == 1 {
        seq![('O' as u8), ('n' as u8), ('e' as u8)]
    } else if k == 2 {
        seq![('T' as u8), ('w' as u8), ('o' as u8)]
    } else if k == 3 {
        seq![('T' as u8), ('h' as u8), ('r' as u8), ('e' as u8), ('e' as u8)]
    } else if k == 4 {
        seq![('F' as u8), ('o' as u8), ('u' as u8), ('r' as u8)]
    } else if k == 5 {
        seq![('F' as u8), ('i' as u8), ('v' as u8), ('e' as u8)]
    } else if k == 6 {
        seq![('S' as u8), ('i' as u8), ('x' as u8)]
    } else if k == 7 {
        seq![('S' as u8), ('e' as u8), ('v' as u8), ('e' as u8), ('n' as u8)]
    } else if k == 8 {
        seq![('E' as u8), ('i' as u8), ('g' as u8), ('h' as u8), ('t' as u8)]
    } else if k == 9 {
        seq![('N' as u8), ('i' as u8), ('n' as u8), ('e' as u8)]
    } else if k == 10 {
        seq![('T' as u8), ('e' as u8), ('n' as u8)]
    } else if k == 11 {
        seq![('E' as u8), ('l' as u8), ('e' as u8), ('v' as u8), ('e' as u8), ('n' as u8)]
    } else if k == 12 {
        seq![('T' as u8), ('w' as u8), ('e' as u8), ('l' as u8), ('v' as u8), ('e' as u8)]
    } else if k == 13 {
        seq![('T' as u8), ('h' as u8), ('i' as u8), ('r' as u8), ('t' as u8), ('e' as u8), ('e' as u8), ('n' as u8)]
    } else if k == 14 {
        seq![('F' as u8), ('o' as u8), ('u' as u8), ('r' as u8), ('t' as u8), ('e' as u8), ('e' as u8), ('n' as u8)]
    } else if k == 15 {
        seq![('F' as u8), ('i' as u8), ('f' as u8), ('t' as u8), ('e' as u8), ('e' as u8), ('n' as u8)]
    } else if k == 16 {
        seq![('S' as u8), ('i' as u8), ('x' as u8), ('t' as u8), ('e' as u8), ('e' as u8), ('n' as u8)]
    } else if k == 17 {
        seq![('S' as u8), ('e' as u8), ('v' as u8), ('e' as u8), ('n' as u8), ('t' as u8), ('e' as u8), ('e' as u8), ('n' as u8)]
    } else if k == 18 {
        seq![('E' as u8), ('i' as u8), ('g' as u8), ('h' as u8), ('t' as u8), ('e' as u8), ('e' as u8), ('n' as u8)]
    } else if k == 19 {
        seq![('N' as u8), ('i' as u8), ('n' as u8), ('e' as u8), ('t' as u8), ('e' as u8), ('e' as u8), ('n' as u8)]
    } else if k == 20 {
        seq![('T' as u8), ('w' as u8), ('e' as u8), ('n' as u8), ('t' as u8), ('y' as u8)]
    } else if k == 21 {
        seq![('T' as u8), ('h' as u8), ('i' as u8), ('r' as u8), ('t' as u8), ('y' as u8)]
    } else if k == 22 {
        seq![('F' as u8), ('o' as u8), ('r' as u8), ('t' as u8), ('y' as u8)]
    } else if k == 23 {
        seq![('F' as u8), ('i' as u8), ('f' as u8), ('t' as u8), ('y' as u8)]
    } else if k == 24 {
        seq![('S' as u8), ('i' as u8), ('x' as u8), ('t' as u8), ('y' as u8)]
    } else if k == 25 {
        seq![('S' as u8), ('e' as u8), ('v' as u8), ('e' as u8), ('n' as u8), ('t' as u8), ('y' as u8)]
    } else if k == 26 {
        seq![('E' as u8), ('i' as u8), ('g' as u8), ('h' as u8), ('t' as u8), ('y' as u8)]
    } else if k == 27 {
        seq![('N' as u8), ('i' as u8), ('n' as u8), ('e' as u8), ('t' as u8), ('y' as u8)]
    } else if k == 28 {
        seq![('H' as u8), ('u' as u8), ('n' as u8), ('d' as u8), ('r' as u8), ('e' as u8), ('d' as u8)]
    } else if k == 29 {
        seq![('T' as u8), ('h' as u8), ('o' as u8), ('u' as u8), ('s' as u8), ('a' as u8), ('n' as u8), ('d' as u8)]
    } else if k == 30 {
        seq![('M' as u8), ('i' as u8), ('l' as u8), ('l' as u8), ('i' as u8), ('o' as u8), ('n' as u8)]
    } else if k == 31 {
        seq![('B' as u8), ('i' as u8), ('l' as u8), ('l' as u8), ('i' as u8), ('o' as u8), ('n' as u8)]
    } else if k == 32 {
        seq![('T' as u8), ('r' as u8), ('i' as u8), ('l' as u8), ('l' as u8), ('i' as u8), ('o' as u8), ('n' as u8)]
    } else if k == 33 {
        seq![('Q' as u8), ('u' as u8), ('a' as u8), ('d' as u8), ('r' as u8), ('i' as u8), ('l' as u8), ('l' as u8), ('i' as u8), ('o' as u8), ('n' as u8)]
    } else if k == 34 {
        seq![('Q' as u8), ('u' as u8), ('i' as u8), ('n' as u8), ('t' as u8), ('i' as u8), ('l' as u8), ('l' as u8), ('i' as u8), ('o' as u8), ('n' as u8)]
    } else {
        Seq::empty()
    }
}

/// The words for zero to nineteen.
pub open spec fn small_text(k: nat) -> Seq<u8> {
    word_text(k)
}

/// The words for the multiples of ten from twenty to ninety, by their tens digit.
pub open spec fn tens_text(k: nat) -> Seq<u8> {
    word_text(k + 18)
}

/// The word that multiplies a digit by a hundred.
pub open spec fn hundred_text() -> Seq<u8> {
    word_text(28)
}

/// The words for the powers of a thousand, by exponent; the unit has no word.
pub open spec fn factor_text(k: nat) -> Seq<u8> {
    if k == 0 {
        Seq::empty()
    } else {
        word_text(k + 28)
    }
}

/// The powers of a thousand that the factor words stand for.
pub proof fn lemma_pow1000_table()
    ensures
        pow1000(0) == 1,
        pow1000(1) == 1_000,
        pow1000(2) == 1_000_000,
        pow1000(3) == 1_000_000_000,
        pow1000(4) == 1_000_000_000_000,
        pow1000(5) == 1_000_000_000_000_000,
        pow1000(6) == 1_000_000_000_000_000_000,
        pow1000(7) == 1_000_000_000_000_000_000_000,
{
    reveal_with_fuel(pow1000, 8);
}

// ---------------------------------------------------------------------------
// Writing numbers

/// The words for a number below a hundred; nothing for zero.
pub open spec fn below_hundred_text(t: nat) -> Seq<u8> {
    if t == 0 {
        Seq::empty()
    } else if t < 20 {
        small_text(t)
    } else if t % 10 == 0 {
        tens_text(t / 10)
    } else {
        tens_text(t / 10) + small_text(t % 10)
    }
}

/// The words for a triplet, a number below a thousand: `Zero` for zero.
pub open spec fn triplet_text(t: nat) -> Seq<u8> {
    if t == 0 {
        small_text(0)
    } else if t >= 100 {
        small_text(t / 100) + hundred_text() + below_hundred_text(t % 100)
    } else {
        below_hundred_text(t)
    }
}

/// The triplets of `n` from the factor `1000^k` down, each but the zero ones
/// followed by its factor word.
pub open spec fn groups_text(n: nat, k: nat) -> Seq<u8>
    decreases k,
{
    let t = n / pow1000(k);
    let head = if t > 0 {
        triplet_text(t) + factor_text(k)
    } else {
        Seq::empty()
    };
    if k == 0 {
        head
    } else {
        head + groups_text(n % pow1000(k), (k - 1) as nat)
    }
}

/// The written form of a whole number.
pub open spec fn number_text(n: nat) -> Seq<u8> {
    if n == 0 {
        small_text(0)
    } else {
        groups_text(n, 6)
    }
}

// ---------------------------------------------------------------------------
// Reading numbers

/// The first index from `j` on that holds an uppercase letter, or the length.
pub open spec fn next_upper(s: Seq<u8>, j: int) -> int
    decreases s.len() - j,
{
    if j >= s.len() {
        s.len() as int
    } else if is_upper(s[j]) {
        j
    } else {
        next_upper(s, j + 1)
    }
}

/// Where the part that starts at `i` ends.
pub open spec fn part_end(s: Seq<u8>, i: int) -> int {
    if i >= s.len() {
        s.len() as int
    } else {
        next_upper(s, i + 1)
    }
}

/// The part that starts at `i`; empty at the end of the text.
pub open spec fn part(s: Seq<u8>, i: int) -> Seq<u8> {
    s.subrange(i, part_end(s, i))
}

/// The first `k` in `from..to` whose word among zero to nineteen is `p`.
pub open spec fn lookup_small(p: Seq<u8>, from: nat, to: nat) -> Option<nat>
    decreases to - from,
{
    if from >= to {
        None
    } else if small_text(from) == p {
        Some(from)
    } else {
        lookup_small(p, from + 1, to)
    }
}

/// Ten times the first `k` in `from..to` whose tens word is `p`.
pub open spec fn lookup_tens(p: Seq<u8>, from: nat, to: nat) -> Option<nat>
    decreases to - from,
{
    if from >= to {
        None
    } else if tens_text(from) == p {
        Some(10 * from)
    } else {
        lookup_tens(p, from + 1, to)
    }
}

/// `1000^k` for the first `k` in `from..to` whose factor word is `p`.
pub open spec fn lookup_factor(p: Seq<u8>, from: nat, to: nat) -> Option<nat>
    decreases to - from,
{
    if from >= to {
        None
    } else if factor_text(from) == p {
        Some(pow1000(from))
    } else {
        lookup_factor(p, from + 1, to)
    }
}

/// The value of a digit word `Zero` to `Nine`.
pub open spec fn digit_value(p: Seq<u8>) -> Option<nat> {
    lookup_small(p, 0, 10)
}

/// The value of a word `Ten` to `Nineteen`.
pub open spec fn teen_value(p: Seq<u8>) -> Option<nat> {
    lookup_small(p, 10, 20)
}

/// The value of a word `Twenty` to `Ninety`.
pub open spec fn tens_value(p: Seq<u8>) -> Option<nat> {
    lookup_tens(p, 2, 10)
}

/// The value of a factor word; the empty part is the factor one.
pub open spec fn factor_value(p: Seq<u8>) -> Option<nat> {
    lookup_factor(p, 0, 7)
}

/// The rest of a triplet after its optional hundreds: a teens word alone, or
/// an optional tens word and an optional digit word. `base` is the hundreds
/// already read. Gives the triplet and where it ends; nothing read at all
/// (a total of zero) is no triplet.
pub open spec fn triplet_rest(s: Seq<u8>, i: int, base: nat) -> Option<(nat, int)> {
    match teen_value(part(s, i)) {
        Some(t) => Some((base + t, part_end(s, i))),
        None => {
            let tens = match tens_value(part(s, i)) {
                Some(x) => x,
                None => 0,
            };
            let j = match tens_value(part(s, i)) {
                Some(x) => part_end(s, i),
                None => i,
            };
            let units = match digit_value(part(s, j)) {
                Some(d) => d,
                None => 0,
            };
            let k = match digit_value(part(s, j)) {
                Some(d) => part_end(s, j),
                None => j,
            };
            if base + tens + units == 0 {
                None
            } else {
                Some((base + tens + units, k))
            }
        },
    }
}

/// The triplet that starts at `i`, and where it ends. A digit word not
/// followed by `Hundred` is a triplet by itself.
pub open spec fn triplet_at(s: Seq<u8>, i: int) -> Option<(nat, int)> {
    match digit_value(part(s, i)) {
        Some(d) => {
            let j = part_end(s, i);
            if part(s, j) == hundred_text() {
                triplet_rest(s, part_end(s, j), 100 * d)
            } else {
                Some((d, j))
            }
        },
        None => triplet_rest(s, i, 0),
    }
}

/// The value of the triplet-factor pairs from `i` to the end, each factor
/// below `limit` and below the one before it.
pub open spec fn number_from(s: Seq<u8>, i: int, limit: nat) -> Option<nat>
    decreases s.len() - i,
{
    match triplet_at(s, i) {
        None => None,
        Some((t, j)) => match factor_value(part(s, j)) {
            None => None,
            Some(f) => {
                let k = part_end(s, j);
                if f >= limit {
                    None
                } else if k >= s.len() {
                    Some(t * f)
                } else if k <= i {
                    None
                } else {
                    match number_from(s, k, f) {
                        None => None,
                        Some(r) => Some(t * f + r),
                    }
                }
            },
        },
    }
}

/// The whole number that the text spells, if it spells one.
pub open spec fn number_value(s: Seq<u8>) -> Option<nat> {
    number_from(s, 0, pow1000(7))
}

/// What reading into a `u64` gives: the number where it spells one that fits.
pub open spec fn number_result(s: Seq<u8>) -> Option<u64> {
    match number_value(s) {
        Some(n) => if n <= u64::MAX {
            Some(n as u64)
        } else {
            None
        },
        None => None,
    }
}

// ---------------------------------------------------------------------------
// Executable code

fn small_word(k: usize) -> (r: Vec<u8>)
    requires
        0 <= k < 20,
    ensures
        r@ == small_text(k as nat),
{
    match k {
        0 => vec![('Z' as u8), ('e' as u8), ('r' as u8), ('o' as u8)],
        1 => vec![('O' as u8), ('n' as u8), ('e' as u8)],
        2 => vec![('T' as u8), ('w' as u8), ('o' as u8)],
        3 => vec![('T' as u8), ('h' as u8), ('r' as u8), ('e' as u8), ('e' as u8)],
        4 => vec![('F' as u8), ('o' as u8), ('u' as u8), ('r' as u8)],
        5 => vec![('F' as u8), ('i' as u8), ('v' as u8), ('e' as u8)],
        6 => vec![('S' as u8), ('i' as u8), ('x' as u8)],
        7 => vec![('S' as u8), ('e' as u8), ('v' as u8), ('e' as u8), ('n' as u8)],
        8 => vec![('E' as u8), ('i' as u8), ('g' as u8), ('h' as u8), ('t' as u8)],
        9 => vec![('N' as u8), ('i' as u8), ('n' as u8), ('e' as u8)],
        10 => vec![('T' as u8), ('e' as u8), ('n' as u8)],
        11 => vec![('E' as u8), ('l' as u8), ('e' as u8), ('v' as u8), ('e' as u8), ('n' as u8)],
        12 => vec![('T' as u8), ('w' as u8), ('e' as u8), ('l' as u8), ('v' as u8), ('e' as u8)],
        13 => vec![('T' as u8), ('h' as u8), ('i' as u8), ('r' as u8), ('t' as u8), ('e' as u8), ('e' as u8), ('n' as u8)],
        14 => vec![('F' as u8), ('o' as u8), ('u' as u8), ('r' as u8), ('t' as u8), ('e' as u8), ('e' as u8), ('n' as u8)],
        15 => vec![('F' as u8), ('i' as u8), ('f' as u8), ('t' as u8), ('e' as u8), ('e' as u8), ('n' as u8)],
        16 => vec![('S' as u8), ('i' as u8), ('x' as u8), ('t' as u8), ('e' as u8), ('e' as u8), ('n' as u8)],
        17 => vec![('S' as u8), ('e' as u8), ('v' as u8), ('e' as u8), ('n' as u8), ('t' as u8), ('e' as u8), ('e' as u8), ('n' as u8)],
        18 => vec![('E' as u8), ('i' as u8), ('g' as u8), ('h' as u8), ('t' as u8), ('e' as u8), ('e' as u8), ('n' as u8)],
        19 => vec![('N' as u8), ('i' as u8), ('n' as u8), ('e' as u8), ('t' as u8), ('e' as u8), ('e' as u8), ('n' as u8)],
        _ => Vec::new(),
    }
}

fn tens_word(k: usize) -> (r: Vec<u8>)
    requires
        2 <= k < 10,
    ensures
        r@ == tens_text(k as nat),
{
    match k {
        2 => vec![('T' as u8), ('w' as u8), ('e' as u8), ('n' as u8), ('t' as u8), ('y' as u8)],
        3 => vec![('T' as u8), ('h' as u8), ('i' as u8), ('r' as u8), ('t' as u8), ('y' as u8)],
        4 => vec![('F' as u8), ('o' as u8), ('r' as u8), ('t' as u8), ('y' as u8)],
        5 => vec![('F' as u8), ('i' as u8), ('f' as u8), ('t' as u8), ('y' as u8)],
        6 => vec![('S' as u8), ('i' as u8), ('x' as u8), ('t' as u8), ('y' as u8)],
        7 => vec![('S' as u8), ('e' as u8), ('v' as u8), ('e' as u8), ('n' as u8), ('t' as u8), ('y' as u8)],
        8 => vec![('E' as u8), ('i' as u8), ('g' as u8), ('h' as u8), ('t' as u8), ('y' as u8)],
        9 => vec![('N' as u8), ('i' as u8), ('n' as u8), ('e' as u8), ('t' as u8), ('y' as u8)],
        _ => Vec::new(),
    }
}

fn factor_word(k: usize) -> (r: Vec<u8>)
    requires
        0 <= k < 7,
    ensures
        r@ == factor_text(k as nat),
{
    match k {
        0 => Vec::new(),
        1 => vec![('T' as u8), ('h' as u8), ('o' as u8), ('u' as u8), ('s' as u8), ('a' as u8), ('n' as u8), ('d' as u8)],
        2 => vec![('M' as u8), ('i' as u8), ('l' as u8), ('l' as u8), ('i' as u8), ('o' as u8), ('n' as u8)],
        3 => vec![('B' as u8), ('i' as u8), ('l' as u8), ('l' as u8), ('i' as u8), ('o' as u8), ('n' as u8)],
        4 => vec![('T' as u8), ('r' as u8), ('i' as u8), ('l' as u8), ('l' as u8), ('i' as u8), ('o' as u8), ('n' as u8)],
        5 => vec![('Q' as u8), ('u' as u8), ('a' as u8), ('d' as u8), ('r' as u8), ('i' as u8), ('l' as u8), ('l' as u8), ('i' as u8), ('o' as u8), ('n' as u8)],
        6 => vec![('Q' as u8), ('u' as u8), ('i' as u8), ('n' as u8), ('t' as u8), ('i' as u8), ('l' as u8), ('l' as u8), ('i' as u8), ('o' as u8), ('n' as u8)],
        _ => Vec::new(),
    }
}

fn hundred_word() -> (r: Vec<u8>)
    ensures
        r@ == hundred_text(),
{
    vec![('H' as u8), ('u' as u8), ('n' as u8), ('d' as u8), ('r' as u8), ('e' as u8), ('d' as u8)]
}

/// Whether the bytes `i..j` of `s` are exactly `w`.
fn slice_is(s: &[u8], i: usize, j: usize, w: &Vec<u8>) -> (r: bool)
    requires
        i <= j <= s.len(),
    ensures
        r == (s@.subrange(i as int, j as int) == w@),
{
    if j - i != w.len() {
        return false;
    }
    let mut k: usize = 0;
    while k < w.len()
        invariant
            i <= j <= s.len(),
            j - i == w.len(),
            k <= w.len(),
            forall|m: int| 0 <= m < k ==> s@[i + m] == w@[m],
        decreases w.len() - k,
    {
        if s[i + k] != w[k] {
            assert(s@.subrange(i as int, j as int)[k as int] != w@[k as int]);
            return false;
        }
        k += 1;
    }
    assert(s@.subrange(i as int, j as int) =~= w@);
    true
}

fn is_upper_byte(b: u8) -> (r: bool)
    ensures
        r == is_upper(b),
{
    ('A' as u8) <= b && b <= ('Z' as u8)
}

/// Where the part that starts at `i` ends.
fn part_end_at(s: &[u8], i: usize) -> (r: usize)
    requires
        i <= s.len(),
    ensures
        r == part_end(s@, i as int),
        i <= r <= s.len(),
        i < s.len() ==> i < r,
{
    if i >= s.len() {
        return s.len();
    }
    let mut j = i + 1;
    while j < s.len() && !is_upper_byte(s[j])
        invariant
            i < j <= s.len(),
            next_upper(s@, i + 1) == next_upper(s@, j as int),
        decreases s.len() - j,
    {
        j += 1;
    }
    j
}

/// The first `k` in `from..to` whose word among zero to nineteen is the text `i..j`.
fn find_small(s: &[u8], i: usize, j: usize, from: usize, to: usize) -> (r: Option<u64>)
    requires
        i <= j <= s.len(),
        from <= to <= 20,
    ensures
        r == (match lookup_small(s@.subrange(i as int, j as int), from as nat, to as nat) {
            Some(v) => Some(v as u64),
            None => None::<u64>,
        }),
        lookup_small(s@.subrange(i as int, j as int), from as nat, to as nat) matches Some(v)
            ==> from <= v < to,
{
    proof {
        lemma_lookup_small_range(s@.subrange(i as int, j as int), from as nat, to as nat);
    }
    let mut k = from;
    while k < to
        invariant
            from <= k <= to <= 20,
            i <= j <= s.len(),
            lookup_small(s@.subrange(i as int, j as int), from as nat, to as nat)
                == lookup_small(s@.subrange(i as int, j as int), k as nat, to as nat),
        decreases to - k,
    {
        let w = small_word(k);
        if slice_is(s, i, j, &w) {
            return Some(k as u64);
        }
        k += 1;
    }
    None
}

/// Ten times the first tens digit whose word is the text `i..j`.
fn find_tens(s: &[u8], i: usize, j: usize) -> (r: Option<u64>)
    requires
        i <= j <= s.len(),
    ensures
        r == (match tens_value(s@.subrange(i as int, j as int)) {
            Some(v) => Some(v as u64),
            None => None::<u64>,
        }),
        tens_value(s@.subrange(i as int, j as int)) matches Some(v) ==> 20 <= v <= 90,
{
    proof {
        lemma_lookup_tens_range(s@.subrange(i as int, j as int), 2, 10);
    }
    let mut k: usize = 2;
    while k < 10
        invariant
            2 <= k <= 10,
            i <= j <= s.len(),
            tens_value(s@.subrange(i as int, j as int))
                == lookup_tens(s@.subrange(i as int, j as int), k as nat, 10),
        decreases 10 - k,
    {
        let w = tens_word(k);
        if slice_is(s, i, j, &w) {
            return Some(10 * k as u64);
        }
        k += 1;
    }
    None
}

/// The power of a thousand whose factor word is the text `i..j`.
fn find_factor(s: &[u8], i: usize, j: usize) -> (r: Option<u64>)
    requires
        i <= j <= s.len(),
    ensures
        r == (match factor_value(s@.subrange(i as int, j as int)) {
            Some(v) => Some(v as u64),
            None => None::<u64>,
        }),
        factor_value(s@.subrange(i as int, j as int)) matches Some(v)
            ==> 1 <= v <= 1_000_000_000_000_000_000,
{
    let mut k: usize = 0;
    while k < 7
        invariant
            k <= 7,
            i <= j <= s.len(),
            factor_value(s@.subrange(i as int, j as int))
                == lookup_factor(s@.subrange(i as int, j as int), k as nat, 7),
        decreases 7 - k,
    {
        let w = factor_word(k);
        if slice_is(s, i, j, &w) {
            return Some(power_of_thousand(k));
        }
        k += 1;
    }
    None
}

/// A thousand to the power `k`, for the exponents that have a factor word.
fn power_of_thousand(k: usize) -> (r: u64)
    requires
        k < 7,
    ensures
        r == pow1000(k as nat),
        1 <= r <= 1_000_000_000_000_000_000,
{
    proof {
        lemma_pow1000_table();
    }
    match k {
        0 => 1,
        1 => 1_000,
        2 => 1_000_000,
        3 => 1_000_000_000,
        4 => 1_000_000_000_000,
        5 => 1_000_000_000_000_000,
        _ => 1_000_000_000_000_000_000,
    }
}


/// A value read by `lookup_small` lies in the range searched.
pub proof fn lemma_lookup_small_range(p: Seq<u8>, from: nat, to: nat)
    ensures
        lookup_small(p, from, to) matches Some(v) ==> from <= v < to,
    decreases to - from,
{
    if from < to {
        lemma_lookup_small_range(p, from + 1, to);
    }
}

/// A value read by `lookup_tens` is ten times a digit in the range searched.
pub proof fn lemma_lookup_tens_range(p: Seq<u8>, from: nat, to: nat)
    ensures
        lookup_tens(p, from, to) matches Some(v) ==> 10 * from <= v <= 10 * to - 10,
    decreases to - from,
{
    if from < to {
        lemma_lookup_tens_range(p, from + 1, to);
    }
}

/// Offsets a value read from the rest of a text by what was read before it.
pub open spec fn shifted(acc: nat, rest: Option<nat>) -> Option<nat> {
    match rest {
        Some(r) => Some(acc + r),
        None => None,
    }
}

/// The part of a triplet after its hundreds, read from `start` on.
fn parse_triplet_rest(word: &[u8], start: usize, base: u64) -> (r: Option<(u64, usize)>)
    requires
        start <= word.len(),
        base <= 900,
    ensures
        r == (match triplet_rest(word@, start as int, base as nat) {
            Some((t, j)) => Some((t as u64, j as usize)),
            None => None::<(u64, usize)>,
        }),
        triplet_rest(word@, start as int, base as nat) matches Some((t, j)) ==> t < 1000 && start <= j <= word.len(),
{
    let e = part_end_at(word, start);
    if let Some(teen) = find_small(word, start, e, 10, 20) {
        return Some((base + teen, e));
    }
    let mut tens: u64 = 0;
    let mut j = start;
    if let Some(x) = find_tens(word, start, e) {
        tens = x;
        j = e;
    }
    let k = part_end_at(word, j);
    let mut units: u64 = 0;
    let mut end = j;
    if let Some(d) = find_small(word, j, k, 0, 10) {
        units = d;
        end = k;
    }
    if base + tens + units == 0 {
        None
    } else {
        Some((base + tens + units, end))
    }
}

/// Reads the triplet that starts at `start`: its value and where it ends.
pub fn parse_triplet(word: &[u8], start: usize) -> (r: Option<(u64, usize)>)
    requires
        start <= word.len(),
    ensures
        r == (match triplet_at(word@, start as int) {
            Some((t, j)) => Some((t as u64, j as usize)),
            None => None::<(u64, usize)>,
        }),
        triplet_at(word@, start as int) matches Some((t, j)) ==> t < 1000 && start <= j <= word.len(),
{
    let e = part_end_at(word, start);
    match find_small(word, start, e, 0, 10) {
        Some(d) => {
            let e2 = part_end_at(word, e);
            let h = hundred_word();
            if slice_is(word, e, e2, &h) {
                parse_triplet_rest(word, e2, 100 * d)
            } else {
                Some((d, e))
            }
        },
        None => parse_triplet_rest(word, start, 0),
    }
}

/// Reads a whole number from its written form, given as bytes.
pub fn parse_number_bytes(word: &[u8]) -> (r: Option<u64>)
    ensures
        r == number_result(word@),
{
    proof {
        lemma_pow1000_table();
    }
    let mut i: usize = 0;
    let mut limit: u128 = 1_000_000_000_000_000_000_000;
    let mut acc: u64 = 0;
    loop
        invariant
            i <= word.len(),
            limit <= pow1000(7),
            number_value(word@) == shifted(acc as nat, number_from(word@, i as int, limit as nat)),
        decreases word.len() - i,
    {
        let (t, j) = match parse_triplet(word, i) {
            Some(x) => x,
            None => return None,
        };
        let k = part_end_at(word, j);
        let f = match find_factor(word, j, k) {
            Some(f) => f,
            None => return None,
        };
        if f as u128 >= limit {
            return None;
        }
        let term = match t.checked_mul(f) {
            Some(x) => x,
            None => return None,
        };
        let total = match acc.checked_add(term) {
            Some(x) => x,
            None => return None,
        };
        if k >= word.len() {
            return Some(total);
        }
        if k <= i {
            return None;
        }
        proof {
            assert(number_from(word@, i as int, limit as nat) == shifted((t * f) as nat, number_from(word@, k as int, f as nat)));
        }
        acc = total;
        i = k;
        limit = f as u128;
    }
}

/// Reads a whole number from its written form: `OneHundredTwentyThree` is 123.
/// Nothing where the text is no number or its value does not fit.
pub fn parse_number(word: &str) -> (r: Option<u64>)
    ensures
        r == number_result(word.spec_bytes()),
{
    parse_number_bytes(word.as_bytes())
}

/// The value of a digit word, `Zero` to `Nine`.
pub fn parse_digit(digit: &str) -> (r: Option<u64>)
    ensures
        r == (match digit_value(digit.spec_bytes()) {
            Some(v) => Some(v as u64),
            None => None::<u64>,
        }),
{
    let b = digit.as_bytes();
    assert(b@.subrange(0, b@.len() as int) =~= b@);
    find_small(b, 0, b.len(), 0, 10)
}

/// The value of a factor word, `Thousand` to `Quintillion`; the empty word is one.
pub fn parse_factor(word: &str) -> (r: Option<u64>)
    ensures
        r == (match factor_value(word.spec_bytes()) {
            Some(v) => Some(v as u64),
            None => None::<u64>,
        }),
{
    let b = word.as_bytes();
    assert(b@.subrange(0, b@.len() as int) =~= b@);
    find_factor(b, 0, b.len())
}


/// Builds a `String` from ASCII bytes.
/// Relies on `String::from_utf8`: ASCII bytes are valid UTF-8 and decode to the
/// characters with the same codes.
#[verifier::external_body]
fn ascii_string(bytes: Vec<u8>) -> (r: String)
    requires
        is_ascii_bytes(bytes@),
    ensures
        r@ == ascii_chars(bytes@),
{
    String::from_utf8(bytes).unwrap()
}

/// The words of zero to nineteen, of the tens, of the factors and `Hundred`
/// are ASCII.
proof fn lemma_words_ascii(k: nat)
    ensures
        k < 20 ==> is_ascii_bytes(small_text(k)),
        2 <= k < 10 ==> is_ascii_bytes(tens_text(k)),
        k < 7 ==> is_ascii_bytes(factor_text(k)),
        is_ascii_bytes(hundred_text()),
{
}

fn append_word(word: &mut Vec<u8>, w: Vec<u8>)
    requires
        is_ascii_bytes(old(word)@),
        is_ascii_bytes(w@),
    ensures
        final(word)@ == old(word)@ + w@,
        is_ascii_bytes(final(word)@),
{
    word.extend_from_slice(w.as_slice());
}

/// Appends the words of a triplet, a number below a thousand.
fn append_triplet_to_name(word: &mut Vec<u8>, triplet: u64)
    requires
        triplet < 1000,
        is_ascii_bytes(old(word)@),
    ensures
        final(word)@ == old(word)@ + triplet_text(triplet as nat),
        is_ascii_bytes(final(word)@),
{
    proof {
        lemma_words_ascii(triplet as nat);
        lemma_words_ascii(triplet as nat / 100);
        lemma_words_ascii(triplet as nat % 100);
        lemma_words_ascii(triplet as nat % 100 / 10);
        lemma_words_ascii(triplet as nat / 10);
        lemma_words_ascii(triplet as nat % 10);
    }
    let ghost start = word@;
    if triplet == 0 {
        append_word(word, small_word(0));
        return;
    }
    let mut rest = triplet;
    if triplet >= 100 {
        append_word(word, small_word((triplet / 100) as usize));
        append_word(word, hundred_word());
        rest = triplet % 100;
    }
    assert(word@ + below_hundred_text(rest as nat) == start + triplet_text(triplet as nat));
    if rest == 0 {
    } else if rest < 20 {
        append_word(word, small_word(rest as usize));
    } else {
        append_word(word, tens_word((rest / 10) as usize));
        if rest % 10 != 0 {
            append_word(word, small_word((rest % 10) as usize));
        }
    }
    assert(word@ =~= start + triplet_text(triplet as nat));
}

/// Writes a whole number in words, in PascalCase: 42 is `FortyTwo`.
pub fn display_number(number: u64) -> (r: String)
    ensures
        r@ == ascii_chars(number_text(number as nat)),
        is_ascii_bytes(number_text(number as nat)),
{
    proof {
        lemma_pow1000_table();
        lemma_words_ascii(0);
    }
    let mut word: Vec<u8> = Vec::new();
    if number == 0 {
        append_word(&mut word, small_word(0));
        return ascii_string(word);
    }
    let mut k: usize = 6;
    let mut factor: u64 = 1_000_000_000_000_000_000;
    let mut rest: u64 = number;
    loop
        invariant
            number > 0,
            k <= 6,
            factor == pow1000(k as nat),
            rest < 1000 * factor,
            is_ascii_bytes(word@),
            word@ + groups_text(rest as nat, k as nat) == groups_text(number as nat, 6),
        decreases k,
    {
        let triplet = rest / factor;
        assert(triplet < 1000) by (nonlinear_arith)
            requires
                triplet == rest / factor,
                rest < 1000 * factor,
                factor > 0,
        ;
        let ghost before = word@;
        if triplet > 0 {
            append_triplet_to_name(&mut word, triplet);
            proof {
                lemma_words_ascii(k as nat);
            }
            append_word(&mut word, factor_word(k));
        }
        proof {
            assert(word@ + (if k == 0 { Seq::empty() } else { groups_text(rest as nat % factor as nat, (k - 1) as nat) }) =~= before + groups_text(rest as nat, k as nat));
        }
        rest = rest % factor;
        if k == 0 {
            assert(word@ =~= groups_text(number as nat, 6));
            return ascii_string(word);
        }
        k -= 1;
        factor = factor / 1000;
    }
}


// ---------------------------------------------------------------------------
// Decimal literals: `ThreePointOneFour`

/// The word that separates the whole part from the digits after the point.
pub open spec fn point_text() -> Seq<u8> {
    seq![('P' as u8), ('o' as u8), ('i' as u8), ('n' as u8), ('t' as u8)]
}

/// The first index from `i` on where `Point` occurs.
pub open spec fn find_point(s: Seq<u8>, i: int) -> Option<int>
    decreases s.len() - i,
{
    if i < 0 || i + 5 > s.len() {
        None
    } else if s.subrange(i, i + 5) == point_text() {
        Some(i)
    } else {
        find_point(s, i + 1)
    }
}

/// The digits that the parts from `i` to the end spell, one digit word each.
pub open spec fn fraction_digits(s: Seq<u8>, i: int) -> Option<Seq<u8>>
    decreases s.len() - i,
{
    if i >= s.len() {
        Some(Seq::empty())
    } else if part_end(s, i) <= i || part_end(s, i) > s.len() {
        None
    } else {
        match digit_value(part(s, i)) {
            None => None,
            Some(d) => match fraction_digits(s, part_end(s, i)) {
                None => None,
                Some(ds) => Some(seq![#[verifier::truncate] (d as u8)] + ds),
            },
        }
    }
}

/// A decimal literal: a whole number, then the digits after the point.
pub struct Decimal {
    pub whole: u64,
    pub digits: Vec<u8>,
}

/// What a literal spells: the whole number before the first `Point` and the
/// one or more digit words after it, or a whole number alone where there is
/// no `Point`.
pub open spec fn decimal_value(s: Seq<u8>) -> Option<(u64, Seq<u8>)> {
    match find_point(s, 0) {
        None => match number_result(s) {
            Some(n) => Some((n, Seq::empty())),
            None => None,
        },
        Some(p) => match number_result(s.subrange(0, p)) {
            None => None,
            Some(n) => match fraction_digits(s.subrange(p + 5, s.len() as int), 0) {
                None => None,
                Some(ds) => if ds.len() == 0 {
                    None
                } else {
                    Some((n, ds))
                },
            },
        },
    }
}

fn point_word() -> (r: Vec<u8>)
    ensures
        r@ == point_text(),
{
    vec![('P' as u8), ('o' as u8), ('i' as u8), ('n' as u8), ('t' as u8)]
}

/// The digits that the parts of `word` spell, one digit word each.
fn parse_fraction_digits(word: &[u8]) -> (r: Option<Vec<u8>>)
    ensures
        r matches Some(v) ==> fraction_digits(word@, 0) == Some(v@),
        r is None ==> fraction_digits(word@, 0) is None,
{
    let mut digits: Vec<u8> = Vec::new();
    let mut i: usize = 0;
    while i < word.len()
        invariant
            i <= word.len(),
            fraction_digits(word@, 0) == (match fraction_digits(word@, i as int) {
                Some(ds) => Some(digits@ + ds),
                None => None::<Seq<u8>>,
            }),
        decreases word.len() - i,
    {
        let e = part_end_at(word, i);
        match find_small(word, i, e, 0, 10) {
            None => return None,
            Some(d) => {
                let ghost before = digits@;
                digits.push(d as u8);
                assert(d < 10);
                proof {
                    let rest = fraction_digits(word@, e as int);
                    if let Some(ds) = rest {
                        assert(before + (seq![d as u8] + ds) =~= digits@ + ds);
                    }
                }
                i = e;
            },
        }
    }
    assert(digits@ + Seq::<u8>::empty() =~= digits@);
    Some(digits)
}

/// Reads a decimal literal such as `ThreePointOneFour` into its whole part and
/// its digits after the point.
pub fn parse_decimal(word: &[u8]) -> (r: Option<Decimal>)
    ensures
        r matches Some(d) ==> decimal_value(word@) == Some((d.whole, d.digits@)),
        r is None ==> decimal_value(word@) is None,
{
    let point = point_word();
    let mut i: usize = 0;
    while i < word.len() && word.len() - i >= 5
        invariant
            i <= word.len(),
            point@ == point_text(),
            find_point(word@, 0) == find_point(word@, i as int),
        decreases word.len() - i,
    {
        if slice_is(word, i, i + 5, &point) {
            assert(find_point(word@, i as int) == Some(i as int));
            let whole = match parse_number_bytes(vstd::slice::slice_subrange(word, 0, i)) {
                Some(n) => n,
                None => return None,
            };
            let digits = match parse_fraction_digits(vstd::slice::slice_subrange(word, i + 5, word.len())) {
                Some(v) => v,
                None => return None,
            };
            if digits.len() == 0 {
                return None;
            }
            return Some(Decimal { whole, digits });
        }
        i += 1;
    }
    match parse_number_bytes(word) {
        Some(n) => Some(Decimal { whole: n, digits: Vec::new() }),
        None => None,
    }
}

// ---------------------------------------------------------------------------
// Reading back what was written

/// Reads the length and the first four bytes of a word as one number.
spec fn word_key(w: Seq<u8>) -> int {
    w.len() * 0x1_0000_0000 + w[0] * 0x100_0000 + w[1] * 0x1_0000 + w[2] * 0x100 + (if w.len() > 3 {
        w[3] as int
    } else {
        0
    })
}

/// What `word_key` gives for each number word.
spec fn word_key_table(k: nat) -> int {
    if k == 0 {
        18696467055
    } else if k == 1 {
        14217536768
    } else if k == 2 {
        14302015232
    } else if k == 3 {
        22890967653
    } else if k == 4 {
        18361578866
    } else if k == 5 {
        18361185893
    } else if k == 6 {
        14284322816
    } else if k == 7 {
        22873994853
    } else if k == 8 {
        22639372136
    } else if k == 9 {
        18495401573
    } else if k == 10 {
        14300835328
    } else if k == 11 {
        26934535542
    } else if k == 12 {
        27186914668
    } else if k == 13 {
        35775867250
    } else if k == 14 {
        35541448050
    } else if k == 15 {
        31246083700
    } else if k == 16 {
        31464192116
    } else if k == 17 {
        40053864037
    } else if k == 18 {
        35524274024
    } else if k == 19 {
        35675270757
    } else if k == 20 {
        27186914670
    } else if k == 21 {
        27185932658
    } else if k == 22 {
        22656545396
    } else if k == 23 {
        22656149108
    } else if k == 24 {
        22874257524
    } else if k == 25 {
        31463929445
    } else if k == 26 {
        26934339432
    } else if k == 27 {
        27085336165
    } else if k == 28 {
        31280426596
    } else if k == 29 {
        35775868789
    } else if k == 30 {
        31363525740
    } else if k == 31 {
        31178976364
    } else if k == 32 {
        35776522604
    } else if k == 33 {
        48611287396
    } else if k == 34 {
        48611289454
    } else {
        0
    }
}


proof fn lemma_word_key(k: nat)
    requires
        k < 35,
    ensures
        word_key(word_text(k)) == word_key_table(k),
{
}

/// No two number words are the same.
proof fn lemma_words_distinct(a: nat, b: nat)
    requires
        a < 35,
        b < 35,
        a != b,
    ensures
        word_text(a) != word_text(b),
{
    lemma_word_key(a);
    lemma_word_key(b);
}


/// A part-shaped word: an uppercase letter, then no other.
pub open spec fn word_shaped(w: Seq<u8>) -> bool {
    &&& w.len() > 0
    &&& is_upper(w[0])
    &&& forall|i: int| 1 <= i < w.len() ==> !is_upper(#[trigger] w[i])
}

proof fn lemma_words_shaped(k: nat)
    requires
        k < 35,
    ensures
        word_shaped(word_text(k)),
{
}

proof fn lemma_next_upper_run(s: Seq<u8>, j: int, e: int)
    requires
        0 <= j <= e <= s.len(),
        forall|m: int| j <= m < e ==> !is_upper(#[trigger] s[m]),
        e == s.len() || is_upper(s[e]),
    ensures
        next_upper(s, j) == e,
    decreases e - j,
{
    if j < e {
        lemma_next_upper_run(s, j + 1, e);
    }
}

/// A number word at `i`, followed by the end or by an uppercase letter, is
/// the part there.
proof fn lemma_word_at(s: Seq<u8>, i: int, k: nat)
    requires
        k < 35,
        0 <= i,
        i + word_text(k).len() <= s.len(),
        s.subrange(i, i + word_text(k).len()) == word_text(k),
        i + word_text(k).len() == s.len() || is_upper(s[i + word_text(k).len()]),
    ensures
        part_end(s, i) == i + word_text(k).len(),
        part(s, i) == word_text(k),
{
    let w = word_text(k);
    lemma_words_shaped(k);
    assert forall|m: int| i + 1 <= m < i + w.len() implies !is_upper(#[trigger] s[m]) by {
        assert(s[m] == s.subrange(i, i + w.len())[m - i]);
    }
    assert(s[i] == s.subrange(i, i + w.len())[0]);
    lemma_next_upper_run(s, i + 1, i + w.len());
}

proof fn lemma_lookup_small_hit(p: Seq<u8>, from: nat, to: nat, d: nat)
    requires
        from <= d < to <= 20,
        p == small_text(d),
    ensures
        lookup_small(p, from, to) == Some(d),
    decreases d - from,
{
    if from < d {
        lemma_words_distinct(from, d);
        lemma_lookup_small_hit(p, from + 1, to, d);
    }
}

/// A word that is not among those searched, or no word at all, is not found.
proof fn lemma_lookup_small_miss(p: Seq<u8>, from: nat, to: nat, m: nat)
    requires
        to <= 20,
        p.len() == 0 || (m < 35 && p == word_text(m) && !(from <= m < to)),
    ensures
        lookup_small(p, from, to) is None,
    decreases to - from,
{
    if from < to {
        lemma_words_shaped(from);
        if p.len() != 0 {
            lemma_words_distinct(from, m);
        }
        lemma_lookup_small_miss(p, from + 1, to, m);
    }
}

proof fn lemma_lookup_tens_hit(p: Seq<u8>, from: nat, to: nat, d: nat)
    requires
        from <= d < to <= 10,
        p == tens_text(d),
    ensures
        lookup_tens(p, from, to) == Some(10 * d),
    decreases d - from,
{
    if from < d {
        lemma_words_distinct(from + 18, d + 18);
        lemma_lookup_tens_hit(p, from + 1, to, d);
    }
}

proof fn lemma_lookup_tens_miss(p: Seq<u8>, from: nat, to: nat, m: nat)
    requires
        to <= 10,
        p.len() == 0 || (m < 35 && p == word_text(m) && !(from + 18 <= m < to + 18)),
    ensures
        lookup_tens(p, from, to) is None,
    decreases to - from,
{
    if from < to {
        lemma_words_shaped(from + 18);
        if p.len() != 0 {
            lemma_words_distinct(from + 18, m);
        }
        lemma_lookup_tens_miss(p, from + 1, to, m);
    }
}

proof fn lemma_lookup_factor_hit(p: Seq<u8>, from: nat, to: nat, d: nat)
    requires
        1 <= from <= d < to <= 7,
        p == factor_text(d),
    ensures
        lookup_factor(p, from, to) == Some(pow1000(d)),
    decreases d - from,
{
    if from < d {
        lemma_words_distinct(from + 28, d + 28);
        lemma_lookup_factor_hit(p, from + 1, to, d);
    }
}

/// Each factor word reads as its power of a thousand; the empty part as one.
proof fn lemma_factor_value(k: nat)
    requires
        k < 7,
    ensures
        factor_value(factor_text(k)) == Some(pow1000(k)),
{
    if k > 0 {
        lemma_words_shaped(28 + k);
        lemma_lookup_factor_hit(factor_text(k), 1, 7, k);
    }
}

/// No factor word, nor the empty part, is a digit, a teens word, a tens word
/// or `Hundred`.
proof fn lemma_factor_not_number_word(k: nat)
    requires
        k < 7,
    ensures
        digit_value(factor_text(k)) is None,
        teen_value(factor_text(k)) is None,
        tens_value(factor_text(k)) is None,
        factor_text(k) != hundred_text(),
{
    lemma_lookup_small_miss(factor_text(k), 0, 10, k + 28);
    lemma_lookup_small_miss(factor_text(k), 10, 20, k + 28);
    lemma_lookup_tens_miss(factor_text(k), 2, 10, k + 28);
    lemma_words_shaped(28);
    if k > 0 {
        lemma_words_distinct(28, k + 28);
    }
}


/// The index of the first word of a number from one to ninety-nine.
spec fn below_hundred_first(r: nat) -> nat {
    if r < 20 {
        r
    } else {
        r / 10 + 18
    }
}

/// A number from one to ninety-nine, written at `p` and followed by the end or
/// an uppercase letter, starts with its first word as a part.
proof fn lemma_below_hundred_first_part(s: Seq<u8>, p: int, q: int, r: nat)
    requires
        0 < r < 100,
        0 <= p <= q <= s.len(),
        s.subrange(p, q) == below_hundred_text(r),
        q == s.len() || is_upper(s[q]),
    ensures
        part(s, p) == word_text(below_hundred_first(r)),
        part_end(s, p) == p + word_text(below_hundred_first(r)).len(),
        below_hundred_first(r) < 28,
        is_upper(s[p]),
{
    let m = below_hundred_first(r);
    let w = word_text(m);
    lemma_words_shaped(m);
    if r >= 20 && r % 10 != 0 {
        let u = small_text(r % 10);
        lemma_words_shaped(r % 10);
        assert(below_hundred_text(r) == w + u);
        assert(s.subrange(p, q).len() == q - p);
        assert(s.subrange(p, p + w.len()) =~= w) by {
            assert forall|i: int| 0 <= i < w.len() implies s.subrange(p, p + w.len())[i] == w[i] by {
                assert(s.subrange(p, q)[i] == s[p + i]);
            }
        }
        assert(s[p + w.len()] == s.subrange(p, q)[w.len() as int]);
        assert(s.subrange(p, q)[w.len() as int] == u[0]);
    } else {
        assert(s.subrange(p, p + w.len()) =~= s.subrange(p, q));
    }
    assert(s[p] == s.subrange(p, q)[0]);
    lemma_word_at(s, p, m);
}

/// Reading the rest of a triplet gives back what `below_hundred_text` wrote,
/// when a factor word or the end follows.
proof fn lemma_triplet_rest_reads(s: Seq<u8>, p: int, q: int, base: nat, r: nat, fk: nat)
    requires
        r < 100,
        base <= 900,
        base + r > 0,
        fk < 7,
        0 <= p <= q <= s.len(),
        s.subrange(p, q) == below_hundred_text(r),
        q == s.len() || is_upper(s[q]),
        part(s, q) == factor_text(fk),
    ensures
        triplet_rest(s, p, base) == Some((base + r, q)),
{
    lemma_factor_not_number_word(fk);
    assert(s.subrange(p, q).len() == q - p);
    if r == 0 {
        assert(q == p);
    } else {
        let m = below_hundred_first(r);
        lemma_below_hundred_first_part(s, p, q, r);
        if r < 10 {
            assert(s.subrange(p, p + word_text(m).len()) =~= s.subrange(p, q));
            lemma_word_at(s, p, m);
            lemma_lookup_small_miss(part(s, p), 10, 20, m);
            lemma_lookup_tens_miss(part(s, p), 2, 10, m);
            lemma_lookup_small_hit(part(s, p), 0, 10, r);
        } else if r < 20 {
            assert(s.subrange(p, p + word_text(m).len()) =~= s.subrange(p, q));
            lemma_word_at(s, p, m);
            lemma_lookup_small_hit(part(s, p), 10, 20, r);
        } else {
            let q1 = p + word_text(m).len();
            lemma_lookup_small_miss(part(s, p), 10, 20, m);
            lemma_lookup_tens_hit(part(s, p), 2, 10, r / 10);
            lemma_words_shaped(m);
            assert(part_end(s, p) == q1);
            if r % 10 == 0 {
                assert(q1 == q);
            } else {
                let u = small_text(r % 10);
                assert(below_hundred_text(r) == word_text(m) + u);
                assert(q == q1 + u.len());
                assert(s.subrange(q1, q) =~= u) by {
                    assert forall|i: int| 0 <= i < u.len() implies s.subrange(q1, q)[i] == u[i] by {
                        assert(s.subrange(p, q)[word_text(m).len() + i] == s[q1 + i]);
                    }
                }
                assert(s.subrange(q1, q1 + word_text(r % 10).len()) =~= s.subrange(q1, q));
                lemma_word_at(s, q1, r % 10);
                lemma_lookup_small_hit(part(s, q1), 0, 10, r % 10);
            }
        }
    }
}


/// Reading a triplet gives back what `triplet_text` wrote, when a factor word
/// or the end follows.
proof fn lemma_triplet_reads(s: Seq<u8>, p: int, q: int, t: nat, fk: nat)
    requires
        t < 1000,
        fk < 7,
        0 <= p <= q <= s.len(),
        s.subrange(p, q) == triplet_text(t),
        q == s.len() || is_upper(s[q]),
        part(s, q) == factor_text(fk),
    ensures
        triplet_at(s, p) == Some((t, q)),
        p < q,
        is_upper(s[p]),
{
    lemma_factor_not_number_word(fk);
    assert(s.subrange(p, q).len() == q - p);
    if t == 0 || (t < 10) {
        lemma_words_shaped(t);
        assert(s.subrange(p, p + word_text(t).len()) =~= s.subrange(p, q));
        assert(s[p] == s.subrange(p, q)[0]);
        lemma_word_at(s, p, t);
        lemma_lookup_small_hit(part(s, p), 0, 10, t);
    } else if t < 100 {
        lemma_below_hundred_first_part(s, p, q, t);
        lemma_lookup_small_miss(part(s, p), 0, 10, below_hundred_first(t));
        lemma_triplet_rest_reads(s, p, q, 0, t, fk);
    } else {
        let h = t / 100;
        let r = t % 100;
        let d = small_text(h);
        let hw = hundred_text();
        let rest = below_hundred_text(r);
        let q1 = p + d.len();
        let q2 = q1 + hw.len();
        assert(triplet_text(t) == d + hw + rest);
        lemma_words_shaped(h);
        lemma_words_shaped(28);
        assert(q == q2 + rest.len());
        assert(s.subrange(p, q1) =~= d) by {
            assert forall|i: int| 0 <= i < d.len() implies s.subrange(p, q1)[i] == d[i] by {
                assert(s.subrange(p, q)[i] == s[p + i]);
            }
        }
        assert(s.subrange(q1, q2) =~= hw) by {
            assert forall|i: int| 0 <= i < hw.len() implies s.subrange(q1, q2)[i] == hw[i] by {
                assert(s.subrange(p, q)[d.len() + i] == s[q1 + i]);
            }
        }
        assert(s.subrange(q2, q) =~= rest) by {
            assert forall|i: int| 0 <= i < rest.len() implies s.subrange(q2, q)[i] == rest[i] by {
                assert(s.subrange(p, q)[d.len() + hw.len() + i] == s[q2 + i]);
            }
        }
        assert(s[q1] == s.subrange(q1, q2)[0]);
        assert(s[p] == s.subrange(p, q1)[0]);
        lemma_word_at(s, p, h);
        if r > 0 {
            lemma_below_hundred_first_part(s, q2, q, r);
        }
        lemma_word_at(s, q1, 28);
        lemma_lookup_small_hit(part(s, p), 0, 10, h);
        lemma_triplet_rest_reads(s, q2, q, 100 * h, r, fk);
    }
}


proof fn lemma_pow1000_grows(k: nat)
    ensures
        0 < pow1000(k) < pow1000(k + 1),
    decreases k,
{
    if k > 0 {
        lemma_pow1000_grows((k - 1) as nat);
    }
}

proof fn lemma_triplet_text_upper(t: nat)
    requires
        t < 1000,
    ensures
        triplet_text(t).len() > 0,
        is_upper(triplet_text(t)[0]),
{
    if t == 0 || t >= 100 {
        lemma_words_shaped(t / 100);
        lemma_words_shaped(0);
    } else {
        lemma_words_shaped(below_hundred_first(t));
    }
}

/// The triplets of a positive number are written, and start with a capital.
proof fn lemma_groups_upper(n: nat, k: nat)
    requires
        0 < n < pow1000(k + 1),
    ensures
        groups_text(n, k).len() > 0,
        is_upper(groups_text(n, k)[0]),
    decreases k,
{
    let f = pow1000(k);
    lemma_pow1000_grows(k);
    let t = n / f;
    assert(t < 1000) by (nonlinear_arith)
        requires
            t == n / f,
            n < 1000 * f,
            f > 0,
    ;
    if t > 0 {
        lemma_triplet_text_upper(t);
        let head = triplet_text(t) + factor_text(k);
        assert(head[0] == triplet_text(t)[0]);
        if k > 0 {
            assert(groups_text(n, k)[0] == head[0]);
        }
    } else {
        vstd::arithmetic::div_mod::lemma_fundamental_div_mod(n as int, f as int);
        vstd::arithmetic::div_mod::lemma_mod_pos_bound(n as int, f as int);
        assert(n % f == n);
        assert(k > 0) by {
            if k == 0 {
                assert(f == 1);
            }
        }
        lemma_groups_upper(n % f, (k - 1) as nat);
        assert(groups_text(n, k) =~= groups_text(n % f, (k - 1) as nat));
    }
}

/// Reading the triplets from `groups_text` gives back the number, with any
/// limit above their largest factor.
proof fn lemma_groups_reads(s: Seq<u8>, p: int, n: nat, k: nat, limit: nat)
    requires
        k <= 6,
        0 < n < pow1000(k + 1),
        pow1000(k) < limit,
        0 <= p <= s.len(),
        s.subrange(p, s.len() as int) == groups_text(n, k),
    ensures
        number_from(s, p, limit) == Some(n),
    decreases k,
{
    let f = pow1000(k);
    lemma_pow1000_grows(k);
    let t = n / f;
    let rest = n % f;
    vstd::arithmetic::div_mod::lemma_fundamental_div_mod(n as int, f as int);
    vstd::arithmetic::div_mod::lemma_mod_pos_bound(n as int, f as int);
    assert(t < 1000) by (nonlinear_arith)
        requires
            t == n / f,
            n < 1000 * f,
            f > 0,
    ;
    if t == 0 {
        assert(f * t == 0) by (nonlinear_arith)
            requires
                t == 0,
        ;
        assert(rest == n);
        assert(k > 0) by {
            if k == 0 {
                assert(f == 1);
            }
        }
        lemma_pow1000_grows((k - 1) as nat);
        assert(groups_text(n, k) =~= groups_text(rest, (k - 1) as nat));
        lemma_groups_reads(s, p, rest, (k - 1) as nat, limit);
    } else {
        let tt = triplet_text(t);
        let ff = factor_text(k);
        let tail = if k == 0 {
            Seq::empty()
        } else {
            groups_text(rest, (k - 1) as nat)
        };
        assert(groups_text(n, k) =~= tt + ff + tail);
        let q = p + tt.len();
        let qf = q + ff.len();
        let whole = s.subrange(p, s.len() as int);
        assert(whole.len() == s.len() - p);
        assert(whole == tt + ff + tail);
        assert(s.len() == qf + tail.len());
        assert(s.subrange(p, q) =~= tt) by {
            assert forall|i: int| 0 <= i < tt.len() implies s.subrange(p, q)[i] == tt[i] by {
                assert(whole[i] == s[p + i]);
            }
        }
        assert(s.subrange(q, qf) =~= ff) by {
            assert forall|i: int| 0 <= i < ff.len() implies s.subrange(q, qf)[i] == ff[i] by {
                assert(whole[tt.len() + i] == s[q + i]);
            }
        }
        assert(s.subrange(qf, s.len() as int) =~= tail) by {
            assert forall|i: int| 0 <= i < tail.len() implies s.subrange(qf, s.len() as int)[i]
                == tail[i] by {
                assert(whole[tt.len() + ff.len() + i] == s[qf + i]);
            }
        }
        if k == 0 {
            assert(rest == 0);
        }
        if rest > 0 {
            lemma_groups_upper(rest, (k - 1) as nat);
            assert(s[qf] == s.subrange(qf, s.len() as int)[0]);
        } else if k > 0 {
            lemma_groups_zero((k - 1) as nat);
        }
        if k > 0 {
            lemma_words_shaped(k + 28);
            assert(s.subrange(q, q + word_text(k + 28).len()) == word_text(k + 28));
            lemma_word_at(s, q, k + 28);
            assert(s[q] == s.subrange(q, qf)[0]);
        }
        lemma_triplet_reads(s, p, q, t, k);
        lemma_factor_value(k);
        assert(part(s, q) == ff);
        assert(part_end(s, q) == qf);
        assert(t * f == f * t) by (nonlinear_arith);
        assert(t * f + rest == n);
        if rest > 0 {
            lemma_pow1000_grows((k - 1) as nat);
            lemma_groups_reads(s, qf, rest, (k - 1) as nat, f);
            assert(number_from(s, qf, f) == Some(rest));
            assert(qf < s.len());
        } else {
            assert(qf == s.len());
        }
    }
}

proof fn lemma_groups_zero(k: nat)
    ensures
        groups_text(0, k) == Seq::<u8>::empty(),
    decreases k,
{
    lemma_pow1000_grows(k);
    if k > 0 {
        lemma_groups_zero((k - 1) as nat);
        assert(groups_text(0, k) =~= groups_text(0, (k - 1) as nat));
    }
}

/// Reading the written form of a whole number gives the number back.
pub proof fn lemma_number_text_reads(n: nat)
    requires
        n < pow1000(7),
    ensures
        number_value(number_text(n)) == Some(n),
{
    let s = number_text(n);
    lemma_pow1000_grows(6);
    if n == 0 {
        lemma_factor_not_number_word(0);
        lemma_factor_value(0);
        assert(s.subrange(0, s.len() as int) =~= triplet_text(0));
        assert(part(s, s.len() as int) =~= factor_text(0));
        lemma_triplet_reads(s, 0, s.len() as int, 0, 0);
    } else {
        assert(s.subrange(0, s.len() as int) =~= s);
        lemma_groups_reads(s, 0, n, 6, pow1000(7));
    }
}

/// For every `u64`, `parse_number` reads back what `display_number` wrote.
pub proof fn lemma_display_parse_round_trip(n: u64)
    ensures
        number_result(encode_utf8(ascii_chars(number_text(n as nat)))) == Some(n),
{
    let b = number_text(n as nat);
    lemma_pow1000_table();
    lemma_number_text_reads(n as nat);
    lemma_number_text_ascii(n as nat);
    let c = ascii_chars(b);
    assert(is_ascii_chars(c));
    vstd::utf8::is_ascii_chars_encode_utf8(c);
    assert(encode_utf8(c) =~= b);
}


proof fn lemma_ascii_concat(a: Seq<u8>, b: Seq<u8>)
    requires
        is_ascii_bytes(a),
        is_ascii_bytes(b),
    ensures
        is_ascii_bytes(a + b),
{
    assert forall|i: int| 0 <= i < (a + b).len() implies #[trigger] (a + b)[i] < 128 by {
        if i < a.len() {
            assert((a + b)[i] == a[i]);
        } else {
            assert((a + b)[i] == b[i - a.len()]);
        }
    }
}

proof fn lemma_word_ascii(k: nat)
    ensures
        is_ascii_bytes(word_text(k)),
{
}

proof fn lemma_triplet_text_ascii(t: nat)
    ensures
        is_ascii_bytes(triplet_text(t)),
        is_ascii_bytes(below_hundred_text(t % 100)),
{
    let r = t % 100;
    lemma_word_ascii(t / 100);
    lemma_word_ascii(28);
    lemma_word_ascii(r);
    lemma_word_ascii(r / 10 + 18);
    lemma_word_ascii(r % 10);
    lemma_word_ascii(t);
    lemma_word_ascii(t / 10 + 18);
    lemma_word_ascii(t % 10);
    lemma_ascii_concat(tens_text(r / 10), small_text(r % 10));
    lemma_ascii_concat(tens_text(t / 10), small_text(t % 10));
    lemma_ascii_concat(small_text(t / 100), hundred_text());
    lemma_ascii_concat(small_text(t / 100) + hundred_text(), below_hundred_text(r));
}

proof fn lemma_groups_ascii(n: nat, k: nat)
    requires
        k <= 6,
    ensures
        is_ascii_bytes(groups_text(n, k)),
    decreases k,
{
    let t = n / pow1000(k);
    lemma_pow1000_grows(k);
    lemma_triplet_text_ascii(t);
    lemma_word_ascii(k + 28);
    lemma_ascii_concat(triplet_text(t), factor_text(k));
    let head = if t > 0 {
        triplet_text(t) + factor_text(k)
    } else {
        Seq::empty()
    };
    assert(is_ascii_bytes(head));
    if k > 0 {
        lemma_groups_ascii(n % pow1000(k), (k - 1) as nat);
        lemma_ascii_concat(head, groups_text(n % pow1000(k), (k - 1) as nat));
        assert(groups_text(n, k) =~= head + groups_text(n % pow1000(k), (k - 1) as nat));
    } else {
        assert(groups_text(n, k) == head);
    }
}

proof fn lemma_number_text_ascii(n: nat)
    ensures
        is_ascii_bytes(number_text(n)),
{
    lemma_word_ascii(0);
    lemma_groups_ascii(n, 6);
}

} // verus!
