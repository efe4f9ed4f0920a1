//! Loading program text: whitespace-separated decimal word values become the
//! initial memory image. At most one hundred tokens fit; any malformed token
//! rejects the whole program, and unused cells default to zero.

use vstd::prelude::*;

use crate::machine::Lmc;
use crate::values::word_in_range;
use crate::values::D2;
use crate::values::D3;

verus! {

/// Why loading program text failed.
#[derive(Copy, Clone, PartialEq, Eq, Structural, Debug)]
pub enum ParseInputError {
    /// A token was not a decimal word value.
    ParseError,
    /// The program has more tokens than memory has cells.
    InputTooLong,
}

/// Whether a character separates tokens.
pub open spec fn is_space(c: char) -> bool {
    c == ' ' || c == '\n' || c == '\t' || c == '\r' || c == '\u{b}' || c == '\u{c}'
}

/// The longest leading run of non-space characters.
pub open spec fn take_token(s: Seq<char>) -> Seq<char>
    decreases s.len(),
{
    if s.len() == 0 || is_space(s[0]) {
        Seq::empty()
    } else {
        seq![s[0]] + take_token(s.skip(1))
    }
}

/// A leading token is never longer than the text it starts.
pub proof fn lemma_take_token_len(s: Seq<char>)
    ensures
        take_token(s).len() <= s.len(),
    decreases s.len(),
{
    if s.len() > 0 && !is_space(s[0]) {
        lemma_take_token_len(s.skip(1));
    }
}

/// The whitespace-separated tokens of program text, in order.
pub open spec fn tokenize(s: Seq<char>) -> Seq<Seq<char>>
    decreases s.len(),
    via tokenize_decreases
{
    if s.len() == 0 {
        Seq::empty()
    } else if is_space(s[0]) {
        tokenize(s.skip(1))
    } else {
        seq![take_token(s)] + tokenize(s.skip(take_token(s).len() as int))
    }
}

#[via_fn]
proof fn tokenize_decreases(s: Seq<char>) {
    if s.len() > 0 && !is_space(s[0]) {
        lemma_take_token_len(s);
    }
}

/// The leading token is exactly the non-space run that ends at the first
/// space (or at the end of the text).
proof fn lemma_take_token_prefix(s: Seq<char>, n: int)
    requires
        0 <= n <= s.len(),
        forall|k: int| 0 <= k < n ==> !is_space(s[k]),
        n == s.len() || is_space(s[n]),
    ensures
        take_token(s) =~= s.subrange(0, n),
    decreases n,
{
    if n == 0 {
        assert(take_token(s) =~= Seq::<char>::empty());
    } else {
        assert(!is_space(s[0]));
        assert(forall|k: int| 0 <= k < n - 1 ==> !is_space(#[trigger] s.skip(1)[k]));
        lemma_take_token_prefix(s.skip(1), n - 1);
        assert(take_token(s) =~= seq![s[0]] + take_token(s.skip(1)));
        assert(seq![s[0]] + s.skip(1).subrange(0, n - 1) =~= s.subrange(0, n));
    }
}

/// Whether a character is a decimal digit.
pub open spec fn is_digit(c: char) -> bool {
    48 <= c as u32 <= 57
}

/// The value of a decimal digit character.
pub open spec fn digit_val(c: char) -> int {
    c as u32 - 48
}

/// Whether every character of a sequence is a decimal digit.
pub open spec fn all_digits(t: Seq<char>) -> bool {
    forall|k: int| 0 <= k < t.len() ==> is_digit(#[trigger] t[k])
}

/// The value of a digit sequence read as a decimal number.
pub open spec fn digits_val(t: Seq<char>) -> int
    decreases t.len(),
{
    if t.len() == 0 {
        0
    } else {
        digits_val(t.drop_last()) * 10 + digit_val(t.last())
    }
}

/// A token with any sign prefix removed.
pub open spec fn token_body(t: Seq<char>) -> Seq<char> {
    if t.len() > 0 && (t[0] == '+' || t[0] == '-') {
        t.skip(1)
    } else {
        t
    }
}

/// Whether a token is a decimal word value: an optional sign, then at least
/// one digit, with a magnitude within the three-digit word range.
pub open spec fn token_valid(t: Seq<char>) -> bool {
    token_body(t).len() > 0 && all_digits(token_body(t)) && digits_val(token_body(t)) <= 999
}

/// The word value a valid token denotes.
pub open spec fn token_value(t: Seq<char>) -> int {
    if t.len() > 0 && t[0] == '-' {
        -digits_val(token_body(t))
    } else {
        digits_val(token_body(t))
    }
}

/// Whether program text loads: at most one hundred tokens, every one a
/// decimal word value.
pub open spec fn load_ok(s: Seq<char>) -> bool {
    tokenize(s).len() <= 100 && (forall|k: int|
        0 <= k < tokenize(s).len() ==> token_valid(#[trigger] tokenize(s)[k]))
}

/// The memory image program text loads: its token values in order, then
/// zeros up to the hundredth cell.
pub open spec fn loaded_mem(s: Seq<char>) -> Seq<int> {
    Seq::new(
        100,
        |k: int|
            if k < tokenize(s).len() {
                token_value(tokenize(s)[k])
            } else {
                0
            },
    )
}

/// Whether a character separates tokens.
fn is_space_exec(c: char) -> (r: bool)
    ensures
        r == is_space(c),
{
    c == ' ' || c == '\n' || c == '\t' || c == '\r' || c == '\u{b}' || c == '\u{c}'
}

/// Collects the characters of program text into a vector.
#[verifier::loop_isolation(false)]
fn chars_of(s: &str) -> (r: Vec<char>)
    ensures
        r@ == s@,
{
    let n: usize = s.unicode_len();
    let mut r: Vec<char> = Vec::new();
    let mut i: usize = 0;
    while i < n
        invariant
            i <= n,
            n == s@.len(),
            r@ =~= s@.take(i as int),
        decreases n - i,
    {
        r.push(s.get_char(i));
        i = i + 1;
        proof {
            assert(r@ =~= s@.take(i as int));
        }
    }
    proof {
        assert(r@ =~= s@);
    }
    r
}

/// Finds the start and end of every whitespace-separated token of the text.
#[verifier::loop_isolation(false)]
fn token_spans(cs: &Vec<char>) -> (spans: Vec<(usize, usize)>)
    ensures
        spans@.len() == tokenize(cs@).len(),
        forall|k: int|
            0 <= k < spans@.len() ==> (#[trigger] spans@[k]).0 < spans@[k].1 <= cs@.len()
                && cs@.subrange(spans@[k].0 as int, spans@[k].1 as int) == tokenize(cs@)[k],
{
    let n: usize = cs.len();
    let mut spans: Vec<(usize, usize)> = Vec::new();
    let ghost mut toks: Seq<Seq<char>> = Seq::empty();
    let mut i: usize = 0;
    proof {
        assert(cs@.skip(0) =~= cs@);
        assert(tokenize(cs@) =~= toks + tokenize(cs@.skip(0)));
    }
    while i < n
        invariant
            i <= n,
            n == cs@.len(),
            tokenize(cs@) =~= toks + tokenize(cs@.skip(i as int)),
            spans@.len() == toks.len(),
            forall|k: int|
                0 <= k < spans@.len() ==> (#[trigger] spans@[k]).0 < spans@[k].1 <= cs@.len()
                    && cs@.subrange(spans@[k].0 as int, spans@[k].1 as int) == toks[k],
        decreases n - i,
    {
        if is_space_exec(cs[i]) {
            proof {
                let s = cs@.skip(i as int);
                assert(s[0] == cs@[i as int]);
                assert(tokenize(s) == tokenize(s.skip(1)));
                assert(s.skip(1) =~= cs@.skip(i as int + 1));
            }
            i = i + 1;
        } else {
            let start: usize = i;
            let mut j: usize = i + 1;
            while j < n && !is_space_exec(cs[j])
                invariant
                    n == cs@.len(),
                    start < j <= n,
                    forall|k: int| start <= k < j ==> !is_space(#[trigger] cs@[k]),
                    !is_space(cs@[start as int]),
                decreases n - j,
            {
                j = j + 1;
            }
            proof {
                let s = cs@.skip(start as int);
                assert(forall|k: int|
                    0 <= k < j - start ==> #[trigger] s[k] == cs@[start + k] && !is_space(s[k]));
                assert(j == n || is_space(s[j - start]));
                lemma_take_token_prefix(s, j - start);
                let tok = cs@.subrange(start as int, j as int);
                assert(take_token(s) =~= s.subrange(0, j - start));
                assert(s.subrange(0, j - start) =~= tok);
                assert(tokenize(s) == seq![take_token(s)] + tokenize(
                    s.skip(take_token(s).len() as int),
                ));
                assert(s.skip(j - start) =~= cs@.skip(j as int));
                assert(tokenize(s) =~= seq![tok] + tokenize(cs@.skip(j as int)));
                assert(toks + tokenize(s) =~= (toks + seq![tok]) + tokenize(cs@.skip(j as int)));
                toks = toks + seq![tok];
            }
            spans.push((start, j));
            i = j;
        }
    }
    proof {
        assert(cs@.skip(n as int) =~= Seq::<char>::empty());
        assert(tokenize(cs@) =~= toks);
    }
    spans
}

/// Reads one token as a word value: an optional sign, then decimal digits,
/// rejected when any character is no digit or the magnitude leaves the word
/// range.
#[verifier::loop_isolation(false)]
fn parse_token(cs: &Vec<char>, start: usize, end: usize) -> (r: Option<i16>)
    requires
        start < end <= cs@.len(),
    ensures
        r is Some <==> token_valid(cs@.subrange(start as int, end as int)),
        r matches Some(v) ==> word_in_range(v as int) && v as int == token_value(
            cs@.subrange(start as int, end as int),
        ),
{
    let ghost t = cs@.subrange(start as int, end as int);
    let c0: char = cs[start];
    let neg: bool = c0 == '-';
    let signed: bool = neg || c0 == '+';
    let first: usize = if signed {
        start + 1
    } else {
        start
    };
    proof {
        assert(t[0] == c0);
        assert(cs@.subrange(first as int, end as int) =~= token_body(t));
    }
    if first == end {
        proof {
            assert(token_body(t).len() == 0);
        }
        return None;
    }
    let ghost body = token_body(t);
    let mut acc: u16 = 0;
    let mut i: usize = first;
    while i < end
        invariant
            first <= i <= end <= cs@.len(),
            body =~= cs@.subrange(first as int, end as int),
            all_digits(body.subrange(0, i - first)),
            acc <= 1000,
            digits_val(body.subrange(0, i - first)) <= 999 ==> acc == digits_val(
                body.subrange(0, i - first),
            ),
            digits_val(body.subrange(0, i - first)) > 999 ==> acc == 1000,
        decreases end - i,
    {
        let c: char = cs[i];
        let code: u32 = c as u32;
        proof {
            assert(body[i - first] == c);
        }
        if code < 48 || code > 57 {
            proof {
                assert(!is_digit(body[i - first]));
                assert(!all_digits(body));
            }
            return None;
        }
        let d: u16 = (code - 48) as u16;
        proof {
            let p = body.subrange(0, i - first);
            let q = body.subrange(0, i + 1 - first);
            assert(q.drop_last() =~= p);
            assert(q.last() == c);
            assert(digits_val(q) == digits_val(p) * 10 + d);
        }
        if acc <= 999 {
            let wide: u32 = (acc as u32) * 10 + (d as u32);
            acc = if wide > 999 {
                1000
            } else {
                wide as u16
            };
        }
        i = i + 1;
    }
    proof {
        assert(body.subrange(0, end - first) =~= body);
    }
    if acc > 999 {
        return None;
    }
    proof {
        assert(token_valid(t));
    }
    if neg {
        Some(-(acc as i16))
    } else {
        Some(acc as i16)
    }
}

impl Lmc {
    /// Loads program text: whitespace-separated decimal word values become
    /// the initial memory image, cell by cell, with every remaining cell
    /// zero, the program counter and the accumulator zero, and the output
    /// record empty. A program of more than one hundred tokens is rejected
    /// whole as too long; otherwise any token that is no word value is
    /// rejected as a parse error. No partial machine ever comes back.
    #[verifier::loop_isolation(false)]
    pub fn from(s: &str) -> (r: Result<Lmc, ParseInputError>)
        ensures
            r is Ok <==> load_ok(s@),
            r matches Ok(lmc) ==> lmc.runnable() && lmc@.pc == 0 && lmc@.acc == 0 && lmc@.out
                == Seq::<char>::empty() && lmc@.mem == loaded_mem(s@),
            r matches Err(e) ==> (e is InputTooLong <==> tokenize(s@).len() > 100),
    {
        let cs = chars_of(s);
        let spans = token_spans(&cs);
        let count: usize = spans.len();
        if count > 100 {
            return Err(ParseInputError::InputTooLong);
        }
        let mut mem: Vec<D3> = Vec::new();
        let mut k: usize = 0;
        while k < count
            invariant
                k <= count <= 100,
                cs@ == s@,
                count == tokenize(s@).len(),
                spans@.len() == count,
                forall|q: int|
                    0 <= q < count ==> (#[trigger] spans@[q]).0 < spans@[q].1 <= cs@.len()
                        && cs@.subrange(spans@[q].0 as int, spans@[q].1 as int) == tokenize(s@)[q],
                mem@.len() == k,
                forall|q: int|
                    0 <= q < k ==> token_valid(#[trigger] tokenize(s@)[q]) && word_in_range(
                        mem@[q].value as int,
                    ) && mem@[q].value as int == token_value(tokenize(s@)[q]),
            decreases count - k,
        {
            let span: (usize, usize) = spans[k];
            match parse_token(&cs, span.0, span.1) {
                Some(v) => {
                    mem.push(D3 { value: v });
                },
                None => {
                    return Err(ParseInputError::ParseError);
                },
            }
            k = k + 1;
        }
        while mem.len() < 100
            invariant
                count <= mem@.len() <= 100,
                count == tokenize(s@).len(),
                forall|q: int|
                    0 <= q < count ==> token_valid(#[trigger] tokenize(s@)[q]) && word_in_range(
                        mem@[q].value as int,
                    ) && mem@[q].value as int == token_value(tokenize(s@)[q]),
                forall|q: int|
                    count <= q < mem@.len() ==> (#[trigger] mem@[q]).value as int == 0,
            decreases 100 - mem.len(),
        {
            mem.push(D3 { value: 0 });
        }
        let r = Lmc { pc: D2 { value: 0 }, acc: D3 { value: 0 }, mem, out: Vec::new() };
        proof {
            assert(r@.mem =~= loaded_mem(s@));
            assert(r@.out =~= Seq::<char>::empty());
        }
        Ok(r)
    }
}

} // verus!
