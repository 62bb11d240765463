//! The tokenizer: text to a sequence of tokens.
use vstd::prelude::*;
use vstd::std_specs::iter::IteratorSpec;

use crate::syntax::{ParseError, Token};

verus! {

/// An ASCII decimal digit.
pub open spec fn is_digit(c: char) -> bool {
    '0' <= c && c <= '9'
}

/// An ASCII letter; each one is a variable of its own.
pub open spec fn is_letter(c: char) -> bool {
    ('a' <= c && c <= 'z') || ('A' <= c && c <= 'Z')
}

/// One of the four binary operators.
pub open spec fn is_operator(c: char) -> bool {
    c == '+' || c == '-' || c == '*' || c == '/'
}

/// What `char::is_whitespace` answers for `c`.
pub uninterp spec fn white_space(c: char) -> bool;

/// Relies on `char::is_whitespace` (the Unicode White_Space property): the
/// answer depends on the character alone.
#[verifier::external_body]
fn is_white_space(c: char) -> (r: bool)
    ensures
        r == white_space(c),
{
    c.is_whitespace()
}

/// The index just past the run of ASCII digits that starts at `i`.
pub open spec fn run_end(s: Seq<char>, i: int) -> int
    decreases s.len() - i,
{
    if 0 <= i < s.len() && is_digit(s[i]) {
        run_end(s, i + 1)
    } else {
        i
    }
}

/// The value of a sequence of decimal digits, most significant first.
pub open spec fn decimal_value(d: Seq<char>) -> int
    decreases d.len(),
{
    if d.len() == 0 {
        0
    } else {
        decimal_value(d.drop_last()) * 10 + (d.last() as int - '0' as int)
    }
}

/// Every maximal run of ASCII digits in `s` denotes a value that fits in an `i32`.
pub open spec fn numerals_fit(s: Seq<char>) -> bool {
    forall|i: int|
        0 <= i < s.len() && is_digit(s[i]) && (i == 0 || !is_digit(s[i - 1])) ==> #[trigger]
            decimal_value(s.subrange(i, run_end(s, i))) <= i32::MAX
}

/// `pre` followed by the tokens of `rest`, or the error of `rest`.
pub open spec fn prefixed(pre: Seq<Token>, rest: Result<Seq<Token>, ParseError>) -> Result<
    Seq<Token>,
    ParseError,
> {
    match rest {
        Ok(t) => Ok(pre + t),
        Err(e) => Err(e),
    }
}

/// The tokens of `s` from index `i` on, scanned left to right: a maximal run
/// of digits is one number, and the first character that no rule classifies
/// is the error.
pub open spec fn tokens_from(s: Seq<char>, i: int) -> Result<Seq<Token>, ParseError>
    decreases s.len() - i,
{
    if i < 0 || i >= s.len() {
        Ok(Seq::empty())
    } else {
        let c = s[i];
        if is_digit(c) {
            let e = run_end(s, i);
            proof {
                lemma_run_end(s, i);
            }
            prefixed(seq![Token::Number(decimal_value(s.subrange(i, e)) as i32)], tokens_from(s, e))
        } else if is_letter(c) {
            prefixed(seq![Token::Variable(c)], tokens_from(s, i + 1))
        } else if is_operator(c) {
            prefixed(seq![Token::Operator(c)], tokens_from(s, i + 1))
        } else if c == '(' {
            prefixed(seq![Token::LeftBracket], tokens_from(s, i + 1))
        } else if c == ')' {
            prefixed(seq![Token::RightBracket], tokens_from(s, i + 1))
        } else if white_space(c) {
            tokens_from(s, i + 1)
        } else {
            Err(ParseError::InvalidSymbol(c))
        }
    }
}

/// The tokens of the whole text `s`.
pub open spec fn tokens_of(s: Seq<char>) -> Result<Seq<Token>, ParseError> {
    tokens_from(s, 0)
}

/// The run that starts at `i` ends within `s`, holds only digits, and is
/// maximal.
pub proof fn lemma_run_end(s: Seq<char>, i: int)
    requires
        0 <= i <= s.len(),
    ensures
        i <= run_end(s, i) <= s.len(),
        forall|k: int| i <= k < run_end(s, i) ==> is_digit(#[trigger] s[k]),
        run_end(s, i) < s.len() ==> !is_digit(s[run_end(s, i)]),
        i < s.len() && is_digit(s[i]) ==> i < run_end(s, i),
    decreases s.len() - i,
{
    if i < s.len() && is_digit(s[i]) {
        lemma_run_end(s, i + 1);
    }
}

/// A prefix of a digit sequence has no greater value than the whole.
proof fn lemma_decimal_prefix(d: Seq<char>, k: int)
    requires
        0 <= k <= d.len(),
        forall|j: int| 0 <= j < d.len() ==> is_digit(#[trigger] d[j]),
    ensures
        0 <= decimal_value(d.take(k)) <= decimal_value(d),
    decreases d.len(),
{
    if k == d.len() {
        assert(d.take(k) =~= d);
        if d.len() > 0 {
            lemma_decimal_prefix(d.drop_last(), k - 1);
        }
    } else {
        lemma_decimal_prefix(d.drop_last(), k);
        assert(d.drop_last().take(k) =~= d.take(k));
        assert(is_digit(d[d.len() - 1]));
    }
}

/// Prefixing token by token is prefixing by the whole sequence.
proof fn lemma_prefixed_push(pre: Seq<Token>, t: Token, rest: Result<Seq<Token>, ParseError>)
    ensures
        prefixed(pre, prefixed(seq![t], rest)) == prefixed(pre.push(t), rest),
{
    if let Ok(r) = rest {
        assert(pre + (seq![t] + r) =~= pre.push(t) + r);
    }
}

/// The characters of `input`, in order.
fn chars_of(input: &str) -> (r: Vec<char>)
    ensures
        r@ == input@,
{
    broadcast use vstd::string::axiom_spec_iter, vstd::string::next_postcondition;

    let mut it = input.chars();
    let mut v: Vec<char> = Vec::new();
    loop
        invariant
            v@ + it.remaining() == input@,
            it.decrease() is Some,
        ensures
            v@ == input@,
        decreases it.decrease()->0,
    {
        match it.next() {
            Some(c) => {
                v.push(c);
            },
            None => {
                assert(v@ =~= v@ + it.remaining());
                break;
            },
        }
    }
    v
}

/// Reads the run of ASCII digits that starts at `start`; returns its value
/// as a decimal number, where that fits in an `i32`, and the index just past
/// the run.
fn scan_number(s: &Vec<char>, start: usize) -> (r: (Option<i32>, usize))
    requires
        start < s@.len(),
        is_digit(s@[start as int]),
    ensures
        r.1 == run_end(s@, start as int),
        r.0 is Some <==> decimal_value(s@.subrange(start as int, r.1 as int)) <= i32::MAX,
        r.0 matches Some(v) ==> v == decimal_value(s@.subrange(start as int, r.1 as int)),
{
    let ghost e = run_end(s@, start as int);
    proof {
        lemma_run_end(s@, start as int);
    }
    let mut value: i32 = 0;
    let mut fits = true;
    let mut j: usize = start;
    while j < s.len() && '0' <= s[j] && s[j] <= '9'
        invariant
            start <= j <= e <= s@.len(),
            e == run_end(s@, start as int),
            forall|k: int| start <= k < e ==> is_digit(#[trigger] s@[k]),
            e < s@.len() ==> !is_digit(s@[e]),
            fits ==> value == decimal_value(s@.subrange(start as int, j as int)),
            !fits ==> decimal_value(s@.subrange(start as int, e)) > i32::MAX,
        decreases s@.len() - j,
    {
        let c = s[j];
        let ghost run = s@.subrange(start as int, e);
        proof {
            assert(s@.subrange(start as int, j + 1).drop_last() =~= s@.subrange(
                start as int,
                j as int,
            ));
            assert(run.take(j + 1 - start) =~= s@.subrange(start as int, j + 1));
            lemma_decimal_prefix(run, j + 1 - start);
        }
        if fits {
            let next: i64 = value as i64 * 10 + (c as u32 - '0' as u32) as i64;
            if next > i32::MAX as i64 {
                fits = false;
            } else {
                value = next as i32;
            }
        }
        j += 1;
    }
    if fits {
        (Some(value), j)
    } else {
        (None, j)
    }
}

/// Whether every run of ASCII digits in `input` denotes a value that fits in
/// an `i32`, which `tokenize` and `parse` require.
pub fn numerals_in_range(input: &str) -> (r: bool)
    ensures
        r == numerals_fit(input@),
{
    let s = chars_of(input);
    let n = s.len();
    let mut i: usize = 0;
    while i < n
        invariant
            n == s@.len(),
            s@ == input@,
            i <= n,
            forall|k: int|
                0 <= k < i && is_digit(s@[k]) && (k == 0 || !is_digit(s@[k - 1])) ==> #[trigger]
                    decimal_value(s@.subrange(k, run_end(s@, k))) <= i32::MAX,
            i < n && is_digit(s@[i as int]) ==> (i == 0 || !is_digit(s@[i - 1])),
        decreases n - i,
    {
        let c = s[i];
        if '0' <= c && c <= '9' {
            let ghost i0 = i as int;
            proof {
                lemma_run_end(s@, i0);
            }
            let (v, e) = scan_number(&s, i);
            if v.is_none() {
                assert(!(decimal_value(s@.subrange(i0, run_end(s@, i0))) <= i32::MAX));
                return false;
            }
            assert forall|k: int|
                0 <= k < e && is_digit(s@[k]) && (k == 0 || !is_digit(s@[k - 1])) implies #[trigger]
                decimal_value(s@.subrange(k, run_end(s@, k))) <= i32::MAX by {
                if i0 < k {
                    assert(is_digit(s@[k - 1]));
                }
            }
            i = e;
        } else {
            i += 1;
        }
    }
    true
}

/// Splits `input` into tokens, left to right: a run of ASCII digits is one
/// number, an ASCII letter a variable, `+ - * /` an operator, `(` and `)`
/// brackets; whitespace is skipped. Fails with `InvalidSymbol` on the first
/// other character.
pub fn tokenize(input: &str) -> (r: Result<Vec<Token>, ParseError>)
    requires
        numerals_fit(input@),
    ensures
        match tokens_of(input@) {
            Ok(ts) => r is Ok && r->Ok_0@ == ts,
            Err(e) => r is Err && r->Err_0 == e,
        },
{
    let s = chars_of(input);
    let n = s.len();
    let mut tokens: Vec<Token> = Vec::new();
    let mut i: usize = 0;
    while i < n
        invariant
            n == s@.len(),
            s@ == input@,
            i <= n,
            numerals_fit(s@),
            i < n && is_digit(s@[i as int]) ==> (i == 0 || !is_digit(s@[i - 1])),
            tokens_of(s@) == prefixed(tokens@, tokens_from(s@, i as int)),
        decreases n - i,
    {
        let c = s[i];
        let ghost i0 = i as int;
        if '0' <= c && c <= '9' {
            let (v, e) = scan_number(&s, i);
            let v = v.unwrap();
            proof {
                lemma_prefixed_push(tokens@, Token::Number(v), tokens_from(s@, e as int));
                lemma_run_end(s@, i0);
            }
            tokens.push(Token::Number(v));
            i = e;
        } else {
            let tok: Option<Token> = if ('a' <= c && c <= 'z') || ('A' <= c && c <= 'Z') {
                Some(Token::Variable(c))
            } else if c == '+' || c == '-' || c == '*' || c == '/' {
                Some(Token::Operator(c))
            } else if c == '(' {
                Some(Token::LeftBracket)
            } else if c == ')' {
                Some(Token::RightBracket)
            } else if is_white_space(c) {
                None
            } else {
                return Err(ParseError::InvalidSymbol(c));
            };
            if let Some(t) = tok {
                proof {
                    lemma_prefixed_push(tokens@, t, tokens_from(s@, i0 + 1));
                }
                tokens.push(t);
            }
            i += 1;
        }
    }
    assert(tokens@ + Seq::<Token>::empty() =~= tokens@);
    Ok(tokens)
}

} // verus!
