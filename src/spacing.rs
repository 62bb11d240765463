//! Whitespace between tokens does not change what a text means.
use vstd::prelude::*;

use crate::parser::parse_text;
use crate::tokenizer::{
    is_digit, is_letter, is_operator, lemma_run_end, run_end, tokens_from,
    tokens_of, white_space,
};

verus! {

/// A whitespace character that no other rule of the tokenizer claims.
pub open spec fn is_separator(w: char) -> bool {
    &&& white_space(w)
    &&& !is_digit(w)
    &&& !is_letter(w)
    &&& !is_operator(w)
    &&& w != '('
    &&& w != ')'
}

/// Whether index `i` of `s` falls between two digits of one number.
pub open spec fn inside_number(s: Seq<char>, i: int) -> bool {
    0 < i < s.len() && is_digit(s[i - 1]) && is_digit(s[i])
}

/// A run of digits is told by where it ends.
proof fn lemma_run_end_unique(s: Seq<char>, j: int, e: int)
    requires
        0 <= j <= e <= s.len(),
        forall|k: int| j <= k < e ==> is_digit(#[trigger] s[k]),
        e == s.len() || !is_digit(s[e]),
    ensures
        run_end(s, j) == e,
    decreases e - j,
{
    if j < e {
        lemma_run_end_unique(s, j + 1, e);
    }
}

/// The tokens from an index on depend on the text from there on alone.
proof fn lemma_tokens_shift(s: Seq<char>, t: Seq<char>, d: int, k: int)
    requires
        0 <= d,
        0 <= k <= s.len(),
        t.len() == s.len() + d,
        forall|m: int| k <= m < s.len() ==> #[trigger] t[m + d] == s[m],
    ensures
        tokens_from(t, k + d) == tokens_from(s, k),
    decreases s.len() - k,
{
    if k < s.len() {
        assert(t[k + d] == s[k]);
        if is_digit(s[k]) {
            lemma_run_end(s, k);
            let e = run_end(s, k);
            assert forall|m: int| k + d <= m < e + d implies is_digit(#[trigger] t[m]) by {
                assert(t[(m - d) + d] == s[m - d]);
            }
            if e < s.len() {
                assert(t[e + d] == s[e]);
            }
            lemma_run_end_unique(t, k + d, e + d);
            assert forall|m: int| 0 <= m < e - k implies #[trigger] t.subrange(k + d, e + d)[m]
                == s.subrange(k, e)[m] by {
                assert(t[(k + m) + d] == s[k + m]);
            }
            assert(t.subrange(k + d, e + d) =~= s.subrange(k, e));
            lemma_tokens_shift(s, t, d, e);
        } else {
            lemma_tokens_shift(s, t, d, k + 1);
        }
    }
}

proof fn lemma_insert_from(s: Seq<char>, i: int, w: char, j: int)
    requires
        0 <= j <= i <= s.len(),
        is_separator(w),
        !inside_number(s, i),
    ensures
        tokens_from(s.insert(i, w), j) == tokens_from(s, j),
    decreases i - j,
{
    let t = s.insert(i, w);
    s.insert_ensures(i, w);
    if j == i {
        lemma_tokens_shift(s, t, 1, i);
    } else {
        assert(t[j] == s[j]);
        if is_digit(s[j]) {
            lemma_run_end(s, j);
            let e = run_end(s, j);
            if e < i {
                assert(t[e] == s[e]);
                lemma_run_end_unique(t, j, e);
                assert(t.subrange(j, e) =~= s.subrange(j, e));
                lemma_insert_from(s, i, w, e);
            } else {
                assert(is_digit(s[i - 1]));
                assert(e == i);
                lemma_run_end_unique(t, j, i);
                assert(t.subrange(j, i) =~= s.subrange(j, i));
                lemma_insert_from(s, i, w, i);
            }
        } else {
            lemma_insert_from(s, i, w, j + 1);
        }
    }
}

/// Inserting a whitespace character anywhere but inside a number leaves the
/// tokens of a text, or its error, unchanged.
pub proof fn lemma_whitespace_keeps_tokens(s: Seq<char>, i: int, w: char)
    requires
        0 <= i <= s.len(),
        is_separator(w),
        !inside_number(s, i),
    ensures
        tokens_of(s.insert(i, w)) == tokens_of(s),
{
    lemma_insert_from(s, i, w, 0);
}

/// Inserting a whitespace character anywhere but inside a number leaves the
/// tree of a text, or its error, unchanged.
pub proof fn lemma_whitespace_keeps_tree(s: Seq<char>, i: int, w: char)
    requires
        0 <= i <= s.len(),
        is_separator(w),
        !inside_number(s, i),
    ensures
        parse_text(s.insert(i, w)) == parse_text(s),
{
    lemma_whitespace_keeps_tokens(s, i, w);
}

} // verus!
