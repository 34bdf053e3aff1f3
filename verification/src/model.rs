//! The mathematical model of tokenization.
//!
//! The source is a sequence of characters and a position into it. The
//! functions here say where a whitespace run, an identifier run or a digit
//! run ends, which spans of text the whole source tokenizes into, and
//! whether tokenization runs to the end of the input without failing.

use vstd::prelude::*;

use crate::classify::is_digit_char;
use crate::classify::is_symbol_char;
use crate::classify::is_word_char;
use crate::classify::is_word_start;
use crate::classify::spec_whitespace;

verus! {

/// The first position at or after `i` that does not hold whitespace.
pub open spec fn ws_end_idx(s: Seq<char>, i: int) -> int
    decreases s.len() - i
        when 0 <= i <= s.len()
{
    if i < s.len() && spec_whitespace(s[i]) {
        ws_end_idx(s, i + 1)
    } else {
        i
    }
}

/// The first position at or after `i` that does not hold a word character
/// (an alphanumeric or `_`).
pub open spec fn word_end_idx(s: Seq<char>, i: int) -> int
    decreases s.len() - i
        when 0 <= i <= s.len()
{
    if i < s.len() && is_word_char(s[i]) {
        word_end_idx(s, i + 1)
    } else {
        i
    }
}

/// The first position at or after `i` that does not hold a decimal digit.
pub open spec fn digit_end_idx(s: Seq<char>, i: int) -> int
    decreases s.len() - i
        when 0 <= i <= s.len()
{
    if i < s.len() && is_digit_char(s[i]) {
        digit_end_idx(s, i + 1)
    } else {
        i
    }
}

pub proof fn lemma_word_end_idx_bounds(s: Seq<char>, i: int)
    requires
        0 <= i <= s.len(),
    ensures
        i <= word_end_idx(s, i) <= s.len(),
    decreases s.len() - i,
{
    if i < s.len() && is_word_char(s[i]) {
        lemma_word_end_idx_bounds(s, i + 1);
    }
}

pub proof fn lemma_digit_end_idx_bounds(s: Seq<char>, i: int)
    requires
        0 <= i <= s.len(),
    ensures
        i <= digit_end_idx(s, i) <= s.len(),
    decreases s.len() - i,
{
    if i < s.len() && is_digit_char(s[i]) {
        lemma_digit_end_idx_bounds(s, i + 1);
    }
}

/// Every character skipped by a whitespace run is whitespace, and the run
/// stops only at the end of the input or at a non-whitespace character.
pub proof fn lemma_ws_end_idx_range(s: Seq<char>, i: int)
    requires
        0 <= i <= s.len(),
    ensures
        i <= ws_end_idx(s, i) <= s.len(),
        forall|k: int| i <= k < ws_end_idx(s, i) ==> spec_whitespace(s[k]),
        ws_end_idx(s, i) < s.len() ==> !spec_whitespace(s[ws_end_idx(s, i)]),
    decreases s.len() - i,
{
    if i < s.len() && spec_whitespace(s[i]) {
        lemma_ws_end_idx_range(s, i + 1);
    }
}

/// Every character inside a word run is a word character, and the run
/// stops only at the end of the input or at a non-word character.
pub proof fn lemma_word_end_idx_range(s: Seq<char>, i: int)
    requires
        0 <= i <= s.len(),
    ensures
        i <= word_end_idx(s, i) <= s.len(),
        forall|k: int| i <= k < word_end_idx(s, i) ==> is_word_char(s[k]),
        word_end_idx(s, i) < s.len() ==> !is_word_char(s[word_end_idx(s, i)]),
    decreases s.len() - i,
{
    if i < s.len() && is_word_char(s[i]) {
        lemma_word_end_idx_range(s, i + 1);
    }
}

/// No stretch of word characters starting at `i` reaches past
/// `word_end_idx(s, i)`: the run end is maximal.
pub proof fn lemma_word_end_idx_maximal(s: Seq<char>, i: int, j: int)
    requires
        0 <= i <= j <= s.len(),
        forall|k: int| i <= k < j ==> is_word_char(s[k]),
    ensures
        j <= word_end_idx(s, i),
    decreases s.len() - i,
{
    if i < j {
        assert(is_word_char(s[i]));
        lemma_word_end_idx_maximal(s, i + 1, j);
    } else {
        lemma_word_end_idx_bounds(s, i);
    }
}

/// Every character inside a digit run is a digit, and the run stops only
/// at the end of the input or at a non-digit.
pub proof fn lemma_digit_end_idx_range(s: Seq<char>, i: int)
    requires
        0 <= i <= s.len(),
    ensures
        i <= digit_end_idx(s, i) <= s.len(),
        forall|k: int| i <= k < digit_end_idx(s, i) ==> is_digit_char(s[k]),
        digit_end_idx(s, i) < s.len() ==> !is_digit_char(s[digit_end_idx(s, i)]),
    decreases s.len() - i,
{
    if i < s.len() && is_digit_char(s[i]) {
        lemma_digit_end_idx_range(s, i + 1);
    }
}

/// The spans of source text of the tokens produced from position `i`
/// onward, in source order, up to the end of the input or the first
/// unrecognized character.
pub open spec fn token_texts(s: Seq<char>, i: int) -> Seq<Seq<char>>
    decreases s.len() - i
        when 0 <= i <= s.len()
        via token_texts_decreases
{
    if i == s.len() {
        Seq::empty()
    } else if spec_whitespace(s[i]) {
        token_texts(s, i + 1)
    } else if is_symbol_char(s[i]) {
        seq![s.subrange(i, i + 1)] + token_texts(s, i + 1)
    } else if is_word_start(s[i]) {
        let e = word_end_idx(s, i + 1);
        seq![s.subrange(i, e)] + token_texts(s, e)
    } else if is_digit_char(s[i]) {
        let e = digit_end_idx(s, i + 1);
        seq![s.subrange(i, e)] + token_texts(s, e)
    } else {
        Seq::empty()
    }
}

#[via_fn]
proof fn token_texts_decreases(s: Seq<char>, i: int) {
    if 0 <= i < s.len() {
        lemma_word_end_idx_bounds(s, i + 1);
        lemma_digit_end_idx_bounds(s, i + 1);
    }
}

/// Whether tokenization from position `i` onward reaches the end of the
/// input without meeting an unrecognized character.
pub open spec fn lex_ok(s: Seq<char>, i: int) -> bool
    decreases s.len() - i
        when 0 <= i <= s.len()
        via lex_ok_decreases
{
    if i == s.len() {
        true
    } else if spec_whitespace(s[i]) {
        lex_ok(s, i + 1)
    } else if is_symbol_char(s[i]) {
        lex_ok(s, i + 1)
    } else if is_word_start(s[i]) {
        lex_ok(s, word_end_idx(s, i + 1))
    } else if is_digit_char(s[i]) {
        lex_ok(s, digit_end_idx(s, i + 1))
    } else {
        false
    }
}

#[via_fn]
proof fn lex_ok_decreases(s: Seq<char>, i: int) {
    if 0 <= i < s.len() {
        lemma_word_end_idx_bounds(s, i + 1);
        lemma_digit_end_idx_bounds(s, i + 1);
    }
}

} // verus!
