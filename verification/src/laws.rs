//! Laws of the tokenization model.
//!
//! Each public proof function here states one property of the model that
//! [`crate::lexer::Lexer::next`] is specified against: tokens reconstruct
//! the source, runs are consumed whole, keywords take precedence over
//! identifiers, whitespace between tokens carries no information, and blank
//! input yields no tokens.

use vstd::prelude::*;

use crate::classify::is_digit_char;
use crate::classify::is_symbol_char;
use crate::classify::is_word_char;
use crate::classify::is_word_start;
use crate::classify::spec_whitespace;
use crate::lexer::next_spec;
use crate::model::digit_end_idx;
use crate::model::lemma_digit_end_idx_bounds;
use crate::model::lemma_digit_end_idx_range;
use crate::model::lemma_word_end_idx_bounds;
use crate::model::lemma_word_end_idx_maximal;
use crate::model::lemma_word_end_idx_range;
use crate::model::lemma_ws_end_idx_range;
use crate::model::lex_ok;
use crate::model::token_texts;
use crate::model::word_end_idx;
use crate::model::ws_end_idx;
use crate::token::LexError;
use crate::token::Token;
use crate::token::token_text;

verus! {

/// The source with its whitespace removed.
pub open spec fn source_minus_ws(s: Seq<char>) -> Seq<char> {
    s.filter(|c: char| !spec_whitespace(c))
}

/// No character that can continue a word is whitespace. Within ASCII this
/// is a fact of the classes themselves; beyond ASCII it holds of Unicode's
/// classes but the model leaves the two properties independent, so laws
/// that need it take it as a hypothesis.
pub open spec fn word_chars_not_whitespace(s: Seq<char>) -> bool {
    forall|k: int| 0 <= k < s.len() ==> (is_word_char(s[k]) ==> !spec_whitespace(s[k]))
}

/// Every character in `[i, j)` is a word character.
pub open spec fn word_run_upto(s: Seq<char>, i: int, j: int) -> bool {
    forall|k: int| i <= k < j ==> is_word_char(s[k])
}

/// A run of the blank characters space, tab and newline.
pub open spec fn simple_whitespace(w: Seq<char>) -> bool {
    forall|k: int| 0 <= k < w.len() ==> (w[k] == ' ' || w[k] == '\t' || w[k] == '\n')
}

proof fn lemma_minus_ws_empty()
    ensures
        source_minus_ws(Seq::<char>::empty()) == Seq::<char>::empty(),
{
    reveal(Seq::filter);
}

proof fn lemma_minus_ws_add(a: Seq<char>, b: Seq<char>)
    ensures
        source_minus_ws(a + b) == source_minus_ws(a) + source_minus_ws(b),
{
    broadcast use Seq::filter_distributes_over_add;

}

proof fn lemma_minus_ws_singleton(c: char)
    ensures
        source_minus_ws(seq![c]) == if spec_whitespace(c) {
            Seq::<char>::empty()
        } else {
            seq![c]
        },
{
    reveal(Seq::filter);
    lemma_minus_ws_empty();
    assert(seq![c].drop_last() =~= Seq::<char>::empty());
    assert(seq![c].last() == c);
    if !spec_whitespace(c) {
        assert(source_minus_ws(seq![c]) =~= seq![c]);
    }
}

proof fn lemma_minus_ws_all_kept(t: Seq<char>)
    requires
        forall|k: int| 0 <= k < t.len() ==> !spec_whitespace(t[k]),
    ensures
        source_minus_ws(t) == t,
    decreases t.len(),
{
    reveal(Seq::filter);
    if t.len() == 0 {
        assert(source_minus_ws(t) =~= t);
    } else {
        lemma_minus_ws_all_kept(t.drop_last());
        assert(!spec_whitespace(t.last()));
        assert(source_minus_ws(t) =~= t.drop_last().push(t.last()));
        assert(t.drop_last().push(t.last()) =~= t);
    }
}

proof fn lemma_flatten_cons(x: Seq<char>, rest: Seq<Seq<char>>)
    ensures
        (seq![x] + rest).flatten() == x + rest.flatten(),
{
    assert((seq![x] + rest).first() == x);
    assert((seq![x] + rest).drop_first() =~= rest);
}

/// Tokenization does not see the whitespace it steps over: the model is
/// the same from either end of a whitespace run.
proof fn lemma_texts_step_ws(s: Seq<char>, i: int, j: int)
    requires
        0 <= i <= j <= s.len(),
        forall|k: int| i <= k < j ==> spec_whitespace(s[k]),
    ensures
        token_texts(s, i) == token_texts(s, j),
        lex_ok(s, i) == lex_ok(s, j),
    decreases j - i,
{
    if i < j {
        assert(spec_whitespace(s[i]));
        lemma_texts_step_ws(s, i + 1, j);
    }
}

proof fn lemma_tokens_reconstruct_from(s: Seq<char>, i: int)
    requires
        0 <= i <= s.len(),
        word_chars_not_whitespace(s),
        lex_ok(s, i),
    ensures
        token_texts(s, i).flatten() == source_minus_ws(s.subrange(i, s.len() as int)),
    decreases s.len() - i,
{
    let rest = s.subrange(i, s.len() as int);
    if i == s.len() {
        assert(rest =~= Seq::<char>::empty());
        lemma_minus_ws_empty();
    } else {
        assert(rest =~= s.subrange(i, i + 1) + s.subrange(i + 1, s.len() as int));
        assert(s.subrange(i, i + 1) =~= seq![s[i]]);
        lemma_minus_ws_add(s.subrange(i, i + 1), s.subrange(i + 1, s.len() as int));
        lemma_minus_ws_singleton(s[i]);
        if spec_whitespace(s[i]) {
            lemma_tokens_reconstruct_from(s, i + 1);
        } else if is_symbol_char(s[i]) {
            lemma_tokens_reconstruct_from(s, i + 1);
            lemma_flatten_cons(s.subrange(i, i + 1), token_texts(s, i + 1));
        } else if is_word_start(s[i]) {
            let e = word_end_idx(s, i + 1);
            lemma_word_end_idx_range(s, i + 1);
            lemma_tokens_reconstruct_from(s, e);
            lemma_flatten_cons(s.subrange(i, e), token_texts(s, e));
            assert forall|k: int| 0 <= k < s.subrange(i, e).len() implies !spec_whitespace(
                s.subrange(i, e)[k],
            ) by {
                if k > 0 {
                    assert(is_word_char(s[i + k]));
                }
            }
            lemma_minus_ws_all_kept(s.subrange(i, e));
            assert(rest =~= s.subrange(i, e) + s.subrange(e, s.len() as int));
            lemma_minus_ws_add(s.subrange(i, e), s.subrange(e, s.len() as int));
        } else if is_digit_char(s[i]) {
            let e = digit_end_idx(s, i + 1);
            lemma_digit_end_idx_range(s, i + 1);
            lemma_tokens_reconstruct_from(s, e);
            lemma_flatten_cons(s.subrange(i, e), token_texts(s, e));
            assert forall|k: int| 0 <= k < s.subrange(i, e).len() implies !spec_whitespace(
                s.subrange(i, e)[k],
            ) by {
                if k > 0 {
                    assert(is_digit_char(s[i + k]));
                }
            }
            lemma_minus_ws_all_kept(s.subrange(i, e));
            assert(rest =~= s.subrange(i, e) + s.subrange(e, s.len() as int));
            lemma_minus_ws_add(s.subrange(i, e), s.subrange(e, s.len() as int));
        }
    }
}

/// Law: on a source that tokenizes to the end, concatenating the spans of
/// all produced tokens reconstructs the source minus its whitespace.
///
/// The hypothesis `word_chars_not_whitespace` holds of every real source,
/// since no Unicode alphanumeric is whitespace; the model keeps the two
/// classes independent beyond ASCII, so the law carries it explicitly.
pub proof fn lemma_tokens_reconstruct_source(s: Seq<char>)
    ensures
        word_chars_not_whitespace(s) && lex_ok(s, 0) ==> token_texts(s, 0).flatten()
            == source_minus_ws(s),
{
    if word_chars_not_whitespace(s) && lex_ok(s, 0) {
        lemma_tokens_reconstruct_from(s, 0);
        assert(s.subrange(0, s.len() as int) =~= s);
    }
}

/// Law: maximal munch. The word token consumed at a word-start character
/// spans the longest run of word characters that follows: every character
/// inside the span is a word character, the span ends only at the end of
/// the input or at a non-word character, and no stretch of word characters
/// reaches past it.
pub proof fn lemma_maximal_munch(s: Seq<char>, i: int)
    requires
        0 <= i < s.len(),
    ensures
        is_word_start(s[i]) ==> i + 1 <= word_end_idx(s, i + 1) <= s.len(),
        is_word_start(s[i]) ==> forall|k: int|
            i + 1 <= k < word_end_idx(s, i + 1) ==> is_word_char(s[k]),
        is_word_start(s[i]) ==> (word_end_idx(s, i + 1) < s.len() ==> !is_word_char(
            s[word_end_idx(s, i + 1)],
        )),
        is_word_start(s[i]) ==> forall|j: int|
            i + 1 <= j <= s.len() && #[trigger] word_run_upto(s, i + 1, j) ==> j <= word_end_idx(
                s,
                i + 1,
            ),
{
    lemma_word_end_idx_range(s, i + 1);
    assert forall|j: int|
        i + 1 <= j <= s.len() && #[trigger] word_run_upto(s, i + 1, j) implies j <= word_end_idx(
        s,
        i + 1,
    ) by {
        lemma_word_end_idx_maximal(s, i + 1, j);
    }
}

/// Law: keyword precedence. The text `int` always classifies as the
/// keyword token and never as an identifier; the text `integer` classifies
/// as exactly the identifier `integer`, and, as one token of the model,
/// never as the keyword followed by a fragment.
pub proof fn lemma_keyword_precedence(t: Token)
    ensures
        crate::token::is_word_token("int"@, t) <==> t == Token::Int,
        crate::token::is_word_token("integer"@, t) <==> (t matches Token::Identifier(name)
            && name@ == "integer"@),
        token_texts("integer"@, 0) == seq!["integer"@],
{
    reveal_strlit("int");
    reveal_strlit("return");
    reveal_strlit("integer");
    let s = "integer"@;
    assert(s.len() == 7);
    assert(s != "int"@);
    assert(s != "return"@);
    assert forall|k: int| 1 <= k < 7 implies is_word_char(s[k]) by {}
    lemma_word_end_idx_maximal(s, 1, 7);
    lemma_word_end_idx_bounds(s, 1);
    assert(word_end_idx(s, 1) == 7);
    assert(token_texts(s, 0) == seq![s.subrange(0, 7)] + token_texts(s, 7));
    assert(s.subrange(0, 7) =~= s);
    assert(seq![s.subrange(0, 7)] + token_texts(s, 7) =~= seq![s]);
}

/// From equal suffixes, equality of the pieces `d` characters in: the
/// remaining suffixes and the spans just stepped over.
proof fn lemma_suffix_step(s1: Seq<char>, s2: Seq<char>, i1: int, i2: int, d: int)
    requires
        0 <= i1 <= s1.len(),
        0 <= i2 <= s2.len(),
        s1.subrange(i1, s1.len() as int) == s2.subrange(i2, s2.len() as int),
        0 <= d <= s1.len() - i1,
    ensures
        s1.len() - i1 == s2.len() - i2,
        s1.subrange(i1 + d, s1.len() as int) == s2.subrange(i2 + d, s2.len() as int),
        s1.subrange(i1, i1 + d) == s2.subrange(i2, i2 + d),
{
    let t1 = s1.subrange(i1, s1.len() as int);
    let t2 = s2.subrange(i2, s2.len() as int);
    assert(t1.len() == t2.len());
    s1.lemma_slice_of_slice(i1, s1.len() as int, d, s1.len() - i1);
    s2.lemma_slice_of_slice(i2, s2.len() as int, d, s2.len() - i2);
    assert(s1.subrange(i1 + d, s1.len() as int) == t1.subrange(d, t1.len() as int));
    assert(s2.subrange(i2 + d, s2.len() as int) == t2.subrange(d, t2.len() as int));
    s1.lemma_slice_of_slice(i1, s1.len() as int, 0, d);
    s2.lemma_slice_of_slice(i2, s2.len() as int, 0, d);
    assert(s1.subrange(i1, i1 + d) == t1.subrange(0, d));
    assert(s2.subrange(i2, i2 + d) == t2.subrange(0, d));
}

/// The head characters of two equal, non-empty suffixes are equal.
proof fn lemma_suffix_head(s1: Seq<char>, s2: Seq<char>, i1: int, i2: int)
    requires
        0 <= i1 < s1.len(),
        0 <= i2 <= s2.len(),
        s1.subrange(i1, s1.len() as int) == s2.subrange(i2, s2.len() as int),
    ensures
        s2.len() - i2 == s1.len() - i1,
        s1[i1] == s2[i2],
{
    let t1 = s1.subrange(i1, s1.len() as int);
    let t2 = s2.subrange(i2, s2.len() as int);
    assert(t1.len() == s1.len() - i1);
    assert(t2.len() == s2.len() - i2);
    assert(t1[0] == s1[i1]);
    assert(t2[0] == s2[i2]);
}

proof fn lemma_word_end_idx_agree(s1: Seq<char>, s2: Seq<char>, i1: int, i2: int)
    requires
        0 <= i1 <= s1.len(),
        0 <= i2 <= s2.len(),
        s1.subrange(i1, s1.len() as int) == s2.subrange(i2, s2.len() as int),
    ensures
        word_end_idx(s1, i1) - i1 == word_end_idx(s2, i2) - i2,
    decreases s1.len() - i1,
{
    lemma_suffix_step(s1, s2, i1, i2, 0);
    if i1 < s1.len() {
        lemma_suffix_head(s1, s2, i1, i2);
        if is_word_char(s1[i1]) {
            lemma_suffix_step(s1, s2, i1, i2, 1);
            lemma_word_end_idx_agree(s1, s2, i1 + 1, i2 + 1);
        }
    }
}

proof fn lemma_digit_end_idx_agree(s1: Seq<char>, s2: Seq<char>, i1: int, i2: int)
    requires
        0 <= i1 <= s1.len(),
        0 <= i2 <= s2.len(),
        s1.subrange(i1, s1.len() as int) == s2.subrange(i2, s2.len() as int),
    ensures
        digit_end_idx(s1, i1) - i1 == digit_end_idx(s2, i2) - i2,
    decreases s1.len() - i1,
{
    lemma_suffix_step(s1, s2, i1, i2, 0);
    if i1 < s1.len() {
        lemma_suffix_head(s1, s2, i1, i2);
        if is_digit_char(s1[i1]) {
            lemma_suffix_step(s1, s2, i1, i2, 1);
            lemma_digit_end_idx_agree(s1, s2, i1 + 1, i2 + 1);
        }
    }
}

/// Tokenization depends only on the characters at and after the cursor:
/// two sources that agree from their cursors onward tokenize alike.
proof fn lemma_texts_agree(s1: Seq<char>, s2: Seq<char>, i1: int, i2: int)
    requires
        0 <= i1 <= s1.len(),
        0 <= i2 <= s2.len(),
        s1.subrange(i1, s1.len() as int) == s2.subrange(i2, s2.len() as int),
    ensures
        token_texts(s1, i1) == token_texts(s2, i2),
        lex_ok(s1, i1) == lex_ok(s2, i2),
    decreases s1.len() - i1,
{
    lemma_suffix_step(s1, s2, i1, i2, 0);
    if i1 < s1.len() {
        lemma_suffix_head(s1, s2, i1, i2);
        let c = s1[i1];
        if spec_whitespace(c) || is_symbol_char(c) {
            lemma_suffix_step(s1, s2, i1, i2, 1);
            lemma_texts_agree(s1, s2, i1 + 1, i2 + 1);
        } else if is_word_start(c) {
            let e1 = word_end_idx(s1, i1 + 1);
            let e2 = word_end_idx(s2, i2 + 1);
            lemma_suffix_step(s1, s2, i1, i2, 1);
            lemma_word_end_idx_agree(s1, s2, i1 + 1, i2 + 1);
            lemma_word_end_idx_bounds(s1, i1 + 1);
            lemma_word_end_idx_bounds(s2, i2 + 1);
            lemma_suffix_step(s1, s2, i1, i2, e1 - i1);
            lemma_texts_agree(s1, s2, e1, e2);
        } else if is_digit_char(c) {
            let e1 = digit_end_idx(s1, i1 + 1);
            let e2 = digit_end_idx(s2, i2 + 1);
            lemma_suffix_step(s1, s2, i1, i2, 1);
            lemma_digit_end_idx_agree(s1, s2, i1 + 1, i2 + 1);
            lemma_digit_end_idx_bounds(s1, i1 + 1);
            lemma_digit_end_idx_bounds(s2, i2 + 1);
            lemma_suffix_step(s1, s2, i1, i2, e1 - i1);
            lemma_texts_agree(s1, s2, e1, e2);
        }
    }
}

proof fn lemma_word_end_idx_common(s1: Seq<char>, s2: Seq<char>, i: int, n: int)
    requires
        0 <= i <= n,
        n < s1.len(),
        n < s2.len(),
        forall|k: int| i <= k < n ==> s1[k] == s2[k],
        !is_word_char(s1[n]),
        !is_word_char(s2[n]),
    ensures
        word_end_idx(s1, i) == word_end_idx(s2, i) <= n,
    decreases n - i,
{
    if i < n {
        if is_word_char(s1[i]) {
            lemma_word_end_idx_common(s1, s2, i + 1, n);
        }
    }
}

proof fn lemma_digit_end_idx_common(s1: Seq<char>, s2: Seq<char>, i: int, n: int)
    requires
        0 <= i <= n,
        n < s1.len(),
        n < s2.len(),
        forall|k: int| i <= k < n ==> s1[k] == s2[k],
        !is_digit_char(s1[n]),
        !is_digit_char(s2[n]),
    ensures
        digit_end_idx(s1, i) == digit_end_idx(s2, i) <= n,
    decreases n - i,
{
    if i < n {
        if is_digit_char(s1[i]) {
            lemma_digit_end_idx_common(s1, s2, i + 1, n);
        }
    }
}

proof fn lemma_texts_common_prefix(
    a: Seq<char>,
    w1: Seq<char>,
    w2: Seq<char>,
    b: Seq<char>,
    i: int,
)
    requires
        0 <= i <= a.len(),
        w1.len() > 0,
        w2.len() > 0,
        simple_whitespace(w1),
        simple_whitespace(w2),
    ensures
        token_texts(a + w1 + b, i) == token_texts(a + w2 + b, i),
        lex_ok(a + w1 + b, i) == lex_ok(a + w2 + b, i),
    decreases a.len() - i,
{
    let s1 = a + w1 + b;
    let s2 = a + w2 + b;
    assert(s1.len() == a.len() + w1.len() + b.len());
    assert(s2.len() == a.len() + w2.len() + b.len());
    if i == a.len() {
        assert forall|k: int| a.len() <= k < a.len() + w1.len() implies spec_whitespace(s1[k]) by {
            assert(s1[k] == w1[k - a.len()]);
        }
        assert forall|k: int| a.len() <= k < a.len() + w2.len() implies spec_whitespace(s2[k]) by {
            assert(s2[k] == w2[k - a.len()]);
        }
        lemma_texts_step_ws(s1, a.len() as int, (a.len() + w1.len()) as int);
        lemma_texts_step_ws(s2, a.len() as int, (a.len() + w2.len()) as int);
        let p1 = (a.len() + w1.len()) as int;
        let p2 = (a.len() + w2.len()) as int;
        assert(s1.subrange(p1, s1.len() as int) =~= b);
        assert(s2.subrange(p2, s2.len() as int) =~= b);
        lemma_texts_agree(s1, s2, p1, p2);
    } else {
        let c = s1[i];
        assert(c == a[i] && s2[i] == a[i]);
        assert(s1[a.len() as int] == w1[0] && s2[a.len() as int] == w2[0]);
        if spec_whitespace(c) {
            lemma_texts_common_prefix(a, w1, w2, b, i + 1);
        } else if is_symbol_char(c) {
            lemma_texts_common_prefix(a, w1, w2, b, i + 1);
            assert(s1.subrange(i, i + 1) =~= s2.subrange(i, i + 1));
        } else if is_word_start(c) {
            lemma_word_end_idx_common(s1, s2, i + 1, a.len() as int);
            let e = word_end_idx(s1, i + 1);
            lemma_word_end_idx_bounds(s1, i + 1);
            assert(s1.subrange(i, e) =~= s2.subrange(i, e));
            lemma_texts_common_prefix(a, w1, w2, b, e);
        } else if is_digit_char(c) {
            lemma_digit_end_idx_common(s1, s2, i + 1, a.len() as int);
            let e = digit_end_idx(s1, i + 1);
            lemma_digit_end_idx_bounds(s1, i + 1);
            assert(s1.subrange(i, e) =~= s2.subrange(i, e));
            lemma_texts_common_prefix(a, w1, w2, b, e);
        }
    }
}

/// Law: whitespace-run invariance. Between the same surrounding texts, any
/// non-empty mixture of spaces, tabs and newlines produces the same token
/// stream, and the same success or failure, whatever its length or
/// composition.
pub proof fn lemma_whitespace_run_invariance(
    a: Seq<char>,
    w1: Seq<char>,
    w2: Seq<char>,
    b: Seq<char>,
)
    requires
        w1.len() > 0,
        w2.len() > 0,
        simple_whitespace(w1),
        simple_whitespace(w2),
    ensures
        token_texts(a + w1 + b, 0) == token_texts(a + w2 + b, 0),
        lex_ok(a + w1 + b, 0) == lex_ok(a + w2 + b, 0),
{
    lemma_texts_common_prefix(a, w1, w2, b, 0);
}

/// Law: empty or all-whitespace input yields no tokens and no error.
pub proof fn lemma_blank_input_no_tokens(s: Seq<char>)
    ensures
        (forall|k: int| 0 <= k < s.len() ==> spec_whitespace(s[k])) ==> (token_texts(s, 0)
            == Seq::<Seq<char>>::empty() && lex_ok(s, 0)),
{
    if forall|k: int| 0 <= k < s.len() ==> spec_whitespace(s[k]) {
        lemma_texts_step_ws(s, 0, s.len() as int);
    }
}

/// Law: one pull agrees with the model. When `Lexer::next` returns a
/// token, its span is the head of the model's token stream and the cursor
/// moves to where the tail begins; at the end of the input the model
/// stream is empty and tokenization has succeeded; on an unrecognized
/// character the model fails from the old cursor on.
pub proof fn lemma_next_matches_model(
    s: Seq<char>,
    p: int,
    r: Result<Option<Token>, LexError>,
    q: int,
)
    requires
        0 <= p <= s.len(),
        next_spec(s, p, r, q),
    ensures
        r matches Ok(Some(t)) ==> token_texts(s, p) == seq![token_text(t)] + token_texts(s, q),
        r matches Ok(None) ==> token_texts(s, p) == Seq::<Seq<char>>::empty() && lex_ok(s, p),
        r is Err ==> !lex_ok(s, p),
{
    let j = ws_end_idx(s, p);
    lemma_ws_end_idx_range(s, p);
    lemma_texts_step_ws(s, p, j);
    if j == s.len() {
    } else if is_symbol_char(s[j]) {
        reveal_strlit("(");
        reveal_strlit(")");
        reveal_strlit("{");
        reveal_strlit("}");
        reveal_strlit(";");
        let t = crate::token::symbol_token(s[j]);
        assert(token_text(t) =~= s.subrange(j, j + 1));
        assert(token_texts(s, j) == seq![s.subrange(j, j + 1)] + token_texts(s, j + 1));
        assert(seq![token_text(t)] == seq![s.subrange(j, j + 1)]);
    } else if is_word_start(s[j]) {
        let e = word_end_idx(s, j + 1);
        lemma_word_end_idx_bounds(s, j + 1);
        let t = (r->Ok_0)->Some_0;
        assert(crate::token::is_word_token(s.subrange(j, e), t));
        assert(token_text(t) == s.subrange(j, e));
        assert(token_texts(s, j) == seq![s.subrange(j, e)] + token_texts(s, e));
        assert(seq![token_text(t)] == seq![s.subrange(j, e)]);
    } else if is_digit_char(s[j]) {
        let e = digit_end_idx(s, j + 1);
        lemma_digit_end_idx_bounds(s, j + 1);
        let t = (r->Ok_0)->Some_0;
        assert(token_text(t) == s.subrange(j, e));
        assert(token_texts(s, j) == seq![s.subrange(j, e)] + token_texts(s, e));
        assert(seq![token_text(t)] == seq![s.subrange(j, e)]);
    } else {
    }
}

} // verus!
