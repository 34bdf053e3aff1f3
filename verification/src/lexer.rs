//! The tokenizer.

use vstd::prelude::*;
use vstd::string::StrSliceExecFns;

use crate::classify::is_digit_char;
use crate::classify::is_symbol_char;
use crate::classify::is_word_char;
use crate::classify::is_word_start;
use crate::classify::spec_whitespace;
use crate::model::digit_end_idx;
use crate::model::word_end_idx;
use crate::model::ws_end_idx;
use crate::token::LexError;
use crate::token::Token;
use crate::token::is_word_token;
use crate::token::symbol_token;

verus! {

/// A pull-based tokenizer over one source text.
///
/// The lexer borrows the source for the duration of one pass and keeps a
/// cursor into it; each call to [`Lexer::next`] skips whitespace, consumes
/// one token and advances the cursor, so the tokens come out strictly in
/// source order.
pub struct Lexer<'a> {
    src: &'a str,
    pos: usize,
}

impl<'a> View for Lexer<'a> {
    type V = Seq<char>;

    closed spec fn view(&self) -> Seq<char> {
        self.src@
    }
}

/// What one pull from position `p` of source `s` returns, and where it
/// leaves the cursor, `q`: after skipping whitespace, either the input is
/// exhausted, or the token starting there is consumed whole, or the
/// character starting there fits no token class and is reported with its
/// position.
pub open spec fn next_spec(
    s: Seq<char>,
    p: int,
    r: Result<Option<Token>, LexError>,
    q: int,
) -> bool
    recommends
        0 <= p <= s.len(),
{
    let j = ws_end_idx(s, p);
    if j == s.len() {
        r == Ok::<Option<Token>, LexError>(None) && q == j
    } else if is_symbol_char(s[j]) {
        r == Ok::<Option<Token>, LexError>(Some(symbol_token(s[j]))) && q == j + 1
    } else if is_word_start(s[j]) {
        let e = word_end_idx(s, j + 1);
        &&& (r matches Ok(Some(t)) && is_word_token(s.subrange(j, e), t))
        &&& q == e
    } else if is_digit_char(s[j]) {
        let e = digit_end_idx(s, j + 1);
        &&& (r matches Ok(Some(t)) && t matches Token::IntLiteral(digits) && digits@
            == s.subrange(j, e))
        &&& q == e
    } else {
        r == Err::<Option<Token>, LexError>(LexError::UnrecognizedCharacter(s[j], j as usize))
            && q == j + 1
    }
}

/// What lexing one token that begins with the already-consumed character
/// `first` returns, when the cursor stands at `p`, just past `first`.
pub open spec fn complex_token_spec(
    s: Seq<char>,
    p: int,
    first: char,
    r: Result<Token, LexError>,
    q: int,
) -> bool
    recommends
        1 <= p <= s.len(),
{
    if is_word_start(first) {
        let e = word_end_idx(s, p);
        (r matches Ok(t) && is_word_token(s.subrange(p - 1, e), t)) && q == e
    } else if is_digit_char(first) {
        let e = digit_end_idx(s, p);
        (r matches Ok(t) && t matches Token::IntLiteral(digits) && digits@ == s.subrange(p - 1, e))
            && q == e
    } else {
        r == Err::<Token, LexError>(LexError::UnrecognizedCharacter(first, (p - 1) as usize)) && q
            == p
    }
}

impl<'a> Lexer<'a> {
    /// The cursor's position, in characters from the start of the source.
    pub closed spec fn cursor(&self) -> int {
        self.pos as int
    }

    /// The cursor never leaves the source text.
    pub open spec fn wf(&self) -> bool {
        0 <= self.cursor() <= self@.len()
    }

    /// Makes a lexer over `source` with the cursor at the start.
    pub fn new(source: &'a str) -> (lexer: Lexer<'a>)
        ensures
            lexer.wf(),
            lexer@ == source@,
            lexer.cursor() == 0,
    {
        Self { src: source, pos: 0 }
    }

    /// Peek at the next character without consuming it.
    pub fn peek(&self) -> (r: Option<char>)
        requires
            self.wf(),
        ensures
            r == if self.cursor() < self@.len() {
                Some(self@[self.cursor()])
            } else {
                None::<char>
            },
    {
        if self.pos < self.src.unicode_len() {
            Some(self.src.get_char(self.pos))
        } else {
            None
        }
    }

    /// Consume and return the next character.
    pub fn advance(&mut self) -> (r: Option<char>)
        requires
            old(self).wf(),
        ensures
            final(self).wf(),
            final(self)@ == old(self)@,
            old(self).cursor() < old(self)@.len() ==> r == Some(old(self)@[old(self).cursor()])
                && final(self).cursor() == old(self).cursor() + 1,
            old(self).cursor() == old(self)@.len() ==> r == None::<char> && final(self).cursor()
                == old(self).cursor(),
    {
        if self.pos < self.src.unicode_len() {
            let c = self.src.get_char(self.pos);
            self.pos = self.pos + 1;
            Some(c)
        } else {
            None
        }
    }

    /// Move the cursor past the run of whitespace it stands on.
    pub fn skip_whitespace(&mut self)
        requires
            old(self).wf(),
        ensures
            final(self).wf(),
            final(self)@ == old(self)@,
            final(self).cursor() == ws_end_idx(old(self)@, old(self).cursor()),
    {
        loop
            invariant
                self.wf(),
                self@ == old(self)@,
                ws_end_idx(self@, self.cursor()) == ws_end_idx(old(self)@, old(self).cursor()),
            ensures
                self.wf(),
                self@ == old(self)@,
                ws_end_idx(self@, self.cursor()) == ws_end_idx(old(self)@, old(self).cursor()),
                self.cursor() == self@.len() || !spec_whitespace(self@[self.cursor()]),
            decreases self@.len() - self.cursor(),
        {
            match self.peek() {
                Some(c) => {
                    if c.is_whitespace() {
                        self.advance();
                    } else {
                        break;
                    }
                },
                None => {
                    break;
                },
            }
        }
    }

    /// Consume the maximal run of word characters that continues the
    /// already-consumed character `first`, and classify the whole text:
    /// a keyword on an exact match against the keyword table, an
    /// identifier carrying the text otherwise.
    pub fn lex_identifier_or_keyword(&mut self, first: char) -> (t: Token)
        requires
            old(self).wf(),
            1 <= old(self).cursor(),
            old(self)@[old(self).cursor() - 1] == first,
            is_word_start(first),
        ensures
            final(self).wf(),
            final(self)@ == old(self)@,
            final(self).cursor() == word_end_idx(old(self)@, old(self).cursor()),
            is_word_token(
                final(self)@.subrange(old(self).cursor() - 1, final(self).cursor()),
                t,
            ),
    {
        let start = self.pos - 1;
        loop
            invariant
                self.wf(),
                self@ == old(self)@,
                old(self).cursor() <= self.cursor(),
                word_end_idx(self@, self.cursor()) == word_end_idx(
                    old(self)@,
                    old(self).cursor(),
                ),
            ensures
                self.wf(),
                self@ == old(self)@,
                old(self).cursor() <= self.cursor(),
                word_end_idx(self@, self.cursor()) == word_end_idx(
                    old(self)@,
                    old(self).cursor(),
                ),
                self.cursor() == self@.len() || !is_word_char(self@[self.cursor()]),
            decreases self@.len() - self.cursor(),
        {
            match self.peek() {
                Some(c) => {
                    if c.is_alphanumeric() || c == '_' {
                        self.advance();
                    } else {
                        break;
                    }
                },
                None => {
                    break;
                },
            }
        }
        let text = self.src.substring_char(start, self.pos).to_owned();
        if text == "int".to_owned() {
            Token::Int
        } else if text == "return".to_owned() {
            Token::Return
        } else {
            Token::Identifier(text)
        }
    }

    /// Consume the maximal run of decimal digits that continues the
    /// already-consumed character `first`, forming an integer literal.
    pub fn lex_numeric_literal(&mut self, first: char) -> (t: Token)
        requires
            old(self).wf(),
            1 <= old(self).cursor(),
            old(self)@[old(self).cursor() - 1] == first,
        ensures
            final(self).wf(),
            final(self)@ == old(self)@,
            final(self).cursor() == digit_end_idx(old(self)@, old(self).cursor()),
            (t matches Token::IntLiteral(digits) && digits@ == final(self)@.subrange(
                old(self).cursor() - 1,
                final(self).cursor(),
            )),
    {
        let start = self.pos - 1;
        loop
            invariant
                self.wf(),
                self@ == old(self)@,
                old(self).cursor() <= self.cursor(),
                digit_end_idx(self@, self.cursor()) == digit_end_idx(
                    old(self)@,
                    old(self).cursor(),
                ),
            ensures
                self.wf(),
                self@ == old(self)@,
                old(self).cursor() <= self.cursor(),
                digit_end_idx(self@, self.cursor()) == digit_end_idx(
                    old(self)@,
                    old(self).cursor(),
                ),
                self.cursor() == self@.len() || !is_digit_char(self@[self.cursor()]),
            decreases self@.len() - self.cursor(),
        {
            match self.peek() {
                Some(c) => {
                    if c.is_ascii_digit() {
                        self.advance();
                    } else {
                        break;
                    }
                },
                None => {
                    break;
                },
            }
        }
        let literal = self.src.substring_char(start, self.pos).to_owned();
        Token::IntLiteral(literal)
    }

    /// Lex the one token that begins with the already-consumed character
    /// `first`: an identifier or keyword, an integer literal, or a failure
    /// naming `first` and its position.
    pub fn lex_complex_token(&mut self, first: char) -> (r: Result<Token, LexError>)
        requires
            old(self).wf(),
            1 <= old(self).cursor(),
            old(self)@[old(self).cursor() - 1] == first,
        ensures
            final(self).wf(),
            final(self)@ == old(self)@,
            complex_token_spec(final(self)@, old(self).cursor(), first, r, final(self).cursor()),
    {
        if first.is_alphabetic() || first == '_' {
            Ok(self.lex_identifier_or_keyword(first))
        } else if first.is_ascii_digit() {
            Ok(self.lex_numeric_literal(first))
        } else {
            Err(LexError::UnrecognizedCharacter(first, self.pos - 1))
        }
    }

    /// Pull the next token: skip whitespace, then return the token that
    /// starts there, `Ok(None)` at the end of the input, or the first
    /// unrecognized character with its position.
    pub fn next(&mut self) -> (r: Result<Option<Token>, LexError>)
        requires
            old(self).wf(),
        ensures
            final(self).wf(),
            final(self)@ == old(self)@,
            next_spec(final(self)@, old(self).cursor(), r, final(self).cursor()),
    {
        self.skip_whitespace();
        let c_opt = self.advance();
        match c_opt {
            None => Ok(None),
            Some(c) => match c {
                '{' => Ok(Some(Token::OpenBrace)),
                '}' => Ok(Some(Token::CloseBrace)),
                '(' => Ok(Some(Token::OpenParen)),
                ')' => Ok(Some(Token::CloseParen)),
                ';' => Ok(Some(Token::Semicolon)),
                _ => match self.lex_complex_token(c) {
                    Ok(t) => Ok(Some(t)),
                    Err(e) => Err(e),
                },
            },
        }
    }
}

} // verus!
