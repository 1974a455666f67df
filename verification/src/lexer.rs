//! The lexer: the source as a sequence of tokens, each with its kind, its
//! text and its span. What cannot start a token, and a literal that is not
//! well formed, become tokens of the kind `Invalid`; the lexer goes on behind
//! them.

use crate::grammar::{advances, op_at, p_heredoc, p_parts, skip_blank};
use crate::model::{kw_false, kw_null, kw_true, MAX_DEPTH};
use crate::parser::{operator_at, parse_parts, word_at, Word};
use crate::scanner::{parse_heredoc, peek_ahead};
use crate::span::{position, span, Cursor, SourceSpan};
use crate::text::{
    at, chars_of, decimal_value, digit, ident_start, is_digit, is_ident_start, lemma_run_end, read_decimal,
    run_end, scan, string_of, CharClass,
};
use crate::expr::Expression;
use vstd::prelude::*;
use vstd::string::StringSliceAdditionalSpecFns;
use vstd::utf8::encode_utf8;

verus! {

/// The kinds of tokens.
#[derive(Debug, Clone, Copy, PartialEq, Eq, Structural)]
pub enum TokenKind {
    /// An identifier that is no keyword.
    Identifier,
    /// `null`
    Null,
    /// `true` or `false`
    Bool,
    /// A run of digits that fits into 64 bits.
    Number,
    /// A quoted string without interpolation, with its quotes.
    String,
    /// A quoted string with interpolations, with its quotes.
    Template,
    /// A heredoc, from `<<` to its closing delimiter.
    Heredoc,
    /// A binary operator, or `!`.
    Operator,
    /// One of `= ? : , . ( ) [ ] { }`, or `...`.
    Punctuation,
    /// A line break.
    Newline,
    /// What starts no token, or a literal that is not well formed.
    Invalid,
}

/// A token, as the contracts see it.
pub struct TokenView {
    pub kind: TokenKind,
    pub text: Seq<char>,
    pub span: SourceSpan,
}

/// A token: its kind, its text as it stands in the source, and its span.
#[derive(Debug, Clone, PartialEq, Eq)]
pub struct Token {
    pub kind: TokenKind,
    pub text: String,
    pub span: SourceSpan,
}

impl View for Token {
    type V = TokenView;

    open spec fn view(&self) -> TokenView {
        TokenView { kind: self.kind, text: self.text@, span: self.span }
    }
}

/// The views of a sequence of tokens.
pub open spec fn token_views(v: Seq<Token>) -> Seq<TokenView> {
    Seq::new(v.len(), |i: int| v[i]@)
}

/// `c` is a punctuation character.
pub open spec fn is_punctuation(c: char) -> bool {
    c == '=' || c == '?' || c == ':' || c == ',' || c == '.' || c == '(' || c == ')' || c == '[' || c == ']'
        || c == '{' || c == '}'
}

/// Where an invalid literal that starts at `i` ends, if reading it failed
/// at `offset`: behind the character at which reading failed.
pub open spec fn invalid_end(s: Seq<char>, i: int, offset: int) -> int {
    if offset < i {
        i + 1
    } else if offset >= s.len() {
        s.len() as int
    } else {
        offset + 1
    }
}

/// The kind of the token that starts at `i`, where a character stands that
/// is no blank, and the index at which the token ends.
pub open spec fn token_at(s: Seq<char>, i: int) -> (TokenKind, int) {
    let c = at(s, i);
    if c == '\n' {
        (TokenKind::Newline, i + 1)
    } else if is_ident_start(c) {
        let e = run_end(s, i + 1, CharClass::Ident);
        let word = s.subrange(i, e);
        if word == kw_null() {
            (TokenKind::Null, e)
        } else if word == kw_true() || word == kw_false() {
            (TokenKind::Bool, e)
        } else {
            (TokenKind::Identifier, e)
        }
    } else if is_digit(c) {
        let e = run_end(s, i + 1, CharClass::Digit);
        if decimal_value(s.subrange(i, e)) > u64::MAX {
            (TokenKind::Invalid, e)
        } else {
            (TokenKind::Number, e)
        }
    } else if c == '"' {
        match p_parts(s, i + 1, MAX_DEPTH as nat, Seq::empty()) {
            Ok((x, e)) => (
                if x is Str {
                    TokenKind::String
                } else {
                    TokenKind::Template
                },
                e,
            ),
            Err(f) => (TokenKind::Invalid, invalid_end(s, i, f.offset)),
        }
    } else if c == '<' && at(s, i + 1) == '<' {
        match p_heredoc(s, i) {
            Ok((_, e)) => (TokenKind::Heredoc, e),
            Err(f) => (TokenKind::Invalid, invalid_end(s, i, f.offset)),
        }
    } else if c == '.' && at(s, i + 1) == '.' && at(s, i + 2) == '.' {
        (TokenKind::Punctuation, i + 3)
    } else {
        match op_at(s, i) {
            Some(op) => (TokenKind::Operator, i + op.symbol().len()),
            None => if c == '!' {
                (TokenKind::Operator, i + 1)
            } else if is_punctuation(c) {
                (TokenKind::Punctuation, i + 1)
            } else {
                (TokenKind::Invalid, i + 1)
            },
        }
    }
}

/// The token of kind `kind` that stands in `s` from `from` to `to`.
pub open spec fn token(s: Seq<char>, kind: TokenKind, from: int, to: int) -> TokenView {
    TokenView { kind, text: s.subrange(from, to), span: span(s, from, to) }
}

/// The tokens of `s` from `i` on, appended to `acc`. Blanks between tokens
/// belong to none.
pub open spec fn lex(s: Seq<char>, i: int, acc: Seq<TokenView>) -> Seq<TokenView>
    decreases s.len() - i,
{
    let k = skip_blank(s, i);
    if k < 0 || k >= s.len() {
        acc
    } else {
        let t = token_at(s, k);
        if advances(s, i, t.1) && k < t.1 {
            lex(s, t.1, acc.push(token(s, t.0, k, t.1)))
        } else {
            acc
        }
    }
}

/// Tells kind and end of the token that starts at `i`.
pub fn next_token(chars: &Vec<char>, i: usize) -> (r: (TokenKind, usize))
    requires
        i < chars.len(),
    ensures
        r.0 == token_at(chars@, i as int).0,
        r.1 == token_at(chars@, i as int).1,
        i < r.1 <= chars.len(),
{
    let c = chars[i];
    if c == '\n' {
        (TokenKind::Newline, i + 1)
    } else if ident_start(c) {
        let e = scan(chars, i + 1, CharClass::Ident);
        match word_at(chars, i, e) {
            Word::Null => (TokenKind::Null, e),
            Word::True => (TokenKind::Bool, e),
            Word::False => (TokenKind::Bool, e),
            Word::Other => (TokenKind::Identifier, e),
        }
    } else if digit(c) {
        let e = scan(chars, i + 1, CharClass::Digit);
        proof {
            lemma_run_end(chars@, i + 1, CharClass::Digit);
        }
        match read_decimal(chars, i, e) {
            None => (TokenKind::Invalid, e),
            Some(_) => (TokenKind::Number, e),
        }
    } else if c == '"' {
        match parse_parts(chars, i + 1, MAX_DEPTH) {
            Ok((x, e)) => {
                let kind = match x {
                    Expression::String(_) => TokenKind::String,
                    _ => TokenKind::Template,
                };
                (kind, e)
            },
            Err(f) => (TokenKind::Invalid, end_of_invalid(chars, i, f.offset)),
        }
    } else if c == '<' && peek_ahead(chars, i, 1) == '<' {
        match parse_heredoc(chars, i) {
            Ok((_, e)) => (TokenKind::Heredoc, e),
            Err(f) => (TokenKind::Invalid, end_of_invalid(chars, i, f.offset)),
        }
    } else if c == '.' && peek_ahead(chars, i, 1) == '.' && peek_ahead(chars, i, 2) == '.' {
        (TokenKind::Punctuation, i + 3)
    } else {
        match operator_at(chars, i) {
            Some((_, n)) => (TokenKind::Operator, i + n),
            None => {
                if c == '!' {
                    (TokenKind::Operator, i + 1)
                } else if c == '=' || c == '?' || c == ':' || c == ',' || c == '.' || c == '(' || c == ')' || c == '['
                    || c == ']' || c == '{' || c == '}' {
                    (TokenKind::Punctuation, i + 1)
                } else {
                    (TokenKind::Invalid, i + 1)
                }
            },
        }
    }
}

/// Tells where an invalid literal ends.
pub fn end_of_invalid(chars: &Vec<char>, i: usize, offset: usize) -> (e: usize)
    requires
        i < chars.len(),
    ensures
        e == invalid_end(chars@, i as int, offset as int),
        i < e <= chars.len(),
{
    if offset < i {
        i + 1
    } else if offset >= chars.len() {
        chars.len()
    } else {
        offset + 1
    }
}

/// The tokens of `input`, in order. Every character of the input that is no
/// blank belongs to exactly one token; what is no token of the language is a
/// token of the kind `Invalid`.
pub fn tokenize(input: &str) -> (tokens: Vec<Token>)
    ensures
        token_views(tokens@) == lex(input@, 0, Seq::empty()),
{
    let chars = chars_of(input);
    let byte_count = input.as_bytes().len();
    assert(encode_utf8(chars@).len() == byte_count);
    let mut tokens: Vec<Token> = Vec::new();
    let mut cursor = Cursor::start(&chars);
    let mut i: usize = 0;
    assert(token_views(tokens@) =~= Seq::empty());
    loop
        invariant
            i <= chars.len(),
            chars@ == input@,
            encode_utf8(chars@).len() <= usize::MAX,
            cursor.stands_at(chars@, i as int),
            lex(chars@, i as int, token_views(tokens@)) == lex(chars@, 0, Seq::empty()),
        decreases chars.len() - i,
    {
        let k = scan(&chars, i, CharClass::Blank);
        if k >= chars.len() {
            return tokens;
        }
        let (kind, e) = next_token(&chars, k);
        let first = cursor.advance(&chars, k);
        let last = first.advance(&chars, e);
        let token = Token {
            kind,
            text: string_of(&chars, k, e),
            span: SourceSpan { start: first.position(&chars), end: last.position(&chars) },
        };
        assert(token_views(tokens@.push(token)) =~= token_views(tokens@).push(token@));
        tokens.push(token);
        cursor = last;
        i = e;
    }
}

} // verus!
