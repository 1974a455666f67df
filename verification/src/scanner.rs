//! The scanner: the parts of the parser that read characters and never an
//! expression — escape sequences, the literal text of quoted strings, and
//! heredocs.

use crate::diag::{failure, report_none_of, Category, Expected, Failure, FailureView};
use crate::expr::{lemma_string_views_push, string_views, Expression, Heredoc};
use crate::grammar::{
    argument_options, array_options, block_options, body_options, document_options, escapes, expression_starts,
    hex_value, is_hex, item_options, p_heredoc, p_lines, p_string, scan_lit, structure_options, stuck,
    traversal_options, unescape, Parsed,
};
use crate::ident::Identifier;
use crate::model::is_ident;
use crate::text::{
    at, class_has, digit, has_at, ident_start, is_ident_char, is_ident_start, lemma_run_end, peek, run_end,
    scalar, scan, string_of, CharClass,
};
use vstd::prelude::*;

verus! {

/// `m` is the value `v`, ending at `j`.
pub open spec fn is_ok<M>(m: Parsed<M>, v: M, j: int) -> bool {
    m == Ok::<(M, int), FailureView>((v, j))
}

/// `m` is the failure `f`.
pub open spec fn is_err<M>(m: Parsed<M>, f: FailureView) -> bool {
    m == Err::<(M, int), FailureView>(f)
}

/// An identifier start followed by its run of identifier characters is an
/// identifier.
pub proof fn lemma_ident_run(s: Seq<char>, i: int)
    requires
        0 <= i < s.len(),
        is_ident_start(s[i]),
    ensures
        i < run_end(s, i + 1, CharClass::Ident) <= s.len(),
        is_ident(s.subrange(i, run_end(s, i + 1, CharClass::Ident))),
{
    lemma_run_end(s, i + 1, CharClass::Ident);
    let e = run_end(s, i + 1, CharClass::Ident);
    let n = s.subrange(i, e);
    assert(n[0] == s[i]);
    assert forall|k: int| 0 <= k < n.len() implies is_ident_char(#[trigger] n[k]) by {
        if k > 0 {
            assert(is_ident_char(s[i + k]));
        }
    }
}

/// The character `offset` places after `i`, or NUL past the end.
pub fn peek_ahead(chars: &Vec<char>, i: usize, offset: usize) -> (c: char)
    ensures
        c == at(chars@, i + offset),
{
    if i < chars.len() && offset < chars.len() - i {
        chars[i + offset]
    } else {
        '\0'
    }
}

/// A failure with one expectation.
pub fn fail_one(offset: usize, category: Category, a: Expected) -> (f: Failure)
    ensures
        f@ == failure(offset as int, category, seq![a]),
{
    let mut v: Vec<Expected> = Vec::new();
    v.push(a);
    assert(v@ =~= seq![a]);
    Failure { offset, category, expected: v }
}

/// A failure without expectations.
pub fn fail_plain(offset: usize, category: Category) -> (f: Failure)
    ensures
        f@ == failure(offset as int, category, Seq::empty()),
{
    Failure { offset, category, expected: Vec::new() }
}

/// The failure of a production that went on without consuming input.
pub fn fail_stuck(offset: usize) -> (f: Failure)
    ensures
        f@ == stuck(offset as int),
{
    Failure { offset, category: Category::Nesting, expected: Vec::new() }
}

/// The named lists of alternatives.
#[derive(Clone, Copy, PartialEq, Eq, Debug)]
pub enum Options {
    Escapes,
    ExpressionStarts,
    Structure,
    Block,
    Body,
    Document,
    Item,
    Traversal,
    Array,
    Argument,
}

/// The alternatives that a list names.
pub open spec fn options_of(which: Options) -> Seq<Expected> {
    match which {
        Options::Escapes => escapes(),
        Options::ExpressionStarts => expression_starts(),
        Options::Structure => structure_options(),
        Options::Block => block_options(),
        Options::Body => body_options(),
        Options::Document => document_options(),
        Options::Item => item_options(),
        Options::Traversal => traversal_options(),
        Options::Array => array_options(),
        Options::Argument => argument_options(),
    }
}

/// The alternatives that a list names, as a vector.
pub fn options(which: Options) -> (v: Vec<Expected>)
    ensures
        v@ == options_of(which),
        v.len() > 0,
{
    let mut v: Vec<Expected> = Vec::new();
    match which {
        Options::Escapes => {
            v.push(Expected::Char('n'));
            v.push(Expected::Char('r'));
            v.push(Expected::Char('t'));
            v.push(Expected::Char('"'));
            v.push(Expected::Char('\\'));
            v.push(Expected::Char('u'));
        },
        Options::ExpressionStarts => {
            v.push(Expected::Char('"'));
            v.push(Expected::Char('['));
            v.push(Expected::Char('{'));
            v.push(Expected::Char('-'));
            v.push(Expected::Char('!'));
            v.push(Expected::Char('('));
            v.push(Expected::Char('_'));
            v.push(Expected::Letter);
            v.push(Expected::Char('<'));
            v.push(Expected::Digit);
        },
        Options::Structure => {
            v.push(Expected::Char('{'));
            v.push(Expected::Char('='));
            v.push(Expected::Char('"'));
            v.push(Expected::Identifier);
        },
        Options::Block => {
            v.push(Expected::Char('{'));
            v.push(Expected::Char('"'));
            v.push(Expected::Identifier);
        },
        Options::Body => {
            v.push(Expected::Char('}'));
            v.push(Expected::Newline);
            v.push(Expected::Identifier);
        },
        Options::Document => {
            v.push(Expected::Newline);
            v.push(Expected::Identifier);
        },
        Options::Item => {
            v.push(Expected::Char('}'));
            v.push(Expected::Char(','));
            v.push(Expected::Newline);
        },
        Options::Traversal => {
            v.push(Expected::Char('*'));
            v.push(Expected::Identifier);
            v.push(Expected::UnsignedInteger);
        },
        Options::Array => {
            v.push(Expected::Char(','));
            v.push(Expected::Char(']'));
        },
        Options::Argument => {
            v.push(Expected::Char(','));
            v.push(Expected::Char(')'));
            v.push(Expected::Ellipsis);
        },
    }
    assert(v@ =~= options_of(which));
    v
}

/// Reports that none of the alternatives of a list stands at `offset`.
pub fn fail_none_of(offset: usize, category: Category, which: Options) -> (f: Failure)
    ensures
        f@ == crate::diag::none_of(offset as int, category, options_of(which)),
{
    report_none_of(offset, category, options(which))
}

/// The value of the hexadecimal digit `c`, if it is one.
pub fn hex_digit(c: char) -> (r: Option<u32>)
    ensures
        match r {
            Some(v) => is_hex(c) && v == hex_value(c) && v < 16,
            None => !is_hex(c),
        },
{
    if digit(c) {
        Some(c as u32 - 48)
    } else if c >= 'a' && c <= 'f' {
        Some(c as u32 - 87)
    } else if c >= 'A' && c <= 'F' {
        Some(c as u32 - 55)
    } else {
        None
    }
}

/// Reads the escape sequence after the backslash before `k`.
pub fn read_escape(chars: &Vec<char>, k: usize) -> (r: Result<(char, usize), Failure>)
    requires
        k <= chars.len(),
    ensures
        match r {
            Ok((c, j)) => is_ok(unescape(chars@, k as int), c, j as int) && k < j <= chars.len(),
            Err(f) => is_err(unescape(chars@, k as int), f@),
        },
{
    let c = peek(chars, k);
    if c == 'n' {
        Ok(('\n', k + 1))
    } else if c == 'r' {
        Ok(('\r', k + 1))
    } else if c == 't' {
        Ok(('\t', k + 1))
    } else if c == '"' {
        Ok(('"', k + 1))
    } else if c == '\\' {
        Ok(('\\', k + 1))
    } else if c == 'u' {
        let h1 = match hex_digit(peek_ahead(chars, k, 1)) {
            Some(v) => v,
            None => {
                return Err(fail_one(k + 1, Category::Escape, Expected::HexDigit));
            },
        };
        let h2 = match hex_digit(peek_ahead(chars, k, 2)) {
            Some(v) => v,
            None => {
                return Err(fail_one(k + 2, Category::Escape, Expected::HexDigit));
            },
        };
        let h3 = match hex_digit(peek_ahead(chars, k, 3)) {
            Some(v) => v,
            None => {
                return Err(fail_one(k + 3, Category::Escape, Expected::HexDigit));
            },
        };
        let h4 = match hex_digit(peek_ahead(chars, k, 4)) {
            Some(v) => v,
            None => {
                return Err(fail_one(k + 4, Category::Escape, Expected::HexDigit));
            },
        };
        let v: u32 = ((h1 * 16 + h2) * 16 + h3) * 16 + h4;
        match scalar(v) {
            Some(ch) => Ok((ch, k + 5)),
            None => Err(fail_plain(k + 1, Category::Escape)),
        }
    } else {
        Err(fail_none_of(k, Category::Escape, Options::Escapes))
    }
}

/// Reads the literal text of a quoted string from `i` on, up to the closing
/// quote or the start of an interpolation or directive.
pub fn scan_literal(chars: &Vec<char>, i: usize) -> (r: Result<(Vec<char>, usize), Failure>)
    requires
        i <= chars.len(),
    ensures
        match r {
            Ok((t, j)) => {
                &&& is_ok(scan_lit(chars@, i as int, Seq::empty()), t@, j as int)
                &&& i <= j < chars.len()
                &&& chars@[j as int] == '"' || ((chars@[j as int] == '$' || chars@[j as int] == '%') && at(
                    chars@,
                    j + 1,
                ) == '{')
            },
            Err(f) => is_err(scan_lit(chars@, i as int, Seq::empty()), f@),
        },
{
    let mut acc: Vec<char> = Vec::new();
    let mut pos: usize = i;
    loop
        invariant
            i <= pos <= chars.len(),
            scan_lit(chars@, pos as int, acc@) == scan_lit(chars@, i as int, Seq::empty()),
        decreases chars.len() - pos,
    {
        if pos >= chars.len() {
            return Err(fail_one(pos, Category::StringLiteral, Expected::Char('"')));
        }
        let c = chars[pos];
        if c == '"' {
            return Ok((acc, pos));
        } else if c == '\n' {
            return Err(fail_one(pos, Category::StringLiteral, Expected::Char('"')));
        } else if c == '\\' {
            match read_escape(chars, pos + 1) {
                Err(f) => {
                    return Err(f);
                },
                Ok((ch, next)) => {
                    acc.push(ch);
                    pos = next;
                },
            }
        } else if c == '$' || c == '%' {
            if peek_ahead(chars, pos, 1) == c && peek_ahead(chars, pos, 2) == '{' {
                acc.push(c);
                pos = pos + 2;
            } else if peek_ahead(chars, pos, 1) == '{' {
                return Ok((acc, pos));
            } else {
                acc.push(c);
                pos = pos + 1;
            }
        } else {
            acc.push(c);
            pos = pos + 1;
        }
    }
}

/// Reads a quoted string without interpolation, from after its opening quote.
pub fn parse_string(chars: &Vec<char>, i: usize) -> (r: Result<(String, usize), Failure>)
    requires
        i <= chars.len(),
    ensures
        match r {
            Ok((t, j)) => is_ok(p_string(chars@, i as int), t@, j as int) && i < j <= chars.len(),
            Err(f) => is_err(p_string(chars@, i as int), f@),
        },
{
    match scan_literal(chars, i) {
        Err(f) => Err(f),
        Ok((t, j)) => {
            if chars[j] == '"' {
                let text = string_of(&t, 0, t.len());
                assert(t@.subrange(0, t.len() as int) =~= t@);
                Ok((text, j + 1))
            } else {
                Err(fail_one(j, Category::BlockLabel, Expected::Char('"')))
            }
        },
    }
}

/// Tests whether `t` occurs in `chars` at `i`.
pub fn occurs_at(chars: &Vec<char>, i: usize, t: &Vec<char>) -> (r: bool)
    requires
        i <= chars.len(),
    ensures
        r == has_at(chars@, i as int, t@),
{
    if t.len() > chars.len() - i {
        return false;
    }
    let mut k: usize = 0;
    while k < t.len()
        invariant
            k <= t.len(),
            i + t.len() <= chars.len(),
            forall|n: int| 0 <= n < k ==> chars@[i + n] == #[trigger] t@[n],
        decreases t.len() - k,
    {
        if chars[i + k] != t[k] {
            assert(t@[k as int] != chars@[i + k]);
            return false;
        }
        k += 1;
    }
    true
}

/// Reads the lines of a heredoc from the start of a line on, up to the line
/// that closes it.
pub fn parse_lines(chars: &Vec<char>, i: usize, delimiter: &Vec<char>) -> (r: Result<(Vec<String>, usize), Failure>)
    requires
        i <= chars.len(),
    ensures
        match r {
            Ok((lines, j)) => is_ok(
                p_lines(chars@, i as int, delimiter@, Seq::empty()),
                string_views(lines@),
                j as int,
            ) && i <= j <= chars.len(),
            Err(f) => is_err(p_lines(chars@, i as int, delimiter@, Seq::empty()), f@),
        },
{
    let mut acc: Vec<String> = Vec::new();
    let mut pos: usize = i;
    assert(string_views(acc@) =~= Seq::<Seq<char>>::empty());
    loop
        invariant
            i <= pos <= chars.len(),
            p_lines(chars@, pos as int, delimiter@, string_views(acc@)) == p_lines(
                chars@,
                i as int,
                delimiter@,
                Seq::empty(),
            ),
        decreases chars.len() - pos,
    {
        if pos >= chars.len() {
            return Err(fail_one(pos, Category::Heredoc, Expected::Identifier));
        }
        let b = scan(chars, pos, CharClass::Blank);
        if occurs_at(chars, b, delimiter) && !class_has(CharClass::Ident, peek_ahead(chars, b, delimiter.len())) {
            return Ok((acc, b + delimiter.len()));
        }
        let e = scan(chars, pos, CharClass::Line);
        if e >= chars.len() {
            return Err(fail_one(e, Category::Heredoc, Expected::Newline));
        }
        let line = string_of(chars, pos, e);
        proof {
            lemma_string_views_push(acc@, line);
        }
        acc.push(line);
        pos = e + 1;
    }
}

/// Reads a heredoc, from its first `<`.
pub fn parse_heredoc(chars: &Vec<char>, i: usize) -> (r: Result<(Expression, usize), Failure>)
    requires
        i < chars.len(),
    ensures
        match r {
            Ok((e, j)) => is_ok(p_heredoc(chars@, i as int), e@, j as int) && i < j <= chars.len(),
            Err(f) => is_err(p_heredoc(chars@, i as int), f@),
        },
{
    if peek_ahead(chars, i, 1) != '<' {
        return Err(fail_one(i + 1, Category::Heredoc, Expected::Char('<')));
    }
    let indented = peek_ahead(chars, i, 2) == '-';
    let n0: usize = if indented {
        i + 3
    } else {
        i + 2
    };
    if !ident_start(peek(chars, n0)) {
        return Err(fail_one(n0, Category::Heredoc, Expected::Identifier));
    }
    proof {
        lemma_ident_run(chars@, n0 as int);
    }
    let n1 = scan(chars, n0 + 1, CharClass::Ident);
    let n2 = scan(chars, n1, CharClass::Blank);
    if peek(chars, n2) != '\n' {
        return Err(fail_one(n2, Category::Heredoc, Expected::Newline));
    }
    let mut word: Vec<char> = Vec::new();
    let mut k: usize = n0;
    while k < n1
        invariant
            n0 <= k <= n1 <= chars.len(),
            word@ == chars@.subrange(n0 as int, k as int),
        decreases n1 - k,
    {
        word.push(chars[k]);
        assert(chars@.subrange(n0 as int, k as int).push(chars@[k as int]) =~= chars@.subrange(
            n0 as int,
            k as int + 1,
        ));
        k += 1;
    }
    match parse_lines(chars, n2 + 1, &word) {
        Err(f) => Err(f),
        Ok((lines, e)) => {
            let delimiter = Identifier::from_chars(chars, n0, n1);
            Ok((Expression::Heredoc(Heredoc { delimiter, indented, lines }), e))
        },
    }
}

} // verus!
