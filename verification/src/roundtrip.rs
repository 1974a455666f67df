//! Why the parser reads back what the formatter writes: the lemmas that
//! lead from the text of a valid tree to the tree.

use crate::format::{escape, escape_char, escape_first, escape_lit, hex_char, hex_escape};
use crate::grammar::{advances, hex_value, is_hex, is_scalar, op_at, scan_lit, skip_blank, skip_space, unescape};
use crate::model::is_ident;
use crate::text::{
    at, decimal, decimal_value, has_at, in_class, is_blank, is_digit, is_ident_char, is_ident_start, is_space,
    lemma_decimal, lemma_has_at_concat, lemma_has_at_subrange, lemma_run_end_is, run_end, CharClass,
};
use vstd::prelude::*;

verus! {

/// Every character of `p` is a blank.
pub open spec fn all_blank(p: Seq<char>) -> bool {
    forall|k: int| 0 <= k < p.len() ==> is_blank(#[trigger] p[k])
}

/// A character that ends every expression.
pub open spec fn terminator(c: char) -> bool {
    c == '\0' || c == '\n' || c == ',' || c == ')' || c == ']' || c == '}'
}

/// What stands at `j` ends an expression that is read at a level at which
/// binary operators of precedence `m` and above continue it, and at which,
/// for `m == 0`, a question mark does: a terminator, an ellipsis, or a space
/// before a closing brace, an equals sign, a colon, a question mark if `m` is
/// not 0, or an operator that binds less tightly than `m`.
pub open spec fn follows(s: Seq<char>, j: int, m: int) -> bool {
    let c = at(s, j);
    let n = at(s, j + 1);
    ||| terminator(c)
    ||| (c == '.' && n == '.' && at(s, j + 2) == '.')
    ||| (c == ' ' && (n == '}' || (n == '=' && at(s, j + 2) == ' ') || n == ':' || (m >= 1 && n == '?') || (match op_at(
        s,
        j + 1,
    ) {
        Some(op) => op.precedence() < m,
        None => false,
    })))
}

/// A character with which an expression may start.
pub open spec fn starts_expr(c: char) -> bool {
    c == '"' || c == '[' || c == '{' || c == '(' || c == '<' || c == '-' || c == '!' || is_digit(c)
        || is_ident_start(c)
}

/// The character at an offset into an occurrence.
pub proof fn lemma_at(s: Seq<char>, i: int, t: Seq<char>, k: int)
    requires
        has_at(s, i, t),
        0 <= k < t.len(),
    ensures
        at(s, i + k) == t[k],
        0 <= i + k < s.len(),
{
}

/// An occurrence of three texts in a row.
pub proof fn lemma_split3(s: Seq<char>, i: int, a: Seq<char>, b: Seq<char>, c: Seq<char>)
    requires
        has_at(s, i, a + b + c),
    ensures
        has_at(s, i, a),
        has_at(s, i + a.len(), b),
        has_at(s, i + a.len() + b.len(), c),
        (a + b + c).len() == a.len() + b.len() + c.len(),
{
    lemma_has_at_concat(s, i, a + b, c);
    lemma_has_at_concat(s, i, a, b);
}

/// An occurrence of four texts in a row.
pub proof fn lemma_split4(s: Seq<char>, i: int, a: Seq<char>, b: Seq<char>, c: Seq<char>, d: Seq<char>)
    requires
        has_at(s, i, a + b + c + d),
    ensures
        has_at(s, i, a),
        has_at(s, i + a.len(), b),
        has_at(s, i + a.len() + b.len(), c),
        has_at(s, i + a.len() + b.len() + c.len(), d),
        (a + b + c + d).len() == a.len() + b.len() + c.len() + d.len(),
{
    lemma_has_at_concat(s, i, a + b + c, d);
    lemma_split3(s, i, a, b, c);
}

/// An occurrence of five texts in a row.
pub proof fn lemma_split5(
    s: Seq<char>,
    i: int,
    a: Seq<char>,
    b: Seq<char>,
    c: Seq<char>,
    d: Seq<char>,
    e: Seq<char>,
)
    requires
        has_at(s, i, a + b + c + d + e),
    ensures
        has_at(s, i, a),
        has_at(s, i + a.len(), b),
        has_at(s, i + a.len() + b.len(), c),
        has_at(s, i + a.len() + b.len() + c.len(), d),
        has_at(s, i + a.len() + b.len() + c.len() + d.len(), e),
        (a + b + c + d + e).len() == a.len() + b.len() + c.len() + d.len() + e.len(),
{
    lemma_has_at_concat(s, i, a + b + c + d, e);
    lemma_split4(s, i, a, b, c, d);
}

/// No run of a class starts at a character outside of it.
pub proof fn lemma_skip_none(s: Seq<char>, i: int, k: CharClass)
    requires
        !in_class(k, at(s, i)) || i >= s.len() || i < 0,
    ensures
        run_end(s, i, k) == i,
{
}

/// The run of a class over an occurrence of characters of the class ends
/// behind it, where a character outside of the class follows.
pub proof fn lemma_skip_over(s: Seq<char>, i: int, p: Seq<char>, k: CharClass)
    requires
        has_at(s, i, p),
        forall|n: int| 0 <= n < p.len() ==> in_class(k, #[trigger] p[n]),
        !in_class(k, at(s, i + p.len())) || i + p.len() >= s.len(),
    ensures
        run_end(s, i, k) == i + p.len(),
{
    assert forall|n: int| i <= n < i + p.len() implies in_class(k, #[trigger] s[n]) by {
        assert(s[i + (n - i)] == p[n - i]);
    }
    lemma_run_end_is(s, i, i + p.len(), k);
}

/// One space before a character that is no blank is all that is skipped.
pub proof fn lemma_skip_space_char(s: Seq<char>, i: int)
    requires
        at(s, i) == ' ',
        !is_space(at(s, i + 1)),
    ensures
        skip_blank(s, i) == i + 1,
        skip_space(s, i) == i + 1,
{
    assert(0 <= i < s.len());
    lemma_run_end_is(s, i, i + 1, CharClass::Blank);
    lemma_run_end_is(s, i, i + 1, CharClass::Space);
}

/// The identifier characters from `i` on are those of the identifier that
/// occurs there, where no identifier character follows it.
pub proof fn lemma_ident_end(s: Seq<char>, i: int, n: Seq<char>)
    requires
        has_at(s, i, n),
        is_ident(n),
        !is_ident_char(at(s, i + n.len())),
    ensures
        is_ident_start(at(s, i)),
        run_end(s, i + 1, CharClass::Ident) == i + n.len(),
        s.subrange(i, i + n.len()) == n,
        0 <= i < s.len(),
{
    lemma_at(s, i, n, 0);
    assert forall|k: int| i + 1 <= k < i + n.len() implies in_class(CharClass::Ident, #[trigger] s[k]) by {
        assert(s[i + (k - i)] == n[k - i]);
    }
    lemma_run_end_is(s, i + 1, i + n.len(), CharClass::Ident);
    lemma_has_at_subrange(s, i, n);
}

/// The digits from `i` on are those of the numeral that occurs there, where
/// no digit follows it.
pub proof fn lemma_decimal_end(s: Seq<char>, i: int, v: nat)
    requires
        has_at(s, i, decimal(v)),
        !is_digit(at(s, i + decimal(v).len())),
    ensures
        is_digit(at(s, i)),
        run_end(s, i + 1, CharClass::Digit) == i + decimal(v).len(),
        decimal_value(s.subrange(i, i + decimal(v).len())) == v,
        0 <= i < s.len(),
{
    let t = decimal(v);
    lemma_decimal(v);
    lemma_at(s, i, t, 0);
    assert forall|k: int| i + 1 <= k < i + t.len() implies in_class(CharClass::Digit, #[trigger] s[k]) by {
        assert(s[i + (k - i)] == t[k - i]);
    }
    lemma_run_end_is(s, i + 1, i + t.len(), CharClass::Digit);
    lemma_has_at_subrange(s, i, t);
}

/// What may stand behind the literal text `t` of a quoted string at `j`
/// without changing how `t` is read: the closing quote, a backslash, or an
/// interpolation, before which `t` does not end in a dollar sign.
pub open spec fn lit_stop(s: Seq<char>, j: int, t: Seq<char>) -> bool {
    at(s, j) == '"' || at(s, j) == '\\' || (at(s, j) == '$' && at(s, j + 1) == '{' && (t.len() > 0 ==> t.last()
        != '$'))
}

/// The first character of escaped text.
pub proof fn lemma_escape_first(t: Seq<char>)
    requires
        t.len() > 0,
    ensures
        escape(t).len() >= escape_first(t).len() >= 1,
        escape(t)[0] == escape_first(t)[0],
        escape_first(t)[0] == '\\' || escape_first(t)[0] == t[0],
        escape_first(t)[0] == '\\' ==> t[0] != '$' && t[0] != '%' && t[0] != '{',
        escape(t) == escape_first(t) + escape(t.drop_first()),
{
}

/// Reading a character that is written by its code gives the character
/// back.
pub proof fn lemma_unescape_hex(s: Seq<char>, i: int, c: char)
    requires
        has_at(s, i, hex_escape(c)),
        (c as int) < 128,
    ensures
        at(s, i) == '\\',
        unescape(s, i + 1) == Ok::<(char, int), crate::diag::FailureView>((c, i + 6)),
        advances(s, i, i + 6),
{
    let e = hex_escape(c);
    lemma_at(s, i, e, 0);
    lemma_at(s, i, e, 1);
    lemma_at(s, i, e, 2);
    lemma_at(s, i, e, 3);
    lemma_at(s, i, e, 4);
    lemma_at(s, i, e, 5);
    let v = c as int;
    assert(0 <= v < 128);
    let h = v / 16;
    let l = v % 16;
    assert(is_hex(hex_char(h)) && hex_value(hex_char(h)) == h);
    assert(is_hex(hex_char(l)) && hex_value(hex_char(l)) == l);
    assert(is_hex('0') && hex_value('0') == 0);
    assert(((0 * 16 + 0) * 16 + h) * 16 + l == v);
    assert(is_scalar(v));
    assert(v as char == c);
}

/// Reading an escape sequence that the formatter wrote gives the character
/// back.
pub proof fn lemma_unescape(s: Seq<char>, i: int, c: char)
    requires
        has_at(s, i, escape_char(c)),
        escape_char(c).len() > 1,
    ensures
        at(s, i) == '\\',
        unescape(s, i + 1) == Ok::<(char, int), crate::diag::FailureView>((c, i + escape_char(c).len())),
{
    let e = escape_char(c);
    lemma_at(s, i, e, 0);
    lemma_at(s, i, e, 1);
    if e.len() > 2 {
        lemma_unescape_hex(s, i, c);
    }
}

/// The scanner reads escaped text: from an occurrence of the escaped form of
/// `t` it gets, with `t` collected, to what stands behind it.
#[verifier::rlimit(40)]
pub proof fn lemma_scan_run(s: Seq<char>, i: int, t: Seq<char>, acc: Seq<char>)
    requires
        has_at(s, i, escape(t)),
        lit_stop(s, i + escape(t).len(), t),
    ensures
        scan_lit(s, i, acc) == scan_lit(s, i + escape(t).len(), acc + t),
    decreases t.len(),
{
    let j = i + escape(t).len();
    if t.len() == 0 {
        assert(acc + t =~= acc);
    } else {
        let c = t[0];
        let rest = t.drop_first();
        let ef = escape_first(t);
        lemma_escape_first(t);
        lemma_has_at_concat(s, i, ef, escape(rest));
        lemma_at(s, i, ef, 0);
        if rest.len() > 0 {
            assert(rest.last() == t.last());
            lemma_escape_first(rest);
            lemma_at(s, i + ef.len(), escape(rest), 0);
        }
        assert(lit_stop(s, j, rest));
        lemma_scan_run(s, i + ef.len(), rest, acc.push(c));
        assert(acc.push(c) + rest =~= acc + t);
        if (c == '$' || c == '%') && t.len() > 1 && t[1] == '{' {
            lemma_at(s, i, ef, 1);
            assert(rest[0] == '{');
            assert(escape_first(rest) == seq!['{']);
            assert(at(s, i + 2) == '{');
        } else if escape_char(c).len() > 1 {
            lemma_unescape(s, i, c);
            assert(advances(s, i, i + ef.len())) by {
                lemma_at(s, i, ef, ef.len() - 1);
            }
        } else {
            assert(ef == seq![c]);
            assert(at(s, i) == c);
            assert(c != '"' && c != '\\' && c != '\n');
            if c == '$' || c == '%' {
                // Neither an interpolation nor a doubling may be seen here.
                if rest.len() == 0 {
                    assert(at(s, i + 1) == at(s, j));
                    assert(t.last() == c);
                } else {
                    let r0 = rest[0];
                    assert(r0 != '{');
                    assert(at(s, i + 1) == escape_first(rest)[0]);
                    if at(s, i + 1) == c {
                        assert(r0 == c);
                        let rest2 = rest.drop_first();
                        if rest.len() > 1 && rest[1] == '{' {
                            lemma_at(s, i + 1, escape(rest), 1);
                            assert(escape_first(rest) == seq![c, c]);
                            assert(escape(rest)[1] == c);
                        } else {
                            assert(escape_first(rest) == seq![c]);
                            lemma_has_at_concat(s, i + 1, escape_first(rest), escape(rest2));
                            if rest2.len() == 0 {
                                assert(at(s, i + 2) == at(s, j));
                                assert(t.last() == c);
                            } else {
                                lemma_escape_first(rest2);
                                lemma_at(s, i + 2, escape(rest2), 0);
                                assert(rest2[0] == rest[1]);
                            }
                        }
                    }
                }
            }
        }
    }
}

/// The scanner reads escaped text back: from an occurrence of the escaped
/// form of `t` that is followed by the closing quote, or by an interpolation
/// and does not end in a dollar sign, it collects `t`.
pub proof fn lemma_scan_lit(s: Seq<char>, i: int, t: Seq<char>, acc: Seq<char>)
    requires
        has_at(s, i, escape(t)),
        lit_stop(s, i + escape(t).len(), t),
        at(s, i + escape(t).len()) != '\\',
    ensures
        scan_lit(s, i, acc) == Ok::<(Seq<char>, int), crate::diag::FailureView>((acc + t, i + escape(t).len())),
{
    lemma_scan_run(s, i, t, acc);
}

/// The scanner reads the literal text of a template back, as the formatter
/// writes it before the closing quote or before an interpolation.
pub proof fn lemma_scan_part(s: Seq<char>, i: int, t: Seq<char>, before_interpolation: bool, acc: Seq<char>)
    requires
        has_at(s, i, escape_lit(t, before_interpolation)),
        if before_interpolation {
            at(s, i + escape_lit(t, before_interpolation).len()) == '$' && at(
                s,
                i + escape_lit(t, before_interpolation).len() + 1,
            ) == '{'
        } else {
            at(s, i + escape_lit(t, before_interpolation).len()) == '"'
        },
    ensures
        scan_lit(s, i, acc) == Ok::<(Seq<char>, int), crate::diag::FailureView>(
            (acc + t, i + escape_lit(t, before_interpolation).len()),
        ),
{
    if before_interpolation && t.len() > 0 && t.last() == '$' {
        let head = t.drop_last();
        let code = hex_escape('$');
        lemma_has_at_concat(s, i, escape(head), code);
        let j1 = i + escape(head).len();
        lemma_at(s, j1, code, 0);
        lemma_scan_run(s, i, head, acc);
        lemma_unescape_hex(s, j1, '$');
        assert((acc + head).push('$') =~= acc + t);
        assert(scan_lit(s, j1, acc + head) == scan_lit(s, j1 + 6, (acc + head).push('$')));
    } else {
        lemma_scan_lit(s, i, t, acc);
    }
}

} // verus!
