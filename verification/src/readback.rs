//! Reading back the parts of an expression that hold no expression: words,
//! numbers, strings and heredocs; and what is known of the first character of
//! an expression's text and of what may follow it.

use crate::diag::FailureView;
use crate::format::{escape, fmt_expr, fmt_heredoc, fmt_lines, quoted};
use crate::grammar::{op_at, p_lines, p_primary, p_string, skip_blank, skip_space};
use crate::model::{
    closes, is_ident, is_keyword, kw_false, kw_null, kw_true, level, valid_expr, valid_line, BinaryOperator,
    ExprModel, HeredocModel,
};
use crate::roundtrip::{
    follows, lemma_at, lemma_decimal_end, lemma_ident_end, lemma_scan_lit, lemma_skip_none,
    lemma_skip_space_char, lemma_split3, lemma_split5, starts_expr,
};
use crate::text::{
    at, decimal, has_at, in_class, is_digit, is_ident_char, is_ident_start, is_space, lemma_decimal,
    lemma_has_at_subrange, lemma_run_end, lemma_run_end_is, run_end, CharClass,
};
use vstd::prelude::*;

verus! {

/// The value `v`, read up to `j`.
pub open spec fn ok<T>(v: T, j: int) -> Result<(T, int), FailureView> {
    Ok((v, j))
}

/// The text of a valid expression is not empty and starts with a character
/// that starts an expression: with an operator only if the expression is a
/// unary operation or starts with one.
pub proof fn lemma_first(e: ExprModel, d: nat, wide: Option<Seq<char>>)
    requires
        valid_expr(e, d),
    ensures
        fmt_expr(e, wide).len() > 0,
        starts_expr(fmt_expr(e, wide)[0]),
        level(e) >= 8 ==> fmt_expr(e, wide)[0] != '-' && fmt_expr(e, wide)[0] != '!',
        level(e) == 9 ==> match e {
            ExprModel::Null | ExprModel::Bool(_) | ExprModel::Variable(_) | ExprModel::FuncCall(..) => is_ident_start(
                fmt_expr(e, wide)[0],
            ),
            ExprModel::Number(_) => is_digit(fmt_expr(e, wide)[0]),
            ExprModel::Str(_) | ExprModel::Template(_) => fmt_expr(e, wide)[0] == '"',
            ExprModel::Array(_) => fmt_expr(e, wide)[0] == '[',
            ExprModel::Object(_) => fmt_expr(e, wide)[0] == '{',
            ExprModel::Heredoc(_) => fmt_expr(e, wide)[0] == '<',
            ExprModel::Parenthesis(_) => fmt_expr(e, wide)[0] == '(',
            _ => true,
        },
    decreases e,
{
    match e {
        ExprModel::Number(n) => {
            lemma_decimal(n as nat);
        },
        ExprModel::Traversal(base, ops) => {
            lemma_first(*base, d, None);
        },
        ExprModel::Binary(l, op, r) => {
            lemma_first(*l, d, None);
        },
        ExprModel::Conditional(c, a, b) => {
            lemma_first(*c, d, None);
        },
        _ => {},
    }
}

/// What ends an expression at one level ends it at every level at which
/// fewer operators continue it.
pub proof fn lemma_follows_weaker(s: Seq<char>, j: int, m: int, m2: int)
    requires
        follows(s, j, m),
        m <= m2,
    ensures
        follows(s, j, m2),
{
}

/// What follows from the fact that an expression ends at `j`: no identifier
/// runs on, no call and no traversal step starts, and after blanks stands no
/// operator that binds as tightly as `m`, and no question mark if `m` is 0.
pub proof fn lemma_follows(s: Seq<char>, j: int, m: int)
    requires
        follows(s, j, m),
    ensures
        !is_ident_char(at(s, j)),
        at(s, j) != '(',
        at(s, j) != '[',
        at(s, j) != '"',
        at(s, j) == '.' ==> at(s, j + 1) == '.' && at(s, j + 2) == '.',
        match op_at(s, skip_blank(s, j)) {
            Some(op) => op.precedence() < m,
            None => true,
        },
        m == 0 ==> at(s, skip_blank(s, j)) != '?',
        at(s, j) == ' ' ==> skip_blank(s, j) == j + 1,
        at(s, j) != ' ' ==> skip_blank(s, j) == j,
        at(s, j) != ' ' && at(s, j) != '\n' ==> skip_space(s, j) == j,
{
    if at(s, j) == ' ' {
        lemma_skip_space_char(s, j);
    } else {
        lemma_skip_none(s, j, CharClass::Blank);
        if at(s, j) != '\n' {
            lemma_skip_none(s, j, CharClass::Space);
        }
    }
}

/// The operator whose symbol stands at `q` before a space is the one that
/// is read there.
pub proof fn lemma_op_at(s: Seq<char>, q: int, op: BinaryOperator)
    requires
        has_at(s, q, op.symbol()),
        at(s, q + op.symbol().len()) == ' ',
    ensures
        op_at(s, q) == Some(op),
        !is_space(at(s, q)),
        at(s, q) != '?',
        at(s, q) != '}',
        at(s, q) != ':',
{
    lemma_at(s, q, op.symbol(), 0);
    if op.symbol().len() > 1 {
        lemma_at(s, q, op.symbol(), 1);
    }
}

/// The keywords are identifiers, and differ from each other.
pub proof fn lemma_keywords()
    ensures
        is_ident(kw_null()),
        is_ident(kw_true()),
        is_ident(kw_false()),
        kw_true() != kw_null(),
        kw_false() != kw_null(),
        kw_false() != kw_true(),
{
    assert(kw_null().len() == 4 && kw_null()[0] == 'n' && kw_null()[1] == 'u' && kw_null()[2] == 'l' && kw_null()[3]
        == 'l');
    assert(kw_true().len() == 4 && kw_true()[0] == 't' && kw_true()[1] == 'r' && kw_true()[2] == 'u' && kw_true()[3]
        == 'e');
    assert(kw_false().len() == 5 && kw_false()[0] == 'f' && kw_false()[1] == 'a' && kw_false()[2] == 'l'
        && kw_false()[3] == 's' && kw_false()[4] == 'e');
}

/// A keyword or a variable is read back.
#[verifier::rlimit(40)]
pub proof fn lemma_word(s: Seq<char>, i: int, d: nat, e: ExprModel)
    requires
        e is Null || e is Bool || e is Variable,
        valid_expr(e, d),
        has_at(s, i, fmt_expr(e, None)),
        !is_ident_char(at(s, i + fmt_expr(e, None).len())),
        at(s, i + fmt_expr(e, None).len()) != '(',
    ensures
        p_primary(s, i, d) == ok(e, i + fmt_expr(e, None).len()),
{
    let n = fmt_expr(e, None);
    lemma_keywords();
    lemma_ident_end(s, i, n);
    let c = at(s, i);
    assert(is_ident_start(c));
    assert(c != '"' && c != '[' && c != '{' && c != '(' && c != '<' && !is_digit(c));
    let end = run_end(s, i + 1, CharClass::Ident);
    assert(end == i + n.len());
    assert(s.subrange(i, end) == n);
    match e {
        ExprModel::Null => {
            assert(n == kw_null());
        },
        ExprModel::Bool(b) => {
            if b {
                assert(n == kw_true());
            } else {
                assert(n == kw_false());
            }
        },
        ExprModel::Variable(v) => {
            assert(n == v);
            assert(!is_keyword(n));
        },
        _ => {},
    }
}

/// A number is read back.
pub proof fn lemma_number(s: Seq<char>, i: int, d: nat, v: u64)
    requires
        has_at(s, i, decimal(v as nat)),
        !is_ident_char(at(s, i + decimal(v as nat).len())),
    ensures
        p_primary(s, i, d) == ok(ExprModel::Number(v), i + decimal(v as nat).len()),
{
    lemma_decimal_end(s, i, v as nat);
}

/// A quoted string without interpolation is read back as a string.
pub proof fn lemma_string(s: Seq<char>, i: int, d: nat, t: Seq<char>)
    requires
        has_at(s, i, quoted(t)),
    ensures
        p_primary(s, i, d) == ok(ExprModel::Str(t), i + quoted(t).len()),
        p_string(s, i + 1) == ok(t, i + quoted(t).len()),
        quoted(t).len() == escape(t).len() + 2,
        at(s, i) == '"',
{
    lemma_split3(s, i, seq!['"'], escape(t), seq!['"']);
    let j = i + 1 + escape(t).len();
    lemma_at(s, i, seq!['"'], 0);
    lemma_at(s, j, seq!['"'], 0);
    lemma_scan_lit(s, i + 1, t, Seq::empty());
    assert(Seq::<char>::empty() + t =~= t);
    if t.len() == 0 {
        assert(t =~= Seq::<char>::empty());
    }
}

/// The lines of a heredoc are read back up to the delimiter that follows
/// them.
#[verifier::rlimit(40)]
pub proof fn lemma_lines(s: Seq<char>, i: int, delimiter: Seq<char>, lines: Seq<Seq<char>>, k: int)
    requires
        is_ident(delimiter),
        forall|n: int| 0 <= n < lines.len() ==> valid_line(#[trigger] lines[n], delimiter),
        0 <= k <= lines.len(),
        has_at(s, i, fmt_lines(lines, k) + delimiter),
        !is_ident_char(at(s, i + fmt_lines(lines, k).len() + delimiter.len())),
    ensures
        p_lines(s, i, delimiter, lines.take(k)) == ok(lines, i + fmt_lines(lines, k).len() + delimiter.len()),
    decreases lines.len() - k,
{
    let acc = lines.take(k);
    if k == lines.len() {
        assert(fmt_lines(lines, k) + delimiter =~= delimiter);
        assert(acc =~= lines);
        lemma_at(s, i, delimiter, 0);
        lemma_skip_none(s, i, CharClass::Blank);
    } else {
        let line = lines[k];
        let rest = fmt_lines(lines, k + 1);
        assert(fmt_lines(lines, k) + delimiter =~= line + seq!['\n'] + (rest + delimiter));
        lemma_split3(s, i, line, seq!['\n'], rest + delimiter);
        let e = i + line.len();
        lemma_at(s, e, seq!['\n'], 0);
        assert(valid_line(line, delimiter));
        // The blanks at the start of the line are those that the scanner skips.
        let kl = run_end(line, 0, CharClass::Blank);
        lemma_run_end(line, 0, CharClass::Blank);
        assert forall|n: int| i <= n < i + kl implies in_class(CharClass::Blank, #[trigger] s[n]) by {
            assert(s[i + (n - i)] == line[n - i]);
        }
        if kl < line.len() {
            assert(s[i + kl] == line[kl]);
        }
        lemma_run_end_is(s, i, i + kl, CharClass::Blank);
        let b = i + kl;
        assert(skip_blank(s, i) == b);
        if has_at(s, b, delimiter) && !is_ident_char(at(s, b + delimiter.len())) {
            if b + delimiter.len() > e {
                assert(s[b + (e - b)] == delimiter[e - b]);
                assert(is_ident_char(delimiter[e - b]));
                assert(false);
            }
            assert forall|n: int| 0 <= n < delimiter.len() implies line[kl + n] == #[trigger] delimiter[n] by {
                assert(s[b + n] == delimiter[n]);
                assert(s[i + (kl + n)] == line[kl + n]);
            }
            assert(has_at(line, kl, delimiter));
            if kl + delimiter.len() < line.len() {
                assert(s[i + (kl + delimiter.len())] == line[kl + delimiter.len()]);
            }
            assert(closes(line, delimiter));
            assert(false);
        }
        // The line runs up to its line break.
        assert forall|n: int| i <= n < e implies in_class(CharClass::Line, #[trigger] s[n]) by {
            assert(s[i + (n - i)] == line[n - i]);
        }
        lemma_run_end_is(s, i, e, CharClass::Line);
        lemma_has_at_subrange(s, i, line);
        assert(acc.push(line) =~= lines.take(k + 1));
        lemma_lines(s, e + 1, delimiter, lines, k + 1);
    }
}

/// A heredoc is read back.
#[verifier::rlimit(40)]
pub proof fn lemma_heredoc(s: Seq<char>, i: int, d: nat, h: HeredocModel)
    requires
        valid_expr(ExprModel::Heredoc(h), d),
        has_at(s, i, fmt_heredoc(h)),
        !is_ident_char(at(s, i + fmt_heredoc(h).len())),
    ensures
        p_primary(s, i, d) == ok(ExprModel::Heredoc(h), i + fmt_heredoc(h).len()),
{
    let mark: Seq<char> = if h.indented {
        seq!['-']
    } else {
        Seq::empty()
    };
    let body = fmt_lines(h.lines, 0) + h.delimiter;
    assert(fmt_heredoc(h) =~= seq!['<', '<'] + mark + h.delimiter + seq!['\n'] + body);
    lemma_split5(s, i, seq!['<', '<'], mark, h.delimiter, seq!['\n'], body);
    lemma_at(s, i, seq!['<', '<'], 0);
    lemma_at(s, i, seq!['<', '<'], 1);
    let n0 = i + 2 + mark.len();
    lemma_at(s, n0, h.delimiter, 0);
    if h.indented {
        lemma_at(s, i + 2, mark, 0);
    }
    let n1 = n0 + h.delimiter.len();
    lemma_at(s, n1, seq!['\n'], 0);
    lemma_ident_end(s, n0, h.delimiter);
    lemma_skip_none(s, n1, CharClass::Blank);
    assert(h.lines.take(0) =~= Seq::<Seq<char>>::empty());
    lemma_lines(s, n1 + 1, h.delimiter, h.lines, 0);
}

} // verus!
