//! The grammar, as functions from a text and a position to what stands
//! there: a value and the position after it, or the failure that is
//! reported. These functions say what the parser returns.

use crate::diag::{failure, merge, none_of, too_deep, Category, Expected, FailureView};
use crate::model::{
    kw_false, kw_null, kw_true, BinaryOperator, ExprModel, HeredocModel, ItemModel, KeyModel, LabelModel,
    MAX_DEPTH, OpModel, PartModel, StructureModel, UnaryOperator,
};
use crate::text::{at, decimal_value, has_at, is_digit, is_ident_char, is_ident_start, run_end, CharClass};
use vstd::prelude::*;

verus! {

/// What stands at a position: a value and the position after it, or the
/// failure that is reported.
pub type Parsed<T> = Result<(T, int), FailureView>;

/// The position after the blanks at `i`.
pub open spec fn skip_blank(s: Seq<char>, i: int) -> int {
    run_end(s, i, CharClass::Blank)
}

/// The position after the blanks and line breaks at `i`.
pub open spec fn skip_space(s: Seq<char>, i: int) -> int {
    run_end(s, i, CharClass::Space)
}

/// A production that goes on at `next` after it started at `i` has consumed
/// input. The productions that repeat test this before they go on, which makes
/// their recursion well-founded; the test never fails.
pub open spec fn advances(s: Seq<char>, i: int, next: int) -> bool {
    i < next <= s.len()
}

/// What is reported should a production go on without having consumed input.
pub open spec fn stuck(i: int) -> FailureView {
    failure(i, Category::Nesting, Seq::empty())
}

/// `c` is a hexadecimal digit.
pub open spec fn is_hex(c: char) -> bool {
    is_digit(c) || ('a' <= c && c <= 'f') || ('A' <= c && c <= 'F')
}

/// The value of the hexadecimal digit `c`.
pub open spec fn hex_value(c: char) -> int {
    if is_digit(c) {
        c as int - 48
    } else if 'a' <= c && c <= 'f' {
        c as int - 87
    } else {
        c as int - 55
    }
}

/// `v` is the code of a character.
pub open spec fn is_scalar(v: int) -> bool {
    0 <= v < 0xD800 || 0xE000 <= v <= 0x10FFFF
}

/// What may follow a backslash.
pub open spec fn escapes() -> Seq<Expected> {
    seq![
        Expected::Char('n'),
        Expected::Char('r'),
        Expected::Char('t'),
        Expected::Char('"'),
        Expected::Char('\\'),
        Expected::Char('u'),
    ]
}

/// The character that the escape sequence after the backslash before `k`
/// stands for: `n`, `r`, `t`, `"`, `\`, or `u` and four hexadecimal digits
/// that give the code of a character.
pub open spec fn unescape(s: Seq<char>, k: int) -> Parsed<char> {
    let c = at(s, k);
    if c == 'n' {
        Ok(('\n', k + 1))
    } else if c == 'r' {
        Ok(('\r', k + 1))
    } else if c == 't' {
        Ok(('\t', k + 1))
    } else if c == '"' {
        Ok(('"', k + 1))
    } else if c == '\\' {
        Ok(('\\', k + 1))
    } else if c == 'u' {
        if !is_hex(at(s, k + 1)) {
            Err(failure(k + 1, Category::Escape, seq![Expected::HexDigit]))
        } else if !is_hex(at(s, k + 2)) {
            Err(failure(k + 2, Category::Escape, seq![Expected::HexDigit]))
        } else if !is_hex(at(s, k + 3)) {
            Err(failure(k + 3, Category::Escape, seq![Expected::HexDigit]))
        } else if !is_hex(at(s, k + 4)) {
            Err(failure(k + 4, Category::Escape, seq![Expected::HexDigit]))
        } else {
            let v = ((hex_value(at(s, k + 1)) * 16 + hex_value(at(s, k + 2))) * 16 + hex_value(at(s, k + 3))) * 16
                + hex_value(at(s, k + 4));
            if is_scalar(v) {
                Ok((v as char, k + 5))
            } else {
                Err(failure(k + 1, Category::Escape, Seq::empty()))
            }
        }
    } else {
        Err(none_of(k, Category::Escape, escapes()))
    }
}

/// The literal text of a quoted string from `i` on, appended to `acc`, and
/// the position at which it ends: at the closing quote, or at `${` or `%{`.
/// `$${` and `%%{` stand for `${` and `%{`. A line break or the end of the
/// input fails.
pub open spec fn scan_lit(s: Seq<char>, i: int, acc: Seq<char>) -> Parsed<Seq<char>>
    decreases s.len() - i,
{
    if i < 0 || i >= s.len() {
        Err(failure(i, Category::StringLiteral, seq![Expected::Char('"')]))
    } else {
        let c = s[i];
        if c == '"' {
            Ok((acc, i))
        } else if c == '\n' {
            Err(failure(i, Category::StringLiteral, seq![Expected::Char('"')]))
        } else if c == '\\' {
            match unescape(s, i + 1) {
                Err(f) => Err(f),
                Ok((ch, next)) => if advances(s, i, next) {
                    scan_lit(s, next, acc.push(ch))
                } else {
                    Err(stuck(next))
                },
            }
        } else if c == '$' || c == '%' {
            if at(s, i + 1) == c && at(s, i + 2) == '{' {
                scan_lit(s, i + 2, acc.push(c))
            } else if at(s, i + 1) == '{' {
                Ok((acc, i))
            } else {
                scan_lit(s, i + 1, acc.push(c))
            }
        } else {
            scan_lit(s, i + 1, acc.push(c))
        }
    }
}

/// A quoted string without interpolation, from after its opening quote.
pub open spec fn p_string(s: Seq<char>, i: int) -> Parsed<Seq<char>> {
    match scan_lit(s, i, Seq::empty()) {
        Err(f) => Err(f),
        Ok((t, j)) => if at(s, j) == '"' {
            Ok((t, j + 1))
        } else {
            Err(failure(j, Category::BlockLabel, seq![Expected::Char('"')]))
        },
    }
}

/// The lines of a heredoc from the start of a line on, appended to `acc`, up
/// to the line that closes it: the one that after leading blanks starts with
/// the delimiter, with no identifier character behind it. The position
/// returned is the one after the delimiter.
pub open spec fn p_lines(s: Seq<char>, i: int, delimiter: Seq<char>, acc: Seq<Seq<char>>) -> Parsed<Seq<Seq<char>>>
    decreases s.len() - i,
{
    if i < 0 || i >= s.len() {
        Err(failure(i, Category::Heredoc, seq![Expected::Identifier]))
    } else {
        let b = skip_blank(s, i);
        if has_at(s, b, delimiter) && !is_ident_char(at(s, b + delimiter.len())) {
            Ok((acc, b + delimiter.len()))
        } else {
            let e = run_end(s, i, CharClass::Line);
            if advances(s, i, e + 1) {
                p_lines(s, e + 1, delimiter, acc.push(s.subrange(i, e)))
            } else {
                Err(failure(e, Category::Heredoc, seq![Expected::Newline]))
            }
        }
    }
}

/// A heredoc, from its first `<`.
pub open spec fn p_heredoc(s: Seq<char>, i: int) -> Parsed<ExprModel> {
    if at(s, i + 1) != '<' {
        Err(failure(i + 1, Category::Heredoc, seq![Expected::Char('<')]))
    } else {
        let indented = at(s, i + 2) == '-';
        let n0 = if indented {
            i + 3
        } else {
            i + 2
        };
        if !is_ident_start(at(s, n0)) {
            Err(failure(n0, Category::Heredoc, seq![Expected::Identifier]))
        } else {
            let n1 = run_end(s, n0 + 1, CharClass::Ident);
            let n2 = skip_blank(s, n1);
            if at(s, n2) != '\n' {
                Err(failure(n2, Category::Heredoc, seq![Expected::Newline]))
            } else {
                let delimiter = s.subrange(n0, n1);
                match p_lines(s, n2 + 1, delimiter, Seq::empty()) {
                    Err(f) => Err(f),
                    Ok((lines, e)) => Ok((ExprModel::Heredoc(HeredocModel { delimiter, indented, lines }), e)),
                }
            }
        }
    }
}

/// The binary operator at `q`, if one stands there.
pub open spec fn op_at(s: Seq<char>, q: int) -> Option<BinaryOperator> {
    let c = at(s, q);
    let n = at(s, q + 1);
    if c == '|' && n == '|' {
        Some(BinaryOperator::Or)
    } else if c == '&' && n == '&' {
        Some(BinaryOperator::And)
    } else if c == '=' && n == '=' {
        Some(BinaryOperator::Eq)
    } else if c == '!' && n == '=' {
        Some(BinaryOperator::NotEq)
    } else if c == '<' && n == '=' {
        Some(BinaryOperator::LessEq)
    } else if c == '>' && n == '=' {
        Some(BinaryOperator::GreaterEq)
    } else if c == '<' {
        Some(BinaryOperator::Less)
    } else if c == '>' {
        Some(BinaryOperator::Greater)
    } else if c == '+' {
        Some(BinaryOperator::Plus)
    } else if c == '-' {
        Some(BinaryOperator::Minus)
    } else if c == '*' {
        Some(BinaryOperator::Mul)
    } else if c == '/' {
        Some(BinaryOperator::Div)
    } else if c == '%' {
        Some(BinaryOperator::Mod)
    } else {
        None
    }
}

/// What may start an expression.
pub open spec fn expression_starts() -> Seq<Expected> {
    seq![
        Expected::Char('"'),
        Expected::Char('['),
        Expected::Char('{'),
        Expected::Char('-'),
        Expected::Char('!'),
        Expected::Char('('),
        Expected::Char('_'),
        Expected::Letter,
        Expected::Char('<'),
        Expected::Digit,
    ]
}

/// What may follow a block's identifier.
pub open spec fn structure_options() -> Seq<Expected> {
    seq![Expected::Char('{'), Expected::Char('='), Expected::Char('"'), Expected::Identifier]
}

/// What may follow a block's label.
pub open spec fn block_options() -> Seq<Expected> {
    seq![Expected::Char('{'), Expected::Char('"'), Expected::Identifier]
}

/// What may stand where a structure of a block's body is looked for.
pub open spec fn body_options() -> Seq<Expected> {
    seq![Expected::Char('}'), Expected::Newline, Expected::Identifier]
}

/// What may stand where a structure of the document is looked for.
pub open spec fn document_options() -> Seq<Expected> {
    seq![Expected::Newline, Expected::Identifier]
}

/// What may follow the value of an object item.
pub open spec fn item_options() -> Seq<Expected> {
    seq![Expected::Char('}'), Expected::Char(','), Expected::Newline]
}

/// What may follow a dot.
pub open spec fn traversal_options() -> Seq<Expected> {
    seq![Expected::Char('*'), Expected::Identifier, Expected::UnsignedInteger]
}

/// What may follow an element of an array.
pub open spec fn array_options() -> Seq<Expected> {
    seq![Expected::Char(','), Expected::Char(']')]
}

/// What may follow an argument of a function call.
pub open spec fn argument_options() -> Seq<Expected> {
    seq![Expected::Char(','), Expected::Char(')'), Expected::Ellipsis]
}

/// The key that an expression in key position is: a bare identifier where it
/// is a lone variable, itself otherwise.
pub open spec fn key_of(e: ExprModel) -> KeyModel {
    match e {
        ExprModel::Variable(n) => KeyModel::Identifier(n),
        _ => KeyModel::Expression(e),
    }
}

/// The expression that the fragments of a quoted string make: a string where
/// nothing is interpolated, a template otherwise.
pub open spec fn finish(parts: Seq<PartModel>) -> ExprModel {
    if parts.len() == 0 {
        ExprModel::Str(Seq::empty())
    } else if parts.len() == 1 && parts[0] is Literal {
        ExprModel::Str(parts[0]->Literal_0)
    } else {
        ExprModel::Template(parts)
    }
}

/// The order of the productions of one nesting level among each other.
pub open spec fn rank_binary(m: int) -> int {
    if m < 1 {
        34
    } else if m > 7 {
        22
    } else {
        36 - 2 * m
    }
}

/// An expression: a binary-level expression, on which a conditional may
/// follow.
pub open spec fn p_expr(s: Seq<char>, i: int, d: nat) -> Parsed<ExprModel>
    decreases d, 40int, s.len() - i,
{
    match p_binary(s, i, d, 1) {
        Err(f) => Err(f),
        Ok((c, j)) => {
            let q = skip_blank(s, j);
            if at(s, q) == '?' {
                if d == 0 {
                    Err(too_deep(q))
                } else {
                    match p_expr(s, skip_blank(s, q + 1), (d - 1) as nat) {
                        Err(f) => Err(f),
                        Ok((a, ja)) => {
                            let c2 = skip_blank(s, ja);
                            if at(s, c2) != ':' {
                                Err(failure(c2, Category::Conditional, seq![Expected::Char(':')]))
                            } else {
                                match p_expr(s, skip_blank(s, c2 + 1), (d - 1) as nat) {
                                    Err(f) => Err(f),
                                    Ok((b, jb)) => Ok(
                                        (ExprModel::Conditional(Box::new(c), Box::new(a), Box::new(b)), jb),
                                    ),
                                }
                            }
                        },
                    }
                }
            } else {
                Ok((c, j))
            }
        },
    }
}

/// A chain of binary operations whose operators bind at least as tightly as
/// `m`.
pub open spec fn p_binary(s: Seq<char>, i: int, d: nat, m: int) -> Parsed<ExprModel>
    decreases d, rank_binary(m), s.len() - i,
{
    match p_unary(s, i, d) {
        Err(f) => Err(f),
        Ok((u, j)) => p_binary_loop(s, j, d, m, u),
    }
}

/// What a chain of binary operations becomes once `lhs` has been read up to
/// `j`: `lhs` itself unless an operator of precedence `m` or more follows;
/// else that operation, with all that binds tighter as its right operand,
/// takes the place of `lhs`.
pub open spec fn p_binary_loop(s: Seq<char>, j: int, d: nat, m: int, lhs: ExprModel) -> Parsed<ExprModel>
    decreases d, rank_binary(m) - 1, s.len() - j,
{
    let q = skip_blank(s, j);
    match op_at(s, q) {
        Some(op) => if op.precedence() >= m && 1 <= m {
            match p_binary(s, skip_blank(s, q + op.symbol().len()), d, op.precedence() + 1) {
                Err(f) => Err(f),
                Ok((rhs, e)) => if advances(s, j, e) {
                    p_binary_loop(s, e, d, m, ExprModel::Binary(Box::new(lhs), op, Box::new(rhs)))
                } else {
                    Err(stuck(e))
                },
            }
        } else {
            Ok((lhs, j))
        },
        None => Ok((lhs, j)),
    }
}

/// A unary operation, or what stands where its operand would.
pub open spec fn p_unary(s: Seq<char>, i: int, d: nat) -> Parsed<ExprModel>
    decreases d, 10int, s.len() - i,
{
    let c = at(s, i);
    if c == '-' || c == '!' {
        if d == 0 {
            Err(too_deep(i))
        } else {
            match p_unary(s, skip_blank(s, i + 1), (d - 1) as nat) {
                Err(f) => Err(f),
                Ok((x, e)) => Ok(
                    (
                        ExprModel::Unary(
                            if c == '-' {
                                UnaryOperator::Neg
                            } else {
                                UnaryOperator::Not
                            },
                            Box::new(x),
                        ),
                        e,
                    ),
                ),
            }
        }
    } else {
        p_postfix(s, i, d)
    }
}

/// A primary expression and the traversal steps that follow it.
pub open spec fn p_postfix(s: Seq<char>, i: int, d: nat) -> Parsed<ExprModel>
    decreases d, 9int, s.len() - i,
{
    match p_primary(s, i, d) {
        Err(f) => Err(f),
        Ok((base, j)) => match p_ops(s, j, d, Seq::empty()) {
            Err(f) => Err(f),
            Ok((ops, e)) => Ok(
                (
                    if ops.len() == 0 {
                        base
                    } else {
                        ExprModel::Traversal(Box::new(base), ops)
                    },
                    e,
                ),
            ),
        },
    }
}

/// The traversal steps from `j` on, appended to `acc`. A step starts with a
/// dot that is not the first of three, or with `[`. After `[`, a `*` makes a
/// splat and anything else an index; where neither is complete the failure
/// that got further is reported.
pub open spec fn p_ops(s: Seq<char>, j: int, d: nat, acc: Seq<OpModel>) -> Parsed<Seq<OpModel>>
    decreases d, 7int, s.len() - j,
{
    let c = at(s, j);
    if c == '.' && !(at(s, j + 1) == '.' && at(s, j + 2) == '.') {
        let c1 = at(s, j + 1);
        if c1 == '*' {
            if advances(s, j, j + 2) {
                p_ops(s, j + 2, d, acc.push(OpModel::AttrSplat))
            } else {
                Err(stuck(j))
            }
        } else if is_ident_start(c1) {
            let e = run_end(s, j + 2, CharClass::Ident);
            if advances(s, j, e) {
                p_ops(s, e, d, acc.push(OpModel::GetAttr(s.subrange(j + 1, e))))
            } else {
                Err(stuck(j))
            }
        } else if is_digit(c1) {
            let e = run_end(s, j + 2, CharClass::Digit);
            let v = decimal_value(s.subrange(j + 1, e));
            if v > u64::MAX {
                Err(failure(j + 1, Category::Number, Seq::empty()))
            } else if advances(s, j, e) {
                p_ops(s, e, d, acc.push(OpModel::LegacyIndex(v as u64)))
            } else {
                Err(stuck(j))
            }
        } else {
            Err(none_of(j + 1, Category::TraversalOperator, traversal_options()))
        }
    } else if c == '[' {
        let q = skip_space(s, j + 1);
        let splat: Parsed<()> = if at(s, q) == '*' {
            let q2 = skip_space(s, q + 1);
            if at(s, q2) == ']' {
                Ok(((), q2 + 1))
            } else {
                Err(failure(q2, Category::TraversalOperator, seq![Expected::Char(']')]))
            }
        } else {
            Err(failure(q, Category::TraversalOperator, seq![Expected::Char('*')]))
        };
        match splat {
            Ok((_, e)) => if advances(s, j, e) {
                p_ops(s, e, d, acc.push(OpModel::FullSplat))
            } else {
                Err(stuck(j))
            },
            Err(f1) => if d == 0 {
                Err(merge(f1, too_deep(q)))
            } else {
                match p_expr(s, q, (d - 1) as nat) {
                    Err(f2) => Err(merge(f1, f2)),
                    Ok((e, je)) => {
                        let q3 = skip_space(s, je);
                        if at(s, q3) != ']' {
                            Err(failure(q3, Category::TraversalOperator, seq![Expected::Char(']')]))
                        } else if advances(s, j, q3 + 1) {
                            p_ops(s, q3 + 1, d, acc.push(OpModel::Index(e)))
                        } else {
                            Err(stuck(j))
                        }
                    },
                }
            },
        }
    } else {
        Ok((acc, j))
    }
}

/// An expression that is complete in itself: a quoted string or template, an
/// array, an object, a parenthesis, a heredoc, a number, a function call, a
/// keyword or a variable.
pub open spec fn p_primary(s: Seq<char>, i: int, d: nat) -> Parsed<ExprModel>
    decreases d, 8int, s.len() - i,
{
    let c = at(s, i);
    if c == '"' {
        p_parts(s, i + 1, d, Seq::empty())
    } else if c == '[' {
        if d == 0 {
            Err(too_deep(i))
        } else {
            let q = skip_space(s, i + 1);
            if at(s, q) == ']' {
                Ok((ExprModel::Array(Seq::empty()), q + 1))
            } else {
                match p_elements(s, q, (d - 1) as nat, Seq::empty()) {
                    Err(f) => Err(f),
                    Ok((items, e)) => Ok((ExprModel::Array(items), e)),
                }
            }
        }
    } else if c == '{' {
        if d == 0 {
            Err(too_deep(i))
        } else {
            let q = skip_space(s, i + 1);
            if at(s, q) == '}' {
                Ok((ExprModel::Object(Seq::empty()), q + 1))
            } else {
                match p_object_items(s, q, (d - 1) as nat, Seq::empty()) {
                    Err(f) => Err(f),
                    Ok((items, e)) => Ok((ExprModel::Object(items), e)),
                }
            }
        }
    } else if c == '(' {
        if d == 0 {
            Err(too_deep(i))
        } else {
            match p_expr(s, skip_space(s, i + 1), (d - 1) as nat) {
                Err(f) => Err(f),
                Ok((x, e)) => {
                    let q = skip_space(s, e);
                    if at(s, q) == ')' {
                        Ok((ExprModel::Parenthesis(Box::new(x)), q + 1))
                    } else {
                        Err(failure(q, Category::Parenthesis, seq![Expected::Char(')')]))
                    }
                },
            }
        }
    } else if c == '<' {
        p_heredoc(s, i)
    } else if is_digit(c) {
        let e = run_end(s, i + 1, CharClass::Digit);
        let v = decimal_value(s.subrange(i, e));
        if v > u64::MAX {
            Err(failure(i, Category::Number, Seq::empty()))
        } else {
            Ok((ExprModel::Number(v as u64), e))
        }
    } else if is_ident_start(c) {
        let e = run_end(s, i + 1, CharClass::Ident);
        let name = s.subrange(i, e);
        if at(s, e) == '(' {
            if d == 0 {
                Err(too_deep(e))
            } else {
                let q = skip_space(s, e + 1);
                if at(s, q) == ')' {
                    Ok((ExprModel::FuncCall(name, Seq::empty(), false), q + 1))
                } else {
                    match p_arguments(s, q, (d - 1) as nat, Seq::empty()) {
                        Err(f) => Err(f),
                        Ok((r, e2)) => Ok((ExprModel::FuncCall(name, r.0, r.1), e2)),
                    }
                }
            }
        } else if name == kw_null() {
            Ok((ExprModel::Null, e))
        } else if name == kw_true() {
            Ok((ExprModel::Bool(true), e))
        } else if name == kw_false() {
            Ok((ExprModel::Bool(false), e))
        } else {
            Ok((ExprModel::Variable(name), e))
        }
    } else {
        Err(none_of(i, Category::Expression, expression_starts()))
    }
}

/// The fragments of a quoted string from `i` on, appended to `acc`, up to the
/// closing quote, and the expression they make.
pub open spec fn p_parts(s: Seq<char>, i: int, d: nat, acc: Seq<PartModel>) -> Parsed<ExprModel>
    decreases d, 5int, s.len() - i,
{
    match scan_lit(s, i, Seq::empty()) {
        Err(f) => Err(f),
        Ok((t, j)) => {
            let acc1 = if t.len() > 0 {
                acc.push(PartModel::Literal(t))
            } else {
                acc
            };
            if at(s, j) == '"' {
                Ok((finish(acc1), j + 1))
            } else if at(s, j) == '$' {
                if d == 0 {
                    Err(too_deep(j))
                } else {
                    match p_expr(s, skip_space(s, j + 2), (d - 1) as nat) {
                        Err(f) => Err(f),
                        Ok((e, je)) => {
                            let q = skip_space(s, je);
                            if at(s, q) != '}' {
                                Err(failure(q, Category::Template, seq![Expected::Char('}')]))
                            } else if advances(s, i, q + 1) {
                                p_parts(s, q + 1, d, acc1.push(PartModel::Interpolation(e)))
                            } else {
                                Err(stuck(q))
                            }
                        },
                    }
                }
            } else {
                Err(failure(j, Category::Template, Seq::empty()))
            }
        },
    }
}

/// The elements of an array from the start of one on, appended to `acc`, up
/// to and with the closing bracket.
pub open spec fn p_elements(s: Seq<char>, i: int, d: nat, acc: Seq<ExprModel>) -> Parsed<Seq<ExprModel>>
    decreases d, 45int, s.len() - i,
{
    match p_expr(s, i, d) {
        Err(f) => Err(f),
        Ok((e, j)) => {
            let q = skip_space(s, j);
            let c = at(s, q);
            if c == ',' {
                let q2 = skip_space(s, q + 1);
                if at(s, q2) == ']' {
                    Ok((acc.push(e), q2 + 1))
                } else if advances(s, i, q2) {
                    p_elements(s, q2, d, acc.push(e))
                } else {
                    Err(stuck(q2))
                }
            } else if c == ']' {
                Ok((acc.push(e), q + 1))
            } else {
                Err(none_of(q, Category::Array, array_options()))
            }
        },
    }
}

/// The arguments of a function call from the start of one on, appended to
/// `acc`, up to and with the closing parenthesis, and whether `...` follows
/// the last.
pub open spec fn p_arguments(s: Seq<char>, i: int, d: nat, acc: Seq<ExprModel>) -> Parsed<(Seq<ExprModel>, bool)>
    decreases d, 45int, s.len() - i,
{
    match p_expr(s, i, d) {
        Err(f) => Err(f),
        Ok((e, j)) => {
            let q = skip_space(s, j);
            let c = at(s, q);
            if c == ',' {
                let q2 = skip_space(s, q + 1);
                if at(s, q2) == ')' {
                    Ok(((acc.push(e), false), q2 + 1))
                } else if advances(s, i, q2) {
                    p_arguments(s, q2, d, acc.push(e))
                } else {
                    Err(stuck(q2))
                }
            } else if c == '.' && at(s, q + 1) == '.' && at(s, q + 2) == '.' {
                let q2 = skip_space(s, q + 3);
                if at(s, q2) == ')' {
                    Ok(((acc.push(e), true), q2 + 1))
                } else {
                    Err(failure(q2, Category::FunctionCall, seq![Expected::Char(')')]))
                }
            } else if c == ')' {
                Ok(((acc.push(e), false), q + 1))
            } else {
                Err(none_of(q, Category::FunctionCall, argument_options()))
            }
        },
    }
}

/// The items of an object from the start of a key on, appended to `acc`, up
/// to and with the closing brace. Items are separated by a comma or a line
/// break.
pub open spec fn p_object_items(s: Seq<char>, i: int, d: nat, acc: Seq<ItemModel>) -> Parsed<Seq<ItemModel>>
    decreases d, 45int, s.len() - i,
{
    match p_expr(s, i, d) {
        Err(f) => Err(f),
        Ok((k, j)) => {
            let q = skip_blank(s, j);
            if at(s, q) != '=' {
                Err(failure(q, Category::ObjectItem, seq![Expected::Char('=')]))
            } else {
                match p_expr(s, skip_blank(s, q + 1), d) {
                    Err(f) => Err(f),
                    Ok((v, jv)) => {
                        let item = ItemModel { key: key_of(k), value: v };
                        let q2 = skip_blank(s, jv);
                        let c = at(s, q2);
                        if c == ',' || c == '\n' {
                            let q3 = skip_space(s, q2 + 1);
                            if at(s, q3) == '}' {
                                Ok((acc.push(item), q3 + 1))
                            } else if advances(s, i, q3) {
                                p_object_items(s, q3, d, acc.push(item))
                            } else {
                                Err(stuck(q3))
                            }
                        } else if c == '}' {
                            Ok((acc.push(item), q2 + 1))
                        } else {
                            Err(none_of(q2, Category::ObjectItem, item_options()))
                        }
                    },
                }
            }
        },
    }
}

/// The structures of a body from `i` on, appended to `acc`: of a block's
/// body up to its closing brace, which is where the position returned
/// points; of the document up to the end of the input. Each structure ends
/// its line.
pub open spec fn p_body(s: Seq<char>, i: int, d: nat, in_block: bool, acc: Seq<StructureModel>) -> Parsed<
    Seq<StructureModel>,
>
    decreases d, 60int, s.len() - i,
{
    let k = skip_space(s, i);
    if k < 0 || k >= s.len() {
        if in_block {
            Err(none_of(k, Category::BlockBody, body_options()))
        } else {
            Ok((acc, k))
        }
    } else if in_block && s[k] == '}' {
        Ok((acc, k))
    } else if is_ident_start(s[k]) {
        match p_structure(s, k, d) {
            Err(f) => Err(f),
            Ok((st, e)) => {
                let n = skip_blank(s, e);
                if 0 <= n < s.len() && s[n] != '\n' {
                    Err(
                        failure(
                            n,
                            if st is Attribute {
                                Category::Attribute
                            } else {
                                Category::Block
                            },
                            seq![Expected::Newline],
                        ),
                    )
                } else {
                    let next = if n < s.len() {
                        n + 1
                    } else {
                        n
                    };
                    if advances(s, i, next) {
                        p_body(s, next, d, in_block, acc.push(st))
                    } else {
                        Err(stuck(next))
                    }
                }
            },
        }
    } else if in_block {
        Err(none_of(k, Category::BlockBody, body_options()))
    } else {
        Err(none_of(k, Category::Structure, document_options()))
    }
}

/// A structure, from the first character of its identifier: an attribute
/// where `=` follows, a block otherwise.
pub open spec fn p_structure(s: Seq<char>, i: int, d: nat) -> Parsed<StructureModel>
    decreases d, 59int, s.len() - i,
{
    let j = run_end(s, i + 1, CharClass::Ident);
    let name = s.subrange(i, j);
    let k = skip_blank(s, j);
    if at(s, k) == '=' {
        match p_expr(s, skip_blank(s, k + 1), d) {
            Err(f) => Err(f),
            Ok((v, e)) => Ok((StructureModel::Attribute(name, v), e)),
        }
    } else {
        p_labels(s, k, d, name, Seq::empty())
    }
}

/// The rest of a block from `k` on: labels, appended to `acc`, and the body
/// in braces.
pub open spec fn p_labels(s: Seq<char>, k: int, d: nat, name: Seq<char>, acc: Seq<LabelModel>) -> Parsed<
    StructureModel,
>
    decreases d, 58int, s.len() - k,
{
    let c = at(s, k);
    if c == '{' {
        match p_block_body(s, k + 1, d) {
            Err(f) => Err(f),
            Ok((body, e)) => Ok((StructureModel::Block(name, acc, body), e)),
        }
    } else if c == '"' {
        match p_string(s, k + 1) {
            Err(f) => Err(f),
            Ok((t, e)) => {
                let next = skip_blank(s, e);
                if advances(s, k, next) {
                    p_labels(s, next, d, name, acc.push(LabelModel::String(t)))
                } else {
                    Err(stuck(next))
                }
            },
        }
    } else if is_ident_start(c) {
        let e = run_end(s, k + 1, CharClass::Ident);
        let next = skip_blank(s, e);
        if advances(s, k, next) {
            p_labels(s, next, d, name, acc.push(LabelModel::Identifier(s.subrange(k, e))))
        } else {
            Err(stuck(next))
        }
    } else if acc.len() == 0 {
        Err(none_of(k, Category::Structure, structure_options()))
    } else {
        Err(none_of(k, Category::Block, block_options()))
    }
}

/// The body of a block, from after its opening brace, up to and with the
/// closing brace: nothing, one attribute on the same line, or structures on
/// lines of their own.
pub open spec fn p_block_body(s: Seq<char>, i: int, d: nat) -> Parsed<Seq<StructureModel>>
    decreases d, 57int, s.len() - i,
{
    if d == 0 {
        Err(too_deep(i))
    } else {
        let k = skip_blank(s, i);
        let c = at(s, k);
        if c == '}' {
            Ok((Seq::empty(), k + 1))
        } else if c == '\n' {
            match p_body(s, k + 1, (d - 1) as nat, true, Seq::empty()) {
                Err(f) => Err(f),
                Ok((items, e)) => Ok((items, e + 1)),
            }
        } else if is_ident_start(c) {
            let j = run_end(s, k + 1, CharClass::Ident);
            let m = skip_blank(s, j);
            if at(s, m) != '=' {
                Err(failure(m, Category::Attribute, seq![Expected::Char('=')]))
            } else {
                match p_expr(s, skip_blank(s, m + 1), (d - 1) as nat) {
                    Err(f) => Err(f),
                    Ok((v, e)) => {
                        let n = skip_blank(s, e);
                        if at(s, n) == '}' {
                            Ok((seq![StructureModel::Attribute(s.subrange(k, j), v)], n + 1))
                        } else {
                            Err(failure(n, Category::BlockBody, seq![Expected::Char('}')]))
                        }
                    },
                }
            }
        } else {
            Err(none_of(k, Category::BlockBody, body_options()))
        }
    }
}

/// What parsing a document returns.
pub open spec fn parse_body_spec(s: Seq<char>) -> Result<Seq<StructureModel>, FailureView> {
    match p_body(s, 0, MAX_DEPTH as nat, false, Seq::empty()) {
        Err(f) => Err(f),
        Ok((body, _)) => Ok(body),
    }
}

/// What parsing a text that holds one expression returns.
pub open spec fn parse_expression_spec(s: Seq<char>) -> Result<ExprModel, FailureView> {
    match p_expr(s, skip_space(s, 0), MAX_DEPTH as nat) {
        Err(f) => Err(f),
        Ok((e, j)) => {
            let k = skip_space(s, j);
            if k >= s.len() {
                Ok(e)
            } else {
                Err(failure(k, Category::Expression, seq![Expected::EndOfInput]))
            }
        },
    }
}

} // verus!
