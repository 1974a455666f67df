//! The grammar engine: a recursive-descent parser over the characters of the
//! input. Each function returns what the grammar says stands at its
//! position.

use crate::diag::{report_too_deep, Category, Expected, Failure};
use crate::expr::{
    expr_models, item_models, lemma_expr_models_push, lemma_item_models_push, lemma_op_models_push,
    lemma_part_models_push, op_models, part_models, Expression, FuncCall, ObjectItem, ObjectKey, TemplatePart,
    TraversalOperator,
};
use crate::grammar::{
    finish, key_of, op_at, p_arguments, p_binary, p_binary_loop, p_block_body, p_body, p_elements, p_expr,
    p_labels, p_object_items, p_ops, p_parts, p_postfix, p_primary, p_structure, p_unary, rank_binary,
};
use crate::error::{locate, located, ParseError, ParseErrorView};
use crate::grammar::{parse_body_spec, parse_expression_spec, skip_space};
use crate::model::{valid_body, valid_expr};
use crate::sound::{lemma_sound_body, lemma_sound_expr};
use crate::ident::Identifier;
use crate::model::{kw_false, kw_null, kw_true, BinaryOperator, ExprModel, MAX_DEPTH, StructureModel, UnaryOperator};
use crate::text::chars_of;
use vstd::string::StringSliceAdditionalSpecFns;
use vstd::utf8::encode_utf8;
use crate::scanner::{
    fail_none_of, fail_one, fail_plain, fail_stuck, is_err, is_ok, lemma_ident_run, parse_heredoc, parse_string,
    peek_ahead, scan_literal, Options,
};
use crate::structure::{
    label_models, lemma_label_models_push, lemma_structure_models_push, structure_models, Attribute, Block,
    BlockLabel, Body, Structure,
};
use crate::text::{digit, ident_start, lemma_run_end, peek, read_decimal, scan, string_of, CharClass};
use vstd::prelude::*;

verus! {

/// The words that denote a literal, and all others.
#[derive(Clone, Copy, PartialEq, Eq, Debug)]
pub enum Word {
    Null,
    True,
    False,
    Other,
}

/// Tells which word `chars[from..to]` is.
pub fn word_at(chars: &Vec<char>, from: usize, to: usize) -> (w: Word)
    requires
        from <= to <= chars.len(),
    ensures
        (w == Word::Null) == (chars@.subrange(from as int, to as int) == kw_null()),
        (w == Word::True) == (chars@.subrange(from as int, to as int) == kw_true()),
        (w == Word::False) == (chars@.subrange(from as int, to as int) == kw_false()),
{
    let ghost t = chars@.subrange(from as int, to as int);
    assert(kw_null().len() == 4 && kw_null()[0] == 'n' && kw_null()[1] == 'u' && kw_null()[2] == 'l' && kw_null()[3]
        == 'l');
    assert(kw_true().len() == 4 && kw_true()[0] == 't' && kw_true()[1] == 'r' && kw_true()[2] == 'u' && kw_true()[3]
        == 'e');
    assert(kw_false().len() == 5 && kw_false()[0] == 'f' && kw_false()[1] == 'a' && kw_false()[2] == 'l'
        && kw_false()[3] == 's' && kw_false()[4] == 'e');
    let n = to - from;
    if n == 4 {
        assert(t[0] == chars@[from as int] && t[1] == chars@[from + 1] && t[2] == chars@[from + 2] && t[3]
            == chars@[from + 3]);
        if chars[from] == 'n' && chars[from + 1] == 'u' && chars[from + 2] == 'l' && chars[from + 3] == 'l' {
            assert(t =~= kw_null());
            Word::Null
        } else if chars[from] == 't' && chars[from + 1] == 'r' && chars[from + 2] == 'u' && chars[from + 3] == 'e' {
            assert(t =~= kw_true());
            Word::True
        } else {
            Word::Other
        }
    } else if n == 5 {
        assert(t[0] == chars@[from as int] && t[1] == chars@[from + 1] && t[2] == chars@[from + 2] && t[3]
            == chars@[from + 3] && t[4] == chars@[from + 4]);
        if chars[from] == 'f' && chars[from + 1] == 'a' && chars[from + 2] == 'l' && chars[from + 3] == 's'
            && chars[from + 4] == 'e' {
            assert(t =~= kw_false());
            Word::False
        } else {
            Word::Other
        }
    } else {
        Word::Other
    }
}

/// The binary operator at `q`, if one stands there, and its length.
pub fn operator_at(chars: &Vec<char>, q: usize) -> (r: Option<(BinaryOperator, usize)>)
    requires
        q <= chars.len(),
    ensures
        match r {
            Some((op, n)) => op_at(chars@, q as int) == Some(op) && n == op.symbol().len() && q + n <= chars.len(),
            None => op_at(chars@, q as int) is None,
        },
{
    let c = peek(chars, q);
    let n = peek_ahead(chars, q, 1);
    if c == '|' && n == '|' {
        Some((BinaryOperator::Or, 2))
    } else if c == '&' && n == '&' {
        Some((BinaryOperator::And, 2))
    } else if c == '=' && n == '=' {
        Some((BinaryOperator::Eq, 2))
    } else if c == '!' && n == '=' {
        Some((BinaryOperator::NotEq, 2))
    } else if c == '<' && n == '=' {
        Some((BinaryOperator::LessEq, 2))
    } else if c == '>' && n == '=' {
        Some((BinaryOperator::GreaterEq, 2))
    } else if c == '<' {
        Some((BinaryOperator::Less, 1))
    } else if c == '>' {
        Some((BinaryOperator::Greater, 1))
    } else if c == '+' {
        Some((BinaryOperator::Plus, 1))
    } else if c == '-' {
        Some((BinaryOperator::Minus, 1))
    } else if c == '*' {
        Some((BinaryOperator::Mul, 1))
    } else if c == '/' {
        Some((BinaryOperator::Div, 1))
    } else if c == '%' {
        Some((BinaryOperator::Mod, 1))
    } else {
        None
    }
}

/// Parses an expression.
pub fn parse_expr(chars: &Vec<char>, i: usize, d: usize) -> (r: Result<(Expression, usize), Failure>)
    requires
        i <= chars.len(),
    ensures
        match r {
            Ok((e, j)) => is_ok(p_expr(chars@, i as int, d as nat), e@, j as int) && j <= chars.len(),
            Err(f) => is_err(p_expr(chars@, i as int, d as nat), f@),
        },
    decreases d, 40int, chars.len() - i,
{
    let (c, j) = match parse_binary(chars, i, d, 1) {
        Err(f) => {
            return Err(f);
        },
        Ok(v) => v,
    };
    let q = scan(chars, j, CharClass::Blank);
    if peek(chars, q) != '?' {
        return Ok((c, j));
    }
    if d == 0 {
        return Err(report_too_deep(q));
    }
    let a0 = scan(chars, q + 1, CharClass::Blank);
    let (a, ja) = match parse_expr(chars, a0, d - 1) {
        Err(f) => {
            return Err(f);
        },
        Ok(v) => v,
    };
    let c2 = scan(chars, ja, CharClass::Blank);
    if peek(chars, c2) != ':' {
        return Err(fail_one(c2, Category::Conditional, Expected::Char(':')));
    }
    let b0 = scan(chars, c2 + 1, CharClass::Blank);
    match parse_expr(chars, b0, d - 1) {
        Err(f) => Err(f),
        Ok((b, jb)) => Ok((Expression::Conditional(Box::new(c), Box::new(a), Box::new(b)), jb)),
    }
}

/// Parses a chain of binary operations whose operators bind at least as
/// tightly as `m`.
pub fn parse_binary(chars: &Vec<char>, i: usize, d: usize, m: u8) -> (r: Result<(Expression, usize), Failure>)
    requires
        i <= chars.len(),
        1 <= m <= 7,
    ensures
        match r {
            Ok((e, j)) => is_ok(p_binary(chars@, i as int, d as nat, m as int), e@, j as int) && j <= chars.len(),
            Err(f) => is_err(p_binary(chars@, i as int, d as nat, m as int), f@),
        },
    decreases d, rank_binary(m as int), chars.len() - i,
{
    let (u, j0) = match parse_unary(chars, i, d) {
        Err(f) => {
            return Err(f);
        },
        Ok(v) => v,
    };
    let mut lhs = u;
    let mut j = j0;
    loop
        invariant
            j <= chars.len(),
            1 <= m <= 7,
            i <= chars.len(),
            p_binary_loop(chars@, j as int, d as nat, m as int, lhs@) == p_binary(
                chars@,
                i as int,
                d as nat,
                m as int,
            ),
        decreases chars.len() - j,
    {
        let q = scan(chars, j, CharClass::Blank);
        let (op, n) = match operator_at(chars, q) {
            None => {
                return Ok((lhs, j));
            },
            Some(v) => v,
        };
        let p = op.binding();
        if p < m {
            return Ok((lhs, j));
        }
        let r0 = scan(chars, q + n, CharClass::Blank);
        let (rhs, e) = match parse_binary(chars, r0, d, p + 1) {
            Err(f) => {
                return Err(f);
            },
            Ok(v) => v,
        };
        if e <= j {
            return Err(fail_stuck(e));
        }
        lhs = Expression::Binary(Box::new(lhs), op, Box::new(rhs));
        j = e;
    }
}

/// Parses a unary operation, or what stands where its operand would.
pub fn parse_unary(chars: &Vec<char>, i: usize, d: usize) -> (r: Result<(Expression, usize), Failure>)
    requires
        i <= chars.len(),
    ensures
        match r {
            Ok((e, j)) => is_ok(p_unary(chars@, i as int, d as nat), e@, j as int) && j <= chars.len(),
            Err(f) => is_err(p_unary(chars@, i as int, d as nat), f@),
        },
    decreases d, 10int, chars.len() - i,
{
    let c = peek(chars, i);
    if c == '-' || c == '!' {
        if d == 0 {
            return Err(report_too_deep(i));
        }
        let x0 = scan(chars, i + 1, CharClass::Blank);
        match parse_unary(chars, x0, d - 1) {
            Err(f) => Err(f),
            Ok((x, e)) => {
                let op = if c == '-' {
                    UnaryOperator::Neg
                } else {
                    UnaryOperator::Not
                };
                Ok((Expression::Unary(op, Box::new(x)), e))
            },
        }
    } else {
        parse_postfix(chars, i, d)
    }
}

/// Parses a primary expression and the traversal steps that follow it.
pub fn parse_postfix(chars: &Vec<char>, i: usize, d: usize) -> (r: Result<(Expression, usize), Failure>)
    requires
        i <= chars.len(),
    ensures
        match r {
            Ok((e, j)) => is_ok(p_postfix(chars@, i as int, d as nat), e@, j as int) && j <= chars.len(),
            Err(f) => is_err(p_postfix(chars@, i as int, d as nat), f@),
        },
    decreases d, 9int, chars.len() - i,
{
    let (base, j) = match parse_primary(chars, i, d) {
        Err(f) => {
            return Err(f);
        },
        Ok(v) => v,
    };
    match parse_ops(chars, j, d) {
        Err(f) => Err(f),
        Ok((ops, e)) => {
            if ops.len() == 0 {
                Ok((base, e))
            } else {
                Ok((Expression::Traversal(Box::new(base), ops), e))
            }
        },
    }
}

/// Parses the traversal steps from `j0` on.
pub fn parse_ops(chars: &Vec<char>, j0: usize, d: usize) -> (r: Result<(Vec<TraversalOperator>, usize), Failure>)
    requires
        j0 <= chars.len(),
    ensures
        match r {
            Ok((ops, j)) => is_ok(p_ops(chars@, j0 as int, d as nat, Seq::empty()), op_models(ops@), j as int) && j
                <= chars.len(),
            Err(f) => is_err(p_ops(chars@, j0 as int, d as nat, Seq::empty()), f@),
        },
    decreases d, 7int, chars.len() - j0,
{
    let mut acc: Vec<TraversalOperator> = Vec::new();
    let mut j: usize = j0;
    assert(op_models(acc@) =~= Seq::empty());
    loop
        invariant
            j0 <= j <= chars.len(),
            p_ops(chars@, j as int, d as nat, op_models(acc@)) == p_ops(chars@, j0 as int, d as nat, Seq::empty()),
        decreases chars.len() - j,
    {
        let c = peek(chars, j);
        if c == '.' && !(peek_ahead(chars, j, 1) == '.' && peek_ahead(chars, j, 2) == '.') {
            let c1 = peek_ahead(chars, j, 1);
            if c1 == '*' {
                proof {
                    lemma_op_models_push(acc@, TraversalOperator::AttrSplat);
                }
                acc.push(TraversalOperator::AttrSplat);
                j = j + 2;
            } else if ident_start(c1) {
                proof {
                    lemma_ident_run(chars@, j + 1);
                }
                let e = scan(chars, j + 2, CharClass::Ident);
                let op = TraversalOperator::GetAttr(Identifier::from_chars(chars, j + 1, e));
                proof {
                    lemma_op_models_push(acc@, op);
                }
                acc.push(op);
                j = e;
            } else if digit(c1) {
                let e = scan(chars, j + 2, CharClass::Digit);
                proof {
                    lemma_run_end(chars@, j + 2, CharClass::Digit);
                }
                match read_decimal(chars, j + 1, e) {
                    None => {
                        return Err(fail_plain(j + 1, Category::Number));
                    },
                    Some(v) => {
                        let op = TraversalOperator::LegacyIndex(v);
                        proof {
                            lemma_op_models_push(acc@, op);
                        }
                        acc.push(op);
                        j = e;
                    },
                }
            } else {
                return Err(fail_none_of(j + 1, Category::TraversalOperator, Options::Traversal));
            }
        } else if c == '[' {
            let q = scan(chars, j + 1, CharClass::Space);
            let splat: Result<usize, Failure> = if peek(chars, q) == '*' {
                let q2 = scan(chars, q + 1, CharClass::Space);
                if peek(chars, q2) == ']' {
                    Ok(q2 + 1)
                } else {
                    Err(fail_one(q2, Category::TraversalOperator, Expected::Char(']')))
                }
            } else {
                Err(fail_one(q, Category::TraversalOperator, Expected::Char('*')))
            };
            match splat {
                Ok(e) => {
                    proof {
                        lemma_op_models_push(acc@, TraversalOperator::FullSplat);
                    }
                    acc.push(TraversalOperator::FullSplat);
                    j = e;
                },
                Err(f1) => {
                    if d == 0 {
                        return Err(f1.merge(report_too_deep(q)));
                    }
                    match parse_expr(chars, q, d - 1) {
                        Err(f2) => {
                            return Err(f1.merge(f2));
                        },
                        Ok((e, je)) => {
                            let q3 = scan(chars, je, CharClass::Space);
                            if peek(chars, q3) != ']' {
                                return Err(fail_one(q3, Category::TraversalOperator, Expected::Char(']')));
                            }
                            if q3 + 1 <= j {
                                return Err(fail_stuck(j));
                            }
                            let op = TraversalOperator::Index(e);
                            proof {
                                lemma_op_models_push(acc@, op);
                            }
                            acc.push(op);
                            j = q3 + 1;
                        },
                    }
                },
            }
        } else {
            return Ok((acc, j));
        }
    }
}

/// Makes an object key of an expression in key position.
pub fn key_from(e: Expression) -> (k: ObjectKey)
    ensures
        k@ == key_of(e@),
{
    match e {
        Expression::Variable(n) => ObjectKey::Identifier(n),
        other => ObjectKey::Expression(other),
    }
}

/// Makes the expression of the fragments of a quoted string.
pub fn finish_parts(parts: Vec<TemplatePart>) -> (e: Expression)
    ensures
        e@ == finish(part_models(parts@)),
{
    let mut parts = parts;
    let ghost all = parts@;
    if parts.len() == 0 {
        Expression::String(String::new())
    } else if parts.len() == 1 {
        match parts.pop().unwrap() {
            TemplatePart::Literal(t) => Expression::String(t),
            other => {
                let mut v: Vec<TemplatePart> = Vec::new();
                v.push(other);
                assert(v@ =~= all);
                Expression::Template(v)
            },
        }
    } else {
        Expression::Template(parts)
    }
}

/// Parses an expression that is complete in itself.
pub fn parse_primary(chars: &Vec<char>, i: usize, d: usize) -> (r: Result<(Expression, usize), Failure>)
    requires
        i <= chars.len(),
    ensures
        match r {
            Ok((e, j)) => is_ok(p_primary(chars@, i as int, d as nat), e@, j as int) && j <= chars.len(),
            Err(f) => is_err(p_primary(chars@, i as int, d as nat), f@),
        },
    decreases d, 8int, chars.len() - i,
{
    let c = peek(chars, i);
    if c == '"' {
        parse_parts(chars, i + 1, d)
    } else if c == '[' {
        if d == 0 {
            return Err(report_too_deep(i));
        }
        let q = scan(chars, i + 1, CharClass::Space);
        if peek(chars, q) == ']' {
            let items: Vec<Expression> = Vec::new();
            assert(expr_models(items@) =~= Seq::empty());
            Ok((Expression::Array(items), q + 1))
        } else {
            match parse_elements(chars, q, d - 1) {
                Err(f) => Err(f),
                Ok((items, e)) => Ok((Expression::Array(items), e)),
            }
        }
    } else if c == '{' {
        if d == 0 {
            return Err(report_too_deep(i));
        }
        let q = scan(chars, i + 1, CharClass::Space);
        if peek(chars, q) == '}' {
            let items: Vec<ObjectItem> = Vec::new();
            assert(item_models(items@) =~= Seq::empty());
            Ok((Expression::Object(items), q + 1))
        } else {
            match parse_object_items(chars, q, d - 1) {
                Err(f) => Err(f),
                Ok((items, e)) => Ok((Expression::Object(items), e)),
            }
        }
    } else if c == '(' {
        if d == 0 {
            return Err(report_too_deep(i));
        }
        let x0 = scan(chars, i + 1, CharClass::Space);
        match parse_expr(chars, x0, d - 1) {
            Err(f) => Err(f),
            Ok((x, e)) => {
                let q = scan(chars, e, CharClass::Space);
                if peek(chars, q) == ')' {
                    Ok((Expression::Parenthesis(Box::new(x)), q + 1))
                } else {
                    Err(fail_one(q, Category::Parenthesis, Expected::Char(')')))
                }
            },
        }
    } else if c == '<' {
        parse_heredoc(chars, i)
    } else if digit(c) {
        let e = scan(chars, i + 1, CharClass::Digit);
        proof {
            lemma_run_end(chars@, i + 1, CharClass::Digit);
        }
        match read_decimal(chars, i, e) {
            None => Err(fail_plain(i, Category::Number)),
            Some(v) => Ok((Expression::Number(v), e)),
        }
    } else if ident_start(c) {
        proof {
            lemma_ident_run(chars@, i as int);
        }
        let e = scan(chars, i + 1, CharClass::Ident);
        if peek(chars, e) == '(' {
            if d == 0 {
                return Err(report_too_deep(e));
            }
            let q = scan(chars, e + 1, CharClass::Space);
            if peek(chars, q) == ')' {
                let args: Vec<Expression> = Vec::new();
                assert(expr_models(args@) =~= Seq::empty());
                let name = Identifier::from_chars(chars, i, e);
                Ok((Expression::FuncCall(FuncCall { name, args, expand_final: false }), q + 1))
            } else {
                match parse_arguments(chars, q, d - 1) {
                    Err(f) => Err(f),
                    Ok((r, e2)) => {
                        let name = Identifier::from_chars(chars, i, e);
                        Ok((Expression::FuncCall(FuncCall { name, args: r.0, expand_final: r.1 }), e2))
                    },
                }
            }
        } else {
            match word_at(chars, i, e) {
                Word::Null => Ok((Expression::Null, e)),
                Word::True => Ok((Expression::Bool(true), e)),
                Word::False => Ok((Expression::Bool(false), e)),
                Word::Other => Ok((Expression::Variable(Identifier::from_chars(chars, i, e)), e)),
            }
        }
    } else {
        Err(fail_none_of(i, Category::Expression, Options::ExpressionStarts))
    }
}

/// Parses the fragments of a quoted string from after its opening quote.
pub fn parse_parts(chars: &Vec<char>, i0: usize, d: usize) -> (r: Result<(Expression, usize), Failure>)
    requires
        i0 <= chars.len(),
    ensures
        match r {
            Ok((e, j)) => is_ok(p_parts(chars@, i0 as int, d as nat, Seq::empty()), e@, j as int) && i0 < j
                <= chars.len(),
            Err(f) => is_err(p_parts(chars@, i0 as int, d as nat, Seq::empty()), f@),
        },
    decreases d, 5int, chars.len() - i0,
{
    let mut acc: Vec<TemplatePart> = Vec::new();
    let mut i: usize = i0;
    assert(part_models(acc@) =~= Seq::empty());
    loop
        invariant
            i0 <= i <= chars.len(),
            p_parts(chars@, i as int, d as nat, part_models(acc@)) == p_parts(
                chars@,
                i0 as int,
                d as nat,
                Seq::empty(),
            ),
        decreases chars.len() - i,
    {
        let (t, j) = match scan_literal(chars, i) {
            Err(f) => {
                return Err(f);
            },
            Ok(v) => v,
        };
        if t.len() > 0 {
            let text = string_of(&t, 0, t.len());
            assert(t@.subrange(0, t.len() as int) =~= t@);
            let part = TemplatePart::Literal(text);
            proof {
                lemma_part_models_push(acc@, part);
            }
            acc.push(part);
        }
        let c = chars[j];
        if c == '"' {
            return Ok((finish_parts(acc), j + 1));
        } else if c == '$' {
            if d == 0 {
                return Err(report_too_deep(j));
            }
            let x0 = scan(chars, j + 2, CharClass::Space);
            match parse_expr(chars, x0, d - 1) {
                Err(f) => {
                    return Err(f);
                },
                Ok((e, je)) => {
                    let q = scan(chars, je, CharClass::Space);
                    if peek(chars, q) != '}' {
                        return Err(fail_one(q, Category::Template, Expected::Char('}')));
                    }
                    if q + 1 <= i {
                        return Err(fail_stuck(q));
                    }
                    let part = TemplatePart::Interpolation(e);
                    proof {
                        lemma_part_models_push(acc@, part);
                    }
                    acc.push(part);
                    i = q + 1;
                },
            }
        } else {
            return Err(fail_plain(j, Category::Template));
        }
    }
}

/// Parses the elements of an array from the start of the first on.
pub fn parse_elements(chars: &Vec<char>, i0: usize, d: usize) -> (r: Result<(Vec<Expression>, usize), Failure>)
    requires
        i0 <= chars.len(),
    ensures
        match r {
            Ok((v, j)) => is_ok(p_elements(chars@, i0 as int, d as nat, Seq::empty()), expr_models(v@), j as int)
                && j <= chars.len(),
            Err(f) => is_err(p_elements(chars@, i0 as int, d as nat, Seq::empty()), f@),
        },
    decreases d, 45int, chars.len() - i0,
{
    let mut acc: Vec<Expression> = Vec::new();
    let mut i: usize = i0;
    assert(expr_models(acc@) =~= Seq::empty());
    loop
        invariant
            i0 <= i <= chars.len(),
            p_elements(chars@, i as int, d as nat, expr_models(acc@)) == p_elements(
                chars@,
                i0 as int,
                d as nat,
                Seq::empty(),
            ),
        decreases chars.len() - i,
    {
        let (e, j) = match parse_expr(chars, i, d) {
            Err(f) => {
                return Err(f);
            },
            Ok(v) => v,
        };
        proof {
            lemma_expr_models_push(acc@, e);
        }
        acc.push(e);
        let q = scan(chars, j, CharClass::Space);
        let c = peek(chars, q);
        if c == ',' {
            let q2 = scan(chars, q + 1, CharClass::Space);
            if peek(chars, q2) == ']' {
                return Ok((acc, q2 + 1));
            }
            if q2 <= i {
                return Err(fail_stuck(q2));
            }
            i = q2;
        } else if c == ']' {
            return Ok((acc, q + 1));
        } else {
            return Err(fail_none_of(q, Category::Array, Options::Array));
        }
    }
}

/// Parses the arguments of a function call from the start of the first on.
pub fn parse_arguments(chars: &Vec<char>, i0: usize, d: usize) -> (r: Result<((Vec<Expression>, bool), usize), Failure>)
    requires
        i0 <= chars.len(),
    ensures
        match r {
            Ok((v, j)) => is_ok(
                p_arguments(chars@, i0 as int, d as nat, Seq::empty()),
                (expr_models(v.0@), v.1),
                j as int,
            ) && j <= chars.len(),
            Err(f) => is_err(p_arguments(chars@, i0 as int, d as nat, Seq::empty()), f@),
        },
    decreases d, 45int, chars.len() - i0,
{
    let mut acc: Vec<Expression> = Vec::new();
    let mut i: usize = i0;
    assert(expr_models(acc@) =~= Seq::empty());
    loop
        invariant
            i0 <= i <= chars.len(),
            p_arguments(chars@, i as int, d as nat, expr_models(acc@)) == p_arguments(
                chars@,
                i0 as int,
                d as nat,
                Seq::empty(),
            ),
        decreases chars.len() - i,
    {
        let (e, j) = match parse_expr(chars, i, d) {
            Err(f) => {
                return Err(f);
            },
            Ok(v) => v,
        };
        proof {
            lemma_expr_models_push(acc@, e);
        }
        acc.push(e);
        let q = scan(chars, j, CharClass::Space);
        let c = peek(chars, q);
        if c == ',' {
            let q2 = scan(chars, q + 1, CharClass::Space);
            if peek(chars, q2) == ')' {
                return Ok(((acc, false), q2 + 1));
            }
            if q2 <= i {
                return Err(fail_stuck(q2));
            }
            i = q2;
        } else if c == '.' && peek_ahead(chars, q, 1) == '.' && peek_ahead(chars, q, 2) == '.' {
            let q2 = scan(chars, q + 3, CharClass::Space);
            if peek(chars, q2) == ')' {
                return Ok(((acc, true), q2 + 1));
            } else {
                return Err(fail_one(q2, Category::FunctionCall, Expected::Char(')')));
            }
        } else if c == ')' {
            return Ok(((acc, false), q + 1));
        } else {
            return Err(fail_none_of(q, Category::FunctionCall, Options::Argument));
        }
    }
}

/// Parses the items of an object from the start of the first key on.
pub fn parse_object_items(chars: &Vec<char>, i0: usize, d: usize) -> (r: Result<(Vec<ObjectItem>, usize), Failure>)
    requires
        i0 <= chars.len(),
    ensures
        match r {
            Ok((v, j)) => is_ok(
                p_object_items(chars@, i0 as int, d as nat, Seq::empty()),
                item_models(v@),
                j as int,
            ) && j <= chars.len(),
            Err(f) => is_err(p_object_items(chars@, i0 as int, d as nat, Seq::empty()), f@),
        },
    decreases d, 45int, chars.len() - i0,
{
    let mut acc: Vec<ObjectItem> = Vec::new();
    let mut i: usize = i0;
    assert(item_models(acc@) =~= Seq::empty());
    loop
        invariant
            i0 <= i <= chars.len(),
            p_object_items(chars@, i as int, d as nat, item_models(acc@)) == p_object_items(
                chars@,
                i0 as int,
                d as nat,
                Seq::empty(),
            ),
        decreases chars.len() - i,
    {
        let (k, j) = match parse_expr(chars, i, d) {
            Err(f) => {
                return Err(f);
            },
            Ok(v) => v,
        };
        let q = scan(chars, j, CharClass::Blank);
        if peek(chars, q) != '=' {
            return Err(fail_one(q, Category::ObjectItem, Expected::Char('=')));
        }
        let v0 = scan(chars, q + 1, CharClass::Blank);
        let (v, jv) = match parse_expr(chars, v0, d) {
            Err(f) => {
                return Err(f);
            },
            Ok(v) => v,
        };
        let item = ObjectItem { key: key_from(k), value: v };
        proof {
            lemma_item_models_push(acc@, item);
        }
        acc.push(item);
        let q2 = scan(chars, jv, CharClass::Blank);
        let c = peek(chars, q2);
        if c == ',' || c == '\n' {
            let q3 = scan(chars, q2 + 1, CharClass::Space);
            if peek(chars, q3) == '}' {
                return Ok((acc, q3 + 1));
            }
            if q3 <= i {
                return Err(fail_stuck(q3));
            }
            i = q3;
        } else if c == '}' {
            return Ok((acc, q2 + 1));
        } else {
            return Err(fail_none_of(q2, Category::ObjectItem, Options::Item));
        }
    }
}

/// Parses the structures of a body from `i0` on: of a block's body up to
/// its closing brace, of the document up to the end of the input.
pub fn parse_structures(chars: &Vec<char>, i0: usize, d: usize, in_block: bool) -> (r: Result<
    (Vec<Structure>, usize),
    Failure,
>)
    requires
        i0 <= chars.len(),
    ensures
        match r {
            Ok((v, j)) => is_ok(
                p_body(chars@, i0 as int, d as nat, in_block, Seq::empty()),
                structure_models(v@),
                j as int,
            ) && j <= chars.len() && (in_block ==> j < chars.len()),
            Err(f) => is_err(p_body(chars@, i0 as int, d as nat, in_block, Seq::empty()), f@),
        },
    decreases d, 60int, chars.len() - i0,
{
    let mut acc: Vec<Structure> = Vec::new();
    let mut i: usize = i0;
    assert(structure_models(acc@) =~= Seq::empty());
    loop
        invariant
            i0 <= i <= chars.len(),
            p_body(chars@, i as int, d as nat, in_block, structure_models(acc@)) == p_body(
                chars@,
                i0 as int,
                d as nat,
                in_block,
                Seq::empty(),
            ),
        decreases chars.len() - i,
    {
        let k = scan(chars, i, CharClass::Space);
        if k >= chars.len() {
            if in_block {
                return Err(fail_none_of(k, Category::BlockBody, Options::Body));
            } else {
                return Ok((acc, k));
            }
        }
        let c = chars[k];
        if in_block && c == '}' {
            return Ok((acc, k));
        }
        if !ident_start(c) {
            if in_block {
                return Err(fail_none_of(k, Category::BlockBody, Options::Body));
            } else {
                return Err(fail_none_of(k, Category::Structure, Options::Document));
            }
        }
        let (st, e) = match parse_structure(chars, k, d) {
            Err(f) => {
                return Err(f);
            },
            Ok(v) => v,
        };
        let n = scan(chars, e, CharClass::Blank);
        if n < chars.len() && chars[n] != '\n' {
            let category = match st {
                Structure::Attribute(_) => Category::Attribute,
                Structure::Block(_) => Category::Block,
            };
            return Err(fail_one(n, category, Expected::Newline));
        }
        let next = if n < chars.len() {
            n + 1
        } else {
            n
        };
        if next <= i {
            return Err(fail_stuck(next));
        }
        proof {
            lemma_structure_models_push(acc@, st);
        }
        acc.push(st);
        i = next;
    }
}

/// Parses a structure, from the first character of its identifier.
pub fn parse_structure(chars: &Vec<char>, i: usize, d: usize) -> (r: Result<(Structure, usize), Failure>)
    requires
        i < chars.len(),
        crate::text::is_ident_start(chars@[i as int]),
    ensures
        match r {
            Ok((st, j)) => is_ok(p_structure(chars@, i as int, d as nat), st@, j as int) && j <= chars.len(),
            Err(f) => is_err(p_structure(chars@, i as int, d as nat), f@),
        },
    decreases d, 59int, chars.len() - i,
{
    proof {
        lemma_ident_run(chars@, i as int);
    }
    let j = scan(chars, i + 1, CharClass::Ident);
    let k = scan(chars, j, CharClass::Blank);
    if peek(chars, k) == '=' {
        let v0 = scan(chars, k + 1, CharClass::Blank);
        match parse_expr(chars, v0, d) {
            Err(f) => Err(f),
            Ok((v, e)) => {
                let key = Identifier::from_chars(chars, i, j);
                Ok((Structure::Attribute(Attribute { key, value: v }), e))
            },
        }
    } else {
        let name = Identifier::from_chars(chars, i, j);
        parse_labels(chars, k, d, name)
    }
}

/// Parses the rest of a block from `k0` on: its labels and its body.
pub fn parse_labels(chars: &Vec<char>, k0: usize, d: usize, name: Identifier) -> (r: Result<
    (Structure, usize),
    Failure,
>)
    requires
        k0 <= chars.len(),
    ensures
        match r {
            Ok((st, j)) => is_ok(p_labels(chars@, k0 as int, d as nat, name@, Seq::empty()), st@, j as int) && j
                <= chars.len(),
            Err(f) => is_err(p_labels(chars@, k0 as int, d as nat, name@, Seq::empty()), f@),
        },
    decreases d, 58int, chars.len() - k0,
{
    let mut acc: Vec<BlockLabel> = Vec::new();
    let mut k: usize = k0;
    assert(label_models(acc@) =~= Seq::empty());
    loop
        invariant
            k0 <= k <= chars.len(),
            p_labels(chars@, k as int, d as nat, name@, label_models(acc@)) == p_labels(
                chars@,
                k0 as int,
                d as nat,
                name@,
                Seq::empty(),
            ),
        decreases chars.len() - k,
    {
        let c = peek(chars, k);
        if c == '{' {
            match parse_block_body(chars, k + 1, d) {
                Err(f) => {
                    return Err(f);
                },
                Ok((body, e)) => {
                    return Ok(
                        (Structure::Block(Block { identifier: name, labels: acc, body: Body { structures: body } }), e),
                    );
                },
            }
        } else if c == '"' {
            match parse_string(chars, k + 1) {
                Err(f) => {
                    return Err(f);
                },
                Ok((t, e)) => {
                    let next = scan(chars, e, CharClass::Blank);
                    if next <= k {
                        return Err(fail_stuck(next));
                    }
                    let label = BlockLabel::String(t);
                    proof {
                        lemma_label_models_push(acc@, label);
                    }
                    acc.push(label);
                    k = next;
                },
            }
        } else if ident_start(c) {
            proof {
                lemma_ident_run(chars@, k as int);
            }
            let e = scan(chars, k + 1, CharClass::Ident);
            let next = scan(chars, e, CharClass::Blank);
            if next <= k {
                return Err(fail_stuck(next));
            }
            let label = BlockLabel::Identifier(Identifier::from_chars(chars, k, e));
            proof {
                lemma_label_models_push(acc@, label);
            }
            acc.push(label);
            k = next;
        } else if acc.len() == 0 {
            return Err(fail_none_of(k, Category::Structure, Options::Structure));
        } else {
            return Err(fail_none_of(k, Category::Block, Options::Block));
        }
    }
}

/// Parses the body of a block, from after its opening brace.
pub fn parse_block_body(chars: &Vec<char>, i: usize, d: usize) -> (r: Result<(Vec<Structure>, usize), Failure>)
    requires
        i <= chars.len(),
    ensures
        match r {
            Ok((v, j)) => is_ok(p_block_body(chars@, i as int, d as nat), structure_models(v@), j as int) && j
                <= chars.len(),
            Err(f) => is_err(p_block_body(chars@, i as int, d as nat), f@),
        },
    decreases d, 57int, chars.len() - i,
{
    if d == 0 {
        return Err(report_too_deep(i));
    }
    let k = scan(chars, i, CharClass::Blank);
    let c = peek(chars, k);
    if c == '}' {
        let v: Vec<Structure> = Vec::new();
        assert(structure_models(v@) =~= Seq::empty());
        Ok((v, k + 1))
    } else if c == '\n' {
        match parse_structures(chars, k + 1, d - 1, true) {
            Err(f) => Err(f),
            Ok((items, e)) => Ok((items, e + 1)),
        }
    } else if ident_start(c) {
        proof {
            lemma_ident_run(chars@, k as int);
        }
        let j = scan(chars, k + 1, CharClass::Ident);
        let m = scan(chars, j, CharClass::Blank);
        if peek(chars, m) != '=' {
            return Err(fail_one(m, Category::Attribute, Expected::Char('=')));
        }
        let v0 = scan(chars, m + 1, CharClass::Blank);
        match parse_expr(chars, v0, d - 1) {
            Err(f) => Err(f),
            Ok((v, e)) => {
                let n = scan(chars, e, CharClass::Blank);
                if peek(chars, n) == '}' {
                    let key = Identifier::from_chars(chars, k, j);
                    let mut items: Vec<Structure> = Vec::new();
                    let st = Structure::Attribute(Attribute { key, value: v });
                    items.push(st);
                    assert(structure_models(items@) =~= seq![st@]);
                    Ok((items, n + 1))
                } else {
                    Err(fail_one(n, Category::BlockBody, Expected::Char('}')))
                }
            },
        }
    } else {
        Err(fail_none_of(k, Category::BlockBody, Options::Body))
    }
}

/// What parsing a document returns, with a failure brought into the form
/// in which it is reported.
pub open spec fn body_outcome(s: Seq<char>) -> Result<Seq<StructureModel>, ParseErrorView> {
    match parse_body_spec(s) {
        Ok(body) => Ok(body),
        Err(f) => Err(located(s, f)),
    }
}

/// What parsing a text that holds one expression returns, with a failure
/// brought into the form in which it is reported.
pub open spec fn expression_outcome(s: Seq<char>) -> Result<ExprModel, ParseErrorView> {
    match parse_expression_spec(s) {
        Ok(e) => Ok(e),
        Err(f) => Err(located(s, f)),
    }
}

/// Parses a document: attributes and blocks, each on lines of its own, up
/// to the end of the input. Returns the body that the grammar finds in the
/// input, which is a valid tree, or the one failure that it reports for it.
pub fn parse_body(input: &str) -> (r: Result<Body, ParseError>)
    ensures
        match r {
            Ok(body) => body_outcome(input@) == Ok::<Seq<StructureModel>, ParseErrorView>(body@) && valid_body(
                body@,
                MAX_DEPTH as nat,
            ),
            Err(e) => body_outcome(input@) == Err::<Seq<StructureModel>, ParseErrorView>(e@),
        },
{
    proof {
        lemma_sound_body(input@, 0, MAX_DEPTH as nat, false, Seq::empty());
    }
    let chars = chars_of(input);
    let byte_count = input.as_bytes().len();
    assert(encode_utf8(chars@).len() == byte_count);
    match parse_structures(&chars, 0, MAX_DEPTH, false) {
        Ok((structures, _)) => Ok(Body { structures }),
        Err(f) => Err(locate(&chars, f)),
    }
}

/// Parses a text that holds one expression and white space around it.
/// Returns the expression that the grammar finds in the input, or the one
/// failure that it reports for it.
pub fn parse_expression(input: &str) -> (r: Result<Expression, ParseError>)
    ensures
        match r {
            Ok(e) => expression_outcome(input@) == Ok::<ExprModel, ParseErrorView>(e@) && valid_expr(
                e@,
                MAX_DEPTH as nat,
            ),
            Err(e) => expression_outcome(input@) == Err::<ExprModel, ParseErrorView>(e@),
        },
{
    proof {
        lemma_sound_expr(input@, skip_space(input@, 0), MAX_DEPTH as nat);
    }
    let chars = chars_of(input);
    let byte_count = input.as_bytes().len();
    assert(encode_utf8(chars@).len() == byte_count);
    let start = scan(&chars, 0, CharClass::Space);
    match parse_expr(&chars, start, MAX_DEPTH) {
        Err(f) => Err(locate(&chars, f)),
        Ok((e, j)) => {
            let k = scan(&chars, j, CharClass::Space);
            if k >= chars.len() {
                Ok(e)
            } else {
                Err(locate(&chars, fail_one(k, Category::Expression, Expected::EndOfInput)))
            }
        },
    }
}

} // verus!
