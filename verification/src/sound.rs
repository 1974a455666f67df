//! What the parser accepts is a tree of the grammar: whatever the parser
//! returns is valid, so that its text is read back as the same tree.

use crate::grammar::{
    advances, key_of, op_at, p_arguments, p_binary, p_binary_loop, p_block_body, p_body, p_elements, p_expr,
    p_heredoc, p_labels, p_lines, p_object_items, p_ops, p_parts, p_postfix, p_primary, p_string, p_structure,
    p_unary, rank_binary, scan_lit, skip_blank, skip_space,
};
use crate::model::{
    closes, is_ident, joins, level, valid_body, valid_expr, valid_item, valid_label, valid_line, valid_op,
    valid_part, valid_structure, ExprModel, ItemModel, LabelModel, OpModel, PartModel, StructureModel,
};
use crate::readback::lemma_keywords;
use crate::readback_expr::with_literal;
use crate::scanner::lemma_ident_run;
use crate::text::{
    at, has_at, in_class, is_digit, is_ident_char, is_ident_start, lemma_run_end, lemma_run_end_is, run_end,
    CharClass,
};
use vstd::prelude::*;

verus! {

/// Behind `j` stands, after blanks, no binary operator that binds as tightly
/// as `m`.
pub open spec fn quiet(s: Seq<char>, j: int, m: int) -> bool {
    match op_at(s, skip_blank(s, j)) {
        Some(op) => op.precedence() < m,
        None => true,
    }
}

/// The fragments `acc` that have been read of a template can go on: they
/// are valid, literal text is followed by an interpolation, and the last of
/// them is an interpolation.
pub open spec fn parts_ok(acc: Seq<PartModel>, d: nat) -> bool {
    &&& acc.len() > 0 ==> d > 0 && acc.last() is Interpolation
    &&& forall|n: int| 0 <= n < acc.len() ==> valid_part(#[trigger] acc[n], (d - 1) as nat)
    &&& forall|n: int| 0 <= n < acc.len() - 1 ==> #[trigger] joins(acc, n)
}

/// An expression that the parser returns is valid.
#[verifier::rlimit(40)]
pub proof fn lemma_sound_expr(s: Seq<char>, i: int, d: nat)
    ensures
        p_expr(s, i, d) matches Ok((e, j)) ==> valid_expr(e, d),
    decreases d, 40int, s.len() - i,
{
    lemma_sound_binary(s, i, d, 1);
    match p_binary(s, i, d, 1) {
        Ok((c, j)) => {
            let q = skip_blank(s, j);
            if at(s, q) == '?' && d > 0 {
                let dd = (d - 1) as nat;
                lemma_sound_expr(s, skip_blank(s, q + 1), dd);
                match p_expr(s, skip_blank(s, q + 1), dd) {
                    Ok((a, ja)) => {
                        let c2 = skip_blank(s, ja);
                        lemma_sound_expr(s, skip_blank(s, c2 + 1), dd);
                    },
                    Err(_) => {},
                }
            }
        },
        Err(_) => {},
    }
}

/// What the parser returns at level `m` is valid, of level `m` or above,
/// and followed by no operator that would continue it.
#[verifier::rlimit(40)]
pub proof fn lemma_sound_binary(s: Seq<char>, i: int, d: nat, m: int)
    requires
        1 <= m <= 7,
    ensures
        p_binary(s, i, d, m) matches Ok((e, j)) ==> valid_expr(e, d) && level(e) >= m && quiet(s, j, m),
    decreases d, rank_binary(m), s.len() - i,
{
    lemma_sound_unary(s, i, d);
    match p_unary(s, i, d) {
        Ok((u, j)) => {
            lemma_sound_loop(s, j, d, m, u);
        },
        Err(_) => {},
    }
}

/// What a chain of binary operations becomes is valid, where what has been
/// read of it is.
#[verifier::rlimit(40)]
pub proof fn lemma_sound_loop(s: Seq<char>, j: int, d: nat, m: int, lhs: ExprModel)
    requires
        1 <= m <= 7,
        valid_expr(lhs, d),
        level(lhs) >= m,
        quiet(s, j, level(lhs) + 1),
    ensures
        p_binary_loop(s, j, d, m, lhs) matches Ok((e, k)) ==> valid_expr(e, d) && level(e) >= m && quiet(s, k, m),
    decreases d, rank_binary(m) - 1, s.len() - j,
{
    let q = skip_blank(s, j);
    match op_at(s, q) {
        Some(op) => {
            if op.precedence() >= m {
                let p = op.precedence();
                let r0 = skip_blank(s, q + op.symbol().len());
                lemma_sound_binary(s, r0, d, p + 1);
                match p_binary(s, r0, d, p + 1) {
                    Ok((rhs, e)) => {
                        if advances(s, j, e) {
                            let next = ExprModel::Binary(Box::new(lhs), op, Box::new(rhs));
                            assert(valid_expr(next, d));
                            lemma_sound_loop(s, e, d, m, next);
                        }
                    },
                    Err(_) => {},
                }
            }
        },
        None => {},
    }
}

/// What the parser returns where a unary operation may stand is valid and
/// of the level of unary operations or above.
#[verifier::rlimit(40)]
pub proof fn lemma_sound_unary(s: Seq<char>, i: int, d: nat)
    ensures
        p_unary(s, i, d) matches Ok((e, j)) ==> valid_expr(e, d) && level(e) >= 7,
    decreases d, 10int, s.len() - i,
{
    let c = at(s, i);
    if c == '-' || c == '!' {
        if d > 0 {
            lemma_sound_unary(s, skip_blank(s, i + 1), (d - 1) as nat);
        }
    } else {
        lemma_sound_postfix(s, i, d);
    }
}

/// What the parser returns where a traversal may stand is valid and of the
/// level of traversals or above.
#[verifier::rlimit(40)]
pub proof fn lemma_sound_postfix(s: Seq<char>, i: int, d: nat)
    ensures
        p_postfix(s, i, d) matches Ok((e, j)) ==> valid_expr(e, d) && level(e) >= 8,
    decreases d, 9int, s.len() - i,
{
    lemma_sound_primary(s, i, d);
    match p_primary(s, i, d) {
        Ok((base, j)) => {
            lemma_sound_ops(s, j, d, Seq::empty());
        },
        Err(_) => {},
    }
}

/// The traversal steps that the parser returns are valid.
#[verifier::rlimit(40)]
pub proof fn lemma_sound_ops(s: Seq<char>, j: int, d: nat, acc: Seq<OpModel>)
    requires
        forall|n: int| 0 <= n < acc.len() ==> valid_op(#[trigger] acc[n], d),
    ensures
        p_ops(s, j, d, acc) matches Ok((ops, e)) ==> forall|n: int| 0 <= n < ops.len() ==> valid_op(#[trigger] ops[n], d),
    decreases d, 7int, s.len() - j, 1int,
{
    let c = at(s, j);
    if c == '.' && !(at(s, j + 1) == '.' && at(s, j + 2) == '.') {
        let c1 = at(s, j + 1);
        if c1 == '*' {
            if advances(s, j, j + 2) {
                lemma_sound_ops(s, j + 2, d, acc.push(OpModel::AttrSplat));
            }
        } else if is_ident_start(c1) {
            let e = run_end(s, j + 2, CharClass::Ident);
            if advances(s, j, e) {
                lemma_ident_run(s, j + 1);
                lemma_sound_ops(s, e, d, acc.push(OpModel::GetAttr(s.subrange(j + 1, e))));
            }
        } else if is_digit(c1) {
            let e = run_end(s, j + 2, CharClass::Digit);
            let v = crate::text::decimal_value(s.subrange(j + 1, e));
            if v <= u64::MAX && advances(s, j, e) {
                lemma_sound_ops(s, e, d, acc.push(OpModel::LegacyIndex(v as u64)));
            }
        }
    } else if c == '[' {
        let q = skip_space(s, j + 1);
        if at(s, q) == '*' {
            let q2 = skip_space(s, q + 1);
            if at(s, q2) == ']' {
                if advances(s, j, q2 + 1) {
                    lemma_sound_ops(s, q2 + 1, d, acc.push(OpModel::FullSplat));
                }
            } else if d > 0 {
                lemma_sound_index(s, j, d, acc, q);
            }
        } else if d > 0 {
            lemma_sound_index(s, j, d, acc, q);
        }
    }
}

/// The traversal steps that the parser returns behind an index are valid.
#[verifier::rlimit(40)]
pub proof fn lemma_sound_index(s: Seq<char>, j: int, d: nat, acc: Seq<OpModel>, q: int)
    requires
        forall|n: int| 0 <= n < acc.len() ==> valid_op(#[trigger] acc[n], d),
        d > 0,
    ensures
        p_expr(s, q, (d - 1) as nat) matches Ok((e, je)) ==> (advances(s, j, skip_space(s, je) + 1) ==> (p_ops(
            s,
            skip_space(s, je) + 1,
            d,
            acc.push(OpModel::Index(e)),
        ) matches Ok((ops, k)) ==> forall|n: int| 0 <= n < ops.len() ==> valid_op(#[trigger] ops[n], d))),
    decreases d, 7int, s.len() - j, 0int,
{
    lemma_sound_expr(s, q, (d - 1) as nat);
    match p_expr(s, q, (d - 1) as nat) {
        Ok((e, je)) => {
            let q3 = skip_space(s, je);
            if advances(s, j, q3 + 1) {
                lemma_sound_ops(s, q3 + 1, d, acc.push(OpModel::Index(e)));
            }
        },
        Err(_) => {},
    }
}

/// What the parser returns where a primary expression stands is valid and
/// complete in itself.
#[verifier::rlimit(40)]
pub proof fn lemma_sound_primary(s: Seq<char>, i: int, d: nat)
    ensures
        p_primary(s, i, d) matches Ok((e, j)) ==> valid_expr(e, d) && level(e) == 9,
    decreases d, 8int, s.len() - i,
{
    let c = at(s, i);
    if c == '"' {
        lemma_sound_parts(s, i + 1, d, Seq::empty());
    } else if c == '[' {
        if d > 0 {
            let q = skip_space(s, i + 1);
            if at(s, q) != ']' {
                lemma_sound_elements(s, q, (d - 1) as nat, Seq::empty());
            }
        }
    } else if c == '{' {
        if d > 0 {
            let q = skip_space(s, i + 1);
            if at(s, q) != '}' {
                lemma_sound_object_items(s, q, (d - 1) as nat, Seq::empty());
            }
        }
    } else if c == '(' {
        if d > 0 {
            lemma_sound_expr(s, skip_space(s, i + 1), (d - 1) as nat);
        }
    } else if c == '<' {
        lemma_sound_heredoc(s, i);
    } else if is_digit(c) {
    } else if is_ident_start(c) {
        lemma_ident_run(s, i);
        lemma_keywords();
        let e = run_end(s, i + 1, CharClass::Ident);
        if at(s, e) == '(' && d > 0 {
            let q = skip_space(s, e + 1);
            if at(s, q) != ')' {
                lemma_sound_arguments(s, q, (d - 1) as nat, Seq::empty());
            }
        }
    }
}

/// The expression that the parser makes of the fragments of a quoted
/// string is valid.
#[verifier::rlimit(40)]
pub proof fn lemma_sound_parts(s: Seq<char>, i: int, d: nat, acc: Seq<PartModel>)
    requires
        parts_ok(acc, d),
    ensures
        p_parts(s, i, d, acc) matches Ok((e, j)) ==> valid_expr(e, d) && level(e) == 9,
    decreases d, 5int, s.len() - i,
{
    match scan_lit(s, i, Seq::empty()) {
        Ok((t, j)) => {
            let acc1 = with_literal(acc, t);
            assert forall|n: int| 0 <= n < acc1.len() implies valid_part(#[trigger] acc1[n], (d - 1) as nat) by {
                if n < acc.len() {
                    assert(valid_part(acc[n], (d - 1) as nat));
                }
            }
            assert forall|n: int| 0 <= n < acc1.len() - 1 implies #[trigger] joins(acc1, n) by {
                if n < acc.len() - 1 {
                    assert(joins(acc, n));
                }
            }
            if at(s, j) == '"' {
                if acc1.len() > 0 {
                    assert(acc1[0] is Interpolation || acc1.len() == 1 || acc.len() > 0);
                }
            } else if at(s, j) == '$' && d > 0 {
                let dd = (d - 1) as nat;
                lemma_sound_expr(s, skip_space(s, j + 2), dd);
                match p_expr(s, skip_space(s, j + 2), dd) {
                    Ok((e, je)) => {
                        let q = skip_space(s, je);
                        if at(s, q) == '}' && advances(s, i, q + 1) {
                            let acc2 = acc1.push(PartModel::Interpolation(e));
                            assert forall|n: int| 0 <= n < acc2.len() implies valid_part(
                                #[trigger] acc2[n],
                                dd,
                            ) by {
                                if n < acc1.len() {
                                    assert(valid_part(acc1[n], dd));
                                }
                            }
                            assert forall|n: int| 0 <= n < acc2.len() - 1 implies #[trigger] joins(acc2, n) by {
                                if n < acc1.len() - 1 {
                                    assert(joins(acc1, n));
                                }
                            }
                            lemma_sound_parts(s, q + 1, d, acc2);
                        }
                    },
                    Err(_) => {},
                }
            }
        },
        Err(_) => {},
    }
}

/// The elements of an array that the parser returns are valid.
#[verifier::rlimit(40)]
pub proof fn lemma_sound_elements(s: Seq<char>, i: int, d: nat, acc: Seq<ExprModel>)
    requires
        forall|n: int| 0 <= n < acc.len() ==> valid_expr(#[trigger] acc[n], d),
    ensures
        p_elements(s, i, d, acc) matches Ok((items, j)) ==> forall|n: int|
            0 <= n < items.len() ==> valid_expr(#[trigger] items[n], d),
    decreases d, 45int, s.len() - i,
{
    lemma_sound_expr(s, i, d);
    match p_expr(s, i, d) {
        Ok((e, j)) => {
            let q = skip_space(s, j);
            if at(s, q) == ',' {
                let q2 = skip_space(s, q + 1);
                if at(s, q2) != ']' && advances(s, i, q2) {
                    lemma_sound_elements(s, q2, d, acc.push(e));
                }
            }
        },
        Err(_) => {},
    }
}

/// The arguments of a function call that the parser returns are valid, and
/// there is at least one of them.
#[verifier::rlimit(40)]
pub proof fn lemma_sound_arguments(s: Seq<char>, i: int, d: nat, acc: Seq<ExprModel>)
    requires
        forall|n: int| 0 <= n < acc.len() ==> valid_expr(#[trigger] acc[n], d),
    ensures
        p_arguments(s, i, d, acc) matches Ok((r, j)) ==> r.0.len() > 0 && forall|n: int|
            0 <= n < r.0.len() ==> valid_expr(#[trigger] r.0[n], d),
    decreases d, 45int, s.len() - i,
{
    lemma_sound_expr(s, i, d);
    match p_expr(s, i, d) {
        Ok((e, j)) => {
            let q = skip_space(s, j);
            if at(s, q) == ',' {
                let q2 = skip_space(s, q + 1);
                if at(s, q2) != ')' && advances(s, i, q2) {
                    lemma_sound_arguments(s, q2, d, acc.push(e));
                }
            }
        },
        Err(_) => {},
    }
}

/// The items of an object that the parser returns are valid.
#[verifier::rlimit(40)]
pub proof fn lemma_sound_object_items(s: Seq<char>, i: int, d: nat, acc: Seq<ItemModel>)
    requires
        forall|n: int| 0 <= n < acc.len() ==> valid_item(#[trigger] acc[n], d),
    ensures
        p_object_items(s, i, d, acc) matches Ok((items, j)) ==> forall|n: int|
            0 <= n < items.len() ==> valid_item(#[trigger] items[n], d),
    decreases d, 45int, s.len() - i,
{
    lemma_sound_expr(s, i, d);
    match p_expr(s, i, d) {
        Ok((k, j)) => {
            let q = skip_blank(s, j);
            if at(s, q) == '=' {
                lemma_sound_expr(s, skip_blank(s, q + 1), d);
                match p_expr(s, skip_blank(s, q + 1), d) {
                    Ok((v, jv)) => {
                        let item = ItemModel { key: key_of(k), value: v };
                        assert(valid_item(item, d));
                        let q2 = skip_blank(s, jv);
                        let c = at(s, q2);
                        if c == ',' || c == '\n' {
                            let q3 = skip_space(s, q2 + 1);
                            if at(s, q3) != '}' && advances(s, i, q3) {
                                lemma_sound_object_items(s, q3, d, acc.push(item));
                            }
                        }
                    },
                    Err(_) => {},
                }
            }
        },
        Err(_) => {},
    }
}

/// The lines of a heredoc that the parser returns are valid: none of them
/// closes the heredoc.
#[verifier::rlimit(40)]
pub proof fn lemma_sound_lines(s: Seq<char>, i: int, delimiter: Seq<char>, acc: Seq<Seq<char>>)
    requires
        forall|n: int| 0 <= n < acc.len() ==> valid_line(#[trigger] acc[n], delimiter),
    ensures
        p_lines(s, i, delimiter, acc) matches Ok((lines, j)) ==> forall|n: int|
            0 <= n < lines.len() ==> valid_line(#[trigger] lines[n], delimiter),
    decreases s.len() - i,
{
    if 0 <= i < s.len() {
        let b = skip_blank(s, i);
        if !(has_at(s, b, delimiter) && !is_ident_char(at(s, b + delimiter.len()))) {
            let e = run_end(s, i, CharClass::Line);
            if advances(s, i, e + 1) {
                let line = s.subrange(i, e);
                lemma_run_end(s, i, CharClass::Line);
                assert forall|k: int| 0 <= k < line.len() implies #[trigger] line[k] != '\n' by {
                    assert(in_class(CharClass::Line, s[i + k]));
                }
                if closes(line, delimiter) {
                    // Then the scanner would have found the delimiter here.
                    let kl = run_end(line, 0, CharClass::Blank);
                    lemma_run_end(line, 0, CharClass::Blank);
                    assert forall|n: int| i <= n < i + kl implies in_class(CharClass::Blank, #[trigger] s[n]) by {
                        assert(s[n] == line[n - i]);
                    }
                    if kl < line.len() {
                        assert(s[i + kl] == line[kl]);
                    } else {
                        assert(s[e] == '\n');
                    }
                    lemma_run_end_is(s, i, i + kl, CharClass::Blank);
                    assert(b == i + kl);
                    assert forall|n: int| 0 <= n < delimiter.len() implies s[b + n] == #[trigger] delimiter[n] by {
                        assert(line[kl + n] == delimiter[n]);
                        assert(s[i + (kl + n)] == line[kl + n]);
                    }
                    assert(has_at(s, b, delimiter));
                    if kl + delimiter.len() < line.len() {
                        assert(s[i + (kl + delimiter.len())] == line[kl + delimiter.len()]);
                    } else {
                        assert(s[e] == '\n');
                    }
                    assert(false);
                }
                assert forall|n: int| 0 <= n < acc.push(line).len() implies valid_line(
                    #[trigger] acc.push(line)[n],
                    delimiter,
                ) by {
                    if n < acc.len() {
                        assert(valid_line(acc[n], delimiter));
                    }
                }
                lemma_sound_lines(s, e + 1, delimiter, acc.push(line));
            }
        }
    }
}

/// A heredoc that the parser returns is valid.
#[verifier::rlimit(40)]
pub proof fn lemma_sound_heredoc(s: Seq<char>, i: int)
    ensures
        p_heredoc(s, i) matches Ok((e, j)) ==> level(e) == 9 && forall|d: nat| valid_expr(e, d),
{
    if at(s, i + 1) == '<' {
        let indented = at(s, i + 2) == '-';
        let n0 = if indented {
            i + 3
        } else {
            i + 2
        };
        if is_ident_start(at(s, n0)) {
            lemma_ident_run(s, n0);
            let n1 = run_end(s, n0 + 1, CharClass::Ident);
            let n2 = skip_blank(s, n1);
            if at(s, n2) == '\n' {
                lemma_sound_lines(s, n2 + 1, s.subrange(n0, n1), Seq::empty());
            }
        }
    }
}

/// The structures of a body that the parser returns are valid.
#[verifier::rlimit(40)]
pub proof fn lemma_sound_body(s: Seq<char>, i: int, d: nat, in_block: bool, acc: Seq<StructureModel>)
    requires
        valid_body(acc, d),
    ensures
        p_body(s, i, d, in_block, acc) matches Ok((body, j)) ==> valid_body(body, d),
    decreases d, 60int, s.len() - i,
{
    let k = skip_space(s, i);
    if 0 <= k < s.len() && !(in_block && s[k] == '}') && is_ident_start(s[k]) {
        lemma_sound_structure(s, k, d);
        match p_structure(s, k, d) {
            Ok((st, e)) => {
                let n = skip_blank(s, e);
                if !(0 <= n < s.len() && s[n] != '\n') {
                    let next = if n < s.len() {
                        n + 1
                    } else {
                        n
                    };
                    if advances(s, i, next) {
                        assert forall|m: int| 0 <= m < acc.push(st).len() implies valid_structure(
                            #[trigger] acc.push(st)[m],
                            d,
                        ) by {
                            if m < acc.len() {
                                assert(valid_structure(acc[m], d));
                            }
                        }
                        lemma_sound_body(s, next, d, in_block, acc.push(st));
                    }
                }
            },
            Err(_) => {},
        }
    }
}

/// A structure that the parser returns is valid.
#[verifier::rlimit(40)]
pub proof fn lemma_sound_structure(s: Seq<char>, i: int, d: nat)
    requires
        0 <= i < s.len(),
        is_ident_start(s[i]),
    ensures
        p_structure(s, i, d) matches Ok((st, j)) ==> valid_structure(st, d),
    decreases d, 59int, s.len() - i,
{
    lemma_ident_run(s, i);
    let j = run_end(s, i + 1, CharClass::Ident);
    let k = skip_blank(s, j);
    if at(s, k) == '=' {
        lemma_sound_expr(s, skip_blank(s, k + 1), d);
    } else {
        lemma_sound_labels(s, k, d, s.subrange(i, j), Seq::empty());
    }
}

/// A block that the parser returns is valid.
#[verifier::rlimit(40)]
pub proof fn lemma_sound_labels(s: Seq<char>, k: int, d: nat, name: Seq<char>, acc: Seq<LabelModel>)
    requires
        is_ident(name),
        forall|n: int| 0 <= n < acc.len() ==> valid_label(#[trigger] acc[n]),
    ensures
        p_labels(s, k, d, name, acc) matches Ok((st, j)) ==> valid_structure(st, d),
    decreases d, 58int, s.len() - k,
{
    let c = at(s, k);
    if c == '{' {
        lemma_sound_block_body(s, k + 1, d);
    } else if c == '"' {
        match p_string(s, k + 1) {
            Ok((t, e)) => {
                let next = skip_blank(s, e);
                if advances(s, k, next) {
                    lemma_sound_labels(s, next, d, name, acc.push(LabelModel::String(t)));
                }
            },
            Err(_) => {},
        }
    } else if is_ident_start(c) {
        let e = run_end(s, k + 1, CharClass::Ident);
        let next = skip_blank(s, e);
        if advances(s, k, next) {
            lemma_ident_run(s, k);
            lemma_sound_labels(s, next, d, name, acc.push(LabelModel::Identifier(s.subrange(k, e))));
        }
    }
}

/// The body of a block that the parser returns is valid one level deeper.
#[verifier::rlimit(40)]
pub proof fn lemma_sound_block_body(s: Seq<char>, i: int, d: nat)
    ensures
        p_block_body(s, i, d) matches Ok((body, j)) ==> d > 0 && valid_body(body, (d - 1) as nat),
    decreases d, 57int, s.len() - i,
{
    if d > 0 {
        let dd = (d - 1) as nat;
        let k = skip_blank(s, i);
        let c = at(s, k);
        if c == '}' {
        } else if c == '\n' {
            lemma_sound_body(s, k + 1, dd, true, Seq::empty());
        } else if is_ident_start(c) {
            lemma_ident_run(s, k);
            let j = run_end(s, k + 1, CharClass::Ident);
            let m = skip_blank(s, j);
            if at(s, m) == '=' {
                lemma_sound_expr(s, skip_blank(s, m + 1), dd);
            }
        }
    }
}

} // verus!
