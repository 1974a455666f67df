//! Reading back expressions: for each level of the grammar, the parser
//! finds in the text of a valid expression the expression itself.

use crate::format::{
    deeper, escape_lit, fmt_expr, fmt_item, fmt_items, fmt_items_wide, fmt_key, fmt_list, fmt_op, fmt_ops,
    fmt_part, fmt_parts, interpolation_follows,
};
use crate::grammar::{
    advances, finish, key_of, op_at, p_arguments, p_binary, p_binary_loop, p_elements, p_expr, p_object_items,
    p_ops, p_parts, p_postfix, p_primary, p_unary, scan_lit, skip_blank, skip_space,
};
use crate::model::{
    is_ident, is_keyword, joins, level, valid_expr, valid_item, valid_op, valid_part, ExprModel, ItemModel,
    KeyModel, OpModel, PartModel,
};
use crate::readback::{
    lemma_first, lemma_follows, lemma_follows_weaker, lemma_heredoc, lemma_number, lemma_op_at, lemma_string,
    lemma_word, ok,
};
use crate::roundtrip::{
    all_blank, follows, lemma_at, lemma_decimal_end, lemma_ident_end, lemma_scan_part, lemma_skip_none,
    lemma_skip_over, lemma_skip_space_char, lemma_split3, lemma_split4, lemma_split5, starts_expr,
};
use crate::text::{at, decimal, has_at, is_ident_char, is_ident_start, lemma_decimal, lemma_has_at_concat, CharClass};
use vstd::prelude::*;

verus! {

/// The indentation handed to the formatter, if any, is made of blanks.
pub open spec fn layout_ok(wide: Option<Seq<char>>) -> bool {
    wide matches Some(p) ==> all_blank(p)
}

/// No identifier runs on at `j`, and no call starts.
pub open spec fn token_end(s: Seq<char>, j: int) -> bool {
    !is_ident_char(at(s, j)) && at(s, j) != '('
}

/// No traversal step starts at `j`.
pub open spec fn ops_end(s: Seq<char>, j: int) -> bool {
    &&& token_end(s, j)
    &&& at(s, j) != '['
    &&& at(s, j) == '.' ==> at(s, j + 1) == '.' && at(s, j + 2) == '.'
}

/// The expression that is read where a key stands.
pub open spec fn key_expr(key: KeyModel) -> ExprModel {
    match key {
        KeyModel::Identifier(n) => ExprModel::Variable(n),
        KeyModel::Expression(e) => e,
    }
}

/// An expression is read back.
#[verifier::rlimit(40)]
pub proof fn lemma_expr(s: Seq<char>, i: int, d: nat, e: ExprModel, wide: Option<Seq<char>>)
    requires
        valid_expr(e, d),
        layout_ok(wide),
        has_at(s, i, fmt_expr(e, wide)),
        follows(s, i + fmt_expr(e, wide).len(), 0),
    ensures
        p_expr(s, i, d) == ok(e, i + fmt_expr(e, wide).len()),
    decreases e, 6int,
{
    let j = i + fmt_expr(e, wide).len();
    match e {
        ExprModel::Conditional(c, a, b) => {
            let fc = fmt_expr(*c, None);
            let fa = fmt_expr(*a, None);
            let fb = fmt_expr(*b, None);
            let q1 = seq![' ', '?', ' '];
            let q2 = seq![' ', ':', ' '];
            let dd = (d - 1) as nat;
            lemma_split5(s, i, fc, q1, fa, q2, fb);
            let jc = i + fc.len();
            lemma_at(s, jc, q1, 0);
            lemma_at(s, jc, q1, 1);
            lemma_at(s, jc, q1, 2);
            assert(follows(s, jc, 1));
            lemma_level(s, i, d, *c, None, 1);
            lemma_skip_space_char(s, jc);
            lemma_first(*a, dd, None);
            lemma_at(s, jc + 3, fa, 0);
            lemma_skip_space_char(s, jc + 2);
            let ja = jc + 3 + fa.len();
            lemma_at(s, ja, q2, 0);
            lemma_at(s, ja, q2, 1);
            lemma_at(s, ja, q2, 2);
            assert(follows(s, ja, 0));
            lemma_expr(s, jc + 3, dd, *a, None);
            lemma_skip_space_char(s, ja);
            lemma_first(*b, dd, None);
            lemma_at(s, ja + 3, fb, 0);
            lemma_skip_space_char(s, ja + 2);
            lemma_expr(s, ja + 3, dd, *b, None);
            assert(p_binary(s, i, d, 1) == ok(*c, jc));
            assert(skip_blank(s, jc) == jc + 1);
            assert(at(s, jc + 1) == '?');
            assert(skip_blank(s, jc + 2) == jc + 3);
            assert(p_expr(s, jc + 3, dd) == ok(*a, ja));
            assert(skip_blank(s, ja) == ja + 1);
            assert(at(s, ja + 1) == ':');
            assert(skip_blank(s, ja + 2) == ja + 3);
            assert(p_expr(s, ja + 3, dd) == ok(*b, j));
        },
        _ => {
            lemma_follows_weaker(s, j, 0, 1);
            lemma_level(s, i, d, e, wide, 1);
            lemma_follows(s, j, 0);
        },
    }
}

/// An expression of level `m` or above is read back at level `m`.
pub proof fn lemma_level(s: Seq<char>, i: int, d: nat, e: ExprModel, wide: Option<Seq<char>>, m: int)
    requires
        valid_expr(e, d),
        layout_ok(wide),
        has_at(s, i, fmt_expr(e, wide)),
        1 <= m <= 7,
        level(e) >= m,
        follows(s, i + fmt_expr(e, wide).len(), m),
    ensures
        p_binary(s, i, d, m) == ok(e, i + fmt_expr(e, wide).len()),
    decreases e, 5int,
{
    let j = i + fmt_expr(e, wide).len();
    lemma_follows_weaker(s, j, m, level(e) + 1);
    lemma_chain(s, i, d, e, wide, m);
    lemma_follows(s, j, m);
}

/// Reading at level `m` gets as far as the end of an expression of that
/// level or above with that expression as what has been read so far.
#[verifier::rlimit(40)]
pub proof fn lemma_chain(s: Seq<char>, i: int, d: nat, e: ExprModel, wide: Option<Seq<char>>, m: int)
    requires
        valid_expr(e, d),
        layout_ok(wide),
        has_at(s, i, fmt_expr(e, wide)),
        1 <= m <= 7,
        level(e) >= m,
        follows(s, i + fmt_expr(e, wide).len(), level(e) + 1),
    ensures
        p_binary(s, i, d, m) == p_binary_loop(s, i + fmt_expr(e, wide).len(), d, m, e),
    decreases e, 4int,
{
    let j = i + fmt_expr(e, wide).len();
    match e {
        ExprModel::Binary(l, op, r) => {
            let fl = fmt_expr(*l, None);
            let fr = fmt_expr(*r, None);
            let sym = op.symbol();
            let p = op.precedence();
            lemma_split5(s, i, fl, seq![' '], sym, seq![' '], fr);
            let jl = i + fl.len();
            let q = jl + 1;
            lemma_at(s, jl, seq![' '], 0);
            lemma_at(s, q + sym.len(), seq![' '], 0);
            lemma_op_at(s, q, op);
            assert(follows(s, jl, level(*l) + 1));
            lemma_chain(s, i, d, *l, None, m);
            lemma_skip_space_char(s, jl);
            lemma_first(*r, d, None);
            let r0 = q + sym.len() + 1;
            lemma_at(s, r0, fr, 0);
            lemma_skip_space_char(s, q + sym.len());
            lemma_level(s, r0, d, *r, None, p + 1);
            assert(skip_blank(s, jl) == q);
            assert(op_at(s, q) == Some(op));
            assert(skip_blank(s, q + sym.len()) == r0);
            assert(p_binary(s, r0, d, p + 1) == ok(*r, j));
            assert(advances(s, jl, j));
            assert(p_binary_loop(s, jl, d, m, *l) == p_binary_loop(s, j, d, m, e));
        },
        _ => {
            lemma_follows_weaker(s, j, level(e) + 1, 10);
            lemma_unary(s, i, d, e, wide);
        },
    }
}

/// A unary operation, or what stands where its operand would, is read back.
#[verifier::rlimit(40)]
pub proof fn lemma_unary(s: Seq<char>, i: int, d: nat, e: ExprModel, wide: Option<Seq<char>>)
    requires
        valid_expr(e, d),
        layout_ok(wide),
        has_at(s, i, fmt_expr(e, wide)),
        level(e) >= 7,
        follows(s, i + fmt_expr(e, wide).len(), 10),
    ensures
        p_unary(s, i, d) == ok(e, i + fmt_expr(e, wide).len()),
    decreases e, 3int,
{
    match e {
        ExprModel::Unary(op, x) => {
            let fx = fmt_expr(*x, None);
            let dd = (d - 1) as nat;
            lemma_has_at_concat(s, i, seq![op.symbol()], fx);
            lemma_at(s, i, seq![op.symbol()], 0);
            lemma_first(*x, dd, None);
            lemma_at(s, i + 1, fx, 0);
            lemma_skip_none(s, i + 1, CharClass::Blank);
            lemma_unary(s, i + 1, dd, *x, None);
        },
        _ => {
            lemma_first(e, d, wide);
            lemma_at(s, i, fmt_expr(e, wide), 0);
            lemma_postfix(s, i, d, e, wide);
        },
    }
}

/// The first character of the text of traversal steps.
pub proof fn lemma_ops_first(ops: Seq<OpModel>, k: int, d: nat)
    requires
        0 <= k < ops.len(),
        valid_op(ops[k], d),
    ensures
        fmt_ops(ops, k).len() >= fmt_op(ops[k]).len() >= 2,
        fmt_ops(ops, k)[0] == '.' || fmt_ops(ops, k)[0] == '[',
        fmt_ops(ops, k)[0] == fmt_op(ops[k])[0],
        fmt_ops(ops, k)[1] == fmt_op(ops[k])[1],
        fmt_op(ops[k])[0] == '.' ==> fmt_op(ops[k])[1] != '.',
{
    let f = fmt_op(ops[k]);
    assert(fmt_ops(ops, k) == f + fmt_ops(ops, k + 1));
    match ops[k] {
        OpModel::GetAttr(n) => {
            assert(n.len() >= 1);
            assert(f[1] == n[0]);
        },
        OpModel::LegacyIndex(n) => {
            lemma_decimal(n as nat);
            assert(f[1] == decimal(n as nat)[0]);
        },
        OpModel::Index(e) => {
            assert(f.len() >= 2);
        },
        _ => {},
    }
}

/// Where no traversal step starts, none is read.
pub proof fn lemma_no_ops(s: Seq<char>, j: int, d: nat, acc: Seq<OpModel>)
    requires
        at(s, j) != '[',
        at(s, j) == '.' ==> at(s, j + 1) == '.' && at(s, j + 2) == '.',
    ensures
        p_ops(s, j, d, acc) == ok(acc, j),
{
}

/// What a primary expression and the steps behind it make.
pub proof fn lemma_postfix_of(s: Seq<char>, i: int, d: nat, base: ExprModel, jb: int, ops: Seq<OpModel>, j: int)
    requires
        p_primary(s, i, d) == ok(base, jb),
        p_ops(s, jb, d, Seq::empty()) == ok(ops, j),
    ensures
        ops.len() == 0 ==> p_postfix(s, i, d) == ok(base, j),
        ops.len() > 0 ==> p_postfix(s, i, d) == ok(ExprModel::Traversal(Box::new(base), ops), j),
{
}

/// What an opening bracket and the elements behind it make.
pub proof fn lemma_array_of(s: Seq<char>, i: int, d: nat, items: Seq<ExprModel>, j: int)
    requires
        at(s, i) == '[',
        d > 0,
        if at(s, skip_space(s, i + 1)) == ']' {
            items == Seq::<ExprModel>::empty() && j == skip_space(s, i + 1) + 1
        } else {
            p_elements(s, skip_space(s, i + 1), (d - 1) as nat, Seq::empty()) == ok(items, j)
        },
    ensures
        p_primary(s, i, d) == ok(ExprModel::Array(items), j),
{
}

/// What an opening brace and the items behind it make.
pub proof fn lemma_object_of(s: Seq<char>, i: int, d: nat, items: Seq<ItemModel>, j: int)
    requires
        at(s, i) == '{',
        d > 0,
        if at(s, skip_space(s, i + 1)) == '}' {
            items == Seq::<ItemModel>::empty() && j == skip_space(s, i + 1) + 1
        } else {
            p_object_items(s, skip_space(s, i + 1), (d - 1) as nat, Seq::empty()) == ok(items, j)
        },
    ensures
        p_primary(s, i, d) == ok(ExprModel::Object(items), j),
{
}

/// What a name, an opening parenthesis and the arguments behind it make.
pub proof fn lemma_call_of(s: Seq<char>, i: int, d: nat, args: Seq<ExprModel>, expand: bool, j: int)
    requires
        is_ident_start(at(s, i)),
        at(s, crate::text::run_end(s, i + 1, CharClass::Ident)) == '(',
        d > 0,
        ({
            let q = skip_space(s, crate::text::run_end(s, i + 1, CharClass::Ident) + 1);
            if at(s, q) == ')' {
                args == Seq::<ExprModel>::empty() && !expand && j == q + 1
            } else {
                p_arguments(s, q, (d - 1) as nat, Seq::empty()) == ok((args, expand), j)
            }
        }),
    ensures
        p_primary(s, i, d) == ok(
            ExprModel::FuncCall(s.subrange(i, crate::text::run_end(s, i + 1, CharClass::Ident)), args, expand),
            j,
        ),
{
}

/// What a parenthesis around an expression makes.
pub proof fn lemma_paren_of(s: Seq<char>, i: int, d: nat, x: ExprModel, jx: int)
    requires
        at(s, i) == '(',
        d > 0,
        p_expr(s, skip_space(s, i + 1), (d - 1) as nat) == ok(x, jx),
        at(s, skip_space(s, jx)) == ')',
    ensures
        p_primary(s, i, d) == ok(ExprModel::Parenthesis(Box::new(x)), skip_space(s, jx) + 1),
{
}

/// Where an expression ends, no identifier runs on and no traversal step
/// starts.
pub proof fn lemma_ends(s: Seq<char>, j: int)
    requires
        follows(s, j, 10),
    ensures
        token_end(s, j),
        ops_end(s, j),
{
    lemma_follows(s, j, 10);
}

/// A traversal is read back.
#[verifier::rlimit(40)]
pub proof fn lemma_traversal(s: Seq<char>, i: int, d: nat, e: ExprModel)
    requires
        e is Traversal,
        valid_expr(e, d),
        has_at(s, i, fmt_expr(e, None)),
        ops_end(s, i + fmt_expr(e, None).len()),
    ensures
        p_postfix(s, i, d) == ok(e, i + fmt_expr(e, None).len()),
    decreases e, 0int,
{
    match e {
        ExprModel::Traversal(base, ops) => {
            let j = i + fmt_expr(e, None).len();
            let fb = fmt_expr(*base, None);
            lemma_has_at_concat(s, i, fb, fmt_ops(ops, 0));
            let jb = i + fb.len();
            assert(valid_op(ops[0], d));
            lemma_ops_first(ops, 0, d);
            lemma_at(s, jb, fmt_ops(ops, 0), 0);
            assert(token_end(s, jb));
            lemma_primary(s, i, d, *base, None);
            lemma_ops(s, jb, d, ops, 0);
            assert(ops.take(0) =~= Seq::<OpModel>::empty());
            lemma_postfix_of(s, i, d, *base, jb, ops, j);
        },
        _ => {},
    }
}

/// A traversal, or what stands where its base would, is read back.
pub proof fn lemma_postfix(s: Seq<char>, i: int, d: nat, e: ExprModel, wide: Option<Seq<char>>)
    requires
        valid_expr(e, d),
        layout_ok(wide),
        has_at(s, i, fmt_expr(e, wide)),
        level(e) >= 8,
        follows(s, i + fmt_expr(e, wide).len(), 10),
    ensures
        p_postfix(s, i, d) == ok(e, i + fmt_expr(e, wide).len()),
    decreases e, 2int,
{
    let j = i + fmt_expr(e, wide).len();
    lemma_ends(s, j);
    if e is Traversal {
        lemma_traversal(s, i, d, e);
    } else {
        lemma_primary(s, i, d, e, wide);
        lemma_no_ops(s, j, d, Seq::empty());
        lemma_postfix_of(s, i, d, e, j, Seq::empty(), j);
    }
}

/// Traversal steps are read back.
#[verifier::rlimit(40)]
pub proof fn lemma_ops(s: Seq<char>, j0: int, d: nat, ops: Seq<OpModel>, k: int)
    requires
        0 <= k <= ops.len(),
        forall|n: int| 0 <= n < ops.len() ==> valid_op(#[trigger] ops[n], d),
        has_at(s, j0, fmt_ops(ops, k)),
        ops_end(s, j0 + fmt_ops(ops, k).len()),
    ensures
        p_ops(s, j0, d, ops.take(k)) == ok(ops, j0 + fmt_ops(ops, k).len()),
    decreases ops, ops.len() - k,
{
    let acc = ops.take(k);
    let j = j0 + fmt_ops(ops, k).len();
    if k == ops.len() {
        assert(acc =~= ops);
    } else {
        let op = ops[k];
        let fo = fmt_op(op);
        let rest = fmt_ops(ops, k + 1);
        lemma_has_at_concat(s, j0, fo, rest);
        let je = j0 + fo.len();
        // What follows the step starts neither an identifier nor a number.
        if k + 1 < ops.len() {
            assert(valid_op(ops[k + 1], d));
            lemma_ops_first(ops, k + 1, d);
            lemma_at(s, je, rest, 0);
        }
        assert(!is_ident_char(at(s, je)));
        assert(acc.push(op) =~= ops.take(k + 1));
        assert(valid_op(op, d));
        lemma_ops_first(ops, k, d);
        lemma_at(s, j0, fo, 0);
        lemma_at(s, j0, fo, 1);
        lemma_ops(s, je, d, ops, k + 1);
        match op {
            OpModel::AttrSplat => {
                assert(advances(s, j0, j0 + 2));
            },
            OpModel::FullSplat => {
                lemma_at(s, j0, fo, 2);
                lemma_skip_none(s, j0 + 1, CharClass::Space);
                lemma_skip_none(s, j0 + 2, CharClass::Space);
                assert(advances(s, j0, j0 + 3));
            },
            OpModel::GetAttr(n) => {
                lemma_has_at_concat(s, j0, seq!['.'], n);
                lemma_ident_end(s, j0 + 1, n);
                assert(advances(s, j0, je));
            },
            OpModel::LegacyIndex(v) => {
                lemma_has_at_concat(s, j0, seq!['.'], decimal(v as nat));
                lemma_decimal_end(s, j0 + 1, v as nat);
                assert(advances(s, j0, je));
            },
            OpModel::Index(x) => {
                let fx = fmt_expr(x, None);
                let dd = (d - 1) as nat;
                lemma_split3(s, j0, seq!['['], fx, seq![']']);
                lemma_first(x, dd, None);
                lemma_at(s, j0 + 1, fx, 0);
                lemma_skip_none(s, j0 + 1, CharClass::Space);
                let jx = j0 + 1 + fx.len();
                lemma_at(s, jx, seq![']'], 0);
                lemma_expr(s, j0 + 1, dd, x, None);
                lemma_skip_none(s, jx, CharClass::Space);
                assert(advances(s, j0, jx + 1));
            },
        }
    }
}

/// An expression that is complete in itself is read back.
#[verifier::rlimit(40)]
pub proof fn lemma_primary(s: Seq<char>, i: int, d: nat, e: ExprModel, wide: Option<Seq<char>>)
    requires
        valid_expr(e, d),
        layout_ok(wide),
        has_at(s, i, fmt_expr(e, wide)),
        level(e) == 9,
        token_end(s, i + fmt_expr(e, wide).len()),
    ensures
        p_primary(s, i, d) == ok(e, i + fmt_expr(e, wide).len()),
    decreases e, 1int,
{
    match e {
        ExprModel::Null | ExprModel::Bool(_) | ExprModel::Variable(_) => {
            lemma_word(s, i, d, e);
        },
        ExprModel::Number(v) => {
            lemma_number(s, i, d, v);
        },
        ExprModel::Str(t) => {
            lemma_string(s, i, d, t);
        },
        ExprModel::Heredoc(h) => {
            lemma_heredoc(s, i, d, h);
        },
        ExprModel::Array(_) => {
            lemma_array(s, i, d, e);
        },
        ExprModel::Object(_) => {
            lemma_object(s, i, d, e, wide);
        },
        ExprModel::FuncCall(..) => {
            lemma_call(s, i, d, e);
        },
        ExprModel::Parenthesis(_) => {
            lemma_paren(s, i, d, e);
        },
        ExprModel::Template(_) => {
            lemma_template(s, i, d, e);
        },
        _ => {},
    }
}

/// An array is read back.
#[verifier::rlimit(40)]
pub proof fn lemma_array(s: Seq<char>, i: int, d: nat, e: ExprModel)
    requires
        e is Array,
        valid_expr(e, d),
        has_at(s, i, fmt_expr(e, None)),
    ensures
        p_primary(s, i, d) == ok(e, i + fmt_expr(e, None).len()),
    decreases e, 0int,
{
    let items = e->Array_0;
    let fl = fmt_list(items, 0);
    let dd = (d - 1) as nat;
    let j = i + fmt_expr(e, None).len();
    lemma_split3(s, i, seq!['['], fl, seq![']']);
    lemma_at(s, i, seq!['['], 0);
    if items.len() == 0 {
        lemma_at(s, i + 1, seq![']'], 0);
        lemma_skip_none(s, i + 1, CharClass::Space);
        assert(items =~= Seq::<ExprModel>::empty());
    } else {
        lemma_first(items[0], dd, None);
        lemma_at(s, i + 1, fl, 0);
        lemma_skip_none(s, i + 1, CharClass::Space);
        lemma_has_at_concat(s, i + 1, fl, seq![']']);
        lemma_elements(s, i + 1, dd, items, 0);
        assert(items.take(0) =~= Seq::<ExprModel>::empty());
    }
    lemma_array_of(s, i, d, items, j);
}

/// The elements of an array are read back, up to the closing bracket.
#[verifier::rlimit(40)]
pub proof fn lemma_elements(s: Seq<char>, i: int, d: nat, items: Seq<ExprModel>, k: int)
    requires
        0 <= k < items.len(),
        forall|n: int| 0 <= n < items.len() ==> valid_expr(#[trigger] items[n], d),
        has_at(s, i, fmt_list(items, k) + seq![']']),
    ensures
        p_elements(s, i, d, items.take(k)) == ok(items, i + fmt_list(items, k).len() + 1),
    decreases items, items.len() - k,
{
    let acc = items.take(k);
    let x = items[k];
    let fe = fmt_expr(x, None);
    let je = i + fe.len();
    assert(valid_expr(x, d));
    assert(acc.push(x) =~= items.take(k + 1));
    if k + 1 < items.len() {
        let rest = fmt_list(items, k + 1) + seq![']'];
        assert(fmt_list(items, k) + seq![']'] =~= fe + seq![',', ' '] + rest);
        lemma_split3(s, i, fe, seq![',', ' '], rest);
        lemma_at(s, je, seq![',', ' '], 0);
        lemma_at(s, je, seq![',', ' '], 1);
        lemma_expr(s, i, d, x, None);
        lemma_skip_none(s, je, CharClass::Space);
        lemma_first(items[k + 1], d, None);
        lemma_at(s, je + 2, rest, 0);
        lemma_skip_space_char(s, je + 1);
        assert(advances(s, i, je + 2));
        lemma_elements(s, je + 2, d, items, k + 1);
    } else {
        assert(fmt_list(items, k) + seq![']'] =~= fe + seq![']']);
        lemma_has_at_concat(s, i, fe, seq![']']);
        lemma_at(s, je, seq![']'], 0);
        lemma_expr(s, i, d, x, None);
        lemma_skip_none(s, je, CharClass::Space);
        assert(items.take(k + 1) =~= items);
    }
}

/// The text that closes the arguments of a function call.
pub open spec fn call_end(expand: bool) -> Seq<char> {
    if expand {
        seq!['.', '.', '.', ')']
    } else {
        seq![')']
    }
}

/// The text of a function call: the name, a parenthesis, and the arguments
/// with what closes them.
pub proof fn lemma_call_text(name: Seq<char>, args: Seq<ExprModel>, expand: bool)
    ensures
        fmt_expr(ExprModel::FuncCall(name, args, expand), None) == name + seq!['('] + (fmt_list(args, 0) + call_end(
            expand,
        )),
        args.len() == 0 && !expand ==> fmt_list(args, 0) + call_end(expand) == seq![')'],
{
    let fl = fmt_list(args, 0);
    let tail: Seq<char> = if expand {
        seq!['.', '.', '.']
    } else {
        Seq::empty()
    };
    assert(fmt_expr(ExprModel::FuncCall(name, args, expand), None) == name + seq!['('] + fl + tail + seq![')']);
    assert(tail + seq![')'] =~= call_end(expand));
    assert(name + seq!['('] + fl + tail + seq![')'] =~= name + seq!['('] + (fl + call_end(expand)));
    if args.len() == 0 && !expand {
        assert(fl + call_end(expand) =~= seq![')']);
    }
}

/// A function call is read back.
#[verifier::rlimit(40)]
pub proof fn lemma_call(s: Seq<char>, i: int, d: nat, e: ExprModel)
    requires
        e is FuncCall,
        valid_expr(e, d),
        has_at(s, i, fmt_expr(e, None)),
    ensures
        p_primary(s, i, d) == ok(e, i + fmt_expr(e, None).len()),
    decreases e, 0int,
{
    match e {
        ExprModel::FuncCall(name, args, expand) => {
            let tail = fmt_list(args, 0) + call_end(expand);
            let dd = (d - 1) as nat;
            let j = i + fmt_expr(e, None).len();
            lemma_call_text(name, args, expand);
            lemma_split3(s, i, name, seq!['('], tail);
            let je = i + name.len();
            lemma_at(s, je, seq!['('], 0);
            lemma_ident_end(s, i, name);
            if args.len() == 0 {
                lemma_at(s, je + 1, tail, 0);
                lemma_skip_none(s, je + 1, CharClass::Space);
                assert(args =~= Seq::<ExprModel>::empty());
            } else {
                assert(valid_expr(args[0], dd));
                lemma_first(args[0], dd, None);
                assert(tail[0] == fmt_expr(args[0], None)[0]);
                lemma_at(s, je + 1, tail, 0);
                lemma_skip_none(s, je + 1, CharClass::Space);
                lemma_arguments(s, je + 1, dd, args, expand, 0);
                assert(args.take(0) =~= Seq::<ExprModel>::empty());
            }
            lemma_call_of(s, i, d, args, expand, j);
        },
        _ => {},
    }
}

/// The arguments of a function call are read back, up to the closing
/// parenthesis.
#[verifier::rlimit(40)]
pub proof fn lemma_arguments(s: Seq<char>, i: int, d: nat, args: Seq<ExprModel>, expand: bool, k: int)
    requires
        0 <= k < args.len(),
        forall|n: int| 0 <= n < args.len() ==> valid_expr(#[trigger] args[n], d),
        has_at(s, i, fmt_list(args, k) + call_end(expand)),
    ensures
        p_arguments(s, i, d, args.take(k)) == ok((args, expand), i + fmt_list(args, k).len() + call_end(expand).len()),
    decreases args, args.len() - k,
{
    let acc = args.take(k);
    let x = args[k];
    let fe = fmt_expr(x, None);
    let je = i + fe.len();
    assert(valid_expr(x, d));
    assert(acc.push(x) =~= args.take(k + 1));
    if k + 1 < args.len() {
        let rest = fmt_list(args, k + 1) + call_end(expand);
        assert(fmt_list(args, k) + call_end(expand) =~= fe + seq![',', ' '] + rest);
        lemma_split3(s, i, fe, seq![',', ' '], rest);
        lemma_at(s, je, seq![',', ' '], 0);
        lemma_at(s, je, seq![',', ' '], 1);
        lemma_expr(s, i, d, x, None);
        lemma_skip_none(s, je, CharClass::Space);
        lemma_first(args[k + 1], d, None);
        lemma_at(s, je + 2, rest, 0);
        lemma_skip_space_char(s, je + 1);
        assert(advances(s, i, je + 2));
        lemma_arguments(s, je + 2, d, args, expand, k + 1);
    } else {
        assert(fmt_list(args, k) + call_end(expand) =~= fe + call_end(expand));
        lemma_has_at_concat(s, i, fe, call_end(expand));
        lemma_at(s, je, call_end(expand), 0);
        if expand {
            lemma_at(s, je, call_end(expand), 1);
            lemma_at(s, je, call_end(expand), 2);
            lemma_at(s, je, call_end(expand), 3);
            lemma_skip_none(s, je + 3, CharClass::Space);
        }
        lemma_expr(s, i, d, x, None);
        lemma_skip_none(s, je, CharClass::Space);
        assert(args.take(k + 1) =~= args);
    }
}

/// A parenthesis is read back.
#[verifier::rlimit(40)]
pub proof fn lemma_paren(s: Seq<char>, i: int, d: nat, e: ExprModel)
    requires
        e is Parenthesis,
        valid_expr(e, d),
        has_at(s, i, fmt_expr(e, None)),
    ensures
        p_primary(s, i, d) == ok(e, i + fmt_expr(e, None).len()),
    decreases e, 0int,
{
    let x = *e->Parenthesis_0;
    let fx = fmt_expr(x, None);
    let dd = (d - 1) as nat;
    lemma_split3(s, i, seq!['('], fx, seq![')']);
    lemma_at(s, i, seq!['('], 0);
    lemma_first(x, dd, None);
    lemma_at(s, i + 1, fx, 0);
    lemma_skip_none(s, i + 1, CharClass::Space);
    let jx = i + 1 + fx.len();
    lemma_at(s, jx, seq![')'], 0);
    lemma_expr(s, i + 1, dd, x, None);
    lemma_skip_none(s, jx, CharClass::Space);
    lemma_paren_of(s, i, d, x, jx);
}

/// A variable that stands before ` = ` is read back as an expression.
#[verifier::rlimit(40)]
pub proof fn lemma_bare_key(s: Seq<char>, i: int, d: nat, n: Seq<char>)
    requires
        is_ident(n),
        !is_keyword(n),
        has_at(s, i, n + seq![' ', '=', ' ']),
    ensures
        p_expr(s, i, d) == ok(ExprModel::Variable(n), i + n.len()),
{
    let e = ExprModel::Variable(n);
    let j = i + n.len();
    lemma_has_at_concat(s, i, n, seq![' ', '=', ' ']);
    lemma_at(s, j, seq![' ', '=', ' '], 0);
    lemma_at(s, j, seq![' ', '=', ' '], 1);
    lemma_at(s, j, seq![' ', '=', ' '], 2);
    lemma_at(s, i, n, 0);
    lemma_word(s, i, d, e);
    lemma_skip_space_char(s, j);
    assert(p_primary(s, i, d) == ok(e, j));
    assert(p_ops(s, j, d, Seq::empty()) == ok(Seq::<OpModel>::empty(), j));
    assert(p_postfix(s, i, d) == ok(e, j));
    assert(p_unary(s, i, d) == ok(e, j));
    assert(op_at(s, j + 1) is None);
    assert(p_binary_loop(s, j, d, 1, e) == ok(e, j));
    assert(p_binary(s, i, d, 1) == ok(e, j));
}

/// The key of an object item is read back.
#[verifier::rlimit(40)]
pub proof fn lemma_key(s: Seq<char>, i: int, d: nat, key: KeyModel)
    requires
        match key {
            KeyModel::Identifier(n) => is_ident(n) && !is_keyword(n),
            KeyModel::Expression(k) => valid_expr(k, d) && !(k is Variable),
        },
        has_at(s, i, fmt_key(key) + seq![' ', '=', ' ']),
    ensures
        p_expr(s, i, d) == ok(key_expr(key), i + fmt_key(key).len()),
        key_of(key_expr(key)) == key,
        fmt_key(key).len() > 0,
        starts_expr(fmt_key(key)[0]),
    decreases key, 0int,
{
    let j = i + fmt_key(key).len();
    match key {
        KeyModel::Identifier(n) => {
            lemma_bare_key(s, i, d, n);
        },
        KeyModel::Expression(k) => {
            lemma_has_at_concat(s, i, fmt_key(key), seq![' ', '=', ' ']);
            lemma_at(s, j, seq![' ', '=', ' '], 0);
            lemma_at(s, j, seq![' ', '=', ' '], 1);
            lemma_at(s, j, seq![' ', '=', ' '], 2);
            assert(follows(s, j, 0));
            lemma_first(k, d, None);
            lemma_expr(s, i, d, k, None);
        },
    }
}

/// The first character of the text of an object item.
pub proof fn lemma_item_first(item: ItemModel, d: nat, wide: Option<Seq<char>>)
    requires
        valid_item(item, d),
    ensures
        fmt_item(item, wide).len() > 0,
        starts_expr(fmt_item(item, wide)[0]),
        fmt_item(item, wide) == fmt_key(item.key) + seq![' ', '=', ' '] + fmt_expr(item.value, wide),
{
    match item.key {
        KeyModel::Identifier(n) => {},
        KeyModel::Expression(k) => {
            lemma_first(k, d, None);
        },
    }
}

/// From the start of an item of an object up to the end of its value, the
/// parser reads the key, the equals sign and the value.
#[verifier::rlimit(40)]
pub proof fn lemma_item(s: Seq<char>, i: int, d: nat, item: ItemModel, wide: Option<Seq<char>>)
    requires
        valid_item(item, d),
        layout_ok(wide),
        has_at(s, i, fmt_item(item, wide)),
        follows(s, i + fmt_item(item, wide).len(), 0),
    ensures
        p_expr(s, i, d) == ok(key_expr(item.key), i + fmt_key(item.key).len()),
        key_of(key_expr(item.key)) == item.key,
        skip_blank(s, i + fmt_key(item.key).len()) == i + fmt_key(item.key).len() + 1,
        at(s, i + fmt_key(item.key).len() + 1) == '=',
        skip_blank(s, i + fmt_key(item.key).len() + 2) == i + fmt_key(item.key).len() + 3,
        p_expr(s, i + fmt_key(item.key).len() + 3, d) == ok(item.value, i + fmt_item(item, wide).len()),
        fmt_item(item, wide).len() == fmt_key(item.key).len() + 3 + fmt_expr(item.value, wide).len(),
    decreases item, 0int,
{
    let fk = fmt_key(item.key);
    let fv = fmt_expr(item.value, wide);
    let eq = seq![' ', '=', ' '];
    lemma_split3(s, i, fk, eq, fv);
    let jk = i + fk.len();
    lemma_has_at_concat(s, i, fk, eq);
    lemma_key(s, i, d, item.key);
    lemma_at(s, jk, eq, 0);
    lemma_at(s, jk, eq, 1);
    lemma_at(s, jk, eq, 2);
    lemma_skip_space_char(s, jk);
    lemma_first(item.value, d, wide);
    lemma_at(s, jk + 3, fv, 0);
    lemma_skip_space_char(s, jk + 2);
    lemma_expr(s, jk + 3, d, item.value, wide);
}

/// An object that is written on one line is read back.
#[verifier::rlimit(40)]
pub proof fn lemma_object_narrow(s: Seq<char>, i: int, d: nat, items: Seq<ItemModel>)
    requires
        items.len() > 0,
        valid_expr(ExprModel::Object(items), d),
        has_at(s, i, fmt_expr(ExprModel::Object(items), None)),
    ensures
        skip_space(s, i + 1) == i + 2,
        at(s, i + 2) != '}',
        p_object_items(s, i + 2, (d - 1) as nat, Seq::empty()) == ok(
            items,
            i + fmt_expr(ExprModel::Object(items), None).len(),
        ),
    decreases items, items.len() + 2,
{
    let dd = (d - 1) as nat;
    let fi = fmt_items(items, 0);
    assert(valid_item(items[0], dd));
    lemma_split3(s, i, seq!['{', ' '], fi, seq![' ', '}']);
    lemma_at(s, i, seq!['{', ' '], 1);
    lemma_item_first(items[0], dd, None);
    assert(fi[0] == fmt_item(items[0], None)[0]);
    lemma_at(s, i + 2, fi, 0);
    lemma_skip_space_char(s, i + 1);
    lemma_has_at_concat(s, i + 2, fi, seq![' ', '}']);
    lemma_items(s, i + 2, dd, items, 0);
    assert(items.take(0) =~= Seq::<ItemModel>::empty());
}

/// An object that is written one item per line is read back.
#[verifier::rlimit(40)]
pub proof fn lemma_object_wide(s: Seq<char>, i: int, d: nat, items: Seq<ItemModel>, p: Seq<char>)
    requires
        items.len() > 0,
        valid_expr(ExprModel::Object(items), d),
        all_blank(p),
        has_at(s, i, fmt_expr(ExprModel::Object(items), Some(p))),
    ensures
        skip_space(s, i + 1) == i + 2 + deeper(p).len(),
        at(s, i + 2 + deeper(p).len()) != '}',
        p_object_items(s, i + 2 + deeper(p).len(), (d - 1) as nat, Seq::empty()) == ok(
            items,
            i + fmt_expr(ExprModel::Object(items), Some(p)).len(),
        ),
    decreases items, items.len() + 2,
{
    let dd = (d - 1) as nat;
    let inner = deeper(p);
    let fi = fmt_items_wide(items, 0, inner);
    assert(valid_item(items[0], dd));
    lemma_split4(s, i, seq!['{', '\n'], fi, p, seq!['}']);
    lemma_at(s, i, seq!['{', '\n'], 1);
    lemma_item_first(items[0], dd, Some(inner));
    let line = fmt_item(items[0], Some(inner)) + seq!['\n'] + fmt_items_wide(items, 1, inner);
    assert(fi =~= inner + line);
    lemma_has_at_concat(s, i + 2, inner, line);
    assert(line[0] == fmt_item(items[0], Some(inner))[0]);
    lemma_at(s, i + 2 + inner.len(), line, 0);
    lemma_has_at_concat(s, i + 1, seq!['\n'], inner);
    assert(has_at(s, i + 1, seq!['\n']));
    lemma_skip_over(s, i + 1, seq!['\n'] + inner, CharClass::Space);
    lemma_has_at_concat(s, i + 2 + fi.len(), p, seq!['}']);
    lemma_has_at_concat(s, i + 2, fi, p + seq!['}']);
    lemma_items_wide(s, i + 2, dd, items, 0, p);
    assert(items.take(0) =~= Seq::<ItemModel>::empty());
}

/// An object is read back.
#[verifier::rlimit(40)]
pub proof fn lemma_object(s: Seq<char>, i: int, d: nat, e: ExprModel, wide: Option<Seq<char>>)
    requires
        e is Object,
        valid_expr(e, d),
        layout_ok(wide),
        has_at(s, i, fmt_expr(e, wide)),
    ensures
        p_primary(s, i, d) == ok(e, i + fmt_expr(e, wide).len()),
    decreases e, 0int,
{
    let items = e->Object_0;
    let j = i + fmt_expr(e, wide).len();
    lemma_at(s, i, fmt_expr(e, wide), 0);
    if items.len() == 0 {
        lemma_at(s, i, fmt_expr(e, wide), 1);
        lemma_skip_none(s, i + 1, CharClass::Space);
        assert(items =~= Seq::<ItemModel>::empty());
    } else {
        match wide {
            None => {
                lemma_object_narrow(s, i, d, items);
            },
            Some(p) => {
                lemma_object_wide(s, i, d, items, p);
            },
        }
    }
    lemma_object_of(s, i, d, items, j);
}

/// The items of an object that is written on one line are read back, up to
/// the closing brace.
#[verifier::rlimit(40)]
pub proof fn lemma_items(s: Seq<char>, i: int, d: nat, items: Seq<ItemModel>, k: int)
    requires
        0 <= k < items.len(),
        forall|n: int| 0 <= n < items.len() ==> valid_item(#[trigger] items[n], d),
        has_at(s, i, fmt_items(items, k) + seq![' ', '}']),
    ensures
        p_object_items(s, i, d, items.take(k)) == ok(items, i + fmt_items(items, k).len() + 2),
    decreases items, items.len() - k,
{
    let acc = items.take(k);
    let item = items[k];
    let fi = fmt_item(item, None);
    let je = i + fi.len();
    assert(valid_item(item, d));
    assert(acc.push(item) =~= items.take(k + 1));
    if k + 1 < items.len() {
        let rest = fmt_items(items, k + 1) + seq![' ', '}'];
        assert(fmt_items(items, k) + seq![' ', '}'] =~= fi + seq![',', ' '] + rest);
        lemma_split3(s, i, fi, seq![',', ' '], rest);
        lemma_at(s, je, seq![',', ' '], 0);
        lemma_at(s, je, seq![',', ' '], 1);
        lemma_item(s, i, d, item, None);
        lemma_skip_none(s, je, CharClass::Blank);
        assert(valid_item(items[k + 1], d));
        lemma_item_first(items[k + 1], d, None);
        lemma_at(s, je + 2, rest, 0);
        lemma_skip_space_char(s, je + 1);
        assert(advances(s, i, je + 2));
        lemma_items(s, je + 2, d, items, k + 1);
    } else {
        assert(fmt_items(items, k) + seq![' ', '}'] =~= fi + seq![' ', '}']);
        lemma_has_at_concat(s, i, fi, seq![' ', '}']);
        lemma_at(s, je, seq![' ', '}'], 0);
        lemma_at(s, je, seq![' ', '}'], 1);
        assert(follows(s, je, 0));
        lemma_item(s, i, d, item, None);
        lemma_skip_space_char(s, je);
        assert(items.take(k + 1) =~= items);
    }
}

/// The items of an object that is written one item per line are read back,
/// up to the closing brace. The items are indented one level deeper than
/// the brace.
#[verifier::rlimit(40)]
pub proof fn lemma_items_wide(s: Seq<char>, i: int, d: nat, items: Seq<ItemModel>, k: int, p: Seq<char>)
    requires
        0 <= k < items.len(),
        forall|n: int| 0 <= n < items.len() ==> valid_item(#[trigger] items[n], d),
        all_blank(p),
        has_at(s, i, fmt_items_wide(items, k, deeper(p)) + (p + seq!['}'])),
    ensures
        p_object_items(s, i + deeper(p).len(), d, items.take(k)) == ok(
            items,
            i + fmt_items_wide(items, k, deeper(p)).len() + p.len() + 1,
        ),
    decreases items, items.len() - k,
{
    let inner = deeper(p);
    let acc = items.take(k);
    let item = items[k];
    let fi = fmt_item(item, Some(inner));
    let rest = fmt_items_wide(items, k + 1, inner) + (p + seq!['}']);
    assert(valid_item(item, d));
    assert(acc.push(item) =~= items.take(k + 1));
    assert(fmt_items_wide(items, k, inner) + (p + seq!['}']) =~= inner + fi + seq!['\n'] + rest);
    lemma_split4(s, i, inner, fi, seq!['\n'], rest);
    let i0 = i + inner.len();
    let je = i0 + fi.len();
    lemma_at(s, je, seq!['\n'], 0);
    assert(follows(s, je, 0));
    lemma_item(s, i0, d, item, Some(inner));
    lemma_skip_none(s, je, CharClass::Blank);
    if k + 1 < items.len() {
        let next = fmt_item(items[k + 1], Some(inner));
        assert(valid_item(items[k + 1], d));
        lemma_item_first(items[k + 1], d, Some(inner));
        assert(rest =~= inner + (next + seq!['\n'] + fmt_items_wide(items, k + 2, inner) + (p + seq!['}'])));
        lemma_has_at_concat(
            s,
            je + 1,
            inner,
            next + seq!['\n'] + fmt_items_wide(items, k + 2, inner) + (p + seq!['}']),
        );
        lemma_at(
            s,
            je + 1 + inner.len(),
            next + seq!['\n'] + fmt_items_wide(items, k + 2, inner) + (p + seq!['}']),
            0,
        );
        lemma_skip_over(s, je + 1, inner, CharClass::Space);
        assert(advances(s, i0, je + 1 + inner.len()));
        lemma_items_wide(s, je + 1, d, items, k + 1, p);
    } else {
        assert(rest =~= p + seq!['}']);
        lemma_has_at_concat(s, je + 1, p, seq!['}']);
        lemma_at(s, je + 1 + p.len(), seq!['}'], 0);
        lemma_skip_over(s, je + 1, p, CharClass::Space);
        assert(items.take(k + 1) =~= items);
    }
}

/// A template is read back.
pub proof fn lemma_template(s: Seq<char>, i: int, d: nat, e: ExprModel)
    requires
        e is Template,
        valid_expr(e, d),
        has_at(s, i, fmt_expr(e, None)),
    ensures
        p_primary(s, i, d) == ok(e, i + fmt_expr(e, None).len()),
    decreases e, 0int,
{
    let parts = e->Template_0;
    lemma_split3(s, i, seq!['"'], fmt_parts(parts, 0), seq!['"']);
    lemma_at(s, i, seq!['"'], 0);
    lemma_has_at_concat(s, i + 1, fmt_parts(parts, 0), seq!['"']);
    assert(parts.take(0) =~= Seq::<PartModel>::empty());
    lemma_parts(s, i + 1, d, parts, 0);
}

/// The fragments read so far, with the literal text `t` if there is any.
pub open spec fn with_literal(acc: Seq<PartModel>, t: Seq<char>) -> Seq<PartModel> {
    if t.len() > 0 {
        acc.push(PartModel::Literal(t))
    } else {
        acc
    }
}

/// What the fragments make where the closing quote follows literal text.
pub proof fn lemma_parts_end(s: Seq<char>, i: int, d: nat, acc: Seq<PartModel>, t: Seq<char>, jl: int)
    requires
        scan_lit(s, i, Seq::empty()) == ok(t, jl),
        at(s, jl) == '"',
    ensures
        p_parts(s, i, d, acc) == ok(finish(with_literal(acc, t)), jl + 1),
{
}

/// How reading the fragments goes on where an interpolation follows
/// literal text.
pub proof fn lemma_parts_step(
    s: Seq<char>,
    i: int,
    d: nat,
    acc: Seq<PartModel>,
    t: Seq<char>,
    jl: int,
    x: ExprModel,
    jx: int,
)
    requires
        scan_lit(s, i, Seq::empty()) == ok(t, jl),
        at(s, jl) == '$',
        d > 0,
        p_expr(s, skip_space(s, jl + 2), (d - 1) as nat) == ok(x, jx),
        at(s, skip_space(s, jx)) == '}',
        advances(s, i, skip_space(s, jx) + 1),
    ensures
        p_parts(s, i, d, acc) == p_parts(
            s,
            skip_space(s, jx) + 1,
            d,
            with_literal(acc, t).push(PartModel::Interpolation(x)),
        ),
{
}

/// The text of the fragments from one on.
pub proof fn lemma_parts_text(parts: Seq<PartModel>, k: int)
    requires
        0 <= k < parts.len(),
    ensures
        fmt_parts(parts, k) == fmt_part(parts[k], interpolation_follows(parts, k)) + fmt_parts(parts, k + 1),
        fmt_parts(parts, k) + seq!['"'] == fmt_part(parts[k], interpolation_follows(parts, k)) + (fmt_parts(
            parts,
            k + 1,
        ) + seq!['"']),
        fmt_parts(parts, parts.len() as int) + seq!['"'] == seq!['"'],
{
    assert(fmt_parts(parts, k) + seq!['"'] =~= fmt_part(parts[k], interpolation_follows(parts, k)) + (fmt_parts(
        parts,
        k + 1,
    ) + seq!['"']));
    assert(fmt_parts(parts, parts.len() as int) + seq!['"'] =~= seq!['"']);
}

/// The fragments of a template are read back from the start of a fragment
/// on, up to the closing quote. Before the fragment stands an interpolation
/// or nothing.
#[verifier::rlimit(40)]
pub proof fn lemma_parts(s: Seq<char>, i: int, d: nat, parts: Seq<PartModel>, k: int)
    requires
        valid_expr(ExprModel::Template(parts), d),
        0 <= k <= parts.len(),
        k > 0 ==> parts[k - 1] is Interpolation,
        has_at(s, i, fmt_parts(parts, k) + seq!['"']),
    ensures
        p_parts(s, i, d, parts.take(k)) == ok(
            ExprModel::Template(parts),
            i + fmt_parts(parts, k).len() + 1,
        ),
    decreases parts, parts.len() - k,
{
    let acc = parts.take(k);
    let dd = (d - 1) as nat;
    let lit = k < parts.len() && parts[k] is Literal;
    let t: Seq<char> = if lit {
        parts[k]->Literal_0
    } else {
        Seq::empty()
    };
    let k1 = if lit {
        k + 1
    } else {
        k
    };
    let before = k1 < parts.len();
    let text = escape_lit(t, before);
    let jl = i + text.len();
    let rest = fmt_parts(parts, k1) + seq!['"'];
    if lit {
        assert(valid_part(parts[k], dd));
        if k + 1 < parts.len() {
            assert(joins(parts, k));
        }
        assert(interpolation_follows(parts, k) == before);
        lemma_parts_text(parts, k);
        assert(with_literal(acc, t) =~= parts.take(k1));
    } else {
        assert(text =~= Seq::<char>::empty());
        assert(fmt_parts(parts, k) + seq!['"'] =~= text + rest);
    }
    assert(with_literal(acc, t) == parts.take(k1));
    lemma_has_at_concat(s, i, text, rest);
    if k1 == parts.len() {
        assert(rest =~= seq!['"']);
        lemma_at(s, jl, rest, 0);
        lemma_scan_part(s, i, t, before, Seq::empty());
        assert(Seq::<char>::empty() + t =~= t);
        assert(parts.take(k1) =~= parts);
        assert(finish(parts) == ExprModel::Template(parts));
        lemma_parts_end(s, i, d, acc, t, jl);
    } else {
        assert(parts[k1] is Interpolation);
        let x = parts[k1]->Interpolation_0;
        assert(valid_part(parts[k1], dd));
        let fx = fmt_expr(x, None);
        let after = fmt_parts(parts, k1 + 1) + seq!['"'];
        lemma_parts_text(parts, k1);
        assert(rest == (seq!['$', '{'] + fx + seq!['}']) + after);
        lemma_has_at_concat(s, jl, seq!['$', '{'] + fx + seq!['}'], after);
        lemma_split3(s, jl, seq!['$', '{'], fx, seq!['}']);
        lemma_at(s, jl, seq!['$', '{'], 0);
        lemma_at(s, jl, seq!['$', '{'], 1);
        lemma_scan_part(s, i, t, before, Seq::empty());
        assert(Seq::<char>::empty() + t =~= t);
        lemma_first(x, dd, None);
        lemma_at(s, jl + 2, fx, 0);
        lemma_skip_none(s, jl + 2, CharClass::Space);
        let jx = jl + 2 + fx.len();
        lemma_at(s, jx, seq!['}'], 0);
        lemma_expr(s, jl + 2, dd, x, None);
        lemma_skip_none(s, jx, CharClass::Space);
        assert(parts.take(k1).push(parts[k1]) =~= parts.take(k1 + 1));
        lemma_parts_step(s, i, d, acc, t, jl, x, jx);
        lemma_parts(s, jx + 1, d, parts, k1 + 1);
    }
}

} // verus!
