//! Reading back bodies: the parser finds in the text of a valid body its
//! structures, one after the other.

use crate::format::{deeper, fmt_body, fmt_expr, fmt_label, fmt_labels, fmt_structure, quoted};
use crate::grammar::{
    advances, p_block_body, p_body, p_expr, p_labels, p_string, p_structure, skip_blank, skip_space,
};
use crate::model::{valid_body, valid_label, valid_structure, LabelModel, StructureModel};
use crate::readback::{lemma_first, lemma_string, ok};
use crate::readback_expr::lemma_expr;
use crate::roundtrip::{
    all_blank, follows, lemma_at, lemma_ident_end, lemma_skip_none, lemma_skip_over, lemma_skip_space_char,
    lemma_split3, lemma_split4,
};
use crate::text::{at, has_at, is_ident_start, lemma_has_at_concat, run_end, CharClass};
use vstd::prelude::*;

verus! {

/// What follows the opening brace of a block: the closing brace at once, or
/// the body on lines of its own, one level deeper than the block, and the
/// closing brace on the last.
pub open spec fn block_tail(body: Seq<StructureModel>, p: Seq<char>) -> Seq<char> {
    if body.len() == 0 {
        seq!['}']
    } else {
        seq!['\n'] + fmt_body(body, 0, deeper(p)) + p + seq!['}']
    }
}

/// What follows the last structure of a body: in a block the indentation of
/// the block and its closing brace, in the document nothing.
pub open spec fn body_end(closing: Option<Seq<char>>) -> Seq<char> {
    match closing {
        Some(q) => q + seq!['}'],
        None => Seq::empty(),
    }
}

/// The text of a structure starts with its identifier.
pub proof fn lemma_structure_first(st: StructureModel, d: nat, p: Seq<char>)
    requires
        valid_structure(st, d),
    ensures
        fmt_structure(st, p).len() > 0,
        is_ident_start(fmt_structure(st, p)[0]),
{
    match st {
        StructureModel::Attribute(key, value) => {
            assert(fmt_structure(st, p)[0] == key[0]);
        },
        StructureModel::Block(ident, labels, body) => {
            assert(fmt_structure(st, p)[0] == ident[0]);
        },
    }
}

/// The text of labels and of the opening brace behind them starts with a
/// space, behind which stands no blank and no equals sign.
pub proof fn lemma_labels_first(labels: Seq<LabelModel>, k: int)
    requires
        0 <= k <= labels.len(),
        forall|n: int| 0 <= n < labels.len() ==> valid_label(#[trigger] labels[n]),
    ensures
        (fmt_labels(labels, k) + seq![' ', '{']).len() >= 2,
        (fmt_labels(labels, k) + seq![' ', '{'])[0] == ' ',
        ({
            let c = (fmt_labels(labels, k) + seq![' ', '{'])[1];
            c == '{' || c == '"' || is_ident_start(c)
        }),
        k < labels.len() ==> fmt_labels(labels, k) + seq![' ', '{'] == seq![' '] + fmt_label(labels[k]) + (fmt_labels(
            labels,
            k + 1,
        ) + seq![' ', '{']),
        k == labels.len() ==> fmt_labels(labels, k) + seq![' ', '{'] == seq![' ', '{'],
{
    if k < labels.len() {
        assert(valid_label(labels[k]));
        let f = fmt_label(labels[k]);
        assert(f.len() > 0);
        assert(f[0] == '"' || is_ident_start(f[0]));
        assert(fmt_labels(labels, k) + seq![' ', '{'] =~= seq![' '] + f + (fmt_labels(labels, k + 1) + seq![
            ' ',
            '{',
        ]));
    } else {
        assert(fmt_labels(labels, k) + seq![' ', '{'] =~= seq![' ', '{']);
    }
}

/// What an attribute's key, the equals sign and the value make.
pub proof fn lemma_attribute_of(s: Seq<char>, i: int, d: nat, value: crate::model::ExprModel, e: int)
    requires
        at(s, skip_blank(s, run_end(s, i + 1, CharClass::Ident))) == '=',
        p_expr(s, skip_blank(s, skip_blank(s, run_end(s, i + 1, CharClass::Ident)) + 1), d) == ok(value, e),
    ensures
        p_structure(s, i, d) == ok(
            StructureModel::Attribute(s.subrange(i, run_end(s, i + 1, CharClass::Ident)), value),
            e,
        ),
{
}

/// What a block's identifier and what is read behind it make.
pub proof fn lemma_block_of(s: Seq<char>, i: int, d: nat, st: StructureModel, e: int)
    requires
        at(s, skip_blank(s, run_end(s, i + 1, CharClass::Ident))) != '=',
        p_labels(
            s,
            skip_blank(s, run_end(s, i + 1, CharClass::Ident)),
            d,
            s.subrange(i, run_end(s, i + 1, CharClass::Ident)),
            Seq::empty(),
        ) == ok(st, e),
    ensures
        p_structure(s, i, d) == ok(st, e),
{
}

/// What the labels read so far and the body behind the opening brace make.
pub proof fn lemma_labels_done(
    s: Seq<char>,
    k: int,
    d: nat,
    name: Seq<char>,
    acc: Seq<LabelModel>,
    body: Seq<StructureModel>,
    e: int,
)
    requires
        at(s, k) == '{',
        p_block_body(s, k + 1, d) == ok(body, e),
    ensures
        p_labels(s, k, d, name, acc) == ok(StructureModel::Block(name, acc, body), e),
{
}

/// How reading labels goes on behind a bare label.
pub proof fn lemma_labels_bare(s: Seq<char>, k: int, d: nat, name: Seq<char>, acc: Seq<LabelModel>)
    requires
        is_ident_start(at(s, k)),
        advances(s, k, skip_blank(s, run_end(s, k + 1, CharClass::Ident))),
    ensures
        p_labels(s, k, d, name, acc) == p_labels(
            s,
            skip_blank(s, run_end(s, k + 1, CharClass::Ident)),
            d,
            name,
            acc.push(LabelModel::Identifier(s.subrange(k, run_end(s, k + 1, CharClass::Ident)))),
        ),
{
}

/// How reading labels goes on behind a quoted label.
pub proof fn lemma_labels_quoted(
    s: Seq<char>,
    k: int,
    d: nat,
    name: Seq<char>,
    acc: Seq<LabelModel>,
    t: Seq<char>,
    e: int,
)
    requires
        at(s, k) == '"',
        p_string(s, k + 1) == ok(t, e),
        advances(s, k, skip_blank(s, e)),
    ensures
        p_labels(s, k, d, name, acc) == p_labels(s, skip_blank(s, e), d, name, acc.push(LabelModel::String(t))),
{
}

/// What a body on lines of its own behind an opening brace makes.
pub proof fn lemma_block_body_of(s: Seq<char>, i: int, d: nat, body: Seq<StructureModel>, e: int)
    requires
        d > 0,
        at(s, skip_blank(s, i)) == '\n',
        p_body(s, skip_blank(s, i) + 1, (d - 1) as nat, true, Seq::empty()) == ok(body, e),
    ensures
        p_block_body(s, i, d) == ok(body, e + 1),
{
}

/// How reading a body goes on behind a structure that ends its line.
pub proof fn lemma_body_step(
    s: Seq<char>,
    i: int,
    d: nat,
    in_block: bool,
    acc: Seq<StructureModel>,
    st: StructureModel,
    e: int,
)
    requires
        0 <= skip_space(s, i) < s.len(),
        is_ident_start(s[skip_space(s, i)]),
        p_structure(s, skip_space(s, i), d) == ok(st, e),
        0 <= skip_blank(s, e) < s.len(),
        s[skip_blank(s, e)] == '\n',
        advances(s, i, skip_blank(s, e) + 1),
    ensures
        p_body(s, i, d, in_block, acc) == p_body(s, skip_blank(s, e) + 1, d, in_block, acc.push(st)),
{
}

/// A structure is read back.
#[verifier::rlimit(40)]
pub proof fn lemma_structure(s: Seq<char>, i: int, d: nat, st: StructureModel, p: Seq<char>)
    requires
        valid_structure(st, d),
        all_blank(p),
        has_at(s, i, fmt_structure(st, p)),
        at(s, i + fmt_structure(st, p).len()) == '\n',
    ensures
        p_structure(s, i, d) == ok(st, i + fmt_structure(st, p).len()),
    decreases st, 0int,
{
    let j = i + fmt_structure(st, p).len();
    match st {
        StructureModel::Attribute(key, value) => {
            let fv = fmt_expr(value, Some(p));
            let eq = seq![' ', '=', ' '];
            lemma_split3(s, i, key, eq, fv);
            let jk = i + key.len();
            lemma_at(s, jk, eq, 0);
            lemma_at(s, jk, eq, 1);
            lemma_at(s, jk, eq, 2);
            lemma_ident_end(s, i, key);
            lemma_skip_space_char(s, jk);
            lemma_first(value, d, Some(p));
            lemma_at(s, jk + 3, fv, 0);
            lemma_skip_space_char(s, jk + 2);
            assert(follows(s, j, 0));
            lemma_expr(s, jk + 3, d, value, Some(p));
            lemma_attribute_of(s, i, d, value, j);
        },
        StructureModel::Block(ident, labels, body) => {
            let head = fmt_labels(labels, 0) + seq![' ', '{'];
            let tail = block_tail(body, p);
            assert(fmt_structure(st, p) =~= ident + head + tail);
            lemma_split3(s, i, ident, head, tail);
            let jk = i + ident.len();
            lemma_labels_first(labels, 0);
            lemma_at(s, jk, head, 0);
            lemma_at(s, jk, head, 1);
            lemma_ident_end(s, i, ident);
            lemma_skip_space_char(s, jk);
            lemma_has_at_concat(s, jk, head, tail);
            assert(has_at(s, jk, head + tail));
            assert(labels.take(0) =~= Seq::<LabelModel>::empty());
            assert(valid_body(body, (d - 1) as nat));
            lemma_labels(s, jk, d, ident, labels, 0, body, p);
            lemma_block_of(s, i, d, st, j);
        },
    }
}

/// The labels of a block and its body are read back, from the space before
/// a label or before the opening brace on.
#[verifier::rlimit(40)]
pub proof fn lemma_labels(
    s: Seq<char>,
    j0: int,
    d: nat,
    name: Seq<char>,
    labels: Seq<LabelModel>,
    k: int,
    body: Seq<StructureModel>,
    p: Seq<char>,
)
    requires
        0 <= k <= labels.len(),
        forall|n: int| 0 <= n < labels.len() ==> valid_label(#[trigger] labels[n]),
        d > 0,
        valid_body(body, (d - 1) as nat),
        all_blank(p),
        has_at(s, j0, fmt_labels(labels, k) + seq![' ', '{'] + block_tail(body, p)),
    ensures
        p_labels(s, j0 + 1, d, name, labels.take(k)) == ok(
            StructureModel::Block(name, labels, body),
            j0 + fmt_labels(labels, k).len() + 2 + block_tail(body, p).len(),
        ),
    decreases body, 2int, labels.len() - k,
{
    let acc = labels.take(k);
    let tail = block_tail(body, p);
    lemma_labels_first(labels, k);
    lemma_has_at_concat(s, j0, fmt_labels(labels, k) + seq![' ', '{'], tail);
    if k == labels.len() {
        lemma_at(s, j0, seq![' ', '{'], 1);
        assert(acc =~= labels);
        lemma_block_body(s, j0 + 2, d, body, p);
        lemma_labels_done(s, j0 + 1, d, name, acc, body, j0 + 2 + tail.len());
    } else {
        let label = labels[k];
        let f = fmt_label(label);
        let rest = fmt_labels(labels, k + 1) + seq![' ', '{'];
        assert(valid_label(label));
        lemma_split3(s, j0, seq![' '], f, rest);
        let e = j0 + 1 + f.len();
        lemma_labels_first(labels, k + 1);
        lemma_at(s, e, rest, 0);
        lemma_at(s, e, rest, 1);
        lemma_skip_space_char(s, e);
        lemma_at(s, j0 + 1, f, 0);
        assert(acc.push(label) =~= labels.take(k + 1));
        assert(has_at(s, e, rest + tail)) by {
            lemma_has_at_concat(s, e, rest, tail);
        }
        lemma_labels(s, e, d, name, labels, k + 1, body, p);
        match label {
            LabelModel::Identifier(n) => {
                lemma_ident_end(s, j0 + 1, n);
                lemma_labels_bare(s, j0 + 1, d, name, acc);
            },
            LabelModel::String(t) => {
                lemma_string(s, j0 + 1, d, t);
                lemma_labels_quoted(s, j0 + 1, d, name, acc, t, e);
            },
        }
    }
}

/// The body of a block is read back, from after the opening brace up to and
/// with the closing brace.
#[verifier::rlimit(40)]
pub proof fn lemma_block_body(s: Seq<char>, i: int, d: nat, body: Seq<StructureModel>, p: Seq<char>)
    requires
        d > 0,
        valid_body(body, (d - 1) as nat),
        all_blank(p),
        has_at(s, i, block_tail(body, p)),
    ensures
        p_block_body(s, i, d) == ok(body, i + block_tail(body, p).len()),
    decreases body, 1int,
{
    if body.len() == 0 {
        lemma_at(s, i, block_tail(body, p), 0);
        lemma_skip_none(s, i, CharClass::Blank);
        assert(body =~= Seq::<StructureModel>::empty());
    } else {
        let inner = deeper(p);
        let fb = fmt_body(body, 0, inner);
        lemma_split4(s, i, seq!['\n'], fb, p, seq!['}']);
        lemma_at(s, i, seq!['\n'], 0);
        lemma_skip_none(s, i, CharClass::Blank);
        assert(has_at(s, i + 1, fb + body_end(Some(p)))) by {
            lemma_has_at_concat(s, i + 1 + fb.len(), p, seq!['}']);
            lemma_has_at_concat(s, i + 1, fb, p + seq!['}']);
        }
        assert(body.take(0) =~= Seq::<StructureModel>::empty());
        lemma_body(s, i + 1, (d - 1) as nat, body, 0, inner, Some(p));
        lemma_block_body_of(s, i, d, body, i + 1 + fb.len() + p.len());
    }
}

/// The structures of a body are read back, from the start of a line on: in
/// a block up to the closing brace, in the document up to the end of the
/// input.
#[verifier::rlimit(40)]
pub proof fn lemma_body(
    s: Seq<char>,
    i: int,
    d: nat,
    body: Seq<StructureModel>,
    k: int,
    p: Seq<char>,
    closing: Option<Seq<char>>,
)
    requires
        0 <= k <= body.len(),
        valid_body(body, d),
        all_blank(p),
        closing matches Some(q) ==> all_blank(q),
        has_at(s, i, fmt_body(body, k, p) + body_end(closing)),
        closing is None ==> i + fmt_body(body, k, p).len() == s.len(),
    ensures
        p_body(s, i, d, closing is Some, body.take(k)) == ok(
            body,
            i + fmt_body(body, k, p).len() + body_end(closing).len() - (if closing is Some {
                1int
            } else {
                0int
            }),
        ),
    decreases body, 0int, body.len() - k,
{
    let acc = body.take(k);
    if k == body.len() {
        assert(acc =~= body);
        assert(fmt_body(body, k, p) + body_end(closing) =~= body_end(closing));
        match closing {
            Some(q) => {
                lemma_has_at_concat(s, i, q, seq!['}']);
                lemma_at(s, i + q.len(), seq!['}'], 0);
                lemma_skip_over(s, i, q, CharClass::Space);
            },
            None => {
                lemma_skip_none(s, i, CharClass::Space);
            },
        }
    } else {
        let st = body[k];
        let fs = fmt_structure(st, p);
        let rest = fmt_body(body, k + 1, p) + body_end(closing);
        assert(valid_structure(st, d));
        assert(fmt_body(body, k, p) + body_end(closing) =~= p + fs + seq!['\n'] + rest);
        lemma_split4(s, i, p, fs, seq!['\n'], rest);
        let i0 = i + p.len();
        let e = i0 + fs.len();
        lemma_structure_first(st, d, p);
        lemma_at(s, i0, fs, 0);
        lemma_skip_over(s, i, p, CharClass::Space);
        lemma_at(s, e, seq!['\n'], 0);
        lemma_structure(s, i0, d, st, p);
        lemma_skip_none(s, e, CharClass::Blank);
        assert(acc.push(st) =~= body.take(k + 1));
        lemma_body(s, e + 1, d, body, k + 1, p, closing);
        lemma_body_step(s, i, d, closing is Some, acc, st, e);
    }
}

} // verus!
