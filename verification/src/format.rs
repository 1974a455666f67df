//! The canonical formatter: the text of a document, a structure or an
//! expression as a function of its model, and the code that writes it.

use crate::expr::{
    expr_models, item_models, op_models, part_models, string_views, Expression, FuncCall, Heredoc, ObjectItem,
    ObjectKey, TemplatePart, TraversalOperator,
};
use crate::model::{
    kw_false, kw_null, kw_true, BinaryOperator, ExprModel, HeredocModel, ItemModel, KeyModel, LabelModel,
    OpModel, PartModel, StructureModel, UnaryOperator,
};
use crate::structure::{label_models, structure_models, Attribute, Block, BlockLabel, Body, Structure};
use crate::text::{chars_of, decimal, push_decimal, push_str};
use vstd::prelude::*;

verus! {

/// The character for the hexadecimal digit `d`.
pub open spec fn hex_char(d: int) -> char {
    if d < 10 {
        (d + 48) as char
    } else {
        (d + 87) as char
    }
}

/// The character `c`, written by its code: `\u00` and two hexadecimal
/// digits.
pub open spec fn hex_escape(c: char) -> Seq<char> {
    seq!['\\', 'u', '0', '0', hex_char((c as int) / 16), hex_char((c as int) % 16)]
}

/// How one character of a string is written between quotes.
pub open spec fn escape_char(c: char) -> Seq<char> {
    if c == '"' {
        seq!['\\', '"']
    } else if c == '\\' {
        seq!['\\', '\\']
    } else if c == '\n' {
        seq!['\\', 'n']
    } else if c == '\r' {
        seq!['\\', 'r']
    } else if c == '\t' {
        seq!['\\', 't']
    } else if (c as int) < 32 || c as int == 127 {
        hex_escape(c)
    } else {
        seq![c]
    }
}

/// How the first character of `cs` is written between quotes: doubled where
/// it is `$` or `%` before `{`, which would otherwise open an interpolation
/// or a directive, and by [`escape_char`] elsewhere.
pub open spec fn escape_first(cs: Seq<char>) -> Seq<char> {
    let c = cs[0];
    if (c == '$' || c == '%') && cs.len() > 1 && cs[1] == '{' {
        seq![c, c]
    } else {
        escape_char(c)
    }
}

/// How the text `cs` is written between quotes.
pub open spec fn escape(cs: Seq<char>) -> Seq<char>
    decreases cs.len(),
{
    if cs.len() == 0 {
        Seq::empty()
    } else {
        escape_first(cs) + escape(cs.drop_first())
    }
}

/// How the literal text `t` of a template is written: as text between
/// quotes, but with a dollar sign at its end written by its code where an
/// interpolation follows, which that dollar sign would otherwise turn into
/// text.
pub open spec fn escape_lit(t: Seq<char>, before_interpolation: bool) -> Seq<char> {
    if before_interpolation && t.len() > 0 && t.last() == '$' {
        escape(t.drop_last()) + hex_escape('$')
    } else {
        escape(t)
    }
}

/// The text `cs` as a quoted string.
pub open spec fn quoted(cs: Seq<char>) -> Seq<char> {
    seq!['"'] + escape(cs) + seq!['"']
}

/// The indentation of the lines one level below those indented by `p`.
pub open spec fn deeper(p: Seq<char>) -> Seq<char> {
    p + seq![' ', ' ']
}

/// The text of an expression. With `wide` an object is written one item
/// per line, its lines indented by the given prefix and its items one level
/// deeper; without, on one line. Only an object that is the value of an
/// attribute, the value of an item of such an object, or the expression
/// handed to the formatter is written wide.
pub open spec fn fmt_expr(e: ExprModel, wide: Option<Seq<char>>) -> Seq<char>
    decreases e, 0nat,
{
    match e {
        ExprModel::Null => kw_null(),
        ExprModel::Bool(b) => if b {
            kw_true()
        } else {
            kw_false()
        },
        ExprModel::Number(n) => decimal(n as nat),
        ExprModel::Str(t) => quoted(t),
        ExprModel::Array(items) => seq!['['] + fmt_list(items, 0) + seq![']'],
        ExprModel::Object(items) => if items.len() == 0 {
            seq!['{', '}']
        } else {
            match wide {
                None => seq!['{', ' '] + fmt_items(items, 0) + seq![' ', '}'],
                Some(p) => seq!['{', '\n'] + fmt_items_wide(items, 0, deeper(p)) + p + seq!['}'],
            }
        },
        ExprModel::Template(parts) => seq!['"'] + fmt_parts(parts, 0) + seq!['"'],
        ExprModel::Heredoc(h) => fmt_heredoc(h),
        ExprModel::Variable(n) => n,
        ExprModel::FuncCall(n, args, expand) => n + seq!['('] + fmt_list(args, 0) + (if expand {
            seq!['.', '.', '.']
        } else {
            Seq::empty()
        }) + seq![')'],
        ExprModel::Traversal(base, ops) => fmt_expr(*base, None) + fmt_ops(ops, 0),
        ExprModel::Unary(op, x) => seq![op.symbol()] + fmt_expr(*x, None),
        ExprModel::Binary(l, op, r) => fmt_expr(*l, None) + seq![' '] + op.symbol() + seq![' '] + fmt_expr(
            *r,
            None,
        ),
        ExprModel::Conditional(c, a, b) => fmt_expr(*c, None) + seq![' ', '?', ' '] + fmt_expr(*a, None) + seq![
            ' ',
            ':',
            ' ',
        ] + fmt_expr(*b, None),
        ExprModel::Parenthesis(x) => seq!['('] + fmt_expr(*x, None) + seq![')'],
    }
}

/// The expressions `items[k..]`, separated by a comma and a space.
pub open spec fn fmt_list(items: Seq<ExprModel>, k: int) -> Seq<char>
    decreases items, items.len() - k,
{
    if 0 <= k < items.len() {
        fmt_expr(items[k], None) + (if k + 1 < items.len() {
            seq![',', ' '] + fmt_list(items, k + 1)
        } else {
            Seq::empty()
        })
    } else {
        Seq::empty()
    }
}

/// The key of an object item.
pub open spec fn fmt_key(key: KeyModel) -> Seq<char>
    decreases key, 0nat,
{
    match key {
        KeyModel::Identifier(n) => n,
        KeyModel::Expression(e) => fmt_expr(e, None),
    }
}

/// One object item, `key = value`.
pub open spec fn fmt_item(item: ItemModel, wide: Option<Seq<char>>) -> Seq<char>
    decreases item, 1nat,
{
    fmt_key(item.key) + seq![' ', '=', ' '] + fmt_expr(item.value, wide)
}

/// The object items `items[k..]` on one line, separated by a comma and a space.
pub open spec fn fmt_items(items: Seq<ItemModel>, k: int) -> Seq<char>
    decreases items, items.len() - k,
{
    if 0 <= k < items.len() {
        fmt_item(items[k], None) + (if k + 1 < items.len() {
            seq![',', ' '] + fmt_items(items, k + 1)
        } else {
            Seq::empty()
        })
    } else {
        Seq::empty()
    }
}

/// The object items `items[k..]`, each on a line of its own that is indented
/// by `p`.
pub open spec fn fmt_items_wide(items: Seq<ItemModel>, k: int, p: Seq<char>) -> Seq<char>
    decreases items, items.len() - k,
{
    if 0 <= k < items.len() {
        p + fmt_item(items[k], Some(p)) + seq!['\n'] + fmt_items_wide(items, k + 1, p)
    } else {
        Seq::empty()
    }
}

/// One fragment of a template, before an interpolation or not.
pub open spec fn fmt_part(part: PartModel, before_interpolation: bool) -> Seq<char>
    decreases part, 0nat,
{
    match part {
        PartModel::Literal(t) => escape_lit(t, before_interpolation),
        PartModel::Interpolation(e) => seq!['$', '{'] + fmt_expr(e, None) + seq!['}'],
    }
}

/// An interpolation follows the fragment `parts[k]`.
pub open spec fn interpolation_follows(parts: Seq<PartModel>, k: int) -> bool {
    k + 1 < parts.len() && parts[k + 1] is Interpolation
}

/// The template fragments `parts[k..]`.
pub open spec fn fmt_parts(parts: Seq<PartModel>, k: int) -> Seq<char>
    decreases parts, parts.len() - k,
{
    if 0 <= k < parts.len() {
        fmt_part(parts[k], interpolation_follows(parts, k)) + fmt_parts(parts, k + 1)
    } else {
        Seq::empty()
    }
}

/// One traversal step.
pub open spec fn fmt_op(op: OpModel) -> Seq<char>
    decreases op, 0nat,
{
    match op {
        OpModel::AttrSplat => seq!['.', '*'],
        OpModel::FullSplat => seq!['[', '*', ']'],
        OpModel::GetAttr(n) => seq!['.'] + n,
        OpModel::Index(e) => seq!['['] + fmt_expr(e, None) + seq![']'],
        OpModel::LegacyIndex(n) => seq!['.'] + decimal(n as nat),
    }
}

/// The traversal steps `ops[k..]`.
pub open spec fn fmt_ops(ops: Seq<OpModel>, k: int) -> Seq<char>
    decreases ops, ops.len() - k,
{
    if 0 <= k < ops.len() {
        fmt_op(ops[k]) + fmt_ops(ops, k + 1)
    } else {
        Seq::empty()
    }
}

/// The lines `lines[k..]` of a heredoc, each with its line break.
pub open spec fn fmt_lines(lines: Seq<Seq<char>>, k: int) -> Seq<char>
    decreases lines.len() - k,
{
    if 0 <= k < lines.len() {
        lines[k] + seq!['\n'] + fmt_lines(lines, k + 1)
    } else {
        Seq::empty()
    }
}

/// A heredoc: the opening, the lines, and the delimiter again.
pub open spec fn fmt_heredoc(h: HeredocModel) -> Seq<char> {
    seq!['<', '<'] + (if h.indented {
        seq!['-']
    } else {
        Seq::empty()
    }) + h.delimiter + seq!['\n'] + fmt_lines(h.lines, 0) + h.delimiter
}

/// One label of a block.
pub open spec fn fmt_label(label: LabelModel) -> Seq<char> {
    match label {
        LabelModel::Identifier(n) => n,
        LabelModel::String(t) => quoted(t),
    }
}

/// The labels `labels[k..]`, each after a space.
pub open spec fn fmt_labels(labels: Seq<LabelModel>, k: int) -> Seq<char>
    decreases labels.len() - k,
{
    if 0 <= k < labels.len() {
        seq![' '] + fmt_label(labels[k]) + fmt_labels(labels, k + 1)
    } else {
        Seq::empty()
    }
}

/// A structure that starts on a line indented by `p`, without the line
/// break that ends it: `key = value`, or a block with its labels and, in
/// braces, its body one level deeper.
pub open spec fn fmt_structure(st: StructureModel, p: Seq<char>) -> Seq<char>
    decreases st, 0nat,
{
    match st {
        StructureModel::Attribute(key, value) => key + seq![' ', '=', ' '] + fmt_expr(value, Some(p)),
        StructureModel::Block(ident, labels, body) => ident + fmt_labels(labels, 0) + seq![' ', '{'] + (if body.len()
            == 0 {
            seq!['}']
        } else {
            seq!['\n'] + fmt_body(body, 0, deeper(p)) + p + seq!['}']
        }),
    }
}

/// The structures `body[k..]`, each on lines indented by `p` and ended by a
/// line break.
pub open spec fn fmt_body(body: Seq<StructureModel>, k: int, p: Seq<char>) -> Seq<char>
    decreases body, body.len() - k,
{
    if 0 <= k < body.len() {
        p + fmt_structure(body[k], p) + seq!['\n'] + fmt_body(body, k + 1, p)
    } else {
        Seq::empty()
    }
}

/// The text of a document.
pub open spec fn document(body: Seq<StructureModel>) -> Seq<char> {
    fmt_body(body, 0, Seq::empty())
}

/// The indentation text that the formatter is handed, as contracts see it.
pub open spec fn layout(wide: Option<&Vec<char>>) -> Option<Seq<char>> {
    match wide {
        None => None,
        Some(p) => Some(p@),
    }
}

/// Appends the characters of `more` to `out`.
pub fn extend(out: &mut Vec<char>, more: &Vec<char>)
    ensures
        final(out)@ == old(out)@ + more@,
{
    let mut k: usize = 0;
    while k < more.len()
        invariant
            k <= more.len(),
            out@ == old(out)@ + more@.take(k as int),
        decreases more.len() - k,
    {
        out.push(more[k]);
        assert(more@.take(k as int).push(more@[k as int]) =~= more@.take(k as int + 1));
        k += 1;
    }
    assert(more@.take(more.len() as int) =~= more@);
}

/// The indentation one level below `p`.
pub fn deepen(p: &Vec<char>) -> (r: Vec<char>)
    ensures
        r@ == deeper(p@),
{
    let mut r: Vec<char> = Vec::new();
    extend(&mut r, p);
    r.push(' ');
    r.push(' ');
    assert(r@ =~= deeper(p@));
    r
}

/// The character for the hexadecimal digit `d`.
pub fn hex_of(d: u8) -> (c: char)
    requires
        d < 16,
    ensures
        c == hex_char(d as int),
{
    if d < 10 {
        (d + 48) as char
    } else {
        (d + 87) as char
    }
}

/// Appends one character as it is written between quotes.
pub fn write_escaped_char(out: &mut Vec<char>, c: char)
    ensures
        final(out)@ == old(out)@ + escape_char(c),
{
    let code: u32 = c as u32;
    if c == '"' {
        out.push('\\');
        out.push('"');
    } else if c == '\\' {
        out.push('\\');
        out.push('\\');
    } else if c == '\n' {
        out.push('\\');
        out.push('n');
    } else if c == '\r' {
        out.push('\\');
        out.push('r');
    } else if c == '\t' {
        out.push('\\');
        out.push('t');
    } else if code < 32 || code == 127 {
        let v: u8 = code as u8;
        out.push('\\');
        out.push('u');
        out.push('0');
        out.push('0');
        out.push(hex_of(v / 16));
        out.push(hex_of(v % 16));
        assert(out@ =~= old(out)@ + hex_escape(c));
    } else {
        out.push(c);
    }
    assert(out@ =~= old(out)@ + escape_char(c));
}

/// Appends the text `t` as it is written between quotes.
pub fn write_escaped(out: &mut Vec<char>, t: &Vec<char>)
    ensures
        final(out)@ == old(out)@ + escape(t@),
{
    let mut k: usize = 0;
    assert(t@.skip(0) =~= t@);
    while k < t.len()
        invariant
            k <= t.len(),
            out@ + escape(t@.skip(k as int)) == old(out)@ + escape(t@),
        decreases t.len() - k,
    {
        let c = t[k];
        let ghost rest = t@.skip(k as int);
        let ghost before = out@;
        assert(rest.drop_first() =~= t@.skip(k as int + 1));
        assert(rest[0] == c);
        assert(rest.len() > 1 ==> rest[1] == t@[k as int + 1]);
        if (c == '$' || c == '%') && k + 1 < t.len() && t[k + 1] == '{' {
            out.push(c);
            out.push(c);
            assert(out@ =~= before + escape_first(rest));
        } else {
            write_escaped_char(out, c);
            assert(out@ =~= before + escape_first(rest));
        }
        assert(out@ + escape(t@.skip(k as int + 1)) =~= before + escape(rest));
        k += 1;
    }
    assert(escape(t@.skip(t.len() as int)) =~= Seq::<char>::empty());
    assert(out@ =~= out@ + Seq::<char>::empty());
}

/// Appends the text of `s` as a quoted string.
pub fn write_quoted(out: &mut Vec<char>, s: &str)
    ensures
        final(out)@ == old(out)@ + quoted(s@),
{
    let t = chars_of(s);
    out.push('"');
    write_escaped(out, &t);
    out.push('"');
    assert(out@ =~= old(out)@ + quoted(s@));
}

/// Appends the text of a binary operator.
pub fn write_operator(out: &mut Vec<char>, op: BinaryOperator)
    ensures
        final(out)@ == old(out)@ + op.symbol(),
{
    match op {
        BinaryOperator::Or => {
            out.push('|');
            out.push('|');
        },
        BinaryOperator::And => {
            out.push('&');
            out.push('&');
        },
        BinaryOperator::Eq => {
            out.push('=');
            out.push('=');
        },
        BinaryOperator::NotEq => {
            out.push('!');
            out.push('=');
        },
        BinaryOperator::Less => {
            out.push('<');
        },
        BinaryOperator::Greater => {
            out.push('>');
        },
        BinaryOperator::LessEq => {
            out.push('<');
            out.push('=');
        },
        BinaryOperator::GreaterEq => {
            out.push('>');
            out.push('=');
        },
        BinaryOperator::Plus => {
            out.push('+');
        },
        BinaryOperator::Minus => {
            out.push('-');
        },
        BinaryOperator::Mul => {
            out.push('*');
        },
        BinaryOperator::Div => {
            out.push('/');
        },
        BinaryOperator::Mod => {
            out.push('%');
        },
    }
    assert(out@ =~= old(out)@ + op.symbol());
}

/// Appends a heredoc.
pub fn write_heredoc(out: &mut Vec<char>, h: &Heredoc)
    ensures
        final(out)@ == old(out)@ + fmt_heredoc(h@),
{
    out.push('<');
    out.push('<');
    if h.indented {
        out.push('-');
    }
    push_str(out, h.delimiter.as_str());
    out.push('\n');
    let ghost head = out@;
    let ghost lines = string_views(h.lines@);
    let mut k: usize = 0;
    while k < h.lines.len()
        invariant
            k <= h.lines.len(),
            lines == string_views(h.lines@),
            out@ + fmt_lines(lines, k as int) == head + fmt_lines(lines, 0),
        decreases h.lines.len() - k,
    {
        let ghost before = out@;
        push_str(out, h.lines[k].as_str());
        out.push('\n');
        assert(out@ + fmt_lines(lines, k as int + 1) =~= before + fmt_lines(lines, k as int));
        k += 1;
    }
    assert(out@ =~= head + fmt_lines(lines, 0));
    push_str(out, h.delimiter.as_str());
    assert(out@ =~= old(out)@ + fmt_heredoc(h@));
}

/// Appends the text of a keyword or of a number.
pub fn write_plain(out: &mut Vec<char>, e: &Expression)
    requires
        e is Null || e is Bool || e is Number,
    ensures
        final(out)@ == old(out)@ + fmt_expr(e@, None),
{
    match e {
        Expression::Null => {
            out.push('n');
            out.push('u');
            out.push('l');
            out.push('l');
            assert(out@ =~= old(out)@ + kw_null());
        },
        Expression::Bool(b) => {
            if *b {
                out.push('t');
                out.push('r');
                out.push('u');
                out.push('e');
                assert(out@ =~= old(out)@ + kw_true());
            } else {
                out.push('f');
                out.push('a');
                out.push('l');
                out.push('s');
                out.push('e');
                assert(out@ =~= old(out)@ + kw_false());
            }
        },
        Expression::Number(n) => {
            push_decimal(out, *n);
        },
        _ => {},
    }
}

/// Appends an object.
pub fn write_object(out: &mut Vec<char>, items: &Vec<ObjectItem>, wide: Option<&Vec<char>>)
    ensures
        final(out)@ == old(out)@ + fmt_expr(ExprModel::Object(item_models(items@)), layout(wide)),
    decreases items, 3nat,
{
    if items.len() == 0 {
        out.push('{');
        out.push('}');
        assert(out@ =~= old(out)@ + seq!['{', '}']);
    } else {
        match wide {
            None => {
                out.push('{');
                out.push(' ');
                write_items(out, items);
                out.push(' ');
                out.push('}');
                assert(out@ =~= old(out)@ + (seq!['{', ' '] + fmt_items(item_models(items@), 0) + seq![' ', '}']));
            },
            Some(p) => {
                out.push('{');
                out.push('\n');
                let inner = deepen(p);
                write_items_wide(out, items, &inner);
                extend(out, p);
                out.push('}');
                assert(out@ =~= old(out)@ + (seq!['{', '\n'] + fmt_items_wide(item_models(items@), 0, deeper(p@))
                    + p@ + seq!['}']));
            },
        }
    }
}

/// Appends a function call.
pub fn write_call(out: &mut Vec<char>, c: &FuncCall)
    ensures
        final(out)@ == old(out)@ + fmt_expr(
            ExprModel::FuncCall(c.name@, expr_models(c.args@), c.expand_final),
            None,
        ),
    decreases c, 2nat,
{
    push_str(out, c.name.as_str());
    out.push('(');
    write_list(out, &c.args);
    if c.expand_final {
        out.push('.');
        out.push('.');
        out.push('.');
    }
    out.push(')');
    assert(out@ =~= old(out)@ + (c.name@ + seq!['('] + fmt_list(expr_models(c.args@), 0) + (if c.expand_final {
        seq!['.', '.', '.']
    } else {
        Seq::empty()
    }) + seq![')']));
}

/// Appends a binary operation.
pub fn write_binary(out: &mut Vec<char>, e: &Expression)
    requires
        e is Binary,
    ensures
        final(out)@ == old(out)@ + fmt_expr(e@, None),
    decreases e, 0nat,
{
    match e {
        Expression::Binary(l, op, r) => {
            write_expr(out, l, None);
            out.push(' ');
            write_operator(out, *op);
            out.push(' ');
            write_expr(out, r, None);
            assert(out@ =~= old(out)@ + (fmt_expr(l@, None) + seq![' '] + op.symbol() + seq![' '] + fmt_expr(
                r@,
                None,
            )));
        },
        _ => {},
    }
}

/// Appends a conditional.
pub fn write_conditional(out: &mut Vec<char>, e: &Expression)
    requires
        e is Conditional,
    ensures
        final(out)@ == old(out)@ + fmt_expr(e@, None),
    decreases e, 0nat,
{
    match e {
        Expression::Conditional(c, a, b) => {
            write_expr(out, c, None);
            out.push(' ');
            out.push('?');
            out.push(' ');
            write_expr(out, a, None);
            out.push(' ');
            out.push(':');
            out.push(' ');
            write_expr(out, b, None);
            assert(out@ =~= old(out)@ + (fmt_expr(c@, None) + seq![' ', '?', ' '] + fmt_expr(a@, None) + seq![
                ' ',
                ':',
                ' ',
            ] + fmt_expr(b@, None)));
        },
        _ => {},
    }
}

/// Appends the text of an expression.
pub fn write_expr(out: &mut Vec<char>, e: &Expression, wide: Option<&Vec<char>>)
    ensures
        final(out)@ == old(out)@ + fmt_expr(e@, layout(wide)),
    decreases e, 1nat,
{
    match e {
        Expression::Null => {
            write_plain(out, e);
        },
        Expression::Bool(_) => {
            write_plain(out, e);
        },
        Expression::Number(_) => {
            write_plain(out, e);
        },
        Expression::String(s) => {
            write_quoted(out, s.as_str());
        },
        Expression::Array(items) => {
            out.push('[');
            write_list(out, items);
            out.push(']');
            assert(out@ =~= old(out)@ + (seq!['['] + fmt_list(expr_models(items@), 0) + seq![']']));
        },
        Expression::Object(items) => {
            write_object(out, items, wide);
        },
        Expression::Template(parts) => {
            out.push('"');
            write_parts(out, parts);
            out.push('"');
            assert(out@ =~= old(out)@ + (seq!['"'] + fmt_parts(part_models(parts@), 0) + seq!['"']));
        },
        Expression::Heredoc(h) => {
            write_heredoc(out, h);
        },
        Expression::Variable(n) => {
            push_str(out, n.as_str());
        },
        Expression::FuncCall(c) => {
            write_call(out, c);
        },
        Expression::Traversal(base, ops) => {
            write_expr(out, base, None);
            write_ops(out, ops);
            assert(out@ =~= old(out)@ + (fmt_expr(base@, None) + fmt_ops(op_models(ops@), 0)));
        },
        Expression::Unary(op, x) => {
            match op {
                UnaryOperator::Neg => out.push('-'),
                UnaryOperator::Not => out.push('!'),
            }
            write_expr(out, x, None);
            assert(out@ =~= old(out)@ + (seq![op.symbol()] + fmt_expr(x@, None)));
        },
        Expression::Binary(..) => {
            write_binary(out, e);
        },
        Expression::Conditional(..) => {
            write_conditional(out, e);
        },
        Expression::Parenthesis(x) => {
            out.push('(');
            write_expr(out, x, None);
            out.push(')');
            assert(out@ =~= old(out)@ + (seq!['('] + fmt_expr(x@, None) + seq![')']));
        },
    }
}

/// Appends expressions, separated by a comma and a space.
pub fn write_list(out: &mut Vec<char>, items: &Vec<Expression>)
    ensures
        final(out)@ == old(out)@ + fmt_list(expr_models(items@), 0),
    decreases items, 1nat,
{
    let ghost ms = expr_models(items@);
    let mut k: usize = 0;
    while k < items.len()
        invariant
            k <= items.len(),
            ms == expr_models(items@),
            out@ + fmt_list(ms, k as int) == old(out)@ + fmt_list(ms, 0),
        decreases items.len() - k,
    {
        let ghost before = out@;
        write_expr(out, &items[k], None);
        if k + 1 < items.len() {
            out.push(',');
            out.push(' ');
        }
        assert(out@ + fmt_list(ms, k as int + 1) =~= before + fmt_list(ms, k as int));
        k += 1;
    }
    assert(out@ =~= out@ + fmt_list(ms, k as int));
}

/// Appends one object item, `key = value`.
pub fn write_item(out: &mut Vec<char>, item: &ObjectItem, wide: Option<&Vec<char>>)
    ensures
        final(out)@ == old(out)@ + fmt_item(item@, layout(wide)),
    decreases item, 1nat,
{
    match &item.key {
        ObjectKey::Identifier(n) => {
            push_str(out, n.as_str());
        },
        ObjectKey::Expression(k) => {
            write_expr(out, k, None);
        },
    }
    out.push(' ');
    out.push('=');
    out.push(' ');
    write_expr(out, &item.value, wide);
    assert(out@ =~= old(out)@ + fmt_item(item@, layout(wide)));
}

/// Appends object items on one line, separated by a comma and a space.
pub fn write_items(out: &mut Vec<char>, items: &Vec<ObjectItem>)
    ensures
        final(out)@ == old(out)@ + fmt_items(item_models(items@), 0),
    decreases items, 2nat,
{
    let ghost ms = item_models(items@);
    let mut k: usize = 0;
    while k < items.len()
        invariant
            k <= items.len(),
            ms == item_models(items@),
            out@ + fmt_items(ms, k as int) == old(out)@ + fmt_items(ms, 0),
        decreases items.len() - k,
    {
        let ghost before = out@;
        write_item(out, &items[k], None);
        if k + 1 < items.len() {
            out.push(',');
            out.push(' ');
        }
        assert(out@ + fmt_items(ms, k as int + 1) =~= before + fmt_items(ms, k as int));
        k += 1;
    }
    assert(out@ =~= out@ + fmt_items(ms, k as int));
}

/// Appends object items, each on a line of its own that is indented by `p`.
pub fn write_items_wide(out: &mut Vec<char>, items: &Vec<ObjectItem>, p: &Vec<char>)
    ensures
        final(out)@ == old(out)@ + fmt_items_wide(item_models(items@), 0, p@),
    decreases items, 2nat,
{
    let ghost ms = item_models(items@);
    let mut k: usize = 0;
    while k < items.len()
        invariant
            k <= items.len(),
            ms == item_models(items@),
            out@ + fmt_items_wide(ms, k as int, p@) == old(out)@ + fmt_items_wide(ms, 0, p@),
        decreases items.len() - k,
    {
        let ghost before = out@;
        extend(out, p);
        write_item(out, &items[k], Some(p));
        out.push('\n');
        assert(out@ + fmt_items_wide(ms, k as int + 1, p@) =~= before + fmt_items_wide(ms, k as int, p@));
        k += 1;
    }
    assert(out@ =~= out@ + fmt_items_wide(ms, k as int, p@));
}

/// Appends the fragments of a template.
pub fn write_parts(out: &mut Vec<char>, parts: &Vec<TemplatePart>)
    ensures
        final(out)@ == old(out)@ + fmt_parts(part_models(parts@), 0),
    decreases parts, 1nat,
{
    let ghost ms = part_models(parts@);
    let mut k: usize = 0;
    while k < parts.len()
        invariant
            k <= parts.len(),
            ms == part_models(parts@),
            out@ + fmt_parts(ms, k as int) == old(out)@ + fmt_parts(ms, 0),
        decreases parts.len() - k,
    {
        let ghost before = out@;
        match &parts[k] {
            TemplatePart::Literal(t) => {
                let mut cs = chars_of(t.as_str());
                let follows = k + 1 < parts.len() && match &parts[k + 1] {
                    TemplatePart::Interpolation(_) => true,
                    TemplatePart::Literal(_) => false,
                };
                assert(follows == interpolation_follows(ms, k as int));
                if follows && cs.len() > 0 && cs[cs.len() - 1] == '$' {
                    cs.pop();
                    assert(cs@ =~= t@.drop_last());
                    write_escaped(out, &cs);
                    out.push('\\');
                    out.push('u');
                    out.push('0');
                    out.push('0');
                    out.push('2');
                    out.push('4');
                    assert(hex_escape('$') =~= seq!['\\', 'u', '0', '0', '2', '4']);
                    assert(out@ =~= before + (escape(t@.drop_last()) + hex_escape('$')));
                } else {
                    write_escaped(out, &cs);
                }
            },
            TemplatePart::Interpolation(e) => {
                out.push('$');
                out.push('{');
                write_expr(out, e, None);
                out.push('}');
            },
        }
        assert(out@ =~= before + fmt_part(ms[k as int], interpolation_follows(ms, k as int)));
        assert(out@ + fmt_parts(ms, k as int + 1) =~= before + fmt_parts(ms, k as int));
        k += 1;
    }
    assert(out@ =~= out@ + fmt_parts(ms, k as int));
}

/// Appends traversal steps.
pub fn write_ops(out: &mut Vec<char>, ops: &Vec<TraversalOperator>)
    ensures
        final(out)@ == old(out)@ + fmt_ops(op_models(ops@), 0),
    decreases ops, 1nat,
{
    let ghost ms = op_models(ops@);
    let mut k: usize = 0;
    while k < ops.len()
        invariant
            k <= ops.len(),
            ms == op_models(ops@),
            out@ + fmt_ops(ms, k as int) == old(out)@ + fmt_ops(ms, 0),
        decreases ops.len() - k,
    {
        let ghost before = out@;
        match &ops[k] {
            TraversalOperator::AttrSplat => {
                out.push('.');
                out.push('*');
            },
            TraversalOperator::FullSplat => {
                out.push('[');
                out.push('*');
                out.push(']');
            },
            TraversalOperator::GetAttr(n) => {
                out.push('.');
                push_str(out, n.as_str());
            },
            TraversalOperator::Index(e) => {
                out.push('[');
                write_expr(out, e, None);
                out.push(']');
            },
            TraversalOperator::LegacyIndex(n) => {
                out.push('.');
                push_decimal(out, *n);
            },
        }
        assert(out@ =~= before + fmt_op(ms[k as int]));
        assert(out@ + fmt_ops(ms, k as int + 1) =~= before + fmt_ops(ms, k as int));
        k += 1;
    }
    assert(out@ =~= out@ + fmt_ops(ms, k as int));
}

/// Appends the labels of a block, each after a space.
pub fn write_labels(out: &mut Vec<char>, labels: &Vec<BlockLabel>)
    ensures
        final(out)@ == old(out)@ + fmt_labels(label_models(labels@), 0),
{
    let ghost ms = label_models(labels@);
    let mut k: usize = 0;
    while k < labels.len()
        invariant
            k <= labels.len(),
            ms == label_models(labels@),
            out@ + fmt_labels(ms, k as int) == old(out)@ + fmt_labels(ms, 0),
        decreases labels.len() - k,
    {
        let ghost before = out@;
        out.push(' ');
        match &labels[k] {
            BlockLabel::Identifier(n) => {
                push_str(out, n.as_str());
            },
            BlockLabel::String(t) => {
                write_quoted(out, t.as_str());
            },
        }
        assert(out@ =~= before + seq![' '] + fmt_label(ms[k as int]));
        assert(out@ + fmt_labels(ms, k as int + 1) =~= before + fmt_labels(ms, k as int));
        k += 1;
    }
    assert(out@ =~= out@ + fmt_labels(ms, k as int));
}

/// Appends an attribute that starts on a line indented by `p`.
pub fn write_attribute(out: &mut Vec<char>, a: &Attribute, p: &Vec<char>)
    ensures
        final(out)@ == old(out)@ + fmt_structure(a@, p@),
{
    push_str(out, a.key.as_str());
    out.push(' ');
    out.push('=');
    out.push(' ');
    write_expr(out, &a.value, Some(p));
    assert(out@ =~= old(out)@ + fmt_structure(a@, p@));
}

/// Appends a block that starts on a line indented by `p`.
pub fn write_block(out: &mut Vec<char>, b: &Block, p: &Vec<char>)
    ensures
        final(out)@ == old(out)@ + fmt_structure(b@, p@),
    decreases b, 0nat,
{
    push_str(out, b.identifier.as_str());
    write_labels(out, &b.labels);
    out.push(' ');
    out.push('{');
    if b.body.structures.len() == 0 {
        out.push('}');
    } else {
        out.push('\n');
        let inner = deepen(p);
        write_structures(out, &b.body.structures, &inner);
        extend(out, p);
        out.push('}');
    }
    assert(out@ =~= old(out)@ + fmt_structure(b@, p@));
}

/// Appends a structure that starts on a line indented by `p`.
pub fn write_structure(out: &mut Vec<char>, st: &Structure, p: &Vec<char>)
    ensures
        final(out)@ == old(out)@ + fmt_structure(st@, p@),
    decreases st, 1nat,
{
    match st {
        Structure::Attribute(a) => write_attribute(out, a, p),
        Structure::Block(b) => write_block(out, b, p),
    }
}

/// Appends structures, each on lines indented by `p` and ended by a line
/// break.
pub fn write_structures(out: &mut Vec<char>, body: &Vec<Structure>, p: &Vec<char>)
    ensures
        final(out)@ == old(out)@ + fmt_body(structure_models(body@), 0, p@),
    decreases body, 2nat,
{
    let ghost ms = structure_models(body@);
    let mut k: usize = 0;
    while k < body.len()
        invariant
            k <= body.len(),
            ms == structure_models(body@),
            out@ + fmt_body(ms, k as int, p@) == old(out)@ + fmt_body(ms, 0, p@),
        decreases body.len() - k,
    {
        let ghost before = out@;
        extend(out, p);
        write_structure(out, &body[k], p);
        out.push('\n');
        assert(out@ + fmt_body(ms, k as int + 1, p@) =~= before + fmt_body(ms, k as int, p@));
        k += 1;
    }
    assert(out@ =~= out@ + fmt_body(ms, k as int, p@));
}

/// What can be formatted: documents, structures and expressions.
pub trait Format {
    /// The canonical text.
    spec fn text(&self) -> Seq<char>;

    /// Appends the canonical text to `out`.
    fn write(&self, out: &mut Vec<char>)
        ensures
            final(out)@ == old(out)@ + self.text(),
    ;
}

impl Format for Expression {
    /// An expression by itself is written wide, without indentation.
    open spec fn text(&self) -> Seq<char> {
        fmt_expr(self@, Some(Seq::empty()))
    }

    fn write(&self, out: &mut Vec<char>) {
        let p: Vec<char> = Vec::new();
        write_expr(out, self, Some(&p));
    }
}

impl Format for FuncCall {
    /// A function call by itself.
    open spec fn text(&self) -> Seq<char> {
        self.name@ + seq!['('] + fmt_list(expr_models(self.args@), 0) + (if self.expand_final {
            seq!['.', '.', '.']
        } else {
            Seq::empty()
        }) + seq![')']
    }

    fn write(&self, out: &mut Vec<char>) {
        push_str(out, self.name.as_str());
        out.push('(');
        write_list(out, &self.args);
        if self.expand_final {
            out.push('.');
            out.push('.');
            out.push('.');
        }
        out.push(')');
        assert(out@ =~= old(out)@ + self.text());
    }
}

impl Format for Attribute {
    /// An attribute by itself is a line: `key = value` and a line break.
    open spec fn text(&self) -> Seq<char> {
        fmt_structure(self@, Seq::empty()) + seq!['\n']
    }

    fn write(&self, out: &mut Vec<char>) {
        let p: Vec<char> = Vec::new();
        write_attribute(out, self, &p);
        out.push('\n');
        assert(out@ =~= old(out)@ + self.text());
    }
}

impl Format for Block {
    /// A block by itself ends with a line break.
    open spec fn text(&self) -> Seq<char> {
        fmt_structure(self@, Seq::empty()) + seq!['\n']
    }

    fn write(&self, out: &mut Vec<char>) {
        let p: Vec<char> = Vec::new();
        write_block(out, self, &p);
        out.push('\n');
        assert(out@ =~= old(out)@ + self.text());
    }
}

impl Format for Structure {
    /// A structure by itself ends with a line break.
    open spec fn text(&self) -> Seq<char> {
        fmt_structure(self@, Seq::empty()) + seq!['\n']
    }

    fn write(&self, out: &mut Vec<char>) {
        let p: Vec<char> = Vec::new();
        write_structure(out, self, &p);
        out.push('\n');
        assert(out@ =~= old(out)@ + self.text());
    }
}

impl Format for Body {
    /// The text of the document that the body is.
    open spec fn text(&self) -> Seq<char> {
        document(self@)
    }

    fn write(&self, out: &mut Vec<char>) {
        let p: Vec<char> = Vec::new();
        write_structures(out, &self.structures, &p);
    }
}

/// Why formatting failed. Writing into memory never fails; the type stands
/// for the failures of an output sink.
#[derive(Debug, Clone, Copy, PartialEq, Eq, Structural)]
pub enum FormatError {
    /// The sink refused the text.
    Sink,
}

/// The canonical text of `value`.
pub fn to_string<T: Format>(value: &T) -> (s: String)
    ensures
        s@ == value.text(),
{
    let mut out: Vec<char> = Vec::new();
    value.write(&mut out);
    let s = crate::text::string_of(&out, 0, out.len());
    assert(out@.subrange(0, out.len() as int) =~= out@);
    assert(Seq::<char>::empty() + value.text() =~= value.text());
    s
}

/// The canonical text of `value`. Formatting into a string always succeeds.
pub fn format<T: Format>(value: &T) -> (r: Result<String, FormatError>)
    ensures
        r matches Ok(s) && s@ == value.text(),
{
    Ok(to_string(value))
}

} // verus!
