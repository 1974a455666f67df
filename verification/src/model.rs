//! The mathematical model of documents and expressions: the values that the
//! contracts of the parser and of the formatter speak of, and the predicate
//! that says which of them are trees of the grammar.

use crate::text::{at, has_at, is_ident_char, is_ident_start, run_end, CharClass};
use vstd::prelude::*;

verus! {

/// How deeply brackets, blocks, operands of unary operators and branches of
/// conditionals may nest. The parser reports deeper input as a failure.
pub const MAX_DEPTH: usize = 128;

/// A prefix operator.
#[derive(Clone, Copy, PartialEq, Eq, Debug, Structural)]
pub enum UnaryOperator {
    /// Arithmetic negation, `-`.
    Neg,
    /// Logical negation, `!`.
    Not,
}

/// An infix operator.
#[derive(Clone, Copy, PartialEq, Eq, Debug, Structural)]
pub enum BinaryOperator {
    /// `||`
    Or,
    /// `&&`
    And,
    /// `==`
    Eq,
    /// `!=`
    NotEq,
    /// `<`
    Less,
    /// `>`
    Greater,
    /// `<=`
    LessEq,
    /// `>=`
    GreaterEq,
    /// `+`
    Plus,
    /// `-`
    Minus,
    /// `*`
    Mul,
    /// `/`
    Div,
    /// `%`
    Mod,
}

impl UnaryOperator {
    /// The character that denotes the operator.
    pub open spec fn symbol(self) -> char {
        match self {
            UnaryOperator::Neg => '-',
            UnaryOperator::Not => '!',
        }
    }
}

impl BinaryOperator {
    /// How tightly the operator binds, from 1 (loosest) to 6.
    pub open spec fn precedence(self) -> int {
        match self {
            BinaryOperator::Or => 1,
            BinaryOperator::And => 2,
            BinaryOperator::Eq | BinaryOperator::NotEq => 3,
            BinaryOperator::Less | BinaryOperator::Greater | BinaryOperator::LessEq | BinaryOperator::GreaterEq => 4,
            BinaryOperator::Plus | BinaryOperator::Minus => 5,
            BinaryOperator::Mul | BinaryOperator::Div | BinaryOperator::Mod => 6,
        }
    }

    /// The text that denotes the operator.
    pub open spec fn symbol(self) -> Seq<char> {
        match self {
            BinaryOperator::Or => seq!['|', '|'],
            BinaryOperator::And => seq!['&', '&'],
            BinaryOperator::Eq => seq!['=', '='],
            BinaryOperator::NotEq => seq!['!', '='],
            BinaryOperator::Less => seq!['<'],
            BinaryOperator::Greater => seq!['>'],
            BinaryOperator::LessEq => seq!['<', '='],
            BinaryOperator::GreaterEq => seq!['>', '='],
            BinaryOperator::Plus => seq!['+'],
            BinaryOperator::Minus => seq!['-'],
            BinaryOperator::Mul => seq!['*'],
            BinaryOperator::Div => seq!['/'],
            BinaryOperator::Mod => seq!['%'],
        }
    }

    /// The precedence, as a machine integer.
    pub fn binding(&self) -> (p: u8)
        ensures
            p == self.precedence(),
            1 <= p <= 6,
    {
        match self {
            BinaryOperator::Or => 1,
            BinaryOperator::And => 2,
            BinaryOperator::Eq | BinaryOperator::NotEq => 3,
            BinaryOperator::Less | BinaryOperator::Greater | BinaryOperator::LessEq | BinaryOperator::GreaterEq => 4,
            BinaryOperator::Plus | BinaryOperator::Minus => 5,
            BinaryOperator::Mul | BinaryOperator::Div | BinaryOperator::Mod => 6,
        }
    }
}

/// An expression.
pub enum ExprModel {
    Null,
    Bool(bool),
    Number(u64),
    Str(Seq<char>),
    Array(Seq<ExprModel>),
    Object(Seq<ItemModel>),
    Template(Seq<PartModel>),
    Heredoc(HeredocModel),
    Variable(Seq<char>),
    /// Name, arguments, and whether `...` follows the last argument.
    FuncCall(Seq<char>, Seq<ExprModel>, bool),
    Traversal(Box<ExprModel>, Seq<OpModel>),
    Unary(UnaryOperator, Box<ExprModel>),
    Binary(Box<ExprModel>, BinaryOperator, Box<ExprModel>),
    /// Condition, value if true, value if false.
    Conditional(Box<ExprModel>, Box<ExprModel>, Box<ExprModel>),
    Parenthesis(Box<ExprModel>),
}

/// One `key = value` item of an object.
pub struct ItemModel {
    pub key: KeyModel,
    pub value: ExprModel,
}

/// The key of an object item.
pub enum KeyModel {
    Identifier(Seq<char>),
    Expression(ExprModel),
}

/// A fragment of a template.
pub enum PartModel {
    Literal(Seq<char>),
    Interpolation(ExprModel),
}

/// One step of a traversal.
pub enum OpModel {
    /// `.*`
    AttrSplat,
    /// `[*]`
    FullSplat,
    /// `.name`
    GetAttr(Seq<char>),
    /// `[expr]`
    Index(ExprModel),
    /// `.0`
    LegacyIndex(u64),
}

/// A heredoc: its delimiter, whether it was opened with `<<-`, and its lines
/// without their line breaks.
pub struct HeredocModel {
    pub delimiter: Seq<char>,
    pub indented: bool,
    pub lines: Seq<Seq<char>>,
}

/// A label of a block.
pub enum LabelModel {
    Identifier(Seq<char>),
    String(Seq<char>),
}

/// An attribute or a block.
pub enum StructureModel {
    /// Key and value.
    Attribute(Seq<char>, ExprModel),
    /// Identifier, labels and body.
    Block(Seq<char>, Seq<LabelModel>, Seq<StructureModel>),
}

/// `n` is written as the grammar writes an identifier.
pub open spec fn is_ident(n: Seq<char>) -> bool {
    &&& n.len() > 0
    &&& is_ident_start(n[0])
    &&& forall|k: int| 0 <= k < n.len() ==> is_ident_char(#[trigger] n[k])
}

/// The text `null`.
pub open spec fn kw_null() -> Seq<char> {
    seq!['n', 'u', 'l', 'l']
}

/// The text `true`.
pub open spec fn kw_true() -> Seq<char> {
    seq!['t', 'r', 'u', 'e']
}

/// The text `false`.
pub open spec fn kw_false() -> Seq<char> {
    seq!['f', 'a', 'l', 's', 'e']
}

/// `n` is one of the words that denote a literal.
pub open spec fn is_keyword(n: Seq<char>) -> bool {
    n == kw_null() || n == kw_true() || n == kw_false()
}

/// The line `line` of a heredoc would end it: after leading blanks it starts
/// with the delimiter, and no identifier character follows.
pub open spec fn closes(line: Seq<char>, delimiter: Seq<char>) -> bool {
    let k = run_end(line, 0, CharClass::Blank);
    has_at(line, k, delimiter) && !is_ident_char(at(line, k + delimiter.len()))
}

/// The fragment `parts[i]` of a template and the one behind it can stand
/// next to each other: literal text is followed by an interpolation.
pub open spec fn joins(parts: Seq<PartModel>, i: int) -> bool {
    parts[i] is Literal ==> parts[i + 1] is Interpolation
}

/// The grammar level of an expression: 0 for a conditional, the operator's
/// precedence for a binary operation, 7 for a unary operation, 8 for a
/// traversal and 9 for everything that is complete in itself.
pub open spec fn level(e: ExprModel) -> int {
    match e {
        ExprModel::Conditional(..) => 0,
        ExprModel::Binary(_, op, _) => op.precedence(),
        ExprModel::Unary(..) => 7,
        ExprModel::Traversal(..) => 8,
        _ => 9,
    }
}

/// `e` is a tree of the grammar that nests at most `d` levels deep: every
/// identifier is written as one, no variable or bare key is a keyword,
/// operands sit where precedence puts them without parentheses, a template
/// holds an interpolation and no two literals in a row, and no heredoc line
/// closes the heredoc.
pub open spec fn valid_expr(e: ExprModel, d: nat) -> bool
    decreases e,
{
    match e {
        ExprModel::Null => true,
        ExprModel::Bool(_) => true,
        ExprModel::Number(_) => true,
        ExprModel::Str(_) => true,
        ExprModel::Array(items) => d > 0 && forall|i: int|
            0 <= i < items.len() ==> valid_expr(#[trigger] items[i], (d - 1) as nat),
        ExprModel::Object(items) => d > 0 && forall|i: int|
            0 <= i < items.len() ==> valid_item(#[trigger] items[i], (d - 1) as nat),
        ExprModel::Template(parts) => {
            &&& d > 0
            &&& parts.len() > 0
            &&& parts.len() == 1 ==> parts[0] is Interpolation
            &&& forall|i: int|
                0 <= i < parts.len() ==> valid_part(#[trigger] parts[i], (d - 1) as nat)
            &&& forall|i: int| 0 <= i < parts.len() - 1 ==> #[trigger] joins(parts, i)
        },
        ExprModel::Heredoc(h) => {
            &&& is_ident(h.delimiter)
            &&& forall|i: int|
                0 <= i < h.lines.len() ==> valid_line(#[trigger] h.lines[i], h.delimiter)
        },
        ExprModel::Variable(n) => is_ident(n) && !is_keyword(n),
        ExprModel::FuncCall(n, args, expand) => {
            &&& is_ident(n)
            &&& d > 0
            &&& expand ==> args.len() > 0
            &&& forall|i: int| 0 <= i < args.len() ==> valid_expr(#[trigger] args[i], (d - 1) as nat)
        },
        ExprModel::Traversal(base, ops) => {
            &&& valid_expr(*base, d)
            &&& level(*base) == 9
            &&& ops.len() > 0
            &&& forall|i: int| 0 <= i < ops.len() ==> valid_op(#[trigger] ops[i], d)
        },
        ExprModel::Unary(_, x) => d > 0 && valid_expr(*x, (d - 1) as nat) && level(*x) >= 7,
        ExprModel::Binary(l, op, r) => {
            &&& valid_expr(*l, d)
            &&& valid_expr(*r, d)
            &&& level(*l) >= op.precedence()
            &&& level(*r) > op.precedence()
        },
        ExprModel::Conditional(c, a, b) => {
            &&& valid_expr(*c, d)
            &&& level(*c) >= 1
            &&& d > 0
            &&& valid_expr(*a, (d - 1) as nat)
            &&& valid_expr(*b, (d - 1) as nat)
        },
        ExprModel::Parenthesis(x) => d > 0 && valid_expr(*x, (d - 1) as nat),
    }
}

/// Validity of an object item: see [`valid_expr`]. A key that is an
/// expression is not a lone variable, which is written as a bare key.
pub open spec fn valid_item(item: ItemModel, d: nat) -> bool
    decreases item,
{
    &&& valid_expr(item.value, d)
    &&& match item.key {
        KeyModel::Identifier(n) => is_ident(n) && !is_keyword(n),
        KeyModel::Expression(k) => valid_expr(k, d) && !(k is Variable),
    }
}

/// Validity of a template fragment: see [`valid_expr`].
pub open spec fn valid_part(part: PartModel, d: nat) -> bool
    decreases part,
{
    match part {
        PartModel::Literal(t) => t.len() > 0,
        PartModel::Interpolation(e) => valid_expr(e, d),
    }
}

/// Validity of a traversal step: see [`valid_expr`].
pub open spec fn valid_op(op: OpModel, d: nat) -> bool
    decreases op,
{
    match op {
        OpModel::AttrSplat => true,
        OpModel::FullSplat => true,
        OpModel::GetAttr(n) => is_ident(n),
        OpModel::Index(e) => d > 0 && valid_expr(e, (d - 1) as nat),
        OpModel::LegacyIndex(_) => true,
    }
}

/// A heredoc line holds no line break and does not close the heredoc.
pub open spec fn valid_line(line: Seq<char>, delimiter: Seq<char>) -> bool {
    &&& forall|k: int| 0 <= k < line.len() ==> #[trigger] line[k] != '\n'
    &&& !closes(line, delimiter)
}

/// A label that is an identifier is written as one.
pub open spec fn valid_label(label: LabelModel) -> bool {
    match label {
        LabelModel::Identifier(n) => is_ident(n),
        LabelModel::String(_) => true,
    }
}

/// `st` is a structure of the grammar whose blocks and expressions nest at
/// most `d` levels deep.
pub open spec fn valid_structure(st: StructureModel, d: nat) -> bool
    decreases st,
{
    match st {
        StructureModel::Attribute(key, value) => is_ident(key) && valid_expr(value, d),
        StructureModel::Block(ident, labels, body) => {
            &&& is_ident(ident)
            &&& forall|i: int| 0 <= i < labels.len() ==> valid_label(#[trigger] labels[i])
            &&& d > 0
            &&& forall|i: int|
                0 <= i < body.len() ==> valid_structure(#[trigger] body[i], (d - 1) as nat)
        },
    }
}

/// `body` is a body of the grammar that nests at most `d` levels deep.
pub open spec fn valid_body(body: Seq<StructureModel>, d: nat) -> bool {
    forall|i: int| 0 <= i < body.len() ==> valid_structure(#[trigger] body[i], d)
}

} // verus!
