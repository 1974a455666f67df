//! Expressions: the closed set of forms that the value of an attribute takes.

use crate::ident::Identifier;
use crate::model::{BinaryOperator, ExprModel, HeredocModel, ItemModel, KeyModel, OpModel, PartModel, UnaryOperator};
use vstd::prelude::*;

verus! {

/// An expression.
#[derive(Debug, PartialEq, Eq)]
pub enum Expression {
    /// `null`
    Null,
    /// `true` or `false`
    Bool(bool),
    /// An unsigned decimal integer. A sign is a unary operation.
    Number(u64),
    /// A quoted string without interpolation.
    String(String),
    /// `[a, b]`
    Array(Vec<Expression>),
    /// `{ k = v }`, the items in the order written.
    Object(Vec<ObjectItem>),
    /// A quoted string with at least one interpolation.
    Template(Vec<TemplatePart>),
    /// `<<EOT` up to the line that holds `EOT`.
    Heredoc(Heredoc),
    /// A name that stands for a value.
    Variable(Identifier),
    /// `name(args)`
    FuncCall(FuncCall),
    /// A base expression followed by traversal steps.
    Traversal(Box<Expression>, Vec<TraversalOperator>),
    /// An operator before its operand.
    Unary(UnaryOperator, Box<Expression>),
    /// An operator between its operands.
    Binary(Box<Expression>, BinaryOperator, Box<Expression>),
    /// `cond ? a : b`
    Conditional(Box<Expression>, Box<Expression>, Box<Expression>),
    /// `(e)`
    Parenthesis(Box<Expression>),
}

/// One `key = value` item of an object.
#[derive(Debug, PartialEq, Eq)]
pub struct ObjectItem {
    pub key: ObjectKey,
    pub value: Expression,
}

/// The key of an object item.
#[derive(Debug, PartialEq, Eq)]
pub enum ObjectKey {
    /// A bare identifier.
    Identifier(Identifier),
    /// Any other expression, a quoted string for one.
    Expression(Expression),
}

/// A fragment of a template.
#[derive(Debug, PartialEq, Eq)]
pub enum TemplatePart {
    /// Text that stands for itself.
    Literal(String),
    /// `${e}`
    Interpolation(Expression),
}

/// One step of a traversal.
#[derive(Debug, PartialEq, Eq)]
pub enum TraversalOperator {
    /// `.*`
    AttrSplat,
    /// `[*]`
    FullSplat,
    /// `.name`
    GetAttr(Identifier),
    /// `[e]`
    Index(Expression),
    /// `.0`
    LegacyIndex(u64),
}

/// A heredoc.
#[derive(Debug, PartialEq, Eq)]
pub struct Heredoc {
    /// The word that opens and closes it.
    pub delimiter: Identifier,
    /// Opened with `<<-` rather than `<<`.
    pub indented: bool,
    /// The lines between, without their line breaks.
    pub lines: Vec<String>,
}

/// A function call.
#[derive(Debug, PartialEq, Eq)]
pub struct FuncCall {
    /// The function's name.
    pub name: Identifier,
    /// The arguments, in order.
    pub args: Vec<Expression>,
    /// `...` follows the last argument.
    pub expand_final: bool,
}

/// Builds a [`FuncCall`] argument by argument.
#[derive(Debug)]
pub struct FuncCallBuilder {
    name: Identifier,
    args: Vec<Expression>,
    expand_final: bool,
}

/// The models of a sequence of expressions.
pub open spec fn expr_models(v: Seq<Expression>) -> Seq<ExprModel>
    decreases v,
{
    Seq::new(
        v.len(),
        |i: int|
            if 0 <= i < v.len() {
                v[i].model()
            } else {
                ExprModel::Null
            },
    )
}

/// The models of a sequence of object items.
pub open spec fn item_models(v: Seq<ObjectItem>) -> Seq<ItemModel>
    decreases v,
{
    Seq::new(
        v.len(),
        |i: int|
            if 0 <= i < v.len() {
                v[i].model()
            } else {
                arbitrary()
            },
    )
}

/// The models of a sequence of template fragments.
pub open spec fn part_models(v: Seq<TemplatePart>) -> Seq<PartModel>
    decreases v,
{
    Seq::new(
        v.len(),
        |i: int|
            if 0 <= i < v.len() {
                v[i].model()
            } else {
                arbitrary()
            },
    )
}

/// The models of a sequence of traversal steps.
pub open spec fn op_models(v: Seq<TraversalOperator>) -> Seq<OpModel>
    decreases v,
{
    Seq::new(
        v.len(),
        |i: int|
            if 0 <= i < v.len() {
                v[i].model()
            } else {
                arbitrary()
            },
    )
}

/// The texts of a sequence of strings.
pub open spec fn string_views(v: Seq<String>) -> Seq<Seq<char>> {
    Seq::new(v.len(), |i: int| v[i]@)
}

impl Expression {
    /// The value that this expression stands for in contracts.
    pub open spec fn model(&self) -> ExprModel
        decreases self,
    {
        match self {
            Expression::Null => ExprModel::Null,
            Expression::Bool(b) => ExprModel::Bool(*b),
            Expression::Number(n) => ExprModel::Number(*n),
            Expression::String(s) => ExprModel::Str(s@),
            Expression::Array(items) => ExprModel::Array(expr_models(items@)),
            Expression::Object(items) => ExprModel::Object(item_models(items@)),
            Expression::Template(parts) => ExprModel::Template(part_models(parts@)),
            Expression::Heredoc(h) => ExprModel::Heredoc(h@),
            Expression::Variable(n) => ExprModel::Variable(n@),
            Expression::FuncCall(c) => ExprModel::FuncCall(c.name@, expr_models(c.args@), c.expand_final),
            Expression::Traversal(base, ops) => ExprModel::Traversal(Box::new(base.model()), op_models(ops@)),
            Expression::Unary(op, x) => ExprModel::Unary(*op, Box::new(x.model())),
            Expression::Binary(l, op, r) => ExprModel::Binary(Box::new(l.model()), *op, Box::new(r.model())),
            Expression::Conditional(c, a, b) => ExprModel::Conditional(
                Box::new(c.model()),
                Box::new(a.model()),
                Box::new(b.model()),
            ),
            Expression::Parenthesis(x) => ExprModel::Parenthesis(Box::new(x.model())),
        }
    }
}

impl ObjectItem {
    /// The value that this item stands for in contracts.
    pub open spec fn model(&self) -> ItemModel
        decreases self,
    {
        ItemModel { key: self.key.model(), value: self.value.model() }
    }
}

impl ObjectKey {
    /// The value that this key stands for in contracts.
    pub open spec fn model(&self) -> KeyModel
        decreases self,
    {
        match self {
            ObjectKey::Identifier(n) => KeyModel::Identifier(n@),
            ObjectKey::Expression(e) => KeyModel::Expression(e.model()),
        }
    }
}

impl TemplatePart {
    /// The value that this fragment stands for in contracts.
    pub open spec fn model(&self) -> PartModel
        decreases self,
    {
        match self {
            TemplatePart::Literal(t) => PartModel::Literal(t@),
            TemplatePart::Interpolation(e) => PartModel::Interpolation(e.model()),
        }
    }
}

impl TraversalOperator {
    /// The value that this step stands for in contracts.
    pub open spec fn model(&self) -> OpModel
        decreases self,
    {
        match self {
            TraversalOperator::AttrSplat => OpModel::AttrSplat,
            TraversalOperator::FullSplat => OpModel::FullSplat,
            TraversalOperator::GetAttr(n) => OpModel::GetAttr(n@),
            TraversalOperator::Index(e) => OpModel::Index(e.model()),
            TraversalOperator::LegacyIndex(n) => OpModel::LegacyIndex(*n),
        }
    }
}

impl View for Expression {
    type V = ExprModel;

    open spec fn view(&self) -> ExprModel {
        self.model()
    }
}

impl View for ObjectItem {
    type V = ItemModel;

    open spec fn view(&self) -> ItemModel {
        self.model()
    }
}

impl View for ObjectKey {
    type V = KeyModel;

    open spec fn view(&self) -> KeyModel {
        self.model()
    }
}

impl View for TemplatePart {
    type V = PartModel;

    open spec fn view(&self) -> PartModel {
        self.model()
    }
}

impl View for TraversalOperator {
    type V = OpModel;

    open spec fn view(&self) -> OpModel {
        self.model()
    }
}

impl View for Heredoc {
    type V = HeredocModel;

    open spec fn view(&self) -> HeredocModel {
        HeredocModel { delimiter: self.delimiter@, indented: self.indented, lines: string_views(self.lines@) }
    }
}

/// Appending an expression appends its model.
pub proof fn lemma_expr_models_push(v: Seq<Expression>, e: Expression)
    ensures
        expr_models(v.push(e)) == expr_models(v).push(e.model()),
        expr_models(Seq::empty()) == Seq::<ExprModel>::empty(),
{
    assert(expr_models(v.push(e)) =~= expr_models(v).push(e.model()));
    assert(expr_models(Seq::empty()) =~= Seq::<ExprModel>::empty());
}

/// Appending an object item appends its model.
pub proof fn lemma_item_models_push(v: Seq<ObjectItem>, e: ObjectItem)
    ensures
        item_models(v.push(e)) == item_models(v).push(e.model()),
        item_models(Seq::empty()) == Seq::<ItemModel>::empty(),
{
    assert(item_models(v.push(e)) =~= item_models(v).push(e.model()));
    assert(item_models(Seq::empty()) =~= Seq::<ItemModel>::empty());
}

/// Appending a template fragment appends its model.
pub proof fn lemma_part_models_push(v: Seq<TemplatePart>, e: TemplatePart)
    ensures
        part_models(v.push(e)) == part_models(v).push(e.model()),
        part_models(Seq::empty()) == Seq::<PartModel>::empty(),
{
    assert(part_models(v.push(e)) =~= part_models(v).push(e.model()));
    assert(part_models(Seq::empty()) =~= Seq::<PartModel>::empty());
}

/// Appending a traversal step appends its model.
pub proof fn lemma_op_models_push(v: Seq<TraversalOperator>, e: TraversalOperator)
    ensures
        op_models(v.push(e)) == op_models(v).push(e.model()),
        op_models(Seq::empty()) == Seq::<OpModel>::empty(),
{
    assert(op_models(v.push(e)) =~= op_models(v).push(e.model()));
    assert(op_models(Seq::empty()) =~= Seq::<OpModel>::empty());
}

/// Appending a string appends its text.
pub proof fn lemma_string_views_push(v: Seq<String>, e: String)
    ensures
        string_views(v.push(e)) == string_views(v).push(e@),
        string_views(Seq::empty()) == Seq::<Seq<char>>::empty(),
{
    assert(string_views(v.push(e)) =~= string_views(v).push(e@));
    assert(string_views(Seq::empty()) =~= Seq::<Seq<char>>::empty());
}

impl FuncCall {
    /// A call of the function `name` without arguments.
    pub fn new(name: Identifier) -> (c: FuncCall)
        ensures
            c.name@ == name@,
            c.args@ == Seq::<Expression>::empty(),
            !c.expand_final,
    {
        FuncCall { name, args: Vec::new(), expand_final: false }
    }

    /// A builder for a call of the function `name`.
    pub fn builder(name: Identifier) -> (b: FuncCallBuilder)
        ensures
            b.name() == name@,
            b.args() == Seq::<ExprModel>::empty(),
            !b.expands(),
    {
        let b = FuncCallBuilder { name, args: Vec::new(), expand_final: false };
        assert(expr_models(b.args@) =~= Seq::empty());
        b
    }
}

impl FuncCallBuilder {
    /// The name of the function that is called.
    pub closed spec fn name(&self) -> Seq<char> {
        self.name@
    }

    /// The arguments added so far.
    pub closed spec fn args(&self) -> Seq<ExprModel> {
        expr_models(self.args@)
    }

    /// Whether `...` will follow the last argument.
    pub closed spec fn expands(&self) -> bool {
        self.expand_final
    }

    /// Adds an argument.
    pub fn arg(self, value: Expression) -> (b: FuncCallBuilder)
        ensures
            b.name() == self.name(),
            b.args() == self.args().push(value@),
            b.expands() == self.expands(),
    {
        let mut b = self;
        proof {
            lemma_expr_models_push(b.args@, value);
        }
        b.args.push(value);
        b
    }

    /// Says whether `...` follows the last argument.
    pub fn expand_final(self, yes: bool) -> (b: FuncCallBuilder)
        ensures
            b.name() == self.name(),
            b.args() == self.args(),
            b.expands() == yes,
    {
        let mut b = self;
        b.expand_final = yes;
        b
    }

    /// Makes the function call.
    pub fn build(self) -> (c: FuncCall)
        ensures
            c.name@ == self.name(),
            expr_models(c.args@) == self.args(),
            c.expand_final == self.expands(),
    {
        FuncCall { name: self.name, args: self.args, expand_final: self.expand_final }
    }
}

/// A copy of each of the expressions of `v`.
pub fn clone_exprs(v: &Vec<Expression>) -> (r: Vec<Expression>)
    ensures
        expr_models(r@) == expr_models(v@),
    decreases v, 1nat,
{
    let mut r: Vec<Expression> = Vec::new();
    let mut k: usize = 0;
    while k < v.len()
        invariant
            k <= v.len(),
            r.len() == k,
            forall|n: int| 0 <= n < k ==> (#[trigger] r@[n])@ == v@[n]@,
        decreases v.len() - k,
    {
        let e = v[k].clone();
        r.push(e);
        k += 1;
    }
    assert(expr_models(r@) =~= expr_models(v@));
    r
}

/// A copy of each of the object items of `v`.
pub fn clone_items(v: &Vec<ObjectItem>) -> (r: Vec<ObjectItem>)
    ensures
        item_models(r@) == item_models(v@),
    decreases v, 1nat,
{
    let mut r: Vec<ObjectItem> = Vec::new();
    let mut k: usize = 0;
    while k < v.len()
        invariant
            k <= v.len(),
            r.len() == k,
            forall|n: int| 0 <= n < k ==> (#[trigger] r@[n])@ == v@[n]@,
        decreases v.len() - k,
    {
        let e = v[k].clone();
        r.push(e);
        k += 1;
    }
    assert(item_models(r@) =~= item_models(v@));
    r
}

/// A copy of each of the template fragments of `v`.
pub fn clone_parts(v: &Vec<TemplatePart>) -> (r: Vec<TemplatePart>)
    ensures
        part_models(r@) == part_models(v@),
    decreases v, 1nat,
{
    let mut r: Vec<TemplatePart> = Vec::new();
    let mut k: usize = 0;
    while k < v.len()
        invariant
            k <= v.len(),
            r.len() == k,
            forall|n: int| 0 <= n < k ==> (#[trigger] r@[n])@ == v@[n]@,
        decreases v.len() - k,
    {
        let e = v[k].clone();
        r.push(e);
        k += 1;
    }
    assert(part_models(r@) =~= part_models(v@));
    r
}

/// A copy of each of the traversal steps of `v`.
pub fn clone_ops(v: &Vec<TraversalOperator>) -> (r: Vec<TraversalOperator>)
    ensures
        op_models(r@) == op_models(v@),
    decreases v, 1nat,
{
    let mut r: Vec<TraversalOperator> = Vec::new();
    let mut k: usize = 0;
    while k < v.len()
        invariant
            k <= v.len(),
            r.len() == k,
            forall|n: int| 0 <= n < k ==> (#[trigger] r@[n])@ == v@[n]@,
        decreases v.len() - k,
    {
        let e = v[k].clone();
        r.push(e);
        k += 1;
    }
    assert(op_models(r@) =~= op_models(v@));
    r
}

impl Clone for Heredoc {
    fn clone(&self) -> (r: Self)
        ensures
            r@ == self@,
    {
        let mut lines: Vec<String> = Vec::new();
        let mut k: usize = 0;
        while k < self.lines.len()
            invariant
                k <= self.lines.len(),
                lines.len() == k,
                forall|n: int| 0 <= n < k ==> (#[trigger] lines@[n])@ == self.lines@[n]@,
            decreases self.lines.len() - k,
        {
            let line = self.lines[k].clone();
            lines.push(line);
            k += 1;
        }
        assert(string_views(lines@) =~= string_views(self.lines@));
        Heredoc { delimiter: self.delimiter.clone(), indented: self.indented, lines }
    }
}

impl Clone for FuncCall {
    fn clone(&self) -> (r: Self)
        ensures
            r.name@ == self.name@,
            expr_models(r.args@) == expr_models(self.args@),
            r.expand_final == self.expand_final,
        decreases self, 0nat,
    {
        FuncCall { name: self.name.clone(), args: clone_exprs(&self.args), expand_final: self.expand_final }
    }
}

impl Clone for ObjectKey {
    fn clone(&self) -> (r: Self)
        ensures
            r@ == self@,
        decreases self, 0nat,
    {
        match self {
            ObjectKey::Identifier(n) => ObjectKey::Identifier(n.clone()),
            ObjectKey::Expression(e) => ObjectKey::Expression(e.clone()),
        }
    }
}

impl Clone for ObjectItem {
    fn clone(&self) -> (r: Self)
        ensures
            r@ == self@,
        decreases self, 0nat,
    {
        ObjectItem { key: self.key.clone(), value: self.value.clone() }
    }
}

impl Clone for TemplatePart {
    fn clone(&self) -> (r: Self)
        ensures
            r@ == self@,
        decreases self, 0nat,
    {
        match self {
            TemplatePart::Literal(t) => TemplatePart::Literal(t.clone()),
            TemplatePart::Interpolation(e) => TemplatePart::Interpolation(e.clone()),
        }
    }
}

impl Clone for TraversalOperator {
    fn clone(&self) -> (r: Self)
        ensures
            r@ == self@,
        decreases self, 0nat,
    {
        match self {
            TraversalOperator::AttrSplat => TraversalOperator::AttrSplat,
            TraversalOperator::FullSplat => TraversalOperator::FullSplat,
            TraversalOperator::GetAttr(n) => TraversalOperator::GetAttr(n.clone()),
            TraversalOperator::Index(e) => TraversalOperator::Index(e.clone()),
            TraversalOperator::LegacyIndex(n) => TraversalOperator::LegacyIndex(*n),
        }
    }
}

impl Clone for Expression {
    fn clone(&self) -> (r: Self)
        ensures
            r@ == self@,
        decreases self, 0nat,
    {
        match self {
            Expression::Null => Expression::Null,
            Expression::Bool(b) => Expression::Bool(*b),
            Expression::Number(n) => Expression::Number(*n),
            Expression::String(s) => Expression::String(s.clone()),
            Expression::Array(items) => Expression::Array(clone_exprs(items)),
            Expression::Object(items) => Expression::Object(clone_items(items)),
            Expression::Template(parts) => Expression::Template(clone_parts(parts)),
            Expression::Heredoc(h) => Expression::Heredoc(h.clone()),
            Expression::Variable(n) => Expression::Variable(n.clone()),
            Expression::FuncCall(c) => Expression::FuncCall(c.clone()),
            Expression::Traversal(base, ops) => Expression::Traversal(Box::new((&**base).clone()), clone_ops(ops)),
            Expression::Unary(op, x) => Expression::Unary(*op, Box::new((&**x).clone())),
            Expression::Binary(l, op, r) => Expression::Binary(
                Box::new((&**l).clone()),
                *op,
                Box::new((&**r).clone()),
            ),
            Expression::Conditional(c, a, b) => Expression::Conditional(
                Box::new((&**c).clone()),
                Box::new((&**a).clone()),
                Box::new((&**b).clone()),
            ),
            Expression::Parenthesis(x) => Expression::Parenthesis(Box::new((&**x).clone())),
        }
    }
}

} // verus!
