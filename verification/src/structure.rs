//! Bodies and what they hold: attributes and blocks.

use crate::expr::Expression;
use crate::ident::Identifier;
use crate::model::{LabelModel, StructureModel};
use vstd::prelude::*;

verus! {

/// A body: structures in the order written. Keys and block identifiers may
/// repeat; nothing is merged or dropped.
#[derive(Debug, PartialEq, Eq)]
pub struct Body {
    pub structures: Vec<Structure>,
}

/// An attribute or a block.
#[derive(Debug, PartialEq, Eq)]
pub enum Structure {
    Attribute(Attribute),
    Block(Block),
}

/// `key = value`
#[derive(Debug, PartialEq, Eq)]
pub struct Attribute {
    pub key: Identifier,
    pub value: Expression,
}

/// A block: an identifier, labels, and a body in braces.
#[derive(Debug, PartialEq, Eq)]
pub struct Block {
    /// The block identifier.
    pub identifier: Identifier,
    /// Zero or more block labels.
    pub labels: Vec<BlockLabel>,
    /// The block's body.
    pub body: Body,
}

/// A label of a block: a bare identifier or a quoted string.
#[derive(Debug, PartialEq, Eq)]
pub enum BlockLabel {
    /// A bare label.
    Identifier(Identifier),
    /// A quoted string.
    String(String),
}

/// The models of a sequence of structures.
pub open spec fn structure_models(v: Seq<Structure>) -> Seq<StructureModel>
    decreases v,
{
    Seq::new(
        v.len(),
        |i: int|
            if 0 <= i < v.len() {
                v[i].model()
            } else {
                arbitrary()
            },
    )
}

/// The models of a sequence of labels.
pub open spec fn label_models(v: Seq<BlockLabel>) -> Seq<LabelModel> {
    Seq::new(v.len(), |i: int| v[i]@)
}

impl Structure {
    /// The value that this structure stands for in contracts.
    pub open spec fn model(&self) -> StructureModel
        decreases self,
    {
        match self {
            Structure::Attribute(a) => StructureModel::Attribute(a.key@, a.value@),
            Structure::Block(b) => StructureModel::Block(
                b.identifier@,
                label_models(b.labels@),
                structure_models(b.body.structures@),
            ),
        }
    }
}

impl View for BlockLabel {
    type V = LabelModel;

    open spec fn view(&self) -> LabelModel {
        match self {
            BlockLabel::Identifier(n) => LabelModel::Identifier(n@),
            BlockLabel::String(s) => LabelModel::String(s@),
        }
    }
}

impl View for Structure {
    type V = StructureModel;

    open spec fn view(&self) -> StructureModel {
        self.model()
    }
}

impl View for Attribute {
    type V = StructureModel;

    open spec fn view(&self) -> StructureModel {
        StructureModel::Attribute(self.key@, self.value@)
    }
}

impl View for Block {
    type V = StructureModel;

    open spec fn view(&self) -> StructureModel {
        StructureModel::Block(self.identifier@, label_models(self.labels@), structure_models(self.body.structures@))
    }
}

impl View for Body {
    type V = Seq<StructureModel>;

    open spec fn view(&self) -> Seq<StructureModel> {
        structure_models(self.structures@)
    }
}

/// Appending a structure appends its model.
pub proof fn lemma_structure_models_push(v: Seq<Structure>, e: Structure)
    ensures
        structure_models(v.push(e)) == structure_models(v).push(e.model()),
        structure_models(Seq::empty()) == Seq::<StructureModel>::empty(),
{
    assert(structure_models(v.push(e)) =~= structure_models(v).push(e.model()));
    assert(structure_models(Seq::empty()) =~= Seq::<StructureModel>::empty());
}

/// Appending a label appends its model.
pub proof fn lemma_label_models_push(v: Seq<BlockLabel>, e: BlockLabel)
    ensures
        label_models(v.push(e)) == label_models(v).push(e@),
        label_models(Seq::empty()) == Seq::<LabelModel>::empty(),
{
    assert(label_models(v.push(e)) =~= label_models(v).push(e@));
    assert(label_models(Seq::empty()) =~= Seq::<LabelModel>::empty());
}

impl Attribute {
    /// The attribute `key = value`.
    pub fn new(key: Identifier, value: Expression) -> (a: Attribute)
        ensures
            a@ == StructureModel::Attribute(key@, value@),
    {
        Attribute { key, value }
    }
}

impl Body {
    /// The body that holds `structures`, in order.
    pub fn new(structures: Vec<Structure>) -> (b: Body)
        ensures
            b@ == structure_models(structures@),
    {
        Body { structures }
    }
}

/// A copy of each of the structures of `v`.
pub fn clone_structures(v: &Vec<Structure>) -> (r: Vec<Structure>)
    ensures
        structure_models(r@) == structure_models(v@),
    decreases v, 1nat,
{
    let mut r: Vec<Structure> = Vec::new();
    let mut k: usize = 0;
    while k < v.len()
        invariant
            k <= v.len(),
            r.len() == k,
            forall|n: int| 0 <= n < k ==> (#[trigger] r@[n])@ == v@[n]@,
        decreases v.len() - k,
    {
        let e = v[k].clone();
        r.push(e);
        k += 1;
    }
    assert(structure_models(r@) =~= structure_models(v@));
    r
}

impl Clone for BlockLabel {
    fn clone(&self) -> (r: Self)
        ensures
            r@ == self@,
    {
        match self {
            BlockLabel::Identifier(n) => BlockLabel::Identifier(n.clone()),
            BlockLabel::String(s) => BlockLabel::String(s.clone()),
        }
    }
}

impl Clone for Attribute {
    fn clone(&self) -> (r: Self)
        ensures
            r@ == self@,
    {
        Attribute { key: self.key.clone(), value: self.value.clone() }
    }
}

impl Clone for Body {
    fn clone(&self) -> (r: Self)
        ensures
            r@ == self@,
        decreases self, 0nat,
    {
        Body { structures: clone_structures(&self.structures) }
    }
}

impl Clone for Block {
    fn clone(&self) -> (r: Self)
        ensures
            r@ == self@,
        decreases self, 0nat,
    {
        let mut labels: Vec<BlockLabel> = Vec::new();
        let mut k: usize = 0;
        while k < self.labels.len()
            invariant
                k <= self.labels.len(),
                labels.len() == k,
                forall|n: int| 0 <= n < k ==> (#[trigger] labels@[n])@ == self.labels@[n]@,
            decreases self.labels.len() - k,
        {
            let label = self.labels[k].clone();
            labels.push(label);
            k += 1;
        }
        assert(label_models(labels@) =~= label_models(self.labels@));
        Block { identifier: self.identifier.clone(), labels, body: self.body.clone() }
    }
}

impl Clone for Structure {
    fn clone(&self) -> (r: Self)
        ensures
            r@ == self@,
        decreases self, 0nat,
    {
        match self {
            Structure::Attribute(a) => Structure::Attribute(a.clone()),
            Structure::Block(b) => Structure::Block(b.clone()),
        }
    }
}

} // verus!
