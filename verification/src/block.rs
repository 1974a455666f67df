//! Blocks, their labels, and the builder that makes a block step by step.

use crate::ident::Identifier;
use crate::model::{is_ident, LabelModel, StructureModel};
use crate::structure::{
    label_models, lemma_label_models_push, lemma_structure_models_push, structure_models, Attribute, Block,
    BlockLabel, Body, Structure,
};
use vstd::prelude::*;

verus! {

/// The text of a label, whichever kind it is of.
pub open spec fn label_text(label: LabelModel) -> Seq<char> {
    match label {
        LabelModel::Identifier(n) => n,
        LabelModel::String(t) => t,
    }
}

/// The models of two sequences of labels, one after the other.
pub proof fn lemma_label_models_concat(a: Seq<BlockLabel>, b: Seq<BlockLabel>)
    ensures
        label_models(a + b) == label_models(a) + label_models(b),
{
    assert(label_models(a + b) =~= label_models(a) + label_models(b));
}

/// The models of two sequences of structures, one after the other.
pub proof fn lemma_structure_models_concat(a: Seq<Structure>, b: Seq<Structure>)
    ensures
        structure_models(a + b) == structure_models(a) + structure_models(b),
{
    assert(structure_models(a + b) =~= structure_models(a) + structure_models(b));
}

/// The structures that a sequence of attributes makes.
pub open spec fn attribute_models(v: Seq<Attribute>) -> Seq<StructureModel> {
    Seq::new(v.len(), |i: int| v[i]@)
}

/// The structures that a sequence of blocks makes.
pub open spec fn block_models(v: Seq<Block>) -> Seq<StructureModel> {
    Seq::new(v.len(), |i: int| v[i]@)
}

impl Block {
    /// A block without labels and with an empty body.
    pub fn new(ident: Identifier) -> (b: Block)
        ensures
            b@ == StructureModel::Block(ident@, Seq::empty(), Seq::empty()),
    {
        let b = Block { identifier: ident, labels: Vec::new(), body: Body { structures: Vec::new() } };
        assert(label_models(b.labels@) =~= Seq::empty());
        assert(structure_models(b.body.structures@) =~= Seq::empty());
        b
    }

    /// A builder for a block with the given identifier.
    pub fn builder(identifier: Identifier) -> (b: BlockBuilder)
        ensures
            b@ == StructureModel::Block(identifier@, Seq::empty(), Seq::empty()),
    {
        BlockBuilder::new(identifier)
    }

    /// The block's identifier.
    pub fn identifier(&self) -> (s: &str)
        ensures
            s@ == self.identifier@,
            is_ident(s@),
    {
        self.identifier.as_str()
    }

    /// The block's labels.
    pub fn labels(&self) -> (l: &[BlockLabel])
        ensures
            l@ == self.labels@,
    {
        self.labels.as_slice()
    }

    /// The block's body.
    pub fn body(&self) -> (b: &Body)
        ensures
            *b == self.body,
    {
        &self.body
    }
}

impl BlockLabel {
    /// The label's text. Whether it was a quoted string or a bare identifier
    /// can no longer be told from the result.
    pub fn into_inner(self) -> (s: String)
        ensures
            s@ == label_text(self@),
    {
        match self {
            BlockLabel::Identifier(ident) => ident.into_inner(),
            BlockLabel::String(string) => string,
        }
    }

    /// The label's text.
    pub fn as_str(&self) -> (s: &str)
        ensures
            s@ == label_text(self@),
    {
        match self {
            BlockLabel::Identifier(ident) => ident.as_str(),
            BlockLabel::String(string) => string.as_str(),
        }
    }
}

/// Builds a [`Block`] by adding labels, attributes and nested blocks.
#[derive(Debug)]
pub struct BlockBuilder {
    identifier: Identifier,
    labels: Vec<BlockLabel>,
    body: Vec<Structure>,
}

impl View for BlockBuilder {
    type V = StructureModel;

    /// The block that `build` would make now.
    closed spec fn view(&self) -> StructureModel {
        StructureModel::Block(self.identifier@, label_models(self.labels@), structure_models(self.body@))
    }
}

/// The block `b` with `more` added to its labels.
pub open spec fn with_labels(b: StructureModel, more: Seq<LabelModel>) -> StructureModel {
    StructureModel::Block(b->Block_0, b->Block_1 + more, b->Block_2)
}

/// The block `b` with `more` added to its body.
pub open spec fn with_structures(b: StructureModel, more: Seq<StructureModel>) -> StructureModel {
    StructureModel::Block(b->Block_0, b->Block_1, b->Block_2 + more)
}

impl BlockBuilder {
    /// A builder for a block with the given identifier.
    pub fn new(identifier: Identifier) -> (b: BlockBuilder)
        ensures
            b@ == StructureModel::Block(identifier@, Seq::empty(), Seq::empty()),
    {
        let b = BlockBuilder { identifier, labels: Vec::new(), body: Vec::new() };
        assert(label_models(b.labels@) =~= Seq::empty());
        assert(structure_models(b.body@) =~= Seq::empty());
        b
    }

    /// Adds a label.
    pub fn add_label(self, label: BlockLabel) -> (b: BlockBuilder)
        ensures
            b@ == with_labels(self@, seq![label@]),
    {
        let mut b = self;
        proof {
            lemma_label_models_push(b.labels@, label);
        }
        b.labels.push(label);
        assert(label_models(self.labels@).push(label@) =~= label_models(self.labels@) + seq![label@]);
        b
    }

    /// Adds labels, in order.
    pub fn add_labels(self, labels: Vec<BlockLabel>) -> (b: BlockBuilder)
        ensures
            b@ == with_labels(self@, label_models(labels@)),
    {
        let mut b = self;
        let mut labels = labels;
        proof {
            lemma_label_models_concat(b.labels@, labels@);
        }
        b.labels.append(&mut labels);
        b
    }

    /// Adds an attribute to the body.
    pub fn add_attribute(self, attr: Attribute) -> (b: BlockBuilder)
        ensures
            b@ == with_structures(self@, seq![attr@]),
    {
        self.add_structure(Structure::Attribute(attr))
    }

    /// Adds attributes to the body, in order.
    pub fn add_attributes(self, attrs: Vec<Attribute>) -> (b: BlockBuilder)
        ensures
            b@ == with_structures(self@, attribute_models(attrs@)),
    {
        let mut b = self;
        let mut attrs = attrs;
        let ghost all = attribute_models(attrs@);
        let mut rest: Vec<Structure> = Vec::new();
        assert(structure_models(rest@) =~= Seq::empty());
        while attrs.len() > 0
            invariant
                attribute_models(attrs@) + structure_models(rest@).reverse() == all,
            decreases attrs.len(),
        {
            let ghost before = attrs@;
            let ghost done = rest@;
            let a = attrs.pop().unwrap();
            let st = Structure::Attribute(a);
            rest.push(st);
            assert(attribute_models(attrs@) + structure_models(rest@).reverse() =~= attribute_models(before)
                + structure_models(done).reverse());
        }
        assert(structure_models(rest@).reverse() =~= all);
        b.push_reversed(rest)
    }

    /// Adds a nested block to the body.
    pub fn add_block(self, block: Block) -> (b: BlockBuilder)
        ensures
            b@ == with_structures(self@, seq![block@]),
    {
        self.add_structure(Structure::Block(block))
    }

    /// Adds nested blocks to the body, in order.
    pub fn add_blocks(self, blocks: Vec<Block>) -> (b: BlockBuilder)
        ensures
            b@ == with_structures(self@, block_models(blocks@)),
    {
        let mut b = self;
        let mut blocks = blocks;
        let ghost all = block_models(blocks@);
        let mut rest: Vec<Structure> = Vec::new();
        assert(structure_models(rest@) =~= Seq::empty());
        while blocks.len() > 0
            invariant
                block_models(blocks@) + structure_models(rest@).reverse() == all,
            decreases blocks.len(),
        {
            let ghost before = blocks@;
            let ghost done = rest@;
            let a = blocks.pop().unwrap();
            let st = Structure::Block(a);
            rest.push(st);
            assert(block_models(blocks@) + structure_models(rest@).reverse() =~= block_models(before)
                + structure_models(done).reverse());
        }
        assert(structure_models(rest@).reverse() =~= all);
        b.push_reversed(rest)
    }

    /// Adds a structure to the body.
    pub fn add_structure(self, structure: Structure) -> (b: BlockBuilder)
        ensures
            b@ == with_structures(self@, seq![structure@]),
    {
        let mut b = self;
        proof {
            lemma_structure_models_push(b.body@, structure);
        }
        b.body.push(structure);
        assert(structure_models(self.body@).push(structure@) =~= structure_models(self.body@) + seq![structure@]);
        b
    }

    /// Adds structures to the body, in order.
    pub fn add_structures(self, structures: Vec<Structure>) -> (b: BlockBuilder)
        ensures
            b@ == with_structures(self@, structure_models(structures@)),
    {
        let mut b = self;
        let mut structures = structures;
        proof {
            lemma_structure_models_concat(b.body@, structures@);
        }
        b.body.append(&mut structures);
        b
    }

    /// Adds the structures of `rest` to the body, the last one first.
    fn push_reversed(self, rest: Vec<Structure>) -> (b: BlockBuilder)
        ensures
            b@ == with_structures(self@, structure_models(rest@).reverse()),
    {
        let mut b = self;
        let mut rest = rest;
        let ghost all = structure_models(rest@).reverse();
        let ghost start = structure_models(b.body@);
        assert(start + Seq::<StructureModel>::empty() =~= start);
        while rest.len() > 0
            invariant
                b.identifier == self.identifier,
                b.labels == self.labels,
                start == structure_models(self.body@),
                all.len() >= rest.len(),
                structure_models(b.body@) == start + all.take(all.len() - rest.len()),
                structure_models(rest@).reverse() == all.skip(all.len() - rest.len()),
            decreases rest.len(),
        {
            let ghost before = rest@;
            let ghost body_before = b.body@;
            let st = rest.pop().unwrap();
            proof {
                lemma_structure_models_push(b.body@, st);
                assert(structure_models(before).reverse()[0] == st@);
                assert(structure_models(rest@).reverse() =~= structure_models(before).reverse().drop_first());
            }
            b.body.push(st);
            assert(structure_models(b.body@) =~= start + all.take(all.len() - rest.len()));
            assert(structure_models(rest@).reverse() =~= all.skip(all.len() - rest.len()));
        }
        assert(all.take(all.len() as int) =~= all);
        b
    }

    /// Makes the block of what was added.
    pub fn build(self) -> (b: Block)
        ensures
            b@ == self@,
    {
        Block { identifier: self.identifier, labels: self.labels, body: Body { structures: self.body } }
    }
}

} // verus!
