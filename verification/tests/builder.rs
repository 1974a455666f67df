use hcl::block::BlockBuilder;
use hcl::expr::{Expression, FuncCall};
use hcl::format::to_string;
use hcl::ident::Identifier;
use hcl::structure::{Attribute, Block, BlockLabel, Body, Structure};

fn id(name: &str) -> Identifier {
    Identifier::new(name).unwrap()
}

fn number(key: &str, n: u64) -> Attribute {
    Attribute::new(id(key), Expression::Number(n))
}

#[test]
fn new_block_is_empty() {
    let b = Block::new(id("b"));
    assert_eq!(b.identifier(), "b");
    assert!(b.labels().is_empty());
    assert_eq!(b.body(), &Body::new(vec![]));
    assert_eq!(Block::builder(id("b")).build(), b);
}

#[test]
fn builder_adds_in_order() {
    let block = Block::builder(id("resource"))
        .add_label(BlockLabel::String("one".to_string()))
        .add_labels(vec![BlockLabel::Identifier(id("two")), BlockLabel::String("three".to_string())])
        .add_attribute(number("a", 1))
        .add_attributes(vec![number("b", 2), number("c", 3), number("d", 4)])
        .add_block(Block::new(id("e")))
        .add_blocks(vec![Block::new(id("f")), Block::new(id("g")), Block::new(id("h"))])
        .add_structure(Structure::Attribute(number("i", 9)))
        .add_structures(vec![Structure::Block(Block::new(id("j"))), Structure::Attribute(number("k", 11))])
        .build();
    assert_eq!(
        to_string(&block),
        "resource \"one\" two \"three\" {\n  a = 1\n  b = 2\n  c = 3\n  d = 4\n  e {}\n  f {}\n  g {}\n  h {}\n  i = 9\n  j {}\n  k = 11\n}\n"
    );
    assert_eq!(block.labels().len(), 3);
    assert_eq!(block.body().structures.len(), 11);
    let same = BlockBuilder::new(id("resource"))
        .add_labels(vec![
            BlockLabel::String("one".to_string()),
            BlockLabel::Identifier(id("two")),
            BlockLabel::String("three".to_string()),
        ])
        .add_structures(vec![
            Structure::Attribute(number("a", 1)),
            Structure::Attribute(number("b", 2)),
            Structure::Attribute(number("c", 3)),
            Structure::Attribute(number("d", 4)),
            Structure::Block(Block::new(id("e"))),
            Structure::Block(Block::new(id("f"))),
            Structure::Block(Block::new(id("g"))),
            Structure::Block(Block::new(id("h"))),
            Structure::Attribute(number("i", 9)),
            Structure::Block(Block::new(id("j"))),
            Structure::Attribute(number("k", 11)),
        ])
        .build();
    assert_eq!(block, same);
}

#[test]
fn labels_give_their_text() {
    assert_eq!(BlockLabel::Identifier(id("bare")).as_str(), "bare");
    assert_eq!(BlockLabel::String("quoted text".to_string()).as_str(), "quoted text");
    assert_eq!(BlockLabel::Identifier(id("bare")).into_inner(), "bare");
    assert_eq!(BlockLabel::String("quoted text".to_string()).into_inner(), "quoted text");
}

#[test]
fn function_call_builder_adds_arguments_in_order() {
    let call = FuncCall::builder(id("f"))
        .arg(Expression::Number(1))
        .arg(Expression::Null)
        .expand_final(true)
        .build();
    assert_eq!(call.name.as_str(), "f");
    assert_eq!(call.args, vec![Expression::Number(1), Expression::Null]);
    assert!(call.expand_final);
    assert_eq!(to_string(&call), "f(1, null...)");
    assert_eq!(to_string(&FuncCall::new(id("g"))), "g()");
}
