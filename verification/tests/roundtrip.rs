use hcl::block::BlockBuilder;
use hcl::expr::{Expression, FuncCall, Heredoc, ObjectItem, ObjectKey, TemplatePart, TraversalOperator};
use hcl::format::to_string;
use hcl::ident::Identifier;
use hcl::model::{BinaryOperator, UnaryOperator};
use hcl::parser::{parse_body, parse_expression};
use hcl::structure::{Attribute, Block, BlockLabel, Body, Structure};

fn id(name: &str) -> Identifier {
    Identifier::new(name).unwrap()
}

fn var(name: &str) -> Expression {
    Expression::Variable(id(name))
}

fn text(s: &str) -> Expression {
    Expression::String(s.to_string())
}

fn attr(key: &str, value: Expression) -> Structure {
    Structure::Attribute(Attribute::new(id(key), value))
}

fn round_trip_expression(e: Expression) {
    let written = to_string(&e);
    match parse_expression(&written) {
        Ok(read) => {
            assert_eq!(read, e, "text was: {}", written);
            assert_eq!(to_string(&read), written);
        }
        Err(err) => panic!("{}\n{}", written, err.to_string()),
    }
}

fn round_trip_body(body: Body) {
    let written = to_string(&body);
    match parse_body(&written) {
        Ok(read) => {
            assert_eq!(read, body, "text was: {}", written);
            assert_eq!(to_string(&read), written);
        }
        Err(err) => panic!("{}\n{}", written, err.to_string()),
    }
}

#[test]
fn literals_round_trip() {
    round_trip_expression(Expression::Null);
    round_trip_expression(Expression::Bool(true));
    round_trip_expression(Expression::Bool(false));
    round_trip_expression(Expression::Number(0));
    round_trip_expression(Expression::Number(42));
    round_trip_expression(Expression::Number(u64::MAX));
    round_trip_expression(text(""));
    round_trip_expression(text("plain"));
}

#[test]
fn strings_with_special_characters_round_trip() {
    round_trip_expression(text("a \"quoted\" word"));
    round_trip_expression(text("back\\slash"));
    round_trip_expression(text("line\nbreak\ttab\rreturn"));
    round_trip_expression(text("bell\u{7}del\u{7f}nul\u{0}"));
    round_trip_expression(text("${not} %{interpolated}"));
    round_trip_expression(text("$"));
    round_trip_expression(text("$$"));
    round_trip_expression(text("$${"));
    round_trip_expression(text("%%{$"));
    round_trip_expression(text("caf\u{e9} \u{1F600}"));
}

#[test]
fn string_escapes_are_written_as_expected() {
    assert_eq!(to_string(&text("a\"b\\c\nd")), "\"a\\\"b\\\\c\\nd\"");
    assert_eq!(to_string(&text("\u{1}")), "\"\\u0001\"");
    assert_eq!(to_string(&text("\u{1f}\u{7f}")), "\"\\u001f\\u007f\"");
    assert_eq!(to_string(&text("${x}")), "\"$${x}\"");
    assert_eq!(to_string(&text("%{x}")), "\"%%{x}\"");
    assert_eq!(to_string(&text("$x")), "\"$x\"");
}

#[test]
fn collections_round_trip() {
    round_trip_expression(Expression::Array(vec![]));
    round_trip_expression(Expression::Array(vec![
        Expression::Number(1),
        text("two"),
        Expression::Array(vec![Expression::Null]),
    ]));
    round_trip_expression(Expression::Object(vec![]));
    round_trip_expression(Expression::Object(vec![
        ObjectItem { key: ObjectKey::Identifier(id("a")), value: Expression::Number(1) },
        ObjectItem { key: ObjectKey::Expression(text("b c")), value: var("x") },
        ObjectItem {
            key: ObjectKey::Identifier(id("nested")),
            value: Expression::Object(vec![ObjectItem {
                key: ObjectKey::Identifier(id("deep")),
                value: Expression::Array(vec![Expression::Object(vec![ObjectItem {
                    key: ObjectKey::Identifier(id("flat")),
                    value: Expression::Bool(true),
                }])]),
            }]),
        },
    ]));
}

#[test]
fn standalone_object_is_written_one_item_per_line() {
    let e = Expression::Object(vec![
        ObjectItem { key: ObjectKey::Identifier(id("a")), value: Expression::Number(1) },
        ObjectItem {
            key: ObjectKey::Identifier(id("b")),
            value: Expression::Object(vec![ObjectItem {
                key: ObjectKey::Identifier(id("c")),
                value: Expression::Array(vec![Expression::Object(vec![ObjectItem {
                    key: ObjectKey::Identifier(id("d")),
                    value: Expression::Number(2),
                }])]),
            }]),
        },
    ]);
    assert_eq!(to_string(&e), "{\n  a = 1\n  b = {\n    c = [{ d = 2 }]\n  }\n}");
}

#[test]
fn templates_round_trip() {
    round_trip_expression(Expression::Template(vec![TemplatePart::Interpolation(var("a"))]));
    round_trip_expression(Expression::Template(vec![
        TemplatePart::Literal("Hello, ".to_string()),
        TemplatePart::Interpolation(var("name")),
        TemplatePart::Literal("! \"$\" ".to_string()),
        TemplatePart::Interpolation(Expression::Binary(
            Box::new(Expression::Number(1)),
            BinaryOperator::Plus,
            Box::new(Expression::Number(2)),
        )),
        TemplatePart::Interpolation(text("inner")),
    ]));
    let e = Expression::Template(vec![
        TemplatePart::Literal("a".to_string()),
        TemplatePart::Interpolation(var("b")),
    ]);
    assert_eq!(to_string(&e), "\"a${b}\"");
}

#[test]
fn heredocs_round_trip() {
    round_trip_expression(Expression::Heredoc(Heredoc {
        delimiter: id("EOT"),
        indented: false,
        lines: vec![],
    }));
    let h = Expression::Heredoc(Heredoc {
        delimiter: id("EOT"),
        indented: true,
        lines: vec!["first".to_string(), "  EOTX is no end".to_string(), "".to_string(), "${raw}".to_string()],
    });
    assert_eq!(to_string(&h), "<<-EOT\nfirst\n  EOTX is no end\n\n${raw}\nEOT");
    round_trip_expression(h);
    round_trip_expression(Expression::Array(vec![
        Expression::Heredoc(Heredoc { delimiter: id("A"), indented: false, lines: vec!["x".to_string()] }),
        Expression::Number(1),
    ]));
}

#[test]
fn calls_and_traversals_round_trip() {
    round_trip_expression(Expression::FuncCall(FuncCall::new(id("now"))));
    round_trip_expression(Expression::FuncCall(
        FuncCall::builder(id("max")).arg(Expression::Number(1)).arg(var("list")).expand_final(true).build(),
    ));
    let t = Expression::Traversal(
        Box::new(var("var")),
        vec![
            TraversalOperator::GetAttr(id("items")),
            TraversalOperator::FullSplat,
            TraversalOperator::GetAttr(id("with-hyphen")),
            TraversalOperator::Index(Expression::Binary(
                Box::new(var("i")),
                BinaryOperator::Plus,
                Box::new(Expression::Number(1)),
            )),
            TraversalOperator::LegacyIndex(0),
            TraversalOperator::AttrSplat,
            TraversalOperator::Index(text("key")),
        ],
    );
    assert_eq!(to_string(&t), "var.items[*].with-hyphen[i + 1].0.*[\"key\"]");
    round_trip_expression(t);
    round_trip_expression(Expression::Traversal(
        Box::new(Expression::FuncCall(FuncCall::builder(id("f")).arg(var("x")).build())),
        vec![TraversalOperator::LegacyIndex(12)],
    ));
}

#[test]
fn operations_round_trip() {
    let sum = Expression::Binary(
        Box::new(Expression::Binary(Box::new(var("a")), BinaryOperator::Plus, Box::new(var("b")))),
        BinaryOperator::Minus,
        Box::new(Expression::Binary(Box::new(var("c")), BinaryOperator::Mul, Box::new(var("d")))),
    );
    assert_eq!(to_string(&sum), "a + b - c * d");
    round_trip_expression(sum);
    let logic = Expression::Binary(
        Box::new(Expression::Binary(
            Box::new(Expression::Unary(UnaryOperator::Not, Box::new(var("a")))),
            BinaryOperator::And,
            Box::new(Expression::Binary(Box::new(var("b")), BinaryOperator::LessEq, Box::new(Expression::Number(3)))),
        )),
        BinaryOperator::Or,
        Box::new(Expression::Binary(
            Box::new(Expression::Unary(
                UnaryOperator::Neg,
                Box::new(Expression::Unary(UnaryOperator::Neg, Box::new(Expression::Number(1)))),
            )),
            BinaryOperator::NotEq,
            Box::new(Expression::Parenthesis(Box::new(Expression::Binary(
                Box::new(var("x")),
                BinaryOperator::Or,
                Box::new(var("y")),
            )))),
        )),
    );
    assert_eq!(to_string(&logic), "!a && b <= 3 || --1 != (x || y)");
    round_trip_expression(logic);
    for op in [
        BinaryOperator::Or,
        BinaryOperator::And,
        BinaryOperator::Eq,
        BinaryOperator::NotEq,
        BinaryOperator::Less,
        BinaryOperator::Greater,
        BinaryOperator::LessEq,
        BinaryOperator::GreaterEq,
        BinaryOperator::Plus,
        BinaryOperator::Minus,
        BinaryOperator::Mul,
        BinaryOperator::Div,
        BinaryOperator::Mod,
    ] {
        round_trip_expression(Expression::Binary(Box::new(var("l")), op, Box::new(var("r"))));
    }
    let cond = Expression::Conditional(
        Box::new(Expression::Binary(Box::new(var("a")), BinaryOperator::Eq, Box::new(var("b")))),
        Box::new(Expression::Conditional(Box::new(var("c")), Box::new(text("x")), Box::new(text("y")))),
        Box::new(Expression::Unary(UnaryOperator::Neg, Box::new(Expression::Number(1)))),
    );
    assert_eq!(to_string(&cond), "a == b ? c ? \"x\" : \"y\" : -1");
    round_trip_expression(cond);
}

#[test]
fn parser_follows_precedence() {
    let read = parse_expression("1 + 2 * 3 < 4 && x || y").unwrap();
    let expected = Expression::Binary(
        Box::new(Expression::Binary(
            Box::new(Expression::Binary(
                Box::new(Expression::Binary(
                    Box::new(Expression::Number(1)),
                    BinaryOperator::Plus,
                    Box::new(Expression::Binary(
                        Box::new(Expression::Number(2)),
                        BinaryOperator::Mul,
                        Box::new(Expression::Number(3)),
                    )),
                )),
                BinaryOperator::Less,
                Box::new(Expression::Number(4)),
            )),
            BinaryOperator::And,
            Box::new(var("x")),
        )),
        BinaryOperator::Or,
        Box::new(var("y")),
    );
    assert_eq!(read, expected);
    let left = parse_expression("a - b - c").unwrap();
    assert_eq!(
        left,
        Expression::Binary(
            Box::new(Expression::Binary(Box::new(var("a")), BinaryOperator::Minus, Box::new(var("b")))),
            BinaryOperator::Minus,
            Box::new(var("c")),
        )
    );
}

#[test]
fn documents_round_trip() {
    let body = Body::new(vec![
        attr("_foo", text("bar")),
        attr("list", Expression::Array(vec![Expression::Number(1), Expression::Number(2)])),
        attr(
            "settings",
            Expression::Object(vec![
                ObjectItem { key: ObjectKey::Identifier(id("a")), value: Expression::Number(1) },
                ObjectItem { key: ObjectKey::Expression(text("b")), value: Expression::Object(vec![]) },
            ]),
        ),
        Structure::Block(
            BlockBuilder::new(id("resource"))
                .add_label(BlockLabel::String("aws_s3_bucket".to_string()))
                .add_label(BlockLabel::Identifier(id("mybucket")))
                .add_attribute(Attribute::new(id("name"), text("mybucket")))
                .add_block(
                    BlockBuilder::new(id("logging"))
                        .add_attribute(Attribute::new(id("target_bucket"), text("mylogsbucket")))
                        .add_block(Block::new(id("empty")))
                        .build(),
                )
                .add_attribute(Attribute::new(id("name"), text("again")))
                .build(),
        ),
        attr("_foo", Expression::Null),
    ]);
    let written = to_string(&body);
    assert_eq!(
        written,
        "_foo = \"bar\"\nlist = [1, 2]\nsettings = {\n  a = 1\n  \"b\" = {}\n}\nresource \"aws_s3_bucket\" mybucket {\n  name = \"mybucket\"\n  logging {\n    target_bucket = \"mylogsbucket\"\n    empty {}\n  }\n  name = \"again\"\n}\n_foo = null\n"
    );
    round_trip_body(body);
    round_trip_body(Body::new(vec![]));
}

#[test]
fn format_returns_what_to_string_returns() {
    let a = Attribute::new(id("a"), Expression::Number(1));
    assert_eq!(hcl::format::format(&a), Ok("a = 1\n".to_string()));
    let b = Block::new(id("b"));
    assert_eq!(hcl::format::format(&b), Ok("b {}\n".to_string()));
    assert_eq!(to_string(&Structure::Block(Block::new(id("b")))), "b {}\n");
}

#[test]
fn label_kinds_are_kept_apart() {
    let body = parse_body("a b \"c\" {\n}\n").unwrap();
    match &body.structures[0] {
        Structure::Block(block) => {
            assert_eq!(block.identifier(), "a");
            assert_eq!(block.labels().len(), 2);
            assert_eq!(block.labels()[0], BlockLabel::Identifier(id("b")));
            assert_eq!(block.labels()[1], BlockLabel::String("c".to_string()));
            assert_eq!(block.labels()[0].as_str(), "b");
            assert_eq!(block.labels()[1].clone().into_inner(), "c");
            assert_eq!(block.body().structures.len(), 0);
        }
        other => panic!("{:?}", other),
    }
}

#[test]
fn repeated_keys_are_kept_in_order() {
    let body = parse_body("a = 1\nb {}\na = 2\nb {}\n").unwrap();
    assert_eq!(
        body,
        Body::new(vec![
            attr("a", Expression::Number(1)),
            Structure::Block(Block::new(id("b"))),
            attr("a", Expression::Number(2)),
            Structure::Block(Block::new(id("b"))),
        ])
    );
}

#[test]
fn parser_accepts_free_layout() {
    let body = parse_body("\n\n  a   =   [ 1 ,\n 2 , ]  \r\n\tb { c = { x = 1, y = 2,\n z = 3 } }\n\nd \"l\" {\n\n e = f( 1,\n  2 ... )\n}").unwrap();
    let expected = Body::new(vec![
        attr("a", Expression::Array(vec![Expression::Number(1), Expression::Number(2)])),
        Structure::Block(
            BlockBuilder::new(id("b"))
                .add_attribute(Attribute::new(
                    id("c"),
                    Expression::Object(vec![
                        ObjectItem { key: ObjectKey::Identifier(id("x")), value: Expression::Number(1) },
                        ObjectItem { key: ObjectKey::Identifier(id("y")), value: Expression::Number(2) },
                        ObjectItem { key: ObjectKey::Identifier(id("z")), value: Expression::Number(3) },
                    ]),
                ))
                .build(),
        ),
        Structure::Block(
            BlockBuilder::new(id("d"))
                .add_label(BlockLabel::String("l".to_string()))
                .add_attribute(Attribute::new(
                    id("e"),
                    Expression::FuncCall(
                        FuncCall::builder(id("f"))
                            .arg(Expression::Number(1))
                            .arg(Expression::Number(2))
                            .expand_final(true)
                            .build(),
                    ),
                ))
                .build(),
        ),
    ]);
    assert_eq!(body, expected);
}

#[test]
fn escapes_are_read() {
    assert_eq!(parse_expression("\"\\u00e9\\u0041\\n\\t\\r\\\"\\\\\"").unwrap(), text("\u{e9}A\n\t\r\"\\"));
    assert_eq!(parse_expression("\"$${a} %%{b} $$ %% $ %\"").unwrap(), text("${a} %{b} $$ %% $ %"));
    assert_eq!(
        parse_expression("\"a${ b }c\"").unwrap(),
        Expression::Template(vec![
            TemplatePart::Literal("a".to_string()),
            TemplatePart::Interpolation(var("b")),
            TemplatePart::Literal("c".to_string()),
        ])
    );
}

#[test]
fn keywords_are_literals_and_names_of_functions() {
    assert_eq!(parse_expression("null").unwrap(), Expression::Null);
    assert_eq!(parse_expression("true").unwrap(), Expression::Bool(true));
    assert_eq!(parse_expression("false").unwrap(), Expression::Bool(false));
    assert_eq!(parse_expression("nulls").unwrap(), var("nulls"));
    assert_eq!(parse_expression("true()").unwrap(), Expression::FuncCall(FuncCall::new(id("true"))));
    assert_eq!(
        parse_expression("{ true = 1, t = 2 }").unwrap(),
        Expression::Object(vec![
            ObjectItem { key: ObjectKey::Expression(Expression::Bool(true)), value: Expression::Number(1) },
            ObjectItem { key: ObjectKey::Identifier(id("t")), value: Expression::Number(2) },
        ])
    );
}

#[test]
fn dollar_before_interpolation_round_trips() {
    let e = Expression::Template(vec![
        TemplatePart::Literal("cost: $".to_string()),
        TemplatePart::Interpolation(var("price")),
        TemplatePart::Literal("$".to_string()),
    ]);
    assert_eq!(to_string(&e), "\"cost: \\u0024${price}$\"");
    round_trip_expression(e);
    round_trip_expression(Expression::Template(vec![
        TemplatePart::Literal("$$".to_string()),
        TemplatePart::Interpolation(var("a")),
        TemplatePart::Literal("%".to_string()),
        TemplatePart::Interpolation(var("b")),
    ]));
    assert_eq!(
        parse_expression("\"\\u0024${x}\"").unwrap(),
        Expression::Template(vec![TemplatePart::Literal("$".to_string()), TemplatePart::Interpolation(var("x"))])
    );
}

#[test]
fn what_was_parsed_is_read_back_from_its_text() {
    for input in [
        "a=1\nb   {c=[1,2,]}\n\n\nd \"x\" y {\n\n  e = {a=1\n b = \"${ 1 + 2 }$${x}\", \"c\" = f(g(1)...)}\n }",
        "x = a ? b : c ? d : e\ny = !a || -b * (c - d) % 2 >= 3 == true && null != z.q[0].*.1[*]",
        "h = <<-E\n  text\n\tE\nt = \"\\u0041\\u0024${ v }\\t\"",
        "",
        "\n\n",
    ] {
        let first = parse_body(input).unwrap();
        let written = to_string(&first);
        let second = parse_body(&written).unwrap();
        assert_eq!(first, second, "{}", written);
        assert_eq!(to_string(&second), written);
    }
}

