use hcl::expr::{Expression, FuncCall, ObjectItem, ObjectKey};
use hcl::format::{to_string, Format};
use hcl::ident::Identifier;
use hcl::structure::Attribute;

fn ident(name: &str) -> Identifier {
    Identifier::new(name).unwrap()
}

fn expect_format<T: Format>(value: T, expected: &str) {
    assert_eq!(to_string(&value), expected);
}

#[test]
fn issue_87() {
    let expr = Expression::FuncCall(
        FuncCall::builder(ident("foo"))
            .arg(Expression::Object(vec![ObjectItem {
                key: ObjectKey::Expression(Expression::String("bar".to_string())),
                value: Expression::FuncCall(FuncCall::new(ident("baz"))),
            }]))
            .build(),
    );
    expect_format(expr, "foo({ \"bar\" = baz() })");
}

#[test]
fn issue_91() {
    expect_format(
        Attribute::new(ident("_foo"), Expression::String("bar".to_string())),
        "_foo = \"bar\"\n",
    );
}

#[test]
fn compact_func_args() {
    expect_format(
        FuncCall::builder(ident("func"))
            .arg(Expression::Array(vec![
                Expression::Number(1),
                Expression::Number(2),
                Expression::Number(3),
            ]))
            .arg(Expression::Object(vec![
                ObjectItem {
                    key: ObjectKey::Identifier(ident("foo")),
                    value: Expression::String("bar".to_string()),
                },
                ObjectItem {
                    key: ObjectKey::Identifier(ident("baz")),
                    value: Expression::String("qux".to_string()),
                },
            ]))
            .build(),
        "func([1, 2, 3], { foo = \"bar\", baz = \"qux\" })",
    );
}
