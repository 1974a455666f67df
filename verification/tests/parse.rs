use hcl::parser::parse_body;

fn assert_error(input: &str, message: &str) {
    match parse_body(input) {
        Ok(body) => panic!("parsed to: {:#?}", body),
        Err(e) => assert_eq!(message, e.to_string()),
    }
}

#[test]
fn invalid_structures() {
    assert_error(
        "foo = 1\nbar [",
        " --> HCL parse error in line 2, column 5\n  |\n2 | bar [\n  |     ^---\n  |\n  = invalid structure; expected `{`, `=`, `\"` or identifier",
    );
}

#[test]
fn invalid_blocks() {
    assert_error(
        "ident {",
        " --> HCL parse error in line 1, column 8\n  |\n1 | ident {\n  |        ^---\n  |\n  = invalid block body; expected `}`, newline or identifier",
    );

    assert_error(
        "ident \"label\" {",
        " --> HCL parse error in line 1, column 16\n  |\n1 | ident \"label\" {\n  |                ^---\n  |\n  = invalid block body; expected `}`, newline or identifier",
    );

    assert_error(
        "ident { foo }",
        " --> HCL parse error in line 1, column 13\n  |\n1 | ident { foo }\n  |             ^---\n  |\n  = invalid attribute; expected `=`",
    );

    assert_error(
        "ident { [ }",
        " --> HCL parse error in line 1, column 9\n  |\n1 | ident { [ }\n  |         ^---\n  |\n  = invalid block body; expected `}`, newline or identifier",
    );
}

#[test]
fn invalid_exprs() {
    assert_error(
        "ident = ''",
        " --> HCL parse error in line 1, column 9\n  |\n1 | ident = ''\n  |         ^---\n  |\n  = invalid expression; expected `\"`, `[`, `{`, `-`, `!`, `(`, `_`, `<`, letter or digit",
    );

    assert_error(
        "ident = var.%",
        " --> HCL parse error in line 1, column 13\n  |\n1 | ident = var.%\n  |             ^---\n  |\n  = invalid traversal operator; expected `*`, identifier or unsigned integer",
    );

    assert_error(
        "ident = { foo = \"\"\" }",
        " --> HCL parse error in line 1, column 19\n  |\n1 | ident = { foo = \"\"\" }\n  |                   ^---\n  |\n  = invalid object item; expected `}`, `,` or newline",
    );
}
