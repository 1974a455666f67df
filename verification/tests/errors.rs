use hcl::diag::{report_furthest, Category, Expected, Failure};
use hcl::ident::{Identifier, InvalidIdentifier};
use hcl::parser::{parse_body, parse_expression};

fn error_of(input: &str) -> hcl::error::ParseError {
    match parse_body(input) {
        Ok(body) => panic!("parsed to: {:#?}", body),
        Err(e) => e,
    }
}

fn expect_failure(input: &str, line: usize, column: usize, category: Category, expected: Vec<Expected>) {
    let e = error_of(input);
    assert_eq!((e.line(), e.column()), (line, column), "{}", e.to_string());
    assert_eq!(e.category, category, "{}", e.to_string());
    assert_eq!(e.expected, expected, "{}", e.to_string());
}

#[test]
fn scenario_structure() {
    let e = error_of("foo = 1\nbar [");
    assert_eq!(e.category(), "invalid structure");
    assert_eq!(e.line(), 2);
    assert_eq!(e.column(), 5);
    assert_eq!(e.offset(), 12);
    assert_eq!(e.expected(), vec!["`{`", "`=`", "`\"`", "identifier"]);
    assert_eq!(e.source_line, "bar [");
}

#[test]
fn scenario_block_body() {
    let e = error_of("ident {");
    assert_eq!(e.category(), "invalid block body");
    assert_eq!((e.line(), e.column()), (1, 8));
    assert_eq!(e.expected(), vec!["`}`", "newline", "identifier"]);
}

#[test]
fn scenario_attribute() {
    let e = error_of("ident { foo }");
    assert_eq!(e.category(), "invalid attribute");
    assert_eq!((e.line(), e.column()), (1, 13));
    assert_eq!(e.expected(), vec!["`=`"]);
}

#[test]
fn scenario_traversal() {
    let e = error_of("ident = var.%");
    assert_eq!(e.category(), "invalid traversal operator");
    assert_eq!((e.line(), e.column()), (1, 13));
    assert_eq!(e.expected(), vec!["`*`", "identifier", "unsigned integer"]);
}

#[test]
fn every_category_is_reported() {
    expect_failure("= 1", 1, 1, Category::Structure, vec![Expected::Newline, Expected::Identifier]);
    expect_failure(
        "a \"l\" =",
        1,
        7,
        Category::Block,
        vec![Expected::Char('{'), Expected::Char('"'), Expected::Identifier],
    );
    expect_failure("a \"l${x}\" {}", 1, 5, Category::BlockLabel, vec![Expected::Char('"')]);
    expect_failure("a = 1 b", 1, 7, Category::Attribute, vec![Expected::Newline]);
    expect_failure("a {} b", 1, 6, Category::Block, vec![Expected::Newline]);
    expect_failure("a { b = 1 c }", 1, 11, Category::BlockBody, vec![Expected::Char('}')]);
    expect_failure(
        "a {\n b = 1\n",
        3,
        1,
        Category::BlockBody,
        vec![Expected::Char('}'), Expected::Newline, Expected::Identifier],
    );
    expect_failure("a = [1 2]", 1, 8, Category::Array, vec![Expected::Char(','), Expected::Char(']')]);
    expect_failure(
        "a = f(1 2)",
        1,
        9,
        Category::FunctionCall,
        vec![Expected::Char(','), Expected::Char(')'), Expected::Ellipsis],
    );
    expect_failure("a = f(x..., 2)", 1, 11, Category::FunctionCall, vec![Expected::Char(')')]);
    expect_failure("a = { b 1 }", 1, 9, Category::ObjectItem, vec![Expected::Char('=')]);
    expect_failure("a = c ? 1", 1, 10, Category::Conditional, vec![Expected::Char(':')]);
    expect_failure("a = (1", 1, 7, Category::Parenthesis, vec![Expected::Char(')')]);
    expect_failure("a = \"${x\"", 1, 9, Category::Template, vec![Expected::Char('}')]);
    expect_failure("a = \"%{if x}\"", 1, 6, Category::Template, vec![]);
    expect_failure("a = \"open", 1, 10, Category::StringLiteral, vec![Expected::Char('"')]);
    expect_failure("a = \"open\nb = 1", 1, 10, Category::StringLiteral, vec![Expected::Char('"')]);
    expect_failure(
        "a = \"\\q\"",
        1,
        7,
        Category::Escape,
        vec![
            Expected::Char('n'),
            Expected::Char('r'),
            Expected::Char('t'),
            Expected::Char('"'),
            Expected::Char('\\'),
            Expected::Char('u'),
        ],
    );
    expect_failure("a = \"\\u12g4\"", 1, 10, Category::Escape, vec![Expected::HexDigit]);
    expect_failure("a = \"\\ud800\"", 1, 8, Category::Escape, vec![]);
    expect_failure("a = 18446744073709551616", 1, 5, Category::Number, vec![]);
    expect_failure("a = b.18446744073709551616", 1, 7, Category::Number, vec![]);
    expect_failure("a = <EOT", 1, 6, Category::Heredoc, vec![Expected::Char('<')]);
    expect_failure("a = <<", 1, 7, Category::Heredoc, vec![Expected::Identifier]);
    expect_failure("a = <<EOT x", 1, 11, Category::Heredoc, vec![Expected::Newline]);
    expect_failure("a = <<EOT\nline", 2, 5, Category::Heredoc, vec![Expected::Newline]);
    expect_failure("a = <<EOT\nline\n", 3, 1, Category::Heredoc, vec![Expected::Identifier]);
    expect_failure("a = x[1", 1, 8, Category::TraversalOperator, vec![Expected::Char(']')]);
}

#[test]
fn the_largest_number_is_read() {
    assert_eq!(
        parse_expression("18446744073709551615").unwrap(),
        hcl::expr::Expression::Number(u64::MAX)
    );
    assert_eq!(parse_expression("007").unwrap(), hcl::expr::Expression::Number(7));
}

#[test]
fn deep_nesting_is_an_error_and_no_crash() {
    let deep = format!("a = {}1{}", "[".repeat(5000), "]".repeat(5000));
    let e = error_of(&deep);
    assert_eq!(e.category, Category::Nesting);
    assert_eq!(e.category(), "nesting too deep");
    assert_eq!(e.expected(), Vec::<String>::new());
    assert_eq!((e.line(), e.column()), (1, 5 + 128));
    assert!(e.to_string().ends_with("  = nesting too deep"));
    let fits = format!("a = {}1{}", "[".repeat(128), "]".repeat(128));
    assert!(parse_body(&fits).is_ok());
    let blocks = format!("{}{}", "b {\n".repeat(129), "}\n".repeat(129));
    assert_eq!(error_of(&blocks).category, Category::Nesting);
    let minus = format!("a = {}1", "-".repeat(129));
    assert_eq!(error_of(&minus).category, Category::Nesting);
}

#[test]
fn positions_count_characters_and_offsets_count_bytes() {
    let e = error_of("a = \"\u{e9}\u{1F600}\"\n\u{e4} = 1");
    assert_eq!((e.line(), e.column()), (2, 1));
    assert_eq!(e.offset(), 4 + 1 + 2 + 4 + 1 + 1);
    assert_eq!(e.source_line, "\u{e4} = 1");
    let e = error_of("b = \"\u{e9}\" \u{1F600}");
    assert_eq!((e.line(), e.column()), (1, 9));
    assert_eq!(e.offset(), 9);
    assert_eq!(
        e.to_string(),
        " --> HCL parse error in line 1, column 9\n  |\n1 | b = \"\u{e9}\" \u{1F600}\n  |         ^---\n  |\n  = invalid attribute; expected newline"
    );
}

#[test]
fn line_numbers_widen_the_margin() {
    let input = format!("{}a = ]", "\n".repeat(11));
    assert_eq!(
        error_of(&input).to_string(),
        "  --> HCL parse error in line 12, column 5\n   |\n12 | a = ]\n   |     ^---\n   |\n   = invalid expression; expected `\"`, `[`, `{`, `-`, `!`, `(`, `_`, `<`, letter or digit"
    );
}

#[test]
fn the_same_input_gives_the_same_error() {
    for input in ["foo = 1\nbar [", "ident = { foo = \"\"\" }", "a = x[* 2]", "a = \"\\u12"] {
        let first = error_of(input);
        let second = error_of(input);
        assert_eq!(first, second);
        assert_eq!(first.to_string(), second.to_string());
        assert_eq!(first.to_string().as_bytes(), second.to_string().as_bytes());
    }
}

#[test]
fn the_failure_that_got_furthest_is_reported() {
    // The splat got as far as the closing bracket; the index gave up at the star.
    expect_failure("a = x[* 2]", 1, 9, Category::TraversalOperator, vec![Expected::Char(']')]);
    // Neither a splat nor an index stands there: both gave up at the same place.
    let e = error_of("a = x[?]");
    assert_eq!((e.line(), e.column()), (1, 7));
    assert_eq!(e.category, Category::TraversalOperator);
    assert_eq!(
        e.expected(),
        vec!["`*`", "`\"`", "`[`", "`{`", "`-`", "`!`", "`(`", "`_`", "`<`", "letter", "digit"]
    );
    // The index got further than the splat.
    expect_failure("a = x[1 + ]", 1, 11, Category::Expression, error_of("a = ]").expected);
}

#[test]
fn candidates_are_reduced_to_the_furthest() {
    let near = Failure::new(3, Category::Array, vec![Expected::Char(',')]);
    let far = Failure::new(7, Category::Expression, vec![Expected::Digit, Expected::Letter]);
    let also_far = Failure::new(7, Category::Number, vec![Expected::Letter, Expected::Char('x'), Expected::Digit]);
    let last = Failure::new(5, Category::Block, vec![Expected::Newline]);
    let f = report_furthest(vec![near, far, also_far, last]);
    assert_eq!(f.offset, 7);
    assert_eq!(f.category, Category::Expression);
    assert_eq!(f.expected, vec![Expected::Digit, Expected::Letter, Expected::Char('x')]);
    let a = Failure::new(2, Category::Array, vec![Expected::Char(','), Expected::Char(',')]);
    let b = Failure::new(1, Category::Block, vec![]);
    let m = a.merge(b);
    assert_eq!((m.offset, m.category), (2, Category::Array));
    assert_eq!(m.expected, vec![Expected::Char(','), Expected::Char(',')]);
    let c = Failure::new(2, Category::Array, vec![Expected::Char(','), Expected::Char(',')]);
    let d = Failure::new(2, Category::Block, vec![Expected::Newline, Expected::Char(',')]);
    let m = c.merge(d);
    assert_eq!((m.offset, m.category), (2, Category::Array));
    assert_eq!(m.expected, vec![Expected::Char(','), Expected::Newline]);
}

#[test]
fn identifiers_are_validated() {
    assert_eq!(Identifier::new("a-b_c9").unwrap().as_str(), "a-b_c9");
    assert_eq!(Identifier::new("_x").unwrap().into_inner(), "_x");
    assert_eq!(Identifier::new(""), Err(InvalidIdentifier { position: 0 }));
    assert_eq!(Identifier::new("9a"), Err(InvalidIdentifier { position: 0 }));
    assert_eq!(Identifier::new("-a"), Err(InvalidIdentifier { position: 0 }));
    assert_eq!(Identifier::new("ab c"), Err(InvalidIdentifier { position: 2 }));
    assert_eq!(Identifier::new("ab\u{e9}"), Err(InvalidIdentifier { position: 2 }));
    assert_eq!(Identifier::new("x").unwrap().clone(), Identifier::new("x").unwrap());
}

#[test]
fn expression_with_trailing_text_is_an_error() {
    match parse_expression(" 1 + 2 \n x") {
        Ok(e) => panic!("{:?}", e),
        Err(e) => {
            assert_eq!((e.line(), e.column()), (2, 2));
            assert_eq!(e.category, Category::Expression);
            assert_eq!(e.expected(), vec!["end of input"]);
        }
    }
    assert!(parse_expression("  [1]\n ").is_ok());
}
