use hcl::lexer::{tokenize, Token, TokenKind};
use hcl::span::{Position, SourceSpan};

fn kinds_and_texts(input: &str) -> Vec<(TokenKind, String)> {
    tokenize(input).into_iter().map(|t| (t.kind, t.text)).collect()
}

fn pair(kind: TokenKind, text: &str) -> (TokenKind, String) {
    (kind, text.to_string())
}

#[test]
fn tokens_of_a_document() {
    assert_eq!(
        kinds_and_texts("foo = [1, true]\n  b-1 \"l\" {\tnull }"),
        vec![
            pair(TokenKind::Identifier, "foo"),
            pair(TokenKind::Punctuation, "="),
            pair(TokenKind::Punctuation, "["),
            pair(TokenKind::Number, "1"),
            pair(TokenKind::Punctuation, ","),
            pair(TokenKind::Bool, "true"),
            pair(TokenKind::Punctuation, "]"),
            pair(TokenKind::Newline, "\n"),
            pair(TokenKind::Identifier, "b-1"),
            pair(TokenKind::String, "\"l\""),
            pair(TokenKind::Punctuation, "{"),
            pair(TokenKind::Null, "null"),
            pair(TokenKind::Punctuation, "}"),
        ]
    );
}

#[test]
fn tokens_of_expressions() {
    assert_eq!(
        kinds_and_texts("a.b[*] == !c ? f(x...) : \"t${ \"n\" }\" <= -1 % 2"),
        vec![
            pair(TokenKind::Identifier, "a"),
            pair(TokenKind::Punctuation, "."),
            pair(TokenKind::Identifier, "b"),
            pair(TokenKind::Punctuation, "["),
            pair(TokenKind::Operator, "*"),
            pair(TokenKind::Punctuation, "]"),
            pair(TokenKind::Operator, "=="),
            pair(TokenKind::Operator, "!"),
            pair(TokenKind::Identifier, "c"),
            pair(TokenKind::Punctuation, "?"),
            pair(TokenKind::Identifier, "f"),
            pair(TokenKind::Punctuation, "("),
            pair(TokenKind::Identifier, "x"),
            pair(TokenKind::Punctuation, "..."),
            pair(TokenKind::Punctuation, ")"),
            pair(TokenKind::Punctuation, ":"),
            pair(TokenKind::Template, "\"t${ \"n\" }\""),
            pair(TokenKind::Operator, "<="),
            pair(TokenKind::Operator, "-"),
            pair(TokenKind::Number, "1"),
            pair(TokenKind::Operator, "%"),
            pair(TokenKind::Number, "2"),
        ]
    );
    assert_eq!(
        kinds_and_texts("<<-EOT\n a\n EOT\nfalse"),
        vec![
            pair(TokenKind::Heredoc, "<<-EOT\n a\n EOT"),
            pair(TokenKind::Newline, "\n"),
            pair(TokenKind::Bool, "false"),
        ]
    );
}

#[test]
fn the_lexer_goes_on_behind_what_is_no_token() {
    assert_eq!(
        kinds_and_texts("a \u{a7} ' b 99999999999999999999 << x \"bad \\q\" c \"open"),
        vec![
            pair(TokenKind::Identifier, "a"),
            pair(TokenKind::Invalid, "\u{a7}"),
            pair(TokenKind::Invalid, "'"),
            pair(TokenKind::Identifier, "b"),
            pair(TokenKind::Invalid, "99999999999999999999"),
            pair(TokenKind::Invalid, "<< "),
            pair(TokenKind::Identifier, "x"),
            pair(TokenKind::Invalid, "\"bad \\q"),
            pair(TokenKind::String, "\" c \""),
            pair(TokenKind::Identifier, "open"),
        ]
    );
    assert_eq!(kinds_and_texts("\"open"), vec![pair(TokenKind::Invalid, "\"open")]);
    assert_eq!(kinds_and_texts(""), vec![]);
    assert_eq!(kinds_and_texts(" \t\r "), vec![]);
}

#[test]
fn spans_give_bytes_lines_and_columns() {
    let tokens = tokenize("\u{e9}\u{1F600} = 1\n  \"\u{e4}\"");
    let at = |offset, line, column| Position { offset, line, column };
    assert_eq!(
        tokens,
        vec![
            Token {
                kind: TokenKind::Invalid,
                text: "\u{e9}".to_string(),
                span: SourceSpan { start: at(0, 1, 1), end: at(2, 1, 2) },
            },
            Token {
                kind: TokenKind::Invalid,
                text: "\u{1F600}".to_string(),
                span: SourceSpan { start: at(2, 1, 2), end: at(6, 1, 3) },
            },
            Token {
                kind: TokenKind::Punctuation,
                text: "=".to_string(),
                span: SourceSpan { start: at(7, 1, 4), end: at(8, 1, 5) },
            },
            Token {
                kind: TokenKind::Number,
                text: "1".to_string(),
                span: SourceSpan { start: at(9, 1, 6), end: at(10, 1, 7) },
            },
            Token {
                kind: TokenKind::Newline,
                text: "\n".to_string(),
                span: SourceSpan { start: at(10, 1, 7), end: at(11, 2, 1) },
            },
            Token {
                kind: TokenKind::String,
                text: "\"\u{e4}\"".to_string(),
                span: SourceSpan { start: at(13, 2, 3), end: at(17, 2, 6) },
            },
        ]
    );
}

#[test]
fn tokens_lie_in_order_and_hold_all_but_blanks() {
    let input = "a = [1, \"two\", b.c]\nblock \"l\" {\n  x = <<E\n  y\n  E\n}\n";
    let tokens = tokenize(input);
    let mut rebuilt = String::new();
    let mut last = 0;
    for t in &tokens {
        assert!(t.span.start.offset >= last);
        assert_eq!(t.span.end.offset - t.span.start.offset, t.text.len());
        assert_eq!(&input[t.span.start.offset..t.span.end.offset], t.text);
        last = t.span.end.offset;
        rebuilt.push_str(&t.text);
    }
    let without_blanks: String = input.chars().filter(|c| *c != ' ').collect();
    let rebuilt_without_blanks: String = rebuilt.chars().filter(|c| *c != ' ').collect();
    assert_eq!(rebuilt_without_blanks, without_blanks);
}
