//! Parse errors: a failure of the grammar with its place in the source, and
//! the message that shows it.

use crate::diag::{Category, Expected, Failure, FailureView};
use crate::span::{line_start, position, Cursor};
use crate::text::{chars_of, decimal, push_decimal, push_str, run_end, scan, string_of, CharClass};
use vstd::prelude::*;
use vstd::utf8::encode_utf8;

verus! {

/// A parse error, as the contracts see it.
pub struct ParseErrorView {
    /// Byte offset of the failure in the source.
    pub offset: nat,
    /// Line of the failure, counted from 1.
    pub line: nat,
    /// Column of the failure, counted from 1 in characters.
    pub column: nat,
    /// The production that failed.
    pub category: Category,
    /// What would have been accepted.
    pub expected: Seq<Expected>,
    /// The whole line of the source in which the failure lies.
    pub source_line: Seq<char>,
}

/// A parse error: the one failure that is reported for an input.
#[derive(Debug, Clone, PartialEq, Eq)]
pub struct ParseError {
    /// Byte offset of the failure in the source.
    pub offset: usize,
    /// Line of the failure, counted from 1.
    pub line: usize,
    /// Column of the failure, counted from 1 in characters.
    pub column: usize,
    /// The production that failed.
    pub category: Category,
    /// What would have been accepted, in the order first met.
    pub expected: Vec<Expected>,
    /// The whole line of the source in which the failure lies.
    pub source_line: String,
}

impl View for ParseError {
    type V = ParseErrorView;

    open spec fn view(&self) -> ParseErrorView {
        ParseErrorView {
            offset: self.offset as nat,
            line: self.line as nat,
            column: self.column as nat,
            category: self.category,
            expected: self.expected@,
            source_line: self.source_line@,
        }
    }
}

/// The parse error for the failure `f` in the source `s`: the failure with
/// the place of the character at which it lies, and the text of its line.
pub open spec fn located(s: Seq<char>, f: FailureView) -> ParseErrorView {
    let at = if f.offset > s.len() {
        s.len() as int
    } else if f.offset < 0 {
        0
    } else {
        f.offset
    };
    let start = line_start(s, at);
    let place = position(s, at);
    ParseErrorView {
        offset: place.offset as nat,
        line: place.line as nat,
        column: place.column as nat,
        category: f.category,
        expected: f.expected,
        source_line: s.subrange(start, run_end(s, start, CharClass::Line)),
    }
}

/// `n` spaces.
pub open spec fn spaces(n: nat) -> Seq<char> {
    Seq::new(n, |i: int| ' ')
}

/// The words for a production that failed.
pub open spec fn phrase(c: Category) -> Seq<char> {
    match c {
        Category::Structure => "invalid structure"@,
        Category::BlockBody => "invalid block body"@,
        Category::Block => "invalid block"@,
        Category::BlockLabel => "invalid block label"@,
        Category::Attribute => "invalid attribute"@,
        Category::Expression => "invalid expression"@,
        Category::TraversalOperator => "invalid traversal operator"@,
        Category::ObjectItem => "invalid object item"@,
        Category::Array => "invalid array"@,
        Category::FunctionCall => "invalid function call"@,
        Category::Conditional => "invalid conditional"@,
        Category::Parenthesis => "invalid parenthesis"@,
        Category::Template => "invalid template"@,
        Category::StringLiteral => "invalid string literal"@,
        Category::Escape => "invalid escape sequence"@,
        Category::Number => "invalid number"@,
        Category::Heredoc => "invalid heredoc"@,
        Category::Nesting => "nesting too deep"@,
    }
}

/// The words for something that would have been accepted: a literal in
/// backticks, a category by its name.
pub open spec fn describe(x: Expected) -> Seq<char> {
    match x {
        Expected::Char(c) => seq!['`', c, '`'],
        Expected::Ellipsis => "`...`"@,
        Expected::Newline => "newline"@,
        Expected::Identifier => "identifier"@,
        Expected::UnsignedInteger => "unsigned integer"@,
        Expected::Letter => "letter"@,
        Expected::Digit => "digit"@,
        Expected::HexDigit => "hexadecimal digit"@,
        Expected::EndOfInput => "end of input"@,
    }
}

/// Those of `items[k..]` that are literals (`literal`) or are not, in order.
pub open spec fn pick(items: Seq<Expected>, literal: bool, k: int) -> Seq<Expected>
    decreases items.len() - k,
{
    if 0 <= k < items.len() {
        (if items[k].is_literal() == literal {
            seq![items[k]]
        } else {
            Seq::empty()
        }) + pick(items, literal, k + 1)
    } else {
        Seq::empty()
    }
}

/// The order in which alternatives are listed: literals before categories,
/// each group in the order first met.
pub open spec fn listed(items: Seq<Expected>) -> Seq<Expected> {
    pick(items, true, 0) + pick(items, false, 0)
}

/// The alternatives `items[k..]` in words: separated by commas, the last
/// two by `or`.
pub open spec fn listing(items: Seq<Expected>, k: int) -> Seq<char>
    decreases items.len() - k,
{
    if 0 <= k < items.len() {
        describe(items[k]) + (if k + 2 < items.len() {
            ", "@
        } else if k + 2 == items.len() {
            " or "@
        } else {
            Seq::empty()
        }) + listing(items, k + 1)
    } else {
        Seq::empty()
    }
}

/// The cause clause: the production that failed and, where there are any,
/// the alternatives.
pub open spec fn cause(category: Category, expected: Seq<Expected>) -> Seq<char> {
    phrase(category) + (if expected.len() > 0 {
        "; expected "@ + listing(listed(expected), 0)
    } else {
        Seq::empty()
    })
}

/// The message of a parse error: a header with line and column, the source
/// line, a caret under the failing column, and the cause.
pub open spec fn message(e: ParseErrorView) -> Seq<char> {
    let num = decimal(e.line);
    let pad = spaces(num.len());
    let lead = spaces(
        if e.column > 0 {
            (e.column - 1) as nat
        } else {
            0
        },
    );
    pad + "--> HCL parse error in line "@ + num + ", column "@ + decimal(e.column) + seq!['\n'] + pad + " |\n"@
        + num + " | "@ + e.source_line + seq!['\n'] + pad + " | "@ + lead + "^---\n"@ + pad + " |\n"@ + pad
        + " = "@ + cause(e.category, e.expected)
}

/// Appends `n` spaces.
pub fn push_spaces(out: &mut Vec<char>, n: usize)
    ensures
        final(out)@ == old(out)@ + spaces(n as nat),
{
    let mut k: usize = 0;
    assert(out@ =~= old(out)@ + spaces(0));
    while k < n
        invariant
            k <= n,
            out@ == old(out)@ + spaces(k as nat),
        decreases n - k,
    {
        out.push(' ');
        assert(out@ =~= old(out)@ + spaces((k + 1) as nat));
        k += 1;
    }
}

/// Appends the words for a production that failed.
pub fn push_phrase(out: &mut Vec<char>, c: Category)
    ensures
        final(out)@ == old(out)@ + phrase(c),
{
    match c {
        Category::Structure => push_str(out, "invalid structure"),
        Category::BlockBody => push_str(out, "invalid block body"),
        Category::Block => push_str(out, "invalid block"),
        Category::BlockLabel => push_str(out, "invalid block label"),
        Category::Attribute => push_str(out, "invalid attribute"),
        Category::Expression => push_str(out, "invalid expression"),
        Category::TraversalOperator => push_str(out, "invalid traversal operator"),
        Category::ObjectItem => push_str(out, "invalid object item"),
        Category::Array => push_str(out, "invalid array"),
        Category::FunctionCall => push_str(out, "invalid function call"),
        Category::Conditional => push_str(out, "invalid conditional"),
        Category::Parenthesis => push_str(out, "invalid parenthesis"),
        Category::Template => push_str(out, "invalid template"),
        Category::StringLiteral => push_str(out, "invalid string literal"),
        Category::Escape => push_str(out, "invalid escape sequence"),
        Category::Number => push_str(out, "invalid number"),
        Category::Heredoc => push_str(out, "invalid heredoc"),
        Category::Nesting => push_str(out, "nesting too deep"),
    }
}

/// Appends the words for something that would have been accepted.
pub fn push_description(out: &mut Vec<char>, x: Expected)
    ensures
        final(out)@ == old(out)@ + describe(x),
{
    match x {
        Expected::Char(c) => {
            out.push('`');
            out.push(c);
            out.push('`');
            assert(out@ =~= old(out)@ + seq!['`', c, '`']);
        },
        Expected::Ellipsis => push_str(out, "`...`"),
        Expected::Newline => push_str(out, "newline"),
        Expected::Identifier => push_str(out, "identifier"),
        Expected::UnsignedInteger => push_str(out, "unsigned integer"),
        Expected::Letter => push_str(out, "letter"),
        Expected::Digit => push_str(out, "digit"),
        Expected::HexDigit => push_str(out, "hexadecimal digit"),
        Expected::EndOfInput => push_str(out, "end of input"),
    }
}

/// Appends to `out` those of `items` that are literals (`literal`) or are
/// not.
pub fn push_picked(out: &mut Vec<Expected>, items: &Vec<Expected>, literal: bool)
    ensures
        final(out)@ == old(out)@ + pick(items@, literal, 0),
{
    let mut k: usize = 0;
    while k < items.len()
        invariant
            k <= items.len(),
            out@ + pick(items@, literal, k as int) == old(out)@ + pick(items@, literal, 0),
        decreases items.len() - k,
    {
        let ghost before = out@;
        if items[k].literal() == literal {
            out.push(items[k]);
        }
        assert(out@ + pick(items@, literal, k as int + 1) =~= before + pick(items@, literal, k as int));
        k += 1;
    }
    assert(out@ =~= out@ + pick(items@, literal, k as int));
}

/// The alternatives in the order in which they are listed.
pub fn list_order(items: &Vec<Expected>) -> (r: Vec<Expected>)
    ensures
        r@ == listed(items@),
{
    let mut r: Vec<Expected> = Vec::new();
    push_picked(&mut r, items, true);
    push_picked(&mut r, items, false);
    assert(r@ =~= listed(items@));
    r
}

/// Appends the cause clause.
pub fn push_cause(out: &mut Vec<char>, category: Category, expected: &Vec<Expected>)
    ensures
        final(out)@ == old(out)@ + cause(category, expected@),
{
    push_phrase(out, category);
    if expected.len() > 0 {
        push_str(out, "; expected ");
        let items = list_order(expected);
        let ghost head = out@;
        let mut k: usize = 0;
        while k < items.len()
            invariant
                k <= items.len(),
                out@ + listing(items@, k as int) == head + listing(items@, 0),
            decreases items.len() - k,
        {
            let ghost before = out@;
            push_description(out, items[k]);
            if items.len() - k > 2 {
                push_str(out, ", ");
            } else if items.len() - k == 2 {
                push_str(out, " or ");
            }
            assert(out@ + listing(items@, k as int + 1) =~= before + listing(items@, k as int));
            k += 1;
        }
        assert(out@ =~= head + listing(items@, 0));
        assert(out@ =~= old(out)@ + cause(category, expected@));
    } else {
        assert(out@ =~= old(out)@ + cause(category, expected@));
    }
}

impl ParseError {
    /// Line of the failure, counted from 1.
    pub fn line(&self) -> (n: usize)
        ensures
            n == self@.line,
    {
        self.line
    }

    /// Column of the failure, counted from 1 in characters.
    pub fn column(&self) -> (n: usize)
        ensures
            n == self@.column,
    {
        self.column
    }

    /// Byte offset of the failure in the source.
    pub fn offset(&self) -> (n: usize)
        ensures
            n == self@.offset,
    {
        self.offset
    }

    /// The name of the production that failed.
    pub fn category(&self) -> (s: String)
        ensures
            s@ == phrase(self@.category),
    {
        let mut out: Vec<char> = Vec::new();
        push_phrase(&mut out, self.category);
        let s = string_of(&out, 0, out.len());
        assert(out@.subrange(0, out.len() as int) =~= out@);
        assert(Seq::<char>::empty() + phrase(self.category) =~= phrase(self.category));
        s
    }

    /// The descriptions of what would have been accepted, in the order in
    /// which the message lists them.
    pub fn expected(&self) -> (v: Vec<String>)
        ensures
            v.len() == listed(self@.expected).len(),
            forall|k: int| 0 <= k < v.len() ==> (#[trigger] v@[k])@ == describe(listed(self@.expected)[k]),
    {
        let items = list_order(&self.expected);
        let mut v: Vec<String> = Vec::new();
        let mut k: usize = 0;
        while k < items.len()
            invariant
                k <= items.len(),
                v.len() == k,
                forall|n: int| 0 <= n < k ==> (#[trigger] v@[n])@ == describe(items@[n]),
            decreases items.len() - k,
        {
            let mut out: Vec<char> = Vec::new();
            push_description(&mut out, items[k]);
            let s = string_of(&out, 0, out.len());
            assert(out@.subrange(0, out.len() as int) =~= out@);
            assert(Seq::<char>::empty() + describe(items@[k as int]) =~= describe(items@[k as int]));
            v.push(s);
            k += 1;
        }
        v
    }

    /// The message: header, source line, caret and cause.
    pub fn to_string(&self) -> (s: String)
        ensures
            s@ == message(self@),
    {
        let mut num: Vec<char> = Vec::new();
        push_decimal(&mut num, self.line as u64);
        assert(num@ =~= decimal(self.line as nat));
        let line_text = chars_of(self.source_line.as_str());
        let mut out: Vec<char> = Vec::new();
        push_spaces(&mut out, num.len());
        push_str(&mut out, "--> HCL parse error in line ");
        crate::format::extend(&mut out, &num);
        push_str(&mut out, ", column ");
        push_decimal(&mut out, self.column as u64);
        out.push('\n');
        push_spaces(&mut out, num.len());
        push_str(&mut out, " |\n");
        crate::format::extend(&mut out, &num);
        push_str(&mut out, " | ");
        crate::format::extend(&mut out, &line_text);
        out.push('\n');
        push_spaces(&mut out, num.len());
        push_str(&mut out, " | ");
        push_spaces(
            &mut out,
            if self.column > 0 {
                self.column - 1
            } else {
                0
            },
        );
        push_str(&mut out, "^---\n");
        push_spaces(&mut out, num.len());
        push_str(&mut out, " |\n");
        push_spaces(&mut out, num.len());
        push_str(&mut out, " = ");
        push_cause(&mut out, self.category, &self.expected);
        assert(out@ =~= message(self@));
        let s = string_of(&out, 0, out.len());
        assert(out@.subrange(0, out.len() as int) =~= out@);
        s
    }
}

/// Makes the parse error for the failure `f` in the source `chars`.
pub fn locate(chars: &Vec<char>, f: Failure) -> (e: ParseError)
    requires
        encode_utf8(chars@).len() <= usize::MAX,
    ensures
        e@ == located(chars@, f@),
{
    let at: usize = if f.offset > chars.len() {
        chars.len()
    } else {
        f.offset
    };
    let cursor = Cursor::start(chars).advance(chars, at);
    let place = cursor.position(chars);
    let end = scan(chars, cursor.line_start, CharClass::Line);
    let source_line = string_of(chars, cursor.line_start, end);
    ParseError {
        offset: place.offset,
        line: place.line,
        column: place.column,
        category: f.category,
        expected: f.expected,
        source_line,
    }
}

} // verus!
