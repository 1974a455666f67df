//! Character classes, scanning of character runs, decimal numerals and the
//! conversions between strings and indexable character vectors.

use vstd::prelude::*;
use vstd::std_specs::iter::IteratorSpec;

verus! {

/// `c` is an ASCII letter.
pub open spec fn is_letter(c: char) -> bool {
    ('a' <= c && c <= 'z') || ('A' <= c && c <= 'Z')
}

/// `c` is an ASCII decimal digit.
pub open spec fn is_digit(c: char) -> bool {
    '0' <= c && c <= '9'
}

/// `c` may start an identifier.
pub open spec fn is_ident_start(c: char) -> bool {
    is_letter(c) || c == '_'
}

/// `c` may continue an identifier.
pub open spec fn is_ident_char(c: char) -> bool {
    is_letter(c) || is_digit(c) || c == '_' || c == '-'
}

/// `c` is horizontal white space.
pub open spec fn is_blank(c: char) -> bool {
    c == ' ' || c == '\t' || c == '\r'
}

/// `c` is white space, a line break included.
pub open spec fn is_space(c: char) -> bool {
    is_blank(c) || c == '\n'
}

/// The classes of characters that the scanner skips or collects as a run.
#[derive(Clone, Copy, PartialEq, Eq, Debug)]
pub enum CharClass {
    /// Horizontal white space.
    Blank,
    /// White space and line breaks.
    Space,
    /// Characters that continue an identifier.
    Ident,
    /// Decimal digits.
    Digit,
    /// Everything but a line break.
    Line,
}

/// Membership of `c` in the class `k`.
pub open spec fn in_class(k: CharClass, c: char) -> bool {
    match k {
        CharClass::Blank => is_blank(c),
        CharClass::Space => is_space(c),
        CharClass::Ident => is_ident_char(c),
        CharClass::Digit => is_digit(c),
        CharClass::Line => c != '\n',
    }
}

/// The character at `i`, or NUL where `i` lies outside of `s`.
pub open spec fn at(s: Seq<char>, i: int) -> char {
    if 0 <= i < s.len() {
        s[i]
    } else {
        '\0'
    }
}

/// The text `t` occurs in `s` at position `i`.
pub open spec fn has_at(s: Seq<char>, i: int, t: Seq<char>) -> bool {
    &&& 0 <= i
    &&& i + t.len() <= s.len()
    &&& forall|k: int| 0 <= k < t.len() ==> s[i + k] == #[trigger] t[k]
}

/// The end of the longest run of characters of class `k` that starts at `i`.
pub open spec fn run_end(s: Seq<char>, i: int, k: CharClass) -> int
    decreases s.len() - i,
{
    if 0 <= i < s.len() && in_class(k, s[i]) {
        run_end(s, i + 1, k)
    } else {
        i
    }
}

/// A run ends inside the text, at a character outside the class if at any.
pub proof fn lemma_run_end(s: Seq<char>, i: int, k: CharClass)
    requires
        0 <= i <= s.len(),
    ensures
        i <= run_end(s, i, k) <= s.len(),
        forall|j: int| i <= j < run_end(s, i, k) ==> in_class(k, #[trigger] s[j]),
        run_end(s, i, k) < s.len() ==> !in_class(k, s[run_end(s, i, k)]),
        !in_class(k, '\0') ==> !in_class(k, at(s, run_end(s, i, k))),
    decreases s.len() - i,
{
    if i < s.len() && in_class(k, s[i]) {
        lemma_run_end(s, i + 1, k);
    }
}

/// A stretch of characters of class `k` that is followed by a character
/// outside the class, or by the end of the text, is the run that starts at `i`.
pub proof fn lemma_run_end_is(s: Seq<char>, i: int, j: int, k: CharClass)
    requires
        0 <= i <= j <= s.len(),
        forall|n: int| i <= n < j ==> in_class(k, #[trigger] s[n]),
        j == s.len() || !in_class(k, s[j]),
    ensures
        run_end(s, i, k) == j,
    decreases j - i,
{
    if i < j {
        lemma_run_end_is(s, i + 1, j, k);
    }
}

/// Splitting an occurrence of a concatenation into its two parts.
pub proof fn lemma_has_at_concat(s: Seq<char>, i: int, a: Seq<char>, b: Seq<char>)
    ensures
        has_at(s, i, a + b) <==> has_at(s, i, a) && has_at(s, i + a.len(), b),
{
    if has_at(s, i, a + b) {
        assert forall|k: int| 0 <= k < a.len() implies s[i + k] == #[trigger] a[k] by {
            assert((a + b)[k] == a[k]);
        }
        assert forall|k: int| 0 <= k < b.len() implies s[i + a.len() + k] == #[trigger] b[k] by {
            assert((a + b)[a.len() + k] == b[k]);
        }
    }
    if has_at(s, i, a) && has_at(s, i + a.len(), b) {
        assert forall|k: int| 0 <= k < (a + b).len() implies s[i + k] == #[trigger] (a + b)[k] by {
            if k < a.len() {
                assert((a + b)[k] == a[k]);
            } else {
                assert((a + b)[k] == b[k - a.len()]);
            }
        }
    }
}

/// An occurrence is the matching stretch of the text.
pub proof fn lemma_has_at_subrange(s: Seq<char>, i: int, t: Seq<char>)
    requires
        has_at(s, i, t),
    ensures
        s.subrange(i, i + t.len()) == t,
{
    assert forall|k: int| 0 <= k < t.len() implies s.subrange(i, i + t.len())[k] == t[k] by {
        assert(s[i + k] == t[k]);
    }
    assert(s.subrange(i, i + t.len()) =~= t);
}

/// The character for the digit `d`.
pub open spec fn digit_char(d: int) -> char {
    (d + 48) as char
}

/// The digit that the character `c` stands for.
pub open spec fn digit_value(c: char) -> int {
    c as int - 48
}

/// The decimal numeral of `n`, without leading zeros.
pub open spec fn decimal(n: nat) -> Seq<char>
    decreases n,
{
    if n < 10 {
        seq![digit_char(n as int)]
    } else {
        decimal(n / 10).push(digit_char((n % 10) as int))
    }
}

/// The number that a sequence of digits denotes.
pub open spec fn decimal_value(ds: Seq<char>) -> nat
    decreases ds.len(),
{
    if ds.len() == 0 {
        0
    } else {
        (decimal_value(ds.drop_last()) * 10 + digit_value(ds.last())) as nat
    }
}

/// A numeral is a nonempty run of digits, and denotes its number.
pub proof fn lemma_decimal(n: nat)
    ensures
        decimal(n).len() >= 1,
        forall|k: int| 0 <= k < decimal(n).len() ==> is_digit(#[trigger] decimal(n)[k]),
        decimal_value(decimal(n)) == n,
    decreases n,
{
    if n < 10 {
        let ds = decimal(n);
        assert(ds.drop_last() =~= Seq::<char>::empty());
        assert(decimal_value(ds.drop_last()) == 0);
    } else {
        lemma_decimal(n / 10);
        let hd = decimal(n / 10);
        let ds = decimal(n);
        assert(ds.drop_last() =~= hd);
        assert(ds.last() == digit_char((n % 10) as int));
    }
}

/// Tests whether `c` is an ASCII letter.
pub fn letter(c: char) -> (r: bool)
    ensures
        r == is_letter(c),
{
    (c >= 'a' && c <= 'z') || (c >= 'A' && c <= 'Z')
}

/// Tests whether `c` is a decimal digit.
pub fn digit(c: char) -> (r: bool)
    ensures
        r == is_digit(c),
{
    c >= '0' && c <= '9'
}

/// Tests whether `c` may start an identifier.
pub fn ident_start(c: char) -> (r: bool)
    ensures
        r == is_ident_start(c),
{
    letter(c) || c == '_'
}

/// Tests whether `c` belongs to the class `k`.
pub fn class_has(k: CharClass, c: char) -> (r: bool)
    ensures
        r == in_class(k, c),
{
    match k {
        CharClass::Blank => c == ' ' || c == '\t' || c == '\r',
        CharClass::Space => c == ' ' || c == '\t' || c == '\r' || c == '\n',
        CharClass::Ident => letter(c) || digit(c) || c == '_' || c == '-',
        CharClass::Digit => digit(c),
        CharClass::Line => c != '\n',
    }
}

/// The character at `i`, or NUL past the end.
pub fn peek(chars: &Vec<char>, i: usize) -> (c: char)
    ensures
        c == at(chars@, i as int),
{
    if i < chars.len() {
        chars[i]
    } else {
        '\0'
    }
}

/// Skips the run of characters of class `k` that starts at `i`.
pub fn scan(chars: &Vec<char>, i: usize, k: CharClass) -> (j: usize)
    requires
        i <= chars.len(),
    ensures
        j == run_end(chars@, i as int, k),
        i <= j <= chars.len(),
{
    let mut j: usize = i;
    while j < chars.len() && class_has(k, chars[j])
        invariant
            i <= j <= chars.len(),
            run_end(chars@, i as int, k) == run_end(chars@, j as int, k),
        decreases chars.len() - j,
    {
        j += 1;
    }
    j
}

/// Copies the characters of `s` into a vector, so that they can be indexed.
pub fn chars_of(s: &str) -> (v: Vec<char>)
    ensures
        v@ == s@,
{
    broadcast use vstd::string::group_string_axioms;

    let mut v: Vec<char> = Vec::new();
    for c in it: s.chars()
        invariant
            it.seq() == s@,
            v@ == s@.take(it.index()),
    {
        v.push(c);
    }
    v
}

/// Appends one character to a string.
///
/// Trusted: this is `String::push`, which std documents as appending the
/// given character to the end of the string.
#[verifier::external_body]
pub(crate) fn push_char(s: &mut String, c: char)
    ensures
        final(s)@ == old(s)@.push(c),
{
    s.push(c)
}

/// The character with the code `v`, where there is one.
///
/// Trusted: this is `char::from_u32`, which std documents as returning
/// `None` exactly where `v` is no Unicode scalar value: a surrogate, or above
/// `0x10FFFF`.
#[verifier::external_body]
pub(crate) fn scalar(v: u32) -> (r: Option<char>)
    ensures
        r == (if v < 0xD800 || (0xE000 <= v && v <= 0x10FFFF) {
            Some(v as char)
        } else {
            None
        }),
{
    char::from_u32(v)
}

/// The string made of the characters `chars[from..to]`.
pub fn string_of(chars: &Vec<char>, from: usize, to: usize) -> (s: String)
    requires
        from <= to <= chars.len(),
    ensures
        s@ == chars@.subrange(from as int, to as int),
{
    let mut s = String::new();
    let mut i: usize = from;
    while i < to
        invariant
            from <= i <= to <= chars.len(),
            s@ == chars@.subrange(from as int, i as int),
        decreases to - i,
    {
        push_char(&mut s, chars[i]);
        i += 1;
    }
    s
}

/// Appends the characters of `s` to `out`.
pub fn push_str(out: &mut Vec<char>, s: &str)
    ensures
        final(out)@ == old(out)@ + s@,
{
    broadcast use vstd::string::group_string_axioms;

    for c in it: s.chars()
        invariant
            it.seq() == s@,
            out@ == old(out)@ + s@.take(it.index()),
    {
        out.push(c);
    }
}

/// Appends the decimal numeral of `n` to `out`.
pub fn push_decimal(out: &mut Vec<char>, n: u64)
    ensures
        final(out)@ == old(out)@ + decimal(n as nat),
    decreases n,
{
    if n >= 10 {
        push_decimal(out, n / 10);
    }
    let d: u8 = (n % 10) as u8;
    out.push((d + 48) as char);
}

/// Reads the digits `chars[from..to]` as a number, or reports that it does
/// not fit into 64 bits.
pub fn read_decimal(chars: &Vec<char>, from: usize, to: usize) -> (r: Option<u64>)
    requires
        from <= to <= chars.len(),
        forall|k: int| from <= k < to ==> is_digit(#[trigger] chars@[k]),
    ensures
        match r {
            Some(n) => n == decimal_value(chars@.subrange(from as int, to as int)),
            None => decimal_value(chars@.subrange(from as int, to as int)) > u64::MAX,
        },
{
    let mut n: u64 = 0;
    let mut i: usize = from;
    while i < to
        invariant
            from <= i <= to <= chars.len(),
            forall|k: int| from <= k < to ==> is_digit(#[trigger] chars@[k]),
            n == decimal_value(chars@.subrange(from as int, i as int)),
        decreases to - i,
    {
        let c = chars[i];
        let d: u64 = (c as u32 - 48) as u64;
        proof {
            let next = chars@.subrange(from as int, i as int + 1);
            assert(next.drop_last() =~= chars@.subrange(from as int, i as int));
            assert(next.last() == c);
            assert(decimal_value(next) == n * 10 + d);
            lemma_decimal_value_grows(chars@, from as int, i as int + 1, to as int);
        }
        if n > (u64::MAX - d) / 10 {
            return None;
        }
        n = n * 10 + d;
        i += 1;
    }
    Some(n)
}

/// Reading more digits never makes the number smaller.
pub proof fn lemma_decimal_value_grows(s: Seq<char>, from: int, mid: int, to: int)
    requires
        0 <= from <= mid <= to <= s.len(),
        forall|k: int| from <= k < to ==> is_digit(#[trigger] s[k]),
    ensures
        decimal_value(s.subrange(from, mid)) <= decimal_value(s.subrange(from, to)),
    decreases to - mid,
{
    if mid < to {
        lemma_decimal_value_grows(s, from, mid, to - 1);
        let whole = s.subrange(from, to);
        assert(whole.drop_last() =~= s.subrange(from, to - 1));
        assert(is_digit(s[to - 1]));
        assert(whole.last() == s[to - 1]);
    }
}

} // verus!
