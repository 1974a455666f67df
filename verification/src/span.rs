//! Places in the source: byte offset, line and column of a character, and
//! the spans between two of them.

use vstd::prelude::*;
use vstd::utf8::encode_utf8;

verus! {

/// A place in the source.
#[derive(Debug, Clone, Copy, PartialEq, Eq, Structural)]
pub struct Position {
    /// Byte offset in the UTF-8 encoding of the source.
    pub offset: usize,
    /// Line, counted from 1.
    pub line: usize,
    /// Column, counted from 1 in characters.
    pub column: usize,
}

/// The stretch of the source from `start` up to, not including, `end`.
#[derive(Debug, Clone, Copy, PartialEq, Eq, Structural)]
pub struct SourceSpan {
    pub start: Position,
    pub end: Position,
}

/// `n`, or the largest machine integer where `n` is larger.
pub open spec fn saturated(n: int) -> usize {
    if n > usize::MAX {
        usize::MAX
    } else if n < 0 {
        0
    } else {
        n as usize
    }
}

/// The index at which the line that holds position `i` starts.
pub open spec fn line_start(s: Seq<char>, i: int) -> int
    decreases i,
{
    if i <= 0 || i > s.len() {
        0
    } else if s[i - 1] == '\n' {
        i
    } else {
        line_start(s, i - 1)
    }
}

/// The number of line breaks before position `i`.
pub open spec fn breaks_before(s: Seq<char>, i: int) -> nat
    decreases i,
{
    if i <= 0 || i > s.len() {
        0
    } else {
        breaks_before(s, i - 1) + if s[i - 1] == '\n' {
            1nat
        } else {
            0nat
        }
    }
}

/// The place of the character with index `k`: the length of the UTF-8
/// encoding of what stands before it, one more than the number of line
/// breaks before it, and one more than the number of characters between
/// the start of its line and it. Line and column stop at the largest
/// machine integer.
pub open spec fn position(s: Seq<char>, k: int) -> Position {
    Position {
        offset: saturated(encode_utf8(s.take(k)).len() as int),
        line: saturated(breaks_before(s, k) as int + 1),
        column: saturated(k - line_start(s, k) + 1),
    }
}

/// The span between the characters with the indices `from` and `to`.
pub open spec fn span(s: Seq<char>, from: int, to: int) -> SourceSpan {
    SourceSpan { start: position(s, from), end: position(s, to) }
}

/// Where a scan of the source stands, with what it has counted so far.
#[derive(Debug, Clone, Copy, PartialEq, Eq, Structural)]
pub struct Cursor {
    /// Index of the character at which the scan stands.
    pub index: usize,
    /// Bytes that the characters before it take in UTF-8.
    pub bytes: usize,
    /// Line breaks before it.
    pub breaks: usize,
    /// Index at which its line starts.
    pub line_start: usize,
}

impl Cursor {
    /// The cursor stands at `k` and has counted rightly.
    pub open spec fn stands_at(self, s: Seq<char>, k: int) -> bool {
        &&& self.index == k
        &&& 0 <= k <= s.len()
        &&& self.bytes == encode_utf8(s.take(k)).len()
        &&& self.breaks == breaks_before(s, k)
        &&& self.line_start == line_start(s, k)
        &&& self.line_start <= k
        &&& self.breaks <= k
    }

    /// The cursor at the start of the source.
    pub fn start(chars: &Vec<char>) -> (c: Cursor)
        ensures
            c.stands_at(chars@, 0),
    {
        assert(chars@.take(0) =~= Seq::<char>::empty());
        Cursor { index: 0, bytes: 0, breaks: 0, line_start: 0 }
    }

    /// Moves the cursor forward to the character with index `to`.
    pub fn advance(self, chars: &Vec<char>, to: usize) -> (c: Cursor)
        requires
            self.stands_at(chars@, self.index as int),
            self.index <= to <= chars.len(),
            encode_utf8(chars@).len() <= usize::MAX,
        ensures
            c.stands_at(chars@, to as int),
    {
        let mut c = self;
        while c.index < to
            invariant
                c.stands_at(chars@, c.index as int),
                c.index <= to <= chars.len(),
                encode_utf8(chars@).len() <= usize::MAX,
            decreases to - c.index,
        {
            let k = c.index;
            let ch = chars[k];
            proof {
                lemma_encode_step(chars@, k as int);
            }
            let w = utf8_width(ch);
            c.bytes = c.bytes + w;
            if ch == '\n' {
                c.breaks = c.breaks + 1;
                c.line_start = k + 1;
            }
            c.index = k + 1;
        }
        c
    }

    /// The place at which the cursor stands.
    pub fn position(&self, chars: &Vec<char>) -> (p: Position)
        requires
            self.stands_at(chars@, self.index as int),
            encode_utf8(chars@).len() <= usize::MAX,
        ensures
            p == position(chars@, self.index as int),
    {
        proof {
            let k = self.index as int;
            assert(chars@ =~= chars@.take(k) + chars@.skip(k));
            lemma_encode_concat(chars@.take(k), chars@.skip(k));
        }
        let line: usize = if self.breaks < usize::MAX {
            self.breaks + 1
        } else {
            usize::MAX
        };
        let column: usize = if self.index - self.line_start < usize::MAX {
            self.index - self.line_start + 1
        } else {
            usize::MAX
        };
        Position { offset: self.bytes, line, column }
    }
}

/// The UTF-8 encoding of a text is the encoding of its start followed by the
/// encoding of its rest.
pub proof fn lemma_encode_concat(a: Seq<char>, b: Seq<char>)
    ensures
        encode_utf8(a + b) == encode_utf8(a) + encode_utf8(b),
    decreases a.len(),
{
    if a.len() == 0 {
        assert(a + b =~= b);
        assert(encode_utf8(a) + encode_utf8(b) =~= encode_utf8(b));
    } else {
        lemma_encode_concat(a.drop_first(), b);
        assert((a + b).drop_first() =~= a.drop_first() + b);
        assert((a + b)[0] == a[0]);
        assert(encode_utf8(a + b) =~= encode_utf8(a) + encode_utf8(b));
    }
}

/// The encoding of the first `k + 1` characters is the encoding of the first
/// `k` and of the one after them, and no longer than the encoding of the whole.
pub proof fn lemma_encode_step(s: Seq<char>, k: int)
    requires
        0 <= k < s.len(),
    ensures
        encode_utf8(s.take(k + 1)).len() == encode_utf8(s.take(k)).len() + encode_utf8(seq![s[k]]).len(),
        encode_utf8(s.take(k + 1)).len() <= encode_utf8(s).len(),
{
    assert(s.take(k + 1) =~= s.take(k) + seq![s[k]]);
    lemma_encode_concat(s.take(k), seq![s[k]]);
    assert(s =~= s.take(k + 1) + s.skip(k + 1));
    lemma_encode_concat(s.take(k + 1), s.skip(k + 1));
}

/// The number of bytes that the UTF-8 encoding of `c` takes.
pub fn utf8_width(c: char) -> (n: usize)
    ensures
        n == encode_utf8(seq![c]).len(),
        1 <= n <= 4,
{
    let v: u32 = c as u32;
    proof {
        assert(seq![c].drop_first() =~= Seq::<char>::empty());
        assert(encode_utf8(seq![c].drop_first()) =~= Seq::<u8>::empty());
        assert(seq![c][0] == c);
    }
    if v < 0x80 {
        1
    } else if v < 0x800 {
        2
    } else if v < 0x10000 {
        3
    } else {
        4
    }
}

} // verus!
