//! Failure candidates of the grammar engine: where a production gave up, what
//! it was, what it would have accepted there, and how competing candidates are
//! reduced to the one that is reported.

use vstd::prelude::*;

verus! {

/// Something the grammar would have accepted at a failure position.
#[derive(Clone, Copy, PartialEq, Eq, Debug, Structural)]
pub enum Expected {
    /// A literal character, shown in backticks.
    Char(char),
    /// The literal `...`.
    Ellipsis,
    /// A line break.
    Newline,
    /// An identifier.
    Identifier,
    /// A run of decimal digits.
    UnsignedInteger,
    /// A letter.
    Letter,
    /// A decimal digit.
    Digit,
    /// A hexadecimal digit.
    HexDigit,
    /// The end of the input.
    EndOfInput,
}

/// The production that failed.
#[derive(Clone, Copy, PartialEq, Eq, Debug, Structural)]
pub enum Category {
    Structure,
    BlockBody,
    Block,
    BlockLabel,
    Attribute,
    Expression,
    TraversalOperator,
    ObjectItem,
    Array,
    FunctionCall,
    Conditional,
    Parenthesis,
    Template,
    StringLiteral,
    Escape,
    Number,
    Heredoc,
    Nesting,
}

impl Expected {
    /// Literal terminals are listed before abstract categories.
    pub open spec fn is_literal(self) -> bool {
        self is Char || self is Ellipsis
    }

    /// Tests whether this is a literal terminal.
    pub fn literal(&self) -> (r: bool)
        ensures
            r == self.is_literal(),
    {
        match self {
            Expected::Char(_) => true,
            Expected::Ellipsis => true,
            _ => false,
        }
    }
}

/// A failure candidate, as the contracts see it.
pub struct FailureView {
    /// Index of the character at which the production gave up.
    pub offset: int,
    /// The production that gave up.
    pub category: Category,
    /// What it would have accepted there, in the order first met.
    pub expected: Seq<Expected>,
}

/// A failure candidate.
#[derive(Debug)]
pub struct Failure {
    /// Index of the character at which the production gave up.
    pub offset: usize,
    /// The production that gave up.
    pub category: Category,
    /// What it would have accepted there, in the order first met.
    pub expected: Vec<Expected>,
}

impl View for Failure {
    type V = FailureView;

    open spec fn view(&self) -> FailureView {
        FailureView { offset: self.offset as int, category: self.category, expected: self.expected@ }
    }
}

/// `acc`, with `x` appended unless it is there already.
pub open spec fn add_unique(acc: Seq<Expected>, x: Expected) -> Seq<Expected> {
    if acc.contains(x) {
        acc
    } else {
        acc.push(x)
    }
}

/// `acc`, followed by those items of `more` that are new, each once and in
/// the order in which they are first met.
pub open spec fn union(acc: Seq<Expected>, more: Seq<Expected>) -> Seq<Expected>
    decreases more.len(),
{
    if more.len() == 0 {
        acc
    } else {
        union(add_unique(acc, more[0]), more.drop_first())
    }
}

/// The candidate that is reported of two: the one that got further. Two that
/// gave up at the same place become one, which keeps the category of the first
/// and lists what either would have accepted.
pub open spec fn merge(a: FailureView, b: FailureView) -> FailureView {
    if b.offset > a.offset {
        b
    } else if a.offset > b.offset {
        a
    } else {
        FailureView {
            offset: a.offset,
            category: a.category,
            expected: union(union(Seq::empty(), a.expected), b.expected),
        }
    }
}

/// The candidate that is reported of a nonempty sequence of them.
pub open spec fn furthest(cs: Seq<FailureView>) -> FailureView
    decreases cs.len(),
{
    if cs.len() <= 1 {
        cs[0]
    } else {
        merge(furthest(cs.drop_last()), cs.last())
    }
}

/// No item occurs twice in `s`.
pub open spec fn distinct(s: Seq<Expected>) -> bool {
    forall|i: int, j: int| 0 <= i < j < s.len() ==> s[i] != s[j]
}

/// A union keeps what it started from as a prefix, holds every new item, holds
/// nothing else, and repeats nothing that was not repeated before.
pub proof fn lemma_union(acc: Seq<Expected>, more: Seq<Expected>)
    ensures
        acc.len() <= union(acc, more).len(),
        union(acc, more).subrange(0, acc.len() as int) == acc,
        forall|x: Expected| acc.contains(x) || more.contains(x) <==> union(acc, more).contains(x),
        distinct(acc) ==> distinct(union(acc, more)),
    decreases more.len(),
{
    if more.len() == 0 {
        assert(acc.subrange(0, acc.len() as int) =~= acc);
        assert forall|x: Expected| !more.contains(x) by {
            if more.contains(x) {
                let i = choose|i: int| 0 <= i < more.len() && more[i] == x;
            }
        }
    } else {
        let next = add_unique(acc, more[0]);
        let rest = more.drop_first();
        lemma_union(next, rest);
        let u = union(acc, more);
        assert(u.subrange(0, acc.len() as int) =~= acc) by {
            assert(u.subrange(0, next.len() as int) == next);
            assert forall|k: int| 0 <= k < acc.len() implies u[k] == acc[k] by {
                assert(u.subrange(0, next.len() as int)[k] == next[k]);
            }
        }
        assert forall|x: Expected| acc.contains(x) || more.contains(x) <==> u.contains(x) by {
            if acc.contains(x) {
                let i = choose|i: int| 0 <= i < acc.len() && acc[i] == x;
                assert(next[i] == x);
                assert(next.contains(x));
            }
            if more.contains(x) {
                let i = choose|i: int| 0 <= i < more.len() && more[i] == x;
                if i == 0 {
                    if !acc.contains(x) {
                        assert(next[acc.len() as int] == x);
                    }
                    assert(next.contains(x));
                } else {
                    assert(rest[i - 1] == x);
                    assert(rest.contains(x));
                }
            }
            if u.contains(x) {
                if next.contains(x) {
                    let i = choose|i: int| 0 <= i < next.len() && next[i] == x;
                    if i < acc.len() {
                        assert(acc[i] == x);
                    } else {
                        assert(more[0] == x);
                    }
                } else {
                    let i = choose|i: int| 0 <= i < rest.len() && rest[i] == x;
                    assert(more[i + 1] == x);
                }
            }
        }
        if distinct(acc) {
            assert(distinct(next)) by {
                assert forall|i: int, j: int| 0 <= i < j < next.len() implies next[i] != next[j] by {
                    if j == acc.len() && next[i] == next[j] {
                        assert(acc[i] == more[0]);
                        assert(acc.contains(more[0]));
                    }
                }
            }
        }
    }
}

/// The reported candidate never lies before one of the two it was chosen
/// from, lies where one of them does, and lists nothing twice where two
/// candidates were merged.
pub proof fn lemma_merge(a: FailureView, b: FailureView)
    ensures
        merge(a, b).offset >= a.offset,
        merge(a, b).offset >= b.offset,
        merge(a, b).offset == a.offset || merge(a, b).offset == b.offset,
        a.offset == b.offset ==> distinct(merge(a, b).expected),
        a.offset == b.offset ==> forall|x: Expected|
            a.expected.contains(x) || b.expected.contains(x) <==> merge(a, b).expected.contains(x),
{
    let first = union(Seq::empty(), a.expected);
    lemma_union(Seq::empty(), a.expected);
    lemma_union(first, b.expected);
    assert forall|x: Expected| !Seq::<Expected>::empty().contains(x) by {
        if Seq::<Expected>::empty().contains(x) {
            let i = choose|i: int| 0 <= i < Seq::<Expected>::empty().len() && Seq::<Expected>::empty()[i] == x;
        }
    }
}

/// Furthest-progress reporting: the position that is reported is never
/// earlier than the position at which any of the candidates gave up, and it
/// is the position of one of them.
pub proof fn lemma_furthest_progress(cs: Seq<FailureView>)
    requires
        cs.len() > 0,
    ensures
        forall|i: int| 0 <= i < cs.len() ==> furthest(cs).offset >= (#[trigger] cs[i]).offset,
        exists|i: int| 0 <= i < cs.len() && furthest(cs).offset == (#[trigger] cs[i]).offset,
    decreases cs.len(),
{
    if cs.len() <= 1 {
        assert(furthest(cs).offset == cs[0].offset);
    } else {
        let init = cs.drop_last();
        lemma_furthest_progress(init);
        lemma_merge(furthest(init), cs.last());
        assert forall|i: int| 0 <= i < cs.len() implies furthest(cs).offset >= (#[trigger] cs[i]).offset by {
            if i < init.len() {
                assert(init[i] == cs[i]);
            }
        }
        let w = choose|i: int| 0 <= i < init.len() && furthest(init).offset == (#[trigger] init[i]).offset;
        assert(init[w] == cs[w]);
        if furthest(cs).offset == cs.last().offset {
            assert(furthest(cs).offset == cs[cs.len() - 1].offset);
        } else {
            assert(furthest(cs).offset == cs[w].offset);
        }
    }
}

/// Tests whether `x` occurs in `items`.
pub fn contains(items: &Vec<Expected>, x: Expected) -> (r: bool)
    ensures
        r == items@.contains(x),
{
    let mut i: usize = 0;
    while i < items.len()
        invariant
            i <= items.len(),
            forall|k: int| 0 <= k < i ==> items@[k] != x,
        decreases items.len() - i,
    {
        if items[i] == x {
            return true;
        }
        i += 1;
    }
    false
}

/// Appends to `acc` the items of `more` that it does not hold yet.
pub fn extend_unique(acc: &mut Vec<Expected>, more: &Vec<Expected>)
    ensures
        final(acc)@ == union(old(acc)@, more@),
{
    let mut i: usize = 0;
    assert(more@.skip(0) =~= more@);
    while i < more.len()
        invariant
            i <= more.len(),
            union(acc@, more@.skip(i as int)) == union(old(acc)@, more@),
        decreases more.len() - i,
    {
        let x = more[i];
        assert(more@.skip(i as int).drop_first() =~= more@.skip(i as int + 1));
        assert(more@.skip(i as int)[0] == x);
        if !contains(acc, x) {
            acc.push(x);
        }
        i += 1;
    }
}

impl Failure {
    /// A candidate at `offset` for the production `category`.
    pub fn new(offset: usize, category: Category, expected: Vec<Expected>) -> (f: Failure)
        ensures
            f@ == (FailureView { offset: offset as int, category, expected: expected@ }),
    {
        Failure { offset, category, expected }
    }

    /// Reduces two candidates to the one that is reported.
    pub fn merge(self, other: Failure) -> (f: Failure)
        ensures
            f@ == merge(self@, other@),
            f.offset >= self.offset,
            f.offset >= other.offset,
    {
        if other.offset > self.offset {
            other
        } else if self.offset > other.offset {
            self
        } else {
            let mut expected: Vec<Expected> = Vec::new();
            extend_unique(&mut expected, &self.expected);
            extend_unique(&mut expected, &other.expected);
            Failure { offset: self.offset, category: self.category, expected }
        }
    }
}

/// Reduces the candidates of competing alternatives to the one that is
/// reported: the one that got furthest, merged with those that got as far.
pub fn report_furthest(candidates: Vec<Failure>) -> (f: Failure)
    requires
        candidates.len() > 0,
    ensures
        f@ == furthest(views(candidates@)),
        forall|i: int| 0 <= i < candidates.len() ==> f.offset >= (#[trigger] candidates@[i]).offset,
    decreases candidates.len(),
{
    let mut candidates = candidates;
    let ghost all = views(candidates@);
    proof {
        lemma_furthest_progress(all);
        assert forall|i: int| 0 <= i < candidates.len() implies furthest(all).offset >= (
        #[trigger] candidates@[i]).offset by {
            assert(all[i] == candidates@[i]@);
        }
    }
    let last = candidates.pop().unwrap();
    if candidates.len() == 0 {
        assert(all[0] == last@);
        last
    } else {
        assert(all.drop_last() =~= views(candidates@));
        assert(all.last() == last@);
        let first = report_furthest(candidates);
        first.merge(last)
    }
}

/// The candidates of alternatives that all gave up at `offset`, one for each
/// of `options`.
pub open spec fn candidates(offset: int, category: Category, options: Seq<Expected>) -> Seq<FailureView> {
    Seq::new(options.len(), |k: int| FailureView { offset, category, expected: seq![options[k]] })
}

/// What is reported where none of several alternatives accepts the input at
/// `offset`: the candidates of all of them, reduced to one.
pub open spec fn none_of(offset: int, category: Category, options: Seq<Expected>) -> FailureView {
    furthest(candidates(offset, category, options))
}

/// A candidate without alternatives: the input nests deeper than the parser
/// follows it.
pub open spec fn too_deep(offset: int) -> FailureView {
    FailureView { offset, category: Category::Nesting, expected: Seq::empty() }
}

/// A candidate with one alternative list, as it stands.
pub open spec fn failure(offset: int, category: Category, expected: Seq<Expected>) -> FailureView {
    FailureView { offset, category, expected }
}

/// A union with one more item at the end adds that item, unless it is there
/// already.
pub proof fn lemma_union_push(acc: Seq<Expected>, more: Seq<Expected>, x: Expected)
    ensures
        union(acc, more.push(x)) == add_unique(union(acc, more), x),
    decreases more.len(),
{
    if more.len() == 0 {
        assert(more.push(x).drop_first() =~= Seq::<Expected>::empty());
        assert(union(add_unique(acc, x), more.push(x).drop_first()) == add_unique(acc, x));
    } else {
        assert(more.push(x).drop_first() =~= more.drop_first().push(x));
        assert(more.push(x)[0] == more[0]);
        lemma_union_push(add_unique(acc, more[0]), more.drop_first(), x);
    }
}

/// A union with items that are new and differ from each other appends them.
pub proof fn lemma_union_distinct(acc: Seq<Expected>, more: Seq<Expected>)
    requires
        distinct(acc + more),
    ensures
        union(acc, more) == acc + more,
    decreases more.len(),
{
    if more.len() == 0 {
        assert(acc + more =~= acc);
    } else {
        let x = more[0];
        assert((acc + more)[acc.len() as int] == x);
        if acc.contains(x) {
            let i = choose|i: int| 0 <= i < acc.len() && acc[i] == x;
            assert((acc + more)[i] == x);
        }
        assert(acc.push(x) + more.drop_first() =~= acc + more);
        lemma_union_distinct(acc.push(x), more.drop_first());
    }
}

/// Where none of the alternatives accepts the input, the failure lies at the
/// place at which they were tried, names the production that tried them, and
/// lists each of them once, in the order in which they were tried.
pub proof fn lemma_none_of(offset: int, category: Category, options: Seq<Expected>)
    requires
        options.len() > 0,
    ensures
        none_of(offset, category, options) == failure(offset, category, union(Seq::empty(), options)),
        distinct(options) ==> none_of(offset, category, options) == failure(offset, category, options),
    decreases options.len(),
{
    let cs = candidates(offset, category, options);
    let none = Seq::<Expected>::empty();
    if options.len() == 1 {
        assert(options.drop_first() =~= Seq::<Expected>::empty());
        assert(!none.contains(options[0]));
        assert(none.push(options[0]) =~= seq![options[0]]);
        assert(union(add_unique(none, options[0]), options.drop_first()) == seq![options[0]]);
    } else {
        let init = options.drop_last();
        let x = options.last();
        lemma_none_of(offset, category, init);
        assert(cs.drop_last() =~= candidates(offset, category, init));
        let u = union(none, init);
        lemma_union(none, init);
        assert(none + u =~= u);
        lemma_union_distinct(none, u);
        assert(Seq::<Expected>::empty().push(x) =~= seq![x]);
        lemma_union_push(u, Seq::empty(), x);
        assert(union(u, seq![x]) == add_unique(u, x));
        assert(init.push(x) =~= options);
        lemma_union_push(none, init, x);
    }
    if distinct(options) {
        assert(none + options =~= options);
        lemma_union_distinct(none, options);
    }
}

/// Reports that none of the alternatives `options` accepts the input at
/// `offset`.
pub fn report_none_of(offset: usize, category: Category, options: Vec<Expected>) -> (f: Failure)
    requires
        options.len() > 0,
    ensures
        f@ == none_of(offset as int, category, options@),
        f.offset == offset,
{
    let mut all: Vec<Failure> = Vec::new();
    let mut k: usize = 0;
    while k < options.len()
        invariant
            k <= options.len(),
            all.len() == k,
            forall|n: int| 0 <= n < k ==> (#[trigger] all@[n])@ == candidates(offset as int, category, options@)[n],
        decreases options.len() - k,
    {
        let mut one: Vec<Expected> = Vec::new();
        one.push(options[k]);
        assert(one@ =~= seq![options@[k as int]]);
        all.push(Failure { offset, category, expected: one });
        k += 1;
    }
    assert(views(all@) =~= candidates(offset as int, category, options@));
    proof {
        lemma_furthest_progress(candidates(offset as int, category, options@));
    }
    let f = report_furthest(all);
    assert(all@[0].offset == offset);
    f
}

/// A candidate for input that nests too deeply.
pub fn report_too_deep(offset: usize) -> (f: Failure)
    ensures
        f@ == too_deep(offset as int),
{
    Failure { offset, category: Category::Nesting, expected: Vec::new() }
}

/// The views of a sequence of candidates.
pub open spec fn views(cs: Seq<Failure>) -> Seq<FailureView> {
    Seq::new(cs.len(), |i: int| cs[i]@)
}

} // verus!
