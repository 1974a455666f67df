//! Identifiers: strings that are known to be written as the grammar writes
//! an identifier.

use crate::model::is_ident;
use crate::text::{chars_of, ident_start, string_of, CharClass};
use vstd::prelude::*;

verus! {

/// A string that starts with a letter or an underscore and goes on with
/// letters, digits, underscores and hyphens.
#[derive(Debug, PartialEq, Eq, Hash)]
pub struct Identifier {
    name: String,
}

/// Why a string is no identifier: the index of the first character that the
/// grammar does not accept there, which is 0 for the empty string.
#[derive(Debug, Clone, Copy, PartialEq, Eq, Structural)]
pub struct InvalidIdentifier {
    pub position: usize,
}

impl View for Identifier {
    type V = Seq<char>;

    closed spec fn view(&self) -> Seq<char> {
        self.name@
    }
}

impl Clone for Identifier {
    fn clone(&self) -> (r: Self)
        ensures
            r@ == self@,
    {
        proof {
            use_type_invariant(self);
        }
        Identifier { name: self.name.clone() }
    }
}

/// The index of the first character of `n` that keeps it from being an
/// identifier, if there is one.
pub open spec fn first_offence(n: Seq<char>) -> Option<int> {
    if n.len() == 0 || !crate::text::is_ident_start(n[0]) {
        Some(0)
    } else {
        let end = crate::text::run_end(n, 1, CharClass::Ident);
        if end < n.len() {
            Some(end)
        } else {
            None
        }
    }
}

/// A string is an identifier exactly if no character keeps it from being one.
pub proof fn lemma_first_offence(n: Seq<char>)
    ensures
        is_ident(n) <==> first_offence(n) is None,
{
    if n.len() > 0 && crate::text::is_ident_start(n[0]) {
        crate::text::lemma_run_end(n, 1, CharClass::Ident);
        let end = crate::text::run_end(n, 1, CharClass::Ident);
        if is_ident(n) {
            if end < n.len() {
                assert(crate::text::is_ident_char(n[end]));
            }
        }
    }
}

impl Identifier {
    #[verifier::type_invariant]
    spec fn well_formed(self) -> bool {
        is_ident(self.name@)
    }

    /// Makes an identifier of `name`, or says which character stands in the
    /// way.
    pub fn new(name: &str) -> (r: Result<Identifier, InvalidIdentifier>)
        ensures
            match r {
                Ok(id) => is_ident(name@) && id@ == name@,
                Err(e) => !is_ident(name@) && first_offence(name@) == Some(e.position as int),
            },
    {
        let chars = chars_of(name);
        proof {
            lemma_first_offence(name@);
        }
        if chars.len() == 0 || !ident_start(chars[0]) {
            return Err(InvalidIdentifier { position: 0 });
        }
        let end = crate::text::scan(&chars, 1, CharClass::Ident);
        if end < chars.len() {
            return Err(InvalidIdentifier { position: end });
        }
        let owned = string_of(&chars, 0, end);
        assert(chars@.subrange(0, end as int) =~= chars@);
        Ok(Identifier { name: owned })
    }

    /// Makes an identifier of the characters `chars[from..to]`.
    pub fn from_chars(chars: &Vec<char>, from: usize, to: usize) -> (id: Identifier)
        requires
            from <= to <= chars.len(),
            is_ident(chars@.subrange(from as int, to as int)),
        ensures
            id@ == chars@.subrange(from as int, to as int),
    {
        Identifier { name: string_of(chars, from, to) }
    }

    /// The identifier as a string slice.
    pub fn as_str(&self) -> (s: &str)
        ensures
            s@ == self@,
            is_ident(s@),
    {
        proof {
            use_type_invariant(self);
        }
        self.name.as_str()
    }

    /// The identifier as an owned string.
    pub fn into_inner(self) -> (s: String)
        ensures
            s@ == self@,
            is_ident(s@),
    {
        proof {
            use_type_invariant(&self);
        }
        self.name
    }
}

} // verus!
