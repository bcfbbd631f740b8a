//! URL slugs for titles, taxonomy names and taxonomy values.

use vstd::prelude::*;

verus! {

/// The slug that `slug::slugify` assigns to a string.
pub uninterp spec fn slug_of(s: Seq<char>) -> Seq<char>;

/// Relies on `slug::slugify`: the slug is a pure function of the input
/// string, made of `a-z`, `0-9` and `-`, and never starts or ends with a
/// dash.
#[verifier::external_body]
pub(crate) fn slugify(s: &str) -> (r: String)
    ensures
        r@ == slug_of(s@),
        (forall|i: int|
            0 <= i < r@.len() ==> ('a' <= #[trigger] r@[i] <= 'z' || '0' <= r@[i] <= '9'
                || r@[i] == '-')),
        r@.len() > 0 ==> r@.first() != '-' && r@.last() != '-',
{
    slug::slugify(s)
}

} // verus!
