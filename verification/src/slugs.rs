//! Slug generation: a deterministic, idempotent title-to-identifier
//! transform, delegated to the `slug` crate.

use vstd::prelude::*;

verus! {

/// The sequence of characters that `slug::slugify` produces for the given
/// input characters. `slugify` lower-cases, transliterates, collapses runs of
/// non-alphanumeric characters into single dashes and trims dashes at either
/// end; its exact output is a function of the input characters alone, so it is
/// left as a named, otherwise unspecified transform.
pub uninterp spec fn slug_of(title: Seq<char>) -> Seq<char>;

/// Relies on `slug::slugify`: the result depends only on the input characters,
/// and an empty input yields an empty slug.
#[verifier::external_body]
pub(crate) fn slugify(title: &str) -> (r: String)
    ensures
        r@ == slug_of(title@),
        title@.len() == 0 ==> r@.len() == 0,
{
    slug::slugify(title)
}

} // verus!
