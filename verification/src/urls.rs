//! URL builders offered to templates.

use vstd::prelude::*;
use vstd::string::*;

use crate::slugs::{slug_of, slugify};
use crate::text::{trim_end_slashes, trim_leading_matching, trim_start_matching, trim_trailing_slashes};

verus! {

/// `base/path`: the base loses its trailing slashes, the path its leading
/// ones.
pub open spec fn spec_make_url(base: Seq<char>, path: Seq<char>) -> Seq<char> {
    trim_end_slashes(base) + "/"@ + trim_start_matching(path, '/')
}

/// Absolute URL of a site-relative path.
pub fn make_url(base_url: &str, path: &str) -> (r: String)
    ensures
        r@ == spec_make_url(base_url@, path@),
{
    let mut out = trim_trailing_slashes(base_url);
    out.append("/");
    let tail = trim_leading_matching(path, '/');
    out.append(tail.as_str());
    out
}

/// URL of a taxonomy listing, or of one term's page under it.
pub open spec fn spec_taxonomy_url(
    base: Seq<char>,
    taxonomy: Seq<char>,
    term: Option<Seq<char>>,
) -> Seq<char> {
    let listing = trim_end_slashes(base) + "/"@ + slug_of(taxonomy) + "/"@;
    match term {
        None => listing,
        Some(t) => listing + slug_of(t) + "/"@,
    }
}

/// Absolute URL of a taxonomy listing or term page, both parts slugified.
pub fn taxonomy_url(base_url: &str, taxonomy: &str, term: Option<&str>) -> (r: String)
    ensures
        term matches Some(t) ==> r@ == spec_taxonomy_url(base_url@, taxonomy@, Some(t@)),
        term is None ==> r@ == spec_taxonomy_url(base_url@, taxonomy@, None),
{
    let mut out = trim_trailing_slashes(base_url);
    out.append("/");
    let tslug = slugify(taxonomy);
    out.append(tslug.as_str());
    out.append("/");
    match term {
        None => out,
        Some(t) => {
            let islug = slugify(t);
            out.append(islug.as_str());
            out.append("/");
            out
        },
    }
}

} // verus!
