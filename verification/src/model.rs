//! Core content-model types: post and page records, the lightweight post
//! projection used for navigation, and the persisted build manifest.

use vstd::prelude::*;
use vstd::string::*;

verus! {

/// Minimal projection of a post (title, slug, permalink) used for prev/next
/// navigation and pagination, so that posts never own each other.
#[derive(Debug, Clone)]
pub struct PostRef {
    pub title: String,
    pub slug: String,
    pub permalink: String,
}

impl PostRef {
    /// Field-by-field copy whose equality with the source is known to the
    /// verifier (a derived `Clone` promises nothing).
    pub fn duplicate(&self) -> (r: PostRef)
        ensures
            r == *self,
    {
        PostRef {
            title: self.title.clone(),
            slug: self.slug.clone(),
            permalink: self.permalink.clone(),
        }
    }
}

/// One table-of-contents entry extracted from a rendered document.
#[derive(Debug, Clone)]
pub struct TocEntry {
    pub level: u32,
    pub id: String,
    pub title: String,
}

} // verus!
