//! Preparing the search index: one plain-text entry per post, with the
//! body stripped of tags and capped at five hundred words.

use vstd::prelude::*;
use vstd::string::*;

use crate::clock::{format_ymd, ymd_of};
use crate::content::Post;
use crate::text::{
    clone_strings, join_with_spaces, joined_with_spaces, split_words, strip_html, tags_stripped,
    words_of,
};

verus! {

/// One searchable document.
#[derive(Debug, Clone)]
pub struct SearchEntry {
    pub title: String,
    pub url: String,
    pub body: String,
    pub description: String,
    pub categories: Vec<String>,
    pub tags: Vec<String>,
    pub date: String,
}

/// The search body of a post: its rendered HTML stripped of tags, cut to
/// the first five hundred words, joined by single spaces.
pub open spec fn spec_search_body(html: Seq<char>) -> Seq<char> {
    let ws = words_of(tags_stripped(html, false));
    if ws.len() <= 500 {
        joined_with_spaces(ws)
    } else {
        joined_with_spaces(ws.take(500))
    }
}

/// Everything a post's search entry promises.
pub open spec fn entry_matches(e: SearchEntry, p: Post) -> bool {
    &&& e.title == p.title
    &&& e.url == p.permalink
    &&& e.body@ == spec_search_body(p.content_html@)
    &&& e.description == p.description
    &&& e.categories@.map_values(|c: String| c@) == p.categories@.map_values(|c: String| c@)
    &&& e.tags@.map_values(|t: String| t@) == p.tags@.map_values(|t: String| t@)
    &&& e.date@ == ymd_of(p.date as int)
}

/// Build the search entries for all posts, in order.
pub fn search_entries(posts: &Vec<Post>) -> (r: Vec<SearchEntry>)
    ensures
        r@.len() == posts@.len(),
        forall|i: int| 0 <= i < r@.len() ==> entry_matches(#[trigger] r@[i], posts@[i]),
{
    let mut entries: Vec<SearchEntry> = Vec::new();
    let mut i: usize = 0;
    while i < posts.len()
        invariant
            i <= posts@.len(),
            entries@.len() == i,
            forall|j: int| 0 <= j < i ==> entry_matches(#[trigger] entries@[j], posts@[j]),
        decreases posts@.len() - i,
    {
        let post = &posts[i];
        let text = strip_html(post.content_html.as_str());
        let mut words = split_words(text.as_str());
        let ghost before = words@;
        words.truncate(500);
        proof {
            let ws = words_of(tags_stripped(post.content_html@, false));
            assert(before.map_values(|w: String| w@) == ws);
            if ws.len() <= 500 {
                assert forall|k: int| 0 <= k < words@.len() implies #[trigger] words@[k]@
                    == ws[k] by {
                    assert(before.map_values(|w: String| w@)[k] == before[k]@);
                }
                assert(words@.map_values(|w: String| w@) =~= ws);
            } else {
                assert(words@ == before.subrange(0, 500));
                assert forall|k: int| 0 <= k < words@.len() implies #[trigger] words@[k]@
                    == ws[k] by {
                    assert(before.map_values(|w: String| w@)[k] == before[k]@);
                }
                assert(words@.map_values(|w: String| w@) =~= ws.take(500));
            }
        }
        let body = join_with_spaces(&words);
        entries.push(
            SearchEntry {
                title: post.title.clone(),
                url: post.permalink.clone(),
                body,
                description: post.description.clone(),
                categories: clone_strings(&post.categories),
                tags: clone_strings(&post.tags),
                date: format_ymd(post.date),
            },
        );
        i = i + 1;
    }
    entries
}

} // verus!
