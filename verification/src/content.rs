//! Posts and pages: construction from front matter, date ordering, and the
//! prev/next cross-referencing pass.

use vstd::prelude::*;
use vstd::string::*;
use vstd::multiset::Multiset;

use crate::frontmatter::FrontMatter;
use crate::model::{PostRef, TocEntry};
use crate::slugs::{slug_of, slugify};
use crate::clock::now_timestamp;
use crate::digest::{blake3_hex_of, content_hash_hex};
use crate::text::{split_words, trim_end_slashes, trim_trailing_slashes, words_of};

verus! {

/// One blog post, fully loaded and rendered. The date is a Unix timestamp
/// in seconds.
#[derive(Debug, Clone)]
pub struct Post {
    pub title: String,
    pub slug: String,
    pub date: i64,
    pub draft: bool,
    pub description: String,
    pub summary: String,
    pub content_raw: String,
    pub content_html: String,
    pub toc: Vec<TocEntry>,
    pub word_count: usize,
    pub reading_time: usize,
    pub categories: Vec<String>,
    pub tags: Vec<String>,
    pub permalink: String,
    pub template: Option<String>,
    pub earlier: Option<PostRef>,
    pub later: Option<PostRef>,
    pub content_hash: String,
    pub source_path: String,
    pub extra: Vec<(String, String)>,
}

/// One standalone page. Pages carry no ordering relation to each other.
#[derive(Debug, Clone)]
pub struct Page {
    pub title: String,
    pub slug: String,
    pub content_html: String,
    pub toc: Vec<TocEntry>,
    pub permalink: String,
    pub template: Option<String>,
    pub word_count: usize,
    pub reading_time: usize,
    pub source_path: String,
    pub content_hash: String,
    pub extra: Vec<(String, String)>,
}

/// The projection of a post that navigation links carry.
pub open spec fn ref_of(p: Post) -> PostRef {
    PostRef { title: p.title, slug: p.slug, permalink: p.permalink }
}

/// Minutes of reading time for a word count: one minute per 200 words,
/// rounded up, and never less than one minute.
pub open spec fn spec_reading_time(words: int) -> int {
    if words == 0 {
        1
    } else {
        (words - 1) / 200 + 1
    }
}

/// The slug a front-matter block assigns: explicit, or derived from the
/// title.
pub open spec fn spec_entry_slug(fm: FrontMatter) -> Seq<char> {
    match fm.slug {
        Some(s) => s@,
        None => slug_of(fm.title@),
    }
}

/// Permalink of a post: `base/posts/slug/`.
pub open spec fn spec_post_permalink(base: Seq<char>, slug: Seq<char>) -> Seq<char> {
    trim_end_slashes(base) + "/posts/"@ + slug + "/"@
}

/// Permalink of a page: `base/slug/`.
pub open spec fn spec_page_permalink(base: Seq<char>, slug: Seq<char>) -> Seq<char> {
    trim_end_slashes(base) + "/"@ + slug + "/"@
}

impl Post {
    /// The lightweight reference other posts carry to this one.
    pub fn to_ref(&self) -> (r: PostRef)
        ensures
            r == ref_of(*self),
    {
        PostRef {
            title: self.title.clone(),
            slug: self.slug.clone(),
            permalink: self.permalink.clone(),
        }
    }

    /// Assemble a post from its parsed front matter and rendered body.
    ///
    /// A missing date falls back to the moment of the call; the content hash
    /// starts empty and is assigned when the source bytes are hashed.
    pub fn from_frontmatter(
        fm: FrontMatter,
        content_html: String,
        content_raw: String,
        toc: Vec<TocEntry>,
        source_path: String,
        base_url: &str,
    ) -> (r: Post)
        ensures
            r.title == fm.title,
            r.slug@ == spec_entry_slug(fm),
            fm.date matches Some(d) ==> r.date == d,
            r.draft == fm.draft,
            r.description@ == (match fm.description {
                Some(d) => d@,
                None => Seq::<char>::empty(),
            }),
            r.summary@ == (match fm.summary {
                Some(s) => s@,
                None => match fm.description {
                    Some(d) => d@,
                    None => Seq::<char>::empty(),
                },
            }),
            r.content_raw == content_raw,
            r.content_html == content_html,
            r.toc == toc,
            r.word_count == words_of(content_raw@).len(),
            r.reading_time as int == spec_reading_time(r.word_count as int),
            r.categories == fm.categories,
            r.tags == fm.tags,
            r.permalink@ == spec_post_permalink(base_url@, spec_entry_slug(fm)),
            r.template == fm.template,
            r.earlier is None,
            r.later is None,
            r.content_hash@ == Seq::<char>::empty(),
            r.source_path == source_path,
            r.extra == fm.extra,
    {
        let slug = match fm.slug {
            Some(s) => s,
            None => slugify(fm.title.as_str()),
        };
        let words = split_words(content_raw.as_str());
        let word_count = words.len();
        let reading_time = if word_count == 0 {
            1
        } else {
            (word_count - 1) / 200 + 1
        };
        let mut permalink = trim_trailing_slashes(base_url);
        permalink.append("/posts/");
        permalink.append(slug.as_str());
        permalink.append("/");

        let date = match fm.date {
            Some(d) => d,
            None => now_timestamp(),
        };
        let description = match fm.description {
            Some(d) => d,
            None => String::new(),
        };
        let summary = match fm.summary {
            Some(s) => s,
            None => description.clone(),
        };

        Post {
            title: fm.title,
            slug,
            date,
            draft: fm.draft,
            description,
            summary,
            content_raw,
            content_html,
            toc,
            word_count,
            reading_time,
            categories: fm.categories,
            tags: fm.tags,
            permalink,
            template: fm.template,
            earlier: None,
            later: None,
            content_hash: String::new(),
            source_path,
            extra: fm.extra,
        }
    }
}

impl Page {
    /// Assemble a page from its parsed front matter and rendered body.
    pub fn from_frontmatter(
        fm: FrontMatter,
        content_html: String,
        content_raw: &str,
        toc: Vec<TocEntry>,
        source_path: String,
        base_url: &str,
    ) -> (r: Page)
        ensures
            r.title == fm.title,
            r.slug@ == spec_entry_slug(fm),
            r.content_html == content_html,
            r.toc == toc,
            r.permalink@ == spec_page_permalink(base_url@, spec_entry_slug(fm)),
            r.template == fm.template,
            r.word_count == words_of(content_raw@).len(),
            r.reading_time as int == spec_reading_time(r.word_count as int),
            r.source_path == source_path,
            r.content_hash@ == Seq::<char>::empty(),
            r.extra == fm.extra,
    {
        let slug = match fm.slug {
            Some(s) => s,
            None => slugify(fm.title.as_str()),
        };
        let words = split_words(content_raw);
        let word_count = words.len();
        let reading_time = if word_count == 0 {
            1
        } else {
            (word_count - 1) / 200 + 1
        };
        let mut permalink = trim_trailing_slashes(base_url);
        permalink.append("/");
        permalink.append(slug.as_str());
        permalink.append("/");

        Page {
            title: fm.title,
            slug,
            content_html,
            toc,
            permalink,
            template: fm.template,
            word_count,
            reading_time,
            source_path,
            content_hash: String::new(),
            extra: fm.extra,
        }
    }
}



/// The draft rule: an entry enters the build unless it is a draft and
/// drafts were not requested.
pub fn include_in_build(fm: &FrontMatter, include_drafts: bool) -> (r: bool)
    ensures
        r == (!fm.draft || include_drafts),
{
    !fm.draft || include_drafts
}

/// The data model's invariant: no two posts share a slug, so no two posts
/// project to the same reference.
pub open spec fn slugs_unique(posts: Seq<Post>) -> bool {
    forall|a: int, b: int|
        0 <= a < b < posts.len() ==> (#[trigger] posts[a]).slug@ != (#[trigger] posts[b]).slug@
}

/// Newest first: the dates never increase along the sequence.
pub open spec fn sorted_by_date_desc(posts: Seq<Post>) -> bool {
    forall|i: int, j: int| 0 <= i < j < posts.len() ==> posts[i].date >= posts[j].date
}

/// Sort posts newest-first. The result holds exactly the same posts.
pub fn sort_posts_newest_first(posts: &mut Vec<Post>)
    ensures
        sorted_by_date_desc(final(posts)@),
        final(posts)@.to_multiset() == old(posts)@.to_multiset(),
        final(posts)@.len() == old(posts)@.len(),
{
    broadcast use vstd::seq_lib::group_to_multiset_ensures;
    broadcast use vstd::multiset::group_multiset_axioms;

    let ghost everything = posts@.to_multiset();
    let mut out: Vec<Post> = Vec::new();
    proof {
        assert(out@.to_multiset() =~= Multiset::<Post>::empty());
        assert(out@.to_multiset().add(posts@.to_multiset()) =~= everything);
    }
    while posts.len() > 0
        invariant
            out@.to_multiset().add(posts@.to_multiset()) == everything,
            sorted_by_date_desc(out@),
            forall|i: int, j: int|
                0 <= i < out@.len() && 0 <= j < posts@.len() ==> out@[i].date >= posts@[j].date,
        decreases posts@.len(),
    {
        let mut best: usize = 0;
        let mut k: usize = 1;
        while k < posts.len()
            invariant
                posts@.len() > 0,
                best < posts@.len(),
                k <= posts@.len(),
                forall|j: int| 0 <= j < k ==> posts@[best as int].date >= posts@[j].date,
            decreases posts@.len() - k,
        {
            if posts[k].date > posts[best].date {
                best = k;
            }
            k = k + 1;
        }
        let ghost before = posts@;
        let p = posts.remove(best);
        let ghost out_before = out@;
        out.push(p);
        proof {
            broadcast use vstd::multiset::group_multiset_axioms;

            assert(before[best as int] == p);
            assert(before.contains(p));
            vstd::seq_lib::to_multiset_remove(before, best as int);
            vstd::seq_lib::to_multiset_contains(before, p);
            vstd::seq_lib::to_multiset_build(out_before, p);
            assert(posts@ == before.remove(best as int));
            assert(before.to_multiset().count(p) > 0);
            assert(out@ == out_before.push(p));
            assert(out@.to_multiset().add(posts@.to_multiset()) =~= everything);
            assert forall|i: int, j: int|
                0 <= i < out@.len() && 0 <= j < posts@.len() implies out@[i].date
                >= posts@[j].date by {
                assert(posts@[j] == if j < best { before[j] } else { before[j + 1] });
            }
        }
    }
    proof {
        broadcast use vstd::multiset::group_multiset_axioms;

        assert forall|x: Post| #[trigger] posts@.to_multiset().count(x) == 0 by {
            vstd::seq_lib::to_multiset_contains(posts@, x);
        }
        assert(out@.to_multiset() =~= everything);
        vstd::seq_lib::to_multiset_len(out@);
        vstd::seq_lib::to_multiset_len(old(posts)@);
    }
    *posts = out;
}

/// `p` with its two navigation references replaced and every other field
/// kept.
pub open spec fn with_links(p: Post, earlier: Option<PostRef>, later: Option<PostRef>) -> Post {
    Post {
        title: p.title,
        slug: p.slug,
        date: p.date,
        draft: p.draft,
        description: p.description,
        summary: p.summary,
        content_raw: p.content_raw,
        content_html: p.content_html,
        toc: p.toc,
        word_count: p.word_count,
        reading_time: p.reading_time,
        categories: p.categories,
        tags: p.tags,
        permalink: p.permalink,
        template: p.template,
        earlier: earlier,
        later: later,
        content_hash: p.content_hash,
        source_path: p.source_path,
        extra: p.extra,
    }
}

/// Element `i` after the linking pass: `earlier` points at the next-older
/// neighbour, `later` at the next-newer one, absent at the boundaries.
pub open spec fn linked_post(posts: Seq<Post>, i: int) -> Post {
    with_links(
        posts[i],
        if i + 1 < posts.len() {
            Some(ref_of(posts[i + 1]))
        } else {
            None
        },
        if i > 0 {
            Some(ref_of(posts[i - 1]))
        } else {
            None
        },
    )
}

/// Every post's `earlier` and `later` point at its sequence neighbours,
/// with the missing side absent at the boundaries.
pub open spec fn adjacency_linked(posts: Seq<Post>) -> bool {
    forall|i: int|
        0 <= i < posts.len() ==> (#[trigger] posts[i]).earlier == (if i + 1 < posts.len() {
            Some(ref_of(posts[i + 1]))
        } else {
            None
        }) && posts[i].later == (if i > 0 {
            Some(ref_of(posts[i - 1]))
        } else {
            None
        })
}

/// One linear pass assigning every post its `earlier` and `later`
/// references; all other fields stay untouched.
pub fn link_adjacent(posts: &mut Vec<Post>)
    ensures
        final(posts)@.len() == old(posts)@.len(),
        forall|i: int|
            0 <= i < final(posts)@.len() ==> final(posts)@[i] == linked_post(old(posts)@, i),
        adjacency_linked(final(posts)@),
{
    let ghost orig = posts@;
    let n = posts.len();
    let mut i: usize = 0;
    while i < n
        invariant
            i <= n,
            n == posts@.len(),
            n == orig.len(),
            forall|j: int| 0 <= j < i ==> posts@[j] == linked_post(orig, j),
            forall|j: int| i <= j < n ==> posts@[j] == orig[j],
        decreases n - i,
    {
        let later = if i > 0 {
            Some(posts[i - 1].to_ref())
        } else {
            None
        };
        let earlier = if i + 1 < n {
            Some(posts[i + 1].to_ref())
        } else {
            None
        };
        let ghost before = posts@;
        let mut p = posts.remove(i);
        p.later = later;
        p.earlier = earlier;
        posts.insert(i, p);
        proof {
            assert(posts@ =~= before.update(i as int, p));
            if i > 0 {
                assert(before[i as int - 1] == linked_post(orig, i as int - 1));
                assert(ref_of(before[i as int - 1]) == ref_of(orig[i as int - 1]));
            }
        }
        i = i + 1;
    }
    proof {
        assert forall|i: int| 0 <= i < posts@.len() implies (#[trigger] posts@[i]).earlier == (
        if i + 1 < posts@.len() {
            Some(ref_of(posts@[i + 1]))
        } else {
            None
        }) && posts@[i].later == (if i > 0 {
            Some(ref_of(posts@[i - 1]))
        } else {
            None
        }) by {
            assert(posts@[i] == linked_post(orig, i));
            if i + 1 < posts@.len() {
                assert(posts@[i + 1] == linked_post(orig, i + 1));
                assert(ref_of(posts@[i + 1]) == ref_of(orig[i + 1]));
            }
            if i > 0 {
                assert(posts@[i - 1] == linked_post(orig, i - 1));
                assert(ref_of(posts@[i - 1]) == ref_of(orig[i - 1]));
            }
        }
    }
}


/// Compute and store the content hash of a post's source bytes; every
/// other field stays untouched.
pub fn assign_content_hash(post: &mut Post, source_bytes: &[u8])
    ensures
        final(post).content_hash@ == blake3_hex_of(source_bytes@),
        *final(post) == with_content_hash(*old(post), final(post).content_hash),
{
    post.content_hash = content_hash_hex(source_bytes);
}

/// Compute and store the content hash of a page's source bytes; every
/// other field stays untouched.
pub fn assign_page_content_hash(page: &mut Page, source_bytes: &[u8])
    ensures
        final(page).content_hash@ == blake3_hex_of(source_bytes@),
        final(page).title == old(page).title,
        final(page).slug == old(page).slug,
        final(page).content_html == old(page).content_html,
        final(page).toc == old(page).toc,
        final(page).permalink == old(page).permalink,
        final(page).template == old(page).template,
        final(page).word_count == old(page).word_count,
        final(page).reading_time == old(page).reading_time,
        final(page).source_path == old(page).source_path,
{
    page.content_hash = content_hash_hex(source_bytes);
}

/// `p` with only its content hash replaced.
pub open spec fn with_content_hash(p: Post, hash: String) -> Post {
    Post {
        title: p.title,
        slug: p.slug,
        date: p.date,
        draft: p.draft,
        description: p.description,
        summary: p.summary,
        content_raw: p.content_raw,
        content_html: p.content_html,
        toc: p.toc,
        word_count: p.word_count,
        reading_time: p.reading_time,
        categories: p.categories,
        tags: p.tags,
        permalink: p.permalink,
        template: p.template,
        earlier: p.earlier,
        later: p.later,
        content_hash: hash,
        source_path: p.source_path,
        extra: p.extra,
    }
}
} // verus!
