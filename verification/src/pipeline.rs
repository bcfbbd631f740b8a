//! The build pipeline's verified core: the analysis phase that links,
//! groups and paginates the loaded content, the output-location rules, and
//! the cache bookkeeping of a finished build.
//!
//! The five phases run in order — Load, Parse, Analyze, Render, Write —
//! and the cache is only brought up to date after rendering.

use vstd::prelude::*;
use vstd::string::*;

use crate::cache::{
    apply_updates, entries_model, IncrementalCache, RecordModel,
};
use crate::config::SiteConfig;
use crate::content::{
    adjacency_linked, link_adjacent, linked_post, ref_of, Page, Post,
};
use crate::model::PostRef;
use crate::pagination::{paginator_matches, Paginator};
use crate::taxonomy::{build_taxonomies, collection_matches, TaxonomyCollection};
use crate::text::{decimal, usize_to_string};

verus! {

/// The fully assembled in-memory site for one build: nothing here outlives
/// the build cycle.
#[derive(Debug)]
pub struct Site {
    pub posts: Vec<Post>,
    pub pages: Vec<Page>,
    pub taxonomies: Vec<(String, TaxonomyCollection)>,
    pub index_paginator: Paginator,
}

/// One build run: where the site lives, the configuration it runs under,
/// and whether the cache is bypassed.
pub struct PipelineOrchestrator {
    pub site_dir: String,
    pub config: SiteConfig,
    pub force: bool,
}

impl PipelineOrchestrator {
    pub fn new(site_dir: String, config: SiteConfig, force: bool) -> (r: PipelineOrchestrator)
        ensures
            r.site_dir == site_dir,
            r.config == config,
            r.force == force,
    {
        PipelineOrchestrator { site_dir, config, force }
    }
}

/// The Analyze phase: give every post its neighbour references, group the
/// posts into the configured taxonomies, and paginate the index. Runs only
/// after all posts are loaded and sorted, before any rendering.
pub fn analyze(posts: Vec<Post>, pages: Vec<Page>, config: &SiteConfig) -> (s: Site)
    requires
        config.build.posts_per_page >= 1,
        posts@.len() + config.build.posts_per_page <= usize::MAX,
    ensures
        s.posts@.len() == posts@.len(),
        forall|i: int| 0 <= i < s.posts@.len() ==> s.posts@[i] == linked_post(posts@, i),
        adjacency_linked(s.posts@),
        s.pages == pages,
        s.taxonomies@.len() == config.taxonomies@.len(),
        forall|i: int|
            0 <= i < s.taxonomies@.len() ==> (#[trigger] s.taxonomies@[i]).0
                == config.taxonomies@[i].name && collection_matches(
                s.taxonomies@[i].1,
                s.posts@,
                config.taxonomies@[i],
                config.base_url@,
            ),
        paginator_matches(
            s.index_paginator,
            s.posts@.map_values(|p: Post| ref_of(p)),
            config.build.posts_per_page as int,
            1,
            ""@,
        ),
{
    let mut posts = posts;
    link_adjacent(&mut posts);
    let taxonomies = build_taxonomies(&posts, &config.taxonomies, &config.base_url);

    let mut refs: Vec<PostRef> = Vec::new();
    let mut i: usize = 0;
    while i < posts.len()
        invariant
            i <= posts@.len(),
            refs@.len() == i,
            forall|j: int| 0 <= j < i ==> refs@[j] == ref_of(#[trigger] posts@[j]),
        decreases posts@.len() - i,
    {
        refs.push(posts[i].to_ref());
        i = i + 1;
    }
    proof {
        assert(refs@ =~= posts@.map_values(|p: Post| ref_of(p)));
    }
    let index_paginator = Paginator::new(&refs, config.build.posts_per_page, 1, "");

    Site { posts, pages, taxonomies, index_paginator }
}

/// Output path of one index page: the site root for page 1, `page/N`
/// otherwise. The writer puts `index.html` inside it.
pub fn index_page_output_path(current_page: usize) -> (r: String)
    ensures
        current_page == 1 ==> r@ == Seq::<char>::empty(),
        current_page != 1 ==> r@ == "page/"@ + decimal(current_page as int),
{
    if current_page == 1 {
        String::new()
    } else {
        let mut s = "page/".to_owned();
        let num = usize_to_string(current_page);
        s.append(num.as_str());
        s
    }
}

/// Output path of one post: `posts/slug`.
pub fn post_output_path(slug: &str) -> (r: String)
    ensures
        r@ == "posts/"@ + slug@,
{
    let mut s = "posts/".to_owned();
    s.append(slug);
    s
}

/// The template a post renders with: its override, or `post.html`.
pub fn template_for_post(post: &Post) -> (r: String)
    ensures
        post.template matches Some(t) ==> r == t,
        post.template is None ==> r@ == "post.html"@,
{
    match &post.template {
        Some(t) => t.clone(),
        None => "post.html".to_owned(),
    }
}

/// The template a page renders with: its override, or `page.html`.
pub fn template_for_page(page: &Page) -> (r: String)
    ensures
        page.template matches Some(t) ==> r == t,
        page.template is None ==> r@ == "page.html"@,
{
    match &page.template {
        Some(t) => t.clone(),
        None => "page.html".to_owned(),
    }
}

/// Where a post's rendered file lands under the output directory.
pub open spec fn spec_post_output_file(outdir: Seq<char>, slug: Seq<char>) -> Seq<char> {
    outdir + "/posts/"@ + slug + "/index.html"@
}

/// The cache records one build writes: one per post, in post order.
pub open spec fn post_records(posts: Seq<Post>, outdir: Seq<char>) -> Seq<(Seq<char>, RecordModel)> {
    posts.map_values(
        |p: Post|
            (
                p.source_path@,
                RecordModel {
                    content_hash: p.content_hash@,
                    output_path: spec_post_output_file(outdir, p.slug@),
                    template_deps: Seq::empty(),
                },
            ),
    )
}

/// Appending one more update to a batch applies it last.
proof fn lemma_apply_updates_push(
    m: Seq<(Seq<char>, RecordModel)>,
    us: Seq<(Seq<char>, RecordModel)>,
    u: (Seq<char>, RecordModel),
)
    ensures
        apply_updates(m, us.push(u)) == crate::cache::update_model(apply_updates(m, us), u.0, u.1),
    decreases us.len(),
{
    if us.len() == 0 {
        let m1 = crate::cache::update_model(m, u.0, u.1);
        assert(us.push(u).first() == u);
        assert(us.push(u).drop_first() =~= Seq::<(Seq<char>, RecordModel)>::empty());
        assert(apply_updates(m, us.push(u)) == apply_updates(m1, us.push(u).drop_first()));
        assert(apply_updates(m1, us.push(u).drop_first()) == m1);
        assert(apply_updates(m, us) == m);
    } else {
        let m1 = crate::cache::update_model(m, us.first().0, us.first().1);
        assert(us.push(u).first() == us.first());
        assert(us.push(u).drop_first() =~= us.drop_first().push(u));
        assert(apply_updates(m, us.push(u)) == apply_updates(m1, us.drop_first().push(u)));
        lemma_apply_updates_push(m1, us.drop_first(), u);
        assert(apply_updates(m, us) == apply_updates(m1, us.drop_first()));
    }
}


/// Law (idempotent rebuild, at the pipeline level): when no source changed
/// between two builds — same posts, same hashes, each from its own source
/// file — the second build's recording pass leaves the file table exactly
/// as the first build wrote it.
pub proof fn lemma_record_outputs_idempotent(
    m: Seq<(Seq<char>, RecordModel)>,
    posts: Seq<Post>,
    outdir: Seq<char>,
)
    requires
        forall|i: int, j: int|
            0 <= i < j < posts.len() ==> (#[trigger] posts[i]).source_path@ != (
            #[trigger] posts[j]).source_path@,
    ensures
        apply_updates(apply_updates(m, post_records(posts, outdir)), post_records(posts, outdir))
            == apply_updates(m, post_records(posts, outdir)),
{
    let records = post_records(posts, outdir);
    assert forall|i: int, j: int|
        0 <= i < j < records.len() implies (#[trigger] records[i]).0 != (
    #[trigger] records[j]).0 by {
        assert(records[i].0 == posts[i].source_path@);
        assert(records[j].0 == posts[j].source_path@);
    }
    crate::cache::lemma_rebuild_idempotent(m, records);
}

/// After rendering, record every post's hash and output location in the
/// cache — only confirmed-written entities are recorded, and only then is
/// the manifest persisted.
pub fn record_outputs(cache: &mut IncrementalCache, posts: &Vec<Post>, output_dir: &str)
    ensures
        entries_model(final(cache).manifest.file_hashes@) == apply_updates(
            entries_model(old(cache).manifest.file_hashes@),
            post_records(posts@, output_dir@),
        ),
        final(cache).manifest.version == old(cache).manifest.version,
        final(cache).manifest.last_build == old(cache).manifest.last_build,
        final(cache).manifest.config_hash == old(cache).manifest.config_hash,
        final(cache).manifest.template_hash == old(cache).manifest.template_hash,
        final(cache).cache_dir == old(cache).cache_dir,
        final(cache).force == old(cache).force,
{
    let ghost records = post_records(posts@, output_dir@);
    let ghost start = entries_model(cache.manifest.file_hashes@);
    let mut i: usize = 0;
    proof {
        assert(records.take(0) =~= Seq::<(Seq<char>, RecordModel)>::empty());
    }
    while i < posts.len()
        invariant
            i <= posts@.len(),
            records == post_records(posts@, output_dir@),
            records.len() == posts@.len(),
            entries_model(cache.manifest.file_hashes@) == apply_updates(
                start,
                records.take(i as int),
            ),
            cache.manifest.version == old(cache).manifest.version,
            cache.manifest.last_build == old(cache).manifest.last_build,
            cache.manifest.config_hash == old(cache).manifest.config_hash,
            cache.manifest.template_hash == old(cache).manifest.template_hash,
            cache.cache_dir == old(cache).cache_dir,
            cache.force == old(cache).force,
            start == entries_model(old(cache).manifest.file_hashes@),
        decreases posts@.len() - i,
    {
        let mut out_path = output_dir.to_owned();
        out_path.append("/posts/");
        out_path.append(posts[i].slug.as_str());
        out_path.append("/index.html");
        proof {
            assert(out_path@ == spec_post_output_file(output_dir@, posts@[i as int].slug@));
            assert(records[i as int] == (
                posts@[i as int].source_path@,
                RecordModel {
                    content_hash: posts@[i as int].content_hash@,
                    output_path: spec_post_output_file(output_dir@, posts@[i as int].slug@),
                    template_deps: Seq::empty(),
                },
            ));
        }
        cache.update_file(posts[i].source_path.clone(), posts[i].content_hash.clone(), out_path);
        proof {
            assert(records.take(i + 1) =~= records.take(i as int).push(records[i as int]));
            lemma_apply_updates_push(start, records.take(i as int), records[i as int]);
        }
        i = i + 1;
    }
    proof {
        assert(records.take(posts@.len() as int) =~= records);
    }
}

} // verus!
