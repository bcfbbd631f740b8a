//! Grouping posts into taxonomy collections: for each configured taxonomy,
//! every value a post carries contributes one reference to that value's
//! item, and the items are sorted by name under a total, locale-independent
//! (codepoint) order.

use vstd::prelude::*;
use vstd::string::*;
use vstd::multiset::Multiset;

use crate::config::TaxonomyConfig;
use crate::content::{ref_of, Post};
use crate::model::PostRef;
use crate::slugs::{slug_of, slugify};
use crate::text::{str_eq, trim_end_slashes, trim_trailing_slashes};

verus! {

/// One named collection of taxonomy items.
#[derive(Debug, Clone)]
pub struct TaxonomyCollection {
    pub name: String,
    pub slug: String,
    pub items: Vec<TaxonomyItem>,
}

/// One value of a taxonomy, with the posts that carry it.
#[derive(Debug, Clone)]
pub struct TaxonomyItem {
    pub name: String,
    pub slug: String,
    pub post_count: usize,
    pub posts: Vec<PostRef>,
    pub permalink: String,
}

/// The values a post carries for a taxonomy: its categories, its tags, or
/// nothing for an unrecognized taxonomy name.
pub open spec fn spec_post_values(p: Post, tax: Seq<char>) -> Seq<Seq<char>> {
    if tax == "categories"@ {
        p.categories@.map_values(|v: String| v@)
    } else if tax == "tags"@ {
        p.tags@.map_values(|v: String| v@)
    } else {
        Seq::empty()
    }
}

/// How often `v` occurs in a value list.
pub open spec fn count_occ(vals: Seq<Seq<char>>, v: Seq<char>) -> nat
    decreases vals.len(),
{
    if vals.len() == 0 {
        0
    } else {
        count_occ(vals.drop_last(), v) + (if vals.last() == v {
            1nat
        } else {
            0nat
        })
    }
}

/// The references collected under value `v`: posts in order, one reference
/// per occurrence of `v` in a post's value list.
pub open spec fn group_refs(posts: Seq<Post>, tax: Seq<char>, v: Seq<char>) -> Seq<PostRef>
    decreases posts.len(),
{
    if posts.len() == 0 {
        Seq::empty()
    } else {
        group_refs(posts.drop_last(), tax, v) + Seq::new(
            count_occ(spec_post_values(posts.last(), tax), v),
            |k: int| ref_of(posts.last()),
        )
    }
}

/// Strict codepoint-lexicographic order on character sequences.
pub open spec fn lex_lt(a: Seq<char>, b: Seq<char>) -> bool
    decreases a.len(),
{
    if b.len() == 0 {
        false
    } else if a.len() == 0 {
        true
    } else if a.first() != b.first() {
        a.first() < b.first()
    } else {
        lex_lt(a.drop_first(), b.drop_first())
    }
}

/// The order is total: two sequences are ordered one way or the other, or
/// they are equal.
pub proof fn lemma_lex_total(a: Seq<char>, b: Seq<char>)
    ensures
        lex_lt(a, b) || lex_lt(b, a) || a == b,
    decreases a.len(),
{
    if b.len() == 0 {
        if a.len() == 0 {
            assert(a =~= b);
        }
    } else if a.len() == 0 {
    } else if a.first() == b.first() {
        lemma_lex_total(a.drop_first(), b.drop_first());
        if !lex_lt(a, b) && !lex_lt(b, a) {
            assert(a.drop_first() == b.drop_first());
            assert(a.len() == b.len());
            assert forall|i: int| 0 <= i < a.len() implies a[i] == b[i] by {
                if i > 0 {
                    assert(a[i] == a.drop_first()[i - 1]);
                    assert(b[i] == b.drop_first()[i - 1]);
                }
            }
            assert(a =~= b);
        }
    }
}

/// The order is irreflexive.
pub proof fn lemma_lex_irrefl(a: Seq<char>)
    ensures
        !lex_lt(a, a),
    decreases a.len(),
{
    if a.len() > 0 {
        lemma_lex_irrefl(a.drop_first());
    }
}

/// The order is transitive.
pub proof fn lemma_lex_trans(a: Seq<char>, b: Seq<char>, c: Seq<char>)
    requires
        lex_lt(a, b),
        lex_lt(b, c),
    ensures
        lex_lt(a, c),
    decreases a.len(),
{
    if a.len() == 0 {
    } else {
        assert(b.len() > 0);
        assert(c.len() > 0);
        if a.first() == b.first() && b.first() == c.first() {
            lemma_lex_trans(a.drop_first(), b.drop_first(), c.drop_first());
        }
    }
}

/// Codepoint-wise comparison of two strings.
pub fn str_lt(a: &str, b: &str) -> (r: bool)
    ensures
        r == lex_lt(a@, b@),
{
    let alen = a.unicode_len();
    let blen = b.unicode_len();
    let mut i: usize = 0;
    proof {
        assert(a@.skip(0) =~= a@);
        assert(b@.skip(0) =~= b@);
    }
    loop
        invariant
            i <= alen,
            i <= blen,
            alen == a@.len(),
            blen == b@.len(),
            lex_lt(a@, b@) == lex_lt(a@.skip(i as int), b@.skip(i as int)),
        decreases alen - i,
    {
        proof {
            if i < alen {
                assert(a@.skip(i as int).first() == a@[i as int]);
                assert(a@.skip(i as int).drop_first() =~= a@.skip(i + 1));
            }
            if i < blen {
                assert(b@.skip(i as int).first() == b@[i as int]);
                assert(b@.skip(i as int).drop_first() =~= b@.skip(i + 1));
            }
        }
        if i >= blen {
            return false;
        }
        if i >= alen {
            return true;
        }
        let ca = a.get_char(i);
        let cb = b.get_char(i);
        if ca != cb {
            return ca < cb;
        }
        i = i + 1;
    }
}

/// Association list from taxonomy value to collected references, as a
/// mathematical sequence of pairs.
pub open spec fn groups_model(gs: Seq<(String, Vec<PostRef>)>) -> Seq<(Seq<char>, Seq<PostRef>)> {
    gs.map_values(|g: (String, Vec<PostRef>)| (g.0@, g.1@))
}

/// First-match lookup among the groups.
pub open spec fn group_lookup(m: Seq<(Seq<char>, Seq<PostRef>)>, v: Seq<char>) -> Option<
    Seq<PostRef>,
>
    decreases m.len(),
{
    if m.len() == 0 {
        None
    } else if m.first().0 == v {
        Some(m.first().1)
    } else {
        group_lookup(m.drop_first(), v)
    }
}

/// The references collected so far under `v`, empty when no group exists.
pub open spec fn group_refs_of(m: Seq<(Seq<char>, Seq<PostRef>)>, v: Seq<char>) -> Seq<PostRef> {
    match group_lookup(m, v) {
        Some(s) => s,
        None => Seq::empty(),
    }
}

/// Append `rf` to the group of `v`, creating the group at the end when `v`
/// is new.
pub open spec fn group_add(
    m: Seq<(Seq<char>, Seq<PostRef>)>,
    v: Seq<char>,
    rf: PostRef,
) -> Seq<(Seq<char>, Seq<PostRef>)>
    decreases m.len(),
{
    if m.len() == 0 {
        seq![(v, seq![rf])]
    } else if m.first().0 == v {
        seq![(m.first().0, m.first().1.push(rf))] + m.drop_first()
    } else {
        seq![m.first()] + group_add(m.drop_first(), v, rf)
    }
}

/// No two groups carry the same value.
pub open spec fn distinct_names(m: Seq<(Seq<char>, Seq<PostRef>)>) -> bool {
    forall|i: int, j: int| 0 <= i < j < m.len() ==> (#[trigger] m[i]).0 != (#[trigger] m[j]).0
}

/// Adding a reference extends exactly the group of its value and leaves
/// every other group unchanged.
proof fn lemma_group_add(m: Seq<(Seq<char>, Seq<PostRef>)>, v: Seq<char>, rf: PostRef, q: Seq<char>)
    ensures
        group_lookup(group_add(m, v, rf), v) == Some(group_refs_of(m, v).push(rf)),
        q != v ==> group_lookup(group_add(m, v, rf), q) == group_lookup(m, q),
    decreases m.len(),
{
    if m.len() == 0 {
        let u = seq![(v, seq![rf])];
        assert(group_add(m, v, rf) == u);
        assert(u.first() == (v, seq![rf]));
        assert(u.drop_first() =~= Seq::<(Seq<char>, Seq<PostRef>)>::empty());
        assert(group_refs_of(m, v).push(rf) =~= seq![rf]);
        if q != v {
            assert(group_lookup(u, q) == group_lookup(u.drop_first(), q));
            assert(group_lookup(u.drop_first(), q) is None);
        }
    } else if m.first().0 == v {
        let u = seq![(m.first().0, m.first().1.push(rf))] + m.drop_first();
        assert(group_add(m, v, rf) == u);
        assert(u.first() == (m.first().0, m.first().1.push(rf)));
        assert(u.drop_first() =~= m.drop_first());
        if q != v {
            assert(group_lookup(u, q) == group_lookup(u.drop_first(), q));
            assert(group_lookup(m, q) == group_lookup(m.drop_first(), q));
        }
    } else {
        lemma_group_add(m.drop_first(), v, rf, q);
        let u = seq![m.first()] + group_add(m.drop_first(), v, rf);
        assert(group_add(m, v, rf) == u);
        assert(u.len() > 0);
        assert(u.first() == m.first());
        assert(u.drop_first() =~= group_add(m.drop_first(), v, rf));
        assert(group_lookup(u, v) == group_lookup(u.drop_first(), v));
        if q != v {
            if m.first().0 == q {
                assert(group_lookup(u, q) == Some(m.first().1));
                assert(group_lookup(m, q) == Some(m.first().1));
            } else {
                assert(group_lookup(u, q) == group_lookup(u.drop_first(), q));
                assert(group_lookup(m, q) == group_lookup(m.drop_first(), q));
            }
        }
    }
}

/// Adding a reference keeps group values pairwise distinct.
proof fn lemma_group_add_distinct(m: Seq<(Seq<char>, Seq<PostRef>)>, v: Seq<char>, rf: PostRef)
    requires
        distinct_names(m),
    ensures
        distinct_names(group_add(m, v, rf)),
        group_add(m, v, rf).len() >= m.len(),
        forall|i: int|
            0 <= i < group_add(m, v, rf).len() ==> (#[trigger] group_add(m, v, rf)[i]).0 == (
            if i < m.len() {
                m[i].0
            } else {
                v
            }),
    decreases m.len(),
{
    if m.len() == 0 {
    } else if m.first().0 == v {
        let u = seq![(m.first().0, m.first().1.push(rf))] + m.drop_first();
        assert forall|i: int| 0 <= i < u.len() implies (#[trigger] u[i]).0 == m[i].0 by {}
    } else {
        assert forall|i: int, j: int|
            0 <= i < j < m.drop_first().len() implies (#[trigger] m.drop_first()[i]).0 != (
        #[trigger] m.drop_first()[j]).0 by {
            assert(m.drop_first()[i] == m[i + 1]);
            assert(m.drop_first()[j] == m[j + 1]);
        }
        lemma_group_add_distinct(m.drop_first(), v, rf);
        let w = group_add(m.drop_first(), v, rf);
        let u = seq![m.first()] + w;
        assert(group_add(m, v, rf) == u);
        assert forall|i: int| 0 <= i < u.len() implies (#[trigger] u[i]).0 == (if i < m.len() {
            m[i].0
        } else {
            v
        }) by {
            if i > 0 {
                assert(u[i] == w[i - 1]);
                if i < m.len() {
                    assert(w[i - 1].0 == m.drop_first()[i - 1].0);
                    assert(m.drop_first()[i - 1] == m[i]);
                }
            }
        }
        assert forall|i: int, j: int|
            0 <= i < j < u.len() implies (#[trigger] u[i]).0 != (#[trigger] u[j]).0 by {
            if i == 0 {
                if j < m.len() {
                    assert(u[j].0 == m[j].0);
                } else {
                    assert(u[j].0 == v);
                    assert(m.first().0 != v);
                }
            }
        }
    }
}

/// Append a reference to `value`'s group, creating it if needed.
fn push_group_ref(groups: &mut Vec<(String, Vec<PostRef>)>, value: &str, rf: PostRef)
    ensures
        groups_model(final(groups)@) == group_add(groups_model(old(groups)@), value@, rf),
{
    let ghost m = groups_model(groups@);
    let n = groups.len();
    let mut i: usize = 0;
    while i < n
        invariant
            *groups == *old(groups),
            i <= n,
            n == groups@.len(),
            m == groups_model(groups@),
            m.len() == n,
            forall|j: int| 0 <= j < i ==> (#[trigger] m[j]).0 != value@,
        decreases n - i,
    {
        if str_eq(groups[i].0.as_str(), value) {
            let ghost before = groups@;
            let mut entry = groups.remove(i);
            entry.1.push(rf);
            groups.insert(i, entry);
            proof {
                let updated = before.update(i as int, entry);
                assert(groups@ =~= updated);
                lemma_group_add_at(m, value@, rf, i as int);
                assert forall|j: int| 0 <= j < updated.len() implies #[trigger] groups_model(
                    updated,
                )[j] == m.update(i as int, (value@, m[i as int].1.push(rf)))[j] by {
                    assert(groups_model(updated)[j] == (updated[j].0@, updated[j].1@));
                    assert(m[j] == (before[j].0@, before[j].1@));
                }
                assert(groups_model(updated) =~= m.update(
                    i as int,
                    (value@, m[i as int].1.push(rf)),
                ));
            }
            return ;
        }
        i = i + 1;
    }
    let ghost before = groups@;
    let mut refs: Vec<PostRef> = Vec::new();
    refs.push(rf);
    groups.push((value.to_owned(), refs));
    proof {
        lemma_group_add_append(m, value@, rf);
        let pushed = groups@;
        assert(pushed =~= before.push(pushed.last()));
        assert forall|j: int| 0 <= j < pushed.len() implies #[trigger] groups_model(pushed)[j]
            == m.push((value@, seq![rf]))[j] by {
            assert(groups_model(pushed)[j] == (pushed[j].0@, pushed[j].1@));
            if j < before.len() {
                assert(m[j] == (before[j].0@, before[j].1@));
            } else {
                assert(pushed[j].1@ =~= seq![rf]);
            }
        }
        assert(groups_model(groups@) =~= m.push((value@, seq![rf])));
    }
}

/// When the first match sits at index `i`, adding is in-place extension of
/// that group.
proof fn lemma_group_add_at(m: Seq<(Seq<char>, Seq<PostRef>)>, v: Seq<char>, rf: PostRef, i: int)
    requires
        0 <= i < m.len(),
        forall|j: int| 0 <= j < i ==> (#[trigger] m[j]).0 != v,
        m[i].0 == v,
    ensures
        group_add(m, v, rf) =~= m.update(i, (v, m[i].1.push(rf))),
    decreases i,
{
    if i == 0 {
        assert(seq![(m.first().0, m.first().1.push(rf))] + m.drop_first() =~= m.update(
            0,
            (v, m[0].1.push(rf)),
        ));
    } else {
        lemma_group_add_at(m.drop_first(), v, rf, i - 1);
        assert(seq![m.first()] + m.drop_first().update(i - 1, (v, m[i].1.push(rf))) =~= m.update(
            i,
            (v, m[i].1.push(rf)),
        ));
    }
}

/// When no group matches, adding appends a singleton group.
proof fn lemma_group_add_append(m: Seq<(Seq<char>, Seq<PostRef>)>, v: Seq<char>, rf: PostRef)
    requires
        forall|j: int| 0 <= j < m.len() ==> (#[trigger] m[j]).0 != v,
    ensures
        group_add(m, v, rf) =~= m.push((v, seq![rf])),
    decreases m.len(),
{
    if m.len() == 0 {
        assert(group_add(m, v, rf) =~= m.push((v, seq![rf])));
    } else {
        lemma_group_add_append(m.drop_first(), v, rf);
        assert(seq![m.first()] + m.drop_first().push((v, seq![rf])) =~= m.push((v, seq![rf])));
    }
}


/// Permalink of one taxonomy term: `base/taxonomy-slug/term-slug/`.
pub open spec fn spec_term_permalink(base: Seq<char>, tslug: Seq<char>, islug: Seq<char>) -> Seq<
    char,
> {
    trim_end_slashes(base) + "/"@ + tslug + "/"@ + islug + "/"@
}

/// The slug a taxonomy collection carries: explicit, or derived from its
/// name.
pub open spec fn spec_collection_slug(config: TaxonomyConfig) -> Seq<char> {
    match config.slug {
        Some(s) => s@,
        None => slug_of(config.name@),
    }
}

/// Everything `build_taxonomy` promises about one item.
pub open spec fn item_matches(
    item: TaxonomyItem,
    posts: Seq<Post>,
    tax: Seq<char>,
    tslug: Seq<char>,
    base: Seq<char>,
) -> bool {
    &&& item.posts@ == group_refs(posts, tax, item.name@)
    &&& item.posts@.len() > 0
    &&& item.post_count == item.posts@.len()
    &&& item.slug@ == slug_of(item.name@)
    &&& item.permalink@ == spec_term_permalink(base, tslug, slug_of(item.name@))
}

/// Every value any post carries has an item named after it.
pub open spec fn covers_all_values(items: Seq<TaxonomyItem>, posts: Seq<Post>, tax: Seq<char>) -> bool {
    forall|a: int, b: int|
        0 <= a < posts.len() && 0 <= b < spec_post_values(posts[a], tax).len() ==> exists|g: int|
            0 <= g < items.len() && (#[trigger] items[g]).name@ == #[trigger] spec_post_values(
                posts[a],
                tax,
            )[b]
}

/// Everything `build_taxonomy` promises: correct name and slug; every item
/// holds exactly the references collected for its value, counted right,
/// with slug and permalink derived from it; items are strictly sorted by
/// name; and every value any post carries has its item.
pub open spec fn collection_matches(
    c: TaxonomyCollection,
    posts: Seq<Post>,
    config: TaxonomyConfig,
    base: Seq<char>,
) -> bool {
    let tax = config.name@;
    let tslug = spec_collection_slug(config);
    &&& c.name == config.name
    &&& c.slug@ == tslug
    &&& forall|g: int|
        0 <= g < c.items@.len() ==> item_matches(#[trigger] c.items@[g], posts, tax, tslug, base)
    &&& forall|g1: int, g2: int|
        0 <= g1 < g2 < c.items@.len() ==> lex_lt(
            (#[trigger] c.items@[g1]).name@,
            (#[trigger] c.items@[g2]).name@,
        )
    &&& covers_all_values(c.items@, posts, tax)
}

/// Invariant of the grouping pass over the posts seen so far: each group
/// holds exactly the references collected for its value, groups are never
/// empty, and absent groups mean no reference was collected.
pub open spec fn group_inv(m: Seq<(Seq<char>, Seq<PostRef>)>, seen: Seq<Post>, tax: Seq<char>) -> bool {
    forall|v: Seq<char>|
        match #[trigger] group_lookup(m, v) {
            Some(s) => s == group_refs(seen, tax, v) && s.len() > 0,
            None => group_refs(seen, tax, v).len() == 0,
        }
}

/// A value one post carries is collected at least once over the whole list.
proof fn lemma_group_refs_at(posts: Seq<Post>, tax: Seq<char>, v: Seq<char>, a: int)
    requires
        0 <= a < posts.len(),
    ensures
        group_refs(posts, tax, v).len() >= count_occ(spec_post_values(posts[a], tax), v),
    decreases posts.len(),
{
    if a == posts.len() - 1 {
        assert(posts.last() == posts[a]);
    } else {
        lemma_group_refs_at(posts.drop_last(), tax, v, a);
        assert(posts.drop_last()[a] == posts[a]);
    }
}

/// Under distinct names, the lookup of an entry's own value yields that
/// entry.
proof fn lemma_group_lookup_at(m: Seq<(Seq<char>, Seq<PostRef>)>, j: int)
    requires
        distinct_names(m),
        0 <= j < m.len(),
    ensures
        group_lookup(m, m[j].0) == Some(m[j].1),
    decreases j,
{
    if j == 0 {
    } else {
        assert(m[0].0 != m[j].0);
        assert forall|i1: int, i2: int|
            0 <= i1 < i2 < m.drop_first().len() implies (#[trigger] m.drop_first()[i1]).0 != (
        #[trigger] m.drop_first()[i2]).0 by {
            assert(m.drop_first()[i1] == m[i1 + 1]);
            assert(m.drop_first()[i2] == m[i2 + 1]);
        }
        assert(m.drop_first()[j - 1] == m[j]);
        lemma_group_lookup_at(m.drop_first(), j - 1);
    }
}

/// A present group sits at some index.
proof fn lemma_group_lookup_index(m: Seq<(Seq<char>, Seq<PostRef>)>, v: Seq<char>)
    requires
        group_lookup(m, v) is Some,
    ensures
        exists|j: int| 0 <= j < m.len() && (#[trigger] m[j]).0 == v,
    decreases m.len(),
{
    if m.len() > 0 {
        if m.first().0 == v {
            assert(m[0].0 == v);
        } else {
            lemma_group_lookup_index(m.drop_first(), v);
            let j = choose|j: int|
                0 <= j < m.drop_first().len() && (#[trigger] m.drop_first()[j]).0 == v;
            assert(m[j + 1] == m.drop_first()[j]);
        }
    }
}

/// Group the posts of one value list into the association list, posts in
/// outer order, one reference per occurrence.
pub fn build_taxonomy(posts: &Vec<Post>, config: &TaxonomyConfig, base_url: &str) -> (r:
    TaxonomyCollection)
    ensures
        collection_matches(r, posts@, *config, base_url@),
{
    let ghost tax = config.name@;
    let tax_slug = match &config.slug {
        Some(s) => s.clone(),
        None => slugify(config.name.as_str()),
    };

    let is_cats = str_eq(config.name.as_str(), "categories");
    let is_tags = str_eq(config.name.as_str(), "tags");

    let mut groups: Vec<(String, Vec<PostRef>)> = Vec::new();
    proof {
        assert(posts@.take(0) =~= Seq::<Post>::empty());
        assert(groups_model(groups@) =~= Seq::<(Seq<char>, Seq<PostRef>)>::empty());
    }
    let mut i: usize = 0;
    while i < posts.len()
        invariant
            i <= posts@.len(),
            is_cats == (tax == "categories"@),
            is_tags == (tax == "tags"@),
            tax == config.name@,
            distinct_names(groups_model(groups@)),
            group_inv(groups_model(groups@), posts@.take(i as int), tax),
        decreases posts@.len() - i,
    {
        let ghost seen = posts@.take(i as int);
        let ghost valsm = spec_post_values(posts@[i as int], tax);
        if is_cats || is_tags {
            let vals = if is_cats {
                &posts[i].categories
            } else {
                &posts[i].tags
            };
            proof {
                assert(valsm == vals@.map_values(|v: String| v@));
            }
            let mut b: usize = 0;
            proof {
                assert(valsm.take(0) =~= Seq::<Seq<char>>::empty());
                assert forall|v: Seq<char>|
                    group_refs(seen, tax, v) + Seq::new(
                        count_occ(valsm.take(0), v),
                        |k: int| ref_of(posts@[i as int]),
                    ) =~= #[trigger] group_refs(seen, tax, v) by {}
            }
            while b < vals.len()
                invariant
                    b <= vals@.len(),
                    i < posts@.len(),
                    seen == posts@.take(i as int),
                    valsm == spec_post_values(posts@[i as int], tax),
                    valsm == vals@.map_values(|v: String| v@),
                    valsm.len() == vals@.len(),
                    distinct_names(groups_model(groups@)),
                    forall|v: Seq<char>|
                        match #[trigger] group_lookup(groups_model(groups@), v) {
                            Some(s) => s == group_refs(seen, tax, v) + Seq::new(
                                count_occ(valsm.take(b as int), v),
                                |k: int| ref_of(posts@[i as int]),
                            ) && s.len() > 0,
                            None => group_refs(seen, tax, v).len() + count_occ(
                                valsm.take(b as int),
                                v,
                            ) == 0,
                        },
                decreases vals@.len() - b,
            {
                let rf = posts[i].to_ref();
                let ghost gm = groups_model(groups@);
                push_group_ref(&mut groups, vals[b].as_str(), rf);
                proof {
                    let value = valsm[b as int];
                    assert(vals@[b as int]@ == value);
                    lemma_group_add_distinct(gm, value, rf);
                    assert forall|v: Seq<char>|
                        match #[trigger] group_lookup(groups_model(groups@), v) {
                            Some(s) => s == group_refs(seen, tax, v) + Seq::new(
                                count_occ(valsm.take(b + 1), v),
                                |k: int| ref_of(posts@[i as int]),
                            ) && s.len() > 0,
                            None => group_refs(seen, tax, v).len() + count_occ(
                                valsm.take(b + 1),
                                v,
                            ) == 0,
                        } by {
                        lemma_group_add(gm, value, rf, v);
                        assert(valsm.take(b + 1).drop_last() =~= valsm.take(b as int));
                        assert(valsm.take(b + 1).last() == value);
                        if v == value {
                            let olds = group_refs_of(gm, v);
                            let prefix = group_refs(seen, tax, v);
                            let oldcount = count_occ(valsm.take(b as int), v);
                            assert(olds.push(rf) =~= prefix + Seq::new(
                                oldcount + 1,
                                |k: int| ref_of(posts@[i as int]),
                            ));
                        }
                    }
                }
                b = b + 1;
            }
            proof {
                assert(valsm.take(vals@.len() as int) =~= valsm);
                assert(posts@.take(i + 1).drop_last() =~= seen);
                assert(posts@.take(i + 1).last() == posts@[i as int]);
                assert forall|v: Seq<char>|
                    match #[trigger] group_lookup(groups_model(groups@), v) {
                        Some(s) => s == group_refs(posts@.take(i + 1), tax, v) && s.len() > 0,
                        None => group_refs(posts@.take(i + 1), tax, v).len() == 0,
                    } by {
                }
            }
        } else {
            proof {
                assert(valsm =~= Seq::<Seq<char>>::empty());
                assert(posts@.take(i + 1).drop_last() =~= seen);
                assert(posts@.take(i + 1).last() == posts@[i as int]);
                assert forall|v: Seq<char>|
                    match #[trigger] group_lookup(groups_model(groups@), v) {
                        Some(s) => s == group_refs(posts@.take(i + 1), tax, v) && s.len() > 0,
                        None => group_refs(posts@.take(i + 1), tax, v).len() == 0,
                    } by {
                    assert(group_refs(posts@.take(i + 1), tax, v) =~= group_refs(seen, tax, v));
                }
            }
        }
        i = i + 1;
    }
    proof {
        assert(posts@.take(posts@.len() as int) =~= posts@);
    }

    let ghost orig = groups@;
    let ghost everything = groups@.to_multiset();
    let mut sorted: Vec<(String, Vec<PostRef>)> = Vec::new();
    proof {
        broadcast use vstd::multiset::group_multiset_axioms;

        assert forall|x: (String, Vec<PostRef>)| #[trigger] sorted@.to_multiset().count(x)
            == 0 by {
            vstd::seq_lib::to_multiset_contains(sorted@, x);
        }
        assert(sorted@.to_multiset().add(groups@.to_multiset()) =~= everything);
    }
    while groups.len() > 0
        invariant
            sorted@.to_multiset().add(groups@.to_multiset()) == everything,
            forall|t1: int, t2: int|
                0 <= t1 < t2 < sorted@.len() ==> lex_lt(
                    (#[trigger] sorted@[t1]).0@,
                    (#[trigger] sorted@[t2]).0@,
                ),
            forall|t: int, j: int|
                0 <= t < sorted@.len() && 0 <= j < groups@.len() ==> lex_lt(
                    (#[trigger] sorted@[t]).0@,
                    (#[trigger] groups@[j]).0@,
                ),
            distinct_names(groups_model(groups@)),
        decreases groups@.len(),
    {
        let mut best: usize = 0;
        let mut k: usize = 1;
        proof {
            lemma_lex_irrefl(groups@[0].0@);
        }
        while k < groups.len()
            invariant
                groups@.len() > 0,
                best < groups@.len(),
                k <= groups@.len(),
                forall|j: int| 0 <= j < k ==> !lex_lt((#[trigger] groups@[j]).0@, groups@[
                    best as int].0@),
            decreases groups@.len() - k,
        {
            let ghost prev_best = best as int;
            if str_lt(groups[k].0.as_str(), groups[best].0.as_str()) {
                best = k;
                proof {
                    lemma_lex_irrefl(groups@[best as int].0@);
                    assert forall|j: int|
                        0 <= j < k + 1 implies !lex_lt(
                        (#[trigger] groups@[j]).0@,
                        groups@[best as int].0@,
                    ) by {
                        if j < k && lex_lt(groups@[j].0@, groups@[k as int].0@) {
                            lemma_lex_trans(groups@[j].0@, groups@[k as int].0@, groups@[
                                prev_best].0@);
                        }
                    }
                }
            }
            k = k + 1;
        }
        let ghost before = groups@;
        let g = groups.remove(best);
        let ghost sorted_before = sorted@;
        sorted.push(g);
        proof {
            broadcast use vstd::multiset::group_multiset_axioms;

            assert(before[best as int] == g);
            assert(before.contains(g));
            vstd::seq_lib::to_multiset_remove(before, best as int);
            vstd::seq_lib::to_multiset_contains(before, g);
            vstd::seq_lib::to_multiset_build(sorted_before, g);
            assert(groups@ == before.remove(best as int));
            assert(sorted@ == sorted_before.push(g));
            assert(sorted@.to_multiset().add(groups@.to_multiset()) =~= everything);
            assert forall|t1: int, t2: int|
                0 <= t1 < t2 < sorted@.len() implies lex_lt(
                (#[trigger] sorted@[t1]).0@,
                (#[trigger] sorted@[t2]).0@,
            ) by {}
            assert forall|t: int, j: int|
                0 <= t < sorted@.len() && 0 <= j < groups@.len() implies lex_lt(
                (#[trigger] sorted@[t]).0@,
                (#[trigger] groups@[j]).0@,
            ) by {
                assert(groups@[j] == if j < best { before[j] } else { before[j + 1] });
                let jj: int = if j < best {
                    j
                } else {
                    j + 1
                };
                assert(groups_model(before)[jj].0 == before[jj].0@);
                assert(groups_model(before)[best as int].0 == before[best as int].0@);
                if t == sorted@.len() - 1 {
                    assert(!lex_lt(before[jj].0@, g.0@));
                    assert(before[jj].0@ != g.0@);
                    lemma_lex_total(g.0@, before[jj].0@);
                }
            }
            assert forall|i1: int, i2: int|
                0 <= i1 < i2 < groups_model(groups@).len() implies (#[trigger] groups_model(
                groups@,
            )[i1]).0 != (#[trigger] groups_model(groups@)[i2]).0 by {
                let j1: int = if i1 < best {
                    i1
                } else {
                    i1 + 1
                };
                let j2: int = if i2 < best {
                    i2
                } else {
                    i2 + 1
                };
                assert(groups@[i1] == before[j1]);
                assert(groups@[i2] == before[j2]);
                assert(groups_model(before)[j1].0 == before[j1].0@);
                assert(groups_model(before)[j2].0 == before[j2].0@);
            }
        }
    }

    let ghost sorted_full = sorted@;
    let mut items: Vec<TaxonomyItem> = Vec::new();
    let ghost tslug = spec_collection_slug(*config);
    proof {
        broadcast use vstd::multiset::group_multiset_axioms;

        assert(tax_slug@ == tslug);
        assert(sorted@ =~= sorted_full.skip(0));
        assert forall|x: (String, Vec<PostRef>)| #[trigger] groups@.to_multiset().count(x)
            == 0 by {
            vstd::seq_lib::to_multiset_contains(groups@, x);
        }
        assert(sorted_full.to_multiset() =~= everything);
    }
    while sorted.len() > 0
        invariant
            tax == config.name@,
            tslug == spec_collection_slug(*config),
            tax_slug@ == tslug,
            items@.len() + sorted@.len() == sorted_full.len(),
            sorted@ =~= sorted_full.skip(items@.len() as int),
            group_inv(groups_model(orig), posts@, tax),
            distinct_names(groups_model(orig)),
            sorted_full.to_multiset() == orig.to_multiset(),
            forall|t: int|
                0 <= t < items@.len() ==> (#[trigger] items@[t]).name == sorted_full[t].0,
            forall|t: int|
                0 <= t < items@.len() ==> item_matches(
                    #[trigger] items@[t],
                    posts@,
                    tax,
                    tslug,
                    base_url@,
                ),
        decreases sorted@.len(),
    {
        let g = sorted.remove(0);
        let islug = slugify(g.0.as_str());
        let mut permalink = trim_trailing_slashes(base_url);
        permalink.append("/");
        permalink.append(tax_slug.as_str());
        permalink.append("/");
        permalink.append(islug.as_str());
        permalink.append("/");
        let count = g.1.len();
        let ghost items_before = items@;
        let ghost gpair = g;
        items.push(
            TaxonomyItem {
                name: g.0,
                slug: islug,
                post_count: count,
                posts: g.1,
                permalink,
            },
        );
        proof {
            broadcast use vstd::multiset::group_multiset_axioms;

            let t = items_before.len() as int;
            assert(gpair == sorted_full.skip(t).first());
            assert(gpair == sorted_full[t]);
            assert(sorted_full.skip(t).drop_first() =~= sorted_full.skip(t + 1));
            vstd::seq_lib::to_multiset_contains(orig, gpair);
            assert(sorted_full.to_multiset().count(gpair) > 0) by {
                vstd::seq_lib::to_multiset_contains(sorted_full, gpair);
                assert(sorted_full.contains(gpair));
            }
            assert(orig.to_multiset().count(gpair) > 0);
            assert(orig.contains(gpair));
            let j = choose|j: int| 0 <= j < orig.len() && orig[j] == gpair;
            assert(groups_model(orig)[j] == (orig[j].0@, orig[j].1@));
            lemma_group_lookup_at(groups_model(orig), j);
            assert(group_lookup(groups_model(orig), gpair.0@) == Some(gpair.1@));
            assert(items@[t].posts@ == group_refs(posts@, tax, items@[t].name@));
        }
    }
    proof {
        assert(sorted_full.skip(items@.len() as int).len() == 0);
        assert(items@.len() == sorted_full.len());
        // completeness: every value of every post has an item
        assert forall|a: int, b: int|
            0 <= a < posts@.len() && 0 <= b < spec_post_values(posts@[a], config.name@).len() implies exists|g: int|
                0 <= g < items@.len() && (#[trigger] items@[g]).name@
                == #[trigger] spec_post_values(
                    posts@[a],
                    config.name@,
                )[b] by {
            broadcast use vstd::multiset::group_multiset_axioms;

            let v = spec_post_values(posts@[a], tax)[b];
            assert(spec_post_values(posts@[a], config.name@) == spec_post_values(posts@[a], tax));
            assert(count_occ(spec_post_values(posts@[a], tax), v) > 0) by {
                lemma_count_occ_at(spec_post_values(posts@[a], tax), b);
            }
            lemma_group_refs_at(posts@, tax, v, a);
            assert(group_refs(posts@, tax, v).len() > 0);
            assert(group_lookup(groups_model(orig), v) matches Some(s) && s.len() > 0);
            lemma_group_lookup_index(groups_model(orig), v);
            let j = choose|j: int| 0 <= j < groups_model(orig).len() && (#[trigger] groups_model(
                orig,
            )[j]).0 == v;
            assert(groups_model(orig)[j] == (orig[j].0@, orig[j].1@));
            assert(orig[j].0@ == v);
            vstd::seq_lib::to_multiset_contains(orig, orig[j]);
            assert(orig.contains(orig[j]));
            assert(orig.to_multiset().count(orig[j]) > 0);
            assert(sorted_full.to_multiset().count(orig[j]) > 0);
            vstd::seq_lib::to_multiset_contains(sorted_full, orig[j]);
            assert(sorted_full.contains(orig[j]));
            let t = choose|t: int| 0 <= t < sorted_full.len() && sorted_full[t] == orig[j];
            assert(items@[t].name@ == v);
        }
        assert(covers_all_values(items@, posts@, config.name@));
    }

    proof {
        assert(items@.len() == sorted_full.len());
        assert(tax_slug@ == spec_collection_slug(*config));
        assert forall|g: int|
            0 <= g < items@.len() implies item_matches(
            #[trigger] items@[g],
            posts@,
            config.name@,
            spec_collection_slug(*config),
            base_url@,
        ) by {}
        assert forall|g1: int, g2: int|
            0 <= g1 < g2 < items@.len() implies lex_lt(
            (#[trigger] items@[g1]).name@,
            (#[trigger] items@[g2]).name@,
        ) by {
            assert(items@[g1].name == sorted_full[g1].0);
            assert(items@[g2].name == sorted_full[g2].0);
            assert(lex_lt(sorted_full[g1].0@, sorted_full[g2].0@));
        }
    }
    TaxonomyCollection { name: config.name.clone(), slug: tax_slug, items }
}

/// An occurrence at index `b` makes the occurrence count positive.
proof fn lemma_count_occ_at(vals: Seq<Seq<char>>, b: int)
    requires
        0 <= b < vals.len(),
    ensures
        count_occ(vals, vals[b]) > 0,
    decreases vals.len(),
{
    if b == vals.len() - 1 {
    } else {
        lemma_count_occ_at(vals.drop_last(), b);
        assert(vals.drop_last()[b] == vals[b]);
    }
}

/// Build every configured taxonomy, keyed by taxonomy name in
/// configuration order.
pub fn build_taxonomies(
    posts: &Vec<Post>,
    taxonomy_configs: &Vec<TaxonomyConfig>,
    base_url: &str,
) -> (r: Vec<(String, TaxonomyCollection)>)
    ensures
        r@.len() == taxonomy_configs@.len(),
        forall|i: int|
            0 <= i < r@.len() ==> (#[trigger] r@[i]).0 == taxonomy_configs@[i].name
                && collection_matches(r@[i].1, posts@, taxonomy_configs@[i], base_url@),
{
    let mut result: Vec<(String, TaxonomyCollection)> = Vec::new();
    let mut i: usize = 0;
    while i < taxonomy_configs.len()
        invariant
            i <= taxonomy_configs@.len(),
            result@.len() == i,
            forall|j: int|
                0 <= j < i ==> (#[trigger] result@[j]).0 == taxonomy_configs@[j].name
                    && collection_matches(result@[j].1, posts@, taxonomy_configs@[j], base_url@),
        decreases taxonomy_configs@.len() - i,
    {
        let collection = build_taxonomy(posts, &taxonomy_configs[i], base_url);
        result.push((taxonomy_configs[i].name.clone(), collection));
        i = i + 1;
    }
    result
}

/// Law (taxonomy grouping): a post's reference stands in the collection of
/// value `v` exactly when the post carries `v`; so a post tagged with two
/// values appears in exactly those two items and in no others.
pub proof fn lemma_group_membership(posts: Seq<Post>, tax: Seq<char>, v: Seq<char>)
    ensures
        forall|i: int|
            0 <= i < posts.len() && count_occ(spec_post_values(#[trigger] posts[i], tax), v) > 0
                ==> group_refs(posts, tax, v).contains(ref_of(posts[i])),
        forall|rf: PostRef|
            #[trigger] group_refs(posts, tax, v).contains(rf) ==> exists|j: int|
                0 <= j < posts.len() && rf == ref_of(#[trigger] posts[j]) && count_occ(
                    spec_post_values(posts[j], tax),
                    v,
                ) > 0,
    decreases posts.len(),
{
    if posts.len() == 0 {
    } else {
        let prefix = group_refs(posts.drop_last(), tax, v);
        let cnt = count_occ(spec_post_values(posts.last(), tax), v);
        let tail = Seq::new(cnt, |k: int| ref_of(posts.last()));
        assert(group_refs(posts, tax, v) == prefix + tail);
        lemma_group_membership(posts.drop_last(), tax, v);
        assert forall|i: int|
            0 <= i < posts.len() && count_occ(spec_post_values(#[trigger] posts[i], tax), v)
                > 0 implies group_refs(posts, tax, v).contains(ref_of(posts[i])) by {
            if i < posts.len() - 1 {
                assert(posts.drop_last()[i] == posts[i]);
                assert(prefix.contains(ref_of(posts[i])));
                let w = choose|w: int| 0 <= w < prefix.len() && prefix[w] == ref_of(posts[i]);
                assert((prefix + tail)[w] == ref_of(posts[i]));
            } else {
                assert(posts[i] == posts.last());
                assert(tail.len() > 0);
                assert((prefix + tail)[prefix.len() as int] == ref_of(posts.last()));
            }
        }
        assert forall|rf: PostRef|
            #[trigger] group_refs(posts, tax, v).contains(rf) implies exists|j: int|
                0 <= j < posts.len() && rf == ref_of(#[trigger] posts[j]) && count_occ(
                    spec_post_values(posts[j], tax),
                    v,
                ) > 0 by {
            let w = choose|w: int|
                0 <= w < (prefix + tail).len() && (prefix + tail)[w] == rf;
            if w < prefix.len() {
                assert(prefix[w] == rf);
                assert(prefix.contains(rf));
                let j = choose|j: int|
                    0 <= j < posts.drop_last().len() && rf == ref_of(
                        #[trigger] posts.drop_last()[j],
                    ) && count_occ(spec_post_values(posts.drop_last()[j], tax), v) > 0;
                assert(posts[j] == posts.drop_last()[j]);
                assert(rf == ref_of(posts[j]) && count_occ(spec_post_values(posts[j], tax), v)
                    > 0);
            } else {
                assert((prefix + tail)[w] == tail[w - prefix.len()]);
                assert(rf == ref_of(posts.last()));
                assert(cnt > 0);
                let j = posts.len() - 1;
                assert(rf == ref_of(posts[j]) && count_occ(spec_post_values(posts[j], tax), v)
                    > 0);
            }
        }
    }
}

/// Law (taxonomy grouping, exclusivity): under the model's slug-uniqueness
/// invariant, a post that does not carry `v` has no reference in `v`'s
/// collection — so a post tagged with two values appears in those two
/// items and in no others.
pub proof fn lemma_group_membership_exclusive(
    posts: Seq<Post>,
    tax: Seq<char>,
    v: Seq<char>,
    i: int,
)
    requires
        crate::content::slugs_unique(posts),
        0 <= i < posts.len(),
        count_occ(spec_post_values(posts[i], tax), v) == 0,
    ensures
        !group_refs(posts, tax, v).contains(ref_of(posts[i])),
{
    if group_refs(posts, tax, v).contains(ref_of(posts[i])) {
        lemma_group_membership(posts, tax, v);
        let j = choose|j: int|
            0 <= j < posts.len() && ref_of(posts[i]) == ref_of(#[trigger] posts[j]) && count_occ(
                spec_post_values(posts[j], tax),
                v,
            ) > 0;
        assert(posts[j].slug == posts[i].slug);
        if i < j {
            assert(posts[i].slug@ != posts[j].slug@);
        } else if j < i {
            assert(posts[j].slug@ != posts[i].slug@);
        }
        assert(j == i);
        assert(false);
    }
}
} // verus!
