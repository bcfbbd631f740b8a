//! Slicing an ordered list of post references into fixed-size pages with
//! navigation links.
//!
//! Page 1 lives at the bare base path; page N > 1 lives at
//! `base_path/page/N/`. Zero items still yield exactly one (empty) page, so
//! index and taxonomy listings always have a renderable first page.

use vstd::prelude::*;
use vstd::string::*;
use vstd::arithmetic::div_mod::lemma_fundamental_div_mod;
use vstd::arithmetic::mul::lemma_mul_inequality;

use crate::model::PostRef;
use crate::text::{decimal, trim_end_slashes, trim_trailing_slashes, usize_to_string};

verus! {

/// One slice of an item list, together with everything a template needs to
/// render page navigation.
#[derive(Debug, Clone)]
pub struct Paginator {
    pub current_page: usize,
    pub total_pages: usize,
    pub total_items: usize,
    pub items_per_page: usize,
    pub has_prev: bool,
    pub has_next: bool,
    pub prev_path: Option<String>,
    pub next_path: Option<String>,
    pub pages: Vec<PageLink>,
    pub items: Vec<PostRef>,
}

/// Link to one page of a paginated listing.
#[derive(Debug, Clone)]
pub struct PageLink {
    pub number: usize,
    pub path: String,
    pub is_current: bool,
}

/// Number of pages needed for `total` items at `per` items per page:
/// `max(1, ceil(total / per))`.
pub open spec fn spec_total_pages(total: int, per: int) -> int {
    if total == 0 {
        1
    } else {
        (total + per - 1) / per
    }
}

/// `page` clamped into `[1, total_pages]`.
pub open spec fn spec_clamp_page(page: int, total_pages: int) -> int {
    if page < 1 {
        1
    } else if page > total_pages {
        total_pages
    } else {
        page
    }
}

/// Path of page `page` under `base`: the bare base for page 1, otherwise
/// `base/page/N/`; the base always loses its trailing slashes first.
pub open spec fn spec_page_path(base: Seq<char>, page: int) -> Seq<char> {
    let b = trim_end_slashes(base);
    if page == 1 {
        b + "/"@
    } else {
        b + "/page/"@ + decimal(page) + "/"@
    }
}

/// Index of the first item shown on `page`.
pub open spec fn spec_page_start(per: int, page: int) -> int {
    (page - 1) * per
}

/// One past the index of the last item shown on `page`.
pub open spec fn spec_page_end(total: int, per: int, page: int) -> int {
    if spec_page_start(per, page) + per <= total {
        spec_page_start(per, page) + per
    } else {
        total
    }
}

/// Everything `Paginator::new(items, per, requested, base)` promises about
/// its result.
pub open spec fn paginator_matches(
    p: Paginator,
    items: Seq<PostRef>,
    per: int,
    requested: int,
    base: Seq<char>,
) -> bool {
    let total = items.len() as int;
    let tp = spec_total_pages(total, per);
    let cp = spec_clamp_page(requested, tp);
    &&& p.total_items as int == total
    &&& p.items_per_page as int == per
    &&& p.total_pages as int == tp
    &&& p.current_page as int == cp
    &&& p.has_prev == (cp > 1)
    &&& p.has_next == (cp < tp)
    &&& if cp > 1 {
        p.prev_path matches Some(pp) && pp@ == spec_page_path(base, cp - 1)
    } else {
        p.prev_path is None
    }
    &&& if cp < tp {
        p.next_path matches Some(np) && np@ == spec_page_path(base, cp + 1)
    } else {
        p.next_path is None
    }
    &&& p.items@ == items.subrange(spec_page_start(per, cp), spec_page_end(total, per, cp))
    &&& p.pages@.len() == tp
    &&& forall|k: int|
        0 <= k < tp ==> (#[trigger] p.pages@[k]).number as int == k + 1
    &&& forall|k: int|
        0 <= k < tp ==> (#[trigger] p.pages@[k]).path@ == spec_page_path(base, k + 1)
    &&& forall|k: int|
        0 <= k < tp ==> ((#[trigger] p.pages@[k]).is_current <==> k + 1 == cp)
}

/// Core bounds on the page count: there is always at least one page, every
/// item lands on some page, and the last page is not empty.
pub proof fn lemma_total_pages_bounds(total: int, per: int)
    requires
        per >= 1,
        total >= 0,
    ensures
        spec_total_pages(total, per) >= 1,
        total <= spec_total_pages(total, per) * per,
        total > 0 ==> (spec_total_pages(total, per) - 1) * per < total,
        spec_total_pages(total, per) <= if total == 0 {
            1int
        } else {
            total
        },
{
    if total == 0 {
    } else {
        let tp = (total + per - 1) / per;
        lemma_fundamental_div_mod(total + per - 1, per);
        let r = (total + per - 1) % per;
        assert(total + per - 1 == per * tp + r);
        assert(0 <= r < per);
        assert(per * tp == total + per - 1 - r);
        assert(tp * per == per * tp) by (nonlinear_arith);
        assert(total <= tp * per);
        assert((tp - 1) * per == tp * per - per) by (nonlinear_arith);
        assert((tp - 1) * per < total);
        assert(tp >= 1) by {
            if tp <= 0 {
                assert(tp * per <= 0) by (nonlinear_arith)
                    requires
                        tp <= 0,
                        per >= 1,
                ;
            }
        }
        assert(tp <= total) by {
            if tp > total {
                assert((tp - 1) * per >= total * 1) by (nonlinear_arith)
                    requires
                        tp - 1 >= total,
                        per >= 1,
                        total >= 0,
                ;
            }
        }
    }
}

/// Output path of page `page` under `base_path`.
pub fn page_path(base_path: &str, page: usize) -> (r: String)
    ensures
        r@ == spec_page_path(base_path@, page as int),
{
    let mut base = trim_trailing_slashes(base_path);
    if page == 1 {
        base.append("/");
        base
    } else {
        base.append("/page/");
        let num = usize_to_string(page);
        base.append(num.as_str());
        base.append("/");
        base
    }
}

impl Paginator {
    /// Build the paginator for one page of `all_items`.
    ///
    /// The requested page number is clamped into `[1, total_pages]`; zero
    /// items still produce a single empty page.
    pub fn new(
        all_items: &Vec<PostRef>,
        items_per_page: usize,
        current_page: usize,
        base_path: &str,
    ) -> (r: Paginator)
        requires
            items_per_page >= 1,
            all_items@.len() + items_per_page <= usize::MAX,
        ensures
            paginator_matches(
                r,
                all_items@,
                items_per_page as int,
                current_page as int,
                base_path@,
            ),
    {
        let total_items = all_items.len();
        proof {
            lemma_total_pages_bounds(total_items as int, items_per_page as int);
        }
        let total_pages = if total_items == 0 {
            1
        } else {
            (total_items + items_per_page - 1) / items_per_page
        };

        let current = if current_page < 1 {
            1
        } else if current_page > total_pages {
            total_pages
        } else {
            current_page
        };

        proof {
            if total_items == 0 {
                assert((current as int - 1) * items_per_page as int == 0) by (nonlinear_arith)
                    requires
                        current as int == 1,
                ;
            } else {
                lemma_mul_inequality(
                    current as int - 1,
                    total_pages as int - 1,
                    items_per_page as int,
                );
            }
        }
        let start = (current - 1) * items_per_page;
        let end = if start + items_per_page <= total_items {
            start + items_per_page
        } else {
            total_items
        };

        let mut items: Vec<PostRef> = Vec::new();
        let mut i = start;
        while i < end
            invariant
                start <= i <= end,
                end <= all_items@.len(),
                items@ == all_items@.subrange(start as int, i as int),
            decreases end - i,
        {
            items.push(all_items[i].duplicate());
            proof {
                assert(all_items@.subrange(start as int, i + 1 as int) =~= all_items@.subrange(
                    start as int,
                    i as int,
                ).push(all_items@[i as int]));
            }
            i = i + 1;
        }

        let has_prev = current > 1;
        let has_next = current < total_pages;
        let prev_path = if has_prev {
            Some(page_path(base_path, current - 1))
        } else {
            None
        };
        let next_path = if has_next {
            Some(page_path(base_path, current + 1))
        } else {
            None
        };

        let mut pages: Vec<PageLink> = Vec::new();
        let mut n: usize = 1;
        while n <= total_pages
            invariant
                total_pages < usize::MAX,
                1 <= n <= total_pages + 1,
                pages@.len() == n - 1,
                forall|k: int|
                    0 <= k < n - 1 ==> (#[trigger] pages@[k]).number as int == k + 1,
                forall|k: int|
                    0 <= k < n - 1 ==> (#[trigger] pages@[k]).path@ == spec_page_path(
                        base_path@,
                        k + 1,
                    ),
                forall|k: int|
                    0 <= k < n - 1 ==> ((#[trigger] pages@[k]).is_current <==> k + 1
                        == current as int),
            decreases total_pages + 1 - n,
        {
            pages.push(
                PageLink { number: n, path: page_path(base_path, n), is_current: n == current },
            );
            n = n + 1;
        }

        Paginator {
            current_page: current,
            total_pages,
            total_items,
            items_per_page,
            has_prev,
            has_next,
            prev_path,
            next_path,
            pages,
            items,
        }
    }

    /// Build every page of `all_items`, in order: element `k` is the
    /// paginator for page `k + 1`.
    pub fn paginate_all(
        all_items: &Vec<PostRef>,
        items_per_page: usize,
        base_path: &str,
    ) -> (r: Vec<Paginator>)
        requires
            items_per_page >= 1,
            all_items@.len() + items_per_page <= usize::MAX,
        ensures
            r@.len() == spec_total_pages(all_items@.len() as int, items_per_page as int),
            forall|k: int|
                0 <= k < r@.len() ==> paginator_matches(
                    #[trigger] r@[k],
                    all_items@,
                    items_per_page as int,
                    k + 1,
                    base_path@,
                ),
    {
        let total_items = all_items.len();
        proof {
            lemma_total_pages_bounds(total_items as int, items_per_page as int);
        }
        let total_pages = if total_items == 0 {
            1
        } else {
            (total_items + items_per_page - 1) / items_per_page
        };

        let mut result: Vec<Paginator> = Vec::new();
        let mut page: usize = 1;
        while page <= total_pages
            invariant
                total_pages < usize::MAX,
                1 <= page <= total_pages + 1,
                total_pages as int == spec_total_pages(
                    all_items@.len() as int,
                    items_per_page as int,
                ),
                items_per_page >= 1,
                all_items@.len() + items_per_page <= usize::MAX,
                result@.len() == page - 1,
                forall|k: int|
                    0 <= k < page - 1 ==> paginator_matches(
                        #[trigger] result@[k],
                        all_items@,
                        items_per_page as int,
                        k + 1,
                        base_path@,
                    ),
            decreases total_pages + 1 - page,
        {
            result.push(Paginator::new(all_items, items_per_page, page, base_path));
            page = page + 1;
        }
        result
    }
}


/// Concatenation, in page order, of every page's item slice.
pub open spec fn pages_item_concat(ps: Seq<Paginator>) -> Seq<PostRef>
    decreases ps.len(),
{
    if ps.len() == 0 {
        Seq::empty()
    } else {
        pages_item_concat(ps.drop_last()) + ps.last().items@
    }
}

/// Sum of the page sizes.
pub open spec fn sum_page_items(ps: Seq<Paginator>) -> int
    decreases ps.len(),
{
    if ps.len() == 0 {
        0
    } else {
        sum_page_items(ps.drop_last()) + ps.last().items@.len()
    }
}

proof fn lemma_concat_len(ps: Seq<Paginator>)
    ensures
        pages_item_concat(ps).len() == sum_page_items(ps),
    decreases ps.len(),
{
    if ps.len() > 0 {
        lemma_concat_len(ps.drop_last());
    }
}

/// The first `k` pages together hold exactly the first `min(k * per, total)`
/// items, in order.
proof fn lemma_pages_prefix(ps: Seq<Paginator>, items: Seq<PostRef>, per: int, base: Seq<char>, k: int)
    requires
        per >= 1,
        ps.len() == spec_total_pages(items.len() as int, per),
        forall|j: int|
            0 <= j < ps.len() ==> paginator_matches(#[trigger] ps[j], items, per, j + 1, base),
        0 <= k <= ps.len(),
    ensures
        pages_item_concat(ps.take(k)) =~= items.subrange(
            0,
            if k * per <= items.len() as int {
                k * per
            } else {
                items.len() as int
            },
        ),
    decreases k,
{
    let total = items.len() as int;
    let tp = spec_total_pages(total, per);
    lemma_total_pages_bounds(total, per);
    if k == 0 {
        assert(ps.take(0) =~= Seq::<Paginator>::empty());
        assert(0 * per == 0) by (nonlinear_arith);
    } else {
        lemma_pages_prefix(ps, items, per, base, k - 1);
        assert(ps.take(k).drop_last() =~= ps.take(k - 1));
        assert(ps.take(k).last() == ps[k - 1]);
        let p = ps[k - 1];
        assert(paginator_matches(p, items, per, k, base));
        assert(spec_clamp_page(k, tp) == k);
        let start = spec_page_start(per, k);
        let end = spec_page_end(total, per, k);
        assert(start == (k - 1) * per);
        assert((k - 1) * per + per == k * per) by (nonlinear_arith);
        if total == 0 {
            assert(k == 1);
            assert(start == 0 && end == 0);
            assert(pages_item_concat(ps.take(1)) =~= items.subrange(0, 0));
        } else {
            lemma_mul_inequality(k - 1, tp - 1, per);
            assert((k - 1) * per <= (tp - 1) * per < total);
            lemma_mul_inequality(0, k - 1, per);
            assert(0 * per == 0) by (nonlinear_arith);
            assert(0 <= start <= end <= total);
            let prev_end = if (k - 1) * per <= total {
                (k - 1) * per
            } else {
                total
            };
            assert(prev_end == start);
            assert(items.subrange(0, start) + items.subrange(start, end) =~= items.subrange(
                0,
                end,
            ));
        }
    }
}

/// Law: the pages produced by `paginate_all` partition the input. In page
/// order, concatenating every page's item slice yields exactly the input
/// sequence (no item lost, none duplicated, original order kept), so the page
/// sizes also sum to the number of items.
pub proof fn lemma_paginate_all_partitions(
    ps: Seq<Paginator>,
    items: Seq<PostRef>,
    per: int,
    base: Seq<char>,
)
    requires
        per >= 1,
        ps.len() == spec_total_pages(items.len() as int, per),
        forall|j: int|
            0 <= j < ps.len() ==> paginator_matches(#[trigger] ps[j], items, per, j + 1, base),
    ensures
        pages_item_concat(ps) == items,
        sum_page_items(ps) == items.len(),
{
    let total = items.len() as int;
    let tp = spec_total_pages(total, per);
    lemma_total_pages_bounds(total, per);
    lemma_pages_prefix(ps, items, per, base, tp);
    assert(ps.take(tp) =~= ps);
    assert(tp * per == per * tp) by (nonlinear_arith);
    assert(total <= tp * per);
    assert(items.subrange(0, total) =~= items);
    lemma_concat_len(ps);
}

/// Law: an empty item list (with any positive page size) still yields one
/// page, whose slice is empty.
pub proof fn lemma_empty_items_single_page(
    p: Paginator,
    per: int,
    requested: int,
    base: Seq<char>,
)
    requires
        per >= 1,
        paginator_matches(p, Seq::<PostRef>::empty(), per, requested, base),
    ensures
        p.total_pages == 1,
        p.items@ == Seq::<PostRef>::empty(),
{
    assert(spec_total_pages(0, per) == 1);
    let cp = spec_clamp_page(requested, 1);
    assert(cp == 1);
    assert(spec_page_start(per, 1) == 0) by (nonlinear_arith);
    assert(p.items@ =~= Seq::<PostRef>::empty());
}

} // verus!
