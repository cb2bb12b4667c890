use vstd::prelude::*;

use crate::link::{Link, LinkView};
use crate::store::{DbConn, Table};

verus! {

/// Page size used when the caller gives none.
pub const DEFAULT_PER_PAGE: i64 = 10;

/// The visible records of `s`, last one first. In a table, whose records are
/// kept in order of creation, that is newest first.
pub open spec fn visible_newest_first(s: Seq<LinkView>) -> Seq<LinkView>
    decreases s.len(),
{
    if s.len() == 0 {
        Seq::empty()
    } else {
        let rest = visible_newest_first(s.drop_first());
        if s[0].visible {
            rest.push(s[0])
        } else {
            rest
        }
    }
}

/// `x`, or `n` where `x` is larger.
pub open spec fn at_most(x: int, n: int) -> int {
    if x < n {
        x
    } else {
        n
    }
}

/// Window `[start, end)` of `all`, cut to its length.
pub open spec fn window(all: Seq<LinkView>, start: int, end: int) -> Seq<LinkView> {
    all.subrange(at_most(start, all.len() as int), at_most(end, all.len() as int))
}

/// The links on page `page` (from 1) of `per_page` links each.
pub open spec fn page_items(t: Table, page: int, per_page: int) -> Seq<LinkView> {
    window(visible_newest_first(t.links), (page - 1) * per_page, page * per_page)
}

/// The page after `page`, where there are links after it.
pub open spec fn next_page_of(t: Table, page: int, per_page: int) -> Option<i64> {
    if page * per_page < visible_newest_first(t.links).len() {
        Some((page + 1) as i64)
    } else {
        None
    }
}

pub open spec fn link_views(v: Seq<Link>) -> Seq<LinkView> {
    v.map_values(|l: Link| l@)
}

proof fn lemma_visible_step(s: Seq<LinkView>, k: int)
    requires
        0 < k <= s.len(),
    ensures
        visible_newest_first(s.subrange(k - 1, s.len() as int)) == if s[k - 1].visible {
            visible_newest_first(s.subrange(k, s.len() as int)).push(s[k - 1])
        } else {
            visible_newest_first(s.subrange(k, s.len() as int))
        },
{
    let a = s.subrange(k - 1, s.len() as int);
    assert(a.drop_first() =~= s.subrange(k, s.len() as int));
}

/// No more records are visible than there are records.
pub proof fn lemma_visible_len(s: Seq<LinkView>)
    ensures
        visible_newest_first(s).len() <= s.len(),
    decreases s.len(),
{
    if s.len() > 0 {
        lemma_visible_len(s.drop_first());
    }
}

impl Link {
    /// Page `page` (from 1) of the visible links, `per_page` to a page,
    /// newest first, and the number of the next page where links follow.
    pub fn paginate(conn: &DbConn, page: i64, per_page: i64) -> (r: (Vec<Link>, Option<i64>))
        requires
            conn.wf(),
            page >= 1,
            per_page >= 1,
        ensures
            link_views(r.0@) == page_items(conn@, page as int, per_page as int),
            r.1 == next_page_of(conn@, page as int, per_page as int),
    {
        let ghost s = conn@.links;
        let len = conn.len();
        proof {
            assert(0 <= (page - 1) * per_page <= page * per_page) by (nonlinear_arith)
                requires
                    page >= 1,
                    per_page >= 1,
            ;
            assert(page * per_page <= i64::MAX as int * i64::MAX as int) by (nonlinear_arith)
                requires
                    1 <= page <= i64::MAX,
                    1 <= per_page <= i64::MAX,
            ;
        }
        let start: i128 = (page as i128 - 1) * per_page as i128;
        let end: i128 = page as i128 * per_page as i128;
        let mut items: Vec<Link> = Vec::new();
        let mut count: usize = 0;
        let mut k: usize = len;
        assert(s.subrange(len as int, len as int) =~= Seq::<LinkView>::empty());
        while k > 0
            invariant
                conn.wf(),
                s == conn@.links,
                len == s.len(),
                k <= len,
                0 <= start <= end,
                count == visible_newest_first(s.subrange(k as int, len as int)).len(),
                count <= len - k,
                link_views(items@) == window(
                    visible_newest_first(s.subrange(k as int, len as int)),
                    start as int,
                    end as int,
                ),
            decreases k,
        {
            proof {
                lemma_visible_step(s, k as int);
            }
            let link = conn.get(k - 1);
            if link.visible {
                let ghost before = visible_newest_first(s.subrange(k as int, len as int));
                let ghost old_items = link_views(items@);
                if start <= count as i128 && (count as i128) < end {
                    items.push(link.clone());
                }
                count = count + 1;
                proof {
                    let after = before.push(s[k - 1]);
                    let c = before.len() as int;
                    if start <= c && c < end {
                        assert(link_views(items@) =~= old_items.push(s[k - 1]));
                        assert(window(after, start as int, end as int) =~= window(
                            before,
                            start as int,
                            end as int,
                        ).push(s[k - 1]));
                    } else if c < start {
                        assert(link_views(items@) =~= old_items);
                        assert(window(after, start as int, end as int) =~= Seq::<LinkView>::empty());
                    } else {
                        assert(link_views(items@) =~= old_items);
                        assert(window(after, start as int, end as int) =~= window(
                            before,
                            start as int,
                            end as int,
                        ));
                    }
                }
            }
            k = k - 1;
        }
        assert(s.subrange(0, len as int) =~= s);
        proof {
            lemma_visible_len(s);
            assert(s.len() < conn@.next_id);
            assert(page <= page * per_page) by (nonlinear_arith)
                requires
                    per_page >= 1,
                    page >= 1,
            ;
        }
        let next = if end < count as i128 {
            Some(page + 1)
        } else {
            None
        };
        (items, next)
    }
}

} // verus!
