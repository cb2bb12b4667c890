use vstd::prelude::*;

use crate::hash::{ascii_lower, is_hash_char, is_hash_text, lower_of};
use crate::link::{
    after_resolve, is_expired, is_valid, servable, trim_slashes, url_parses, validation_errors,
    LinkView,
};
use crate::paginate::{at_most, next_page_of, page_items, visible_newest_first, window};
use crate::store::{
    created_before, has_hash, hash_index, inserted, lemma_unique_positions, table_wf, visited,
    Table,
};

verus! {

/// Whether `i` is the one position of `s` whose hash is `h`.
pub open spec fn only_at(s: Seq<LinkView>, h: Seq<char>, i: int) -> bool {
    &&& 0 <= i < s.len()
    &&& s[i].hash == h
    &&& forall|k: int| 0 <= k < s.len() && #[trigger] s[k].hash == h ==> k == i
}

/// The table after `n` lookups of `h` at time `now`.
pub open spec fn after_visits(t: Table, h: Seq<char>, now: i64, n: nat) -> Table
    decreases n,
{
    if n == 0 {
        t
    } else {
        after_resolve(after_visits(t, h, now, (n - 1) as nat), h, now)
    }
}

/// Whether the records of `s` are in order of creation.
pub open spec fn in_creation_order(s: Seq<LinkView>) -> bool {
    forall|i: int, j: int| 0 <= i < j < s.len() ==> created_before(#[trigger] s[i], #[trigger] s[j])
}

/// Whether the records of `s` run from newest to oldest.
pub open spec fn newest_first(s: Seq<LinkView>) -> bool {
    forall|i: int, j: int| 0 <= i < j < s.len() ==> created_before(#[trigger] s[j], #[trigger] s[i])
}

/// A new link is found again by its own hash: after a creation that stored
/// `l`, whose hash is in the generated alphabet, for the URL `url`, a lookup
/// of that hash at a time at which `l` has not expired serves `l` and sends
/// the visitor to the URL without its trailing slashes. The lookup lowercases
/// its text; `Link::resolve` states that on ASCII text this is the ASCII
/// mapping, which leaves such a hash as it is.
pub proof fn lemma_create_then_resolve(
    old_t: Table,
    new_t: Table,
    l: LinkView,
    url: Seq<char>,
    now: i64,
)
    requires
        table_wf(old_t),
        table_wf(new_t),
        inserted(old_t, new_t, l),
        l.url == trim_slashes(url),
        is_hash_text(l.hash),
        !is_expired(l, now),
    ensures
        lower_of(l.hash) == ascii_lower(l.hash) ==> {
            &&& lower_of(l.hash) == l.hash
            &&& servable(new_t, lower_of(l.hash), now)
            &&& after_resolve(new_t, lower_of(l.hash), now).links[hash_index(
                new_t.links,
                lower_of(l.hash),
            )].url == trim_slashes(url)
        },
{
    assert(ascii_lower(l.hash) =~= l.hash) by {
        assert forall|i: int| 0 <= i < l.hash.len() implies ascii_lower(l.hash)[i] == l.hash[i] by {
            assert(is_hash_char(l.hash[i]));
        }
    }
    let p = choose|p: int| 0 <= p <= old_t.links.len() && new_t.links == old_t.links.insert(p, l);
    assert(new_t.links[p] == l);
    lemma_unique_positions(new_t, p);
}

/// An empty URL, or one that does not parse, breaks a rule, whatever the title.
pub proof fn lemma_bad_url_rejected(url: Seq<char>, title: Option<Seq<char>>)
    requires
        trim_slashes(url).len() == 0 || !url_parses(trim_slashes(url)),
    ensures
        !is_valid(trim_slashes(url), title),
{
    assert(validation_errors(trim_slashes(url), title).len() > 0);
}

/// No two records of a table share a hash.
pub proof fn lemma_hashes_unique(t: Table, i: int, j: int)
    requires
        table_wf(t),
        0 <= i < t.links.len(),
        0 <= j < t.links.len(),
        t.links[i].hash == t.links[j].hash,
    ensures
        i == j,
{
}

/// A creation stores a record whose hash no record of the table had before.
pub proof fn lemma_created_hash_was_free(old_t: Table, new_t: Table, l: LinkView)
    requires
        table_wf(new_t),
        inserted(old_t, new_t, l),
    ensures
        !has_hash(old_t.links, l.hash),
{
    let p = choose|p: int| 0 <= p <= old_t.links.len() && new_t.links == old_t.links.insert(p, l);
    if has_hash(old_t.links, l.hash) {
        let q = choose|q: int| 0 <= q < old_t.links.len() && #[trigger] old_t.links[q].hash == l.hash;
        let nq = if q < p { q } else { q + 1 };
        assert(new_t.links[nq].hash == new_t.links[p].hash);
    }
}

proof fn lemma_one_visit(t: Table, h: Seq<char>, now: i64, i: int)
    requires
        only_at(t.links, h, i),
        !is_expired(t.links[i], now),
    ensures
        servable(t, h, now),
        hash_index(t.links, h) == i,
        after_resolve(t, h, now).links == t.links.update(i, visited(t.links[i])),
        after_resolve(t, h, now).next_id == t.next_id,
        only_at(after_resolve(t, h, now).links, h, i),
{
    assert(t.links[i].hash == h);
    let a = after_resolve(t, h, now).links;
    assert forall|k: int| 0 <= k < a.len() && #[trigger] a[k].hash == h implies k == i by {
        assert(t.links[k].hash == h);
    }
}

/// Visits add up: `n` lookups of a served link count exactly `n` visits, as
/// long as the counter has room for them, and change nothing else.
pub proof fn lemma_visits_add_up(t: Table, h: Seq<char>, now: i64, n: nat)
    requires
        table_wf(t),
        servable(t, h, now),
        t.links[hash_index(t.links, h)].visitors + n <= i32::MAX,
    ensures
        ({
            let i = hash_index(t.links, h);
            let a = after_visits(t, h, now, n);
            &&& a.links.len() == t.links.len()
            &&& a.links[i].visitors == t.links[i].visitors + n
            &&& a.links[i] == (LinkView { visitors: a.links[i].visitors, ..t.links[i] })
            &&& forall|k: int| 0 <= k < t.links.len() && k != i ==> a.links[k] == t.links[k]
        }),
    decreases n,
{
    let i = hash_index(t.links, h);
    lemma_unique_positions(t, i);
    lemma_visits_at(t, h, now, n, i);
}

proof fn lemma_visits_at(t: Table, h: Seq<char>, now: i64, n: nat, i: int)
    requires
        only_at(t.links, h, i),
        !is_expired(t.links[i], now),
        t.links[i].visitors + n <= i32::MAX,
    ensures
        ({
            let a = after_visits(t, h, now, n);
            &&& only_at(a.links, h, i)
            &&& a.links.len() == t.links.len()
            &&& a.links[i].visitors == t.links[i].visitors + n
            &&& a.links[i] == (LinkView { visitors: a.links[i].visitors, ..t.links[i] })
            &&& forall|k: int| 0 <= k < t.links.len() && k != i ==> a.links[k] == t.links[k]
        }),
    decreases n,
{
    if n > 0 {
        lemma_visits_at(t, h, now, (n - 1) as nat, i);
        let b = after_visits(t, h, now, (n - 1) as nat);
        lemma_one_visit(b, h, now, i);
    }
}

/// Expiry decides whether a record is served: a lookup that finds the record
/// serves it exactly when its expiry is absent or not in the past, and a
/// lookup that does not serve it leaves the table as it was.
pub proof fn lemma_expired_not_served(t: Table, h: Seq<char>, now: i64)
    requires
        table_wf(t),
        has_hash(t.links, h),
    ensures
        servable(t, h, now) <==> !is_expired(t.links[hash_index(t.links, h)], now),
        !servable(t, h, now) ==> after_resolve(t, h, now) == t,
{
}

proof fn lemma_visible_from(s: Seq<LinkView>)
    ensures
        forall|x: LinkView| #[trigger] visible_newest_first(s).contains(x) ==> s.contains(x)
            && x.visible,
    decreases s.len(),
{
    if s.len() > 0 {
        lemma_visible_from(s.drop_first());
        let r = visible_newest_first(s.drop_first());
        assert forall|x: LinkView| #[trigger] visible_newest_first(s).contains(x) implies s.contains(x)
            && x.visible by {
            let k = choose|k: int| 0 <= k < visible_newest_first(s).len() && visible_newest_first(s)[k] == x;
            if k < r.len() {
                assert(r[k] == x);
                assert(r.contains(x));
                let m = choose|m: int| 0 <= m < s.drop_first().len() && s.drop_first()[m] == x;
                assert(s[m + 1] == x);
            } else {
                assert(s[0] == x);
            }
        }
    }
}

proof fn lemma_visible_sorted(s: Seq<LinkView>)
    requires
        in_creation_order(s),
    ensures
        newest_first(visible_newest_first(s)),
    decreases s.len(),
{
    if s.len() > 0 {
        let d = s.drop_first();
        assert(in_creation_order(d)) by {
            assert forall|i: int, j: int| 0 <= i < j < d.len() implies created_before(
                #[trigger] d[i],
                #[trigger] d[j],
            ) by {
                assert(created_before(s[i + 1], s[j + 1]));
            }
        }
        lemma_visible_sorted(d);
        lemma_visible_from(d);
        let r = visible_newest_first(d);
        if s[0].visible {
            let v = r.push(s[0]);
            assert forall|i: int, j: int| 0 <= i < j < v.len() implies created_before(
                #[trigger] v[j],
                #[trigger] v[i],
            ) by {
                if j == r.len() {
                    assert(r.contains(v[i]));
                    assert(d.contains(v[i]));
                    let m = choose|m: int| 0 <= m < d.len() && d[m] == v[i];
                    assert(created_before(s[0], s[m + 1]));
                } else {
                    assert(created_before(r[j], r[i]));
                }
            }
        }
    }
}

/// Pages hold the visible links newest first: at most `per_page` of them,
/// all visible, and the next page is named exactly when links follow this
/// page. A page past the end is empty and names no next page.
pub proof fn lemma_page_shape(t: Table, page: int, per_page: int)
    requires
        table_wf(t),
        page >= 1,
        per_page >= 1,
    ensures
        ({
            let total = visible_newest_first(t.links).len() as int;
            let start = (page - 1) * per_page;
            let items = page_items(t, page, per_page);
            &&& items.len() == if start >= total {
                0
            } else {
                at_most(per_page, total - start)
            }
            &&& newest_first(items)
            &&& forall|i: int| 0 <= i < items.len() ==> (#[trigger] items[i]).visible
            &&& (next_page_of(t, page, per_page) is Some <==> page * per_page < total)
            &&& (start >= total ==> next_page_of(t, page, per_page) is None)
        }),
{
    let all = visible_newest_first(t.links);
    let start = (page - 1) * per_page;
    let end = page * per_page;
    assert(end == start + per_page) by (nonlinear_arith)
        requires
            start == (page - 1) * per_page,
            end == page * per_page,
    ;
    assert(start >= 0) by (nonlinear_arith)
        requires
            start == (page - 1) * per_page,
            page >= 1,
            per_page >= 1,
    ;
    assert(in_creation_order(t.links));
    lemma_visible_sorted(t.links);
    lemma_visible_from(t.links);
    let items = window(all, start, end);
    let lo = at_most(start, all.len() as int);
    assert forall|i: int, j: int| 0 <= i < j < items.len() implies created_before(
        #[trigger] items[j],
        #[trigger] items[i],
    ) by {
        assert(items[i] == all[lo + i]);
        assert(items[j] == all[lo + j]);
    }
    assert forall|i: int| 0 <= i < items.len() implies (#[trigger] items[i]).visible by {
        assert(items[i] == all[lo + i]);
        assert(all.contains(all[lo + i]));
    }
}

} // verus!
