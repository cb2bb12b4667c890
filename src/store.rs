use vstd::prelude::*;

use crate::link::{is_valid, text_view, Link, LinkError, LinkView};

verus! {

/// The links table as mathematical values: the records, kept in order of
/// creation time and then id, and the id that the next record will get.
pub struct Table {
    pub links: Seq<LinkView>,
    pub next_id: int,
}

/// Whether `a` was created before `b`: earlier time, or the same time and a smaller id.
pub open spec fn created_before(a: LinkView, b: LinkView) -> bool {
    a.created_at < b.created_at || (a.created_at == b.created_at && a.id < b.id)
}

/// What every stored record satisfies.
pub open spec fn record_ok(l: LinkView) -> bool {
    &&& is_valid(l.url, l.title)
    &&& l.visitors >= 0
    &&& l.id >= 1
}

/// The table's invariant: valid records, unique ids and hashes, ids below
/// `next_id`, records ordered by creation.
pub open spec fn table_wf(t: Table) -> bool {
    &&& 1 <= t.next_id <= i32::MAX
    &&& t.links.len() < t.next_id
    &&& forall|i: int|
        0 <= i < t.links.len() ==> record_ok(#[trigger] t.links[i]) && t.links[i].id < t.next_id
    &&& forall|i: int, j: int|
        0 <= i < j < t.links.len() ==> created_before(#[trigger] t.links[i], #[trigger] t.links[j])
    &&& forall|i: int, j: int|
        0 <= i < t.links.len() && 0 <= j < t.links.len() && i != j ==> #[trigger] t.links[i].hash
            != #[trigger] t.links[j].hash
    &&& forall|i: int, j: int|
        0 <= i < t.links.len() && 0 <= j < t.links.len() && i != j ==> #[trigger] t.links[i].id
            != #[trigger] t.links[j].id
}

/// Whether some record has hash `h`.
pub open spec fn has_hash(s: Seq<LinkView>, h: Seq<char>) -> bool {
    exists|i: int| 0 <= i < s.len() && #[trigger] s[i].hash == h
}

/// Whether some record has id `id`.
pub open spec fn has_id(s: Seq<LinkView>, id: i32) -> bool {
    exists|i: int| 0 <= i < s.len() && #[trigger] s[i].id == id
}

/// The position of the record with hash `h`, where there is one.
pub open spec fn hash_index(s: Seq<LinkView>, h: Seq<char>) -> int {
    choose|i: int| 0 <= i < s.len() && #[trigger] s[i].hash == h
}

/// The position of the record with id `id`, where there is one.
pub open spec fn id_index(s: Seq<LinkView>, id: i32) -> int {
    choose|i: int| 0 <= i < s.len() && #[trigger] s[i].id == id
}

/// A record as it is first stored: no visits yet.
pub open spec fn new_record(
    id: int,
    url: Seq<char>,
    hash: Seq<char>,
    visible: bool,
    created_at: i64,
    expires_at: Option<i64>,
    title: Option<Seq<char>>,
) -> LinkView {
    LinkView { id: id as i32, url, hash, visible, visitors: 0, created_at, expires_at, title }
}

/// `new` is `old` with the record `l` added and the next id moved on.
pub open spec fn inserted(old: Table, new: Table, l: LinkView) -> bool {
    &&& new.next_id == old.next_id + 1
    &&& exists|p: int| 0 <= p <= old.links.len() && new.links == old.links.insert(p, l)
}

/// `l` counted once more, where the counter has room.
pub open spec fn visited(l: LinkView) -> LinkView {
    if l.visitors < i32::MAX {
        LinkView { visitors: (l.visitors + 1) as i32, ..l }
    } else {
        l
    }
}

/// Hash and id identify a record in a well-formed table.
pub proof fn lemma_unique_positions(t: Table, i: int)
    requires
        table_wf(t),
        0 <= i < t.links.len(),
    ensures
        has_hash(t.links, t.links[i].hash),
        hash_index(t.links, t.links[i].hash) == i,
        has_id(t.links, t.links[i].id),
        id_index(t.links, t.links[i].id) == i,
{
    assert(t.links[i].hash == t.links[i].hash);
    assert(t.links[i].id == t.links[i].id);
}

/// The links table, held in memory.
pub struct DbConn {
    links: Vec<Link>,
    next_id: i32,
}

impl View for DbConn {
    type V = Table;

    closed spec fn view(&self) -> Table {
        Table { links: self.links@.map_values(|l: Link| l@), next_id: self.next_id as int }
    }
}

impl DbConn {
    pub open spec fn wf(&self) -> bool {
        table_wf(self@)
    }

    /// An empty table whose first record will get id 1.
    pub fn new() -> (r: DbConn)
        ensures
            r.wf(),
            r@.links.len() == 0,
            r@.next_id == 1,
    {
        let r = DbConn { links: Vec::new(), next_id: 1 };
        assert(r@.links =~= Seq::<LinkView>::empty());
        r
    }

    /// Number of records.
    pub fn len(&self) -> (r: usize)
        ensures
            r == self@.links.len(),
    {
        self.links.len()
    }

    /// The record at position `i`.
    pub fn get(&self, i: usize) -> (r: &Link)
        requires
            i < self@.links.len(),
        ensures
            r@ == self@.links[i as int],
    {
        &self.links[i]
    }

    /// The position of the record whose hash is `h`.
    pub fn position_of_hash(&self, h: &String) -> (r: Option<usize>)
        requires
            self.wf(),
        ensures
            r == (if has_hash(self@.links, h@) {
                Some(hash_index(self@.links, h@) as usize)
            } else {
                None::<usize>
            }),
    {
        let mut i: usize = 0;
        while i < self.links.len()
            invariant
                self.wf(),
                i <= self@.links.len(),
                self@.links.len() == self.links@.len(),
                forall|k: int| 0 <= k < i ==> self@.links[k].hash != h@,
            decreases self.links@.len() - i,
        {
            if self.links[i].hash.eq(h) {
                proof {
                    lemma_unique_positions(self@, i as int);
                }
                return Some(i);
            }
            i = i + 1;
        }
        None
    }

    /// The position of the record whose id is `id`.
    pub fn position_of_id(&self, id: i32) -> (r: Option<usize>)
        requires
            self.wf(),
        ensures
            r == (if has_id(self@.links, id) {
                Some(id_index(self@.links, id) as usize)
            } else {
                None::<usize>
            }),
    {
        let mut i: usize = 0;
        while i < self.links.len()
            invariant
                self.wf(),
                i <= self@.links.len(),
                self@.links.len() == self.links@.len(),
                forall|k: int| 0 <= k < i ==> self@.links[k].id != id,
            decreases self.links@.len() - i,
        {
            if self.links[i].id == id {
                proof {
                    lemma_unique_positions(self@, i as int);
                }
                return Some(i);
            }
            i = i + 1;
        }
        None
    }
}

impl DbConn {
    /// Stores a new record under the next id. The table itself refuses a hash
    /// that is already in use, and refuses the record when no id is left.
    pub fn insert(
        &mut self,
        url: String,
        hash: String,
        visible: bool,
        created_at: i64,
        expires_at: Option<i64>,
        title: Option<String>,
    ) -> (r: Result<Link, LinkError>)
        requires
            old(self).wf(),
            is_valid(url@, text_view(title)),
        ensures
            final(self).wf(),
            if has_hash(old(self)@.links, hash@) || old(self)@.next_id == i32::MAX {
                r matches Err(LinkError::StorageFailure) && final(self)@ == old(self)@
            } else {
                r matches Ok(l) && l@ == new_record(
                    old(self)@.next_id,
                    url@,
                    hash@,
                    visible,
                    created_at,
                    expires_at,
                    text_view(title),
                ) && inserted(old(self)@, final(self)@, l@)
            },
    {
        if self.position_of_hash(&hash).is_some() || self.next_id == i32::MAX {
            return Err(LinkError::StorageFailure);
        }
        let link = Link {
            id: self.next_id,
            url,
            hash,
            visible,
            visitors: 0,
            created_at,
            expires_at,
            title,
        };
        let ghost old_t = self@;
        let ghost l = link@;
        let mut k: usize = self.links.len();
        while k > 0 && self.links[k - 1].created_at > created_at
            invariant
                self@ == old_t,
                table_wf(old_t),
                self.links@.len() == old_t.links.len(),
                k <= old_t.links.len(),
                forall|i: int| k <= i < old_t.links.len() ==> old_t.links[i].created_at > created_at,
            decreases k,
        {
            k = k - 1;
        }
        proof {
            assert forall|i: int| 0 <= i < k implies old_t.links[i].created_at <= created_at by {
                if i < k - 1 {
                    assert(created_before(old_t.links[i], old_t.links[k - 1]));
                }
            }
        }
        let result = link.clone();
        self.links.insert(k, link);
        self.next_id = self.next_id + 1;
        proof {
            let t = self@;
            let want = old_t.links.insert(k as int, l);
            assert(t.links =~= want);
            assert forall|i: int, j: int| 0 <= i < j < t.links.len() implies created_before(
                #[trigger] t.links[i],
                #[trigger] t.links[j],
            ) by {
                if j < k {
                } else if j == k {
                } else if i < k {
                    assert(created_before(old_t.links[i], old_t.links[j - 1]));
                } else if i == k {
                } else {
                    assert(created_before(old_t.links[i - 1], old_t.links[j - 1]));
                }
            }
            assert forall|i: int, j: int|
                0 <= i < t.links.len() && 0 <= j < t.links.len() && i != j implies #[trigger] t.links[i].hash
                != #[trigger] t.links[j].hash by {
                let oi = if i < k { i } else { i - 1 };
                let oj = if j < k { j } else { j - 1 };
                if i != k && j != k {
                    assert(old_t.links[oi].hash != old_t.links[oj].hash);
                } else if i == k {
                    assert(old_t.links[oj].hash == t.links[j].hash);
                } else {
                    assert(old_t.links[oi].hash == t.links[i].hash);
                }
            }
            assert forall|i: int, j: int|
                0 <= i < t.links.len() && 0 <= j < t.links.len() && i != j implies #[trigger] t.links[i].id
                != #[trigger] t.links[j].id by {
                let oi = if i < k { i } else { i - 1 };
                let oj = if j < k { j } else { j - 1 };
                if i != k && j != k {
                    assert(old_t.links[oi].id != old_t.links[oj].id);
                } else if i == k {
                    assert(old_t.links[oj].id < old_t.next_id);
                } else {
                    assert(old_t.links[oi].id < old_t.next_id);
                }
            }
            assert forall|i: int| 0 <= i < t.links.len() implies record_ok(#[trigger] t.links[i])
                && t.links[i].id < t.next_id by {
                if i < k {
                    assert(record_ok(old_t.links[i]));
                } else if i > k {
                    assert(record_ok(old_t.links[i - 1]));
                }
            }
            assert(inserted(old_t, t, l));
        }
        Ok(result)
    }
}

/// `l` with new visibility, expiration and title.
pub open spec fn with_fields(
    l: LinkView,
    visible: bool,
    expires_at: Option<i64>,
    title: Option<Seq<char>>,
) -> LinkView {
    LinkView { visible, expires_at, title, ..l }
}

impl DbConn {
    /// Adds one visit to the record at position `i` in a single step, unless
    /// its counter is full; says whether it did.
    pub fn increment_visitors_at(&mut self, i: usize) -> (r: bool)
        requires
            old(self).wf(),
            i < old(self)@.links.len(),
        ensures
            final(self).wf(),
            r == (old(self)@.links[i as int].visitors < i32::MAX),
            final(self)@ == (Table {
                links: old(self)@.links.update(i as int, visited(old(self)@.links[i as int])),
                ..old(self)@
            }),
    {
        let ghost old_t = self@;
        if self.links[i].visitors == i32::MAX {
            assert(old_t.links.update(i as int, visited(old_t.links[i as int])) =~= old_t.links);
            return false;
        }
        let mut link = self.links.remove(i);
        link.visitors = link.visitors + 1;
        self.links.insert(i, link);
        proof {
            let t = self@;
            assert(t.links =~= old_t.links.update(i as int, visited(old_t.links[i as int])));
            assert forall|a: int, b: int| 0 <= a < b < t.links.len() implies created_before(
                #[trigger] t.links[a],
                #[trigger] t.links[b],
            ) by {
                assert(created_before(old_t.links[a], old_t.links[b]));
            }
            assert forall|a: int, b: int|
                0 <= a < t.links.len() && 0 <= b < t.links.len() && a != b implies #[trigger] t.links[a].hash
                != #[trigger] t.links[b].hash by {
                assert(old_t.links[a].hash != old_t.links[b].hash);
            }
            assert forall|a: int, b: int|
                0 <= a < t.links.len() && 0 <= b < t.links.len() && a != b implies #[trigger] t.links[a].id
                != #[trigger] t.links[b].id by {
                assert(old_t.links[a].id != old_t.links[b].id);
            }
            assert forall|a: int| 0 <= a < t.links.len() implies record_ok(#[trigger] t.links[a])
                && t.links[a].id < t.next_id by {
                assert(record_ok(old_t.links[a]));
            }
        }
        true
    }

    /// Sets visibility, expiration and title of the record at position `i`.
    pub fn update_at(
        &mut self,
        i: usize,
        visible: bool,
        expires_at: Option<i64>,
        title: Option<String>,
    ) -> (r: Link)
        requires
            old(self).wf(),
            i < old(self)@.links.len(),
            is_valid(old(self)@.links[i as int].url, text_view(title)),
        ensures
            final(self).wf(),
            final(self)@ == (Table {
                links: old(self)@.links.update(
                    i as int,
                    with_fields(old(self)@.links[i as int], visible, expires_at, text_view(title)),
                ),
                ..old(self)@
            }),
            r@ == final(self)@.links[i as int],
    {
        let ghost old_t = self@;
        let mut link = self.links.remove(i);
        link.visible = visible;
        link.expires_at = expires_at;
        link.title = title;
        let result = link.clone();
        self.links.insert(i, link);
        proof {
            let t = self@;
            assert(t.links =~= old_t.links.update(
                i as int,
                with_fields(old_t.links[i as int], visible, expires_at, text_view(title)),
            ));
            assert forall|a: int, b: int| 0 <= a < b < t.links.len() implies created_before(
                #[trigger] t.links[a],
                #[trigger] t.links[b],
            ) by {
                assert(created_before(old_t.links[a], old_t.links[b]));
            }
            assert forall|a: int, b: int|
                0 <= a < t.links.len() && 0 <= b < t.links.len() && a != b implies #[trigger] t.links[a].hash
                != #[trigger] t.links[b].hash by {
                assert(old_t.links[a].hash != old_t.links[b].hash);
            }
            assert forall|a: int, b: int|
                0 <= a < t.links.len() && 0 <= b < t.links.len() && a != b implies #[trigger] t.links[a].id
                != #[trigger] t.links[b].id by {
                assert(old_t.links[a].id != old_t.links[b].id);
            }
            assert forall|a: int| 0 <= a < t.links.len() implies record_ok(#[trigger] t.links[a])
                && t.links[a].id < t.next_id by {
                assert(record_ok(old_t.links[a]));
            }
        }
        result
    }

    /// Removes the record at position `i`.
    pub fn remove_at(&mut self, i: usize)
        requires
            old(self).wf(),
            i < old(self)@.links.len(),
        ensures
            final(self).wf(),
            final(self)@ == (Table { links: old(self)@.links.remove(i as int), ..old(self)@ }),
    {
        let ghost old_t = self@;
        let _ = self.links.remove(i);
        proof {
            let t = self@;
            assert(t.links =~= old_t.links.remove(i as int));
            assert forall|a: int, b: int| 0 <= a < b < t.links.len() implies created_before(
                #[trigger] t.links[a],
                #[trigger] t.links[b],
            ) by {
                let oa = if a < i { a } else { a + 1 };
                let ob = if b < i { b } else { b + 1 };
                assert(created_before(old_t.links[oa], old_t.links[ob]));
            }
            assert forall|a: int, b: int|
                0 <= a < t.links.len() && 0 <= b < t.links.len() && a != b implies #[trigger] t.links[a].hash
                != #[trigger] t.links[b].hash by {
                let oa = if a < i { a } else { a + 1 };
                let ob = if b < i { b } else { b + 1 };
                assert(old_t.links[oa].hash != old_t.links[ob].hash);
            }
            assert forall|a: int, b: int|
                0 <= a < t.links.len() && 0 <= b < t.links.len() && a != b implies #[trigger] t.links[a].id
                != #[trigger] t.links[b].id by {
                let oa = if a < i { a } else { a + 1 };
                let ob = if b < i { b } else { b + 1 };
                assert(old_t.links[oa].id != old_t.links[ob].id);
            }
            assert forall|a: int| 0 <= a < t.links.len() implies record_ok(#[trigger] t.links[a])
                && t.links[a].id < t.next_id by {
                let oa = if a < i { a } else { a + 1 };
                assert(record_ok(old_t.links[oa]));
            }
        }
    }

    /// Removes every record and says how many there were. Ids are not reused.
    pub fn clear(&mut self) -> (r: usize)
        requires
            old(self).wf(),
        ensures
            final(self).wf(),
            r == old(self)@.links.len(),
            final(self)@ == (Table { links: Seq::empty(), ..old(self)@ }),
    {
        let n = self.links.len();
        self.links.clear();
        assert(self@.links =~= Seq::<LinkView>::empty());
        n
    }
}

} // verus!
