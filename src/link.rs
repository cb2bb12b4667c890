use vstd::prelude::*;

use crate::hash::{
    ascii_lower, hash_from, hash_url, is_ascii_text, is_fudge, is_hash_text, lower_of, lowercase,
    HASH_LENGTH,
};
use crate::store::{
    has_hash, has_id, hash_index, id_index, inserted, new_record, visited, with_fields, DbConn,
    Table,
};

verus! {

/// Longest title, in characters, that a link may carry.
pub const MAX_TITLE_LENGTH: usize = 255;

/// Generated hashes tried before creation gives up.
pub const MAX_HASH_ATTEMPTS: usize = 32;

/// Whether `s` parses as an absolute URL.
pub uninterp spec fn url_parses(s: Seq<char>) -> bool;

/// Relies on `url::Url::parse`: whether the text is accepted as an absolute URL.
#[verifier::external_body]
fn parses_as_url(s: &str) -> (r: bool)
    ensures
        r == url_parses(s@),
{
    url::Url::parse(s).is_ok()
}

/// A shortened link. Times are seconds since the Unix epoch.
#[derive(Debug, PartialEq, Eq)]
pub struct Link {
    pub id: i32,
    pub url: String,
    pub hash: String,
    pub visible: bool,
    pub visitors: i32,
    pub created_at: i64,
    pub expires_at: Option<i64>,
    pub title: Option<String>,
}

/// What a link holds, as mathematical values.
pub struct LinkView {
    pub id: i32,
    pub url: Seq<char>,
    pub hash: Seq<char>,
    pub visible: bool,
    pub visitors: i32,
    pub created_at: i64,
    pub expires_at: Option<i64>,
    pub title: Option<Seq<char>>,
}

pub open spec fn text_view(s: Option<String>) -> Option<Seq<char>> {
    match s {
        Some(t) => Some(t@),
        None => None,
    }
}

impl View for Link {
    type V = LinkView;

    open spec fn view(&self) -> LinkView {
        LinkView {
            id: self.id,
            url: self.url@,
            hash: self.hash@,
            visible: self.visible,
            visitors: self.visitors,
            created_at: self.created_at,
            expires_at: self.expires_at,
            title: text_view(self.title),
        }
    }
}

/// `s` with every trailing `/` removed.
pub open spec fn trim_slashes(s: Seq<char>) -> Seq<char>
    decreases s.len(),
{
    if s.len() > 0 && s.last() == '/' {
        trim_slashes(s.drop_last())
    } else {
        s
    }
}

pub open spec fn empty_url_message() -> Seq<char> {
    "URL cannot be empty"@
}

pub open spec fn invalid_url_message() -> Seq<char> {
    "Invalid URL"@
}

pub open spec fn long_title_message() -> Seq<char> {
    "Title cannot be over 255 characters"@
}

/// Every rule that a link with this URL and title breaks, in order.
pub open spec fn validation_errors(url: Seq<char>, title: Option<Seq<char>>) -> Seq<Seq<char>> {
    let url_errors = if url.len() == 0 {
        seq![empty_url_message()]
    } else if !url_parses(url) {
        seq![invalid_url_message()]
    } else {
        Seq::empty()
    };
    let title_errors = match title {
        Some(t) => if t.len() > MAX_TITLE_LENGTH {
            seq![long_title_message()]
        } else {
            Seq::empty()
        },
        None => Seq::empty(),
    };
    url_errors + title_errors
}

/// Whether a link with this URL and title may be stored.
pub open spec fn is_valid(url: Seq<char>, title: Option<Seq<char>>) -> bool {
    validation_errors(url, title).len() == 0
}

/// The messages joined by `", "`.
pub open spec fn join_messages(msgs: Seq<Seq<char>>) -> Seq<char>
    decreases msgs.len(),
{
    if msgs.len() == 0 {
        Seq::empty()
    } else if msgs.len() == 1 {
        msgs[0]
    } else {
        join_messages(msgs.drop_last()) + ", "@ + msgs.last()
    }
}

pub open spec fn views_of(v: Seq<String>) -> Seq<Seq<char>> {
    v.map_values(|s: String| s@)
}

/// Why an operation on links did not go through.
#[derive(Debug, PartialEq, Eq)]
pub enum LinkError {
    /// The URL or the title breaks a rule; the message lists every rule broken.
    ValidationFailed(String),
    /// The requested custom hash is already in use.
    AliasTaken,
    /// No unused hash came out of the allowed number of attempts.
    HashExhausted,
    /// No link has that id or hash, or the link has expired.
    NotFound,
    /// The table refused the write.
    StorageFailure,
}

impl LinkError {
    /// The text shown to a client for this error.
    pub fn message(&self) -> (r: String)
        ensures
            self matches LinkError::ValidationFailed(m) ==> r@ == m@,
            self is AliasTaken ==> r@ == "URL has already been taken"@,
            self is HashExhausted ==> r@ == "No free hash could be found"@,
            self is NotFound ==> r@ == "Link not found"@,
            self is StorageFailure ==> r@ == "The link could not be stored"@,
    {
        match self {
            LinkError::ValidationFailed(m) => m.clone(),
            LinkError::AliasTaken => String::from_str("URL has already been taken"),
            LinkError::HashExhausted => String::from_str("No free hash could be found"),
            LinkError::NotFound => String::from_str("Link not found"),
            LinkError::StorageFailure => String::from_str("The link could not be stored"),
        }
    }
}

/// `url` without its trailing slashes.
pub fn trim_trailing_slashes(url: &str) -> (r: String)
    ensures
        r@ == trim_slashes(url@),
{
    let mut end = url.unicode_len();
    assert(url@.take(end as int) =~= url@);
    while end > 0 && url.get_char(end - 1) == '/'
        invariant
            end <= url@.len(),
            trim_slashes(url@) == trim_slashes(url@.take(end as int)),
        decreases end,
    {
        proof {
            assert(url@.take(end as int).drop_last() =~= url@.take(end - 1));
        }
        end = end - 1;
    }
    proof {
        assert(url@.take(end as int) =~= url@.subrange(0, end as int));
    }
    String::from_str(url.substring_char(0, end))
}

/// The messages joined by `", "`.
pub fn join_errors(msgs: &Vec<String>) -> (r: String)
    ensures
        r@ == join_messages(views_of(msgs@)),
{
    let mut r = String::new();
    let mut i: usize = 0;
    while i < msgs.len()
        invariant
            i <= msgs@.len(),
            r@ == join_messages(views_of(msgs@).take(i as int)),
        decreases msgs@.len() - i,
    {
        proof {
            let t = views_of(msgs@).take(i + 1);
            assert(t.drop_last() =~= views_of(msgs@).take(i as int));
        }
        if i > 0 {
            r.append(", ");
        }
        r.append(msgs[i].as_str());
        i = i + 1;
        proof {
            assert(views_of(msgs@).take(i as int).last() == msgs@[i - 1]@);
            if i == 1 {
                assert(join_messages(views_of(msgs@).take(0)) =~= Seq::<char>::empty());
                assert(r@ =~= msgs@[0]@);
            }
        }
    }
    assert(views_of(msgs@).take(i as int) =~= views_of(msgs@));
    r
}

pub fn copy_text(s: &Option<String>) -> (r: Option<String>)
    ensures
        text_view(r) == text_view(*s),
{
    match s {
        Some(t) => Some(t.clone()),
        None => None,
    }
}

impl Clone for Link {
    fn clone(&self) -> (r: Self)
        ensures
            r@ == self@,
    {
        Link {
            id: self.id,
            url: self.url.clone(),
            hash: self.hash.clone(),
            visible: self.visible,
            visitors: self.visitors,
            created_at: self.created_at,
            expires_at: self.expires_at,
            title: copy_text(&self.title),
        }
    }
}

impl Link {
    /// Every rule that a link with this URL and title breaks, each as a message.
    pub fn validate(url: &String, title: &Option<String>) -> (r: Vec<String>)
        ensures
            views_of(r@) == validation_errors(url@, text_view(*title)),
    {
        let mut errors: Vec<String> = Vec::new();
        if url.as_str().unicode_len() == 0 {
            errors.push(String::from_str("URL cannot be empty"));
        } else if !parses_as_url(url.as_str()) {
            errors.push(String::from_str("Invalid URL"));
        }
        match title {
            Some(t) => {
                if t.as_str().unicode_len() > MAX_TITLE_LENGTH {
                    errors.push(String::from_str("Title cannot be over 255 characters"));
                }
            },
            None => {},
        }
        proof {
            let u = url@;
            let want = validation_errors(u, text_view(*title));
            assert(views_of(errors@) =~= want);
        }
        errors
    }
}

/// Whether `l` has expired at time `now`: its expiry lies in the past.
pub open spec fn is_expired(l: LinkView, now: i64) -> bool {
    match l.expires_at {
        Some(e) => e < now,
        None => false,
    }
}

/// Whether a lookup of `h` at time `now` serves a link.
pub open spec fn servable(t: Table, h: Seq<char>, now: i64) -> bool {
    has_hash(t.links, h) && !is_expired(t.links[hash_index(t.links, h)], now)
}

/// The table after a lookup of `h` at time `now`: the served link counted once more.
pub open spec fn after_resolve(t: Table, h: Seq<char>, now: i64) -> Table {
    if servable(t, h, now) {
        let i = hash_index(t.links, h);
        Table { links: t.links.update(i, visited(t.links[i])), ..t }
    } else {
        t
    }
}

impl Link {
    /// The link with id `id`.
    pub fn find(id: i32, conn: &DbConn) -> (r: Result<Link, LinkError>)
        requires
            conn.wf(),
        ensures
            match r {
                Ok(l) => has_id(conn@.links, id) && l@ == conn@.links[id_index(conn@.links, id)],
                Err(e) => !has_id(conn@.links, id) && e is NotFound,
            },
    {
        match conn.position_of_id(id) {
            Some(i) => Ok(conn.get(i).clone()),
            None => Err(LinkError::NotFound),
        }
    }

    /// The link whose hash is exactly `hash`.
    pub fn find_by_hash(hash: String, conn: &DbConn) -> (r: Result<Link, LinkError>)
        requires
            conn.wf(),
        ensures
            match r {
                Ok(l) => has_hash(conn@.links, hash@) && l@ == conn@.links[hash_index(
                    conn@.links,
                    hash@,
                )],
                Err(e) => !has_hash(conn@.links, hash@) && e is NotFound,
            },
    {
        match conn.position_of_hash(&hash) {
            Some(i) => Ok(conn.get(i).clone()),
            None => Err(LinkError::NotFound),
        }
    }

    /// Adds one visit to the stored record of this link, in one step on the
    /// table; false where there is no such record or its counter is full.
    pub fn increment_visitors(&self, conn: &mut DbConn) -> (r: bool)
        requires
            old(conn).wf(),
        ensures
            final(conn).wf(),
            r == (has_id(old(conn)@.links, self.id) && old(conn)@.links[id_index(
                old(conn)@.links,
                self.id,
            )].visitors < i32::MAX),
            has_id(old(conn)@.links, self.id) ==> final(conn)@ == (Table {
                links: old(conn)@.links.update(
                    id_index(old(conn)@.links, self.id),
                    visited(old(conn)@.links[id_index(old(conn)@.links, self.id)]),
                ),
                ..old(conn)@
            }),
            !has_id(old(conn)@.links, self.id) ==> final(conn)@ == old(conn)@,
    {
        match conn.position_of_id(self.id) {
            Some(i) => conn.increment_visitors_at(i),
            None => false,
        }
    }

    /// Removes the stored record of this link; false where there is none.
    pub fn delete(self, conn: &mut DbConn) -> (r: bool)
        requires
            old(conn).wf(),
        ensures
            final(conn).wf(),
            r == has_id(old(conn)@.links, self.id),
            r ==> final(conn)@ == (Table {
                links: old(conn)@.links.remove(id_index(old(conn)@.links, self.id)),
                ..old(conn)@
            }),
            !r ==> final(conn)@ == old(conn)@,
    {
        match conn.position_of_id(self.id) {
            Some(i) => {
                conn.remove_at(i);
                true
            },
            None => false,
        }
    }

    /// Removes every link and says how many there were.
    pub fn delete_all(conn: &mut DbConn) -> (r: usize)
        requires
            old(conn).wf(),
        ensures
            final(conn).wf(),
            r == old(conn)@.links.len(),
            final(conn)@ == (Table { links: Seq::empty(), ..old(conn)@ }),
    {
        conn.clear()
    }

    /// Writes this link's visibility, expiration and title to its stored
    /// record; the other fields of the record stay as stored.
    pub fn save(self, conn: &mut DbConn) -> (r: Result<Link, LinkError>)
        requires
            old(conn).wf(),
        ensures
            final(conn).wf(),
            !has_id(old(conn)@.links, self.id) ==> (r matches Err(LinkError::NotFound)
                && final(conn)@ == old(conn)@),
            has_id(old(conn)@.links, self.id) ==> ({
                let i = id_index(old(conn)@.links, self.id);
                let stored = old(conn)@.links[i];
                if is_valid(stored.url, self@.title) {
                    let updated = with_fields(stored, self.visible, self.expires_at, self@.title);
                    r matches Ok(l) && l@ == updated && final(conn)@ == (Table {
                        links: old(conn)@.links.update(i, updated),
                        ..old(conn)@
                    })
                } else {
                    r matches Err(LinkError::ValidationFailed(m)) && m@ == join_messages(
                        validation_errors(stored.url, self@.title),
                    ) && final(conn)@ == old(conn)@
                }
            }),
    {
        match conn.position_of_id(self.id) {
            None => Err(LinkError::NotFound),
            Some(i) => {
                let errors = Link::validate(&conn.get(i).url, &self.title);
                if errors.len() > 0 {
                    return Err(LinkError::ValidationFailed(join_errors(&errors)));
                }
                Ok(conn.update_at(i, self.visible, self.expires_at, self.title))
            },
        }
    }

    /// The short URL of this link under the redirect origin `origin`.
    pub fn redirect_url(&self, origin: &str) -> (r: String)
        ensures
            r@ == origin@ + "/"@ + self.hash@,
    {
        let mut r = String::from_str(origin);
        r.append("/");
        r.append(self.hash.as_str());
        r
    }
}

impl Link {
    /// Creates a link. The URL loses its trailing slashes. Then the custom
    /// hash is taken if it is free, or generated hashes are tried until one
    /// is free; then the URL and title are checked; then the record is stored.
    pub fn insert(
        url: String,
        visible: bool,
        custom_hash: Option<String>,
        title: Option<String>,
        expires_at: Option<i64>,
        now: i64,
        conn: &mut DbConn,
    ) -> (r: Result<Link, LinkError>)
        requires
            old(conn).wf(),
        ensures
            final(conn).wf(),
            ({
                let u = trim_slashes(url@);
                let t = text_view(title);
                let old_t = old(conn)@;
                match custom_hash {
                    Some(c) => if has_hash(old_t.links, c@) {
                        r matches Err(LinkError::AliasTaken) && final(conn)@ == old_t
                    } else if !is_valid(u, t) {
                        r matches Err(LinkError::ValidationFailed(m)) && m@ == join_messages(
                            validation_errors(u, t),
                        ) && final(conn)@ == old_t
                    } else if old_t.next_id == i32::MAX {
                        r matches Err(LinkError::StorageFailure) && final(conn)@ == old_t
                    } else {
                        r matches Ok(l) && l@ == new_record(
                            old_t.next_id,
                            u,
                            c@,
                            visible,
                            now,
                            expires_at,
                            t,
                        ) && inserted(old_t, final(conn)@, l@)
                    },
                    None => {
                        &&& match r {
                            Ok(l) => {
                                &&& is_valid(u, t)
                                &&& l@ == new_record(
                                    old_t.next_id,
                                    u,
                                    l.hash@,
                                    visible,
                                    now,
                                    expires_at,
                                    t,
                                )
                                &&& l.hash@.len() == HASH_LENGTH
                                &&& is_hash_text(l.hash@)
                                &&& !has_hash(old_t.links, l.hash@)
                                &&& exists|f: Seq<char>| is_fudge(f) && l.hash@ == hash_from(f, u)
                                &&& inserted(old_t, final(conn)@, l@)
                            },
                            Err(e) => final(conn)@ == old_t && match e {
                                LinkError::HashExhausted => exists|f: Seq<char>|
                                    is_fudge(f) && has_hash(old_t.links, hash_from(f, u)),
                                LinkError::ValidationFailed(m) => !is_valid(u, t) && m@
                                    == join_messages(validation_errors(u, t)),
                                LinkError::StorageFailure => is_valid(u, t) && old_t.next_id
                                    == i32::MAX,
                                _ => false,
                            },
                        }
                        &&& (forall|f: Seq<char>|
                            is_fudge(f) ==> !has_hash(old_t.links, #[trigger] hash_from(f, u)))
                            ==> if !is_valid(u, t) {
                            r matches Err(LinkError::ValidationFailed(_))
                        } else if old_t.next_id == i32::MAX {
                            r matches Err(LinkError::StorageFailure)
                        } else {
                            r is Ok
                        }
                    },
                }
            }),
    {
        let trimmed_url = trim_trailing_slashes(url.as_str());
        let ghost old_t = conn@;
        let hash = match custom_hash {
            Some(hash) => {
                if conn.position_of_hash(&hash).is_some() {
                    return Err(LinkError::AliasTaken);
                }
                hash
            },
            None => {
                let mut chosen: Option<String> = None;
                let mut attempt: usize = 0;
                while chosen.is_none() && attempt < MAX_HASH_ATTEMPTS
                    invariant
                        conn.wf(),
                        conn@ == old_t,
                        attempt <= MAX_HASH_ATTEMPTS,
                        chosen matches Some(h) ==> {
                            &&& !has_hash(conn@.links, h@)
                            &&& h@.len() == HASH_LENGTH
                            &&& is_hash_text(h@)
                            &&& exists|f: Seq<char>| is_fudge(f) && h@ == hash_from(f, trimmed_url@)
                        },
                        chosen is None && attempt > 0 ==> exists|f: Seq<char>|
                            is_fudge(f) && has_hash(conn@.links, hash_from(f, trimmed_url@)),
                    decreases MAX_HASH_ATTEMPTS - attempt,
                {
                    let candidate = hash_url(&trimmed_url);
                    if conn.position_of_hash(&candidate).is_none() {
                        chosen = Some(candidate);
                    } else {
                        proof {
                            let f = choose|f: Seq<char>|
                                is_fudge(f) && candidate@ == hash_from(f, trimmed_url@);
                            assert(has_hash(conn@.links, hash_from(f, trimmed_url@)));
                        }
                    }
                    attempt = attempt + 1;
                }
                match chosen {
                    Some(hash) => hash,
                    None => {
                        return Err(LinkError::HashExhausted);
                    },
                }
            },
        };
        let errors = Link::validate(&trimmed_url, &title);
        if errors.len() > 0 {
            return Err(LinkError::ValidationFailed(join_errors(&errors)));
        }
        conn.insert(trimmed_url, hash, visible, now, expires_at, title)
    }

    /// Serves the link whose hash is `hash` lowercased, counting the visit.
    /// An expired link is not served. A visit counter that is full stays as
    /// it is and the link is still served.
    pub fn resolve(hash: &str, now: i64, conn: &mut DbConn) -> (r: Result<Link, LinkError>)
        requires
            old(conn).wf(),
        ensures
            final(conn).wf(),
            final(conn)@ == after_resolve(old(conn)@, lower_of(hash@), now),
            is_ascii_text(hash@) ==> lower_of(hash@) == ascii_lower(hash@),
            match r {
                Ok(l) => servable(old(conn)@, lower_of(hash@), now)
                    && l@ == final(conn)@.links[hash_index(old(conn)@.links, lower_of(hash@))],
                Err(e) => !servable(old(conn)@, lower_of(hash@), now) && e is NotFound,
            },
    {
        let h = lowercase(hash);
        match conn.position_of_hash(&h) {
            None => Err(LinkError::NotFound),
            Some(i) => {
                let expired = match conn.get(i).expires_at {
                    Some(e) => e < now,
                    None => false,
                };
                if expired {
                    return Err(LinkError::NotFound);
                }
                let _ = conn.increment_visitors_at(i);
                Ok(conn.get(i).clone())
            },
        }
    }
}

} // verus!
