use rand::distributions::DistString;
use vstd::prelude::*;

verus! {

/// Number of random characters mixed into the URL before encoding.
pub const HASH_FUDGE_LENGTH: usize = 6;

/// Number of characters in a generated hash.
pub const HASH_LENGTH: usize = 8;

/// A character that `Alphanumeric` may produce: `A-Z`, `a-z` or `0-9`.
pub open spec fn is_alphanumeric(c: char) -> bool {
    ('A' <= c && c <= 'Z') || ('a' <= c && c <= 'z') || ('0' <= c && c <= '9')
}

/// A character of the URL-safe Base64 alphabet: `A-Z`, `a-z`, `0-9`, `-`, `_`.
pub open spec fn is_url_safe(c: char) -> bool {
    is_alphanumeric(c) || c == '-' || c == '_'
}

/// A character that a generated hash may hold: `a-z`, `0-9`, `-`, `_`.
pub open spec fn is_hash_char(c: char) -> bool {
    ('a' <= c && c <= 'z') || ('0' <= c && c <= '9') || c == '-' || c == '_'
}

/// Whether every character of `s` may stand in a generated hash.
pub open spec fn is_hash_text(s: Seq<char>) -> bool {
    forall|i: int| 0 <= i < s.len() ==> is_hash_char(#[trigger] s[i])
}

/// Whether every character of `s` is ASCII.
pub open spec fn is_ascii_text(s: Seq<char>) -> bool {
    forall|i: int| 0 <= i < s.len() ==> (#[trigger] s[i] as u32) < 128
}

/// `c` with `A-Z` mapped to `a-z`.
pub open spec fn ascii_lower_char(c: char) -> char {
    if 'A' <= c && c <= 'Z' {
        ((c as u32) + 32) as char
    } else {
        c
    }
}

/// `s` with `A-Z` mapped to `a-z`.
pub open spec fn ascii_lower(s: Seq<char>) -> Seq<char> {
    s.map_values(|c: char| ascii_lower_char(c))
}

/// The Base64-URL encoding (no padding) of the UTF-8 bytes of `s`.
pub uninterp spec fn base64_url_of(s: Seq<char>) -> Seq<char>;

/// The Unicode lowercase form of `s`.
pub uninterp spec fn lower_of(s: Seq<char>) -> Seq<char>;

/// One character of a Base64 string made URL-safe: `+` becomes `-`, `/` becomes `_`.
pub open spec fn escape_char(c: char) -> char {
    if c == '+' {
        '-'
    } else if c == '/' {
        '_'
    } else {
        c
    }
}

/// A Base64 string made URL-safe: each character escaped, cut at the first `=`.
pub open spec fn escaped(s: Seq<char>) -> Seq<char>
    decreases s.len(),
{
    if s.len() == 0 {
        Seq::empty()
    } else if s[0] == '=' {
        Seq::empty()
    } else {
        seq![escape_char(s[0])] + escaped(s.drop_first())
    }
}

/// At most the first `n` characters of `s`.
pub open spec fn prefix(s: Seq<char>, n: nat) -> Seq<char> {
    if s.len() <= n {
        s
    } else {
        s.take(n as int)
    }
}

/// The hash made from the random characters `fudge` and the URL `url`.
pub open spec fn hash_from(fudge: Seq<char>, url: Seq<char>) -> Seq<char> {
    prefix(lower_of(escaped(base64_url_of(fudge + url))), HASH_LENGTH as nat)
}

/// A string of random characters that a hash may be made from.
pub open spec fn is_fudge(fudge: Seq<char>) -> bool {
    &&& fudge.len() == HASH_FUDGE_LENGTH
    &&& forall|i: int| 0 <= i < fudge.len() ==> is_alphanumeric(#[trigger] fudge[i])
}

/// Relies on rand's `Alphanumeric.sample_string`: `len` characters drawn from
/// `A-Z`, `a-z`, `0-9` with the thread-local generator.
#[verifier::external_body]
fn random_alphanumeric(len: usize) -> (r: String)
    ensures
        r@.len() == len,
        forall|i: int| 0 <= i < r@.len() ==> is_alphanumeric(#[trigger] r@[i]),
{
    rand::distributions::Alphanumeric.sample_string(&mut rand::thread_rng(), len)
}

/// Relies on `base64_url::encode`: Base64 with the URL-safe alphabet and no
/// padding, so `ceil(4n / 3)` characters for `n` bytes, and every character
/// takes at least one byte.
#[verifier::external_body]
fn encode_base64_url(s: &str) -> (r: String)
    ensures
        r@ == base64_url_of(s@),
        r@.len() >= (4 * s@.len() + 2) / 3,
        forall|i: int| 0 <= i < r@.len() ==> is_url_safe(#[trigger] r@[i]),
{
    base64_url::encode(s)
}

/// Relies on `base64_url::escape`: `+` and `/` replaced by `-` and `_`, cut at the first `=`.
#[verifier::external_body]
fn escape_base64(s: &str) -> (r: String)
    ensures
        r@ == escaped(s@),
{
    base64_url::escape(s).into_owned()
}

/// Relies on `str::to_lowercase`: the result depends on the characters alone;
/// on ASCII text it maps `A-Z` to `a-z` and keeps every other character.
#[verifier::external_body]
pub(crate) fn lowercase(s: &str) -> (r: String)
    ensures
        r@ == lower_of(s@),
        is_ascii_text(s@) ==> r@ == ascii_lower(s@),
{
    s.to_lowercase()
}

/// The first `n` characters of `s`, or all of `s` where it is shorter.
pub fn truncated(s: &str, n: usize) -> (r: String)
    ensures
        r@ == prefix(s@, n as nat),
{
    let len = s.unicode_len();
    if len <= n {
        String::from_str(s)
    } else {
        let t = s.substring_char(0, n);
        proof {
            assert(t@ =~= s@.take(n as int));
        }
        String::from_str(t)
    }
}

proof fn lemma_escape_url_safe(s: Seq<char>)
    requires
        forall|i: int| 0 <= i < s.len() ==> is_url_safe(#[trigger] s[i]),
    ensures
        escaped(s) == s,
    decreases s.len(),
{
    if s.len() > 0 {
        assert(is_url_safe(s[0]));
        let d = s.drop_first();
        assert forall|i: int| 0 <= i < d.len() implies is_url_safe(#[trigger] d[i]) by {
            assert(is_url_safe(s[i + 1]));
        }
        lemma_escape_url_safe(d);
        assert(s =~= seq![s[0]] + d);
    }
}

/// The hash made from the random characters `fudge` and the URL `url`: the two
/// joined, encoded as Base64-URL, lowercased and cut to `HASH_LENGTH`
/// characters.
pub fn hash_from_fudge(fudge: &String, url: &String) -> (r: String)
    ensures
        r@ == hash_from(fudge@, url@),
        is_hash_text(r@),
        fudge@.len() + url@.len() >= HASH_FUDGE_LENGTH ==> r@.len() == HASH_LENGTH,
{
    let fudged_url = fudge.clone().concat(url.as_str());
    let unsafe_hash = encode_base64_url(fudged_url.as_str());
    let url_safe_hash = escape_base64(unsafe_hash.as_str());
    proof {
        lemma_escape_url_safe(unsafe_hash@);
        assert(is_ascii_text(url_safe_hash@)) by {
            assert forall|i: int| 0 <= i < url_safe_hash@.len() implies (
            #[trigger] url_safe_hash@[i] as u32) < 128 by {
                assert(is_url_safe(unsafe_hash@[i]));
            }
        }
    }
    let lower = lowercase(url_safe_hash.as_str());
    let r = truncated(lower.as_str(), HASH_LENGTH);
    proof {
        assert forall|i: int| 0 <= i < r@.len() implies is_hash_char(#[trigger] r@[i]) by {
            assert(is_url_safe(unsafe_hash@[i]));
            assert(r@[i] == ascii_lower_char(unsafe_hash@[i]));
        }
    }
    r
}

/// A new hash for `url`: random characters followed by the URL, encoded as
/// Base64-URL, lowercased and cut to `HASH_LENGTH` characters.
pub fn hash_url(url: &String) -> (r: String)
    ensures
        exists|fudge: Seq<char>| is_fudge(fudge) && r@ == hash_from(fudge, url@),
        r@.len() == HASH_LENGTH,
        is_hash_text(r@),
{
    let fudge = random_alphanumeric(HASH_FUDGE_LENGTH);
    let r = hash_from_fudge(&fudge, url);
    assert(is_fudge(fudge@));
    r
}

} // verus!
