//! Feed URL normalisation and the feed cache's naming and read/fetch decisions.
use vstd::prelude::*;
use crate::text::{chars_of, flat_map_chars, has_prefix_at, lemma_flat_map_push, push_char,
    push_str, string_from};

verus! {

/// `url` with a leading `webcal://` replaced by `https://`; any other URL as is.
pub open spec fn normalized_url(url: Seq<char>) -> Seq<char> {
    if url.len() >= 9 && url.take(9) == "webcal://"@ {
        "https://"@ + url.skip(9)
    } else {
        url
    }
}

/// `webcal://` is the calendar-subscription scheme used by iCloud/Google/etc.;
/// it is plain HTTPS over the wire. Rewrite it so feed URLs paste in as-is.
pub fn normalize_url(url: &str) -> (r: String)
    ensures
        r@ == normalized_url(url@),
{
    let v = chars_of(url);
    let p = chars_of("webcal://");
    proof {
        reveal_strlit("webcal://");
        reveal_strlit("https://");
    }
    if has_prefix_at(&v, 0, &p) {
        let mut out = String::new();
        push_str(&mut out, "https://");
        let rest = string_from(&v, 9, v.len());
        push_str(&mut out, rest.as_str());
        assert(v@.take(9) == v@.subrange(0, 9));
        assert(v@.skip(9) == v@.subrange(9, v@.len() as int));
        out
    } else {
        assert(!(v@.len() >= 9 && v@.take(9) == "webcal://"@)) by {
            if v@.len() >= 9 {
                assert(v@.take(9) == v@.subrange(0, 9));
            }
        }
        string_from(&v, 0, v.len())
    }
}

/// ASCII letters and digits.
pub open spec fn ascii_alnum(c: char) -> bool {
    ('a' <= c && c <= 'z') || ('A' <= c && c <= 'Z') || ('0' <= c && c <= '9')
}

/// What `slug` writes for one character: ASCII letters and digits in lower
/// case, anything else as `-`.
pub open spec fn slug_char(c: char) -> char {
    if 'A' <= c && c <= 'Z' {
        ((c as u8) + 32) as char
    } else if ascii_alnum(c) {
        c
    } else {
        '-'
    }
}

/// The slug of a feed name: one character of output per character of input.
pub open spec fn slugged(name: Seq<char>) -> Seq<char> {
    flat_map_chars(name, |c: char| seq![slug_char(c)])
}

/// A slug is filesystem-safe: every character is a lower-case ASCII letter,
/// a digit, or `-`, one per character of the name.
pub proof fn law_slug_safe(name: Seq<char>)
    ensures
        slugged(name).len() == name.len(),
        forall|i: int| 0 <= i < slugged(name).len() ==> {
            let c = #[trigger] slugged(name)[i];
            ('a' <= c && c <= 'z') || ('0' <= c && c <= '9') || c == '-'
        },
    decreases name.len(),
{
    if name.len() > 0 {
        law_slug_safe(name.drop_last());
        let c = name.last();
        let rest = slugged(name.drop_last());
        assert(slugged(name) == rest + seq![slug_char(c)]);
        assert forall|i: int| 0 <= i < slugged(name).len() implies {
            let c = #[trigger] slugged(name)[i];
            ('a' <= c && c <= 'z') || ('0' <= c && c <= '9') || c == '-'
        } by {
            if i < rest.len() {
                assert(slugged(name)[i] == rest[i]);
            } else {
                let u = c as u8;
                if 'A' <= c && c <= 'Z' {
                    assert(65 <= u && u <= 90);
                    assert(((u + 32) as u8) as char == slug_char(c));
                }
            }
        }
    }
}

/// Map a feed name to a safe filesystem slug: lowercase, non-alphanumeric → `-`.
pub fn slug(name: &str) -> (r: String)
    ensures
        r@ == slugged(name@),
{
    let v = chars_of(name);
    let mut out = String::new();
    let mut i: usize = 0;
    while i < v.len()
        invariant
            v@ == name@,
            i <= v@.len(),
            out@ == slugged(v@.take(i as int)),
        decreases v@.len() - i,
    {
        let c = v[i];
        proof {
            lemma_flat_map_push(v@, i as int, |c: char| seq![slug_char(c)]);
        }
        let d = if 'A' <= c && c <= 'Z' {
            ((c as u8) + 32) as char
        } else if ('a' <= c && c <= 'z') || ('0' <= c && c <= '9') {
            c
        } else {
            '-'
        };
        push_char(&mut out, d);
        i = i + 1;
    }
    assert(v@.take(v@.len() as int) == v@);
    out
}

/// Where a feed's bytes come from next.
#[derive(Debug, Clone, Copy, PartialEq, Eq, Structural)]
pub enum FeedSource {
    /// Read the cached copy.
    Cache,
    /// Fetch the feed over the network.
    Network,
}

/// What happens when fetching a feed failed.
#[derive(Debug, Clone, Copy, PartialEq, Eq, Structural)]
pub enum FetchFallback {
    /// Warn and serve the stale cached copy.
    StaleCache,
    /// Fail with the fetch error.
    Fail,
}

/// Serve from cache when it exists and a refresh was not requested; else fetch.
pub fn first_source(refresh: bool, cache_exists: bool) -> (r: FeedSource)
    ensures
        r == (if !refresh && cache_exists {
            FeedSource::Cache
        } else {
            FeedSource::Network
        }),
{
    if !refresh && cache_exists {
        FeedSource::Cache
    } else {
        FeedSource::Network
    }
}

/// After a failed fetch: a stale cached copy is still served when there is
/// one; without one the error stands.
pub fn after_failed_fetch(cache_exists: bool) -> (r: FetchFallback)
    ensures
        r == (if cache_exists {
            FetchFallback::StaleCache
        } else {
            FetchFallback::Fail
        }),
{
    if cache_exists {
        FetchFallback::StaleCache
    } else {
        FetchFallback::Fail
    }
}

/// The cache file name of a feed: `<slug>.ics`.
pub fn cache_file_name(feed_name: &str) -> (r: String)
    ensures
        r@ == slugged(feed_name@) + ".ics"@,
{
    let mut s = slug(feed_name);
    push_str(&mut s, ".ics");
    s
}

} // verus!
