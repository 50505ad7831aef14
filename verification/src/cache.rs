//! The cache-freshness policy of the remote index: whether the cached index
//! may be served, and what expiry record to store beside a fresh fetch.

use vstd::prelude::*;

use crate::text::{digits_end, find_seq, spec_parse_num, parse_num_range, str_chars};

verus! {

/// The cache lifetime used when the response names none: four hours.
pub const DEFAULT_MAX_AGE_SECS: u64 = 14400;

/// Instants from the start of year 9999 on get no HTTP-date text here; the
/// formatter is only defined below year 10000 and this stays safely inside.
pub const HTTP_DATE_LIMIT_SECS: u64 = 253370764800;

/// The instant named by an HTTP-date text, in seconds since the Unix epoch;
/// nothing for text in no HTTP-date form.
pub uninterp spec fn http_date_value(s: Seq<char>) -> Option<u64>;

/// The HTTP-date text of an instant given in seconds since the Unix epoch.
pub uninterp spec fn http_date_of(secs: u64) -> Seq<char>;

/// Relies on httpdate::parse_http_date: reads an HTTP-date text (IMF-fixdate
/// or the legacy forms) back to the instant it names, a pure function of the
/// text; any other text is refused.
#[verifier::external_body]
pub fn parse_http_date_text(s: &str) -> (r: Option<u64>)
    ensures
        r == http_date_value(s@),
{
    match httpdate::parse_http_date(s) {
        Ok(t) => t.duration_since(std::time::UNIX_EPOCH).ok().map(|d| d.as_secs()),
        Err(_) => None,
    }
}

/// Relies on httpdate::fmt_http_date: the IMF-fixdate text of an instant, a
/// pure function of the instant; it panics on instants from year 10000 on,
/// which the precondition keeps out with room to spare.
#[verifier::external_body]
pub fn format_http_date(secs: u64) -> (s: String)
    requires
        secs < HTTP_DATE_LIMIT_SECS,
    ensures
        s@ == http_date_of(secs),
{
    let t = std::time::UNIX_EPOCH + std::time::Duration::from_secs(secs);
    httpdate::fmt_http_date(t)
}

/// The view of an optional text.
pub open spec fn opt_text(o: Option<&str>) -> Option<Seq<char>> {
    match o {
        Some(s) => Some(s@),
        None => None,
    }
}

/// Whether the cached index may be served: the stored expiry record reads as
/// an HTTP-date strictly after `now_secs`, and a cached index body exists. An
/// absent or unreadable expiry record means a cold cache, not an error.
pub open spec fn spec_cache_fresh(
    expiry: Option<Seq<char>>,
    body_present: bool,
    now_secs: u64,
) -> bool {
    match expiry {
        Some(s) => match http_date_value(s) {
            Some(e) => now_secs < e && body_present,
            None => false,
        },
        None => false,
    }
}

/// Decides from the contents of the two cache files whether resolution serves
/// the cached index (`true`), or must fetch from the network (`false`,
/// exactly when the cache is not fresh).
pub fn use_cached_index(expiry_text: Option<&str>, body_present: bool, now_secs: u64) -> (r: bool)
    ensures
        r == spec_cache_fresh(opt_text(expiry_text), body_present, now_secs),
{
    match expiry_text {
        Some(s) => match parse_http_date_text(s) {
            Some(e) => now_secs < e && body_present,
            None => false,
        },
        None => false,
    }
}

/// Reads the cached index out of the two cache files' contents: the cached
/// body, exactly when the cache is fresh; nothing, exactly when resolution
/// must fetch from the network. What is served is the cached body itself,
/// never anything else.
pub fn read_cached_opt(expiry_text: Option<&str>, cached: Option<String>, now_secs: u64) -> (r:
    Option<String>)
    ensures
        r is Some <==> spec_cache_fresh(opt_text(expiry_text), cached is Some, now_secs),
        r is Some ==> r == cached,
{
    if use_cached_index(expiry_text, cached.is_some(), now_secs) {
        cached
    } else {
        None
    }
}

/// The max-age the response asks for: the digits following the first
/// `max-age=` of the `Cache-Control` header, when they name a value that fits
/// the header's range; four hours otherwise or when the header is absent.
pub open spec fn spec_max_age(cc: Option<Seq<char>>) -> u64 {
    match cc {
        None => DEFAULT_MAX_AGE_SECS,
        Some(s) => match find_seq(s, "max-age="@) {
            None => DEFAULT_MAX_AGE_SECS,
            Some(i) => {
                let start = i + 8;
                let end = digits_end(s, start);
                match spec_parse_num(s.subrange(start, end)) {
                    Some(age) => if age <= u32::MAX as u64 {
                        age
                    } else {
                        DEFAULT_MAX_AGE_SECS
                    },
                    None => DEFAULT_MAX_AGE_SECS,
                }
            },
        },
    }
}

/// Reads the cache lifetime out of a `Cache-Control` header value.
pub fn max_age(cache_control: Option<&str>) -> (r: u64)
    ensures
        r == spec_max_age(opt_text(cache_control)),
        r <= u32::MAX as u64,
{
    let cc = match cache_control {
        Some(cc) => cc,
        None => {
            return DEFAULT_MAX_AGE_SECS;
        },
    };
    let v = str_chars(cc);
    let pat = str_chars("max-age=");
    proof {
        reveal_strlit("max-age=");
    }
    let i = match crate::text::find_seq_in(&v, &pat) {
        Some(i) => i,
        None => {
            return DEFAULT_MAX_AGE_SECS;
        },
    };
    let n = v.len();
    proof {
        crate::text::lemma_find_seq(v@, pat@);
        assert(pat@ =~= "max-age="@);
        assert(pat@.len() == 8);
        assert(i + 8 <= n);
    }
    let start = i + 8;
    let mut end: usize = start;
    while end < n && '0' <= v[end] && v[end] <= '9'
        invariant
            start <= end <= n,
            n == v@.len(),
            digits_end(v@, start as int) == digits_end(v@, end as int),
        decreases n - end,
    {
        proof {
            assert(digits_end(v@, end as int) == digits_end(v@, end as int + 1));
        }
        end += 1;
    }
    proof {
        assert(digits_end(v@, end as int) == end as int);
    }
    match parse_num_range(&v, start, end) {
        Some(age) => if age <= u32::MAX as u64 {
            age
        } else {
            DEFAULT_MAX_AGE_SECS
        },
        None => DEFAULT_MAX_AGE_SECS,
    }
}

/// The expiry record to store beside a freshly fetched index: the `Expires`
/// header verbatim when the response carries one, otherwise now plus the
/// response's max-age, as an HTTP-date.
pub fn expiry_text(expires: Option<&str>, cache_control: Option<&str>, now_secs: u64) -> (s:
    String)
    requires
        now_secs < 249000000000,
    ensures
        match expires {
            Some(h) => s@ == h@,
            None => s@ == http_date_of((now_secs + spec_max_age(opt_text(cache_control))) as u64),
        },
{
    match expires {
        Some(h) => h.to_owned(),
        None => {
            let age = max_age(cache_control);
            format_http_date(now_secs + age)
        },
    }
}

} // verus!
