//! The headers sent with every upstream call.

use vstd::prelude::*;

verus! {

/// An HTTP date (`Sun, 06 Nov 1994 08:49:37 GMT`) for a time in seconds
/// since the Unix epoch; none outside the representable range.
pub uninterp spec fn http_date(secs: i64) -> Option<Seq<char>>;

/// Relies on chrono's `DateTime::<Utc>::from_timestamp` (none out of range)
/// and `format` with `%a, %d %b %Y %H:%M:%S GMT`; the result depends on the
/// seconds alone.
#[verifier::external_body]
fn format_http_date(secs: i64) -> (r: Option<String>)
    ensures
        match r {
            Some(s) => http_date(secs) == Some(s@),
            None => http_date(secs) is None,
        },
{
    match chrono::DateTime::<chrono::Utc>::from_timestamp(secs, 0) {
        Some(t) => Some(t.format("%a, %d %b %Y %H:%M:%S GMT").to_string()),
        None => None,
    }
}

pub open spec fn user_agent() -> Seq<char> {
    "Mozilla/5.0 (Macintosh; Intel Mac OS X 10_15_7) AppleWebKit/537.36 (KHTML, like Gecko) Chrome/129.0.0.0 Safari/537.36"@
}

/// The headers that do not depend on the time, in order.
pub open spec fn fixed_headers() -> Seq<(Seq<char>, Seq<char>)> {
    seq![
        ("content-type"@, "application/json"@),
        ("transfer-encoding"@, "chunked"@),
        ("connection"@, "keep-alive"@),
        ("vary"@, "Accept-Encoding"@),
        ("access-control-allow-origin"@, "*"@),
        ("cache-control"@, "public, max-age=600"@),
        ("access-control-allow-methods"@, "*"@),
        ("access-control-allow-headers"@, "*, Authorization"@),
        ("strict-transport-security"@, "max-age=31536000; includeSubDomains; preload"@),
        ("x-content-type-options"@, "nosniff"@),
        ("x-xss-protection"@, "1; mode=block"@),
        ("referrer-policy"@, "same-origin"@),
        ("user-agent"@, user_agent()),
    ]
}

/// The upstream headers: with a date, a `date` header first and a
/// `last-modified` header last, both holding it.
pub open spec fn upstream_headers(date: Option<Seq<char>>) -> Seq<(Seq<char>, Seq<char>)> {
    match date {
        Some(d) => seq![("date"@, d)] + fixed_headers() + seq![("last-modified"@, d)],
        None => fixed_headers(),
    }
}

pub open spec fn headers_view(v: Seq<(String, String)>) -> Seq<(Seq<char>, Seq<char>)> {
    v.map_values(|h: (String, String)| (h.0@, h.1@))
}

fn push_header(v: &mut Vec<(String, String)>, name: &str, value: &str)
    ensures
        headers_view(final(v)@) == headers_view(old(v)@).push((name@, value@)),
{
    v.push((String::from_str(name), String::from_str(value)));
    assert(headers_view(final(v)@) =~= headers_view(old(v)@).push((name@, value@)));
}

/// The upstream headers for an already formatted date, if any.
pub fn headers_with_date(date: Option<String>) -> (r: Vec<(String, String)>)
    ensures
        headers_view(r@) == upstream_headers(
            match date {
                Some(d) => Some(d@),
                None => None,
            },
        ),
{
    let mut v: Vec<(String, String)> = Vec::new();
    let ghost start = headers_view(v@);
    assert(start =~= Seq::empty());
    match &date {
        Some(d) => push_header(&mut v, "date", d.as_str()),
        None => {},
    }
    let ghost after_date = headers_view(v@);
    push_header(&mut v, "content-type", "application/json");
    push_header(&mut v, "transfer-encoding", "chunked");
    push_header(&mut v, "connection", "keep-alive");
    push_header(&mut v, "vary", "Accept-Encoding");
    push_header(&mut v, "access-control-allow-origin", "*");
    push_header(&mut v, "cache-control", "public, max-age=600");
    push_header(&mut v, "access-control-allow-methods", "*");
    push_header(&mut v, "access-control-allow-headers", "*, Authorization");
    push_header(&mut v, "strict-transport-security", "max-age=31536000; includeSubDomains; preload");
    push_header(&mut v, "x-content-type-options", "nosniff");
    push_header(&mut v, "x-xss-protection", "1; mode=block");
    push_header(&mut v, "referrer-policy", "same-origin");
    push_header(
        &mut v,
        "user-agent",
        "Mozilla/5.0 (Macintosh; Intel Mac OS X 10_15_7) AppleWebKit/537.36 (KHTML, like Gecko) Chrome/129.0.0.0 Safari/537.36",
    );
    assert(headers_view(v@) =~= after_date + fixed_headers());
    match &date {
        Some(d) => {
            push_header(&mut v, "last-modified", d.as_str());
            assert(headers_view(v@) =~= seq![("date"@, d@)] + fixed_headers() + seq![("last-modified"@, d@)]);
        },
        None => {
            assert(headers_view(v@) =~= fixed_headers());
        },
    }
    v
}

/// The upstream headers at time `now_secs` (seconds since the Unix epoch).
pub fn request_headers(now_secs: i64) -> (r: Vec<(String, String)>)
    ensures
        headers_view(r@) == upstream_headers(http_date(now_secs)),
{
    let date = format_http_date(now_secs);
    headers_with_date(date)
}

} // verus!
