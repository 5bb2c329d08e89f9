//! What requests to services have in common.

use vstd::prelude::*;
use vstd::string::*;
use vstd::utf8::encode_utf8;
use crate::json::Json;
use crate::json::as_str;
use crate::json::field;
use crate::json::get;
use crate::json::get_text;
use crate::json::json_of;
use crate::json::parse;
use crate::json::parsed;
use crate::json::text_field;
use crate::settings::header_views;
use crate::text::blank;
use crate::text::is_blank;
use crate::text::opt_view;
use crate::text::trim;
use crate::text::trimmed;

verus! {

/// What identifies the sender of a request.
#[derive(Debug)]
pub struct RequestHeaders {
    /// The key, sent as a bearer token.
    pub bearer: Option<String>,
    /// Other headers.
    pub extra: Vec<(String, String)>,
}

/// The key to send, if there is one.
pub open spec fn bearer_of(api_key: Seq<char>) -> Option<Seq<char>> {
    if blank(api_key) {
        None
    } else {
        Some(trimmed(api_key))
    }
}

/// The headers to send: those with a name, without surrounding white space.
pub open spec fn named_headers(h: Seq<(Seq<char>, Seq<char>)>) -> Seq<(Seq<char>, Seq<char>)>
    decreases h.len(),
{
    if h.len() == 0 {
        h
    } else {
        let before = named_headers(h.drop_last());
        if blank(h.last().0) {
            before
        } else {
            before.push((trimmed(h.last().0), trimmed(h.last().1)))
        }
    }
}

/// The headers for a key and further settings.
pub fn request_headers(api_key: &str, extra: &Vec<(String, String)>) -> (r: RequestHeaders)
    ensures
        opt_view(r.bearer) == bearer_of(api_key@),
        header_views(r.extra@) == named_headers(header_views(extra@)),
{
    let bearer = if is_blank(api_key) {
        None
    } else {
        Some(trim(api_key).to_owned())
    };
    let ghost all = header_views(extra@);
    let n: usize = extra.len();
    let mut out: Vec<(String, String)> = Vec::new();
    let mut i: usize = 0;
    proof {
        assert(header_views(out@) =~= named_headers(all.take(0)));
    }
    while i < n
        invariant
            i <= n == extra@.len(),
            all == header_views(extra@),
            header_views(out@) == named_headers(all.take(i as int)),
        decreases n - i,
    {
        proof {
            assert(all.take(i + 1).drop_last() =~= all.take(i as int));
        }
        let ghost before = header_views(out@);
        let k = extra[i].0.as_str();
        if !is_blank(k) {
            let v = extra[i].1.as_str();
            out.push((trim(k).to_owned(), trim(v).to_owned()));
            proof {
                assert(header_views(out@) =~= before.push((trimmed(k@), trimmed(v@))));
            }
        }
        i += 1;
    }
    proof {
        assert(all.take(n as int) =~= all);
    }
    RequestHeaders { bearer, extra: out }
}

/// Whether a status says that the request succeeded.
pub fn is_success(code: u16) -> (r: bool)
    ensures
        r == (200 <= code <= 299),
{
    200 <= code && code <= 299
}

// ---------------------------------------------------------------------------
// Error messages of services
// ---------------------------------------------------------------------------

/// A text that says something.
pub open spec fn said(t: Option<Seq<char>>) -> Option<Seq<char>> {
    match t {
        Some(s) => if blank(s) {
            None
        } else {
            Some(s)
        },
        None => None,
    }
}

/// The text under `inner` in the record under `outer`.
pub open spec fn text_in(j: Json, outer: Seq<char>, inner: Seq<char>) -> Option<Seq<char>> {
    match field(j, outer) {
        Some(x) => text_field(x, inner),
        None => None,
    }
}

/// The message in a JSON reply that reports an error: the first that says
/// something of the places where services put it.
pub open spec fn error_in(j: Json) -> Option<Seq<char>> {
    let a = said(text_in(j, "error"@, "message"@));
    let b = said(text_in(j, "error"@, "code"@));
    let c = said(text_field(j, "message"@));
    let d = said(text_field(j, "detail"@));
    let e = said(text_field(j, "error"@));
    if a is Some {
        a
    } else if b is Some {
        b
    } else if c is Some {
        c
    } else if d is Some {
        d
    } else {
        e
    }
}

/// A short reply taken as the message itself, such as the error page of a
/// gateway.
pub open spec fn short_body(body: Seq<char>) -> Option<Seq<char>> {
    let t = trimmed(body);
    if t.len() > 0 && encode_utf8(t).len() < 300 {
        Some(t)
    } else {
        None
    }
}

/// The message in a reply that reports an error.
pub open spec fn api_error(body: Seq<char>) -> Option<Seq<char>> {
    match parsed(body) {
        Ok(j) => match error_in(j) {
            Some(m) => Some(m),
            None => short_body(body),
        },
        Err(_) => short_body(body),
    }
}

fn said_text<'a>(t: Option<&'a str>) -> (r: Option<&'a str>)
    ensures
        match r {
            Some(s) => t matches Some(x) && x@ == s@ && !blank(s@),
            None => t matches Some(x) ==> blank(x@),
        },
{
    match t {
        Some(s) => if is_blank(s) {
            None
        } else {
            Some(s)
        },
        None => None,
    }
}

pub(crate) fn nested_text<'a>(v: &'a serde_json::Value, outer: &str, inner: &str) -> (r: Option<&'a str>)
    ensures
        match r {
            Some(s) => text_in(json_of(*v), outer@, inner@) == Some(s@),
            None => text_in(json_of(*v), outer@, inner@) is None,
        },
{
    match get(v, outer) {
        Some(x) => get_text(x, inner),
        None => None,
    }
}

/// The message in a JSON reply that reports an error.
pub fn error_message(v: &serde_json::Value) -> (r: Option<String>)
    ensures
        opt_view(r) == error_in(json_of(*v)),
{
    if let Some(s) = said_text(nested_text(v, "error", "message")) {
        return Some(s.to_owned());
    }
    if let Some(s) = said_text(nested_text(v, "error", "code")) {
        return Some(s.to_owned());
    }
    if let Some(s) = said_text(get_text(v, "message")) {
        return Some(s.to_owned());
    }
    if let Some(s) = said_text(get_text(v, "detail")) {
        return Some(s.to_owned());
    }
    match said_text(get_text(v, "error")) {
        Some(s) => Some(s.to_owned()),
        None => None,
    }
}

/// A short reply as a message.
pub fn short_message(body: &str) -> (r: Option<String>)
    ensures
        opt_view(r) == short_body(body@),
{
    let t = trim(body);
    if t.unicode_len() > 0 && t.as_bytes().len() < 300 {
        Some(t.to_owned())
    } else {
        None
    }
}

/// The message in a reply that reports an error.
pub fn extract_api_error(body: &str) -> (r: Option<String>)
    ensures
        opt_view(r) == api_error(body@),
{
    if let Ok(v) = parse(body) {
        if let Some(m) = error_message(&v) {
            return Some(m);
        }
    }
    short_message(body)
}

/// The key is sent as it was filled in, without white space around it; an empty one is
/// not sent. Every further header with a name is sent, in order.
pub proof fn law_keys_and_headers_are_sent(key: Seq<char>, h: Seq<(Seq<char>, Seq<char>)>, x: (
    Seq<char>,
    Seq<char>,
))
    ensures
        !blank(key) ==> bearer_of(key) == Some(trimmed(key)),
        blank(key) ==> bearer_of(key) is None,
        !blank(x.0) ==> named_headers(h.push(x)) == named_headers(h).push(
            (trimmed(x.0), trimmed(x.1)),
        ),
        blank(x.0) ==> named_headers(h.push(x)) == named_headers(h),
        named_headers(Seq::empty()).len() == 0,
{
    assert(h.push(x).drop_last() =~= h);
}

/// What a service says went wrong is told: the message of its error first.
pub proof fn law_errors_are_told_in_the_words_of_the_service(j: Json, e: Json, m: Seq<char>)
    requires
        !blank(m),
    ensures
        field(j, "error"@) == Some(e) && field(e, "message"@) == Some(Json::Text(m)) ==> error_in(j)
            == Some(m),
        field(j, "error"@) is None && field(j, "message"@) == Some(Json::Text(m)) ==> error_in(j)
            == Some(m),
        field(j, "error"@) is None && field(j, "message"@) is None && field(j, "detail"@) == Some(
            Json::Text(m),
        ) ==> error_in(j) == Some(m),
        field(j, "error"@) == Some(Json::Text(m)) && field(j, "message"@) is None && field(
            j,
            "detail"@,
        ) is None ==> error_in(j) == Some(m),
{
}

/// What [`request_headers`] sends.
pub proof fn law_requests_carry_key_and_headers(
    api_key: &str,
    extra: &Vec<(String, String)>,
    r: RequestHeaders,
)
    requires
        call_ensures(request_headers, (api_key, extra), r),
    ensures
        !blank(api_key@) ==> (r.bearer matches Some(k) && k@ == trimmed(api_key@)),
        blank(api_key@) ==> r.bearer is None,
        extra@.len() == 0 ==> r.extra@.len() == 0,
{
    assert(header_views(r.extra@).len() == r.extra@.len());
    assert(header_views(extra@).len() == extra@.len());
}

/// A reply that is no JSON is told itself, without the white space around it, if it has
/// less than 300 bytes; a longer one, and one that says nothing, is not told.
pub proof fn law_short_replies_are_told(body: Seq<char>)
    requires
        parsed(body) is Err,
    ensures
        !blank(body) && encode_utf8(trimmed(body)).len() < 300 ==> api_error(body) == Some(
            trimmed(body),
        ),
        encode_utf8(trimmed(body)).len() >= 300 ==> api_error(body) is None,
        blank(body) ==> api_error(body) is None,
{
    crate::text::lemma_trimmed_blank(body);
}

} // verus!
