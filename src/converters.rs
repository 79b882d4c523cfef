//! Building responses from what a host handler returned: a bare body, a
//! body with a status, or a body with a status and headers.

use vstd::prelude::*;
use vstd::utf8::encode_utf8;
use crate::response::{
    content_type_key, header_set, headers_view, html_type, json_type, text_type, utf8_bytes,
    ResponseData,
};
use crate::text::{chars_of, lower_of, lowercase, string_of, trim, trim_chars};

verus! {

/// The content type a bare body gets from its trimmed text: HTML when it
/// opens with '<', JSON when it opens with '{' or '[', plain text otherwise.
pub open spec fn sniffed_type(t: Seq<char>) -> Seq<char> {
    if t.len() > 0 && t[0] == '<' {
        html_type()
    } else if t.len() > 0 && (t[0] == '{' || t[0] == '[') {
        json_type()
    } else {
        text_type()
    }
}

/// The content type for a body whose trimmed text is `trimmed_text`.
pub fn sniff_content_type(trimmed_text: &str) -> (r: &'static str)
    ensures
        r@ == sniffed_type(trimmed_text@),
{
    let t = chars_of(trimmed_text);
    proof {
        reveal_strlit("text/html; charset=utf-8");
        reveal_strlit("application/json");
        reveal_strlit("text/plain; charset=utf-8");
    }
    if t.len() > 0 && t[0] == '<' {
        "text/html; charset=utf-8"
    } else if t.len() > 0 && (t[0] == '{' || t[0] == '[') {
        "application/json"
    } else {
        "text/plain; charset=utf-8"
    }
}

/// A `200` response for a bare body, typed by its first visible character.
pub fn response_for_body(body: String) -> (r: ResponseData)
    ensures
        r.status == 200,
        r.body@ == encode_utf8(body@),
        headers_view(r.headers@) == seq![(content_type_key(), sniffed_type(trim(body@)))],
        r.wf(),
{
    let t = string_of(&trim_chars(&chars_of(body.as_str())));
    let ct = sniff_content_type(t.as_str());
    let mut r = ResponseData::with_body(utf8_bytes(body.as_str()));
    r.set_header("Content-Type", ct);
    assert(headers_view(r.headers@) =~= seq![(content_type_key(), sniffed_type(trim(body@)))]);
    r
}

/// The status a handler's code stands for: codes outside 100 to 999 are
/// not status codes and give `200`.
pub open spec fn effective_status(code: u16) -> u16 {
    if 100 <= code <= 999 {
        code
    } else {
        200
    }
}

/// A JSON response with the handler's status.
pub fn response_with_status(body: String, status: u16) -> (r: ResponseData)
    ensures
        r.status == effective_status(status),
        r.body@ == encode_utf8(body@),
        headers_view(r.headers@) == seq![(content_type_key(), json_type())],
        r.wf(),
{
    let mut r = ResponseData::with_body(utf8_bytes(body.as_str()));
    r.set_status(if 100 <= status && status <= 999 { status } else { 200 });
    r.set_header("Content-Type", "application/json");
    assert(headers_view(r.headers@) =~= seq![(content_type_key(), json_type())]);
    r
}

/// The headers after setting each of `hs` in order.
pub open spec fn set_all(
    hv: Seq<(Seq<char>, Seq<char>)>,
    hs: Seq<(Seq<char>, Seq<char>)>,
) -> Seq<(Seq<char>, Seq<char>)>
    decreases hs.len(),
{
    if hs.len() == 0 {
        hv
    } else {
        header_set(set_all(hv, hs.drop_last()), hs.last().0, hs.last().1)
    }
}

/// The content type the handler's headers ask for: the value of the last
/// header named `content-type` in any case, else JSON.
pub open spec fn requested_type(hs: Seq<(Seq<char>, Seq<char>)>) -> Seq<char>
    decreases hs.len(),
{
    if hs.len() == 0 {
        json_type()
    } else if lower_of(hs.last().0) == "content-type"@ {
        hs.last().1
    } else {
        requested_type(hs.drop_last())
    }
}

/// A response with the handler's status and headers, in their order, and
/// then `Content-Type` as they ask for it (JSON when they do not).
pub fn response_with_headers(body: String, status: u16, headers: &Vec<(String, String)>) -> (r: ResponseData)
    ensures
        r.status == effective_status(status),
        r.body@ == encode_utf8(body@),
        headers_view(r.headers@) == header_set(
            set_all(Seq::empty(), headers_view(headers@)),
            content_type_key(),
            requested_type(headers_view(headers@)),
        ),
        r.wf(),
{
    let mut r = ResponseData::with_status(if 100 <= status && status <= 999 { status } else { 200 });
    let mut content_type = String::from_str("application/json");
    let ghost hs = headers_view(headers@);
    let key = String::from_str("content-type");
    let mut i: usize = 0;
    assert(headers_view(r.headers@) =~= set_all(Seq::empty(), hs.take(0)));
    while i < headers.len()
        invariant
            i <= headers@.len(),
            hs == headers_view(headers@),
            key@ == "content-type"@,
            r.status == effective_status(status),
            r.body@.len() == 0,
            r.wf(),
            headers_view(r.headers@) == set_all(Seq::empty(), hs.take(i as int)),
            content_type@ == requested_type(hs.take(i as int)),
        decreases headers@.len() - i,
    {
        let (k, v) = &headers[i];
        let lk = lowercase(k.as_str());
        assert(hs.take(i as int + 1).drop_last() =~= hs.take(i as int));
        assert(hs.take(i as int + 1).last() == (k@, v@));
        if lk == key {
            content_type = v.clone();
        }
        r.set_header(k.as_str(), v.as_str());
        i = i + 1;
    }
    assert(hs.take(headers@.len() as int) =~= hs);
    r.set_header("Content-Type", content_type.as_str());
    r.set_body(utf8_bytes(body.as_str()));
    r
}

/// A response made from a response object's parts: its status (`200` when
/// it is no status code), its body, and its headers set in their order.
pub fn response_from_parts(body: Vec<u8>, status: u16, headers: &Vec<(String, String)>) -> (r: ResponseData)
    ensures
        r.status == effective_status(status),
        r.body == body,
        headers_view(r.headers@) == set_all(Seq::empty(), headers_view(headers@)),
        r.wf(),
{
    let mut r = ResponseData::with_body(body);
    r.set_status(if 100 <= status && status <= 999 { status } else { 200 });
    let ghost hs = headers_view(headers@);
    let mut i: usize = 0;
    assert(headers_view(r.headers@) =~= set_all(Seq::empty(), hs.take(0)));
    while i < headers.len()
        invariant
            i <= headers@.len(),
            hs == headers_view(headers@),
            r.status == effective_status(status),
            r.body == body,
            r.wf(),
            headers_view(r.headers@) == set_all(Seq::empty(), hs.take(i as int)),
        decreases headers@.len() - i,
    {
        let (k, v) = &headers[i];
        assert(hs.take(i as int + 1).drop_last() =~= hs.take(i as int));
        assert(hs.take(i as int + 1).last() == (k@, v@));
        r.set_header(k.as_str(), v.as_str());
        i = i + 1;
    }
    assert(hs.take(headers@.len() as int) =~= hs);
    r
}

} // verus!
