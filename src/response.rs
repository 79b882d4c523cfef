//! The response record that dispatch produces and middleware may edit.

use vstd::prelude::*;
use vstd::slice::slice_to_vec;
use vstd::string::StrSliceExecFns;
use vstd::utf8::{decode_utf8, encode_utf8, valid_utf8};

verus! {

/// The reason phrase that the `http` crate gives for a status code.
pub uninterp spec fn reason_phrase_of(code: u16) -> Option<Seq<char>>;

/// Relies on `http::StatusCode::from_u16` (codes 100 to 999 only) and
/// `StatusCode::canonical_reason`: the registered reason phrase, if any.
#[verifier::external_body]
fn canonical_reason(code: u16) -> (r: Option<String>)
    ensures
        r is Some ==> 100 <= code <= 999,
        r matches Some(s) ==> reason_phrase_of(code) == Some(s@),
        r is None ==> reason_phrase_of(code) is None,
{
    http::StatusCode::from_u16(code).ok().and_then(|c| c.canonical_reason()).map(|s| s.to_string())
}

/// The text whose UTF-8 encoding is `bytes`, when there is one.
/// Relies on `String::from_utf8`, which accepts exactly valid UTF-8.
#[verifier::external_body]
fn utf8_string(bytes: &Vec<u8>) -> (r: Option<String>)
    ensures
        r is Some <==> valid_utf8(bytes@),
        r matches Some(s) ==> s@ == decode_utf8(bytes@),
{
    String::from_utf8(bytes.clone()).ok()
}

/// The UTF-8 bytes of a text.
pub fn utf8_bytes(s: &str) -> (r: Vec<u8>)
    ensures
        r@ == encode_utf8(s@),
{
    s.as_bytes_vec()
}

/// Header pairs as character sequences.
pub open spec fn headers_view(hs: Seq<(String, String)>) -> Seq<(Seq<char>, Seq<char>)> {
    Seq::new(hs.len(), |i: int| (hs[i].0@, hs[i].1@))
}

/// The value of the first header with this name.
pub open spec fn header_get(hv: Seq<(Seq<char>, Seq<char>)>, k: Seq<char>) -> Option<Seq<char>>
    decreases hv.len(),
{
    if hv.len() == 0 {
        None
    } else if hv[0].0 == k {
        Some(hv[0].1)
    } else {
        header_get(hv.skip(1), k)
    }
}

/// Headers after setting `k` to `v`: an existing header of that name takes
/// the new value, otherwise the header is added at the end.
pub open spec fn header_set(hv: Seq<(Seq<char>, Seq<char>)>, k: Seq<char>, v: Seq<char>) -> Seq<
    (Seq<char>, Seq<char>),
> {
    if exists|i: int| 0 <= i < hv.len() && (#[trigger] hv[i]).0 == k {
        Seq::new(hv.len(), |i: int| if hv[i].0 == k { (k, v) } else { hv[i] })
    } else {
        hv.push((k, v))
    }
}

pub open spec fn keys_unique(hv: Seq<(Seq<char>, Seq<char>)>) -> bool {
    forall|i: int, j: int| 0 <= i < j < hv.len() ==> hv[i].0 != hv[j].0
}

pub open spec fn json_type() -> Seq<char> {
    "application/json"@
}

pub open spec fn html_type() -> Seq<char> {
    "text/html; charset=utf-8"@
}

pub open spec fn text_type() -> Seq<char> {
    "text/plain; charset=utf-8"@
}

pub open spec fn content_type_key() -> Seq<char> {
    "Content-Type"@
}

/// An HTTP response: status code, headers (names case-preserved, each at
/// most once) and body bytes.
#[derive(Debug)]
pub struct ResponseData {
    pub status: u16,
    pub headers: Vec<(String, String)>,
    pub body: Vec<u8>,
}

impl ResponseData {
    pub open spec fn wf(&self) -> bool {
        keys_unique(headers_view(self.headers@))
    }

    pub open spec fn header(&self, k: Seq<char>) -> Option<Seq<char>> {
        header_get(headers_view(self.headers@), k)
    }

    /// An empty `200` response.
    pub fn new() -> (r: ResponseData)
        ensures
            r.status == 200,
            r.headers@.len() == 0,
            r.body@.len() == 0,
            r.wf(),
    {
        ResponseData { status: 200, headers: Vec::new(), body: Vec::new() }
    }

    /// A `200` response with these bytes as body.
    pub fn from_static(body: &[u8]) -> (r: ResponseData)
        ensures
            r.status == 200,
            r.headers@.len() == 0,
            r.body@ == body@,
            r.wf(),
    {
        ResponseData { status: 200, headers: Vec::new(), body: slice_to_vec(body) }
    }

    /// A `200` response with no headers and this body.
    pub fn with_body(body: Vec<u8>) -> (r: ResponseData)
        ensures
            r.status == 200,
            r.headers@.len() == 0,
            r.body == body,
            r.wf(),
    {
        ResponseData { status: 200, headers: Vec::new(), body }
    }

    /// A response with this status, no headers and no body.
    pub fn with_status(status: u16) -> (r: ResponseData)
        ensures
            r.status == status,
            r.headers@.len() == 0,
            r.body@.len() == 0,
            r.wf(),
    {
        ResponseData { status, headers: Vec::new(), body: Vec::new() }
    }

    /// Sets a header, replacing any earlier value of the same name.
    pub fn set_header(&mut self, key: &str, value: &str)
        ensures
            headers_view(final(self).headers@) == header_set(
                headers_view(old(self).headers@),
                key@,
                value@,
            ),
            final(self).status == old(self).status,
            final(self).body == old(self).body,
            old(self).wf() ==> final(self).wf(),
    {
        let ghost hv = headers_view(self.headers@);
        let k = key.to_owned();
        let mut found = false;
        let mut i: usize = 0;
        while i < self.headers.len()
            invariant
                k@ == key@,
                i <= self.headers@.len(),
                self.headers@.len() == hv.len(),
                found == exists|j: int| 0 <= j < i && (#[trigger] hv[j]).0 == key@,
                forall|j: int|
                    0 <= j < hv.len() ==> #[trigger] headers_view(self.headers@)[j] == if j < i
                        && hv[j].0 == key@ {
                        (key@, value@)
                    } else {
                        hv[j]
                    },
                self.status == old(self).status,
                self.body == old(self).body,
                hv == headers_view(old(self).headers@),
            decreases hv.len() - i,
        {
            let same = self.headers[i].0 == k;
            assert(headers_view(self.headers@)[i as int] == hv[i as int]);
            assert(hv[i as int].0 == key@ <==> same);
            let ghost before = self.headers@;
            if same {
                self.headers.set(i, (key.to_owned(), value.to_owned()));
            }
            assert forall|j: int| 0 <= j < hv.len() implies #[trigger] headers_view(
                self.headers@,
            )[j] == if j < i + 1 && hv[j].0 == key@ {
                (key@, value@)
            } else {
                hv[j]
            } by {
                if j != i {
                    assert(self.headers@[j] == before[j]);
                    assert(headers_view(before)[j] == headers_view(self.headers@)[j]);
                }
            }
            i = i + 1;
            found = found || same;
        }
        if !found {
            assert(headers_view(self.headers@) =~= hv);
            self.headers.push((key.to_owned(), value.to_owned()));
            assert(headers_view(self.headers@) =~= hv.push((key@, value@)));
        } else {
            assert(headers_view(self.headers@) =~= header_set(hv, key@, value@));
        }
        proof {
            let nv = headers_view(self.headers@);
            if old(self).wf() {
                assert forall|a: int, b: int| 0 <= a < b < nv.len() implies nv[a].0 != nv[b].0 by {
                    if b == hv.len() {
                        assert(hv[a].0 != key@);
                    }
                }
            }
        }
    }

    /// The value of a header.
    pub fn get_header(&self, key: &str) -> (r: Option<&String>)
        ensures
            match r {
                Some(v) => self.header(key@) == Some(v@),
                None => self.header(key@) is None,
            },
    {
        let ghost hv = headers_view(self.headers@);
        let k = key.to_owned();
        let mut i: usize = 0;
        assert(hv.skip(0) =~= hv);
        while i < self.headers.len()
            invariant
                i <= self.headers@.len(),
                hv == headers_view(self.headers@),
                k@ == key@,
                header_get(hv, key@) == header_get(hv.skip(i as int), key@),
            decreases self.headers@.len() - i,
        {
            assert(hv.skip(i as int)[0] == hv[i as int]);
            if self.headers[i].0 == k {
                return Some(&self.headers[i].1);
            }
            assert(hv.skip(i as int).skip(1) =~= hv.skip(i as int + 1));
            i = i + 1;
        }
        assert(hv.skip(i as int).len() == 0);
        None
    }

    /// A `200` response with a JSON body and its content type.
    pub fn json_static(json: &str) -> (r: ResponseData)
        ensures
            r.status == 200,
            r.body@ == encode_utf8(json@),
            headers_view(r.headers@) == seq![(content_type_key(), json_type())],
            r.wf(),
    {
        let mut r = ResponseData::with_body(utf8_bytes(json));
        r.set_header("Content-Type", "application/json");
        assert(headers_view(r.headers@) =~= seq![(content_type_key(), json_type())]);
        r
    }

    /// A `200` JSON response with this body.
    pub fn json_body(body: Vec<u8>) -> (r: ResponseData)
        ensures
            r.status == 200,
            r.body == body,
            headers_view(r.headers@) == seq![(content_type_key(), json_type())],
            r.wf(),
    {
        let mut r = ResponseData::with_body(body);
        r.set_header("Content-Type", "application/json");
        assert(headers_view(r.headers@) =~= seq![(content_type_key(), json_type())]);
        r
    }

    /// A `200` HTML response.
    pub fn html(html: String) -> (r: ResponseData)
        ensures
            r.status == 200,
            r.body@ == encode_utf8(html@),
            headers_view(r.headers@) == seq![(content_type_key(), html_type())],
            r.wf(),
    {
        let mut r = ResponseData::with_body(utf8_bytes(html.as_str()));
        r.set_header("Content-Type", "text/html; charset=utf-8");
        assert(headers_view(r.headers@) =~= seq![(content_type_key(), html_type())]);
        r
    }

    /// A `200` plain-text response.
    pub fn text(text: String) -> (r: ResponseData)
        ensures
            r.status == 200,
            r.body@ == encode_utf8(text@),
            headers_view(r.headers@) == seq![(content_type_key(), text_type())],
            r.wf(),
    {
        let mut r = ResponseData::with_body(utf8_bytes(text.as_str()));
        r.set_header("Content-Type", "text/plain; charset=utf-8");
        assert(headers_view(r.headers@) =~= seq![(content_type_key(), text_type())]);
        r
    }

    /// A redirect to `url`: `301` when permanent, else `302`.
    pub fn redirect(url: &str, permanent: bool) -> (r: ResponseData)
        ensures
            r.status == (if permanent { 301u16 } else { 302u16 }),
            r.body@.len() == 0,
            headers_view(r.headers@) == seq![("Location"@, url@)],
            r.wf(),
    {
        let mut r = ResponseData::with_status(if permanent { 301 } else { 302 });
        r.set_header("Location", url);
        assert(headers_view(r.headers@) =~= seq![("Location"@, url@)]);
        r
    }

    /// An error response with a plain-text body: the message when given,
    /// else the status code's reason phrase, else `Unknown Error`.
    pub fn error(status: u16, message: Option<&str>) -> (r: ResponseData)
        ensures
            r.status == status,
            r.body@ == encode_utf8(
                match message {
                    Some(m) => m@,
                    None => match reason_phrase_of(status) {
                        Some(p) => p,
                        None => "Unknown Error"@,
                    },
                },
            ),
            headers_view(r.headers@) == seq![(content_type_key(), text_type())],
            r.wf(),
    {
        let body = match message {
            Some(m) => utf8_bytes(m),
            None => match canonical_reason(status) {
                Some(p) => utf8_bytes(p.as_str()),
                None => utf8_bytes("Unknown Error"),
            },
        };
        let mut r = ResponseData::with_status(status);
        r.set_body(body);
        r.set_header("Content-Type", "text/plain; charset=utf-8");
        assert(headers_view(r.headers@) =~= seq![(content_type_key(), text_type())]);
        r
    }

    pub fn set_status(&mut self, status: u16)
        ensures
            final(self).status == status,
            final(self).headers == old(self).headers,
            final(self).body == old(self).body,
    {
        self.status = status;
    }

    pub fn set_body(&mut self, body: Vec<u8>)
        ensures
            final(self).body == body,
            final(self).headers == old(self).headers,
            final(self).status == old(self).status,
    {
        self.body = body;
    }

    /// The body as text, when it is valid UTF-8.
    pub fn body_as_string(&self) -> (r: Option<String>)
        ensures
            r is Some <==> valid_utf8(self.body@),
            r matches Some(s) ==> s@ == decode_utf8(self.body@),
    {
        utf8_string(&self.body)
    }

    /// Whether the status is in the 2xx range.
    pub fn is_success(&self) -> (r: bool)
        ensures
            r == (200 <= self.status < 300),
    {
        200 <= self.status && self.status < 300
    }

    pub fn content_length(&self) -> (r: usize)
        ensures
            r == self.body@.len(),
    {
        self.body.len()
    }
}

impl Default for ResponseData {
    /// An empty `200` response.
    fn default() -> (r: ResponseData)
        ensures
            r.status == 200,
            r.headers@.len() == 0,
            r.body@.len() == 0,
    {
        ResponseData::new()
    }
}

} // verus!
