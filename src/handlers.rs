//! Handlers that answer without calling into the host, and server settings.

use vstd::prelude::*;
use vstd::utf8::encode_utf8;
use crate::request::RequestData;
use crate::response::{content_type_key, headers_view, json_type, utf8_bytes, ResponseData};

verus! {

/// Relies on `num_cpus::get`: the number of CPUs this process may use,
/// which its documentation says is always at least 1.
#[verifier::external_body]
fn cpu_count() -> (r: usize)
    ensures
        r >= 1,
{
    num_cpus::get()
}

/// Where and how the server listens.
#[derive(Debug, Clone)]
pub struct ServerConfig {
    pub host: String,
    pub port: u16,
    pub debug: bool,
    pub workers: usize,
}

impl Default for ServerConfig {
    /// `127.0.0.1:5000`, not in debug mode, one worker per CPU.
    fn default() -> (r: ServerConfig)
        ensures
            r.host@ == "127.0.0.1"@,
            r.port == 5000,
            !r.debug,
            r.workers >= 1,
    {
        ServerConfig { host: String::from_str("127.0.0.1"), port: 5000, debug: false, workers: cpu_count() }
    }
}

/// A handler that always answers `200` with the same body.
#[derive(Debug)]
pub struct FastRouteHandler {
    response_body: String,
    content_type: String,
}

impl FastRouteHandler {
    pub closed spec fn body_spec(&self) -> Seq<char> {
        self.response_body@
    }

    pub closed spec fn content_type_spec(&self) -> Seq<char> {
        self.content_type@
    }

    /// A JSON handler with this body.
    pub fn new(response_body: String) -> (r: FastRouteHandler)
        ensures
            r.body_spec() == response_body@,
            r.content_type_spec() == json_type(),
    {
        FastRouteHandler { response_body, content_type: String::from_str("application/json") }
    }

    /// The same handler with another content type.
    pub fn with_content_type(self, content_type: &str) -> (r: FastRouteHandler)
        ensures
            r.body_spec() == self.body_spec(),
            r.content_type_spec() == content_type@,
    {
        FastRouteHandler { response_body: self.response_body, content_type: content_type.to_owned() }
    }

    /// The response: `200`, the body, and the content type.
    pub fn handle(&self, _req: &RequestData) -> (r: ResponseData)
        ensures
            r.status == 200,
            r.body@ == encode_utf8(self.body_spec()),
            headers_view(r.headers@) == seq![(content_type_key(), self.content_type_spec())],
            r.wf(),
    {
        self.handle_fixed()
    }

    /// The response, which does not depend on the request.
    pub fn handle_fixed(&self) -> (r: ResponseData)
        ensures
            r.status == 200,
            r.body@ == encode_utf8(self.body_spec()),
            headers_view(r.headers@) == seq![(content_type_key(), self.content_type_spec())],
            r.wf(),
    {
        let mut resp = ResponseData::with_body(utf8_bytes(self.response_body.as_str()));
        resp.set_header("Content-Type", self.content_type.as_str());
        assert(headers_view(resp.headers@) =~= seq![(content_type_key(), self.content_type_spec())]);
        resp
    }
}

/// A handler made of a function from request to response.
pub struct FunctionHandler<F> {
    func: F,
}

impl<F: Fn(RequestData) -> ResponseData> FunctionHandler<F> {
    pub closed spec fn func_spec(&self) -> F {
        self.func
    }

    pub fn new(func: F) -> (r: FunctionHandler<F>)
        ensures
            r.func_spec() == func,
    {
        FunctionHandler { func }
    }

    /// Calls the function on the request.
    pub fn handle(&self, req: RequestData) -> (r: ResponseData)
        requires
            self.func_spec().requires((req,)),
        ensures
            self.func_spec().ensures((req,), r),
    {
        (self.func)(req)
    }
}

} // verus!
