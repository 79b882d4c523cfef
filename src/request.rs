//! The request record that dispatch reads.

use vstd::prelude::*;

verus! {

/// An HTTP request as the dispatch engine sees it.
#[derive(Debug)]
pub struct RequestData {
    pub method: String,
    /// The path, without the query string.
    pub path: String,
    pub query_string: String,
    pub headers: Vec<(String, String)>,
    pub body: Vec<u8>,
    /// The decoded query parameters, in order.
    pub query_params: Vec<(String, String)>,
}

} // verus!
