//! The middleware chain around dispatch.

use vstd::prelude::*;
use crate::request::RequestData;
use crate::response::ResponseData;

verus! {

/// An interceptor of requests and responses, supplied by the application.
/// An implementation says what its hooks do by its two step relations; one
/// that keeps the defaults claims nothing of them.
pub trait Middleware {
    /// `process_request` may turn `before` into `after` and answer `r`.
    open spec fn request_step(&self, before: RequestData, after: RequestData, r: Result<(), ResponseData>) -> bool {
        true
    }

    /// `process_response` may turn `before` into `after` for the request `req`.
    open spec fn response_step(&self, req: RequestData, before: ResponseData, after: ResponseData) -> bool {
        true
    }

    /// Sees (and may edit) the request before dispatch; an `Err` answers the
    /// request at once and ends the pipeline.
    fn process_request(&self, req: &mut RequestData) -> (r: Result<(), ResponseData>)
        ensures
            self.request_step(*old(req), *final(req), r),
    ;

    /// Sees the request and may edit the response after dispatch.
    fn process_response(&self, req: &RequestData, resp: &mut ResponseData)
        ensures
            self.response_step(*req, *old(resp), *final(resp)),
    ;
}

/// A middleware that lets every request and response through untouched.
#[derive(Debug, Clone, Copy)]
pub struct Passthrough;

impl Middleware for Passthrough {
    open spec fn request_step(&self, before: RequestData, after: RequestData, r: Result<(), ResponseData>) -> bool {
        after == before && r is Ok
    }

    open spec fn response_step(&self, req: RequestData, before: ResponseData, after: ResponseData) -> bool {
        after == before
    }

    fn process_request(&self, req: &mut RequestData) -> (r: Result<(), ResponseData>) {
        Ok(())
    }

    fn process_response(&self, req: &RequestData, resp: &mut ResponseData) {
    }
}

/// The requests `reqs` are what the first `reqs.len() - 1` request hooks
/// passed on, one after the other, each answering `Ok`.
pub open spec fn requests_passed<M: Middleware>(chain: Seq<M>, reqs: Seq<RequestData>) -> bool {
    &&& 1 <= reqs.len() <= chain.len() + 1
    &&& forall|i: int|
        0 <= i < reqs.len() - 1 ==> #[trigger] chain[i].request_step(reqs[i], reqs[i + 1], Ok(()))
}

/// The request phase turns `before` into `after` with outcome `r`: the hooks
/// run in order, each on the request the previous one left; `None` when all
/// of them pass, else the answer of the first one that answers, after which
/// no hook runs.
pub open spec fn request_phase<M: Middleware>(
    chain: Seq<M>,
    before: RequestData,
    after: RequestData,
    r: Option<ResponseData>,
) -> bool {
    exists|reqs: Seq<RequestData>|
        #[trigger] requests_passed(chain, reqs) && reqs[0] == before && match r {
            None => reqs.len() == chain.len() + 1 && reqs.last() == after,
            Some(resp) => reqs.len() <= chain.len() && chain[reqs.len() - 1].request_step(
                reqs.last(),
                after,
                Err(resp),
            ),
        }
}

/// The responses `rs` are what the response hooks left, one after the other,
/// each on the response the previous one left.
pub open spec fn responses_passed<M: Middleware>(chain: Seq<M>, req: RequestData, rs: Seq<ResponseData>) -> bool {
    &&& rs.len() == chain.len() + 1
    &&& forall|i: int| 0 <= i < chain.len() ==> #[trigger] chain[i].response_step(req, rs[i], rs[i + 1])
}

/// The response phase turns `before` into `after`: every hook runs once, in
/// order, on the response the previous one left.
pub open spec fn response_phase<M: Middleware>(
    chain: Seq<M>,
    req: RequestData,
    before: ResponseData,
    after: ResponseData,
) -> bool {
    exists|rs: Seq<ResponseData>|
        #[trigger] responses_passed(chain, req, rs) && rs[0] == before && rs.last() == after
}

/// Runs the request hooks in registration order and stops at the first one
/// that answers; its answer is returned.
pub fn run_request_phase<M: Middleware>(chain: &Vec<M>, req: &mut RequestData) -> (r: Option<ResponseData>)
    ensures
        request_phase(chain@, *old(req), *final(req), r),
{
    let ghost mut reqs: Seq<RequestData> = seq![*req];
    let mut i: usize = 0;
    while i < chain.len()
        invariant
            i <= chain@.len(),
            reqs.len() == i + 1,
            requests_passed(chain@, reqs),
            reqs[0] == *old(req),
            reqs.last() == *req,
        decreases chain@.len() - i,
    {
        let ghost before = *req;
        let res = chain[i].process_request(req);
        proof {
            assert(chain@[i as int].request_step(before, *req, res));
        }
        let ghost rg = res;
        match res {
            Ok(u) => {
                proof {
                    assert(rg == Ok::<(), ResponseData>(u));
                    assert(rg == Ok::<(), ResponseData>(()));
                    let next = reqs.push(*req);
                    assert forall|j: int| 0 <= j < next.len() - 1 implies #[trigger] chain@[j].request_step(
                        next[j],
                        next[j + 1],
                        Ok(()),
                    ) by {
                        if j < reqs.len() - 1 {
                            assert(chain@[j].request_step(reqs[j], reqs[j + 1], Ok(())));
                        } else {
                            assert(j == i);
                            assert(next[j] == before && next[j + 1] == *req);
                        }
                    }
                    reqs = next;
                }
            },
            Err(resp) => {
                proof {
                    assert(requests_passed(chain@, reqs));
                }
                return Some(resp);
            },
        }
        i = i + 1;
    }
    assert(requests_passed(chain@, reqs));
    None
}

/// Runs every response hook in registration order, each on the response
/// the previous one left.
pub fn run_response_phase<M: Middleware>(chain: &Vec<M>, req: &RequestData, resp: &mut ResponseData)
    ensures
        response_phase(chain@, *req, *old(resp), *final(resp)),
{
    let ghost mut rs: Seq<ResponseData> = seq![*resp];
    let mut i: usize = 0;
    while i < chain.len()
        invariant
            i <= chain@.len(),
            rs.len() == i + 1,
            forall|j: int| 0 <= j < i ==> #[trigger] chain@[j].response_step(*req, rs[j], rs[j + 1]),
            rs[0] == *old(resp),
            rs.last() == *resp,
        decreases chain@.len() - i,
    {
        chain[i].process_response(req, resp);
        proof {
            let next = rs.push(*resp);
            assert forall|j: int| 0 <= j < i + 1 implies #[trigger] chain@[j].response_step(
                *req,
                next[j],
                next[j + 1],
            ) by {
                if j < i {
                    assert(chain@[j].response_step(*req, rs[j], rs[j + 1]));
                }
            }
            rs = next;
        }
        i = i + 1;
    }
    assert(responses_passed(chain@, *req, rs));
    proof {}
}

} // verus!
