//! The one place the engine touches the machine: reading the wall clock for
//! the convenience methods that take no instant. Everything else receives its
//! instant as an argument.
use vstd::prelude::*;

verus! {

use crate::policy::{
    age_secs,
    build_model,
    CacheOptions,
    CachePolicy,
    HttpRequest,
    HttpResponse,
    stale_at,
    ttl_ms,
};
use crate::satisfy::fresh_at;
use crate::reval::{egress_headers, reval_headers, revalidated_model};

/// Relies on `std::time::SystemTime::now`, read against the Unix epoch. The
/// clock may say anything; nothing is assumed of it beyond being whole
/// seconds, and a clock before the epoch reads as zero.
#[verifier::external_body]
fn unix_now() -> (r: i64)
    ensures
        0 <= r,
{
    let secs = std::time::SystemTime::now().duration_since(std::time::UNIX_EPOCH).map(
        |d| d.as_secs(),
    ).unwrap_or(0);
    if secs > i64::MAX as u64 {
        i64::MAX
    } else {
        secs as i64
    }
}

impl CacheOptions {
    /// `policy_for_at` against the system clock.
    pub fn policy_for(&self, request: &HttpRequest, response: &HttpResponse) -> (r: CachePolicy)
        ensures
            exists|t: int| r@ == build_model(request@, response@, self@, t),
            r.wf(),
    {
        let now = unix_now();
        let r = self.policy_for_at(request, response, now);
        proof {
            assert(r@ == build_model(request@, response@, self@, now as int));
        }
        r
    }
}

impl CachePolicy {
    /// `is_stale_at` against the system clock.
    pub fn is_stale(&self) -> (r: bool)
        requires
            self.wf(),
        ensures
            exists|t: int| r == stale_at(self@, t),
    {
        let now = unix_now();
        let r = self.is_stale_at(now);
        proof {
            assert(r == stale_at(self@, now as int));
        }
        r
    }

    /// `age_at` against the system clock.
    pub fn age(&self) -> (r: u32)
        requires
            self.wf(),
        ensures
            exists|t: int| r as int == age_secs(self@, t),
    {
        let now = unix_now();
        let r = self.age_at(now);
        proof {
            assert(r as int == age_secs(self@, now as int));
        }
        r
    }

    /// `time_to_live_at` against the system clock.
    pub fn time_to_live(&self) -> (r: u32)
        requires
            self.wf(),
        ensures
            exists|t: int| r as int == ttl_ms(self@, t),
    {
        let now = unix_now();
        let r = self.time_to_live_at(now);
        proof {
            assert(r as int == ttl_ms(self@, now as int));
        }
        r
    }

    /// `is_cached_response_fresh_at` against the system clock.
    pub fn is_cached_response_fresh(&self, new_request: &HttpRequest) -> (r: bool)
        requires
            self.wf(),
        ensures
            exists|t: int| r == fresh_at(self@, new_request@, t),
    {
        let now = unix_now();
        let r = self.is_cached_response_fresh_at(new_request, now);
        proof {
            assert(r == fresh_at(self@, new_request@, now as int));
        }
        r
    }

    /// `revalidation_headers_at` against the system clock.
    pub fn revalidation_headers(&self, new_request: &HttpRequest) -> (r: Vec<(String, String)>)
        requires
            self.wf(),
        ensures
            exists|t: int| r.deep_view() == reval_headers(self@, new_request@, t),
    {
        let now = unix_now();
        let r = self.revalidation_headers_at(new_request, now);
        proof {
            assert(r.deep_view() == reval_headers(self@, new_request@, now as int));
        }
        r
    }

    /// `response_headers_at` against the system clock.
    pub fn response_headers(&self) -> (r: Vec<(String, String)>)
        requires
            self.wf(),
        ensures
            exists|t: int| r.deep_view() == egress_headers(self@, t),
    {
        let now = unix_now();
        let r = self.response_headers_at(now);
        proof {
            assert(r.deep_view() == egress_headers(self@, now as int));
        }
        r
    }

    /// `update_response_headers_at` against the system clock.
    pub fn update_response_headers(&self, response: &mut HttpResponse)
        requires
            self.wf(),
        ensures
            exists|t: int| final(response)@.headers == egress_headers(self@, t),
            final(response)@.status == old(response)@.status,
    {
        let now = unix_now();
        self.update_response_headers_at(response, now);
    }

    /// `is_cached_response_valid_at` against the system clock.
    pub fn is_cached_response_valid(
        &mut self,
        new_request: &HttpRequest,
        new_response: &HttpResponse,
    ) -> (r: bool)
        requires
            old(self).wf(),
        ensures
            exists|t: int|
                final(self)@ == revalidated_model(old(self)@, new_request@, new_response@, t).0 && r
                    == revalidated_model(old(self)@, new_request@, new_response@, t).1,
            final(self).wf(),
    {
        let now = unix_now();
        let r = self.is_cached_response_valid_at(new_request, new_response, now);
        r
    }

}

} // verus!
