//! Whether a stored response may answer a new request without revalidation:
//! the request must name the same resource, every `Vary` key must agree, no
//! side may forbid the cache, and the entry must still be fresh under the
//! request's own directives.
use vstd::prelude::*;

verus! {

use vstd::string::*;
use crate::text::{eq_ci, parse_dec, parse_dec_str, str_eq, str_eq_ci};
use crate::fields::{
    cc_has,
    cc_num,
    cc_val,
    dir_has,
    dir_num,
    dir_val,
    FieldsView,
    has_token_ci_str,
    header_get,
    hget,
    tokens_of,
    tokens_of_str,
};
use crate::policy::{
    CachePolicy,
    current_age,
    HttpRequest,
    lifetime,
    PolicyModel,
    pragma_no_cache,
    req_cc_of,
    RequestModel,
    res_cc,
};

/// Hosts agree: both absent, or equal regardless of case.
pub open spec fn host_matches(ph: FieldsView, rh: FieldsView) -> bool {
    match (hget(ph, "host"@), hget(rh, "host"@)) {
        (None, None) => true,
        (Some(a), Some(b)) => eq_ci(a, b),
        _ => false,
    }
}

/// Methods agree; a `HEAD` request may reuse a `GET` entry.
pub open spec fn method_matches(p: PolicyModel, m: Seq<char>, allow_head: bool) -> bool {
    eq_ci(m, p.method) || (allow_head && eq_ci(p.method, "GET"@) && eq_ci(m, "HEAD"@))
}

/// Every header named by the response's `Vary` has the same value (byte for
/// byte) or the same absence on both requests; `*` matches no request.
pub open spec fn vary_matches(p: PolicyModel, rh: FieldsView) -> bool {
    match hget(p.res_headers, "vary"@) {
        None => true,
        Some(v) => !has_token_ci(v, "*"@) && (forall|i: int|
            0 <= i < tokens_of(v).len() ==> hget(p.req_headers, #[trigger] tokens_of(v)[i]) == hget(
                rh,
                tokens_of(v)[i],
            )),
    }
}

use crate::fields::has_token_ci;

/// The new request asks for the same resource as the captured one.
pub open spec fn request_matches(p: PolicyModel, r: RequestModel, allow_head: bool) -> bool {
    &&& r.uri == p.uri
    &&& host_matches(p.req_headers, r.headers)
    &&& method_matches(p, r.method, allow_head)
    &&& vary_matches(p, r.headers)
}

/// The freshness test under the request's directives: the lifetime is capped
/// by the request's `max-age`, extended by `max-stale` (without bound when it
/// has no value, and not at all when the response demands revalidation), and
/// the age must leave at least `min-fresh` of it.
pub open spec fn freshness_ok(p: PolicyModel, qc: crate::fields::DirectivesView, now: int) -> bool {
    let ca = current_age(p, now);
    let lt = lifetime(p);
    let eff = match cc_num(qc, "max-age"@) {
        Some(m) => if m < lt {
            m
        } else {
            lt
        },
        None => lt,
    };
    let minf = match cc_num(qc, "min-fresh"@) {
        Some(v) => v,
        None => 0,
    };
    let no_stale = cc_has(res_cc(p), "must-revalidate"@) || (p.opts.shared && cc_has(
        res_cc(p),
        "proxy-revalidate"@,
    ));
    if no_stale {
        ca + minf < eff
    } else {
        match cc_val(qc, "max-stale"@) {
            Some(arg) => match arg {
                None => true,
                Some(v) => match parse_dec(v) {
                    Some(ms) => ca + minf < eff + ms,
                    None => ca + minf < eff,
                },
            },
            None => ca + minf < eff,
        }
    }
}

/// The whole satisfaction predicate.
pub open spec fn fresh_at(p: PolicyModel, r: RequestModel, now: int) -> bool {
    &&& request_matches(p, r, true)
    &&& !cc_has(req_cc_of(r.headers), "no-cache"@)
    &&& !pragma_no_cache(r.headers)
    &&& !cc_has(res_cc(p), "no-cache"@)
    &&& freshness_ok(p, req_cc_of(r.headers), now)
}

fn opt_value_eq(a: &Option<String>, b: &Option<String>) -> (r: bool)
    ensures
        r == (a.deep_view() == b.deep_view()),
{
    match (a, b) {
        (None, None) => true,
        (Some(x), Some(y)) => str_eq(x.as_str(), y.as_str()),
        _ => false,
    }
}

impl CachePolicy {
    pub(crate) fn host_matches_calc(&self, rh: &Vec<(String, String)>) -> (r: bool)
        ensures
            r == host_matches(self@.req_headers, rh.deep_view()),
    {
        let a = header_get(&self.req_headers, "host");
        let b = header_get(rh, "host");
        match (a, b) {
            (None, None) => true,
            (Some(x), Some(y)) => str_eq_ci(x.as_str(), y.as_str()),
            _ => false,
        }
    }

    pub(crate) fn method_matches_calc(&self, m: &str, allow_head: bool) -> (r: bool)
        ensures
            r == method_matches(self@, m@, allow_head),
    {
        if str_eq_ci(m, self.method.as_str()) {
            return true;
        }
        allow_head && str_eq_ci(self.method.as_str(), "GET") && str_eq_ci(m, "HEAD")
    }

    pub(crate) fn vary_matches_calc(&self, rh: &Vec<(String, String)>) -> (r: bool)
        ensures
            r == vary_matches(self@, rh.deep_view()),
    {
        let v = header_get(&self.res_headers, "vary");
        match v {
            None => true,
            Some(val) => {
                if has_token_ci_str(val.as_str(), "*") {
                    return false;
                }
                let toks = tokens_of_str(val.as_str());
                let ghost tv = tokens_of(val@);
                let mut i: usize = 0;
                while i < toks.len()
                    invariant
                        i <= toks@.len(),
                        toks.deep_view() == tv,
                        tv == tokens_of(val@),
                        toks@.len() == tv.len(),
                        hget(self@.res_headers, "vary"@) == Some(val@),
                        !has_token_ci(val@, "*"@),
                        forall|j: int|
                            0 <= j < i ==> hget(self@.req_headers, #[trigger] tv[j]) == hget(
                                rh.deep_view(),
                                tv[j],
                            ),
                    decreases toks@.len() - i,
                {
                    let mine = header_get(&self.req_headers, toks[i].as_str());
                    let theirs = header_get(rh, toks[i].as_str());
                    proof {
                        let a = hget(self@.req_headers, tv[i as int]);
                        let b = hget(rh.deep_view(), tv[i as int]);
                        assert(mine.deep_view() == a);
                        assert(theirs.deep_view() == b);
                    }
                    if !opt_value_eq(&mine, &theirs) {
                        proof {
                            assert(hget(self@.req_headers, #[trigger] tokens_of(val@)[i as int])
                                != hget(rh.deep_view(), tokens_of(val@)[i as int]));
                        }
                        return false;
                    }
                    i += 1;
                }
                true
            },
        }
    }

    pub(crate) fn request_matches_calc(&self, req: &HttpRequest, allow_head: bool) -> (r: bool)
        ensures
            r == request_matches(self@, req@, allow_head),
    {
        str_eq(req.uri.as_str(), self.uri.as_str()) && self.host_matches_calc(&req.headers)
            && self.method_matches_calc(req.method.as_str(), allow_head) && self.vary_matches_calc(
            &req.headers,
        )
    }

    /// Whether the stored response answers `new_request` at the given instant
    /// without contacting the server.
    pub fn is_cached_response_fresh_at(&self, new_request: &HttpRequest, now: i64) -> (r: bool)
        requires
            self.wf(),
        ensures
            r == fresh_at(self@, new_request@, now as int),
    {
        if !self.request_matches_calc(new_request, true) {
            return false;
        }
        let qc = match header_get(&new_request.headers, "cache-control") {
            Some(v) => crate::fields::parse_cc_str(v.as_str()),
            None => {
                let out: Vec<crate::fields::Directive> = Vec::new();
                proof {
                    assert(out.deep_view() =~= Seq::<(Seq<char>, Option<Seq<char>>)>::empty());
                }
                out
            },
        };
        if dir_has(&qc, "no-cache") {
            return false;
        }
        let pragma = header_get(&new_request.headers, "pragma");
        match pragma {
            Some(pv) => {
                let pd = crate::fields::parse_cc_str(pv.as_str());
                if dir_has(&pd, "no-cache") {
                    return false;
                }
            },
            None => {},
        }
        let rc = self.res_cc_vec();
        if dir_has(&rc, "no-cache") {
            return false;
        }
        let ca = self.current_age_calc(now);
        let lt = self.lifetime_calc();
        let eff: i64 = match dir_num(&qc, "max-age") {
            Some(m) => {
                if (m as i64) < lt {
                    m as i64
                } else {
                    lt
                }
            },
            None => lt,
        };
        let minf: i64 = match dir_num(&qc, "min-fresh") {
            Some(v) => v as i64,
            None => 0,
        };
        let no_stale = dir_has(&rc, "must-revalidate") || (self.opts.shared && dir_has(
            &rc,
            "proxy-revalidate",
        ));
        if no_stale {
            return ca + minf < eff;
        }
        let ms = dir_val(&qc, "max-stale");
        match ms {
            Some(arg) => match arg {
                None => true,
                Some(v) => {
                    let n = parse_dec_str(v.as_str());
                    match n {
                        Some(x) => ca + minf < eff + (x as i64),
                        None => ca + minf < eff,
                    }
                },
            },
            None => ca + minf < eff,
        }
    }
}

} // verus!
