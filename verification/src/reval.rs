//! The outgoing side: the conditional request that revalidates a stored
//! entry, the header set served from the cache, and the merge of a
//! `304 Not Modified` answer back into the stored record.
use vstd::prelude::*;

verus! {

use vstd::string::*;
use crate::text::{
    dec_chars,
    eq_ci,
    format_u64,
    has_prefix,
    join_sep,
    join_strings,
    split_list,
    split_listed,
    starts_with_str,
    str_eq_ci,
    trim_str,
    trimmed,
};
use crate::fields::{
    cc_num,
    FieldsView,
    header_get,
    hget,
    hhas,
    tokens_of,
    tokens_of_str,
};
use crate::policy::{
    age_secs,
    build_model,
    CachePolicy,
    clamp_ts,
    current_age,
    HttpRequest,
    HttpResponse,
    lifetime,
    PolicyModel,
    RequestModel,
    res_cc,
    ResponseModel,
};
use crate::satisfy::{host_matches, method_matches, request_matches};

// ------------------------------------------------------------------
// Hop-by-hop stripping.
// ------------------------------------------------------------------
/// The fixed hop-by-hop header names; they never travel past one hop.
pub open spec fn hop_name(nm: Seq<char>) -> bool {
    eq_ci(nm, "connection"@) || eq_ci(nm, "keep-alive"@) || eq_ci(nm, "proxy-authenticate"@)
        || eq_ci(nm, "proxy-authorization"@) || eq_ci(nm, "te"@) || eq_ci(nm, "trailer"@) || eq_ci(
        nm,
        "transfer-encoding"@,
    ) || eq_ci(nm, "upgrade"@)
}

/// The names a `Connection` header adds to the hop-by-hop set.
pub open spec fn conn_tokens(h: FieldsView) -> Seq<Seq<char>> {
    match hget(h, "connection"@) {
        Some(v) => tokens_of(v),
        None => Seq::empty(),
    }
}

pub open spec fn name_in(ts: Seq<Seq<char>>, nm: Seq<char>) -> bool {
    exists|i: int| 0 <= i < ts.len() && eq_ci(ts[i], nm)
}

/// Headers with the fixed set and the `Connection`-named ones removed.
pub open spec fn strip_hop(h: FieldsView, conn: Seq<Seq<char>>, n: int) -> FieldsView
    decreases n,
{
    if n <= 0 {
        Seq::empty()
    } else {
        let pre = strip_hop(h, conn, n - 1);
        if hop_name(h[n - 1].0) || name_in(conn, h[n - 1].0) {
            pre
        } else {
            pre.push(h[n - 1])
        }
    }
}

/// Headers with every field of one name removed.
pub open spec fn drop_header(h: FieldsView, nm: Seq<char>, n: int) -> FieldsView
    decreases n,
{
    if n <= 0 {
        Seq::empty()
    } else {
        let pre = drop_header(h, nm, n - 1);
        if eq_ci(h[n - 1].0, nm) {
            pre
        } else {
            pre.push(h[n - 1])
        }
    }
}

// ------------------------------------------------------------------
// Validators for the conditional request.
// ------------------------------------------------------------------
/// A weak entity tag entry.
pub open spec fn weak_entry(e: Seq<char>) -> bool {
    has_prefix(trimmed(e), "W/"@)
}

/// The trimmed entries that are not weak.
pub open spec fn strong_entries(parts: Seq<Seq<char>>, n: int) -> Seq<Seq<char>>
    decreases n,
{
    if n <= 0 {
        Seq::empty()
    } else {
        let pre = strong_entries(parts, n - 1);
        if weak_entry(parts[n - 1]) {
            pre
        } else {
            pre.push(trimmed(parts[n - 1]))
        }
    }
}

/// The entries an `If-None-Match` value keeps on an unsafe method.
pub open spec fn inm_strong(v: Seq<char>) -> Seq<Seq<char>> {
    let parts = split_listed(v, false);
    strong_entries(parts, parts.len() as int)
}

/// `If-None-Match` with the weak entries removed; nothing when none are left.
pub open spec fn inm_filtered(v: Seq<char>) -> Option<Seq<char>> {
    let kept = inm_strong(v);
    if kept.len() == 0 {
        None
    } else {
        Some(join_sep(kept, ", "@))
    }
}

/// The client's `If-None-Match` with the stored entity tag appended.
pub open spec fn merged_inm(p: PolicyModel, rh: FieldsView) -> Option<Seq<char>> {
    match (hget(rh, "if-none-match"@), hget(p.res_headers, "etag"@)) {
        (Some(a), Some(e)) => Some(a + ", "@ + e),
        (None, Some(e)) => Some(e),
        (Some(a), None) => Some(a),
        (None, None) => None,
    }
}

/// Methods other than `GET` and `HEAD` must not send weak validators.
pub open spec fn unsafe_method(m: Seq<char>) -> bool {
    !(eq_ci(m, "GET"@) || eq_ci(m, "HEAD"@))
}

/// The `If-None-Match` the conditional request carries.
pub open spec fn inm_value(p: PolicyModel, r: RequestModel) -> Option<Seq<char>> {
    match merged_inm(p, r.headers) {
        None => None,
        Some(v) => if unsafe_method(r.method) {
            inm_filtered(v)
        } else {
            Some(v)
        },
    }
}

/// The `If-Modified-Since` the conditional request carries: only on safe
/// methods outside range requests; the client's own value wins over the
/// stored `Last-Modified`.
pub open spec fn ims_value(p: PolicyModel, r: RequestModel) -> Option<Seq<char>> {
    if unsafe_method(r.method) || hhas(r.headers, "accept-ranges"@) || hhas(r.headers, "range"@) {
        None
    } else {
        match hget(r.headers, "if-modified-since"@) {
            Some(v) => Some(v),
            None => hget(p.res_headers, "last-modified"@),
        }
    }
}

/// Whether the response names its own expiration (rather than relying on the
/// heuristic).
pub open spec fn explicit_expiration(p: PolicyModel) -> bool {
    let rc = res_cc(p);
    cc_num(rc, "max-age"@) is Some || (p.opts.shared && cc_num(rc, "s-maxage"@) is Some) || (match
        hget(p.res_headers, "expires"@) {
        Some(v) => crate::dates::parse_http_date(v) is Some,
        None => false,
    })
}

/// A day-old entry whose lifetime was not explicitly promised for that long
/// carries a heuristic-expiration warning.
pub open spec fn warn_113(p: PolicyModel, now: int) -> bool {
    current_age(p, now) > 86400 && !(explicit_expiration(p) && lifetime(p) >= 86400)
}

pub open spec fn w113() -> Seq<char> {
    "113 - \"Heuristic Expiration\""@
}

pub open spec fn warn_text(w: Option<Seq<char>>) -> Seq<char> {
    match w {
        Some(x) => x + ", "@ + w113(),
        None => w113(),
    }
}

/// The header set of the conditional request that revalidates the entry: the
/// new request's headers without hop-by-hop fields; when the request matches
/// the stored entry, the validators; and the warning when the entry is old.
/// A request for something else gets no validators at all.
pub open spec fn reval_headers(p: PolicyModel, r: RequestModel, now: int) -> FieldsView {
    let conn = conn_tokens(r.headers);
    let base0 = strip_hop(r.headers, conn, r.headers.len() as int);
    let base1 = drop_header(base0, "if-none-match"@, base0.len() as int);
    let base = drop_header(base1, "if-modified-since"@, base1.len() as int);
    if !request_matches(p, r, true) {
        base
    } else {
        let with_inm = match inm_value(p, r) {
            Some(v) => base.push(("if-none-match"@, v)),
            None => base,
        };
        let with_ims = match ims_value(p, r) {
            Some(v) => with_inm.push(("if-modified-since"@, v)),
            None => with_inm,
        };
        if warn_113(p, now) {
            drop_header(with_ims, "warning"@, with_ims.len() as int).push(
                ("warning"@, warn_text(hget(base0, "warning"@))),
            )
        } else {
            with_ims
        }
    }
}

// ------------------------------------------------------------------
// Egress.
// ------------------------------------------------------------------
/// Warning entries that survive a cache hit: everything but the transient
/// one-hundred class.
pub open spec fn kept_warnings(parts: Seq<Seq<char>>, n: int) -> Seq<Seq<char>>
    decreases n,
{
    if n <= 0 {
        Seq::empty()
    } else {
        let pre = kept_warnings(parts, n - 1);
        let t = trimmed(parts[n - 1]);
        if t.len() > 0 && t[0] == '1' {
            pre
        } else {
            pre.push(t)
        }
    }
}

/// The headers served with a stored response: hop-by-hop fields stripped,
/// one-hundred-class warnings gone, and the `Age` set to the entry's age.
pub open spec fn egress_headers(p: PolicyModel, now: int) -> FieldsView {
    let conn = conn_tokens(p.res_headers);
    let base0 = strip_hop(p.res_headers, conn, p.res_headers.len() as int);
    let base1 = drop_header(base0, "warning"@, base0.len() as int);
    let base = drop_header(base1, "age"@, base1.len() as int);
    let with_w = match hget(p.res_headers, "warning"@) {
        None => base,
        Some(w) => {
            let kept = kept_warnings(split_listed(w, false), split_listed(w, false).len() as int);
            if kept.len() == 0 {
                base
            } else {
                base.push(("warning"@, join_sep(kept, ", "@)))
            }
        },
    };
    with_w.push(("age"@, dec_chars(age_secs(p, now))))
}

// ------------------------------------------------------------------
// The 304 merge.
// ------------------------------------------------------------------
/// Body metadata never taken from a `304`.
pub open spec fn excluded_name(nm: Seq<char>) -> bool {
    eq_ci(nm, "content-length"@) || eq_ci(nm, "content-encoding"@) || eq_ci(
        nm,
        "transfer-encoding"@,
    ) || eq_ci(nm, "content-range"@)
}

/// The stored headers with every field the `304` also names overwritten by
/// its value, except the excluded ones.
pub open spec fn overwrite(old: FieldsView, nh: FieldsView, n: int) -> FieldsView
    decreases n,
{
    if n <= 0 {
        Seq::empty()
    } else {
        let pre = overwrite(old, nh, n - 1);
        let nm = old[n - 1].0;
        if hhas(nh, nm) && !excluded_name(nm) {
            pre.push((nm, hget(nh, nm)->Some_0))
        } else {
            pre.push(old[n - 1])
        }
    }
}

pub open spec fn merge_headers(old: FieldsView, nh: FieldsView) -> FieldsView {
    overwrite(old, nh, old.len() as int)
}

/// At least one validator of the `304` names the stored entry: a matching
/// entity tag; else, with no entity tag in the answer, a matching
/// `Last-Modified`; else neither side may have validators at all.
pub open spec fn validators_match(p: PolicyModel, nh: FieldsView) -> bool {
    let ce = hget(p.res_headers, "etag"@);
    let ne = hget(nh, "etag"@);
    let cl = hget(p.res_headers, "last-modified"@);
    let nl = hget(nh, "last-modified"@);
    ||| (ne is Some && ce is Some && ne->Some_0 == ce->Some_0)
    ||| (ne is None && nl is Some && cl is Some && nl->Some_0 == cl->Some_0)
    ||| (ne is None && nl is None && ce is None && cl is None)
}

/// The revalidation answers for the stored entry.
pub open spec fn merge_compat(p: PolicyModel, r: RequestModel, resp: ResponseModel) -> bool {
    &&& r.uri == p.uri
    &&& host_matches(p.req_headers, r.headers)
    &&& method_matches(p, r.method, true)
    &&& validators_match(p, resp.headers)
}

/// What `is_cached_response_valid_at` leaves behind and reports: an answer
/// other than `304` replaces the record wholesale; a matching `304` refreshes
/// the stored headers and the response time; a `304` for something else
/// leaves the record alone.
pub open spec fn revalidated_model(
    p: PolicyModel,
    r: RequestModel,
    resp: ResponseModel,
    now: int,
) -> (PolicyModel, bool) {
    if resp.status != 304 {
        (build_model(r, resp, p.opts, now), false)
    } else if merge_compat(p, r, resp) {
        (
            PolicyModel {
                res_headers: merge_headers(p.res_headers, resp.headers),
                response_time: clamp_ts(now),
                ..p
            },
            true,
        )
    } else {
        (p, false)
    }
}

// ------------------------------------------------------------------
// Executable side.
// ------------------------------------------------------------------
fn in_tokens(ts: &Vec<String>, nm: &str) -> (r: bool)
    ensures
        r == name_in(ts.deep_view(), nm@),
{
    let ghost tv = ts.deep_view();
    let mut i: usize = 0;
    while i < ts.len()
        invariant
            i <= ts@.len(),
            tv == ts.deep_view(),
            tv.len() == ts@.len(),
            forall|j: int| 0 <= j < i ==> !eq_ci(tv[j], nm@),
        decreases ts@.len() - i,
    {
        if str_eq_ci(ts[i].as_str(), nm) {
            proof {
                assert(eq_ci(tv[i as int], nm@));
            }
            return true;
        }
        i += 1;
    }
    false
}

fn is_hop_name(nm: &str) -> (r: bool)
    ensures
        r == hop_name(nm@),
{
    str_eq_ci(nm, "connection") || str_eq_ci(nm, "keep-alive") || str_eq_ci(nm, "proxy-authenticate")
        || str_eq_ci(nm, "proxy-authorization") || str_eq_ci(nm, "te") || str_eq_ci(nm, "trailer")
        || str_eq_ci(nm, "transfer-encoding") || str_eq_ci(nm, "upgrade")
}

fn strip_hop_vec(h: &Vec<(String, String)>) -> (r: Vec<(String, String)>)
    ensures
        r.deep_view() == strip_hop(
            h.deep_view(),
            conn_tokens(h.deep_view()),
            h.deep_view().len() as int,
        ),
{
    let conn: Vec<String> = match header_get(h, "connection") {
        Some(v) => tokens_of_str(v.as_str()),
        None => {
            let out: Vec<String> = Vec::new();
            proof {
                assert(out.deep_view() =~= Seq::<Seq<char>>::empty());
            }
            out
        },
    };
    let ghost cv = conn_tokens(h.deep_view());
    let ghost hv = h.deep_view();
    let mut out: Vec<(String, String)> = Vec::new();
    let mut i: usize = 0;
    while i < h.len()
        invariant
            i <= h@.len(),
            hv == h.deep_view(),
            hv.len() == h@.len(),
            conn.deep_view() == cv,
            out.deep_view() == strip_hop(hv, cv, i as int),
        decreases h@.len() - i,
    {
        let nm = h[i].0.as_str();
        if !(is_hop_name(nm) || in_tokens(&conn, nm)) {
            let ghost pre = out.deep_view();
            out.push((h[i].0.clone(), h[i].1.clone()));
            proof {
                assert(out.deep_view() =~= pre.push(hv[i as int]));
            }
        }
        i += 1;
    }
    out
}

fn drop_header_vec(h: &Vec<(String, String)>, nm: &str) -> (r: Vec<(String, String)>)
    ensures
        r.deep_view() == drop_header(h.deep_view(), nm@, h.deep_view().len() as int),
{
    let ghost hv = h.deep_view();
    let mut out: Vec<(String, String)> = Vec::new();
    let mut i: usize = 0;
    while i < h.len()
        invariant
            i <= h@.len(),
            hv == h.deep_view(),
            hv.len() == h@.len(),
            out.deep_view() == drop_header(hv, nm@, i as int),
        decreases h@.len() - i,
    {
        if !str_eq_ci(h[i].0.as_str(), nm) {
            let ghost pre = out.deep_view();
            out.push((h[i].0.clone(), h[i].1.clone()));
            proof {
                assert(out.deep_view() =~= pre.push(hv[i as int]));
            }
        }
        i += 1;
    }
    out
}

fn inm_filter_str(v: &str) -> (r: Option<String>)
    ensures
        r.deep_view() == inm_filtered(v@),
{
    let parts = split_list(v, false);
    let ghost pv = parts.deep_view();
    let mut kept: Vec<String> = Vec::new();
    let mut i: usize = 0;
    while i < parts.len()
        invariant
            i <= parts@.len(),
            pv == parts.deep_view(),
            pv.len() == parts@.len(),
            kept.deep_view() == strong_entries(pv, i as int),
        decreases parts@.len() - i,
    {
        let t = trim_str(parts[i].as_str());
        if !starts_with_str(t.as_str(), "W/") {
            let ghost pre = kept.deep_view();
            kept.push(t);
            proof {
                assert(kept.deep_view() =~= pre.push(trimmed(pv[i as int])));
            }
        }
        i += 1;
    }
    if kept.len() == 0 {
        None
    } else {
        Some(join_strings(&kept, ", "))
    }
}

impl CachePolicy {
    fn explicit_expiration_calc(&self) -> (r: bool)
        ensures
            r == explicit_expiration(self@),
    {
        let rc = self.res_cc_vec();
        if crate::fields::dir_num(&rc, "max-age").is_some() {
            return true;
        }
        if self.opts.shared && crate::fields::dir_num(&rc, "s-maxage").is_some() {
            return true;
        }
        match header_get(&self.res_headers, "expires") {
            Some(v) => crate::dates::parse_date_str(v.as_str()).is_some(),
            None => false,
        }
    }

    fn warn_113_calc(&self, now: i64) -> (r: bool)
        requires
            self.wf(),
        ensures
            r == warn_113(self@, now as int),
    {
        let ca = self.current_age_calc(now);
        if ca <= 86400 {
            return false;
        }
        let lt = self.lifetime_calc();
        !(self.explicit_expiration_calc() && lt >= 86400)
    }

    /// The conditional request to send when the stored entry needs
    /// revalidation at the given instant: client headers pass through except
    /// hop-by-hop ones; the stored validators are merged in when the request
    /// names the stored resource.
    pub fn revalidation_headers_at(&self, new_request: &HttpRequest, now: i64) -> (r: Vec<
        (String, String),
    >)
        requires
            self.wf(),
        ensures
            r.deep_view() == reval_headers(self@, new_request@, now as int),
    {
        let base0 = strip_hop_vec(&new_request.headers);
        let base1 = drop_header_vec(&base0, "if-none-match");
        let base = drop_header_vec(&base1, "if-modified-since");
        if !self.request_matches_calc(new_request, true) {
            return base;
        }
        let incoming = header_get(&new_request.headers, "if-none-match");
        let etag = header_get(&self.res_headers, "etag");
        let merged: Option<String> = match (incoming, etag) {
            (Some(a), Some(e)) => {
                let mut s = a;
                s.append(", ");
                s.append(e.as_str());
                Some(s)
            },
            (None, Some(e)) => Some(e),
            (Some(a), None) => Some(a),
            (None, None) => None,
        };
        let m = new_request.method.as_str();
        let is_unsafe = !(str_eq_ci(m, "GET") || str_eq_ci(m, "HEAD"));
        let inm: Option<String> = match merged {
            None => None,
            Some(v) => {
                if is_unsafe {
                    inm_filter_str(v.as_str())
                } else {
                    Some(v)
                }
            },
        };
        let mut out = base;
        match inm {
            Some(v) => {
                let ghost pre = out.deep_view();
                out.push((String::from_str("if-none-match"), v));
                proof {
                    assert(out.deep_view() =~= pre.push(
                        ("if-none-match"@, inm_value(self@, new_request@)->Some_0),
                    ));
                }
            },
            None => {},
        }
        let ims: Option<String> = if is_unsafe || header_get(
            &new_request.headers,
            "accept-ranges",
        ).is_some() || header_get(&new_request.headers, "range").is_some() {
            None
        } else {
            match header_get(&new_request.headers, "if-modified-since") {
                Some(v) => Some(v),
                None => header_get(&self.res_headers, "last-modified"),
            }
        };
        match ims {
            Some(v) => {
                let ghost pre = out.deep_view();
                out.push((String::from_str("if-modified-since"), v));
                proof {
                    assert(out.deep_view() =~= pre.push(
                        ("if-modified-since"@, ims_value(self@, new_request@)->Some_0),
                    ));
                }
            },
            None => {},
        }
        if self.warn_113_calc(now) {
            let wold = header_get(&base0, "warning");
            let wtext: String = match wold {
                Some(x) => {
                    let mut s = x;
                    s.append(", ");
                    s.append("113 - \"Heuristic Expiration\"");
                    s
                },
                None => String::from_str("113 - \"Heuristic Expiration\""),
            };
            let mut out2 = drop_header_vec(&out, "warning");
            let ghost pre = out2.deep_view();
            out2.push((String::from_str("warning"), wtext));
            proof {
                assert(out2.deep_view() =~= pre.push(
                    ("warning"@, warn_text(hget(base0.deep_view(), "warning"@))),
                ));
            }
            out2
        } else {
            out
        }
    }

    /// The headers to serve with the stored response at the given instant.
    pub fn response_headers_at(&self, now: i64) -> (r: Vec<(String, String)>)
        requires
            self.wf(),
        ensures
            r.deep_view() == egress_headers(self@, now as int),
    {
        let base0 = strip_hop_vec(&self.res_headers);
        let base1 = drop_header_vec(&base0, "warning");
        let base = drop_header_vec(&base1, "age");
        let mut out = base;
        match header_get(&self.res_headers, "warning") {
            None => {},
            Some(w) => {
                let parts = split_list(w.as_str(), false);
                let ghost pv = parts.deep_view();
                let mut kept: Vec<String> = Vec::new();
                let mut i: usize = 0;
                while i < parts.len()
                    invariant
                        i <= parts@.len(),
                        pv == parts.deep_view(),
                        pv.len() == parts@.len(),
                        kept.deep_view() == kept_warnings(pv, i as int),
                    decreases parts@.len() - i,
                {
                    let t = trim_str(parts[i].as_str());
                    let drop_it = t.as_str().unicode_len() > 0 && t.as_str().get_char(0) == '1';
                    if !drop_it {
                        let ghost pre = kept.deep_view();
                        kept.push(t);
                        proof {
                            assert(kept.deep_view() =~= pre.push(trimmed(pv[i as int])));
                        }
                    }
                    i += 1;
                }
                if kept.len() > 0 {
                    let joined = join_strings(&kept, ", ");
                    let ghost pre = out.deep_view();
                    out.push((String::from_str("warning"), joined));
                    proof {
                        assert(out.deep_view() =~= pre.push(
                            (
                                "warning"@,
                                join_sep(
                                    kept_warnings(
                                        split_listed(hget(self@.res_headers, "warning"@)->Some_0, false),
                                        split_listed(
                                            hget(self@.res_headers, "warning"@)->Some_0,
                                            false,
                                        ).len() as int,
                                    ),
                                    ", "@,
                                ),
                            ),
                        ));
                    }
                }
            },
        }
        let age = self.age_at(now);
        let aged = format_u64(age as u64);
        let ghost pre = out.deep_view();
        out.push((String::from_str("age"), aged));
        proof {
            assert(out.deep_view() =~= pre.push(("age"@, dec_chars(age_secs(self@, now as int)))));
        }
        out
    }

    /// Replaces the headers of `response` with what the cache serves for this
    /// entry at the given instant.
    pub fn update_response_headers_at(&self, response: &mut HttpResponse, now: i64)
        requires
            self.wf(),
        ensures
            final(response)@.headers == egress_headers(self@, now as int),
            final(response)@.status == old(response)@.status,
    {
        let h = self.response_headers_at(now);
        response.headers = h;
    }

    fn validators_match_calc(&self, nh: &Vec<(String, String)>) -> (r: bool)
        ensures
            r == validators_match(self@, nh.deep_view()),
    {
        let ce = header_get(&self.res_headers, "etag");
        let ne = header_get(nh, "etag");
        let cl = header_get(&self.res_headers, "last-modified");
        let nl = header_get(nh, "last-modified");
        match (&ne, &ce) {
            (Some(a), Some(b)) => {
                if crate::text::str_eq(a.as_str(), b.as_str()) {
                    return true;
                }
            },
            _ => {},
        }
        if ne.is_none() {
            match (&nl, &cl) {
                (Some(a), Some(b)) => {
                    if crate::text::str_eq(a.as_str(), b.as_str()) {
                        return true;
                    }
                },
                _ => {},
            }
            if nl.is_none() && ce.is_none() && cl.is_none() {
                return true;
            }
        }
        false
    }

    fn merge_headers_calc(&self, nh: &Vec<(String, String)>) -> (r: Vec<(String, String)>)
        ensures
            r.deep_view() == merge_headers(self@.res_headers, nh.deep_view()),
    {
        let ghost ov = self@.res_headers;
        let ghost nv = nh.deep_view();
        let mut out: Vec<(String, String)> = Vec::new();
        let mut i: usize = 0;
        while i < self.res_headers.len()
            invariant
                i <= self.res_headers@.len(),
                ov == self.res_headers.deep_view(),
                nv == nh.deep_view(),
                ov.len() == self.res_headers@.len(),
                out.deep_view() == overwrite(ov, nv, i as int),
            decreases self.res_headers@.len() - i,
        {
            let nm = self.res_headers[i].0.as_str();
            let excl = str_eq_ci(nm, "content-length") || str_eq_ci(nm, "content-encoding")
                || str_eq_ci(nm, "transfer-encoding") || str_eq_ci(nm, "content-range");
            let ghost pre = out.deep_view();
            if !excl {
                match header_get(nh, nm) {
                    Some(v) => {
                        out.push((self.res_headers[i].0.clone(), v));
                        proof {
                            assert(out.deep_view() =~= pre.push(
                                (ov[i as int].0, hget(nv, ov[i as int].0)->Some_0),
                            ));
                        }
                    },
                    None => {
                        out.push((self.res_headers[i].0.clone(), self.res_headers[i].1.clone()));
                        proof {
                            assert(out.deep_view() =~= pre.push(ov[i as int]));
                        }
                    },
                }
            } else {
                out.push((self.res_headers[i].0.clone(), self.res_headers[i].1.clone()));
                proof {
                    assert(out.deep_view() =~= pre.push(ov[i as int]));
                }
            }
            i += 1;
        }
        out
    }

    /// Folds the answer to a revalidation back into the record. True means a
    /// matching `304` arrived and the stored body stays valid; the record's
    /// headers and response time are refreshed. On any other status the
    /// record is replaced around the new response, and on a `304` for
    /// something else it is left alone; either way the stored body is not to
    /// be used.
    pub fn is_cached_response_valid_at(
        &mut self,
        new_request: &HttpRequest,
        new_response: &HttpResponse,
        now: i64,
    ) -> (r: bool)
        requires
            old(self).wf(),
        ensures
            final(self)@ == revalidated_model(
                old(self)@,
                new_request@,
                new_response@,
                now as int,
            ).0,
            r == revalidated_model(old(self)@, new_request@, new_response@, now as int).1,
            final(self).wf(),
    {
        if new_response.status != 304 {
            let o = self.opts;
            *self = o.policy_for_at(new_request, new_response, now);
            return false;
        }
        let compat = crate::text::str_eq(new_request.uri.as_str(), self.uri.as_str())
            && self.host_matches_calc(&new_request.headers) && self.method_matches_calc(
            new_request.method.as_str(),
            true,
        ) && self.validators_match_calc(&new_response.headers);
        if compat {
            let merged = self.merge_headers_calc(&new_response.headers);
            self.res_headers = merged;
            self.response_time = crate::policy::clamp_now(now);
            proof {
                assert(self@ =~~= revalidated_model(
                    old(self)@,
                    new_request@,
                    new_response@,
                    now as int,
                ).0);
            }
            true
        } else {
            false
        }
    }
}

} // verus!
