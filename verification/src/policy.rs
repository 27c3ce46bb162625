//! The policy record and its decisions: what `build` captures, whether the
//! captured response is storable, and the freshness arithmetic (age, lifetime,
//! staleness, time to live).
use vstd::prelude::*;

verus! {

use vstd::string::*;
use crate::text::{eq_ci, parse_dec, parse_dec_str, str_eq_ci, trim_str, trimmed, join_sep};
use crate::fields::{
    cc_has,
    cc_num,
    dir_has,
    dir_num,
    Directive,
    DirectivesView,
    FieldsView,
    has_token_ci,
    has_token_ci_str,
    header_get,
    header_has,
    hget,
    hhas,
    parse_cc,
    parse_cc_str,
};
use crate::dates::parse_http_date;
use crate::dates::parse_date_str;
use crate::text::join_strings;

/// All instants the engine computes with are clamped into this range of
/// seconds around the epoch; headers that name a time outside it are treated
/// as unparseable.
pub const TS_BOUND: i64 = 1000000000000000;

/// Configuration of the cache that evaluates responses. It is independent of
/// any one request or response.
#[derive(Clone, Copy, Debug)]
pub struct CacheOptions {
    /// Evaluate as a shared (proxy) cache: honor `s-maxage`, refuse `private`,
    /// and be strict about authenticated responses and cookies.
    pub shared: bool,
    /// When both `pre-check` and `post-check` appear in the response's
    /// `Cache-Control`, drop those and the anti-cache directives next to
    /// them, along with `Expires` and `Pragma`.
    pub ignore_cargo_cult: bool,
    /// When false, age is measured from the instant the response arrived
    /// rather than from its `Date` header.
    pub trust_server_date: bool,
    /// Heuristic freshness as a percentage of the time since `Last-Modified`.
    pub cache_heuristic: u8,
    /// Seconds an `immutable` response without explicit expiration stays
    /// fresh.
    pub immutable_min_time_to_live: u32,
}

pub ghost struct OptionsModel {
    pub shared: bool,
    pub ignore_cargo_cult: bool,
    pub trust_server_date: bool,
    pub cache_heuristic: int,
    pub immutable_min_time_to_live: int,
}

impl View for CacheOptions {
    type V = OptionsModel;

    open spec fn view(&self) -> OptionsModel {
        OptionsModel {
            shared: self.shared,
            ignore_cargo_cult: self.ignore_cargo_cult,
            trust_server_date: self.trust_server_date,
            cache_heuristic: self.cache_heuristic as int,
            immutable_min_time_to_live: self.immutable_min_time_to_live as int,
        }
    }
}

impl Default for CacheOptions {
    /// A shared cache that trusts the server's `Date`, uses ten percent of
    /// the time since `Last-Modified` as heuristic freshness, and keeps
    /// `immutable` responses for a day.
    fn default() -> (r: CacheOptions)
        ensures
            r.shared,
            !r.ignore_cargo_cult,
            r.trust_server_date,
            r.cache_heuristic == 10,
            r.immutable_min_time_to_live == 86400,
    {
        CacheOptions {
            shared: true,
            ignore_cargo_cult: false,
            trust_server_date: true,
            cache_heuristic: 10,
            immutable_min_time_to_live: 86400,
        }
    }
}

/// A request as the engine reads it: a method, a target, and headers whose
/// names are compared regardless of case.
#[derive(Clone, Debug)]
pub struct HttpRequest {
    pub method: String,
    pub uri: String,
    pub headers: Vec<(String, String)>,
}

pub ghost struct RequestModel {
    pub method: Seq<char>,
    pub uri: Seq<char>,
    pub headers: FieldsView,
}

impl View for HttpRequest {
    type V = RequestModel;

    open spec fn view(&self) -> RequestModel {
        RequestModel { method: self.method@, uri: self.uri@, headers: self.headers.deep_view() }
    }
}

/// A response as the engine reads it: a status code and headers.
#[derive(Clone, Debug)]
pub struct HttpResponse {
    pub status: u16,
    pub headers: Vec<(String, String)>,
}

pub ghost struct ResponseModel {
    pub status: int,
    pub headers: FieldsView,
}

impl View for HttpResponse {
    type V = ResponseModel;

    open spec fn view(&self) -> ResponseModel {
        ResponseModel { status: self.status as int, headers: self.headers.deep_view() }
    }
}

/// The stored record: the captured request fingerprint, the captured response
/// headers, the instant the response arrived, and the options it was
/// evaluated under. Everything else the engine derives on demand.
#[derive(Debug)]
pub struct CachePolicy {
    pub(crate) opts: CacheOptions,
    pub(crate) method: String,
    pub(crate) uri: String,
    pub(crate) req_headers: Vec<(String, String)>,
    pub(crate) status: u16,
    pub(crate) res_headers: Vec<(String, String)>,
    pub(crate) response_time: i64,
}

pub ghost struct PolicyModel {
    pub opts: OptionsModel,
    pub method: Seq<char>,
    pub uri: Seq<char>,
    pub req_headers: FieldsView,
    pub status: int,
    pub res_headers: FieldsView,
    pub response_time: int,
}

impl View for CachePolicy {
    type V = PolicyModel;

    open(crate) spec fn view(&self) -> PolicyModel {
        PolicyModel {
            opts: self.opts@,
            method: self.method@,
            uri: self.uri@,
            req_headers: self.req_headers.deep_view(),
            status: self.status as int,
            res_headers: self.res_headers.deep_view(),
            response_time: self.response_time as int,
        }
    }
}

impl CachePolicy {
    /// The captured instant lies in the range the arithmetic assumes; every
    /// constructor establishes it.
    pub open spec fn wf(&self) -> bool {
        -TS_BOUND <= self@.response_time <= TS_BOUND
    }
}

pub open spec fn clamp_ts(t: int) -> int {
    if t < -TS_BOUND {
        -TS_BOUND as int
    } else if t > TS_BOUND {
        TS_BOUND as int
    } else {
        t
    }
}

// ------------------------------------------------------------------
// Capture: normalisation of the response headers at build time.
// ------------------------------------------------------------------
/// The directives of the response's own `Cache-Control` header.
pub open spec fn raw_res_cc(h: FieldsView) -> DirectivesView {
    match hget(h, "cache-control"@) {
        Some(v) => parse_cc(v),
        None => Seq::empty(),
    }
}

pub open spec fn is_cargo_name(nm: Seq<char>) -> bool {
    eq_ci(nm, "pre-check"@) || eq_ci(nm, "post-check"@) || eq_ci(nm, "no-store"@) || eq_ci(
        nm,
        "no-cache"@,
    )
}

/// The directive list with the cargo-cult names removed.
pub open spec fn strip_cargo(d: DirectivesView, n: int) -> DirectivesView
    decreases n,
{
    if n <= 0 {
        Seq::empty()
    } else {
        let pre = strip_cargo(d, n - 1);
        if is_cargo_name(d[n - 1].0) {
            pre
        } else {
            pre.push(d[n - 1])
        }
    }
}

/// One directive written back out.
pub open spec fn dir_text(d: (Seq<char>, Option<Seq<char>>)) -> Seq<char> {
    match d.1 {
        Some(v) => d.0 + "="@ + v,
        None => d.0,
    }
}

pub open spec fn dir_texts(d: DirectivesView, n: int) -> Seq<Seq<char>>
    decreases n,
{
    if n <= 0 {
        Seq::empty()
    } else {
        dir_texts(d, n - 1).push(dir_text(d[n - 1]))
    }
}

pub open spec fn render_dirs(d: DirectivesView) -> Seq<char> {
    join_sep(dir_texts(d, d.len() as int), ", "@)
}

pub open spec fn is_cargo_dropped_header(nm: Seq<char>) -> bool {
    eq_ci(nm, "cache-control"@) || eq_ci(nm, "expires"@) || eq_ci(nm, "pragma"@)
}

pub open spec fn drop_cargo_headers(h: FieldsView, n: int) -> FieldsView
    decreases n,
{
    if n <= 0 {
        Seq::empty()
    } else {
        let pre = drop_cargo_headers(h, n - 1);
        if is_cargo_dropped_header(h[n - 1].0) {
            pre
        } else {
            pre.push(h[n - 1])
        }
    }
}

/// Whether the cargo-cult rewrite applies to these response headers.
pub open spec fn cargo_applies(h: FieldsView, icc: bool) -> bool {
    icc && cc_has(raw_res_cc(h), "pre-check"@) && cc_has(raw_res_cc(h), "post-check"@)
}

/// Response headers as captured: when the cargo-cult rewrite applies, the
/// anti-cache directives leave the `Cache-Control` header, and `Expires` and
/// `Pragma` leave the header set.
pub open spec fn captured_res_headers(h: FieldsView, icc: bool) -> FieldsView {
    if cargo_applies(h, icc) {
        let kept = drop_cargo_headers(h, h.len() as int);
        let d2 = strip_cargo(raw_res_cc(h), raw_res_cc(h).len() as int);
        if d2.len() == 0 {
            kept
        } else {
            kept.push(("cache-control"@, render_dirs(d2)))
        }
    } else {
        h
    }
}

/// What `policy_for_at` captures.
pub open spec fn build_model(
    req: RequestModel,
    resp: ResponseModel,
    o: OptionsModel,
    now: int,
) -> PolicyModel {
    PolicyModel {
        opts: o,
        method: req.method,
        uri: req.uri,
        req_headers: req.headers,
        status: resp.status,
        res_headers: captured_res_headers(resp.headers, o.ignore_cargo_cult),
        response_time: clamp_ts(now),
    }
}

// ------------------------------------------------------------------
// Effective directives.
// ------------------------------------------------------------------
/// Whether a `Pragma` header carries `no-cache`.
pub open spec fn pragma_no_cache(h: FieldsView) -> bool {
    match hget(h, "pragma"@) {
        Some(v) => cc_has(parse_cc(v), "no-cache"@),
        None => false,
    }
}

/// The response's effective directives: its `Cache-Control` when it has one;
/// else `no-cache` alone when an old-style `Pragma: no-cache` stands in for
/// it.
pub open spec fn res_cc(p: PolicyModel) -> DirectivesView {
    match hget(p.res_headers, "cache-control"@) {
        Some(v) => parse_cc(v),
        None => if pragma_no_cache(p.res_headers) {
            seq![("no-cache"@, None::<Seq<char>>)]
        } else {
            Seq::empty()
        },
    }
}

/// The captured request's directives.
pub open spec fn req_cc_of(h: FieldsView) -> DirectivesView {
    match hget(h, "cache-control"@) {
        Some(v) => parse_cc(v),
        None => Seq::empty(),
    }
}

// ------------------------------------------------------------------
// Storability.
// ------------------------------------------------------------------
/// Status codes this cache understands; everything else is never stored.
pub open spec fn understood_status(s: int) -> bool {
    s == 200 || s == 203 || s == 204 || s == 300 || s == 301 || s == 302 || s == 303 || s == 307
        || s == 308 || s == 404 || s == 405 || s == 410 || s == 414 || s == 501
}

/// Status codes cacheable without explicit freshness information.
pub open spec fn default_cacheable_status(s: int) -> bool {
    understood_status(s) && s != 303
}

/// Explicit expiration carried by directives: `max-age`, or `s-maxage` in a
/// shared cache.
pub open spec fn explicit_exp(rc: DirectivesView, shared: bool) -> bool {
    cc_num(rc, "max-age"@) is Some || (shared && cc_num(rc, "s-maxage"@) is Some)
}

/// Whether the response's `Vary` names `*`.
pub open spec fn vary_star(p: PolicyModel) -> bool {
    match hget(p.res_headers, "vary"@) {
        Some(v) => has_token_ci(v, "*"@),
        None => false,
    }
}

/// Whether the response may enter the cache at all.
pub open spec fn storable(p: PolicyModel) -> bool {
    let rc = res_cc(p);
    let qc = req_cc_of(p.req_headers);
    &&& !cc_has(qc, "no-store"@)
    &&& !cc_has(rc, "no-store"@)
    &&& !(p.opts.shared && cc_has(rc, "private"@))
    &&& (eq_ci(p.method, "GET"@) || eq_ci(p.method, "HEAD"@) || (eq_ci(p.method, "POST"@)
        && explicit_exp(rc, p.opts.shared)))
    &&& !(p.opts.shared && hhas(p.req_headers, "authorization"@) && !(cc_has(rc, "public"@)
        || cc_has(rc, "must-revalidate"@) || cc_num(rc, "s-maxage"@) is Some))
    &&& understood_status(p.status)
    &&& (default_cacheable_status(p.status) || explicit_exp(rc, p.opts.shared) || cc_has(
        rc,
        "public"@,
    ))
    &&& !(p.opts.shared && hhas(p.res_headers, "set-cookie"@) && !(cc_has(rc, "public"@) || cc_has(
        rc,
        "immutable"@,
    ) || cc_num(rc, "s-maxage"@) is Some || cc_has(rc, "must-revalidate"@)))
    &&& !(vary_star(p) && !cc_has(rc, "immutable"@))
}

// ------------------------------------------------------------------
// Freshness arithmetic.
// ------------------------------------------------------------------
/// The server's own clock reading: its `Date` header when that parses, else
/// the arrival instant.
pub open spec fn server_date(p: PolicyModel) -> int {
    match hget(p.res_headers, "date"@) {
        Some(v) => match parse_http_date(v) {
            Some(t) => t,
            None => p.response_time,
        },
        None => p.response_time,
    }
}

/// The instant ages are measured from.
pub open spec fn date_value(p: PolicyModel) -> int {
    if p.opts.trust_server_date {
        server_date(p)
    } else {
        p.response_time
    }
}

/// The `Age` header's value; absent or malformed means zero.
pub open spec fn age_header(p: PolicyModel) -> int {
    match hget(p.res_headers, "age"@) {
        Some(v) => match parse_dec(trimmed(v)) {
            Some(n) => n,
            None => 0,
        },
        None => 0,
    }
}

/// Age at `now`: apparent age on arrival, plus the `Age` header, plus the
/// time the entry has rested in this cache.
pub open spec fn current_age(p: PolicyModel, now: int) -> int {
    let apparent = if p.response_time >= date_value(p) {
        p.response_time - date_value(p)
    } else {
        0
    };
    apparent + age_header(p) + (clamp_ts(now) - p.response_time)
}

/// Heuristic freshness from `Last-Modified`, as a share of the document's
/// age at the server.
pub open spec fn heuristic_base(p: PolicyModel) -> int {
    match hget(p.res_headers, "last-modified"@) {
        Some(v) => match parse_http_date(v) {
            Some(lm) => if server_date(p) > lm {
                ((server_date(p) - lm) * p.opts.cache_heuristic) / 100
            } else {
                0
            },
            None => 0,
        },
        None => 0,
    }
}

/// The freshness lifetime in seconds. Precedence: nothing for entries that
/// may not be stored or carry `no-cache`; `s-maxage` (shared; a shared cache
/// with `proxy-revalidate` serves nothing without a check); `max-age`;
/// `Expires` against the server date; the heuristic; and `immutable`'s
/// default where the rest yields nothing.
pub open spec fn lifetime(p: PolicyModel) -> int {
    let rc = res_cc(p);
    if !storable(p) || cc_has(rc, "no-cache"@) {
        0
    } else if p.opts.shared && cc_has(rc, "proxy-revalidate"@) {
        0
    } else if p.opts.shared && cc_num(rc, "s-maxage"@) is Some {
        cc_num(rc, "s-maxage"@)->Some_0
    } else if cc_num(rc, "max-age"@) is Some {
        cc_num(rc, "max-age"@)->Some_0
    } else {
        let base = match hget(p.res_headers, "expires"@) {
            Some(v) => match parse_http_date(v) {
                Some(e) => if e >= server_date(p) {
                    e - server_date(p)
                } else {
                    0
                },
                None => heuristic_base(p),
            },
            None => heuristic_base(p),
        };
        if base == 0 && cc_has(rc, "immutable"@) {
            p.opts.immutable_min_time_to_live
        } else {
            base
        }
    }
}

/// Stale means the age has reached the lifetime.
pub open spec fn stale_at(p: PolicyModel, now: int) -> bool {
    current_age(p, now) >= lifetime(p)
}

pub open spec fn clamp_u32(v: int) -> int {
    if v < 0 {
        0
    } else if v > 0xffffffff {
        0xffffffff
    } else {
        v
    }
}

/// Age in whole seconds, reported as a machine integer.
pub open spec fn age_secs(p: PolicyModel, now: int) -> int {
    clamp_u32(current_age(p, now))
}

/// Lifetime in whole seconds, reported as a machine integer.
pub open spec fn max_age_secs(p: PolicyModel) -> int {
    clamp_u32(lifetime(p))
}

/// Remaining freshness in milliseconds.
pub open spec fn ttl_ms(p: PolicyModel, now: int) -> int {
    clamp_u32(clamp_u32(lifetime(p) - current_age(p, now)) * 1000)
}

// ------------------------------------------------------------------
// Executable derivations.
// ------------------------------------------------------------------
pub(crate) fn copy_headers(h: &Vec<(String, String)>) -> (r: Vec<(String, String)>)
    ensures
        r.deep_view() == h.deep_view(),
{
    let mut out: Vec<(String, String)> = Vec::new();
    let mut i: usize = 0;
    while i < h.len()
        invariant
            i <= h@.len(),
            out.deep_view() == h.deep_view().take(i as int),
        decreases h@.len() - i,
    {
        let ghost pre = out.deep_view();
        out.push((h[i].0.clone(), h[i].1.clone()));
        proof {
            assert(out.deep_view() =~= pre.push(h.deep_view()[i as int]));
            assert(pre.push(h.deep_view()[i as int]) =~= h.deep_view().take(i as int + 1));
        }
        i += 1;
    }
    proof {
        assert(h.deep_view().take(h.deep_view().len() as int) =~= h.deep_view());
    }
    out
}

fn strip_cargo_vec(d: &Vec<Directive>) -> (r: Vec<Directive>)
    ensures
        r.deep_view() == strip_cargo(d.deep_view(), d.deep_view().len() as int),
{
    let ghost dv = d.deep_view();
    let mut out: Vec<Directive> = Vec::new();
    let mut i: usize = 0;
    while i < d.len()
        invariant
            i <= d@.len(),
            dv == d.deep_view(),
            dv.len() == d@.len(),
            out.deep_view() == strip_cargo(dv, i as int),
        decreases d@.len() - i,
    {
        let nm = d[i].name.as_str();
        let cargo = str_eq_ci(nm, "pre-check") || str_eq_ci(nm, "post-check") || str_eq_ci(
            nm,
            "no-store",
        ) || str_eq_ci(nm, "no-cache");
        if !cargo {
            let ghost pre = out.deep_view();
            let val = match &d[i].value {
                Some(v) => Some(v.clone()),
                None => None,
            };
            out.push(Directive { name: d[i].name.clone(), value: val });
            proof {
                assert(out.deep_view() =~= pre.push(dv[i as int]));
            }
        }
        i += 1;
    }
    out
}

fn render_dirs_vec(d: &Vec<Directive>) -> (r: String)
    ensures
        r@ == render_dirs(d.deep_view()),
{
    let ghost dv = d.deep_view();
    let mut parts: Vec<String> = Vec::new();
    let mut i: usize = 0;
    while i < d.len()
        invariant
            i <= d@.len(),
            dv == d.deep_view(),
            dv.len() == d@.len(),
            parts.deep_view() == dir_texts(dv, i as int),
        decreases d@.len() - i,
    {
        let ghost pre = parts.deep_view();
        let mut t = d[i].name.clone();
        match &d[i].value {
            Some(v) => {
                t.append("=");
                t.append(v.as_str());
            },
            None => {},
        }
        parts.push(t);
        proof {
            assert(parts.deep_view() =~= pre.push(dir_text(dv[i as int])));
        }
        i += 1;
    }
    join_strings(&parts, ", ")
}

fn drop_cargo_headers_vec(h: &Vec<(String, String)>) -> (r: Vec<(String, String)>)
    ensures
        r.deep_view() == drop_cargo_headers(h.deep_view(), h.deep_view().len() as int),
{
    let ghost hv = h.deep_view();
    let mut out: Vec<(String, String)> = Vec::new();
    let mut i: usize = 0;
    while i < h.len()
        invariant
            i <= h@.len(),
            hv == h.deep_view(),
            hv.len() == h@.len(),
            out.deep_view() == drop_cargo_headers(hv, i as int),
        decreases h@.len() - i,
    {
        let nm = h[i].0.as_str();
        let dropped = str_eq_ci(nm, "cache-control") || str_eq_ci(nm, "expires") || str_eq_ci(
            nm,
            "pragma",
        );
        if !dropped {
            let ghost pre = out.deep_view();
            out.push((h[i].0.clone(), h[i].1.clone()));
            proof {
                assert(out.deep_view() =~= pre.push(hv[i as int]));
            }
        }
        i += 1;
    }
    out
}

fn captured_res_headers_vec(h: &Vec<(String, String)>, icc: bool) -> (r: Vec<(String, String)>)
    ensures
        r.deep_view() == captured_res_headers(h.deep_view(), icc),
{
    if !icc {
        return copy_headers(h);
    }
    let raw = header_get(h, "cache-control");
    let rawd = match &raw {
        Some(v) => parse_cc_str(v.as_str()),
        None => Vec::new(),
    };
    proof {
        assert(rawd.deep_view() =~= raw_res_cc(h.deep_view()));
    }
    if !(dir_has(&rawd, "pre-check") && dir_has(&rawd, "post-check")) {
        return copy_headers(h);
    }
    let kept0 = drop_cargo_headers_vec(h);
    let stripped = strip_cargo_vec(&rawd);
    if stripped.len() == 0 {
        kept0
    } else {
        let rendered = render_dirs_vec(&stripped);
        let mut kept = kept0;
        let ghost pre = kept.deep_view();
        kept.push((String::from_str("cache-control"), rendered));
        proof {
            assert(kept.deep_view() =~= pre.push(("cache-control"@, render_dirs(strip_cargo(
                raw_res_cc(h.deep_view()),
                raw_res_cc(h.deep_view()).len() as int,
            )))));
        }
        kept
    }
}

pub(crate) fn clamp_now(now: i64) -> (r: i64)
    ensures
        r as int == clamp_ts(now as int),
        -TS_BOUND <= r <= TS_BOUND,
{
    if now < -TS_BOUND {
        -TS_BOUND
    } else if now > TS_BOUND {
        TS_BOUND
    } else {
        now
    }
}

impl CacheOptions {
    /// A single-user cache: `private` responses may be stored and `s-maxage`
    /// is ignored.
    pub fn new_unshared() -> (r: Self)
        ensures
            !r.shared,
            !r.ignore_cargo_cult,
            r.trust_server_date,
            r.cache_heuristic == 10,
            r.immutable_min_time_to_live == 86400,
    {
        CacheOptions { shared: false, ..Self::default() }
    }

    /// The default options with `trust_server_date` as given.
    pub fn new_with_trust_server_date_option(trust_server_date: bool) -> (r: Self)
        ensures
            r.shared,
            !r.ignore_cargo_cult,
            r.trust_server_date == trust_server_date,
            r.cache_heuristic == 10,
            r.immutable_min_time_to_live == 86400,
    {
        CacheOptions { trust_server_date, ..Self::default() }
    }

    /// The default options with `ignore_cargo_cult` as given.
    pub fn new_with_ignore_cargo_cult_option(ignore_cargo_cult: bool) -> (r: Self)
        ensures
            r.shared,
            r.ignore_cargo_cult == ignore_cargo_cult,
            r.trust_server_date,
            r.cache_heuristic == 10,
            r.immutable_min_time_to_live == 86400,
    {
        CacheOptions { ignore_cargo_cult, ..Self::default() }
    }

    /// The default options with the `immutable` lifetime as given.
    pub fn new_with_immutable_min_time_to_live_option(immutable_min_time_to_live: u32) -> (r: Self)
        ensures
            r.shared,
            !r.ignore_cargo_cult,
            r.trust_server_date,
            r.cache_heuristic == 10,
            r.immutable_min_time_to_live == immutable_min_time_to_live,
    {
        CacheOptions { immutable_min_time_to_live, ..Self::default() }
    }

    /// Captures request and response at the given instant (seconds since the
    /// Unix epoch) and returns the policy record to store beside the body.
    pub fn policy_for_at(&self, request: &HttpRequest, response: &HttpResponse, now: i64) -> (r:
        CachePolicy)
        ensures
            r@ == build_model(request@, response@, self@, now as int),
            r.wf(),
    {
        let res_headers = captured_res_headers_vec(&response.headers, self.ignore_cargo_cult);
        CachePolicy {
            opts: *self,
            method: request.method.clone(),
            uri: request.uri.clone(),
            req_headers: copy_headers(&request.headers),
            status: response.status,
            res_headers,
            response_time: clamp_now(now),
        }
    }
}

impl CachePolicy {
    pub(crate) fn res_cc_vec(&self) -> (r: Vec<Directive>)
        ensures
            r.deep_view() == res_cc(self@),
    {
        let cc = header_get(&self.res_headers, "cache-control");
        match cc {
            Some(v) => parse_cc_str(v.as_str()),
            None => {
                let pr = header_get(&self.res_headers, "pragma");
                match pr {
                    Some(pv) => {
                        let d = parse_cc_str(pv.as_str());
                        if dir_has(&d, "no-cache") {
                            let mut out: Vec<Directive> = Vec::new();
                            out.push(Directive { name: String::from_str("no-cache"), value: None });
                            proof {
                                assert(out.deep_view() =~= seq![("no-cache"@, None::<Seq<char>>)]);
                            }
                            out
                        } else {
                            let out: Vec<Directive> = Vec::new();
                            proof {
                                assert(out.deep_view() =~= Seq::<(
                                    Seq<char>,
                                    Option<Seq<char>>,
                                )>::empty());
                            }
                            out
                        }
                    },
                    None => {
                        let out: Vec<Directive> = Vec::new();
                        proof {
                            assert(out.deep_view() =~= Seq::<(
                                Seq<char>,
                                Option<Seq<char>>,
                            )>::empty());
                        }
                        out
                    },
                }
            },
        }
    }

    pub(crate) fn req_cc_vec(&self) -> (r: Vec<Directive>)
        ensures
            r.deep_view() == req_cc_of(self@.req_headers),
    {
        let cc = header_get(&self.req_headers, "cache-control");
        match cc {
            Some(v) => parse_cc_str(v.as_str()),
            None => {
                let out: Vec<Directive> = Vec::new();
                proof {
                    assert(out.deep_view() =~= Seq::<(Seq<char>, Option<Seq<char>>)>::empty());
                }
                out
            },
        }
    }

    fn method_allows_storing(&self, rc: &Vec<Directive>) -> (r: bool)
        requires
            rc.deep_view() == res_cc(self@),
        ensures
            r == (eq_ci(self@.method, "GET"@) || eq_ci(self@.method, "HEAD"@) || (eq_ci(
                self@.method,
                "POST"@,
            ) && explicit_exp(res_cc(self@), self@.opts.shared))),
    {
        let m = self.method.as_str();
        if str_eq_ci(m, "GET") || str_eq_ci(m, "HEAD") {
            return true;
        }
        if !str_eq_ci(m, "POST") {
            return false;
        }
        let ma = dir_num(rc, "max-age");
        if ma.is_some() {
            return true;
        }
        if self.opts.shared {
            let sm = dir_num(rc, "s-maxage");
            return sm.is_some();
        }
        false
    }

    /// Whether the captured response may be stored at all. When it is false
    /// the pair must not enter the cache.
    pub fn is_storable(&self) -> (r: bool)
        ensures
            r == storable(self@),
    {
        let rc = self.res_cc_vec();
        let qc = self.req_cc_vec();
        if dir_has(&qc, "no-store") || dir_has(&rc, "no-store") {
            return false;
        }
        if self.opts.shared && dir_has(&rc, "private") {
            return false;
        }
        if !self.method_allows_storing(&rc) {
            return false;
        }
        if self.opts.shared && header_has(&self.req_headers, "authorization") {
            let ok = dir_has(&rc, "public") || dir_has(&rc, "must-revalidate") || dir_num(
                &rc,
                "s-maxage",
            ).is_some();
            if !ok {
                return false;
            }
        }
        if !self.status_understood() {
            return false;
        }
        if !self.status_default_cacheable() {
            let explicit = dir_num(&rc, "max-age").is_some() || (self.opts.shared && dir_num(
                &rc,
                "s-maxage",
            ).is_some()) || dir_has(&rc, "public");
            if !explicit {
                return false;
            }
        }
        if self.opts.shared && header_has(&self.res_headers, "set-cookie") {
            let ok = dir_has(&rc, "public") || dir_has(&rc, "immutable") || dir_num(
                &rc,
                "s-maxage",
            ).is_some() || dir_has(&rc, "must-revalidate");
            if !ok {
                return false;
            }
        }
        if self.has_vary_star() && !dir_has(&rc, "immutable") {
            return false;
        }
        true
    }

    fn status_understood(&self) -> (r: bool)
        ensures
            r == understood_status(self@.status),
    {
        let s = self.status;
        s == 200 || s == 203 || s == 204 || s == 300 || s == 301 || s == 302 || s == 303 || s == 307
            || s == 308 || s == 404 || s == 405 || s == 410 || s == 414 || s == 501
    }

    fn status_default_cacheable(&self) -> (r: bool)
        ensures
            r == default_cacheable_status(self@.status),
    {
        self.status_understood() && self.status != 303
    }

    pub(crate) fn has_vary_star(&self) -> (r: bool)
        ensures
            r == vary_star(self@),
    {
        let v = header_get(&self.res_headers, "vary");
        match v {
            Some(val) => has_token_ci_str(val.as_str(), "*"),
            None => false,
        }
    }

    pub(crate) fn server_date_calc(&self) -> (r: i64)
        requires
            self.wf(),
        ensures
            r as int == server_date(self@),
            -TS_BOUND <= r <= TS_BOUND,
    {
        let d = header_get(&self.res_headers, "date");
        match d {
            Some(v) => {
                let t = parse_date_str(v.as_str());
                match t {
                    Some(x) => x,
                    None => self.response_time,
                }
            },
            None => self.response_time,
        }
    }

    fn date_value_calc(&self) -> (r: i64)
        requires
            self.wf(),
        ensures
            r as int == date_value(self@),
            -TS_BOUND <= r <= TS_BOUND,
    {
        if self.opts.trust_server_date {
            self.server_date_calc()
        } else {
            self.response_time
        }
    }

    fn age_header_calc(&self) -> (r: i64)
        ensures
            r as int == age_header(self@),
            0 <= r < TS_BOUND,
    {
        let a = header_get(&self.res_headers, "age");
        match a {
            Some(v) => {
                let t = trim_str(v.as_str());
                let n = parse_dec_str(t.as_str());
                match n {
                    Some(x) => x as i64,
                    None => 0,
                }
            },
            None => 0,
        }
    }

    pub(crate) fn current_age_calc(&self, now: i64) -> (r: i64)
        requires
            self.wf(),
        ensures
            r as int == current_age(self@, now as int),
            -2 * TS_BOUND <= r <= 5 * TS_BOUND,
    {
        let dv = self.date_value_calc();
        let apparent: i64 = if self.response_time >= dv {
            self.response_time - dv
        } else {
            0
        };
        let ah = self.age_header_calc();
        let resident: i64 = clamp_now(now) - self.response_time;
        apparent + ah + resident
    }

    fn heuristic_base_calc(&self) -> (r: i64)
        requires
            self.wf(),
        ensures
            r as int == heuristic_base(self@),
            0 <= r <= 6 * TS_BOUND,
    {
        let lmh = header_get(&self.res_headers, "last-modified");
        match lmh {
            Some(v) => {
                let t = parse_date_str(v.as_str());
                match t {
                    Some(lm) => {
                        let sd = self.server_date_calc();
                        if sd > lm {
                            let delta: i64 = sd - lm;
                            let pct: i64 = self.opts.cache_heuristic as i64;
                            assert(delta * pct <= 2 * TS_BOUND * 255) by (nonlinear_arith)
                                requires
                                    0 <= delta <= 2 * TS_BOUND,
                                    0 <= pct <= 255,
                            ;
                            assert(0 <= delta * pct) by (nonlinear_arith)
                                requires
                                    0 <= delta,
                                    0 <= pct,
                            ;
                            (delta * pct) / 100
                        } else {
                            0
                        }
                    },
                    None => 0,
                }
            },
            None => 0,
        }
    }

    pub(crate) fn lifetime_calc(&self) -> (r: i64)
        requires
            self.wf(),
        ensures
            r as int == lifetime(self@),
            0 <= r <= 6 * TS_BOUND,
    {
        let rc = self.res_cc_vec();
        if !self.is_storable() || dir_has(&rc, "no-cache") {
            return 0;
        }
        if self.opts.shared && dir_has(&rc, "proxy-revalidate") {
            return 0;
        }
        if self.opts.shared {
            let sm = dir_num(&rc, "s-maxage");
            match sm {
                Some(v) => {
                    return v as i64;
                },
                None => {},
            }
        }
        let ma = dir_num(&rc, "max-age");
        match ma {
            Some(v) => {
                return v as i64;
            },
            None => {},
        }
        let exp = header_get(&self.res_headers, "expires");
        let base: i64 = match exp {
            Some(v) => {
                let t = parse_date_str(v.as_str());
                match t {
                    Some(e) => {
                        let sd = self.server_date_calc();
                        if e >= sd {
                            e - sd
                        } else {
                            0
                        }
                    },
                    None => self.heuristic_base_calc(),
                }
            },
            None => self.heuristic_base_calc(),
        };
        if base == 0 && dir_has(&rc, "immutable") {
            self.opts.immutable_min_time_to_live as i64
        } else {
            base
        }
    }

    /// Age of the stored response, in seconds, at the given instant.
    pub fn age_at(&self, now: i64) -> (r: u32)
        requires
            self.wf(),
        ensures
            r as int == age_secs(self@, now as int),
    {
        let ca = self.current_age_calc(now);
        if ca < 0 {
            0
        } else if ca > 0xffffffff {
            0xffffffffu32
        } else {
            ca as u32
        }
    }

    /// The freshness lifetime, in seconds: how long after its `Date` the
    /// response stays fresh.
    pub fn max_age(&self) -> (r: u32)
        requires
            self.wf(),
        ensures
            r as int == max_age_secs(self@),
    {
        let lt = self.lifetime_calc();
        if lt > 0xffffffff {
            0xffffffffu32
        } else {
            lt as u32
        }
    }

    /// Whether the stored response is stale at the given instant.
    pub fn is_stale_at(&self, now: i64) -> (r: bool)
        requires
            self.wf(),
        ensures
            r == stale_at(self@, now as int),
    {
        let ca = self.current_age_calc(now);
        let lt = self.lifetime_calc();
        ca >= lt
    }

    /// Milliseconds until the stored response becomes stale, at the given
    /// instant; zero when it already is.
    pub fn time_to_live_at(&self, now: i64) -> (r: u32)
        requires
            self.wf(),
        ensures
            r as int == ttl_ms(self@, now as int),
    {
        let ca = self.current_age_calc(now);
        let lt = self.lifetime_calc();
        let rem: i64 = lt - ca;
        let rem2: i64 = if rem < 0 {
            0
        } else if rem > 0xffffffff {
            0xffffffff
        } else {
            rem
        };
        let ms: i64 = rem2 * 1000;
        if ms > 0xffffffff {
            0xffffffffu32
        } else {
            ms as u32
        }
    }
}

} // verus!
