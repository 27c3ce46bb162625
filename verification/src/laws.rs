//! The engine's general laws, stated and proved over the same specification
//! functions that the executable contracts use.
use vstd::prelude::*;

verus! {

use crate::text::{
    eq_ci,
    has_prefix,
    join_sep,
    joined,
    lemma_split_acc_prefix,
    lemma_trimmed_idempotent,
    lemma_trimmed_space_prefix,
    lower_ch,
    split_acc,
    split_listed,
    trimmed,
};
use crate::fields::{cc_has, cc_num, FieldsView, hget, hhas};
use crate::policy::{
    age_secs,
    build_model,
    cargo_applies,
    captured_res_headers,
    clamp_ts,
    drop_cargo_headers,
    is_cargo_dropped_header,
    OptionsModel,
    PolicyModel,
    raw_res_cc,
    RequestModel,
    res_cc,
    ResponseModel,
    storable,
    strip_cargo,
    ttl_ms,
    vary_star,
};
use crate::satisfy::{fresh_at, request_matches};
use crate::reval::{
    conn_tokens,
    drop_header,
    egress_headers,
    excluded_name,
    hop_name,
    inm_strong,
    inm_value,
    merge_headers,
    merge_compat,
    name_in,
    overwrite,
    reval_headers,
    revalidated_model,
    strip_hop,
    strong_entries,
    unsafe_method,
    validators_match,
    weak_entry,
};

// ------------------------------------------------------------------
// Facts about case-insensitive names and first-match lookup.
// ------------------------------------------------------------------
proof fn lemma_eq_ci_sym(a: Seq<char>, b: Seq<char>)
    ensures
        eq_ci(a, b) == eq_ci(b, a),
{
}

proof fn lemma_eq_ci_trans(a: Seq<char>, b: Seq<char>, c: Seq<char>)
    requires
        eq_ci(a, b),
        eq_ci(b, c),
    ensures
        eq_ci(a, c),
{
}

/// Looking a name up in a list with one more field at the end.
proof fn lemma_hget_push(s: FieldsView, x: (Seq<char>, Seq<char>), nm: Seq<char>)
    ensures
        hget(s.push(x), nm) == (if hget(s, nm) is Some {
            hget(s, nm)
        } else if eq_ci(x.0, nm) {
            Some(x.1)
        } else {
            None
        }),
    decreases s.len(),
{
    if s.len() == 0 {
        assert(s.push(x)[0] == x);
        assert(s.push(x).drop_first() =~= Seq::<(Seq<char>, Seq<char>)>::empty());
    } else {
        assert(s.push(x)[0] == s[0]);
        assert(s.push(x).drop_first() =~= s.drop_first().push(x));
        lemma_hget_push(s.drop_first(), x, nm);
    }
}

/// A list in which no field's name matches yields nothing.
proof fn lemma_hget_none(s: FieldsView, nm: Seq<char>)
    requires
        forall|i: int| 0 <= i < s.len() ==> !eq_ci(s[i].0, nm),
    ensures
        hget(s, nm) is None,
    decreases s.len(),
{
    if s.len() > 0 {
        assert(forall|i: int|
            0 <= i < s.drop_first().len() ==> s.drop_first()[i] == s[i + 1] && !eq_ci(
                #[trigger] s.drop_first()[i].0,
                nm,
            ));
        lemma_hget_none(s.drop_first(), nm);
    }
}

/// Names that are equal regardless of case look up the same field.
proof fn lemma_hget_ci(s: FieldsView, a: Seq<char>, b: Seq<char>)
    requires
        eq_ci(a, b),
    ensures
        hget(s, a) == hget(s, b),
    decreases s.len(),
{
    if s.len() > 0 {
        if eq_ci(s[0].0, a) {
            lemma_eq_ci_trans(s[0].0, a, b);
        }
        if eq_ci(s[0].0, b) {
            lemma_eq_ci_sym(a, b);
            lemma_eq_ci_trans(s[0].0, b, a);
        }
        lemma_hget_ci(s.drop_first(), a, b);
    }
}

// ------------------------------------------------------------------
// Age grows and time to live shrinks with the clock.
// ------------------------------------------------------------------
/// At any two instants in order, the reported age has not decreased and the
/// reported time to live has not increased.
pub proof fn lemma_age_ttl_monotone(p: PolicyModel, t1: int, t2: int)
    requires
        t1 <= t2,
    ensures
        age_secs(p, t1) <= age_secs(p, t2),
        ttl_ms(p, t1) >= ttl_ms(p, t2),
{
    assert(clamp_ts(t1) <= clamp_ts(t2));
}

// ------------------------------------------------------------------
// A response varying on everything answers no request.
// ------------------------------------------------------------------
/// When the stored response carries `Vary: *`, no new request is answered
/// from the cache, whatever its headers and whenever it comes.
pub proof fn lemma_vary_star_never_fresh(p: PolicyModel, r: RequestModel, now: int)
    requires
        vary_star(p),
    ensures
        !fresh_at(p, r, now),
{
}

// ------------------------------------------------------------------
// Served headers carry no hop-by-hop field.
// ------------------------------------------------------------------
proof fn lemma_strip_hop_clean(h: FieldsView, conn: Seq<Seq<char>>, n: int)
    ensures
        forall|i: int|
            0 <= i < strip_hop(h, conn, n).len() ==> !hop_name(
                #[trigger] strip_hop(h, conn, n)[i].0,
            ),
    decreases n,
{
    if n > 0 {
        lemma_strip_hop_clean(h, conn, n - 1);
        let pre = strip_hop(h, conn, n - 1);
        let cur = strip_hop(h, conn, n);
        if !(hop_name(h[n - 1].0) || name_in(conn, h[n - 1].0)) {
            assert forall|i: int| 0 <= i < cur.len() implies !hop_name(cur[i].0) by {
                if i < pre.len() {
                    assert(cur[i] == pre[i]);
                } else {
                    assert(cur[i] == h[n - 1]);
                }
            }
        }
    }
}

proof fn lemma_drop_header_keeps(h: FieldsView, nm: Seq<char>, n: int)
    requires
        forall|i: int| 0 <= i < h.len() ==> !hop_name(#[trigger] h[i].0),
        0 <= n <= h.len(),
    ensures
        forall|i: int|
            0 <= i < drop_header(h, nm, n).len() ==> !hop_name(#[trigger] drop_header(h, nm, n)[i].0),
    decreases n,
{
    if n > 0 {
        lemma_drop_header_keeps(h, nm, n - 1);
        let pre = drop_header(h, nm, n - 1);
        let cur = drop_header(h, nm, n);
        if !eq_ci(h[n - 1].0, nm) {
            assert forall|i: int| 0 <= i < cur.len() implies !hop_name(cur[i].0) by {
                if i < pre.len() {
                    assert(cur[i] == pre[i]);
                } else {
                    assert(cur[i] == h[n - 1]);
                }
            }
        }
    }
}

proof fn lemma_not_hop(nm: Seq<char>)
    requires
        nm == "warning"@ || nm == "age"@,
    ensures
        !hop_name(nm),
{
    reveal_strlit("warning");
    reveal_strlit("age");
    reveal_strlit("connection");
    reveal_strlit("keep-alive");
    reveal_strlit("proxy-authenticate");
    reveal_strlit("proxy-authorization");
    reveal_strlit("te");
    reveal_strlit("trailer");
    reveal_strlit("transfer-encoding");
    reveal_strlit("upgrade");
    if eq_ci(nm, "trailer"@) {
        assert(lower_ch(nm[0]) == lower_ch("trailer"@[0]));
        assert(false);
    }
    if eq_ci(nm, "upgrade"@) {
        assert(lower_ch(nm[0]) == lower_ch("upgrade"@[0]));
        assert(false);
    }
}

/// Whatever the stored response held, the headers served from the cache name
/// no hop-by-hop field.
pub proof fn lemma_egress_no_hop_by_hop(p: PolicyModel, now: int)
    ensures
        forall|i: int|
            0 <= i < egress_headers(p, now).len() ==> !hop_name(
                #[trigger] egress_headers(p, now)[i].0,
            ),
{
    let conn = conn_tokens(p.res_headers);
    let base0 = strip_hop(p.res_headers, conn, p.res_headers.len() as int);
    let base1 = drop_header(base0, "warning"@, base0.len() as int);
    let base = drop_header(base1, "age"@, base1.len() as int);
    lemma_strip_hop_clean(p.res_headers, conn, p.res_headers.len() as int);
    lemma_drop_header_keeps(base0, "warning"@, base0.len() as int);
    lemma_drop_header_keeps(base1, "age"@, base1.len() as int);
    lemma_not_hop("warning"@);
    lemma_not_hop("age"@);
}

// ------------------------------------------------------------------
// Folding the same revalidation in twice changes nothing.
// ------------------------------------------------------------------
proof fn lemma_excluded_ci(a: Seq<char>, b: Seq<char>)
    requires
        eq_ci(a, b),
    ensures
        excluded_name(a) == excluded_name(b),
{
    lemma_eq_ci_sym(a, b);
    if eq_ci(a, "content-length"@) {
        lemma_eq_ci_trans(b, a, "content-length"@);
    }
    if eq_ci(b, "content-length"@) {
        lemma_eq_ci_trans(a, b, "content-length"@);
    }
    if eq_ci(a, "content-encoding"@) {
        lemma_eq_ci_trans(b, a, "content-encoding"@);
    }
    if eq_ci(b, "content-encoding"@) {
        lemma_eq_ci_trans(a, b, "content-encoding"@);
    }
    if eq_ci(a, "transfer-encoding"@) {
        lemma_eq_ci_trans(b, a, "transfer-encoding"@);
    }
    if eq_ci(b, "transfer-encoding"@) {
        lemma_eq_ci_trans(a, b, "transfer-encoding"@);
    }
    if eq_ci(a, "content-range"@) {
        lemma_eq_ci_trans(b, a, "content-range"@);
    }
    if eq_ci(b, "content-range"@) {
        lemma_eq_ci_trans(a, b, "content-range"@);
    }
}

proof fn lemma_validator_names_not_excluded()
    ensures
        !excluded_name("etag"@),
        !excluded_name("last-modified"@),
{
    reveal_strlit("etag");
    reveal_strlit("last-modified");
    reveal_strlit("content-length");
    reveal_strlit("content-encoding");
    reveal_strlit("transfer-encoding");
    reveal_strlit("content-range");
    if eq_ci("last-modified"@, "content-range"@) {
        assert(lower_ch("last-modified"@[0]) == lower_ch("content-range"@[0]));
        assert(false);
    }
}

proof fn lemma_overwrite_len(old: FieldsView, nh: FieldsView, n: int)
    requires
        0 <= n <= old.len(),
    ensures
        overwrite(old, nh, n).len() == n,
    decreases n,
{
    if n > 0 {
        lemma_overwrite_len(old, nh, n - 1);
    }
}

proof fn lemma_overwrite_index(old: FieldsView, nh: FieldsView, n: int, j: int)
    requires
        0 <= j < n <= old.len(),
    ensures
        overwrite(old, nh, n)[j] == (if hhas(nh, old[j].0) && !excluded_name(old[j].0) {
            (old[j].0, hget(nh, old[j].0)->Some_0)
        } else {
            old[j]
        }),
    decreases n,
{
    lemma_overwrite_len(old, nh, n - 1);
    if j < n - 1 {
        lemma_overwrite_index(old, nh, n - 1, j);
    }
}

proof fn lemma_hget_overwrite(old: FieldsView, nh: FieldsView, n: int, nm: Seq<char>)
    requires
        0 <= n <= old.len(),
    ensures
        hget(overwrite(old, nh, n), nm) == (match hget(old.take(n), nm) {
            None => None::<Seq<char>>,
            Some(v) => if hhas(nh, nm) && !excluded_name(nm) {
                hget(nh, nm)
            } else {
                Some(v)
            },
        }),
    decreases n,
{
    if n <= 0 {
        assert(old.take(0) =~= Seq::<(Seq<char>, Seq<char>)>::empty());
    } else {
        lemma_hget_overwrite(old, nh, n - 1, nm);
        let pre = overwrite(old, nh, n - 1);
        let e = old[n - 1];
        let entry = if hhas(nh, e.0) && !excluded_name(e.0) {
            (e.0, hget(nh, e.0)->Some_0)
        } else {
            e
        };
        assert(overwrite(old, nh, n) == pre.push(entry));
        lemma_hget_push(pre, entry, nm);
        assert(old.take(n) =~= old.take(n - 1).push(e));
        lemma_hget_push(old.take(n - 1), e, nm);
        if hget(pre, nm) is None && eq_ci(entry.0, nm) {
            lemma_hget_ci(nh, e.0, nm);
            lemma_excluded_ci(e.0, nm);
        }
    }
}

/// Folding one and the same revalidation answer into the record a second
/// time leaves the record as the first fold made it.
pub proof fn lemma_revalidated_idempotent(
    p: PolicyModel,
    r: RequestModel,
    resp: ResponseModel,
    now: int,
)
    ensures
        revalidated_model(revalidated_model(p, r, resp, now).0, r, resp, now).0
            == revalidated_model(p, r, resp, now).0,
{
    let m = revalidated_model(p, r, resp, now).0;
    if resp.status != 304 {
        assert(m.opts == p.opts);
    } else if merge_compat(p, r, resp) {
        let old = p.res_headers;
        let nh = resp.headers;
        let mh = merge_headers(old, nh);
        lemma_validator_names_not_excluded();
        lemma_overwrite_len(old, nh, old.len() as int);
        assert(old.take(old.len() as int) =~= old);
        lemma_hget_overwrite(old, nh, old.len() as int, "etag"@);
        lemma_hget_overwrite(old, nh, old.len() as int, "last-modified"@);
        assert(validators_match(m, nh));
        assert(merge_compat(m, r, resp));
        // Overwriting with the same answer a second time repeats each field.
        lemma_overwrite_len(mh, nh, mh.len() as int);
        assert forall|j: int| 0 <= j < mh.len() implies merge_headers(mh, nh)[j] == mh[j] by {
            lemma_overwrite_index(old, nh, old.len() as int, j);
            lemma_overwrite_index(mh, nh, mh.len() as int, j);
            if hhas(nh, old[j].0) && !excluded_name(old[j].0) {
                assert(mh[j].0 == old[j].0);
            }
        }
        assert(merge_headers(mh, nh) =~= mh);
        assert(revalidated_model(m, r, resp, now).0 == m);
    }
}

// ------------------------------------------------------------------
// Storability depends on nothing beyond the named inputs.
// ------------------------------------------------------------------
proof fn lemma_eq_ci_refl(a: Seq<char>)
    ensures
        eq_ci(a, a),
{
}

proof fn lemma_cargo_dropped_ci(a: Seq<char>, b: Seq<char>)
    requires
        eq_ci(a, b),
    ensures
        is_cargo_dropped_header(a) == is_cargo_dropped_header(b),
{
    lemma_eq_ci_sym(a, b);
    if eq_ci(a, "cache-control"@) {
        lemma_eq_ci_trans(b, a, "cache-control"@);
    }
    if eq_ci(b, "cache-control"@) {
        lemma_eq_ci_trans(a, b, "cache-control"@);
    }
    if eq_ci(a, "expires"@) {
        lemma_eq_ci_trans(b, a, "expires"@);
    }
    if eq_ci(b, "expires"@) {
        lemma_eq_ci_trans(a, b, "expires"@);
    }
    if eq_ci(a, "pragma"@) {
        lemma_eq_ci_trans(b, a, "pragma"@);
    }
    if eq_ci(b, "pragma"@) {
        lemma_eq_ci_trans(a, b, "pragma"@);
    }
}

proof fn lemma_drop_cargo_entries(h: FieldsView, n: int)
    requires
        0 <= n <= h.len(),
    ensures
        forall|i: int|
            0 <= i < drop_cargo_headers(h, n).len() ==> !is_cargo_dropped_header(
                #[trigger] drop_cargo_headers(h, n)[i].0,
            ),
    decreases n,
{
    if n > 0 {
        lemma_drop_cargo_entries(h, n - 1);
        let pre = drop_cargo_headers(h, n - 1);
        let cur = drop_cargo_headers(h, n);
        if !is_cargo_dropped_header(h[n - 1].0) {
            assert forall|i: int| 0 <= i < cur.len() implies !is_cargo_dropped_header(cur[i].0) by {
                if i < pre.len() {
                    assert(cur[i] == pre[i]);
                } else {
                    assert(cur[i] == h[n - 1]);
                }
            }
        }
    }
}

proof fn lemma_hget_drop_cargo(h: FieldsView, n: int, nm: Seq<char>)
    requires
        0 <= n <= h.len(),
        !is_cargo_dropped_header(nm),
    ensures
        hget(drop_cargo_headers(h, n), nm) == hget(h.take(n), nm),
    decreases n,
{
    if n <= 0 {
        assert(h.take(0) =~= Seq::<(Seq<char>, Seq<char>)>::empty());
    } else {
        lemma_hget_drop_cargo(h, n - 1, nm);
        let pre = drop_cargo_headers(h, n - 1);
        let e = h[n - 1];
        assert(h.take(n) =~= h.take(n - 1).push(e));
        lemma_hget_push(h.take(n - 1), e, nm);
        if is_cargo_dropped_header(e.0) {
            if eq_ci(e.0, nm) {
                lemma_cargo_dropped_ci(e.0, nm);
                assert(false);
            }
        } else {
            lemma_hget_push(pre, e, nm);
        }
    }
}

proof fn lemma_header_name_facts()
    ensures
        !is_cargo_dropped_header("set-cookie"@),
        !is_cargo_dropped_header("vary"@),
        !eq_ci("cache-control"@, "set-cookie"@),
        !eq_ci("cache-control"@, "vary"@),
        !eq_ci("cache-control"@, "pragma"@),
        eq_ci("cache-control"@, "cache-control"@),
{
    reveal_strlit("cache-control");
    reveal_strlit("expires");
    reveal_strlit("pragma");
    reveal_strlit("set-cookie");
    reveal_strlit("vary");
}

/// The one directive list an old-style `Pragma: no-cache` stands in for
/// neither stores nor expires anything by itself.
proof fn lemma_pragma_fallback_neutral(d: crate::fields::DirectivesView)
    requires
        d == Seq::<(Seq<char>, Option<Seq<char>>)>::empty() || d == seq![
            ("no-cache"@, None::<Seq<char>>),
        ],
    ensures
        !cc_has(d, "no-store"@),
        !cc_has(d, "private"@),
        !cc_has(d, "public"@),
        !cc_has(d, "must-revalidate"@),
        !cc_has(d, "immutable"@),
        cc_num(d, "max-age"@) is None,
        cc_num(d, "s-maxage"@) is None,
{
    reveal_strlit("no-cache");
    reveal_strlit("no-store");
    reveal_strlit("private");
    reveal_strlit("public");
    reveal_strlit("must-revalidate");
    reveal_strlit("immutable");
    reveal_strlit("max-age");
    reveal_strlit("s-maxage");
    if d.len() == 1 {
        let nm = d[0].0;
        assert(nm == "no-cache"@);
        if eq_ci(nm, "no-store"@) {
            assert(lower_ch(nm[3]) == lower_ch("no-store"@[3]));
            assert(false);
        }
        if eq_ci(nm, "s-maxage"@) {
            assert(lower_ch(nm[0]) == lower_ch("s-maxage"@[0]));
            assert(false);
        }
        assert(d.drop_last() =~= Seq::<(Seq<char>, Option<Seq<char>>)>::empty());
    }
}

/// What the captured response headers answer for the names storability needs:
/// `Set-Cookie` and `Vary` read through unchanged, and when the cargo-cult
/// rewrite applied, `Pragma` is gone and `Cache-Control` is a function of the
/// raw directive list alone.
proof fn lemma_captured_lookups(h: FieldsView, icc: bool)
    ensures
        hget(captured_res_headers(h, icc), "set-cookie"@) == hget(h, "set-cookie"@),
        hget(captured_res_headers(h, icc), "vary"@) == hget(h, "vary"@),
        cargo_applies(h, icc) ==> hget(captured_res_headers(h, icc), "pragma"@) is None,
        cargo_applies(h, icc) ==> hget(captured_res_headers(h, icc), "cache-control"@) == (if
        strip_cargo(raw_res_cc(h), raw_res_cc(h).len() as int).len() == 0 {
            None::<Seq<char>>
        } else {
            Some(crate::policy::render_dirs(strip_cargo(raw_res_cc(h), raw_res_cc(h).len() as int)))
        }),
        !cargo_applies(h, icc) ==> captured_res_headers(h, icc) == h,
{
    lemma_header_name_facts();
    if cargo_applies(h, icc) {
        let kept = drop_cargo_headers(h, h.len() as int);
        let d2 = strip_cargo(raw_res_cc(h), raw_res_cc(h).len() as int);
        lemma_drop_cargo_entries(h, h.len() as int);
        assert(h.take(h.len() as int) =~= h);
        lemma_hget_drop_cargo(h, h.len() as int, "set-cookie"@);
        lemma_hget_drop_cargo(h, h.len() as int, "vary"@);
        assert forall|i: int|
            0 <= i < kept.len() implies !eq_ci(#[trigger] kept[i].0, "cache-control"@) by {
            assert(!is_cargo_dropped_header(kept[i].0));
        }
        lemma_hget_none(kept, "cache-control"@);
        assert forall|i: int| 0 <= i < kept.len() implies !eq_ci(#[trigger] kept[i].0, "pragma"@) by {
            assert(!is_cargo_dropped_header(kept[i].0));
        }
        lemma_hget_none(kept, "pragma"@);
        if d2.len() > 0 {
            let entry = ("cache-control"@, crate::policy::render_dirs(d2));
            lemma_hget_push(kept, entry, "set-cookie"@);
            lemma_hget_push(kept, entry, "vary"@);
            lemma_hget_push(kept, entry, "cache-control"@);
            lemma_hget_push(kept, entry, "pragma"@);
            lemma_eq_ci_refl("cache-control"@);
        }
    }
}

/// Whether a response may be stored is a function of the request method, the
/// status, the presence of `Authorization` on the request and `Set-Cookie` on
/// the response, the two `Cache-Control` values, the `Vary` value, and the
/// cache's `shared` and `ignore_cargo_cult` settings — and of nothing else;
/// in particular not of the clock.
pub proof fn lemma_storable_depends_only_on(
    req1: RequestModel,
    resp1: ResponseModel,
    o1: OptionsModel,
    t1: int,
    req2: RequestModel,
    resp2: ResponseModel,
    o2: OptionsModel,
    t2: int,
)
    requires
        req1.method == req2.method,
        resp1.status == resp2.status,
        hhas(req1.headers, "authorization"@) == hhas(req2.headers, "authorization"@),
        hhas(resp1.headers, "set-cookie"@) == hhas(resp2.headers, "set-cookie"@),
        hget(resp1.headers, "cache-control"@) == hget(resp2.headers, "cache-control"@),
        hget(req1.headers, "cache-control"@) == hget(req2.headers, "cache-control"@),
        o1.shared == o2.shared,
        hget(resp1.headers, "vary"@) == hget(resp2.headers, "vary"@),
        o1.ignore_cargo_cult == o2.ignore_cargo_cult,
    ensures
        storable(build_model(req1, resp1, o1, t1)) == storable(build_model(req2, resp2, o2, t2)),
{
    let p1 = build_model(req1, resp1, o1, t1);
    let p2 = build_model(req2, resp2, o2, t2);
    lemma_header_name_facts();
    assert(cargo_applies(resp1.headers, o1.ignore_cargo_cult) == cargo_applies(
        resp2.headers,
        o2.ignore_cargo_cult,
    ));
    lemma_captured_lookups(resp1.headers, o1.ignore_cargo_cult);
    lemma_captured_lookups(resp2.headers, o2.ignore_cargo_cult);
    assert(hhas(p1.res_headers, "set-cookie"@) == hhas(p2.res_headers, "set-cookie"@));
    assert(hget(p1.res_headers, "vary"@) == hget(p2.res_headers, "vary"@));
    let rc1 = res_cc(p1);
    let rc2 = res_cc(p2);
    if cargo_applies(resp1.headers, o1.ignore_cargo_cult) {
        assert(rc1 == rc2);
    } else {
        match hget(resp1.headers, "cache-control"@) {
            Some(v) => {
                assert(rc1 == rc2);
            },
            None => {
                lemma_pragma_fallback_neutral(rc1);
                lemma_pragma_fallback_neutral(rc2);
            },
        }
    }
    assert(storable(p1) == storable(p2));
}

// ------------------------------------------------------------------
// Unsafe methods never send weak validators.
// ------------------------------------------------------------------
pub open spec fn no_comma(t: Seq<char>) -> bool {
    forall|j: int| 0 <= j < t.len() ==> t[j] != ','
}

proof fn lemma_split_plain_no_comma(s: Seq<char>, n: int)
    requires
        0 <= n <= s.len(),
    ensures
        split_acc(s, n, false).2 == false,
        no_comma(split_acc(s, n, false).1),
        forall|i: int|
            0 <= i < split_acc(s, n, false).0.len() ==> no_comma(
                #[trigger] split_acc(s, n, false).0[i],
            ),
    decreases n,
{
    if n > 0 {
        lemma_split_plain_no_comma(s, n - 1);
        let st = split_acc(s, n - 1, false);
        let cur = split_acc(s, n, false);
        let c = s[n - 1];
        if c == ',' {
            assert forall|i: int| 0 <= i < cur.0.len() implies no_comma(cur.0[i]) by {
                if i < st.0.len() {
                    assert(cur.0[i] == st.0[i]);
                } else {
                    assert(cur.0[i] == st.1);
                }
            }
        } else {
            assert(no_comma(st.1.push(c)));
        }
    }
}

proof fn lemma_strong_entries_props(parts: Seq<Seq<char>>, n: int)
    requires
        0 <= n <= parts.len(),
        forall|i: int| 0 <= i < parts.len() ==> no_comma(#[trigger] parts[i]),
    ensures
        forall|i: int|
            0 <= i < strong_entries(parts, n).len() ==> !has_prefix(
                #[trigger] strong_entries(parts, n)[i],
                "W/"@,
            ) && no_comma(strong_entries(parts, n)[i]) && trimmed(strong_entries(parts, n)[i])
                == strong_entries(parts, n)[i],
    decreases n,
{
    if n > 0 {
        lemma_strong_entries_props(parts, n - 1);
        let pre = strong_entries(parts, n - 1);
        let cur = strong_entries(parts, n);
        if !weak_entry(parts[n - 1]) {
            crate::text::lemma_trimmed_chars(parts[n - 1]);
            lemma_trimmed_idempotent(parts[n - 1]);
            assert(no_comma(trimmed(parts[n - 1])));
            assert forall|i: int|
                0 <= i < cur.len() implies !has_prefix(cur[i], "W/"@) && no_comma(cur[i]) && trimmed(
                cur[i],
            ) == cur[i] by {
                if i < pre.len() {
                    assert(cur[i] == pre[i]);
                } else {
                    assert(cur[i] == trimmed(parts[n - 1]));
                }
            }
        }
    }
}

proof fn lemma_drop_no_match(h: FieldsView, nm: Seq<char>, n: int)
    requires
        0 <= n <= h.len(),
    ensures
        forall|i: int|
            0 <= i < drop_header(h, nm, n).len() ==> !eq_ci(
                #[trigger] drop_header(h, nm, n)[i].0,
                nm,
            ),
    decreases n,
{
    if n > 0 {
        lemma_drop_no_match(h, nm, n - 1);
        let pre = drop_header(h, nm, n - 1);
        let cur = drop_header(h, nm, n);
        if !eq_ci(h[n - 1].0, nm) {
            assert forall|i: int| 0 <= i < cur.len() implies !eq_ci(cur[i].0, nm) by {
                if i < pre.len() {
                    assert(cur[i] == pre[i]);
                } else {
                    assert(cur[i] == h[n - 1]);
                }
            }
        }
    }
}

proof fn lemma_drop_keeps_no_match(h: FieldsView, dropped: Seq<char>, n: int, nm: Seq<char>)
    requires
        0 <= n <= h.len(),
        forall|i: int| 0 <= i < h.len() ==> !eq_ci(#[trigger] h[i].0, nm),
    ensures
        forall|i: int|
            0 <= i < drop_header(h, dropped, n).len() ==> !eq_ci(
                #[trigger] drop_header(h, dropped, n)[i].0,
                nm,
            ),
    decreases n,
{
    if n > 0 {
        lemma_drop_keeps_no_match(h, dropped, n - 1, nm);
        let pre = drop_header(h, dropped, n - 1);
        let cur = drop_header(h, dropped, n);
        if !eq_ci(h[n - 1].0, dropped) {
            assert forall|i: int| 0 <= i < cur.len() implies !eq_ci(cur[i].0, nm) by {
                if i < pre.len() {
                    assert(cur[i] == pre[i]);
                } else {
                    assert(cur[i] == h[n - 1]);
                }
            }
        }
    }
}


proof fn lemma_split_append_part(s: Seq<char>, w: Seq<char>)
    requires
        no_comma(w),
    ensures
        split_acc(s.add(w), s.len() + w.len() as int, false) == (
            split_acc(s, s.len() as int, false).0,
            split_acc(s, s.len() as int, false).1.add(w),
            false,
        ),
    decreases w.len(),
{
    lemma_split_plain_no_comma_state(s);
    if w.len() == 0 {
        assert(s.add(w) =~= s);
        assert(split_acc(s, s.len() as int, false).1.add(w) =~= split_acc(
            s,
            s.len() as int,
            false,
        ).1);
    } else {
        let w0 = w.drop_last();
        let c = w.last();
        assert(no_comma(w0)) by {
            assert(forall|j: int| 0 <= j < w0.len() ==> w0[j] == w[j]);
        }
        lemma_split_append_part(s, w0);
        let u = s.add(w);
        let n = s.len() + w.len();
        assert(forall|j: int| 0 <= j < n - 1 ==> u[j] == s.add(w0)[j]);
        lemma_split_acc_prefix(u, s.add(w0), n as int - 1, false);
        assert(u[n - 1] == c);
        assert(c != ',');
        assert(split_acc(u, n as int, false).1 =~= split_acc(s, s.len() as int, false).1.add(w));
    }
}

proof fn lemma_split_plain_no_comma_state(s: Seq<char>)
    ensures
        split_acc(s, s.len() as int, false).2 == false,
{
    lemma_split_plain_no_comma(s, s.len() as int);
}

proof fn lemma_split_append_sep(s: Seq<char>)
    ensures
        split_acc(s.add(", "@), s.len() + 2int, false) == (
            split_acc(s, s.len() as int, false).0.push(split_acc(s, s.len() as int, false).1),
            " "@,
            false,
        ),
{
    reveal_strlit(", ");
    reveal_strlit(" ");
    lemma_split_plain_no_comma_state(s);
    let u = s.add(", "@);
    let k = s.len() as int;
    assert(forall|j: int| 0 <= j < s.len() ==> u[j] == s[j]);
    lemma_split_acc_prefix(u, s, k, false);
    let mid = split_acc(u, k, false);
    assert(mid == split_acc(s, k, false));
    assert(!mid.2);
    assert(u[k] == ',');
    assert(split_acc(u, k + 1, false) == (mid.0.push(mid.1), Seq::<char>::empty(), false));
    assert(u[k + 1] == ' ');
    assert(split_acc(u, k + 2, false).0 == mid.0.push(mid.1));
    assert(split_acc(u, k + 2, false).1 =~= " "@);
    assert(split_acc(u, k + 2, false).2 == false);
}

/// The shape of one entry after splitting a comma-space join: the first part
/// itself, every later part with the one space the separator left.
pub open spec fn spaced(parts: Seq<Seq<char>>, i: int) -> Seq<char> {
    if i == 0 {
        parts[0]
    } else {
        seq![' '].add(parts[i])
    }
}

proof fn lemma_split_of_join(parts: Seq<Seq<char>>, n: int)
    requires
        1 <= n <= parts.len(),
        forall|i: int| 0 <= i < parts.len() ==> no_comma(#[trigger] parts[i]),
    ensures
        split_acc(joined(parts, ", "@, n), joined(parts, ", "@, n).len() as int, false).0 =~= Seq::new(
            (n - 1) as nat,
            |i: int| spaced(parts, i),
        ),
        split_acc(joined(parts, ", "@, n), joined(parts, ", "@, n).len() as int, false).1 == spaced(
            parts,
            n - 1,
        ),
    decreases n,
{
    reveal_strlit(", ");
    if n == 1 {
        lemma_split_append_part(Seq::empty(), parts[0]);
        assert(Seq::<char>::empty().add(parts[0]) =~= parts[0]);
        assert(split_acc(Seq::<char>::empty(), 0, false).1.add(parts[0]) =~= parts[0]);
        assert(split_acc(joined(parts, ", "@, 1), joined(parts, ", "@, 1).len() as int, false).0
            =~= Seq::new(0, |i: int| spaced(parts, i)));
    } else {
        lemma_split_of_join(parts, n - 1);
        let j0 = joined(parts, ", "@, n - 1);
        let j1 = j0.add(", "@);
        assert(joined(parts, ", "@, n) == j1.add(parts[n - 1]));
        lemma_split_append_sep(j0);
        lemma_split_append_part(j1, parts[n - 1]);
        assert(j1.len() == j0.len() + 2);
        assert(joined(parts, ", "@, n).len() == j1.len() + parts[n - 1].len());
        let st0 = split_acc(j0, j0.len() as int, false);
        let st1 = split_acc(j1, j1.len() as int, false);
        let st2 = split_acc(joined(parts, ", "@, n), joined(parts, ", "@, n).len() as int, false);
        assert(st1.0 == st0.0.push(st0.1));
        assert(st2.0 == st1.0);
        assert(st2.1 == st1.1.add(parts[n - 1]));
        assert(st2.0 =~= Seq::new((n - 1) as nat, |i: int| spaced(parts, i)));
        reveal_strlit(" ");
        assert(" "@.add(parts[n - 1]) =~= seq![' '].add(parts[n - 1]));
        assert(st2.1 == spaced(parts, n - 1));
    }
}

proof fn lemma_validator_header_names()
    ensures
        !eq_ci("if-modified-since"@, "if-none-match"@),
        !eq_ci("warning"@, "if-none-match"@),
        !eq_ci("if-none-match"@, "warning"@),
        eq_ci("if-none-match"@, "if-none-match"@),
{
    reveal_strlit("if-modified-since");
    reveal_strlit("if-none-match");
    reveal_strlit("warning");
}

/// On a revalidation with an unsafe method (one that is neither `GET` nor
/// `HEAD`, `POST` among them), the emitted `If-None-Match` — when one is
/// emitted at all — holds no entry that begins, after trimming, with the weak
/// prefix `W/`.
pub proof fn lemma_unsafe_revalidation_keeps_no_weak_validator(
    p: PolicyModel,
    r: RequestModel,
    now: int,
)
    requires
        unsafe_method(r.method),
    ensures
        match hget(reval_headers(p, r, now), "if-none-match"@) {
            Some(v) => forall|i: int|
                0 <= i < split_listed(v, false).len() ==> !has_prefix(
                    trimmed(#[trigger] split_listed(v, false)[i]),
                    "W/"@,
                ),
            None => true,
        },
{
    lemma_validator_header_names();
    let conn = conn_tokens(r.headers);
    let base0 = strip_hop(r.headers, conn, r.headers.len() as int);
    let base1 = drop_header(base0, "if-none-match"@, base0.len() as int);
    let base = drop_header(base1, "if-modified-since"@, base1.len() as int);
    lemma_drop_no_match(base0, "if-none-match"@, base0.len() as int);
    lemma_drop_keeps_no_match(base1, "if-modified-since"@, base1.len() as int, "if-none-match"@);
    lemma_hget_none(base, "if-none-match"@);
    if request_matches(p, r, true) {
        let with_inm = match inm_value(p, r) {
            Some(v) => base.push(("if-none-match"@, v)),
            None => base,
        };
        let with_ims = match crate::reval::ims_value(p, r) {
            Some(v) => with_inm.push(("if-modified-since"@, v)),
            None => with_inm,
        };
        match inm_value(p, r) {
            Some(v) => {
                lemma_hget_push(base, ("if-none-match"@, v), "if-none-match"@);
                assert(hget(with_inm, "if-none-match"@) == Some(v));
                // The filtered entries witness the join.
                let merged = crate::reval::merged_inm(p, r.headers);
                let mv = merged->Some_0;
                let parts = split_listed(mv, false);
                lemma_split_plain_no_comma(mv, mv.len() as int);
                assert forall|i: int| 0 <= i < parts.len() implies no_comma(#[trigger] parts[i]) by {
                    if i < split_acc(mv, mv.len() as int, false).0.len() {
                        assert(parts[i] == split_acc(mv, mv.len() as int, false).0[i]);
                    } else {
                        assert(parts[i] == split_acc(mv, mv.len() as int, false).1);
                    }
                }
                lemma_strong_entries_props(parts, parts.len() as int);
                let es = inm_strong(mv);
                assert(v == join_sep(es, ", "@));
                assert(es.len() >= 1);
                lemma_split_of_join(es, es.len() as int);
                let sp = split_listed(v, false);
                assert(sp.len() == es.len());
                assert forall|i: int| 0 <= i < sp.len() implies !has_prefix(
                    trimmed(#[trigger] sp[i]),
                    "W/"@,
                ) by {
                    if i < sp.len() - 1 {
                        assert(sp[i] == split_acc(v, v.len() as int, false).0[i]);
                        assert(sp[i] == spaced(es, i));
                    } else {
                        assert(sp[i] == split_acc(v, v.len() as int, false).1);
                        assert(sp[i] == spaced(es, i));
                    }
                    if i == 0 {
                        assert(trimmed(sp[i]) == es[0]);
                    } else {
                        lemma_trimmed_space_prefix(es[i]);
                        assert(trimmed(sp[i]) == es[i]);
                    }
                }
            },
            None => {
                assert(hget(with_inm, "if-none-match"@) is None);
            },
        }
        match crate::reval::ims_value(p, r) {
            Some(v2) => {
                lemma_hget_push(with_inm, ("if-modified-since"@, v2), "if-none-match"@);
            },
            None => {},
        }
        assert(hget(with_ims, "if-none-match"@) == hget(with_inm, "if-none-match"@));
        if crate::reval::warn_113(p, now) {
            let dropped = drop_header(with_ims, "warning"@, with_ims.len() as int);
            lemma_hget_drop_other(with_ims, "warning"@, with_ims.len() as int, "if-none-match"@);
            assert(with_ims.take(with_ims.len() as int) =~= with_ims);
            lemma_hget_push(
                dropped,
                ("warning"@, crate::reval::warn_text(hget(base0, "warning"@))),
                "if-none-match"@,
            );
            assert(hget(reval_headers(p, r, now), "if-none-match"@) == hget(
                with_ims,
                "if-none-match"@,
            ));
        }
    }
}

proof fn lemma_hget_drop_other(h: FieldsView, dropped: Seq<char>, n: int, nm: Seq<char>)
    requires
        0 <= n <= h.len(),
        !eq_ci(nm, dropped),
    ensures
        hget(drop_header(h, dropped, n), nm) == hget(h.take(n), nm),
    decreases n,
{
    if n <= 0 {
        assert(h.take(0) =~= Seq::<(Seq<char>, Seq<char>)>::empty());
    } else {
        lemma_hget_drop_other(h, dropped, n - 1, nm);
        let pre = drop_header(h, dropped, n - 1);
        let e = h[n - 1];
        assert(h.take(n) =~= h.take(n - 1).push(e));
        lemma_hget_push(h.take(n - 1), e, nm);
        if eq_ci(e.0, dropped) {
            if eq_ci(e.0, nm) {
                lemma_eq_ci_sym(e.0, nm);
                lemma_eq_ci_trans(nm, e.0, dropped);
                assert(false);
            }
        } else {
            lemma_hget_push(pre, e, nm);
        }
    }
}

} // verus!
