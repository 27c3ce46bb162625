//! Header fields and `Cache-Control` directives: lookup in a header list by
//! case-insensitive name (first occurrence wins), tokenising of
//! comma-separated header values, and the directive list of `Cache-Control`
//! (last occurrence of a name wins, values unquoted).
use vstd::prelude::*;

verus! {

use vstd::string::*;
use crate::text::{
    eq_ci,
    find_char,
    find_from,
    parse_dec,
    parse_dec_str,
    split_list,
    split_listed,
    str_eq_ci,
    trim_str,
    trimmed,
    unquote_str,
    unquoted,
};

/// A header list as the specification sees it: name and value pairs in order.
pub type FieldsView = Seq<(Seq<char>, Seq<char>)>;

/// A directive list as the specification sees it.
pub type DirectivesView = Seq<(Seq<char>, Option<Seq<char>>)>;

/// One `Cache-Control` directive: a name and, after `=`, an unquoted value.
pub struct Directive {
    pub name: String,
    pub value: Option<String>,
}

impl View for Directive {
    type V = (Seq<char>, Option<Seq<char>>);

    open spec fn view(&self) -> Self::V {
        (self.name@, self.value.deep_view())
    }
}

impl DeepView for Directive {
    type V = (Seq<char>, Option<Seq<char>>);

    open spec fn deep_view(&self) -> Self::V {
        self.view()
    }
}

/// The value of the first field whose name equals `name` regardless of case.
pub open spec fn hget(h: FieldsView, name: Seq<char>) -> Option<Seq<char>>
    decreases h.len(),
{
    if h.len() == 0 {
        None
    } else if eq_ci(h[0].0, name) {
        Some(h[0].1)
    } else {
        hget(h.drop_first(), name)
    }
}

pub open spec fn hhas(h: FieldsView, name: Seq<char>) -> bool {
    hget(h, name) is Some
}

pub fn header_get(h: &Vec<(String, String)>, name: &str) -> (r: Option<String>)
    ensures
        r is Some <==> hget(h.deep_view(), name@) is Some,
        r is Some ==> r->Some_0@ == hget(h.deep_view(), name@)->Some_0,
{
    let ghost dv = h.deep_view();
    proof {
        assert(dv.skip(0) =~= dv);
    }
    let mut i: usize = 0;
    while i < h.len()
        invariant
            i <= h@.len(),
            dv == h.deep_view(),
            dv.len() == h@.len(),
            hget(dv, name@) == hget(dv.skip(i as int), name@),
        decreases h@.len() - i,
    {
        proof {
            assert(dv.skip(i as int)[0] == dv[i as int]);
            assert(dv.skip(i as int).drop_first() =~= dv.skip(i as int + 1));
        }
        if str_eq_ci(h[i].0.as_str(), name) {
            return Some(h[i].1.clone());
        }
        i += 1;
    }
    proof {
        assert(dv.skip(i as int) =~= Seq::<(Seq<char>, Seq<char>)>::empty());
    }
    None
}

pub fn header_has(h: &Vec<(String, String)>, name: &str) -> (r: bool)
    ensures
        r == hhas(h.deep_view(), name@),
{
    let g = header_get(h, name);
    g.is_some()
}

/// The comma-separated tokens of a header value, each trimmed.
pub open spec fn trim_list(ts: Seq<Seq<char>>, n: int) -> Seq<Seq<char>>
    decreases n,
{
    if n <= 0 {
        Seq::empty()
    } else {
        trim_list(ts, n - 1).push(trimmed(ts[n - 1]))
    }
}

pub open spec fn tokens_of(s: Seq<char>) -> Seq<Seq<char>> {
    let ts = split_listed(s, false);
    trim_list(ts, ts.len() as int)
}

pub fn tokens_of_str(s: &str) -> (r: Vec<String>)
    ensures
        r.deep_view() == tokens_of(s@),
{
    let parts = split_list(s, false);
    let ghost ts = parts.deep_view();
    let mut out: Vec<String> = Vec::new();
    let mut i: usize = 0;
    while i < parts.len()
        invariant
            i <= parts@.len(),
            ts == parts.deep_view(),
            ts.len() == parts@.len(),
            out.deep_view() == trim_list(ts, i as int),
        decreases parts@.len() - i,
    {
        let ghost pre = out.deep_view();
        let t = trim_str(parts[i].as_str());
        out.push(t);
        proof {
            assert(out.deep_view() =~= pre.push(trimmed(ts[i as int])));
        }
        i += 1;
    }
    out
}

/// Whether some token of the comma-separated value equals `tok` regardless of
/// case.
pub open spec fn has_token_ci(s: Seq<char>, tok: Seq<char>) -> bool {
    exists|i: int| 0 <= i < tokens_of(s).len() && eq_ci(tokens_of(s)[i], tok)
}

pub fn has_token_ci_str(s: &str, tok: &str) -> (r: bool)
    ensures
        r == has_token_ci(s@, tok@),
{
    let toks = tokens_of_str(s);
    let ghost tv = tokens_of(s@);
    let mut i: usize = 0;
    while i < toks.len()
        invariant
            i <= toks@.len(),
            toks.deep_view() == tv,
            tv == tokens_of(s@),
            toks@.len() == tv.len(),
            forall|j: int| 0 <= j < i ==> !eq_ci(tv[j], tok@),
        decreases toks@.len() - i,
    {
        if str_eq_ci(toks[i].as_str(), tok) {
            proof {
                assert(eq_ci(tokens_of(s@)[i as int], tok@));
            }
            return true;
        }
        i += 1;
    }
    false
}

/// One raw list item read as a directive: trimmed; empty items are dropped;
/// the part before the first `=` is the name, what follows it is the value,
/// trimmed and unquoted.
pub open spec fn parse_token(t: Seq<char>) -> Option<(Seq<char>, Option<Seq<char>>)> {
    let tt = trimmed(t);
    if tt.len() == 0 {
        None
    } else {
        let e = find_from(tt, '=', 0);
        if e == tt.len() {
            Some((tt, None))
        } else {
            Some(
                (
                    trimmed(tt.subrange(0, e)),
                    Some(unquoted(trimmed(tt.subrange(e + 1, tt.len() as int)))),
                ),
            )
        }
    }
}

pub open spec fn parse_cc_list(ts: Seq<Seq<char>>, n: int) -> DirectivesView
    decreases n,
{
    if n <= 0 {
        Seq::empty()
    } else {
        let pre = parse_cc_list(ts, n - 1);
        match parse_token(ts[n - 1]) {
            Some(d) => pre.push(d),
            None => pre,
        }
    }
}

/// The directive list of a `Cache-Control` value: split on commas outside
/// double quotes, each item read by `parse_token`.
pub open spec fn parse_cc(s: Seq<char>) -> DirectivesView {
    let ts = split_listed(s, true);
    parse_cc_list(ts, ts.len() as int)
}

fn parse_token_str(t: &str) -> (r: Option<Directive>)
    ensures
        r.deep_view() == parse_token(t@),
{
    let tt = trim_str(t);
    let n = tt.as_str().unicode_len();
    if n == 0 {
        return None;
    }
    let e = find_char(tt.as_str(), '=');
    if e == n {
        Some(Directive { name: tt, value: None })
    } else {
        let name = trim_str(tt.as_str().substring_char(0, e));
        let vraw = trim_str(tt.as_str().substring_char(e + 1, n));
        let value = unquote_str(vraw.as_str());
        Some(Directive { name, value: Some(value) })
    }
}

pub fn parse_cc_str(s: &str) -> (r: Vec<Directive>)
    ensures
        r.deep_view() == parse_cc(s@),
{
    let parts = split_list(s, true);
    let ghost ts = parts.deep_view();
    let mut out: Vec<Directive> = Vec::new();
    let mut i: usize = 0;
    while i < parts.len()
        invariant
            i <= parts@.len(),
            ts == parts.deep_view(),
            ts.len() == parts@.len(),
            out.deep_view() == parse_cc_list(ts, i as int),
        decreases parts@.len() - i,
    {
        let ghost pre = out.deep_view();
        let d = parse_token_str(parts[i].as_str());
        match d {
            Some(dir) => {
                out.push(dir);
                proof {
                    assert(out.deep_view() =~= pre.push(parse_token(ts[i as int])->Some_0));
                }
            },
            None => {},
        }
        i += 1;
    }
    out
}

/// Whether a directive of that name occurs, regardless of case.
pub open spec fn cc_has(d: DirectivesView, name: Seq<char>) -> bool {
    exists|i: int| 0 <= i < d.len() && eq_ci(d[i].0, name)
}

/// The value of the last directive of that name: `None` when the name does
/// not occur, `Some(None)` for a value-less directive.
pub open spec fn cc_val(d: DirectivesView, name: Seq<char>) -> Option<Option<Seq<char>>>
    decreases d.len(),
{
    if d.len() == 0 {
        None
    } else if eq_ci(d.last().0, name) {
        Some(d.last().1)
    } else {
        cc_val(d.drop_last(), name)
    }
}

/// The numeric value of the last directive of that name, when it parses.
pub open spec fn cc_num(d: DirectivesView, name: Seq<char>) -> Option<int> {
    match cc_val(d, name) {
        Some(v) => match v {
            Some(txt) => parse_dec(txt),
            None => None,
        },
        None => None,
    }
}

pub fn dir_has(d: &Vec<Directive>, name: &str) -> (r: bool)
    ensures
        r == cc_has(d.deep_view(), name@),
{
    let ghost dv = d.deep_view();
    let mut i: usize = 0;
    while i < d.len()
        invariant
            i <= d@.len(),
            dv == d.deep_view(),
            dv.len() == d@.len(),
            forall|j: int| 0 <= j < i ==> !eq_ci(dv[j].0, name@),
        decreases d@.len() - i,
    {
        if str_eq_ci(d[i].name.as_str(), name) {
            proof {
                assert(eq_ci(d.deep_view()[i as int].0, name@));
            }
            return true;
        }
        i += 1;
    }
    false
}

pub fn dir_val(d: &Vec<Directive>, name: &str) -> (r: Option<Option<String>>)
    ensures
        r.deep_view() == cc_val(d.deep_view(), name@),
{
    let ghost dv = d.deep_view();
    proof {
        assert(dv.take(dv.len() as int) =~= dv);
    }
    let mut i: usize = d.len();
    while i > 0
        invariant
            i <= d@.len(),
            dv == d.deep_view(),
            dv.len() == d@.len(),
            cc_val(dv, name@) == cc_val(dv.take(i as int), name@),
        decreases i,
    {
        proof {
            assert(dv.take(i as int).last() == dv[i as int - 1]);
            assert(dv.take(i as int).drop_last() =~= dv.take(i as int - 1));
        }
        if str_eq_ci(d[i - 1].name.as_str(), name) {
            let out = match &d[i - 1].value {
                Some(v) => Some(Some(v.clone())),
                None => Some(None),
            };
            return out;
        }
        i -= 1;
    }
    proof {
        assert(dv.take(0) =~= Seq::<(Seq<char>, Option<Seq<char>>)>::empty());
    }
    None
}

pub fn dir_num(d: &Vec<Directive>, name: &str) -> (r: Option<u64>)
    ensures
        cc_num(d.deep_view(), name@) is Some ==> r is Some && r->Some_0 as int == cc_num(
            d.deep_view(),
            name@,
        )->Some_0,
        cc_num(d.deep_view(), name@) is None ==> r is None,
        r is Some ==> r->Some_0 < 1000000000000000,
{
    let v = dir_val(d, name);
    match v {
        Some(inner) => match inner {
            Some(txt) => parse_dec_str(txt.as_str()),
            None => None,
        },
        None => None,
    }
}

} // verus!
