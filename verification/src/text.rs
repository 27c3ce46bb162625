//! Character and string primitives: case-insensitive comparison, trimming,
//! list splitting, quoting and decimal parsing, each with an exact
//! specification over `Seq<char>`.
use vstd::prelude::*;

verus! {

use vstd::string::*;

/// ASCII upper-case letters fold to lower case; everything else is unchanged.
pub open spec fn lower_ch(c: char) -> char {
    if 65 <= c as int && c as int <= 90 {
        ((c as int) + 32) as char
    } else {
        c
    }
}

pub open spec fn is_ws(c: char) -> bool {
    c == ' ' || c == '\t'
}

pub open spec fn is_digit(c: char) -> bool {
    48 <= c as int && c as int <= 57
}

/// Case-insensitive equality of two character sequences.
pub open spec fn eq_ci(a: Seq<char>, b: Seq<char>) -> bool {
    a.len() == b.len() && (forall|i: int| 0 <= i < a.len() ==> lower_ch(a[i]) == lower_ch(b[i]))
}

pub fn eq_ch_ci(a: char, b: char) -> (r: bool)
    ensures
        r == (lower_ch(a) == lower_ch(b)),
{
    let x: u32 = a as u32;
    let y: u32 = b as u32;
    let xl: u32 = if 65 <= x && x <= 90 {
        x + 32
    } else {
        x
    };
    let yl: u32 = if 65 <= y && y <= 90 {
        y + 32
    } else {
        y
    };
    xl == yl
}

pub fn is_ws_ch(c: char) -> (r: bool)
    ensures
        r == is_ws(c),
{
    c == ' ' || c == '\t'
}

pub fn is_digit_ch(c: char) -> (r: bool)
    ensures
        r == is_digit(c),
{
    let x: u32 = c as u32;
    48 <= x && x <= 57
}

pub fn str_eq(a: &str, b: &str) -> (r: bool)
    ensures
        r == (a@ == b@),
{
    let na = a.unicode_len();
    let nb = b.unicode_len();
    if na != nb {
        return false;
    }
    let mut i: usize = 0;
    while i < na
        invariant
            i <= na,
            na == a@.len(),
            na == b@.len(),
            forall|j: int| 0 <= j < i ==> a@[j] == b@[j],
        decreases na - i,
    {
        if a.get_char(i) != b.get_char(i) {
            return false;
        }
        i += 1;
    }
    proof {
        assert(a@ =~= b@);
    }
    true
}

pub fn str_eq_ci(a: &str, b: &str) -> (r: bool)
    ensures
        r == eq_ci(a@, b@),
{
    let na = a.unicode_len();
    let nb = b.unicode_len();
    if na != nb {
        return false;
    }
    let mut i: usize = 0;
    while i < na
        invariant
            i <= na,
            na == a@.len(),
            na == b@.len(),
            forall|j: int| 0 <= j < i ==> lower_ch(a@[j]) == lower_ch(b@[j]),
        decreases na - i,
    {
        if !eq_ch_ci(a.get_char(i), b.get_char(i)) {
            return false;
        }
        i += 1;
    }
    true
}

/// First index at or after `i` that does not hold white space.
pub open spec fn ws_from(s: Seq<char>, i: int) -> int
    decreases s.len() - i,
{
    if i >= s.len() {
        s.len() as int
    } else if !is_ws(s[i]) {
        i
    } else {
        ws_from(s, i + 1)
    }
}

/// Last index at or before `i` such that everything from it up to `i` is white space.
pub open spec fn ws_to(s: Seq<char>, i: int) -> int
    decreases i,
{
    if i <= 0 {
        0
    } else if !is_ws(s[i - 1]) {
        i
    } else {
        ws_to(s, i - 1)
    }
}

/// The sequence with leading and trailing white space removed.
pub open spec fn trimmed(s: Seq<char>) -> Seq<char> {
    let a = ws_from(s, 0);
    let b = ws_to(s, s.len() as int);
    if a >= b {
        Seq::empty()
    } else {
        s.subrange(a, b)
    }
}

proof fn lemma_ws_from_range(s: Seq<char>, i: int)
    requires
        0 <= i <= s.len(),
    ensures
        i <= ws_from(s, i) <= s.len(),
    decreases s.len() - i,
{
    if i < s.len() && is_ws(s[i]) {
        lemma_ws_from_range(s, i + 1);
    }
}

proof fn lemma_ws_to_range(s: Seq<char>, i: int)
    requires
        0 <= i <= s.len(),
    ensures
        0 <= ws_to(s, i) <= i,
    decreases i,
{
    if i > 0 && is_ws(s[i - 1]) {
        lemma_ws_to_range(s, i - 1);
    }
}

fn ws_start_idx(s: &str) -> (a: usize)
    ensures
        a as int == ws_from(s@, 0),
        a <= s@.len(),
{
    let n = s.unicode_len();
    let mut a: usize = 0;
    while a < n
        invariant
            a <= n,
            n == s@.len(),
            ws_from(s@, 0) == ws_from(s@, a as int),
        decreases n - a,
    {
        if !is_ws_ch(s.get_char(a)) {
            return a;
        }
        a += 1;
    }
    a
}

fn ws_end_idx(s: &str) -> (b: usize)
    ensures
        b as int == ws_to(s@, s@.len() as int),
        b <= s@.len(),
{
    let n = s.unicode_len();
    let mut b: usize = n;
    while b > 0
        invariant
            b <= n,
            n == s@.len(),
            ws_to(s@, n as int) == ws_to(s@, b as int),
        decreases b,
    {
        if !is_ws_ch(s.get_char(b - 1)) {
            return b;
        }
        b -= 1;
    }
    b
}

pub fn trim_str(s: &str) -> (r: String)
    ensures
        r@ == trimmed(s@),
{
    let a = ws_start_idx(s);
    let b = ws_end_idx(s);
    if a >= b {
        String::new()
    } else {
        String::from_str(s.substring_char(a, b))
    }
}

/// Whether `p` is a prefix of `s`.
pub open spec fn has_prefix(s: Seq<char>, p: Seq<char>) -> bool {
    p.len() <= s.len() && s.subrange(0, p.len() as int) == p
}

pub fn starts_with_str(s: &str, p: &str) -> (r: bool)
    ensures
        r == has_prefix(s@, p@),
{
    let ns = s.unicode_len();
    let np = p.unicode_len();
    if np > ns {
        return false;
    }
    let mut i: usize = 0;
    while i < np
        invariant
            i <= np,
            np <= ns,
            ns == s@.len(),
            np == p@.len(),
            forall|j: int| 0 <= j < i ==> s@[j] == p@[j],
        decreases np - i,
    {
        if s.get_char(i) != p.get_char(i) {
            proof {
                assert(s@.subrange(0, p@.len() as int)[i as int] == s@[i as int]);
            }
            return false;
        }
        i += 1;
    }
    proof {
        assert(s@.subrange(0, p@.len() as int) =~= p@);
    }
    true
}

/// First index at or after `i` where `c` occurs, or the length when it does not.
pub open spec fn find_from(s: Seq<char>, c: char, i: int) -> int
    decreases s.len() - i,
{
    if i >= s.len() {
        s.len() as int
    } else if s[i] == c {
        i
    } else {
        find_from(s, c, i + 1)
    }
}

pub fn find_char(s: &str, c: char) -> (r: usize)
    ensures
        r as int == find_from(s@, c, 0),
        r <= s@.len(),
{
    let n = s.unicode_len();
    let mut i: usize = 0;
    while i < n
        invariant
            i <= n,
            n == s@.len(),
            find_from(s@, c, 0) == find_from(s@, c, i as int),
        decreases n - i,
    {
        if s.get_char(i) == c {
            return i;
        }
        i += 1;
    }
    i
}

pub open spec fn pow10(n: nat) -> int
    decreases n,
{
    if n == 0 {
        1
    } else {
        10 * pow10((n - 1) as nat)
    }
}

proof fn lemma_pow10_le_15(n: nat)
    requires
        n <= 15,
    ensures
        1 <= pow10(n) <= 1000000000000000,
    decreases n,
{
    if n > 0 {
        lemma_pow10_le_15((n - 1) as nat);
        assert(pow10(n) == 10 * pow10((n - 1) as nat));
        if pow10(n) > 1000000000000000 {
            lemma_pow10_values();
            lemma_pow10_mono(n, 15);
            assert(false);
        }
    }
}

proof fn lemma_pow10_mono(a: nat, b: nat)
    requires
        a <= b,
    ensures
        pow10(a) <= pow10(b),
    decreases b,
{
    if a < b {
        lemma_pow10_mono(a, (b - 1) as nat);
        lemma_pow10_pos((b - 1) as nat);
        assert(pow10(b) == 10 * pow10((b - 1) as nat));
    }
}

proof fn lemma_pow10_pos(n: nat)
    ensures
        pow10(n) >= 1,
    decreases n,
{
    if n > 0 {
        lemma_pow10_pos((n - 1) as nat);
    }
}

proof fn lemma_pow10_values()
    ensures
        pow10(15) == 1000000000000000,
{
    assert(pow10(0) == 1);
    assert(pow10(1) == 10);
    assert(pow10(2) == 100);
    assert(pow10(3) == 1000);
    assert(pow10(4) == 10000);
    assert(pow10(5) == 100000);
    assert(pow10(6) == 1000000);
    assert(pow10(7) == 10000000);
    assert(pow10(8) == 100000000);
    assert(pow10(9) == 1000000000);
    assert(pow10(10) == 10000000000);
    assert(pow10(11) == 100000000000);
    assert(pow10(12) == 1000000000000);
    assert(pow10(13) == 10000000000000);
    assert(pow10(14) == 100000000000000);
    assert(pow10(15) == 1000000000000000);
}

/// Value of the first `n` characters of `s` read as decimal digits.
pub open spec fn dec_val(s: Seq<char>, n: int) -> int
    decreases n,
{
    if n <= 0 {
        0
    } else {
        dec_val(s, n - 1) * 10 + (s[n - 1] as int - 48)
    }
}

pub open spec fn all_digits(s: Seq<char>) -> bool {
    forall|i: int| 0 <= i < s.len() ==> is_digit(s[i])
}

/// Tolerant decimal parse: digits only, one to fifteen of them; anything else
/// is no number.
pub open spec fn parse_dec(s: Seq<char>) -> Option<int> {
    if 1 <= s.len() <= 15 && all_digits(s) {
        Some(dec_val(s, s.len() as int))
    } else {
        None
    }
}

proof fn lemma_dec_val_bound(s: Seq<char>, n: int)
    requires
        0 <= n <= s.len(),
        forall|i: int| 0 <= i < n ==> is_digit(s[i]),
    ensures
        0 <= dec_val(s, n) < pow10(n as nat),
    decreases n,
{
    if n > 0 {
        lemma_dec_val_bound(s, n - 1);
        assert(pow10(n as nat) == 10 * pow10((n - 1) as nat));
    }
}

pub fn parse_dec_str(s: &str) -> (r: Option<u64>)
    ensures
        parse_dec(s@) is Some ==> r is Some && r->Some_0 as int == parse_dec(s@)->Some_0,
        parse_dec(s@) is None ==> r is None,
        r is Some ==> r->Some_0 < 1000000000000000,
{
    let n = s.unicode_len();
    if n < 1 || n > 15 {
        return None;
    }
    let mut acc: u64 = 0;
    let mut i: usize = 0;
    while i < n
        invariant
            i <= n,
            1 <= n <= 15,
            n == s@.len(),
            forall|j: int| 0 <= j < i ==> is_digit(s@[j]),
            acc as int == dec_val(s@, i as int),
            (acc as int) < pow10(i as nat),
        decreases n - i,
    {
        let c = s.get_char(i);
        if !is_digit_ch(c) {
            return None;
        }
        proof {
            lemma_pow10_le_15(i as nat);
        }
        let d: u64 = (c as u64) - 48;
        acc = acc * 10 + d;
        i += 1;
        proof {
            assert(pow10(i as nat) == 10 * pow10((i - 1) as nat));
        }
    }
    proof {
        lemma_pow10_le_15(n as nat);
    }
    Some(acc)
}

/// Splitting on commas; inside a double-quoted region a comma does not split
/// when `qa` is set. The fold state is (finished parts, current part, whether
/// inside quotes).
pub open spec fn split_acc(s: Seq<char>, n: int, qa: bool) -> (Seq<Seq<char>>, Seq<char>, bool)
    decreases n,
{
    if n <= 0 {
        (Seq::empty(), Seq::empty(), false)
    } else {
        let st = split_acc(s, n - 1, qa);
        let c = s[n - 1];
        if c == ',' && !st.2 {
            (st.0.push(st.1), Seq::empty(), st.2)
        } else {
            (st.0, st.1.push(c), if qa && c == '"' {
                !st.2
            } else {
                st.2
            })
        }
    }
}

/// The comma-separated parts of `s`, raw (not trimmed). An empty input gives
/// one empty part.
pub open spec fn split_listed(s: Seq<char>, qa: bool) -> Seq<Seq<char>> {
    let st = split_acc(s, s.len() as int, qa);
    st.0.push(st.1)
}

pub fn split_list(s: &str, qa: bool) -> (r: Vec<String>)
    ensures
        r.deep_view() == split_listed(s@, qa),
        r@.len() >= 1,
{
    let n = s.unicode_len();
    let mut acc: Vec<String> = Vec::new();
    let mut start: usize = 0;
    let mut inq: bool = false;
    let mut i: usize = 0;
    while i < n
        invariant
            start <= i <= n,
            n == s@.len(),
            split_acc(s@, i as int, qa) == (
                acc.deep_view(),
                s@.subrange(start as int, i as int),
                inq,
            ),
        decreases n - i,
    {
        let c = s.get_char(i);
        let ghost prev = split_acc(s@, i as int, qa);
        if c == ',' && !inq {
            let tok = String::from_str(s.substring_char(start, i));
            acc.push(tok);
            start = i + 1;
            proof {
                assert(acc.deep_view() =~= prev.0.push(prev.1));
                assert(s@.subrange(start as int, (i + 1) as int) =~= Seq::<char>::empty());
            }
        } else {
            if qa && c == '"' {
                inq = !inq;
            }
            proof {
                assert(s@.subrange(start as int, (i + 1) as int) =~= s@.subrange(
                    start as int,
                    i as int,
                ).push(s@[i as int]));
            }
        }
        i += 1;
    }
    let last = String::from_str(s.substring_char(start, n));
    acc.push(last);
    proof {
        assert(acc.deep_view() =~= split_listed(s@, qa));
    }
    acc
}

/// A value with one pair of surrounding double quotes removed.
pub open spec fn unquoted(v: Seq<char>) -> Seq<char> {
    if v.len() >= 2 && v[0] == '"' && v[v.len() - 1] == '"' {
        v.subrange(1, v.len() - 1)
    } else {
        v
    }
}

pub fn unquote_str(v: &str) -> (r: String)
    ensures
        r@ == unquoted(v@),
{
    let n = v.unicode_len();
    if n >= 2 && v.get_char(0) == '"' && v.get_char(n - 1) == '"' {
        String::from_str(v.substring_char(1, n - 1))
    } else {
        String::from_str(v)
    }
}

/// The parts joined with the separator between them.
pub open spec fn joined(parts: Seq<Seq<char>>, sep: Seq<char>, n: int) -> Seq<char>
    decreases n,
{
    if n <= 0 {
        Seq::empty()
    } else if n == 1 {
        parts[0]
    } else {
        joined(parts, sep, n - 1) + sep + parts[n - 1]
    }
}

pub open spec fn join_sep(parts: Seq<Seq<char>>, sep: Seq<char>) -> Seq<char> {
    joined(parts, sep, parts.len() as int)
}

pub fn join_strings(parts: &Vec<String>, sep: &str) -> (r: String)
    ensures
        r@ == join_sep(parts.deep_view(), sep@),
{
    let mut out = String::new();
    let mut i: usize = 0;
    while i < parts.len()
        invariant
            i <= parts@.len(),
            out@ == joined(parts.deep_view(), sep@, i as int),
        decreases parts@.len() - i,
    {
        if i > 0 {
            out.append(sep);
        }
        out.append(parts[i].as_str());
        i += 1;
    }
    out
}

/// Turns the decimal digits of `n` into characters.
pub open spec fn dec_chars(n: int) -> Seq<char>
    decreases n,
{
    if n < 0 {
        Seq::empty()
    } else if n < 10 {
        seq![((n + 48) as char)]
    } else {
        dec_chars(n / 10) + seq![((n % 10 + 48) as char)]
    }
}

fn digit_str(d: u64) -> (r: &'static str)
    requires
        d < 10,
    ensures
        r@ =~= seq![((d + 48) as char)],
{
    proof {
        reveal_strlit("0");
        reveal_strlit("1");
        reveal_strlit("2");
        reveal_strlit("3");
        reveal_strlit("4");
        reveal_strlit("5");
        reveal_strlit("6");
        reveal_strlit("7");
        reveal_strlit("8");
        reveal_strlit("9");
    }
    if d == 0 {
        "0"
    } else if d == 1 {
        "1"
    } else if d == 2 {
        "2"
    } else if d == 3 {
        "3"
    } else if d == 4 {
        "4"
    } else if d == 5 {
        "5"
    } else if d == 6 {
        "6"
    } else if d == 7 {
        "7"
    } else if d == 8 {
        "8"
    } else {
        "9"
    }
}

pub fn format_u64(n: u64) -> (r: String)
    ensures
        r@ == dec_chars(n as int),
    decreases n,
{
    if n < 10 {
        String::from_str(digit_str(n))
    } else {
        let mut out = format_u64(n / 10);
        out.append(digit_str(n % 10));
        proof {
            assert(dec_chars(n as int) == dec_chars(n as int / 10) + seq![
                ((n as int % 10 + 48) as char),
            ]);
        }
        out
    }
}

/// Every character of the trimmed sequence occurs in the original.
pub proof fn lemma_trimmed_chars(s: Seq<char>)
    ensures
        trimmed(s).len() <= s.len(),
        forall|j: int|
            0 <= j < trimmed(s).len() ==> exists|k: int|
                0 <= k < s.len() && #[trigger] trimmed(s)[j] == s[k],
{
    lemma_ws_from_range(s, 0);
    lemma_ws_to_range(s, s.len() as int);
    let a = ws_from(s, 0);
    let b = ws_to(s, s.len() as int);
    if a < b {
        assert forall|j: int| 0 <= j < trimmed(s).len() implies exists|k: int|
            0 <= k < s.len() && #[trigger] trimmed(s)[j] == s[k] by {
            assert(0 <= a + j < s.len() && trimmed(s)[j] == s[a + j]);
        }
    }
}

proof fn lemma_ws_from_props(s: Seq<char>, i: int)
    requires
        0 <= i <= s.len(),
    ensures
        i <= ws_from(s, i) <= s.len(),
        ws_from(s, i) < s.len() ==> !is_ws(s[ws_from(s, i)]),
        forall|j: int| i <= j < ws_from(s, i) ==> is_ws(s[j]),
    decreases s.len() - i,
{
    if i < s.len() && is_ws(s[i]) {
        lemma_ws_from_props(s, i + 1);
    }
}

proof fn lemma_ws_to_props(s: Seq<char>, i: int)
    requires
        0 <= i <= s.len(),
    ensures
        0 <= ws_to(s, i) <= i,
        ws_to(s, i) > 0 ==> !is_ws(s[ws_to(s, i) - 1]),
        forall|j: int| ws_to(s, i) <= j < i ==> is_ws(s[j]),
    decreases i,
{
    if i > 0 && is_ws(s[i - 1]) {
        lemma_ws_to_props(s, i - 1);
    }
}

/// Trimming is idempotent.
pub proof fn lemma_trimmed_idempotent(s: Seq<char>)
    ensures
        trimmed(trimmed(s)) == trimmed(s),
{
    lemma_ws_from_props(s, 0);
    lemma_ws_to_props(s, s.len() as int);
    let a = ws_from(s, 0);
    let b = ws_to(s, s.len() as int);
    let t = trimmed(s);
    if a >= b {
        assert(t =~= Seq::<char>::empty());
        assert(trimmed(t) =~= Seq::<char>::empty());
    } else {
        assert(!is_ws(t[0]));
        assert(!is_ws(t[t.len() - 1]));
        assert(ws_from(t, 0) == 0);
        assert(ws_to(t, t.len() as int) == t.len() as int);
        assert(trimmed(t) =~= t);
    }
}

proof fn lemma_ws_from_shift(p: Seq<char>, i: int)
    requires
        0 <= i <= p.len(),
    ensures
        ws_from(seq![' '].add(p), i + 1) == ws_from(p, i) + 1,
    decreases p.len() - i,
{
    let u = seq![' '].add(p);
    assert(u.len() == p.len() + 1);
    if i < p.len() {
        assert(u[i + 1] == p[i]);
        if is_ws(p[i]) {
            lemma_ws_from_shift(p, i + 1);
        }
    }
}

proof fn lemma_ws_to_shift(p: Seq<char>, i: int)
    requires
        0 <= i <= p.len(),
    ensures
        ws_to(seq![' '].add(p), i + 1) == (if ws_to(p, i) == 0 {
            0int
        } else {
            ws_to(p, i) + 1
        }),
    decreases i,
{
    let u = seq![' '].add(p);
    if i == 0 {
        assert(u[0] == ' ');
        assert(is_ws(u[0]));
        assert(ws_to(u, 1) == ws_to(u, 0));
        assert(ws_to(u, 0) == 0);
        assert(ws_to(p, 0) == 0);
    } else {
        assert(u[i] == p[i - 1]);
        if is_ws(p[i - 1]) {
            lemma_ws_to_shift(p, i - 1);
            assert(ws_to(u, i + 1) == ws_to(u, i));
            assert(ws_to(p, i) == ws_to(p, i - 1));
        } else {
            assert(ws_to(u, i + 1) == i + 1);
            assert(ws_to(p, i) == i);
        }
    }
}

/// A leading space does not change what trimming leaves.
pub proof fn lemma_trimmed_space_prefix(p: Seq<char>)
    ensures
        trimmed(seq![' '].add(p)) == trimmed(p),
{
    let u = seq![' '].add(p);
    assert(u[0] == ' ');
    lemma_ws_from_shift(p, 0);
    lemma_ws_to_shift(p, p.len() as int);
    lemma_ws_from_range(p, 0);
    lemma_ws_to_range(p, p.len() as int);
    let a = ws_from(p, 0);
    let b = ws_to(p, p.len() as int);
    assert(ws_from(u, 0) == ws_from(u, 1));
    if b == 0 {
        assert(trimmed(u) =~= Seq::<char>::empty());
        assert(trimmed(p) =~= Seq::<char>::empty());
    } else if a >= b {
        assert(trimmed(u) =~= Seq::<char>::empty());
        assert(trimmed(p) =~= Seq::<char>::empty());
    } else {
        assert(trimmed(u) =~= u.subrange(a + 1, b + 1));
        assert(u.subrange(a + 1, b + 1) =~= p.subrange(a, b));
    }
}

/// The splitting state only reads the first `n` characters.
pub proof fn lemma_split_acc_prefix(u: Seq<char>, v: Seq<char>, n: int, qa: bool)
    requires
        0 <= n <= u.len(),
        n <= v.len(),
        forall|j: int| 0 <= j < n ==> u[j] == v[j],
    ensures
        split_acc(u, n, qa) == split_acc(v, n, qa),
    decreases n,
{
    if n > 0 {
        lemma_split_acc_prefix(u, v, n - 1, qa);
    }
}

} // verus!
