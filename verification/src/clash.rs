//! Clash subscription service: URL admission (SSRF guard), port selection and
//! service status.
use vstd::prelude::*;

use crate::text::{
    after_last, after_last_start, ascii_lower, before_first, chars_eq, chars_of, contains, contains_seq,
    decimal, drop_leading, drop_trailing, ends_with, find_char, first_index_of, has_prefix,
    has_suffix, is_err_with, lemma_trim_idempotent, owned, push_decimal, result_view, starts_with,
    string_from_chars, strip_matches, sub_chars, trim, trim_bounds,
};

verus! {

broadcast use vstd::string::group_string_axioms;

// ---------------------------------------------------------------------------
// Lower-casing (std)
// ---------------------------------------------------------------------------
/// What `str::to_lowercase` returns for a string: its Unicode lower-case form.
pub uninterp spec fn unicode_lowercase(s: Seq<char>) -> Seq<char>;

/// Every character of `s` is ASCII.
pub open spec fn all_ascii(s: Seq<char>) -> bool {
    forall|i: int| 0 <= i < s.len() ==> (#[trigger] s[i] as u32) < 128
}

proof fn lemma_ascii_subrange(s: Seq<char>, a: int, b: int)
    requires
        all_ascii(s),
        0 <= a <= b <= s.len(),
    ensures
        all_ascii(s.subrange(a, b)),
{
    assert forall|i: int| 0 <= i < b - a implies (#[trigger] s.subrange(a, b)[i] as u32) < 128 by {
        assert(s.subrange(a, b)[i] == s[a + i]);
    }
}

/// Calls `str::to_lowercase`. The result is named (`unicode_lowercase` of the
/// argument); of the Unicode case tables only the ASCII part is stated: text
/// made of ASCII characters lower-cases as `to_ascii_lowercase` would.
#[verifier::external_body]
fn to_lowercase(s: &str) -> (r: String)
    ensures
        r@ == unicode_lowercase(s@),
        all_ascii(s@) ==> r@ == ascii_lower(s@),
{
    s.to_lowercase()
}

// ---------------------------------------------------------------------------
// IPv4 literals
// ---------------------------------------------------------------------------
/// An ASCII decimal digit.
pub open spec fn is_digit(c: char) -> bool {
    '0' <= c && c <= '9'
}

/// The value of a string of decimal digits.
pub open spec fn decimal_value(p: Seq<char>) -> int
    decreases p.len(),
{
    if p.len() == 0 {
        0
    } else {
        decimal_value(p.drop_last()) * 10 + (p.last() as int - 48)
    }
}

/// One field of a dotted IPv4 literal as the std parser accepts it: one to three
/// ASCII digits, no leading zero unless the field is "0", value at most 255.
pub open spec fn valid_octet(p: Seq<char>) -> bool {
    &&& 1 <= p.len() <= 3
    &&& forall|i: int| 0 <= i < p.len() ==> is_digit(#[trigger] p[i])
    &&& !(p.len() > 1 && p[0] == '0')
    &&& decimal_value(p) <= 255
}

/// The four dot-separated fields of `s`, if it has exactly three dots.
pub open spec fn dotted_fields(s: Seq<char>) -> Option<(Seq<char>, Seq<char>, Seq<char>, Seq<char>)> {
    let a = first_index_of(s, '.');
    let r1 = s.skip(a + 1);
    let b = first_index_of(r1, '.');
    let r2 = r1.skip(b + 1);
    let c = first_index_of(r2, '.');
    let r3 = r2.skip(c + 1);
    if a == s.len() || b == r1.len() || c == r2.len() || first_index_of(r3, '.') != r3.len() {
        None
    } else {
        Some((s.take(a), r1.take(b), r2.take(c), r3))
    }
}

/// The four octets of `s` when `s` is a dotted-quad IPv4 literal.
pub open spec fn ipv4_octets(s: Seq<char>) -> Option<(int, int, int, int)> {
    match dotted_fields(s) {
        Some((f0, f1, f2, f3)) => if valid_octet(f0) && valid_octet(f1) && valid_octet(f2)
            && valid_octet(f3) {
            Some((decimal_value(f0), decimal_value(f1), decimal_value(f2), decimal_value(f3)))
        } else {
            None
        },
        None => None,
    }
}

/// Loopback (127/8), private (10/8, 172.16/12, 192.168/16), link-local (169.254/16)
/// or the broadcast address.
pub open spec fn ipv4_is_internal(o: (int, int, int, int)) -> bool {
    ||| o.0 == 127
    ||| o.0 == 10
    ||| (o.0 == 172 && 16 <= o.1 <= 31)
    ||| (o.0 == 192 && o.1 == 168)
    ||| (o.0 == 169 && o.1 == 254)
    ||| (o.0 == 255 && o.1 == 255 && o.2 == 255 && o.3 == 255)
}

proof fn lemma_decimal_value_bound(p: Seq<char>)
    requires
        forall|i: int| 0 <= i < p.len() ==> is_digit(#[trigger] p[i]),
    ensures
        0 <= decimal_value(p),
        p.len() <= 1 ==> decimal_value(p) <= 9,
        p.len() <= 2 ==> decimal_value(p) <= 99,
        p.len() <= 3 ==> decimal_value(p) <= 999,
    decreases p.len(),
{
    if p.len() > 0 {
        assert forall|i: int| 0 <= i < p.drop_last().len() implies is_digit(
            #[trigger] p.drop_last()[i],
        ) by {
            assert(p.drop_last()[i] == p[i]);
        }
        lemma_decimal_value_bound(p.drop_last());
        assert(is_digit(p[p.len() - 1]));
    }
}

/// The value of `v[from..to]` when it is a valid IPv4 field.
fn parse_octet(v: &Vec<char>, from: usize, to: usize) -> (r: Option<u8>)
    requires
        from <= to <= v.len(),
    ensures
        match r {
            Some(x) => valid_octet(v@.subrange(from as int, to as int)) && x == decimal_value(
                v@.subrange(from as int, to as int),
            ),
            None => !valid_octet(v@.subrange(from as int, to as int)),
        },
{
    let ghost p = v@.subrange(from as int, to as int);
    let len = to - from;
    if len < 1 || len > 3 {
        return None;
    }
    if len > 1 && v[from] == '0' {
        return None;
    }
    let mut value: u32 = 0;
    let mut i: usize = from;
    while i < to
        invariant
            from <= i <= to <= v.len(),
            to - from <= 3,
            p == v@.subrange(from as int, to as int),
            forall|k: int| from <= k < i ==> is_digit(#[trigger] v@[k]),
            value == decimal_value(v@.subrange(from as int, i as int)),
            value <= 999,
        decreases to - i,
    {
        let c = v[i];
        if !('0' <= c && c <= '9') {
            assert(p[i - from] == c);
            return None;
        }
        proof {
            let q = v@.subrange(from as int, i + 1);
            assert(q.drop_last() =~= v@.subrange(from as int, i as int));
            assert(q.last() == c);
            assert forall|k: int| 0 <= k < q.len() implies is_digit(#[trigger] q[k]) by {
                assert(q[k] == v@[from + k]);
            }
            lemma_decimal_value_bound(q);
        }
        value = value * 10 + ((c as u32) - 48);
        i = i + 1;
    }
    assert(v@.subrange(from as int, to as int) == p);
    assert forall|k: int| 0 <= k < p.len() implies is_digit(#[trigger] p[k]) by {
        assert(p[k] == v@[from + k]);
    }
    if value > 255 {
        return None;
    }
    Some(value as u8)
}

/// The octets of `v` when it is a dotted-quad IPv4 literal.
fn parse_ipv4(v: &Vec<char>) -> (r: Option<(u8, u8, u8, u8)>)
    ensures
        match r {
            Some(o) => ipv4_octets(v@) == Some((o.0 as int, o.1 as int, o.2 as int, o.3 as int)),
            None => ipv4_octets(v@) is None,
        },
{
    let n = v.len();
    let a = find_char(v, 0, '.');
    assert(v@.skip(0) =~= v@);
    if a == n {
        return None;
    }
    let p1 = a + 1;
    let b = find_char(v, p1, '.');
    let ghost r1 = v@.skip(a + 1);
    if p1 + b == n {
        return None;
    }
    let p2 = p1 + b + 1;
    let c = find_char(v, p2, '.');
    assert(r1.skip(b + 1) =~= v@.skip(p2 as int));
    let ghost r2 = r1.skip(b + 1);
    if p2 + c == n {
        return None;
    }
    let p3 = p2 + c + 1;
    let d = find_char(v, p3, '.');
    assert(r2.skip(c + 1) =~= v@.skip(p3 as int));
    let ghost r3 = r2.skip(c + 1);
    if p3 + d != n {
        return None;
    }
    assert(dotted_fields(v@) == Some((v@.take(a as int), r1.take(b as int), r2.take(c as int), r3)));
    assert(v@.take(a as int) =~= v@.subrange(0, a as int));
    assert(r1.take(b as int) =~= v@.subrange(p1 as int, (p1 + b) as int));
    assert(r2.take(c as int) =~= v@.subrange(p2 as int, (p2 + c) as int));
    assert(r3 =~= v@.subrange(p3 as int, n as int));
    let o0 = parse_octet(v, 0, a);
    let o1 = parse_octet(v, p1, p1 + b);
    let o2 = parse_octet(v, p2, p2 + c);
    let o3 = parse_octet(v, p3, n);
    match (o0, o1, o2, o3) {
        (Some(x0), Some(x1), Some(x2), Some(x3)) => Some((x0, x1, x2, x3)),
        _ => None,
    }
}

// ---------------------------------------------------------------------------
// Blocked hosts
// ---------------------------------------------------------------------------
/// Hosts a subscription URL may not point at: `localhost` and its sub-domains,
/// bracketed local IPv6 forms (loopback `::1`, link-local `fe80:`, unique-local
/// `fc`/`fd`), and internal IPv4 literals.
///
/// A host that holds ':' outside brackets never reaches it (an unbracketed host
/// is cut at its first ':'), so only dotted IPv4 literals parse as an IP address
/// in the last branch.
pub open spec fn blocked_host(h: Seq<char>) -> bool {
    if h == "localhost"@ || has_suffix(h, ".localhost"@) {
        true
    } else if has_prefix(h, "["@) {
        let inner = drop_trailing(drop_leading(h, '['), ']');
        inner == "::1"@ || has_prefix(inner, "fe80:"@) || has_prefix(inner, "fc"@) || has_prefix(
            inner,
            "fd"@,
        )
    } else {
        match ipv4_octets(h) {
            Some(o) => ipv4_is_internal(o),
            None => false,
        }
    }
}

fn is_blocked_host(h: &Vec<char>) -> (r: bool)
    ensures
        r == blocked_host(h@),
{
    if chars_eq(h, &chars_of("localhost")) || ends_with(h, &chars_of(".localhost")) {
        return true;
    }
    if starts_with(h, &chars_of("[")) {
        let inner = strip_matches(h, '[', ']');
        return chars_eq(&inner, &chars_of("::1")) || starts_with(&inner, &chars_of("fe80:"))
            || starts_with(&inner, &chars_of("fc")) || starts_with(&inner, &chars_of("fd"));
    }
    match parse_ipv4(h) {
        Some((a, b, c, d)) => a == 127 || a == 10 || (a == 172 && 16 <= b && b <= 31) || (a
            == 192 && b == 168) || (a == 169 && b == 254) || (a == 255 && b == 255 && c == 255
            && d == 255),
        None => false,
    }
}

// ---------------------------------------------------------------------------
// Subscription URL admission
// ---------------------------------------------------------------------------
/// The host part of an authority without user info: a bracketed IPv6 literal up
/// to and including its ']' (all of it when unclosed), else the part before the
/// first ':' (the port separator).
pub open spec fn authority_host(seg: Seq<char>) -> Seq<char> {
    if has_prefix(seg, "["@) {
        let close = first_index_of(seg, ']');
        if close < seg.len() {
            seg.take(close + 1)
        } else {
            seg
        }
    } else {
        before_first(seg, ':')
    }
}

/// The host of an `http://` or `https://` URL `t`: after the scheme, up to the
/// first '/', after the last '@', then `authority_host`.
pub open spec fn url_host(t: Seq<char>) -> Seq<char> {
    let rest = if has_prefix(t, "http://"@) {
        t.skip("http://"@.len() as int)
    } else {
        t.skip("https://"@.len() as int)
    };
    authority_host(after_last(before_first(rest, '/'), '@'))
}

/// What `validate_subscription_url` answers for an input string.
pub open spec fn subscription_url_check(url: Seq<char>) -> Result<Seq<char>, Seq<char>> {
    url_check_with_host(url, unicode_lowercase(url_host(trim(url))))
}

/// What `validate_subscription_url` answers for an input string of ASCII
/// characters, whose host lower-cases as ASCII.
pub open spec fn ascii_url_check(url: Seq<char>) -> Result<Seq<char>, Seq<char>> {
    url_check_with_host(url, ascii_lower(url_host(trim(url))))
}

/// The URL checks, given the lower-cased host `host` of the trimmed URL.
pub open spec fn url_check_with_host(url: Seq<char>, host: Seq<char>) -> Result<Seq<char>, Seq<char>> {
    let t = trim(url);
    if !has_prefix(t, "http://"@) && !has_prefix(t, "https://"@) {
        Err("URL 必须以 http:// 或 https:// 开头"@)
    } else if (vstd::utf8::encode_utf8(t).len() as usize) < 12 {
        Err("URL 格式无效"@)
    } else {
        if host.len() == 0 {
            Err("URL 格式无效"@)
        } else if blocked_host(host) {
            Err("不允许使用内网或本地地址作为订阅 URL"@)
        } else {
            Ok(t)
        }
    }
}

/// The host part of `seg` (see `authority_host`).
fn host_of_authority(seg: &Vec<char>) -> (r: Vec<char>)
    ensures
        r@ == authority_host(seg@),
        all_ascii(seg@) ==> all_ascii(r@),
{
    assert(seg@.skip(0) =~= seg@);
    let end: usize = if starts_with(seg, &chars_of("[")) {
        let close = find_char(seg, 0, ']');
        if close < seg.len() {
            close + 1
        } else {
            seg.len()
        }
    } else {
        find_char(seg, 0, ':')
    };
    let r = sub_chars(seg, 0, end);
    proof {
        if all_ascii(seg@) {
            lemma_ascii_subrange(seg@, 0, end as int);
        }
        if has_prefix(seg@, "["@) {
            if first_index_of(seg@, ']') < seg@.len() {
                assert(r@ =~= seg@.take(first_index_of(seg@, ']') + 1));
            } else {
                assert(r@ =~= seg@);
            }
        } else {
            assert(r@ =~= before_first(seg@, ':'));
        }
    }
    r
}

/// Admits a subscription URL: trimmed, `http(s)://`, at least 12 bytes, with a
/// non-empty host that is neither local nor internal. Returns the trimmed URL.
pub fn validate_subscription_url(url: &str) -> (r: Result<String, String>)
    ensures
        result_view(r) == subscription_url_check(url@),
        all_ascii(url@) ==> result_view(r) == ascii_url_check(url@),
{
    let v = chars_of(url);
    let (lo, hi) = trim_bounds(&v);
    let t = sub_chars(&v, lo, hi);
    let http = chars_of("http://");
    let https = chars_of("https://");
    let is_http = starts_with(&t, &http);
    if !is_http && !starts_with(&t, &https) {
        return Err(owned("URL 必须以 http:// 或 https:// 开头"));
    }
    let trimmed = string_from_chars(&t);
    if trimmed.as_str().len() < 12 {
        return Err(owned("URL 格式无效"));
    }
    let skip = if is_http {
        http.len()
    } else {
        https.len()
    };
    let rest = sub_chars(&t, skip, t.len());
    assert(rest@ =~= t@.skip(skip as int));
    let slash = find_char(&rest, 0, '/');
    assert(rest@.skip(0) =~= rest@);
    let authority = sub_chars(&rest, 0, slash);
    assert(authority@ =~= before_first(rest@, '/'));
    let at = after_last_start(&authority, '@');
    let segment = sub_chars(&authority, at, authority.len());
    assert(segment@ =~= after_last(authority@, '@'));
    let host_raw = host_of_authority(&segment);
    proof {
        if all_ascii(url@) {
            lemma_ascii_subrange(v@, lo as int, hi as int);
            lemma_ascii_subrange(t@, skip as int, t@.len() as int);
            lemma_ascii_subrange(rest@, 0, slash as int);
            lemma_ascii_subrange(authority@, at as int, authority@.len() as int);
            assert(segment@ =~= authority@.subrange(at as int, authority@.len() as int));
        }
    }
    let host = to_lowercase(string_from_chars(&host_raw).as_str());
    if host.as_str().is_empty() {
        return Err(owned("URL 格式无效"));
    }
    if is_blocked_host(&chars_of(host.as_str())) {
        return Err(owned("不允许使用内网或本地地址作为订阅 URL"));
    }
    Ok(trimmed)
}

/// Admission is stable: a URL that `validate_subscription_url` answers is
/// admitted again, unchanged.
pub proof fn lemma_validate_idempotent(url: Seq<char>)
    ensures
        subscription_url_check(url) matches Ok(t) ==> subscription_url_check(t) == Ok::<
            Seq<char>,
            Seq<char>,
        >(t),
{
    lemma_trim_idempotent(url);
}

// ---------------------------------------------------------------------------
// The refused IPv4 hosts, stated on the URL
// ---------------------------------------------------------------------------
/// The dotted-quad text of the address `a.b.c.d`.
pub open spec fn ipv4_text(a: u8, b: u8, c: u8, d: u8) -> Seq<char> {
    decimal(a as nat) + "."@ + decimal(b as nat) + "."@ + decimal(c as nat) + "."@ + decimal(
        d as nat,
    )
}

proof fn lemma_digit_char(d: nat)
    requires
        d < 10,
    ensures
        is_digit(crate::text::digit_char(d)),
        crate::text::digit_char(d) as int - 48 == d,
        d > 0 ==> crate::text::digit_char(d) != '0',
{
}

/// The decimal text of a byte is a valid IPv4 field of that value.
proof fn lemma_decimal_octet(n: nat)
    requires
        n <= 255,
    ensures
        valid_octet(decimal(n)),
        decimal_value(decimal(n)) == n,
{
    let p = decimal(n);
    reveal_with_fuel(decimal_value, 4);
    if n < 10 {
        lemma_digit_char(n);
        assert(p =~= seq![crate::text::digit_char(n)]);
        assert(p.drop_last() =~= Seq::<char>::empty());
        assert(decimal_value(p) == n);
        assert forall|i: int| 0 <= i < p.len() implies is_digit(#[trigger] p[i]) by {
            assert(i == 0);
        }
    } else if n < 100 {
        let d1 = n / 10;
        let d0 = n % 10;
        lemma_digit_char(d1);
        lemma_digit_char(d0);
        assert(decimal(d1) =~= seq![crate::text::digit_char(d1)]);
        assert(p =~= seq![crate::text::digit_char(d1), crate::text::digit_char(d0)]);
        assert(p.drop_last() =~= seq![crate::text::digit_char(d1)]);
        assert(p.drop_last().drop_last() =~= Seq::<char>::empty());
        assert(decimal_value(p.drop_last()) == d1);
        assert(decimal_value(p) == d1 * 10 + d0);
        assert forall|i: int| 0 <= i < p.len() implies is_digit(#[trigger] p[i]) by {
            assert(i == 0 || i == 1);
        }
    } else {
        let d2 = n / 100;
        let d1 = (n / 10) % 10;
        let d0 = n % 10;
        assert(n / 10 / 10 == d2);
        lemma_digit_char(d2);
        lemma_digit_char(d1);
        lemma_digit_char(d0);
        assert(decimal(d2) =~= seq![crate::text::digit_char(d2)]);
        assert(decimal(n / 10) =~= seq![crate::text::digit_char(d2), crate::text::digit_char(d1)]);
        assert(p =~= seq![
            crate::text::digit_char(d2),
            crate::text::digit_char(d1),
            crate::text::digit_char(d0),
        ]);
        let q = p.drop_last();
        assert(q =~= seq![crate::text::digit_char(d2), crate::text::digit_char(d1)]);
        assert(q.drop_last() =~= seq![crate::text::digit_char(d2)]);
        assert(q.drop_last().drop_last() =~= Seq::<char>::empty());
        assert(decimal_value(q.drop_last()) == d2);
        assert(decimal_value(q) == d2 * 10 + d1);
        assert(decimal_value(p) == (d2 * 10 + d1) * 10 + d0);
        assert forall|i: int| 0 <= i < p.len() implies is_digit(#[trigger] p[i]) by {
            assert(i == 0 || i == 1 || i == 2);
        }
    }
}

/// Every character of `s` is an ASCII digit.
pub open spec fn all_digits_text(s: Seq<char>) -> bool {
    forall|i: int| 0 <= i < s.len() ==> is_digit(#[trigger] s[i])
}

proof fn lemma_first_index_concat(p: Seq<char>, q: Seq<char>, c: char)
    requires
        forall|i: int| 0 <= i < p.len() ==> #[trigger] p[i] != c,
    ensures
        first_index_of(p + q, c) == p.len() + first_index_of(q, c),
    decreases p.len(),
{
    if p.len() > 0 {
        assert((p + q).drop_first() =~= p.drop_first() + q);
        assert forall|i: int| 0 <= i < p.drop_first().len() implies #[trigger] p.drop_first()[i]
            != c by {
            assert(p.drop_first()[i] == p[i + 1]);
        }
        lemma_first_index_concat(p.drop_first(), q, c);
    } else {
        assert(p + q =~= q);
    }
}

proof fn lemma_digits_first_index(p: Seq<char>, q: Seq<char>, c: char)
    requires
        all_digits_text(p),
        !is_digit(c),
    ensures
        first_index_of(p + q, c) == p.len() + first_index_of(q, c),
        first_index_of(p, c) == p.len(),
{
    assert forall|i: int| 0 <= i < p.len() implies #[trigger] p[i] != c by {
        assert(is_digit(p[i]));
    }
    lemma_first_index_concat(p, q, c);
    lemma_first_index_concat(p, Seq::<char>::empty(), c);
    assert(p + Seq::<char>::empty() =~= p);
}

proof fn lemma_split_at_dot(p: Seq<char>, q: Seq<char>)
    requires
        all_digits_text(p),
    ensures
        first_index_of(p + "."@ + q, '.') == p.len(),
        (p + "."@ + q).take(p.len() as int) == p,
        (p + "."@ + q).skip(p.len() as int + 1) == q,
{
    reveal_strlit(".");
    let s = p + "."@ + q;
    assert(s =~= p + ("."@ + q));
    lemma_digits_first_index(p, "."@ + q, '.');
    assert(("."@ + q)[0] == '.');
    assert(s.take(p.len() as int) =~= p);
    assert(s.skip(p.len() as int + 1) =~= q);
}

/// The dotted-quad text of `a.b.c.d` parses back as the IPv4 literal `a.b.c.d`.
#[verifier::rlimit(30)]
proof fn lemma_ipv4_text_octets(a: u8, b: u8, c: u8, d: u8)
    ensures
        ipv4_octets(ipv4_text(a, b, c, d)) == Some((a as int, b as int, c as int, d as int)),
{
    let da = decimal(a as nat);
    let db = decimal(b as nat);
    let dc = decimal(c as nat);
    let dd = decimal(d as nat);
    lemma_decimal_octet(a as nat);
    lemma_decimal_octet(b as nat);
    lemma_decimal_octet(c as nat);
    lemma_decimal_octet(d as nat);
    let s = ipv4_text(a, b, c, d);
    let t2 = dc + "."@ + dd;
    let t1 = db + "."@ + t2;
    assert(s =~= da + "."@ + t1);
    lemma_split_at_dot(da, t1);
    lemma_split_at_dot(db, t2);
    lemma_split_at_dot(dc, dd);
    lemma_digits_first_index(dd, Seq::<char>::empty(), '.');
    assert(dotted_fields(s) == Some((da, db, dc, dd)));
}

/// Every character of `s` is an ASCII digit or a dot.
pub open spec fn dotted_digits(s: Seq<char>) -> bool {
    forall|i: int| 0 <= i < s.len() ==> is_digit(#[trigger] s[i]) || s[i] == '.'
}

proof fn lemma_ipv4_text_shape(a: u8, b: u8, c: u8, d: u8)
    ensures
        dotted_digits(ipv4_text(a, b, c, d)),
        ipv4_text(a, b, c, d).len() >= 7,
        is_digit(ipv4_text(a, b, c, d)[0]),
        is_digit(ipv4_text(a, b, c, d).last()),
{
    reveal_strlit(".");
    lemma_decimal_octet(a as nat);
    lemma_decimal_octet(b as nat);
    lemma_decimal_octet(c as nat);
    lemma_decimal_octet(d as nat);
    let da = decimal(a as nat);
    let db = decimal(b as nat);
    let dc = decimal(c as nat);
    let dd = decimal(d as nat);
    let s = ipv4_text(a, b, c, d);
    assert forall|i: int| 0 <= i < s.len() implies is_digit(#[trigger] s[i]) || s[i] == '.' by {
        let l1 = da.len() as int;
        let l2 = l1 + 1 + db.len();
        let l3 = l2 + 1 + dc.len();
        if i < l1 {
            assert(s[i] == da[i]);
        } else if i == l1 {
            assert(s[i] == '.');
        } else if i < l2 {
            assert(s[i] == db[i - l1 - 1]);
        } else if i == l2 {
            assert(s[i] == '.');
        } else if i < l3 {
            assert(s[i] == dc[i - l2 - 1]);
        } else if i == l3 {
            assert(s[i] == '.');
        } else {
            assert(s[i] == dd[i - l3 - 1]);
        }
    }
    assert(s[0] == da[0]);
    assert(s.last() == dd.last());
}

proof fn lemma_after_last_absent(p: Seq<char>, c: char)
    requires
        forall|i: int| 0 <= i < p.len() ==> #[trigger] p[i] != c,
    ensures
        after_last(p, c) == p,
    decreases p.len(),
{
    if p.len() > 0 {
        assert forall|i: int| 0 <= i < p.drop_last().len() implies #[trigger] p.drop_last()[i]
            != c by {
            assert(p.drop_last()[i] == p[i]);
        }
        lemma_after_last_absent(p.drop_last(), c);
        assert(p.last() == p[p.len() - 1]);
        assert(p.drop_last().push(p.last()) =~= p);
    }
}

proof fn lemma_utf8_len(s: Seq<char>)
    ensures
        vstd::utf8::encode_utf8(s).len() >= s.len(),
    decreases s.len(),
{
    if s.len() > 0 {
        lemma_utf8_len(s.drop_first());
        assert(vstd::utf8::encode_scalar(s[0] as u32).len() >= 1);
    }
}

/// The SSRF guard refuses every internal IPv4 host: a `http://` or `https://` URL
/// whose host is the literal `a.b.c.d` (followed by nothing or a path) is refused
/// with the internal-address message when the address is loopback (127/8),
/// private (10/8, 172.16/12, 192.168/16), link-local (169.254/16) or the
/// broadcast address, the blocks `Ipv4Addr::is_loopback`, `is_private`,
/// `is_link_local` and `is_broadcast` name. (For ASCII URLs this is what
/// `validate_subscription_url` answers; the URL's UTF-8 length fits a `usize`, as
/// that of any string in memory does.)
pub proof fn lemma_internal_ipv4_refused(
    url: Seq<char>,
    scheme: Seq<char>,
    path: Seq<char>,
    a: u8,
    b: u8,
    c: u8,
    d: u8,
)
    requires
        scheme == "http://"@ || scheme == "https://"@,
        path.len() == 0 || path[0] == '/',
        trim(url) == scheme + ipv4_text(a, b, c, d) + path,
        vstd::utf8::encode_utf8(trim(url)).len() <= usize::MAX,
        a == 127 || a == 10 || (a == 172 && 16 <= b <= 31) || (a == 192 && b == 168) || (a == 169
            && b == 254) || (a == 255 && b == 255 && c == 255 && d == 255),
    ensures
        ascii_url_check(url) == Err::<Seq<char>, Seq<char>>(
            "不允许使用内网或本地地址作为订阅 URL"@,
        ),
{
    reveal_strlit("http://");
    reveal_strlit("https://");
    reveal_strlit("[");
    reveal_strlit("localhost");
    reveal_strlit(".localhost");
    let h = ipv4_text(a, b, c, d);
    let t = trim(url);
    lemma_ipv4_text_shape(a, b, c, d);
    lemma_ipv4_text_octets(a, b, c, d);
    assert(t.take(scheme.len() as int) =~= scheme);
    let rest = t.skip(scheme.len() as int);
    assert(rest =~= h + path);
    assert forall|i: int| 0 <= i < h.len() implies #[trigger] h[i] != '/' && h[i] != '@' && h[i]
        != ':' by {
        assert(is_digit(h[i]) || h[i] == '.');
    }
    lemma_first_index_concat(h, path, '/');
    if path.len() > 0 {
        assert(first_index_of(path, '/') == 0);
    }
    assert(before_first(rest, '/') =~= h);
    lemma_after_last_absent(h, '@');
    lemma_first_index_concat(h, Seq::<char>::empty(), ':');
    assert(h + Seq::<char>::empty() =~= h);
    assert(before_first(h, ':') =~= h);
    assert(!has_prefix(h, "["@)) by {
        assert(h.take(1)[0] == h[0]);
    }
    if scheme == "http://"@ {
        assert(has_prefix(t, "http://"@));
    } else {
        assert(t[4] == 's');
        assert(!has_prefix(t, "http://"@)) by {
            assert(t.take(7)[4] == t[4]);
        }
    }
    assert(after_last(before_first(rest, '/'), '@') == h);
    assert(authority_host(h) == h);
    assert(url_host(t) == h);
    assert(ascii_lower(h) =~= h) by {
        assert forall|i: int| 0 <= i < h.len() implies ascii_lower(h)[i] == h[i] by {
            assert(is_digit(h[i]) || h[i] == '.');
        }
    }
    assert(h != "localhost"@) by {
        assert("localhost"@[0] == 'l');
    }
    assert(!has_suffix(h, ".localhost"@)) by {
        if has_suffix(h, ".localhost"@) {
            assert(h.skip(h.len() - 10)[9] == h.last());
        }
    }
    assert(blocked_host(h));
    lemma_utf8_len(t);
    assert(t.len() >= 14);
    assert(has_prefix(t, "http://"@) || has_prefix(t, "https://"@));
    assert(h.len() > 0);
    assert(!((vstd::utf8::encode_utf8(t).len() as usize) < 12));
}

// ---------------------------------------------------------------------------
// Health probe answers
// ---------------------------------------------------------------------------
/// A health probe answered by our proxy: an HTTP 200 status line or a JSON
/// `"status":"ok"` (with or without a space after the colon).
pub open spec fn health_ok(resp: Seq<char>) -> bool {
    contains_seq(resp, "200 OK"@) || contains_seq(resp, "\"status\":\"ok\""@) || contains_seq(
        resp,
        "\"status\": \"ok\""@,
    )
}

/// Whether a health-probe response shows our proxy answering.
pub fn health_response_ok(resp: &str) -> (b: bool)
    ensures
        b == health_ok(resp@),
{
    let v = chars_of(resp);
    contains(&v, &chars_of("200 OK")) || contains(&v, &chars_of("\"status\":\"ok\""))
        || contains(&v, &chars_of("\"status\": \"ok\""))
}

// ---------------------------------------------------------------------------
// Port scanning
// ---------------------------------------------------------------------------
/// How many ports above the preferred one are tried when falling back.
pub const PORT_SCAN_MAX: u16 = 32;

/// The last port a scan of `max_scan` ports above `from` may try.
pub open spec fn scan_limit(from: u16, max_scan: u16) -> int {
    if from + max_scan <= 65535 {
        from + max_scan
    } else {
        65535
    }
}

/// The first port in `from+1 ..= from+max_scan` (never above 65535) that
/// `is_occupied` reports free, trying them in increasing order.
pub fn scan_next_free_port(from: u16, is_occupied: impl Fn(u16) -> bool, max_scan: u16) -> (r:
    Option<u16>)
    requires
        forall|p: u16| is_occupied.requires((p,)),
    ensures
        match r {
            Some(c) => {
                &&& from < c <= scan_limit(from, max_scan)
                &&& is_occupied.ensures((c,), false)
                &&& forall|k: u16| from < k < c ==> is_occupied.ensures((k,), true)
            },
            None => forall|k: u16|
                from < k <= scan_limit(from, max_scan) ==> is_occupied.ensures((k,), true),
        },
{
    if max_scan == 0 {
        return None;
    }
    let mut offset: u16 = 1;
    loop
        invariant
            1 <= offset <= max_scan,
            forall|p: u16| is_occupied.requires((p,)),
            forall|k: u16| from < k < from + offset ==> is_occupied.ensures((k,), true),
        decreases max_scan - offset,
    {
        let candidate: u32 = from as u32 + offset as u32;
        if candidate > 65535 {
            return None;
        }
        let c = candidate as u16;
        assert(c as u32 == candidate);
        if !is_occupied(c) {
            return Some(c);
        }
        if offset == max_scan {
            return None;
        }
        offset = offset + 1;
    }
}

/// The first free port among the `PORT_SCAN_MAX` ports above `from`, as the
/// listener probe `is_listening` reports them.
pub fn find_next_free_port(from: u16, is_listening: impl Fn(u16) -> bool) -> (r: Option<u16>)
    requires
        forall|p: u16| is_listening.requires((p,)),
    ensures
        scan_outcome(from, is_listening, PORT_SCAN_MAX, r),
{
    scan_next_free_port(from, is_listening, PORT_SCAN_MAX)
}

// ---------------------------------------------------------------------------
// Service status
// ---------------------------------------------------------------------------
/// What `get_service_status` reports to the front end.
#[derive(Clone, Debug)]
pub struct ServiceStatus {
    pub status: String,
    pub port: Option<u16>,
    pub url: Option<String>,
    pub base_url: Option<String>,
    pub runner_kind: String,
}

/// The runner label of the embedded proxy.
pub open spec fn runner_builtin() -> Seq<char> {
    "builtin"@
}

/// `http://127.0.0.1:<port>`.
pub open spec fn local_base_url(port: u16) -> Seq<char> {
    "http://127.0.0.1:"@ + decimal(port as nat)
}

/// The local base URL of a port.
pub fn local_base_url_for(port: u16) -> (s: String)
    ensures
        s@ == local_base_url(port),
{
    let mut s = owned("http://127.0.0.1:");
    push_decimal(&mut s, port as u64);
    s
}

/// The status of a stopped service: no port, URL or runner.
pub fn stopped_status() -> (s: ServiceStatus)
    ensures
        s.status@ == "stopped"@,
        s.port is None,
        s.url is None,
        s.base_url is None,
        s.runner_kind@ == Seq::<char>::empty(),
{
    ServiceStatus {
        status: owned("stopped"),
        port: None,
        url: None,
        base_url: None,
        runner_kind: String::new(),
    }
}

/// The status of a running service on `port` with subscription `url`.
pub fn running_status(port: Option<u16>, url: Option<String>) -> (s: ServiceStatus)
    ensures
        s.status@ == "running"@,
        s.port == port,
        s.url == url,
        match port {
            Some(p) => s.base_url matches Some(b) && b@ == local_base_url(p),
            None => s.base_url is None,
        },
        s.runner_kind@ == runner_builtin(),
{
    let base_url = match port {
        Some(p) => Some(local_base_url_for(p)),
        None => None,
    };
    ServiceStatus { status: owned("running"), port, url, base_url, runner_kind: owned("builtin") }
}

/// Whether the embedded service counts as running: it has a server handle and
/// its port accepts connections.
pub fn service_is_alive(has_handle: bool, port: Option<u16>, is_listening: impl Fn(u16) -> bool) -> (b:
    bool)
    requires
        forall|p: u16| is_listening.requires((p,)),
    ensures
        b ==> has_handle && port is Some && is_listening.ensures((port->0,), true),
        !b ==> !has_handle || port is None || is_listening.ensures((port->0,), false),
{
    if !has_handle {
        return false;
    }
    match port {
        Some(p) => is_listening(p),
        None => false,
    }
}

/// The report of a stopped service.
pub open spec fn reports_stopped(s: ServiceStatus) -> bool {
    &&& s.status@ == "stopped"@
    &&& s.port is None
    &&& s.url is None
    &&& s.base_url is None
    &&& s.runner_kind@ == Seq::<char>::empty()
}

/// The report of a service running on `port` for `url`.
pub open spec fn reports_running(s: ServiceStatus, port: Option<u16>, url: Option<String>) -> bool {
    &&& s.status@ == "running"@
    &&& s.port == port
    &&& s.url == url
    &&& match port {
        Some(p) => s.base_url matches Some(b) && b@ == local_base_url(p),
        None => s.base_url is None,
    }
    &&& s.runner_kind@ == runner_builtin()
}

/// What the service's status is, given whether the application holds a server
/// handle (`has_handle`, with the port and URL it was started on): running when
/// a handle is held and its port still listens; else stopped. The second part of
/// the answer says whether a held handle is stale and is to be let go.
pub fn observe_service(
    has_handle: bool,
    port: Option<u16>,
    url: Option<String>,
    is_listening: impl Fn(u16) -> bool,
) -> (r: (ServiceStatus, bool))
    requires
        forall|p: u16| is_listening.requires((p,)),
    ensures
        !has_handle ==> reports_stopped(r.0) && !r.1,
        has_handle ==> {
            ||| (reports_running(r.0, port, url) && !r.1 && port is Some
                && is_listening.ensures((port->0,), true))
            ||| (reports_stopped(r.0) && r.1 && (port is None || is_listening.ensures(
                (port->0,),
                false,
            )))
        },
{
    if !has_handle {
        return (stopped_status(), false);
    }
    if service_is_alive(has_handle, port, is_listening) {
        (running_status(port, url), false)
    } else {
        (stopped_status(), true)
    }
}

/// What the application records of the service it runs: the port it listens on
/// and the subscription URL it serves (both `None` when stopped).
#[derive(Debug)]
pub struct ServiceRecord {
    pub port: Option<u16>,
    pub url: Option<String>,
}

impl ServiceRecord {
    /// Nothing recorded.
    pub fn new() -> (r: ServiceRecord)
        ensures
            r.port is None,
            r.url is None,
    {
        ServiceRecord { port: None, url: None }
    }

    /// Records a service started on `port` for `url`.
    pub fn record_started(&mut self, port: u16, url: String)
        ensures
            final(self).port == Some(port),
            final(self).url == Some(url),
    {
        self.port = Some(port);
        self.url = Some(url);
    }

    /// Forgets the service: stopping leaves nothing recorded, so stopping again
    /// changes nothing.
    pub fn record_stopped(&mut self)
        ensures
            final(self).port is None,
            final(self).url is None,
    {
        self.port = None;
        self.url = None;
    }

    /// The service's status (see `observe_service`) when the application holds a
    /// server handle (`has_handle`); a stale handle is forgotten here too, so the
    /// record is then empty.
    pub fn observe(&mut self, has_handle: bool, is_listening: impl Fn(u16) -> bool) -> (r: (
        ServiceStatus,
        bool,
    ))
        requires
            forall|p: u16| is_listening.requires((p,)),
        ensures
            !has_handle ==> reports_stopped(r.0) && !r.1 && final(self).port == old(self).port
                && final(self).url == old(self).url,
            has_handle ==> {
                ||| (reports_running(r.0, old(self).port, old(self).url) && !r.1 && old(self).port is Some
                    && is_listening.ensures((old(self).port->0,), true) && final(self).port == old(
                    self,
                ).port && final(self).url == old(self).url)
                ||| (reports_stopped(r.0) && r.1 && (old(self).port is None || is_listening.ensures(
                    (old(self).port->0,),
                    false,
                )) && final(self).port is None && final(self).url is None)
            },
    {
        let (status, stale) = observe_service(has_handle, self.port, self.url.clone(), is_listening);
        if stale {
            self.record_stopped();
        }
        (status, stale)
    }
}

// ---------------------------------------------------------------------------
// Port checks and reclaiming
// ---------------------------------------------------------------------------
/// What `check_port` reports for a port.
#[derive(Clone, Debug)]
pub struct PortCheckResult {
    pub available: bool,
    pub port: u16,
    pub reclaimable: bool,
    pub foreign: bool,
    pub suggested_port: Option<u16>,
}

/// What `start_service` reports once the service listens.
#[derive(Clone, Debug)]
pub struct StartServiceResult {
    pub base_url: String,
    pub port: u16,
    pub requested_port: u16,
    pub port_changed: bool,
    pub port_reclaimed: bool,
}

/// The message for a port below 1024.
pub open spec fn port_range_message() -> Seq<char> {
    "端口必须在 1024-65535 之间"@
}

/// `before` + the decimal port + `after`.
pub open spec fn port_message(before: Seq<char>, port: u16, after: Seq<char>) -> Seq<char> {
    before + decimal(port as nat) + after
}

/// The message when every listener on `port` is this process.
pub open spec fn held_by_self_message(port: u16) -> Seq<char> {
    port_message("端口 "@, port, " 正由本应用占用，请先在应用内停止服务"@)
}

/// The message when the listeners on `port` survive both signals.
pub open spec fn release_failed_message(port: u16) -> Seq<char> {
    port_message("无法释放端口 "@, port, "，请手动关闭占用程序"@)
}

/// The message when `port` is held by something that is not our proxy.
pub open spec fn foreign_holder_message(port: u16) -> Seq<char> {
    port_message("端口 "@, port, " 被其他程序占用，无法自动释放"@)
}

/// The message when no port above `preferred` within the scan is free, naming
/// the range scanned (empty, as 65536–65535, for a `preferred` of 65535).
pub open spec fn no_fallback_port_message(preferred: u16) -> Seq<char> {
    let last = if preferred + PORT_SCAN_MAX <= 65535 {
        preferred + PORT_SCAN_MAX
    } else {
        65535
    };
    "端口 "@ + decimal(preferred as nat) + " 被其他程序占用，且 "@ + decimal(
        (preferred + 1) as nat,
    ) + "–"@ + decimal(last as nat) + " 无可用端口"@
}

/// The message when `preferred` is taken and falling back is not allowed.
pub open spec fn fallback_disabled_message(preferred: u16) -> Seq<char> {
    port_message("端口 "@, preferred, " 已被其他程序占用。请先关闭占用程序，或勾选「占用时自动换端口」"@)
}

fn port_message_for(before: &str, port: u16, after: &str) -> (s: String)
    ensures
        s@ == port_message(before@, port, after@),
{
    let mut s = owned(before);
    push_decimal(&mut s, port as u64);
    s.append(after);
    s
}

/// The pids of `pids` other than `self_pid`, in order.
pub open spec fn other_pids(pids: Seq<i32>, self_pid: i32) -> Seq<i32> {
    pids.filter(|p: i32| p != self_pid)
}

/// Releasing a port never signals this process: `self_pid` is not among the
/// pids that are signalled, and every pid signalled was listed on the port.
pub proof fn lemma_never_signals_self(pids: Seq<i32>, self_pid: i32)
    ensures
        !other_pids(pids, self_pid).contains(self_pid),
        forall|i: int|
            0 <= i < other_pids(pids, self_pid).len() ==> pids.contains(
                #[trigger] other_pids(pids, self_pid)[i],
            ),
    decreases pids.len(),
{
    broadcast use vstd::seq_lib::group_filter_ensures;

    if other_pids(pids, self_pid).contains(self_pid) {
        let i = choose|i: int|
            0 <= i < other_pids(pids, self_pid).len() && other_pids(pids, self_pid)[i] == self_pid;
        pids.lemma_filter_pred(|p: i32| p != self_pid, i);
    }
    if pids.len() > 0 {
        let d = pids.drop_last();
        lemma_never_signals_self(d, self_pid);
        reveal(Seq::filter);
        assert(other_pids(pids, self_pid) == if pids.last() != self_pid {
            other_pids(d, self_pid).push(pids.last())
        } else {
            other_pids(d, self_pid)
        });
        assert forall|i: int|
            0 <= i < other_pids(pids, self_pid).len() implies pids.contains(
                #[trigger] other_pids(pids, self_pid)[i],
            ) by {
            if i < other_pids(d, self_pid).len() {
                let x = other_pids(d, self_pid)[i];
                assert(d.contains(x));
                let w = choose|w: int| 0 <= w < d.len() && d[w] == x;
                assert(pids[w] == x);
            } else {
                assert(pids[pids.len() - 1] == pids.last());
            }
        }
    }
}

fn without_pid(pids: &Vec<i32>, self_pid: i32) -> (r: Vec<i32>)
    ensures
        r@ == other_pids(pids@, self_pid),
{
    let mut r: Vec<i32> = Vec::new();
    let mut i: usize = 0;
    while i < pids.len()
        invariant
            i <= pids.len(),
            r@ == other_pids(pids@.take(i as int), self_pid),
        decreases pids.len() - i,
    {
        proof {
            reveal_with_fuel(Seq::<_>::filter, 1);
            assert(pids@.take(i + 1).drop_last() =~= pids@.take(i as int));
        }
        if pids[i] != self_pid {
            r.push(pids[i]);
        }
        i = i + 1;
    }
    assert(pids@.take(pids.len() as int) =~= pids@);
    r
}

/// The next step of releasing a port: the signal to send and how long to wait
/// afterwards for the port to be free, or the answer once releasing is over.
#[derive(Debug)]
pub enum ReleaseAction {
    /// Send `pids` the polite (`force` false) or forced signal, then wait up to
    /// `wait_ms` milliseconds for the port to be free.
    Signal { pids: Vec<i32>, force: bool, wait_ms: u64 },
    /// Releasing is over, with this answer.
    Done(Result<(), String>),
}

/// The step a release starts with, given what the probes reported: nothing to do
/// when nobody listens; the listing's error; an error when only this process
/// listens; else the polite signal to the other listening processes, then a
/// wait of up to 3 s.
pub open spec fn release_start<L, P>(
    port: u16,
    self_pid: i32,
    is_listening: L,
    listening_pids: P,
    r: ReleaseAction,
) -> bool where L: Fn(u16) -> bool, P: Fn(u16) -> Result<Vec<i32>, String> {
    ||| (is_listening.ensures((port,), false) && r == ReleaseAction::Done(Ok(())))
    ||| (is_listening.ensures((port,), true) && exists|e: String|
        #[trigger] listening_pids.ensures((port,), Err(e)) && r == ReleaseAction::Done(Err(e)))
    ||| (is_listening.ensures((port,), true) && exists|v: Vec<i32>|
        #[trigger] listening_pids.ensures((port,), Ok(v)) && if other_pids(v@, self_pid).len()
            == 0 {
            r matches ReleaseAction::Done(Err(m)) && m@ == held_by_self_message(port)
        } else {
            r matches ReleaseAction::Signal { pids, force, wait_ms } && pids@ == other_pids(
                v@,
                self_pid,
            ) && !force && wait_ms == 3000
        })
}

/// Starts freeing `port` from other processes (see `release_start`). It sends no
/// signal itself; the signal it asks for never names `self_pid`.
pub fn force_release_port(
    port: u16,
    self_pid: i32,
    is_listening: impl Fn(u16) -> bool,
    listening_pids: impl Fn(u16) -> Result<Vec<i32>, String>,
) -> (r: ReleaseAction)
    requires
        forall|p: u16| is_listening.requires((p,)),
        forall|p: u16| listening_pids.requires((p,)),
    ensures
        release_start(port, self_pid, is_listening, listening_pids, r),
        r matches ReleaseAction::Signal { pids, .. } ==> !pids@.contains(self_pid) && pids@.len()
            > 0,
{
    if !is_listening(port) {
        return ReleaseAction::Done(Ok(()));
    }
    let listed = listening_pids(port);
    let pids = match listed {
        Ok(v) => v,
        Err(e) => {
            return ReleaseAction::Done(Err(e));
        },
    };
    let others = without_pid(&pids, self_pid);
    assert(listening_pids.ensures((port,), Ok(pids)));
    proof {
        lemma_never_signals_self(pids@, self_pid);
    }
    if others.len() == 0 {
        return ReleaseAction::Done(
            Err(port_message_for("端口 ", port, " 正由本应用占用，请先在应用内停止服务")),
        );
    }
    ReleaseAction::Signal { pids: others, force: false, wait_ms: 3000 }
}

/// The step after a signal to `pids` and its wait: done when the port became
/// free; after the polite signal, the forced one to the same processes and a
/// wait of up to 2 s; after the forced one, the error.
pub open spec fn release_next(port: u16, pids: Seq<i32>, force: bool, freed: bool, r: ReleaseAction) -> bool {
    if freed {
        r == ReleaseAction::Done(Ok(()))
    } else if !force {
        r matches ReleaseAction::Signal { pids: p, force: f, wait_ms } && p@ == pids && f
            && wait_ms == 2000
    } else {
        r matches ReleaseAction::Done(Err(m)) && m@ == release_failed_message(port)
    }
}

/// The next step of freeing `port`, once the signal (`force`) to `pids` was sent
/// and the wait reported whether the port became free (see `release_next`).
pub fn release_after_wait(port: u16, pids: Vec<i32>, force: bool, freed: bool) -> (r: ReleaseAction)
    ensures
        release_next(port, pids@, force, freed, r),
{
    if freed {
        return ReleaseAction::Done(Ok(()));
    }
    if !force {
        return ReleaseAction::Signal { pids, force: true, wait_ms: 2000 };
    }
    ReleaseAction::Done(Err(port_message_for("无法释放端口 ", port, "，请手动关闭占用程序")))
}

/// Releasing a port never signals this process and escalates at most once: the
/// processes `force_release_port` asks to signal exclude `self_pid`; after their
/// polite signal comes, unless the port became free, the forced signal to the
/// same processes and nothing more; after the forced signal, releasing is over.
pub proof fn lemma_release_escalates_once(
    port: u16,
    self_pid: i32,
    listed: Seq<i32>,
    first: ReleaseAction,
    second: ReleaseAction,
    freed_polite: bool,
    freed_forced: bool,
)
    requires
        first matches ReleaseAction::Signal { pids, force, .. } && pids@ == other_pids(
            listed,
            self_pid,
        ) && !force,
        release_next(port, other_pids(listed, self_pid), false, freed_polite, second),
    ensures
        !other_pids(listed, self_pid).contains(self_pid),
        second matches ReleaseAction::Signal { pids, force, .. } ==> pids@ == other_pids(
            listed,
            self_pid,
        ) && force && !pids@.contains(self_pid),
        forall|third: ReleaseAction|
            second is Signal && #[trigger] release_next(
                port,
                other_pids(listed, self_pid),
                true,
                freed_forced,
                third,
            ) ==> third is Done,
{
    lemma_never_signals_self(listed, self_pid);
}

/// Starts reclaiming `port` from a stale instance of our proxy: ports below 1024
/// are refused; a free port needs nothing; a port held by something that does
/// not answer our health probe is refused; else the release starts (see
/// `force_release_port`). It sends no signal itself.
pub fn reclaim_port(
    port: u16,
    self_pid: i32,
    is_listening: impl Fn(u16) -> bool,
    is_our_proxy: impl Fn(u16) -> bool,
    listening_pids: impl Fn(u16) -> Result<Vec<i32>, String>,
) -> (r: ReleaseAction)
    requires
        forall|p: u16| is_listening.requires((p,)),
        forall|p: u16| is_our_proxy.requires((p,)),
        forall|p: u16| listening_pids.requires((p,)),
    ensures
        port < 1024 ==> (r matches ReleaseAction::Done(Err(m)) && m@ == port_range_message()),
        port >= 1024 ==> {
            ||| (is_listening.ensures((port,), false) && r == ReleaseAction::Done(Ok(())))
            ||| (is_listening.ensures((port,), true) && is_our_proxy.ensures((port,), false) && (
            r matches ReleaseAction::Done(Err(m)) && m@ == foreign_holder_message(port)))
            ||| (is_listening.ensures((port,), true) && is_our_proxy.ensures((port,), true)
                && release_start(port, self_pid, is_listening, listening_pids, r))
        },
        r matches ReleaseAction::Signal { pids, .. } ==> !pids@.contains(self_pid),
{
    if port < 1024 {
        return ReleaseAction::Done(Err(owned("端口必须在 1024-65535 之间")));
    }
    if !is_listening(port) {
        return ReleaseAction::Done(Ok(()));
    }
    if !is_our_proxy(port) {
        return ReleaseAction::Done(
            Err(port_message_for("端口 ", port, " 被其他程序占用，无法自动释放")),
        );
    }
    force_release_port(port, self_pid, is_listening, listening_pids)
}

/// What a port scan above `from` may answer, given what `is_occupied` reported.
pub open spec fn scan_outcome<F: Fn(u16) -> bool>(
    from: u16,
    is_occupied: F,
    max_scan: u16,
    r: Option<u16>,
) -> bool {
    match r {
        Some(c) => {
            &&& from < c <= scan_limit(from, max_scan)
            &&& is_occupied.ensures((c,), false)
            &&& forall|k: u16| from < k < c ==> is_occupied.ensures((k,), true)
        },
        None => forall|k: u16|
            from < k <= scan_limit(from, max_scan) ==> is_occupied.ensures((k,), true),
    }
}

/// What `check_port` may report for a port of at least 1024, given what the
/// probes reported.
pub open spec fn port_check_outcome<L, O, P>(
    port: u16,
    self_pid: i32,
    is_listening: L,
    is_our_proxy: O,
    listening_pids: P,
    res: PortCheckResult,
) -> bool where L: Fn(u16) -> bool, O: Fn(u16) -> bool, P: Fn(u16) -> Result<Vec<i32>, String> {
    &&& res.port == port
    &&& {
    ||| (is_listening.ensures((port,), false) && res.available && !res.reclaimable
        && !res.foreign && res.suggested_port is None)
    ||| (is_listening.ensures((port,), true) && is_our_proxy.ensures((port,), true)
        && !res.available && !res.foreign && res.suggested_port is None && (res.reclaimable
        ==> exists|v: Vec<i32>|
        #[trigger] listening_pids.ensures((port,), Ok(v)) && other_pids(v@, self_pid).len()
            > 0) && (!res.reclaimable ==> exists|x: Result<Vec<i32>, String>|
        #[trigger] listening_pids.ensures((port,), x) && (x matches Ok(v) ==> other_pids(
            v@,
            self_pid,
        ).len() == 0)))
    ||| (is_listening.ensures((port,), true) && is_our_proxy.ensures((port,), false)
        && !res.available && res.foreign && !res.reclaimable && scan_outcome(
        port,
        is_listening,
        PORT_SCAN_MAX,
        res.suggested_port,
    ))
    }
}

/// Reports whether `port` is free, held by a stale instance of our proxy (and
/// whether another process of it could be stopped), or held by a foreign program
/// (with the next free port above it).
pub fn check_port(
    port: u16,
    self_pid: i32,
    is_listening: impl Fn(u16) -> bool,
    is_our_proxy: impl Fn(u16) -> bool,
    listening_pids: impl Fn(u16) -> Result<Vec<i32>, String>,
) -> (r: Result<PortCheckResult, String>)
    requires
        forall|p: u16| is_listening.requires((p,)),
        forall|p: u16| is_our_proxy.requires((p,)),
        forall|p: u16| listening_pids.requires((p,)),
    ensures
        port < 1024 ==> is_err_with(r, port_range_message()),
        port >= 1024 ==> (r matches Ok(res) && port_check_outcome(
            port,
            self_pid,
            is_listening,
            is_our_proxy,
            listening_pids,
            res,
        )),
{
    if port < 1024 {
        return Err(owned("端口必须在 1024-65535 之间"));
    }
    if !is_listening(port) {
        return Ok(
            PortCheckResult {
                available: true,
                port,
                reclaimable: false,
                foreign: false,
                suggested_port: None,
            },
        );
    }
    if is_our_proxy(port) {
        let listed = listening_pids(port);
        let reclaimable = match &listed {
            Ok(pids) => without_pid(pids, self_pid).len() > 0,
            Err(_) => false,
        };
        assert(listening_pids.ensures((port,), listed));
        return Ok(
            PortCheckResult {
                available: false,
                port,
                reclaimable,
                foreign: false,
                suggested_port: None,
            },
        );
    }
    let suggested_port = scan_next_free_port(port, &is_listening, PORT_SCAN_MAX);
    Ok(
        PortCheckResult {
            available: false,
            port,
            reclaimable: false,
            foreign: true,
            suggested_port,
        },
    )
}

fn no_fallback_port_message_for(preferred: u16) -> (s: String)
    ensures
        s@ == no_fallback_port_message(preferred),
{
    let last: u16 = if preferred <= 65535 - PORT_SCAN_MAX {
        preferred + PORT_SCAN_MAX
    } else {
        65535
    };
    let mut s = owned("端口 ");
    push_decimal(&mut s, preferred as u64);
    s.append(" 被其他程序占用，且 ");
    push_decimal(&mut s, (preferred as u64) + 1);
    s.append("–");
    push_decimal(&mut s, last as u64);
    s.append(" 无可用端口");
    s
}

/// The plan for the port to listen on: answered at once, or to be had by
/// releasing `preferred` from a stale instance of our proxy (the release starting
/// with this step); once released, `listen_after_release` answers.
#[derive(Debug)]
pub enum ListenPlan {
    Ready(Result<(u16, bool, bool), String>),
    Reclaim(ReleaseAction),
}

/// What `prepare_listen_port` plans, given what the probes reported.
pub open spec fn prepare_outcome<L, O, P>(
    preferred: u16,
    allow_fallback: bool,
    self_pid: i32,
    is_listening: L,
    is_our_proxy: O,
    listening_pids: P,
    r: ListenPlan,
) -> bool where L: Fn(u16) -> bool, O: Fn(u16) -> bool, P: Fn(u16) -> Result<Vec<i32>, String> {
    ||| (is_listening.ensures((preferred,), false) && r == ListenPlan::Ready(
        Ok::<(u16, bool, bool), String>((preferred, false, false)),
    ))
    ||| (is_listening.ensures((preferred,), true) && is_our_proxy.ensures((preferred,), true)
        && (r matches ListenPlan::Reclaim(a) && release_start(
        preferred,
        self_pid,
        is_listening,
        listening_pids,
        a,
    )))
    ||| (is_listening.ensures((preferred,), true) && is_our_proxy.ensures((preferred,), false)
        && allow_fallback && exists|n: Option<u16>|
        #[trigger] scan_outcome(preferred, is_listening, PORT_SCAN_MAX, n) && match n {
            Some(p) => r == ListenPlan::Ready(Ok::<(u16, bool, bool), String>((p, true, false))),
            None => r matches ListenPlan::Ready(Err(m)) && m@ == no_fallback_port_message(
                preferred,
            ),
        })
    ||| (is_listening.ensures((preferred,), true) && is_our_proxy.ensures((preferred,), false)
        && !allow_fallback && (r matches ListenPlan::Ready(Err(m)) && m@
        == fallback_disabled_message(preferred)))
}

/// Chooses the port to listen on: `preferred` when free; `preferred` again after
/// reclaiming it from a stale instance of our proxy (a release to run); else,
/// when allowed, the next free port above it. Answers `(port, changed,
/// reclaimed)`. It sends no signal itself; a release it plans never signals
/// `self_pid`.
///
/// The "no free port" message names the scanned range `preferred + 1` to the
/// last port tried; for a `preferred` of 65535 that range is empty and reads
/// "65536–65535".
pub fn prepare_listen_port(
    preferred: u16,
    allow_fallback: bool,
    self_pid: i32,
    is_listening: impl Fn(u16) -> bool,
    is_our_proxy: impl Fn(u16) -> bool,
    listening_pids: impl Fn(u16) -> Result<Vec<i32>, String>,
) -> (r: ListenPlan)
    requires
        forall|p: u16| is_listening.requires((p,)),
        forall|p: u16| is_our_proxy.requires((p,)),
        forall|p: u16| listening_pids.requires((p,)),
    ensures
        prepare_outcome(
            preferred,
            allow_fallback,
            self_pid,
            is_listening,
            is_our_proxy,
            listening_pids,
            r,
        ),
        r matches ListenPlan::Reclaim(ReleaseAction::Signal { pids, .. }) ==> !pids@.contains(
            self_pid,
        ),
{
    if !is_listening(preferred) {
        return ListenPlan::Ready(Ok((preferred, false, false)));
    }
    if is_our_proxy(preferred) {
        let start = force_release_port(preferred, self_pid, &is_listening, listening_pids);
        assert(release_start(preferred, self_pid, is_listening, listening_pids, start));
        return ListenPlan::Reclaim(start);
    }
    if allow_fallback {
        let next = scan_next_free_port(preferred, &is_listening, PORT_SCAN_MAX);
        assert(scan_outcome(preferred, is_listening, PORT_SCAN_MAX, next));
        return match next {
            Some(p) => ListenPlan::Ready(Ok((p, true, false))),
            None => ListenPlan::Ready(Err(no_fallback_port_message_for(preferred))),
        };
    }
    ListenPlan::Ready(
        Err(
            port_message_for(
                "端口 ",
                preferred,
                " 已被其他程序占用。请先关闭占用程序，或勾选「占用时自动换端口」",
            ),
        ),
    )
}

/// The port to listen on once `preferred` was released (`released` is the
/// release's answer): `preferred`, marked reclaimed, or the release's error.
pub fn listen_after_release(preferred: u16, released: Result<(), String>) -> (r: Result<
    (u16, bool, bool),
    String,
>)
    ensures
        match released {
            Ok(()) => r == Ok::<(u16, bool, bool), String>((preferred, false, true)),
            Err(e) => r == Err::<(u16, bool, bool), String>(e),
        },
{
    match released {
        Ok(()) => Ok((preferred, false, true)),
        Err(e) => Err(e),
    }
}

// ---------------------------------------------------------------------------
// Starting and refreshing the service
// ---------------------------------------------------------------------------
/// The message when a service is already running on `port`.
pub open spec fn already_running_message(port: u16) -> Seq<char> {
    port_message("服务已在运行 (port "@, port, ")"@)
}

/// What `admit_start_request` answers.
pub open spec fn start_request_check(
    url: Seq<char>,
    port: u16,
    running: bool,
    active_port: Option<u16>,
) -> Result<Seq<char>, Seq<char>> {
    match subscription_url_check(url) {
        Err(e) => Err(e),
        Ok(t) => if port < 1024 {
            Err(port_range_message())
        } else if running {
            Err(
                already_running_message(
                    match active_port {
                        Some(p) => p,
                        None => port,
                    },
                ),
            )
        } else {
            Ok(t)
        },
    }
}

/// The checks `start_service` makes before touching the network: the URL is
/// admitted, the port is at least 1024 and no service runs yet (`running`, with
/// the port it listens on if known). Returns the trimmed URL.
pub fn admit_start_request(url: &str, port: u16, running: bool, active_port: Option<u16>) -> (r:
    Result<String, String>)
    ensures
        result_view(r) == start_request_check(url@, port, running, active_port),
{
    let trimmed = validate_subscription_url(url)?;
    if port < 1024 {
        return Err(owned("端口必须在 1024-65535 之间"));
    }
    if running {
        let shown = match active_port {
            Some(p) => p,
            None => port,
        };
        return Err(port_message_for("服务已在运行 (port ", shown, ")"));
    }
    Ok(trimmed)
}

/// The report of a service that listens on `port` after `requested` was asked for.
pub fn start_service_result(port: u16, requested: u16, port_changed: bool, port_reclaimed: bool) -> (r:
    StartServiceResult)
    ensures
        r.base_url@ == local_base_url(port),
        r.port == port,
        r.requested_port == requested,
        r.port_changed == port_changed,
        r.port_reclaimed == port_reclaimed,
{
    StartServiceResult {
        base_url: local_base_url_for(port),
        port,
        requested_port: requested,
        port_changed,
        port_reclaimed,
    }
}

/// The port to send a refresh to: the service must report "running" with a port.
pub fn refresh_target(status: &ServiceStatus) -> (r: Result<u16, String>)
    ensures
        match r {
            Ok(p) => status.status@ == "running"@ && status.port == Some(p),
            Err(e) => e@ == "服务未运行"@ && (status.status@ != "running"@ || status.port is None),
        },
{
    let running = chars_of("running");
    let current = chars_of(status.status.as_str());
    if !chars_eq(&current, &running) {
        return Err(owned("服务未运行"));
    }
    match status.port {
        Some(p) => Ok(p),
        None => Err(owned("服务未运行")),
    }
}

} // verus!
