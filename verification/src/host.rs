//! Reading a service identity out of an HTTP `Host` header.

use vstd::prelude::*;
use crate::text::{
    before_first, contains_text, has_char, has_infix, lemma_split_on_len, split_on, split_text,
    views,
};
use crate::topology::unknown_namespace;

verus! {

/// Whether `c` is an ASCII decimal digit.
pub open spec fn is_digit(c: char) -> bool {
    '0' <= c && c <= '9'
}

/// The decimal value of a string of digits.
pub open spec fn decimal(s: Seq<char>) -> int
    decreases s.len(),
{
    if s.len() == 0 {
        0
    } else {
        decimal(s.drop_last()) * 10 + (s.last() as int - '0' as int)
    }
}

/// One to three decimal digits, without a leading zero, at most 255.
pub open spec fn is_octet(s: Seq<char>) -> bool {
    &&& 1 <= s.len() <= 3
    &&& forall|i: int| 0 <= i < s.len() ==> is_digit(#[trigger] s[i])
    &&& (s.len() == 1 || s[0] != '0')
    &&& decimal(s) <= 255
}

/// Dotted-decimal IPv4 notation, as `std::net::Ipv4Addr` parses it: four
/// octets separated by dots.
pub open spec fn is_ipv4(s: Seq<char>) -> bool {
    let p = split_on(s, '.');
    p.len() == 4 && forall|i: int| 0 <= i < 4 ==> is_octet(#[trigger] p[i])
}

/// The namespace under which an external host is recorded.
pub open spec fn external_namespace() -> Seq<char> {
    seq!['e', 'x', 't', 'e', 'r', 'n', 'a', 'l']
}

/// The marker of a Kubernetes-internal DNS name.
pub open spec fn svc_marker() -> Seq<char> {
    seq!['.', 's', 'v', 'c']
}

/// What `parse_k8s_host` returns: the host without its port is read as an
/// IP (kept, namespace "unknown"), a single label (kept, "unknown"), a name
/// containing ".svc" (its first two labels), or an external host (kept,
/// "external").
pub open spec fn k8s_host(host: Seq<char>) -> (Seq<char>, Seq<char>) {
    let h = before_first(host, ':');
    if is_ipv4(h) {
        (h, unknown_namespace())
    } else if !h.contains('.') {
        (h, unknown_namespace())
    } else if has_infix(h, svc_marker()) {
        (split_on(h, '.')[0], split_on(h, '.')[1])
    } else {
        (h, external_namespace())
    }
}

proof fn lemma_decimal_step(s: Seq<char>, k: int)
    requires
        0 <= k < s.len(),
    ensures
        decimal(s.take(k + 1)) == decimal(s.take(k)) * 10 + (s[k] as int - '0' as int),
{
    assert(s.take(k + 1).drop_last() =~= s.take(k));
}

/// Whether `s` is one IPv4 octet.
fn octet_ok(s: &str) -> (r: bool)
    ensures
        r == is_octet(s@),
{
    let v = crate::text::chars_of(s);
    if v.len() < 1 || v.len() > 3 {
        return false;
    }
    if v.len() > 1 && v[0] == '0' {
        return false;
    }
    let mut value: u32 = 0;
    let mut k: usize = 0;
    while k < v.len()
        invariant
            v@ == s@,
            1 <= v.len() <= 3,
            k <= v.len(),
            forall|i: int| 0 <= i < k ==> is_digit(#[trigger] s@[i]),
            value == decimal(s@.take(k as int)),
            value < 1000,
        decreases v.len() - k,
    {
        let c = v[k];
        if c < '0' || c > '9' {
            return false;
        }
        proof {
            lemma_decimal_step(s@, k as int);
            assert(decimal(s@.take(k as int)) < 100) by {
                if k >= 1 {
                    lemma_decimal_bound(s@.take(k as int));
                }
            }
        }
        value = value * 10 + (c as u32 - '0' as u32);
        k = k + 1;
    }
    assert(s@.take(v.len() as int) =~= s@);
    value <= 255
}

/// A string of at most `n` digits has value below `10^n` (for n ≤ 2).
proof fn lemma_decimal_bound(s: Seq<char>)
    requires
        s.len() <= 2,
        forall|i: int| 0 <= i < s.len() ==> is_digit(#[trigger] s[i]),
    ensures
        0 <= decimal(s) < 100,
        s.len() <= 1 ==> decimal(s) < 10,
    decreases s.len(),
{
    if s.len() > 0 {
        let t = s.drop_last();
        assert(forall|i: int| 0 <= i < t.len() ==> t[i] == s[i]);
        lemma_decimal_bound(t);
        assert(is_digit(s[s.len() - 1]));
    }
}

/// Whether `s` is a dotted-decimal IPv4 address.
pub fn ipv4_text(s: &str) -> (r: bool)
    ensures
        r == is_ipv4(s@),
{
    let parts = split_text(s, '.');
    if parts.len() != 4 {
        return false;
    }
    let mut i: usize = 0;
    while i < 4
        invariant
            parts.len() == 4,
            views(parts@) == split_on(s@, '.'),
            i <= 4,
            forall|j: int| 0 <= j < i ==> is_octet(#[trigger] split_on(s@, '.')[j]),
        decreases 4 - i,
    {
        assert(parts@[i as int]@ == split_on(s@, '.')[i as int]);
        if !octet_ok(parts[i].as_str()) {
            return false;
        }
        i = i + 1;
    }
    true
}

/// Parses a Kubernetes host header into (application_name, namespace).
///
/// Only trusts names that contain ".svc" as K8s internal — that substring is
/// present in every cross-namespace K8s DNS name and absent in public domains.
/// Single-label names (no dots) are also unambiguous K8s service names.
/// Everything else (e.g. "httpbin.org", "api.github.com") is treated as an
/// external host: returned as-is under the "external" namespace so it still
/// appears in the topology but doesn't pollute real namespace data.
pub fn parse_k8s_host(host: &str) -> (r: (String, String))
    ensures
        (r.0@, r.1@) == k8s_host(host@),
{
    let pieces = split_text(host, ':');
    proof {
        lemma_split_on_len(host@, ':');
    }
    assert(pieces@[0]@ == before_first(host@, ':'));
    let h = pieces[0].as_str();
    let unknown = "unknown";
    let external = "external";
    let marker = ".svc";
    proof {
        reveal_strlit("unknown");
        reveal_strlit("external");
        reveal_strlit(".svc");
        assert(unknown@ =~= unknown_namespace());
        assert(external@ =~= external_namespace());
        assert(marker@ =~= svc_marker());
    }
    if ipv4_text(h) {
        return (h.to_string(), unknown.to_string());
    }
    if !has_char(h, '.') {
        return (h.to_string(), unknown.to_string());
    }
    if contains_text(h, marker) {
        let labels = split_text(h, '.');
        proof {
            lemma_split_on_len(h@, '.');
        }
        assert(labels@[0]@ == split_on(h@, '.')[0]);
        assert(labels@[1]@ == split_on(h@, '.')[1]);
        return (labels[0].clone(), labels[1].clone());
    }
    (h.to_string(), external.to_string())
}

} // verus!
