//! The raw TCP payload captured in the kernel, and the HTTP request line
//! and `Host` header read out of it in user space.

use vstd::prelude::*;
use crate::text::{before_first, split_text, lemma_split_on_len};

verus! {

/// How many payload bytes the kernel copies per event.
pub const MAX_PAYLOAD: usize = 128;

/// Raw TCP payload event - kernel captures, userspace parses HTTP
#[derive(Clone, Copy, Debug)]
pub struct TcpPayloadEvent {
    pub timestamp_ns: u64,
    pub src_ip: u32,
    pub dst_ip: u32,
    pub src_port: u16,
    pub dst_port: u16,
    pub payload_len: u16,
    pub _padding: u16,
    pub payload: [u8; 128],
}

impl Default for TcpPayloadEvent {
    fn default() -> (r: Self)
        ensures
            r.timestamp_ns == 0,
            r.src_ip == 0,
            r.dst_ip == 0,
            r.src_port == 0,
            r.dst_port == 0,
            r.payload_len == 0,
            r._padding == 0,
            forall|i: int| 0 <= i < 128 ==> r.payload@[i] == 0u8,
    {
        TcpPayloadEvent {
            timestamp_ns: 0,
            src_ip: 0,
            dst_ip: 0,
            src_port: 0,
            dst_port: 0,
            payload_len: 0,
            _padding: 0,
            payload: [0u8; 128],
        }
    }
}

/// What UTF-8 decoding makes of a byte string, `None` where it is not
/// valid UTF-8.
pub uninterp spec fn utf8_decode(bytes: Seq<u8>) -> Option<Seq<char>>;

/// What lossy UTF-8 decoding makes of a byte string.
pub uninterp spec fn utf8_lossy(bytes: Seq<u8>) -> Seq<char>;

/// Every byte is ASCII.
pub open spec fn all_ascii(bytes: Seq<u8>) -> bool {
    forall|i: int| 0 <= i < bytes.len() ==> #[trigger] bytes[i] < 128
}

/// The characters that ASCII bytes encode.
pub open spec fn ascii_chars(bytes: Seq<u8>) -> Seq<char> {
    bytes.map_values(|b: u8| b as char)
}

/// Decodes UTF-8 through `core::str::from_utf8`. The contract names the
/// result and states only that ASCII text decodes to its own characters.
#[verifier::external_body]
fn decode_utf8(bytes: &[u8]) -> (r: Option<String>)
    ensures
        match r {
            Some(s) => utf8_decode(bytes@) == Some(s@),
            None => utf8_decode(bytes@) is None,
        },
        all_ascii(bytes@) ==> r is Some && r->0@ == ascii_chars(bytes@),
{
    match core::str::from_utf8(bytes) {
        Ok(s) => Some(s.to_string()),
        Err(_) => None,
    }
}

/// Decodes UTF-8 through `String::from_utf8_lossy`. The contract names the
/// result and states only that ASCII text decodes to its own characters.
#[verifier::external_body]
fn decode_utf8_lossy(bytes: &[u8]) -> (r: String)
    ensures
        r@ == utf8_lossy(bytes@),
        all_ascii(bytes@) ==> r@ == ascii_chars(bytes@),
{
    String::from_utf8_lossy(bytes).into_owned()
}

/// The first position below `n` at which `p` holds, if any.
#[verifier::opaque]
pub open spec fn least(n: int, p: spec_fn(int) -> bool) -> Option<int> {
    if exists|i: int| 0 <= i < n && #[trigger] p(i) {
        Some(choose|i: int| 0 <= i < n && #[trigger] p(i) && forall|j: int| 0 <= j < i ==> !#[trigger] p(j))
    } else {
        None
    }
}

proof fn lemma_least_is(n: int, p: spec_fn(int) -> bool, i: int)
    requires
        0 <= i < n,
        p(i),
        forall|j: int| 0 <= j < i ==> !#[trigger] p(j),
    ensures
        least(n, p) == Some(i),
{
    reveal(least);
    assert(exists|k: int| 0 <= k < n && #[trigger] p(k));
    let c = choose|k: int| 0 <= k < n && #[trigger] p(k) && forall|j: int| 0 <= j < k ==> !#[trigger] p(j);
    assert(0 <= c < n && p(c) && forall|j: int| 0 <= j < c ==> !#[trigger] p(j));
    if c < i {
        assert(!p(c));
    } else if c > i {
        assert(!p(i));
    }
}

proof fn lemma_least_none(n: int, p: spec_fn(int) -> bool)
    requires
        forall|j: int| 0 <= j < n ==> !#[trigger] p(j),
    ensures
        least(n, p) is None,
{
    reveal(least);
}

/// Positions of a space byte.
pub open spec fn space_at(b: Seq<u8>) -> spec_fn(int) -> bool {
    |i: int| b[i] == 32u8
}

/// Positions of a byte other than a space or a tab.
pub open spec fn text_at(b: Seq<u8>) -> spec_fn(int) -> bool {
    |i: int| b[i] != 32u8 && b[i] != 9u8
}

/// Positions of a line end (`\r` or `\n`).
pub open spec fn line_end_at(b: Seq<u8>) -> spec_fn(int) -> bool {
    |i: int| b[i] == 13u8 || b[i] == 10u8
}

/// Positions of a `\n` character.
pub open spec fn newline_at(s: Seq<char>) -> spec_fn(int) -> bool {
    |i: int| s[i] == '\n'
}

/// A byte in ASCII lower case.
pub open spec fn ascii_lower(b: u8) -> u8 {
    if 65 <= b <= 90 {
        (b + 32) as u8
    } else {
        b
    }
}

/// The bytes of `Host:` in lower case.
pub open spec fn host_tag() -> Seq<u8> {
    seq![104u8, 111u8, 115u8, 116u8, 58u8]
}

/// Positions where `Host:` begins, in any ASCII case.
pub open spec fn host_tag_at(b: Seq<u8>) -> spec_fn(int) -> bool {
    |i: int| forall|k: int| 0 <= k < 5 ==> ascii_lower(#[trigger] b[i + k]) == host_tag()[k]
}

/// The bytes the kernel captured: the first `payload_len` bytes, at most all.
pub open spec fn captured(e: TcpPayloadEvent) -> Seq<u8> {
    e.payload@.take(if e.payload_len < 128 {
        e.payload_len as int
    } else {
        128
    })
}

/// The request method: the bytes before the first space, if they are UTF-8.
pub open spec fn method_of(b: Seq<u8>) -> Option<Seq<char>> {
    match least(b.len() as int, space_at(b)) {
        None => None,
        Some(sp) => utf8_decode(b.take(sp)),
    }
}

/// The request path: the bytes between the first space and the next space
/// (or the end), if they are UTF-8.
pub open spec fn path_of(b: Seq<u8>) -> Option<Seq<char>> {
    match least(b.len() as int, space_at(b)) {
        None => None,
        Some(sp) => {
            let rest = b.skip(sp + 1);
            let end = match least(rest.len() as int, space_at(rest)) {
                Some(e) => e,
                None => rest.len() as int,
            };
            utf8_decode(rest.take(end))
        },
    }
}

/// The `Host` header value: after the first `Host:` (any case), past spaces
/// and tabs, up to the line end, if UTF-8, without a `:port` suffix. `None`
/// when there is no such header or nothing follows it.
pub open spec fn host_of(b: Seq<u8>) -> Option<Seq<char>> {
    match least(b.len() - 4, host_tag_at(b)) {
        None => None,
        Some(hp) => {
            let after = b.skip(hp + 5);
            match least(after.len() as int, text_at(after)) {
                None => None,
                Some(start) => {
                    let value = after.skip(start);
                    let end = match least(value.len() as int, line_end_at(value)) {
                        Some(e) => e,
                        None => value.len() as int,
                    };
                    match utf8_decode(value.take(end)) {
                        None => None,
                        Some(h) => Some(before_first(h, ':')),
                    }
                },
            }
        },
    }
}

/// What `method_of` reads from ASCII bytes: the characters before the
/// first space.
pub open spec fn method_ascii(b: Seq<u8>) -> Option<Seq<char>> {
    match least(b.len() as int, space_at(b)) {
        None => None,
        Some(sp) => Some(ascii_chars(b.take(sp))),
    }
}

/// What `path_of` reads from ASCII bytes: the characters between the first
/// space and the next space (or the end).
pub open spec fn path_ascii(b: Seq<u8>) -> Option<Seq<char>> {
    match least(b.len() as int, space_at(b)) {
        None => None,
        Some(sp) => {
            let rest = b.skip(sp + 1);
            let end = match least(rest.len() as int, space_at(rest)) {
                Some(e) => e,
                None => rest.len() as int,
            };
            Some(ascii_chars(rest.take(end)))
        },
    }
}

/// What `host_of` reads from ASCII bytes: the `Host` header value up to the
/// line end, without a `:port` suffix.
pub open spec fn host_ascii(b: Seq<u8>) -> Option<Seq<char>> {
    match least(b.len() - 4, host_tag_at(b)) {
        None => None,
        Some(hp) => {
            let after = b.skip(hp + 5);
            match least(after.len() as int, text_at(after)) {
                None => None,
                Some(start) => {
                    let value = after.skip(start);
                    let end = match least(value.len() as int, line_end_at(value)) {
                        Some(e) => e,
                        None => value.len() as int,
                    };
                    Some(before_first(ascii_chars(value.take(end)), ':'))
                },
            }
        },
    }
}

proof fn lemma_ascii_part(s: Seq<u8>, from: int, to: int)
    requires
        all_ascii(s),
        0 <= from <= to <= s.len(),
    ensures
        all_ascii(s.subrange(from, to)),
{
    assert forall|i: int| 0 <= i < to - from implies #[trigger] s.subrange(from, to)[i] < 128 by {
        assert(s.subrange(from, to)[i] == s[from + i]);
    }
}

/// The method is exactly what lies before the first space: for a first
/// space at `s`, the method is the decoding of bytes `0 .. s`, and on ASCII
/// bytes it has `s` characters, each the character of the byte at its
/// place. With no space there is no method.
pub proof fn lemma_method_before_space(b: Seq<u8>, s: int)
    requires
        0 <= s <= b.len(),
        s == b.len() || b[s] == 32u8,
        forall|j: int| 0 <= j < s ==> b[j] != 32u8,
    ensures
        s == b.len() ==> method_of(b) is None && method_ascii(b) is None,
        s < b.len() ==> method_of(b) == utf8_decode(b.subrange(0, s)),
        s < b.len() && all_ascii(b) ==> method_ascii(b) is Some && method_ascii(b)->0.len() == s
            && forall|k: int| 0 <= k < s ==> #[trigger] method_ascii(b)->0[k] == b[k] as char,
{
    assert forall|j: int| 0 <= j < s implies !#[trigger] space_at(b)(j) by {}
    if s == b.len() {
        lemma_least_none(b.len() as int, space_at(b));
    } else {
        lemma_least_is(b.len() as int, space_at(b), s);
        assert(b.take(s) =~= b.subrange(0, s));
    }
}

/// The path is exactly what lies between the first space and the next
/// space (or the end of the captured bytes): for a first space at `s` and
/// the next space at `e`, the path is the decoding of bytes `s + 1 .. e`,
/// and on ASCII bytes it has `e - s - 1` characters, each the character of
/// the byte at its place, so no character of the request target is lost.
pub proof fn lemma_path_between_spaces(b: Seq<u8>, s: int, e: int)
    requires
        0 <= s < e <= b.len(),
        b[s] == 32u8,
        forall|j: int| 0 <= j < s ==> b[j] != 32u8,
        forall|j: int| s < j < e ==> b[j] != 32u8,
        e == b.len() || b[e] == 32u8,
    ensures
        path_of(b) == utf8_decode(b.subrange(s + 1, e)),
        all_ascii(b) ==> path_ascii(b) is Some && path_ascii(b)->0.len() == e - s - 1 && forall|k: int|
            0 <= k < e - s - 1 ==> #[trigger] path_ascii(b)->0[k] == b[s + 1 + k] as char,
{
    assert forall|j: int| 0 <= j < s implies !#[trigger] space_at(b)(j) by {}
    lemma_least_is(b.len() as int, space_at(b), s);
    let rest = b.skip(s + 1);
    if e < b.len() {
        assert forall|j: int| 0 <= j < e - s - 1 implies !#[trigger] space_at(rest)(j) by {
            assert(rest[j] == b[s + 1 + j]);
        }
        assert(rest[e - s - 1] == b[e]);
        lemma_least_is(rest.len() as int, space_at(rest), e - s - 1);
    } else {
        assert forall|j: int| 0 <= j < rest.len() implies !#[trigger] space_at(rest)(j) by {
            assert(rest[j] == b[s + 1 + j]);
        }
        lemma_least_none(rest.len() as int, space_at(rest));
    }
    assert(rest.take(e - s - 1) =~= b.subrange(s + 1, e));
}

/// The first line of a text, as `str::lines` yields it: up to the first
/// `\n`, without a `\r` just before it; empty text has no line.
pub open spec fn first_line(s: Seq<char>) -> Seq<char> {
    match least(s.len() as int, newline_at(s)) {
        None => s,
        Some(n) => if n > 0 && s[n - 1] == '\r' {
            s.take(n - 1)
        } else {
            s.take(n)
        },
    }
}

/// The character view of an optional string.
pub open spec fn opt_view(o: Option<String>) -> Option<Seq<char>> {
    match o {
        Some(s) => Some(s@),
        None => None,
    }
}

/// The first position at or after `from` holding a space, or `v.len()`.
fn scan_space(v: &[u8], from: usize) -> (r: usize)
    requires
        from <= v@.len(),
    ensures
        from <= r <= v@.len(),
        r < v@.len() ==> v@[r as int] == 32u8,
        forall|j: int| from <= j < r ==> v@[j] != 32u8,
{
    let mut i = from;
    while i < v.len()
        invariant
            from <= i <= v@.len(),
            forall|j: int| from <= j < i ==> v@[j] != 32u8,
        decreases v@.len() - i,
    {
        if v[i] == 32u8 {
            return i;
        }
        i = i + 1;
    }
    i
}

/// The first position where `Host:` begins in any ASCII case, or a
/// position past the last place it could begin.
fn find_host_tag(b: &[u8]) -> (r: usize)
    requires
        b@.len() <= 128,
    ensures
        r <= b@.len(),
        r + 5 <= b@.len() ==> host_tag_at(b@)(r as int),
        forall|j: int| 0 <= j < r && j < b@.len() - 4 ==> !#[trigger] host_tag_at(b@)(j),
        r + 5 > b@.len() ==> r >= b@.len() - 4,
{
    let ghost s = b@;
    let mut hp: usize = 0;
    while hp + 5 <= b.len()
        invariant
            b@ == s,
            s.len() <= 128,
            hp <= s.len(),
            forall|j: int| 0 <= j < hp ==> !#[trigger] host_tag_at(s)(j),
        decreases s.len() - hp,
    {
        let c0 = b[hp] == 72u8 || b[hp] == 104u8;
        let c1 = b[hp + 1] == 79u8 || b[hp + 1] == 111u8;
        let c2 = b[hp + 2] == 83u8 || b[hp + 2] == 115u8;
        let c3 = b[hp + 3] == 84u8 || b[hp + 3] == 116u8;
        let c4 = b[hp + 4] == 58u8;
        proof {
            assert(c0 <==> ascii_lower(s[hp + 0]) == host_tag()[0]);
            assert(c1 <==> ascii_lower(s[hp + 1]) == host_tag()[1]);
            assert(c2 <==> ascii_lower(s[hp + 2]) == host_tag()[2]);
            assert(c3 <==> ascii_lower(s[hp + 3]) == host_tag()[3]);
            assert(c4 <==> ascii_lower(s[hp + 4]) == host_tag()[4]);
        }
        if c0 && c1 && c2 && c3 && c4 {
            proof {
                assert forall|k: int| 0 <= k < 5 implies ascii_lower(#[trigger] s[hp + k])
                    == host_tag()[k] by {
                    if k == 0 {
                        assert(s[hp + k] == s[hp + 0]);
                    }
                }
            }
            return hp;
        }
        hp = hp + 1;
    }
    hp
}

impl TcpPayloadEvent {
    /// The captured bytes.
    pub fn payload_bytes(&self) -> (r: Vec<u8>)
        ensures
            r@ == captured(*self),
    {
        let len: usize = if (self.payload_len as usize) < MAX_PAYLOAD {
            self.payload_len as usize
        } else {
            MAX_PAYLOAD
        };
        let mut v: Vec<u8> = Vec::new();
        let mut i: usize = 0;
        while i < len
            invariant
                len <= 128,
                len == (if self.payload_len < 128 {
                    self.payload_len as int
                } else {
                    128
                }),
                i <= len,
                v@ == self.payload@.take(i as int),
            decreases len - i,
        {
            v.push(self.payload[i]);
            assert(v@ =~= self.payload@.take(i as int + 1));
            i = i + 1;
        }
        v
    }

    /// The request method, read up to the first space.
    pub fn parse_method(&self) -> (r: Option<String>)
        ensures
            opt_view(r) == method_of(captured(*self)),
            all_ascii(captured(*self)) ==> opt_view(r) == method_ascii(captured(*self)),
    {
        let payload = self.payload_bytes();
        let b = payload.as_slice();
        let ghost s = b@;
        let sp = scan_space(b, 0);
        if sp == b.len() {
            proof {
                lemma_least_none(s.len() as int, space_at(s));
            }
            return None;
        }
        proof {
            lemma_least_is(s.len() as int, space_at(s), sp as int);
        }
        let head = &b[0..sp];
        assert(head@ =~= s.take(sp as int));
        proof {
            if all_ascii(s) {
                lemma_ascii_part(s, 0, sp as int);
                assert(s.subrange(0, sp as int) =~= head@);
            }
        }
        decode_utf8(head)
    }

    /// The request path, read between the first and second spaces.
    pub fn parse_path(&self) -> (r: Option<String>)
        ensures
            opt_view(r) == path_of(captured(*self)),
            all_ascii(captured(*self)) ==> opt_view(r) == path_ascii(captured(*self)),
    {
        let payload = self.payload_bytes();
        let b = payload.as_slice();
        let ghost s = b@;
        let first = scan_space(b, 0);
        if first == b.len() {
            proof {
                lemma_least_none(s.len() as int, space_at(s));
            }
            return None;
        }
        proof {
            lemma_least_is(s.len() as int, space_at(s), first as int);
        }
        let second = scan_space(b, first + 1);
        let ghost rest = s.skip(first + 1);
        proof {
            if second < b.len() {
                assert forall|j: int| 0 <= j < second - first - 1 implies !#[trigger] space_at(rest)(
                    j,
                ) by {
                    assert(rest[j] == s[j + first + 1]);
                }
                assert(rest[second - first - 1] == s[second as int]);
                lemma_least_is(rest.len() as int, space_at(rest), second - first - 1);
            } else {
                assert forall|j: int| 0 <= j < rest.len() implies !#[trigger] space_at(rest)(j) by {
                    assert(rest[j] == s[j + first + 1]);
                }
                lemma_least_none(rest.len() as int, space_at(rest));
            }
        }
        let part = &b[first + 1..second];
        assert(part@ =~= rest.take(second - first - 1));
        proof {
            if all_ascii(s) {
                lemma_ascii_part(s, first + 1, second as int);
                assert(s.subrange(first + 1, second as int) =~= part@);
            }
        }
        decode_utf8(part)
    }

    /// The `Host` header value without its port, if the header is present.
    pub fn parse_host(&self) -> (r: Option<String>)
        ensures
            opt_view(r) == host_of(captured(*self)),
            all_ascii(captured(*self)) ==> opt_view(r) == host_ascii(captured(*self)),
    {
        let payload = self.payload_bytes();
        let b = payload.as_slice();
        let ghost s = b@;
        assert(s.len() <= 128);
        // Find "Host:" in any ASCII case.
        let hp = find_host_tag(b);
        if hp + 5 > b.len() {
            proof {
                lemma_least_none(s.len() - 4, host_tag_at(s));
            }
            return None;
        }
        proof {
            lemma_least_is(s.len() - 4, host_tag_at(s), hp as int);
        }
        let ghost after = s.skip(hp + 5);
        // Skip spaces and tabs.
        let mut start: usize = hp + 5;
        while start < b.len() && (b[start] == 32u8 || b[start] == 9u8)
            invariant
                b@ == s,
                hp + 5 <= start <= s.len(),
                after == s.skip(hp + 5),
                forall|j: int| 0 <= j < start - hp - 5 ==> !#[trigger] text_at(after)(j),
            decreases b@.len() - start,
        {
            assert(after[start - hp - 5] == s[start as int]);
            start = start + 1;
        }
        if start == b.len() {
            proof {
                lemma_least_none(after.len() as int, text_at(after));
            }
            return None;
        }
        proof {
            assert(after[start - hp - 5] == s[start as int]);
            lemma_least_is(after.len() as int, text_at(after), start - hp - 5);
        }
        let ghost value = after.skip(start - hp - 5);
        assert(value =~= s.skip(start as int));
        // Find the end of the header line.
        let mut end: usize = start;
        while end < b.len() && b[end] != 13u8 && b[end] != 10u8
            invariant
                b@ == s,
                start <= end <= s.len(),
                value == s.skip(start as int),
                forall|j: int| 0 <= j < end - start ==> !#[trigger] line_end_at(value)(j),
            decreases b@.len() - end,
        {
            assert(value[end - start] == s[end as int]);
            end = end + 1;
        }
        proof {
            if end < b.len() {
                assert(value[end - start] == s[end as int]);
                lemma_least_is(value.len() as int, line_end_at(value), end - start);
            } else {
                lemma_least_none(value.len() as int, line_end_at(value));
            }
        }
        let raw = &b[start..end];
        assert(raw@ =~= value.take(end - start));
        proof {
            if all_ascii(s) {
                lemma_ascii_part(s, start as int, end as int);
                assert(s.subrange(start as int, end as int) =~= raw@);
            }
        }
        match decode_utf8(raw) {
            None => None,
            Some(text) => {
                let pieces = split_text(text.as_str(), ':');
                proof {
                    lemma_split_on_len(text@, ':');
                }
                assert(pieces@[0]@ == before_first(text@, ':'));
                Some(pieces[0].clone())
            },
        }
    }

    /// The first line of the captured bytes, decoded lossily.
    pub fn payload_str(&self) -> (r: String)
        ensures
            r@ == first_line(utf8_lossy(captured(*self))),
            all_ascii(captured(*self)) ==> r@ == first_line(ascii_chars(captured(*self))),
    {
        let payload = self.payload_bytes();
        let text = decode_utf8_lossy(payload.as_slice());
        let chars = crate::text::chars_of(text.as_str());
        let ghost t = text@;
        let mut n: usize = 0;
        while n < chars.len() && chars[n] != '\n'
            invariant
                chars@ == t,
                n <= chars.len(),
                forall|j: int| 0 <= j < n ==> !#[trigger] newline_at(t)(j),
            decreases chars.len() - n,
        {
            n = n + 1;
        }
        let mut keep = n;
        if n < chars.len() {
            proof {
                lemma_least_is(t.len() as int, newline_at(t), n as int);
            }
            if n > 0 && chars[n - 1] == '\r' {
                keep = n - 1;
            }
        } else {
            proof {
                lemma_least_none(t.len() as int, newline_at(t));
            }
        }
        let mut line = String::new();
        let mut i: usize = 0;
        while i < keep
            invariant
                chars@ == t,
                keep <= chars.len(),
                i <= keep,
                line@ == t.take(i as int),
            decreases keep - i,
        {
            crate::text::push_char(&mut line, chars[i]);
            assert(line@ =~= t.take(i as int + 1));
            i = i + 1;
        }
        assert(t.take(t.len() as int) =~= t);
        line
    }
}

} // verus!
