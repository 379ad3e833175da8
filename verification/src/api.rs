//! Request-level rules of the HTTP API: bearer credentials, WebSocket
//! origins, hexadecimal bodies, event query parameters and write bodies.
//!
//! Headers arrive as text extracted by the host program's HTTP stack.

use vstd::prelude::*;
use vstd::utf8::encode_utf8;

use crate::broker::ControlCommand;
use crate::ledger::EventQuery;
use crate::netaddr::{ip_addr, ip_is_loopback, ip_loopback, parse_ip_addr, IpValue};
use crate::schema::{EventFilter, EventType};
use crate::text::{
    any_control, any_space, ascii_lower_seq, bytes_to_vec, chars_eq, chars_of, concat_strs,
    has_char, has_control, has_space, is_space_char, lower_ascii_all, owned, push_char,
    string_from_chars, trim_chars, trim_seq, utf8_len, utf8_len_exceeds, char_from_ascii,
};

verus! {

/// Whether two credentials are byte-for-byte equal. The comparison reads
/// every byte of the longer one whatever the contents, so its time does not
/// depend on where they differ.
pub fn secure_eq(candidate: &str, expected: &str) -> (r: bool)
    ensures
        r == (encode_utf8(candidate@) == encode_utf8(expected@)),
{
    let a = candidate.as_bytes();
    let b = expected.as_bytes();
    let mut difference: usize = a.len() ^ b.len();
    let length: usize = if a.len() > b.len() {
        a.len()
    } else {
        b.len()
    };
    proof {
        let (x, y) = (a.len(), b.len());
        assert((x ^ y == 0) == (x == y)) by (bit_vector);
    }
    let mut index: usize = 0;
    while index < length
        invariant
            index <= length,
            length == if a@.len() > b@.len() { a@.len() } else { b@.len() },
            a@.len() <= usize::MAX,
            b@.len() <= usize::MAX,
            (difference == 0) == (a@.len() == b@.len() && forall|j: int| 0 <= j < index ==> #[trigger] a@[j] == b@[j]),
        decreases length - index,
    {
        let x: u8 = if index < a.len() {
            a[index]
        } else {
            0
        };
        let y: u8 = if index < b.len() {
            b[index]
        } else {
            0
        };
        let z = (x ^ y) as usize;
        let old_difference = difference;
        difference = difference | z;
        proof {
            assert((x ^ y == 0) == (x == y)) by (bit_vector);
            assert(((x ^ y) as usize == 0) == (x ^ y == 0)) by (bit_vector);
            assert((old_difference | z == 0) == (old_difference == 0 && z == 0)) by (bit_vector);
            if old_difference == 0 && a@.len() == b@.len() {
                assert(index < a@.len());
                assert(x == a@[index as int] && y == b@[index as int]);
            }
            assert forall|j: int| 0 <= j < index + 1 && (difference == 0) implies #[trigger] a@[j] == b@[j] by {}
        }
        index = index + 1;
    }
    proof {
        if difference == 0 {
            assert(a@ =~= b@);
        }
    }
    difference == 0
}

/// The first index of `c` in `s`.
pub open spec fn first_index(s: Seq<char>, c: char) -> Option<int> {
    if has_char(s, c) {
        Some(choose|i: int| 0 <= i < s.len() && s[i] == c && forall|k: int| 0 <= k < i ==> s[k] != c)
    } else {
        None
    }
}

fn find_char(s: &[char], c: char) -> (r: Option<usize>)
    ensures
        match r {
            Some(i) => i < s@.len() && s@[i as int] == c && forall|k: int| 0 <= k < i ==> s@[k] != c,
            None => !has_char(s@, c),
        },
{
    let mut i: usize = 0;
    while i < s.len()
        invariant
            i <= s@.len(),
            forall|k: int| 0 <= k < i ==> s@[k] != c,
        decreases s@.len() - i,
    {
        if s[i] == c {
            return Some(i);
        }
        i = i + 1;
    }
    None
}

fn sub_chars(s: &[char], from: usize, to: usize) -> (r: Vec<char>)
    requires
        from <= to <= s@.len(),
    ensures
        r@ == s@.subrange(from as int, to as int),
{
    let mut out: Vec<char> = Vec::new();
    let mut i: usize = from;
    while i < to
        invariant
            from <= i <= to,
            to <= s@.len(),
            out@ == s@.subrange(from as int, i as int),
        decreases to - i,
    {
        out.push(s[i]);
        i = i + 1;
    }
    out
}

fn is_word_ci(s: &[char], word: &str) -> (r: bool)
    ensures
        r == (ascii_lower_seq(s@) == word@),
{
    let lowered = lower_ascii_all(s);
    let w = chars_of(word);
    chars_eq(lowered.as_slice(), w.as_slice())
}

/// The token of an `Authorization: Bearer <token>` header: the scheme is
/// `bearer` in any ASCII case, separated by the first space, and the token
/// is non-empty without whitespace.
pub open spec fn bearer_of(v: Seq<char>) -> Option<Seq<char>> {
    match first_index(v, ' ') {
        None => None,
        Some(i) => {
            let scheme = v.subrange(0, i);
            let token = v.subrange(i + 1, v.len() as int);
            if ascii_lower_seq(scheme) == "bearer"@ && token.len() > 0 && !has_space(token) {
                Some(token)
            } else {
                None
            }
        },
    }
}

/// An `Authorization` header `<scheme> <token>` (scheme without spaces)
/// yields the token exactly when the scheme is `bearer` in any ASCII case
/// and the token is non-empty with no whitespace; the token comes back
/// unchanged.
pub proof fn law_bearer_headers(scheme: Seq<char>, token: Seq<char>)
    requires
        !has_char(scheme, ' '),
    ensures
        bearer_of(scheme + " "@ + token) == if ascii_lower_seq(scheme) == "bearer"@ && token.len() > 0 && !has_space(
            token,
        ) {
            Some(token)
        } else {
            None::<Seq<char>>
        },
{
    reveal_strlit(" ");
    let v = scheme + " "@ + token;
    let n = scheme.len() as int;
    assert(v[n] == ' ');
    assert(has_char(v, ' '));
    let i = choose|i: int| 0 <= i < v.len() && v[i] == ' ' && forall|k: int| 0 <= k < i ==> v[k] != ' ';
    assert(i == n) by {
        if i < n {
            assert(v[i] == scheme[i]);
        }
        if i > n {
            assert(v[n] != ' ');
        }
    }
    assert(v.subrange(0, n) =~= scheme);
    assert(v.subrange(n + 1, v.len() as int) =~= token);
}

/// The bearer token of an `Authorization` header value.
pub fn authorization_bearer(value: Option<&str>) -> (r: Option<String>)
    ensures
        match value {
            None => r is None,
            Some(v) => match bearer_of(v@) {
                Some(t) => r matches Some(s) && s@ == t,
                None => r is None,
            },
        },
{
    let v = match value {
        None => {
            return None;
        },
        Some(v) => chars_of(v),
    };
    let n = v.len();
    let i = match find_char(v.as_slice(), ' ') {
        None => {
            return None;
        },
        Some(i) => i,
    };
    proof {
        let j = first_index(v@, ' ').unwrap();
        assert(j == i as int) by {
            if j < i {
                assert(v@[j] != ' ');
            } else if j > i {
                assert(v@[i as int] != ' ');
            }
        }
    }
    let scheme = sub_chars(v.as_slice(), 0, i);
    let token = sub_chars(v.as_slice(), i + 1, n);
    if !is_word_ci(scheme.as_slice(), "bearer") || token.len() == 0 || any_space(token.as_slice()) {
        return None;
    }
    Some(string_from_chars(token.as_slice()))
}

/// `s` cut at every `c`: one more piece than there are separators.
pub open spec fn split_on(s: Seq<char>, c: char) -> Seq<Seq<char>>
    decreases s.len(),
{
    if s.len() == 0 {
        seq![Seq::empty()]
    } else {
        let p = split_on(s.drop_last(), c);
        if s.last() == c {
            p.push(Seq::empty())
        } else {
            p.update(p.len() - 1, p.last().push(s.last()))
        }
    }
}

proof fn lemma_split_nonempty(s: Seq<char>, c: char)
    ensures
        split_on(s, c).len() >= 1,
    decreases s.len(),
{
    if s.len() > 0 {
        lemma_split_nonempty(s.drop_last(), c);
    }
}

fn split_chars(s: &[char], c: char) -> (parts: Vec<Vec<char>>)
    ensures
        parts@.len() == split_on(s@, c).len(),
        forall|i: int| 0 <= i < parts@.len() ==> #[trigger] parts@[i]@ == split_on(s@, c)[i],
{
    let mut parts: Vec<Vec<char>> = Vec::new();
    let mut current: Vec<char> = Vec::new();
    let mut i: usize = 0;
    proof {
        assert(s@.subrange(0, 0) =~= Seq::<char>::empty());
    }
    while i < s.len()
        invariant
            i <= s@.len(),
            parts@.len() + 1 == split_on(s@.subrange(0, i as int), c).len(),
            forall|k: int| 0 <= k < parts@.len() ==> #[trigger] parts@[k]@ == split_on(s@.subrange(0, i as int), c)[k],
            current@ == split_on(s@.subrange(0, i as int), c).last(),
        decreases s@.len() - i,
    {
        let ghost prev = s@.subrange(0, i as int);
        proof {
            assert(s@.subrange(0, i + 1).drop_last() =~= prev);
            lemma_split_nonempty(prev, c);
        }
        if s[i] == c {
            let mut done: Vec<char> = Vec::new();
            std::mem::swap(&mut done, &mut current);
            parts.push(done);
        } else {
            current.push(s[i]);
        }
        i = i + 1;
    }
    proof {
        assert(s@.subrange(0, i as int) =~= s@);
        lemma_split_nonempty(s@, c);
    }
    parts.push(current);
    parts
}

/// The token a browser offers as the WebSocket protocol pair `bearer, <token>`:
/// the protocol after the first `bearer` (any ASCII case), trimmed, if it is
/// non-empty and holds no whitespace.
pub open spec fn protocol_bearer_of(v: Seq<char>) -> Option<Seq<char>> {
    let parts = split_on(v, ',');
    if exists|k: int| 0 <= k < parts.len() && #[trigger] ascii_lower_seq(trim_seq(parts[k])) == "bearer"@ {
        protocol_after(parts, first_bearer(parts))
    } else {
        None
    }
}

/// The protocol after position `k`, trimmed, if it is a usable token.
pub open spec fn protocol_after(parts: Seq<Seq<char>>, k: int) -> Option<Seq<char>> {
    if k + 1 < parts.len() && trim_seq(parts[k + 1]).len() > 0 && !has_space(trim_seq(parts[k + 1])) {
        Some(trim_seq(parts[k + 1]))
    } else {
        None
    }
}

fn token_after(parts: &Vec<Vec<char>>, k: usize) -> (r: Option<String>)
    ensures
        match protocol_after(parts@.map_values(|p: Vec<char>| p@), k as int) {
            Some(t) => r matches Some(s) && s@ == t,
            None => r is None,
        },
{
    let ghost ps = parts@.map_values(|p: Vec<char>| p@);
    if k >= parts.len() || k + 1 >= parts.len() {
        return None;
    }
    let token = trim_chars(parts[k + 1].as_slice());
    assert(token@ == trim_seq(ps[k + 1]));
    if token.len() > 0 && !any_space(token.as_slice()) {
        return Some(string_from_chars(token.as_slice()));
    }
    None
}

/// The bearer credential of a request: the `Authorization` header's, else
/// the one offered as a `Sec-WebSocket-Protocol` pair.
pub fn request_bearer(authorization: Option<&str>, protocols: Option<&str>) -> (r: Option<String>)
    ensures
        ({
            let from_header = match authorization {
                None => None,
                Some(v) => bearer_of(v@),
            };
            let from_protocols = match protocols {
                None => None,
                Some(v) => protocol_bearer_of(v@),
            };
            match from_header {
                Some(t) => r matches Some(s) && s@ == t,
                None => match from_protocols {
                    Some(t) => r matches Some(s) && s@ == t,
                    None => r is None,
                },
            }
        }),
{
    match authorization_bearer(authorization) {
        Some(t) => Some(t),
        None => websocket_protocol_bearer(protocols),
    }
}

/// The position of the first `bearer` protocol.
pub open spec fn first_bearer(parts: Seq<Seq<char>>) -> int {
    choose|k: int| 0 <= k < parts.len() && ascii_lower_seq(trim_seq(parts[k])) == "bearer"@
        && forall|j: int| 0 <= j < k ==> ascii_lower_seq(trim_seq(#[trigger] parts[j])) != "bearer"@
}

/// The bearer token of a `Sec-WebSocket-Protocol` header value.
#[verifier::rlimit(60)]
pub fn websocket_protocol_bearer(value: Option<&str>) -> (r: Option<String>)
    ensures
        match value {
            None => r is None,
            Some(v) => match protocol_bearer_of(v@) {
                Some(t) => r matches Some(s) && s@ == t,
                None => r is None,
            },
        },
{
    let text = match value {
        None => {
            return None;
        },
        Some(t) => t,
    };
    let v = chars_of(text);
    assert(v@ == text@);
    let parts = split_chars(v.as_slice(), ',');
    let ghost ps = split_on(v@, ',');
    let mut k: usize = 0;
    while k < parts.len()
        invariant
            k <= parts@.len(),
            parts@.len() == ps.len(),
            ps == split_on(v@, ','),
            v@ == text@,
            value == Some(text),
            forall|i: int| 0 <= i < parts@.len() ==> #[trigger] parts@[i]@ == ps[i],
            forall|j: int| 0 <= j < k ==> ascii_lower_seq(trim_seq(#[trigger] ps[j])) != "bearer"@,
        decreases parts@.len() - k,
    {
        let protocol = trim_chars(parts[k].as_slice());
        if is_word_ci(protocol.as_slice(), "bearer") {
            proof {
                assert(ascii_lower_seq(trim_seq(ps[k as int])) == "bearer"@);
                let kk = first_bearer(ps);
                assert(kk == k) by {
                    if kk < k {
                        assert(ascii_lower_seq(trim_seq(ps[kk])) != "bearer"@);
                    } else if kk > k {
                        assert(ascii_lower_seq(trim_seq(ps[k as int])) != "bearer"@);
                    }
                }
                assert(parts@.map_values(|p: Vec<char>| p@) =~= ps);
            }
            let r = token_after(&parts, k);
            return r;
        }
        k = k + 1;
    }
    None
}

/// The first index at which `pat` occurs in `s`.
pub open spec fn occurs_at(s: Seq<char>, pat: Seq<char>, i: int) -> bool {
    0 <= i && i + pat.len() <= s.len() && s.subrange(i, i + pat.len()) == pat
}

/// The authority of an `http://` or `https://` origin (scheme in any ASCII
/// case, split at the first `://`): non-empty, without path, query or fragment.
pub open spec fn authority_of(origin: Seq<char>) -> Option<Seq<char>> {
    if exists|i: int| #[trigger] occurs_at(origin, "://"@, i) {
        let i = first_separator(origin);
        let scheme = origin.subrange(0, i);
        let authority = origin.subrange(i + 3, origin.len() as int);
        if (ascii_lower_seq(scheme) == "http"@ || ascii_lower_seq(scheme) == "https"@) && authority.len() > 0
            && !has_char(authority, '/') && !has_char(authority, '?') && !has_char(authority, '#') {
            Some(authority)
        } else {
            None
        }
    } else {
        None
    }
}

/// The position of the first `://`.
pub open spec fn first_separator(origin: Seq<char>) -> int {
    choose|i: int| occurs_at(origin, "://"@, i) && forall|j: int| 0 <= j < i ==> !#[trigger] occurs_at(origin, "://"@, j)
}

/// The authority part of an HTTP(S) origin.
#[verifier::rlimit(60)]
pub fn origin_authority(origin: &str) -> (r: Option<String>)
    ensures
        match authority_of(origin@) {
            Some(a) => r matches Some(s) && s@ == a,
            None => r is None,
        },
{
    let cs = chars_of(origin);
    let n = cs.len();
    proof {
        reveal_strlit("://");
    }
    let mut i: usize = 0;
    let mut found = false;
    if n >= 3 {
        while i <= n - 3 && !found
            invariant
                n == cs@.len(),
                n >= 3,
                i <= n - 2,
                "://"@ =~= seq![':', '/', '/'],
                forall|j: int| 0 <= j < i ==> !#[trigger] occurs_at(cs@, "://"@, j),
                found ==> i <= n - 3 && occurs_at(cs@, "://"@, i as int),
            decreases n - i, if found { 0int } else { 1int },
        {
            if cs[i] == ':' && cs[i + 1] == '/' && cs[i + 2] == '/' {
                proof {
                    assert(cs@.subrange(i as int, i + 3) =~= "://"@);
                }
                found = true;
            } else {
                proof {
                    if occurs_at(cs@, "://"@, i as int) {
                        assert(cs@.subrange(i as int, i + 3)[0] == cs@[i as int]);
                        assert(cs@.subrange(i as int, i + 3)[1] == cs@[i + 1]);
                        assert(cs@.subrange(i as int, i + 3)[2] == cs@[i + 2]);
                    }
                }
                i = i + 1;
            }
        }
    }
    if !found {
        proof {
            assert forall|j: int| !#[trigger] occurs_at(cs@, "://"@, j) by {
                if j >= i && occurs_at(cs@, "://"@, j) {
                    assert(j + 3 <= n);
                }
            }
        }
        return None;
    }
    proof {
        assert(occurs_at(cs@, "://"@, i as int));
        let k = first_separator(cs@);
        assert(k == i) by {
            if k < i {
                assert(!occurs_at(cs@, "://"@, k));
            } else if k > i {
                assert(!occurs_at(cs@, "://"@, i as int));
            }
        }
    }
    let scheme = sub_chars(cs.as_slice(), 0, i);
    let authority = sub_chars(cs.as_slice(), i + 3, cs.len());
    if !(is_word_ci(scheme.as_slice(), "http") || is_word_ci(scheme.as_slice(), "https")) || authority.len() == 0
        || crate::text::contains_char(authority.as_slice(), '/') || crate::text::contains_char(authority.as_slice(), '?')
        || crate::text::contains_char(authority.as_slice(), '#') {
        return None;
    }
    Some(string_from_chars(authority.as_slice()))
}

/// Whether `s` equals `t` ignoring ASCII case.
pub open spec fn eq_ci(s: Seq<char>, t: Seq<char>) -> bool {
    ascii_lower_seq(s) == ascii_lower_seq(t)
}

fn str_eq_ci(a: &str, b: &str) -> (r: bool)
    ensures
        r == eq_ci(a@, b@),
{
    let x = lower_ascii_all(chars_of(a).as_slice());
    let y = lower_ascii_all(chars_of(b).as_slice());
    chars_eq(x.as_slice(), y.as_slice())
}

/// Whether a WebSocket upgrade's `Origin` is acceptable: a missing origin
/// (non-browser agents), a configured origin (ASCII case ignored), or an
/// HTTP(S) origin whose authority is the request's `Host`.
pub open spec fn origin_allowed(origin: Option<Seq<char>>, host: Option<Seq<char>>, configured: Seq<Seq<char>>) -> bool {
    match origin {
        None => true,
        Some(o) => (exists|i: int| 0 <= i < configured.len() && eq_ci(#[trigger] configured[i], o)) || match host {
            None => false,
            Some(h) => match authority_of(o) {
                Some(a) => eq_ci(a, h),
                None => false,
            },
        },
    }
}

/// The authority of an origin `<scheme>://<authority>` (scheme without a
/// colon) is found exactly for the schemes `http` and `https` in any ASCII
/// case and a non-empty authority with no `/`, `?` or `#`; it is the text
/// after `://`, unchanged.
pub proof fn law_origin_authorities(scheme: Seq<char>, a: Seq<char>)
    requires
        !has_char(scheme, ':'),
    ensures
        authority_of(scheme + "://"@ + a) == if (ascii_lower_seq(scheme) == "http"@ || ascii_lower_seq(scheme)
            == "https"@) && a.len() > 0 && !has_char(a, '/') && !has_char(a, '?') && !has_char(a, '#') {
            Some(a)
        } else {
            None::<Seq<char>>
        },
{
    reveal_strlit("://");
    let o = scheme + "://"@ + a;
    let n = scheme.len() as int;
    assert(o.subrange(n, n + 3) =~= "://"@);
    assert(occurs_at(o, "://"@, n));
    assert forall|j: int| 0 <= j < n implies !#[trigger] occurs_at(o, "://"@, j) by {
        if occurs_at(o, "://"@, j) {
            assert(o.subrange(j, j + 3)[0] == "://"@[0]);
            assert(o[j] == scheme[j]);
        }
    }
    let i = first_separator(o);
    assert(occurs_at(o, "://"@, i) && forall|j: int| 0 <= j < i ==> !#[trigger] occurs_at(o, "://"@, j));
    assert(i == n) by {
        if i < n {
            assert(o.subrange(i, i + 3)[0] == ':');
            assert(o[i] == scheme[i]);
        }
        if i > n {
            assert(!occurs_at(o, "://"@, n));
        }
    }
    assert(o.subrange(0, n) =~= scheme);
    assert(o.subrange(n + 3, o.len() as int) =~= a);
}

/// A browser page may open the WebSocket of the host it was served from:
/// an `http://` or `https://` origin whose authority is the request's Host
/// (ASCII case ignored) is accepted whatever is configured; a request with
/// no Origin is accepted; an origin that is neither configured nor the
/// request's own host is refused.
pub proof fn law_same_origin_websockets(h: Seq<char>, host: Seq<char>, configured: Seq<Seq<char>>, o: Seq<char>)
    ensures
        (h.len() > 0 && !has_char(h, '/') && !has_char(h, '?') && !has_char(h, '#') && eq_ci(h, host))
            ==> origin_allowed(Some("http://"@ + h), Some(host), configured) && origin_allowed(
            Some("https://"@ + h),
            Some(host),
            configured,
        ),
        origin_allowed(None, Some(host), configured),
        (forall|i: int| 0 <= i < configured.len() ==> !eq_ci(#[trigger] configured[i], o)) && !(authority_of(o) matches Some(
            a,
        ) && eq_ci(a, host)) ==> !origin_allowed(Some(o), Some(host), configured),
{
    if h.len() > 0 && !has_char(h, '/') && !has_char(h, '?') && !has_char(h, '#') && eq_ci(h, host) {
        lemma_http_origin(h);
    }
}

#[verifier::spinoff_prover]
proof fn lemma_http_origin(h: Seq<char>)
    requires
        h.len() > 0 && !has_char(h, '/') && !has_char(h, '?') && !has_char(h, '#'),
    ensures
        authority_of("http://"@ + h) == Some(h),
        authority_of("https://"@ + h) == Some(h),
{
    reveal_strlit("http");
    reveal_strlit("https");
    reveal_strlit("://");
    reveal_strlit("http://");
    reveal_strlit("https://");
    assert("http://"@ =~= "http"@ + "://"@);
    assert("https://"@ =~= "https"@ + "://"@);
    assert("http://"@ + h =~= "http"@ + "://"@ + h);
    assert("https://"@ + h =~= "https"@ + "://"@ + h);
    assert forall|i: int| 0 <= i < "http"@.len() implies #[trigger] "http"@[i] != ':' by {}
    assert forall|i: int| 0 <= i < "https"@.len() implies #[trigger] "https"@[i] != ':' by {}
    assert(ascii_lower_seq("http"@) =~= "http"@);
    assert(ascii_lower_seq("https"@) =~= "https"@);
    law_origin_authorities("http"@, h);
    law_origin_authorities("https"@, h);
}

/// Decide a WebSocket upgrade's origin from its `Origin` and `Host` header values.
pub fn websocket_origin_allowed(origin: Option<&str>, host: Option<&str>, configured_origins: &Vec<String>) -> (r: bool)
    ensures
        r == origin_allowed(
            crate::policy::opt_str_view(origin),
            crate::policy::opt_str_view(host),
            configured_origins@.map_values(|s: String| s@),
        ),
{
    let o = match origin {
        None => {
            return true;
        },
        Some(o) => o,
    };
    let ghost conf = configured_origins@.map_values(|s: String| s@);
    let mut i: usize = 0;
    while i < configured_origins.len()
        invariant
            i <= configured_origins@.len(),
            conf == configured_origins@.map_values(|s: String| s@),
            origin == Some(o),
            forall|j: int| 0 <= j < i ==> !eq_ci(#[trigger] conf[j], o@),
        decreases configured_origins@.len() - i,
    {
        if str_eq_ci(configured_origins[i].as_str(), o) {
            proof {
                assert(eq_ci(conf[i as int], o@));
            }
            return true;
        }
        i = i + 1;
    }
    let h = match host {
        None => {
            return false;
        },
        Some(h) => h,
    };
    match origin_authority(o) {
        Some(a) => str_eq_ci(a.as_str(), h),
        None => false,
    }
}

/// The value of a hexadecimal digit, as `u8::from_str_radix` reads it.
pub open spec fn hex_digit_value(b: u8) -> Option<u8> {
    if 0x30 <= b <= 0x39 {
        Some((b - 0x30) as u8)
    } else if 0x61 <= b <= 0x66 {
        Some((b - 0x61 + 10) as u8)
    } else if 0x41 <= b <= 0x46 {
        Some((b - 0x41 + 10) as u8)
    } else {
        None
    }
}

/// The byte two hexadecimal digits stand for; anything else (a sign, a
/// non-ASCII byte) is no digit pair.
pub open spec fn pair_value(a: u8, b: u8) -> Option<u8> {
    match (hex_digit_value(a), hex_digit_value(b)) {
        (Some(x), Some(y)) => Some((x * 16 + y) as u8),
        _ => None,
    }
}

/// `s` without its whitespace (`char::is_whitespace`).
pub open spec fn strip_space(s: Seq<char>) -> Seq<char>
    decreases s.len(),
{
    if s.len() == 0 {
        Seq::empty()
    } else if is_space_char(s.last()) {
        strip_space(s.drop_last())
    } else {
        strip_space(s.drop_last()).push(s.last())
    }
}

/// What a hexadecimal body decodes to: whitespace is ignored, the rest
/// must have an even length and consist of digit pairs.
pub open spec fn hex_body(s: Seq<char>) -> Result<Seq<u8>, Seq<char>> {
    let b = encode_utf8(strip_space(s));
    if b.len() % 2 == 1 {
        Err("hex length must be even"@)
    } else if exists|k: int| 0 <= k < b.len() / 2 && #[trigger] pair_value(b[2 * k], b[2 * k + 1]) is None {
        Err("bad hex: invalid digit found in string"@)
    } else {
        Ok(Seq::new((b.len() / 2) as nat, |k: int| pair_value(b[2 * k], b[2 * k + 1]).unwrap()))
    }
}

/// A hexadecimal digit character: `0`-`9`, `a`-`f` or `A`-`F` (code points
/// 0x30-0x39, 0x61-0x66, 0x41-0x46).
pub open spec fn is_hex_char(c: char) -> bool {
    let v = c as u32;
    (0x30 <= v <= 0x39) || (0x61 <= v <= 0x66) || (0x41 <= v <= 0x46)
}

/// The value of a hexadecimal digit character.
pub open spec fn hex_char_digit(c: char) -> int {
    let v = c as u32;
    if 0x30 <= v <= 0x39 {
        v - 0x30
    } else if 0x61 <= v <= 0x66 {
        v - 0x61 + 10
    } else {
        v - 0x41 + 10
    }
}

pub(crate) proof fn lemma_hex_chars_encode(t: Seq<char>)
    ensures
        (forall|i: int| 0 <= i < t.len() ==> is_hex_char(#[trigger] t[i])) ==> encode_utf8(t) == Seq::new(
            t.len(),
            |i: int| (t[i] as u32) as u8,
        ),
        (exists|i: int| 0 <= i < t.len() && !is_hex_char(#[trigger] t[i])) ==> exists|j: int|
            0 <= j < encode_utf8(t).len() && #[trigger] hex_digit_value(encode_utf8(t)[j]) is None,
    decreases t.len(),
{
    if t.len() > 0 {
        let rest = t.drop_first();
        lemma_hex_chars_encode(rest);
        let x = t[0] as u32;
        vstd::utf8::char_is_scalar(t[0]);
        let head = vstd::utf8::encode_scalar(x);
        let b = encode_utf8(t);
        assert(b == head + encode_utf8(rest));
        if forall|i: int| 0 <= i < t.len() ==> is_hex_char(#[trigger] t[i]) {
            assert(is_hex_char(t[0]));
            assert(x <= 0x7f);
            assert((x & 0x7f) as u8 == x as u8) by (bit_vector)
                requires
                    x <= 0x7f,
            ;
            assert(head =~= seq![x as u8]);
            assert forall|i: int| 0 <= i < rest.len() implies is_hex_char(#[trigger] rest[i]) by {
                assert(rest[i] == t[i + 1]);
                assert(is_hex_char(t[i + 1]));
            }
            assert(b =~= Seq::new(t.len(), |i: int| (t[i] as u32) as u8));
        }
        if exists|i: int| 0 <= i < t.len() && !is_hex_char(#[trigger] t[i]) {
            let i = choose|i: int| 0 <= i < t.len() && !is_hex_char(#[trigger] t[i]);
            if i == 0 {
                if x <= 0x7f {
                    assert((x & 0x7f) as u8 == x as u8) by (bit_vector)
                        requires
                            x <= 0x7f,
                    ;
                    assert(b[0] == x as u8);
                    assert(hex_digit_value(b[0]) is None);
                } else if x <= 0x7ff {
                    let y = vstd::utf8::leading_byte_width_2(x);
                    assert(y >= 0xC0) by (bit_vector)
                        requires
                            y == vstd::utf8::leading_byte_width_2(x),
                    ;
                    assert(head[0] == y);
                    assert(b[0] == head[0]);
                    assert(hex_digit_value(b[0]) is None);
                } else if x <= 0xffff {
                    let y = vstd::utf8::leading_byte_width_3(x);
                    assert(y >= 0xE0) by (bit_vector)
                        requires
                            y == vstd::utf8::leading_byte_width_3(x),
                    ;
                    assert(head[0] == y);
                    assert(b[0] == head[0]);
                    assert(hex_digit_value(b[0]) is None);
                } else {
                    let y = vstd::utf8::leading_byte_width_4(x);
                    assert(y >= 0xF0) by (bit_vector)
                        requires
                            y == vstd::utf8::leading_byte_width_4(x),
                    ;
                    assert(!vstd::utf8::has_width_3_encoding(x));
                    assert(head[0] == y);
                    assert(b[0] == head[0]);
                    assert(hex_digit_value(b[0]) is None);
                }
            } else {
                assert(rest[i - 1] == t[i]);
                assert(!is_hex_char(rest[i - 1]));
                let j = choose|j: int| 0 <= j < encode_utf8(rest).len() && #[trigger] hex_digit_value(encode_utf8(rest)[j]) is None;
                assert(b[head.len() + j] == encode_utf8(rest)[j]);
            }
        }
    }
}

/// A hexadecimal body is accepted exactly when, without its whitespace, it
/// is an even number of hexadecimal digit characters (any sign, other
/// character or non-ASCII text is refused); byte `k` is then the value of
/// digit pair `k`.
pub proof fn law_hex_bodies_are_digit_pairs(s: Seq<char>)
    ensures
        ({
            let t = strip_space(s);
            &&& (hex_body(s) is Ok) == (t.len() % 2 == 0 && forall|i: int| 0 <= i < t.len() ==> is_hex_char(#[trigger] t[i]))
            &&& hex_body(s) matches Ok(v) ==> v.len() == t.len() / 2 && forall|k: int|
                0 <= k < v.len() ==> #[trigger] v[k] == 16 * hex_char_digit(t[2 * k]) + hex_char_digit(t[2 * k + 1])
        }),
{
    let t = strip_space(s);
    let b = encode_utf8(t);
    lemma_hex_chars_encode(t);
    if forall|i: int| 0 <= i < t.len() ==> is_hex_char(#[trigger] t[i]) {
        assert(b.len() == t.len());
        assert forall|j: int| 0 <= j < t.len() implies #[trigger] hex_digit_value(b[j]) == Some(hex_char_digit(t[j]) as u8) by {
            assert(is_hex_char(t[j]));
            assert(b[j] == (t[j] as u32) as u8);
        }
        if t.len() % 2 == 0 {
            assert forall|k: int| 0 <= k < b.len() / 2 implies #[trigger] pair_value(b[2 * k], b[2 * k + 1]) is Some by {
                assert(hex_digit_value(b[2 * k]) is Some);
                assert(hex_digit_value(b[2 * k + 1]) is Some);
            }
            let v = hex_body(s)->Ok_0;
            assert forall|k: int| 0 <= k < v.len() implies #[trigger] v[k] == 16 * hex_char_digit(t[2 * k]) + hex_char_digit(t[2 * k + 1]) by {
                assert(hex_digit_value(b[2 * k]) == Some(hex_char_digit(t[2 * k]) as u8));
                assert(hex_digit_value(b[2 * k + 1]) == Some(hex_char_digit(t[2 * k + 1]) as u8));
                assert(0 <= hex_char_digit(t[2 * k]) < 16 && 0 <= hex_char_digit(t[2 * k + 1]) < 16);
            }
        }
    } else {
        let j = choose|j: int| 0 <= j < b.len() && #[trigger] hex_digit_value(b[j]) is None;
        if b.len() % 2 == 0 {
            let k = j / 2;
            assert(pair_value(b[2 * k], b[2 * k + 1]) is None) by {
                if j % 2 == 0 {
                    assert(2 * k == j);
                } else {
                    assert(2 * k + 1 == j);
                }
            }
        }
    }
}

fn digit_value(b: u8) -> (r: Option<u8>)
    ensures
        r == hex_digit_value(b),
{
    if 0x30 <= b && b <= 0x39 {
        Some(b - 0x30)
    } else if 0x61 <= b && b <= 0x66 {
        Some(b - 0x61 + 10)
    } else if 0x41 <= b && b <= 0x46 {
        Some(b - 0x41 + 10)
    } else {
        None
    }
}

/// Decode a hexadecimal request body (whitespace ignored).
pub fn parse_hex(s: &str) -> (r: Result<Vec<u8>, String>)
    ensures
        match hex_body(s@) {
            Ok(b) => r matches Ok(v) && v@ == b,
            Err(m) => r matches Err(e) && e@ == m,
        },
{
    let cs = chars_of(s);
    let mut clean = String::new();
    let mut i: usize = 0;
    proof {
        assert(clean@ =~= strip_space(cs@.subrange(0, 0)));
    }
    while i < cs.len()
        invariant
            i <= cs@.len(),
            clean@ == strip_space(cs@.subrange(0, i as int)),
        decreases cs@.len() - i,
    {
        proof {
            assert(cs@.subrange(0, i + 1).drop_last() =~= cs@.subrange(0, i as int));
        }
        if !crate::text::is_space(cs[i]) {
            push_char(&mut clean, cs[i]);
        }
        i = i + 1;
    }
    proof {
        assert(cs@.subrange(0, i as int) =~= s@);
    }
    let bytes = clean.as_str().as_bytes();
    let ghost b = encode_utf8(strip_space(s@));
    assert(bytes@ == b);
    if bytes.len() % 2 == 1 {
        return Err(owned("hex length must be even"));
    }
    let half: usize = bytes.len() / 2;
    let mut out: Vec<u8> = Vec::new();
    let mut k: usize = 0;
    while k < half
        invariant
            bytes@ == b,
            b == encode_utf8(strip_space(s@)),
            b.len() <= usize::MAX,
            b.len() % 2 == 0,
            half == b.len() / 2,
            k <= half,
            out@.len() == k,
            forall|j: int| 0 <= j < k ==> #[trigger] pair_value(b[2 * j], b[2 * j + 1]) is Some,
            forall|j: int| 0 <= j < k ==> #[trigger] out@[j] == pair_value(b[2 * j], b[2 * j + 1]).unwrap(),
        decreases half - k,
    {
        let x = bytes[2 * k];
        let y = bytes[2 * k + 1];
        let value = match (digit_value(x), digit_value(y)) {
            (Some(h), Some(l)) => Some(h * 16 + l),
            _ => None,
        };
        match value {
            Some(v) => {
                out.push(v);
            },
            None => {
                proof {
                    assert(pair_value(b[2 * k as int], b[2 * k + 1]) is None);
                }
                return Err(owned("bad hex: invalid digit found in string"));
            },
        }
        k = k + 1;
    }
    proof {
        assert(out@ =~= Seq::new((b.len() / 2) as nat, |j: int| pair_value(b[2 * j], b[2 * j + 1]).unwrap()));
    }
    Ok(out)
}

/// The raw query parameters of an event query.
#[derive(Clone, Debug, Default)]
pub struct EventsParams {
    pub after_seq: u64,
    pub through_seq: Option<u64>,
    pub limit: Option<usize>,
    pub event_type: Option<String>,
    pub connection_epoch: Option<u64>,
    pub actor: Option<String>,
    pub contains_hex: Option<String>,
}

/// The event type a query parameter names.
pub open spec fn type_named(s: Seq<char>) -> Option<EventType> {
    if s == "rx"@ {
        Some(EventType::Rx)
    } else if s == "tx"@ {
        Some(EventType::Tx)
    } else if s == "connection"@ {
        Some(EventType::Connection)
    } else if s == "control"@ {
        Some(EventType::Control)
    } else if s == "gap"@ {
        Some(EventType::Gap)
    } else {
        None
    }
}

/// Event type names round-trip with the schema's wire names: the name of
/// each type selects that type, and a name that selects a type is that
/// type's wire name (`rx`, `tx`, `connection`, `control`, `gap`).
pub proof fn law_type_names_round_trip(s: Seq<char>, t: EventType)
    ensures
        type_named(crate::schema::wire_type_name(t)) == Some(t),
        type_named(s) matches Some(u) ==> crate::schema::wire_type_name(u) == s,
        crate::schema::wire_type_name(t).len() > 0,
{
    reveal_strlit("rx");
    reveal_strlit("tx");
    reveal_strlit("connection");
    reveal_strlit("control");
    reveal_strlit("gap");
    assert("rx"@ != "tx"@) by {
        if "rx"@ == "tx"@ {
            assert("rx"@[0] == "tx"@[0]);
        }
    }
    assert("connection"@ != "control"@) by {
        if "connection"@ == "control"@ {
            assert("connection"@.len() == "control"@.len());
        }
    }
    assert("rx"@ != "gap"@ && "tx"@ != "gap"@ && "rx"@ != "control"@ && "tx"@ != "control"@ && "rx"@
        != "connection"@ && "tx"@ != "connection"@ && "gap"@ != "control"@ && "gap"@ != "connection"@) by {
        if "rx"@ == "gap"@ {
            assert("rx"@.len() == "gap"@.len());
        }
        if "tx"@ == "gap"@ {
            assert("tx"@.len() == "gap"@.len());
        }
        if "rx"@ == "control"@ {
            assert("rx"@.len() == "control"@.len());
        }
        if "tx"@ == "control"@ {
            assert("tx"@.len() == "control"@.len());
        }
        if "rx"@ == "connection"@ {
            assert("rx"@.len() == "connection"@.len());
        }
        if "tx"@ == "connection"@ {
            assert("tx"@.len() == "connection"@.len());
        }
        if "gap"@ == "control"@ {
            assert("gap"@.len() == "control"@.len());
        }
        if "gap"@ == "connection"@ {
            assert("gap"@.len() == "connection"@.len());
        }
    }
}

/// The types an events query filters on are exactly the types named in its
/// comma-separated `type` parameter: a type is selected when some part,
/// trimmed, is that type's wire name.
pub proof fn law_type_filter_selects_the_named_types(parts: Seq<Seq<char>>, t: EventType)
    ensures
        canonical_types(parts).contains(t) <==> exists|k: int|
            0 <= k < parts.len() && #[trigger] trim_seq(parts[k]) == crate::schema::wire_type_name(t),
{
    let all = seq![EventType::Rx, EventType::Tx, EventType::Connection, EventType::Control, EventType::Gap];
    let pred = |u: EventType| names_type(parts, u);
    law_type_names_round_trip(Seq::empty(), t);
    assert forall|k: int| 0 <= k < parts.len() implies (trim_seq(parts[k]).len() > 0 && #[trigger] type_named(
        trim_seq(parts[k]),
    ) == Some(t)) == (trim_seq(parts[k]) == crate::schema::wire_type_name(t)) by {
        law_type_names_round_trip(trim_seq(parts[k]), t);
    }
    if canonical_types(parts).contains(t) {
        let i = choose|i: int| 0 <= i < canonical_types(parts).len() && canonical_types(parts)[i] == t;
        all.lemma_filter_pred(pred, i);
        assert(names_type(parts, t));
        let k = choose|k: int| 0 <= k < parts.len() && trim_seq(parts[k]).len() > 0 && #[trigger] type_named(trim_seq(parts[k])) == Some(t);
        assert(trim_seq(parts[k]) == crate::schema::wire_type_name(t));
    }
    if exists|k: int| 0 <= k < parts.len() && #[trigger] trim_seq(parts[k]) == crate::schema::wire_type_name(t) {
        let k = choose|k: int| 0 <= k < parts.len() && #[trigger] trim_seq(parts[k]) == crate::schema::wire_type_name(t);
        assert(type_named(trim_seq(parts[k])) == Some(t));
        assert(names_type(parts, t));
        let i: int = match t {
            EventType::Rx => 0,
            EventType::Tx => 1,
            EventType::Connection => 2,
            EventType::Control => 3,
            EventType::Gap => 4,
        };
        assert(all[i] == t);
        all.lemma_filter_contains(pred, i);
    }
}

fn type_from(s: &[char]) -> (r: Option<EventType>)
    ensures
        r == type_named(s@),
{
    if chars_eq(s, chars_of("rx").as_slice()) {
        Some(EventType::Rx)
    } else if chars_eq(s, chars_of("tx").as_slice()) {
        Some(EventType::Tx)
    } else if chars_eq(s, chars_of("connection").as_slice()) {
        Some(EventType::Connection)
    } else if chars_eq(s, chars_of("control").as_slice()) {
        Some(EventType::Control)
    } else if chars_eq(s, chars_of("gap").as_slice()) {
        Some(EventType::Gap)
    } else {
        None
    }
}


/// The first non-blank comma-separated name (trimmed) that names no event type.
pub open spec fn first_unknown(parts: Seq<Seq<char>>) -> Option<Seq<char>>
    decreases parts.len(),
{
    if parts.len() == 0 {
        None
    } else {
        match first_unknown(parts.drop_last()) {
            Some(x) => Some(x),
            None => {
                let t = trim_seq(parts.last());
                if t.len() > 0 && type_named(t) is None {
                    Some(t)
                } else {
                    None
                }
            },
        }
    }
}

/// Some non-blank name among `parts` names type `t`.
pub open spec fn names_type(parts: Seq<Seq<char>>, t: EventType) -> bool {
    exists|k: int| 0 <= k < parts.len() && trim_seq(parts[k]).len() > 0 && #[trigger] type_named(trim_seq(parts[k])) == Some(t)
}

/// The named types in their canonical order, each once.
pub open spec fn canonical_types(parts: Seq<Seq<char>>) -> Seq<EventType> {
    let all = seq![EventType::Rx, EventType::Tx, EventType::Connection, EventType::Control, EventType::Gap];
    all.filter(|t: EventType| names_type(parts, t))
}

/// The page size of an events query.
pub open spec fn page_limit(limit: Option<usize>) -> usize {
    match limit {
        Some(l) => if l < 1 {
            1
        } else if l > 1000 {
            1000
        } else {
            l
        },
        None => 1000usize,
    }
}

/// An events page holds 1 to 1000 events: a requested size in that range is
/// kept, a smaller one becomes 1, a larger one 1000, and no size means 1000.
pub proof fn law_page_limits(limit: Option<usize>)
    ensures
        1 <= page_limit(limit) <= 1000,
        limit matches Some(l) ==> (1 <= l <= 1000 ==> page_limit(limit) == l),
        limit matches Some(l) ==> (l > 1000 ==> page_limit(limit) == 1000),
        limit == Some(0usize) ==> page_limit(limit) == 1,
        limit is None ==> page_limit(limit) == 1000,
{
}

/// Why event query parameters are refused, if they are.
pub open spec fn query_params_fault(p: EventsParams) -> Option<Seq<char>> {
    if p.event_type is Some && first_unknown(split_on(p.event_type.unwrap()@, ',')) is Some {
        Some("unknown event type '"@ + first_unknown(split_on(p.event_type.unwrap()@, ',')).unwrap() + "'"@)
    } else if p.contains_hex is Some && hex_body(p.contains_hex.unwrap()@) is Err {
        Some(hex_body(p.contains_hex.unwrap()@)->Err_0)
    } else if p.contains_hex is Some && hex_body(p.contains_hex.unwrap()@)->Ok_0.len() == 0 {
        Some("contains_hex must not be empty"@)
    } else if p.actor is Some && (p.actor.unwrap()@.len() == 0 || utf8_len(p.actor.unwrap()@) > 128
        || has_control(p.actor.unwrap()@)) {
        Some("actor must be 1..=128 non-control characters"@)
    } else {
        None
    }
}

/// Collect the named types of a `type` parameter, failing on the first unknown name.
fn types_from(v: &str) -> (r: Result<Vec<EventType>, String>)
    ensures
        match first_unknown(split_on(v@, ',')) {
            Some(x) => r matches Err(e) && e@ == "unknown event type '"@ + x + "'"@,
            None => r matches Ok(ts) && ts@ == canonical_types(split_on(v@, ',')),
        },
{
    let cs = chars_of(v);
    let parts = split_chars(cs.as_slice(), ',');
    let ghost ps = split_on(v@, ',');
    let mut seen = [false, false, false, false, false];
    let mut k: usize = 0;
    while k < parts.len()
        invariant
            k <= parts@.len(),
            parts@.len() == ps.len(),
            ps == split_on(v@, ','),
            forall|i: int| 0 <= i < parts@.len() ==> #[trigger] parts@[i]@ == ps[i],
            first_unknown(ps.subrange(0, k as int)) is None,
            seen@[0] == names_type(ps.subrange(0, k as int), EventType::Rx),
            seen@[1] == names_type(ps.subrange(0, k as int), EventType::Tx),
            seen@[2] == names_type(ps.subrange(0, k as int), EventType::Connection),
            seen@[3] == names_type(ps.subrange(0, k as int), EventType::Control),
            seen@[4] == names_type(ps.subrange(0, k as int), EventType::Gap),
            seen@.len() == 5,
        decreases parts@.len() - k,
    {
        let ghost prev = ps.subrange(0, k as int);
        let ghost next = ps.subrange(0, k + 1);
        proof {
            assert(next.drop_last() =~= prev);
            assert(next.last() == ps[k as int]);
        }
        let name = trim_chars(parts[k].as_slice());
        if name.len() > 0 {
            match type_from(name.as_slice()) {
                None => {
                    proof {
                        lemma_first_unknown_prefix(ps, k + 1);
                    }
                    let a = concat_strs("unknown event type '", string_from_chars(name.as_slice()).as_str());
                    return Err(concat_strs(a.as_str(), "'"));
                },
                Some(t) => {
                    match t {
                        EventType::Rx => { seen.set(0, true); },
                        EventType::Tx => { seen.set(1, true); },
                        EventType::Connection => { seen.set(2, true); },
                        EventType::Control => { seen.set(3, true); },
                        EventType::Gap => { seen.set(4, true); },
                    }
                },
            }
        }
        proof {
            assert forall|t: EventType| names_type(next, t) == (names_type(prev, t) || (trim_seq(ps[k as int]).len() > 0 && type_named(trim_seq(ps[k as int])) == Some(t))) by {
                if names_type(next, t) {
                    let q = choose|q: int| 0 <= q < next.len() && trim_seq(next[q]).len() > 0 && #[trigger] type_named(trim_seq(next[q])) == Some(t);
                    if q < k {
                        assert(next[q] == prev[q]);
                    } else {
                        assert(next[q] == ps[k as int]);
                    }
                }
                if names_type(prev, t) {
                    let q = choose|q: int| 0 <= q < prev.len() && trim_seq(prev[q]).len() > 0 && #[trigger] type_named(trim_seq(prev[q])) == Some(t);
                    assert(next[q] == prev[q]);
                }
                if trim_seq(ps[k as int]).len() > 0 && type_named(trim_seq(ps[k as int])) == Some(t) {
                    assert(next[k as int] == ps[k as int]);
                }
            }
        }
        k = k + 1;
    }
    proof {
        assert(ps.subrange(0, k as int) =~= ps);
    }
    let mut out: Vec<EventType> = Vec::new();
    if seen[0] { out.push(EventType::Rx); }
    if seen[1] { out.push(EventType::Tx); }
    if seen[2] { out.push(EventType::Connection); }
    if seen[3] { out.push(EventType::Control); }
    if seen[4] { out.push(EventType::Gap); }
    proof {
        let all = seq![EventType::Rx, EventType::Tx, EventType::Connection, EventType::Control, EventType::Gap];
        reveal_with_fuel(Seq::filter, 6);
        assert(all.drop_last() =~= seq![EventType::Rx, EventType::Tx, EventType::Connection, EventType::Control]);
        assert(all.drop_last().drop_last() =~= seq![EventType::Rx, EventType::Tx, EventType::Connection]);
        assert(all.drop_last().drop_last().drop_last() =~= seq![EventType::Rx, EventType::Tx]);
        assert(all.drop_last().drop_last().drop_last().drop_last() =~= seq![EventType::Rx]);
        assert(seq![EventType::Rx].drop_last() =~= Seq::<EventType>::empty());
        assert(out@ =~= canonical_types(ps));
    }
    Ok(out)
}

proof fn lemma_first_unknown_prefix(parts: Seq<Seq<char>>, n: int)
    requires
        0 <= n <= parts.len(),
        first_unknown(parts.subrange(0, n)) is Some,
    ensures
        first_unknown(parts) == first_unknown(parts.subrange(0, n)),
    decreases parts.len(),
{
    if n == parts.len() {
        assert(parts.subrange(0, n) =~= parts);
    } else {
        assert(parts.drop_last().subrange(0, n) =~= parts.subrange(0, n));
        lemma_first_unknown_prefix(parts.drop_last(), n);
    }
}

/// Turn event query parameters into a query: types must be known, a byte
/// pattern must be non-empty hexadecimal, an actor must be a label, and the
/// page size is clamped to 1..=1000 (1000 when absent).
pub fn event_query_from_params(params: EventsParams) -> (r: Result<EventQuery, String>)
    ensures
        match query_params_fault(params) {
            Some(m) => r matches Err(e) && e@ == m,
            None => r matches Ok(q) && {
                &&& q.after_seq == params.after_seq
                &&& q.through_seq == params.through_seq
                &&& q.limit == page_limit(params.limit)
                &&& q.filter.event_types@ == match params.event_type {
                    Some(v) => canonical_types(split_on(v@, ',')),
                    None => Seq::empty(),
                }
                &&& q.filter.connection_epoch == params.connection_epoch
                &&& q.filter.actor == params.actor
                &&& match params.contains_hex {
                    Some(h) => q.filter.contains_bytes matches Some(b) && b@ == hex_body(h@)->Ok_0,
                    None => q.filter.contains_bytes is None,
                }
            },
        },
{
    let event_types = match &params.event_type {
        Some(v) => match types_from(v.as_str()) {
            Ok(ts) => ts,
            Err(e) => {
                return Err(e);
            },
        },
        None => Vec::new(),
    };
    let contains_bytes = match &params.contains_hex {
        Some(h) => {
            let bytes = match parse_hex(h.as_str()) {
                Ok(b) => b,
                Err(e) => {
                    return Err(e);
                },
            };
            if bytes.len() == 0 {
                return Err(owned("contains_hex must not be empty"));
            }
            Some(bytes)
        },
        None => None,
    };
    match &params.actor {
        Some(a) => {
            let cs = chars_of(a.as_str());
            if cs.len() == 0 || utf8_len_exceeds(cs.as_slice(), 128) || any_control(cs.as_slice()) {
                return Err(owned("actor must be 1..=128 non-control characters"));
            }
        },
        None => {},
    }
    let limit: usize = match params.limit {
        Some(l) => if l < 1 {
            1
        } else if l > 1000 {
            1000
        } else {
            l
        },
        None => 1000,
    };
    Ok(EventQuery {
        after_seq: params.after_seq,
        through_seq: params.through_seq,
        limit,
        filter: EventFilter {
            event_types,
            connection_epoch: params.connection_epoch,
            actor: params.actor,
            contains_bytes,
        },
    })
}

/// The default of boolean request options that are on unless turned off.
pub fn default_true() -> (b: bool)
    ensures
        b,
{
    true
}

/// The bytes a write request sends: its hexadecimal body when present,
/// else its text, with a newline appended when asked for and missing. An
/// empty payload is refused before anything reaches the device.
pub open spec fn write_bytes(hex: Option<Seq<char>>, text: Option<Seq<char>>, newline: bool) -> Result<Seq<u8>, Seq<char>> {
    let body = match hex {
        Some(h) => hex_body(h),
        None => match text {
            Some(t) => Ok(encode_utf8(if newline && !(t.len() > 0 && t.last() == '\n') { t.push('\n') } else { t })),
            None => Err("provide text or hex"@),
        },
    };
    match body {
        Ok(b) => if b.len() == 0 {
            Err("payload must not be empty"@)
        } else {
            Ok(b)
        },
        Err(m) => Err(m),
    }
}

proof fn lemma_encode_utf8_push(t: Seq<char>, c: char)
    ensures
        encode_utf8(t.push(c)) == encode_utf8(t) + encode_utf8(seq![c]),
        t.len() > 0 ==> encode_utf8(t).len() > 0,
    decreases t.len(),
{
    if t.len() == 0 {
        assert(t.push(c) =~= seq![c]);
        assert(encode_utf8(t) =~= Seq::<u8>::empty());
        assert(encode_utf8(t) + encode_utf8(seq![c]) =~= encode_utf8(seq![c]));
    } else {
        lemma_encode_utf8_push(t.drop_first(), c);
        assert(t.push(c).drop_first() =~= t.drop_first().push(c));
        assert(t.push(c)[0] == t[0]);
        vstd::utf8::char_is_scalar(t[0]);
        assert(vstd::utf8::encode_scalar(t[0] as u32).len() > 0);
        assert(encode_utf8(t.push(c)) =~= encode_utf8(t) + encode_utf8(seq![c]));
    }
}

/// A write body is its hex text or its UTF-8 text, never both: given hex,
/// the text and the newline flag are ignored; a non-empty text is sent as
/// its UTF-8 bytes; asking for a newline is the same as sending the text
/// with a final `\n` (added once, only when missing); an empty payload or
/// a body with neither is refused.
pub proof fn law_write_bodies(h: Seq<char>, t: Seq<char>, t2: Option<Seq<char>>, n1: bool, n2: bool)
    ensures
        write_bytes(Some(h), Some(t), n1) == write_bytes(Some(h), t2, n2),
        t.len() > 0 ==> write_bytes(None, Some(t), false) == Ok::<Seq<u8>, Seq<char>>(encode_utf8(t)),
        t.len() == 0 ==> write_bytes(None, Some(t), false) is Err,
        !(t.len() > 0 && t.last() == '\n') ==> write_bytes(None, Some(t), true) == write_bytes(None, Some(t.push('\n')), false),
        t.len() > 0 && t.last() == '\n' ==> write_bytes(None, Some(t), true) == write_bytes(None, Some(t), false),
        write_bytes(None, Some(t), true) is Ok,
        write_bytes(None, None, n1) is Err,
{
    lemma_encode_utf8_push(t, '\n');
    assert(t.push('\n').len() > 0);
    lemma_encode_utf8_push(t.push('\n').drop_last(), '\n');
    assert(t.push('\n').drop_last() =~= t);
    if t.len() == 0 {
        assert(encode_utf8(t) =~= Seq::<u8>::empty());
    }
    assert(encode_utf8(seq!['\n']).len() > 0) by {
        lemma_encode_utf8_push(seq!['\n'].drop_last(), '\n');
        assert(seq!['\n'].drop_last().push('\n') =~= seq!['\n']);
        vstd::utf8::char_is_scalar('\n');
        assert(vstd::utf8::encode_scalar('\n' as u32).len() > 0);
    }
}

/// The bytes of a write request body.
pub fn write_body_bytes(hex: Option<&str>, text: Option<&str>, newline: bool) -> (r: Result<Vec<u8>, String>)
    ensures
        match write_bytes(crate::policy::opt_str_view(hex), crate::policy::opt_str_view(text), newline) {
            Ok(b) => r matches Ok(v) && v@ == b,
            Err(m) => r matches Err(e) && e@ == m,
        },
{
    let body = match hex {
        Some(h) => parse_hex(h),
        None => match text {
            Some(t) => {
                let cs = chars_of(t);
                let mut owned_text = owned(t);
                if newline && !(cs.len() > 0 && cs[cs.len() - 1] == '\n') {
                    push_char(&mut owned_text, '\n');
                }
                Ok(bytes_to_vec(owned_text.as_str().as_bytes()))
            },
            None => Err(owned("provide text or hex")),
        },
    };
    match body {
        Ok(v) => {
            if v.len() == 0 {
                return Err(owned("payload must not be empty"));
            }
            Ok(v)
        },
        Err(e) => Err(e),
    }
}

/// The control command a JSON control request names (operation trimmed,
/// ASCII case ignored), validated.
pub open spec fn control_from_request(op: Seq<char>, level: Option<bool>, duration_ms: Option<u64>) -> Result<ControlCommand, Seq<char>> {
    let o = ascii_lower_seq(trim_seq(op));
    if o == "dtr"@ {
        match level {
            Some(b) => Ok(ControlCommand::Dtr(b)),
            None => Err("dtr requires boolean level"@),
        }
    } else if o == "rts"@ {
        match level {
            Some(b) => Ok(ControlCommand::Rts(b)),
            None => Err("rts requires boolean level"@),
        }
    } else if o == "break"@ {
        match duration_ms {
            Some(d) => if 1 <= d <= 1000 {
                Ok(ControlCommand::Break { duration_ms: d })
            } else {
                Err("break duration_ms must be between 1 and 1000"@)
            },
            None => Err("break requires duration_ms"@),
        }
    } else {
        Err("unknown control operation '"@ + o + "'"@)
    }
}

/// The API's control operations (name trimmed, any ASCII case) match the
/// workflow steps': `dtr` and `rts` set that line to the requested level,
/// `break` sends a BREAK of 1 to 1000 ms; a missing level or duration, a
/// duration outside that range and any other operation are refused.
pub proof fn law_control_requests(op: Seq<char>, level: Option<bool>, duration_ms: Option<u64>)
    ensures
        ({
            let o = ascii_lower_seq(trim_seq(op));
            &&& o == "dtr"@ ==> match level {
                Some(b) => control_from_request(op, level, duration_ms) == Ok::<ControlCommand, Seq<char>>(ControlCommand::Dtr(b)),
                None => control_from_request(op, level, duration_ms) is Err,
            }
            &&& o == "rts"@ ==> match level {
                Some(b) => control_from_request(op, level, duration_ms) == Ok::<ControlCommand, Seq<char>>(ControlCommand::Rts(b)),
                None => control_from_request(op, level, duration_ms) is Err,
            }
            &&& o == "break"@ ==> match duration_ms {
                Some(d) => if 1 <= d <= 1000 {
                    control_from_request(op, level, duration_ms) == Ok::<ControlCommand, Seq<char>>(ControlCommand::Break { duration_ms: d })
                } else {
                    control_from_request(op, level, duration_ms) is Err
                },
                None => control_from_request(op, level, duration_ms) is Err,
            }
            &&& !(o == "dtr"@ || o == "rts"@ || o == "break"@) ==> control_from_request(op, level, duration_ms) is Err
        }),
{
    reveal_strlit("dtr");
    reveal_strlit("rts");
    reveal_strlit("break");
    assert("dtr"@ != "rts"@) by {
        if "dtr"@ == "rts"@ {
            assert("dtr"@[0] == "rts"@[0]);
        }
    }
    assert("break"@ != "dtr"@ && "break"@ != "rts"@) by {
        if "break"@ == "dtr"@ {
            assert("break"@.len() == "dtr"@.len());
        }
        if "break"@ == "rts"@ {
            assert("break"@.len() == "rts"@.len());
        }
    }
}

/// The HTTP status of a failed workflow run.
pub open spec fn workflow_status(error: crate::workflow::WorkflowError) -> u16 {
    match error {
        crate::workflow::WorkflowError::ReadDenied | crate::workflow::WorkflowError::WriteDenied
        | crate::workflow::WorkflowError::ControlDenied => 403u16,
        crate::workflow::WorkflowError::RequestInProgress => 409u16,
        crate::workflow::WorkflowError::Cancelled | crate::workflow::WorkflowError::Timeout
        | crate::workflow::WorkflowError::ExpectTimeout => 408u16,
        crate::workflow::WorkflowError::Runtime(_) | crate::workflow::WorkflowError::CursorUnavailable(_) => 503u16,
        _ => 422u16,
    }
}

/// Failed runs map to HTTP statuses by cause: a missing capability is
/// 403 Forbidden, a request id still running is 409 Conflict, a
/// cancellation or timeout is 408, a runtime or cursor failure is 503, and
/// every other failure (an invalid request or definition, a step that went
/// wrong) is 422. Every status is one of these five.
pub proof fn law_workflow_failures_map_to_statuses(e: crate::workflow::WorkflowError)
    ensures
        workflow_status(e) == 403 <==> (e is ReadDenied || e is WriteDenied || e is ControlDenied),
        workflow_status(e) == 409 <==> e is RequestInProgress,
        workflow_status(e) == 408 <==> (e is Cancelled || e is Timeout || e is ExpectTimeout),
        workflow_status(e) == 503 <==> (e is Runtime || e is CursorUnavailable),
        workflow_status(e) == 403 || workflow_status(e) == 409 || workflow_status(e) == 408 || workflow_status(e) == 503
            || workflow_status(e) == 422,
        e is InvalidRequestId ==> workflow_status(e) == 422,
{
}

/// Whether a request to `path` must carry the bearer token.
pub open spec fn needs_bearer(path: Seq<char>) -> bool {
    path != "/v1/health"@ && crate::text::starts_with(path, "/v1/"@)
}

/// Only the API is guarded: every path under `/v1/` needs the bearer token
/// except the health check `/v1/health`, and paths outside `/v1/` (the
/// console's static files) need none.
pub proof fn law_only_the_api_needs_the_bearer(path: Seq<char>, rest: Seq<char>)
    ensures
        !needs_bearer("/v1/health"@),
        ("/v1/"@ + rest) != "/v1/health"@ ==> needs_bearer("/v1/"@ + rest),
        !crate::text::starts_with(path, "/v1/"@) ==> !needs_bearer(path),
{
    reveal_strlit("/v1/health");
    reveal_strlit("/v1/");
    let p = "/v1/"@ + rest;
    assert(p.subrange(0, 4) =~= "/v1/"@);
    assert("/v1/health"@.subrange(0, 4) =~= "/v1/"@);
}

/// Build the command of a control request.
pub fn control_command_from_request(op: &str, level: Option<bool>, duration_ms: Option<u64>) -> (r: Result<ControlCommand, String>)
    ensures
        match control_from_request(op@, level, duration_ms) {
            Ok(c) => r == Ok::<ControlCommand, String>(c),
            Err(m) => r matches Err(e) && e@ == m,
        },
{
    let t = trim_chars(chars_of(op).as_slice());
    let o = lower_ascii_all(t.as_slice());
    let command = if chars_eq(o.as_slice(), chars_of("dtr").as_slice()) {
        match level {
            Some(b) => ControlCommand::Dtr(b),
            None => {
                return Err(owned("dtr requires boolean level"));
            },
        }
    } else if chars_eq(o.as_slice(), chars_of("rts").as_slice()) {
        match level {
            Some(b) => ControlCommand::Rts(b),
            None => {
                return Err(owned("rts requires boolean level"));
            },
        }
    } else if chars_eq(o.as_slice(), chars_of("break").as_slice()) {
        match duration_ms {
            Some(d) => ControlCommand::Break { duration_ms: d },
            None => {
                return Err(owned("break requires duration_ms"));
            },
        }
    } else {
        let a = concat_strs("unknown control operation '", string_from_chars(o.as_slice()).as_str());
        return Err(concat_strs(a.as_str(), "'"));
    };
    match command.validate() {
        Ok(()) => Ok(command),
        Err(e) => Err(e),
    }
}

/// A control failure that mentions the lease is the caller's fault
/// (forbidden); any other is the serial owner's (unavailable).
pub open spec fn mentions_lease(error: Seq<char>) -> bool {
    exists|i: int| #[trigger] occurs_at(error, "lease"@, i)
}

/// Whether a control failure is answered as forbidden.
pub fn control_error_is_forbidden(error: &str) -> (r: bool)
    ensures
        r == mentions_lease(error@),
{
    let cs = chars_of(error);
    let pat = chars_of("lease");
    proof {
        reveal_strlit("lease");
    }
    let n = cs.len();
    if n < 5 {
        proof {
            assert forall|i: int| !#[trigger] occurs_at(cs@, "lease"@, i) by {}
        }
        return false;
    }
    let mut i: usize = 0;
    while i <= n - 5
        invariant
            n == cs@.len(),
            cs@ == error@,
            n >= 5,
            i <= n - 4,
            pat@ == "lease"@,
            "lease"@.len() == 5,
            forall|j: int| 0 <= j < i ==> !#[trigger] occurs_at(cs@, "lease"@, j),
        decreases n - i,
    {
        let window = sub_chars(cs.as_slice(), i, i + 5);
        if chars_eq(window.as_slice(), pat.as_slice()) {
            proof {
                assert(occurs_at(cs@, "lease"@, i as int));
            }
            return true;
        }
        i = i + 1;
    }
    proof {
        assert forall|j: int| !#[trigger] occurs_at(cs@, "lease"@, j) by {
            if j >= i && occurs_at(cs@, "lease"@, j) {
                assert(j + 5 <= n);
            }
        }
    }
    false
}

/// The cache policy of a static asset: hashed build assets are immutable.
pub fn cache_for(path: &str) -> (r: &'static str)
    ensures
        r@ == if crate::text::starts_with(path@, "assets/"@) {
            "public, max-age=31536000, immutable"@
        } else {
            "no-cache"@
        },
{
    if crate::text::chars_start_with(chars_of(path).as_slice(), chars_of("assets/").as_slice()) {
        "public, max-age=31536000, immutable"
    } else {
        "no-cache"
    }
}

/// `path` without its leading slashes.
pub open spec fn without_leading_slashes(path: Seq<char>) -> Seq<char>
    decreases path.len(),
{
    if path.len() > 0 && path[0] == '/' {
        without_leading_slashes(path.drop_first())
    } else {
        path
    }
}

/// Where a request for a static path goes.
#[derive(Debug, Clone, PartialEq, Eq)]
pub enum StaticRoute {
    /// An API path that no route matched: not found, never the console.
    NotFound,
    /// The console's `index.html`.
    Index,
    /// An asset by its path, or `index.html` when there is no such asset.
    Asset(String),
}

/// Route a static request: `v1` and `v1/...` are never the console; the
/// root is the index; anything else is an asset.
pub fn static_route(uri_path: &str) -> (r: StaticRoute)
    ensures
        ({
            let p = without_leading_slashes(uri_path@);
            if crate::text::starts_with(p, "v1/"@) || p == "v1"@ {
                r == StaticRoute::NotFound
            } else if p.len() == 0 {
                r == StaticRoute::Index
            } else {
                r matches StaticRoute::Asset(a) && a@ == p
            }
        }),
{
    let cs = chars_of(uri_path);
    let mut start: usize = 0;
    proof {
        assert(cs@.subrange(0, cs@.len() as int) =~= cs@);
    }
    while start < cs.len() && cs[start] == '/'
        invariant
            start <= cs@.len(),
            without_leading_slashes(cs@) == without_leading_slashes(cs@.subrange(start as int, cs@.len() as int)),
            cs@ == uri_path@,
        decreases cs@.len() - start,
    {
        proof {
            let rest = cs@.subrange(start as int, cs@.len() as int);
            assert(rest.drop_first() =~= cs@.subrange(start + 1, cs@.len() as int));
        }
        start = start + 1;
    }
    let mut rest: Vec<char> = Vec::new();
    let mut i: usize = start;
    while i < cs.len()
        invariant
            start <= i <= cs@.len(),
            rest@ == cs@.subrange(start as int, i as int),
        decreases cs@.len() - i,
    {
        rest.push(cs[i]);
        i = i + 1;
    }
    proof {
        let tail = cs@.subrange(start as int, cs@.len() as int);
        assert(rest@ =~= tail);
        assert(!(tail.len() > 0 && tail[0] == '/'));
        assert(without_leading_slashes(tail) == tail);
    }
    let v1 = chars_of("v1");
    if crate::text::chars_start_with(rest.as_slice(), chars_of("v1/").as_slice()) || chars_eq(rest.as_slice(), v1.as_slice()) {
        return StaticRoute::NotFound;
    }
    if rest.len() == 0 {
        return StaticRoute::Index;
    }
    StaticRoute::Asset(string_from_chars(rest.as_slice()))
}

/// Whether a request path is behind the bearer token: every `/v1/` route
/// except health, which stays public so a supervisor can tell a live
/// service from an authentication failure.
pub fn path_requires_bearer(path: &str) -> (r: bool)
    ensures
        r == needs_bearer(path@),
{
    let cs = chars_of(path);
    let health = chars_of("/v1/health");
    !chars_eq(cs.as_slice(), health.as_slice()) && crate::text::chars_start_with(cs.as_slice(), chars_of("/v1/").as_slice())
}

/// Whether a request to `path` passes the bearer check: when a token is
/// configured, a protected path needs a presented bearer equal to it.
pub fn request_authorized(path: &str, expected: Option<&str>, presented: Option<&str>) -> (r: bool)
    ensures
        r == match expected {
            None => true,
            Some(t) => !needs_bearer(path@) || match presented {
                Some(p) => encode_utf8(p@) == encode_utf8(t@),
                None => false,
            },
        },
{
    if !path_requires_bearer(path) {
        return true;
    }
    match expected {
        None => true,
        Some(t) => match presented {
            Some(p) => secure_eq(p, t),
            None => false,
        },
    }
}

/// The HTTP status a failed workflow request is answered with: 403 for a
/// missing capability, 409 for a request still running, 408 when the run
/// was cancelled or timed out, 503 when the runtime or the event stream
/// failed, and 422 for everything the request itself got wrong.
pub fn workflow_error_status(error: &crate::workflow::WorkflowError) -> (status: u16)
    ensures
        status == workflow_status(*error),
{
    match error {
        crate::workflow::WorkflowError::ReadDenied | crate::workflow::WorkflowError::WriteDenied
        | crate::workflow::WorkflowError::ControlDenied => 403,
        crate::workflow::WorkflowError::RequestInProgress => 409,
        crate::workflow::WorkflowError::Cancelled | crate::workflow::WorkflowError::Timeout
        | crate::workflow::WorkflowError::ExpectTimeout => 408,
        crate::workflow::WorkflowError::Runtime(_) | crate::workflow::WorkflowError::CursorUnavailable(_) => 503,
        _ => 422,
    }
}

/// What `http::uri::Authority` makes of `value`: its `host()` and
/// `port_u16()` when the text parses as an authority.
pub uninterp spec fn authority_parts(value: Seq<char>) -> Option<(Seq<char>, Option<u16>)>;

/// `value.parse::<http::uri::Authority>()`, with the parsed authority's
/// `host()` and `port_u16()`. The contract only names the result after the
/// text; the grammar the crate accepts is not restated here.
#[verifier::external_body]
fn parse_authority(value: &str) -> (r: Option<(String, Option<u16>)>)
    ensures
        match r {
            Some((h, p)) => authority_parts(value@) == Some((h@, p)),
            None => authority_parts(value@) is None,
        },
{
    match value.parse::<http::uri::Authority>() {
        Ok(a) => Some((a.host().to_string(), a.port_u16())),
        Err(_) => None,
    }
}

/// Whether header bytes are text to `http::HeaderValue::to_str`: visible
/// ASCII and tabs only.
pub open spec fn header_text_ok(b: Seq<u8>) -> bool {
    forall|i: int| 0 <= i < b.len() ==> b[i] == 9 || (32 <= #[trigger] b[i] && b[i] < 127)
}

/// Header bytes read as text.
pub open spec fn ascii_text(b: Seq<u8>) -> Seq<char> {
    b.map_values(|x: u8| x as char)
}

/// A host without the brackets of an IPv6 literal.
pub open spec fn unbracketed(h: Seq<char>) -> Seq<char> {
    if h.len() >= 2 && h[0] == '[' && h[h.len() - 1] == ']' {
        h.subrange(1, h.len() - 1)
    } else {
        h
    }
}

/// Whether an authority's host and port name a loopback listener on
/// `listen_port` at `listen_ip`: the port must be the listener's (an absent
/// port only stands for 80), and the host must be `localhost` (ASCII case
/// ignored), a loopback address or the listener's own address.
pub open spec fn authority_names_listener(host: Seq<char>, port: Option<u16>, listen_port: u16, listen_ip: IpValue) -> bool {
    let port_ok = match port {
        Some(p) => p == listen_port,
        None => listen_port == 80,
    };
    let h = unbracketed(host);
    port_ok && (eq_ci(h, "localhost"@) || match ip_addr(h) {
        Some(a) => ip_is_loopback(a) || a == listen_ip,
        None => false,
    })
}

/// Decide an authority, as the HTTP stack parsed it, against the listener.
pub fn authority_allowed(parts: Option<(String, Option<u16>)>, listen_port: u16, listen_ip: IpValue) -> (r: bool)
    ensures
        r == match parts {
            None => false,
            Some((h, p)) => authority_names_listener(h@, p, listen_port, listen_ip),
        },
{
    let (host, port) = match parts {
        None => {
            return false;
        },
        Some(x) => x,
    };
    let port = match port {
        Some(p) => p,
        None => {
            if listen_port != 80 {
                return false;
            }
            80
        },
    };
    if port != listen_port {
        return false;
    }
    let cs = chars_of(host.as_str());
    let n = cs.len();
    let mut h: Vec<char> = Vec::new();
    let bracketed = n >= 2 && cs[0] == '[' && cs[n - 1] == ']';
    let (from, to) = if bracketed {
        (1, n - 1)
    } else {
        (0, n)
    };
    let mut i: usize = from;
    while i < to
        invariant
            from <= i <= to <= cs@.len(),
            h@ == cs@.subrange(from as int, i as int),
        decreases to - i,
    {
        h.push(cs[i]);
        i = i + 1;
    }
    proof {
        if !bracketed {
            assert(cs@.subrange(0, n as int) =~= cs@);
        }
        assert(h@ == unbracketed(host@));
    }
    let lower = lower_ascii_all(h.as_slice());
    let local = lower_ascii_all(chars_of("localhost").as_slice());
    if chars_eq(lower.as_slice(), local.as_slice()) {
        return true;
    }
    match parse_ip_addr(h.as_slice()) {
        Some(a) => ip_loopback(a) || a == listen_ip,
        None => false,
    }
}

/// Whether a request's `Host` header names this loopback listener: exactly
/// one value, readable as text, without userinfo, that parses as an
/// authority the listener answers to. Every request, health and assets
/// included, passes this check, so a bearer never turns a foreign host
/// into a trusted one.
pub fn safe_loopback_host(host_values: &Vec<Vec<u8>>, listen_port: u16, listen_ip: IpValue) -> (r: bool)
    ensures
        r == {
            let vs = host_values@;
            &&& vs.len() == 1
            &&& header_text_ok(vs[0]@)
            &&& !has_char(ascii_text(vs[0]@), '@')
            &&& match authority_parts(ascii_text(vs[0]@)) {
                None => false,
                Some((h, p)) => authority_names_listener(h, p, listen_port, listen_ip),
            }
        },
{
    if host_values.len() != 1 {
        return false;
    }
    let value = &host_values[0];
    let mut text = String::new();
    let mut i: usize = 0;
    while i < value.len()
        invariant
            i <= value@.len(),
            host_values@.len() == 1,
            value@ == host_values@[0]@,
            text@ == ascii_text(value@.subrange(0, i as int)),
            header_text_ok(value@.subrange(0, i as int)),
            forall|j: int| 0 <= j < i ==> value@[j] != 64,
        decreases value@.len() - i,
    {
        let b = value[i];
        if !(b == 9 || (32 <= b && b < 127)) {
            proof {
                assert(!(value@[i as int] == 9 || (32 <= value@[i as int] && value@[i as int] < 127)));
                assert(!header_text_ok(value@));
            }
            return false;
        }
        if b == 64 {
            proof {
                assert(ascii_text(value@)[i as int] == '@');
                assert(has_char(ascii_text(value@), '@'));
            }
            return false;
        }
        push_char(&mut text, char_from_ascii(b as u32));
        proof {
            assert(value@.subrange(0, i + 1) =~= value@.subrange(0, i as int).push(b));
            assert(ascii_text(value@.subrange(0, i + 1)) =~= ascii_text(value@.subrange(0, i as int)).push(b as char));
        }
        i = i + 1;
    }
    proof {
        assert(value@.subrange(0, i as int) =~= value@);
        assert forall|j: int| 0 <= j < ascii_text(value@).len() implies ascii_text(value@)[j] != '@' by {
            assert(value@[j] != 64);
        }
    }
    authority_allowed(parse_authority(text.as_str()), listen_port, listen_ip)
}

/// A character of a URL-safe bearer token: an ASCII letter or digit, `-`,
/// `.`, `_` or `~`.
pub open spec fn token_char_ok(c: char) -> bool {
    ('a' <= c && c <= 'z') || ('A' <= c && c <= 'Z') || ('0' <= c && c <= '9') || c == '-' || c == '.'
        || c == '_' || c == '~'
}

/// Check the bearer token read from environment variable `name` (already
/// trimmed); `value` is `None` when the variable is missing or not
/// Unicode. The token must be non-empty and URL-safe.
pub fn bearer_from_env(name: &str, value: Option<String>) -> (r: Result<String, String>)
    ensures
        match value {
            None => r matches Err(e) && e@ == "api.token_env variable '"@ + name@ + "' is missing or not Unicode"@,
            Some(t) => if t@.len() > 0 && forall|i: int| 0 <= i < t@.len() ==> token_char_ok(#[trigger] t@[i]) {
                r == Ok::<String, String>(t)
            } else {
                r matches Err(e) && e@ == "api.token_env variable '"@ + name@
                    + "' must contain a non-empty URL-safe token (letters, digits, '-', '.', '_', '~')"@
            },
        },
{
    let t = match value {
        None => {
            let a = concat_strs("api.token_env variable '", name);
            return Err(concat_strs(a.as_str(), "' is missing or not Unicode"));
        },
        Some(t) => t,
    };
    let cs = chars_of(t.as_str());
    let mut ok = cs.len() > 0;
    let mut i: usize = 0;
    while i < cs.len()
        invariant
            i <= cs@.len(),
            cs@ == t@,
            ok == (cs@.len() > 0 && forall|j: int| 0 <= j < i ==> token_char_ok(#[trigger] cs@[j])),
        decreases cs@.len() - i,
    {
        let c = cs[i];
        let good = ('a' <= c && c <= 'z') || ('A' <= c && c <= 'Z') || ('0' <= c && c <= '9') || c == '-'
            || c == '.' || c == '_' || c == '~';
        proof {
            assert(good == token_char_ok(cs@[i as int]));
            if ok && good {
                assert forall|j: int| 0 <= j < i + 1 implies token_char_ok(#[trigger] cs@[j]) by {}
            }
        }
        ok = ok && good;
        i = i + 1;
    }
    if !ok {
        let a = concat_strs("api.token_env variable '", name);
        return Err(concat_strs(a.as_str(), "' must contain a non-empty URL-safe token (letters, digits, '-', '.', '_', '~')"));
    }
    Ok(t)
}

} // verus!
