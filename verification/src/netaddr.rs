//! Socket-address text: the grammar accepted by std's `SocketAddr` parser
//! (`a.b.c.d:port` or `[ipv6%scope]:port`), and the loopback test used to keep
//! unauthenticated listeners on the local host.
//!
//! The grammar is stated as a deterministic recursive-descent reading over
//! characters; the executable parser follows it position by position.

use vstd::prelude::*;

verus! {

/// The value of `c` as a digit in `radix` (10 or 16), if it is one.
pub open spec fn digit_value(c: char, radix: nat) -> Option<nat> {
    if '0' <= c && c <= '9' {
        Some(((c as u32) - 48) as nat)
    } else if radix == 16 && 'a' <= c && c <= 'f' {
        Some(((c as u32) - 87) as nat)
    } else if radix == 16 && 'A' <= c && c <= 'F' {
        Some(((c as u32) - 55) as nat)
    } else {
        None
    }
}

/// End of the maximal run of `radix` digits starting at `pos`.
pub open spec fn digit_run_end(s: Seq<char>, pos: int, radix: nat) -> int
    decreases s.len() - pos,
{
    if pos < 0 || pos >= s.len() || digit_value(s[pos], radix) is None {
        pos
    } else {
        digit_run_end(s, pos + 1, radix)
    }
}

/// The number written by the digits `s[start..end]`.
pub open spec fn digits_value(s: Seq<char>, start: int, end: int, radix: nat) -> nat
    decreases end - start,
{
    if end <= start {
        0
    } else {
        digits_value(s, start, end - 1, radix) * radix + digit_value(s[end - 1], radix).unwrap()
    }
}

/// Read a number at `pos`: the whole digit run is consumed; it must be
/// non-empty, at most `max_digits` long, at most `bound`, and (unless
/// `allow_zero_prefix`) have no leading zero. Yields the value and the
/// position after it.
pub open spec fn read_number(
    s: Seq<char>,
    pos: int,
    radix: nat,
    max_digits: Option<nat>,
    allow_zero_prefix: bool,
    bound: nat,
) -> Option<(nat, int)> {
    let end = digit_run_end(s, pos, radix);
    let count = end - pos;
    if count <= 0 {
        None
    } else if max_digits is Some && count > max_digits.unwrap() {
        None
    } else if digits_value(s, pos, end, radix) > bound {
        None
    } else if !allow_zero_prefix && s[pos] == '0' && count > 1 {
        None
    } else {
        Some((digits_value(s, pos, end, radix), end))
    }
}

/// `s[pos]` is the character `c`.
pub open spec fn char_at(s: Seq<char>, pos: int, c: char) -> bool {
    0 <= pos < s.len() && s[pos] == c
}

/// One IPv4 octet (decimal, at most three digits, no leading zero).
pub open spec fn read_octet(s: Seq<char>, pos: int) -> Option<(nat, int)> {
    read_number(s, pos, 10, Some(3), false, 255)
}

/// A dotted-quad IPv4 address at `pos`: its four octets and the position after it.
pub open spec fn read_ipv4(s: Seq<char>, pos: int) -> Option<(Seq<nat>, int)> {
    match read_octet(s, pos) {
        None => None,
        Some((a, p1)) => if !char_at(s, p1, '.') {
            None
        } else {
            match read_octet(s, p1 + 1) {
                None => None,
                Some((b, p2)) => if !char_at(s, p2, '.') {
                    None
                } else {
                    match read_octet(s, p2 + 1) {
                        None => None,
                        Some((c, p3)) => if !char_at(s, p3, '.') {
                            None
                        } else {
                            match read_octet(s, p3 + 1) {
                                None => None,
                                Some((d, p4)) => Some((seq![a, b, c, d], p4)),
                            }
                        },
                    }
                },
            }
        },
    }
}

/// Position after the separator of group `i` (none before the first group).
pub open spec fn after_separator(s: Seq<char>, pos: int, i: nat) -> Option<int> {
    if i == 0 {
        Some(pos)
    } else if char_at(s, pos, ':') {
        Some(pos + 1)
    } else {
        None
    }
}

/// Read up to `limit - i` more colon-separated IPv6 groups into `acc`. A
/// trailing embedded IPv4 address counts as two groups and ends the run.
/// Yields the groups, the position after them, and whether an IPv4 tail was read.
pub open spec fn read_groups(s: Seq<char>, pos: int, i: nat, limit: nat, acc: Seq<nat>) -> (
    Seq<nat>,
    int,
    bool,
)
    decreases limit - i,
{
    if i >= limit {
        (acc, pos, false)
    } else {
        match after_separator(s, pos, i) {
            None => (acc, pos, false),
            Some(p) => if i + 1 < limit && read_ipv4(s, p) is Some {
                let o = read_ipv4(s, p).unwrap().0;
                (acc.push(o[0] * 256 + o[1]).push(o[2] * 256 + o[3]), read_ipv4(s, p).unwrap().1, true)
            } else {
                match read_number(s, p, 16, Some(4), true, 0xffff) {
                    None => (acc, pos, false),
                    Some((g, q)) => read_groups(s, q, i + 1, limit, acc.push(g)),
                }
            },
        }
    }
}

/// An IPv6 address at `pos` (with `::` compression): its eight groups and the
/// position after it.
pub open spec fn read_ipv6(s: Seq<char>, pos: int) -> Option<(Seq<nat>, int)> {
    let (head, hp, hv4) = read_groups(s, pos, 0, 8, Seq::empty());
    if head.len() == 8 {
        Some((head, hp))
    } else if hv4 {
        None
    } else if !(char_at(s, hp, ':') && char_at(s, hp + 1, ':')) {
        None
    } else {
        let limit = (8 - (head.len() + 1)) as nat;
        let (tail, tp, _) = read_groups(s, hp + 2, 0, limit, Seq::empty());
        Some(
            (
                head + Seq::new((8 - head.len() - tail.len()) as nat, |k: int| 0nat) + tail,
                tp,
            ),
        )
    }
}

/// `:port` at `pos`: the port and the position after it.
pub open spec fn read_port(s: Seq<char>, pos: int) -> Option<(nat, int)> {
    if char_at(s, pos, ':') {
        read_number(s, pos + 1, 10, None, true, 0xffff)
    } else {
        None
    }
}

/// A parsed socket address: the address bytes or groups, and the port.
pub enum SockAddr {
    V4 { octets: Seq<nat>, port: nat },
    V6 { groups: Seq<nat>, port: nat },
}

/// `a.b.c.d:port` at the start of `s`, and where it ends.
pub open spec fn read_socket_v4(s: Seq<char>) -> Option<(SockAddr, int)> {
    match read_ipv4(s, 0) {
        None => None,
        Some((o, p)) => match read_port(s, p) {
            None => None,
            Some((port, q)) => Some((SockAddr::V4 { octets: o, port }, q)),
        },
    }
}

/// Position after an optional `%scope` at `pos`.
pub open spec fn after_scope(s: Seq<char>, pos: int) -> int {
    if char_at(s, pos, '%') && read_number(s, pos + 1, 10, None, true, 0xffff_ffff) is Some {
        read_number(s, pos + 1, 10, None, true, 0xffff_ffff).unwrap().1
    } else {
        pos
    }
}

/// `[ipv6%scope]:port` at the start of `s`, and where it ends.
pub open spec fn read_socket_v6(s: Seq<char>) -> Option<(SockAddr, int)> {
    if !char_at(s, 0, '[') {
        None
    } else {
        match read_ipv6(s, 1) {
            None => None,
            Some((g, p)) => {
                let q = after_scope(s, p);
                if !char_at(s, q, ']') {
                    None
                } else {
                    match read_port(s, q + 1) {
                        None => None,
                        Some((port, r)) => Some((SockAddr::V6 { groups: g, port }, r)),
                    }
                }
            },
        }
    }
}

/// The socket address written by all of `s`, if it is one. An IPv4 reading is
/// tried first; if it reads but leaves input over, the text is not an address.
pub open spec fn socket_addr(s: Seq<char>) -> Option<SockAddr> {
    match read_socket_v4(s) {
        Some((a, p)) => if p == s.len() {
            Some(a)
        } else {
            None
        },
        None => match read_socket_v6(s) {
            Some((a, p)) => if p == s.len() {
                Some(a)
            } else {
                None
            },
            None => None,
        },
    }
}

/// Loopback addresses: IPv4 `127.0.0.0/8`, IPv6 `::1`.
pub open spec fn is_loopback(a: SockAddr) -> bool {
    match a {
        SockAddr::V4 { octets, .. } => octets[0] == 127,
        SockAddr::V6 { groups, .. } => groups == seq![0nat, 0, 0, 0, 0, 0, 0, 1],
    }
}

/// `None` when `s` is not a socket address, else whether it is a loopback address.
pub open spec fn socket_addr_loopback(s: Seq<char>) -> Option<bool> {
    match socket_addr(s) {
        None => None,
        Some(a) => Some(is_loopback(a)),
    }
}

// ---------------------------------------------------------------------------
// Executable parser
// ---------------------------------------------------------------------------

fn digit_of(c: char, radix: u32) -> (r: Option<u32>)
    requires
        radix == 10 || radix == 16,
    ensures
        match digit_value(c, radix as nat) {
            Some(v) => r == Some(v as u32),
            None => r is None,
        },
        r matches Some(v) ==> v < radix,
{
    if '0' <= c && c <= '9' {
        Some((c as u32) - 48)
    } else if radix == 16 && 'a' <= c && c <= 'f' {
        Some((c as u32) - 87)
    } else if radix == 16 && 'A' <= c && c <= 'F' {
        Some((c as u32) - 55)
    } else {
        None
    }
}

proof fn lemma_run_end_bounds(s: Seq<char>, pos: int, radix: nat)
    requires
        0 <= pos <= s.len(),
    ensures
        pos <= digit_run_end(s, pos, radix) <= s.len(),
        forall|j: int|
            pos <= j < digit_run_end(s, pos, radix) ==> digit_value(#[trigger] s[j], radix) is Some,
        digit_run_end(s, pos, radix) < s.len() ==> digit_value(
            s[digit_run_end(s, pos, radix)],
            radix,
        ) is None,
    decreases s.len() - pos,
{
    if pos < s.len() && digit_value(s[pos], radix) is Some {
        lemma_run_end_bounds(s, pos + 1, radix);
    }
}

proof fn lemma_run_end_from(s: Seq<char>, pos: int, mid: int, radix: nat)
    requires
        0 <= pos <= mid <= s.len(),
        forall|j: int| pos <= j < mid ==> digit_value(#[trigger] s[j], radix) is Some,
    ensures
        digit_run_end(s, pos, radix) == digit_run_end(s, mid, radix),
    decreases mid - pos,
{
    if pos < mid {
        lemma_run_end_from(s, pos + 1, mid, radix);
    }
}

proof fn lemma_value_monotone(s: Seq<char>, start: int, end: int, radix: nat)
    requires
        start <= end,
        radix >= 1,
        forall|j: int| start <= j < end ==> digit_value(#[trigger] s[j], radix) is Some,
    ensures
        digits_value(s, start, end, radix) <= digits_value(s, start, end + 1, radix) || !(
        digit_value(s[end], radix) is Some),
{
    if digit_value(s[end], radix) is Some {
        let v = digits_value(s, start, end, radix);
        assert(v * radix >= v) by (nonlinear_arith)
            requires
                radix >= 1,
        ;
    }
}

/// `read_number` on characters.
fn exec_read_number(
    s: &[char],
    pos: usize,
    radix: u32,
    max_digits: Option<usize>,
    allow_zero_prefix: bool,
    bound: u32,
) -> (r: Option<(u32, usize)>)
    requires
        pos <= s@.len(),
        radix == 10 || radix == 16,
    ensures
        ({
            let spec_r = read_number(
                s@,
                pos as int,
                radix as nat,
                match max_digits {
                    Some(m) => Some(m as nat),
                    None => None,
                },
                allow_zero_prefix,
                bound as nat,
            );
            &&& r is Some <==> spec_r is Some
            &&& r is Some ==> r.unwrap().0 as nat == spec_r.unwrap().0 && r.unwrap().1 as int
                == spec_r.unwrap().1 && r.unwrap().0 <= bound && pos < r.unwrap().1 <= s@.len()
        }),
{
    let ghost ss = s@;
    let mut i: usize = pos;
    let mut val: u64 = 0;
    let mut over = false;
    while i < s.len() && digit_of(s[i], radix).is_some()
        invariant
            pos <= i <= s@.len(),
            radix == 10 || radix == 16,
            forall|j: int| pos <= j < i ==> digit_value(#[trigger] s@[j], radix as nat) is Some,
            !over ==> val == digits_value(s@, pos as int, i as int, radix as nat) && val
                <= bound,
            over ==> digits_value(s@, pos as int, i as int, radix as nat) > bound,
        decreases s@.len() - i,
    {
        let d = digit_of(s[i], radix).unwrap();
        proof {
            lemma_value_monotone(s@, pos as int, i as int, radix as nat);
        }
        if !over {
            let next = val * (radix as u64) + (d as u64);
            if next > bound as u64 {
                over = true;
            } else {
                val = next;
            }
        }
        i = i + 1;
    }
    proof {
        lemma_run_end_bounds(s@, pos as int, radix as nat);
        lemma_run_end_from(s@, pos as int, i as int, radix as nat);
        lemma_run_end_bounds(s@, i as int, radix as nat);
    }
    let count = i - pos;
    if count == 0 {
        return None;
    }
    match max_digits {
        Some(m) => {
            if count > m {
                return None;
            }
        },
        None => {},
    }
    if over {
        return None;
    }
    if !allow_zero_prefix && s[pos] == '0' && count > 1 {
        return None;
    }
    Some((val as u32, i))
}

fn exec_char_at(s: &[char], pos: usize, c: char) -> (r: bool)
    ensures
        r == char_at(s@, pos as int, c),
        s@.len() <= usize::MAX,
{
    let _n = s.len();
    pos < s.len() && s[pos] == c
}

fn exec_read_octet(s: &[char], pos: usize) -> (r: Option<(u32, usize)>)
    requires
        pos <= s@.len(),
    ensures
        r is Some <==> read_octet(s@, pos as int) is Some,
        r is Some ==> r.unwrap().0 as nat == read_octet(s@, pos as int).unwrap().0 && r.unwrap().1 as int
            == read_octet(s@, pos as int).unwrap().1 && r.unwrap().0 <= 255 && pos < r.unwrap().1 <= s@.len(),
{
    proof {
        lemma_run_end_bounds(s@, pos as int, 10);
    }
    exec_read_number(s, pos, 10, Some(3), false, 255)
}

fn exec_read_ipv4(s: &[char], pos: usize) -> (r: Option<([u32; 4], usize)>)
    requires
        pos <= s@.len(),
    ensures
        r is Some <==> read_ipv4(s@, pos as int) is Some,
        r is Some ==> r.unwrap().1 as int == read_ipv4(s@, pos as int).unwrap().1 && r.unwrap().1
            <= s@.len() && read_ipv4(s@, pos as int).unwrap().0.len() == 4 && (forall|k: int|
            0 <= k < 4 ==> r.unwrap().0@[k] as nat == read_ipv4(s@, pos as int).unwrap().0[k]
            && r.unwrap().0@[k] <= 255),
{
    let (a, p1) = match exec_read_octet(s, pos) {
        Some(x) => x,
        None => return None,
    };
    if !exec_char_at(s, p1, '.') {
        return None;
    }
    let (b, p2) = match exec_read_octet(s, p1 + 1) {
        Some(x) => x,
        None => return None,
    };
    if !exec_char_at(s, p2, '.') {
        return None;
    }
    let (c, p3) = match exec_read_octet(s, p2 + 1) {
        Some(x) => x,
        None => return None,
    };
    if !exec_char_at(s, p3, '.') {
        return None;
    }
    let (d, p4) = match exec_read_octet(s, p3 + 1) {
        Some(x) => x,
        None => return None,
    };
    let arr = [a, b, c, d];
    Some((arr, p4))
}

fn exec_read_groups(s: &[char], pos: usize, limit: usize) -> (r: (Vec<u32>, usize, bool))
    requires
        pos <= s@.len(),
        limit <= 8,
    ensures
        ({
            let (g, p, v4) = read_groups(s@, pos as int, 0, limit as nat, Seq::empty());
            &&& r.0@.len() == g.len()
            &&& forall|k: int| 0 <= k < g.len() ==> r.0@[k] == g[k] && g[k] <= 0xffff
            &&& r.1 == p
            &&& p <= s@.len()
            &&& r.2 == v4
            &&& g.len() <= limit
        }),
{
    let mut acc: Vec<u32> = Vec::new();
    let mut p: usize = pos;
    let mut i: usize = 0;
    let ghost target = read_groups(s@, pos as int, 0, limit as nat, Seq::empty());
    assert(acc@.map_values(|x: u32| x as nat) =~= Seq::<nat>::empty());
    while i < limit
        invariant
            i <= limit <= 8,
            p <= s@.len(),
            acc@.len() == i,
            forall|k: int| 0 <= k < i ==> acc@[k] <= 0xffff,
            target == read_groups(s@, p as int, i as nat, limit as nat, acc@.map_values(|x: u32| x as nat)),
            target == read_groups(s@, pos as int, 0, limit as nat, Seq::empty()),
        decreases limit - i,
    {
        let ghost accn = acc@.map_values(|x: u32| x as nat);
        let sep: Option<usize> = if i == 0 {
            Some(p)
        } else if exec_char_at(s, p, ':') {
            Some(p + 1)
        } else {
            None
        };
        assert(after_separator(s@, p as int, i as nat) == match sep {
            Some(x) => Some(x as int),
            None => None::<int>,
        });
        let q = match sep {
            None => {
                assert(target == (accn, p as int, false));
                assert(accn.len() == acc@.len());
                assert(forall|k: int| 0 <= k < accn.len() ==> accn[k] == acc@[k] as nat);
                return (acc, p, false);
            },
            Some(q) => q,
        };
        if i + 1 < limit {
            match exec_read_ipv4(s, q) {
                Some((o, q4)) => {
                    let ghost os = read_ipv4(s@, q as int).unwrap().0;
                    let g1 = o[0] * 256 + o[1];
                    let g2 = o[2] * 256 + o[3];
                    acc.push(g1);
                    acc.push(g2);
                    proof {
                        assert(acc@.map_values(|x: u32| x as nat) =~= accn.push(os[0] * 256 + os[1]).push(
                            os[2] * 256 + os[3],
                        ));
                        assert(target == (accn.push(os[0] * 256 + os[1]).push(os[2] * 256 + os[3]), q4 as int, true));
                    }
                    return (acc, q4, true);
                },
                None => {},
            }
        }
        match exec_read_number(s, q, 16, Some(4), true, 0xffff) {
            None => {
                assert(target == (accn, p as int, false));
                assert(accn.len() == acc@.len());
                assert(forall|k: int| 0 <= k < accn.len() ==> accn[k] == acc@[k] as nat);
                return (acc, p, false);
            },
            Some((g, q2)) => {
                proof {
                    lemma_run_end_bounds(s@, q as int, 16);
                }
                acc.push(g);
                assert(acc@.map_values(|x: u32| x as nat) =~= accn.push(g as nat));
                p = q2;
            },
        }
        i = i + 1;
    }
    assert(acc@.map_values(|x: u32| x as nat).len() == acc@.len());
    (acc, p, false)
}

fn exec_read_ipv6(s: &[char], pos: usize) -> (r: Option<(Vec<u32>, usize)>)
    requires
        pos <= s@.len(),
    ensures
        r is Some <==> read_ipv6(s@, pos as int) is Some,
        r is Some ==> r.unwrap().1 as int == read_ipv6(s@, pos as int).unwrap().1 && r.unwrap().1
            <= s@.len() && r.unwrap().0@.len() == 8 && read_ipv6(s@, pos as int).unwrap().0.len() == 8
            && (forall|k: int| 0 <= k < 8 ==> r.unwrap().0@[k] as nat == read_ipv6(s@, pos as int).unwrap().0[k]
            && r.unwrap().0@[k] <= 0xffff),
{
    let (head, hp, hv4) = exec_read_groups(s, pos, 8);
    proof {
        let gh = read_groups(s@, pos as int, 0, 8, Seq::empty()).0;
        assert forall|j: int| 0 <= j < head@.len() implies head@[j] <= 0xffff by {
            assert(head@[j] == gh[j] && gh[j] <= 0xffff);
        }
    }
    if head.len() == 8 {
        return Some((head, hp));
    }
    if hv4 {
        return None;
    }
    if !(exec_char_at(s, hp, ':') && exec_char_at(s, hp + 1, ':')) {
        return None;
    }
    let limit = 8 - (head.len() + 1);
    let (tail, tp, _) = exec_read_groups(s, hp + 2, limit);
    proof {
        let gt = read_groups(s@, hp + 2, 0, limit as nat, Seq::empty()).0;
        assert forall|j: int| 0 <= j < tail@.len() implies tail@[j] <= 0xffff by {
            assert(tail@[j] == gt[j] && gt[j] <= 0xffff);
        }
    }
    let mut out: Vec<u32> = Vec::new();
    let mut k: usize = 0;
    while k < head.len()
        invariant
            k <= head@.len(),
            out@ == head@.subrange(0, k as int),
            forall|j: int| 0 <= j < head@.len() ==> head@[j] <= 0xffff,
        decreases head@.len() - k,
    {
        out.push(head[k]);
        k = k + 1;
    }
    let zeros = 8 - head.len() - tail.len();
    let mut z: usize = 0;
    while z < zeros
        invariant
            z <= zeros,
            out@.len() == head@.len() + z,
            forall|j: int| 0 <= j < head@.len() ==> out@[j] == head@[j],
            forall|j: int| head@.len() <= j < out@.len() ==> out@[j] == 0,
            forall|j: int| 0 <= j < head@.len() ==> head@[j] <= 0xffff,
        decreases zeros - z,
    {
        out.push(0);
        z = z + 1;
    }
    let mut t: usize = 0;
    while t < tail.len()
        invariant
            t <= tail@.len(),
            out@.len() == head@.len() + zeros + t,
            forall|j: int| 0 <= j < head@.len() ==> out@[j] == head@[j],
            forall|j: int| head@.len() <= j < head@.len() + zeros ==> out@[j] == 0,
            forall|j: int| 0 <= j < t ==> out@[head@.len() + zeros + j] == tail@[j],
            forall|j: int| 0 <= j < head@.len() ==> head@[j] <= 0xffff,
            forall|j: int| 0 <= j < tail@.len() ==> tail@[j] <= 0xffff,
        decreases tail@.len() - t,
    {
        out.push(tail[t]);
        t = t + 1;
    }
    Some((out, tp))
}

fn exec_read_port(s: &[char], pos: usize) -> (r: Option<(u32, usize)>)
    requires
        pos <= s@.len(),
    ensures
        r is Some <==> read_port(s@, pos as int) is Some,
        r is Some ==> r.unwrap().0 as nat == read_port(s@, pos as int).unwrap().0 && r.unwrap().1 as int
            == read_port(s@, pos as int).unwrap().1 && r.unwrap().1 <= s@.len(),
{
    if exec_char_at(s, pos, ':') {
        proof {
            lemma_run_end_bounds(s@, pos + 1, 10);
        }
        exec_read_number(s, pos + 1, 10, None, true, 0xffff)
    } else {
        None
    }
}

/// Whether all of `s` is a socket address, and if so whether it is a loopback address.
pub fn parse_socket_addr_loopback(s: &[char]) -> (r: Option<bool>)
    ensures
        r == socket_addr_loopback(s@),
{
    match exec_read_ipv4(s, 0) {
        Some((o, p)) => {
            match exec_read_port(s, p) {
                Some((_, q)) => {
                    return if q == s.len() {
                        Some(o[0] == 127)
                    } else {
                        None
                    };
                },
                None => {},
            }
        },
        None => {},
    }
    if !exec_char_at(s, 0, '[') {
        return None;
    }
    let (g, p) = match exec_read_ipv6(s, 1) {
        Some(x) => x,
        None => return None,
    };
    let mut q = p;
    if exec_char_at(s, p, '%') {
        proof {
            lemma_run_end_bounds(s@, p + 1, 10);
        }
        match exec_read_number(s, p + 1, 10, None, true, 0xffff_ffff) {
            Some((_, q2)) => {
                q = q2;
            },
            None => {},
        }
    }
    if !exec_char_at(s, q, ']') {
        return None;
    }
    match exec_read_port(s, q + 1) {
        None => None,
        Some((_, e)) => {
            if e != s.len() {
                return None;
            }
            let loop_back = g[0] == 0 && g[1] == 0 && g[2] == 0 && g[3] == 0 && g[4] == 0 && g[5]
                == 0 && g[6] == 0 && g[7] == 1;
            let ghost gs = read_ipv6(s@, 1).unwrap().0;
            assert(loop_back == (gs =~= seq![0nat, 0, 0, 0, 0, 0, 0, 1]));
            Some(loop_back)
        },
    }
}

/// An IP address as std numbers it: IPv4 as the big-endian `u32` of its
/// octets, IPv6 as the big-endian `u128` of its groups.
#[derive(Clone, Copy, Debug, PartialEq, Eq, Structural)]
pub enum IpValue {
    V4(u32),
    V6(u128),
}

/// The number four octets stand for.
pub open spec fn octets_value(o: Seq<nat>) -> nat {
    o[0] * 0x100_0000 + o[1] * 0x1_0000 + o[2] * 0x100 + o[3]
}

/// The number eight 16-bit groups stand for.
pub open spec fn groups_value(g: Seq<nat>) -> nat {
    g[0] * 0x1_0000_0000_0000_0000_0000_0000_0000 + g[1] * 0x1_0000_0000_0000_0000_0000_0000
        + g[2] * 0x1_0000_0000_0000_0000_0000 + g[3] * 0x1_0000_0000_0000_0000 + g[4] * 0x1_0000_0000_0000
        + g[5] * 0x1_0000_0000 + g[6] * 0x1_0000 + g[7]
}

/// The IP address written by all of `s`, if it is one. An IPv4 reading is
/// tried first; if it reads but leaves input over, the text is no address.
pub open spec fn ip_addr(s: Seq<char>) -> Option<IpValue> {
    match read_ipv4(s, 0) {
        Some((o, p)) => if p == s.len() {
            Some(IpValue::V4(octets_value(o) as u32))
        } else {
            None
        },
        None => match read_ipv6(s, 0) {
            Some((g, p)) => if p == s.len() {
                Some(IpValue::V6(groups_value(g) as u128))
            } else {
                None
            },
            None => None,
        },
    }
}

/// Loopback addresses: IPv4 `127.0.0.0/8`, IPv6 `::1`.
pub open spec fn ip_is_loopback(a: IpValue) -> bool {
    match a {
        IpValue::V4(v) => v / 0x100_0000 == 127,
        IpValue::V6(v) => v == 1,
    }
}

/// Whether `a` is a loopback address.
pub fn ip_loopback(a: IpValue) -> (r: bool)
    ensures
        r == ip_is_loopback(a),
{
    match a {
        IpValue::V4(v) => v / 0x100_0000 == 127,
        IpValue::V6(v) => v == 1,
    }
}

/// Read all of `s` as an IP address, as `str::parse::<IpAddr>` does.
pub fn parse_ip_addr(s: &[char]) -> (r: Option<IpValue>)
    ensures
        r == ip_addr(s@),
{
    match exec_read_ipv4(s, 0) {
        Some((o, p)) => {
            if p != s.len() {
                return None;
            }
            let v: u32 = o[0] * 0x100_0000 + o[1] * 0x1_0000 + o[2] * 0x100 + o[3];
            proof {
                let os = read_ipv4(s@, 0).unwrap().0;
                assert(os[0] == o@[0] as nat && os[1] == o@[1] as nat && os[2] == o@[2] as nat && os[3] == o@[3] as nat);
            }
            return Some(IpValue::V4(v));
        },
        None => {},
    }
    match exec_read_ipv6(s, 0) {
        Some((g, p)) => {
            if p != s.len() {
                return None;
            }
            proof {
                let gs = read_ipv6(s@, 0).unwrap().0;
                assert(forall|k: int| 0 <= k < 8 ==> g@[k] as nat == gs[k]);
            }
            let v: u128 = (g[0] as u128) * 0x1_0000_0000_0000_0000_0000_0000_0000 + (g[1] as u128)
                * 0x1_0000_0000_0000_0000_0000_0000 + (g[2] as u128) * 0x1_0000_0000_0000_0000_0000
                + (g[3] as u128) * 0x1_0000_0000_0000_0000 + (g[4] as u128) * 0x1_0000_0000_0000
                + (g[5] as u128) * 0x1_0000_0000 + (g[6] as u128) * 0x1_0000 + (g[7] as u128);
            Some(IpValue::V6(v))
        },
        None => None,
    }
}

} // verus!
