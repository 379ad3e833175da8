//! Cross-profile resource checks of the multi-profile supervisor.
//!
//! Each profile owns one real serial handle and one ledger; the supervisor
//! refuses profiles that would share a device, a listening address, a
//! ledger directory or a PTY link. Starting and stopping hubs is the host
//! program's part.

use vstd::prelude::*;

use crate::config::{config_error, ClientConfig, Config};
use crate::text::{
    ascii_lower_seq, blank, chars_of, chars_start_with, concat_strs, decimal, decimal_string,
    hex_fixed, hex_fixed_chars, is_blank, lower_ascii_all, owned, starts_with, str_eq,
    string_from_chars, trim_chars, trim_seq,
};

verus! {

/// How a resource name is compared: trimmed, ASCII lower case.
pub open spec fn key_of(v: Seq<char>) -> Seq<char> {
    ascii_lower_seq(trim_seq(v))
}

/// Normalize a resource name for comparison.
pub fn normalize_key(value: &str) -> (r: String)
    ensures
        r@ == key_of(value@),
{
    let t = trim_chars(chars_of(value).as_slice());
    let l = lower_ascii_all(t.as_slice());
    string_from_chars(l.as_slice())
}

/// A path made absolute against `cwd` (Unix rules: a path starting with `/`
/// is absolute; otherwise it is joined to `cwd` with one separator).
pub open spec fn absolute_path(path: Seq<char>, cwd: Seq<char>) -> Seq<char> {
    if path.len() > 0 && path[0] == '/' {
        path
    } else if cwd.len() > 0 && cwd.last() == '/' {
        cwd + path
    } else {
        cwd + "/"@ + path
    }
}

/// Normalize a filesystem path for comparison: absolute, then as a key.
pub fn normalize_path(path: &str, cwd: &str) -> (r: String)
    ensures
        r@ == key_of(absolute_path(path@, cwd@)),
{
    let p = chars_of(path);
    let c = chars_of(cwd);
    let absolute = if p.len() > 0 && p[0] == '/' {
        owned(path)
    } else if c.len() > 0 && c[c.len() - 1] == '/' {
        concat_strs(cwd, path)
    } else {
        let a = concat_strs(cwd, "/");
        concat_strs(a.as_str(), path)
    };
    normalize_key(absolute.as_str())
}

/// One resource a profile claims. A USB claim also carries its selector's
/// `usb:vid:pid:` prefix and whether it matches any serial number.
#[derive(Debug, Clone)]
pub struct Claim {
    pub key: String,
    pub owner: String,
    pub usb: Option<(String, bool)>,
}

/// A claim as sequences.
pub struct ClaimView {
    pub key: Seq<char>,
    pub owner: Seq<char>,
    pub usb: Option<(Seq<char>, bool)>,
}

impl View for Claim {
    type V = ClaimView;

    open spec fn view(&self) -> ClaimView {
        ClaimView {
            key: self.key@,
            owner: self.owner@,
            usb: match self.usb {
                Some((p, w)) => Some((p@, w)),
                None => None,
            },
        }
    }
}

/// Claims already granted: (resource key, owner).
pub type Granted = Seq<(Seq<char>, Seq<char>)>;

/// Some granted key equals `key`.
pub open spec fn key_taken(table: Granted, key: Seq<char>) -> bool {
    exists|k: int| 0 <= k < table.len() && table[k].0 == key
}

/// Some granted key is the wildcard `prefix*` or begins with `prefix`.
pub open spec fn prefix_taken(table: Granted, prefix: Seq<char>) -> bool {
    exists|k: int| 0 <= k < table.len() && (table[k].0 == prefix + "*"@ || starts_with(table[k].0, prefix))
}

/// The owner recorded for a taken key.
pub open spec fn owner_of(table: Granted, key: Seq<char>) -> Seq<char> {
    table[choose|i: int| 0 <= i < table.len() && table[i].0 == key].1
}

/// Grant one claim, or say why it collides.
pub open spec fn grant(table: Granted, c: ClaimView) -> Result<Granted, Seq<char>> {
    match c.usb {
        Some((prefix, true)) if prefix_taken(table, prefix) => Err(
            "resource collision: "@ + c.owner + " conflicts with another selector"@,
        ),
        Some((prefix, false)) if key_taken(table, prefix + "*"@) => Err(
            "resource collision: "@ + c.owner + " conflicts with a wildcard selector"@,
        ),
        _ => if key_taken(table, c.key) {
            Err("resource collision: "@ + c.owner + " conflicts with "@ + owner_of(table, c.key))
        } else {
            Ok(table.push((c.key, c.owner)))
        },
    }
}

/// Grant claims in order; the first collision is the outcome.
pub open spec fn grant_all(claims: Seq<ClaimView>) -> Result<Granted, Seq<char>>
    decreases claims.len(),
{
    if claims.len() == 0 {
        Ok(Seq::empty())
    } else {
        match grant_all(claims.drop_last()) {
            Err(e) => Err(e),
            Ok(table) => grant(table, claims.last()),
        }
    }
}

/// Keys are unique in a granted table.
pub open spec fn unique_keys(table: Granted) -> bool {
    forall|i: int, j: int| 0 <= i < j < table.len() ==> table[i].0 != table[j].0
}

proof fn lemma_grant_keeps_unique(table: Granted, c: ClaimView)
    requires
        unique_keys(table),
    ensures
        grant(table, c) matches Ok(t) ==> unique_keys(t),
{
    if grant(table, c) is Ok {
        let t = grant(table, c)->Ok_0;
        assert forall|i: int, j: int| 0 <= i < j < t.len() implies t[i].0 != t[j].0 by {
            if j == table.len() {
                assert(t[i] == table[i]);
            }
        }
    }
}

fn find_key(table: &Vec<(String, String)>, key: &str) -> (r: Option<usize>)
    ensures
        match r {
            Some(i) => i < table@.len() && table@[i as int].0@ == key@,
            None => forall|k: int| 0 <= k < table@.len() ==> table@[k].0@ != key@,
        },
{
    let mut i: usize = 0;
    while i < table.len()
        invariant
            i <= table@.len(),
            forall|k: int| 0 <= k < i ==> table@[k].0@ != key@,
        decreases table@.len() - i,
    {
        if str_eq(table[i].0.as_str(), key) {
            return Some(i);
        }
        i = i + 1;
    }
    None
}

/// The view of a granted table.
pub open spec fn table_view(t: Seq<(String, String)>) -> Granted {
    t.map_values(|e: (String, String)| (e.0@, e.1@))
}

/// Record `key` for `owner` unless it is already claimed.
pub fn claim(resources: &mut Vec<(String, String)>, key: String, owner: String) -> (r: Result<(), String>)
    requires
        unique_keys(table_view(old(resources)@)),
    ensures
        unique_keys(table_view(final(resources)@)),
        match grant(table_view(old(resources)@), ClaimView { key: key@, owner: owner@, usb: None }) {
            Ok(t) => r is Ok && table_view(final(resources)@) == t,
            Err(m) => r matches Err(e) && e@ == m,
        },
{
    let ghost table = table_view(resources@);
    match find_key(resources, key.as_str()) {
        Some(i) => {
            proof {
                assert(table[i as int].0 == key@);
                let j = choose|j: int| 0 <= j < table.len() && table[j].0 == key@;
                assert(j == i) by {
                    if j != i {
                        assert(unique_keys(table));
                    }
                }
            }
            let a = concat_strs("resource collision: ", owner.as_str());
            let b = concat_strs(a.as_str(), " conflicts with ");
            Err(concat_strs(b.as_str(), resources[i].1.as_str()))
        },
        None => {
            proof {
                assert forall|k: int| 0 <= k < table.len() implies table[k].0 != key@ by {
                    assert(resources@[k].0@ != key@);
                }
                lemma_grant_keeps_unique(table, ClaimView { key: key@, owner: owner@, usb: None });
            }
            resources.push((key, owner));
            proof {
                assert(table_view(resources@) =~= table.push((key@, owner@)));
            }
            Ok(())
        },
    }
}

/// How profile `index` (from zero) is named in collisions.
pub open spec fn label_of(index: nat) -> Seq<char> {
    "profile #"@ + decimal(index + 1)
}

/// A claim without USB checks.
pub open spec fn plain(key: Seq<char>, owner: Seq<char>) -> ClaimView {
    ClaimView { key, owner, usb: None }
}

/// The claim a client endpoint makes, if any.
pub open spec fn client_claim(p: Config, label: Seq<char>, c: ClientConfig, cwd: Seq<char>) -> Option<ClaimView> {
    match c {
        ClientConfig::Tcp { name, bind, .. } => Some(plain("listen:"@ + key_of(bind@), label + " TCP client '"@ + name@ + "'.bind"@)),
        ClientConfig::Websocket { name, bind, .. } => match bind {
            Some(b) => if !p.api.enabled || b@ != p.api.bind@ {
                Some(plain("listen:"@ + key_of(b@), label + " WebSocket client '"@ + name@ + "'.bind"@))
            } else {
                None
            },
            None => None,
        },
        ClientConfig::Pty { name, link, .. } => Some(plain("pty:"@ + key_of(absolute_path(link@, cwd)), label + " PTY client '"@ + name@ + "'.link"@)),
    }
}

/// The claims of a profile's client endpoints, in order.
pub open spec fn client_claims(p: Config, label: Seq<char>, cs: Seq<ClientConfig>, cwd: Seq<char>) -> Seq<ClaimView>
    decreases cs.len(),
{
    if cs.len() == 0 {
        Seq::empty()
    } else {
        client_claims(p, label, cs.drop_last(), cwd) + match client_claim(p, label, cs.last(), cwd) {
            Some(c) => seq![c],
            None => Seq::empty(),
        }
    }
}

/// The `usb:vid:pid:` prefix of a selector (four lower-case hex digits each).
pub open spec fn usb_prefix(vid: u16, pid: u16) -> Seq<char> {
    "usb:"@ + hex_fixed(vid as nat, 4) + ":"@ + hex_fixed(pid as nat, 4) + ":"@
}

/// The claim on the real device path (none for a blank or `mock:` path).
pub open spec fn path_claim(p: Config, label: Seq<char>) -> Seq<ClaimView> {
    if !is_blank(p.real.path@) && !starts_with(p.real.path@, "mock:"@) {
        seq![plain("real:"@ + key_of(p.real.path@), label + " real.path"@)]
    } else {
        Seq::empty()
    }
}

/// The claim on the USB identity; a selector without a serial number is the
/// wildcard `usb:vid:pid:*`.
pub open spec fn usb_claim(p: Config, label: Seq<char>) -> Seq<ClaimView> {
    match p.real.usb {
        Some(sel) => {
            let prefix = usb_prefix(sel.vid, sel.pid);
            let serial = match sel.serial_number {
                Some(s) => s@,
                None => "*"@,
            };
            seq![ClaimView { key: prefix + key_of(serial), owner: label + " real.usb"@, usb: Some((prefix, sel.serial_number is None)) }]
        },
        None => Seq::empty(),
    }
}

/// The claim on the API listener, when the API is enabled.
pub open spec fn api_claim(p: Config, label: Seq<char>) -> Seq<ClaimView> {
    if p.api.enabled {
        seq![plain("listen:"@ + key_of(p.api.bind@), label + " api.bind"@)]
    } else {
        Seq::empty()
    }
}

/// The claim on the RFC 2217 listener, when it is enabled.
pub open spec fn rfc_claim(p: Config, label: Seq<char>) -> Seq<ClaimView> {
    if p.rfc2217.enabled {
        seq![plain("listen:"@ + key_of(p.rfc2217.bind@), label + " rfc2217.bind"@)]
    } else {
        Seq::empty()
    }
}

/// The claim on the persistent ledger directory, when there is one.
pub open spec fn ledger_claim(p: Config, label: Seq<char>, cwd: Seq<char>) -> Seq<ClaimView> {
    match p.ledger.directory {
        Some(d) => seq![plain("ledger:"@ + key_of(absolute_path(d@, cwd)), label + " ledger.directory"@)],
        None => Seq::empty(),
    }
}

/// The claims of one profile, in order: real path, USB identity, API bind,
/// RFC 2217 bind, ledger directory, then client endpoints.
pub open spec fn profile_claims(p: Config, index: nat, cwd: Seq<char>) -> Seq<ClaimView> {
    let label = label_of(index);
    path_claim(p, label) + usb_claim(p, label) + api_claim(p, label) + rfc_claim(p, label)
        + ledger_claim(p, label, cwd) + client_claims(p, label, p.clients@, cwd)
}

/// The claims of all profiles, in order.
pub open spec fn all_claims(ps: Seq<Config>, cwd: Seq<char>) -> Seq<ClaimView>
    decreases ps.len(),
{
    if ps.len() == 0 {
        Seq::empty()
    } else {
        all_claims(ps.drop_last(), cwd) + profile_claims(ps.last(), (ps.len() - 1) as nat, cwd)
    }
}

/// The first configuration error among profiles, in order.
pub open spec fn first_config_error(ps: Seq<Config>) -> Option<Seq<char>>
    decreases ps.len(),
{
    if ps.len() == 0 {
        None
    } else {
        match first_config_error(ps.drop_last()) {
            Some(e) => Some(e),
            None => config_error(ps.last()),
        }
    }
}

/// Why a set of profiles cannot run together, if it cannot.
pub open spec fn profiles_fault(ps: Seq<Config>, cwd: Seq<char>) -> Option<Seq<char>> {
    if ps.len() == 0 {
        Some("supervise requires at least one profile"@)
    } else if first_config_error(ps) is Some {
        first_config_error(ps)
    } else {
        match grant_all(all_claims(ps, cwd)) {
            Err(e) => Some(e),
            Ok(_) => None,
        }
    }
}

fn push_plain(out: &mut Vec<Claim>, key: String, owner: String)
    ensures
        claims_of(final(out)@) == claims_of(old(out)@).push(plain(key@, owner@)),
        claims_of(final(out)@) == claims_of(old(out)@) + seq![plain(key@, owner@)],
{
    let ghost before = claims_of(out@);
    out.push(Claim { key, owner, usb: None });
    assert(claims_of(out@) =~= before.push(plain(key@, owner@)));
    assert(claims_of(out@) =~= before + seq![plain(key@, owner@)]);
}

fn join(a: &str, b: &str, c: &str) -> (s: String)
    ensures
        s@ == a@ + b@ + c@,
{
    let x = concat_strs(a, b);
    concat_strs(x.as_str(), c)
}

spec fn claims_of(v: Seq<Claim>) -> Seq<ClaimView> {
    v.map_values(|c: Claim| c@)
}

fn push_path_claim(p: &Config, label: &str, out: &mut Vec<Claim>)
    ensures
        claims_of(final(out)@) == claims_of(old(out)@) + path_claim(*p, label@),
{
    let path = chars_of(p.real.path.as_str());
    let mock = chars_of("mock:");
    if !blank(path.as_slice()) && !chars_start_with(path.as_slice(), mock.as_slice()) {
        let key = concat_strs("real:", normalize_key(p.real.path.as_str()).as_str());
        push_plain(out, key, concat_strs(label, " real.path"));
    }
}

fn push_usb_claim(p: &Config, label: &str, out: &mut Vec<Claim>)
    ensures
        claims_of(final(out)@) == claims_of(old(out)@) + usb_claim(*p, label@),
{
    match &p.real.usb {
        Some(sel) => {
            let vid = string_from_chars(hex_fixed_chars(sel.vid as u64, 4).as_slice());
            let pid = string_from_chars(hex_fixed_chars(sel.pid as u64, 4).as_slice());
            let a = join("usb:", vid.as_str(), ":");
            let prefix = join(a.as_str(), pid.as_str(), ":");
            let serial = match &sel.serial_number {
                Some(s) => normalize_key(s.as_str()),
                None => normalize_key("*"),
            };
            let key = concat_strs(prefix.as_str(), serial.as_str());
            let ghost before = claims_of(out@);
            out.push(Claim {
                key,
                owner: concat_strs(label, " real.usb"),
                usb: Some((prefix, sel.serial_number.is_none())),
            });
            proof {
                reveal_strlit("*");
                assert(claims_of(out@) =~= before.push(out@.last()@));
                assert(claims_of(out@) =~= before + usb_claim(*p, label@));
            }
        },
        None => {
            assert(claims_of(out@) =~= claims_of(out@) + usb_claim(*p, label@));
        },
    }
}

fn push_listener_claims(p: &Config, label: &str, out: &mut Vec<Claim>)
    ensures
        claims_of(final(out)@) == claims_of(old(out)@) + api_claim(*p, label@) + rfc_claim(*p, label@),
{
    let ghost start = claims_of(out@);
    if p.api.enabled {
        let key = concat_strs("listen:", normalize_key(p.api.bind.as_str()).as_str());
        push_plain(out, key, concat_strs(label, " api.bind"));
    }
    assert(claims_of(out@) =~= start + api_claim(*p, label@));
    let ghost mid = claims_of(out@);
    if p.rfc2217.enabled {
        let key = concat_strs("listen:", normalize_key(p.rfc2217.bind.as_str()).as_str());
        push_plain(out, key, concat_strs(label, " rfc2217.bind"));
    }
    assert(claims_of(out@) =~= mid + rfc_claim(*p, label@));
}

fn push_ledger_claim(p: &Config, label: &str, cwd: &str, out: &mut Vec<Claim>)
    ensures
        claims_of(final(out)@) == claims_of(old(out)@) + ledger_claim(*p, label@, cwd@),
{
    match &p.ledger.directory {
        Some(d) => {
            let key = concat_strs("ledger:", normalize_path(d.as_str(), cwd).as_str());
            push_plain(out, key, concat_strs(label, " ledger.directory"));
        },
        None => {
            assert(claims_of(out@) =~= claims_of(out@) + ledger_claim(*p, label@, cwd@));
        },
    }
}

fn push_client_claim(p: &Config, c: &ClientConfig, label: &str, cwd: &str, out: &mut Vec<Claim>)
    ensures
        claims_of(final(out)@) == claims_of(old(out)@) + match client_claim(*p, label@, *c, cwd@) {
            Some(x) => seq![x],
            None => Seq::<ClaimView>::empty(),
        },
{
    let ghost before = claims_of(out@);
    match c {
        ClientConfig::Tcp { name, bind, .. } => {
            let key = concat_strs("listen:", normalize_key(bind.as_str()).as_str());
            let a = join(label, " TCP client '", name.as_str());
            push_plain(out, key, concat_strs(a.as_str(), "'.bind"));
        },
        ClientConfig::Websocket { name, bind, .. } => {
            match bind {
                Some(b) => {
                    if !p.api.enabled || !str_eq(b.as_str(), p.api.bind.as_str()) {
                        let key = concat_strs("listen:", normalize_key(b.as_str()).as_str());
                        let a = join(label, " WebSocket client '", name.as_str());
                        push_plain(out, key, concat_strs(a.as_str(), "'.bind"));
                    } else {
                        assert(claims_of(out@) =~= before + Seq::<ClaimView>::empty());
                    }
                },
                None => {
                    assert(claims_of(out@) =~= before + Seq::<ClaimView>::empty());
                },
            }
        },
        ClientConfig::Pty { name, link, .. } => {
            let key = concat_strs("pty:", normalize_path(link.as_str(), cwd).as_str());
            let a = join(label, " PTY client '", name.as_str());
            push_plain(out, key, concat_strs(a.as_str(), "'.link"));
        },
    }
}

fn push_client_claims(p: &Config, label: &str, cwd: &str, out: &mut Vec<Claim>)
    ensures
        claims_of(final(out)@) == claims_of(old(out)@) + client_claims(*p, label@, p.clients@, cwd@),
{
    let ghost start = claims_of(out@);
    let mut i: usize = 0;
    while i < p.clients.len()
        invariant
            i <= p.clients@.len(),
            claims_of(out@) == start + client_claims(*p, label@, p.clients@.subrange(0, i as int), cwd@),
        decreases p.clients@.len() - i,
    {
        proof {
            assert(p.clients@.subrange(0, i + 1).drop_last() =~= p.clients@.subrange(0, i as int));
        }
        let ghost before = claims_of(out@);
        push_client_claim(p, &p.clients[i], label, cwd, out);
        proof {
            let cl = client_claims(*p, label@, p.clients@.subrange(0, i as int), cwd@);
            let extra = match client_claim(*p, label@, p.clients@[i as int], cwd@) {
                Some(c) => seq![c],
                None => Seq::<ClaimView>::empty(),
            };
            assert(start + cl + extra =~= start + (cl + extra));
        }
        i = i + 1;
    }
    proof {
        assert(p.clients@.subrange(0, i as int) =~= p.clients@);
    }
}

proof fn lemma_append_parts(
    start: Seq<ClaimView>,
    a: Seq<ClaimView>,
    b: Seq<ClaimView>,
    c: Seq<ClaimView>,
    d: Seq<ClaimView>,
    e: Seq<ClaimView>,
    f: Seq<ClaimView>,
)
    ensures
        start + a + b + c + d + e + f == start + (a + b + c + d + e + f),
{
    assert(start + a + b + c + d + e + f =~= start + (a + b + c + d + e + f));
}

/// Append the claims of `p` (profile `index`) to `out`.
fn collect_claims(p: &Config, index: usize, cwd: &str, out: &mut Vec<Claim>)
    requires
        index < usize::MAX,
    ensures
        claims_of(final(out)@) == claims_of(old(out)@) + profile_claims(*p, index as nat, cwd@),
{
    let ghost start = claims_of(out@);
    let label = concat_strs("profile #", decimal_string((index + 1) as u64).as_str());
    let ghost lv = label_of(index as nat);
    assert(label@ == lv);
    push_path_claim(p, label.as_str(), out);
    push_usb_claim(p, label.as_str(), out);
    push_listener_claims(p, label.as_str(), out);
    push_ledger_claim(p, label.as_str(), cwd, out);
    push_client_claims(p, label.as_str(), cwd, out);
    proof {
        lemma_append_parts(
            start,
            path_claim(*p, lv),
            usb_claim(*p, lv),
            api_claim(*p, lv),
            rfc_claim(*p, lv),
            ledger_claim(*p, lv, cwd@),
            client_claims(*p, lv, p.clients@, cwd@),
        );
    }
}

proof fn lemma_config_error_prefix(ps: Seq<Config>, n: int)
    requires
        0 <= n <= ps.len(),
        first_config_error(ps.subrange(0, n)) is Some,
    ensures
        first_config_error(ps) == first_config_error(ps.subrange(0, n)),
    decreases ps.len(),
{
    if n < ps.len() {
        assert(ps.drop_last().subrange(0, n) =~= ps.subrange(0, n));
        lemma_config_error_prefix(ps.drop_last(), n);
    } else {
        assert(ps.subrange(0, n) =~= ps);
    }
}

proof fn lemma_grant_error_prefix(cs: Seq<ClaimView>, n: int)
    requires
        0 <= n <= cs.len(),
        grant_all(cs.subrange(0, n)) is Err,
    ensures
        grant_all(cs) == grant_all(cs.subrange(0, n)),
    decreases cs.len(),
{
    if n < cs.len() {
        assert(cs.drop_last().subrange(0, n) =~= cs.subrange(0, n));
        lemma_grant_error_prefix(cs.drop_last(), n);
    } else {
        assert(cs.subrange(0, n) =~= cs);
    }
}

proof fn lemma_grant_step(cs: Seq<ClaimView>, j: int)
    requires
        0 <= j < cs.len(),
    ensures
        grant_all(cs.subrange(0, j + 1)) == match grant_all(cs.subrange(0, j)) {
            Ok(t) => grant(t, cs[j]),
            Err(e) => Err(e),
        },
{
    assert(cs.subrange(0, j + 1).drop_last() =~= cs.subrange(0, j));
}

fn prefix_clash(table: &Vec<(String, String)>, prefix: &str) -> (r: bool)
    ensures
        r == prefix_taken(table_view(table@), prefix@),
{
    let wildcard = concat_strs(prefix, "*");
    let pc = chars_of(prefix);
    proof {
        reveal_strlit("*");
    }
    let mut i: usize = 0;
    while i < table.len()
        invariant
            i <= table@.len(),
            wildcard@ == prefix@ + "*"@,
            pc@ == prefix@,
            forall|k: int| 0 <= k < i ==> !(table_view(table@)[k].0 == prefix@ + "*"@ || starts_with(table_view(table@)[k].0, prefix@)),
        decreases table@.len() - i,
    {
        let kc = chars_of(table[i].0.as_str());
        if str_eq(table[i].0.as_str(), wildcard.as_str()) || chars_start_with(kc.as_slice(), pc.as_slice()) {
            proof {
                let t = table_view(table@);
                assert(t[i as int].0 == table@[i as int].0@);
            }
            return true;
        }
        i = i + 1;
    }
    false
}

fn join_owner(owner: &str, tail: &str) -> (s: String)
    ensures
        s@ == "resource collision: "@ + owner@ + tail@,
{
    join("resource collision: ", owner, tail)
}

/// Grant one claim against the table of granted resources.
fn grant_claim(table: &mut Vec<(String, String)>, c: &Claim) -> (r: Result<(), String>)
    requires
        unique_keys(table_view(old(table)@)),
    ensures
        unique_keys(table_view(final(table)@)),
        match grant(table_view(old(table)@), c@) {
            Ok(t) => r is Ok && table_view(final(table)@) == t,
            Err(m) => r matches Err(e) && e@ == m,
        },
{
    match &c.usb {
        Some((prefix, any_serial)) => {
            if *any_serial {
                if prefix_clash(table, prefix.as_str()) {
                    return Err(join_owner(c.owner.as_str(), " conflicts with another selector"));
                }
            } else {
                let wildcard = concat_strs(prefix.as_str(), "*");
                match find_key(table, wildcard.as_str()) {
                    Some(i) => {
                        proof {
                            assert(table_view(table@)[i as int].0 == wildcard@);
                        }
                        return Err(join_owner(c.owner.as_str(), " conflicts with a wildcard selector"));
                    },
                    None => {
                        proof {
                            let t = table_view(table@);
                            assert forall|k: int| 0 <= k < t.len() implies t[k].0 != wildcard@ by {
                                assert(table@[k].0@ != wildcard@);
                            }
                        }
                    },
                }
            }
        },
        None => {},
    }
    claim(table, owned(c.key.as_str()), owned(c.owner.as_str()))
}

/// Check resources that are process-global rather than hub-local: every
/// profile must be valid on its own, and no two may claim the same real
/// device, USB identity, listening address, ledger directory or PTY link.
/// Relative paths are made absolute against `cwd`.
pub fn validate_profiles(profiles: &[Config], cwd: &str) -> (r: Result<(), String>)
    ensures
        match profiles_fault(profiles@, cwd@) {
            Some(m) => r matches Err(e) && e@ == m,
            None => r is Ok,
        },
{
    if profiles.len() == 0 {
        return Err(owned("supervise requires at least one profile"));
    }
    let mut i: usize = 0;
    while i < profiles.len()
        invariant
            i <= profiles@.len(),
            first_config_error(profiles@.subrange(0, i as int)) is None,
        decreases profiles@.len() - i,
    {
        proof {
            assert(profiles@.subrange(0, i + 1).drop_last() =~= profiles@.subrange(0, i as int));
        }
        match profiles[i].validate() {
            Err(e) => {
                proof {
                    lemma_config_error_prefix(profiles@, i + 1);
                }
                return Err(e);
            },
            Ok(()) => {},
        }
        i = i + 1;
    }
    proof {
        assert(profiles@.subrange(0, i as int) =~= profiles@);
    }
    let mut claims: Vec<Claim> = Vec::new();
    let mut n: usize = 0;
    while n < profiles.len()
        invariant
            n <= profiles@.len(),
            profiles@.len() > 0,
            first_config_error(profiles@) is None,
            claims_of(claims@) == all_claims(profiles@.subrange(0, n as int), cwd@),
        decreases profiles@.len() - n,
    {
        proof {
            assert(profiles@.subrange(0, n + 1).drop_last() =~= profiles@.subrange(0, n as int));
        }
        collect_claims(&profiles[n], n, cwd, &mut claims);
        n = n + 1;
    }
    proof {
        assert(profiles@.subrange(0, n as int) =~= profiles@);
        assert(claims_of(claims@) == all_claims(profiles@, cwd@));
    }
    let ghost cs = claims_of(claims@);
    let mut table: Vec<(String, String)> = Vec::new();
    proof {
        assert(table_view(table@) =~= Seq::<(Seq<char>, Seq<char>)>::empty());
        assert(cs.subrange(0, 0) =~= Seq::<ClaimView>::empty());
    }
    let mut j: usize = 0;
    while j < claims.len()
        invariant
            j <= claims@.len(),
            cs == claims_of(claims@),
            cs == all_claims(profiles@, cwd@),
            profiles@.len() > 0,
            first_config_error(profiles@) is None,
            unique_keys(table_view(table@)),
            grant_all(cs.subrange(0, j as int)) == Ok::<Granted, Seq<char>>(table_view(table@)),
        decreases claims@.len() - j,
    {
        proof {
            lemma_grant_step(cs, j as int);
            assert(cs[j as int] == claims@[j as int]@);
        }
        match grant_claim(&mut table, &claims[j]) {
            Err(e) => {
                proof {
                    lemma_grant_error_prefix(cs, j + 1);
                }
                return Err(e);
            },
            Ok(()) => {},
        }
        j = j + 1;
    }
    proof {
        assert(cs.subrange(0, j as int) =~= cs);
    }
    Ok(())
}

proof fn lemma_grant_all_ok(claims: Seq<ClaimView>)
    ensures
        grant_all(claims) matches Ok(t) ==> unique_keys(t) && t.len() == claims.len() && forall|k: int|
            0 <= k < claims.len() ==> #[trigger] t[k].0 == claims[k].key,
    decreases claims.len(),
{
    if claims.len() > 0 {
        let p = claims.drop_last();
        lemma_grant_all_ok(p);
        if let Ok(t0) = grant_all(p) {
            lemma_grant_keeps_unique(t0, claims.last());
            if let Ok(t) = grant(t0, claims.last()) {
                assert forall|k: int| 0 <= k < claims.len() implies #[trigger] t[k].0 == claims[k].key by {
                    if k < p.len() {
                        assert(t[k] == t0[k]);
                        assert(claims[k] == p[k]);
                    }
                }
            }
        }
    }
}

/// Whether claim `c`, made after a claim on the resource `earlier`, can
/// be granted as far as that earlier claim goes: a different key, and for
/// a USB selector no clash with a wildcard (or, for a wildcard, with any
/// selector of the same device).
pub open spec fn compatible(earlier: Seq<char>, c: ClaimView) -> bool {
    &&& earlier != c.key
    &&& match c.usb {
        Some((prefix, true)) => !(earlier == prefix + "*"@ || starts_with(earlier, prefix)),
        Some((prefix, false)) => earlier != prefix + "*"@,
        None => true,
    }
}

proof fn lemma_grant_pairwise(table: Granted, c: ClaimView)
    ensures
        (grant(table, c) is Ok) == (forall|k: int| 0 <= k < table.len() ==> compatible(#[trigger] table[k].0, c)),
{
    if forall|k: int| 0 <= k < table.len() ==> compatible(#[trigger] table[k].0, c) {
        match c.usb {
            Some((prefix, true)) => {
                assert(!prefix_taken(table, prefix)) by {
                    if prefix_taken(table, prefix) {
                        let k = choose|k: int| 0 <= k < table.len() && (table[k].0 == prefix + "*"@ || starts_with(table[k].0, prefix));
                        assert(compatible(table[k].0, c));
                    }
                }
            },
            Some((prefix, false)) => {
                assert(!key_taken(table, prefix + "*"@)) by {
                    if key_taken(table, prefix + "*"@) {
                        let k = choose|k: int| 0 <= k < table.len() && table[k].0 == prefix + "*"@;
                        assert(compatible(table[k].0, c));
                    }
                }
            },
            None => {},
        }
        assert(!key_taken(table, c.key)) by {
            if key_taken(table, c.key) {
                let k = choose|k: int| 0 <= k < table.len() && table[k].0 == c.key;
                assert(compatible(table[k].0, c));
            }
        }
    } else {
        let k = choose|k: int| 0 <= k < table.len() && !compatible(#[trigger] table[k].0, c);
        if table[k].0 == c.key {
            assert(key_taken(table, c.key));
        }
        match c.usb {
            Some((prefix, true)) => {
                if table[k].0 == prefix + "*"@ || starts_with(table[k].0, prefix) {
                    assert(prefix_taken(table, prefix));
                }
            },
            Some((prefix, false)) => {
                if table[k].0 == prefix + "*"@ {
                    assert(key_taken(table, prefix + "*"@));
                }
            },
            None => {},
        }
    }
}

/// Granting claims in order succeeds exactly when every claim is
/// compatible with every claim before it.
proof fn lemma_grant_all_pairwise(cs: Seq<ClaimView>)
    ensures
        (grant_all(cs) is Ok) == (forall|i: int, j: int|
            0 <= i < j < cs.len() ==> compatible((#[trigger] cs[i]).key, #[trigger] cs[j])),
    decreases cs.len(),
{
    if cs.len() > 0 {
        let p = cs.drop_last();
        let c = cs.last();
        lemma_grant_all_pairwise(p);
        lemma_grant_all_ok(p);
        if grant_all(p) is Ok {
            let t = grant_all(p)->Ok_0;
            lemma_grant_pairwise(t, c);
            if grant_all(cs) is Ok {
                assert forall|i: int, j: int| 0 <= i < j < cs.len() implies compatible((#[trigger] cs[i]).key, #[trigger] cs[j]) by {
                    if j < p.len() {
                        assert(cs[i] == p[i] && cs[j] == p[j]);
                        assert(compatible(p[i].key, p[j]));
                    } else {
                        assert(cs[i] == p[i]);
                        assert(t[i].0 == p[i].key);
                        assert(compatible(t[i].0, c));
                    }
                }
            } else {
                let k = choose|k: int| 0 <= k < t.len() && !compatible(#[trigger] t[k].0, c);
                assert(t[k].0 == p[k].key);
                assert(cs[k] == p[k] && cs[cs.len() - 1] == c);
                assert(!compatible(cs[k].key, cs[cs.len() - 1]));
            }
        } else {
            let (i, j) = choose|i: int, j: int| 0 <= i < j < p.len() && !compatible((#[trigger] p[i]).key, #[trigger] p[j]);
            assert(cs[i] == p[i] && cs[j] == p[j]);
            assert(!compatible(cs[i].key, cs[j]));
        }
    }
}

/// Acceptance is decided pair by pair: profiles pass validation exactly
/// when there is at least one, each is valid on its own, and every claim
/// they make is compatible with every claim made before it.
pub proof fn law_acceptance_is_pairwise(ps: Seq<Config>, cwd: Seq<char>)
    ensures
        (profiles_fault(ps, cwd) is None) == (ps.len() > 0 && first_config_error(ps) is None && forall|i: int, j: int|
            0 <= i < j < all_claims(ps, cwd).len() ==> compatible(
                (#[trigger] all_claims(ps, cwd)[i]).key,
                #[trigger] all_claims(ps, cwd)[j],
            )),
{
    lemma_grant_all_pairwise(all_claims(ps, cwd));
}

#[verifier::spinoff_prover]
#[verifier::rlimit(50)]
proof fn lemma_each_config_valid(ps: Seq<Config>)
    requires
        first_config_error(ps) is None,
    ensures
        forall|i: int| 0 <= i < ps.len() ==> #[trigger] config_error(ps[i]) is None,
    decreases ps.len(),
{
    if ps.len() > 0 {
        lemma_each_config_valid(ps.drop_last());
        assert forall|i: int| 0 <= i < ps.len() implies #[trigger] config_error(ps[i]) is None by {
            if i < ps.len() - 1 {
                assert(ps.drop_last()[i] == ps[i]);
            }
        }
    }
}

/// Profiles that pass validation are at least one, each valid on its own,
/// and share no resource: every claim they make is granted, and no two
/// claims name the same normalised resource key (trimmed, ASCII lower-case,
/// paths made absolute): each non-mock `real.path`, USB identity, enabled
/// `api.bind` and `rfc2217.bind`, TCP bind, WebSocket bind other than its
/// profile's enabled API bind, PTY link and ledger directory.
pub proof fn law_accepted_profiles_share_nothing(ps: Seq<Config>, cwd: Seq<char>)
    requires
        profiles_fault(ps, cwd) is None,
    ensures
        ps.len() > 0,
        forall|i: int| 0 <= i < ps.len() ==> #[trigger] config_error(ps[i]) is None,
        grant_all(all_claims(ps, cwd)) is Ok,
        forall|i: int, j: int|
            0 <= i < j < all_claims(ps, cwd).len() ==> all_claims(ps, cwd)[i].key != all_claims(ps, cwd)[j].key,
{
    lemma_each_config_valid(ps);
    let cs = all_claims(ps, cwd);
    lemma_grant_all_ok(cs);
    let t = grant_all(cs)->Ok_0;
    assert forall|i: int, j: int| 0 <= i < j < cs.len() implies cs[i].key != cs[j].key by {
        assert(t[i].0 == cs[i].key);
        assert(t[j].0 == cs[j].key);
    }
}


/// No USB selector names the serial number `*` literally (after trimming
/// and ASCII lower-casing), the spelling the wildcard itself is keyed by.
pub open spec fn no_literal_star_serial(ps: Seq<Config>) -> bool {
    forall|i: int|
        0 <= i < ps.len() ==> match (#[trigger] ps[i]).real.usb {
            Some(sel) => match sel.serial_number {
                Some(sn) => key_of(sn@) != "*"@,
                None => true,
            },
            None => true,
        }
}

/// The shape of a claim that the collision rules rely on: a plain key never
/// begins with `u`; a USB key begins with its 14-character `usb:vid:pid:`
/// prefix, and is the wildcard key exactly when the selector is one.
pub open spec fn well_shaped(c: ClaimView) -> bool {
    match c.usb {
        None => c.key.len() > 0 && c.key[0] != 'u',
        Some((p, w)) => p.len() == 14 && p[0] == 'u' && starts_with(c.key, p) && (w <==> c.key == p + "*"@),
    }
}

proof fn lemma_compatible_symmetric(a: ClaimView, b: ClaimView)
    requires
        well_shaped(a),
        well_shaped(b),
    ensures
        compatible(a.key, b) == compatible(b.key, a),
{
    reveal_strlit("*");
    match (a.usb, b.usb) {
        (None, None) => {},
        (None, Some((q, wb))) => {
            assert(b.key[0] == q[0]) by {
                assert(b.key.subrange(0, 14)[0] == q[0]);
            }
            assert((q + "*"@)[0] == q[0]);
            assert(!starts_with(a.key, q)) by {
                if starts_with(a.key, q) {
                    assert(a.key.subrange(0, 14)[0] == a.key[0]);
                }
            }
        },
        (Some((p, wa)), None) => {
            assert(a.key[0] == p[0]) by {
                assert(a.key.subrange(0, 14)[0] == p[0]);
            }
            assert((p + "*"@)[0] == p[0]);
            assert(!starts_with(b.key, p)) by {
                if starts_with(b.key, p) {
                    assert(b.key.subrange(0, 14)[0] == b.key[0]);
                }
            }
        },
        (Some((p, wa)), Some((q, wb))) => {
            assert((p + "*"@).subrange(0, 14) =~= p);
            assert((q + "*"@).subrange(0, 14) =~= q);
            assert(a.key.subrange(0, 14) == p);
            assert(b.key.subrange(0, 14) == q);
            if p != q {
                assert(a.key != b.key);
                assert(a.key != q + "*"@);
                assert(b.key != p + "*"@);
                assert(!starts_with(a.key, q));
                assert(!starts_with(b.key, p));
            } else {
                assert(starts_with(a.key, q));
                assert(starts_with(b.key, p));
            }
        },
    }
}

/// Two claim lists with the same keys and USB details, position by position.
pub open spec fn same_shapes(x: Seq<ClaimView>, y: Seq<ClaimView>) -> bool {
    &&& x.len() == y.len()
    &&& forall|k: int| 0 <= k < x.len() ==> (#[trigger] x[k]).key == y[k].key && x[k].usb == y[k].usb
}

proof fn lemma_same_shapes_concat(x1: Seq<ClaimView>, y1: Seq<ClaimView>, x2: Seq<ClaimView>, y2: Seq<ClaimView>)
    requires
        same_shapes(x1, y1),
        same_shapes(x2, y2),
    ensures
        same_shapes(x1 + x2, y1 + y2),
{
    assert forall|k: int| 0 <= k < (x1 + x2).len() implies (#[trigger] (x1 + x2)[k]).key == (y1 + y2)[k].key
        && (x1 + x2)[k].usb == (y1 + y2)[k].usb by {
        if k < x1.len() {
            assert((x1 + x2)[k] == x1[k] && (y1 + y2)[k] == y1[k]);
        } else {
            assert((x1 + x2)[k] == x2[k - x1.len()] && (y1 + y2)[k] == y2[k - y1.len()]);
        }
    }
}

proof fn lemma_client_claims_shapes(p: Config, l1: Seq<char>, l2: Seq<char>, cs: Seq<ClientConfig>, cwd: Seq<char>)
    ensures
        same_shapes(client_claims(p, l1, cs, cwd), client_claims(p, l2, cs, cwd)),
        forall|k: int| 0 <= k < client_claims(p, l1, cs, cwd).len() ==> well_shaped(#[trigger] client_claims(p, l1, cs, cwd)[k]),
    decreases cs.len(),
{
    reveal_strlit("listen:");
    reveal_strlit("pty:");
    if cs.len() > 0 {
        lemma_client_claims_shapes(p, l1, l2, cs.drop_last(), cwd);
        let t1 = match client_claim(p, l1, cs.last(), cwd) {
            Some(c) => seq![c],
            None => Seq::<ClaimView>::empty(),
        };
        let t2 = match client_claim(p, l2, cs.last(), cwd) {
            Some(c) => seq![c],
            None => Seq::<ClaimView>::empty(),
        };
        match client_claim(p, l1, cs.last(), cwd) {
            Some(c) => {
                assert(c.key.len() > 0 && c.key[0] != 'u') by {
                    match cs.last() {
                        ClientConfig::Tcp { bind, .. } => {
                            assert(c.key == "listen:"@ + key_of(bind@));
                            assert(("listen:"@ + key_of(bind@))[0] == 'l');
                        },
                        ClientConfig::Websocket { bind, .. } => {
                            assert(c.key == "listen:"@ + key_of(bind.unwrap()@));
                            assert(("listen:"@ + key_of(bind.unwrap()@))[0] == 'l');
                        },
                        ClientConfig::Pty { link, .. } => {
                            assert(("pty:"@ + key_of(absolute_path(link@, cwd)))[0] == 'p');
                        },
                    }
                }
            },
            None => {},
        }
        assert(same_shapes(t1, t2));
        lemma_same_shapes_concat(
            client_claims(p, l1, cs.drop_last(), cwd),
            client_claims(p, l2, cs.drop_last(), cwd),
            t1,
            t2,
        );
        let all = client_claims(p, l1, cs, cwd);
        let prev = client_claims(p, l1, cs.drop_last(), cwd);
        assert forall|k: int| 0 <= k < all.len() implies well_shaped(#[trigger] all[k]) by {
            if k < prev.len() {
                assert(all[k] == prev[k]);
            } else {
                assert(all[k] == t1[k - prev.len()]);
            }
        }
    }
}

proof fn lemma_hex_fixed_len(n: nat, w: nat)
    ensures
        hex_fixed(n, w).len() == w,
    decreases w,
{
    if w > 0 {
        lemma_hex_fixed_len(n / 16, (w - 1) as nat);
    }
}

proof fn lemma_star_key()
    ensures
        key_of("*"@) == "*"@,
{
    reveal_strlit("*");
    let s = "*"@;
    assert(!crate::text::is_space_char(s[0]));
    assert(crate::text::leading_space(s) == 0);
    assert(crate::text::trailing_space(s) == 0) by {
        reveal_with_fuel(crate::text::trailing_space, 2);
    }
    assert(trim_seq(s) =~= s);
    assert(ascii_lower_seq(s) =~= s);
}

/// The keys and USB details of a profile's claims do not depend on its
/// position; under `no_literal_star_serial` every one of them is well shaped.
proof fn lemma_profile_claims_shapes(p: Config, i: nat, j: nat, cwd: Seq<char>)
    requires
        no_literal_star_serial(seq![p]),
    ensures
        same_shapes(profile_claims(p, i, cwd), profile_claims(p, j, cwd)),
        forall|k: int| 0 <= k < profile_claims(p, i, cwd).len() ==> well_shaped(#[trigger] profile_claims(p, i, cwd)[k]),
{
    reveal_strlit("real:");
    reveal_strlit("listen:");
    reveal_strlit("ledger:");
    reveal_strlit("usb:");
    reveal_strlit(":");
    reveal_strlit("*");
    let (li, lj) = (label_of(i), label_of(j));
    lemma_client_claims_shapes(p, li, lj, p.clients@, cwd);
    let head_i = path_claim(p, li) + usb_claim(p, li) + api_claim(p, li) + rfc_claim(p, li) + ledger_claim(p, li, cwd);
    let head_j = path_claim(p, lj) + usb_claim(p, lj) + api_claim(p, lj) + rfc_claim(p, lj) + ledger_claim(p, lj, cwd);
    assert(same_shapes(head_i, head_j)) by {
        assert(same_shapes(path_claim(p, li), path_claim(p, lj)));
        assert(same_shapes(usb_claim(p, li), usb_claim(p, lj)));
        assert(same_shapes(api_claim(p, li), api_claim(p, lj)));
        assert(same_shapes(rfc_claim(p, li), rfc_claim(p, lj)));
        assert(same_shapes(ledger_claim(p, li, cwd), ledger_claim(p, lj, cwd)));
        lemma_same_shapes_concat(path_claim(p, li), path_claim(p, lj), usb_claim(p, li), usb_claim(p, lj));
        lemma_same_shapes_concat(
            path_claim(p, li) + usb_claim(p, li),
            path_claim(p, lj) + usb_claim(p, lj),
            api_claim(p, li),
            api_claim(p, lj),
        );
        lemma_same_shapes_concat(
            path_claim(p, li) + usb_claim(p, li) + api_claim(p, li),
            path_claim(p, lj) + usb_claim(p, lj) + api_claim(p, lj),
            rfc_claim(p, li),
            rfc_claim(p, lj),
        );
        lemma_same_shapes_concat(
            path_claim(p, li) + usb_claim(p, li) + api_claim(p, li) + rfc_claim(p, li),
            path_claim(p, lj) + usb_claim(p, lj) + api_claim(p, lj) + rfc_claim(p, lj),
            ledger_claim(p, li, cwd),
            ledger_claim(p, lj, cwd),
        );
    }
    lemma_same_shapes_concat(head_i, head_j, client_claims(p, li, p.clients@, cwd), client_claims(p, lj, p.clients@, cwd));
    assert(head_i + client_claims(p, li, p.clients@, cwd) =~= profile_claims(p, i, cwd));
    assert(head_j + client_claims(p, lj, p.clients@, cwd) =~= profile_claims(p, j, cwd));
    // every head claim is well shaped
    let pc = path_claim(p, li);
    let uc = usb_claim(p, li);
    let ac = api_claim(p, li);
    let rc = rfc_claim(p, li);
    let dc = ledger_claim(p, li, cwd);
    assert forall|k: int| 0 <= k < pc.len() implies well_shaped(#[trigger] pc[k]) by {
        assert(("real:"@ + key_of(p.real.path@))[0] == 'r');
    }
    assert forall|k: int| 0 <= k < ac.len() implies well_shaped(#[trigger] ac[k]) by {
        assert(("listen:"@ + key_of(p.api.bind@))[0] == 'l');
    }
    assert forall|k: int| 0 <= k < rc.len() implies well_shaped(#[trigger] rc[k]) by {
        assert(("listen:"@ + key_of(p.rfc2217.bind@))[0] == 'l');
    }
    assert forall|k: int| 0 <= k < dc.len() implies well_shaped(#[trigger] dc[k]) by {
        assert(("ledger:"@ + key_of(absolute_path(p.ledger.directory.unwrap()@, cwd)))[0] == 'l');
    }
    assert forall|k: int| 0 <= k < uc.len() implies well_shaped(#[trigger] uc[k]) by {
        let sel = p.real.usb.unwrap();
        let prefix = usb_prefix(sel.vid, sel.pid);
        lemma_hex_fixed_len(sel.vid as nat, 4);
        lemma_hex_fixed_len(sel.pid as nat, 4);
        assert(prefix.len() == 14);
        assert(prefix[0] == 'u');
        assert(seq![p][0] == p);
        lemma_star_key();
        let serial = match sel.serial_number {
            Some(sn) => sn@,
            None => "*"@,
        };
        let key = prefix + key_of(serial);
        assert(key.subrange(0, 14) =~= prefix);
        if sel.serial_number is Some {
            assert(key_of(serial) != "*"@);
            assert(key.subrange(14, key.len() as int) =~= key_of(serial));
            assert((prefix + "*"@).subrange(14, 15) =~= "*"@);
            assert(key != prefix + "*"@);
        }
    }
    let all = profile_claims(p, i, cwd);
    assert forall|k: int| 0 <= k < all.len() implies well_shaped(#[trigger] all[k]) by {
        let h1 = pc + uc;
        let h2 = h1 + ac;
        let h3 = h2 + rc;
        let h4 = h3 + dc;
        let cl = client_claims(p, li, p.clients@, cwd);
        assert(all == h4 + cl);
        if k >= h4.len() {
            assert(all[k] == cl[k - h4.len()]);
        } else if k >= h3.len() {
            assert(all[k] == dc[k - h3.len()]);
        } else if k >= h2.len() {
            assert(all[k] == rc[k - h2.len()]);
        } else if k >= h1.len() {
            assert(all[k] == ac[k - h1.len()]);
        } else if k >= pc.len() {
            assert(all[k] == uc[k - pc.len()]);
        } else {
            assert(all[k] == pc[k]);
        }
    }
}

/// Every claim is compatible with every claim before it.
pub open spec fn ordered_ok(cs: Seq<ClaimView>) -> bool {
    forall|i: int, j: int| 0 <= i < j < cs.len() ==> compatible((#[trigger] cs[i]).key, #[trigger] cs[j])
}

/// Every claim of `ys` is compatible with every claim of `xs` made before it.
pub open spec fn cross_ok(xs: Seq<ClaimView>, ys: Seq<ClaimView>) -> bool {
    forall|i: int, j: int| 0 <= i < xs.len() && 0 <= j < ys.len() ==> compatible((#[trigger] xs[i]).key, #[trigger] ys[j])
}

proof fn lemma_ordered_concat(x: Seq<ClaimView>, y: Seq<ClaimView>)
    ensures
        ordered_ok(x + y) == (ordered_ok(x) && ordered_ok(y) && cross_ok(x, y)),
{
    let z = x + y;
    if ordered_ok(z) {
        assert forall|i: int, j: int| 0 <= i < j < x.len() implies compatible((#[trigger] x[i]).key, #[trigger] x[j]) by {
            assert(z[i] == x[i] && z[j] == x[j]);
        }
        assert forall|i: int, j: int| 0 <= i < j < y.len() implies compatible((#[trigger] y[i]).key, #[trigger] y[j]) by {
            assert(z[i + x.len()] == y[i] && z[j + x.len()] == y[j]);
        }
        assert forall|i: int, j: int| 0 <= i < x.len() && 0 <= j < y.len() implies compatible((#[trigger] x[i]).key, #[trigger] y[j]) by {
            assert(z[i] == x[i] && z[j + x.len()] == y[j]);
        }
    }
    if ordered_ok(x) && ordered_ok(y) && cross_ok(x, y) {
        assert forall|i: int, j: int| 0 <= i < j < z.len() implies compatible((#[trigger] z[i]).key, #[trigger] z[j]) by {
            if j < x.len() {
                assert(z[i] == x[i] && z[j] == x[j]);
            } else if i < x.len() {
                assert(z[i] == x[i] && z[j] == y[j - x.len()]);
            } else {
                assert(z[i] == y[i - x.len()] && z[j] == y[j - x.len()]);
            }
        }
    }
}

proof fn lemma_cross_concat_left(x1: Seq<ClaimView>, x2: Seq<ClaimView>, y: Seq<ClaimView>)
    ensures
        cross_ok(x1 + x2, y) == (cross_ok(x1, y) && cross_ok(x2, y)),
{
    let z = x1 + x2;
    if cross_ok(z, y) {
        assert forall|i: int, j: int| 0 <= i < x1.len() && 0 <= j < y.len() implies compatible((#[trigger] x1[i]).key, #[trigger] y[j]) by {
            assert(z[i] == x1[i]);
        }
        assert forall|i: int, j: int| 0 <= i < x2.len() && 0 <= j < y.len() implies compatible((#[trigger] x2[i]).key, #[trigger] y[j]) by {
            assert(z[i + x1.len()] == x2[i]);
        }
    }
    if cross_ok(x1, y) && cross_ok(x2, y) {
        assert forall|i: int, j: int| 0 <= i < z.len() && 0 <= j < y.len() implies compatible((#[trigger] z[i]).key, #[trigger] y[j]) by {
            if i < x1.len() {
                assert(z[i] == x1[i]);
            } else {
                assert(z[i] == x2[i - x1.len()]);
            }
        }
    }
}

proof fn lemma_shapes_keep_ok(x1: Seq<ClaimView>, x2: Seq<ClaimView>, y1: Seq<ClaimView>, y2: Seq<ClaimView>)
    requires
        same_shapes(x1, x2),
        same_shapes(y1, y2),
    ensures
        ordered_ok(x1) == ordered_ok(x2),
        cross_ok(x1, y1) == cross_ok(x2, y2),
{
    assert forall|i: int, j: int| 0 <= i < j < x1.len() implies compatible((#[trigger] x1[i]).key, #[trigger] x1[j])
        == compatible(x2[i].key, x2[j]) by {
        assert(x1[i].key == x2[i].key);
        assert(x1[j].key == x2[j].key && x1[j].usb == x2[j].usb);
    }
    if ordered_ok(x2) {
        assert forall|i: int, j: int| 0 <= i < j < x1.len() implies compatible((#[trigger] x1[i]).key, #[trigger] x1[j]) by {
            assert(compatible(x2[i].key, x2[j]));
        }
    }
    if ordered_ok(x1) {
        assert forall|i: int, j: int| 0 <= i < j < x2.len() implies compatible((#[trigger] x2[i]).key, #[trigger] x2[j]) by {
            assert(compatible(x1[i].key, x1[j]));
        }
    }
    assert forall|i: int, j: int| 0 <= i < x1.len() && 0 <= j < y1.len() implies compatible((#[trigger] x1[i]).key, #[trigger] y1[j])
        == compatible(x2[i].key, y2[j]) by {
        assert(x1[i].key == x2[i].key);
        assert(y1[j].key == y2[j].key && y1[j].usb == y2[j].usb);
    }
    if cross_ok(x2, y2) {
        assert forall|i: int, j: int| 0 <= i < x1.len() && 0 <= j < y1.len() implies compatible((#[trigger] x1[i]).key, #[trigger] y1[j]) by {
            assert(compatible(x2[i].key, y2[j]));
        }
    }
    if cross_ok(x1, y1) {
        assert forall|i: int, j: int| 0 <= i < x2.len() && 0 <= j < y2.len() implies compatible((#[trigger] x2[i]).key, #[trigger] y2[j]) by {
            assert(compatible(x1[i].key, y1[j]));
        }
    }
}

proof fn lemma_cross_symmetric(x: Seq<ClaimView>, y: Seq<ClaimView>)
    requires
        forall|k: int| 0 <= k < x.len() ==> well_shaped(#[trigger] x[k]),
        forall|k: int| 0 <= k < y.len() ==> well_shaped(#[trigger] y[k]),
    ensures
        cross_ok(x, y) == cross_ok(y, x),
{
    assert forall|i: int, j: int| 0 <= i < x.len() && 0 <= j < y.len() implies compatible((#[trigger] x[i]).key, #[trigger] y[j])
        == compatible(y[j].key, x[i]) by {
        lemma_compatible_symmetric(x[i], y[j]);
    }
    if cross_ok(x, y) {
        assert forall|i: int, j: int| 0 <= i < y.len() && 0 <= j < x.len() implies compatible((#[trigger] y[i]).key, #[trigger] x[j]) by {
            assert(compatible(x[j].key, y[i]));
        }
    }
    if cross_ok(y, x) {
        assert forall|i: int, j: int| 0 <= i < x.len() && 0 <= j < y.len() implies compatible((#[trigger] x[i]).key, #[trigger] y[j]) by {
            assert(compatible(y[j].key, x[i]));
        }
    }
}

/// A profile's claims, wherever it stands.
pub open spec fn claims_at_front(p: Config, cwd: Seq<char>) -> Seq<ClaimView> {
    profile_claims(p, 0, cwd)
}

/// Profiles pass the collision checks pair by pair: each profile's own
/// claims in order, and each two profiles' claims against each other.
pub open spec fn profiles_compatible(ps: Seq<Config>, cwd: Seq<char>) -> bool {
    &&& forall|a: int| 0 <= a < ps.len() ==> ordered_ok(claims_at_front(#[trigger] ps[a], cwd))
    &&& forall|a: int, b: int|
        0 <= a < b < ps.len() ==> cross_ok(claims_at_front(#[trigger] ps[a], cwd), claims_at_front(#[trigger] ps[b], cwd))
}

proof fn lemma_single_profile_star(ps: Seq<Config>, a: int)
    requires
        no_literal_star_serial(ps),
        0 <= a < ps.len(),
    ensures
        no_literal_star_serial(seq![ps[a]]),
{
    assert(seq![ps[a]][0] == ps[a]);
}

proof fn lemma_cross_all_claims(ps: Seq<Config>, y: Seq<ClaimView>, cwd: Seq<char>)
    requires
        no_literal_star_serial(ps),
    ensures
        cross_ok(all_claims(ps, cwd), y) == forall|a: int| 0 <= a < ps.len() ==> cross_ok(claims_at_front(#[trigger] ps[a], cwd), y),
    decreases ps.len(),
{
    if ps.len() == 0 {
        assert(all_claims(ps, cwd) =~= Seq::<ClaimView>::empty());
    } else {
        let init = ps.drop_last();
        assert(no_literal_star_serial(init)) by {
            assert forall|i: int| 0 <= i < init.len() implies #[trigger] init[i] == ps[i] by {}
        }
        lemma_cross_all_claims(init, y, cwd);
        let n = ps.len() - 1;
        lemma_single_profile_star(ps, n);
        lemma_profile_claims_shapes(ps[n], n as nat, 0, cwd);
        lemma_cross_concat_left(all_claims(init, cwd), profile_claims(ps[n], n as nat, cwd), y);
        lemma_shapes_keep_ok(profile_claims(ps[n], n as nat, cwd), claims_at_front(ps[n], cwd), y, y);
        assert(same_shapes(y, y));
        if cross_ok(all_claims(ps, cwd), y) {
            assert forall|a: int| 0 <= a < ps.len() implies cross_ok(claims_at_front(#[trigger] ps[a], cwd), y) by {
                if a < n {
                    assert(init[a] == ps[a]);
                }
            }
        }
        if forall|a: int| 0 <= a < ps.len() ==> cross_ok(claims_at_front(#[trigger] ps[a], cwd), y) {
            assert forall|a: int| 0 <= a < init.len() implies cross_ok(claims_at_front(#[trigger] init[a], cwd), y) by {
                assert(init[a] == ps[a]);
            }
            assert(cross_ok(claims_at_front(ps[n], cwd), y));
        }
    }
}

proof fn lemma_all_claims_ordered(ps: Seq<Config>, cwd: Seq<char>)
    requires
        no_literal_star_serial(ps),
    ensures
        ordered_ok(all_claims(ps, cwd)) == profiles_compatible(ps, cwd),
    decreases ps.len(),
{
    if ps.len() == 0 {
        assert(all_claims(ps, cwd) =~= Seq::<ClaimView>::empty());
    } else {
        let init = ps.drop_last();
        let n = ps.len() - 1;
        assert(no_literal_star_serial(init)) by {
            assert forall|i: int| 0 <= i < init.len() implies #[trigger] init[i] == ps[i] by {}
        }
        lemma_all_claims_ordered(init, cwd);
        let last = profile_claims(ps[n], n as nat, cwd);
        lemma_single_profile_star(ps, n);
        lemma_profile_claims_shapes(ps[n], n as nat, 0, cwd);
        lemma_ordered_concat(all_claims(init, cwd), last);
        lemma_cross_all_claims(init, last, cwd);
        assert forall|a: int| 0 <= a < init.len() implies cross_ok(claims_at_front(#[trigger] init[a], cwd), last)
            == cross_ok(claims_at_front(init[a], cwd), claims_at_front(ps[n], cwd)) by {
            let x = claims_at_front(init[a], cwd);
            assert(same_shapes(x, x));
            lemma_shapes_keep_ok(x, x, last, claims_at_front(ps[n], cwd));
        }
        lemma_shapes_keep_ok(last, claims_at_front(ps[n], cwd), last, last);
        if ordered_ok(all_claims(ps, cwd)) {
            assert forall|a: int| 0 <= a < ps.len() implies ordered_ok(claims_at_front(#[trigger] ps[a], cwd)) by {
                if a < n {
                    assert(init[a] == ps[a]);
                }
            }
            assert forall|a: int, b: int| 0 <= a < b < ps.len() implies cross_ok(
                claims_at_front(#[trigger] ps[a], cwd),
                claims_at_front(#[trigger] ps[b], cwd),
            ) by {
                assert(init[a] == ps[a]);
                if b < n {
                    assert(init[b] == ps[b]);
                } else {
                    assert(cross_ok(claims_at_front(init[a], cwd), last));
                }
            }
        }
        if profiles_compatible(ps, cwd) {
            assert forall|a: int| 0 <= a < init.len() implies ordered_ok(claims_at_front(#[trigger] init[a], cwd)) by {
                assert(init[a] == ps[a]);
            }
            assert forall|a: int, b: int| 0 <= a < b < init.len() implies cross_ok(
                claims_at_front(#[trigger] init[a], cwd),
                claims_at_front(#[trigger] init[b], cwd),
            ) by {
                assert(init[a] == ps[a] && init[b] == ps[b]);
            }
            assert forall|a: int| 0 <= a < init.len() implies cross_ok(claims_at_front(#[trigger] init[a], cwd), last) by {
                assert(init[a] == ps[a]);
                assert(cross_ok(claims_at_front(ps[a], cwd), claims_at_front(ps[n], cwd)));
            }
            assert(ordered_ok(claims_at_front(ps[n], cwd)));
        }
    }
}

#[verifier::spinoff_prover]
#[verifier::rlimit(50)]
proof fn lemma_config_errors_none(ps: Seq<Config>)
    ensures
        (first_config_error(ps) is None) == forall|i: int| 0 <= i < ps.len() ==> #[trigger] config_error(ps[i]) is None,
    decreases ps.len(),
{
    if ps.len() > 0 {
        let init = ps.drop_last();
        lemma_config_errors_none(init);
        if forall|i: int| 0 <= i < ps.len() ==> #[trigger] config_error(ps[i]) is None {
            assert forall|i: int| 0 <= i < init.len() implies #[trigger] config_error(init[i]) is None by {
                assert(init[i] == ps[i]);
                assert(config_error(ps[i]) is None);
            }
            assert(config_error(ps[ps.len() - 1]) is None);
        }
        if first_config_error(ps) is None {
            lemma_each_config_valid(ps);
        }
    }
}

/// Swapping the roles of any two profiles leaves the pairwise checks as
/// they were: both directions of every pair are checked alike.
proof fn lemma_profiles_compatible_unordered(ps: Seq<Config>, cwd: Seq<char>)
    requires
        no_literal_star_serial(ps),
    ensures
        profiles_compatible(ps, cwd) == ((forall|a: int| 0 <= a < ps.len() ==> ordered_ok(claims_at_front(#[trigger] ps[a], cwd)))
            && forall|a: int, b: int|
            0 <= a < ps.len() && 0 <= b < ps.len() && a != b ==> cross_ok(
                claims_at_front(#[trigger] ps[a], cwd),
                claims_at_front(#[trigger] ps[b], cwd),
            )),
{
    if profiles_compatible(ps, cwd) {
        assert forall|a: int, b: int| 0 <= a < ps.len() && 0 <= b < ps.len() && a != b implies cross_ok(
            claims_at_front(#[trigger] ps[a], cwd),
            claims_at_front(#[trigger] ps[b], cwd),
        ) by {
            if b < a {
                lemma_single_profile_star(ps, a);
                lemma_single_profile_star(ps, b);
                lemma_profile_claims_shapes(ps[a], 0, 0, cwd);
                lemma_profile_claims_shapes(ps[b], 0, 0, cwd);
                lemma_cross_symmetric(claims_at_front(ps[b], cwd), claims_at_front(ps[a], cwd));
            }
        }
    }
}

/// Whether profiles pass validation does not depend on their order: when
/// `qs` lists the profiles of `ps` rearranged (`qs[i]` is `ps[perm[i]]`,
/// `inv` undoing `perm`), both pass or both are refused. A USB serial
/// number spelled `*` is left out: it is keyed like the wildcard selector,
/// and which of the two comes first decides.
pub proof fn law_acceptance_ignores_profile_order(
    ps: Seq<Config>,
    qs: Seq<Config>,
    perm: Seq<int>,
    inv: Seq<int>,
    cwd: Seq<char>,
)
    requires
        qs.len() == ps.len(),
        perm.len() == ps.len(),
        inv.len() == ps.len(),
        forall|i: int| 0 <= i < ps.len() ==> 0 <= #[trigger] perm[i] < ps.len() && inv[perm[i]] == i,
        forall|i: int| 0 <= i < ps.len() ==> 0 <= #[trigger] inv[i] < ps.len() && perm[inv[i]] == i,
        forall|i: int| 0 <= i < ps.len() ==> #[trigger] qs[i] == ps[perm[i]],
        no_literal_star_serial(ps),
    ensures
        (profiles_fault(ps, cwd) is None) == (profiles_fault(qs, cwd) is None),
{
    let n = ps.len();
    assert(no_literal_star_serial(qs)) by {
        assert forall|i: int| 0 <= i < qs.len() implies match (#[trigger] qs[i]).real.usb {
            Some(sel) => match sel.serial_number {
                Some(sn) => key_of(sn@) != "*"@,
                None => true,
            },
            None => true,
        } by {
            assert(qs[i] == ps[perm[i]]);
        }
    }
    lemma_grant_all_pairwise(all_claims(ps, cwd));
    lemma_grant_all_pairwise(all_claims(qs, cwd));
    lemma_all_claims_ordered(ps, cwd);
    lemma_all_claims_ordered(qs, cwd);
    lemma_profiles_compatible_unordered(ps, cwd);
    lemma_profiles_compatible_unordered(qs, cwd);
    lemma_config_errors_none(ps);
    lemma_config_errors_none(qs);
    // configuration errors
    if forall|i: int| 0 <= i < n ==> #[trigger] config_error(ps[i]) is None {
        assert forall|i: int| 0 <= i < n implies #[trigger] config_error(qs[i]) is None by {
            assert(qs[i] == ps[perm[i]]);
            assert(config_error(ps[perm[i]]) is None);
        }
    }
    if forall|i: int| 0 <= i < n ==> #[trigger] config_error(qs[i]) is None {
        assert forall|i: int| 0 <= i < n implies #[trigger] config_error(ps[i]) is None by {
            assert(qs[inv[i]] == ps[perm[inv[i]]]);
            assert(config_error(qs[inv[i]]) is None);
        }
    }
    // pairwise checks
    if profiles_compatible(ps, cwd) {
        assert forall|a: int| 0 <= a < n implies ordered_ok(claims_at_front(#[trigger] qs[a], cwd)) by {
            assert(qs[a] == ps[perm[a]]);
            assert(ordered_ok(claims_at_front(ps[perm[a]], cwd)));
        }
        assert forall|a: int, b: int| 0 <= a < n && 0 <= b < n && a != b implies cross_ok(
            claims_at_front(#[trigger] qs[a], cwd),
            claims_at_front(#[trigger] qs[b], cwd),
        ) by {
            assert(qs[a] == ps[perm[a]] && qs[b] == ps[perm[b]]);
            assert(perm[a] != perm[b]);
            assert(cross_ok(claims_at_front(ps[perm[a]], cwd), claims_at_front(ps[perm[b]], cwd)));
        }
    }
    if profiles_compatible(qs, cwd) {
        assert forall|a: int| 0 <= a < n implies ordered_ok(claims_at_front(#[trigger] ps[a], cwd)) by {
            assert(qs[inv[a]] == ps[perm[inv[a]]]);
            assert(ordered_ok(claims_at_front(qs[inv[a]], cwd)));
        }
        assert forall|a: int, b: int| 0 <= a < n && 0 <= b < n && a != b implies cross_ok(
            claims_at_front(#[trigger] ps[a], cwd),
            claims_at_front(#[trigger] ps[b], cwd),
        ) by {
            assert(qs[inv[a]] == ps[perm[inv[a]]] && qs[inv[b]] == ps[perm[inv[b]]]);
            assert(inv[a] != inv[b]);
            assert(cross_ok(claims_at_front(qs[inv[a]], cwd), claims_at_front(qs[inv[b]], cwd)));
        }
    }
}

} // verus!
