//! The rules behind `GET /ws/{port}`: a browser tab cannot open a raw TCP socket, so the client
//! opens a WebSocket here instead and the proxy relays its binary frames to and from the real
//! login (3724) and world (8085) TCP ports.
//!
//! `port` is checked against an explicit allowlist — the keys of the port → host map — not just
//! "any u16": an unchecked proxy would be an open relay onto whatever else listens on the box.
//! Following the `?host=` the page asked for only ever widens *where* a session may go, never
//! *what* it may reach there.
use vstd::prelude::*;
use std::collections::HashMap;
use vstd::string::{StrSliceExecFns, StringSliceAdditionalSpecFns};
use vstd::utf8::encode_utf8;
use crate::text::{chars_of, trim_seq, trim_bounds, is_white, is_whitespace};

verus! {

/// The login server's port.
pub const LOGIN_PORT: u16 = 3724;

/// The world server's port.
pub const WORLD_PORT: u16 = 8085;

// ── The page's host ──────────────────────────────────────────────────────────────────────────────

/// The `?host=` value, if it is something worth handing to a resolver: trimmed; a bracketed IPv6
/// literal loses its brackets (and an empty pair is refused); otherwise refused when empty, longer
/// than 253 bytes, or holding `:` (a pasted port), `/` (a URL), `@` (a `user@host`), `?` or
/// whitespace.
pub open spec fn client_host_of(raw: Seq<char>) -> Option<Seq<char>> {
    let h = trim_seq(raw);
    if h.len() >= 2 && h[0] == '[' && h.last() == ']' {
        if h.len() > 2 {
            Some(h.subrange(1, h.len() - 1))
        } else {
            None
        }
    } else if h.len() == 0 || encode_utf8(h).len() > 253 || h.contains(':') || h.contains('/')
        || h.contains('@') || h.contains('?') || exists|i: int| 0 <= i < h.len() && is_white(h[i]) {
        None
    } else {
        Some(h)
    }
}

/// The `?host=` value, if it is something we are willing to hand to a resolver. Not a security
/// check — whether the session follows the page at all is — but it turns the shapes that would
/// reach the resolver as a puzzling failure (an empty box, a pasted URL, a `user@host`, a trailing
/// `:3724`) into a refusal by name.
pub fn client_host(raw: &str) -> (r: Option<&str>)
    ensures
        r matches Some(h) ==> client_host_of(raw@) == Some(h@),
        r is None ==> client_host_of(raw@) is None,
{
    let cs = chars_of(raw);
    let (lo, hi) = trim_bounds(cs.as_slice());
    let ghost h = trim_seq(raw@);
    assert(h =~= raw@.subrange(lo as int, hi as int));
    if hi - lo >= 2 && cs[lo] == '[' && cs[hi - 1] == ']' {
        if hi - lo > 2 {
            let inner = raw.substring_char(lo + 1, hi - 1);
            assert(inner@ =~= h.subrange(1, h.len() - 1));
            return Some(inner);
        }
        return None;
    }
    assert(h.len() >= 2 ==> h[0] == cs@[lo as int] && h.last() == cs@[hi - 1]);
    let host = raw.substring_char(lo, hi);
    assert(host@ == h);
    if hi == lo || host.as_bytes().len() > 253 {
        return None;
    }
    let mut i = lo;
    while i < hi
        invariant
            cs@ == raw@,
            lo <= i <= hi <= cs@.len(),
            h == raw@.subrange(lo as int, hi as int),
            h == trim_seq(raw@),
            !(h.len() >= 2 && h[0] == '[' && h.last() == ']'),
            h.len() > 0,
            encode_utf8(h).len() <= 253,
            forall|j: int|
                0 <= j < i - lo ==> h[j] != ':' && h[j] != '/' && h[j] != '@' && h[j] != '?'
                    && !is_white(h[j]),
        decreases hi - i,
    {
        let c = cs[i];
        assert(h[i - lo] == c);
        if c == ':' || c == '/' || c == '@' || c == '?' || is_whitespace(c) {
            proof {
                if c == ':' {
                    assert(h.contains(':'));
                } else if c == '/' {
                    assert(h.contains('/'));
                } else if c == '@' {
                    assert(h.contains('@'));
                } else if c == '?' {
                    assert(h.contains('?'));
                } else {
                    assert(is_white(h[i - lo]));
                    assert(exists|k: int| 0 <= k < h.len() && is_white(h[k]));
                }
            }
            return None;
        }
        i = i + 1;
    }
    assert(!h.contains(':') && !h.contains('/') && !h.contains('@') && !h.contains('?'));
    assert(!exists|i: int| 0 <= i < h.len() && is_white(h[i]));
    Some(host)
}

// ── Routes ───────────────────────────────────────────────────────────────────────────────────────

/// A port → host list as a map: later pairs override earlier ones for the same port, as
/// collecting them into a map does.
pub open spec fn map_of_pairs(pairs: Seq<(u16, Seq<char>)>) -> Map<u16, Seq<char>>
    decreases pairs.len(),
{
    if pairs.len() == 0 {
        Map::empty()
    } else {
        map_of_pairs(pairs.drop_last()).insert(pairs.last().0, pairs.last().1)
    }
}

/// The host a session dials: nothing for a port off the allowlist (the request is refused); when
/// the routes follow the page and its host is usable, that host; otherwise the port's configured
/// host.
pub open spec fn dial_of(hosts: Map<u16, Seq<char>>, follow: bool, port: u16, asked: Seq<char>) -> Option<
    Seq<char>,
> {
    if !hosts.contains_key(port) {
        None
    } else if follow && client_host_of(asked) is Some {
        client_host_of(asked)
    } else {
        Some(hosts[port])
    }
}

/// Where the `/ws/{port}` proxy may dial: one host per allowed port — the key set *is* the
/// allowlist — and whether a session dials the `?host=` the page asked for instead.
pub struct WsRoutes {
    upstreams: HashMap<u16, String>,
    follow_client: bool,
}

impl View for WsRoutes {
    type V = (Map<u16, Seq<char>>, bool);

    closed spec fn view(&self) -> (Map<u16, Seq<char>>, bool) {
        (self.upstreams@.map_values(|h: String| h@), self.follow_client)
    }
}

impl WsRoutes {
    /// Routes from an explicit port → host list (the ports are the allowlist; a later pair for
    /// the same port wins). `follow_client` off is the door for a service with visitors: the page's
    /// `?host=` is then ignored and every session dials its port's configured host.
    pub fn from_pairs(pairs: &[(u16, String)], follow_client: bool) -> (r: Self)
        ensures
            r@.0 == map_of_pairs(pairs@.map_values(|p: (u16, String)| (p.0, p.1@))),
            r@.1 == follow_client,
    {
        let mut r = WsRoutes { upstreams: HashMap::new(), follow_client };
        let ghost ps = pairs@.map_values(|p: (u16, String)| (p.0, p.1@));
        assert(r@.0 =~= map_of_pairs(ps.take(0)));
        let n = pairs.len();
        for i in 0..n
            invariant
                n == pairs@.len(),
                ps == pairs@.map_values(|p: (u16, String)| (p.0, p.1@)),
                r.follow_client == follow_client,
                r@.0 == map_of_pairs(ps.take(i as int)),
        {
            let port = pairs[i].0;
            let host = pairs[i].1.clone();
            r.set(port, host);
            assert(ps.take(i + 1).drop_last() =~= ps.take(i as int));
        }
        assert(ps.take(n as int) =~= ps);
        r
    }

    /// One host for every allowed port.
    pub fn single(upstream: &str, allowed: &[u16]) -> (r: Self)
        ensures
            forall|p: u16| r@.0.contains_key(p) <==> allowed@.contains(p),
            forall|p: u16| #[trigger] r@.0.contains_key(p) ==> r@.0[p] == upstream@,
            !r@.1,
    {
        let mut r = WsRoutes { upstreams: HashMap::new(), follow_client: false };
        let n = allowed.len();
        assert(r@.0 =~= Map::<u16, Seq<char>>::empty());
        for i in 0..n
            invariant
                n == allowed@.len(),
                !r.follow_client,
                forall|p: u16| r@.0.contains_key(p) <==> allowed@.take(i as int).contains(p),
                forall|p: u16| #[trigger] r@.0.contains_key(p) ==> r@.0[p] == upstream@,
        {
            r.set(allowed[i], upstream.to_owned());
            let ghost t0 = allowed@.take(i as int);
            let ghost t1 = allowed@.take(i + 1);
            assert(t1 =~= t0.push(allowed@[i as int]));
            assert forall|p: u16| t1.contains(p) <==> (t0.contains(p) || p == allowed@[i as int]) by {
                if t1.contains(p) {
                    let k = choose|k: int| 0 <= k < t1.len() && t1[k] == p;
                    if k < i {
                        assert(t0[k] == p);
                    }
                }
                if t0.contains(p) {
                    let k = choose|k: int| 0 <= k < t0.len() && t0[k] == p;
                    assert(t1[k] == p);
                }
                if p == allowed@[i as int] {
                    assert(t1[i as int] == p);
                }
            }
        }
        assert(allowed@.take(n as int) =~= allowed@);
        r
    }

    /// The host's own routes: the login port dials `upstream`, the world port `world_upstream`
    /// when one is given and `upstream` otherwise, and — unless pinned — each session follows the
    /// realmlist the page asked for, with these as the fallback.
    pub fn for_host(upstream: &str, world_upstream: Option<&str>, pin_upstream: bool) -> (r: Self)
        ensures
            forall|p: u16| r@.0.contains_key(p) <==> (p == LOGIN_PORT || p == WORLD_PORT),
            r@.0[LOGIN_PORT] == upstream@,
            r@.0[WORLD_PORT] == (match world_upstream {
                Some(w) => w@,
                None => upstream@,
            }),
            r@.1 == !pin_upstream,
    {
        let world = match world_upstream {
            Some(w) => w,
            None => upstream,
        };
        let mut r = WsRoutes { upstreams: HashMap::new(), follow_client: !pin_upstream };
        assert(r@.0 =~= Map::<u16, Seq<char>>::empty());
        r.set(LOGIN_PORT, upstream.to_owned());
        r.set(WORLD_PORT, world.to_owned());
        r
    }

    /// Point `port` at `host`, replacing what it pointed at.
    fn set(&mut self, port: u16, host: String)
        ensures
            final(self).follow_client == old(self).follow_client,
            final(self)@.0 == old(self)@.0.insert(port, host@),
    {
        broadcast use vstd::std_specs::hash::group_hash_axioms;
        let ghost hv = host@;
        self.upstreams.insert(port, host);
        assert(self@.0 =~= old(self)@.0.insert(port, hv));
    }

    /// The host to dial for a session on `port` whose page asked for `asked` (empty when it named
    /// none), or `None` when the port is not on the allowlist and the request is refused.
    pub fn dial(&self, port: u16, asked: &str) -> (r: Option<String>)
        ensures
            r matches Some(h) ==> dial_of(self@.0, self@.1, port, asked@) == Some(h@),
            r is None ==> dial_of(self@.0, self@.1, port, asked@) is None,
    {
        broadcast use vstd::std_specs::hash::group_hash_axioms;
        match self.upstreams.get(&port) {
            None => None,
            Some(configured) => {
                if self.follow_client {
                    match client_host(asked) {
                        Some(h) => {
                            return Some(h.to_owned());
                        },
                        None => {},
                    }
                }
                Some(configured.clone())
            },
        }
    }
}

/// **A session never reaches a port off the allowlist.** Whatever the page asks for, and whether
/// or not the routes follow it, a port that is not a key of the map is refused.
pub proof fn law_dial_stays_on_the_allowlist(
    hosts: Map<u16, Seq<char>>,
    follow: bool,
    port: u16,
    asked: Seq<char>,
)
    requires
        dial_of(hosts, follow, port, asked) is Some,
    ensures
        hosts.contains_key(port),
{
}

/// **Routes that do not follow the page ignore it.** Two sessions on one port dial the same host
/// whatever each page asked for: the configured one.
pub proof fn law_pinned_routes_ignore_the_page(
    hosts: Map<u16, Seq<char>>,
    port: u16,
    a: Seq<char>,
    b: Seq<char>,
)
    requires
        hosts.contains_key(port),
    ensures
        dial_of(hosts, false, port, a) == dial_of(hosts, false, port, b),
        dial_of(hosts, false, port, a) == Some(hosts[port]),
{
}

/// **A page that names no usable host falls back to the configured one**, even on routes that
/// follow the page — so the flags keep working for anyone who never touches the realmlist box.
pub proof fn law_unusable_host_falls_back(hosts: Map<u16, Seq<char>>, port: u16, asked: Seq<char>)
    requires
        hosts.contains_key(port),
        client_host_of(asked) is None,
    ensures
        dial_of(hosts, true, port, asked) == Some(hosts[port]),
{
}

// ── What a session moved ─────────────────────────────────────────────────────────────────────────

/// One hexadecimal digit, lowercase.
pub open spec fn hex_digit(n: u8) -> char {
    if n < 10 {
        ((n + 48) as u8) as char
    } else {
        ((n + 87) as u8) as char
    }
}

/// A byte as two lowercase hexadecimal digits (`{:02x}`).
pub open spec fn hex_pair(b: u8) -> Seq<char> {
    seq![hex_digit(b / 16), hex_digit(b % 16)]
}

/// Bytes as hex pairs separated by single spaces.
pub open spec fn hex_spaced(bs: Seq<u8>) -> Seq<char>
    decreases bs.len(),
{
    if bs.len() == 0 {
        Seq::empty()
    } else if bs.len() == 1 {
        hex_pair(bs[0])
    } else {
        hex_spaced(bs.drop_last()) + seq![' '] + hex_pair(bs.last())
    }
}

/// The head of a chunk as the session log shows it: its first (at most) eight bytes in hex.
pub open spec fn hex_head_of(chunk: Seq<u8>) -> Seq<char> {
    hex_spaced(chunk.take(if chunk.len() < 8 { chunk.len() as int } else { 8 }))
}

fn hex_char(n: u8) -> (c: char)
    requires
        n < 16,
    ensures
        c == hex_digit(n),
{
    if n < 10 {
        (n + 48) as char
    } else {
        (n + 87) as char
    }
}

/// The first (at most) eight bytes of `chunk` in hex, space-separated.
pub fn hex_head(chunk: &[u8]) -> (s: Vec<char>)
    ensures
        s@ == hex_head_of(chunk@),
{
    let m: usize = if chunk.len() < 8 { chunk.len() } else { 8 };
    let ghost head = chunk@.take(m as int);
    let mut out: Vec<char> = Vec::new();
    for i in 0..m
        invariant
            m <= chunk@.len(),
            head == chunk@.take(m as int),
            out@ == hex_spaced(head.take(i as int)),
    {
        let b = chunk[i];
        if i > 0 {
            out.push(' ');
        }
        out.push(hex_char(b / 16));
        out.push(hex_char(b % 16));
        proof {
            assert(head.take(i + 1).drop_last() =~= head.take(i as int));
            assert(head.take(i + 1).last() == b);
            if i == 0 {
                assert(hex_spaced(head.take(0)) =~= Seq::<char>::empty());
            }
        }
        assert(out@ =~= hex_spaced(head.take(i + 1)));
    }
    assert(head.take(m as int) =~= head);
    out
}

/// What one relayed session moved: bytes up (page to server), bytes down, and the head of the
/// server's first chunk in hex — for a login server that head is the whole diagnosis, and it is
/// bounded so a world stream cannot flood the log.
pub struct RelayStats {
    pub up: u64,
    pub down: u64,
    pub first_down: Vec<char>,
}

impl RelayStats {
    /// A session that has moved nothing yet.
    pub fn new() -> (r: Self)
        ensures
            r.up == 0,
            r.down == 0,
            r.first_down@.len() == 0,
    {
        RelayStats { up: 0, down: 0, first_down: Vec::new() }
    }

    /// The server sent `chunk`: counted down, and its head kept if it is the first.
    pub fn on_down(&mut self, chunk: &[u8])
        requires
            old(self).down + chunk@.len() <= u64::MAX,
        ensures
            final(self).down == old(self).down + chunk@.len(),
            final(self).up == old(self).up,
            final(self).first_down@ == if old(self).first_down@.len() == 0 {
                hex_head_of(chunk@)
            } else {
                old(self).first_down@
            },
    {
        self.down = self.down + chunk.len() as u64;
        if self.first_down.len() == 0 {
            self.first_down = hex_head(chunk);
        }
    }

    /// The page sent `n` bytes.
    pub fn on_up(&mut self, n: u64)
        requires
            old(self).up + n <= u64::MAX,
        ensures
            final(self).up == old(self).up + n,
            final(self).down == old(self).down,
            final(self).first_down@ == old(self).first_down@,
    {
        self.up = self.up + n;
    }
}

} // verus!
