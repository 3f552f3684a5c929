//! SSH port forwarding: what opening a tunnel does for each tunnel type, the
//! set of open tunnels, the tunnels a connection opens by itself, and the
//! SOCKS5 handshake of dynamic forwarding.
//!
//! Sockets, the SSH channels and the tasks that copy data are the caller's;
//! the SOCKS5 handshake is a state machine that tells the caller what to
//! read, write or connect next.

use vstd::prelude::*;
use vstd::utf8::{decode_utf8, valid_utf8};
use crate::config::TunnelConfig;
use crate::error::AppError;
use crate::text::{decimal, push_char, push_str, str_eq, to_owned_string, u64_to_string};

verus! {

// ---------------------------------------------------------------------------
// Opening a tunnel
// ---------------------------------------------------------------------------

/// How a tunnel is set up once its SSH connection is there.
#[derive(Debug)]
pub enum TunnelPlan {
    /// Listen on `bind_addr:port` locally and forward each connection to
    /// `target_host:target_port` through a direct-tcpip channel.
    Local { bind_addr: String, port: u16, target_host: String, target_port: u16 },
    /// Ask the server to listen on `bind_addr:port` and forward back.
    Remote { bind_addr: String, port: u16 },
    /// Listen on `bind_addr:port` locally as a SOCKS5 proxy.
    Dynamic { bind_addr: String, port: u16 },
}

/// The address a tunnel listens on: the loopback address when it is bound
/// to localhost, every address otherwise.
pub open spec fn bind_address(bind_localhost: bool) -> Seq<char> {
    if bind_localhost {
        "127.0.0.1"@
    } else {
        "0.0.0.0"@
    }
}

/// The connection a tunnel runs over; a tunnel without one cannot open.
pub fn tunnel_connection_id(tunnel: &TunnelConfig) -> (res: Result<String, AppError>)
    ensures
        match tunnel.connection_id {
            Some(c) => res matches Ok(r) && r@ == c@,
            None => res matches Err(AppError::Channel(m)) && m@ == "Tunnel has no connection_id"@,
        },
{
    match &tunnel.connection_id {
        Some(c) => Ok(c.clone()),
        None => Err(AppError::Channel(to_owned_string("Tunnel has no connection_id"))),
    }
}

/// The tunnel types that can be set up.
pub open spec fn tunnel_type_known(t: Seq<char>) -> bool {
    t == "local"@ || t == "remote"@ || t == "dynamic"@
}

/// `res` is how to set up `tunnel`: a local, remote or dynamic plan on the
/// tunnel's address and ports by its type, or the error for another type.
pub open spec fn is_plan_result(tunnel: TunnelConfig, res: Result<TunnelPlan, AppError>) -> bool {
    let t = tunnel.tunnel_type@;
    let addr = bind_address(tunnel.bind_localhost);
    if t == "local"@ {
        res matches Ok(TunnelPlan::Local { bind_addr, port, target_host, target_port })
            && bind_addr@ == addr && port == tunnel.listen_port && target_host@
            == tunnel.target_host@ && target_port == tunnel.target_port
    } else if t == "remote"@ {
        res matches Ok(TunnelPlan::Remote { bind_addr, port }) && bind_addr@ == addr && port
            == tunnel.listen_port
    } else if t == "dynamic"@ {
        res matches Ok(TunnelPlan::Dynamic { bind_addr, port }) && bind_addr@ == addr && port
            == tunnel.listen_port
    } else {
        res matches Err(AppError::Channel(m)) && m@ == "Unknown tunnel type: "@ + t
    }
}

/// The port a plan listens on (locally, or on the server for a remote plan).
pub open spec fn plan_port(p: TunnelPlan) -> u16 {
    match p {
        TunnelPlan::Local { port, .. } => port,
        TunnelPlan::Remote { port, .. } => port,
        TunnelPlan::Dynamic { port, .. } => port,
    }
}

/// The address a plan listens on.
pub open spec fn plan_bind_addr(p: TunnelPlan) -> Seq<char> {
    match p {
        TunnelPlan::Local { bind_addr, .. } => bind_addr@,
        TunnelPlan::Remote { bind_addr, .. } => bind_addr@,
        TunnelPlan::Dynamic { bind_addr, .. } => bind_addr@,
    }
}

/// Whatever its type, a tunnel listens on its configured listen port and on
/// `127.0.0.1` or `0.0.0.0` as it is bound to localhost or not; the target
/// port only says where a local tunnel forwards to.  A plan is made exactly
/// for the three known types, and its kind follows the type.
pub proof fn law_plan_listens_on_listen_port(tunnel: TunnelConfig, res: Result<TunnelPlan, AppError>)
    requires
        is_plan_result(tunnel, res),
    ensures
        res is Ok <==> tunnel_type_known(tunnel.tunnel_type@),
        res matches Ok(p) ==> plan_port(p) == tunnel.listen_port,
        res matches Ok(p) ==> plan_bind_addr(p) == (if tunnel.bind_localhost {
            seq!['1', '2', '7', '.', '0', '.', '0', '.', '1']
        } else {
            seq!['0', '.', '0', '.', '0', '.', '0']
        }),
        res matches Ok(TunnelPlan::Local { target_host, target_port, .. }) ==> target_port
            == tunnel.target_port && target_host@ == tunnel.target_host@,
        res matches Ok(TunnelPlan::Local { .. }) ==> tunnel.tunnel_type@ == "local"@,
        res matches Ok(TunnelPlan::Remote { .. }) ==> tunnel.tunnel_type@ == "remote"@,
        res matches Ok(TunnelPlan::Dynamic { .. }) ==> tunnel.tunnel_type@ == "dynamic"@,
{
    reveal_strlit("127.0.0.1");
    reveal_strlit("0.0.0.0");
}

/// How to set up `tunnel` by its type: "local", "remote" or "dynamic"; any
/// other type is refused.
pub fn plan_tunnel(tunnel: &TunnelConfig) -> (res: Result<TunnelPlan, AppError>)
    ensures
        is_plan_result(*tunnel, res),
{
    let bind_addr = if tunnel.bind_localhost {
        to_owned_string("127.0.0.1")
    } else {
        to_owned_string("0.0.0.0")
    };
    let t = tunnel.tunnel_type.as_str();
    if str_eq(t, "local") {
        Ok(TunnelPlan::Local {
            bind_addr,
            port: tunnel.listen_port,
            target_host: tunnel.target_host.clone(),
            target_port: tunnel.target_port,
        })
    } else if str_eq(t, "remote") {
        Ok(TunnelPlan::Remote { bind_addr, port: tunnel.listen_port })
    } else if str_eq(t, "dynamic") {
        Ok(TunnelPlan::Dynamic { bind_addr, port: tunnel.listen_port })
    } else {
        let mut m = to_owned_string("Unknown tunnel type: ");
        push_str(&mut m, t);
        Err(AppError::Channel(m))
    }
}

/// The error for a local listening socket that could not be bound: `socks`
/// for a dynamic tunnel, and the text of the socket error.
pub fn bind_error(socks: bool, port: u16, error: &str) -> (res: AppError)
    ensures
        res matches AppError::Channel(m) && m@ == (if socks {
            "Failed to bind SOCKS5 port "@
        } else {
            "Failed to bind local port "@
        }) + decimal(port as nat) + ": "@ + error@,
{
    let mut m = if socks {
        to_owned_string("Failed to bind SOCKS5 port ")
    } else {
        to_owned_string("Failed to bind local port ")
    };
    let p = u64_to_string(port as u64);
    push_str(&mut m, p.as_str());
    push_str(&mut m, ": ");
    push_str(&mut m, error);
    AppError::Channel(m)
}

// ---------------------------------------------------------------------------
// Open tunnels
// ---------------------------------------------------------------------------

/// The ids of the tunnels that are open.
pub struct OpenTunnels {
    ids: Vec<String>,
}

impl OpenTunnels {
    /// The open tunnel ids.
    pub closed spec fn ids(&self) -> Set<Seq<char>> {
        self.ids@.map_values(|s: String| s@).to_set()
    }

    /// The invariant: each id once.
    pub closed spec fn wf(&self) -> bool {
        self.ids@.map_values(|s: String| s@).no_duplicates()
    }

    /// No tunnel open.
    pub fn new() -> (res: Self)
        ensures
            res.wf(),
            res.ids() == Set::<Seq<char>>::empty(),
    {
        let res = OpenTunnels { ids: Vec::new() };
        assert(res.ids@.map_values(|s: String| s@) =~= Seq::<Seq<char>>::empty());
        assert(res.ids() =~= Set::<Seq<char>>::empty());
        res
    }

    fn position(&self, id: &str) -> (res: Option<usize>)
        ensures
            match res {
                Some(i) => i < self.ids@.len() && self.ids@[i as int]@ == id@,
                None => !self.ids().contains(id@),
            },
    {
        let mut i: usize = 0;
        while i < self.ids.len()
            invariant
                i <= self.ids.len(),
                forall|j: int| 0 <= j < i ==> self.ids@[j]@ != id@,
            decreases self.ids.len() - i,
        {
            if str_eq(self.ids[i].as_str(), id) {
                return Some(i);
            }
            i = i + 1;
        }
        proof {
            if self.ids().contains(id@) {
                let s = self.ids@.map_values(|s: String| s@);
                let j = choose|j: int| 0 <= j < s.len() && s[j] == id@;
                assert(self.ids@[j]@ == id@);
            }
        }
        None
    }

    /// Whether the tunnel `id` is open.
    pub fn is_open(&self, id: &str) -> (res: bool)
        ensures
            res == self.ids().contains(id@),
    {
        match self.position(id) {
            Some(i) => {
                proof {
                    let s = self.ids@.map_values(|s: String| s@);
                    assert(s[i as int] == id@);
                }
                true
            },
            None => false,
        }
    }

    /// Records the tunnel `id` as open.
    pub fn mark_open(&mut self, id: &str)
        requires
            old(self).wf(),
        ensures
            final(self).wf(),
            final(self).ids() == old(self).ids().insert(id@),
    {
        if self.is_open(id) {
            proof {
                assert(self.ids().insert(id@) =~= self.ids());
            }
            return;
        }
        let ghost s0 = self.ids@.map_values(|s: String| s@);
        self.ids.push(to_owned_string(id));
        proof {
            let s1 = self.ids@.map_values(|s: String| s@);
            assert(s1 =~= s0.push(id@));
            assert forall|x: Seq<char>| s1.contains(x) <==> (s0.contains(x) || x == id@) by {
                if s1.contains(x) {
                    let j = choose|j: int| 0 <= j < s1.len() && s1[j] == x;
                    if j < s0.len() {
                        assert(s0[j] == x);
                    }
                }
                if s0.contains(x) {
                    let j = choose|j: int| 0 <= j < s0.len() && s0[j] == x;
                    assert(s1[j] == x);
                }
                if x == id@ {
                    assert(s1[s0.len() as int] == x);
                }
            }
            assert(s1.to_set() =~= s0.to_set().insert(id@));
            assert forall|a: int, b: int| 0 <= a < s1.len() && 0 <= b < s1.len() && a != b implies s1[a]
                != s1[b] by {
                if a == s0.len() {
                    assert(s0.contains(s0[b]));
                } else if b == s0.len() {
                    assert(s0.contains(s0[a]));
                }
            }
        }
    }

    /// Closes the tunnel `id`; whether it was open.
    pub fn close(&mut self, id: &str) -> (res: bool)
        requires
            old(self).wf(),
        ensures
            final(self).wf(),
            final(self).ids() == old(self).ids().remove(id@),
            res == old(self).ids().contains(id@),
    {
        match self.position(id) {
            None => {
                proof {
                    assert(self.ids().remove(id@) =~= self.ids());
                }
                false
            },
            Some(i) => {
                let ghost s0 = self.ids@.map_values(|s: String| s@);
                let _ = self.ids.remove(i);
                proof {
                    let s1 = self.ids@.map_values(|s: String| s@);
                    assert(s1 =~= s0.remove(i as int));
                    assert(s0[i as int] == id@);
                    assert(s0.contains(id@));
                    assert forall|x: Seq<char>| s1.contains(x) <==> (s0.contains(x) && x != id@) by {
                        if s1.contains(x) {
                            let j = choose|j: int| 0 <= j < s1.len() && s1[j] == x;
                            if j < i {
                                assert(s0[j] == x);
                                assert(j != i);
                            } else {
                                assert(s0[j + 1] == x);
                            }
                        }
                        if s0.contains(x) && x != id@ {
                            let j = choose|j: int| 0 <= j < s0.len() && s0[j] == x;
                            assert(j != i);
                            if j < i {
                                assert(s1[j] == x);
                            } else {
                                assert(s1[j - 1] == x);
                            }
                        }
                    }
                    assert(s1.to_set() =~= s0.to_set().remove(id@));
                }
                true
            },
        }
    }
}

/// The open-tunnel bookkeeping keeps what it is told: a tunnel marked open is
/// open, a closed one is not, and the others keep their state.
pub proof fn law_open_then_close(ids: Set<Seq<char>>, id: Seq<char>, other: Seq<char>)
    requires
        other != id,
    ensures
        ids.insert(id).contains(id),
        !ids.insert(id).remove(id).contains(id),
        ids.insert(id).remove(id).contains(other) == ids.contains(other),
{
}

/// The first step of opening `tunnel`: nothing to do (`Ok(None)`) when it is
/// open already; otherwise the connection it runs over, or the error for a
/// tunnel that has none.
pub fn open_request(open: &OpenTunnels, tunnel: &TunnelConfig) -> (res: Result<
    Option<String>,
    AppError,
>)
    ensures
        open.ids().contains(tunnel.id@) ==> res matches Ok(None),
        !open.ids().contains(tunnel.id@) ==> match tunnel.connection_id {
            Some(c) => res matches Ok(Some(r)) && r@ == c@,
            None => res matches Err(AppError::Channel(m)) && m@ == "Tunnel has no connection_id"@,
        },
{
    if open.is_open(tunnel.id.as_str()) {
        return Ok(None);
    }
    match tunnel_connection_id(tunnel) {
        Ok(c) => Ok(Some(c)),
        Err(e) => Err(e),
    }
}

/// Opens `tunnel` in the bookkeeping.  A tunnel open already asks for
/// nothing (`Ok(None)`); one without a connection, or of an unknown type, is
/// refused and nothing changes; any other is recorded as open, and the
/// connection it runs over and how to set it up are handed back (a caller
/// that then fails to set it up closes it again).
pub fn open_tunnel(open: &mut OpenTunnels, tunnel: &TunnelConfig) -> (res: Result<
    Option<(String, TunnelPlan)>,
    AppError,
>)
    requires
        old(open).wf(),
    ensures
        final(open).wf(),
        res is Err ==> final(open).ids() == old(open).ids(),
        res is Ok ==> final(open).ids().contains(tunnel.id@),
        old(open).ids().contains(tunnel.id@) ==> (res matches Ok(None) && final(open).ids() == old(
            open,
        ).ids()),
        !old(open).ids().contains(tunnel.id@) ==> match tunnel.connection_id {
            None => res matches Err(AppError::Channel(m)) && m@ == "Tunnel has no connection_id"@,
            Some(c) => if tunnel_type_known(tunnel.tunnel_type@) {
                res matches Ok(Some((r, p))) && r@ == c@ && is_plan_result(*tunnel, Ok(p))
                    && final(open).ids() == old(open).ids().insert(tunnel.id@)
            } else {
                res matches Err(AppError::Channel(m)) && m@ == "Unknown tunnel type: "@
                    + tunnel.tunnel_type@
            },
        },
{
    let connection = match open_request(open, tunnel) {
        Ok(Some(c)) => c,
        Ok(None) => {
            return Ok(None);
        },
        Err(e) => {
            return Err(e);
        },
    };
    match plan_tunnel(tunnel) {
        Ok(plan) => {
            open.mark_open(tunnel.id.as_str());
            Ok(Some((connection, plan)))
        },
        Err(e) => Err(e),
    }
}

/// Opening a tunnel twice is opening it once: once it is marked open, a
/// second request finds it open (and asks for nothing), and marking it open
/// again leaves the set of open tunnels as it was.
pub proof fn law_open_is_idempotent(ids: Set<Seq<char>>, id: Seq<char>)
    ensures
        ids.insert(id).contains(id),
        ids.insert(id).insert(id) == ids.insert(id),
{
    assert(ids.insert(id).insert(id) =~= ids.insert(id));
}

// ---------------------------------------------------------------------------
// Tunnels that follow a connection
// ---------------------------------------------------------------------------

/// The tunnel opens and closes with the connection `connection_id`.
pub open spec fn follows_connection(t: TunnelConfig, connection_id: Seq<char>) -> bool {
    t.auto_open && (t.connection_id matches Some(c) && c@ == connection_id)
}

/// The indices, in order, of the tunnels that open and close with the
/// connection `connection_id`.
pub fn auto_tunnels_for(tunnels: &Vec<TunnelConfig>, connection_id: &str) -> (res: Vec<usize>)
    ensures
        forall|j: int| 0 <= j < res@.len() ==> (#[trigger] res@[j]) < tunnels@.len(),
        forall|a: int, b: int| 0 <= a < b < res@.len() ==> res@[a] < res@[b],
        forall|i: int|
            0 <= i < tunnels@.len() ==> (#[trigger] follows_connection(tunnels@[i], connection_id@)
                <==> res@.contains(i as usize)),
{
    let mut out: Vec<usize> = Vec::new();
    let mut i: usize = 0;
    while i < tunnels.len()
        invariant
            i <= tunnels.len(),
            forall|j: int| 0 <= j < out@.len() ==> (#[trigger] out@[j]) < i,
            forall|a: int, b: int| 0 <= a < b < out@.len() ==> out@[a] < out@[b],
            forall|k: int|
                0 <= k < i ==> (#[trigger] follows_connection(tunnels@[k], connection_id@)
                    <==> out@.contains(k as usize)),
        decreases tunnels.len() - i,
    {
        let t = &tunnels[i];
        let follows = t.auto_open && match &t.connection_id {
            Some(c) => str_eq(c.as_str(), connection_id),
            None => false,
        };
        let ghost before = out@;
        if follows {
            out.push(i);
        }
        proof {
            assert forall|k: int|
                0 <= k < i + 1 implies (#[trigger] follows_connection(tunnels@[k], connection_id@)
                <==> out@.contains(k as usize)) by {
                if k < i {
                    if before.contains(k as usize) {
                        let j = choose|j: int| 0 <= j < before.len() && before[j] == k as usize;
                        assert(out@[j] == k as usize);
                    }
                    if out@.contains(k as usize) {
                        let j = choose|j: int| 0 <= j < out@.len() && out@[j] == k as usize;
                        if j < before.len() {
                            assert(before[j] == k as usize);
                        }
                    }
                } else {
                    if follows {
                        assert(out@[before.len() as int] == i);
                    }
                    if out@.contains(i) {
                        let j = choose|j: int| 0 <= j < out@.len() && out@[j] == i;
                        if j < before.len() {
                            assert(before[j] < i);
                        }
                    }
                }
            }
        }
        i = i + 1;
    }
    out
}


// ---------------------------------------------------------------------------
// SOCKS5 handshake (dynamic forwarding)
// ---------------------------------------------------------------------------

/// The text `String::from_utf8_lossy` makes of `bytes`.
pub uninterp spec fn utf8_lossy(bytes: Seq<u8>) -> Seq<char>;

/// Decodes bytes as UTF-8, replacing invalid sequences
/// (`String::from_utf8_lossy`); valid UTF-8 decodes as it is.
#[verifier::external_body]
fn lossy_string(bytes: &[u8]) -> (res: String)
    ensures
        res@ == utf8_lossy(bytes@),
        valid_utf8(bytes@) ==> res@ == decode_utf8(bytes@),
{
    String::from_utf8_lossy(bytes).to_string()
}

/// Where a SOCKS5 handshake stands.
#[derive(Debug)]
pub enum Socks5Phase {
    /// Waiting for the version and the number of methods.
    Greeting,
    /// Waiting for that many method bytes.
    Methods(u8),
    /// Waiting for the request header.
    Request,
    /// Waiting for an IPv4 address.
    Ipv4Address,
    /// Waiting for the length of a domain name.
    DomainLength,
    /// Waiting for a domain name of that length.
    DomainName(u8),
    /// Waiting for an IPv6 address, which the caller reads (16 bytes) and
    /// hands over as text to `on_ipv6_host`.
    Ipv6Address,
    /// Waiting for the port of this host.
    Port(String),
    /// Waiting for the channel to this host and port.
    Connecting(String, u16),
    /// Data flows both ways.
    Relaying,
    /// The handshake ended without a channel.
    Closed,
}

/// What the caller does next for a SOCKS5 client.
#[derive(Debug)]
pub enum Socks5Action {
    /// Read exactly this many bytes and hand them to `on_bytes`.
    Read(usize),
    /// Write these bytes, then read exactly this many and hand them to `on_bytes`.
    WriteThenRead(Vec<u8>, usize),
    /// Open a direct-tcpip channel to this host and port and report the
    /// outcome to `on_connect`.
    Connect(String, u16),
    /// Write these bytes, then copy data both ways.
    WriteThenRelay(Vec<u8>),
    /// Write these bytes, then close.
    WriteThenClose(Vec<u8>),
    /// Close without a reply.
    Close,
}

/// The reply that accepts the client without authentication.
pub open spec fn no_auth_reply() -> Seq<u8> {
    seq![5u8, 0u8]
}

/// The reply to a request with reply code `code` and an empty IPv4 bind address.
pub open spec fn socks5_reply(code: u8) -> Seq<u8> {
    seq![5u8, code, 0u8, 1u8, 0u8, 0u8, 0u8, 0u8, 0u8, 0u8]
}

/// The dotted text of an IPv4 address.
pub open spec fn ipv4_text(a: Seq<u8>) -> Seq<char> {
    decimal(a[0] as nat) + seq!['.'] + decimal(a[1] as nat) + seq!['.'] + decimal(a[2] as nat)
        + seq!['.'] + decimal(a[3] as nat)
}

/// A big-endian port number.
pub open spec fn port_of(b: Seq<u8>) -> nat {
    (b[0] as nat) * 256 + (b[1] as nat)
}

/// How many bytes the handshake waits for in `phase`, when it waits for any.
pub open spec fn bytes_expected(phase: Socks5Phase) -> Option<nat> {
    match phase {
        Socks5Phase::Greeting => Some(2),
        Socks5Phase::Methods(n) => Some(n as nat),
        Socks5Phase::Request => Some(4),
        Socks5Phase::Ipv4Address => Some(4),
        Socks5Phase::DomainLength => Some(1),
        Socks5Phase::DomainName(n) => Some(n as nat),
        Socks5Phase::Ipv6Address => Some(16),
        Socks5Phase::Port(_) => Some(2),
        _ => None,
    }
}

/// The action `a` reads `n` bytes (and writes nothing).
pub open spec fn reads(a: Socks5Action, n: nat) -> bool {
    a matches Socks5Action::Read(k) && k == n
}

/// One step of the handshake: the bytes `d` received in phase `p` lead to
/// phase `q` and action `a`.
pub open spec fn socks5_step(p: Socks5Phase, d: Seq<u8>, q: Socks5Phase, a: Socks5Action) -> bool {
    match p {
        Socks5Phase::Greeting => if d[0] != 5 {
            q is Closed && a is Close
        } else {
            q == Socks5Phase::Methods(d[1]) && reads(a, d[1] as nat)
        },
        Socks5Phase::Methods(_) => q is Request && (a matches Socks5Action::WriteThenRead(w, n) && w@
            == no_auth_reply() && n == 4),
        Socks5Phase::Request => if d[0] != 5 || d[1] != 1 {
            q is Closed && (a matches Socks5Action::WriteThenClose(w) && w@ == socks5_reply(7))
        } else if d[3] == 1 {
            q is Ipv4Address && reads(a, 4)
        } else if d[3] == 3 {
            q is DomainLength && reads(a, 1)
        } else if d[3] == 4 {
            q is Ipv6Address && reads(a, 16)
        } else {
            q is Closed && a is Close
        },
        Socks5Phase::Ipv4Address => (q matches Socks5Phase::Port(h) && h@ == ipv4_text(d)) && reads(
            a,
            2,
        ),
        Socks5Phase::DomainLength => q == Socks5Phase::DomainName(d[0]) && reads(a, d[0] as nat),
        Socks5Phase::DomainName(_) => (q matches Socks5Phase::Port(h) && h@ == utf8_lossy(d))
            && reads(a, 2),
        Socks5Phase::Port(h) => (q matches Socks5Phase::Connecting(h2, port) && h2@ == h@ && port
            == port_of(d)) && (a matches Socks5Action::Connect(h3, port3) && h3@ == h@ && port3
            == port_of(d)),
        _ => false,
    }
}

fn reply_bytes(code: u8) -> (res: Vec<u8>)
    ensures
        res@ == socks5_reply(code),
{
    let v: Vec<u8> = vec![5u8, code, 0u8, 1u8, 0u8, 0u8, 0u8, 0u8, 0u8, 0u8];
    assert(v@ =~= socks5_reply(code));
    v
}

fn ipv4_to_string(a: &[u8]) -> (res: String)
    requires
        a@.len() == 4,
    ensures
        res@ == ipv4_text(a@),
{
    let mut s = u64_to_string(a[0] as u64);
    push_char(&mut s, '.');
    let b = u64_to_string(a[1] as u64);
    push_str(&mut s, b.as_str());
    push_char(&mut s, '.');
    let c = u64_to_string(a[2] as u64);
    push_str(&mut s, c.as_str());
    push_char(&mut s, '.');
    let d = u64_to_string(a[3] as u64);
    push_str(&mut s, d.as_str());
    proof {
        assert(s@ =~= ipv4_text(a@));
    }
    s
}

/// A SOCKS5 handshake with one client.
pub struct Socks5Handshake {
    phase: Socks5Phase,
}

impl Socks5Handshake {
    /// Where the handshake stands.
    pub closed spec fn phase(&self) -> Socks5Phase {
        self.phase
    }

    /// A handshake that waits for the client's greeting, and the first action:
    /// read it.
    pub fn new() -> (res: (Self, Socks5Action))
        ensures
            res.0.phase() is Greeting,
            reads(res.1, 2),
    {
        (Socks5Handshake { phase: Socks5Phase::Greeting }, Socks5Action::Read(2))
    }

    /// How many bytes the handshake waits for (zero when it waits for none).
    pub fn expected(&self) -> (res: usize)
        ensures
            match bytes_expected(self.phase()) {
                Some(n) => res == n,
                None => res == 0,
            },
    {
        match &self.phase {
            Socks5Phase::Greeting => 2,
            Socks5Phase::Methods(n) => *n as usize,
            Socks5Phase::Request => 4,
            Socks5Phase::Ipv4Address => 4,
            Socks5Phase::DomainLength => 1,
            Socks5Phase::DomainName(n) => *n as usize,
            Socks5Phase::Ipv6Address => 16,
            Socks5Phase::Port(_) => 2,
            _ => 0,
        }
    }

    /// Takes the bytes the last action asked for and says what to do next.
    pub fn on_bytes(&mut self, data: &[u8]) -> (res: Socks5Action)
        requires
            bytes_expected(old(self).phase()) == Some(data@.len()),
            !(old(self).phase() is Ipv6Address),
        ensures
            socks5_step(old(self).phase(), data@, final(self).phase(), res),
    {
        let mut phase = Socks5Phase::Closed;
        std::mem::swap(&mut phase, &mut self.phase);
        match phase {
            Socks5Phase::Greeting => {
                if data[0] != 5 {
                    Socks5Action::Close
                } else {
                    self.phase = Socks5Phase::Methods(data[1]);
                    Socks5Action::Read(data[1] as usize)
                }
            },
            Socks5Phase::Methods(_) => {
                self.phase = Socks5Phase::Request;
                let w: Vec<u8> = vec![5u8, 0u8];
                assert(w@ =~= no_auth_reply());
                Socks5Action::WriteThenRead(w, 4)
            },
            Socks5Phase::Request => {
                if data[0] != 5 || data[1] != 1 {
                    Socks5Action::WriteThenClose(reply_bytes(7))
                } else if data[3] == 1 {
                    self.phase = Socks5Phase::Ipv4Address;
                    Socks5Action::Read(4)
                } else if data[3] == 3 {
                    self.phase = Socks5Phase::DomainLength;
                    Socks5Action::Read(1)
                } else if data[3] == 4 {
                    self.phase = Socks5Phase::Ipv6Address;
                    Socks5Action::Read(16)
                } else {
                    Socks5Action::Close
                }
            },
            Socks5Phase::Ipv4Address => {
                self.phase = Socks5Phase::Port(ipv4_to_string(data));
                Socks5Action::Read(2)
            },
            Socks5Phase::DomainLength => {
                self.phase = Socks5Phase::DomainName(data[0]);
                Socks5Action::Read(data[0] as usize)
            },
            Socks5Phase::DomainName(_) => {
                self.phase = Socks5Phase::Port(lossy_string(data));
                Socks5Action::Read(2)
            },
            Socks5Phase::Port(host) => {
                let port: u16 = (data[0] as u16) * 256 + (data[1] as u16);
                let h2 = host.clone();
                self.phase = Socks5Phase::Connecting(host, port);
                Socks5Action::Connect(h2, port)
            },
            other => {
                assert(false);
                Socks5Action::Close
            },
        }
    }

    /// Takes the requested IPv6 address, as text, and asks for the port.
    pub fn on_ipv6_host(&mut self, host: String) -> (res: Socks5Action)
        requires
            old(self).phase() is Ipv6Address,
        ensures
            final(self).phase() matches Socks5Phase::Port(h) && h@ == host@,
            reads(res, 2),
    {
        self.phase = Socks5Phase::Port(host);
        Socks5Action::Read(2)
    }

    /// Takes the outcome of the channel request: on success the client gets
    /// the success reply and data starts to flow, otherwise it gets reply
    /// code 5 (connection refused) and the connection closes.
    pub fn on_connect(&mut self, connected: bool) -> (res: Socks5Action)
        requires
            old(self).phase() is Connecting,
        ensures
            connected ==> final(self).phase() is Relaying && (res matches Socks5Action::WriteThenRelay(
                w,
            ) && w@ == socks5_reply(0)),
            !connected ==> final(self).phase() is Closed && (res matches Socks5Action::WriteThenClose(
                w,
            ) && w@ == socks5_reply(5)),
    {
        if connected {
            self.phase = Socks5Phase::Relaying;
            Socks5Action::WriteThenRelay(reply_bytes(0))
        } else {
            self.phase = Socks5Phase::Closed;
            Socks5Action::WriteThenClose(reply_bytes(5))
        }
    }
}

} // verus!
