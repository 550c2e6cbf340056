//! Passive TURN tracking: learns relay allocations and channel bindings from
//! the control traffic, and reports allocations that fail.
use crate::addr::{push_sock, sock_text, Flow5Tuple, IpAddr, IpKey, SockKey, SocketAddr};
use crate::decode::stun::{
    addr_in, attr_value, channel_in, error_in, lifetime_in, parse, stun_message, StunClass, StunModel,
    StunMsg, ATTR_DATA, ATTR_XOR_PEER_ADDRESS, ATTR_XOR_RELAYED_ADDRESS, METHOD_ALLOCATE,
    METHOD_CHANNEL_BIND, METHOD_DATA, METHOD_REFRESH, METHOD_SEND,
};
use crate::digits::{dec, push_dec};
use crate::model::diag::{
    DiagModel, Diagnostic, Severity, TURN_ALLOC_FAILED, TURN_ALLOC_OK, TURN_REFRESH_FAILED,
};
use crate::table::{cut_down, lemma_listed_len, lists, shrink, Key, Table};
use vstd::prelude::*;
use vstd::string::StringExecFns;

verus! {

/// How many allocations are kept.
pub const MAX_ALLOCS: usize = 8192;

/// How many relay addresses are kept.
pub const MAX_RELAYS: usize = 4096;

/// How many server addresses are kept.
pub const MAX_SERVERS: usize = 512;

/// One allocation that was learned.
pub struct TurnAlloc {
    /// The client's control address.
    pub client: SocketAddr,
    /// The server's control address.
    pub server: SocketAddr,
    /// The relayed transport address, once the server has named it.
    pub relayed: Option<SocketAddr>,
    /// The lifetime in seconds.
    pub lifetime: u32,
    /// When it was requested.
    pub created_at_us: u64,
    /// When it was last refreshed.
    pub last_refresh_us: u64,
    /// The peer address of each bound channel.
    pub channels: Table<u16, SocketAddr>,
}

/// A [`TurnAlloc`] in mathematical terms.
#[verifier::ext_equal]
pub ghost struct AllocModel {
    pub client: SocketAddr,
    pub server: SocketAddr,
    pub relayed: Option<SocketAddr>,
    pub lifetime: u32,
    pub created_at_us: u64,
    pub last_refresh_us: u64,
    pub channels: Map<u16, SocketAddr>,
}

impl View for TurnAlloc {
    type V = AllocModel;

    open spec fn view(&self) -> AllocModel {
        AllocModel {
            client: self.client,
            server: self.server,
            relayed: self.relayed,
            lifetime: self.lifetime,
            created_at_us: self.created_at_us,
            last_refresh_us: self.last_refresh_us,
            channels: self.channels@,
        }
    }
}

/// Which leg of a relayed flow a packet is on.
#[derive(Clone, Copy, PartialEq, Eq, Structural, Debug)]
pub enum Leg {
    /// From the client to the relay.
    Client,
    /// From the relay to the peer.
    Peer,
}

impl Leg {
    /// The leg in a word.
    pub fn label(self) -> (r: &'static str)
        ensures
            r@ == match self {
                Leg::Client => "client"@,
                Leg::Peer => "peer"@,
            },
    {
        match self {
            Leg::Client => "client",
            Leg::Peer => "peer",
        }
    }
}

/// How media reached the monitor.
#[derive(Clone, Copy, PartialEq, Eq, Structural, Debug)]
pub enum Encap {
    /// As plain RTP.
    Direct,
    /// In a ChannelData message.
    ChannelData,
    /// In a Send or Data indication.
    SendIndication,
}

/// What was learned of relays.
pub struct TurnTracker {
    /// The allocations, by the client's control address.
    pub allocs: Table<SockKey, TurnAlloc>,
    /// The servers' addresses, configured or learned.
    pub turn_servers: Table<IpKey, ()>,
    /// The addresses of the servers that were configured.
    pub configured: Table<IpKey, ()>,
    /// The relayed transport addresses.
    pub relays: Table<SockKey, ()>,
    /// Control packets seen.
    pub pkts_turn: u64,
}

/// A [`TurnTracker`] in mathematical terms.
#[verifier::ext_equal]
pub ghost struct TurnModel {
    pub allocs: Map<SockKey, AllocModel>,
    pub servers: Set<IpKey>,
    pub configured: Set<IpKey>,
    pub relays: Set<SockKey>,
    pub pkts_turn: int,
}

/// Allocations in mathematical terms.
pub open spec fn alloc_models(m: Map<SockKey, TurnAlloc>) -> Map<SockKey, AllocModel> {
    m.map_values(|a: TurnAlloc| a@)
}

impl View for TurnTracker {
    type V = TurnModel;

    open spec fn view(&self) -> TurnModel {
        TurnModel {
            allocs: alloc_models(self.allocs@),
            servers: self.turn_servers@.dom(),
            configured: self.configured@.dom(),
            relays: self.relays@.dom(),
            pkts_turn: self.pkts_turn as int,
        }
    }
}

/// A tracker with everything that was learned forgotten. The configured
/// servers are kept.
pub open spec fn cleared(t: TurnModel) -> TurnModel {
    TurnModel {
        allocs: Map::empty(),
        servers: t.configured,
        relays: Set::empty(),
        pkts_turn: 0,
        ..t
    }
}

/// The server's end of a control flow: the end that is a known server, the
/// receiver first; else the receiver of an Allocate message and the sender of
/// any other.
pub open spec fn server_end(t: TurnModel, flow: Flow5Tuple, method: u16) -> SocketAddr {
    if t.servers.contains(flow.dst.ip.spec_key()) {
        flow.dst
    } else if t.servers.contains(flow.src.ip.spec_key()) {
        flow.src
    } else if method == METHOD_ALLOCATE {
        flow.dst
    } else {
        flow.src
    }
}

/// The allocation that a request asks for.
pub open spec fn asked_for(ts: u64, flow: Flow5Tuple) -> AllocModel {
    AllocModel {
        client: flow.src,
        server: flow.dst,
        relayed: None,
        lifetime: 0,
        created_at_us: ts,
        last_refresh_us: ts,
        channels: Map::empty(),
    }
}

/// An allocation that the server granted.
pub open spec fn granted(a: AllocModel, m: StunModel) -> AllocModel {
    AllocModel {
        relayed: match addr_in(m, ATTR_XOR_RELAYED_ADDRESS) {
            Some(r) => Some(r),
            None => a.relayed,
        },
        lifetime: match lifetime_in(m) {
            Some(n) => n,
            None => a.lifetime,
        },
        ..a
    }
}

/// What one control message does to the tracker.
pub open spec fn turn_step(t: TurnModel, ts: u64, flow: Flow5Tuple, m: StunModel) -> TurnModel {
    let src = flow.src.spec_key();
    let dst = flow.dst.spec_key();
    let t = if m.method == METHOD_ALLOCATE {
        TurnModel {
            servers: t.servers.insert(server_end(t, flow, m.method).ip.spec_key()),
            ..t
        }
    } else {
        t
    };
    if m.method == METHOD_ALLOCATE && m.class == StunClass::Request {
        TurnModel { allocs: t.allocs.insert(src, asked_for(ts, flow)), ..t }
    } else if m.method == METHOD_ALLOCATE && m.class == StunClass::Success && t.allocs.contains_key(
        dst,
    ) {
        let relay = addr_in(m, ATTR_XOR_RELAYED_ADDRESS);
        TurnModel {
            allocs: t.allocs.insert(dst, granted(t.allocs[dst], m)),
            relays: match relay {
                Some(r) => t.relays.insert(r.spec_key()),
                None => t.relays,
            },
            servers: match relay {
                Some(r) => t.servers.insert(r.ip.spec_key()),
                None => t.servers,
            },
            ..t
        }
    } else if m.method == METHOD_ALLOCATE && m.class == StunClass::Error {
        TurnModel { allocs: t.allocs.remove(dst), ..t }
    } else if m.method == METHOD_REFRESH && m.class == StunClass::Request && t.allocs.contains_key(
        src,
    ) {
        TurnModel {
            allocs: t.allocs.insert(src, AllocModel { last_refresh_us: ts, ..t.allocs[src] }),
            ..t
        }
    } else if m.method == METHOD_CHANNEL_BIND && m.class == StunClass::Request
        && t.allocs.contains_key(src) {
        match (channel_in(m), addr_in(m, ATTR_XOR_PEER_ADDRESS)) {
            (Some(ch), Some(peer)) => TurnModel {
                allocs: t.allocs.insert(
                    src,
                    AllocModel {
                        channels: t.allocs[src].channels.insert(ch, peer),
                        ..t.allocs[src]
                    },
                ),
                ..t
            },
            _ => t,
        }
    } else {
        t
    }
}

/// An error code and its reason in words.
pub open spec fn error_text(m: StunModel) -> Seq<char> {
    match error_in(m) {
        Some(e) => " error="@ + dec(e.0 as nat) + " "@ + e.1,
        None => " error="@ + dec(0) + " "@ + "?"@,
    }
}

/// A finding without a call.
pub open spec fn finding(ts: u64, severity: Severity, code: Seq<char>, message: Seq<char>) -> DiagModel {
    DiagModel { ts_us: ts, call_id: Seq::empty(), severity, code, message }
}

/// The finding that one control message gives rise to: an allocation granted,
/// an allocation refused, a refresh refused.
pub open spec fn turn_finding(t: TurnModel, ts: u64, flow: Flow5Tuple, m: StunModel) -> Option<
    DiagModel,
> {
    let dst = flow.dst.spec_key();
    if m.method == METHOD_ALLOCATE && m.class == StunClass::Success && t.allocs.contains_key(dst) {
        let a = granted(t.allocs[dst], m);
        Some(
            finding(
                ts,
                Severity::Info,
                TURN_ALLOC_OK@,
                "TURN allocation ok client="@ + sock_text(flow.dst) + " relayed="@ + (
                match a.relayed {
                    Some(r) => sock_text(r),
                    None => "-"@,
                }) + " lifetime="@ + dec(a.lifetime as nat) + "s"@,
            ),
        )
    } else if m.method == METHOD_ALLOCATE && m.class == StunClass::Error {
        Some(
            finding(
                ts,
                Severity::Warn,
                TURN_ALLOC_FAILED@,
                "TURN allocation failed client="@ + sock_text(flow.dst) + " server="@ + sock_text(
                    server_end(t, flow, m.method),
                ) + error_text(m),
            ),
        )
    } else if m.method == METHOD_REFRESH && m.class == StunClass::Error {
        Some(
            finding(
                ts,
                Severity::Info,
                TURN_REFRESH_FAILED@,
                "TURN refresh failed client="@ + sock_text(flow.dst) + error_text(m),
            ),
        )
    } else {
        None
    }
}

/// The media that one control message carries.
pub open spec fn turn_media(m: StunModel) -> Option<Seq<u8>> {
    if (m.method == METHOD_SEND || m.method == METHOD_DATA) && m.class == StunClass::Indication {
        attr_value(m, ATTR_DATA, 0)
    } else {
        None
    }
}

/// The leg of a relayed flow that a media flow is: to a relay, or from one.
pub open spec fn leg_in(t: TurnModel, flow: Flow5Tuple) -> Option<Leg> {
    let src = t.relays.contains(flow.src.spec_key());
    let dst = t.relays.contains(flow.dst.spec_key());
    if dst && !src {
        Some(Leg::Client)
    } else if src && !dst {
        Some(Leg::Peer)
    } else {
        None
    }
}

/// The sequence of an optional member.
pub open spec fn as_seq<T>(o: Option<T>) -> Seq<T> {
    match o {
        Some(x) => seq![x],
        None => Seq::empty(),
    }
}

/// Findings in mathematical terms.
pub open spec fn findings(d: Seq<Diagnostic>) -> Seq<DiagModel> {
    d.map_values(|x: Diagnostic| x@)
}

/// Payloads in mathematical terms.
pub open spec fn payloads(m: Seq<Vec<u8>>) -> Seq<Seq<u8>> {
    m.map_values(|x: Vec<u8>| x@)
}

/// The addresses of a list.
pub open spec fn ip_set(ips: Seq<IpAddr>) -> Set<IpKey> {
    ips.map_values(|ip: IpAddr| ip.spec_key()).to_set()
}

/// What is left of the allocations that are cut down to [`MAX_ALLOCS`]: those
/// that go are none younger than those that stay.
pub open spec fn oldest_gone(all: Map<SockKey, AllocModel>, kept: Map<SockKey, AllocModel>) -> bool {
    &&& kept.submap_of(all)
    &&& cut_down(all.dom(), kept.dom(), MAX_ALLOCS as nat)
    &&& forall|k: SockKey, j: SockKey|
        all.contains_key(k) && !kept.contains_key(k) && kept.contains_key(j)
            ==> (#[trigger] all[k]).created_at_us <= (#[trigger] all[j]).created_at_us
}

fn diag(ts: u64, severity: Severity, code: &str, message: String) -> (r: Diagnostic)
    ensures
        r@ == finding(ts, severity, code@, message@),
{
    let r = Diagnostic {
        ts_us: ts,
        call_id: String::new(),
        severity,
        code: code.to_owned(),
        message,
    };
    assert(r.call_id@ =~= Seq::<char>::empty());
    r
}

fn push_error(out: &mut String, msg: &StunMsg)
    ensures
        final(out)@ == old(out)@ + error_text(msg@),
{
    let (code, reason) = match msg.error_code() {
        Some(e) => e,
        None => (0, "?".to_owned()),
    };
    out.append(" error=");
    push_dec(out, code as u64);
    out.append(" ");
    out.append(reason.as_str());
    assert(out@ =~= old(out)@ + error_text(msg@));
}

fn granted_text(client: SocketAddr, relayed: Option<SocketAddr>, lifetime: u32) -> (r: String)
    ensures
        r@ == "TURN allocation ok client="@ + sock_text(client) + " relayed="@ + (match relayed {
            Some(a) => sock_text(a),
            None => "-"@,
        }) + " lifetime="@ + dec(lifetime as nat) + "s"@,
{
    let mut s = "TURN allocation ok client=".to_owned();
    push_sock(&mut s, client);
    s.append(" relayed=");
    match relayed {
        Some(a) => push_sock(&mut s, a),
        None => s.append("-"),
    }
    s.append(" lifetime=");
    push_dec(&mut s, lifetime as u64);
    s.append("s");
    s
}

fn copy_set(t: &Table<IpKey, ()>) -> (r: Table<IpKey, ()>)
    ensures
        r@.dom() == t@.dom(),
{
    let keys = t.keys();
    let mut r: Table<IpKey, ()> = Table::new();
    let mut i: usize = 0;
    while i < keys.len()
        invariant
            i <= keys@.len(),
            lists(keys@, t@),
            forall|k: IpKey| #[trigger] r@.contains_key(k) ==> t@.contains_key(k),
            forall|n: int| 0 <= n < i ==> r@.contains_key(#[trigger] keys@[n]),
        decreases keys@.len() - i,
    {
        assert(t@.contains_key(keys@[i as int].id()));
        r.insert(keys[i], ());
        i += 1;
    }
    assert forall|k: IpKey| t@.contains_key(k) implies r@.contains_key(k) by {
        let n = choose|n: int| 0 <= n < keys@.len() && #[trigger] keys@[n].id() == k;
        assert(r@.contains_key(keys@[n]));
    }
    assert(r@.dom() =~= t@.dom());
    r
}

impl TurnTracker {
    /// A tracker that knows the configured servers, or as many of them as it
    /// keeps.
    pub fn new(configured: &[IpAddr]) -> (r: TurnTracker)
        ensures
            cut_down(ip_set(configured@), r@.configured, MAX_SERVERS as nat),
            r@.servers == r@.configured,
            r@.allocs == Map::<SockKey, AllocModel>::empty(),
            r@.relays == Set::<SockKey>::empty(),
            r@.pkts_turn == 0,
    {
        let mut servers: Table<IpKey, ()> = Table::new();
        let mut i: usize = 0;
        while i < configured.len()
            invariant
                i <= configured@.len(),
                servers@.dom() == ip_set(configured@.take(i as int)),
            decreases configured@.len() - i,
        {
            servers.insert(configured[i].key(), ());
            proof {
                let was = configured@.take(i as int);
                let now = configured@.take(i + 1);
                assert(now =~= was.push(configured@[i as int]));
                let f = |ip: IpAddr| ip.spec_key();
                assert(now.map_values(f) =~= was.map_values(f).push(
                    configured@[i as int].spec_key(),
                ));
                assert(ip_set(now) =~= ip_set(was).insert(configured@[i as int].spec_key())) by {
                    was.map_values(f).lemma_push_to_set_commute(configured@[i as int].spec_key());
                }
            }
            i += 1;
        }
        assert(configured@.take(configured@.len() as int) =~= configured@);
        shrink(&mut servers, MAX_SERVERS);
        let r = TurnTracker {
            allocs: Table::new(),
            turn_servers: copy_set(&servers),
            configured: servers,
            relays: Table::new(),
            pkts_turn: 0,
        };
        assert(r@.allocs =~= Map::<SockKey, AllocModel>::empty());
        r
    }

    /// Forgets what was learned. The configured servers are kept.
    pub fn clear(&mut self)
        ensures
            final(self)@ == cleared(old(self)@),
    {
        self.allocs.clear();
        self.turn_servers = copy_set(&self.configured);
        self.relays.clear();
        self.pkts_turn = 0;
        assert(self@.allocs =~= Map::<SockKey, AllocModel>::empty());
    }

    /// The client of an allocation than which none is older.
    fn oldest(&self) -> (r: Option<SockKey>)
        ensures
            match r {
                Some(k) => {
                    &&& self.allocs@.contains_key(k)
                    &&& forall|j: SockKey|
                        self.allocs@.contains_key(j) ==> self.allocs@[k].created_at_us <= (
                        #[trigger] self.allocs@[j]).created_at_us
                },
                None => self.allocs@.dom() == Set::<SockKey>::empty(),
            },
    {
        let keys = self.allocs.keys();
        let mut best: Option<(SockKey, u64)> = None;
        let mut i: usize = 0;
        while i < keys.len()
            invariant
                i <= keys@.len(),
                lists(keys@, self.allocs@),
                match best {
                    Some(b) => {
                        &&& self.allocs@.contains_key(b.0)
                        &&& self.allocs@[b.0].created_at_us == b.1
                        &&& forall|j: int|
                            0 <= j < i ==> b.1 <= self.allocs@[#[trigger] keys@[j]].created_at_us
                    },
                    None => i == 0,
                },
            decreases keys@.len() - i,
        {
            let k: SockKey = keys[i];
            assert(self.allocs@.contains_key(keys@[i as int]));
            let made: u64 = match self.allocs.get(&k) {
                Some(a) => a.created_at_us,
                None => 0,
            };
            let younger = match best {
                Some(b) => made >= b.1,
                None => false,
            };
            if !younger {
                best = Some((k, made));
            }
            i += 1;
        }
        match best {
            Some(b) => {
                assert forall|j: SockKey| self.allocs@.contains_key(j) implies self.allocs@[b.0].created_at_us
                    <= (#[trigger] self.allocs@[j]).created_at_us by {
                    let n = choose|n: int| 0 <= n < keys@.len() && #[trigger] keys@[n] == j;
                    assert(b.1 <= self.allocs@[keys@[n]].created_at_us);
                }
                Some(b.0)
            },
            None => {
                proof {
                    lemma_listed_len(keys@, self.allocs@);
                    assert(self.allocs@.dom() =~= Set::<SockKey>::empty());
                }
                None
            },
        }
    }

    /// Cuts what was learned down to its limits. The oldest allocations go
    /// first; which relay and server addresses go is not said.
    pub fn prune(&mut self)
        ensures
            oldest_gone(old(self)@.allocs, final(self)@.allocs),
            cut_down(old(self)@.relays, final(self)@.relays, MAX_RELAYS as nat),
            cut_down(old(self)@.servers, final(self)@.servers, MAX_SERVERS as nat),
            final(self)@.configured == old(self)@.configured,
            final(self)@.pkts_turn == old(self)@.pkts_turn,
    {
        let ghost all = self@.allocs;
        let n = self.allocs.len();
        assert(all.dom() =~= self.allocs@.dom());
        while self.allocs.len() > MAX_ALLOCS
            invariant
                all == old(self)@.allocs,
                all.dom().finite(),
                all.dom().len() == n,
                self@.allocs.dom() =~= self.allocs@.dom(),
                self.allocs@.dom().finite(),
                self@.allocs.submap_of(all),
                n <= MAX_ALLOCS ==> self@.allocs == all,
                n > MAX_ALLOCS ==> self@.allocs.dom().len() >= MAX_ALLOCS,
                forall|k: SockKey, j: SockKey|
                    all.contains_key(k) && !self@.allocs.contains_key(k)
                        && self@.allocs.contains_key(j) ==> (#[trigger] all[k]).created_at_us <= (
                    #[trigger] all[j]).created_at_us,
                self.turn_servers == old(self).turn_servers,
                self.configured == old(self).configured,
                self.relays == old(self).relays,
                self.pkts_turn == old(self).pkts_turn,
            decreases self.allocs@.dom().len(),
        {
            let ghost was = self.allocs@;
            let ghost models = self@.allocs;
            assert(models.submap_of(all));
            match self.oldest() {
                Some(k) => {
                    self.allocs.remove(&k);
                    proof {
                        assert(was.contains_key(k));
                        assert(self@.allocs.dom() =~= was.dom().remove(k));
                        assert forall|x: SockKey, j: SockKey|
                            all.contains_key(x) && !self@.allocs.contains_key(x)
                                && self@.allocs.contains_key(j) implies (#[trigger] all[x]).created_at_us
                            <= (#[trigger] all[j]).created_at_us by {
                            assert(models.submap_of(all));
                            assert(models.dom().contains(j));
                            assert(models[j] == was[j]@);
                            assert(all.dom().contains(j));
                            assert(all.dom().contains(j) && all[j] == models[j]);
                            if x == k {
                                assert(models.dom().contains(k) && models[k] == was[k]@);
                                assert(all.dom().contains(k) && all[k] == models[k]);
                            }
                        }
                        assert(self@.allocs.submap_of(all)) by {
                            assert forall|j: SockKey| self@.allocs.contains_key(j) implies all.contains_key(
                                j,
                            ) && all[j] == self@.allocs[j] by {
                                assert(models.dom().contains(j));
                            }
                        }
                    }
                },
                None => {
                    assert(was.dom().len() == 0);
                },
            }
        }
        shrink(&mut self.relays, MAX_RELAYS);
        shrink(&mut self.turn_servers, MAX_SERVERS);
    }

    /// Whether an address is that of a known server.
    pub fn is_turn_server(&self, ip: &IpAddr) -> (r: bool)
        ensures
            r == self@.servers.contains(ip.spec_key()),
    {
        self.turn_servers.contains_key(&ip.key())
    }

    /// Whether an address is that of a known relay.
    pub fn is_relay_addr(&self, addr: &SocketAddr) -> (r: bool)
        ensures
            r == self@.relays.contains(addr.spec_key()),
    {
        self.relays.contains_key(&addr.key())
    }

    /// Which leg of a relayed flow a media flow is, where exactly one of its
    /// ends is a relay.
    pub fn leg_of(&self, flow: &Flow5Tuple) -> (r: Option<Leg>)
        ensures
            r == leg_in(self@, *flow),
    {
        let src = self.is_relay_addr(&flow.src);
        let dst = self.is_relay_addr(&flow.dst);
        if dst && !src {
            Some(Leg::Client)
        } else if src && !dst {
            Some(Leg::Peer)
        } else {
            None
        }
    }

    fn server_side(&self, flow: &Flow5Tuple, method: u16) -> (r: SocketAddr)
        ensures
            r == server_end(self@, *flow, method),
    {
        if self.is_turn_server(&flow.dst.ip) {
            flow.dst
        } else if self.is_turn_server(&flow.src.ip) {
            flow.src
        } else if method == METHOD_ALLOCATE {
            flow.dst
        } else {
            flow.src
        }
    }

    /// Takes in one control message.
    pub fn apply(&mut self, ts: u64, flow: &Flow5Tuple, msg: &StunMsg) -> (r: (
        Vec<Diagnostic>,
        Vec<Vec<u8>>,
    ))
        requires
            msg.wf(),
        ensures
            final(self)@ == turn_step(old(self)@, ts, *flow, msg@),
            findings(r.0@) == as_seq(turn_finding(old(self)@, ts, *flow, msg@)),
            payloads(r.1@) == as_seq(turn_media(msg@)),
    {
        let mut diags: Vec<Diagnostic> = Vec::new();
        let mut media: Vec<Vec<u8>> = Vec::new();
        let side = self.server_side(flow, msg.method);
        let allocate = msg.method == METHOD_ALLOCATE;
        let ghost was = self@;
        if allocate {
            self.turn_servers.insert(side.ip.key(), ());
        }
        let ghost known = self@;
        assert(known.allocs == was.allocs);
        match msg.class {
            StunClass::Request => {
                let client = flow.src.key();
                if allocate {
                    let a = TurnAlloc {
                        client: flow.src,
                        server: flow.dst,
                        relayed: None,
                        lifetime: 0,
                        created_at_us: ts,
                        last_refresh_us: ts,
                        channels: Table::new(),
                    };
                    assert(a@ =~= asked_for(ts, *flow));
                    self.allocs.insert(client, a);
                    assert(self@.allocs =~= known.allocs.insert(client, a@));
                } else if msg.method == METHOD_REFRESH {
                    if let Some(a) = self.allocs.get_mut(&client) {
                        a.last_refresh_us = ts;
                    }
                } else if msg.method == METHOD_CHANNEL_BIND {
                    if let Some(a) = self.allocs.get_mut(&client) {
                        if let Some(ch) = msg.channel_number() {
                            if let Some(peer) = msg.peer_address() {
                                a.channels.insert(ch, peer);
                            }
                        }
                    }
                }
            },
            StunClass::Success => {
                if allocate {
                    let client = flow.dst.key();
                    let relay = msg.relayed_address();
                    let mut done: Option<(Option<SocketAddr>, u32)> = None;
                    if let Some(a) = self.allocs.get_mut(&client) {
                        if let Some(r) = relay {
                            a.relayed = Some(r);
                        }
                        if let Some(n) = msg.lifetime() {
                            a.lifetime = n;
                        }
                        done = Some((a.relayed, a.lifetime));
                    }
                    if let Some((relayed, lifetime)) = done {
                        if let Some(r) = relay {
                            self.relays.insert(r.key(), ());
                            self.turn_servers.insert(r.ip.key(), ());
                        }
                        let text = granted_text(flow.dst, relayed, lifetime);
                        diags.push(diag(ts, Severity::Info, TURN_ALLOC_OK, text));
                    }
                }
            },
            StunClass::Error => {
                if allocate {
                    let mut text = "TURN allocation failed client=".to_owned();
                    push_sock(&mut text, flow.dst);
                    text.append(" server=");
                    push_sock(&mut text, side);
                    push_error(&mut text, msg);
                    diags.push(diag(ts, Severity::Warn, TURN_ALLOC_FAILED, text));
                    self.allocs.remove(&flow.dst.key());
                } else if msg.method == METHOD_REFRESH {
                    let mut text = "TURN refresh failed client=".to_owned();
                    push_sock(&mut text, flow.dst);
                    push_error(&mut text, msg);
                    diags.push(diag(ts, Severity::Info, TURN_REFRESH_FAILED, text));
                }
            },
            StunClass::Indication => {
                if msg.method == METHOD_SEND || msg.method == METHOD_DATA {
                    if let Some(d) = msg.data_payload() {
                        media.push(d);
                    }
                }
            },
        }
        assert(self@ =~= turn_step(was, ts, *flow, msg@));
        assert(findings(diags@) =~= as_seq(turn_finding(was, ts, *flow, msg@)));
        assert(payloads(media@) =~= as_seq(turn_media(msg@)));
        (diags, media)
    }

    /// Takes in one STUN or TURN datagram. Returns the findings, without a
    /// call, and the media payloads that it carries.
    pub fn ingest(&mut self, ts: u64, flow: &Flow5Tuple, payload: &[u8]) -> (r: (
        Vec<Diagnostic>,
        Vec<Vec<u8>>,
    ))
        requires
            old(self).pkts_turn < u64::MAX,
        ensures
            ({
                let t = TurnModel { pkts_turn: old(self)@.pkts_turn + 1, ..old(self)@ };
                match stun_message(payload@) {
                    Some(m) => {
                        &&& final(self)@ == turn_step(t, ts, *flow, m)
                        &&& findings(r.0@) == as_seq(turn_finding(t, ts, *flow, m))
                        &&& payloads(r.1@) == as_seq(turn_media(m))
                    },
                    None => final(self)@ == t && r.0@.len() == 0 && r.1@.len() == 0,
                }
            }),
    {
        self.pkts_turn += 1;
        match parse(payload) {
            Some(m) => self.apply(ts, flow, &m),
            None => (Vec::new(), Vec::new()),
        }
    }
}

/// A flow and its reverse are the two legs of one relay, or neither is a leg.
pub proof fn the_reverse_of_a_leg_is_the_other_leg(t: TurnModel, flow: Flow5Tuple, back: Flow5Tuple)
    requires
        back.src == flow.dst,
        back.dst == flow.src,
    ensures
        leg_in(t, flow) == Some(Leg::Client) <==> leg_in(t, back) == Some(Leg::Peer),
        leg_in(t, flow) is None <==> leg_in(t, back) is None,
{
}

/// A request and the success response to it teach the tracker the relay: the
/// allocation has it, its address is a relay's and a server's, and a flow
/// from elsewhere to it is the client's leg.
pub proof fn an_allocation_teaches_its_relay(
    t: TurnModel,
    ts: u64,
    later: u64,
    flow: Flow5Tuple,
    back: Flow5Tuple,
    request: StunModel,
    response: StunModel,
    relay: SocketAddr,
    media: Flow5Tuple,
)
    requires
        back.src == flow.dst,
        back.dst == flow.src,
        request.method == METHOD_ALLOCATE && request.class == StunClass::Request,
        response.method == METHOD_ALLOCATE && response.class == StunClass::Success,
        addr_in(response, ATTR_XOR_RELAYED_ADDRESS) == Some(relay),
        media.dst == relay,
    ensures
        ({
            let end = turn_step(turn_step(t, ts, flow, request), later, back, response);
            let client = flow.src.spec_key();
            &&& end.allocs.contains_key(client)
            &&& end.allocs[client].relayed == Some(relay)
            &&& end.relays.contains(relay.spec_key())
            &&& end.servers.contains(relay.ip.spec_key())
            &&& !end.relays.contains(media.src.spec_key()) ==> leg_in(end, media) == Some(
                Leg::Client,
            )
            &&& turn_finding(turn_step(t, ts, flow, request), later, back, response) is Some
        }),
{
}

/// A refused allocation is forgotten, and always reported as a warning.
pub proof fn a_refused_allocation_is_forgotten(
    t: TurnModel,
    ts: u64,
    flow: Flow5Tuple,
    m: StunModel,
)
    requires
        m.method == METHOD_ALLOCATE && m.class == StunClass::Error,
    ensures
        !turn_step(t, ts, flow, m).allocs.contains_key(flow.dst.spec_key()),
        turn_finding(t, ts, flow, m) matches Some(d) && d.severity == Severity::Warn && d.code
            == TURN_ALLOC_FAILED@,
{
}

/// An Allocate message makes one end of its flow a known server, and no
/// message makes a server or a relay unknown.
pub proof fn servers_are_learned_and_kept(t: TurnModel, ts: u64, flow: Flow5Tuple, m: StunModel)
    ensures
        t.servers.subset_of(turn_step(t, ts, flow, m).servers),
        t.relays.subset_of(turn_step(t, ts, flow, m).relays),
        m.method == METHOD_ALLOCATE ==> {
            ||| turn_step(t, ts, flow, m).servers.contains(flow.dst.ip.spec_key())
            ||| turn_step(t, ts, flow, m).servers.contains(flow.src.ip.spec_key())
        },
{
}

/// Clearing leaves a tracker as it was when only its configured servers were
/// known, whatever it learned since.
pub proof fn clearing_unlearns(t: TurnModel, ts: u64, flow: Flow5Tuple, m: StunModel)
    ensures
        cleared(turn_step(t, ts, flow, m)) == cleared(t),
        cleared(t).servers == t.configured,
{
}

/// Whether a message is an Allocate, which has the number 3.
pub open spec fn is_allocate(m: StunModel) -> bool {
    m.method == 3
}

/// A request for an allocation is noted with its two ends and its time, under the
/// client's address, and takes the place of one that stood there. It makes its
/// receiver a server, unless an end is known as one.
pub proof fn a_request_is_noted(t: TurnModel, ts: u64, flow: Flow5Tuple, m: StunModel)
    requires
        is_allocate(m),
        m.class == StunClass::Request,
    ensures
        ({
            let n = turn_step(t, ts, flow, m);
            let client = flow.src.spec_key();
            &&& n.allocs.contains_key(client)
            &&& n.allocs[client].client == flow.src && n.allocs[client].server == flow.dst
            &&& n.allocs[client].relayed is None && n.allocs[client].lifetime == 0
            &&& n.allocs[client].created_at_us == ts && n.allocs[client].last_refresh_us == ts
            &&& n.allocs[client].channels.dom() =~= Set::empty()
            &&& n.allocs.remove(client) == t.allocs.remove(client)
            &&& n.relays == t.relays && n.configured == t.configured && n.pkts_turn == t.pkts_turn
            &&& !t.servers.contains(flow.src.ip.spec_key()) ==> n.servers == t.servers.insert(
                flow.dst.ip.spec_key(),
            )
            &&& t.servers.contains(flow.dst.ip.spec_key()) || t.servers.contains(
                flow.src.ip.spec_key(),
            ) ==> n.servers == t.servers
            &&& turn_finding(t, ts, flow, m) is None
            &&& turn_media(m) is None
        }),
{
    let n = turn_step(t, ts, flow, m);
    let client = flow.src.spec_key();
    assert(n.allocs.remove(client) =~= t.allocs.remove(client));
    if t.servers.contains(flow.dst.ip.spec_key()) {
        assert(n.servers =~= t.servers);
        assert(t.servers.insert(flow.dst.ip.spec_key()) =~= t.servers);
    } else if t.servers.contains(flow.src.ip.spec_key()) {
        assert(n.servers =~= t.servers);
    }
}

/// A success response completes the allocation of its receiver: with the relayed
/// address of type 22 and the lifetime that it names, each where it names one. The
/// address is a relay's and a server's from then on. All of it is reported.
pub proof fn a_success_completes_the_allocation(t: TurnModel, ts: u64, flow: Flow5Tuple, m: StunModel)
    requires
        is_allocate(m),
        m.class == StunClass::Success,
        t.allocs.contains_key(flow.dst.spec_key()),
    ensures
        ({
            let n = turn_step(t, ts, flow, m);
            let client = flow.dst.spec_key();
            let was = t.allocs[client];
            let is = n.allocs[client];
            &&& n.allocs.contains_key(client)
            &&& addr_in(m, 22) is Some ==> is.relayed == addr_in(m, 22)
            &&& addr_in(m, 22) is None ==> is.relayed == was.relayed
            &&& lifetime_in(m) is Some ==> is.lifetime == lifetime_in(m)->0
            &&& lifetime_in(m) is None ==> is.lifetime == was.lifetime
            &&& is.client == was.client && is.server == was.server && is.channels == was.channels
            &&& is.created_at_us == was.created_at_us && is.last_refresh_us == was.last_refresh_us
            &&& n.allocs.remove(client) == t.allocs.remove(client)
            &&& addr_in(m, 22) matches Some(r) ==> n.relays == t.relays.insert(r.spec_key())
                && n.servers.contains(r.ip.spec_key())
            &&& addr_in(m, 22) is None ==> n.relays == t.relays
            &&& turn_finding(t, ts, flow, m) matches Some(d) && {
                &&& d.ts_us == ts && d.severity == Severity::Info && d.code == "TURN_ALLOC_OK"@
                &&& d.call_id.len() == 0
                &&& d.message == "TURN allocation ok client="@ + sock_text(flow.dst) + " relayed="@ + (
                if is.relayed is Some {
                    sock_text(is.relayed->0)
                } else {
                    "-"@
                }) + " lifetime="@ + dec(is.lifetime as nat) + "s"@
            }
        }),
{
    let n = turn_step(t, ts, flow, m);
    let client = flow.dst.spec_key();
    assert(n.allocs.remove(client) =~= t.allocs.remove(client));
}

/// An error response ends the allocation of its receiver, and is reported with the
/// error that it names.
pub proof fn an_error_ends_the_allocation(t: TurnModel, ts: u64, flow: Flow5Tuple, m: StunModel)
    requires
        is_allocate(m),
        m.class == StunClass::Error,
    ensures
        ({
            let n = turn_step(t, ts, flow, m);
            let server = if t.servers.contains(flow.dst.ip.spec_key()) || !t.servers.contains(
                flow.src.ip.spec_key(),
            ) {
                flow.dst
            } else {
                flow.src
            };
            &&& n.allocs == t.allocs.remove(flow.dst.spec_key())
            &&& n.relays == t.relays
            &&& turn_finding(t, ts, flow, m) matches Some(d) && {
                &&& d.ts_us == ts && d.severity == Severity::Warn && d.code == "TURN_ALLOC_FAILED"@
                &&& error_in(m) matches Some(e) ==> d.message == "TURN allocation failed client="@
                    + sock_text(flow.dst) + " server="@ + sock_text(server) + (" error="@ + dec(
                    e.0 as nat,
                ) + " "@ + e.1)
                &&& error_in(m) is None ==> d.message == "TURN allocation failed client="@
                    + sock_text(flow.dst) + " server="@ + sock_text(server) + (" error="@ + dec(0)
                    + " "@ + "?"@)
            }
        }),
{
}

/// A request to refresh notes its time in the allocation of its sender and changes
/// nothing else; an error response to one is reported and changes nothing.
pub proof fn a_refresh_notes_its_time(t: TurnModel, ts: u64, flow: Flow5Tuple, m: StunModel)
    requires
        m.method == 4,
    ensures
        ({
            let n = turn_step(t, ts, flow, m);
            let client = flow.src.spec_key();
            let noted = m.class == StunClass::Request && t.allocs.contains_key(client);
            &&& noted ==> {
                let was = t.allocs[client];
                let is = n.allocs[client];
                &&& n.allocs.contains_key(client)
                &&& is.last_refresh_us == ts
                &&& is.created_at_us == was.created_at_us && is.relayed == was.relayed
                &&& is.lifetime == was.lifetime && is.channels == was.channels
                &&& is.client == was.client && is.server == was.server
                &&& n.allocs.remove(client) == t.allocs.remove(client)
            }
            &&& !noted ==> n == t
            &&& n.servers == t.servers && n.relays == t.relays
            &&& m.class == StunClass::Error ==> turn_finding(t, ts, flow, m) is Some
            &&& turn_finding(t, ts, flow, m) matches Some(d) ==> {
                &&& d.severity == Severity::Info && d.code == "TURN_REFRESH_FAILED"@
                &&& d.ts_us == ts
                &&& d.message == "TURN refresh failed client="@ + sock_text(flow.dst) + error_text(m)
            }
            &&& m.class != StunClass::Error ==> turn_finding(t, ts, flow, m) is None
        }),
{
    let n = turn_step(t, ts, flow, m);
    let client = flow.src.spec_key();
    assert(n.allocs.remove(client) =~= t.allocs.remove(client));
}

/// A request to bind a channel binds it to the peer of type 18, in the allocation of
/// its sender, where it names both. Other channels stay bound.
pub proof fn a_channel_is_bound_to_its_peer(t: TurnModel, ts: u64, flow: Flow5Tuple, m: StunModel)
    requires
        m.method == 9,
    ensures
        ({
            let n = turn_step(t, ts, flow, m);
            let client = flow.src.spec_key();
            let bound = m.class == StunClass::Request && t.allocs.contains_key(client) && channel_in(
                m,
            ) is Some && addr_in(m, 18) is Some;
            &&& bound ==> {
                let was = t.allocs[client];
                let is = n.allocs[client];
                &&& n.allocs.contains_key(client)
                &&& is.channels.contains_key(channel_in(m)->0)
                &&& is.channels[channel_in(m)->0] == addr_in(m, 18)->0
                &&& is.channels.remove(channel_in(m)->0) == was.channels.remove(channel_in(m)->0)
                &&& is.relayed == was.relayed && is.lifetime == was.lifetime
                &&& n.allocs.remove(client) == t.allocs.remove(client)
            }
            &&& !bound ==> n == t
            &&& n.servers == t.servers && n.relays == t.relays
            &&& turn_finding(t, ts, flow, m) is None
        }),
{
    let n = turn_step(t, ts, flow, m);
    let client = flow.src.spec_key();
    assert(n.allocs.remove(client) =~= t.allocs.remove(client));
    if t.allocs.contains_key(client) && channel_in(m) is Some {
        assert(n.allocs[client].channels.remove(channel_in(m)->0) =~= t.allocs[client].channels.remove(
            channel_in(m)->0,
        ));
    }
}

/// Messages of other methods change nothing and are not reported.
pub proof fn other_methods_change_nothing(t: TurnModel, ts: u64, flow: Flow5Tuple, m: StunModel)
    requires
        m.method != 3,
        m.method != 4,
        m.method != 9,
    ensures
        turn_step(t, ts, flow, m) == t,
        turn_finding(t, ts, flow, m) is None,
{
}

/// Send and Data indications carry media, in their attribute of type 19, and nothing
/// else does.
pub proof fn indications_carry_media(m: StunModel)
    ensures
        (m.method == 6 || m.method == 7) && m.class == StunClass::Indication ==> turn_media(m)
            == attr_value(m, 19, 0),
        (m.method != 6 && m.method != 7) || m.class != StunClass::Indication ==> turn_media(m) is None,
{
}

/// A flow to a relay is the client's leg and a flow from one the peer's; a flow
/// between two relays, or between none, is neither.
pub proof fn a_leg_is_told_by_its_relay(t: TurnModel, flow: Flow5Tuple)
    ensures
        leg_in(t, flow) == Some(Leg::Client) <==> t.relays.contains(flow.dst.spec_key())
            && !t.relays.contains(flow.src.spec_key()),
        leg_in(t, flow) == Some(Leg::Peer) <==> t.relays.contains(flow.src.spec_key())
            && !t.relays.contains(flow.dst.spec_key()),
{
}

/// What a cleared tracker knows: the configured servers, and nothing that it learned.
pub proof fn a_cleared_tracker_knows_its_configured_servers(t: TurnModel)
    ensures
        cleared(t).servers == t.configured && cleared(t).configured == t.configured,
        cleared(t).pkts_turn == 0,
        forall|k: SockKey| !#[trigger] cleared(t).allocs.contains_key(k),
        forall|k: SockKey| !#[trigger] cleared(t).relays.contains(k),
{
}

/// Of too many allocations the oldest go, down to 8192, and the others stay as they
/// are.
pub proof fn the_oldest_allocations_go(all: Map<SockKey, AllocModel>, kept: Map<SockKey, AllocModel>)
    requires
        oldest_gone(all, kept),
    ensures
        kept.dom().len() <= 8192,
        all.dom().len() <= 8192 ==> kept.dom() == all.dom(),
        all.dom().len() > 8192 ==> kept.dom().len() == 8192,
        forall|k: SockKey| #[trigger]
            kept.contains_key(k) ==> all.contains_key(k) && kept[k] == all[k],
        forall|k: SockKey, j: SockKey|
            all.contains_key(k) && !kept.contains_key(k) && kept.contains_key(j) ==> (
            #[trigger] all[k]).created_at_us <= (#[trigger] all[j]).created_at_us,
{
    assert forall|k: SockKey| #[trigger] kept.contains_key(k) implies all.contains_key(k) && kept[k]
        == all[k] by {
        assert(kept.dom().contains(k));
    }
}

/// A tracker that is cut down keeps at most 4096 relays and 512 servers, all of them
/// where there are no more.
pub proof fn relays_and_servers_keep_their_limits(
    relays: Set<SockKey>,
    kept_relays: Set<SockKey>,
    servers: Set<IpKey>,
    kept_servers: Set<IpKey>,
)
    requires
        cut_down(relays, kept_relays, MAX_RELAYS as nat),
        cut_down(servers, kept_servers, MAX_SERVERS as nat),
    ensures
        kept_relays.subset_of(relays) && kept_servers.subset_of(servers),
        relays.len() <= 4096 ==> kept_relays == relays,
        relays.len() > 4096 ==> kept_relays.len() == 4096,
        servers.len() <= 512 ==> kept_servers == servers,
        servers.len() > 512 ==> kept_servers.len() == 512,
{
}

} // verus!
