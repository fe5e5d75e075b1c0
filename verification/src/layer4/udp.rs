//! The UDP proxy: upstream selection per flow, the bounded flow table, and the
//! handoff of flows to a replacement process.
//!
//! Every client has one flow with its own upstream socket. The table is bounded:
//! a new client of a full table takes the place of the flow that was idle
//! longest, and a flow that saw no traffic for the idle timeout is evicted.
use crate::config::answers::{HostAnswer, HostAnswerView};
use crate::config::ast::{
    Dup, L4Upstream, L4UpstreamView, Layer4Listener, Layer4ListenerView, LbPolicy, ListenAddress,
    Same, UdpProxyConfig, UdpProxyConfigView,
};
use crate::config::compiled::CompiledConfigView;
use crate::config::snapshot::{ever_stored, ConfigStore};
use crate::layer4::hash::{fnv1a, stable_hash};
use crate::layer4::tcp::{
    gives, listener_addresses, resolve_listener_upstream, ResolveFault, ResolveFaultView,
};
use crate::net::SocketAddr;
use crate::text::{cat3, owned};
use crate::time::Duration;
use vstd::prelude::*;
use vstd::utf8::encode_utf8;

verus! {

// ---------------------------------------------------------------------------
// The selection state of a listener
// ---------------------------------------------------------------------------

/// How a listener is named in messages.
pub open spec fn udp_listener_text(listen: ListenAddress) -> Seq<char> {
    "udp listener "@ + listen.socket().text() + ":"@
}

/// The first address of each of the upstreams `us[i..]` of a listener, after
/// `done`.
pub open spec fn firsts_from(
    hosts: Seq<HostAnswerView>,
    what: Seq<char>,
    us: Seq<L4UpstreamView>,
    i: int,
    done: Seq<SocketAddr>,
) -> Result<Seq<SocketAddr>, ResolveFaultView>
    decreases us.len() - i,
{
    if i < 0 || i >= us.len() {
        Ok(done)
    } else {
        match listener_addresses(hosts, what, us[i]) {
            Err(f) => Err(f),
            Ok(addrs) => firsts_from(hosts, what, us, i + 1, done.push(addrs[0])),
        }
    }
}

/// The addresses that a `udp` listener resolves to, one per upstream.
pub open spec fn udp_addresses(hosts: Seq<HostAnswerView>, udp: UdpProxyConfigView) -> Result<
    Seq<SocketAddr>,
    ResolveFaultView,
> {
    firsts_from(hosts, udp_listener_text(udp.listen), udp.upstreams, 0, Seq::empty())
}

/// Resolve the upstreams of a `udp` listener, each to its first address.
pub fn resolve_udp_upstreams(hosts: &Vec<HostAnswer>, udp: &UdpProxyConfig) -> (r: Result<
    Vec<SocketAddr>,
    ResolveFault,
>)
    ensures
        gives(r, udp_addresses(hosts.deep_view(), udp.deep_view())),
{
    let at = udp.listen.display();
    let what = cat3("udp listener ", at.as_str(), ":");
    let ghost us = udp.upstreams.deep_view();
    let mut out: Vec<SocketAddr> = Vec::new();
    let mut i: usize = 0;
    assert(out.deep_view() == Seq::<SocketAddr>::empty());
    while i < udp.upstreams.len()
        invariant
            i <= udp.upstreams@.len(),
            us == udp.upstreams.deep_view(),
            what@ == udp_listener_text(udp.listen),
            firsts_from(hosts.deep_view(), what@, us, 0, Seq::empty()) == firsts_from(
                hosts.deep_view(),
                what@,
                us,
                i as int,
                out.deep_view(),
            ),
        decreases udp.upstreams@.len() - i,
    {
        assert(us[i as int] == udp.upstreams@[i as int].deep_view());
        match resolve_listener_upstream(hosts, what.as_str(), &udp.upstreams[i]) {
            Err(f) => {
                return Err(f);
            },
            Ok(addrs) => {
                let ghost before = out.deep_view();
                out.push(addrs[0]);
                assert(addrs.deep_view()[0] == addrs@[0]);
                assert(out.deep_view() == before.push(addrs.deep_view()[0]));
            },
        }
        i += 1;
    }
    Ok(out)
}

/// What selection depends on; a reload replaces it for new flows.
pub struct UdpState {
    /// The upstreams as they were configured.
    pub configured: Vec<L4Upstream>,
    pub upstreams: Vec<SocketAddr>,
    pub policy: LbPolicy,
    pub idle_timeout: Duration,
    pub max_flows: usize,
    pub max_datagram_size: usize,
}

impl UdpState {
    /// Whether this state was made from the settings of a listener.
    pub open spec fn made_from(self, udp: UdpProxyConfigView) -> bool {
        &&& self.configured.deep_view() == udp.upstreams
        &&& self.policy == udp.lb_policy
        &&& self.idle_timeout == udp.idle_timeout
        &&& self.max_flows == udp.max_flows
        &&& self.max_datagram_size == udp.max_datagram_size
    }

    /// Whether this state serves a listener: made from its settings, with the
    /// addresses that its upstreams resolve to.
    pub open spec fn serves(self, hosts: Seq<HostAnswerView>, udp: UdpProxyConfigView) -> bool {
        &&& self.made_from(udp)
        &&& udp_addresses(hosts, udp) == Ok::<Seq<SocketAddr>, ResolveFaultView>(self.upstreams@)
    }

    /// Resolve the upstreams of a listener and make its state.
    pub fn build(udp: &UdpProxyConfig, hosts: &Vec<HostAnswer>) -> (r: Result<
        UdpState,
        ResolveFault,
    >)
        ensures
            match r {
                Ok(s) => s.serves(hosts.deep_view(), udp.deep_view()),
                Err(f) => udp_addresses(hosts.deep_view(), udp.deep_view()) == Err::<
                    Seq<SocketAddr>,
                    ResolveFaultView,
                >(f.deep_view()),
            },
    {
        match resolve_udp_upstreams(hosts, udp) {
            Err(f) => Err(f),
            Ok(upstreams) => {
                assert(upstreams.deep_view() == upstreams@);
                Ok(
                    UdpState {
                        configured: udp.upstreams.dup(),
                        upstreams,
                        policy: udp.lb_policy,
                        idle_timeout: udp.idle_timeout,
                        max_flows: udp.max_flows,
                        max_datagram_size: udp.max_datagram_size,
                    },
                )
            },
        }
    }

    fn is_made_from(&self, udp: &UdpProxyConfig) -> (r: bool)
        ensures
            r == self.made_from(udp.deep_view()),
    {
        self.configured.same_as(&udp.upstreams) && self.policy == udp.lb_policy
            && self.idle_timeout == udp.idle_timeout && self.max_flows == udp.max_flows
            && self.max_datagram_size == udp.max_datagram_size
    }
}

/// The first `udp` listener at `listen` among `ls`, from `i` on.
pub open spec fn udp_at(ls: Seq<Layer4ListenerView>, listen: ListenAddress, i: int) -> Option<
    UdpProxyConfigView,
>
    decreases ls.len() - i,
{
    if i < 0 || i >= ls.len() {
        None
    } else {
        match ls[i] {
            Layer4ListenerView::Udp(u) => if u.listen == listen {
                Some(u)
            } else {
                udp_at(ls, listen, i + 1)
            },
            _ => udp_at(ls, listen, i + 1),
        }
    }
}

/// Find the `udp` listener at `listen`.
pub fn find_udp<'a>(ls: &'a Vec<Layer4Listener>, listen: ListenAddress) -> (r: Option<
    &'a UdpProxyConfig,
>)
    ensures
        match r {
            Some(u) => udp_at(ls.deep_view(), listen, 0) == Some(u.deep_view()),
            None => udp_at(ls.deep_view(), listen, 0) is None,
        },
{
    let ghost all = ls.deep_view();
    let mut i: usize = 0;
    while i < ls.len()
        invariant
            i <= ls@.len(),
            all == ls.deep_view(),
            udp_at(all, listen, 0) == udp_at(all, listen, i as int),
        decreases ls@.len() - i,
    {
        assert(all[i as int] == ls@[i as int].deep_view());
        if let Layer4Listener::Udp(u) = &ls[i] {
            if u.listen == listen {
                return Some(u);
            }
        }
        i += 1;
    }
    None
}

/// What became of a state that was checked against the live configuration.
#[derive(PartialEq, Eq, Debug)]
pub enum Reload {
    /// Nothing changed, or the listener is not in the configuration.
    Kept,
    /// A new state took its place.
    Rebuilt,
    /// The new state could not be made; the old one goes on serving.
    Failed(ResolveFault),
}

/// The state of a listener together with the generation of the configuration
/// that it was last compared with.
pub struct UdpSelection {
    pub state: UdpState,
    pub applied_generation: u64,
    /// Counts the flows that round-robin and random have placed.
    pub cursor: usize,
}

/// What following a reload does: nothing for a generation already seen; else a
/// new state when the settings changed, and no change when the listener is gone
/// or its upstreams do not resolve.
pub open spec fn reloaded(
    before: UdpSelection,
    after: UdpSelection,
    r: Reload,
    ls: Seq<Layer4ListenerView>,
    generation: u64,
    listen: ListenAddress,
    hosts: Seq<HostAnswerView>,
) -> bool {
    let found = udp_at(ls, listen, 0);
    let due = before.applied_generation != generation && found is Some && !before.state.made_from(
        found->0,
    );
    &&& after.cursor == before.cursor
    &&& after.applied_generation == (if r matches Reload::Failed(f) && f is NeedsHost {
        before.applied_generation
    } else {
        generation
    })
    &&& match r {
        Reload::Kept => !due && after.state == before.state,
        Reload::Rebuilt => due && after.state.serves(hosts, found->0),
        Reload::Failed(f) => due && after.state == before.state && udp_addresses(hosts, found->0)
            == Err::<Seq<SocketAddr>, ResolveFaultView>(f.deep_view()),
    }
}

impl UdpSelection {
    /// Follow a reload of the configuration in a store.
    pub fn follow(
        &mut self,
        store: &ConfigStore,
        generation: u64,
        listen: ListenAddress,
        hosts: &Vec<HostAnswer>,
    ) -> (r: Reload)
        ensures
            exists|c: CompiledConfigView| #[trigger]
                ever_stored(*store).contains(c) && reloaded(
                    *old(self),
                    *final(self),
                    r,
                    c.layer4,
                    generation,
                    listen,
                    hosts.deep_view(),
                ),
    {
        let config = store.load();
        self.reload(&config.layer4, generation, listen, hosts)
    }

    /// Follow a reload. A configuration of the generation already seen changes
    /// nothing; otherwise the state is made anew when the settings changed, and
    /// stays when its listener is gone or its upstreams do not resolve. A host
    /// that has to be looked up first leaves the generation unseen, so that the
    /// next call tries again.
    pub fn reload(
        &mut self,
        ls: &Vec<Layer4Listener>,
        generation: u64,
        listen: ListenAddress,
        hosts: &Vec<HostAnswer>,
    ) -> (r: Reload)
        ensures
            reloaded(
                *old(self),
                *final(self),
                r,
                ls.deep_view(),
                generation,
                listen,
                hosts.deep_view(),
            ),
    {
        if self.applied_generation == generation {
            return Reload::Kept;
        }
        let udp = match find_udp(ls, listen) {
            Some(u) => u,
            None => {
                self.applied_generation = generation;
                return Reload::Kept;
            },
        };
        if self.state.is_made_from(udp) {
            self.applied_generation = generation;
            return Reload::Kept;
        }
        match UdpState::build(udp, hosts) {
            Ok(s) => {
                self.state = s;
                self.applied_generation = generation;
                Reload::Rebuilt
            },
            Err(f) => {
                if let ResolveFault::Message(_) = &f {
                    self.applied_generation = generation;
                }
                Reload::Failed(f)
            },
        }
    }

    /// The upstream of a new flow of `client`.
    pub open spec fn choice(self, client: SocketAddr) -> Option<SocketAddr> {
        let n = self.state.upstreams@.len();
        if n == 0 {
            None
        } else {
            Some(
                self.state.upstreams@[match self.state.policy {
                    LbPolicy::IpHash => (fnv1a(encode_utf8(client.ip.text())) as usize) as int
                        % n as int,
                    LbPolicy::RoundRobin => self.cursor as int % n as int,
                    LbPolicy::Random => self.cursor.wrapping_mul(
                        1_103_515_245usize,
                    ).wrapping_add(12_345usize) as int % n as int,
                }],
            )
        }
    }

    /// What a selection does: it gives `r` for `client` and leaves the state as
    /// `after`. The cursor moves on by one, except under `ip_hash`, which has no
    /// use for it, and where there is nothing to select from.
    pub open spec fn selected(
        self,
        client: SocketAddr,
        r: Option<SocketAddr>,
        after: UdpSelection,
    ) -> bool {
        &&& r == self.choice(client)
        &&& after.state == self.state
        &&& after.applied_generation == self.applied_generation
        &&& after.cursor == (if self.state.policy == LbPolicy::IpHash
            || self.state.upstreams@.len() == 0 {
            self.cursor
        } else {
            self.cursor.wrapping_add(1usize)
        })
    }

    /// Select the upstream of a new flow, by the policy: under `ip_hash` by the
    /// address of the client, whatever its port.
    pub fn select(&mut self, client: SocketAddr) -> (r: Option<SocketAddr>)
        ensures
            old(self).selected(client, r, *final(self)),
            r == old(self).choice(client),
            final(self).state == old(self).state,
            final(self).applied_generation == old(self).applied_generation,
            final(self).cursor == (if old(self).state.policy == LbPolicy::IpHash || old(
                self,
            ).state.upstreams@.len() == 0 {
                old(self).cursor
            } else {
                old(self).cursor.wrapping_add(1usize)
            }),
    {
        let n: usize = self.state.upstreams.len();
        if n == 0 {
            return None;
        }
        let index: usize = match self.state.policy {
            LbPolicy::IpHash => {
                let text = client.ip.display();
                let bytes = text.as_str().as_bytes();
                (stable_hash(bytes) as usize) % n
            },
            LbPolicy::RoundRobin => {
                let c: usize = self.cursor;
                self.cursor = c.wrapping_add(1);
                c % n
            },
            LbPolicy::Random => {
                let c: usize = self.cursor;
                self.cursor = c.wrapping_add(1);
                c.wrapping_mul(1_103_515_245).wrapping_add(12_345) % n
            },
        };
        Some(self.state.upstreams[index])
    }
}

/// A listener with an upstream always finds one for a new flow, and it is one of
/// its own.
pub proof fn selection_finds_an_upstream(s: UdpSelection, client: SocketAddr)
    ensures
        s.state.upstreams@.len() > 0 ==> (s.choice(client) matches Some(a)
            && s.state.upstreams@.contains(a)),
        s.state.upstreams@.len() == 0 ==> s.choice(client) is None,
{
    let n = s.state.upstreams@.len() as int;
    if n > 0 {
        let h = (fnv1a(encode_utf8(client.ip.text())) as usize) as int;
        let c = s.cursor.wrapping_mul(1_103_515_245usize).wrapping_add(12_345usize) as int;
        assert(0 <= h % n < n) by (nonlinear_arith)
            requires
                n > 0,
        ;
        assert(0 <= s.cursor as int % n < n) by (nonlinear_arith)
            requires
                n > 0,
        ;
        assert(0 <= c % n < n) by (nonlinear_arith)
            requires
                n > 0,
        ;
        let i = match s.state.policy {
            LbPolicy::IpHash => h % n,
            LbPolicy::RoundRobin => s.cursor as int % n,
            LbPolicy::Random => c % n,
        };
        assert(s.choice(client) == Some(s.state.upstreams@[i]));
    }
}

/// Under `ip_hash` all flows of one client address go to one upstream, whatever
/// the port and whatever flows came between.
pub proof fn source_hash_is_sticky(a: UdpSelection, b: UdpSelection, c: SocketAddr, d: SocketAddr)
    requires
        a.state == b.state,
        a.state.policy == LbPolicy::IpHash,
        c.ip == d.ip,
    ensures
        a.choice(c) == b.choice(d),
{
}

// ---------------------------------------------------------------------------
// The flow table
// ---------------------------------------------------------------------------

/// One client flow. Times are in nanoseconds.
#[derive(Clone, Copy, PartialEq, Eq, Structural, Debug)]
pub struct Flow {
    pub client: SocketAddr,
    pub upstream: SocketAddr,
    pub last_active: u64,
    /// Datagrams relayed from the client to the upstream.
    pub c2u_packets: u64,
}

/// The flows of a listener, one per client.
pub struct FlowTable {
    pub flows: Vec<Flow>,
}

/// Whether no two flows are of one client.
pub open spec fn distinct_clients(flows: Seq<Flow>) -> bool {
    forall|i: int, j: int|
        0 <= i < j < flows.len() ==> (#[trigger] flows[i]).client != (#[trigger] flows[j]).client
}

/// Where the flow of `client` stands at or after `i`, or the number of flows.
pub open spec fn flow_index(flows: Seq<Flow>, client: SocketAddr, i: int) -> int
    decreases flows.len() - i,
{
    if i < 0 || i >= flows.len() || flows[i].client == client {
        i
    } else {
        flow_index(flows, client, i + 1)
    }
}

/// The flow of `client`.
pub open spec fn flow_of(flows: Seq<Flow>, client: SocketAddr) -> Option<Flow> {
    let i = flow_index(flows, client, 0);
    if i < flows.len() {
        Some(flows[i])
    } else {
        None
    }
}

/// The flows with `flow` in place of the one of its client, or added.
pub open spec fn with_flow(flows: Seq<Flow>, flow: Flow) -> Seq<Flow> {
    let i = flow_index(flows, flow.client, 0);
    if i < flows.len() {
        flows.update(i, flow)
    } else {
        flows.push(flow)
    }
}

/// The flows without the one of `client`.
pub open spec fn without_flow(flows: Seq<Flow>, client: SocketAddr) -> Seq<Flow> {
    let i = flow_index(flows, client, 0);
    if i < flows.len() {
        flows.remove(i)
    } else {
        flows
    }
}

/// Which of the flows was idle longest, the first of several.
pub open spec fn idle_longest(flows: Seq<Flow>) -> int
    decreases flows.len(),
{
    if flows.len() <= 1 {
        0
    } else {
        let best = idle_longest(flows.drop_last());
        if flows.last().last_active < flows[best].last_active {
            flows.len() - 1
        } else {
            best
        }
    }
}

pub proof fn lemma_flow_index(flows: Seq<Flow>, client: SocketAddr, i: int)
    requires
        0 <= i <= flows.len(),
    ensures
        i <= flow_index(flows, client, i) <= flows.len(),
        flow_index(flows, client, i) < flows.len() ==> flows[flow_index(
            flows,
            client,
            i,
        )].client == client,
        forall|j: int|
            i <= j < flow_index(flows, client, i) ==> (#[trigger] flows[j]).client != client,
    decreases flows.len() - i,
{
    if i < flows.len() && flows[i].client != client {
        lemma_flow_index(flows, client, i + 1);
    }
}

pub proof fn lemma_idle_longest(flows: Seq<Flow>)
    requires
        flows.len() > 0,
    ensures
        0 <= idle_longest(flows) < flows.len(),
        forall|j: int|
            0 <= j < flows.len() ==> flows[idle_longest(flows)].last_active <= (
            #[trigger] flows[j]).last_active,
    decreases flows.len(),
{
    if flows.len() > 1 {
        let init = flows.drop_last();
        lemma_idle_longest(init);
        assert forall|j: int| 0 <= j < flows.len() implies flows[idle_longest(flows)].last_active
            <= (#[trigger] flows[j]).last_active by {
            if j < flows.len() - 1 {
                assert(init[j] == flows[j]);
            }
        }
    }
}

/// What became of a flow that asked for a place in the table.
#[derive(Clone, Copy, PartialEq, Eq, Structural, Debug)]
pub struct Admission {
    /// The client whose flow had to go.
    pub evicted: Option<SocketAddr>,
    /// Whether the new flow is in the table.
    pub created: bool,
    /// How many times the table was found full.
    pub capacity_evictions: u64,
}

/// The flows after the one idle longest left a full table.
pub open spec fn relieved(flows: Seq<Flow>, max_flows: usize) -> Seq<Flow> {
    if flows.len() >= max_flows && flows.len() > 0 {
        flows.remove(idle_longest(flows))
    } else {
        flows
    }
}

/// What a flow idle for a while meets when its wait for the upstream ends.
#[derive(Clone, Copy, PartialEq, Eq, Structural, Debug)]
pub enum FlowFate {
    /// It goes on waiting.
    Kept,
    /// It was idle for the whole timeout and is evicted.
    Evicted,
    /// It is no longer in the table.
    Gone,
}

impl FlowTable {
    /// No two flows are of one client.
    pub open spec fn wf(self) -> bool {
        distinct_clients(self.flows@)
    }

    /// An empty table.
    pub fn new() -> (r: FlowTable)
        ensures
            r.wf(),
            r.flows@ == Seq::<Flow>::empty(),
    {
        FlowTable { flows: Vec::new() }
    }

    fn index_of(&self, client: SocketAddr) -> (r: usize)
        ensures
            r == flow_index(self.flows@, client, 0),
            r <= self.flows@.len(),
    {
        let mut i: usize = 0;
        while i < self.flows.len()
            invariant
                i <= self.flows@.len(),
                flow_index(self.flows@, client, 0) == flow_index(self.flows@, client, i as int),
            decreases self.flows@.len() - i,
        {
            if self.flows[i].client == client {
                return i;
            }
            i += 1;
        }
        i
    }

    /// Put a flow into the table, in place of one of the same client.
    pub fn put(&mut self, flow: Flow)
        requires
            old(self).wf(),
        ensures
            final(self).wf(),
            final(self).flows@ == with_flow(old(self).flows@, flow),
    {
        proof {
            lemma_flow_index(self.flows@, flow.client, 0);
        }
        let i: usize = self.index_of(flow.client);
        if i < self.flows.len() {
            self.flows.set(i, flow);
        } else {
            self.flows.push(flow);
        }
    }

    /// A datagram from `client`: when it has a flow, the flow is touched and
    /// counted, and its upstream is given.
    pub fn forward(&mut self, client: SocketAddr, now: u64) -> (r: Option<SocketAddr>)
        requires
            old(self).wf(),
            flow_of(old(self).flows@, client) matches Some(f) ==> f.c2u_packets < u64::MAX,
        ensures
            final(self).wf(),
            match flow_of(old(self).flows@, client) {
                Some(f) => r == Some(f.upstream) && final(self).flows@ == with_flow(
                    old(self).flows@,
                    Flow { last_active: now, c2u_packets: (f.c2u_packets + 1) as u64, ..f },
                ),
                None => r is None && final(self).flows@ == old(self).flows@,
            },
    {
        proof {
            lemma_flow_index(self.flows@, client, 0);
        }
        let i: usize = self.index_of(client);
        if i < self.flows.len() {
            let f = self.flows[i];
            self.flows.set(
                i,
                Flow {
                    client: f.client,
                    upstream: f.upstream,
                    last_active: now,
                    c2u_packets: f.c2u_packets + 1,
                },
            );
            Some(f.upstream)
        } else {
            None
        }
    }

    fn oldest(&self) -> (r: usize)
        requires
            self.flows@.len() > 0,
        ensures
            r == idle_longest(self.flows@),
            r < self.flows@.len(),
    {
        let mut best: usize = 0;
        let mut i: usize = 1;
        assert(self.flows@.take(1).len() == 1);
        while i < self.flows.len()
            invariant
                1 <= i <= self.flows@.len(),
                best < i,
                best == idle_longest(self.flows@.take(i as int)),
            decreases self.flows@.len() - i,
        {
            let ghost next = self.flows@.take(i + 1);
            assert(next.drop_last() == self.flows@.take(i as int));
            if self.flows[i].last_active < self.flows[best].last_active {
                best = i;
            }
            i += 1;
        }
        assert(self.flows@.take(i as int) == self.flows@);
        best
    }

    /// Make room for a new flow of `client` and put it into the table. A full
    /// table evicts the flow that was idle longest; when it is full even then,
    /// the new flow is dropped.
    pub fn take_in(&mut self, client: SocketAddr, upstream: SocketAddr, now: u64, max_flows: usize)
        -> (r: Admission)
        requires
            old(self).wf(),
        ensures
            final(self).wf(),
            ({
                let before = old(self).flows@;
                let room = relieved(before, max_flows);
                let flow = Flow { client, upstream, last_active: now, c2u_packets: 1 };
                &&& r.evicted == (if before.len() >= max_flows && before.len() > 0 {
                    Some(before[idle_longest(before)].client)
                } else {
                    None
                })
                &&& r.created == (room.len() < max_flows)
                &&& r.capacity_evictions == (if before.len() >= max_flows {
                    1int
                } else {
                    0
                }) + (if room.len() >= max_flows {
                    1int
                } else {
                    0
                })
                &&& final(self).flows@ == (if r.created {
                    with_flow(room, flow)
                } else {
                    room
                })
            }),
    {
        let mut evicted: Option<SocketAddr> = None;
        let mut full: u64 = 0;
        if self.flows.len() >= max_flows {
            full = 1;
            if self.flows.len() > 0 {
                let i: usize = self.oldest();
                evicted = Some(self.flows[i].client);
                let _ = self.flows.remove(i);
            }
        }
        assert(self.flows@ == relieved(old(self).flows@, max_flows));
        if self.flows.len() >= max_flows {
            return Admission { evicted, created: false, capacity_evictions: full + 1 };
        }
        self.put(Flow { client, upstream, last_active: now, c2u_packets: 1 });
        Admission { evicted, created: true, capacity_evictions: full }
    }

    /// A datagram from the upstream of `client` was sent on: touch the flow.
    /// Gives whether it is still in the table.
    pub fn answered(&mut self, client: SocketAddr, now: u64) -> (r: bool)
        requires
            old(self).wf(),
        ensures
            final(self).wf(),
            match flow_of(old(self).flows@, client) {
                Some(f) => r && final(self).flows@ == with_flow(
                    old(self).flows@,
                    Flow { last_active: now, ..f },
                ),
                None => !r && final(self).flows@ == old(self).flows@,
            },
    {
        proof {
            lemma_flow_index(self.flows@, client, 0);
        }
        let i: usize = self.index_of(client);
        if i < self.flows.len() {
            let f = self.flows[i];
            self.flows.set(
                i,
                Flow {
                    client: f.client,
                    upstream: f.upstream,
                    last_active: now,
                    c2u_packets: f.c2u_packets,
                },
            );
            true
        } else {
            false
        }
    }

    /// The upstream of `client` was silent for the idle timeout: evict the flow
    /// when the client was, too.
    pub fn expire(&mut self, client: SocketAddr, now: u64, idle_timeout: Duration) -> (r: FlowFate)
        requires
            old(self).wf(),
        ensures
            final(self).wf(),
            match flow_of(old(self).flows@, client) {
                None => r == FlowFate::Gone && final(self).flows@ == old(self).flows@,
                Some(f) => if f.last_active + idle_timeout.nanos <= now || idle_timeout.nanos == 0 {
                    r == FlowFate::Evicted && final(self).flows@ == without_flow(
                        old(self).flows@,
                        client,
                    )
                } else {
                    r == FlowFate::Kept && final(self).flows@ == old(self).flows@
                },
            },
    {
        proof {
            lemma_flow_index(self.flows@, client, 0);
        }
        let i: usize = self.index_of(client);
        if i < self.flows.len() {
            let last: u64 = self.flows[i].last_active;
            let idle: u64 = if last < now {
                now - last
            } else {
                0
            };
            if idle >= idle_timeout.nanos {
                let _ = self.flows.remove(i);
                FlowFate::Evicted
            } else {
                FlowFate::Kept
            }
        } else {
            FlowFate::Gone
        }
    }

    /// The datagrams that `client` sent, none when it has no flow.
    pub fn client_packets(&self, client: SocketAddr) -> (r: u64)
        ensures
            r == match flow_of(self.flows@, client) {
                Some(f) => f.c2u_packets,
                None => 0,
            },
    {
        let i: usize = self.index_of(client);
        if i < self.flows.len() {
            self.flows[i].c2u_packets
        } else {
            0
        }
    }
}

/// A table never outgrows its limit: admission brings a table that is within the
/// limit to one that is, and one that is beyond it, after a reload, shrinks.
pub proof fn admission_is_bounded(flows: Seq<Flow>, flow: Flow, max_flows: usize)
    ensures
        relieved(flows, max_flows).len() < max_flows ==> with_flow(
            relieved(flows, max_flows),
            flow,
        ).len() <= max_flows,
        flows.len() > max_flows ==> relieved(flows, max_flows).len() == flows.len() - 1,
        0 < flows.len() == max_flows ==> relieved(flows, max_flows).len() < max_flows,
{
    if flows.len() > 0 {
        lemma_idle_longest(flows);
    }
    let room = relieved(flows, max_flows);
    lemma_flow_index(room, flow.client, 0);
}

/// The flow that leaves a full table was idle at least as long as every other,
/// and every other stays.
pub proof fn the_longest_idle_flow_leaves(flows: Seq<Flow>, max_flows: usize, other: SocketAddr)
    requires
        distinct_clients(flows),
        0 < flows.len(),
        max_flows <= flows.len(),
    ensures
        ({
            let gone = flows[idle_longest(flows)];
            let room = relieved(flows, max_flows);
            &&& flow_of(room, gone.client) is None
            &&& flow_of(flows, other) matches Some(f) ==> gone.last_active <= f.last_active
            &&& other != gone.client ==> flow_of(room, other) == flow_of(flows, other)
        }),
{
    lemma_idle_longest(flows);
    let k = idle_longest(flows);
    let gone = flows[k];
    let room = relieved(flows, max_flows);
    lemma_flow_index(flows, other, 0);
    lemma_flow_index(room, gone.client, 0);
    lemma_flow_index(room, other, 0);
    let g = flow_index(room, gone.client, 0);
    if g < room.len() {
        if g < k {
            assert(room[g] == flows[g]);
        } else {
            assert(room[g] == flows[g + 1]);
        }
    }
    if other != gone.client {
        let i = flow_index(flows, other, 0);
        let j = flow_index(room, other, 0);
        if i < flows.len() {
            let at = if i < k {
                i
            } else {
                i - 1
            };
            assert(room[at] == flows[i]);
            if j != at {
                if j < k {
                    assert(room[j] == flows[j]);
                } else {
                    assert(room[j] == flows[j + 1]);
                }
            }
        } else if j < room.len() {
            if j < k {
                assert(room[j] == flows[j]);
            } else {
                assert(room[j] == flows[j + 1]);
            }
        }
    }
}

/// Putting a flow into a table is seen by its own client alone.
pub proof fn flows_do_not_interfere(flows: Seq<Flow>, flow: Flow, other: SocketAddr)
    ensures
        flow_of(with_flow(flows, flow), other) == (if other == flow.client {
            Some(flow)
        } else {
            flow_of(flows, other)
        }),
{
    let after = with_flow(flows, flow);
    let k = flow_index(flows, flow.client, 0);
    lemma_flow_index(flows, flow.client, 0);
    lemma_flow_index(flows, other, 0);
    lemma_flow_index(after, other, 0);
    let i = flow_index(flows, other, 0);
    let j = flow_index(after, other, 0);
    if other == flow.client {
        assert(after[k] == flow);
        if j < k {
            assert(after[j] == flows[j]);
        }
    } else {
        if i < flows.len() {
            assert(after[i] == flows[i]);
        }
        if j < after.len() {
            assert(j != k);
            assert(after[j] == flows[j]);
        }
    }
}

/// The size of the receive buffer: one byte more than the limit, so that a
/// datagram that is too big shows.
pub fn buffer_size(max_datagram_size: usize) -> (r: usize)
    ensures
        r == if max_datagram_size < usize::MAX {
            max_datagram_size + 1
        } else {
            usize::MAX as int
        },
{
    if max_datagram_size < usize::MAX {
        max_datagram_size + 1
    } else {
        usize::MAX
    }
}

/// How many sockets a listener binds: one for each receive loop, and at least
/// one.
pub fn listener_sockets(recv_loops: usize) -> (r: usize)
    ensures
        r == if recv_loops == 0 {
            1
        } else {
            recv_loops
        },
{
    if recv_loops == 0 {
        1
    } else {
        recv_loops
    }
}

/// The word for the end of a flow in its record.
pub fn flow_outcome(stopping: bool) -> (r: &'static str)
    ensures
        r@ == if stopping {
            "shutdown"@
        } else {
            "evicted"@
        },
{
    if stopping {
        "shutdown"
    } else {
        "evicted"
    }
}

/// A record of one closed flow.
pub struct UdpFlowRecord {
    /// When the flow was created, in milliseconds since the epoch.
    pub ts_ms: u64,
    /// The listener, `udp/<address>`.
    pub listener: String,
    pub client: SocketAddr,
    pub upstream: SocketAddr,
    /// Datagrams relayed from the client to the upstream, as far as the flow is
    /// still in the table.
    pub client_packets: u64,
    /// Datagrams relayed from the upstream to the client.
    pub upstream_packets: u64,
    /// How the flow ended.
    pub outcome: &'static str,
}

/// Write the record of a flow whose reader has ended.
pub fn flow_record(
    table: &FlowTable,
    listener: &str,
    ts_ms: u64,
    client: SocketAddr,
    upstream: SocketAddr,
    upstream_packets: u64,
    stopping: bool,
) -> (r: UdpFlowRecord)
    ensures
        r.ts_ms == ts_ms,
        r.listener@ == listener@,
        r.client == client,
        r.upstream == upstream,
        r.client_packets == match flow_of(table.flows@, client) {
            Some(f) => f.c2u_packets,
            None => 0,
        },
        r.upstream_packets == upstream_packets,
        r.outcome@ == (if stopping {
            "shutdown"@
        } else {
            "evicted"@
        }),
{
    UdpFlowRecord {
        ts_ms,
        listener: owned(listener),
        client,
        upstream,
        client_packets: table.client_packets(client),
        upstream_packets,
        outcome: flow_outcome(stopping),
    }
}

} // verus!
