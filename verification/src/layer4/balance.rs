//! Upstream selection and health for layer-4 listeners.
//!
//! Selection never gives an unhealthy backend. When none is healthy the caller
//! gets `None` and refuses the connection, rather than relaying into an upstream
//! that is known to be dead.
use crate::config::ast::{LbPolicy, TcpHealthCheckSpec};
use crate::layer4::hash::{mixed, mixed_hash};
use crate::net::SocketAddr;
use crate::num::{decimal, decimal_string};
use crate::text::cat3;
use crate::time::Duration;
use vstd::prelude::*;
use vstd::utf8::encode_utf8;

verus! {

/// Virtual nodes per backend on the `ip_hash` ring.
///
/// With one point per backend, or with `hash % len`, a change of one backend
/// would move most clients; many points keep the key space evenly divided.
pub const VNODES_PER_BACKEND: usize = 160;

/// One upstream and its current health.
#[derive(Clone, Copy, PartialEq, Eq, Structural, Debug)]
pub struct Backend {
    pub addr: SocketAddr,
    /// Backends start healthy: a listener serves before the first probe ran.
    pub healthy: bool,
    /// Consecutive probe failures since the last success.
    pub failures: usize,
    /// Consecutive probe successes since the last failure.
    pub successes: usize,
}

/// Health-checked upstream selection for one listener.
pub struct Balancer {
    pub backends: Vec<Backend>,
    pub policy: LbPolicy,
    /// The `ip_hash` ring: points and the backends that own them, in order;
    /// empty under another policy.
    pub ring: Vec<(u64, usize)>,
    /// Cursor for `round_robin` and `random`.
    pub cursor: usize,
    pub health_check: Option<TcpHealthCheckSpec>,
}

// ---------------------------------------------------------------------------
// The ring
// ---------------------------------------------------------------------------

/// The text whose hash is the point numbered `v` of the backend at `addr`.
pub open spec fn point_text(addr: SocketAddr, v: nat) -> Seq<char> {
    addr.text() + "#"@ + decimal(v)
}

/// The point numbered `v` of the backend at `addr`.
pub open spec fn point(addr: SocketAddr, v: nat) -> u64 {
    mixed(encode_utf8(point_text(addr, v)))
}

/// The points of the backends, in the order of the backends.
pub open spec fn points(addrs: Seq<SocketAddr>) -> Seq<(u64, usize)> {
    Seq::new(
        addrs.len() * VNODES_PER_BACKEND as nat,
        |k: int|
            (
                point(addrs[k / VNODES_PER_BACKEND as int], (k % VNODES_PER_BACKEND as int) as nat),
                (k / VNODES_PER_BACKEND as int) as usize,
            ),
    )
}

/// Whether node `a` comes before node `b` or is equal to it.
pub open spec fn node_le(a: (u64, usize), b: (u64, usize)) -> bool {
    a.0 < b.0 || (a.0 == b.0 && a.1 <= b.1)
}

/// Whether the nodes are in order.
pub open spec fn in_order(nodes: Seq<(u64, usize)>) -> bool {
    forall|i: int, j: int|
        0 <= i <= j < nodes.len() ==> #[trigger] node_le(nodes[i], nodes[j])
}

/// Whether every node names one of `n` backends.
pub open spec fn nodes_within(nodes: Seq<(u64, usize)>, n: int) -> bool {
    forall|i: int| 0 <= i < nodes.len() ==> (#[trigger] nodes[i]).1 < n
}

/// Whether `nodes` is the ring of the backends: all of their points, in order.
pub open spec fn is_ring(nodes: Seq<(u64, usize)>, addrs: Seq<SocketAddr>) -> bool {
    in_order(nodes) && nodes.to_multiset() == points(addrs).to_multiset()
}

/// The addresses of backends.
pub open spec fn addresses(backends: Seq<Backend>) -> Seq<SocketAddr> {
    Seq::new(backends.len(), |i: int| backends[i].addr)
}

/// `slice::sort_unstable` sorts a slice by the order of its items, which for
/// pairs is the order of the first component and then of the second; the items
/// stay the same.
#[verifier::external_body]
fn sort_nodes(nodes: &mut Vec<(u64, usize)>)
    ensures
        in_order(final(nodes)@),
        final(nodes)@.to_multiset() == old(nodes)@.to_multiset(),
{
    nodes.sort_unstable();
}

/// Build the ring for `upstreams`.
fn build_ring(upstreams: &Vec<SocketAddr>) -> (ring: Vec<(u64, usize)>)
    ensures
        is_ring(ring@, upstreams@),
{
    let ghost all = points(upstreams@);
    let mut ring: Vec<(u64, usize)> = Vec::new();
    let mut i: usize = 0;
    while i < upstreams.len()
        invariant
            i <= upstreams@.len(),
            all == points(upstreams@),
            ring@.len() == i * VNODES_PER_BACKEND,
            ring@ == all.take(i * VNODES_PER_BACKEND as int),
        decreases upstreams@.len() - i,
    {
        let addr = upstreams[i].display();
        let mut v: usize = 0;
        while v < VNODES_PER_BACKEND
            invariant
                i < upstreams@.len(),
                v <= VNODES_PER_BACKEND,
                addr@ == upstreams@[i as int].text(),
                all == points(upstreams@),
                ring@.len() == i * VNODES_PER_BACKEND + v,
                ring@ == all.take(i * VNODES_PER_BACKEND as int + v),
            decreases VNODES_PER_BACKEND - v,
        {
            let d = decimal_string(v as u64);
            let text = cat3(addr.as_str(), "#", d.as_str());
            ring.push((mixed_hash(text.as_str().as_bytes()), i));
            proof {
                let k = i * VNODES_PER_BACKEND as int + v;
                assert(k / VNODES_PER_BACKEND as int == i && k % VNODES_PER_BACKEND as int == v);
                assert(k < all.len()) by {
                    assert((i + 1) * VNODES_PER_BACKEND as int <= upstreams@.len()
                        * VNODES_PER_BACKEND as int);
                }
                assert(all[k] == ring@.last());
                assert(all.take(k + 1) == all.take(k).push(all[k]));
            }
            v += 1;
        }
        i += 1;
    }
    assert(all.take(all.len() as int) == all);
    sort_nodes(&mut ring);
    ring
}

// ---------------------------------------------------------------------------
// Selection
// ---------------------------------------------------------------------------

/// The index that `start` and `offset` give among `n` backends.
pub open spec fn slot(start: usize, offset: int, n: int) -> int {
    (start + offset) % n
}

/// The first healthy backend at `offset` or later, from `start` round the list.
pub open spec fn healthy_from(backends: Seq<Backend>, start: usize, offset: int) -> Option<
    SocketAddr,
>
    decreases backends.len() - offset,
{
    if offset < 0 || offset >= backends.len() {
        None
    } else {
        let b = backends[slot(start, offset, backends.len() as int)];
        if b.healthy {
            Some(b.addr)
        } else {
            healthy_from(backends, start, offset + 1)
        }
    }
}

/// The first node at or after `i` whose point is not below `hash`, or the length
/// of the ring.
pub open spec fn ring_start_from(ring: Seq<(u64, usize)>, hash: u64, i: int) -> int
    decreases ring.len() - i,
{
    if i < 0 || i >= ring.len() || ring[i].0 >= hash {
        i
    } else {
        ring_start_from(ring, hash, i + 1)
    }
}

/// Where the walk round the ring starts for `hash`: at the first node whose point
/// is not below it, or at the first node of all.
pub open spec fn ring_start(ring: Seq<(u64, usize)>, hash: u64) -> int {
    let i = ring_start_from(ring, hash, 0);
    if i == ring.len() {
        0
    } else {
        i
    }
}

/// The backend of the first node at `offset` or later, from `start` round the
/// ring, whose backend is healthy.
pub open spec fn owner_from(
    ring: Seq<(u64, usize)>,
    backends: Seq<Backend>,
    start: int,
    offset: int,
) -> Option<SocketAddr>
    decreases ring.len() - offset,
{
    if offset < 0 || offset >= ring.len() {
        None
    } else {
        let b = backends[ring[(start + offset) % (ring.len() as int)].1 as int];
        if b.healthy {
            Some(b.addr)
        } else {
            owner_from(ring, backends, start, offset + 1)
        }
    }
}

/// A start for `random`, from the cursor: one step of a linear congruential
/// generator.
pub open spec fn scrambled(cursor: usize) -> usize {
    cursor.wrapping_mul(1_103_515_245usize).wrapping_add(12_345usize)
}

impl Balancer {
    /// The ring belongs to the backends, and every node names one of them.
    pub open spec fn wf(self) -> bool {
        &&& self.policy == LbPolicy::IpHash ==> is_ring(self.ring@, addresses(self.backends@))
        &&& self.policy != LbPolicy::IpHash ==> self.ring@.len() == 0
        &&& nodes_within(self.ring@, self.backends@.len() as int)
    }

    /// The upstream that is selected for `key`.
    pub open spec fn choice(self, key: Seq<u8>) -> Option<SocketAddr> {
        if self.backends@.len() == 0 {
            None
        } else {
            match self.policy {
                LbPolicy::IpHash => if self.ring@.len() == 0 {
                    healthy_from(self.backends@, 0, 0)
                } else {
                    owner_from(
                        self.ring@,
                        self.backends@,
                        ring_start(self.ring@, mixed(key)),
                        0,
                    )
                },
                LbPolicy::RoundRobin => healthy_from(self.backends@, self.cursor, 0),
                LbPolicy::Random => healthy_from(self.backends@, scrambled(self.cursor), 0),
            }
        }
    }

    /// What a selection does: it gives `r` for `key` and leaves the balancer as
    /// `after`. The cursor moves on by one, except under `ip_hash`, which has no
    /// use for it, and where there is nothing to select from.
    pub open spec fn selected(self, key: Seq<u8>, r: Option<SocketAddr>, after: Balancer) -> bool {
        &&& r == self.choice(key)
        &&& after.backends == self.backends
        &&& after.policy == self.policy
        &&& after.ring == self.ring
        &&& after.health_check == self.health_check
        &&& after.cursor == (if self.policy == LbPolicy::IpHash || self.backends@.len() == 0 {
            self.cursor
        } else {
            self.cursor.wrapping_add(1usize)
        })
    }

    /// Build a balancer over `upstreams`, all of them healthy.
    pub fn new(
        upstreams: &Vec<SocketAddr>,
        policy: LbPolicy,
        health_check: Option<TcpHealthCheckSpec>,
    ) -> (r: Balancer)
        ensures
            r.wf(),
            r.policy == policy,
            r.health_check == health_check,
            r.cursor == 0,
            r.backends@ == Seq::new(
                upstreams@.len(),
                |i: int|
                    Backend { addr: upstreams@[i], healthy: true, failures: 0, successes: 0 },
            ),
    {
        let mut backends: Vec<Backend> = Vec::new();
        let mut i: usize = 0;
        while i < upstreams.len()
            invariant
                i <= upstreams@.len(),
                backends@.len() == i,
                forall|j: int|
                    0 <= j < i ==> backends@[j] == (Backend {
                        addr: upstreams@[j],
                        healthy: true,
                        failures: 0,
                        successes: 0,
                    }),
            decreases upstreams@.len() - i,
        {
            backends.push(
                Backend { addr: upstreams[i], healthy: true, failures: 0, successes: 0 },
            );
            i += 1;
        }
        let ring = match policy {
            LbPolicy::IpHash => build_ring(upstreams),
            _ => Vec::new(),
        };
        proof {
            assert(addresses(backends@) == upstreams@);
            if policy == LbPolicy::IpHash {
                assert forall|k: int| 0 <= k < ring@.len() implies (#[trigger] ring@[k]).1
                    < backends@.len() by {
                    lemma_ring_node(ring@, upstreams@, k);
                }
            }
        }
        Balancer { backends, policy, ring, cursor: 0, health_check }
    }

    /// Select a healthy upstream for `key`, the bytes of the client address
    /// under `ip_hash`. Gives `None` when no backend is healthy.
    pub fn select(&mut self, key: &[u8]) -> (r: Option<SocketAddr>)
        requires
            old(self).wf(),
        ensures
            final(self).wf(),
            old(self).selected(key@, r, *final(self)),
            r == old(self).choice(key@),
            final(self).backends == old(self).backends,
            final(self).policy == old(self).policy,
            final(self).ring == old(self).ring,
            final(self).health_check == old(self).health_check,
            final(self).cursor == (if old(self).policy == LbPolicy::IpHash || old(
                self,
            ).backends@.len() == 0 {
                old(self).cursor
            } else {
                old(self).cursor.wrapping_add(1usize)
            }),
    {
        if self.backends.len() == 0 {
            return None;
        }
        match self.policy {
            LbPolicy::IpHash => self.select_hashed(key),
            LbPolicy::RoundRobin => {
                let start: usize = self.cursor;
                self.cursor = start.wrapping_add(1);
                self.first_healthy_from(start)
            },
            LbPolicy::Random => {
                let c: usize = self.cursor;
                self.cursor = c.wrapping_add(1);
                self.first_healthy_from(c.wrapping_mul(1_103_515_245).wrapping_add(12_345))
            },
        }
    }

    /// Walk the backends from `start` to the first healthy one. An all-unhealthy
    /// set ends after one pass.
    fn first_healthy_from(&self, start: usize) -> (r: Option<SocketAddr>)
        requires
            self.backends@.len() > 0,
        ensures
            r == healthy_from(self.backends@, start, 0),
    {
        let n: usize = self.backends.len();
        let first: usize = start % n;
        let mut offset: usize = 0;
        while offset < n
            invariant
                n == self.backends@.len(),
                n > 0,
                first == start % n,
                offset <= n,
                healthy_from(self.backends@, start, 0) == healthy_from(
                    self.backends@,
                    start,
                    offset as int,
                ),
            decreases n - offset,
        {
            let at: usize = if offset < n - first { first + offset } else { offset - (n - first) };
            proof {
                lemma_round(first as int, offset as int, n as int);
                vstd::arithmetic::div_mod::lemma_add_mod_noop(
                    start as int,
                    offset as int,
                    n as int,
                );
                vstd::arithmetic::div_mod::lemma_small_mod(offset as nat, n as nat);
            }
            let b = self.backends[at];
            if b.healthy {
                return Some(b.addr);
            }
            offset += 1;
        }
        None
    }

    /// Find the first ring node at or after the hash of the key, then walk the
    /// ring to a healthy backend.
    fn select_hashed(&self, key: &[u8]) -> (r: Option<SocketAddr>)
        requires
            self.wf(),
            self.backends@.len() > 0,
        ensures
            r == if self.ring@.len() == 0 {
                healthy_from(self.backends@, 0, 0)
            } else {
                owner_from(self.ring@, self.backends@, ring_start(self.ring@, mixed(key@)), 0)
            },
    {
        let n: usize = self.ring.len();
        if n == 0 {
            return self.first_healthy_from(0);
        }
        let hash = mixed_hash(key);
        let first: usize = self.partition_point(hash);
        let start: usize = if first == n { 0 } else { first };
        let mut offset: usize = 0;
        while offset < n
            invariant
                nodes_within(self.ring@, self.backends@.len() as int),
                n == self.ring@.len(),
                n > 0,
                start < n,
                start == ring_start(self.ring@, mixed(key@)),
                offset <= n,
                owner_from(self.ring@, self.backends@, start as int, 0) == owner_from(
                    self.ring@,
                    self.backends@,
                    start as int,
                    offset as int,
                ),
            decreases n - offset,
        {
            let at: usize = if offset < n - start { start + offset } else { offset - (n - start) };
            proof {
                lemma_round(start as int, offset as int, n as int);
            }
            let b = self.backends[self.ring[at].1];
            if b.healthy {
                return Some(b.addr);
            }
            offset += 1;
        }
        None
    }

    /// The index of the first node whose point is not below `hash`, found by
    /// halving.
    fn partition_point(&self, hash: u64) -> (r: usize)
        requires
            self.wf(),
        ensures
            r == ring_start_from(self.ring@, hash, 0),
            r <= self.ring@.len(),
    {
        let ghost ring = self.ring@;
        let mut low: usize = 0;
        let mut high: usize = self.ring.len();
        assert(in_order(ring));
        while low < high
            invariant
                ring == self.ring@,
                in_order(ring),
                low <= high <= ring.len(),
                forall|i: int| 0 <= i < low ==> (#[trigger] ring[i]).0 < hash,
                forall|i: int| high <= i < ring.len() ==> (#[trigger] ring[i]).0 >= hash,
            decreases high - low,
        {
            let mid: usize = low + (high - low) / 2;
            if self.ring[mid].0 < hash {
                assert forall|i: int| 0 <= i <= mid implies (#[trigger] ring[i]).0 < hash by {
                    assert(node_le(ring[i], ring[mid as int]));
                }
                low = mid + 1;
            } else {
                assert forall|i: int| mid <= i < ring.len() implies (#[trigger] ring[i]).0
                    >= hash by {
                    assert(node_le(ring[mid as int], ring[i]));
                }
                high = mid;
            }
        }
        proof {
            lemma_ring_start(ring, hash, 0, low as int);
        }
        low
    }

    /// The configured probe interval, if health checking is on.
    pub fn probe_interval(&self) -> (r: Option<Duration>)
        ensures
            r == match self.health_check {
                Some(hc) => Some(hc.interval),
                None => None,
            },
    {
        match &self.health_check {
            Some(hc) => Some(hc.interval),
            None => None,
        }
    }
}

/// Going round a ring of `n` places.
proof fn lemma_round(start: int, offset: int, n: int)
    requires
        0 <= start < n,
        0 <= offset < n,
    ensures
        (start + offset) % n == (if start + offset < n {
            start + offset
        } else {
            start + offset - n
        }),
{
    if start + offset < n {
        vstd::arithmetic::div_mod::lemma_small_mod((start + offset) as nat, n as nat);
    } else {
        vstd::arithmetic::div_mod::lemma_small_mod((start + offset - n) as nat, n as nat);
        vstd::arithmetic::div_mod::lemma_mod_add_multiples_vanish(start + offset - n, n);
    }
}

pub(crate) proof fn lemma_ring_node(ring: Seq<(u64, usize)>, addrs: Seq<SocketAddr>, k: int)
    requires
        is_ring(ring, addrs),
        0 <= k < ring.len(),
        addrs.len() <= usize::MAX,
    ensures
        ring[k].1 < addrs.len(),
        points(addrs).contains(ring[k]),
{
    broadcast use vstd::seq_lib::group_to_multiset_ensures;

    let node = ring[k];
    assert(ring.contains(node));
    assert(ring.to_multiset().count(node) > 0);
    assert(points(addrs).to_multiset().count(node) > 0);
    assert(points(addrs).contains(node));
    let j = choose|j: int| 0 <= j < points(addrs).len() && points(addrs)[j] == node;
    assert(0 <= (j / (VNODES_PER_BACKEND as int)) < addrs.len()) by (nonlinear_arith)
        requires
            0 <= j < addrs.len() * 160,
            VNODES_PER_BACKEND == 160,
    ;
}

proof fn lemma_ring_start(ring: Seq<(u64, usize)>, hash: u64, i: int, low: int)
    requires
        0 <= i <= low <= ring.len(),
        forall|k: int| i <= k < low ==> (#[trigger] ring[k]).0 < hash,
        low < ring.len() ==> ring[low].0 >= hash,
    ensures
        ring_start_from(ring, hash, i) == low,
    decreases low - i,
{
    if i < low {
        lemma_ring_start(ring, hash, i + 1, low);
    }
}

// ---------------------------------------------------------------------------
// Probes
// ---------------------------------------------------------------------------

/// A backend after a probe. It becomes unhealthy only after
/// `consecutive_failures` failed probes, and healthy again only after
/// `consecutive_successes` good ones, so one blip neither removes nor restores
/// an upstream.
pub open spec fn probed(b: Backend, reachable: bool, hc: TcpHealthCheckSpec) -> Backend {
    if reachable {
        let successes = b.successes + 1;
        Backend {
            failures: 0,
            successes: successes as usize,
            healthy: b.healthy || successes >= hc.consecutive_successes,
            ..b
        }
    } else {
        let failures = b.failures + 1;
        Backend {
            successes: 0,
            failures: failures as usize,
            healthy: b.healthy && failures < hc.consecutive_failures,
            ..b
        }
    }
}

impl Balancer {
    /// Take the result of one probe of the backend numbered `i`. Nothing changes
    /// when health checking is off. Says whether the health of the backend
    /// changed.
    pub fn record_probe(&mut self, i: usize, reachable: bool) -> (changed: bool)
        requires
            old(self).wf(),
            i < old(self).backends@.len(),
            old(self).backends@[i as int].failures < usize::MAX,
            old(self).backends@[i as int].successes < usize::MAX,
        ensures
            final(self).wf(),
            final(self).policy == old(self).policy,
            final(self).ring == old(self).ring,
            final(self).cursor == old(self).cursor,
            final(self).health_check == old(self).health_check,
            final(self).backends@ == match old(self).health_check {
                Some(hc) => old(self).backends@.update(
                    i as int,
                    probed(old(self).backends@[i as int], reachable, hc),
                ),
                None => old(self).backends@,
            },
            changed == (final(self).backends@[i as int].healthy != old(
                self,
            ).backends@[i as int].healthy),
    {
        let hc = match &self.health_check {
            Some(hc) => *hc,
            None => {
                return false;
            },
        };
        let before = self.backends[i];
        let mut after = before;
        if reachable {
            after.failures = 0;
            after.successes = before.successes + 1;
            if after.successes >= hc.consecutive_successes {
                after.healthy = true;
            }
        } else {
            after.successes = 0;
            after.failures = before.failures + 1;
            if after.failures >= hc.consecutive_failures {
                after.healthy = false;
            }
        }
        self.backends.set(i, after);
        assert(addresses(self.backends@) == addresses(old(self).backends@));
        before.healthy != after.healthy
    }
}

// ---------------------------------------------------------------------------
// Laws
// ---------------------------------------------------------------------------

/// Whether `addr` is the address of a healthy backend.
pub open spec fn is_healthy(backends: Seq<Backend>, addr: SocketAddr) -> bool {
    exists|i: int|
        0 <= i < backends.len() && (#[trigger] backends[i]).healthy && backends[i].addr == addr
}

/// Selection never gives an unhealthy backend.
pub proof fn selection_is_healthy(b: Balancer, key: Seq<u8>)
    requires
        b.wf(),
    ensures
        b.choice(key) matches Some(addr) ==> is_healthy(b.backends@, addr),
{
    assert(b.backends.len() == b.backends@.len());
    if b.backends@.len() > 0 {
        lemma_healthy_from(b.backends@, 0, 0);
        lemma_healthy_from(b.backends@, b.cursor, 0);
        lemma_healthy_from(b.backends@, scrambled(b.cursor), 0);
        if b.ring@.len() > 0 {
            lemma_first_not_below(b.ring@, mixed(key), 0);
            lemma_owner_from(b.ring@, b.backends@, ring_start(b.ring@, mixed(key)), 0);
        }
    }
}

proof fn lemma_healthy_from(backends: Seq<Backend>, start: usize, offset: int)
    requires
        0 < backends.len() <= usize::MAX,
        0 <= offset <= backends.len(),
    ensures
        healthy_from(backends, start, offset) matches Some(addr) ==> is_healthy(backends, addr),
    decreases backends.len() - offset,
{
    if offset < backends.len() {
        let n = backends.len() as int;
        assert(0 <= slot(start, offset, n) < n);
        if !backends[slot(start, offset, n)].healthy {
            lemma_healthy_from(backends, start, offset + 1);
        }
    }
}

proof fn lemma_owner_from(
    ring: Seq<(u64, usize)>,
    backends: Seq<Backend>,
    start: int,
    offset: int,
)
    requires
        nodes_within(ring, backends.len() as int),
        ring.len() > 0,
        0 <= start,
        0 <= offset <= ring.len(),
    ensures
        owner_from(ring, backends, start, offset) matches Some(addr) ==> is_healthy(
            backends,
            addr,
        ),
    decreases ring.len() - offset,
{
    if offset < ring.len() {
        let at = (start + offset) % (ring.len() as int);
        assert(0 <= at < ring.len()) by {
            vstd::arithmetic::div_mod::lemma_mod_bound(start + offset, ring.len() as int);
        }
        assert(ring[at].1 < backends.len());
        if !backends[ring[at].1 as int].healthy {
            lemma_owner_from(ring, backends, start, offset + 1);
        }
    }
}

/// Selection gives nothing exactly when there is no healthy backend, whatever the
/// policy, the key and the cursor.
pub proof fn selection_finds_a_healthy_backend(b: Balancer, key: Seq<u8>)
    requires
        b.wf(),
    ensures
        b.choice(key) is None <==> forall|i: int|
            0 <= i < b.backends@.len() ==> !(#[trigger] b.backends@[i]).healthy,
{
    let all = b.backends@;
    assert(b.backends.len() == all.len());
    if exists|i: int| 0 <= i < all.len() && (#[trigger] all[i]).healthy {
        let i = choose|i: int| 0 <= i < all.len() && (#[trigger] all[i]).healthy;
        lemma_walk_finds(all, 0, i);
        lemma_walk_finds(all, b.cursor, i);
        lemma_walk_finds(all, scrambled(b.cursor), i);
        if b.ring@.len() > 0 {
            let start = ring_start(b.ring@, mixed(key));
            lemma_first_not_below(b.ring@, mixed(key), 0);
            lemma_ring_finds(b.ring@, all, start, i);
        }
    } else {
        selection_is_healthy(b, key);
    }
}

proof fn lemma_walk_finds(backends: Seq<Backend>, start: usize, i: int)
    requires
        0 <= i < backends.len(),
        backends[i].healthy,
    ensures
        healthy_from(backends, start, 0) is Some,
{
    let n = backends.len() as int;
    let k = lemma_comes_round(start as int, n, i);
    lemma_reaches(backends, start, 0, k);
}

/// How far from `start` the index `i` is, round a list of `n`.
pub(crate) proof fn lemma_comes_round(start: int, n: int, i: int) -> (k: int)
    requires
        0 <= i < n,
        0 <= start,
    ensures
        0 <= k < n,
        (start + k) % n == i,
{
    let k = (i - start) % n;
    vstd::arithmetic::div_mod::lemma_add_mod_noop_right(start, i - start, n);
    vstd::arithmetic::div_mod::lemma_small_mod(i as nat, n as nat);
    vstd::arithmetic::div_mod::lemma_mod_bound(i - start, n);
    k
}

proof fn lemma_reaches(backends: Seq<Backend>, start: usize, offset: int, k: int)
    requires
        0 <= offset <= k < backends.len(),
        backends[slot(start, k, backends.len() as int)].healthy,
    ensures
        healthy_from(backends, start, offset) is Some,
    decreases k - offset,
{
    let n = backends.len() as int;
    if offset < k && !backends[slot(start, offset, n)].healthy {
        lemma_reaches(backends, start, offset + 1, k);
    }
}

proof fn lemma_ring_finds(ring: Seq<(u64, usize)>, backends: Seq<Backend>, start: int, i: int)
    requires
        is_ring(ring, addresses(backends)),
        backends.len() <= usize::MAX,
        0 <= start,
        0 <= i < backends.len(),
        backends[i].healthy,
    ensures
        owner_from(ring, backends, start, 0) is Some,
{
    let addrs = addresses(backends);
    let at = i * VNODES_PER_BACKEND as int;
    assert(at / VNODES_PER_BACKEND as int == i);
    assert(0 <= at < points(addrs).len());
    let node = points(addrs)[at];
    assert(node.1 == i);
    assert(points(addrs).contains(node));
    lemma_member(ring, addrs, node);
    let j = choose|j: int| 0 <= j < ring.len() && ring[j] == node;
    let k = lemma_comes_round(start, ring.len() as int, j);
    lemma_ring_reaches(ring, backends, start, 0, k);
}

proof fn lemma_ring_reaches(
    ring: Seq<(u64, usize)>,
    backends: Seq<Backend>,
    start: int,
    offset: int,
    k: int,
)
    requires
        0 <= offset <= k < ring.len(),
        backends[ring[(start + k) % (ring.len() as int)].1 as int].healthy,
    ensures
        owner_from(ring, backends, start, offset) is Some,
    decreases k - offset,
{
    if offset < k && !backends[ring[(start + offset) % (ring.len() as int)].1 as int].healthy {
        lemma_ring_reaches(ring, backends, start, offset + 1, k);
    }
}

/// Under `ip_hash` one key has one upstream: what is selected depends on the key,
/// the ring and the health of the backends, and on nothing that selection
/// changes.
pub proof fn ip_hash_is_sticky(before: Balancer, after: Balancer, key: Seq<u8>)
    requires
        before.policy == LbPolicy::IpHash,
        after.policy == before.policy,
        after.ring == before.ring,
        after.backends == before.backends,
    ensures
        after.choice(key) == before.choice(key),
{
}

/// When all backends are healthy, round robin takes the backend at the cursor,
/// which every selection moves on by one.
pub proof fn round_robin_takes_turns(b: Balancer, key: Seq<u8>)
    requires
        b.policy == LbPolicy::RoundRobin,
        b.backends@.len() > 0,
        forall|i: int| 0 <= i < b.backends@.len() ==> (#[trigger] b.backends@[i]).healthy,
    ensures
        b.choice(key) == Some(b.backends@[b.cursor as int % b.backends@.len() as int].addr),
{
    assert(b.backends.len() == b.backends@.len());
    let n = b.backends@.len() as int;
    assert(slot(b.cursor, 0, n) == b.cursor as int % n);
    assert(b.backends@[slot(b.cursor, 0, n)].healthy);
}

/// Round robin comes to every backend within one round: of any `n` cursors in a
/// row, one stands at the backend numbered `i`.
pub proof fn round_robin_comes_round(cursor: int, n: int, i: int)
    requires
        0 <= i < n,
        0 <= cursor,
    ensures
        exists|k: int| 0 <= k < n && #[trigger] ((cursor + k) % n) == i,
{
    let k = (i - cursor) % n;
    vstd::arithmetic::div_mod::lemma_add_mod_noop_right(cursor, i - cursor, n);
    vstd::arithmetic::div_mod::lemma_small_mod(i as nat, n as nat);
    vstd::arithmetic::div_mod::lemma_mod_bound(i - cursor, n);
    assert((cursor + k) % n == i);
}

/// The node that serves `hash` when all backends are healthy.
pub open spec fn serving_node(ring: Seq<(u64, usize)>, hash: u64) -> (u64, usize) {
    ring[ring_start(ring, hash)]
}

/// Adding a backend moves keys only to the new backend: every key keeps the
/// backend that served it or goes to the one that was added. This is what
/// consistent hashing is for.
pub proof fn growing_moves_keys_only_to_the_newcomer(
    addrs: Seq<SocketAddr>,
    newcomer: SocketAddr,
    small: Seq<(u64, usize)>,
    large: Seq<(u64, usize)>,
    hash: u64,
)
    requires
        addrs.len() > 0,
        addrs.len() < usize::MAX,
        is_ring(small, addrs),
        is_ring(large, addrs.push(newcomer)),
    ensures
        serving_node(large, hash).1 == addrs.len() || serving_node(large, hash) == serving_node(
            small,
            hash,
        ),
{
    let grown = addrs.push(newcomer);
    lemma_ring_len(small, addrs);
    lemma_ring_len(large, grown);
    let a = ring_start(small, hash);
    let b = ring_start(large, hash);
    lemma_serving(small, hash);
    lemma_serving(large, hash);
    lemma_ring_node(large, grown, b);
    if large[b].1 != addrs.len() {
        // The serving node of the large ring is one of the small ring, and the
        // other way round, so each is no later than the other.
        lemma_old_point(addrs, newcomer, large[b]);
        lemma_member(small, addrs, large[b]);
        lemma_ring_node(small, addrs, a);
        lemma_kept_point(addrs, newcomer, small[a]);
        lemma_member(large, grown, small[a]);
        let i = choose|i: int| 0 <= i < small.len() && small[i] == large[b];
        let j = choose|j: int| 0 <= j < large.len() && large[j] == small[a];
        assert(small[i] == large[b] && large[j] == small[a]);
    }
}

pub(crate) proof fn lemma_ring_len(ring: Seq<(u64, usize)>, addrs: Seq<SocketAddr>)
    requires
        is_ring(ring, addrs),
    ensures
        ring.len() == addrs.len() * VNODES_PER_BACKEND,
{
    broadcast use vstd::seq_lib::group_to_multiset_ensures;

    assert(ring.to_multiset().len() == ring.len());
    assert(points(addrs).to_multiset().len() == points(addrs).len());
}

/// A node among the points of the backends is on their ring.
pub(crate) proof fn lemma_member(ring: Seq<(u64, usize)>, addrs: Seq<SocketAddr>, node: (u64, usize))
    requires
        is_ring(ring, addrs),
        points(addrs).contains(node),
    ensures
        ring.contains(node),
{
    broadcast use vstd::seq_lib::group_to_multiset_ensures;

    assert(points(addrs).to_multiset().count(node) > 0);
    assert(ring.to_multiset().count(node) > 0);
}

/// A point of the grown set that is not the newcomer's was there before.
proof fn lemma_old_point(addrs: Seq<SocketAddr>, newcomer: SocketAddr, node: (u64, usize))
    requires
        addrs.len() < usize::MAX,
        points(addrs.push(newcomer)).contains(node),
        node.1 != addrs.len(),
    ensures
        points(addrs).contains(node),
{
    let grown = addrs.push(newcomer);
    let j = choose|j: int| 0 <= j < points(grown).len() && points(grown)[j] == node;
    let q = j / VNODES_PER_BACKEND as int;
    assert(0 <= q < grown.len()) by (nonlinear_arith)
        requires
            0 <= j < grown.len() * 160,
            q == j / VNODES_PER_BACKEND as int,
            VNODES_PER_BACKEND == 160,
    ;
    assert(j < addrs.len() * VNODES_PER_BACKEND) by (nonlinear_arith)
        requires
            q < addrs.len(),
            q == j / VNODES_PER_BACKEND as int,
            0 <= j,
            VNODES_PER_BACKEND == 160,
    ;
    assert(points(addrs)[j] == node);
}

/// A point of the old set is still there in the grown set.
proof fn lemma_kept_point(addrs: Seq<SocketAddr>, newcomer: SocketAddr, node: (u64, usize))
    requires
        addrs.len() < usize::MAX,
        points(addrs).contains(node),
    ensures
        points(addrs.push(newcomer)).contains(node),
{
    let grown = addrs.push(newcomer);
    let j = choose|j: int| 0 <= j < points(addrs).len() && points(addrs)[j] == node;
    assert(0 <= (j / (VNODES_PER_BACKEND as int)) < addrs.len()) by (nonlinear_arith)
        requires
            0 <= j < addrs.len() * 160,
            VNODES_PER_BACKEND == 160,
    ;
    assert(j < points(grown).len());
    assert(points(grown)[j] == node);
}

/// The serving node is the first in order among the nodes not below the hash,
/// or among all nodes when every one is below.
proof fn lemma_serving(ring: Seq<(u64, usize)>, hash: u64)
    requires
        in_order(ring),
        ring.len() > 0,
    ensures
        0 <= ring_start(ring, hash) < ring.len(),
        forall|i: int|
            0 <= i < ring.len() && ring[i].0 >= hash ==> serving_node(ring, hash).0 >= hash
                && node_le(serving_node(ring, hash), #[trigger] ring[i]),
        serving_node(ring, hash).0 < hash ==> forall|i: int|
            0 <= i < ring.len() ==> node_le(serving_node(ring, hash), #[trigger] ring[i]),
{
    lemma_first_not_below(ring, hash, 0);
    let s = ring_start(ring, hash);
    assert forall|i: int| 0 <= i < ring.len() && ring[i].0 >= hash implies serving_node(
        ring,
        hash,
    ).0 >= hash && node_le(serving_node(ring, hash), #[trigger] ring[i]) by {
        assert(s <= i);
        assert(node_le(ring[s], ring[i]));
    }
    if serving_node(ring, hash).0 < hash {
        assert forall|i: int| 0 <= i < ring.len() implies node_le(
            serving_node(ring, hash),
            #[trigger] ring[i],
        ) by {
            assert(node_le(ring[0], ring[i]));
        }
    }
}

pub(crate) proof fn lemma_first_not_below(ring: Seq<(u64, usize)>, hash: u64, i: int)
    requires
        0 <= i <= ring.len(),
    ensures
        i <= ring_start_from(ring, hash, i) <= ring.len(),
        ring_start_from(ring, hash, i) < ring.len() ==> ring[ring_start_from(ring, hash, i)].0
            >= hash,
        forall|k: int| i <= k < ring_start_from(ring, hash, i) ==> (#[trigger] ring[k]).0 < hash,
    decreases ring.len() - i,
{
    if i < ring.len() && ring[i].0 < hash {
        lemma_first_not_below(ring, hash, i + 1);
    }
}

/// A backend after a series of probes.
pub open spec fn after_probes(b: Backend, probes: Seq<bool>, hc: TcpHealthCheckSpec) -> Backend
    decreases probes.len(),
{
    if probes.len() == 0 {
        b
    } else {
        probed(after_probes(b, probes.drop_last(), hc), probes.last(), hc)
    }
}

/// How many probes in a row had this outcome at the end of a series.
pub open spec fn streak(probes: Seq<bool>, outcome: bool) -> nat
    decreases probes.len(),
{
    if probes.len() == 0 || probes.last() != outcome {
        0
    } else {
        streak(probes.drop_last(), outcome) + 1
    }
}

proof fn lemma_streaks(b: Backend, probes: Seq<bool>, hc: TcpHealthCheckSpec)
    requires
        b.failures == 0,
        b.successes == 0,
        probes.len() <= usize::MAX,
    ensures
        after_probes(b, probes, hc).failures == streak(probes, false),
        after_probes(b, probes, hc).successes == streak(probes, true),
        streak(probes, false) <= probes.len(),
        streak(probes, true) <= probes.len(),
    decreases probes.len(),
{
    if probes.len() > 0 {
        lemma_streaks(b, probes.drop_last(), hc);
    }
}

/// Health follows streaks: enough failures in a row make a new backend unhealthy,
/// enough successes in a row make it healthy, and nothing else changes its health,
/// so a blip neither removes nor restores an upstream.
pub proof fn health_follows_streaks(b: Backend, probes: Seq<bool>, hc: TcpHealthCheckSpec)
    requires
        b.failures == 0,
        b.successes == 0,
        hc.consecutive_failures > 0,
        hc.consecutive_successes > 0,
        probes.len() <= usize::MAX,
    ensures
        streak(probes, false) >= hc.consecutive_failures ==> !after_probes(b, probes, hc).healthy,
        streak(probes, true) >= hc.consecutive_successes ==> after_probes(b, probes, hc).healthy,
        b.healthy && !after_probes(b, probes, hc).healthy ==> exists|n: int|
            0 < n <= probes.len() && #[trigger] streak(probes.take(n), false)
                >= hc.consecutive_failures,
        !b.healthy && after_probes(b, probes, hc).healthy ==> exists|n: int|
            0 < n <= probes.len() && #[trigger] streak(probes.take(n), true)
                >= hc.consecutive_successes,
    decreases probes.len(),
{
    lemma_streaks(b, probes, hc);
    if probes.len() > 0 {
        let before = probes.drop_last();
        lemma_streaks(b, before, hc);
        health_follows_streaks(b, before, hc);
        assert(probes.take(probes.len() as int) == probes);
        assert forall|n: int| 0 < n <= before.len() implies before.take(n) == probes.take(n) by {}
        if b.healthy && !after_probes(b, probes, hc).healthy {
            if after_probes(b, before, hc).healthy {
                assert(streak(probes.take(probes.len() as int), false) >= hc.consecutive_failures);
            } else {
                let n = choose|n: int|
                    0 < n <= before.len() && #[trigger] streak(before.take(n), false)
                        >= hc.consecutive_failures;
                assert(streak(probes.take(n), false) >= hc.consecutive_failures);
            }
        }
        if !b.healthy && after_probes(b, probes, hc).healthy {
            if !after_probes(b, before, hc).healthy {
                assert(streak(probes.take(probes.len() as int), true) >= hc.consecutive_successes);
            } else {
                let n = choose|n: int|
                    0 < n <= before.len() && #[trigger] streak(before.take(n), true)
                        >= hc.consecutive_successes;
                assert(streak(probes.take(n), true) >= hc.consecutive_successes);
            }
        }
    }
}

} // verus!
