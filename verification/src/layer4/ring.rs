//! Which backend serves a key under `ip_hash`.
use crate::config::ast::LbPolicy;
use crate::layer4::balance::{
    addresses, in_order, lemma_comes_round, lemma_first_not_below, lemma_member, lemma_ring_len,
    lemma_ring_node, node_le, owner_from, point, points, ring_start, ring_start_from, Backend,
    Balancer,
};
use crate::layer4::hash::mixed;
use crate::layer4::spread::{is_fnv_1a, lemma_only_fnv_1a, ByteHash};
use crate::net::SocketAddr;
use crate::num::decimal;
use vstd::prelude::*;
use vstd::utf8::encode_utf8;

verus! {

/// The bits of a hash stirred, so that every one of them has a part in every bit
/// of the result.
pub open spec fn stirred(x: u64) -> u64 {
    let a = (((x ^ (x >> 33u64)) * 0xff51_afd7_ed55_8ccd) % 0x1_0000_0000_0000_0000) as u64;
    let b = (((a ^ (a >> 33u64)) * 0xc4ce_b9fe_1a85_ec53) % 0x1_0000_0000_0000_0000) as u64;
    b ^ (b >> 33u64)
}

/// How far it is from one point of the circle to another, going up.
pub open spec fn distance(from: u64, to: u64) -> int {
    if to >= from {
        to - from
    } else {
        to - from + 0x1_0000_0000_0000_0000
    }
}

/// The point numbered `v` of a backend.
pub open spec fn point_on_circle(h: ByteHash, addr: SocketAddr, v: nat) -> u64 {
    stirred(h(encode_utf8(addr.text() + "#"@ + decimal(v))))
}

/// A key is served by the healthy backend that owns the nearest point going up
/// from the key: every backend has 160 points on the circle, each the stirred
/// FNV-1a hash of its address and a number, and of two backends with a point at
/// one place the first one counts.
pub proof fn the_nearest_point_serves(
    b: Balancer,
    key: Seq<u8>,
    h: ByteHash,
    i: int,
    v: int,
)
    requires
        b.wf(),
        b.policy == LbPolicy::IpHash,
        is_fnv_1a(h),
        0 <= i < b.backends@.len(),
        0 <= v < 160,
        b.backends@[i].healthy,
        forall|j: int, w: int|
            0 <= j < b.backends@.len() && 0 <= w < 160 && b.backends@[j].healthy ==> ({
                let p = distance(
                    stirred(h(key)),
                    point_on_circle(h, b.backends@[i].addr, v as nat),
                );
                let q = distance(
                    stirred(h(key)),
                    #[trigger] point_on_circle(h, b.backends@[j].addr, w as nat),
                );
                p < q || (p == q && i <= j)
            }),
    ensures
        b.choice(key) == Some(b.backends@[i].addr),
{
    let all = b.backends@;
    let addrs = addresses(all);
    let ring = b.ring@;
    assert(b.backends.len() == all.len());
    lemma_ring_len(ring, addrs);
    lemma_only_fnv_1a(h, key);
    lemma_stirred(h(key));
    let from = mixed(key);
    assert(from == stirred(h(key)));
    let len = ring.len() as int;
    assert(len > 0);
    lemma_first_not_below(ring, from, 0);
    let start = ring_start(ring, from);
    // Where the nearest point is on the ring.
    let node = (point(addrs[i], v as nat), i as usize);
    lemma_point(addrs, i, v);
    lemma_member(ring, addrs, node);
    let at = choose|at: int| 0 <= at < ring.len() && ring[at] == node;
    let k = lemma_comes_round(start, len, at);
    // The walk stops there, or before at a node that is no farther.
    let o = lemma_stops(ring, all, start, 0, k);
    let found = ring[(start + o) % len];
    vstd::arithmetic::div_mod::lemma_mod_bound(start + o, len);
    lemma_ring_node(ring, addrs, (start + o) % len);
    let (j, w) = lemma_owner(addrs, found);
    lemma_walk_order(ring, from, o, k);
    lemma_circle(h, addrs[i], v as nat);
    lemma_circle(h, addrs[j], w as nat);
    assert(all[j].healthy);
    assert(point_on_circle(h, all[j].addr, w as nat) == found.0);
    assert(point_on_circle(h, all[i].addr, v as nat) == node.0);
    assert(i == j);
}

proof fn lemma_stirred(x: u64)
    ensures
        stirred(x) == crate::layer4::hash::finalized(x),
{
}

proof fn lemma_circle(h: ByteHash, addr: SocketAddr, v: nat)
    requires
        is_fnv_1a(h),
    ensures
        point_on_circle(h, addr, v) == point(addr, v),
{
    let bytes = encode_utf8(addr.text() + "#"@ + decimal(v));
    lemma_only_fnv_1a(h, bytes);
    lemma_stirred(h(bytes));
}

/// Every point of a backend is among the points.
proof fn lemma_point(addrs: Seq<SocketAddr>, i: int, v: int)
    requires
        0 <= i < addrs.len(),
        addrs.len() <= usize::MAX,
        0 <= v < 160,
    ensures
        points(addrs).contains((point(addrs[i], v as nat), i as usize)),
{
    let m = i * 160 + v;
    assert(m < addrs.len() * 160) by (nonlinear_arith)
        requires
            i + 1 <= addrs.len(),
            0 <= v < 160,
            m == i * 160 + v,
    ;
    assert(m / 160 == i && m % 160 == v);
    assert(points(addrs)[m] == (point(addrs[i], v as nat), i as usize));
}

/// Every node among the points is a point of its backend.
proof fn lemma_owner(addrs: Seq<SocketAddr>, node: (u64, usize)) -> (r: (int, int))
    requires
        points(addrs).contains(node),
        addrs.len() <= usize::MAX,
    ensures
        0 <= r.0 < addrs.len(),
        0 <= r.1 < 160,
        node == (point(addrs[r.0], r.1 as nat), r.0 as usize),
        node.1 == r.0,
{
    let m = choose|m: int| 0 <= m < points(addrs).len() && points(addrs)[m] == node;
    assert(0 <= m / 160 < addrs.len()) by (nonlinear_arith)
        requires
            0 <= m < addrs.len() * 160,
    ;
    (m / 160, m % 160)
}

/// The walk stops at the first node of a healthy backend.
proof fn lemma_stops(
    ring: Seq<(u64, usize)>,
    backends: Seq<Backend>,
    start: int,
    offset: int,
    k: int,
) -> (o: int)
    requires
        0 <= offset <= k < ring.len(),
        backends[ring[(start + k) % (ring.len() as int)].1 as int].healthy,
    ensures
        offset <= o <= k,
        backends[ring[(start + o) % (ring.len() as int)].1 as int].healthy,
        owner_from(ring, backends, start, offset) == Some(
            backends[ring[(start + o) % (ring.len() as int)].1 as int].addr,
        ),
    decreases k - offset,
{
    if backends[ring[(start + offset) % (ring.len() as int)].1 as int].healthy {
        offset
    } else {
        lemma_stops(ring, backends, start, offset + 1, k)
    }
}

/// Along the walk nodes get no nearer.
proof fn lemma_walk_order(ring: Seq<(u64, usize)>, from: u64, o: int, k: int)
    requires
        in_order(ring),
        0 <= o <= k < ring.len(),
    ensures
        ({
            let len = ring.len() as int;
            let a = ring[(ring_start(ring, from) + o) % len];
            let b = ring[(ring_start(ring, from) + k) % len];
            let p = distance(from, a.0);
            let q = distance(from, b.0);
            p < q || (p == q && a.1 <= b.1)
        }),
{
    let len = ring.len() as int;
    lemma_first_not_below(ring, from, 0);
    let start = ring_start(ring, from);
    let x = lemma_place(ring, from, o);
    let y = lemma_place(ring, from, k);
    if x <= y {
        assert(node_le(ring[x], ring[y]));
        if x < start && start <= y {
            assert(start + o < len);
        }
    }
}

/// Where the walk is after `o` steps, and on which side of the start.
proof fn lemma_place(ring: Seq<(u64, usize)>, from: u64, o: int) -> (x: int)
    requires
        in_order(ring),
        0 <= o < ring.len(),
    ensures
        x == (ring_start(ring, from) + o) % (ring.len() as int),
        0 <= x < ring.len(),
        0 <= ring_start(ring, from) < ring.len(),
        x == (if ring_start(ring, from) + o < ring.len() {
            ring_start(ring, from) + o
        } else {
            ring_start(ring, from) + o - ring.len()
        }),
        ring_start_from(ring, from, 0) < ring.len() ==> (ring[x].0 < from <==> x < ring_start(
            ring,
            from,
        )),
        ring_start_from(ring, from, 0) == ring.len() ==> ring[x].0 < from,
{
    let len = ring.len() as int;
    lemma_first_not_below(ring, from, 0);
    let start = ring_start(ring, from);
    if start + o < len {
        vstd::arithmetic::div_mod::lemma_small_mod((start + o) as nat, len as nat);
    } else {
        vstd::arithmetic::div_mod::lemma_small_mod((start + o - len) as nat, len as nat);
        vstd::arithmetic::div_mod::lemma_mod_add_multiples_vanish(start + o - len, len);
    }
    let x = (start + o) % len;
    if start <= x {
        assert(node_le(ring[start], ring[x]));
    }
    x
}

} // verus!
