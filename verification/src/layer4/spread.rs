//! How selection spreads load over the backends of a listener.
use crate::config::ast::LbPolicy;
use crate::layer4::balance::{healthy_from, slot, Backend, Balancer};
use crate::layer4::hash::fnv1a;
use crate::layer4::udp::UdpSelection;
use crate::net::SocketAddr;
use vstd::arithmetic::div_mod::{
    lemma_add_mod_noop, lemma_fundamental_div_mod, lemma_mod_bound, lemma_mod_mod,
    lemma_mul_mod_noop_general, lemma_small_mod,
};
use vstd::arithmetic::power2::{
    lemma2_to64, lemma2_to64_rest, lemma_pow2_adds, lemma_pow2_pos, lemma_pow2_strictly_increases,
    lemma_pow2_unfold, pow2,
};
use vstd::prelude::*;
use vstd::utf8::encode_utf8;

verus! {

/// A series of selections, one after the other: each starts from the state that
/// the one before it left.
pub open spec fn in_a_row(
    states: Seq<Balancer>,
    keys: Seq<Seq<u8>>,
    results: Seq<Option<SocketAddr>>,
) -> bool {
    &&& states.len() == results.len() + 1
    &&& keys.len() == results.len()
    &&& forall|k: int|
        0 <= k < results.len() ==> (#[trigger] states[k]).selected(
            keys[k],
            results[k],
            states[k + 1],
        )
}

/// Whether every backend is healthy.
pub open spec fn all_healthy(backends: Seq<Backend>) -> bool {
    forall|i: int| 0 <= i < backends.len() ==> (#[trigger] backends[i]).healthy
}

/// Under `random`, with all backends healthy and a power of two of them, as many
/// selections in a row as there are backends reach every one of them.
pub proof fn random_reaches_every_backend(
    states: Seq<Balancer>,
    keys: Seq<Seq<u8>>,
    results: Seq<Option<SocketAddr>>,
    e: nat,
    i: int,
)
    requires
        in_a_row(states, keys, results),
        states[0].policy == LbPolicy::Random,
        all_healthy(states[0].backends@),
        states[0].backends@.len() == pow2(e),
        results.len() == pow2(e),
        0 <= i < pow2(e),
    ensures
        exists|k: int|
            0 <= k < results.len() && #[trigger] results[k] == Some(states[0].backends@[i].addr),
{
    let first = states[0].backends@;
    assert(states[0].backends.len() == first.len());
    lemma_pow2_pos(e);
    let k = lemma_generator_comes(states[0].cursor, e, i);
    lemma_kept(states, keys, results, k);
    lemma_random_start(states[k], keys[k], e);
    assert(states[k].selected(keys[k], results[k], states[k + 1]));
    assert(results[k] == Some(first[i].addr));
}

/// Of as many cursors in a row as there are backends, one is the one from which
/// the generator comes to the backend numbered `i`.
proof fn lemma_generator_comes(cursor: usize, e: nat, i: int) -> (k: int)
    requires
        pow2(e) <= usize::MAX,
        0 <= i < pow2(e),
    ensures
        0 <= k < pow2(e),
        (((cursor + k) % (usize::MAX as int + 1)) * 1_103_515_245 + 12_345) % (pow2(e) as int)
            == i,
{
    let n = pow2(e) as int;
    let c = cursor as int;
    lemma_range(e);
    let inverse = lemma_odd_inverse(1_103_515_245, e);
    let far = i - (c * 1_103_515_245 + 12_345);
    let k = (far * inverse) % n;
    lemma_mod_bound(far * inverse, n);
    let range = usize::MAX as int + 1;
    let now = (c + k) % range;
    let times = range / n;
    // The cursor is `c + k`, up to a multiple of `n`.
    lemma_mod_mod(c + k, n, times);
    lemma_cong_mul(now, c + k, 1_103_515_245, n);
    lemma_cong_add(now * 1_103_515_245, (c + k) * 1_103_515_245, 12_345, n);
    assert((c + k) * 1_103_515_245 + 12_345 == k * 1_103_515_245 + (i - far));
    // And `k` times the factor is `far`, up to a multiple of `n`.
    vstd::arithmetic::div_mod::lemma_mod_twice(far * inverse, n);
    lemma_cong_mul(k, far * inverse, 1_103_515_245, n);
    assert(far * inverse * 1_103_515_245 == far * (inverse * 1_103_515_245))
        by (nonlinear_arith);
    lemma_cong_mul(inverse * 1_103_515_245, 1, far, n);
    assert(inverse * 1_103_515_245 * far == far * (inverse * 1_103_515_245))
        by (nonlinear_arith);
    lemma_cong_add(k * 1_103_515_245, far, i - far, n);
    lemma_small_mod(i as nat, n as nat);
    k
}

proof fn lemma_cong_mul(x: int, y: int, z: int, m: int)
    requires
        m > 0,
        x % m == y % m,
    ensures
        (x * z) % m == (y * z) % m,
{
    lemma_mul_mod_noop_general(x, z, m);
    lemma_mul_mod_noop_general(y, z, m);
}

proof fn lemma_cong_add(x: int, y: int, z: int, m: int)
    requires
        m > 0,
        x % m == y % m,
    ensures
        (x + z) % m == (y + z) % m,
{
    lemma_add_mod_noop(x, z, m);
    lemma_add_mod_noop(y, z, m);
}

/// An odd number has an inverse modulo a power of two.
proof fn lemma_odd_inverse(a: int, e: nat) -> (x: int)
    requires
        a % 2 == 1,
    ensures
        (x * a) % (pow2(e) as int) == 1int % (pow2(e) as int),
    decreases e,
{
    lemma_pow2_pos(e);
    if e == 0 {
        lemma2_to64();
        0
    } else {
        lemma_pow2_unfold(e);
        let half = pow2((e - 1) as nat) as int;
        lemma_pow2_pos((e - 1) as nat);
        let x = lemma_odd_inverse(a, (e - 1) as nat);
        // `x * a` is 1 and a number of halves.
        vstd::arithmetic::div_mod::lemma_mod_equivalence(x * a, 1, half);
        lemma_fundamental_div_mod(x * a - 1, half);
        let t = (x * a - 1) / half;
        assert(x * a == 1 + half * t);
        if t % 2 == 0 {
            let s = t / 2;
            assert(x * a == 1 + (2 * half) * s) by (nonlinear_arith)
                requires
                    x * a == 1 + half * t,
                    t == 2 * s,
            ;
            vstd::arithmetic::div_mod::lemma_mod_multiples_vanish(s, 1, 2 * half);
            assert((2 * half) * s + 1 == x * a);
            x
        } else {
            let y = x + half;
            let s = (t + a) / 2;
            assert(t + a == 2 * s);
            assert(y * a == 1 + (2 * half) * s) by (nonlinear_arith)
                requires
                    x * a == 1 + half * t,
                    y == x + half,
                    t + a == 2 * s,
            ;
            vstd::arithmetic::div_mod::lemma_mod_multiples_vanish(s, 1, 2 * half);
            y
        }
    }
}

/// A power of two that is a `usize` divides the number of values of `usize`.
proof fn lemma_range(e: nat)
    requires
        pow2(e) <= usize::MAX,
    ensures
        pow2(e) > 0,
        (usize::MAX as int + 1) / (pow2(e) as int) > 0,
        usize::MAX as int + 1 == pow2(e) as int * ((usize::MAX as int + 1) / (pow2(e) as int)),
{
    lemma2_to64();
    lemma2_to64_rest();
    lemma_pow2_pos(e);
    let bits: nat = if usize::MAX as int + 1 == pow2(32) {
        32
    } else {
        64
    };
    assert(usize::MAX as int + 1 == pow2(bits));
    if e >= bits {
        if e > bits {
            lemma_pow2_strictly_increases(bits, e);
        }
        assert(false);
    }
    let rest = pow2((bits - e) as nat) as int;
    lemma_pow2_pos((bits - e) as nat);
    lemma_pow2_adds(e, (bits - e) as nat);
    assert(usize::MAX as int + 1 == rest * pow2(e) as int + 0) by (nonlinear_arith)
        requires
            usize::MAX as int + 1 == pow2(e) * rest,
    ;
    vstd::arithmetic::div_mod::lemma_fundamental_div_mod_converse(
        usize::MAX as int + 1,
        pow2(e) as int,
        rest,
        0,
    );
    assert(pow2(e) as int * rest == rest * pow2(e) as int) by (nonlinear_arith);
}

/// Over a series of selections the backends and the policy stay, and the cursor
/// moves on by one each time, round the values of `usize`.
proof fn lemma_kept(
    states: Seq<Balancer>,
    keys: Seq<Seq<u8>>,
    results: Seq<Option<SocketAddr>>,
    k: int,
)
    requires
        in_a_row(states, keys, results),
        0 <= k <= results.len(),
        states[0].policy != LbPolicy::IpHash,
        states[0].backends@.len() > 0,
    ensures
        states[k].policy == states[0].policy,
        states[k].backends == states[0].backends,
        states[k].cursor as int == (states[0].cursor + k) % (usize::MAX as int + 1),
    decreases k,
{
    let range = usize::MAX as int + 1;
    if k == 0 {
        lemma_small_mod(states[0].cursor as nat, range as nat);
    } else {
        lemma_kept(states, keys, results, k - 1);
        assert(states[k - 1].selected(keys[k - 1], results[k - 1], states[k - 1 + 1]));
        lemma_moved_on(states[0].cursor, states[k - 1].cursor, k - 1);
    }
}

/// One step of the generator, modulo a power of two.
proof fn lemma_generator(c: usize, e: nat)
    requires
        pow2(e) <= usize::MAX,
    ensures
        c.wrapping_mul(1_103_515_245usize).wrapping_add(12_345usize) as int % (pow2(e) as int) == (
        c * 1_103_515_245 + 12_345) % (pow2(e) as int),
{
    let n = pow2(e) as int;
    lemma_range(e);
    let range = usize::MAX as int + 1;
    let times = range / n;
    let start = c.wrapping_mul(1_103_515_245usize).wrapping_add(12_345usize) as int;
    let product = c.wrapping_mul(1_103_515_245usize) as int;
    assert(product == (c * 1_103_515_245) % range);
    lemma_mod_mod(c * 1_103_515_245, n, times);
    lemma_cong_add(product, c * 1_103_515_245, 12_345, n);
    if product + 12_345 >= range {
        assert(start == product + 12_345 - range);
        vstd::arithmetic::div_mod::lemma_mod_multiples_vanish(times, start, n);
        assert(n * times + start == product + 12_345);
    }
}

/// With all backends healthy, `random` takes the backend at the next value of the
/// generator.
proof fn lemma_random_start(b: Balancer, key: Seq<u8>, e: nat)
    requires
        b.policy == LbPolicy::Random,
        all_healthy(b.backends@),
        b.backends@.len() == pow2(e),
    ensures
        b.choice(key) == Some(
            b.backends@[(b.cursor * 1_103_515_245 + 12_345) % (pow2(e) as int)].addr,
        ),
{
    let n = pow2(e) as int;
    assert(b.backends.len() == b.backends@.len());
    lemma_pow2_pos(e);
    lemma_generator(b.cursor, e);
    let start = b.cursor.wrapping_mul(1_103_515_245usize).wrapping_add(12_345usize);
    lemma_mod_bound(start as int, n);
    assert(slot(start, 0, n) == start as int % n);
    assert(b.backends@[slot(start, 0, n)].healthy);
    assert(healthy_from(b.backends@, start, 0) == Some(b.backends@[slot(start, 0, n)].addr));
}

// ---------------------------------------------------------------------------
// Turns
// ---------------------------------------------------------------------------

/// Under `round_robin`, with all backends healthy, as many selections in a row as
/// there are backends reach every one of them, unless the cursor comes round the
/// values of `usize` meanwhile.
pub proof fn round_robin_reaches_every_backend(
    states: Seq<Balancer>,
    keys: Seq<Seq<u8>>,
    results: Seq<Option<SocketAddr>>,
    i: int,
)
    requires
        in_a_row(states, keys, results),
        states[0].policy == LbPolicy::RoundRobin,
        all_healthy(states[0].backends@),
        results.len() == states[0].backends@.len(),
        states[0].cursor + results.len() <= usize::MAX,
        0 <= i < results.len(),
    ensures
        exists|k: int|
            0 <= k < results.len() && #[trigger] results[k] == Some(states[0].backends@[i].addr),
{
    let first = states[0].backends@;
    let n = first.len() as int;
    let c = states[0].cursor as int;
    let k = (i - c) % n;
    lemma_mod_bound(i - c, n);
    lemma_kept(states, keys, results, k);
    lemma_small_mod((c + k) as nat, (usize::MAX as int + 1) as nat);
    assert(states[k].selected(keys[k], results[k], states[k + 1]));
    crate::layer4::balance::round_robin_takes_turns(states[k], keys[k]);
    vstd::arithmetic::div_mod::lemma_add_mod_noop_right(c, i - c, n);
    lemma_small_mod(i as nat, n as nat);
    assert(results[k] == Some(first[i].addr));
}

/// Where selection by the cursor starts, and where it ends: `round_robin` starts
/// at the cursor and `random` at the next value of the generator, and both take
/// the first healthy backend from there, round the list.
pub proof fn the_first_healthy_backend_is_taken(b: Balancer, key: Seq<u8>, start: int, d: int)
    requires
        b.policy != LbPolicy::IpHash,
        start == (if b.policy == LbPolicy::RoundRobin {
            b.cursor as int
        } else {
            (b.cursor * 1_103_515_245 + 12_345) % (usize::MAX + 1)
        }),
        0 <= d < b.backends@.len(),
        b.backends@[(start + d) % (b.backends@.len() as int)].healthy,
        forall|j: int|
            0 <= j < d ==> !b.backends@[#[trigger] ((start + j) % (b.backends@.len() as int))].healthy,
    ensures
        b.choice(key) == Some(b.backends@[(start + d) % (b.backends@.len() as int)].addr),
{
    assert(b.backends.len() == b.backends@.len());
    if b.policy == LbPolicy::RoundRobin {
        lemma_first_from(b.backends@, b.cursor, 0, d);
    } else {
        let range = usize::MAX as int + 1;
        let c = b.cursor as int;
        let s = b.cursor.wrapping_mul(1_103_515_245usize).wrapping_add(12_345usize);
        let product = b.cursor.wrapping_mul(1_103_515_245usize) as int;
        assert(product == (c * 1_103_515_245) % range);
        assert(s as int == start) by {
            lemma_add_mod_noop(c * 1_103_515_245, 12_345, range);
            lemma_small_mod(12_345, range as nat);
            if product + 12_345 >= range {
                lemma_small_mod((product + 12_345 - range) as nat, range as nat);
                vstd::arithmetic::div_mod::lemma_mod_add_multiples_vanish(
                    product + 12_345 - range,
                    range,
                );
            } else {
                lemma_small_mod((product + 12_345) as nat, range as nat);
            }
        }
        lemma_first_from(b.backends@, s, 0, d);
    }
}

proof fn lemma_first_from(backends: Seq<Backend>, start: usize, offset: int, d: int)
    requires
        0 <= offset <= d < backends.len(),
        backends[(start + d) % (backends.len() as int)].healthy,
        forall|j: int|
            offset <= j < d ==> !backends[#[trigger] ((start + j) % (backends.len()
                as int))].healthy,
    ensures
        healthy_from(backends, start, offset) == Some(
            backends[(start + d) % (backends.len() as int)].addr,
        ),
    decreases d - offset,
{
    assert(slot(start, offset, backends.len() as int) == (start + offset) % (backends.len()
        as int));
    if offset < d {
        assert(!backends[(start + offset) % (backends.len() as int)].healthy);
        lemma_first_from(backends, start, offset + 1, d);
    }
}

// ---------------------------------------------------------------------------
// The flows of a UDP listener
// ---------------------------------------------------------------------------

/// A hash of bytes.
pub type ByteHash = spec_fn(Seq<u8>) -> u64;

/// Whether `h` is FNV-1a with 64 bits: it starts at the offset basis, and each
/// byte is mixed in with an exclusive or and then a product with the FNV prime.
pub open spec fn is_fnv_1a(h: ByteHash) -> bool {
    &&& h(Seq::empty()) == 14_695_981_039_346_656_037
    &&& forall|s: Seq<u8>, b: u8| #[trigger]
        h(s.push(b)) == ((h(s) ^ (b as u64)) * 1_099_511_628_211) % 0x1_0000_0000_0000_0000
}

/// Under `ip_hash` the upstream of a flow has the number that FNV-1a gives for the
/// text of the client address, modulo the number of upstreams.
pub proof fn source_hash_is_fnv_1a(
    s: UdpSelection,
    client: SocketAddr,
    h: ByteHash,
)
    requires
        is_fnv_1a(h),
        s.state.policy == LbPolicy::IpHash,
        s.state.upstreams@.len() > 0,
    ensures
        s.choice(client) == Some(
            s.state.upstreams@[(h(encode_utf8(client.ip.text())) as usize) as int
                % s.state.upstreams@.len() as int],
        ),
{
    lemma_only_fnv_1a(h, encode_utf8(client.ip.text()));
}

pub(crate) proof fn lemma_only_fnv_1a(h: ByteHash, bytes: Seq<u8>)
    requires
        is_fnv_1a(h),
    ensures
        h(bytes) == fnv1a(bytes),
    decreases bytes.len(),
{
    if bytes.len() == 0 {
        assert(bytes == Seq::<u8>::empty());
    } else {
        lemma_only_fnv_1a(h, bytes.drop_last());
        assert(bytes == bytes.drop_last().push(bytes.last()));
    }
}

/// Whether the last byte of the text of an address is odd.
pub open spec fn ends_odd(bytes: Seq<u8>) -> bool {
    bytes.len() > 0 && bytes.last() % 2 == 1
}

/// Under `ip_hash` with two upstreams, two client addresses whose texts are alike
/// up to the last character go to different upstreams where one of these
/// characters is odd and the other is not, as with `10.0.0.1` and `10.0.0.2`.
pub proof fn neighbours_are_parted(s: UdpSelection, c: SocketAddr, d: SocketAddr)
    requires
        s.state.policy == LbPolicy::IpHash,
        s.state.upstreams@.len() == 2,
        encode_utf8(c.ip.text()).len() > 0,
        encode_utf8(d.ip.text()).len() > 0,
        encode_utf8(c.ip.text()).drop_last() == encode_utf8(d.ip.text()).drop_last(),
        ends_odd(encode_utf8(c.ip.text())) != ends_odd(encode_utf8(d.ip.text())),
    ensures
        (s.choice(c) == Some(s.state.upstreams@[0]) && s.choice(d) == Some(
            s.state.upstreams@[1],
        )) || (s.choice(c) == Some(s.state.upstreams@[1]) && s.choice(d) == Some(
            s.state.upstreams@[0],
        )),
{
    let a = encode_utf8(c.ip.text());
    let b = encode_utf8(d.ip.text());
    lemma_parity(a.drop_last(), a.last());
    lemma_parity(b.drop_last(), b.last());
    assert(a == a.drop_last().push(a.last()));
    assert(b == b.drop_last().push(b.last()));
    lemma_low_bit(fnv1a(a));
    lemma_low_bit(fnv1a(b));
}

proof fn lemma_parity(s: Seq<u8>, b: u8)
    ensures
        (fnv1a(s.push(b)) % 2 == 1) == ((fnv1a(s) % 2 == 1) != (b % 2 == 1)),
{
    assert(s.push(b).drop_last() == s);
    let x = fnv1a(s);
    let y = x ^ (b as u64);
    assert((y % 2 == 1) == ((x % 2 == 1) != (b % 2 == 1))) by (bit_vector)
        requires
            y == x ^ (b as u64),
    ;
    lemma_odd_product(y as int, fnv1a(s.push(b)) as int);
}

/// A product with the FNV prime, which is odd, keeps the low bit.
proof fn lemma_odd_product(y: int, p: int)
    requires
        p == (y * 0x100_0000_01b3) % 0x1_0000_0000_0000_0000,
    ensures
        p % 2 == y % 2,
{
    lemma_parity_of_product(y, 0x100_0000_01b3, 0x8000_0000_0000_0000, p);
}

proof fn lemma_parity_of_product(y: int, q: int, m: int, p: int)
    requires
        m > 0,
        q % 2 == 1,
        p == (y * q) % (2 * m),
    ensures
        p % 2 == y % 2,
{
    lemma_mod_mod(y * q, 2, m);
    lemma_mul_mod_noop_general(y, q, 2);
    assert((y % 2) * (q % 2) == y % 2) by (nonlinear_arith)
        requires
            q % 2 == 1,
    ;
}

proof fn lemma_low_bit(x: u64)
    ensures
        (x as usize) % 2 == x % 2,
{
    assert((x as usize) % 2 == x % 2) by (bit_vector);
}

/// A series of selections, one after the other, for the flows of a UDP listener.
pub open spec fn flows_in_a_row(
    states: Seq<UdpSelection>,
    clients: Seq<SocketAddr>,
    results: Seq<Option<SocketAddr>>,
) -> bool {
    &&& states.len() == results.len() + 1
    &&& clients.len() == results.len()
    &&& forall|k: int|
        0 <= k < results.len() ==> (#[trigger] states[k]).selected(
            clients[k],
            results[k],
            states[k + 1],
        )
}

proof fn lemma_flows_kept(
    states: Seq<UdpSelection>,
    clients: Seq<SocketAddr>,
    results: Seq<Option<SocketAddr>>,
    k: int,
)
    requires
        flows_in_a_row(states, clients, results),
        0 <= k <= results.len(),
        states[0].state.policy != LbPolicy::IpHash,
        states[0].state.upstreams@.len() > 0,
    ensures
        states[k].state == states[0].state,
        states[k].cursor as int == (states[0].cursor + k) % (usize::MAX as int + 1),
    decreases k,
{
    let range = usize::MAX as int + 1;
    if k == 0 {
        lemma_small_mod(states[0].cursor as nat, range as nat);
    } else {
        lemma_flows_kept(states, clients, results, k - 1);
        assert(states[k - 1].selected(clients[k - 1], results[k - 1], states[k - 1 + 1]));
        lemma_moved_on(states[0].cursor, states[k - 1].cursor, k - 1);
    }
}

/// Moving a cursor on by one.
proof fn lemma_moved_on(start: usize, cursor: usize, k: int)
    requires
        cursor as int == (start + k) % (usize::MAX as int + 1),
    ensures
        cursor.wrapping_add(1usize) as int == (start + (k + 1)) % (usize::MAX as int + 1),
{
    let range = usize::MAX as int + 1;
    let before = cursor as int;
    let next = cursor.wrapping_add(1usize) as int;
    if next == before + 1 {
        lemma_small_mod(next as nat, range as nat);
    } else {
        assert(next == 0);
        assert(before + 1 == range);
        vstd::arithmetic::div_mod::lemma_mod_self_0(range);
    }
    lemma_add_mod_noop(start + k, 1, range);
    lemma_add_mod_noop(before, 1, range);
    vstd::arithmetic::div_mod::lemma_mod_twice(start + k, range);
    assert(start + k + 1 == start + (k + 1));
}

/// Under `random`, with a power of two of upstreams, as many flows in a row as
/// there are upstreams reach every one of them.
pub proof fn random_flows_reach_every_upstream(
    states: Seq<UdpSelection>,
    clients: Seq<SocketAddr>,
    results: Seq<Option<SocketAddr>>,
    e: nat,
    i: int,
)
    requires
        flows_in_a_row(states, clients, results),
        states[0].state.policy == LbPolicy::Random,
        states[0].state.upstreams@.len() == pow2(e),
        results.len() == pow2(e),
        0 <= i < pow2(e),
    ensures
        exists|k: int|
            0 <= k < results.len() && #[trigger] results[k] == Some(
                states[0].state.upstreams@[i],
            ),
{
    let all = states[0].state.upstreams@;
    assert(states[0].state.upstreams.len() == all.len());
    lemma_pow2_pos(e);
    let k = lemma_generator_comes(states[0].cursor, e, i);
    lemma_flows_kept(states, clients, results, k);
    lemma_generator(states[k].cursor, e);
    assert(states[k].selected(clients[k], results[k], states[k + 1]));
    assert(results[k] == Some(all[i]));
}

/// Under `round_robin`, as many flows in a row as there are upstreams reach every
/// one of them, unless the cursor comes round the values of `usize` meanwhile.
pub proof fn flows_take_turns(
    states: Seq<UdpSelection>,
    clients: Seq<SocketAddr>,
    results: Seq<Option<SocketAddr>>,
    i: int,
)
    requires
        flows_in_a_row(states, clients, results),
        states[0].state.policy == LbPolicy::RoundRobin,
        results.len() == states[0].state.upstreams@.len(),
        states[0].cursor + results.len() <= usize::MAX,
        0 <= i < results.len(),
    ensures
        exists|k: int|
            0 <= k < results.len() && #[trigger] results[k] == Some(
                states[0].state.upstreams@[i],
            ),
{
    let all = states[0].state.upstreams@;
    let n = all.len() as int;
    let c = states[0].cursor as int;
    let k = (i - c) % n;
    lemma_mod_bound(i - c, n);
    lemma_flows_kept(states, clients, results, k);
    lemma_small_mod((c + k) as nat, (usize::MAX as int + 1) as nat);
    assert(states[k].selected(clients[k], results[k], states[k + 1]));
    vstd::arithmetic::div_mod::lemma_add_mod_noop_right(c, i - c, n);
    lemma_small_mod(i as nat, n as nat);
    assert(results[k] == Some(all[i]));
}

} // verus!
