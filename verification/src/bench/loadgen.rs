//! The accounting of the load generator: latencies, counts and batches.
use crate::text::{cat2, is_empty, owned, trim, trimmed};
use crate::time::Duration;
use vstd::prelude::*;
use vstd::relations::{sorted_by, total_ordering};
use vstd::seq_lib::{lemma_sorted_unique, to_multiset_build, to_multiset_insert};

verus! {

// ---------------------------------------------------------------------------
// Modes and arguments
// ---------------------------------------------------------------------------

/// What the load generator measures.
#[derive(Clone, Copy, PartialEq, Eq, Structural, Debug)]
pub enum Mode {
    TcpThroughput,
    TcpLatency,
    TcpConnections,
    TcpConnectRate,
    UdpThroughput,
    UdpLatency,
    UdpFlows,
}

impl Mode {
    /// The name of a mode.
    pub open spec fn text(self) -> Seq<char> {
        match self {
            Mode::TcpThroughput => "tcp-throughput"@,
            Mode::TcpLatency => "tcp-latency"@,
            Mode::TcpConnections => "tcp-connections"@,
            Mode::TcpConnectRate => "tcp-connect-rate"@,
            Mode::UdpThroughput => "udp-throughput"@,
            Mode::UdpLatency => "udp-latency"@,
            Mode::UdpFlows => "udp-flows"@,
        }
    }

    /// The name of a mode.
    pub fn name(self) -> (r: &'static str)
        ensures
            r@ == self.text(),
    {
        match self {
            Mode::TcpThroughput => "tcp-throughput",
            Mode::TcpLatency => "tcp-latency",
            Mode::TcpConnections => "tcp-connections",
            Mode::TcpConnectRate => "tcp-connect-rate",
            Mode::UdpThroughput => "udp-throughput",
            Mode::UdpLatency => "udp-latency",
            Mode::UdpFlows => "udp-flows",
        }
    }

    /// Whether a mode holds connections rather than running operations.
    pub fn holds_connections(self) -> (r: bool)
        ensures
            r == (self is TcpConnections || self is TcpConnectRate || self is UdpFlows),
    {
        match self {
            Mode::TcpConnections | Mode::TcpConnectRate | Mode::UdpFlows => true,
            _ => false,
        }
    }

    /// Whether a mode sends datagrams.
    pub fn is_udp(self) -> (r: bool)
        ensures
            r == (self is UdpThroughput || self is UdpLatency || self is UdpFlows),
    {
        match self {
            Mode::UdpThroughput | Mode::UdpLatency | Mode::UdpFlows => true,
            _ => false,
        }
    }
}

/// The arguments of a run.
#[derive(PartialEq, Eq, Debug)]
pub struct Args {
    pub mode: Mode,
    pub host: String,
    pub port: u16,
    pub duration_secs: u64,
    pub connections: usize,
    pub payload_bytes: usize,
    pub window: usize,
    pub connect_rate: usize,
    pub packets_per_second: u64,
    pub connect_timeout_ms: u64,
}

/// The largest batch in flight, in bytes.
pub const MAX_BATCH_BYTES: usize = 8_388_608;

/// The largest UDP payload, in bytes.
pub const MAX_UDP_PAYLOAD: usize = 65_507;

/// What is wrong with the arguments of a run.
pub open spec fn args_fault(a: Args) -> Option<Seq<char>> {
    if trimmed(a.host@).len() == 0 {
        Some("--host must not be empty"@)
    } else if a.duration_secs == 0 {
        Some("--duration-secs must be positive"@)
    } else if a.connections == 0 {
        Some("--connections must be positive"@)
    } else if a.payload_bytes == 0 {
        Some("--payload-bytes must be positive"@)
    } else if a.window == 0 {
        Some("--window must be positive"@)
    } else if a.connect_timeout_ms == 0 {
        Some("--connect-timeout-ms must be positive"@)
    } else if a.payload_bytes * a.window > MAX_BATCH_BYTES {
        Some("--payload-bytes multiplied by --window must not exceed 8 MiB"@)
    } else if (a.mode is UdpThroughput || a.mode is UdpLatency || a.mode is UdpFlows)
        && a.payload_bytes > MAX_UDP_PAYLOAD {
        Some("UDP payload must not exceed 65507 bytes"@)
    } else {
        None
    }
}

/// Check the arguments of a run.
pub fn validate(args: &Args) -> (r: Result<(), String>)
    ensures
        match r {
            Ok(()) => args_fault(*args) is None,
            Err(e) => args_fault(*args) == Some(e@),
        },
{
    if is_empty(trim(args.host.as_str())) {
        return Err(owned("--host must not be empty"));
    }
    if args.duration_secs == 0 {
        return Err(owned("--duration-secs must be positive"));
    }
    if args.connections == 0 {
        return Err(owned("--connections must be positive"));
    }
    if args.payload_bytes == 0 {
        return Err(owned("--payload-bytes must be positive"));
    }
    if args.window == 0 {
        return Err(owned("--window must be positive"));
    }
    if args.connect_timeout_ms == 0 {
        return Err(owned("--connect-timeout-ms must be positive"));
    }
    let too_big = match args.payload_bytes.checked_mul(args.window) {
        Some(size) => size > MAX_BATCH_BYTES,
        None => true,
    };
    if too_big {
        return Err(owned("--payload-bytes multiplied by --window must not exceed 8 MiB"));
    }
    if args.mode.is_udp() && args.payload_bytes > MAX_UDP_PAYLOAD {
        return Err(owned("UDP payload must not exceed 65507 bytes"));
    }
    Ok(())
}

// ---------------------------------------------------------------------------
// Latencies
// ---------------------------------------------------------------------------

/// How many latencies above the last bucket are kept.
pub const MAX_TAIL_SAMPLES: usize = 16_384;

/// How many buckets a histogram has.
pub const BUCKETS: usize = 31;

/// The upper limits of the buckets, in microseconds.
pub open spec fn limits() -> Seq<u64> {
    seq![
        1u64,
        2,
        3,
        4,
        5,
        6,
        8,
        10,
        12,
        15,
        20,
        25,
        30,
        40,
        50,
        60,
        70,
        80,
        90,
        100,
        125,
        150,
        200,
        250,
        500,
        1_000,
        2_000,
        5_000,
        10_000,
        100_000,
        u64::MAX,
    ]
}

/// The limits ascend.
proof fn lemma_limits()
    ensures
        limits().len() == BUCKETS,
        limits()[30] == u64::MAX,
        limits()[29] == 100_000,
        forall|i: int, j: int| 0 <= i < j < 31 ==> #[trigger] limits()[i] < #[trigger] limits()[j],
{
}

/// The upper limit of a bucket.
pub fn bucket_limit(i: usize) -> (r: u64)
    requires
        i < BUCKETS,
    ensures
        r == limits()[i as int],
{
    let all: [u64; 31] = [
        1,
        2,
        3,
        4,
        5,
        6,
        8,
        10,
        12,
        15,
        20,
        25,
        30,
        40,
        50,
        60,
        70,
        80,
        90,
        100,
        125,
        150,
        200,
        250,
        500,
        1_000,
        2_000,
        5_000,
        10_000,
        100_000,
        u64::MAX,
    ];
    assert(all@ =~= limits());
    all[i]
}

/// The first bucket from `i` on whose limit a latency does not pass.
pub open spec fn bucket_from(micros: u64, i: int) -> int
    decreases 31 - i,
{
    if i < 0 || i >= 30 || micros <= limits()[i] {
        i
    } else {
        bucket_from(micros, i + 1)
    }
}

fn bucket_of(micros: u64) -> (r: usize)
    ensures
        r == bucket_from(micros, 0),
        r < BUCKETS,
        micros <= limits()[r as int],
        r > 0 ==> micros > limits()[r - 1],
{
    proof {
        lemma_limits();
    }
    let mut i: usize = 0;
    while i < 30 && micros > bucket_limit(i)
        invariant
            i <= 30,
            bucket_from(micros, 0) == bucket_from(micros, i as int),
            i > 0 ==> micros > limits()[i - 1],
        decreases 30 - i,
    {
        i += 1;
    }
    i
}

/// The sum of counts.
pub open spec fn total_of(counts: Seq<u64>) -> int
    decreases counts.len(),
{
    if counts.len() == 0 {
        0
    } else {
        total_of(counts.drop_last()) + counts.last()
    }
}

/// Latencies by bucket, with the largest one and a bounded sample of those above
/// the last finite limit.
pub struct Histogram {
    pub buckets: Vec<u64>,
    pub total: u64,
    pub max_us: u64,
    pub tail_samples: Vec<u64>,
}

/// The order of numbers.
pub open spec fn ascending() -> spec_fn(u64, u64) -> bool {
    |a: u64, b: u64| a <= b
}

impl Histogram {
    /// The counts add up; the samples are of the last bucket, all of them unless
    /// they are too many; and no latency passes the largest.
    pub open spec fn wf(self) -> bool {
        &&& self.buckets@.len() == BUCKETS
        &&& total_of(self.buckets@) == self.total
        &&& self.tail_samples@.len() == (if self.buckets@[30] <= MAX_TAIL_SAMPLES {
            self.buckets@[30] as int
        } else {
            MAX_TAIL_SAMPLES as int
        })
        &&& forall|i: int|
            0 <= i < self.tail_samples@.len() ==> limits()[29] < (
            #[trigger] self.tail_samples@[i]) <= self.max_us
        &&& self.buckets@[30] > 0 ==> self.max_us > limits()[29]
    }

    /// An empty histogram.
    pub fn new() -> (r: Histogram)
        ensures
            r.wf(),
            r.total == 0,
            r.max_us == 0,
            r.buckets@ == Seq::new(31, |i: int| 0u64),
            r.tail_samples@ == Seq::<u64>::empty(),
    {
        let mut buckets: Vec<u64> = Vec::new();
        let mut i: usize = 0;
        while i < BUCKETS
            invariant
                i <= BUCKETS,
                buckets@ == Seq::new(i as nat, |j: int| 0u64),
                total_of(buckets@) == 0,
            decreases BUCKETS - i,
        {
            let ghost before = buckets@;
            buckets.push(0);
            assert(buckets@.drop_last() == before);
            i += 1;
        }
        Histogram { buckets, total: 0, max_us: 0, tail_samples: Vec::new() }
    }

    /// Whether `after` is this histogram with one more latency: one more in its
    /// bucket, the largest one as large, and a sample kept when it is above the
    /// last finite limit and there is room.
    pub open spec fn observed(self, duration: Duration, after: Histogram) -> bool {
        let micros = (duration.nanos / 1_000) as u64;
        let b = bucket_from(micros, 0);
        &&& after.total == self.total + 1
        &&& after.buckets@ == self.buckets@.update(b, (self.buckets@[b] + 1) as u64)
        &&& after.max_us == (if micros > self.max_us {
            micros
        } else {
            self.max_us
        })
        &&& after.tail_samples@ == (if b == 30 && self.tail_samples@.len() < MAX_TAIL_SAMPLES {
            self.tail_samples@.push(micros)
        } else {
            self.tail_samples@
        })
    }

    /// Count a latency.
    pub fn observe(&mut self, duration: Duration)
        requires
            old(self).wf(),
            old(self).total < u64::MAX,
        ensures
            final(self).wf(),
            old(self).observed(duration, *final(self)),
    {
        let micros: u64 = duration.as_micros();
        let b: usize = bucket_of(micros);
        proof {
            lemma_limits();
            lemma_part(self.buckets@, b as int);
            lemma_update(self.buckets@, b as int, (self.buckets@[b as int] + 1) as u64);
        }
        let count: u64 = self.buckets[b];
        self.buckets.set(b, count + 1);
        self.total = self.total + 1;
        if micros > self.max_us {
            self.max_us = micros;
        }
        if b == 30 && self.tail_samples.len() < MAX_TAIL_SAMPLES {
            self.tail_samples.push(micros);
        }
    }

    /// Whether `after` holds the latencies of this histogram and another: the
    /// counts added, the larger maximum, and the samples of both as far as there
    /// is room.
    pub open spec fn merged(self, other: Histogram, after: Histogram) -> bool {
        let samples = self.tail_samples@ + other.tail_samples@;
        &&& after.total == self.total + other.total
        &&& after.max_us == (if other.max_us > self.max_us {
            other.max_us
        } else {
            self.max_us
        })
        &&& after.buckets@ == Seq::new(
            31,
            |i: int| (self.buckets@[i] + other.buckets@[i]) as u64,
        )
        &&& after.tail_samples@ == samples.take(
            if samples.len() < MAX_TAIL_SAMPLES {
                samples.len() as int
            } else {
                MAX_TAIL_SAMPLES as int
            },
        )
    }

    /// Add the latencies of another histogram.
    pub fn merge(&mut self, other: &Histogram)
        requires
            old(self).wf(),
            other.wf(),
            old(self).total + other.total <= u64::MAX,
        ensures
            final(self).wf(),
            old(self).merged(*other, *final(self)),
    {
        let ghost mine = self.buckets@;
        let ghost theirs = other.buckets@;
        let ghost both = Seq::new(31, |i: int| (mine[i] + theirs[i]) as u64);
        proof {
            assert forall|i: int| 0 <= i < 31 implies mine[i] + theirs[i] <= u64::MAX by {
                lemma_part(mine, i);
                lemma_part(theirs, i);
            }
            lemma_sum(mine, theirs, both);
        }
        let mut i: usize = 0;
        while i < BUCKETS
            invariant
                i <= BUCKETS,
                mine.len() == 31,
                theirs == other.buckets@,
                theirs.len() == 31,
                both == Seq::new(31, |k: int| (mine[k] + theirs[k]) as u64),
                forall|k: int| 0 <= k < 31 ==> #[trigger] mine[k] + theirs[k] <= u64::MAX,
                self.buckets@ == both.take(i as int) + mine.skip(i as int),
                self.total == old(self).total,
                self.max_us == old(self).max_us,
                self.tail_samples == old(self).tail_samples,
            decreases BUCKETS - i,
        {
            assert(self.buckets@[i as int] == mine[i as int]);
            assert(mine[i as int] + theirs[i as int] <= u64::MAX);
            let sum: u64 = self.buckets[i] + other.buckets[i];
            self.buckets.set(i, sum);
            i += 1;
            assert(self.buckets@ == both.take(i as int) + mine.skip(i as int));
        }
        assert(self.buckets@ == both);
        self.total = self.total + other.total;
        if other.max_us > self.max_us {
            self.max_us = other.max_us;
        }
        let ghost tail = self.tail_samples@;
        let ghost more = other.tail_samples@;
        let mut k: usize = 0;
        while k < other.tail_samples.len() && self.tail_samples.len() < MAX_TAIL_SAMPLES
            invariant
                k <= other.tail_samples@.len(),
                more == other.tail_samples@,
                tail.len() <= MAX_TAIL_SAMPLES,
                tail.len() + k <= MAX_TAIL_SAMPLES,
                self.tail_samples@ == tail + more.take(k as int),
                self.buckets@ == both,
                self.total == old(self).total + other.total,
                self.max_us == (if other.max_us > old(self).max_us {
                    other.max_us
                } else {
                    old(self).max_us
                }),
            decreases other.tail_samples@.len() - k,
        {
            self.tail_samples.push(other.tail_samples[k]);
            k += 1;
            assert(more.take(k as int) == more.take(k - 1).push(more[k - 1]));
        }
        proof {
            lemma_limits();
            assert(self.tail_samples@ == (tail + more).take(tail.len() + k));
            lemma_part(mine, 30);
            lemma_part(theirs, 30);
            assert(both[30] == mine[30] + theirs[30]);
        }
    }

    /// The latency of a rank, counted from one: the limit of its bucket, and in
    /// the last bucket the sample of that rank, when all were kept, or the
    /// largest latency.
    pub open spec fn ranked(self, rank: u64) -> Option<u64> {
        if self.total == 0 {
            None
        } else {
            let b = bucket_at(self.buckets@, rank, 0, 0);
            if b < 30 {
                Some(limits()[b])
            } else if b == 30 && self.buckets@[30] <= self.tail_samples@.len() {
                let before = total_of(self.buckets@.take(30));
                let k = if rank > before {
                    rank - before
                } else {
                    1
                };
                if k <= self.tail_samples@.len() {
                    Some(self.tail_samples@.sort_by(ascending())[k - 1])
                } else {
                    Some(self.max_us)
                }
            } else {
                Some(self.max_us)
            }
        }
    }

    /// The latency of a rank, counted from one.
    pub fn at_rank(&self, rank: u64) -> (r: Option<u64>)
        requires
            self.wf(),
        ensures
            r == self.ranked(rank),
    {
        if self.total == 0 {
            return None;
        }
        let mut seen: u64 = 0;
        let mut i: usize = 0;
        assert(self.buckets@.take(0) == Seq::<u64>::empty());
        while i < BUCKETS
            invariant
                self.wf(),
                self.total > 0,
                i <= BUCKETS,
                seen == total_of(self.buckets@.take(i as int)),
                bucket_at(self.buckets@, rank, 0, 0) == bucket_at(
                    self.buckets@,
                    rank,
                    i as int,
                    seen as int,
                ),
            decreases BUCKETS - i,
        {
            let count: u64 = self.buckets[i];
            proof {
                let next = self.buckets@.take(i + 1);
                assert(next.drop_last() == self.buckets@.take(i as int));
                assert(next.last() == count);
                lemma_prefix(self.buckets@, i + 1);
            }
            if seen + count >= rank {
                if i != 30 {
                    return Some(bucket_limit(i));
                }
                if count <= self.tail_samples.len() as u64 {
                    let k: u64 = if rank > seen {
                        rank - seen
                    } else {
                        1
                    };
                    if k <= self.tail_samples.len() as u64 {
                        let sorted = sorted_copy(&self.tail_samples);
                        return Some(sorted[(k - 1) as usize]);
                    }
                }
                return Some(self.max_us);
            }
            seen = seen + count;
            i += 1;
        }
        Some(self.max_us)
    }
}

/// The first bucket from `i` on at which `rank` latencies have been seen, when
/// `seen` were seen before it; the number of buckets when there is none.
pub open spec fn bucket_at(buckets: Seq<u64>, rank: u64, i: int, seen: int) -> int
    decreases buckets.len() - i,
{
    if i < 0 || i >= buckets.len() {
        i
    } else if seen + buckets[i] >= rank {
        i
    } else {
        bucket_at(buckets, rank, i + 1, seen + buckets[i])
    }
}

proof fn lemma_part(counts: Seq<u64>, i: int)
    requires
        0 <= i < counts.len(),
    ensures
        0 <= counts[i] <= total_of(counts),
    decreases counts.len(),
{
    lemma_positive(counts.drop_last());
    if i < counts.len() - 1 {
        lemma_part(counts.drop_last(), i);
    }
}

proof fn lemma_positive(counts: Seq<u64>)
    ensures
        total_of(counts) >= 0,
    decreases counts.len(),
{
    if counts.len() > 0 {
        lemma_positive(counts.drop_last());
    }
}

proof fn lemma_update(counts: Seq<u64>, i: int, v: u64)
    requires
        0 <= i < counts.len(),
    ensures
        total_of(counts.update(i, v)) == total_of(counts) - counts[i] + v,
    decreases counts.len(),
{
    let after = counts.update(i, v);
    if i == counts.len() - 1 {
        assert(after.drop_last() == counts.drop_last());
    } else {
        assert(after.drop_last() == counts.drop_last().update(i, v));
        lemma_update(counts.drop_last(), i, v);
    }
}

proof fn lemma_sum(a: Seq<u64>, b: Seq<u64>, c: Seq<u64>)
    requires
        a.len() == b.len() == c.len(),
        forall|i: int| 0 <= i < a.len() ==> #[trigger] c[i] == a[i] + b[i],
    ensures
        total_of(c) == total_of(a) + total_of(b),
    decreases a.len(),
{
    if a.len() > 0 {
        lemma_sum(a.drop_last(), b.drop_last(), c.drop_last());
    }
}

proof fn lemma_prefix(counts: Seq<u64>, n: int)
    requires
        0 <= n <= counts.len(),
    ensures
        0 <= total_of(counts.take(n)) <= total_of(counts),
    decreases counts.len(),
{
    lemma_positive(counts.take(n));
    if n == counts.len() {
        assert(counts.take(n) == counts);
    } else {
        assert(counts.take(n) == counts.drop_last().take(n));
        lemma_prefix(counts.drop_last(), n);
    }
}

/// A copy of numbers, in ascending order.
fn sorted_copy(v: &Vec<u64>) -> (r: Vec<u64>)
    ensures
        r@ == v@.sort_by(ascending()),
        r@.len() == v@.len(),
{
    let mut out: Vec<u64> = Vec::new();
    let mut i: usize = 0;
    assert(v@.take(0) == Seq::<u64>::empty());
    while i < v.len()
        invariant
            i <= v@.len(),
            out@.len() == i,
            sorted_by(out@, ascending()),
            out@.to_multiset() == v@.take(i as int).to_multiset(),
        decreases v@.len() - i,
    {
        let x: u64 = v[i];
        let mut at: usize = out.len();
        while at > 0 && out[at - 1] > x
            invariant
                at <= out@.len(),
                sorted_by(out@, ascending()),
                forall|j: int| at <= j < out@.len() ==> (#[trigger] out@[j]) > x,
            decreases at,
        {
            at -= 1;
        }
        let ghost before = out@;
        out.insert(at, x);
        proof {
            lemma_insert_sorted(before, at as int, x);
            to_multiset_insert(before, at as int, x);
            to_multiset_build(v@.take(i as int), x);
            assert(v@.take(i + 1) == v@.take(i as int).push(x));
        }
        i += 1;
    }
    proof {
        assert(v@.take(i as int) == v@);
        assert(total_ordering(ascending()));
        v@.lemma_sort_by_ensures(ascending());
        lemma_sorted_unique(out@, v@.sort_by(ascending()), ascending());
    }
    out
}

proof fn lemma_insert_sorted(s: Seq<u64>, at: int, x: u64)
    requires
        0 <= at <= s.len(),
        sorted_by(s, ascending()),
        forall|j: int| at <= j < s.len() ==> (#[trigger] s[j]) > x,
        at > 0 ==> s[at - 1] <= x,
    ensures
        sorted_by(s.insert(at, x), ascending()),
{
    let t = s.insert(at, x);
    let le = ascending();
    assert forall|i: int, j: int| 0 <= i < j < t.len() implies #[trigger] le(t[i], t[j]) by {
        if i < at && j == at {
            if i < at - 1 {
                assert(le(s[i], s[at - 1]));
            }
        } else if i < at && j > at {
            assert(le(s[i], s[j - 1]));
        } else if i == at {
            assert(s[j - 1] > x);
        } else if i > at {
            assert(le(s[i - 1], s[j - 1]));
        } else {
            assert(le(s[i], s[j]));
        }
    }
}

/// Ranks and latencies go together: a higher rank never has a lower latency.
pub proof fn ranks_are_monotonic(h: Histogram, low: u64, high: u64)
    requires
        h.wf(),
        low <= high <= h.total,
        h.total > 0,
    ensures
        h.ranked(low) matches Some(a) && h.ranked(high) matches Some(b) && a <= b,
{
    lemma_limits();
    let a = bucket_at(h.buckets@, low, 0, 0);
    let b = bucket_at(h.buckets@, high, 0, 0);
    lemma_bucket_at(h.buckets@, low, high, 0, 0);
    assert(h.buckets@.take(0) == Seq::<u64>::empty());
    lemma_bucket_holds(h.buckets@, high, 0);
    if b < 30 {
        if a < b {
            assert(limits()[a] < limits()[b]);
        }
    } else if b == 30 && h.buckets@[30] <= h.tail_samples@.len() {
        let tail = h.tail_samples@;
        let le = ascending();
        assert(total_ordering(le));
        tail.lemma_sort_by_ensures(le);
        let sorted = tail.sort_by(le);
        lemma_sorted_samples(h, sorted);
        let before = total_of(h.buckets@.take(30));
        let k = if high > before {
            high - before
        } else {
            1
        };
        if k <= tail.len() {
            assert(sorted[k - 1] > limits()[29]);
            if a < 30 {
                assert(limits()[a] <= limits()[29]);
            } else {
                let j = if low > before {
                    low - before
                } else {
                    1
                };
                if j < k {
                    assert(le(sorted[j - 1], sorted[k - 1]));
                }
            }
        }
    }
}

proof fn lemma_bucket_holds(buckets: Seq<u64>, rank: u64, i: int)
    requires
        0 <= i <= buckets.len(),
        rank <= total_of(buckets),
        total_of(buckets.take(i)) < rank || i == 0,
    ensures
        ({
            let b = bucket_at(buckets, rank, i, total_of(buckets.take(i)));
            &&& buckets.len() > 0 ==> b < buckets.len()
            &&& b < buckets.len() && rank > 0 ==> total_of(buckets.take(b)) < rank
                <= total_of(buckets.take(b + 1)) && buckets[b] > 0
        }),
    decreases buckets.len() - i,
{
    if i < buckets.len() {
        assert(buckets.take(i + 1).drop_last() == buckets.take(i));
        assert(buckets.take(0) == Seq::<u64>::empty());
        if total_of(buckets.take(i)) + buckets[i] < rank {
            lemma_bucket_holds(buckets, rank, i + 1);
        }
    } else {
        assert(buckets.take(i) == buckets);
    }
}

proof fn lemma_sorted_samples(h: Histogram, sorted: Seq<u64>)
    requires
        h.wf(),
        h.tail_samples@.to_multiset() == sorted.to_multiset(),
    ensures
        sorted.len() == h.tail_samples@.len(),
        forall|i: int| 0 <= i < sorted.len() ==> limits()[29] < (#[trigger] sorted[i]) <= h.max_us,
{
    broadcast use vstd::seq_lib::group_to_multiset_ensures;

    let tail = h.tail_samples@;
    assert(tail.to_multiset().len() == sorted.to_multiset().len());
    assert forall|i: int| 0 <= i < sorted.len() implies limits()[29] < (#[trigger] sorted[i])
        <= h.max_us by {
        assert(sorted.contains(sorted[i]));
        assert(sorted.to_multiset().count(sorted[i]) > 0);
        assert(tail.contains(sorted[i]));
    }
}

proof fn lemma_bucket_at(buckets: Seq<u64>, low: u64, high: u64, i: int, seen: int)
    requires
        low <= high,
        0 <= i <= buckets.len(),
    ensures
        i <= bucket_at(buckets, low, i, seen) <= bucket_at(buckets, high, i, seen)
            <= buckets.len(),
    decreases buckets.len() - i,
{
    if i < buckets.len() {
        if seen + buckets[i] < low {
            lemma_bucket_at(buckets, low, high, i + 1, seen + buckets[i]);
        } else if seen + buckets[i] < high {
            lemma_bucket_at(buckets, high, high, i + 1, seen + buckets[i]);
        }
    }
}

// ---------------------------------------------------------------------------
// Counts
// ---------------------------------------------------------------------------

/// What a run counts.
pub struct Stats {
    pub sent_bytes: u64,
    pub received_bytes: u64,
    pub sent_packets: u64,
    pub received_packets: u64,
    pub completed_operations: u64,
    pub successful_connections: u64,
    pub failed_connections: u64,
    pub errors: u64,
    pub latency: Histogram,
    pub connect_latency: Histogram,
}

impl Stats {
    /// The histograms are well formed.
    pub open spec fn wf(self) -> bool {
        self.latency.wf() && self.connect_latency.wf()
    }

    /// Whether every count of two runs together still fits.
    pub open spec fn fits_with(self, other: Stats) -> bool {
        &&& self.sent_bytes + other.sent_bytes <= u64::MAX
        &&& self.received_bytes + other.received_bytes <= u64::MAX
        &&& self.sent_packets + other.sent_packets <= u64::MAX
        &&& self.received_packets + other.received_packets <= u64::MAX
        &&& self.completed_operations + other.completed_operations <= u64::MAX
        &&& self.successful_connections + other.successful_connections <= u64::MAX
        &&& self.failed_connections + other.failed_connections <= u64::MAX
        &&& self.errors + other.errors <= u64::MAX
        &&& self.latency.total + other.latency.total <= u64::MAX
        &&& self.connect_latency.total + other.connect_latency.total <= u64::MAX
    }

    /// Nothing counted yet.
    pub fn new() -> (r: Stats)
        ensures
            r.wf(),
            r.sent_bytes == 0,
            r.received_bytes == 0,
            r.sent_packets == 0,
            r.received_packets == 0,
            r.completed_operations == 0,
            r.successful_connections == 0,
            r.failed_connections == 0,
            r.errors == 0,
            r.latency.total == 0,
            r.connect_latency.total == 0,
    {
        Stats {
            sent_bytes: 0,
            received_bytes: 0,
            sent_packets: 0,
            received_packets: 0,
            completed_operations: 0,
            successful_connections: 0,
            failed_connections: 0,
            errors: 0,
            latency: Histogram::new(),
            connect_latency: Histogram::new(),
        }
    }

    /// Add the counts of another run.
    pub fn merge(&mut self, other: &Stats)
        requires
            old(self).wf(),
            other.wf(),
            old(self).fits_with(*other),
        ensures
            final(self).wf(),
            final(self).sent_bytes == old(self).sent_bytes + other.sent_bytes,
            final(self).received_bytes == old(self).received_bytes + other.received_bytes,
            final(self).sent_packets == old(self).sent_packets + other.sent_packets,
            final(self).received_packets == old(self).received_packets + other.received_packets,
            final(self).completed_operations == old(self).completed_operations
                + other.completed_operations,
            final(self).successful_connections == old(self).successful_connections
                + other.successful_connections,
            final(self).failed_connections == old(self).failed_connections
                + other.failed_connections,
            final(self).errors == old(self).errors + other.errors,
            old(self).latency.merged(other.latency, final(self).latency),
            old(self).connect_latency.merged(other.connect_latency, final(self).connect_latency),
    {
        self.sent_bytes = self.sent_bytes + other.sent_bytes;
        self.received_bytes = self.received_bytes + other.received_bytes;
        self.sent_packets = self.sent_packets + other.sent_packets;
        self.received_packets = self.received_packets + other.received_packets;
        self.completed_operations = self.completed_operations + other.completed_operations;
        self.successful_connections = self.successful_connections + other.successful_connections;
        self.failed_connections = self.failed_connections + other.failed_connections;
        self.errors = self.errors + other.errors;
        self.latency.merge(&other.latency);
        self.connect_latency.merge(&other.connect_latency);
    }

    /// Whether a run did no work at all, which is an error.
    pub fn is_fruitless(&self) -> (r: bool)
        ensures
            r == (self.successful_connections == 0 && self.completed_operations == 0
                && self.received_packets == 0),
    {
        self.successful_connections == 0 && self.completed_operations == 0 && self.received_packets
            == 0
    }
}

/// The message for a run that did no work.
pub fn fruitless_message(mode: Mode) -> (r: String)
    ensures
        r@ == mode.text() + " produced no successful work"@,
{
    cat2(mode.name(), " produced no successful work")
}

/// How a round trip over TCP ended.
#[derive(Clone, Copy, PartialEq, Eq, Structural, Debug)]
pub enum EchoEvent {
    /// The batch could not be written.
    WriteFailed,
    /// The batch was written, and no full answer came.
    ReadFailed,
    /// The batch came back.
    Echoed,
}

/// Whether the counts still fit after a round trip of `window` operations and
/// `bytes` bytes.
pub open spec fn room_for(s: Stats, bytes: u64, window: u64) -> bool {
    &&& s.sent_bytes + bytes <= u64::MAX
    &&& s.received_bytes + bytes <= u64::MAX
    &&& s.sent_packets + window <= u64::MAX
    &&& s.received_packets + window <= u64::MAX
    &&& s.completed_operations + window <= u64::MAX
    &&& s.errors + window <= u64::MAX
    &&& s.latency.total < u64::MAX
}

impl Stats {
    /// Count a round trip over TCP. Gives whether the worker goes on.
    pub fn count_echo(&mut self, event: EchoEvent, bytes: u64, window: u64, elapsed: Duration)
        -> (r: bool)
        requires
            old(self).wf(),
            room_for(*old(self), bytes, window),
        ensures
            final(self).wf(),
            r == (event == EchoEvent::Echoed),
            ({
                let sent = event != EchoEvent::WriteFailed;
                let back = event == EchoEvent::Echoed;
                &&& final(self).sent_bytes == old(self).sent_bytes + (if sent {
                    bytes as int
                } else {
                    0
                })
                &&& final(self).sent_packets == old(self).sent_packets + (if sent {
                    window as int
                } else {
                    0
                })
                &&& final(self).received_bytes == old(self).received_bytes + (if back {
                    bytes as int
                } else {
                    0
                })
                &&& final(self).received_packets == old(self).received_packets + (if back {
                    window as int
                } else {
                    0
                })
                &&& final(self).completed_operations == old(self).completed_operations + (
                if back {
                    window as int
                } else {
                    0
                })
                &&& final(self).errors == old(self).errors + (if back {
                    0
                } else {
                    window as int
                })
                &&& if sent {
                    old(self).latency.observed(elapsed, final(self).latency)
                } else {
                    final(self).latency == old(self).latency
                }
            }),
            final(self).successful_connections == old(self).successful_connections,
            final(self).failed_connections == old(self).failed_connections,
            final(self).connect_latency == old(self).connect_latency,
    {
        match event {
            EchoEvent::WriteFailed => {
                self.errors = self.errors + window;
                false
            },
            EchoEvent::ReadFailed => {
                self.sent_bytes = self.sent_bytes + bytes;
                self.sent_packets = self.sent_packets + window;
                self.errors = self.errors + window;
                self.latency.observe(elapsed);
                false
            },
            EchoEvent::Echoed => {
                self.sent_bytes = self.sent_bytes + bytes;
                self.sent_packets = self.sent_packets + window;
                self.received_bytes = self.received_bytes + bytes;
                self.received_packets = self.received_packets + window;
                self.completed_operations = self.completed_operations + window;
                self.latency.observe(elapsed);
                true
            },
        }
    }

    /// Count a connection that was made, or one that failed.
    pub fn count_connection(&mut self, latency: Option<Duration>)
        requires
            old(self).wf(),
            old(self).successful_connections < u64::MAX,
            old(self).failed_connections < u64::MAX,
            old(self).errors < u64::MAX,
            old(self).connect_latency.total < u64::MAX,
        ensures
            final(self).wf(),
            final(self).successful_connections == old(self).successful_connections + (
            if latency is Some {
                1int
            } else {
                0
            }),
            final(self).failed_connections == old(self).failed_connections + (if latency is Some {
                0int
            } else {
                1
            }),
            final(self).errors == old(self).errors + (if latency is Some {
                0int
            } else {
                1
            }),
            match latency {
                Some(d) => old(self).connect_latency.observed(d, final(self).connect_latency),
                None => final(self).connect_latency == old(self).connect_latency,
            },
            final(self).latency == old(self).latency,
            final(self).completed_operations == old(self).completed_operations,
            final(self).sent_bytes == old(self).sent_bytes,
            final(self).received_bytes == old(self).received_bytes,
            final(self).sent_packets == old(self).sent_packets,
            final(self).received_packets == old(self).received_packets,
    {
        match latency {
            Some(d) => {
                self.successful_connections = self.successful_connections + 1;
                self.connect_latency.observe(d);
            },
            None => {
                self.failed_connections = self.failed_connections + 1;
                self.errors = self.errors + 1;
            },
        }
    }
}

/// How a probe by one datagram ended.
#[derive(Clone, Copy, PartialEq, Eq, Structural, Debug)]
pub enum ProbeEvent {
    /// The datagram could not be sent.
    SendFailed,
    /// The datagram was sent, and no answer came.
    NoReply,
    /// An answer of this many bytes came.
    Reply(usize),
}

/// What the receiver of a flood of datagrams met.
#[derive(Clone, Copy, PartialEq, Eq, Structural, Debug)]
pub enum ReceiveEvent {
    /// A datagram of this many bytes.
    Got(usize),
    Failed,
    /// Nothing for a while.
    Silent,
}

impl Stats {
    /// Whether nothing but datagram counts, errors and completed operations
    /// differs.
    pub open spec fn same_connections(self, after: Stats) -> bool {
        &&& after.successful_connections == self.successful_connections
        &&& after.failed_connections == self.failed_connections
        &&& after.connect_latency == self.connect_latency
    }

    /// Count a probe by one datagram of `bytes` bytes. Gives whether to go on: an
    /// answer that does not come is an error, and only a datagram that cannot be
    /// sent ends the run.
    pub fn count_probe(&mut self, event: ProbeEvent, bytes: u64, elapsed: Duration) -> (r: bool)
        requires
            old(self).wf(),
            room_for(*old(self), bytes, 1),
            event matches ProbeEvent::Reply(n) ==> old(self).received_bytes + n <= u64::MAX,
        ensures
            final(self).wf(),
            r == (event != ProbeEvent::SendFailed),
            final(self).sent_packets == old(self).sent_packets + 1,
            final(self).sent_bytes == old(self).sent_bytes + (if r {
                bytes as int
            } else {
                0
            }),
            final(self).received_bytes == old(self).received_bytes + (match event {
                ProbeEvent::Reply(n) => n as int,
                _ => 0,
            }),
            final(self).received_packets == old(self).received_packets + (if event is Reply {
                1int
            } else {
                0
            }),
            final(self).completed_operations == old(self).completed_operations + (
            if event is Reply {
                1int
            } else {
                0
            }),
            final(self).errors == old(self).errors + (if event is Reply {
                0int
            } else {
                1
            }),
            old(self).latency.observed(elapsed, final(self).latency),
            old(self).same_connections(*final(self)),
    {
        self.sent_packets = self.sent_packets + 1;
        self.latency.observe(elapsed);
        match event {
            ProbeEvent::SendFailed => {
                self.errors = self.errors + 1;
                false
            },
            ProbeEvent::NoReply => {
                self.sent_bytes = self.sent_bytes + bytes;
                self.errors = self.errors + 1;
                true
            },
            ProbeEvent::Reply(n) => {
                self.sent_bytes = self.sent_bytes + bytes;
                self.received_bytes = self.received_bytes + n as u64;
                self.received_packets = self.received_packets + 1;
                self.completed_operations = self.completed_operations + 1;
                true
            },
        }
    }

    /// Count a datagram of a flood: sent with this many bytes, or not sent. Gives
    /// whether to go on.
    pub fn count_send(&mut self, sent: Option<usize>) -> (r: bool)
        requires
            old(self).wf(),
            old(self).sent_packets < u64::MAX,
            old(self).errors < u64::MAX,
            sent matches Some(n) ==> old(self).sent_bytes + n <= u64::MAX,
        ensures
            final(self).wf(),
            r == sent is Some,
            final(self).sent_packets == old(self).sent_packets + 1,
            final(self).sent_bytes == old(self).sent_bytes + (match sent {
                Some(n) => n as int,
                None => 0,
            }),
            final(self).errors == old(self).errors + (if sent is Some {
                0int
            } else {
                1
            }),
            final(self).received_bytes == old(self).received_bytes,
            final(self).received_packets == old(self).received_packets,
            final(self).completed_operations == old(self).completed_operations,
            final(self).latency == old(self).latency,
            old(self).same_connections(*final(self)),
    {
        self.sent_packets = self.sent_packets + 1;
        match sent {
            Some(n) => {
                self.sent_bytes = self.sent_bytes + n as u64;
                true
            },
            None => {
                self.errors = self.errors + 1;
                false
            },
        }
    }

    /// Count what the receiver of a flood met. Gives whether to go on: after the
    /// sender has stopped, silence ends the run.
    pub fn count_receive(&mut self, event: ReceiveEvent, sender_stopped: bool) -> (r: bool)
        requires
            old(self).wf(),
            old(self).received_packets < u64::MAX,
            old(self).errors < u64::MAX,
            event matches ReceiveEvent::Got(n) ==> old(self).received_bytes + n <= u64::MAX,
        ensures
            final(self).wf(),
            r == match event {
                ReceiveEvent::Got(_) => true,
                ReceiveEvent::Failed => false,
                ReceiveEvent::Silent => !sender_stopped,
            },
            final(self).received_bytes == old(self).received_bytes + (match event {
                ReceiveEvent::Got(n) => n as int,
                _ => 0,
            }),
            final(self).received_packets == old(self).received_packets + (if event is Got {
                1int
            } else {
                0
            }),
            final(self).errors == old(self).errors + (if event is Failed {
                1int
            } else {
                0
            }),
            final(self).sent_bytes == old(self).sent_bytes,
            final(self).sent_packets == old(self).sent_packets,
            final(self).completed_operations == old(self).completed_operations,
            final(self).latency == old(self).latency,
            old(self).same_connections(*final(self)),
    {
        match event {
            ReceiveEvent::Got(n) => {
                self.received_bytes = self.received_bytes + n as u64;
                self.received_packets = self.received_packets + 1;
                true
            },
            ReceiveEvent::Failed => {
                self.errors = self.errors + 1;
                false
            },
            ReceiveEvent::Silent => !sender_stopped,
        }
    }

    /// Close the counts of a flood: every answer is a completed operation, over
    /// one connection.
    pub fn close_flood(&mut self)
        requires
            old(self).wf(),
        ensures
            final(self).wf(),
            final(self).completed_operations == old(self).received_packets,
            final(self).successful_connections == 1,
            final(self).sent_bytes == old(self).sent_bytes,
            final(self).received_bytes == old(self).received_bytes,
            final(self).sent_packets == old(self).sent_packets,
            final(self).received_packets == old(self).received_packets,
            final(self).failed_connections == old(self).failed_connections,
            final(self).errors == old(self).errors,
            final(self).latency == old(self).latency,
            final(self).connect_latency == old(self).connect_latency,
    {
        self.completed_operations = self.received_packets;
        self.successful_connections = 1;
    }

    /// What a mode attempts, and how much of it was done: connections where they
    /// are held, answers to datagrams, or operations, of which each error is one.
    pub open spec fn attempted(self, mode: Mode, connections: usize) -> (int, int) {
        if mode is TcpConnections || mode is TcpConnectRate || mode is UdpFlows {
            (self.successful_connections as int, connections as int)
        } else if mode is UdpThroughput || mode is UdpLatency {
            (self.received_packets as int, self.sent_packets as int)
        } else {
            (
                self.completed_operations as int,
                if self.completed_operations + self.errors <= u64::MAX {
                    self.completed_operations + self.errors
                } else {
                    u64::MAX as int
                },
            )
        }
    }

    /// The success of a run as a fraction: what was done, of what was attempted,
    /// and never more than that.
    pub fn success(&self, mode: Mode, connections: usize) -> (r: (u64, u64))
        ensures
            r.1 == self.attempted(mode, connections).1,
            r.0 == (if self.attempted(mode, connections).0 <= r.1 {
                self.attempted(mode, connections).0
            } else {
                r.1 as int
            }),
    {
        let (done, of): (u64, u64) = if mode.holds_connections() {
            (self.successful_connections, connections as u64)
        } else if mode.is_udp() {
            (self.received_packets, self.sent_packets)
        } else {
            (self.completed_operations, self.completed_operations.saturating_add(self.errors))
        };
        if done <= of {
            (done, of)
        } else {
            (of, of)
        }
    }
}

// ---------------------------------------------------------------------------
// Pace
// ---------------------------------------------------------------------------

/// How many connections are opened at once: a tenth of the rate per second, or
/// all of them without a rate.
pub open spec fn batch(connections: usize, connect_rate: usize) -> int {
    if connect_rate == 0 {
        connections as int
    } else if connect_rate / 10 >= 1 {
        (connect_rate / 10) as int
    } else {
        1
    }
}

/// The size of the next batch of connections, when `done` of them were opened,
/// and whether to pause after it.
pub fn next_batch(connections: usize, connect_rate: usize, done: usize) -> (r: (usize, bool))
    requires
        done < connections,
    ensures
        r.0 == (if connections - done < batch(connections, connect_rate) {
            connections - done
        } else {
            batch(connections, connect_rate)
        }),
        0 < r.0 <= connections - done,
        r.1 == (connect_rate > 0 && done + r.0 < connections),
{
    let size: usize = if connect_rate == 0 {
        connections
    } else if connect_rate / 10 >= 1 {
        connect_rate / 10
    } else {
        1
    };
    let count: usize = if connections - done < size {
        connections - done
    } else {
        size
    };
    (count, connect_rate > 0 && count < connections - done)
}

/// How many datagrams are sent in one burst: a hundredth of the rate per second,
/// from one to 256, or one without a rate.
pub fn burst_size(packets_per_second: u64) -> (r: u64)
    ensures
        r == if packets_per_second / 100 < 1 {
            1
        } else if packets_per_second / 100 > 256 {
            256
        } else {
            packets_per_second / 100
        },
{
    let n: u64 = packets_per_second / 100;
    if n < 1 {
        1
    } else if n > 256 {
        256
    } else {
        n
    }
}

/// When the next burst is due, in nanoseconds: one interval after the last one,
/// and not in the past, so that a sender that fell behind does not catch up.
pub fn next_burst(last: u64, interval: u64, now: u64) -> (r: u64)
    requires
        last + interval <= u64::MAX,
    ensures
        r == if last + interval < now {
            now as int
        } else {
            last + interval
        },
{
    let next: u64 = last + interval;
    if next < now {
        now
    } else {
        next
    }
}

/// A latency is counted in the bucket with the least limit that is not below it.
pub proof fn latencies_fall_into_their_bucket(
    h: Histogram,
    duration: Duration,
    after: Histogram,
    micros: int,
    b: int,
)
    requires
        h.wf(),
        h.observed(duration, after),
        micros == duration.nanos / 1_000,
        0 <= b < 31,
        micros <= limits()[b],
        forall|j: int| 0 <= j < b ==> (#[trigger] limits()[j]) < micros,
    ensures
        after.buckets@ == h.buckets@.update(b, (h.buckets@[b] + 1) as u64),
        after.total == h.total + 1,
        after.max_us >= micros,
        after.max_us == micros || after.max_us == h.max_us,
{
    lemma_bucket_is(duration.nanos / 1_000, 0, b);
}

proof fn lemma_bucket_is(micros: u64, i: int, b: int)
    requires
        0 <= i <= b < 31,
        micros <= limits()[b],
        forall|j: int| i <= j < b ==> (#[trigger] limits()[j]) < micros,
    ensures
        bucket_from(micros, i) == b,
    decreases b - i,
{
    if i < b {
        assert(limits()[i] < micros);
        lemma_bucket_is(micros, i + 1, b);
    }
}

/// The latency at a rank is the limit of the bucket that the rank falls into: fewer
/// samples stand in the buckets before it, and as many or more up to it.
pub proof fn ranks_fall_into_their_bucket(h: Histogram, rank: u64, b: int)
    requires
        h.wf(),
        h.total > 0,
        rank > 0,
        0 <= b < 30,
        total_of(h.buckets@.take(b)) < rank <= total_of(h.buckets@.take(b + 1)),
    ensures
        h.ranked(rank) == Some(limits()[b]),
{
    assert(h.buckets@.take(0) == Seq::<u64>::empty());
    lemma_rank_in(h.buckets@, rank, 0, b);
}

proof fn lemma_rank_in(buckets: Seq<u64>, rank: u64, i: int, b: int)
    requires
        0 <= i <= b < buckets.len(),
        total_of(buckets.take(b)) < rank <= total_of(buckets.take(b + 1)),
    ensures
        bucket_at(buckets, rank, i, total_of(buckets.take(i))) == b,
    decreases b - i,
{
    let next = buckets.take(i + 1);
    assert(next.drop_last() == buckets.take(i));
    assert(next.last() == buckets[i]);
    assert(total_of(next) == total_of(buckets.take(i)) + buckets[i]);
    if i < b {
        lemma_take_grows(buckets, i + 1, b);
        lemma_rank_in(buckets, rank, i + 1, b);
    }
}

proof fn lemma_take_grows(buckets: Seq<u64>, i: int, j: int)
    requires
        0 <= i <= j <= buckets.len(),
    ensures
        total_of(buckets.take(i)) <= total_of(buckets.take(j)),
    decreases j - i,
{
    if i < j {
        let last = buckets.take(j);
        assert(last.drop_last() == buckets.take(j - 1));
        lemma_take_grows(buckets, i, j - 1);
    }
}

} // verus!
