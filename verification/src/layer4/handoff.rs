//! The handoff of UDP sockets and flows to a replacement process.
//!
//! The old process writes a manifest of its flows and sends the descriptors in
//! chunks; the new process checks the manifest and adopts each chunk. The whole
//! handoff fails when anything is missing or does not match, so that the new
//! process never serves a part of the sockets.
use crate::layer4::hash::{handoff_key, listener_key};
use crate::layer4::tcp::nowhere;
use crate::layer4::udp::{
    distinct_clients, flow_index, lemma_flow_index, with_flow, Flow, FlowTable,
};
use crate::net::{IpAddr, SocketAddr};
use crate::num::{decimal, decimal_reads_back, decimal_string};
use crate::text::{cat2, cat3, cat4, cat5, owned, same};
use crate::time::Duration;
use vstd::prelude::*;

verus! {

/// How many flow descriptors a chunk carries at most.
pub const HANDOFF_FLOWS_PER_CHUNK: usize = 30;

/// How many chunks a manifest may announce.
pub const MAX_HANDOFF_CHUNKS: usize = 1_000_000;

/// How many flows a manifest may list.
pub const MAX_HANDOFF_FLOWS: usize = 30_000_000;

/// The largest manifest that is read, in bytes.
pub const MAX_MANIFEST_BYTES: usize = 16_777_216;

/// How long either side of a handoff waits for the other, in seconds.
pub const HANDOFF_WAIT_SECS: u64 = 20;

/// How long to pause between two looks for what the other side brings, in
/// milliseconds.
pub const HANDOFF_PAUSE_MILLIS: u64 = 50;

/// What to do about a manifest.
#[derive(PartialEq, Eq, Debug)]
pub enum ManifestStep {
    /// Read it: it is there, and not too large.
    Read,
    /// Look again after a pause.
    Pause,
    /// Give up with this message.
    Fail(String),
}

/// Decide about the manifest at `path`: `size` is how large it is, when it is
/// there, and `waited` is how long it has been waited for.
pub fn await_manifest(path: &str, size: Option<usize>, waited: Duration) -> (r: ManifestStep)
    ensures
        match size {
            Some(n) => if n > MAX_MANIFEST_BYTES {
                r matches ManifestStep::Fail(m) && m@ == "UDP handoff manifest exceeds 16 MiB"@
            } else {
                r is Read
            },
            None => if waited.nanos >= HANDOFF_WAIT_SECS * 1_000_000_000 {
                r matches ManifestStep::Fail(m) && m@ == "UDP handoff manifest "@ + path@
                    + " did not arrive"@
            } else {
                r is Pause
            },
        },
{
    match size {
        Some(n) => if n > MAX_MANIFEST_BYTES {
            ManifestStep::Fail(owned("UDP handoff manifest exceeds 16 MiB"))
        } else {
            ManifestStep::Read
        },
        None => if waited.nanos >= HANDOFF_WAIT_SECS * 1_000_000_000 {
            ManifestStep::Fail(cat3("UDP handoff manifest ", path, " did not arrive"))
        } else {
            ManifestStep::Pause
        },
    }
}

/// What the manifest says of one flow.
#[derive(Clone, Copy, PartialEq, Eq, Structural, Debug)]
pub struct UdpHandoffFlow {
    pub client: SocketAddr,
    pub upstream: SocketAddr,
    pub client_packets: u64,
}

/// The manifest that goes before the descriptors.
pub struct UdpHandoffManifest {
    pub chunks: usize,
    /// How many listener descriptors the first chunk carries. Zero stands for one
    /// descriptor that is named `listener`.
    pub listeners: usize,
    pub flows: Vec<UdpHandoffFlow>,
}

/// How many chunks `n` flows take: at least one, which carries the listeners.
pub open spec fn chunk_count(n: nat) -> nat {
    if n == 0 {
        1
    } else {
        ((n + HANDOFF_FLOWS_PER_CHUNK - 1) / HANDOFF_FLOWS_PER_CHUNK as int) as nat
    }
}

/// Count the chunks for `n` flows.
pub fn chunks_for(n: usize) -> (r: usize)
    ensures
        r == chunk_count(n as nat),
{
    if n == 0 {
        1
    } else if n % HANDOFF_FLOWS_PER_CHUNK == 0 {
        n / HANDOFF_FLOWS_PER_CHUNK
    } else {
        n / HANDOFF_FLOWS_PER_CHUNK + 1
    }
}

/// The first flow of a chunk.
pub open spec fn chunk_start(chunk: int) -> int {
    chunk * HANDOFF_FLOWS_PER_CHUNK
}

/// The end of the flows of a chunk, of `n` in all.
pub open spec fn chunk_end(chunk: int, n: int) -> int {
    if chunk_start(chunk) + HANDOFF_FLOWS_PER_CHUNK < n {
        chunk_start(chunk) + HANDOFF_FLOWS_PER_CHUNK
    } else {
        n
    }
}

/// Which flows a chunk carries, of `n` in all.
pub fn chunk_range(chunk: usize, n: usize) -> (r: (usize, usize))
    requires
        chunk < chunk_count(n as nat),
    ensures
        r.0 == chunk_start(chunk as int),
        r.1 == chunk_end(chunk as int, n as int),
        r.0 <= r.1 <= n,
{
    let start: usize = chunk * HANDOFF_FLOWS_PER_CHUNK;
    let end: usize = if n - start > HANDOFF_FLOWS_PER_CHUNK {
        start + HANDOFF_FLOWS_PER_CHUNK
    } else {
        n
    };
    (start, end)
}

/// The chunks carry every flow exactly once, in order: the first starts at the
/// first flow, each starts where the one before it ends, the last ends with the
/// last flow, and none carries more than the limit.
pub proof fn chunks_cover_the_flows(n: nat, chunk: nat)
    requires
        chunk < chunk_count(n),
    ensures
        chunk_start(0) == 0,
        chunk + 1 < chunk_count(n) ==> chunk_end(chunk as int, n as int) == chunk_start(
            chunk as int + 1,
        ),
        chunk + 1 == chunk_count(n) ==> chunk_end(chunk as int, n as int) == n,
        0 <= chunk_end(chunk as int, n as int) - chunk_start(chunk as int)
            <= HANDOFF_FLOWS_PER_CHUNK,
{
}

/// The manifest for the flows of a table.
pub open spec fn manifest_flows(flows: Seq<Flow>) -> Seq<UdpHandoffFlow> {
    Seq::new(
        flows.len(),
        |i: int|
            UdpHandoffFlow {
                client: flows[i].client,
                upstream: flows[i].upstream,
                client_packets: flows[i].c2u_packets,
            },
    )
}

/// Write the manifest for a table and a number of listener sockets, of which
/// there has to be one.
pub fn manifest_for(table: &FlowTable, listeners: usize) -> (r: Result<UdpHandoffManifest, String>)
    ensures
        match r {
            Ok(m) => listeners > 0 && m.listeners == listeners && m.chunks == chunk_count(
                table.flows@.len(),
            ) && m.flows@ == manifest_flows(table.flows@),
            Err(e) => listeners == 0 && e@ == "UDP listener sockets are unavailable"@,
        },
{
    if listeners == 0 {
        return Err(owned("UDP listener sockets are unavailable"));
    }
    let mut flows: Vec<UdpHandoffFlow> = Vec::new();
    let mut i: usize = 0;
    while i < table.flows.len()
        invariant
            i <= table.flows@.len(),
            flows@ == manifest_flows(table.flows@).take(i as int),
        decreases table.flows@.len() - i,
    {
        let f = table.flows[i];
        flows.push(
            UdpHandoffFlow {
                client: f.client,
                upstream: f.upstream,
                client_packets: f.c2u_packets,
            },
        );
        i += 1;
        let ghost all = manifest_flows(table.flows@);
        assert(all.take(i as int) == all.take(i - 1).push(all[i - 1]));
    }
    assert(manifest_flows(table.flows@).take(i as int) == manifest_flows(table.flows@));
    Ok(UdpHandoffManifest { chunks: chunks_for(table.flows.len()), listeners, flows })
}

/// How many listener descriptors a manifest announces.
pub open spec fn sent_listeners(listeners: usize) -> usize {
    if listeners == 0 {
        1
    } else {
        listeners
    }
}

/// What is wrong with a manifest for a process of `expected` receive loops.
pub open spec fn manifest_fault(
    chunks: usize,
    listeners: usize,
    flows: nat,
    expected: usize,
) -> Option<Seq<char>> {
    if chunks == 0 || chunks > MAX_HANDOFF_CHUNKS {
        Some("invalid UDP handoff chunk count "@ + decimal(chunks as nat))
    } else if flows > MAX_HANDOFF_FLOWS {
        Some("UDP handoff flow count exceeds the safety limit"@)
    } else if chunks != chunk_count(flows) {
        Some(
            "UDP handoff chunk count "@ + decimal(chunks as nat) + " does not match "@ + decimal(
                flows,
            ) + " flows"@,
        )
    } else if sent_listeners(listeners) != expected {
        Some(
            "UDP handoff carries "@ + decimal(sent_listeners(listeners) as nat)
                + " listener descriptors but this process runs "@ + decimal(expected as nat)
                + " receive loops; restart instead of upgrading when the worker-thread count changes"@,
        )
    } else {
        None
    }
}

/// Check a manifest.
pub fn check_manifest(m: &UdpHandoffManifest, expected: usize) -> (r: Result<(), String>)
    ensures
        match r {
            Ok(()) => manifest_fault(m.chunks, m.listeners, m.flows@.len(), expected) is None,
            Err(e) => manifest_fault(m.chunks, m.listeners, m.flows@.len(), expected) == Some(e@),
        },
{
    let chunks = decimal_string(m.chunks as u64);
    if m.chunks == 0 || m.chunks > MAX_HANDOFF_CHUNKS {
        return Err(cat2("invalid UDP handoff chunk count ", chunks.as_str()));
    }
    if m.flows.len() > MAX_HANDOFF_FLOWS {
        return Err(owned("UDP handoff flow count exceeds the safety limit"));
    }
    if m.chunks != chunks_for(m.flows.len()) {
        let flows = decimal_string(m.flows.len() as u64);
        return Err(
            cat5(
                "UDP handoff chunk count ",
                chunks.as_str(),
                " does not match ",
                flows.as_str(),
                " flows",
            ),
        );
    }
    let sent: usize = if m.listeners == 0 {
        1
    } else {
        m.listeners
    };
    if sent != expected {
        let s = decimal_string(sent as u64);
        let e = decimal_string(expected as u64);
        return Err(
            cat5(
                "UDP handoff carries ",
                s.as_str(),
                " listener descriptors but this process runs ",
                e.as_str(),
                " receive loops; restart instead of upgrading when the worker-thread count changes",
            ),
        );
    }
    Ok(())
}

/// A process accepts the manifest that one with as many receive loops wrote,
/// unless it has more flows than a manifest may list.
pub proof fn own_manifest_is_accepted(flows: nat, listeners: usize)
    requires
        flows <= MAX_HANDOFF_FLOWS,
        listeners > 0,
    ensures
        manifest_fault(chunk_count(flows) as usize, listeners, flows, listeners) is None,
{
}

// ---------------------------------------------------------------------------
// Descriptors
// ---------------------------------------------------------------------------

/// A descriptor in a chunk, with the address that its socket is connected to.
pub struct Descriptor {
    pub name: String,
    pub fd: i32,
    pub peer: SocketAddr,
}

/// The model of [`Descriptor`].
pub ghost struct DescriptorView {
    pub name: Seq<char>,
    pub fd: i32,
    pub peer: SocketAddr,
}

impl DeepView for Descriptor {
    type V = DescriptorView;

    open spec fn deep_view(&self) -> DescriptorView {
        DescriptorView { name: self.name@, fd: self.fd, peer: self.peer }
    }
}

/// The name of a listener descriptor.
pub open spec fn listener_name(i: nat) -> Seq<char> {
    "listener-"@ + decimal(i)
}

/// The name of a flow descriptor.
pub open spec fn flow_name(i: nat) -> Seq<char> {
    "flow-"@ + decimal(i)
}

/// Name a listener descriptor.
pub fn listener_descriptor(i: usize) -> (r: String)
    ensures
        r@ == listener_name(i as nat),
{
    let n = decimal_string(i as u64);
    cat2("listener-", n.as_str())
}

/// Name a flow descriptor.
pub fn flow_descriptor(i: usize) -> (r: String)
    ensures
        r@ == flow_name(i as nat),
{
    let n = decimal_string(i as u64);
    cat2("flow-", n.as_str())
}

/// The first descriptor of a name, from `i` on.
pub open spec fn named_from(ds: Seq<DescriptorView>, name: Seq<char>, i: int) -> Option<
    DescriptorView,
>
    decreases ds.len() - i,
{
    if i < 0 || i >= ds.len() {
        None
    } else if ds[i].name == name {
        Some(ds[i])
    } else {
        named_from(ds, name, i + 1)
    }
}

fn find_named<'a>(ds: &'a Vec<Descriptor>, name: &str) -> (r: Option<&'a Descriptor>)
    ensures
        match r {
            Some(d) => named_from(ds.deep_view(), name@, 0) == Some(d.deep_view()),
            None => named_from(ds.deep_view(), name@, 0) is None,
        },
{
    let ghost all = ds.deep_view();
    let mut i: usize = 0;
    while i < ds.len()
        invariant
            i <= ds@.len(),
            all == ds.deep_view(),
            named_from(all, name@, 0) == named_from(all, name@, i as int),
        decreases ds@.len() - i,
    {
        assert(all[i as int] == ds@[i as int].deep_view());
        if same(ds[i].name.as_str(), name) {
            return Some(&ds[i]);
        }
        i += 1;
    }
    None
}

/// The listener descriptors `i..expected` of a chunk, after `done`.
pub open spec fn listeners_from(
    ds: Seq<DescriptorView>,
    i: int,
    expected: int,
    done: Seq<i32>,
) -> Result<Seq<i32>, Seq<char>>
    decreases expected - i,
{
    if i < 0 || i >= expected {
        Ok(done)
    } else {
        match named_from(ds, listener_name(i as nat), 0) {
            None => Err("UDP handoff is missing listener descriptor "@ + decimal(i as nat)),
            Some(d) => listeners_from(ds, i + 1, expected, done.push(d.fd)),
        }
    }
}

/// The listener descriptors that the first chunk carries.
pub open spec fn adopted_listeners(
    ds: Seq<DescriptorView>,
    listeners: usize,
    expected: usize,
) -> Result<Seq<i32>, Seq<char>> {
    if listeners == 0 {
        match named_from(ds, "listener"@, 0) {
            None => Err("UDP handoff is missing the listener fd"@),
            Some(d) => Ok(seq![d.fd]),
        }
    } else {
        listeners_from(ds, 0, expected as int, Seq::empty())
    }
}

/// The flow descriptors `i..end` of a chunk, after `done`; each has to be
/// connected to the upstream that the manifest names.
pub open spec fn flows_from(
    ds: Seq<DescriptorView>,
    flows: Seq<UdpHandoffFlow>,
    i: int,
    end: int,
    done: Seq<i32>,
) -> Result<Seq<i32>, Seq<char>>
    decreases end - i,
{
    if i < 0 || i >= end {
        Ok(done)
    } else {
        match named_from(ds, flow_name(i as nat), 0) {
            None => Err("UDP handoff is missing flow fd "@ + decimal(i as nat)),
            Some(d) => if d.peer != flows[i].upstream {
                Err(
                    "UDP handoff flow "@ + decimal(i as nat) + " points to "@ + d.peer.text()
                        + ", expected "@ + flows[i].upstream.text(),
                )
            } else {
                flows_from(ds, flows, i + 1, end, done.push(d.fd))
            },
        }
    }
}

/// What was adopted so far.
pub struct Adopted {
    pub listeners: Vec<i32>,
    /// The descriptor of each flow of the manifest, in order.
    pub flows: Vec<i32>,
}

/// The outcome of a chunk: what was adopted with it, or what is wrong.
pub open spec fn adopted(
    listeners: Seq<i32>,
    flows: Seq<i32>,
    m: UdpHandoffManifest,
    chunk: int,
    expected: usize,
    ds: Seq<DescriptorView>,
) -> Result<(Seq<i32>, Seq<i32>), Seq<char>> {
    let found = if chunk == 0 {
        adopted_listeners(ds, m.listeners, expected)
    } else {
        Ok(Seq::empty())
    };
    match found {
        Err(e) => Err(e),
        Ok(more) => match flows_from(
            ds,
            m.flows@,
            chunk_start(chunk),
            chunk_end(chunk, m.flows@.len() as int),
            flows,
        ) {
            Err(e) => Err(e),
            Ok(fs) => Ok((listeners + more, fs)),
        },
    }
}

fn adopt_listeners(ds: &Vec<Descriptor>, listeners: usize, expected: usize) -> (r: Result<
    Vec<i32>,
    String,
>)
    ensures
        match (r, adopted_listeners(ds.deep_view(), listeners, expected)) {
            (Ok(a), Ok(b)) => a@ == b,
            (Err(e), Err(m)) => e@ == m,
            _ => false,
        },
{
    let mut out: Vec<i32> = Vec::new();
    if listeners == 0 {
        match find_named(ds, "listener") {
            None => Err(owned("UDP handoff is missing the listener fd")),
            Some(d) => {
                out.push(d.fd);
                assert(out@ == seq![d.fd]);
                Ok(out)
            },
        }
    } else {
        let ghost want = listeners_from(ds.deep_view(), 0, expected as int, Seq::empty());
        let mut i: usize = 0;
        while i < expected
            invariant
                i <= expected,
                want == adopted_listeners(ds.deep_view(), listeners, expected),
                want == listeners_from(ds.deep_view(), i as int, expected as int, out@),
            decreases expected - i,
        {
            let name = listener_descriptor(i);
            match find_named(ds, name.as_str()) {
                None => {
                    let n = decimal_string(i as u64);
                    return Err(cat2("UDP handoff is missing listener descriptor ", n.as_str()));
                },
                Some(d) => {
                    out.push(d.fd);
                },
            }
            i += 1;
        }
        Ok(out)
    }
}

impl Adopted {
    /// Nothing adopted yet.
    pub fn new() -> (r: Adopted)
        ensures
            r.listeners@ == Seq::<i32>::empty(),
            r.flows@ == Seq::<i32>::empty(),
    {
        Adopted { listeners: Vec::new(), flows: Vec::new() }
    }

    /// Adopt the descriptors of a chunk. A chunk with anything missing or wrong
    /// adopts nothing.
    pub fn adopt_chunk(
        &mut self,
        m: &UdpHandoffManifest,
        chunk: usize,
        expected: usize,
        ds: &Vec<Descriptor>,
    ) -> (r: Result<(), String>)
        requires
            chunk < chunk_count(m.flows@.len()),
        ensures
            match (
                r,
                adopted(
                    old(self).listeners@,
                    old(self).flows@,
                    *m,
                    chunk as int,
                    expected,
                    ds.deep_view(),
                ),
            ) {
                (Ok(()), Ok((ls, fs))) => final(self).listeners@ == ls && final(self).flows@ == fs,
                (Err(e), Err(text)) => e@ == text && *final(self) == *old(self),
                _ => false,
            },
    {
        let mut more: Vec<i32> = if chunk == 0 {
            match adopt_listeners(ds, m.listeners, expected) {
                Ok(v) => v,
                Err(e) => {
                    return Err(e);
                },
            }
        } else {
            Vec::new()
        };
        let ghost extra = more@;
        let (start, end) = chunk_range(chunk, m.flows.len());
        let ghost want = flows_from(
            ds.deep_view(),
            m.flows@,
            start as int,
            end as int,
            self.flows@,
        );
        let mut got: Vec<i32> = Vec::new();
        let mut i: usize = start;
        assert(self.flows@ + got@ == self.flows@);
        while i < end
            invariant
                start <= i <= end <= m.flows@.len(),
                want == flows_from(
                    ds.deep_view(),
                    m.flows@,
                    i as int,
                    end as int,
                    self.flows@ + got@,
                ),
                want == flows_from(
                    ds.deep_view(),
                    m.flows@,
                    start as int,
                    end as int,
                    self.flows@,
                ),
                *self == *old(self),
                start == chunk_start(chunk as int),
                end == chunk_end(chunk as int, m.flows@.len() as int),
                chunk == 0 ==> adopted_listeners(ds.deep_view(), m.listeners, expected) == Ok::<
                    Seq<i32>,
                    Seq<char>,
                >(extra),
            decreases end - i,
        {
            let name = flow_descriptor(i);
            match find_named(ds, name.as_str()) {
                None => {
                    let n = decimal_string(i as u64);
                    return Err(cat2("UDP handoff is missing flow fd ", n.as_str()));
                },
                Some(d) => {
                    if d.peer != m.flows[i].upstream {
                        let n = decimal_string(i as u64);
                        let head = cat3("UDP handoff flow ", n.as_str(), " points to ");
                        let actual = d.peer.display();
                        let wanted = m.flows[i].upstream.display();
                        return Err(
                            cat4(head.as_str(), actual.as_str(), ", expected ", wanted.as_str()),
                        );
                    }
                    let ghost before = got@;
                    got.push(d.fd);
                    assert(self.flows@ + got@ == (self.flows@ + before).push(d.fd));
                },
            }
            i += 1;
        }
        self.listeners.append(&mut more);
        self.flows.append(&mut got);
        Ok(())
    }

    /// Check that every listener descriptor arrived.
    pub fn finish(&self, expected: usize) -> (r: Result<(), String>)
        ensures
            match r {
                Ok(()) => self.listeners@.len() == expected,
                Err(e) => self.listeners@.len() != expected && e@ == "UDP handoff delivered "@
                    + decimal(self.listeners@.len()) + " of "@ + decimal(expected as nat)
                    + " listener descriptors"@,
            },
    {
        if self.listeners.len() != expected {
            let got = decimal_string(self.listeners.len() as u64);
            let want = decimal_string(expected as u64);
            return Err(
                cat5(
                    "UDP handoff delivered ",
                    got.as_str(),
                    " of ",
                    want.as_str(),
                    " listener descriptors",
                ),
            );
        }
        Ok(())
    }
}

/// The flow that a line of the manifest stands for, touched at `now`.
pub open spec fn inherited_flow(flow: UdpHandoffFlow, now: u64) -> Flow {
    Flow {
        client: flow.client,
        upstream: flow.upstream,
        last_active: now,
        c2u_packets: flow.client_packets,
    }
}

/// The table that the flows `flows[..n]` of a manifest make.
pub open spec fn inherited(flows: Seq<UdpHandoffFlow>, now: u64, n: nat) -> Seq<Flow>
    decreases n,
{
    if n == 0 {
        Seq::empty()
    } else {
        with_flow(
            inherited(flows, now, (n - 1) as nat),
            inherited_flow(flows[n - 1], now),
        )
    }
}

/// Make the table that the new process starts with.
pub fn inherit(m: &UdpHandoffManifest, now: u64) -> (r: FlowTable)
    ensures
        r.wf(),
        r.flows@ == inherited(m.flows@, now, m.flows@.len()),
{
    let mut table = FlowTable::new();
    let mut i: usize = 0;
    while i < m.flows.len()
        invariant
            i <= m.flows@.len(),
            table.wf(),
            table.flows@ == inherited(m.flows@, now, i as nat),
        decreases m.flows@.len() - i,
    {
        let f = m.flows[i];
        table.put(
            Flow {
                client: f.client,
                upstream: f.upstream,
                last_active: now,
                c2u_packets: f.client_packets,
            },
        );
        i += 1;
    }
    table
}

/// The new process starts with the flows of the old one: the same clients,
/// upstreams and counts, all touched at the time of the handoff.
pub proof fn flows_survive_the_handoff(flows: Seq<Flow>, now: u64)
    requires
        distinct_clients(flows),
    ensures
        inherited(manifest_flows(flows), now, flows.len()) == Seq::new(
            flows.len(),
            |i: int| Flow { last_active: now, ..flows[i] },
        ),
{
    lemma_inherited(flows, now, flows.len());
    let all = Seq::new(flows.len(), |i: int| Flow { last_active: now, ..flows[i] });
    assert(all.take(flows.len() as int) == all);
}

proof fn lemma_inherited(flows: Seq<Flow>, now: u64, n: nat)
    requires
        distinct_clients(flows),
        n <= flows.len(),
    ensures
        inherited(manifest_flows(flows), now, n) == Seq::new(
            flows.len(),
            |i: int| Flow { last_active: now, ..flows[i] },
        ).take(n as int),
    decreases n,
{
    let all = Seq::new(flows.len(), |i: int| Flow { last_active: now, ..flows[i] });
    if n > 0 {
        lemma_inherited(flows, now, (n - 1) as nat);
        let before = all.take(n - 1);
        let flow = inherited_flow(manifest_flows(flows)[n - 1], now);
        assert(flow == all[n - 1]);
        lemma_flow_index(before, flow.client, 0);
        let k = flow_index(before, flow.client, 0);
        if k < before.len() {
            assert(before[k].client == flows[k].client);
            assert(flows[k].client != flows[n - 1].client);
        }
        assert(all.take(n as int) == before.push(flow));
    } else {
        assert(all.take(0) == Seq::<Flow>::empty());
    }
}

/// The descriptors that a chunk carries: the first one those of the listeners,
/// and each one those of its flows.
pub open spec fn chunk_descriptors(
    m: UdpHandoffManifest,
    chunk: int,
    listener_fds: Seq<i32>,
    flow_fds: Seq<i32>,
) -> Seq<DescriptorView> {
    let start = chunk_start(chunk);
    let end = chunk_end(chunk, m.flows@.len() as int);
    let ls = if chunk == 0 {
        Seq::new(
            listener_fds.len(),
            |i: int|
                DescriptorView { name: listener_name(i as nat), fd: listener_fds[i], peer: nowhere() },
        )
    } else {
        Seq::empty()
    };
    ls + Seq::new(
        (end - start) as nat,
        |i: int|
            DescriptorView {
                name: flow_name((start + i) as nat),
                fd: flow_fds[start + i],
                peer: m.flows@[start + i].upstream,
            },
    )
}

/// List the descriptors that a chunk carries.
pub fn descriptors_for(
    m: &UdpHandoffManifest,
    chunk: usize,
    listener_fds: &Vec<i32>,
    flow_fds: &Vec<i32>,
) -> (r: Vec<Descriptor>)
    requires
        chunk < chunk_count(m.flows@.len()),
        flow_fds@.len() == m.flows@.len(),
    ensures
        r.deep_view() == chunk_descriptors(*m, chunk as int, listener_fds@, flow_fds@),
{
    let mut out: Vec<Descriptor> = Vec::new();
    let ghost all = chunk_descriptors(*m, chunk as int, listener_fds@, flow_fds@);
    assert(out.deep_view() == all.take(0));
    if chunk == 0 {
        let mut i: usize = 0;
        while i < listener_fds.len()
            invariant
                i <= listener_fds@.len() <= all.len(),
                chunk == 0,
                chunk < chunk_count(m.flows@.len()),
                all == chunk_descriptors(*m, chunk as int, listener_fds@, flow_fds@),
                out.deep_view() == all.take(i as int),
            decreases listener_fds@.len() - i,
        {
            let name = listener_descriptor(i);
            add_descriptor(&mut out, name, listener_fds[i], SocketAddr::new(IpAddr::V4(0), 0));
            i += 1;
            assert(all.take(i as int) == all.take(i - 1).push(all[i - 1]));
        }
    }
    let ghost head: int = if chunk == 0 {
        listener_fds@.len() as int
    } else {
        0
    };
    let (start, end) = chunk_range(chunk, m.flows.len());
    let mut i: usize = start;
    while i < end
        invariant
            start <= i <= end <= m.flows@.len(),
            flow_fds@.len() == m.flows@.len(),
            start == chunk_start(chunk as int),
            end == chunk_end(chunk as int, m.flows@.len() as int),
            all == chunk_descriptors(*m, chunk as int, listener_fds@, flow_fds@),
            head == (if chunk == 0 {
                listener_fds@.len() as int
            } else {
                0
            }),
            all.len() == head + end - start,
            out.deep_view() == all.take(head + i - start),
        decreases end - i,
    {
        let name = flow_descriptor(i);
        add_descriptor(&mut out, name, flow_fds[i], m.flows[i].upstream);
        let ghost at = head + i - start;
        assert(all[at].name == flow_name(i as nat));
        assert(all.take(at + 1) == all.take(at).push(all[at]));
        i += 1;
    }
    assert(all.take(all.len() as int) == all);
    out
}

fn add_descriptor(out: &mut Vec<Descriptor>, name: String, fd: i32, peer: SocketAddr)
    ensures
        final(out).deep_view() == old(out).deep_view().push(
            DescriptorView { name: name@, fd, peer },
        ),
{
    let ghost before = out.deep_view();
    let d = Descriptor { name, fd, peer };
    let ghost v = d.deep_view();
    out.push(d);
    assert(out.deep_view() == before.push(v));
}

/// A chunk that is delivered as it was sent is adopted in full: the listeners
/// with the first one, and with each one the descriptors of its flows.
pub proof fn sent_chunks_are_adopted(
    m: UdpHandoffManifest,
    chunk: int,
    listener_fds: Seq<i32>,
    flow_fds: Seq<i32>,
)
    requires
        0 <= chunk < chunk_count(m.flows@.len()),
        flow_fds.len() == m.flows@.len(),
        listener_fds.len() == m.listeners,
        m.listeners > 0,
    ensures
        adopted(
            if chunk == 0 {
                Seq::empty()
            } else {
                listener_fds
            },
            flow_fds.take(chunk_start(chunk)),
            m,
            chunk,
            m.listeners,
            chunk_descriptors(m, chunk, listener_fds, flow_fds),
        ) == Ok::<(Seq<i32>, Seq<i32>), Seq<char>>(
            (listener_fds, flow_fds.take(chunk_end(chunk, m.flows@.len() as int))),
        ),
{
    let ds = chunk_descriptors(m, chunk, listener_fds, flow_fds);
    let start = chunk_start(chunk);
    let end = chunk_end(chunk, m.flows@.len() as int);
    let head: int = if chunk == 0 {
        listener_fds.len() as int
    } else {
        0
    };
    lemma_distinct_names(m, chunk, listener_fds, flow_fds);
    if chunk == 0 {
        lemma_adopts_listeners(ds, listener_fds, 0);
        assert(listener_fds.take(0) == Seq::<i32>::empty());
        assert(Seq::<i32>::empty() + listener_fds == listener_fds);
    } else {
        assert(listener_fds + Seq::<i32>::empty() == listener_fds);
    }
    assert forall|i: int| start <= i < end implies #[trigger] named_from(
        ds,
        flow_name(i as nat),
        0,
    ) == Some(
        DescriptorView { name: flow_name(i as nat), fd: flow_fds[i], peer: m.flows@[i].upstream },
    ) by {
        lemma_named(ds, head + i - start, 0);
    }
    lemma_adopts_flows(ds, m.flows@, flow_fds, start, end);
}

/// Whether no two descriptors have one name.
spec fn distinct_names(ds: Seq<DescriptorView>) -> bool {
    forall|i: int, j: int|
        0 <= i < j < ds.len() ==> (#[trigger] ds[i]).name != (#[trigger] ds[j]).name
}

proof fn lemma_decimal_injective(a: nat, b: nat)
    requires
        decimal(a) == decimal(b),
    ensures
        a == b,
{
    decimal_reads_back(a, a + b);
    decimal_reads_back(b, a + b);
}

proof fn lemma_distinct_names(
    m: UdpHandoffManifest,
    chunk: int,
    listener_fds: Seq<i32>,
    flow_fds: Seq<i32>,
)
    requires
        0 <= chunk < chunk_count(m.flows@.len()),
    ensures
        distinct_names(chunk_descriptors(m, chunk, listener_fds, flow_fds)),
{
    let ds = chunk_descriptors(m, chunk, listener_fds, flow_fds);
    let start = chunk_start(chunk);
    let head: int = if chunk == 0 {
        listener_fds.len() as int
    } else {
        0
    };
    reveal_strlit("listener-");
    reveal_strlit("flow-");
    assert forall|i: int, j: int| 0 <= i < j < ds.len() implies (#[trigger] ds[i]).name != (
    #[trigger] ds[j]).name by {
        if ds[i].name == ds[j].name {
            if i < head && j < head {
                assert(ds[i].name == listener_name(i as nat));
                assert(ds[j].name == listener_name(j as nat));
                assert(decimal(i as nat) == listener_name(i as nat).skip(9));
                assert(decimal(j as nat) == listener_name(j as nat).skip(9));
                lemma_decimal_injective(i as nat, j as nat);
            } else if i >= head {
                let a = (start + i - head) as nat;
                let b = (start + j - head) as nat;
                assert(ds[i].name == flow_name(a));
                assert(ds[j].name == flow_name(b));
                assert(decimal(a) == flow_name(a).skip(5));
                assert(decimal(b) == flow_name(b).skip(5));
                lemma_decimal_injective(a, b);
            } else {
                assert(ds[i].name[0] == 'l');
                assert(ds[j].name[0] == 'f');
            }
        }
    }
}

proof fn lemma_named(ds: Seq<DescriptorView>, at: int, i: int)
    requires
        distinct_names(ds),
        0 <= i <= at < ds.len(),
    ensures
        named_from(ds, ds[at].name, i) == Some(ds[at]),
    decreases at - i,
{
    if i < at {
        lemma_named(ds, at, i + 1);
    }
}

proof fn lemma_adopts_listeners(ds: Seq<DescriptorView>, fds: Seq<i32>, i: int)
    requires
        distinct_names(ds),
        0 <= i <= fds.len() <= ds.len(),
        forall|j: int|
            0 <= j < fds.len() ==> (#[trigger] ds[j]).name == listener_name(j as nat) && ds[j].fd
                == fds[j],
    ensures
        listeners_from(ds, i, fds.len() as int, fds.take(i)) == Ok::<Seq<i32>, Seq<char>>(fds),
    decreases fds.len() - i,
{
    if i < fds.len() {
        lemma_named(ds, i, 0);
        assert(fds.take(i + 1) == fds.take(i).push(fds[i]));
        lemma_adopts_listeners(ds, fds, i + 1);
    } else {
        assert(fds.take(i) == fds);
    }
}

proof fn lemma_adopts_flows(
    ds: Seq<DescriptorView>,
    flows: Seq<UdpHandoffFlow>,
    fds: Seq<i32>,
    i: int,
    end: int,
)
    requires
        0 <= i <= end <= flows.len(),
        fds.len() == flows.len(),
        forall|k: int|
            i <= k < end ==> #[trigger] named_from(ds, flow_name(k as nat), 0) == Some(
                DescriptorView { name: flow_name(k as nat), fd: fds[k], peer: flows[k].upstream },
            ),
    ensures
        flows_from(ds, flows, i, end, fds.take(i)) == Ok::<Seq<i32>, Seq<char>>(fds.take(end)),
    decreases end - i,
{
    if i < end {
        assert(named_from(ds, flow_name(i as nat), 0) is Some);
        assert(fds.take(i + 1) == fds.take(i).push(fds[i]));
        lemma_adopts_flows(ds, flows, fds, i + 1, end);
    }
}

// ---------------------------------------------------------------------------
// Names of files
// ---------------------------------------------------------------------------

/// Where the outcome of a handoff is published.
pub fn status_path_for(upgrade_sock: &str, handoff_id: &str) -> (r: String)
    ensures
        r@ == upgrade_sock@ + ".udp."@ + listener_key(handoff_id@) + ".status"@,
{
    let key = handoff_key(handoff_id);
    cat4(upgrade_sock, ".udp.", key.as_str(), ".status")
}

/// Where the manifest is published.
pub fn manifest_path_for(upgrade_sock: &str, handoff_id: &str) -> (r: String)
    ensures
        r@ == upgrade_sock@ + ".udp."@ + listener_key(handoff_id@) + ".manifest"@,
{
    let key = handoff_key(handoff_id);
    cat4(upgrade_sock, ".udp.", key.as_str(), ".manifest")
}

/// The socket over which a chunk is sent.
pub fn part_path_for(upgrade_sock: &str, handoff_id: &str, chunk: usize) -> (r: String)
    ensures
        r@ == upgrade_sock@ + ".udp."@ + listener_key(handoff_id@) + ".part."@ + decimal(
            chunk as nat,
        ),
{
    let key = handoff_key(handoff_id);
    let n = decimal_string(chunk as u64);
    cat5(upgrade_sock, ".udp.", key.as_str(), ".part.", n.as_str())
}

/// The text that tells the outcome of a handoff.
pub fn status_text(error: Option<&str>) -> (r: String)
    ensures
        r@ == match error {
            None => "ok"@,
            Some(e) => "error: "@ + e@,
        },
{
    match error {
        None => owned("ok"),
        Some(e) => cat2("error: ", e),
    }
}

} // verus!
