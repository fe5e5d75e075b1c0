//! The life of a UDP listener: from the start of its service to its end, and
//! what becomes of each datagram on the way.
//!
//! The program around the library performs the actions and reports what
//! happened; the functions here say what comes next.
use crate::config::ast::LbPolicy;
use crate::layer4::handoff::status_text;
use crate::layer4::udp::{
    flow_of, with_flow, without_flow, Flow, FlowFate, FlowTable, UdpSelection,
};
use crate::net::{IpAddr, SocketAddr};
use crate::time::Duration;
use vstd::prelude::*;

verus! {

// ---------------------------------------------------------------------------
// The service
// ---------------------------------------------------------------------------

/// How far the service of a listener has come.
#[derive(Clone, Copy, PartialEq, Eq, Structural, Debug)]
pub enum Phase {
    Created,
    /// Waiting for the sockets and flows of the old process.
    Receiving,
    /// Making the sockets ready for use.
    Preparing,
    /// Relaying, with the flow readers at work.
    Serving,
    /// Sending the sockets and flows to a new process; the flow readers are
    /// stopped.
    HandingOff,
    /// Waiting for the receive loops to end.
    Draining,
    Done,
}

/// What happened to the service.
#[derive(PartialEq, Eq, Debug)]
pub enum ServiceEvent {
    Started,
    HandoffReceived,
    HandoffFailed(String),
    /// The sockets are ready; this many.
    SocketsReady(usize),
    SocketsFailed,
    Shutdown,
    HandoffRequested,
    /// The handoff was sent, or its failure was reported.
    HandoffDone,
    WorkersStopped,
}

/// What the service does next.
#[derive(PartialEq, Eq, Debug)]
pub enum ServiceAction {
    /// Nothing.
    Wait,
    /// Receive the sockets and flows of the old process.
    Receive,
    /// Make the sockets ready.
    Prepare,
    /// Publish this status and end the process: the upgrade failed.
    FailUpgrade(String),
    /// End the process: a new process without sockets has to fail, so that the
    /// old one goes on.
    Exit,
    /// End the service.
    Return,
    /// Restart the readers of inherited flows, and run a receive loop for each of
    /// the sockets.
    Serve(usize),
    /// Stop the flow readers, and send the sockets and flows.
    Send,
    /// Stop the receive loops and wait for them.
    StopWorkers,
    /// Stop the flow readers and close all flows.
    CloseFlows,
}

/// The model of [`ServiceEvent`].
pub ghost enum ServiceEventView {
    Started,
    HandoffReceived,
    HandoffFailed(Seq<char>),
    SocketsReady(usize),
    SocketsFailed,
    Shutdown,
    HandoffRequested,
    HandoffDone,
    WorkersStopped,
}

/// The model of [`ServiceAction`].
pub ghost enum ServiceActionView {
    Wait,
    Receive,
    Prepare,
    FailUpgrade(Seq<char>),
    Exit,
    Return,
    Serve(usize),
    Send,
    StopWorkers,
    CloseFlows,
}

impl DeepView for ServiceEvent {
    type V = ServiceEventView;

    open spec fn deep_view(&self) -> ServiceEventView {
        match self {
            ServiceEvent::Started => ServiceEventView::Started,
            ServiceEvent::HandoffReceived => ServiceEventView::HandoffReceived,
            ServiceEvent::HandoffFailed(e) => ServiceEventView::HandoffFailed(e@),
            ServiceEvent::SocketsReady(n) => ServiceEventView::SocketsReady(*n),
            ServiceEvent::SocketsFailed => ServiceEventView::SocketsFailed,
            ServiceEvent::Shutdown => ServiceEventView::Shutdown,
            ServiceEvent::HandoffRequested => ServiceEventView::HandoffRequested,
            ServiceEvent::HandoffDone => ServiceEventView::HandoffDone,
            ServiceEvent::WorkersStopped => ServiceEventView::WorkersStopped,
        }
    }
}

impl DeepView for ServiceAction {
    type V = ServiceActionView;

    open spec fn deep_view(&self) -> ServiceActionView {
        match self {
            ServiceAction::Wait => ServiceActionView::Wait,
            ServiceAction::Receive => ServiceActionView::Receive,
            ServiceAction::Prepare => ServiceActionView::Prepare,
            ServiceAction::FailUpgrade(s) => ServiceActionView::FailUpgrade(s@),
            ServiceAction::Exit => ServiceActionView::Exit,
            ServiceAction::Return => ServiceActionView::Return,
            ServiceAction::Serve(n) => ServiceActionView::Serve(*n),
            ServiceAction::Send => ServiceActionView::Send,
            ServiceAction::StopWorkers => ServiceActionView::StopWorkers,
            ServiceAction::CloseFlows => ServiceActionView::CloseFlows,
        }
    }
}

/// The action of a service that has no sockets.
pub open spec fn give_up(upgrade: bool) -> ServiceActionView {
    if upgrade {
        ServiceActionView::Exit
    } else {
        ServiceActionView::Return
    }
}

/// What a service does next; `upgrade` says whether its process takes over from
/// an old one. An event that does not belong to the phase changes nothing.
pub open spec fn service_step(upgrade: bool, phase: Phase, event: ServiceEventView) -> (
    Phase,
    ServiceActionView,
) {
    match (phase, event) {
        (Phase::Created, ServiceEventView::Started) => if upgrade {
            (Phase::Receiving, ServiceActionView::Receive)
        } else {
            (Phase::Preparing, ServiceActionView::Prepare)
        },
        (Phase::Receiving, ServiceEventView::HandoffReceived) => (
            Phase::Preparing,
            ServiceActionView::Prepare,
        ),
        (Phase::Receiving, ServiceEventView::HandoffFailed(e)) => (
            Phase::Done,
            ServiceActionView::FailUpgrade("error: "@ + e),
        ),
        (Phase::Preparing, ServiceEventView::SocketsFailed) => (Phase::Done, give_up(upgrade)),
        (Phase::Preparing, ServiceEventView::SocketsReady(n)) => if n == 0 {
            (Phase::Done, give_up(upgrade))
        } else {
            (Phase::Serving, ServiceActionView::Serve(n))
        },
        (Phase::Serving, ServiceEventView::HandoffRequested) => (
            Phase::HandingOff,
            ServiceActionView::Send,
        ),
        (Phase::Serving, ServiceEventView::Shutdown) => (
            Phase::Draining,
            ServiceActionView::StopWorkers,
        ),
        (Phase::HandingOff, ServiceEventView::HandoffDone) => (
            Phase::Draining,
            ServiceActionView::StopWorkers,
        ),
        (Phase::Draining, ServiceEventView::WorkersStopped) => (
            Phase::Done,
            ServiceActionView::CloseFlows,
        ),
        _ => (phase, ServiceActionView::Wait),
    }
}

/// Decide what a service does next.
pub fn next_action(upgrade: bool, phase: Phase, event: &ServiceEvent) -> (r: (Phase, ServiceAction))
    ensures
        (r.0, r.1.deep_view()) == service_step(upgrade, phase, event.deep_view()),
{
    match (phase, event) {
        (Phase::Created, ServiceEvent::Started) => if upgrade {
            (Phase::Receiving, ServiceAction::Receive)
        } else {
            (Phase::Preparing, ServiceAction::Prepare)
        },
        (Phase::Receiving, ServiceEvent::HandoffReceived) => (
            Phase::Preparing,
            ServiceAction::Prepare,
        ),
        (Phase::Receiving, ServiceEvent::HandoffFailed(e)) => (
            Phase::Done,
            ServiceAction::FailUpgrade(status_text(Some(e.as_str()))),
        ),
        (Phase::Preparing, ServiceEvent::SocketsFailed) => (
            Phase::Done,
            if upgrade {
                ServiceAction::Exit
            } else {
                ServiceAction::Return
            },
        ),
        (Phase::Preparing, ServiceEvent::SocketsReady(n)) => if *n == 0 {
            (
                Phase::Done,
                if upgrade {
                    ServiceAction::Exit
                } else {
                    ServiceAction::Return
                },
            )
        } else {
            (Phase::Serving, ServiceAction::Serve(*n))
        },
        (Phase::Serving, ServiceEvent::HandoffRequested) => (
            Phase::HandingOff,
            ServiceAction::Send,
        ),
        (Phase::Serving, ServiceEvent::Shutdown) => (Phase::Draining, ServiceAction::StopWorkers),
        (Phase::HandingOff, ServiceEvent::HandoffDone) => (
            Phase::Draining,
            ServiceAction::StopWorkers,
        ),
        (Phase::Draining, ServiceEvent::WorkersStopped) => (
            Phase::Done,
            ServiceAction::CloseFlows,
        ),
        _ => (phase, ServiceAction::Wait),
    }
}

/// The number of a phase in the order of a life.
pub open spec fn phase_rank(phase: Phase) -> int {
    match phase {
        Phase::Created => 0,
        Phase::Receiving => 1,
        Phase::Preparing => 2,
        Phase::Serving => 3,
        Phase::HandingOff => 4,
        Phase::Draining => 5,
        Phase::Done => 6,
    }
}

/// A service only goes forward: every action but waiting belongs to a later
/// phase, a service that is done does nothing more, and flows are closed only
/// after the receive loops have stopped.
pub proof fn services_go_forward(upgrade: bool, phase: Phase, event: ServiceEventView)
    ensures
        ({
            let (next, action) = service_step(upgrade, phase, event);
            &&& action is Wait ==> next == phase
            &&& !(action is Wait) ==> phase_rank(next) > phase_rank(phase)
            &&& phase == Phase::Done ==> action is Wait
            &&& action is CloseFlows ==> phase == Phase::Draining && event is WorkersStopped
            &&& action is Exit || action is FailUpgrade ==> next == Phase::Done
        }),
{
}

/// A new process never serves without the sockets of the old one: in an upgrade
/// nothing is prepared before a handoff was received.
pub proof fn upgrades_wait_for_the_handoff(phase: Phase, event: ServiceEventView)
    ensures
        service_step(true, phase, event).1 is Prepare ==> phase == Phase::Receiving
            && event is HandoffReceived,
        service_step(true, phase, event).1 is Return ==> false,
{
}

// ---------------------------------------------------------------------------
// Datagrams
// ---------------------------------------------------------------------------

/// What becomes of a datagram of a client.
#[derive(Clone, Copy, PartialEq, Eq, Structural, Debug)]
pub enum DatagramStep {
    /// It is dropped: it is bigger than the limit.
    Oversized,
    /// It is sent to the upstream of the flow.
    Forward(SocketAddr),
    /// It is dropped: there is no upstream.
    NoUpstream,
    /// A flow is opened: a socket is bound to `local` and connected to
    /// `upstream`.
    Open { upstream: SocketAddr, local: SocketAddr },
}

/// The address to bind the socket of a flow to: any, of the family of the
/// upstream.
pub open spec fn local_for(upstream: SocketAddr) -> SocketAddr {
    SocketAddr::at(
        if upstream.ip is V4 {
            IpAddr::V4(0)
        } else {
            IpAddr::V6(0)
        },
        0,
    )
}

/// Decide what becomes of a datagram of `n` bytes from `client`.
pub fn receive(
    table: &mut FlowTable,
    selection: &mut UdpSelection,
    client: SocketAddr,
    n: usize,
    now: u64,
) -> (r: DatagramStep)
    requires
        old(table).wf(),
        flow_of(old(table).flows@, client) matches Some(f) ==> f.c2u_packets < u64::MAX,
    ensures
        final(table).wf(),
        final(selection).state == old(selection).state,
        final(selection).applied_generation == old(selection).applied_generation,
        ({
            let flow = flow_of(old(table).flows@, client);
            if n > old(selection).state.max_datagram_size {
                r == DatagramStep::Oversized && final(table).flows@ == old(table).flows@
                    && *final(selection) == *old(selection)
            } else if flow is Some {
                r == DatagramStep::Forward(flow->0.upstream) && final(table).flows@ == with_flow(
                    old(table).flows@,
                    Flow {
                        last_active: now,
                        c2u_packets: (flow->0.c2u_packets + 1) as u64,
                        ..flow->0
                    },
                ) && *final(selection) == *old(selection)
            } else {
                final(table).flows@ == old(table).flows@ && r == match old(selection).choice(
                    client,
                ) {
                    Some(upstream) => DatagramStep::Open { upstream, local: local_for(upstream) },
                    None => DatagramStep::NoUpstream,
                } && final(selection).cursor == (if old(selection).state.policy == LbPolicy::IpHash
                    || old(selection).state.upstreams@.len() == 0 {
                    old(selection).cursor
                } else {
                    old(selection).cursor.wrapping_add(1usize)
                })
            }
        }),
{
    if n > selection.state.max_datagram_size {
        return DatagramStep::Oversized;
    }
    if let Some(upstream) = table.forward(client, now) {
        return DatagramStep::Forward(upstream);
    }
    match selection.select(client) {
        None => DatagramStep::NoUpstream,
        Some(upstream) => {
            let ip = if upstream.is_ipv4() {
                IpAddr::V4(0)
            } else {
                IpAddr::V6(0)
            };
            DatagramStep::Open { upstream, local: SocketAddr::new(ip, 0) }
        },
    }
}

/// What the reader of a flow met.
#[derive(Clone, Copy, PartialEq, Eq, Structural, Debug)]
pub enum ReaderEvent {
    /// The listener is stopping.
    Stopped,
    ReceiveFailed,
    /// The upstream was silent for the idle timeout.
    TimedOut,
    /// A datagram could not be sent on to the client.
    SendFailed,
    /// A datagram was sent on to the client.
    Sent,
}

/// What the reader of a flow does next.
#[derive(Clone, Copy, PartialEq, Eq, Structural, Debug)]
pub enum ReaderStep {
    /// Go on reading.
    Continue,
    /// End, and release the socket.
    End,
    /// End: the flow was idle for the whole timeout and was evicted.
    Evicted,
}

/// Decide what the reader of the flow of `client` does next. A flow that is gone
/// from the table ends its reader.
pub fn read_on(
    table: &mut FlowTable,
    client: SocketAddr,
    event: ReaderEvent,
    now: u64,
    idle_timeout: Duration,
) -> (r: ReaderStep)
    requires
        old(table).wf(),
    ensures
        final(table).wf(),
        ({
            let flow = flow_of(old(table).flows@, client);
            match event {
                ReaderEvent::TimedOut => match flow {
                    None => r == ReaderStep::End && final(table).flows@ == old(table).flows@,
                    Some(f) => if f.last_active + idle_timeout.nanos <= now || idle_timeout.nanos
                        == 0 {
                        r == ReaderStep::Evicted && final(table).flows@ == without_flow(
                            old(table).flows@,
                            client,
                        )
                    } else {
                        r == ReaderStep::Continue && final(table).flows@ == old(table).flows@
                    },
                },
                ReaderEvent::Sent => match flow {
                    None => r == ReaderStep::End && final(table).flows@ == old(table).flows@,
                    Some(f) => r == ReaderStep::Continue && final(table).flows@ == with_flow(
                        old(table).flows@,
                        Flow { last_active: now, ..f },
                    ),
                },
                _ => r == ReaderStep::End && final(table).flows@ == old(table).flows@,
            }
        }),
{
    match event {
        ReaderEvent::TimedOut => match table.expire(client, now, idle_timeout) {
            FlowFate::Kept => ReaderStep::Continue,
            FlowFate::Evicted => ReaderStep::Evicted,
            FlowFate::Gone => ReaderStep::End,
        },
        ReaderEvent::Sent => if table.answered(client, now) {
            ReaderStep::Continue
        } else {
            ReaderStep::End
        },
        _ => ReaderStep::End,
    }
}

/// A service runs its course: an upgraded one takes over what the old process hands
/// to it; it prepares its sockets, serves with them, hands over when it is asked to
/// or stops at a shutdown, and closes its flows when the receive loops have ended.
pub proof fn a_service_runs_its_course(upgrade: bool, sockets: usize, handoff: bool)
    requires
        sockets > 0,
    ensures
        ({
            let (a, first) = service_step(upgrade, Phase::Created, ServiceEventView::Started);
            let (b, second) = if upgrade {
                service_step(upgrade, a, ServiceEventView::HandoffReceived)
            } else {
                (a, first)
            };
            let (c, third) = service_step(upgrade, b, ServiceEventView::SocketsReady(sockets));
            let (d, fourth) = if handoff {
                service_step(upgrade, c, ServiceEventView::HandoffRequested)
            } else {
                (c, third)
            };
            let (e, fifth) = service_step(
                upgrade,
                d,
                if handoff {
                    ServiceEventView::HandoffDone
                } else {
                    ServiceEventView::Shutdown
                },
            );
            let (f, sixth) = service_step(upgrade, e, ServiceEventView::WorkersStopped);
            &&& upgrade ==> first is Receive
            &&& second is Prepare
            &&& third == ServiceActionView::Serve(sockets)
            &&& handoff ==> fourth is Send
            &&& fifth is StopWorkers
            &&& sixth is CloseFlows
            &&& f == Phase::Done
        }),
{
}

/// A service without sockets does not serve: it ends the process where it was to
/// take over, and leaves the others running where it was not.
pub proof fn no_sockets_no_service(upgrade: bool)
    ensures
        ({
            let (a, failed) = service_step(
                upgrade,
                Phase::Preparing,
                ServiceEventView::SocketsFailed,
            );
            let (b, none) = service_step(
                upgrade,
                Phase::Preparing,
                ServiceEventView::SocketsReady(0),
            );
            &&& a == Phase::Done && b == Phase::Done
            &&& upgrade ==> failed is Exit && none is Exit
            &&& !upgrade ==> failed is Return && none is Return
        }),
{
}

} // verus!
