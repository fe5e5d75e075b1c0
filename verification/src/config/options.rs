//! What the options of a listener and of a health check set.
use crate::config::ast::{L4UpstreamView, LbPolicy, ListenAddress};
use crate::config::directives::lb_policy_line;
use crate::config::listeners::{
    l4_upstreams_from, tcp_config, tcp_line, udp_config, udp_line, TcpOptionsView, UdpOptionsView,
};
use crate::config::proxy::{health_line, health_spec, HealthOptions};
use crate::config::readings::{bytes, nanoseconds};
use crate::config::values::{count_value, l4_upstream};
use crate::time::Duration;
use vstd::prelude::*;

verus! {

/// What is set, or else the default.
pub open spec fn or_default<T>(set: Option<T>, default: T) -> T {
    if set is Some {
        set->0
    } else {
        default
    }
}

/// Whether a duration is this many seconds.
pub open spec fn is_seconds(d: Duration, n: int) -> bool {
    d.nanos == n * 1_000_000_000
}

/// A TCP listener has the options that are set, and the defaults for the others: it
/// takes turns, waits 5 seconds for a connection and 300 for traffic, and keeps
/// 10000 connections.
pub proof fn tcp_listeners_have_their_options(listen: ListenAddress, s: TcpOptionsView)
    ensures
        tcp_config(listen, s) matches Ok(t) ==> {
            &&& t.listen == listen
            &&& t.upstreams == s.upstreams
            &&& t.sni_routes == s.sni_routes
            &&& t.sni_fallback == s.sni_fallback
            &&& t.tls == s.tls
            &&& t.transparent == s.transparent
            &&& t.health_check == s.health_check
            &&& t.lb_policy == or_default(s.lb_policy, LbPolicy::RoundRobin)
            &&& t.max_connections == or_default(s.max_connections, 10_000)
            &&& s.connect_timeout is Some ==> t.connect_timeout == s.connect_timeout->0
            &&& s.connect_timeout is None ==> is_seconds(t.connect_timeout, 5)
            &&& s.idle_timeout is Some ==> t.idle_timeout == s.idle_timeout->0
            &&& s.idle_timeout is None ==> is_seconds(t.idle_timeout, 300)
        },
{
}

/// A TCP listener is accepted when it has upstreams or routes by server name, no
/// option that does not go with the way it routes, and timeouts that are not zero;
/// and in no other case.
pub proof fn tcp_listeners_are_consistent(listen: ListenAddress, s: TcpOptionsView)
    ensures
        tcp_config(listen, s) is Ok <==> {
            &&& s.sni_routes.len() > 0 ==> s.tls is None && s.upstreams.len() == 0
                && s.health_check is None && !s.transparent
            &&& s.sni_routes.len() == 0 ==> s.sni_fallback is None && s.upstreams.len() > 0 && !(
            s.transparent && s.tls is Some)
            &&& s.connect_timeout matches Some(d) ==> d.nanos > 0
            &&& s.idle_timeout matches Some(d) ==> d.nanos > 0
        },
{
}

/// A UDP listener has the options that are set, and the defaults for the others: it
/// takes turns, forgets a flow after 30 seconds, and keeps 50000 flows with
/// datagrams of up to 4096 bytes. It needs an upstream, and no limit may be zero.
pub proof fn udp_listeners_have_their_options(listen: ListenAddress, s: UdpOptionsView)
    ensures
        udp_config(listen, s) matches Ok(u) ==> {
            &&& u.listen == listen
            &&& u.upstreams == s.upstreams
            &&& u.lb_policy == or_default(s.lb_policy, LbPolicy::RoundRobin)
            &&& s.idle_timeout is Some ==> u.idle_timeout == s.idle_timeout->0
            &&& s.idle_timeout is None ==> is_seconds(u.idle_timeout, 30)
            &&& u.max_flows == or_default(s.max_flows, 50_000)
            &&& u.max_datagram_size == or_default(s.max_datagram_size, 4096)
            &&& u.recv_buffer == or_default(s.recv_buffer, 0)
            &&& u.send_buffer == or_default(s.send_buffer, 0)
        },
        udp_config(listen, s) is Ok <==> {
            &&& s.upstreams.len() > 0
            &&& s.idle_timeout matches Some(d) ==> d.nanos > 0
            &&& s.max_flows matches Some(n) ==> n > 0
            &&& s.max_datagram_size matches Some(n) ==> n > 0
        },
{
}

/// A health check has the options that are set, and the defaults for the others: a
/// probe every 5 seconds with 2 seconds to answer, three failures to take a backend
/// out and two successes to take it back. Neither time may be zero.
pub proof fn health_checks_have_their_options(s: HealthOptions)
    ensures
        health_spec(s) matches Ok(h) ==> {
            &&& s.interval is Some ==> h.interval == s.interval->0
            &&& s.timeout is Some ==> h.timeout == s.timeout->0
            &&& s.failures is Some ==> h.consecutive_failures == s.failures->0
            &&& s.successes is Some ==> h.consecutive_successes == s.successes->0
            &&& s.interval is None ==> is_seconds(h.interval, 5)
            &&& s.timeout is None ==> is_seconds(h.timeout, 2)
            &&& s.failures is None ==> h.consecutive_failures == 3
            &&& s.successes is None ==> h.consecutive_successes == 2
        },
        (s.interval matches Some(d) ==> d.nanos > 0) && (s.timeout matches Some(d) ==> d.nanos > 0)
            ==> health_spec(s) is Ok,
        (s.interval matches Some(d) && d.nanos == 0) || (s.timeout matches Some(d) && d.nanos == 0)
            ==> health_spec(s) is Err,
{
}

/// Whether a duration is what a line says.
pub open spec fn is_time_of(d: Option<Duration>, line: Seq<Seq<char>>) -> bool {
    d is Some && line.len() == 2 && nanoseconds(line[0], line[1]) == Some(d->0.nanos as nat)
}

/// Each line of a TCP listener sets its own option, to what it says, and no other;
/// an option that stands once does not stand twice.
pub proof fn tcp_lines_set_one_option(line: Seq<Seq<char>>, s: TcpOptionsView)
    requires
        line.len() > 0,
    ensures
        tcp_line(line, false, s) matches Ok(t) ==> {
            &&& line[0] == "connect_timeout"@ ==> s.connect_timeout is None && is_time_of(
                t.connect_timeout,
                line,
            ) && t == (TcpOptionsView { connect_timeout: t.connect_timeout, ..s })
            &&& line[0] == "idle_timeout"@ ==> s.idle_timeout is None && is_time_of(
                t.idle_timeout,
                line,
            ) && t == (TcpOptionsView { idle_timeout: t.idle_timeout, ..s })
            &&& line[0] == "max_connections"@ ==> s.max_connections is None
                && t.max_connections is Some && count_value(line, line[0]) == Ok::<
                usize,
                Seq<char>,
            >(t.max_connections->0) && t == (TcpOptionsView {
                max_connections: t.max_connections,
                ..s
            })
            &&& line[0] == "lb_policy"@ ==> s.lb_policy is None && t.lb_policy is Some
                && is_policy_word(line[1], t.lb_policy->0) && t == (TcpOptionsView {
                lb_policy: t.lb_policy,
                ..s
            })
            &&& line[0] == "fallback"@ ==> s.sni_fallback is None && t.sni_fallback is Some
                && l4_upstream(line[1]) == Ok::<L4UpstreamView, Seq<char>>(t.sni_fallback->0) && t
                == (TcpOptionsView { sni_fallback: t.sni_fallback, ..s })
            &&& line[0] == "transparent"@ ==> t == (TcpOptionsView { transparent: true, ..s })
            &&& line[0] == "to"@ ==> are_upstreams(s.upstreams, line, t.upstreams) && t == (
            TcpOptionsView { upstreams: t.upstreams, ..s })
        },
{
    lemma_tcp_words();
    lemma_policy(line);
    lemma_upstreams(line, 1, s.upstreams);
    if line.len() == 2 {
        assert(line == seq![line[0], line[1]]);
    }
}

/// Each line of a UDP listener sets its own option, to what it says, and no other.
pub proof fn udp_lines_set_one_option(line: Seq<Seq<char>>, s: UdpOptionsView)
    requires
        line.len() > 0,
    ensures
        udp_line(line, false, s) matches Ok(t) ==> {
            &&& line[0] == "idle_timeout"@ ==> s.idle_timeout is None && is_time_of(
                t.idle_timeout,
                line,
            ) && t == (UdpOptionsView { idle_timeout: t.idle_timeout, ..s })
            &&& line[0] == "max_flows"@ ==> s.max_flows is None && t.max_flows is Some
                && count_value(line, line[0]) == Ok::<usize, Seq<char>>(t.max_flows->0) && t == (
            UdpOptionsView { max_flows: t.max_flows, ..s })
            &&& line[0] == "max_datagram_size"@ ==> s.max_datagram_size is None
                && t.max_datagram_size is Some && bytes(line[1]) == Some(
                t.max_datagram_size->0 as nat,
            ) && t == (UdpOptionsView { max_datagram_size: t.max_datagram_size, ..s })
            &&& line[0] == "recv_buffer"@ ==> s.recv_buffer is None && t.recv_buffer is Some
                && bytes(line[1]) == Some(t.recv_buffer->0 as nat) && t == (UdpOptionsView {
                recv_buffer: t.recv_buffer,
                ..s
            })
            &&& line[0] == "send_buffer"@ ==> s.send_buffer is None && t.send_buffer is Some
                && bytes(line[1]) == Some(t.send_buffer->0 as nat) && t == (UdpOptionsView {
                send_buffer: t.send_buffer,
                ..s
            })
            &&& line[0] == "lb_policy"@ ==> s.lb_policy is None && t.lb_policy is Some
                && is_policy_word(line[1], t.lb_policy->0) && t == (UdpOptionsView {
                lb_policy: t.lb_policy,
                ..s
            })
            &&& line[0] == "to"@ ==> are_upstreams(s.upstreams, line, t.upstreams) && t == (
            UdpOptionsView { upstreams: t.upstreams, ..s })
        },
{
    lemma_udp_words();
    lemma_policy(line);
    lemma_upstreams(line, 1, s.upstreams);
    if line.len() == 2 {
        assert(line == seq![line[0], line[1]]);
    }
}

/// Each line of a health check sets its own option, to what it says, and no other.
pub proof fn health_lines_set_one_option(line: Seq<Seq<char>>, s: HealthOptions)
    requires
        line.len() > 0,
    ensures
        health_line(line, false, s) matches Ok(t) ==> {
            &&& line[0] == "interval"@ ==> s.interval is None && is_time_of(t.interval, line) && t
                == (HealthOptions { interval: t.interval, ..s })
            &&& line[0] == "timeout"@ ==> s.timeout is None && is_time_of(t.timeout, line) && t == (
            HealthOptions { timeout: t.timeout, ..s })
            &&& line[0] == "consecutive_failures"@ ==> s.failures is None && t.failures is Some
                && count_value(line, line[0]) == Ok::<usize, Seq<char>>(t.failures->0) && t == (
            HealthOptions { failures: t.failures, ..s })
            &&& line[0] == "consecutive_successes"@ ==> s.successes is None && t.successes is Some
                && count_value(line, line[0]) == Ok::<usize, Seq<char>>(t.successes->0) && t == (
            HealthOptions { successes: t.successes, ..s })
        },
{
    reveal_strlit("interval");
    reveal_strlit("timeout");
    reveal_strlit("consecutive_failures");
    reveal_strlit("consecutive_successes");
    assert("interval"@.len() == 8 && "timeout"@.len() == 7);
    assert("consecutive_failures"@.len() == 20 && "consecutive_successes"@.len() == 21);
    if line.len() == 2 {
        assert(line == seq![line[0], line[1]]);
    }
}

/// Whether a word names a policy.
pub open spec fn is_policy_word(word: Seq<char>, policy: LbPolicy) -> bool {
    match policy {
        LbPolicy::RoundRobin => word == "round_robin"@,
        LbPolicy::Random => word == "random"@,
        LbPolicy::IpHash => word == "ip_hash"@,
    }
}

/// Whether a `to` line adds the upstreams that it names to those before.
pub open spec fn are_upstreams(
    before: Seq<L4UpstreamView>,
    line: Seq<Seq<char>>,
    after: Seq<L4UpstreamView>,
) -> bool {
    &&& line.len() > 1
    &&& after.len() == before.len() + (line.len() - 1)
    &&& before.is_prefix_of(after)
    &&& forall|i: int|
        1 <= i < line.len() ==> l4_upstream(#[trigger] line[i]) == Ok::<L4UpstreamView, Seq<char>>(
            after[before.len() + i - 1],
        )
}

proof fn lemma_policy(line: Seq<Seq<char>>)
    ensures
        lb_policy_line(line) matches Ok(p) ==> line.len() == 2 && is_policy_word(line[1], p),
{
}

proof fn lemma_upstreams(line: Seq<Seq<char>>, i: int, done: Seq<L4UpstreamView>)
    requires
        1 <= i,
    ensures
        i <= line.len() ==> (l4_upstreams_from(line, i, done) matches Ok(all) ==> all.len()
            == done.len() + (line.len() - i) && done.is_prefix_of(all) && forall|k: int|
            i <= k < line.len() ==> l4_upstream(#[trigger] line[k]) == Ok::<
                L4UpstreamView,
                Seq<char>,
            >(all[done.len() + k - i])),
    decreases line.len() - i,
{
    if i < line.len() {
        if let Ok(u) = l4_upstream(line[i]) {
            let next = done.push(u);
            lemma_upstreams(line, i + 1, next);
            if let Ok(all) = l4_upstreams_from(line, i, done) {
                assert(all[done.len() as int] == next[done.len() as int]);
                assert forall|k: int| i <= k < line.len() implies l4_upstream(#[trigger] line[k])
                    == Ok::<L4UpstreamView, Seq<char>>(all[done.len() + k - i]) by {
                    if k > i {
                        assert(next.len() + k - (i + 1) == done.len() + k - i);
                    }
                }
                assert(done.is_prefix_of(all)) by {
                    assert forall|m: int| 0 <= m < done.len() implies all[m] == done[m] by {
                        assert(all[m] == next[m]);
                    }
                }
            }
        }
    }
}

proof fn lemma_tcp_words()
    ensures
        "to"@.len() == 2 && "lb_policy"@.len() == 9 && "connect_timeout"@.len() == 15,
        "idle_timeout"@.len() == 12 && "max_connections"@.len() == 15 && "sni"@.len() == 3,
        "fallback"@.len() == 8 && "tls"@.len() == 3 && "transparent"@.len() == 11,
        "connect_timeout"@ != "max_connections"@,
        "sni"@ != "tls"@,
{
    reveal_strlit("to");
    reveal_strlit("lb_policy");
    reveal_strlit("connect_timeout");
    reveal_strlit("idle_timeout");
    reveal_strlit("max_connections");
    reveal_strlit("sni");
    reveal_strlit("fallback");
    reveal_strlit("tls");
    reveal_strlit("transparent");
    assert("connect_timeout"@[0] != "max_connections"@[0]);
    assert("sni"@[0] != "tls"@[0]);
}

proof fn lemma_udp_words()
    ensures
        "to"@.len() == 2 && "lb_policy"@.len() == 9 && "idle_timeout"@.len() == 12,
        "max_flows"@.len() == 9 && "max_datagram_size"@.len() == 17,
        "recv_buffer"@.len() == 11 && "send_buffer"@.len() == 11,
        "lb_policy"@ != "max_flows"@,
        "recv_buffer"@ != "send_buffer"@,
{
    reveal_strlit("to");
    reveal_strlit("lb_policy");
    reveal_strlit("idle_timeout");
    reveal_strlit("max_flows");
    reveal_strlit("max_datagram_size");
    reveal_strlit("recv_buffer");
    reveal_strlit("send_buffer");
    assert("lb_policy"@[0] != "max_flows"@[0]);
    assert("recv_buffer"@[0] != "send_buffer"@[0]);
}

} // verus!
