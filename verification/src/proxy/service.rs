//! The legacy session: which connection and tunnel parameters are held, when the
//! packet poller keeps going, and what it does with each read.
use vstd::prelude::*;
use vstd::utf8::encode_utf8;
use crate::model::ProxyServer;
use crate::wire::{be_u32, put_all};
use crate::proxy::proto::write::{legacy_auth_frame, AuthorizationPacket, Packet};
use crate::vpn::protocol::write::heartbeat_frame;

verus! {

/// What the legacy reader does after the eight header bytes of an inbound frame.
#[derive(Debug, Clone, Copy, PartialEq, Eq, Structural)]
pub enum HeaderAction {
    /// Read this many payload bytes and hand them on.
    ReadPayload(usize),
    /// A keep-alive answer (`1 2 0 10 ...`): drain what is pending and hand nothing on.
    DiscardControl,
}

/// Whether a header starts with the keep-alive answer `1 2 0 10`.
pub open spec fn is_keepalive_header(h: Seq<u8>) -> bool {
    h[0] == 1 && h[1] == 2 && h[2] == 0 && h[3] == 10
}

/// The big-endian length in bytes 2 and 3 of a header.
pub open spec fn header_length(h: Seq<u8>) -> int {
    h[2] * 256 + h[3]
}

/// Decides what follows an inbound header: any header but the keep-alive answer
/// announces a payload of its length field minus the eight header bytes.
pub fn classify_header(header: &[u8; 8]) -> (r: HeaderAction)
    requires
        is_keepalive_header(header@) || header_length(header@) >= 8,
    ensures
        is_keepalive_header(header@) ==> r == HeaderAction::DiscardControl,
        !is_keepalive_header(header@) ==> r == HeaderAction::ReadPayload((header_length(header@) - 8) as usize),
{
    if header[0] != 1 || header[1] != 2 || header[2] != 0 || header[3] != 10 {
        let len: u16 = (header[3] as u16) + (header[2] as u16) * 256 - 8;
        HeaderAction::ReadPayload(len as usize)
    } else {
        HeaderAction::DiscardControl
    }
}

/// A heartbeat that the server echoes back is read as a four-byte payload
/// starting with 3, which the poller answers with a heartbeat instead of handing it on.
pub proof fn lemma_heartbeat_echo_not_delivered()
    ensures
        !is_keepalive_header(heartbeat_frame()),
        header_length(heartbeat_frame()) - 8 == 4,
        is_heartbeat_payload(heartbeat_frame().subrange(8, 12)),
        heartbeat_frame().len() == 12,
{
    assert(heartbeat_frame().subrange(8, 12) =~= seq![3u8, 0u8, 0u8, 0u8]);
}

/// What one read of the legacy poller returned.
pub enum PollResult {
    /// The payload of an inbound frame.
    Packet(Vec<u8>),
    /// Nothing was handed on.
    Idle,
    /// The read failed with this message.
    Failed(String),
}

/// What the legacy poller does next.
pub enum PollAction {
    /// Hand the packet and its size to the callback.
    Deliver { size: u32, data: Vec<u8> },
    /// Send a heartbeat.
    Heartbeat,
    /// Send a heartbeat, then wait 200 ms.
    HeartbeatAndWait,
    /// Hand size 0 and the error message's bytes to the callback, then stop polling.
    ReportAndStop { data: Vec<u8> },
}

/// A payload of exactly four bytes, or one whose first byte is 3, is a heartbeat.
pub open spec fn is_heartbeat_payload(d: Seq<u8>) -> bool {
    d.len() == 4 || d[0] == 3
}

/// Only the keep-alive echo is taken for a heartbeat: a payload is one exactly when
/// it is four bytes long or starts with the byte 3. In particular every IPv4 or IPv6
/// packet (first byte 0x4_ or 0x6_) of any length but four is handed on.
pub proof fn lemma_heartbeat_payloads(d: Seq<u8>)
    requires
        d.len() > 0,
    ensures
        is_heartbeat_payload(d) <==> (d.len() == 4 || d[0] == 3),
        d.len() != 4 && (d[0] / 16 == 4 || d[0] / 16 == 6) ==> !is_heartbeat_payload(d),
{
}

/// Decides what the legacy poller does with one read.
pub fn poll_action(result: PollResult) -> (r: PollAction)
    requires
        result matches PollResult::Packet(d) ==> d@.len() > 0,
    ensures
        match result {
            PollResult::Packet(d) => if is_heartbeat_payload(d@) {
                r is Heartbeat
            } else {
                r matches PollAction::Deliver { size, data } && data@ == d@ && size as int == d@.len()
                    % 0x1_0000_0000
            },
            PollResult::Idle => r is HeartbeatAndWait,
            PollResult::Failed(msg) => r matches PollAction::ReportAndStop { data } && data@ == encode_utf8(
                msg@,
            ),
        },
        match result {
            PollResult::Packet(d) => {
                &&& d@.len() != 4 && d@[0] != 3 ==> (r matches PollAction::Deliver { data, .. } && data@ == d@)
                &&& d@.len() == 4 || d@[0] == 3 ==> r is Heartbeat
            },
            _ => true,
        },
{
    match result {
        PollResult::Packet(data) => {
            let len = data.len();
            if len != 4 && data[0] != 3 {
                PollAction::Deliver { size: ((len as u64) % 0x1_0000_0000u64) as u32, data }
            } else {
                PollAction::Heartbeat
            }
        },
        PollResult::Idle => PollAction::HeartbeatAndWait,
        PollResult::Failed(msg) => {
            let mut data: Vec<u8> = Vec::new();
            put_all(&mut data, msg.as_str().as_bytes());
            PollAction::ReportAndStop { data }
        },
    }
}

/// The answer to a raw read of `data`: its length as four big-endian bytes, then the bytes.
pub fn frame_received(data: &[u8]) -> (r: Vec<u8>)
    requires
        data@.len() <= u32::MAX,
    ensures
        r@ == be_u32(data@.len() as u32) + data@,
{
    let n: u32 = data.len() as u32;
    let mut r: Vec<u8> = Vec::new();
    put_all(&mut r, &[(n / 0x100_0000) as u8, ((n / 0x1_0000) % 256) as u8, ((n / 256) % 256) as u8, (n % 256) as u8]);
    put_all(&mut r, data);
    proof {
        assert(r@ =~= be_u32(n) + data@);
    }
    r
}

/// The answer to a raw read that could not be served.
pub fn receive_failed() -> (r: Vec<u8>)
    ensures
        r@ == seq![0u8, 0u8, 0u8, 0u8],
{
    vec![0, 0, 0, 0]
}

/// A copy of the tunnel parameters.
pub fn copy_server(p: &ProxyServer) -> (r: ProxyServer)
    ensures
        r == *p,
{
    ProxyServer {
        address: p.address.clone(),
        mask: p.mask.clone(),
        gateway: p.gateway.clone(),
        dns: p.dns.clone(),
        wins: p.wins.clone(),
    }
}

/// What ending the session does: it answers whether a connection was held, and
/// afterwards none is; tunnel parameters are dropped with the connection and kept
/// when there was none; the poller's stop request is untouched.
pub open spec fn stopped<S>(before: ServiceState<S>, r: bool, after: ServiceState<S>) -> bool {
    &&& r == before.connected()
    &&& !after.connected()
    &&& r ==> after.server() is None
    &&& !r ==> after.server() == before.server()
    &&& after.stop_requested() == before.stop_requested()
}

/// Ending a session twice: the second call finds nothing to end, answers false and
/// changes nothing, and the service is reported unavailable after either call.
pub proof fn lemma_stop_twice<S>(a: ServiceState<S>, r1: bool, b: ServiceState<S>, r2: bool, c: ServiceState<S>)
    requires
        stopped(a, r1, b),
        stopped(b, r2, c),
    ensures
        !r2,
        !b.connected() && !c.connected(),
        c.server() == b.server(),
        c.stop_requested() == a.stop_requested(),
{
}

/// Whether `b` holds the same tunnel parameters as `a`: every operation of the
/// session keeps them, except ending it and recording another login.
pub open spec fn keeps_parameters<S>(a: ServiceState<S>, b: ServiceState<S>) -> bool {
    b.server() == a.server()
}

/// What the poller does at the top of a turn.
#[derive(Debug, Clone, Copy, PartialEq, Eq, Structural)]
pub enum PollTurn {
    /// Read the next frame.
    Read,
    /// Leave the loop; the stop request has been cleared.
    Exit,
}

/// The check at the top of a turn: with a stop request the run ends and the request
/// is cleared, keeping the connection and parameters; without one nothing changes.
pub open spec fn turned<S>(a: ServiceState<S>, r: PollTurn, b: ServiceState<S>) -> bool {
    if a.stop_requested() {
        &&& r == PollTurn::Exit
        &&& !b.stop_requested()
        &&& b.held() == a.held()
        &&& keeps_parameters(a, b)
    } else {
        r == PollTurn::Read && b == a
    }
}

/// How many times an action calls the packet callback.
pub open spec fn callbacks(a: PollAction) -> nat {
    match a {
        PollAction::Deliver { .. } => 1,
        PollAction::ReportAndStop { .. } => 1,
        _ => 0,
    }
}

/// A login recorded with `finish_start` is what the session reads back for as long
/// as its steps keep the parameters, that is until the session is ended or another
/// login is recorded.
pub proof fn lemma_parameters_persist<S>(trace: Seq<ServiceState<S>>, p: ProxyServer, dns: String)
    requires
        trace.len() > 0,
        trace[0].server() == Some(ProxyServer { dns, ..p }),
        forall|i: int| 0 <= i < trace.len() - 1 ==> keeps_parameters(#[trigger] trace[i], trace[i + 1]),
    ensures
        forall|i: int| 0 <= i < trace.len() ==> (#[trigger] trace[i]).server() == Some(ProxyServer { dns, ..p }),
    decreases trace.len(),
{
    if trace.len() > 1 {
        let front = trace.drop_last();
        assert forall|i: int| 0 <= i < front.len() - 1 implies keeps_parameters(#[trigger] front[i], front[i + 1]) by {
            assert(keeps_parameters(trace[i], trace[i + 1]));
        }
        lemma_parameters_persist(front, p, dns);
        assert forall|i: int| 0 <= i < trace.len() implies (#[trigger] trace[i]).server() == Some(
            ProxyServer { dns, ..p },
        ) by {
            if i < trace.len() - 1 {
                assert(trace[i] == front[i]);
            } else {
                assert(front[i - 1] == trace[i - 1]);
                assert(keeps_parameters(trace[i - 1], trace[i]));
            }
        }
    }
}

/// Asking the poller to stop ends its run: the read in progress yields one action,
/// which calls the packet callback at most once; through any steps that keep the
/// request, the next turn reads nothing more, leaves the loop and clears the request.
pub proof fn lemma_stop_ends_poller<S>(
    trace: Seq<ServiceState<S>>,
    in_flight: PollAction,
    turn: PollTurn,
    after: ServiceState<S>,
)
    requires
        trace.len() > 0,
        trace[0].stop_requested(),
        forall|i: int| 0 <= i < trace.len() - 1 ==> (#[trigger] trace[i]).stop_requested() ==> trace[i + 1].stop_requested(),
        turned(trace.last(), turn, after),
    ensures
        callbacks(in_flight) <= 1,
        turn == PollTurn::Exit,
        !after.stop_requested(),
        keeps_parameters(trace.last(), after),
    decreases trace.len(),
{
    if trace.len() > 1 {
        let front = trace.drop_last();
        assert forall|i: int| 0 <= i < front.len() - 1 implies (#[trigger] front[i]).stop_requested()
            ==> front[i + 1].stop_requested() by {
            assert(front[i] == trace[i] && front[i + 1] == trace[i + 1]);
        }
        lemma_stop_requested_kept(front);
        assert(front.last() == trace[trace.len() - 2]);
        assert(trace[trace.len() - 2].stop_requested() ==> trace[trace.len() - 1].stop_requested());
    }
}

proof fn lemma_stop_requested_kept<S>(trace: Seq<ServiceState<S>>)
    requires
        trace.len() > 0,
        trace[0].stop_requested(),
        forall|i: int| 0 <= i < trace.len() - 1 ==> (#[trigger] trace[i]).stop_requested() ==> trace[i + 1].stop_requested(),
    ensures
        trace.last().stop_requested(),
    decreases trace.len(),
{
    if trace.len() > 1 {
        let front = trace.drop_last();
        assert forall|i: int| 0 <= i < front.len() - 1 implies (#[trigger] front[i]).stop_requested()
            ==> front[i + 1].stop_requested() by {
            assert(front[i] == trace[i] && front[i + 1] == trace[i + 1]);
        }
        lemma_stop_requested_kept(front);
        assert(front.last() == trace[trace.len() - 2]);
        assert(trace[trace.len() - 2].stop_requested() ==> trace[trace.len() - 1].stop_requested());
    }
}

/// The legacy session: the open connection (of type `S`), the tunnel parameters
/// granted on it, and the flag that asks the packet poller to stop.
pub struct ServiceState<S> {
    proxy: Option<S>,
    proxy_server: Option<ProxyServer>,
    poller_signal: bool,
}

impl<S> ServiceState<S> {
    /// The connection held, if any.
    pub closed spec fn held(&self) -> Option<S> {
        self.proxy
    }

    /// Whether a connection is held.
    pub open spec fn connected(&self) -> bool {
        self.held() is Some
    }

    /// The tunnel parameters held.
    pub closed spec fn server(&self) -> Option<ProxyServer> {
        self.proxy_server
    }

    /// Whether the poller has been asked to stop.
    pub closed spec fn stop_requested(&self) -> bool {
        self.poller_signal
    }

    pub fn new() -> (r: Self)
        ensures
            !r.connected(),
            r.server() is None,
            !r.stop_requested(),
    {
        Self { proxy: None, proxy_server: None, poller_signal: false }
    }

    /// Whether a connection is held.
    pub fn service_available(&self) -> (r: bool)
        ensures
            r == self.connected(),
    {
        self.proxy.is_some()
    }

    /// Whether a new session may start: only when no connection is held.
    pub fn may_start(&self) -> (r: bool)
        ensures
            r == !self.connected(),
    {
        self.proxy.is_none()
    }

    /// Holds a freshly opened connection.
    pub fn attach(&mut self, stream: S)
        requires
            !old(self).connected(),
        ensures
            final(self).held() == Some(stream),
            keeps_parameters(*old(self), *final(self)),
            final(self).stop_requested() == old(self).stop_requested(),
    {
        self.proxy = Some(stream);
    }

    /// Lends the connection out; `restore` gives it back.
    pub fn take_stream(&mut self) -> (r: Option<S>)
        ensures
            r == old(self).held(),
            !final(self).connected(),
            keeps_parameters(*old(self), *final(self)),
            final(self).stop_requested() == old(self).stop_requested(),
    {
        self.proxy.take()
    }

    /// Gives back a lent connection.
    pub fn restore(&mut self, stream: S)
        ensures
            final(self).held() == Some(stream),
            keeps_parameters(*old(self), *final(self)),
            final(self).stop_requested() == old(self).stop_requested(),
    {
        self.proxy = Some(stream);
    }

    /// Records the tunnel parameters of a finished login, with the DNS server of the
    /// first WebVPN gateway in place of the one the tunnel reported.
    pub fn publish(&mut self, server: ProxyServer, dns: String)
        ensures
            final(self).server() == Some(ProxyServer { dns, ..server }),
            final(self).held() == old(self).held(),
            final(self).stop_requested() == old(self).stop_requested(),
    {
        let mut server = server;
        server.dns = dns;
        self.proxy_server = Some(server);
    }

    /// A copy of the tunnel parameters held.
    pub fn proxy_server(&self) -> (r: Option<ProxyServer>)
        ensures
            r == self.server(),
    {
        match &self.proxy_server {
            Some(p) => Some(copy_server(p)),
            None => None,
        }
    }

    /// Ends the session: returns false when no connection is held; otherwise drops
    /// the connection and the tunnel parameters and returns true.
    pub fn stop_service(&mut self) -> (r: bool)
        requires
            old(self).connected() ==> old(self).server() is Some,
        ensures
            stopped(*old(self), r, *final(self)),
    {
        if self.proxy.is_none() {
            false
        } else {
            self.proxy_server = None;
            self.proxy = None;
            true
        }
    }

    /// Whether the connection is held without tunnel parameters, the state in
    /// which ending the session fails.
    pub fn half_open(&self) -> (r: bool)
        ensures
            r == (self.connected() && self.server() is None),
    {
        self.proxy.is_some() && self.proxy_server.is_none()
    }

    /// After WebVPN granted a session token: without a gateway there is nothing to
    /// connect to; otherwise the login frame to send and the DNS server of the
    /// first gateway, which replaces the one the tunnel will report.
    pub fn login_for(token: String, user: String, first_gateway_dns: Option<String>) -> (r: Option<(Vec<u8>, String)>)
        requires
            first_gateway_dns is Some ==> 19 + encode_utf8(user@).len() % 65536 + encode_utf8(token@).len() % 65536
                <= u16::MAX,
        ensures
            first_gateway_dns is None ==> r is None,
            first_gateway_dns matches Some(d) ==> r matches Some((frame, dns)) && dns == d && frame@
                == legacy_auth_frame(encode_utf8(user@), encode_utf8(token@)),
    {
        match first_gateway_dns {
            None => None,
            Some(dns) => {
                let packet = AuthorizationPacket::new(token, user);
                Some((packet.build(), dns))
            },
        }
    }

    /// After the login answer was read: a parsed answer is recorded with the
    /// gateway's DNS server and the start succeeds; otherwise it fails and the
    /// connection stays held.
    pub fn finish_start(&mut self, reply: Option<ProxyServer>, dns: String) -> (r: bool)
        ensures
            r == reply is Some,
            reply matches Some(p) ==> final(self).server() == Some(ProxyServer { dns, ..p }),
            reply is None ==> final(self).server() == old(self).server(),
            final(self).held() == old(self).held(),
            final(self).stop_requested() == old(self).stop_requested(),
    {
        match reply {
            Some(p) => {
                self.publish(p, dns);
                true
            },
            None => false,
        }
    }

    /// Asks the poller to stop.
    pub fn stop_polling_packet(&mut self)
        ensures
            final(self).stop_requested(),
            final(self).held() == old(self).held(),
            keeps_parameters(*old(self), *final(self)),
    {
        self.poller_signal = true;
    }

    /// Whether the poller keeps going: until it is asked to stop.
    pub fn keep_polling(&self) -> (r: bool)
        ensures
            r == !self.stop_requested(),
    {
        !self.poller_signal
    }

    /// The check at the top of each turn of the poller: a stop request ends the
    /// run and is cleared; otherwise the poller reads.
    pub fn poll_turn(&mut self) -> (r: PollTurn)
        ensures
            turned(*old(self), r, *final(self)),
    {
        if self.poller_signal {
            self.poller_signal = false;
            PollTurn::Exit
        } else {
            PollTurn::Read
        }
    }

    /// Clears the stop request once the poller has finished.
    pub fn polling_finished(&mut self)
        ensures
            !final(self).stop_requested(),
            final(self).held() == old(self).held(),
            keeps_parameters(*old(self), *final(self)),
    {
        self.poller_signal = false;
    }

    /// Before a new poller starts: if one is already running and was not asked to
    /// stop, the session is ended. Returns whether it was.
    pub fn prepare_polling(&mut self, poller_running: bool) -> (r: bool)
        requires
            poller_running && !old(self).stop_requested() && old(self).connected() ==> old(self).server() is Some,
        ensures
            r == (poller_running && !old(self).stop_requested() && old(self).connected()),
            (poller_running && !old(self).stop_requested()) ==> !final(self).connected() && (old(self).connected()
                ==> final(self).server() is None),
            !(poller_running && !old(self).stop_requested()) ==> *final(self) == *old(self),
            final(self).stop_requested() == old(self).stop_requested(),
    {
        if poller_running && !self.poller_signal {
            self.stop_service()
        } else {
            false
        }
    }
}

} // verus!
