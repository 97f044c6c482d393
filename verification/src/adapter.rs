//! The protocol state machine: connections, their buffers, and the packets
//! that pass between the stack and its peer.
//!
//! Reading and writing the transport is the caller's part. Where a packet has
//! to be sent, a function returns it; where bytes have arrived, a function
//! takes them.

use std::collections::{HashMap, HashSet};

use vstd::prelude::*;
use vstd::std_specs::iter::IteratorSpec;

use crate::bytes::{get_be16, put_slice, take_front};
use crate::connection::{
    backoff_ms, elapsed, elapsed_nanos, opening, rto_ms, Connection, ConnectionState,
    ConnectionStatus, NANOS_PER_MS,
};
use crate::error::{Error, ErrorKind};
use crate::packets::{
    tcp_parse, Datagram, IpAddr, IpParseError, Ipv4Packet, Ipv6Packet, ProtocolNumber,
    TcpFlags, TcpPacket, UdpDatagram,
};
use crate::random::random_u32;
use crate::stack::{
    ipv4_frame, lemma_replace, lemma_same_packets, FrameFields, Stack, DEFAULT_MSS, HOP_LIMIT,
    READ_BUF, WINDOW,
};

verus! {

broadcast use vstd::std_specs::hash::group_hash_axioms;

/// How long a connection waits for its SYN-ACK, in nanoseconds.
pub const SYN_TIMEOUT: u64 = 10_000_000_000;

/// What an IP packet carries.
#[derive(Debug)]
pub struct Frame {
    pub protocol: u8,
    pub payload: Vec<u8>,
}

impl View for Frame {
    type V = FrameFields;

    open spec fn view(&self) -> FrameFields {
        FrameFields { protocol: self.protocol, payload: self.payload@ }
    }
}

/// What reading the next IP packet comes to.
#[derive(Debug)]
pub enum ReadStep {
    /// A packet has arrived: what it carries, and its bytes as they came.
    Packet { frame: Frame, raw: Vec<u8> },
    /// More bytes are needed, and there is room for so many.
    Need(usize),
    /// The bytes do not begin with a packet.
    Invalid(Error),
}

/// A connection that is being opened: its port on this side, when its opening
/// began, when its SYN was last sent, and how often it was repeated.
#[derive(Debug, Clone, Copy)]
pub struct Connecting {
    pub host_port: u16,
    pub started: u64,
    pub last_syn: u64,
    pub retries: u32,
}

impl Connecting {
    /// The first SYN was sent just now.
    pub fn new(host_port: u16, now: u64) -> (job: Connecting)
        ensures
            job == (Connecting { host_port, started: now, last_syn: now, retries: 0 }),
    {
        Connecting { host_port, started: now, last_syn: now, retries: 0 }
    }

    /// The job after the SYN was repeated.
    pub open spec fn after_syn(self, now: u64) -> Connecting {
        Connecting {
            last_syn: now,
            retries: if self.retries < u32::MAX {
                (self.retries + 1) as u32
            } else {
                self.retries
            },
            ..self
        }
    }

    /// The SYN was repeated just now.
    pub fn syn_repeated(&mut self, now: u64)
        ensures
            *final(self) == old(self).after_syn(now),
    {
        self.last_syn = now;
        if self.retries < u32::MAX {
            self.retries += 1;
        }
    }
}

/// How a connection that is being opened has come on.
#[derive(Debug)]
pub enum ConnectStep {
    /// The peer has answered; the connection is open.
    Connected,
    /// The connection was given up and is forgotten.
    Failed(Error),
    /// The peer is silent: the SYN is to be sent again.
    SendSyn(Vec<u8>),
    /// Nothing is to be done yet.
    Wait,
}

/// What a look at a connection that is being opened does and returns.
pub open spec fn connect_step(
    s: Stack,
    job: Connecting,
    now: u64,
    after: Stack,
    step: ConnectStep,
) -> bool {
    let port = job.host_port;
    if !s.conns.contains_key(port) {
        step is Wait && after == s
    } else {
        match s.conns[port].status {
            ConnectionStatus::Connected => step is Connected && after == s,
            ConnectionStatus::Error(kind) => {
                &&& step matches ConnectStep::Failed(e)
                &&& e.is(kind, "failed to connect"@)
                &&& after == s.without(port)
            },
            ConnectionStatus::WaitingForSyn => if elapsed(job.started, now) > SYN_TIMEOUT {
                &&& step matches ConnectStep::Failed(e)
                &&& e.is(ErrorKind::TimedOut, "SYN timed out"@)
                &&& after == s.without(port)
            } else if elapsed(job.last_syn, now) >= rto_ms(job.retries as nat) * NANOS_PER_MS {
                &&& step matches ConnectStep::SendSyn(packet)
                &&& packet@ == s.syn_packet(s.conns[port])
                &&& after == s
            } else {
                step is Wait && after == s
            },
        }
    }
}

/// A userspace TCP stack.
#[derive(Debug)]
pub struct Adapter {
    host_ip: IpAddr,
    peer_ip: IpAddr,
    states: HashMap<u16, ConnectionState>,
    dropped: Vec<u16>,
    read_buf: Vec<u8>,
    mss: usize,
    udp_ports: HashSet<u16>,
    udp_inbox: Vec<UdpDatagram>,
}

spec fn connections(states: Map<u16, ConnectionState>) -> Map<u16, Connection> {
    states.map_values(|s: ConnectionState| s@)
}

spec fn datagrams(inbox: Seq<UdpDatagram>) -> Seq<Datagram> {
    inbox.map_values(|d: UdpDatagram| d@)
}

impl View for Adapter {
    type V = Stack;

    closed spec fn view(&self) -> Stack {
        Stack {
            host_ip: self.host_ip,
            peer_ip: self.peer_ip,
            conns: connections(self.states@),
            dropped: self.dropped@,
            inbox: self.read_buf@,
            mss: self.mss as nat,
            udp_ports: self.udp_ports@,
            datagrams: datagrams(self.udp_inbox@),
        }
    }
}

/// A stack without connections.
pub open spec fn fresh(host_ip: IpAddr, peer_ip: IpAddr) -> Stack {
    Stack {
        host_ip,
        peer_ip,
        conns: Map::empty(),
        dropped: Seq::empty(),
        inbox: Seq::empty(),
        mss: DEFAULT_MSS as nat,
        udp_ports: Set::empty(),
        datagrams: Seq::empty(),
    }
}

/// How many steps up from one port, past the highest to zero, another lies.
pub open spec fn steps_up(first: u16, port: u16) -> int {
    (port - first) % 0x1_0000
}

/// The first port, from a given one up, that is not taken.
pub open spec fn next_free(taken: Set<u16>, first: u16, port: u16) -> bool {
    &&& !taken.contains(port)
    &&& forall|p: u16| steps_up(first, p) < steps_up(first, port) ==> #[trigger] taken.contains(p)
}

/// The error of an operation on a port without a connection.
pub open spec fn not_connected(e: Error) -> bool {
    e.is(ErrorKind::NotConnected, "not connected"@)
}

fn not_connected_error() -> (e: Error)
    ensures
        not_connected(e),
{
    Error::new(ErrorKind::NotConnected, "not connected")
}

impl Adapter {
    /// A stack without connections, between two addresses.
    pub fn new(host_ip: IpAddr, peer_ip: IpAddr) -> (adapter: Adapter)
        ensures
            adapter@ == fresh(host_ip, peer_ip),
            adapter@.wf(),
    {
        let adapter = Adapter {
            host_ip,
            peer_ip,
            states: HashMap::new(),
            dropped: Vec::new(),
            read_buf: Vec::new(),
            mss: DEFAULT_MSS,
            udp_ports: HashSet::new(),
            udp_inbox: Vec::new(),
        };
        assert(adapter@ =~= fresh(host_ip, peer_ip));
        adapter
    }

    /// Set the Maximum Segment Size (MSS) for outbound TCP segments.
    ///
    /// This should be `MTU - 40 (IPv6 header) - 20 (TCP header)` for the
    /// tunnel you are using. Defaults to 1220 (based on IPv6 min MTU 1280).
    pub fn set_mss(&mut self, mss: usize) -> (this: &mut Self)
        ensures
            this@ == (Stack { mss: mss as nat, ..old(self)@ }),
            *final(self) == *final(this),
    {
        self.mss = mss;
        self
    }

    /// The Maximum Segment Size for outbound TCP segments.
    pub fn mss(&self) -> (mss: usize)
        ensures
            mss == self@.mss,
    {
        self.mss
    }

    /// The address of this side.
    pub fn host_ip(&self) -> (ip: IpAddr)
        ensures
            ip == self@.host_ip,
    {
        self.host_ip
    }

    /// The address of the peer.
    pub fn peer_ip(&self) -> (ip: IpAddr)
        ensures
            ip == self@.peer_ip,
    {
        self.peer_ip
    }

    // -----------------------------------------------------------------------
    // The table of connections
    // -----------------------------------------------------------------------

    /// Whether a connection is open on the port.
    pub fn contains(&self, host_port: u16) -> (r: bool)
        ensures
            r == self@.conns.contains_key(host_port),
    {
        self.states.contains_key(&host_port)
    }

    pub(crate) fn get(&self, host_port: u16) -> (r: Option<&ConnectionState>)
        ensures
            match r {
                Some(state) => self@.conns.contains_key(host_port) && state@
                    == self@.conns[host_port],
                None => !self@.conns.contains_key(host_port),
            },
    {
        self.states.get(&host_port)
    }

    pub(crate) fn take(&mut self, host_port: u16) -> (r: Option<ConnectionState>)
        ensures
            match r {
                Some(state) => old(self)@.conns.contains_key(host_port) && state@
                    == old(self)@.conns[host_port] && final(self)@ == old(self)@.without(host_port),
                None => !old(self)@.conns.contains_key(host_port) && final(self)@ == old(self)@,
            },
    {
        let r = self.states.remove(&host_port);
        assert(self@ =~= old(self)@.without(host_port));
        proof {
            if r is None {
                assert(self@ =~= old(self)@);
            }
        }
        r
    }

    pub(crate) fn put(&mut self, host_port: u16, state: ConnectionState)
        ensures
            final(self)@ == old(self)@.with(host_port, state@),
    {
        let _ = self.states.insert(host_port, state);
        assert(self@ =~= old(self)@.with(host_port, state@));
    }

    /// The ports with a connection, each once, in no particular order.
    pub fn host_ports(&self) -> (ports: Vec<u16>)
        ensures
            ports@.no_duplicates(),
            ports@.to_set() == self@.conns.dom(),
    {
        let mut ports: Vec<u16> = Vec::new();
        let keys = self.states.keys();
        let ghost all = keys.remaining().unref();
        for port in it: keys
            invariant
                it.seq().unref() == all,
                ports@ == all.take(it.index()),
        {
            ports.push(*port);
            assert(all.take(it.index() + 1) =~= all.take(it.index()).push(*port));
        }
        assert(ports@ =~= all);
        assert(all.to_set() =~= self.states@.dom());
        assert(self@.conns.dom() =~= self.states@.dom());
        ports
    }

    // -----------------------------------------------------------------------
    // Packets to the peer
    // -----------------------------------------------------------------------

    fn ip_wrap(&self, protocol: ProtocolNumber, payload: &[u8]) -> (packet: Vec<u8>)
        requires
            self@.one_family(),
        ensures
            packet@ == self@.packet(protocol, payload@),
    {
        match self.host_ip {
            IpAddr::V4(source) => match self.peer_ip {
                IpAddr::V4(destination) => Ipv4Packet::create(
                    source,
                    destination,
                    protocol,
                    HOP_LIMIT,
                    payload,
                ),
                IpAddr::V6(_) => Vec::new(),
            },
            IpAddr::V6(source) => match self.peer_ip {
                IpAddr::V6(destination) => Ipv6Packet::create(
                    source,
                    destination,
                    protocol,
                    HOP_LIMIT,
                    payload,
                ),
                IpAddr::V4(_) => Vec::new(),
            },
        }
    }

    fn segment(
        &self,
        state: &ConnectionState,
        seq: u32,
        ack: u32,
        flags: TcpFlags,
        data: &[u8],
    ) -> (packet: Vec<u8>)
        requires
            self@.one_family(),
        ensures
            packet@ == self@.tcp_packet(state@, seq, ack, flags, data@),
    {
        reveal(Stack::tcp_packet);
        let tcp = TcpPacket::create(
            self.host_ip,
            self.peer_ip,
            state.host_port(),
            state.peer_port(),
            seq,
            ack,
            flags,
            WINDOW,
            data,
        );
        self.ip_wrap(ProtocolNumber::Tcp, tcp.as_slice())
    }

    fn control_segment(
        &self,
        state: &ConnectionState,
        seq: u32,
        ack: u32,
        flags: TcpFlags,
    ) -> (packet: Vec<u8>)
        requires
            self@.one_family(),
        ensures
            packet@ == self@.tcp_packet(state@, seq, ack, flags, Seq::empty()),
    {
        let nothing: [u8; 0] = [];
        assert(nothing@ =~= Seq::empty());
        self.segment(state, seq, ack, flags, &nothing)
    }

    pub(crate) fn data_segment(&self, state: &ConnectionState, seq: u32, data: &[u8]) -> (packet:
        Vec<u8>)
        requires
            self@.one_family(),
        ensures
            packet@ == self@.data_packet(state@, seq, data@),
    {
        let flags = TcpFlags { psh: true, ack: true, ..Default::default() };
        self.segment(state, seq, state.ack(), flags, data)
    }

    /// The SYN of a connection.
    pub fn send_syn(&self, host_port: u16) -> (r: Result<Vec<u8>, Error>)
        requires
            self@.can_send(),
        ensures
            match r {
                Ok(packet) => self@.conns.contains_key(host_port) && packet@ == self@.syn_packet(
                    self@.conns[host_port],
                ),
                Err(e) => !self@.conns.contains_key(host_port) && not_connected(e),
            },
    {
        match self.get(host_port) {
            Some(state) => {
                let flags = TcpFlags { syn: true, ..Default::default() };
                Ok(self.control_segment(state, state.seq(), 0, flags))
            },
            None => Err(not_connected_error()),
        }
    }

    /// The ACK of what has arrived on a connection.
    pub fn ack(&self, host_port: u16) -> (r: Result<Vec<u8>, Error>)
        requires
            self@.can_send(),
        ensures
            match r {
                Ok(packet) => self@.conns.contains_key(host_port) && packet@ == self@.ack_packet(
                    self@.conns[host_port],
                ),
                Err(e) => !self@.conns.contains_key(host_port) && not_connected(e),
            },
    {
        match self.get(host_port) {
            Some(state) => {
                let flags = TcpFlags { ack: true, ..Default::default() };
                Ok(self.control_segment(state, state.seq(), state.ack(), flags))
            },
            None => Err(not_connected_error()),
        }
    }

    /// The segment that carries new data on a connection.
    pub fn psh(&self, data: &[u8], host_port: u16) -> (r: Result<Vec<u8>, Error>)
        requires
            self@.can_send(),
        ensures
            match r {
                Ok(packet) => {
                    &&& self@.conns.contains_key(host_port)
                    &&& !(self@.conns[host_port].status is Error)
                    &&& packet@ == self@.data_packet(
                        self@.conns[host_port],
                        self@.conns[host_port].seq,
                        data@,
                    )
                },
                Err(e) => if self@.conns.contains_key(host_port) {
                    self@.conns[host_port].status is Error && e.is(
                        self@.conns[host_port].status->Error_0,
                        "socket error"@,
                    )
                } else {
                    not_connected(e)
                },
            },
    {
        match self.get(host_port) {
            Some(state) => {
                if let ConnectionStatus::Error(kind) = state.status() {
                    return Err(Error::new(kind, "socket error"));
                }
                Ok(self.data_segment(state, state.seq(), data))
            },
            None => Err(not_connected_error()),
        }
    }

    /// Forgets a connection. Returns the FIN to send.
    pub fn close(&mut self, host_port: u16) -> (r: Result<Vec<u8>, Error>)
        requires
            old(self)@.can_send(),
        ensures
            match r {
                Ok(packet) => {
                    &&& old(self)@.conns.contains_key(host_port)
                    &&& final(self)@ == old(self)@.without(host_port)
                    &&& packet@ == old(self)@.fin_packet(old(self)@.conns[host_port])
                },
                Err(e) => {
                    &&& !old(self)@.conns.contains_key(host_port)
                    &&& final(self)@ == old(self)@
                    &&& not_connected(e)
                },
            },
            old(self)@.wf() ==> final(self)@.wf(),
    {
        match self.take(host_port) {
            Some(state) => {
                let flags = TcpFlags { fin: true, ack: true, ..Default::default() };
                proof {
                    lemma_same_packets(old(self)@, self@, state@);
                }
                Ok(self.control_segment(&state, state.seq(), state.ack(), flags))
            },
            None => Err(not_connected_error()),
        }
    }

    /// The packet that carries a datagram to a port of the peer.
    pub fn send_udp(&self, source_port: u16, destination_port: u16, data: &[u8]) -> (packet: Vec<
        u8,
    >)
        requires
            self@.one_family(),
        ensures
            packet@ == self@.udp_packet(
                Datagram { source_port, destination_port, payload: data@ },
            ),
    {
        let udp = UdpDatagram::create(
            self.host_ip,
            self.peer_ip,
            source_port,
            destination_port,
            data,
        );
        self.ip_wrap(ProtocolNumber::Udp, udp.as_slice())
    }

    // -----------------------------------------------------------------------
    // Buffers
    // -----------------------------------------------------------------------

    /// Marks a connection to be closed by the next flush.
    pub fn connection_drop(&mut self, host_port: u16)
        ensures
            final(self)@ == (Stack { dropped: old(self)@.dropped.push(host_port), ..old(self)@ }),
            old(self)@.wf() ==> final(self)@.wf(),
    {
        self.dropped.push(host_port);
    }

    /// Takes the list of connections that are to be closed.
    pub(crate) fn take_dropped(&mut self) -> (ports: Vec<u16>)
        ensures
            ports@ == old(self)@.dropped,
            final(self)@ == (Stack { dropped: Seq::empty(), ..old(self)@ }),
    {
        let mut ports: Vec<u16> = Vec::new();
        std::mem::swap(&mut ports, &mut self.dropped);
        ports
    }

    /// Queues bytes to be sent on a connection.
    pub fn queue_send(&mut self, payload: &[u8], host_port: u16) -> (r: Result<(), Error>)
        ensures
            match r {
                Ok(_) => {
                    let c = old(self)@.conns[host_port];
                    &&& old(self)@.conns.contains_key(host_port)
                    &&& final(self)@ == old(self)@.with(
                        host_port,
                        Connection { queued: c.queued + payload@, ..c },
                    )
                },
                Err(e) => {
                    &&& !old(self)@.conns.contains_key(host_port)
                    &&& final(self)@ == old(self)@
                    &&& not_connected(e)
                },
            },
            old(self)@.wf() ==> final(self)@.wf(),
    {
        match self.take(host_port) {
            Some(state) => {
                let mut state = state;
                state.queue(payload);
                proof {
                    lemma_replace(old(self)@, host_port, state@);
                }
                self.put(host_port, state);
                Ok(())
            },
            None => Err(not_connected_error()),
        }
    }

    /// Writes to a connection: the bytes are queued, unless the connection has
    /// ended, whose error is returned.
    pub fn write(&mut self, payload: &[u8], host_port: u16) -> (r: Result<(), Error>)
        ensures
            ({
                let c = old(self)@.conns[host_port];
                match r {
                    Ok(_) => {
                        &&& old(self)@.conns.contains_key(host_port)
                        &&& !(c.status is Error)
                        &&& final(self)@ == old(self)@.with(
                            host_port,
                            Connection { queued: c.queued + payload@, ..c },
                        )
                    },
                    Err(e) => {
                        &&& final(self)@ == old(self)@
                        &&& if old(self)@.conns.contains_key(host_port) {
                            c.status is Error && e.is(c.status->Error_0, "socket error"@)
                        } else {
                            not_connected(e)
                        }
                    },
                }
            }),
            old(self)@.wf() ==> final(self)@.wf(),
    {
        if let Ok(status) = self.get_status(host_port) {
            if let ConnectionStatus::Error(kind) = status {
                return Err(Error::new(kind, "socket error"));
            }
        }
        self.queue_send(payload, host_port)
    }

    /// Takes up to `to_copy` of the oldest received bytes of a connection.
    pub fn uncache(&mut self, to_copy: usize, host_port: u16) -> (r: Result<Vec<u8>, Error>)
        ensures
            match r {
                Ok(data) => {
                    let c = old(self)@.conns[host_port];
                    let n = if to_copy < c.received.len() {
                        to_copy as int
                    } else {
                        c.received.len() as int
                    };
                    &&& old(self)@.conns.contains_key(host_port)
                    &&& data@ == c.received.take(n)
                    &&& final(self)@ == old(self)@.with(
                        host_port,
                        Connection { received: c.received.skip(n), ..c },
                    )
                },
                Err(e) => {
                    &&& !old(self)@.conns.contains_key(host_port)
                    &&& final(self)@ == old(self)@
                    &&& not_connected(e)
                },
            },
            old(self)@.wf() ==> final(self)@.wf(),
    {
        match self.take(host_port) {
            Some(state) => {
                let mut state = state;
                let data = state.read(to_copy);
                proof {
                    lemma_replace(old(self)@, host_port, state@);
                }
                self.put(host_port, state);
                Ok(data)
            },
            None => Err(not_connected_error()),
        }
    }

    /// Takes all received bytes of a connection.
    pub fn uncache_all(&mut self, host_port: u16) -> (r: Result<Vec<u8>, Error>)
        ensures
            match r {
                Ok(data) => {
                    let c = old(self)@.conns[host_port];
                    &&& old(self)@.conns.contains_key(host_port)
                    &&& data@ == c.received
                    &&& final(self)@ == old(self)@.with(
                        host_port,
                        Connection { received: Seq::empty(), ..c },
                    )
                },
                Err(e) => {
                    &&& !old(self)@.conns.contains_key(host_port)
                    &&& final(self)@ == old(self)@
                    &&& not_connected(e)
                },
            },
            old(self)@.wf() ==> final(self)@.wf(),
    {
        match self.take(host_port) {
            Some(state) => {
                let mut state = state;
                let data = state.read_all();
                proof {
                    lemma_replace(old(self)@, host_port, state@);
                }
                self.put(host_port, state);
                Ok(data)
            },
            None => Err(not_connected_error()),
        }
    }

    /// Adds bytes behind the received bytes of a connection.
    pub fn cache_read(&mut self, payload: &[u8], host_port: u16) -> (r: Result<(), Error>)
        ensures
            match r {
                Ok(_) => {
                    let c = old(self)@.conns[host_port];
                    &&& old(self)@.conns.contains_key(host_port)
                    &&& final(self)@ == old(self)@.with(
                        host_port,
                        Connection { received: c.received + payload@, ..c },
                    )
                },
                Err(e) => {
                    &&& !old(self)@.conns.contains_key(host_port)
                    &&& final(self)@ == old(self)@
                    &&& not_connected(e)
                },
            },
            old(self)@.wf() ==> final(self)@.wf(),
    {
        match self.take(host_port) {
            Some(state) => {
                let mut state = state;
                state.cache(payload);
                proof {
                    lemma_replace(old(self)@, host_port, state@);
                }
                self.put(host_port, state);
                Ok(())
            },
            None => Err(not_connected_error()),
        }
    }

    /// How far a connection has come.
    pub fn get_status(&self, host_port: u16) -> (r: Result<ConnectionStatus, Error>)
        ensures
            match r {
                Ok(status) => self@.conns.contains_key(host_port) && status
                    == self@.conns[host_port].status,
                Err(e) => !self@.conns.contains_key(host_port) && not_connected(e),
            },
    {
        match self.get(host_port) {
            Some(state) => Ok(state.status()),
            None => Err(not_connected_error()),
        }
    }

    // -----------------------------------------------------------------------
    // Connecting and receiving
    // -----------------------------------------------------------------------

    /// Opens a connection to a port of the peer on a port of this side, with
    /// a given initial sequence number, unless the port is taken. Returns
    /// whether it did. The SYN is still to be sent.
    pub fn open(&mut self, host_port: u16, port: u16, seq: u32) -> (opened: bool)
        ensures
            opened == !old(self)@.conns.contains_key(host_port),
            final(self)@ == if opened {
                old(self)@.with(host_port, opening(host_port, port, seq))
            } else {
                old(self)@
            },
            old(self)@.wf() ==> final(self)@.wf(),
    {
        if self.contains(host_port) {
            return false;
        }
        self.put(host_port, ConnectionState::with_seq(host_port, port, seq));
        true
    }

    /// Opens a connection to a port of the peer on the first free port of this
    /// side from a given one up, with a given initial sequence number. Returns
    /// the port, or nothing where every port is taken. The SYN is still to be
    /// sent.
    pub fn open_from(&mut self, first: u16, port: u16, seq: u32) -> (r: Option<u16>)
        ensures
            match r {
                Some(host_port) => {
                    &&& next_free(old(self)@.conns.dom(), first, host_port)
                    &&& final(self)@ == old(self)@.with(host_port, opening(host_port, port, seq))
                },
                None => {
                    &&& forall|p: u16| old(self)@.conns.contains_key(p)
                    &&& final(self)@ == old(self)@
                },
            },
            old(self)@.wf() ==> final(self)@.wf(),
    {
        let mut k: u32 = 0;
        while k < 0x1_0000
            invariant
                k <= 0x1_0000,
                self@ == old(self)@,
                forall|p: u16| #![trigger self@.conns.contains_key(p)]
                    steps_up(first, p) < k ==> self@.conns.contains_key(p),
            decreases 0x1_0000 - k,
        {
            let host_port: u16 = ((first as u32 + k) % 0x1_0000) as u16;
            assert(steps_up(first, host_port) == k);
            if self.open(host_port, port, seq) {
                return Some(host_port);
            }
            assert forall|p: u16| #![trigger self@.conns.contains_key(p)]
                steps_up(first, p) < k + 1 implies self@.conns.contains_key(p) by {
                if steps_up(first, p) == k {
                    assert(p == host_port);
                }
            }
            k += 1;
        }
        None
    }

    /// Draws a port of this side and an initial sequence number, and opens a
    /// connection to a port of the peer on the first free port from the drawn
    /// one up. Returns the port, or nothing where every port is taken.
    pub fn connect(&mut self, port: u16) -> (r: Option<u16>)
        ensures
            match r {
                Some(host_port) => {
                    &&& !old(self)@.conns.contains_key(host_port)
                    &&& final(self)@.conns.contains_key(host_port)
                    &&& final(self)@ == old(self)@.with(
                        host_port,
                        opening(host_port, port, final(self)@.conns[host_port].seq),
                    )
                },
                None => {
                    &&& forall|p: u16| old(self)@.conns.contains_key(p)
                    &&& final(self)@ == old(self)@
                },
            },
            (exists|p: u16| !old(self)@.conns.contains_key(p)) ==> r is Some,
            old(self)@.wf() ==> final(self)@.wf(),
    {
        let first: u16 = (random_u32() % 0x1_0000) as u16;
        let seq: u32 = random_u32();
        self.open_from(first, port, seq)
    }

    /// Looks at how a connection that is being opened has come on.
    pub fn connect_step(&mut self, job: &Connecting, now: u64) -> (step: ConnectStep)
        requires
            old(self)@.can_send(),
        ensures
            connect_step(old(self)@, *job, now, final(self)@, step),
            old(self)@.wf() ==> final(self)@.wf(),
    {
        let status = match self.get(job.host_port) {
            Some(state) => state.status(),
            None => {
                return ConnectStep::Wait;
            },
        };
        match status {
            ConnectionStatus::Connected => ConnectStep::Connected,
            ConnectionStatus::Error(kind) => {
                let _ = self.take(job.host_port);
                ConnectStep::Failed(Error::new(kind, "failed to connect"))
            },
            ConnectionStatus::WaitingForSyn => {
                if elapsed_nanos(job.started, now) > SYN_TIMEOUT {
                    let _ = self.take(job.host_port);
                    return ConnectStep::Failed(Error::new(ErrorKind::TimedOut, "SYN timed out"));
                }
                if elapsed_nanos(job.last_syn, now) >= backoff_ms(job.retries) * NANOS_PER_MS {
                    match self.send_syn(job.host_port) {
                        Ok(packet) => ConnectStep::SendSyn(packet),
                        Err(_) => ConnectStep::Wait,
                    }
                } else {
                    ConnectStep::Wait
                }
            },
        }
    }

    /// Takes what a reader of a connection is owed: the received bytes, or,
    /// when there are none, the error that ended the connection, or nothing
    /// yet.
    pub fn recv_step(&mut self, host_port: u16) -> (r: Result<Option<Vec<u8>>, Error>)
        ensures
            ({
                let c = old(self)@.conns[host_port];
                match r {
                    Ok(Some(data)) => {
                        &&& old(self)@.conns.contains_key(host_port)
                        &&& c.received.len() > 0
                        &&& data@ == c.received
                        &&& final(self)@ == old(self)@.with(
                            host_port,
                            Connection { received: Seq::empty(), ..c },
                        )
                    },
                    Ok(None) => {
                        &&& old(self)@.conns.contains_key(host_port)
                        &&& c.received.len() == 0
                        &&& !(c.status is Error)
                        &&& final(self)@ == old(self)@
                    },
                    Err(e) => {
                        &&& final(self)@ == old(self)@
                        &&& if old(self)@.conns.contains_key(host_port) {
                            &&& c.received.len() == 0
                            &&& c.status is Error
                            &&& e.is(c.status->Error_0, "socket io error"@)
                        } else {
                            not_connected(e)
                        }
                    },
                }
            }),
            old(self)@.wf() ==> final(self)@.wf(),
    {
        match self.take(host_port) {
            Some(state) => {
                let mut state = state;
                let data = state.read_all();
                let status = state.status();
                proof {
                    lemma_replace(old(self)@, host_port, state@);
                }
                self.put(host_port, state);
                if data.len() > 0 {
                    return Ok(Some(data));
                }
                assert(self@ =~= old(self)@) by {
                    assert(state@ =~= old(self)@.conns[host_port]);
                }
                match status {
                    ConnectionStatus::Error(kind) => Err(Error::new(kind, "socket io error")),
                    _ => Ok(None),
                }
            },
            None => Err(not_connected_error()),
        }
    }

    // -----------------------------------------------------------------------
    // Packets from the peer
    // -----------------------------------------------------------------------

    /// Takes in a TCP segment from the peer. Returns the packet that answers
    /// it, if one does.
    pub fn process_tcp_packet_from_payload(&mut self, payload: &[u8]) -> (r: Result<
        Option<Vec<u8>>,
        Error,
    >)
        requires
            old(self)@.can_send(),
        ensures
            match (tcp_parse(payload@), r) {
                (Some(s), Ok(Some(packet))) => {
                    &&& old(self)@.answer_to(s) == Some(packet@)
                    &&& final(self)@ == old(self)@.after_segment(s)
                },
                (Some(s), Ok(None)) => {
                    &&& old(self)@.answer_to(s) is None
                    &&& final(self)@ == old(self)@.after_segment(s)
                },
                (None, Err(e)) => {
                    &&& e.is(ErrorKind::InvalidData, "invalid TCP segment"@)
                    &&& final(self)@ == old(self)@
                },
                _ => false,
            },
            old(self)@.wf() ==> final(self)@.wf(),
    {
        let packet = match TcpPacket::parse(payload) {
            Ok(packet) => packet,
            Err(e) => {
                return Err(e);
            },
        };
        let host_port: u16 = packet.destination_port;
        match self.take(host_port) {
            Some(state) => {
                let mut state = state;
                let answer: bool = state.on_segment(&packet);
                proof {
                    lemma_replace(old(self)@, host_port, state@);
                }
                self.put(host_port, state);
                proof {
                    lemma_same_packets(old(self)@, self@, state@);
                }
                if answer {
                    match self.ack(host_port) {
                        Ok(ack) => Ok(Some(ack)),
                        Err(e) => Err(e),
                    }
                } else {
                    Ok(None)
                }
            },
            None => Ok(None),
        }
    }

    /// Takes in what an IP packet from the peer carries. Returns the packet
    /// that answers it, if one does.
    pub fn process_frame(&mut self, frame: &Frame) -> (r: Result<Option<Vec<u8>>, Error>)
        requires
            old(self)@.can_send(),
        ensures
            if frame.protocol == ProtocolNumber::Udp.code() {
                r == Ok::<Option<Vec<u8>>, Error>(None) && final(self)@ == old(self)@.after_udp(
                    frame.payload@,
                )
            } else {
                match (tcp_parse(frame.payload@), r) {
                    (Some(s), Ok(Some(packet))) => {
                        &&& old(self)@.answer_to(s) == Some(packet@)
                        &&& final(self)@ == old(self)@.after_segment(s)
                    },
                    (Some(s), Ok(None)) => {
                        &&& old(self)@.answer_to(s) is None
                        &&& final(self)@ == old(self)@.after_segment(s)
                    },
                    (None, Err(e)) => {
                        &&& e.is(ErrorKind::InvalidData, "invalid TCP segment"@)
                        &&& final(self)@ == old(self)@
                    },
                    _ => false,
                }
            },
            old(self)@.wf() ==> final(self)@.wf(),
    {
        if frame.protocol == ProtocolNumber::Udp.number() {
            self.process_udp(frame.payload.as_slice());
            Ok(None)
        } else {
            self.process_tcp_packet_from_payload(frame.payload.as_slice())
        }
    }

    fn process_udp(&mut self, payload: &[u8])
        ensures
            final(self)@ == old(self)@.after_udp(payload@),
    {
        if let Some(datagram) = UdpDatagram::parse(payload) {
            if self.udp_ports.contains(&datagram.destination_port) {
                self.udp_inbox.push(datagram);
                assert(self@.datagrams =~= old(self)@.datagrams.push(datagram@));
            }
        }
    }

    /// Inspect the buffer for a complete IPv4 packet. Returns what it carries
    /// and the number of bytes consumed.
    pub fn try_parse_v4(buf: &[u8]) -> (r: IpParseError<Frame>)
        ensures
            r@ == ipv4_frame(buf@),
    {
        if buf.len() < 20 {
            return IpParseError::NotEnough;
        }
        if buf[0] / 16 != 4 {
            return IpParseError::Invalid;
        }
        let header: usize = ((buf[0] % 16) as usize) * 4;
        let total: usize = get_be16(buf, 2) as usize;
        if header < 20 || total < header {
            return IpParseError::Invalid;
        }
        if buf.len() < total {
            return IpParseError::NotEnough;
        }
        let whole = vstd::slice::slice_subrange(buf, 0, total);
        match Ipv4Packet::parse(whole) {
            Some(packet) => {
                let frame = Frame { protocol: packet.protocol, payload: packet.payload };
                assert(frame.payload@ =~= buf@.subrange(header as int, total as int));
                IpParseError::Whole { packet: frame, bytes_consumed: total }
            },
            None => IpParseError::Invalid,
        }
    }

    /// Takes the IP packet at the front of the bytes from the transport.
    pub fn read_ip_packet(&mut self) -> (step: ReadStep)
        requires
            old(self)@.wf(),
        ensures
            match (old(self)@.front(), step) {
                (
                    IpParseError::Whole { packet, bytes_consumed },
                    ReadStep::Packet { frame, raw },
                ) => {
                    &&& frame@ == packet
                    &&& raw@ == old(self)@.inbox.take(bytes_consumed as int)
                    &&& final(self)@ == (Stack {
                        inbox: old(self)@.inbox.skip(bytes_consumed as int),
                        ..old(self)@
                    })
                },
                (IpParseError::NotEnough, ReadStep::Need(room)) => {
                    &&& room == READ_BUF - old(self)@.inbox.len()
                    &&& final(self)@ == old(self)@
                },
                (IpParseError::Invalid, ReadStep::Invalid(e)) => {
                    &&& e.is(
                        ErrorKind::InvalidData,
                        if old(self)@.host_ip is V4 {
                            "invalid IPv4 packet"@
                        } else {
                            "invalid IPv6 packet"@
                        },
                    )
                    &&& final(self)@ == old(self)@
                },
                _ => false,
            },
            final(self)@.wf(),
    {
        let parsed = match self.host_ip {
            IpAddr::V4(_) => Adapter::try_parse_v4(self.read_buf.as_slice()),
            IpAddr::V6(_) => match Ipv6Packet::parse(self.read_buf.as_slice()) {
                IpParseError::Whole { packet, bytes_consumed } => IpParseError::Whole {
                    packet: Frame { protocol: packet.next_header, payload: packet.payload },
                    bytes_consumed,
                },
                IpParseError::NotEnough => IpParseError::NotEnough,
                IpParseError::Invalid => IpParseError::Invalid,
            },
        };
        match parsed {
            IpParseError::Whole { packet, bytes_consumed } => {
                let raw = take_front(&mut self.read_buf, bytes_consumed);
                ReadStep::Packet { frame: packet, raw }
            },
            IpParseError::NotEnough => ReadStep::Need(READ_BUF - self.read_buf.len()),
            IpParseError::Invalid => match self.host_ip {
                IpAddr::V4(_) => ReadStep::Invalid(
                    Error::new(ErrorKind::InvalidData, "invalid IPv4 packet"),
                ),
                IpAddr::V6(_) => ReadStep::Invalid(
                    Error::new(ErrorKind::InvalidData, "invalid IPv6 packet"),
                ),
            },
        }
    }

    /// Takes in bytes that were read from the transport. None at all mean
    /// that it was closed.
    pub fn received(&mut self, bytes: &[u8]) -> (r: Result<(), Error>)
        requires
            old(self)@.inbox.len() + bytes@.len() <= READ_BUF,
        ensures
            match r {
                Ok(_) => {
                    &&& bytes@.len() > 0
                    &&& final(self)@ == (Stack { inbox: old(self)@.inbox + bytes@, ..old(self)@ })
                },
                Err(e) => {
                    &&& bytes@.len() == 0
                    &&& final(self)@ == old(self)@
                    &&& e.is(ErrorKind::UnexpectedEof, "transport closed"@)
                },
            },
            old(self)@.wf() ==> final(self)@.wf(),
    {
        if bytes.len() == 0 {
            return Err(Error::new(ErrorKind::UnexpectedEof, "transport closed"));
        }
        put_slice(&mut self.read_buf, bytes);
        Ok(())
    }

    // -----------------------------------------------------------------------
    // UDP ports
    // -----------------------------------------------------------------------

    /// Binds a UDP port of this side.
    fn bind(&mut self, port: u16)
        ensures
            final(self)@ == (Stack { udp_ports: old(self)@.udp_ports.insert(port), ..old(self)@ }),
    {
        let _ = self.udp_ports.insert(port);
    }

    /// Binds a given port if it can stand for a free one: it is not zero and
    /// not bound. Returns whether it was.
    pub fn bind_if_free(&mut self, port: u16) -> (bound: bool)
        ensures
            bound == (port != 0 && !old(self)@.udp_ports.contains(port)),
            final(self)@ == if bound {
                Stack { udp_ports: old(self)@.udp_ports.insert(port), ..old(self)@ }
            } else {
                old(self)@
            },
            old(self)@.wf() ==> final(self)@.wf(),
    {
        if port == 0 || self.udp_ports.contains(&port) {
            return false;
        }
        self.bind(port);
        true
    }

    /// Binds the first port, from a given one up, that is neither zero nor
    /// bound. Returns it, or nothing where there is none.
    pub fn bind_from(&mut self, first: u16) -> (r: Option<u16>)
        ensures
            match r {
                Some(bound) => {
                    &&& next_free(old(self)@.udp_ports.insert(0), first, bound)
                    &&& final(self)@ == (Stack {
                        udp_ports: old(self)@.udp_ports.insert(bound),
                        ..old(self)@
                    })
                },
                None => {
                    &&& forall|p: u16| p != 0 ==> old(self)@.udp_ports.contains(p)
                    &&& final(self)@ == old(self)@
                },
            },
            old(self)@.wf() ==> final(self)@.wf(),
    {
        let ghost taken = self@.udp_ports.insert(0);
        let mut k: u32 = 0;
        while k < 0x1_0000
            invariant
                k <= 0x1_0000,
                self@ == old(self)@,
                taken == self@.udp_ports.insert(0),
                forall|p: u16| steps_up(first, p) < k ==> #[trigger] taken.contains(p),
            decreases 0x1_0000 - k,
        {
            let port: u16 = ((first as u32 + k) % 0x1_0000) as u16;
            assert(steps_up(first, port) == k);
            if self.bind_if_free(port) {
                return Some(port);
            }
            assert forall|p: u16| steps_up(first, p) < k + 1 implies #[trigger] taken.contains(p) by {
                if steps_up(first, p) == k {
                    assert(p == port);
                }
            }
            k += 1;
        }
        assert forall|p: u16| p != 0 implies self@.udp_ports.contains(p) by {
            assert(taken.contains(p));
        }
        None
    }

    /// Binds a UDP port of this side; zero stands for any free port, which is
    /// the first from a drawn one up. Returns the port, or nothing where none
    /// is free.
    pub fn bind_udp(&mut self, port: u16) -> (r: Option<u16>)
        ensures
            port != 0 ==> r == Some(port),
            match r {
                Some(bound) => {
                    &&& port == 0 ==> bound != 0 && !old(self)@.udp_ports.contains(bound)
                    &&& final(self)@ == (Stack {
                        udp_ports: old(self)@.udp_ports.insert(bound),
                        ..old(self)@
                    })
                },
                None => {
                    &&& forall|p: u16| p != 0 ==> old(self)@.udp_ports.contains(p)
                    &&& final(self)@ == old(self)@
                },
            },
            (exists|p: u16| p != 0 && !old(self)@.udp_ports.contains(p)) ==> r is Some,
            old(self)@.wf() ==> final(self)@.wf(),
    {
        if port != 0 {
            self.bind(port);
            return Some(port);
        }
        let first: u16 = (random_u32() % 0x1_0000) as u16;
        self.bind_from(first)
    }

    /// Frees a UDP port.
    pub fn unbind_udp(&mut self, port: u16)
        ensures
            final(self)@ == (Stack { udp_ports: old(self)@.udp_ports.remove(port), ..old(self)@ }),
            old(self)@.wf() ==> final(self)@.wf(),
    {
        let _ = self.udp_ports.remove(&port);
    }

    /// Takes the datagrams that have arrived, oldest first.
    pub fn udp_drain(&mut self) -> (drained: Vec<UdpDatagram>)
        ensures
            drained@.map_values(|d: UdpDatagram| d@) == old(self)@.datagrams,
            final(self)@ == (Stack { datagrams: Seq::empty(), ..old(self)@ }),
            old(self)@.wf() ==> final(self)@.wf(),
    {
        let mut drained: Vec<UdpDatagram> = Vec::new();
        std::mem::swap(&mut drained, &mut self.udp_inbox);
        assert(self@ =~= (Stack { datagrams: Seq::empty(), ..old(self)@ }));
        drained
    }
}

} // verus!
