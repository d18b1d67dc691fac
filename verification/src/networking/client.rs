//! The client's side of the connection to a server.

use std::collections::VecDeque;
use vstd::prelude::*;

use crate::game::client::{Game, GameHandle, GameView};
use crate::game::{Event, Input};
use crate::networking::connection::{
    header_bytes, header_noted, law_lost_by_moving_on, received, sequences, Acks, Connection,
    HEADER_BYTES,
};
use crate::networking::packet::{ClientPacket, ServerPacket};
use crate::networking::server::rescheduled;
use crate::networking::tick::{law_next_tick_is_near, Interval};
use crate::networking::{ponged, Error, RecvError, RttEstimator, MAX_PACKET_SIZE, PING_RATE};
use crate::number::{Point, Real};
use crate::time::{Duration, Instant};

verus! {

/// Rate at which the client sends input: every 15 ms.
pub const TICK_RATE: u128 = 15_000_000;

/// How often the client says that it disconnects, in the hopes that at least one of the packets
/// gets through.
pub const DISCONNECT_PACKETS: u32 = 8;

/// What the client waits for.
#[derive(Copy, Clone, Debug, PartialEq, Eq, Structural)]
pub enum TimeoutState {
    Tick,
    Ping,
    UpdateStats,
    LostConnection,
}

/// How well a connection works.
#[derive(Copy, Clone, Debug)]
pub struct NetworkStats {
    /// Round trip time in seconds.
    pub rtt: Real,
    pub bytes_in: u32,
    pub bytes_out: u32,
    pub packets_sent: u16,
    pub packets_lost: u16,
}

impl Default for NetworkStats {
    fn default() -> (stats: NetworkStats)
        ensures
            stats == no_stats(),
    {
        NetworkStats {
            rtt: Real { bits: 0 },
            bytes_in: 0,
            bytes_out: 0,
            packets_sent: 0,
            packets_lost: 0,
        }
    }
}

/// Nothing has been counted.
pub open spec fn no_stats() -> NetworkStats {
    NetworkStats {
        rtt: Real { bits: 0 },
        bytes_in: 0,
        bytes_out: 0,
        packets_sent: 0,
        packets_lost: 0,
    }
}

/// How far a connection has got.
#[derive(Copy, Clone, Debug)]
pub enum ClientState {
    Connecting { cursor: Point },
    Connected { tick: Interval, rtt: RttEstimator, ping: Interval },
}

/// A packet with its header, ready to be serialized and sent.
pub struct Outgoing {
    pub header: Vec<u8>,
    pub packet: ClientPacket,
}

/// What an outgoing packet holds.
pub struct OutgoingView {
    pub header: Seq<u8>,
    pub packet: ClientPacket,
}

impl View for Outgoing {
    type V = OutgoingView;

    open spec fn view(&self) -> OutgoingView {
        OutgoingView { header: self.header@, packet: self.packet }
    }
}

/// Runs the connection to a server.
pub struct Client {
    send_queue: VecDeque<Outgoing>,
    connection: Connection,
    state: ClientState,
    /// Marks after `shutdown` has been received, to shutdown when the
    /// `send_queue` is empty.
    needs_shutdown: bool,
    stats: NetworkStats,
}

/// The connection to a server.
#[verifier::ext_equal]
pub struct ClientView {
    /// What is to be sent, the next one first.
    pub queue: Seq<OutgoingView>,
    pub connection: Connection,
    pub state: ClientState,
    pub closing: bool,
    pub stats: NetworkStats,
}

impl View for Client {
    type V = ClientView;

    closed spec fn view(&self) -> ClientView {
        ClientView {
            queue: self.send_queue@.map_values(|outgoing: Outgoing| outgoing@),
            connection: self.connection,
            state: self.state,
            closing: self.needs_shutdown,
            stats: self.stats,
        }
    }
}

impl ClientView {
    /// Ticks are at their set rates.
    pub open spec fn wf(self) -> bool {
        self.state matches ClientState::Connected { tick, ping, .. } ==> {
            &&& tick.length() == TICK_RATE
            &&& ping.length() == PING_RATE
        }
    }

    /// There are enough sequence numbers left for whatever happens next.
    pub open spec fn has_numbers(self) -> bool {
        self.connection.local_sequence <= u32::MAX - 16
    }

    /// There are enough sequence numbers left, and the counts are far from overflowing.
    pub open spec fn ready(self) -> bool {
        &&& self.has_numbers()
        &&& self.stats.bytes_in <= u32::MAX - 0x1_0000
        &&& self.stats.bytes_out <= u32::MAX - 0x1_0000
        &&& self.stats.packets_sent < u16::MAX
    }

    /// The count of lost packets does not overflow by receiving this packet.
    pub open spec fn counts(self, packet: Seq<u8>) -> bool {
        ||| self.stats.packets_lost + self.connection.moved_by(packet) <= u16::MAX
        ||| self.stats.packets_lost + self.connection.most_lost() <= u16::MAX
    }

    /// The next outgoing packet.
    pub open spec fn outgoing(self, packet: ClientPacket) -> OutgoingView {
        OutgoingView {
            header: header_bytes(self.connection.local_sequence, self.connection.acks),
            packet,
        }
    }

    /// The client after it has sent a packet.
    pub open spec fn sent(self, packet: ClientPacket) -> ClientView {
        ClientView {
            queue: self.queue.push(self.outgoing(packet)),
            connection: Connection {
                local_sequence: (self.connection.local_sequence + 1) as u32,
                ..self.connection
            },
            ..self
        }
    }

    /// The client after it has sent a packet several times.
    pub open spec fn sent_times(self, packet: ClientPacket, times: nat) -> ClientView
        decreases times,
    {
        if times == 0 {
            self
        } else {
            self.sent_times(packet, (times - 1) as nat).sent(packet)
        }
    }
}

/// What a packet from the server means for the game.
pub enum Told {
    Nothing,
    /// The connection has been completed.
    Joined(Game, GameHandle),
    Event(Event),
}

/// What happened on receiving a packet.
pub struct Received {
    pub result: Result<Told, RecvError>,
    /// Whether the socket has to be watched for becoming writable.
    pub waiting: bool,
}

/// What becomes of a shutdown.
#[derive(Copy, Clone, Debug, PartialEq, Eq, Structural)]
pub enum Shutdown {
    /// It has been started before, and should be over by now.
    Already,
    /// It has been started while connecting, which has failed with that.
    FromConnecting(Option<Error>),
    /// It has been started, which ends the game.
    FromConnected(Option<Error>),
}

/// What is to be done about a timeout.
#[derive(Copy, Clone, Debug)]
pub enum TimeoutStep {
    /// Nothing: the client is shutting down.
    Ignore,
    /// Wait again, with the socket watched for becoming writable.
    Again(Duration),
    /// Report these numbers, and wait again.
    Report(NetworkStats),
    /// The client has started to shut down.
    Close(Shutdown),
}

/// What a packet from the server makes of a client whose connection has been updated, and
/// what it means for the game.
///
/// - While connecting, anything but a handshake is ignored.
/// - A second handshake is ignored.
/// - A ping is answered with its own sequence number.
pub open spec fn acted<S: Fn(Duration) -> Real, B: Fn(Real, Real) -> Real>(
    before: ClientView,
    after: ClientView,
    packet: ServerPacket,
    sequence: u32,
    now: Instant,
    seconds: S,
    blend: B,
    told: Told,
) -> bool {
    match before.state {
        ClientState::Connecting { cursor } => match packet {
            ServerPacket::Handshake {
                id,
                settings,
                players,
                round,
                round_duration,
                snapshot,
            } => {
                &&& told matches Told::Joined(game, handle)
                &&& game.wf()
                &&& game@ == (GameView {
                    players: players@,
                    last_round: None,
                    round,
                    round_duration,
                    snapshots: seq![(snapshot, now)],
                    settings,
                    player_id: id,
                })
                &&& handle.cursor == cursor
                &&& handle.settings.current() == settings
                &&& !handle.settings.is_dirty()
                &&& after == (ClientView { state: after.state, ..before })
                &&& after.state matches ClientState::Connected { tick, rtt, ping }
                &&& tick.length() == TICK_RATE && tick.due().nanos == now.nanos + TICK_RATE
                    && tick.last() == now
                &&& ping.length() == PING_RATE && ping.due().nanos == now.nanos + PING_RATE
                    && ping.last() == now
                &&& rtt.pinged() is None && rtt.estimate() is None
            },
            _ => told is Nothing && after == before,
        },
        ClientState::Connected { tick, rtt, ping } => match packet {
            ServerPacket::Event(event) => told == Told::Event(event) && after == before,
            ServerPacket::Handshake { .. } => told is Nothing && after == before,
            ServerPacket::Pong(answered) => {
                &&& told is Nothing
                &&& exists|better: RttEstimator| #[trigger]
                    ponged(rtt, better, answered, now, seconds, blend) && after == (ClientView {
                        state: ClientState::Connected { tick, rtt: better, ping },
                        ..before
                    })
            },
            ServerPacket::Ping => {
                &&& told is Nothing
                &&& after == before.sent(ClientPacket::Pong(sequence))
            },
        },
    }
}

/// The client after it has counted some bytes that came in.
pub open spec fn counted(before: ClientView, bytes: int) -> ClientView {
    ClientView {
        stats: NetworkStats {
            bytes_in: (before.stats.bytes_in + bytes) as u32,
            ..before.stats
        },
        ..before
    }
}

/// A packet from the server has been received.
pub open spec fn recv<S: Fn(Duration) -> Real, B: Fn(Real, Real) -> Real>(
    before: ClientView,
    after: ClientView,
    bytes: Seq<u8>,
    packet: ServerPacket,
    now: Instant,
    seconds: S,
    blend: B,
    told: Told,
) -> bool {
    exists|connection: Connection, sequence: u32, acks: Acks, lost: Seq<u32>| #[trigger]
        received(before.connection, connection, bytes, sequence, acks, lost) && acted(
            ClientView {
                connection,
                stats: NetworkStats {
                    packets_lost: (before.stats.packets_lost + lost.len()) as u16,
                    ..before.stats
                },
                ..before
            },
            after,
            packet,
            sequence,
            now,
            seconds,
            blend,
            told,
        )
}

/// Nothing but the connection has changed, by the header of a packet.
pub open spec fn noted(before: ClientView, after: ClientView, bytes: Seq<u8>) -> bool {
    exists|connection: Connection, sequence: u32, acks: Acks| #[trigger]
        header_noted(before.connection, connection, bytes, sequence, acks) && after == (ClientView {
            connection,
            ..before
        })
}

impl Client {
    /// Starts to connect to a server, by sending a handshake.
    pub fn new(cursor: Point) -> (client: Client)
        ensures
            client@.wf(),
            client@.ready(),
            !client@.closing,
            client@.state == (ClientState::Connecting { cursor }),
            client@.stats == no_stats(),
            client@.connection.local_sequence == 1,
            client@.connection.acks.newest() == 0,
            client@.connection.acks.field() == 0,
            client@.connection.remote_acks.newest() == 0,
            client@.connection.remote_acks.field() == 0,
            client@.queue == seq![
                OutgoingView {
                    header: header_bytes(0, client@.connection.acks),
                    packet: ClientPacket::Handshake { cursor },
                },
            ],
    {
        let mut client = Client {
            send_queue: VecDeque::new(),
            connection: Connection::default(),
            state: ClientState::Connecting { cursor },
            needs_shutdown: false,
            stats: NetworkStats::default(),
        };
        // Send handshake
        client.send(ClientPacket::Handshake { cursor });
        assert(client@.queue =~= seq![
            OutgoingView {
                header: header_bytes(0, client@.connection.acks),
                packet: ClientPacket::Handshake { cursor },
            },
        ]);
        client
    }

    /// Returns whether there are enough sequence numbers left, and the counts are far from
    /// overflowing.
    pub fn is_ready(&self) -> (ready: bool)
        ensures
            ready == self@.ready(),
    {
        self.connection.local_sequence <= u32::MAX - 16 && self.stats.bytes_in <= u32::MAX
            - 0x1_0000 && self.stats.bytes_out <= u32::MAX - 0x1_0000 && self.stats.packets_sent
            < u16::MAX
    }

    /// Returns whether the count of lost packets does not overflow by receiving this packet.
    pub fn can_count(&self, packet: &[u8]) -> (counts: bool)
        ensures
            counts == self@.counts(packet@),
    {
        self.connection.loss_limit(packet) <= (u16::MAX - self.stats.packets_lost) as u32
    }

    /// Returns whether the client is shutting down, so that no new messages or timeouts are to
    /// be processed.
    pub fn is_closing(&self) -> (closing: bool)
        ensures
            closing == self@.closing,
    {
        self.needs_shutdown
    }

    /// Returns whether anything is waiting to be sent. If not, writable events no longer matter.
    pub fn is_waiting(&self) -> (waiting: bool)
        ensures
            waiting == (self@.queue.len() > 0),
    {
        self.send_queue.len() > 0
    }

    /// Returns whether all pending messages have been sent while shutting down, so that it is
    /// time to shut down for real.
    pub fn is_done(&self) -> (done: bool)
        ensures
            done == (self@.closing && self@.queue.len() == 0),
    {
        self.send_queue.len() == 0 && self.needs_shutdown
    }

    /// Sends a packet, and returns its sequence number.
    ///
    /// The socket has to be watched for becoming writable after this.
    pub fn send(&mut self, packet: ClientPacket) -> (sequence: u32)
        requires
            !old(self)@.closing,
            old(self)@.connection.local_sequence < u32::MAX,
        ensures
            sequence == old(self)@.connection.local_sequence,
            final(self)@ == old(self)@.sent(packet),
    {
        let mut header: Vec<u8> = Vec::new();
        let sequence: u32 = self.connection.send_header(&mut header);
        assert(header@ =~= header_bytes(sequence, old(self)@.connection.acks));
        self.send_queue.push_back(Outgoing { header, packet });
        assert(self@ =~= old(self)@.sent(packet));
        sequence
    }

    /// Starts shutting down, with a provided reason.
    ///
    /// Pending packets are given up, and the server is told.
    pub fn start_shutdown(&mut self, reason: Option<Error>) -> (shutdown: Shutdown)
        requires
            old(self)@.has_numbers(),
        ensures
            shutdown == (if old(self)@.closing {
                Shutdown::Already
            } else if old(self)@.state is Connecting {
                Shutdown::FromConnecting(reason)
            } else {
                Shutdown::FromConnected(reason)
            }),
            final(self)@ == (if old(self)@.closing {
                old(self)@
            } else {
                ClientView {
                    closing: true,
                    ..ClientView { queue: Seq::empty(), ..old(self)@ }.sent_times(
                        ClientPacket::Disconnect,
                        DISCONNECT_PACKETS as nat,
                    )
                }
            }),
    {
        // If already shutting down, don't redo this stuff.
        if self.needs_shutdown {
            return Shutdown::Already;
        }
        // Get rid of any pending packets.
        self.send_queue = VecDeque::new();
        let ghost cleared = ClientView { queue: Seq::empty(), ..old(self)@ };
        assert(self@ =~= cleared);
        // Send off a bunch of disconnected packets to the server, in
        // the hopes that at least one gets through.
        let mut times: u32 = 0;
        while times < DISCONNECT_PACKETS
            invariant
                times <= DISCONNECT_PACKETS,
                !self@.closing,
                self@.connection.local_sequence + (DISCONNECT_PACKETS - times) < u32::MAX,
                self@ == cleared.sent_times(ClientPacket::Disconnect, times as nat),
                self@.state == old(self)@.state,
            decreases DISCONNECT_PACKETS - times,
        {
            self.send(ClientPacket::Disconnect);
            times = times + 1;
        }
        let ghost full = self@;
        self.needs_shutdown = true;
        assert(self@ =~= ClientView { closing: true, ..full });
        match self.state {
            ClientState::Connecting { .. } => Shutdown::FromConnecting(reason),
            ClientState::Connected { .. } => Shutdown::FromConnected(reason),
        }
    }

    /// Receives a packet.
    ///
    /// `contents` is what follows the header of the packet, or `None` if that could not be
    /// deserialized. The connection is alive, so the time after which it is taken to be lost
    /// starts over. Ticks and pings are to be waited for after joining a game.
    pub fn on_recv<S: Fn(Duration) -> Real, B: Fn(Real, Real) -> Real>(
        &mut self,
        packet: &[u8],
        contents: Option<ServerPacket>,
        now: Instant,
        seconds: &S,
        blend: &B,
    ) -> (outcome: Received)
        requires
            old(self)@.wf(),
            old(self)@.ready(),
            !old(self)@.closing,
            packet@.len() <= 0x1_0000,
            packet@.len() <= MAX_PACKET_SIZE && contents is Some ==> old(self)@.counts(packet@),
            now.nanos <= u64::MAX,
            forall|span: Duration| call_requires(*seconds, (span,)),
            forall|rtt: Real, sample: Real| call_requires(*blend, (rtt, sample)),
        ensures
            final(self)@.wf(),
            outcome.result is Err ==> outcome.result->Err_0 == (if packet@.len()
                > MAX_PACKET_SIZE {
                RecvError::PacketTooLarge(packet@.len() as usize)
            } else if packet@.len() < HEADER_BYTES {
                RecvError::HeaderRead
            } else {
                RecvError::Deserialize
            }),
            outcome.result is Ok <==> HEADER_BYTES <= packet@.len() <= MAX_PACKET_SIZE
                && contents is Some,
            ({
                let before = counted(old(self)@, packet@.len() as int);
                match outcome.result {
                    Ok(told) => recv(
                        before,
                        final(self)@,
                        packet@,
                        contents->0,
                        now,
                        *seconds,
                        *blend,
                        told,
                    ),
                    Err(RecvError::Deserialize) => noted(before, final(self)@, packet@),
                    Err(_) => final(self)@ == before,
                }
            }),
            outcome.waiting == (outcome.result is Ok && old(self)@.state is Connected
                && contents->0 is Ping),
    {
        self.stats.bytes_in = self.stats.bytes_in + packet.len() as u32;
        let ghost before = self@;
        assert(before =~= counted(old(self)@, packet@.len() as int));
        // Make sure that it fits.
        if packet.len() > MAX_PACKET_SIZE {
            return Received {
                result: Err(RecvError::PacketTooLarge(packet.len())),
                waiting: false,
            };
        }
        match self.connection.decode(packet, contents) {
            Err(err) => {
                proof {
                    let connection = self@.connection;
                    assert(self@ =~= ClientView { connection, ..before });
                    if packet@.len() < HEADER_BYTES {
                        assert(self@ =~= before);
                    } else {
                        let (sequence, acks) = choose|sequence: u32, acks: Acks|
                            header_noted(before.connection, connection, packet@, sequence, acks);
                        assert(header_noted(
                            before.connection,
                            connection,
                            packet@,
                            sequence,
                            acks,
                        ));
                    }
                }
                Received { result: Err(err), waiting: false }
            },
            Ok((value, sequence, acks, lost)) => {
                let ghost lost_list = sequences(lost);
                proof {
                    law_lost_by_moving_on(
                        before.connection,
                        self@.connection,
                        packet@,
                        sequence,
                        acks,
                        lost_list,
                    );
                }
                self.stats.packets_lost = self.stats.packets_lost + lost.len() as u16;
                let ghost noticed = self@;
                assert(noticed =~= ClientView {
                    connection: noticed.connection,
                    stats: NetworkStats {
                        packets_lost: (before.stats.packets_lost + lost_list.len()) as u16,
                        ..before.stats
                    },
                    ..before
                });
                assert(received(
                    before.connection,
                    noticed.connection,
                    packet@,
                    sequence,
                    acks,
                    lost_list,
                ));
                let ghost contents = value;
                let (told, waiting) = self.act(value, sequence, now, seconds, blend);
                assert(acted(
                    noticed,
                    self@,
                    contents,
                    sequence,
                    now,
                    *seconds,
                    *blend,
                    told,
                ));
                Received { result: Ok(told), waiting }
            },
        }
    }

    /// Acts on the contents of a packet.
    fn act<S: Fn(Duration) -> Real, B: Fn(Real, Real) -> Real>(
        &mut self,
        packet: ServerPacket,
        sequence: u32,
        now: Instant,
        seconds: &S,
        blend: &B,
    ) -> (result: (Told, bool))
        requires
            old(self)@.wf(),
            !old(self)@.closing,
            old(self)@.connection.local_sequence < u32::MAX,
            now.nanos <= u64::MAX,
            forall|span: Duration| call_requires(*seconds, (span,)),
            forall|rtt: Real, sample: Real| call_requires(*blend, (rtt, sample)),
        ensures
            final(self)@.wf(),
            acted(
                old(self)@,
                final(self)@,
                packet,
                sequence,
                now,
                *seconds,
                *blend,
                result.0,
            ),
            result.1 == (old(self)@.state is Connected && packet is Ping),
    {
        match self.state {
            ClientState::Connecting { cursor } => match packet {
                ServerPacket::Handshake {
                    id,
                    settings,
                    players,
                    round,
                    round_duration,
                    snapshot,
                } => {
                    let (game, handle) = Game::new(
                        players,
                        snapshot,
                        now,
                        round,
                        round_duration,
                        settings,
                        id,
                        cursor,
                    );
                    // Transition to connected state.
                    self.state = ClientState::Connected {
                        tick: Interval::new(Duration { nanos: TICK_RATE }, now),
                        rtt: RttEstimator::default(),
                        ping: Interval::new(Duration { nanos: PING_RATE }, now),
                    };
                    (Told::Joined(game, handle), false)
                },
                // Ignore non-handshake packets
                _ => (Told::Nothing, false),
            },
            ClientState::Connected { tick, rtt, ping } => match packet {
                ServerPacket::Event(event) => (Told::Event(event), false),
                ServerPacket::Handshake { .. } => (Told::Nothing, false),
                ServerPacket::Pong(answered) => {
                    let mut better: RttEstimator = rtt;
                    better.pong(answered, now, seconds, blend);
                    self.state = ClientState::Connected { tick, rtt: better, ping };
                    assert(ponged(rtt, better, answered, now, *seconds, *blend));
                    (Told::Nothing, false)
                },
                ServerPacket::Ping => {
                    self.send(ClientPacket::Pong(sequence));
                    (Told::Nothing, true)
                },
            },
        }
    }

    /// Handles whatever the client waited for.
    ///
    /// `input` is the latest input of the player.
    pub fn on_timeout(&mut self, timeout: TimeoutState, now: Instant, input: Input) -> (step:
        TimeoutStep)
        requires
            old(self)@.wf(),
            old(self)@.has_numbers(),
            now.nanos <= u64::MAX,
            old(self)@.state is Connecting ==> timeout is UpdateStats || timeout is LostConnection,
        ensures
            final(self)@.wf(),
            if old(self)@.closing {
                step is Ignore && final(self)@ == old(self)@
            } else {
                match timeout {
                    TimeoutState::Ping => {
                        &&& step matches TimeoutStep::Again(delay)
                        &&& final(self)@ == (ClientView {
                            state: final(self)@.state,
                            ..old(self)@.sent(ClientPacket::Ping)
                        })
                        &&& old(self)@.state matches ClientState::Connected { tick, rtt, ping }
                        &&& final(self)@.state matches ClientState::Connected {
                            tick: tick2,
                            rtt: rtt2,
                            ping: ping2,
                        }
                        &&& tick2 == tick
                        &&& rtt2.pinged() == Some((old(self)@.connection.local_sequence, now))
                        &&& rtt2.estimate() == rtt.estimate()
                        &&& rescheduled(ping, ping2, now, delay)
                    },
                    TimeoutState::Tick => {
                        &&& step matches TimeoutStep::Again(delay)
                        &&& final(self)@ == (ClientView {
                            state: final(self)@.state,
                            ..old(self)@.sent(ClientPacket::Input(input))
                        })
                        &&& old(self)@.state matches ClientState::Connected { tick, rtt, ping }
                        &&& final(self)@.state matches ClientState::Connected {
                            tick: tick2,
                            rtt: rtt2,
                            ping: ping2,
                        }
                        &&& rescheduled(tick, tick2, now, delay)
                        &&& rtt2 == rtt
                        &&& ping2 == ping
                    },
                    TimeoutState::UpdateStats => {
                        &&& step matches TimeoutStep::Report(stats)
                        &&& stats == reported(old(self)@)
                        &&& final(self)@ == (ClientView { stats: no_stats(), ..old(self)@ })
                    },
                    TimeoutState::LostConnection => {
                        &&& step matches TimeoutStep::Close(shutdown)
                        &&& shutdown == (if old(self)@.state is Connecting {
                            Shutdown::FromConnecting(Some(Error::TimedOut))
                        } else {
                            Shutdown::FromConnected(Some(Error::TimedOut))
                        })
                        &&& final(self)@ == (ClientView {
                            closing: true,
                            ..ClientView { queue: Seq::empty(), ..old(self)@ }.sent_times(
                                ClientPacket::Disconnect,
                                DISCONNECT_PACKETS as nat,
                            )
                        })
                    },
                }
            },
    {
        // Don't respond to timer events while shutting down.
        if self.needs_shutdown {
            return TimeoutStep::Ignore;
        }
        match timeout {
            TimeoutState::Ping => TimeoutStep::Again(self.send_ping(now)),
            TimeoutState::Tick => TimeoutStep::Again(self.send_tick(now, input)),
            TimeoutState::UpdateStats => {
                let mut stats: NetworkStats = self.stats;
                if let ClientState::Connected { rtt, .. } = self.state {
                    if let Some(rtt) = rtt.rtt() {
                        stats.rtt = rtt;
                    }
                }
                self.stats = NetworkStats::default();
                assert(self@ =~= ClientView { stats: no_stats(), ..old(self)@ });
                TimeoutStep::Report(stats)
            },
            TimeoutState::LostConnection => {
                let shutdown: Shutdown = self.start_shutdown(Some(Error::TimedOut));
                proof {
                    lemma_sent_times(
                        ClientView { queue: Seq::empty(), ..old(self)@ },
                        ClientPacket::Disconnect,
                        DISCONNECT_PACKETS as nat,
                    );
                }
                TimeoutStep::Close(shutdown)
            },
        }
    }

    fn send_ping(&mut self, now: Instant) -> (delay: Duration)
        requires
            old(self)@.wf(),
            old(self)@.connection.local_sequence < u32::MAX,
            !old(self)@.closing,
            old(self)@.state is Connected,
            now.nanos <= u64::MAX,
        ensures
            final(self)@.wf(),
            final(self)@ == (ClientView {
                state: final(self)@.state,
                ..old(self)@.sent(ClientPacket::Ping)
            }),
            final(self)@.state is Connected,
            final(self)@.state->tick == old(self)@.state->tick,
            final(self)@.state->rtt.pinged() == Some((old(self)@.connection.local_sequence, now)),
            final(self)@.state->rtt.estimate() == old(self)@.state->rtt.estimate(),
            rescheduled(old(self)@.state->ping, final(self)@.state->ping, now, delay),
    {
        let sequence: u32 = self.send(ClientPacket::Ping);
        let ghost sent = self@;
        let mut delay: Duration = Duration { nanos: 0 };
        if let ClientState::Connected { tick, rtt, ping } = self.state {
            let mut ping: Interval = ping;
            let mut rtt: RttEstimator = rtt;
            proof {
                law_next_tick_is_near(ping, now);
            }
            let (_, interval) = ping.next(now);
            delay = interval;
            rtt.ping(sequence, now);
            self.state = ClientState::Connected { tick, rtt, ping };
        }
        assert(self@ =~= ClientView { state: self@.state, ..sent });
        delay
    }

    fn send_tick(&mut self, now: Instant, input: Input) -> (delay: Duration)
        requires
            old(self)@.wf(),
            old(self)@.connection.local_sequence < u32::MAX,
            !old(self)@.closing,
            old(self)@.state is Connected,
            now.nanos <= u64::MAX,
        ensures
            final(self)@.wf(),
            final(self)@ == (ClientView {
                state: final(self)@.state,
                ..old(self)@.sent(ClientPacket::Input(input))
            }),
            final(self)@.state is Connected,
            rescheduled(old(self)@.state->tick, final(self)@.state->tick, now, delay),
            final(self)@.state->rtt == old(self)@.state->rtt,
            final(self)@.state->ping == old(self)@.state->ping,
    {
        let mut delay: Duration = Duration { nanos: 0 };
        if let ClientState::Connected { tick, rtt, ping } = self.state {
            let mut tick: Interval = tick;
            proof {
                law_next_tick_is_near(tick, now);
            }
            let (_, interval) = tick.next(now);
            delay = interval;
            self.state = ClientState::Connected { tick, rtt, ping };
        }
        let ghost ticked = self@;
        self.send(ClientPacket::Input(input));
        assert(self@ =~= ClientView {
            state: ticked.state,
            ..old(self)@.sent(ClientPacket::Input(input))
        });
        delay
    }

    /// Takes the next packet to be sent from the queue.
    ///
    /// If there is none, writable events no longer matter.
    pub fn take_next(&mut self) -> (next: Option<Outgoing>)
        requires
            old(self)@.wf(),
        ensures
            final(self)@.wf(),
            match next {
                Some(outgoing) => {
                    &&& old(self)@.queue.len() > 0
                    &&& outgoing@ == old(self)@.queue[0]
                    &&& final(self)@ == (ClientView {
                        queue: old(self)@.queue.drop_first(),
                        ..old(self)@
                    })
                },
                None => old(self)@.queue.len() == 0 && final(self)@ == old(self)@,
            },
    {
        let next: Option<Outgoing> = self.send_queue.pop_front();
        proof {
            if next is Some {
                assert(self@.queue =~= old(self)@.queue.drop_first());
            } else {
                assert(self@.queue =~= old(self)@.queue);
            }
        }
        next
    }

    /// Counts a packet that has been sent, and its bytes.
    pub fn count_sent(&mut self, bytes_written: usize)
        requires
            old(self)@.wf(),
            old(self)@.ready(),
            bytes_written <= 0x1_0000,
        ensures
            final(self)@.wf(),
            final(self)@ == (ClientView {
                stats: NetworkStats {
                    packets_sent: (old(self)@.stats.packets_sent + 1) as u16,
                    bytes_out: (old(self)@.stats.bytes_out + bytes_written) as u32,
                    ..old(self)@.stats
                },
                ..old(self)@
            }),
    {
        self.stats.packets_sent = self.stats.packets_sent + 1;
        self.stats.bytes_out = self.stats.bytes_out + bytes_written as u32;
        assert(self@.queue =~= old(self)@.queue);
    }
}

/// The numbers that are reported: the round trip time is only known once there is an estimate.
pub open spec fn reported(client: ClientView) -> NetworkStats {
    match client.state {
        ClientState::Connected { rtt, .. } => match rtt.estimate() {
            Some(estimate) => NetworkStats { rtt: estimate, ..client.stats },
            None => client.stats,
        },
        ClientState::Connecting { .. } => client.stats,
    }
}

pub proof fn lemma_sent_times(client: ClientView, packet: ClientPacket, times: nat)
    requires
        client.connection.local_sequence + times <= u32::MAX,
    ensures
        ({
            let after = client.sent_times(packet, times);
            &&& after == (ClientView {
                queue: after.queue,
                connection: Connection {
                    local_sequence: (client.connection.local_sequence + times) as u32,
                    ..client.connection
                },
                ..client
            })
            &&& after.queue.len() == client.queue.len() + times
            &&& forall|i: int|
                client.queue.len() <= i < after.queue.len() ==> (
                #[trigger] after.queue[i]).packet == packet
        }),
    decreases times,
{
    if times > 0 {
        lemma_sent_times(client, packet, (times - 1) as nat);
    }
}

/// What is left to be sent when the client has started to shut down tells the server nothing but
/// that it disconnects.
pub proof fn law_goodbye_is_all(before: ClientView, after: ClientView)
    requires
        before.has_numbers(),
        after == (ClientView {
            closing: true,
            ..ClientView { queue: Seq::empty(), ..before }.sent_times(
                ClientPacket::Disconnect,
                DISCONNECT_PACKETS as nat,
            )
        }),
    ensures
        after.queue.len() == DISCONNECT_PACKETS,
        forall|i: int|
            0 <= i < after.queue.len() ==> (#[trigger] after.queue[i]).packet
                == ClientPacket::Disconnect,
        after.state == before.state,
        after.stats == before.stats,
{
    lemma_sent_times(
        ClientView { queue: Seq::empty(), ..before },
        ClientPacket::Disconnect,
        DISCONNECT_PACKETS as nat,
    );
}

/// A connection is completed by a handshake and by nothing else, and it stays completed.
pub proof fn law_connected_by_handshake<S: Fn(Duration) -> Real, B: Fn(Real, Real) -> Real>(
    before: ClientView,
    after: ClientView,
    packet: ServerPacket,
    sequence: u32,
    now: Instant,
    seconds: S,
    blend: B,
    told: Told,
)
    requires
        acted(before, after, packet, sequence, now, seconds, blend, told),
    ensures
        after.state is Connected <==> before.state is Connected || packet is Handshake,
        told is Joined <==> before.state is Connecting && packet is Handshake,
{
}

} // verus!
