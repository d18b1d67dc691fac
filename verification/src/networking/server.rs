//! The server: its clients, and what is to be sent to them.

use std::collections::{HashMap, VecDeque};
use std::sync::Arc;
use vstd::prelude::*;

use crate::game::server::{
    aimed, colors, enters, joined, law_simulation_keeps, left, states, ticked, Game, Physics, Player,
};
use crate::game::{
    Ball, Event, GameSettings, Input, PlayerId, PlayerState, RoundState, Snapshot,
};
use crate::keys::keys;
use crate::networking::connection::{
    falling, header_bytes, header_noted, left_behind, received, sequences, Acks, Connection,
    HEADER_BYTES,
};
use crate::networking::packet::{share, ClientPacket, Frame, FrameView, ServerPacket};
use crate::networking::tick::{law_next_tick_is_near, Interval};
use crate::networking::{
    ponged, RecvError, RttEstimator, MAX_PACKET_SIZE, PING_RATE, SNAPSHOT_RATE,
};
use crate::number::{Color, Point, Real};
use crate::time::{Duration, Instant};

verus! {

broadcast use vstd::std_specs::hash::group_hash_axioms;

/// Rate at which the game is stepped forward: every 15 ms.
pub const TICK_RATE: u128 = 15_000_000;

/// Names the address of a client.
pub type Address = u64;

/// What the server knows about a client.
pub struct Client {
    player: PlayerId,
    connection: Connection,
    rtt: RttEstimator,
    last_input: u32,
    reliable: HashMap<u32, Arc<ServerPacket>>,
}

/// What the server knows about a client.
#[verifier::ext_equal]
pub struct ClientView {
    /// The player that the client plays.
    pub player: PlayerId,
    pub connection: Connection,
    pub rtt: RttEstimator,
    /// The sequence number of the most recent input.
    pub last_input: u32,
    /// Packets that have to arrive and have not been acknowledged, by their sequence
    /// numbers.
    pub reliable: Map<u32, ServerPacket>,
}

impl View for Client {
    type V = ClientView;

    closed spec fn view(&self) -> ClientView {
        ClientView {
            player: self.player,
            connection: self.connection,
            rtt: self.rtt,
            last_input: self.last_input,
            reliable: self.reliable@.map_values(|packet: Arc<ServerPacket>| *packet),
        }
    }
}

impl ClientView {
    /// The packets that are kept have been sent, and they have to arrive.
    pub open spec fn wf(self) -> bool {
        &&& self.reliable.dom().finite()
        &&& forall|sequence: u32| #[trigger]
            self.reliable.contains_key(sequence) ==> sequence < self.connection.local_sequence
                && self.reliable[sequence].is_reliable()
    }

    /// There are sequence numbers left for sending everything that is kept again, and this many
    /// more packets.
    pub open spec fn can_send(self, packets: int) -> bool {
        self.connection.local_sequence + self.reliable.len() + packets <= u32::MAX
    }

    /// The kept packets that were sent before the packet with this number.
    pub open spec fn kept_before(self, number: int) -> Set<u32> {
        self.reliable.dom().filter(|sequence: u32| sequence < number)
    }

    /// The client after a packet has been sent to it.
    pub open spec fn sent(self, packet: ServerPacket) -> ClientView {
        let sequence = self.connection.local_sequence;
        ClientView {
            connection: Connection {
                local_sequence: (sequence + 1) as u32,
                ..self.connection
            },
            reliable: if packet.is_reliable() {
                self.reliable.insert(sequence, packet)
            } else {
                self.reliable
            },
            ..self
        }
    }

    /// What is put on the wire when a packet is sent to the client.
    pub open spec fn frame(self, packet: ServerPacket) -> FrameView {
        FrameView {
            header: header_bytes(self.connection.local_sequence, self.connection.acks),
            packet,
        }
    }
}

impl Client {
    /// Encodes a packet and possibly saves it in the reliable packet
    /// buffer.
    ///
    /// Returns the frame and the sequence number.
    fn encode(&mut self, packet: &Arc<ServerPacket>) -> (result: (Frame, u32))
        requires
            old(self)@.connection.local_sequence < u32::MAX,
        ensures
            final(self)@ == old(self)@.sent(**packet),
            result.0@ == old(self)@.frame(**packet),
            result.1 == old(self)@.connection.local_sequence,
    {
        let mut header: Vec<u8> = Vec::new();
        let sequence: u32 = self.connection.send_header(&mut header);
        if packet.reliable() {
            self.reliable.insert(sequence, share(packet));
        }
        proof {
            assert(header@ =~= header_bytes(sequence, old(self)@.connection.acks));
            assert(self@ =~= old(self)@.sent(**packet));
        }
        (Frame { header, packet: share(packet) }, sequence)
    }
}

/// What is between the server and its clients.
#[verifier::ext_equal]
pub struct Net {
    pub clients: Map<Address, ClientView>,
    /// What is to be sent, the next one first.
    pub queue: Seq<(Address, FrameView)>,
}

/// The sequence numbers do not run out while this many more packets are sent to each client.
pub open spec fn has_room(clients: Map<Address, ClientView>, packets: int) -> bool {
    forall|address: Address| #[trigger]
        clients.contains_key(address) ==> clients[address].connection.local_sequence + packets
            <= u32::MAX
}

/// Whether a packet for all clients but `except` goes to the client with this address.
pub open spec fn addressed(
    clients: Map<Address, ClientView>,
    except: Option<Address>,
    address: Address,
) -> bool {
    clients.contains_key(address) && except != Some(address)
}

impl Net {
    /// A packet has been sent to all clients but `except`, in the given order.
    pub open spec fn broadcast_in_order(
        self,
        after: Net,
        packet: ServerPacket,
        except: Option<Address>,
        order: Seq<Address>,
    ) -> bool {
        &&& order.no_duplicates()
        &&& forall|address: Address| #[trigger]
            order.contains(address) <==> addressed(self.clients, except, address)
        &&& after.queue == self.queue + Seq::new(
            order.len(),
            |i: int| (order[i], self.clients[order[i]].frame(packet)),
        )
        &&& after.clients.dom() == self.clients.dom()
        &&& forall|address: Address| #[trigger]
            self.clients.contains_key(address) ==> after.clients[address] == (if except == Some(
                address,
            ) {
                self.clients[address]
            } else {
                self.clients[address].sent(packet)
            })
    }

    /// A packet has been sent once to all clients but `except`, in some order.
    pub open spec fn broadcast(
        self,
        after: Net,
        packet: ServerPacket,
        except: Option<Address>,
    ) -> bool {
        exists|order: Seq<Address>| #[trigger]
            self.broadcast_in_order(after, packet, except, order)
    }

    /// All clients have been told of some events, one after the other.
    pub open spec fn told(self, after: Net, events: Seq<Event>) -> bool
        decreases events.len(),
    {
        if events.len() == 0 {
            after == self
        } else {
            exists|middle: Net|
                self.told(middle, events.drop_last()) && #[trigger] middle.broadcast(
                    after,
                    ServerPacket::Event(events.last()),
                    None,
                )
        }
    }

    /// A packet has been sent to one client.
    pub open spec fn sent_to(self, address: Address, packet: ServerPacket) -> Net {
        Net {
            clients: self.clients.insert(address, self.clients[address].sent(packet)),
            queue: self.queue.push((address, self.clients[address].frame(packet))),
        }
    }
}

/// Telling clients of events neither adds nor removes any, and takes one sequence number of each
/// client for each event.
pub proof fn lemma_told(before: Net, after: Net, events: Seq<Event>)
    requires
        before.told(after, events),
        has_room(before.clients, events.len() as int),
    ensures
        after.clients.dom() == before.clients.dom(),
        before.queue.is_prefix_of(after.queue),
        forall|address: Address| #[trigger]
            before.clients.contains_key(address) ==> {
                &&& after.clients[address].player == before.clients[address].player
                &&& after.clients[address].connection.local_sequence
                    == before.clients[address].connection.local_sequence + events.len()
                &&& before.clients[address].wf() ==> after.clients[address].wf()
            },
    decreases events.len(),
{
    if events.len() > 0 {
        let packet = ServerPacket::Event(events.last());
        let middle = choose|middle: Net|
            before.told(middle, events.drop_last()) && #[trigger] middle.broadcast(
                after,
                packet,
                None,
            );
        lemma_told(before, middle, events.drop_last());
        let order = choose|order: Seq<Address>| #[trigger]
            middle.broadcast_in_order(after, packet, None, order);
        assert(before.queue.is_prefix_of(after.queue)) by {
            assert(before.queue =~= after.queue.subrange(0, before.queue.len() as int));
        }
        assert forall|address: Address| #[trigger] before.clients.contains_key(address) implies {
            &&& after.clients[address].player == before.clients[address].player
            &&& after.clients[address].connection.local_sequence
                == before.clients[address].connection.local_sequence + events.len()
            &&& before.clients[address].wf() ==> after.clients[address].wf()
        } by {
            assert(middle.clients.contains_key(address));
        }
    }
}

/// Runs a server.
pub struct Server {
    send_queue: VecDeque<(Address, Frame)>,
    clients: HashMap<Address, Client>,
    game: Game,
    send_tick: Interval,
    game_tick: Interval,
    ping: Interval,
}

impl Server {
    /// The clients, and what is to be sent to them.
    pub closed spec fn net(self) -> Net {
        Net {
            clients: self.clients@.map_values(|client: Client| client@),
            queue: self.send_queue@.map_values(
                |entry: (Address, Frame)| (entry.0, entry.1@),
            ),
        }
    }

    /// There are only finitely many clients.
    pub proof fn lemma_finitely_many_clients(self)
        ensures
            self.net().clients.dom().finite(),
    {
        assert(self.net().clients.dom() =~= self.clients@.dom());
    }

    /// The game that is played.
    pub closed spec fn played(self) -> Game {
        self.game
    }

    /// The ticks at which snapshots are sent.
    pub closed spec fn snapshots(self) -> Interval {
        self.send_tick
    }

    /// The ticks at which the game is stepped forward.
    pub closed spec fn ticks(self) -> Interval {
        self.game_tick
    }

    /// The ticks at which pings are sent.
    pub closed spec fn pings(self) -> Interval {
        self.ping
    }

    /// Sends a packet to all clients but `except`.
    ///
    /// Returns whether there is anybody to send to: the socket has to be watched for
    /// becoming writable then.
    fn broadcast_filter(&mut self, packet: &Arc<ServerPacket>, except: Option<Address>) -> (waiting:
        bool)
        requires
            has_room(old(self).net().clients, 1),
        ensures
            waiting == (old(self).net().clients.len() > 0),
            old(self).net().broadcast(final(self).net(), **packet, except),
            final(self).game == old(self).game,
            final(self).send_tick == old(self).send_tick,
            final(self).game_tick == old(self).game_tick,
            final(self).ping == old(self).ping,
    {
        let ghost before = self.net();
        assert(before.clients.dom() =~= old(self).clients@.dom());
        if self.clients.is_empty() {
            proof {
                let order = Seq::<Address>::empty();
                assert(before.clients.dom() =~= Set::<Address>::empty());
                assert(before.queue + Seq::new(
                    0,
                    |i: int| (order[i], before.clients[order[i]].frame(**packet)),
                ) =~= before.queue);
                assert(before.broadcast_in_order(self.net(), **packet, except, order));
            }
            return false;
        }
        let addresses: Vec<Address> = keys(&self.clients);
        let ghost mut order = Seq::<Address>::empty();
        let mut at: usize = 0;
        assert(before.queue =~= before.queue + Seq::new(
            0,
            |i: int| (order[i], before.clients[order[i]].frame(**packet)),
        ));
        while at < addresses.len()
            invariant
                at <= addresses@.len(),
                before == old(self).net(),
                has_room(before.clients, 1),
                addresses@.no_duplicates(),
                forall|address: Address| #[trigger]
                    addresses@.contains(address) <==> before.clients.contains_key(address),
                order.no_duplicates(),
                forall|address: Address| #[trigger]
                    order.contains(address) <==> except != Some(address) && exists|i: int|
                        0 <= i < at && #[trigger] addresses@[i] == address,
                self.net().clients.dom() == before.clients.dom(),
                forall|address: Address| #[trigger]
                    before.clients.contains_key(address) ==> self.net().clients[address] == (
                    if order.contains(address) {
                        before.clients[address].sent(**packet)
                    } else {
                        before.clients[address]
                    }),
                self.net().queue == before.queue + Seq::new(
                    order.len(),
                    |i: int| (order[i], before.clients[order[i]].frame(**packet)),
                ),
                self.game == old(self).game,
                self.send_tick == old(self).send_tick,
                self.game_tick == old(self).game_tick,
                self.ping == old(self).ping,
            decreases addresses@.len() - at,
        {
            let address: Address = addresses[at];
            assert(addresses@.contains(address));
            if except != Some(address) {
                let ghost middle = self.net();
                let ghost earlier = order;
                assert(!earlier.contains(address)) by {
                    if earlier.contains(address) {
                        let i = choose|i: int| 0 <= i < at && #[trigger] addresses@[i] == address;
                        assert(addresses@[i] != addresses@[at as int]);
                    }
                }
                self.send_to(address, packet);
                proof {
                    order = order.push(address);
                    lemma_pushed(earlier, address);
                    assert(self.net().queue =~= before.queue + Seq::new(
                        order.len(),
                        |i: int| (order[i], before.clients[order[i]].frame(**packet)),
                    ));
                    assert(self.net().clients.dom() =~= before.clients.dom());
                }
            }
            at = at + 1;
        }
        proof {
            assert(before.broadcast_in_order(self.net(), **packet, except, order)) by {
                assert forall|address: Address| #[trigger] order.contains(address) <==> addressed(
                    before.clients,
                    except,
                    address,
                ) by {
                    assert(addresses@.contains(address) <==> before.clients.contains_key(address));
                }
            }
        }
        true
    }

    /// Sends a packet to one client, and returns its sequence number.
    fn send_to(&mut self, address: Address, packet: &Arc<ServerPacket>) -> (sequence: u32)
        requires
            old(self).net().clients.contains_key(address),
            old(self).net().clients[address].connection.local_sequence < u32::MAX,
        ensures
            final(self).net() == old(self).net().sent_to(address, **packet),
            sequence == old(self).net().clients[address].connection.local_sequence,
            final(self).game == old(self).game,
            final(self).send_tick == old(self).send_tick,
            final(self).game_tick == old(self).game_tick,
            final(self).ping == old(self).ping,
    {
        let mut client: Client = self.clients.remove(&address).unwrap();
        let (frame, sequence) = client.encode(packet);
        self.clients.insert(address, client);
        self.send_queue.push_back((address, frame));
        assert(self.net() =~= old(self).net().sent_to(address, **packet));
        sequence
    }
}

proof fn lemma_pushed(order: Seq<Address>, address: Address)
    requires
        order.no_duplicates(),
        !order.contains(address),
    ensures
        order.push(address).no_duplicates(),
        forall|other: Address| #[trigger]
            order.push(address).contains(other) <==> order.contains(other) || other == address,
{
    assert forall|other: Address| #[trigger]
        order.push(address).contains(other) <==> order.contains(other) || other == address by {
        if order.contains(other) {
            let i = choose|i: int| 0 <= i < order.len() && order[i] == other;
            assert(order.push(address)[i] == other);
        }
        if other == address {
            assert(order.push(address)[order.len() as int] == other);
        }
    }
}

/// The computations that running a server takes.
///
/// - `clamp` pulls a cursor back to within bounds.
/// - `start` gives the starting state of the ball for a cursor.
/// - `color` gives the color for a hue.
/// - `seconds` counts the seconds of a span of time.
/// - `blend` mixes a new sample into an estimated round trip time.
pub struct Rules<K, B, L, S, E> {
    pub clamp: K,
    pub start: B,
    pub color: L,
    pub seconds: S,
    pub blend: E,
}

impl<K, B, L, S, E> Rules<K, B, L, S, E> where
    K: Fn(Point, GameSettings) -> Point,
    B: Fn(Point, GameSettings) -> Ball,
    L: Fn(u32) -> Color,
    S: Fn(Duration) -> Real,
    E: Fn(Real, Real) -> Real,
 {
    /// The computations can be made for all values.
    pub open spec fn total(self) -> bool {
        &&& forall|cursor: Point, settings: GameSettings|
            call_requires(self.clamp, (cursor, settings))
        &&& forall|cursor: Point, settings: GameSettings|
            call_requires(self.start, (cursor, settings))
        &&& forall|hue: u32| call_requires(self.color, (hue,))
        &&& forall|span: Duration| call_requires(self.seconds, (span,))
        &&& forall|rtt: Real, sample: Real| call_requires(self.blend, (rtt, sample))
    }
}

impl ClientView {
    /// The client after it has acknowledged some packets: these need not be kept.
    pub open spec fn acked(self, acks: Acks) -> ClientView {
        ClientView {
            reliable: Map::new(
                |sequence: u32|
                    self.reliable.contains_key(sequence) && !acks.has(sequence as int),
                |sequence: u32| self.reliable[sequence],
            ),
            ..self
        }
    }

    /// The client after some packets have been reported lost: those that are kept and still of
    /// interest have been sent again, under new sequence numbers.
    pub open spec fn recovered(
        self,
        lost: Seq<u32>,
        round: RoundState,
        settings: GameSettings,
    ) -> ClientView
        decreases lost.len(),
    {
        if lost.len() == 0 {
            self
        } else {
            self.recovered(lost.drop_last(), round, settings).recovered_one(
                lost.last(),
                round,
                settings,
            )
        }
    }

    /// The client after one packet has been reported lost.
    pub open spec fn recovered_one(
        self,
        lost: u32,
        round: RoundState,
        settings: GameSettings,
    ) -> ClientView {
        let rest = ClientView { reliable: self.reliable.remove(lost), ..self };
        if !self.reliable.contains_key(lost) {
            self
        } else if self.reliable[lost].is_current(round, settings) {
            rest.sent(self.reliable[lost])
        } else {
            rest
        }
    }

    /// What is sent again when some packets have been reported lost.
    pub open spec fn recovery(
        self,
        lost: Seq<u32>,
        round: RoundState,
        settings: GameSettings,
    ) -> Seq<FrameView>
        decreases lost.len(),
    {
        if lost.len() == 0 {
            Seq::empty()
        } else {
            let earlier = self.recovered(lost.drop_last(), round, settings);
            let frames = self.recovery(lost.drop_last(), round, settings);
            if earlier.reliable.contains_key(lost.last())
                && earlier.reliable[lost.last()].is_current(round, settings) {
                frames.push(earlier.frame(earlier.reliable[lost.last()]))
            } else {
                frames
            }
        }
    }
}

/// Sending lost packets again takes at most one sequence number for each that is kept, and keeps
/// all else.
pub proof fn lemma_recovered(
    client: ClientView,
    lost: Seq<u32>,
    round: RoundState,
    settings: GameSettings,
)
    requires
        client.wf(),
        client.can_send(0),
        falling(lost),
    ensures
        ({
            let number = client.connection.local_sequence;
            let after = client.recovered(lost, round, settings);
            &&& after.wf()
            &&& after.connection.local_sequence + after.kept_before(number as int).len()
                <= number + client.reliable.len()
            &&& after.kept_before(number as int).subset_of(client.reliable.dom())
            &&& after.connection.local_sequence >= number
            &&& after.connection.acks == client.connection.acks
            &&& after.connection.remote_acks == client.connection.remote_acks
            &&& after.player == client.player
            &&& after.rtt == client.rtt
            &&& after.last_input == client.last_input
            &&& lost.len() > 0 && lost.last() >= number ==> after == client
        }),
    decreases lost.len(),
{
    let number = client.connection.local_sequence as int;
    if lost.len() == 0 {
        assert(client.kept_before(number) =~= client.reliable.dom());
    } else {
        let front = lost.drop_last();
        let last = lost.last();
        lemma_recovered(client, front, round, settings);
        let middle = client.recovered(front, round, settings);
        let after = client.recovered(lost, round, settings);
        if front.len() > 0 {
            assert(lost[front.len() - 1] > lost[front.len() as int]);
        }
        if last >= number {
            assert(middle == client);
        } else if middle.reliable.contains_key(last) {
            assert(middle.kept_before(number).contains(last));
            assert(after.kept_before(number) =~= middle.kept_before(number).remove(last));
        }
    }
}

/// There is a sequence number left for sending the last of some lost packets again.
proof fn lemma_room_to_resend(
    client: ClientView,
    lost: Seq<u32>,
    round: RoundState,
    settings: GameSettings,
)
    requires
        client.wf(),
        client.can_send(0),
        falling(lost),
        lost.len() > 0,
        client.recovered(lost.drop_last(), round, settings).reliable.contains_key(lost.last()),
    ensures
        client.recovered(lost.drop_last(), round, settings).connection.local_sequence < u32::MAX,
{
    let front = lost.drop_last();
    let number = client.connection.local_sequence as int;
    let middle = client.recovered(front, round, settings);
    lemma_recovered(client, front, round, settings);
    if front.len() > 0 {
        assert(lost[front.len() - 1] > lost[front.len() as int]);
    }
    if lost.last() >= number {
        assert(middle == client);
    } else {
        assert(middle.kept_before(number).contains(lost.last()));
        assert(middle.kept_before(number).subset_of(middle.reliable.dom()));
        vstd::set_lib::lemma_len_subset(middle.kept_before(number), middle.reliable.dom());
        assert(middle.kept_before(number).len() > 0) by {
            if middle.kept_before(number).len() == 0 {
                assert(middle.kept_before(number) =~= Set::<u32>::empty());
            }
        }
    }
}

/// Acknowledged packets are not kept, so there are no more of the others.
pub proof fn lemma_acked(client: ClientView, acks: Acks)
    requires
        client.wf(),
    ensures
        client.acked(acks).wf(),
        client.acked(acks).reliable.len() <= client.reliable.len(),
{
    let less = client.acked(acks).reliable.dom();
    assert(less.subset_of(client.reliable.dom()));
    vstd::set_lib::lemma_len_subset(less, client.reliable.dom());
}

impl Client {
    /// Forgets the kept packets that have been acknowledged.
    fn forget(&mut self, acks: Acks)
        ensures
            final(self)@ == old(self)@.acked(acks),
    {
        let acked: Vec<u32> = acks.iter();
        let ghost before = self@;
        let mut at: usize = 0;
        while at < acked.len()
            invariant
                at <= acked@.len(),
                self@ == (ClientView { reliable: self@.reliable, ..before }),
                forall|sequence: u32| #[trigger]
                    self@.reliable.contains_key(sequence) <==> before.reliable.contains_key(
                        sequence,
                    ) && !exists|i: int| 0 <= i < at && #[trigger] acked@[i] == sequence,
                forall|sequence: u32| #[trigger]
                    self@.reliable.contains_key(sequence) ==> self@.reliable[sequence]
                        == before.reliable[sequence],
            decreases acked@.len() - at,
        {
            let ghost middle = self@;
            self.reliable.remove(&acked[at]);
            proof {
                assert(self@ =~= ClientView {
                    reliable: middle.reliable.remove(acked@[at as int]),
                    ..middle
                });
                assert forall|sequence: u32| #[trigger]
                    self@.reliable.contains_key(sequence) <==> before.reliable.contains_key(
                        sequence,
                    ) && !exists|i: int| 0 <= i < at + 1 && #[trigger] acked@[i] == sequence by {
                    if sequence == acked@[at as int] {
                        assert(acked@[at as int] == sequence);
                    } else if middle.reliable.contains_key(sequence) {
                        assert(!exists|i: int| 0 <= i < at && #[trigger] acked@[i] == sequence);
                    }
                }
            }
            at = at + 1;
        }
        proof {
            assert forall|sequence: u32| #[trigger]
                self@.reliable.contains_key(sequence) <==> before.acked(acks).reliable.contains_key(
                    sequence,
                ) by {
                assert(acked@.contains(sequence) <==> acks.has(sequence as int));
            }
            assert(self@.reliable =~= before.acked(acks).reliable);
        }
    }

    /// Sends the packets that got lost again, if they have to arrive and are still of interest.
    fn recover(&mut self, lost: &Vec<u32>, round: RoundState, settings: &GameSettings) -> (frames:
        Vec<Frame>)
        requires
            old(self)@.wf(),
            old(self)@.can_send(0),
            falling(lost@),
        ensures
            final(self)@ == old(self)@.recovered(lost@, round, *settings),
            frames@.map_values(|frame: Frame| frame@) == old(self)@.recovery(
                lost@,
                round,
                *settings,
            ),
    {
        let ghost before = self@;
        let mut frames: Vec<Frame> = Vec::new();
        let mut at: usize = 0;
        assert(lost@.take(0) =~= Seq::<u32>::empty());
        assert(frames@.map_values(|frame: Frame| frame@) =~= Seq::<FrameView>::empty());
        while at < lost.len()
            invariant
                at <= lost@.len(),
                before.wf(),
                before.can_send(0),
                falling(lost@),
                self@ == before.recovered(lost@.take(at as int), round, *settings),
                frames@.map_values(|frame: Frame| frame@) == before.recovery(
                    lost@.take(at as int),
                    round,
                    *settings,
                ),
            decreases lost@.len() - at,
        {
            let ghost middle = self@;
            proof {
                lemma_recovered(before, lost@.take(at as int), round, *settings);
                assert(lost@.take(at + 1).drop_last() =~= lost@.take(at as int));
                assert(lost@.take(at + 1).last() == lost@[at as int]);
            }
            match self.reliable.remove(&lost[at]) {
                Some(packet) => {
                    assert(self@ =~= ClientView {
                        reliable: middle.reliable.remove(lost@[at as int]),
                        ..middle
                    });
                    proof {
                        lemma_room_to_resend(before, lost@.take(at + 1), round, *settings);
                    }
                    assert(*packet == middle.reliable[lost@[at as int]]);
                    if packet.resend(round, settings) {
                        let (frame, _) = self.encode(&packet);
                        let ghost earlier = frames@;
                        frames.push(frame);
                        assert(frames@.map_values(|frame: Frame| frame@) =~= earlier.map_values(
                            |frame: Frame| frame@,
                        ).push(frame@));
                    }
                },
                None => {
                    assert(self@ =~= middle);
                },
            }
            at = at + 1;
        }
        assert(lost@.take(lost@.len() as int) =~= lost@);
        frames
    }
}

/// Whether the player with this id is played by the client with this address.
pub open spec fn plays(clients: Map<Address, ClientView>, address: Address, id: PlayerId) -> bool {
    clients.contains_key(address) && clients[address].player == id
}

/// Every client plays a player of its own, and every player is played by a client.
pub open spec fn matched(
    clients: Map<Address, ClientView>,
    players: Map<PlayerId, Player>,
) -> bool {
    &&& forall|address: Address| #[trigger]
        clients.contains_key(address) ==> players.contains_key(clients[address].player)
    &&& forall|a: Address, b: Address|
        #![trigger clients.contains_key(a), clients.contains_key(b)]
        clients.contains_key(a) && clients.contains_key(b) && clients[a].player
            == clients[b].player ==> a == b
    &&& forall|id: PlayerId| #[trigger]
        players.contains_key(id) ==> exists|address: Address| #[trigger]
            plays(clients, address, id)
}

/// All clients are in order.
pub open spec fn all_wf(clients: Map<Address, ClientView>) -> bool {
    forall|address: Address| #[trigger]
        clients.contains_key(address) ==> clients[address].wf()
}

/// The players stay matched while the same clients go on playing them.
proof fn lemma_still_matched(
    before: Map<Address, ClientView>,
    after: Map<Address, ClientView>,
    players: Map<PlayerId, Player>,
    same: Map<PlayerId, Player>,
)
    requires
        matched(before, players),
        same.dom() == players.dom(),
        after.dom() == before.dom(),
        forall|address: Address| #[trigger]
            before.contains_key(address) ==> after[address].player == before[address].player,
    ensures
        matched(after, same),
{
    assert forall|address: Address| #[trigger] after.contains_key(address) implies same.contains_key(
        after[address].player,
    ) by {
        assert(before.contains_key(address));
        assert(players.contains_key(before[address].player));
    }
    assert forall|a: Address, b: Address|
        #![trigger after.contains_key(a), after.contains_key(b)]
        after.contains_key(a) && after.contains_key(b) && after[a].player
            == after[b].player implies a == b by {
        assert(before.contains_key(a) && before.contains_key(b));
    }
    assert forall|id: PlayerId| #[trigger] same.contains_key(id) implies exists|address: Address|
        #[trigger] plays(after, address, id) by {
        assert(players.contains_key(id));
        let address = choose|address: Address| #[trigger] plays(before, address, id);
        assert(before.contains_key(address));
        assert(plays(after, address, id));
    }
}

/// The players stay matched when a client with a new player joins.
proof fn lemma_matched_with(
    before: Map<Address, ClientView>,
    after: Map<Address, ClientView>,
    players: Map<PlayerId, Player>,
    address: Address,
    player: Player,
)
    requires
        matched(before, players),
        !before.contains_key(address),
        !players.contains_key(after[address].player),
        after.dom() == before.dom().insert(address),
        forall|other: Address| #[trigger]
            before.contains_key(other) ==> after[other].player == before[other].player,
    ensures
        matched(after, players.insert(after[address].player, player)),
{
    let more = players.insert(after[address].player, player);
    assert forall|other: Address| #[trigger] after.contains_key(other) implies more.contains_key(
        after[other].player,
    ) by {
        if other != address {
            assert(before.contains_key(other));
        }
    }
    assert forall|a: Address, b: Address|
        #![trigger after.contains_key(a), after.contains_key(b)]
        after.contains_key(a) && after.contains_key(b) && after[a].player
            == after[b].player implies a == b by {
        if a != address {
            assert(before.contains_key(a));
        }
        if b != address {
            assert(before.contains_key(b));
        }
    }
    assert forall|id: PlayerId| #[trigger] more.contains_key(id) implies exists|other: Address|
        #[trigger] plays(after, other, id) by {
        if id == after[address].player {
            assert(plays(after, address, id));
        } else {
            assert(players.contains_key(id));
            let other = choose|other: Address| #[trigger] plays(before, other, id);
            assert(before.contains_key(other));
            assert(plays(after, other, id));
        }
    }
}

/// The players stay matched when a client leaves with its player.
proof fn lemma_matched_without(
    before: Map<Address, ClientView>,
    players: Map<PlayerId, Player>,
    address: Address,
)
    requires
        matched(before, players),
        before.contains_key(address),
    ensures
        matched(before.remove(address), players.remove(before[address].player)),
{
    let after = before.remove(address);
    let less = players.remove(before[address].player);
    assert forall|other: Address| #[trigger] after.contains_key(other) implies less.contains_key(
        after[other].player,
    ) by {
        assert(before.contains_key(other));
    }
    assert forall|a: Address, b: Address|
        #![trigger after.contains_key(a), after.contains_key(b)]
        after.contains_key(a) && after.contains_key(b) && after[a].player
            == after[b].player implies a == b by {
        assert(before.contains_key(a) && before.contains_key(b));
    }
    assert forall|id: PlayerId| #[trigger] less.contains_key(id) implies exists|other: Address|
        #[trigger] plays(after, other, id) by {
        assert(players.contains_key(id));
        let other = choose|other: Address| #[trigger] plays(before, other, id);
        assert(plays(after, other, id));
    }
}

/// How many packets there has to be room for whenever something happens, besides those that are
/// sent again.
pub const ROOM: u32 = 2;

/// Whether a packet tells a client all about the game that it has joined.
pub open spec fn welcomes(packet: ServerPacket, id: PlayerId, game: Game) -> bool {
    &&& packet is Handshake
    &&& packet->id == id
    &&& packet->settings == game.settings
    &&& packet->players@ == colors(game.players@)
    &&& packet->round == game.round
    &&& packet->round_duration == game.round_duration
    &&& packet->snapshot.players@ == states(game.players@)
}

/// Whether this is a client that has just joined.
pub open spec fn is_fresh(client: ClientView, id: PlayerId, connection: Connection) -> bool {
    &&& client.player == id
    &&& client.connection == connection
    &&& client.rtt.pinged() is None
    &&& client.rtt.estimate() is None
    &&& client.last_input == 0
    &&& client.reliable == Map::<u32, ServerPacket>::empty()
}

/// A client has been added, and has been told all about the game.
pub open spec fn welcomed(
    before: Net,
    after: Net,
    address: Address,
    connection: Connection,
    id: PlayerId,
    game: Game,
) -> bool {
    exists|client: ClientView, packet: ServerPacket| #[trigger]
        is_fresh(client, id, connection) && #[trigger] welcomes(packet, id, game) && after == (Net {
            clients: before.clients.insert(address, client),
            ..before
        }).sent_to(address, packet)
}

/// A client has joined with a player: the others have been told of that, and it has been told
/// all about the game.
pub open spec fn entered<K, B, L, S, E>(
    before: Net,
    game: Game,
    after: Net,
    after_game: Game,
    address: Address,
    connection: Connection,
    cursor: Point,
    rules: Rules<K, B, L, S, E>,
) -> bool where
    K: Fn(Point, GameSettings) -> Point,
    B: Fn(Point, GameSettings) -> Ball,
    L: Fn(u32) -> Color,
 {
    exists|clamped: Point, events: Seq<Event>, middle: Net|
        call_ensures(rules.clamp, (cursor, game.settings), clamped) && #[trigger] joined(
            game,
            after_game,
            clamped,
            rules.start,
            rules.color,
            events,
        ) && before.told(middle, events) && #[trigger] welcomed(
            middle,
            after,
            address,
            connection,
            game.next_id,
            after_game,
        )
}

/// A client has left with its player, and the others have been told of that.
pub open spec fn dropped(
    before: Net,
    game: Game,
    after: Net,
    after_game: Game,
    address: Address,
) -> bool {
    exists|events: Seq<Event>| #[trigger]
        left(game, after_game, before.clients[address].player, events) && (Net {
            clients: before.clients.remove(address),
            ..before
        }).told(after, events)
}

impl Server {
    /// Every client plays a player of its own, and every player is played by a client.
    pub open spec fn wf(self) -> bool {
        &&& self.played().wf()
        &&& matched(self.net().clients, self.played().players@)
        &&& all_wf(self.net().clients)
        &&& self.snapshots().length() == SNAPSHOT_RATE
        &&& self.ticks().length() == TICK_RATE
        &&& self.pings().length() == PING_RATE
    }

    /// There are enough sequence numbers left for whatever happens next.
    pub open spec fn ready(self) -> bool {
        forall|address: Address| #[trigger]
            self.net().clients.contains_key(address) ==> self.net().clients[address].can_send(
                ROOM as int,
            )
    }

    /// There is an id left for one more player.
    pub open spec fn accepting(self) -> bool {
        self.played().next_id < PlayerId::MAX
    }

    /// Tells all clients of some events.
    ///
    /// Returns whether anything has been sent.
    fn send_events(&mut self, events: Vec<Event>) -> (waiting: bool)
        requires
            has_room(old(self).net().clients, events@.len() as int),
        ensures
            waiting == (events@.len() > 0 && old(self).net().clients.len() > 0),
            old(self).net().told(final(self).net(), events@),
            final(self).game == old(self).game,
            final(self).send_tick == old(self).send_tick,
            final(self).game_tick == old(self).game_tick,
            final(self).ping == old(self).ping,
    {
        let ghost before = self.net();
        let ghost list = events@;
        let mut waiting: bool = false;
        assert(list.take(0) =~= Seq::<Event>::empty());
        for event in walk: events
            invariant
                walk.seq() == list,
                before == old(self).net(),
                has_room(before.clients, list.len() as int),
                before.told(self.net(), list.take(walk.index())),
                waiting == (walk.index() > 0 && before.clients.len() > 0),
                self.game == old(self).game,
                self.send_tick == old(self).send_tick,
                self.game_tick == old(self).game_tick,
                self.ping == old(self).ping,
        {
            let ghost at = walk.index();
            let ghost middle = self.net();
            proof {
                lemma_told(before, middle, list.take(at));
                assert forall|address: Address| #[trigger]
                    middle.clients.contains_key(
                        address,
                    ) implies middle.clients[address].connection.local_sequence + 1
                    <= u32::MAX by {
                    assert(before.clients.contains_key(address));
                }
            }
            let packet: Arc<ServerPacket> = Arc::new(ServerPacket::Event(event));
            waiting = self.broadcast_filter(&packet, None);
            proof {
                assert(list.take(at + 1).drop_last() =~= list.take(at));
                assert(list.take(at + 1).last() == event);
                assert(middle.broadcast(self.net(), ServerPacket::Event(event), None));
            }
        }
        assert(list.take(list.len() as int) =~= list);
        waiting
    }

    /// Removes a client, and its player with it.
    ///
    /// Returns whether others have been told.
    fn remove_client(&mut self, address: Address) -> (waiting: bool)
        requires
            old(self).wf(),
            has_room(old(self).net().clients, 2),
        ensures
            final(self).wf(),
            if old(self).net().clients.contains_key(address) {
                &&& waiting == (final(self).net().clients.len() > 0)
                &&& dropped(
                    old(self).net(),
                    old(self).played(),
                    final(self).net(),
                    final(self).played(),
                    address,
                )
            } else {
                &&& !waiting
                &&& final(self).net() == old(self).net()
                &&& final(self).played() == old(self).played()
            },
            final(self).send_tick == old(self).send_tick,
            final(self).game_tick == old(self).game_tick,
            final(self).ping == old(self).ping,
    {
        let ghost before = self.net();
        if let Some(client) = self.clients.remove(&address) {
            let ghost rest = Net { clients: before.clients.remove(address), ..before };
            assert(self.net() =~= rest);
            assert(client@ == before.clients[address]);
            let events: Vec<Event> = self.game.remove_player(client.player);
            let ghost list = events@;
            assert(has_room(rest.clients, list.len() as int));
            let waiting: bool = self.send_events(events);
            proof {
                lemma_told(rest, self.net(), list);
                lemma_matched_without(before.clients, old(self).game.players@, address);
                lemma_still_matched(
                    rest.clients,
                    self.net().clients,
                    self.game.players@,
                    self.game.players@,
                );
                assert(left(old(self).game, self.game, before.clients[address].player, list));
                assert(dropped(before, old(self).played(), self.net(), self.played(), address));
                assert forall|other: Address| #[trigger]
                    self.net().clients.contains_key(other) implies self.net().clients[other].wf() by {
                    assert(rest.clients.contains_key(other));
                    assert(before.clients.contains_key(other));
                }
            }
            return waiting;
        }
        assert(self.net() =~= before);
        false
    }
}

/// What becomes of the time that is kept for a client's connection to time out.
#[derive(Copy, Clone, Debug, PartialEq, Eq, Structural)]
pub enum Watch {
    /// It runs on, if there is any.
    Leave,
    /// It starts to run.
    Start,
    /// It starts over.
    Restart,
}

/// What happened on receiving a packet.
#[derive(Copy, Clone, Debug)]
pub struct Received {
    pub result: Result<(), RecvError>,
    pub watch: Watch,
    /// Whether the socket has to be watched for becoming writable.
    pub waiting: bool,
}

/// The header of a packet from a client has been taken into account: packets that it
/// acknowledges are no longer kept, and those that got lost have been sent again.
pub open spec fn heard(
    before: Net,
    after: Net,
    address: Address,
    bytes: Seq<u8>,
    sequence: u32,
    round: RoundState,
    settings: GameSettings,
) -> bool {
    exists|connection: Connection, acks: Acks, lost: Seq<u32>| #[trigger]
        received(before.clients[address].connection, connection, bytes, sequence, acks, lost) && ({
            let client = ClientView { connection, ..before.clients[address] }.acked(acks);
            &&& after.clients == before.clients.insert(
                address,
                client.recovered(lost, round, settings),
            )
            &&& after.queue == before.queue + client.recovery(lost, round, settings).map_values(
                |frame: FrameView| (address, frame),
            )
        })
}

/// The contents of a packet from a client have been acted on.
///
/// - Input that is older than what has been received already is ignored.
/// - New settings are passed on to the others.
/// - A second handshake is ignored.
/// - A ping is answered with its own sequence number.
pub open spec fn acted<K, B, L, S, E>(
    before: Net,
    game: Game,
    after: Net,
    after_game: Game,
    address: Address,
    packet: ClientPacket,
    sequence: u32,
    now: Instant,
    rules: Rules<K, B, L, S, E>,
) -> bool where
    K: Fn(Point, GameSettings) -> Point,
    B: Fn(Point, GameSettings) -> Ball,
    S: Fn(Duration) -> Real,
    E: Fn(Real, Real) -> Real,
 {
    let client = before.clients[address];
    match packet {
        ClientPacket::Input(input) => if sequence > client.last_input {
            &&& after.queue == before.queue
            &&& after.clients == before.clients.insert(
                address,
                ClientView { last_input: sequence, ..client },
            )
            &&& exists|cursor: Point|
                call_ensures(rules.clamp, (input.cursor, game.settings), cursor)
                    && #[trigger] aimed(game, after_game, client.player, cursor, rules.start)
        } else {
            after == before && after_game == game
        },
        ClientPacket::Settings(settings) => {
            &&& after_game == Game { settings, ..game }
            &&& before.broadcast(
                after,
                ServerPacket::Event(Event::Settings(settings)),
                Some(address),
            )
        },
        ClientPacket::Handshake { .. } => after == before && after_game == game,
        ClientPacket::Disconnect => dropped(before, game, after, after_game, address),
        ClientPacket::Ping => {
            &&& after == before.sent_to(address, ServerPacket::Pong(sequence))
            &&& after_game == game
        },
        ClientPacket::Pong(answered) => {
            &&& after_game == game
            &&& after.queue == before.queue
            &&& exists|rtt: RttEstimator| #[trigger]
                ponged(client.rtt, rtt, answered, now, rules.seconds, rules.blend)
                    && after.clients == before.clients.insert(address, ClientView { rtt, ..client })
        },
    }
}

impl Server {
    /// Takes the header of a packet from a client into account.
    ///
    /// Returns the contents and the sequence number of the packet, and whether any lost packets
    /// have been sent again.
    fn hear(&mut self, address: Address, packet: &[u8], contents: Option<ClientPacket>) -> (result:
        Result<(ClientPacket, u32, bool), RecvError>)
        requires
            old(self).wf(),
            old(self).ready(),
            old(self).net().clients.contains_key(address),
        ensures
            final(self).wf(),
            has_room(final(self).net().clients, ROOM as int),
            final(self).net().clients.dom() == old(self).net().clients.dom(),
            final(self).game == old(self).game,
            final(self).send_tick == old(self).send_tick,
            final(self).game_tick == old(self).game_tick,
            final(self).ping == old(self).ping,
            packet@.len() < HEADER_BYTES ==> result == Err::<(ClientPacket, u32, bool), RecvError>(
                RecvError::HeaderRead,
            ) && final(self).net() == old(self).net(),
            packet@.len() >= HEADER_BYTES && contents is None ==> {
                &&& result == Err::<(ClientPacket, u32, bool), RecvError>(RecvError::Deserialize)
                &&& noted(old(self).net(), final(self).net(), address, packet@)
            },
            packet@.len() >= HEADER_BYTES && contents is Some ==> {
                &&& result matches Ok(heard_packet)
                &&& heard_packet.0 == contents->0
                &&& heard_packet.2 == (final(self).net().queue.len() > old(self).net().queue.len())
                &&& heard(
                    old(self).net(),
                    final(self).net(),
                    address,
                    packet@,
                    heard_packet.1,
                    old(self).played().round,
                    old(self).played().settings,
                )
            },
    {
        let ghost before = self.net();
        assert(before.clients.contains_key(address));
        assert(has_room(before.clients, ROOM as int));
        let mut client: Client = self.clients.remove(&address).unwrap();
        let ghost first = client@;
        assert(first == before.clients[address]);
        let decoded = client.connection.decode(packet, contents);
        let ghost connection = client.connection;
        let ghost second = client@;
        assert(second =~= ClientView { connection, ..first });
        match decoded {
            Err(err) => {
                self.clients.insert(address, client);
                proof {
                    assert(self.net() =~= Net {
                        clients: before.clients.insert(address, second),
                        ..before
                    });
                    if packet@.len() < HEADER_BYTES {
                        assert(second =~= first);
                        assert(self.net() =~= before);
                    } else {
                        let (sequence, acks) = choose|sequence: u32, acks: Acks|
                            header_noted(first.connection, connection, packet@, sequence, acks);
                        assert(header_noted(
                            before.clients[address].connection,
                            connection,
                            packet@,
                            sequence,
                            acks,
                        ));
                    }
                    assert(self.net().clients.dom() =~= before.clients.dom());
                    lemma_one_changed(before.clients, second, address, self.game.players@);
                }
                Err(err)
            },
            Ok((value, sequence, acks, lost)) => {
                let ghost lost_list = sequences(lost);
                // Remove acked packets from the reliable packet
                // buffer.
                client.forget(acks);
                // Possibly resend any lost packets.
                let ghost third = client@;
                let lost: Vec<u32> = lost.into_vec();
                proof {
                    lemma_acked(second, acks);
                    lemma_recovered(third, lost@, self.game.round, self.game.settings);
                }
                let frames: Vec<Frame> = client.recover(
                    &lost,
                    self.game.round,
                    &self.game.settings,
                );
                let ghost fourth = client@;
                let resent: bool = frames.len() > 0;
                self.clients.insert(address, client);
                let ghost recovery = frames@.map_values(|frame: Frame| frame@);
                assert(self.net() =~= Net {
                    clients: before.clients.insert(address, fourth),
                    ..before
                });
                self.send_all(address, frames);
                proof {
                    assert(self.net().queue =~= before.queue + recovery.map_values(
                        |frame: FrameView| (address, frame),
                    ));
                    assert(self.net().queue.len() == before.queue.len() + recovery.len());
                    assert(received(
                        before.clients[address].connection,
                        connection,
                        packet@,
                        sequence,
                        acks,
                        lost@,
                    ));
                    assert(self.net().clients.dom() =~= before.clients.dom());
                    lemma_one_changed(
                        before.clients,
                        fourth,
                        address,
                        self.game.players@,
                    );
                }
                Ok((value, sequence, resent))
            },
        }
    }

    /// Queues frames for one client.
    fn send_all(&mut self, address: Address, frames: Vec<Frame>)
        ensures
            final(self).net() == (Net {
                queue: old(self).net().queue + frames@.map_values(
                    |frame: Frame| (address, frame@),
                ),
                ..old(self).net()
            }),
            final(self).game == old(self).game,
            final(self).send_tick == old(self).send_tick,
            final(self).game_tick == old(self).game_tick,
            final(self).ping == old(self).ping,
    {
        let ghost before = self.net();
        let ghost list = frames@;
        for frame in walk: frames
            invariant
                walk.seq() == list,
                before == old(self).net(),
                self.clients == old(self).clients,
                self.game == old(self).game,
                self.send_tick == old(self).send_tick,
                self.game_tick == old(self).game_tick,
                self.ping == old(self).ping,
                self.net().queue =~= before.queue + list.take(walk.index()).map_values(
                    |frame: Frame| (address, frame@),
                ),
        {
            let ghost at = walk.index();
            let ghost middle = self.net().queue;
            let ghost sent = frame@;
            self.send_queue.push_back((address, frame));
            assert(self.net().queue =~= middle.push((address, sent)));
            assert(list.take(at + 1).map_values(|frame: Frame| (address, frame@)) =~= list.take(
                at,
            ).map_values(|frame: Frame| (address, frame@)).push((address, sent)));
            assert(self.net().queue =~= before.queue + list.take(at + 1).map_values(
                |frame: Frame| (address, frame@),
            ));
        }
        assert(list.take(list.len() as int) =~= list);
        assert(self.net().clients == before.clients);
    }
}

/// Nothing but the connection of a client has changed, by the header of a packet.
pub open spec fn noted(before: Net, after: Net, address: Address, bytes: Seq<u8>) -> bool {
    exists|connection: Connection, sequence: u32, acks: Acks| #[trigger]
        header_noted(before.clients[address].connection, connection, bytes, sequence, acks)
            && after == (Net {
            clients: before.clients.insert(
                address,
                ClientView { connection, ..before.clients[address] },
            ),
            ..before
        })
}

/// Changing one client, but for its player, keeps everything in order.
proof fn lemma_one_changed(
    clients: Map<Address, ClientView>,
    changed: ClientView,
    address: Address,
    players: Map<PlayerId, Player>,
)
    requires
        matched(clients, players),
        all_wf(clients),
        has_room(clients, ROOM as int),
        clients.contains_key(address),
        changed.player == clients[address].player,
        changed.wf(),
        changed.connection.local_sequence + ROOM <= u32::MAX,
    ensures
        matched(clients.insert(address, changed), players),
        all_wf(clients.insert(address, changed)),
        has_room(clients.insert(address, changed), ROOM as int),
        clients.insert(address, changed).dom() == clients.dom(),
{
    let after = clients.insert(address, changed);
    assert(after.dom() =~= clients.dom());
    lemma_still_matched(clients, after, players, players);
    assert forall|other: Address| #[trigger] after.contains_key(other) implies after[other].wf()
        && after[other].connection.local_sequence + ROOM <= u32::MAX by {
        assert(clients.contains_key(other));
    }
}

/// A broadcast keeps everything in order.
proof fn lemma_broadcast(
    before: Net,
    after: Net,
    packet: ServerPacket,
    except: Option<Address>,
    players: Map<PlayerId, Player>,
)
    requires
        before.broadcast(after, packet, except),
        has_room(before.clients, 1),
        all_wf(before.clients),
        matched(before.clients, players),
    ensures
        all_wf(after.clients),
        matched(after.clients, players),
        after.clients.dom() == before.clients.dom(),
        before.queue.is_prefix_of(after.queue),
{
    let order = choose|order: Seq<Address>| #[trigger]
        before.broadcast_in_order(after, packet, except, order);
    assert(before.queue =~= after.queue.subrange(0, before.queue.len() as int));
    lemma_still_matched(before.clients, after.clients, players, players);
    assert forall|address: Address| #[trigger] after.clients.contains_key(
        address,
    ) implies after.clients[address].wf() by {
        assert(before.clients.contains_key(address));
    }
}

impl Server {
    /// Acts on the contents of a packet from a client.
    ///
    /// Returns whether the socket has to be watched for becoming writable.
    fn act<K, B, L, S, E>(
        &mut self,
        address: Address,
        packet: ClientPacket,
        sequence: u32,
        now: Instant,
        rules: &Rules<K, B, L, S, E>,
    ) -> (waiting: bool) where
        K: Fn(Point, GameSettings) -> Point,
        B: Fn(Point, GameSettings) -> Ball,
        L: Fn(u32) -> Color,
        S: Fn(Duration) -> Real,
        E: Fn(Real, Real) -> Real,

        requires
            old(self).wf(),
            has_room(old(self).net().clients, ROOM as int),
            old(self).net().clients.contains_key(address),
            rules.total(),
        ensures
            final(self).wf(),
            acted(
                old(self).net(),
                old(self).played(),
                final(self).net(),
                final(self).played(),
                address,
                packet,
                sequence,
                now,
                *rules,
            ),
            waiting == (packet is Ping || packet is Settings || packet is Disconnect
                && final(self).net().clients.len() > 0),
            final(self).send_tick == old(self).send_tick,
            final(self).game_tick == old(self).game_tick,
            final(self).ping == old(self).ping,
    {
        let ghost before = self.net();
        let ghost client = before.clients[address];
        match packet {
            ClientPacket::Input(input) => {
                let mut client: Client = self.clients.remove(&address).unwrap();
                let ghost first = client@;
                // Ignore out of order input packets.
                let newer: bool = sequence > client.last_input;
                if newer {
                    client.last_input = sequence;
                }
                let ghost second = client@;
                let player: PlayerId = client.player;
                self.clients.insert(address, client);
                assert(self.net() =~= Net {
                    clients: before.clients.insert(address, second),
                    ..before
                });
                assert(self.net().clients.dom() =~= before.clients.dom());
                if newer {
                    assert(second =~= ClientView { last_input: sequence, ..first });
                    let cursor: Point = (rules.clamp)(input.cursor, self.game.settings);
                    self.game.set_player_cursor(player, cursor, &rules.start);
                    proof {
                        assert(before.clients.contains_key(address));
                        assert(old(self).game.players@.contains_key(player));
                        assert(self.game.players@.dom() =~= old(self).game.players@.dom());
                        lemma_still_matched(
                            before.clients,
                            self.net().clients,
                            old(self).game.players@,
                            self.game.players@,
                        );
                        assert(aimed(
                            old(self).played(),
                            self.played(),
                            player,
                            cursor,
                            rules.start,
                        ));
                    }
                } else {
                    assert(self.net() =~= before);
                }
                false
            },
            ClientPacket::Settings(settings) => {
                // Update the server settings.
                self.game.settings = settings;
                // Forward this change to the other clients.
                assert(before.clients.contains_key(address));
                assert(before.clients.dom().len() > 0) by {
                    assert(before.clients.dom() =~= self.clients@.dom());
                    assert(before.clients.dom().contains(address));
                }
                let event: Arc<ServerPacket> = Arc::new(
                    ServerPacket::Event(Event::Settings(settings)),
                );
                assert(self.net() =~= before);
                let waiting: bool = self.broadcast_filter(&event, Some(address));
                proof {
                    lemma_broadcast(
                        before,
                        self.net(),
                        ServerPacket::Event(Event::Settings(settings)),
                        Some(address),
                        self.game.players@,
                    );
                }
                waiting
            },
            ClientPacket::Handshake { .. } => false,
            ClientPacket::Disconnect => self.remove_client(address),
            ClientPacket::Ping => {
                let pong: Arc<ServerPacket> = Arc::new(ServerPacket::Pong(sequence));
                assert(before.clients.contains_key(address));
                self.send_to(address, &pong);
                proof {
                    assert(self.net().clients.dom() =~= before.clients.dom());
                    lemma_still_matched(
                        before.clients,
                        self.net().clients,
                        self.game.players@,
                        self.game.players@,
                    );
                }
                true
            },
            ClientPacket::Pong(answered) => {
                let mut client: Client = self.clients.remove(&address).unwrap();
                let ghost first = client@;
                client.rtt.pong(answered, now, &rules.seconds, &rules.blend);
                let ghost rtt = client.rtt;
                let ghost second = client@;
                self.clients.insert(address, client);
                proof {
                    assert(second =~= ClientView { rtt, ..first });
                    assert(self.net() =~= Net {
                        clients: before.clients.insert(address, second),
                        ..before
                    });
                    assert(self.net().clients.dom() =~= before.clients.dom());
                    assert(before.clients.contains_key(address));
                    lemma_still_matched(
                        before.clients,
                        self.net().clients,
                        self.game.players@,
                        self.game.players@,
                    );
                    assert(ponged(first.rtt, rtt, answered, now, rules.seconds, rules.blend));
                }
                false
            },
        }
    }

    /// Adds a client with a new player.
    fn new_client<K, B, L, S, E>(
        &mut self,
        address: Address,
        connection: Connection,
        cursor: Point,
        rules: &Rules<K, B, L, S, E>,
    ) where
        K: Fn(Point, GameSettings) -> Point,
        B: Fn(Point, GameSettings) -> Ball,
        L: Fn(u32) -> Color,
        S: Fn(Duration) -> Real,
        E: Fn(Real, Real) -> Real,

        requires
            old(self).wf(),
            has_room(old(self).net().clients, 2),
            old(self).played().next_id < PlayerId::MAX,
            !old(self).net().clients.contains_key(address),
            connection.local_sequence < u32::MAX,
            rules.total(),
        ensures
            final(self).wf(),
            entered(
                old(self).net(),
                old(self).played(),
                final(self).net(),
                final(self).played(),
                address,
                connection,
                cursor,
                *rules,
            ),
            final(self).send_tick == old(self).send_tick,
            final(self).game_tick == old(self).game_tick,
            final(self).ping == old(self).ping,
    {
        let ghost before = self.net();
        let clamped: Point = (rules.clamp)(cursor, self.game.settings);
        let (id, events) = self.game.add_player(clamped, &rules.start, &rules.color);
        let ghost list = events@;
        assert(self.net() =~= before);
        self.send_events(events);
        let ghost middle = self.net();
        proof {
            lemma_told(before, middle, list);
        }

        // Now start processing this client.
        let client = Client {
            player: id,
            connection,
            rtt: RttEstimator::default(),
            last_input: 0,
            reliable: HashMap::new(),
        };
        let ghost fresh = client@;
        assert(fresh.reliable =~= Map::<u32, ServerPacket>::empty());
        assert(is_fresh(fresh, id, connection));
        self.clients.insert(address, client);
        let ghost added = Net { clients: middle.clients.insert(address, fresh), ..middle };
        assert(self.net() =~= added);

        // Send handshake message to the new client.
        let packet: Arc<ServerPacket> = Arc::new(
            ServerPacket::Handshake {
                id,
                settings: self.game.settings,
                players: self.game.static_states(),
                round: self.game.round,
                round_duration: self.game.round_duration,
                snapshot: self.game.snapshot(),
            },
        );
        assert(welcomes(*packet, id, self.game));
        self.send_to(address, &packet);
        proof {
            assert(welcomed(middle, self.net(), address, connection, id, self.game));
            assert(joined(
                old(self).game,
                self.game,
                clamped,
                rules.start,
                rules.color,
                list,
            ));
            assert(self.net().clients.dom() =~= before.clients.dom().insert(address));
            let player = self.game.players@[id];
            assert(self.game.players@ =~= old(self).game.players@.insert(id, player));
            lemma_matched_with(
                before.clients,
                self.net().clients,
                old(self).game.players@,
                address,
                player,
            );
            assert forall|other: Address| #[trigger] self.net().clients.contains_key(
                other,
            ) implies self.net().clients[other].wf() by {
                if other != address {
                    assert(before.clients.contains_key(other));
                }
            }
        }
    }
}

/// Whether nothing has been sent or received over a connection.
pub open spec fn is_blank(connection: Connection) -> bool {
    &&& connection.local_sequence == 0
    &&& connection.acks.newest() == 0
    &&& connection.acks.field() == 0
    &&& connection.remote_acks.newest() == 0
    &&& connection.remote_acks.field() == 0
}

/// A packet from a known client has been received.
pub open spec fn recv_known<K, B, L, S, E>(
    before: Server,
    after: Server,
    address: Address,
    bytes: Seq<u8>,
    packet: ClientPacket,
    now: Instant,
    rules: Rules<K, B, L, S, E>,
    waiting: bool,
) -> bool where
    K: Fn(Point, GameSettings) -> Point,
    B: Fn(Point, GameSettings) -> Ball,
    S: Fn(Duration) -> Real,
    E: Fn(Real, Real) -> Real,
 {
    exists|middle: Net, sequence: u32| #[trigger]
        heard(
            before.net(),
            middle,
            address,
            bytes,
            sequence,
            before.played().round,
            before.played().settings,
        ) && acted(
            middle,
            before.played(),
            after.net(),
            after.played(),
            address,
            packet,
            sequence,
            now,
            rules,
        ) && waiting == (middle.queue.len() > before.net().queue.len() || packet is Ping
            || packet is Settings || packet is Disconnect && after.net().clients.len() > 0)
}

/// The handshake of a new client has been received.
pub open spec fn recv_handshake<K, B, L, S, E>(
    before: Server,
    after: Server,
    address: Address,
    bytes: Seq<u8>,
    cursor: Point,
    rules: Rules<K, B, L, S, E>,
) -> bool where
    K: Fn(Point, GameSettings) -> Point,
    B: Fn(Point, GameSettings) -> Ball,
    L: Fn(u32) -> Color,
 {
    exists|blank: Connection, connection: Connection, sequence: u32, acks: Acks| #[trigger]
        header_noted(blank, connection, bytes, sequence, acks) && is_blank(blank) && entered(
            before.net(),
            before.played(),
            after.net(),
            after.played(),
            address,
            connection,
            cursor,
            rules,
        )
}

impl Server {
    /// Whether the ticks of two servers are the same.
    pub open spec fn same_ticks(self, other: Server) -> bool {
        &&& self.snapshots() == other.snapshots()
        &&& self.ticks() == other.ticks()
        &&& self.pings() == other.pings()
    }

    /// Receives a packet.
    ///
    /// `contents` is what follows the header of the packet, or `None` if that could not be
    /// deserialized.
    ///
    /// - A packet from a known client restarts the time after which its connection is taken to be
    ///   lost, whatever is in it.
    /// - Of others, only handshakes count.
    #[verifier::spinoff_prover]
    #[verifier::rlimit(40)]
    pub fn on_recv<K, B, L, S, E>(
        &mut self,
        address: Address,
        packet: &[u8],
        contents: Option<ClientPacket>,
        now: Instant,
        rules: &Rules<K, B, L, S, E>,
    ) -> (outcome: Received) where
        K: Fn(Point, GameSettings) -> Point,
        B: Fn(Point, GameSettings) -> Ball,
        L: Fn(u32) -> Color,
        S: Fn(Duration) -> Real,
        E: Fn(Real, Real) -> Real,

        requires
            old(self).wf(),
            old(self).ready(),
            contents is Some && contents->0 is Handshake && !old(self).net().clients.contains_key(
                address,
            ) ==> old(self).accepting(),
            rules.total(),
        ensures
            final(self).wf(),
            final(self).same_ticks(*old(self)),
            ({
                let known = old(self).net().clients.contains_key(address);
                let joins = !known && outcome.result is Ok && contents->0 is Handshake;
                &&& outcome.result == (if packet@.len() > MAX_PACKET_SIZE {
                    Err(RecvError::PacketTooLarge(packet@.len() as usize))
                } else if packet@.len() < HEADER_BYTES {
                    Err(RecvError::HeaderRead)
                } else if contents is None {
                    Err(RecvError::Deserialize)
                } else {
                    Ok::<(), RecvError>(())
                })
                &&& outcome.watch == (if packet@.len() > MAX_PACKET_SIZE {
                    Watch::Leave
                } else if known {
                    Watch::Restart
                } else if joins {
                    Watch::Start
                } else {
                    Watch::Leave
                })
                &&& known && outcome.result is Ok ==> recv_known(
                    *old(self),
                    *final(self),
                    address,
                    packet@,
                    contents->0,
                    now,
                    *rules,
                    outcome.waiting,
                )
                &&& joins ==> outcome.waiting && recv_handshake(
                    *old(self),
                    *final(self),
                    address,
                    packet@,
                    contents->0->cursor,
                    *rules,
                )
                &&& known && outcome.result == Err::<(), RecvError>(RecvError::Deserialize) ==> {
                    &&& noted(old(self).net(), final(self).net(), address, packet@)
                    &&& final(self).played() == old(self).played()
                    &&& !outcome.waiting
                }
                &&& (if known {
                    outcome.result is Err && outcome.result->Err_0 !is Deserialize
                } else {
                    !joins
                }) ==> {
                    &&& final(self).net() == old(self).net()
                    &&& final(self).played() == old(self).played()
                    &&& !outcome.waiting
                }
            }),
    {
        if packet.len() > MAX_PACKET_SIZE {
            return Received {
                result: Err(RecvError::PacketTooLarge(packet.len())),
                watch: Watch::Leave,
                waiting: false,
            };
        }
        let ghost before = self.net();
        assert(has_room(before.clients, ROOM as int));
        let known: bool = self.clients.contains_key(&address);
        assert(known == before.clients.contains_key(address));
        if known {
            // Existing player.
            match self.hear(address, packet, contents) {
                Err(err) => Received { result: Err(err), watch: Watch::Restart, waiting: false },
                Ok((value, sequence, resent)) => {
                    let ghost middle = self.net();
                    let waiting: bool = self.act(address, value, sequence, now, rules);
                    assert(heard(
                        before,
                        middle,
                        address,
                        packet@,
                        sequence,
                        old(self).played().round,
                        old(self).played().settings,
                    ));
                    Received { result: Ok(()), watch: Watch::Restart, waiting: resent || waiting }
                },
            }
        } else {
            // New player.
            let mut connection: Connection = Connection::default();
            let ghost blank = connection;
            match connection.note_header(packet) {
                Err(err) => Received { result: Err(err), watch: Watch::Leave, waiting: false },
                Ok((sequence, acks)) => {
                    assert(header_noted(blank, connection, packet@, sequence, acks));
                    match contents {
                        Some(ClientPacket::Handshake { cursor }) => {
                            self.new_client(address, connection, cursor, rules);
                            Received { result: Ok(()), watch: Watch::Start, waiting: true }
                        },
                        // Ignore non-handshake packets.
                        Some(_) => Received {
                            result: Ok(()),
                            watch: Watch::Leave,
                            waiting: false,
                        },
                        None => Received {
                            result: Err(RecvError::Deserialize),
                            watch: Watch::Leave,
                            waiting: false,
                        },
                    }
                },
            }
        }
    }
}

/// What the server waits for.
#[derive(Copy, Clone, Debug, PartialEq, Eq, Structural)]
pub enum TimeoutState {
    SendSnapshot,
    Tick,
    Ping,
    LostConnection(Address),
}

/// A tick has been processed, and the next one is due after `delay`.
pub open spec fn rescheduled(
    before: Interval,
    after: Interval,
    now: Instant,
    delay: Duration,
) -> bool {
    &&& after.length() == before.length()
    &&& after.due().nanos == before.due_after(now)
    &&& after.last() == now
    &&& now.nanos + delay.nanos == after.due().nanos
}

/// All clients have been sent a ping, and are expected to answer it.
pub open spec fn pinged(before: Net, after: Net, now: Instant) -> bool {
    exists|middle: Net| #[trigger]
        before.broadcast(middle, ServerPacket::Ping, None) && {
            &&& after.queue == middle.queue
            &&& after.clients.dom() == before.clients.dom()
            &&& forall|address: Address| #[trigger]
                before.clients.contains_key(address) ==> {
                    let client = after.clients[address];
                    &&& client == (ClientView { rtt: client.rtt, ..middle.clients[address] })
                    &&& client.rtt.pinged() == Some(
                        (before.clients[address].connection.local_sequence, now),
                    )
                    &&& client.rtt.estimate() == before.clients[address].rtt.estimate()
                }
        }
}

/// All clients have been sent a snapshot of the game.
pub open spec fn snapshot_sent(before: Net, after: Net, game: Game) -> bool {
    exists|snapshot: Snapshot|
        snapshot.players@ == states(game.players@) && #[trigger] before.broadcast(
            after,
            ServerPacket::Event(Event::Snapshot(snapshot)),
            None,
        )
}

/// The game has been stepped forward by `dt`, and all clients have been told what happened.
///
/// `timing` gives the time that the round state will have lasted after that, in seconds,
/// and the steps to be simulated.
pub open spec fn game_ticked<G, M, C, W, T>(
    before: Server,
    after: Server,
    dt: Duration,
    timing: G,
    physics: Physics<M, C, W, T>,
    waiting: bool,
) -> bool where
    G: Fn(Real, Duration) -> (Real, Vec<Real>),
    M: Fn(PlayerState, GameSettings, Real) -> Ball,
    C: Fn(Ball, Ball, GameSettings) -> Option<(Ball, Ball)>,
    W: Fn(Ball, GameSettings) -> Option<Ball>,
    T: Fn(Point, Ball, GameSettings) -> bool,
 {
    &&& after.played().settings == before.played().settings
    &&& after.played().next_id == before.played().next_id
    &&& exists|elapsed: Real, steps: Vec<Real>, round: RoundState, events: Seq<Event>|
        call_ensures(timing, (before.played().round_duration, dt), (elapsed, steps)) && enters(
            before.played(),
            elapsed,
            round,
        ) && #[trigger] ticked(
            before.played(),
            after.played(),
            elapsed,
            round,
            steps@,
            physics,
            events,
        ) && before.net().told(after.net(), events) && waiting == (events.len() > 0
            && before.net().clients.len() > 0)
}

impl Server {
    /// Starts a server with an empty lobby.
    ///
    /// Returns what is to be waited for first, too. All subsequent ticks will
    /// be generated from `on_timeout`.
    pub fn new(now: Instant) -> (result: (Server, Vec<(Duration, TimeoutState)>))
        requires
            now.nanos <= u64::MAX,
        ensures
            result.0.wf(),
            result.0.ready(),
            result.0.accepting(),
            result.0.net().clients == Map::<Address, ClientView>::empty(),
            result.0.net().queue == Seq::<(Address, FrameView)>::empty(),
            call_ensures(Game::default, (), result.0.played()),
            result.0.snapshots().last() == now,
            result.0.ticks().last() == now,
            result.0.pings().last() == now,
            result.0.snapshots().due().nanos == now.nanos + SNAPSHOT_RATE,
            result.0.ticks().due().nanos == now.nanos + TICK_RATE,
            result.0.pings().due().nanos == now.nanos + PING_RATE,
            result.1@ == seq![
                (Duration { nanos: SNAPSHOT_RATE }, TimeoutState::SendSnapshot),
                (Duration { nanos: TICK_RATE }, TimeoutState::Tick),
                (Duration { nanos: PING_RATE }, TimeoutState::Ping),
            ],
    {
        let send_tick = Interval::new(Duration { nanos: SNAPSHOT_RATE }, now);
        let game_tick = Interval::new(Duration { nanos: TICK_RATE }, now);
        let ping = Interval::new(Duration { nanos: PING_RATE }, now);
        let timeouts: Vec<(Duration, TimeoutState)> = vec![
            (send_tick.interval(), TimeoutState::SendSnapshot),
            (game_tick.interval(), TimeoutState::Tick),
            (ping.interval(), TimeoutState::Ping),
        ];
        let server = Server {
            send_queue: VecDeque::new(),
            clients: HashMap::new(),
            game: Game::default(),
            send_tick,
            game_tick,
            ping,
        };
        proof {
            assert(server.net().clients =~= Map::<Address, ClientView>::empty());
            assert(server.net().queue =~= Seq::<(Address, FrameView)>::empty());
        }
        (server, timeouts)
    }

    /// Returns whether there is an id left for one more player.
    pub fn is_accepting(&self) -> (accepting: bool)
        ensures
            accepting == self.accepting(),
    {
        self.game.next_id < PlayerId::MAX
    }

    /// Returns whether there is a client with this address.
    pub fn has_client(&self, address: Address) -> (known: bool)
        ensures
            known == self.net().clients.contains_key(address),
    {
        self.clients.contains_key(&address)
    }

    /// Returns whether there are enough sequence numbers left for whatever happens next.
    pub fn is_ready(&self) -> (ready: bool)
        ensures
            ready == self.ready(),
    {
        let addresses: Vec<Address> = keys(&self.clients);
        let mut at: usize = 0;
        while at < addresses.len()
            invariant
                at <= addresses@.len(),
                forall|address: Address| #[trigger]
                    addresses@.contains(address) <==> self.net().clients.contains_key(address),
                forall|i: int|
                    0 <= i < at ==> self.net().clients[#[trigger] addresses@[i]].can_send(
                        ROOM as int,
                    ),
            decreases addresses@.len() - at,
        {
            let address: Address = addresses[at];
            assert(addresses@.contains(address));
            assert(self.net().clients.contains_key(address));
            let client: &Client = self.clients.get(&address).unwrap();
            assert(client@ == self.net().clients[address]);
            assert(client@.reliable.dom() =~= client.reliable@.dom());
            if client.connection.local_sequence > u32::MAX - ROOM {
                return false;
            }
            let left: u32 = u32::MAX - ROOM - client.connection.local_sequence;
            if client.reliable.len() > left as usize {
                return false;
            }
            at = at + 1;
        }
        proof {
            assert forall|address: Address| #[trigger] self.net().clients.contains_key(
                address,
            ) implies self.net().clients[address].can_send(ROOM as int) by {
                assert(addresses@.contains(address));
                let i = choose|i: int| 0 <= i < addresses@.len() && addresses@[i] == address;
                assert(addresses@[i] == address);
            }
        }
        true
    }

    /// Sends a ping to all clients.
    ///
    /// Returns the delay before the next time.
    fn send_ping(&mut self, now: Instant) -> (delay: Duration)
        requires
            old(self).wf(),
            has_room(old(self).net().clients, 1),
            now.nanos <= u64::MAX,
        ensures
            final(self).wf(),
            pinged(old(self).net(), final(self).net(), now),
            rescheduled(old(self).ping, final(self).ping, now, delay),
            final(self).game == old(self).game,
            final(self).send_tick == old(self).send_tick,
            final(self).game_tick == old(self).game_tick,
    {
        let ghost before = self.net();
        proof {
            law_next_tick_is_near(self.ping, now);
        }
        let (_, delay) = self.ping.next(now);
        let packet: Arc<ServerPacket> = Arc::new(ServerPacket::Ping);
        assert(self.net() =~= before);
        self.broadcast_filter(&packet, None);
        let ghost middle = self.net();
        proof {
            lemma_broadcast(before, middle, ServerPacket::Ping, None, self.game.players@);
        }
        let addresses: Vec<Address> = keys(&self.clients);
        let mut at: usize = 0;
        while at < addresses.len()
            invariant
                at <= addresses@.len(),
                before.broadcast(middle, ServerPacket::Ping, None),
                has_room(before.clients, 1),
                before == old(self).net(),
                middle.clients.dom() == before.clients.dom(),
                addresses@.no_duplicates(),
                forall|address: Address| #[trigger]
                    addresses@.contains(address) <==> middle.clients.contains_key(address),
                self.net().queue == middle.queue,
                self.net().clients.dom() == middle.clients.dom(),
                forall|i: int|
                    at <= i < addresses@.len() ==> self.net().clients[#[trigger] addresses@[i]]
                        == middle.clients[addresses@[i]],
                forall|i: int|
                    0 <= i < at ==> {
                        let address = #[trigger] addresses@[i];
                        let client = self.net().clients[address];
                        &&& client == (ClientView { rtt: client.rtt, ..middle.clients[address] })
                        &&& client.rtt.pinged() == Some(
                            (before.clients[address].connection.local_sequence, now),
                        )
                        &&& client.rtt.estimate() == before.clients[address].rtt.estimate()
                    },
                rescheduled(old(self).ping, self.ping, now, delay),
                self.game == old(self).game,
                self.send_tick == old(self).send_tick,
                self.game_tick == old(self).game_tick,
            decreases addresses@.len() - at,
        {
            let address: Address = addresses[at];
            assert(addresses@.contains(address));
            assert(before.clients.contains_key(address));
            let ghost earlier = self.net();
            assert(middle.clients[address] == before.clients[address].sent(ServerPacket::Ping)) by {
                let order = choose|order: Seq<Address>| #[trigger]
                    before.broadcast_in_order(middle, ServerPacket::Ping, None, order);
                assert(before.clients.contains_key(address));
            }
            assert(earlier.clients.contains_key(address));
            let mut client: Client = self.clients.remove(&address).unwrap();
            let ghost first = client@;
            assert(first == middle.clients[address]);
            let sequence: u32 = client.connection.local_sequence - 1;
            client.rtt.ping(sequence, now);
            let ghost second = client@;
            self.clients.insert(address, client);
            proof {
                assert(second =~= ClientView { rtt: second.rtt, ..first });
                assert(self.net() =~= Net {
                    clients: earlier.clients.insert(address, second),
                    ..earlier
                });
                assert(self.net().clients.dom() =~= middle.clients.dom());
                assert forall|i: int| at < i < addresses@.len() implies self.net().clients[
                    #[trigger] addresses@[i]] == middle.clients[addresses@[i]] by {
                    assert(addresses@[i] != addresses@[at as int]);
                }
                assert forall|i: int| 0 <= i < at implies self.net().clients[
                    #[trigger] addresses@[i]] == earlier.clients[addresses@[i]] by {
                    assert(addresses@[i] != addresses@[at as int]);
                }
            }
            at = at + 1;
        }
        proof {
            assert forall|address: Address| #[trigger] before.clients.contains_key(address) implies {
                let client = self.net().clients[address];
                &&& client == (ClientView { rtt: client.rtt, ..middle.clients[address] })
                &&& client.rtt.pinged() == Some(
                    (before.clients[address].connection.local_sequence, now),
                )
                &&& client.rtt.estimate() == before.clients[address].rtt.estimate()
            } by {
                assert(addresses@.contains(address));
                let i = choose|i: int| 0 <= i < addresses@.len() && addresses@[i] == address;
                assert(addresses@[i] == address);
            }
            assert(pinged(before, self.net(), now));
            assert forall|address: Address| #[trigger] middle.clients.contains_key(
                address,
            ) implies self.net().clients[address].player == middle.clients[address].player by {
                assert(before.clients.contains_key(address));
            }
            lemma_still_matched(
                middle.clients,
                self.net().clients,
                self.game.players@,
                self.game.players@,
            );
            assert forall|address: Address| #[trigger] self.net().clients.contains_key(
                address,
            ) implies self.net().clients[address].wf() by {
                assert(before.clients.contains_key(address));
                assert(middle.clients.contains_key(address));
            }
        }
        delay
    }

    /// Sends a snapshot to all connected clients.
    ///
    /// Returns the delay before the next time, and whether anything has been sent.
    fn send_snapshot(&mut self, now: Instant) -> (result: (Duration, bool))
        requires
            old(self).wf(),
            has_room(old(self).net().clients, 1),
            now.nanos <= u64::MAX,
        ensures
            final(self).wf(),
            snapshot_sent(old(self).net(), final(self).net(), old(self).game),
            rescheduled(old(self).send_tick, final(self).send_tick, now, result.0),
            result.1 == (old(self).net().clients.len() > 0),
            final(self).game == old(self).game,
            final(self).game_tick == old(self).game_tick,
            final(self).ping == old(self).ping,
    {
        let ghost before = self.net();
        proof {
            law_next_tick_is_near(self.send_tick, now);
        }
        let (_, delay) = self.send_tick.next(now);
        let snapshot: Snapshot = self.game.snapshot();
        let ghost taken = snapshot;
        let packet: Arc<ServerPacket> = Arc::new(ServerPacket::Event(Event::Snapshot(snapshot)));
        assert(self.net() =~= before);
        let waiting: bool = self.broadcast_filter(&packet, None);
        proof {
            let sent = ServerPacket::Event(Event::Snapshot(taken));
            assert(before.broadcast(self.net(), sent, None));
            lemma_broadcast(before, self.net(), sent, None, self.game.players@);
        }
        (delay, waiting)
    }

    /// Steps the game forward.
    ///
    /// Returns the delay before the next time, and whether anything has been sent.
    fn game_tick<G, M, C, W, T>(
        &mut self,
        now: Instant,
        timing: &G,
        physics: &Physics<M, C, W, T>,
    ) -> (result: (Duration, bool)) where
        G: Fn(Real, Duration) -> (Real, Vec<Real>),
        M: Fn(PlayerState, GameSettings, Real) -> Ball,
        C: Fn(Ball, Ball, GameSettings) -> Option<(Ball, Ball)>,
        W: Fn(Ball, GameSettings) -> Option<Ball>,
        T: Fn(Point, Ball, GameSettings) -> bool,

        requires
            old(self).wf(),
            has_room(old(self).net().clients, 1),
            now.nanos <= u64::MAX,
            physics.total(),
            forall|lasted: Real, dt: Duration| call_requires(*timing, (lasted, dt)),
        ensures
            final(self).wf(),
            game_ticked(
                *old(self),
                *final(self),
                since_last(old(self).game_tick, now),
                *timing,
                *physics,
                result.1,
            ),
            rescheduled(old(self).game_tick, final(self).game_tick, now, result.0),
            final(self).send_tick == old(self).send_tick,
            final(self).ping == old(self).ping,
    {
        let ghost before = self.net();
        proof {
            law_next_tick_is_near(self.game_tick, now);
        }
        let (dt, delay) = self.game_tick.next(now);
        let (elapsed, steps) = timing(self.game.round_duration, dt);
        let events: Vec<Event> = self.game.tick(elapsed, &steps, physics);
        let ghost list = events@;
        let ghost round = choose|round: RoundState| #[trigger]
            enters(old(self).game, elapsed, round) && ticked(
                old(self).game,
                self.game,
                elapsed,
                round,
                steps@,
                *physics,
                list,
            );
        assert(list.len() <= 1);
        assert(self.net() =~= before);
        let waiting: bool = self.send_events(events);
        proof {
            lemma_told(before, self.net(), list);
            assert(game_ticked(*old(self), *self, dt, *timing, *physics, waiting));
            assert(self.game.players@.dom() == old(self).game.players@.dom()) by {
                if round.is_running() {
                    law_simulation_keeps(
                        *physics,
                        old(self).game.players@,
                        self.game.players@,
                        old(self).game.settings,
                        steps@,
                    );
                }
            }
            lemma_still_matched(
                before.clients,
                self.net().clients,
                old(self).game.players@,
                self.game.players@,
            );
            assert forall|address: Address| #[trigger] self.net().clients.contains_key(
                address,
            ) implies self.net().clients[address].wf() by {
                assert(before.clients.contains_key(address));
            }
        }
        (delay, waiting)
    }
}

/// The time from the last tick to one that is processed at `tick`.
pub open spec fn since_last(ticks: Interval, tick: Instant) -> Duration {
    ticks.last().until(tick)
}

/// What came of sending a packet.
#[derive(Copy, Clone, Debug, PartialEq, Eq, Structural)]
pub enum SendOutcome {
    /// It cannot be sent for now.
    WouldBlock,
    /// It cannot be sent at all.
    Failed,
    /// It has been sent.
    Sent,
}

/// What is to be done next about sending.
#[derive(Copy, Clone, Debug, PartialEq, Eq, Structural)]
pub struct SendNext {
    /// Whether the next packet should be sent now.
    pub again: bool,
    /// Whether the socket has to be watched for becoming writable.
    pub waiting: bool,
}

/// A queue without its first entry, if there is any.
pub open spec fn popped(queue: Seq<(Address, FrameView)>) -> Seq<(Address, FrameView)> {
    if queue.len() > 0 {
        queue.drop_first()
    } else {
        queue
    }
}

/// A packet could not be sent, so the client that it was for has been removed.
pub open spec fn send_failed(before: Server, after: Server) -> bool {
    let address = before.net().queue[0].0;
    let rest = Net { queue: popped(before.net().queue), ..before.net() };
    if before.net().clients.contains_key(address) {
        dropped(rest, before.played(), after.net(), after.played(), address)
    } else {
        after.net() == rest && after.played() == before.played()
    }
}

impl Server {
    /// Handles whatever the server waited for.
    ///
    /// Returns what is to be waited for again, and whether the socket has to be watched for
    /// becoming writable.
    pub fn on_timeout<G, M, C, W, T>(
        &mut self,
        timeout: TimeoutState,
        now: Instant,
        timing: &G,
        physics: &Physics<M, C, W, T>,
    ) -> (result: (Option<(Duration, TimeoutState)>, bool)) where
        G: Fn(Real, Duration) -> (Real, Vec<Real>),
        M: Fn(PlayerState, GameSettings, Real) -> Ball,
        C: Fn(Ball, Ball, GameSettings) -> Option<(Ball, Ball)>,
        W: Fn(Ball, GameSettings) -> Option<Ball>,
        T: Fn(Point, Ball, GameSettings) -> bool,

        requires
            old(self).wf(),
            old(self).ready(),
            now.nanos <= u64::MAX,
            physics.total(),
            forall|lasted: Real, dt: Duration| call_requires(*timing, (lasted, dt)),
        ensures
            final(self).wf(),
            match timeout {
                TimeoutState::LostConnection(_) => result.0 is None,
                _ => result.0 matches Some(next) && next.1 == timeout,
            },
            match timeout {
                TimeoutState::SendSnapshot => {
                    &&& snapshot_sent(old(self).net(), final(self).net(), old(self).played())
                    &&& final(self).played() == old(self).played()
                    &&& rescheduled(
                        old(self).snapshots(),
                        final(self).snapshots(),
                        now,
                        (result.0->0).0,
                    )
                    &&& final(self).ticks() == old(self).ticks()
                    &&& final(self).pings() == old(self).pings()
                    &&& result.1 == (old(self).net().clients.len() > 0)
                },
                TimeoutState::Tick => {
                    &&& game_ticked(
                        *old(self),
                        *final(self),
                        since_last(old(self).ticks(), now),
                        *timing,
                        *physics,
                        result.1,
                    )
                    &&& rescheduled(old(self).ticks(), final(self).ticks(), now, (result.0->0).0)
                    &&& final(self).snapshots() == old(self).snapshots()
                    &&& final(self).pings() == old(self).pings()
                },
                TimeoutState::Ping => {
                    &&& pinged(old(self).net(), final(self).net(), now)
                    &&& final(self).played() == old(self).played()
                    &&& rescheduled(old(self).pings(), final(self).pings(), now, (result.0->0).0)
                    &&& final(self).snapshots() == old(self).snapshots()
                    &&& final(self).ticks() == old(self).ticks()
                    &&& result.1
                },
                TimeoutState::LostConnection(address) => {
                    &&& final(self).same_ticks(*old(self))
                    &&& if old(self).net().clients.contains_key(address) {
                        &&& dropped(
                            old(self).net(),
                            old(self).played(),
                            final(self).net(),
                            final(self).played(),
                            address,
                        )
                        &&& result.1 == (final(self).net().clients.len() > 0)
                    } else {
                        &&& final(self).net() == old(self).net()
                        &&& final(self).played() == old(self).played()
                        &&& !result.1
                    }
                },
            },
    {
        match timeout {
            TimeoutState::SendSnapshot => {
                let (delay, waiting) = self.send_snapshot(now);
                (Some((delay, timeout)), waiting)
            },
            TimeoutState::Tick => {
                let (delay, waiting) = self.game_tick(now, timing, physics);
                (Some((delay, timeout)), waiting)
            },
            TimeoutState::Ping => {
                let delay: Duration = self.send_ping(now);
                (Some((delay, timeout)), true)
            },
            TimeoutState::LostConnection(address) => (None, self.remove_client(address)),
        }
    }

    /// Returns the next packet to be sent, and to whom.
    ///
    /// If there is none, writable events no longer matter.
    pub fn next_to_send(&self) -> (next: Option<(Address, &Frame)>)
        ensures
            match next {
                Some(entry) => self.net().queue.len() > 0 && self.net().queue[0] == (
                    entry.0,
                    entry.1@,
                ),
                None => self.net().queue.len() == 0,
            },
    {
        if self.send_queue.len() == 0 {
            return None;
        }
        let entry: &(Address, Frame) = &self.send_queue[0];
        Some((entry.0, &entry.1))
    }

    /// Takes into account what came of sending the next packet.
    ///
    /// It is only taken from the queue after making sure that it didn't block. Any client
    /// that errors is disconnected.
    pub fn on_sent(&mut self, outcome: SendOutcome) -> (next: SendNext)
        requires
            old(self).wf(),
            old(self).ready(),
            old(self).net().queue.len() > 0,
        ensures
            final(self).wf(),
            final(self).same_ticks(*old(self)),
            next.again == (outcome != SendOutcome::WouldBlock),
            match outcome {
                SendOutcome::WouldBlock => {
                    &&& final(self).net() == old(self).net()
                    &&& final(self).played() == old(self).played()
                    &&& !next.waiting
                },
                SendOutcome::Sent => {
                    &&& final(self).net() == (Net {
                        queue: old(self).net().queue.drop_first(),
                        ..old(self).net()
                    })
                    &&& final(self).played() == old(self).played()
                    &&& !next.waiting
                },
                SendOutcome::Failed => {
                    &&& send_failed(*old(self), *final(self))
                    &&& next.waiting == (old(self).net().clients.contains_key(
                        old(self).net().queue[0].0,
                    ) && final(self).net().clients.len() > 0)
                },
            },
    {
        match outcome {
            SendOutcome::WouldBlock => SendNext { again: false, waiting: false },
            SendOutcome::Sent => {
                self.pop();
                SendNext { again: true, waiting: false }
            },
            SendOutcome::Failed => {
                let address: Address = self.send_queue[0].0;
                self.pop();
                let waiting: bool = self.remove_client(address);
                SendNext { again: true, waiting }
            },
        }
    }

    /// Takes the first entry from the queue, if there is any.
    fn pop(&mut self)
        ensures
            final(self).net() == (Net { queue: popped(old(self).net().queue), ..old(self).net() }),
            final(self).game == old(self).game,
            final(self).send_tick == old(self).send_tick,
            final(self).game_tick == old(self).game_tick,
            final(self).ping == old(self).ping,
    {
        let first = self.send_queue.pop_front();
        assert(self.net().clients =~= old(self).net().clients);
        assert(self.net().queue =~= popped(old(self).net().queue));
    }
}

/// Whether a client is owed this packet.
pub open spec fn owed(client: ClientView, packet: ServerPacket) -> bool {
    exists|sequence: u32| #[trigger] owed_as(client, packet, sequence)
}

/// Whether a client is owed this packet, which was last sent under the given number.
pub open spec fn owed_as(client: ClientView, packet: ServerPacket, sequence: u32) -> bool {
    client.reliable.contains_key(sequence) && client.reliable[sequence] == packet
}

/// A packet that has to arrive and is still of interest is kept until it has been acknowledged:
/// one that is not reported lost stays where it is, and one that is reported lost is kept under
/// a new sequence number.
pub proof fn law_kept_until_acknowledged(
    client: ClientView,
    acks: Acks,
    lost: Seq<u32>,
    round: RoundState,
    settings: GameSettings,
    sequence: u32,
)
    requires
        client.wf(),
        client.can_send(0),
        falling(lost),
        client.reliable.contains_key(sequence),
        !acks.has(sequence as int),
    ensures
        ({
            let packet = client.reliable[sequence];
            let after = client.acked(acks).recovered(lost, round, settings);
            &&& !lost.contains(sequence) ==> owed_as(after, packet, sequence)
            &&& packet.is_current(round, settings) ==> owed(after, packet)
        }),
{
    assert(client.acked(acks).reliable.contains_key(sequence));
    lemma_acked(client, acks);
    lemma_kept(client.acked(acks), lost, round, settings, sequence);
}

/// A packet that has been acknowledged is no longer kept, whatever else is reported lost.
pub proof fn law_acknowledged_is_dropped(
    client: ClientView,
    acks: Acks,
    lost: Seq<u32>,
    round: RoundState,
    settings: GameSettings,
    sequence: u32,
)
    requires
        client.wf(),
        client.can_send(0),
        falling(lost),
        sequence < client.connection.local_sequence,
        acks.has(sequence as int),
    ensures
        !client.acked(acks).recovered(lost, round, settings).reliable.contains_key(sequence),
{
    let number = client.connection.local_sequence as int;
    let after = client.acked(acks).recovered(lost, round, settings);
    lemma_acked(client, acks);
    lemma_recovered(client.acked(acks), lost, round, settings);
    if after.reliable.contains_key(sequence) {
        assert(after.kept_before(number).contains(sequence));
        assert(client.acked(acks).reliable.dom().contains(sequence));
    }
}

pub proof fn lemma_kept(
    client: ClientView,
    lost: Seq<u32>,
    round: RoundState,
    settings: GameSettings,
    sequence: u32,
)
    requires
        client.wf(),
        client.can_send(0),
        falling(lost),
        client.reliable.contains_key(sequence),
    ensures
        ({
            let packet = client.reliable[sequence];
            let after = client.recovered(lost, round, settings);
            &&& !lost.contains(sequence) ==> owed_as(after, packet, sequence)
            &&& packet.is_current(round, settings) ==> owed(after, packet)
        }),
    decreases lost.len(),
{
    let packet = client.reliable[sequence];
    if lost.len() == 0 {
        assert(owed_as(client, packet, sequence));
    } else {
        let front = lost.drop_last();
        let last = lost.last();
        lemma_kept(client, front, round, settings, sequence);
        lemma_recovered(client, front, round, settings);
        let before = client.recovered(front, round, settings);
        let after = client.recovered(lost, round, settings);
        if !lost.contains(sequence) {
            assert(lost[lost.len() - 1] == last);
            assert(!front.contains(sequence)) by {
                if front.contains(sequence) {
                    let i = choose|i: int| 0 <= i < front.len() && front[i] == sequence;
                    assert(lost[i] == sequence);
                }
            }
            assert(owed_as(after, packet, sequence));
        }
        if packet.is_current(round, settings) {
            let under = choose|under: u32| #[trigger] owed_as(before, packet, under);
            if under == last {
                assert(owed_as(after, packet, before.connection.local_sequence));
            } else {
                assert(owed_as(after, packet, under));
            }
        }
    }
}

/// A packet that is reported lost, has to arrive and is still of interest is sent again.
pub proof fn law_lost_is_sent_again(
    client: ClientView,
    lost: Seq<u32>,
    round: RoundState,
    settings: GameSettings,
    sequence: u32,
)
    requires
        client.wf(),
        client.can_send(0),
        falling(lost),
        lost.contains(sequence),
        client.reliable.contains_key(sequence),
        client.reliable[sequence].is_current(round, settings),
    ensures
        exists|i: int|
            0 <= i < client.recovery(lost, round, settings).len() && (
            #[trigger] client.recovery(lost, round, settings)[i]).packet
                == client.reliable[sequence],
    decreases lost.len(),
{
    let packet = client.reliable[sequence];
    let front = lost.drop_last();
    let frames = client.recovery(front, round, settings);
    let all = client.recovery(lost, round, settings);
    if front.contains(sequence) {
        law_lost_is_sent_again(client, front, round, settings, sequence);
        let i = choose|i: int| 0 <= i < frames.len() && (#[trigger] frames[i]).packet == packet;
        assert(all[i] == frames[i]);
    } else {
        let at = choose|at: int| 0 <= at < lost.len() && lost[at] == sequence;
        if at < lost.len() - 1 {
            assert(front[at] == sequence);
        }
        lemma_kept(client, front, round, settings, sequence);
        assert(owed_as(client.recovered(front, round, settings), packet, sequence));
        assert(all[frames.len() as int].packet == packet);
    }
}

/// A packet that has to arrive and is still of interest is sent again as soon as a header shows
/// that the window has left it behind without its having been acknowledged.
pub proof fn law_unacknowledged_is_sent_again(
    before: ClientView,
    connection: Connection,
    bytes: Seq<u8>,
    number: u32,
    acks: Acks,
    lost: Seq<u32>,
    round: RoundState,
    settings: GameSettings,
    sequence: u32,
)
    requires
        before.wf(),
        before.can_send(0),
        received(before.connection, connection, bytes, number, acks, lost),
        before.reliable.contains_key(sequence),
        before.reliable[sequence].is_current(round, settings),
        left_behind(
            before.connection.remote_acks.newest() as int,
            acks.newest() as int,
            sequence as int,
        ),
        !before.connection.remote_acks.has(sequence as int),
    ensures
        ({
            let client = ClientView { connection, ..before }.acked(acks);
            &&& exists|i: int|
                0 <= i < client.recovery(lost, round, settings).len() && (
                #[trigger] client.recovery(lost, round, settings)[i]).packet
                    == before.reliable[sequence]
            &&& owed(client.recovered(lost, round, settings), before.reliable[sequence])
        }),
{
    let client = ClientView { connection, ..before }.acked(acks);
    assert(lost.contains(sequence));
    assert(!acks.has(sequence as int));
    assert(client.reliable.contains_key(sequence));
    lemma_acked(ClientView { connection, ..before }, acks);
    law_lost_is_sent_again(client, lost, round, settings, sequence);
    lemma_kept(client, lost, round, settings, sequence);
}

/// Input that does not come after what has been received already changes nothing, and neither
/// does input that is received twice.
pub proof fn law_late_input_is_ignored<K, B, L, S, E>(
    first: Net,
    game1: Game,
    second: Net,
    game2: Game,
    third: Net,
    game3: Game,
    address: Address,
    input: Input,
    late: Input,
    sequence: u32,
    late_sequence: u32,
    now: Instant,
    rules: Rules<K, B, L, S, E>,
) where
    K: Fn(Point, GameSettings) -> Point,
    B: Fn(Point, GameSettings) -> Ball,
    L: Fn(u32) -> Color,
    S: Fn(Duration) -> Real,
    E: Fn(Real, Real) -> Real,

    requires
        acted(
            first,
            game1,
            second,
            game2,
            address,
            ClientPacket::Input(input),
            sequence,
            now,
            rules,
        ),
        acted(
            second,
            game2,
            third,
            game3,
            address,
            ClientPacket::Input(late),
            late_sequence,
            now,
            rules,
        ),
        late_sequence <= sequence,
    ensures
        third == second,
        game3 == game2,
{
}

/// When a client has left, neither the client nor its player is there any more, and all others
/// are.
pub proof fn law_left_for_good(
    before: Net,
    game: Game,
    after: Net,
    after_game: Game,
    address: Address,
)
    requires
        dropped(before, game, after, after_game, address),
        before.clients.contains_key(address),
        has_room(before.clients, 2),
    ensures
        after.clients.dom() == before.clients.dom().remove(address),
        after_game.players@.dom() == game.players@.dom().remove(before.clients[address].player),
{
    let events = choose|events: Seq<Event>| #[trigger]
        left(game, after_game, before.clients[address].player, events) && (Net {
            clients: before.clients.remove(address),
            ..before
        }).told(after, events);
    let rest = Net { clients: before.clients.remove(address), ..before };
    assert(has_room(rest.clients, events.len() as int));
    lemma_told(rest, after, events);
    assert(after.clients.dom() =~= before.clients.dom().remove(address));
    assert(after_game.players@.dom() =~= game.players@.dom().remove(before.clients[address].player));
}

/// A client that has joined plays a player of its own, and the last thing in the queue is the
/// packet that tells it all about the game. All others are told of its player.
pub proof fn law_joined_is_welcomed<K, B, L, S, E>(
    before: Net,
    game: Game,
    after: Net,
    after_game: Game,
    address: Address,
    connection: Connection,
    cursor: Point,
    rules: Rules<K, B, L, S, E>,
) where
    K: Fn(Point, GameSettings) -> Point,
    B: Fn(Point, GameSettings) -> Ball,
    L: Fn(u32) -> Color,
    S: Fn(Duration) -> Real,
    E: Fn(Real, Real) -> Real,

    requires
        entered(before, game, after, after_game, address, connection, cursor, rules),
        has_room(before.clients, 2),
    ensures
        after.clients.dom() == before.clients.dom().insert(address),
        after.clients[address].player == game.next_id,
        after_game.players@.contains_key(game.next_id),
        after.queue.len() > 0,
        after.queue.last().0 == address,
        welcomes(after.queue.last().1.packet, game.next_id, after_game),
{
    let (clamped, events, middle) = choose|clamped: Point, events: Seq<Event>, middle: Net|
        call_ensures(rules.clamp, (cursor, game.settings), clamped) && #[trigger] joined(
            game,
            after_game,
            clamped,
            rules.start,
            rules.color,
            events,
        ) && before.told(middle, events) && #[trigger] welcomed(
            middle,
            after,
            address,
            connection,
            game.next_id,
            after_game,
        );
    assert(has_room(before.clients, events.len() as int));
    lemma_told(before, middle, events);
    assert(after.clients.dom() =~= before.clients.dom().insert(address));
}

/// The packets for one client in a queue, in order.
pub open spec fn packets_for(queue: Seq<(Address, FrameView)>, address: Address) -> Seq<ServerPacket>
    decreases queue.len(),
{
    if queue.len() == 0 {
        Seq::empty()
    } else if queue.last().0 == address {
        packets_for(queue.drop_last(), address).push(queue.last().1.packet)
    } else {
        packets_for(queue.drop_last(), address)
    }
}

pub proof fn lemma_packets_for_add(
    first: Seq<(Address, FrameView)>,
    second: Seq<(Address, FrameView)>,
    address: Address,
)
    ensures
        packets_for(first + second, address) == packets_for(first, address) + packets_for(
            second,
            address,
        ),
    decreases second.len(),
{
    if second.len() == 0 {
        assert(first + second =~= first);
        assert(packets_for(first, address) + packets_for(second, address) =~= packets_for(
            first,
            address,
        ));
    } else {
        let front = second.drop_last();
        lemma_packets_for_add(first, front, address);
        assert((first + second).drop_last() =~= first + front);
        assert(packets_for(first + second, address) =~= packets_for(first, address) + packets_for(
            second,
            address,
        ));
    }
}

pub proof fn lemma_packets_for_broadcast(
    clients: Map<Address, ClientView>,
    order: Seq<Address>,
    packet: ServerPacket,
    address: Address,
)
    requires
        order.no_duplicates(),
    ensures
        packets_for(
            Seq::new(order.len(), |i: int| (order[i], clients[order[i]].frame(packet))),
            address,
        ) == (if order.contains(address) {
            seq![packet]
        } else {
            Seq::empty()
        }),
    decreases order.len(),
{
    let entries = Seq::new(order.len(), |i: int| (order[i], clients[order[i]].frame(packet)));
    if order.len() > 0 {
        let front = order.drop_last();
        lemma_packets_for_broadcast(clients, front, packet, address);
        assert(entries.drop_last() =~= Seq::new(
            front.len(),
            |i: int| (front[i], clients[front[i]].frame(packet)),
        ));
        if order.last() == address {
            assert(!front.contains(address)) by {
                if front.contains(address) {
                    let i = choose|i: int| 0 <= i < front.len() && front[i] == address;
                    assert(order[i] == order[order.len() - 1]);
                }
            }
            assert(order[order.len() - 1] == address);
            assert(packets_for(entries, address) =~= seq![packet]);
        } else {
            assert(order.contains(address) <==> front.contains(address)) by {
                if order.contains(address) {
                    let i = choose|i: int| 0 <= i < order.len() && order[i] == address;
                    assert(front[i] == address);
                }
                if front.contains(address) {
                    let i = choose|i: int| 0 <= i < front.len() && front[i] == address;
                    assert(order[i] == address);
                }
            }
        }
    }
}

/// Every client is told of every event exactly once, in the order that the events happened in,
/// and nobody else is told anything.
pub proof fn law_told_in_order(before: Net, after: Net, events: Seq<Event>, address: Address)
    requires
        before.told(after, events),
        has_room(before.clients, events.len() as int),
    ensures
        packets_for(after.queue, address) == packets_for(before.queue, address) + (
        if before.clients.contains_key(address) {
            events.map_values(|event: Event| ServerPacket::Event(event))
        } else {
            Seq::empty()
        }),
    decreases events.len(),
{
    let all = events.map_values(|event: Event| ServerPacket::Event(event));
    if events.len() == 0 {
        assert(packets_for(before.queue, address) + all =~= packets_for(before.queue, address));
    } else {
        let front = events.drop_last();
        let packet = ServerPacket::Event(events.last());
        let middle = choose|middle: Net|
            before.told(middle, front) && #[trigger] middle.broadcast(after, packet, None);
        law_told_in_order(before, middle, front, address);
        lemma_told(before, middle, front);
        let order = choose|order: Seq<Address>| #[trigger]
            middle.broadcast_in_order(after, packet, None, order);
        lemma_packets_for_broadcast(middle.clients, order, packet, address);
        lemma_packets_for_add(
            middle.queue,
            Seq::new(order.len(), |i: int| (order[i], middle.clients[order[i]].frame(packet))),
            address,
        );
        assert(order.contains(address) <==> addressed(middle.clients, None, address));
        assert(middle.clients.contains_key(address) <==> before.clients.contains_key(address));
        assert(all =~= front.map_values(|event: Event| ServerPacket::Event(event)).push(packet));
        if before.clients.contains_key(address) {
            assert(packets_for(after.queue, address) =~= packets_for(before.queue, address) + all);
        } else {
            assert(packets_for(after.queue, address) =~= packets_for(before.queue, address));
        }
    }
}

} // verus!
