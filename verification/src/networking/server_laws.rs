//! What the server does with packets and time, said of the results of its operations alone.

use vstd::prelude::*;

use crate::game::laws::{
    goes_along, lemma_turns_taken, lemma_undisturbed_steps, never_at_wall, never_in_contact,
    never_touched, turns_taken,
};
use crate::game::server::{aimed, enters, joined, left, ticked, Game, Physics, Player};
use crate::game::{
    Ball, Event, GameSettings, Input, PlayerId, PlayerState, RoundState, Snapshot,
};
use crate::networking::connection::{
    header_of, law_header_round_trip, received, Acks, Connection,
};
use crate::networking::packet::{ClientPacket, Frame, FrameView, ServerPacket};
use crate::networking::server::{
    acted, addressed, dropped, entered, has_room, heard, is_blank, is_fresh,
    law_acknowledged_is_dropped, law_kept_until_acknowledged, law_lost_is_sent_again,
    law_told_in_order, lemma_acked, lemma_packets_for_add, lemma_packets_for_broadcast,
    lemma_recovered, lemma_told, owed_as, packets_for, since_last, welcomed, welcomes, Address, ClientView, Net,
    Received, Rules, SendNext, SendOutcome, Server, TimeoutState, Watch,
};
use crate::networking::{RecvError, RttEstimator};
use crate::number::{Color, Point, Real};
use crate::time::{Duration, Instant};

verus! {

broadcast use vstd::std_specs::hash::group_hash_axioms;

/// The number that stands at a place in a packet, the most significant byte first.
pub open spec fn number_at(bytes: Seq<u8>, at: int) -> int {
    bytes[at] * 0x100_0000 + bytes[at + 1] * 0x1_0000 + bytes[at + 2] * 0x100 + bytes[at + 3]
}

pub proof fn lemma_header(bytes: Seq<u8>)
    requires
        bytes.len() >= 12,
    ensures
        header_of(bytes).sequence == number_at(bytes, 0),
        header_of(bytes).ack == number_at(bytes, 4),
        header_of(bytes).ack_bits == number_at(bytes, 8),
{
    assert(bytes.subrange(0, 4)[0] == bytes[0]);
    assert(bytes.subrange(4, 8)[0] == bytes[4]);
    assert(bytes.subrange(8, 12)[0] == bytes[8]);
}

/// Whether nothing that a packet for a client in a queue says is new: everything after the first
/// entries is something that has been kept for the client.
pub open spec fn only_kept(
    queue: Seq<(Address, FrameView)>,
    from: int,
    address: Address,
    kept: Map<u32, ServerPacket>,
) -> bool {
    forall|i: int|
        from <= i < queue.len() ==> {
            &&& (#[trigger] queue[i]).0 == address
            &&& is_kept(kept, queue[i].1.packet)
        }
}

/// Whether a packet is kept for a client.
pub open spec fn is_kept(kept: Map<u32, ServerPacket>, packet: ServerPacket) -> bool {
    exists|sequence: u32| #[trigger] kept.contains_key(sequence) && kept[sequence] == packet
}

proof fn lemma_recovery_is_kept(
    client: ClientView,
    lost: Seq<u32>,
    round: RoundState,
    settings: GameSettings,
)
    ensures
        forall|sequence: u32| #[trigger]
            client.recovered(lost, round, settings).reliable.contains_key(sequence) ==> is_kept(
                client.reliable,
                client.recovered(lost, round, settings).reliable[sequence],
            ),
        forall|i: int|
            0 <= i < client.recovery(lost, round, settings).len() ==> is_kept(
                client.reliable,
                (#[trigger] client.recovery(lost, round, settings)[i]).packet,
            ),
    decreases lost.len(),
{
    if lost.len() > 0 {
        let front = lost.drop_last();
        lemma_recovery_is_kept(client, front, round, settings);
        let middle = client.recovered(front, round, settings);
        let after = client.recovered(lost, round, settings);
        let frames = client.recovery(front, round, settings);
        let all = client.recovery(lost, round, settings);
        assert forall|sequence: u32| #[trigger] after.reliable.contains_key(
            sequence,
        ) implies is_kept(client.reliable, after.reliable[sequence]) by {
            if middle.reliable.contains_key(lost.last()) {
                assert(is_kept(client.reliable, middle.reliable[lost.last()]));
            }
            if middle.reliable.contains_key(sequence) {
                assert(is_kept(client.reliable, middle.reliable[sequence]));
            }
        }
        assert forall|i: int| 0 <= i < all.len() implies is_kept(
            client.reliable,
            (#[trigger] all[i]).packet,
        ) by {
            if i < frames.len() {
                assert(all[i] == frames[i]);
            } else {
                assert(middle.reliable.contains_key(lost.last()));
            }
        }
    }
}

proof fn lemma_packets_for_other(
    queue: Seq<(Address, FrameView)>,
    from: int,
    address: Address,
    other: Address,
)
    requires
        0 <= from <= queue.len(),
        forall|i: int| from <= i < queue.len() ==> (#[trigger] queue[i]).0 == address,
        other != address,
    ensures
        packets_for(queue, other) == packets_for(queue.take(from), other),
    decreases queue.len() - from,
{
    if from == queue.len() {
        assert(queue.take(from) =~= queue);
    } else {
        lemma_packets_for_other(queue, from + 1, address, other);
        assert(queue.take(from + 1).drop_last() =~= queue.take(from));
        assert(queue.take(from + 1).last() == queue[from]);
    }
}

/// Hearing a client changes nothing about the others, and sends nothing but what has been kept for
/// the client.
proof fn lemma_heard(
    before: Net,
    after: Net,
    address: Address,
    bytes: Seq<u8>,
    sequence: u32,
    round: RoundState,
    settings: GameSettings,
)
    requires
        heard(before, after, address, bytes, sequence, round, settings),
        before.clients.contains_key(address),
        before.clients[address].wf(),
        before.clients[address].can_send(2),
        has_room(before.clients, 2),
        bytes.len() >= 12,
    ensures
        sequence == number_at(bytes, 0),
        after.clients.dom() == before.clients.dom(),
        has_room(after.clients, 2),
        after.clients[address].player == before.clients[address].player,
        after.clients[address].rtt == before.clients[address].rtt,
        after.clients[address].last_input == before.clients[address].last_input,
        after.clients[address].connection.acks.newest() >= sequence,
        after.clients[address].connection.acks.newest() < sequence + 32
            ==> after.clients[address].connection.acks.has(sequence as int),
        forall|other: Address|
            other != address ==> #[trigger] after.clients[other] == before.clients[other],
        before.queue.len() <= after.queue.len(),
        after.queue.take(before.queue.len() as int) == before.queue,
        only_kept(
            after.queue,
            before.queue.len() as int,
            address,
            before.clients[address].reliable,
        ),
        forall|other: Address|
            other != address ==> #[trigger] packets_for(after.queue, other) == packets_for(
                before.queue,
                other,
            ),
{
    lemma_header(bytes);
    let (connection, acks, lost) = choose|connection: Connection, acks: Acks, lost: Seq<u32>|
        #[trigger]
        received(before.clients[address].connection, connection, bytes, sequence, acks, lost) && ({
            let client = ClientView { connection, ..before.clients[address] }.acked(acks);
            &&& after.clients == before.clients.insert(
                address,
                client.recovered(lost, round, settings),
            )
            &&& after.queue == before.queue + client.recovery(lost, round, settings).map_values(
                |frame: FrameView| (address, frame),
            )
        });
    let started = ClientView { connection, ..before.clients[address] };
    let client = started.acked(acks);
    assert(started.wf());
    lemma_acked(started, acks);
    lemma_recovered(client, lost, round, settings);
    lemma_recovery_is_kept(client, lost, round, settings);
    let frames = client.recovery(lost, round, settings);
    assert(after.clients.dom() =~= before.clients.dom());
    assert(after.queue.take(before.queue.len() as int) =~= before.queue);
    assert forall|i: int| before.queue.len() <= i < after.queue.len() implies {
        &&& (#[trigger] after.queue[i]).0 == address
        &&& is_kept(before.clients[address].reliable, after.queue[i].1.packet)
    } by {
        let k = i - before.queue.len();
        assert(after.queue[i] == (address, frames[k]));
        assert(is_kept(client.reliable, frames[k].packet));
        let earlier = choose|earlier: u32| #[trigger]
            client.reliable.contains_key(earlier) && client.reliable[earlier] == frames[k].packet;
        assert(before.clients[address].reliable.contains_key(earlier));
    }
    assert forall|other: Address| other != address implies #[trigger] packets_for(
        after.queue,
        other,
    ) == packets_for(before.queue, other) by {
        lemma_packets_for_other(after.queue, before.queue.len() as int, address, other);
    }
    let number = client.connection.local_sequence as int;
    let recovered = client.recovered(lost, round, settings);
    assert(recovered.connection.local_sequence <= number + client.reliable.len());
    assert(has_room(after.clients, 2)) by {
        assert forall|a: Address| #[trigger] after.clients.contains_key(
            a,
        ) implies after.clients[a].connection.local_sequence + 2 <= u32::MAX by {
            if a != address {
                assert(before.clients.contains_key(a));
            }
        }
    }
}

proof fn lemma_ready(server: Server, address: Address)
    requires
        server.wf(),
        server.ready(),
        server.net().clients.contains_key(address),
    ensures
        server.net().clients[address].wf(),
        server.net().clients[address].can_send(2),
        has_room(server.net().clients, 2),
{
    assert forall|a: Address| #[trigger] server.net().clients.contains_key(
        a,
    ) implies server.net().clients[a].connection.local_sequence + 2 <= u32::MAX by {
        assert(server.net().clients[a].can_send(2));
    }
}

/// New settings from a client are the settings of the game at once, and nothing else about the game
/// changes. All other clients are told of them, after whatever they have been told before. The
/// client itself is told nothing but what has been kept for it.
pub proof fn law_settings_are_taken_and_passed_on<K, B, L, S, E>(
    server: &mut Server,
    address: Address,
    bytes: &[u8],
    settings: GameSettings,
    now: Instant,
    rules: Rules<K, B, L, S, E>,
    outcome: Received,
) where
    K: Fn(Point, GameSettings) -> Point,
    B: Fn(Point, GameSettings) -> Ball,
    L: Fn(u32) -> Color,
    S: Fn(Duration) -> Real,
    E: Fn(Real, Real) -> Real,

    requires
        call_ensures(
            Server::on_recv::<K, B, L, S, E>,
            (server, address, bytes, Some(ClientPacket::Settings(settings)), now, &rules),
            outcome,
        ),
        old(server).wf(),
        old(server).ready(),
        old(server).net().clients.contains_key(address),
        outcome.result is Ok,
    ensures
        final(server).played().settings == settings,
        final(server).played().players == old(server).played().players,
        final(server).played().round == old(server).played().round,
        final(server).played().round_duration == old(server).played().round_duration,
        final(server).played().next_id == old(server).played().next_id,
        final(server).net().clients.dom() == old(server).net().clients.dom(),
        forall|other: Address|
            old(server).net().clients.contains_key(other) && other != address
                ==> #[trigger] packets_for(final(server).net().queue, other) == packets_for(
                old(server).net().queue,
                other,
            ).push(ServerPacket::Event(Event::Settings(settings))),
        forall|other: Address| #[trigger]
            old(server).net().clients.contains_key(other) && other != address ==> {
                let before = old(server).net().clients[other];
                final(server).net().clients[other].reliable == before.reliable.insert(
                    before.connection.local_sequence,
                    ServerPacket::Event(Event::Settings(settings)),
                )
            },
        outcome.waiting,
{
    lemma_ready(*old(server), address);
    let before = old(server).net();
    let after = final(server).net();
    let game = old(server).played();
    let (middle, sequence) = choose|middle: Net, sequence: u32| #[trigger]
        heard(before, middle, address, bytes@, sequence, game.round, game.settings) && acted(
            middle,
            game,
            after,
            final(server).played(),
            address,
            ClientPacket::Settings(settings),
            sequence,
            now,
            rules,
        );
    lemma_heard(before, middle, address, bytes@, sequence, game.round, game.settings);
    let packet = ServerPacket::Event(Event::Settings(settings));
    let order = choose|order: Seq<Address>| #[trigger]
        middle.broadcast_in_order(after, packet, Some(address), order);
    assert forall|other: Address|
        before.clients.contains_key(other) && other != address implies #[trigger] packets_for(
        after.queue,
        other,
    ) == packets_for(before.queue, other).push(packet) by {
        lemma_packets_for_broadcast(middle.clients, order, packet, other);
        lemma_packets_for_add(
            middle.queue,
            Seq::new(order.len(), |i: int| (order[i], middle.clients[order[i]].frame(packet))),
            other,
        );
        assert(addressed(middle.clients, Some(address), other));
        assert(order.contains(other));
        assert(packets_for(after.queue, other) =~= packets_for(before.queue, other).push(packet));
    }
}

/// Input that is newer than what has been received from a client sets the cursor of its player, to
/// within bounds: while a round runs only that of a player who is alive, otherwise that of any, with
/// its ball put back to where it starts. Nobody else is affected, and nobody is told.
pub proof fn law_new_input_moves_the_cursor<K, B, L, S, E>(
    server: &mut Server,
    address: Address,
    bytes: &[u8],
    input: Input,
    now: Instant,
    rules: Rules<K, B, L, S, E>,
    outcome: Received,
) where
    K: Fn(Point, GameSettings) -> Point,
    B: Fn(Point, GameSettings) -> Ball,
    L: Fn(u32) -> Color,
    S: Fn(Duration) -> Real,
    E: Fn(Real, Real) -> Real,

    requires
        call_ensures(
            Server::on_recv::<K, B, L, S, E>,
            (server, address, bytes, Some(ClientPacket::Input(input)), now, &rules),
            outcome,
        ),
        old(server).wf(),
        old(server).ready(),
        old(server).net().clients.contains_key(address),
        outcome.result is Ok,
        number_at(bytes@, 0) > old(server).net().clients[address].last_input,
    ensures
        final(server).net().clients[address].last_input == number_at(bytes@, 0),
        final(server).played().settings == old(server).played().settings,
        final(server).played().round == old(server).played().round,
        final(server).played().round_duration == old(server).played().round_duration,
        final(server).played().next_id == old(server).played().next_id,
        ({
            let id = old(server).net().clients[address].player;
            let before = old(server).played().players@[id].state;
            let after = final(server).played().players@[id].state;
            exists|cursor: Point| #[trigger]
                call_ensures(
                    rules.clamp,
                    (input.cursor, old(server).played().settings),
                    cursor,
                ) && match old(server).played().round {
                    RoundState::Round | RoundState::RoundEnd => {
                        &&& after.ball == before.ball
                        &&& after.cursor == (if before.cursor is Some {
                            Some(cursor)
                        } else {
                            None
                        })
                    },
                    _ => {
                        &&& after.cursor == Some(cursor)
                        &&& call_ensures(
                            rules.start,
                            (cursor, old(server).played().settings),
                            after.ball,
                        )
                    },
                }
        }),
        forall|other: PlayerId|
            other != old(server).net().clients[address].player
                ==> (#[trigger] final(server).played().players@.contains_key(other)
                <==> old(server).played().players@.contains_key(other))
                && final(server).played().players@[other] == old(
                server,
            ).played().players@[other],
        forall|other: Address|
            other != address ==> #[trigger] packets_for(final(server).net().queue, other)
                == packets_for(old(server).net().queue, other),
{
    lemma_ready(*old(server), address);
    let before = old(server).net();
    let after = final(server).net();
    let game = old(server).played();
    let (middle, sequence) = choose|middle: Net, sequence: u32| #[trigger]
        heard(before, middle, address, bytes@, sequence, game.round, game.settings) && acted(
            middle,
            game,
            after,
            final(server).played(),
            address,
            ClientPacket::Input(input),
            sequence,
            now,
            rules,
        );
    lemma_heard(before, middle, address, bytes@, sequence, game.round, game.settings);
    let id = before.clients[address].player;
    assert(game.players@.contains_key(id));
    let cursor = choose|cursor: Point|
        call_ensures(rules.clamp, (input.cursor, game.settings), cursor) && #[trigger] aimed(
            game,
            final(server).played(),
            middle.clients[address].player,
            cursor,
            rules.start,
        );
    assert(call_ensures(rules.clamp, (input.cursor, game.settings), cursor));
}

/// Input that is no newer than what has been received from a client changes nothing about the game,
/// and nobody is told.
pub proof fn law_old_input_is_ignored<K, B, L, S, E>(
    server: &mut Server,
    address: Address,
    bytes: &[u8],
    input: Input,
    now: Instant,
    rules: Rules<K, B, L, S, E>,
    outcome: Received,
) where
    K: Fn(Point, GameSettings) -> Point,
    B: Fn(Point, GameSettings) -> Ball,
    L: Fn(u32) -> Color,
    S: Fn(Duration) -> Real,
    E: Fn(Real, Real) -> Real,

    requires
        call_ensures(
            Server::on_recv::<K, B, L, S, E>,
            (server, address, bytes, Some(ClientPacket::Input(input)), now, &rules),
            outcome,
        ),
        old(server).wf(),
        old(server).ready(),
        old(server).net().clients.contains_key(address),
        outcome.result is Ok,
        number_at(bytes@, 0) <= old(server).net().clients[address].last_input,
    ensures
        final(server).played() == old(server).played(),
        final(server).net().clients[address].last_input == old(
            server,
        ).net().clients[address].last_input,
        forall|other: Address|
            other != address ==> #[trigger] packets_for(final(server).net().queue, other)
                == packets_for(old(server).net().queue, other),
{
    lemma_ready(*old(server), address);
    let before = old(server).net();
    let after = final(server).net();
    let game = old(server).played();
    let (middle, sequence) = choose|middle: Net, sequence: u32| #[trigger]
        heard(before, middle, address, bytes@, sequence, game.round, game.settings) && acted(
            middle,
            game,
            after,
            final(server).played(),
            address,
            ClientPacket::Input(input),
            sequence,
            now,
            rules,
        );
    lemma_heard(before, middle, address, bytes@, sequence, game.round, game.settings);
}

/// A handshake from a client that is known already changes nothing about the game. The client keeps
/// its player, and nobody is told.
pub proof fn law_second_handshake_is_ignored<K, B, L, S, E>(
    server: &mut Server,
    address: Address,
    bytes: &[u8],
    cursor: Point,
    now: Instant,
    rules: Rules<K, B, L, S, E>,
    outcome: Received,
) where
    K: Fn(Point, GameSettings) -> Point,
    B: Fn(Point, GameSettings) -> Ball,
    L: Fn(u32) -> Color,
    S: Fn(Duration) -> Real,
    E: Fn(Real, Real) -> Real,

    requires
        call_ensures(
            Server::on_recv::<K, B, L, S, E>,
            (server, address, bytes, Some(ClientPacket::Handshake { cursor }), now, &rules),
            outcome,
        ),
        old(server).wf(),
        old(server).ready(),
        old(server).net().clients.contains_key(address),
        outcome.result is Ok,
    ensures
        final(server).played() == old(server).played(),
        final(server).net().clients.dom() == old(server).net().clients.dom(),
        final(server).net().clients[address].player == old(server).net().clients[address].player,
        only_kept(
            final(server).net().queue,
            old(server).net().queue.len() as int,
            address,
            old(server).net().clients[address].reliable,
        ),
        forall|other: Address|
            other != address ==> #[trigger] packets_for(final(server).net().queue, other)
                == packets_for(old(server).net().queue, other),
{
    lemma_ready(*old(server), address);
    let before = old(server).net();
    let after = final(server).net();
    let game = old(server).played();
    let (middle, sequence) = choose|middle: Net, sequence: u32| #[trigger]
        heard(before, middle, address, bytes@, sequence, game.round, game.settings) && acted(
            middle,
            game,
            after,
            final(server).played(),
            address,
            ClientPacket::Handshake { cursor },
            sequence,
            now,
            rules,
        );
    lemma_heard(before, middle, address, bytes@, sequence, game.round, game.settings);
}

/// A ping is answered to whom it came from, with its own sequence number, after whatever else is to
/// be sent. The game does not change, and nobody else is told.
pub proof fn law_ping_is_answered<K, B, L, S, E>(
    server: &mut Server,
    address: Address,
    bytes: &[u8],
    now: Instant,
    rules: Rules<K, B, L, S, E>,
    outcome: Received,
) where
    K: Fn(Point, GameSettings) -> Point,
    B: Fn(Point, GameSettings) -> Ball,
    L: Fn(u32) -> Color,
    S: Fn(Duration) -> Real,
    E: Fn(Real, Real) -> Real,

    requires
        call_ensures(
            Server::on_recv::<K, B, L, S, E>,
            (server, address, bytes, Some(ClientPacket::Ping), now, &rules),
            outcome,
        ),
        old(server).wf(),
        old(server).ready(),
        old(server).net().clients.contains_key(address),
        outcome.result is Ok,
    ensures
        final(server).played() == old(server).played(),
        final(server).net().clients.dom() == old(server).net().clients.dom(),
        final(server).net().queue.len() > old(server).net().queue.len(),
        final(server).net().queue.last().0 == address,
        final(server).net().queue.last().1.packet is Pong,
        final(server).net().queue.last().1.packet->Pong_0 == number_at(bytes@, 0),
        forall|other: Address|
            other != address ==> #[trigger] packets_for(final(server).net().queue, other)
                == packets_for(old(server).net().queue, other),
        outcome.waiting,
{
    lemma_ready(*old(server), address);
    let before = old(server).net();
    let after = final(server).net();
    let game = old(server).played();
    let (middle, sequence) = choose|middle: Net, sequence: u32| #[trigger]
        heard(before, middle, address, bytes@, sequence, game.round, game.settings) && acted(
            middle,
            game,
            after,
            final(server).played(),
            address,
            ClientPacket::Ping,
            sequence,
            now,
            rules,
        );
    lemma_heard(before, middle, address, bytes@, sequence, game.round, game.settings);
    lemma_sent_to(middle, after, address, ServerPacket::Pong(sequence));
}

/// A pong for the ping that is still open makes a sample of the time since it was sent, and closes
/// it. Any other pong is ignored. The game does not change, and nobody is told.
pub proof fn law_pong_is_a_sample<K, B, L, S, E>(
    server: &mut Server,
    address: Address,
    bytes: &[u8],
    answered: u32,
    now: Instant,
    rules: Rules<K, B, L, S, E>,
    outcome: Received,
) where
    K: Fn(Point, GameSettings) -> Point,
    B: Fn(Point, GameSettings) -> Ball,
    L: Fn(u32) -> Color,
    S: Fn(Duration) -> Real,
    E: Fn(Real, Real) -> Real,

    requires
        call_ensures(
            Server::on_recv::<K, B, L, S, E>,
            (server, address, bytes, Some(ClientPacket::Pong(answered)), now, &rules),
            outcome,
        ),
        old(server).wf(),
        old(server).ready(),
        old(server).net().clients.contains_key(address),
        outcome.result is Ok,
    ensures
        final(server).played() == old(server).played(),
        forall|other: Address|
            other != address ==> #[trigger] packets_for(final(server).net().queue, other)
                == packets_for(old(server).net().queue, other),
        ({
            let before = old(server).net().clients[address].rtt;
            let after = final(server).net().clients[address].rtt;
            if before.pinged() is Some && (before.pinged()->0).0 == answered {
                &&& after.pinged() is None
                &&& after.estimate() is Some
                &&& before.estimate() is None && (before.pinged()->0).1.nanos <= now.nanos
                    ==> call_ensures(
                    rules.seconds,
                    (Duration { nanos: (now.nanos - (before.pinged()->0).1.nanos) as u128 },),
                    after.estimate()->0,
                )
            } else {
                after == before
            }
        }),
{
    lemma_ready(*old(server), address);
    let before = old(server).net();
    let after = final(server).net();
    let game = old(server).played();
    let (middle, sequence) = choose|middle: Net, sequence: u32| #[trigger]
        heard(before, middle, address, bytes@, sequence, game.round, game.settings) && acted(
            middle,
            game,
            after,
            final(server).played(),
            address,
            ClientPacket::Pong(answered),
            sequence,
            now,
            rules,
        );
    lemma_heard(before, middle, address, bytes@, sequence, game.round, game.settings);
}

/// A client that disconnects is gone with its player, and all others stay. They are told that the
/// player is gone, and next that they are back in a lobby if less than two players are left.
pub proof fn law_disconnect_removes_the_player<K, B, L, S, E>(
    server: &mut Server,
    address: Address,
    bytes: &[u8],
    now: Instant,
    rules: Rules<K, B, L, S, E>,
    outcome: Received,
) where
    K: Fn(Point, GameSettings) -> Point,
    B: Fn(Point, GameSettings) -> Ball,
    L: Fn(u32) -> Color,
    S: Fn(Duration) -> Real,
    E: Fn(Real, Real) -> Real,

    requires
        call_ensures(
            Server::on_recv::<K, B, L, S, E>,
            (server, address, bytes, Some(ClientPacket::Disconnect), now, &rules),
            outcome,
        ),
        old(server).wf(),
        old(server).ready(),
        old(server).net().clients.contains_key(address),
        outcome.result is Ok,
    ensures
        !final(server).net().clients.contains_key(address),
        forall|other: Address|
            other != address ==> (#[trigger] final(server).net().clients.contains_key(other)
                <==> old(server).net().clients.contains_key(other)),
        !final(server).played().players@.contains_key(old(server).net().clients[address].player),
        final(server).played().players@ == old(server).played().players@.remove(
            old(server).net().clients[address].player,
        ),
        final(server).played().settings == old(server).played().settings,
        final(server).played().next_id == old(server).played().next_id,
        final(server).played().players@.len() < 2 ==> final(server).played().round
            == RoundState::Lobby,
        final(server).played().players@.len() >= 2 ==> final(server).played().round == old(
            server,
        ).played().round,
        forall|other: Address|
            old(server).net().clients.contains_key(other) && other != address
                ==> #[trigger] packets_for(final(server).net().queue, other) == packets_for(
                old(server).net().queue,
                other,
            ) + gone(
                old(server).net().clients[address].player,
                final(server).played().players@.len() < 2,
            ),
{
    lemma_ready(*old(server), address);
    let before = old(server).net();
    let after = final(server).net();
    let game = old(server).played();
    let (middle, sequence) = choose|middle: Net, sequence: u32| #[trigger]
        heard(before, middle, address, bytes@, sequence, game.round, game.settings) && acted(
            middle,
            game,
            after,
            final(server).played(),
            address,
            ClientPacket::Disconnect,
            sequence,
            now,
            rules,
        );
    lemma_heard(before, middle, address, bytes@, sequence, game.round, game.settings);
    lemma_dropped(middle, game, after, final(server).played(), address);
}

proof fn lemma_sent_to(before: Net, after: Net, address: Address, packet: ServerPacket)
    requires
        after == before.sent_to(address, packet),
        before.clients.contains_key(address),
    ensures
        after.clients.dom() == before.clients.dom(),
        after.queue.len() == before.queue.len() + 1,
        after.queue.last().0 == address,
        after.queue.last().1.packet == packet,
        before.queue.is_prefix_of(after.queue),
        forall|other: Address|
            other != address ==> #[trigger] packets_for(after.queue, other) == packets_for(
                before.queue,
                other,
            ),
{
    assert(after.clients.dom() =~= before.clients.dom());
    assert(after.queue.drop_last() =~= before.queue);
    assert(before.queue =~= after.queue.subrange(0, before.queue.len() as int));
}

/// What the others are told when a player has left.
pub open spec fn gone(id: PlayerId, lobby: bool) -> Seq<ServerPacket> {
    if lobby {
        seq![
            ServerPacket::Event(Event::RemovePlayer(id)),
            ServerPacket::Event(Event::RoundState(RoundState::Lobby)),
        ]
    } else {
        seq![ServerPacket::Event(Event::RemovePlayer(id))]
    }
}

proof fn lemma_dropped(
    before: Net,
    game: Game,
    after: Net,
    after_game: Game,
    address: Address,
)
    requires
        dropped(before, game, after, after_game, address),
        before.clients.contains_key(address),
        has_room(before.clients, 2),
    ensures
        after.clients.dom() == before.clients.dom().remove(address),
        after_game.players@ == game.players@.remove(before.clients[address].player),
        after_game.settings == game.settings,
        after_game.next_id == game.next_id,
        after_game.players@.len() < 2 ==> after_game.round == RoundState::Lobby
            && after_game.round_duration.bits == 0,
        after_game.players@.len() >= 2 ==> after_game.round == game.round
            && after_game.round_duration == game.round_duration,
        before.queue.is_prefix_of(after.queue),
        forall|other: Address|
            before.clients.contains_key(other) && other != address ==> #[trigger] packets_for(
                after.queue,
                other,
            ) == packets_for(before.queue, other) + gone(
                before.clients[address].player,
                after_game.players@.len() < 2,
            ),
{
    let id = before.clients[address].player;
    let rest = Net { clients: before.clients.remove(address), ..before };
    let events = choose|events: Seq<Event>| #[trigger]
        left(game, after_game, id, events) && rest.told(after, events);
    assert(has_room(rest.clients, events.len() as int));
    lemma_told(rest, after, events);
    assert(after.clients.dom() =~= before.clients.dom().remove(address));
    assert forall|other: Address|
        before.clients.contains_key(other) && other != address implies #[trigger] packets_for(
        after.queue,
        other,
    ) == packets_for(before.queue, other) + gone(id, after_game.players@.len() < 2) by {
        law_told_in_order(rest, after, events, other);
        assert(events.map_values(|event: Event| ServerPacket::Event(event)) =~= gone(
            id,
            after_game.players@.len() < 2,
        ));
    }
}

/// A queue has grown at its end.
proof fn lemma_queue_grows<K, B, L, S, E>(
    before: Net,
    game: Game,
    after: Net,
    after_game: Game,
    address: Address,
    contents: ClientPacket,
    sequence: u32,
    now: Instant,
    rules: Rules<K, B, L, S, E>,
) where
    K: Fn(Point, GameSettings) -> Point,
    B: Fn(Point, GameSettings) -> Ball,
    L: Fn(u32) -> Color,
    S: Fn(Duration) -> Real,
    E: Fn(Real, Real) -> Real,

    requires
        acted(before, game, after, after_game, address, contents, sequence, now, rules),
        before.clients.contains_key(address),
        has_room(before.clients, 2),
    ensures
        before.queue.len() <= after.queue.len(),
        after.queue.take(before.queue.len() as int) == before.queue,
{
    match contents {
        ClientPacket::Settings(settings) => {
            let packet = ServerPacket::Event(Event::Settings(settings));
            let order = choose|order: Seq<Address>| #[trigger]
                before.broadcast_in_order(after, packet, Some(address), order);
        },
        ClientPacket::Disconnect => {
            lemma_dropped(before, game, after, after_game, address);
        },
        _ => {},
    }
    assert(after.queue.take(before.queue.len() as int) =~= before.queue);
}

/// A packet that is kept for a client is sent again as soon as a header from the client shows that
/// it got lost, if it is one that still matters: a handshake, or an event of a player who has joined
/// or left, in every round state and with any settings, and an event of the current round state.
///
/// It got lost if it was not known to have arrived, and is now 32 or more behind the most recent one
/// that has.
pub proof fn law_lost_packets_are_sent_again<K, B, L, S, E>(
    server: &mut Server,
    address: Address,
    bytes: &[u8],
    contents: ClientPacket,
    sequence: u32,
    now: Instant,
    rules: Rules<K, B, L, S, E>,
    outcome: Received,
) where
    K: Fn(Point, GameSettings) -> Point,
    B: Fn(Point, GameSettings) -> Ball,
    L: Fn(u32) -> Color,
    S: Fn(Duration) -> Real,
    E: Fn(Real, Real) -> Real,

    requires
        call_ensures(
            Server::on_recv::<K, B, L, S, E>,
            (server, address, bytes, Some(contents), now, &rules),
            outcome,
        ),
        old(server).wf(),
        old(server).ready(),
        old(server).net().clients.contains_key(address),
        outcome.result is Ok,
        old(server).net().clients[address].reliable.contains_key(sequence),
        ({
            let packet = old(server).net().clients[address].reliable[sequence];
            ||| packet is Handshake
            ||| packet is Event && packet->Event_0 is NewPlayer
            ||| packet is Event && packet->Event_0 is RemovePlayer
            ||| packet == ServerPacket::Event(Event::RoundState(old(server).played().round))
        }),
        sequence + 32 <= number_at(bytes@, 4),
        old(server).net().clients[address].connection.remote_acks.newest() < sequence + 32,
        !old(server).net().clients[address].connection.remote_acks.has(sequence as int),
    ensures
        exists|i: int|
            old(server).net().queue.len() <= i < final(server).net().queue.len() && (
            #[trigger] final(server).net().queue[i]).0 == address
                && final(server).net().queue[i].1.packet == old(
                server,
            ).net().clients[address].reliable[sequence],
{
    lemma_ready(*old(server), address);
    let number = sequence;
    let packet = old(server).net().clients[address].reliable[number];
    let before = old(server).net();
    let after = final(server).net();
    let game = old(server).played();
    let (middle, sequence) = choose|middle: Net, sequence: u32| #[trigger]
        heard(before, middle, address, bytes@, sequence, game.round, game.settings) && acted(
            middle,
            game,
            after,
            final(server).played(),
            address,
            contents,
            sequence,
            now,
            rules,
        );
    lemma_heard(before, middle, address, bytes@, sequence, game.round, game.settings);
    lemma_header(bytes@);
    lemma_queue_grows(
        middle,
        game,
        after,
        final(server).played(),
        address,
        contents,
        sequence,
        now,
        rules,
    );
    lemma_sent_again(before, middle, address, bytes@, sequence, game.round, game.settings, number);
    let i = choose|i: int|
        before.queue.len() <= i < middle.queue.len() && (#[trigger] middle.queue[i]).0 == address
            && middle.queue[i].1.packet == packet;
    assert(after.queue.take(middle.queue.len() as int)[i] == after.queue[i]);
}

proof fn lemma_sent_again(
    before: Net,
    after: Net,
    address: Address,
    bytes: Seq<u8>,
    sequence: u32,
    round: RoundState,
    settings: GameSettings,
    number: u32,
)
    requires
        heard(before, after, address, bytes, sequence, round, settings),
        before.clients.contains_key(address),
        before.clients[address].wf(),
        before.clients[address].can_send(2),
        bytes.len() >= 12,
        before.clients[address].reliable.contains_key(number),
        before.clients[address].reliable[number].is_current(round, settings),
        number + 32 <= number_at(bytes, 4),
        before.clients[address].connection.remote_acks.newest() < number + 32,
        !before.clients[address].connection.remote_acks.has(number as int),
    ensures
        exists|i: int|
            before.queue.len() <= i < after.queue.len() && (#[trigger] after.queue[i]).0 == address
                && after.queue[i].1.packet == before.clients[address].reliable[number],
{
    lemma_header(bytes);
    let packet = before.clients[address].reliable[number];
    let (connection, acks, lost) = choose|connection: Connection, acks: Acks, lost: Seq<u32>|
        #[trigger]
        received(before.clients[address].connection, connection, bytes, sequence, acks, lost) && ({
            let client = ClientView { connection, ..before.clients[address] }.acked(acks);
            &&& after.clients == before.clients.insert(
                address,
                client.recovered(lost, round, settings),
            )
            &&& after.queue == before.queue + client.recovery(lost, round, settings).map_values(
                |frame: FrameView| (address, frame),
            )
        });
    let started = ClientView { connection, ..before.clients[address] };
    let client = started.acked(acks);
    assert(started.wf());
    lemma_acked(started, acks);
    assert(lost.contains(number));
    assert(!acks.has(number as int));
    assert(client.reliable.contains_key(number));
    law_lost_is_sent_again(client, lost, round, settings, number);
    let frames = client.recovery(lost, round, settings);
    let k = choose|k: int| 0 <= k < frames.len() && (#[trigger] frames[k]).packet == packet;
    assert(after.queue[before.queue.len() + k] == (address, frames[k]));
}

proof fn lemma_recovery_is_current(
    client: ClientView,
    lost: Seq<u32>,
    round: RoundState,
    settings: GameSettings,
)
    ensures
        forall|i: int|
            0 <= i < client.recovery(lost, round, settings).len() ==> (
            #[trigger] client.recovery(lost, round, settings)[i]).packet.is_current(
                round,
                settings,
            ),
    decreases lost.len(),
{
    if lost.len() > 0 {
        let front = lost.drop_last();
        lemma_recovery_is_current(client, front, round, settings);
        let frames = client.recovery(front, round, settings);
        let all = client.recovery(lost, round, settings);
        assert forall|i: int| 0 <= i < all.len() implies (#[trigger] all[i]).packet.is_current(
            round,
            settings,
        ) by {
            if i < frames.len() {
                assert(all[i] == frames[i]);
            }
        }
    }
}

/// Nothing is sent again that has changed since, or that there will be more of soon: no event of
/// another round state than the current one, no snapshot, no ping and no pong.
pub proof fn law_stale_packets_are_not_sent_again<K, B, L, S, E>(
    server: &mut Server,
    address: Address,
    bytes: &[u8],
    input: Input,
    now: Instant,
    rules: Rules<K, B, L, S, E>,
    outcome: Received,
) where
    K: Fn(Point, GameSettings) -> Point,
    B: Fn(Point, GameSettings) -> Ball,
    L: Fn(u32) -> Color,
    S: Fn(Duration) -> Real,
    E: Fn(Real, Real) -> Real,

    requires
        call_ensures(
            Server::on_recv::<K, B, L, S, E>,
            (server, address, bytes, Some(ClientPacket::Input(input)), now, &rules),
            outcome,
        ),
        old(server).wf(),
        old(server).ready(),
        old(server).net().clients.contains_key(address),
        outcome.result is Ok,
    ensures
        forall|i: int|
            old(server).net().queue.len() <= i < final(server).net().queue.len() ==> {
                let packet = (#[trigger] final(server).net().queue[i]).1.packet;
                &&& packet is Handshake || packet is Event
                &&& packet is Event ==> packet->Event_0 !is Snapshot
                &&& packet is Event && packet->Event_0 is RoundState
                    ==> packet->Event_0->RoundState_0 == old(server).played().round
            },
{
    lemma_ready(*old(server), address);
    let before = old(server).net();
    let after = final(server).net();
    let game = old(server).played();
    let (middle, sequence) = choose|middle: Net, sequence: u32| #[trigger]
        heard(before, middle, address, bytes@, sequence, game.round, game.settings) && acted(
            middle,
            game,
            after,
            final(server).played(),
            address,
            ClientPacket::Input(input),
            sequence,
            now,
            rules,
        );
    lemma_heard(before, middle, address, bytes@, sequence, game.round, game.settings);
    let (connection, acks, lost) = choose|connection: Connection, acks: Acks, lost: Seq<u32>|
        #[trigger]
        received(before.clients[address].connection, connection, bytes@, sequence, acks, lost) && ({
            let client = ClientView { connection, ..before.clients[address] }.acked(acks);
            &&& middle.clients == before.clients.insert(
                address,
                client.recovered(lost, game.round, game.settings),
            )
            &&& middle.queue == before.queue + client.recovery(
                lost,
                game.round,
                game.settings,
            ).map_values(|frame: FrameView| (address, frame))
        });
    let client = ClientView { connection, ..before.clients[address] }.acked(acks);
    lemma_recovery_is_current(client, lost, game.round, game.settings);
    let frames = client.recovery(lost, game.round, game.settings);
    assert forall|i: int| before.queue.len() <= i < after.queue.len() implies {
        let packet = (#[trigger] after.queue[i]).1.packet;
        &&& packet is Handshake || packet is Event
        &&& packet is Event ==> packet->Event_0 !is Snapshot
        &&& packet is Event && packet->Event_0 is RoundState ==> packet->Event_0->RoundState_0
            == game.round
    } by {
        assert(after.queue[i] == (address, frames[i - before.queue.len()]));
    }
}

/// A packet that is kept for a client is not kept any more once a header from the client says that it
/// has arrived. One that the header says nothing of, and that is less than 32 behind the most recent
/// one that has arrived, is still kept.
///
/// The header says which packet is the most recent one that has arrived, and has one bit for each of
/// the last 32, the lowest one for that packet itself.
pub proof fn law_kept_until_arrived<K, B, L, S, E>(
    server: &mut Server,
    address: Address,
    bytes: &[u8],
    input: Input,
    sequence: u32,
    now: Instant,
    rules: Rules<K, B, L, S, E>,
    outcome: Received,
) where
    K: Fn(Point, GameSettings) -> Point,
    B: Fn(Point, GameSettings) -> Ball,
    L: Fn(u32) -> Color,
    S: Fn(Duration) -> Real,
    E: Fn(Real, Real) -> Real,

    requires
        call_ensures(
            Server::on_recv::<K, B, L, S, E>,
            (server, address, bytes, Some(ClientPacket::Input(input)), now, &rules),
            outcome,
        ),
        old(server).wf(),
        old(server).ready(),
        old(server).net().clients.contains_key(address),
        outcome.result is Ok,
        old(server).net().clients[address].reliable.contains_key(sequence),
    ensures
        ({
            let behind = number_at(bytes@, 4) - sequence;
            let arrived = 0 <= behind < 32 && ((number_at(bytes@, 8) as u32) >> (behind as u32))
                & 1u32 == 1u32;
            let kept = old(server).net().clients[address].reliable[sequence];
            let after = final(server).net().clients[address].reliable;
            &&& arrived ==> !after.contains_key(sequence)
            &&& !arrived && behind < 32 ==> after.contains_key(sequence) && after[sequence] == kept
        }),
{
    let number = sequence;
    lemma_ready(*old(server), address);
    let before = old(server).net();
    let after = final(server).net();
    let game = old(server).played();
    let (middle, sequence) = choose|middle: Net, sequence: u32| #[trigger]
        heard(before, middle, address, bytes@, sequence, game.round, game.settings) && acted(
            middle,
            game,
            after,
            final(server).played(),
            address,
            ClientPacket::Input(input),
            sequence,
            now,
            rules,
        );
    lemma_heard(before, middle, address, bytes@, sequence, game.round, game.settings);
    lemma_header(bytes@);
    lemma_kept_or_not(
        before,
        middle,
        address,
        bytes@,
        sequence,
        game.round,
        game.settings,
        number,
    );
}

proof fn lemma_kept_or_not(
    before: Net,
    after: Net,
    address: Address,
    bytes: Seq<u8>,
    sequence: u32,
    round: RoundState,
    settings: GameSettings,
    number: u32,
)
    requires
        heard(before, after, address, bytes, sequence, round, settings),
        before.clients.contains_key(address),
        before.clients[address].wf(),
        before.clients[address].can_send(2),
        bytes.len() >= 12,
        before.clients[address].reliable.contains_key(number),
    ensures
        ({
            let behind = number_at(bytes, 4) - number;
            let arrived = 0 <= behind < 32 && ((number_at(bytes, 8) as u32) >> (behind as u32))
                & 1u32 == 1u32;
            let kept = before.clients[address].reliable[number];
            let reliable = after.clients[address].reliable;
            &&& arrived ==> !reliable.contains_key(number)
            &&& !arrived && behind < 32 ==> reliable.contains_key(number) && reliable[number]
                == kept
        }),
{
    lemma_header(bytes);
    let (connection, acks, lost) = choose|connection: Connection, acks: Acks, lost: Seq<u32>|
        #[trigger]
        received(before.clients[address].connection, connection, bytes, sequence, acks, lost) && ({
            let client = ClientView { connection, ..before.clients[address] }.acked(acks);
            &&& after.clients == before.clients.insert(
                address,
                client.recovered(lost, round, settings),
            )
            &&& after.queue == before.queue + client.recovery(lost, round, settings).map_values(
                |frame: FrameView| (address, frame),
            )
        });
    let started = ClientView { connection, ..before.clients[address] };
    let behind = number_at(bytes, 4) - number;
    let arrived = 0 <= behind < 32 && ((number_at(bytes, 8) as u32) >> (behind as u32)) & 1u32
        == 1u32;
    assert(started.wf());
    assert(arrived == acks.has(number as int));
    if arrived {
        law_acknowledged_is_dropped(started, acks, lost, round, settings, number);
    } else if behind < 32 {
        assert(!lost.contains(number));
        law_kept_until_acknowledged(started, acks, lost, round, settings, number);
        assert(owed_as(
            started.acked(acks).recovered(lost, round, settings),
            started.reliable[number],
            number,
        ));
    }
}

/// A packet that is too large, too short for a header, or cannot be understood changes nothing about
/// the game, and nothing is sent on account of it. What is wrong with it is reported, in this order.
///
/// Unless it is too large, a packet from a client shows that the client is still there.
pub proof fn law_bad_packets_change_nothing<K, B, L, S, E>(
    server: &mut Server,
    address: Address,
    bytes: &[u8],
    contents: Option<ClientPacket>,
    now: Instant,
    rules: Rules<K, B, L, S, E>,
    outcome: Received,
) where
    K: Fn(Point, GameSettings) -> Point,
    B: Fn(Point, GameSettings) -> Ball,
    L: Fn(u32) -> Color,
    S: Fn(Duration) -> Real,
    E: Fn(Real, Real) -> Real,

    requires
        call_ensures(
            Server::on_recv::<K, B, L, S, E>,
            (server, address, bytes, contents, now, &rules),
            outcome,
        ),
        bytes@.len() > 4096 || bytes@.len() < 12 || contents is None,
    ensures
        final(server).played() == old(server).played(),
        final(server).net().queue == old(server).net().queue,
        final(server).net().clients.dom() == old(server).net().clients.dom(),
        !outcome.waiting,
        bytes@.len() > 4096 ==> {
            &&& outcome.result == Err::<(), RecvError>(
                RecvError::PacketTooLarge(bytes@.len() as usize),
            )
            &&& outcome.watch == Watch::Leave
            &&& final(server).net() == old(server).net()
        },
        bytes@.len() < 12 ==> {
            &&& outcome.result == Err::<(), RecvError>(RecvError::HeaderRead)
            &&& final(server).net() == old(server).net()
        },
        12 <= bytes@.len() <= 4096 ==> outcome.result == Err::<(), RecvError>(
            RecvError::Deserialize,
        ),
        forall|a: Address| #[trigger]
            old(server).net().clients.contains_key(a) ==> {
                let before = old(server).net().clients[a];
                let after = final(server).net().clients[a];
                &&& after.player == before.player
                &&& after.last_input == before.last_input
                &&& after.reliable == before.reliable
                &&& after.rtt == before.rtt
                &&& after.connection.local_sequence == before.connection.local_sequence
            },
        bytes@.len() <= 4096 ==> outcome.watch == (if old(server).net().clients.contains_key(
            address,
        ) {
            Watch::Restart
        } else {
            Watch::Leave
        }),
{
    if 12 <= bytes@.len() <= 4096 && old(server).net().clients.contains_key(address) {
        assert(final(server).net().clients.dom() =~= old(server).net().clients.dom());
    }
}

/// A packet of the right size that can be understood is accepted. From a client, it shows that the
/// client is still there.
pub proof fn law_good_packets_are_accepted<K, B, L, S, E>(
    server: &mut Server,
    address: Address,
    bytes: &[u8],
    contents: ClientPacket,
    now: Instant,
    rules: Rules<K, B, L, S, E>,
    outcome: Received,
) where
    K: Fn(Point, GameSettings) -> Point,
    B: Fn(Point, GameSettings) -> Ball,
    L: Fn(u32) -> Color,
    S: Fn(Duration) -> Real,
    E: Fn(Real, Real) -> Real,

    requires
        call_ensures(
            Server::on_recv::<K, B, L, S, E>,
            (server, address, bytes, Some(contents), now, &rules),
            outcome,
        ),
        12 <= bytes@.len() <= 4096,
    ensures
        outcome.result is Ok,
        old(server).net().clients.contains_key(address) ==> outcome.watch == Watch::Restart,
{
}

/// Of an address that is not that of a client, anything but a handshake is ignored.
pub proof fn law_strangers_are_ignored<K, B, L, S, E>(
    server: &mut Server,
    address: Address,
    bytes: &[u8],
    contents: ClientPacket,
    now: Instant,
    rules: Rules<K, B, L, S, E>,
    outcome: Received,
) where
    K: Fn(Point, GameSettings) -> Point,
    B: Fn(Point, GameSettings) -> Ball,
    L: Fn(u32) -> Color,
    S: Fn(Duration) -> Real,
    E: Fn(Real, Real) -> Real,

    requires
        call_ensures(
            Server::on_recv::<K, B, L, S, E>,
            (server, address, bytes, Some(contents), now, &rules),
            outcome,
        ),
        old(server).wf(),
        old(server).ready(),
        !old(server).net().clients.contains_key(address),
        contents !is Handshake,
    ensures
        final(server).played() == old(server).played(),
        final(server).net() == old(server).net(),
        outcome.watch == Watch::Leave,
        !outcome.waiting,
{
}

/// The handshake of a new client lets a player of its own join the game: under an id that nobody has,
/// alive at its cursor within bounds. All other clients are told of the player, and the new one is
/// told all about the game as it is then, last of all.
pub proof fn law_handshake_lets_a_player_join<K, B, L, S, E>(
    server: &mut Server,
    address: Address,
    bytes: &[u8],
    cursor: Point,
    now: Instant,
    rules: Rules<K, B, L, S, E>,
    outcome: Received,
) where
    K: Fn(Point, GameSettings) -> Point,
    B: Fn(Point, GameSettings) -> Ball,
    L: Fn(u32) -> Color,
    S: Fn(Duration) -> Real,
    E: Fn(Real, Real) -> Real,

    requires
        call_ensures(
            Server::on_recv::<K, B, L, S, E>,
            (server, address, bytes, Some(ClientPacket::Handshake { cursor }), now, &rules),
            outcome,
        ),
        old(server).wf(),
        old(server).ready(),
        !old(server).net().clients.contains_key(address),
        12 <= bytes@.len() <= 4096,
    ensures
        outcome.result is Ok,
        outcome.watch == Watch::Start,
        outcome.waiting,
        final(server).net().clients.dom() == old(server).net().clients.dom().insert(address),
        ({
            let id = final(server).net().clients[address].player;
            let game = final(server).played();
            let last = final(server).net().queue.last();
            &&& !old(server).played().players@.contains_key(id)
            &&& game.players@.contains_key(id)
            &&& game.players@.remove(id) == old(server).played().players@
            &&& game.settings == old(server).played().settings
            &&& exists|clamped: Point| #[trigger]
                call_ensures(rules.clamp, (cursor, old(server).played().settings), clamped)
                    && game.players@[id].state.cursor == Some(clamped) && call_ensures(
                    rules.start,
                    (clamped, old(server).played().settings),
                    game.players@[id].state.ball,
                )
            &&& final(server).net().clients[address].last_input == 0
            &&& final(server).net().clients[address].rtt.pinged() is None
            &&& final(server).net().clients[address].rtt.estimate() is None
            &&& final(server).net().clients[address].connection.local_sequence == 1
            &&& final(server).net().clients[address].connection.acks.has(number_at(bytes@, 0))
            &&& final(server).net().clients[address].reliable == map![0u32 => last.1.packet]
            &&& final(server).net().queue.len() > 0
            &&& last.0 == address
            &&& last.1.packet is Handshake
            &&& last.1.packet->id == id
            &&& last.1.packet->settings == game.settings
            &&& last.1.packet->round == game.round
            &&& last.1.packet->round_duration == game.round_duration
            &&& forall|other: PlayerId| #[trigger]
                game.players@.contains_key(other) <==> last.1.packet->players@.contains_key(other)
            &&& forall|other: PlayerId| #[trigger]
                game.players@.contains_key(other) ==> last.1.packet->players@[other]
                    == game.players@[other].static_state
                    && last.1.packet->snapshot.players@.contains_key(other)
                    && last.1.packet->snapshot.players@[other] == game.players@[other].state
            &&& forall|other: Address|
                old(server).net().clients.contains_key(other) && other != address
                    ==> #[trigger] packets_for(final(server).net().queue, other) == packets_for(
                    old(server).net().queue,
                    other,
                ) + arrived(
                    id,
                    game.players@[id],
                    old(server).played().round == RoundState::Lobby && old(
                        server,
                    ).played().players@.len() > 0,
                )
        }),
{
    let before = old(server).net();
    let after = final(server).net();
    let game = old(server).played();
    let after_game = final(server).played();
    let (blank, connection, sequence, acks) = choose|
        blank: Connection,
        connection: Connection,
        sequence: u32,
        acks: Acks,
    | #[trigger]
        crate::networking::connection::header_noted(blank, connection, bytes@, sequence, acks)
            && is_blank(blank) && entered(
            before,
            game,
            after,
            after_game,
            address,
            connection,
            cursor,
            rules,
        );
    assert(has_room(before.clients, 2)) by {
        assert forall|a: Address| #[trigger] before.clients.contains_key(
            a,
        ) implies before.clients[a].connection.local_sequence + 2 <= u32::MAX by {
            assert(before.clients[a].can_send(2));
        }
    }
    lemma_entered(before, game, after, after_game, address, connection, cursor, rules);
    lemma_header(bytes@);
    assert(after.clients[address].reliable =~= map![0u32 => after.queue.last().1.packet]);
}

/// What the others are told when a player has joined.
pub open spec fn arrived(id: PlayerId, player: Player, waiting: bool) -> Seq<ServerPacket> {
    let event = Event::NewPlayer { id, static_state: player.static_state };
    if waiting {
        seq![
            ServerPacket::Event(event),
            ServerPacket::Event(Event::RoundState(RoundState::Waiting)),
        ]
    } else {
        seq![ServerPacket::Event(event)]
    }
}

proof fn lemma_entered<K, B, L, S, E>(
    before: Net,
    game: Game,
    after: Net,
    after_game: Game,
    address: Address,
    connection: Connection,
    cursor: Point,
    rules: Rules<K, B, L, S, E>,
) where
    K: Fn(Point, GameSettings) -> Point,
    B: Fn(Point, GameSettings) -> Ball,
    L: Fn(u32) -> Color,
    S: Fn(Duration) -> Real,
    E: Fn(Real, Real) -> Real,

    requires
        entered(before, game, after, after_game, address, connection, cursor, rules),
        has_room(before.clients, 2),
        !before.clients.contains_key(address),
        game.orderly(),
    ensures
        after.clients.dom() == before.clients.dom().insert(address),
        after.clients[address].player == game.next_id,
        after.clients[address].last_input == 0,
        after.clients[address].rtt.pinged() is None,
        after.clients[address].rtt.estimate() is None,
        after.clients[address].connection.acks == connection.acks,
        after.clients[address].connection.local_sequence == (connection.local_sequence + 1) as u32,
        after.clients[address].reliable == Map::<u32, ServerPacket>::empty().insert(
            connection.local_sequence,
            after.queue.last().1.packet,
        ),
        !game.players@.contains_key(game.next_id),
        after_game.players@.contains_key(game.next_id),
        after_game.players@.remove(game.next_id) == game.players@,
        after_game.settings == game.settings,
        exists|clamped: Point| #[trigger]
            call_ensures(rules.clamp, (cursor, game.settings), clamped)
                && after_game.players@[game.next_id].state.cursor == Some(clamped) && call_ensures(
                rules.start,
                (clamped, game.settings),
                after_game.players@[game.next_id].state.ball,
            ),
        after.queue.len() > 0,
        after.queue.last().0 == address,
        welcomes(after.queue.last().1.packet, game.next_id, after_game),
        forall|other: Address|
            before.clients.contains_key(other) && other != address ==> #[trigger] packets_for(
                after.queue,
                other,
            ) == packets_for(before.queue, other) + arrived(
                game.next_id,
                after_game.players@[game.next_id],
                game.round == RoundState::Lobby && game.players@.len() > 0,
            ),
{
    let (clamped, events, middle) = choose|clamped: Point, events: Seq<Event>, middle: Net|
        call_ensures(rules.clamp, (cursor, game.settings), clamped) && #[trigger] joined(
            game,
            after_game,
            clamped,
            rules.start,
            rules.color,
            events,
        ) && before.told(middle, events) && #[trigger] welcomed(
            middle,
            after,
            address,
            connection,
            game.next_id,
            after_game,
        );
    let id = game.next_id;
    assert(call_ensures(rules.clamp, (cursor, game.settings), clamped));
    assert(after_game.players@.remove(id) =~= game.players@);
    assert(has_room(before.clients, events.len() as int));
    lemma_told(before, middle, events);
    let (client, packet) = choose|client: ClientView, packet: ServerPacket| #[trigger]
        is_fresh(client, id, connection) && #[trigger] welcomes(packet, id, after_game) && after
            == (Net { clients: middle.clients.insert(address, client), ..middle }).sent_to(
            address,
            packet,
        );
    let joined_net = Net { clients: middle.clients.insert(address, client), ..middle };
    lemma_sent_to(joined_net, after, address, packet);
    assert(after.clients.dom() =~= before.clients.dom().insert(address));
    let waiting = game.round == RoundState::Lobby && game.players@.len() > 0;
    assert forall|other: Address|
        before.clients.contains_key(other) && other != address implies #[trigger] packets_for(
        after.queue,
        other,
    ) == packets_for(before.queue, other) + arrived(id, after_game.players@[id], waiting) by {
        law_told_in_order(before, middle, events, other);
        assert(events.map_values(|event: Event| ServerPacket::Event(event)) =~= arrived(
            id,
            after_game.players@[id],
            waiting,
        ));
        assert(packets_for(after.queue, other) == packets_for(middle.queue, other));
    }
}

/// Whether the next tick after one at `now` is due when it should be: one interval after the last
/// one was, or one interval from now if that was more than an interval away.
pub open spec fn due_next(due: int, now: Instant, delay: Duration, rate: int) -> bool {
    now.nanos + delay.nanos == (if due - rate <= now.nanos <= due + rate {
        due + rate
    } else {
        now.nanos + rate
    })
}

proof fn lemma_broadcast_packets(
    before: Net,
    after: Net,
    packet: ServerPacket,
    except: Option<Address>,
)
    requires
        before.broadcast(after, packet, except),
    ensures
        after.clients.dom() == before.clients.dom(),
        forall|address: Address|
            #![trigger packets_for(after.queue, address)]
            packets_for(after.queue, address) == packets_for(before.queue, address) + (
            if addressed(before.clients, except, address) {
                seq![packet]
            } else {
                Seq::empty()
            }),
{
    let order = choose|order: Seq<Address>| #[trigger]
        before.broadcast_in_order(after, packet, except, order);
    assert forall|address: Address|
        #![trigger packets_for(after.queue, address)]
        packets_for(after.queue, address) == packets_for(before.queue, address) + (if addressed(
            before.clients,
            except,
            address,
        ) {
            seq![packet]
        } else {
            Seq::empty()
        }) by {
        lemma_packets_for_broadcast(before.clients, order, packet, address);
        lemma_packets_for_add(
            before.queue,
            Seq::new(order.len(), |i: int| (order[i], before.clients[order[i]].frame(packet))),
            address,
        );
        assert(order.contains(address) <==> addressed(before.clients, except, address));
    }
}

/// Every 30 ms, a snapshot of all players as they are is sent to every client, once. Nothing else
/// happens.
pub proof fn law_snapshots_go_to_everybody<G, M, C, W, T>(
    server: &mut Server,
    now: Instant,
    timing: G,
    physics: Physics<M, C, W, T>,
    result: (Option<(Duration, TimeoutState)>, bool),
) where
    G: Fn(Real, Duration) -> (Real, Vec<Real>),
    M: Fn(PlayerState, GameSettings, Real) -> Ball,
    C: Fn(Ball, Ball, GameSettings) -> Option<(Ball, Ball)>,
    W: Fn(Ball, GameSettings) -> Option<Ball>,
    T: Fn(Point, Ball, GameSettings) -> bool,

    requires
        call_ensures(
            Server::on_timeout::<G, M, C, W, T>,
            (server, TimeoutState::SendSnapshot, now, &timing, &physics),
            result,
        ),
        old(server).wf(),
        old(server).ready(),
    ensures
        final(server).played() == old(server).played(),
        final(server).net().clients.dom() == old(server).net().clients.dom(),
        exists|snapshot: Snapshot| #[trigger]
            shows_all(snapshot, old(server).played()) && forall|address: Address|
                old(server).net().clients.contains_key(address) ==> #[trigger] packets_for(
                    final(server).net().queue,
                    address,
                ) == packets_for(old(server).net().queue, address).push(
                    ServerPacket::Event(Event::Snapshot(snapshot)),
                ),
        forall|address: Address| #[trigger]
            old(server).net().clients.contains_key(address)
                ==> final(server).net().clients[address].reliable == old(
                server,
            ).net().clients[address].reliable,
        result.0 is Some,
        (result.0->0).1 == TimeoutState::SendSnapshot,
        due_next(
            old(server).snapshots().due().nanos as int,
            now,
            (result.0->0).0,
            30_000_000,
        ),
        final(server).snapshots().due().nanos == now.nanos + (result.0->0).0.nanos,
        final(server).ticks() == old(server).ticks(),
        final(server).pings() == old(server).pings(),
        result.1 <==> old(server).net().clients.len() > 0,
{
    let before = old(server).net();
    let after = final(server).net();
    let game = old(server).played();
    let snapshot = choose|snapshot: Snapshot|
        snapshot.players@ == crate::game::server::states(game.players@)
            && #[trigger] before.broadcast(
            after,
            ServerPacket::Event(Event::Snapshot(snapshot)),
            None,
        );
    let packet = ServerPacket::Event(Event::Snapshot(snapshot));
    lemma_broadcast_packets(before, after, packet, None);
    assert(shows_all(snapshot, game));
    assert forall|address: Address|
        before.clients.contains_key(address) implies #[trigger] packets_for(
        after.queue,
        address,
    ) == packets_for(before.queue, address).push(packet) by {
        assert(packets_for(before.queue, address) + seq![packet] =~= packets_for(
            before.queue,
            address,
        ).push(packet));
    }
}

/// Whether a snapshot holds the state of every player of a game, and of nobody else.
pub open spec fn shows_all(snapshot: Snapshot, game: Game) -> bool {
    &&& forall|id: PlayerId| #[trigger]
        snapshot.players@.contains_key(id) <==> game.players@.contains_key(id)
    &&& forall|id: PlayerId| #[trigger]
        game.players@.contains_key(id) ==> snapshot.players@[id] == game.players@[id].state
}

/// Every 500 ms, a ping is sent to every client, and its sequence number and the time are remembered
/// for the answer. Nothing else happens.
pub proof fn law_pings_go_to_everybody<G, M, C, W, T>(
    server: &mut Server,
    now: Instant,
    timing: G,
    physics: Physics<M, C, W, T>,
    result: (Option<(Duration, TimeoutState)>, bool),
) where
    G: Fn(Real, Duration) -> (Real, Vec<Real>),
    M: Fn(PlayerState, GameSettings, Real) -> Ball,
    C: Fn(Ball, Ball, GameSettings) -> Option<(Ball, Ball)>,
    W: Fn(Ball, GameSettings) -> Option<Ball>,
    T: Fn(Point, Ball, GameSettings) -> bool,

    requires
        call_ensures(
            Server::on_timeout::<G, M, C, W, T>,
            (server, TimeoutState::Ping, now, &timing, &physics),
            result,
        ),
        old(server).wf(),
        old(server).ready(),
    ensures
        final(server).played() == old(server).played(),
        final(server).net().clients.dom() == old(server).net().clients.dom(),
        forall|address: Address|
            old(server).net().clients.contains_key(address) ==> #[trigger] packets_for(
                final(server).net().queue,
                address,
            ) == packets_for(old(server).net().queue, address).push(ServerPacket::Ping),
        forall|address: Address| #[trigger]
            old(server).net().clients.contains_key(address) ==> {
                let before = old(server).net().clients[address];
                let after = final(server).net().clients[address];
                &&& after.rtt.pinged() == Some((before.connection.local_sequence, now))
                &&& after.rtt.estimate() == before.rtt.estimate()
                &&& after.player == before.player
                &&& after.last_input == before.last_input
                &&& after.reliable == before.reliable
                &&& after.connection.local_sequence == before.connection.local_sequence + 1
            },
        forall|i: int|
            old(server).net().queue.len() <= i < final(server).net().queue.len()
                ==> headed(old(server).net().clients, #[trigger] final(server).net().queue[i]),
        result.0 is Some,
        (result.0->0).1 == TimeoutState::Ping,
        due_next(old(server).pings().due().nanos as int, now, (result.0->0).0, 500_000_000),
        final(server).pings().due().nanos == now.nanos + (result.0->0).0.nanos,
        final(server).snapshots() == old(server).snapshots(),
        final(server).ticks() == old(server).ticks(),
        result.1,
{
    assert(has_room(old(server).net().clients, 2)) by {
        assert forall|a: Address| #[trigger] old(server).net().clients.contains_key(
            a,
        ) implies old(server).net().clients[a].connection.local_sequence + 2 <= u32::MAX by {
            assert(old(server).net().clients[a].can_send(2));
        }
    }
    let before = old(server).net();
    let after = final(server).net();
    let middle = choose|middle: Net| #[trigger]
        before.broadcast(middle, ServerPacket::Ping, None) && {
            &&& after.queue == middle.queue
            &&& after.clients.dom() == before.clients.dom()
            &&& forall|address: Address| #[trigger]
                before.clients.contains_key(address) ==> {
                    let client = after.clients[address];
                    &&& client == (ClientView { rtt: client.rtt, ..middle.clients[address] })
                    &&& client.rtt.pinged() == Some(
                        (before.clients[address].connection.local_sequence, now),
                    )
                    &&& client.rtt.estimate() == before.clients[address].rtt.estimate()
                }
        };
    lemma_broadcast_packets(before, middle, ServerPacket::Ping, None);
    assert forall|address: Address|
        before.clients.contains_key(address) implies #[trigger] packets_for(
        after.queue,
        address,
    ) == packets_for(before.queue, address).push(ServerPacket::Ping) by {
        assert(packets_for(before.queue, address) + seq![ServerPacket::Ping] =~= packets_for(
            before.queue,
            address,
        ).push(ServerPacket::Ping));
    }
    let order = choose|order: Seq<Address>| #[trigger]
        before.broadcast_in_order(middle, ServerPacket::Ping, None, order);
    assert forall|i: int| before.queue.len() <= i < after.queue.len() implies headed(
        before.clients,
        #[trigger] after.queue[i],
    ) by {
        let to = order[i - before.queue.len()];
        assert(after.queue[i] == (to, before.clients[to].frame(ServerPacket::Ping)));
        lemma_headed(before.clients, after.queue[i], ServerPacket::Ping);
    }
}

/// Whether the header of a packet that is sent to a client next has the client's next sequence
/// number, and says which packets from the client have arrived.
pub open spec fn headed(clients: Map<Address, ClientView>, entry: (Address, FrameView)) -> bool {
    let connection = clients[entry.0].connection;
    &&& entry.1.header.len() == 12
    &&& number_at(entry.1.header, 0) == connection.local_sequence
    &&& number_at(entry.1.header, 4) == connection.acks.newest()
    &&& number_at(entry.1.header, 8) == connection.acks.field()
}

proof fn lemma_headed(
    clients: Map<Address, ClientView>,
    entry: (Address, FrameView),
    packet: ServerPacket,
)
    requires
        entry.1 == clients[entry.0].frame(packet),
    ensures
        headed(clients, entry),
{
    let connection = clients[entry.0].connection;
    law_header_round_trip(connection.local_sequence, connection.acks, Seq::empty());
    assert(entry.1.header + Seq::<u8>::empty() =~= entry.1.header);
    lemma_header(entry.1.header);
}

/// A client whose connection is lost is gone with its player, and all others stay and are told of it.
/// Nothing happens where there is no such client any more.
pub proof fn law_lost_clients_are_removed<G, M, C, W, T>(
    server: &mut Server,
    address: Address,
    now: Instant,
    timing: G,
    physics: Physics<M, C, W, T>,
    result: (Option<(Duration, TimeoutState)>, bool),
) where
    G: Fn(Real, Duration) -> (Real, Vec<Real>),
    M: Fn(PlayerState, GameSettings, Real) -> Ball,
    C: Fn(Ball, Ball, GameSettings) -> Option<(Ball, Ball)>,
    W: Fn(Ball, GameSettings) -> Option<Ball>,
    T: Fn(Point, Ball, GameSettings) -> bool,

    requires
        call_ensures(
            Server::on_timeout::<G, M, C, W, T>,
            (server, TimeoutState::LostConnection(address), now, &timing, &physics),
            result,
        ),
        old(server).wf(),
        old(server).ready(),
    ensures
        result.0 is None,
        !final(server).net().clients.contains_key(address),
        forall|other: Address|
            other != address ==> (#[trigger] final(server).net().clients.contains_key(other)
                <==> old(server).net().clients.contains_key(other)),
        !old(server).net().clients.contains_key(address) ==> final(server).net() == old(
            server,
        ).net() && final(server).played() == old(server).played(),
        old(server).net().clients.contains_key(address) ==> {
            let id = old(server).net().clients[address].player;
            &&& final(server).played().players@ == old(server).played().players@.remove(id)
            &&& forall|other: Address|
                old(server).net().clients.contains_key(other) && other != address
                    ==> #[trigger] packets_for(final(server).net().queue, other) == packets_for(
                    old(server).net().queue,
                    other,
                ) + gone(id, final(server).played().players@.len() < 2)
        },
        result.1 <==> old(server).net().clients.contains_key(address)
            && final(server).net().clients.len() > 0,
        final(server).snapshots() == old(server).snapshots(),
        final(server).ticks() == old(server).ticks(),
        final(server).pings() == old(server).pings(),
{
    assert(has_room(old(server).net().clients, 2)) by {
        assert forall|a: Address| #[trigger] old(server).net().clients.contains_key(
            a,
        ) implies old(server).net().clients[a].connection.local_sequence + 2 <= u32::MAX by {
            assert(old(server).net().clients[a].can_send(2));
        }
    }
    if old(server).net().clients.contains_key(address) {
        lemma_dropped(
            old(server).net(),
            old(server).played(),
            final(server).net(),
            final(server).played(),
            address,
        );
    }
}

/// Every 15 ms, the game is stepped forward by the time that has passed since the last time. Round
/// states take turns, and every client is told of every new one and of nothing else.
///
/// While a round runs and nothing touches anything, all balls go on by themselves.
pub proof fn law_game_ticks_by_the_clock<G, M, C, W, T>(
    server: &mut Server,
    dt: Duration,
    now: Instant,
    timing: G,
    physics: Physics<M, C, W, T>,
    result: (Option<(Duration, TimeoutState)>, bool),
) where
    G: Fn(Real, Duration) -> (Real, Vec<Real>),
    M: Fn(PlayerState, GameSettings, Real) -> Ball,
    C: Fn(Ball, Ball, GameSettings) -> Option<(Ball, Ball)>,
    W: Fn(Ball, GameSettings) -> Option<Ball>,
    T: Fn(Point, Ball, GameSettings) -> bool,

    requires
        call_ensures(
            Server::on_timeout::<G, M, C, W, T>,
            (server, TimeoutState::Tick, now, &timing, &physics),
            result,
        ),
        old(server).wf(),
        old(server).ready(),
        dt.nanos == (if old(server).ticks().last().nanos <= now.nanos {
            now.nanos - old(server).ticks().last().nanos
        } else {
            0
        }),
    ensures
        final(server).net().clients.dom() == old(server).net().clients.dom(),
        exists|elapsed: Real, steps: Vec<Real>| #[trigger]
            call_ensures(
                timing,
                (
                    old(server).played().round_duration,
                    dt,
                ),
                (elapsed, steps),
            ) && turns_taken(old(server).played(), final(server).played(), elapsed) && (old(
                server,
            ).played().round == RoundState::Round && never_in_contact(physics.contact)
                && never_at_wall(physics.wall) && never_touched(physics.touch) ==> forall|
                id: PlayerId,
            | #[trigger]
                old(server).played().players@.contains_key(id) ==> {
                    let before = old(server).played().players@[id].state;
                    let after = final(server).played().players@[id].state;
                    &&& after.cursor == before.cursor
                    &&& exists|path: Seq<Ball>| #[trigger]
                        goes_along(
                            physics.motion,
                            before.cursor,
                            path,
                            old(server).played().settings,
                            steps@,
                        ) && path[0] == before.ball && path.last() == after.ball
                }),
        forall|address: Address|
            old(server).net().clients.contains_key(address) ==> #[trigger] packets_for(
                final(server).net().queue,
                address,
            ) == (if final(server).played().round == old(server).played().round {
                packets_for(old(server).net().queue, address)
            } else {
                packets_for(old(server).net().queue, address).push(
                    ServerPacket::Event(Event::RoundState(final(server).played().round)),
                )
            }),
        result.0 is Some,
        (result.0->0).1 == TimeoutState::Tick,
        due_next(old(server).ticks().due().nanos as int, now, (result.0->0).0, 15_000_000),
        final(server).ticks().due().nanos == now.nanos + (result.0->0).0.nanos,
        final(server).ticks().last() == now,
        final(server).snapshots() == old(server).snapshots(),
        final(server).pings() == old(server).pings(),
        result.1 <==> final(server).played().round != old(server).played().round && old(
            server,
        ).net().clients.len() > 0,
{
    assert(has_room(old(server).net().clients, 2)) by {
        assert forall|a: Address| #[trigger] old(server).net().clients.contains_key(
            a,
        ) implies old(server).net().clients[a].connection.local_sequence + 2 <= u32::MAX by {
            assert(old(server).net().clients[a].can_send(2));
        }
    }
    let game = old(server).played();
    let after_game = final(server).played();
    let before = old(server).net();
    let after = final(server).net();
    assert(dt == since_last(old(server).ticks(), now));
    let (elapsed, steps, round, events) = choose|
        elapsed: Real,
        steps: Vec<Real>,
        round: RoundState,
        events: Seq<Event>,
    |
        call_ensures(timing, (game.round_duration, dt), (elapsed, steps)) && enters(
            game,
            elapsed,
            round,
        ) && #[trigger] ticked(game, after_game, elapsed, round, steps@, physics, events)
            && before.told(after, events) && result.1 == (events.len() > 0 && before.clients.len()
            > 0);
    assert(call_ensures(timing, (game.round_duration, dt), (elapsed, steps)));
    lemma_turns_taken(game, after_game, elapsed, round, steps@, physics, events);
    if game.round == RoundState::Round && never_in_contact(physics.contact) && never_at_wall(
        physics.wall,
    ) && never_touched(physics.touch) {
        lemma_undisturbed_steps(physics, game.players@, after_game.players@, game.settings, steps@);
    }
    assert(has_room(before.clients, events.len() as int));
    lemma_told(before, after, events);
    assert forall|address: Address|
        before.clients.contains_key(address) implies #[trigger] packets_for(
        after.queue,
        address,
    ) == (if after_game.round == game.round {
        packets_for(before.queue, address)
    } else {
        packets_for(before.queue, address).push(
            ServerPacket::Event(Event::RoundState(after_game.round)),
        )
    }) by {
        law_told_in_order(before, after, events, address);
        let all = events.map_values(|event: Event| ServerPacket::Event(event));
        if after_game.round == game.round {
            assert(packets_for(before.queue, address) + all =~= packets_for(before.queue, address));
        } else {
            assert(packets_for(before.queue, address) + all =~= packets_for(
                before.queue,
                address,
            ).push(ServerPacket::Event(Event::RoundState(after_game.round))));
        }
    }
}

/// What is sent next is the first entry of the queue, and it stays there until it has been sent or
/// cannot be sent at all. Sending takes exactly one entry.
pub proof fn law_sent_in_order(server: &mut Server, outcome: SendOutcome, next: SendNext)
    requires
        call_ensures(Server::on_sent, (server, outcome), next),
        old(server).net().queue.len() > 0,
        outcome != SendOutcome::Failed,
    ensures
        final(server).played() == old(server).played(),
        final(server).net().clients == old(server).net().clients,
        !next.waiting,
        outcome == SendOutcome::WouldBlock ==> final(server).net().queue == old(
            server,
        ).net().queue && !next.again,
        outcome == SendOutcome::Sent ==> seq![old(server).net().queue[0]]
            + final(server).net().queue == old(server).net().queue && next.again,
{
    if outcome == SendOutcome::Sent {
        assert(seq![old(server).net().queue[0]] + final(server).net().queue =~= old(
            server,
        ).net().queue);
    }
}

/// A client that cannot be sent to is gone with its player, and all others are told. What could not
/// be sent is taken from the queue, and nothing else is.
pub proof fn law_failing_clients_are_removed(server: &mut Server, next: SendNext)
    requires
        call_ensures(Server::on_sent, (server, SendOutcome::Failed), next),
        old(server).wf(),
        old(server).ready(),
        old(server).net().queue.len() > 0,
    ensures
        next.again,
        next.waiting <==> old(server).net().clients.contains_key(old(server).net().queue[0].0)
            && final(server).net().clients.len() > 0,
        ({
            let address = old(server).net().queue[0].0;
            &&& !final(server).net().clients.contains_key(address)
            &&& forall|other: Address|
                other != address ==> (#[trigger] final(server).net().clients.contains_key(other)
                    <==> old(server).net().clients.contains_key(other))
            &&& final(server).net().queue.len() >= old(server).net().queue.len() - 1
            &&& final(server).net().queue.take(old(server).net().queue.len() - 1) == old(
                server,
            ).net().queue.drop_first()
            &&& old(server).net().clients.contains_key(address)
                ==> final(server).played().players@ == old(server).played().players@.remove(
                old(server).net().clients[address].player,
            )
            &&& !old(server).net().clients.contains_key(address) ==> final(server).played() == old(
                server,
            ).played()
        }),
{
    assert(has_room(old(server).net().clients, 2)) by {
        assert forall|a: Address| #[trigger] old(server).net().clients.contains_key(
            a,
        ) implies old(server).net().clients[a].connection.local_sequence + 2 <= u32::MAX by {
            assert(old(server).net().clients[a].can_send(2));
        }
    }
    let before = old(server).net();
    let after = final(server).net();
    let address = before.queue[0].0;
    let rest = Net { queue: before.queue.drop_first(), ..before };
    if before.clients.contains_key(address) {
        lemma_dropped(rest, old(server).played(), after, final(server).played(), address);
        assert(after.queue.take(before.queue.len() - 1) =~= rest.queue);
    } else {
        assert(after.queue.take(before.queue.len() - 1) =~= rest.queue);
    }
}

/// What is to be sent next is there exactly if the queue is not empty, and is its first entry.
pub proof fn law_next_is_first(server: Server, next: Option<(Address, &Frame)>)
    requires
        call_ensures(Server::next_to_send, (&server,), next),
    ensures
        next is Some <==> server.net().queue.len() > 0,
        next is Some ==> (next->0).0 == server.net().queue[0].0 && (next->0).1.header@
            == server.net().queue[0].1.header && *(next->0).1.packet
            == server.net().queue[0].1.packet,
{
}

/// A server starts with nobody there and nothing to send. Snapshots are due after 30 ms, the game is
/// stepped forward after 15 ms, and pings are due after 500 ms.
pub proof fn law_server_starts_empty(
    now: Instant,
    result: (Server, Vec<(Duration, TimeoutState)>),
    address: Address,
    known: bool,
)
    requires
        call_ensures(Server::new, (now,), result),
        call_ensures(Server::has_client, (&result.0, address), known),
    ensures
        !known,
        result.0.net().queue.len() == 0,
        result.0.played().round == RoundState::Lobby,
        forall|id: PlayerId| !#[trigger] result.0.played().players@.contains_key(id),
        result.1@ == seq![
            (Duration { nanos: 30_000_000 }, TimeoutState::SendSnapshot),
            (Duration { nanos: 15_000_000 }, TimeoutState::Tick),
            (Duration { nanos: 500_000_000 }, TimeoutState::Ping),
        ],
        result.0.snapshots().due().nanos == now.nanos + 30_000_000,
        result.0.ticks().due().nanos == now.nanos + 15_000_000,
        result.0.pings().due().nanos == now.nanos + 500_000_000,
        result.0.ticks().last() == now,
{
}

/// Telling nobody puts nothing into the queue.
proof fn lemma_told_nobody(before: Net, after: Net, events: Seq<Event>)
    requires
        before.told(after, events),
        before.clients.dom() == Set::<Address>::empty(),
    ensures
        after.queue == before.queue,
        after.clients.dom() == Set::<Address>::empty(),
    decreases events.len(),
{
    if events.len() > 0 {
        let packet = ServerPacket::Event(events.last());
        let middle = choose|middle: Net|
            before.told(middle, events.drop_last()) && #[trigger] middle.broadcast(
                after,
                packet,
                None,
            );
        lemma_told_nobody(before, middle, events.drop_last());
        let order = choose|order: Seq<Address>| #[trigger]
            middle.broadcast_in_order(after, packet, None, order);
        assert(order.len() == 0) by {
            if order.len() > 0 {
                assert(order.contains(order[0]));
                assert(middle.clients.dom().contains(order[0]));
            }
        }
        assert(after.queue =~= middle.queue);
    }
}

/// Whenever there is something new to send on account of a packet, the socket has to be watched for
/// becoming writable.
pub proof fn law_new_packets_are_waited_for<K, B, L, S, E>(
    server: &mut Server,
    address: Address,
    bytes: &[u8],
    contents: Option<ClientPacket>,
    now: Instant,
    rules: Rules<K, B, L, S, E>,
    outcome: Received,
) where
    K: Fn(Point, GameSettings) -> Point,
    B: Fn(Point, GameSettings) -> Ball,
    L: Fn(u32) -> Color,
    S: Fn(Duration) -> Real,
    E: Fn(Real, Real) -> Real,

    requires
        call_ensures(
            Server::on_recv::<K, B, L, S, E>,
            (server, address, bytes, contents, now, &rules),
            outcome,
        ),
        old(server).wf(),
        old(server).ready(),
        final(server).net().queue != old(server).net().queue,
    ensures
        outcome.waiting,
{
    let before = old(server).net();
    let after = final(server).net();
    let game = old(server).played();
    if before.clients.contains_key(address) && outcome.result is Ok {
        lemma_ready(*old(server), address);
        let (middle, sequence) = choose|middle: Net, sequence: u32| #[trigger]
            heard(before, middle, address, bytes@, sequence, game.round, game.settings) && acted(
                middle,
                game,
                after,
                final(server).played(),
                address,
                contents->0,
                sequence,
                now,
                rules,
            ) && outcome.waiting == (middle.queue.len() > before.queue.len() || contents->0 is Ping
                || contents->0 is Settings || contents->0 is Disconnect && after.clients.len() > 0);
        lemma_heard(before, middle, address, bytes@, sequence, game.round, game.settings);
        if middle.queue.len() == before.queue.len() {
            assert(middle.queue =~= before.queue);
            if contents->0 is Disconnect && after.clients.len() == 0 {
                let id = middle.clients[address].player;
                let rest = Net { clients: middle.clients.remove(address), ..middle };
                let events = choose|events: Seq<Event>| #[trigger]
                    left(game, final(server).played(), id, events) && rest.told(after, events);
                lemma_dropped(middle, game, after, final(server).played(), address);
                final(server).lemma_finitely_many_clients();
                assert(after.clients.dom() =~= Set::<Address>::empty());
                assert(rest.clients.dom() =~= after.clients.dom());
                lemma_told_nobody(rest, after, events);
            }
        }
    }
}

/// A packet from a client counts as arrived from then on, unless it is 32 or more behind the most
/// recent one.
pub proof fn law_received_packets_are_acknowledged<K, B, L, S, E>(
    server: &mut Server,
    address: Address,
    bytes: &[u8],
    input: Input,
    now: Instant,
    rules: Rules<K, B, L, S, E>,
    outcome: Received,
) where
    K: Fn(Point, GameSettings) -> Point,
    B: Fn(Point, GameSettings) -> Ball,
    L: Fn(u32) -> Color,
    S: Fn(Duration) -> Real,
    E: Fn(Real, Real) -> Real,

    requires
        call_ensures(
            Server::on_recv::<K, B, L, S, E>,
            (server, address, bytes, Some(ClientPacket::Input(input)), now, &rules),
            outcome,
        ),
        old(server).wf(),
        old(server).ready(),
        old(server).net().clients.contains_key(address),
        outcome.result is Ok,
    ensures
        final(server).net().clients[address].connection.acks.newest() >= number_at(bytes@, 0),
        final(server).net().clients[address].connection.acks.newest() < number_at(bytes@, 0) + 32
            ==> final(server).net().clients[address].connection.acks.has(number_at(bytes@, 0)),
{
    lemma_ready(*old(server), address);
    let before = old(server).net();
    let after = final(server).net();
    let game = old(server).played();
    let (middle, sequence) = choose|middle: Net, sequence: u32| #[trigger]
        heard(before, middle, address, bytes@, sequence, game.round, game.settings) && acted(
            middle,
            game,
            after,
            final(server).played(),
            address,
            ClientPacket::Input(input),
            sequence,
            now,
            rules,
        );
    lemma_heard(before, middle, address, bytes@, sequence, game.round, game.settings);
}

/// A server accepts new clients as long as there are ids left, and is ready as long as there are
/// sequence numbers left for every client: for all that is kept for it, and two more.
pub proof fn law_what_is_left(server: Server, accepting: bool, ready: bool)
    requires
        call_ensures(Server::is_accepting, (&server,), accepting),
        call_ensures(Server::is_ready, (&server,), ready),
    ensures
        accepting <==> server.played().next_id < 65535,
        ready <==> forall|address: Address| #[trigger]
            server.net().clients.contains_key(address)
                ==> server.net().clients[address].connection.local_sequence
                + server.net().clients[address].reliable.len() + 2 <= 0xffff_ffff,
{
}

} // verus!
