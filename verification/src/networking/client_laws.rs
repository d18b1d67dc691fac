//! What a client does with packets and time, and what relays and their members do, said of the
//! results of their operations alone.

use vstd::prelude::*;

use crate::game::{Event, Input, PlayerId};
use crate::networking::client::{
    acted, counted, lemma_sent_times, Client, ClientState, ClientView, NetworkStats, Outgoing,
    Received, Shutdown, TimeoutState, TimeoutStep, Told,
};
use crate::networking::connection::{
    header_bytes, law_header_round_trip, law_lost_by_moving_on, received, Acks, Connection,
};
use crate::networking::packet::{ClientPacket, ServerPacket};
use crate::networking::relay::{
    applied, applied_in_order, Client as RelayClient, Dispatch, Member, Relay, ServerHandshake,
};
use crate::networking::server::Address;
use crate::networking::server_laws::{due_next, lemma_header, number_at};
use crate::networking::{Error, RecvError};
use crate::number::{Color, Point, Real};
use crate::prediction::{Input as RelayInput, Player};
use crate::time::{Duration, Instant};

verus! {

broadcast use vstd::std_specs::hash::group_hash_axioms;

proof fn lemma_header_of(header: Seq<u8>, sequence: u32, acks: Acks)
    requires
        header == header_bytes(sequence, acks),
    ensures
        header.len() == 12,
        number_at(header, 0) == sequence,
        number_at(header, 4) == acks.newest(),
        number_at(header, 8) == acks.field(),
{
    law_header_round_trip(sequence, acks, Seq::empty());
    assert(header + Seq::<u8>::empty() =~= header);
    lemma_header(header);
}

/// A client starts by sending one packet, the handshake with its cursor, under the number zero.
pub proof fn law_client_starts_with_handshake(cursor: Point, client: Client)
    requires
        call_ensures(Client::new, (cursor,), client),
    ensures
        client@.queue.len() == 1,
        client@.queue[0].packet == (ClientPacket::Handshake { cursor }),
        number_at(client@.queue[0].header, 0) == 0,
        client@.connection.local_sequence == 1,
        client@.state is Connecting,
        !client@.closing,
        client@.stats.bytes_in == 0 && client@.stats.bytes_out == 0,
        client@.stats.packets_sent == 0 && client@.stats.packets_lost == 0,
{
    lemma_header_of(client@.queue[0].header, 0, client@.connection.acks);
}

/// A packet that is sent goes to the end of the queue, with the next sequence number and with what
/// has arrived from the server in its header. Nothing else changes.
pub proof fn law_sent_packets_are_queued(client: &mut Client, packet: ClientPacket, sequence: u32)
    requires
        call_ensures(Client::send, (client, packet), sequence),
        old(client)@.connection.local_sequence < u32::MAX,
    ensures
        sequence == old(client)@.connection.local_sequence,
        final(client)@.connection.local_sequence == sequence + 1,
        final(client)@.queue.len() == old(client)@.queue.len() + 1,
        final(client)@.queue.drop_last() == old(client)@.queue,
        final(client)@.queue.last().packet == packet,
        number_at(final(client)@.queue.last().header, 0) == sequence,
        number_at(final(client)@.queue.last().header, 4) == old(client)@.connection.acks.newest(),
        number_at(final(client)@.queue.last().header, 8) == old(client)@.connection.acks.field(),
        final(client)@.state == old(client)@.state,
        final(client)@.stats == old(client)@.stats,
        final(client)@.closing == old(client)@.closing,
{
    assert(final(client)@.queue.drop_last() =~= old(client)@.queue);
    lemma_header_of(
        final(client)@.queue.last().header,
        sequence,
        old(client)@.connection.acks,
    );
}

/// Packets are taken from the queue in the order that they were sent in.
pub proof fn law_taken_in_order(client: &mut Client, next: Option<Outgoing>)
    requires
        call_ensures(Client::take_next, (client,), next),
    ensures
        next is None <==> old(client)@.queue.len() == 0,
        next is Some ==> seq![next->0@] + final(client)@.queue == old(client)@.queue,
        next is None ==> final(client)@.queue == old(client)@.queue,
        final(client)@.connection == old(client)@.connection,
        final(client)@.state == old(client)@.state,
        final(client)@.stats == old(client)@.stats,
        final(client)@.closing == old(client)@.closing,
{
    if next is Some {
        assert(seq![next->0@] + final(client)@.queue =~= old(client)@.queue);
    }
}

/// Shutting down gives up everything that was to be sent, and says goodbye eight times instead. It
/// tells whether the client was still connecting, and happens only once.
pub proof fn law_goodbye_is_said(client: &mut Client, reason: Option<Error>, shutdown: Shutdown)
    requires
        call_ensures(Client::start_shutdown, (client, reason), shutdown),
        old(client)@.has_numbers(),
    ensures
        final(client)@.closing,
        old(client)@.closing ==> shutdown == Shutdown::Already && final(client)@ == old(client)@,
        !old(client)@.closing ==> {
            &&& final(client)@.queue.len() == 8
            &&& forall|i: int|
                0 <= i < 8 ==> (#[trigger] final(client)@.queue[i]).packet
                    == ClientPacket::Disconnect
            &&& shutdown == (match old(client)@.state {
                ClientState::Connecting { .. } => Shutdown::FromConnecting(reason),
                ClientState::Connected { .. } => Shutdown::FromConnected(reason),
            })
            &&& final(client)@.state == old(client)@.state
        },
{
    lemma_sent_times(
        ClientView { queue: Seq::empty(), ..old(client)@ },
        ClientPacket::Disconnect,
        8,
    );
}

/// What a client that waits for its queue to empty is asked: it is waiting while there is anything to
/// be sent, and done when it is shutting down and there is nothing left.
pub proof fn law_done_when_all_is_sent(client: Client, closing: bool, waiting: bool, done: bool)
    requires
        call_ensures(Client::is_closing, (&client,), closing),
        call_ensures(Client::is_waiting, (&client,), waiting),
        call_ensures(Client::is_done, (&client,), done),
    ensures
        closing == client@.closing,
        waiting <==> client@.queue.len() > 0,
        done <==> closing && !waiting,
{
}

/// Every packet that is sent counts once, with its bytes.
pub proof fn law_sent_packets_count(client: &mut Client, bytes_written: usize)
    requires
        call_ensures(Client::count_sent, (client, bytes_written), ()),
        old(client)@.ready(),
        bytes_written <= 0x1_0000,
    ensures
        final(client)@.stats.packets_sent == old(client)@.stats.packets_sent + 1,
        final(client)@.stats.bytes_out == old(client)@.stats.bytes_out + bytes_written,
        final(client)@.stats.bytes_in == old(client)@.stats.bytes_in,
        final(client)@.stats.packets_lost == old(client)@.stats.packets_lost,
        final(client)@.queue == old(client)@.queue,
        final(client)@.state == old(client)@.state,
        final(client)@.connection == old(client)@.connection,
{
}

/// The handshake of the server completes a connection that is being made: the game starts as the
/// server has sent it, with the cursor that the client has sent.
pub proof fn law_handshake_completes_connection<
    S: Fn(Duration) -> Real,
    B: Fn(Real, Real) -> Real,
>(
    client: &mut Client,
    bytes: &[u8],
    packet: ServerPacket,
    now: Instant,
    seconds: S,
    blend: B,
    outcome: Received,
)
    requires
        call_ensures(
            Client::on_recv::<S, B>,
            (client, bytes, Some(packet), now, &seconds, &blend),
            outcome,
        ),
        packet is Handshake,
        12 <= bytes@.len() <= 4096,
        old(client)@.state is Connecting,
    ensures
        final(client)@.state is Connected,
        final(client)@.queue == old(client)@.queue,
        outcome.result is Ok,
        outcome.result->Ok_0 is Joined,
        !outcome.waiting,
        ({
            let game = outcome.result->Ok_0->Joined_0;
            let handle = outcome.result->Ok_0->Joined_1;
            &&& game.player_id == packet->id
            &&& game.settings == packet->settings
            &&& game.players@ == packet->players@
            &&& game.round == packet->round
            &&& game.round_duration == packet->round_duration
            &&& game.snapshots@ == seq![(packet->snapshot, now)]
            &&& game.last_round is None
            &&& handle.cursor == old(client)@.state->cursor
            &&& handle.settings.current() == packet->settings
            &&& !handle.settings.is_dirty()
        }),
        ({
            let state = final(client)@.state;
            &&& state->tick.due().nanos == now.nanos + 15_000_000
            &&& state->ping.due().nanos == now.nanos + 500_000_000
            &&& state->rtt.pinged() is None
            &&& state->rtt.estimate() is None
        }),
{
}

/// While connecting, anything but a handshake is ignored.
pub proof fn law_only_handshakes_while_connecting<
    S: Fn(Duration) -> Real,
    B: Fn(Real, Real) -> Real,
>(
    client: &mut Client,
    bytes: &[u8],
    packet: ServerPacket,
    now: Instant,
    seconds: S,
    blend: B,
    outcome: Received,
)
    requires
        call_ensures(
            Client::on_recv::<S, B>,
            (client, bytes, Some(packet), now, &seconds, &blend),
            outcome,
        ),
        packet !is Handshake,
        12 <= bytes@.len() <= 4096,
        old(client)@.state is Connecting,
    ensures
        outcome.result is Ok,
        outcome.result->Ok_0 is Nothing,
        final(client)@.state == old(client)@.state,
        final(client)@.queue == old(client)@.queue,
        !outcome.waiting,
{
}

/// When connected, every event of the server is passed on to the game, and nothing else happens.
pub proof fn law_events_are_passed_on<S: Fn(Duration) -> Real, B: Fn(Real, Real) -> Real>(
    client: &mut Client,
    bytes: &[u8],
    event: Event,
    now: Instant,
    seconds: S,
    blend: B,
    outcome: Received,
)
    requires
        call_ensures(
            Client::on_recv::<S, B>,
            (client, bytes, Some(ServerPacket::Event(event)), now, &seconds, &blend),
            outcome,
        ),
        12 <= bytes@.len() <= 4096,
        old(client)@.state is Connected,
    ensures
        outcome.result is Ok,
        outcome.result->Ok_0 == Told::Event(event),
        final(client)@.state == old(client)@.state,
        final(client)@.queue == old(client)@.queue,
        !outcome.waiting,
{
}

/// When connected, a ping is answered with its own sequence number, and the game is not told.
pub proof fn law_ping_is_answered<S: Fn(Duration) -> Real, B: Fn(Real, Real) -> Real>(
    client: &mut Client,
    bytes: &[u8],
    now: Instant,
    seconds: S,
    blend: B,
    outcome: Received,
)
    requires
        call_ensures(
            Client::on_recv::<S, B>,
            (client, bytes, Some(ServerPacket::Ping), now, &seconds, &blend),
            outcome,
        ),
        12 <= bytes@.len() <= 4096,
        old(client)@.state is Connected,
    ensures
        outcome.result is Ok,
        outcome.result->Ok_0 is Nothing,
        outcome.waiting,
        final(client)@.state == old(client)@.state,
        final(client)@.queue.len() == old(client)@.queue.len() + 1,
        final(client)@.queue.drop_last() == old(client)@.queue,
        final(client)@.queue.last().packet is Pong,
        final(client)@.queue.last().packet->Pong_0 == number_at(bytes@, 0),
{
    lemma_header(bytes@);
    assert(final(client)@.queue.drop_last() =~= old(client)@.queue);
}

/// When connected, a pong for the ping that is still open makes a sample of the time since it was
/// sent, and closes it. Any other pong is ignored.
pub proof fn law_pong_is_a_sample<S: Fn(Duration) -> Real, B: Fn(Real, Real) -> Real>(
    client: &mut Client,
    bytes: &[u8],
    answered: u32,
    now: Instant,
    span: Duration,
    seconds: S,
    blend: B,
    outcome: Received,
)
    requires
        call_ensures(
            Client::on_recv::<S, B>,
            (client, bytes, Some(ServerPacket::Pong(answered)), now, &seconds, &blend),
            outcome,
        ),
        12 <= bytes@.len() <= 4096,
        old(client)@.state is Connected,
    ensures
        outcome.result is Ok,
        outcome.result->Ok_0 is Nothing,
        !outcome.waiting,
        final(client)@.queue == old(client)@.queue,
        final(client)@.state is Connected,
        final(client)@.state->tick == old(client)@.state->tick,
        final(client)@.state->ping == old(client)@.state->ping,
        ({
            let before = old(client)@.state->rtt;
            let after = final(client)@.state->rtt;
            if before.pinged() is Some && (before.pinged()->0).0 == answered {
                &&& after.pinged() is None
                &&& after.estimate() is Some
                &&& before.estimate() is None && (before.pinged()->0).1.nanos + span.nanos
                    == now.nanos ==> call_ensures(seconds, (span,), after.estimate()->0)
            } else {
                after == before
            }
        }),
{
    let rtt = old(client)@.state->rtt;
    if rtt.pinged() is Some && (rtt.pinged()->0).1.nanos + span.nanos == now.nanos {
        assert(span == (rtt.pinged()->0).1.until(now));
    }
}

/// When connected, another handshake is ignored.
pub proof fn law_second_handshake_is_ignored<S: Fn(Duration) -> Real, B: Fn(Real, Real) -> Real>(
    client: &mut Client,
    bytes: &[u8],
    packet: ServerPacket,
    now: Instant,
    seconds: S,
    blend: B,
    outcome: Received,
)
    requires
        call_ensures(
            Client::on_recv::<S, B>,
            (client, bytes, Some(packet), now, &seconds, &blend),
            outcome,
        ),
        packet is Handshake,
        12 <= bytes@.len() <= 4096,
        old(client)@.state is Connected,
    ensures
        outcome.result is Ok,
        outcome.result->Ok_0 is Nothing,
        final(client)@.state == old(client)@.state,
        final(client)@.queue == old(client)@.queue,
        !outcome.waiting,
{
}

/// Whatever is received, its bytes count. A packet that is too large, too short for a header, or
/// cannot be understood is reported, in this order, and changes neither the state nor what is to be
/// sent.
pub proof fn law_bad_packets_change_nothing<S: Fn(Duration) -> Real, B: Fn(Real, Real) -> Real>(
    client: &mut Client,
    bytes: &[u8],
    contents: Option<ServerPacket>,
    now: Instant,
    seconds: S,
    blend: B,
    outcome: Received,
)
    requires
        call_ensures(
            Client::on_recv::<S, B>,
            (client, bytes, contents, now, &seconds, &blend),
            outcome,
        ),
        old(client)@.ready(),
        bytes@.len() <= 0x1_0000,
    ensures
        final(client)@.stats.bytes_in == old(client)@.stats.bytes_in + bytes@.len(),
        final(client)@.stats.bytes_out == old(client)@.stats.bytes_out,
        final(client)@.stats.packets_sent == old(client)@.stats.packets_sent,
        final(client)@.closing == old(client)@.closing,
        outcome.result is Err <==> bytes@.len() > 4096 || bytes@.len() < 12 || contents is None,
        outcome.result is Err ==> {
            &&& final(client)@.state == old(client)@.state
            &&& final(client)@.queue == old(client)@.queue
            &&& final(client)@.stats.packets_lost == old(client)@.stats.packets_lost
            &&& outcome.result->Err_0 == (if bytes@.len() > 4096 {
                RecvError::PacketTooLarge(bytes@.len() as usize)
            } else if bytes@.len() < 12 {
                RecvError::HeaderRead
            } else {
                RecvError::Deserialize
            })
        },
{
}

/// A packet that has been sent and has not arrived counts as lost as soon as a header shows that it is
/// now 32 or more behind the most recent one that has, and was not before. Nothing counts as lost by a
/// header with no news.
pub proof fn law_lost_packets_count<S: Fn(Duration) -> Real, B: Fn(Real, Real) -> Real>(
    client: &mut Client,
    bytes: &[u8],
    packet: ServerPacket,
    now: Instant,
    seconds: S,
    blend: B,
    outcome: Received,
    sequence: u32,
)
    requires
        call_ensures(
            Client::on_recv::<S, B>,
            (client, bytes, Some(packet), now, &seconds, &blend),
            outcome,
        ),
        12 <= bytes@.len() <= 4096,
        old(client)@.counts(bytes@),
    ensures
        number_at(bytes@, 4) <= old(client)@.connection.remote_acks.newest()
            ==> final(client)@.stats.packets_lost == old(client)@.stats.packets_lost,
        sequence < old(client)@.connection.local_sequence && old(
            client,
        )@.connection.remote_acks.newest() < sequence + 32 <= number_at(bytes@, 4) && !old(
            client,
        )@.connection.remote_acks.has(sequence as int) ==> final(client)@.stats.packets_lost > old(
            client,
        )@.stats.packets_lost,
{
    lemma_header(bytes@);
    let before = counted(old(client)@, bytes@.len() as int);
    let (connection, number, acks, lost) = choose|
        connection: Connection,
        number: u32,
        acks: Acks,
        lost: Seq<u32>,
    | #[trigger]
        received(before.connection, connection, bytes@, number, acks, lost) && acted(
            ClientView {
                connection,
                stats: NetworkStats {
                    packets_lost: (before.stats.packets_lost + lost.len()) as u16,
                    ..before.stats
                },
                ..before
            },
            final(client)@,
            packet,
            number,
            now,
            seconds,
            blend,
            outcome.result->Ok_0,
        );
    law_lost_by_moving_on(before.connection, connection, bytes@, number, acks, lost);
    if sequence < old(client)@.connection.local_sequence && old(
        client,
    )@.connection.remote_acks.newest() < sequence + 32 <= number_at(bytes@, 4) && !old(
        client,
    )@.connection.remote_acks.has(sequence as int) {
        assert(lost.contains(sequence));
    }
}

/// Every 15 ms, the latest input is sent.
pub proof fn law_input_is_sent(
    client: &mut Client,
    now: Instant,
    input: Input,
    step: TimeoutStep,
)
    requires
        call_ensures(Client::on_timeout, (client, TimeoutState::Tick, now, input), step),
        old(client)@.wf(),
        old(client)@.has_numbers(),
        old(client)@.state is Connected,
        !old(client)@.closing,
    ensures
        final(client)@.queue.len() == old(client)@.queue.len() + 1,
        final(client)@.queue.drop_last() == old(client)@.queue,
        final(client)@.queue.last().packet == ClientPacket::Input(input),
        number_at(final(client)@.queue.last().header, 0) == old(
            client,
        )@.connection.local_sequence,
        step is Again,
        due_next(
            old(client)@.state->tick.due().nanos as int,
            now,
            step->Again_0,
            15_000_000,
        ),
        final(client)@.state is Connected,
        final(client)@.state->rtt == old(client)@.state->rtt,
        final(client)@.state->ping == old(client)@.state->ping,
{
    assert(final(client)@.queue.drop_last() =~= old(client)@.queue);
    lemma_header_of(
        final(client)@.queue.last().header,
        old(client)@.connection.local_sequence,
        old(client)@.connection.acks,
    );
}

/// Every 500 ms, a ping is sent, and its sequence number and the time are remembered for the answer.
pub proof fn law_ping_is_sent(client: &mut Client, now: Instant, input: Input, step: TimeoutStep)
    requires
        call_ensures(Client::on_timeout, (client, TimeoutState::Ping, now, input), step),
        old(client)@.wf(),
        old(client)@.has_numbers(),
        old(client)@.state is Connected,
        !old(client)@.closing,
    ensures
        final(client)@.queue.len() == old(client)@.queue.len() + 1,
        final(client)@.queue.drop_last() == old(client)@.queue,
        final(client)@.queue.last().packet == ClientPacket::Ping,
        number_at(final(client)@.queue.last().header, 0) == old(
            client,
        )@.connection.local_sequence,
        final(client)@.state is Connected,
        final(client)@.state->rtt.pinged() == Some(
            (old(client)@.connection.local_sequence, now),
        ),
        final(client)@.state->rtt.estimate() == old(client)@.state->rtt.estimate(),
        final(client)@.state->tick == old(client)@.state->tick,
        step is Again,
        due_next(
            old(client)@.state->ping.due().nanos as int,
            now,
            step->Again_0,
            500_000_000,
        ),
{
    assert(final(client)@.queue.drop_last() =~= old(client)@.queue);
    lemma_header_of(
        final(client)@.queue.last().header,
        old(client)@.connection.local_sequence,
        old(client)@.connection.acks,
    );
}

/// Numbers are reported as they have been counted since the last report, with the estimated round
/// trip time if there is one, and counting starts again from nothing.
pub proof fn law_numbers_are_reported(
    client: &mut Client,
    now: Instant,
    input: Input,
    step: TimeoutStep,
)
    requires
        call_ensures(Client::on_timeout, (client, TimeoutState::UpdateStats, now, input), step),
        !old(client)@.closing,
    ensures
        step is Report,
        ({
            let counted = old(client)@.stats;
            let report = step->Report_0;
            &&& report.bytes_in == counted.bytes_in
            &&& report.bytes_out == counted.bytes_out
            &&& report.packets_sent == counted.packets_sent
            &&& report.packets_lost == counted.packets_lost
            &&& report.rtt == (if old(client)@.state is Connected && old(
                client,
            )@.state->rtt.estimate() is Some {
                old(client)@.state->rtt.estimate()->0
            } else {
                counted.rtt
            })
        }),
        final(client)@.stats.bytes_in == 0 && final(client)@.stats.bytes_out == 0,
        final(client)@.stats.packets_sent == 0 && final(client)@.stats.packets_lost == 0,
        final(client)@.stats.rtt.bits == 0,
        final(client)@.queue == old(client)@.queue,
        final(client)@.state == old(client)@.state,
        final(client)@.connection == old(client)@.connection,
{
}

/// A connection that is lost is shut down, because it has timed out.
pub proof fn law_lost_connection_is_closed(
    client: &mut Client,
    now: Instant,
    input: Input,
    step: TimeoutStep,
)
    requires
        call_ensures(
            Client::on_timeout,
            (client, TimeoutState::LostConnection, now, input),
            step,
        ),
        old(client)@.has_numbers(),
        !old(client)@.closing,
    ensures
        final(client)@.closing,
        final(client)@.queue.len() == 8,
        forall|i: int|
            0 <= i < 8 ==> (#[trigger] final(client)@.queue[i]).packet == ClientPacket::Disconnect,
        step is Close,
        step->Close_0 == (match old(client)@.state {
            ClientState::Connecting { .. } => Shutdown::FromConnecting(Some(Error::TimedOut)),
            ClientState::Connected { .. } => Shutdown::FromConnected(Some(Error::TimedOut)),
        }),
{
    lemma_sent_times(
        ClientView { queue: Seq::empty(), ..old(client)@ },
        ClientPacket::Disconnect,
        8,
    );
}

/// Nothing happens by the clock while a client is shutting down.
pub proof fn law_closing_clients_do_not_tick(
    client: &mut Client,
    timeout: TimeoutState,
    now: Instant,
    input: Input,
    step: TimeoutStep,
)
    requires
        call_ensures(Client::on_timeout, (client, timeout, now, input), step),
        old(client)@.closing,
    ensures
        step is Ignore,
        final(client)@ == old(client)@,
{
}

/// A packet from an unknown address registers a client with a new player of its own, who is at rest
/// in the middle. One from a known address is forwarded, and changes nothing.
pub proof fn law_unknown_clients_are_registered<L: Fn(u32) -> Color>(
    relay: &mut Relay,
    address: Address,
    color: L,
    dispatch: Dispatch,
)
    requires
        call_ensures(Relay::dispatch::<L>, (relay, address, &color), dispatch),
        old(relay).wf(),
    ensures
        final(relay).start == old(relay).start,
        old(relay).clients@.contains_key(address) ==> {
            &&& dispatch == Dispatch::Forward
            &&& final(relay).clients@ == old(relay).clients@
            &&& final(relay).game == old(relay).game
        },
        !old(relay).clients@.contains_key(address) ==> {
            let id = final(relay).clients@[address].player;
            let player = final(relay).game.players@[id];
            &&& dispatch == Dispatch::Register
            &&& final(relay).clients@.contains_key(address)
            &&& final(relay).clients@.remove(address) == old(relay).clients@
            &&& final(relay).clients@[address].input is None
            &&& final(relay).clients@[address].connection.local_sequence == 0
            &&& !old(relay).game.players@.contains_key(id)
            &&& final(relay).game.players@.contains_key(id)
            &&& final(relay).game.players@.remove(id) == old(relay).game.players@
            &&& player.position.x.bits == 0 && player.position.y.bits == 0
            &&& player.position_ball.x.bits == 0 && player.position_ball.y.bits == 0
            &&& player.velocity_ball.x.bits == 0 && player.velocity_ball.y.bits == 0
            &&& exists|hue: u32|
                hue < 0x100_0000 && #[trigger] call_ensures(color, (hue,), player.color)
        },
{
    if !old(relay).clients@.contains_key(address) {
        let id = final(relay).clients@[address].player;
        assert(final(relay).clients@.remove(address) =~= old(relay).clients@);
        assert(final(relay).game.players@.remove(id) =~= old(relay).game.players@);
    }
}

/// The handler of a new client adds a player who is at rest in the middle, and tells the client of
/// it, of all players as they are then, and of the time since the game was started.
pub proof fn law_handler_tells_all<L: Fn(u32) -> Color>(
    relay: &mut Relay,
    address: Address,
    now: Instant,
    color: L,
    handshake: ServerHandshake,
)
    requires
        call_ensures(Relay::handshake::<L>, (relay, address, now, &color), handshake),
        old(relay).wf(),
    ensures
        final(relay).clients@ == old(relay).clients@,
        final(relay).start == old(relay).start,
        !old(relay).game.players@.contains_key(handshake.id),
        final(relay).game.players@.contains_key(handshake.id),
        final(relay).game.players@.remove(handshake.id) == old(relay).game.players@,
        old(relay).start.nanos <= now.nanos ==> old(relay).start.nanos + handshake.elapsed.nanos
            == now.nanos,
        forall|id: PlayerId| #[trigger]
            final(relay).game.players@.contains_key(id) <==> handshake.players@.contains_key(id),
        forall|id: PlayerId| #[trigger]
            final(relay).game.players@.contains_key(id) ==> {
                let player = final(relay).game.players@[id];
                let shown = handshake.snapshot.players@[id];
                &&& handshake.players@[id].color == player.color
                &&& handshake.snapshot.players@.contains_key(id)
                &&& shown.position == player.position
                &&& shown.position_ball == player.position_ball
                &&& shown.velocity_ball == player.velocity_ball
            },
{
    assert(final(relay).game.players@.remove(handshake.id) =~= old(relay).game.players@);
}

/// The input of a client is kept as it was received last, and nobody else is affected. What cannot
/// be understood leaves it as it was.
pub proof fn law_latest_input_is_kept(
    relay: &mut Relay,
    address: Address,
    packet: &[u8],
    contents: Option<RelayInput>,
    result: Result<(), RecvError>,
)
    requires
        call_ensures(Relay::handle, (relay, address, packet, contents), result),
        old(relay).clients@.contains_key(address),
    ensures
        result is Ok <==> packet@.len() >= 12 && contents is Some,
        packet@.len() < 12 ==> result == Err::<(), RecvError>(RecvError::HeaderRead),
        packet@.len() >= 12 && contents is None ==> result == Err::<(), RecvError>(
            RecvError::Deserialize,
        ),
        final(relay).clients@[address].input == (if result is Ok {
            contents
        } else {
            old(relay).clients@[address].input
        }),
        final(relay).clients@[address].player == old(relay).clients@[address].player,
        final(relay).clients@.remove(address) == old(relay).clients@.remove(address),
        final(relay).game == old(relay).game,
{
    assert(final(relay).clients@.remove(address) =~= old(relay).clients@.remove(address));
}

proof fn lemma_applied(
    before: Map<PlayerId, Player>,
    after: Map<PlayerId, Player>,
    clients: Map<Address, RelayClient>,
    order: Seq<Address>,
)
    requires
        applied_in_order(before, after, clients, order),
        forall|i: int|
            0 <= i < order.len() ==> before.contains_key(clients[#[trigger] order[i]].player),
        forall|i: int, j: int|
            0 <= i < j < order.len() ==> clients[#[trigger] order[i]].player
                != clients[#[trigger] order[j]].player,
    ensures
        after.dom() == before.dom(),
        forall|i: int|
            0 <= i < order.len() ==> after[clients[#[trigger] order[i]].player] == (Player {
                position: match clients[order[i]].input {
                    Some(input) => input.position,
                    None => before[clients[order[i]].player].position,
                },
                ..before[clients[order[i]].player]
            }),
        forall|id: PlayerId| #[trigger]
            before.contains_key(id) && (forall|i: int|
                0 <= i < order.len() ==> clients[#[trigger] order[i]].player != id) ==> after[id]
                == before[id],
    decreases order.len(),
{
    if order.len() > 0 {
        let front = order.drop_last();
        let middle = choose|middle: Map<PlayerId, Player>|
            applied_in_order(before, middle, clients, front) && after == #[trigger] applied(
                middle,
                clients[order.last()],
            );
        assert forall|i: int| 0 <= i < front.len() implies before.contains_key(
            clients[#[trigger] front[i]].player,
        ) by {
            assert(front[i] == order[i]);
        }
        assert forall|i: int, j: int| 0 <= i < j < front.len() implies clients[
            #[trigger] front[i]].player != clients[#[trigger] front[j]].player by {
            assert(front[i] == order[i] && front[j] == order[j]);
        }
        lemma_applied(before, middle, clients, front);
        let last = clients[order.last()].player;
        assert(order[order.len() - 1] == order.last());
        assert(before.contains_key(last));
        assert forall|i: int| 0 <= i < front.len() implies clients[#[trigger] front[i]].player
            != last by {
            assert(front[i] == order[i]);
        }
        assert(middle[last] == before[last]);
        assert(after.dom() =~= before.dom());
        assert forall|i: int| 0 <= i < order.len() implies after[clients[
            #[trigger] order[i]].player] == (Player {
            position: match clients[order[i]].input {
                Some(input) => input.position,
                None => before[clients[order[i]].player].position,
            },
            ..before[clients[order[i]].player]
        }) by {
            if i < front.len() {
                assert(front[i] == order[i]);
            }
        }
        assert forall|id: PlayerId| #[trigger]
            before.contains_key(id) && (forall|i: int|
                0 <= i < order.len() ==> clients[#[trigger] order[i]].player
                    != id) implies after[id] == before[id] by {
            assert forall|i: int| 0 <= i < front.len() implies clients[
                #[trigger] front[i]].player != id by {
                assert(front[i] == order[i]);
            }
            assert(order[order.len() - 1] == order.last());
        }
    }
}

/// Applying the inputs moves the cursor of every player whose client has sent one there, and clears
/// the input. All else about the players stays, and so do players without a client.
///
/// Clients play players of their own.
pub proof fn law_inputs_are_applied_once(relay: &mut Relay)
    requires
        call_ensures(Relay::apply_inputs, (relay,), ()),
        old(relay).wf(),
        forall|a: Address, b: Address|
            #![trigger old(relay).clients@.contains_key(a), old(relay).clients@.contains_key(b)]
            old(relay).clients@.contains_key(a) && old(relay).clients@.contains_key(b) && a != b
                ==> old(relay).clients@[a].player != old(relay).clients@[b].player,
    ensures
        final(relay).clients@.dom() == old(relay).clients@.dom(),
        final(relay).game.players@.dom() == old(relay).game.players@.dom(),
        forall|address: Address| #[trigger]
            old(relay).clients@.contains_key(address) ==> {
                let client = old(relay).clients@[address];
                let before = old(relay).game.players@[client.player];
                let after = final(relay).game.players@[client.player];
                &&& final(relay).clients@[address].input is None
                &&& final(relay).clients@[address].player == client.player
                &&& final(relay).clients@[address].connection == client.connection
                &&& client.input is Some ==> after.position == client.input->0.position
                &&& client.input is None ==> after.position == before.position
                &&& after.position_ball == before.position_ball
                &&& after.velocity_ball == before.velocity_ball
                &&& after.color == before.color
            },
        forall|id: PlayerId| #[trigger]
            old(relay).game.players@.contains_key(id) && (forall|address: Address| #[trigger]
                old(relay).clients@.contains_key(address)
                    ==> old(relay).clients@[address].player != id)
                ==> final(relay).game.players@[id] == old(relay).game.players@[id],
{
    let clients = old(relay).clients@;
    let before = old(relay).game.players@;
    let after = final(relay).game.players@;
    let order = choose|order: Seq<Address>| #[trigger]
        applied_in_order(before, after, clients, order) && order.no_duplicates() && forall|
            address: Address,
        | #[trigger]
            order.contains(address) <==> clients.contains_key(address);
    assert forall|i: int| 0 <= i < order.len() implies before.contains_key(
        clients[#[trigger] order[i]].player,
    ) by {
        assert(order.contains(order[i]));
    }
    assert forall|i: int, j: int| 0 <= i < j < order.len() implies clients[
        #[trigger] order[i]].player != clients[#[trigger] order[j]].player by {
        assert(order.contains(order[i]) && order.contains(order[j]));
        assert(clients.contains_key(order[i]) && clients.contains_key(order[j]));
    }
    lemma_applied(before, after, clients, order);
    assert forall|address: Address| #[trigger] clients.contains_key(
        address,
    ) implies after[clients[address].player] == (Player {
        position: match clients[address].input {
            Some(input) => input.position,
            None => before[clients[address].player].position,
        },
        ..before[clients[address].player]
    }) by {
        assert(order.contains(address));
        let i = choose|i: int| 0 <= i < order.len() && order[i] == address;
        assert(order[i] == address);
    }
    assert forall|id: PlayerId| #[trigger]
        before.contains_key(id) && (forall|address: Address| #[trigger]
            clients.contains_key(address) ==> clients[address].player != id) implies after[id]
        == before[id] by {
        assert forall|i: int| 0 <= i < order.len() implies clients[#[trigger] order[i]].player
            != id by {
            assert(order.contains(order[i]));
        }
    }
}

/// What is for everybody is sent to every client exactly once, with its own next number in the
/// header and with what has arrived from it. Nothing else changes.
pub proof fn law_relay_sends_to_everybody(relay: &mut Relay, headers: Vec<(Address, Vec<u8>)>)
    requires
        call_ensures(Relay::broadcast, (relay,), headers),
        forall|address: Address| #[trigger]
            old(relay).clients@.contains_key(address)
                ==> old(relay).clients@[address].connection.local_sequence < u32::MAX,
    ensures
        final(relay).game == old(relay).game,
        final(relay).clients@.dom() == old(relay).clients@.dom(),
        forall|address: Address| #[trigger]
            old(relay).clients@.contains_key(address) ==> {
                let before = old(relay).clients@[address];
                let after = final(relay).clients@[address];
                &&& after.connection.local_sequence == before.connection.local_sequence + 1
                &&& after.connection.acks == before.connection.acks
                &&& after.connection.remote_acks == before.connection.remote_acks
                &&& after.player == before.player
                &&& after.input == before.input
                &&& exists|i: int| 0 <= i < headers@.len() && (#[trigger] headers@[i]).0 == address
            },
        forall|i: int, j: int|
            0 <= i < j < headers@.len() ==> (#[trigger] headers@[i]).0 != (
            #[trigger] headers@[j]).0,
        forall|i: int|
            0 <= i < headers@.len() ==> {
                let client = old(relay).clients@[(#[trigger] headers@[i]).0];
                &&& old(relay).clients@.contains_key(headers@[i].0)
                &&& headers@[i].1@.len() == 12
                &&& number_at(headers@[i].1@, 0) == client.connection.local_sequence
                &&& number_at(headers@[i].1@, 4) == client.connection.acks.newest()
                &&& number_at(headers@[i].1@, 8) == client.connection.acks.field()
            },
{
    let addresses = headers@.map_values(|entry: (Address, Vec<u8>)| entry.0);
    assert forall|address: Address| #[trigger] old(relay).clients@.contains_key(
        address,
    ) implies exists|i: int| 0 <= i < headers@.len() && (#[trigger] headers@[i]).0 == address by {
        assert(addresses.contains(address));
        let i = choose|i: int| 0 <= i < addresses.len() && addresses[i] == address;
        assert(headers@[i].0 == address);
    }
    assert forall|i: int, j: int| 0 <= i < j < headers@.len() implies (#[trigger] headers@[i]).0
        != (#[trigger] headers@[j]).0 by {
        assert(addresses[i] == headers@[i].0 && addresses[j] == headers@[j].0);
    }
    assert forall|i: int| 0 <= i < headers@.len() implies {
        let client = old(relay).clients@[(#[trigger] headers@[i]).0];
        &&& old(relay).clients@.contains_key(headers@[i].0)
        &&& headers@[i].1@.len() == 12
        &&& number_at(headers@[i].1@, 0) == client.connection.local_sequence
        &&& number_at(headers@[i].1@, 4) == client.connection.acks.newest()
        &&& number_at(headers@[i].1@, 8) == client.connection.acks.field()
    } by {
        let connection = old(relay).clients@[headers@[i].0].connection;
        assert(addresses[i] == headers@[i].0);
        assert(addresses.contains(headers@[i].0));
        lemma_header_of(headers@[i].1@, connection.local_sequence, connection.acks);
    }
}

/// A member starts with what the server has sent, and with the time that the game was started at as
/// the server counts it.
pub proof fn law_member_starts_as_told(handshake: ServerHandshake, now: Instant, member: Member)
    requires
        call_ensures(Member::join, (handshake, now), member),
        handshake.elapsed.nanos <= now.nanos,
    ensures
        member.start.nanos + handshake.elapsed.nanos == now.nanos,
        member.game.client_player == handshake.id,
        member.game.players@ == handshake.players@,
        member.game.snapshots.latest().snapshot.players@ == handshake.snapshot.players@,
        member.game.snapshots.latest().time == now,
        member.connection.local_sequence == 0,
{
}

/// A member reads what follows a header, and says what is wrong otherwise. Reading does not change
/// its game.
pub proof fn law_member_reads<P>(
    member: &mut Member,
    packet: &[u8],
    contents: Option<P>,
    result: Result<P, RecvError>,
)
    requires
        call_ensures(Member::read::<P>, (member, packet, contents), result),
    ensures
        result is Ok <==> packet@.len() >= 12 && contents is Some,
        result is Ok ==> result->Ok_0 == contents->0,
        packet@.len() < 12 ==> result->Err_0 == RecvError::HeaderRead && final(member).connection
            == old(member).connection,
        packet@.len() >= 12 && contents is None ==> result->Err_0 == RecvError::Deserialize,
        packet@.len() >= 12 ==> final(member).connection.acks.newest() >= number_at(packet@, 0),
        final(member).game == old(member).game,
        final(member).start == old(member).start,
{
    if packet@.len() >= 12 {
        lemma_header(packet@);
    }
}

/// A member writes its latest input, with the next number in the header.
pub proof fn law_member_writes(member: &mut Member, packet: (Vec<u8>, RelayInput))
    requires
        call_ensures(Member::write, (member,), packet),
        old(member).connection.local_sequence < u32::MAX,
    ensures
        packet.1 == old(member).game.input,
        packet.0@.len() == 12,
        number_at(packet.0@, 0) == old(member).connection.local_sequence,
        number_at(packet.0@, 4) == old(member).connection.acks.newest(),
        number_at(packet.0@, 8) == old(member).connection.acks.field(),
        final(member).connection.local_sequence == old(member).connection.local_sequence + 1,
        final(member).game == old(member).game,
{
    lemma_header_of(
        packet.0@,
        old(member).connection.local_sequence,
        old(member).connection.acks,
    );
}

/// A client is ready as long as 16 sequence numbers are left and its counts are far from full: 65536
/// bytes in each direction, and one packet. It can count the packets that a received one shows to be
/// lost unless there may be more than the count has room for.
pub proof fn law_room_for_more(
    client: Client,
    ready: bool,
    packet: &[u8],
    counts: bool,
    limit: u32,
)
    requires
        call_ensures(Client::is_ready, (&client,), ready),
        call_ensures(Client::can_count, (&client, packet), counts),
        call_ensures(Connection::loss_limit, (&client@.connection, packet), limit),
    ensures
        ready <==> client@.connection.local_sequence + 16 <= 0xffff_ffff
            && client@.stats.bytes_in + 0x1_0000 <= 0xffff_ffff
            && client@.stats.bytes_out + 0x1_0000 <= 0xffff_ffff
            && client@.stats.packets_sent + 1 <= 0xffff,
        counts <==> client@.stats.packets_lost + limit <= 0xffff,
{
}

/// Nothing has been counted at first.
pub proof fn law_counts_start_at_nothing(stats: NetworkStats)
    requires
        call_ensures(<NetworkStats as Default>::default, (), stats),
    ensures
        stats.rtt.bits == 0,
        stats.bytes_in == 0 && stats.bytes_out == 0,
        stats.packets_sent == 0 && stats.packets_lost == 0,
{
}

/// A relay starts at the time that it is told, with nobody connected and no players.
pub proof fn law_relay_starts_empty(now: Instant, relay: Relay)
    requires
        call_ensures(Relay::new, (now,), relay),
    ensures
        relay.start == now,
        relay.game.next_id == 0,
        forall|address: Address| !#[trigger] relay.clients@.contains_key(address),
        forall|id: PlayerId| !#[trigger] relay.game.players@.contains_key(id),
{
}

} // verus!
