//! What packets, connections and clocks are for, said of the results of operations alone.

use std::collections::HashMap;
use vstd::prelude::*;

use crate::game::{
    Event, GameSettings, PlayerId, RoundState, Snapshot, StaticPlayerState,
};
use crate::networking::connection::{
    contents, header_of, law_header_round_trip, sequences, Acks, Connection, Sequences,
};
use crate::networking::packet::ServerPacket;
use crate::networking::server_laws::{lemma_header, number_at};
use crate::networking::tick::Interval;
use crate::networking::{RecvError, RttEstimator};
use crate::number::Real;
use crate::time::{Duration, Instant};

verus! {

/// Events of players who join and leave, and handshakes, have to arrive whatever has happened since:
/// they are sent again in every round state and with any settings.
pub proof fn law_players_are_always_told_of(
    id: PlayerId,
    static_state: StaticPlayerState,
    round: RoundState,
    settings: GameSettings,
    new_player: bool,
    remove_player: bool,
    new_again: bool,
    remove_again: bool,
)
    requires
        call_ensures(
            ServerPacket::reliable,
            (&ServerPacket::Event(Event::NewPlayer { id, static_state }),),
            new_player,
        ),
        call_ensures(
            ServerPacket::reliable,
            (&ServerPacket::Event(Event::RemovePlayer(id)),),
            remove_player,
        ),
        call_ensures(
            ServerPacket::resend,
            (&ServerPacket::Event(Event::NewPlayer { id, static_state }), round, &settings),
            new_again,
        ),
        call_ensures(
            ServerPacket::resend,
            (&ServerPacket::Event(Event::RemovePlayer(id)), round, &settings),
            remove_again,
        ),
    ensures
        new_player,
        remove_player,
        new_again,
        remove_again,
{
}

/// A handshake has to arrive whatever has happened since.
pub proof fn law_handshakes_have_to_arrive(
    packet: ServerPacket,
    round: RoundState,
    settings: GameSettings,
    reliable: bool,
    again: bool,
)
    requires
        packet is Handshake,
        call_ensures(ServerPacket::reliable, (&packet,), reliable),
        call_ensures(ServerPacket::resend, (&packet, round, &settings), again),
    ensures
        reliable,
        again,
{
}

/// The event of a round state has to arrive, but only for as long as it is the current one.
pub proof fn law_round_states_have_to_arrive_in_time(
    sent: RoundState,
    round: RoundState,
    settings: GameSettings,
    reliable: bool,
    again: bool,
)
    requires
        call_ensures(
            ServerPacket::reliable,
            (&ServerPacket::Event(Event::RoundState(sent)),),
            reliable,
        ),
        call_ensures(
            ServerPacket::resend,
            (&ServerPacket::Event(Event::RoundState(sent)), round, &settings),
            again,
        ),
    ensures
        reliable,
        again <==> sent == round,
{
}

/// Whether two bit patterns are those of the same number.
pub open spec fn same_number(a: Real, b: Real) -> bool {
    &&& a.bits % 0x8000_0000 <= 0x7f80_0000
    &&& b.bits % 0x8000_0000 <= 0x7f80_0000
    &&& a.bits == b.bits || a.bits % 0x8000_0000 == 0 && b.bits % 0x8000_0000 == 0
}

/// The event of new settings has to arrive, but only for as long as they are the current ones: all
/// quantities are the same numbers.
pub proof fn law_settings_have_to_arrive_in_time(
    sent: GameSettings,
    round: RoundState,
    settings: GameSettings,
    reliable: bool,
    again: bool,
)
    requires
        call_ensures(
            ServerPacket::reliable,
            (&ServerPacket::Event(Event::Settings(sent)),),
            reliable,
        ),
        call_ensures(
            ServerPacket::resend,
            (&ServerPacket::Event(Event::Settings(sent)), round, &settings),
            again,
        ),
    ensures
        reliable,
        again <==> {
            &&& same_number(sent.ball_radius, settings.ball_radius)
            &&& same_number(sent.cursor_radius, settings.cursor_radius)
            &&& same_number(sent.spring_constant, settings.spring_constant)
            &&& same_number(sent.ball_start_distance, settings.ball_start_distance)
            &&& same_number(sent.ball_start_speed, settings.ball_start_speed)
            &&& same_number(sent.bounds_radius, settings.bounds_radius)
            &&& sent.kill_own_cursor == settings.kill_own_cursor
        },
{
}

/// Snapshots, pings and pongs need not arrive, and are never sent again.
pub proof fn law_frequent_packets_may_get_lost(
    packet: ServerPacket,
    round: RoundState,
    settings: GameSettings,
    reliable: bool,
    again: bool,
)
    requires
        packet is Ping || packet is Pong || packet is Event && packet->Event_0 is Snapshot,
        call_ensures(ServerPacket::reliable, (&packet,), reliable),
        call_ensures(ServerPacket::resend, (&packet, round, &settings), again),
    ensures
        !reliable,
        !again,
{
}

/// A set of acknowledgements holds the packets whose bits are set: the lowest one stands for the most
/// recent packet, and the next ones for those before it, one after the other.
pub proof fn law_acks_by_bits(acks: Acks, sequence: u32, present: bool)
    requires
        call_ensures(Acks::contains, (acks, sequence), present),
    ensures
        present <==> {
            let behind = acks.newest() - sequence;
            0 <= behind < 32 && (acks.field() >> (behind as u32)) & 1u32 == 1u32
        },
{
}

/// A packet that has been acknowledged is in the set, unless it is 32 or more behind the most recent
/// one. All others that are less than that behind stay as they were.
pub proof fn law_acknowledging(
    acks: &mut Acks,
    sequence: u32,
    other: u32,
    before: bool,
    after: bool,
)
    requires
        call_ensures(Acks::ack, (acks, sequence), ()),
        call_ensures(Acks::contains, (*old(acks), other), before),
        call_ensures(Acks::contains, (*final(acks), other), after),
    ensures
        sequence >= old(acks).newest() ==> final(acks).newest() == sequence,
        sequence <= old(acks).newest() ==> final(acks).newest() == old(acks).newest(),
        after <==> (other == sequence || before) && other + 32 > final(acks).newest(),
{
}

/// Two sets of acknowledgements combine to one that holds the packets of both, but for those that
/// are 32 or more behind the most recent one.
pub proof fn law_combining(
    acks: &mut Acks,
    new: Acks,
    lost: Sequences,
    other: u32,
    before: bool,
    added: bool,
    after: bool,
)
    requires
        call_ensures(Acks::combine, (acks, new), lost),
        call_ensures(Acks::contains, (*old(acks), other), before),
        call_ensures(Acks::contains, (new, other), added),
        call_ensures(Acks::contains, (*final(acks), other), after),
    ensures
        final(acks).newest() >= old(acks).newest(),
        final(acks).newest() >= new.newest(),
        final(acks).newest() == old(acks).newest() || final(acks).newest() == new.newest(),
        after <==> (before || added) && other + 32 > final(acks).newest(),
{
}

/// The packets that combining gives up on are those that had not arrived and are now 32 or more
/// behind, and were not before. Each is given up on once, the most recent one first.
pub proof fn law_giving_up(
    acks: &mut Acks,
    new: Acks,
    lost: Sequences,
    list: Vec<u32>,
    other: u32,
    before: bool,
)
    requires
        call_ensures(Acks::combine, (acks, new), lost),
        call_ensures(Sequences::into_vec, (lost,), list),
        call_ensures(Acks::contains, (*old(acks), other), before),
    ensures
        list@.contains(other) <==> !before && old(acks).newest() < other + 32 && other + 32
            <= new.newest(),
        forall|i: int, j: int| 0 <= i < j < list@.len() ==> list@[i] > list@[j],
{
}

/// Listing a set lists exactly its packets, the most recent one first.
pub proof fn law_listing_acks(acks: Acks, list: Vec<u32>, other: u32, present: bool)
    requires
        call_ensures(Acks::iter, (acks,), list),
        call_ensures(Acks::contains, (acks, other), present),
    ensures
        list@.contains(other) <==> present,
        forall|i: int, j: int| 0 <= i < j < list@.len() ==> list@[i] > list@[j],
{
}

/// Nothing has arrived at first, and no number has been used.
pub proof fn law_blank_connection(connection: Connection, other: u32, here: bool, there: bool)
    requires
        call_ensures(<Connection as Default>::default, (), connection),
        call_ensures(Acks::contains, (connection.acks, other), here),
        call_ensures(Acks::contains, (connection.remote_acks, other), there),
    ensures
        connection.local_sequence == 0,
        !here,
        !there,
{
    assert forall|index: u32| index < 32 implies (0u32 >> index) & 1u32 != 1u32 by {
        assert((0u32 >> index) & 1u32 != 1u32) by (bit_vector);
    }
}

/// A header is twelve bytes: the number of the packet, which grows by one from each packet to the
/// next, the most recent packet that has arrived, and the bits for those before it.
pub proof fn law_headers_are_numbered(
    connection: &mut Connection,
    packet: &mut Vec<u8>,
    sequence: u32,
)
    requires
        call_ensures(Connection::send_header, (connection, packet), sequence),
        old(connection).local_sequence < u32::MAX,
        old(packet)@.len() == 0,
    ensures
        sequence == old(connection).local_sequence,
        final(connection).local_sequence == sequence + 1,
        final(connection).acks == old(connection).acks,
        final(connection).remote_acks == old(connection).remote_acks,
        final(packet)@.len() == 12,
        number_at(final(packet)@, 0) == sequence,
        number_at(final(packet)@, 4) == old(connection).acks.newest(),
        number_at(final(packet)@, 8) == old(connection).acks.field(),
{
    law_header_round_trip(sequence, old(connection).acks, Seq::empty());
    assert(old(packet)@ =~= Seq::<u8>::empty());
    let header = final(packet)@;
    assert(header =~= crate::networking::connection::header_bytes(sequence, old(connection).acks)
        + Seq::<u8>::empty());
    lemma_header(header);
}

/// A packet that is received counts as arrived from then on, unless it is 32 or more behind the most
/// recent one, and what its header says has arrived on the other side is known from then on. A packet
/// that is too short for a header changes nothing.
pub proof fn law_received_counts_as_arrived(
    connection: &mut Connection,
    packet: &[u8],
    result: Result<(u32, Acks), RecvError>,
    other: u32,
    before: bool,
    after: bool,
)
    requires
        call_ensures(Connection::note_header, (connection, packet), result),
        call_ensures(Acks::contains, (old(connection).acks, other), before),
        call_ensures(Acks::contains, (final(connection).acks, other), after),
    ensures
        packet@.len() < 12 ==> result == Err::<(u32, Acks), RecvError>(RecvError::HeaderRead)
            && *final(connection) == *old(connection),
        packet@.len() >= 12 ==> {
            &&& result is Ok
            &&& (result->Ok_0).0 == number_at(packet@, 0)
            &&& (result->Ok_0).1.newest() == number_at(packet@, 4)
            &&& (result->Ok_0).1.field() == number_at(packet@, 8)
            &&& final(connection).local_sequence == old(connection).local_sequence
            &&& after <==> (other == number_at(packet@, 0) || before) && other + 32
                > final(connection).acks.newest()
        },
{
    if packet@.len() >= 12 {
        lemma_header(packet@);
    }
}

/// What the header of a received packet says has arrived is known to have arrived from then on.
pub proof fn law_acknowledged_is_known(
    connection: &mut Connection,
    packet: &[u8],
    result: Result<(u32, Acks), RecvError>,
    other: u32,
    before: bool,
    said: bool,
    after: bool,
)
    requires
        call_ensures(Connection::note_header, (connection, packet), result),
        result is Ok,
        call_ensures(Acks::contains, (old(connection).remote_acks, other), before),
        call_ensures(Acks::contains, ((result->Ok_0).1, other), said),
        call_ensures(Acks::contains, (final(connection).remote_acks, other), after),
    ensures
        final(connection).remote_acks.newest() >= old(connection).remote_acks.newest(),
        after <==> (before || said) && other + 32 > final(connection).remote_acks.newest(),
{
}

/// A packet that arrives is known to have arrived as soon as the next packet comes back, as long as
/// neither side is 32 or more packets further on.
pub proof fn law_there_and_back(
    here: &mut Connection,
    there: &mut Connection,
    back: &mut Connection,
    home: &mut Connection,
    sent: &mut Vec<u8>,
    answer: &mut Vec<u8>,
    sent_bytes: &[u8],
    answer_bytes: &[u8],
    sequence: u32,
    number: u32,
    heard: Result<(u32, Acks), RecvError>,
    answered: Result<(u32, Acks), RecvError>,
    known: bool,
)
    requires
        call_ensures(Connection::send_header, (here, sent), sequence),
        call_ensures(Connection::note_header, (there, sent_bytes), heard),
        call_ensures(Connection::send_header, (back, answer), number),
        call_ensures(Connection::note_header, (home, answer_bytes), answered),
        call_ensures(Acks::contains, (final(home).remote_acks, sequence), known),
        old(sent)@.len() == 0,
        old(answer)@.len() == 0,
        sent_bytes@ == final(sent)@,
        answer_bytes@ == final(answer)@,
        *old(back) == *final(there),
        *old(home) == *final(here),
        old(there).acks.newest() < sequence + 32,
        old(home).remote_acks.newest() < sequence + 32,
    ensures
        known,
{
    let first = old(here).acks;
    let second = old(back).acks;
    law_header_round_trip(sequence, first, Seq::empty());
    law_header_round_trip(number, second, Seq::empty());
    assert(old(sent)@ =~= Seq::<u8>::empty());
    assert(old(answer)@ =~= Seq::<u8>::empty());
    assert(sent_bytes@ =~= crate::networking::connection::header_bytes(sequence, first)
        + Seq::<u8>::empty());
    assert(answer_bytes@ =~= crate::networking::connection::header_bytes(number, second)
        + Seq::<u8>::empty());
    assert(final(there).acks.has(sequence as int));
    let acks = (answered->Ok_0).1;
    assert(acks.newest() == second.newest() && acks.field() == second.field());
    assert(acks.has(sequence as int));
    assert(final(home).remote_acks.newest() < sequence + 32);
    assert(final(home).remote_acks.has(sequence as int));
}

/// What follows a header is everything but the first twelve bytes, and nothing if there are no more.
pub proof fn law_contents_follow_the_header(packet: &[u8], rest: &[u8])
    requires
        call_ensures(contents, (packet,), rest),
    ensures
        packet@.len() < 12 ==> rest@.len() == 0,
        packet@.len() >= 12 ==> rest@.len() == packet@.len() - 12 && forall|i: int|
            0 <= i < rest@.len() ==> #[trigger] rest@[i] == packet@[i + 12],
{
}

/// The packets that receiving one gives up on are those that have been sent or acknowledged, had not
/// arrived, and are now 32 or more behind the most recent one that has, and were not before.
pub proof fn law_lost_packets(
    connection: &mut Connection,
    packet: &[u8],
    result: Result<(u32, Acks, Sequences), RecvError>,
    list: Vec<u32>,
    other: u32,
    before: bool,
)
    requires
        call_ensures(Connection::recv_header, (connection, packet), result),
        packet@.len() >= 12,
        call_ensures(Sequences::into_vec, ((result->Ok_0).2,), list),
        call_ensures(Acks::contains, (old(connection).remote_acks, other), before),
    ensures
        result is Ok,
        (result->Ok_0).0 == number_at(packet@, 0),
        list@.contains(other) <==> {
            &&& !before
            &&& old(connection).remote_acks.newest() < other + 32
            &&& other + 32 <= number_at(packet@, 4)
            &&& other < old(connection).local_sequence || other
                <= old(connection).remote_acks.newest()
        },
        forall|i: int, j: int| 0 <= i < j < list@.len() ==> list@[i] > list@[j],
{
    lemma_header(packet@);
}

/// The contents of a packet are handed on exactly if there is a header and they could be understood;
/// what is wrong otherwise is said, in this order. A header counts even then.
pub proof fn law_decoding<P>(
    connection: &mut Connection,
    packet: &[u8],
    contents: Option<P>,
    result: Result<(P, u32, Acks, Sequences), RecvError>,
)
    requires
        call_ensures(Connection::decode::<P>, (connection, packet, contents), result),
    ensures
        result is Ok <==> packet@.len() >= 12 && contents is Some,
        result is Ok ==> (result->Ok_0).0 == contents->0 && (result->Ok_0).1 == number_at(
            packet@,
            0,
        ),
        packet@.len() < 12 ==> result->Err_0 == RecvError::HeaderRead && *final(connection) == *old(
            connection,
        ),
        packet@.len() >= 12 && contents is None ==> result->Err_0 == RecvError::Deserialize,
        packet@.len() >= 12 ==> {
            &&& final(connection).acks.newest() >= number_at(packet@, 0)
            &&& final(connection).local_sequence == old(connection).local_sequence
        },
{
    if packet@.len() >= 12 {
        lemma_header(packet@);
    }
}

/// A clock that is started ticks for the first time one interval later.
pub proof fn law_first_tick(interval: Duration, now: Instant, ticks: Interval, length: Duration)
    requires
        call_ensures(Interval::new, (interval, now), ticks),
        call_ensures(Interval::interval, (&ticks,), length),
    ensures
        length == interval,
        ticks.due().nanos == now.nanos + interval.nanos,
        ticks.last() == now,
{
}

/// A tick that is no more than one interval late or early does not move the ones after it: the next
/// one is due one interval after this one was. After one that is further off, the next one is due one
/// interval from then. Either way, the time since the last tick is reported.
pub proof fn law_ticks_keep_pace(
    ticks: &mut Interval,
    tick: Instant,
    result: (Duration, Duration),
    length: Duration,
)
    requires
        call_ensures(Interval::next, (ticks, tick), result),
        call_ensures(Interval::interval, (old(ticks),), length),
    ensures
        old(ticks).due().nanos - length.nanos <= tick.nanos <= old(ticks).due().nanos
            + length.nanos ==> tick.nanos + result.1.nanos == old(ticks).due().nanos
            + length.nanos,
        tick.nanos < old(ticks).due().nanos - length.nanos || tick.nanos > old(ticks).due().nanos
            + length.nanos ==> result.1 == length,
        final(ticks).due().nanos == tick.nanos + result.1.nanos,
        final(ticks).last() == tick,
        old(ticks).last().nanos <= tick.nanos ==> old(ticks).last().nanos + result.0.nanos
            == tick.nanos,
        tick.nanos <= old(ticks).last().nanos ==> result.0.nanos == 0,
{
}

/// The first answer to a ping makes a sample of the time since the ping was sent, and is the estimate
/// if there was none. Otherwise it is mixed into the one that there was.
pub proof fn law_round_trip_is_measured<S: Fn(Duration) -> Real, B: Fn(Real, Real) -> Real>(
    asked: &mut RttEstimator,
    answered: &mut RttEstimator,
    sequence: u32,
    sent: Instant,
    now: Instant,
    span: Duration,
    seconds: S,
    blend: B,
    before: Option<Real>,
    after: Option<Real>,
)
    requires
        call_ensures(RttEstimator::ping, (asked, sequence, sent), ()),
        call_ensures(
            RttEstimator::pong::<S, B>,
            (answered, sequence, now, &seconds, &blend),
            (),
        ),
        *old(answered) == *final(asked),
        call_ensures(RttEstimator::rtt, (old(asked),), before),
        call_ensures(RttEstimator::rtt, (final(answered),), after),
        sent.nanos <= now.nanos,
        span.nanos == now.nanos - sent.nanos,
    ensures
        after is Some,
        before is None ==> call_ensures(seconds, (span,), after->0),
        before is Some ==> exists|sample: Real| #[trigger]
            call_ensures(seconds, (span,), sample) && call_ensures(
                blend,
                (before->0, sample),
                after->0,
            ),
        final(answered).pinged() is None,
{
    assert(span == sent.until(now));
}

/// An answer to anything but the last ping changes nothing, and neither does a second answer.
pub proof fn law_other_answers_do_not_count<S: Fn(Duration) -> Real, B: Fn(Real, Real) -> Real>(
    estimator: &mut RttEstimator,
    sequence: u32,
    now: Instant,
    seconds: S,
    blend: B,
)
    requires
        call_ensures(
            RttEstimator::pong::<S, B>,
            (estimator, sequence, now, &seconds, &blend),
            (),
        ),
        old(estimator).pinged() is None || (old(estimator).pinged()->0).0 != sequence,
    ensures
        final(estimator).pinged() == old(estimator).pinged(),
        final(estimator).estimate() == old(estimator).estimate(),
{
}

/// How many packets can be lost by receiving one is limited by how far it moves on, and by how many
/// there are in the window and after it.
pub proof fn law_losses_are_limited(connection: Connection, packet: &[u8], limit: u32)
    requires
        call_ensures(Connection::loss_limit, (&connection, packet), limit),
    ensures
        packet@.len() < 12 ==> limit == 0,
        packet@.len() >= 12 && number_at(packet@, 4) <= connection.remote_acks.newest() ==> limit
            == 0,
        packet@.len() >= 12 && number_at(packet@, 4) > connection.remote_acks.newest() ==> {
            let moved = number_at(packet@, 4) - connection.remote_acks.newest();
            let most = if connection.local_sequence > connection.remote_acks.newest() {
                connection.local_sequence - connection.remote_acks.newest() + 31
            } else {
                32
            };
            limit == (if moved < most {
                moved
            } else {
                most
            })
        },
{
    if packet@.len() >= 12 {
        lemma_header(packet@);
    }
}

/// Nothing has been received yet by default.
pub proof fn law_nothing_arrived_at_first(acks: Acks, sequence: u32, present: bool)
    requires
        call_ensures(<Acks as Default>::default, (), acks),
        call_ensures(Acks::contains, (acks, sequence), present),
    ensures
        !present,
        acks.newest() == 0,
{
}

/// Nothing is known of the round trip time at first, and no answer counts before a ping was sent.
pub proof fn law_no_answers_at_first<S: Fn(Duration) -> Real, B: Fn(Real, Real) -> Real>(
    start: RttEstimator,
    first: Option<Real>,
    estimator: &mut RttEstimator,
    sequence: u32,
    now: Instant,
    seconds: S,
    blend: B,
    then: Option<Real>,
)
    requires
        call_ensures(<RttEstimator as Default>::default, (), start),
        call_ensures(RttEstimator::rtt, (&start,), first),
        *old(estimator) == start,
        call_ensures(
            RttEstimator::pong::<S, B>,
            (estimator, sequence, now, &seconds, &blend),
            (),
        ),
        call_ensures(RttEstimator::rtt, (final(estimator),), then),
    ensures
        first is None,
        then is None,
{
}

} // verus!
