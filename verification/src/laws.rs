//! What numbers, buffers and predictions are for, said of the results of operations alone.

use std::collections::HashMap;
use std::hash::Hash;
use vstd::prelude::*;
use vstd::std_specs::cmp::PartialEqSpec;

use crate::debug::{empty_history, shift, DebugState};
use crate::double_buffer::DoubleBuffer;
use crate::game::PlayerId;
use crate::keys::{keys, mapped};
use crate::number::{origin, Color, Point, Real, Vector};
use crate::prediction::{
    GameClient, GameServer, Input, InterpolatedSnapshot, Player, PlayerClient, PlayerSnapshot, Received,
    Snapshot,
};
use crate::time::{Duration, Instant};
use crate::ui::{enum_combo, first_equal};

verus! {

broadcast use vstd::std_specs::hash::group_hash_axioms;

/// Numbers that are not negative are in the order of their bit patterns, and greater is less with the
/// two swapped.
pub proof fn law_order_of_bits(a: Real, b: Real, less: bool, greater: bool)
    requires
        call_ensures(Real::less_than, (a, b), less),
        call_ensures(Real::greater_than, (a, b), greater),
        a.bits <= 0x7f80_0000,
        b.bits <= 0x7f80_0000,
    ensures
        less <==> a.bits < b.bits,
        greater <==> a.bits > b.bits,
{
}

/// Negating two numbers turns their order around.
pub proof fn law_negation_reverses(a: Real, b: Real, minus_a: Real, minus_b: Real, less: bool, reversed: bool)
    requires
        call_ensures(Real::less_than, (a, b), less),
        call_ensures(Real::less_than, (minus_b, minus_a), reversed),
        minus_a.bits == (a.bits + 0x8000_0000) % 0x1_0000_0000,
        minus_b.bits == (b.bits + 0x8000_0000) % 0x1_0000_0000,
    ensures
        less == reversed,
{
}

/// Negative numbers are less than those that are not, but the two zeros are not less than each other.
pub proof fn law_signs(a: Real, b: Real, less: bool, back: bool)
    requires
        call_ensures(Real::less_than, (a, b), less),
        call_ensures(Real::less_than, (b, a), back),
        0x8000_0000 <= a.bits <= 0xff80_0000,
        b.bits <= 0x7f80_0000,
    ensures
        !back,
        less <==> a.bits != 0x8000_0000 || b.bits != 0,
{
}

/// What is no number is neither less nor greater than anything, and equal to nothing.
pub proof fn law_no_number(a: Real, b: Real, nan: bool, less: bool, greater: bool, equal: bool)
    requires
        call_ensures(Real::is_nan, (a,), nan),
        call_ensures(Real::less_than, (a, b), less),
        call_ensures(Real::greater_than, (a, b), greater),
        call_ensures(<Real as PartialEq>::eq, (&a, &b), equal),
    ensures
        nan <==> 0x7f80_0000 < a.bits < 0x8000_0000 || a.bits > 0xff80_0000,
        nan ==> !less && !greater && !equal,
{
}

/// Two numbers are equal exactly if they have the same bit pattern or are both zero, and are numbers.
pub proof fn law_equal_numbers(a: Real, b: Real, equal: bool, back: bool)
    requires
        call_ensures(<Real as PartialEq>::eq, (&a, &b), equal),
        call_ensures(<Real as PartialEq>::eq, (&b, &a), back),
    ensures
        equal == back,
        equal <==> {
            &&& a.bits % 0x8000_0000 <= 0x7f80_0000
            &&& b.bits % 0x8000_0000 <= 0x7f80_0000
            &&& a.bits == b.bits || a.bits % 0x8000_0000 == 0 && b.bits % 0x8000_0000 == 0
        },
{
}

/// A number without its sign is not negative, and is the number or its negation.
pub proof fn law_without_sign(a: Real, result: Real)
    requires
        call_ensures(Real::abs, (a,), result),
    ensures
        result.bits < 0x8000_0000,
        a.bits == result.bits || a.bits == result.bits + 0x8000_0000,
{
}

/// Distances are measured from zero.
pub proof fn law_origin(point: Point)
    requires
        call_ensures(origin, (), point),
    ensures
        point.x.bits == 0 && point.y.bits == 0,
{
}

/// The time since an earlier moment is what has to be added to that; there is none since a later one.
pub proof fn law_time_passes(later: Instant, earlier: Instant, span: Duration, back: Duration)
    requires
        call_ensures(Instant::duration_since, (later, earlier), span),
        call_ensures(Instant::duration_since, (earlier, later), back),
        earlier.nanos <= later.nanos,
    ensures
        earlier.nanos + span.nanos == later.nanos,
        back.nanos == 0,
{
}

/// The keys of a map are listed exactly once each.
pub proof fn law_keys_listed_once<K: Copy + Eq + Hash, V>(map: HashMap<K, V>, list: Vec<K>)
    requires
        call_ensures(keys::<K, V>, (&map,), list),
    ensures
        forall|key: K| #[trigger] map@.contains_key(key) <==> list@.contains(key),
        forall|i: int, j: int| 0 <= i < j < list@.len() ==> list@[i] != list@[j],
        list@.len() == map@.len(),
{
}

/// A map whose values are computed from those of another has the same keys, each with what is
/// computed from its value.
pub proof fn law_values_computed<K: Copy + Eq + Hash, V, W, F: Fn(&V) -> W>(
    map: HashMap<K, V>,
    f: F,
    result: HashMap<K, W>,
)
    requires
        call_ensures(mapped::<K, V, W, F>, (&map, &f), result),
    ensures
        forall|key: K| #[trigger] result@.contains_key(key) <==> map@.contains_key(key),
        forall|key: K| #[trigger]
            map@.contains_key(key) ==> call_ensures(f, (&map@[key],), result@[key]),
{
}

/// What is inserted into a double buffer is got after swapping, and not before. What was got before
/// is then the older item, and swapping twice changes nothing.
pub proof fn law_swapped_in<T>(
    inserted: &mut DoubleBuffer<T>,
    swapped: &mut DoubleBuffer<T>,
    again: &mut DoubleBuffer<T>,
    item: T,
    before: &T,
    not_yet: &T,
    now: &T,
    older: &T,
    back: &T,
)
    requires
        call_ensures(DoubleBuffer::<T>::insert, (inserted, item), ()),
        call_ensures(DoubleBuffer::<T>::swap, (swapped,), ()),
        call_ensures(DoubleBuffer::<T>::swap, (again,), ()),
        *old(swapped) == *final(inserted),
        *old(again) == *final(swapped),
        call_ensures(DoubleBuffer::<T>::get, (old(inserted),), before),
        call_ensures(DoubleBuffer::<T>::get, (final(inserted),), not_yet),
        call_ensures(DoubleBuffer::<T>::get, (final(swapped),), now),
        call_ensures(DoubleBuffer::<T>::get_old, (final(swapped),), older),
        call_ensures(DoubleBuffer::<T>::get, (final(again),), back),
    ensures
        *not_yet == *before,
        *now == item,
        *older == *before,
        *back == *before,
{
}

/// A history of a given length holds nothing but zeros at first. One more value goes to its end, all
/// others move up by one, and the oldest one is gone.
pub proof fn law_histories_shift(
    length: usize,
    empty: Vec<Real>,
    history: &mut Vec<Real>,
    value: Real,
)
    requires
        call_ensures(empty_history, (length,), empty),
        call_ensures(shift, (history, value), ()),
        old(history)@.len() > 0,
    ensures
        empty@.len() == length,
        forall|i: int| 0 <= i < length ==> (#[trigger] empty@[i]).bits == 0,
        final(history)@.len() == old(history)@.len(),
        final(history)@.last() == value,
        forall|i: int|
            0 <= i < final(history)@.len() - 1 ==> #[trigger] final(history)@[i] == old(
                history,
            )@[i + 1],
{
}

/// The debug window starts without the overlay, with a delay of one and a half snapshots, and with 256
/// frame times that are zero.
pub proof fn law_debug_window_starts_quiet(state: DebugState, times: &Vec<Real>)
    requires
        call_ensures(<DebugState as Default>::default, (), state),
        call_ensures(DebugState::frame_times, (&state,), times),
    ensures
        !state.draw_latest_snapshot,
        state.interpolation_delay.bits == 0x3fc0_0000,
        times@.len() == 256,
        forall|i: int| 0 <= i < 256 ==> (#[trigger] times@[i]).bits == 0,
{
}

/// The frame time that was logged last is the last one that is shown, and all others move up.
pub proof fn law_frame_times_shift(
    state: &mut DebugState,
    frame_time: Real,
    before: &Vec<Real>,
    after: &Vec<Real>,
)
    requires
        call_ensures(DebugState::log_frame_time, (state, frame_time), ()),
        call_ensures(DebugState::frame_times, (old(state),), before),
        call_ensures(DebugState::frame_times, (final(state),), after),
        before@.len() > 0,
    ensures
        after@.len() == before@.len(),
        after@.last() == frame_time,
        forall|i: int| 0 <= i < after@.len() - 1 ==> #[trigger] after@[i] == before@[i + 1],
        final(state).draw_latest_snapshot == old(state).draw_latest_snapshot,
        final(state).interpolation_delay == old(state).interpolation_delay,
{
}

proof fn lemma_first_equal<T: PartialEq>(variants: Seq<T>, current: T)
    ensures
        0 <= first_equal(variants, current) <= variants.len(),
        first_equal(variants, current) < variants.len() ==> variants[first_equal(
            variants,
            current,
        )].eq_spec(&current),
        forall|i: int|
            0 <= i < first_equal(variants, current) ==> !(#[trigger] variants[i]).eq_spec(&current),
    decreases variants.len(),
{
    if variants.len() > 0 && !variants[0].eq_spec(&current) {
        let rest = variants.drop_first();
        lemma_first_equal(rest, current);
        assert forall|i: int|
            0 <= i < first_equal(variants, current) implies !(#[trigger] variants[i]).eq_spec(
            &current,
        ) by {
            if i > 0 {
                assert(rest[i - 1] == variants[i]);
            }
        }
    }
}

/// A widget that lets one of several variants be picked has the first variant selected that equals
/// the current one. If another one is picked that is the current one, and a change is reported;
/// otherwise nothing changes.
pub proof fn law_picked_variant_is_current<
    T: PartialEq + Eq + Copy,
    F: Fn(usize) -> Option<usize>,
>(current: &mut T, variants: &[T], combo: F, changed: bool, place: usize)
    requires
        call_ensures(enum_combo::<T, F>, (current, variants, combo), changed),
        place < variants@.len(),
        variants@[place as int].eq_spec(&*old(current)),
        forall|i: int| 0 <= i < place ==> !(#[trigger] variants@[i]).eq_spec(&*old(current)),
    ensures
        exists|picked: Option<usize>| #[trigger]
            call_ensures(combo, (place,), picked) && match picked {
                Some(other) => changed && *final(current) == variants@[other as int],
                None => !changed && *final(current) == *old(current),
            },
{
    lemma_first_equal(variants@, *old(current));
    let first = first_equal(variants@, *old(current));
    assert(first == place) by {
        if first < place {
            assert(!variants@[first].eq_spec(&*old(current)));
        }
    }
}

/// A state between two has every coordinate between those of the two, in this order.
pub proof fn law_state_on_its_way<F: Fn(Real, Real, Real) -> Real>(
    from: PlayerSnapshot,
    to: PlayerSnapshot,
    alpha: Real,
    lerp: F,
    result: PlayerSnapshot,
)
    requires
        call_ensures(PlayerSnapshot::lerp::<F>, (&from, &to, alpha, &lerp), result),
    ensures
        call_ensures(lerp, (from.position.x, to.position.x, alpha), result.position.x),
        call_ensures(lerp, (from.position.y, to.position.y, alpha), result.position.y),
        call_ensures(
            lerp,
            (from.position_ball.x, to.position_ball.x, alpha),
            result.position_ball.x,
        ),
        call_ensures(
            lerp,
            (from.position_ball.y, to.position_ball.y, alpha),
            result.position_ball.y,
        ),
        call_ensures(
            lerp,
            (from.velocity_ball.x, to.velocity_ball.x, alpha),
            result.velocity_ball.x,
        ),
        call_ensures(
            lerp,
            (from.velocity_ball.y, to.velocity_ball.y, alpha),
            result.velocity_ball.y,
        ),
{
}

/// Whether a state may be shown on the way from an older one to a newer one.
pub open spec fn on_the_way<F: Fn(Real, Real, Real) -> Real>(
    older: PlayerSnapshot,
    newer: PlayerSnapshot,
    alpha: Real,
    lerp: F,
    shown: PlayerSnapshot,
) -> bool {
    &&& call_ensures(lerp, (older.position.x, newer.position.x, alpha), shown.position.x)
    &&& call_ensures(lerp, (older.position.y, newer.position.y, alpha), shown.position.y)
    &&& call_ensures(
        lerp,
        (older.position_ball.x, newer.position_ball.x, alpha),
        shown.position_ball.x,
    )
    &&& call_ensures(
        lerp,
        (older.position_ball.y, newer.position_ball.y, alpha),
        shown.position_ball.y,
    )
    &&& call_ensures(
        lerp,
        (older.velocity_ball.x, newer.velocity_ball.x, alpha),
        shown.velocity_ball.x,
    )
    &&& call_ensures(
        lerp,
        (older.velocity_ball.y, newer.velocity_ball.y, alpha),
        shown.velocity_ball.y,
    )
}

/// The player of this client is shown as predicted. Everybody else is shown on the way from the older
/// snapshot to the latest one, or as in that if it is not in the older one.
pub proof fn law_own_player_is_predicted<F: Fn(Real, Real, Real) -> Real>(
    snapshot: InterpolatedSnapshot,
    id: PlayerId,
    lerp: F,
    player: Option<PlayerSnapshot>,
)
    requires
        call_ensures(InterpolatedSnapshot::player::<F>, (&snapshot, id, &lerp), player),
    ensures
        id == snapshot.client_player ==> player == Some(snapshot.client_snapshot),
        id != snapshot.client_player ==> {
            &&& player is Some <==> snapshot.latest.players@.contains_key(id)
            &&& player is Some && !snapshot.older.players@.contains_key(id) ==> player == Some(
                snapshot.latest.players@[id],
            )
            &&& player is Some && snapshot.older.players@.contains_key(id) ==> on_the_way(
                snapshot.older.players@[id],
                snapshot.latest.players@[id],
                snapshot.alpha,
                lerp,
                player->0,
            )
        },
{
}

/// A snapshot that is stored for longer holds the players of the latest one, each as it is shown.
pub proof fn law_stored_as_shown<F: Fn(Real, Real, Real) -> Real>(
    snapshot: InterpolatedSnapshot,
    lerp: F,
    stored: Snapshot,
)
    requires
        call_ensures(InterpolatedSnapshot::into_snapshot::<F>, (snapshot, &lerp), stored),
    ensures
        forall|id: PlayerId| #[trigger]
            stored.players@.contains_key(id) <==> snapshot.latest.players@.contains_key(id),
        forall|id: PlayerId| #[trigger]
            stored.players@.contains_key(id) ==> {
                let shown = stored.players@[id];
                if id == snapshot.client_player {
                    shown == snapshot.client_snapshot
                } else if snapshot.older.players@.contains_key(id) {
                    on_the_way(
                        snapshot.older.players@[id],
                        snapshot.latest.players@[id],
                        snapshot.alpha,
                        lerp,
                        shown,
                    )
                } else {
                    shown == snapshot.latest.players@[id]
                }
            },
{
}

/// All players of the latest snapshot are listed exactly once, each as it is shown.
pub proof fn law_listed_as_shown<F: Fn(Real, Real, Real) -> Real>(
    snapshot: InterpolatedSnapshot,
    lerp: F,
    list: Vec<(PlayerId, PlayerSnapshot)>,
)
    requires
        call_ensures(InterpolatedSnapshot::players::<F>, (&snapshot, &lerp), list),
    ensures
        forall|id: PlayerId| #[trigger]
            snapshot.latest.players@.contains_key(id) <==> exists|i: int|
                0 <= i < list@.len() && (#[trigger] list@[i]).0 == id,
        forall|i: int, j: int|
            0 <= i < j < list@.len() ==> (#[trigger] list@[i]).0 != (#[trigger] list@[j]).0,
        forall|i: int|
            0 <= i < list@.len() ==> {
                let id = (#[trigger] list@[i]).0;
                let shown = list@[i].1;
                if id == snapshot.client_player {
                    shown == snapshot.client_snapshot
                } else if snapshot.older.players@.contains_key(id) {
                    on_the_way(
                        snapshot.older.players@[id],
                        snapshot.latest.players@[id],
                        snapshot.alpha,
                        lerp,
                        shown,
                    )
                } else {
                    shown == snapshot.latest.players@[id]
                }
            },
{
    let ids = crate::game::snapshot::ids_of(list@);
    assert forall|id: PlayerId| #[trigger] snapshot.latest.players@.contains_key(
        id,
    ) <==> exists|i: int| 0 <= i < list@.len() && (#[trigger] list@[i]).0 == id by {
        if snapshot.latest.players@.contains_key(id) {
            assert(ids.contains(id));
            let i = choose|i: int| 0 <= i < ids.len() && ids[i] == id;
            assert(list@[i].0 == id);
        }
        if exists|i: int| 0 <= i < list@.len() && (#[trigger] list@[i]).0 == id {
            let i = choose|i: int| 0 <= i < list@.len() && (#[trigger] list@[i]).0 == id;
            assert(ids[i] == id);
            assert(ids.contains(id));
        }
    }
    assert forall|i: int, j: int| 0 <= i < j < list@.len() implies (#[trigger] list@[i]).0 != (
    #[trigger] list@[j]).0 by {
        assert(ids[i] == list@[i].0 && ids[j] == list@[j].0);
    }
}

/// The own ball is pulled towards the cursor, and then moves on with its new velocity.
pub proof fn law_own_ball_is_predicted<
    P: Fn(Point, Vector, Point) -> Vector,
    M: Fn(Point, Vector) -> Point,
>(game: &mut GameClient, pull: P, drift: M)
    requires
        call_ensures(GameClient::tick::<P, M>, (game, pull, drift), ()),
    ensures
        call_ensures(
            pull,
            (old(game).position_ball, old(game).velocity_ball, old(game).input.position),
            final(game).velocity_ball,
        ),
        call_ensures(
            drift,
            (old(game).position_ball, final(game).velocity_ball),
            final(game).position_ball,
        ),
        final(game).input == old(game).input,
        final(game).players == old(game).players,
        final(game).snapshots == old(game).snapshots,
        final(game).client_player == old(game).client_player,
{
}

/// A new snapshot is the latest one from then on, the one that was the latest is the older one, and
/// the own ball is as in the new one. An old snapshot takes the place of the older one, and nothing
/// else changes.
pub proof fn law_new_snapshots_count(
    game: &mut GameClient,
    snapshot: Snapshot,
    new: bool,
    now: Instant,
)
    requires
        call_ensures(GameClient::insert_snapshot, (game, snapshot, new, now), ()),
        new ==> snapshot.players@.contains_key(old(game).client_player),
    ensures
        new ==> {
            &&& final(game).snapshots.latest().snapshot == snapshot
            &&& final(game).snapshots.latest().time == now
            &&& final(game).snapshots.older() == old(game).snapshots.latest()
            &&& final(game).position_ball
                == snapshot.players@[old(game).client_player].position_ball
            &&& final(game).velocity_ball
                == snapshot.players@[old(game).client_player].velocity_ball
        },
        !new ==> {
            &&& final(game).snapshots.latest() == old(game).snapshots.latest()
            &&& final(game).snapshots.older().snapshot == snapshot
            &&& final(game).snapshots.older().time == now
            &&& final(game).position_ball == old(game).position_ball
            &&& final(game).velocity_ball == old(game).velocity_ball
        },
        final(game).players == old(game).players,
        final(game).input == old(game).input,
        final(game).client_player == old(game).client_player,
{
}

/// The way is as far as the time since the latest snapshot is of the time between the two, and no way
/// at all before the latest one. The own player is shown with its cursor and the predicted ball.
pub proof fn law_way_after_latest<R: Fn(Duration, Duration) -> Real>(
    game: GameClient,
    time: Instant,
    ratio: R,
    passed: Duration,
    between: Duration,
    snapshot: InterpolatedSnapshot,
)
    requires
        call_ensures(GameClient::interpolate_snapshot::<R>, (&game, time, ratio), snapshot),
        game.snapshots.older().time.nanos <= game.snapshots.latest().time.nanos,
        game.snapshots.older().time.nanos + between.nanos == game.snapshots.latest().time.nanos,
    ensures
        *snapshot.latest == game.snapshots.latest().snapshot,
        *snapshot.older == game.snapshots.older().snapshot,
        snapshot.client_player == game.client_player,
        snapshot.client_snapshot.position == game.input.position,
        snapshot.client_snapshot.position_ball == game.position_ball,
        snapshot.client_snapshot.velocity_ball == game.velocity_ball,
        between.nanos == 0 || time.nanos < game.snapshots.latest().time.nanos
            ==> snapshot.alpha.bits == 0,
        between.nanos > 0 && game.snapshots.latest().time.nanos + passed.nanos == time.nanos
            ==> call_ensures(ratio, (passed, between), snapshot.alpha),
{
    if between.nanos > 0 && game.snapshots.latest().time.nanos + passed.nanos == time.nanos {
        assert(passed == game.snapshots.latest().time.until(time));
        assert(between == game.snapshots.older().time.until(game.snapshots.latest().time));
    }
}

/// A client starts with the snapshot that the server has sent as both of its snapshots, with a cursor
/// and a ball that are at rest in the middle.
pub proof fn law_predicting_client_starts(
    players: HashMap<PlayerId, PlayerClient>,
    snapshot: Snapshot,
    id: PlayerId,
    now: Instant,
    client: GameClient,
)
    requires
        call_ensures(GameClient::new, (players, snapshot, id, now), client),
    ensures
        client.players@ == players@,
        client.client_player == id,
        client.snapshots.latest().snapshot.players@ == snapshot.players@,
        client.snapshots.older().snapshot.players@ == snapshot.players@,
        client.snapshots.latest().time == now,
        client.snapshots.older().time == now,
        client.input.position.x.bits == 0 && client.input.position.y.bits == 0,
        client.position_ball.x.bits == 0 && client.position_ball.y.bits == 0,
        client.velocity_ball.x.bits == 0 && client.velocity_ball.y.bits == 0,
{
}

/// Moving the cursor changes nothing but where it is.
pub proof fn law_cursor_is_moved(game: &mut GameClient, position: Point)
    requires
        call_ensures(GameClient::update_position, (game, position), ()),
    ensures
        final(game).input.position == position,
        final(game).position_ball == old(game).position_ball,
        final(game).velocity_ball == old(game).velocity_ball,
        final(game).snapshots == old(game).snapshots,
        final(game).players == old(game).players,
        final(game).client_player == old(game).client_player,
{
}

/// Every ball is stepped forward, and nothing else about any player changes.
pub proof fn law_all_balls_step<B: Fn(&Player) -> (Point, Vector)>(
    server: &mut GameServer,
    step: B,
)
    requires
        call_ensures(GameServer::tick::<B>, (server, &step), ()),
    ensures
        final(server).players@.dom() == old(server).players@.dom(),
        forall|id: PlayerId| #[trigger]
            old(server).players@.contains_key(id) ==> {
                let before = old(server).players@[id];
                let after = final(server).players@[id];
                &&& call_ensures(step, (&before,), (after.position_ball, after.velocity_ball))
                &&& after.position == before.position
                &&& after.color == before.color
            },
        final(server).next_id == old(server).next_id,
{
}

/// A snapshot of a server holds every player as it is, and nobody else.
pub proof fn law_server_snapshot(server: GameServer, snapshot: Snapshot)
    requires
        call_ensures(GameServer::snapshot, (&server,), snapshot),
    ensures
        forall|id: PlayerId| #[trigger]
            snapshot.players@.contains_key(id) <==> server.players@.contains_key(id),
        forall|id: PlayerId| #[trigger]
            server.players@.contains_key(id) ==> {
                &&& snapshot.players@[id].position == server.players@[id].position
                &&& snapshot.players@[id].position_ball == server.players@[id].position_ball
                &&& snapshot.players@[id].velocity_ball == server.players@[id].velocity_ball
            },
{
}

/// A player who joins and leaves at once leaves nothing behind, but its id is not given out again.
pub proof fn law_join_and_leave<L: Fn(u32) -> Color>(
    joined: &mut GameServer,
    left: &mut GameServer,
    color: L,
    id: PlayerId,
)
    requires
        call_ensures(GameServer::add_player::<L>, (joined, &color), id),
        call_ensures(GameServer::remove_player, (left, id), ()),
        *old(left) == *final(joined),
        old(joined).wf(),
    ensures
        !old(joined).players@.contains_key(id),
        final(joined).players@.contains_key(id),
        ({
            let player = final(joined).players@[id];
            &&& player.position.x.bits == 0 && player.position.y.bits == 0
            &&& player.position_ball.x.bits == 0 && player.position_ball.y.bits == 0
            &&& player.velocity_ball.x.bits == 0 && player.velocity_ball.y.bits == 0
            &&& exists|hue: u32|
                hue < 0x100_0000 && #[trigger] call_ensures(color, (hue,), player.color)
        }),
        final(left).players@ == old(joined).players@,
        id < final(left).next_id,
{
    assert(final(left).players@ =~= old(joined).players@);
}

/// A server starts with nobody there.
pub proof fn law_predicting_server_starts_empty(server: GameServer)
    requires
        call_ensures(<GameServer as Default>::default, (), server),
    ensures
        server.next_id == 0,
        forall|id: PlayerId| !#[trigger] server.players@.contains_key(id),
{
}

/// Both items of a double buffer start as the initial one, or by default as default values.
pub proof fn law_buffer_starts_with_both<T: Clone + Default>(
    initial: T,
    buffer: DoubleBuffer<T>,
    item: &T,
    old_item: &T,
    empty: DoubleBuffer<T>,
    none: &T,
    old_none: &T,
)
    requires
        call_ensures(DoubleBuffer::<T>::new, (initial,), buffer),
        call_ensures(DoubleBuffer::<T>::get, (&buffer,), item),
        call_ensures(DoubleBuffer::<T>::get_old, (&buffer,), old_item),
        call_ensures(<DoubleBuffer<T> as Default>::default, (), empty),
        call_ensures(DoubleBuffer::<T>::get, (&empty,), none),
        call_ensures(DoubleBuffer::<T>::get_old, (&empty,), old_none),
    ensures
        cloned(initial, *item),
        cloned(initial, *old_item),
        call_ensures(T::default, (), *none),
        call_ensures(T::default, (), *old_none),
{
}

/// Inputs start in the middle, and have the position that was set last.
pub proof fn law_input_position(
    start: Input,
    first: Point,
    input: &mut Input,
    position: Point,
    last: Point,
)
    requires
        call_ensures(<Input as Default>::default, (), start),
        call_ensures(Input::position, (&start,), first),
        call_ensures(Input::set_position, (input, position), ()),
        call_ensures(Input::position, (final(input),), last),
    ensures
        first.x.bits == 0 && first.y.bits == 0,
        last == position,
{
}

/// A player of the server is split into what stays the same, and what changes from frame to frame.
pub proof fn law_player_split(player: Player, client: PlayerClient, snapshot: PlayerSnapshot)
    requires
        call_ensures(Player::as_client, (&player,), client),
        call_ensures(Player::snapshot, (&player,), snapshot),
    ensures
        client.color == player.color,
        snapshot.position == player.position,
        snapshot.position_ball == player.position_ball,
        snapshot.velocity_ball == player.velocity_ball,
{
}

/// New players rest in the middle, with the color of some hue on the wheel.
pub proof fn law_new_player_rests<L: Fn(u32) -> Color>(color: L, player: Player)
    requires
        call_ensures(Player::with_random_color::<L>, (&color,), player),
    ensures
        player.position.x.bits == 0 && player.position.y.bits == 0,
        player.position_ball.x.bits == 0 && player.position_ball.y.bits == 0,
        player.velocity_ball.x.bits == 0 && player.velocity_ball.y.bits == 0,
        exists|hue: u32| hue < 0x100_0000 && call_ensures(color, (hue,), player.color),
{
}

/// Copies of snapshots show the same players, and were received at the same time.
pub proof fn law_snapshots_copied(
    snapshot: Snapshot,
    copy: Snapshot,
    received: Received,
    received_copy: Received,
)
    requires
        call_ensures(<Snapshot as Clone>::clone, (&snapshot,), copy),
        call_ensures(<Received as Clone>::clone, (&received,), received_copy),
    ensures
        copy.players@ == snapshot.players@,
        received_copy.snapshot.players@ == received.snapshot.players@,
        received_copy.time == received.time,
{
}

} // verus!
