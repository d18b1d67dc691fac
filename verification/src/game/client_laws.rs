//! What a client shows of the game, said of the results of its operations alone.

use vstd::prelude::*;

use crate::game::client::{
    complete, first_needed, law_cleaned, Game, GameHandle, GameView, Player, Players,
    SettingsHandle,
};
use crate::game::snapshot::{ids_of, InterpolatedSnapshot, Snapshot};
use crate::game::{
    Ball, Event, GameSettings, Input, PlayerId, PlayerState, RoundState, StaticPlayerState,
};
use crate::number::{Point, Real, Vector};
use crate::time::{Duration, Instant};

verus! {

broadcast use vstd::std_specs::hash::group_hash_axioms;

/// A point on the way from one to another is on the way in each coordinate.
pub proof fn law_point_on_its_way<F: Fn(Real, Real, Real) -> Real>(
    from: Point,
    to: Point,
    alpha: Real,
    lerp: F,
    result: Point,
)
    requires
        call_ensures(Point::interpolate::<F>, (from, to, alpha, &lerp), result),
    ensures
        call_ensures(lerp, (from.x, to.x, alpha), result.x),
        call_ensures(lerp, (from.y, to.y, alpha), result.y),
{
}

/// A vector on the way from one to another is on the way in each coordinate.
pub proof fn law_vector_on_its_way<F: Fn(Real, Real, Real) -> Real>(
    from: Vector,
    to: Vector,
    alpha: Real,
    lerp: F,
    result: Vector,
)
    requires
        call_ensures(Vector::interpolate::<F>, (from, to, alpha, &lerp), result),
    ensures
        call_ensures(lerp, (from.x, to.x, alpha), result.x),
        call_ensures(lerp, (from.y, to.y, alpha), result.y),
{
}

/// A ball on the way from one state to another has a position and a velocity that are on the way
/// in each coordinate.
pub proof fn law_ball_on_its_way<F: Fn(Real, Real, Real) -> Real>(
    from: Ball,
    to: Ball,
    alpha: Real,
    lerp: F,
    result: Ball,
)
    requires
        call_ensures(Ball::interpolate::<F>, (from, to, alpha, &lerp), result),
    ensures
        call_ensures(lerp, (from.position.x, to.position.x, alpha), result.position.x),
        call_ensures(lerp, (from.position.y, to.position.y, alpha), result.position.y),
        call_ensures(lerp, (from.velocity.x, to.velocity.x, alpha), result.velocity.x),
        call_ensures(lerp, (from.velocity.y, to.velocity.y, alpha), result.velocity.y),
{
}

/// A player on the way from one state to another has a ball that is on the way. So is the cursor of
/// one who is alive in both; otherwise the later state decides.
pub proof fn law_player_on_its_way<F: Fn(Real, Real, Real) -> Real>(
    from: PlayerState,
    to: PlayerState,
    alpha: Real,
    lerp: F,
    result: PlayerState,
)
    requires
        call_ensures(PlayerState::interpolate::<F>, (from, to, alpha, &lerp), result),
    ensures
        call_ensures(
            lerp,
            (from.ball.position.x, to.ball.position.x, alpha),
            result.ball.position.x,
        ),
        call_ensures(
            lerp,
            (from.ball.position.y, to.ball.position.y, alpha),
            result.ball.position.y,
        ),
        call_ensures(
            lerp,
            (from.ball.velocity.x, to.ball.velocity.x, alpha),
            result.ball.velocity.x,
        ),
        call_ensures(
            lerp,
            (from.ball.velocity.y, to.ball.velocity.y, alpha),
            result.ball.velocity.y,
        ),
        result.cursor is Some <==> to.cursor is Some,
        from.cursor is Some && to.cursor is Some ==> {
            &&& call_ensures(
                lerp,
                (from.cursor->0.x, to.cursor->0.x, alpha),
                result.cursor->0.x,
            )
            &&& call_ensures(
                lerp,
                (from.cursor->0.y, to.cursor->0.y, alpha),
                result.cursor->0.y,
            )
        },
        from.cursor is None ==> result.cursor == to.cursor,
{
}

/// A player in both snapshots is shown on the way from the older one to the newer one, in this
/// order: each coordinate of the position and the velocity of its ball is, and so is each
/// coordinate of its cursor if it is alive in both. Whether it is alive is as in the newer one.
///
/// A player in the newer snapshot alone is shown as it is there. Nobody else is shown.
pub proof fn law_shown_from_older_to_newer<F: Fn(Real, Real, Real) -> Real>(
    snapshot: InterpolatedSnapshot,
    id: PlayerId,
    lerp: F,
    result: Option<PlayerState>,
)
    requires
        call_ensures(InterpolatedSnapshot::get::<F>, (&snapshot, id, &lerp), result),
    ensures
        result is Some <==> snapshot.newer.players@.contains_key(id),
        snapshot.newer.players@.contains_key(id) && !snapshot.older.players@.contains_key(id)
            ==> result == Some(snapshot.newer.players@[id]),
        snapshot.newer.players@.contains_key(id) && snapshot.older.players@.contains_key(id) ==> {
            let older = snapshot.older.players@[id];
            let newer = snapshot.newer.players@[id];
            let shown = result->0;
            let alpha = snapshot.alpha;
            &&& call_ensures(
                lerp,
                (older.ball.position.x, newer.ball.position.x, alpha),
                shown.ball.position.x,
            )
            &&& call_ensures(
                lerp,
                (older.ball.position.y, newer.ball.position.y, alpha),
                shown.ball.position.y,
            )
            &&& call_ensures(
                lerp,
                (older.ball.velocity.x, newer.ball.velocity.x, alpha),
                shown.ball.velocity.x,
            )
            &&& call_ensures(
                lerp,
                (older.ball.velocity.y, newer.ball.velocity.y, alpha),
                shown.ball.velocity.y,
            )
            &&& shown.cursor is Some <==> newer.cursor is Some
            &&& older.cursor is None ==> shown.cursor == newer.cursor
            &&& older.cursor is Some && newer.cursor is Some ==> {
                &&& call_ensures(
                    lerp,
                    (older.cursor->0.x, newer.cursor->0.x, alpha),
                    shown.cursor->0.x,
                )
                &&& call_ensures(
                    lerp,
                    (older.cursor->0.y, newer.cursor->0.y, alpha),
                    shown.cursor->0.y,
                )
            }
        },
{
}

/// Where interpolating gives the first of two numbers, as it does at the beginning of the way, the
/// ball of a player in both snapshots is shown as in the older one. Where it gives the second, as
/// it does at the end, all of the player is shown as in the newer one.
pub proof fn law_ends_of_the_way<F: Fn(Real, Real, Real) -> Real>(
    snapshot: InterpolatedSnapshot,
    id: PlayerId,
    lerp: F,
    result: Option<PlayerState>,
)
    requires
        call_ensures(InterpolatedSnapshot::get::<F>, (&snapshot, id, &lerp), result),
        snapshot.newer.players@.contains_key(id),
        snapshot.older.players@.contains_key(id),
    ensures
        (forall|a: Real, b: Real, number: Real| #[trigger]
            call_ensures(lerp, (a, b, snapshot.alpha), number) ==> number == a) ==> {
            &&& result is Some
            &&& result->0.ball == snapshot.older.players@[id].ball
            &&& snapshot.older.players@[id].cursor is Some
                && snapshot.newer.players@[id].cursor is Some ==> result->0.cursor
                == snapshot.older.players@[id].cursor
        },
        (forall|a: Real, b: Real, number: Real| #[trigger]
            call_ensures(lerp, (a, b, snapshot.alpha), number) ==> number == b) ==> result == Some(
            snapshot.newer.players@[id],
        ),
{
}

/// All players of the newer snapshot are shown exactly once, each on its way from the older
/// snapshot to the newer one.
pub proof fn law_all_shown_from_older_to_newer<F: Fn(Real, Real, Real) -> Real>(
    snapshot: InterpolatedSnapshot,
    lerp: F,
    list: Vec<(PlayerId, PlayerState)>,
)
    requires
        call_ensures(InterpolatedSnapshot::players::<F>, (&snapshot, &lerp), list),
    ensures
        forall|id: PlayerId| #[trigger]
            snapshot.newer.players@.contains_key(id) <==> exists|i: int|
                0 <= i < list@.len() && (#[trigger] list@[i]).0 == id,
        forall|i: int, j: int|
            0 <= i < j < list@.len() ==> (#[trigger] list@[i]).0 != (#[trigger] list@[j]).0,
        forall|i: int|
            0 <= i < list@.len() && !snapshot.older.players@.contains_key((#[trigger] list@[i]).0)
                ==> list@[i].1 == snapshot.newer.players@[list@[i].0],
        forall|i: int|
            0 <= i < list@.len() && snapshot.older.players@.contains_key((#[trigger] list@[i]).0)
                ==> {
                let older = snapshot.older.players@[list@[i].0];
                let newer = snapshot.newer.players@[list@[i].0];
                let shown = list@[i].1;
                let alpha = snapshot.alpha;
                &&& call_ensures(
                    lerp,
                    (older.ball.position.x, newer.ball.position.x, alpha),
                    shown.ball.position.x,
                )
                &&& call_ensures(
                    lerp,
                    (older.ball.position.y, newer.ball.position.y, alpha),
                    shown.ball.position.y,
                )
                &&& call_ensures(
                    lerp,
                    (older.ball.velocity.x, newer.ball.velocity.x, alpha),
                    shown.ball.velocity.x,
                )
                &&& call_ensures(
                    lerp,
                    (older.ball.velocity.y, newer.ball.velocity.y, alpha),
                    shown.ball.velocity.y,
                )
                &&& shown.cursor is Some <==> newer.cursor is Some
            },
{
    lemma_listed(list@, snapshot.newer.players@);
}

proof fn lemma_listed<S, V>(list: Seq<(PlayerId, S)>, map: Map<PlayerId, V>)
    requires
        crate::keys::lists_keys(ids_of(list), map),
    ensures
        forall|id: PlayerId| #[trigger]
            map.contains_key(id) <==> exists|i: int|
                0 <= i < list.len() && (#[trigger] list[i]).0 == id,
        forall|i: int, j: int|
            0 <= i < j < list.len() ==> (#[trigger] list[i]).0 != (#[trigger] list[j]).0,
{
    let ids = ids_of(list);
    assert forall|id: PlayerId| #[trigger] map.contains_key(id) <==> exists|i: int|
        0 <= i < list.len() && (#[trigger] list[i]).0 == id by {
        if map.contains_key(id) {
            assert(ids.contains(id));
            let i = choose|i: int| 0 <= i < ids.len() && ids[i] == id;
            assert(list[i].0 == id);
        }
        if exists|i: int| 0 <= i < list.len() && (#[trigger] list[i]).0 == id {
            let i = choose|i: int| 0 <= i < list.len() && (#[trigger] list[i]).0 == id;
            assert(ids[i] == id);
            assert(ids.contains(id));
        }
    }
    assert forall|i: int, j: int| 0 <= i < j < list.len() implies (#[trigger] list[i]).0 != (
    #[trigger] list[j]).0 by {
        assert(ids[i] == list[i].0 && ids[j] == list[j].0);
    }
}

/// A snapshot lists every player that it holds exactly once, with its state.
pub proof fn law_snapshot_listed(snapshot: Snapshot, list: Vec<(PlayerId, PlayerState)>)
    requires
        call_ensures(Snapshot::players, (&snapshot,), list),
    ensures
        forall|id: PlayerId| #[trigger]
            snapshot.players@.contains_key(id) <==> exists|i: int|
                0 <= i < list@.len() && (#[trigger] list@[i]).0 == id,
        forall|i: int, j: int|
            0 <= i < j < list@.len() ==> (#[trigger] list@[i]).0 != (#[trigger] list@[j]).0,
        forall|i: int|
            0 <= i < list@.len() ==> (#[trigger] list@[i]).1 == snapshot.players@[list@[i].0],
{
    lemma_listed(list@, snapshot.players@);
}

/// A new round state is the current one from its event on, and has lasted for no time yet. The one
/// before it is remembered.
pub proof fn law_round_event(game: &mut Game, round: RoundState, now: Instant, events: Vec<(Event, Instant)>)
    requires
        call_ensures(Game::handle_events, (game, events), ()),
        events@ == seq![(Event::RoundState(round), now)],
    ensures
        final(game).round == round,
        final(game).last_round == Some(old(game).round),
        final(game).round_duration.bits == 0,
        final(game).players@ == old(game).players@,
        final(game).snapshots@ == old(game).snapshots@,
        final(game).settings == old(game).settings,
        final(game).player_id == old(game).player_id,
{
    lemma_one_event(old(game)@, events@, Event::RoundState(round), now);
}

pub proof fn lemma_one_event(view: GameView, events: Seq<(Event, Instant)>, event: Event, now: Instant)
    requires
        events == seq![(event, now)],
    ensures
        view.after_all(events) == view.after(event, now),
{
    assert(events.drop_last() =~= Seq::<(Event, Instant)>::empty());
    assert(view.after_all(events.drop_last()) == view);
    assert(events.last() == (event, now));
}

/// New settings are the current ones from their event on, and nothing else changes.
pub proof fn law_settings_event(
    game: &mut Game,
    settings: GameSettings,
    now: Instant,
    events: Vec<(Event, Instant)>,
)
    requires
        call_ensures(Game::handle_events, (game, events), ()),
        events@ == seq![(Event::Settings(settings), now)],
    ensures
        final(game).settings == settings,
        final(game).players@ == old(game).players@,
        final(game).snapshots@ == old(game).snapshots@,
        final(game).round == old(game).round,
        final(game).last_round == old(game).last_round,
        final(game).round_duration == old(game).round_duration,
        final(game).player_id == old(game).player_id,
{
    lemma_one_event(old(game)@, events@, Event::Settings(settings), now);
}

/// A player is known from the event of its joining on, and all others stay known.
pub proof fn law_new_player_event(
    game: &mut Game,
    id: PlayerId,
    static_state: StaticPlayerState,
    now: Instant,
    events: Vec<(Event, Instant)>,
)
    requires
        call_ensures(Game::handle_events, (game, events), ()),
        events@ == seq![(Event::NewPlayer { id, static_state }, now)],
    ensures
        final(game).players@.contains_key(id),
        final(game).players@[id] == static_state,
        forall|other: PlayerId|
            other != id ==> (#[trigger] final(game).players@.contains_key(other)
                <==> old(game).players@.contains_key(other)),
        forall|other: PlayerId| #[trigger]
            old(game).players@.contains_key(other) && other != id
                ==> final(game).players@[other] == old(game).players@[other],
        final(game).snapshots@ == old(game).snapshots@,
        final(game).round == old(game).round,
        final(game).last_round == old(game).last_round,
        final(game).round_duration == old(game).round_duration,
        final(game).settings == old(game).settings,
        final(game).player_id == old(game).player_id,
{
    lemma_one_event(old(game)@, events@, Event::NewPlayer { id, static_state }, now);
}

/// A player is not known any more from the event of its leaving on, and all others stay known.
pub proof fn law_remove_player_event(
    game: &mut Game,
    id: PlayerId,
    now: Instant,
    events: Vec<(Event, Instant)>,
)
    requires
        call_ensures(Game::handle_events, (game, events), ()),
        events@ == seq![(Event::RemovePlayer(id), now)],
    ensures
        !final(game).players@.contains_key(id),
        forall|other: PlayerId|
            other != id ==> (#[trigger] final(game).players@.contains_key(other)
                <==> old(game).players@.contains_key(other)),
        forall|other: PlayerId| #[trigger]
            old(game).players@.contains_key(other) && other != id
                ==> final(game).players@[other] == old(game).players@[other],
        final(game).snapshots@ == old(game).snapshots@,
        final(game).round == old(game).round,
        final(game).last_round == old(game).last_round,
        final(game).round_duration == old(game).round_duration,
        final(game).settings == old(game).settings,
        final(game).player_id == old(game).player_id,
{
    lemma_one_event(old(game)@, events@, Event::RemovePlayer(id), now);
}

/// A snapshot is the most recent one from its event on, with the time that it was received at. All
/// earlier ones are still there.
pub proof fn law_snapshot_event(
    game: &mut Game,
    snapshot: Snapshot,
    now: Instant,
    events: Vec<(Event, Instant)>,
)
    requires
        call_ensures(Game::handle_events, (game, events), ()),
        events@ == seq![(Event::Snapshot(snapshot), now)],
    ensures
        final(game).snapshots@.len() == old(game).snapshots@.len() + 1,
        final(game).snapshots@.last() == (snapshot, now),
        forall|i: int|
            0 <= i < old(game).snapshots@.len() ==> #[trigger] final(game).snapshots@[i] == old(
                game,
            ).snapshots@[i],
        final(game).players@ == old(game).players@,
        final(game).round == old(game).round,
        final(game).last_round == old(game).last_round,
        final(game).round_duration == old(game).round_duration,
        final(game).settings == old(game).settings,
        final(game).player_id == old(game).player_id,
{
    lemma_one_event(old(game)@, events@, Event::Snapshot(snapshot), now);
}

proof fn lemma_in_turn(
    view: GameView,
    first: Seq<(Event, Instant)>,
    second: Seq<(Event, Instant)>,
)
    ensures
        view.after_all(first + second) == view.after_all(first).after_all(second),
    decreases second.len(),
{
    if second.len() == 0 {
        assert(first + second =~= first);
    } else {
        lemma_in_turn(view, first, second.drop_last());
        assert((first + second).drop_last() =~= first + second.drop_last());
        assert((first + second).last() == second.last());
    }
}

/// Events that are handled at once are handled one after the other: it makes no difference where
/// a list of them is divided.
pub proof fn law_events_in_turn(
    whole: &mut Game,
    first: &mut Game,
    second: &mut Game,
    all: Vec<(Event, Instant)>,
    some: Vec<(Event, Instant)>,
    rest: Vec<(Event, Instant)>,
)
    requires
        call_ensures(Game::handle_events, (whole, all), ()),
        call_ensures(Game::handle_events, (first, some), ()),
        call_ensures(Game::handle_events, (second, rest), ()),
        *old(first) == *old(whole),
        *old(second) == *final(first),
        all@ == some@ + rest@,
    ensures
        final(second).players@ == final(whole).players@,
        final(second).snapshots@ == final(whole).snapshots@,
        final(second).round == final(whole).round,
        final(second).last_round == final(whole).last_round,
        final(second).round_duration == final(whole).round_duration,
        final(second).settings == final(whole).settings,
        final(second).player_id == final(whole).player_id,
{
    lemma_in_turn(old(whole)@, some@, rest@);
}

/// Without events, a tick sets the time that the round state has lasted, and nothing else.
pub proof fn law_quiet_tick(game: &mut Game, elapsed: Real, events: Vec<(Event, Instant)>)
    requires
        call_ensures(Game::tick, (game, elapsed, events), ()),
        events@.len() == 0,
    ensures
        final(game).round_duration == elapsed,
        final(game).players@ == old(game).players@,
        final(game).snapshots@ == old(game).snapshots@,
        final(game).round == old(game).round,
        final(game).last_round == old(game).last_round,
        final(game).settings == old(game).settings,
        final(game).player_id == old(game).player_id,
{
}

/// A tick is the setting of the time, and then the handling of the events.
pub proof fn law_tick_handles_events(
    ticked: &mut Game,
    handled: &mut Game,
    elapsed: Real,
    events: Vec<(Event, Instant)>,
)
    requires
        call_ensures(Game::tick, (ticked, elapsed, events), ()),
        call_ensures(Game::handle_events, (handled, events), ()),
        old(handled)@ == (GameView { round_duration: elapsed, ..old(ticked)@ }),
    ensures
        final(ticked).players@ == final(handled).players@,
        final(ticked).snapshots@ == final(handled).snapshots@,
        final(ticked).round == final(handled).round,
        final(ticked).last_round == final(handled).last_round,
        final(ticked).round_duration == final(handled).round_duration,
        final(ticked).settings == final(handled).settings,
        final(ticked).player_id == final(handled).player_id,
{
}

proof fn lemma_all_needless(snapshots: Seq<(Snapshot, Instant)>, time: Instant, i: int)
    requires
        0 < i <= first_needed(snapshots, time),
    ensures
        i < snapshots.len(),
        snapshots[i].1.nanos < time.nanos,
    decreases snapshots.len(),
{
    if i > 1 {
        lemma_all_needless(snapshots.drop_first(), time, i - 1);
        assert(snapshots.drop_first()[i - 1] == snapshots[i]);
    } else if snapshots.len() <= 1 || time.nanos <= snapshots[1].1.nanos {
        assert(first_needed(snapshots, time) == 0);
    }
}

/// Cleaning removes snapshots from the front only, and exactly those that are followed by one
/// which is older than the time to be interpolated at. So there is always one left, and the time
/// is never after the second one that is left.
pub proof fn law_only_old_snapshots_go(game: &mut Game, delayed_time: Instant)
    requires
        call_ensures(Game::clean_old_snapshots, (game, delayed_time), ()),
        old(game).snapshots@.len() > 0,
    ensures
        0 < final(game).snapshots@.len() <= old(game).snapshots@.len(),
        final(game).snapshots@ == old(game).snapshots@.skip(
            old(game).snapshots@.len() - final(game).snapshots@.len(),
        ),
        final(game).snapshots@.len() > 1 ==> delayed_time.nanos
            <= final(game).snapshots@[1].1.nanos,
        forall|i: int|
            0 < i <= old(game).snapshots@.len() - final(game).snapshots@.len() ==> (
            #[trigger] old(game).snapshots@[i]).1.nanos < delayed_time.nanos,
        final(game).players@ == old(game).players@,
        final(game).round == old(game).round,
        final(game).last_round == old(game).last_round,
        final(game).round_duration == old(game).round_duration,
        final(game).settings == old(game).settings,
        final(game).player_id == old(game).player_id,
{
    let all = old(game).snapshots@;
    law_cleaned(all, delayed_time);
    assert forall|i: int| 0 < i <= all.len() - final(game).snapshots@.len() implies (
    #[trigger] all[i]).1.nanos < delayed_time.nanos by {
        lemma_all_needless(all, delayed_time, i);
    }
}

/// The way is from the first snapshot to the second one, and as far as the time since the first is
/// of the time between them. At or before the time of the first, and with a single snapshot, it is
/// no way at all.
pub proof fn law_way_between_snapshots<R: Fn(Duration, Duration) -> Real>(
    game: Game,
    delayed_time: Instant,
    ratio: R,
    snapshot: InterpolatedSnapshot,
)
    requires
        call_ensures(Game::interpolation::<R>, (&game, delayed_time, &ratio), snapshot),
        game.snapshots@.len() > 0,
    ensures
        *snapshot.older == game.snapshots@[0].0,
        game.snapshots@.len() == 1 ==> *snapshot.newer == game.snapshots@[0].0
            && snapshot.alpha.bits == 0,
        game.snapshots@.len() > 1 ==> *snapshot.newer == game.snapshots@[1].0,
        delayed_time.nanos <= game.snapshots@[0].1.nanos ==> snapshot.alpha.bits == 0,
        game.snapshots@.len() > 1 && game.snapshots@[0].1.nanos < delayed_time.nanos
            && game.snapshots@[0].1.nanos <= game.snapshots@[1].1.nanos ==> call_ensures(
            ratio,
            (
                Duration { nanos: (delayed_time.nanos - game.snapshots@[0].1.nanos) as u128 },
                Duration {
                    nanos: (game.snapshots@[1].1.nanos - game.snapshots@[0].1.nanos) as u128,
                },
            ),
            snapshot.alpha,
        ),
{
    if game.snapshots@.len() > 1 {
        lemma_way_at(game, snapshot, delayed_time, ratio);
    }
}

pub proof fn lemma_complete_holds(
    players: Map<PlayerId, StaticPlayerState>,
    states: Seq<(PlayerId, PlayerState)>,
    skipped: Option<PlayerId>,
)
    ensures
        forall|i: int|
            0 <= i < states.len() && skipped != Some((#[trigger] states[i]).0)
                && players.contains_key(states[i].0) ==> complete(
                players,
                states,
                skipped,
            ).contains(
                (
                    states[i].0,
                    Player { static_state: players[states[i].0], state: states[i].1 },
                ),
            ),
        forall|k: int|
            0 <= k < complete(players, states, skipped).len() ==> {
                let entry = #[trigger] complete(players, states, skipped)[k];
                &&& skipped != Some(entry.0)
                &&& players.contains_key(entry.0)
                &&& entry.1.static_state == players[entry.0]
                &&& states.contains((entry.0, entry.1.state))
            },
    decreases states.len(),
{
    if states.len() > 0 {
        let earlier = states.drop_last();
        lemma_complete_holds(players, earlier, skipped);
        let before = complete(players, earlier, skipped);
        let after = complete(players, states, skipped);
        let last = states.last();
        assert(states[states.len() - 1] == last);
        assert forall|i: int|
            0 <= i < states.len() && skipped != Some((#[trigger] states[i]).0)
                && players.contains_key(states[i].0) implies after.contains(
            (states[i].0, Player { static_state: players[states[i].0], state: states[i].1 }),
        ) by {
            let entry = (
                states[i].0,
                Player { static_state: players[states[i].0], state: states[i].1 },
            );
            if i < earlier.len() {
                assert(earlier[i] == states[i]);
                assert(before.contains(entry));
                let k = choose|k: int| 0 <= k < before.len() && before[k] == entry;
                assert(after[k] == entry);
            } else {
                assert(after[after.len() - 1] == entry);
            }
        }
        assert forall|k: int| 0 <= k < after.len() implies {
            let entry = #[trigger] after[k];
            &&& skipped != Some(entry.0)
            &&& players.contains_key(entry.0)
            &&& entry.1.static_state == players[entry.0]
            &&& states.contains((entry.0, entry.1.state))
        } by {
            let entry = after[k];
            if k < before.len() {
                assert(before[k] == entry);
                let i = choose|i: int|
                    0 <= i < earlier.len() && earlier[i] == (entry.0, entry.1.state);
                assert(states[i] == (entry.0, entry.1.state));
            }
        }
    }
}

/// The players that are listed are those who have both a state and a color: every one whose state
/// is in the list, with that state, but the player of this client with the predicted state.
pub proof fn law_complete_players_listed(players: Players, list: Vec<(PlayerId, Player)>)
    requires
        call_ensures(Players::into_iter, (players,), list),
    ensures
        forall|i: int|
            0 <= i < players.states@.len() && players.players@.contains_key(
                (#[trigger] players.states@[i]).0,
            ) && !(players.predicted is Some && (players.predicted->0).0 == players.states@[i].0)
                ==> list@.contains(
                (
                    players.states@[i].0,
                    Player {
                        static_state: players.players@[players.states@[i].0],
                        state: players.states@[i].1,
                    },
                ),
            ),
        players.predicted matches Some((id, state)) ==> {
            &&& list@.len() > 0
            &&& list@.last() == (id, Player { static_state: players.players@[id], state })
            &&& forall|k: int| 0 <= k < list@.len() - 1 ==> (#[trigger] list@[k]).0 != id
        },
        forall|k: int|
            0 <= k < list@.len() && !(players.predicted is Some && (players.predicted->0).0 == (
            #[trigger] list@[k]).0) ==> {
                &&& players.players@.contains_key(list@[k].0)
                &&& list@[k].1.static_state == players.players@[list@[k].0]
                &&& players.states@.contains((list@[k].0, list@[k].1.state))
            },
{
    let skipped: Option<PlayerId> = match players.predicted {
        Some((id, _)) => Some(id),
        None => None,
    };
    lemma_complete_holds(players.players@, players.states@, skipped);
    let listed = complete(players.players@, players.states@, skipped);
    assert forall|i: int|
        0 <= i < players.states@.len() && players.players@.contains_key(
            (#[trigger] players.states@[i]).0,
        ) && !(players.predicted is Some && (players.predicted->0).0
            == players.states@[i].0) implies list@.contains(
        (
            players.states@[i].0,
            Player {
                static_state: players.players@[players.states@[i].0],
                state: players.states@[i].1,
            },
        ),
    ) by {
        let entry = (
            players.states@[i].0,
            Player {
                static_state: players.players@[players.states@[i].0],
                state: players.states@[i].1,
            },
        );
        assert(listed.contains(entry));
        let k = choose|k: int| 0 <= k < listed.len() && listed[k] == entry;
        assert(list@[k] == entry);
    }
    assert forall|k: int| 0 <= k < listed.len() implies #[trigger] list@[k] == listed[k] by {}
}

/// Whether `alpha` may be how far the way is from the first snapshot to the second one.
pub open spec fn way_at<R: Fn(Duration, Duration) -> Real>(
    snapshots: Seq<(Snapshot, Instant)>,
    time: Instant,
    ratio: R,
    alpha: Real,
) -> bool {
    &&& time.nanos <= snapshots[0].1.nanos ==> alpha.bits == 0
    &&& snapshots[0].1.nanos < time.nanos && snapshots[0].1.nanos <= snapshots[1].1.nanos
        ==> call_ensures(
        ratio,
        (
            Duration { nanos: (time.nanos - snapshots[0].1.nanos) as u128 },
            Duration { nanos: (snapshots[1].1.nanos - snapshots[0].1.nanos) as u128 },
        ),
        alpha,
    )
}

/// Whether a ball may be shown on the way from an older state to a newer one.
pub open spec fn ball_on_the_way<F: Fn(Real, Real, Real) -> Real>(
    older: Ball,
    newer: Ball,
    alpha: Real,
    lerp: F,
    shown: Ball,
) -> bool {
    &&& call_ensures(lerp, (older.position.x, newer.position.x, alpha), shown.position.x)
    &&& call_ensures(lerp, (older.position.y, newer.position.y, alpha), shown.position.y)
    &&& call_ensures(lerp, (older.velocity.x, newer.velocity.x, alpha), shown.velocity.x)
    &&& call_ensures(lerp, (older.velocity.y, newer.velocity.y, alpha), shown.velocity.y)
}

/// All players of the second snapshot are shown, on the way from the first one to the second one if
/// they are in both. The player of this client is shown like everybody else but for its cursor,
/// which is where the client has it as long as the player is alive.
pub proof fn law_own_cursor_is_predicted<
    R: Fn(Duration, Duration) -> Real,
    F: Fn(Real, Real, Real) -> Real,
>(game: Game, delayed_time: Instant, cursor: Point, ratio: R, lerp: F, players: Players)
    requires
        call_ensures(
            Game::interpolated_players::<R, F>,
            (&game, delayed_time, cursor, &ratio, &lerp),
            players,
        ),
        game.snapshots@.len() > 1,
        game.snapshots@[0].0.players@.contains_key(game.player_id),
        game.snapshots@[1].0.players@.contains_key(game.player_id),
    ensures
        players.players@ == game.players@,
        players.predicted is Some,
        (players.predicted->0).0 == game.player_id,
        (players.predicted->0).1.cursor == (if game.snapshots@[1].0.players@[game.player_id].cursor
            is Some {
            Some(cursor)
        } else {
            None
        }),
        forall|id: PlayerId| #[trigger]
            game.snapshots@[1].0.players@.contains_key(id) <==> exists|i: int|
                0 <= i < players.states@.len() && (#[trigger] players.states@[i]).0 == id,
        forall|i: int|
            0 <= i < players.states@.len() && !game.snapshots@[0].0.players@.contains_key(
                (#[trigger] players.states@[i]).0,
            ) ==> players.states@[i].1 == game.snapshots@[1].0.players@[players.states@[i].0],
        forall|i: int|
            0 <= i < players.states@.len() ==> ((#[trigger] players.states@[i]).1.cursor is Some
                <==> game.snapshots@[1].0.players@[players.states@[i].0].cursor is Some),
        exists|alpha: Real| #[trigger]
            way_at(game.snapshots@, delayed_time, ratio, alpha) && ball_on_the_way(
                game.snapshots@[0].0.players@[game.player_id].ball,
                game.snapshots@[1].0.players@[game.player_id].ball,
                alpha,
                lerp,
                (players.predicted->0).1.ball,
            ) && forall|i: int|
                0 <= i < players.states@.len() && game.snapshots@[0].0.players@.contains_key(
                    (#[trigger] players.states@[i]).0,
                ) ==> ball_on_the_way(
                    game.snapshots@[0].0.players@[players.states@[i].0].ball,
                    game.snapshots@[1].0.players@[players.states@[i].0].ball,
                    alpha,
                    lerp,
                    players.states@[i].1.ball,
                ),
{
    let snapshot = choose|snapshot: InterpolatedSnapshot| #[trigger]
        crate::game::client::shown(game, snapshot, delayed_time, cursor, ratio, lerp, players);
    lemma_listed(players.states@, game.snapshots@[1].0.players@);
    lemma_way_at(game, snapshot, delayed_time, ratio);
    let id = game.player_id;
    let own = (players.predicted->0).1;
    let state = choose|state: PlayerState| #[trigger]
        snapshot.shows(id, state, lerp) && own == (PlayerState {
            cursor: if state.is_alive() {
                Some(cursor)
            } else {
                None
            },
            ball: state.ball,
        });
    assert(snapshot.shows(id, state, lerp));
    assert forall|i: int|
        0 <= i < players.states@.len() && game.snapshots@[0].0.players@.contains_key(
            (#[trigger] players.states@[i]).0,
        ) implies ball_on_the_way(
        game.snapshots@[0].0.players@[players.states@[i].0].ball,
        game.snapshots@[1].0.players@[players.states@[i].0].ball,
        snapshot.alpha,
        lerp,
        players.states@[i].1.ball,
    ) by {
        assert(snapshot.shows(players.states@[i].0, players.states@[i].1, lerp));
    }
}

proof fn lemma_way_at<R: Fn(Duration, Duration) -> Real>(
    game: Game,
    snapshot: InterpolatedSnapshot,
    delayed_time: Instant,
    ratio: R,
)
    requires
        crate::game::client::between(game, snapshot, delayed_time, ratio),
        game.snapshots@.len() > 1,
    ensures
        way_at(game.snapshots@, delayed_time, ratio, snapshot.alpha),
{
    if game.snapshots@[0].1.nanos < delayed_time.nanos && game.snapshots@[0].1.nanos
        <= game.snapshots@[1].1.nanos {
        let (passed, span) = choose|passed: Duration, span: Duration| #[trigger]
            call_ensures(ratio, (passed, span), snapshot.alpha) && passed.nanos
                == delayed_time.nanos - game.snapshots@[0].1.nanos && span.nanos
                == game.snapshots@[1].1.nanos - game.snapshots@[0].1.nanos;
        assert(passed == (Duration {
            nanos: (delayed_time.nanos - game.snapshots@[0].1.nanos) as u128,
        }));
        assert(span == (Duration {
            nanos: (game.snapshots@[1].1.nanos - game.snapshots@[0].1.nanos) as u128,
        }));
    }
}

/// The most recent players are those of the last snapshot, as they are there, with nothing
/// predicted.
pub proof fn law_latest_players(game: Game, players: Players)
    requires
        call_ensures(Game::latest_players, (&game,), players),
        game.snapshots@.len() > 0,
    ensures
        players.players@ == game.players@,
        players.predicted is None,
        forall|id: PlayerId| #[trigger]
            game.snapshots@.last().0.players@.contains_key(id) <==> exists|i: int|
                0 <= i < players.states@.len() && (#[trigger] players.states@[i]).0 == id,
        forall|i: int|
            0 <= i < players.states@.len() ==> (#[trigger] players.states@[i]).1
                == game.snapshots@.last().0.players@[players.states@[i].0],
{
    lemma_listed(players.states@, game.snapshots@.last().0.players@);
}

/// Settings that have been changed are taken exactly once, as they were set last. They are the
/// settings of the game at once.
pub proof fn law_changed_settings_taken_once(
    game: &mut Game,
    shared: &mut SettingsHandle,
    taken: &mut SettingsHandle,
    again: &mut SettingsHandle,
    settings: GameSettings,
    first: Option<GameSettings>,
    second: Option<GameSettings>,
)
    requires
        call_ensures(Game::set_settings, (game, settings, shared), ()),
        call_ensures(SettingsHandle::dirty, (taken,), first),
        call_ensures(SettingsHandle::dirty, (again,), second),
        *old(taken) == *final(shared),
        *old(again) == *final(taken),
    ensures
        first == Some(settings),
        second is None,
        final(game).settings == settings,
        final(game).players == old(game).players,
        final(game).snapshots == old(game).snapshots,
        final(game).round == old(game).round,
        final(game).last_round == old(game).last_round,
        final(game).round_duration == old(game).round_duration,
        final(game).player_id == old(game).player_id,
{
}

/// Settings that the server knows already are not taken, but can be read.
pub proof fn law_known_settings_not_taken(
    settings: GameSettings,
    handle: SettingsHandle,
    taken: &mut SettingsHandle,
    first: Option<GameSettings>,
    read: GameSettings,
)
    requires
        call_ensures(SettingsHandle::new, (settings,), handle),
        call_ensures(SettingsHandle::dirty, (taken,), first),
        *old(taken) == handle,
        call_ensures(SettingsHandle::settings, (final(taken),), read),
    ensures
        first is None,
        read == settings,
{
}

/// The input to be sent is the cursor as it was moved last, and moving it leaves the settings
/// alone.
pub proof fn law_latest_input_is_sent(
    game: Game,
    shared: &mut GameHandle,
    cursor: Point,
    input: Input,
)
    requires
        call_ensures(Game::update_cursor, (&game, cursor, shared), ()),
        call_ensures(GameHandle::latest_input, (final(shared),), input),
    ensures
        input.cursor == cursor,
        final(shared).settings == old(shared).settings,
{
}

/// A game starts with what the server has sent, and with no round state before that.
pub proof fn law_game_starts_as_sent(
    players: std::collections::HashMap<PlayerId, StaticPlayerState>,
    snapshot: Snapshot,
    now: Instant,
    round: RoundState,
    round_duration: Real,
    settings: GameSettings,
    player_id: PlayerId,
    cursor: Point,
    result: (Game, GameHandle),
)
    requires
        call_ensures(
            Game::new,
            (players, snapshot, now, round, round_duration, settings, player_id, cursor),
            result,
        ),
    ensures
        result.0.players@ == players@,
        result.0.snapshots@ == seq![(snapshot, now)],
        result.0.round == round,
        result.0.round_duration == round_duration,
        result.0.last_round is None,
        result.0.settings == settings,
        result.0.player_id == player_id,
        result.1.cursor == cursor,
        result.1.settings.current() == settings,
        !result.1.settings.is_dirty(),
{
}

/// A snapshot between two others is as far from the older to the newer one as it is told.
pub proof fn law_way_as_given<'a>(
    alpha: Real,
    older: &'a Snapshot,
    newer: &'a Snapshot,
    snapshot: InterpolatedSnapshot<'a>,
)
    requires
        call_ensures(InterpolatedSnapshot::<'a>::new, (alpha, older, newer), snapshot),
    ensures
        snapshot.alpha == alpha,
        *snapshot.older == *older,
        *snapshot.newer == *newer,
{
}

/// A client's game has the settings that were set last.
pub proof fn law_settings_set_last(
    game: &mut Game,
    settings: GameSettings,
    shared: &mut SettingsHandle,
    now: &GameSettings,
)
    requires
        call_ensures(Game::set_settings, (game, settings, shared), ()),
        call_ensures(Game::settings, (final(game),), now),
    ensures
        *now == settings,
        final(game).players == old(game).players,
        final(game).snapshots == old(game).snapshots,
        final(game).round == old(game).round,
{
}

} // verus!
