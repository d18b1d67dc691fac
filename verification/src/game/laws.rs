//! What the operations of the game are for, said of their results alone.

use std::collections::HashMap;
use vstd::prelude::*;

use crate::game::server::{
    bounced, enters, is_hit, law_simulation_keeps, lemma_bounce_keeps, may_kill, one_or_less_alive,
    same_but_ball, ticked, Contact, Game, Physics, Player,
};
use crate::game::{
    Ball, Event, GameSettings, GetPlayer, PlayerId, PlayerState, RoundState, Snapshot,
    StaticPlayerState,
};
use crate::number::{Color, Point, Real};

verus! {

broadcast use vstd::std_specs::hash::group_hash_axioms;

/// Whether no two balls are ever in contact.
pub open spec fn never_in_contact<C: Fn(Ball, Ball, GameSettings) -> Option<(Ball, Ball)>>(
    contact: C,
) -> bool {
    forall|a: Ball, b: Ball, settings: GameSettings, outcome: Option<(Ball, Ball)>| #[trigger]
        call_ensures(contact, (a, b, settings), outcome) ==> outcome is None
}

/// Whether no ball ever hits the wall.
pub open spec fn never_at_wall<W: Fn(Ball, GameSettings) -> Option<Ball>>(wall: W) -> bool {
    forall|ball: Ball, settings: GameSettings, outcome: Option<Ball>| #[trigger]
        call_ensures(wall, (ball, settings), outcome) ==> outcome is None
}

/// Whether no cursor is ever touched by a ball.
pub open spec fn never_touched<T: Fn(Point, Ball, GameSettings) -> bool>(touch: T) -> bool {
    forall|cursor: Point, ball: Ball, settings: GameSettings, hit: bool| #[trigger]
        call_ensures(touch, (cursor, ball, settings), hit) ==> !hit
}

proof fn lemma_no_bounce(players: Map<PlayerId, Player>, contacts: Seq<Contact>)
    requires
        forall|i: int| 0 <= i < contacts.len() ==> (#[trigger] contacts[i]).outcome is None,
    ensures
        bounced(players, contacts) == players,
    decreases contacts.len(),
{
    if contacts.len() > 0 {
        let earlier = contacts.drop_last();
        assert forall|i: int| 0 <= i < earlier.len() implies (
        #[trigger] earlier[i]).outcome is None by {
            assert(earlier[i] == contacts[i]);
        }
        lemma_no_bounce(players, earlier);
        assert(contacts.last() == contacts[contacts.len() - 1]);
    }
}

/// One step in which nothing touches anything moves the ball of every player, and does nothing
/// else.
proof fn lemma_undisturbed_step<M, C, W, T>(
    physics: Physics<M, C, W, T>,
    before: Map<PlayerId, Player>,
    after: Map<PlayerId, Player>,
    settings: GameSettings,
    dt: Real,
) where
    M: Fn(PlayerState, GameSettings, Real) -> Ball,
    C: Fn(Ball, Ball, GameSettings) -> Option<(Ball, Ball)>,
    W: Fn(Ball, GameSettings) -> Option<Ball>,
    T: Fn(Point, Ball, GameSettings) -> bool,

    requires
        physics.stepped(before, after, settings, dt),
        never_in_contact(physics.contact),
        never_at_wall(physics.wall),
        never_touched(physics.touch),
    ensures
        after.dom() == before.dom(),
        forall|id: PlayerId| #[trigger]
            before.contains_key(id) ==> {
                &&& call_ensures(
                    physics.motion,
                    (before[id].state, settings, dt),
                    after[id].state.ball,
                )
                &&& after[id].state.cursor == before[id].state.cursor
                &&& after[id].static_state == before[id].static_state
                &&& after[id].hue == before[id].hue
            },
{
    let (moved, collided, walled, hits) = choose|
        moved: Map<PlayerId, Player>,
        collided: Map<PlayerId, Player>,
        walled: Map<PlayerId, Player>,
        hits: Set<(PlayerId, PlayerId)>,
    | #[trigger]
        physics.phases(before, moved, collided, walled, hits, after, settings, dt);
    let contacts = choose|contacts: Seq<Contact>| #[trigger]
        physics.checked_all(moved, settings, contacts) && collided == bounced(moved, contacts);
    lemma_no_bounce(moved, contacts);
    assert forall|id: PlayerId| #[trigger] before.contains_key(id) implies {
        &&& call_ensures(physics.motion, (before[id].state, settings, dt), after[id].state.ball)
        &&& after[id].state.cursor == before[id].state.cursor
        &&& after[id].static_state == before[id].static_state
        &&& after[id].hue == before[id].hue
    } by {
        assert(moved.contains_key(id));
        assert(physics.walled(collided[id], walled[id], settings));
        assert(walled.contains_key(id));
    }
}

/// While a round runs, a tick of one step in which nothing touches anything moves the ball of
/// every player, dead or alive, as far as it goes by itself in that time. Nothing else about any
/// player changes.
pub proof fn law_every_ball_moves<M, C, W, T>(
    game: &mut Game,
    elapsed: Real,
    dt: Real,
    steps: Vec<Real>,
    physics: Physics<M, C, W, T>,
    events: Vec<Event>,
) where
    M: Fn(PlayerState, GameSettings, Real) -> Ball,
    C: Fn(Ball, Ball, GameSettings) -> Option<(Ball, Ball)>,
    W: Fn(Ball, GameSettings) -> Option<Ball>,
    T: Fn(Point, Ball, GameSettings) -> bool,

    requires
        call_ensures(Game::tick::<M, C, W, T>, (game, elapsed, &steps, &physics), events),
        old(game).round == RoundState::Round || (old(game).round == RoundState::RoundEnd
            && elapsed.bits <= 0x4000_0000),
        steps@ == seq![dt],
        never_in_contact(physics.contact),
        never_at_wall(physics.wall),
        never_touched(physics.touch),
    ensures
        final(game).players@.dom() == old(game).players@.dom(),
        forall|id: PlayerId| #[trigger]
            old(game).players@.contains_key(id) ==> {
                let before = old(game).players@[id];
                let after = final(game).players@[id];
                &&& call_ensures(
                    physics.motion,
                    (before.state, old(game).settings, dt),
                    after.state.ball,
                )
                &&& after.state.cursor == before.state.cursor
                &&& after.static_state == before.static_state
                &&& after.hue == before.hue
            },
{
    let before = old(game).players@;
    let after = final(game).players@;
    let settings = old(game).settings;
    assert(physics.simulated(before, after, settings, steps@));
    let middle = choose|middle: Map<PlayerId, Player>|
        physics.simulated(before, middle, settings, steps@.drop_last())
            && #[trigger] physics.stepped(middle, after, settings, steps@.last());
    assert(physics.simulated(before, middle, settings, steps@.drop_last()));
    assert(middle == before);
    lemma_undisturbed_step(physics, before, after, settings, dt);
}

/// Whether a ball may go along a path by itself, one step after the other, towards a cursor that
/// stays where it is.
pub open spec fn goes_along<M: Fn(PlayerState, GameSettings, Real) -> Ball>(
    motion: M,
    cursor: Option<Point>,
    path: Seq<Ball>,
    settings: GameSettings,
    steps: Seq<Real>,
) -> bool {
    &&& path.len() == steps.len() + 1
    &&& forall|i: int|
        0 <= i < steps.len() ==> call_ensures(
            motion,
            (PlayerState { cursor, ball: path[i] }, settings, #[trigger] steps[i]),
            path[i + 1],
        )
}

pub proof fn lemma_undisturbed_steps<M, C, W, T>(
    physics: Physics<M, C, W, T>,
    before: Map<PlayerId, Player>,
    after: Map<PlayerId, Player>,
    settings: GameSettings,
    steps: Seq<Real>,
) where
    M: Fn(PlayerState, GameSettings, Real) -> Ball,
    C: Fn(Ball, Ball, GameSettings) -> Option<(Ball, Ball)>,
    W: Fn(Ball, GameSettings) -> Option<Ball>,
    T: Fn(Point, Ball, GameSettings) -> bool,

    requires
        physics.simulated(before, after, settings, steps),
        never_in_contact(physics.contact),
        never_at_wall(physics.wall),
        never_touched(physics.touch),
    ensures
        after.dom() == before.dom(),
        forall|id: PlayerId| #[trigger]
            before.contains_key(id) ==> {
                &&& exists|path: Seq<Ball>| #[trigger]
                    goes_along(physics.motion, before[id].state.cursor, path, settings, steps)
                        && path[0] == before[id].state.ball && path.last() == after[id].state.ball
                &&& after[id].state.cursor == before[id].state.cursor
                &&& after[id].static_state == before[id].static_state
                &&& after[id].hue == before[id].hue
            },
    decreases steps.len(),
{
    if steps.len() == 0 {
        assert forall|id: PlayerId| #[trigger] before.contains_key(id) implies exists|
            path: Seq<Ball>,
        | #[trigger]
            goes_along(physics.motion, before[id].state.cursor, path, settings, steps) && path[0]
                == before[id].state.ball && path.last() == after[id].state.ball by {
            let path = seq![before[id].state.ball];
            assert(goes_along(physics.motion, before[id].state.cursor, path, settings, steps));
        }
    } else {
        let middle = choose|middle: Map<PlayerId, Player>|
            physics.simulated(before, middle, settings, steps.drop_last())
                && #[trigger] physics.stepped(middle, after, settings, steps.last());
        lemma_undisturbed_steps(physics, before, middle, settings, steps.drop_last());
        lemma_undisturbed_step(physics, middle, after, settings, steps.last());
        assert forall|id: PlayerId| #[trigger] before.contains_key(id) implies {
            &&& exists|path: Seq<Ball>| #[trigger]
                goes_along(physics.motion, before[id].state.cursor, path, settings, steps)
                    && path[0] == before[id].state.ball && path.last() == after[id].state.ball
            &&& after[id].state.cursor == before[id].state.cursor
            &&& after[id].static_state == before[id].static_state
            &&& after[id].hue == before[id].hue
        } by {
            assert(middle.contains_key(id));
            let cursor = before[id].state.cursor;
            let earlier = choose|path: Seq<Ball>| #[trigger]
                goes_along(physics.motion, cursor, path, settings, steps.drop_last()) && path[0]
                    == before[id].state.ball && path.last() == middle[id].state.ball;
            let path = earlier.push(after[id].state.ball);
            assert forall|i: int| 0 <= i < steps.len() implies call_ensures(
                physics.motion,
                (PlayerState { cursor, ball: path[i] }, settings, #[trigger] steps[i]),
                path[i + 1],
            ) by {
                if i < steps.len() - 1 {
                    assert(steps.drop_last()[i] == steps[i]);
                } else {
                    assert(middle[id].state == (PlayerState { cursor, ball: path[i] }));
                }
            }
            assert(goes_along(physics.motion, cursor, path, settings, steps));
        }
    }
}

/// While a round runs and nothing touches anything, every ball goes on by itself for all of the
/// steps of a tick, one after the other.
pub proof fn law_steps_add_up<M, C, W, T>(
    game: &mut Game,
    elapsed: Real,
    steps: Vec<Real>,
    physics: Physics<M, C, W, T>,
    events: Vec<Event>,
) where
    M: Fn(PlayerState, GameSettings, Real) -> Ball,
    C: Fn(Ball, Ball, GameSettings) -> Option<(Ball, Ball)>,
    W: Fn(Ball, GameSettings) -> Option<Ball>,
    T: Fn(Point, Ball, GameSettings) -> bool,

    requires
        call_ensures(Game::tick::<M, C, W, T>, (game, elapsed, &steps, &physics), events),
        old(game).round == RoundState::Round || (old(game).round == RoundState::RoundEnd
            && elapsed.bits <= 0x4000_0000) || (old(game).round == RoundState::Waiting
            && 0x4040_0000 < elapsed.bits <= 0x7f80_0000),
        never_in_contact(physics.contact),
        never_at_wall(physics.wall),
        never_touched(physics.touch),
    ensures
        final(game).players@.dom() == old(game).players@.dom(),
        forall|id: PlayerId| #[trigger]
            old(game).players@.contains_key(id) ==> {
                let before = old(game).players@[id];
                let after = final(game).players@[id];
                &&& exists|path: Seq<Ball>| #[trigger]
                    goes_along(
                        physics.motion,
                        before.state.cursor,
                        path,
                        old(game).settings,
                        steps@,
                    ) && path[0] == before.state.ball && path.last() == after.state.ball
                &&& after.state.cursor == before.state.cursor
            },
{
    lemma_undisturbed_steps(
        physics,
        old(game).players@,
        final(game).players@,
        old(game).settings,
        steps@,
    );
}

/// The players that a single step leaves behind: who is alive has been touched neither by the
/// wall nor by a ball that may kill, and who has died has been touched by one of these.
///
/// The balls are those after the step. A player's own ball only kills if that setting is on.
proof fn lemma_deaths_have_causes<M, C, W, T>(
    physics: Physics<M, C, W, T>,
    before: Map<PlayerId, Player>,
    after: Map<PlayerId, Player>,
    settings: GameSettings,
    dt: Real,
) where
    M: Fn(PlayerState, GameSettings, Real) -> Ball,
    C: Fn(Ball, Ball, GameSettings) -> Option<(Ball, Ball)>,
    W: Fn(Ball, GameSettings) -> Option<Ball>,
    T: Fn(Point, Ball, GameSettings) -> bool,

    requires
        physics.stepped(before, after, settings, dt),
    ensures
        after.dom() == before.dom(),
        forall|id: PlayerId, owner: PlayerId|
            #![trigger before.contains_key(id), before.contains_key(owner)]
            before.contains_key(id) && before.contains_key(owner) && (id != owner
                || settings.kill_own_cursor) && after[id].state.cursor is Some ==> call_ensures(
                physics.touch,
                (after[id].state.cursor->0, after[owner].state.ball, settings),
                false,
            ),
        forall|id: PlayerId| #[trigger]
            before.contains_key(id) && after[id].state.cursor is Some ==> {
                &&& after[id].state.cursor == before[id].state.cursor
                &&& call_ensures(physics.wall, (after[id].state.ball, settings), None)
            },
        forall|id: PlayerId| #[trigger]
            before.contains_key(id) && before[id].state.cursor is Some && after[id].state.cursor
                is None ==> {
                ||| exists|ball: Ball| #[trigger]
                    call_ensures(physics.wall, (ball, settings), Some(after[id].state.ball))
                ||| exists|owner: PlayerId|
                    #![trigger before.contains_key(owner)]
                    before.contains_key(owner) && (id != owner || settings.kill_own_cursor)
                        && call_ensures(
                        physics.touch,
                        (before[id].state.cursor->0, after[owner].state.ball, settings),
                        true,
                    )
            },
        forall|id: PlayerId| #[trigger]
            before.contains_key(id) ==> {
                ||| call_ensures(physics.wall, (after[id].state.ball, settings), None)
                ||| after[id].state.cursor is None && exists|ball: Ball| #[trigger]
                    call_ensures(physics.wall, (ball, settings), Some(after[id].state.ball))
            },
{
    let (moved, collided, walled, hits) = choose|
        moved: Map<PlayerId, Player>,
        collided: Map<PlayerId, Player>,
        walled: Map<PlayerId, Player>,
        hits: Set<(PlayerId, PlayerId)>,
    | #[trigger]
        physics.phases(before, moved, collided, walled, hits, after, settings, dt);
    let contacts = choose|contacts: Seq<Contact>| #[trigger]
        physics.checked_all(moved, settings, contacts) && collided == bounced(moved, contacts);
    lemma_bounce_keeps(moved, contacts);
    assert forall|id: PlayerId| #[trigger] before.contains_key(id) implies {
        &&& physics.walled(collided[id], walled[id], settings)
        &&& collided[id].state.cursor == before[id].state.cursor
        &&& walled.contains_key(id)
        &&& after[id].state.ball == walled[id].state.ball
    } by {
        assert(moved.contains_key(id));
        assert(collided.contains_key(id));
        assert(same_but_ball(moved[id], collided[id]));
        assert(walled.contains_key(id));
    }
    assert forall|id: PlayerId, owner: PlayerId|
        #![trigger before.contains_key(id), before.contains_key(owner)]
        before.contains_key(id) && before.contains_key(owner) && (id != owner
            || settings.kill_own_cursor) && after[id].state.cursor is Some implies call_ensures(
        physics.touch,
        (after[id].state.cursor->0, after[owner].state.ball, settings),
        false,
    ) by {
        assert(may_kill(walled, settings, id, owner));
        assert(!hits.contains((id, owner)));
    }
    assert forall|id: PlayerId| #[trigger]
        before.contains_key(id) && before[id].state.cursor is Some && after[id].state.cursor
            is None implies {
        ||| exists|ball: Ball| #[trigger]
            call_ensures(physics.wall, (ball, settings), Some(after[id].state.ball))
        ||| exists|owner: PlayerId|
            #![trigger before.contains_key(owner)]
            before.contains_key(owner) && (id != owner || settings.kill_own_cursor)
                && call_ensures(
                physics.touch,
                (before[id].state.cursor->0, after[owner].state.ball, settings),
                true,
            )
    } by {
        if walled[id].state.cursor is Some {
            assert(is_hit(walled, settings, id, hits));
            let owner = choose|owner: PlayerId|
                may_kill(walled, settings, id, owner) && #[trigger] hits.contains((id, owner));
            assert(before.contains_key(owner));
        }
    }
}

/// While a round runs, players die by the wall and by balls that touch their cursors, and by
/// nothing else.
///
/// After a tick of one step, a player who is alive has a ball that is not at the wall, and a
/// cursor that no ball touches which may kill the player; a player who has died has a ball that
/// has bounced off the wall, or had a cursor that such a ball touches. The own ball only kills if
/// that setting is on. Nobody comes back to life.
pub proof fn law_deaths_have_causes<M, C, W, T>(
    game: &mut Game,
    elapsed: Real,
    dt: Real,
    steps: Vec<Real>,
    physics: Physics<M, C, W, T>,
    events: Vec<Event>,
) where
    M: Fn(PlayerState, GameSettings, Real) -> Ball,
    C: Fn(Ball, Ball, GameSettings) -> Option<(Ball, Ball)>,
    W: Fn(Ball, GameSettings) -> Option<Ball>,
    T: Fn(Point, Ball, GameSettings) -> bool,

    requires
        call_ensures(Game::tick::<M, C, W, T>, (game, elapsed, &steps, &physics), events),
        old(game).round == RoundState::Round || (old(game).round == RoundState::RoundEnd
            && elapsed.bits <= 0x4000_0000),
        steps@ == seq![dt],
    ensures
        final(game).players@.dom() == old(game).players@.dom(),
        forall|id: PlayerId, owner: PlayerId|
            #![trigger old(game).players@.contains_key(id), old(game).players@.contains_key(owner)]
            old(game).players@.contains_key(id) && old(game).players@.contains_key(owner) && (id
                != owner || old(game).settings.kill_own_cursor)
                && final(game).players@[id].state.cursor is Some ==> call_ensures(
                physics.touch,
                (
                    final(game).players@[id].state.cursor->0,
                    final(game).players@[owner].state.ball,
                    old(game).settings,
                ),
                false,
            ),
        forall|id: PlayerId| #[trigger]
            old(game).players@.contains_key(id) ==> {
                let settings = old(game).settings;
                let before = old(game).players@[id].state;
                let after = final(game).players@[id].state;
                &&& after.cursor is Some ==> after.cursor == before.cursor && call_ensures(
                    physics.wall,
                    (after.ball, settings),
                    None,
                )
                &&& after.cursor is None && before.cursor is Some ==> {
                    ||| exists|ball: Ball| #[trigger]
                        call_ensures(physics.wall, (ball, settings), Some(after.ball))
                    ||| exists|owner: PlayerId|
                        #![trigger old(game).players@.contains_key(owner)]
                        old(game).players@.contains_key(owner) && (id != owner
                            || settings.kill_own_cursor) && call_ensures(
                            physics.touch,
                            (before.cursor->0, final(game).players@[owner].state.ball, settings),
                            true,
                        )
                }
                &&& {
                    ||| call_ensures(physics.wall, (after.ball, settings), None)
                    ||| after.cursor is None && exists|ball: Ball| #[trigger]
                        call_ensures(physics.wall, (ball, settings), Some(after.ball))
                }
            },
{
    let before = old(game).players@;
    let after = final(game).players@;
    let settings = old(game).settings;
    lemma_single_step(physics, before, after, settings, steps@, dt);
    lemma_deaths_have_causes(physics, before, after, settings, dt);
}

proof fn lemma_single_step<M, C, W, T>(
    physics: Physics<M, C, W, T>,
    before: Map<PlayerId, Player>,
    after: Map<PlayerId, Player>,
    settings: GameSettings,
    steps: Seq<Real>,
    dt: Real,
) where
    M: Fn(PlayerState, GameSettings, Real) -> Ball,
    C: Fn(Ball, Ball, GameSettings) -> Option<(Ball, Ball)>,
    W: Fn(Ball, GameSettings) -> Option<Ball>,
    T: Fn(Point, Ball, GameSettings) -> bool,

    requires
        physics.simulated(before, after, settings, steps),
        steps == seq![dt],
    ensures
        physics.stepped(before, after, settings, dt),
{
    let middle = choose|middle: Map<PlayerId, Player>|
        physics.simulated(before, middle, settings, steps.drop_last()) && #[trigger] physics.stepped(
            middle,
            after,
            settings,
            steps.last(),
        );
    assert(middle == before);
}

/// Whether two balls cannot be in contact.
pub open spec fn never_meet<C: Fn(Ball, Ball, GameSettings) -> Option<(Ball, Ball)>>(
    contact: C,
    a: Ball,
    b: Ball,
    settings: GameSettings,
) -> bool {
    forall|outcome: Option<(Ball, Ball)>| #[trigger]
        call_ensures(contact, (a, b, settings), outcome) ==> outcome is None
}

/// Whether the balls of two players, the one with the lesser id first, cannot be in contact.
pub open spec fn apart<C: Fn(Ball, Ball, GameSettings) -> Option<(Ball, Ball)>>(
    contact: C,
    balls: Map<PlayerId, Ball>,
    settings: GameSettings,
    a: PlayerId,
    b: PlayerId,
) -> bool {
    if a < b {
        never_meet(contact, balls[a], balls[b], settings)
    } else {
        never_meet(contact, balls[b], balls[a], settings)
    }
}

/// Whether two balls cannot be in contact with any third one.
pub open spec fn touch_no_third<C: Fn(Ball, Ball, GameSettings) -> Option<(Ball, Ball)>>(
    contact: C,
    balls: Map<PlayerId, Ball>,
    ids: Set<PlayerId>,
    settings: GameSettings,
    a: PlayerId,
    b: PlayerId,
) -> bool {
    forall|c: PlayerId| #[trigger]
        ids.contains(c) && c != a && c != b ==> apart(contact, balls, settings, a, c) && apart(
            contact,
            balls,
            settings,
            b,
            c,
        )
}

/// Whether these may be the balls of all players after they have moved by themselves.
pub open spec fn all_move<M: Fn(PlayerState, GameSettings, Real) -> Ball>(
    motion: M,
    players: Map<PlayerId, Player>,
    balls: Map<PlayerId, Ball>,
    settings: GameSettings,
    dt: Real,
) -> bool {
    forall|id: PlayerId| #[trigger]
        players.contains_key(id) ==> balls.contains_key(id) && call_ensures(
            motion,
            (players[id].state, settings, dt),
            balls[id],
        )
}

proof fn lemma_lone_pair(
    players: Map<PlayerId, Player>,
    contacts: Seq<Contact>,
    i: int,
    a: PlayerId,
    b: PlayerId,
)
    requires
        a != b,
        forall|j: int|
            0 <= j < contacts.len() && j != i && (#[trigger] contacts[j]).outcome is Some ==> {
                &&& contacts[j].a != a && contacts[j].a != b
                &&& contacts[j].b != a && contacts[j].b != b
            },
        0 <= i < contacts.len() ==> contacts[i].a == a && contacts[i].b == b,
    ensures
        ({
            let after = bounced(players, contacts);
            (after[a].state.ball, after[b].state.ball) == (if 0 <= i < contacts.len()
                && contacts[i].outcome is Some {
                contacts[i].outcome->0
            } else {
                (players[a].state.ball, players[b].state.ball)
            })
        }),
    decreases contacts.len(),
{
    if contacts.len() > 0 {
        let earlier = contacts.drop_last();
        assert forall|j: int|
            0 <= j < earlier.len() && j != i && (
            #[trigger] earlier[j]).outcome is Some implies {
            &&& earlier[j].a != a && earlier[j].a != b
            &&& earlier[j].b != a && earlier[j].b != b
        } by {
            assert(earlier[j] == contacts[j]);
        }
        lemma_lone_pair(players, earlier, i, a, b);
        assert(contacts.last() == contacts[contacts.len() - 1]);
        if 0 <= i < earlier.len() {
            assert(earlier[i] == contacts[i]);
        }
    }
}

/// The balls that players have, by id.
spec fn balls_of(players: Map<PlayerId, Player>) -> Map<PlayerId, Ball> {
    players.map_values(|player: Player| player.state.ball)
}

proof fn lemma_pair_bounces<M, C, W, T>(
    physics: Physics<M, C, W, T>,
    players: Map<PlayerId, Player>,
    contacts: Seq<Contact>,
    settings: GameSettings,
    a: PlayerId,
    b: PlayerId,
) -> (outcome: Option<(Ball, Ball)>) where
    M: Fn(PlayerState, GameSettings, Real) -> Ball,
    C: Fn(Ball, Ball, GameSettings) -> Option<(Ball, Ball)>,
    W: Fn(Ball, GameSettings) -> Option<Ball>,
    T: Fn(Point, Ball, GameSettings) -> bool,

    requires
        physics.checked_all(players, settings, contacts),
        a < b,
        players.contains_key(a),
        players.contains_key(b),
        touch_no_third(physics.contact, balls_of(players), players.dom(), settings, a, b),
    ensures
        call_ensures(
            physics.contact,
            (players[a].state.ball, players[b].state.ball, settings),
            outcome,
        ),
        ({
            let after = bounced(players, contacts);
            (after[a].state.ball, after[b].state.ball) == (match outcome {
                Some(both) => both,
                None => (players[a].state.ball, players[b].state.ball),
            })
        }),
{
    let balls = balls_of(players);
    let i = choose|i: int|
        0 <= i < contacts.len() && (#[trigger] contacts[i]).a == a && contacts[i].b == b;
    assert forall|j: int|
        0 <= j < contacts.len() && j != i && (#[trigger] contacts[j]).outcome is Some implies {
        &&& contacts[j].a != a && contacts[j].a != b
        &&& contacts[j].b != a && contacts[j].b != b
    } by {
        let other = contacts[j];
        assert(players.dom().contains(other.a) && players.dom().contains(other.b));
        assert(balls[other.a] == players[other.a].state.ball);
        assert(balls[other.b] == players[other.b].state.ball);
        assert(call_ensures(
            physics.contact,
            (balls[other.a], balls[other.b], settings),
            other.outcome,
        ));
        assert(other.a != contacts[i].a || other.b != contacts[i].b);
        if other.a == a || other.a == b {
            assert(apart(physics.contact, balls, settings, other.a, other.b) || other.b == a
                || other.b == b);
        }
        if other.b == a || other.b == b {
            assert(apart(physics.contact, balls, settings, other.b, other.a) || other.a == a
                || other.a == b);
        }
    }
    lemma_lone_pair(players, contacts, i, a, b);
    contacts[i].outcome
}

/// While a round runs, every two balls that touch bounce off each other, whoever they belong to.
///
/// After all balls have moved by themselves in a tick of one step, away from the wall, take any
/// two that touch no third one: they end up as they bounce off each other if they touch, and where
/// they have moved if they do not.
pub proof fn law_pairs_bounce<M, C, W, T>(
    game: &mut Game,
    elapsed: Real,
    dt: Real,
    steps: Vec<Real>,
    physics: Physics<M, C, W, T>,
    events: Vec<Event>,
) where
    M: Fn(PlayerState, GameSettings, Real) -> Ball,
    C: Fn(Ball, Ball, GameSettings) -> Option<(Ball, Ball)>,
    W: Fn(Ball, GameSettings) -> Option<Ball>,
    T: Fn(Point, Ball, GameSettings) -> bool,

    requires
        call_ensures(Game::tick::<M, C, W, T>, (game, elapsed, &steps, &physics), events),
        old(game).round == RoundState::Round || (old(game).round == RoundState::RoundEnd
            && elapsed.bits <= 0x4000_0000),
        steps@ == seq![dt],
        never_at_wall(physics.wall),
    ensures
        exists|balls: Map<PlayerId, Ball>| #[trigger]
            all_move(physics.motion, old(game).players@, balls, old(game).settings, dt) && (forall|
                a: PlayerId,
                b: PlayerId,
            |
                a < b && old(game).players@.contains_key(a) && old(game).players@.contains_key(b)
                    && #[trigger] touch_no_third(
                    physics.contact,
                    balls,
                    old(game).players@.dom(),
                    old(game).settings,
                    a,
                    b,
                ) ==> exists|outcome: Option<(Ball, Ball)>| #[trigger]
                    call_ensures(
                        physics.contact,
                        (balls[a], balls[b], old(game).settings),
                        outcome,
                    ) && (final(game).players@[a].state.ball, final(game).players@[b].state.ball)
                        == (match outcome {
                        Some(both) => both,
                        None => (balls[a], balls[b]),
                    })),
{
    let before = old(game).players@;
    let after = final(game).players@;
    let settings = old(game).settings;
    lemma_single_step(physics, before, after, settings, steps@, dt);
    let (moved, collided, walled, hits) = choose|
        moved: Map<PlayerId, Player>,
        collided: Map<PlayerId, Player>,
        walled: Map<PlayerId, Player>,
        hits: Set<(PlayerId, PlayerId)>,
    | #[trigger]
        physics.phases(before, moved, collided, walled, hits, after, settings, dt);
    let contacts = choose|contacts: Seq<Contact>| #[trigger]
        physics.checked_all(moved, settings, contacts) && collided == bounced(moved, contacts);
    let balls = balls_of(moved);
    lemma_bounce_keeps(moved, contacts);
    assert(all_move(physics.motion, before, balls, settings, dt)) by {
        assert forall|id: PlayerId| #[trigger] before.contains_key(id) implies balls.contains_key(id)
            && call_ensures(physics.motion, (before[id].state, settings, dt), balls[id]) by {
            assert(moved.contains_key(id));
        }
    }
    assert forall|a: PlayerId, b: PlayerId|
        a < b && before.contains_key(a) && before.contains_key(b) && #[trigger] touch_no_third(
            physics.contact,
            balls,
            before.dom(),
            settings,
            a,
            b,
        ) implies exists|outcome: Option<(Ball, Ball)>| #[trigger]
        call_ensures(physics.contact, (balls[a], balls[b], settings), outcome) && (
        after[a].state.ball, after[b].state.ball) == (match outcome {
            Some(both) => both,
            None => (balls[a], balls[b]),
        }) by {
        assert(moved.dom() == before.dom());
        assert(moved.contains_key(a) && moved.contains_key(b));
        let outcome = lemma_pair_bounces(physics, moved, contacts, settings, a, b);
        assert(call_ensures(physics.contact, (balls[a], balls[b], settings), outcome));
        lemma_away_from_wall(physics, collided, walled, after, settings, hits, a);
        lemma_away_from_wall(physics, collided, walled, after, settings, hits, b);
    }
}

proof fn lemma_away_from_wall<M, C, W, T>(
    physics: Physics<M, C, W, T>,
    collided: Map<PlayerId, Player>,
    walled: Map<PlayerId, Player>,
    after: Map<PlayerId, Player>,
    settings: GameSettings,
    hits: Set<(PlayerId, PlayerId)>,
    id: PlayerId,
) where
    M: Fn(PlayerState, GameSettings, Real) -> Ball,
    C: Fn(Ball, Ball, GameSettings) -> Option<(Ball, Ball)>,
    W: Fn(Ball, GameSettings) -> Option<Ball>,
    T: Fn(Point, Ball, GameSettings) -> bool,

    requires
        physics.walled_all(collided, walled, settings),
        physics.hit_by(walled, after, settings, hits),
        never_at_wall(physics.wall),
        collided.contains_key(id),
    ensures
        after[id].state.ball == collided[id].state.ball,
{
    assert(physics.walled(collided[id], walled[id], settings));
    assert(walled.contains_key(id));
}

/// Whether two different players are alive.
pub open spec fn two_alive(players: Map<PlayerId, Player>) -> bool {
    exists|a: PlayerId, b: PlayerId|
        #![trigger players.contains_key(a), players.contains_key(b)]
        a != b && players.contains_key(a) && players.contains_key(b)
            && players[a].state.cursor is Some && players[b].state.cursor is Some
}

/// Round states take turns by the clock: three seconds of waiting, a round for as long as two
/// players are alive, two seconds of its end, and one second of its winner.
///
/// A state ends when it has lasted longer than that. The clock then starts again from nothing, and
/// the only event there is tells of the new state; otherwise there is none, and the clock goes on.
/// In a lobby, while waiting, and while a winner is shown, nothing happens to the players.
pub proof fn law_rounds_take_turns<M, C, W, T>(
    game: &mut Game,
    elapsed: Real,
    steps: Vec<Real>,
    physics: Physics<M, C, W, T>,
    events: Vec<Event>,
) where
    M: Fn(PlayerState, GameSettings, Real) -> Ball,
    C: Fn(Ball, Ball, GameSettings) -> Option<(Ball, Ball)>,
    W: Fn(Ball, GameSettings) -> Option<Ball>,
    T: Fn(Point, Ball, GameSettings) -> bool,

    requires
        call_ensures(Game::tick::<M, C, W, T>, (game, elapsed, &steps, &physics), events),
    ensures
        final(game).settings == old(game).settings,
        final(game).next_id == old(game).next_id,
        match old(game).round {
            RoundState::Lobby => {
                &&& final(game).round == RoundState::Lobby
                &&& final(game).players@ == old(game).players@
            },
            RoundState::Waiting => if 0x4040_0000 < elapsed.bits <= 0x7f80_0000 {
                final(game).round == (if two_alive(final(game).players@) {
                    RoundState::Round
                } else {
                    RoundState::RoundEnd
                })
            } else {
                &&& final(game).round == RoundState::Waiting
                &&& final(game).players@ == old(game).players@
            },
            RoundState::Round => final(game).round == (if two_alive(final(game).players@) {
                RoundState::Round
            } else {
                RoundState::RoundEnd
            }),
            RoundState::RoundEnd => if 0x4000_0000 < elapsed.bits <= 0x7f80_0000 {
                &&& final(game).round is Winner
                &&& final(game).players@ == old(game).players@
                &&& match final(game).round->Winner_0 {
                    Some(id) => {
                        &&& final(game).players@.contains_key(id)
                        &&& final(game).players@[id].state.cursor is Some
                    },
                    None => forall|id: PlayerId| #[trigger]
                        final(game).players@.contains_key(id)
                            ==> final(game).players@[id].state.cursor is None,
                }
            } else {
                final(game).round == RoundState::RoundEnd
            },
            RoundState::Winner(_) => {
                &&& final(game).players@ == old(game).players@
                &&& final(game).round == (if 0x3f80_0000 < elapsed.bits <= 0x7f80_0000 {
                    RoundState::Waiting
                } else {
                    old(game).round
                })
            },
        },
        if final(game).round == old(game).round {
            final(game).round_duration == elapsed && events@.len() == 0
        } else {
            &&& final(game).round_duration.bits == 0
            &&& events@ == seq![Event::RoundState(final(game).round)]
        },
{
    let players = final(game).players@;
    if two_alive(players) {
        let (a, b) = choose|a: PlayerId, b: PlayerId|
            #![trigger players.contains_key(a), players.contains_key(b)]
            a != b && players.contains_key(a) && players.contains_key(b)
                && players[a].state.cursor is Some && players[b].state.cursor is Some;
        assert(players.contains_key(a) && players.contains_key(b));
        assert(!one_or_less_alive(players));
    }
}

/// Whether round states have taken turns by the clock: three seconds of waiting, a round for as long
/// as two players are alive, two seconds of its end, and one second of its winner.
pub open spec fn turns_taken(before: Game, after: Game, elapsed: Real) -> bool {
    &&& after.settings == before.settings
    &&& after.next_id == before.next_id
    &&& match before.round {
        RoundState::Lobby => {
            &&& after.round == RoundState::Lobby
            &&& after.players@ == before.players@
        },
        RoundState::Waiting => if 0x4040_0000 < elapsed.bits <= 0x7f80_0000 {
            after.round == (if two_alive(after.players@) {
                RoundState::Round
            } else {
                RoundState::RoundEnd
            })
        } else {
            after.round == RoundState::Waiting && after.players@ == before.players@
        },
        RoundState::Round => after.round == (if two_alive(after.players@) {
            RoundState::Round
        } else {
            RoundState::RoundEnd
        }),
        RoundState::RoundEnd => if 0x4000_0000 < elapsed.bits <= 0x7f80_0000 {
            &&& after.round is Winner
            &&& after.players@ == before.players@
            &&& match after.round->Winner_0 {
                Some(id) => {
                    &&& after.players@.contains_key(id)
                    &&& after.players@[id].state.cursor is Some
                },
                None => forall|id: PlayerId| #[trigger]
                    after.players@.contains_key(id) ==> after.players@[id].state.cursor is None,
            }
        } else {
            after.round == RoundState::RoundEnd
        },
        RoundState::Winner(_) => {
            &&& after.players@ == before.players@
            &&& after.round == (if 0x3f80_0000 < elapsed.bits <= 0x7f80_0000 {
                RoundState::Waiting
            } else {
                before.round
            })
        },
    }
    &&& if after.round == before.round {
        after.round_duration == elapsed
    } else {
        after.round_duration.bits == 0
    }
}

/// A tick makes round states take turns, and tells of every change and of nothing else.
pub proof fn lemma_turns_taken<M, C, W, T>(
    before: Game,
    after: Game,
    elapsed: Real,
    round: RoundState,
    steps: Seq<Real>,
    physics: Physics<M, C, W, T>,
    events: Seq<Event>,
) where
    M: Fn(PlayerState, GameSettings, Real) -> Ball,
    C: Fn(Ball, Ball, GameSettings) -> Option<(Ball, Ball)>,
    W: Fn(Ball, GameSettings) -> Option<Ball>,
    T: Fn(Point, Ball, GameSettings) -> bool,

    requires
        after.settings == before.settings,
        after.next_id == before.next_id,
        enters(before, elapsed, round),
        ticked(before, after, elapsed, round, steps, physics, events),
    ensures
        turns_taken(before, after, elapsed),
        events == (if after.round == before.round {
            Seq::empty()
        } else {
            seq![Event::RoundState(after.round)]
        }),
{
    let players = after.players@;
    if two_alive(players) {
        let (a, b) = choose|a: PlayerId, b: PlayerId|
            #![trigger players.contains_key(a), players.contains_key(b)]
            a != b && players.contains_key(a) && players.contains_key(b)
                && players[a].state.cursor is Some && players[b].state.cursor is Some;
        assert(players.contains_key(a) && players.contains_key(b));
        assert(!one_or_less_alive(players));
    }
}

/// While a round runs, and while it ends, setting a cursor brings nobody back to life and moves no
/// ball: the cursor of a player who is alive is moved, and that is all.
pub proof fn law_cursor_during_round<B: Fn(Point, GameSettings) -> Ball>(
    game: &mut Game,
    id: PlayerId,
    cursor: Point,
    start: B,
    known: bool,
)
    requires
        call_ensures(Game::set_player_cursor::<B>, (game, id, cursor, &start), known),
        old(game).round == RoundState::Round || old(game).round == RoundState::RoundEnd,
    ensures
        known <==> old(game).players@.contains_key(id),
        final(game).players@.dom() == old(game).players@.dom(),
        forall|other: PlayerId| #[trigger]
            old(game).players@.contains_key(other) ==> {
                let before = old(game).players@[other];
                let after = final(game).players@[other];
                &&& after.state.cursor is Some <==> before.state.cursor is Some
                &&& after.state.ball == before.state.ball
                &&& after.static_state == before.static_state
                &&& after.hue == before.hue
                &&& after.state.cursor == (if other == id && before.state.cursor is Some {
                    Some(cursor)
                } else {
                    before.state.cursor
                })
            },
        final(game).round == old(game).round,
        final(game).round_duration == old(game).round_duration,
        final(game).settings == old(game).settings,
        final(game).next_id == old(game).next_id,
{
    assert(final(game).players@.dom() =~= old(game).players@.dom());
}

/// In a lobby, while waiting, and while a winner is shown, setting the cursor of a player brings it
/// to life there, with its ball in the starting state for that cursor. Nobody else is affected.
pub proof fn law_cursor_between_rounds<B: Fn(Point, GameSettings) -> Ball>(
    game: &mut Game,
    id: PlayerId,
    cursor: Point,
    start: B,
    known: bool,
)
    requires
        call_ensures(Game::set_player_cursor::<B>, (game, id, cursor, &start), known),
        old(game).round == RoundState::Lobby || old(game).round == RoundState::Waiting || old(
            game,
        ).round is Winner,
    ensures
        known <==> old(game).players@.contains_key(id),
        final(game).players@.dom() == old(game).players@.dom(),
        known ==> {
            let before = old(game).players@[id];
            let after = final(game).players@[id];
            &&& after.state.cursor == Some(cursor)
            &&& call_ensures(start, (cursor, old(game).settings), after.state.ball)
            &&& after.static_state == before.static_state
            &&& after.hue == before.hue
        },
        forall|other: PlayerId| #[trigger]
            old(game).players@.contains_key(other) && other != id ==> final(game).players@[other]
                == old(game).players@[other],
        final(game).round == old(game).round,
        final(game).round_duration == old(game).round_duration,
        final(game).settings == old(game).settings,
        final(game).next_id == old(game).next_id,
{
    assert(final(game).players@.dom() =~= old(game).players@.dom());
}

/// Setting a cursor twice in a row is the same as setting it to the second place, as far as the
/// cursor is concerned.
pub proof fn law_last_cursor_counts<B: Fn(Point, GameSettings) -> Ball>(
    first: &mut Game,
    second: &mut Game,
    id: PlayerId,
    a: Point,
    b: Point,
    start: B,
    known: bool,
)
    requires
        call_ensures(Game::set_player_cursor::<B>, (first, id, a, &start), known),
        call_ensures(Game::set_player_cursor::<B>, (second, id, b, &start), known),
        *old(second) == *final(first),
        known,
        old(first).players@[id].state.cursor is Some,
    ensures
        final(second).players@[id].state.cursor == Some(b),
{
}

/// A player who joins gets an id that nobody has had, is alive at the given cursor with its ball in
/// the starting state for that, and has the color of its hue. Everybody is told of it first.
///
/// The second player to join ends the lobby. Nobody else is affected.
pub proof fn law_joining<B: Fn(Point, GameSettings) -> Ball, L: Fn(u32) -> Color>(
    game: &mut Game,
    cursor: Point,
    hue: u32,
    start: B,
    color: L,
    result: (PlayerId, Vec<Event>),
)
    requires
        call_ensures(
            Game::add_player_with_hue::<B, L>,
            (game, cursor, hue, &start, &color),
            result,
        ),
    ensures
        !old(game).players@.contains_key(result.0),
        final(game).players@.contains_key(result.0),
        final(game).players@.remove(result.0) == old(game).players@,
        old(game).next_id <= result.0 < final(game).next_id,
        ({
            let player = final(game).players@[result.0];
            &&& player.state.cursor == Some(cursor)
            &&& call_ensures(start, (cursor, old(game).settings), player.state.ball)
            &&& player.hue == hue
            &&& call_ensures(color, (hue,), player.static_state.color)
            &&& result.1@.len() > 0
            &&& result.1@[0] == (Event::NewPlayer {
                id: result.0,
                static_state: player.static_state,
            })
        }),
        if old(game).round == RoundState::Lobby && old(game).players@.len() > 0 {
            &&& final(game).round == RoundState::Waiting
            &&& final(game).round_duration.bits == 0
            &&& result.1@.len() == 2
            &&& result.1@[1] == Event::RoundState(RoundState::Waiting)
        } else {
            &&& final(game).round == old(game).round
            &&& final(game).round_duration == old(game).round_duration
            &&& result.1@.len() == 1
        },
        final(game).settings == old(game).settings,
{
    assert(final(game).players@.remove(result.0) =~= old(game).players@);
}

/// A player who joins with a hue picked by the game is like one who joins with a given hue: alive
/// at the given cursor, and the only difference that there is between the players before and after.
pub proof fn law_joining_with_any_hue<B: Fn(Point, GameSettings) -> Ball, L: Fn(u32) -> Color>(
    game: &mut Game,
    cursor: Point,
    start: B,
    color: L,
    result: (PlayerId, Vec<Event>),
)
    requires
        call_ensures(Game::add_player::<B, L>, (game, cursor, &start, &color), result),
    ensures
        !old(game).players@.contains_key(result.0),
        final(game).players@.contains_key(result.0),
        final(game).players@.remove(result.0) == old(game).players@,
        old(game).next_id <= result.0 < final(game).next_id,
        ({
            let player = final(game).players@[result.0];
            &&& player.state.cursor == Some(cursor)
            &&& call_ensures(start, (cursor, old(game).settings), player.state.ball)
            &&& player.hue < 0x100_0000
            &&& call_ensures(color, (player.hue,), player.static_state.color)
            &&& result.1@.len() > 0
            &&& result.1@[0] == (Event::NewPlayer {
                id: result.0,
                static_state: player.static_state,
            })
        }),
        if old(game).round == RoundState::Lobby && old(game).players@.len() > 0 {
            &&& final(game).round == RoundState::Waiting
            &&& final(game).round_duration.bits == 0
            &&& result.1@.len() == 2
            &&& result.1@[1] == Event::RoundState(RoundState::Waiting)
        } else {
            &&& final(game).round == old(game).round
            &&& final(game).round_duration == old(game).round_duration
            &&& result.1@.len() == 1
        },
        final(game).settings == old(game).settings,
{
    assert(final(game).players@.remove(result.0) =~= old(game).players@);
}

/// A player who leaves is gone, and nobody else is. Everybody is told of it first. If less than two
/// players are left, they are back in a lobby whatever the round state was, and told of it next.
pub proof fn law_leaving(game: &mut Game, id: PlayerId, events: Vec<Event>)
    requires
        call_ensures(Game::remove_player, (game, id), events),
    ensures
        !final(game).players@.contains_key(id),
        forall|other: PlayerId|
            other != id ==> (#[trigger] final(game).players@.contains_key(other)
                <==> old(game).players@.contains_key(other)),
        forall|other: PlayerId| #[trigger]
            final(game).players@.contains_key(other) ==> final(game).players@[other] == old(
                game,
            ).players@[other],
        events@.len() > 0,
        events@[0] == Event::RemovePlayer(id),
        if final(game).players@.len() < 2 {
            &&& final(game).round == RoundState::Lobby
            &&& final(game).round_duration.bits == 0
            &&& events@.len() == 2
            &&& events@[1] == Event::RoundState(RoundState::Lobby)
        } else {
            &&& final(game).round == old(game).round
            &&& final(game).round_duration == old(game).round_duration
            &&& events@.len() == 1
        },
        final(game).settings == old(game).settings,
        final(game).next_id == old(game).next_id,
{
}

/// A player who joins and leaves at once leaves nothing behind: the players are the same as
/// before. But the id is not given out again.
pub proof fn law_joining_and_leaving<B: Fn(Point, GameSettings) -> Ball, L: Fn(u32) -> Color>(
    first: &mut Game,
    second: &mut Game,
    cursor: Point,
    start: B,
    color: L,
    joined: (PlayerId, Vec<Event>),
    left: Vec<Event>,
)
    requires
        call_ensures(Game::add_player::<B, L>, (first, cursor, &start, &color), joined),
        call_ensures(Game::remove_player, (second, joined.0), left),
        *old(second) == *final(first),
    ensures
        final(second).players@ == old(first).players@,
        final(second).settings == old(first).settings,
        joined.0 < final(second).next_id,
{
    assert(final(second).players@ =~= old(first).players@);
}

/// A snapshot holds the state of every player, and of nobody else.
pub proof fn law_snapshot_of_all(game: Game, snapshot: Snapshot)
    requires
        call_ensures(Game::snapshot, (&game,), snapshot),
    ensures
        forall|id: PlayerId| #[trigger]
            snapshot.players@.contains_key(id) <==> game.players@.contains_key(id),
        forall|id: PlayerId| #[trigger]
            game.players@.contains_key(id) ==> snapshot.players@[id] == game.players@[id].state,
{
}

/// A copy of what is unlikely to change holds the color of every player, and of nobody else.
pub proof fn law_colors_of_all(game: Game, copy: HashMap<PlayerId, StaticPlayerState>)
    requires
        call_ensures(Game::static_states, (&game,), copy),
    ensures
        forall|id: PlayerId| #[trigger]
            copy@.contains_key(id) <==> game.players@.contains_key(id),
        forall|id: PlayerId| #[trigger]
            game.players@.contains_key(id) ==> copy@[id] == game.players@[id].static_state,
{
}

/// Listing the players lists every one of them exactly once.
pub proof fn law_players_listed(game: Game, list: Vec<(PlayerId, Player)>)
    requires
        call_ensures(Game::players, (&game,), list),
    ensures
        forall|id: PlayerId, player: Player|
            list@.contains((id, player)) <==> #[trigger] game.players@.contains_pair(id, player),
        forall|i: int, j: int|
            0 <= i < j < list@.len() ==> (#[trigger] list@[i]).0 != (#[trigger] list@[j]).0,
{
    let ids = list@.map_values(|entry: (PlayerId, Player)| entry.0);
    assert forall|id: PlayerId, player: Player|
        list@.contains((id, player)) <==> #[trigger] game.players@.contains_pair(id, player) by {
        if list@.contains((id, player)) {
            let i = choose|i: int| 0 <= i < list@.len() && list@[i] == (id, player);
            assert(ids[i] == id);
            assert(ids.contains(id));
        }
        if game.players@.contains_pair(id, player) {
            assert(ids.contains(id));
            let i = choose|i: int| 0 <= i < ids.len() && ids[i] == id;
            assert(list@[i] == (id, player));
        }
    }
    assert forall|i: int, j: int| 0 <= i < j < list@.len() implies (#[trigger] list@[i]).0 != (
    #[trigger] list@[j]).0 by {
        assert(ids[i] == list@[i].0 && ids[j] == list@[j].0);
    }
}

/// Whether a ball has moved by itself, and then bounced off the wall if it was there.
pub open spec fn moves_within_walls<
    M: Fn(PlayerState, GameSettings, Real) -> Ball,
    W: Fn(Ball, GameSettings) -> Option<Ball>,
>(
    motion: M,
    wall: W,
    before: PlayerState,
    after: PlayerState,
    settings: GameSettings,
    dt: Real,
) -> bool {
    exists|moved: Ball| #[trigger]
        call_ensures(motion, (before, settings, dt), moved) && {
            ||| call_ensures(wall, (moved, settings), None) && after.ball == moved
            ||| call_ensures(wall, (moved, settings), Some(after.ball)) && after.cursor is None
        }
}

/// While a round runs and no balls are in contact, the ball of every player, dead or alive, moves by
/// itself and bounces off the wall where it gets there, which kills the player. Color and hue of all
/// players stay the same whatever happens to them.
pub proof fn law_walls_bounce<M, C, W, T>(
    game: &mut Game,
    elapsed: Real,
    dt: Real,
    steps: Vec<Real>,
    physics: Physics<M, C, W, T>,
    events: Vec<Event>,
) where
    M: Fn(PlayerState, GameSettings, Real) -> Ball,
    C: Fn(Ball, Ball, GameSettings) -> Option<(Ball, Ball)>,
    W: Fn(Ball, GameSettings) -> Option<Ball>,
    T: Fn(Point, Ball, GameSettings) -> bool,

    requires
        call_ensures(Game::tick::<M, C, W, T>, (game, elapsed, &steps, &physics), events),
        old(game).round == RoundState::Round || (old(game).round == RoundState::RoundEnd
            && elapsed.bits <= 0x4000_0000),
        steps@ == seq![dt],
        never_in_contact(physics.contact),
    ensures
        forall|id: PlayerId| #[trigger]
            old(game).players@.contains_key(id) ==> {
                let before = old(game).players@[id];
                let after = final(game).players@[id];
                &&& moves_within_walls(
                    physics.motion,
                    physics.wall,
                    before.state,
                    after.state,
                    old(game).settings,
                    dt,
                )
                &&& after.static_state == before.static_state
                &&& after.hue == before.hue
            },
{
    let before = old(game).players@;
    let after = final(game).players@;
    let settings = old(game).settings;
    lemma_single_step(physics, before, after, settings, steps@, dt);
    let (moved, collided, walled, hits) = choose|
        moved: Map<PlayerId, Player>,
        collided: Map<PlayerId, Player>,
        walled: Map<PlayerId, Player>,
        hits: Set<(PlayerId, PlayerId)>,
    | #[trigger]
        physics.phases(before, moved, collided, walled, hits, after, settings, dt);
    let contacts = choose|contacts: Seq<Contact>| #[trigger]
        physics.checked_all(moved, settings, contacts) && collided == bounced(moved, contacts);
    lemma_no_bounce(moved, contacts);
    assert forall|id: PlayerId| #[trigger] before.contains_key(id) implies {
        &&& moves_within_walls(
            physics.motion,
            physics.wall,
            before[id].state,
            after[id].state,
            settings,
            dt,
        )
        &&& after[id].static_state == before[id].static_state
        &&& after[id].hue == before[id].hue
    } by {
        assert(moved.contains_key(id));
        assert(physics.walled(moved[id], walled[id], settings));
        assert(walled.contains_key(id));
        assert(call_ensures(
            physics.motion,
            (before[id].state, settings, dt),
            moved[id].state.ball,
        ));
    }
}

/// However many steps a tick of a running round takes, who is alive after it has a ball that is not at
/// the wall and a cursor that is not touched by any ball which may kill the player.
pub proof fn law_survivors_are_untouched<M, C, W, T>(
    game: &mut Game,
    elapsed: Real,
    steps: Vec<Real>,
    physics: Physics<M, C, W, T>,
    events: Vec<Event>,
    id: PlayerId,
    owner: PlayerId,
) where
    M: Fn(PlayerState, GameSettings, Real) -> Ball,
    C: Fn(Ball, Ball, GameSettings) -> Option<(Ball, Ball)>,
    W: Fn(Ball, GameSettings) -> Option<Ball>,
    T: Fn(Point, Ball, GameSettings) -> bool,

    requires
        call_ensures(Game::tick::<M, C, W, T>, (game, elapsed, &steps, &physics), events),
        old(game).round == RoundState::Round || (old(game).round == RoundState::RoundEnd
            && elapsed.bits <= 0x4000_0000) || (old(game).round == RoundState::Waiting
            && 0x4040_0000 < elapsed.bits <= 0x7f80_0000),
        steps@.len() > 0,
        old(game).players@.contains_key(id),
        old(game).players@.contains_key(owner),
        final(game).players@[id].state.cursor is Some,
    ensures
        old(game).players@[id].state.cursor == final(game).players@[id].state.cursor,
        call_ensures(
            physics.wall,
            (final(game).players@[id].state.ball, old(game).settings),
            None,
        ),
        id != owner || old(game).settings.kill_own_cursor ==> call_ensures(
            physics.touch,
            (
                final(game).players@[id].state.cursor->0,
                final(game).players@[owner].state.ball,
                old(game).settings,
            ),
            false,
        ),
{
    let before = old(game).players@;
    let after = final(game).players@;
    let settings = old(game).settings;
    law_simulation_keeps(physics, before, after, settings, steps@);
    let middle = choose|middle: Map<PlayerId, Player>|
        physics.simulated(before, middle, settings, steps@.drop_last())
            && #[trigger] physics.stepped(middle, after, settings, steps@.last());
    law_simulation_keeps(physics, before, middle, settings, steps@.drop_last());
    lemma_deaths_have_causes(physics, middle, after, settings, steps@.last());
    assert(middle.contains_key(id) && middle.contains_key(owner));
}

/// A reference to a player is there exactly if there is such a player. It is to that player as it is,
/// and what is made of it is what the player is afterwards. Nothing else changes.
pub proof fn law_reference_to_player(game: &mut Game, id: PlayerId, result: Option<&mut Player>)
    requires
        call_ensures(Game::player_mut, (game, id), result),
    ensures
        result is Some <==> old(game).players@.contains_key(id),
        result is None ==> final(game).players@ == old(game).players@,
        match result {
            Some(player) => {
                &&& *player == old(game).players@[id]
                &&& final(game).players@.contains_key(id)
                &&& final(game).players@[id] == *final(player)
            },
            None => true,
        },
        forall|other: PlayerId|
            other != id ==> (#[trigger] final(game).players@.contains_key(other)
                <==> old(game).players@.contains_key(other)) && final(game).players@[other]
                == old(game).players@[other],
        final(game).round == old(game).round,
        final(game).settings == old(game).settings,
        final(game).next_id == old(game).next_id,
{
}

/// Asking a player for its state and its color gives these.
pub proof fn law_players_know_themselves(
    player: Player,
    shown: crate::game::client::Player,
    state: PlayerState,
    color: StaticPlayerState,
    shown_state: PlayerState,
    shown_color: StaticPlayerState,
)
    requires
        call_ensures(<Player as GetPlayer>::state, (&player,), state),
        call_ensures(<Player as GetPlayer>::static_state, (&player,), color),
        call_ensures(<crate::game::client::Player as GetPlayer>::state, (&shown,), shown_state),
        call_ensures(
            <crate::game::client::Player as GetPlayer>::static_state,
            (&shown,),
            shown_color,
        ),
    ensures
        state == player.state,
        color == player.static_state,
        shown_state == shown.state,
        shown_color == shown.static_state,
{
}

} // verus!
