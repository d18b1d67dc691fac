//! What colliding circles do, and what hues are like, said of the results of operations alone.

use vstd::prelude::*;

use crate::game::hue::{
    beats_all, best_candidate, clearance, hue_distance, hue_of_word, is_clearance, random_candidates,
    random_hue, wheel_distance,
};
use crate::game::physics::{
    ball, bounced, bounds, check_collision, contact, cursor, penetrated, resolve_collision,
    resolve_penetration, touch, wall, Circle, Mechanics, Static,
};
use crate::game::server::Game;
use crate::game::{
    clamp_cursor, step_dt, Ball, GameSettings, PlayerId, PlayerState, RoundState,
};
use crate::number::{Point, Real, Vector};

verus! {

broadcast use vstd::std_specs::hash::group_hash_axioms;

/// The boundary is a circle around the middle that balls are inside of, and cursors and balls are
/// circles that others are outside of. All have the radius that the settings say.
pub proof fn law_circles_of_the_game(
    settings: GameSettings,
    position: Point,
    state: Ball,
    boundary: Circle<Static>,
    pointer: Circle<Static>,
    moving: Circle<Vector>,
)
    requires
        call_ensures(bounds, (&settings,), boundary),
        call_ensures(cursor, (position, &settings), pointer),
        call_ensures(ball, (state, &settings), moving),
    ensures
        boundary.inner && !pointer.inner && !moving.inner,
        boundary.radius == settings.bounds_radius,
        pointer.radius == settings.cursor_radius,
        moving.radius == settings.ball_radius,
        boundary.center.x.bits == 0 && boundary.center.y.bits == 0,
        pointer.center == position,
        moving.center == state.position,
        moving.velocity == state.velocity,
{
}

/// The normals of a circle point outwards, unless it is one that others are inside of.
pub proof fn law_orientation<V>(circle: Circle<V>, orientation: Real)
    requires
        call_ensures(Circle::<V>::orientation, (&circle,), orientation),
    ensures
        circle.inner ==> orientation.bits == 0xbf80_0000,
        !circle.inner ==> orientation.bits == 0x3f80_0000,
{
}

/// Two circles that are outside of each other collide where their centers are nearer than the
/// limit, and a circle collides with one that it is inside of where they are further apart than
/// that. At the limit itself there is no collision, and the order of the two does not matter.
pub proof fn law_collision_by_distance<V1, V2>(
    a: Circle<V1>,
    b: Circle<V2>,
    distance_sq: Real,
    limit_sq: Real,
    collision: bool,
    swapped: bool,
)
    requires
        call_ensures(check_collision::<V1, V2>, (&a, &b, distance_sq, limit_sq), collision),
        call_ensures(check_collision::<V2, V1>, (&b, &a, distance_sq, limit_sq), swapped),
    ensures
        swapped == collision,
        distance_sq.bits <= 0x7f80_0000 && limit_sq.bits <= 0x7f80_0000 ==> collision == (
        if a.inner || b.inner {
            distance_sq.bits > limit_sq.bits
        } else {
            distance_sq.bits < limit_sq.bits
        }),
        distance_sq.bits == limit_sq.bits ==> !collision,
        distance_sq.bits % 0x8000_0000 > 0x7f80_0000 ==> !collision,
        limit_sq.bits % 0x8000_0000 > 0x7f80_0000 ==> !collision,
{
}

/// Whether a bit pattern is that of a number which is not negative.
pub open spec fn not_negative(number: Real) -> bool {
    number.bits <= 0x7f80_0000 || number.bits == 0x8000_0000
}

/// Circles are moved along their velocities by the solution of the equation if that has one, by no
/// more than five hundredths; otherwise they are moved along the normal.
pub proof fn law_moved_out_of_collision<V: Copy, Q, D, A, R, O, E>(
    a: &mut Circle<Vector>,
    b: &mut Circle<V>,
    mechanics: Mechanics<Q, D, A, R, O, E>,
    moved: Option<Real>,
) where
    Q: Fn(Circle<Vector>, Circle<V>) -> (Real, Real),
    D: Fn(Circle<Vector>, Circle<V>) -> (Real, Real),
    A: Fn(Circle<Vector>, Circle<V>, Real) -> (Circle<Vector>, Circle<V>),
    R: Fn(Circle<Vector>, Circle<V>, Real) -> (Circle<Vector>, Circle<V>),
    O: Fn(Circle<Vector>, Circle<V>) -> (Circle<Vector>, Circle<V>),
    E: Fn(Circle<Vector>, Circle<V>) -> (Circle<Vector>, Circle<V>),

    requires
        call_ensures(
            resolve_penetration::<V, Q, D, A, R, O, E>,
            (a, b, &mechanics),
            moved,
        ),
    ensures
        exists|solved: (Real, Real)| #[trigger]
            call_ensures(mechanics.equation, (*old(a), *old(b)), solved) && (if not_negative(
                solved.0,
            ) && solved.1.bits % 0x8000_0000 <= 0x3d4c_cccd {
                &&& moved == Some(solved.1)
                &&& call_ensures(
                    mechanics.advance,
                    (*old(a), *old(b), solved.1),
                    (*final(a), *final(b)),
                )
            } else {
                &&& moved is None
                &&& call_ensures(mechanics.offset, (*old(a), *old(b)), (*final(a), *final(b)))
            }),
{
    let solved = choose|solved: (Real, Real)| #[trigger]
        call_ensures(mechanics.equation, (*old(a), *old(b)), solved) && (if
        crate::game::physics::separable(solved.0, solved.1) {
            &&& moved == Some(solved.1)
            &&& call_ensures(
                mechanics.advance,
                (*old(a), *old(b), solved.1),
                (*final(a), *final(b)),
            )
        } else {
            &&& moved is None
            &&& call_ensures(mechanics.offset, (*old(a), *old(b)), (*final(a), *final(b)))
        });
    assert(call_ensures(mechanics.equation, (*old(a), *old(b)), solved));
}

/// Whether two colliding circles may end up like this: moved out of collision along their
/// velocities, bounced, and moved back by as much with the new velocities, if the equation has a
/// solution that is no more than five hundredths; otherwise moved along the normal.
pub open spec fn comes_apart<V, Q, D, A, R, O, E>(
    before: (Circle<Vector>, Circle<V>),
    after: (Circle<Vector>, Circle<V>),
    mechanics: Mechanics<Q, D, A, R, O, E>,
) -> bool where
    Q: Fn(Circle<Vector>, Circle<V>) -> (Real, Real),
    D: Fn(Circle<Vector>, Circle<V>) -> (Real, Real),
    A: Fn(Circle<Vector>, Circle<V>, Real) -> (Circle<Vector>, Circle<V>),
    R: Fn(Circle<Vector>, Circle<V>, Real) -> (Circle<Vector>, Circle<V>),
    O: Fn(Circle<Vector>, Circle<V>) -> (Circle<Vector>, Circle<V>),
    E: Fn(Circle<Vector>, Circle<V>) -> (Circle<Vector>, Circle<V>),
 {
    exists|solved: (Real, Real)| #[trigger]
        call_ensures(mechanics.equation, before, solved) && (if not_negative(solved.0)
            && solved.1.bits % 0x8000_0000 <= 0x3d4c_cccd {
            exists|apart: (Circle<Vector>, Circle<V>), faster: (Circle<Vector>, Circle<V>)|
                call_ensures(mechanics.advance, (before.0, before.1, solved.1), apart)
                    && #[trigger] call_ensures(mechanics.bounce, apart, faster) && call_ensures(
                    mechanics.retreat,
                    (faster.0, faster.1, solved.1),
                    after,
                )
        } else {
            call_ensures(mechanics.offset, before, after)
        })
}

/// Circles that do not collide stay as they are. Those that collide are moved out of collision; if
/// that was along their velocities, they bounce and are moved back with their new ones by as much.
///
/// Circles outside of each other collide where the distance is less than the limit, and inside
/// where it is more.
pub proof fn law_collision_resolved<V: Copy, Q, D, A, R, O, E>(
    a: &mut Circle<Vector>,
    b: &mut Circle<V>,
    mechanics: Mechanics<Q, D, A, R, O, E>,
    collision: bool,
) where
    Q: Fn(Circle<Vector>, Circle<V>) -> (Real, Real),
    D: Fn(Circle<Vector>, Circle<V>) -> (Real, Real),
    A: Fn(Circle<Vector>, Circle<V>, Real) -> (Circle<Vector>, Circle<V>),
    R: Fn(Circle<Vector>, Circle<V>, Real) -> (Circle<Vector>, Circle<V>),
    O: Fn(Circle<Vector>, Circle<V>) -> (Circle<Vector>, Circle<V>),
    E: Fn(Circle<Vector>, Circle<V>) -> (Circle<Vector>, Circle<V>),

    requires
        call_ensures(resolve_collision::<V, Q, D, A, R, O, E>, (a, b, &mechanics), collision),
    ensures
        !collision ==> *final(a) == *old(a) && *final(b) == *old(b),
        exists|found: (Real, Real)| #[trigger]
            call_ensures(mechanics.distances, (*old(a), *old(b)), found) && (found.0.bits
                <= 0x7f80_0000 && found.1.bits <= 0x7f80_0000 ==> collision == (if old(a).inner
                || old(b).inner {
                found.0.bits > found.1.bits
            } else {
                found.0.bits < found.1.bits
            })),
        collision ==> comes_apart((*old(a), *old(b)), (*final(a), *final(b)), mechanics),
{
    let before = (*old(a), *old(b));
    let after = (*final(a), *final(b));
    if collision {
        lemma_resolved(before, after, mechanics);
    }
}

proof fn lemma_resolved<V, Q, D, A, R, O, E>(
    before: (Circle<Vector>, Circle<V>),
    after: (Circle<Vector>, Circle<V>),
    mechanics: Mechanics<Q, D, A, R, O, E>,
) where
    Q: Fn(Circle<Vector>, Circle<V>) -> (Real, Real),
    D: Fn(Circle<Vector>, Circle<V>) -> (Real, Real),
    A: Fn(Circle<Vector>, Circle<V>, Real) -> (Circle<Vector>, Circle<V>),
    R: Fn(Circle<Vector>, Circle<V>, Real) -> (Circle<Vector>, Circle<V>),
    O: Fn(Circle<Vector>, Circle<V>) -> (Circle<Vector>, Circle<V>),
    E: Fn(Circle<Vector>, Circle<V>) -> (Circle<Vector>, Circle<V>),

    requires
        crate::game::physics::resolved(before, after, true, mechanics),
    ensures
        comes_apart(before, after, mechanics),
{
    let (apart, moved) = choose|apart: (Circle<Vector>, Circle<V>), moved: Option<Real>| #[trigger]
        penetrated(before, apart, moved, mechanics) && bounced(apart, after, moved, mechanics);
    let solved = choose|solved: (Real, Real)| #[trigger]
        call_ensures(mechanics.equation, before, solved) && (if crate::game::physics::separable(
            solved.0,
            solved.1,
        ) {
            &&& moved == Some(solved.1)
            &&& call_ensures(mechanics.advance, (before.0, before.1, solved.1), apart)
        } else {
            &&& moved is None
            &&& call_ensures(mechanics.offset, before, apart)
        });
    assert(call_ensures(mechanics.equation, before, solved));
    if moved is Some {
        let faster = choose|faster: (Circle<Vector>, Circle<V>)| #[trigger]
            call_ensures(mechanics.bounce, apart, faster) && call_ensures(
                mechanics.retreat,
                (faster.0, faster.1, moved->0),
                after,
            );
        assert(call_ensures(mechanics.bounce, apart, faster));
    }
}

/// Two balls bounce exactly if their centers are nearer than the limit, both taken as circles with
/// the radius of balls.
pub proof fn law_contact_by_distance<Q, D, A, R, O, E>(
    a: Ball,
    b: Ball,
    settings: GameSettings,
    mechanics: Mechanics<Q, D, A, R, O, E>,
    outcome: Option<(Ball, Ball)>,
) where
    Q: Fn(Circle<Vector>, Circle<Vector>) -> (Real, Real),
    D: Fn(Circle<Vector>, Circle<Vector>) -> (Real, Real),
    A: Fn(Circle<Vector>, Circle<Vector>, Real) -> (Circle<Vector>, Circle<Vector>),
    R: Fn(Circle<Vector>, Circle<Vector>, Real) -> (Circle<Vector>, Circle<Vector>),
    O: Fn(Circle<Vector>, Circle<Vector>) -> (Circle<Vector>, Circle<Vector>),
    E: Fn(Circle<Vector>, Circle<Vector>) -> (Circle<Vector>, Circle<Vector>),

    requires
        call_ensures(contact::<Q, D, A, R, O, E>, (a, b, &settings, &mechanics), outcome),
    ensures
        exists|found: (Real, Real)|
            #![trigger call_ensures(
                mechanics.distances,
                (round_ball(a, settings), round_ball(b, settings)),
                found,
            )]
            call_ensures(
                mechanics.distances,
                (round_ball(a, settings), round_ball(b, settings)),
                found,
            ) && (found.0.bits <= 0x7f80_0000 && found.1.bits <= 0x7f80_0000 ==> (outcome is Some
                <==> found.0.bits < found.1.bits)),
{
    let before = (round_ball(a, settings), round_ball(b, settings));
    assert(before == (
        crate::game::physics::ball_circle(a, settings),
        crate::game::physics::ball_circle(b, settings),
    ));
    let after = choose|after: (Circle<Vector>, Circle<Vector>)| #[trigger]
        crate::game::physics::resolved(before, after, outcome is Some, mechanics);
    let found = choose|found: (Real, Real)| #[trigger]
        call_ensures(mechanics.distances, before, found) && (outcome is Some)
            == crate::game::physics::colliding(before.0, before.1, found.0, found.1);
    assert(call_ensures(
        mechanics.distances,
        (round_ball(a, settings), round_ball(b, settings)),
        found,
    ));
}

/// The circle around a ball.
pub open spec fn round_ball(state: Ball, settings: GameSettings) -> Circle<Vector> {
    Circle {
        radius: settings.ball_radius,
        center: state.position,
        velocity: state.velocity,
        inner: false,
    }
}

/// A ball bounces off the boundary exactly if it is further from the middle than the limit, and
/// ends up where the circle around it does.
pub proof fn law_wall_by_distance<Q, D, A, R, O, E>(
    state: Ball,
    settings: GameSettings,
    mechanics: Mechanics<Q, D, A, R, O, E>,
    boundary: Circle<Static>,
    outcome: Option<Ball>,
) where
    Q: Fn(Circle<Vector>, Circle<Static>) -> (Real, Real),
    D: Fn(Circle<Vector>, Circle<Static>) -> (Real, Real),
    A: Fn(Circle<Vector>, Circle<Static>, Real) -> (Circle<Vector>, Circle<Static>),
    R: Fn(Circle<Vector>, Circle<Static>, Real) -> (Circle<Vector>, Circle<Static>),
    O: Fn(Circle<Vector>, Circle<Static>) -> (Circle<Vector>, Circle<Static>),
    E: Fn(Circle<Vector>, Circle<Static>) -> (Circle<Vector>, Circle<Static>),

    requires
        call_ensures(wall::<Q, D, A, R, O, E>, (state, &settings, &mechanics), outcome),
        boundary == (Circle {
            radius: settings.bounds_radius,
            center: Point { x: Real { bits: 0 }, y: Real { bits: 0 } },
            velocity: Static,
            inner: true,
        }),
    ensures
        exists|found: (Real, Real)|
            #![trigger call_ensures(
                mechanics.distances,
                (round_ball(state, settings), boundary),
                found,
            )]
            call_ensures(mechanics.distances, (round_ball(state, settings), boundary), found) && (
            found.0.bits <= 0x7f80_0000 && found.1.bits <= 0x7f80_0000 ==> (outcome is Some
                <==> found.0.bits > found.1.bits)),
        outcome is Some ==> exists|after: (Circle<Vector>, Circle<Static>)| #[trigger]
            comes_apart((round_ball(state, settings), boundary), after, mechanics)
                && outcome->0.position == after.0.center && outcome->0.velocity
                == after.0.velocity,
{
    assert(boundary == crate::game::physics::bounds_circle(settings));
    if outcome is Some {
        let after = choose|after: (Circle<Vector>, Circle<Static>)| #[trigger]
            crate::game::physics::resolved(
                (
                    crate::game::physics::ball_circle(state, settings),
                    crate::game::physics::bounds_circle(settings),
                ),
                after,
                outcome is Some,
                mechanics,
            ) && (outcome matches Some(bounced_ball) ==> bounced_ball
                == crate::game::physics::ball_of(after.0));
        lemma_resolved((round_ball(state, settings), boundary), after, mechanics);
    }
}

/// Two balls that touch end up where the circles around them do.
pub proof fn law_contact_resolves<Q, D, A, R, O, E>(
    a: Ball,
    b: Ball,
    settings: GameSettings,
    mechanics: Mechanics<Q, D, A, R, O, E>,
    outcome: Option<(Ball, Ball)>,
) where
    Q: Fn(Circle<Vector>, Circle<Vector>) -> (Real, Real),
    D: Fn(Circle<Vector>, Circle<Vector>) -> (Real, Real),
    A: Fn(Circle<Vector>, Circle<Vector>, Real) -> (Circle<Vector>, Circle<Vector>),
    R: Fn(Circle<Vector>, Circle<Vector>, Real) -> (Circle<Vector>, Circle<Vector>),
    O: Fn(Circle<Vector>, Circle<Vector>) -> (Circle<Vector>, Circle<Vector>),
    E: Fn(Circle<Vector>, Circle<Vector>) -> (Circle<Vector>, Circle<Vector>),

    requires
        call_ensures(contact::<Q, D, A, R, O, E>, (a, b, &settings, &mechanics), outcome),
        outcome is Some,
    ensures
        exists|after: (Circle<Vector>, Circle<Vector>)| #[trigger]
            comes_apart((round_ball(a, settings), round_ball(b, settings)), after, mechanics) && (
            outcome->0).0.position == after.0.center && (outcome->0).0.velocity
                == after.0.velocity && (outcome->0).1.position == after.1.center && (
            outcome->0).1.velocity == after.1.velocity,
{
    let before = (round_ball(a, settings), round_ball(b, settings));
    let after = choose|after: (Circle<Vector>, Circle<Vector>)| #[trigger]
        crate::game::physics::resolved(
            (
                crate::game::physics::ball_circle(a, settings),
                crate::game::physics::ball_circle(b, settings),
            ),
            after,
            outcome is Some,
            mechanics,
        ) && (outcome matches Some(balls) ==> balls == (
        crate::game::physics::ball_of(after.0), crate::game::physics::ball_of(after.1)));
    lemma_resolved(before, after, mechanics);
}

/// A cursor and a ball touch exactly if their centers are nearer than the limit, taken as circles
/// with the radius of cursors and that of balls.
pub proof fn law_touch_by_distance<Q: Fn(Circle<Static>, Circle<Vector>) -> (Real, Real)>(
    position: Point,
    state: Ball,
    settings: GameSettings,
    distances: Q,
    pointer: Circle<Static>,
    touching: bool,
)
    requires
        call_ensures(touch::<Q>, (position, state, &settings, &distances), touching),
        pointer == (Circle {
            radius: settings.cursor_radius,
            center: position,
            velocity: Static,
            inner: false,
        }),
    ensures
        exists|found: (Real, Real)|
            #![trigger call_ensures(distances, (pointer, round_ball(state, settings)), found)]
            call_ensures(distances, (pointer, round_ball(state, settings)), found) && (found.0.bits
                <= 0x7f80_0000 && found.1.bits <= 0x7f80_0000 ==> touching == (found.0.bits
                < found.1.bits)),
{
    assert(pointer == crate::game::physics::cursor_circle(position, settings));
}

/// A ball starts beyond its cursor, unless that is out of bounds: it is then pulled back. Its
/// velocity is the same either way.
pub proof fn law_ball_starts_within_bounds(
    beyond: Ball,
    distance_sq: Real,
    max_distance_sq: Real,
    bounded: Point,
    ball: Ball,
)
    requires
        call_ensures(Ball::starting, (beyond, distance_sq, max_distance_sq, bounded), ball),
        distance_sq.bits <= 0x7f80_0000,
        max_distance_sq.bits <= 0x7f80_0000,
    ensures
        ball.velocity == beyond.velocity,
        distance_sq.bits <= max_distance_sq.bits ==> ball.position == beyond.position,
        distance_sq.bits > max_distance_sq.bits ==> ball.position == bounded,
{
}

/// A cursor stays where it is within bounds, and is pulled back from out of them.
pub proof fn law_cursor_stays_within_bounds(
    position: Point,
    distance_sq: Real,
    max_distance_sq: Real,
    bounded: Point,
    clamped: Point,
)
    requires
        call_ensures(clamp_cursor, (position, distance_sq, max_distance_sq, bounded), clamped),
        distance_sq.bits <= 0x7f80_0000,
        max_distance_sq.bits <= 0x7f80_0000,
    ensures
        distance_sq.bits <= max_distance_sq.bits ==> clamped == position,
        distance_sq.bits > max_distance_sq.bits ==> clamped == bounded,
{
}

/// The ball of a player who is alive is pulled towards its cursor before it moves on; that of one
/// who is dead moves on as it is. The cursor stays.
pub proof fn law_balls_follow_cursors<P: Fn(Ball, Point) -> Vector, D: Fn(Ball) -> Point>(
    state: &mut PlayerState,
    pull: P,
    drift: D,
)
    requires
        call_ensures(PlayerState::tick::<P, D>, (state, pull, drift), ()),
    ensures
        final(state).cursor == old(state).cursor,
        old(state).cursor is None ==> final(state).ball.velocity == old(state).ball.velocity,
        old(state).cursor is Some ==> call_ensures(
            pull,
            (old(state).ball, old(state).cursor->0),
            final(state).ball.velocity,
        ),
        call_ensures(
            drift,
            (
                Ball {
                    position: old(state).ball.position,
                    velocity: final(state).ball.velocity,
                },
            ),
            final(state).ball.position,
        ),
{
}

/// Stepping a ball with a cursor is what stepping a player with that cursor makes of its ball.
pub proof fn law_ball_steps_like_player<P: Fn(Ball, Point) -> Vector, D: Fn(Ball) -> Point>(
    ball: &mut Ball,
    at: Option<Point>,
    pull: P,
    drift: D,
)
    requires
        call_ensures(Ball::tick::<P, D>, (ball, at, pull, drift), ()),
    ensures
        at is None ==> final(ball).velocity == old(ball).velocity,
        at is Some ==> call_ensures(pull, (*old(ball), at->0), final(ball).velocity),
        call_ensures(
            drift,
            (Ball { position: old(ball).position, velocity: final(ball).velocity },),
            final(ball).position,
        ),
{
}

/// Setting a cursor neither kills nor revives, and leaves the ball alone.
pub proof fn law_cursor_of_the_living(state: &mut PlayerState, at: Point, before: bool, after: bool)
    requires
        call_ensures(PlayerState::set_cursor, (state, at), ()),
        call_ensures(PlayerState::alive, (old(state),), before),
        call_ensures(PlayerState::alive, (final(state),), after),
    ensures
        before == after,
        before == (old(state).cursor is Some),
        before ==> final(state).cursor == Some(at),
        !before ==> final(state).cursor is None,
        final(state).ball == old(state).ball,
{
}

/// A new player is alive, with the given cursor and ball.
pub proof fn law_new_players_are_alive(at: Point, ball: Ball, state: PlayerState, alive: bool)
    requires
        call_ensures(PlayerState::new, (at, ball), state),
        call_ensures(PlayerState::alive, (&state,), alive),
    ensures
        alive,
        state.cursor == Some(at),
        state.ball == ball,
{
}

/// A round runs in its own state and while it ends, and in no other state.
pub proof fn law_running(round: RoundState, running: bool)
    requires
        call_ensures(RoundState::running, (round,), running),
    ensures
        round == RoundState::Round ==> running,
        round == RoundState::RoundEnd ==> running,
        round == RoundState::Lobby ==> !running,
        round == RoundState::Waiting ==> !running,
        round is Winner ==> !running,
{
}

/// An interval is stepped over in chunks of the greatest length, as often as that goes into it, and
/// then its rest.
pub proof fn law_steps_of_an_interval(times: usize, max: Real, rest: Real, steps: Vec<Real>)
    requires
        call_ensures(step_dt, (times, max, rest), steps),
    ensures
        steps@.len() == times + 1,
        forall|i: int| 0 <= i < times ==> #[trigger] steps@[i] == max,
        steps@[times as int] == rest,
{
}

/// The quantities that a game is played with unless they are changed.
pub proof fn law_default_settings(settings: GameSettings)
    requires
        call_ensures(<GameSettings as Default>::default, (), settings),
    ensures
        settings.ball_radius.bits == 0x3e19_999a,
        settings.cursor_radius.bits == 0x3d4c_cccd,
        settings.spring_constant.bits == 0x4100_0000,
        settings.ball_start_distance.bits == 0x3e99_999a,
        settings.ball_start_speed.bits == 0x3f80_0000,
        settings.bounds_radius.bits == 0x3f80_0000,
        !settings.kill_own_cursor,
{
}

/// A game starts as an empty lobby that has lasted for no time, with the default settings.
pub proof fn law_default_game(game: Game)
    requires
        call_ensures(<Game as Default>::default, (), game),
    ensures
        game.round == RoundState::Lobby,
        game.round_duration.bits == 0,
        forall|id: PlayerId| !#[trigger] game.players@.contains_key(id),
        game.next_id == 0,
        game.settings.ball_radius.bits == 0x3e19_999a,
        game.settings.cursor_radius.bits == 0x3d4c_cccd,
        game.settings.spring_constant.bits == 0x4100_0000,
        game.settings.ball_start_distance.bits == 0x3e99_999a,
        game.settings.ball_start_speed.bits == 0x3f80_0000,
        game.settings.bounds_radius.bits == 0x3f80_0000,
        !game.settings.kill_own_cursor,
{
}

/// The distance of two hues is the way around the wheel in the shorter direction.
pub proof fn law_shorter_way_around(a: u32, b: u32, distance: u32, back: u32)
    requires
        call_ensures(hue_distance, (a, b), distance),
        call_ensures(hue_distance, (b, a), back),
        a <= 0x100_0000,
        b <= 0x100_0000,
    ensures
        back == distance,
        a <= b ==> distance <= b - a && distance <= a + 0x100_0000 - b,
        b <= a ==> distance <= a - b && distance <= b + 0x100_0000 - a,
        distance == a - b || distance == b - a || distance == a + 0x100_0000 - b || distance == b
            + 0x100_0000 - a,
{
}

/// No taken hue is nearer than the clearance, and one is as near as that.
pub proof fn law_clearance_is_least(taken: Vec<u32>, hue: u32, distance: u32)
    requires
        call_ensures(clearance, (&taken, hue), distance),
        hue <= 0x100_0000,
    ensures
        forall|i: int, other: u32|
            #![trigger call_ensures(hue_distance, (hue, taken@[i]), other)]
            0 <= i < taken@.len() && call_ensures(hue_distance, (hue, taken@[i]), other) ==> distance
                <= other,
        exists|i: int|
            0 <= i < taken@.len() && {
                let direct = if hue >= #[trigger] taken@[i] {
                    hue - taken@[i]
                } else {
                    taken@[i] - hue
                };
                distance == direct || distance == 0x100_0000 - direct
            },
{
    let i = choose|i: int|
        0 <= i < taken@.len() && #[trigger] wheel_distance(hue as int, taken@[i] as int)
            == distance;
    assert(taken@[i] == taken@[i]);
}

/// The hue that is picked is one of the samples, and no other sample is further from the hues that
/// are taken. Of samples that are equally far, it is the last.
pub proof fn law_best_candidate_is_furthest(
    taken: Vec<u32>,
    samples: Vec<u32>,
    hue: u32,
    found: u32,
)
    requires
        call_ensures(best_candidate, (&taken, &samples), hue),
        call_ensures(clearance, (&taken, hue), found),
    ensures
        samples@.contains(hue),
        forall|i: int, other: u32|
            #![trigger call_ensures(clearance, (&taken, samples@[i]), other)]
            0 <= i < samples@.len() && call_ensures(clearance, (&taken, samples@[i]), other)
                ==> other <= found,
        exists|last: int|
            0 <= last < samples@.len() && #[trigger] samples@[last] == hue && forall|
                i: int,
                other: u32,
            |
                #![trigger call_ensures(clearance, (&taken, samples@[i]), other)]
                last < i < samples@.len() && call_ensures(clearance, (&taken, samples@[i]), other)
                    ==> other < found,
{
    let (last, distance) = choose|i: int, distance: int| #[trigger]
        beats_all(taken@, samples@, i, distance) && samples@[i] == hue;
    assert(distance == found) by {
        assert(is_clearance(taken@, hue, found as int));
        assert(is_clearance(taken@, hue, distance));
    }
    assert(samples@[last] == hue);
}

/// A new player gets the sample that is furthest from the hues of all players.
pub proof fn law_hue_furthest_from_players(game: Game, samples: Vec<u32>, hue: u32)
    requires
        call_ensures(Game::hue_among, (&game, &samples), hue),
    ensures
        samples@.contains(hue),
        forall|i: int|
            0 <= i < samples@.len() ==> nearest_at_most(
                game,
                #[trigger] samples@[i],
                hue,
            ),
{
    let ids = choose|ids: Seq<PlayerId>|
        crate::keys::lists_keys(ids, game.players@)
            && #[trigger] crate::game::hue::is_best_candidate(
            crate::game::server::hues(game.players@, ids),
            samples@,
            hue,
        );
    lemma_furthest(game, ids, samples@, hue);
}

proof fn lemma_furthest(game: Game, ids: Seq<PlayerId>, samples: Seq<u32>, hue: u32)
    requires
        crate::keys::lists_keys(ids, game.players@),
        crate::game::hue::is_best_candidate(
            crate::game::server::hues(game.players@, ids),
            samples,
            hue,
        ),
    ensures
        samples.contains(hue),
        forall|i: int|
            0 <= i < samples.len() ==> nearest_at_most(game, #[trigger] samples[i], hue),
{
    let taken = crate::game::server::hues(game.players@, ids);
    let (best, distance) = choose|i: int, distance: int| #[trigger]
        beats_all(taken, samples, i, distance) && samples[i] == hue;
    assert forall|i: int| 0 <= i < samples.len() implies nearest_at_most(
        game,
        #[trigger] samples[i],
        hue,
    ) by {
        lemma_clearance_exists(taken, samples[i]);
        let other = choose|other: int| is_clearance(taken, samples[i], other);
        assert(is_clearance(taken, samples[i], other));
        assert(other <= distance);
        let k = choose|k: int|
            0 <= k < taken.len() && #[trigger] wheel_distance(
                samples[i] as int,
                taken[k] as int,
            ) == other;
        let near = ids[k];
        assert(ids.contains(near));
        assert forall|id: PlayerId| #[trigger] game.players@.contains_key(id) implies around(
            samples[i] as int,
            game.players@[near].hue as int,
        ) <= around(hue as int, game.players@[id].hue as int) by {
            assert(ids.contains(id));
            let m = choose|m: int| 0 <= m < ids.len() && ids[m] == id;
            assert(distance <= wheel_distance(hue as int, taken[m] as int));
        }
        assert(game.players@.contains_key(near));
    }
}

/// The hue of a new player is on the wheel. If there are others, it is the one of four samples for each
/// of them that is furthest from the hues of all players.
pub proof fn law_picked_hue_is_furthest(game: Game, hue: u32)
    requires
        call_ensures(Game::pick_hue, (&game,), hue),
    ensures
        hue < 0x100_0000,
        game.players@.len() > 0 ==> exists|samples: Seq<u32>| #[trigger]
            samples.contains(hue) && samples.len() == 4 * game.players@.len() && forall|i: int|
                0 <= i < samples.len() ==> nearest_at_most(game, #[trigger] samples[i], hue),
{
    if game.players@.len() > 0 {
        let (ids, samples) = choose|ids: Seq<PlayerId>, samples: Seq<u32>|
            crate::keys::lists_keys(ids, game.players@) && samples.len() == 4 * game.players@.len()
                && #[trigger] crate::game::hue::is_best_candidate(
                crate::game::server::hues(game.players@, ids),
                samples,
                hue,
            );
        lemma_furthest(game, ids, samples, hue);
        assert(samples.contains(hue));
    }
}

/// The way between two hues around the wheel, in the shorter direction.
pub open spec fn around(a: int, b: int) -> int {
    let direct = if a <= b {
        b - a
    } else {
        a - b
    };
    if direct <= 0x100_0000 - direct {
        direct
    } else {
        0x100_0000 - direct
    }
}

/// Whether some player's hue is at most as far from the one hue as the nearest of all is from the
/// other.
pub open spec fn nearest_at_most(game: Game, one: u32, other: u32) -> bool {
    exists|near: PlayerId| #[trigger]
        game.players@.contains_key(near) && forall|id: PlayerId| #[trigger]
            game.players@.contains_key(id) ==> around(
                one as int,
                game.players@[near].hue as int,
            ) <= around(other as int, game.players@[id].hue as int)
}

proof fn lemma_clearance_exists(taken: Seq<u32>, hue: u32)
    requires
        taken.len() > 0,
    ensures
        exists|distance: int| is_clearance(taken, hue, distance),
    decreases taken.len(),
{
    let last = wheel_distance(hue as int, taken.last() as int);
    if taken.len() == 1 {
        assert(wheel_distance(hue as int, taken[0] as int) == last);
        assert(is_clearance(taken, hue, last));
    } else {
        let earlier = taken.drop_last();
        lemma_clearance_exists(earlier, hue);
        let distance = choose|distance: int| is_clearance(earlier, hue, distance);
        let k = choose|k: int|
            0 <= k < earlier.len() && #[trigger] wheel_distance(hue as int, earlier[k] as int)
                == distance;
        let least = if last < distance {
            last
        } else {
            distance
        };
        assert(wheel_distance(hue as int, taken[k] as int) == distance);
        assert(wheel_distance(hue as int, taken[taken.len() - 1] as int) == last);
        assert forall|i: int| 0 <= i < taken.len() implies least <= #[trigger] wheel_distance(
            hue as int,
            taken[i] as int,
        ) by {
            if i < earlier.len() {
                assert(distance <= wheel_distance(hue as int, earlier[i] as int));
            }
        }
        assert(is_clearance(taken, hue, least));
    }
}

/// A hue is the upper three bytes of a word: greater words give no lesser hues, and words with the
/// same upper bytes give the same.
pub proof fn law_hues_in_order_of_words(a: u32, b: u32, first: u32, second: u32)
    requires
        call_ensures(hue_of_word, (a,), first),
        call_ensures(hue_of_word, (b,), second),
        a <= b,
    ensures
        first <= second < 0x100_0000,
        a / 256 == b / 256 ==> first == second,
        first == a / 256,
{
}

/// Random hues are on the wheel, and there are four candidates for each player.
pub proof fn law_random_hues_on_the_wheel(hue: u32, players: usize, samples: Vec<u32>)
    requires
        call_ensures(random_hue, (), hue),
        call_ensures(random_candidates, (players,), samples),
    ensures
        hue < 0x100_0000,
        samples@.len() == 4 * players,
        forall|i: int| 0 <= i < samples@.len() ==> #[trigger] samples@[i] < 0x100_0000,
{
}

/// Settings are equal exactly if all quantities are equal as numbers, and it is the same whether
/// players can be killed by their own cursor.
pub proof fn law_equal_settings(
    a: GameSettings,
    b: GameSettings,
    equal: bool,
    ball_radius: bool,
    cursor_radius: bool,
    spring_constant: bool,
    ball_start_distance: bool,
    ball_start_speed: bool,
    bounds_radius: bool,
)
    requires
        call_ensures(<GameSettings as PartialEq>::eq, (&a, &b), equal),
        call_ensures(<Real as PartialEq>::eq, (&a.ball_radius, &b.ball_radius), ball_radius),
        call_ensures(<Real as PartialEq>::eq, (&a.cursor_radius, &b.cursor_radius), cursor_radius),
        call_ensures(
            <Real as PartialEq>::eq,
            (&a.spring_constant, &b.spring_constant),
            spring_constant,
        ),
        call_ensures(
            <Real as PartialEq>::eq,
            (&a.ball_start_distance, &b.ball_start_distance),
            ball_start_distance,
        ),
        call_ensures(
            <Real as PartialEq>::eq,
            (&a.ball_start_speed, &b.ball_start_speed),
            ball_start_speed,
        ),
        call_ensures(<Real as PartialEq>::eq, (&a.bounds_radius, &b.bounds_radius), bounds_radius),
    ensures
        equal <==> ball_radius && cursor_radius && spring_constant && ball_start_distance
            && ball_start_speed && bounds_radius && a.kill_own_cursor == b.kill_own_cursor,
{
}

/// A ball that is seen as a circle is still the same ball.
pub proof fn law_ball_as_circle(state: Ball, settings: GameSettings, circle: Circle<Vector>, same: Ball)
    requires
        call_ensures(ball, (state, &settings), circle),
        call_ensures(<Ball as From<Circle<Vector>>>::from, (circle,), same),
    ensures
        same == state,
{
}

/// Circles are as given, and detect collisions with the edge that is asked for.
pub proof fn law_edges<V>(radius: Real, center: Point, velocity: V, inner: Circle<V>, outer: Circle<V>)
    requires
        call_ensures(Circle::<V>::inner, (radius, center, velocity), inner),
        call_ensures(Circle::<V>::outer, (radius, center, velocity), outer),
    ensures
        inner.inner && !outer.inner,
        inner.radius == radius && outer.radius == radius,
        inner.center == center && outer.center == center,
        inner.velocity == velocity && outer.velocity == velocity,
{
}

/// No round is running at first.
pub proof fn law_no_round_at_first(round: RoundState, running: bool)
    requires
        call_ensures(<RoundState as Default>::default, (), round),
        call_ensures(RoundState::running, (round,), running),
    ensures
        round == RoundState::Lobby,
        !running,
{
}

} // verus!
