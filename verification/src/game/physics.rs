//! Collisions between circles.

use vstd::prelude::*;

use crate::game::{Ball, GameSettings};
use crate::number::{origin, spec_origin, Point, Real, Vector, MINUS_ONE, ONE};

verus! {

/// A circle that may collide with others.
#[derive(Debug, Copy, Clone)]
pub struct Circle<V> {
    pub radius: Real,
    pub center: Point,
    pub velocity: V,
    /// `true` indicates collision with the inside edge, `false` with
    /// the outside edge.
    pub inner: bool,
}

impl<V> Circle<V> {
    /// A circle which detects collisions with it's inner edge.
    pub fn inner(radius: Real, center: Point, velocity: V) -> (circle: Circle<V>)
        ensures
            circle == (Circle { radius, center, velocity, inner: true }),
    {
        Circle { radius, center, velocity, inner: true }
    }

    /// A circle which detects collisions with it's outer edge.
    pub fn outer(radius: Real, center: Point, velocity: V) -> (circle: Circle<V>)
        ensures
            circle == (Circle { radius, center, velocity, inner: false }),
    {
        Circle { radius, center, velocity, inner: false }
    }

    /// Returns the orientation of the normals as a scalar.
    ///
    /// `1` if outside, `-1` if inside.
    pub fn orientation(&self) -> (orientation: Real)
        ensures
            orientation.bits == (if self.inner {
                MINUS_ONE
            } else {
                ONE
            }),
    {
        if self.inner {
            Real { bits: MINUS_ONE }
        } else {
            Real { bits: ONE }
        }
    }
}

/// Indicates velocity a circle which is fixed in place.
#[derive(Debug, Copy, Clone)]
pub struct Static;

/// Returns the physics circle corresponding to the boundary.
pub fn bounds(settings: &GameSettings) -> (circle: Circle<Static>)
    ensures
        circle == bounds_circle(*settings),
{
    Circle::inner(settings.bounds_radius, origin(), Static)
}

/// Returns the physics circle corresponding to a given cursor
/// position.
pub fn cursor(position: Point, settings: &GameSettings) -> (circle: Circle<Static>)
    ensures
        circle == cursor_circle(position, *settings),
{
    Circle::outer(settings.cursor_radius, position, Static)
}

/// Returns the physics circle corresponding to a ball.
pub fn ball(state: Ball, settings: &GameSettings) -> (circle: Circle<Vector>)
    ensures
        circle == ball_circle(state, *settings),
{
    Circle::outer(settings.ball_radius, state.position, state.velocity)
}

impl From<Circle<Vector>> for Ball {
    fn from(circle: Circle<Vector>) -> (ball: Ball) {
        Ball { position: circle.center, velocity: circle.velocity }
    }
}

impl vstd::std_specs::convert::FromSpecImpl<Circle<Vector>> for Ball {
    open spec fn obeys_from_spec() -> bool {
        true
    }

    open spec fn from_spec(circle: Circle<Vector>) -> Ball {
        Ball { position: circle.center, velocity: circle.velocity }
    }
}

/// Whether two circles collide, where `distance_sq` is the squared distance
/// between their centers and `limit_sq` the square of the distance that they
/// collide at.
pub open spec fn colliding<V1, V2>(
    a: Circle<V1>,
    b: Circle<V2>,
    distance_sq: Real,
    limit_sq: Real,
) -> bool {
    if a.inner || b.inner {
        limit_sq.below(distance_sq)
    } else {
        distance_sq.below(limit_sq)
    }
}

/// Check for collision between two circles.
///
/// This one is very straightforward:
///
/// |a.center - b.center| < collision_distance
///
/// This equation can be checked directly, but squaring both sides
/// avoids an expensive square root. Circles on the inside of another collide
/// with it where they are too far from its center instead.
pub fn check_collision<V1, V2>(
    a: &Circle<V1>,
    b: &Circle<V2>,
    distance_sq: Real,
    limit_sq: Real,
) -> (collision: bool)
    ensures
        collision == colliding(*a, *b, distance_sq, limit_sq),
{
    if a.inner || b.inner {
        distance_sq.greater_than(limit_sq)
    } else {
        distance_sq.less_than(limit_sq)
    }
}

/// The bit pattern of 0.05, the longest that circles are moved back for.
pub const MAX_PENETRATION_TIME: u32 = 0x3d4c_cccd;

/// Whether two circles can be moved out of collision along their velocities.
///
/// `discriminant` is that of the quadratic equation for the time at which they
/// just touch, and `t` the solution of it that counts. Where either is not a number, as for
/// circles that do not move towards or away from each other, there is no such time.
pub open spec fn separable(discriminant: Real, t: Real) -> bool {
    &&& !discriminant.nan()
    &&& !t.nan()
    &&& !discriminant.below(Real { bits: 0 })
    &&& !(Real { bits: MAX_PENETRATION_TIME }).below(t.magnitude())
}

/// The computations that collisions of balls with other circles take.
///
/// - `distances` gives the squared distance between the centers of two circles, and the square of
///   the distance that they collide at.
/// - `equation` gives the discriminant of the quadratic equation for the time at which two circles
///   just touch, and the solution of it that counts.
/// - `advance` moves two circles by a multiple of their velocities, and `retreat` moves them back
///   by that.
/// - `offset` moves two circles along their collision normal, so that they are just touching.
/// - `bounce` determines the velocities of two circles after an elastic collision.
#[derive(Copy, Clone)]
pub struct Mechanics<Q, D, A, R, O, E> {
    pub distances: Q,
    pub equation: D,
    pub advance: A,
    pub retreat: R,
    pub offset: O,
    pub bounce: E,
}

/// Whether the computations can be made for all circles.
pub open spec fn total<V, Q, D, A, R, O, E>(mechanics: Mechanics<Q, D, A, R, O, E>) -> bool where
    Q: Fn(Circle<Vector>, Circle<V>) -> (Real, Real),
    D: Fn(Circle<Vector>, Circle<V>) -> (Real, Real),
    A: Fn(Circle<Vector>, Circle<V>, Real) -> (Circle<Vector>, Circle<V>),
    R: Fn(Circle<Vector>, Circle<V>, Real) -> (Circle<Vector>, Circle<V>),
    O: Fn(Circle<Vector>, Circle<V>) -> (Circle<Vector>, Circle<V>),
    E: Fn(Circle<Vector>, Circle<V>) -> (Circle<Vector>, Circle<V>),
 {
    &&& forall|a: Circle<Vector>, b: Circle<V>| call_requires(mechanics.distances, (a, b))
    &&& forall|a: Circle<Vector>, b: Circle<V>| call_requires(mechanics.equation, (a, b))
    &&& forall|a: Circle<Vector>, b: Circle<V>, t: Real|
        call_requires(mechanics.advance, (a, b, t))
    &&& forall|a: Circle<Vector>, b: Circle<V>, t: Real|
        call_requires(mechanics.retreat, (a, b, t))
    &&& forall|a: Circle<Vector>, b: Circle<V>| call_requires(mechanics.offset, (a, b))
    &&& forall|a: Circle<Vector>, b: Circle<V>| call_requires(mechanics.bounce, (a, b))
}

/// Whether two circles may have been moved out of collision like this, and by this multiple of
/// their velocities.
pub open spec fn penetrated<V, Q, D, A, R, O, E>(
    before: (Circle<Vector>, Circle<V>),
    after: (Circle<Vector>, Circle<V>),
    moved: Option<Real>,
    mechanics: Mechanics<Q, D, A, R, O, E>,
) -> bool where
    D: Fn(Circle<Vector>, Circle<V>) -> (Real, Real),
    A: Fn(Circle<Vector>, Circle<V>, Real) -> (Circle<Vector>, Circle<V>),
    O: Fn(Circle<Vector>, Circle<V>) -> (Circle<Vector>, Circle<V>),
 {
    exists|solved: (Real, Real)| #[trigger]
        call_ensures(mechanics.equation, before, solved) && (if separable(solved.0, solved.1) {
            &&& moved == Some(solved.1)
            &&& call_ensures(mechanics.advance, (before.0, before.1, solved.1), after)
        } else {
            &&& moved is None
            &&& call_ensures(mechanics.offset, before, after)
        })
}

/// Moves circles out of collision along their velocity vectors.
///
/// If there is no scalar multiple of the velocity vectors that will move
/// them out of collision, it just gives up and moves along the collision
/// normal.
///
/// Returns `Some(t)` with the multiple of the velocities, or `None` if it
/// offset along normal.
pub fn resolve_penetration<V: Copy, Q, D, A, R, O, E>(
    a: &mut Circle<Vector>,
    b: &mut Circle<V>,
    mechanics: &Mechanics<Q, D, A, R, O, E>,
) -> (moved: Option<Real>) where
    Q: Fn(Circle<Vector>, Circle<V>) -> (Real, Real),
    D: Fn(Circle<Vector>, Circle<V>) -> (Real, Real),
    A: Fn(Circle<Vector>, Circle<V>, Real) -> (Circle<Vector>, Circle<V>),
    R: Fn(Circle<Vector>, Circle<V>, Real) -> (Circle<Vector>, Circle<V>),
    O: Fn(Circle<Vector>, Circle<V>) -> (Circle<Vector>, Circle<V>),
    E: Fn(Circle<Vector>, Circle<V>) -> (Circle<Vector>, Circle<V>),

    requires
        total::<V, Q, D, A, R, O, E>(*mechanics),
    ensures
        penetrated((*old(a), *old(b)), (*final(a), *final(b)), moved, *mechanics),
{
    let zero = Real { bits: 0 };
    let limit = Real { bits: MAX_PENETRATION_TIME };
    let solved: (Real, Real) = (mechanics.equation)(*a, *b);
    let (discriminant, t): (Real, Real) = solved;
    assert(call_ensures(mechanics.equation, (*old(a), *old(b)), solved));
    if discriminant.is_nan() || t.is_nan() || discriminant.less_than(zero) || t.abs().greater_than(
        limit,
    ) {
        // Give up and move along the normal.
        let after = (mechanics.offset)(*a, *b);
        *a = after.0;
        *b = after.1;
        return None;
    }
    let after = (mechanics.advance)(*a, *b, t);
    *a = after.0;
    *b = after.1;
    Some(t)
}

/// Where circles have been moved along their velocities, it was by a number, and not by much.
pub proof fn law_moved_by_a_number<V, Q, D, A, R, O, E>(
    before: (Circle<Vector>, Circle<V>),
    after: (Circle<Vector>, Circle<V>),
    moved: Option<Real>,
    mechanics: Mechanics<Q, D, A, R, O, E>,
) where
    D: Fn(Circle<Vector>, Circle<V>) -> (Real, Real),
    A: Fn(Circle<Vector>, Circle<V>, Real) -> (Circle<Vector>, Circle<V>),
    O: Fn(Circle<Vector>, Circle<V>) -> (Circle<Vector>, Circle<V>),

    requires
        penetrated(before, after, moved, mechanics),
    ensures
        moved matches Some(t) ==> !t.nan() && t.magnitude().place() <= (Real {
            bits: MAX_PENETRATION_TIME,
        }).place(),
{
}

/// What resolving a collision makes of two circles.
pub open spec fn resolved<V, Q, D, A, R, O, E>(
    before: (Circle<Vector>, Circle<V>),
    after: (Circle<Vector>, Circle<V>),
    collision: bool,
    mechanics: Mechanics<Q, D, A, R, O, E>,
) -> bool where
    Q: Fn(Circle<Vector>, Circle<V>) -> (Real, Real),
    D: Fn(Circle<Vector>, Circle<V>) -> (Real, Real),
    A: Fn(Circle<Vector>, Circle<V>, Real) -> (Circle<Vector>, Circle<V>),
    R: Fn(Circle<Vector>, Circle<V>, Real) -> (Circle<Vector>, Circle<V>),
    O: Fn(Circle<Vector>, Circle<V>) -> (Circle<Vector>, Circle<V>),
    E: Fn(Circle<Vector>, Circle<V>) -> (Circle<Vector>, Circle<V>),
 {
    &&& exists|distances: (Real, Real)| #[trigger]
        call_ensures(mechanics.distances, before, distances) && collision == colliding(
            before.0,
            before.1,
            distances.0,
            distances.1,
        )
    &&& if collision {
        exists|apart: (Circle<Vector>, Circle<V>), moved: Option<Real>| #[trigger]
            penetrated(before, apart, moved, mechanics) && bounced(apart, after, moved, mechanics)
    } else {
        after == before
    }
}

/// What two circles that have been moved out of collision are after bouncing off each other: the
/// movement is redone backward with their new velocities. If they could not be moved along their
/// velocities, nothing happens.
pub open spec fn bounced<V, Q, D, A, R, O, E>(
    before: (Circle<Vector>, Circle<V>),
    after: (Circle<Vector>, Circle<V>),
    moved: Option<Real>,
    mechanics: Mechanics<Q, D, A, R, O, E>,
) -> bool where
    R: Fn(Circle<Vector>, Circle<V>, Real) -> (Circle<Vector>, Circle<V>),
    E: Fn(Circle<Vector>, Circle<V>) -> (Circle<Vector>, Circle<V>),
 {
    match moved {
        Some(t) => exists|faster: (Circle<Vector>, Circle<V>)| #[trigger]
            call_ensures(mechanics.bounce, before, faster) && call_ensures(
                mechanics.retreat,
                (faster.0, faster.1, t),
                after,
            ),
        None => after == before,
    }
}

/// Fully resolves a potential collision between two circles.
///
/// Returns whether or there was a collision.
pub fn resolve_collision<V: Copy, Q, D, A, R, O, E>(
    a: &mut Circle<Vector>,
    b: &mut Circle<V>,
    mechanics: &Mechanics<Q, D, A, R, O, E>,
) -> (collision: bool) where
    Q: Fn(Circle<Vector>, Circle<V>) -> (Real, Real),
    D: Fn(Circle<Vector>, Circle<V>) -> (Real, Real),
    A: Fn(Circle<Vector>, Circle<V>, Real) -> (Circle<Vector>, Circle<V>),
    R: Fn(Circle<Vector>, Circle<V>, Real) -> (Circle<Vector>, Circle<V>),
    O: Fn(Circle<Vector>, Circle<V>) -> (Circle<Vector>, Circle<V>),
    E: Fn(Circle<Vector>, Circle<V>) -> (Circle<Vector>, Circle<V>),

    requires
        total::<V, Q, D, A, R, O, E>(*mechanics),
    ensures
        resolved((*old(a), *old(b)), (*final(a), *final(b)), collision, *mechanics),
{
    let ghost before = (*a, *b);
    let distances: (Real, Real) = (mechanics.distances)(*a, *b);
    assert(call_ensures(mechanics.distances, before, distances));
    let collision: bool = check_collision(a, b, distances.0, distances.1);
    if collision {
        // Step backward along velocity vectors until the circles are
        // no longer colliding.
        let moved: Option<Real> = resolve_penetration(a, b, mechanics);
        let ghost apart = (*a, *b);
        assert(penetrated(before, apart, moved, *mechanics));
        let t: Real = match moved {
            Some(t) => t,
            None => {
                assert(bounced(apart, apart, moved, *mechanics));
                return true;
            },
        };
        // Determine new velocities after collision.
        let faster = (mechanics.bounce)(*a, *b);
        assert(call_ensures(mechanics.bounce, apart, faster));
        // Redo the backward movement with the new velocities.
        let after = (mechanics.retreat)(faster.0, faster.1, t);
        *a = after.0;
        *b = after.1;
        assert(bounced(apart, after, moved, *mechanics));
    }
    collision
}

/// The circle of a ball.
pub open spec fn ball_circle(state: Ball, settings: GameSettings) -> Circle<Vector> {
    Circle {
        radius: settings.ball_radius,
        center: state.position,
        velocity: state.velocity,
        inner: false,
    }
}

/// The circle of a cursor.
pub open spec fn cursor_circle(position: Point, settings: GameSettings) -> Circle<Static> {
    Circle { radius: settings.cursor_radius, center: position, velocity: Static, inner: false }
}

/// The circle of the boundary.
pub open spec fn bounds_circle(settings: GameSettings) -> Circle<Static> {
    Circle {
        radius: settings.bounds_radius,
        center: spec_origin(),
        velocity: Static,
        inner: true,
    }
}

/// The ball of a circle.
pub open spec fn ball_of(circle: Circle<Vector>) -> Ball {
    Ball { position: circle.center, velocity: circle.velocity }
}

/// Lets two balls bounce off each other, if they touch.
pub fn contact<Q, D, A, R, O, E>(
    a: Ball,
    b: Ball,
    settings: &GameSettings,
    mechanics: &Mechanics<Q, D, A, R, O, E>,
) -> (outcome: Option<(Ball, Ball)>) where
    Q: Fn(Circle<Vector>, Circle<Vector>) -> (Real, Real),
    D: Fn(Circle<Vector>, Circle<Vector>) -> (Real, Real),
    A: Fn(Circle<Vector>, Circle<Vector>, Real) -> (Circle<Vector>, Circle<Vector>),
    R: Fn(Circle<Vector>, Circle<Vector>, Real) -> (Circle<Vector>, Circle<Vector>),
    O: Fn(Circle<Vector>, Circle<Vector>) -> (Circle<Vector>, Circle<Vector>),
    E: Fn(Circle<Vector>, Circle<Vector>) -> (Circle<Vector>, Circle<Vector>),

    requires
        total::<Vector, Q, D, A, R, O, E>(*mechanics),
    ensures
        exists|after: (Circle<Vector>, Circle<Vector>)| #[trigger]
            resolved(
                (ball_circle(a, *settings), ball_circle(b, *settings)),
                after,
                outcome is Some,
                *mechanics,
            ) && (outcome matches Some(balls) ==> balls == (ball_of(after.0), ball_of(after.1))),
{
    let mut circle_a: Circle<Vector> = ball(a, settings);
    let mut circle_b: Circle<Vector> = ball(b, settings);
    let ghost before = (circle_a, circle_b);
    let collision: bool = resolve_collision(&mut circle_a, &mut circle_b, mechanics);
    let outcome: Option<(Ball, Ball)> = if collision {
        Some((Ball::from(circle_a), Ball::from(circle_b)))
    } else {
        None
    };
    assert(resolved(before, (circle_a, circle_b), outcome is Some, *mechanics));
    outcome
}

/// Lets a ball bounce off the boundary, if they touch.
pub fn wall<Q, D, A, R, O, E>(
    state: Ball,
    settings: &GameSettings,
    mechanics: &Mechanics<Q, D, A, R, O, E>,
) -> (outcome: Option<Ball>) where
    Q: Fn(Circle<Vector>, Circle<Static>) -> (Real, Real),
    D: Fn(Circle<Vector>, Circle<Static>) -> (Real, Real),
    A: Fn(Circle<Vector>, Circle<Static>, Real) -> (Circle<Vector>, Circle<Static>),
    R: Fn(Circle<Vector>, Circle<Static>, Real) -> (Circle<Vector>, Circle<Static>),
    O: Fn(Circle<Vector>, Circle<Static>) -> (Circle<Vector>, Circle<Static>),
    E: Fn(Circle<Vector>, Circle<Static>) -> (Circle<Vector>, Circle<Static>),

    requires
        total::<Static, Q, D, A, R, O, E>(*mechanics),
    ensures
        exists|after: (Circle<Vector>, Circle<Static>)| #[trigger]
            resolved(
                (ball_circle(state, *settings), bounds_circle(*settings)),
                after,
                outcome is Some,
                *mechanics,
            ) && (outcome matches Some(bounced_ball) ==> bounced_ball == ball_of(after.0)),
{
    let mut circle: Circle<Vector> = ball(state, settings);
    let mut boundary: Circle<Static> = bounds(settings);
    let ghost before = (circle, boundary);
    let collision: bool = resolve_collision(&mut circle, &mut boundary, mechanics);
    let outcome: Option<Ball> = if collision {
        Some(Ball::from(circle))
    } else {
        None
    };
    assert(resolved(before, (circle, boundary), outcome is Some, *mechanics));
    outcome
}

/// Checks whether a cursor and a ball touch.
///
/// `distances` gives the squared distance between the centers of two circles, and the square of
/// the distance that they collide at.
pub fn touch<Q: Fn(Circle<Static>, Circle<Vector>) -> (Real, Real)>(
    position: Point,
    state: Ball,
    settings: &GameSettings,
    distances: &Q,
) -> (touching: bool)
    requires
        forall|a: Circle<Static>, b: Circle<Vector>| call_requires(*distances, (a, b)),
    ensures
        exists|found: (Real, Real)| #[trigger]
            call_ensures(
                *distances,
                (cursor_circle(position, *settings), ball_circle(state, *settings)),
                found,
            ) && touching == colliding(
                cursor_circle(position, *settings),
                ball_circle(state, *settings),
                found.0,
                found.1,
            ),
{
    let circle_cursor: Circle<Static> = cursor(position, settings);
    let circle_ball: Circle<Vector> = ball(state, settings);
    let found: (Real, Real) = distances(circle_cursor, circle_ball);
    assert(call_ensures(
        *distances,
        (cursor_circle(position, *settings), ball_circle(state, *settings)),
        found,
    ));
    check_collision(&circle_cursor, &circle_ball, found.0, found.1)
}

} // verus!
