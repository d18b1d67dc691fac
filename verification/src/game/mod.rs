//! The rules of the game that the client and the server share.

use smallvec::SmallVec;
use vstd::prelude::*;

use crate::graphics::circles::Circle;
use crate::number::{Color, Point, Real, Vector};

pub mod client;
pub mod client_laws;
pub mod hue;
pub mod input;
pub mod input_laws;
pub mod laws;
pub mod lists;
pub mod physics;
pub mod physics_laws;
pub mod server;
pub mod snapshot;

pub use self::snapshot::Snapshot;

verus! {

/// Names a player for as long as a server runs.
pub type PlayerId = u16;

/// Finite state machine for the round state.
#[derive(Debug, Copy, Clone, Eq, PartialEq, Structural)]
pub enum RoundState {
    /// Less than two players, so nothing happens.
    Lobby,
    /// More than two players, waiting for a round to start.
    Waiting,
    /// More than one player left alive.
    Round,
    /// One or less players left alive, waiting to end the round.
    RoundEnd,
    /// Winner declared, starting the next round.
    Winner(Option<PlayerId>),
}

/// The quantities that a game is played with.
#[derive(Copy, Clone, Debug)]
pub struct GameSettings {
    pub ball_radius: Real,
    pub cursor_radius: Real,
    pub spring_constant: Real,
    pub ball_start_distance: Real,
    pub ball_start_speed: Real,
    pub bounds_radius: Real,
    /// Whether players die by their own balls.
    pub kill_own_cursor: bool,
}

/// The bit pattern of 0.15.
pub const DEFAULT_BALL_RADIUS: u32 = 0x3e19_999a;

/// The bit pattern of 0.05.
pub const DEFAULT_CURSOR_RADIUS: u32 = 0x3d4c_cccd;

/// The bit pattern of 8.
pub const DEFAULT_SPRING_CONSTANT: u32 = 0x4100_0000;

/// The bit pattern of 0.3.
pub const DEFAULT_BALL_START_DISTANCE: u32 = 0x3e99_999a;

/// The bit pattern of 1.
pub const DEFAULT_BALL_START_SPEED: u32 = 0x3f80_0000;

/// The bit pattern of 1.
pub const DEFAULT_BOUNDS_RADIUS: u32 = 0x3f80_0000;

impl Default for GameSettings {
    fn default() -> (settings: GameSettings)
        ensures
            settings.ball_radius.bits == DEFAULT_BALL_RADIUS,
            settings.cursor_radius.bits == DEFAULT_CURSOR_RADIUS,
            settings.spring_constant.bits == DEFAULT_SPRING_CONSTANT,
            settings.ball_start_distance.bits == DEFAULT_BALL_START_DISTANCE,
            settings.ball_start_speed.bits == DEFAULT_BALL_START_SPEED,
            settings.bounds_radius.bits == DEFAULT_BOUNDS_RADIUS,
            !settings.kill_own_cursor,
    {
        GameSettings {
            ball_radius: Real { bits: DEFAULT_BALL_RADIUS },
            cursor_radius: Real { bits: DEFAULT_CURSOR_RADIUS },
            spring_constant: Real { bits: DEFAULT_SPRING_CONSTANT },
            ball_start_distance: Real { bits: DEFAULT_BALL_START_DISTANCE },
            ball_start_speed: Real { bits: DEFAULT_BALL_START_SPEED },
            bounds_radius: Real { bits: DEFAULT_BOUNDS_RADIUS },
            kill_own_cursor: false,
        }
    }
}

impl GameSettings {
    /// Whether all quantities are equal, as numbers.
    pub open spec fn equals(self, other: GameSettings) -> bool {
        &&& self.ball_radius.equals(other.ball_radius)
        &&& self.cursor_radius.equals(other.cursor_radius)
        &&& self.spring_constant.equals(other.spring_constant)
        &&& self.ball_start_distance.equals(other.ball_start_distance)
        &&& self.ball_start_speed.equals(other.ball_start_speed)
        &&& self.bounds_radius.equals(other.bounds_radius)
        &&& self.kill_own_cursor == other.kill_own_cursor
    }
}

impl PartialEq for GameSettings {
    fn eq(&self, other: &GameSettings) -> (equal: bool) {
        self.ball_radius == other.ball_radius && self.cursor_radius == other.cursor_radius
            && self.spring_constant == other.spring_constant && self.ball_start_distance
            == other.ball_start_distance && self.ball_start_speed == other.ball_start_speed
            && self.bounds_radius == other.bounds_radius && self.kill_own_cursor
            == other.kill_own_cursor
    }
}

impl vstd::std_specs::cmp::PartialEqSpecImpl for GameSettings {
    open spec fn obeys_eq_spec() -> bool {
        true
    }

    open spec fn eq_spec(&self, other: &GameSettings) -> bool {
        self.equals(*other)
    }
}

/// What a server tells its clients about the game.
pub enum Event {
    RoundState(RoundState),
    Settings(GameSettings),
    NewPlayer { id: PlayerId, static_state: StaticPlayerState },
    RemovePlayer(PlayerId),
    Snapshot(Snapshot),
}

/// What a client tells the server about its player.
#[derive(Copy, Clone, Debug)]
pub struct Input {
    pub cursor: Point,
}

/// Dynamic state for the large ball.
#[derive(Copy, Clone, Debug)]
pub struct Ball {
    pub position: Point,
    pub velocity: Vector,
}

/// Static player state that is unlikely to change between frames.
#[derive(Copy, Clone, Debug)]
pub struct StaticPlayerState {
    pub color: Color,
}

/// Dynamic player state that is likely to change between frames.
#[derive(Copy, Clone, Debug)]
pub struct PlayerState {
    /// Position of the cursor, if the player is still alive.
    pub cursor: Option<Point>,
    pub ball: Ball,
}

impl Ball {
    /// Gets the starting state of the ball.
    ///
    /// `beyond` is the ball at its set distance beyond the cursor,
    /// `distance_sq` the squared distance of that from the origin,
    /// `max_distance_sq` the square of the greatest distance that keeps the ball
    /// within bounds, and `bounded` the position pulled back to that distance.
    pub fn starting(beyond: Ball, distance_sq: Real, max_distance_sq: Real, bounded: Point) -> (ball:
        Ball)
        ensures
            ball.velocity == beyond.velocity,
            ball.position == (if max_distance_sq.below(distance_sq) {
                bounded
            } else {
                beyond.position
            }),
    {
        if distance_sq.greater_than(max_distance_sq) {
            Ball { position: bounded, velocity: beyond.velocity }
        } else {
            beyond
        }
    }

    /// Steps the ball forward in time using a provided cursor
    /// location.
    ///
    /// `pull` gives the velocity of a ball after the spring has pulled it
    /// towards a cursor, `drift` the position of a ball after it has moved along
    /// its velocity.
    pub fn tick<P, D>(&mut self, cursor: Option<Point>, pull: P, drift: D) where
        P: Fn(Ball, Point) -> Vector,
        D: Fn(Ball) -> Point,

        requires
            forall|ball: Ball, at: Point| call_requires(pull, (ball, at)),
            forall|ball: Ball| call_requires(drift, (ball,)),
        ensures
            match cursor {
                Some(at) => call_ensures(pull, (*old(self), at), final(self).velocity),
                None => final(self).velocity == old(self).velocity,
            },
            call_ensures(
                drift,
                (Ball { position: old(self).position, velocity: final(self).velocity },),
                final(self).position,
            ),
    {
        if let Some(at) = cursor {
            self.velocity = pull(*self, at);
        }
        self.position = drift(*self);
    }
}

/// Clamps a cursor position within bounds.
///
/// `distance_sq` is the squared distance of the cursor from the origin,
/// `max_distance_sq` the square of the greatest distance that is within bounds,
/// and `bounded` the position pulled back to that distance.
pub fn clamp_cursor(cursor: Point, distance_sq: Real, max_distance_sq: Real, bounded: Point) -> (clamped:
    Point)
    ensures
        clamped == (if max_distance_sq.below(distance_sq) {
            bounded
        } else {
            cursor
        }),
{
    if distance_sq.greater_than(max_distance_sq) {
        bounded
    } else {
        cursor
    }
}

impl PlayerState {
    /// Whether the player is still alive.
    pub open spec fn is_alive(self) -> bool {
        self.cursor is Some
    }

    /// Creates a new player state given a cursor position.
    ///
    /// `ball` is placed a set distance further away from
    /// the origin than the cursor.
    pub fn new(cursor: Point, ball: Ball) -> (state: PlayerState)
        ensures
            state == (PlayerState { cursor: Some(cursor), ball }),
    {
        PlayerState { cursor: Some(cursor), ball }
    }

    /// Sets the cursor position, if the player is still alive.
    pub fn set_cursor(&mut self, cursor: Point)
        ensures
            final(self).ball == old(self).ball,
            final(self).cursor == (if old(self).is_alive() {
                Some(cursor)
            } else {
                None
            }),
    {
        if self.cursor.is_some() {
            self.cursor = Some(cursor);
        }
    }

    /// Steps the player forward in time.
    pub fn tick<P, D>(&mut self, pull: P, drift: D) where
        P: Fn(Ball, Point) -> Vector,
        D: Fn(Ball) -> Point,

        requires
            forall|ball: Ball, at: Point| call_requires(pull, (ball, at)),
            forall|ball: Ball| call_requires(drift, (ball,)),
        ensures
            final(self).cursor == old(self).cursor,
            match old(self).cursor {
                Some(at) => call_ensures(pull, (old(self).ball, at), final(self).ball.velocity),
                None => final(self).ball.velocity == old(self).ball.velocity,
            },
            call_ensures(
                drift,
                (
                    Ball {
                        position: old(self).ball.position,
                        velocity: final(self).ball.velocity,
                    },
                ),
                final(self).ball.position,
            ),
    {
        let cursor: Option<Point> = self.cursor;
        self.ball.tick(cursor, pull, drift);
    }

    /// Returns whether the player is still alive.
    pub fn alive(&self) -> (alive: bool)
        ensures
            alive == self.is_alive(),
    {
        self.cursor.is_some()
    }
}

/// A trait for any system of querying player state.
pub trait GetPlayer {
    spec fn player_state(&self) -> PlayerState;

    spec fn player_static_state(&self) -> StaticPlayerState;

    fn state(&self) -> (state: PlayerState)
        ensures
            state == self.player_state(),
    ;

    fn static_state(&self) -> (static_state: StaticPlayerState)
        ensures
            static_state == self.player_static_state(),
    ;

    /// Generates a set of circles to draw this player: the ball, and the cursor of
    /// one that is alive. `scaled` gives what a length is on the screen.
    fn draw<F: Fn(Real) -> Real>(&self, settings: &GameSettings, scaled: F) -> (circles: Circles)
        requires
            forall|x: Real| call_requires(scaled, (x,)),
        ensures
            circles_in(circles).len() == (if self.player_state().is_alive() {
                2int
            } else {
                1int
            }),
            circle_scaled(
                circles_in(circles)[0],
                self.player_state().ball.position,
                settings.ball_radius,
                self.player_static_state().color,
                scaled,
            ),
            self.player_state().cursor matches Some(cursor) ==> circle_scaled(
                circles_in(circles)[1],
                cursor,
                settings.cursor_radius,
                self.player_static_state().color,
                scaled,
            ),
    {
        let state: PlayerState = self.state();
        let color: Color = self.static_state().color;
        let mut circles = no_circles();
        // Ball
        push_circle(
            &mut circles,
            scale_circle(state.ball.position, settings.ball_radius, color, &scaled),
        );
        if let Some(cursor) = state.cursor {
            // Cursor, if alive
            push_circle(&mut circles, scale_circle(cursor, settings.cursor_radius, color, &scaled));
        }
        circles
    }
}

/// What `scaled` may give for a circle.
pub open spec fn circle_scaled<F: Fn(Real) -> Real>(
    circle: Circle,
    center: Point,
    radius: Real,
    color: Color,
    scaled: F,
) -> bool {
    &&& call_ensures(scaled, (center.x,), circle.center.x)
    &&& call_ensures(scaled, (center.y,), circle.center.y)
    &&& call_ensures(scaled, (radius,), circle.radius)
    &&& circle.color == color
}

fn scale_circle<F: Fn(Real) -> Real>(center: Point, radius: Real, color: Color, scaled: &F) -> (circle:
    Circle)
    requires
        forall|x: Real| call_requires(*scaled, (x,)),
    ensures
        circle_scaled(circle, center, radius, color, *scaled),
{
    Circle {
        center: Point { x: scaled(center.x), y: scaled(center.y) },
        radius: scaled(radius),
        color,
    }
}

/// The circles that a player is drawn with.
///
/// There are two at most, so they are kept inline.
#[verifier::external_body]
pub struct Circles {
    list: SmallVec<[Circle; 2]>,
}

/// The circles that a list holds, in order.
pub uninterp spec fn circles_in(list: Circles) -> Seq<Circle>;

/// Makes an empty list: `SmallVec::new` holds nothing.
#[verifier::external_body]
fn no_circles() -> (list: Circles)
    ensures
        circles_in(list) == Seq::<Circle>::empty(),
{
    Circles { list: SmallVec::new() }
}

/// Appends a circle: `SmallVec::push` adds it at the end and keeps the rest.
#[verifier::external_body]
fn push_circle(list: &mut Circles, circle: Circle)
    ensures
        circles_in(*final(list)) == circles_in(*old(list)).push(circle),
{
    list.list.push(circle);
}

/// Hands the circles out: `SmallVec::into_vec` keeps all of them and their order.
#[verifier::external_body]
fn circles_to_vec(list: Circles) -> (circles: Vec<Circle>)
    ensures
        circles@ == circles_in(list),
{
    list.list.into_vec()
}

impl Circles {
    /// The circles, in order.
    pub fn into_vec(self) -> (circles: Vec<Circle>)
        ensures
            circles@ == circles_in(self),
    {
        circles_to_vec(self)
    }
}

impl Default for RoundState {
    fn default() -> (round: RoundState)
        ensures
            round == RoundState::Lobby,
    {
        RoundState::Lobby
    }
}

impl RoundState {
    /// Whether a round is actually running in this state.
    pub open spec fn is_running(self) -> bool {
        self is Round || self is RoundEnd
    }

    /// Whether a round is actually running in this state.
    pub fn running(self) -> (running: bool)
        ensures
            running == self.is_running(),
    {
        match self {
            RoundState::Round => true,
            RoundState::RoundEnd => true,
            _ => false,
        }
    }
}

/// Steps over a given time interval in chunks of at most a specified duration.
///
/// This is useful for things that will be stable at small timesteps,
/// but break down over larger timesteps. In order to step a large
/// timestep, it needs to be broken up and stepped in sequence.
///
/// `times` is how often `max` goes into the interval, and `rest` what is left of it.
pub fn step_dt(times: usize, max: Real, rest: Real) -> (steps: Vec<Real>)
    requires
        times < usize::MAX,
    ensures
        steps@ == Seq::new(times as nat, |i: int| max).push(rest),
{
    let mut steps: Vec<Real> = Vec::new();
    let mut done: usize = 0;
    while done < times
        invariant
            done <= times,
            steps@ =~= Seq::new(done as nat, |i: int| max),
        decreases times - done,
    {
        steps.push(max);
        done = done + 1;
    }
    steps.push(rest);
    steps
}

} // verus!
