//! A game without rounds, whose clients predict their own balls and interpolate between the two
//! most recent snapshots for everybody else.

use std::collections::HashMap;
use vstd::prelude::*;

use crate::double_buffer::DoubleBuffer;
use crate::game::hue::{random_hue, HUES};
use crate::game::snapshot::{ids_of, point_between, vector_between};
use crate::game::PlayerId;
use crate::keys::{keys, lists_keys, mapped};
use crate::number::{Color, Point, Real, Vector};
use crate::time::{Duration, Instant};

verus! {

broadcast use vstd::std_specs::hash::group_hash_axioms;

/// The strength of the spring between a cursor and its ball: the bit pattern of 5.
pub const SPRING_CONSTANT: u32 = 0x40a0_0000;

/// A player, as the server knows it.
#[derive(Copy, Clone, Debug)]
pub struct Player {
    pub position: Point,
    pub position_ball: Point,
    pub velocity_ball: Vector,
    pub color: Color,
}

/// What changes about a player from frame to frame.
#[derive(Copy, Clone, Debug)]
pub struct PlayerSnapshot {
    pub position: Point,
    pub position_ball: Point,
    pub velocity_ball: Vector,
}

/// What stays the same about a player.
#[derive(Copy, Clone, Debug)]
pub struct PlayerClient {
    pub color: Color,
}

/// All players at one moment.
pub struct Snapshot {
    pub players: HashMap<PlayerId, PlayerSnapshot>,
}

/// A snapshot, and when it was received.
pub struct Received {
    pub snapshot: Snapshot,
    pub time: Instant,
}

/// Where the player's cursor is.
#[derive(Copy, Clone, Debug)]
pub struct Input {
    pub position: Point,
}

pub open spec fn zero_point() -> Point {
    Point { x: Real { bits: 0 }, y: Real { bits: 0 } }
}

pub open spec fn zero_vector() -> Vector {
    Vector { x: Real { bits: 0 }, y: Real { bits: 0 } }
}

impl Clone for Snapshot {
    fn clone(&self) -> (copy: Snapshot)
        ensures
            copy.players@ == self.players@,
    {
        let same = |player: &PlayerSnapshot| -> (copy: PlayerSnapshot)
            ensures
                copy == *player,
            { *player };
        let players = mapped(&self.players, &same);
        assert(players@ =~= self.players@);
        Snapshot { players }
    }
}

impl Clone for Received {
    fn clone(&self) -> (copy: Received)
        ensures
            copy.snapshot.players@ == self.snapshot.players@,
            copy.time == self.time,
    {
        Received { snapshot: self.snapshot.clone(), time: self.time }
    }
}

impl Default for Input {
    fn default() -> (input: Input)
        ensures
            input.position == zero_point(),
    {
        Input { position: Point { x: Real { bits: 0 }, y: Real { bits: 0 } } }
    }
}

impl Input {
    /// Moves the cursor.
    pub fn set_position(&mut self, position: Point)
        ensures
            final(self).position == position,
    {
        self.position = position;
    }

    /// Returns where the cursor is.
    pub fn position(&self) -> (position: Point)
        ensures
            position == self.position,
    {
        self.position
    }
}

impl PlayerSnapshot {
    /// Whether `lerp` may give this state between two.
    pub open spec fn between<F: Fn(Real, Real, Real) -> Real>(
        self,
        a: PlayerSnapshot,
        b: PlayerSnapshot,
        alpha: Real,
        lerp: F,
    ) -> bool {
        &&& point_between(a.position, b.position, alpha, self.position, lerp)
        &&& point_between(a.position_ball, b.position_ball, alpha, self.position_ball, lerp)
        &&& vector_between(a.velocity_ball, b.velocity_ball, alpha, self.velocity_ball, lerp)
    }

    /// Interpolates between two states.
    pub fn lerp<F: Fn(Real, Real, Real) -> Real>(
        &self,
        other: &PlayerSnapshot,
        alpha: Real,
        lerp: &F,
    ) -> (result: PlayerSnapshot)
        requires
            forall|a: Real, b: Real, alpha: Real| call_requires(*lerp, (a, b, alpha)),
        ensures
            result.between(*self, *other, alpha, *lerp),
    {
        PlayerSnapshot {
            position: self.position.interpolate(other.position, alpha, lerp),
            position_ball: self.position_ball.interpolate(other.position_ball, alpha, lerp),
            velocity_ball: self.velocity_ball.interpolate(other.velocity_ball, alpha, lerp),
        }
    }
}

impl Player {
    /// What changes about the player from frame to frame.
    pub open spec fn changing(self) -> PlayerSnapshot {
        PlayerSnapshot {
            position: self.position,
            position_ball: self.position_ball,
            velocity_ball: self.velocity_ball,
        }
    }

    /// Creates a player at rest in the middle, with a random color.
    ///
    /// `color` gives the color for a hue.
    pub fn with_random_color<L: Fn(u32) -> Color>(color: &L) -> (player: Player)
        requires
            forall|hue: u32| call_requires(*color, (hue,)),
        ensures
            at_rest(player, *color),
    {
        let hue: u32 = random_hue();
        let player = Player {
            position: Point { x: Real { bits: 0 }, y: Real { bits: 0 } },
            position_ball: Point { x: Real { bits: 0 }, y: Real { bits: 0 } },
            velocity_ball: Vector { x: Real { bits: 0 }, y: Real { bits: 0 } },
            color: color(hue),
        };
        assert(call_ensures(*color, (hue,), player.color));
        player
    }

    /// Returns what stays the same about the player.
    pub fn as_client(&self) -> (client: PlayerClient)
        ensures
            client.color == self.color,
    {
        PlayerClient { color: self.color }
    }

    /// Returns what changes about the player from frame to frame.
    pub fn snapshot(&self) -> (snapshot: PlayerSnapshot)
        ensures
            snapshot == self.changing(),
    {
        PlayerSnapshot {
            position: self.position,
            position_ball: self.position_ball,
            velocity_ball: self.velocity_ball,
        }
    }
}

/// Whether this is a player at rest in the middle, with the color of some hue.
pub open spec fn at_rest<L: Fn(u32) -> Color>(player: Player, color: L) -> bool {
    &&& player.changing() == (PlayerSnapshot {
        position: zero_point(),
        position_ball: zero_point(),
        velocity_ball: zero_vector(),
    })
    &&& exists|hue: u32| hue < HUES && #[trigger] call_ensures(color, (hue,), player.color)
}

/// In between two snapshots, with this client's own player as it is predicted.
#[derive(Copy, Clone)]
pub struct InterpolatedSnapshot<'a> {
    pub alpha: Real,
    pub latest: &'a Snapshot,
    pub older: &'a Snapshot,
    pub client_player: PlayerId,
    pub client_snapshot: PlayerSnapshot,
}

impl<'a> InterpolatedSnapshot<'a> {
    /// Whether a player may be shown like this.
    pub open spec fn shows<F: Fn(Real, Real, Real) -> Real>(
        self,
        id: PlayerId,
        player: PlayerSnapshot,
        lerp: F,
    ) -> bool {
        if id == self.client_player {
            player == self.client_snapshot
        } else if self.older.players@.contains_key(id) {
            player.between(self.older.players@[id], self.latest.players@[id], self.alpha, lerp)
        } else {
            player == self.latest.players@[id]
        }
    }

    /// Returns one player, if it is in the latest snapshot or this client's own.
    pub fn player<F: Fn(Real, Real, Real) -> Real>(&self, id: PlayerId, lerp: &F) -> (player: Option<
        PlayerSnapshot,
    >)
        requires
            forall|a: Real, b: Real, alpha: Real| call_requires(*lerp, (a, b, alpha)),
        ensures
            player is Some <==> id == self.client_player || self.latest.players@.contains_key(id),
            player matches Some(player) ==> self.shows(id, player, *lerp),
    {
        if id == self.client_player {
            return Some(self.client_snapshot);
        }
        match self.latest.players.get(&id) {
            Some(new) => match self.older.players.get(&id) {
                Some(older) => Some(older.lerp(new, self.alpha, lerp)),
                None => Some(*new),
            },
            None => None,
        }
    }

    /// Returns all players of the latest snapshot, in no particular order.
    pub fn players<F: Fn(Real, Real, Real) -> Real>(&self, lerp: &F) -> (list: Vec<
        (PlayerId, PlayerSnapshot),
    >)
        requires
            forall|a: Real, b: Real, alpha: Real| call_requires(*lerp, (a, b, alpha)),
        ensures
            lists_keys(ids_of(list@), self.latest.players@),
            forall|i: int|
                0 <= i < list@.len() ==> self.shows((#[trigger] list@[i]).0, list@[i].1, *lerp),
    {
        let ids: Vec<PlayerId> = keys(&self.latest.players);
        let mut list: Vec<(PlayerId, PlayerSnapshot)> = Vec::new();
        let mut at: usize = 0;
        while at < ids.len()
            invariant
                forall|a: Real, b: Real, alpha: Real| call_requires(*lerp, (a, b, alpha)),
                at <= ids@.len(),
                lists_keys(ids@, self.latest.players@),
                list@.len() == at,
                forall|i: int|
                    0 <= i < at ==> (#[trigger] list@[i]).0 == ids@[i] && self.shows(
                        ids@[i],
                        list@[i].1,
                        *lerp,
                    ),
            decreases ids@.len() - at,
        {
            let id: PlayerId = ids[at];
            assert(ids@.contains(id));
            let player: PlayerSnapshot = self.player(id, lerp).unwrap();
            list.push((id, player));
            at = at + 1;
        }
        assert(ids_of(list@) =~= ids@);
        list
    }

    /// Stores the players for longer.
    pub fn into_snapshot<F: Fn(Real, Real, Real) -> Real>(self, lerp: &F) -> (snapshot: Snapshot)
        requires
            forall|a: Real, b: Real, alpha: Real| call_requires(*lerp, (a, b, alpha)),
        ensures
            snapshot.players@.dom() == self.latest.players@.dom(),
            forall|id: PlayerId| #[trigger]
                snapshot.players@.contains_key(id) ==> self.shows(
                    id,
                    snapshot.players@[id],
                    *lerp,
                ),
    {
        let list: Vec<(PlayerId, PlayerSnapshot)> = self.players(lerp);
        let ghost ids = ids_of(list@);
        let mut players: HashMap<PlayerId, PlayerSnapshot> = HashMap::new();
        let mut at: usize = 0;
        while at < list.len()
            invariant
                at <= list@.len(),
                ids == ids_of(list@),
                forall|i: int|
                    0 <= i < list@.len() ==> self.shows((#[trigger] list@[i]).0, list@[i].1, *lerp),
                forall|id: PlayerId| #[trigger]
                    players@.contains_key(id) <==> exists|i: int|
                        0 <= i < at && #[trigger] ids[i] == id,
                forall|id: PlayerId| #[trigger]
                    players@.contains_key(id) ==> self.shows(id, players@[id], *lerp),
            decreases list@.len() - at,
        {
            let (id, player): (PlayerId, PlayerSnapshot) = list[at];
            let ghost before = players@;
            assert(self.shows(list@[at as int].0, list@[at as int].1, *lerp));
            players.insert(id, player);
            proof {
                assert forall|key: PlayerId| #[trigger]
                    players@.contains_key(key) <==> exists|i: int|
                        0 <= i < at + 1 && #[trigger] ids[i] == key by {
                    if before.contains_key(key) {
                        let i = choose|i: int| 0 <= i < at && #[trigger] ids[i] == key;
                        assert(ids[i] == key);
                    }
                    if key == id {
                        assert(ids[at as int] == key);
                    }
                }
            }
            at = at + 1;
        }
        proof {
            assert forall|id: PlayerId| #[trigger]
                players@.contains_key(id) <==> self.latest.players@.contains_key(id) by {
                assert(ids.contains(id) <==> self.latest.players@.contains_key(id));
            }
            assert(players@.dom() =~= self.latest.players@.dom());
        }
        Snapshot { players }
    }
}

/// The game, as a client knows it.
pub struct GameClient {
    pub players: HashMap<PlayerId, PlayerClient>,
    pub snapshots: DoubleBuffer<Received>,
    pub input: Input,
    pub position_ball: Point,
    pub velocity_ball: Vector,
    pub client_player: PlayerId,
}

impl GameClient {
    /// Starts with what the server has sent, at `now`.
    pub fn new(
        players: HashMap<PlayerId, PlayerClient>,
        snapshot: Snapshot,
        id: PlayerId,
        now: Instant,
    ) -> (client: GameClient)
        ensures
            client.players@ == players@,
            client.snapshots.latest().snapshot.players@ == snapshot.players@,
            client.snapshots.latest().time == now,
            client.snapshots.older().snapshot.players@ == snapshot.players@,
            client.snapshots.older().time == now,
            client.input.position == zero_point(),
            client.position_ball == zero_point(),
            client.velocity_ball == zero_vector(),
            client.client_player == id,
    {
        GameClient {
            players,
            snapshots: DoubleBuffer::new(Received { snapshot, time: now }),
            input: Input::default(),
            position_ball: Point { x: Real { bits: 0 }, y: Real { bits: 0 } },
            velocity_ball: Vector { x: Real { bits: 0 }, y: Real { bits: 0 } },
            client_player: id,
        }
    }

    /// Predicts the own ball.
    ///
    /// `pull` gives the velocity of the ball after the spring has pulled it towards the cursor,
    /// and `drift` its position after it has moved along that velocity.
    pub fn tick<P: Fn(Point, Vector, Point) -> Vector, M: Fn(Point, Vector) -> Point>(
        &mut self,
        pull: P,
        drift: M,
    )
        requires
            forall|ball: Point, velocity: Vector, cursor: Point|
                call_requires(pull, (ball, velocity, cursor)),
            forall|ball: Point, velocity: Vector| call_requires(drift, (ball, velocity)),
        ensures
            call_ensures(
                pull,
                (old(self).position_ball, old(self).velocity_ball, old(self).input.position),
                final(self).velocity_ball,
            ),
            call_ensures(
                drift,
                (old(self).position_ball, final(self).velocity_ball),
                final(self).position_ball,
            ),
            final(self).players == old(self).players,
            final(self).snapshots == old(self).snapshots,
            final(self).input == old(self).input,
            final(self).client_player == old(self).client_player,
    {
        let velocity: Vector = pull(self.position_ball, self.velocity_ball, self.input.position());
        self.position_ball = drift(self.position_ball, velocity);
        self.velocity_ball = velocity;
    }

    /// Moves the cursor.
    pub fn update_position(&mut self, position: Point)
        ensures
            *final(self) == (GameClient { input: Input { position }, ..*old(self) }),
    {
        self.input.set_position(position);
    }

    /// Handles a snapshot received from the server, at `now`.
    ///
    /// If `new` is `true`, the snapshot is the most recent. Otherwise
    /// it is old.
    pub fn insert_snapshot(&mut self, snapshot: Snapshot, new: bool, now: Instant)
        requires
            new ==> snapshot.players@.contains_key(old(self).client_player),
        ensures
            final(self).players == old(self).players,
            final(self).input == old(self).input,
            final(self).client_player == old(self).client_player,
            if new {
                // Update the predicted big ball position/velocity.
                let player = snapshot.players@[old(self).client_player];
                &&& final(self).position_ball == player.position_ball
                &&& final(self).velocity_ball == player.velocity_ball
                &&& final(self).snapshots.latest() == (Received { snapshot, time: now })
                &&& final(self).snapshots.older() == old(self).snapshots.latest()
            } else {
                &&& final(self).position_ball == old(self).position_ball
                &&& final(self).velocity_ball == old(self).velocity_ball
                &&& final(self).snapshots.latest() == old(self).snapshots.latest()
                &&& final(self).snapshots.older() == (Received { snapshot, time: now })
            },
    {
        if new {
            let player: PlayerSnapshot = *snapshot.players.get(&self.client_player).unwrap();
            self.position_ball = player.position_ball;
            self.velocity_ball = player.velocity_ball;
        }
        self.snapshots.insert(Received { snapshot, time: now });
        if new {
            self.snapshots.swap();
        }
    }

    /// Interpolates between the older and the latest snapshot.
    ///
    /// `ratio` divides one span of time by another. With the first snapshot, or one that was
    /// received after `time`, the players are where the older one has them.
    pub fn interpolate_snapshot<R: Fn(Duration, Duration) -> Real>(&self, time: Instant, ratio: R) -> (snapshot:
        InterpolatedSnapshot)
        requires
            forall|a: Duration, b: Duration| call_requires(ratio, (a, b)),
            self.snapshots.older().time.nanos <= self.snapshots.latest().time.nanos
                || time.nanos < self.snapshots.latest().time.nanos,
        ensures
            *snapshot.latest == self.snapshots.latest().snapshot,
            *snapshot.older == self.snapshots.older().snapshot,
            snapshot.client_player == self.client_player,
            snapshot.client_snapshot == (PlayerSnapshot {
                position: self.input.position,
                position_ball: self.position_ball,
                velocity_ball: self.velocity_ball,
            }),
            ({
                let older = self.snapshots.older().time;
                let latest = self.snapshots.latest().time;
                if older == latest || time.nanos < latest.nanos {
                    snapshot.alpha.bits == 0
                } else {
                    call_ensures(
                        ratio,
                        (latest.until(time), older.until(latest)),
                        snapshot.alpha,
                    )
                }
            }),
    {
        let latest: &Received = self.snapshots.get();
        let older: &Received = self.snapshots.get_old();
        let alpha: Real = if older.time == latest.time || time.nanos < latest.time.nanos {
            // First set of snapshots, or snapshot received after
            // frame started, so just use purely old.
            Real { bits: 0 }
        } else {
            let span: Duration = latest.time.duration_since(older.time);
            ratio(time.duration_since(latest.time), span)
        };
        InterpolatedSnapshot {
            alpha,
            latest: &latest.snapshot,
            older: &older.snapshot,
            client_player: self.client_player,
            client_snapshot: PlayerSnapshot {
                position: self.input.position(),
                position_ball: self.position_ball,
                velocity_ball: self.velocity_ball,
            },
        }
    }
}

/// The game, as the server knows it.
pub struct GameServer {
    pub players: HashMap<PlayerId, Player>,
    /// The id of the next player to join.
    pub next_id: PlayerId,
}

/// What changes about all players from frame to frame.
pub open spec fn all_changing(players: Map<PlayerId, Player>) -> Map<PlayerId, PlayerSnapshot> {
    players.map_values(|player: Player| player.changing())
}

impl Default for GameServer {
    /// Nobody has joined yet.
    fn default() -> (server: GameServer)
        ensures
            server.wf(),
            server.players@ == Map::<PlayerId, Player>::empty(),
            server.next_id == 0,
    {
        GameServer { players: HashMap::new(), next_id: 0 }
    }
}

impl GameServer {
    /// Ids are given out in order.
    pub open spec fn wf(self) -> bool {
        forall|id: PlayerId| #[trigger] self.players@.contains_key(id) ==> id < self.next_id
    }

    /// Steps all balls forward in time.
    ///
    /// `step` gives the position and the velocity of a player's ball after that.
    pub fn tick<B: Fn(&Player) -> (Point, Vector)>(&mut self, step: &B)
        requires
            forall|player: &Player| call_requires(*step, (player,)),
        ensures
            old(self).wf() ==> final(self).wf(),
            final(self).next_id == old(self).next_id,
            final(self).players@.dom() == old(self).players@.dom(),
            forall|id: PlayerId| #[trigger]
                old(self).players@.contains_key(id) ==> {
                    let before = old(self).players@[id];
                    let after = final(self).players@[id];
                    &&& after.position == before.position
                    &&& after.color == before.color
                    &&& call_ensures(*step, (&before,), (after.position_ball, after.velocity_ball))
                },
    {
        let move_on = |player: &Player| -> (moved: Player)
            ensures
                moved.position == player.position,
                moved.color == player.color,
                call_ensures(*step, (player,), (moved.position_ball, moved.velocity_ball)),
            {
                let (position_ball, velocity_ball) = step(player);
                Player { position_ball, velocity_ball, ..*player }
            };
        let players = mapped(&self.players, &move_on);
        self.players = players;
    }

    /// Takes a snapshot of all players.
    pub fn snapshot(&self) -> (snapshot: Snapshot)
        ensures
            snapshot.players@ == all_changing(self.players@),
    {
        let taken = |player: &Player| -> (snapshot: PlayerSnapshot)
            ensures
                snapshot == player.changing(),
            { player.snapshot() };
        let players = mapped(&self.players, &taken);
        assert(players@ =~= all_changing(self.players@));
        Snapshot { players }
    }

    /// Adds a player, and returns its id.
    ///
    /// `color` gives the color for a hue.
    pub fn add_player<L: Fn(u32) -> Color>(&mut self, color: &L) -> (id: PlayerId)
        requires
            old(self).wf(),
            old(self).next_id < PlayerId::MAX,
            forall|hue: u32| call_requires(*color, (hue,)),
        ensures
            final(self).wf(),
            id == old(self).next_id,
            final(self).next_id == id + 1,
            !old(self).players@.contains_key(id),
            exists|player: Player| #[trigger]
                at_rest(player, *color) && final(self).players@ == old(self).players@.insert(
                    id,
                    player,
                ),
    {
        let id: PlayerId = self.next_id;
        self.next_id = self.next_id + 1;
        let player: Player = Player::with_random_color(color);
        self.players.insert(id, player);
        assert(at_rest(player, *color));
        id
    }

    /// Removes a player.
    pub fn remove_player(&mut self, id: PlayerId)
        ensures
            old(self).wf() ==> final(self).wf(),
            final(self).players@ == old(self).players@.remove(id),
            final(self).next_id == old(self).next_id,
    {
        self.players.remove(&id);
    }
}

} // verus!
