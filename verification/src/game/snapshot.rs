//! The state of all players at one moment, and in between two.

use std::collections::HashMap;
use vstd::prelude::*;

use crate::game::{Ball, PlayerId, PlayerState};
use crate::keys::{keys, lists_keys};
use crate::number::{Point, Real, Vector};

verus! {

broadcast use vstd::std_specs::hash::group_hash_axioms;

/// The state of all players at one moment.
pub struct Snapshot {
    pub players: HashMap<PlayerId, PlayerState>,
}

/// Whether `lerp`, which interpolates between two numbers, may give this point between two.
pub open spec fn point_between<F: Fn(Real, Real, Real) -> Real>(
    a: Point,
    b: Point,
    alpha: Real,
    result: Point,
    lerp: F,
) -> bool {
    &&& call_ensures(lerp, (a.x, b.x, alpha), result.x)
    &&& call_ensures(lerp, (a.y, b.y, alpha), result.y)
}

/// Whether `lerp` may give this vector between two.
pub open spec fn vector_between<F: Fn(Real, Real, Real) -> Real>(
    a: Vector,
    b: Vector,
    alpha: Real,
    result: Vector,
    lerp: F,
) -> bool {
    &&& call_ensures(lerp, (a.x, b.x, alpha), result.x)
    &&& call_ensures(lerp, (a.y, b.y, alpha), result.y)
}

/// Whether `lerp` may give this ball between two.
pub open spec fn ball_between<F: Fn(Real, Real, Real) -> Real>(
    a: Ball,
    b: Ball,
    alpha: Real,
    result: Ball,
    lerp: F,
) -> bool {
    &&& point_between(a.position, b.position, alpha, result.position, lerp)
    &&& vector_between(a.velocity, b.velocity, alpha, result.velocity, lerp)
}

/// Whether `lerp` may give this state of a player between two.
///
/// There is no way between being alive and being dead: the later of the two states counts.
pub open spec fn state_between<F: Fn(Real, Real, Real) -> Real>(
    a: PlayerState,
    b: PlayerState,
    alpha: Real,
    result: PlayerState,
    lerp: F,
) -> bool {
    &&& ball_between(a.ball, b.ball, alpha, result.ball, lerp)
    &&& match (a.cursor, b.cursor) {
        (Some(from), Some(to)) => {
            &&& result.cursor matches Some(cursor)
            &&& point_between(from, to, alpha, cursor, lerp)
        },
        _ => result.cursor == b.cursor,
    }
}

impl Point {
    /// Interpolates between two points.
    pub fn interpolate<F: Fn(Real, Real, Real) -> Real>(self, other: Point, alpha: Real, lerp: &F) -> (result:
        Point)
        requires
            forall|a: Real, b: Real, alpha: Real| call_requires(*lerp, (a, b, alpha)),
        ensures
            point_between(self, other, alpha, result, *lerp),
    {
        Point { x: lerp(self.x, other.x, alpha), y: lerp(self.y, other.y, alpha) }
    }
}

impl Vector {
    /// Interpolates between two vectors.
    pub fn interpolate<F: Fn(Real, Real, Real) -> Real>(
        self,
        other: Vector,
        alpha: Real,
        lerp: &F,
    ) -> (result: Vector)
        requires
            forall|a: Real, b: Real, alpha: Real| call_requires(*lerp, (a, b, alpha)),
        ensures
            vector_between(self, other, alpha, result, *lerp),
    {
        Vector { x: lerp(self.x, other.x, alpha), y: lerp(self.y, other.y, alpha) }
    }
}

impl Ball {
    /// Interpolates between two states of a ball.
    pub fn interpolate<F: Fn(Real, Real, Real) -> Real>(self, other: Ball, alpha: Real, lerp: &F) -> (result:
        Ball)
        requires
            forall|a: Real, b: Real, alpha: Real| call_requires(*lerp, (a, b, alpha)),
        ensures
            ball_between(self, other, alpha, result, *lerp),
    {
        Ball {
            position: self.position.interpolate(other.position, alpha, lerp),
            velocity: self.velocity.interpolate(other.velocity, alpha, lerp),
        }
    }
}

impl PlayerState {
    /// Interpolates between two states of a player.
    pub fn interpolate<F: Fn(Real, Real, Real) -> Real>(
        self,
        other: PlayerState,
        alpha: Real,
        lerp: &F,
    ) -> (result: PlayerState)
        requires
            forall|a: Real, b: Real, alpha: Real| call_requires(*lerp, (a, b, alpha)),
        ensures
            state_between(self, other, alpha, result, *lerp),
    {
        let cursor: Option<Point> = match (self.cursor, other.cursor) {
            (Some(from), Some(to)) => Some(from.interpolate(to, alpha, lerp)),
            _ => other.cursor,
        };
        PlayerState { cursor, ball: self.ball.interpolate(other.ball, alpha, lerp) }
    }
}

impl Snapshot {
    /// All players and their states, in no particular order.
    pub fn players(&self) -> (list: Vec<(PlayerId, PlayerState)>)
        ensures
            lists_keys(ids_of(list@), self.players@),
            forall|i: int|
                0 <= i < list@.len() ==> (#[trigger] list@[i]).1 == self.players@[list@[i].0],
    {
        let ids: Vec<PlayerId> = keys(&self.players);
        let mut list: Vec<(PlayerId, PlayerState)> = Vec::new();
        let mut at: usize = 0;
        while at < ids.len()
            invariant
                at <= ids@.len(),
                lists_keys(ids@, self.players@),
                list@.len() == at,
                forall|i: int|
                    0 <= i < at ==> (#[trigger] list@[i]).0 == ids@[i] && list@[i].1
                        == self.players@[ids@[i]],
            decreases ids@.len() - at,
        {
            let id: PlayerId = ids[at];
            assert(ids@.contains(id));
            let state: PlayerState = *self.players.get(&id).unwrap();
            list.push((id, state));
            at = at + 1;
        }
        assert(ids_of(list@) =~= ids@);
        list
    }
}

/// The ids in a list of players.
pub open spec fn ids_of<S>(list: Seq<(PlayerId, S)>) -> Seq<PlayerId> {
    list.map_values(|entry: (PlayerId, S)| entry.0)
}

/// The state of all players in between two moments.
#[derive(Copy, Clone)]
pub struct InterpolatedSnapshot<'a> {
    pub alpha: Real,
    pub older: &'a Snapshot,
    pub newer: &'a Snapshot,
}

impl<'a> InterpolatedSnapshot<'a> {
    /// Interpolates between two snapshots: `alpha` is how far the way is from the older
    /// to the newer one.
    pub fn new(alpha: Real, older: &'a Snapshot, newer: &'a Snapshot) -> (snapshot:
        InterpolatedSnapshot<'a>)
        ensures
            snapshot.alpha == alpha,
            snapshot.older == older,
            snapshot.newer == newer,
    {
        InterpolatedSnapshot { alpha, older, newer }
    }

    /// Whether a player of the newer snapshot may be shown in this state.
    pub open spec fn shows<F: Fn(Real, Real, Real) -> Real>(
        self,
        id: PlayerId,
        state: PlayerState,
        lerp: F,
    ) -> bool {
        if self.older.players@.contains_key(id) {
            state_between(
                self.older.players@[id],
                self.newer.players@[id],
                self.alpha,
                state,
                lerp,
            )
        } else {
            state == self.newer.players@[id]
        }
    }

    /// The state of one player, if the newer snapshot has it.
    pub fn get<F: Fn(Real, Real, Real) -> Real>(&self, id: PlayerId, lerp: &F) -> (result: Option<
        PlayerState,
    >)
        requires
            forall|a: Real, b: Real, alpha: Real| call_requires(*lerp, (a, b, alpha)),
        ensures
            result is Some <==> self.newer.players@.contains_key(id),
            result matches Some(state) ==> self.shows(id, state, *lerp),
    {
        match self.newer.players.get(&id) {
            Some(newer) => match self.older.players.get(&id) {
                // If the old snapshot contains this player, interpolate.
                Some(older) => Some(older.interpolate(*newer, self.alpha, lerp)),
                // Otherwise just use only the new snapshots.
                None => Some(*newer),
            },
            None => None,
        }
    }

    /// All players of the newer snapshot and their states, in no particular order.
    pub fn players<F: Fn(Real, Real, Real) -> Real>(&self, lerp: &F) -> (list: Vec<
        (PlayerId, PlayerState),
    >)
        requires
            forall|a: Real, b: Real, alpha: Real| call_requires(*lerp, (a, b, alpha)),
        ensures
            lists_keys(ids_of(list@), self.newer.players@),
            forall|i: int|
                0 <= i < list@.len() ==> self.shows(
                    (#[trigger] list@[i]).0,
                    list@[i].1,
                    *lerp,
                ),
    {
        let ids: Vec<PlayerId> = keys(&self.newer.players);
        let mut list: Vec<(PlayerId, PlayerState)> = Vec::new();
        let mut at: usize = 0;
        while at < ids.len()
            invariant
                forall|a: Real, b: Real, alpha: Real| call_requires(*lerp, (a, b, alpha)),
                at <= ids@.len(),
                lists_keys(ids@, self.newer.players@),
                list@.len() == at,
                forall|i: int|
                    0 <= i < at ==> (#[trigger] list@[i]).0 == ids@[i] && self.shows(
                        list@[i].0,
                        list@[i].1,
                        *lerp,
                    ),
            decreases ids@.len() - at,
        {
            let id: PlayerId = ids[at];
            assert(ids@.contains(id));
            let state: Option<PlayerState> = self.get(id, lerp);
            list.push((id, state.unwrap()));
            at = at + 1;
        }
        assert(ids_of(list@) =~= ids@);
        list
    }
}

} // verus!
