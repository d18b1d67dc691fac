//! The game as the server runs it.

use std::collections::HashMap;
use vstd::prelude::*;

use crate::game::hue::{
    beats_all, best_candidate, is_best_candidate, random_candidates, random_hue, HUES,
};
use crate::game::lists::{
    contacts_in, contacts_to_vec, deaths_in, deaths_to_vec, events_in, events_to_vec, no_contacts,
    no_deaths, no_events, push_contact, push_death, push_event,
};
use crate::game::snapshot::Snapshot;
use crate::game::{
    Ball, Event, GameSettings, GetPlayer, PlayerId, PlayerState, RoundState, StaticPlayerState,
};
use crate::keys::{keys, lists_keys, mapped};
use crate::number::{Color, Point, Real};

verus! {

broadcast use vstd::std_specs::hash::group_hash_axioms;

/// A player, as the server knows it.
#[derive(Copy, Clone, Debug)]
pub struct Player {
    pub state: PlayerState,
    pub static_state: StaticPlayerState,
    /// Where the player's color is on the color wheel.
    pub hue: u32,
}

/// The game as the server runs it.
pub struct Game {
    pub players: HashMap<PlayerId, Player>,
    pub round: RoundState,
    pub round_duration: Real,
    pub settings: GameSettings,
    /// The id of the next player to join.
    pub next_id: PlayerId,
}

impl GetPlayer for Player {
    open spec fn player_state(&self) -> PlayerState {
        self.state
    }

    open spec fn player_static_state(&self) -> StaticPlayerState {
        self.static_state
    }

    fn state(&self) -> (state: PlayerState) {
        self.state
    }

    fn static_state(&self) -> (static_state: StaticPlayerState) {
        self.static_state
    }
}

impl Player {
    /// The player with another ball.
    pub open spec fn with_ball(self, ball: Ball) -> Player {
        Player { state: PlayerState { ball, ..self.state }, ..self }
    }

    /// The player after it has died.
    pub open spec fn killed(self) -> Player {
        Player { state: PlayerState { cursor: None, ..self.state }, ..self }
    }
}

/// The bit pattern of 3, the seconds before a round starts.
pub const WAITING_SECS: u32 = 0x4040_0000;

/// The bit pattern of 2, the seconds before a winner is declared.
pub const ROUND_END_SECS: u32 = 0x4000_0000;

/// The bit pattern of 1, the seconds that a winner is shown for.
pub const WINNER_SECS: u32 = 0x3f80_0000;

/// Whether a round state ends by itself after `elapsed` seconds.
pub open spec fn is_over(round: RoundState, elapsed: Real) -> bool {
    match round {
        RoundState::Lobby => false,
        RoundState::Waiting => (Real { bits: WAITING_SECS }).below(elapsed),
        RoundState::Round => false,
        RoundState::RoundEnd => (Real { bits: ROUND_END_SECS }).below(elapsed),
        RoundState::Winner(_) => (Real { bits: WINNER_SECS }).below(elapsed),
    }
}

/// Whether `winner` may be declared: any player who is alive, or nobody if none is.
pub open spec fn may_win(players: Map<PlayerId, Player>, winner: Option<PlayerId>) -> bool {
    match winner {
        Some(id) => players.contains_key(id) && players[id].state.is_alive(),
        None => forall|id: PlayerId| #[trigger]
            players.contains_key(id) ==> !players[id].state.is_alive(),
    }
}

/// The round state that follows one that is over.
pub open spec fn follows(
    players: Map<PlayerId, Player>,
    round: RoundState,
    next: RoundState,
) -> bool {
    match round {
        RoundState::Lobby => false,
        RoundState::Waiting => next == RoundState::Round,
        RoundState::Round => false,
        RoundState::RoundEnd => next matches RoundState::Winner(winner) && may_win(players, winner),
        RoundState::Winner(_) => next == RoundState::Waiting,
    }
}

/// Whether one or less players are still alive.
pub open spec fn one_or_less_alive(players: Map<PlayerId, Player>) -> bool {
    forall|a: PlayerId, b: PlayerId|
        #![trigger players.contains_key(a), players.contains_key(b)]
        players.contains_key(a) && players.contains_key(b) && players[a].state.is_alive()
            && players[b].state.is_alive() ==> a == b
}

/// Finds a player who is alive, if there is one.
fn find_alive(players: &HashMap<PlayerId, Player>) -> (winner: Option<PlayerId>)
    ensures
        may_win(players@, winner),
{
    let ids: Vec<PlayerId> = keys(players);
    let mut at: usize = 0;
    while at < ids.len()
        invariant
            at <= ids@.len(),
            lists_keys(ids@, players@),
            forall|i: int| 0 <= i < at ==> !players@[#[trigger] ids@[i]].state.is_alive(),
        decreases ids@.len() - at,
    {
        let id: PlayerId = ids[at];
        assert(ids@.contains(id));
        let player: &Player = players.get(&id).unwrap();
        if player.state.alive() {
            return Some(id);
        }
        at = at + 1;
    }
    assert forall|id: PlayerId| #[trigger] players@.contains_key(id) implies !players@[id].state.is_alive() by {
        assert(ids@.contains(id));
    }
    None
}

/// Checks whether one or less players are still alive.
fn few_alive(players: &HashMap<PlayerId, Player>) -> (few: bool)
    ensures
        few == one_or_less_alive(players@),
{
    let ids: Vec<PlayerId> = keys(players);
    let mut at: usize = 0;
    let mut found: Option<PlayerId> = None;
    while at < ids.len()
        invariant
            at <= ids@.len(),
            lists_keys(ids@, players@),
            match found {
                Some(id) => {
                    &&& players@.contains_key(id)
                    &&& players@[id].state.is_alive()
                    &&& exists|i: int| 0 <= i < at && ids@[i] == id
                    &&& forall|i: int|
                        0 <= i < at && players@[#[trigger] ids@[i]].state.is_alive() ==> ids@[i]
                            == id
                },
                None => forall|i: int|
                    0 <= i < at ==> !players@[#[trigger] ids@[i]].state.is_alive(),
            },
        decreases ids@.len() - at,
    {
        let id: PlayerId = ids[at];
        assert(ids@.contains(id));
        let player: &Player = players.get(&id).unwrap();
        if player.state.alive() {
            if found.is_some() {
                assert(players@.contains_key(found->0) && players@.contains_key(id));
                return false;
            }
            found = Some(id);
        }
        at = at + 1;
    }
    assert forall|a: PlayerId, b: PlayerId|
        #![trigger players@.contains_key(a), players@.contains_key(b)]
        players@.contains_key(a) && players@.contains_key(b) && players@[a].state.is_alive()
            && players@[b].state.is_alive() implies a == b by {
        assert(ids@.contains(a));
        assert(ids@.contains(b));
    }
    true
}

/// The computations that simulating the game takes.
///
/// - `motion` gives the ball of a player after it has moved on by itself for some seconds.
/// - `contact` gives two balls after they have bounced off each other, if they touch.
/// - `wall` gives a ball after it has bounced off the wall, if it touches that.
/// - `touch` says whether a cursor and a ball touch.
#[derive(Copy, Clone)]
pub struct Physics<M, C, W, T> {
    pub motion: M,
    pub contact: C,
    pub wall: W,
    pub touch: T,
}

impl<M, C, W, T> Physics<M, C, W, T> where
    M: Fn(PlayerState, GameSettings, Real) -> Ball,
    C: Fn(Ball, Ball, GameSettings) -> Option<(Ball, Ball)>,
    W: Fn(Ball, GameSettings) -> Option<Ball>,
    T: Fn(Point, Ball, GameSettings) -> bool,
 {
    /// The computations can be made for all values.
    pub open spec fn total(self) -> bool {
        &&& forall|state: PlayerState, settings: GameSettings, dt: Real|
            call_requires(self.motion, (state, settings, dt))
        &&& forall|a: Ball, b: Ball, settings: GameSettings|
            call_requires(self.contact, (a, b, settings))
        &&& forall|ball: Ball, settings: GameSettings| call_requires(self.wall, (ball, settings))
        &&& forall|cursor: Point, ball: Ball, settings: GameSettings|
            call_requires(self.touch, (cursor, ball, settings))
    }

    /// All balls have moved by themselves.
    pub open spec fn moved(
        self,
        before: Map<PlayerId, Player>,
        after: Map<PlayerId, Player>,
        settings: GameSettings,
        dt: Real,
    ) -> bool {
        &&& after.dom() == before.dom()
        &&& forall|id: PlayerId| #[trigger]
            before.contains_key(id) ==> {
                &&& after[id] == before[id].with_ball(after[id].state.ball)
                &&& call_ensures(
                    self.motion,
                    (before[id].state, settings, dt),
                    after[id].state.ball,
                )
            }
    }

    /// All pairs of balls have been checked for contact, and those in contact have bounced.
    pub open spec fn collided(
        self,
        before: Map<PlayerId, Player>,
        after: Map<PlayerId, Player>,
        settings: GameSettings,
    ) -> bool {
        exists|contacts: Seq<Contact>| #[trigger]
            self.checked_all(before, settings, contacts) && after == bounced(before, contacts)
    }

    /// Every unordered pair of players has been checked once, in some order.
    pub open spec fn checked_all(
        self,
        players: Map<PlayerId, Player>,
        settings: GameSettings,
        contacts: Seq<Contact>,
    ) -> bool {
        &&& every_pair_once(players, contacts)
        &&& forall|i: int|
            0 <= i < contacts.len() ==> call_ensures(
                self.contact,
                (
                    players[(#[trigger] contacts[i]).a].state.ball,
                    players[contacts[i].b].state.ball,
                    settings,
                ),
                contacts[i].outcome,
            )
    }

    /// A player whose ball has hit the wall has died, and its ball has bounced.
    pub open spec fn walled(self, before: Player, after: Player, settings: GameSettings) -> bool {
        ||| call_ensures(self.wall, (before.state.ball, settings), None) && after == before
        ||| exists|ball: Ball| #[trigger]
            call_ensures(self.wall, (before.state.ball, settings), Some(ball)) && after
                == before.with_ball(ball).killed()
    }

    /// All balls have been checked against the wall.
    pub open spec fn walled_all(
        self,
        before: Map<PlayerId, Player>,
        after: Map<PlayerId, Player>,
        settings: GameSettings,
    ) -> bool {
        &&& after.dom() == before.dom()
        &&& forall|id: PlayerId| #[trigger]
            before.contains_key(id) ==> self.walled(before[id], after[id], settings)
    }

    /// All cursors have been checked against the balls that may kill them, and
    /// those that were touched are gone. `hits` are pairs of a player and the owner of a
    /// ball.
    pub open spec fn hit_by(
        self,
        before: Map<PlayerId, Player>,
        after: Map<PlayerId, Player>,
        settings: GameSettings,
        hits: Set<(PlayerId, PlayerId)>,
    ) -> bool {
        &&& forall|id: PlayerId, owner: PlayerId|
            #![trigger hits.contains((id, owner))]
            may_kill(before, settings, id, owner) ==> call_ensures(
                self.touch,
                (before[id].state.cursor->0, before[owner].state.ball, settings),
                hits.contains((id, owner)),
            )
        &&& after.dom() == before.dom()
        &&& forall|id: PlayerId| #[trigger]
            before.contains_key(id) ==> after[id] == (if is_hit(before, settings, id, hits) {
                before[id].killed()
            } else {
                before[id]
            })
    }

    /// The game has been simulated for `dt` seconds.
    pub open spec fn stepped(
        self,
        before: Map<PlayerId, Player>,
        after: Map<PlayerId, Player>,
        settings: GameSettings,
        dt: Real,
    ) -> bool {
        exists|
            moved: Map<PlayerId, Player>,
            collided: Map<PlayerId, Player>,
            walled: Map<PlayerId, Player>,
            hits: Set<(PlayerId, PlayerId)>,
        | #[trigger]
            self.phases(before, moved, collided, walled, hits, after, settings, dt)
    }

    /// The game has gone through each phase of a step.
    pub open spec fn phases(
        self,
        before: Map<PlayerId, Player>,
        moved: Map<PlayerId, Player>,
        collided: Map<PlayerId, Player>,
        walled: Map<PlayerId, Player>,
        hits: Set<(PlayerId, PlayerId)>,
        after: Map<PlayerId, Player>,
        settings: GameSettings,
        dt: Real,
    ) -> bool {
        &&& self.moved(before, moved, settings, dt)
        &&& self.collided(moved, collided, settings)
        &&& self.walled_all(collided, walled, settings)
        &&& self.hit_by(walled, after, settings, hits)
    }

    /// The game has been simulated for several steps, one after the other.
    pub open spec fn simulated(
        self,
        before: Map<PlayerId, Player>,
        after: Map<PlayerId, Player>,
        settings: GameSettings,
        steps: Seq<Real>,
    ) -> bool
        decreases steps.len(),
    {
        if steps.len() == 0 {
            after == before
        } else {
            exists|middle: Map<PlayerId, Player>|
                self.simulated(before, middle, settings, steps.drop_last())
                    && #[trigger] self.stepped(middle, after, settings, steps.last())
        }
    }
}

/// A check of two balls for contact.
pub struct Contact {
    pub a: PlayerId,
    pub b: PlayerId,
    /// The two balls after they have bounced off each other, if they touch.
    pub outcome: Option<(Ball, Ball)>,
}

/// The players after the balls in contact have bounced, one pair after the other.
pub open spec fn bounced(
    players: Map<PlayerId, Player>,
    contacts: Seq<Contact>,
) -> Map<PlayerId, Player>
    decreases contacts.len(),
{
    if contacts.len() == 0 {
        players
    } else {
        let earlier = bounced(players, contacts.drop_last());
        let contact = contacts.last();
        match contact.outcome {
            Some((ball_a, ball_b)) => {
                let first = earlier.insert(contact.a, earlier[contact.a].with_ball(ball_a));
                first.insert(contact.b, first[contact.b].with_ball(ball_b))
            },
            None => earlier,
        }
    }
}

/// Whether the contacts are of players, and every unordered pair of players is there once.
pub open spec fn every_pair_once(
    players: Map<PlayerId, Player>,
    contacts: Seq<Contact>,
) -> bool {
    &&& forall|i: int|
        0 <= i < contacts.len() ==> {
            &&& (#[trigger] contacts[i]).a < contacts[i].b
            &&& players.contains_key(contacts[i].a)
            &&& players.contains_key(contacts[i].b)
        }
    &&& forall|i: int, j: int|
        0 <= i < j < contacts.len() ==> (#[trigger] contacts[i]).a != (#[trigger] contacts[j]).a
            || contacts[i].b != contacts[j].b
    &&& forall|a: PlayerId, b: PlayerId|
        #![trigger players.contains_key(a), players.contains_key(b)]
        a < b && players.contains_key(a) && players.contains_key(b) ==> exists|i: int|
            0 <= i < contacts.len() && (#[trigger] contacts[i]).a == a && contacts[i].b == b
}

/// Whether the ball of `owner` kills the player `id` if it touches the
/// player's cursor: players do not kill themselves unless that setting is on.
pub open spec fn may_kill(
    players: Map<PlayerId, Player>,
    settings: GameSettings,
    id: PlayerId,
    owner: PlayerId,
) -> bool {
    &&& players.contains_key(id)
    &&& players.contains_key(owner)
    &&& players[id].state.is_alive()
    &&& id != owner || settings.kill_own_cursor
}

/// Whether a player dies if the balls of `owners` touch its cursor.
spec fn dies_by(
    players: Map<PlayerId, Player>,
    settings: GameSettings,
    id: PlayerId,
    owners: Set<PlayerId>,
) -> bool {
    exists|owner: PlayerId|
        may_kill(players, settings, id, owner) && #[trigger] owners.contains(owner)
}

/// Whether some ball that kills a player has touched its cursor.
pub open spec fn is_hit(
    players: Map<PlayerId, Player>,
    settings: GameSettings,
    id: PlayerId,
    hits: Set<(PlayerId, PlayerId)>,
) -> bool {
    exists|owner: PlayerId|
        may_kill(players, settings, id, owner) && #[trigger] hits.contains((id, owner))
}

impl<M, C, W, T> Physics<M, C, W, T> where
    M: Fn(PlayerState, GameSettings, Real) -> Ball,
    C: Fn(Ball, Ball, GameSettings) -> Option<(Ball, Ball)>,
    W: Fn(Ball, GameSettings) -> Option<Ball>,
    T: Fn(Point, Ball, GameSettings) -> bool,
 {
    /// Calculates individual ball spring physics.
    fn move_all(&self, players: &mut HashMap<PlayerId, Player>, settings: GameSettings, dt: Real)
        requires
            self.total(),
        ensures
            self.moved(old(players)@, final(players)@, settings, dt),
    {
        let ids: Vec<PlayerId> = keys(players);
        let ghost before = players@;
        let mut at: usize = 0;
        while at < ids.len()
            invariant
                self.total(),
                at <= ids@.len(),
                lists_keys(ids@, before),
                players@.dom() == before.dom(),
                forall|i: int|
                    0 <= i < at ==> {
                        let id = #[trigger] ids@[i];
                        &&& players@[id] == before[id].with_ball(players@[id].state.ball)
                        &&& call_ensures(
                            self.motion,
                            (before[id].state, settings, dt),
                            players@[id].state.ball,
                        )
                    },
                forall|i: int|
                    at <= i < ids@.len() ==> players@[#[trigger] ids@[i]] == before[ids@[i]],
            decreases ids@.len() - at,
        {
            let id: PlayerId = ids[at];
            assert(ids@.contains(id));
            assert(players@.contains_key(id));
            let mut player: Player = *players.get(&id).unwrap();
            let ball: Ball = (self.motion)(player.state, settings, dt);
            player.state.ball = ball;
            players.insert(id, player);
            assert(players@.dom() =~= before.dom());
            at = at + 1;
        }
        assert forall|id: PlayerId| #[trigger] before.contains_key(id) implies {
            &&& players@[id] == before[id].with_ball(players@[id].state.ball)
            &&& call_ensures(
                self.motion,
                (before[id].state, settings, dt),
                players@[id].state.ball,
            )
        } by {
            assert(ids@.contains(id));
        }
    }

    /// Checks for collisions between balls.
    fn check_all(&self, players: &HashMap<PlayerId, Player>, settings: GameSettings) -> (contacts:
        Vec<Contact>)
        requires
            self.total(),
        ensures
            self.checked_all(players@, settings, contacts@),
    {
        let ids: Vec<PlayerId> = keys(players);
        let pairs: Vec<(PlayerId, PlayerId)> = unordered_pairs(&ids);
        let ghost before = players@;
        let mut checked = no_contacts();
        let mut at: usize = 0;
        while at < pairs.len()
            invariant
                self.total(),
                at <= pairs@.len(),
                lists_keys(ids@, before),
                lists_pairs(pairs@, ids@),
                players@ == before,
                contacts_in(checked).len() == at,
                forall|k: int|
                    0 <= k < at ==> {
                        let contact = #[trigger] contacts_in(checked)[k];
                        &&& (contact.a, contact.b) == pairs@[k]
                        &&& call_ensures(
                            self.contact,
                            (before[contact.a].state.ball, before[contact.b].state.ball, settings),
                            contact.outcome,
                        )
                    },
            decreases pairs@.len() - at,
        {
            let (a, b): (PlayerId, PlayerId) = pairs[at];
            assert(pairs@.contains((a, b)));
            assert(ids@.contains(a) && ids@.contains(b));
            let ball_a: Ball = players.get(&a).unwrap().state.ball;
            let ball_b: Ball = players.get(&b).unwrap().state.ball;
            let outcome: Option<(Ball, Ball)> = (self.contact)(ball_a, ball_b, settings);
            push_contact(&mut checked, Contact { a, b, outcome });
            at = at + 1;
        }
        let contacts: Vec<Contact> = contacts_to_vec(checked);
        proof {
            lemma_pairs_checked(before, ids@, pairs@, contacts@);
        }
        contacts
    }

    /// Checks for collisions between balls, and processes them.
    fn collide_all(&self, players: &mut HashMap<PlayerId, Player>, settings: GameSettings)
        requires
            self.total(),
        ensures
            self.collided(old(players)@, final(players)@, settings),
    {
        let ghost before = players@;
        let contacts: Vec<Contact> = self.check_all(players, settings);
        assert(self.checked_all(before, settings, contacts@));

        // Process collisions updates.
        let mut k: usize = 0;
        assert(contacts@.take(0) =~= Seq::<Contact>::empty());
        while k < contacts.len()
            invariant
                k <= contacts@.len(),
                players@ == bounced(before, contacts@.take(k as int)),
                players@.dom() == before.dom(),
                every_pair_once(before, contacts@),
            decreases contacts@.len() - k,
        {
            let contact: &Contact = &contacts[k];
            assert(contacts@.take(k + 1).drop_last() =~= contacts@.take(k as int));
            assert(contacts@.take(k + 1).last() == *contact);
            assert(contacts@[k as int].a < contacts@[k as int].b);
            if let Some((ball_a, ball_b)) = contact.outcome {
                assert(players@.contains_key(contact.a));
                let mut a: Player = *players.get(&contact.a).unwrap();
                a.state.ball = ball_a;
                players.insert(contact.a, a);
                assert(players@.dom() =~= before.dom());
                assert(players@.contains_key(contact.b));
                let mut b: Player = *players.get(&contact.b).unwrap();
                b.state.ball = ball_b;
                players.insert(contact.b, b);
                assert(players@.dom() =~= before.dom());
            }
            k = k + 1;
        }
        assert(contacts@.take(contacts@.len() as int) =~= contacts@);
    }

    /// Checks for collisions with walls. Those who hit them die.
    fn wall_all(&self, players: &mut HashMap<PlayerId, Player>, settings: GameSettings)
        requires
            self.total(),
        ensures
            self.walled_all(old(players)@, final(players)@, settings),
    {
        let ids: Vec<PlayerId> = keys(players);
        let ghost before = players@;
        let mut at: usize = 0;
        while at < ids.len()
            invariant
                self.total(),
                at <= ids@.len(),
                lists_keys(ids@, before),
                players@.dom() == before.dom(),
                forall|i: int|
                    0 <= i < at ==> self.walled(
                        before[#[trigger] ids@[i]],
                        players@[ids@[i]],
                        settings,
                    ),
                forall|i: int|
                    at <= i < ids@.len() ==> players@[#[trigger] ids@[i]] == before[ids@[i]],
            decreases ids@.len() - at,
        {
            let id: PlayerId = ids[at];
            assert(ids@.contains(id));
            assert(players@.contains_key(id));
            let mut player: Player = *players.get(&id).unwrap();
            let ghost unhit = player;
            let outcome: Option<Ball> = (self.wall)(player.state.ball, settings);
            if let Some(ball) = outcome {
                player.state.ball = ball;
                player.state.cursor = None;
                assert(call_ensures(self.wall, (unhit.state.ball, settings), Some(ball)));
                assert(player == unhit.with_ball(ball).killed());
                players.insert(id, player);
                assert(players@.dom() =~= before.dom());
            }
            assert(self.walled(before[id], players@[id], settings));
            at = at + 1;
        }
        assert forall|id: PlayerId| #[trigger] before.contains_key(id) implies self.walled(
            before[id],
            players@[id],
            settings,
        ) by {
            assert(ids@.contains(id));
        }
    }

    /// Finds whether a player is killed, and the owners of the balls that touch its cursor.
    fn deaths_of(
        &self,
        players: &HashMap<PlayerId, Player>,
        settings: GameSettings,
        ids: &Vec<PlayerId>,
        id: PlayerId,
    ) -> (result: (bool, Ghost<Set<PlayerId>>))
        requires
            self.total(),
            lists_keys(ids@, players@),
            players@.contains_key(id),
        ensures
            self.touched_by(players@, settings, id, result.1@),
            result.0 == dies_by(players@, settings, id, result.1@),
    {
        let player: Player = *players.get(&id).unwrap();
        let ghost mut owners: Set<PlayerId> = Set::empty();
        let mut dies: bool = false;
        if let Some(cursor) = player.state.cursor {
            let mut at: usize = 0;
            while at < ids.len()
                invariant
                    self.total(),
                    at <= ids@.len(),
                    lists_keys(ids@, players@),
                    players@.contains_key(id),
                    players@[id].state.cursor == Some(cursor),
                    forall|owner: PlayerId| #[trigger]
                        owners.contains(owner) ==> exists|i: int|
                            0 <= i < at && #[trigger] ids@[i] == owner,
                    forall|i: int|
                        0 <= i < at && may_kill(
                            players@,
                            settings,
                            id,
                            #[trigger] ids@[i],
                        ) ==> call_ensures(
                            self.touch,
                            (cursor, players@[ids@[i]].state.ball, settings),
                            owners.contains(ids@[i]),
                        ),
                    dies <==> exists|owner: PlayerId|
                        may_kill(players@, settings, id, owner) && #[trigger] owners.contains(
                            owner,
                        ),
                decreases ids@.len() - at,
            {
                let owner: PlayerId = ids[at];
                assert(ids@.contains(owner));
                let ghost owners_before = owners;
                assert(!owners.contains(owner));
                // Don't let players kill themselves
                // unless that setting is on.
                if id != owner || settings.kill_own_cursor {
                    let ball: Ball = players.get(&owner).unwrap().state.ball;
                    let hit: bool = (self.touch)(cursor, ball, settings);
                    if hit {
                        proof {
                            owners = owners.insert(owner);
                            assert(owners.contains(owner));
                            assert(may_kill(players@, settings, id, owner));
                            assert forall|i: int| 0 <= i < at implies owners.contains(
                                #[trigger] ids@[i],
                            ) == owners_before.contains(ids@[i]) by {
                                assert(ids@[i] != ids@[at as int]);
                            }
                        }
                        dies = true;
                    }
                }
                proof {
                    assert forall|o: PlayerId| #[trigger] owners.contains(o) implies exists|i: int|
                        0 <= i < at + 1 && #[trigger] ids@[i] == o by {
                        if owners_before.contains(o) {
                            let i = choose|i: int| 0 <= i < at && #[trigger] ids@[i] == o;
                            assert(ids@[i] == o);
                        } else {
                            assert(ids@[at as int] == o);
                        }
                    }
                    if exists|o: PlayerId|
                        may_kill(players@, settings, id, o) && #[trigger] owners.contains(o) {
                        if !dies {
                            assert(owners == owners_before);
                        }
                    }
                }
                at = at + 1;
            }
            assert forall|owner: PlayerId|
                #![trigger owners.contains(owner)]
                may_kill(players@, settings, id, owner) implies call_ensures(
                self.touch,
                (cursor, players@[owner].state.ball, settings),
                owners.contains(owner),
            ) by {
                assert(ids@.contains(owner));
            }
        }
        (dies, Ghost(owners))
    }

    /// The balls that may kill a player have been checked, and `owners` have those that
    /// touch its cursor.
    spec fn touched_by(
        self,
        players: Map<PlayerId, Player>,
        settings: GameSettings,
        id: PlayerId,
        owners: Set<PlayerId>,
    ) -> bool {
        forall|owner: PlayerId|
            #![trigger owners.contains(owner)]
            may_kill(players, settings, id, owner) ==> call_ensures(
                self.touch,
                (players[id].state.cursor->0, players[owner].state.ball, settings),
                owners.contains(owner),
            )
    }

    /// Checks for collisions with cursors, and processes them.
    fn hit_all(&self, players: &mut HashMap<PlayerId, Player>, settings: GameSettings) -> (hits:
        Ghost<Set<(PlayerId, PlayerId)>>)
        requires
            self.total(),
        ensures
            self.hit_by(old(players)@, final(players)@, settings, hits@),
    {
        let ids: Vec<PlayerId> = keys(players);
        let ghost before = players@;
        let mut dying = no_deaths();
        let ghost mut dies_at: Seq<bool> = Seq::empty();
        let ghost mut touching: Seq<Set<PlayerId>> = Seq::empty();
        let mut at: usize = 0;
        while at < ids.len()
            invariant
                self.total(),
                at <= ids@.len(),
                lists_keys(ids@, before),
                players@ == before,
                dies_at.len() == at,
                touching.len() == at,
                forall|i: int|
                    0 <= i < at ==> self.touched_by(
                        before,
                        settings,
                        ids@[i],
                        #[trigger] touching[i],
                    ),
                forall|i: int|
                    0 <= i < at ==> #[trigger] dies_at[i] == dies_by(
                        before,
                        settings,
                        ids@[i],
                        touching[i],
                    ),
                forall|k: int|
                    0 <= k < deaths_in(dying).len() ==> dies_somewhere(
                        ids@,
                        dies_at,
                        #[trigger] deaths_in(dying)[k],
                    ),
                forall|i: int|
                    0 <= i < at && #[trigger] dies_at[i] ==> deaths_in(dying).contains(ids@[i]),
            decreases ids@.len() - at,
        {
            let id: PlayerId = ids[at];
            assert(ids@.contains(id));
            let (dies, owners): (bool, Ghost<Set<PlayerId>>) = self.deaths_of(
                players,
                settings,
                &ids,
                id,
            );
            let ghost earlier = deaths_in(dying);
            let ghost dies_before = dies_at;
            if dies {
                push_death(&mut dying, id);
            }
            proof {
                touching = touching.push(owners@);
                dies_at = dies_at.push(dies);
                assert forall|k: int| 0 <= k < deaths_in(dying).len() implies dies_somewhere(
                    ids@,
                    dies_at,
                    #[trigger] deaths_in(dying)[k],
                ) by {
                    if k < earlier.len() {
                        assert(deaths_in(dying)[k] == earlier[k]);
                        assert(dies_somewhere(ids@, dies_before, earlier[k]));
                        let i = choose|i: int|
                            0 <= i < dies_before.len() && #[trigger] ids@[i] == earlier[k]
                                && dies_before[i];
                        assert(dies_at[i] == dies_before[i]);
                        assert(ids@[i] == deaths_in(dying)[k]);
                    } else {
                        assert(ids@[at as int] == deaths_in(dying)[k]);
                    }
                }
                assert forall|i: int| 0 <= i < at + 1 && #[trigger] dies_at[i] implies deaths_in(
                    dying,
                ).contains(ids@[i]) by {
                    if i < at {
                        assert(dies_before[i]);
                        let k = choose|k: int| 0 <= k < earlier.len() && earlier[k] == ids@[i];
                        assert(deaths_in(dying)[k] == ids@[i]);
                    } else {
                        assert(deaths_in(dying)[earlier.len() as int] == ids@[i]);
                    }
                }
            }
            at = at + 1;
        }
        let deaths: Vec<PlayerId> = deaths_to_vec(dying);
        let ghost hits: Set<(PlayerId, PlayerId)> = Set::new(
            |hit: (PlayerId, PlayerId)|
                exists|i: int|
                    0 <= i < ids@.len() && #[trigger] ids@[i] == hit.0 && touching[i].contains(
                        hit.1,
                    ),
        );
        proof {
            assert forall|i: int, owner: PlayerId|
                #![trigger ids@[i], hits.contains((ids@[i], owner))]
                0 <= i < ids@.len() implies hits.contains((ids@[i], owner))
                == touching[i].contains(owner) by {
                if hits.contains((ids@[i], owner)) {
                    let j = choose|j: int|
                        0 <= j < ids@.len() && #[trigger] ids@[j] == ids@[i]
                            && touching[j].contains(owner);
                    assert(i == j);
                }
            }
            assert forall|id: PlayerId, owner: PlayerId|
                #![trigger hits.contains((id, owner))]
                may_kill(before, settings, id, owner) implies call_ensures(
                self.touch,
                (before[id].state.cursor->0, before[owner].state.ball, settings),
                hits.contains((id, owner)),
            ) by {
                assert(ids@.contains(id));
                let i = choose|i: int| 0 <= i < ids@.len() && ids@[i] == id;
                assert(self.touched_by(before, settings, ids@[i], touching[i]));
                assert(hits.contains((ids@[i], owner)) == touching[i].contains(owner));
            }
            assert forall|i: int| 0 <= i < ids@.len() implies (#[trigger] dies_at[i] <==> is_hit(
                before,
                settings,
                ids@[i],
                hits,
            )) by {
                if dies_at[i] {
                    let owner = choose|owner: PlayerId|
                        may_kill(before, settings, ids@[i], owner)
                            && #[trigger] touching[i].contains(owner);
                    assert(hits.contains((ids@[i], owner)));
                }
                if is_hit(before, settings, ids@[i], hits) {
                    let owner = choose|owner: PlayerId|
                        may_kill(before, settings, ids@[i], owner) && #[trigger] hits.contains(
                            (ids@[i], owner),
                        );
                    assert(touching[i].contains(owner));
                }
            }
        }

        assert forall|k: int| 0 <= k < deaths@.len() implies before.contains_key(
            #[trigger] deaths@[k],
        ) by {
            assert(dies_somewhere(ids@, dies_at, deaths@[k]));
            assert(ids@.contains(deaths@[k]));
        }

        // Process collisions with cursor.
        let mut at: usize = 0;
        while at < deaths.len()
            invariant
                at <= deaths@.len(),
                players@.dom() == before.dom(),
                forall|k: int| 0 <= k < deaths@.len() ==> before.contains_key(#[trigger] deaths@[k]),
                forall|k: int|
                    0 <= k < at ==> players@[#[trigger] deaths@[k]] == before[deaths@[k]].killed(),
                forall|id: PlayerId| #[trigger]
                    before.contains_key(id) ==> players@[id] == before[id] || (players@[id]
                        == before[id].killed() && deaths@.contains(id)),
            decreases deaths@.len() - at,
        {
            let id: PlayerId = deaths[at];
            assert(before.contains_key(deaths@[at as int]));
            assert(deaths@.contains(id));
            assert(players@.contains_key(id));
            let mut player: Player = *players.get(&id).unwrap();
            player.state.cursor = None;
            players.insert(id, player);
            assert(players@.dom() =~= before.dom());
            at = at + 1;
        }
        assert forall|id: PlayerId| #[trigger] before.contains_key(id) implies players@[id] == (
        if is_hit(before, settings, id, hits) {
            before[id].killed()
        } else {
            before[id]
        }) by {
            assert(ids@.contains(id));
            let i = choose|i: int| 0 <= i < ids@.len() && ids@[i] == id;
            assert(dies_at[i] <==> is_hit(before, settings, ids@[i], hits));
            if dies_at[i] {
                let k = choose|k: int| 0 <= k < deaths@.len() && deaths@[k] == id;
                assert(players@[deaths@[k]] == before[id].killed());
            } else if deaths@.contains(id) {
                let k = choose|k: int| 0 <= k < deaths@.len() && deaths@[k] == id;
                assert(dies_somewhere(ids@, dies_at, deaths@[k]));
                let j = choose|j: int|
                    0 <= j < dies_at.len() && #[trigger] ids@[j] == id && dies_at[j];
                assert(i == j);
            }
        }
        Ghost(hits)
    }

    /// Simulates one step.
    fn step(&self, players: &mut HashMap<PlayerId, Player>, settings: GameSettings, dt: Real)
        requires
            self.total(),
        ensures
            self.stepped(old(players)@, final(players)@, settings, dt),
    {
        let ghost before = players@;
        self.move_all(players, settings, dt);
        let ghost moved = players@;
        self.collide_all(players, settings);
        let ghost collided = players@;
        self.wall_all(players, settings);
        let ghost walled = players@;
        let hits: Ghost<Set<(PlayerId, PlayerId)>> = self.hit_all(players, settings);
        assert(self.phases(before, moved, collided, walled, hits@, players@, settings, dt));
    }
}

/// Whether an id stands where somebody dies.
spec fn dies_somewhere(ids: Seq<PlayerId>, dies_at: Seq<bool>, id: PlayerId) -> bool {
    exists|i: int| 0 <= i < dies_at.len() && #[trigger] ids[i] == id && dies_at[i]
}

/// Whether a list holds every pair of ids whose first is the lesser one, once.
pub open spec fn lists_pairs(pairs: Seq<(PlayerId, PlayerId)>, ids: Seq<PlayerId>) -> bool {
    &&& pairs.no_duplicates()
    &&& forall|a: PlayerId, b: PlayerId| #[trigger]
        pairs.contains((a, b)) <==> a < b && ids.contains(a) && ids.contains(b)
}

/// Lists all unordered pairs of ids.
fn unordered_pairs(ids: &Vec<PlayerId>) -> (pairs: Vec<(PlayerId, PlayerId)>)
    requires
        ids@.no_duplicates(),
    ensures
        lists_pairs(pairs@, ids@),
{
    let mut pairs: Vec<(PlayerId, PlayerId)> = Vec::new();
    let mut i: usize = 0;
    proof {
        reveal(pairs_before);
    }
    while i < ids.len()
        invariant
            i <= ids@.len(),
            ids@.no_duplicates(),
            pairs_before(pairs@, ids@, i as int, 0),
        decreases ids@.len() - i,
    {
        let mut j: usize = 0;
        while j < ids.len()
            invariant
                i < ids@.len(),
                j <= ids@.len(),
                ids@.no_duplicates(),
                pairs_before(pairs@, ids@, i as int, j as int),
            decreases ids@.len() - j,
        {
            // This ensures every unordered pair only gets listed
            // once.
            if ids[i] < ids[j] {
                proof {
                    lemma_pair_listed(pairs@, ids@, i as int, j as int);
                }
                pairs.push((ids[i], ids[j]));
            } else {
                proof {
                    lemma_pair_skipped(pairs@, ids@, i as int, j as int);
                }
            }
            j = j + 1;
        }
        proof {
            lemma_row_done(pairs@, ids@, i as int);
        }
        i = i + 1;
    }
    proof {
        lemma_all_rows_done(pairs@, ids@);
    }
    pairs
}

/// Whether a pair stands at some places before the given ones.
spec fn stands_before(
    ids: Seq<PlayerId>,
    a: PlayerId,
    b: PlayerId,
    i: int,
    j: int,
) -> bool {
    exists|x: int, y: int|
        0 <= x < ids.len() && 0 <= y < ids.len() && (x < i || (x == i && y < j))
            && #[trigger] ids[x] == a && #[trigger] ids[y] == b
}

/// Whether a list holds the pairs at the places before the given ones.
#[verifier::opaque]
spec fn pairs_before(
    pairs: Seq<(PlayerId, PlayerId)>,
    ids: Seq<PlayerId>,
    i: int,
    j: int,
) -> bool {
    &&& pairs.no_duplicates()
    &&& forall|a: PlayerId, b: PlayerId| #[trigger]
        pairs.contains((a, b)) <==> a < b && stands_before(ids, a, b, i, j)
}

proof fn lemma_pair_listed(
    pairs: Seq<(PlayerId, PlayerId)>,
    ids: Seq<PlayerId>,
    i: int,
    j: int,
)
    requires
        0 <= i < ids.len(),
        0 <= j < ids.len(),
        ids.no_duplicates(),
        ids[i] < ids[j],
        pairs_before(pairs, ids, i, j),
    ensures
        pairs_before(pairs.push((ids[i], ids[j])), ids, i, j + 1),
{
    reveal(pairs_before);
    let new = (ids[i], ids[j]);
    let longer = pairs.push(new);
    assert(!pairs.contains(new)) by {
        if stands_before(ids, new.0, new.1, i, j) {
            let (x, y) = choose|x: int, y: int|
                0 <= x < ids.len() && 0 <= y < ids.len() && (x < i || (x == i && y < j))
                    && #[trigger] ids[x] == new.0 && #[trigger] ids[y] == new.1;
            assert(x == i && y == j);
        }
    }
    assert forall|a: PlayerId, b: PlayerId| #[trigger] longer.contains((a, b)) <==> a < b
        && stands_before(ids, a, b, i, j + 1) by {
        assert(longer.contains((a, b)) <==> pairs.contains((a, b)) || (a, b) == new) by {
            if pairs.contains((a, b)) {
                let k = choose|k: int| 0 <= k < pairs.len() && pairs[k] == (a, b);
                assert(longer[k] == (a, b));
            }
            assert(longer[pairs.len() as int] == new);
        }
        if a < b && stands_before(ids, a, b, i, j + 1) {
            let (x, y) = choose|x: int, y: int|
                0 <= x < ids.len() && 0 <= y < ids.len() && (x < i || (x == i && y < j + 1))
                    && #[trigger] ids[x] == a && #[trigger] ids[y] == b;
            if !(x == i && y == j) {
                assert(stands_before(ids, a, b, i, j));
            }
        }
        if stands_before(ids, a, b, i, j) {
            let (x, y) = choose|x: int, y: int|
                0 <= x < ids.len() && 0 <= y < ids.len() && (x < i || (x == i && y < j))
                    && #[trigger] ids[x] == a && #[trigger] ids[y] == b;
            assert(stands_before(ids, a, b, i, j + 1));
        }
    }
}

proof fn lemma_pair_skipped(
    pairs: Seq<(PlayerId, PlayerId)>,
    ids: Seq<PlayerId>,
    i: int,
    j: int,
)
    requires
        0 <= i < ids.len(),
        0 <= j < ids.len(),
        ids[i] >= ids[j],
        pairs_before(pairs, ids, i, j),
    ensures
        pairs_before(pairs, ids, i, j + 1),
{
    reveal(pairs_before);
    assert forall|a: PlayerId, b: PlayerId| #[trigger] pairs.contains((a, b)) <==> a < b
        && stands_before(ids, a, b, i, j + 1) by {
        if a < b && stands_before(ids, a, b, i, j + 1) {
            let (x, y) = choose|x: int, y: int|
                0 <= x < ids.len() && 0 <= y < ids.len() && (x < i || (x == i && y < j + 1))
                    && #[trigger] ids[x] == a && #[trigger] ids[y] == b;
            assert(!(x == i && y == j));
            assert(stands_before(ids, a, b, i, j));
        }
        if stands_before(ids, a, b, i, j) {
            let (x, y) = choose|x: int, y: int|
                0 <= x < ids.len() && 0 <= y < ids.len() && (x < i || (x == i && y < j))
                    && #[trigger] ids[x] == a && #[trigger] ids[y] == b;
            assert(stands_before(ids, a, b, i, j + 1));
        }
    }
}

proof fn lemma_row_done(pairs: Seq<(PlayerId, PlayerId)>, ids: Seq<PlayerId>, i: int)
    requires
        pairs_before(pairs, ids, i, ids.len() as int),
    ensures
        pairs_before(pairs, ids, i + 1, 0),
{
    reveal(pairs_before);
    assert forall|a: PlayerId, b: PlayerId| #[trigger] pairs.contains((a, b)) <==> a < b
        && stands_before(ids, a, b, i + 1, 0) by {
        if stands_before(ids, a, b, i + 1, 0) {
            let (x, y) = choose|x: int, y: int|
                0 <= x < ids.len() && 0 <= y < ids.len() && (x < i + 1 || (x == i + 1 && y < 0))
                    && #[trigger] ids[x] == a && #[trigger] ids[y] == b;
            assert(stands_before(ids, a, b, i, ids.len() as int));
        }
        if stands_before(ids, a, b, i, ids.len() as int) {
            let (x, y) = choose|x: int, y: int|
                0 <= x < ids.len() && 0 <= y < ids.len() && (x < i || (x == i && y < ids.len()))
                    && #[trigger] ids[x] == a && #[trigger] ids[y] == b;
            assert(stands_before(ids, a, b, i + 1, 0));
        }
    }
}

proof fn lemma_all_rows_done(pairs: Seq<(PlayerId, PlayerId)>, ids: Seq<PlayerId>)
    requires
        pairs_before(pairs, ids, ids.len() as int, 0),
    ensures
        lists_pairs(pairs, ids),
{
    reveal(pairs_before);
    assert forall|a: PlayerId, b: PlayerId| #[trigger] pairs.contains((a, b)) <==> a < b
        && ids.contains(a) && ids.contains(b) by {
        if ids.contains(a) && ids.contains(b) {
            let x = choose|x: int| 0 <= x < ids.len() && ids[x] == a;
            let y = choose|y: int| 0 <= y < ids.len() && ids[y] == b;
            assert(ids[x] == a && ids[y] == b);
            assert(stands_before(ids, a, b, ids.len() as int, 0));
        }
    }
}

proof fn lemma_pairs_checked(
    players: Map<PlayerId, Player>,
    ids: Seq<PlayerId>,
    pairs: Seq<(PlayerId, PlayerId)>,
    contacts: Seq<Contact>,
)
    requires
        lists_keys(ids, players),
        lists_pairs(pairs, ids),
        contacts.len() == pairs.len(),
        forall|k: int|
            0 <= k < contacts.len() ==> ((#[trigger] contacts[k]).a, contacts[k].b) == pairs[k],
    ensures
        every_pair_once(players, contacts),
{
    assert forall|i: int| 0 <= i < contacts.len() implies {
        &&& (#[trigger] contacts[i]).a < contacts[i].b
        &&& players.contains_key(contacts[i].a)
        &&& players.contains_key(contacts[i].b)
    } by {
        assert(pairs.contains((contacts[i].a, contacts[i].b)));
        assert(ids.contains(contacts[i].a) && ids.contains(contacts[i].b));
    }
    assert forall|i: int, j: int| 0 <= i < j < contacts.len() implies (#[trigger] contacts[i]).a
        != (#[trigger] contacts[j]).a || contacts[i].b != contacts[j].b by {
        assert(pairs[i] != pairs[j]);
    }
    assert forall|a: PlayerId, b: PlayerId|
        #![trigger players.contains_key(a), players.contains_key(b)]
        a < b && players.contains_key(a) && players.contains_key(b) implies exists|i: int|
        0 <= i < contacts.len() && (#[trigger] contacts[i]).a == a && contacts[i].b == b by {
        assert(ids.contains(a) && ids.contains(b));
        assert(pairs.contains((a, b)));
        let k = choose|k: int| 0 <= k < pairs.len() && pairs[k] == (a, b);
        assert(contacts[k].a == a);
    }
}

impl Default for Game {
    /// An empty lobby.
    fn default() -> (game: Game)
        ensures
            game.wf(),
            game.players@ == Map::<PlayerId, Player>::empty(),
            game.round == RoundState::Lobby,
            game.round_duration.bits == 0,
            game.next_id == 0,
            call_ensures(GameSettings::default, (), game.settings),
    {
        let settings = GameSettings::default();
        Game {
            players: HashMap::new(),
            round: RoundState::Lobby,
            round_duration: Real { bits: 0 },
            settings,
            next_id: 0,
        }
    }
}

/// The states of all players.
pub open spec fn states(players: Map<PlayerId, Player>) -> Map<PlayerId, PlayerState> {
    players.map_values(|player: Player| player.state)
}

/// What is unlikely to change about all players.
pub open spec fn colors(players: Map<PlayerId, Player>) -> Map<PlayerId, StaticPlayerState> {
    players.map_values(|player: Player| player.static_state)
}

/// The hues of all players, in the order that they are listed in.
pub open spec fn hues(players: Map<PlayerId, Player>, ids: Seq<PlayerId>) -> Seq<u32> {
    Seq::new(ids.len(), |i: int| players[ids[i]].hue)
}

/// Whether a hue may be picked for one more player: any at all, if it is the first
/// player, else the best of some random candidates.
pub open spec fn may_be_picked(players: Map<PlayerId, Player>, hue: u32) -> bool {
    &&& hue < HUES
    &&& players.len() > 0 ==> exists|ids: Seq<PlayerId>, samples: Seq<u32>|
        lists_keys(ids, players) && samples.len() == 4 * players.len()
            && #[trigger] is_best_candidate(hues(players, ids), samples, hue)
}

impl Game {
    /// Ids are given out in order, and hues are on the color wheel.
    pub open spec fn orderly(self) -> bool {
        forall|id: PlayerId| #[trigger]
            self.players@.contains_key(id) ==> id < self.next_id && self.players@[id].hue < HUES
    }

    /// There is a lobby exactly as long as there are less than two players.
    pub open spec fn wf(self) -> bool {
        &&& self.orderly()
        &&& self.round == RoundState::Lobby <==> self.players@.len() < 2
    }

    /// Returns the players, in no particular order.
    pub fn players(&self) -> (list: Vec<(PlayerId, Player)>)
        ensures
            list@.len() == self.players@.len(),
            lists_keys(list@.map_values(|entry: (PlayerId, Player)| entry.0), self.players@),
            forall|i: int|
                0 <= i < list@.len() ==> (#[trigger] list@[i]).1 == self.players@[list@[i].0],
    {
        let ids: Vec<PlayerId> = keys(&self.players);
        let mut list: Vec<(PlayerId, Player)> = Vec::new();
        let mut at: usize = 0;
        while at < ids.len()
            invariant
                at <= ids@.len(),
                lists_keys(ids@, self.players@),
                list@.len() == at,
                forall|i: int|
                    0 <= i < at ==> (#[trigger] list@[i]).0 == ids@[i] && list@[i].1
                        == self.players@[ids@[i]],
            decreases ids@.len() - at,
        {
            let id: PlayerId = ids[at];
            assert(ids@.contains(id));
            let player: Player = *self.players.get(&id).unwrap();
            list.push((id, player));
            at = at + 1;
        }
        assert(list@.map_values(|entry: (PlayerId, Player)| entry.0) =~= ids@);
        list
    }

    /// Gets a mutable reference to a player by id.
    pub fn player_mut(&mut self, id: PlayerId) -> (result: Option<&mut Player>)
        ensures
            match result {
                Some(player) => {
                    &&& old(self).players@.contains_key(id)
                    &&& *player == old(self).players@[id]
                    &&& final(self).players@ == old(self).players@.insert(id, *final(player))
                },
                None => {
                    &&& !old(self).players@.contains_key(id)
                    &&& final(self).players@ == old(self).players@
                },
            },
            final(self).round == old(self).round,
            final(self).round_duration == old(self).round_duration,
            final(self).settings == old(self).settings,
            final(self).next_id == old(self).next_id,
    {
        if !self.players.contains_key(&id) {
            return None;
        }
        match self.players.entry(id) {
            std::collections::hash_map::Entry::Occupied(entry) => Some(entry.into_mut()),
            std::collections::hash_map::Entry::Vacant(_) => None,
        }
    }

    /// Sets the location of a player's cursor.
    ///
    /// If this is before the round is started, the starting position
    /// of that player's ball is also updated.
    ///
    /// Returns `false` if there is no player corresponding to the id.
    ///
    /// `start` gives the starting state of the ball for a cursor.
    pub fn set_player_cursor<B: Fn(Point, GameSettings) -> Ball>(
        &mut self,
        id: PlayerId,
        cursor: Point,
        start: &B,
    ) -> (known: bool)
        requires
            forall|cursor: Point, settings: GameSettings| call_requires(*start, (cursor, settings)),
        ensures
            old(self).orderly() ==> final(self).orderly(),
            old(self).wf() ==> final(self).wf(),
            known == old(self).players@.contains_key(id),
            aimed(*old(self), *final(self), id, cursor, *start),
    {
        let mut player: Player = match self.players.get(&id) {
            Some(player) => *player,
            None => return false,
        };
        let ghost before = player.state;

        if self.round.running() {
            player.state.set_cursor(cursor);
        } else {
            // In any non-round states, always set players alive.
            player.state.cursor = Some(cursor);
        }

        if !self.round.running() {
            player.state.ball = start(cursor, self.settings);
        }
        self.players.insert(id, player);
        proof {
            assert(cursor_set(before, player.state, self.round, self.settings, cursor, *start));
            assert(self.players@.dom() =~= old(self).players@.dom());
        }
        true
    }

    /// Generates a snapshot of the current game state.
    pub fn snapshot(&self) -> (snapshot: Snapshot)
        ensures
            snapshot.players@ == states(self.players@),
    {
        let state_of = |player: &Player| -> (state: PlayerState)
            ensures
                state == player.state,
            { player.state };
        let copy = mapped(&self.players, &state_of);
        assert(copy@ =~= states(self.players@));
        Snapshot { players: copy }
    }

    /// Copies what is unlikely to change about all players.
    pub fn static_states(&self) -> (copy: HashMap<PlayerId, StaticPlayerState>)
        ensures
            copy@ == colors(self.players@),
    {
        let color_of = |player: &Player| -> (static_state: StaticPlayerState)
            ensures
                static_state == player.static_state,
            { player.static_state };
        let copy = mapped(&self.players, &color_of);
        assert(copy@ =~= colors(self.players@));
        copy
    }

    fn switch_round(&mut self, round: RoundState)
        ensures
            final(self).round == round,
            final(self).round_duration.bits == 0,
            final(self).players@ == old(self).players@,
            final(self).settings == old(self).settings,
            final(self).next_id == old(self).next_id,
    {
        self.round = round;
        self.round_duration = Real { bits: 0 };
    }

    /// The round state that follows the current one, if that is over.
    fn transition(&self) -> (next: Option<RoundState>)
        ensures
            next is Some <==> is_over(self.round, self.round_duration),
            next matches Some(round) ==> follows(self.players@, self.round, round),
    {
        let elapsed: Real = self.round_duration;
        match self.round {
            RoundState::Lobby => None,
            RoundState::Waiting => {
                if elapsed.greater_than(Real { bits: WAITING_SECS }) {
                    Some(RoundState::Round)
                } else {
                    None
                }
            },
            RoundState::Round => None,
            RoundState::RoundEnd => {
                if elapsed.greater_than(Real { bits: ROUND_END_SECS }) {
                    // If a player is still alive, they win.
                    Some(RoundState::Winner(find_alive(&self.players)))
                } else {
                    None
                }
            },
            RoundState::Winner(_) => {
                if elapsed.greater_than(Real { bits: WINNER_SECS }) {
                    Some(RoundState::Waiting)
                } else {
                    None
                }
            },
        }
    }

    /// Steps the whole game world forward in time.
    ///
    /// `elapsed` is the time that the current round state will have lasted after this,
    /// and `steps` are the chunks of time to be simulated.
    pub fn tick<M, C, W, T>(
        &mut self,
        elapsed: Real,
        steps: &Vec<Real>,
        physics: &Physics<M, C, W, T>,
    ) -> (events: Vec<Event>) where
        M: Fn(PlayerState, GameSettings, Real) -> Ball,
        C: Fn(Ball, Ball, GameSettings) -> Option<(Ball, Ball)>,
        W: Fn(Ball, GameSettings) -> Option<Ball>,
        T: Fn(Point, Ball, GameSettings) -> bool,

        requires
            physics.total(),
        ensures
            old(self).orderly() ==> final(self).orderly(),
            old(self).wf() ==> final(self).wf(),
            final(self).settings == old(self).settings,
            final(self).next_id == old(self).next_id,
            exists|round: RoundState| #[trigger]
                enters(*old(self), elapsed, round) && ticked(
                    *old(self),
                    *final(self),
                    elapsed,
                    round,
                    steps@,
                    *physics,
                    events@,
                ),
    {
        self.round_duration = elapsed;
        let transition: Option<RoundState> = self.transition();
        let mut events: Vec<Event> = Vec::new();
        if let Some(round) = transition {
            self.switch_round(round);
            events.push(Event::RoundState(round));
        }
        let ghost round = self.round;
        assert(enters(*old(self), elapsed, round));
        if !self.round.running() {
            // No simulation happens if not running.
            assert(events@ =~= announced(*old(self), elapsed, round));
            assert(ticked(*old(self), *self, elapsed, round, steps@, *physics, events@));
            return events;
        }
        let settings: GameSettings = self.settings;
        let mut at: usize = 0;
        assert(steps@.take(0) =~= Seq::<Real>::empty());
        let ghost before = self.players@;
        while at < steps.len()
            invariant
                physics.total(),
                at <= steps@.len(),
                settings == self.settings,
                self.round == round,
                self.settings == old(self).settings,
                self.next_id == old(self).next_id,
                self.round_duration == (if is_over(old(self).round, elapsed) {
                    Real { bits: 0 }
                } else {
                    elapsed
                }),
                before == old(self).players@,
                physics.simulated(before, self.players@, settings, steps@.take(at as int)),
            decreases steps@.len() - at,
        {
            let ghost middle = self.players@;
            physics.step(&mut self.players, settings, steps[at]);
            assert(steps@.take(at + 1).drop_last() =~= steps@.take(at as int));
            assert(physics.stepped(middle, self.players@, settings, steps@.take(at + 1).last()));
            at = at + 1;
        }
        assert(steps@.take(steps@.len() as int) =~= steps@);
        proof {
            law_simulation_keeps(*physics, before, self.players@, settings, steps@);
        }

        if let RoundState::Round = self.round {
            // Start the round ending if there are one or less players
            // still alive.
            if few_alive(&self.players) {
                self.switch_round(RoundState::RoundEnd);
                let mut ending: Vec<Event> = Vec::new();
                ending.push(Event::RoundState(self.round));
                assert(ending@ =~= seq![Event::RoundState(RoundState::RoundEnd)]);
                assert(ticked(*old(self), *self, elapsed, round, steps@, *physics, ending@));
                return ending;
            }
        }
        assert(events@ =~= announced(*old(self), elapsed, round));
        assert(ticked(*old(self), *self, elapsed, round, steps@, *physics, events@));
        events
    }

    /// Picks a hue for a new player.
    pub fn pick_hue(&self) -> (hue: u32)
        requires
            self.orderly(),
        ensures
            may_be_picked(self.players@, hue),
    {
        if self.players.is_empty() {
            // There weren't any existing players, so just use uniform
            // RNG.
            return random_hue();
        }
        let samples: Vec<u32> = random_candidates(self.players.len());
        let hue: u32 = self.hue_among(&samples);
        proof {
            let ids = choose|ids: Seq<PlayerId>|
                lists_keys(ids, self.players@) && #[trigger] is_best_candidate(
                    hues(self.players@, ids),
                    samples@,
                    hue,
                );
            let (i, distance) = choose|i: int, distance: int| #[trigger]
                beats_all(hues(self.players@, ids), samples@, i, distance) && samples@[i] == hue;
            assert(samples@[i] < HUES);
        }
        hue
    }

    /// Picks the hue for a new player among some samples: the one that is furthest from the hues of
    /// all players.
    pub fn hue_among(&self, samples: &Vec<u32>) -> (hue: u32)
        requires
            self.orderly(),
            self.players@.len() > 0,
            samples@.len() > 0,
            forall|i: int| 0 <= i < samples@.len() ==> #[trigger] samples@[i] <= HUES,
        ensures
            exists|ids: Seq<PlayerId>|
                lists_keys(ids, self.players@) && #[trigger] is_best_candidate(
                    hues(self.players@, ids),
                    samples@,
                    hue,
                ),
    {
        let ids: Vec<PlayerId> = keys(&self.players);
        let mut taken: Vec<u32> = Vec::new();
        let mut at: usize = 0;
        while at < ids.len()
            invariant
                self.orderly(),
                at <= ids@.len(),
                lists_keys(ids@, self.players@),
                taken@.len() == at,
                forall|i: int|
                    0 <= i < at ==> #[trigger] taken@[i] == self.players@[ids@[i]].hue && taken@[i]
                        < HUES,
            decreases ids@.len() - at,
        {
            let id: PlayerId = ids[at];
            assert(ids@.contains(id));
            taken.push(self.players.get(&id).unwrap().hue);
            at = at + 1;
        }
        assert(taken@ =~= hues(self.players@, ids@));
        best_candidate(&taken, samples)
    }

    /// Adds a new player and returns the id of the added.
    ///
    /// `start` gives the starting state of the ball for a cursor, `color` the color
    /// for a hue.
    pub fn add_player<B: Fn(Point, GameSettings) -> Ball, L: Fn(u32) -> Color>(
        &mut self,
        cursor: Point,
        start: &B,
        color: &L,
    ) -> (result: (PlayerId, Vec<Event>))
        requires
            old(self).orderly(),
            old(self).next_id < PlayerId::MAX,
            forall|cursor: Point, settings: GameSettings| call_requires(*start, (cursor, settings)),
            forall|hue: u32| call_requires(*color, (hue,)),
        ensures
            final(self).orderly(),
            old(self).wf() ==> final(self).wf(),
            result.0 == old(self).next_id,
            !old(self).players@.contains_key(result.0),
            joined(*old(self), *final(self), cursor, *start, *color, result.1@),
    {
        // Generate a new player with random color.
        let hue: u32 = self.pick_hue();
        let result: (PlayerId, Vec<Event>) = self.add_player_with_hue(cursor, hue, start, color);
        assert(joined_with_hue(*old(self), *self, cursor, hue, *start, *color, result.1@));
        result
    }

    /// Adds a new player with a given hue and returns the id of the added.
    ///
    /// `start` gives the starting state of the ball for a cursor, `color` the color
    /// for a hue.
    pub fn add_player_with_hue<B: Fn(Point, GameSettings) -> Ball, L: Fn(u32) -> Color>(
        &mut self,
        cursor: Point,
        hue: u32,
        start: &B,
        color: &L,
    ) -> (result: (PlayerId, Vec<Event>))
        requires
            old(self).orderly(),
            old(self).next_id < PlayerId::MAX,
            hue < HUES,
            forall|cursor: Point, settings: GameSettings| call_requires(*start, (cursor, settings)),
            forall|hue: u32| call_requires(*color, (hue,)),
        ensures
            final(self).orderly(),
            old(self).wf() ==> final(self).wf(),
            result.0 == old(self).next_id,
            !old(self).players@.contains_key(result.0),
            joined_with_hue(*old(self), *final(self), cursor, hue, *start, *color, result.1@),
    {
        let id: PlayerId = self.next_id;
        self.next_id = self.next_id + 1;
        let static_state = StaticPlayerState { color: color(hue) };
        let player = Player {
            state: PlayerState::new(cursor, start(cursor, self.settings)),
            static_state,
            hue,
        };
        assert(joins(*old(self), player, cursor, hue, *start, *color));
        self.players.insert(id, player);

        let mut events = no_events();
        push_event(&mut events, Event::NewPlayer { id, static_state });
        // Queue a waiting round if there are two or more players.
        if let RoundState::Lobby = self.round {
            if self.players.len() >= 2 {
                self.switch_round(RoundState::Waiting);
                push_event(&mut events, Event::RoundState(self.round));
                assert(events_in(events) =~= seq![
                    Event::NewPlayer { id, static_state },
                    Event::RoundState(RoundState::Waiting),
                ]);
                return (id, events_to_vec(events));
            }
        }
        assert(events_in(events) =~= seq![Event::NewPlayer { id, static_state }]);
        (id, events_to_vec(events))
    }

    /// Removes the player with a given id.
    pub fn remove_player(&mut self, id: PlayerId) -> (events: Vec<Event>)
        ensures
            old(self).orderly() ==> final(self).orderly(),
            old(self).wf() ==> final(self).wf(),
            left(*old(self), *final(self), id, events@),
    {
        self.players.remove(&id);

        let mut events = no_events();
        push_event(&mut events, Event::RemovePlayer(id));
        // If there are less than two players left, stop the round.
        if self.players.len() < 2 {
            self.switch_round(RoundState::Lobby);
            push_event(&mut events, Event::RoundState(self.round));
            assert(events_in(events) =~= seq![
                Event::RemovePlayer(id),
                Event::RoundState(RoundState::Lobby),
            ]);
        } else {
            assert(events_in(events) =~= seq![Event::RemovePlayer(id)]);
        }
        events_to_vec(events)
    }
}

/// What setting the cursor makes of the state of a player.
///
/// While a round is running, only players who are alive have a cursor to be set. In any other
/// round state, all players are alive and their balls are put back to their starting states.
pub open spec fn cursor_set<B: Fn(Point, GameSettings) -> Ball>(
    before: PlayerState,
    after: PlayerState,
    round: RoundState,
    settings: GameSettings,
    cursor: Point,
    start: B,
) -> bool {
    if round.is_running() {
        after == PlayerState {
            cursor: if before.is_alive() {
                Some(cursor)
            } else {
                None
            },
            ball: before.ball,
        }
    } else {
        after.cursor == Some(cursor) && call_ensures(start, (cursor, settings), after.ball)
    }
}

/// What setting the cursor of a player makes of a game: nothing, if there is no such player.
pub open spec fn aimed<B: Fn(Point, GameSettings) -> Ball>(
    before: Game,
    after: Game,
    id: PlayerId,
    cursor: Point,
    start: B,
) -> bool {
    &&& if before.players@.contains_key(id) {
        exists|state: PlayerState| #[trigger]
            cursor_set(
                before.players@[id].state,
                state,
                before.round,
                before.settings,
                cursor,
                start,
            ) && after.players@ == before.players@.insert(
                id,
                Player { state, ..before.players@[id] },
            )
    } else {
        after.players@ == before.players@
    }
    &&& after.round == before.round
    &&& after.round_duration == before.round_duration
    &&& after.settings == before.settings
    &&& after.next_id == before.next_id
}

/// What one more player with the given cursor makes of a game, and the events that tell of it: the
/// player gets any hue that may be picked.
pub open spec fn joined<B: Fn(Point, GameSettings) -> Ball, L: Fn(u32) -> Color>(
    before: Game,
    after: Game,
    cursor: Point,
    start: B,
    color: L,
    events: Seq<Event>,
) -> bool {
    exists|hue: u32|
        may_be_picked(before.players@, hue) && #[trigger] joined_with_hue(
            before,
            after,
            cursor,
            hue,
            start,
            color,
            events,
        )
}

/// What one more player with the given cursor and hue makes of a game, and the events that tell of
/// it.
///
/// A lobby ends when there are two players: the next round is waited for.
pub open spec fn joined_with_hue<B: Fn(Point, GameSettings) -> Ball, L: Fn(u32) -> Color>(
    before: Game,
    after: Game,
    cursor: Point,
    hue: u32,
    start: B,
    color: L,
    events: Seq<Event>,
) -> bool {
    let id = before.next_id;
    let waiting = before.round == RoundState::Lobby && before.players@.len() >= 1;
    &&& after.next_id == id + 1
    &&& after.settings == before.settings
    &&& exists|player: Player| #[trigger]
        joins(before, player, cursor, hue, start, color) && after.players@ == before.players@.insert(
            id,
            player,
        ) && events == (if waiting {
            seq![
                Event::NewPlayer { id, static_state: player.static_state },
                Event::RoundState(RoundState::Waiting),
            ]
        } else {
            seq![Event::NewPlayer { id, static_state: player.static_state }]
        })
    &&& if waiting {
        after.round == RoundState::Waiting && after.round_duration.bits == 0
    } else {
        after.round == before.round && after.round_duration == before.round_duration
    }
}

/// What the leaving of a player makes of a game, and the events that tell of it.
///
/// If there are less than two players left, the round is stopped.
pub open spec fn left(before: Game, after: Game, id: PlayerId, events: Seq<Event>) -> bool {
    &&& after.players@ == before.players@.remove(id)
    &&& after.settings == before.settings
    &&& after.next_id == before.next_id
    &&& if after.players@.len() < 2 {
        &&& after.round == RoundState::Lobby
        &&& after.round_duration.bits == 0
        &&& events == seq![Event::RemovePlayer(id), Event::RoundState(RoundState::Lobby)]
    } else {
        &&& after.round == before.round
        &&& after.round_duration == before.round_duration
        &&& events == seq![Event::RemovePlayer(id)]
    }
}

/// Whether a new player with the given cursor and hue may look like this.
pub open spec fn joins<B: Fn(Point, GameSettings) -> Ball, L: Fn(u32) -> Color>(
    game: Game,
    player: Player,
    cursor: Point,
    hue: u32,
    start: B,
    color: L,
) -> bool {
    &&& player.state.cursor == Some(cursor)
    &&& call_ensures(start, (cursor, game.settings), player.state.ball)
    &&& player.hue == hue
    &&& call_ensures(color, (hue,), player.static_state.color)
}

/// Whether a game enters the given round state at the beginning of a tick, or stays in it.
pub open spec fn enters(game: Game, elapsed: Real, round: RoundState) -> bool {
    if is_over(game.round, elapsed) {
        follows(game.players@, game.round, round)
    } else {
        round == game.round
    }
}

/// The events that tell of the round state at the beginning of a tick.
pub open spec fn announced(game: Game, elapsed: Real, round: RoundState) -> Seq<Event> {
    if is_over(game.round, elapsed) {
        seq![Event::RoundState(round)]
    } else {
        Seq::empty()
    }
}

/// What a tick makes of a game that has entered the round state `round`.
///
/// Nothing is simulated unless a round is running, and a round ends as soon as one or less
/// players are alive.
pub open spec fn ticked<M, C, W, T>(
    before: Game,
    after: Game,
    elapsed: Real,
    round: RoundState,
    steps: Seq<Real>,
    physics: Physics<M, C, W, T>,
    events: Seq<Event>,
) -> bool where
    M: Fn(PlayerState, GameSettings, Real) -> Ball,
    C: Fn(Ball, Ball, GameSettings) -> Option<(Ball, Ball)>,
    W: Fn(Ball, GameSettings) -> Option<Ball>,
    T: Fn(Point, Ball, GameSettings) -> bool,
 {
    &&& if round.is_running() {
        physics.simulated(before.players@, after.players@, before.settings, steps)
    } else {
        after.players@ == before.players@
    }
    &&& if round == RoundState::Round && one_or_less_alive(after.players@) {
        &&& after.round == RoundState::RoundEnd
        &&& after.round_duration.bits == 0
        &&& events == seq![Event::RoundState(RoundState::RoundEnd)]
    } else {
        &&& after.round == round
        &&& after.round_duration == (if is_over(before.round, elapsed) {
            Real { bits: 0 }
        } else {
            elapsed
        })
        &&& events == announced(before, elapsed, round)
    }
}

pub proof fn lemma_bounce_keeps(players: Map<PlayerId, Player>, contacts: Seq<Contact>)
    requires
        forall|i: int|
            0 <= i < contacts.len() ==> players.contains_key((#[trigger] contacts[i]).a)
                && players.contains_key(contacts[i].b),
    ensures
        bounced(players, contacts).dom() == players.dom(),
        forall|id: PlayerId| #[trigger]
            players.contains_key(id) ==> same_but_ball(players[id], bounced(players, contacts)[id]),
    decreases contacts.len(),
{
    if contacts.len() > 0 {
        let earlier = contacts.drop_last();
        assert forall|i: int| 0 <= i < earlier.len() implies players.contains_key(
            (#[trigger] earlier[i]).a,
        ) && players.contains_key(earlier[i].b) by {
            assert(earlier[i] == contacts[i]);
        }
        lemma_bounce_keeps(players, earlier);
        let last = contacts.last();
        assert(last == contacts[contacts.len() - 1]);
        assert(players.contains_key(last.a) && players.contains_key(last.b));
        assert(bounced(players, contacts).dom() =~= players.dom());
    }
}

/// Whether two players differ at most in their balls.
pub open spec fn same_but_ball(a: Player, b: Player) -> bool {
    b == a.with_ball(b.state.ball)
}

/// Simulating the game adds and removes no players, changes neither color nor hue of any, and
/// brings nobody back to life.
pub proof fn law_simulation_keeps<M, C, W, T>(
    physics: Physics<M, C, W, T>,
    before: Map<PlayerId, Player>,
    after: Map<PlayerId, Player>,
    settings: GameSettings,
    steps: Seq<Real>,
) where
    M: Fn(PlayerState, GameSettings, Real) -> Ball,
    C: Fn(Ball, Ball, GameSettings) -> Option<(Ball, Ball)>,
    W: Fn(Ball, GameSettings) -> Option<Ball>,
    T: Fn(Point, Ball, GameSettings) -> bool,

    requires
        physics.simulated(before, after, settings, steps),
    ensures
        after.dom() == before.dom(),
        forall|id: PlayerId| #[trigger]
            before.contains_key(id) ==> {
                &&& after[id].static_state == before[id].static_state
                &&& after[id].hue == before[id].hue
                &&& after[id].state.is_alive() ==> after[id].state.cursor == before[id].state.cursor
            },
    decreases steps.len(),
{
    if steps.len() > 0 {
        let middle = choose|middle: Map<PlayerId, Player>|
            physics.simulated(before, middle, settings, steps.drop_last())
                && #[trigger] physics.stepped(middle, after, settings, steps.last());
        law_simulation_keeps(physics, before, middle, settings, steps.drop_last());
        let (moved, collided, walled, hits) = choose|
            moved: Map<PlayerId, Player>,
            collided: Map<PlayerId, Player>,
            walled: Map<PlayerId, Player>,
            hits: Set<(PlayerId, PlayerId)>,
        | #[trigger]
            physics.phases(
                middle,
                moved,
                collided,
                walled,
                hits,
                after,
                settings,
                steps.last(),
            );
        let contacts = choose|contacts: Seq<Contact>| #[trigger]
            physics.checked_all(moved, settings, contacts) && collided == bounced(moved, contacts);
        lemma_bounce_keeps(moved, contacts);
        assert forall|id: PlayerId| #[trigger] before.contains_key(id) implies {
            &&& after[id].static_state == before[id].static_state
            &&& after[id].hue == before[id].hue
            &&& after[id].state.is_alive() ==> after[id].state.cursor == before[id].state.cursor
        } by {
            assert(middle.contains_key(id));
            assert(moved.contains_key(id));
            assert(collided.contains_key(id));
            assert(walled.contains_key(id));
            assert(same_but_ball(moved[id], collided[id]));
            assert(physics.walled(collided[id], walled[id], settings));
        }
    }
}

/// Round states follow each other in a fixed order: waiting, the round, its end, and
/// the winner, who is alive if there is one. A lobby stays a lobby.
pub proof fn law_round_order<M, C, W, T>(
    before: Game,
    after: Game,
    elapsed: Real,
    round: RoundState,
    steps: Seq<Real>,
    physics: Physics<M, C, W, T>,
    events: Seq<Event>,
) where
    M: Fn(PlayerState, GameSettings, Real) -> Ball,
    C: Fn(Ball, Ball, GameSettings) -> Option<(Ball, Ball)>,
    W: Fn(Ball, GameSettings) -> Option<Ball>,
    T: Fn(Point, Ball, GameSettings) -> bool,

    requires
        enters(before, elapsed, round),
        ticked(before, after, elapsed, round, steps, physics, events),
    ensures
        match before.round {
            RoundState::Lobby => after.round == RoundState::Lobby,
            RoundState::Waiting => after.round is Waiting || after.round.is_running(),
            RoundState::Round => after.round.is_running(),
            RoundState::RoundEnd => after.round is RoundEnd || after.round is Winner,
            RoundState::Winner(_) => after.round == before.round || after.round is Waiting,
        },
        after.round matches RoundState::Winner(Some(winner)) ==> before.round == after.round || (
        after.players@.contains_key(winner) && after.players@[winner].state.is_alive()),
        after.round != before.round ==> events.len() == 1 && events[0] == Event::RoundState(
            after.round,
        ),
{
}

} // verus!
