//! The game as a client sees it.

use std::collections::{HashMap, VecDeque};
use vstd::prelude::*;

use crate::game::snapshot::{ids_of, InterpolatedSnapshot, Snapshot};
use crate::game::{
    Event, GameSettings, GetPlayer, Input, PlayerId, PlayerState, RoundState, StaticPlayerState,
};
use crate::keys::lists_keys;
use crate::number::{Point, Real};
use crate::time::{Duration, Instant};

verus! {

broadcast use vstd::std_specs::hash::group_hash_axioms;

/// A player, as a client knows it.
#[derive(Copy, Clone, Debug)]
pub struct Player {
    pub static_state: StaticPlayerState,
    pub state: PlayerState,
}

impl GetPlayer for Player {
    open spec fn player_state(&self) -> PlayerState {
        self.state
    }

    open spec fn player_static_state(&self) -> StaticPlayerState {
        self.static_state
    }

    fn state(&self) -> (state: PlayerState) {
        self.state
    }

    fn static_state(&self) -> (static_state: StaticPlayerState) {
        self.static_state
    }
}

/// All complete players with given states.
pub struct Players<'a> {
    pub players: &'a HashMap<PlayerId, StaticPlayerState>,
    /// The states of players, as a snapshot lists them.
    pub states: Vec<(PlayerId, PlayerState)>,
    /// The player of this client, whose state is known better than from any snapshot.
    pub predicted: Option<(PlayerId, PlayerState)>,
}

/// The players of a list who have static state stored, but for the one that is skipped.
pub open spec fn complete(
    players: Map<PlayerId, StaticPlayerState>,
    states: Seq<(PlayerId, PlayerState)>,
    skipped: Option<PlayerId>,
) -> Seq<(PlayerId, Player)>
    decreases states.len(),
{
    if states.len() == 0 {
        Seq::empty()
    } else {
        let earlier = complete(players, states.drop_last(), skipped);
        let (id, state) = states.last();
        if skipped != Some(id) && players.contains_key(id) {
            earlier.push((id, Player { static_state: players[id], state }))
        } else {
            earlier
        }
    }
}

impl<'a> Players<'a> {
    /// The player of this client has static state stored.
    pub open spec fn wf(self) -> bool {
        self.predicted matches Some((id, _)) ==> self.players@.contains_key(id)
    }

    /// The players, the predicted one last.
    pub open spec fn all(self) -> Seq<(PlayerId, Player)> {
        match self.predicted {
            Some((id, state)) => complete(self.players@, self.states@, Some(id)).push(
                (id, Player { static_state: self.players@[id], state }),
            ),
            None => complete(self.players@, self.states@, None),
        }
    }

    /// Lists the players.
    pub fn into_iter(self) -> (list: Vec<(PlayerId, Player)>)
        requires
            self.wf(),
        ensures
            list@ == self.all(),
    {
        let skipped: Option<PlayerId> = match self.predicted {
            Some((id, _)) => Some(id),
            None => None,
        };
        let mut list: Vec<(PlayerId, Player)> = Vec::new();
        let mut at: usize = 0;
        assert(self.states@.take(0) =~= Seq::<(PlayerId, PlayerState)>::empty());
        while at < self.states.len()
            invariant
                at <= self.states@.len(),
                list@ == complete(self.players@, self.states@.take(at as int), skipped),
            decreases self.states@.len() - at,
        {
            let (id, state): (PlayerId, PlayerState) = self.states[at];
            assert(self.states@.take(at + 1).drop_last() =~= self.states@.take(at as int));
            let is_skipped: bool = match skipped {
                Some(skipped_id) => skipped_id == id,
                None => false,
            };
            if !is_skipped {
                // Only handle players who also have static state
                // stored. If the static state isn't there, the player
                // must have already been removed, but we haven't received
                // the new snapshot.
                if let Some(static_state) = self.players.get(&id) {
                    list.push((id, Player { static_state: *static_state, state }));
                }
            }
            at = at + 1;
        }
        assert(self.states@.take(self.states@.len() as int) =~= self.states@);
        if let Some((id, state)) = self.predicted {
            let static_state: StaticPlayerState = *self.players.get(&id).unwrap();
            list.push((id, Player { static_state, state }));
        }
        list
    }
}

/// The settings that the client and its networking share.
#[derive(Copy, Clone, Debug)]
pub struct SettingsHandle {
    dirty: bool,
    settings: GameSettings,
}

impl SettingsHandle {
    /// Whether there is a change that has not been taken yet.
    pub closed spec fn is_dirty(self) -> bool {
        self.dirty
    }

    /// The current settings.
    pub closed spec fn current(self) -> GameSettings {
        self.settings
    }

    /// Shares settings that the server knows already.
    pub fn new(settings: GameSettings) -> (handle: SettingsHandle)
        ensures
            !handle.is_dirty(),
            handle.current() == settings,
    {
        SettingsHandle { dirty: false, settings }
    }

    /// Takes the settings, if they have changed since they were last taken.
    pub fn dirty(&mut self) -> (taken: Option<GameSettings>)
        ensures
            taken == (if old(self).is_dirty() {
                Some(old(self).current())
            } else {
                None
            }),
            !final(self).is_dirty(),
            final(self).current() == old(self).current(),
    {
        if self.dirty {
            self.dirty = false;
            Some(self.settings)
        } else {
            None
        }
    }

    /// Gets the settings.
    pub fn settings(&self) -> (settings: GameSettings)
        ensures
            settings == self.current(),
    {
        self.settings
    }

    /// Changes the settings.
    fn change(&mut self, settings: GameSettings)
        ensures
            final(self).is_dirty(),
            final(self).current() == settings,
    {
        self.settings = settings;
        self.dirty = true;
    }
}

/// What the networking of a client shares with the game.
#[derive(Copy, Clone, Debug)]
pub struct GameHandle {
    pub cursor: Point,
    pub settings: SettingsHandle,
}

impl GameHandle {
    /// The input to be sent next.
    pub fn latest_input(&self) -> (input: Input)
        ensures
            input.cursor == self.cursor,
    {
        Input { cursor: self.cursor }
    }
}

/// The game as a client sees it.
pub struct Game {
    pub players: HashMap<PlayerId, StaticPlayerState>,
    pub last_round: Option<RoundState>,
    pub round: RoundState,
    pub round_duration: Real,
    pub snapshots: VecDeque<(Snapshot, Instant)>,
    pub settings: GameSettings,
    /// Player id for this client.
    pub player_id: PlayerId,
}

/// What a client knows of the game.
pub struct GameView {
    pub players: Map<PlayerId, StaticPlayerState>,
    pub last_round: Option<RoundState>,
    pub round: RoundState,
    pub round_duration: Real,
    pub snapshots: Seq<(Snapshot, Instant)>,
    pub settings: GameSettings,
    pub player_id: PlayerId,
}

impl View for Game {
    type V = GameView;

    open spec fn view(&self) -> GameView {
        GameView {
            players: self.players@,
            last_round: self.last_round,
            round: self.round,
            round_duration: self.round_duration,
            snapshots: self.snapshots@,
            settings: self.settings,
            player_id: self.player_id,
        }
    }
}

impl GameView {
    /// What a client knows after an event that has been received at `now`.
    pub open spec fn after(self, event: Event, now: Instant) -> GameView {
        match event {
            Event::RoundState(round) => GameView {
                last_round: Some(self.round),
                round_duration: Real { bits: 0 },
                round,
                ..self
            },
            Event::Settings(settings) => GameView { settings, ..self },
            Event::NewPlayer { id, static_state } => GameView {
                players: self.players.insert(id, static_state),
                ..self
            },
            Event::RemovePlayer(id) => GameView { players: self.players.remove(id), ..self },
            Event::Snapshot(snapshot) => GameView {
                snapshots: self.snapshots.push((snapshot, now)),
                ..self
            },
        }
    }

    /// What a client knows after several events, one after the other.
    pub open spec fn after_all(self, events: Seq<(Event, Instant)>) -> GameView
        decreases events.len(),
    {
        if events.len() == 0 {
            self
        } else {
            self.after_all(events.drop_last()).after(events.last().0, events.last().1)
        }
    }
}

/// Where to start in a list of snapshots so that no more of them are kept than
/// are needed to interpolate at `time`: at the last one that is older, but not after
/// the last of all.
pub open spec fn first_needed(snapshots: Seq<(Snapshot, Instant)>, time: Instant) -> int
    decreases snapshots.len(),
{
    if snapshots.len() > 1 && time.nanos > snapshots[1].1.nanos {
        1 + first_needed(snapshots.drop_first(), time)
    } else {
        0
    }
}

impl Game {
    /// There is always a snapshot.
    pub open spec fn wf(self) -> bool {
        self.snapshots@.len() > 0
    }

    /// Starts a game that the server has sent. It was received at `now`.
    pub fn new(
        players: HashMap<PlayerId, StaticPlayerState>,
        snapshot: Snapshot,
        now: Instant,
        round: RoundState,
        round_duration: Real,
        settings: GameSettings,
        player_id: PlayerId,
        cursor: Point,
    ) -> (result: (Game, GameHandle))
        ensures
            result.0.wf(),
            result.0@ == (GameView {
                players: players@,
                last_round: None,
                round,
                round_duration,
                snapshots: seq![(snapshot, now)],
                settings,
                player_id,
            }),
            result.1.cursor == cursor,
            result.1.settings.current() == settings,
            !result.1.settings.is_dirty(),
    {
        let mut snapshots: VecDeque<(Snapshot, Instant)> = VecDeque::new();
        snapshots.push_back((snapshot, now));
        assert(snapshots@ =~= seq![(snapshot, now)]);
        let game = Game {
            players,
            last_round: None,
            round,
            round_duration,
            snapshots,
            settings,
            player_id,
        };
        let handle = GameHandle { cursor, settings: SettingsHandle::new(settings) };
        (game, handle)
    }

    /// Gets the settings.
    pub fn settings(&self) -> (settings: &GameSettings)
        ensures
            *settings == self.settings,
    {
        &self.settings
    }

    /// Modifies the game settings and flags the change to be sent to
    /// the server.
    pub fn set_settings(&mut self, settings: GameSettings, shared: &mut SettingsHandle)
        ensures
            *final(self) == (Game { settings, ..*old(self) }),
            final(shared).is_dirty(),
            final(shared).current() == settings,
    {
        self.settings = settings;
        shared.change(settings);
    }

    /// Handles events from the server, with the times that they were received at.
    pub fn handle_events(&mut self, events: Vec<(Event, Instant)>)
        requires
            old(self).wf(),
        ensures
            final(self).wf(),
            final(self)@ == old(self)@.after_all(events@),
    {
        let ghost start = self@;
        let ghost all = events@;
        assert(all.take(0) =~= Seq::<(Event, Instant)>::empty());
        for entry in walk: events
            invariant
                self.wf(),
                walk.seq() == all,
                self@ == start.after_all(all.take(walk.index())),
        {
            let ghost done = walk.index();
            assert(all.take(done + 1).drop_last() =~= all.take(done));
            self.handle_event(entry.0, entry.1);
        }
        assert(all.take(all.len() as int) =~= all);
    }

    fn handle_event(&mut self, event: Event, now: Instant)
        requires
            old(self).wf(),
        ensures
            final(self).wf(),
            final(self)@ == old(self)@.after(event, now),
    {
        match event {
            Event::RoundState(round) => {
                self.last_round = Some(self.round);
                self.round_duration = Real { bits: 0 };
                self.round = round;
            },
            Event::Settings(settings) => {
                self.settings = settings;
            },
            Event::NewPlayer { id, static_state } => {
                self.players.insert(id, static_state);
            },
            Event::RemovePlayer(id) => {
                self.players.remove(&id);
            },
            Event::Snapshot(snapshot) => {
                self.snapshots.push_back((snapshot, now));
            },
        }
    }

    /// Steps client prediction forward in time.
    ///
    /// `elapsed` is the time that the current round state will have lasted after this.
    pub fn tick(&mut self, elapsed: Real, events: Vec<(Event, Instant)>)
        requires
            old(self).wf(),
        ensures
            final(self).wf(),
            final(self)@ == (GameView { round_duration: elapsed, ..old(self)@ }).after_all(events@),
    {
        self.round_duration = elapsed;
        self.handle_events(events);
    }

    /// Updates the cursor position for this client player.
    pub fn update_cursor(&self, cursor: Point, shared: &mut GameHandle)
        ensures
            final(shared).cursor == cursor,
            final(shared).settings == old(shared).settings,
    {
        shared.cursor = cursor;
    }

    /// Returns the set of players corresponding to the most recent
    /// snapshot.
    pub fn latest_players(&self) -> (players: Players)
        requires
            self.wf(),
        ensures
            players.players@ == self.players@,
            players.predicted is None,
            lists_keys(ids_of(players.states@), self.snapshots@.last().0.players@),
            forall|i: int|
                0 <= i < players.states@.len() ==> (#[trigger] players.states@[i]).1
                    == self.snapshots@.last().0.players@[players.states@[i].0],
    {
        let (snapshot, _) = &self.snapshots[self.snapshots.len() - 1];
        Players { players: &self.players, states: snapshot.players(), predicted: None }
    }

    /// Removes any old snapshots that are no longer needed for
    /// interpolation.
    ///
    /// `delayed_time` is the time that will be interpolated at.
    pub fn clean_old_snapshots(&mut self, delayed_time: Instant)
        requires
            old(self).wf(),
        ensures
            final(self).wf(),
            final(self)@ == (GameView {
                snapshots: old(self)@.snapshots.skip(
                    first_needed(old(self)@.snapshots, delayed_time),
                ),
                ..old(self)@
            }),
    {
        let ghost all = self.snapshots@;
        let ghost mut dropped: int = 0;
        assert(all.skip(0) =~= all);
        while self.snapshots.len() > 1 && delayed_time.nanos > self.snapshots[1].1.nanos
            invariant
                0 <= dropped < all.len(),
                self.snapshots@ =~= all.skip(dropped),
                first_needed(all, delayed_time) == dropped + first_needed(
                    all.skip(dropped),
                    delayed_time,
                ),
                self.players@ == old(self).players@,
                self.last_round == old(self).last_round,
                self.round == old(self).round,
                self.round_duration == old(self).round_duration,
                self.settings == old(self).settings,
                self.player_id == old(self).player_id,
            decreases self.snapshots@.len(),
        {
            let removed = self.snapshots.pop_front();
            proof {
                assert(all.skip(dropped).drop_first() =~= all.skip(dropped + 1));
                dropped = dropped + 1;
            }
        }
    }

    /// The two snapshots to interpolate between, and how far the way is at `delayed_time`.
    ///
    /// `ratio` divides one span of time by another.
    pub fn interpolation<R: Fn(Duration, Duration) -> Real>(&self, delayed_time: Instant, ratio: &R) -> (snapshot:
        InterpolatedSnapshot)
        requires
            self.wf(),
            forall|a: Duration, b: Duration| call_requires(*ratio, (a, b)),
        ensures
            between(*self, snapshot, delayed_time, *ratio),
    {
        let zero = Real { bits: 0 };
        let (older, older_time) = &self.snapshots[0];
        if self.snapshots.len() > 1 {
            let (newer, newer_time) = &self.snapshots[1];
            let alpha: Real = if delayed_time.nanos > older_time.nanos {
                let span: Duration = newer_time.duration_since(*older_time);
                let passed: Duration = delayed_time.duration_since(*older_time);
                let alpha: Real = ratio(passed, span);
                assert(call_ensures(*ratio, (passed, span), alpha));
                alpha
            } else {
                zero
            };
            InterpolatedSnapshot::new(alpha, older, newer)
        } else {
            InterpolatedSnapshot::new(zero, older, older)
        }
    }

    /// Interpolates snapshots with delay and returns the resulting
    /// set of player states.
    ///
    /// The cursor of this client's player is where the client has it.
    pub fn interpolated_players<
        R: Fn(Duration, Duration) -> Real,
        F: Fn(Real, Real, Real) -> Real,
    >(&self, delayed_time: Instant, cursor: Point, ratio: &R, lerp: &F) -> (players: Players)
        requires
            self.wf(),
            self.snapshots@.len() > 1 ==> self.snapshots@[1].0.players@.contains_key(
                self.player_id,
            ),
            self.snapshots@.len() == 1 ==> self.snapshots@[0].0.players@.contains_key(
                self.player_id,
            ),
            forall|a: Duration, b: Duration| call_requires(*ratio, (a, b)),
            forall|a: Real, b: Real, alpha: Real| call_requires(*lerp, (a, b, alpha)),
        ensures
            players.players@ == self.players@,
            exists|snapshot: InterpolatedSnapshot| #[trigger]
                shown(*self, snapshot, delayed_time, cursor, *ratio, *lerp, players),
    {
        let snapshot: InterpolatedSnapshot = self.interpolation(delayed_time, ratio);
        let own: Option<PlayerState> = snapshot.get(self.player_id, lerp);
        let mut predicted: PlayerState = own.unwrap();
        predicted.set_cursor(cursor);
        let players = Players {
            players: &self.players,
            states: snapshot.players(lerp),
            predicted: Some((self.player_id, predicted)),
        };
        assert(shown(*self, snapshot, delayed_time, cursor, *ratio, *lerp, players));
        players
    }
}

/// Whether the players of an interpolated snapshot may be shown like this.
pub open spec fn shown<R: Fn(Duration, Duration) -> Real, F: Fn(Real, Real, Real) -> Real>(
    game: Game,
    snapshot: InterpolatedSnapshot,
    delayed_time: Instant,
    cursor: Point,
    ratio: R,
    lerp: F,
    players: Players,
) -> bool {
    &&& between(game, snapshot, delayed_time, ratio)
    &&& lists_keys(ids_of(players.states@), snapshot.newer.players@)
    &&& forall|i: int|
        0 <= i < players.states@.len() ==> snapshot.shows(
            (#[trigger] players.states@[i]).0,
            players.states@[i].1,
            lerp,
        )
    &&& players.predicted matches Some((id, predicted)) && id == game.player_id && exists|
        state: PlayerState,
    | #[trigger]
        snapshot.shows(id, state, lerp) && predicted == PlayerState {
            cursor: if state.is_alive() {
                Some(cursor)
            } else {
                None
            },
            ball: state.ball,
        }
}

/// Whether a snapshot is between the two oldest ones, at `delayed_time`.
pub open spec fn between<R: Fn(Duration, Duration) -> Real>(
    game: Game,
    snapshot: InterpolatedSnapshot,
    delayed_time: Instant,
    ratio: R,
) -> bool {
    &&& *snapshot.older == game.snapshots@[0].0
    &&& if game.snapshots@.len() > 1 {
        &&& *snapshot.newer == game.snapshots@[1].0
        &&& if delayed_time.nanos > game.snapshots@[0].1.nanos {
            exists|passed: Duration, span: Duration| #[trigger]
                call_ensures(ratio, (passed, span), snapshot.alpha) && passed.nanos
                    == delayed_time.nanos - game.snapshots@[0].1.nanos && span.nanos == (
                if game.snapshots@[1].1.nanos >= game.snapshots@[0].1.nanos {
                    game.snapshots@[1].1.nanos - game.snapshots@[0].1.nanos
                } else {
                    0
                })
        } else {
            snapshot.alpha.bits == 0
        }
    } else {
        *snapshot.newer == game.snapshots@[0].0 && snapshot.alpha.bits == 0
    }
}

/// After cleaning, the time that is interpolated at is not after the second snapshot, so
/// the way is never further than from the first to the second one.
pub proof fn law_cleaned(snapshots: Seq<(Snapshot, Instant)>, time: Instant)
    requires
        snapshots.len() > 0,
    ensures
        0 <= first_needed(snapshots, time) < snapshots.len(),
        ({
            let kept = snapshots.skip(first_needed(snapshots, time));
            kept.len() > 1 ==> time.nanos <= kept[1].1.nanos
        }),
        first_needed(snapshots, time) > 0 ==> snapshots[first_needed(
            snapshots,
            time,
        )].1.nanos < time.nanos,
    decreases snapshots.len(),
{
    if snapshots.len() > 1 && time.nanos > snapshots[1].1.nanos {
        let rest = snapshots.drop_first();
        law_cleaned(rest, time);
        let n = first_needed(rest, time);
        assert(snapshots.skip(1 + n) =~= rest.skip(n));
        assert(rest[n] == snapshots[1 + n]);
    } else {
        assert(snapshots.skip(0) =~= snapshots);
    }
}

/// No player is listed twice, and everyone who is listed has static state stored.
pub proof fn law_players_listed_once(players: Players, i: int, j: int)
    requires
        players.wf(),
        ids_of(players.states@).no_duplicates(),
        0 <= i < j < players.all().len(),
    ensures
        players.all()[i].0 != players.all()[j].0,
        players.players@.contains_key(players.all()[i].0),
        players.all()[i].1.static_state == players.players@[players.all()[i].0],
{
    let skipped: Option<PlayerId> = match players.predicted {
        Some((id, _)) => Some(id),
        None => None,
    };
    lemma_complete(players.players@, players.states@, skipped);
    let listed = complete(players.players@, players.states@, skipped);
    assert(ids_of(listed)[i] == listed[i].0);
    if j < listed.len() {
        assert(ids_of(listed)[j] == listed[j].0);
    }
}

proof fn lemma_complete(
    players: Map<PlayerId, StaticPlayerState>,
    states: Seq<(PlayerId, PlayerState)>,
    skipped: Option<PlayerId>,
)
    requires
        ids_of(states).no_duplicates(),
    ensures
        ids_of(complete(players, states, skipped)).no_duplicates(),
        forall|i: int|
            0 <= i < complete(players, states, skipped).len() ==> {
                let entry = #[trigger] complete(players, states, skipped)[i];
                &&& skipped != Some(entry.0)
                &&& players.contains_key(entry.0)
                &&& entry.1.static_state == players[entry.0]
                &&& ids_of(states).contains(entry.0)
            },
    decreases states.len(),
{
    if states.len() > 0 {
        let earlier = states.drop_last();
        assert(ids_of(earlier) =~= ids_of(states).drop_last());
        lemma_complete(players, earlier, skipped);
        let (id, state) = states.last();
        assert(ids_of(states)[states.len() - 1] == id);
        assert(!ids_of(earlier).contains(id)) by {
            if ids_of(earlier).contains(id) {
                let k = choose|k: int| 0 <= k < earlier.len() && ids_of(earlier)[k] == id;
                assert(ids_of(states)[k] == id);
            }
        }
        assert forall|x: PlayerId| ids_of(earlier).contains(x) implies ids_of(states).contains(
            x,
        ) by {
            let k = choose|k: int| 0 <= k < earlier.len() && ids_of(earlier)[k] == x;
            assert(ids_of(states)[k] == x);
        }
        let before = complete(players, earlier, skipped);
        let after = complete(players, states, skipped);
        if skipped != Some(id) && players.contains_key(id) {
            assert(ids_of(after) =~= ids_of(before).push(id));
            assert forall|i: int| 0 <= i < before.len() implies ids_of(before)[i] != id by {
                assert(ids_of(earlier).contains(before[i].0));
            }
        }
    }
}

} // verus!
