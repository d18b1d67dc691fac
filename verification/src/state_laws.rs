//! What the player sees and does, said of the results of operations alone.

use vstd::prelude::*;

use crate::game::client::{
    complete, first_needed, law_cleaned, shown, Game, GameView, Player, Players, SettingsHandle,
};
use crate::game::client_laws::{lemma_complete_holds, lemma_one_event};
use crate::game::snapshot::InterpolatedSnapshot;
use crate::game::{Event, GameSettings, PlayerId, RoundState};
use crate::graphics::circles::Circle;
use crate::number::{Color, Point, Real};
use crate::state::{
    lists_latest, Button, Connecting, GameState, Key, News, Picture, Progress, Resolution, Screen,
    Visuals, WindowEvent,
};
use crate::time::{Duration, Instant};

verus! {

broadcast use vstd::std_specs::hash::group_hash_axioms;

/// Moving the cursor is always noticed, and passed on to a game exactly if it is not locked. Nothing
/// else changes.
pub proof fn law_cursor_moves<S, C, D>(
    state: &mut GameState<S, C, D>,
    cursor: Point,
    moved: Option<Point>,
)
    requires
        call_ensures(
            GameState::<S, C, D>::handle_event,
            (state, WindowEvent::CursorMoved { cursor }),
            moved,
        ),
    ensures
        final(state).cursor == cursor,
        final(state).screen == old(state).screen,
        moved == (if old(state).screen is InGame && !old(state).screen->locked {
            Some(cursor)
        } else {
            None
        }),
        final(state).error_text == old(state).error_text,
        final(state).server_addr == old(state).server_addr,
        final(state).server_addr_host == old(state).server_addr_host,
{
}

/// In a game, pressing the middle mouse button locks the cursor or unlocks it, and pressing the S key
/// shows the settings or hides them. Neither does anything else, and nothing happens on release, by
/// other keys or buttons, or in the menu.
pub proof fn law_keys_and_buttons<S, C, D>(
    state: &mut GameState<S, C, D>,
    event: WindowEvent,
    moved: Option<Point>,
)
    requires
        call_ensures(GameState::<S, C, D>::handle_event, (state, event), moved),
        event !is CursorMoved,
    ensures
        moved is None,
        final(state).cursor == old(state).cursor,
        old(state).screen is MainMenu ==> final(state).screen == old(state).screen,
        old(state).screen is InGame ==> {
            let before = old(state).screen;
            let after = final(state).screen;
            let middle = event is MouseInput && event->button == Button::Middle
                && event->MouseInput_pressed;
            let settings = event is KeyboardInput && event->key == Some(Key::S)
                && event->KeyboardInput_pressed;
            &&& after is InGame
            &&& after->InGame_server == before->InGame_server
            &&& after->client == before->client
            &&& after->done == before->done
            &&& after->game == before->game
            &&& after->locked == (before->locked != middle)
            &&& after->show_settings == (before->show_settings != settings)
        },
{
}

/// When a connection has been made, the game starts with what it was made for, unlocked and without
/// the settings.
pub proof fn law_game_starts<S, C, D>(
    state: &mut GameState<S, C, D>,
    connecting: Connecting<S, C>,
    game: Game,
    done: D,
)
    requires
        call_ensures(
            GameState::<S, C, D>::update,
            (state, News::Menu(Progress::Joined(game, done))),
            (),
        ),
        old(state).screen == (Screen::<S, C, D>::MainMenu { connecting: Some(connecting) }),
    ensures
        final(state).screen is InGame,
        final(state).screen->InGame_server == connecting.server,
        final(state).screen->client == connecting.client,
        final(state).screen->done == done,
        final(state).screen->game == game,
        !final(state).screen->locked,
        !final(state).screen->show_settings,
        final(state).error_text == old(state).error_text,
        final(state).cursor == old(state).cursor,
{
}

/// When a connection could not be made, it is given up, and the error is shown if there is one. While
/// it is being made, nothing changes.
pub proof fn law_connection_fails<S, C, D>(
    state: &mut GameState<S, C, D>,
    connecting: Connecting<S, C>,
    progress: Progress<D>,
)
    requires
        call_ensures(GameState::<S, C, D>::update, (state, News::Menu(progress)), ()),
        old(state).screen == (Screen::<S, C, D>::MainMenu { connecting: Some(connecting) }),
        progress !is Joined,
    ensures
        progress is Pending ==> final(state).screen == old(state).screen
            && final(state).error_text == old(state).error_text,
        progress is Failed ==> {
            &&& final(state).screen == (Screen::<S, C, D>::MainMenu { connecting: None })
            &&& progress->Failed_0 is None ==> final(state).error_text == old(state).error_text
            &&& progress->Failed_0 is Some ==> final(state).error_text is Some
                && final(state).error_text->0@ == "client connection failed: "@
                + progress->Failed_0->0@
        },
{
}

/// A game ends exactly if our own server or the client has stopped. The error is shown if there is
/// one, that of the server if both have stopped. Otherwise the game goes on.
pub proof fn law_game_ends<S, C, D>(
    state: &mut GameState<S, C, D>,
    elapsed: Real,
    events: Vec<(Event, Instant)>,
    server_done: Option<Option<String>>,
    client_done: Option<Option<String>>,
)
    requires
        call_ensures(
            GameState::<S, C, D>::update,
            (state, News::Game { elapsed, events, server_done, client_done }),
            (),
        ),
        old(state).screen is InGame,
    ensures
        final(state).cursor == old(state).cursor,
        final(state).screen is MainMenu <==> {
            ||| old(state).screen->InGame_server is Some && server_done is Some
            ||| client_done is Some
        },
        final(state).screen is MainMenu ==> final(state).screen
            == (Screen::<S, C, D>::MainMenu { connecting: None }),
        old(state).screen->InGame_server is Some && server_done is Some ==> {
            match server_done->0 {
                Some(error) => final(state).error_text is Some && final(state).error_text->0@
                    == "server stopped with error: "@ + error@,
                None => final(state).error_text == old(state).error_text,
            }
        },
        !(old(state).screen->InGame_server is Some && server_done is Some) && client_done is Some
            ==> {
            match client_done->0 {
                Some(error) => final(state).error_text is Some && final(state).error_text->0@
                    == "client stopped with error: "@ + error@,
                None => final(state).error_text == old(state).error_text,
            }
        },
        final(state).screen is InGame ==> {
            let before = old(state).screen;
            let after = final(state).screen;
            &&& after->InGame_server == before->InGame_server
            &&& after->client == before->client
            &&& after->locked == before->locked
            &&& after->show_settings == before->show_settings
            &&& final(state).error_text == old(state).error_text
            &&& events@.len() == 0 ==> {
                &&& after->game.round_duration == elapsed
                &&& after->game.round == before->game.round
                &&& after->game.players@ == before->game.players@
                &&& after->game.snapshots@ == before->game.snapshots@
                &&& after->game.settings == before->game.settings
                &&& after->game.player_id == before->game.player_id
            }
        },
{
}

/// A game that goes on handles the events that came in: one of a round state makes that the current
/// one.
pub proof fn law_running_game_handles_events<S, C, D>(
    state: &mut GameState<S, C, D>,
    elapsed: Real,
    round: RoundState,
    now: Instant,
    events: Vec<(Event, Instant)>,
)
    requires
        call_ensures(
            GameState::<S, C, D>::update,
            (state, News::Game { elapsed, events, server_done: None, client_done: None }),
            (),
        ),
        old(state).screen is InGame,
        events@ == seq![(Event::RoundState(round), now)],
    ensures
        final(state).screen is InGame,
        final(state).screen->game.round == round,
        final(state).screen->game.last_round == Some(old(state).screen->game.round),
        final(state).screen->game.round_duration.bits == 0,
        final(state).screen->game.players@ == old(state).screen->game.players@,
{
    let view = GameView { round_duration: elapsed, ..old(state).screen->game@ };
    lemma_one_event(view, events@, Event::RoundState(round), now);
}

/// An address that was typed in is gone on with exactly if it was found. Otherwise the message says
/// which address could not be resolved or parsed, and whether that was to be hosted.
pub proof fn law_addresses_resolved<S, C, D>(
    state: &mut GameState<S, C, D>,
    hosting: bool,
    resolution: Resolution,
    found: bool,
)
    requires
        call_ensures(GameState::<S, C, D>::resolved, (state, hosting, resolution), found),
    ensures
        found <==> resolution is Found,
        final(state).screen == old(state).screen,
        final(state).cursor == old(state).cursor,
        resolution is Found ==> final(state).error_text == old(state).error_text,
        resolution is Nothing && !hosting ==> final(state).error_text is Some
            && final(state).error_text->0@ == "couldn't resolve server address: "@ + old(
            state,
        ).server_addr@,
        resolution is Invalid && !hosting ==> final(state).error_text is Some
            && final(state).error_text->0@ == "couldn't parse server address: "@ + old(
            state,
        ).server_addr@,
        resolution is Nothing && hosting ==> final(state).error_text is Some
            && final(state).error_text->0@ == "Couldn't resolve server hosting address: "@ + old(
            state,
        ).server_addr_host@,
        resolution is Invalid && hosting ==> final(state).error_text is Some
            && final(state).error_text->0@ == "Couldn't parse server hosting address: "@ + old(
            state,
        ).server_addr_host@,
{
}

/// A connection that has been started is being made, until it is given up. One that could not be
/// started changes nothing but the message, which says so.
pub proof fn law_connections_started<S, C, D>(
    state: &mut GameState<S, C, D>,
    cancelled: &mut GameState<S, C, D>,
    hosting: bool,
    result: Result<Connecting<S, C>, String>,
)
    requires
        call_ensures(GameState::<S, C, D>::started, (state, hosting, result), ()),
        call_ensures(GameState::<S, C, D>::cancel, (cancelled,), ()),
        *old(cancelled) == *final(state),
        old(state).screen is MainMenu,
    ensures
        result is Ok ==> {
            &&& final(state).screen is MainMenu
            &&& final(state).screen->connecting == Some(result->Ok_0)
            &&& final(state).error_text == old(state).error_text
        },
        result is Err ==> {
            &&& final(state).screen == old(state).screen
            &&& final(state).error_text is Some
            &&& hosting ==> final(state).error_text->0@ == "error hosting server: "@
                + result->Err_0@
            &&& !hosting ==> final(state).error_text->0@ == "error connecting to server: "@
                + result->Err_0@
        },
        final(cancelled).screen is MainMenu,
        final(cancelled).screen->connecting is None,
        final(cancelled).error_text == final(state).error_text,
{
}

/// Closing the message about an error changes nothing else.
pub proof fn law_errors_are_closed<S, C, D>(state: &mut GameState<S, C, D>)
    requires
        call_ensures(GameState::<S, C, D>::close_error, (state,), ()),
    ensures
        final(state).error_text is None,
        final(state).screen == old(state).screen,
        final(state).cursor == old(state).cursor,
        final(state).server_addr == old(state).server_addr,
        final(state).server_addr_host == old(state).server_addr_host,
{
}

/// The program starts in the menu with nothing but the address to host at.
pub proof fn law_program_starts_in_menu<S, C, D>(state: GameState<S, C, D>)
    requires
        call_ensures(<GameState<S, C, D> as Default>::default, (), state),
    ensures
        state.screen is MainMenu,
        state.screen->connecting is None,
        state.error_text is None,
        state.server_addr@ == ""@,
        state.server_addr_host@ == "0.0.0.0:6666"@,
{
}

/// Settings that the player changes in a game are the settings of the game at once, and are shared
/// with the server exactly once. In the menu there is nothing to change.
pub proof fn law_settings_are_changed<S, C, D>(
    state: &mut GameState<S, C, D>,
    settings: GameSettings,
    shared: &mut SettingsHandle,
    taken: &mut SettingsHandle,
    first: Option<GameSettings>,
)
    requires
        call_ensures(
            GameState::<S, C, D>::change_settings,
            (state, settings, shared),
            (),
        ),
        call_ensures(SettingsHandle::dirty, (taken,), first),
        *old(taken) == *final(shared),
    ensures
        old(state).screen is MainMenu ==> final(state).screen == old(state).screen
            && *final(shared) == *old(shared),
        old(state).screen is InGame ==> {
            &&& final(state).screen is InGame
            &&& final(state).screen->game.settings == settings
            &&& final(state).screen->game.players == old(state).screen->game.players
            &&& final(state).screen->game.round == old(state).screen->game.round
            &&& final(state).screen->locked == old(state).screen->locked
            &&& first == Some(settings)
        },
{
}

/// Whether a circle is white and in the middle.
pub open spec fn white_in_the_middle(circle: Circle) -> bool {
    &&& circle.center.x.bits == 0 && circle.center.y.bits == 0
    &&& circle.color.red.bits == 0x3f80_0000
    &&& circle.color.green.bits == 0x3f80_0000
    &&& circle.color.blue.bits == 0x3f80_0000
}

/// In the menu, all that is drawn is a white circle with a radius of one, at nine tenths of its size.
pub proof fn law_menu_drawn<S, C, D, K, R, F, T, O, I>(
    state: &mut GameState<S, C, D>,
    delayed_time: Instant,
    latest: bool,
    visuals: Visuals<K, R, F, T, O, I>,
    circles: Vec<Circle>,
) where
    K: Fn(Point, GameSettings) -> Point,
    R: Fn(Duration, Duration) -> Real,
    F: Fn(Real, Real, Real) -> Real,
    T: Fn(Real, Real) -> Real,
    O: Fn(Real, Real) -> Real,
    I: Fn(Real) -> Real,

    requires
        call_ensures(
            GameState::<S, C, D>::draw::<K, R, F, T, O, I>,
            (state, delayed_time, latest, &visuals),
            circles,
        ),
        old(state).screen is MainMenu,
    ensures
        final(state).screen == old(state).screen,
        circles@.len() == 1,
        white_in_the_middle(circles@[0]),
        call_ensures(
            visuals.times,
            (Real { bits: 0x3f66_6666 }, Real { bits: 0x3f80_0000 }),
            circles@[0].radius,
        ),
{
}

/// Whether the circle of a player's ball may be drawn like this.
pub open spec fn ball_drawn<T: Fn(Real, Real) -> Real>(
    times: T,
    scale: Real,
    ball: Point,
    radius: Real,
    color: Color,
    circle: Circle,
) -> bool {
    &&& call_ensures(times, (scale, ball.x), circle.center.x)
    &&& call_ensures(times, (scale, ball.y), circle.center.y)
    &&& call_ensures(times, (scale, radius), circle.radius)
    &&& circle.color == color
}

proof fn lemma_drawn<K, R, F, T, O, I>(
    visuals: Visuals<K, R, F, T, O, I>,
    players: Seq<(PlayerId, Player)>,
    circles: Seq<Circle>,
    scale: Real,
    settings: GameSettings,
) where
    K: Fn(Point, GameSettings) -> Point,
    R: Fn(Duration, Duration) -> Real,
    F: Fn(Real, Real, Real) -> Real,
    T: Fn(Real, Real) -> Real,
    O: Fn(Real, Real) -> Real,
    I: Fn(Real) -> Real,

    requires
        visuals.drawn(players, circles, scale, settings),
    ensures
        players.len() > 0 ==> circles.len() > 0,
        players.len() > 0 && players.last().1.state.cursor is Some ==> ball_drawn(
            visuals.times,
            scale,
            players.last().1.state.cursor->0,
            settings.cursor_radius,
            players.last().1.static_state.color,
            circles.last(),
        ),
        players.len() > 0 && players.last().1.state.cursor is None ==> ball_drawn(
            visuals.times,
            scale,
            players.last().1.state.ball.position,
            settings.ball_radius,
            players.last().1.static_state.color,
            circles.last(),
        ),
        forall|i: int|
            0 <= i < players.len() ==> exists|k: int|
                0 <= k < circles.len() && ball_drawn(
                    visuals.times,
                    scale,
                    (#[trigger] players[i]).1.state.ball.position,
                    settings.ball_radius,
                    players[i].1.static_state.color,
                    #[trigger] circles[k],
                ),
    decreases players.len(),
{
    if players.len() > 0 {
        let last = choose|last: Seq<Circle>| #[trigger]
            visuals.drawn_one(players.last().1, last, scale, settings) && last.is_suffix_of(circles)
                && visuals.drawn(
                players.drop_last(),
                circles.take(circles.len() - last.len()),
                scale,
                settings,
            );
        let earlier = circles.take(circles.len() - last.len());
        lemma_drawn(visuals, players.drop_last(), earlier, scale, settings);
        let from = circles.len() - last.len();
        assert(circles.subrange(from, circles.len() as int) == last);
        assert(circles[from] == last[0]);
        assert(circles.last() == last.last());
        assert(players[players.len() - 1] == players.last());
        assert forall|i: int| 0 <= i < players.len() implies exists|k: int|
            0 <= k < circles.len() && ball_drawn(
                visuals.times,
                scale,
                (#[trigger] players[i]).1.state.ball.position,
                settings.ball_radius,
                players[i].1.static_state.color,
                #[trigger] circles[k],
            ) by {
            if i < players.len() - 1 {
                assert(players.drop_last()[i] == players[i]);
                let k = choose|k: int|
                    0 <= k < earlier.len() && ball_drawn(
                        visuals.times,
                        scale,
                        players[i].1.state.ball.position,
                        settings.ball_radius,
                        players[i].1.static_state.color,
                        #[trigger] earlier[k],
                    );
                assert(earlier[k] == circles[k]);
            } else {
                assert(ball_drawn(
                    visuals.times,
                    scale,
                    players[i].1.state.ball.position,
                    settings.ball_radius,
                    players[i].1.static_state.color,
                    circles[from],
                ));
            }
        }
    }
}

/// In a lobby and during a round, a game is drawn at nine tenths of its size: the bounds first, in
/// white, and the player of this client last, in its color, with the cursor where the client has it.
/// Every other player who is known is drawn in its color as well.
///
/// Snapshots are given up only if they are not needed.
pub proof fn law_game_drawn<S, C, D, K, R, F, T, O, I>(
    state: &mut GameState<S, C, D>,
    delayed_time: Instant,
    latest: bool,
    visuals: Visuals<K, R, F, T, O, I>,
    circles: Vec<Circle>,
) where
    K: Fn(Point, GameSettings) -> Point,
    R: Fn(Duration, Duration) -> Real,
    F: Fn(Real, Real, Real) -> Real,
    T: Fn(Real, Real) -> Real,
    O: Fn(Real, Real) -> Real,
    I: Fn(Real) -> Real,

    requires
        call_ensures(
            GameState::<S, C, D>::draw::<K, R, F, T, O, I>,
            (state, delayed_time, latest, &visuals),
            circles,
        ),
        old(state).screen is InGame,
        old(state).screen->game.snapshots@.len() > 0,
        ({
            let round = old(state).screen->game.round;
            round == RoundState::Lobby || round == RoundState::Round || round
                == RoundState::RoundEnd
        }),
        final(state).screen->game.snapshots@.len() > 1,
        final(state).screen->game.snapshots@[0].0.players@.contains_key(
            old(state).screen->game.player_id,
        ),
        final(state).screen->game.snapshots@[1].0.players@.contains_key(
            old(state).screen->game.player_id,
        ),
    ensures
        final(state).screen is InGame,
        final(state).screen->game.players@ == old(state).screen->game.players@,
        final(state).screen->game.settings == old(state).screen->game.settings,
        final(state).screen->game.round == old(state).screen->game.round,
        final(state).screen->game.snapshots@.last() == old(state).screen->game.snapshots@.last(),
        delayed_time.nanos <= final(state).screen->game.snapshots@[1].1.nanos,
        circles@.len() > 1,
        white_in_the_middle(circles@[0]),
        call_ensures(
            visuals.times,
            (Real { bits: 0x3f66_6666 }, old(state).screen->game.settings.bounds_radius),
            circles@[0].radius,
        ),
        ({
            let game = final(state).screen->game;
            let own = game.snapshots@[1].0.players@[game.player_id];
            &&& circles@.last().color == game.players@[game.player_id].color
            &&& own.cursor is Some ==> exists|clamped: Point|
                #![trigger call_ensures(
                    visuals.clamp,
                    (old(state).cursor, game.settings),
                    clamped,
                )]
                call_ensures(visuals.clamp, (old(state).cursor, game.settings), clamped)
                    && ball_drawn(
                    visuals.times,
                    Real { bits: 0x3f66_6666 },
                    clamped,
                    game.settings.cursor_radius,
                    game.players@[game.player_id].color,
                    circles@.last(),
                )
            &&& own.cursor is None ==> call_ensures(
                visuals.times,
                (Real { bits: 0x3f66_6666 }, game.settings.ball_radius),
                circles@.last().radius,
            )
            &&& forall|id: PlayerId| #[trigger]
                game.snapshots@[1].0.players@.contains_key(id) && game.players@.contains_key(id)
                    ==> exists|k: int|
                    1 <= k < circles@.len() && (#[trigger] circles@[k]).color
                        == game.players@[id].color && call_ensures(
                        visuals.times,
                        (Real { bits: 0x3f66_6666 }, game.settings.ball_radius),
                        circles@[k].radius,
                    )
        }),
{
    let before = old(state).screen->game;
    let game = final(state).screen->game;
    law_cleaned(before.snapshots@, delayed_time);
    let picture = choose|picture: Picture| #[trigger]
        visuals.composed(game, picture, delayed_time, old(state).cursor, latest) && circles@
            == picture.circles();
    let (clamped, snapshot, players) = choose|
        clamped: Point,
        snapshot: InterpolatedSnapshot,
        players: Players,
    |
        call_ensures(visuals.clamp, (old(state).cursor, game.settings), clamped)
            && #[trigger] shown(
            game,
            snapshot,
            delayed_time,
            clamped,
            visuals.ratio,
            visuals.lerp,
            players,
        ) && players.players@ == game.players@ && visuals.drawn(
            players.all(),
            picture.players,
            picture.scale,
            game.settings,
        );
    assert(call_ensures(visuals.clamp, (old(state).cursor, game.settings), clamped));
    let list = players.all();
    lemma_drawn(visuals, list, picture.players, picture.scale, game.settings);
    assert(circles@.last() == picture.players.last());
    let own = (players.predicted->0).1;
    assert(list.last() == (
        game.player_id,
        Player { static_state: game.players@[game.player_id], state: own },
    ));
    let offset = circles@.len() - picture.players.len();
    lemma_complete_holds(game.players@, players.states@, Some(game.player_id));
    let listed = complete(game.players@, players.states@, Some(game.player_id));
    assert forall|id: PlayerId| #[trigger]
        game.snapshots@[1].0.players@.contains_key(id) && game.players@.contains_key(
            id,
        ) implies exists|k: int|
        1 <= k < circles@.len() && (#[trigger] circles@[k]).color == game.players@[id].color
            && call_ensures(
            visuals.times,
            (Real { bits: 0x3f66_6666 }, game.settings.ball_radius),
            circles@[k].radius,
        ) by {
        let i: int = if id == game.player_id {
            list.len() - 1
        } else {
            let ids = crate::game::snapshot::ids_of(players.states@);
            assert(ids.contains(id));
            let at = choose|at: int| 0 <= at < ids.len() && ids[at] == id;
            assert(players.states@[at].0 == id);
            let entry = (
                id,
                Player { static_state: game.players@[id], state: players.states@[at].1 },
            );
            assert(listed.contains(entry));
            let i = choose|i: int| 0 <= i < listed.len() && listed[i] == entry;
            assert(list[i] == entry);
            i
        };
        assert(list[i].1.static_state.color == game.players@[id].color);
        let k = choose|k: int|
            0 <= k < picture.players.len() && ball_drawn(
                visuals.times,
                picture.scale,
                list[i].1.state.ball.position,
                game.settings.ball_radius,
                list[i].1.static_state.color,
                #[trigger] picture.players[k],
            );
        assert(circles@[offset + k] == picture.players[k]);
    }
}

/// Every circle that is drawn for some players is in the color of one of them.
proof fn lemma_drawn_in_colors<K, R, F, T, O, I>(
    visuals: Visuals<K, R, F, T, O, I>,
    players: Seq<(PlayerId, Player)>,
    circles: Seq<Circle>,
    scale: Real,
    settings: GameSettings,
) where
    K: Fn(Point, GameSettings) -> Point,
    R: Fn(Duration, Duration) -> Real,
    F: Fn(Real, Real, Real) -> Real,
    T: Fn(Real, Real) -> Real,
    O: Fn(Real, Real) -> Real,
    I: Fn(Real) -> Real,

    requires
        visuals.drawn(players, circles, scale, settings),
    ensures
        forall|k: int|
            0 <= k < circles.len() ==> exists|i: int|
                0 <= i < players.len() && (#[trigger] players[i]).1.static_state.color == (
                #[trigger] circles[k]).color,
    decreases players.len(),
{
    if players.len() > 0 {
        let last = choose|last: Seq<Circle>| #[trigger]
            visuals.drawn_one(players.last().1, last, scale, settings) && last.is_suffix_of(circles)
                && visuals.drawn(
                players.drop_last(),
                circles.take(circles.len() - last.len()),
                scale,
                settings,
            );
        let from = circles.len() - last.len();
        let earlier = circles.take(from);
        lemma_drawn_in_colors(visuals, players.drop_last(), earlier, scale, settings);
        assert(circles.subrange(from, circles.len() as int) == last);
        assert forall|k: int| 0 <= k < circles.len() implies exists|i: int|
            0 <= i < players.len() && (#[trigger] players[i]).1.static_state.color == (
            #[trigger] circles[k]).color by {
            if k < from {
                assert(earlier[k] == circles[k]);
                let i = choose|i: int|
                    0 <= i < players.drop_last().len() && (
                    #[trigger] players.drop_last()[i]).1.static_state.color == earlier[k].color;
                assert(players[i] == players.drop_last()[i]);
            } else {
                assert(circles[k] == last[k - from]);
                assert(players[players.len() - 1] == players.last());
            }
        }
    }
}

/// Unless the most recent snapshot is wanted, there is nothing but the bounds and players in a picture
/// of a lobby or a round: all other circles are in the color of a player who is known.
pub proof fn law_nothing_else_is_drawn<S, C, D, K, R, F, T, O, I>(
    state: &mut GameState<S, C, D>,
    delayed_time: Instant,
    visuals: Visuals<K, R, F, T, O, I>,
    circles: Vec<Circle>,
) where
    K: Fn(Point, GameSettings) -> Point,
    R: Fn(Duration, Duration) -> Real,
    F: Fn(Real, Real, Real) -> Real,
    T: Fn(Real, Real) -> Real,
    O: Fn(Real, Real) -> Real,
    I: Fn(Real) -> Real,

    requires
        call_ensures(
            GameState::<S, C, D>::draw::<K, R, F, T, O, I>,
            (state, delayed_time, false, &visuals),
            circles,
        ),
        old(state).screen is InGame,
        old(state).screen->game.players@.contains_key(old(state).screen->game.player_id),
        ({
            let round = old(state).screen->game.round;
            round == RoundState::Lobby || round == RoundState::Round || round
                == RoundState::RoundEnd
        }),
    ensures
        forall|k: int|
            1 <= k < circles@.len() ==> exists|id: PlayerId| #[trigger]
                old(state).screen->game.players@.contains_key(id) && old(
                    state,
                ).screen->game.players@[id].color == (#[trigger] circles@[k]).color,
{
    let game = final(state).screen->game;
    let picture = choose|picture: Picture| #[trigger]
        visuals.composed(game, picture, delayed_time, old(state).cursor, false) && circles@
            == picture.circles();
    let (clamped, snapshot, players) = choose|
        clamped: Point,
        snapshot: InterpolatedSnapshot,
        players: Players,
    |
        call_ensures(visuals.clamp, (old(state).cursor, game.settings), clamped)
            && #[trigger] shown(
            game,
            snapshot,
            delayed_time,
            clamped,
            visuals.ratio,
            visuals.lerp,
            players,
        ) && players.players@ == game.players@ && visuals.drawn(
            players.all(),
            picture.players,
            picture.scale,
            game.settings,
        );
    let list = players.all();
    lemma_drawn_in_colors(visuals, list, picture.players, picture.scale, game.settings);
    lemma_complete_holds(game.players@, players.states@, Some(game.player_id));
    let listed = complete(game.players@, players.states@, Some(game.player_id));
    assert forall|k: int| 1 <= k < circles@.len() implies exists|id: PlayerId| #[trigger]
        old(state).screen->game.players@.contains_key(id) && old(
            state,
        ).screen->game.players@[id].color == (#[trigger] circles@[k]).color by {
        assert(circles@[k] == picture.players[k - 1]);
        let i = choose|i: int|
            0 <= i < list.len() && (#[trigger] list[i]).1.static_state.color == picture.players[k
                - 1].color;
        if i < listed.len() {
            assert(list[i] == listed[i]);
        }
        assert(old(state).screen->game.players@.contains_key(list[i].0));
    }
}

/// While a winner is shown, the last circle is in the middle in the color of the winner, or gray if
/// nobody has won. It grows until it fills the bounds; the game shrinks away after half a second.
pub proof fn law_winner_drawn<S, C, D, K, R, F, T, O, I>(
    state: &mut GameState<S, C, D>,
    winner: Option<PlayerId>,
    delayed_time: Instant,
    latest: bool,
    visuals: Visuals<K, R, F, T, O, I>,
    circles: Vec<Circle>,
) where
    K: Fn(Point, GameSettings) -> Point,
    R: Fn(Duration, Duration) -> Real,
    F: Fn(Real, Real, Real) -> Real,
    T: Fn(Real, Real) -> Real,
    O: Fn(Real, Real) -> Real,
    I: Fn(Real) -> Real,

    requires
        call_ensures(
            GameState::<S, C, D>::draw::<K, R, F, T, O, I>,
            (state, delayed_time, latest, &visuals),
            circles,
        ),
        old(state).screen is InGame,
        old(state).screen->game.round == RoundState::Winner(winner),
    ensures
        circles@.len() > 1,
        circles@.last().center.x.bits == 0 && circles@.last().center.y.bits == 0,
        winner is Some ==> circles@.last().color
            == old(state).screen->game.players@[winner->0].color,
        winner is None ==> circles@.last().color.red.bits == 0x3f00_0000
            && circles@.last().color.green.bits == 0x3f00_0000
            && circles@.last().color.blue.bits == 0x3f00_0000,
        exists|scale: Real, radius: Real| #[trigger]
            call_ensures(visuals.times, (scale, radius), circles@.last().radius) && call_ensures(
                visuals.grow,
                (
                    old(state).screen->game.round_duration,
                    old(state).screen->game.settings.bounds_radius,
                ),
                radius,
            ) && (if 0x3f00_0000 < old(state).screen->game.round_duration.bits <= 0x7f80_0000 {
                call_ensures(visuals.shrink, (old(state).screen->game.round_duration,), scale)
            } else {
                scale.bits == 0x3f66_6666
            }),
{
    let game = final(state).screen->game;
    let picture = choose|picture: Picture| #[trigger]
        visuals.composed(game, picture, delayed_time, old(state).cursor, latest) && circles@
            == picture.circles();
    let radius = choose|radius: Real| #[trigger]
        call_ensures(visuals.grow, (game.round_duration, game.settings.bounds_radius), radius)
            && call_ensures(visuals.times, (picture.scale, radius), picture.winner->0.radius);
    assert(call_ensures(visuals.times, (picture.scale, radius), circles@.last().radius));
}

/// After a winner has been shown, the next game grows from nothing to nine tenths of its size.
pub proof fn law_next_game_grows<S, C, D, K, R, F, T, O, I>(
    state: &mut GameState<S, C, D>,
    delayed_time: Instant,
    latest: bool,
    visuals: Visuals<K, R, F, T, O, I>,
    circles: Vec<Circle>,
) where
    K: Fn(Point, GameSettings) -> Point,
    R: Fn(Duration, Duration) -> Real,
    F: Fn(Real, Real, Real) -> Real,
    T: Fn(Real, Real) -> Real,
    O: Fn(Real, Real) -> Real,
    I: Fn(Real) -> Real,

    requires
        call_ensures(
            GameState::<S, C, D>::draw::<K, R, F, T, O, I>,
            (state, delayed_time, latest, &visuals),
            circles,
        ),
        old(state).screen is InGame,
        old(state).screen->game.round == RoundState::Waiting,
    ensures
        circles@.len() > 0,
        white_in_the_middle(circles@[0]),
        exists|scale: Real| #[trigger]
            call_ensures(
                visuals.times,
                (scale, old(state).screen->game.settings.bounds_radius),
                circles@[0].radius,
            ) && (match old(state).screen->game.last_round {
                Some(RoundState::Winner(_)) => call_ensures(
                    visuals.grow,
                    (old(state).screen->game.round_duration, Real { bits: 0x3f66_6666 }),
                    scale,
                ),
                _ => scale.bits == 0x3f66_6666,
            }),
{
    let game = final(state).screen->game;
    let picture = choose|picture: Picture| #[trigger]
        visuals.composed(game, picture, delayed_time, old(state).cursor, latest) && circles@
            == picture.circles();
    assert(circles@[0] == picture.bounds);
}

/// If the most recent snapshot is wanted, it is drawn right behind the bounds and in red: at least one
/// circle for every player in it who is known.
pub proof fn law_latest_snapshot_drawn_in_red<S, C, D, K, R, F, T, O, I>(
    state: &mut GameState<S, C, D>,
    delayed_time: Instant,
    visuals: Visuals<K, R, F, T, O, I>,
    circles: Vec<Circle>,
    id: PlayerId,
) where
    K: Fn(Point, GameSettings) -> Point,
    R: Fn(Duration, Duration) -> Real,
    F: Fn(Real, Real, Real) -> Real,
    T: Fn(Real, Real) -> Real,
    O: Fn(Real, Real) -> Real,
    I: Fn(Real) -> Real,

    requires
        call_ensures(
            GameState::<S, C, D>::draw::<K, R, F, T, O, I>,
            (state, delayed_time, true, &visuals),
            circles,
        ),
        old(state).screen is InGame,
        old(state).screen->game.snapshots@.len() > 0,
        old(state).screen->game.snapshots@.last().0.players@.contains_key(id),
        old(state).screen->game.players@.contains_key(id),
    ensures
        exists|k: int|
            1 <= k < circles@.len() && (#[trigger] circles@[k]).color.red.bits == 0x3f4c_cccd
                && circles@[k].color.green.bits == 0 && circles@[k].color.blue.bits == 0,
{
    let before = old(state).screen->game;
    let game = final(state).screen->game;
    law_cleaned(before.snapshots@, delayed_time);
    let picture = choose|picture: Picture| #[trigger]
        visuals.composed(game, picture, delayed_time, old(state).cursor, true) && circles@
            == picture.circles();
    let players = choose|players: Players| #[trigger]
        lists_latest(game, players) && visuals.drawn(
            players.all(),
            picture.latest,
            picture.scale,
            game.settings,
        );
    let list = players.all();
    lemma_drawn(visuals, list, picture.latest, picture.scale, game.settings);
    assert(game.snapshots@.last() == before.snapshots@.last());
    let ids = crate::game::snapshot::ids_of(players.states@);
    assert(ids.contains(id));
    let at = choose|at: int| 0 <= at < ids.len() && ids[at] == id;
    assert(players.states@[at].0 == id);
    lemma_complete_holds(game.players@, players.states@, None);
    let entry = (id, Player { static_state: game.players@[id], state: players.states@[at].1 });
    assert(list.contains(entry));
    assert(picture.latest.len() > 0);
    assert(circles@[1] == crate::state::reddened(picture.latest)[0]);
}

/// A game can be drawn exactly if the player of this client is known and in the snapshot that is
/// interpolated to, and the winner is known if there is one. The menu can always be drawn.
pub proof fn law_what_can_be_drawn<S, C, D>(
    state: GameState<S, C, D>,
    delayed_time: Instant,
    possible: bool,
)
    requires
        call_ensures(GameState::<S, C, D>::can_draw, (&state, delayed_time), possible),
    ensures
        state.screen is MainMenu ==> possible,
        state.screen is InGame && state.screen->game.snapshots@.len() == 1 ==> {
            let game = state.screen->game;
            possible <==> {
                &&& game.snapshots@[0].0.players@.contains_key(game.player_id)
                &&& game.players@.contains_key(game.player_id)
                &&& game.round is Winner && game.round->Winner_0 is Some
                    ==> game.players@.contains_key(game.round->Winner_0->0)
            }
        },
        state.screen is InGame && state.screen->game.snapshots@.len() > 1 && delayed_time.nanos
            <= state.screen->game.snapshots@[1].1.nanos ==> {
            let game = state.screen->game;
            possible <==> {
                &&& game.snapshots@[1].0.players@.contains_key(game.player_id)
                &&& game.players@.contains_key(game.player_id)
                &&& game.round is Winner && game.round->Winner_0 is Some
                    ==> game.players@.contains_key(game.round->Winner_0->0)
            }
        },
{
    if state.screen is InGame {
        let snapshots = state.screen->game.snapshots@;
        assert(snapshots.len() > 0 && (snapshots.len() == 1 || delayed_time.nanos
            <= snapshots[1].1.nanos) ==> first_needed(snapshots, delayed_time) == 0);
        assert(snapshots.skip(0) =~= snapshots);
    }
}

} // verus!
