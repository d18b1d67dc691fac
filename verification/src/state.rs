//! What the player sees and does: the main menu and the game.

use vstd::prelude::*;

use crate::game::client::{first_needed, shown, Game, GameView, Player, Players, SettingsHandle};
use crate::game::snapshot::{ids_of, InterpolatedSnapshot};
use crate::game::{Event, GameSettings, GetPlayer, PlayerId, RoundState};
use crate::graphics::circles::Circle;
use crate::keys::lists_keys;
use crate::number::{Color, Point, Real, ONE};
use crate::time::{Duration, Instant};

verus! {

broadcast use vstd::std_specs::hash::group_hash_axioms;

/// How much of the screen the game takes up: the bit pattern of 0.9.
pub const SCALE: u32 = 0x3f66_6666;

/// How long a winner is shown before the game shrinks away, in seconds: the bit pattern of 0.5.
pub const SHRINK_AFTER: u32 = 0x3f00_0000;

/// The brightness of a round that nobody has won: the bit pattern of 0.5.
pub const NO_WINNER: u32 = 0x3f00_0000;

/// The brightness of the most recent snapshot: the bit pattern of 0.8.
pub const SNAPSHOT_RED: u32 = 0x3f4c_cccd;

/// A connection that is being made, and the server that it is made to if that is our own.
pub struct Connecting<S, C> {
    pub server: Option<S>,
    pub client: C,
}

/// What is on the screen.
pub enum Screen<S, C, D> {
    MainMenu { connecting: Option<Connecting<S, C>> },
    InGame {
        server: Option<S>,
        client: C,
        done: D,
        game: Game,
        locked: bool,
        show_settings: bool,
    },
}

/// The state of the program, as far as the player is concerned.
///
/// Servers and clients run elsewhere: `S` is what a server is held by, `C` what a client is held
/// by, and `D` what tells that a client has ended.
pub struct GameState<S, C, D> {
    pub error_text: Option<String>,
    pub server_addr: String,
    pub server_addr_host: String,
    pub cursor: Point,
    pub screen: Screen<S, C, D>,
}

/// A key that may be pressed.
#[derive(Copy, Clone, Debug, PartialEq, Eq, Structural)]
pub enum Key {
    S,
    Other,
}

/// A mouse button that may be pressed.
#[derive(Copy, Clone, Debug, PartialEq, Eq, Structural)]
pub enum Button {
    Middle,
    Other,
}

/// What happened to the window.
#[derive(Copy, Clone, Debug)]
pub enum WindowEvent {
    /// The cursor has been moved to this position in the game.
    CursorMoved { cursor: Point },
    KeyboardInput { key: Option<Key>, pressed: bool },
    MouseInput { button: Button, pressed: bool },
    Other,
}

/// What has become of a connection that is being made.
pub enum Progress<D> {
    Pending,
    Joined(Game, D),
    /// It has ended, possibly with an error.
    Failed(Option<String>),
}

/// What happened since the last frame.
pub enum News<D> {
    Menu(Progress<D>),
    Game {
        /// The time that the current round state will have lasted, in seconds.
        elapsed: Real,
        events: Vec<(Event, Instant)>,
        /// Whether the server has stopped, and with which error.
        server_done: Option<Option<String>>,
        /// Whether the client has stopped, and with which error.
        client_done: Option<Option<String>>,
    },
}

/// What an address that was typed in stands for.
#[derive(Copy, Clone, Debug, PartialEq, Eq, Structural)]
pub enum Resolution {
    Found,
    Nothing,
    Invalid,
}

/// A message about an error, where there is one. Otherwise the last message stays.
pub open spec fn reported(
    before: Option<String>,
    after: Option<String>,
    what: Seq<char>,
    error: Option<String>,
) -> bool {
    match error {
        Some(error) => after matches Some(text) && text@ == what + error@,
        None => after == before,
    }
}

fn report(error_text: &mut Option<String>, what: &str, error: Option<String>)
    ensures
        reported(*old(error_text), *final(error_text), what@, error),
{
    if let Some(error) = error {
        *error_text = Some(String::from_str(what).concat(error.as_str()));
    }
}

impl<S, C, D> Default for GameState<S, C, D> {
    /// The main menu.
    fn default() -> (state: GameState<S, C, D>)
        ensures
            state.error_text is None,
            state.server_addr@ == ""@,
            state.server_addr_host@ == "0.0.0.0:6666"@,
            state.cursor.x.bits == 0,
            state.cursor.y.bits == 0,
            state.screen == (Screen::<S, C, D>::MainMenu { connecting: None }),
    {
        GameState {
            error_text: None,
            server_addr: String::from_str(""),
            server_addr_host: String::from_str("0.0.0.0:6666"),
            cursor: Point { x: Real { bits: 0 }, y: Real { bits: 0 } },
            screen: Screen::MainMenu { connecting: None },
        }
    }
}

impl<S, C, D> GameState<S, C, D> {
    /// A game always has a snapshot.
    pub open spec fn wf(self) -> bool {
        self.screen matches Screen::InGame { game, .. } ==> game.wf()
    }

    /// Whether nothing but the cursor and the screen may be different.
    pub open spec fn same_texts(self, other: GameState<S, C, D>) -> bool {
        &&& self.error_text == other.error_text
        &&& self.server_addr == other.server_addr
        &&& self.server_addr_host == other.server_addr_host
    }

    /// Handles an event of the window.
    ///
    /// Returns the cursor if the game has to know of it: it has been moved, and is not locked.
    pub fn handle_event(&mut self, event: WindowEvent) -> (moved: Option<Point>)
        requires
            old(self).wf(),
        ensures
            final(self).wf(),
            final(self).same_texts(*old(self)),
            final(self).cursor == (match event {
                WindowEvent::CursorMoved { cursor } => cursor,
                _ => old(self).cursor,
            }),
            match old(self).screen {
                Screen::MainMenu { .. } => moved is None && final(self).screen == old(self).screen,
                Screen::InGame { server, client, done, game, locked, show_settings } => {
                    &&& final(self).screen == (Screen::InGame {
                        server,
                        client,
                        done,
                        game,
                        locked: match event {
                            WindowEvent::MouseInput {
                                button: Button::Middle,
                                pressed: true,
                            } => !locked,
                            _ => locked,
                        },
                        show_settings: match event {
                            WindowEvent::KeyboardInput {
                                key: Some(Key::S),
                                pressed: true,
                            } => !show_settings,
                            _ => show_settings,
                        },
                    })
                    &&& moved == (match event {
                        WindowEvent::CursorMoved { cursor } => if locked {
                            None
                        } else {
                            Some(cursor)
                        },
                        _ => None,
                    })
                },
            },
    {
        if let WindowEvent::CursorMoved { cursor } = event {
            self.cursor = cursor;
        }
        match &mut self.screen {
            Screen::MainMenu { .. } => None,
            Screen::InGame { locked, show_settings, .. } => match event {
                WindowEvent::KeyboardInput { key, pressed } => {
                    if let Some(Key::S) = key {
                        if pressed {
                            *show_settings = !*show_settings;
                        }
                    }
                    None
                },
                WindowEvent::CursorMoved { cursor } => {
                    if *locked {
                        None
                    } else {
                        Some(cursor)
                    }
                },
                WindowEvent::MouseInput { button, pressed } => {
                    if let Button::Middle = button {
                        if pressed {
                            *locked = !*locked;
                        }
                    }
                    None
                },
                WindowEvent::Other => None,
            },
        }
    }

    /// Takes into account what happened since the last frame.
    ///
    /// - When a connection has been made, the game starts.
    /// - When either the server or the client has stopped, the game ends. If both have, it is
    ///   the server's error that is shown.
    pub fn update(&mut self, news: News<D>)
        requires
            old(self).wf(),
            news matches News::Menu(Progress::Joined(game, _)) ==> game.wf(),
        ensures
            final(self).wf(),
            updated(*old(self), *final(self), news),
    {
        let mut screen: Screen<S, C, D> = Screen::MainMenu { connecting: None };
        std::mem::swap(&mut screen, &mut self.screen);
        match screen {
            Screen::MainMenu { connecting } => match (connecting, news) {
                (Some(connecting), News::Menu(progress)) => match progress {
                    Progress::Joined(game, done) => {
                        self.screen = Screen::InGame {
                            server: connecting.server,
                            client: connecting.client,
                            done,
                            game,
                            locked: false,
                            show_settings: false,
                        };
                    },
                    Progress::Failed(err) => {
                        report(&mut self.error_text, "client connection failed: ", err);
                    },
                    Progress::Pending => {
                        self.screen = Screen::MainMenu { connecting: Some(connecting) };
                    },
                },
                (connecting, _) => {
                    self.screen = Screen::MainMenu { connecting };
                },
            },
            Screen::InGame { server, client, done, game, locked, show_settings } => match news {
                News::Game { elapsed, events, server_done, client_done } => {
                    let mut game: Game = game;
                    game.tick(elapsed, events);
                    // Check if either the server or client has shut down.
                    let hosting: bool = server.is_some();
                    match (hosting, server_done, client_done) {
                        (true, Some(err), _) => {
                            report(&mut self.error_text, "server stopped with error: ", err);
                        },
                        (_, _, Some(err)) => {
                            report(&mut self.error_text, "client stopped with error: ", err);
                        },
                        _ => {
                            self.screen = Screen::InGame {
                                server,
                                client,
                                done,
                                game,
                                locked,
                                show_settings,
                            };
                        },
                    }
                },
                News::Menu(_) => {
                    self.screen = Screen::InGame {
                        server,
                        client,
                        done,
                        game,
                        locked,
                        show_settings,
                    };
                },
            },
        }
    }

    /// Takes into account what the address that was typed in stands for.
    ///
    /// Returns whether there is an address to go on with.
    pub fn resolved(&mut self, hosting: bool, resolution: Resolution) -> (found: bool)
        requires
            old(self).wf(),
        ensures
            final(self).wf(),
            found == (resolution is Found),
            final(self).server_addr == old(self).server_addr,
            final(self).server_addr_host == old(self).server_addr_host,
            final(self).cursor == old(self).cursor,
            final(self).screen == old(self).screen,
            match (resolution, hosting) {
                (Resolution::Found, _) => final(self).error_text == old(self).error_text,
                (Resolution::Nothing, false) => final(self).error_text matches Some(text) && text@
                    == "couldn't resolve server address: "@ + old(self).server_addr@,
                (Resolution::Invalid, false) => final(self).error_text matches Some(text) && text@
                    == "couldn't parse server address: "@ + old(self).server_addr@,
                (Resolution::Nothing, true) => final(self).error_text matches Some(text) && text@
                    == "Couldn't resolve server hosting address: "@ + old(self).server_addr_host@,
                (Resolution::Invalid, true) => final(self).error_text matches Some(text) && text@
                    == "Couldn't parse server hosting address: "@ + old(self).server_addr_host@,
            },
    {
        let text: String = match (resolution, hosting) {
            (Resolution::Found, _) => return true,
            (Resolution::Nothing, false) => String::from_str(
                "couldn't resolve server address: ",
            ).concat(self.server_addr.as_str()),
            (Resolution::Invalid, false) => String::from_str(
                "couldn't parse server address: ",
            ).concat(self.server_addr.as_str()),
            (Resolution::Nothing, true) => String::from_str(
                "Couldn't resolve server hosting address: ",
            ).concat(self.server_addr_host.as_str()),
            (Resolution::Invalid, true) => String::from_str(
                "Couldn't parse server hosting address: ",
            ).concat(self.server_addr_host.as_str()),
        };
        self.error_text = Some(text);
        false
    }

    /// Takes into account what came of starting to connect to a server, or to host one.
    pub fn started(&mut self, hosting: bool, result: Result<Connecting<S, C>, String>)
        requires
            old(self).wf(),
            old(self).screen is MainMenu,
        ensures
            final(self).wf(),
            final(self).server_addr == old(self).server_addr,
            final(self).server_addr_host == old(self).server_addr_host,
            final(self).cursor == old(self).cursor,
            match result {
                Ok(connecting) => {
                    &&& final(self).screen == (Screen::<S, C, D>::MainMenu {
                        connecting: Some(connecting),
                    })
                    &&& final(self).error_text == old(self).error_text
                },
                Err(error) => {
                    &&& final(self).screen == old(self).screen
                    &&& final(self).error_text matches Some(text)
                    &&& text@ == (if hosting {
                        "error hosting server: "@
                    } else {
                        "error connecting to server: "@
                    }) + error@
                },
            },
    {
        match result {
            Ok(connecting) => {
                self.screen = Screen::MainMenu { connecting: Some(connecting) };
            },
            Err(error) => {
                if hosting {
                    report(&mut self.error_text, "error hosting server: ", Some(error));
                } else {
                    report(&mut self.error_text, "error connecting to server: ", Some(error));
                }
            },
        }
    }

    /// Gives up a connection that is being made.
    pub fn cancel(&mut self)
        requires
            old(self).wf(),
            old(self).screen is MainMenu,
        ensures
            final(self).wf(),
            final(self).same_texts(*old(self)),
            final(self).cursor == old(self).cursor,
            final(self).screen == (Screen::<S, C, D>::MainMenu { connecting: None }),
    {
        self.screen = Screen::MainMenu { connecting: None };
    }

    /// Closes the message about an error.
    pub fn close_error(&mut self)
        requires
            old(self).wf(),
        ensures
            final(self).wf(),
            final(self).error_text is None,
            final(self).server_addr == old(self).server_addr,
            final(self).server_addr_host == old(self).server_addr_host,
            final(self).cursor == old(self).cursor,
            final(self).screen == old(self).screen,
    {
        self.error_text = None;
    }

    /// Applies settings that have been changed by the player, and shares them with the server.
    pub fn change_settings(&mut self, settings: GameSettings, shared: &mut SettingsHandle)
        requires
            old(self).wf(),
        ensures
            final(self).wf(),
            final(self).same_texts(*old(self)),
            final(self).cursor == old(self).cursor,
            match old(self).screen {
                Screen::MainMenu { .. } => {
                    &&& final(self).screen == old(self).screen
                    &&& *final(shared) == *old(shared)
                },
                Screen::InGame { server, client, done, game, locked, show_settings } => {
                    &&& final(self).screen == (Screen::InGame {
                        server,
                        client,
                        done,
                        game: Game { settings, ..game },
                        locked,
                        show_settings,
                    })
                    &&& final(shared).current() == settings
                    &&& final(shared).is_dirty()
                },
            },
    {
        match &mut self.screen {
            Screen::MainMenu { .. } => {},
            Screen::InGame { game, .. } => {
                game.set_settings(settings, shared);
            },
        }
    }
}

/// What has become of the state of the program by what happened.
pub open spec fn updated<S, C, D>(
    before: GameState<S, C, D>,
    after: GameState<S, C, D>,
    news: News<D>,
) -> bool {
    &&& after.server_addr == before.server_addr
    &&& after.server_addr_host == before.server_addr_host
    &&& after.cursor == before.cursor
    &&& match (before.screen, news) {
        (
            Screen::MainMenu { connecting: Some(connecting) },
            News::Menu(Progress::Joined(game, done)),
        ) => {
            &&& after.error_text == before.error_text
            &&& after.screen == (Screen::InGame {
                server: connecting.server,
                client: connecting.client,
                done,
                game,
                locked: false,
                show_settings: false,
            })
        },
        (Screen::MainMenu { connecting: Some(_) }, News::Menu(Progress::Failed(err))) => {
            &&& reported(
                before.error_text,
                after.error_text,
                "client connection failed: "@,
                err,
            )
            &&& after.screen == (Screen::<S, C, D>::MainMenu { connecting: None })
        },
        (
            Screen::InGame { server, client, done, game, locked, show_settings },
            News::Game { elapsed, events, server_done, client_done },
        ) => if server is Some && server_done is Some {
            &&& reported(
                before.error_text,
                after.error_text,
                "server stopped with error: "@,
                server_done->0,
            )
            &&& after.screen == (Screen::<S, C, D>::MainMenu { connecting: None })
        } else if client_done is Some {
            &&& reported(
                before.error_text,
                after.error_text,
                "client stopped with error: "@,
                client_done->0,
            )
            &&& after.screen == (Screen::<S, C, D>::MainMenu { connecting: None })
        } else {
            &&& after.error_text == before.error_text
            &&& after.screen matches Screen::InGame {
                server: server2,
                client: client2,
                done: done2,
                game: game2,
                locked: locked2,
                show_settings: show_settings2,
            }
            &&& (server2, client2, done2) == (server, client, done)
            &&& (locked2, show_settings2) == (locked, show_settings)
            &&& game2@ == (GameView { round_duration: elapsed, ..game@ }).after_all(events@)
        },
        _ => after.error_text == before.error_text && after.screen == before.screen,
    }
}

/// The computations that drawing takes.
///
/// - `clamp` pulls a cursor back to within bounds.
/// - `ratio` divides one span of time by another.
/// - `lerp` gives a number on the way from one to another.
/// - `times` multiplies two numbers.
/// - `grow` gives what a length that grows from nothing is after some seconds.
/// - `shrink` gives the scale of a game that shrinks away, after some seconds.
pub struct Visuals<K, R, F, T, O, I> {
    pub clamp: K,
    pub ratio: R,
    pub lerp: F,
    pub times: T,
    pub grow: O,
    pub shrink: I,
}

impl<K, R, F, T, O, I> Visuals<K, R, F, T, O, I> where
    K: Fn(Point, GameSettings) -> Point,
    R: Fn(Duration, Duration) -> Real,
    F: Fn(Real, Real, Real) -> Real,
    T: Fn(Real, Real) -> Real,
    O: Fn(Real, Real) -> Real,
    I: Fn(Real) -> Real,
 {
    /// The computations can be made for all values.
    pub open spec fn total(self) -> bool {
        &&& forall|cursor: Point, settings: GameSettings|
            call_requires(self.clamp, (cursor, settings))
        &&& forall|a: Duration, b: Duration| call_requires(self.ratio, (a, b))
        &&& forall|a: Real, b: Real, alpha: Real| call_requires(self.lerp, (a, b, alpha))
        &&& forall|a: Real, b: Real| call_requires(self.times, (a, b))
        &&& forall|seconds: Real, length: Real| call_requires(self.grow, (seconds, length))
        &&& forall|seconds: Real| call_requires(self.shrink, (seconds,))
    }

    /// The scale that a game is drawn with, and the circle that shows who has won.
    ///
    /// - After a winner has been shown, the next game grows from nothing.
    /// - A winner's circle grows until it fills the bounds, and shrinks away with the game after
    ///   a while. If nobody has won, the circle is gray.
    pub open spec fn staged(self, game: GameView, winner: Option<Circle>, scale: Real) -> bool {
        match (game.last_round, game.round) {
            (Some(RoundState::Winner(_)), RoundState::Waiting) => {
                &&& winner is None
                &&& call_ensures(self.grow, (game.round_duration, Real { bits: SCALE }), scale)
            },
            (_, RoundState::Winner(id)) => {
                &&& winner matches Some(circle)
                &&& circle.center == center()
                &&& circle.color == (match id {
                    Some(id) => game.players[id].color,
                    None => gray(),
                })
                &&& exists|radius: Real| #[trigger]
                    call_ensures(
                        self.grow,
                        (game.round_duration, game.settings.bounds_radius),
                        radius,
                    ) && call_ensures(self.times, (scale, radius), circle.radius)
                &&& if (Real { bits: SHRINK_AFTER }).below(game.round_duration) {
                    call_ensures(self.shrink, (game.round_duration,), scale)
                } else {
                    scale.bits == SCALE
                }
            },
            _ => winner is None && scale.bits == SCALE,
        }
    }

    /// Whether a circle shows the bounds of a game. Without a game, their radius is one.
    pub open spec fn bounding(
        self,
        circle: Circle,
        scale: Real,
        settings: Option<GameSettings>,
    ) -> bool {
        &&& circle.center == center()
        &&& circle.color == white()
        &&& call_ensures(
            self.times,
            (
                scale,
                match settings {
                    Some(settings) => settings.bounds_radius,
                    None => Real { bits: ONE },
                },
            ),
            circle.radius,
        )
    }

    /// Whether a circle has the given center, radius and color, drawn with a scale.
    pub open spec fn scaled(
        self,
        circle: Circle,
        scale: Real,
        center: Point,
        radius: Real,
        color: Color,
    ) -> bool {
        &&& call_ensures(self.times, (scale, center.x), circle.center.x)
        &&& call_ensures(self.times, (scale, center.y), circle.center.y)
        &&& call_ensures(self.times, (scale, radius), circle.radius)
        &&& circle.color == color
    }

    /// Whether these are the circles of one player: the ball, and the cursor of one that is
    /// alive.
    pub open spec fn drawn_one(
        self,
        player: Player,
        circles: Seq<Circle>,
        scale: Real,
        settings: GameSettings,
    ) -> bool {
        let color = player.static_state.color;
        &&& self.scaled(
            circles[0],
            scale,
            player.state.ball.position,
            settings.ball_radius,
            color,
        )
        &&& match player.state.cursor {
            Some(cursor) => circles.len() == 2 && self.scaled(
                circles[1],
                scale,
                cursor,
                settings.cursor_radius,
                color,
            ),
            None => circles.len() == 1,
        }
    }

    /// Whether these are the circles of some players, in order.
    pub open spec fn drawn(
        self,
        players: Seq<(PlayerId, Player)>,
        circles: Seq<Circle>,
        scale: Real,
        settings: GameSettings,
    ) -> bool
        decreases players.len(),
    {
        if players.len() == 0 {
            circles.len() == 0
        } else {
            exists|last: Seq<Circle>| #[trigger]
                self.drawn_one(players.last().1, last, scale, settings)
                    && last.is_suffix_of(circles) && self.drawn(
                    players.drop_last(),
                    circles.take(circles.len() - last.len()),
                    scale,
                    settings,
                )
        }
    }

    /// Draws some players.
    fn draw_players(&self, players: &Vec<(PlayerId, Player)>, scale: Real, settings: &GameSettings) -> (circles:
        Vec<Circle>)
        requires
            self.total(),
        ensures
            self.drawn(players@, circles@, scale, *settings),
    {
        let mut circles: Vec<Circle> = Vec::new();
        let mut at: usize = 0;
        assert(players@.take(0) =~= Seq::<(PlayerId, Player)>::empty());
        while at < players.len()
            invariant
                self.total(),
                at <= players@.len(),
                self.drawn(players@.take(at as int), circles@, scale, *settings),
            decreases players@.len() - at,
        {
            let player: &Player = &players[at].1;
            let times = &self.times;
            let scaled = |length: Real| -> (result: Real)
                ensures
                    call_ensures(self.times, (scale, length), result),
                { times(scale, length) };
            let last: Vec<Circle> = player.draw(settings, scaled).into_vec();
            let ghost earlier = circles@;
            let mut next: usize = 0;
            while next < last.len()
                invariant
                    next <= last@.len(),
                    circles@ =~= earlier + last@.take(next as int),
                decreases last@.len() - next,
            {
                circles.push(last[next]);
                next = next + 1;
            }
            proof {
                assert(last@.take(last@.len() as int) =~= last@);
                assert(self.drawn_one(*player, last@, scale, *settings));
                assert(last@.is_suffix_of(circles@)) by {
                    assert(circles@.subrange(
                        circles@.len() - last@.len(),
                        circles@.len() as int,
                    ) =~= last@);
                }
                assert(circles@.take(circles@.len() - last@.len()) =~= earlier);
                assert(players@.take(at + 1).drop_last() =~= players@.take(at as int));
                assert(players@.take(at + 1).last() == players@[at as int]);
            }
            at = at + 1;
        }
        assert(players@.take(players@.len() as int) =~= players@);
        circles
    }

    /// Decides on the scale and on the circle that shows who has won.
    fn stage(&self, game: &Game) -> (result: (Option<Circle>, Real))
        requires
            self.total(),
            game.round matches RoundState::Winner(Some(id)) ==> game.players@.contains_key(id),
        ensures
            self.staged(game@, result.0, result.1),
    {
        let full = Real { bits: SCALE };
        let after_winner: bool = match game.last_round {
            Some(RoundState::Winner(_)) => true,
            _ => false,
        };
        match game.round {
            RoundState::Waiting => if after_winner {
                (None, (self.grow)(game.round_duration, full))
            } else {
                (None, full)
            },
            RoundState::Winner(winner) => {
                let color: Color = match winner {
                    Some(id) => game.players.get(&id).unwrap().color,
                    None => Color {
                        red: Real { bits: NO_WINNER },
                        green: Real { bits: NO_WINNER },
                        blue: Real { bits: NO_WINNER },
                    },
                };
                let radius: Real = (self.grow)(game.round_duration, game.settings.bounds_radius);
                let scale: Real = if game.round_duration.greater_than(
                    Real { bits: SHRINK_AFTER },
                ) {
                    (self.shrink)(game.round_duration)
                } else {
                    full
                };
                let circle = Circle {
                    center: Point { x: Real { bits: 0 }, y: Real { bits: 0 } },
                    radius: (self.times)(scale, radius),
                    color,
                };
                assert(call_ensures(
                    self.grow,
                    (game.round_duration, game.settings.bounds_radius),
                    radius,
                ));
                (Some(circle), scale)
            },
            _ => (None, full),
        }
    }

    /// Draws the bounds of a game.
    fn bounds_circle(&self, scale: Real, settings: Option<GameSettings>) -> (circle: Circle)
        requires
            self.total(),
        ensures
            self.bounding(circle, scale, settings),
    {
        let bounds_radius: Real = match settings {
            Some(settings) => settings.bounds_radius,
            None => Real { bits: ONE },
        };
        Circle {
            center: Point { x: Real { bits: 0 }, y: Real { bits: 0 } },
            radius: (self.times)(scale, bounds_radius),
            color: Color {
                red: Real { bits: ONE },
                green: Real { bits: ONE },
                blue: Real { bits: ONE },
            },
        }
    }

    /// Whether these are the circles that show a game, from the back to the front: the bounds, the
    /// most recent snapshot in red if that is wanted, the players, and who has won.
    pub open spec fn pictured(
        self,
        game: Game,
        circles: Seq<Circle>,
        delayed_time: Instant,
        cursor: Point,
        draw_latest_snapshot: bool,
    ) -> bool {
        exists|picture: Picture| #[trigger]
            self.composed(game, picture, delayed_time, cursor, draw_latest_snapshot) && circles
                == picture.circles()
    }

    /// Whether these are the parts of the picture of a game.
    pub open spec fn composed(
        self,
        game: Game,
        picture: Picture,
        delayed_time: Instant,
        cursor: Point,
        draw_latest_snapshot: bool,
    ) -> bool {
        &&& self.staged(game@, picture.winner, picture.scale)
        &&& self.bounding(picture.bounds, picture.scale, Some(game.settings))
        &&& if draw_latest_snapshot {
            exists|latest: Players| #[trigger]
                lists_latest(game, latest) && self.drawn(
                    latest.all(),
                    picture.latest,
                    picture.scale,
                    game.settings,
                )
        } else {
            picture.latest.len() == 0
        }
        &&& exists|clamped: Point, snapshot: InterpolatedSnapshot, players: Players|
            call_ensures(self.clamp, (cursor, game.settings), clamped) && #[trigger] shown(
                game,
                snapshot,
                delayed_time,
                clamped,
                self.ratio,
                self.lerp,
                players,
            ) && players.players@ == game.players@ && self.drawn(
                players.all(),
                picture.players,
                picture.scale,
                game.settings,
            )
    }

    /// Draws a game.
    fn picture(
        &self,
        game: &Game,
        delayed_time: Instant,
        cursor: Point,
        draw_latest_snapshot: bool,
    ) -> (circles: Vec<Circle>)
        requires
            self.total(),
            game.wf(),
            drawable(game@),
        ensures
            self.pictured(*game, circles@, delayed_time, cursor, draw_latest_snapshot),
    {
        let (winner, scale) = self.stage(game);
        let settings: GameSettings = game.settings;
        let clamped: Point = (self.clamp)(cursor, settings);
        let players: Players = game.interpolated_players(
            delayed_time,
            clamped,
            &self.ratio,
            &self.lerp,
        );
        let ghost snapshot = choose|snapshot: InterpolatedSnapshot| #[trigger]
            shown(*game, snapshot, delayed_time, clamped, self.ratio, self.lerp, players);
        let ghost listed = players;
        let list: Vec<(PlayerId, Player)> = players.into_iter();
        let player_circles: Vec<Circle> = self.draw_players(&list, scale, &settings);
        let bounds: Circle = self.bounds_circle(scale, Some(settings));
        let mut circles: Vec<Circle> = Vec::new();
        circles.push(bounds);
        let ghost mut latest_circles = Seq::<Circle>::empty();
        if draw_latest_snapshot {
            let latest: Players = game.latest_players();
            let ghost latest_listed = latest;
            assert(lists_latest(*game, latest_listed));
            let latest: Vec<(PlayerId, Player)> = latest.into_iter();
            let debug_circles: Vec<Circle> = self.draw_players(&latest, scale, &settings);
            proof {
                latest_circles = debug_circles@;
            }
            let mut next: usize = 0;
            while next < debug_circles.len()
                invariant
                    next <= debug_circles@.len(),
                    circles@ =~= seq![bounds] + reddened(debug_circles@).take(next as int),
                decreases debug_circles@.len() - next,
            {
                let red = Color {
                    red: Real { bits: SNAPSHOT_RED },
                    green: Real { bits: 0 },
                    blue: Real { bits: 0 },
                };
                circles.push(Circle { color: red, ..debug_circles[next] });
                next = next + 1;
            }
            assert(reddened(debug_circles@).take(next as int) =~= reddened(debug_circles@));
        }
        assert(circles@ =~= seq![bounds] + reddened(latest_circles));
        let mut next: usize = 0;
        while next < player_circles.len()
            invariant
                next <= player_circles@.len(),
                circles@ =~= seq![bounds] + reddened(latest_circles) + player_circles@.take(
                    next as int,
                ),
            decreases player_circles@.len() - next,
        {
            circles.push(player_circles[next]);
            next = next + 1;
        }
        assert(player_circles@.take(next as int) =~= player_circles@);
        if let Some(circle) = winner {
            circles.push(circle);
        }
        proof {
            let picture = Picture {
                bounds,
                latest: latest_circles,
                players: player_circles@,
                winner,
                scale,
            };
            assert(circles@ =~= picture.circles());
            assert(shown(
                *game,
                snapshot,
                delayed_time,
                clamped,
                self.ratio,
                self.lerp,
                listed,
            ));
            assert(self.composed(*game, picture, delayed_time, cursor, draw_latest_snapshot));
        }
        circles
    }
}

/// The middle of the screen.
pub open spec fn center() -> Point {
    Point { x: Real { bits: 0 }, y: Real { bits: 0 } }
}

pub open spec fn white() -> Color {
    Color { red: Real { bits: ONE }, green: Real { bits: ONE }, blue: Real { bits: ONE } }
}

pub open spec fn gray() -> Color {
    Color {
        red: Real { bits: NO_WINNER },
        green: Real { bits: NO_WINNER },
        blue: Real { bits: NO_WINNER },
    }
}

/// Circles in the color of the most recent snapshot.
pub open spec fn reddened(circles: Seq<Circle>) -> Seq<Circle> {
    circles.map_values(
        |circle: Circle|
            Circle {
                color: Color {
                    red: Real { bits: SNAPSHOT_RED },
                    green: Real { bits: 0 },
                    blue: Real { bits: 0 },
                },
                ..circle
            },
    )
}

/// The parts of the picture of a game.
pub struct Picture {
    pub bounds: Circle,
    /// The players of the most recent snapshot.
    pub latest: Seq<Circle>,
    pub players: Seq<Circle>,
    pub winner: Option<Circle>,
    pub scale: Real,
}

impl Picture {
    /// All circles, from the back to the front.
    pub open spec fn circles(self) -> Seq<Circle> {
        let front = seq![self.bounds] + reddened(self.latest) + self.players;
        match self.winner {
            Some(circle) => front.push(circle),
            None => front,
        }
    }
}

/// Whether this lists the players of the most recent snapshot of a game.
pub open spec fn lists_latest(game: Game, players: Players) -> bool {
    &&& players.players@ == game.players@
    &&& players.predicted is None
    &&& lists_keys(ids_of(players.states@), game.snapshots@.last().0.players@)
    &&& forall|i: int|
        0 <= i < players.states@.len() ==> (#[trigger] players.states@[i]).1
            == game.snapshots@.last().0.players@[players.states@[i].0]
}

/// The player of this client, and the winner if there is one, are known.
pub open spec fn drawable(game: GameView) -> bool {
    let next = if game.snapshots.len() > 1 {
        game.snapshots[1]
    } else {
        game.snapshots[0]
    };
    &&& next.0.players@.contains_key(game.player_id)
    &&& game.players.contains_key(game.player_id)
    &&& game.round matches RoundState::Winner(Some(id)) ==> game.players.contains_key(id)
}

/// The game without the snapshots that are no longer needed.
pub open spec fn cleaned(game: GameView, delayed_time: Instant) -> GameView {
    GameView {
        snapshots: game.snapshots.skip(first_needed(game.snapshots, delayed_time)),
        ..game
    }
}

impl<S, C, D> GameState<S, C, D> {
    /// Draws what is on the screen.
    ///
    /// `delayed_time` is the time that is interpolated at. Snapshots that are no longer needed for
    /// that are given up.
    pub fn draw<K, R, F, T, O, I>(
        &mut self,
        delayed_time: Instant,
        draw_latest_snapshot: bool,
        visuals: &Visuals<K, R, F, T, O, I>,
    ) -> (circles: Vec<Circle>) where
        K: Fn(Point, GameSettings) -> Point,
        R: Fn(Duration, Duration) -> Real,
        F: Fn(Real, Real, Real) -> Real,
        T: Fn(Real, Real) -> Real,
        O: Fn(Real, Real) -> Real,
        I: Fn(Real) -> Real,

        requires
            old(self).wf(),
            visuals.total(),
            old(self).screen matches Screen::InGame { game, .. } ==> drawable(
                cleaned(game@, delayed_time),
            ),
        ensures
            final(self).wf(),
            final(self).same_texts(*old(self)),
            final(self).cursor == old(self).cursor,
            match old(self).screen {
                Screen::MainMenu { .. } => {
                    &&& final(self).screen == old(self).screen
                    &&& circles@.len() == 1
                    &&& visuals.bounding(circles@[0], Real { bits: SCALE }, None)
                },
                Screen::InGame { server, client, done, game, locked, show_settings } => {
                    &&& final(self).screen matches Screen::InGame { game: shown_game, .. }
                    &&& final(self).screen == (Screen::InGame {
                        server,
                        client,
                        done,
                        game: shown_game,
                        locked,
                        show_settings,
                    })
                    &&& shown_game@ == cleaned(game@, delayed_time)
                    &&& visuals.pictured(
                        shown_game,
                        circles@,
                        delayed_time,
                        old(self).cursor,
                        draw_latest_snapshot,
                    )
                },
            },
    {
        let cursor: Point = self.cursor;
        match &mut self.screen {
            Screen::MainMenu { .. } => {
                let mut circles: Vec<Circle> = Vec::new();
                circles.push(visuals.bounds_circle(Real { bits: SCALE }, None));
                circles
            },
            Screen::InGame { game, .. } => {
                game.clean_old_snapshots(delayed_time);
                visuals.picture(game, delayed_time, cursor, draw_latest_snapshot)
            },
        }
    }

    /// Returns whether the player of this client, and the winner if there is one, are known.
    pub fn can_draw(&self, delayed_time: Instant) -> (possible: bool)
        requires
            self.wf(),
        ensures
            possible == (self.screen matches Screen::InGame { game, .. } ==> drawable(
                cleaned(game@, delayed_time),
            )),
    {
        match &self.screen {
            Screen::MainMenu { .. } => true,
            Screen::InGame { game, .. } => {
                let ghost all = game.snapshots@;
                let count: usize = game.snapshots.len();
                let mut first: usize = 0;
                assert(all.skip(0) =~= all);
                while first + 1 < count && delayed_time.nanos > game.snapshots[first
                    + 1].1.nanos
                    invariant
                        all == game.snapshots@,
                        count == all.len(),
                        first < count,
                        first_needed(all, delayed_time) == first + first_needed(
                            all.skip(first as int),
                            delayed_time,
                        ),
                    decreases all.len() - first,
                {
                    assert(all.skip(first as int)[1] == all[first + 1]);
                    assert(all.skip(first as int).drop_first() =~= all.skip(first + 1));
                    first = first + 1;
                }
                proof {
                    if first + 1 < all.len() {
                        assert(all.skip(first as int)[1] == all[first + 1]);
                    }
                    assert(first_needed(all, delayed_time) == first);
                }
                let next: usize = if first + 1 < count {
                    first + 1
                } else {
                    first
                };
                if !game.snapshots[next].0.players.contains_key(&game.player_id) {
                    return false;
                }
                if !game.players.contains_key(&game.player_id) {
                    return false;
                }
                match game.round {
                    RoundState::Winner(Some(id)) => game.players.contains_key(&id),
                    _ => true,
                }
            },
        }
    }
}

/// A game only starts when a connection that was being made is completed, and it only ends when the
/// server or the client has stopped. Whatever is typed in stays.
pub proof fn law_games_start_and_end<S, C, D>(
    before: GameState<S, C, D>,
    after: GameState<S, C, D>,
    news: News<D>,
)
    requires
        updated(before, after, news),
    ensures
        before.screen is MainMenu && after.screen is InGame <==> (before.screen matches
            Screen::MainMenu { connecting: Some(_) } && news matches News::Menu(
            Progress::Joined(_, _),
        )),
        before.screen is InGame && after.screen is MainMenu ==> (news matches News::Game {
            server_done,
            client_done,
            ..
        } && (server_done is Some || client_done is Some)),
        after.server_addr == before.server_addr,
        after.server_addr_host == before.server_addr_host,
{
}

} // verus!
