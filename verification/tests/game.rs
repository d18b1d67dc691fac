use std::collections::HashMap;

use ball::game::client::{Game as ClientGame, SettingsHandle};
use ball::game::hue::random_candidates;
use ball::game::input::{InputBuffer, MAX_INPUT_BUFFER};
use ball::game::physics;
use ball::game::server::{Game, Physics};
use ball::game::snapshot::{InterpolatedSnapshot, Snapshot};
use ball::game::{
    clamp_cursor, step_dt, Ball, Event, GameSettings, GetPlayer, Input, PlayerId, PlayerState,
    RoundState, StaticPlayerState,
};
use ball::networking::connection::Acks;
use ball::number::{Color, Point, Real, Vector};
use ball::time::{Duration, Instant};

fn num(x: f32) -> Real {
    Real { bits: x.to_bits() }
}

fn float(x: Real) -> f32 {
    f32::from_bits(x.bits)
}

fn point(x: f32, y: f32) -> Point {
    Point { x: num(x), y: num(y) }
}

fn vector(x: f32, y: f32) -> Vector {
    Vector { x: num(x), y: num(y) }
}

fn still(x: f32, y: f32) -> Ball {
    Ball { position: point(x, y), velocity: vector(0.0, 0.0) }
}

fn gray(_: u32) -> Color {
    Color { red: num(0.5), green: num(0.5), blue: num(0.5) }
}

fn start(cursor: Point, settings: GameSettings) -> Ball {
    Ball {
        position: Point { x: num(float(cursor.x) + float(settings.ball_start_distance)), y: cursor.y },
        velocity: Vector { x: settings.ball_start_speed, y: num(0.0) },
    }
}

fn lerp(a: Real, b: Real, alpha: Real) -> Real {
    num(float(a) + (float(b) - float(a)) * float(alpha))
}

fn at(nanos: u128) -> Instant {
    Instant { nanos }
}

fn rounds(events: &[Event]) -> Vec<RoundState> {
    let mut list = Vec::new();
    for event in events {
        if let Event::RoundState(round) = event {
            list.push(*round);
        }
    }
    list
}

// Balls move along their velocities, and nothing ever touches.
fn drift(state: PlayerState, _: GameSettings, dt: Real) -> Ball {
    let ball = state.ball;
    Ball {
        position: Point {
            x: num(float(ball.position.x) + float(ball.velocity.x) * float(dt)),
            y: num(float(ball.position.y) + float(ball.velocity.y) * float(dt)),
        },
        velocity: ball.velocity,
    }
}

fn no_contact(_: Ball, _: Ball, _: GameSettings) -> Option<(Ball, Ball)> {
    None
}

fn no_wall(_: Ball, _: GameSettings) -> Option<Ball> {
    None
}

fn near(cursor: Point, ball: Ball, _: GameSettings) -> bool {
    (float(cursor.x) - float(ball.position.x)).abs() < 0.01
        && (float(cursor.y) - float(ball.position.y)).abs() < 0.01
}

fn never(_: Point, _: Ball, _: GameSettings) -> bool {
    false
}

#[test]
fn players_join_and_leave() {
    let mut game = Game::default();
    assert_eq!(game.round, RoundState::Lobby);
    let (first, events) = game.add_player(point(0.1, 0.2), &start, &gray);
    assert_eq!(first, 0);
    assert_eq!(events.len(), 1);
    assert!(matches!(events[0], Event::NewPlayer { id: 0, .. }));
    assert_eq!(game.round, RoundState::Lobby);
    let (second, events) = game.add_player(point(0.3, 0.4), &start, &gray);
    assert_eq!(second, 1);
    assert_eq!(rounds(&events), vec![RoundState::Waiting]);
    assert_eq!(game.round, RoundState::Waiting);
    let (third, events) = game.add_player(point(0.5, 0.6), &start, &gray);
    assert_eq!(third, 2);
    assert_eq!(events.len(), 1);
    assert_eq!(game.players().len(), 3);
    assert_eq!(float(game.players[&0].state.ball.position.x), 0.1 + 0.3);
    let events = game.remove_player(1);
    assert_eq!(events.len(), 1);
    assert!(matches!(events[0], Event::RemovePlayer(1)));
    assert_eq!(game.round, RoundState::Waiting);
    let events = game.remove_player(0);
    assert_eq!(rounds(&events), vec![RoundState::Lobby]);
    assert_eq!(game.round, RoundState::Lobby);
    // Ids are not used again.
    let (fourth, _) = game.add_player(point(0.0, 0.0), &start, &gray);
    assert_eq!(fourth, 3);
    assert_eq!(game.static_states().len(), 2);
    assert_eq!(float(game.static_states()[&3].color.red), 0.5);
}

#[test]
fn cursors_are_set_by_the_state_of_the_round() {
    let mut game = Game::default();
    game.add_player(point(0.1, 0.0), &start, &gray);
    game.add_player(point(0.2, 0.0), &start, &gray);
    assert!(!game.set_player_cursor(9, point(0.0, 0.0), &start));
    // Balls start over while nothing runs, and the dead come back.
    game.player_mut(0).unwrap().state.cursor = None;
    assert!(game.player_mut(9).is_none());
    assert!(game.set_player_cursor(0, point(0.5, 0.0), &start));
    assert!(game.players[&0].state.alive());
    assert_eq!(float(game.players[&0].state.ball.position.x), 0.5 + 0.3);
    // While a round runs, balls stay where they are and the dead stay dead.
    game.round = RoundState::Round;
    assert!(game.set_player_cursor(0, point(0.7, 0.0), &start));
    assert_eq!(float(game.players[&0].state.cursor.unwrap().x), 0.7);
    assert_eq!(float(game.players[&0].state.ball.position.x), 0.5 + 0.3);
    game.player_mut(0).unwrap().state.cursor = None;
    assert!(game.set_player_cursor(0, point(0.8, 0.0), &start));
    assert!(!game.players[&0].state.alive());
}

#[test]
fn rounds_follow_each_other() {
    let physics =
        Physics { motion: drift, contact: no_contact, wall: no_wall, touch: never };
    let mut game = Game::default();
    game.add_player(point(0.1, 0.0), &start, &gray);
    // Nothing ever happens in a lobby.
    assert_eq!(game.tick(num(100.0), &vec![num(0.1)], &physics).len(), 0);
    game.add_player(point(0.2, 0.0), &start, &gray);
    assert_eq!(game.tick(num(0.5), &vec![num(0.1)], &physics).len(), 0);
    assert_eq!(float(game.round_duration), 0.5);
    assert_eq!(float(game.players[&0].state.ball.position.x), 0.1 + 0.3);
    // The round starts, and runs at once.
    let events = game.tick(num(100.0), &vec![num(0.25), num(0.25)], &physics);
    assert_eq!(rounds(&events), vec![RoundState::Round]);
    assert_eq!(game.round, RoundState::Round);
    assert_eq!(float(game.round_duration), 0.0);
    assert!((float(game.players[&0].state.ball.position.x) - 0.9).abs() < 1e-6);
    // It ends when there is one player left.
    game.player_mut(0).unwrap().state.cursor = None;
    let events = game.tick(num(1.0), &vec![num(0.1)], &physics);
    assert_eq!(rounds(&events), vec![RoundState::RoundEnd]);
    assert_eq!(float(game.round_duration), 0.0);
    let events = game.tick(num(100.0), &vec![num(0.1)], &physics);
    assert_eq!(rounds(&events), vec![RoundState::Winner(Some(1))]);
    let events = game.tick(num(100.0), &vec![num(0.1)], &physics);
    assert_eq!(rounds(&events), vec![RoundState::Waiting]);
}

#[test]
fn nobody_wins_when_everybody_is_dead() {
    let physics =
        Physics { motion: drift, contact: no_contact, wall: no_wall, touch: never };
    let mut game = Game::default();
    game.add_player(point(0.1, 0.0), &start, &gray);
    game.add_player(point(0.2, 0.0), &start, &gray);
    game.round = RoundState::RoundEnd;
    game.player_mut(0).unwrap().state.cursor = None;
    game.player_mut(1).unwrap().state.cursor = None;
    let events = game.tick(num(100.0), &vec![], &physics);
    assert_eq!(rounds(&events), vec![RoundState::Winner(None)]);
}

#[test]
fn balls_kill_the_cursors_of_others() {
    let physics =
        Physics { motion: drift, contact: no_contact, wall: no_wall, touch: near };
    let mut game = Game::default();
    for _ in 0..3 {
        game.add_player(point(0.0, 0.0), &start, &gray);
    }
    game.round = RoundState::Round;
    for id in 0..3 {
        let x = f32::from(id as u16);
        let player = game.player_mut(id).unwrap();
        player.state.cursor = Some(point(x, 0.0));
        player.state.ball = still(x, 0.0);
    }
    // Everybody's own ball is right at the cursor, which does not matter.
    game.tick(num(1.0), &vec![num(0.1)], &physics);
    assert!((0..3).all(|id| game.players[&id].state.alive()));
    // The first ball comes to the second cursor.
    game.player_mut(0).unwrap().state.ball = still(1.0, 0.0);
    let events = game.tick(num(1.0), &vec![num(0.1)], &physics);
    assert_eq!(events.len(), 0);
    assert!(game.players[&0].state.alive());
    assert!(!game.players[&1].state.alive());
    assert!(game.players[&2].state.alive());
    // With the right setting, the own ball kills, too.
    game.settings.kill_own_cursor = true;
    let events = game.tick(num(1.0), &vec![num(0.1)], &physics);
    assert!(game.players[&0].state.alive());
    assert!(!game.players[&2].state.alive());
    assert_eq!(rounds(&events), vec![RoundState::RoundEnd]);
}

#[test]
fn walls_kill_and_balls_bounce() {
    let swap = |a: Ball, b: Ball, _: GameSettings| Some((b, a));
    let wall = |ball: Ball, _: GameSettings| {
        if float(ball.position.x) > 5.0 {
            Some(still(-1.0, -1.0))
        } else {
            None
        }
    };
    let physics = Physics { motion: drift, contact: swap, wall, touch: never };
    let mut game = Game::default();
    for _ in 0..3 {
        game.add_player(point(0.0, 0.0), &start, &gray);
    }
    game.remove_player(2);
    game.round = RoundState::Round;
    game.player_mut(0).unwrap().state.ball = still(1.0, 0.0);
    game.player_mut(1).unwrap().state.ball = still(9.0, 0.0);
    game.tick(num(1.0), &vec![num(0.1)], &physics);
    // The balls have been exchanged, and the one beyond the wall has come back.
    assert!(!game.players[&0].state.alive());
    assert_eq!(float(game.players[&0].state.ball.position.x), -1.0);
    assert!(game.players[&1].state.alive());
    assert_eq!(float(game.players[&1].state.ball.position.x), 1.0);
}

#[test]
fn snapshots_hold_all_players() {
    let mut game = Game::default();
    game.add_player(point(0.1, 0.0), &start, &gray);
    game.add_player(point(0.2, 0.0), &start, &gray);
    let snapshot = game.snapshot();
    assert_eq!(snapshot.players.len(), 2);
    assert_eq!(float(snapshot.players[&1].cursor.unwrap().x), 0.2);
    let mut ids: Vec<PlayerId> = snapshot.players().iter().map(|entry| entry.0).collect();
    ids.sort();
    assert_eq!(ids, vec![0, 1]);
}

#[test]
fn hues_are_picked_away_from_others() {
    let mut game = Game::default();
    assert!(game.pick_hue() < 0x100_0000);
    game.add_player(point(0.1, 0.0), &start, &gray);
    assert!(game.pick_hue() < 0x100_0000);
    // The other side of the wheel is the furthest.
    game.player_mut(0).unwrap().hue = 0x20_0000;
    assert_eq!(game.hue_among(&vec![0x20_0000, 0xa0_0000, 0x90_0000]), 0xa0_0000);
    assert_eq!(game.hue_among(&vec![0x100_0000]), 0x100_0000);
    let (id, _) = game.add_player_with_hue(point(0.2, 0.0), 0x33_0000, &start, &gray);
    assert_eq!(game.players[&id].hue, 0x33_0000);
    assert_eq!(random_candidates(0).len(), 0);
    assert_eq!(random_candidates(3).len(), 12);
}

#[test]
fn interpolation_goes_half_way() {
    let mut older = HashMap::new();
    let mut newer = HashMap::new();
    older.insert(1, PlayerState { cursor: Some(point(0.0, 2.0)), ball: still(0.0, 0.0) });
    newer.insert(1, PlayerState { cursor: Some(point(1.0, 0.0)), ball: still(2.0, 4.0) });
    older.insert(2, PlayerState { cursor: Some(point(0.0, 2.0)), ball: still(0.0, 0.0) });
    newer.insert(2, PlayerState { cursor: None, ball: still(2.0, 4.0) });
    newer.insert(3, PlayerState { cursor: None, ball: still(7.0, 7.0) });
    older.insert(4, PlayerState { cursor: None, ball: still(7.0, 7.0) });
    let older = Snapshot { players: older };
    let newer = Snapshot { players: newer };
    let between = InterpolatedSnapshot::new(num(0.5), &older, &newer);
    let first = between.get(1, &lerp).unwrap();
    assert_eq!(float(first.cursor.unwrap().x), 0.5);
    assert_eq!(float(first.cursor.unwrap().y), 1.0);
    assert_eq!(float(first.ball.position.y), 2.0);
    let second = between.get(2, &lerp).unwrap();
    assert!(second.cursor.is_none());
    assert_eq!(float(second.ball.position.x), 1.0);
    assert_eq!(float(between.get(3, &lerp).unwrap().ball.position.x), 7.0);
    assert!(between.get(4, &lerp).is_none());
    assert_eq!(between.players(&lerp).len(), 3);
}

fn client_game() -> ClientGame {
    let mut players = HashMap::new();
    let mut states = HashMap::new();
    for id in 0..2 {
        players.insert(id, StaticPlayerState { color: gray(0) });
        states.insert(
            id,
            PlayerState { cursor: Some(point(0.0, 0.0)), ball: still(f32::from(id), 0.0) },
        );
    }
    let (game, handle) = ClientGame::new(
        players,
        Snapshot { players: states },
        at(1000),
        RoundState::Waiting,
        num(3.0),
        GameSettings::default(),
        1,
        point(0.5, 0.5),
    );
    assert_eq!(float(handle.latest_input().cursor.x), 0.5);
    game
}

#[test]
fn clients_follow_events() {
    let mut game = client_game();
    let mut snapshot = HashMap::new();
    snapshot.insert(1, PlayerState { cursor: None, ball: still(4.0, 0.0) });
    let mut settings = GameSettings::default();
    settings.ball_radius = num(0.75);
    game.tick(
        num(3.5),
        vec![
            (Event::NewPlayer { id: 7, static_state: StaticPlayerState { color: gray(0) } }, at(1)),
            (Event::RemovePlayer(0), at(1)),
            (Event::RoundState(RoundState::Round), at(1)),
            (Event::Settings(settings), at(1)),
            (Event::Snapshot(Snapshot { players: snapshot }), at(2000)),
        ],
    );
    assert!(game.players.contains_key(&7) && !game.players.contains_key(&0));
    assert_eq!(game.round, RoundState::Round);
    assert_eq!(game.last_round, Some(RoundState::Waiting));
    assert_eq!(float(game.round_duration), 0.0);
    assert_eq!(float(game.settings().ball_radius), 0.75);
    assert_eq!(game.snapshots.len(), 2);
    assert_eq!(game.latest_players().into_iter().len(), 1);
}

#[test]
fn clients_interpolate_with_delay() {
    let mut game = client_game();
    let mut second = HashMap::new();
    let mut third = HashMap::new();
    for id in 0..2 {
        second.insert(id, PlayerState { cursor: None, ball: still(10.0, 0.0) });
        third.insert(id, PlayerState { cursor: None, ball: still(20.0, 0.0) });
    }
    game.handle_events(vec![
        (Event::Snapshot(Snapshot { players: second }), at(2000)),
        (Event::Snapshot(Snapshot { players: third }), at(3000)),
    ]);
    let ratio = |a: Duration, b: Duration| num(a.nanos as f32 / b.nanos as f32);
    let players = game
        .interpolated_players(at(1500), point(0.25, 0.0), &ratio, &lerp)
        .into_iter();
    assert_eq!(players.len(), 2);
    // The own player comes last.
    assert_eq!(players[0].0, 0);
    assert_eq!(players[1].0, 1);
    assert_eq!(float(players[0].1.state.ball.position.x), 5.0);
    assert_eq!(float(players[1].1.state.ball.position.x), 5.5);
    // Snapshots that are no longer needed are dropped.
    game.clean_old_snapshots(at(2000));
    assert_eq!(game.snapshots.len(), 3);
    game.clean_old_snapshots(at(2500));
    assert_eq!(game.snapshots.len(), 2);
    game.clean_old_snapshots(at(9000));
    assert_eq!(game.snapshots.len(), 1);
}

#[test]
fn changed_settings_are_shared_once() {
    let mut game = client_game();
    let mut shared = SettingsHandle::new(GameSettings::default());
    assert!(shared.dirty().is_none());
    let mut settings = GameSettings::default();
    settings.bounds_radius = num(2.0);
    game.set_settings(settings, &mut shared);
    assert_eq!(float(game.settings().bounds_radius), 2.0);
    assert_eq!(float(shared.settings().bounds_radius), 2.0);
    assert_eq!(float(shared.dirty().unwrap().bounds_radius), 2.0);
    assert!(shared.dirty().is_none());
}

#[test]
fn players_are_drawn_with_ball_and_cursor() {
    let mut player = ball::game::client::Player {
        static_state: StaticPlayerState { color: gray(0) },
        state: PlayerState { cursor: Some(point(1.0, 2.0)), ball: still(3.0, 4.0) },
    };
    let settings = GameSettings::default();
    let double = |x: Real| num(2.0 * float(x));
    let circles = player.draw(&settings, double).into_vec();
    assert_eq!(circles.len(), 2);
    assert_eq!(float(circles[0].center.y), 8.0);
    assert_eq!(float(circles[0].radius), 0.3);
    assert_eq!(float(circles[1].center.x), 2.0);
    assert_eq!(float(circles[1].radius), 0.1);
    assert_eq!(float(circles[1].color.green), 0.5);
    player.state.cursor = None;
    assert_eq!(player.draw(&settings, double).into_vec().len(), 1);
}

#[test]
fn cursors_and_balls_are_kept_within_bounds() {
    let cursor = point(3.0, 0.0);
    let bounded = point(0.95, 0.0);
    assert_eq!(float(clamp_cursor(cursor, num(9.0), num(0.9), bounded).x), 0.95);
    assert_eq!(float(clamp_cursor(cursor, num(0.9), num(0.9), bounded).x), 3.0);
    assert_eq!(float(clamp_cursor(cursor, num(f32::NAN), num(0.9), bounded).x), 3.0);
    let beyond = still(3.0, 0.0);
    assert_eq!(float(Ball::starting(beyond, num(9.0), num(0.7), bounded).position.x), 0.95);
    assert_eq!(float(Ball::starting(beyond, num(0.5), num(0.7), bounded).position.x), 3.0);
}

#[test]
fn balls_are_pulled_by_living_cursors_only() {
    let pull = |_: Ball, cursor: Point| Vector { x: cursor.x, y: cursor.y };
    let move_on = |ball: Ball| Point {
        x: num(float(ball.position.x) + float(ball.velocity.x)),
        y: ball.position.y,
    };
    let mut state = PlayerState::new(point(2.0, 0.0), still(1.0, 0.0));
    state.tick(pull, move_on);
    assert_eq!(float(state.ball.velocity.x), 2.0);
    assert_eq!(float(state.ball.position.x), 3.0);
    state.cursor = None;
    state.set_cursor(point(9.0, 9.0));
    assert!(!state.alive());
    state.tick(pull, move_on);
    assert_eq!(float(state.ball.velocity.x), 2.0);
    assert_eq!(float(state.ball.position.x), 5.0);
}

#[test]
fn time_is_stepped_in_chunks() {
    let steps = step_dt(3, num(0.25), num(0.125));
    let steps: Vec<f32> = steps.iter().map(|step| float(*step)).collect();
    assert_eq!(steps, vec![0.25, 0.25, 0.25, 0.125]);
    assert_eq!(step_dt(0, num(0.25), num(0.0)).len(), 1);
}

#[test]
fn running_rounds() {
    assert!(RoundState::Round.running() && RoundState::RoundEnd.running());
    assert!(!RoundState::Lobby.running() && !RoundState::Waiting.running());
    assert!(!RoundState::Winner(None).running());
    assert_eq!(RoundState::default(), RoundState::Lobby);
}

#[test]
fn collisions_by_side() {
    let settings = GameSettings::default();
    let wall = physics::bounds(&settings);
    let ball = physics::ball(still(0.0, 0.0), &settings);
    let cursor = physics::cursor(point(0.1, 0.0), &settings);
    assert_eq!(float(wall.orientation()), -1.0);
    assert_eq!(float(ball.orientation()), 1.0);
    assert_eq!(float(cursor.radius), 0.05);
    assert!(physics::check_collision(&ball, &cursor, num(0.01), num(0.04)));
    assert!(!physics::check_collision(&ball, &cursor, num(0.04), num(0.04)));
    assert!(!physics::check_collision(&ball, &wall, num(0.01), num(0.7)));
    assert!(physics::check_collision(&ball, &wall, num(0.8), num(0.7)));
    let back: Ball = ball.into();
    assert_eq!(float(back.position.x), 0.0);
}

// Circles on the first axis, which are still or fixed.
fn gap<V1, V2>(a: physics::Circle<V1>, b: physics::Circle<V2>) -> (Real, Real) {
    let distance = float(a.center.x) - float(b.center.x);
    let limit = float(a.radius) * float(b.orientation()) + float(b.radius) * float(a.orientation());
    (num(distance * distance), num(limit * limit))
}

type Pair<V> = (physics::Circle<Vector>, physics::Circle<V>);

fn advance<V>(mut a: physics::Circle<Vector>, b: physics::Circle<V>, t: Real) -> Pair<V> {
    a.center.x = num(float(a.center.x) + float(t));
    (a, b)
}

fn retreat<V>(mut a: physics::Circle<Vector>, b: physics::Circle<V>, t: Real) -> Pair<V> {
    a.center.x = num(float(a.center.x) - float(t) * float(a.velocity.x));
    (a, b)
}

fn offset<V>(mut a: physics::Circle<Vector>, b: physics::Circle<V>) -> Pair<V> {
    a.center.x = num(-7.0);
    (a, b)
}

fn bounce<V>(mut a: physics::Circle<Vector>, b: physics::Circle<V>) -> Pair<V> {
    a.velocity.x = num(2.0);
    (a, b)
}

fn soon<V1, V2>(_: physics::Circle<V1>, _: physics::Circle<V2>) -> (Real, Real) {
    (num(1.0), num(-0.05))
}

fn unsolved<V1, V2>(_: physics::Circle<V1>, _: physics::Circle<V2>) -> (Real, Real) {
    (num(-1.0), num(0.01))
}

fn late<V1, V2>(_: physics::Circle<V1>, _: physics::Circle<V2>) -> (Real, Real) {
    (num(1.0), num(-0.06))
}

#[test]
fn penetration_is_resolved_or_given_up() {
    let settings = GameSettings::default();
    let mut a = physics::ball(still(0.0, 0.0), &settings);
    let mut b = physics::ball(still(0.1, 0.0), &settings);
    let mechanics =
        physics::Mechanics { distances: gap, equation: soon, advance, retreat, offset, bounce };
    let moved = physics::resolve_penetration(&mut a, &mut b, &mechanics);
    assert_eq!(float(moved.unwrap()), -0.05);
    assert_eq!(float(a.center.x), -0.05);
    let mechanics =
        physics::Mechanics { distances: gap, equation: unsolved, advance, retreat, offset, bounce };
    assert!(physics::resolve_penetration(&mut a, &mut b, &mechanics).is_none());
    assert_eq!(float(a.center.x), -7.0);
    a.center.x = num(0.0);
    let mechanics =
        physics::Mechanics { distances: gap, equation: late, advance, retreat, offset, bounce };
    assert!(physics::resolve_penetration(&mut a, &mut b, &mechanics).is_none());
    assert_eq!(float(a.center.x), -7.0);
}

fn at_rest<V1, V2>(_: physics::Circle<V1>, _: physics::Circle<V2>) -> (Real, Real) {
    (num(0.0), num(f32::NAN))
}

fn beyond<V1, V2>(_: physics::Circle<V1>, _: physics::Circle<V2>) -> (Real, Real) {
    (num(f32::NAN), num(0.01))
}

fn apart(mut a: physics::Circle<Vector>, mut b: physics::Circle<Vector>) -> Pair<Vector> {
    let midpoint = 0.5 * (float(a.center.x) + float(b.center.x));
    let half = 0.5 * (float(a.radius) + float(b.radius));
    a.center.x = num(midpoint - half);
    b.center.x = num(midpoint + half);
    (a, b)
}

#[test]
fn circles_at_rest_are_moved_apart() {
    let mut a = physics::Circle::outer(num(1.0), point(0.0, 0.0), vector(0.0, 0.0));
    let mut b = physics::Circle::outer(num(1.0), point(1.0, 0.0), vector(0.0, 0.0));
    let mechanics = physics::Mechanics {
        distances: gap,
        equation: at_rest,
        advance,
        retreat,
        offset: apart,
        bounce,
    };
    assert!(physics::resolve_penetration(&mut a, &mut b, &mechanics).is_none());
    assert_eq!((float(a.center.x), float(b.center.x)), (-0.5, 1.5));
    assert_eq!((float(a.radius), float(b.radius)), (1.0, 1.0));
    assert_eq!((float(a.velocity.x), float(b.velocity.x)), (0.0, 0.0));
    let mechanics =
        physics::Mechanics { distances: gap, equation: beyond, advance, retreat, offset, bounce };
    assert!(physics::resolve_penetration(&mut a, &mut b, &mechanics).is_none());
    assert_eq!(float(a.center.x), -7.0);
}

#[test]
fn collisions_are_resolved_in_three_steps() {
    let settings = GameSettings::default();
    let mechanics =
        physics::Mechanics { distances: gap, equation: soon, advance, retreat, offset, bounce };
    let mut b = physics::bounds(&settings);
    // Inside of the bounds.
    let mut a = physics::ball(still(0.5, 0.0), &settings);
    assert!(!physics::resolve_collision(&mut a, &mut b, &mechanics));
    assert_eq!(float(a.center.x), 0.5);
    // Beyond them: moved by -0.05, sped up to 2, and moved back by -0.05 times that.
    let mut a = physics::ball(still(4.0, 0.0), &settings);
    assert!(physics::resolve_collision(&mut a, &mut b, &mechanics));
    assert_eq!(float(a.center.x), (4.0 - 0.05) - (-0.05 * 2.0));
    assert_eq!(float(a.velocity.x), 2.0);
}

#[test]
fn balls_meet_balls_walls_and_cursors() {
    let settings = GameSettings::default();
    let balls =
        physics::Mechanics { distances: gap, equation: unsolved, advance, retreat, offset, bounce };
    assert!(physics::contact(still(0.0, 0.0), still(0.5, 0.0), &settings, &balls).is_none());
    let (a, b) = physics::contact(still(0.0, 0.0), still(0.25, 0.0), &settings, &balls).unwrap();
    assert_eq!(float(a.position.x), -7.0);
    assert_eq!(float(a.velocity.x), 0.0);
    assert_eq!(float(b.position.x), 0.25);
    let walls =
        physics::Mechanics { distances: gap, equation: late, advance, retreat, offset, bounce };
    assert!(physics::wall(still(0.8, 0.0), &settings, &walls).is_none());
    let ball = physics::wall(still(0.9, 0.0), &settings, &walls).unwrap();
    assert_eq!(float(ball.position.x), -7.0);
    // The radii are 0.05 and 0.15.
    assert!(physics::touch(point(0.1, 0.0), still(0.25, 0.0), &settings, &gap));
    assert!(!physics::touch(point(0.0, 0.0), still(0.25, 0.0), &settings, &gap));
}

fn input(x: f32) -> Input {
    Input { cursor: point(x, 0.0) }
}

#[test]
fn inputs_are_buffered_until_acknowledged() {
    let mut buffer = InputBuffer::new(input(0.0), at(0));
    assert_eq!(buffer.packet_send(1).len(), 0);
    buffer.store_input(input(1.0), at(10));
    buffer.store_input(input(2.0), at(25));
    assert_eq!(float(buffer.latest().cursor.x), 2.0);
    assert_eq!(buffer.delay(at(30)), Duration { nanos: 5 });
    let sent: Vec<f32> = buffer.packet_send(2).iter().map(|i| float(i.cursor.x)).collect();
    assert_eq!(sent, vec![1.0, 2.0]);
    buffer.store_input(input(3.0), at(26));
    let sent: Vec<f32> = buffer.packet_send(5).iter().map(|i| float(i.cursor.x)).collect();
    assert_eq!(sent, vec![3.0]);
    buffer.store_input(input(4.0), at(30));
    let delays: Vec<u128> = buffer.inputs().iter().map(|entry| entry.1.nanos).collect();
    assert_eq!(delays, vec![10, 15, 1, 4]);
    let mut acks = Acks::default();
    acks.ack(4);
    assert!(!buffer.packet_acks(acks, at(40)));
    assert_eq!(buffer.inputs().len(), 4);
    assert_eq!(buffer.delay(at(45)), Duration { nanos: 15 });
    acks.ack(2);
    assert!(buffer.packet_acks(acks, at(41)));
    assert_eq!(buffer.inputs().len(), 2);
    // The packet has been acknowledged after the last input was stored.
    assert_eq!(buffer.delay(at(45)), Duration { nanos: 4 });
    assert!(!buffer.packet_acks(acks, at(43)));
    assert_eq!(buffer.delay(at(45)), Duration { nanos: 4 });
    acks.ack(5);
    assert!(buffer.packet_acks(acks, at(44)));
    let left: Vec<f32> = buffer.inputs().iter().map(|i| float(i.0.cursor.x)).collect();
    assert_eq!(left, vec![4.0]);
    // The delay between inputs does not depend on acknowledgements.
    buffer.store_input(input(5.0), at(50));
    assert_eq!(buffer.inputs()[1].1, Duration { nanos: 20 });
    assert_eq!(buffer.delay(at(52)), Duration { nanos: 2 });
}

#[test]
fn packets_may_be_numbered_out_of_order() {
    let mut buffer = InputBuffer::new(input(0.0), at(0));
    buffer.store_input(input(1.0), at(1));
    buffer.packet_send(9);
    buffer.store_input(input(2.0), at(2));
    buffer.packet_send(4);
    buffer.store_input(input(3.0), at(3));
    let mut acks = Acks::default();
    acks.ack(9);
    // All packets up to the acknowledged one are done with.
    assert!(buffer.packet_acks(acks, at(50)));
    let left: Vec<f32> = buffer.inputs().iter().map(|i| float(i.0.cursor.x)).collect();
    assert_eq!(left, vec![3.0]);
    acks.ack(4);
    assert!(!buffer.packet_acks(acks, at(50)));
}

#[test]
fn old_inputs_are_dropped_when_the_buffer_is_full() {
    let mut buffer = InputBuffer::new(input(0.0), at(0));
    for i in 0..40u16 {
        if i % 20 == 0 {
            buffer.packet_send(u32::from(i) + 1);
        }
        buffer.store_input(input(f32::from(i)), at(u128::from(i)));
    }
    assert_eq!(buffer.inputs().len(), MAX_INPUT_BUFFER);
    assert_eq!(float(buffer.inputs()[0].0.cursor.x), 8.0);
    assert_eq!(buffer.packet_send(100).len(), 20);
    let mut acks = Acks::default();
    acks.ack(100);
    assert!(buffer.packet_acks(acks, at(50)));
    assert_eq!(buffer.inputs().len(), 0);
}
