use std::collections::HashMap;

use ball::game::client::{Game, SettingsHandle};
use ball::game::snapshot::Snapshot as GameSnapshot;
use ball::game::{Ball, GameSettings, PlayerState, RoundState, StaticPlayerState};
use ball::graphics::circles::{Circle, VERTEX_COUNT, VERTEX_SIZE};
use ball::graphics::renderdoc::{init, trigger_capture, Capture};
use ball::graphics::{
    pick_adapter, pick_color_format, pick_families, select_memory_type, ColorFormat, Families,
    Frames, MemoryType, PresentMode, Queue, QueueFamily, QueueGroups, Requirements, Viewport,
    MAX_FRAMES,
};
use ball::logger::{Level, LevelFilter, LogWriter, Logger, MAX_LOG_SIZE};
use ball::number::{Color, Point, Real, Vector};
use ball::prediction::{GameClient, GameServer, PlayerSnapshot, Snapshot};
use ball::state::{
    Button, Connecting, GameState, Key, News, Progress, Resolution, Screen, Visuals, WindowEvent,
};
use ball::time::{Duration, Instant};

fn num(x: f32) -> Real {
    Real { bits: x.to_bits() }
}

fn float(x: Real) -> f32 {
    f32::from_bits(x.bits)
}

fn point(x: f32, y: f32) -> Point {
    Point { x: num(x), y: num(y) }
}

fn vector(x: f32, y: f32) -> Vector {
    Vector { x: num(x), y: num(y) }
}

fn at(nanos: u128) -> Instant {
    Instant { nanos }
}

fn times(a: Real, b: Real) -> Real {
    num(float(a) * float(b))
}

fn lerp(a: Real, b: Real, alpha: Real) -> Real {
    num(float(a) + (float(b) - float(a)) * float(alpha))
}

fn ratio(a: Duration, b: Duration) -> Real {
    num(a.nanos as f32 / b.nanos as f32)
}

fn pieces(list: &[&str]) -> Vec<Vec<u8>> {
    list.iter().map(|piece| piece.as_bytes().to_vec()).collect()
}

fn texts(logger: &Logger, filter: LevelFilter) -> Vec<String> {
    logger
        .shown(filter)
        .into_iter()
        .map(|entry| String::from_utf8(entry.1).unwrap())
        .collect()
}

#[test]
fn levels_are_filtered() {
    let levels = [Level::Error, Level::Warn, Level::Info, Level::Debug, Level::Trace];
    let filters = [
        LevelFilter::Off,
        LevelFilter::Error,
        LevelFilter::Warn,
        LevelFilter::Info,
        LevelFilter::Debug,
        LevelFilter::Trace,
    ];
    for (i, level) in levels.iter().enumerate() {
        for (j, filter) in filters.iter().enumerate() {
            assert_eq!(level.enabled(*filter), i + 1 <= j);
        }
    }
}

#[test]
fn messages_are_kept_with_terminators() {
    let mut logger = Logger::default();
    assert!(logger.latest().is_none());
    assert!(logger.log(Level::Info, LevelFilter::Info, &pieces(&["hello ", "", "there"])));
    assert!(!logger.log(Level::Debug, LevelFilter::Info, &pieces(&["hidden"])));
    assert!(logger.log(Level::Error, LevelFilter::Info, &pieces(&["oh no"])));
    assert_eq!(texts(&logger, LevelFilter::Trace), vec!["hello there\0", "oh no\0"]);
    assert_eq!(texts(&logger, LevelFilter::Warn), vec!["oh no\0"]);
    assert_eq!(logger.latest().unwrap(), b"oh no".to_vec());
}

#[test]
fn full_logs_wrap_around() {
    let mut logger = Logger::default();
    let filler = "x".repeat(MAX_LOG_SIZE / 4 - 1);
    for _ in 0..3 {
        logger.log(Level::Info, LevelFilter::Trace, &pieces(&[&filler]));
    }
    logger.log(Level::Info, LevelFilter::Trace, &pieces(&["almost at the end"]));
    assert_eq!(logger.shown(LevelFilter::Trace).len(), 4);
    // The second piece does not fit any more, so the whole message moves to the beginning.
    let half = "y".repeat(MAX_LOG_SIZE / 8);
    logger.log(Level::Info, LevelFilter::Trace, &pieces(&["start-", &half, &half]));
    let kept = texts(&logger, LevelFilter::Trace);
    // The first two messages have been overwritten.
    assert_eq!(kept.len(), 3);
    assert_eq!(kept[0].len(), MAX_LOG_SIZE / 4);
    assert_eq!(kept[1], "almost at the end\0");
    assert_eq!(kept[2], format!("start-{}{}\0", half, half));
    // What was kept at the end goes when it is overwritten in turn.
    logger.log(Level::Info, LevelFilter::Trace, &pieces(&["z"]));
    let kept = texts(&logger, LevelFilter::Trace);
    assert_eq!(kept.last().unwrap(), "z\0");
    assert_eq!(kept.len(), 4);
}

#[test]
fn longest_message_fits() {
    let mut logger = Logger::default();
    logger.log(Level::Info, LevelFilter::Trace, &pieces(&["before"]));
    let all = "w".repeat(MAX_LOG_SIZE - 1);
    logger.log(Level::Info, LevelFilter::Trace, &pieces(&[&all]));
    assert_eq!(logger.shown(LevelFilter::Trace).len(), 1);
    assert_eq!(logger.latest().unwrap().len(), MAX_LOG_SIZE - 1);
}

#[test]
fn too_long_messages_keep_their_last_pieces() {
    let mut logger = Logger::default();
    logger.log(Level::Info, LevelFilter::Trace, &pieces(&["before"]));
    let most = "v".repeat(MAX_LOG_SIZE - 10);
    logger.log(Level::Info, LevelFilter::Trace, &pieces(&["lost", &most, "the end of it", "!"]));
    // Everything has been overwritten in between.
    assert_eq!(texts(&logger, LevelFilter::Trace), vec!["the end of it!\0"]);
    let whole = "u".repeat(MAX_LOG_SIZE);
    logger.log(Level::Info, LevelFilter::Trace, &pieces(&[&whole]));
    assert_eq!(texts(&logger, LevelFilter::Trace), vec!["\0"]);
}

#[test]
fn writers_take_earlier_pieces_along() {
    let mut text = vec![b'.'; MAX_LOG_SIZE];
    let from = MAX_LOG_SIZE - 4;
    let mut writer = LogWriter::new(from);
    writer.write(&mut text, b"abc");
    assert_eq!((writer.start, writer.head), (from, from + 3));
    writer.write(&mut text, b"defg");
    assert_eq!((writer.start, writer.head), (0, 7));
    assert!(writer.wrapped);
    assert_eq!(&text[..8], b"abcdefg.");
}

#[test]
fn memory_types_are_selected() {
    let types = [
        MemoryType { properties: 0b001 },
        MemoryType { properties: 0b011 },
        MemoryType { properties: 0b111 },
    ];
    let any = Requirements { type_mask: !0 };
    let not_second = Requirements { type_mask: 0b101 };
    assert_eq!(select_memory_type(&types, &[any], 0b010), Some(1));
    assert_eq!(select_memory_type(&types, &[any, not_second], 0b010), Some(2));
    assert_eq!(select_memory_type(&types, &[], 0), Some(0));
    assert_eq!(select_memory_type(&types, &[any], 0b1000), None);
    let nothing = Requirements { type_mask: 0 };
    assert_eq!(select_memory_type(&types, &[nothing], 0), None);
}

#[test]
fn adapters_are_picked() {
    let neither = QueueFamily { transfer: false, graphics: false };
    let graphics = QueueFamily { transfer: false, graphics: true };
    let transfer = QueueFamily { transfer: true, graphics: false };
    assert_eq!(pick_families(&[neither, transfer]), None);
    assert_eq!(pick_families(&[neither, graphics, graphics]), Some(Families::Single(1)));
    assert_eq!(
        pick_families(&[transfer, transfer, graphics]),
        Some(Families::Separate { graphics: 2, transfer: 0 })
    );
    assert_eq!(
        pick_adapter(&vec![vec![transfer], vec![graphics], vec![graphics, transfer]]),
        Some((1, Families::Single(0)))
    );
    assert_eq!(pick_adapter(&vec![vec![], vec![neither]]), None);
}

#[test]
fn color_formats_are_picked() {
    assert_eq!(pick_color_format(&None), ColorFormat::Default);
    assert_eq!(pick_color_format(&Some(vec![false, true, true])), ColorFormat::Listed(1));
    assert_eq!(pick_color_format(&Some(vec![false, false])), ColorFormat::Listed(0));
}

#[test]
fn queues_are_shared_if_they_must_be() {
    assert_eq!(QueueGroups::Separate.graphics_queue(), Queue::Graphics(0));
    assert_eq!(QueueGroups::Separate.transfer_queue(), Queue::Transfer(0));
    assert_eq!(QueueGroups::Single(2).transfer_queue(), Queue::Graphics(1));
    assert_eq!(QueueGroups::Single(1).transfer_queue(), Queue::Graphics(0));
}

#[test]
fn viewports_scale_the_longer_axis() {
    let divide = |a: i16, b: i16| num(f32::from(a) / f32::from(b));
    let wide = Viewport::new(800, 400);
    assert_eq!((wide.x, wide.y, wide.w, wide.h), (0, 0, 800, 400));
    let scale = wide.scale(divide);
    assert_eq!((float(scale[0]), float(scale[1])), (0.5, 1.0));
    let scale = Viewport::new(300, 400).scale(divide);
    assert_eq!((float(scale[0]), float(scale[1])), (1.0, 0.75));
    let scale = Viewport::new(400, 400).scale(divide);
    assert_eq!((float(scale[0]), float(scale[1])), (1.0, 1.0));
    assert_eq!(Viewport::new(0x1_0005, 70_000).w, 5);
}

#[test]
fn frames_take_turns() {
    let mut frames = Frames::new(PresentMode::Fifo);
    assert!(frames.ubo_update() && !frames.needs_swapchain());
    assert_eq!(frames.current_frame, 0);
    frames.next(true);
    assert_eq!(frames.current_frame, 1);
    assert!(!frames.ubo_update() && !frames.needs_swapchain());
    frames.next(false);
    assert_eq!(frames.current_frame, 0);
    assert!(frames.needs_swapchain() && !frames.ubo_update());
    frames.swapchain_built(Viewport::new(1, 1), Viewport::new(1, 1));
    assert!(!frames.ubo_update());
    frames.swapchain_built(Viewport::new(1, 1), Viewport::new(2, 1));
    assert!(frames.ubo_update());
    frames.next(true);
    frames.set_present_mode(PresentMode::Mailbox);
    assert_eq!(frames.present_mode, PresentMode::Mailbox);
    assert!(frames.needs_swapchain());
    assert_eq!(MAX_FRAMES, 2);
}

#[test]
fn captures_need_a_tool() {
    assert_eq!(trigger_capture(&init(false), 1), Capture::Nothing);
    assert_eq!(trigger_capture(&init(true), 1), Capture::NextFrame);
    assert_eq!(trigger_capture(&init(true), 5), Capture::NextFrames(5));
    assert_eq!(trigger_capture(&init(true), 0), Capture::NextFrames(0));
}

#[test]
fn circles_are_described_to_shaders() {
    let circle = Circle {
        center: point(0.25, -0.5),
        radius: num(2.0),
        color: Color { red: num(0.1), green: num(0.2), blue: num(0.3) },
    };
    let words: Vec<f32> =
        circle.push_constants().iter().map(|word| f32::from_bits(*word)).collect();
    assert_eq!(words, vec![2.0, 0.0, 0.25, -0.5, 0.1, 0.2, 0.3, 1.0]);
    assert_eq!(VERTEX_COUNT * VERTEX_SIZE, 32);
}

type State = GameState<&'static str, &'static str, &'static str>;

fn game(round: RoundState, last_round: Option<RoundState>, round_duration: f32) -> Game {
    let mut players = HashMap::new();
    let mut states = HashMap::new();
    for id in 0..2 {
        players.insert(
            id,
            StaticPlayerState {
                color: Color { red: num(f32::from(id)), green: num(0.0), blue: num(0.0) },
            },
        );
        let ball = Ball { position: point(1.0, 0.0), velocity: vector(0.0, 0.0) };
        states.insert(id, PlayerState { cursor: Some(point(0.0, 1.0)), ball });
    }
    let (mut game, _) = Game::new(
        players,
        GameSnapshot { players: states },
        at(0),
        round,
        num(round_duration),
        GameSettings::default(),
        1,
        point(0.0, 0.0),
    );
    game.last_round = last_round;
    game
}

fn playing(round: RoundState, last_round: Option<RoundState>, round_duration: f32) -> State {
    let mut state = State::default();
    state.started(false, Ok(Connecting { server: Some("server"), client: "client" }));
    state.update(News::Menu(Progress::Joined(game(round, last_round, round_duration), "done")));
    state
}

fn in_menu(state: &State) -> bool {
    match state.screen {
        Screen::MainMenu { .. } => true,
        Screen::InGame { .. } => false,
    }
}

fn connecting(state: &State) -> bool {
    match &state.screen {
        Screen::MainMenu { connecting } => connecting.is_some(),
        Screen::InGame { .. } => false,
    }
}

#[test]
fn menu_connects() {
    let mut state = State::default();
    assert!(in_menu(&state) && !connecting(&state));
    assert_eq!(state.server_addr_host, "0.0.0.0:6666");
    assert_eq!(state.server_addr, "");
    assert!(state.resolved(false, Resolution::Found));
    state.started(false, Ok(Connecting { server: None, client: "client" }));
    assert!(connecting(&state));
    state.update(News::Menu(Progress::Pending));
    assert!(connecting(&state));
    state.cancel();
    assert!(in_menu(&state) && !connecting(&state));
    state.started(false, Ok(Connecting { server: None, client: "client" }));
    state.update(News::Menu(Progress::Failed(Some("refused".to_string()))));
    assert!(in_menu(&state) && !connecting(&state));
    assert_eq!(state.error_text.as_ref().unwrap(), "client connection failed: refused");
    state.close_error();
    assert!(state.error_text.is_none());
    assert!(!in_menu(&playing(RoundState::Round, None, 0.0)));
}

#[test]
fn menu_shows_errors() {
    let mut state = State::default();
    state.server_addr = "nowhere".to_string();
    assert!(!state.resolved(false, Resolution::Nothing));
    assert_eq!(state.error_text.as_ref().unwrap(), "couldn't resolve server address: nowhere");
    assert!(!state.resolved(false, Resolution::Invalid));
    assert_eq!(state.error_text.as_ref().unwrap(), "couldn't parse server address: nowhere");
    assert!(!state.resolved(true, Resolution::Nothing));
    assert_eq!(
        state.error_text.as_ref().unwrap(),
        "Couldn't resolve server hosting address: 0.0.0.0:6666"
    );
    assert!(!state.resolved(true, Resolution::Invalid));
    assert_eq!(
        state.error_text.as_ref().unwrap(),
        "Couldn't parse server hosting address: 0.0.0.0:6666"
    );
    state.started(true, Err("in use".to_string()));
    assert_eq!(state.error_text.as_ref().unwrap(), "error hosting server: in use");
    state.started(false, Err("unreachable".to_string()));
    assert_eq!(state.error_text.as_ref().unwrap(), "error connecting to server: unreachable");
    assert!(!connecting(&state));
}

#[test]
fn games_end_with_their_server_or_client() {
    let news = |server_done: Option<Option<String>>, client_done: Option<Option<String>>| {
        News::Game { elapsed: num(1.0), events: vec![], server_done, client_done }
    };
    let mut state = playing(RoundState::Round, None, 0.0);
    state.update(news(None, None));
    match &state.screen {
        Screen::InGame { game, .. } => assert_eq!(float(game.round_duration), 1.0),
        _ => panic!("not in a game"),
    }
    state.update(news(None, Some(None)));
    assert!(in_menu(&state) && state.error_text.is_none());
    let mut state = playing(RoundState::Round, None, 0.0);
    state.update(news(Some(Some("crash".to_string())), Some(Some("lost".to_string()))));
    assert!(in_menu(&state));
    assert_eq!(state.error_text.as_ref().unwrap(), "server stopped with error: crash");
    let mut state = playing(RoundState::Round, None, 0.0);
    state.update(news(None, Some(Some("lost".to_string()))));
    assert_eq!(state.error_text.as_ref().unwrap(), "client stopped with error: lost");
}

#[test]
fn window_events_move_lock_and_show() {
    let mut state = State::default();
    let moved = WindowEvent::CursorMoved { cursor: point(0.5, 0.5) };
    let lock = WindowEvent::MouseInput { button: Button::Middle, pressed: true };
    assert!(state.handle_event(moved).is_none());
    assert_eq!(float(state.cursor.x), 0.5);
    let mut state = playing(RoundState::Round, None, 0.0);
    assert!(state.handle_event(moved).is_some());
    assert!(state.handle_event(lock).is_none());
    let again = WindowEvent::CursorMoved { cursor: point(0.75, 0.5) };
    assert!(state.handle_event(again).is_none());
    assert_eq!(float(state.cursor.x), 0.75);
    state.handle_event(WindowEvent::MouseInput { button: Button::Middle, pressed: false });
    state.handle_event(WindowEvent::MouseInput { button: Button::Other, pressed: true });
    assert!(state.handle_event(again).is_none());
    state.handle_event(lock);
    assert!(state.handle_event(again).is_some());
    state.handle_event(WindowEvent::KeyboardInput { key: Some(Key::S), pressed: true });
    state.handle_event(WindowEvent::KeyboardInput { key: Some(Key::S), pressed: false });
    state.handle_event(WindowEvent::KeyboardInput { key: Some(Key::Other), pressed: true });
    state.handle_event(WindowEvent::KeyboardInput { key: None, pressed: true });
    state.handle_event(WindowEvent::Other);
    match state.screen {
        Screen::InGame { show_settings, locked, .. } => assert!(show_settings && !locked),
        _ => panic!("not in a game"),
    }
}

#[test]
fn changed_settings_reach_game_and_server() {
    let mut state = playing(RoundState::Round, None, 0.0);
    let mut shared = SettingsHandle::new(GameSettings::default());
    let mut settings = GameSettings::default();
    settings.spring_constant = num(3.0);
    state.change_settings(settings, &mut shared);
    match &state.screen {
        Screen::InGame { game, .. } => assert_eq!(float(game.settings().spring_constant), 3.0),
        _ => panic!("not in a game"),
    }
    assert_eq!(float(shared.dirty().unwrap().spring_constant), 3.0);
}

fn drawn(state: &mut State, latest: bool) -> Vec<Circle> {
    let visuals = Visuals {
        clamp: |cursor: Point, _: GameSettings| cursor,
        ratio,
        lerp,
        times,
        grow: |seconds: Real, length: Real| num(float(seconds) * float(length)),
        shrink: |seconds: Real| num(0.9 - float(seconds)),
    };
    assert!(state.can_draw(at(5)));
    state.draw(at(5), latest, &visuals)
}

#[test]
fn menu_is_a_circle() {
    let circles = drawn(&mut State::default(), true);
    assert_eq!(circles.len(), 1);
    assert_eq!(float(circles[0].radius), 0.9);
    assert_eq!(float(circles[0].color.blue), 1.0);
}

#[test]
fn games_are_drawn_from_back_to_front() {
    let mut state = playing(RoundState::Round, None, 0.0);
    state.cursor = point(0.25, 0.0);
    let circles = drawn(&mut state, false);
    assert_eq!(circles.len(), 5);
    assert_eq!(float(circles[0].radius), 0.9);
    // The own player comes last, with its cursor where it is locally.
    assert_eq!(float(circles[4].center.x), 0.9 * 0.25);
    assert_eq!(float(circles[4].color.red), 1.0);
    assert_eq!(float(circles[2].center.y), 0.9);
    let circles = drawn(&mut state, true);
    assert_eq!(circles.len(), 9);
    assert_eq!(float(circles[1].color.red), 0.8);
    assert_eq!(float(circles[4].color.red), 0.8);
    assert_eq!(float(circles[4].center.y), 0.9);
}

#[test]
fn winners_are_shown() {
    let mut state = playing(RoundState::Winner(Some(1)), None, 0.5);
    let circles = drawn(&mut state, false);
    assert_eq!(circles.len(), 6);
    assert_eq!(float(circles[5].radius), 0.9 * 0.5);
    assert_eq!(float(circles[5].color.red), 1.0);
    let mut state = playing(RoundState::Winner(None), None, 0.75);
    let circles = drawn(&mut state, false);
    assert_eq!(float(circles[5].color.red), 0.5);
    let scale = 0.9 - 0.75;
    assert_eq!(float(circles[0].radius), scale);
    assert_eq!(float(circles[5].radius), scale * 0.75);
    // The next game grows.
    let mut state = playing(RoundState::Waiting, Some(RoundState::Winner(None)), 0.5);
    assert_eq!(float(drawn(&mut state, false)[0].radius), 0.5 * 0.9);
    let mut state = playing(RoundState::Waiting, Some(RoundState::Lobby), 0.5);
    assert_eq!(float(drawn(&mut state, false)[0].radius), 0.9);
}

#[test]
fn unknown_winners_cannot_be_drawn() {
    let state = playing(RoundState::Winner(Some(9)), None, 0.5);
    assert!(!state.can_draw(at(5)));
}

#[test]
fn predicted_players_stay_ahead() {
    let red = |_: u32| Color { red: num(1.0), green: num(0.0), blue: num(0.0) };
    let mut server = GameServer::default();
    assert_eq!(server.add_player(&red), 0);
    assert_eq!(server.add_player(&red), 1);
    let clients: HashMap<u16, ball::prediction::PlayerClient> =
        server.players.iter().map(|(id, player)| (*id, player.as_client())).collect();
    let mut client = GameClient::new(clients, server.snapshot(), 0, at(0));
    server.tick(&|player| (point(4.0, 0.0), player.velocity_ball));
    assert_eq!(float(server.players[&1].position_ball.x), 4.0);
    client.insert_snapshot(server.snapshot(), true, at(100));
    assert_eq!(float(client.position_ball.x), 4.0);
    client.update_position(point(7.0, 0.0));
    client.tick(|_, _, cursor| vector(float(cursor.x), 0.0), |ball, velocity| {
        point(float(ball.x) + float(velocity.x), 0.0)
    });
    assert_eq!(float(client.position_ball.x), 11.0);
    let between = client.interpolate_snapshot(at(150), ratio);
    assert_eq!(float(between.alpha), 0.5);
    assert_eq!(float(between.player(0, &lerp).unwrap().position_ball.x), 11.0);
    assert_eq!(float(between.player(1, &lerp).unwrap().position_ball.x), 2.0);
    assert!(between.player(5, &lerp).is_none());
    assert_eq!(between.players(&lerp).len(), 2);
    let kept = between.into_snapshot(&lerp);
    assert_eq!(float(kept.players[&1].position_ball.x), 2.0);
    assert_eq!(float(kept.players[&0].position.x), 7.0);
    // A snapshot that came after the frame was started does not count yet.
    assert_eq!(float(client.interpolate_snapshot(at(50), ratio).alpha), 0.0);
    // One that is out of order replaces the older one.
    let mut players = HashMap::new();
    players.insert(
        1,
        PlayerSnapshot {
            position: point(0.0, 0.0),
            position_ball: point(9.0, 0.0),
            velocity_ball: vector(0.0, 0.0),
        },
    );
    client.insert_snapshot(Snapshot { players }, false, at(120));
    let between = client.interpolate_snapshot(at(50), ratio);
    assert_eq!(float(between.player(1, &lerp).unwrap().position_ball.x), 9.0);
    server.remove_player(0);
    assert_eq!(server.add_player(&red), 2);
    assert!(!server.players.contains_key(&0));
}
