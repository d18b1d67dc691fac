use std::collections::HashMap;

use ball::game::server::Physics;
use ball::game::snapshot::Snapshot;
use ball::game::{
    Ball, Event, GameSettings, Input, PlayerState, RoundState, StaticPlayerState,
};
use ball::networking::client::{
    Client, NetworkStats, Shutdown, TimeoutState as ClientTimeout, TimeoutStep, Told,
};
use ball::networking::packet::{ClientPacket, ServerPacket};
use ball::networking::relay::{Dispatch, Member, Relay};
use ball::networking::server::{
    Received, Rules, SendOutcome, Server, TimeoutState, Watch, TICK_RATE,
};
use ball::networking::{
    Error, RecvError, CONNECTION_TIMEOUT, MAX_PACKET_SIZE, PING_RATE, SNAPSHOT_RATE,
};
use ball::number::{Color, Point, Real, Vector};
use ball::prediction::Input as Position;
use ball::time::{Duration, Instant};

fn num(x: f32) -> Real {
    Real { bits: x.to_bits() }
}

fn float(x: Real) -> f32 {
    f32::from_bits(x.bits)
}

fn point(x: f32, y: f32) -> Point {
    Point { x: num(x), y: num(y) }
}

fn at(nanos: u128) -> Instant {
    Instant { nanos }
}

fn clamp(cursor: Point, _: GameSettings) -> Point {
    Point { x: num(float(cursor.x).min(1.0)), y: cursor.y }
}

fn start(cursor: Point, _: GameSettings) -> Ball {
    Ball { position: cursor, velocity: Vector { x: num(0.0), y: num(0.0) } }
}

fn color(_: u32) -> Color {
    Color { red: num(1.0), green: num(0.0), blue: num(0.0) }
}

fn seconds(span: Duration) -> Real {
    num(span.nanos as f32 / 1e9)
}

fn blend(rtt: Real, sample: Real) -> Real {
    num(0.875 * float(rtt) + 0.125 * float(sample))
}

fn motion(state: PlayerState, _: GameSettings, _: Real) -> Ball {
    state.ball
}

fn contact(_: Ball, _: Ball, _: GameSettings) -> Option<(Ball, Ball)> {
    None
}

fn wall(_: Ball, _: GameSettings) -> Option<Ball> {
    None
}

fn touch(_: Point, _: Ball, _: GameSettings) -> bool {
    false
}

fn timing(lasted: Real, dt: Duration) -> (Real, Vec<Real>) {
    (num(float(lasted) + dt.nanos as f32 / 1e9), vec![num(0.0)])
}

fn bytes(sequence: u32, ack: u32, ack_bits: u32) -> Vec<u8> {
    let mut bytes = Vec::new();
    bytes.extend_from_slice(&sequence.to_be_bytes());
    bytes.extend_from_slice(&ack.to_be_bytes());
    bytes.extend_from_slice(&ack_bits.to_be_bytes());
    bytes
}

fn recv(server: &mut Server, address: u64, packet: &[u8], contents: Option<ClientPacket>) -> Received {
    let rules = Rules { clamp, start, color, seconds, blend };
    assert!(server.is_ready() && server.is_accepting());
    server.on_recv(address, packet, contents, at(5_000), &rules)
}

fn timeout(server: &mut Server, state: TimeoutState, now: u128) -> (Option<(Duration, TimeoutState)>, bool) {
    let physics = Physics { motion, contact, wall, touch };
    assert!(server.is_ready());
    server.on_timeout(state, at(now), &timing, &physics)
}

// Takes everything from the queue: whom it is for, its number, and what it is.
fn drain(server: &mut Server) -> Vec<(u64, u32, &'static str)> {
    let mut list = Vec::new();
    loop {
        let entry = match server.next_to_send() {
            None => return list,
            Some((address, frame)) => {
                assert_eq!(frame.header.len(), 12);
                let mut number = [0; 4];
                number.copy_from_slice(&frame.header[..4]);
                (address, u32::from_be_bytes(number), name(&frame.packet))
            }
        };
        list.push(entry);
        let next = server.on_sent(SendOutcome::Sent);
        assert!(next.again && !next.waiting);
    }
}

fn name(packet: &ServerPacket) -> &'static str {
    match packet {
        ServerPacket::Event(Event::NewPlayer { .. }) => "new player",
        ServerPacket::Event(Event::RemovePlayer(_)) => "remove player",
        ServerPacket::Event(Event::RoundState(_)) => "round",
        ServerPacket::Event(Event::Settings(_)) => "settings",
        ServerPacket::Event(Event::Snapshot(_)) => "snapshot",
        ServerPacket::Ping => "ping",
        ServerPacket::Pong(_) => "pong",
        ServerPacket::Handshake { .. } => "handshake",
    }
}

fn join(server: &mut Server, address: u64) {
    let handshake = ClientPacket::Handshake { cursor: point(0.5, 0.0) };
    let outcome = recv(server, address, &bytes(0, 0, 0), Some(handshake));
    assert!(outcome.result.is_ok());
    assert_eq!(outcome.watch, Watch::Start);
    assert!(outcome.waiting);
}

#[test]
fn server_starts_with_its_timers() {
    let (server, timeouts) = Server::new(at(7));
    assert!(server.next_to_send().is_none());
    assert_eq!(
        timeouts,
        vec![
            (Duration { nanos: SNAPSHOT_RATE }, TimeoutState::SendSnapshot),
            (Duration { nanos: TICK_RATE }, TimeoutState::Tick),
            (Duration { nanos: PING_RATE }, TimeoutState::Ping),
        ]
    );
    assert_eq!(SNAPSHOT_RATE, 30_000_000);
    assert_eq!(TICK_RATE, 15_000_000);
    assert_eq!(PING_RATE, 500_000_000);
    assert_eq!(CONNECTION_TIMEOUT, 5_000_000_000);
}

#[test]
fn clients_join_by_handshake() {
    let (mut server, _) = Server::new(at(0));
    let ignored = recv(&mut server, 10, &bytes(0, 0, 0), Some(ClientPacket::Ping));
    assert!(ignored.result.is_ok());
    assert_eq!(ignored.watch, Watch::Leave);
    assert!(server.next_to_send().is_none());
    join(&mut server, 10);
    assert_eq!(drain(&mut server), vec![(10, 0, "handshake")]);
    join(&mut server, 20);
    assert_eq!(
        drain(&mut server),
        vec![(10, 1, "new player"), (10, 2, "round"), (20, 0, "handshake")]
    );
    // A second handshake is ignored.
    let handshake = ClientPacket::Handshake { cursor: point(0.5, 0.0) };
    let outcome = recv(&mut server, 20, &bytes(1, 0, 0), Some(handshake));
    assert!(outcome.result.is_ok() && !outcome.waiting);
    assert_eq!(outcome.watch, Watch::Restart);
    assert!(server.next_to_send().is_none());
}

#[test]
fn handshakes_tell_all_about_the_game() {
    let (mut server, _) = Server::new(at(0));
    join(&mut server, 10);
    drain(&mut server);
    join(&mut server, 20);
    server.on_sent(SendOutcome::Sent);
    server.on_sent(SendOutcome::Sent);
    let (address, frame) = server.next_to_send().unwrap();
    assert_eq!(address, 20);
    match &*frame.packet {
        ServerPacket::Handshake { id, players, round, snapshot, .. } => {
            assert_eq!(*id, 1);
            assert_eq!(players.len(), 2);
            assert_eq!(float(players[&0].color.red), 1.0);
            assert_eq!(*round, RoundState::Waiting);
            assert_eq!(float(snapshot.players[&1].cursor.unwrap().x), 0.5);
        }
        _ => panic!("not a handshake"),
    }
}

#[test]
fn bad_packets_are_refused() {
    let (mut server, _) = Server::new(at(0));
    join(&mut server, 10);
    drain(&mut server);
    let large = vec![0; MAX_PACKET_SIZE + 1];
    let outcome = recv(&mut server, 10, &large, Some(ClientPacket::Ping));
    assert_eq!(outcome.result, Err(RecvError::PacketTooLarge(MAX_PACKET_SIZE + 1)));
    assert_eq!(outcome.watch, Watch::Leave);
    let outcome = recv(&mut server, 10, &[0; 11], Some(ClientPacket::Ping));
    assert_eq!(outcome.result, Err(RecvError::HeaderRead));
    assert_eq!(outcome.watch, Watch::Restart);
    let outcome = recv(&mut server, 10, &bytes(4, 0, 0), None);
    assert_eq!(outcome.result, Err(RecvError::Deserialize));
    assert_eq!(outcome.watch, Watch::Restart);
    let outcome = recv(&mut server, 99, &[0; 3], None);
    assert_eq!(outcome.result, Err(RecvError::HeaderRead));
    assert_eq!(outcome.watch, Watch::Leave);
    assert!(server.next_to_send().is_none());
}

#[test]
fn pings_are_answered_with_their_number() {
    let (mut server, _) = Server::new(at(0));
    join(&mut server, 10);
    drain(&mut server);
    let outcome = recv(&mut server, 10, &bytes(77, 0, 0), Some(ClientPacket::Ping));
    assert!(outcome.waiting);
    match &*server.next_to_send().unwrap().1.packet {
        ServerPacket::Pong(sequence) => assert_eq!(*sequence, 77),
        _ => panic!("not a pong"),
    }
}

#[test]
fn late_input_is_ignored() {
    let (mut server, _) = Server::new(at(0));
    join(&mut server, 10);
    drain(&mut server);
    let cursor_of = |server: &mut Server| {
        timeout(server, TimeoutState::SendSnapshot, 30_000_000);
        let x = match &*server.next_to_send().unwrap().1.packet {
            ServerPacket::Event(Event::Snapshot(snapshot)) => {
                float(snapshot.players[&0].cursor.unwrap().x)
            }
            _ => panic!("not a snapshot"),
        };
        drain(server);
        x
    };
    let input = |x: f32| Some(ClientPacket::Input(Input { cursor: point(x, 0.0) }));
    recv(&mut server, 10, &bytes(5, 0, 0), input(0.25));
    assert_eq!(cursor_of(&mut server), 0.25);
    recv(&mut server, 10, &bytes(4, 0, 0), input(0.75));
    assert_eq!(cursor_of(&mut server), 0.25);
    recv(&mut server, 10, &bytes(5, 0, 0), input(0.75));
    assert_eq!(cursor_of(&mut server), 0.25);
    // Cursors are kept within bounds.
    recv(&mut server, 10, &bytes(6, 0, 0), input(7.0));
    assert_eq!(cursor_of(&mut server), 1.0);
}

#[test]
fn settings_are_passed_on_to_the_others() {
    let (mut server, _) = Server::new(at(0));
    join(&mut server, 10);
    join(&mut server, 20);
    join(&mut server, 30);
    drain(&mut server);
    let outcome = recv(
        &mut server,
        20,
        &bytes(1, 0, 0),
        Some(ClientPacket::Settings(GameSettings::default())),
    );
    assert!(outcome.waiting);
    let mut sent = drain(&mut server);
    sent.sort();
    assert_eq!(sent.len(), 2);
    assert_eq!((sent[0].0, sent[0].2), (10, "settings"));
    assert_eq!((sent[1].0, sent[1].2), (30, "settings"));
}

#[test]
fn leaving_is_told_to_the_others() {
    let (mut server, _) = Server::new(at(0));
    join(&mut server, 10);
    join(&mut server, 20);
    drain(&mut server);
    let outcome = recv(&mut server, 20, &bytes(1, 0, 0), Some(ClientPacket::Disconnect));
    assert!(outcome.waiting);
    let sent: Vec<&str> = drain(&mut server).iter().map(|entry| entry.2).collect();
    assert_eq!(sent, vec!["remove player", "round"]);
    let (again, waiting) = timeout(&mut server, TimeoutState::LostConnection(20), 9);
    assert!(again.is_none() && !waiting);
    let (again, waiting) = timeout(&mut server, TimeoutState::LostConnection(10), 9);
    assert!(again.is_none() && !waiting);
    assert!(server.next_to_send().is_none());
    join(&mut server, 20);
    assert_eq!(drain(&mut server), vec![(20, 0, "handshake")]);
}

#[test]
fn lost_packets_are_sent_again_while_they_matter() {
    let (mut server, _) = Server::new(at(0));
    join(&mut server, 10);
    join(&mut server, 20);
    // Number 0 is the handshake, number 1 the new player, number 2 the round state.
    drain(&mut server);
    let ping = Some(ClientPacket::Ping);
    recv(&mut server, 10, &bytes(1, 3, 0b0001), ping);
    assert_eq!(drain(&mut server).len(), 1);
    // They have all fallen out of the window.
    let outcome = recv(&mut server, 10, &bytes(2, 40, 0b0001), Some(ClientPacket::Pong(0)));
    assert!(outcome.waiting);
    let sent: Vec<&str> = drain(&mut server).iter().map(|entry| entry.2).collect();
    assert_eq!(sent, vec!["round", "new player", "handshake"]);
}

#[test]
fn acknowledged_handshake_is_not_sent_again() {
    let (mut server, _) = Server::new(at(0));
    join(&mut server, 10);
    join(&mut server, 20);
    drain(&mut server);
    recv(&mut server, 10, &bytes(1, 0, 0b0001), Some(ClientPacket::Pong(0)));
    let outcome = recv(&mut server, 10, &bytes(2, 34, 0b0001), Some(ClientPacket::Pong(0)));
    assert!(outcome.waiting);
    let sent: Vec<&str> = drain(&mut server).iter().map(|entry| entry.2).collect();
    assert_eq!(sent, vec!["round", "new player"]);
    // What is kept under new numbers is sent again when these are jumped over.
    let outcome = recv(&mut server, 10, &bytes(3, 90, 0b0001), Some(ClientPacket::Pong(0)));
    assert!(outcome.waiting);
    let sent: Vec<&str> = drain(&mut server).iter().map(|entry| entry.2).collect();
    assert_eq!(sent, vec!["new player", "round"]);
    let outcome = recv(&mut server, 10, &bytes(4, 90, 0b0001), Some(ClientPacket::Pong(0)));
    assert!(!outcome.waiting);
}

#[test]
fn outdated_and_acknowledged_packets_are_not_sent_again() {
    let (mut server, _) = Server::new(at(0));
    join(&mut server, 10);
    join(&mut server, 20);
    join(&mut server, 30);
    // Numbers 1 and 3 are new players, number 2 is the round state.
    drain(&mut server);
    // Number 1 is acknowledged.
    recv(&mut server, 10, &bytes(1, 3, 0b0100), Some(ClientPacket::Pong(0)));
    // The round state changes.
    recv(&mut server, 20, &bytes(1, 0, 0), Some(ClientPacket::Disconnect));
    recv(&mut server, 30, &bytes(1, 0, 0), Some(ClientPacket::Disconnect));
    drain(&mut server);
    let outcome = recv(&mut server, 10, &bytes(2, 35, 0b0001), Some(ClientPacket::Pong(0)));
    assert!(outcome.waiting);
    let sent: Vec<&str> = drain(&mut server).iter().map(|entry| entry.2).collect();
    assert_eq!(sent, vec!["new player", "handshake"]);
}

#[test]
fn failed_sends_disconnect() {
    let (mut server, _) = Server::new(at(0));
    join(&mut server, 10);
    join(&mut server, 20);
    drain(&mut server);
    timeout(&mut server, TimeoutState::Ping, 500_000_000);
    let first = server.next_to_send().unwrap().0;
    let next = server.on_sent(SendOutcome::WouldBlock);
    assert!(!next.again && !next.waiting);
    assert_eq!(server.next_to_send().unwrap().0, first);
    let next = server.on_sent(SendOutcome::Failed);
    assert!(next.again && next.waiting);
    // The other one is still sent its ping, and is told who left.
    let other = if first == 10 { 20 } else { 10 };
    let sent = drain(&mut server);
    assert!(sent.iter().all(|entry| entry.0 == other));
    let sent: Vec<&str> = sent.iter().map(|entry| entry.2).collect();
    assert_eq!(sent, vec!["ping", "remove player", "round"]);
    // What is left for somebody who is no client any more is skipped.
    timeout(&mut server, TimeoutState::Ping, 1_000_000_000);
    timeout(&mut server, TimeoutState::LostConnection(other), 1_000_000_001);
    join(&mut server, 30);
    let next = server.on_sent(SendOutcome::Failed);
    assert!(next.again && !next.waiting);
    assert_eq!(drain(&mut server), vec![(30, 0, "handshake")]);
}

#[test]
fn server_pings_everybody_and_learns_round_trip_times() {
    let (mut server, _) = Server::new(at(0));
    let (again, waiting) = timeout(&mut server, TimeoutState::Ping, 500_000_000);
    assert_eq!(again, Some((Duration { nanos: PING_RATE }, TimeoutState::Ping)));
    assert!(waiting);
    join(&mut server, 10);
    join(&mut server, 20);
    drain(&mut server);
    timeout(&mut server, TimeoutState::Ping, 1_000_000_000);
    let mut sent = drain(&mut server);
    sent.sort();
    assert_eq!(sent, vec![(10, 3, "ping"), (20, 1, "ping")]);
}

#[test]
fn game_ticks_announce_rounds() {
    let (mut server, _) = Server::new(at(0));
    join(&mut server, 10);
    join(&mut server, 20);
    drain(&mut server);
    let (again, waiting) = timeout(&mut server, TimeoutState::Tick, 15_000_000);
    assert_eq!(again, Some((Duration { nanos: TICK_RATE }, TimeoutState::Tick)));
    assert!(!waiting);
    let (_, waiting) = timeout(&mut server, TimeoutState::Tick, 60_000_000_000);
    assert!(waiting);
    let sent: Vec<&str> = drain(&mut server).iter().map(|entry| entry.2).collect();
    assert_eq!(sent, vec!["round", "round"]);
}

#[test]
fn snapshots_are_sent_to_all() {
    let (mut server, _) = Server::new(at(0));
    let (_, waiting) = timeout(&mut server, TimeoutState::SendSnapshot, 30_000_000);
    assert!(!waiting);
    join(&mut server, 10);
    drain(&mut server);
    let (again, waiting) = timeout(&mut server, TimeoutState::SendSnapshot, 61_000_000);
    assert_eq!(again, Some((Duration { nanos: 29_000_000 }, TimeoutState::SendSnapshot)));
    assert!(waiting);
    assert_eq!(drain(&mut server), vec![(10, 1, "snapshot")]);
}

fn handshake() -> ServerPacket {
    let mut players = HashMap::new();
    players.insert(3, StaticPlayerState { color: color(0) });
    let mut states = HashMap::new();
    states.insert(3, PlayerState::new(point(0.0, 0.0), start(point(0.0, 0.0), GameSettings::default())));
    ServerPacket::Handshake {
        id: 3,
        settings: GameSettings::default(),
        players,
        round: RoundState::Lobby,
        round_duration: num(1.5),
        snapshot: Snapshot { players: states },
    }
}

fn no_input() -> Input {
    Input { cursor: point(0.125, 0.0) }
}

fn sent_packets(client: &mut Client) -> Vec<(u32, ClientPacket)> {
    let mut list = Vec::new();
    while let Some(outgoing) = client.take_next() {
        assert_eq!(outgoing.header.len(), 12);
        let mut number = [0; 4];
        number.copy_from_slice(&outgoing.header[..4]);
        list.push((u32::from_be_bytes(number), outgoing.packet));
    }
    list
}

fn connected() -> Client {
    let mut client = Client::new(point(0.25, 0.75));
    sent_packets(&mut client);
    let outcome = client.on_recv(&bytes(0, 0, 1), Some(handshake()), at(100), &seconds, &blend);
    match outcome.result {
        Ok(Told::Joined(game, handle)) => {
            assert_eq!(game.player_id, 3);
            assert_eq!(float(game.round_duration), 1.5);
            assert_eq!(float(handle.cursor.y), 0.75);
        }
        _ => panic!("not joined"),
    }
    client
}

#[test]
fn client_connects_by_handshake() {
    let mut client = Client::new(point(0.25, 0.75));
    assert!(client.is_ready() && !client.is_closing() && !client.is_done());
    let sent = sent_packets(&mut client);
    assert_eq!(sent.len(), 1);
    assert!(matches!(sent[0], (0, ClientPacket::Handshake { .. })));
    let outcome = client.on_recv(&bytes(0, 0, 1), Some(ServerPacket::Ping), at(1), &seconds, &blend);
    assert!(matches!(outcome.result, Ok(Told::Nothing)));
    assert!(!outcome.waiting);
    connected();
}

#[test]
fn client_answers_pings_and_passes_events_on() {
    let mut client = connected();
    let outcome = client.on_recv(&bytes(8, 0, 0), Some(ServerPacket::Ping), at(200), &seconds, &blend);
    assert!(outcome.waiting);
    assert!(matches!(sent_packets(&mut client)[0], (1, ClientPacket::Pong(8))));
    let event = ServerPacket::Event(Event::RemovePlayer(5));
    let outcome = client.on_recv(&bytes(9, 0, 0), Some(event), at(300), &seconds, &blend);
    assert!(matches!(outcome.result, Ok(Told::Event(Event::RemovePlayer(5)))));
    let outcome = client.on_recv(&bytes(10, 0, 0), Some(handshake()), at(300), &seconds, &blend);
    assert!(matches!(outcome.result, Ok(Told::Nothing)));
}

#[test]
fn client_refuses_bad_packets() {
    let mut client = connected();
    let large = vec![0; MAX_PACKET_SIZE + 1];
    let outcome = client.on_recv(&large, Some(ServerPacket::Ping), at(1), &seconds, &blend);
    assert!(matches!(outcome.result, Err(RecvError::PacketTooLarge(4097))));
    let outcome = client.on_recv(&[0; 5], Some(ServerPacket::Ping), at(1), &seconds, &blend);
    assert!(matches!(outcome.result, Err(RecvError::HeaderRead)));
    let outcome = client.on_recv(&bytes(3, 0, 0), None, at(1), &seconds, &blend);
    assert!(matches!(outcome.result, Err(RecvError::Deserialize)));
}

#[test]
fn client_sends_input_and_pings() {
    let mut client = connected();
    match client.on_timeout(ClientTimeout::Tick, at(15_000_100), no_input()) {
        TimeoutStep::Again(delay) => assert_eq!(delay.nanos, 15_000_000),
        _ => panic!("no further tick"),
    }
    match client.on_timeout(ClientTimeout::Ping, at(500_000_100), no_input()) {
        TimeoutStep::Again(delay) => assert_eq!(delay.nanos, PING_RATE),
        _ => panic!("no further ping"),
    }
    let sent = sent_packets(&mut client);
    match sent[0] {
        (1, ClientPacket::Input(input)) => assert_eq!(float(input.cursor.x), 0.125),
        _ => panic!("no input"),
    }
    assert!(matches!(sent[1], (2, ClientPacket::Ping)));
    // The answer gives the round trip time.
    client.on_recv(&bytes(1, 0, 0), Some(ServerPacket::Pong(2)), at(750_000_100), &seconds, &blend);
    match client.on_timeout(ClientTimeout::UpdateStats, at(1), no_input()) {
        TimeoutStep::Report(stats) => assert_eq!(float(stats.rtt), 0.25),
        _ => panic!("no report"),
    }
}

#[test]
fn client_counts() {
    let mut client = connected();
    client.count_sent(100);
    client.count_sent(20);
    client.on_recv(&bytes(5, 3, 0b101), Some(ServerPacket::Pong(0)), at(1), &seconds, &blend);
    assert!(client.can_count(&bytes(6, 40, 1)));
    // No header can claim that more packets are lost than there are.
    assert!(client.can_count(&bytes(6, u32::MAX, 1)));
    // Number 2 has been lost. The later ones have never been sent.
    client.on_recv(&bytes(6, 40, 1), Some(ServerPacket::Pong(0)), at(1), &seconds, &blend);
    let report = |client: &mut Client| -> NetworkStats {
        match client.on_timeout(ClientTimeout::UpdateStats, at(1), no_input()) {
            TimeoutStep::Report(stats) => stats,
            _ => panic!("no report"),
        }
    };
    let stats = report(&mut client);
    assert_eq!((stats.packets_sent, stats.bytes_out), (2, 120));
    assert_eq!((stats.packets_lost, stats.bytes_in), (1, 36));
    assert_eq!(float(stats.rtt), 0.0);
    let stats = report(&mut client);
    assert_eq!((stats.packets_sent, stats.bytes_out, stats.bytes_in), (0, 0, 0));
}

#[test]
fn client_says_goodbye() {
    let mut client = connected();
    client.on_timeout(ClientTimeout::Tick, at(15_000_100), no_input());
    let shutdown = client.start_shutdown(None);
    assert_eq!(shutdown, Shutdown::FromConnected(None));
    assert_eq!(client.start_shutdown(None), Shutdown::Already);
    assert!(client.is_closing() && !client.is_done());
    assert!(matches!(
        client.on_timeout(ClientTimeout::Ping, at(1), no_input()),
        TimeoutStep::Ignore
    ));
    let sent = sent_packets(&mut client);
    assert_eq!(sent.len(), 8);
    assert!(sent.iter().all(|entry| matches!(entry.1, ClientPacket::Disconnect)));
    assert_eq!(sent[0].0, 2);
    assert!(client.is_done());
}

#[test]
fn client_times_out() {
    let mut client = Client::new(point(0.0, 0.0));
    match client.on_timeout(ClientTimeout::LostConnection, at(1), no_input()) {
        TimeoutStep::Close(shutdown) => {
            assert_eq!(shutdown, Shutdown::FromConnecting(Some(Error::TimedOut)))
        }
        _ => panic!("not closed"),
    }
    assert!(client.is_closing());
    assert_eq!(sent_packets(&mut client).len(), 8);
}

#[test]
fn reliable_packets() {
    let settings = GameSettings::default();
    let mut other = settings;
    other.ball_radius = num(0.5);
    let round = ServerPacket::Event(Event::RoundState(RoundState::Round));
    assert!(round.reliable());
    assert!(round.resend(RoundState::Round, &settings));
    assert!(!round.resend(RoundState::RoundEnd, &settings));
    let changed = ServerPacket::Event(Event::Settings(settings));
    assert!(changed.resend(RoundState::Lobby, &settings));
    assert!(!changed.resend(RoundState::Lobby, &other));
    assert!(handshake().reliable() && handshake().resend(RoundState::Round, &other));
    assert!(!ServerPacket::Ping.reliable() && !ServerPacket::Pong(1).reliable());
    let snapshot = ServerPacket::Event(Event::Snapshot(Snapshot { players: HashMap::new() }));
    assert!(!snapshot.reliable() && !snapshot.resend(RoundState::Round, &settings));
    assert!(ServerPacket::Event(Event::RemovePlayer(1)).reliable());
}

#[test]
fn relays_dispatch_by_address() {
    let mut relay = Relay::new(at(1000));
    assert_eq!(relay.dispatch(7, &color), Dispatch::Register);
    assert_eq!(relay.dispatch(7, &color), Dispatch::Forward);
    assert_eq!(relay.dispatch(8, &color), Dispatch::Register);
    let handshake = relay.handshake(8, at(1500), &color);
    // The handler adds a player of its own.
    assert_eq!(relay.clients[&8].player, 1);
    assert_eq!(handshake.id, 2);
    assert_eq!(handshake.elapsed, Duration { nanos: 500 });
    assert_eq!(handshake.players.len(), 3);
    assert_eq!(handshake.snapshot.players.len(), 3);
    let mut member = Member::join(handshake, at(1500));
    assert_eq!(member.start, at(1000));
    // The input of the member arrives, and is applied once.
    member.game.update_position(point(0.5, 0.25));
    let (header, input) = member.write();
    assert!(relay.handle(8, &header, Some(input)).is_ok());
    assert_eq!(relay.handle(8, &[1, 2], None), Err(RecvError::HeaderRead));
    assert_eq!(relay.handle(8, &bytes(9, 0, 0), None), Err(RecvError::Deserialize));
    relay.apply_inputs();
    assert_eq!(float(relay.game.players[&1].position.x), 0.5);
    assert_eq!(float(relay.game.players[&0].position.x), 0.0);
    assert!(relay.clients[&8].input.is_none());
    let mut headers = relay.broadcast();
    headers.sort();
    assert_eq!(headers[0].0, 7);
    assert_eq!(headers[1].0, 8);
    assert_eq!(headers[1].1.len(), 12);
    assert_eq!(member.read(&headers[1].1, Some(3)), Ok(3));
    assert_eq!(member.read::<u8>(&headers[1].1, None), Err(RecvError::Deserialize));
    assert_eq!(member.read(&[], Some(1)), Err(RecvError::HeaderRead));
    let position = Position { position: point(1.0, 1.0) };
    assert_eq!(float(position.position().x), 1.0);
}
