//! A server that handles each client on its own: packets are handed to the client's handler, and
//! whatever is for everybody is sent to each client with a header of its own.

use std::collections::HashMap;
use vstd::prelude::*;

use crate::game::PlayerId;
use crate::keys::{keys, lists_keys, mapped};
use crate::networking::connection::{
    header_bytes, header_noted, Acks, Connection, HEADER_BYTES,
};
use crate::networking::server::Address;
use crate::networking::RecvError;
use crate::number::Color;
use crate::prediction::{
    all_changing, at_rest, GameClient, GameServer, Input, Player, PlayerClient, Snapshot,
};
use crate::time::{Duration, Instant};

verus! {

broadcast use vstd::std_specs::hash::group_hash_axioms;

/// Rate at which inputs are applied: 60 times a second.
pub const UPDATE_RATE: u128 = 16_666_666;

/// Rate at which snapshots are sent: 30 times a second.
pub const SNAPSHOT_RATE: u128 = 33_333_333;

/// Rate at which a client sends its input: 10 times a second.
pub const INPUT_RATE: u128 = 100_000_000;

/// Time to wait for a connection: 4 s.
pub const CONNECT_TIMEOUT: u128 = 4_000_000_000;

/// What a client is told when it has joined.
pub struct ServerHandshake {
    pub id: PlayerId,
    /// The time since the game was started.
    pub elapsed: Duration,
    pub players: HashMap<PlayerId, PlayerClient>,
    pub snapshot: Snapshot,
}

/// What the server knows about a client.
#[derive(Copy, Clone, Debug)]
pub struct Client {
    pub player: PlayerId,
    pub connection: Connection,
    /// Where the player wants the cursor to be.
    pub input: Option<Input>,
}

/// The shared state of the server.
pub struct Relay {
    pub game: GameServer,
    pub clients: HashMap<Address, Client>,
    pub start: Instant,
}

/// What is to be done with a packet.
#[derive(Copy, Clone, Debug, PartialEq, Eq, Structural)]
pub enum Dispatch {
    /// It is for the handler of a client.
    Forward,
    /// A client has connected: it needs a handler, and everybody is to be sent the packet.
    Register,
}

/// What stays the same about all players.
pub open spec fn colors(players: Map<PlayerId, Player>) -> Map<PlayerId, PlayerClient> {
    players.map_values(|player: Player| PlayerClient { color: player.color })
}

/// The client after something has been sent to it with a header.
pub open spec fn sent_header(client: Client) -> Client {
    Client {
        connection: Connection {
            local_sequence: (client.connection.local_sequence + 1) as u32,
            ..client.connection
        },
        ..client
    }
}

impl Relay {
    /// All clients play players of the game.
    pub open spec fn wf(self) -> bool {
        &&& self.game.wf()
        &&& forall|address: Address| #[trigger]
            self.clients@.contains_key(address) ==> self.game.players@.contains_key(
                self.clients@[address].player,
            )
    }

    /// Starts with nobody connected.
    pub fn new(now: Instant) -> (relay: Relay)
        ensures
            relay.wf(),
            relay.clients@ == Map::<Address, Client>::empty(),
            relay.game.players@ == Map::<PlayerId, Player>::empty(),
            relay.game.next_id == 0,
            relay.start == now,
    {
        Relay { game: GameServer::default(), clients: HashMap::new(), start: now }
    }

    /// Decides what to do with a packet by the address that it came from.
    ///
    /// An unknown one is registered with a new player, whose color `color` gives for a hue.
    pub fn dispatch<L: Fn(u32) -> Color>(&mut self, address: Address, color: &L) -> (dispatch:
        Dispatch)
        requires
            old(self).wf(),
            !old(self).clients@.contains_key(address) ==> old(self).game.next_id < PlayerId::MAX,
            forall|hue: u32| call_requires(*color, (hue,)),
        ensures
            final(self).wf(),
            final(self).start == old(self).start,
            if old(self).clients@.contains_key(address) {
                &&& dispatch == Dispatch::Forward
                &&& final(self).clients@ == old(self).clients@
                &&& final(self).game == old(self).game
            } else {
                let id = old(self).game.next_id;
                &&& dispatch == Dispatch::Register
                &&& final(self).game.next_id == id + 1
                &&& exists|player: Player| #[trigger]
                    at_rest(player, *color) && final(self).game.players@
                        == old(self).game.players@.insert(id, player)
                &&& final(self).clients@.dom() == old(self).clients@.dom().insert(address)
                &&& final(self).clients@.remove(address) == old(self).clients@.remove(address)
                &&& final(self).clients@[address].player == id
                &&& final(self).clients@[address].input is None
                &&& final(self).clients@[address].connection.local_sequence == 0
                &&& final(self).clients@[address].connection.acks.newest() == 0
                &&& final(self).clients@[address].connection.acks.field() == 0
                &&& final(self).clients@[address].connection.remote_acks.newest() == 0
                &&& final(self).clients@[address].connection.remote_acks.field() == 0
            },
    {
        if self.clients.contains_key(&address) {
            return Dispatch::Forward;
        }
        // New client has connected.
        let player: PlayerId = self.game.add_player(color);
        self.clients.insert(
            address,
            Client { player, connection: Connection::default(), input: None },
        );
        proof {
            assert(self.clients@.remove(address) =~= old(self).clients@.remove(address));
            assert(self.clients@.dom() =~= old(self).clients@.dom().insert(address));
        }
        Dispatch::Register
    }

    /// Tells a client that has just been registered all about the game, as its handler starts.
    ///
    /// The handler adds a player of its own, and it is that one which the client is told of. Its
    /// inputs still go to the player that it was registered with.
    pub fn handshake<L: Fn(u32) -> Color>(&mut self, address: Address, now: Instant, color: &L) -> (
    handshake: ServerHandshake)
        requires
            old(self).wf(),
            old(self).clients@.contains_key(address),
            old(self).game.next_id < PlayerId::MAX,
            forall|hue: u32| call_requires(*color, (hue,)),
        ensures
            final(self).wf(),
            final(self).start == old(self).start,
            final(self).clients@ == old(self).clients@,
            final(self).game.next_id == old(self).game.next_id + 1,
            exists|player: Player| #[trigger]
                at_rest(player, *color) && final(self).game.players@
                    == old(self).game.players@.insert(old(self).game.next_id, player),
            handshake.id == old(self).game.next_id,
            handshake.elapsed == old(self).start.until(now),
            handshake.players@ == colors(final(self).game.players@),
            handshake.snapshot.players@ == all_changing(final(self).game.players@),
    {
        let id: PlayerId = self.game.add_player(color);
        let color_of = |player: &Player| -> (client: PlayerClient)
            ensures
                client.color == player.color,
            { player.as_client() };
        let players = mapped(&self.game.players, &color_of);
        assert(players@ =~= colors(self.game.players@));
        ServerHandshake {
            id,
            elapsed: now.duration_since(self.start),
            players,
            snapshot: self.game.snapshot(),
        }
    }

    /// Handles a packet of a client.
    ///
    /// `contents` is what follows the header of the packet, or `None` if that could not be
    /// deserialized. The latest input is kept until it is applied.
    pub fn handle(&mut self, address: Address, packet: &[u8], contents: Option<Input>) -> (result:
        Result<(), RecvError>)
        requires
            old(self).wf(),
            old(self).clients@.contains_key(address),
        ensures
            final(self).wf(),
            final(self).game == old(self).game,
            final(self).start == old(self).start,
            result == (if packet@.len() < HEADER_BYTES {
                Err(RecvError::HeaderRead)
            } else if contents is None {
                Err(RecvError::Deserialize)
            } else {
                Ok::<(), RecvError>(())
            }),
            packet@.len() < HEADER_BYTES ==> final(self).clients@ == old(self).clients@,
            packet@.len() >= HEADER_BYTES ==> handled(
                *old(self),
                *final(self),
                address,
                packet@,
                contents,
            ),
    {
        let mut client: Client = *self.clients.get(&address).unwrap();
        let ghost before = client;
        let result: Result<(), RecvError> = match client.connection.note_header(packet) {
            Ok(_) => match contents {
                Some(input) => {
                    client.input = Some(input);
                    Ok(())
                },
                None => Err(RecvError::Deserialize),
            },
            Err(err) => Err(err),
        };
        self.clients.insert(address, client);
        proof {
            if packet@.len() < HEADER_BYTES {
                assert(client == before);
                assert(self.clients@ =~= old(self).clients@);
            } else {
                let (sequence, acks) = choose|sequence: u32, acks: Acks|
                    header_noted(before.connection, client.connection, packet@, sequence, acks);
                assert(header_noted(
                    old(self).clients@[address].connection,
                    client.connection,
                    packet@,
                    sequence,
                    acks,
                ));
            }
        }
        result
    }

    /// Applies the inputs of all clients to their players, and clears them.
    pub fn apply_inputs(&mut self)
        requires
            old(self).wf(),
        ensures
            final(self).wf(),
            final(self).start == old(self).start,
            final(self).game.next_id == old(self).game.next_id,
            final(self).clients@.dom() == old(self).clients@.dom(),
            forall|address: Address| #[trigger]
                old(self).clients@.contains_key(address) ==> final(self).clients@[address] == (
                Client { input: None, ..old(self).clients@[address] }),
            exists|order: Seq<Address>| #[trigger]
                applied_in_order(
                    old(self).game.players@,
                    final(self).game.players@,
                    old(self).clients@,
                    order,
                ) && order.no_duplicates() && forall|address: Address| #[trigger]
                order.contains(address) <==> old(self).clients@.contains_key(address),
    {
        let addresses: Vec<Address> = keys(&self.clients);
        let ghost before = self.clients@;
        let ghost start = self.game.players@;
        let mut at: usize = 0;
        assert(addresses@.take(0) =~= Seq::<Address>::empty());
        while at < addresses.len()
            invariant
                at <= addresses@.len(),
                before == old(self).clients@,
                start == old(self).game.players@,
                old(self).wf(),
                self.wf(),
                self.start == old(self).start,
                self.game.next_id == old(self).game.next_id,
                self.game.players@.dom() == start.dom(),
                addresses@.no_duplicates(),
                forall|address: Address| #[trigger]
                    addresses@.contains(address) <==> before.contains_key(address),
                self.clients@.dom() == before.dom(),
                forall|i: int|
                    0 <= i < at ==> self.clients@[#[trigger] addresses@[i]] == (Client {
                        input: None,
                        ..before[addresses@[i]]
                    }),
                forall|i: int|
                    at <= i < addresses@.len() ==> self.clients@[#[trigger] addresses@[i]]
                        == before[addresses@[i]],
                applied_in_order(start, self.game.players@, before, addresses@.take(at as int)),
            decreases addresses@.len() - at,
        {
            let address: Address = addresses[at];
            assert(addresses@.contains(address));
            assert(self.clients@.contains_key(address));
            let client: Client = *self.clients.get(&address).unwrap();
            let ghost middle = self.game.players@;
            assert(middle.contains_key(client.player));
            let mut player: Player = *self.game.players.get(&client.player).unwrap();
            if let Some(input) = client.input {
                player.position = input.position;
            }
            self.game.players.insert(client.player, player);
            let ghost clients = self.clients@;
            self.clients.insert(address, Client { input: None, ..client });
            proof {
                assert(self.clients@.dom() =~= before.dom());
                assert(self.game.players@.dom() =~= start.dom());
                assert(addresses@.take(at + 1).drop_last() =~= addresses@.take(at as int));
                assert(addresses@.take(at + 1).last() == address);
                assert(self.game.players@ =~= applied(middle, before[address]));
                assert forall|i: int| at < i < addresses@.len() implies self.clients@[
                    #[trigger] addresses@[i]] == before[addresses@[i]] by {
                    assert(addresses@[i] != addresses@[at as int]);
                }
                assert forall|i: int| 0 <= i < at implies self.clients@[
                    #[trigger] addresses@[i]] == (Client { input: None, ..before[addresses@[i]] }) by {
                    assert(addresses@[i] != addresses@[at as int]);
                }
                assert forall|other: Address| #[trigger] self.clients@.contains_key(
                    other,
                ) implies self.game.players@.contains_key(self.clients@[other].player) by {
                    assert(clients.contains_key(other));
                }
            }
            at = at + 1;
        }
        proof {
            assert(addresses@.take(addresses@.len() as int) =~= addresses@);
            assert forall|address: Address| #[trigger] before.contains_key(
                address,
            ) implies self.clients@[address] == (Client { input: None, ..before[address] }) by {
                assert(addresses@.contains(address));
                let i = choose|i: int| 0 <= i < addresses@.len() && addresses@[i] == address;
                assert(addresses@[i] == address);
            }
            assert(applied_in_order(start, self.game.players@, before, addresses@));
        }
    }

    /// Puts a header for each client in front of something that is for everybody.
    ///
    /// Returns the clients' addresses and their headers.
    pub fn broadcast(&mut self) -> (headers: Vec<(Address, Vec<u8>)>)
        requires
            old(self).wf(),
            forall|address: Address| #[trigger]
                old(self).clients@.contains_key(address) ==> old(
                    self,
                ).clients@[address].connection.local_sequence < u32::MAX,
        ensures
            final(self).wf(),
            final(self).game == old(self).game,
            final(self).start == old(self).start,
            final(self).clients@ == old(self).clients@.map_values(
                |client: Client| sent_header(client),
            ),
            lists_keys(
                headers@.map_values(|entry: (Address, Vec<u8>)| entry.0),
                old(self).clients@,
            ),
            forall|i: int|
                0 <= i < headers@.len() ==> {
                    let connection = old(self).clients@[(#[trigger] headers@[i]).0].connection;
                    headers@[i].1@ == header_bytes(connection.local_sequence, connection.acks)
                },
    {
        let addresses: Vec<Address> = keys(&self.clients);
        let ghost before = self.clients@;
        let mut headers: Vec<(Address, Vec<u8>)> = Vec::new();
        let mut at: usize = 0;
        while at < addresses.len()
            invariant
                at <= addresses@.len(),
                before == old(self).clients@,
                self.game == old(self).game,
                self.start == old(self).start,
                forall|address: Address| #[trigger]
                    before.contains_key(address) ==> before[address].connection.local_sequence
                        < u32::MAX,
                lists_keys(addresses@, before),
                self.clients@.dom() == before.dom(),
                forall|i: int|
                    0 <= i < at ==> self.clients@[#[trigger] addresses@[i]] == sent_header(
                        before[addresses@[i]],
                    ),
                forall|i: int|
                    at <= i < addresses@.len() ==> self.clients@[#[trigger] addresses@[i]]
                        == before[addresses@[i]],
                headers@.len() == at,
                forall|i: int|
                    0 <= i < at ==> (#[trigger] headers@[i]).0 == addresses@[i] && headers@[i].1@
                        == header_bytes(
                        before[addresses@[i]].connection.local_sequence,
                        before[addresses@[i]].connection.acks,
                    ),
            decreases addresses@.len() - at,
        {
            let address: Address = addresses[at];
            assert(addresses@.contains(address));
            assert(self.clients@.contains_key(address));
            let mut client: Client = *self.clients.get(&address).unwrap();
            assert(client == before[address]);
            let mut header: Vec<u8> = Vec::new();
            client.connection.send_header(&mut header);
            assert(header@ =~= header_bytes(
                before[address].connection.local_sequence,
                before[address].connection.acks,
            ));
            self.clients.insert(address, client);
            headers.push((address, header));
            proof {
                assert(self.clients@.dom() =~= before.dom());
                assert forall|i: int| at < i < addresses@.len() implies self.clients@[
                    #[trigger] addresses@[i]] == before[addresses@[i]] by {
                    assert(addresses@[i] != addresses@[at as int]);
                }
                assert forall|i: int| 0 <= i < at implies self.clients@[
                    #[trigger] addresses@[i]] == sent_header(before[addresses@[i]]) by {
                    assert(addresses@[i] != addresses@[at as int]);
                }
            }
            at = at + 1;
        }
        proof {
            assert(headers@.map_values(|entry: (Address, Vec<u8>)| entry.0) =~= addresses@);
            assert forall|address: Address| #[trigger] before.contains_key(
                address,
            ) implies self.clients@[address] == sent_header(before[address]) by {
                assert(addresses@.contains(address));
                let i = choose|i: int| 0 <= i < addresses@.len() && addresses@[i] == address;
                assert(addresses@[i] == address);
            }
            assert(self.clients@ =~= before.map_values(|client: Client| sent_header(client)));
        }
        headers
    }
}

/// A packet of a client has been handled.
pub open spec fn handled(
    before: Relay,
    after: Relay,
    address: Address,
    packet: Seq<u8>,
    contents: Option<Input>,
) -> bool {
    exists|connection: Connection, sequence: u32, acks: Acks| #[trigger]
        header_noted(
            before.clients@[address].connection,
            connection,
            packet,
            sequence,
            acks,
        ) && after.clients@ == before.clients@.insert(
            address,
            Client {
                connection,
                input: match contents {
                    Some(input) => Some(input),
                    None => before.clients@[address].input,
                },
                ..before.clients@[address]
            },
        )
}

/// The players after the input of a client has been applied.
pub open spec fn applied(players: Map<PlayerId, Player>, client: Client) -> Map<PlayerId, Player> {
    match client.input {
        Some(input) => players.insert(
            client.player,
            Player { position: input.position, ..players[client.player] },
        ),
        None => players,
    }
}

/// The inputs of some clients have been applied, in order.
pub open spec fn applied_in_order(
    before: Map<PlayerId, Player>,
    after: Map<PlayerId, Player>,
    clients: Map<Address, Client>,
    order: Seq<Address>,
) -> bool
    decreases order.len(),
{
    if order.len() == 0 {
        after == before
    } else {
        exists|middle: Map<PlayerId, Player>|
            applied_in_order(before, middle, clients, order.drop_last()) && after
                == #[trigger] applied(middle, clients[order.last()])
    }
}

/// The header of a packet has been taken into account.
pub open spec fn heard(before: Connection, after: Connection, packet: Seq<u8>) -> bool {
    exists|sequence: u32, acks: Acks| header_noted(before, after, packet, sequence, acks)
}

/// A client of such a server, after it has joined.
pub struct Member {
    pub connection: Connection,
    pub game: GameClient,
    /// When the game was started.
    pub start: Instant,
}

impl Member {
    /// Joins a game with what the server has sent, at `now`.
    pub fn join(handshake: ServerHandshake, now: Instant) -> (member: Member)
        requires
            handshake.elapsed.nanos <= now.nanos,
        ensures
            member.start.nanos + handshake.elapsed.nanos == now.nanos,
            member.start.until(now) == handshake.elapsed,
            member.game.client_player == handshake.id,
            member.game.players@ == handshake.players@,
            member.game.snapshots.latest().snapshot.players@ == handshake.snapshot.players@,
            member.game.snapshots.older().snapshot.players@ == handshake.snapshot.players@,
            member.game.snapshots.latest().time == now,
            member.game.snapshots.older().time == now,
            member.connection.local_sequence == 0,
            member.connection.acks.newest() == 0,
            member.connection.acks.field() == 0,
            member.connection.remote_acks.newest() == 0,
            member.connection.remote_acks.field() == 0,
    {
        Member {
            connection: Connection::default(),
            game: GameClient::new(handshake.players, handshake.snapshot, handshake.id, now),
            start: Instant { nanos: now.nanos - handshake.elapsed.nanos },
        }
    }

    /// Reads a packet of the server: what follows its header is passed on to the game.
    pub fn read<P>(&mut self, packet: &[u8], contents: Option<P>) -> (result: Result<P, RecvError>)
        ensures
            final(self).game == old(self).game,
            final(self).start == old(self).start,
            result == (if packet@.len() < HEADER_BYTES {
                Err(RecvError::HeaderRead)
            } else {
                match contents {
                    Some(value) => Ok(value),
                    None => Err(RecvError::Deserialize),
                }
            }),
            packet@.len() < HEADER_BYTES ==> final(self).connection == old(self).connection,
            packet@.len() >= HEADER_BYTES ==> heard(
                old(self).connection,
                final(self).connection,
                packet@,
            ),
    {
        match self.connection.note_header(packet) {
            Ok((sequence, acks)) => {
                assert(header_noted(
                    old(self).connection,
                    self.connection,
                    packet@,
                    sequence,
                    acks,
                ));
                match contents {
                    Some(value) => Ok(value),
                    None => Err(RecvError::Deserialize),
                }
            },
            Err(err) => Err(err),
        }
    }

    /// Returns the header of the next packet, and the input that goes with it.
    pub fn write(&mut self) -> (packet: (Vec<u8>, Input))
        requires
            old(self).connection.local_sequence < u32::MAX,
        ensures
            packet.0@ == header_bytes(old(self).connection.local_sequence, old(self).connection.acks),
            packet.1 == old(self).game.input,
            final(self).connection == (Connection {
                local_sequence: (old(self).connection.local_sequence + 1) as u32,
                ..old(self).connection
            }),
            final(self).game == old(self).game,
            final(self).start == old(self).start,
    {
        let mut header: Vec<u8> = Vec::new();
        self.connection.send_header(&mut header);
        assert(header@ =~= header_bytes(
            old(self).connection.local_sequence,
            old(self).connection.acks,
        ));
        (header, self.game.input)
    }
}

/// When a client joins a game right away, both sides agree on when the game was started.
pub proof fn law_same_start(relay: Relay, handshake: ServerHandshake, member: Member, now: Instant)
    requires
        relay.start.nanos <= now.nanos,
        handshake.elapsed == relay.start.until(now),
        member.start.nanos <= now.nanos,
        member.start.until(now) == handshake.elapsed,
    ensures
        member.start == relay.start,
{
}

} // verus!
