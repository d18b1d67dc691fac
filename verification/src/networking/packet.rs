//! What clients and the server say to each other.

use std::collections::HashMap;
use std::sync::Arc;
use vstd::prelude::*;

use crate::game::{
    Event, GameSettings, Input, PlayerId, RoundState, Snapshot, StaticPlayerState,
};
use crate::number::{Point, Real};

verus! {

/// What a client sends to the server.
#[derive(Copy, Clone, Debug)]
pub enum ClientPacket {
    Handshake {
        /// Cursor position when connecting.
        cursor: Point,
    },
    Input(Input),
    Settings(GameSettings),
    Disconnect,
    Ping,
    Pong(u32),
}

/// What the server sends to a client.
pub enum ServerPacket {
    Event(Event),
    Ping,
    Pong(u32),
    Handshake {
        id: PlayerId,
        settings: GameSettings,
        players: HashMap<PlayerId, StaticPlayerState>,
        round: RoundState,
        round_duration: Real,
        snapshot: Snapshot,
    },
}

impl ServerPacket {
    /// Whether the packet has to arrive.
    ///
    /// There will soon be another snapshot, ping or pong if one gets lost.
    pub open spec fn is_reliable(self) -> bool {
        match self {
            ServerPacket::Event(Event::Snapshot(_)) => false,
            ServerPacket::Event(_) => true,
            ServerPacket::Handshake { .. } => true,
            ServerPacket::Ping => false,
            ServerPacket::Pong(_) => false,
        }
    }

    /// Whether the packet is worth sending again when it got lost, with the game in the given
    /// state: what has changed since is not.
    pub open spec fn is_current(self, round: RoundState, settings: GameSettings) -> bool {
        match self {
            ServerPacket::Event(Event::RoundState(sent)) => sent == round,
            ServerPacket::Event(Event::Settings(sent)) => settings.equals(sent),
            _ => self.is_reliable(),
        }
    }

    /// Whether the packet has to arrive.
    pub fn reliable(&self) -> (reliable: bool)
        ensures
            reliable == self.is_reliable(),
    {
        match self {
            ServerPacket::Event(event) => match event {
                Event::NewPlayer { .. } => true,
                Event::RemovePlayer(_) => true,
                Event::RoundState(_) => true,
                Event::Settings(_) => true,
                Event::Snapshot(_) => false,
            },
            ServerPacket::Handshake { .. } => true,
            ServerPacket::Ping => false,
            ServerPacket::Pong(_) => false,
        }
    }

    /// Whether the packet is worth sending again when it got lost.
    pub fn resend(&self, round: RoundState, settings: &GameSettings) -> (current: bool)
        ensures
            current == self.is_current(round, *settings),
    {
        match self {
            // Only resend if the round state hasn't
            // changed again since it was sent.
            ServerPacket::Event(Event::RoundState(sent)) => *sent == round,
            // Only resend if the settings haven't
            // changed again since they were sent.
            ServerPacket::Event(Event::Settings(sent)) => *settings == *sent,
            // Everything else is simple.
            _ => self.reliable(),
        }
    }
}

/// Gives out one more owner of a shared packet, with `Arc::clone`, which leaves the packet
/// where it is.
#[verifier::external_body]
pub(crate) fn share(packet: &Arc<ServerPacket>) -> (copy: Arc<ServerPacket>)
    ensures
        *copy == **packet,
{
    Arc::clone(packet)
}

/// A packet with its header, ready to be serialized and sent.
pub struct Frame {
    pub header: Vec<u8>,
    pub packet: Arc<ServerPacket>,
}

/// What a frame holds.
pub struct FrameView {
    pub header: Seq<u8>,
    pub packet: ServerPacket,
}

impl View for Frame {
    type V = FrameView;

    open spec fn view(&self) -> FrameView {
        FrameView { header: self.header@, packet: *self.packet }
    }
}

/// Only packets that have to arrive are ever sent again.
pub proof fn law_only_reliable_resent(
    packet: ServerPacket,
    round: RoundState,
    settings: GameSettings,
)
    requires
        packet.is_current(round, settings),
    ensures
        packet.is_reliable(),
{
}

} // verus!
