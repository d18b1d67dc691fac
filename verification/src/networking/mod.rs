//! The protocol between clients and the server.

use vstd::prelude::*;

use crate::number::Real;
use crate::time::{Duration, Instant};

pub mod bits;
pub mod client;
pub mod client_laws;
pub mod connection;
pub mod laws;
pub mod packet;
pub mod relay;
pub mod server;
pub mod server_laws;
pub mod tick;

verus! {

/// MTU will probably never be bigger than this, so if a received
/// packet is bigger, there are probably other problems.
pub const MAX_PACKET_SIZE: usize = 4096;

/// Rate at which both the client and the server send out pings: every 500 ms.
pub const PING_RATE: u128 = 500_000_000;

/// Rate at which the server sends snapshots: every 30 ms.
pub const SNAPSHOT_RATE: u128 = 30_000_000;

/// Time to wait before marking a connection as timed out: 5 s.
pub const CONNECTION_TIMEOUT: u128 = 5_000_000_000;

/// System to estimate rtt for a connection by periodically sending
/// pings and recording the time until a response is received.
#[derive(Copy, Clone, Debug)]
pub struct RttEstimator {
    /// Sequence id and timestamp of the last sent ping.
    ///
    /// This gets set back to `None` once a pong is received.
    last_ping: Option<(u32, Instant)>,
    rtt: Option<Real>,
}

/// What an estimate may be after one more sample.
pub open spec fn estimated<S: Fn(Duration) -> Real, B: Fn(Real, Real) -> Real>(
    before: Option<Real>,
    after: Option<Real>,
    span: Duration,
    seconds: S,
    blend: B,
) -> bool {
    exists|sample: Real| #[trigger]
        call_ensures(seconds, (span,), sample) && match before {
            Some(rtt) => after is Some && call_ensures(blend, (rtt, sample), after->0),
            None => after == Some(sample),
        }
}

/// What a pong with the given sequence number makes of an estimator.
pub open spec fn ponged<S: Fn(Duration) -> Real, B: Fn(Real, Real) -> Real>(
    before: RttEstimator,
    after: RttEstimator,
    sequence: u32,
    now: Instant,
    seconds: S,
    blend: B,
) -> bool {
    match before.pinged() {
        Some((expected, time)) if sequence == expected => {
            &&& after.pinged() is None
            &&& estimated(before.estimate(), after.estimate(), time.until(now), seconds, blend)
        },
        _ => after == before,
    }
}

impl Default for RttEstimator {
    /// Nothing has been sent and nothing is known.
    fn default() -> (estimator: RttEstimator)
        ensures
            estimator.pinged() is None,
            estimator.estimate() is None,
    {
        RttEstimator { last_ping: None, rtt: None }
    }
}

impl RttEstimator {
    /// The last ping that has not been answered, and when it was sent.
    pub closed spec fn pinged(self) -> Option<(u32, Instant)> {
        self.last_ping
    }

    /// The estimated RTT in seconds.
    pub closed spec fn estimate(self) -> Option<Real> {
        self.rtt
    }

    /// Gets the estimated RTT, or `None` if there have been no
    /// samples yet.
    pub fn rtt(&self) -> (rtt: Option<Real>)
        ensures
            rtt == self.estimate(),
    {
        self.rtt
    }

    /// Record a sent ping.
    pub fn ping(&mut self, sequence: u32, now: Instant)
        ensures
            final(self).pinged() == Some((sequence, now)),
            final(self).estimate() == old(self).estimate(),
    {
        self.last_ping = Some((sequence, now));
    }

    /// Record a pong response.
    ///
    /// `seconds` counts the seconds of a span of time, and `blend` mixes a new sample into an
    /// estimate.
    pub fn pong<S: Fn(Duration) -> Real, B: Fn(Real, Real) -> Real>(
        &mut self,
        sequence: u32,
        now: Instant,
        seconds: &S,
        blend: &B,
    )
        requires
            forall|span: Duration| call_requires(*seconds, (span,)),
            forall|rtt: Real, sample: Real| call_requires(*blend, (rtt, sample)),
        ensures
            ponged(*old(self), *final(self), sequence, now, *seconds, *blend),
    {
        if let Some((expected, time)) = self.last_ping {
            if sequence == expected {
                let sample: Real = seconds(now.duration_since(time));
                self.rtt = Some(
                    match self.rtt {
                        Some(rtt) => blend(rtt, sample),
                        None => sample,
                    },
                );
                self.last_ping = None;
            }
        }
    }
}

/// Only the first answer to the most recent ping counts: any pong right after that changes
/// nothing.
pub proof fn law_one_sample_per_ping<S: Fn(Duration) -> Real, B: Fn(Real, Real) -> Real>(
    before: RttEstimator,
    middle: RttEstimator,
    after: RttEstimator,
    sequence: u32,
    other: u32,
    now: Instant,
    later: Instant,
    seconds: S,
    blend: B,
)
    requires
        before.pinged() matches Some(ping) && ping.0 == sequence,
        ponged(before, middle, sequence, now, seconds, blend),
        ponged(middle, after, other, later, seconds, blend),
    ensures
        after == middle,
        after.estimate() is Some,
{
}

/// Non-fatal errors that occur on receiving a packet.
///
/// These should be logged, but generally do not end the connection.
#[derive(Copy, Clone, Debug, PartialEq, Eq, Structural)]
pub enum RecvError {
    /// Received packet that was too large (its size in bytes).
    PacketTooLarge(usize),
    /// Reading packet header failed.
    HeaderRead,
    /// Deserializing packet payload failed.
    Deserialize,
}

/// (Mostly) fatal errors that should kill either the networking event
/// loop, or the particular connection in question.
#[derive(Copy, Clone, Debug, PartialEq, Eq, Structural)]
pub enum Error {
    /// Connection timed out.
    TimedOut,
    /// Waiting for events failed.
    Poll,
    /// Binding a socket to an address failed.
    BindSocket,
    /// Connecting a socket to an address failed.
    ConnectSocket,
    /// Socket write failed.
    SocketWrite,
    /// Socket read failed.
    SocketRead,
}

} // verus!
