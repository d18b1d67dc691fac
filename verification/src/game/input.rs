//! Inputs that are buffered until the server has acknowledged them.

use std::collections::VecDeque;
use vstd::prelude::*;

use crate::game::Input;
use crate::networking::connection::Acks;
use crate::time::{Duration, Instant};

verus! {

/// At 60hz input, this is 1/2 second worth of inputs.
pub const MAX_INPUT_BUFFER: usize = 32;

/// Stores queued inputs in a ring buffer.
///
/// After receiving ACK for the sent input packets, stops keeping
/// track of those inputs.
#[derive(Debug)]
pub struct InputBuffer {
    /// Most recent input stored.
    latest: (Input, Instant),
    /// Total inputs that have been stored over the entire lifetime of
    /// the buffer. This is used to offset the input indices from
    /// `sent_packets`.
    input_count: usize,
    /// Keeps track of the input packets that have been sent but not
    /// acknowledged yet. Stores the sequence number for each packet,
    /// along with the absolute input index for the last input sent in
    /// that packet. In order to find the offset in the `inputs`
    /// array, `inputs_count` has to be taken into account.
    sent_packets: Vec<(u32, usize)>,
    /// Stores all buffered inputs that have not yet been acknowledged
    /// by the server, along with the delay between them.
    inputs: VecDeque<(Input, Duration)>,
    /// Absolute index of the most recently sent packet.
    last_packet: usize,
    /// When a packet was last acknowledged.
    last_ack: Option<Instant>,
}

/// What an input buffer holds.
pub struct InputBufferView {
    pub latest: (Input, Instant),
    pub count: int,
    pub sent: Seq<(u32, usize)>,
    pub inputs: Seq<(Input, Duration)>,
    pub last_packet: int,
    pub last_ack: Option<Instant>,
}

impl View for InputBuffer {
    type V = InputBufferView;

    closed spec fn view(&self) -> InputBufferView {
        InputBufferView {
            latest: self.latest,
            count: self.input_count as int,
            sent: self.sent_packets@,
            inputs: self.inputs@,
            last_packet: self.last_packet as int,
            last_ack: self.last_ack,
        }
    }
}

/// How many of the latest `number` inputs the buffer can hold.
pub open spec fn buffered(number: int) -> int {
    if number < MAX_INPUT_BUFFER {
        number
    } else {
        MAX_INPUT_BUFFER as int
    }
}

/// The greatest sequence number in a list of packets that has been acknowledged, or -1.
pub open spec fn newest_acked(sent: Seq<(u32, usize)>, acks: Acks) -> int
    decreases sent.len(),
{
    if sent.len() == 0 {
        -1
    } else {
        let earlier = newest_acked(sent.drop_last(), acks);
        if acks.has(sent.last().0 as int) && sent.last().0 > earlier {
            sent.last().0 as int
        } else {
            earlier
        }
    }
}

/// The index of the last input that was sent with any of the packets up to a sequence number.
pub open spec fn sent_up_to(sent: Seq<(u32, usize)>, sequence: int) -> int
    decreases sent.len(),
{
    if sent.len() == 0 {
        0
    } else {
        let earlier = sent_up_to(sent.drop_last(), sequence);
        if sent.last().0 <= sequence && sent.last().1 > earlier {
            sent.last().1 as int
        } else {
            earlier
        }
    }
}

/// The packets after a sequence number.
pub open spec fn sent_after(sent: Seq<(u32, usize)>, sequence: int) -> Seq<(u32, usize)> {
    sent.filter(|packet: (u32, usize)| packet.0 > sequence)
}

impl InputBufferView {
    /// No more than the latest inputs are buffered, and enough of them for the next packet.
    pub open spec fn wf(self) -> bool {
        &&& 0 <= self.last_packet <= self.count
        &&& buffered(self.count - self.last_packet) <= self.inputs.len() <= buffered(self.count)
        &&& forall|i: int|
            0 <= i < self.sent.len() ==> (#[trigger] self.sent[i]).1 <= self.last_packet
    }

    /// Packets have been sent with growing sequence numbers, and enough inputs are buffered for
    /// all of them that have not been acknowledged.
    pub open spec fn in_order(self) -> bool {
        &&& forall|i: int|
            0 <= i < self.sent.len() ==> buffered(self.count - (#[trigger] self.sent[i]).1)
                <= self.inputs.len()
        &&& forall|i: int, j: int|
            0 <= i < j < self.sent.len() ==> (#[trigger] self.sent[i]).0 < (
            #[trigger] self.sent[j]).0 && self.sent[i].1 <= self.sent[j].1
    }

    /// The count of inputs to be kept when a set of packets is acknowledged.
    pub open spec fn left(self, acks: Acks) -> int {
        buffered(self.count - sent_up_to(self.sent, newest_acked(self.sent, acks)))
    }

    /// What is left after a set of packets has been acknowledged at `now`.
    pub open spec fn acknowledged(self, acks: Acks, now: Instant) -> InputBufferView {
        if newest_acked(self.sent, acks) >= 0 {
            InputBufferView {
                sent: sent_after(self.sent, newest_acked(self.sent, acks)),
                inputs: self.inputs.skip(self.inputs.len() - self.left(acks)),
                last_ack: Some(now),
                ..self
            }
        } else {
            self
        }
    }

    /// The delay since the last stored input or the last acknowledged packet, whichever is
    /// shorter.
    pub open spec fn delay_at(self, now: Instant) -> Duration {
        let stored = self.latest.1.until(now);
        match self.last_ack {
            Some(ack) if ack.until(now).nanos < stored.nanos => ack.until(now),
            _ => stored,
        }
    }

    /// The count of inputs since the last packet.
    pub open spec fn pending(self) -> int {
        self.count - self.last_packet
    }
}

impl InputBuffer {
    /// Creates a new input buffer with a given initial input.
    pub fn new(input: Input, now: Instant) -> (buffer: InputBuffer)
        ensures
            buffer@.wf(),
            buffer@ == (InputBufferView {
                latest: (input, now),
                count: 0,
                sent: Seq::empty(),
                inputs: Seq::empty(),
                last_packet: 0,
                last_ack: None,
            }),
    {
        InputBuffer {
            latest: (input, now),
            input_count: 0,
            sent_packets: Vec::new(),
            inputs: VecDeque::new(),
            last_packet: 0,
            last_ack: None,
        }
    }

    /// Returns the delay since the last stored input or the last
    /// acknowledged packet, whichever is shorter.
    pub fn delay(&self, now: Instant) -> (delay: Duration)
        ensures
            delay == self@.delay_at(now),
    {
        let stored: Duration = now.duration_since(self.latest.1);
        match self.last_ack {
            Some(ack) => {
                let acked: Duration = now.duration_since(ack);
                if acked.nanos < stored.nanos {
                    acked
                } else {
                    stored
                }
            },
            None => stored,
        }
    }

    /// Returns all unacknowledged inputs, in order, along with the
    /// delay between each one.
    pub fn inputs(&self) -> (inputs: Vec<(Input, Duration)>)
        ensures
            inputs@ == self@.inputs,
    {
        let mut inputs: Vec<(Input, Duration)> = Vec::new();
        let mut at: usize = 0;
        while at < self.inputs.len()
            invariant
                at <= self.inputs@.len(),
                inputs@ =~= self.inputs@.take(at as int),
            decreases self.inputs@.len() - at,
        {
            inputs.push(self.inputs[at]);
            at = at + 1;
        }
        assert(inputs@ =~= self.inputs@);
        inputs
    }

    /// Returns the most recently stored input.
    pub fn latest(&self) -> (input: &Input)
        ensures
            *input == self@.latest.0,
    {
        &self.latest.0
    }

    /// Inserts a new input into the buffer.
    ///
    /// The oldest one is dropped if the buffer is full.
    pub fn store_input(&mut self, input: Input, now: Instant)
        requires
            old(self)@.wf(),
            old(self)@.count < usize::MAX,
        ensures
            final(self)@.wf(),
            old(self)@.in_order() ==> final(self)@.in_order(),
            final(self)@.latest == (input, now),
            final(self)@.count == old(self)@.count + 1,
            final(self)@.sent == old(self)@.sent,
            final(self)@.last_packet == old(self)@.last_packet,
            final(self)@.last_ack == old(self)@.last_ack,
            final(self)@.inputs == (if old(self)@.inputs.len() == MAX_INPUT_BUFFER {
                old(self)@.inputs.drop_first()
            } else {
                old(self)@.inputs
            }).push((input, old(self)@.latest.1.until(now))),
    {
        self.input_count = self.input_count + 1;
        if self.inputs.len() == MAX_INPUT_BUFFER {
            let oldest = self.inputs.pop_front();
            assert(self.inputs@ =~= old(self).inputs@.drop_first());
        }
        let delay: Duration = now.duration_since(self.latest.1);
        self.inputs.push_back((input, delay));
        self.latest = (input, now);
        assert(self@.sent =~= old(self)@.sent);
    }

    /// Returns all inputs that occured since the last packet.
    ///
    /// This also stores a new sent packet, using the provided
    /// sequence number, unless there have been no inputs at all.
    pub fn packet_send(&mut self, sequence: u32) -> (inputs: Vec<Input>)
        requires
            old(self)@.wf(),
            old(self)@.pending() <= MAX_INPUT_BUFFER,
        ensures
            final(self)@.wf(),
            old(self)@.in_order() && (old(self)@.sent.len() > 0 ==> old(self)@.sent.last().0
                < sequence) ==> final(self)@.in_order(),
            final(self)@ == (if old(self)@.count != 0 {
                InputBufferView {
                    sent: old(self)@.sent.push((sequence, old(self)@.count as usize)),
                    last_packet: old(self)@.count,
                    ..old(self)@
                }
            } else {
                old(self)@
            }),
            inputs@ == old(self)@.inputs.skip(
                old(self)@.inputs.len() - old(self)@.pending(),
            ).map_values(|entry: (Input, Duration)| entry.0),
    {
        let mut result: Vec<Input> = Vec::new();
        if self.input_count != 0 {
            // Determine the range of new inputs.
            let num_inputs: usize = self.input_count - self.last_packet;
            let start: usize = self.inputs.len() - num_inputs;
            // Store the new packet as sent.
            self.sent_packets.push((sequence, self.input_count));
            self.last_packet = self.input_count;
            let mut at: usize = start;
            while at < self.inputs.len()
                invariant
                    start <= at <= self.inputs@.len(),
                    result@.len() == at - start,
                    forall|i: int|
                        0 <= i < result@.len() ==> #[trigger] result@[i] == self.inputs@[start
                            + i].0,
                decreases self.inputs@.len() - at,
            {
                result.push(self.inputs[at].0);
                at = at + 1;
            }
        }
        assert(result@ =~= old(self)@.inputs.skip(
            old(self)@.inputs.len() - old(self)@.pending(),
        ).map_values(|entry: (Input, Duration)| entry.0));
        result
    }

    /// Clears out old buffered inputs corresponding to a set of
    /// packets that are acknowledged at `now`.
    ///
    /// Returns true if any new packets were acknowledged.
    pub fn packet_acks(&mut self, acks: Acks, now: Instant) -> (any: bool)
        requires
            old(self)@.wf(),
            newest_acked(old(self)@.sent, acks) >= 0 ==> old(self)@.left(acks)
                <= old(self)@.inputs.len(),
        ensures
            final(self)@.wf(),
            old(self)@.in_order() ==> final(self)@.in_order(),
            any == (newest_acked(old(self)@.sent, acks) >= 0),
            final(self)@ == old(self)@.acknowledged(acks, now),
    {
        let ghost sent = self.sent_packets@;
        let ghost inputs = self.inputs@;
        // Find the most recent acknowledged packet that was actually
        // an input packet.
        let mut newest: Option<u32> = None;
        let mut at: usize = 0;
        while at < self.sent_packets.len()
            invariant
                at <= sent.len(),
                self.sent_packets@ == sent,
                self@ == old(self)@,
                newest_acked(sent.take(at as int), acks) == (match newest {
                    Some(sequence) => sequence as int,
                    None => -1int,
                }),
            decreases sent.len() - at,
        {
            assert(sent.take(at + 1).drop_last() =~= sent.take(at as int));
            let sequence: u32 = self.sent_packets[at].0;
            if acks.contains(sequence) {
                newest = match newest {
                    Some(other) if other >= sequence => Some(other),
                    _ => Some(sequence),
                };
            }
            at = at + 1;
        }
        assert(sent.take(sent.len() as int) =~= sent);
        let sequence: u32 = match newest {
            Some(sequence) => sequence,
            None => return false,
        };

        // Since packets may be acknowledged out of order, there's not
        // really a nice way to check which ones are older without
        // iterating through the entire thing.
        let ghost later_only = |packet: (u32, usize)| packet.0 > sequence as int;
        let mut clear_to: usize = 0;
        let mut later: Vec<(u32, usize)> = Vec::new();
        at = 0;
        proof {
            assert(sent.take(0) =~= Seq::<(u32, usize)>::empty());
            reveal(Seq::filter);
        }
        while at < self.sent_packets.len()
            invariant
                at <= sent.len(),
                self.sent_packets@ == sent,
                self@ == old(self)@,
                later_only == (|packet: (u32, usize)| packet.0 > sequence as int),
                later@ == sent.take(at as int).filter(later_only),
                clear_to == sent_up_to(sent.take(at as int), sequence as int),
                forall|i: int| 0 <= i < sent.len() ==> (#[trigger] sent[i]).1 <= self.last_packet,
                clear_to <= self.last_packet,
            decreases sent.len() - at,
        {
            let (sent_sequence, end): (u32, usize) = self.sent_packets[at];
            proof {
                assert(sent.take(at + 1).drop_last() =~= sent.take(at as int));
                reveal(Seq::filter);
            }
            if sent_sequence <= sequence {
                if end > clear_to {
                    clear_to = end;
                }
            } else {
                later.push((sent_sequence, end));
            }
            at = at + 1;
        }
        assert(sent.take(sent.len() as int) =~= sent);
        self.sent_packets = later;
        self.last_ack = Some(now);

        // Clear out old packets.
        let num_inputs: usize = self.input_count - clear_to;
        let left: usize = if num_inputs < MAX_INPUT_BUFFER {
            num_inputs
        } else {
            MAX_INPUT_BUFFER
        };
        let end: usize = self.inputs.len() - left;
        let mut dropped: usize = 0;
        while dropped < end
            invariant
                dropped <= end <= inputs.len(),
                self.inputs@ =~= inputs.skip(dropped as int),
                self.latest == old(self).latest,
                self.input_count == old(self).input_count,
                self.sent_packets == later,
                self.last_packet == old(self).last_packet,
                self.last_ack == Some(now),
            decreases end - dropped,
        {
            let oldest = self.inputs.pop_front();
            dropped = dropped + 1;
        }
        proof {
            lemma_sent_after(sent, sequence as int);
            if old(self)@.in_order() {
                lemma_in_order(old(self)@, acks, now);
            }
        }
        true
    }
}

/// Packets that are sent with growing sequence numbers can be acknowledged in any way: enough
/// inputs are always buffered. Every input is kept that was stored after the last packet and is
/// still buffered, and where that packet is acknowledged, no other.
pub proof fn law_later_inputs_are_kept(buffer: InputBufferView, acks: Acks, now: Instant)
    requires
        buffer.wf(),
        buffer.in_order(),
    ensures
        newest_acked(buffer.sent, acks) >= 0 ==> buffer.left(acks) <= buffer.inputs.len(),
        buffer.acknowledged(acks, now).inputs.len() >= buffered(buffer.pending()),
        buffer.acknowledged(acks, now).inputs =~= buffer.inputs.skip(
            buffer.inputs.len() - buffer.acknowledged(acks, now).inputs.len(),
        ),
        buffer.sent.len() > 0 && acks.has(buffer.sent.last().0 as int) && buffer.sent.last().1
            == buffer.last_packet ==> buffer.acknowledged(acks, now).inputs.len() == buffered(
            buffer.pending(),
        ),
{
    lemma_in_order(buffer, acks, now);
    lemma_newest_acked(buffer.sent, acks);
    lemma_sent_up_to(buffer.sent, newest_acked(buffer.sent, acks));
}

/// The delay is never longer than the one since the last stored input, and nothing right after a
/// packet has been acknowledged.
pub proof fn law_delay_is_the_shorter(buffer: InputBufferView, acks: Acks, now: Instant, later: Instant)
    ensures
        buffer.delay_at(later).nanos <= buffer.latest.1.until(later).nanos,
        newest_acked(buffer.sent, acks) >= 0 ==> {
            &&& buffer.acknowledged(acks, now).delay_at(later).nanos <= now.until(later).nanos
            &&& buffer.acknowledged(acks, now).delay_at(now).nanos == 0
        },
{
}

pub proof fn lemma_newest_acked(sent: Seq<(u32, usize)>, acks: Acks)
    ensures
        newest_acked(sent, acks) >= -1,
        newest_acked(sent, acks) >= 0 ==> exists|i: int|
            0 <= i < sent.len() && (#[trigger] sent[i]).0 == newest_acked(sent, acks),
        forall|i: int|
            0 <= i < sent.len() && acks.has((#[trigger] sent[i]).0 as int) ==> sent[i].0
                <= newest_acked(sent, acks),
    decreases sent.len(),
{
    if sent.len() > 0 {
        let earlier = sent.drop_last();
        lemma_newest_acked(earlier, acks);
        if newest_acked(earlier, acks) >= 0 {
            let i = choose|i: int|
                0 <= i < earlier.len() && (#[trigger] earlier[i]).0 == newest_acked(earlier, acks);
            assert(sent[i] == earlier[i]);
        }
        assert(sent[sent.len() - 1] == sent.last());
        assert forall|i: int|
            0 <= i < sent.len() && acks.has((#[trigger] sent[i]).0 as int) implies sent[i].0
            <= newest_acked(sent, acks) by {
            if i < earlier.len() {
                assert(sent[i] == earlier[i]);
            }
        }
    }
}

proof fn lemma_sent_up_to(sent: Seq<(u32, usize)>, sequence: int)
    ensures
        sent_up_to(sent, sequence) >= 0,
        sent_up_to(sent, sequence) > 0 ==> exists|i: int|
            0 <= i < sent.len() && (#[trigger] sent[i]).0 <= sequence && sent[i].1 == sent_up_to(
                sent,
                sequence,
            ),
        forall|i: int|
            0 <= i < sent.len() && (#[trigger] sent[i]).0 <= sequence ==> sent[i].1 <= sent_up_to(
                sent,
                sequence,
            ),
    decreases sent.len(),
{
    if sent.len() > 0 {
        let earlier = sent.drop_last();
        lemma_sent_up_to(earlier, sequence);
        if sent_up_to(earlier, sequence) > 0 {
            let i = choose|i: int|
                0 <= i < earlier.len() && (#[trigger] earlier[i]).0 <= sequence && earlier[i].1
                    == sent_up_to(earlier, sequence);
            assert(sent[i] == earlier[i]);
        }
        assert(sent[sent.len() - 1] == sent.last());
        assert forall|i: int| 0 <= i < sent.len() && (#[trigger] sent[i]).0 <= sequence implies sent[i].1
            <= sent_up_to(sent, sequence) by {
            if i < earlier.len() {
                assert(sent[i] == earlier[i]);
            }
        }
    }
}

proof fn lemma_sent_after(sent: Seq<(u32, usize)>, sequence: int)
    ensures
        forall|i: int|
            0 <= i < sent_after(sent, sequence).len() ==> (
            #[trigger] sent_after(sent, sequence)[i]).0 > sequence && sent.contains(
                sent_after(sent, sequence)[i],
            ),
        forall|i: int, j: int|
            0 <= i < j < sent_after(sent, sequence).len() ==> exists|k: int, l: int|
                0 <= k < l < sent.len() && #[trigger] sent[k] == #[trigger] sent_after(
                    sent,
                    sequence,
                )[i] && #[trigger] sent[l] == #[trigger] sent_after(sent, sequence)[j],
    decreases sent.len(),
{
    reveal(Seq::filter);
    let kept = sent_after(sent, sequence);
    if sent.len() > 0 {
        let earlier = sent.drop_last();
        lemma_sent_after(earlier, sequence);
        let before = sent_after(earlier, sequence);
        assert(sent[sent.len() - 1] == sent.last());
        assert forall|i: int| 0 <= i < kept.len() implies (#[trigger] kept[i]).0 > sequence
            && sent.contains(kept[i]) by {
            if i < before.len() {
                assert(kept[i] == before[i]);
                let k = choose|k: int| 0 <= k < earlier.len() && earlier[k] == before[i];
                assert(sent[k] == kept[i]);
            }
        }
        assert forall|i: int, j: int| 0 <= i < j < kept.len() implies exists|k: int, l: int|
            0 <= k < l < sent.len() && #[trigger] sent[k] == #[trigger] kept[i]
                && #[trigger] sent[l] == #[trigger] kept[j] by {
            assert(kept[i] == before[i]);
            if j < before.len() {
                assert(kept[j] == before[j]);
                let (k, l) = choose|k: int, l: int|
                    0 <= k < l < earlier.len() && #[trigger] earlier[k] == before[i]
                        && #[trigger] earlier[l] == before[j];
                assert(sent[k] == kept[i] && sent[l] == kept[j]);
            } else {
                assert(earlier.contains(before[i]));
                let k = choose|k: int| 0 <= k < earlier.len() && earlier[k] == before[i];
                assert(sent[k] == kept[i] && sent[sent.len() - 1] == kept[j]);
            }
        }
    }
}

proof fn lemma_in_order(buffer: InputBufferView, acks: Acks, now: Instant)
    requires
        buffer.wf(),
        buffer.in_order(),
    ensures
        newest_acked(buffer.sent, acks) >= 0 ==> buffer.left(acks) <= buffer.inputs.len(),
        buffer.acknowledged(acks, now).in_order(),
{
    let newest = newest_acked(buffer.sent, acks);
    lemma_newest_acked(buffer.sent, acks);
    lemma_sent_up_to(buffer.sent, newest);
    lemma_sent_after(buffer.sent, newest);
    if newest >= 0 {
        let n = choose|i: int| 0 <= i < buffer.sent.len() && (#[trigger] buffer.sent[i]).0 == newest;
        let end = sent_up_to(buffer.sent, newest);
        assert(buffer.sent[n].1 <= end);
        if end > 0 {
            let m = choose|i: int|
                0 <= i < buffer.sent.len() && (#[trigger] buffer.sent[i]).0 <= newest
                    && buffer.sent[i].1 == end;
            assert(buffered(buffer.count - buffer.sent[m].1) <= buffer.inputs.len());
        }
        let after = buffer.acknowledged(acks, now);
        assert forall|i: int| 0 <= i < after.sent.len() implies buffered(
            after.count - (#[trigger] after.sent[i]).1,
        ) <= after.inputs.len() by {
            let k = choose|k: int| 0 <= k < buffer.sent.len() && buffer.sent[k] == after.sent[i];
            assert(buffer.sent[k].0 > newest);
            // What was sent later was sent with later inputs.
            if end > 0 {
                let m = choose|i: int|
                    0 <= i < buffer.sent.len() && (#[trigger] buffer.sent[i]).0 <= newest
                        && buffer.sent[i].1 == end;
                assert(m < k);
                assert(end <= buffer.sent[k].1);
            }
        }
        assert forall|i: int, j: int| 0 <= i < j < after.sent.len() implies (
        #[trigger] after.sent[i]).0 < (#[trigger] after.sent[j]).0 && after.sent[i].1
            <= after.sent[j].1 by {
            let (k, l) = choose|k: int, l: int|
                0 <= k < l < buffer.sent.len() && #[trigger] buffer.sent[k] == after.sent[i]
                    && #[trigger] buffer.sent[l] == after.sent[j];
            assert(buffer.sent[k].0 < buffer.sent[l].0);
        }
    }
}

} // verus!
