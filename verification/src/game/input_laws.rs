//! What an input buffer keeps and gives out, said of the results of its operations alone.

use vstd::prelude::*;

use crate::game::input::{
    law_later_inputs_are_kept, lemma_newest_acked, newest_acked, InputBuffer,
};
use crate::game::Input;
use crate::networking::connection::Acks;
use crate::time::{Duration, Instant};

verus! {

/// A new buffer holds no inputs, and the given one is the latest.
pub proof fn law_new_buffer_is_empty(
    input: Input,
    now: Instant,
    buffer: InputBuffer,
    inputs: Vec<(Input, Duration)>,
    latest: &Input,
)
    requires
        call_ensures(InputBuffer::new, (input, now), buffer),
        call_ensures(InputBuffer::inputs, (&buffer,), inputs),
        call_ensures(InputBuffer::latest, (&buffer,), latest),
    ensures
        inputs@.len() == 0,
        *latest == input,
{
}

/// An input that is stored is the latest, and the last one that is buffered, with the time since the
/// one before it. The others stay in order, but for the oldest one if there are 32 already.
pub proof fn law_stored_input_is_last(
    buffer: &mut InputBuffer,
    input: Input,
    now: Instant,
    before: Vec<(Input, Duration)>,
    after: Vec<(Input, Duration)>,
    latest: &Input,
)
    requires
        call_ensures(InputBuffer::store_input, (buffer, input, now), ()),
        call_ensures(InputBuffer::inputs, (old(buffer),), before),
        call_ensures(InputBuffer::inputs, (final(buffer),), after),
        call_ensures(InputBuffer::latest, (final(buffer),), latest),
    ensures
        *latest == input,
        after@.len() > 0,
        after@.last().0 == input,
        old(buffer)@.latest.1.nanos <= now.nanos ==> old(buffer)@.latest.1.nanos
            + after@.last().1.nanos == now.nanos,
        before@.len() == 32 ==> after@.drop_last() == before@.drop_first(),
        before@.len() != 32 ==> after@.drop_last() == before@,
{
    assert(after@.drop_last() =~= (if before@.len() == 32 {
        before@.drop_first()
    } else {
        before@
    }));
}

/// Sending a packet gives out the inputs that have been stored since the last packet, in order: as
/// many of the last buffered ones as there are. They stay buffered, and nothing is left for a packet
/// right after that.
pub proof fn law_inputs_are_sent_once(
    first: &mut InputBuffer,
    second: &mut InputBuffer,
    sequence: u32,
    next: u32,
    buffered: Vec<(Input, Duration)>,
    kept: Vec<(Input, Duration)>,
    sent: Vec<Input>,
    again: Vec<Input>,
)
    requires
        call_ensures(InputBuffer::packet_send, (first, sequence), sent),
        call_ensures(InputBuffer::packet_send, (second, next), again),
        call_ensures(InputBuffer::inputs, (old(first),), buffered),
        call_ensures(InputBuffer::inputs, (final(first),), kept),
        *old(second) == *final(first),
        old(first)@.wf(),
        old(first)@.pending() <= 32,
    ensures
        sent@.len() == old(first)@.pending(),
        forall|i: int|
            0 <= i < sent@.len() ==> #[trigger] sent@[i] == buffered@[buffered@.len() - sent@.len()
                + i].0,
        kept@ == buffered@,
        again@.len() == 0,
{
}

/// An input that is stored between two packets goes with the second one, and only that input does.
pub proof fn law_stored_input_is_sent(
    first: &mut InputBuffer,
    stored: &mut InputBuffer,
    second: &mut InputBuffer,
    sequence: u32,
    next: u32,
    input: Input,
    now: Instant,
    sent: Vec<Input>,
    again: Vec<Input>,
)
    requires
        call_ensures(InputBuffer::packet_send, (first, sequence), sent),
        call_ensures(InputBuffer::store_input, (stored, input, now), ()),
        call_ensures(InputBuffer::packet_send, (second, next), again),
        *old(stored) == *final(first),
        *old(second) == *final(stored),
        old(first)@.wf(),
        old(first)@.pending() <= 32,
    ensures
        again@ == seq![input],
{
    assert(final(stored)@.pending() == 1);
    assert(again@ =~= seq![input]);
}

/// When the last packet with inputs is acknowledged, none of them are buffered any more: only those
/// that have been stored since. Nothing has been waited for since then.
pub proof fn law_acknowledged_inputs_are_given_up(
    first: &mut InputBuffer,
    acked: &mut InputBuffer,
    sequence: u32,
    sent: Vec<Input>,
    acks: Acks,
    now: Instant,
    any: bool,
    inputs: Vec<(Input, Duration)>,
    delay: Duration,
)
    requires
        call_ensures(InputBuffer::packet_send, (first, sequence), sent),
        call_ensures(InputBuffer::packet_acks, (acked, acks, now), any),
        call_ensures(InputBuffer::inputs, (final(acked),), inputs),
        call_ensures(InputBuffer::delay, (final(acked), now), delay),
        call_ensures(Acks::contains, (acks, sequence), true),
        *old(acked) == *final(first),
        old(first)@.wf(),
        old(first)@.in_order(),
        old(first)@.pending() <= 32,
        0 < old(first)@.count <= usize::MAX,
        old(first)@.sent.len() > 0 ==> old(first)@.sent.last().0 < sequence,
    ensures
        any,
        inputs@.len() == 0,
        delay.nanos == 0,
{
    let buffer = old(acked)@;
    law_later_inputs_are_kept(buffer, acks, now);
    lemma_newest_acked(buffer.sent, acks);
    assert(buffer.sent.last() == buffer.sent[buffer.sent.len() - 1]);
    assert(acks.has(buffer.sent.last().0 as int));
    assert(buffer.pending() == 0);
}

/// Where nothing that was sent is acknowledged, nothing changes.
pub proof fn law_unacknowledged_inputs_stay(
    buffer: &mut InputBuffer,
    acks: Acks,
    now: Instant,
    any: bool,
)
    requires
        call_ensures(InputBuffer::packet_acks, (buffer, acks, now), any),
        forall|i: int|
            0 <= i < old(buffer)@.sent.len() ==> !acks.has((#[trigger] old(
                buffer,
            )@.sent[i]).0 as int),
    ensures
        !any,
        final(buffer)@ == old(buffer)@,
{
    lemma_none_acked(old(buffer)@.sent, acks);
}

proof fn lemma_none_acked(sent: Seq<(u32, usize)>, acks: Acks)
    requires
        forall|i: int| 0 <= i < sent.len() ==> !acks.has((#[trigger] sent[i]).0 as int),
    ensures
        newest_acked(sent, acks) == -1,
    decreases sent.len(),
{
    if sent.len() > 0 {
        let front = sent.drop_last();
        assert forall|i: int| 0 <= i < front.len() implies !acks.has(
            (#[trigger] front[i]).0 as int,
        ) by {
            assert(front[i] == sent[i]);
        }
        lemma_none_acked(front, acks);
        assert(sent.last() == sent[sent.len() - 1]);
    }
}

/// The delay is the time since the last stored input, or since the last packet was acknowledged if
/// that is shorter.
pub proof fn law_delay(buffer: InputBuffer, now: Instant, delay: Duration)
    requires
        call_ensures(InputBuffer::delay, (&buffer, now), delay),
        buffer@.latest.1.nanos <= now.nanos,
    ensures
        buffer@.last_ack is None ==> delay.nanos == now.nanos - buffer@.latest.1.nanos,
        buffer@.last_ack is Some && buffer@.last_ack->0.nanos <= now.nanos ==> delay.nanos == (
        if buffer@.last_ack->0.nanos > buffer@.latest.1.nanos {
            now.nanos - buffer@.last_ack->0.nanos
        } else {
            now.nanos - buffer@.latest.1.nanos
        }),
{
}

} // verus!
