//! Sequence numbers, acknowledgements and packet headers.

use byteorder::{ReadBytesExt, WriteBytesExt, BE};
use smallvec::SmallVec;
use vstd::prelude::*;

use crate::networking::bits::{
    bit, either_bits, lemma_no_bits, set_bit, shift_up, test_bit,
};
use crate::networking::RecvError;

verus! {

/// Size of a packet header: sequence number, latest acknowledged packet
/// and the bits for the packets before that one.
pub const HEADER_BYTES: usize = 12;

/// A list of sequence numbers.
///
/// There are seldom more than a few, so they are kept inline.
#[verifier::external_body]
pub struct Sequences {
    list: SmallVec<[u32; 4]>,
}

/// The numbers that a list holds, in order.
pub uninterp spec fn sequences(list: Sequences) -> Seq<u32>;

/// Makes an empty list: `SmallVec::new` holds nothing.
#[verifier::external_body]
fn empty_list() -> (list: Sequences)
    ensures
        sequences(list) == Seq::<u32>::empty(),
{
    Sequences { list: SmallVec::new() }
}

/// Appends a number: `SmallVec::push` adds it at the end and keeps the rest.
#[verifier::external_body]
fn push_to_list(list: &mut Sequences, sequence: u32)
    ensures
        sequences(*final(list)) == sequences(*old(list)).push(sequence),
{
    list.list.push(sequence);
}

/// Hands the numbers out: `SmallVec::into_vec` keeps all of them and their order.
#[verifier::external_body]
fn list_to_vec(list: Sequences) -> (numbers: Vec<u32>)
    ensures
        numbers@ == sequences(list),
{
    list.list.into_vec()
}

/// Counts the numbers, with `SmallVec::len`.
#[verifier::external_body]
fn list_len(list: &Sequences) -> (count: usize)
    ensures
        count == sequences(*list).len(),
{
    list.list.len()
}

impl Sequences {
    /// The count of numbers.
    pub fn len(&self) -> (count: usize)
        ensures
            count == sequences(*self).len(),
    {
        list_len(self)
    }

    /// The numbers, in order.
    pub fn into_vec(self) -> (numbers: Vec<u32>)
        ensures
            numbers@ == sequences(self),
    {
        list_to_vec(self)
    }
}

/// The number that four bytes stand for, the most significant byte first.
pub open spec fn be_value(bytes: Seq<u8>) -> int {
    bytes[0] * 0x100_0000 + bytes[1] * 0x1_0000 + bytes[2] * 0x100 + bytes[3]
}

/// The four bytes of a number, the most significant byte first.
pub open spec fn be_bytes(value: u32) -> Seq<u8> {
    seq![
        (value / 0x100_0000) as u8,
        (value / 0x1_0000 % 0x100) as u8,
        (value / 0x100 % 0x100) as u8,
        (value % 0x100) as u8,
    ]
}

#[verifier::external_type_specification]
#[verifier::external_body]
pub struct ExIoError(std::io::Error);

/// Reads four bytes at `offset` with `ReadBytesExt::read_u32::<BE>`, which
/// takes the most significant byte first and fails only where fewer than four
/// bytes are left.
#[verifier::external_body]
fn read_u32(packet: &[u8], offset: usize) -> (value: Result<u32, std::io::Error>)
    requires
        offset <= packet@.len(),
    ensures
        value is Ok <==> offset + 4 <= packet@.len(),
        value matches Ok(number) ==> number == be_value(
            packet@.subrange(offset as int, offset + 4),
        ),
{
    let mut rest: &[u8] = &packet[offset..];
    rest.read_u32::<BE>()
}

/// Appends four bytes with `WriteBytesExt::write_u32::<BE>`, the most
/// significant byte first. Writing to a `Vec` does not fail.
#[verifier::external_body]
fn write_u32(packet: &mut Vec<u8>, value: u32)
    ensures
        final(packet)@ == old(packet)@ + be_bytes(value),
{
    packet.write_u32::<BE>(value).unwrap();
}

/// A set of acknowledged packets: the most recent one and the 31 before it.
#[derive(Copy, Clone, Debug, PartialEq, Eq, Structural)]
pub struct Acks {
    /// Bitfield of previous packets.
    ack_bits: u32,
    /// Sequence number of most recently received packet.
    ack: u32,
}

/// The numbering of packets in both directions of a connection, from
/// which reliable delivery can be built.
#[derive(Copy, Clone, Debug)]
pub struct Connection {
    pub local_sequence: u32,
    pub acks: Acks,
    pub remote_acks: Acks,
}

/// Whether `sequence` is `newest` or one of the 31 numbers before it.
pub open spec fn in_window(newest: int, sequence: int) -> bool {
    newest - 32 < sequence <= newest
}

/// Whether the window leaves `sequence` behind when the most recent packet changes from
/// `old_newest` to `new_newest`: it was not behind the window before, and is now.
pub open spec fn left_behind(old_newest: int, new_newest: int, sequence: int) -> bool {
    old_newest - 32 < sequence && sequence + 32 <= new_newest
}

/// Whether the numbers fall strictly from one to the next.
pub open spec fn falling(numbers: Seq<u32>) -> bool {
    forall|i: int, j: int| 0 <= i < j < numbers.len() ==> numbers[i] > numbers[j]
}

impl Default for Acks {
    /// Nothing has been received.
    fn default() -> (acks: Acks)
        ensures
            acks.newest() == 0,
            acks.field() == 0,
            forall|s: int| !acks.has(s),
    {
        let acks = Acks { ack_bits: 0, ack: 0 };
        assert forall|s: int| !acks.has(s) by {
            lemma_no_bits(acks.newest() - s);
        }
        acks
    }
}

impl Acks {
    /// The sequence number of the most recent packet.
    pub closed spec fn newest(self) -> u32 {
        self.ack
    }

    /// The bitfield, as it is written to packet headers.
    pub closed spec fn field(self) -> u32 {
        self.ack_bits
    }

    /// Whether a packet is in the set. The lowest bit of the field stands
    /// for the most recent packet, the next one for the packet before that.
    pub open spec fn has(self, sequence: int) -> bool {
        bit(self.field(), self.newest() - sequence)
    }

    /// Acknowledges a new received packet.
    ///
    /// Packets that fall out of the window of 32 are forgotten, and one that is
    /// already out of it leaves the set alone.
    pub fn ack(&mut self, sequence: u32)
        ensures
            final(self).newest() == (if sequence > old(self).newest() {
                sequence
            } else {
                old(self).newest()
            }),
            forall|s: int|
                #[trigger] final(self).has(s) <==> in_window(final(self).newest() as int, s) && (s == sequence
                    || old(self).has(s)),
    {
        if sequence > self.ack {
            // Packet newer than most recent packet, so shift
            // everything.
            let by: u32 = sequence - self.ack;
            self.ack_bits = set_bit(shift_up(self.ack_bits, by), 0);
            self.ack = sequence;
        } else if self.ack - sequence < 32 {
            // Received a packet newer than this one before, but it's
            // still in the 32-packet window, so store it.
            let behind: u32 = self.ack - sequence;
            self.ack_bits = set_bit(self.ack_bits, behind);
        }
    }

    /// Combines this with another set of acks, and returns the set of
    /// packets that can now be considered lost.
    ///
    /// Those are the ones that have never been acknowledged and that the window has now left
    /// behind, whether they were in it before or it has jumped over them. The most recent comes
    /// first.
    pub fn combine(&mut self, new: Acks) -> (lost: Sequences)
        ensures
            final(self).newest() == (if new.newest() > old(self).newest() {
                new.newest()
            } else {
                old(self).newest()
            }),
            forall|s: int|
                #[trigger] final(self).has(s) <==> in_window(final(self).newest() as int, s) && (old(
                    self,
                ).has(s) || new.has(s)),
            falling(sequences(lost)),
            forall|s: u32|
                #[trigger] sequences(lost).contains(s) <==> left_behind(
                    old(self).newest() as int,
                    new.newest() as int,
                    s as int,
                ) && !old(self).has(s as int),
    {
        // Anything that is outside the range of the new ack can
        // be considered lost.
        let lost = self.missing(new.ack, u32::MAX);
        self.merge(new);
        lost
    }

    /// Adds another set of acks to this one.
    fn merge(&mut self, new: Acks)
        ensures
            final(self).newest() == (if new.newest() > old(self).newest() {
                new.newest()
            } else {
                old(self).newest()
            }),
            forall|s: int|
                #[trigger] final(self).has(s) <==> in_window(final(self).newest() as int, s) && (old(
                    self,
                ).has(s) || new.has(s)),
    {
        if new.ack > self.ack {
            // Shift everything.
            let by: u32 = new.ack - self.ack;
            self.ack_bits = either_bits(shift_up(self.ack_bits, by), new.ack_bits);
            self.ack = new.ack;
        } else {
            let by: u32 = self.ack - new.ack;
            self.ack_bits = either_bits(self.ack_bits, shift_up(new.ack_bits, by));
        }
    }

    /// The packets that are not in the set, and that the window leaves behind when it moves on to
    /// `newest`. The most recent comes first.
    ///
    /// Of those that it jumps over, only the ones before `end` count.
    fn missing(self, newest: u32, end: u32) -> (list: Sequences)
        ensures
            falling(sequences(list)),
            forall|s: u32|
                #[trigger] sequences(list).contains(s) <==> left_behind(
                    self.newest() as int,
                    newest as int,
                    s as int,
                ) && !self.has(s as int) && (s <= self.newest() || s < end),
    {
        let start: u32 = if self.ack < 31 {
            0
        } else {
            self.ack - 31
        };
        let mut list = empty_list();
        let mut above: u32 = if newest < 32 {
            0
        } else {
            newest - 31
        };
        if self.ack < above && end <= self.ack {
            above = self.ack + 1;
        } else if self.ack < end && end < above {
            above = end;
        }
        assert(sequences(list).len() == 0);
        while above > start
            invariant
                start == (if self.newest() < 31 {
                    0
                } else {
                    self.newest() - 31
                }),
                above + 31 <= newest || above == 0,
                above <= self.newest() + 1 || above <= end,
                falling(sequences(list)),
                forall|i: int|
                    0 <= i < sequences(list).len() ==> {
                        &&& above <= #[trigger] sequences(list)[i]
                        &&& sequences(list)[i] + 32 <= newest
                        &&& start <= sequences(list)[i]
                        &&& sequences(list)[i] <= self.newest() || sequences(list)[i] < end
                        &&& !self.has(sequences(list)[i] as int)
                    },
                forall|s: u32|
                    above <= s && start <= s && s + 32 <= newest && !self.has(s as int) && (s
                        <= self.newest() || s < end) ==> sequences(list).contains(s),
            decreases above,
        {
            let ghost before = sequences(list);
            above = above - 1;
            if !self.contains(above) {
                push_to_list(&mut list, above);
                proof {
                    assert(sequences(list)[before.len() as int] == above);
                    assert forall|s: u32|
                        above <= s && start <= s && s + 32 <= newest && !self.has(s as int) && (s
                            <= self.newest() || s < end) implies sequences(list).contains(s) by {
                        if s != above {
                            assert(before.contains(s));
                            let i = choose|i: int| 0 <= i < before.len() && before[i] == s;
                            assert(sequences(list)[i] == s);
                        }
                    }
                }
            }
        }
        list
    }

    /// Checks if a particular sequence number is present in this set
    /// of acks.
    pub fn contains(self, sequence: u32) -> (present: bool)
        ensures
            present == self.has(sequence as int),
    {
        if self.ack < sequence {
            return false;
        }
        let behind: u32 = self.ack - sequence;
        behind < 32 && test_bit(self.ack_bits, behind)
    }

    /// The packets of the set, most recent first.
    fn collect(self) -> (list: Sequences)
        ensures
            falling(sequences(list)),
            forall|s: u32| #[trigger] sequences(list).contains(s) <==> self.has(s as int),
    {
        let end: u32 = if self.ack < 31 {
            self.ack + 1
        } else {
            32
        };
        let mut list = empty_list();
        let mut offset: u32 = 0;
        assert(sequences(list).len() == 0);
        while offset < end
            invariant
                offset <= end <= 32,
                end <= self.ack + 1,
                falling(sequences(list)),
                forall|i: int|
                    0 <= i < sequences(list).len() ==> {
                        &&& self.newest() - offset < #[trigger] sequences(list)[i]
                        &&& self.has(sequences(list)[i] as int)
                    },
                forall|s: u32|
                    self.newest() - offset < s && self.has(s as int) ==> sequences(list).contains(
                        s,
                    ),
            decreases end - offset,
        {
            let ghost before = sequences(list);
            if test_bit(self.ack_bits, offset) {
                let sequence: u32 = self.ack - offset;
                push_to_list(&mut list, sequence);
                proof {
                    assert(sequences(list)[before.len() as int] == sequence);
                    assert forall|s: u32|
                        self.newest() - offset - 1 < s && self.has(
                            s as int,
                        ) implies sequences(list).contains(s) by {
                        if s != sequence {
                            let i = choose|i: int| 0 <= i < before.len() && before[i] == s;
                            assert(sequences(list)[i] == s);
                        }
                    }
                }
            }
            offset = offset + 1;
        }
        list
    }

    /// Returns the acked packets, most recent first.
    pub fn iter(self) -> (numbers: Vec<u32>)
        ensures
            falling(numbers@),
            forall|s: u32| #[trigger] numbers@.contains(s) <==> self.has(s as int),
    {
        self.collect().into_vec()
    }
}

impl Default for Connection {
    /// Nothing has been sent or received.
    fn default() -> (connection: Connection)
        ensures
            connection.local_sequence == 0,
            connection.acks.newest() == 0,
            connection.acks.field() == 0,
            connection.remote_acks.newest() == 0,
            connection.remote_acks.field() == 0,
    {
        Connection { local_sequence: 0, acks: Acks::default(), remote_acks: Acks::default() }
    }
}

/// What a packet header says.
pub struct HeaderView {
    pub sequence: int,
    pub ack: int,
    pub ack_bits: int,
}

/// The header that a packet begins with.
pub open spec fn header_of(packet: Seq<u8>) -> HeaderView
    recommends
        packet.len() >= HEADER_BYTES,
{
    HeaderView {
        sequence: be_value(packet.subrange(0, 4)),
        ack: be_value(packet.subrange(4, 8)),
        ack_bits: be_value(packet.subrange(8, 12)),
    }
}

/// The bytes of a header.
pub open spec fn header_bytes(sequence: u32, acks: Acks) -> Seq<u8> {
    be_bytes(sequence) + be_bytes(acks.newest()) + be_bytes(acks.field())
}

/// What follows the header of a packet: nothing, where the packet is too
/// short to hold one.
pub open spec fn contents_of(packet: Seq<u8>) -> Seq<u8> {
    if packet.len() < HEADER_BYTES {
        Seq::empty()
    } else {
        packet.skip(HEADER_BYTES as int)
    }
}

/// The part of a packet that follows its header.
pub fn contents(packet: &[u8]) -> (rest: &[u8])
    ensures
        rest@ == contents_of(packet@),
{
    let start: usize = if packet.len() < HEADER_BYTES {
        packet.len()
    } else {
        HEADER_BYTES
    };
    vstd::slice::slice_subrange(packet, start, packet.len())
}

/// How the two sets of acknowledgements of a connection change by the header of a packet.
pub open spec fn header_noted(
    before: Connection,
    after: Connection,
    packet: Seq<u8>,
    sequence: u32,
    acks: Acks,
) -> bool {
    &&& sequence == header_of(packet).sequence
    &&& acks.newest() == header_of(packet).ack
    &&& acks.field() == header_of(packet).ack_bits
    &&& after.local_sequence == before.local_sequence
    &&& after.acks.newest() == (if sequence > before.acks.newest() {
        sequence
    } else {
        before.acks.newest()
    })
    &&& forall|s: int|
        #[trigger] after.acks.has(s) <==> in_window(after.acks.newest() as int, s) && (s == sequence
            || before.acks.has(s))
    &&& after.remote_acks.newest() == (if acks.newest() > before.remote_acks.newest() {
        acks.newest()
    } else {
        before.remote_acks.newest()
    })
    &&& forall|s: int|
        #[trigger] after.remote_acks.has(s) <==> in_window(after.remote_acks.newest() as int, s) && (
        before.remote_acks.has(s) || acks.has(s))
}

/// How the two sets of acknowledgements of a connection change on receiving a
/// packet, and what is lost by it.
pub open spec fn received(
    before: Connection,
    after: Connection,
    packet: Seq<u8>,
    sequence: u32,
    acks: Acks,
    lost: Seq<u32>,
) -> bool {
    &&& header_noted(before, after, packet, sequence, acks)
    &&& falling(lost)
    &&& forall|s: u32|
        #[trigger] lost.contains(s) <==> left_behind(
            before.remote_acks.newest() as int,
            acks.newest() as int,
            s as int,
        ) && !before.remote_acks.has(s as int) && before.knows(s as int)
}

impl Connection {
    /// Whether a packet can be lost at all: it has been sent, or the other side has acknowledged it
    /// or a later one.
    pub open spec fn knows(self, sequence: int) -> bool {
        sequence < self.local_sequence || sequence <= self.remote_acks.newest()
    }

    /// How far a packet from the other side moves the window of packets that it acknowledges.
    pub open spec fn moved_by(self, packet: Seq<u8>) -> int {
        if packet.len() >= HEADER_BYTES && header_of(packet).ack > self.remote_acks.newest() {
            header_of(packet).ack - self.remote_acks.newest()
        } else {
            0
        }
    }

    /// How many packets can be lost at once, whatever is received: the 32 in the window, and those
    /// that have been sent after its most recent one.
    pub open spec fn most_lost(self) -> int {
        if self.local_sequence > self.remote_acks.newest() {
            self.local_sequence - self.remote_acks.newest() + 31
        } else {
            32
        }
    }

    /// Returns how many packets can be lost at most by receiving a packet: no more than the window
    /// moves on by, nor than there are.
    pub fn loss_limit(&self, packet: &[u8]) -> (limit: u32)
        ensures
            limit == (if self.moved_by(packet@) < self.most_lost() {
                self.moved_by(packet@)
            } else {
                self.most_lost()
            }),
    {
        if packet.len() < HEADER_BYTES {
            return 0;
        }
        let moved: u32 = match read_u32(packet, 4) {
            Ok(ack) if ack > self.remote_acks.ack => ack - self.remote_acks.ack,
            _ => 0,
        };
        let since: u32 = if self.local_sequence > self.remote_acks.ack {
            self.local_sequence - self.remote_acks.ack - 1
        } else {
            0
        };
        if moved < 32 || moved - 32 < since {
            moved
        } else {
            since + 32
        }
    }

    /// Processes the header of a received packet and returns it's
    /// sequence number, as well as acknowledged packets and lost
    /// packets.
    ///
    /// A packet that is too short for a header changes nothing.
    pub fn recv_header(&mut self, packet: &[u8]) -> (result: Result<
        (u32, Acks, Sequences),
        RecvError,
    >)
        ensures
            packet@.len() < HEADER_BYTES ==> result == Err::<(u32, Acks, Sequences), RecvError>(
                RecvError::HeaderRead,
            ) && *final(self) == *old(self),
            packet@.len() >= HEADER_BYTES ==> (result matches Ok(header) && received(
                *old(self),
                *final(self),
                packet@,
                header.0,
                header.1,
                sequences(header.2),
            )),
    {
        let known: Acks = self.remote_acks;
        match self.note_header(packet) {
            Ok((sequence, acks)) => {
                let lost = known.missing(acks.ack, self.local_sequence);
                Ok((sequence, acks, lost))
            },
            Err(err) => Err(err),
        }
    }

    /// Processes the header of a received packet and returns its sequence number and the
    /// acknowledged packets, for those who have no use for the lost ones.
    ///
    /// A packet that is too short for a header changes nothing.
    pub fn note_header(&mut self, packet: &[u8]) -> (result: Result<(u32, Acks), RecvError>)
        ensures
            packet@.len() < HEADER_BYTES ==> result == Err::<(u32, Acks), RecvError>(
                RecvError::HeaderRead,
            ) && *final(self) == *old(self),
            packet@.len() >= HEADER_BYTES ==> (result matches Ok(header) && header_noted(
                *old(self),
                *final(self),
                packet@,
                header.0,
                header.1,
            )),
    {
        let sequence: u32 = match read_u32(packet, 0) {
            Ok(value) => value,
            Err(_) => return Err(RecvError::HeaderRead),
        };
        let ack: u32 = match read_u32(packet, 4) {
            Ok(value) => value,
            Err(_) => return Err(RecvError::HeaderRead),
        };
        let ack_bits: u32 = match read_u32(packet, 8) {
            Ok(value) => value,
            Err(_) => return Err(RecvError::HeaderRead),
        };

        self.acks.ack(sequence);
        let acks = Acks { ack_bits, ack };
        self.remote_acks.merge(acks);
        Ok((sequence, acks))
    }

    /// Appends the header of the next packet to be sent, and returns
    /// the packet's sequence number.
    pub fn send_header(&mut self, packet: &mut Vec<u8>) -> (sequence: u32)
        requires
            old(self).local_sequence < u32::MAX,
        ensures
            sequence == old(self).local_sequence,
            final(self).local_sequence == old(self).local_sequence + 1,
            final(self).acks == old(self).acks,
            final(self).remote_acks == old(self).remote_acks,
            final(packet)@ == old(packet)@ + header_bytes(sequence, old(self).acks),
    {
        let sequence: u32 = self.local_sequence;
        self.local_sequence = self.local_sequence + 1;
        write_u32(packet, sequence);
        write_u32(packet, self.acks.ack);
        write_u32(packet, self.acks.ack_bits);
        proof {
            assert(packet@ =~= old(packet)@ + header_bytes(sequence, old(self).acks));
        }
        sequence
    }

    /// Reads the header of a packet, and takes the deserialized
    /// contents along. Returns the contents, the sequence number of the packet,
    /// the packets that it acknowledges, and the packets that are now
    /// considered lost.
    ///
    /// `contents` is `None` where what follows the header could not be
    /// deserialized. The header counts even then.
    pub fn decode<P>(&mut self, packet: &[u8], contents: Option<P>) -> (result: Result<
        (P, u32, Acks, Sequences),
        RecvError,
    >)
        ensures
            packet@.len() < HEADER_BYTES ==> result == Err::<(P, u32, Acks, Sequences), RecvError>(
                RecvError::HeaderRead,
            ) && *final(self) == *old(self),
            packet@.len() >= HEADER_BYTES ==> (match contents {
                Some(value) => {
                    &&& result matches Ok(decoded)
                    &&& decoded.0 == value
                    &&& received(
                        *old(self),
                        *final(self),
                        packet@,
                        decoded.1,
                        decoded.2,
                        sequences(decoded.3),
                    )
                },
                None => {
                    &&& result == Err::<(P, u32, Acks, Sequences), RecvError>(
                        RecvError::Deserialize,
                    )
                    &&& exists|sequence: u32, acks: Acks|
                        header_noted(*old(self), *final(self), packet@, sequence, acks)
                },
            }),
    {
        match contents {
            Some(value) => match self.recv_header(packet) {
                Ok((sequence, acks, lost)) => Ok((value, sequence, acks, lost)),
                Err(err) => Err(err),
            },
            None => match self.note_header(packet) {
                Ok(_) => Err(RecvError::Deserialize),
                Err(err) => Err(err),
            },
        }
    }
}

/// Reading four bytes gives back the number that they were made of.
pub proof fn law_number_round_trip(value: u32)
    ensures
        be_bytes(value).len() == 4,
        be_value(be_bytes(value)) == value,
{
    assert(value == value / 0x100_0000 * 0x100_0000 + value / 0x1_0000 % 0x100 * 0x1_0000 + value
        / 0x100 % 0x100 * 0x100 + value % 0x100) by (bit_vector);
    assert(value / 0x100_0000 < 0x100);
}

/// A header that was written is read back as it was, and so are the contents
/// behind it.
pub proof fn law_header_round_trip(sequence: u32, acks: Acks, contents: Seq<u8>)
    ensures
        header_bytes(sequence, acks).len() == HEADER_BYTES,
        header_of(header_bytes(sequence, acks) + contents) == (HeaderView {
            sequence: sequence as int,
            ack: acks.newest() as int,
            ack_bits: acks.field() as int,
        }),
        contents_of(header_bytes(sequence, acks) + contents) == contents,
{
    law_number_round_trip(sequence);
    law_number_round_trip(acks.newest());
    law_number_round_trip(acks.field());
    let packet = header_bytes(sequence, acks) + contents;
    assert(packet.subrange(0, 4) =~= be_bytes(sequence));
    assert(packet.subrange(4, 8) =~= be_bytes(acks.newest()));
    assert(packet.subrange(8, 12) =~= be_bytes(acks.field()));
    assert(contents_of(packet) =~= contents);
}

/// A packet that has been acknowledged is never reported lost, and one that is
/// reported lost is neither reported again nor acknowledged later: it has left the window for good.
pub proof fn law_lost_for_good(
    before: Connection,
    middle: Connection,
    after: Connection,
    first: Seq<u8>,
    second: Seq<u8>,
    sequence1: u32,
    acks1: Acks,
    lost1: Seq<u32>,
    sequence2: u32,
    acks2: Acks,
    lost2: Seq<u32>,
    packet: u32,
)
    requires
        received(before, middle, first, sequence1, acks1, lost1),
        received(middle, after, second, sequence2, acks2, lost2),
    ensures
        before.remote_acks.has(packet as int) ==> !lost1.contains(packet),
        lost1.contains(packet) ==> {
            &&& !lost2.contains(packet)
            &&& !middle.remote_acks.has(packet as int)
            &&& !after.remote_acks.has(packet as int)
        },
{
}

/// No more packets are lost at once than the window has moved on by, nor than there are.
pub proof fn law_lost_by_moving_on(
    before: Connection,
    after: Connection,
    packet: Seq<u8>,
    sequence: u32,
    acks: Acks,
    lost: Seq<u32>,
)
    requires
        received(before, after, packet, sequence, acks, lost),
        packet.len() >= HEADER_BYTES,
    ensures
        after.remote_acks.newest() == before.remote_acks.newest() + before.moved_by(packet),
        lost.len() <= before.moved_by(packet),
        lost.len() <= before.most_lost(),
{
    let low = before.remote_acks.newest() - 32;
    let high = acks.newest() - 32;
    assert forall|i: int| 0 <= i < lost.len() implies low < #[trigger] lost[i] <= high by {
        assert(lost.contains(lost[i]));
    }
    lemma_falling_is_short(lost, low, high);
    let known = low + before.most_lost();
    assert forall|i: int| 0 <= i < lost.len() implies low < #[trigger] lost[i] <= known by {
        assert(lost.contains(lost[i]));
    }
    lemma_falling_is_short(lost, low, known);
}

proof fn lemma_falling_is_short(numbers: Seq<u32>, low: int, high: int)
    requires
        falling(numbers),
        forall|i: int| 0 <= i < numbers.len() ==> low < #[trigger] numbers[i] <= high,
    ensures
        numbers.len() > 0 ==> numbers.last() + numbers.len() <= high + 1,
        numbers.len() > 0 ==> numbers.len() <= high - low,
    decreases numbers.len(),
{
    if numbers.len() > 0 {
        let front = numbers.drop_last();
        assert forall|i: int| 0 <= i < front.len() implies low < #[trigger] front[i] <= high by {
            assert(front[i] == numbers[i]);
        }
        lemma_falling_is_short(front, low, high);
        assert(low < numbers[numbers.len() - 1] <= high);
        if front.len() > 0 {
            assert(numbers[front.len() - 1] > numbers[front.len() as int]);
        }
    }
}

/// Receiving one more packet moves both windows forward or leaves them where they are.
pub proof fn law_windows_advance(
    before: Connection,
    after: Connection,
    packet: Seq<u8>,
    sequence: u32,
    acks: Acks,
    lost: Seq<u32>,
)
    requires
        received(before, after, packet, sequence, acks, lost),
    ensures
        after.acks.newest() >= before.acks.newest(),
        after.remote_acks.newest() >= before.remote_acks.newest(),
        after.acks.newest() - 32 < sequence ==> after.acks.has(sequence as int),
{
}

} // verus!
