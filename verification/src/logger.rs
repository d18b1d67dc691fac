//! Keeps the most recent log messages.

use std::collections::VecDeque;
use vstd::prelude::*;

verus! {

/// 512kb max.
pub const MAX_LOG_SIZE: usize = 524_288;

/// How severe a message is.
#[derive(Copy, Clone, Debug, PartialEq, Eq, Structural)]
pub enum Level {
    Error,
    Warn,
    Info,
    Debug,
    Trace,
}

/// Which messages are of interest.
#[derive(Copy, Clone, Debug, PartialEq, Eq, Structural)]
pub enum LevelFilter {
    Off,
    Error,
    Warn,
    Info,
    Debug,
    Trace,
}

impl Level {
    /// Levels are counted from the most severe one.
    pub open spec fn rank(self) -> int {
        match self {
            Level::Error => 1,
            Level::Warn => 2,
            Level::Info => 3,
            Level::Debug => 4,
            Level::Trace => 5,
        }
    }

    /// Returns whether a message of this level is of interest.
    pub fn enabled(self, filter: LevelFilter) -> (enabled: bool)
        ensures
            enabled == (self.rank() <= filter.rank()),
    {
        match filter {
            LevelFilter::Off => false,
            LevelFilter::Error => match self {
                Level::Error => true,
                _ => false,
            },
            LevelFilter::Warn => match self {
                Level::Error | Level::Warn => true,
                _ => false,
            },
            LevelFilter::Info => match self {
                Level::Debug | Level::Trace => false,
                _ => true,
            },
            LevelFilter::Debug => match self {
                Level::Trace => false,
                _ => true,
            },
            LevelFilter::Trace => true,
        }
    }
}

impl LevelFilter {
    /// The rank of the least severe level that is of interest.
    pub open spec fn rank(self) -> int {
        match self {
            LevelFilter::Off => 0,
            LevelFilter::Error => 1,
            LevelFilter::Warn => 2,
            LevelFilter::Info => 3,
            LevelFilter::Debug => 4,
            LevelFilter::Trace => 5,
        }
    }
}

/// Where in the text a message is.
#[derive(Copy, Clone, Debug)]
pub struct Record {
    pub level: Level,
    pub start: usize,
    pub end: usize,
}

/// Writes one message, piece by piece.
#[derive(Copy, Clone, Debug)]
pub struct LogWriter {
    /// Where the message starts.
    pub start: usize,
    /// Where the next piece goes.
    pub head: usize,
    /// Where the first piece was put.
    pub from: usize,
    /// How far the pieces reached before wrapping around.
    pub reached: usize,
    /// Whether the message has been moved to the beginning of the text.
    pub wrapped: bool,
    /// How far the pieces reached from the beginning of the text after wrapping around.
    pub reached_again: usize,
}

impl LogWriter {
    pub open spec fn wf(self) -> bool {
        &&& self.start <= self.head <= MAX_LOG_SIZE
        &&& self.from <= self.reached <= MAX_LOG_SIZE
        &&& !self.wrapped ==> self.start == self.from && self.head == self.reached
            && self.reached_again == 0
        &&& self.wrapped ==> self.start == 0 && self.head <= self.reached_again <= MAX_LOG_SIZE
    }

    /// Whether the byte at `index` has been overwritten.
    pub open spec fn covers(self, index: int) -> bool {
        self.from <= index < self.reached || 0 <= index < self.reached_again
    }

    /// The length of what has been written.
    pub open spec fn len(self) -> int {
        self.head - self.start
    }

    /// The writer after one more piece of the given length: it wraps around when it goes over the
    /// end of the text. It takes the earlier pieces along, unless that would be too much for all of
    /// the text.
    pub open spec fn after(self, length: int) -> LogWriter {
        if self.head + length > MAX_LOG_SIZE {
            let head = if self.len() + length <= MAX_LOG_SIZE {
                self.len() + length
            } else {
                length
            };
            LogWriter {
                start: 0,
                head: head as usize,
                wrapped: true,
                reached_again: if self.reached_again < head {
                    head as usize
                } else {
                    self.reached_again
                },
                ..self
            }
        } else if self.wrapped {
            LogWriter {
                head: (self.head + length) as usize,
                reached_again: if self.reached_again < self.head + length {
                    (self.head + length) as usize
                } else {
                    self.reached_again
                },
                ..self
            }
        } else {
            LogWriter {
                head: (self.head + length) as usize,
                reached: (self.head + length) as usize,
                ..self
            }
        }
    }

    /// The writer after several pieces.
    pub open spec fn after_all(self, pieces: Seq<Seq<u8>>) -> LogWriter
        decreases pieces.len(),
    {
        if pieces.len() == 0 {
            self
        } else {
            self.after_all(pieces.drop_last()).after(pieces.last().len() as int)
        }
    }

    /// Whether all of a message is still there.
    pub open spec fn spares(self, record: Record) -> bool {
        &&& record.end <= self.from || self.reached <= record.start
        &&& self.reached_again <= record.start
    }

    /// The writer of a message at a position, before anything has been written.
    pub open spec fn fresh(position: usize) -> LogWriter {
        LogWriter {
            start: position,
            head: position,
            from: position,
            reached: position,
            wrapped: false,
            reached_again: 0,
        }
    }

    /// Starts to write a message at a position.
    pub fn new(position: usize) -> (writer: LogWriter)
        requires
            position <= MAX_LOG_SIZE,
        ensures
            writer.wf(),
            writer == LogWriter::fresh(position),
    {
        LogWriter {
            start: position,
            head: position,
            from: position,
            reached: position,
            wrapped: false,
            reached_again: 0,
        }
    }

    /// Writes one more piece of the message.
    pub fn write(&mut self, text: &mut Vec<u8>, piece: &[u8])
        requires
            old(self).wf(),
            old(text)@.len() == MAX_LOG_SIZE,
            piece@.len() <= MAX_LOG_SIZE,
        ensures
            final(self).wf(),
            *final(self) == old(self).after(piece@.len() as int),
            final(text)@.len() == MAX_LOG_SIZE,
            final(text)@.subrange(final(self).start as int, final(self).head as int) == extended(
                old(text)@.subrange(old(self).start as int, old(self).head as int),
                piece@,
            ),
            forall|i: int|
                0 <= i < MAX_LOG_SIZE && !final(self).covers(i) ==> #[trigger] final(text)@[i]
                    == old(text)@[i],
            forall|i: int| #[trigger] old(self).covers(i) ==> final(self).covers(i),
    {
        let ghost first = text@;
        let ghost mut earlier = first.subrange(self.start as int, self.head as int);
        // Gone over the buffer end, time to wrap around.
        if piece.len() > MAX_LOG_SIZE - self.head {
            let length: usize = self.head - self.start;
            if piece.len() <= MAX_LOG_SIZE - length {
                // Copy the earlier parts of the message over the end of the buffer.
                let mut at: usize = self.start;
                while at < self.head
                    invariant
                        *self == *old(self),
                        self.wf(),
                        self.start <= at <= self.head,
                        text@.len() == MAX_LOG_SIZE,
                        first == old(text)@,
                        first.len() == MAX_LOG_SIZE,
                        forall|i: int|
                            0 <= i < at - self.start ==> #[trigger] text@[i] == first[self.start
                                + i],
                        forall|i: int|
                            at - self.start <= i < MAX_LOG_SIZE ==> #[trigger] text@[i] == first[i],
                    decreases self.head - at,
                {
                    let byte: u8 = text[at];
                    text.set(at - self.start, byte);
                    at = at + 1;
                }
                self.head = length;
                assert(text@.subrange(0, length as int) =~= earlier);
            } else {
                // The message is too long to be kept in one piece.
                self.head = 0;
                proof {
                    earlier = Seq::empty();
                }
                assert(text@.subrange(0, 0) =~= earlier);
            }
            self.start = 0;
            self.wrapped = true;
        }
        let ghost moved = text@;
        let old_head: usize = self.head;
        self.head = self.head + piece.len();
        if !self.wrapped {
            self.reached = self.head;
        } else if self.reached_again < self.head {
            self.reached_again = self.head;
        }
        let mut at: usize = 0;
        while at < piece.len()
            invariant
                at <= piece@.len(),
                old_head + piece@.len() <= MAX_LOG_SIZE,
                text@.len() == MAX_LOG_SIZE,
                moved.len() == MAX_LOG_SIZE,
                forall|i: int| 0 <= i < at ==> #[trigger] text@[old_head + i] == piece@[i],
                forall|i: int|
                    0 <= i < MAX_LOG_SIZE && !(old_head <= i < old_head + at) ==> #[trigger] text@[i]
                        == moved[i],
            decreases piece@.len() - at,
        {
            text.set(old_head + at, piece[at]);
            at = at + 1;
        }
        proof {
            let whole = text@.subrange(self.start as int, self.head as int);
            assert(moved.subrange(self.start as int, old_head as int) =~= earlier);
            assert forall|i: int| 0 <= i < whole.len() implies whole[i] == (earlier + piece@)[i] by {
                if i < earlier.len() {
                    assert(moved.subrange(self.start as int, old_head as int)[i] == earlier[i]);
                } else {
                    assert(text@[old_head + (i - earlier.len())] == piece@[i - earlier.len()]);
                }
            }
            assert(whole =~= earlier + piece@);
        }
    }
}

/// A text with one more piece: only the piece, if both together are too long.
pub open spec fn extended(text: Seq<u8>, piece: Seq<u8>) -> Seq<u8> {
    if text.len() + piece.len() <= MAX_LOG_SIZE {
        text + piece
    } else {
        piece
    }
}

/// As many of the last pieces as are kept of a message, one after the other.
pub open spec fn fitted(pieces: Seq<Seq<u8>>) -> Seq<u8>
    decreases pieces.len(),
{
    if pieces.len() == 0 {
        Seq::empty()
    } else {
        extended(fitted(pieces.drop_last()), pieces.last())
    }
}

/// All pieces, one after the other.
pub open spec fn joined(pieces: Seq<Seq<u8>>) -> Seq<u8>
    decreases pieces.len(),
{
    if pieces.len() == 0 {
        Seq::empty()
    } else {
        joined(pieces.drop_last()) + pieces.last()
    }
}

/// What a list of pieces holds.
pub open spec fn views(pieces: Seq<Vec<u8>>) -> Seq<Seq<u8>> {
    pieces.map_values(|piece: Vec<u8>| piece@)
}

/// Keeps log messages for display in a debug window.
///
/// Storing log messages is done
/// through a pair of ring buffers. One contains `Record`s, which
/// store the log level as well as the span of text. The other
/// contains just the text for messages, all in linear memory. When
/// text would extend past the end of the second ring buffer, it wraps
/// back to the beginning and overwrites previous messages. The
/// `Records` corresponding to any overwritten messages are then
/// removed.
#[derive(Debug)]
pub struct Logger {
    // Records are cheap, infrequent, and have a small fixed size, so just use VecDeque.
    records: VecDeque<Record>,
    // The actual text is unknown size though.
    text: Vec<u8>,
    // Current output position in the text buffer.
    head: usize,
}

impl Default for Logger {
    fn default() -> (logger: Logger)
        ensures
            logger.wf(),
            logger.messages() == Seq::<(Level, Seq<u8>)>::empty(),
            logger.position() == 0,
    {
        let mut text: Vec<u8> = Vec::new();
        while text.len() < MAX_LOG_SIZE
            invariant
                text@.len() <= MAX_LOG_SIZE,
            decreases MAX_LOG_SIZE - text@.len(),
        {
            text.push(0);
        }
        let logger = Logger { records: VecDeque::new(), text, head: 0 };
        assert(logger.messages() =~= Seq::<(Level, Seq<u8>)>::empty());
        logger
    }
}

/// The level and the text of a message.
pub open spec fn message(record: Record, text: Seq<u8>) -> (Level, Seq<u8>) {
    (record.level, text.subrange(record.start as int, record.end as int))
}

impl Logger {
    /// Where the messages are, the oldest first.
    pub closed spec fn spans(self) -> Seq<Record> {
        self.records@
    }

    /// The text buffer.
    pub closed spec fn buffer(self) -> Seq<u8> {
        self.text@
    }

    /// Where the next message is to be put.
    pub closed spec fn position(self) -> usize {
        self.head
    }

    /// The messages that are kept, with their terminators, the oldest first.
    pub open spec fn messages(self) -> Seq<(Level, Seq<u8>)> {
        self.spans().map_values(|record: Record| message(record, self.buffer()))
    }

    /// Messages are within the text, and no two of them overlap.
    pub open spec fn wf(self) -> bool {
        &&& self.buffer().len() == MAX_LOG_SIZE
        &&& self.position() <= MAX_LOG_SIZE
        &&& forall|i: int|
            0 <= i < self.spans().len() ==> (#[trigger] self.spans()[i]).start
                < self.spans()[i].end <= MAX_LOG_SIZE
        &&& forall|i: int, j: int|
            0 <= i < j < self.spans().len() ==> apart(
                #[trigger] self.spans()[i],
                #[trigger] self.spans()[j],
            )
    }

    /// The writer of the next message, before anything has been written.
    pub open spec fn writer(self) -> LogWriter {
        LogWriter::fresh(self.position())
    }

    /// The messages that are not overwritten by a writer.
    pub open spec fn spared(self, writer: LogWriter) -> Seq<(Level, Seq<u8>)> {
        self.spans().filter(|record: Record| writer.spares(record)).map_values(
            |record: Record| message(record, self.buffer()),
        )
    }

    /// Logs a message of which all pieces are given, unless it is not of interest.
    ///
    /// A null terminator is added. Messages whose text has been overwritten are no longer kept,
    /// and of a message that is too long for all of the text, only the last pieces are.
    ///
    /// Returns whether the message has been logged.
    pub fn log(&mut self, level: Level, filter: LevelFilter, pieces: &Vec<Vec<u8>>) -> (logged: bool)
        requires
            old(self).wf(),
            forall|i: int| 0 <= i < pieces@.len() ==> (#[trigger] pieces@[i])@.len() <= MAX_LOG_SIZE,
        ensures
            final(self).wf(),
            logged == (level.rank() <= filter.rank()),
            !logged ==> *final(self) == *old(self),
            logged ==> {
                let writer = old(self).writer().after_all(views(pieces@).push(seq![0u8]));
                &&& final(self).messages() == old(self).spared(writer).push(
                    (level, fitted(views(pieces@).push(seq![0u8]))),
                )
                &&& final(self).position() == writer.head
                &&& final(self).spans() == old(self).spans().filter(
                    |record: Record| writer.spares(record),
                ).push(Record { level, start: writer.start, end: writer.head })
            },
    {
        if !level.enabled(filter) {
            return false;
        }
        // Store message in the text buffer
        let mut writer = LogWriter::new(self.head);
        let ghost first = writer;
        let ghost all = views(pieces@);
        let mut at: usize = 0;
        assert(all.take(0) =~= Seq::<Seq<u8>>::empty());
        assert(self.text@.subrange(writer.start as int, writer.head as int) =~= Seq::<u8>::empty());
        while at < pieces.len()
            invariant
                at <= pieces@.len(),
                all == views(pieces@),
                forall|i: int|
                    0 <= i < pieces@.len() ==> (#[trigger] pieces@[i])@.len() <= MAX_LOG_SIZE,
                writer.wf(),
                writer == first.after_all(all.take(at as int)),
                writer.from == first.from,
                self.text@.len() == MAX_LOG_SIZE,
                old(self).text@.len() == MAX_LOG_SIZE,
                self.text@.subrange(writer.start as int, writer.head as int) == fitted(
                    all.take(at as int),
                ),
                forall|i: int|
                    0 <= i < MAX_LOG_SIZE && !writer.covers(i) ==> #[trigger] self.text@[i] == old(
                        self,
                    ).text@[i],
                self.records == old(self).records,
            decreases pieces@.len() - at,
        {
            proof {
                assert(all.take(at + 1).drop_last() =~= all.take(at as int));
                assert(all.take(at + 1).last() == pieces@[at as int]@);
            }
            let piece: &Vec<u8> = &pieces[at];
            writer.write(&mut self.text, piece.as_slice());
            at = at + 1;
        }
        // Include the null terminator.
        let terminator: Vec<u8> = vec![0u8];
        let ghost with_terminator = all.push(seq![0u8]);
        proof {
            assert(all.take(all.len() as int) =~= all);
            assert(with_terminator.drop_last() =~= all);
            assert(terminator@ =~= seq![0u8]);
        }
        writer.write(&mut self.text, terminator.as_slice());
        assert(writer == first.after_all(with_terminator));
        self.head = writer.head;

        // Clear out log messages intersecting the overwritten buffer space.
        let ghost before = self.records@;
        let mut kept: VecDeque<Record> = VecDeque::new();
        let mut next: usize = 0;
        reveal(Seq::filter);
        assert(before.take(0) =~= Seq::<Record>::empty());
        let ghost spares = |record: Record| writer.spares(record);
        while next < self.records.len()
            invariant
                next <= self.records@.len(),
                self.records@ == before,
                spares == (|record: Record| writer.spares(record)),
                kept@ == before.take(next as int).filter(spares),
            decreases self.records@.len() - next,
        {
            let record: Record = self.records[next];
            reveal(Seq::filter);
            assert(before.take(next + 1).drop_last() =~= before.take(next as int));
            assert(before.take(next + 1).last() == record);
            if (record.end <= writer.from || writer.reached <= record.start) && writer.reached_again
                <= record.start {
                kept.push_back(record);
            }
            next = next + 1;
        }
        assert(before.take(before.len() as int) =~= before);
        let ghost left = kept@;
        proof {
            lemma_filtered(before, spares);
        }
        kept.push_back(Record { level, start: writer.start, end: writer.head });
        self.records = kept;
        proof {
            let record = Record { level, start: writer.start, end: writer.head };
            assert(self.spans() =~= left.push(record));
            assert(writer.covers(writer.start as int)) by {
                assert(writer.len() == fitted(with_terminator).len());
            }
            assert forall|i: int| 0 <= i < left.len() implies message(
                #[trigger] left[i],
                self.text@,
            ) == message(left[i], old(self).text@) && apart(left[i], record) && left[i].start
                < left[i].end <= MAX_LOG_SIZE by {
                assert(spares(left[i]));
                let k = choose|k: int| 0 <= k < before.len() && before[k] == left[i];
                assert(before[k].start < before[k].end);
                assert(self.text@.subrange(left[i].start as int, left[i].end as int) =~= old(
                    self,
                ).text@.subrange(left[i].start as int, left[i].end as int)) by {
                    assert forall|b: int| left[i].start <= b < left[i].end implies #[trigger]
                        self.text@[b] == old(self).text@[b] by {
                        assert(!writer.covers(b));
                    }
                }
            }
            assert(self.messages() =~= old(self).spared(writer).push(
                (level, fitted(with_terminator)),
            ));
        }
        true
    }

    /// Returns the messages that are of interest with the given filter, the oldest first.
    pub fn shown(&self, filter: LevelFilter) -> (list: Vec<(Level, Vec<u8>)>)
        requires
            self.wf(),
        ensures
            list@.map_values(|entry: (Level, Vec<u8>)| (entry.0, entry.1@))
                == self.messages().filter(
                |entry: (Level, Seq<u8>)| entry.0.rank() <= filter.rank(),
            ),
    {
        let mut list: Vec<(Level, Vec<u8>)> = Vec::new();
        let ghost all = self.messages();
        let ghost of_interest = |entry: (Level, Seq<u8>)| entry.0.rank() <= filter.rank();
        let ghost seen = |entry: (Level, Vec<u8>)| (entry.0, entry.1@);
        let mut at: usize = 0;
        reveal(Seq::filter);
        assert(all.take(0) =~= Seq::<(Level, Seq<u8>)>::empty());
        assert(list@.map_values(seen) =~= Seq::<(Level, Seq<u8>)>::empty());
        while at < self.records.len()
            invariant
                self.wf(),
                at <= self.records@.len(),
                all == self.messages(),
                of_interest == (|entry: (Level, Seq<u8>)| entry.0.rank() <= filter.rank()),
                seen == (|entry: (Level, Vec<u8>)| (entry.0, entry.1@)),
                list@.map_values(seen) == all.take(at as int).filter(of_interest),
            decreases self.records@.len() - at,
        {
            let record: Record = self.records[at];
            reveal(Seq::filter);
            assert(record == self.spans()[at as int]);
            assert(all.take(at + 1).drop_last() =~= all.take(at as int));
            assert(all.take(at + 1).last() == message(record, self.buffer()));
            if record.level.enabled(filter) {
                let text: Vec<u8> = copied(&self.text, record.start, record.end);
                let ghost earlier = list@;
                let ghost entry = (record.level, text);
                list.push((record.level, text));
                assert(list@.map_values(seen) =~= earlier.map_values(seen).push(
                    message(record, self.buffer()),
                ));
            }
            at = at + 1;
        }
        assert(all.take(all.len() as int) =~= all);
        list
    }

    /// Returns the text of the most recent message, without its terminator.
    pub fn latest(&self) -> (text: Option<Vec<u8>>)
        requires
            self.wf(),
        ensures
            match text {
                Some(text) => self.messages().len() > 0 && text@
                    == self.messages().last().1.drop_last(),
                None => self.messages().len() == 0,
            },
    {
        if self.records.len() == 0 {
            return None;
        }
        let record: Record = self.records[self.records.len() - 1];
        assert(record == self.spans()[self.spans().len() - 1]);
        let text: Vec<u8> = copied(&self.text, record.start, record.end - 1);
        assert(text@ =~= self.messages().last().1.drop_last());
        Some(text)
    }
}

/// Copies a part of a text.
fn copied(text: &Vec<u8>, start: usize, end: usize) -> (copy: Vec<u8>)
    requires
        start <= end <= text@.len(),
    ensures
        copy@ == text@.subrange(start as int, end as int),
{
    let mut copy: Vec<u8> = Vec::new();
    let mut at: usize = start;
    while at < end
        invariant
            start <= at <= end <= text@.len(),
            copy@ =~= text@.subrange(start as int, at as int),
        decreases end - at,
    {
        copy.push(text[at]);
        at = at + 1;
    }
    copy
}

/// Whether two messages do not overlap.
pub open spec fn apart(a: Record, b: Record) -> bool {
    a.end <= b.start || b.end <= a.start
}

/// A message that is not too long for the text is kept with all of its pieces and its terminator.
pub proof fn law_short_messages_fit(pieces: Seq<Seq<u8>>)
    requires
        joined(pieces).len() < MAX_LOG_SIZE,
    ensures
        fitted(pieces.push(seq![0u8])) == joined(pieces).push(0u8),
{
    lemma_fitted(pieces);
    assert(pieces.push(seq![0u8]).drop_last() =~= pieces);
    assert(fitted(pieces.push(seq![0u8])) =~= joined(pieces).push(0u8));
}

proof fn lemma_fitted(pieces: Seq<Seq<u8>>)
    requires
        joined(pieces).len() <= MAX_LOG_SIZE,
    ensures
        fitted(pieces) == joined(pieces),
    decreases pieces.len(),
{
    if pieces.len() > 0 {
        lemma_fitted(pieces.drop_last());
    }
}

/// Filtering keeps the order: of two entries that are left, the same one comes first.
proof fn lemma_filtered(list: Seq<Record>, keep: spec_fn(Record) -> bool)
    ensures
        forall|i: int|
            0 <= i < list.filter(keep).len() ==> keep(#[trigger] list.filter(keep)[i])
                && list.contains(list.filter(keep)[i]),
        forall|i: int, j: int|
            0 <= i < j < list.filter(keep).len() ==> exists|k: int, l: int|
                0 <= k < l < list.len() && #[trigger] list[k] == (
                #[trigger] list.filter(keep)[i]) && #[trigger] list[l] == (
                #[trigger] list.filter(keep)[j]),
    decreases list.len(),
{
    reveal(Seq::filter);
    if list.len() > 0 {
        let front = list.drop_last();
        lemma_filtered(front, keep);
        let kept = list.filter(keep);
        let earlier = front.filter(keep);
        assert forall|i: int| 0 <= i < kept.len() implies keep(#[trigger] kept[i])
            && list.contains(kept[i]) by {
            if i < earlier.len() {
                assert(kept[i] == earlier[i]);
                let k = choose|k: int| 0 <= k < front.len() && front[k] == earlier[i];
                assert(list[k] == kept[i]);
            } else {
                assert(list[list.len() - 1] == kept[i]);
            }
        }
        assert forall|i: int, j: int| 0 <= i < j < kept.len() implies exists|k: int, l: int|
            0 <= k < l < list.len() && #[trigger] list[k] == (#[trigger] kept[i])
                && #[trigger] list[l] == (#[trigger] kept[j]) by {
            if j < earlier.len() {
                assert(earlier[i] == kept[i] && earlier[j] == kept[j]);
                let (k, l) = choose|k: int, l: int|
                    0 <= k < l < front.len() && #[trigger] front[k] == earlier[i]
                        && #[trigger] front[l] == earlier[j];
                assert(list[k] == kept[i] && list[l] == kept[j]);
            } else {
                assert(earlier[i] == kept[i]);
                let k = choose|k: int| 0 <= k < front.len() && front[k] == earlier[i];
                assert(list[k] == kept[i] && list[list.len() - 1] == kept[j]);
            }
        }
    }
}

/// When a message is logged, every other message that has been kept stays as it is if none of its
/// text is overwritten, and nothing but such messages is kept.
pub proof fn law_messages_stay_whole(logger: Logger, writer: LogWriter)
    requires
        logger.wf(),
    ensures
        forall|i: int|
            0 <= i < logger.spans().len() && writer.spares(#[trigger] logger.spans()[i])
                ==> logger.spared(writer).contains(logger.messages()[i]),
        forall|i: int|
            0 <= i < logger.spared(writer).len() ==> logger.messages().contains(
                #[trigger] logger.spared(writer)[i],
            ),
{
    let spares = |record: Record| writer.spares(record);
    let left = logger.spans().filter(spares);
    lemma_filtered(logger.spans(), spares);
    lemma_filter_keeps(logger.spans(), spares);
    assert forall|i: int|
        0 <= i < logger.spans().len() && writer.spares(
            #[trigger] logger.spans()[i],
        ) implies logger.spared(writer).contains(logger.messages()[i]) by {
        assert(spares(logger.spans()[i]));
        let k = choose|k: int| 0 <= k < left.len() && left[k] == logger.spans()[i];
        assert(logger.spared(writer)[k] == logger.messages()[i]);
    }
    assert forall|i: int| 0 <= i < logger.spared(writer).len() implies logger.messages().contains(
        #[trigger] logger.spared(writer)[i],
    ) by {
        assert(logger.spans().contains(left[i]));
        let k = choose|k: int| 0 <= k < logger.spans().len() && logger.spans()[k] == left[i];
        assert(logger.messages()[k] == logger.spared(writer)[i]);
    }
}

proof fn lemma_filter_keeps(list: Seq<Record>, keep: spec_fn(Record) -> bool)
    ensures
        forall|i: int|
            0 <= i < list.len() && keep(#[trigger] list[i]) ==> list.filter(keep).contains(list[i]),
    decreases list.len(),
{
    reveal(Seq::filter);
    if list.len() > 0 {
        let front = list.drop_last();
        lemma_filter_keeps(front, keep);
        assert forall|i: int| 0 <= i < list.len() && keep(#[trigger] list[i]) implies list.filter(
            keep,
        ).contains(list[i]) by {
            if i < front.len() {
                assert(front[i] == list[i]);
                let k = choose|k: int|
                    0 <= k < front.filter(keep).len() && front.filter(keep)[k] == list[i];
                assert(list.filter(keep)[k] == list[i]);
            } else {
                assert(list.filter(keep)[front.filter(keep).len() as int] == list[i]);
            }
        }
    }
}

} // verus!
