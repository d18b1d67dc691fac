//! What the log keeps and shows, said of the results of operations alone.

use vstd::prelude::*;

use crate::logger::{
    fitted, joined, law_messages_stay_whole, law_short_messages_fit, views, Level, LevelFilter,
    LogWriter, Logger,
};

verus! {

/// A message is of interest if it is at least as severe as the filter says: errors first, then
/// warnings, information, debugging and tracing.
pub proof fn law_severity(level: Level, filter: LevelFilter, enabled: bool)
    requires
        call_ensures(Level::enabled, (level, filter), enabled),
    ensures
        filter == LevelFilter::Off ==> !enabled,
        filter == LevelFilter::Error ==> (enabled <==> level == Level::Error),
        filter == LevelFilter::Warn ==> (enabled <==> level == Level::Error || level
            == Level::Warn),
        filter == LevelFilter::Info ==> (enabled <==> level != Level::Debug && level
            != Level::Trace),
        filter == LevelFilter::Debug ==> (enabled <==> level != Level::Trace),
        filter == LevelFilter::Trace ==> enabled,
{
}

/// What a message says: all of its pieces, one after the other.
pub open spec fn text_of(pieces: Seq<Vec<u8>>) -> Seq<u8> {
    Seq::new(pieces.len(), |i: int| pieces[i]@).flatten()
}

proof fn lemma_joined(pieces: Seq<Seq<u8>>)
    ensures
        joined(pieces) == pieces.flatten_alt(),
    decreases pieces.len(),
{
    if pieces.len() > 0 {
        lemma_joined(pieces.drop_last());
    }
}

proof fn lemma_text(pieces: Seq<Vec<u8>>)
    ensures
        joined(views(pieces)) == text_of(pieces),
{
    assert(views(pieces) =~= Seq::new(pieces.len(), |i: int| pieces[i]@));
    lemma_joined(views(pieces));
    views(pieces).lemma_flatten_and_flatten_alt_are_equivalent();
}

/// A message that is of interest and fits is logged, and is then the latest one: all of its pieces,
/// one after the other.
pub proof fn law_logged_is_latest(
    logger: &mut Logger,
    level: Level,
    filter: LevelFilter,
    pieces: Vec<Vec<u8>>,
    enabled: bool,
    logged: bool,
    latest: Option<Vec<u8>>,
)
    requires
        call_ensures(Logger::log, (logger, level, filter, &pieces), logged),
        call_ensures(Level::enabled, (level, filter), enabled),
        call_ensures(Logger::latest, (final(logger),), latest),
        text_of(pieces@).len() < 524_288,
    ensures
        logged == enabled,
        logged ==> latest is Some && latest->0@ == text_of(pieces@),
        !logged ==> *final(logger) == *old(logger),
{
    lemma_text(pieces@);
    law_short_messages_fit(views(pieces@));
    if logged {
        assert(final(logger).messages().last().1.drop_last() =~= text_of(pieces@));
    }
}

/// Nothing is logged at first.
pub proof fn law_log_starts_empty(
    logger: Logger,
    filter: LevelFilter,
    latest: Option<Vec<u8>>,
    list: Vec<(Level, Vec<u8>)>,
)
    requires
        call_ensures(<Logger as Default>::default, (), logger),
        call_ensures(Logger::latest, (&logger,), latest),
        call_ensures(Logger::shown, (&logger, filter), list),
    ensures
        latest is None,
        list@.len() == 0,
{
    reveal(Seq::filter);
    let seen = |entry: (Level, Vec<u8>)| (entry.0, entry.1@);
    assert(list@.map_values(seen).len() == 0);
}

/// The messages that are shown are those that are of interest, and no others. The one that was logged
/// last is shown last, with its terminator, if it is of interest.
pub proof fn law_shown_messages(
    logger: &mut Logger,
    level: Level,
    filter: LevelFilter,
    pieces: Vec<Vec<u8>>,
    wanted: LevelFilter,
    enabled: bool,
    list: Vec<(Level, Vec<u8>)>,
)
    requires
        call_ensures(Logger::log, (logger, level, filter, &pieces), true),
        call_ensures(Logger::shown, (final(logger), wanted), list),
        call_ensures(Level::enabled, (level, wanted), enabled),
        text_of(pieces@).len() < 524_288,
    ensures
        enabled ==> {
            &&& list@.len() > 0
            &&& list@.last().0 == level
            &&& list@.last().1@ == text_of(pieces@).push(0u8)
        },
        forall|i: int, interest: bool|
            #![trigger call_ensures(Level::enabled, (list@[i].0, wanted), interest)]
            0 <= i < list@.len() && call_ensures(Level::enabled, (list@[i].0, wanted), interest)
                ==> interest,
{
    lemma_text(pieces@);
    law_short_messages_fit(views(pieces@));
    let of_interest = |entry: (Level, Seq<u8>)| entry.0.rank() <= wanted.rank();
    let seen = |entry: (Level, Vec<u8>)| (entry.0, entry.1@);
    let all = final(logger).messages();
    if enabled {
        lemma_last_kept(all, of_interest);
    }
    lemma_all_kept(all, of_interest);
    assert(list@.map_values(seen) == all.filter(of_interest));
    assert(list@.map_values(seen).len() == list@.len());
    if enabled {
        assert(list@.map_values(seen)[list@.len() - 1] == all.last());
    }
    assert forall|i: int, interest: bool|
        #![trigger call_ensures(Level::enabled, (list@[i].0, wanted), interest)]
        0 <= i < list@.len() && call_ensures(
            Level::enabled,
            (list@[i].0, wanted),
            interest,
        ) implies interest by {
        assert(of_interest(all.filter(of_interest)[i]));
        assert(list@.map_values(seen)[i].0 == list@[i].0);
    }
}

proof fn lemma_last_kept<A>(list: Seq<A>, keep: spec_fn(A) -> bool)
    requires
        list.len() > 0,
        keep(list.last()),
    ensures
        list.filter(keep).len() > 0,
        list.filter(keep).last() == list.last(),
{
    reveal(Seq::filter);
}

proof fn lemma_all_kept<A>(list: Seq<A>, keep: spec_fn(A) -> bool)
    ensures
        forall|i: int| 0 <= i < list.filter(keep).len() ==> keep(#[trigger] list.filter(keep)[i]),
    decreases list.len(),
{
    reveal(Seq::filter);
    if list.len() > 0 {
        lemma_all_kept(list.drop_last(), keep);
    }
}

proof fn lemma_one_lap(writer: LogWriter, pieces: Seq<Seq<u8>>)
    requires
        writer == LogWriter::fresh(writer.start),
        writer.start + joined(pieces).len() <= 524_288,
    ensures
        writer.after_all(pieces) == (LogWriter {
            head: (writer.start + joined(pieces).len()) as usize,
            reached: (writer.start + joined(pieces).len()) as usize,
            ..writer
        }),
    decreases pieces.len(),
{
    if pieces.len() > 0 {
        lemma_one_lap(writer, pieces.drop_last());
    }
}

/// A message that fits in what is left of the text goes there, and the next one goes right behind it.
/// Every message that it does not overwrite is still kept, as it was.
pub proof fn law_other_messages_stay(
    logger: &mut Logger,
    level: Level,
    filter: LevelFilter,
    pieces: Vec<Vec<u8>>,
    i: int,
)
    requires
        call_ensures(Logger::log, (logger, level, filter, &pieces), true),
        old(logger).wf(),
        old(logger).position() + text_of(pieces@).len() + 1 <= 524_288,
        0 <= i < old(logger).spans().len(),
        old(logger).spans()[i].end <= old(logger).position() || old(logger).position() + text_of(
            pieces@,
        ).len() + 1 <= old(logger).spans()[i].start,
    ensures
        final(logger).position() == old(logger).position() + text_of(pieces@).len() + 1,
        final(logger).messages().contains(old(logger).messages()[i]),
        final(logger).spans().last().start == old(logger).position(),
        final(logger).spans().last().end == final(logger).position(),
{
    lemma_text(pieces@);
    let all = views(pieces@).push(seq![0u8]);
    assert(all.drop_last() =~= views(pieces@));
    let start = old(logger).writer();
    lemma_one_lap(start, all);
    let writer = start.after_all(all);
    law_messages_stay_whole(*old(logger), writer);
    assert(writer.spares(old(logger).spans()[i]));
    let kept = old(logger).spared(writer);
    let one = old(logger).messages()[i];
    assert(kept.contains(one));
    let k = choose|k: int| 0 <= k < kept.len() && kept[k] == one;
    assert(final(logger).messages()[k] == one);
}

/// A message that does not fit in what is left of the text, but in all of it, goes to its beginning.
pub proof fn law_log_wraps_around(
    logger: &mut Logger,
    level: Level,
    filter: LevelFilter,
    pieces: Vec<Vec<u8>>,
)
    requires
        call_ensures(Logger::log, (logger, level, filter, &pieces), true),
        old(logger).wf(),
        pieces@.len() == 1,
        old(logger).position() + pieces@[0]@.len() > 524_288,
        pieces@[0]@.len() < 524_288,
    ensures
        final(logger).position() == pieces@[0]@.len() + 1,
        final(logger).spans().last().start == 0,
        final(logger).messages().last().1 == pieces@[0]@.push(0u8),
{
    let all = views(pieces@).push(seq![0u8]);
    let first = views(pieces@);
    assert(all.drop_last() =~= first);
    assert(first.drop_last() =~= Seq::<Seq<u8>>::empty());
    assert(first.last() == pieces@[0]@);
    let start = old(logger).writer();
    assert(start.after_all(first.drop_last()) == start);
    assert(start.after_all(first) == start.after(pieces@[0]@.len() as int));
    assert(fitted(first.drop_last()) == Seq::<u8>::empty());
    assert(fitted(first) =~= pieces@[0]@);
    assert(fitted(all) =~= pieces@[0]@.push(0u8));
}

/// Two messages that are logged one after the other, and both fit in what is left of the text, are
/// both kept.
pub proof fn law_both_are_kept(
    first: &mut Logger,
    second: &mut Logger,
    level: Level,
    other: Level,
    filter: LevelFilter,
    pieces: Vec<Vec<u8>>,
    more: Vec<Vec<u8>>,
)
    requires
        call_ensures(Logger::log, (first, level, filter, &pieces), true),
        call_ensures(Logger::log, (second, other, filter, &more), true),
        *old(second) == *final(first),
        old(first).wf(),
        old(first).position() + text_of(pieces@).len() + text_of(more@).len() + 2 <= 524_288,
    ensures
        final(second).messages().last() == (other, text_of(more@).push(0u8)),
        final(second).messages().contains((level, text_of(pieces@).push(0u8))),
{
    lemma_text(pieces@);
    lemma_text(more@);
    law_short_messages_fit(views(pieces@));
    law_short_messages_fit(views(more@));
    let all = views(pieces@).push(seq![0u8]);
    assert(all.drop_last() =~= views(pieces@));
    lemma_one_lap(old(first).writer(), all);
    let last = old(second).spans().len() - 1;
    assert(old(second).spans()[last] == old(second).spans().last());
    assert(old(second).messages()[last] == old(second).messages().last());
    let rest = views(more@).push(seq![0u8]);
    assert(rest.drop_last() =~= views(more@));
    lemma_one_lap(old(second).writer(), rest);
    let writer = old(second).writer().after_all(rest);
    law_messages_stay_whole(*old(second), writer);
    assert(writer.spares(old(second).spans()[last]));
    let kept = old(second).spared(writer);
    let one = old(second).messages()[last];
    assert(kept.contains(one));
    let k = choose|k: int| 0 <= k < kept.len() && kept[k] == one;
    assert(final(second).messages()[k] == one);
}

/// Only messages whose text has not been overwritten are kept: none of those that are kept overlap.
pub proof fn law_no_message_is_damaged(
    logger: &mut Logger,
    level: Level,
    filter: LevelFilter,
    pieces: Vec<Vec<u8>>,
    logged: bool,
)
    requires
        call_ensures(Logger::log, (logger, level, filter, &pieces), logged),
    ensures
        forall|i: int, j: int|
            0 <= i < j < final(logger).spans().len() ==> (
            #[trigger] final(logger).spans()[i]).end <= (#[trigger] final(logger).spans()[j]).start
                || final(logger).spans()[j].end <= final(logger).spans()[i].start,
        forall|i: int|
            0 <= i < final(logger).messages().len() ==> (
            #[trigger] final(logger).messages()[i]).1 == final(logger).buffer().subrange(
                final(logger).spans()[i].start as int,
                final(logger).spans()[i].end as int,
            ),
{
}

} // verus!
