//! Re-slicing a NAR stream for a negotiated upload.
use bytes::Bytes;
use vstd::prelude::*;

use crate::api::upload_path::{
    concatenated, inline_body, law_body_is_the_inline_data, law_joined_pieces, ChunkManifestEntry,
};
use crate::byte_buf::{
    bytes_advance, bytes_as_slice, bytes_from_vec, bytes_len, bytes_new, bytes_of,
};
use crate::text::{concat3, decimal, decimal_text};

verus! {

/// Turns a stream of byte vectors into a reader that can be asked for any number of bytes.
///
/// What a read does not take of a vector is left over for the next read.
#[derive(Debug)]
pub struct StreamAsyncReader {
    leftover: Bytes,
}

impl View for StreamAsyncReader {
    type V = Seq<u8>;

    closed spec fn view(&self) -> Seq<u8> {
        bytes_of(self.leftover)
    }
}

impl StreamAsyncReader {
    /// A reader that has been given nothing yet.
    pub fn new() -> (r: StreamAsyncReader)
        ensures
            r@ == Seq::<u8>::empty(),
    {
        StreamAsyncReader { leftover: bytes_new() }
    }

    /// Hands over the stream's next item. There is nothing left of the one before.
    pub fn refill(&mut self, data: Vec<u8>)
        requires
            old(self)@.len() == 0,
        ensures
            final(self)@ == data@,
    {
        self.leftover = bytes_from_vec(data);
    }

    /// Whether the stream has to be asked for its next item before a read can go on.
    pub fn is_empty(&self) -> (r: bool)
        ensures
            r == (self@.len() == 0),
    {
        bytes_len(&self.leftover) == 0
    }

    /// Moves as much as there is, but at most `room` bytes, to the end of `buf`.
    pub fn read(&mut self, buf: &mut Vec<u8>, room: usize)
        ensures
            ({
                let n = if room < old(self)@.len() {
                    room as int
                } else {
                    old(self)@.len() as int
                };
                &&& final(buf)@ == old(buf)@ + old(self)@.take(n)
                &&& final(self)@ == old(self)@.skip(n)
            }),
    {
        let available: usize = bytes_len(&self.leftover);
        let n: usize = if room < available {
            room
        } else {
            available
        };
        let data = bytes_as_slice(&self.leftover);
        let mut i: usize = 0;
        proof {
            assert(buf@ =~= old(buf)@ + data@.take(0));
        }
        while i < n
            invariant
                i <= n <= data@.len(),
                buf@ == old(buf)@ + data@.take(i as int),
            decreases n - i,
        {
            buf.push(data[i]);
            i = i + 1;
            proof {
                assert(data@.take(i as int) =~= data@.take(i - 1).push(data@[i - 1]));
                assert(buf@ =~= old(buf)@ + data@.take(i as int));
            }
        }
        bytes_advance(&mut self.leftover, n);
    }
}

/// What came of polling the stream.
#[derive(Debug)]
pub enum StreamPoll {
    /// Its next item.
    Item(Vec<u8>),

    /// An error in place of an item.
    Failed,

    /// The end.
    Ended,

    /// Nothing yet.
    Pending,
}

/// What a poll of a reader comes to.
#[derive(Clone, Copy, Debug, PartialEq, Eq, Structural)]
pub enum ReadStep {
    /// The stream has to be polled first.
    PollStream,

    /// The bytes are in the buffer. That there are none means the end.
    Ready,

    /// The stream failed.
    Failed,

    /// There is nothing to read yet.
    Pending,
}

/// The bytes of an item; none if it was no item that came of a poll.
pub open spec fn item_of(polled: Option<StreamPoll>) -> Seq<u8> {
    match polled {
        Some(StreamPoll::Item(item)) => item@,
        _ => Seq::empty(),
    }
}

/// What a reader with `leftover` does when there is room for `room` bytes: the step, the bytes that go
/// into the buffer, and what is left over. `polled` is what came of polling the stream, which is done
/// when nothing is left over.
pub open spec fn read_step(leftover: Seq<u8>, polled: Option<StreamPoll>, room: usize) -> (
    ReadStep,
    Seq<u8>,
    Seq<u8>,
) {
    let data = leftover + item_of(polled);
    if data.len() > 0 {
        let n = if room < data.len() {
            room as int
        } else {
            data.len() as int
        };
        (ReadStep::Ready, data.take(n), data.skip(n))
    } else {
        let step = match polled {
            None => ReadStep::PollStream,
            Some(StreamPoll::Item(item)) => ReadStep::PollStream,
            Some(StreamPoll::Failed) => ReadStep::Failed,
            Some(StreamPoll::Ended) => ReadStep::Ready,
            Some(StreamPoll::Pending) => ReadStep::Pending,
        };
        (step, Seq::empty(), Seq::empty())
    }
}

impl StreamAsyncReader {
    /// Polls the reader for at most `room` bytes, which go to the end of `buf`.
    ///
    /// If the stream has to be polled first, the reader is polled again with what came of that.
    pub fn poll_read(
        &mut self,
        polled: Option<StreamPoll>,
        buf: &mut Vec<u8>,
        room: usize,
    ) -> (r: ReadStep)
        requires
            polled is Some ==> old(self)@.len() == 0,
        ensures
            ({
                let (step, filled, leftover) = read_step(old(self)@, polled, room);
                &&& r == step
                &&& final(buf)@ == old(buf)@ + filled
                &&& final(self)@ == leftover
            }),
    {
        let empty_step = match polled {
            Some(StreamPoll::Item(item)) => {
                self.refill(item);
                ReadStep::PollStream
            },
            Some(StreamPoll::Failed) => ReadStep::Failed,
            Some(StreamPoll::Ended) => ReadStep::Ready,
            Some(StreamPoll::Pending) => ReadStep::Pending,
            None => ReadStep::PollStream,
        };
        proof {
            assert(self@ =~= old(self)@ + item_of(polled));
        }
        if self.is_empty() {
            proof {
                assert(self@ =~= Seq::<u8>::empty());
                assert(buf@ =~= old(buf)@ + Seq::<u8>::empty());
            }
            empty_step
        } else {
            self.read(buf, room);
            ReadStep::Ready
        }
    }
}

/// What a poll of a reader came to, and what is left afterwards.
pub struct PollOutcome {
    pub step: ReadStep,

    /// The bytes that went into the buffer.
    pub filled: Seq<u8>,

    /// What is left over.
    pub leftover: Seq<u8>,

    /// What is still to come of polling the stream.
    pub events: Seq<StreamPoll>,
}

/// What a poll of a reader with `leftover` comes to, when the stream was polled with the result
/// `polled` if at all, further polls of it give `events` one by one, and then it has ended.
pub open spec fn poll_of(
    leftover: Seq<u8>,
    polled: Option<StreamPoll>,
    events: Seq<StreamPoll>,
    room: usize,
) -> PollOutcome
    decreases events.len(),
{
    let (step, filled, rest) = read_step(leftover, polled, room);
    if step != ReadStep::PollStream {
        PollOutcome { step, filled, leftover: rest, events }
    } else if events.len() > 0 {
        poll_of(rest, Some(events[0]), events.drop_first(), room)
    } else {
        let (step, filled, rest) = read_step(rest, Some(StreamPoll::Ended), room);
        PollOutcome { step, filled, leftover: rest, events }
    }
}

/// The outcomes of polling a reader again and again, with room for `rooms[i]` bytes each time.
pub open spec fn poll_outcomes(
    leftover: Seq<u8>,
    events: Seq<StreamPoll>,
    rooms: Seq<usize>,
) -> Seq<PollOutcome>
    decreases rooms.len(),
{
    if rooms.len() == 0 {
        Seq::empty()
    } else {
        let first = poll_of(leftover, None, events, rooms[0]);
        seq![first] + poll_outcomes(first.leftover, first.events, rooms.drop_first())
    }
}

/// The bytes filled in over all polls, joined.
pub open spec fn filled_in(outcomes: Seq<PollOutcome>) -> Seq<u8>
    decreases outcomes.len(),
{
    if outcomes.len() == 0 {
        Seq::empty()
    } else {
        outcomes[0].filled + filled_in(outcomes.drop_first())
    }
}

/// The items among what comes of polling a stream, joined.
pub open spec fn items_of(events: Seq<StreamPoll>) -> Seq<u8>
    decreases events.len(),
{
    if events.len() == 0 {
        Seq::empty()
    } else {
        item_of(Some(events[0])) + items_of(events.drop_first())
    }
}

/// The outcome is the end of the data.
pub open spec fn is_end(outcome: PollOutcome) -> bool {
    outcome.step == ReadStep::Ready && outcome.filled.len() == 0
}

/// How much of `events` has been used up when an outcome is reached.
pub open spec fn used_up(events: Seq<StreamPoll>, outcome: PollOutcome) -> int {
    events.len() - outcome.events.len()
}

/// An outcome is what it should be after `events`: the end only when they are all used up, and
/// an error or a delay only if it is the last that came of the stream and nothing is left over.
pub open spec fn is_faithful(events: Seq<StreamPoll>, outcome: PollOutcome) -> bool {
    let used = used_up(events, outcome);
    &&& 0 <= used <= events.len()
    &&& outcome.events == events.skip(used)
    &&& outcome.step != ReadStep::PollStream
    &&& outcome.step != ReadStep::Ready ==> outcome.filled.len() == 0
    &&& is_end(outcome) || outcome.step != ReadStep::Ready ==> outcome.leftover.len() == 0
    &&& is_end(outcome) ==> used == events.len()
    &&& outcome.step == ReadStep::Failed ==> used > 0 && events[used - 1] is Failed
    &&& outcome.step == ReadStep::Pending ==> used > 0 && events[used - 1] is Pending
}

/// The stream ends only after `events`.
pub open spec fn ends_after(events: Seq<StreamPoll>) -> bool {
    forall|i: int| 0 <= i < events.len() ==> !((#[trigger] events[i]) is Ended)
}

proof fn lemma_items_split(events: Seq<StreamPoll>, n: int)
    requires
        0 <= n <= events.len(),
    ensures
        items_of(events) == items_of(events.take(n)) + items_of(events.skip(n)),
    decreases n,
{
    if n == 0 {
        assert(events.skip(0) =~= events);
        assert(items_of(events) =~= items_of(events.take(0)) + items_of(events));
    } else {
        let rest = events.drop_first();
        lemma_items_split(rest, n - 1);
        assert(events.take(n).drop_first() =~= rest.take(n - 1));
        assert(events.skip(n) =~= rest.skip(n - 1));
        assert(items_of(events) =~= items_of(events.take(n)) + items_of(events.skip(n)));
    }
}

proof fn lemma_faithful_before(first: StreamPoll, events: Seq<StreamPoll>, outcome: PollOutcome)
    requires
        is_faithful(events, outcome),
    ensures
        is_faithful(seq![first] + events, outcome),
        used_up(seq![first] + events, outcome) == used_up(events, outcome) + 1,
{
    let all = seq![first] + events;
    let used = used_up(events, outcome);
    assert(events.skip(used) =~= all.skip(used + 1));
    if used > 0 {
        assert(events[used - 1] == all[used]);
    }
}

proof fn lemma_items_from_front(first: StreamPoll, events: Seq<StreamPoll>)
    ensures
        items_of(seq![first] + events) == item_of(Some(first)) + items_of(events),
{
    let all = seq![first] + events;
    assert(all.drop_first() =~= events);
    assert(all[0] == first);
}

/// Like `lemma_poll`, when the stream has just been polled.
proof fn lemma_poll_after(polled: StreamPoll, events: Seq<StreamPoll>, room: usize)
    requires
        room > 0,
        !(polled is Ended),
        ends_after(events),
    ensures
        ({
            let all = seq![polled] + events;
            let outcome = poll_of(Seq::empty(), Some(polled), events, room);
            &&& outcome.filled + outcome.leftover + items_of(outcome.events) == items_of(all)
            &&& is_faithful(all, outcome)
            &&& used_up(all, outcome) > 0
        }),
    decreases events.len(),
{
    let all = seq![polled] + events;
    let none = Seq::<u8>::empty();
    let outcome = poll_of(none, Some(polled), events, room);
    let data = item_of(Some(polled));
    assert(none + data =~= data);
    lemma_items_from_front(polled, events);
    if data.len() == 0 && polled is Item {
        assert(data + items_of(events) =~= items_of(events));
        if events.len() > 0 {
            let rest = events.drop_first();
            assert forall|i: int| 0 <= i < rest.len() implies !((#[trigger] rest[i]) is Ended) by {
                assert(!(events[i + 1] is Ended));
            }
            assert(!(events[0] is Ended));
            lemma_poll_after(events[0], rest, room);
            assert(seq![events[0]] + rest =~= events);
            assert(outcome == poll_of(none, Some(events[0]), rest, room));
            lemma_faithful_before(polled, events, outcome);
        } else {
            assert(none + none =~= none);
            assert(all.skip(1) =~= events);
            assert(outcome.filled == none && outcome.leftover == none && outcome.events == events);
        }
    } else {
        assert(all.skip(1) =~= events);
        assert(all[0] == polled);
        assert(outcome.events == events);
        if data.len() > 0 {
            assert(outcome.filled + outcome.leftover =~= data);
        } else {
            assert(data =~= none);
            assert(none + none =~= none);
            assert(outcome.filled == none && outcome.leftover == none);
        }
    }
}

proof fn lemma_poll(leftover: Seq<u8>, events: Seq<StreamPoll>, room: usize)
    requires
        room > 0,
        ends_after(events),
    ensures
        ({
            let outcome = poll_of(leftover, None, events, room);
            &&& outcome.filled + outcome.leftover + items_of(outcome.events) == leftover + items_of(
                events,
            )
            &&& is_faithful(events, outcome)
            &&& outcome.filled.len() > 0 || used_up(events, outcome) > 0 || is_end(outcome)
        }),
{
    let outcome = poll_of(leftover, None, events, room);
    assert(events.skip(0) =~= events);
    assert(leftover + item_of(None) =~= leftover);
    if leftover.len() > 0 {
        assert(outcome.filled + outcome.leftover =~= leftover);
    } else {
        assert(leftover =~= Seq::<u8>::empty());
        assert(leftover + items_of(events) =~= items_of(events));
        if events.len() > 0 {
            let rest = events.drop_first();
            assert forall|i: int| 0 <= i < rest.len() implies !((#[trigger] rest[i]) is Ended) by {
                assert(!(events[i + 1] is Ended));
            }
            assert(!(events[0] is Ended));
            lemma_poll_after(events[0], rest, room);
            assert(seq![events[0]] + rest =~= events);
        } else {
            assert(outcome.filled + outcome.leftover + items_of(outcome.events)
                =~= Seq::<u8>::empty());
        }
    }
}

proof fn lemma_polls(leftover: Seq<u8>, events: Seq<StreamPoll>, rooms: Seq<usize>, i: int)
    requires
        forall|k: int| 0 <= k < rooms.len() ==> #[trigger] rooms[k] > 0,
        ends_after(events),
        0 <= i < rooms.len(),
    ensures
        ({
            let outcomes = poll_outcomes(leftover, events, rooms);
            &&& outcomes.len() == rooms.len()
            &&& is_faithful(events, outcomes[i])
            &&& filled_in(outcomes.take(i + 1)) + outcomes[i].leftover + items_of(outcomes[i].events)
                == leftover + items_of(events)
        }),
    decreases rooms.len(),
{
    assert(rooms[0] > 0);
    lemma_poll(leftover, events, rooms[0]);
    let first = poll_of(leftover, None, events, rooms[0]);
    let later = poll_outcomes(first.leftover, first.events, rooms.drop_first());
    let outcomes = poll_outcomes(leftover, events, rooms);
    assert(outcomes[0] == first);
    let used = used_up(events, first);
    assert forall|k: int| 0 <= k < first.events.len() implies !(
    (#[trigger] first.events[k]) is Ended) by {
        assert(!(events[k + used] is Ended));
    }
    assert forall|k: int| 0 <= k < rooms.drop_first().len() implies #[trigger] rooms.drop_first()[k]
        > 0 by {
        assert(rooms[k + 1] > 0);
    }
    if rooms.len() > 1 {
        lemma_polls(
            first.leftover,
            first.events,
            rooms.drop_first(),
            if i > 0 {
                i - 1
            } else {
                0
            },
        );
    }
    assert(outcomes.take(i + 1)[0] == first);
    if i == 0 {
        reveal_with_fuel(filled_in, 2);
        assert(outcomes.take(1).drop_first() =~= Seq::<PollOutcome>::empty());
        assert(filled_in(outcomes.take(1)) =~= first.filled);
    } else {
        assert(outcomes[i] == later[i - 1]);
        assert(outcomes.take(i + 1).drop_first() =~= later.take(i));
        let o = outcomes[i];
        let total = used_up(events, o);
        assert(first.events.skip(used_up(first.events, o)) =~= events.skip(total));
        if used_up(first.events, o) > 0 {
            assert(first.events[used_up(first.events, o) - 1] == events[total - 1]);
        }
        assert(filled_in(outcomes.take(i + 1)) + o.leftover + items_of(o.events) =~= first.filled + (
        filled_in(later.take(i)) + o.leftover + items_of(o.events)));
        assert(first.filled + (first.leftover + items_of(first.events)) =~= first.filled
            + first.leftover + items_of(first.events));
    }
}

proof fn lemma_polls_reach_end(leftover: Seq<u8>, events: Seq<StreamPoll>, rooms: Seq<usize>) -> (i:
    int)
    requires
        forall|k: int| 0 <= k < rooms.len() ==> #[trigger] rooms[k] > 0,
        ends_after(events),
        rooms.len() > leftover.len() + items_of(events).len() + events.len(),
    ensures
        0 <= i < rooms.len(),
        poll_outcomes(leftover, events, rooms).len() == rooms.len(),
        is_end(poll_outcomes(leftover, events, rooms)[i]),
    decreases rooms.len(),
{
    assert(rooms[0] > 0);
    lemma_polls(leftover, events, rooms, 0);
    lemma_poll(leftover, events, rooms[0]);
    let first = poll_of(leftover, None, events, rooms[0]);
    let outcomes = poll_outcomes(leftover, events, rooms);
    assert(outcomes[0] == first);
    if is_end(first) {
        0
    } else {
        let used = used_up(events, first);
        assert forall|k: int| 0 <= k < first.events.len() implies !(
        (#[trigger] first.events[k]) is Ended) by {
            assert(!(events[k + used] is Ended));
        }
        assert forall|k: int|
            0 <= k < rooms.drop_first().len() implies #[trigger] rooms.drop_first()[k] > 0 by {
            assert(rooms[k + 1] > 0);
        }
        assert((first.filled + first.leftover + items_of(first.events)).len() == (leftover
            + items_of(events)).len());
        let i = lemma_polls_reach_end(first.leftover, first.events, rooms.drop_first());
        assert(outcomes[i + 1] == poll_outcomes(
            first.leftover,
            first.events,
            rooms.drop_first(),
        )[i]);
        i + 1
    }
}

/// The bytes that a reader gives, joined, are the stream's items, joined, however much is asked for
/// each time: whatever has been read is the beginning of the items, and at the end it is all of them.
/// The end comes if the reader is polled often enough, and only after the end of the stream: an empty
/// item is not taken for it.
pub proof fn law_reads_joined_are_the_items_joined(
    events: Seq<StreamPoll>,
    rooms: Seq<usize>,
    i: int,
)
    requires
        forall|k: int| 0 <= k < rooms.len() ==> #[trigger] rooms[k] > 0,
        ends_after(events),
        0 <= i < rooms.len(),
    ensures
        ({
            let outcomes = poll_outcomes(Seq::empty(), events, rooms);
            &&& outcomes.len() == rooms.len()
            &&& filled_in(outcomes.take(i + 1)).is_prefix_of(items_of(events))
            &&& is_end(outcomes[i]) ==> filled_in(outcomes.take(i + 1)) == items_of(events)
                && outcomes[i].events.len() == 0
            &&& rooms.len() > items_of(events).len() + events.len() ==> exists|e: int|
                0 <= e < outcomes.len() && is_end(#[trigger] outcomes[e])
        }),
{
    lemma_polls(Seq::empty(), events, rooms, i);
    let outcomes = poll_outcomes(Seq::empty(), events, rooms);
    let o = outcomes[i];
    let filled = filled_in(outcomes.take(i + 1));
    assert(Seq::<u8>::empty() + items_of(events) =~= items_of(events));
    assert(items_of(events).subrange(0, filled.len() as int) =~= filled);
    if is_end(o) {
        assert(filled + o.leftover + items_of(o.events) =~= filled);
    }
    if rooms.len() > items_of(events).len() + events.len() {
        let e = lemma_polls_reach_end(Seq::empty(), events, rooms);
    }
}

/// An error of the stream, and that there is nothing yet, are passed on when all the bytes before it
/// have been read, and at no other time.
pub proof fn law_errors_and_delays_are_passed_on(
    events: Seq<StreamPoll>,
    rooms: Seq<usize>,
    i: int,
)
    requires
        forall|k: int| 0 <= k < rooms.len() ==> #[trigger] rooms[k] > 0,
        ends_after(events),
        0 <= i < rooms.len(),
    ensures
        ({
            let outcomes = poll_outcomes(Seq::empty(), events, rooms);
            let used = used_up(events, outcomes[i]);
            &&& outcomes.len() == rooms.len()
            &&& 0 <= used <= events.len()
            &&& outcomes[i].step == ReadStep::Failed ==> used > 0 && events[used - 1] is Failed
                && filled_in(outcomes.take(i + 1)) == items_of(events.take(used))
            &&& outcomes[i].step == ReadStep::Pending ==> used > 0 && events[used - 1] is Pending
                && filled_in(outcomes.take(i + 1)) == items_of(events.take(used))
        }),
{
    lemma_polls(Seq::empty(), events, rooms, i);
    let outcomes = poll_outcomes(Seq::empty(), events, rooms);
    let o = outcomes[i];
    let used = used_up(events, o);
    let filled = filled_in(outcomes.take(i + 1));
    lemma_items_split(events, used);
    assert(Seq::<u8>::empty() + items_of(events) =~= items_of(events));
    if o.step != ReadStep::Ready {
        assert(filled + o.leftover + items_of(o.events) =~= filled + items_of(o.events));
        assert(filled =~= items_of(events.take(used))) by {
            let whole = items_of(events);
            assert(whole.take(filled.len() as int) =~= filled);
            assert(whole.take(items_of(events.take(used)).len() as int) =~= items_of(
                events.take(used),
            ));
        }
    }
}

/// What a `NegotiatedSender` does next.
#[derive(Debug)]
pub enum SendStep {
    /// It needs the stream's next item, or to be told that there is none.
    NeedData,

    /// It sends these bytes, the data of an inline entry.
    Chunk(Vec<u8>),

    /// Everything has been sent.
    Finished,

    /// The stream ended inside an entry.
    EndedEarly {
        /// The size of the entry.
        expected: usize,
        /// How many of its bytes there were.
        got: usize,
    },
}

/// The message for a stream that ended inside an entry.
pub open spec fn ended_early_message(expected: usize, got: usize) -> Seq<char> {
    "Re-streamed NAR ended early: expected "@ + decimal(expected as nat)
        + " more bytes for a chunk manifest entry but only got "@ + decimal(got as nat)
}

/// The message for a stream that ended inside an entry.
pub fn ended_early_text(expected: usize, got: usize) -> (r: String)
    ensures
        r@ == ended_early_message(expected, got),
{
    let mut r = concat3(
        "Re-streamed NAR ended early: expected ",
        decimal_text(expected as u64).as_str(),
        " more bytes for a chunk manifest entry but only got ",
    );
    r.append(decimal_text(got as u64).as_str());
    r
}

/// What comes next when `entries` are still to be handled, `unread` has been received and not
/// consumed, and `ended` tells whether that was all: references are skipped together with their
/// bytes, and the first inline entry that has all its bytes is sent. `entries2` and `unread2` are
/// what is left afterwards.
pub open spec fn sends(
    entries: Seq<ChunkManifestEntry>,
    unread: Seq<u8>,
    ended: bool,
    step: SendStep,
    entries2: Seq<ChunkManifestEntry>,
    unread2: Seq<u8>,
) -> bool
    decreases entries.len(),
{
    if entries.len() == 0 {
        step is Finished && entries2 == entries && unread2 == unread
    } else if unread.len() >= entries[0].size {
        let size = entries[0].size as int;
        if entries[0].inline {
            &&& step matches SendStep::Chunk(data)
            &&& data@ == unread.take(size)
            &&& entries2 == entries.drop_first()
            &&& unread2 == unread.skip(size)
        } else {
            sends(entries.drop_first(), unread.skip(size), ended, step, entries2, unread2)
        }
    } else if ended {
        &&& step == (SendStep::EndedEarly { expected: entries[0].size, got: unread.len() as usize })
        &&& entries2 == entries.drop_first()
        &&& unread2 == Seq::<u8>::empty()
    } else {
        step is NeedData && entries2 == entries && unread2 == unread
    }
}

/// Re-streams a NAR, re-sliced according to a chunk manifest's recorded entry sizes, yielding only
/// the bytes of `inline` entries in order.
///
/// The manifest's chunk boundaries generally don't line up with the items that the underlying
/// stream happens to produce, so this re-slices by byte count rather than reusing the stream's own
/// boundaries.
#[derive(Debug)]
pub struct NegotiatedSender {
    reader: StreamAsyncReader,
    manifest: Vec<ChunkManifestEntry>,
    next: usize,
    chunk: Vec<u8>,
    ended: bool,
}

impl NegotiatedSender {
    /// The state is one that `new` and the other methods lead to.
    pub closed spec fn well_formed(&self) -> bool {
        &&& self.next <= self.manifest@.len()
        &&& self.next < self.manifest@.len() ==> self.chunk@.len()
            <= self.manifest@[self.next as int].size
        &&& self.next == self.manifest@.len() ==> self.chunk@.len() == 0
    }

    /// The entries that are still to be handled.
    pub closed spec fn entries(&self) -> Seq<ChunkManifestEntry> {
        self.manifest@.skip(self.next as int)
    }

    /// What has been received and not consumed.
    pub closed spec fn unread(&self) -> Seq<u8> {
        self.chunk@ + self.reader@
    }

    /// Whether the stream has ended.
    pub closed spec fn has_ended(&self) -> bool {
        self.ended
    }

    /// Whether the next item can be handed over.
    pub closed spec fn takes_data(&self) -> bool {
        self.reader@.len() == 0
    }

    /// A sender at the beginning of `manifest`.
    pub fn new(manifest: Vec<ChunkManifestEntry>) -> (r: NegotiatedSender)
        ensures
            r.well_formed(),
            r.entries() == manifest@,
            r.unread() == Seq::<u8>::empty(),
            !r.has_ended(),
            r.takes_data(),
    {
        let r = NegotiatedSender {
            reader: StreamAsyncReader::new(),
            manifest,
            next: 0,
            chunk: Vec::new(),
            ended: false,
        };
        proof {
            assert(r.entries() =~= manifest@);
            assert(r.unread() =~= Seq::<u8>::empty());
        }
        r
    }

    /// Hands over the stream's next item.
    pub fn feed(&mut self, data: Vec<u8>)
        requires
            old(self).well_formed(),
            old(self).takes_data(),
        ensures
            final(self).well_formed(),
            final(self).entries() == old(self).entries(),
            final(self).unread() == old(self).unread() + data@,
            final(self).has_ended() == old(self).has_ended(),
    {
        self.reader.refill(data);
        proof {
            assert(self.unread() =~= old(self).unread() + data@);
        }
    }

    /// Tells that the stream has ended.
    pub fn end(&mut self)
        requires
            old(self).well_formed(),
        ensures
            final(self).well_formed(),
            final(self).entries() == old(self).entries(),
            final(self).unread() == old(self).unread(),
            final(self).takes_data() == old(self).takes_data(),
            final(self).has_ended(),
    {
        self.ended = true;
    }

    /// Tells that the stream failed inside an entry. The entry is given up, with what there was of it.
    pub fn fail(&mut self)
        requires
            old(self).well_formed(),
            old(self).takes_data(),
            old(self).entries().len() > 0,
        ensures
            final(self).well_formed(),
            final(self).entries() == old(self).entries().drop_first(),
            final(self).unread() == Seq::<u8>::empty(),
            final(self).takes_data(),
            final(self).has_ended() == old(self).has_ended(),
    {
        proof {
            assert(self.entries().len() == self.manifest.len() - self.next);
        }
        self.chunk = Vec::new();
        self.next = self.next + 1;
        proof {
            assert(self.entries() =~= old(self).entries().drop_first());
            assert(self.unread() =~= Seq::<u8>::empty());
        }
    }

    /// Goes on as far as what has been received allows.
    pub fn step(&mut self) -> (r: SendStep)
        requires
            old(self).well_formed(),
        ensures
            final(self).well_formed(),
            final(self).has_ended() == old(self).has_ended(),
            sends(
                old(self).entries(),
                old(self).unread(),
                old(self).has_ended(),
                r,
                final(self).entries(),
                final(self).unread(),
            ),
            r is NeedData ==> final(self).takes_data() && final(self).entries().len() > 0,
    {
        let ghost start = *old(self);
        while self.next < self.manifest.len()
            invariant
                start == *old(self),
                self.well_formed(),
                self.has_ended() == start.has_ended(),
                forall|s: SendStep, e: Seq<ChunkManifestEntry>, u: Seq<u8>|
                    sends(self.entries(), self.unread(), start.has_ended(), s, e, u)
                        ==> #[trigger] sends(
                        start.entries(),
                        start.unread(),
                        start.has_ended(),
                        s,
                        e,
                        u,
                    ),
            decreases self.manifest@.len() - self.next,
        {
            let ghost before = *self;
            let entry = self.manifest[self.next];
            let room: usize = entry.size - self.chunk.len();
            self.reader.read(&mut self.chunk, room);
            proof {
                assert(self.unread() =~= before.unread());
                assert(self.entries() =~= before.entries());
                assert(self.entries()[0] == entry);
                assert(self.entries().drop_first() =~= self.manifest@.skip(self.next + 1));
            }
            if self.chunk.len() < entry.size {
                if !self.ended {
                    return SendStep::NeedData;
                }
                let got: usize = self.chunk.len();
                self.chunk = Vec::new();
                self.next = self.next + 1;
                proof {
                    assert(self.unread() =~= Seq::<u8>::empty());
                }
                return SendStep::EndedEarly { expected: entry.size, got };
            }
            let mut data: Vec<u8> = Vec::new();
            std::mem::swap(&mut data, &mut self.chunk);
            self.next = self.next + 1;
            proof {
                assert(data@ =~= before.unread().take(entry.size as int));
                assert(self.unread() =~= before.unread().skip(entry.size as int));
            }
            if entry.inline {
                return SendStep::Chunk(data);
            }
        }
        proof {
            assert(self.entries().len() == 0);
        }
        SendStep::Finished
    }
}

/// The body that `entries` make of `data`: the bytes of the inline entries when `data` is cut up
/// by the entries' sizes. `None` if `data` is too short.
pub open spec fn sliced_body(entries: Seq<ChunkManifestEntry>, data: Seq<u8>) -> Option<Seq<u8>>
    decreases entries.len(),
{
    if entries.len() == 0 {
        Some(Seq::empty())
    } else if data.len() < entries[0].size {
        None
    } else {
        match sliced_body(entries.drop_first(), data.skip(entries[0].size as int)) {
            Some(rest) => if entries[0].inline {
                Some(data.take(entries[0].size as int) + rest)
            } else {
                Some(rest)
            },
            None => None,
        }
    }
}

/// The slices that are sent when `data` is cut up by the sizes of `entries`: those of the inline
/// entries, up to the first entry for which there is too little.
pub open spec fn inline_slices(entries: Seq<ChunkManifestEntry>, data: Seq<u8>) -> Seq<Seq<u8>>
    decreases entries.len(),
{
    if entries.len() == 0 || data.len() < entries[0].size {
        Seq::empty()
    } else {
        let rest = inline_slices(entries.drop_first(), data.skip(entries[0].size as int));
        if entries[0].inline {
            seq![data.take(entries[0].size as int)] + rest
        } else {
            rest
        }
    }
}

/// The size of the first entry for which there is too little in `data`, and how much there is; `None`
/// if there is enough for all.
pub open spec fn early_end(entries: Seq<ChunkManifestEntry>, data: Seq<u8>) -> Option<(usize, nat)>
    decreases entries.len(),
{
    if entries.len() == 0 {
        None
    } else if data.len() < entries[0].size {
        Some((entries[0].size, data.len()))
    } else {
        early_end(entries.drop_first(), data.skip(entries[0].size as int))
    }
}

/// `steps` is what a sender does from the given state to the end, when it is handed one of
/// `pieces` each time that it asks for data, and then told that the stream has ended.
pub open spec fn is_run(
    entries: Seq<ChunkManifestEntry>,
    unread: Seq<u8>,
    ended: bool,
    pieces: Seq<Seq<u8>>,
    steps: Seq<SendStep>,
) -> bool
    decreases steps.len(),
{
    &&& steps.len() > 0
    &&& exists|entries2: Seq<ChunkManifestEntry>, unread2: Seq<u8>|
        #![trigger sends(entries, unread, ended, steps[0], entries2, unread2)]
        {
            &&& sends(entries, unread, ended, steps[0], entries2, unread2)
            &&& match steps[0] {
                SendStep::Finished => steps.len() == 1,
                SendStep::EndedEarly { expected, got } => steps.len() == 1,
                SendStep::Chunk(data) => is_run(
                    entries2,
                    unread2,
                    ended,
                    pieces,
                    steps.drop_first(),
                ),
                SendStep::NeedData => if pieces.len() == 0 {
                    is_run(entries2, unread2, true, pieces, steps.drop_first())
                } else {
                    is_run(
                        entries2,
                        unread2 + pieces[0],
                        false,
                        pieces.drop_first(),
                        steps.drop_first(),
                    )
                },
            }
        }
}

/// All that is sent in the course of `steps`; `None` if the stream ended inside an entry.
pub open spec fn sent_by(steps: Seq<SendStep>) -> Option<Seq<u8>>
    decreases steps.len(),
{
    if steps.len() == 0 {
        Some(Seq::empty())
    } else {
        match (steps[0], sent_by(steps.drop_first())) {
            (SendStep::EndedEarly { expected, got }, rest) => None,
            (SendStep::Chunk(data), Some(rest)) => Some(data@ + rest),
            (step, rest) => rest,
        }
    }
}

/// The slices that are sent in the course of `steps`.
pub open spec fn slices_in(steps: Seq<SendStep>) -> Seq<Seq<u8>>
    decreases steps.len(),
{
    if steps.len() == 0 {
        Seq::empty()
    } else {
        match steps[0] {
            SendStep::Chunk(data) => seq![data@] + slices_in(steps.drop_first()),
            _ => slices_in(steps.drop_first()),
        }
    }
}

proof fn lemma_step(
    entries: Seq<ChunkManifestEntry>,
    unread: Seq<u8>,
    ended: bool,
    step: SendStep,
    entries2: Seq<ChunkManifestEntry>,
    unread2: Seq<u8>,
    future: Seq<u8>,
)
    requires
        sends(entries, unread, ended, step, entries2, unread2),
        ended ==> future.len() == 0,
    ensures
        match step {
            SendStep::NeedData => {
                &&& !ended
                &&& sliced_body(entries, unread + future) == sliced_body(entries2, unread2 + future)
                &&& inline_slices(entries, unread + future) == inline_slices(
                    entries2,
                    unread2 + future,
                )
                &&& early_end(entries, unread + future) == early_end(entries2, unread2 + future)
            },
            SendStep::Chunk(data) => {
                &&& sliced_body(entries, unread + future) == (match sliced_body(
                    entries2,
                    unread2 + future,
                ) {
                    Some(rest) => Some(data@ + rest),
                    None => None,
                })
                &&& inline_slices(entries, unread + future) == seq![data@] + inline_slices(
                    entries2,
                    unread2 + future,
                )
                &&& early_end(entries, unread + future) == early_end(entries2, unread2 + future)
            },
            SendStep::Finished => {
                &&& sliced_body(entries, unread + future) == Some(Seq::<u8>::empty())
                &&& inline_slices(entries, unread + future) == Seq::<Seq<u8>>::empty()
                &&& early_end(entries, unread + future) is None
            },
            SendStep::EndedEarly { expected, got } => {
                &&& sliced_body(entries, unread + future) is None
                &&& inline_slices(entries, unread + future) == Seq::<Seq<u8>>::empty()
                &&& early_end(entries, unread + future) == Some((expected, got as nat))
            },
        },
    decreases entries.len(),
{
    if entries.len() > 0 && unread.len() >= entries[0].size {
        let size = entries[0].size as int;
        assert((unread + future).take(size) =~= unread.take(size));
        assert((unread + future).skip(size) =~= unread.skip(size) + future);
        if !entries[0].inline {
            lemma_step(
                entries.drop_first(),
                unread.skip(size),
                ended,
                step,
                entries2,
                unread2,
                future,
            );
        }
    } else if entries.len() > 0 && ended {
        assert(unread + future =~= unread);
    }
}

/// The last of `steps` is the end of the manifest, or a failure because of the given early end.
pub open spec fn ends_as(steps: Seq<SendStep>, end: Option<(usize, nat)>) -> bool {
    &&& steps.len() > 0
    &&& match end {
        Some((expected, got)) => steps.last() == (SendStep::EndedEarly {
            expected,
            got: got as usize,
        }),
        None => steps.last() is Finished,
    }
}

proof fn lemma_run(
    entries: Seq<ChunkManifestEntry>,
    unread: Seq<u8>,
    ended: bool,
    pieces: Seq<Seq<u8>>,
    steps: Seq<SendStep>,
)
    requires
        is_run(entries, unread, ended, pieces, steps),
        ended ==> pieces.len() == 0,
    ensures
        sent_by(steps) == sliced_body(entries, unread + concatenated(pieces)),
        slices_in(steps) == inline_slices(entries, unread + concatenated(pieces)),
        ends_as(steps, early_end(entries, unread + concatenated(pieces))),
    decreases steps.len(),
{
    let (entries2, unread2) = choose|entries2: Seq<ChunkManifestEntry>, unread2: Seq<u8>|
        #![trigger sends(entries, unread, ended, steps[0], entries2, unread2)]
        {
            &&& sends(entries, unread, ended, steps[0], entries2, unread2)
            &&& match steps[0] {
                SendStep::Finished => steps.len() == 1,
                SendStep::EndedEarly { expected, got } => steps.len() == 1,
                SendStep::Chunk(data) => is_run(
                    entries2,
                    unread2,
                    ended,
                    pieces,
                    steps.drop_first(),
                ),
                SendStep::NeedData => if pieces.len() == 0 {
                    is_run(entries2, unread2, true, pieces, steps.drop_first())
                } else {
                    is_run(
                        entries2,
                        unread2 + pieces[0],
                        false,
                        pieces.drop_first(),
                        steps.drop_first(),
                    )
                },
            }
        };
    let future = concatenated(pieces);
    lemma_step(entries, unread, ended, steps[0], entries2, unread2, future);
    match steps[0] {
        SendStep::Finished => {
            assert(sent_by(steps.drop_first()) == Some(Seq::<u8>::empty()));
            assert(slices_in(steps.drop_first()) == Seq::<Seq<u8>>::empty());
        },
        SendStep::EndedEarly { expected, got } => {
            assert(slices_in(steps.drop_first()) == Seq::<Seq<u8>>::empty());
        },
        SendStep::Chunk(data) => {
            lemma_run(entries2, unread2, ended, pieces, steps.drop_first());
        },
        SendStep::NeedData => {
            if pieces.len() == 0 {
                lemma_run(entries2, unread2, true, pieces, steps.drop_first());
            } else {
                lemma_run(
                    entries2,
                    unread2 + pieces[0],
                    false,
                    pieces.drop_first(),
                    steps.drop_first(),
                );
                assert(unread2 + pieces[0] + concatenated(pieces.drop_first()) =~= unread2
                    + future);
            }
        },
    }
}

/// What a sender sends does not depend on how the stream happens to be cut into pieces: it is the
/// slices of the inline entries. If the stream is too short for the manifest, these are the slices
/// before the first entry for which there is too little, and then it fails, telling the size of that
/// entry and how much there was.
pub proof fn law_sent_bytes_do_not_depend_on_pieces(
    manifest: Seq<ChunkManifestEntry>,
    pieces: Seq<Seq<u8>>,
    steps: Seq<SendStep>,
)
    requires
        is_run(manifest, Seq::empty(), false, pieces, steps),
    ensures
        sent_by(steps) == sliced_body(manifest, concatenated(pieces)),
        slices_in(steps) == inline_slices(manifest, concatenated(pieces)),
        ends_as(steps, early_end(manifest, concatenated(pieces))),
{
    lemma_run(manifest, Seq::empty(), false, pieces, steps);
    assert(Seq::<u8>::empty() + concatenated(pieces) =~= concatenated(pieces));
}

/// When the stream carries the chunks that the manifest was made from, what is sent is the request
/// body that the manifest describes.
pub proof fn law_sent_bytes_are_the_inline_body(
    manifest: Seq<ChunkManifestEntry>,
    chunks: Seq<Seq<u8>>,
)
    requires
        manifest.len() == chunks.len(),
        forall|i: int| 0 <= i < manifest.len() ==> (#[trigger] manifest[i]).size == chunks[i].len(),
    ensures
        sliced_body(manifest, concatenated(chunks)) == Some(inline_body(manifest, chunks)),
    decreases manifest.len(),
{
    if manifest.len() > 0 {
        let size = manifest[0].size as int;
        assert(manifest[0].size == chunks[0].len());
        assert(concatenated(chunks).take(size) =~= chunks[0]);
        assert(concatenated(chunks).skip(size) =~= concatenated(chunks.drop_first()));
        assert forall|i: int| 0 <= i < manifest.len() - 1 implies (
        #[trigger] manifest.drop_first()[i]).size == chunks.drop_first()[i].len() by {
            assert(manifest[i + 1].size == chunks[i + 1].len());
        }
        law_sent_bytes_are_the_inline_body(manifest.drop_first(), chunks.drop_first());
    }
}

/// A read moves as many bytes as there are and are asked for from the front of what is left over to
/// the end of the buffer, and loses none.
pub proof fn law_read_loses_nothing(
    reader: &mut StreamAsyncReader,
    buf: &mut Vec<u8>,
    room: usize,
    r: (),
)
    requires
        call_ensures(StreamAsyncReader::read, (reader, buf, room), r),
    ensures
        old(buf)@.is_prefix_of(final(buf)@),
        final(buf)@ + final(reader)@ == old(buf)@ + old(reader)@,
        final(buf)@.len() - old(buf)@.len() == if room < old(reader)@.len() {
            room as int
        } else {
            old(reader)@.len() as int
        },
{
    assert(final(buf)@.subrange(0, old(buf)@.len() as int) =~= old(buf)@);
    assert(final(buf)@ + final(reader)@ =~= old(buf)@ + old(reader)@);
}

/// A poll gives as many bytes as there are and are asked for, from the front of what is left over and
/// of the item that came of the stream, and keeps the rest. If there are none, it passes on what came of
/// the stream: its end, its error, or that there is nothing yet. An empty item is no end.
pub proof fn law_poll_gives_what_there_is(
    reader: &mut StreamAsyncReader,
    polled: Option<StreamPoll>,
    buf: &mut Vec<u8>,
    room: usize,
    r: ReadStep,
    data: Seq<u8>,
)
    requires
        call_ensures(StreamAsyncReader::poll_read, (reader, polled, buf, room), r),
        data == old(reader)@ + (match polled {
            Some(StreamPoll::Item(item)) => item@,
            _ => Seq::<u8>::empty(),
        }),
    ensures
        old(buf)@.is_prefix_of(final(buf)@),
        final(buf)@ + final(reader)@ == old(buf)@ + data,
        final(buf)@.len() - old(buf)@.len() == if room < data.len() {
            room as int
        } else {
            data.len() as int
        },
        data.len() > 0 ==> r == ReadStep::Ready,
        data.len() == 0 ==> r == (match polled {
            Some(StreamPoll::Ended) => ReadStep::Ready,
            Some(StreamPoll::Failed) => ReadStep::Failed,
            Some(StreamPoll::Pending) => ReadStep::Pending,
            Some(StreamPoll::Item(item)) => ReadStep::PollStream,
            None => ReadStep::PollStream,
        }),
{
    assert(data =~= old(reader)@ + item_of(polled));
    assert(final(buf)@.subrange(0, old(buf)@.len() as int) =~= old(buf)@);
    assert(final(buf)@ + final(reader)@ =~= old(buf)@ + data);
}

/// What has been filled in over some polls is what each of them filled in, one after the other, and
/// the items of a stream joined are all of them, one after the other.
pub proof fn law_polls_and_items_are_joined(outcomes: Seq<PollOutcome>, events: Seq<StreamPoll>)
    ensures
        filled_in(outcomes) == outcomes.map_values(|o: PollOutcome| o.filled).flatten(),
        items_of(events) == events.map_values(
            |e: StreamPoll|
                match e {
                    StreamPoll::Item(item) => item@,
                    _ => Seq::<u8>::empty(),
                },
        ).flatten(),
    decreases outcomes.len() + events.len(),
{
    let filled = outcomes.map_values(|o: PollOutcome| o.filled);
    let items = events.map_values(
        |e: StreamPoll|
            match e {
                StreamPoll::Item(item) => item@,
                _ => Seq::<u8>::empty(),
            },
    );
    if outcomes.len() > 0 {
        let rest = outcomes.drop_first();
        law_polls_and_items_are_joined(rest, Seq::empty());
        assert(filled.drop_first() =~= rest.map_values(|o: PollOutcome| o.filled));
    }
    if events.len() > 0 {
        let rest = events.drop_first();
        law_polls_and_items_are_joined(Seq::empty(), rest);
        assert(items.drop_first() =~= rest.map_values(
            |e: StreamPoll|
                match e {
                    StreamPoll::Item(item) => item@,
                    _ => Seq::<u8>::empty(),
                },
        ));
        assert(items.first() == item_of(Some(events[0])));
    }
}

proof fn lemma_sends_in_order(
    entries: Seq<ChunkManifestEntry>,
    unread: Seq<u8>,
    ended: bool,
    step: SendStep,
    entries2: Seq<ChunkManifestEntry>,
    unread2: Seq<u8>,
) -> (skipped: Seq<Seq<u8>>)
    requires
        sends(entries, unread, ended, step, entries2, unread2),
    ensures
        skipped.len() <= entries.len(),
        forall|k: int|
            0 <= k < skipped.len() ==> !(#[trigger] entries[k]).inline && skipped[k].len()
                == entries[k].size,
        match step {
            SendStep::Finished => {
                &&& skipped.len() == entries.len() && entries2.len() == 0
                &&& unread == skipped.flatten() + unread2
            },
            SendStep::Chunk(data) => {
                &&& skipped.len() < entries.len() && entries[skipped.len() as int].inline
                &&& data@.len() == entries[skipped.len() as int].size
                &&& unread == skipped.flatten() + data@ + unread2
                &&& entries2 == entries.skip(skipped.len() as int + 1)
            },
            SendStep::NeedData => {
                &&& !ended && skipped.len() < entries.len()
                &&& unread == skipped.flatten() + unread2
                &&& unread2.len() < entries[skipped.len() as int].size
                &&& entries2 == entries.skip(skipped.len() as int)
            },
            SendStep::EndedEarly { expected, got } => {
                &&& ended && skipped.len() < entries.len()
                &&& expected == entries[skipped.len() as int].size
                &&& got < expected
                &&& unread.len() == skipped.flatten().len() + got
                &&& entries2 == entries.skip(skipped.len() as int + 1)
                &&& unread2.len() == 0
            },
        },
    decreases entries.len(),
{
    let none = Seq::<Seq<u8>>::empty();
    assert(none.flatten() =~= Seq::<u8>::empty());
    assert(entries.skip(0) =~= entries);
    if entries.len() == 0 {
        assert(unread =~= none.flatten() + unread2);
        none
    } else if unread.len() >= entries[0].size && !entries[0].inline {
        let size = entries[0].size as int;
        let rest = entries.drop_first();
        let later = lemma_sends_in_order(rest, unread.skip(size), ended, step, entries2, unread2);
        let skipped = seq![unread.take(size)] + later;
        assert(skipped.drop_first() =~= later);
        assert(skipped.flatten() == unread.take(size) + later.flatten());
        assert forall|k: int| 0 <= k < skipped.len() implies !(#[trigger] entries[k]).inline
            && skipped[k].len() == entries[k].size by {
            if k > 0 {
                assert(rest[k - 1] == entries[k]);
            }
        }
        let n = later.len() as int;
        if n < rest.len() {
            assert(rest[n] == entries[n + 1]);
            assert(rest.skip(n) =~= entries.skip(n + 1));
            assert(rest.skip(n + 1) =~= entries.skip(n + 2));
        }
        let head = unread.take(size);
        let tail = later.flatten();
        assert(unread =~= head + unread.skip(size));
        match step {
            SendStep::Chunk(data) => {
                assert(unread == head + (tail + data@ + unread2));
                assert(head + (tail + data@ + unread2) =~= head + tail + data@ + unread2);
            },
            SendStep::EndedEarly { expected, got } => {},
            _ => {
                assert(unread == head + (tail + unread2));
                assert(head + (tail + unread2) =~= head + tail + unread2);
            },
        }
        skipped
    } else {
        assert(entries.drop_first() =~= entries.skip(1));
        match step {
            SendStep::Chunk(data) => {
                assert(unread =~= none.flatten() + data@ + unread2);
            },
            SendStep::EndedEarly { expected, got } => {},
            _ => {
                assert(unread =~= none.flatten() + unread2);
            },
        }
        none
    }
}

/// A sender goes through the entries in order. It skips those that are references, each with as many
/// bytes as its size says, and sends the bytes of the first inline one. It asks for data only if there
/// is too little for the entry that it is at, and gives up on that one if there will not be more.
pub proof fn law_sender_goes_through_the_entries_in_order(
    sender: &mut NegotiatedSender,
    r: SendStep,
)
    requires
        call_ensures(NegotiatedSender::step, (sender,), r),
    ensures
        exists|skipped: Seq<Seq<u8>>|
            {
                let entries = old(sender).entries();
                let unread = old(sender).unread();
                let n = skipped.len() as int;
                &&& n <= entries.len()
                &&& forall|k: int|
                    0 <= k < n ==> !(#[trigger] entries[k]).inline && skipped[k].len()
                        == entries[k].size
                &&& match r {
                    SendStep::Finished => {
                        &&& n == entries.len() && final(sender).entries().len() == 0
                        &&& unread == #[trigger] skipped.flatten() + final(sender).unread()
                    },
                    SendStep::Chunk(data) => {
                        &&& n < entries.len() && entries[n].inline && data@.len() == entries[n].size
                        &&& unread == skipped.flatten() + data@ + final(sender).unread()
                        &&& final(sender).entries() == entries.skip(n + 1)
                    },
                    SendStep::NeedData => {
                        &&& !old(sender).has_ended() && n < entries.len()
                        &&& unread == skipped.flatten() + final(sender).unread()
                        &&& final(sender).unread().len() < entries[n].size
                        &&& final(sender).entries() == entries.skip(n)
                    },
                    SendStep::EndedEarly { expected, got } => {
                        &&& old(sender).has_ended() && n < entries.len()
                        &&& expected == entries[n].size && got < expected
                        &&& unread.len() == skipped.flatten().len() + got
                        &&& final(sender).entries() == entries.skip(n + 1)
                    },
                }
            },
{
    let skipped = lemma_sends_in_order(
        old(sender).entries(),
        old(sender).unread(),
        old(sender).has_ended(),
        r,
        final(sender).entries(),
        final(sender).unread(),
    );
    assert(skipped.flatten().len() >= 0);
}

proof fn lemma_sent_is_joined(steps: Seq<SendStep>)
    ensures
        sent_by(steps) matches Some(sent) ==> sent == steps.map_values(
            |s: SendStep|
                match s {
                    SendStep::Chunk(data) => data@,
                    _ => Seq::<u8>::empty(),
                },
        ).flatten(),
    decreases steps.len(),
{
    let parts = steps.map_values(
        |s: SendStep|
            match s {
                SendStep::Chunk(data) => data@,
                _ => Seq::<u8>::empty(),
            },
    );
    if steps.len() > 0 {
        let rest = steps.drop_first();
        lemma_sent_is_joined(rest);
        assert(parts.drop_first() =~= rest.map_values(
            |s: SendStep|
                match s {
                    SendStep::Chunk(data) => data@,
                    _ => Seq::<u8>::empty(),
                },
        ));
        assert(parts.first() + parts.drop_first().flatten() == parts.flatten());
        if !(steps[0] is Chunk) {
            assert(parts.first() + parts.drop_first().flatten() =~= parts.drop_first().flatten());
        }
    }
}

proof fn lemma_no_early_end(manifest: Seq<ChunkManifestEntry>, chunks: Seq<Seq<u8>>)
    requires
        manifest.len() == chunks.len(),
        forall|i: int| 0 <= i < manifest.len() ==> (#[trigger] manifest[i]).size == chunks[i].len(),
    ensures
        early_end(manifest, concatenated(chunks)) is None,
    decreases manifest.len(),
{
    if manifest.len() > 0 {
        assert(manifest[0].size == chunks[0].len());
        assert(concatenated(chunks).skip(manifest[0].size as int) =~= concatenated(
            chunks.drop_first(),
        ));
        assert forall|i: int| 0 <= i < manifest.len() - 1 implies (
        #[trigger] manifest.drop_first()[i]).size == chunks.drop_first()[i].len() by {
            assert(manifest[i + 1].size == chunks[i + 1].len());
        }
        lemma_no_early_end(manifest.drop_first(), chunks.drop_first());
    }
}

/// When the stream carries the chunks that the manifest was made from, in whatever pieces, the sender
/// gets to the end, and what it has sent is the inline chunks, each whole, in order, and nothing else.
pub proof fn law_the_inline_chunks_are_sent(
    manifest: Seq<ChunkManifestEntry>,
    chunks: Seq<Seq<u8>>,
    pieces: Seq<Seq<u8>>,
    steps: Seq<SendStep>,
)
    requires
        is_run(manifest, Seq::empty(), false, pieces, steps),
        pieces.flatten() == chunks.flatten(),
        manifest.len() == chunks.len(),
        forall|i: int| 0 <= i < manifest.len() ==> (#[trigger] manifest[i]).size == chunks[i].len(),
    ensures
        steps.last() is Finished,
        steps.map_values(
            |s: SendStep|
                match s {
                    SendStep::Chunk(data) => data@,
                    _ => Seq::<u8>::empty(),
                },
        ).flatten() == Seq::new(
            manifest.len(),
            |i: int|
                if manifest[i].inline {
                    chunks[i]
                } else {
                    Seq::<u8>::empty()
                },
        ).flatten(),
{
    law_joined_pieces(pieces);
    law_joined_pieces(chunks);
    law_sent_bytes_do_not_depend_on_pieces(manifest, pieces, steps);
    law_sent_bytes_are_the_inline_body(manifest, chunks);
    lemma_no_early_end(manifest, chunks);
    lemma_sent_is_joined(steps);
    law_body_is_the_inline_data(manifest, chunks);
}

/// The message of a stream that ended early tells how much was expected, and then how much there was.
pub proof fn law_early_end_is_told_with_both_sizes(
    expected: usize,
    got: usize,
    r: String,
    expected_text: String,
    got_text: String,
)
    requires
        call_ensures(ended_early_text, (expected, got), r),
        call_ensures(decimal_text, (expected as u64,), expected_text),
        call_ensures(decimal_text, (got as u64,), got_text),
    ensures
        r@ == "Re-streamed NAR ended early: expected "@ + expected_text@
            + " more bytes for a chunk manifest entry but only got "@ + got_text@,
{
}

/// Data that is fed to a sender is taken after what it has not used yet, and the end of the stream takes
/// nothing away. A failure takes away the entry that it came at, and what was there for it.
pub proof fn law_fed_data_is_kept_in_order(
    fed: &mut NegotiatedSender,
    ended: &mut NegotiatedSender,
    failed: &mut NegotiatedSender,
    data: Vec<u8>,
)
    requires
        call_ensures(NegotiatedSender::feed, (fed, data), ()),
        call_ensures(NegotiatedSender::end, (ended,), ()),
        call_ensures(NegotiatedSender::fail, (failed,), ()),
    ensures
        final(fed).unread() == old(fed).unread() + data@,
        final(fed).entries() == old(fed).entries(),
        final(fed).has_ended() == old(fed).has_ended(),
        final(ended).unread() == old(ended).unread(),
        final(ended).entries() == old(ended).entries(),
        final(ended).has_ended(),
        final(failed).unread().len() == 0,
        final(failed).entries() == old(failed).entries().skip(1),
        final(failed).has_ended() == old(failed).has_ended(),
{
}

} // verus!
