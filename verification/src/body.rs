//! Bodies of HTTP messages: what is sent, and how its progress is counted.

use rand::rngs::StdRng;
use rand::{Rng, SeedableRng};
use vstd::prelude::*;

use crate::time;
use crate::time::{Nanos, Timestamp};

verus! {

/// What a counted body reports about its transfer.
#[derive(Debug, PartialEq, Eq)]
pub enum BodyEvent {
    /// The number of bytes transferred so far.
    ByteCount {
        /// When the event was generated.
        at: Timestamp,
        /// The total number of bytes seen.
        total: u64,
    },
    /// The body has been transferred completely.
    Finished {
        /// When the body finished.
        at: Timestamp,
    },
    /// The transfer was given up.
    Failed {
        /// When the failure was noticed.
        at: Timestamp,
        /// Why the transfer failed.
        reason: String,
    },
}

/// What a body gives when it is asked for its next frame.
#[derive(Debug)]
pub enum FramePoll<F, E> {
    /// A frame, and how many bytes of data it has: zero for a frame without
    /// data.
    Frame {
        frame: F,
        len: u64,
    },
    /// The body is complete.
    End,
    /// The body failed.
    Error(E),
    /// Nothing is available yet.
    Pending,
}

/// Counts the bytes of a body as its frames pass by, and says when its
/// progress is to be reported.
#[derive(Debug, Clone, Copy, PartialEq, Eq, Structural)]
pub struct CountingBody {
    pub last_sent: Timestamp,
    pub update_every: Nanos,
    pub total: u64,
    pub sent_finished: bool,
}

impl CountingBody {
    /// Starts counting at `now`. Progress is reported no more often than every
    /// `update_every`. The first report says that nothing was transferred yet.
    pub fn new(update_every: Nanos, now: Timestamp) -> (r: (CountingBody, BodyEvent))
        ensures
            r.0 == (CountingBody { last_sent: now, update_every, total: 0, sent_finished: false }),
            r.1 == (BodyEvent::ByteCount { at: now, total: 0 }),
    {
        (
            CountingBody { last_sent: now, update_every, total: 0, sent_finished: false },
            BodyEvent::ByteCount { at: now, total: 0 },
        )
    }

    /// The count after `polled` was seen at `now`.
    pub open spec fn after<F, E>(self, polled: FramePoll<F, E>, now: Timestamp) -> CountingBody {
        match polled {
            FramePoll::Frame { len, .. } => CountingBody {
                total: (self.total + len) as u64,
                last_sent: if self.is_due(now) {
                    now
                } else {
                    self.last_sent
                },
                ..self
            },
            FramePoll::End => CountingBody { sent_finished: true, ..self },
            _ => self,
        }
    }

    /// Whether a progress report is due at `now`.
    pub open spec fn is_due(self, now: Timestamp) -> bool {
        time::span(self.last_sent, now) >= self.update_every
    }

    /// The reports owed when `polled` was seen at `now`.
    pub open spec fn reports<F, E>(self, polled: FramePoll<F, E>, now: Timestamp) -> Seq<
        BodyEvent,
    > {
        match polled {
            FramePoll::Frame { len, .. } => if self.is_due(now) {
                seq![BodyEvent::ByteCount { at: now, total: (self.total + len) as u64 }]
            } else {
                seq![]
            },
            FramePoll::End => if self.sent_finished {
                seq![BodyEvent::ByteCount { at: now, total: self.total }]
            } else {
                seq![
                    BodyEvent::ByteCount { at: now, total: self.total },
                    BodyEvent::Finished { at: now },
                ]
            },
            _ => seq![],
        }
    }

    /// Whether the body has to end before another frame is asked for: nobody
    /// listens to its reports any more.
    pub fn must_stop(&self, listener_gone: bool) -> (r: bool)
        ensures
            r == listener_gone,
    {
        listener_gone
    }

    /// Counts what the wrapped body gave at `now`, hands it on as it is, and says
    /// what to report.
    ///
    /// A frame is counted, and reported when enough time has passed since the
    /// last report. The end is always reported with the final count, and the
    /// first time with `Finished` behind it.
    pub fn poll_frame<F, E>(&mut self, polled: FramePoll<F, E>, now: Timestamp) -> (r: (
        FramePoll<F, E>,
        Vec<BodyEvent>,
    ))
        requires
            polled matches FramePoll::Frame { len, .. } ==> old(self).total + len <= u64::MAX,
        ensures
            *final(self) == old(self).after(polled, now),
            r.0 == polled,
            r.1@ == old(self).reports(polled, now),
    {
        let mut events: Vec<BodyEvent> = Vec::new();
        match &polled {
            FramePoll::Frame { len, .. } => {
                self.total = self.total + *len;
                if now.duration_since(self.last_sent) >= self.update_every {
                    self.last_sent = now;
                    events.push(BodyEvent::ByteCount { at: now, total: self.total });
                }
            },
            FramePoll::End => {
                events.push(BodyEvent::ByteCount { at: now, total: self.total });
                if !self.sent_finished {
                    self.sent_finished = true;
                    events.push(BodyEvent::Finished { at: now });
                }
            },
            FramePoll::Error(_) => {},
            FramePoll::Pending => {},
        }
        (polled, events)
    }
}

/// The bytes of a series of polls.
pub open spec fn bytes_polled<F, E>(polls: Seq<(FramePoll<F, E>, Timestamp)>) -> int
    decreases polls.len(),
{
    if polls.len() == 0 {
        0
    } else {
        bytes_polled(polls.drop_last()) + match polls.last().0 {
            FramePoll::Frame { len, .. } => len as int,
            _ => 0,
        }
    }
}

/// The counting body after a series of polls.
pub open spec fn after_polls<F, E>(
    start: CountingBody,
    polls: Seq<(FramePoll<F, E>, Timestamp)>,
) -> CountingBody
    decreases polls.len(),
{
    if polls.len() == 0 {
        start
    } else {
        after_polls(start, polls.drop_last()).after(polls.last().0, polls.last().1)
    }
}

/// All reports about a series of polls.
pub open spec fn reported<F, E>(
    start: CountingBody,
    polls: Seq<(FramePoll<F, E>, Timestamp)>,
) -> Seq<BodyEvent>
    decreases polls.len(),
{
    if polls.len() == 0 {
        seq![]
    } else {
        reported(start, polls.drop_last()) + after_polls(start, polls.drop_last()).reports(
            polls.last().0,
            polls.last().1,
        )
    }
}

/// How many reports say that the body has finished.
pub open spec fn finishes(events: Seq<BodyEvent>) -> nat
    decreases events.len(),
{
    if events.len() == 0 {
        0
    } else {
        finishes(events.drop_last()) + if events.last() is Finished {
            1nat
        } else {
            0nat
        }
    }
}

/// Whether the body was polled to its end.
pub open spec fn polled_to_end<F, E>(polls: Seq<(FramePoll<F, E>, Timestamp)>) -> bool {
    exists|i: int| 0 <= i < polls.len() && (#[trigger] polls[i]).0 is End
}

/// Whether nothing comes after the end of the body.
pub open spec fn ends_for_good<F, E>(polls: Seq<(FramePoll<F, E>, Timestamp)>) -> bool {
    forall|i: int, j: int|
        0 <= i <= j < polls.len() && (#[trigger] polls[i]).0 is End ==> (#[trigger] polls[j]).0 is End
}

/// The counts in some reports never fall, and stay below a limit.
pub open spec fn counts_rise_to(events: Seq<BodyEvent>, limit: int) -> bool {
    &&& forall|i: int|
        0 <= i < events.len() && (#[trigger] events[i]) is ByteCount ==> events[i]->total <= limit
    &&& forall|i: int, j: int|
        0 <= i <= j < events.len() && (#[trigger] events[i]) is ByteCount && (
        #[trigger] events[j]) is ByteCount ==> events[i]->total <= events[j]->total
}

/// Each end in some reports comes right behind the given count, at the same
/// time.
pub open spec fn finishes_at(events: Seq<BodyEvent>, total: int) -> bool {
    forall|i: int|
        0 <= i < events.len() && (#[trigger] events[i]) is Finished ==> i > 0 && events[i - 1]
            is ByteCount && events[i - 1]->total == total && events[i - 1]->ByteCount_at
            == events[i]->Finished_at
}

/// The bytes of two series of polls add up. A frame counts with its data, and
/// nothing else counts.
pub proof fn polled_bytes_add_up<F, E>(
    a: Seq<(FramePoll<F, E>, Timestamp)>,
    b: Seq<(FramePoll<F, E>, Timestamp)>,
    poll: (FramePoll<F, E>, Timestamp),
)
    ensures
        bytes_polled(a + b) == bytes_polled(a) + bytes_polled(b),
        poll.0 matches FramePoll::Frame { len, .. } ==> bytes_polled(seq![poll]) == len,
        !(poll.0 is Frame) ==> bytes_polled(seq![poll]) == 0,
    decreases b.len(),
{
    reveal_with_fuel(bytes_polled, 2);
    assert(seq![poll].drop_last() =~= Seq::empty());
    if b.len() == 0 {
        assert(a + b =~= a);
    } else {
        polled_bytes_add_up(a, b.drop_last(), poll);
        assert((a + b).drop_last() =~= a + b.drop_last());
    }
}

/// Whatever is polled, the count is the number of bytes that passed by, and the
/// count reported with the end is that number.
pub proof fn count_is_exact<F, E>(
    start: CountingBody,
    polls: Seq<(FramePoll<F, E>, Timestamp)>,
    now: Timestamp,
)
    requires
        start.total == 0,
        bytes_polled(polls) <= u64::MAX,
    ensures
        after_polls(start, polls).total == bytes_polled(polls),
        after_polls(start, polls).reports(FramePoll::<F, E>::End, now)[0] == (BodyEvent::ByteCount {
            at: now,
            total: bytes_polled(polls) as u64,
        }),
    decreases polls.len(),
{
    if polls.len() > 0 {
        lemma_bytes_polled_not_negative(polls.drop_last());
        count_is_exact(start, polls.drop_last(), now);
    }
}

proof fn lemma_bytes_polled_not_negative<F, E>(polls: Seq<(FramePoll<F, E>, Timestamp)>)
    ensures
        bytes_polled(polls) >= 0,
    decreases polls.len(),
{
    if polls.len() > 0 {
        lemma_bytes_polled_not_negative(polls.drop_last());
    }
}

proof fn lemma_finishes_of_sum(a: Seq<BodyEvent>, b: Seq<BodyEvent>)
    ensures
        finishes(a + b) == finishes(a) + finishes(b),
    decreases b.len(),
{
    if b.len() == 0 {
        assert(a + b =~= a);
    } else {
        lemma_finishes_of_sum(a, b.drop_last());
        assert((a + b).drop_last() =~= a + b.drop_last());
    }
}

/// A body that is polled to its end, and possibly beyond, reports counts that
/// never fall, and that it has finished exactly once: right behind the number of
/// all its bytes, and at the same time.
pub proof fn body_is_reported_in_full<F, E>(
    start: CountingBody,
    polls: Seq<(FramePoll<F, E>, Timestamp)>,
)
    requires
        start.total == 0,
        !start.sent_finished,
        bytes_polled(polls) <= u64::MAX,
        ends_for_good(polls),
    ensures
        counts_rise_to(reported(start, polls), bytes_polled(polls)),
        finishes_at(reported(start, polls), bytes_polled(polls)),
        finishes(reported(start, polls)) == (if polled_to_end(polls) {
            1nat
        } else {
            0nat
        }),
        after_polls(start, polls).sent_finished == polled_to_end(polls),
    decreases polls.len(),
{
    if polls.len() > 0 {
        let rest = polls.drop_last();
        let (polled, now) = polls.last();
        lemma_bytes_polled_not_negative(rest);
        assert forall|i: int, j: int|
            0 <= i <= j < rest.len() && (#[trigger] rest[i]).0 is End implies (
        #[trigger] rest[j]).0 is End by {
            assert(rest[i] == polls[i] && rest[j] == polls[j]);
        }
        body_is_reported_in_full(start, rest);
        count_is_exact(start, rest, now);
        let body = after_polls(start, rest);
        let before = reported(start, rest);
        let more = body.reports(polled, now);
        let all = reported(start, polls);
        lemma_finishes_of_sum(before, more);
        assert(polls[polls.len() - 1] == polls.last());
        if polled_to_end(rest) {
            let i = choose|i: int| 0 <= i < rest.len() && (#[trigger] rest[i]).0 is End;
            assert(polls[i].0 is End);
            assert(polled is End);
        } else if polled_to_end(polls) {
            let i = choose|i: int| 0 <= i < polls.len() && (#[trigger] polls[i]).0 is End;
            if i < rest.len() {
                assert(rest[i].0 is End);
            }
            assert(polled is End);
        }
        reveal_with_fuel(finishes, 3);
        if more.len() > 0 {
            assert(more.drop_last().drop_last() =~= Seq::empty() || more.len() == 1);
            assert(more.len() == 1 ==> more.drop_last() =~= Seq::empty());
        }
        assert forall|i: int|
            0 <= i < all.len() && (#[trigger] all[i]) is ByteCount implies all[i]->total
            <= bytes_polled(polls) by {
            if i < before.len() {
                assert(all[i] == before[i]);
            } else {
                assert(all[i] == more[i - before.len()]);
            }
        }
        assert forall|i: int, j: int|
            0 <= i <= j < all.len() && (#[trigger] all[i]) is ByteCount && (
            #[trigger] all[j]) is ByteCount implies all[i]->total <= all[j]->total by {
            if j < before.len() {
                assert(all[i] == before[i] && all[j] == before[j]);
            } else {
                assert(all[j] == more[j - before.len()]);
                if i < before.len() {
                    assert(all[i] == before[i]);
                } else {
                    assert(all[i] == more[i - before.len()]);
                }
            }
        }
        assert forall|i: int| 0 <= i < all.len() && (#[trigger] all[i]) is Finished implies i > 0
            && all[i - 1] is ByteCount && all[i - 1]->total == bytes_polled(polls)
            && all[i - 1]->ByteCount_at == all[i]->Finished_at by {
            if i < before.len() {
                assert(all[i] == before[i] && all[i - 1] == before[i - 1]);
                lemma_finishes_somewhere(before, i);
                assert(polled is End);
            } else {
                assert(all[i] == more[i - before.len()]);
                assert(i - before.len() == 1);
                assert(all[i - 1] == more[0]);
            }
        }
    }
}

proof fn lemma_finishes_somewhere(events: Seq<BodyEvent>, at: int)
    requires
        0 <= at < events.len(),
        events[at] is Finished,
    ensures
        finishes(events) > 0,
    decreases events.len(),
{
    if at < events.len() - 1 {
        lemma_finishes_somewhere(events.drop_last(), at);
    }
}

/// Once `Finished` was reported it is never reported again.
pub proof fn finished_is_reported_once<F, E>(
    body: CountingBody,
    polled: FramePoll<F, E>,
    now: Timestamp,
)
    requires
        body.sent_finished,
    ensures
        body.after(polled, now).sent_finished,
        forall|i: int|
            0 <= i < body.reports(polled, now).len() ==> !(#[trigger] body.reports(polled, now)[i]
                is Finished),
{
}

/// A frame is reported exactly where at least `update_every` has passed since the
/// last report, and then with all bytes so far. The end is always reported with
/// all bytes, and nothing else is reported.
pub proof fn progress_is_reported_when_due<F, E>(
    body: CountingBody,
    frame: F,
    len: u64,
    error: E,
    now: Timestamp,
)
    requires
        body.total + len <= u64::MAX,
        body.last_sent.nanos <= now.nanos,
    ensures
        ({
            let reports = body.reports(FramePoll::<F, E>::Frame { frame, len }, now);
            let after = body.after(FramePoll::<F, E>::Frame { frame, len }, now);
            let due = now.nanos - body.last_sent.nanos >= body.update_every;
            &&& due ==> reports == seq![
                BodyEvent::ByteCount { at: now, total: (body.total + len) as u64 },
            ]
            &&& !due ==> reports.len() == 0
            &&& after.total == body.total + len
            &&& after.last_sent == if due {
                now
            } else {
                body.last_sent
            }
        }),
        body.reports(FramePoll::<F, E>::End, now).len() > 0,
        body.reports(FramePoll::<F, E>::End, now)[0] == (BodyEvent::ByteCount {
            at: now,
            total: body.total,
        }),
        body.reports(FramePoll::<F, E>::Pending, now).len() == 0,
        body.reports(FramePoll::<F, E>::Error(error), now).len() == 0,
        body.after(FramePoll::<F, E>::Pending, now) == body,
{
}

/// Two progress reports of a running body lie at least `update_every` apart.
pub proof fn reports_keep_their_distance<F, E>(
    body: CountingBody,
    frame: F,
    len: u64,
    now: Timestamp,
)
    requires
        body.total + len <= u64::MAX,
        body.reports(FramePoll::<F, E>::Frame { frame, len }, now).len() > 0,
    ensures
        time::span(body.last_sent, now) >= body.update_every,
        body.after(FramePoll::<F, E>::Frame { frame, len }, now).last_sent == now,
{
}

/// The random number generator `rand::rngs::StdRng`, carried as it is.
#[verifier::external_type_specification]
#[verifier::external_body]
pub struct ExStdRng(rand::rngs::StdRng);

/// `rand::SeedableRng::from_entropy`: a generator seeded by the operating
/// system. Nothing is claimed of the seed. The call itself panics on a system
/// that has no source of entropy.
#[verifier::external_body]
fn seeded_rng() -> StdRng {
    StdRng::from_entropy()
}

/// `rand::Rng::fill` on a byte slice: overwrites every byte with a random one.
/// The contract claims only that the number of bytes stays, and that the call
/// does not panic: this generator never runs dry.
#[verifier::external_body]
fn fill_random(rng: &mut StdRng, chunk: &mut Vec<u8>)
    ensures
        final(chunk)@.len() == old(chunk)@.len(),
    no_unwind
{
    rng.fill(&mut chunk[..]);
}

/// The most bytes that an [`UploadBody`] sends in one frame.
pub const UPLOAD_CHUNK_SIZE: usize = 262_144;

/// The most bytes that a [`DummyBody`] sends in one frame.
pub const DUMMY_CHUNK_SIZE: usize = 10_485_760;

/// How many bytes the next frame of a body holds.
pub open spec fn frame_len(remaining: usize, chunk_len: nat) -> nat {
    if remaining > chunk_len {
        chunk_len
    } else {
        remaining as nat
    }
}

/// A body that uploads chunks of random bytes until it has sent a given number
/// of bytes.
#[derive(Debug)]
pub struct UploadBody {
    remaining: usize,
    chunk: Vec<u8>,
    rng: StdRng,
}

impl UploadBody {
    #[verifier::type_invariant]
    spec fn has_chunk(self) -> bool {
        self.remaining > 0 ==> self.chunk@.len() > 0
    }

    /// How many bytes are left to send.
    pub closed spec fn remaining(&self) -> usize {
        self.remaining
    }

    /// The chunk that was sent last, or that was prepared at the start.
    pub closed spec fn chunk(&self) -> Seq<u8> {
        self.chunk@
    }

    /// A body of `size` random bytes.
    pub fn new(size: usize) -> (r: Self)
        ensures
            r.remaining() == size,
            r.chunk().len() == (if size < UPLOAD_CHUNK_SIZE { size } else { UPLOAD_CHUNK_SIZE }),
    {
        let mut rng = seeded_rng();
        let chunk_size: usize = if size < UPLOAD_CHUNK_SIZE {
            size
        } else {
            UPLOAD_CHUNK_SIZE
        };
        let mut chunk: Vec<u8> = vec![0u8; chunk_size];
        fill_random(&mut rng, &mut chunk);
        UploadBody { remaining: size, chunk, rng }
    }

    /// The next frame: a fresh chunk while more than a chunk is left, then as
    /// much of the last chunk as is owed, then `None`.
    pub fn poll_frame(&mut self) -> (frame: Option<Vec<u8>>)
        ensures
            (frame is None) == (old(self).remaining() == 0),
            frame is None ==> *final(self) == *old(self),
            frame matches Some(data) ==> {
                &&& data@.len() == frame_len(old(self).remaining(), old(self).chunk().len())
                &&& data@.len() > 0
                &&& data@.len() == old(self).chunk().len() || data@.len() == old(self).remaining()
                &&& data@.len() <= old(self).chunk().len()
                &&& final(self).remaining() == old(self).remaining() - data@.len()
                &&& final(self).chunk().len() == old(self).chunk().len()
                &&& if old(self).remaining() > old(self).chunk().len() {
                    data@ == final(self).chunk()
                } else {
                    data@ == old(self).chunk().take(data@.len() as int) && final(self).chunk()
                        == old(self).chunk()
                }
            },
    {
        proof {
            use_type_invariant(&*self);
        }
        if self.remaining == 0 {
            None
        } else if self.remaining > self.chunk.len() {
            let mut chunk: Vec<u8> = vec![0u8; self.chunk.len()];
            fill_random(&mut self.rng, &mut chunk);
            let data = copy_prefix(&chunk, chunk.len());
            assert(chunk@.take(chunk@.len() as int) =~= chunk@);
            let remaining: usize = self.remaining - chunk.len();
            self.remaining = remaining;
            self.chunk = chunk;
            Some(data)
        } else {
            let data = copy_prefix(&self.chunk, self.remaining);
            self.remaining = 0;
            Some(data)
        }
    }

    /// Whether everything has been sent.
    pub fn is_end_stream(&self) -> (r: bool)
        ensures
            r == (self.remaining() == 0),
    {
        self.remaining == 0
    }

    /// Exactly how many bytes are left to send.
    pub fn size_hint(&self) -> (r: u64)
        ensures
            r == self.remaining(),
    {
        self.remaining as u64
    }
}

/// A copy of the first `len` bytes.
fn copy_prefix(bytes: &Vec<u8>, len: usize) -> (r: Vec<u8>)
    requires
        len <= bytes@.len(),
    ensures
        r@ == bytes@.take(len as int),
{
    let r = vstd::slice::slice_to_vec(vstd::slice::slice_subrange(bytes.as_slice(), 0, len));
    assert(bytes@.subrange(0, len as int) =~= bytes@.take(len as int));
    r
}

/// A body that uploads the same byte over and over until it has sent a given
/// number of bytes.
#[derive(Debug)]
pub struct DummyBody {
    remaining: usize,
    chunk_len: usize,
}

impl DummyBody {
    #[verifier::type_invariant]
    spec fn has_chunk(self) -> bool {
        self.remaining > 0 ==> self.chunk_len > 0
    }

    /// How many bytes are left to send.
    pub closed spec fn remaining(&self) -> usize {
        self.remaining
    }

    /// The most bytes that one frame holds.
    pub closed spec fn chunk_len(&self) -> usize {
        self.chunk_len
    }

    /// A body of `size` times the byte `0x55`.
    pub fn new(size: usize) -> (r: Self)
        ensures
            r.remaining() == size,
            r.chunk_len() == (if size < DUMMY_CHUNK_SIZE { size } else { DUMMY_CHUNK_SIZE }),
    {
        let chunk_len: usize = if size < DUMMY_CHUNK_SIZE {
            size
        } else {
            DUMMY_CHUNK_SIZE
        };
        DummyBody { remaining: size, chunk_len }
    }

    /// The next frame: a chunk, or what is left where that is less, then
    /// `None`.
    pub fn poll_frame(&mut self) -> (frame: Option<Vec<u8>>)
        ensures
            (frame is None) == (old(self).remaining() == 0),
            final(self).chunk_len() == old(self).chunk_len(),
            frame is None ==> final(self).remaining() == 0,
            frame matches Some(data) ==> {
                &&& data@ == Seq::new(
                    frame_len(old(self).remaining(), old(self).chunk_len() as nat),
                    |i: int| 0x55u8,
                )
                &&& data@.len() > 0
                &&& data@.len() == old(self).chunk_len() || data@.len() == old(self).remaining()
                &&& data@.len() <= old(self).chunk_len()
                &&& final(self).remaining() == old(self).remaining() - data@.len()
            },
    {
        proof {
            use_type_invariant(&*self);
        }
        if self.remaining == 0 {
            None
        } else if self.remaining > self.chunk_len {
            let data: Vec<u8> = vec![0x55u8; self.chunk_len];
            self.remaining = self.remaining - self.chunk_len;
            Some(data)
        } else {
            let data: Vec<u8> = vec![0x55u8; self.remaining];
            self.remaining = 0;
            Some(data)
        }
    }

    /// Exactly how many bytes are left to send.
    pub fn size_hint(&self) -> (r: u64)
        ensures
            r == self.remaining(),
    {
        self.remaining as u64
    }
}

} // verus!
