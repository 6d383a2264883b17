//! One continuous byte count for an upload made of many requests.

use vstd::prelude::*;

use crate::body::BodyEvent;
use crate::counter;
use crate::stats;
use crate::text;
use crate::time::Timestamp;

verus! {

/// Turns the events of consecutive requests into one stream with a single
/// growing count.
///
/// Each request counts its bytes from zero. A consumer that takes differences
/// of the counts would see them fall at every boundary between two requests, so
/// the counts are rebased onto the bytes of the requests before.
#[derive(Debug, Clone, Copy, PartialEq, Eq, Structural)]
pub struct CumulativeRelay {
    /// Bytes of the requests that have completed.
    pub base: u64,
    /// The last count of the request in flight.
    pub last: u64,
}

/// What to do with a relayed event.
#[derive(Debug)]
pub enum RelayAction {
    /// Pass this event on.
    Forward(BodyEvent),
    /// The request in flight completed. Nothing is passed on: the load as a
    /// whole goes on with the next request.
    RequestFinished,
    /// The load failed. Pass this event on and stop.
    Fail(BodyEvent),
}

impl Default for CumulativeRelay {
    fn default() -> (r: Self)
        ensures
            r == (CumulativeRelay { base: 0, last: 0 }),
    {
        CumulativeRelay { base: 0, last: 0 }
    }
}

impl CumulativeRelay {
    pub open spec fn wf(self) -> bool {
        self.base + self.last <= u64::MAX
    }

    /// Whether the count of this event can be rebased.
    pub open spec fn accepts(self, event: BodyEvent) -> bool {
        event matches BodyEvent::ByteCount { total, .. } ==> self.base + total <= u64::MAX
    }

    /// The relay after an event.
    pub open spec fn after(self, event: BodyEvent) -> CumulativeRelay {
        match event {
            BodyEvent::ByteCount { total, .. } => CumulativeRelay { last: total, ..self },
            BodyEvent::Finished { .. } => CumulativeRelay {
                base: (self.base + self.last) as u64,
                last: 0,
            },
            BodyEvent::Failed { .. } => self,
        }
    }

    /// What to do with an event.
    pub open spec fn action(self, event: BodyEvent) -> RelayAction {
        match event {
            BodyEvent::ByteCount { at, total } => RelayAction::Forward(
                BodyEvent::ByteCount { at, total: (self.base + total) as u64 },
            ),
            BodyEvent::Finished { .. } => RelayAction::RequestFinished,
            BodyEvent::Failed { .. } => RelayAction::Fail(event),
        }
    }

    /// Relays one event of the request in flight.
    pub fn on_event(&mut self, event: BodyEvent) -> (action: RelayAction)
        requires
            old(self).wf(),
            old(self).accepts(event),
        ensures
            final(self).wf(),
            *final(self) == old(self).after(event),
            action == old(self).action(event),
    {
        match event {
            BodyEvent::ByteCount { at, total } => {
                self.last = total;
                RelayAction::Forward(BodyEvent::ByteCount { at, total: self.base + total })
            },
            BodyEvent::Finished { .. } => {
                self.base = self.base + self.last;
                self.last = 0;
                RelayAction::RequestFinished
            },
            BodyEvent::Failed { at, reason } => RelayAction::Fail(BodyEvent::Failed { at, reason }),
        }
    }

    /// The bytes sent by all requests so far.
    pub fn total(&self) -> (r: u64)
        requires
            self.wf(),
        ensures
            r == self.base + self.last,
    {
        self.base + self.last
    }
}

/// The last count of the request in flight, zero at the start of a request.
pub open spec fn open_count(events: Seq<BodyEvent>) -> int
    decreases events.len(),
{
    if events.len() == 0 {
        0
    } else {
        match events.last() {
            BodyEvent::ByteCount { total, .. } => total as int,
            BodyEvent::Finished { .. } => 0,
            BodyEvent::Failed { .. } => open_count(events.drop_last()),
        }
    }
}

/// The bytes of all completed requests: each one's last count.
pub open spec fn completed(events: Seq<BodyEvent>) -> int
    decreases events.len(),
{
    if events.len() == 0 {
        0
    } else {
        completed(events.drop_last()) + if events.last() is Finished {
            open_count(events.drop_last())
        } else {
            0
        }
    }
}

/// The byte counts passed on, each with its time.
pub open spec fn relayed(events: Seq<BodyEvent>) -> Seq<(Timestamp, u64)>
    decreases events.len(),
{
    if events.len() == 0 {
        seq![]
    } else {
        let before = relayed(events.drop_last());
        match events.last() {
            BodyEvent::ByteCount { at, total } => before.push(
                (at, (completed(events.drop_last()) + total) as u64),
            ),
            _ => before,
        }
    }
}

/// The relay after a series of events.
pub open spec fn after_events(events: Seq<BodyEvent>) -> CumulativeRelay
    decreases events.len(),
{
    if events.len() == 0 {
        CumulativeRelay { base: 0, last: 0 }
    } else {
        after_events(events.drop_last()).after(events.last())
    }
}

/// Within each request the counts do not fall.
pub open spec fn counts_up(events: Seq<BodyEvent>) -> bool
    decreases events.len(),
{
    events.len() > 0 ==> {
        &&& counts_up(events.drop_last())
        &&& events.last() matches BodyEvent::ByteCount { total, .. } ==> open_count(
            events.drop_last(),
        ) <= total
    }
}

/// All counts can be rebased without overflow.
pub open spec fn counts_fit(events: Seq<BodyEvent>) -> bool
    decreases events.len(),
{
    events.len() > 0 ==> {
        &&& counts_fit(events.drop_last())
        &&& completed(events) + open_count(events) <= u64::MAX
    }
}

/// Each byte count comes later than the one before.
pub open spec fn times_rise(events: Seq<BodyEvent>) -> bool
    decreases events.len(),
{
    events.len() > 0 ==> {
        &&& times_rise(events.drop_last())
        &&& events.last() matches BodyEvent::ByteCount { at, .. } ==> relayed(
            events.drop_last(),
        ).len() > 0 ==> relayed(events.drop_last()).last().0.nanos < at.nanos
    }
}

/// What a counter series holds after the given readings were added one by one.
pub open spec fn recorded(readings: Seq<(Timestamp, u64)>) -> Seq<(Timestamp, u64)>
    decreases readings.len(),
{
    if readings.len() == 0 {
        seq![]
    } else {
        let before = recorded(readings.drop_last());
        before.insert(
            stats::count_before(before, readings.last().0) as int,
            readings.last(),
        )
    }
}

/// The relay counts every byte of every request exactly once.
pub proof fn every_byte_counts_once(events: Seq<BodyEvent>)
    requires
        counts_fit(events),
    ensures
        after_events(events).base == completed(events),
        after_events(events).last == open_count(events),
        after_events(events).wf(),
    decreases events.len(),
{
    if events.len() > 0 {
        every_byte_counts_once(events.drop_last());
    }
}

/// A count is passed on behind the bytes of all requests before. When a request
/// that counted `sent` bytes finishes, the next one counts on from there, and
/// nothing is lost or counted twice in between. The end of a request is not passed
/// on; a failure is, as it is, and changes no count.
pub proof fn next_request_counts_on(
    relay: CumulativeRelay,
    sent: u64,
    next: u64,
    at: Timestamp,
    then: Timestamp,
    reason: String,
)
    requires
        relay.base + sent + next <= u64::MAX,
    ensures
        relay.action(BodyEvent::Finished { at }) == RelayAction::RequestFinished,
        relay.action(BodyEvent::Failed { at, reason }) == RelayAction::Fail(
            BodyEvent::Failed { at, reason },
        ),
        relay.after(BodyEvent::Failed { at, reason }) == relay,
        relay.action(BodyEvent::ByteCount { at, total: sent }) == RelayAction::Forward(
            BodyEvent::ByteCount { at, total: (relay.base + sent) as u64 },
        ),
        ({
            let counted = relay.after(BodyEvent::ByteCount { at, total: sent });
            let finished = counted.after(BodyEvent::Finished { at });
            &&& counted.base + counted.last == relay.base + sent
            &&& finished.base + finished.last == relay.base + sent
            &&& finished.action(BodyEvent::ByteCount { at: then, total: next })
                == RelayAction::Forward(
                BodyEvent::ByteCount { at: then, total: (relay.base + sent + next) as u64 },
            )
        }),
{
}

/// Across all boundaries between requests the relayed count never falls.
pub proof fn relayed_count_never_falls(events: Seq<BodyEvent>)
    requires
        counts_up(events),
        counts_fit(events),
    ensures
        counter::never_decreases(relayed(events)),
        relayed(events).len() > 0 ==> relayed(events).last().1 <= completed(events) + open_count(
            events,
        ),
        open_count(events) >= 0,
        completed(events) >= 0,
    decreases events.len(),
{
    if events.len() > 0 {
        relayed_count_never_falls(events.drop_last());
        let before = relayed(events.drop_last());
        if before.len() > 0 {
            assert(before[before.len() - 1] == before.last());
        }
    }
}

/// Byte counts relayed at rising times are recorded in that order, and no
/// interval shows a negative number of bytes.
pub proof fn relayed_growth_is_not_negative(
    events: Seq<BodyEvent>,
    from: Timestamp,
    to: Timestamp,
)
    requires
        counts_up(events),
        counts_fit(events),
        times_rise(events),
        from.nanos <= to.nanos,
    ensures
        recorded(relayed(events)) == relayed(events),
        counter::growth(recorded(relayed(events)), from, to) >= 0,
{
    lemma_recorded_in_order(events);
    counter::growth_is_not_negative(relayed(events), from, to);
}

proof fn lemma_recorded_in_order(events: Seq<BodyEvent>)
    requires
        counts_up(events),
        counts_fit(events),
        times_rise(events),
    ensures
        recorded(relayed(events)) == relayed(events),
        stats::in_time_order(relayed(events)),
        counter::never_decreases(relayed(events)),
    decreases events.len(),
{
    relayed_count_never_falls(events);
    if events.len() > 0 {
        let rest = events.drop_last();
        lemma_recorded_in_order(rest);
        relayed_count_never_falls(rest);
        match events.last() {
            BodyEvent::ByteCount { at, total } => {
                let before = relayed(rest);
                let count = (completed(rest) + total) as u64;
                counter::later_reading_keeps_growth(before, at, count);
                assert(relayed(events).drop_last() =~= before);
            },
            _ => {},
        }
    }
}

/// What the driver of a re-issued upload does next.
#[derive(Debug)]
pub enum ReissueAction {
    /// Pass the event on, then wait for the next one. Stop where nobody
    /// listens any more.
    Forward(BodyEvent),
    /// Pass the event on where somebody listens, and stop.
    ForwardAndStop(BodyEvent),
    /// Start the next request on the same connection.
    Issue,
    /// Go on with the events of the request just started, and watch what is
    /// left of the one before for a late failure.
    Continue,
    /// Stop without a word.
    Stop,
}

/// What happens to a re-issued upload.
#[derive(Debug)]
pub enum ReissueInput {
    /// The request in flight reported this, or its reports ended.
    Event(Option<BodyEvent>),
    /// The next request could not even be issued.
    NotIssued(String),
    /// The next request was issued and failed to start.
    NotStarted(String),
    /// The next request started.
    Started,
    /// The test is over.
    Shutdown,
}

/// Drives an upload load as an open-ended sequence of bounded requests, all on
/// one connection.
///
/// A server that limits the size of a request body would reject a single
/// endless request part way through. Bounded requests, one after the other,
/// keep the link loaded without reaching that limit.
#[derive(Debug, Clone, Copy, PartialEq, Eq, Structural)]
pub struct UploadReissue {
    /// The most bytes that one request sends.
    pub bound: usize,
    /// How many requests were started.
    pub requests: u64,
    pub relay: CumulativeRelay,
}

/// `upload terminated early after {requests} request(s), {total} bytes`
pub open spec fn early_end_message(requests: nat, total: nat) -> Seq<char> {
    "upload terminated early after "@ + text::decimal(requests) + " request(s), "@ + text::decimal(
        total,
    ) + " bytes"@
}

/// `could not start upload request {requests}: {error}`
pub open spec fn not_started_message(requests: nat, error: Seq<char>) -> Seq<char> {
    "could not start upload request "@ + text::decimal(requests) + ": "@ + error
}

/// `upload request {requests} failed to start: {error}`
pub open spec fn start_failed_message(requests: nat, error: Seq<char>) -> Seq<char> {
    "upload request "@ + text::decimal(requests) + " failed to start: "@ + error
}

/// Whether `action` stops with a failure at `at` for the given reason.
pub open spec fn fails_with(action: ReissueAction, at: Timestamp, reason: Seq<char>) -> bool {
    action matches ReissueAction::ForwardAndStop(event) && event matches BodyEvent::Failed {
        at: failed_at,
        reason: text,
    } && failed_at == at && text@ == reason
}

impl UploadReissue {
    /// A driver whose first request is already under way.
    pub fn new(bound: usize) -> (r: Self)
        ensures
            r == (UploadReissue {
                bound,
                requests: 1,
                relay: CumulativeRelay { base: 0, last: 0 },
            }),
    {
        UploadReissue { bound, requests: 1, relay: CumulativeRelay { base: 0, last: 0 } }
    }

    /// Whether `action` and `after` are what becomes of the upload when `input`
    /// happens at `now`.
    pub open spec fn takes(
        self,
        input: ReissueInput,
        listener_gone: bool,
        now: Timestamp,
        action: ReissueAction,
        after: UploadReissue,
    ) -> bool {
        match input {
            ReissueInput::Event(None) => after == self && fails_with(
                action,
                now,
                early_end_message(
                    self.requests as nat,
                    (self.relay.base + self.relay.last) as nat,
                ),
            ),
            ReissueInput::Event(Some(event)) => after == (UploadReissue {
                relay: self.relay.after(event),
                ..self
            }) && action == match self.relay.action(event) {
                RelayAction::Forward(forwarded) => ReissueAction::Forward(forwarded),
                RelayAction::Fail(failed) => ReissueAction::ForwardAndStop(failed),
                RelayAction::RequestFinished => if listener_gone {
                    ReissueAction::Stop
                } else {
                    ReissueAction::Issue
                },
            },
            ReissueInput::NotIssued(error) => after == self && fails_with(
                action,
                now,
                not_started_message(self.requests as nat, error@),
            ),
            ReissueInput::NotStarted(error) => after == self && fails_with(
                action,
                now,
                start_failed_message(self.requests as nat, error@),
            ),
            ReissueInput::Started => action == ReissueAction::Continue && after == (UploadReissue {
                requests: (self.requests + 1) as u64,
                ..self
            }),
            ReissueInput::Shutdown => action == ReissueAction::Stop && after == self,
        }
    }

    /// Takes what happened to the upload, and says what to do next.
    pub fn advance(&mut self, input: ReissueInput, listener_gone: bool, now: Timestamp) -> (action:
        ReissueAction)
        requires
            old(self).relay.wf(),
            input matches ReissueInput::Event(Some(event)) ==> old(self).relay.accepts(event),
            input is Started ==> old(self).requests < u64::MAX,
        ensures
            final(self).relay.wf(),
            old(self).takes(input, listener_gone, now, action, *final(self)),
    {
        match input {
            ReissueInput::Event(event) => self.on_event(event, listener_gone, now),
            ReissueInput::NotIssued(error) => self.on_issue_failed(error.as_str(), now),
            ReissueInput::NotStarted(error) => self.on_start_failed(error.as_str(), now),
            ReissueInput::Started => self.on_started(),
            ReissueInput::Shutdown => self.on_shutdown(),
        }
    }

    /// The test is over: stop without a word. The consumer knows about the
    /// teardown.
    pub fn on_shutdown(&self) -> (action: ReissueAction)
        ensures
            action == ReissueAction::Stop,
    {
        ReissueAction::Stop
    }

    /// Takes the next event of the request in flight, `None` where its events
    /// ended before it finished. `listener_gone` says whether nobody listens
    /// to the relayed events any more.
    pub fn on_event(&mut self, event: Option<BodyEvent>, listener_gone: bool, now: Timestamp) -> (action:
        ReissueAction)
        requires
            old(self).relay.wf(),
            event matches Some(e) ==> old(self).relay.accepts(e),
        ensures
            final(self).relay.wf(),
            final(self).bound == old(self).bound,
            final(self).requests == old(self).requests,
            match event {
                None => final(self).relay == old(self).relay && fails_with(
                    action,
                    now,
                    early_end_message(
                        old(self).requests as nat,
                        (old(self).relay.base + old(self).relay.last) as nat,
                    ),
                ),
                Some(e) => final(self).relay == old(self).relay.after(e) && action == match old(self).relay.action(e) {
                    RelayAction::Forward(forwarded) => ReissueAction::Forward(forwarded),
                    RelayAction::Fail(failed) => ReissueAction::ForwardAndStop(failed),
                    RelayAction::RequestFinished => if listener_gone {
                        ReissueAction::Stop
                    } else {
                        ReissueAction::Issue
                    },
                },
            },
    {
        match event {
            None => {
                let mut reason = String::from_str("upload terminated early after ");
                text::push_decimal(&mut reason, self.requests);
                reason.append(" request(s), ");
                text::push_decimal(&mut reason, self.relay.total());
                reason.append(" bytes");
                ReissueAction::ForwardAndStop(BodyEvent::Failed { at: now, reason })
            },
            Some(event) => match self.relay.on_event(event) {
                RelayAction::Forward(event) => ReissueAction::Forward(event),
                RelayAction::Fail(event) => ReissueAction::ForwardAndStop(event),
                RelayAction::RequestFinished => if listener_gone {
                    ReissueAction::Stop
                } else {
                    ReissueAction::Issue
                },
            },
        }
    }

    /// The next request could not even be issued.
    pub fn on_issue_failed(&self, error: &str, now: Timestamp) -> (action: ReissueAction)
        ensures
            fails_with(action, now, not_started_message(self.requests as nat, error@)),
    {
        let mut reason = String::from_str("could not start upload request ");
        text::push_decimal(&mut reason, self.requests);
        reason.append(": ");
        reason.append(error);
        ReissueAction::ForwardAndStop(BodyEvent::Failed { at: now, reason })
    }

    /// The next request was issued and failed to start.
    pub fn on_start_failed(&self, error: &str, now: Timestamp) -> (action: ReissueAction)
        ensures
            fails_with(action, now, start_failed_message(self.requests as nat, error@)),
    {
        let mut reason = String::from_str("upload request ");
        text::push_decimal(&mut reason, self.requests);
        reason.append(" failed to start: ");
        reason.append(error);
        ReissueAction::ForwardAndStop(BodyEvent::Failed { at: now, reason })
    }

    /// The next request started.
    pub fn on_started(&mut self) -> (action: ReissueAction)
        requires
            old(self).requests < u64::MAX,
        ensures
            *final(self) == (UploadReissue {
                requests: (old(self).requests + 1) as u64,
                ..*old(self)
            }),
            action == ReissueAction::Continue,
    {
        self.requests = self.requests + 1;
        ReissueAction::Continue
    }
}

/// One step of a re-issued upload.
pub struct Step {
    pub before: UploadReissue,
    pub input: ReissueInput,
    pub listener_gone: bool,
    pub now: Timestamp,
    pub action: ReissueAction,
    pub after: UploadReissue,
}

impl Step {
    /// Whether the upload takes this step.
    pub open spec fn is_taken(self) -> bool {
        self.before.takes(self.input, self.listener_gone, self.now, self.action, self.after)
    }

    /// Whether the upload goes on after this step.
    pub open spec fn goes_on(self) -> bool {
        self.action is Forward || self.action is Issue || self.action is Continue
    }

    /// Whether `next` may follow: what comes after a request was to be issued is
    /// what became of it, and what comes after anything else is a report.
    pub open spec fn leads_to(self, next: Step) -> bool {
        &&& next.before == self.after
        &&& if self.action is Issue {
            next.input is NotIssued || next.input is NotStarted || next.input is Started
        } else {
            next.input is Event
        }
    }

    /// Whether the request in flight finished in this step.
    pub open spec fn finishes(self) -> bool {
        self.input matches ReissueInput::Event(Some(event)) && event is Finished
    }
}

/// Whether the steps are those of an upload that is not shut down, and to which
/// somebody listens.
pub open spec fn is_run(steps: Seq<Step>) -> bool {
    &&& steps.len() > 0 ==> steps[0].input is Event
    &&& forall|i: int|
        0 <= i < steps.len() ==> (#[trigger] steps[i]).is_taken() && !steps[i].listener_gone
            && !(steps[i].input is Shutdown)
    &&& forall|i: int|
        0 <= i < steps.len() - 1 ==> (#[trigger] steps[i]).goes_on() && steps[i].leads_to(
            steps[i + 1],
        )
}

/// How many further requests are to be issued in some steps.
pub open spec fn issues(steps: Seq<Step>) -> nat
    decreases steps.len(),
{
    if steps.len() == 0 {
        0
    } else {
        issues(steps.drop_last()) + if steps.last().action is Issue {
            1nat
        } else {
            0nat
        }
    }
}

/// How many requests finished in some steps.
pub open spec fn finished_requests(steps: Seq<Step>) -> nat
    decreases steps.len(),
{
    if steps.len() == 0 {
        0
    } else {
        finished_requests(steps.drop_last()) + if steps.last().finishes() {
            1nat
        } else {
            0nat
        }
    }
}

/// As long as the test runs and somebody listens, every request that finishes
/// leads to exactly one further request, no end of a request is passed on, and
/// the upload stops only by passing on a failure.
pub proof fn upload_goes_on_until_it_fails(steps: Seq<Step>)
    requires
        is_run(steps),
    ensures
        issues(steps) == finished_requests(steps),
        forall|i: int|
            0 <= i < steps.len() ==> ((#[trigger] steps[i]).action is Issue == steps[i].finishes()),
        forall|i: int|
            0 <= i < steps.len() ==> match (#[trigger] steps[i]).action {
                ReissueAction::Forward(event) => event is ByteCount,
                ReissueAction::ForwardAndStop(event) => event is Failed,
                _ => true,
            },
        steps.len() > 0 && !steps.last().goes_on() ==> steps.last().action is ForwardAndStop,
    decreases steps.len(),
{
    if steps.len() > 0 {
        let rest = steps.drop_last();
        assert forall|i: int| 0 <= i < rest.len() implies (#[trigger] rest[i]).is_taken()
            && !rest[i].listener_gone && !(rest[i].input is Shutdown) by {
            assert(rest[i] == steps[i]);
        }
        assert forall|i: int| 0 <= i < rest.len() - 1 implies (#[trigger] rest[i]).goes_on()
            && rest[i].leads_to(rest[i + 1]) by {
            assert(rest[i] == steps[i] && rest[i + 1] == steps[i + 1]);
        }
        upload_goes_on_until_it_fails(rest);
        assert(steps[steps.len() - 1] == steps.last());
        assert forall|i: int| 0 <= i < rest.len() implies (#[trigger] steps[i]) == rest[i] by {}
    }
}

/// The most bytes that one request of an upload sends stay the same throughout.
pub proof fn requests_stay_bounded(steps: Seq<Step>)
    requires
        is_run(steps),
        steps.len() > 0,
    ensures
        steps.last().after.bound == steps[0].before.bound,
    decreases steps.len(),
{
    let rest = steps.drop_last();
    assert(steps.last().is_taken());
    if rest.len() > 0 {
        assert forall|i: int| 0 <= i < rest.len() implies (#[trigger] rest[i]).is_taken()
            && !rest[i].listener_gone && !(rest[i].input is Shutdown) by {
            assert(rest[i] == steps[i]);
        }
        assert forall|i: int| 0 <= i < rest.len() - 1 implies (#[trigger] rest[i]).goes_on()
            && rest[i].leads_to(rest[i + 1]) by {
            assert(rest[i] == steps[i] && rest[i + 1] == steps[i + 1]);
        }
        requests_stay_bounded(rest);
        assert(steps[rest.len() - 1].leads_to(steps[rest.len() as int]));
        assert(rest.last() == steps[rest.len() - 1]);
    }
}

/// What to pass on of an event that comes after its request was replaced: only
/// a failure.
pub open spec fn passed(event: BodyEvent) -> Option<BodyEvent> {
    if event is Failed {
        Some(event)
    } else {
        None
    }
}

/// What to pass on of an event that comes after its request was replaced: only
/// a failure, which ends the watch. A rejection may arrive that late.
pub fn watch_tail(event: BodyEvent) -> (forward: Option<BodyEvent>)
    ensures
        forward == passed(event),
{
    match event {
        BodyEvent::Failed { at, reason } => Some(BodyEvent::Failed { at, reason }),
        _ => None,
    }
}

/// What is passed on of a series of events by a watch that ends with the first
/// event it passes on.
pub open spec fn tail_of(events: Seq<BodyEvent>) -> Seq<BodyEvent>
    decreases events.len(),
{
    if events.len() == 0 {
        seq![]
    } else {
        match passed(events[0]) {
            Some(event) => seq![event],
            None => tail_of(events.drop_first()),
        }
    }
}

/// Of a series of events exactly the first failure is passed on, and nothing
/// where there is none.
pub proof fn first_failure_is_passed_on(events: Seq<BodyEvent>)
    ensures
        forall|i: int|
            0 <= i < events.len() && (#[trigger] events[i]) is Failed && (forall|j: int|
                0 <= j < i ==> !((#[trigger] events[j]) is Failed)) ==> tail_of(events)
                == seq![events[i]],
        (forall|i: int| 0 <= i < events.len() ==> !((#[trigger] events[i]) is Failed))
            ==> tail_of(events).len() == 0,
    decreases events.len(),
{
    if events.len() > 0 {
        let rest = events.drop_first();
        first_failure_is_passed_on(rest);
        assert forall|i: int|
            0 <= i < events.len() && (#[trigger] events[i]) is Failed && (forall|j: int|
                0 <= j < i ==> !((#[trigger] events[j]) is Failed)) implies tail_of(events)
            == seq![events[i]] by {
            if i > 0 {
                assert(!(events[0] is Failed));
                assert(rest[i - 1] == events[i]);
                assert forall|j: int| 0 <= j < i - 1 implies !((#[trigger] rest[j]) is Failed) by {
                    assert(rest[j] == events[j + 1]);
                }
            }
        }
        if forall|i: int| 0 <= i < events.len() ==> !((#[trigger] events[i]) is Failed) {
            assert(!(events[0] is Failed));
            assert forall|j: int| 0 <= j < rest.len() implies !((#[trigger] rest[j]) is Failed) by {
                assert(rest[j] == events[j + 1]);
            }
        }
    }
}

} // verus!
