//! Load-generating connections: how their transfers fare, and which of them
//! still run.

use http::{HeaderMap, HeaderValue};
use rand::seq::SliceRandom;
use vstd::prelude::*;

use crate::body::BodyEvent;
use crate::client;
use crate::client::{ClientError, ConnectionChoice, Direction, Prepared, ThroughputClient};
use crate::connection::ConnectionType;
use crate::counter::CounterSeries;
use crate::headers;
use crate::relay::UploadReissue;
use crate::scoped_headers;
use crate::scoped_headers::ScopedHeaders;
use crate::stats;
use crate::text;
use crate::time::Timestamp;
use crate::uri;
use crate::uri::Uri;

verus! {

/// What is known about a load-generating transfer.
#[derive(Debug)]
pub struct LoadState {
    /// The bytes transferred over time.
    pub total_bytes_series: CounterSeries,
    /// When the transfer completed.
    pub finished_at: Option<Timestamp>,
    /// The transfer ended without completing.
    pub failed: bool,
    /// Why the transfer failed, where a reason was given.
    pub failure_reason: Option<String>,
    /// The load is being torn down: the end of its events is no failure.
    pub stopping: bool,
}

/// The values behind a [`LoadState`].
#[verifier::ext_equal]
pub struct Transfer {
    pub readings: Seq<(Timestamp, u64)>,
    pub finished_at: Option<Timestamp>,
    pub failed: bool,
    pub failure_reason: Option<Seq<char>>,
    pub stopping: bool,
}

impl View for LoadState {
    type V = Transfer;

    open spec fn view(&self) -> Transfer {
        Transfer {
            readings: self.total_bytes_series@,
            finished_at: self.finished_at,
            failed: self.failed,
            failure_reason: uri::chars_of(self.failure_reason),
            stopping: self.stopping,
        }
    }
}

impl Transfer {
    /// The transfer after an event.
    pub open spec fn after(self, event: BodyEvent) -> Transfer {
        match event {
            BodyEvent::ByteCount { at, total } => Transfer {
                readings: self.readings.insert(
                    stats::count_before(self.readings, at) as int,
                    (at, total),
                ),
                ..self
            },
            BodyEvent::Finished { at } => Transfer { finished_at: Some(at), ..self },
            BodyEvent::Failed { reason, .. } => Transfer {
                failed: true,
                failure_reason: Some(reason@),
                ..self
            },
        }
    }

    /// The transfer after a series of events.
    pub open spec fn after_all(self, events: Seq<BodyEvent>) -> Transfer
        decreases events.len(),
    {
        if events.len() == 0 {
            self
        } else {
            self.after_all(events.drop_last()).after(events.last())
        }
    }

    /// The transfer after its events ended. One that did not finish before has
    /// failed, unless it is being torn down.
    pub open spec fn disconnected(self) -> Transfer {
        Transfer {
            failed: self.failed || (self.finished_at is None && !self.stopping),
            ..self
        }
    }

    /// The transfer after the events at hand, and the end of all events where
    /// `disconnected`.
    pub open spec fn drained(self, events: Seq<BodyEvent>, disconnected: bool) -> Transfer {
        if disconnected {
            self.after_all(events).disconnected()
        } else {
            self.after_all(events)
        }
    }

    /// The transfer neither completed nor failed.
    pub open spec fn ongoing(self) -> bool {
        self.finished_at is None && !self.failed
    }
}

impl Default for LoadState {
    fn default() -> (r: Self)
        ensures
            r@ == (Transfer {
                readings: seq![],
                finished_at: None,
                failed: false,
                failure_reason: None,
                stopping: false,
            }),
    {
        LoadState {
            total_bytes_series: CounterSeries::new(),
            finished_at: None,
            failed: false,
            failure_reason: None,
            stopping: false,
        }
    }
}

impl LoadState {
    /// Takes in one event.
    pub fn apply(&mut self, event: BodyEvent)
        ensures
            final(self)@ == old(self)@.after(event),
    {
        match event {
            BodyEvent::ByteCount { at, total } => {
                self.total_bytes_series.add(at, total);
            },
            BodyEvent::Finished { at } => {
                self.finished_at = Some(at);
            },
            BodyEvent::Failed { at: _, reason } => {
                self.failed = true;
                self.failure_reason = Some(reason);
            },
        }
    }

    /// The events of the transfer ended.
    ///
    /// A transfer that dies reports nothing. It would look as if it ran forever,
    /// and hold the place of one that does.
    pub fn on_disconnected(&mut self)
        ensures
            final(self)@ == old(self)@.disconnected(),
    {
        if self.finished_at.is_none() && !self.stopping {
            self.failed = true;
        }
    }

    /// Whether the transfer still runs: it neither completed nor failed.
    pub fn is_ongoing(&self) -> (r: bool)
        ensures
            r == self@.ongoing(),
    {
        self.finished_at.is_none() && !self.failed
    }

    /// Takes in all events at hand, and then that there will be no more, where
    /// `disconnected`. A transfer that finished before is not a failure.
    pub fn drain(&mut self, events: Vec<BodyEvent>, disconnected: bool)
        ensures
            final(self)@ == old(self)@.drained(events@, disconnected),
    {
        let ghost start = self@;
        let mut rest = events;
        let ghost all = rest@;
        let mut reversed: Vec<BodyEvent> = Vec::new();
        while rest.len() > 0
            invariant
                all == rest@ + reversed@.reverse(),
            decreases rest@.len(),
        {
            let ghost before = rest@;
            if let Some(event) = rest.pop() {
                let ghost later = reversed@;
                reversed.push(event);
                assert(before =~= rest@.push(event));
                assert(reversed@.reverse() =~= seq![event] + later.reverse());
            }
        }
        assert(all =~= reversed@.reverse());
        assert(all.take(0) =~= Seq::empty());
        while reversed.len() > 0
            invariant
                reversed@.len() <= all.len(),
                reversed@.reverse() == all.skip(all.len() - reversed@.len()),
                self@ == start.after_all(all.take(all.len() - reversed@.len())),
            decreases reversed@.len(),
        {
            let ghost done = all.len() - reversed@.len();
            let ghost before = reversed@;
            if let Some(event) = reversed.pop() {
                proof {
                    assert(before.reverse()[0] == event);
                    assert(all.skip(done)[0] == all[done]);
                    assert(all.take(done + 1).drop_last() =~= all.take(done));
                    assert(reversed@.reverse() =~= before.reverse().drop_first());
                    assert(all.skip(done).drop_first() =~= all.skip(done + 1));
                }
                self.apply(event);
            }
        }
        assert(all.take(all.len() as int) =~= all);
        if disconnected {
            self.on_disconnected();
        }
    }
}

/// A load-generating connection and its transfer.
#[derive(Debug)]
pub struct LoadedConnection<C> {
    pub connection: C,
    pub state: LoadState,
}

impl<C> LoadedConnection<C> {
    /// A connection whose transfer has just begun.
    pub fn new(connection: C) -> (r: Self)
        ensures
            r.connection == connection,
            r.state@ == (Transfer {
                readings: seq![],
                finished_at: None,
                failed: false,
                failure_reason: None,
                stopping: false,
            }),
    {
        LoadedConnection { connection, state: LoadState::default() }
    }

    /// Takes in all events at hand.
    pub fn update(&mut self, events: Vec<BodyEvent>, disconnected: bool)
        ensures
            final(self).connection == old(self).connection,
            final(self).state@ == old(self).state@.drained(events@, disconnected),
    {
        self.state.drain(events, disconnected);
    }

    /// The bytes transferred over time.
    pub fn total_bytes_series(&self) -> (r: &CounterSeries)
        ensures
            *r == self.state.total_bytes_series,
    {
        &self.state.total_bytes_series
    }

    /// Whether the connection still transfers.
    pub fn is_ongoing(&self) -> (r: bool)
        ensures
            r == self.state@.ongoing(),
    {
        self.state.is_ongoing()
    }

    /// Whether the connection ended early with an error.
    pub fn has_failed(&self) -> (r: bool)
        ensures
            r == self.state@.failed,
    {
        self.state.failed
    }

    /// Why the connection failed, where a reason was given.
    pub fn failure_reason(&self) -> (r: Option<&str>)
        ensures
            match r {
                Some(reason) => self.state@.failure_reason == Some(reason@),
                None => self.state@.failure_reason is None,
            },
    {
        match &self.state.failure_reason {
            Some(reason) => Some(reason.as_str()),
            None => None,
        }
    }

    /// Tears the transfer down: takes in the events at hand, and takes their
    /// end for what it is.
    pub fn stop(&mut self, events: Vec<BodyEvent>)
        ensures
            final(self).connection == old(self).connection,
            final(self).state@ == (Transfer { stopping: true, ..old(self).state@ }).drained(
                events@,
                true,
            ),
    {
        self.state.stopping = true;
        self.state.drain(events, true);
    }
}

/// Teardown by itself never turns a healthy transfer into a failed one: it
/// fails only where one of its last events says so.
pub proof fn teardown_is_no_failure(transfer: Transfer, events: Seq<BodyEvent>)
    requires
        !transfer.failed,
        forall|i: int| 0 <= i < events.len() ==> !(#[trigger] events[i] is Failed),
    ensures
        !(Transfer { stopping: true, ..transfer }).drained(events, true).failed,
    decreases events.len(),
{
    let stopping = Transfer { stopping: true, ..transfer };
    lemma_stopping_stays(stopping, events);
}

proof fn lemma_stopping_stays(stopping: Transfer, events: Seq<BodyEvent>)
    requires
        stopping.stopping,
        !stopping.failed,
        forall|i: int| 0 <= i < events.len() ==> !(#[trigger] events[i] is Failed),
    ensures
        stopping.after_all(events).stopping,
        !stopping.after_all(events).failed,
    decreases events.len(),
{
    if events.len() > 0 {
        lemma_stopping_stays(stopping, events.drop_last());
        assert(events[events.len() - 1] == events.last());
    }
}

/// A transfer that has ended, by completion or failure, never runs again.
pub proof fn ended_transfer_stays_ended(
    transfer: Transfer,
    events: Seq<BodyEvent>,
    disconnected: bool,
)
    requires
        !transfer.ongoing(),
    ensures
        !transfer.drained(events, disconnected).ongoing(),
    decreases events.len(),
{
    if events.len() > 0 {
        ended_transfer_stays_ended(transfer, events.drop_last(), disconnected);
    }
}

/// Each event says one thing about a transfer and leaves the rest as it was: a
/// count is recorded, an end is noted with its time, a failure with its reason.
pub proof fn event_says_one_thing(transfer: Transfer, at: Timestamp, total: u64, reason: String)
    ensures
        ({
            let counted = transfer.after(BodyEvent::ByteCount { at, total });
            let finished = transfer.after(BodyEvent::Finished { at });
            let failed = transfer.after(BodyEvent::Failed { at, reason });
            &&& (counted.finished_at, counted.failed, counted.failure_reason, counted.stopping) == (
                transfer.finished_at,
                transfer.failed,
                transfer.failure_reason,
                transfer.stopping,
            )
            &&& finished.finished_at == Some(at)
            &&& (finished.readings, finished.failed, finished.failure_reason, finished.stopping)
                == (
                transfer.readings,
                transfer.failed,
                transfer.failure_reason,
                transfer.stopping,
            )
            &&& failed.failed && failed.failure_reason == Some(reason@)
            &&& (failed.readings, failed.finished_at, failed.stopping) == (
                transfer.readings,
                transfer.finished_at,
                transfer.stopping,
            )
        }),
{
}

/// When the events of a transfer end, it has failed where it had failed before or
/// never finished, unless it is being torn down. All else stays as its events
/// left it.
pub proof fn end_of_events_fails_what_runs(
    transfer: Transfer,
    events: Seq<BodyEvent>,
    disconnected: bool,
)
    ensures
        ({
            let (before, after) = (
                transfer.after_all(events),
                transfer.drained(events, disconnected),
            );
            &&& after.failed == (before.failed || (disconnected && before.finished_at is None
                && !before.stopping))
            &&& (after.readings, after.finished_at, after.failure_reason, after.stopping) == (
                before.readings,
                before.finished_at,
                before.failure_reason,
                before.stopping,
            )
        }),
{
}

/// What becomes of a transfer: it has failed where one of its events says so, and
/// it has finished where one says that. Nothing else makes it fail or finish.
/// Every byte count is on record, and no other.
pub proof fn transfer_follows_its_events(transfer: Transfer, events: Seq<BodyEvent>)
    requires
        stats::in_time_order(transfer.readings),
    ensures
        transfer.after_all(events).failed == (transfer.failed || exists|i: int|
            0 <= i < events.len() && (#[trigger] events[i]) is Failed),
        transfer.after_all(events).finished_at is Some == (transfer.finished_at is Some || exists|
            i: int,
        |
            0 <= i < events.len() && (#[trigger] events[i]) is Finished),
        transfer.after_all(events).stopping == transfer.stopping,
        stats::in_time_order(transfer.after_all(events).readings),
        forall|i: int|
            0 <= i < events.len() && (#[trigger] events[i]) is ByteCount
                ==> transfer.after_all(events).readings.contains(
                (events[i]->ByteCount_at, events[i]->total),
            ),
        transfer.after_all(events).readings.len() == transfer.readings.len() + events.filter(
            |e: BodyEvent| e is ByteCount,
        ).len(),
    decreases events.len(),
{
    reveal(Seq::filter);
    if events.len() > 0 {
        let rest = events.drop_last();
        let last = events.last();
        let n = events.len() - 1;
        transfer_follows_its_events(transfer, rest);
        assert(events[n] == last);
        let before = transfer.after_all(rest);
        let after = transfer.after_all(events);
        if exists|i: int| 0 <= i < rest.len() && (#[trigger] rest[i]) is Failed {
            let i = choose|i: int| 0 <= i < rest.len() && (#[trigger] rest[i]) is Failed;
            assert(events[i] is Failed);
        }
        if exists|i: int| 0 <= i < rest.len() && (#[trigger] rest[i]) is Finished {
            let i = choose|i: int| 0 <= i < rest.len() && (#[trigger] rest[i]) is Finished;
            assert(events[i] is Finished);
        }
        if exists|i: int| 0 <= i < events.len() && (#[trigger] events[i]) is Failed {
            let i = choose|i: int| 0 <= i < events.len() && (#[trigger] events[i]) is Failed;
            if i < n {
                assert(rest[i] is Failed);
            }
        }
        if exists|i: int| 0 <= i < events.len() && (#[trigger] events[i]) is Finished {
            let i = choose|i: int| 0 <= i < events.len() && (#[trigger] events[i]) is Finished;
            if i < n {
                assert(rest[i] is Finished);
            }
        }
        match last {
            BodyEvent::ByteCount { at, total } => {
                let place = stats::count_before(before.readings, at) as int;
                stats::count_before_parts(before.readings, at);
                stats::insertion_keeps_order(before.readings, at, total);
                assert(after.readings == before.readings.insert(place, (at, total)));
                assert(after.readings[place] == (at, total));
                assert forall|i: int|
                    0 <= i < events.len() && (#[trigger] events[i]) is ByteCount implies
                    after.readings.contains((events[i]->ByteCount_at, events[i]->total)) by {
                    if i < n {
                        assert(rest[i] == events[i]);
                        let reading = (events[i]->ByteCount_at, events[i]->total);
                        let k = choose|k: int|
                            0 <= k < before.readings.len() && before.readings[k] == reading;
                        if k < place {
                            assert(after.readings[k] == reading);
                        } else {
                            assert(after.readings[k + 1] == reading);
                        }
                    }
                }
            },
            _ => {
                assert(after.readings == before.readings);
                assert forall|i: int|
                    0 <= i < events.len() && (#[trigger] events[i]) is ByteCount implies
                    after.readings.contains((events[i]->ByteCount_at, events[i]->total)) by {
                    assert(rest[i] == events[i]);
                }
            },
        }
    }
}

/// A transfer whose events end before it finished is a failure, and the bytes
/// it moved stay on record.
pub proof fn early_end_is_failure(transfer: Transfer, events: Seq<BodyEvent>)
    requires
        !transfer.stopping,
        transfer.finished_at is None,
        forall|i: int| 0 <= i < events.len() ==> !(#[trigger] events[i] is Finished),
    ensures
        transfer.drained(events, true).failed,
        !transfer.drained(events, true).ongoing(),
        transfer.drained(events, true).readings == transfer.after_all(events).readings,
{
    lemma_not_finished(transfer, events);
}

proof fn lemma_not_finished(transfer: Transfer, events: Seq<BodyEvent>)
    requires
        !transfer.stopping,
        transfer.finished_at is None,
        forall|i: int| 0 <= i < events.len() ==> !(#[trigger] events[i] is Finished),
    ensures
        transfer.after_all(events).finished_at is None,
        !transfer.after_all(events).stopping,
    decreases events.len(),
{
    if events.len() > 0 {
        lemma_not_finished(transfer, events.drop_last());
        assert(events[events.len() - 1] == events.last());
    }
}

/// What load-generating connections are made with.
#[derive(Debug)]
pub struct LoadConfig {
    /// Headers of all requests, as names and values.
    pub headers: Vec<(String, String)>,
    /// Headers attached only to requests whose host matches their allowlist.
    pub scoped_headers: Option<ScopedHeaders>,
    pub download_url: String,
    pub upload_url: String,
}

/// Why a load cannot be set up.
#[derive(Debug, Clone, Copy, PartialEq, Eq, Structural)]
pub enum LoadError {
    InvalidHeaderName,
    InvalidHeaderValue,
    InvalidUri,
    Client(ClientError),
}

/// The names and values of some headers.
pub open spec fn pairs(headers: Seq<(String, String)>) -> Seq<(Seq<char>, Seq<u8>)> {
    headers.map_values(|h: (String, String)| (h.0@, vstd::utf8::encode_utf8(h.1@)))
}

/// Every header is taken with its name as it is and the bytes of its value, in its
/// place.
pub proof fn headers_are_taken_in_order(headers: Seq<(String, String)>)
    ensures
        pairs(headers).len() == headers.len(),
        forall|i: int|
            0 <= i < headers.len() ==> #[trigger] pairs(headers)[i] == (
                headers[i].0@,
                vstd::utf8::encode_utf8(headers[i].1@),
            ),
{
}

/// The first reason why the pairs are not headers.
pub open spec fn first_invalid(headers: Seq<(Seq<char>, Seq<u8>)>) -> Option<LoadError>
    decreases headers.len(),
{
    if headers.len() == 0 {
        None
    } else if !headers::is_name(headers[0].0) {
        Some(LoadError::InvalidHeaderName)
    } else if !headers::is_value(headers[0].1) {
        Some(LoadError::InvalidHeaderValue)
    } else {
        first_invalid(headers.drop_first())
    }
}

/// Makes a header map of names and values. Later ones replace earlier ones of
/// the same name.
pub fn build_headers(headers: &Vec<(String, String)>) -> (r: Result<
    HeaderMap<HeaderValue>,
    LoadError,
>)
    requires
        headers@.len() <= headers::MAX_HEADERS,
    ensures
        match r {
            Ok(map) => first_invalid(pairs(headers@)) is None && headers::entries(map)
                == headers::built(pairs(headers@)),
            Err(error) => first_invalid(pairs(headers@)) == Some(error),
        },
{
    let mut map = headers::new_map();
    let mut i: usize = 0;
    let ghost all = pairs(headers@);
    assert(all.skip(0) =~= all);
    assert(all.take(0) =~= Seq::empty());
    while i < headers.len()
        invariant
            i <= headers@.len() <= headers::MAX_HEADERS,
            all == pairs(headers@),
            first_invalid(all) == first_invalid(all.skip(i as int)),
            headers::entries(map) == headers::built(all.take(i as int)),
            headers::entries(map).len() <= i,
        decreases headers@.len() - i,
    {
        let (name, value) = &headers[i];
        proof {
            assert(all[i as int] == (name@, vstd::utf8::encode_utf8(value@)));
            assert(all.skip(i as int)[0] == all[i as int]);
            assert(all.skip(i as int).drop_first() =~= all.skip(i + 1));
            assert(all.take(i + 1).drop_last() =~= all.take(i as int));
        }
        let bytes = value.as_str().as_bytes();
        if !headers::is_header_name(name.as_str()) {
            return Err(LoadError::InvalidHeaderName);
        }
        if !headers::is_header_value(bytes) {
            return Err(LoadError::InvalidHeaderValue);
        }
        proof {
            headers::replaced_len(
                headers::entries(map),
                (text::lower_text(name@), bytes@, false),
            );
        }
        headers::insert(&mut map, headers::parse_name(name.as_str()), bytes, false);
        i = i + 1;
    }
    assert(all.take(i as int) =~= all);
    Ok(map)
}

/// How the follow-up requests of an upload load are made: all alike, on the
/// connection of the first one.
#[derive(Debug)]
pub struct UploadTemplate {
    /// The most bytes that one request sends.
    pub bound: usize,
    pub uri: Uri,
    pub headers: HeaderMap<HeaderValue>,
    pub scoped_headers: Option<ScopedHeaders>,
}

/// A copy of optional scoped headers.
fn copy_scoped(scoped: &Option<ScopedHeaders>) -> (r: Option<ScopedHeaders>)
    ensures
        r is Some == scoped is Some,
        r is Some ==> r->0@ == scoped->0@,
{
    match scoped {
        Some(scoped) => Some(scoped.clone()),
        None => None,
    }
}

/// The headers of a request of this load.
pub open spec fn load_headers(
    headers: HeaderMap<HeaderValue>,
    scoped: Option<ScopedHeaders>,
    direction: Direction,
    host: Seq<char>,
) -> Seq<headers::Entry> {
    client::with_scoped(
        client::with_content_type(client::with_user_agent(headers::entries(headers)), direction),
        scoped,
        host,
    )
}

impl UploadTemplate {
    pub open spec fn headers_fit(self) -> bool {
        headers::entries(self.headers).len() + 2 + client::scoped_len(self.scoped_headers)
            <= headers::MAX_HEADERS
    }

    /// Makes the next request of the upload.
    pub fn issue<C>(&self, connection: C) -> (r: Result<Prepared<C>, ClientError>)
        requires
            self.headers_fit(),
        ensures
            match self.uri@.host {
                None => r == Err::<Prepared<C>, ClientError>(ClientError::MissingHost),
                Some(host) => r matches Ok(request) && {
                    &&& request.method@ == "POST"@
                    &&& request.host@ == host
                    &&& request.port == client::transfer_port(self.uri@)
                    &&& request.host_with_port@ == client::host_and_port(
                        host,
                        client::transfer_port(self.uri@),
                    )
                    &&& headers::entries(request.headers) == load_headers(
                        self.headers,
                        self.scoped_headers,
                        Direction::Up(self.bound),
                        host,
                    )
                    &&& request.connection == ConnectionChoice::Existing(connection)
                    &&& request.upload == Some(self.bound)
                },
            },
    {
        ThroughputClient::upload(self.bound).with_connection(connection).headers(
            headers::copy_map(&self.headers),
        ).scoped_headers(copy_scoped(&self.scoped_headers)).send(&self.uri)
    }
}

/// A load that is about to start.
#[derive(Debug)]
pub struct PlannedLoad<C> {
    pub uri: Uri,
    /// The first request.
    pub request: Prepared<C>,
    /// What follows the first request of an upload.
    pub upload: Option<(UploadReissue, UploadTemplate)>,
}

/// Makes load-generating connections and keeps track of them.
#[derive(Debug)]
pub struct LoadGenerator<C> {
    headers: HeaderMap<HeaderValue>,
    config: LoadConfig,
    loads: Vec<LoadedConnection<C>>,
}

/// `rand::seq::SliceRandom::choose` with the generator of the thread: one of
/// the items, none of none. Nothing is claimed of which one. The generator is
/// seeded by the operating system, and the call itself panics where that has no
/// source of entropy.
#[verifier::external_body]
fn choose_one(items: &Vec<usize>) -> (r: Option<usize>)
    ensures
        r is None == (items@.len() == 0),
        r matches Some(item) ==> items@.contains(item),
{
    items.choose(&mut rand::thread_rng()).copied()
}

/// How many loads satisfy a condition.
pub open spec fn count_where<C>(
    loads: Seq<LoadedConnection<C>>,
    condition: spec_fn(Transfer) -> bool,
) -> nat {
    loads.filter(|l: LoadedConnection<C>| condition(l.state@)).len()
}

/// What one load reported since it was last looked at.
#[derive(Debug)]
pub struct LoadReport {
    /// The events at hand.
    pub events: Vec<BodyEvent>,
    /// There will be no more events.
    pub disconnected: bool,
}

/// Whether `after` are the same loads, each after what it reported.
pub open spec fn updated<C>(
    before: Seq<LoadedConnection<C>>,
    reports: Seq<LoadReport>,
    after: Seq<LoadedConnection<C>>,
) -> bool {
    &&& after.len() == before.len()
    &&& forall|i: int|
        0 <= i < after.len() ==> (#[trigger] after[i]).connection == before[i].connection
            && after[i].state@ == before[i].state@.drained(
            reports[i].events@,
            reports[i].disconnected,
        )
}

/// The positions of the loads that still run.
pub open spec fn ongoing_positions<C>(loads: Seq<LoadedConnection<C>>) -> Seq<usize>
    decreases loads.len(),
{
    if loads.len() == 0 {
        seq![]
    } else {
        let before = ongoing_positions(loads.drop_last());
        if loads.last().state@.ongoing() {
            before.push((loads.len() - 1) as usize)
        } else {
            before
        }
    }
}

impl<C> LoadGenerator<C> {
    pub closed spec fn headers(&self) -> HeaderMap<HeaderValue> {
        self.headers
    }

    pub closed spec fn config(&self) -> LoadConfig {
        self.config
    }

    pub closed spec fn loads(&self) -> Seq<LoadedConnection<C>> {
        self.loads@
    }

    /// Whether the headers of a request stay below the limit of a header map.
    pub open spec fn headers_fit(&self) -> bool {
        headers::entries(self.headers()).len() + 2 + client::scoped_len(
            self.config().scoped_headers,
        ) <= headers::MAX_HEADERS
    }

    /// A generator without loads. Fails where the configured headers are not
    /// headers.
    pub fn new(config: LoadConfig) -> (r: Result<Self, LoadError>)
        requires
            config.headers@.len() <= headers::MAX_HEADERS,
        ensures
            match r {
                Ok(generator) => {
                    &&& first_invalid(pairs(config.headers@)) is None
                    &&& headers::entries(generator.headers()) == headers::built(
                        pairs(config.headers@),
                    )
                    &&& generator.config() == config
                    &&& generator.loads() == Seq::<LoadedConnection<C>>::empty()
                },
                Err(error) => first_invalid(pairs(config.headers@)) == Some(error),
            },
    {
        match build_headers(&config.headers) {
            Ok(headers) => Ok(LoadGenerator { headers, config, loads: Vec::new() }),
            Err(error) => Err(error),
        }
    }

    /// Whether the headers of a request stay below the limit of a header map.
    pub fn within_limit(&self) -> (r: bool)
        ensures
            r == self.headers_fit(),
    {
        let present: usize = headers::count(&self.headers);
        let attached: usize = match &self.config.scoped_headers {
            Some(scoped) => scoped.len(),
            None => 0,
        };
        present <= headers::MAX_HEADERS - 2 && attached <= headers::MAX_HEADERS - 2 - present
    }

    /// Whether `r` is the plan for a load at the given URI: a first request on
    /// a new connection, and for an upload how to go on after it.
    pub open spec fn is_plan(
        &self,
        direction: Direction,
        conn_type: ConnectionType,
        parts: uri::UriParts,
        r: Result<PlannedLoad<C>, LoadError>,
    ) -> bool {
        match parts.host {
            None => r == Err::<PlannedLoad<C>, LoadError>(
                LoadError::Client(ClientError::MissingHost),
            ),
            Some(host) => r matches Ok(load) && {
                &&& load.uri@ == parts
                &&& load.request.method@ == match direction {
                    Direction::Down => "GET"@,
                    Direction::Up(_) => "POST"@,
                }
                &&& load.request.host@ == host
                &&& load.request.port == client::transfer_port(parts)
                &&& load.request.host_with_port@ == client::host_and_port(
                    host,
                    client::transfer_port(parts),
                )
                &&& headers::entries(load.request.headers) == load_headers(
                    self.headers(),
                    self.config().scoped_headers,
                    direction,
                    host,
                )
                &&& load.request.connection == ConnectionChoice::<C>::New(conn_type)
                &&& load.request.upload == client::upload_size(direction)
                &&& match direction {
                    Direction::Down => load.upload is None,
                    Direction::Up(bound) => load.upload matches Some(upload) && {
                        &&& upload.0.bound == bound
                        &&& upload.0.requests == 1
                        &&& upload.0.relay.base == 0
                        &&& upload.0.relay.last == 0
                        &&& upload.1.bound == bound
                        &&& upload.1.uri@ == parts
                        &&& headers::entries(upload.1.headers) == headers::entries(
                            self.headers(),
                        )
                        &&& upload.1.scoped_headers is Some
                            == self.config().scoped_headers is Some
                        &&& upload.1.scoped_headers is Some ==> upload.1.scoped_headers->0@
                            == self.config().scoped_headers->0@
                        &&& upload.1.headers_fit()
                    },
                }
            },
        }
    }

    /// Plans a load on a new connection, given the URI that the configured
    /// address was parsed into.
    pub fn plan_load(&self, direction: Direction, conn_type: ConnectionType, uri: Uri) -> (r: Result<
        PlannedLoad<C>,
        LoadError,
    >)
        requires
            self.headers_fit(),
        ensures
            self.is_plan(direction, conn_type, uri@, r),
    {
        let client: ThroughputClient<C> = match direction {
            Direction::Down => ThroughputClient::download(),
            Direction::Up(size) => ThroughputClient::upload(size),
        };
        let sent = client.new_connection(conn_type).headers(
            headers::copy_map(&self.headers),
        ).scoped_headers(copy_scoped(&self.config.scoped_headers)).send(&uri);
        let request = match sent {
            Ok(request) => request,
            Err(error) => {
                return Err(LoadError::Client(error));
            },
        };
        let upload = match direction {
            Direction::Down => None,
            Direction::Up(bound) => Some(
                (
                    UploadReissue::new(bound),
                    UploadTemplate {
                        bound,
                        uri: uri.copy(),
                        headers: headers::copy_map(&self.headers),
                        scoped_headers: copy_scoped(&self.config.scoped_headers),
                    },
                ),
            ),
        };
        Ok(PlannedLoad { uri, request, upload })
    }

    /// Plans a load on a new connection: a download from the configured
    /// address, or an upload to the one for uploads, made of bounded requests.
    pub fn new_loaded_connection(&self, direction: Direction, conn_type: ConnectionType) -> (r:
        Result<PlannedLoad<C>, LoadError>)
        requires
            self.headers_fit(),
        ensures
            ({
                let address = match direction {
                    Direction::Up(_) => self.config().upload_url@,
                    Direction::Down => self.config().download_url@,
                };
                match uri::http_uri(address) {
                    None => r == Err::<PlannedLoad<C>, LoadError>(LoadError::InvalidUri),
                    Some(parts) => self.is_plan(direction, conn_type, parts, r),
                }
            }),
    {
        let address = match direction {
            Direction::Up(_) => &self.config.upload_url,
            Direction::Down => &self.config.download_url,
        };
        match Uri::parse(address.as_str()) {
            Some(uri) => self.plan_load(direction, conn_type, uri),
            None => Err(LoadError::InvalidUri),
        }
    }

    /// All loads, in the order in which they were added.
    pub fn connections(&self) -> (r: &Vec<LoadedConnection<C>>)
        ensures
            r@ == self.loads(),
    {
        &self.loads
    }

    /// The positions of the loads that still run: those that neither completed
    /// nor ended early. A load that ended makes room for a new one and is not
    /// probed any more.
    pub fn ongoing_loads(&self) -> (r: Vec<usize>)
        ensures
            r@ == ongoing_positions(self.loads()),
    {
        let mut out: Vec<usize> = Vec::new();
        let mut i: usize = 0;
        assert(self.loads@.take(0) =~= Seq::empty());
        while i < self.loads.len()
            invariant
                i <= self.loads@.len(),
                out@ == ongoing_positions(self.loads@.take(i as int)),
            decreases self.loads@.len() - i,
        {
            assert(self.loads@.take(i + 1).drop_last() =~= self.loads@.take(i as int));
            if self.loads[i].is_ongoing() {
                out.push(i);
            }
            i = i + 1;
        }
        assert(self.loads@.take(i as int) =~= self.loads@);
        out
    }

    /// The position of one of the loads that still run, at random. `None` where
    /// none runs.
    pub fn random_connection(&self) -> (r: Option<usize>)
        ensures
            r is None == (ongoing_positions(self.loads()).len() == 0),
            r matches Some(at) ==> at < self.loads().len() && self.loads()[at as int].state@.ongoing(),
    {
        let ongoing = self.ongoing_loads();
        let count: usize = self.loads.len();
        proof {
            assert(count == self.loads().len());
            ongoing_positions_are_ongoing(self.loads());
        }
        choose_one(&ongoing)
    }

    /// Adds a load.
    pub fn push(&mut self, loaded_connection: LoadedConnection<C>)
        ensures
            final(self).loads() == old(self).loads().push(loaded_connection),
            final(self).headers() == old(self).headers(),
            final(self).config() == old(self).config(),
    {
        self.loads.push(loaded_connection);
    }

    /// Takes in what each load reported, in the order of the loads.
    pub fn update(&mut self, reports: Vec<LoadReport>)
        requires
            reports@.len() == old(self).loads().len(),
        ensures
            final(self).headers() == old(self).headers(),
            final(self).config() == old(self).config(),
            updated(old(self).loads(), reports@, final(self).loads()),
            final(self).loads().len() == old(self).loads().len(),
            forall|i: int|
                0 <= i < old(self).loads().len() ==> {
                    let (before, after) = (
                        old(self).loads()[i],
                        #[trigger] final(self).loads()[i],
                    );
                    &&& after.connection == before.connection
                    &&& after.state@ == before.state@.drained(
                        reports@[i].events@,
                        reports@[i].disconnected,
                    )
                },
    {
        let ghost before = self.loads@;
        let ghost all = reports@;
        let mut reports = reports;
        let mut i: usize = self.loads.len();
        while i > 0
            invariant
                i <= self.loads@.len() == before.len() == all.len(),
                reports@ == all.take(i as int),
                self.headers == old(self).headers,
                self.config == old(self).config,
                forall|j: int| 0 <= j < i ==> #[trigger] self.loads@[j] == before[j],
                forall|j: int|
                    i <= j < before.len() ==> (#[trigger] self.loads@[j]).connection
                        == before[j].connection && self.loads@[j].state@
                        == before[j].state@.drained(all[j].events@, all[j].disconnected),
            decreases i,
        {
            i = i - 1;
            if let Some(report) = reports.pop() {
                assert(report == all[i as int]);
                self.loads[i].update(report.events, report.disconnected);
            }
        }
    }

    /// How many loads still run.
    pub fn count_loads(&self) -> (r: usize)
        ensures
            r == count_where(self.loads(), |t: Transfer| t.ongoing()),
            r == ongoing_positions(self.loads()).len(),
    {
        let ongoing = self.ongoing_loads();
        proof {
            lemma_ongoing_count(self.loads());
        }
        ongoing.len()
    }

    /// How many loads ended early with an error.
    pub fn count_failed_loads(&self) -> (r: usize)
        ensures
            r == count_where(self.loads(), |t: Transfer| t.failed),
    {
        let ghost failed = |l: LoadedConnection<C>| l.state@.failed;
        let mut count: usize = 0;
        let mut i: usize = 0;
        proof {
            reveal(Seq::filter);
            assert(self.loads@.take(0) =~= Seq::empty());
        }
        while i < self.loads.len()
            invariant
                i <= self.loads@.len(),
                failed == (|l: LoadedConnection<C>| l.state@.failed),
                count == self.loads@.take(i as int).filter(failed).len(),
                count <= i,
            decreases self.loads@.len() - i,
        {
            proof {
                reveal(Seq::filter);
                assert(self.loads@.take(i + 1).drop_last() =~= self.loads@.take(i as int));
            }
            if self.loads[i].has_failed() {
                count = count + 1;
            }
            i = i + 1;
        }
        proof {
            assert(self.loads@.take(i as int) =~= self.loads@);
            let by_state = |l: LoadedConnection<C>| (|t: Transfer| t.failed)(l.state@);
            assert(by_state =~= failed);
        }
        count
    }

    /// Gives the loads up.
    pub fn into_connections(self) -> (r: Vec<LoadedConnection<C>>)
        ensures
            r@ == self.loads(),
    {
        self.loads
    }
}

/// The loads of two groups that satisfy a condition add up, and a single load
/// counts exactly where it satisfies it.
pub proof fn counted_loads_add_up<C>(
    a: Seq<LoadedConnection<C>>,
    b: Seq<LoadedConnection<C>>,
    load: LoadedConnection<C>,
    condition: spec_fn(Transfer) -> bool,
)
    ensures
        count_where(a + b, condition) == count_where(a, condition) + count_where(b, condition),
        condition(load.state@) ==> count_where(seq![load], condition) == 1,
        !condition(load.state@) ==> count_where(seq![load], condition) == 0,
{
    reveal(Seq::filter);
    let of_load = |l: LoadedConnection<C>| condition(l.state@);
    Seq::filter_distributes_over_add(a, b, of_load);
    let one = seq![load];
    assert(one.drop_last() =~= Seq::empty());
    assert(one.drop_last().filter(of_load) =~= Seq::empty());
}

/// Some load satisfies a condition exactly where it is counted.
pub proof fn counted_load_is_there<C>(
    loads: Seq<LoadedConnection<C>>,
    condition: spec_fn(Transfer) -> bool,
)
    ensures
        (count_where(loads, condition) > 0) == exists|i: int|
            0 <= i < loads.len() && condition((#[trigger] loads[i]).state@),
    decreases loads.len(),
{
    reveal(Seq::filter);
    if loads.len() > 0 {
        let rest = loads.drop_last();
        let n = loads.len() - 1;
        counted_load_is_there(rest, condition);
        assert(loads[n] == loads.last());
        if exists|i: int| 0 <= i < rest.len() && condition((#[trigger] rest[i]).state@) {
            let i = choose|i: int| 0 <= i < rest.len() && condition((#[trigger] rest[i]).state@);
            assert(condition(loads[i].state@));
        }
        if exists|i: int| 0 <= i < loads.len() && condition((#[trigger] loads[i]).state@) {
            let i = choose|i: int| 0 <= i < loads.len() && condition((#[trigger] loads[i]).state@);
            if i < n {
                assert(condition(rest[i].state@));
            }
        }
    }
}

/// The plan for a load in some direction starts with a request for just that, on a
/// new connection of the given type. An upload sends no more bytes in any of its
/// requests than asked for, and all of them go to the same address.
pub proof fn plan_goes_one_way<C>(
    generator: LoadGenerator<C>,
    direction: Direction,
    conn_type: ConnectionType,
    parts: uri::UriParts,
    r: Result<PlannedLoad<C>, LoadError>,
)
    requires
        generator.is_plan(direction, conn_type, parts, r),
    ensures
        r is Ok == parts.host is Some,
        r matches Ok(load) ==> {
            &&& load.request.connection == ConnectionChoice::<C>::New(conn_type)
            &&& load.request.host@ == parts.host->0
            &&& parts.port matches Some(port) ==> load.request.port == port
            &&& direction is Down ==> load.request.method@ == "GET"@ && load.request.upload is None
                && load.upload is None
            &&& direction matches Direction::Up(bound) ==> {
                &&& load.request.method@ == "POST"@
                &&& load.request.upload == Some(bound)
                &&& load.upload matches Some((reissue, template)) && {
                    &&& reissue.bound == bound && template.bound == bound
                    &&& template.uri@ == parts
                    &&& headers::entries(template.headers) == headers::entries(
                        generator.headers(),
                    )
                }
            }
        },
{
}

/// The headers of a load are those of a transfer with the same headers: the first
/// request of an upload and all that follow it send the same ones.
pub proof fn loads_send_the_headers_of_a_transfer<C>(
    client: ThroughputClient<C>,
    headers: HeaderMap<HeaderValue>,
    host: Seq<char>,
)
    requires
        client.headers == Some(headers),
    ensures
        load_headers(headers, client.scoped_headers, client.direction, host)
            == client.request_headers(host),
{
}

/// The header of a name is the last one given for it, in any letter case, and
/// there is none where none was given.
pub proof fn last_header_of_a_name_counts(
    headers: Seq<(Seq<char>, Seq<u8>)>,
    name: Seq<char>,
    at: int,
)
    requires
        0 <= at < headers.len() ==> text::lower_text(headers[at].0) == name,
        -1 <= at < headers.len(),
        forall|i: int|
            at < i < headers.len() ==> text::lower_text((#[trigger] headers[i]).0) != name,
    ensures
        at >= 0 ==> headers::of_name(headers::built(headers), name) == seq![
            (name, headers[at].1, false),
        ],
        at < 0 ==> headers::of_name(headers::built(headers), name).len() == 0,
    decreases headers.len(),
{
    if headers.len() > 0 {
        let rest = headers.drop_last();
        let last = headers.last();
        let n = headers.len() - 1;
        let entry = (text::lower_text(last.0), last.1, false);
        assert(headers[n] == last);
        if at == n {
            headers::replaced_holds_one(headers::built(rest), entry);
        } else {
            assert(text::lower_text(headers[n].0) != name);
            assert forall|i: int| at < i < rest.len() implies text::lower_text(
                (#[trigger] rest[i]).0,
            ) != name by {
                assert(rest[i] == headers[i]);
            }
            if at >= 0 {
                assert(rest[at] == headers[at]);
            }
            last_header_of_a_name_counts(rest, name, at);
            headers::replaced_of_name(headers::built(rest), entry, name);
        }
    }
}

/// Headers are refused exactly where one of them is none, and for what is wrong
/// with the first such one: its name before its value.
pub proof fn first_wrong_header_is_named(headers: Seq<(Seq<char>, Seq<u8>)>, at: int)
    requires
        0 <= at <= headers.len(),
        forall|i: int|
            0 <= i < at ==> headers::is_name((#[trigger] headers[i]).0) && headers::is_value(
                headers[i].1,
            ),
        at < headers.len() ==> !(headers::is_name(headers[at].0) && headers::is_value(
            headers[at].1,
        )),
    ensures
        at == headers.len() ==> first_invalid(headers) is None,
        at < headers.len() && !headers::is_name(headers[at].0) ==> first_invalid(headers) == Some(
            LoadError::InvalidHeaderName,
        ),
        at < headers.len() && headers::is_name(headers[at].0) ==> first_invalid(headers) == Some(
            LoadError::InvalidHeaderValue,
        ),
    decreases headers.len(),
{
    if at > 0 {
        let rest = headers.drop_first();
        assert(headers::is_name(headers[0].0) && headers::is_value(headers[0].1));
        assert forall|i: int| 0 <= i < at - 1 implies headers::is_name((#[trigger] rest[i]).0)
            && headers::is_value(rest[i].1) by {
            assert(rest[i] == headers[i + 1]);
        }
        if at < headers.len() {
            assert(rest[at - 1] == headers[at]);
        }
        first_wrong_header_is_named(rest, at - 1);
    }
}

/// The positions of the loads that still run are, from the first to the last, the
/// positions of exactly those that neither completed nor failed.
pub proof fn running_loads_are_found<C>(loads: Seq<LoadedConnection<C>>)
    requires
        loads.len() <= usize::MAX,
    ensures
        forall|i: int|
            0 <= i < loads.len() ==> ongoing_positions(loads).contains(i as usize) == ((
            #[trigger] loads[i]).state@.finished_at is None && !loads[i].state@.failed),
        forall|i: int|
            0 <= i < ongoing_positions(loads).len() ==> (#[trigger] ongoing_positions(loads)[i])
                < loads.len(),
        forall|i: int, j: int|
            0 <= i < j < ongoing_positions(loads).len() ==> ongoing_positions(loads)[i]
                < ongoing_positions(loads)[j],
    decreases loads.len(),
{
    if loads.len() > 0 {
        let rest = loads.drop_last();
        let (before, all) = (ongoing_positions(rest), ongoing_positions(loads));
        let last = (loads.len() - 1) as usize;
        running_loads_are_found(rest);
        assert(forall|i: int| 0 <= i < before.len() ==> #[trigger] before[i] == all[i]);
        assert forall|i: int| 0 <= i < loads.len() implies all.contains(i as usize) == ((
        #[trigger] loads[i]).state@.finished_at is None && !loads[i].state@.failed) by {
            if i < rest.len() {
                assert(rest[i] == loads[i]);
                if all.contains(i as usize) {
                    let k = choose|k: int| 0 <= k < all.len() && all[k] == i as usize;
                    assert(k < before.len());
                    assert(before[k] == i as usize);
                }
                if before.contains(i as usize) {
                    let k = choose|k: int| 0 <= k < before.len() && before[k] == i as usize;
                    assert(all[k] == i as usize);
                }
            } else {
                if all.contains(last) {
                    let k = choose|k: int| 0 <= k < all.len() && all[k] == last;
                    if k < before.len() {
                        assert(before[k] < rest.len());
                    }
                }
                if loads.last().state@.ongoing() {
                    assert(all[before.len() as int] == last);
                }
            }
        }
    }
}

/// The positions of ongoing loads are positions of ongoing loads.
pub proof fn ongoing_positions_are_ongoing<C>(loads: Seq<LoadedConnection<C>>)
    requires
        loads.len() <= usize::MAX,
    ensures
        forall|i: int|
            0 <= i < ongoing_positions(loads).len() ==> (#[trigger] ongoing_positions(loads)[i])
                < loads.len() && loads[ongoing_positions(loads)[i] as int].state@.ongoing(),
    decreases loads.len(),
{
    if loads.len() > 0 {
        ongoing_positions_are_ongoing(loads.drop_last());
        let before = ongoing_positions(loads.drop_last());
        assert forall|i: int| 0 <= i < ongoing_positions(loads).len() implies (
        #[trigger] ongoing_positions(loads)[i]) < loads.len()
            && loads[ongoing_positions(loads)[i] as int].state@.ongoing() by {
            if i < before.len() {
                assert(before[i] == ongoing_positions(loads)[i]);
            }
        }
    }
}

proof fn lemma_ongoing_count<C>(loads: Seq<LoadedConnection<C>>)
    ensures
        ongoing_positions(loads).len() == count_where(loads, |t: Transfer| t.ongoing()),
    decreases loads.len(),
{
    reveal(Seq::filter);
    let ongoing = |l: LoadedConnection<C>| (|t: Transfer| t.ongoing())(l.state@);
    if loads.len() > 0 {
        lemma_ongoing_count(loads.drop_last());
    }
}

} // verus!
