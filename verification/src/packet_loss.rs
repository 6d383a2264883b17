//! Packet loss: how many of a number of echoed packets do not come back.

use vstd::prelude::*;

use crate::client;
use crate::client::{Client, ClientError, ConnectionChoice, Direction, Prepared};
use crate::connection::ConnectionType;
use crate::data_channel::DataChannelEvent;
use crate::headers;
use crate::load;
use crate::load::{LoadConfig, LoadError, LoadGenerator, LoadedConnection, PlannedLoad};
use crate::text;
use crate::time::Nanos;
use crate::uri;
use crate::uri::{Uri, Url};
use crate::util;

verus! {

/// How many bytes an upload sends that loads the network during the test.
pub const LOAD_UPLOAD_SIZE: usize = 4_000_000_000;

/// How a packet loss test is run.
#[derive(Debug)]
pub struct PacketLossConfig {
    /// The TURN server that echoes packets.
    pub turn_server_uri: String,
    /// Where the credentials for the TURN server come from.
    pub turn_cred_request_url: String,
    /// How many packets are sent.
    pub num_packets: usize,
    /// How many packets are sent before a pause, zero for no pause at all.
    pub batch_size: usize,
    /// How long the pause between batches is.
    pub batch_wait_time: Nanos,
    /// How long to wait for packets after all were sent.
    pub response_wait_time: Nanos,
    pub download_url: String,
    pub upload_url: String,
}

impl Default for PacketLossConfig {
    fn default() -> (r: Self)
        ensures
            r.turn_server_uri@ == "turn:turn.speed.cloudflare.com:50000?transport=udp"@,
            r.turn_cred_request_url@ == "https://speed.cloudflare.com/turn-creds"@,
            r.num_packets == 1000,
            r.batch_size == 10,
            r.batch_wait_time == 10_000_000,
            r.response_wait_time == 3_000_000_000,
            r.download_url@ == "https://h3.speed.cloudflare.com/__down?bytes=10000000000"@,
            r.upload_url@ == "https://h3.speed.cloudflare.com/__up"@,
    {
        PacketLossConfig {
            turn_server_uri: String::from_str("turn:turn.speed.cloudflare.com:50000?transport=udp"),
            turn_cred_request_url: String::from_str("https://speed.cloudflare.com/turn-creds"),
            num_packets: 1000,
            batch_size: 10,
            batch_wait_time: 10_000_000,
            response_wait_time: 3_000_000_000,
            download_url: String::from_str(
                "https://h3.speed.cloudflare.com/__down?bytes=10000000000",
            ),
            upload_url: String::from_str("https://h3.speed.cloudflare.com/__up"),
        }
    }
}

impl PacketLossConfig {
    /// How the load-generating connections are made.
    pub fn load_config(&self) -> (r: LoadConfig)
        ensures
            r.headers@.len() == 0,
            r.scoped_headers is None,
            r.download_url@ == self.download_url@,
            r.upload_url@ == self.upload_url@,
    {
        LoadConfig {
            headers: Vec::new(),
            scoped_headers: None,
            download_url: self.download_url.clone(),
            upload_url: self.upload_url.clone(),
        }
    }
}

/// What happened during the test, besides the data channel.
#[derive(Debug)]
pub enum PacketLossEvent<C> {
    /// All packets were sent, and the wait for the last of them is over.
    AllMessagesSent,
    /// A load-generating connection was set up.
    NewLoadedConnection(LoadedConnection<C>),
    /// A load-generating connection failed.
    Error(String),
}

/// What the driver does next.
#[derive(Debug)]
pub enum PacketLossAction {
    /// Start to send packets.
    StartSending,
    /// Wait for the next event.
    Wait,
    /// End the test.
    Stop,
    /// End the test after a failure, for the reason given.
    StopFailed(String),
}

/// Packets to send in a row.
#[derive(Debug, Clone, Copy, PartialEq, Eq, Structural)]
pub struct Batch {
    /// The first packet.
    pub start: usize,
    /// The packet behind the last one.
    pub end: usize,
    /// There is nothing left to send after this batch.
    pub last: bool,
}

/// Where the batch ends that starts at `sent`.
pub open spec fn batch_end(sent: int, num_packets: int, batch_size: int) -> int {
    if batch_size == 0 || sent + batch_size > num_packets {
        num_packets
    } else {
        sent + batch_size
    }
}

/// The batch to send when `sent` packets are sent. A batch size of zero sends
/// everything at once.
pub fn next_batch(sent: usize, num_packets: usize, batch_size: usize) -> (batch: Batch)
    requires
        sent <= num_packets,
    ensures
        batch == (Batch {
            start: sent,
            end: batch_end(sent as int, num_packets as int, batch_size as int) as usize,
            last: batch_end(sent as int, num_packets as int, batch_size as int) == num_packets,
        }),
        sent <= batch.end <= num_packets,
{
    let end: usize = if batch_size == 0 || batch_size > num_packets - sent {
        num_packets
    } else {
        sent + batch_size
    };
    Batch { start: sent, end, last: end == num_packets }
}

/// Where the batches end that are sent one after the other from `sent` on.
pub open spec fn batch_ends(sent: int, num_packets: int, batch_size: int) -> Seq<int>
    decreases num_packets - sent,
{
    if sent > num_packets {
        seq![]
    } else {
        let end = batch_end(sent, num_packets, batch_size);
        if end >= num_packets || end <= sent {
            seq![end]
        } else {
            seq![end] + batch_ends(end, num_packets, batch_size)
        }
    }
}

/// The batches follow each other without a gap, and the last one ends with the
/// last packet: every packet is sent exactly once.
pub proof fn batches_cover_all_packets(sent: int, num_packets: int, batch_size: int)
    requires
        0 <= sent <= num_packets,
        batch_size >= 0,
    ensures
        batch_ends(sent, num_packets, batch_size).len() > 0,
        batch_ends(sent, num_packets, batch_size).last() == num_packets,
        forall|i: int, j: int|
            0 <= i < j < batch_ends(sent, num_packets, batch_size).len() ==> batch_ends(
                sent,
                num_packets,
                batch_size,
            )[i] < batch_ends(sent, num_packets, batch_size)[j],
        forall|i: int|
            0 <= i < batch_ends(sent, num_packets, batch_size).len() ==> sent <= #[trigger] batch_ends(
                sent,
                num_packets,
                batch_size,
            )[i],
    decreases num_packets - sent,
{
    let end = batch_end(sent, num_packets, batch_size);
    if end < num_packets {
        batches_cover_all_packets(end, num_packets, batch_size);
        let rest = batch_ends(end, num_packets, batch_size);
        let all = batch_ends(sent, num_packets, batch_size);
        assert(all =~= seq![end] + rest);
        lemma_first_batch_end(end, num_packets, batch_size);
        assert forall|i: int, j: int| 0 <= i < j < all.len() implies all[i] < all[j] by {
            assert(all[j] == rest[j - 1]);
            if i > 0 {
                assert(all[i] == rest[i - 1]);
            } else if j > 1 {
                assert(rest[0] < rest[j - 1]);
            }
        }
        assert forall|i: int| 0 <= i < all.len() implies sent <= #[trigger] all[i] by {
            if i > 0 {
                assert(all[i] == rest[i - 1]);
            }
        }
    }
}

/// All batches but the last hold as many packets as configured, and the last one
/// no more than that. Without a size there is a single batch.
pub proof fn batches_have_their_size(sent: int, num_packets: int, batch_size: int)
    requires
        0 <= sent <= num_packets,
        batch_size >= 0,
    ensures
        batch_size > 0 && sent + batch_size <= num_packets ==> batch_end(
            sent,
            num_packets,
            batch_size,
        ) - sent == batch_size,
        batch_size == 0 || num_packets < sent + batch_size ==> batch_end(
            sent,
            num_packets,
            batch_size,
        ) == num_packets,
        forall|i: int|
            0 < i < batch_ends(sent, num_packets, batch_size).len() - 1 ==> #[trigger] batch_ends(
                sent,
                num_packets,
                batch_size,
            )[i] - batch_ends(sent, num_packets, batch_size)[i - 1] == batch_size,
    decreases num_packets - sent,
{
    let end = batch_end(sent, num_packets, batch_size);
    if sent < end < num_packets {
        batches_have_their_size(end, num_packets, batch_size);
        let rest = batch_ends(end, num_packets, batch_size);
        let all = batch_ends(sent, num_packets, batch_size);
        assert(all =~= seq![end] + rest);
        assert forall|i: int| 0 < i < all.len() - 1 implies #[trigger] all[i] - all[i - 1]
            == batch_size by {
            assert(all[i] == rest[i - 1]);
            if i > 1 {
                assert(all[i - 1] == rest[i - 2]);
            } else {
                assert(rest[0] == batch_end(end, num_packets, batch_size));
                assert(rest.len() > 1);
            }
        }
    }
}

proof fn lemma_loss(num_packets: int, num_messages: int, share: int)
    requires
        0 <= num_messages <= num_packets,
        num_packets > 0,
    ensures
        (share == ((num_packets - num_messages) * 10_000) / num_packets) == (share * num_packets
            <= (num_packets - num_messages) * 10_000 < (share + 1) * num_packets),
{
    let (top, q) = (
        (num_packets - num_messages) * 10_000,
        ((num_packets - num_messages) * 10_000) / num_packets,
    );
    vstd::arithmetic::div_mod::lemma_fundamental_div_mod(top, num_packets);
    assert(q * num_packets <= top < (q + 1) * num_packets) by (nonlinear_arith)
        requires
            top == num_packets * q + top % num_packets,
            0 <= top % num_packets < num_packets,
    ;
    if share < q {
        assert((share + 1) * num_packets <= q * num_packets) by (nonlinear_arith)
            requires
                share + 1 <= q,
                num_packets > 0,
        ;
    } else if share > q {
        assert((q + 1) * num_packets <= share * num_packets) by (nonlinear_arith)
            requires
                q + 1 <= share,
                num_packets > 0,
        ;
    }
}

proof fn lemma_first_batch_end(sent: int, num_packets: int, batch_size: int)
    requires
        0 <= sent < num_packets,
        batch_size >= 0,
    ensures
        batch_ends(sent, num_packets, batch_size).len() > 0,
        batch_ends(sent, num_packets, batch_size)[0] > sent,
{
}

/// How many packets came back.
pub open spec fn received(tracker: Seq<bool>) -> nat
    decreases tracker.len(),
{
    if tracker.len() == 0 {
        0
    } else {
        received(tracker.drop_last()) + if tracker.last() {
            1nat
        } else {
            0nat
        }
    }
}

/// No more packets come back than were sent.
pub proof fn received_bounds(tracker: Seq<bool>)
    ensures
        received(tracker) <= tracker.len(),
    decreases tracker.len(),
{
    if tracker.len() > 0 {
        received_bounds(tracker.drop_last());
    }
}

/// A packet counts once, however often it comes back.
pub proof fn packet_counts_once(tracker: Seq<bool>, at: int)
    requires
        0 <= at < tracker.len(),
    ensures
        received(tracker.update(at, true)) == received(tracker) + if tracker[at] {
            0nat
        } else {
            1nat
        },
    decreases tracker.len(),
{
    let updated = tracker.update(at, true);
    if at == tracker.len() - 1 {
        assert(updated.drop_last() =~= tracker.drop_last());
    } else {
        assert(updated.drop_last() =~= tracker.drop_last().update(at, true));
        packet_counts_once(tracker.drop_last(), at);
    }
}

/// The packets that came back, after one more message. A message that is none of
/// the packets changes nothing.
pub open spec fn came_back(tracker: Seq<bool>, message: u64) -> Seq<bool> {
    if (message as int) < tracker.len() {
        tracker.update(message as int, true)
    } else {
        tracker
    }
}

/// The packets that came back, after a series of messages.
pub open spec fn came_back_all(tracker: Seq<bool>, messages: Seq<u64>) -> Seq<bool>
    decreases messages.len(),
{
    if messages.len() == 0 {
        tracker
    } else {
        came_back(came_back_all(tracker, messages.drop_last()), messages.last())
    }
}

/// The packets among some messages.
pub open spec fn packets_among(messages: Seq<u64>, num_packets: nat) -> Set<u64>
    decreases messages.len(),
{
    if messages.len() == 0 {
        Set::empty()
    } else {
        let before = packets_among(messages.drop_last(), num_packets);
        if (messages.last() as int) < num_packets {
            before.insert(messages.last())
        } else {
            before
        }
    }
}

/// No packet came back.
pub open spec fn none_back(num_packets: nat) -> Seq<bool> {
    Seq::new(num_packets, |i: int| false)
}

proof fn lemma_nothing_received(num_packets: nat)
    ensures
        received(none_back(num_packets)) == 0,
    decreases num_packets,
{
    if num_packets > 0 {
        let all = none_back(num_packets);
        assert(all.drop_last() =~= none_back((num_packets - 1) as nat));
        lemma_nothing_received((num_packets - 1) as nat);
    }
}

/// The count of a test is the number of different packets among all messages
/// that came back.
pub proof fn count_is_of_different_packets(messages: Seq<u64>, num_packets: nat)
    ensures
        packets_among(messages, num_packets).finite(),
        forall|n: u64| #[trigger]
            packets_among(messages, num_packets).contains(n) == (n < num_packets
                && messages.contains(n)),
        received(came_back_all(none_back(num_packets), messages)) == packets_among(
            messages,
            num_packets,
        ).len(),
        came_back_all(none_back(num_packets), messages).len() == num_packets,
        forall|i: int|
            0 <= i < num_packets ==> #[trigger] came_back_all(none_back(num_packets), messages)[i] == (i <= u64::MAX && packets_among(messages, num_packets).contains(i as u64)),
    decreases messages.len(),
{
    let none = none_back(num_packets);
    if messages.len() == 0 {
        lemma_nothing_received(num_packets);
    } else {
        let rest = messages.drop_last();
        let message = messages.last();
        count_is_of_different_packets(rest, num_packets);
        let before = came_back_all(none, rest);
        if (message as int) < num_packets {
            packet_counts_once(before, message as int);
        }
        assert forall|n: u64| #[trigger]
            packets_among(messages, num_packets).contains(n) == (n < num_packets
                && messages.contains(n)) by {
            assert(packets_among(rest, num_packets).contains(n) == (n < num_packets
                && rest.contains(n)));
            if messages.contains(n) && n != message {
                let k = choose|k: int| 0 <= k < messages.len() && messages[k] == n;
                assert(rest[k] == n);
            }
            if rest.contains(n) {
                let k = choose|k: int| 0 <= k < rest.len() && rest[k] == n;
                assert(messages[k] == n);
            }
            if n == message {
                assert(messages[messages.len() - 1] == n);
            }
        }
    }
}

/// The result of a packet loss test.
#[derive(Debug, Clone, Copy, PartialEq, Eq, Structural)]
pub struct PacketLossResult {
    /// How many packets were sent.
    pub num_packets: usize,
    /// How many packets came back.
    pub num_messages: usize,
}

impl PacketLossResult {
    pub open spec fn wf(self) -> bool {
        self.num_messages <= self.num_packets
    }

    /// The share of lost packets in hundredths of a percent, rounded down.
    /// `None` where no packet was sent.
    pub fn loss_hundredths(&self) -> (r: Option<u64>)
        requires
            self.wf(),
        ensures
            match r {
                Some(share) => self.num_packets > 0 && share == ((self.num_packets
                    - self.num_messages) * 10_000) / (self.num_packets as int),
                None => self.num_packets == 0,
            },
            r matches Some(share) ==> share * self.num_packets <= (self.num_packets
                - self.num_messages) * 10_000 < (share + 1) * self.num_packets,
    {
        if self.num_packets == 0 {
            return None;
        }
        proof {
            let (all, back) = (self.num_packets as int, self.num_messages as int);
            lemma_loss(all, back, ((all - back) * 10_000) / all);
        }
        let lost: u128 = (self.num_packets - self.num_messages) as u128;
        let all: u128 = self.num_packets as u128;
        assert((lost * 10_000) / (all as int) <= 10_000) by (nonlinear_arith)
            requires
                lost <= all,
                all > 0,
        ;
        Some(((lost * 10_000) / all) as u64)
    }

    /// The result as one line, for readers.
    pub fn summary(&self) -> (r: String)
        requires
            self.wf(),
        ensures
            r@ == "messages: "@ + text::decimal(self.num_messages as nat) + " loss ratio: "@ + (
            if self.num_packets == 0 {
                "NaN"@
            } else {
                util::hundredths(
                    (((self.num_packets - self.num_messages) * 10_000) / (self.num_packets as int)) as nat,
                )
            }) + "\n"@,
    {
        let mut out = String::from_str("messages: ");
        text::push_decimal(&mut out, self.num_messages as u64);
        out.append(" loss ratio: ");
        match self.loss_hundredths() {
            Some(share) => out.append(util::hundredths_text(share).as_str()),
            None => out.append("NaN"),
        }
        out.append("\n");
        out
    }
}

/// Everything came back exactly where nothing was lost, and nothing came back
/// exactly where all was lost.
pub proof fn loss_extremes(num_packets: int, num_messages: int)
    requires
        0 <= num_messages <= num_packets,
        num_packets > 0,
    ensures
        num_messages == num_packets ==> ((num_packets - num_messages) * 10_000) / num_packets == 0,
        num_messages == 0 ==> ((num_packets - num_messages) * 10_000) / num_packets == 10_000,
        0 <= ((num_packets - num_messages) * 10_000) / num_packets <= 10_000,
{
    assert(0 <= ((num_packets - num_messages) * 10_000) / num_packets <= 10_000)
        by (nonlinear_arith)
        requires
            0 <= num_messages <= num_packets,
            num_packets > 0,
    ;
    if num_messages == 0 {
        assert((num_packets * 10_000) / num_packets == 10_000) by (nonlinear_arith)
            requires
                num_packets > 0,
        ;
    }
}

/// A packet loss test in progress.
#[derive(Debug)]
pub struct PacketLoss<C> {
    pub config: PacketLossConfig,
    pub load_generator: LoadGenerator<C>,
    /// For each packet, whether it came back.
    pub message_tracker: Vec<bool>,
}

impl<C> PacketLoss<C> {
    pub open spec fn wf(&self) -> bool {
        &&& self.message_tracker@.len() == self.config.num_packets
        &&& self.load_generator.headers_fit()
    }

    /// A test in which no packet was sent yet.
    pub fn new_with_config(config: PacketLossConfig) -> (r: Result<Self, LoadError>)
        ensures
            r matches Ok(test) && {
                &&& test.wf()
                &&& test.config == config
                &&& test.load_generator.loads().len() == 0
                &&& test.load_generator.config().download_url@ == config.download_url@
                &&& test.load_generator.config().upload_url@ == config.upload_url@
                &&& test.load_generator.config().scoped_headers is None
                &&& headers::entries(test.load_generator.headers()).len() == 0
                &&& test.message_tracker@ == none_back(config.num_packets as nat)
            },
    {
        let load_config = config.load_config();
        assert(load::first_invalid(load::pairs(load_config.headers@)) is None);
        assert(headers::built(load::pairs(load_config.headers@)).len() == 0);
        let load_generator = match LoadGenerator::new(load_config) {
            Ok(load_generator) => load_generator,
            Err(error) => {
                return Err(error);
            },
        };
        let message_tracker: Vec<bool> = vec![false; config.num_packets];
        assert(message_tracker@ =~= none_back(config.num_packets as nat));
        Ok(PacketLoss { config, load_generator, message_tracker })
    }

    /// Plans a load in one direction, on an HTTP/2 connection.
    pub fn new_load_generating_connection(&self, direction: Direction) -> (r: Result<
        PlannedLoad<C>,
        LoadError,
    >)
        requires
            self.wf(),
        ensures
            ({
                let address = match direction {
                    Direction::Up(_) => self.load_generator.config().upload_url@,
                    Direction::Down => self.load_generator.config().download_url@,
                };
                match uri::http_uri(address) {
                    None => r == Err::<PlannedLoad<C>, LoadError>(LoadError::InvalidUri),
                    Some(parts) => self.load_generator.is_plan(
                        direction,
                        ConnectionType::H2,
                        parts,
                        r,
                    ),
                }
            }),
    {
        self.load_generator.new_loaded_connection(direction, ConnectionType::H2)
    }

    /// Something happened on the data channel. A packet whose number was never
    /// sent is ignored.
    pub fn on_channel_event(&mut self, event: DataChannelEvent) -> (action: PacketLossAction)
        requires
            old(self).wf(),
        ensures
            final(self).wf(),
            final(self).config == old(self).config,
            final(self).load_generator == old(self).load_generator,
            match event {
                DataChannelEvent::OnOpenChannel => action == PacketLossAction::StartSending,
                DataChannelEvent::OnReceivedMessage(_) => action == PacketLossAction::Wait,
                DataChannelEvent::OnInfoMessage(_) => action == PacketLossAction::Wait,
                DataChannelEvent::ConnectionError(reason) => action
                    == PacketLossAction::StopFailed(reason),
            },
            final(self).message_tracker@ == match event {
                DataChannelEvent::OnReceivedMessage(message) => came_back(
                    old(self).message_tracker@,
                    message,
                ),
                _ => old(self).message_tracker@,
            },
    {
        match event {
            DataChannelEvent::OnOpenChannel => PacketLossAction::StartSending,
            DataChannelEvent::OnReceivedMessage(message) => {
                if message < self.message_tracker.len() as u64 {
                    let at: usize = message as usize;
                    self.message_tracker[at] = true;
                }
                PacketLossAction::Wait
            },
            DataChannelEvent::OnInfoMessage(_) => PacketLossAction::Wait,
            DataChannelEvent::ConnectionError(reason) => PacketLossAction::StopFailed(reason),
        }
    }

    /// Something else happened.
    pub fn on_event(&mut self, event: PacketLossEvent<C>) -> (action: PacketLossAction)
        requires
            old(self).wf(),
        ensures
            final(self).wf(),
            final(self).config == old(self).config,
            final(self).message_tracker == old(self).message_tracker,
            final(self).load_generator.headers() == old(self).load_generator.headers(),
            final(self).load_generator.config() == old(self).load_generator.config(),
            match event {
                PacketLossEvent::AllMessagesSent => action == PacketLossAction::Stop && final(self).load_generator.loads() == old(self).load_generator.loads(),
                PacketLossEvent::NewLoadedConnection(connection) => action
                    == PacketLossAction::Wait && final(self).load_generator.loads() == old(self).load_generator.loads().push(connection),
                PacketLossEvent::Error(reason) => action == PacketLossAction::StopFailed(reason)
                    && final(self).load_generator.loads() == old(self).load_generator.loads(),
            },
    {
        match event {
            PacketLossEvent::AllMessagesSent => PacketLossAction::Stop,
            PacketLossEvent::NewLoadedConnection(connection) => {
                self.load_generator.push(connection);
                PacketLossAction::Wait
            },
            PacketLossEvent::Error(reason) => PacketLossAction::StopFailed(reason),
        }
    }

    /// How many packets came back so far.
    pub fn result(&self) -> (r: PacketLossResult)
        requires
            self.wf(),
        ensures
            r == (PacketLossResult {
                num_packets: self.config.num_packets,
                num_messages: received(self.message_tracker@) as usize,
            }),
            r.num_messages == received(self.message_tracker@),
            r.wf(),
    {
        let mut count: usize = 0;
        let mut i: usize = 0;
        assert(self.message_tracker@.take(0) =~= Seq::empty());
        while i < self.message_tracker.len()
            invariant
                i <= self.message_tracker@.len(),
                count == received(self.message_tracker@.take(i as int)),
                count <= i,
            decreases self.message_tracker@.len() - i,
        {
            assert(self.message_tracker@.take(i + 1).drop_last() =~= self.message_tracker@.take(
                i as int,
            ));
            if self.message_tracker[i] {
                count = count + 1;
            }
            i = i + 1;
        }
        assert(self.message_tracker@.take(i as int) =~= self.message_tracker@);
        PacketLossResult { num_packets: self.config.num_packets, num_messages: count }
    }
}

/// Why credentials cannot be asked for.
#[derive(Debug, Clone, Copy, PartialEq, Eq, Structural)]
pub enum CredsError {
    /// The address names no host.
    MissingHost,
    /// The host is not a header value.
    InvalidHeaderValue,
    /// The address is not a URI.
    InvalidUri,
    Client(ClientError),
}

/// The headers of the request for credentials.
pub open spec fn creds_headers(host: Seq<char>) -> Seq<headers::Entry> {
    client::with_user_agent(seq![("host"@, vstd::utf8::encode_utf8(host), false)])
}

/// Makes the request for TURN credentials, given the URI that its address was
/// parsed into.
pub fn creds_request_to<C>(host: &str, uri: &Uri) -> (r: Result<Prepared<C>, CredsError>)
    ensures
        if !headers::is_value(vstd::utf8::encode_utf8(host@)) {
            r == Err::<Prepared<C>, CredsError>(CredsError::InvalidHeaderValue)
        } else {
            match uri@.host {
                None => r == Err::<Prepared<C>, CredsError>(
                    CredsError::Client(ClientError::MissingHost),
                ),
                Some(name) => r matches Ok(request) && {
                    &&& request.method@ == "GET"@
                    &&& request.host@ == name
                    &&& request.port == client::request_port(uri@)
                    &&& request.host_with_port@ == client::host_and_port(
                        name,
                        client::request_port(uri@),
                    )
                    &&& headers::entries(request.headers) == creds_headers(host@)
                    &&& request.connection == ConnectionChoice::<C>::New(
                        ConnectionType::H1 { use_tls: true },
                    )
                    &&& request.upload is None
                },
            }
        },
{
    let bytes = host.as_bytes();
    if !headers::is_header_value(bytes) {
        return Err(CredsError::InvalidHeaderValue);
    }
    let mut map = headers::new_map();
    proof {
        reveal_strlit("host");
        reveal_strlit("GET");
        assert(text::lower_text("host"@) =~= "host"@);
    }
    headers::append(&mut map, &headers::parse_name("host"), bytes, false);
    assert(headers::entries(map) =~= seq![("host"@, vstd::utf8::encode_utf8(host@), false)]);
    let client: Client<C> = Client::default();
    match client.new_connection(ConnectionType::h1()).method("GET").headers(map).send(uri) {
        Ok(request) => Ok(request),
        Err(error) => Err(CredsError::Client(error)),
    }
}

/// The message about credentials that were not handed out, given the reason
/// phrase of the status.
pub open spec fn creds_rejection_message(
    address: Seq<char>,
    status: u16,
    reason: Option<Seq<char>>,
) -> Seq<char> {
    "could not fetch turn credentials from: "@ + address + " "@ + client::status_text(
        status,
        reason,
    )
}

/// Why no credentials were handed out, given the reason phrase of the status.
/// `None` where they were.
pub fn creds_rejection_with(address: &str, status: u16, reason: Option<&str>) -> (r: Option<String>)
    ensures
        r is None == (200 <= status <= 299),
        client::is_success(status) ==> r is None,
        !client::is_success(status) ==> r is Some && r->0@ == creds_rejection_message(
            address@,
            status,
            match reason {
                Some(reason) => Some(reason@),
                None => None,
            },
        ),
{
    if 200 <= status && status < 300 {
        return None;
    }
    let mut message = String::from_str("could not fetch turn credentials from: ");
    message.append(address);
    message.append(" ");
    client::push_status(&mut message, status, reason);
    Some(message)
}

/// Why no credentials were handed out. `None` where they were.
pub fn creds_rejection(address: &str, status: u16) -> (r: Option<String>)
    requires
        100 <= status <= 999,
    ensures
        client::is_success(status) ==> r is None,
        !client::is_success(status) ==> r is Some && r->0@ == creds_rejection_message(
            address@,
            status,
            client::status_reason(status),
        ),
{
    creds_rejection_with(address, status, client::canonical_reason(status))
}

/// Makes the request for TURN credentials: a `GET` of their address over
/// HTTP/1.1 with the host of the address as `Host`.
pub fn creds_request<C>(url: &Url) -> (r: Result<Prepared<C>, CredsError>)
    ensures
        match url@.host {
            None => r == Err::<Prepared<C>, CredsError>(CredsError::MissingHost),
            Some(host) => if !headers::is_value(vstd::utf8::encode_utf8(host)) {
                r == Err::<Prepared<C>, CredsError>(CredsError::InvalidHeaderValue)
            } else {
                match uri::http_uri(url@.text) {
                    None => r == Err::<Prepared<C>, CredsError>(CredsError::InvalidUri),
                    Some(parts) => match parts.host {
                        None => r == Err::<Prepared<C>, CredsError>(
                            CredsError::Client(ClientError::MissingHost),
                        ),
                        Some(name) => r matches Ok(request) && {
                            &&& request.method@ == "GET"@
                            &&& request.host@ == name
                            &&& request.port == client::request_port(parts)
                            &&& request.host_with_port@ == client::host_and_port(
                                name,
                                client::request_port(parts),
                            )
                            &&& headers::entries(request.headers) == creds_headers(host)
                            &&& request.connection == ConnectionChoice::<C>::New(
                                ConnectionType::H1 { use_tls: true },
                            )
                            &&& request.upload is None
                        },
                    },
                }
            },
        },
{
    let host = match &url.host {
        Some(host) => host,
        None => {
            return Err(CredsError::MissingHost);
        },
    };
    if !headers::is_header_value(host.as_str().as_bytes()) {
        return Err(CredsError::InvalidHeaderValue);
    }
    match Uri::parse(url.text.as_str()) {
        Some(uri) => creds_request_to(host.as_str(), &uri),
        None => Err(CredsError::InvalidUri),
    }
}

} // verus!
