//! Packet loss: numbering packets, sending them in batches, counting them.

use networkquality::body::BodyEvent;
use networkquality::client::{ConnectionChoice, Direction};
use networkquality::connection::ConnectionType;
use networkquality::data_channel::{
    get_bind_address_for_address, peer_message, peer_state, DataChannelEvent, DataChannelSendType,
    Outgoing, SendError, SocketAddress, TurnDataChannel,
};
use networkquality::load::{LoadReport, LoadedConnection};
use networkquality::packet_loss::{
    creds_rejection, creds_rejection_with, creds_request, creds_request_to, next_batch, Batch,
    CredsError, PacketLoss, PacketLossAction, PacketLossConfig, PacketLossEvent, PacketLossResult,
    LOAD_UPLOAD_SIZE,
};
use networkquality::time::Timestamp;
use networkquality::uri::{Uri, Url};
use networkquality::wire::{decode, encode};

const RELAY: SocketAddress = SocketAddress::V4 { ip: 0x7f000001, port: 3478 };
const MAPPED: SocketAddress = SocketAddress::V4 { ip: 0x0a000001, port: 9 };
const BY_SOCKET: [u8; 4] = [55, 21, 86, 2];

#[test]
fn numbers_are_written_big_end_first() {
    assert_eq!(encode(0x0102030405060708), vec![1, 2, 3, 4, 5, 6, 7, 8]);
    assert_eq!(decode(&encode(u64::MAX)), Some(u64::MAX));
    assert_eq!(decode(&encode(77)), Some(77));
    assert_eq!(decode(&vec![1, 2, 3]), None);
}

#[test]
fn bind_address_is_of_the_same_family() {
    assert_eq!(
        get_bind_address_for_address(RELAY),
        SocketAddress::V4 { ip: 0, port: 0 }
    );
    assert_eq!(
        get_bind_address_for_address(SocketAddress::V6 { ip6: 1, port: 2, flowinfo: 3, scope_id: 4 }),
        SocketAddress::V6 { ip6: 0, port: 0, flowinfo: 0, scope_id: 0 }
    );
}

#[test]
fn channel_opens_by_the_first_echo() {
    let mut channel = TurnDataChannel::new();
    assert_eq!(channel.send_message(1), Err(SendError::NotReady));
    assert_eq!(SendError::NotReady.message(), "Sending before ready");

    let (outgoing, event) = channel.handle_allocation_granted(RELAY, MAPPED, "the relay");
    assert_eq!(
        outgoing,
        vec![Outgoing::AddPermission(RELAY), Outgoing::AddPermission(MAPPED)]
    );
    assert_eq!(
        event,
        DataChannelEvent::OnInfoMessage("Allocation granted for the relay".to_owned())
    );

    // Only the permission for the relay opens the channel.
    let (outgoing, _) = channel.handle_permission_created(MAPPED, "me");
    assert_eq!(outgoing, vec![]);
    let (outgoing, event) = channel.handle_permission_created(RELAY, "relay");
    assert_eq!(outgoing.len(), 2);
    assert_eq!(
        event,
        DataChannelEvent::OnInfoMessage("Permission created for relay".to_owned())
    );
    let by_channel = match &outgoing[0] {
        Outgoing::SendByChannel(to, data) => {
            assert_eq!(*to, RELAY);
            data.clone()
        }
        other => panic!("{other:?}"),
    };

    assert_eq!(channel.handle_recv_packet(&by_channel), DataChannelEvent::OnOpenChannel);
    assert_eq!(channel.channel_send_type, DataChannelSendType::UseChannel);
    // The other opening packet is of no use any more.
    assert_eq!(
        channel.handle_recv_packet(&BY_SOCKET.to_vec()),
        DataChannelEvent::OnInfoMessage("Unused sentinal message".to_owned())
    );
    assert_eq!(
        channel.send_message(5),
        Ok(Outgoing::SendByChannel(RELAY, encode(5)))
    );
    assert_eq!(
        channel.handle_recv_packet(&encode(5)),
        DataChannelEvent::OnReceivedMessage(5)
    );
}

#[test]
fn channel_can_open_by_its_socket() {
    let mut channel = TurnDataChannel::new();
    channel.handle_allocation_granted(RELAY, MAPPED, "r");
    assert_eq!(
        channel.handle_recv_packet(&BY_SOCKET.to_vec()),
        DataChannelEvent::OnOpenChannel
    );
    assert_eq!(channel.send_message(6), Ok(Outgoing::SendBySocket(RELAY, encode(6))));
}

#[test]
fn unexpected_packets_are_errors() {
    let mut channel = TurnDataChannel::new();
    assert_eq!(
        channel.handle_recv_packet(&vec![1, 2, 3, 4]),
        DataChannelEvent::ConnectionError("Received unexpected bytes".to_owned())
    );
    assert_eq!(
        channel.handle_recv_packet(&encode(1)),
        DataChannelEvent::ConnectionError("Unexpected message".to_owned())
    );
    assert_eq!(
        channel.handle_permission_not_created("a"),
        DataChannelEvent::ConnectionError("Permission not created for a".to_owned())
    );
    assert_eq!(
        channel.handle_other(None),
        DataChannelEvent::ConnectionError("Unexpected stream result".to_owned())
    );
    assert_eq!(
        channel.handle_other(Some("pong")),
        DataChannelEvent::OnInfoMessage("pong".to_owned())
    );
}

#[test]
fn peer_channel_knows_numbers_and_failure() {
    assert_eq!(peer_message(&encode(3)), Some(DataChannelEvent::OnReceivedMessage(3)));
    assert_eq!(peer_message(&vec![0; 7]), None);
    assert_eq!(
        peer_state(true),
        Some(DataChannelEvent::ConnectionError("Data connection failed".to_owned()))
    );
    assert_eq!(peer_state(false), None);
}

#[test]
fn batches_cover_all_packets() {
    for batch_size in [0usize, 1, 7, 10, 100, 1000] {
        let mut sent = 0;
        let mut seen = 0;
        loop {
            let batch = next_batch(sent, 100, batch_size);
            assert_eq!(batch.start, sent);
            seen += batch.end - batch.start;
            sent = batch.end;
            if batch.last {
                break;
            }
        }
        assert_eq!(seen, 100, "batch size {batch_size}");
    }
    assert_eq!(next_batch(90, 95, 10), Batch { start: 90, end: 95, last: true });
    assert_eq!(next_batch(10, 95, 10), Batch { start: 10, end: 20, last: false });
}

fn test_of(num_packets: usize) -> PacketLoss<u8> {
    PacketLoss::new_with_config(PacketLossConfig { num_packets, ..PacketLossConfig::default() })
        .unwrap()
}

#[test]
fn packets_count_once() {
    let mut test = test_of(4);
    assert!(matches!(
        test.on_channel_event(DataChannelEvent::OnOpenChannel),
        PacketLossAction::StartSending
    ));
    for number in [1, 3, 3, 1, 9] {
        assert!(matches!(
            test.on_channel_event(DataChannelEvent::OnReceivedMessage(number)),
            PacketLossAction::Wait
        ));
    }
    assert!(matches!(
        test.on_channel_event(DataChannelEvent::OnInfoMessage("x".to_owned())),
        PacketLossAction::Wait
    ));
    let result = test.result();
    assert_eq!(result, PacketLossResult { num_packets: 4, num_messages: 2 });
    assert_eq!(result.loss_hundredths(), Some(5000));
}

#[test]
fn loss_ranges_from_none_to_all() {
    let loss = |num_packets, num_messages| {
        PacketLossResult { num_packets, num_messages }.loss_hundredths()
    };
    assert_eq!(loss(1000, 1000), Some(0));
    assert_eq!(loss(1000, 0), Some(10_000));
    assert_eq!(loss(3, 2), Some(3333));
    assert_eq!(loss(0, 0), None);
}

#[test]
fn packet_loss_is_written_for_readers() {
    let result = PacketLossResult { num_packets: 1000, num_messages: 988 };
    assert_eq!(result.summary(), "messages: 988 loss ratio: 1.20\n");
    let nothing = PacketLossResult { num_packets: 0, num_messages: 0 };
    assert_eq!(nothing.summary(), "messages: 0 loss ratio: NaN\n");
}

#[test]
fn refused_credentials_are_reported() {
    assert_eq!(creds_rejection("https://a/", 200), None);
    assert_eq!(
        creds_rejection("https://a/", 403).as_deref(),
        Some("could not fetch turn credentials from: https://a/ 403 Forbidden")
    );
    assert_eq!(
        creds_rejection_with("https://a/", 500, None).as_deref(),
        Some("could not fetch turn credentials from: https://a/ 500 <unknown status code>")
    );
}

#[test]
fn packet_loss_test_ends_on_failure_or_when_all_is_sent() {
    let mut test = test_of(1);
    assert!(matches!(
        test.on_event(PacketLossEvent::AllMessagesSent),
        PacketLossAction::Stop
    ));
    match test.on_event(PacketLossEvent::Error("down".to_owned())) {
        PacketLossAction::StopFailed(reason) => assert_eq!(reason, "down"),
        other => panic!("{other:?}"),
    }
    match test.on_channel_event(DataChannelEvent::ConnectionError("gone".to_owned())) {
        PacketLossAction::StopFailed(reason) => assert_eq!(reason, "gone"),
        other => panic!("{other:?}"),
    }
    assert!(matches!(
        test.on_event(PacketLossEvent::NewLoadedConnection(LoadedConnection::new(1))),
        PacketLossAction::Wait
    ));
    assert_eq!(test.load_generator.connections().len(), 1);
    let at = Timestamp { nanos: 1 };
    test.load_generator.update(vec![LoadReport {
        events: vec![BodyEvent::Finished { at }],
        disconnected: true,
    }]);
    assert_eq!(test.load_generator.count_loads(), 0);
}

#[test]
fn packet_loss_loads_go_both_ways() {
    let test = test_of(1);
    let down = test.new_load_generating_connection(Direction::Down).unwrap();
    assert_eq!(down.request.method, "GET");
    let up = test
        .new_load_generating_connection(Direction::Up(LOAD_UPLOAD_SIZE))
        .unwrap();
    assert_eq!(up.request.method, "POST");
    assert!(matches!(up.request.connection, ConnectionChoice::New(ConnectionType::H2)));
}

#[test]
fn packet_loss_test_has_defaults() {
    let config = PacketLossConfig::default();
    assert_eq!(config.num_packets, 1000);
    assert_eq!(config.batch_size, 10);
    assert_eq!(config.batch_wait_time, 10_000_000);
    assert_eq!(config.response_wait_time, 3_000_000_000);
    assert_eq!(config.load_config().upload_url, config.upload_url);
}

#[test]
fn credentials_are_asked_for_at_their_host() {
    let url = Url::parse("https://speed.example.com/turn-creds").unwrap();
    let request = creds_request::<u8>(&url).unwrap();
    assert_eq!(request.method, "GET");
    assert_eq!(request.host, "speed.example.com");
    assert_eq!(request.host_with_port, "speed.example.com:443");
    assert_eq!(request.headers.get("host").unwrap(), "speed.example.com");
    let no_host = Url::parse("data:text/plain,hello").unwrap();
    assert_eq!(creds_request::<u8>(&no_host).unwrap_err(), CredsError::MissingHost);
    let uri = Uri::parse("https://a.example/").unwrap();
    assert_eq!(
        creds_request_to::<u8>("bad\nhost", &uri).unwrap_err(),
        CredsError::InvalidHeaderValue
    );
}

#[test]
fn different_packets_are_counted() {
    let mut test = test_of(5);
    for message in [3, 0, 3, 7, 0, 5, 4, u64::MAX] {
        test.on_channel_event(DataChannelEvent::OnReceivedMessage(message));
    }
    // Packets 0, 3 and 4. The others were never sent.
    assert_eq!(test.result().num_messages, 3);
}
