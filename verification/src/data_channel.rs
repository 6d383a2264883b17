//! The exchange with a TURN server that echoes test packets.
//!
//! A driver moves the packets. Here is decided what is sent when, by which of
//! two ways, and what a packet that came back means.

use vstd::prelude::*;

use crate::wire;

verus! {

/// What happened on a data channel.
#[derive(Debug, PartialEq, Eq)]
pub enum DataChannelEvent {
    /// The channel was opened.
    OnOpenChannel,
    /// The message with this number came back.
    OnReceivedMessage(u64),
    /// Something happened that needs no reaction.
    OnInfoMessage(String),
    /// A failure occurred.
    ConnectionError(String),
}

/// The credentials for a TURN server.
#[derive(Debug)]
pub struct TurnServerCreds {
    pub username: String,
    pub credential: String,
}

/// The address of a socket.
#[derive(Debug, Clone, Copy, PartialEq, Eq, Structural)]
pub enum SocketAddress {
    V4 { ip: u32, port: u16 },
    V6 { ip6: u128, port: u16, flowinfo: u32, scope_id: u32 },
}

/// How test packets reach the TURN server.
#[derive(Debug, Clone, Copy, PartialEq, Eq, Structural)]
pub enum DataChannelSendType {
    /// Through the channel of the TURN protocol.
    UseChannel,
    /// From a socket of their own.
    UseSocket,
    /// Not known yet.
    Undetermined,
}

/// What the driver sends.
#[derive(Debug, PartialEq, Eq)]
pub enum Outgoing {
    /// Ask the server to let this address send.
    AddPermission(SocketAddress),
    /// Send the bytes to an address through the channel.
    SendByChannel(SocketAddress, Vec<u8>),
    /// Send the bytes to an address from the data socket.
    SendBySocket(SocketAddress, Vec<u8>),
}

/// Why a message cannot be sent.
#[derive(Debug, Clone, Copy, PartialEq, Eq, Structural)]
pub enum SendError {
    NotReady,
}

impl SendError {
    /// The error as text.
    pub fn message(&self) -> (r: String)
        ensures
            r@ == "Sending before ready"@,
    {
        String::from_str("Sending before ready")
    }
}

/// The packet that opens the channel by way of the TURN protocol.
pub open spec fn sentinel_channel() -> Seq<u8> {
    seq![10u8, 77u8, 15u8, 33u8]
}

/// The packet that opens the channel by way of the data socket.
pub open spec fn sentinel_socket() -> Seq<u8> {
    seq![55u8, 21u8, 86u8, 2u8]
}

fn sentinel_channel_bytes() -> (r: Vec<u8>)
    ensures
        r@ == sentinel_channel(),
{
    let r: Vec<u8> = vec![10u8, 77u8, 15u8, 33u8];
    assert(r@ =~= sentinel_channel());
    r
}

fn sentinel_socket_bytes() -> (r: Vec<u8>)
    ensures
        r@ == sentinel_socket(),
{
    let r: Vec<u8> = vec![55u8, 21u8, 86u8, 2u8];
    assert(r@ =~= sentinel_socket());
    r
}

/// Whether two byte strings are the same.
fn same_bytes(a: &Vec<u8>, b: &Vec<u8>) -> (r: bool)
    ensures
        r == (a@ == b@),
{
    if a.len() != b.len() {
        return false;
    }
    let mut i: usize = 0;
    while i < a.len()
        invariant
            i <= a@.len() == b@.len(),
            forall|j: int| 0 <= j < i ==> a@[j] == b@[j],
        decreases a@.len() - i,
    {
        if a[i] != b[i] {
            assert(a@[i as int] != b@[i as int]);
            return false;
        }
        i = i + 1;
    }
    assert(a@ =~= b@);
    true
}

/// The address to bind a socket to that talks to the given address: any address
/// of the same family, any port.
pub fn get_bind_address_for_address(address: SocketAddress) -> (r: SocketAddress)
    ensures
        r == match address {
            SocketAddress::V4 { .. } => SocketAddress::V4 { ip: 0, port: 0 },
            SocketAddress::V6 { .. } => SocketAddress::V6 {
                ip6: 0,
                port: 0,
                flowinfo: 0,
                scope_id: 0,
            },
        },
{
    match address {
        SocketAddress::V4 { .. } => SocketAddress::V4 { ip: 0, port: 0 },
        SocketAddress::V6 { .. } => SocketAddress::V6 { ip6: 0, port: 0, flowinfo: 0, scope_id: 0 },
    }
}

/// Whether an event informs of what the text says.
pub open spec fn informs(event: DataChannelEvent, text: Seq<char>) -> bool {
    event matches DataChannelEvent::OnInfoMessage(message) && message@ == text
}

/// Whether an event is a failure for the reason given.
pub open spec fn fails(event: DataChannelEvent, text: Seq<char>) -> bool {
    event matches DataChannelEvent::ConnectionError(message) && message@ == text
}

/// Two texts in a row.
fn joined(head: &str, tail: &str) -> (r: String)
    ensures
        r@ == head@ + tail@,
{
    let mut out = head.to_owned();
    out.append(tail);
    out
}

/// The state of the exchange with a TURN server.
#[derive(Debug, Clone, Copy, PartialEq, Eq, Structural)]
pub struct TurnDataChannel {
    /// The address at the server that echoes packets.
    pub relay_address: Option<SocketAddress>,
    /// The data socket is open.
    pub has_data_socket: bool,
    /// How packets are sent.
    pub channel_send_type: DataChannelSendType,
}

impl TurnDataChannel {
    /// Nothing was exchanged yet.
    pub fn new() -> (r: Self)
        ensures
            r == (TurnDataChannel {
                relay_address: None,
                has_data_socket: false,
                channel_send_type: DataChannelSendType::Undetermined,
            }),
    {
        TurnDataChannel {
            relay_address: None,
            has_data_socket: false,
            channel_send_type: DataChannelSendType::Undetermined,
        }
    }

    /// The server granted an allocation, and the data socket was opened. Both
    /// the relay and the address as which the server sees this side have to be
    /// permitted. `relay_text` is the relay address as text.
    pub fn handle_allocation_granted(
        &mut self,
        relay_address: SocketAddress,
        mapped_address: SocketAddress,
        relay_text: &str,
    ) -> (r: (Vec<Outgoing>, DataChannelEvent))
        ensures
            *final(self) == (TurnDataChannel {
                relay_address: Some(relay_address),
                has_data_socket: true,
                ..*old(self)
            }),
            r.0@ == seq![
                Outgoing::AddPermission(relay_address),
                Outgoing::AddPermission(mapped_address),
            ],
            informs(r.1, "Allocation granted for "@ + relay_text@),
    {
        self.relay_address = Some(relay_address);
        self.has_data_socket = true;
        let mut outgoing: Vec<Outgoing> = Vec::new();
        outgoing.push(Outgoing::AddPermission(relay_address));
        outgoing.push(Outgoing::AddPermission(mapped_address));
        assert(outgoing@ =~= seq![
            Outgoing::AddPermission(relay_address),
            Outgoing::AddPermission(mapped_address),
        ]);
        (outgoing, DataChannelEvent::OnInfoMessage(joined("Allocation granted for ", relay_text)))
    }

    /// The server permitted an address. Once that is the relay, the channel is
    /// opened by a packet on each of the two ways; the first that comes back
    /// decides how packets are sent from there on. `address_text` is the
    /// address as text.
    pub fn handle_permission_created(&self, address: SocketAddress, address_text: &str) -> (r: (
        Vec<Outgoing>,
        DataChannelEvent,
    ))
        ensures
            informs(r.1, "Permission created for "@ + address_text@),
            if self.relay_address == Some(address) && self.has_data_socket {
                &&& r.0@.len() == 2
                &&& r.0@[0] matches Outgoing::SendByChannel(to, data) && to == address && data@
                    == sentinel_channel() && data@ == seq![10u8, 77u8, 15u8, 33u8]
                &&& r.0@[1] matches Outgoing::SendBySocket(to, data) && to == address && data@
                    == sentinel_socket() && data@ == seq![55u8, 21u8, 86u8, 2u8]
            } else {
                r.0@.len() == 0
            },
    {
        let mut outgoing: Vec<Outgoing> = Vec::new();
        if let Some(relay_address) = self.relay_address {
            if self.has_data_socket && relay_address == address {
                outgoing.push(Outgoing::SendByChannel(relay_address, sentinel_channel_bytes()));
                outgoing.push(Outgoing::SendBySocket(relay_address, sentinel_socket_bytes()));
            }
        }
        (
            outgoing,
            DataChannelEvent::OnInfoMessage(joined("Permission created for ", address_text)),
        )
    }

    /// The server did not permit an address.
    pub fn handle_permission_not_created(&self, address_text: &str) -> (event: DataChannelEvent)
        ensures
            fails(event, "Permission not created for "@ + address_text@),
    {
        DataChannelEvent::ConnectionError(joined("Permission not created for ", address_text))
    }

    /// The server sent something else, or nothing more.
    pub fn handle_other(&self, description: Option<&str>) -> (event: DataChannelEvent)
        ensures
            match description {
                Some(description) => informs(event, description@),
                None => fails(event, "Unexpected stream result"@),
            },
    {
        match description {
            Some(description) => DataChannelEvent::OnInfoMessage(description.to_owned()),
            None => DataChannelEvent::ConnectionError(
                String::from_str("Unexpected stream result"),
            ),
        }
    }

    /// A packet came back. The first of the two opening packets settles how
    /// packets are sent; the other one is of no use any more. After that, test
    /// packets carry their numbers.
    pub fn handle_recv_packet(&mut self, data: &Vec<u8>) -> (event: DataChannelEvent)
        ensures
            final(self).relay_address == old(self).relay_address,
            final(self).has_data_socket == old(self).has_data_socket,
            ({
                let undetermined = old(self).channel_send_type == DataChannelSendType::Undetermined;
                if data@.len() == 4 && undetermined {
                    if data@ == sentinel_channel() {
                        &&& event == DataChannelEvent::OnOpenChannel
                        &&& final(self).channel_send_type == DataChannelSendType::UseChannel
                    } else if data@ == sentinel_socket() {
                        &&& event == DataChannelEvent::OnOpenChannel
                        &&& final(self).channel_send_type == DataChannelSendType::UseSocket
                    } else {
                        &&& fails(event, "Received unexpected bytes"@)
                        &&& final(self).channel_send_type == old(self).channel_send_type
                    }
                } else {
                    &&& final(self).channel_send_type == old(self).channel_send_type
                    &&& if data@.len() == 4 {
                        informs(event, "Unused sentinal message"@)
                    } else if data@.len() == 8 && !undetermined {
                        event == DataChannelEvent::OnReceivedMessage(
                            wire::number_of(data@) as u64,
                        )
                    } else {
                        fails(event, "Unexpected message"@)
                    }
                }
            }),
    {
        let undetermined = self.channel_send_type == DataChannelSendType::Undetermined;
        if data.len() == 4 {
            if !undetermined {
                return DataChannelEvent::OnInfoMessage(String::from_str("Unused sentinal message"));
            }
            if same_bytes(data, &sentinel_channel_bytes()) {
                self.channel_send_type = DataChannelSendType::UseChannel;
                return DataChannelEvent::OnOpenChannel;
            }
            if same_bytes(data, &sentinel_socket_bytes()) {
                self.channel_send_type = DataChannelSendType::UseSocket;
                return DataChannelEvent::OnOpenChannel;
            }
            return DataChannelEvent::ConnectionError(String::from_str("Received unexpected bytes"));
        }
        if !undetermined {
            if let Some(number) = wire::decode(data) {
                return DataChannelEvent::OnReceivedMessage(number);
            }
        }
        DataChannelEvent::ConnectionError(String::from_str("Unexpected message"))
    }

    /// How to send the message with a number, for the server to echo.
    pub fn send_message(&self, message: u64) -> (r: Result<Outgoing, SendError>)
        ensures
            match self.relay_address {
                Some(relay) if self.has_data_socket => match self.channel_send_type {
                    DataChannelSendType::UseChannel => r matches Ok(Outgoing::SendByChannel(
                        to,
                        data,
                    )) && to == relay && data@ == wire::bytes_of(message as nat, 8),
                    DataChannelSendType::UseSocket => r matches Ok(Outgoing::SendBySocket(
                        to,
                        data,
                    )) && to == relay && data@ == wire::bytes_of(message as nat, 8),
                    DataChannelSendType::Undetermined => r == Err::<Outgoing, SendError>(
                        SendError::NotReady,
                    ),
                },
                _ => r == Err::<Outgoing, SendError>(SendError::NotReady),
            },
    {
        if !self.has_data_socket {
            return Err(SendError::NotReady);
        }
        match self.relay_address {
            Some(relay) => match self.channel_send_type {
                DataChannelSendType::UseChannel => Ok(
                    Outgoing::SendByChannel(relay, wire::encode(message)),
                ),
                DataChannelSendType::UseSocket => Ok(
                    Outgoing::SendBySocket(relay, wire::encode(message)),
                ),
                DataChannelSendType::Undetermined => Err(SendError::NotReady),
            },
            None => Err(SendError::NotReady),
        }
    }
}

/// A message that was sent as eight bytes and echoed is received with its
/// number.
pub proof fn echoed_message_keeps_its_number(message: u64)
    ensures
        wire::bytes_of(message as nat, 8).len() == 8,
        wire::number_of(wire::bytes_of(message as nat, 8)) == message,
{
    wire::eight_bytes_limit();
    wire::write_then_read(message as nat, 8);
}

/// What a message on a peer-to-peer data channel means: one of eight bytes
/// carries its number, any other is ignored.
pub fn peer_message(data: &Vec<u8>) -> (event: Option<DataChannelEvent>)
    ensures
        event == (if data@.len() == 8 {
            Some(DataChannelEvent::OnReceivedMessage(wire::number_of(data@) as u64))
        } else {
            None
        }),
{
    match wire::decode(data) {
        Some(number) => Some(DataChannelEvent::OnReceivedMessage(number)),
        None => None,
    }
}

/// What a change of a peer connection means: only a failure matters.
pub fn peer_state(failed: bool) -> (event: Option<DataChannelEvent>)
    ensures
        failed ==> event is Some && fails(event->0, "Data connection failed"@),
        !failed ==> event is None,
{
    if failed {
        Some(DataChannelEvent::ConnectionError(String::from_str("Data connection failed")))
    } else {
        None
    }
}

} // verus!
