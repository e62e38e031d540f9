//! Addresses and packets.

use vstd::prelude::*;

use crate::accounts::copy_items;

verus! {

/// An address of a host.
#[derive(Debug, Clone, Copy, PartialEq, Eq)]
pub enum IpAddress {
    V4([u8; 4]),
    V6([u8; 16]),
}

/// An address of a service.
#[derive(Debug, Clone, Copy, PartialEq, Eq)]
pub struct NodeAddress {
    pub ip: IpAddress,
    pub port: u16,
}

/// The local host.
pub const LOCALHOST: [u8; 4] = [127u8, 0u8, 0u8, 1u8];

/// No host in particular.
pub open spec fn is_unspecified(ip: IpAddress) -> bool {
    match ip {
        IpAddress::V4(octets) => forall|i: int| 0 <= i < 4 ==> octets@[i] == 0,
        IpAddress::V6(octets) => forall|i: int| 0 <= i < 16 ==> octets@[i] == 0,
    }
}

fn all_zero(bytes: &[u8]) -> (zero: bool)
    ensures
        zero == (forall|i: int| 0 <= i < bytes@.len() ==> bytes@[i] == 0),
{
    let mut i: usize = 0;
    while i < bytes.len()
        invariant
            i <= bytes@.len(),
            forall|j: int| 0 <= j < i ==> bytes@[j] == 0,
        decreases bytes@.len() - i,
    {
        if bytes[i] != 0 {
            return false;
        }
        i += 1;
    }
    true
}

/// The address under which a service is made known: the local host, if the
/// service listens on no host in particular.
pub fn advertise_addr(address: NodeAddress) -> (advertised: NodeAddress)
    ensures
        advertised == (if is_unspecified(address.ip) {
            NodeAddress { ip: IpAddress::V4(LOCALHOST), port: address.port }
        } else {
            address
        }),
{
    let unspecified = match address.ip {
        IpAddress::V4(octets) => all_zero(&octets),
        IpAddress::V6(octets) => all_zero(&octets),
    };
    if unspecified {
        NodeAddress { ip: IpAddress::V4(LOCALHOST), port: address.port }
    } else {
        address
    }
}

/// The address of the rollup's RPC service.
pub fn rpc_url(address: &String) -> (url: String)
    ensures
        url@ == "http://"@ + address@,
{
    let mut url = "http://".to_owned();
    url.append(address.as_str());
    url
}

/// The address of the rollup's subscription service.
pub fn ws_url(address: &String) -> (url: String)
    ensures
        url@ == "ws://"@ + address@,
{
    let mut url = "ws://".to_owned();
    url.append(address.as_str());
    url
}

/// A packet that was received. `data` is `None` if it cannot be read.
#[derive(Debug, Clone, PartialEq, Eq)]
pub struct ReceivedPacket {
    pub discard: bool,
    pub data: Option<Vec<u8>>,
}

/// The message of a packet.
pub open spec fn message_of(packet: ReceivedPacket) -> Seq<u8> {
    match packet.data {
        Some(data) => data@,
        None => Seq::empty(),
    }
}

/// The messages of those of the first `n` packets that are not discarded.
pub open spec fn messages_of(packets: Seq<ReceivedPacket>, n: nat) -> Seq<Seq<u8>>
    decreases n,
{
    if n == 0 {
        Seq::empty()
    } else {
        let before = messages_of(packets, (n - 1) as nat);
        if packets[n - 1].discard {
            before
        } else {
            before.push(message_of(packets[n - 1]))
        }
    }
}

/// What the messages hold.
pub open spec fn message_bytes(messages: Seq<Vec<u8>>) -> Seq<Seq<u8>> {
    messages.map_values(|message: Vec<u8>| message@)
}

/// The messages of a batch of packets, those to be discarded left out.
pub fn wire_transactions(packets: &Vec<ReceivedPacket>) -> (messages: Vec<Vec<u8>>)
    ensures
        message_bytes(messages@) == messages_of(packets@, packets@.len()),
{
    let mut messages: Vec<Vec<u8>> = Vec::new();
    assert(message_bytes(messages@) =~= Seq::<Seq<u8>>::empty());
    let mut i: usize = 0;
    while i < packets.len()
        invariant
            i <= packets@.len(),
            message_bytes(messages@) == messages_of(packets@, i as nat),
        decreases packets@.len() - i,
    {
        if !packets[i].discard {
            let message: Vec<u8> = match &packets[i].data {
                Some(data) => copy_items(data),
                None => Vec::new(),
            };
            let ghost before = messages@;
            assert(message@ =~= message_of(packets@[i as int]));
            messages.push(message);
            assert(message_bytes(messages@) =~= message_bytes(before).push(message@));
        }
        i += 1;
    }
    messages
}

/// The packet is not to be discarded.
pub open spec fn is_kept() -> spec_fn(ReceivedPacket) -> bool {
    |packet: ReceivedPacket| !packet.discard
}

/// The packet's bytes, or none if it cannot be read.
pub open spec fn its_bytes() -> spec_fn(ReceivedPacket) -> Seq<u8> {
    |packet: ReceivedPacket|
        match packet.data {
            Some(data) => data@,
            None => Seq::empty(),
        }
}

proof fn lemma_messages(packets: Seq<ReceivedPacket>, n: nat)
    requires
        n <= packets.len(),
    ensures
        messages_of(packets, n) == packets.take(n as int).filter(is_kept()).map_values(
            its_bytes(),
        ),
    decreases n,
{
    reveal(Seq::filter);
    let taken = packets.take(n as int);
    if n > 0 {
        lemma_messages(packets, (n - 1) as nat);
        assert(taken.drop_last() =~= packets.take(n - 1));
        let before = taken.drop_last().filter(is_kept());
        let last = packets[n - 1];
        if !last.discard {
            assert(before.push(last).map_values(its_bytes()) =~= before.map_values(
                its_bytes(),
            ).push(its_bytes()(last)));
        }
        assert(messages_of(packets, n) =~= taken.filter(is_kept()).map_values(its_bytes()));
    } else {
        assert(taken.filter(is_kept()).map_values(its_bytes()) =~= Seq::empty());
    }
}

/// The messages of a batch are those of the packets that are not to be discarded, one for
/// each, in the order in which they were received.
pub proof fn every_kept_packet_is_a_message(packets: Seq<ReceivedPacket>)
    ensures
        messages_of(packets, packets.len()) == packets.filter(is_kept()).map_values(its_bytes()),
{
    lemma_messages(packets, packets.len());
    assert(packets.take(packets.len() as int) =~= packets);
}

} // verus!
