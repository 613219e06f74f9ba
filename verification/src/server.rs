//! The user-space side: its options and its reading of the datagrams that
//! reach the UDP listener.
use vstd::prelude::*;
use crate::packet::le16;
use crate::protocol::{RequestHeader, UdpPreamble, REQUEST_HEADER_LEN, UDP_PREAMBLE_LEN};

verus! {

/// Options of the server: the interface the packet program is attached to
/// and the memcached UDP port.
#[derive(Debug)]
pub struct Opt {
    pub iface: String,
    pub port: u32,
}

/// Size of the buffer a datagram is received into.
pub const BUFFER_SIZE: usize = 1024;

/// Reads the UDP preamble and the request header at the front of a datagram,
/// their fields in little-endian order, the order of the hosts the server
/// runs on. A datagram shorter than both together gives `None`.
pub fn parse_request(data: &[u8]) -> (res: Option<(UdpPreamble, RequestHeader)>)
    ensures
        res is Some <==> data@.len() >= UDP_PREAMBLE_LEN + REQUEST_HEADER_LEN,
        res matches Some((preamble, header)) ==> {
            &&& preamble.request_id == le16(data@, 0)
            &&& preamble.sequence_number == le16(data@, 2)
            &&& preamble.total_datagrams == le16(data@, 4)
            &&& preamble.reserved == le16(data@, 6)
            &&& header.magic == data@[8]
            &&& header.opcode == data@[9]
        },
        res matches Some((preamble, header)) ==> {
            &&& preamble.request_id as int == data@[0] as int + 256 * data@[1] as int
            &&& preamble.sequence_number as int == data@[2] as int + 256 * data@[3] as int
            &&& preamble.total_datagrams as int == data@[4] as int + 256 * data@[5] as int
            &&& preamble.reserved as int == data@[6] as int + 256 * data@[7] as int
        },
{
    if data.len() < UDP_PREAMBLE_LEN + REQUEST_HEADER_LEN {
        return None;
    }
    let preamble = UdpPreamble {
        request_id: data[0] as u16 + (data[1] as u16) * 256,
        sequence_number: data[2] as u16 + (data[3] as u16) * 256,
        total_datagrams: data[4] as u16 + (data[5] as u16) * 256,
        reserved: data[6] as u16 + (data[7] as u16) * 256,
    };
    let header = RequestHeader {
        magic: data[UDP_PREAMBLE_LEN],
        opcode: data[UDP_PREAMBLE_LEN + 1],
    };
    Some((preamble, header))
}

} // verus!
