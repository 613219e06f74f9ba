use vstd::prelude::*;

verus! {

/// The frame header that memcached puts in front of every UDP datagram.
#[derive(Clone, Copy, Debug, Default)]
pub struct UdpPreamble {
    pub request_id: u16,
    pub sequence_number: u16,
    pub total_datagrams: u16,
    pub reserved: u16,
}

/// Length in bytes of a [`UdpPreamble`] on the wire.
pub const UDP_PREAMBLE_LEN: usize = 8;

pub const MAGIC_REQUEST: u8 = 0x80;

pub const MAGIC_RESPONSE: u8 = 0x81;

pub const OPCODE_GET: u8 = 0x00;

pub const OPCODE_SET: u8 = 0x01;

pub const STATUS_SUCCESS: u16 = 0x0000;

pub const STATUS_KEY_NOT_EXISTS: u16 = 0x0001;

pub const DATATYPE_RAW_BYTES: u8 = 0x00;

/// Length in bytes of a [`RequestHeader`] on the wire.
pub const REQUEST_HEADER_LEN: usize = 2;

/// The leading bytes of a binary-protocol request.
#[derive(Clone, Copy, Debug, Default)]
pub struct RequestHeader {
    pub magic: u8,
    pub opcode: u8,
}

/// Length in bytes of a [`ResponseHeader`] on the wire.
pub const RESPONSE_HEADER_LEN: usize = 4;

/// The leading bytes of a binary-protocol response.
#[derive(Clone, Copy, Debug, Default)]
pub struct ResponseHeader {
    pub magic: u8,
    pub opcode: u8,
    /// Network byte order.
    pub status: u16,
}

} // verus!
