//! The decisions of the XDP packet program: which frames are memcached
//! requests, what a GET and a SET ask of the cache map, and the action the
//! kernel gets for each frame.
use vstd::prelude::*;
use crate::cache::{CacheKey, CacheValue, MAX_KEY_LEN, MAX_VALUE_SIZE};
use crate::packet::{
    be16, ip_checksum, ip_header_verifies, lemma_reply_checksum_is_request_checksum,
    lemma_reply_header_verifies, ptr_at, reply_frame,
    rewrite_headers, ETH_HDR_LEN, IPV4_HDR_LEN, UDP_HDR_LEN,
};
use crate::protocol::{
    MAGIC_REQUEST, OPCODE_GET, OPCODE_SET, REQUEST_HEADER_LEN, UDP_PREAMBLE_LEN,
};

verus! {

/// Action: hand the frame on to the kernel's network stack.
pub const XDP_PASS: u32 = 2;

/// Action: send the frame back out of the interface it came in on.
pub const XDP_TX: u32 = 3;

/// The memcached port used when the port configuration holds nothing.
pub const DEFAULT_MEMCACHED_PORT: u16 = 11211;

/// EtherType of IPv4, as it stands on the wire.
pub const ETHER_TYPE_IPV4: u16 = 0x0800;

/// IP protocol number of UDP.
pub const IPPROTO_UDP: u8 = 17;

/// What the cache map is asked to do for a frame.
#[derive(Clone, Copy, Debug)]
pub enum CacheOp {
    /// Nothing.
    NoOp,
    /// Look the key up.
    Lookup(CacheKey),
    /// Store the value under the key.
    Insert(CacheKey, CacheValue),
}

/// The outcome for one frame: the action for the kernel and the cache
/// operation to perform.
#[derive(Clone, Copy, Debug)]
pub struct Decision {
    pub action: u32,
    pub op: CacheOp,
}

/// The frame carries IPv4.
pub open spec fn is_ipv4(p: Seq<u8>) -> bool {
    be16(p, 12) == ETHER_TYPE_IPV4
}

/// Length in bytes of the IPv4 header, options included, from its IHL field.
pub open spec fn ipv4_header_len(p: Seq<u8>) -> int {
    (p[14] % 16) * 4
}

/// The IPv4 packet carries UDP.
pub open spec fn is_udp(p: Seq<u8>) -> bool {
    p[23] == IPPROTO_UDP
}

pub open spec fn transport_offset(p: Seq<u8>) -> int {
    ETH_HDR_LEN + ipv4_header_len(p)
}

pub open spec fn payload_offset(p: Seq<u8>) -> int {
    transport_offset(p) + UDP_HDR_LEN
}

/// Where the binary-protocol request header starts: after the UDP preamble.
pub open spec fn request_offset(p: Seq<u8>) -> int {
    payload_offset(p) + UDP_PREAMBLE_LEN
}

/// The UDP destination port.
pub open spec fn dst_port(p: Seq<u8>) -> int {
    be16(p, transport_offset(p) + 2)
}

/// The frame is too short for one of the headers the program reads before
/// it looks at the payload.
pub open spec fn frame_truncated(p: Seq<u8>) -> bool {
    ||| p.len() < ETH_HDR_LEN
    ||| is_ipv4(p) && p.len() < ETH_HDR_LEN + IPV4_HDR_LEN
    ||| is_ipv4(p) && is_udp(p) && p.len() < transport_offset(p) + UDP_HDR_LEN
}

/// The memcached port: the configured one, cut to 16 bits, or the default.
pub open spec fn spec_memcached_port(config_port: Option<u32>) -> u16 {
    match config_port {
        Some(port) => port as u16,
        None => DEFAULT_MEMCACHED_PORT,
    }
}

/// A well-formed binary-protocol request sent over UDP to the memcached port.
pub open spec fn is_memcached_request(p: Seq<u8>, port: u16) -> bool {
    &&& !frame_truncated(p)
    &&& is_ipv4(p)
    &&& is_udp(p)
    &&& dst_port(p) == port
    &&& p.len() - payload_offset(p) >= UDP_PREAMBLE_LEN + REQUEST_HEADER_LEN
    &&& p[request_offset(p)] == MAGIC_REQUEST
}

/// Where the key of a GET starts.
pub open spec fn get_key_offset(p: Seq<u8>) -> int {
    request_offset(p) + REQUEST_HEADER_LEN
}

/// Where the key of a SET starts.
pub open spec fn set_key_offset(p: Seq<u8>) -> int {
    request_offset(p) + 2 * REQUEST_HEADER_LEN
}

/// Where the value of a SET starts.
pub open spec fn set_value_offset(p: Seq<u8>) -> int {
    set_key_offset(p) + MAX_KEY_LEN
}

/// A GET request in a frame long enough for the headers its reply rewrites
/// (a UDP header after a 20-byte IPv4 header).
pub open spec fn is_get(p: Seq<u8>, port: u16) -> bool {
    &&& is_memcached_request(p, port)
    &&& p[request_offset(p) + 1] == OPCODE_GET
    &&& p.len() >= ETH_HDR_LEN + IPV4_HDR_LEN + UDP_HDR_LEN
}

/// The 64 bytes at `offset`: those the frame holds there, the rest zero.
pub open spec fn padded_block(p: Seq<u8>, offset: int) -> Seq<u8> {
    Seq::new(MAX_KEY_LEN as nat, |i: int| if offset + i < p.len() { p[offset + i] } else { 0u8 })
}

/// A SET whose key and value lie inside the frame with at least one byte to spare.
pub open spec fn is_set(p: Seq<u8>, port: u16) -> bool {
    &&& is_memcached_request(p, port)
    &&& p[request_offset(p) + 1] == OPCODE_SET
    &&& set_key_offset(p) + MAX_KEY_LEN < p.len()
    &&& set_value_offset(p) + MAX_VALUE_SIZE < p.len()
}

/// `d` passes the frame on and stores, under the key with bytes `key_bytes`
/// and length field zero, the value with bytes `value_bytes`, length field
/// the full value size, no flags and no time to live.
pub open spec fn is_insert_of(d: Decision, key_bytes: Seq<u8>, value_bytes: Seq<u8>) -> bool {
    &&& d.action == XDP_PASS
    &&& d.op matches CacheOp::Insert(key, value) && key.len == 0 && key.data@ == key_bytes
        && value.data@ == value_bytes && value.len == MAX_VALUE_SIZE && value.flags == 0
        && value.time_to_live == 0 && value.padding == 0
}

/// `d` sends the frame back and looks up the key with bytes `key_bytes` and
/// length field zero.
pub open spec fn is_lookup_of(d: Decision, key_bytes: Seq<u8>) -> bool {
    &&& d.action == XDP_TX
    &&& d.op matches CacheOp::Lookup(key) && key.len == 0 && key.data@ == key_bytes
}

/// The decision owed for a frame that is not truncated.
pub open spec fn is_decision_for(p: Seq<u8>, port: u16, d: Decision) -> bool {
    if is_get(p, port) {
        is_lookup_of(d, padded_block(p, get_key_offset(p)))
    } else if is_set(p, port) {
        is_insert_of(
            d,
            p.subrange(set_key_offset(p), set_key_offset(p) + MAX_KEY_LEN),
            p.subrange(set_value_offset(p), set_value_offset(p) + MAX_VALUE_SIZE),
        )
    } else {
        d.action == XDP_PASS && d.op is NoOp
    }
}

/// The frame after the program: a GET is rewritten into its reply, anything
/// else is left as it came.
pub open spec fn frame_after(p: Seq<u8>, port: u16) -> Seq<u8> {
    if is_get(p, port) {
        reply_frame(p)
    } else {
        p
    }
}

/// The memcached port, from what the port configuration holds.
pub fn memcached_port(config_port: Option<u32>) -> (port: u16)
    ensures
        port == spec_memcached_port(config_port),
        config_port matches Some(p) ==> port as int == p as int % 65536,
        config_port is None ==> port == 11211,
{
    match config_port {
        Some(port) => {
            assert((port as u16) as u32 == port % 65536) by (bit_vector);
            port as u16
        },
        None => DEFAULT_MEMCACHED_PORT,
    }
}

/// The 64 bytes of the frame at `offset`, zero past the end of the frame.
fn read_block(packet: &[u8], offset: usize) -> (block: [u8; MAX_KEY_LEN])
    ensures
        block@ == padded_block(packet@, offset as int),
        offset + MAX_KEY_LEN <= packet@.len() ==> block@ == packet@.subrange(
            offset as int,
            offset + MAX_KEY_LEN,
        ),
{
    let mut block = [0u8; MAX_KEY_LEN];
    let len = packet.len();
    let avail: usize = if offset >= len {
        0
    } else if len - offset < MAX_KEY_LEN {
        len - offset
    } else {
        MAX_KEY_LEN
    };
    let mut i: usize = 0;
    while i < avail
        invariant
            packet@.len() == len,
            avail <= MAX_KEY_LEN,
            avail == 0 || offset + avail <= len,
            offset + avail < len ==> avail == MAX_KEY_LEN,
            i <= avail,
            block@.len() == MAX_KEY_LEN,
            forall|j: int| 0 <= j < i ==> #[trigger] block@[j] == packet@[offset + j],
            forall|j: int| avail <= j < MAX_KEY_LEN ==> #[trigger] block@[j] == 0u8,
        decreases avail - i,
    {
        block[i] = packet[offset + i];
        i = i + 1;
    }
    assert(block@ =~= padded_block(packet@, offset as int));
    assert(offset + MAX_KEY_LEN <= packet@.len() ==> block@ =~= packet@.subrange(
        offset as int,
        offset + MAX_KEY_LEN,
    ));
    block
}

/// Answers a GET: reads the key that follows the request header, at most
/// 64 bytes of it, zero-filled to 64 where the frame ends sooner, asks for it
/// to be looked up and turns the frame into its reply. A frame too short for
/// the headers the reply rewrites passes untouched.
pub fn handle_get_command(packet: &mut [u8], request_offset: usize) -> (res: Result<
    Decision,
    (),
>)
    requires
        request_offset + REQUEST_HEADER_LEN <= usize::MAX,
    ensures
        old(packet)@.len() < 42 ==> {
            &&& res matches Ok(d) && d.action == XDP_PASS && d.op is NoOp
            &&& final(packet)@ == old(packet)@
        },
        42 <= old(packet)@.len() ==> (res matches Ok(d) && is_lookup_of(
            d,
            padded_block(old(packet)@, request_offset + REQUEST_HEADER_LEN),
        )),
        42 <= old(packet)@.len() ==> final(packet)@ == reply_frame(old(packet)@),
        42 <= old(packet)@.len() ==> (res matches Ok(d) && d.action == 3 && (d.op matches CacheOp::Lookup(k)
            && k.len == 0 && forall|i: int|
            0 <= i < 64 ==> k.data@[i] == if request_offset + 2 + i < old(packet)@.len() {
                old(packet)@[request_offset + 2 + i]
            } else {
                0u8
            })),
{
    if packet.len() < ETH_HDR_LEN + IPV4_HDR_LEN + UDP_HDR_LEN {
        return Ok(Decision { action: XDP_PASS, op: CacheOp::NoOp });
    }
    let key_offset = request_offset + REQUEST_HEADER_LEN;
    let mut key = CacheKey::default();
    key.data = read_block(packet, key_offset);
    match rewrite_headers(packet) {
        Ok(()) => Ok(Decision { action: XDP_TX, op: CacheOp::Lookup(key) }),
        Err(e) => Err(e),
    }
}

/// Answers a SET: reads the key two request-header lengths past
/// `request_offset` (not one, as a GET does) and the value right after the
/// key, and asks for the value to be stored under the key. The frame always passes untouched; one
/// that does not hold both with a byte to spare asks nothing of the cache.
pub fn handle_set_command(packet: &[u8], request_offset: usize) -> (d: Decision)
    requires
        request_offset + 2 * REQUEST_HEADER_LEN + MAX_KEY_LEN + MAX_VALUE_SIZE <= usize::MAX,
    ensures
        d.action == XDP_PASS,
        ({
            let key_off = request_offset + 2 * REQUEST_HEADER_LEN;
            let value_off = key_off + MAX_KEY_LEN;
            if key_off + MAX_KEY_LEN < packet@.len() && value_off + MAX_VALUE_SIZE
                < packet@.len() {
                is_insert_of(
                    d,
                    packet@.subrange(key_off, key_off + MAX_KEY_LEN),
                    packet@.subrange(value_off, value_off + MAX_VALUE_SIZE),
                )
            } else {
                d.op is NoOp
            }
        }),
        d.op matches CacheOp::Insert(k, v) ==> {
            &&& request_offset + 132 < packet@.len()
            &&& k.len == 0
            &&& forall|i: int| 0 <= i < 64 ==> k.data@[i] == packet@[request_offset + 4 + i]
            &&& v.len == 64 && v.flags == 0 && v.time_to_live == 0 && v.padding == 0
            &&& forall|i: int| 0 <= i < 64 ==> v.data@[i] == packet@[request_offset + 68 + i]
        },
        request_offset + 132 < packet@.len() ==> d.op is Insert,
{
    let key_offset = request_offset + REQUEST_HEADER_LEN;
    let key_length = MAX_KEY_LEN;
    let value_length = MAX_VALUE_SIZE;
    let key_offset = key_offset + REQUEST_HEADER_LEN;
    let value_offset = key_offset + key_length;
    let mut key = CacheKey::default();
    let mut value = CacheValue::default();
    if key_length == 0 || key_length > MAX_KEY_LEN || value_length > MAX_VALUE_SIZE {
        return Decision { action: XDP_PASS, op: CacheOp::NoOp };
    }
    let len = packet.len();
    if key_offset + key_length >= len {
        return Decision { action: XDP_PASS, op: CacheOp::NoOp };
    }
    key.data = read_block(packet, key_offset);
    if value_offset + value_length >= len {
        return Decision { action: XDP_PASS, op: CacheOp::NoOp };
    }
    value.data = read_block(packet, value_offset);
    value.len = value_length as u16;
    Decision { action: XDP_PASS, op: CacheOp::Insert(key, value) }
}

/// What the program decides for one frame, given what the port
/// configuration holds. A frame too short for a header it reads is an
/// error, and is left as it came; otherwise the decision is [`is_decision_for`] and the frame ends as
/// [`frame_after`] says.
pub fn try_minicache(packet: &mut [u8], config_port: Option<u32>) -> (res: Result<
    Decision,
    (),
>)
    ensures
        res is Err <==> frame_truncated(old(packet)@),
        res matches Ok(d) ==> is_decision_for(old(packet)@, spec_memcached_port(config_port), d),
        final(packet)@ == frame_after(old(packet)@, spec_memcached_port(config_port)),
{
    let len = packet.len();
    let eth = match ptr_at(len, 0, ETH_HDR_LEN) {
        Ok(o) => o,
        Err(e) => return Err(e),
    };
    if !(packet[eth + 12] == 0x08 && packet[eth + 13] == 0x00) {
        return Ok(Decision { action: XDP_PASS, op: CacheOp::NoOp });
    }
    let ip = match ptr_at(len, ETH_HDR_LEN, IPV4_HDR_LEN) {
        Ok(o) => o,
        Err(e) => return Err(e),
    };
    let vihl = packet[ip];
    let ipv4_header_len = ((vihl & 0x0f) << 2) as usize;
    assert(((vihl & 0x0f) << 2) as int == (vihl % 16) * 4 && ((vihl & 0x0f) << 2) <= 60)
        by (bit_vector);
    let transport_header_offset = ETH_HDR_LEN + ipv4_header_len;
    if packet[ip + 9] != IPPROTO_UDP {
        return Ok(Decision { action: XDP_PASS, op: CacheOp::NoOp });
    }
    let udp = match ptr_at(len, transport_header_offset, UDP_HDR_LEN) {
        Ok(o) => o,
        Err(e) => return Err(e),
    };
    let payload_offset = transport_header_offset + UDP_HDR_LEN;
    let dest_port = (packet[udp + 2] as u16) * 256 + packet[udp + 3] as u16;
    let port = memcached_port(config_port);
    if dest_port != port {
        return Ok(Decision { action: XDP_PASS, op: CacheOp::NoOp });
    }
    let payload_len = len - payload_offset;
    if payload_len < UDP_PREAMBLE_LEN + REQUEST_HEADER_LEN {
        return Ok(Decision { action: XDP_PASS, op: CacheOp::NoOp });
    }
    let _preamble = match ptr_at(len, payload_offset, UDP_PREAMBLE_LEN) {
        Ok(o) => o,
        Err(e) => return Err(e),
    };
    let request_offset = payload_offset + UDP_PREAMBLE_LEN;
    let req = match ptr_at(len, request_offset, REQUEST_HEADER_LEN) {
        Ok(o) => o,
        Err(e) => return Err(e),
    };
    if packet[req] != MAGIC_REQUEST {
        return Ok(Decision { action: XDP_PASS, op: CacheOp::NoOp });
    }
    let opcode = packet[req + 1];
    if opcode == OPCODE_GET {
        return handle_get_command(packet, request_offset);
    } else if opcode == OPCODE_SET {
        return Ok(handle_set_command(packet, request_offset));
    }
    Ok(Decision { action: XDP_PASS, op: CacheOp::NoOp })
}

/// The action and cache operation for one frame: [`try_minicache`], with
/// a truncated frame passed on untouched.
pub fn minicache(packet: &mut [u8], config_port: Option<u32>) -> (d: Decision)
    ensures
        d.action == XDP_PASS || d.action == XDP_TX,
        final(packet)@ == frame_after(old(packet)@, spec_memcached_port(config_port)),
        d.action == XDP_TX ==> final(packet)@ == reply_frame(old(packet)@),
        d.action == XDP_PASS ==> final(packet)@ == old(packet)@,
        frame_truncated(old(packet)@) ==> d.action == XDP_PASS && d.op is NoOp,
        !frame_truncated(old(packet)@) ==> is_decision_for(
            old(packet)@,
            spec_memcached_port(config_port),
            d,
        ),
{
    match try_minicache(packet, config_port) {
        Ok(d) => d,
        Err(_) => Decision { action: XDP_PASS, op: CacheOp::NoOp },
    }
}

/// A GET sent to the memcached port, in a frame whose IPv4 header has no
/// options, is answered with its own frame sent back, whatever the length of
/// its key: same length, MAC addresses, IPv4 addresses and UDP ports
/// exchanged, an IPv4 header that verifies, its checksum field holding the
/// checksum of the request's header, the UDP checksum cleared, and every
/// byte of the UDP payload as it came.
pub proof fn lemma_get_reply_echoes_request(p: Seq<u8>, config_port: Option<u32>)
    requires
        is_get(p, spec_memcached_port(config_port)),
        ipv4_header_len(p) == IPV4_HDR_LEN,
    ensures
        ({
            let r = frame_after(p, spec_memcached_port(config_port));
            &&& r.len() == p.len()
            &&& r.subrange(0, 6) == p.subrange(6, 12)
            &&& r.subrange(6, 12) == p.subrange(0, 6)
            &&& r.subrange(12, 24) == p.subrange(12, 24)
            &&& r.subrange(26, 30) == p.subrange(30, 34)
            &&& r.subrange(30, 34) == p.subrange(26, 30)
            &&& r.subrange(34, 36) == p.subrange(36, 38)
            &&& r.subrange(36, 38) == p.subrange(34, 36)
            &&& r.subrange(38, 40) == p.subrange(38, 40)
            &&& be16(r, 24) == ip_checksum(p, 14)
            &&& ip_header_verifies(r, 14)
            &&& r[40] == 0 && r[41] == 0
            &&& r.subrange(payload_offset(p), p.len() as int) == p.subrange(
                payload_offset(p),
                p.len() as int,
            )
        }),
{
    let r = reply_frame(p);
    lemma_reply_checksum_is_request_checksum(p);
    lemma_reply_header_verifies(p);
    assert(r.subrange(0, 6) =~= p.subrange(6, 12));
    assert(r.subrange(6, 12) =~= p.subrange(0, 6));
    assert(r.subrange(12, 24) =~= p.subrange(12, 24));
    assert(r.subrange(26, 30) =~= p.subrange(30, 34));
    assert(r.subrange(30, 34) =~= p.subrange(26, 30));
    assert(r.subrange(34, 36) =~= p.subrange(36, 38));
    assert(r.subrange(36, 38) =~= p.subrange(34, 36));
    assert(r.subrange(38, 40) =~= p.subrange(38, 40));
    assert(r.subrange(payload_offset(p), p.len() as int) =~= p.subrange(
        payload_offset(p),
        p.len() as int,
    ));
}

/// What the packet program does once it has panicked.
#[derive(Clone, Copy, Debug, PartialEq, Eq, Structural)]
pub enum PanicAction {
    /// Produce no action for the packet and spin where it stands.
    SpinForever,
}

/// The packet program's panic handler: whatever went wrong, it never returns
/// an action and spins forever. The spinning is left to the caller.
pub fn panic() -> (action: PanicAction)
    ensures
        action == PanicAction::SpinForever,
{
    PanicAction::SpinForever
}

/// The configured port is the low 16 bits of what the configuration holds;
/// with nothing configured it is 11211.
pub proof fn lemma_memcached_port(p: u32)
    ensures
        spec_memcached_port(Some(p)) as int == p as int % 65536,
        spec_memcached_port(None) == 11211,
{
    assert((p as u16) as u32 == p % 65536) by (bit_vector);
}

/// A lookup decision sends the frame back and looks up exactly the given
/// 64 bytes, length field zero.
pub proof fn lemma_lookup_decision(d: Decision, key_bytes: Seq<u8>)
    requires
        is_lookup_of(d, key_bytes),
    ensures
        d.action == 3,
        d.op matches CacheOp::Lookup(k) && k.len == 0 && k.data@ == key_bytes,
{
}

/// An insert decision passes the frame on and stores exactly the given 64
/// value bytes under exactly the given 64 key bytes.
pub proof fn lemma_insert_decision(d: Decision, key_bytes: Seq<u8>, value_bytes: Seq<u8>)
    requires
        is_insert_of(d, key_bytes, value_bytes),
    ensures
        d.action == 2,
        d.op matches CacheOp::Insert(k, v) && k.len == 0 && k.data@ == key_bytes && v.data@
            == value_bytes && v.len == 64 && v.flags == 0 && v.time_to_live == 0 && v.padding
            == 0,
{
}

/// A frame with a plain 20-byte IPv4 header (the other IPv4 fields, flags
/// and fragment offset among them, whatever they hold) carrying UDP to the
/// memcached port, whose request after the 8-byte preamble is a GET, is
/// answered: the decision owed is to send it back, as its reply, looking up
/// the 64 bytes after the 2-byte request header, zero past the frame's end.
pub proof fn lemma_get_frame_is_answered(p: Seq<u8>, port: u16, d: Decision)
    requires
        p.len() >= 52,
        p[12] == 0x08 && p[13] == 0x00,
        p[14] % 16 == 5,
        p[23] == 17,
        p[36] as int * 256 + p[37] as int == port as int,
        p[50] == 0x80 && p[51] == 0x00,
    ensures
        is_get(p, port),
        !frame_truncated(p),
        frame_after(p, port) == reply_frame(p),
        is_decision_for(p, port, d) <==> (d.action == 3 && (d.op matches CacheOp::Lookup(k)
            && k.len == 0 && forall|i: int|
            0 <= i < 64 ==> k.data@[i] == if 52 + i < p.len() {
                p[52 + i]
            } else {
                0u8
            })),
{
    if is_decision_for(p, port, d) {
        let kb = padded_block(p, 52);
        lemma_lookup_decision(d, kb);
    }
    if d.action == 3 && (d.op matches CacheOp::Lookup(k) && k.len == 0 && forall|i: int|
        0 <= i < 64 ==> k.data@[i] == if 52 + i < p.len() {
            p[52 + i]
        } else {
            0u8
        }) {
        if let CacheOp::Lookup(k) = d.op {
            assert(k.data@ =~= padded_block(p, 52));
        }
    }
}

/// The same frame carrying a SET, long enough for the 64-byte key four bytes
/// after the request and the 64-byte value right after it with a byte to
/// spare, is passed on and its value stored under its key.
pub proof fn lemma_set_frame_is_stored(p: Seq<u8>, port: u16, d: Decision)
    requires
        p.len() > 182,
        p[12] == 0x08 && p[13] == 0x00,
        p[14] % 16 == 5,
        p[23] == 17,
        p[36] as int * 256 + p[37] as int == port as int,
        p[50] == 0x80 && p[51] == 0x01,
    ensures
        !frame_truncated(p),
        frame_after(p, port) == p,
        is_decision_for(p, port, d) <==> (d.action == 2 && (d.op matches CacheOp::Insert(k, v)
            && k.len == 0 && v.len == 64 && v.flags == 0 && v.time_to_live == 0 && v.padding
            == 0 && (forall|i: int| 0 <= i < 64 ==> k.data@[i] == p[54 + i]) && (forall|i: int|
            0 <= i < 64 ==> v.data@[i] == p[118 + i]))),
{
    if let CacheOp::Insert(k, v) = d.op {
        if (forall|i: int| 0 <= i < 64 ==> k.data@[i] == p[54 + i]) {
            assert(k.data@ =~= p.subrange(54, 118));
        }
        if (forall|i: int| 0 <= i < 64 ==> v.data@[i] == p[118 + i]) {
            assert(v.data@ =~= p.subrange(118, 182));
        }
    }
}

/// Such a frame whose request does not start with the request magic is
/// passed on untouched, with nothing asked of the cache.
pub proof fn lemma_bad_magic_passes(p: Seq<u8>, port: u16, d: Decision)
    requires
        p.len() >= 52,
        p[12] == 0x08 && p[13] == 0x00,
        p[14] % 16 == 5,
        p[23] == 17,
        p[50] != 0x80,
    ensures
        frame_after(p, port) == p,
        is_decision_for(p, port, d) <==> (d.action == 2 && d.op is NoOp),
{
}

} // verus!
