use minicache::cache::{CacheKey, CacheValue, MAX_KEY_LEN, MAX_VALUE_SIZE};
use minicache::xdp::{
    memcached_port, minicache, try_minicache, CacheOp, PanicAction, XDP_PASS, XDP_TX,
};

/// A frame to 127.0.0.2 port `port`, carrying `payload` after the UDP header.
fn frame(port: u16, payload: &[u8]) -> Vec<u8> {
    let mut f = vec![
        0x02, 0, 0, 0, 0, 0x01, 0x02, 0, 0, 0, 0, 0x02, 0x08, 0x00, // Ethernet
        0x45, 0x00, 0x00, 0x00, 0x00, 0x01, 0x40, 0x00, 0x40, 0x11, 0x00, 0x00, 0x7f, 0x00,
        0x00, 0x01, 0x7f, 0x00, 0x00, 0x02, // IPv4
        0x9c, 0x40, (port >> 8) as u8, port as u8, 0x00, 0x00, 0x00, 0x00, // UDP
    ];
    f.extend_from_slice(payload);
    f
}

fn preamble() -> Vec<u8> {
    vec![0x00, 0x01, 0x00, 0x00, 0x00, 0x01, 0x00, 0x00]
}

fn block(first: &[u8]) -> [u8; 64] {
    let mut b = [0u8; 64];
    b[..first.len()].copy_from_slice(first);
    b
}

fn get_payload() -> Vec<u8> {
    let mut p = preamble();
    p.push(0x80);
    p.push(0x00);
    p.extend_from_slice(&block(b"foo"));
    p
}

fn set_payload() -> Vec<u8> {
    let mut p = preamble();
    p.push(0x80);
    p.push(0x01);
    p.extend_from_slice(&[0, 0]);
    p.extend_from_slice(&block(b"foo"));
    p.extend_from_slice(&block(b"bar"));
    p.push(0);
    p
}

#[test]
fn get_is_sent_back_with_swapped_addresses() {
    let mut f = frame(11211, &get_payload());
    let orig = f.clone();
    let d = minicache(&mut f, None);
    assert_eq!(d.action, XDP_TX);
    match d.op {
        CacheOp::Lookup(key) => {
            assert_eq!(key.data, block(b"foo"));
            assert_eq!(key.len, 0);
        }
        _ => panic!("a GET looks its key up"),
    }
    assert_eq!(f.len(), orig.len());
    assert_eq!(&f[0..6], &orig[6..12]);
    assert_eq!(&f[6..12], &orig[0..6]);
    assert_eq!(&f[26..30], &orig[30..34]);
    assert_eq!(&f[30..34], &orig[26..30]);
    assert_eq!(&f[34..36], &orig[36..38]);
    assert_eq!(&f[36..38], &orig[34..36]);
    assert_eq!(&f[42..], &orig[42..]);
}

#[test]
fn get_with_short_key_is_zero_filled() {
    let mut payload = preamble();
    payload.extend_from_slice(&[0x80, 0x00]);
    payload.extend_from_slice(b"foo");
    let mut f = frame(11211, &payload);
    let orig = f.clone();
    let d = minicache(&mut f, None);
    assert_eq!(d.action, XDP_TX);
    assert!(matches!(d.op, CacheOp::Lookup(k) if k.data == block(b"foo") && k.len == 0));
    assert_eq!(&f[42..], &orig[42..]);
}

#[test]
fn get_with_a_binary_header_is_echoed() {
    // An 8-byte preamble, a standard 24-byte binary header, then the key "foo".
    let mut payload = preamble();
    payload.extend_from_slice(&[0x80, 0x00, 0x00, 0x03, 0, 0, 0, 0, 0, 0, 0, 3]);
    payload.extend_from_slice(&[0; 12]);
    payload.extend_from_slice(b"foo");
    assert_eq!(payload.len(), 35);
    let mut f = frame(18112, &payload);
    assert_eq!(f.len(), 77);
    let orig = f.clone();
    let d = minicache(&mut f, Some(18112));
    assert_eq!(d.action, XDP_TX);
    assert!(matches!(d.op, CacheOp::Lookup(k) if k.data == block(&payload[10..])));
    assert_eq!(&f[42..], &payload[..]);
    assert_eq!(&f[0..6], &orig[6..12]);
    assert_eq!(&f[6..12], &orig[0..6]);
    assert_eq!(&f[26..30], &orig[30..34]);
    assert_eq!(&f[30..34], &orig[26..30]);
    assert_eq!(&f[34..36], &orig[36..38]);
    assert_eq!(&f[36..38], &orig[34..36]);
}

#[test]
fn get_in_a_frame_too_short_for_the_reply_passes_untouched() {
    // IHL 0: the UDP header overlaps the IPv4 header and the request sits
    // at byte 30, leaving no room for the UDP header the reply rewrites.
    let mut f = vec![0u8; 36];
    f[0..6].copy_from_slice(&[2, 0, 0, 0, 0, 1]);
    f[6..12].copy_from_slice(&[2, 0, 0, 0, 0, 2]);
    f[12] = 0x08;
    f[14] = 0x40;
    f[16] = 0x2b;
    f[17] = 0xcb;
    f[23] = 17;
    f[30] = 0x80;
    f[31] = 0x00;
    let orig = f.clone();
    let d = try_minicache(&mut f, None).unwrap();
    assert_eq!(d.action, XDP_PASS);
    assert!(matches!(d.op, CacheOp::NoOp));
    assert_eq!(f, orig);
    let d = minicache(&mut f, None);
    assert_eq!(d.action, XDP_PASS);
    assert_eq!(f, orig);
}

#[test]
fn set_asks_for_insert_and_passes() {
    let mut f = frame(11211, &set_payload());
    let orig = f.clone();
    let d = minicache(&mut f, None);
    assert_eq!(d.action, XDP_PASS);
    match d.op {
        CacheOp::Insert(key, value) => {
            assert_eq!(key.data, block(b"foo"));
            assert_eq!(key.len, 0);
            assert_eq!(value.data, block(b"bar"));
            assert_eq!(value.len as usize, MAX_VALUE_SIZE);
            assert_eq!(value.flags, 0);
            assert_eq!(value.time_to_live, 0);
        }
        _ => panic!("a SET stores its value"),
    }
    assert_eq!(f, orig);
}

#[test]
fn set_needs_a_byte_past_the_value() {
    let mut payload = set_payload();
    payload.pop();
    let mut f = frame(11211, &payload);
    let d = minicache(&mut f, None);
    assert_eq!(d.action, XDP_PASS);
    assert!(matches!(d.op, CacheOp::NoOp));
}

#[test]
fn other_port_passes() {
    let mut f = frame(11212, &get_payload());
    let orig = f.clone();
    let d = minicache(&mut f, None);
    assert_eq!(d.action, XDP_PASS);
    assert!(matches!(d.op, CacheOp::NoOp));
    assert_eq!(f, orig);
}

#[test]
fn configured_port_is_used() {
    let mut f = frame(18112, &get_payload());
    assert_eq!(minicache(&mut f, Some(18112)).action, XDP_TX);
    let mut f = frame(11211, &get_payload());
    assert_eq!(minicache(&mut f, Some(18112)).action, XDP_PASS);
}

#[test]
fn configured_port_is_cut_to_16_bits() {
    assert_eq!(memcached_port(Some(0x1_2bcb)), 11211);
    assert_eq!(memcached_port(Some(80)), 80);
    assert_eq!(memcached_port(None), 11211);
}

#[test]
fn non_ipv4_passes() {
    let mut f = frame(11211, &get_payload());
    f[12] = 0x86;
    f[13] = 0xdd;
    let orig = f.clone();
    assert_eq!(minicache(&mut f, None).action, XDP_PASS);
    assert_eq!(f, orig);
}

#[test]
fn non_udp_passes() {
    let mut f = frame(11211, &get_payload());
    f[23] = 6;
    assert_eq!(minicache(&mut f, None).action, XDP_PASS);
}

#[test]
fn bad_magic_passes() {
    let mut payload = get_payload();
    payload[8] = 0x81;
    let mut f = frame(11211, &payload);
    assert_eq!(minicache(&mut f, None).action, XDP_PASS);
}

#[test]
fn unknown_opcode_passes() {
    let mut payload = get_payload();
    payload[9] = 0x04;
    let mut f = frame(11211, &payload);
    assert!(matches!(minicache(&mut f, None).op, CacheOp::NoOp));
}

#[test]
fn short_payload_passes() {
    let mut f = frame(11211, &[0x00, 0x01, 0, 0, 0, 1, 0, 0, 0x80]);
    assert_eq!(try_minicache(&mut f, None).unwrap().action, XDP_PASS);
}

#[test]
fn truncated_frames_are_errors_and_pass() {
    let mut eth = vec![0u8; 13];
    assert!(try_minicache(&mut eth, None).is_err());
    assert_eq!(minicache(&mut eth, None).action, XDP_PASS);
    let mut ip = frame(11211, &[]);
    ip.truncate(30);
    assert!(try_minicache(&mut ip, None).is_err());
    let mut udp = frame(11211, &[]);
    udp.truncate(40);
    assert!(try_minicache(&mut udp, None).is_err());
    let mut not_ip = vec![0u8; 20];
    assert!(try_minicache(&mut not_ip, None).is_ok());
}

#[test]
fn ip_options_move_the_udp_header() {
    // IHL 6: four bytes of options before the UDP header.
    let mut f = frame(11211, &get_payload());
    f[14] = 0x46;
    for _ in 0..4 {
        f.insert(34, 0);
    }
    let d = minicache(&mut f, None);
    assert_eq!(d.action, XDP_TX);
}

#[test]
fn panic_spins() {
    assert_eq!(minicache::xdp::panic(), PanicAction::SpinForever);
}

#[test]
fn defaults_are_zero() {
    let k = CacheKey::default();
    assert_eq!(k.data, [0u8; MAX_KEY_LEN]);
    assert_eq!(k.len, 0);
    let v = CacheValue::default();
    assert_eq!(v.data, [0u8; MAX_VALUE_SIZE]);
    assert_eq!((v.flags, v.time_to_live, v.len, v.padding), (0, 0, 0, 0));
}

#[test]
fn handle_get_reads_key_after_request_header() {
    let mut f = frame(11211, &get_payload());
    let d = minicache::xdp::handle_get_command(&mut f, 50).unwrap();
    assert_eq!(d.action, XDP_TX);
    assert!(matches!(d.op, CacheOp::Lookup(k) if k.data == block(b"foo")));
    let mut zeros = vec![0u8; 60];
    let d = minicache::xdp::handle_get_command(&mut zeros, 50).unwrap();
    assert_eq!(d.action, XDP_TX);
    assert!(matches!(d.op, CacheOp::Lookup(k) if k.data == [0u8; 64]));
    let mut short = vec![1u8; 41];
    let d = minicache::xdp::handle_get_command(&mut short, 0).unwrap();
    assert_eq!(d.action, XDP_PASS);
    assert!(matches!(d.op, CacheOp::NoOp));
    assert_eq!(short, vec![1u8; 41]);
}

#[test]
fn handle_set_skips_two_header_lengths() {
    let f = frame(11211, &set_payload());
    let d = minicache::xdp::handle_set_command(&f, 50);
    assert!(matches!(d.op, CacheOp::Insert(k, v) if k.data == block(b"foo") && v.data == block(b"bar")));
    let d = minicache::xdp::handle_set_command(&f, 60);
    assert_eq!(d.action, XDP_PASS);
    assert!(matches!(d.op, CacheOp::NoOp));
}
