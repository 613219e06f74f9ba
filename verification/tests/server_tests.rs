use minicache::protocol::{REQUEST_HEADER_LEN, UDP_PREAMBLE_LEN};
use minicache::server::{parse_request, Opt};

#[test]
fn request_fields_are_read() {
    let data = [0x01, 0x00, 0x02, 0x00, 0x03, 0x00, 0x04, 0x01, 0x80, 0x01, 0xff];
    let (preamble, header) = parse_request(&data).unwrap();
    assert_eq!(preamble.request_id, 1);
    assert_eq!(preamble.sequence_number, 2);
    assert_eq!(preamble.total_datagrams, 3);
    assert_eq!(preamble.reserved, 0x0104);
    assert_eq!(header.magic, 0x80);
    assert_eq!(header.opcode, 0x01);
}

#[test]
fn too_small_datagram_is_refused() {
    assert!(parse_request(&[0u8; 9]).is_none());
    assert!(parse_request(&[]).is_none());
    assert!(parse_request(&[0u8; UDP_PREAMBLE_LEN + REQUEST_HEADER_LEN]).is_some());
}

#[test]
fn options_hold_interface_and_port() {
    let opt = Opt { iface: "lo".to_string(), port: 11211 };
    assert_eq!(opt.iface, "lo");
    assert_eq!(opt.port, 11211);
}
