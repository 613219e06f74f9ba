use minicache::packet::{compute_ip_checksum, ptr_at, rewrite_headers, swap_nonoverlapping};

fn sample_frame() -> Vec<u8> {
    let mut f = vec![
        0x02, 0, 0, 0, 0, 0x01, // destination MAC
        0x02, 0, 0, 0, 0, 0x02, // source MAC
        0x08, 0x00, // IPv4
        0x45, 0x00, 0x00, 0x6a, 0x00, 0x01, 0x40, 0x00, 0x40, 0x11, 0xaa, 0xbb, // IPv4 header
        0x7f, 0x00, 0x00, 0x01, // source address
        0x7f, 0x00, 0x00, 0x02, // destination address
        0x9c, 0x40, 0x2b, 0xcb, 0x00, 0x56, 0x12, 0x34, // UDP header
    ];
    for i in 0..78u8 {
        f.push(i);
    }
    f
}

#[test]
fn ptr_at_accepts_headers_that_fit() {
    assert_eq!(ptr_at(42, 34, 8), Ok(34));
    assert_eq!(ptr_at(42, 0, 42), Ok(0));
    assert_eq!(ptr_at(0, 0, 0), Ok(0));
}

#[test]
fn ptr_at_refuses_headers_that_overrun() {
    assert_eq!(ptr_at(41, 34, 8), Err(()));
    assert_eq!(ptr_at(10, 11, 0), Err(()));
    assert_eq!(ptr_at(usize::MAX, usize::MAX, 1), Err(()));
}

#[test]
fn swap_exchanges_ranges() {
    let mut v = vec![1u8, 2, 3, 4, 5, 6, 7];
    swap_nonoverlapping(&mut v, 0, 4, 2);
    assert_eq!(v, vec![5, 6, 3, 4, 1, 2, 7]);
}

#[test]
fn checksum_exact_value() {
    let mut f = sample_frame();
    let c = compute_ip_checksum(&mut f, 14);
    assert_eq!(c, 0x3c7f);
    assert_eq!(f[24], 0);
    assert_eq!(f[25], 0);
}

fn verifies(h: &[u8]) -> bool {
    let mut s: u32 = 0;
    for i in 0..10 {
        s += (h[2 * i] as u32) << 8 | h[2 * i + 1] as u32;
    }
    while s > 0xffff {
        s = (s & 0xffff) + (s >> 16);
    }
    s == 0xffff
}

#[test]
fn checksum_carries_are_folded_until_they_fit() {
    let mut h = vec![0xff, 0xff, 0xff, 0xff, 0x01, 0x00, 0, 0, 0, 0, 0, 0, 0, 0, 0, 0, 0, 0, 0, 0];
    let c = compute_ip_checksum(&mut h, 0);
    assert_eq!(c, 0xfeff);
    h[10] = (c >> 8) as u8;
    h[11] = c as u8;
    assert!(verifies(&h));
}

#[test]
fn reply_header_verifies() {
    let mut f = sample_frame();
    rewrite_headers(&mut f).unwrap();
    assert!(verifies(&f[14..34]));
}

#[test]
fn checksum_is_the_standard_value() {
    let mut h = vec![
        0x45, 0x00, 0x00, 0x73, 0x00, 0x00, 0x40, 0x00, 0x40, 0x11, 0xb8, 0x61, 0xc0, 0xa8,
        0x00, 0x01, 0xc0, 0xa8, 0x00, 0xc7,
    ];
    assert_eq!(compute_ip_checksum(&mut h, 0), 0xb861);
}

#[test]
fn rewrite_swaps_addresses_and_ports() {
    let mut f = sample_frame();
    let orig = f.clone();
    assert_eq!(rewrite_headers(&mut f), Ok(()));
    assert_eq!(&f[0..6], &orig[6..12]);
    assert_eq!(&f[6..12], &orig[0..6]);
    assert_eq!(&f[26..30], &orig[30..34]);
    assert_eq!(&f[30..34], &orig[26..30]);
    assert_eq!(&f[34..36], &orig[36..38]);
    assert_eq!(&f[36..38], &orig[34..36]);
    assert_eq!(&f[24..26], &[0x3c, 0x7f]);
    assert_eq!(&f[40..42], &[0, 0]);
    assert_eq!(&f[42..], &orig[42..]);
    assert_eq!(&f[12..24], &orig[12..24]);
}

#[test]
fn rewrite_twice_restores_the_request_but_checksums() {
    let mut f = sample_frame();
    let orig = f.clone();
    rewrite_headers(&mut f).unwrap();
    let once = f.clone();
    rewrite_headers(&mut f).unwrap();
    let mut expected = orig.clone();
    expected[24] = once[24];
    expected[25] = once[25];
    expected[40] = 0;
    expected[41] = 0;
    assert_eq!(f, expected);
}

#[test]
fn rewrite_of_short_frame_leaves_it() {
    let mut f = sample_frame();
    f.truncate(33);
    let orig = f.clone();
    assert_eq!(rewrite_headers(&mut f), Err(()));
    assert_eq!(f, orig);
}

#[test]
fn rewrite_without_room_for_udp_header_keeps_ip_changes() {
    let mut f = sample_frame();
    f.truncate(40);
    let orig = f.clone();
    assert_eq!(rewrite_headers(&mut f), Err(()));
    assert_eq!(&f[0..6], &orig[6..12]);
    assert_eq!(&f[26..30], &orig[30..34]);
    assert_eq!(&f[24..26], &[0x3c, 0x7f]);
    assert_eq!(&f[34..40], &orig[34..40]);
}
