//! Byte-level view of the Ethernet, IPv4 and UDP headers of a frame, and the
//! rewrite that turns a request frame into its reply.
use vstd::prelude::*;

verus! {

/// Length of an Ethernet header.
pub const ETH_HDR_LEN: usize = 14;

/// Length of an IPv4 header without options.
pub const IPV4_HDR_LEN: usize = 20;

/// Length of a UDP header.
pub const UDP_HDR_LEN: usize = 8;

/// Where the IPv4 header checksum sits inside the IPv4 header.
pub const IPV4_CHECK_OFFSET: usize = 10;

/// Number of 16-bit words in an IPv4 header without options.
pub const IPV4_HDR_WORDS: usize = 10;

/// The 16-bit word at `i` read in big-endian (network) order.
pub open spec fn be16(p: Seq<u8>, i: int) -> int {
    p[i] as int * 256 + p[i + 1] as int
}

/// The 16-bit word at `i` read in little-endian order, the order of the
/// machines that run the packet program.
pub open spec fn le16(p: Seq<u8>, i: int) -> int {
    p[i] as int + p[i + 1] as int * 256
}

/// `p` with the `n` bytes at `a` and the `n` bytes at `b` exchanged.
pub open spec fn swap_ranges(p: Seq<u8>, a: int, b: int, n: int) -> Seq<u8> {
    Seq::new(
        p.len(),
        |i: int|
            if a <= i < a + n {
                p[i - a + b]
            } else if b <= i < b + n {
                p[i - b + a]
            } else {
                p[i]
            },
    )
}

/// `p` with the two checksum bytes of the IPv4 header at `ip` set to zero.
pub open spec fn clear_ip_check(p: Seq<u8>, ip: int) -> Seq<u8> {
    p.update(ip + 10, 0u8).update(ip + 11, 0u8)
}

/// Sum of the first `n` big-endian 16-bit words of the header at `ip`.
pub open spec fn header_words_sum(p: Seq<u8>, ip: int, n: nat) -> int
    decreases n,
{
    if n == 0 {
        0
    } else {
        header_words_sum(p, ip, (n - 1) as nat) + be16(p, ip + 2 * (n - 1))
    }
}

/// `s` with its carries folded into the low 16 bits until it fits there:
/// the ones' complement sum of 16-bit words whose plain sum is `s`.
pub open spec fn fold_carries(s: nat) -> nat
    decreases s,
{
    if s <= 0xffff {
        s
    } else {
        proof {
            assert(s % 0x10000 + s / 0x10000 < s) by (nonlinear_arith)
                requires
                    s > 0xffff,
            ;
        }
        fold_carries((s % 0x10000 + s / 0x10000) as nat)
    }
}

/// The IPv4 header checksum (RFC 791) of the 20-byte header at `ip`: the
/// ones' complement of the ones' complement sum of its ten big-endian
/// 16-bit words, taken with the checksum field cleared.
pub open spec fn ip_checksum(p: Seq<u8>, ip: int) -> u16 {
    (0xffff - fold_carries(
        header_words_sum(clear_ip_check(p, ip), ip, IPV4_HDR_WORDS as nat) as nat,
    )) as u16
}

/// The 20-byte IPv4 header at `ip` verifies: the ones' complement sum of its
/// ten big-endian 16-bit words, checksum field included, is all ones.
pub open spec fn ip_header_verifies(p: Seq<u8>, ip: int) -> bool {
    fold_carries(header_words_sum(p, ip, IPV4_HDR_WORDS as nat) as nat) == 0xffff
}

/// The header rewrite up to the IPv4 header: checksum field cleared,
/// MAC addresses exchanged, IPv4 addresses exchanged, [`ip_checksum`]
/// recomputed and stored most significant byte first, as the words it sums
/// are read.
pub open spec fn reply_ip_part(p: Seq<u8>) -> Seq<u8> {
    let cleared = clear_ip_check(p, 14);
    let macs = swap_ranges(cleared, 0, 6, 6);
    let addrs = swap_ranges(macs, 26, 30, 4);
    let check = ip_checksum(addrs, 14);
    addrs.update(24, (check >> 8) as u8).update(25, (check & 0xff) as u8)
}

/// The full header rewrite: [`reply_ip_part`], then the UDP ports of the
/// header that follows a 20-byte IPv4 header exchanged and its checksum
/// cleared.
pub open spec fn reply_frame(p: Seq<u8>) -> Seq<u8> {
    let ip_part = reply_ip_part(p);
    swap_ranges(ip_part, 34, 36, 2).update(40, 0u8).update(41, 0u8)
}

/// Bounds check of a header of `len` bytes at `offset` in a frame of
/// `packet_len` bytes: the offset back when the header fits, else an error.
pub fn ptr_at(packet_len: usize, offset: usize, len: usize) -> (res: Result<usize, ()>)
    ensures
        res is Ok <==> offset + len <= packet_len,
        res matches Ok(o) ==> o == offset,
{
    if offset > packet_len || len > packet_len - offset {
        return Err(());
    }
    Ok(offset)
}

/// Exchanges the `n` bytes at `a` with the `n` bytes at `b`.
pub fn swap_nonoverlapping(packet: &mut [u8], a: usize, b: usize, n: usize)
    requires
        a + n <= b,
        b + n <= old(packet)@.len(),
    ensures
        final(packet)@ == swap_ranges(old(packet)@, a as int, b as int, n as int),
{
    let ghost orig = packet@;
    let len = packet.len();
    let mut i: usize = 0;
    while i < n
        invariant
            a + n <= b,
            b + n <= orig.len(),
            orig.len() == len,
            i <= n,
            packet@.len() == orig.len(),
            forall|j: int|
                0 <= j < packet@.len() ==> #[trigger] packet@[j] == if a <= j < a + i {
                    orig[j - a + b]
                } else if b <= j < b + i {
                    orig[j - b + a]
                } else {
                    orig[j]
                },
        decreases n - i,
    {
        let x = packet[a + i];
        let y = packet[b + i];
        packet[a + i] = y;
        packet[b + i] = x;
        i = i + 1;
    }
    assert(packet@ =~= swap_ranges(orig, a as int, b as int, n as int));
}

proof fn lemma_words_sum_bound(p: Seq<u8>, ip: int, n: nat)
    requires
        0 <= ip,
        ip + 2 * n <= p.len(),
    ensures
        0 <= header_words_sum(p, ip, n) <= n * 65535,
    decreases n,
{
    if n > 0 {
        lemma_words_sum_bound(p, ip, (n - 1) as nat);
    }
}

/// Clears the checksum field of the IPv4 header at `ip` and returns its
/// [`ip_checksum`]: the big-endian 16-bit words summed, the carries folded
/// into the low 16 bits until the sum fits, and the ones' complement taken.
pub fn compute_ip_checksum(packet: &mut [u8], ip: usize) -> (check: u16)
    requires
        ip + IPV4_HDR_LEN <= old(packet)@.len(),
    ensures
        final(packet)@ == clear_ip_check(old(packet)@, ip as int),
        check == ip_checksum(old(packet)@, ip as int),
{
    let len = packet.len();
    packet[ip + IPV4_CHECK_OFFSET] = 0;
    packet[ip + IPV4_CHECK_OFFSET + 1] = 0;
    assert(packet@ =~= clear_ip_check(old(packet)@, ip as int));
    let ghost hdr = packet@;
    let mut csum: u32 = 0;
    let mut k: usize = 0;
    while k < IPV4_HDR_WORDS
        invariant
            packet@ == hdr,
            ip + IPV4_HDR_LEN <= hdr.len(),
            hdr.len() == len,
            k <= IPV4_HDR_WORDS,
            csum == header_words_sum(hdr, ip as int, k as nat),
        decreases IPV4_HDR_WORDS - k,
    {
        proof {
            lemma_words_sum_bound(hdr, ip as int, k as nat);
        }
        let hi = packet[ip + 2 * k] as u32;
        let lo = packet[ip + 2 * k + 1] as u32;
        csum = csum + (hi * 256 + lo);
        k = k + 1;
    }
    let ghost total = csum as nat;
    while csum > 0xffff
        invariant
            fold_carries(csum as nat) == fold_carries(total),
        decreases csum,
    {
        assert((csum & 0xffff) == csum % 0x10000 && (csum >> 16) == csum / 0x10000
            && (csum >> 16) <= 0xffff) by (bit_vector);
        assert(csum % 0x10000 + csum / 0x10000 < csum) by (nonlinear_arith)
            requires
                csum > 0xffff,
        ;
        csum = (csum & 0xffff) + (csum >> 16);
    }
    (0xffff - csum) as u16
}

/// Turns a request frame into its reply in place: MAC addresses, IPv4
/// addresses and UDP ports exchanged, the IPv4 header checksum recomputed
/// (so that the new header verifies), and the UDP checksum cleared. The UDP
/// header is taken to follow a 20-byte IPv4 header. A frame too short for the IPv4 header is left alone; one too short
/// for the UDP header keeps the changes made up to the IPv4 header.
pub fn rewrite_headers(packet: &mut [u8]) -> (res: Result<(), ()>)
    ensures
        old(packet)@.len() < 34 ==> res is Err && final(packet)@ == old(packet)@,
        34 <= old(packet)@.len() < 42 ==> res is Err && final(packet)@ == reply_ip_part(
            old(packet)@,
        ),
        42 <= old(packet)@.len() ==> res is Ok && final(packet)@ == reply_frame(old(packet)@),
        34 <= old(packet)@.len() ==> ip_header_verifies(final(packet)@, 14),
{
    proof {
        if old(packet)@.len() >= 34 {
            lemma_reply_header_verifies(old(packet)@);
        }
    }
    let len = packet.len();
    let ip = match ptr_at(len, ETH_HDR_LEN, IPV4_HDR_LEN) {
        Ok(o) => o,
        Err(e) => return Err(e),
    };
    let _request_checksum = compute_ip_checksum(packet, ip);
    let eth = match ptr_at(len, 0, ETH_HDR_LEN) {
        Ok(o) => o,
        Err(e) => return Err(e),
    };
    swap_nonoverlapping(packet, eth, eth + 6, 6);
    swap_nonoverlapping(packet, ip + 12, ip + 16, 4);
    let check = compute_ip_checksum(packet, ip);
    packet[ip + IPV4_CHECK_OFFSET] = (check >> 8) as u8;
    packet[ip + IPV4_CHECK_OFFSET + 1] = (check & 0xff) as u8;
    proof {
        let addrs = swap_ranges(
            swap_ranges(clear_ip_check(old(packet)@, 14), 0, 6, 6),
            26,
            30,
            4,
        );
        assert(clear_ip_check(addrs, 14) =~= addrs);
        assert(packet@ =~= reply_ip_part(old(packet)@));
    }
    let udp = match ptr_at(len, ETH_HDR_LEN + IPV4_HDR_LEN, UDP_HDR_LEN) {
        Ok(o) => o,
        Err(e) => return Err(e),
    };
    swap_nonoverlapping(packet, udp, udp + 2, 2);
    packet[udp + 6] = 0;
    packet[udp + 7] = 0;
    assert(packet@ =~= reply_frame(old(packet)@));
    Ok(())
}

/// Exchanging the IPv4 source and destination addresses leaves
/// [`ip_checksum`] unchanged: the words are only summed in another order.
pub proof fn lemma_checksum_ignores_address_swap(p: Seq<u8>)
    requires
        p.len() >= 34,
    ensures
        ip_checksum(swap_ranges(p, 26, 30, 4), 14) == ip_checksum(p, 14),
{
    let a = clear_ip_check(p, 14);
    let b = clear_ip_check(swap_ranges(p, 26, 30, 4), 14);
    reveal_with_fuel(header_words_sum, 11);
    assert(header_words_sum(b, 14, 10) == header_words_sum(a, 14, 10));
}

/// [`ip_checksum`] only reads the 20 header bytes, and not the checksum
/// field among them.
proof fn lemma_checksum_reads_header_only(p: Seq<u8>, q: Seq<u8>)
    requires
        p.len() >= 34,
        q.len() >= 34,
        forall|i: int| 14 <= i < 34 && i != 24 && i != 25 ==> p[i] == q[i],
    ensures
        ip_checksum(p, 14) == ip_checksum(q, 14),
{
    let a = clear_ip_check(p, 14);
    let b = clear_ip_check(q, 14);
    reveal_with_fuel(header_words_sum, 11);
    assert(header_words_sum(a, 14, 10) == header_words_sum(b, 14, 10));
}

/// The value stored in a reply's IPv4 checksum field, read most significant
/// byte first, is [`ip_checksum`] of the request's own IPv4 header.
pub proof fn lemma_reply_checksum_is_request_checksum(p: Seq<u8>)
    requires
        p.len() >= 34,
    ensures
        reply_ip_part(p)[24] == (ip_checksum(p, 14) >> 8) as u8,
        reply_ip_part(p)[25] == (ip_checksum(p, 14) & 0xff) as u8,
        be16(reply_ip_part(p), 24) == ip_checksum(p, 14),
        p.len() >= 42 ==> reply_frame(p)[24] == reply_ip_part(p)[24] && reply_frame(p)[25]
            == reply_ip_part(p)[25],
{
    let cleared = clear_ip_check(p, 14);
    let macs = swap_ranges(cleared, 0, 6, 6);
    let addrs = swap_ranges(macs, 26, 30, 4);
    lemma_checksum_ignores_address_swap(macs);
    lemma_checksum_reads_header_only(macs, p);
    let c = ip_checksum(addrs, 14);
    assert(((c >> 8) as u8) as int * 256 + ((c & 0xff) as u8) as int == c) by (bit_vector);
}

/// Rewriting a reply once more gives back the request, but for the two
/// checksum fields, which keep the values the first rewrite stored.
pub proof fn lemma_reply_of_reply(p: Seq<u8>)
    requires
        p.len() >= 42,
    ensures
        reply_frame(reply_frame(p)) == p.update(24, reply_frame(p)[24]).update(
            25,
            reply_frame(p)[25],
        ).update(40, 0u8).update(41, 0u8),
{
    let r = reply_frame(p);
    let rr = reply_frame(r);
    lemma_reply_checksum_is_request_checksum(p);
    lemma_reply_checksum_is_request_checksum(r);
    lemma_checksum_ignores_address_swap(p);
    lemma_checksum_reads_header_only(r, swap_ranges(p, 26, 30, 4));
    assert(rr =~= p.update(24, r[24]).update(25, r[25]).update(40, 0u8).update(41, 0u8));
}

/// Folding the carries keeps the value modulo 65535 and lands in 16 bits,
/// above zero for a sum above zero.
proof fn lemma_fold_carries(x: nat)
    ensures
        fold_carries(x) <= 0xffff,
        fold_carries(x) % 65535 == x % 65535,
        x > 0 ==> fold_carries(x) > 0,
    decreases x,
{
    if x > 0xffff {
        let y = (x % 0x10000 + x / 0x10000) as nat;
        assert(y < x && y > 0 && y % 65535 == x % 65535) by (nonlinear_arith)
            requires
                x > 0xffff,
                y == x % 0x10000 + x / 0x10000,
        {
            assert(x == (x / 0x10000) * 0x10000 + x % 0x10000);
            assert(x - y == (x / 0x10000) * 65535);
        }
        lemma_fold_carries(y);
    }
}

/// The word sum of a header reads only its 20 bytes.
proof fn lemma_words_sum_reads_header_only(p: Seq<u8>, q: Seq<u8>, ip: int)
    requires
        0 <= ip,
        ip + 20 <= p.len(),
        ip + 20 <= q.len(),
        forall|i: int| ip <= i < ip + 20 ==> p[i] == q[i],
    ensures
        header_words_sum(p, ip, 10) == header_words_sum(q, ip, 10),
{
    reveal_with_fuel(header_words_sum, 11);
}

/// A header whose checksum field holds [`ip_checksum`], most significant
/// byte first, verifies.
pub proof fn lemma_stored_checksum_verifies(q: Seq<u8>, ip: int)
    requires
        0 <= ip,
        ip + 20 <= q.len(),
    ensures
        ip_header_verifies(
            clear_ip_check(q, ip).update(ip + 10, (ip_checksum(q, ip) >> 8) as u8).update(
                ip + 11,
                (ip_checksum(q, ip) & 0xff) as u8,
            ),
            ip,
        ),
{
    let z = clear_ip_check(q, ip);
    let c = ip_checksum(q, ip);
    let r = z.update(ip + 10, (c >> 8) as u8).update(ip + 11, (c & 0xff) as u8);
    lemma_words_sum_bound(z, ip, 10);
    let sz = header_words_sum(z, ip, 10);
    lemma_fold_carries(sz as nat);
    let f = fold_carries(sz as nat);
    assert(c == 0xffff - f);
    assert(((c >> 8) as u8) as int * 256 + ((c & 0xff) as u8) as int == c) by (bit_vector);
    reveal_with_fuel(header_words_sum, 11);
    assert(header_words_sum(r, ip, 10) == sz + c);
    let t = (sz + c) as nat;
    lemma_fold_carries(t);
    assert(t % 65535 == 0) by (nonlinear_arith)
        requires
            t == sz + c,
            c == 0xffff - f,
            f % 65535 == sz % 65535,
            0 <= f <= 0xffff,
            sz >= 0,
    ;
    assert(t > 0);
    let g = fold_carries(t);
    assert(g == 0xffff) by (nonlinear_arith)
        requires
            0 < g <= 0xffff,
            g % 65535 == 0,
    ;
}

/// The IPv4 header of a reply verifies, whether the rewrite stopped after
/// the IPv4 header or went on to the UDP header.
pub proof fn lemma_reply_header_verifies(p: Seq<u8>)
    requires
        p.len() >= 34,
    ensures
        ip_header_verifies(reply_ip_part(p), 14),
        p.len() >= 42 ==> ip_header_verifies(reply_frame(p), 14),
{
    let cleared = clear_ip_check(p, 14);
    let macs = swap_ranges(cleared, 0, 6, 6);
    let addrs = swap_ranges(macs, 26, 30, 4);
    lemma_stored_checksum_verifies(addrs, 14);
    assert(clear_ip_check(addrs, 14) =~= addrs);
    if p.len() >= 42 {
        lemma_words_sum_reads_header_only(reply_frame(p), reply_ip_part(p), 14);
    }
}

/// A word read little-endian is its first byte plus 256 times its second.
pub proof fn lemma_le16(p: Seq<u8>, i: int)
    ensures
        le16(p, i) == p[i] as int + 256 * p[i + 1] as int,
        0 <= le16(p, i) < 65536,
{
}

/// A word read big-endian is 256 times its first byte plus its second.
pub proof fn lemma_be16(p: Seq<u8>, i: int)
    ensures
        be16(p, i) == 256 * p[i] as int + p[i + 1] as int,
        0 <= be16(p, i) < 65536,
{
}

} // verus!
