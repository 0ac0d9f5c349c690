//! ICMP (IPv4) and ICMPv6 error synthesis.
use vstd::prelude::*;
use crate::bytes::{append_range, be16, be_value, pow256, write_be};
use crate::checksum::{complement_fold, complement_of_sum, sum_all_words, word_sum};
use crate::packet::{
    IpAddress, PacketMeta, ipv4_checksum, update_ipv4_checksum, parse_failure, parsed_src,
    parsed_dst,
};

verus! {

/// How many bytes of the offending packet an ICMP (IPv4) error quotes: its
/// header and the first eight bytes of payload.
pub const ICMP_QUOTE_LEN: usize = 28;

/// The IPv6 minimum MTU, which bounds an ICMPv6 error message.
pub const IPV6_MIN_MTU: usize = 1280;

/// The IPv4 address as an integer; zero for an IPv6 address.
pub open spec fn v4_value(a: IpAddress) -> nat {
    match a {
        IpAddress::V4(x) => x as nat,
        IpAddress::V6(_) => 0,
    }
}

/// The IPv6 address as an integer; zero for an IPv4 address.
pub open spec fn v6_value(a: IpAddress) -> nat {
    match a {
        IpAddress::V4(_) => 0,
        IpAddress::V6(x) => x as nat,
    }
}

/// The Internet checksum of an ICMP message.
pub open spec fn icmp_checksum(m: Seq<u8>) -> int {
    complement_of_sum(sum_all_words(m, m.len(), false))
}

/// The ICMPv6 pseudo-header: source, destination, upper-layer length as a
/// 32-bit big-endian integer, three zero bytes and Next Header 58.
pub open spec fn pseudo_header(src: Seq<u8>, dst: Seq<u8>, len: nat) -> Seq<u8> {
    src + dst + seq![
        (len / 0x100_0000 % 256) as u8,
        (len / 0x1_0000 % 256) as u8,
        (len / 256 % 256) as u8,
        (len % 256) as u8,
        0u8,
        0u8,
        0u8,
        58u8,
    ]
}

/// The ICMPv6 checksum of message `m` sent from `src` to `dst`.
pub open spec fn icmpv6_checksum(src: Seq<u8>, dst: Seq<u8>, m: Seq<u8>) -> int {
    let all = pseudo_header(src, dst, m.len()) + m;
    complement_of_sum(sum_all_words(all, all.len(), false))
}

/// `m` with its checksum field (bytes 2..4) zeroed.
pub open spec fn unchecked(m: Seq<u8>) -> Seq<u8> {
    m.update(2, 0).update(3, 0)
}

pub open spec fn min_nat(a: nat, b: nat) -> nat {
    if a <= b {
        a
    } else {
        b
    }
}

/// `r` is the ICMP (IPv4) error of type `t`, code `c` and last two bytes of
/// the rest-of-header `rest` that answers `p`.
pub open spec fn is_icmpv4_reply(r: Seq<u8>, p: PacketMeta, t: u8, c: u8, rest: nat) -> bool {
    let q = min_nat(ICMP_QUOTE_LEN as nat, p.raw@.len());
    let n = 28 + q;
    &&& r.len() == n
    &&& r[0] == 0x45 && r[1] == 0
    &&& be16(r, 2) == n
    &&& r[4] == 0 && r[5] == 0 && r[6] == 0 && r[7] == 0
    &&& r[8] == 64 && r[9] == 1
    &&& be16(r, 10) == ipv4_checksum(r)
    &&& be_value(r.subrange(12, 16)) == v4_value(p.dst_ip)
    &&& be_value(r.subrange(16, 20)) == v4_value(p.src_ip)
    &&& r[20] == t && r[21] == c
    &&& be16(r, 22) == icmp_checksum(unchecked(r.subrange(20, n as int)))
    &&& r[24] == 0 && r[25] == 0
    &&& be16(r, 26) == rest
    &&& r.subrange(28, n as int) == p.raw@.subrange(0, q as int)
}

/// `r` is the ICMPv6 error of type `t`, code `c` and rest-of-header `rest`
/// that answers `p`.
pub open spec fn is_icmpv6_reply(r: Seq<u8>, p: PacketMeta, t: u8, c: u8, rest: nat) -> bool {
    let q = min_nat((IPV6_MIN_MTU - 48) as nat, p.raw@.len());
    let n = 48 + q;
    &&& r.len() == n
    &&& r[0] == 0x60 && r[1] == 0 && r[2] == 0 && r[3] == 0
    &&& be16(r, 4) == n - 40
    &&& r[6] == 58 && r[7] == 64
    &&& be_value(r.subrange(8, 24)) == v6_value(p.dst_ip)
    &&& be_value(r.subrange(24, 40)) == v6_value(p.src_ip)
    &&& r[40] == t && r[41] == c
    &&& be16(r, 42) == icmpv6_checksum(
        r.subrange(8, 24),
        r.subrange(24, 40),
        unchecked(r.subrange(40, n as int)),
    )
    &&& be_value(r.subrange(44, 48)) == rest
    &&& r.subrange(48, n as int) == p.raw@.subrange(0, q as int)
}

fn v4_bits(a: IpAddress) -> (r: u128)
    ensures
        r == v4_value(a),
        r < pow256(4),
{
    proof {
        reveal_with_fuel(pow256, 5);
    }
    match a {
        IpAddress::V4(x) => x as u128,
        IpAddress::V6(_) => 0,
    }
}

fn v6_bits(a: IpAddress) -> (r: u128)
    ensures
        r == v6_value(a),
        r < pow256(16),
{
    proof {
        reveal_with_fuel(pow256, 17);
    }
    match a {
        IpAddress::V4(_) => 0,
        IpAddress::V6(x) => x,
    }
}

/// Appends all of `b` to `out`.
fn append_all(out: &mut Vec<u8>, b: &Vec<u8>)
    ensures
        final(out)@ == old(out)@ + b@,
{
    proof {
        assert(b@.subrange(0, b@.len() as int) =~= b@);
    }
    append_range(out, b.as_slice(), 0, b.len());
}

/// The Internet checksum of an ICMP message.
pub fn calculate_icmp_checksum(data: &[u8]) -> (r: u16)
    requires
        data@.len() <= 0x7FFF_FFFF,
    ensures
        r as int == icmp_checksum(data@),
{
    let sum = word_sum(data, data.len(), false);
    complement_fold(sum)
}

/// The ICMP message: type, code, checksum, rest-of-header ending in `rest`,
/// then the first `q` bytes of the offending packet.
fn icmpv4_message(original: &PacketMeta, error_type: u8, code: u8, rest: u16, q: usize) -> (m: Vec<u8>)
    requires
        q <= ICMP_QUOTE_LEN,
        q <= original.raw@.len(),
    ensures
        m@.len() == 8 + q,
        m@[0] == error_type && m@[1] == code,
        be16(m@, 2) == icmp_checksum(unchecked(m@)),
        m@[4] == 0 && m@[5] == 0,
        be16(m@, 6) == rest,
        m@.subrange(8, 8 + q as int) == original.raw@.subrange(0, q as int),
{
    let mut m: Vec<u8> = Vec::new();
    m.push(error_type);
    m.push(code);
    m.push(0);
    m.push(0);
    m.push(0);
    m.push(0);
    m.push((rest / 256) as u8);
    m.push((rest % 256) as u8);
    append_range(&mut m, original.raw.as_slice(), 0, q);
    let ghost m0 = m@;
    let ck = calculate_icmp_checksum(m.as_slice());
    m.set(2, (ck / 256) as u8);
    m.set(3, (ck % 256) as u8);
    proof {
        assert(unchecked(m@) =~= m0);
        assert(m@.subrange(8, 8 + q as int) =~= m0.subrange(8, 8 + q as int));
    }
    m
}

/// A 20-byte IPv4 header of an ICMP packet of `n` bytes from `src` to `dst`.
fn icmpv4_header(n: usize, src: IpAddress, dst: IpAddress) -> (h: Vec<u8>)
    requires
        n < 0x1_0000,
    ensures
        h@.len() == 20,
        h@[0] == 0x45 && h@[1] == 0,
        be16(h@, 2) == n,
        h@[4] == 0 && h@[5] == 0 && h@[6] == 0 && h@[7] == 0,
        h@[8] == 64 && h@[9] == 1,
        be16(h@, 10) == ipv4_checksum(h@),
        be_value(h@.subrange(12, 16)) == v4_value(src),
        be_value(h@.subrange(16, 20)) == v4_value(dst),
{
    let mut h: Vec<u8> = Vec::new();
    h.push(0x45);
    h.push(0);
    h.push((n / 256) as u8);
    h.push((n % 256) as u8);
    h.push(0);
    h.push(0);
    h.push(0);
    h.push(0);
    h.push(64);
    h.push(1);
    h.push(0);
    h.push(0);
    let s = write_be(v4_bits(src), 4);
    let d = write_be(v4_bits(dst), 4);
    append_all(&mut h, &s);
    append_all(&mut h, &d);
    let ghost h0 = h@;
    proof {
        assert(h0.subrange(12, 16) =~= s@);
        assert(h0.subrange(16, 20) =~= d@);
    }
    update_ipv4_checksum(&mut h);
    proof {
        assert(h@.subrange(12, 16) =~= h0.subrange(12, 16));
        assert(h@.subrange(16, 20) =~= h0.subrange(16, 20));
    }
    h
}

/// Builds the ICMP (IPv4) error of type `error_type`, code `code` and the
/// 16-bit value `rest` in the last two bytes of the rest-of-header.
fn build_icmpv4(original: &PacketMeta, error_type: u8, code: u8, rest: u16) -> (r: Vec<u8>)
    ensures
        is_icmpv4_reply(r@, *original, error_type, code, rest as nat),
{
    let q: usize = if ICMP_QUOTE_LEN <= original.raw.len() {
        ICMP_QUOTE_LEN
    } else {
        original.raw.len()
    };
    let n: usize = 28 + q;
    let m = icmpv4_message(original, error_type, code, rest, q);
    let mut h = icmpv4_header(n, original.dst_ip, original.src_ip);
    let ghost hv = h@;
    append_all(&mut h, &m);
    proof {
        let r = h@;
        assert(r.subrange(0, 20) =~= hv);
        assert(r.subrange(20, n as int) =~= m@);
        assert(r.subrange(12, 16) =~= hv.subrange(12, 16));
        assert(r.subrange(16, 20) =~= hv.subrange(16, 20));
        assert(r.subrange(28, n as int) =~= m@.subrange(8, 8 + q as int));
        lemma_checksum_prefix(hv, r);
    }
    h
}

/// The IPv4 checksum of a 20-byte header reads only those 20 bytes.
proof fn lemma_checksum_prefix(h: Seq<u8>, r: Seq<u8>)
    requires
        h.len() == 20,
        r.len() >= 20,
        r.subrange(0, 20) == h,
        h[0] == 0x45,
    ensures
        ipv4_checksum(r) == ipv4_checksum(h),
{
    assert(forall|i: int| 0 <= i < 20 ==> r[i] == h[i]) by {
        assert forall|i: int| 0 <= i < 20 implies r[i] == h[i] by {
            assert(r.subrange(0, 20)[i] == r[i]);
        }
    }
    lemma_words_prefix(h, r, 10, 20);
}

proof fn lemma_words_prefix(h: Seq<u8>, r: Seq<u8>, m: nat, n: int)
    requires
        n <= h.len(),
        n <= r.len(),
        2 * m <= n + 1,
        forall|i: int| 0 <= i < n ==> r[i] == h[i],
    ensures
        crate::checksum::sum_words(h, m, n, true) == crate::checksum::sum_words(r, m, n, true),
    decreases m,
{
    if m > 0 {
        lemma_words_prefix(h, r, (m - 1) as nat, n);
    }
}

/// ICMP (IPv4) error of the given type and code; the rest-of-header is zero.
pub fn generate_icmp_error(original: &PacketMeta, error_type: u8, code: u8) -> (r: Vec<u8>)
    ensures
        is_icmpv4_reply(r@, *original, error_type, code, 0),
{
    build_icmpv4(original, error_type, code, 0)
}

/// ICMP Destination Unreachable, Fragmentation Needed (type 3, code 4), with
/// the next-hop MTU (its low sixteen bits) in the rest-of-header.
pub fn generate_fragmentation_needed(original: &PacketMeta, mtu: u32) -> (r: Vec<u8>)
    ensures
        is_icmpv4_reply(r@, *original, 3, 4, mtu as nat % 0x1_0000),
{
    build_icmpv4(original, 3, 4, (mtu % 0x1_0000) as u16)
}

/// ICMP Time Exceeded (type 11, code 0).
pub fn icmp_time_exceeded(pkt: &PacketMeta) -> (r: Vec<u8>)
    ensures
        is_icmpv4_reply(r@, *pkt, 11, 0, 0),
{
    generate_icmp_error(pkt, 11, 0)
}

/// ICMP Destination Unreachable (type 3, code 0).
pub fn icmp_dest_unreachable(pkt: &PacketMeta) -> (r: Vec<u8>)
    ensures
        is_icmpv4_reply(r@, *pkt, 3, 0, 0),
{
    generate_icmp_error(pkt, 3, 0)
}

/// ICMP Fragmentation Needed carrying `mtu`.
pub fn icmp_frag_needed(pkt: &PacketMeta, mtu: u32) -> (r: Vec<u8>)
    ensures
        is_icmpv4_reply(r@, *pkt, 3, 4, mtu as nat % 0x1_0000),
{
    generate_fragmentation_needed(pkt, mtu)
}

/// Computes the ICMPv6 checksum of message `m` from `src` to `dst`.
fn calculate_icmpv6_checksum(src: &Vec<u8>, dst: &Vec<u8>, m: &Vec<u8>) -> (r: u16)
    requires
        src@.len() == 16,
        dst@.len() == 16,
        m@.len() <= 0x1000_0000,
    ensures
        r as int == icmpv6_checksum(src@, dst@, m@),
{
    let len: usize = m.len();
    let mut all: Vec<u8> = Vec::new();
    append_all(&mut all, src);
    append_all(&mut all, dst);
    all.push((len / 0x100_0000 % 256) as u8);
    all.push((len / 0x1_0000 % 256) as u8);
    all.push((len / 256 % 256) as u8);
    all.push((len % 256) as u8);
    all.push(0);
    all.push(0);
    all.push(0);
    all.push(58);
    append_all(&mut all, m);
    proof {
        assert(all@ =~= pseudo_header(src@, dst@, m@.len()) + m@);
    }
    let sum = word_sum(all.as_slice(), all.len(), false);
    complement_fold(sum)
}

/// Builds the ICMPv6 error of type `error_type`, code `code` and
/// rest-of-header `rest`, quoting as much of `packet` as fits in 1280 bytes.
fn build_icmpv6(packet: &PacketMeta, error_type: u8, code: u8, rest: u32) -> (r: Vec<u8>)
    ensures
        is_icmpv6_reply(r@, *packet, error_type, code, rest as nat),
{
    let room: usize = IPV6_MIN_MTU - 48;
    let q: usize = if room <= packet.raw.len() {
        room
    } else {
        packet.raw.len()
    };
    let n: usize = 48 + q;
    let src = write_be(v6_bits(packet.dst_ip), 16);
    let dst = write_be(v6_bits(packet.src_ip), 16);
    proof {
        reveal_with_fuel(pow256, 5);
    }
    // The ICMPv6 message with a zero checksum.
    let mut m: Vec<u8> = Vec::new();
    m.push(error_type);
    m.push(code);
    m.push(0);
    m.push(0);
    let rb = write_be(rest as u128, 4);
    append_all(&mut m, &rb);
    append_range(&mut m, packet.raw.as_slice(), 0, q);
    let ghost m0 = m@;
    let ck = calculate_icmpv6_checksum(&src, &dst, &m);
    m.set(2, (ck / 256) as u8);
    m.set(3, (ck % 256) as u8);
    proof {
        assert(unchecked(m@) =~= m0);
        assert(m@.subrange(4, 8) =~= rb@);
        assert(m@.subrange(8, 8 + q as int) =~= packet.raw@.subrange(0, q as int));
    }
    // The IPv6 header.
    let plen: usize = n - 40;
    let mut r: Vec<u8> = Vec::new();
    r.push(0x60);
    r.push(0);
    r.push(0);
    r.push(0);
    r.push((plen / 256) as u8);
    r.push((plen % 256) as u8);
    r.push(58);
    r.push(64);
    append_all(&mut r, &src);
    append_all(&mut r, &dst);
    let ghost hv = r@;
    append_all(&mut r, &m);
    proof {
        let v = r@;
        assert(v.subrange(8, 24) =~= src@);
        assert(v.subrange(24, 40) =~= dst@);
        assert(v.subrange(40, n as int) =~= m@);
        assert(v.subrange(44, 48) =~= rb@);
        assert(v.subrange(48, n as int) =~= packet.raw@.subrange(0, q as int));
    }
    r
}

/// ICMPv6 error of the given type and code; the rest-of-header is zero.
pub fn generate_icmpv6_error(packet: &PacketMeta, error_type: u8, code: u8) -> (r: Vec<u8>)
    ensures
        is_icmpv6_reply(r@, *packet, error_type, code, 0),
{
    build_icmpv6(packet, error_type, code, 0)
}

/// ICMPv6 Time Exceeded (type 3, code 0).
pub fn icmpv6_time_exceeded(pkt: &PacketMeta) -> (r: Vec<u8>)
    ensures
        is_icmpv6_reply(r@, *pkt, 3, 0, 0),
{
    build_icmpv6(pkt, 3, 0, 0)
}

/// ICMPv6 Packet Too Big (type 2, code 0) carrying `mtu`.
pub fn icmpv6_packet_too_big(pkt: &PacketMeta, mtu: u32) -> (r: Vec<u8>)
    ensures
        is_icmpv6_reply(r@, *pkt, 2, 0, mtu as nat),
{
    build_icmpv6(pkt, 2, 0, mtu)
}

/// ICMPv6 Destination Unreachable (type 1, code 0).
pub fn icmpv6_dest_unreachable(pkt: &PacketMeta) -> (r: Vec<u8>)
    ensures
        is_icmpv6_reply(r@, *pkt, 1, 0, 0),
{
    build_icmpv6(pkt, 1, 0, 0)
}

/// An ICMP error built for an IPv4 packet parses, and its source and
/// destination are the packet's destination and source.
pub proof fn lemma_icmpv4_reply_parses_swapped(r: Seq<u8>, p: PacketMeta, t: u8, c: u8, rest: nat)
    requires
        is_icmpv4_reply(r, p, t, c, rest),
        p.src_ip is V4,
        p.dst_ip is V4,
    ensures
        parse_failure(r) is None,
        parsed_src(r) == p.dst_ip,
        parsed_dst(r) == p.src_ip,
{
}

/// An ICMPv6 error built for an IPv6 packet parses, and its source and
/// destination are the packet's destination and source.
pub proof fn lemma_icmpv6_reply_parses_swapped(r: Seq<u8>, p: PacketMeta, t: u8, c: u8, rest: nat)
    requires
        is_icmpv6_reply(r, p, t, c, rest),
        p.src_ip is V6,
        p.dst_ip is V6,
    ensures
        parse_failure(r) is None,
        parsed_src(r) == p.dst_ip,
        parsed_dst(r) == p.src_ip,
{
}

} // verus!
