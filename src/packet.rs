//! IPv4 / IPv6 header parsing, header checksum and TTL rewrite.
use vstd::prelude::*;
use crate::bytes::{be16, be_value, copy_range, read_be};
use crate::checksum::{
    complement_fold, complement_of_sum, fold, lemma_complement_completes, lemma_fold_bound, sum_all_words, sum_words,
    word_sum,
};

verus! {

/// An IP address: IPv4 as a 32-bit and IPv6 as a 128-bit integer, both in
/// network (big-endian) order of their octets.
#[derive(Clone, Copy, Debug, PartialEq, Eq, Hash, Structural)]
pub enum IpAddress {
    V4(u32),
    V6(u128),
}

impl IpAddress {
    pub fn is_ipv6(&self) -> (r: bool)
        ensures
            r == (*self is V6),
    {
        match self {
            IpAddress::V4(_) => false,
            IpAddress::V6(_) => true,
        }
    }
}

/// Why a frame could not be parsed.
#[derive(Clone, Copy, Debug, PartialEq, Eq, Structural)]
pub enum ParseError {
    TooShort,
    UnsupportedVersion,
    InvalidIhl,
    HopByHopTruncated,
}

/// Why the TTL could not be decremented.
#[derive(Clone, Copy, Debug, PartialEq, Eq, Structural)]
pub enum PacketError {
    TtlZero,
}

/// Parsed view of a frame, owning its raw bytes.
#[derive(Clone, Debug)]
pub struct PacketMeta {
    pub src_ip: IpAddress,
    pub dst_ip: IpAddress,
    pub src_port: u16,
    pub dst_port: u16,
    /// IPv4 Protocol or IPv6 Next Header (after a Hop-by-Hop header).
    pub protocol: u8,
    /// IPv4 TTL or IPv6 Hop Limit.
    pub ttl: u8,
    pub raw: Vec<u8>,
}

// ---------------------------------------------------------------------------
// The header layout, as spec functions of the frame's bytes.

pub open spec fn ip_version(d: Seq<u8>) -> int {
    d[0] as int / 16
}

pub open spec fn ipv4_header_len(d: Seq<u8>) -> int {
    (d[0] as int % 16) * 4
}

/// Whether the IPv6 header is followed by a Hop-by-Hop header.
pub open spec fn has_hop_by_hop(d: Seq<u8>) -> bool {
    d[6] == 0
}

/// The error `parse` reports for `d`, or `None` when `d` parses.
pub open spec fn parse_failure(d: Seq<u8>) -> Option<ParseError> {
    if d.len() < 20 {
        Some(ParseError::TooShort)
    } else if ip_version(d) == 4 {
        if ipv4_header_len(d) < 20 {
            Some(ParseError::InvalidIhl)
        } else if d.len() < be16(d, 2) {
            Some(ParseError::TooShort)
        } else {
            None
        }
    } else if ip_version(d) == 6 {
        if d.len() < 40 {
            Some(ParseError::TooShort)
        } else if has_hop_by_hop(d) && d.len() < 42 {
            Some(ParseError::HopByHopTruncated)
        } else {
            None
        }
    } else {
        Some(ParseError::UnsupportedVersion)
    }
}

/// Offset of the transport header.
pub open spec fn transport_offset(d: Seq<u8>) -> int {
    if ip_version(d) == 4 {
        ipv4_header_len(d)
    } else if has_hop_by_hop(d) {
        40 + (d[41] as int + 1) * 8
    } else {
        40
    }
}

pub open spec fn parsed_protocol(d: Seq<u8>) -> u8 {
    if ip_version(d) == 4 {
        d[9]
    } else if has_hop_by_hop(d) {
        d[40]
    } else {
        d[6]
    }
}

pub open spec fn parsed_ttl(d: Seq<u8>) -> u8 {
    if ip_version(d) == 4 {
        d[8]
    } else {
        d[7]
    }
}

/// Whether the frame carries TCP or UDP ports that fit in the buffer.
pub open spec fn has_ports(d: Seq<u8>) -> bool {
    (parsed_protocol(d) == 6 || parsed_protocol(d) == 17) && d.len() >= transport_offset(d) + 4
}

pub open spec fn parsed_src_port(d: Seq<u8>) -> int {
    if has_ports(d) {
        be16(d, transport_offset(d)) as int
    } else {
        0
    }
}

pub open spec fn parsed_dst_port(d: Seq<u8>) -> int {
    if has_ports(d) {
        be16(d, transport_offset(d) + 2) as int
    } else {
        0
    }
}

/// The address in `d[o .. o + 4]` (IPv4) or `d[o .. o + 16]` (IPv6).
pub open spec fn address_at(d: Seq<u8>, o: int, v6: bool) -> IpAddress {
    if v6 {
        IpAddress::V6(be_value(d.subrange(o, o + 16)) as u128)
    } else {
        IpAddress::V4(be_value(d.subrange(o, o + 4)) as u32)
    }
}

pub open spec fn parsed_src(d: Seq<u8>) -> IpAddress {
    if ip_version(d) == 4 {
        address_at(d, 12, false)
    } else {
        address_at(d, 8, true)
    }
}

pub open spec fn parsed_dst(d: Seq<u8>) -> IpAddress {
    if ip_version(d) == 4 {
        address_at(d, 16, false)
    } else {
        address_at(d, 24, true)
    }
}

/// `p` is what `parse` makes of the bytes `d`.
pub open spec fn parses_to(p: PacketMeta, d: Seq<u8>) -> bool {
    &&& p.raw@ == d
    &&& p.src_ip == parsed_src(d)
    &&& p.dst_ip == parsed_dst(d)
    &&& p.src_port == parsed_src_port(d)
    &&& p.dst_port == parsed_dst_port(d)
    &&& p.protocol == parsed_protocol(d)
    &&& p.ttl == parsed_ttl(d)
}

// ---------------------------------------------------------------------------
// IPv4 header checksum.

/// Number of header bytes the IPv4 checksum covers: `IHL * 4`, cut to the buffer.
pub open spec fn ipv4_checksum_len(h: Seq<u8>) -> nat {
    if ipv4_header_len(h) <= h.len() {
        ipv4_header_len(h) as nat
    } else {
        h.len()
    }
}

/// The IPv4 header checksum of `h`, the checksum field itself counted as zero;
/// zero for a buffer shorter than a minimal header.
pub open spec fn ipv4_checksum(h: Seq<u8>) -> int {
    if h.len() < 20 {
        0
    } else {
        complement_of_sum(sum_all_words(h, ipv4_checksum_len(h), true))
    }
}

/// Calculates the IPv4 header checksum over `IHL * 4` bytes, skipping bytes 10..12.
pub fn calculate_ipv4_checksum(header: &[u8]) -> (r: u16)
    ensures
        r as int == ipv4_checksum(header@),
{
    if header.len() < 20 {
        return 0;
    }
    let ihl: usize = (header[0] % 16) as usize * 4;
    let n: usize = if ihl <= header.len() {
        ihl
    } else {
        header.len()
    };
    let sum = word_sum(header, n, true);
    complement_fold(sum)
}

/// `after` is `before` with the checksum of `before` stored at bytes 10..12.
pub open spec fn checksum_stored(before: Seq<u8>, after: Seq<u8>) -> bool {
    &&& after.len() == before.len()
    &&& after[10] as int == ipv4_checksum(before) / 256
    &&& after[11] as int == ipv4_checksum(before) % 256
    &&& forall|i: int| 0 <= i < before.len() && i != 10 && i != 11 ==> after[i] == before[i]
}

pub proof fn lemma_checksum_ignores_field(a: Seq<u8>, b: Seq<u8>)
    requires
        a.len() == b.len(),
        a.len() >= 20,
        forall|i: int| 0 <= i < a.len() && i != 10 && i != 11 ==> a[i] == b[i],
    ensures
        ipv4_checksum(a) == ipv4_checksum(b),
{
    let n = ipv4_checksum_len(a);
    assert(ipv4_checksum_len(b) == n);
    lemma_sum_words_agree(a, b, (n + 1) / 2, n as int);
}

proof fn lemma_sum_words_agree(a: Seq<u8>, b: Seq<u8>, m: nat, n: int)
    requires
        a.len() == b.len(),
        n <= a.len(),
        2 * m <= n + 1,
        forall|i: int| 0 <= i < a.len() && i != 10 && i != 11 ==> a[i] == b[i],
    ensures
        sum_words(a, m, n, true) == sum_words(b, m, n, true),
    decreases m,
{
    if m > 0 {
        let j = 2 * (m - 1);
        lemma_sum_words_agree(a, b, (m - 1) as nat, n);
        if j != 10 {
            assert(a[j] == b[j]);
            if j + 1 < n {
                assert(a[j + 1] == b[j + 1]);
            }
        }
    }
}

/// Recomputes the IPv4 header checksum in place; a buffer shorter than a
/// minimal header is left as it is.
pub fn update_ipv4_checksum(packet: &mut Vec<u8>)
    ensures
        old(packet)@.len() < 20 ==> final(packet)@ == old(packet)@,
        old(packet)@.len() >= 20 ==> checksum_stored(old(packet)@, final(packet)@),
        final(packet)@.len() >= 20 ==> final(packet)@[10] as int * 256 + final(packet)@[11] as int == ipv4_checksum(final(packet)@),
{
    if packet.len() < 20 {
        return;
    }
    let ghost before = packet@;
    packet.set(10, 0);
    packet.set(11, 0);
    proof {
        lemma_checksum_ignores_field(before, packet@);
    }
    let checksum = calculate_ipv4_checksum(packet.as_slice());
    packet.set(10, (checksum / 256) as u8);
    packet.set(11, (checksum % 256) as u8);
    proof {
        lemma_checksum_ignores_field(before, packet@);
    }
}

// ---------------------------------------------------------------------------
// Parsing.

fn read_address(d: &[u8], o: usize, v6: bool) -> (r: IpAddress)
    requires
        o + (if v6 { 16int } else { 4int }) <= d@.len(),
    ensures
        r == address_at(d@, o as int, v6),
{
    if v6 {
        IpAddress::V6(read_be(d, o, 16))
    } else {
        proof {
            crate::bytes::lemma_be_bound(d@.subrange(o as int, o + 4));
            reveal_with_fuel(crate::bytes::pow256, 5);
        }
        IpAddress::V4(read_be(d, o, 4) as u32)
    }
}

fn read_ports(d: &[u8], protocol: u8, off: usize) -> (r: (u16, u16))
    ensures
        ((protocol == 6 || protocol == 17) && d@.len() >= off + 4) ==> r == (
        be16(d@, off as int) as u16, be16(d@, off + 2) as u16),
        !((protocol == 6 || protocol == 17) && d@.len() >= off + 4) ==> r == (0u16, 0u16),
{
    if (protocol == 6 || protocol == 17) && off <= d.len() && d.len() - off >= 4 {
        let sp: u16 = d[off] as u16 * 256 + d[off + 1] as u16;
        let dp: u16 = d[off + 2] as u16 * 256 + d[off + 3] as u16;
        (sp, dp)
    } else {
        (0, 0)
    }
}

/// Parses an IPv4 or IPv6 frame, dispatching on the version nibble.
pub fn parse(data: &[u8]) -> (r: Result<PacketMeta, ParseError>)
    ensures
        match r {
            Ok(p) => parse_failure(data@) is None && parses_to(p, data@),
            Err(e) => parse_failure(data@) == Some(e),
        },
{
    proof {
        assert(data@.subrange(0, data@.len() as int) =~= data@);
    }
    if data.len() < 20 {
        return Err(ParseError::TooShort);
    }
    let version = data[0] / 16;
    if version == 4 {
        let ihl: usize = (data[0] % 16) as usize * 4;
        if ihl < 20 {
            return Err(ParseError::InvalidIhl);
        }
        let total_len: usize = data[2] as usize * 256 + data[3] as usize;
        if data.len() < total_len {
            return Err(ParseError::TooShort);
        }
        let protocol = data[9];
        let (src_port, dst_port) = read_ports(data, protocol, ihl);
        Ok(PacketMeta {
            src_ip: read_address(data, 12, false),
            dst_ip: read_address(data, 16, false),
            src_port,
            dst_port,
            protocol,
            ttl: data[8],
            raw: copy_range(data, 0, data.len()),
        })
    } else if version == 6 {
        if data.len() < 40 {
            return Err(ParseError::TooShort);
        }
        let mut next_header = data[6];
        let hop_limit = data[7];
        let mut transport_offset: usize = 40;
        if next_header == 0 {
            if data.len() < 42 {
                return Err(ParseError::HopByHopTruncated);
            }
            next_header = data[40];
            transport_offset = 40 + (data[41] as usize + 1) * 8;
        }
        let (src_port, dst_port) = read_ports(data, next_header, transport_offset);
        Ok(PacketMeta {
            src_ip: read_address(data, 8, true),
            dst_ip: read_address(data, 24, true),
            src_port,
            dst_port,
            protocol: next_header,
            ttl: hop_limit,
            raw: copy_range(data, 0, data.len()),
        })
    } else {
        Err(ParseError::UnsupportedVersion)
    }
}

// ---------------------------------------------------------------------------
// TTL rewrite.

/// Offset of the TTL (IPv4) or Hop Limit (IPv6) byte.
pub open spec fn ttl_offset(v6: bool) -> int {
    if v6 {
        7
    } else {
        8
    }
}

/// `n` less one, stopping at zero.
pub open spec fn sat_dec(n: u8) -> u8 {
    if n == 0 {
        0
    } else {
        (n - 1) as u8
    }
}

/// The raw bytes after a TTL decrement: the TTL byte lowered (when the buffer
/// holds it) and, for IPv4, the header checksum recomputed.
pub open spec fn raw_after_decrement(raw: Seq<u8>, v6: bool) -> Seq<u8> {
    let o = ttl_offset(v6);
    if raw.len() > o {
        let lowered = raw.update(o, sat_dec(raw[o]));
        if !v6 && lowered.len() >= 20 {
            lowered.update(10, (ipv4_checksum(lowered) / 256) as u8).update(
                11,
                (ipv4_checksum(lowered) % 256) as u8,
            )
        } else {
            lowered
        }
    } else {
        raw
    }
}

impl PacketMeta {
    /// Whether this is an IPv6 packet (judged by its source address).
    pub fn is_ipv6(&self) -> (r: bool)
        ensures
            r == (self.src_ip is V6),
    {
        self.src_ip.is_ipv6()
    }

    /// Decrements the TTL (IPv4) or Hop Limit (IPv6), both in the parsed field
    /// and in the raw bytes, and recomputes the IPv4 header checksum.
    pub fn decrement_ttl(&mut self) -> (r: Result<(), PacketError>)
        ensures
            old(self).ttl == 0 ==> r == Err::<(), PacketError>(PacketError::TtlZero) && *final(self) == *old(self),
            old(self).ttl > 0 ==> {
                &&& r is Ok
                &&& final(self).ttl == old(self).ttl - 1
                &&& final(self).raw@ == raw_after_decrement(old(self).raw@, old(self).src_ip is V6)
                &&& final(self).src_ip == old(self).src_ip
                &&& final(self).dst_ip == old(self).dst_ip
                &&& final(self).src_port == old(self).src_port
                &&& final(self).dst_port == old(self).dst_port
                &&& final(self).protocol == old(self).protocol
            },
    {
        if self.ttl == 0 {
            return Err(PacketError::TtlZero);
        }
        self.ttl = self.ttl - 1;
        let v6 = self.is_ipv6();
        let o: usize = if v6 {
            7
        } else {
            8
        };
        if self.raw.len() > o {
            let b = self.raw[o];
            let lowered: u8 = if b == 0 {
                0
            } else {
                b - 1
            };
            self.raw.set(o, lowered);
            if !v6 {
                let ghost l = self.raw@;
                update_ipv4_checksum(&mut self.raw);
                proof {
                    if l.len() >= 20 {
                        assert(self.raw@ =~= l.update(10, (ipv4_checksum(l) / 256) as u8).update(
                            11,
                            (ipv4_checksum(l) % 256) as u8,
                        ));
                    }
                }
            }
        }
        Ok(())
    }
}

/// The folded one's-complement sum of the IPv4 header of `h`, the checksum
/// field included: all ones when the stored checksum is right.
pub open spec fn ipv4_header_folded_sum(h: Seq<u8>) -> nat {
    fold(sum_all_words(h, ipv4_checksum_len(h), false))
}

proof fn lemma_words_with_field(h: Seq<u8>, m: nat, n: int)
    requires
        12 <= n <= h.len(),
        2 * m <= n + 1,
    ensures
        sum_words(h, m, n, false) == sum_words(h, m, n, true) + (if m > 5 {
            be16(h, 10)
        } else {
            0
        }),
    decreases m,
{
    if m > 0 {
        lemma_words_with_field(h, (m - 1) as nat, n);
    }
}

/// Once the checksum of `before` is stored, the header sums to all ones.
pub proof fn lemma_stored_checksum_verifies(before: Seq<u8>, after: Seq<u8>)
    requires
        before.len() >= 20,
        ipv4_header_len(before) >= 20,
        checksum_stored(before, after),
    ensures
        ipv4_header_folded_sum(after) == 0xFFFF,
{
    let n = ipv4_checksum_len(before);
    assert(after[0] == before[0]);
    assert(ipv4_checksum_len(after) == n);
    let m = (n + 1) / 2;
    lemma_sum_words_agree(before, after, m, n as int);
    lemma_words_with_field(after, m, n as int);
    let sk = sum_all_words(before, n, true);
    lemma_fold_bound(sk);
    let c = complement_of_sum(sk);
    assert(be16(after, 10) == c);
    assert(sum_all_words(after, n, false) == sk + c);
    lemma_complement_completes(sk);
}

/// Decrementing the TTL of an IPv4 packet lowers the TTL byte by one, keeps
/// every byte but the TTL and the checksum, and leaves a header whose
/// checksum verifies (it sums, checksum included, to all ones).
pub proof fn lemma_decrement_keeps_checksum(raw: Seq<u8>)
    requires
        raw.len() >= 20,
        ipv4_header_len(raw) >= 20,
        raw[8] > 0,
    ensures
        raw_after_decrement(raw, false).len() == raw.len(),
        raw_after_decrement(raw, false)[8] == raw[8] - 1,
        forall|i: int|
            0 <= i < raw.len() && i != 8 && i != 10 && i != 11 ==> raw_after_decrement(raw, false)[i] == raw[i],
        ipv4_header_folded_sum(raw_after_decrement(raw, false)) == 0xFFFF,
{
    let lowered = raw.update(8, sat_dec(raw[8]));
    let r = raw_after_decrement(raw, false);
    lemma_fold_bound(sum_all_words(lowered, ipv4_checksum_len(lowered), true));
    assert(checksum_stored(lowered, r));
    assert(ipv4_header_len(lowered) == ipv4_header_len(raw));
    lemma_stored_checksum_verifies(lowered, r);
}

} // verus!
