//! What the tap bridge decides: packet-file lines, ingress classification and
//! synthetic traffic.
use vstd::prelude::*;
use crate::bytes::{be_value, pow256, write_be};
use crate::config::TunIngressConfig;
use crate::forwarding::address_value;
use crate::icmp::{v4_value, v6_value};
use crate::packet::{IpAddress, PacketMeta, ipv4_checksum, update_ipv4_checksum};
use crate::routing::Destination;

verus! {

/// The tap a frame came in on.
#[derive(Clone, Copy, Debug, PartialEq, Eq, Structural)]
pub enum Ingress {
    A,
    B,
}

/// Traffic entering at tap A heads for anchor B, and the other way round.
pub fn destination_for(ingress: Ingress) -> (r: Destination)
    ensures
        r == match ingress {
            Ingress::A => Destination::TunB,
            Ingress::B => Destination::TunA,
        },
{
    match ingress {
        Ingress::A => Destination::TunB,
        Ingress::B => Destination::TunA,
    }
}

/// Reads an injection directive, `tun_a` or `tun_b`.
pub fn parse_direction(s: &String) -> (r: Option<Ingress>)
    ensures
        r == (if s@ == "tun_a"@ {
            Some(Ingress::A)
        } else if s@ == "tun_b"@ {
            Some(Ingress::B)
        } else {
            None
        }),
{
    proof {
        reveal_strlit("tun_a");
        reveal_strlit("tun_b");
    }
    if *s == String::from_str("tun_a") {
        Some(Ingress::A)
    } else if *s == String::from_str("tun_b") {
        Some(Ingress::B)
    } else {
        None
    }
}

/// Whether the CIDR prefix written `prefix` holds the address `addr` of the
/// given family (false when `prefix` does not parse).
pub uninterp spec fn prefix_holds(prefix: Seq<char>, v6: bool, addr: nat) -> bool;

/// Relies on ipnet: `IpNet`'s `FromStr` parses the prefix and
/// `IpNet::contains` tests the address, as a host network of its family.
#[verifier::external_body]
fn prefix_contains(prefix: &str, ip: IpAddress) -> (r: bool)
    ensures
        r == prefix_holds(prefix@, ip is V6, address_value(ip)),
{
    let host: ipnet::IpNet = match ip {
        IpAddress::V4(x) => ipnet::Ipv4Net::new(x.into(), 32).unwrap().into(),
        IpAddress::V6(x) => ipnet::Ipv6Net::new(x.into(), 128).unwrap().into(),
    };
    prefix.parse::<ipnet::IpNet>().map(|n| n.contains(&host)).unwrap_or(false)
}

/// `ip` lies in the non-empty prefix `prefix`.
pub open spec fn in_prefix(ip: IpAddress, prefix: Seq<char>) -> bool {
    prefix.len() > 0 && prefix_holds(prefix, ip is V6, address_value(ip))
}

/// Whether `ip` lies in the CIDR prefix `prefix`; an empty prefix holds nothing.
pub fn ip_in_prefix(ip: &IpAddress, prefix: &String) -> (r: bool)
    ensures
        r == in_prefix(*ip, prefix@),
{
    if prefix.as_str().is_empty() {
        return false;
    }
    prefix_contains(prefix.as_str(), *ip)
}

/// The ingress of a frame from `src`: the directive when there is one, else
/// the first prefix that holds `src` among the A, B, IPv6 A and IPv6 B
/// prefixes; `None` when none does.
pub open spec fn ingress_of(src: IpAddress, directive: Option<Ingress>, p: TunIngressConfig) -> Option<Ingress> {
    match directive {
        Some(i) => Some(i),
        None => if in_prefix(src, p.tun_a_prefix@) {
            Some(Ingress::A)
        } else if in_prefix(src, p.tun_b_prefix@) {
            Some(Ingress::B)
        } else if in_prefix(src, p.tun_a_ipv6_prefix@) {
            Some(Ingress::A)
        } else if in_prefix(src, p.tun_b_ipv6_prefix@) {
            Some(Ingress::B)
        } else {
            None
        },
    }
}

/// Classifies a frame from `src`; the flag tells that nothing matched and
/// ingress A was taken by default.
pub fn classify_ingress(src: IpAddress, directive: Option<Ingress>, prefixes: &TunIngressConfig) -> (r: (Ingress, bool))
    ensures
        match ingress_of(src, directive, *prefixes) {
            Some(i) => r == (i, false),
            None => r == (Ingress::A, true),
        },
{
    if let Some(i) = directive {
        return (i, false);
    }
    if ip_in_prefix(&src, &prefixes.tun_a_prefix) {
        (Ingress::A, false)
    } else if ip_in_prefix(&src, &prefixes.tun_b_prefix) {
        (Ingress::B, false)
    } else if ip_in_prefix(&src, &prefixes.tun_a_ipv6_prefix) {
        (Ingress::A, false)
    } else if ip_in_prefix(&src, &prefixes.tun_b_ipv6_prefix) {
        (Ingress::B, false)
    } else {
        (Ingress::A, true)
    }
}

// ---------------------------------------------------------------------------
// Packet files: one hex-encoded frame per line.

pub open spec fn hex_value(c: char) -> Option<nat> {
    if '0' <= c <= '9' {
        Some((c as u32 - '0' as u32) as nat)
    } else if 'a' <= c <= 'f' {
        Some((c as u32 - 'a' as u32 + 10) as nat)
    } else if 'A' <= c <= 'F' {
        Some((c as u32 - 'A' as u32 + 10) as nat)
    } else {
        None
    }
}

/// An even number of hex digits.
pub open spec fn is_hex(s: Seq<char>) -> bool {
    s.len() % 2 == 0 && forall|i: int| 0 <= i < s.len() ==> (#[trigger] hex_value(s[i])) is Some
}

/// The bytes the hex digits `s` spell, two digits each, high nibble first.
pub open spec fn hex_bytes(s: Seq<char>) -> Seq<u8> {
    Seq::new(s.len() / 2, |i: int| (hex_value(s[2 * i])->0 * 16 + hex_value(s[2 * i + 1])->0) as u8)
}

pub open spec fn lower_hex_digit(n: nat) -> char {
    if n < 10 {
        ('0' as u32 + n) as char
    } else {
        ('a' as u32 + n - 10) as char
    }
}

/// `b` in lower-case hex, two digits per byte.
pub open spec fn hex_text(b: Seq<u8>) -> Seq<char> {
    Seq::new(2 * b.len(), |i: int| if i % 2 == 0 { lower_hex_digit(b[i / 2] as nat / 16) } else { lower_hex_digit(b[i / 2] as nat % 16) })
}

/// Relies on hex::decode: it accepts exactly an even number of hex digits of
/// either case and returns the bytes they spell.
#[verifier::external_body]
fn hex_decode(s: &str) -> (r: Option<Vec<u8>>)
    ensures
        r is Some <==> is_hex(s@),
        r matches Some(v) ==> v@ == hex_bytes(s@),
{
    hex::decode(s).ok()
}

/// Relies on hex::encode: two lower-case hex digits per byte.
#[verifier::external_body]
fn hex_encode(b: &[u8]) -> (r: String)
    ensures
        r@ == hex_text(b@),
{
    hex::encode(b)
}

/// The Unicode White_Space characters, which `char::is_whitespace` accepts.
pub open spec fn is_white_space(c: char) -> bool {
    let u = c as u32;
    ||| 0x09 <= u <= 0x0D
    ||| u == 0x20 || u == 0x85 || u == 0xA0 || u == 0x1680
    ||| 0x2000 <= u <= 0x200A
    ||| u == 0x2028 || u == 0x2029 || u == 0x202F || u == 0x205F || u == 0x3000
}

/// How many white-space characters `s` starts with.
pub open spec fn leading_white(s: Seq<char>) -> nat
    decreases s.len(),
{
    if s.len() > 0 && is_white_space(s[0]) {
        1 + leading_white(s.drop_first())
    } else {
        0
    }
}

/// How many white-space characters `s` ends with.
pub open spec fn trailing_white(s: Seq<char>) -> nat
    decreases s.len(),
{
    if s.len() > 0 && is_white_space(s.last()) {
        1 + trailing_white(s.drop_last())
    } else {
        0
    }
}

/// `s` without its leading and trailing white space.
pub open spec fn trimmed(s: Seq<char>) -> Seq<char> {
    if leading_white(s) >= s.len() {
        Seq::empty()
    } else {
        s.subrange(leading_white(s) as int, s.len() - trailing_white(s))
    }
}

/// Relies on `str::trim`: it strips leading and trailing characters for which
/// `char::is_whitespace` (Unicode White_Space) holds.
#[verifier::external_body]
fn trim_text<'a>(s: &'a str) -> (r: &'a str)
    ensures
        r@ == trimmed(s@),
{
    s.trim()
}

/// A line of a packet file.
#[derive(Debug)]
pub enum PacketLine {
    /// Blank or a `#` comment.
    Skip,
    /// A frame, hex-decoded.
    Frame(Vec<u8>),
    /// Not valid hex: warned about and skipped.
    Invalid,
}

/// Reads a line of a packet file.
pub fn parse_packet_line(line: &str) -> (r: PacketLine)
    ensures
        ({
            let t = trimmed(line@);
            if t.len() == 0 || t[0] == '#' {
                r is Skip
            } else if is_hex(t) {
                r matches PacketLine::Frame(v) && v@ == hex_bytes(t)
            } else {
                r is Invalid
            }
        }),
{
    let t = trim_text(line);
    if t.is_empty() {
        return PacketLine::Skip;
    }
    if t.get_char(0) == '#' {
        return PacketLine::Skip;
    }
    match hex_decode(t) {
        Some(v) => PacketLine::Frame(v),
        None => PacketLine::Invalid,
    }
}

/// A frame as a line of an output file: lower-case hex.
pub fn encode_frame(bytes: &[u8]) -> (r: String)
    ensures
        r@ == hex_text(bytes@),
{
    hex_encode(bytes)
}

// ---------------------------------------------------------------------------
// Synthetic traffic.

/// The bytes of a synthetic packet from `src` to `dst`: a header with TTL
/// (Hop Limit) 64 and the given protocol, then `size` zero bytes.
pub open spec fn is_synthetic_frame(r: Seq<u8>, src: IpAddress, dst: IpAddress, protocol: u8, size: nat) -> bool {
    if src is V4 {
        &&& r.len() == 20 + size
        &&& r[0] == 0x45 && r[1] == 0
        &&& r[2] as nat * 256 + r[3] as nat == 20 + size
        &&& r[4] == 0 && r[5] == 0 && r[6] == 0 && r[7] == 0
        &&& r[8] == 64 && r[9] == protocol
        &&& r[10] as int * 256 + r[11] as int == ipv4_checksum(r)
        &&& be_value(r.subrange(12, 16)) == v4_value(src)
        &&& be_value(r.subrange(16, 20)) == v4_value(dst)
        &&& forall|i: int| 20 <= i < r.len() ==> r[i] == 0
    } else {
        &&& r.len() == 40 + size
        &&& r[0] == 0x60 && r[1] == 0 && r[2] == 0 && r[3] == 0
        &&& r[4] as nat * 256 + r[5] as nat == size
        &&& r[6] == protocol && r[7] == 64
        &&& be_value(r.subrange(8, 24)) == v6_value(src)
        &&& be_value(r.subrange(24, 40)) == v6_value(dst)
        &&& forall|i: int| 40 <= i < r.len() ==> r[i] == 0
    }
}

fn push_zeros(v: &mut Vec<u8>, n: usize)
    ensures
        final(v)@.len() == old(v)@.len() + n,
        final(v)@.subrange(0, old(v)@.len() as int) == old(v)@,
        forall|i: int| old(v)@.len() <= i < final(v)@.len() ==> final(v)@[i] == 0,
{
    let mut k: usize = 0;
    while k < n
        invariant
            k <= n,
            v@.len() == old(v)@.len() + k,
            v@.subrange(0, old(v)@.len() as int) == old(v)@,
            forall|i: int| old(v)@.len() <= i < v@.len() ==> v@[i] == 0,
        decreases n - k,
    {
        v.push(0);
        k = k + 1;
        proof {
            assert(v@.subrange(0, old(v)@.len() as int) =~= old(v)@);
        }
    }
}

/// A synthetic packet for the traffic generator; `None` when the two
/// addresses are of different families or the payload does not fit the
/// header's 16-bit length field.
pub fn synthetic_packet(src: IpAddress, dst: IpAddress, protocol: u8, size: usize) -> (r: Option<PacketMeta>)
    ensures
        r is Some <==> ((src is V4 && dst is V4 && size <= 65515) || (src is V6 && dst is V6 && size <= 65535)),
        r matches Some(p) ==> {
            &&& p.src_ip == src && p.dst_ip == dst
            &&& p.protocol == protocol && p.ttl == 64
            &&& p.src_port == 0 && p.dst_port == 0
            &&& is_synthetic_frame(p.raw@, src, dst, protocol, size as nat)
        },
{
    match (src, dst) {
        (IpAddress::V4(s), IpAddress::V4(d)) => {
            if size > 65515 {
                return None;
            }
            let total: usize = 20 + size;
            let mut raw: Vec<u8> = Vec::new();
            raw.push(0x45);
            raw.push(0);
            raw.push((total / 256) as u8);
            raw.push((total % 256) as u8);
            raw.push(0);
            raw.push(0);
            raw.push(0);
            raw.push(0);
            raw.push(64);
            raw.push(protocol);
            raw.push(0);
            raw.push(0);
            let ghost h0 = raw@;
            proof {
                reveal_with_fuel(pow256, 5);
            }
            let sb = write_be(s as u128, 4);
            let db = write_be(d as u128, 4);
            crate::bytes::append_range(&mut raw, sb.as_slice(), 0, 4);
            crate::bytes::append_range(&mut raw, db.as_slice(), 0, 4);
            proof {
                assert(sb@.subrange(0, 4) =~= sb@);
                assert(db@.subrange(0, 4) =~= db@);
                assert(raw@.subrange(12, 16) =~= sb@);
                assert(raw@.subrange(16, 20) =~= db@);
                assert(raw@.subrange(0, 12) =~= h0);
            }
            let ghost head = raw@;
            push_zeros(&mut raw, size);
            proof {
                assert(raw@.subrange(12, 16) =~= head.subrange(12, 16));
                assert(raw@.subrange(16, 20) =~= head.subrange(16, 20));
            }
            let ghost before = raw@;
            update_ipv4_checksum(&mut raw);
            proof {
                assert(raw@.subrange(12, 16) =~= before.subrange(12, 16));
                assert(raw@.subrange(16, 20) =~= before.subrange(16, 20));
                assert(before.subrange(0, 20) =~= head);
                assert(forall|i: int| 0 <= i < 10 ==> raw@[i] == before[i] && before[i] == head[i] && head[i] == h0[i]);
                assert(raw@[2] as nat * 256 + raw@[3] as nat == 20 + size);
                assert(forall|i: int| 20 <= i < raw@.len() ==> raw@[i] == before[i]);
                assert(is_synthetic_frame(raw@, src, dst, protocol, size as nat));
            }
            Some(PacketMeta { src_ip: src, dst_ip: dst, src_port: 0, dst_port: 0, protocol, ttl: 64, raw })
        },
        (IpAddress::V6(s), IpAddress::V6(d)) => {
            if size > 65535 {
                return None;
            }
            let mut raw: Vec<u8> = Vec::new();
            raw.push(0x60);
            raw.push(0);
            raw.push(0);
            raw.push(0);
            raw.push((size / 256) as u8);
            raw.push((size % 256) as u8);
            raw.push(protocol);
            raw.push(64);
            let ghost h0 = raw@;
            proof {
                reveal_with_fuel(pow256, 17);
                assert(h0 =~= seq![0x60u8, 0u8, 0u8, 0u8, (size / 256) as u8, (size % 256) as u8, protocol, 64u8]);
            }
            let sb = write_be(s, 16);
            let db = write_be(d, 16);
            crate::bytes::append_range(&mut raw, sb.as_slice(), 0, 16);
            crate::bytes::append_range(&mut raw, db.as_slice(), 0, 16);
            proof {
                assert(sb@.subrange(0, 16) =~= sb@);
                assert(db@.subrange(0, 16) =~= db@);
                assert(raw@.subrange(8, 24) =~= sb@);
                assert(raw@.subrange(24, 40) =~= db@);
                assert(raw@.subrange(0, 8) =~= h0);
            }
            let ghost head = raw@;
            push_zeros(&mut raw, size);
            proof {
                assert(raw@.subrange(8, 24) =~= head.subrange(8, 24));
                assert(raw@.subrange(24, 40) =~= head.subrange(24, 40));
                assert(raw@.subrange(0, 40) =~= head);
                assert(raw@.subrange(0, 8) =~= h0);
                assert(forall|i: int| 0 <= i < 8 ==> raw@[i] == #[trigger] h0[i]) by {
                    assert forall|i: int| 0 <= i < 8 implies raw@[i] == #[trigger] h0[i] by {
                        assert(raw@.subrange(0, 8)[i] == raw@[i]);
                    }
                }
                assert(raw@[0] == h0[0] && raw@[1] == h0[1] && raw@[2] == h0[2] && raw@[3] == h0[3]);
                assert(raw@[6] == h0[6] && raw@[7] == h0[7]);
                assert(h0[4] == (size / 256) as u8);
                assert(h0[5] == (size % 256) as u8);
                assert(size / 256 < 256);
                assert(((size / 256) as u8) as nat == size / 256);
                assert(((size % 256) as u8) as nat == size % 256);
                assert(raw@[4] as nat * 256 + raw@[5] as nat == size);
                assert(raw@.len() == 40 + size);
                assert(raw@[0] == 0x60 && raw@[1] == 0 && raw@[2] == 0 && raw@[3] == 0);
                assert(raw@[6] == protocol && raw@[7] == 64);
                assert(be_value(raw@.subrange(8, 24)) == v6_value(src));
                assert(be_value(raw@.subrange(24, 40)) == v6_value(dst));
                assert(forall|i: int| 40 <= i < raw@.len() ==> raw@[i] == 0);
                assert(is_synthetic_frame(raw@, src, dst, protocol, size as nat));
            }
            Some(PacketMeta { src_ip: src, dst_ip: dst, src_port: 0, dst_port: 0, protocol, ttl: 64, raw })
        },
        _ => None,
    }
}

/// A line made only of white space trims to nothing, so it is skipped.
pub proof fn lemma_blank_line_trims_empty(s: Seq<char>)
    requires
        forall|i: int| 0 <= i < s.len() ==> is_white_space(#[trigger] s[i]),
    ensures
        leading_white(s) == s.len(),
        trimmed(s).len() == 0,
    decreases s.len(),
{
    if s.len() > 0 {
        let t = s.drop_first();
        assert forall|i: int| 0 <= i < t.len() implies is_white_space(#[trigger] t[i]) by {
            assert(t[i] == s[i + 1]);
        }
        lemma_blank_line_trims_empty(t);
        assert(is_white_space(s[0]));
    }
}

// ---------------------------------------------------------------------------
// Linux TUN framing: a 4-byte header (two flag bytes, then the EtherType)
// before each packet.

/// `b` starts with a TUN header carrying IPv4 (0x0800) or IPv6 (0x86DD).
pub open spec fn tun_framed(b: Seq<u8>) -> bool {
    b.len() >= 4 && ((b[2] == 0x08 && b[3] == 0x00) || (b[2] == 0x86 && b[3] == 0xDD))
}

/// The packet inside a frame read from a TUN device: the header is dropped
/// when there is one, else the frame is the packet.
pub fn strip_tun_header(b: &[u8]) -> (r: Vec<u8>)
    ensures
        tun_framed(b@) ==> r@ == b@.subrange(4, b@.len() as int),
        !tun_framed(b@) ==> r@ == b@,
{
    let n = b.len();
    if n >= 4 && ((b[2] == 0x08 && b[3] == 0x00) || (b[2] == 0x86 && b[3] == 0xDD)) {
        crate::bytes::copy_range(b, 4, n)
    } else {
        proof {
            assert(b@.subrange(0, n as int) =~= b@);
        }
        crate::bytes::copy_range(b, 0, n)
    }
}

/// The frame written to a TUN device for packet `p`: zero flags and the
/// EtherType of the destination's family, then the packet.
pub fn add_tun_header(p: &PacketMeta) -> (r: Vec<u8>)
    ensures
        r@ == (if p.dst_ip is V4 {
            seq![0u8, 0u8, 0x08u8, 0x00u8]
        } else {
            seq![0u8, 0u8, 0x86u8, 0xDDu8]
        }) + p.raw@,
{
    let mut r: Vec<u8> = Vec::new();
    r.push(0);
    r.push(0);
    match p.dst_ip {
        IpAddress::V4(_) => {
            r.push(0x08);
            r.push(0x00);
        },
        IpAddress::V6(_) => {
            r.push(0x86);
            r.push(0xDD);
        },
    }
    let ghost head = r@;
    crate::bytes::append_range(&mut r, p.raw.as_slice(), 0, p.raw.len());
    proof {
        assert(p.raw@.subrange(0, p.raw@.len() as int) =~= p.raw@);
        assert(head =~= (if p.dst_ip is V4 {
            seq![0u8, 0u8, 0x08u8, 0x00u8]
        } else {
            seq![0u8, 0u8, 0x86u8, 0xDDu8]
        }));
    }
    r
}

} // verus!
