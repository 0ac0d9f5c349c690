use network_simulator::icmp::{self, generate_icmpv6_error};
use network_simulator::packet::{parse, IpAddress, PacketMeta};

fn v4(a: u8, b: u8, c: u8, d: u8) -> IpAddress {
    IpAddress::V4(u32::from_be_bytes([a, b, c, d]))
}

fn v6(segments: [u16; 8]) -> IpAddress {
    IpAddress::V6(segments.iter().fold(0u128, |acc, s| (acc << 16) | *s as u128))
}

fn v6_octets(segments: [u16; 8]) -> [u8; 16] {
    match v6(segments) {
        IpAddress::V6(x) => x.to_be_bytes(),
        IpAddress::V4(_) => unreachable!(),
    }
}

fn ones_complement(data: &[u8]) -> u32 {
    let mut sum: u32 = 0;
    let mut i = 0;
    while i + 1 < data.len() {
        sum += u16::from_be_bytes([data[i], data[i + 1]]) as u32;
        i += 2;
    }
    if i < data.len() {
        sum += (data[i] as u32) << 8;
    }
    while sum >> 16 != 0 {
        sum = (sum & 0xffff) + (sum >> 16);
    }
    sum
}

#[test]
fn test_generate_icmpv6_time_exceeded() {
    let raw = vec![
        0x60, 0, 0, 0, 0, 0, 6, 64, 0x20, 0x01, 0x0d, 0xb8, 0, 0, 0, 0, 0, 0, 0, 0, 0, 0, 0, 1, 0x20, 0x01, 0x0d, 0xb8,
        0, 0, 0, 0, 0, 0, 0, 0, 0, 0, 0, 2,
    ];
    let packet = parse(&raw).expect("parse IPv6 packet");
    let icmp = generate_icmpv6_error(&packet, 3, 0);
    assert_eq!(icmp[0] >> 4, 6);
    assert_eq!(icmp[6], 58);
    assert_eq!(icmp[40], 3);
    assert_eq!(icmp[41], 0);
    let checksum = ((icmp[42] as u16) << 8) | (icmp[43] as u16);
    assert_ne!(checksum, 0);
}

#[test]
fn test_generate_fragmentation_needed() {
    let src_ip: [u8; 4] = [192, 168, 0, 1];
    let dst_ip: [u8; 4] = [192, 168, 0, 2];
    let mut raw = vec![0u8; 20];
    raw[0] = 0x45;
    raw[9] = 6;
    raw[12..16].copy_from_slice(&src_ip);
    raw[16..20].copy_from_slice(&dst_ip);
    let packet = PacketMeta {
        src_ip: IpAddress::V4(u32::from_be_bytes(src_ip)),
        dst_ip: IpAddress::V4(u32::from_be_bytes(dst_ip)),
        src_port: 0,
        dst_port: 0,
        protocol: 6,
        ttl: 64,
        raw,
    };
    let mtu = 1500u32;
    let icmp_pkt = icmp::generate_fragmentation_needed(&packet, mtu);
    assert!(icmp_pkt.len() >= 28);
    assert_eq!(icmp_pkt[20], 3);
    assert_eq!(icmp_pkt[21], 4);
    // The next-hop MTU is the last two bytes of the rest-of-header.
    let mtu_bytes = &icmp_pkt[26..28];
    assert_eq!(u16::from_be_bytes([mtu_bytes[0], mtu_bytes[1]]), mtu as u16);
}

fn sample_v4(ttl: u8) -> PacketMeta {
    let mut raw = vec![0u8; 40];
    raw[0] = 0x45;
    raw[3] = 40;
    raw[8] = ttl;
    raw[9] = 6;
    raw[12..16].copy_from_slice(&[10, 0, 0, 1]);
    raw[16..20].copy_from_slice(&[10, 0, 1, 1]);
    parse(&raw).unwrap()
}

#[test]
fn icmpv4_reply_round_trip_swaps_addresses() {
    let p = sample_v4(1);
    let bytes = icmp::icmp_time_exceeded(&p);
    assert_eq!(bytes.len(), 28 + 28);
    let reply = parse(&bytes).expect("reply parses");
    assert_eq!(reply.src_ip, v4(10, 0, 1, 1));
    assert_eq!(reply.dst_ip, v4(10, 0, 0, 1));
    assert_eq!(reply.protocol, 1);
    assert_eq!(reply.ttl, 64);
    assert_eq!(bytes[20], 11);
    assert_eq!(bytes[21], 0);
    assert_eq!(&bytes[28..56], &p.raw[..28]);
    // Both checksums verify.
    assert_eq!(ones_complement(&bytes[..20]), 0xffff);
    assert_eq!(ones_complement(&bytes[20..]), 0xffff);
}

#[test]
fn icmpv4_dest_unreachable_codes() {
    let p = sample_v4(30);
    let b = icmp::icmp_dest_unreachable(&p);
    assert_eq!((b[20], b[21]), (3, 0));
    assert_eq!(&b[24..28], &[0, 0, 0, 0]);
    let f = icmp::icmp_frag_needed(&p, 100);
    assert_eq!((f[20], f[21]), (3, 4));
    assert_eq!(&f[24..28], &[0, 0, 0, 100]);
}

#[test]
fn icmpv4_quote_shorter_than_28() {
    let mut raw = vec![0u8; 20];
    raw[0] = 0x45;
    raw[3] = 20;
    raw[8] = 9;
    let p = parse(&raw).unwrap();
    let b = icmp::generate_icmp_error(&p, 3, 0);
    assert_eq!(b.len(), 48);
    assert_eq!(u16::from_be_bytes([b[2], b[3]]), 48);
}

fn sample_v6(len: usize) -> PacketMeta {
    let mut raw = vec![0u8; len];
    raw[0] = 0x60;
    raw[6] = 17;
    raw[7] = 64;
    raw[8..24].copy_from_slice(&v6_octets([0x2001, 0xdb8, 0, 0, 0, 0, 0, 1]));
    raw[24..40].copy_from_slice(&v6_octets([0x2001, 0xdb8, 0, 0, 0, 0, 0, 2]));
    parse(&raw).unwrap()
}

#[test]
fn icmpv6_reply_round_trip_and_checksum() {
    let p = sample_v6(200);
    let b = icmp::icmpv6_packet_too_big(&p, 100);
    assert_eq!(b.len(), 48 + 200);
    let reply = parse(&b).unwrap();
    assert_eq!(reply.src_ip, v6([0x2001, 0xdb8, 0, 0, 0, 0, 0, 2]));
    assert_eq!(reply.dst_ip, v6([0x2001, 0xdb8, 0, 0, 0, 0, 0, 1]));
    assert_eq!(reply.protocol, 58);
    assert_eq!((b[40], b[41]), (2, 0));
    assert_eq!(&b[44..48], &[0, 0, 0, 100]);
    assert_eq!(u16::from_be_bytes([b[4], b[5]]) as usize, b.len() - 40);
    // Pseudo-header plus message sums to all ones.
    let mut all = Vec::new();
    all.extend_from_slice(&b[8..40]);
    all.extend_from_slice(&((b.len() - 40) as u32).to_be_bytes());
    all.extend_from_slice(&[0, 0, 0, 58]);
    all.extend_from_slice(&b[40..]);
    assert_eq!(ones_complement(&all), 0xffff);
}

#[test]
fn icmpv6_quote_is_cut_at_minimum_mtu() {
    let p = sample_v6(2000);
    let b = icmp::icmpv6_time_exceeded(&p);
    assert_eq!(b.len(), 1280);
    let u = icmp::icmpv6_dest_unreachable(&p);
    assert_eq!((u[40], u[41]), (1, 0));
}
