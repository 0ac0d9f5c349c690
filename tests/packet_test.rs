use network_simulator::packet::{calculate_ipv4_checksum, parse, update_ipv4_checksum, IpAddress, PacketError, ParseError};

/// The usual text form of an address (IPv6 with the longest zero run shortened).
fn show(a: IpAddress) -> String {
    match a {
        IpAddress::V4(x) => {
            let b = x.to_be_bytes();
            format!("{}.{}.{}.{}", b[0], b[1], b[2], b[3])
        }
        IpAddress::V6(x) => {
            let segs: Vec<u16> = (0..8).map(|i| (x >> (112 - 16 * i)) as u16).collect();
            let (mut best, mut best_len, mut i) = (8, 0, 0);
            while i < 8 {
                let mut j = i;
                while j < 8 && segs[j] == 0 {
                    j += 1;
                }
                if j - i > best_len && j - i >= 2 {
                    best = i;
                    best_len = j - i;
                }
                i = j.max(i + 1);
            }
            let part = |s: &[u16]| s.iter().map(|v| format!("{:x}", v)).collect::<Vec<_>>().join(":");
            if best_len == 0 {
                part(&segs)
            } else {
                format!("{}::{}", part(&segs[..best]), part(&segs[best + best_len..]))
            }
        }
    }
}

/// One's-complement sum over the whole header, checksum field included.
fn folded_header_sum(raw: &[u8]) -> u32 {
    let n = ((raw[0] & 0x0f) as usize) * 4;
    let mut sum: u32 = 0;
    let mut i = 0;
    while i < n {
        sum += u16::from_be_bytes([raw[i], raw[i + 1]]) as u32;
        i += 2;
    }
    while sum >> 16 != 0 {
        sum = (sum & 0xffff) + (sum >> 16);
    }
    sum
}

#[test]
fn test_ipv4_parse_minimal() {
    let data = vec![
        0x45, 0x00, 0x00, 0x14, 0x00, 0x00, 0x00, 0x00, 0x40, 0x06, 0x00, 0x00, 192, 168, 1, 1, 192, 168, 1, 2,
    ];
    let meta = parse(&data).expect("parse should succeed");
    assert_eq!(meta.ttl, 64);
    assert_eq!(meta.protocol, 6);
    assert_eq!(show(meta.src_ip), "192.168.1.1");
    assert_eq!(show(meta.dst_ip), "192.168.1.2");
}

#[test]
fn test_ipv6_parse_minimal() {
    let data = vec![
        0x60, 0x00, 0x00, 0x00, 0x00, 0x08, 0x11, 0x40, 0x20, 0x01, 0x0d, 0xb8, 0x00, 0x00, 0x00, 0x00, 0x00, 0x00,
        0x00, 0x00, 0x00, 0x00, 0x00, 0x01, 0x20, 0x01, 0x0d, 0xb8, 0x00, 0x00, 0x00, 0x00, 0x00, 0x00, 0x00, 0x00,
        0x00, 0x00, 0x00, 0x02,
    ];
    let meta = parse(&data).expect("IPv6 parse should succeed");
    assert_eq!(meta.ttl, 64);
    assert_eq!(meta.protocol, 17);
    assert_eq!(show(meta.src_ip), "2001:db8::1");
    assert_eq!(show(meta.dst_ip), "2001:db8::2");
}

#[test]
fn test_raw_packet_ttl_decrement_preserves_raw() {
    let raw: Vec<u8> = vec![
        0x45, 0x00, 0x00, 0x14, 0x00, 0x00, 0x00, 0x00, 0x40, 0x06, 0x00, 0x00, 10, 0, 0, 1, 10, 0, 0, 2,
    ];
    let packet = parse(&raw).expect("parse failed");
    assert_eq!(packet.ttl, 64);
    assert_eq!(packet.raw[8], 64);
    let mut pkt = packet.clone();
    pkt.decrement_ttl().expect("decrement failed");
    assert_eq!(pkt.ttl, 63);
    assert_eq!(pkt.raw[8], 63);
    // Bytes 10..12 hold the recomputed header checksum; all others are kept.
    for i in 0..8 {
        assert_eq!(pkt.raw[i], raw[i]);
    }
    for i in 9..raw.len() {
        if i != 10 && i != 11 {
            assert_eq!(pkt.raw[i], raw[i]);
        }
    }
}

#[test]
fn decrement_keeps_ipv4_checksum_valid() {
    let raw: Vec<u8> = vec![
        0x45, 0x00, 0x00, 0x1c, 0x12, 0x34, 0x40, 0x00, 0x05, 0x11, 0x00, 0x00, 172, 16, 3, 9, 10, 1, 2, 3, 0x04, 0xd2,
        0x00, 0x35, 0x00, 0x08, 0x00, 0x00,
    ];
    let mut pkt = parse(&raw).unwrap();
    pkt.decrement_ttl().unwrap();
    assert_eq!(pkt.ttl, 4);
    assert_eq!(pkt.raw[8], 4);
    assert_eq!(folded_header_sum(&pkt.raw), 0xffff);
    assert_eq!(pkt.src_port, 1234);
    assert_eq!(pkt.dst_port, 53);
}

#[test]
fn decrement_ipv6_hop_limit() {
    let mut raw = vec![0u8; 40];
    raw[0] = 0x60;
    raw[6] = 6;
    raw[7] = 9;
    let mut pkt = parse(&raw).unwrap();
    pkt.decrement_ttl().unwrap();
    assert_eq!(pkt.ttl, 8);
    assert_eq!(pkt.raw[7], 8);
}

#[test]
fn decrement_at_zero_fails() {
    let mut raw = vec![0u8; 20];
    raw[0] = 0x45;
    raw[3] = 20;
    let mut pkt = parse(&raw).unwrap();
    assert_eq!(pkt.ttl, 0);
    assert_eq!(pkt.decrement_ttl(), Err(PacketError::TtlZero));
    assert_eq!(pkt.raw, raw);
}

#[test]
fn parse_errors() {
    assert_eq!(parse(&[0x45u8; 10]).unwrap_err(), ParseError::TooShort);
    let mut v4 = vec![0u8; 20];
    v4[0] = 0x44;
    assert_eq!(parse(&v4).unwrap_err(), ParseError::InvalidIhl);
    v4[0] = 0x45;
    v4[2] = 0;
    v4[3] = 40;
    assert_eq!(parse(&v4).unwrap_err(), ParseError::TooShort);
    let mut v6 = vec![0u8; 30];
    v6[0] = 0x60;
    assert_eq!(parse(&v6).unwrap_err(), ParseError::TooShort);
    let mut hbh = vec![0u8; 41];
    hbh[0] = 0x60;
    hbh[6] = 0;
    assert_eq!(parse(&hbh).unwrap_err(), ParseError::HopByHopTruncated);
    let mut v7 = vec![0u8; 40];
    v7[0] = 0x70;
    assert_eq!(parse(&v7).unwrap_err(), ParseError::UnsupportedVersion);
}

#[test]
fn parse_hop_by_hop_ports() {
    let mut raw = vec![0u8; 52];
    raw[0] = 0x60;
    raw[6] = 0; // Hop-by-Hop follows
    raw[7] = 33;
    raw[40] = 17; // UDP after it
    raw[41] = 0; // 8 bytes long
    raw[48] = 0x1f;
    raw[49] = 0x90;
    raw[50] = 0x00;
    raw[51] = 0x50;
    let p = parse(&raw).unwrap();
    assert_eq!(p.protocol, 17);
    assert_eq!(p.ttl, 33);
    assert_eq!(p.src_port, 8080);
    assert_eq!(p.dst_port, 80);
}

#[test]
fn ipv4_checksum_known_value() {
    // Example header from RFC 1071 style checks: 4500 0073 0000 4000 4011 ---- c0a8 0001 c0a8 00c7
    let h = vec![
        0x45, 0x00, 0x00, 0x73, 0x00, 0x00, 0x40, 0x00, 0x40, 0x11, 0xaa, 0xbb, 0xc0, 0xa8, 0x00, 0x01, 0xc0, 0xa8,
        0x00, 0xc7,
    ];
    assert_eq!(calculate_ipv4_checksum(&h), 0xb861);
    let mut v = h.clone();
    update_ipv4_checksum(&mut v);
    assert_eq!(v[10], 0xb8);
    assert_eq!(v[11], 0x61);
    assert_eq!(calculate_ipv4_checksum(&h[..10]), 0);
}
