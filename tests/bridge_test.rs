use network_simulator::bridge::{
    classify_ingress, destination_for, encode_frame, ip_in_prefix, parse_direction, parse_packet_line,
    synthetic_packet, Ingress, PacketLine,
};
use network_simulator::config::TunIngressConfig;
use network_simulator::packet::{parse, IpAddress};
use network_simulator::routing::Destination;

fn v4(a: u8, b: u8, c: u8, d: u8) -> IpAddress {
    IpAddress::V4(u32::from_be_bytes([a, b, c, d]))
}

fn v6(segments: [u16; 8]) -> IpAddress {
    IpAddress::V6(segments.iter().fold(0u128, |acc, s| (acc << 16) | *s as u128))
}

fn v6_octets(segments: [u16; 8]) -> [u8; 16] {
    match v6(segments) {
        IpAddress::V6(x) => x.to_be_bytes(),
        IpAddress::V4(_) => unreachable!(),
    }
}

#[test]
fn packet_lines() {
    assert!(matches!(parse_packet_line("# a comment"), PacketLine::Skip));
    assert!(matches!(parse_packet_line("   "), PacketLine::Skip));
    assert!(matches!(parse_packet_line("zz"), PacketLine::Invalid));
    assert!(matches!(parse_packet_line("abc"), PacketLine::Invalid));
    match parse_packet_line("450000140000000040060000c0a80101c0a80102\n") {
        PacketLine::Frame(v) => {
            assert_eq!(v.len(), 20);
            assert_eq!(v[0], 0x45);
            assert_eq!(&v[12..16], &[192, 168, 1, 1]);
        }
        _ => panic!("expected a frame"),
    }
    assert_eq!(encode_frame(&[0x45, 0x00, 0xab, 0x0f]), "4500ab0f");
}

#[test]
fn prefixes_and_classification() {
    let p = "10.0.0.0/8".to_string();
    assert!(ip_in_prefix(&v4(10, 1, 2, 3), &p));
    assert!(!ip_in_prefix(&v4(11, 1, 2, 3), &p));
    assert!(!ip_in_prefix(&v4(10, 1, 2, 3), &"".to_string()));
    assert!(!ip_in_prefix(&v4(10, 1, 2, 3), &"10.".to_string()));
    let cfg = TunIngressConfig {
        tun_a_ingress: "Rx0y0".to_string(),
        tun_b_ingress: "Rx5y5".to_string(),
        tun_a_prefix: "10.0.0.0/16".to_string(),
        tun_b_prefix: "10.1.0.0/16".to_string(),
        tun_a_ipv6_prefix: "2001:db8:a::/48".to_string(),
        tun_b_ipv6_prefix: "2001:db8:b::/48".to_string(),
    };
    assert_eq!(classify_ingress(v4(10, 0, 3, 4), None, &cfg), (Ingress::A, false));
    assert_eq!(classify_ingress(v4(10, 1, 3, 4), None, &cfg), (Ingress::B, false));
    assert_eq!(classify_ingress(v6([0x2001, 0xdb8, 0xb, 0, 0, 0, 0, 7]), None, &cfg), (Ingress::B, false));
    assert_eq!(classify_ingress(v4(192, 168, 0, 1), None, &cfg), (Ingress::A, true));
    assert_eq!(classify_ingress(v4(10, 0, 3, 4), Some(Ingress::B), &cfg), (Ingress::B, false));
    assert_eq!(destination_for(Ingress::A), Destination::TunB);
    assert_eq!(destination_for(Ingress::B), Destination::TunA);
    assert_eq!(parse_direction(&"tun_b".to_string()), Some(Ingress::B));
    assert_eq!(parse_direction(&"x".to_string()), None);
}

#[test]
fn synthetic_packets_parse_back() {
    let p = synthetic_packet(v4(10, 0, 0, 1), v4(10, 0, 1, 1), 17, 12).unwrap();
    assert_eq!(p.raw.len(), 32);
    let q = parse(&p.raw).unwrap();
    assert_eq!(q.src_ip, p.src_ip);
    assert_eq!(q.dst_ip, p.dst_ip);
    assert_eq!(q.ttl, 64);
    assert_eq!(q.protocol, 17);
    let s = synthetic_packet(v6([0x2001, 0xdb8, 0, 0, 0, 0, 0, 1]), v6([0x2001, 0xdb8, 0, 0, 0, 0, 0, 2]), 6, 8).unwrap();
    assert_eq!(s.raw.len(), 48);
    assert_eq!(parse(&s.raw).unwrap().dst_ip, v6([0x2001, 0xdb8, 0, 0, 0, 0, 0, 2]));
    assert!(synthetic_packet(v4(10, 0, 0, 1), v6([0, 0, 0, 0, 0, 0, 0, 1]), 6, 0).is_none());
}
