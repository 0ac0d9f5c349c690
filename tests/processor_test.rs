use network_simulator::fabric::Fabric;
use network_simulator::forwarding::{select_egress_link, select_egress_link_multi};
use network_simulator::packet::{parse, IpAddress, PacketMeta};
use network_simulator::processor::{forward_hop, process_packet, process_packet_multi, Hop, Routes, HOP_LIMIT};
use network_simulator::routing::{
    compute_multi_path_routing, compute_routing, Destination, MultiPathTable, RouteEntry, RouterMap, RoutingTable,
};
use network_simulator::simulation::{link_verdict, simulate_link, SimulationError};
use network_simulator::topology::{LinkConfig, Router, RouterId};
use rand::rngs::StdRng;
use rand::SeedableRng;

fn rid(s: &str) -> RouterId {
    RouterId(s.to_string())
}

fn v4(a: u8, b: u8, c: u8, d: u8) -> IpAddress {
    IpAddress::V4(u32::from_be_bytes([a, b, c, d]))
}

fn v6(segments: [u16; 8]) -> IpAddress {
    IpAddress::V6(segments.iter().fold(0u128, |acc, s| (acc << 16) | *s as u128))
}

fn v6_octets(segments: [u16; 8]) -> [u8; 16] {
    match v6(segments) {
        IpAddress::V6(x) => x.to_be_bytes(),
        IpAddress::V4(_) => unreachable!(),
    }
}

fn link(mtu: Option<u32>, delay_ms: u32, load_balance: bool) -> LinkConfig {
    LinkConfig { mtu, delay_ms, jitter_ms: 0, loss_basis_points: 0, load_balance }
}

fn two_routers(cfg: LinkConfig) -> Fabric {
    let mut fabric = Fabric::new();
    fabric.add_router(Router::new(rid("Rx0y0"))).unwrap();
    fabric.add_router(Router::new(rid("Rx0y1"))).unwrap();
    fabric.add_link(&rid("Rx0y0"), &rid("Rx0y1"), cfg).unwrap();
    fabric
}

fn ipv4_frame(src: [u8; 4], dst: [u8; 4], ttl: u8, protocol: u8, len: usize) -> Vec<u8> {
    let mut raw = vec![0u8; len];
    raw[0] = 0x45;
    raw[2] = (len >> 8) as u8;
    raw[3] = len as u8;
    raw[8] = ttl;
    raw[9] = protocol;
    raw[12..16].copy_from_slice(&src);
    raw[16..20].copy_from_slice(&dst);
    raw
}

fn header_sum(raw: &[u8]) -> u32 {
    let mut sum: u32 = 0;
    for i in (0..20).step_by(2) {
        sum += u16::from_be_bytes([raw[i], raw[i + 1]]) as u32;
    }
    while sum >> 16 != 0 {
        sum = (sum & 0xffff) + (sum >> 16);
    }
    sum
}

fn rng() -> StdRng {
    StdRng::seed_from_u64(42)
}

#[test]
fn test_destination_detection_stops_forwarding() {
    let mut fabric = two_routers(link(Some(1500), 0, false));
    let tables = compute_routing(&fabric, rid("Rx0y0"), rid("Rx0y1"));
    let raw = vec![0u8; 20];
    let packet = parse(&raw).unwrap_or(PacketMeta {
        src_ip: v4(10, 0, 0, 1),
        dst_ip: v4(10, 0, 1, 1),
        src_port: 0,
        dst_port: 0,
        protocol: 6,
        ttl: 64,
        raw,
    });
    let result = process_packet(&mut fabric, &tables, rid("Rx0y0"), packet, Destination::TunB, &mut rng()).packet;
    assert_eq!(result.ttl, 63, "TTL should be decremented by one hop");
    assert_eq!(result.src_ip, v4(10, 0, 0, 1));
    assert_eq!(result.dst_ip, v4(10, 0, 1, 1));
}

#[test]
fn test_end_to_end_packet_processing() {
    let mut fabric = two_routers(link(None, 0, false));
    let tables = compute_routing(&fabric, rid("Rx0y0"), rid("Rx0y1"));
    let raw = vec![0u8; 60];
    let raw_clone = raw.clone();
    let packet = parse(&raw).unwrap_or(PacketMeta {
        src_ip: v4(10, 0, 0, 1),
        dst_ip: v4(10, 0, 0, 2),
        src_port: 1234,
        dst_port: 80,
        protocol: 6,
        ttl: 64,
        raw: raw_clone,
    });
    let processed = process_packet(&mut fabric, &tables, rid("Rx0y0"), packet.clone(), Destination::TunB, &mut rng()).packet;
    assert_eq!(processed.raw[8], raw[8].saturating_sub(1));
    assert_eq!(processed.raw[9], raw[9]);
    let stats = fabric.get_statistics();
    let r0_stats = stats.get(&rid("Rx0y0")).unwrap();
    let r1_stats = stats.get(&rid("Rx0y1")).unwrap();
    assert_eq!(r0_stats.packets_received, 1);
    assert_eq!(r0_stats.packets_forwarded, 1);
    assert_eq!(r1_stats.packets_received, 1);
    assert_eq!(r1_stats.packets_forwarded, 0);
}

#[test]
fn test_icmp_destination_unreachable_generated() {
    let mut fabric = Fabric::new();
    fabric.add_router(Router::new(rid("Rx0y0"))).unwrap();
    let tables: RouterMap<RoutingTable> = RouterMap::new();
    let packet = PacketMeta {
        src_ip: v4(10, 0, 0, 1),
        dst_ip: v4(10, 0, 0, 2),
        src_port: 0,
        dst_port: 0,
        protocol: 6,
        ttl: 64,
        raw: vec![0u8; 20],
    };
    let processed = process_packet(&mut fabric, &tables, rid("Rx0y0"), packet, Destination::TunA, &mut rng()).packet;
    assert_eq!(processed.protocol, 1, "Expected ICMP protocol after routing failure");
    let router_stats = fabric.get_router(&rid("Rx0y0")).unwrap().stats;
    assert!(router_stats.icmp_generated > 0, "ICMP counter should be incremented");
}

#[test]
fn test_link_simulation_and_load_balancing() {
    let mut fabric = two_routers(link(Some(1500), 0, true));
    let mut tables = RouterMap::new();
    let entry = |h: &str| RouteEntry { next_hop: rid(h), total_cost: 0 };
    tables.insert(rid("Rx0y0"), RoutingTable { tun_a: entry("Rx0y1"), tun_b: entry("Rx0y1") });
    tables.insert(rid("Rx0y1"), RoutingTable { tun_a: entry("Rx0y0"), tun_b: entry("Rx0y0") });
    let packet = PacketMeta {
        src_ip: v4(10, 0, 0, 1),
        dst_ip: v4(10, 0, 0, 2),
        src_port: 1234,
        dst_port: 80,
        protocol: 6,
        ttl: 64,
        raw: vec![],
    };
    let links = fabric.incident_links(&rid("Rx0y0"));
    let selected = select_egress_link(&rid("Rx0y0"), &packet, &links, &tables, Destination::TunB).expect("link selected");
    assert!(selected.cfg.load_balance, "selected link should have load_balance enabled");
    let before = selected.counter;
    let j = fabric.links.iter().position(|l| l.id == selected.id).unwrap();
    simulate_link(&mut fabric.links[j], 0, &mut rng()).expect("simulation should succeed");
    let after = fabric.links[j].counter;
    assert_eq!(after, before + 1, "counter should increment");
}

#[test]
fn test_multipath_forwarding_load_balance() {
    let mut fabric = Fabric::new();
    for r in ["Rx0y0", "Rx0y1", "Rx0y2"] {
        fabric.add_router(Router::new(rid(r))).unwrap();
    }
    fabric.add_link(&rid("Rx0y0"), &rid("Rx0y1"), link(None, 1, true)).unwrap();
    fabric.add_link(&rid("Rx0y0"), &rid("Rx0y2"), link(None, 1, true)).unwrap();
    let ingress_a = rid("Rx0y0");
    let ingress_b = rid("Rx0y2");
    let tables: RouterMap<MultiPathTable> = compute_multi_path_routing(&fabric, ingress_a.clone(), ingress_b.clone());
    let incident = fabric.incident_links(&ingress_a);
    let packet1 = PacketMeta {
        src_ip: v4(10, 0, 0, 1),
        dst_ip: v4(10, 0, 2, 1),
        src_port: 1234,
        dst_port: 80,
        protocol: 6,
        ttl: 64,
        raw: vec![],
    };
    let packet2 = PacketMeta { src_ip: v4(10, 0, 0, 2), ..packet1.clone() };
    let link1 = select_egress_link_multi(&ingress_a, &packet1, incident.as_slice(), &tables, Destination::TunB)
        .expect("no link selected");
    let link2 = select_egress_link_multi(&ingress_a, &packet2, incident.as_slice(), &tables, Destination::TunB)
        .expect("no link selected");
    assert!(incident.iter().any(|l| l.id == link1.id));
    assert!(incident.iter().any(|l| l.id == link2.id));
    // Identical 5-tuples at identical counters choose identically.
    let again = select_egress_link_multi(&ingress_a, &packet1, incident.as_slice(), &tables, Destination::TunB).unwrap();
    assert_eq!(again.id, link1.id);
}

#[test]
fn two_router_forward_scenario() {
    let mut fabric = two_routers(link(None, 0, false));
    let tables = compute_routing(&fabric, rid("Rx0y0"), rid("Rx0y1"));
    let raw = ipv4_frame([10, 0, 0, 1], [10, 0, 1, 1], 64, 6, 40);
    let packet = parse(&raw).unwrap();
    let out = process_packet(&mut fabric, &tables, rid("Rx0y0"), packet, Destination::TunB, &mut rng());
    assert_eq!(out.hops, 2);
    assert_eq!(out.packet.ttl, 63);
    assert_eq!(out.packet.raw[8], 63);
    assert_eq!(header_sum(&out.packet.raw), 0xffff);
    assert_eq!(out.packet.src_ip, v4(10, 0, 0, 1));
    assert_eq!(out.packet.dst_ip, v4(10, 0, 1, 1));
    let r0 = fabric.get_router(&rid("Rx0y0")).unwrap().stats;
    let r1 = fabric.get_router(&rid("Rx0y1")).unwrap().stats;
    assert_eq!((r0.packets_received, r0.packets_forwarded), (1, 1));
    assert_eq!((r1.packets_received, r1.packets_forwarded), (1, 0));
    assert_eq!(fabric.links[0].counter, 1);
}

#[test]
fn mtu_exceeded_returns_packet_too_big() {
    let mut fabric = two_routers(link(Some(100), 0, false));
    let tables = compute_routing(&fabric, rid("Rx0y0"), rid("Rx0y1"));
    let mut raw = vec![0u8; 200];
    raw[0] = 0x60;
    raw[6] = 17;
    raw[7] = 64;
    raw[8..24].copy_from_slice(&v6_octets([0x2001, 0xdb8, 0, 0, 0, 0, 0, 1]));
    raw[24..40].copy_from_slice(&v6_octets([0x2001, 0xdb8, 0, 0, 0, 0, 0, 2]));
    let packet = parse(&raw).unwrap();
    let out = process_packet(&mut fabric, &tables, rid("Rx0y0"), packet, Destination::TunB, &mut rng());
    assert_eq!(out.packet.protocol, 58);
    assert_eq!(out.packet.src_ip, v6([0x2001, 0xdb8, 0, 0, 0, 0, 0, 2]));
    assert_eq!(out.packet.dst_ip, v6([0x2001, 0xdb8, 0, 0, 0, 0, 0, 1]));
    assert_eq!(out.packet.raw[40], 2);
    assert_eq!(fabric.get_router(&rid("Rx0y0")).unwrap().stats.icmp_generated, 1);
    assert_eq!(fabric.links[0].counter, 1);
}

#[test]
fn ttl_exceeded_returns_time_exceeded() {
    let mut fabric = two_routers(link(None, 0, false));
    let tables = compute_routing(&fabric, rid("Rx0y0"), rid("Rx0y1"));
    let packet = parse(&ipv4_frame([10, 0, 0, 1], [10, 0, 1, 1], 1, 6, 40)).unwrap();
    let out = process_packet(&mut fabric, &tables, rid("Rx0y0"), packet, Destination::TunB, &mut rng());
    assert_eq!(out.packet.protocol, 1);
    assert_eq!(out.packet.raw[20], 11);
    assert_eq!(out.packet.raw[21], 0);
    let router = fabric.get_router(&rid("Rx0y0")).unwrap();
    assert_eq!(out.packet.src_ip, v4(10, 0, 1, 1));
    assert_eq!(out.packet.dst_ip, v4(10, 0, 0, 1));
    assert_eq!(router.stats.packets_forwarded, 0);
    assert_eq!(router.stats.icmp_generated, 1);
    assert_eq!(fabric.links[0].counter, 0);
}

#[test]
fn first_hop_with_ttl_one_replies_without_forwarding() {
    let mut fabric = two_routers(link(None, 0, false));
    let tables = compute_routing(&fabric, rid("Rx0y0"), rid("Rx0y1"));
    let mut packet = parse(&ipv4_frame([10, 0, 0, 1], [10, 0, 1, 1], 1, 17, 40)).unwrap();
    let mut dest = Destination::TunB;
    let hop = forward_hop(&mut fabric, &Routes::Single(&tables), 0, &mut packet, &mut dest, &mut rng());
    assert_eq!(hop, Hop::Replied);
    assert_eq!(dest, Destination::TunA);
    assert_eq!(packet.raw[20], 11);
    assert_eq!(fabric.links[0].counter, 0);
}

#[test]
fn no_route_returns_destination_unreachable() {
    let mut fabric = Fabric::new();
    fabric.add_router(Router::new(rid("Rx0y0"))).unwrap();
    let tables: RouterMap<RoutingTable> = RouterMap::new();
    let packet = parse(&ipv4_frame([10, 0, 0, 1], [10, 0, 1, 1], 64, 6, 40)).unwrap();
    let out = process_packet(&mut fabric, &tables, rid("Rx0y0"), packet, Destination::TunB, &mut rng());
    assert_eq!(out.packet.protocol, 1);
    assert_eq!((out.packet.raw[20], out.packet.raw[21]), (3, 0));
    assert_eq!(fabric.get_router(&rid("Rx0y0")).unwrap().stats.icmp_generated, 1);
}

#[test]
fn empty_ecmp_table_is_no_route() {
    let mut fabric = two_routers(link(None, 0, false));
    let mut tables: RouterMap<MultiPathTable> = RouterMap::new();
    tables.insert(rid("Rx0y0"), MultiPathTable { tun_a: vec![], tun_b: vec![] });
    let packet = parse(&ipv4_frame([10, 0, 0, 1], [10, 0, 1, 1], 64, 6, 40)).unwrap();
    let links = fabric.incident_links(&rid("Rx0y0"));
    assert!(select_egress_link_multi(&rid("Rx0y0"), &packet, &links, &tables, Destination::TunB).is_none());
    let single = compute_routing(&fabric, rid("Rx0y0"), rid("Rx0y1"));
    let out = process_packet_multi(&mut fabric, &tables, &single, rid("Rx0y0"), packet, Destination::TunB, &mut rng());
    assert_eq!((out.packet.raw[20], out.packet.raw[21]), (3, 0));
    assert_eq!(fabric.links[0].counter, 0);
}

#[test]
fn hop_limit_ends_a_routing_loop() {
    let mut fabric = two_routers(link(None, 0, false));
    let mut tables = RouterMap::new();
    let entry = |h: &str| RouteEntry { next_hop: rid(h), total_cost: 1 };
    tables.insert(rid("Rx0y0"), RoutingTable { tun_a: entry("Rx0y1"), tun_b: entry("Rx0y1") });
    tables.insert(rid("Rx0y1"), RoutingTable { tun_a: entry("Rx0y0"), tun_b: entry("Rx0y0") });
    let packet = parse(&ipv4_frame([10, 0, 0, 1], [10, 0, 1, 1], 255, 6, 40)).unwrap();
    let out = process_packet(&mut fabric, &tables, rid("Rx0y0"), packet, Destination::TunB, &mut rng());
    assert_eq!(out.hops, HOP_LIMIT);
    assert_eq!(out.packet.ttl, 155);
    let stats = fabric.get_statistics();
    let total: u64 = ["Rx0y0", "Rx0y1"].iter().map(|r| stats.get(&rid(r)).unwrap().packets_received).sum();
    assert_eq!(total, HOP_LIMIT);
    assert_eq!(fabric.links[0].counter, HOP_LIMIT);
}

#[test]
fn mtu_boundary() {
    let c = link(Some(100), 7, false);
    assert_eq!(link_verdict(&c, 100, 0, 0), Ok(7));
    assert_eq!(link_verdict(&c, 101, 0, 0), Err(SimulationError::MtuExceeded { packet_size: 101, mtu: 100 }));
    let lossy = LinkConfig { loss_basis_points: 10000, jitter_ms: 5, ..c };
    assert_eq!(link_verdict(&lossy, 10, 9999, 0), Err(SimulationError::PacketLost));
    let jittery = LinkConfig { jitter_ms: 5, ..c };
    assert_eq!(link_verdict(&jittery, 10, 0, -5), Ok(2));
    assert_eq!(link_verdict(&LinkConfig { delay_ms: 3, ..jittery }, 10, 0, -5), Ok(0));
}

#[test]
fn seeded_runs_are_identical() {
    let run = || {
        let mut fabric = two_routers(LinkConfig { mtu: None, delay_ms: 4, jitter_ms: 3, loss_basis_points: 2500, load_balance: false });
        let tables = compute_routing(&fabric, rid("Rx0y0"), rid("Rx0y1"));
        let mut r = StdRng::seed_from_u64(9);
        let mut out = Vec::new();
        for ttl in 2..40u8 {
            let p = parse(&ipv4_frame([10, 0, 0, 1], [10, 0, 1, 1], ttl, 6, 40)).unwrap();
            let res = process_packet(&mut fabric, &tables, rid("Rx0y0"), p, Destination::TunB, &mut r);
            out.push((res.packet.raw, res.hops, res.delay_ms));
        }
        out
    };
    assert_eq!(run(), run());
}

#[test]
fn ecmp_scenario_tables() {
    let mut fabric = Fabric::new();
    for r in ["Rx0y0", "Rx0y1", "Rx0y2"] {
        fabric.add_router(Router::new(rid(r))).unwrap();
    }
    fabric.add_link(&rid("Rx0y0"), &rid("Rx0y1"), link(None, 5, false)).unwrap();
    fabric.add_link(&rid("Rx0y0"), &rid("Rx0y2"), link(None, 10, false)).unwrap();
    fabric.add_link(&rid("Rx0y1"), &rid("Rx0y2"), link(None, 5, false)).unwrap();
    let tables = compute_multi_path_routing(&fabric, rid("Rx0y0"), rid("Rx0y2"));
    let t = tables.get(&rid("Rx0y0")).unwrap();
    let mut hops: Vec<(String, u32)> = t.tun_b.iter().map(|e| (e.next_hop.0.clone(), e.total_cost)).collect();
    hops.sort();
    assert_eq!(hops, vec![("Rx0y1".to_string(), 10), ("Rx0y2".to_string(), 10)]);
}

#[test]
fn ecmp_run_stops_at_the_destination_anchor() {
    let mut fabric = two_routers(link(None, 0, false));
    let single = compute_routing(&fabric, rid("Rx0y0"), rid("Rx0y1"));
    let multi = compute_multi_path_routing(&fabric, rid("Rx0y0"), rid("Rx0y1"));
    let packet = parse(&ipv4_frame([10, 0, 0, 1], [10, 0, 1, 1], 64, 6, 40)).unwrap();
    let out = process_packet_multi(&mut fabric, &multi, &single, rid("Rx0y0"), packet, Destination::TunB, &mut rng());
    assert_eq!(out.hops, 2);
    assert_eq!(out.packet.ttl, 63);
    assert_eq!(fabric.links[0].counter, 1);
}

#[test]
fn loss_ends_the_run_and_counts_once() {
    let mut fabric = two_routers(LinkConfig { mtu: None, delay_ms: 0, jitter_ms: 0, loss_basis_points: 10000, load_balance: false });
    let tables = compute_routing(&fabric, rid("Rx0y0"), rid("Rx0y1"));
    let packet = parse(&ipv4_frame([10, 0, 0, 1], [10, 0, 1, 1], 64, 6, 40)).unwrap();
    let out = process_packet(&mut fabric, &tables, rid("Rx0y0"), packet, Destination::TunB, &mut rng());
    assert_eq!(out.hops, 1);
    assert_eq!(out.packet.ttl, 63);
    let s = fabric.get_router(&rid("Rx0y0")).unwrap().stats;
    assert_eq!((s.packets_lost, s.packets_forwarded), (1, 0));
}

#[test]
fn icmp_echo_still_gets_errors() {
    let mut fabric = Fabric::new();
    fabric.add_router(Router::new(rid("Rx0y0"))).unwrap();
    let tables: RouterMap<RoutingTable> = RouterMap::new();
    let mut raw = ipv4_frame([10, 0, 0, 1], [10, 0, 1, 1], 64, 1, 40);
    raw[20] = 8; // echo request
    let packet = parse(&raw).unwrap();
    let out = process_packet(&mut fabric, &tables, rid("Rx0y0"), packet, Destination::TunB, &mut rng());
    assert_eq!((out.packet.raw[20], out.packet.raw[21]), (3, 0));
    assert_eq!(fabric.get_router(&rid("Rx0y0")).unwrap().stats.icmp_generated, 1);
}
