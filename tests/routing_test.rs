use network_simulator::config::{SimulatorConfig, TopologyConfig, TunIngressConfig};
use network_simulator::fabric::Fabric;
use network_simulator::routing::{compute_multi_path_routing, compute_routing, MultiPathTable, RouterMap};
use network_simulator::topology::{LinkConfig, Router, RouterId};
use network_simulator::{compute_multipath_tables, compute_routing_tables};

fn rid(s: &str) -> RouterId {
    RouterId(s.to_string())
}

fn cfg(delay_ms: u32, load_balance: bool) -> LinkConfig {
    LinkConfig { mtu: None, delay_ms, jitter_ms: 0, loss_basis_points: 0, load_balance }
}

fn triangle() -> Fabric {
    let mut fabric = Fabric::new();
    for r in ["Rx0y0", "Rx0y1", "Rx0y2"] {
        fabric.add_router(Router::new(rid(r))).unwrap();
    }
    fabric.add_link(&rid("Rx0y0"), &rid("Rx0y1"), cfg(5, false)).unwrap();
    fabric.add_link(&rid("Rx0y0"), &rid("Rx0y2"), cfg(10, false)).unwrap();
    fabric.add_link(&rid("Rx0y1"), &rid("Rx0y2"), cfg(5, false)).unwrap();
    fabric
}

#[test]
fn test_multipath_routing_two_equal_paths() {
    let fabric = triangle();
    let ingress_a = rid("Rx0y0");
    let ingress_b = rid("Rx0y2");
    let tables: RouterMap<MultiPathTable> = compute_multi_path_routing(&fabric, ingress_a.clone(), ingress_b.clone());
    let r0_table = tables.get(&ingress_a).expect("R0 table missing");
    // Toward anchor B both the direct link and the path through Rx0y1 cost 10.
    let mut next_hops: Vec<String> = r0_table.tun_b.iter().map(|e| e.next_hop.0.clone()).collect();
    next_hops.sort();
    assert_eq!(next_hops, vec!["Rx0y1".to_string(), "Rx0y2".to_string()]);
    assert!(r0_table.tun_b.iter().all(|e| e.total_cost == 10));
}

#[test]
fn single_path_costs_are_shortest_distances() {
    let fabric = triangle();
    let tables = compute_routing(&fabric, rid("Rx0y0"), rid("Rx0y2"));
    let t0 = tables.get(&rid("Rx0y0")).unwrap();
    assert_eq!(t0.tun_a.next_hop, rid("Rx0y0"));
    assert_eq!(t0.tun_a.total_cost, 0);
    assert_eq!(t0.tun_b.total_cost, 10);
    let t1 = tables.get(&rid("Rx0y1")).unwrap();
    assert_eq!(t1.tun_a.total_cost, 5);
    assert_eq!(t1.tun_a.next_hop, rid("Rx0y0"));
    assert_eq!(t1.tun_b.next_hop, rid("Rx0y2"));
    let t2 = tables.get(&rid("Rx0y2")).unwrap();
    assert_eq!(t2.tun_b.next_hop, rid("Rx0y2"));
    assert_eq!(t2.tun_a.total_cost, 10);
}

#[test]
fn zero_delay_links_cost_one_and_isolated_routers_are_unreachable() {
    let mut fabric = Fabric::new();
    for r in ["Rx0y0", "Rx0y1", "Rx3y3"] {
        fabric.add_router(Router::new(rid(r))).unwrap();
    }
    fabric.add_link(&rid("Rx0y0"), &rid("Rx0y1"), cfg(0, false)).unwrap();
    let tables = compute_routing(&fabric, rid("Rx0y0"), rid("Rx0y1"));
    assert_eq!(tables.get(&rid("Rx0y1")).unwrap().tun_a.total_cost, 1);
    let iso = tables.get(&rid("Rx3y3")).unwrap();
    assert_eq!(iso.tun_a.total_cost, u32::MAX);
    assert_eq!(iso.tun_a.next_hop, rid("Rx3y3"));
    let multi = compute_multi_path_routing(&fabric, rid("Rx0y0"), rid("Rx0y1"));
    assert!(multi.get(&rid("Rx3y3")).unwrap().tun_a.is_empty());
}

fn small_config(enable_multipath: bool) -> SimulatorConfig {
    let mut cfg_ = SimulatorConfig::default();
    cfg_.tun_ingress = TunIngressConfig {
        tun_a_ingress: "Rx0y0".to_string(),
        tun_b_ingress: "Rx0y1".to_string(),
        tun_a_prefix: "".to_string(),
        tun_b_prefix: "".to_string(),
        tun_a_ipv6_prefix: "".to_string(),
        tun_b_ipv6_prefix: "".to_string(),
    };
    cfg_.topology = TopologyConfig {
        routers: vec!["Rx0y0".to_string(), "Rx0y1".to_string(), "Rx0y2".to_string()],
        links: vec![("Rx0y0_Rx0y1".to_string(), cfg(1, true)), ("Rx0y0_Rx0y2".to_string(), cfg(1, true))],
    };
    cfg_.enable_multipath = enable_multipath;
    cfg_
}

#[test]
fn test_compute_routing_tables_counts() {
    let tables = compute_routing_tables(&small_config(false)).unwrap();
    assert_eq!(tables.len(), 3);
    assert!(tables.contains_key(&rid("Rx0y0")));
}

#[test]
fn test_compute_multipath_tables_when_enabled() {
    let tables = compute_multipath_tables(&small_config(true)).unwrap();
    assert_eq!(tables.len(), 3);
    let entry = tables.get(&rid("Rx0y0")).expect("missing entry");
    assert!(!entry.tun_a.is_empty());
}

#[test]
fn test_compute_multipath_tables_when_disabled() {
    let mut cfg_ = SimulatorConfig::default();
    cfg_.topology = TopologyConfig { routers: Vec::new(), links: Vec::new() };
    cfg_.enable_multipath = false;
    let tables = compute_multipath_tables(&cfg_).unwrap();
    assert!(tables.is_empty());
}
