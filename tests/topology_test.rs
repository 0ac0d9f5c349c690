use network_simulator::fabric::{Fabric, FabricError};
use network_simulator::packet::IpAddress;
use network_simulator::routing::Destination;
use network_simulator::topology::{LinkConfig, LinkId, Router, RouterId};

fn rid(s: &str) -> RouterId {
    RouterId(s.to_string())
}

fn cfg(delay_ms: u32, load_balance: bool) -> LinkConfig {
    LinkConfig { mtu: None, delay_ms, jitter_ms: 0, loss_basis_points: 0, load_balance }
}

#[test]
fn test_valid_router_ids() {
    assert!(rid("Rx0y0").validate().is_ok());
    assert!(rid("Rx5y5").validate().is_ok());
    assert!(rid("Rx3y2").validate().is_ok());
}

#[test]
fn test_invalid_router_ids() {
    assert!(rid("Rx6y0").validate().is_err());
    assert!(rid("Rx0y6").validate().is_err());
    assert!(rid("Rx10y5").validate().is_err());
    assert!(rid("Rxa0yb0").validate().is_err());
}

#[test]
fn grid_position_and_addresses() {
    assert_eq!(rid("Rx2y3").grid_position(), Some((2, 3)));
    assert_eq!(rid("Qx2y3").grid_position(), None);
    let r = Router::new(rid("Rx2y3"));
    assert_eq!(r.ipv4_addr(), IpAddress::V4(u32::from_be_bytes([10, 102, 3, 1])));
    assert_eq!(r.ipv6_addr(), IpAddress::V6((0xfd00u128 << 112) | (2 << 16) | 3));
    assert_eq!(r.stats.packets_received, 0);
}

#[test]
fn test_destination_enum_variants() {
    let a = Destination::TunA;
    let b = Destination::TunB;
    match a {
        Destination::TunA => {}
        _ => panic!("Expected TunA"),
    }
    match b {
        Destination::TunB => {}
        _ => panic!("Expected TunB"),
    }
    let dbg_a = format!("{:?}", a);
    let dbg_b = format!("{:?}", b);
    assert!(dbg_a.contains("TunA"));
    assert!(dbg_b.contains("TunB"));
}

#[test]
fn link_id_is_canonical() {
    let x = LinkId::new(rid("Rx1y0"), rid("Rx0y3"));
    let y = LinkId::new(rid("Rx0y3"), rid("Rx1y0"));
    assert_eq!(x, y);
    assert_eq!(x.a, rid("Rx0y3"));
}

#[test]
fn test_fabric_get_link() {
    let mut fabric = Fabric::new();
    let a_id = rid("Rx0y0");
    let b_id = rid("Rx1y1");
    fabric.add_router(Router::new(a_id.clone())).unwrap();
    fabric.add_router(Router::new(b_id.clone())).unwrap();
    fabric.add_link(&a_id, &b_id, cfg(5, false)).unwrap();
    let link_opt = fabric.get_link(&a_id, &b_id);
    assert!(link_opt.is_some());
    let link = link_opt.unwrap();
    assert!((link.id.a == a_id && link.id.b == b_id) || (link.id.a == b_id && link.id.b == a_id));
}

#[test]
fn test_fabric_get_router() {
    let mut fabric = Fabric::new();
    let router_id = rid("Rx0y0");
    fabric.add_router(Router::new(router_id.clone())).unwrap();
    let retrieved = fabric.get_router(&router_id);
    assert!(retrieved.is_some());
    let r = retrieved.unwrap();
    assert_eq!(r.id, router_id);
}

#[test]
fn test_fabric_incident_links_missing_router() {
    let fabric = Fabric::new();
    let links = fabric.incident_links(&rid("Rx0y0"));
    assert!(links.is_empty());
}

#[test]
fn test_fabric_incident_links_with_links() {
    let mut fabric = Fabric::new();
    let a = rid("Rx0y0");
    let b = rid("Rx5y5");
    fabric.add_router(Router::new(a.clone())).unwrap();
    fabric.add_router(Router::new(b.clone())).unwrap();
    fabric.add_link(&a, &b, cfg(1, false)).unwrap();
    let links_a = fabric.incident_links(&a);
    let links_b = fabric.incident_links(&b);
    assert_eq!(links_a.len(), 1);
    assert_eq!(links_b.len(), 1);
    assert_eq!(links_a[0].id, links_b[0].id);
}

#[test]
fn fabric_rejects_bad_input() {
    let mut fabric = Fabric::new();
    assert_eq!(fabric.add_router(Router::new(rid("R1"))), Err(FabricError::InvalidRouterId("R1".to_string())));
    fabric.add_router(Router::new(rid("Rx0y0"))).unwrap();
    fabric.add_router(Router::new(rid("Rx0y1"))).unwrap();
    assert_eq!(fabric.add_router(Router::new(rid("Rx0y0"))), Err(FabricError::DuplicateRouter("Rx0y0".to_string())));
    assert_eq!(
        fabric.add_link(&rid("Rx0y0"), &rid("Rx0y2"), cfg(0, false)),
        Err(FabricError::UnknownRouter("Rx0y2".to_string()))
    );
    fabric.add_link(&rid("Rx0y0"), &rid("Rx0y1"), cfg(0, false)).unwrap();
    assert_eq!(
        fabric.add_link(&rid("Rx0y1"), &rid("Rx0y0"), cfg(0, false)),
        Err(FabricError::DuplicateLink("Rx0y1".to_string(), "Rx0y0".to_string()))
    );
    let stats = fabric.get_statistics();
    assert_eq!(stats.len(), 2);
    assert_eq!(stats.get(&rid("Rx0y1")).unwrap().packets_received, 0);
}
