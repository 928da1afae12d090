use hersir::topology::{LeadershipMode, NodeDescriptor, PersistenceMode, Topology, TopologyError};

fn order_of(nodes: Vec<NodeDescriptor>) -> Vec<String> {
    Topology::build(nodes).unwrap().spawn_order()
}

fn position(order: &[String], alias: &str) -> usize {
    order.iter().position(|a| a == alias).unwrap()
}

#[test]
fn spawn_order_follows_trust() {
    let order = order_of(vec![
        NodeDescriptor::new("A"),
        NodeDescriptor::new("B").with_trusted_peer("A"),
        NodeDescriptor::new("C").with_trusted_peer("B").with_trusted_peer("A"),
    ]);
    assert_eq!(order, vec!["A", "B", "C"]);
}

#[test]
fn mutual_trust_is_circular() {
    let r = Topology::build(vec![
        NodeDescriptor::new("A").with_trusted_peer("B"),
        NodeDescriptor::new("B").with_trusted_peer("A"),
    ]);
    assert_eq!(r.err(), Some(TopologyError::CircularTrust));
}

#[test]
fn self_trust_is_circular() {
    let r = Topology::build(vec![NodeDescriptor::new("A").with_trusted_peer("A")]);
    assert_eq!(r.err(), Some(TopologyError::CircularTrust));
}

#[test]
fn longer_cycle_is_circular() {
    let r = Topology::build(vec![
        NodeDescriptor::new("root"),
        NodeDescriptor::new("A").with_trusted_peer("C").with_trusted_peer("root"),
        NodeDescriptor::new("B").with_trusted_peer("A"),
        NodeDescriptor::new("C").with_trusted_peer("B"),
    ]);
    assert_eq!(r.err(), Some(TopologyError::CircularTrust));
}

#[test]
fn unknown_peer_is_reported() {
    let r = Topology::build(vec![
        NodeDescriptor::new("A"),
        NodeDescriptor::new("B").with_trusted_peer("A").with_trusted_peer("Z"),
        NodeDescriptor::new("C").with_trusted_peer("Y"),
    ]);
    assert_eq!(r.err(), Some(TopologyError::UnknownPeer("Z".to_string())));
}

#[test]
fn unknown_peer_comes_before_cycle() {
    let r = Topology::build(vec![
        NodeDescriptor::new("A").with_trusted_peer("B"),
        NodeDescriptor::new("B").with_trusted_peer("A").with_trusted_peer("Q"),
    ]);
    assert_eq!(r.err(), Some(TopologyError::UnknownPeer("Q".to_string())));
}

#[test]
fn duplicate_alias_is_reported() {
    let r = Topology::build(vec![
        NodeDescriptor::new("A"),
        NodeDescriptor::new("B"),
        NodeDescriptor::new("A").with_trusted_peer("missing"),
    ]);
    assert_eq!(r.err(), Some(TopologyError::DuplicateAlias("A".to_string())));
}

#[test]
fn ties_follow_declaration_order() {
    let order = order_of(vec![
        NodeDescriptor::new("X").with_trusted_peer("Z"),
        NodeDescriptor::new("Y"),
        NodeDescriptor::new("Z"),
    ]);
    assert_eq!(order, vec!["Y", "Z", "X"]);
}

#[test]
fn empty_topology_has_empty_order() {
    let t = Topology::build(Vec::new()).unwrap();
    assert_eq!(t.len(), 0);
    assert!(t.spawn_order().is_empty());
}

#[test]
fn every_node_spawns_after_its_trusted_peers() {
    let nodes = vec![
        NodeDescriptor::new("n5").with_trusted_peer("n1").with_trusted_peer("n4"),
        NodeDescriptor::new("n4").with_trusted_peer("n2"),
        NodeDescriptor::new("n3"),
        NodeDescriptor::new("n2").with_trusted_peer("n3"),
        NodeDescriptor::new("n1").with_trusted_peer("n3").with_trusted_peer("n2"),
        NodeDescriptor::new("n6"),
    ];
    let t = Topology::build(nodes.clone()).unwrap();
    let order = t.spawn_order();
    assert_eq!(order.len(), nodes.len());
    for n in &nodes {
        let p = position(&order, &n.alias);
        for peer in &n.trusted_peers {
            assert!(position(&order, peer) < p);
        }
    }
    assert_eq!(order, vec!["n3", "n2", "n4", "n1", "n5", "n6"]);
}

#[test]
fn trusted_peers_are_kept_once() {
    let d = NodeDescriptor::new("A").with_trusted_peer("B").with_trusted_peer("C").with_trusted_peer("B");
    assert_eq!(d.trusted_peers, vec!["B".to_string(), "C".to_string()]);
}

#[test]
fn descriptor_modes() {
    let d = NodeDescriptor::new("A");
    assert_eq!(d.leadership, LeadershipMode::Leader);
    assert_eq!(d.persistence, PersistenceMode::Persistent);
    let d = d.passive().in_memory();
    assert_eq!(d.leadership, LeadershipMode::Passive);
    assert_eq!(d.persistence, PersistenceMode::InMemory);
    assert_eq!(d.alias, "A");
}

#[test]
fn node_lookup() {
    let t = Topology::build(vec![
        NodeDescriptor::new("A"),
        NodeDescriptor::new("B").with_trusted_peer("A").passive(),
    ])
    .unwrap();
    let b = t.node("B").unwrap();
    assert_eq!(b.trusted_peers, vec!["A".to_string()]);
    assert_eq!(b.leadership, LeadershipMode::Passive);
    assert!(t.node("C").is_none());
}
