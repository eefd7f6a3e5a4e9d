use route_rs::network::{build_network_topology, parse_dashed_id, qlat_file_path, FlowpathRow, NetworkTopology, TopologyError};
use route_rs::params::{id_set, last_parameter_rows, missing_ids, parse_wb_id, select_parameter_rows};

fn row(id: &str, toid: &str) -> FlowpathRow {
    FlowpathRow { id: id.to_string(), toid: toid.to_string() }
}

fn sorted(mut v: Vec<u32>) -> Vec<u32> {
    v.sort();
    v
}

#[test]
fn dashed_ids() {
    assert_eq!(parse_dashed_id("wb-12"), Some(12));
    assert_eq!(parse_dashed_id("nex-486888"), Some(486888));
    assert_eq!(parse_dashed_id("cat-12-3"), Some(12));
    assert_eq!(parse_dashed_id("cat12"), None);
    assert_eq!(parse_dashed_id("cat-"), None);
    assert_eq!(parse_dashed_id("cat-x"), None);
}

#[test]
fn qlat_paths() {
    assert_eq!(qlat_file_path("out/ngen", 486888), "out/ngen/cat-486888.csv");
    assert_eq!(qlat_file_path("out/ngen/", 0), "out/ngen/cat-0.csv");
}

#[test]
fn topology_links_upstream_nodes() {
    let rows = vec![row("wb-1", "nex-3"), row("wb-2", "nex-3"), row("wb-3", "nex-4"), row("wb-4", "nex-99")];
    let t = build_network_topology(&rows, "csv").unwrap();
    assert_eq!(t.nodes.len(), 4);
    assert_eq!(sorted(t.nodes[&3].upstream_ids.clone()), vec![1, 2]);
    assert_eq!(t.nodes[&4].upstream_ids, vec![3]);
    assert!(t.nodes[&1].upstream_ids.is_empty());
    assert_eq!(t.nodes[&1].downstream_id, Some(3));
    assert_eq!(t.nodes[&4].downstream_id, Some(99));
    assert_eq!(t.nodes[&2].qlat_file, "csv/cat-2.csv");
    assert_eq!(t.nodes[&2].id, 2);
    assert_eq!(sorted(t.routing_order.clone()), vec![1, 2, 3, 4]);
    // every upstream link mirrors a downstream link
    for (id, node) in &t.nodes {
        for u in &node.upstream_ids {
            assert_eq!(t.nodes[u].downstream_id, Some(*id));
        }
    }
}

#[test]
fn topology_row_errors() {
    let rows = vec![row("wb-1", "nex-3"), row("wb1", "nex-3"), row("wb-2", "bad")];
    assert!(matches!(build_network_topology(&rows, "c"), Err(TopologyError::InvalidId(s)) if s == "wb1"));
    let rows = vec![row("wb-1", "nex-3"), row("wb-2", "bad")];
    assert!(matches!(build_network_topology(&rows, "c"), Err(TopologyError::InvalidToId(s)) if s == "bad"));
    let t = build_network_topology(&vec![], "c").unwrap();
    assert!(t.nodes.is_empty() && t.routing_order.is_empty());
}

#[test]
fn topology_by_hand() {
    let mut t = NetworkTopology::new();
    t.add_node(5, Some(6), "a".to_string());
    t.add_node(6, None, "b".to_string());
    t.add_node(7, Some(6), "c".to_string());
    t.build_upstream_connections();
    t.collect_node_ids();
    assert_eq!(sorted(t.nodes[&6].upstream_ids.clone()), vec![5, 7]);
    assert_eq!(sorted(t.routing_order.clone()), vec![5, 6, 7]);
}

#[test]
fn channel_parameter_rows() {
    assert_eq!(parse_wb_id("wb-17"), Some(17));
    assert_eq!(parse_wb_id("cat-17"), None);
    assert_eq!(parse_wb_id("wb-"), None);
    let order = vec![3, 1, 2];
    let keys: Vec<String> = ["wb-1", "wb-9", "junk", "wb-3", "wb-1"].iter().map(|s| s.to_string()).collect();
    assert_eq!(select_parameter_rows(&order, &keys), vec![Some(1), None, None, Some(3), Some(1)]);
    let loaded = id_set(&vec![1, 3]);
    assert_eq!(missing_ids(&order, &loaded), vec![2]);
    assert_eq!(missing_ids(&order, &id_set(&vec![])), vec![3, 1, 2]);
}

#[test]
fn channel_parameters_last_row_wins() {
    let order = vec![3, 1, 2];
    let keys: Vec<String> = ["wb-1", "wb-9", "junk", "wb-3", "wb-1", "wb-3x"].iter().map(|s| s.to_string()).collect();
    let chosen = last_parameter_rows(&order, &keys);
    assert_eq!(chosen.len(), 2);
    assert_eq!(chosen.get(&1), Some(&4));
    assert_eq!(chosen.get(&3), Some(&3));
    assert_eq!(chosen.get(&2), None);
    assert_eq!(chosen.get(&9), None);
    assert!(last_parameter_rows(&order, &vec![]).is_empty());
}
