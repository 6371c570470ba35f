use public_ledger::k_bucket::K_Bucket;
use public_ledger::node::Node;
use public_ledger::node::WireNode;
use public_ledger::node::WireError;
use public_ledger::routing_table::RoutingTable;

#[test]
fn test_k_bucket_node_order() {
    let mut bucket = K_Bucket::new(5);
    let node1: Node = Node::new("127.0.0.1".to_string(), 1);
    let node1_id: [u8; 20] = *node1.get_id();
    let node2 = Node::new("127.0.0.1".to_string(), 2);
    let node2_id: [u8; 20] = *node2.get_id();
    let node3 = Node::new("127.0.0.1".to_string(), 3);
    let node3_id: [u8; 20] = *node3.get_id();
    bucket.add_node(node1);
    bucket.add_node(node2);
    bucket.add_node(node3);
    let node1_copy = Node::with_id(node1_id, "127.0.0.1".to_string(), 1);
    bucket.add_node(node1_copy);
    assert_eq!(bucket.get_nodes().len(), 3);
    assert_eq!(bucket.get_nodes()[0].get_id(), &node1_id);
    assert_eq!(bucket.get_nodes()[1].get_id(), &node3_id);
    assert_eq!(bucket.get_nodes()[2].get_id(), &node2_id);
}

#[test]
fn test_k_bucket_eviction() {
    // Inserting more than the capacity evicts the least recently seen.
    let mut bucket = K_Bucket::new(2);
    let a = Node::with_id([1; 20], "127.0.0.1".to_string(), 1);
    let b = Node::with_id([2; 20], "127.0.0.1".to_string(), 2);
    let c = Node::with_id([3; 20], "127.0.0.1".to_string(), 3);
    bucket.add_node(a);
    bucket.add_node(b);
    bucket.add_node(c);
    assert_eq!(bucket.get_size(), 2);
    assert_eq!(bucket.get_nodes()[0].get_id(), &[3; 20]);
    assert_eq!(bucket.get_nodes()[1].get_id(), &[2; 20]);
}

#[test]
fn test_get_closest_k_nodes_returns_closest() {
    let mut rt = RoutingTable::new("127.0.0.1".to_string(), 8080);

    // Manually create nodes with known IDs
    let target_id: [u8; 20] = [0b00000000; 20];

    // Closer in XOR space
    let node1 = Node::with_id([0b00000001; 20], "127.0.0.1".to_string(), 1);
    let node2 = Node::with_id([0b00000100; 20], "127.0.0.1".to_string(), 2);
    let node3 = Node::with_id([0b00000010; 20], "127.0.0.1".to_string(), 3);
    let node4 = Node::with_id([0b00010000; 20], "127.0.0.1".to_string(), 4);

    rt.add_node(node1.clone());
    rt.add_node(node2.clone());
    rt.add_node(node3.clone());
    rt.add_node(node4.clone());

    // Ask for the 3 closest nodes
    let closest = rt.get_closest_k_nodes(&target_id, 3);

    let expected_ids = vec![node1.get_id(), node3.get_id(), node2.get_id()];

    let result_ids: Vec<&[u8; 20]> = closest.iter().map(|n| n.get_id()).collect();

    for i in rt.get_all_nodes().iter() {
        println!("Node ID: {:?}", i.get_id());
    }

    assert_eq!(result_ids, expected_ids);
}

#[test]
fn test_routing_table_order() {
    let mut routing_table = RoutingTable::new("127.0.0.1".to_string(), 1);
    let node1: Node = Node::new("127.0.0.1".to_string(), 2);
    let node2: Node = Node::new("127.0.0.1".to_string(), 3);
    routing_table.add_node(node2);
    routing_table.add_node(node1);
    for (k, k_bucket) in routing_table.get_k_bucket_map().iter().enumerate() {
        for node in k_bucket.get_nodes() {
            println!("k-bucket index: {}, node: {:?}", k, node.get_id());
        }
    }
}

#[test]
fn test_print_routing_table_output() {
    //print routing table of a node
    let mut rt = RoutingTable::new("127.0.0.1".to_string(), 8080);

    let node1 = Node::new("192.168.1.1".to_string(), 8081);
    let node2 = Node::new("127.0.0.2".to_string(), 8082);
    let node3 = Node::new("127.0.0.3".to_string(), 8083);

    rt.add_node(node1.clone());
    rt.add_node(node2.clone());
    rt.add_node(node3.clone());

    let output = rt.print();
    println!("Routing table output:\n{}", output); // visible with `-- --nocapture`

    // Basic structural checks
    assert!(output.contains("Routing Table:"), "Missing routing table header");
    assert!(output.contains("Bucket"), "Missing bucket labels");

    // Check for each node's presence
    for node in &[node1, node2, node3] {
        let expected_substr = format!("ip: {}, port: {}", node.get_ip(), node.get_port());
        assert!(
            output.contains(&expected_substr),
            "Output missing node: {}",
            expected_substr
        );
    }
}

#[test]
fn test_self_insertion_never_grows_table() {
    let mut rt = RoutingTable::new("127.0.0.1".to_string(), 9000);
    let own_id = *rt.get_curr_node().get_id();
    assert_eq!(rt.get_size(), 0);
    rt.add_node(Node::with_id(own_id, "10.0.0.1".to_string(), 9001));
    assert_eq!(rt.get_size(), 0);
}

#[test]
fn test_local_store_last_binding_wins() {
    let mut rt = RoutingTable::new("127.0.0.1".to_string(), 9000);
    let key = [7u8; 20];
    assert!(rt.get(key).is_none());
    rt.store(key, vec![1, 2, 3]);
    assert_eq!(rt.get(key), Some(&vec![1, 2, 3]));
    rt.store(key, vec![9]);
    assert_eq!(rt.get(key), Some(&vec![9]));
}

#[test]
fn test_from_proto_validates() {
    let good = WireNode { id: vec![1; 20], ip: "::1".to_string(), port: 8080 };
    let node = Node::from_proto(&good).unwrap();
    assert_eq!(node.get_id(), &[1; 20]);
    assert_eq!(node.get_port(), 8080);

    let short = WireNode { id: vec![1; 19], ip: "::1".to_string(), port: 8080 };
    match Node::from_proto(&short) {
        Err(e) => assert_eq!(e, WireError::BadIdLength),
        Ok(_) => panic!("a short id must be rejected"),
    }

    let big_port = WireNode { id: vec![1; 20], ip: "::1".to_string(), port: 70000 };
    match Node::from_proto(&big_port) {
        Err(e) => assert_eq!(e, WireError::BadPort),
        Ok(_) => panic!("an oversized port must be rejected"),
    }
}
