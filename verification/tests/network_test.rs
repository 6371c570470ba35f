use public_ledger::node::Node;
use public_ledger::params::MAX_BUCKET_SIZE;
use public_ledger::protocol::FindValueOutcome;
use public_ledger::protocol::LookupState;
use public_ledger::protocol::LookupStep;
use public_ledger::protocol::PeerReply;
use public_ledger::protocol::handle_find_node;
use public_ledger::protocol::handle_find_value;
use public_ledger::protocol::handle_ping;
use public_ledger::protocol::handle_store;
use public_ledger::protocol::string_to_hash_key;
use public_ledger::routing_table::RoutingTable;

fn descriptor(rt: &RoutingTable) -> Node {
    rt.get_curr_node().clone()
}

#[test]
fn test_ping_records_caller() {
    let mut a = RoutingTable::new("127.0.0.1".to_string(), 8080);
    let b = RoutingTable::new("127.0.0.1".to_string(), 8081);
    let reply = handle_ping(&mut a, descriptor(&b));
    assert_eq!(reply.get_id(), a.get_curr_node().get_id());
    assert_eq!(a.get_size(), 1);
}

#[test]
fn test_find_value_returns_stored_value_or_candidates() {
    let mut a = RoutingTable::new("127.0.0.1".to_string(), 8080);
    let b = RoutingTable::new("127.0.0.1".to_string(), 8081);
    let key = string_to_hash_key("some value");

    match handle_find_value(&mut a, descriptor(&b), &key) {
        FindValueOutcome::Nodes(ns) => assert!(ns.len() <= MAX_BUCKET_SIZE),
        FindValueOutcome::Value(_) => panic!("nothing was stored yet"),
    }

    handle_store(&mut a, descriptor(&b), key, b"payload".to_vec());
    match handle_find_value(&mut a, descriptor(&b), &key) {
        FindValueOutcome::Value(v) => assert_eq!(v, b"payload".to_vec()),
        FindValueOutcome::Nodes(_) => panic!("the value was stored"),
    }
}

#[test]
fn test_lookup_exhausts_on_silence() {
    let mut c = RoutingTable::new("127.0.0.1".to_string(), 8082);
    let peer = Node::new("127.0.0.1".to_string(), 9000);
    c.add_node(peer);
    let key = string_to_hash_key("missing");
    let mut lookup = LookupState::new(key, c.get_closest_k_nodes(&key, MAX_BUCKET_SIZE));
    let round = lookup.select_round();
    assert_eq!(round.len(), 1);
    let replies = vec![PeerReply::Failed];
    match lookup.absorb_round(&mut c, replies) {
        LookupStep::Exhausted => {}
        _ => panic!("a silent round must exhaust the lookup"),
    }
}

#[test]
fn test_three_node_store_and_lookup() {
    // Three nodes A, B, C: B joins via A, C joins via B.  A value stored
    // from A's view of the network must reach C within a bounded number
    // of lookup rounds (at most 2 for a network of three nodes).
    let mut a = RoutingTable::new("127.0.0.1".to_string(), 8080);
    let mut b = RoutingTable::new("127.0.0.1".to_string(), 8081);
    let mut c = RoutingTable::new("127.0.0.1".to_string(), 8082);

    // B joins via A: B pings A, learns A's descriptor from the reply.
    let a_descriptor = handle_ping(&mut a, descriptor(&b));
    b.add_node(a_descriptor);

    // C joins via B the same way.
    let b_descriptor = handle_ping(&mut b, descriptor(&c));
    c.add_node(b_descriptor);

    // A replicates a value to the closest nodes it knows.
    let key = string_to_hash_key("anchored record");
    let value = b"the record".to_vec();
    let targets = a.get_closest_k_nodes(&key, MAX_BUCKET_SIZE);
    assert!(!targets.is_empty());
    for target in &targets {
        // The only node A knows is B.
        assert_eq!(target.get_id(), b.get_curr_node().get_id());
        handle_store(&mut b, descriptor(&a), key, value.clone());
    }

    // C looks the key up iteratively.
    let mut lookup = LookupState::new(key, c.get_closest_k_nodes(&key, MAX_BUCKET_SIZE));
    let mut rounds = 0;
    let mut found: Option<Vec<u8>> = None;
    while rounds < 2 && found.is_none() {
        let contacts = lookup.select_round();
        if contacts.is_empty() {
            break;
        }
        rounds += 1;
        let mut replies = Vec::new();
        for contact in &contacts {
            // The only peer C can reach in round one is B.
            assert_eq!(contact.get_id(), b.get_curr_node().get_id());
            match handle_find_value(&mut b, descriptor(&c), &key) {
                FindValueOutcome::Value(v) => replies.push(PeerReply::Value(v)),
                FindValueOutcome::Nodes(ns) => {
                    replies.push(PeerReply::Nodes(ns.iter().map(|n| n.to_proto()).collect()))
                }
            }
        }
        match lookup.absorb_round(&mut c, replies) {
            LookupStep::Found(v) => found = Some(v),
            LookupStep::Continue => {}
            LookupStep::Exhausted => break,
        }
    }
    assert_eq!(found, Some(value));
    assert!(rounds <= 2);
}

#[test]
fn test_find_node_answers_sorted_candidates() {
    let mut a = RoutingTable::new("127.0.0.1".to_string(), 8080);
    let b = RoutingTable::new("127.0.0.1".to_string(), 8081);
    for port in 1..=6u16 {
        a.add_node(Node::new("127.0.0.1".to_string(), port));
    }
    let total = a.get_size();
    let key = [0u8; 20];
    let reply = handle_find_node(&mut a, descriptor(&b), &key);
    assert_eq!(reply.len(), total.min(MAX_BUCKET_SIZE));
    // Ascending XOR distance to the key: with target zero the id itself,
    // read as a big-endian number, is the distance.
    for w in reply.windows(2) {
        assert!(w[0].get_id() <= w[1].get_id());
    }
}

#[test]
fn test_lookup_exhausts_on_invalid_candidates() {
    // A reply whose wire nodes are all malformed carries nothing new.
    let mut c = RoutingTable::new("127.0.0.1".to_string(), 8083);
    let key = string_to_hash_key("missing");
    let mut lookup = LookupState::new(key, Vec::new());
    let bad = public_ledger::node::WireNode {
        id: vec![1; 19], // one byte short
        ip: "127.0.0.1".to_string(),
        port: 9001,
    };
    let replies = vec![PeerReply::Nodes(vec![bad]), PeerReply::Failed];
    match lookup.absorb_round(&mut c, replies) {
        LookupStep::Exhausted => {}
        _ => panic!("malformed candidates must not continue the lookup"),
    }
    assert_eq!(c.get_size(), 0);
}

#[test]
fn test_absorb_nodes_records_valid_nodes() {
    let mut table = RoutingTable::new("127.0.0.1".to_string(), 8084);
    let good = Node::new("127.0.0.1".to_string(), 9002);
    let bad = public_ledger::node::WireNode {
        id: vec![2; 21], // one byte long
        ip: "127.0.0.1".to_string(),
        port: 9003,
    };
    public_ledger::protocol::absorb_nodes(&mut table, &vec![good.to_proto(), bad]);
    assert_eq!(table.get_size(), 1);
    let closest = table.get_closest_k_nodes(good.get_id(), 1);
    assert_eq!(closest[0].get_id(), good.get_id());
}
