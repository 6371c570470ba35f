use public_ledger::node_id::distance;
use public_ledger::node_id::find_k_bucket_index;
use public_ledger::node_id::generate_random_id_near_distance;
use public_ledger::node_id::k_index;

#[test]
fn test_distance() {
    let node_id1: [u8; 20] = [0b10101010; 20]; // 20 bytes of 0b10101010
    let node_id2: [u8; 20] = [0b01010101; 20]; // 20 bytes of 0b01010101

    // Compute XOR distance
    let dist = distance(&node_id1, &node_id2);

    // Check that the result is 20 bytes
    assert_eq!(dist.len(), 20);

    // Check XOR property: A xor B should result in all 1s (0xFF)
    for &byte in &dist {
        assert_eq!(byte, 0b11111111);
    }

    // Additional check: A xor A = 0
    let zero_dist = distance(&node_id1, &node_id1);
    assert_eq!(zero_dist, [0; 20]);
}

#[test]
fn test_find_k_index() {
    let node_id1: [u8; 20] = [0b10101010; 20]; // 20 bytes of 0b10101010
    let node_id2: [u8; 20] = [0b01010101; 20]; // 20 bytes of 0b01010101

    // Compute XOR distance
    let dist = distance(&node_id1, &node_id2);

    // Check index of first '1' bit
    let k_bucket_index = find_k_bucket_index(&dist);
    assert_eq!(k_bucket_index, 0);
}

#[test]
fn test_self_distance_maps_to_sentinel() {
    let id: [u8; 20] = [0x5a; 20];
    let dist = distance(&id, &id);
    assert_eq!(find_k_bucket_index(&dist), 160);
}

#[test]
fn test_k_index_reads_single_bits() {
    let mut id = [0u8; 20];
    id[0] = 0b01000000;
    assert_eq!(k_index(&id, 0), 0);
    assert_eq!(k_index(&id, 1), 1);
    assert_eq!(k_index(&id, 2), 0);
    assert_eq!(find_k_bucket_index(&id), 1);
}

#[test]
fn test_distance_triangle_on_bit_positions() {
    // The first set bit of distance(a, c) comes no earlier than the
    // earlier of the first set bits of distance(a, b) and distance(b, c).
    let a: [u8; 20] = [0x11; 20];
    let b: [u8; 20] = [0x2f; 20];
    let c: [u8; 20] = [0x90; 20];
    let iab = find_k_bucket_index(&distance(&a, &b));
    let ibc = find_k_bucket_index(&distance(&b, &c));
    let iac = find_k_bucket_index(&distance(&a, &c));
    assert!(iac >= iab.min(ibc));
}

#[test]
fn test_refresh_target_falls_in_bucket() {
    let my_id: [u8; 20] = [0xc3; 20];
    for bucket in [0u8, 7, 8, 42, 159] {
        let target = generate_random_id_near_distance(&my_id, bucket);
        assert_eq!(target.len(), 20);
        let mut arr = [0u8; 20];
        arr.copy_from_slice(&target);
        let dist = distance(&my_id, &arr);
        assert_eq!(find_k_bucket_index(&dist), bucket as usize);
    }
}
