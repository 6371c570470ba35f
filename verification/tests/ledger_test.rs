use public_ledger::block::Block;
use public_ledger::block::BlockBody;
use public_ledger::block::BlockHeader;
use public_ledger::chain::Chain;
use public_ledger::chain::ChainFetcher;
use public_ledger::chain::FetchStep;
use public_ledger::protocol::string_to_hash_key;
use public_ledger::textenc::hex_encode;
use public_ledger::textenc::u64_to_string;

#[test]
fn test_create_blockchain() {
    let blockchain = Chain::new();
    assert_eq!(blockchain.blocks.len(), 1, "Blockchain should start with a Genesis block");
}

#[test]
fn test_add_block() {
    let mut blockchain = Chain::new();
    let new_block = Block::genesis();
    blockchain.add_block(new_block);

    assert_eq!(blockchain.blocks.len(), 2, "Blockchain should have 2 blocks after adding one");
}

#[test]
fn test_block_mining() {
    let header = BlockHeader::new("parent_hash".as_bytes().to_vec(), 1, 0);
    let body = BlockBody::new("transactions".as_bytes().to_vec());
    let mut block = Block::new(header, body);
    block.mine();
    assert_eq!(block.is_valid(), true);
}

#[test]
fn test_genesis_block_is_valid() {
    assert!(Block::genesis().is_valid());
}

#[test]
fn test_mining_meets_difficulty_in_hex() {
    let header = BlockHeader::new(vec![5; 64], 2, 77);
    let body = BlockBody::new(vec![1, 2, 3]);
    let mut block = Block::new(header, body);
    let nonce = block.mine();
    assert_eq!(nonce, block.get_nonce());
    assert!(block.is_valid());
    let hex = hex_encode(&block.get_hash());
    assert!(hex.starts_with("00"));
}

#[test]
fn test_serialized_exact_text() {
    let header = BlockHeader::new(vec![0, 1], 0, 0);
    let body = BlockBody::new(vec![2]);
    let block = Block::new(header, body);
    assert_eq!(
        block.serialized(),
        "{\"header\":{\"prev_hash\":[0,1],\"nonce\":0,\"difficulty\":0,\"timestamp\":0},\
         \"body\":{\"transactions\":[2]}}"
    );
}

#[test]
fn test_serialize_round_trip_keeps_hash() {
    let header = BlockHeader::new(vec![0xaa; 64], 3, 1234567);
    let body = BlockBody::new(b"some record".to_vec());
    let block = Block::new(header, body);
    let text = block.serialized();
    let back = Block::deserialized(&text).expect("own serialization must parse");
    assert_eq!(back.get_hash(), block.get_hash());
    assert_eq!(back.serialized(), text);
}

#[test]
fn test_deserialized_rejects_malformed_text() {
    assert!(Block::deserialized("").is_none());
    assert!(Block::deserialized("{\"header\":{").is_none());
    assert!(Block::deserialized("{\"header\":{\"prev_hash\":[0],\"nonce\":0,\"difficulty\":0,\"timestamp\":0},\"body\":{\"transactions\":[]}} ").is_none());
}

#[test]
fn test_hash_key_differs_from_input() {
    let key = string_to_hash_key("latest_block");
    assert_eq!(key.len(), 20);
    assert_ne!(&key[..], &"latest_block".as_bytes()[..12]);
    // The same text always maps to the same key.
    assert_eq!(key, string_to_hash_key("latest_block"));
    assert_ne!(key, string_to_hash_key("last_auction"));
}

#[test]
fn test_hex_encode_exact() {
    assert_eq!(hex_encode(&[0xab, 0x01, 0xf0]), "ab01f0");
    assert_eq!(hex_encode(&[]), "");
}

#[test]
fn test_decimal_text_exact() {
    assert_eq!(u64_to_string(0), "0");
    assert_eq!(u64_to_string(12345), "12345");
    assert_eq!(u64_to_string(u64::MAX), "18446744073709551615");
}

#[test]
fn test_chain_fetch_walks_to_genesis() {
    let mut fetcher = ChainFetcher::new();
    assert_eq!(fetcher.current_key, string_to_hash_key("latest_block"));

    // A block whose parent is a real hash: the fetch continues at the key
    // derived from the first 20 bytes of that parent.
    let parent: Vec<u8> = (1..=64).collect();
    let child = Block::new(BlockHeader::new(parent.clone(), 0, 5), BlockBody::new(vec![]));
    match fetcher.on_value(Some(child)) {
        FetchStep::Continue(key) => {
            let expected = string_to_hash_key(&hex_encode(&parent[..20]));
            assert_eq!(key, expected);
            assert_eq!(fetcher.current_key, expected);
        }
        _ => panic!("expected the fetch to continue"),
    }

    // The genesis sentinel ends the walk.
    match fetcher.on_value(Some(Block::genesis())) {
        FetchStep::Done => {}
        _ => panic!("expected the fetch to finish"),
    }
    assert_eq!(fetcher.fetched.len(), 2);

    // A missing block fails a reconstruction outright.
    let mut failing = ChainFetcher::new();
    match failing.on_value(None) {
        FetchStep::Failed => {}
        _ => panic!("expected the fetch to fail"),
    }
    assert_eq!(failing.fetched.len(), 0);
}
