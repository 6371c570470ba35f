use ring::signature::Ed25519KeyPair;

use public_ledger::transaction::NodeId;
use public_ledger::transaction::Transaction;

#[test]
fn test_generate_node_id() {
    let (node_id, _keypair) = NodeId::generate().expect("key generation");
    assert!(!node_id.pub_id.is_empty(), "Generated NodeId should not be empty");
}

#[test]
fn test_transaction_sign_and_verify() {
    let (_node_id, pkcs8) = NodeId::generate().expect("key generation");
    let receiver_id = NodeId::from_public_key(b"receiver_public_key");

    let keypair = Ed25519KeyPair::from_pkcs8(&pkcs8).unwrap();
    let transaction = Transaction::sign(&keypair, receiver_id.clone(), 100, 7);

    assert!(transaction.verify_signature(), "Transaction signature verification failed!");
}

#[test]
fn test_invalid_signature() {
    let (_sender_id, sender_pkcs8) = NodeId::generate().expect("key generation");
    let receiver_id = NodeId::from_public_key(b"receiver_public_key");

    let (_fake_sender_id, fake_pkcs8) = NodeId::generate().expect("key generation");

    let keypair1 = Ed25519KeyPair::from_pkcs8(&sender_pkcs8).unwrap();
    let keypair2 = Ed25519KeyPair::from_pkcs8(&fake_pkcs8).unwrap();

    let mut transaction = Transaction::sign(&keypair1, receiver_id.clone(), 50, 7);

    // Modify transaction manually to simulate tampering
    transaction.trans_signature = keypair2.sign(b"tampered data").as_ref().to_vec();

    assert!(!transaction.verify_signature(), "Tampered transaction should fail verification!");
}

#[test]
fn test_party_name_is_base64_of_key() {
    let id = NodeId::from_public_key(b"abc");
    assert_eq!(id.to_string(), "YWJj");
}
