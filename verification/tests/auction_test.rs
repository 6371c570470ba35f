use public_ledger::auction::Auction;
use public_ledger::auction::Bid;
use public_ledger::block::Block;
use public_ledger::block::BlockBody;
use public_ledger::block::BlockHeader;
use public_ledger::chain::Chain;
use public_ledger::signature::AuctionSignature;
use public_ledger::signature::BidSignature;

fn sample_bid(id: u32, amount: u64, timestamp: u64) -> Bid {
    Bid::new(id, 1, vec![id as u8], amount, timestamp)
}

#[test]
fn test_bid_ordering_and_winner() {
    // Bids (id=1, 30, t=10), (id=2, 20, t=20), (id=3, 50, t=30), all
    // signed and before the auction's end: id=2 is excluded because 20 is
    // not strictly greater than the prior highest 30; the winner is id=3.
    let auction = Auction::new(1, "lamp".to_string(), 10, 0, 100);
    let bids = vec![sample_bid(1, 30, 10), sample_bid(2, 20, 20), sample_bid(3, 50, 30)];
    let signatures: Vec<BidSignature> = bids
        .iter()
        .map(|b| BidSignature::new(b.id.to_string(), b.get_hash()))
        .collect();

    let verified = BidSignature::verify_bids(signatures, bids, auction);
    let ids: Vec<u32> = verified.iter().map(|b| b.id).collect();
    assert_eq!(ids, vec![1, 3]);

    let winner = BidSignature::winning_bid(verified).expect("a winner exists");
    assert_eq!(winner.id, 3);
    assert_eq!(winner.amount, 50);
}

#[test]
fn test_late_and_unsigned_bids_are_dropped() {
    let auction = Auction::new(1, "lamp".to_string(), 10, 0, 100);
    let late = sample_bid(4, 99, 101); // after the auction's end
    let unsigned = sample_bid(5, 80, 40); // no record on the chain
    let good = sample_bid(6, 60, 50);
    let signatures = vec![
        BidSignature::new(late.id.to_string(), late.get_hash()),
        BidSignature::new(good.id.to_string(), good.get_hash()),
    ];
    let verified =
        BidSignature::verify_bids(signatures, vec![late, unsigned, good], auction);
    let ids: Vec<u32> = verified.iter().map(|b| b.id).collect();
    assert_eq!(ids, vec![6]);
}

#[test]
fn test_winning_bid_of_no_bids_is_none() {
    assert!(BidSignature::winning_bid(Vec::new()).is_none());
}

#[test]
fn test_verify_auctions_checks_id_and_hash() {
    let a1 = Auction::new(1, "chair".to_string(), 5, 0, 50);
    let a2 = Auction::new(2, "table".to_string(), 7, 0, 50);
    let good = AuctionSignature::new("1".to_string(), a1.get_hash());
    let wrong_hash = AuctionSignature::new("2".to_string(), a1.get_hash());
    let verified = AuctionSignature::verify_auctions(vec![good, wrong_hash], vec![a1, a2]);
    let ids: Vec<u32> = verified.iter().map(|a| a.id).collect();
    assert_eq!(ids, vec![1]);
}

#[test]
fn test_signature_record_round_trip() {
    let sig = AuctionSignature::new("17".to_string(), vec![1, 2, 3]);
    let bytes = sig.serialized_to_bytes();
    assert_eq!(
        String::from_utf8(bytes.clone()).unwrap(),
        "{\"auction_id\":\"17\",\"auction_hash\":[1,2,3]}"
    );
    let back = AuctionSignature::deserialized_from_bytes(&bytes).unwrap();
    assert_eq!(back.auction_id, "17");
    assert_eq!(back.auction_hash, vec![1, 2, 3]);

    let bid_sig = BidSignature::new("a\"b\\c".to_string(), vec![255]);
    let bid_bytes = bid_sig.serialized_to_bytes();
    let bid_back = BidSignature::deserialized_from_bytes(&bid_bytes).unwrap();
    assert_eq!(bid_back.bid_id, "a\"b\\c");
    assert_eq!(bid_back.bid_hash, vec![255]);
}

#[test]
fn test_malformed_record_is_rejected() {
    assert!(AuctionSignature::deserialized_from_bytes(&b"not json".to_vec()).is_err());
    assert!(BidSignature::deserialized_from_bytes(&b"{\"bid_id\":3}".to_vec()).is_err());
}

#[test]
fn test_get_signatures_scans_chain() {
    let mut chain = Chain::new();
    let sig = AuctionSignature::new("9".to_string(), vec![4, 5]);
    let block = Block::new(
        BlockHeader::new(vec![0; 64], 0, 0),
        BlockBody::new(sig.serialized_to_bytes()),
    );
    chain.add_block(block);
    // An unrelated payload contributes nothing.
    chain.add_block(Block::new(
        BlockHeader::new(vec![0; 64], 0, 0),
        BlockBody::new(b"noise".to_vec()),
    ));
    let sigs = AuctionSignature::get_signatures(&chain);
    assert_eq!(sigs.len(), 1);
    assert_eq!(sigs[0].auction_id, "9");
    assert_eq!(sigs[0].auction_hash, vec![4, 5]);
    assert!(BidSignature::get_signatures(&chain).is_empty());
}

#[test]
fn test_auction_serialized_exact_text() {
    let mut auction = Auction::new(3, "mug".to_string(), 2, 5, 9);
    auction.add_bid(Bid::new(1, 3, vec![7], 4, 6));
    assert_eq!(
        auction.serialized(),
        "{\"id\":3,\"item_name\":\"mug\",\"starting_price\":2,\"starting_time\":5,\
         \"ending_time\":9,\"bids\":[{\"id\":1,\"auction_id\":3,\"bidder_id\":[7],\
         \"amount\":4,\"timestamp\":6}]}"
    );
}

#[test]
fn test_auction_times() {
    let auction = Auction::new_with_duration(1, "vase".to_string(), 3, 2, 1000);
    assert_eq!(auction.starting_time, 1000);
    assert_eq!(auction.ending_time, 1000 + 2 * 3600);
    assert!(!auction.finished(auction.ending_time));
    assert!(auction.finished(auction.ending_time + 1));
}

#[test]
fn test_ending_time_as_calendar_text() {
    let auction = Auction::new(1, "vase".to_string(), 3, 0, 0);
    assert_eq!(
        auction.get_ending_time_as_string().unwrap(),
        "1970-01-01 00:00:00"
    );
}

#[test]
fn test_bid_serialization_round_trip() {
    let bid = Bid::new(7, 3, vec![1, 2, 255], 42, 99);
    let text = bid.serialized();
    assert_eq!(
        text,
        "{\"id\":7,\"auction_id\":3,\"bidder_id\":[1,2,255],\"amount\":42,\"timestamp\":99}"
    );
    let back = Bid::deserialized(&text).expect("own serialization must parse");
    assert_eq!(back.id, 7);
    assert_eq!(back.auction_id, 3);
    assert_eq!(back.bidder_id, vec![1, 2, 255]);
    assert_eq!(back.amount, 42);
    assert_eq!(back.timestamp, 99);
    assert!(Bid::deserialized("{\"id\":7}").is_none());
}

#[test]
fn test_auction_serialization_round_trip() {
    let mut auction = Auction::new(4, "caf\u{e9} lamp \"deluxe\"".to_string(), 12, 100, 200);
    auction.add_bid(Bid::new(1, 4, vec![9], 20, 110));
    auction.add_bid(Bid::new(2, 4, vec![8], 30, 120));
    let text = auction.serialized();
    let back = Auction::deserialized(&text).expect("own serialization must parse");
    assert_eq!(back.id, 4);
    assert_eq!(back.item_name, "caf\u{e9} lamp \"deluxe\"");
    assert_eq!(back.starting_price, 12);
    assert_eq!(back.starting_time, 100);
    assert_eq!(back.ending_time, 200);
    assert_eq!(back.bids.len(), 2);
    assert_eq!(back.bids[1].amount, 30);
    assert_eq!(back.serialized(), text);
    assert_eq!(back.get_hash(), auction.get_hash());

    let empty = Auction::new(5, "".to_string(), 1, 2, 3);
    let round = Auction::deserialized(&empty.serialized()).expect("empty bids parse");
    assert_eq!(round.bids.len(), 0);
    assert!(Auction::deserialized("{}").is_none());
}
