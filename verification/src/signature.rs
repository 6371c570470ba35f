//! On-chain commitment records for auctions and bids, and the rules that
//! decide which records are authentic.
//!
//! A signature record embeds an entity's id and content hash in a block's
//! transaction payload.  Scanning a chain collects every record; an
//! auction or bid is verified when some record matches both its id and
//! the hash recomputed from its current content.

use vstd::prelude::*;

use crate::auction::Auction;
use crate::auction::Bid;
use crate::auction::auction_hash_spec;
use crate::auction::bid_hash_spec;
use crate::block::Block;
use crate::chain::Chain;
use crate::json::ascii_bytes;
use crate::json::json_bytes;
use crate::json::json_string;
use crate::json::match_at;
use crate::json::parse_bytes_at;
use crate::json::parse_string_at;
use crate::textenc::dec_chars;
use crate::textenc::u64_to_string;

verus! {

/// Rejection of a malformed record.
#[derive(Clone, Copy, PartialEq, Eq, Structural, Debug)]
pub enum CodecError {
    /// The bytes do not spell a record of the expected shape.
    Malformed,
}

/// The JSON text of a signature record with the given field names.
pub open spec fn sig_json(
    lit_head: Seq<char>,
    lit_mid: Seq<char>,
    id: Seq<u8>,
    hash: Seq<u8>,
) -> Seq<u8> {
    ascii_bytes(lit_head) + json_string(id) + ascii_bytes(lit_mid) + json_bytes(hash)
        + ascii_bytes("}"@)
}

/// Reads a signature record with the given field names: a quoted id, then
/// a byte array, with the whole input consumed.
pub open spec fn parse_sig(lit_head: Seq<char>, lit_mid: Seq<char>, s: Seq<u8>) -> Option<
    (Seq<u8>, Seq<u8>),
> {
    let head = ascii_bytes(lit_head);
    let mid = ascii_bytes(lit_mid);
    if !match_at(s, 0, head) {
        None
    } else {
        match parse_string_at(s, head.len() as int) {
            None => None,
            Some((id, p1)) => if !match_at(s, p1, mid) {
                None
            } else {
                match parse_bytes_at(s, p1 + mid.len()) {
                    None => None,
                    Some((hash, p2)) => if match_at(s, p2, ascii_bytes("}"@)) && p2 + 1 == s.len() {
                        Some((id, hash))
                    } else {
                        None
                    },
                }
            },
        }
    }
}

/// A commitment anchoring an auction on the chain.
pub struct AuctionSignature {
    /// The id of the auction, as decimal text.
    pub auction_id: String,
    /// The content hash of the auction.
    pub auction_hash: Vec<u8>,
}

impl Clone for AuctionSignature {
    /// A cloned record carries the same fields.
    fn clone(&self) -> (r: Self)
        ensures
            r.auction_id@ == self.auction_id@,
            r.auction_hash@ == self.auction_hash@,
    {
        AuctionSignature {
            auction_id: self.auction_id.clone(),
            auction_hash: crate::block::copy_bytes(&self.auction_hash),
        }
    }
}

/// A commitment anchoring a bid on the chain.
pub struct BidSignature {
    /// The id of the bid, as decimal text.
    pub bid_id: String,
    /// The content hash of the bid.
    pub bid_hash: Vec<u8>,
}

impl Clone for BidSignature {
    /// A cloned record carries the same fields.
    fn clone(&self) -> (r: Self)
        ensures
            r.bid_id@ == self.bid_id@,
            r.bid_hash@ == self.bid_hash@,
    {
        BidSignature {
            bid_id: self.bid_id.clone(),
            bid_hash: crate::block::copy_bytes(&self.bid_hash),
        }
    }
}

/// Serializes one signature record with the given field-name literals.
fn emit_sig(head: &str, mid: &str, id: &String, hash: &Vec<u8>) -> (r: Vec<u8>)
    requires
        head.is_ascii(),
        mid.is_ascii(),
    ensures
        r@ == sig_json(head@, mid@, vstd::utf8::encode_utf8(id@), hash@),
{
    proof {
        reveal_strlit("}");
    }
    let mut out: Vec<u8> = Vec::new();
    crate::json::append_lit(&mut out, head);
    let id_bytes = id.as_str().as_bytes_vec();
    crate::json::append_string(&mut out, &id_bytes);
    crate::json::append_lit(&mut out, mid);
    crate::json::append_bytes(&mut out, hash);
    crate::json::append_lit(&mut out, "}");
    out
}

/// Parses one signature record with the given field-name literals.
fn read_sig(head: &str, mid: &str, bytes: &Vec<u8>) -> (r: Option<(String, Vec<u8>)>)
    requires
        head.is_ascii(),
        mid.is_ascii(),
    ensures
        match r {
            Some(p) => match parse_sig(head@, mid@, bytes@) {
                Some(q) => vstd::utf8::encode_utf8(p.0@) == q.0 && p.1@ == q.1,
                None => false,
            },
            None => (match parse_sig(head@, mid@, bytes@) {
                Some(q) => !vstd::utf8::valid_utf8(q.0),
                None => true,
            }),
        },
{
    proof {
        reveal_strlit("}");
    }
    let p0 = match crate::json::expect_lit(bytes, 0, head) {
        Some(p) => p,
        None => {
            return None;
        },
    };
    let (id_bytes, p1) = match crate::json::parse_string(bytes, p0) {
        Some(r) => r,
        None => {
            return None;
        },
    };
    let p1b = match crate::json::expect_lit(bytes, p1, mid) {
        Some(p) => p,
        None => {
            return None;
        },
    };
    let (hash, p2) = match crate::json::parse_bytes(bytes, p1b) {
        Some(r) => r,
        None => {
            return None;
        },
    };
    let p3 = match crate::json::expect_lit(bytes, p2, "}") {
        Some(p) => p,
        None => {
            return None;
        },
    };
    if p3 != bytes.len() {
        return None;
    }
    let id = match crate::textenc::string_from_utf8(id_bytes) {
        Some(s) => s,
        None => {
            return None;
        },
    };
    Some((id, hash))
}

/// Whether some record commits to this auction: same id and same content
/// hash.
pub open spec fn has_auction_sig(sigs: Seq<AuctionSignature>, a: Auction) -> bool {
    exists|i: int|
        0 <= i < sigs.len() && (#[trigger] sigs[i]).auction_id@ == dec_chars(a.id as nat)
            && sigs[i].auction_hash@ == auction_hash_spec(a)
}

/// Whether some record commits to this bid: same id and same content hash.
pub open spec fn has_bid_sig(sigs: Seq<BidSignature>, b: Bid) -> bool {
    exists|i: int|
        0 <= i < sigs.len() && (#[trigger] sigs[i]).bid_id@ == dec_chars(b.id as nat)
            && sigs[i].bid_hash@ == bid_hash_spec(b)
}

/// Byte-wise equality of two byte vectors.
fn bytes_eq(a: &Vec<u8>, b: &Vec<u8>) -> (r: bool)
    ensures
        r == (a@ == b@),
{
    if a.len() != b.len() {
        return false;
    }
    let n = a.len();
    for i in 0..n
        invariant
            n == a@.len(),
            n == b@.len(),
            forall|j: int| 0 <= j < i ==> a@[j] == b@[j],
    {
        if a[i] != b[i] {
            return false;
        }
    }
    proof {
        assert(a@ =~= b@);
    }
    true
}

/// Whether some record in the list matches the given id text and hash.
fn auction_sig_matches(sigs: &Vec<AuctionSignature>, a: &Auction, hash: &Vec<u8>) -> (r: bool)
    requires
        hash@ == auction_hash_spec(*a),
    ensures
        r == has_auction_sig(sigs@, *a),
{
    let id_text = u64_to_string(a.id as u64);
    let n = sigs.len();
    for i in 0..n
        invariant
            n == sigs@.len(),
            id_text@ == dec_chars(a.id as nat),
            hash@ == auction_hash_spec(*a),
            forall|j: int| 0 <= j < i ==> !((#[trigger] sigs@[j]).auction_id@ == dec_chars(
                a.id as nat,
            ) && sigs@[j].auction_hash@ == auction_hash_spec(*a)),
    {
        if sigs[i].auction_id == id_text && bytes_eq(&sigs[i].auction_hash, hash) {
            return true;
        }
    }
    false
}

/// Whether some record in the list matches the given bid.
fn bid_sig_matches(sigs: &Vec<BidSignature>, b: &Bid, hash: &Vec<u8>) -> (r: bool)
    requires
        hash@ == bid_hash_spec(*b),
    ensures
        r == has_bid_sig(sigs@, *b),
{
    let id_text = u64_to_string(b.id as u64);
    let n = sigs.len();
    for i in 0..n
        invariant
            n == sigs@.len(),
            id_text@ == dec_chars(b.id as nat),
            hash@ == bid_hash_spec(*b),
            forall|j: int| 0 <= j < i ==> !((#[trigger] sigs@[j]).bid_id@ == dec_chars(b.id as nat)
                && sigs@[j].bid_hash@ == bid_hash_spec(*b)),
    {
        if sigs[i].bid_id == id_text && bytes_eq(&sigs[i].bid_hash, hash) {
            return true;
        }
    }
    false
}

/// The id/hash pairs of the auction records a chain's blocks carry, in
/// block order: a block contributes when its payload parses as a record
/// whose id is text.
pub open spec fn auction_sigs_of(blocks: Seq<Block>) -> Seq<(Seq<u8>, Seq<u8>)>
    decreases blocks.len(),
{
    if blocks.len() == 0 {
        Seq::empty()
    } else {
        let rest = auction_sigs_of(blocks.subrange(1, blocks.len() as int));
        match parse_sig(
            "{\"auction_id\":"@,
            ",\"auction_hash\":"@,
            blocks[0].body.transactions@,
        ) {
            Some(p) => if vstd::utf8::valid_utf8(p.0) {
                seq![p] + rest
            } else {
                rest
            },
            None => rest,
        }
    }
}

/// The id/hash pairs of the bid records a chain's blocks carry.
pub open spec fn bid_sigs_of(blocks: Seq<Block>) -> Seq<(Seq<u8>, Seq<u8>)>
    decreases blocks.len(),
{
    if blocks.len() == 0 {
        Seq::empty()
    } else {
        let rest = bid_sigs_of(blocks.subrange(1, blocks.len() as int));
        match parse_sig("{\"bid_id\":"@, ",\"bid_hash\":"@, blocks[0].body.transactions@) {
            Some(p) => if vstd::utf8::valid_utf8(p.0) {
                seq![p] + rest
            } else {
                rest
            },
            None => rest,
        }
    }
}

impl AuctionSignature {
    /// A record committing to the given id and hash.
    pub fn new(auction_id: String, auction_hash: Vec<u8>) -> (r: AuctionSignature)
        ensures
            r.auction_id@ == auction_id@,
            r.auction_hash@ == auction_hash@,
    {
        AuctionSignature { auction_id, auction_hash }
    }

    /// The record's JSON text.
    pub fn serialized_to_bytes(&self) -> (r: Vec<u8>)
        ensures
            r@ == sig_json(
                "{\"auction_id\":"@,
                ",\"auction_hash\":"@,
                vstd::utf8::encode_utf8(self.auction_id@),
                self.auction_hash@,
            ),
    {
        proof {
            reveal_strlit("{\"auction_id\":");
            reveal_strlit(",\"auction_hash\":");
        }
        emit_sig("{\"auction_id\":", ",\"auction_hash\":", &self.auction_id, &self.auction_hash)
    }

    /// Reads a record back from its JSON text.
    pub fn deserialized_from_bytes(bytes: &Vec<u8>) -> (r: Result<AuctionSignature, CodecError>)
        ensures
            match r {
                Ok(sig) => match parse_sig("{\"auction_id\":"@, ",\"auction_hash\":"@, bytes@) {
                    Some(q) => vstd::utf8::encode_utf8(sig.auction_id@) == q.0 && sig.auction_hash@
                        == q.1,
                    None => false,
                },
                Err(_) => (match parse_sig("{\"auction_id\":"@, ",\"auction_hash\":"@, bytes@) {
                    Some(q) => !vstd::utf8::valid_utf8(q.0),
                    None => true,
                }),
            },
    {
        proof {
            reveal_strlit("{\"auction_id\":");
            reveal_strlit(",\"auction_hash\":");
        }
        match read_sig("{\"auction_id\":", ",\"auction_hash\":", bytes) {
            Some((id, hash)) => Ok(AuctionSignature { auction_id: id, auction_hash: hash }),
            None => Err(CodecError::Malformed),
        }
    }

    /// Collects every auction record the chain's blocks carry, in block
    /// order.
    pub fn get_signatures(chain: &Chain) -> (r: Vec<AuctionSignature>)
        ensures
            r@.len() == auction_sigs_of(chain.blocks@).len(),
            forall|i: int| 0 <= i < r@.len() ==> vstd::utf8::encode_utf8(
                (#[trigger] r@[i]).auction_id@,
            ) == auction_sigs_of(chain.blocks@)[i].0 && r@[i].auction_hash@ == auction_sigs_of(
                chain.blocks@,
            )[i].1,
    {
        let blocks = chain.get_chain();
        let n = blocks.len();
        let mut out: Vec<AuctionSignature> = Vec::new();
        let ghost full = auction_sigs_of(blocks@);
        proof {
            assert(blocks@.take(0) =~= Seq::<Block>::empty());
            assert(blocks@.subrange(0, n as int) =~= blocks@);
            assert(Seq::<(Seq<u8>, Seq<u8>)>::empty() + full =~= full);
        }
        let mut i: usize = 0;
        while i < n
            invariant
                n == blocks@.len(),
                i <= n,
                full == auction_sigs_of(blocks@),
                full =~= auction_sigs_of(blocks@.take(i as int)) + auction_sigs_of(
                    blocks@.subrange(i as int, n as int),
                ),
                out@.len() == auction_sigs_of(blocks@.take(i as int)).len(),
                forall|j: int| 0 <= j < out@.len() ==> vstd::utf8::encode_utf8(
                    (#[trigger] out@[j]).auction_id@,
                ) == auction_sigs_of(blocks@.take(i as int))[j].0 && out@[j].auction_hash@
                    == auction_sigs_of(blocks@.take(i as int))[j].1,
            decreases n - i,
        {
            let ghost head = (match parse_sig(
                "{\"auction_id\":"@,
                ",\"auction_hash\":"@,
                blocks@[i as int].body.transactions@,
            ) {
                Some(p) => if vstd::utf8::valid_utf8(p.0) {
                    seq![p]
                } else {
                    Seq::empty()
                },
                None => Seq::empty(),
            });
            proof {
                lemma_sigs_take_step_auction(blocks@, i as int);
                assert(blocks@.take(i + 1) =~= blocks@.take(i as int).push(blocks@[i as int]));
            }
            match AuctionSignature::deserialized_from_bytes(blocks[i].get_transactions()) {
                Ok(sig) => {
                    proof {
                        vstd::utf8::encode_utf8_valid_utf8(sig.auction_id@);
                        assert(head.len() == 1);
                        assert(head[0].0 == vstd::utf8::encode_utf8(sig.auction_id@));
                        assert(head[0].1 == sig.auction_hash@);
                    }
                    out.push(sig);
                },
                Err(_) => {
                    proof {
                        assert(head =~= Seq::<(Seq<u8>, Seq<u8>)>::empty());
                    }
                },
            }
            proof {
                assert(auction_sigs_of(blocks@.take(i + 1)) =~= auction_sigs_of(blocks@.take(i as int))
                    + head);
                assert(auction_sigs_of(blocks@.subrange(i as int, n as int)) =~= head + auction_sigs_of(
                    blocks@.subrange(i + 1, n as int),
                ));
                assert((auction_sigs_of(blocks@.take(i as int)) + head) + auction_sigs_of(
                    blocks@.subrange(i + 1, n as int),
                ) =~= auction_sigs_of(blocks@.take(i as int)) + (auction_sigs_of(
                    blocks@.subrange(i as int, n as int),
                )));
            }
            i = i + 1;
        }
        proof {
            assert(blocks@.take(n as int) =~= blocks@);
        }
        out
    }

    /// Keeps the auctions some record commits to: same id and same
    /// recomputed content hash.  The order of the auctions is kept.
    pub fn verify_auctions(signatures: Vec<AuctionSignature>, auctions: Vec<Auction>) -> (r: Vec<
        Auction,
    >)
        ensures
            r@ == auctions@.filter(|a: Auction| has_auction_sig(signatures@, a)),
    {
        proof {
            reveal(Seq::filter);
        }
        let mut rest = auctions;
        let mut out: Vec<Auction> = Vec::new();
        let ghost orig = rest@;
        let ghost pred = |a: Auction| has_auction_sig(signatures@, a);
        while rest.len() > 0
            invariant
                orig =~= orig.take(orig.len() - rest@.len()) + rest@,
                out@ == orig.take(orig.len() - rest@.len()).filter(pred),
                pred == (|a: Auction| has_auction_sig(signatures@, a)),
            decreases rest@.len(),
        {
            let ghost done = orig.take(orig.len() - rest@.len());
            let a = rest.remove(0);
            let hash = a.get_hash();
            let keep = auction_sig_matches(&signatures, &a, &hash);
            proof {
                reveal(Seq::filter);
                assert(orig.take(orig.len() - rest@.len()) =~= done.push(a));
                assert(done.push(a).drop_last() =~= done);
                assert(done.push(a).filter(pred) == if pred(a) {
                    done.filter(pred).push(a)
                } else {
                    done.filter(pred)
                });
            }
            if keep {
                out.push(a);
            }
            proof {
                assert(orig =~= orig.take(orig.len() - rest@.len()) + rest@);
            }
        }
        proof {
            assert(orig.take(orig.len() as int) =~= orig);
        }
        out
    }
}

impl BidSignature {
    /// A record committing to the given id and hash.
    pub fn new(bid_id: String, bid_hash: Vec<u8>) -> (r: BidSignature)
        ensures
            r.bid_id@ == bid_id@,
            r.bid_hash@ == bid_hash@,
    {
        BidSignature { bid_id, bid_hash }
    }

    /// The record's JSON text.
    pub fn serialized_to_bytes(&self) -> (r: Vec<u8>)
        ensures
            r@ == sig_json(
                "{\"bid_id\":"@,
                ",\"bid_hash\":"@,
                vstd::utf8::encode_utf8(self.bid_id@),
                self.bid_hash@,
            ),
    {
        proof {
            reveal_strlit("{\"bid_id\":");
            reveal_strlit(",\"bid_hash\":");
        }
        emit_sig("{\"bid_id\":", ",\"bid_hash\":", &self.bid_id, &self.bid_hash)
    }

    /// Reads a record back from its JSON text.
    pub fn deserialized_from_bytes(bytes: &Vec<u8>) -> (r: Result<BidSignature, CodecError>)
        ensures
            match r {
                Ok(sig) => match parse_sig("{\"bid_id\":"@, ",\"bid_hash\":"@, bytes@) {
                    Some(q) => vstd::utf8::encode_utf8(sig.bid_id@) == q.0 && sig.bid_hash@ == q.1,
                    None => false,
                },
                Err(_) => (match parse_sig("{\"bid_id\":"@, ",\"bid_hash\":"@, bytes@) {
                    Some(q) => !vstd::utf8::valid_utf8(q.0),
                    None => true,
                }),
            },
    {
        proof {
            reveal_strlit("{\"bid_id\":");
            reveal_strlit(",\"bid_hash\":");
        }
        match read_sig("{\"bid_id\":", ",\"bid_hash\":", bytes) {
            Some((id, hash)) => Ok(BidSignature { bid_id: id, bid_hash: hash }),
            None => Err(CodecError::Malformed),
        }
    }

    /// Collects every bid record the chain's blocks carry, in block order.
    pub fn get_signatures(chain: &Chain) -> (r: Vec<BidSignature>)
        ensures
            r@.len() == bid_sigs_of(chain.blocks@).len(),
            forall|i: int| 0 <= i < r@.len() ==> vstd::utf8::encode_utf8(
                (#[trigger] r@[i]).bid_id@,
            ) == bid_sigs_of(chain.blocks@)[i].0 && r@[i].bid_hash@ == bid_sigs_of(
                chain.blocks@,
            )[i].1,
    {
        let blocks = chain.get_chain();
        let n = blocks.len();
        let mut out: Vec<BidSignature> = Vec::new();
        let ghost full = bid_sigs_of(blocks@);
        proof {
            assert(blocks@.take(0) =~= Seq::<Block>::empty());
            assert(blocks@.subrange(0, n as int) =~= blocks@);
            assert(Seq::<(Seq<u8>, Seq<u8>)>::empty() + full =~= full);
        }
        let mut i: usize = 0;
        while i < n
            invariant
                n == blocks@.len(),
                i <= n,
                full == bid_sigs_of(blocks@),
                full =~= bid_sigs_of(blocks@.take(i as int)) + bid_sigs_of(
                    blocks@.subrange(i as int, n as int),
                ),
                out@.len() == bid_sigs_of(blocks@.take(i as int)).len(),
                forall|j: int| 0 <= j < out@.len() ==> vstd::utf8::encode_utf8(
                    (#[trigger] out@[j]).bid_id@,
                ) == bid_sigs_of(blocks@.take(i as int))[j].0 && out@[j].bid_hash@ == bid_sigs_of(
                    blocks@.take(i as int),
                )[j].1,
            decreases n - i,
        {
            let ghost head = (match parse_sig(
                "{\"bid_id\":"@,
                ",\"bid_hash\":"@,
                blocks@[i as int].body.transactions@,
            ) {
                Some(p) => if vstd::utf8::valid_utf8(p.0) {
                    seq![p]
                } else {
                    Seq::empty()
                },
                None => Seq::empty(),
            });
            proof {
                lemma_sigs_take_step_bid(blocks@, i as int);
                assert(blocks@.take(i + 1) =~= blocks@.take(i as int).push(blocks@[i as int]));
            }
            match BidSignature::deserialized_from_bytes(blocks[i].get_transactions()) {
                Ok(sig) => {
                    proof {
                        vstd::utf8::encode_utf8_valid_utf8(sig.bid_id@);
                        assert(head.len() == 1);
                        assert(head[0].0 == vstd::utf8::encode_utf8(sig.bid_id@));
                        assert(head[0].1 == sig.bid_hash@);
                    }
                    out.push(sig);
                },
                Err(_) => {
                    proof {
                        assert(head =~= Seq::<(Seq<u8>, Seq<u8>)>::empty());
                    }
                },
            }
            proof {
                assert(bid_sigs_of(blocks@.take(i + 1)) =~= bid_sigs_of(blocks@.take(i as int))
                    + head);
                assert(bid_sigs_of(blocks@.subrange(i as int, n as int)) =~= head + bid_sigs_of(
                    blocks@.subrange(i + 1, n as int),
                ));
                assert((bid_sigs_of(blocks@.take(i as int)) + head) + bid_sigs_of(
                    blocks@.subrange(i + 1, n as int),
                ) =~= bid_sigs_of(blocks@.take(i as int)) + (bid_sigs_of(
                    blocks@.subrange(i as int, n as int),
                )));
            }
            i = i + 1;
        }
        proof {
            assert(blocks@.take(n as int) =~= blocks@);
        }
        out
    }

    /// The bids the verification rules accept, given the records on the
    /// chain: bids are taken in ascending timestamp order; a bid after the
    /// auction's end, or not strictly above the highest accepted amount so
    /// far, is dropped; what remains must have a matching record.  The
    /// highest-so-far tracker advances only on fully verified bids.
    pub fn verify_bids(signatures: Vec<BidSignature>, bids: Vec<Bid>, auction: Auction) -> (r: Vec<
        Bid,
    >)
        ensures
            exists|sorted: Seq<Bid>|
                (#[trigger] sorted.to_multiset() == bids@.to_multiset() && sorted_by_time(sorted)
                    && r@ == accepted_bids(signatures@, sorted, auction.ending_time, 0)),
    {
        let sorted = sort_bids_by_timestamp(bids);
        let ghost sorted0 = sorted@;
        let mut rest = sorted;
        let mut out: Vec<Bid> = Vec::new();
        let mut highest: u64 = 0;
        while rest.len() > 0
            invariant
                accepted_bids(signatures@, sorted0, auction.ending_time, 0) == out@
                    + accepted_bids(signatures@, rest@, auction.ending_time, highest),
            decreases rest@.len(),
        {
            let ghost rest0 = rest@;
            let b = rest.remove(0);
            proof {
                assert(rest@ =~= rest0.subrange(1, rest0.len() as int));
            }
            if b.timestamp > auction.ending_time {
                proof {
                    lemma_accepted_unfold(signatures@, rest0, auction.ending_time, highest);
                }
                continue ;
            }
            if b.amount <= highest {
                proof {
                    lemma_accepted_unfold(signatures@, rest0, auction.ending_time, highest);
                }
                continue ;
            }
            let hash = b.get_hash();
            let ok = bid_sig_matches(&signatures, &b, &hash);
            proof {
                lemma_accepted_unfold(signatures@, rest0, auction.ending_time, highest);
            }
            if ok {
                let amount = b.amount;
                out.push(b);
                proof {
                    assert(out@.drop_last() + (seq![out@.last()] + accepted_bids(
                        signatures@,
                        rest@,
                        auction.ending_time,
                        amount,
                    )) =~= out@ + accepted_bids(signatures@, rest@, auction.ending_time, amount));
                }
                highest = amount;
            }
        }
        proof {
            assert(rest@.len() == 0);
            assert(accepted_bids(signatures@, rest@, auction.ending_time, highest)
                =~= Seq::<Bid>::empty());
            assert(out@ + Seq::<Bid>::empty() =~= out@);
        }
        out
    }

    /// The verified bid with the greatest amount, the latest of equals
    /// winning, or nothing when no bid was verified.
    pub fn winning_bid(verified_bids: Vec<Bid>) -> (r: Option<Bid>)
        ensures
            match r {
                None => verified_bids@.len() == 0,
                Some(b) => exists|i: int|
                    0 <= i < verified_bids@.len() && b == verified_bids@[i] && (forall|j: int|
                        0 <= j < verified_bids@.len() ==> (#[trigger] verified_bids@[j]).amount
                            <= verified_bids@[i].amount) && (forall|j: int|
                        i < j < verified_bids@.len() ==> (#[trigger] verified_bids@[j]).amount
                            < verified_bids@[i].amount),
            },
    {
        if verified_bids.len() == 0 {
            return None;
        }
        let n = verified_bids.len();
        let mut best: usize = 0;
        for j in 1..n
            invariant
                n == verified_bids@.len(),
                best < j,
                forall|t: int| 0 <= t < j ==> (#[trigger] verified_bids@[t]).amount
                    <= verified_bids@[best as int].amount,
                forall|t: int| best < t < j ==> (#[trigger] verified_bids@[t]).amount
                    < verified_bids@[best as int].amount,
        {
            if verified_bids[j].amount >= verified_bids[best].amount {
                best = j;
            }
        }
        let mut bids = verified_bids;
        let b = bids.remove(best);
        Some(b)
    }
}

/// Bids ordered by ascending timestamp.
pub open spec fn sorted_by_time(s: Seq<Bid>) -> bool {
    forall|i: int, j: int| 0 <= i < j < s.len() ==> s[i].timestamp <= s[j].timestamp
}

/// The bids the verification rules accept from a timestamp-ordered list,
/// given the records and the close of the auction, carrying the highest
/// accepted amount so far.
pub open spec fn accepted_bids(
    sigs: Seq<BidSignature>,
    bids: Seq<Bid>,
    ending: u64,
    highest: u64,
) -> Seq<Bid>
    decreases bids.len(),
{
    if bids.len() == 0 {
        Seq::empty()
    } else {
        let b = bids[0];
        let rest = bids.subrange(1, bids.len() as int);
        if b.timestamp > ending {
            accepted_bids(sigs, rest, ending, highest)
        } else if b.amount <= highest {
            accepted_bids(sigs, rest, ending, highest)
        } else if has_bid_sig(sigs, b) {
            seq![b] + accepted_bids(sigs, rest, ending, b.amount)
        } else {
            accepted_bids(sigs, rest, ending, highest)
        }
    }
}

/// One unfolding of `accepted_bids` on a non-empty list.
proof fn lemma_accepted_unfold(sigs: Seq<BidSignature>, bids: Seq<Bid>, ending: u64, highest: u64)
    requires
        bids.len() > 0,
    ensures
        accepted_bids(sigs, bids, ending, highest) == (if bids[0].timestamp > ending {
            accepted_bids(sigs, bids.subrange(1, bids.len() as int), ending, highest)
        } else if bids[0].amount <= highest {
            accepted_bids(sigs, bids.subrange(1, bids.len() as int), ending, highest)
        } else if has_bid_sig(sigs, bids[0]) {
            seq![bids[0]] + accepted_bids(
                sigs,
                bids.subrange(1, bids.len() as int),
                ending,
                bids[0].amount,
            )
        } else {
            accepted_bids(sigs, bids.subrange(1, bids.len() as int), ending, highest)
        }),
{
}

/// Sorts bids by ascending timestamp, keeping exactly the same bids.
fn sort_bids_by_timestamp(bids: Vec<Bid>) -> (r: Vec<Bid>)
    ensures
        r@.to_multiset() == bids@.to_multiset(),
        sorted_by_time(r@),
{
    broadcast use vstd::seq_lib::group_to_multiset_ensures;

    let mut rest = bids;
    let mut out: Vec<Bid> = Vec::new();
    let ghost orig = rest@;
    while rest.len() > 0
        invariant
            orig.to_multiset() =~= out@.to_multiset().add(rest@.to_multiset()),
            sorted_by_time(out@),
        decreases rest@.len(),
    {
        let ghost rest0 = rest@;
        let b = rest.remove(0);
        proof {
            broadcast use vstd::seq_lib::group_to_multiset_ensures;

            assert(rest@ =~= rest0.subrange(1, rest0.len() as int));
            assert(rest0.to_multiset() =~= rest@.to_multiset().insert(b)) by {
                assert(rest0.remove(0) =~= rest@);
            }
        }
        let mut p: usize = 0;
        while p < out.len() && out[p].timestamp <= b.timestamp
            invariant
                p <= out@.len(),
                sorted_by_time(out@),
                forall|j: int| 0 <= j < p ==> (#[trigger] out@[j]).timestamp <= b.timestamp,
            decreases out@.len() - p,
        {
            p = p + 1;
        }
        let ghost pre = out@;
        out.insert(p, b);
        proof {
            broadcast use vstd::seq_lib::group_to_multiset_ensures;

            let s1 = out@;
            assert forall|x: int, y: int| 0 <= x < y < s1.len() implies s1[x].timestamp
                <= s1[y].timestamp by {
                let pi = p as int;
                if x < pi && y == pi {
                } else if x == pi && y > pi {
                    assert(s1[y] == pre[y - 1]);
                    assert(pre[pi].timestamp > b.timestamp || pi >= pre.len());
                    if pi < pre.len() {
                        assert(pre[pi].timestamp <= pre[y - 1].timestamp || pi == y - 1);
                    }
                } else if x < pi && y > pi {
                    assert(s1[y] == pre[y - 1]);
                } else if x > pi {
                    assert(s1[x] == pre[x - 1]);
                    assert(s1[y] == pre[y - 1]);
                }
            }
            lemma_insert_bid_multiset(pre, p as int, b);
        }
    }
    proof {
        broadcast use vstd::seq_lib::group_to_multiset_ensures;

        assert(rest@.to_multiset() =~= Seq::<Bid>::empty().to_multiset());
        assert(orig.to_multiset() =~= out@.to_multiset());
    }
    out
}

/// Inserting anywhere in a sequence inserts into its multiset.
proof fn lemma_insert_bid_multiset(s: Seq<Bid>, p: int, x: Bid)
    requires
        0 <= p <= s.len(),
    ensures
        s.insert(p, x).to_multiset() =~= s.to_multiset().insert(x),
{
    broadcast use vstd::seq_lib::group_to_multiset_ensures;

    let mid = seq![x] + s.skip(p);
    assert(s.insert(p, x) =~= s.take(p) + mid);
    vstd::seq_lib::lemma_multiset_commutative(s.take(p), mid);
    vstd::seq_lib::lemma_multiset_commutative(seq![x], s.skip(p));
    assert(s =~= s.take(p) + s.skip(p));
    vstd::seq_lib::lemma_multiset_commutative(s.take(p), s.skip(p));
    assert(seq![x].to_multiset() =~= vstd::multiset::Multiset::empty().insert(x)) by {
        assert(seq![x].drop_first() =~= Seq::<Bid>::empty());
    }
}

/// One chain prefix step for auction records.
proof fn lemma_sigs_take_step_auction(blocks: Seq<Block>, i: int)
    requires
        0 <= i < blocks.len(),
    ensures
        auction_sigs_of(blocks.take(i + 1)) =~= auction_sigs_of(blocks.take(i)) + (match parse_sig(
            "{\"auction_id\":"@,
            ",\"auction_hash\":"@,
            blocks[i].body.transactions@,
        ) {
            Some(p) => if vstd::utf8::valid_utf8(p.0) {
                seq![p]
            } else {
                Seq::empty()
            },
            None => Seq::empty(),
        }),
        auction_sigs_of(blocks.subrange(i, blocks.len() as int)) =~= (match parse_sig(
            "{\"auction_id\":"@,
            ",\"auction_hash\":"@,
            blocks[i].body.transactions@,
        ) {
            Some(p) => if vstd::utf8::valid_utf8(p.0) {
                seq![p]
            } else {
                Seq::empty()
            },
            None => Seq::empty(),
        }) + auction_sigs_of(blocks.subrange(i + 1, blocks.len() as int)),
    decreases i,
{
    lemma_sigs_concat_auction(blocks.take(i + 1), i);
    let tail = blocks.subrange(i, blocks.len() as int);
    assert(tail[0] == blocks[i]);
    assert(tail.subrange(1, tail.len() as int) =~= blocks.subrange(i + 1, blocks.len() as int));
    assert(blocks.take(i + 1).take(i) =~= blocks.take(i));
    assert(blocks.take(i + 1)[i] == blocks[i]);
}

/// Splitting the last block off an auction-record scan.
proof fn lemma_sigs_concat_auction(blocks: Seq<Block>, i: int)
    requires
        blocks.len() == i + 1,
        0 <= i,
    ensures
        auction_sigs_of(blocks) =~= auction_sigs_of(blocks.take(i)) + (match parse_sig(
            "{\"auction_id\":"@,
            ",\"auction_hash\":"@,
            blocks[i].body.transactions@,
        ) {
            Some(p) => if vstd::utf8::valid_utf8(p.0) {
                seq![p]
            } else {
                Seq::empty()
            },
            None => Seq::empty(),
        }),
    decreases i,
{
    if i == 0 {
        assert(blocks.subrange(1, 1) =~= Seq::<Block>::empty());
        assert(blocks.take(0) =~= Seq::<Block>::empty());
    } else {
        let t = blocks.subrange(1, blocks.len() as int);
        lemma_sigs_concat_auction(t, i - 1);
        assert(t.take(i - 1) =~= blocks.take(i).subrange(1, i as int));
        assert(t[i - 1] == blocks[i]);
        assert(blocks.take(i)[0] == blocks[0]);
        assert(blocks.take(i).subrange(1, i as int) =~= blocks.subrange(1, i as int));
        assert(t.take(i - 1) =~= blocks.subrange(1, i as int));
    }
}

/// One chain prefix step for bid records.
proof fn lemma_sigs_take_step_bid(blocks: Seq<Block>, i: int)
    requires
        0 <= i < blocks.len(),
    ensures
        bid_sigs_of(blocks.take(i + 1)) =~= bid_sigs_of(blocks.take(i)) + (match parse_sig(
            "{\"bid_id\":"@,
            ",\"bid_hash\":"@,
            blocks[i].body.transactions@,
        ) {
            Some(p) => if vstd::utf8::valid_utf8(p.0) {
                seq![p]
            } else {
                Seq::empty()
            },
            None => Seq::empty(),
        }),
        bid_sigs_of(blocks.subrange(i, blocks.len() as int)) =~= (match parse_sig(
            "{\"bid_id\":"@,
            ",\"bid_hash\":"@,
            blocks[i].body.transactions@,
        ) {
            Some(p) => if vstd::utf8::valid_utf8(p.0) {
                seq![p]
            } else {
                Seq::empty()
            },
            None => Seq::empty(),
        }) + bid_sigs_of(blocks.subrange(i + 1, blocks.len() as int)),
    decreases i,
{
    lemma_sigs_concat_bid(blocks.take(i + 1), i);
    let tail = blocks.subrange(i, blocks.len() as int);
    assert(tail[0] == blocks[i]);
    assert(tail.subrange(1, tail.len() as int) =~= blocks.subrange(i + 1, blocks.len() as int));
    assert(blocks.take(i + 1).take(i) =~= blocks.take(i));
    assert(blocks.take(i + 1)[i] == blocks[i]);
}

/// Splitting the last block off a bid-record scan.
proof fn lemma_sigs_concat_bid(blocks: Seq<Block>, i: int)
    requires
        blocks.len() == i + 1,
        0 <= i,
    ensures
        bid_sigs_of(blocks) =~= bid_sigs_of(blocks.take(i)) + (match parse_sig(
            "{\"bid_id\":"@,
            ",\"bid_hash\":"@,
            blocks[i].body.transactions@,
        ) {
            Some(p) => if vstd::utf8::valid_utf8(p.0) {
                seq![p]
            } else {
                Seq::empty()
            },
            None => Seq::empty(),
        }),
    decreases i,
{
    if i == 0 {
        assert(blocks.subrange(1, 1) =~= Seq::<Block>::empty());
        assert(blocks.take(0) =~= Seq::<Block>::empty());
    } else {
        let t = blocks.subrange(1, blocks.len() as int);
        lemma_sigs_concat_bid(t, i - 1);
        assert(t.take(i - 1) =~= blocks.take(i).subrange(1, i as int));
        assert(t[i - 1] == blocks[i]);
        assert(blocks.take(i)[0] == blocks[0]);
        assert(blocks.take(i).subrange(1, i as int) =~= blocks.subrange(1, i as int));
        assert(t.take(i - 1) =~= blocks.subrange(1, i as int));
    }
}

} // verus!
