//! Auctions and bids, content-addressed through their JSON form.
//!
//! Amounts are whole currency units.  Each record's hash is the SHA-256
//! digest of its JSON text; that hash is what an on-chain signature record
//! commits to.

use vstd::prelude::*;

use crate::crypto::sha256;
use crate::crypto::sha256_of;
use crate::json::ascii_bytes;
use crate::json::ascii_only;
use crate::json::json_bytes;
use crate::json::json_string;
use crate::json::match_at;
use crate::json::parse_bytes_at;
use crate::json::parse_u64_at;
use crate::json::lemma_ascii_bytes_only;
use crate::json::lemma_ascii_concat;
use crate::json::lemma_dec_ascii_only;
use crate::json::lemma_json_bytes_ascii;
use crate::json::lemma_json_string_ascii;
use crate::textenc::dec_ascii;

verus! {

/// A bid on an auction.
pub struct Bid {
    /// Identifier of the bid.
    pub id: u32,
    /// Identifier of the auction the bid is for.
    pub auction_id: u32,
    /// Identifier of the bidder.
    pub bidder_id: Vec<u8>,
    /// The amount bid, in whole currency units.
    pub amount: u64,
    /// When the bid was placed, in seconds since the epoch.
    pub timestamp: u64,
}

impl Clone for Bid {
    /// A cloned bid carries the same fields.
    fn clone(&self) -> (r: Self)
        ensures
            r.id == self.id,
            r.auction_id == self.auction_id,
            r.bidder_id@ == self.bidder_id@,
            r.amount == self.amount,
            r.timestamp == self.timestamp,
    {
        Bid {
            id: self.id,
            auction_id: self.auction_id,
            bidder_id: crate::block::copy_bytes(&self.bidder_id),
            amount: self.amount,
            timestamp: self.timestamp,
        }
    }
}

/// The JSON text of a bid with the given fields.
pub open spec fn bid_json(
    id: u32,
    auction_id: u32,
    bidder_id: Seq<u8>,
    amount: u64,
    timestamp: u64,
) -> Seq<u8> {
    ascii_bytes("{\"id\":"@) + dec_ascii(id as nat) + ascii_bytes(",\"auction_id\":"@) + dec_ascii(
        auction_id as nat,
    ) + ascii_bytes(",\"bidder_id\":"@) + json_bytes(bidder_id) + ascii_bytes(",\"amount\":"@)
        + dec_ascii(amount as nat) + ascii_bytes(",\"timestamp\":"@) + dec_ascii(timestamp as nat)
        + ascii_bytes("}"@)
}

/// The JSON text of a bid.
pub open spec fn bid_json_spec(b: Bid) -> Seq<u8> {
    bid_json(b.id, b.auction_id, b.bidder_id@, b.amount, b.timestamp)
}

/// The hash a bid is identified by: the SHA-256 digest of its JSON text.
pub open spec fn bid_hash_spec(b: Bid) -> Seq<u8> {
    sha256_of(bid_json_spec(b))
}

/// A bid's JSON text is ASCII.
pub proof fn lemma_bid_json_ascii(id: u32, aid: u32, bidder: Seq<u8>, amount: u64, ts: u64)
    ensures
        ascii_only(bid_json(id, aid, bidder, amount, ts)),
{
    reveal_strlit("{\"id\":");
    reveal_strlit(",\"auction_id\":");
    reveal_strlit(",\"bidder_id\":");
    reveal_strlit(",\"amount\":");
    reveal_strlit(",\"timestamp\":");
    reveal_strlit("}");
    lemma_ascii_bytes_only("{\"id\":"@);
    lemma_ascii_bytes_only(",\"auction_id\":"@);
    lemma_ascii_bytes_only(",\"bidder_id\":"@);
    lemma_ascii_bytes_only(",\"amount\":"@);
    lemma_ascii_bytes_only(",\"timestamp\":"@);
    lemma_ascii_bytes_only("}"@);
    lemma_dec_ascii_only(id as nat);
    lemma_dec_ascii_only(aid as nat);
    lemma_dec_ascii_only(amount as nat);
    lemma_dec_ascii_only(ts as nat);
    lemma_json_bytes_ascii(bidder);
    let s1 = ascii_bytes("{\"id\":"@);
    let s2 = s1 + dec_ascii(id as nat);
    let s3 = s2 + ascii_bytes(",\"auction_id\":"@);
    let s4 = s3 + dec_ascii(aid as nat);
    let s5 = s4 + ascii_bytes(",\"bidder_id\":"@);
    let s6 = s5 + json_bytes(bidder);
    let s7 = s6 + ascii_bytes(",\"amount\":"@);
    let s8 = s7 + dec_ascii(amount as nat);
    let s9 = s8 + ascii_bytes(",\"timestamp\":"@);
    let s10 = s9 + dec_ascii(ts as nat);
    lemma_ascii_concat(s1, dec_ascii(id as nat));
    lemma_ascii_concat(s2, ascii_bytes(",\"auction_id\":"@));
    lemma_ascii_concat(s3, dec_ascii(aid as nat));
    lemma_ascii_concat(s4, ascii_bytes(",\"bidder_id\":"@));
    lemma_ascii_concat(s5, json_bytes(bidder));
    lemma_ascii_concat(s6, ascii_bytes(",\"amount\":"@));
    lemma_ascii_concat(s7, dec_ascii(amount as nat));
    lemma_ascii_concat(s8, ascii_bytes(",\"timestamp\":"@));
    lemma_ascii_concat(s9, dec_ascii(ts as nat));
    lemma_ascii_concat(s10, ascii_bytes("}"@));
}

impl Bid {
    /// A zeroed bid, placed at the given time.
    pub fn default(timestamp: u64) -> (r: Bid)
        ensures
            r.id == 0,
            r.auction_id == 0,
            r.bidder_id@.len() == 0,
            r.amount == 0,
            r.timestamp == timestamp,
    {
        Bid { id: 0, auction_id: 0, bidder_id: Vec::new(), amount: 0, timestamp }
    }

    /// A bid with the given fields, placed at the given time.
    pub fn new(id: u32, auction_id: u32, bidder_id: Vec<u8>, amount: u64, timestamp: u64) -> (r:
        Bid)
        ensures
            r.id == id,
            r.auction_id == auction_id,
            r.bidder_id@ == bidder_id@,
            r.amount == amount,
            r.timestamp == timestamp,
    {
        Bid { id, auction_id, bidder_id, amount, timestamp }
    }

    /// The bid's JSON text, as bytes.
    pub fn serialized_bytes(&self) -> (r: Vec<u8>)
        ensures
            r@ == bid_json_spec(*self),
    {
        proof {
            reveal_strlit("{\"id\":");
            reveal_strlit(",\"auction_id\":");
            reveal_strlit(",\"bidder_id\":");
            reveal_strlit(",\"amount\":");
            reveal_strlit(",\"timestamp\":");
            reveal_strlit("}");
        }
        let mut out: Vec<u8> = Vec::new();
        crate::json::append_lit(&mut out, "{\"id\":");
        crate::json::append_u64(&mut out, self.id as u64);
        crate::json::append_lit(&mut out, ",\"auction_id\":");
        crate::json::append_u64(&mut out, self.auction_id as u64);
        crate::json::append_lit(&mut out, ",\"bidder_id\":");
        crate::json::append_bytes(&mut out, &self.bidder_id);
        crate::json::append_lit(&mut out, ",\"amount\":");
        crate::json::append_u64(&mut out, self.amount);
        crate::json::append_lit(&mut out, ",\"timestamp\":");
        crate::json::append_u64(&mut out, self.timestamp);
        crate::json::append_lit(&mut out, "}");
        out
    }

    /// The bid's JSON text.
    pub fn serialized(&self) -> (r: String)
        ensures
            vstd::utf8::encode_utf8(r@) == bid_json_spec(*self),
    {
        let bytes = self.serialized_bytes();
        proof {
            lemma_bid_json_ascii(
                self.id,
                self.auction_id,
                self.bidder_id@,
                self.amount,
                self.timestamp,
            );
            crate::textenc::lemma_ascii_valid_utf8(bytes@);
        }
        match crate::textenc::string_from_utf8(bytes) {
            Some(s) => s,
            None => vstd::pervasive::unreached(),
        }
    }

    /// Reads a bid back from its JSON text: exactly the inverse of
    /// `serialized`, rejecting anything else.
    pub fn deserialized(serialized: &str) -> (r: Option<Bid>)
        ensures
            match r {
                Some(b) => parse_bid_at(vstd::utf8::encode_utf8(serialized@), 0) == Some(
                    (
                        (b.id, b.auction_id, b.bidder_id@, b.amount, b.timestamp),
                        vstd::utf8::encode_utf8(serialized@).len() as int,
                    ),
                ),
                None => (match parse_bid_at(vstd::utf8::encode_utf8(serialized@), 0) {
                    Some(p) => p.1 != vstd::utf8::encode_utf8(serialized@).len(),
                    None => true,
                }),
            },
    {
        let v = serialized.as_bytes_vec();
        match read_bid_at(&v, 0) {
            Some((b, j)) => {
                if j == v.len() {
                    Some(b)
                } else {
                    None
                }
            },
            None => None,
        }
    }

    /// The bid's content hash: the SHA-256 digest of its JSON text.
    pub fn get_hash(&self) -> (r: Vec<u8>)
        ensures
            r@ == bid_hash_spec(*self),
            r@.len() == 32,
    {
        let bytes = self.serialized_bytes();
        sha256(bytes.as_slice())
    }
}


/// Reads a bid's JSON text at position `i`: the exact shape the printer
/// writes.
#[verifier::opaque]
pub open spec fn parse_bid_at(s: Seq<u8>, i: int) -> Option<((u32, u32, Seq<u8>, u64, u64), int)> {
    let lit_a = ascii_bytes("{\"id\":"@);
    let lit_b = ascii_bytes(",\"auction_id\":"@);
    let lit_c = ascii_bytes(",\"bidder_id\":"@);
    let lit_d = ascii_bytes(",\"amount\":"@);
    let lit_e = ascii_bytes(",\"timestamp\":"@);
    let lit_f = ascii_bytes("}"@);
    if !match_at(s, i, lit_a) {
        None
    } else {
        match parse_u64_at(s, i + lit_a.len()) {
            None => None,
            Some((id, p1)) => if id > u32::MAX || !match_at(s, p1, lit_b) {
                None
            } else {
                match parse_u64_at(s, p1 + lit_b.len()) {
                    None => None,
                    Some((aid, p2)) => if aid > u32::MAX || !match_at(s, p2, lit_c) {
                        None
                    } else {
                        match parse_bytes_at(s, p2 + lit_c.len()) {
                            None => None,
                            Some((bidder, p3)) => if !match_at(s, p3, lit_d) {
                                None
                            } else {
                                match parse_u64_at(s, p3 + lit_d.len()) {
                                    None => None,
                                    Some((amount, p4)) => if !match_at(s, p4, lit_e) {
                                        None
                                    } else {
                                        match parse_u64_at(s, p4 + lit_e.len()) {
                                            None => None,
                                            Some((ts, p5)) => if match_at(s, p5, lit_f) {
                                                Some(
                                                    (
                                                        (
                                                            id as u32,
                                                            aid as u32,
                                                            bidder,
                                                            amount,
                                                            ts,
                                                        ),
                                                        p5 + 1,
                                                    ),
                                                )
                                            } else {
                                                None
                                            },
                                        }
                                    },
                                }
                            },
                        }
                    },
                }
            },
        }
    }
}

/// Reads a bid's JSON text at position `i`, executably.
fn read_bid_at(s: &Vec<u8>, i: usize) -> (r: Option<(Bid, usize)>)
    requires
        i <= s@.len(),
    ensures
        match r {
            Some((b, j)) => parse_bid_at(s@, i as int) == Some(
                ((b.id, b.auction_id, b.bidder_id@, b.amount, b.timestamp), j as int),
            ) && i < j <= s@.len(),
            None => parse_bid_at(s@, i as int) is None,
        },
{
    proof {
        reveal(parse_bid_at);
        reveal_strlit("{\"id\":");
        reveal_strlit(",\"auction_id\":");
        reveal_strlit(",\"bidder_id\":");
        reveal_strlit(",\"amount\":");
        reveal_strlit(",\"timestamp\":");
        reveal_strlit("}");
    }
    let p0 = match crate::json::expect_lit(s, i, "{\"id\":") {
        Some(p) => p,
        None => {
            return None;
        },
    };
    let (id, p1) = match crate::json::parse_u64(s, p0) {
        Some(v) => v,
        None => {
            return None;
        },
    };
    if id > u32::MAX as u64 {
        return None;
    }
    proof {
        crate::json::lemma_digit_span_range(s@, p0 as int);
    }
    let p1b = match crate::json::expect_lit(s, p1, ",\"auction_id\":") {
        Some(p) => p,
        None => {
            return None;
        },
    };
    let (aid, p2) = match crate::json::parse_u64(s, p1b) {
        Some(v) => v,
        None => {
            return None;
        },
    };
    if aid > u32::MAX as u64 {
        return None;
    }
    proof {
        crate::json::lemma_digit_span_range(s@, p1b as int);
    }
    let p2b = match crate::json::expect_lit(s, p2, ",\"bidder_id\":") {
        Some(p) => p,
        None => {
            return None;
        },
    };
    let (bidder, p3) = match crate::json::parse_bytes(s, p2b) {
        Some(v) => v,
        None => {
            return None;
        },
    };
    proof {
        crate::json::lemma_parse_bytes_bounds(s@, p2b as int);
    }
    let p3b = match crate::json::expect_lit(s, p3, ",\"amount\":") {
        Some(p) => p,
        None => {
            return None;
        },
    };
    let (amount, p4) = match crate::json::parse_u64(s, p3b) {
        Some(v) => v,
        None => {
            return None;
        },
    };
    proof {
        crate::json::lemma_digit_span_range(s@, p3b as int);
    }
    let p4b = match crate::json::expect_lit(s, p4, ",\"timestamp\":") {
        Some(p) => p,
        None => {
            return None;
        },
    };
    let (ts, p5) = match crate::json::parse_u64(s, p4b) {
        Some(v) => v,
        None => {
            return None;
        },
    };
    proof {
        crate::json::lemma_digit_span_range(s@, p4b as int);
    }
    let p6 = match crate::json::expect_lit(s, p5, "}") {
        Some(p) => p,
        None => {
            return None;
        },
    };
    Some((Bid { id: id as u32, auction_id: aid as u32, bidder_id: bidder, amount, timestamp: ts }, p6))
}

/// An auction: an item, its price floor, its time window, and the bids
/// placed so far.
pub struct Auction {
    /// Identifier of the auction.
    pub id: u32,
    /// Name of the item on offer.
    pub item_name: String,
    /// The price the bidding starts at, in whole currency units.
    pub starting_price: u64,
    /// When the auction opens, in seconds since the epoch.
    pub starting_time: u64,
    /// When the auction closes, in seconds since the epoch.
    pub ending_time: u64,
    /// The bids placed so far.
    pub bids: Vec<Bid>,
}

impl Auction {
    /// An auction with the given window.
    pub fn new(id: u32, item_name: String, starting_price: u64, starting_time: u64, ending_time: u64) -> (r: Auction)
        ensures
            r.id == id,
            r.item_name@ == item_name@,
            r.starting_price == starting_price,
            r.starting_time == starting_time,
            r.ending_time == ending_time,
            r.bids@.len() == 0,
    {
        Auction { id, item_name, starting_price, starting_time, ending_time, bids: Vec::new() }
    }

    /// An auction that opens now and runs for a number of hours; the
    /// caller's clock supplies the current time.
    pub fn new_with_duration(id: u32, item_name: String, starting_price: u64, duration_hours: u64, now: u64) -> (r: Auction)
        requires
            now + duration_hours * 3600 <= u64::MAX,
        ensures
            r.id == id,
            r.item_name@ == item_name@,
            r.starting_price == starting_price,
            r.starting_time == now,
            r.ending_time == now + duration_hours * 3600,
            r.bids@.len() == 0,
    {
        let ending_time = now + duration_hours * 3600;
        Auction {
            id,
            item_name,
            starting_price,
            starting_time: now,
            ending_time,
            bids: Vec::new(),
        }
    }

    /// Records a bid on the auction.
    pub fn add_bid(&mut self, bid: Bid)
        ensures
            final(self).bids@ == old(self).bids@.push(bid),
            final(self).id == old(self).id,
            final(self).item_name == old(self).item_name,
            final(self).starting_price == old(self).starting_price,
            final(self).starting_time == old(self).starting_time,
            final(self).ending_time == old(self).ending_time,
    {
        self.bids.push(bid);
    }

    /// Whether the auction has closed at the given time.
    pub fn finished(&self, current_time: u64) -> (r: bool)
        ensures
            r == (current_time > self.ending_time),
    {
        current_time > self.ending_time
    }

    /// The auction's closing time as UTC calendar text, or nothing when
    /// the timestamp lies outside the representable range.
    pub fn get_ending_time_as_string(&self) -> (r: Option<String>)
        ensures
            r is Some <==> utc_representable(self.ending_time),
            r matches Some(s) ==> s@ == utc_string_of(self.ending_time),
    {
        format_utc_seconds(self.ending_time)
    }

    /// The auction's JSON text, as bytes.
    pub fn serialized_bytes(&self) -> (r: Vec<u8>)
        ensures
            r@ == auction_json_spec(*self),
    {
        proof {
            reveal_strlit("{\"id\":");
            reveal_strlit(",\"item_name\":");
            reveal_strlit(",\"starting_price\":");
            reveal_strlit(",\"starting_time\":");
            reveal_strlit(",\"ending_time\":");
            reveal_strlit(",\"bids\":[");
            reveal_strlit(",");
            reveal_strlit("]}");
        }
        let mut out: Vec<u8> = Vec::new();
        crate::json::append_lit(&mut out, "{\"id\":");
        crate::json::append_u64(&mut out, self.id as u64);
        crate::json::append_lit(&mut out, ",\"item_name\":");
        let name_bytes = self.item_name.as_str().as_bytes_vec();
        crate::json::append_string(&mut out, &name_bytes);
        crate::json::append_lit(&mut out, ",\"starting_price\":");
        crate::json::append_u64(&mut out, self.starting_price);
        crate::json::append_lit(&mut out, ",\"starting_time\":");
        crate::json::append_u64(&mut out, self.starting_time);
        crate::json::append_lit(&mut out, ",\"ending_time\":");
        crate::json::append_u64(&mut out, self.ending_time);
        crate::json::append_lit(&mut out, ",\"bids\":[");
        let n = self.bids.len();
        for i in 0..n
            invariant
                n == self.bids@.len(),
                out@ =~= auction_json_prefix(*self) + bids_items(self.bids@.take(i as int)),
        {
            proof {
                reveal_strlit(",");
            }
            if i > 0 {
                crate::json::append_lit(&mut out, ",");
            }
            let ghost pre = out@;
            let bid_bytes = self.bids[i].serialized_bytes();
            let m = bid_bytes.len();
            for j in 0..m
                invariant
                    n == self.bids@.len(),
                    i < n,
                    m == bid_bytes@.len(),
                    bid_bytes@ == bid_json_spec(self.bids@[i as int]),
                    out@ =~= pre + bid_bytes@.take(j as int),
            {
                out.push(bid_bytes[j]);
                proof {
                    assert(out@ =~= pre + bid_bytes@.take(j + 1));
                }
            }
            proof {
                assert(bid_bytes@.take(m as int) =~= bid_bytes@);
                lemma_bids_items_push(self.bids@.take(i as int), self.bids@[i as int]);
                assert(self.bids@.take(i as int).push(self.bids@[i as int]) =~= self.bids@.take(
                    i + 1,
                ));
                assert(out@ =~= auction_json_prefix(*self) + bids_items(self.bids@.take(i + 1)));
            }
        }
        crate::json::append_lit(&mut out, "]}");
        proof {
            assert(self.bids@.take(n as int) =~= self.bids@);
            assert(out@ =~= auction_json_spec(*self));
        }
        out
    }

    /// The auction's JSON text.
    pub fn serialized(&self) -> (r: String)
        ensures
            vstd::utf8::encode_utf8(r@) == auction_json_spec(*self),
    {
        let bytes = self.serialized_bytes();
        proof {
            lemma_auction_json_ascii(*self);
            crate::textenc::lemma_ascii_valid_utf8(bytes@);
        }
        match crate::textenc::string_from_utf8(bytes) {
            Some(s) => s,
            None => vstd::pervasive::unreached(),
        }
    }

    /// The auction's content hash: the SHA-256 digest of its JSON text.
    pub fn get_hash(&self) -> (r: Vec<u8>)
        ensures
            r@ == auction_hash_spec(*self),
            r@.len() == 32,
    {
        let bytes = self.serialized_bytes();
        sha256(bytes.as_slice())
    }
}


/// The UTC calendar text of a unix timestamp, year-month-day
/// hour:minute:second; a function of the timestamp alone.
pub uninterp spec fn utc_string_of(t: u64) -> Seq<char>;

/// Whether a unix timestamp lies in the range chrono can represent; a
/// function of the timestamp alone.
pub uninterp spec fn utc_representable(t: u64) -> bool;

/// Relies on chrono: Utc.timestamp_opt turns a unix timestamp into a UTC
/// date-time exactly when the timestamp is representable, and formatting
/// it with "%Y-%m-%d %H:%M:%S" renders the calendar text; both depend on
/// the timestamp alone.
#[verifier::external_body]
fn format_utc_seconds(t: u64) -> (r: Option<String>)
    ensures
        r is Some <==> utc_representable(t),
        r matches Some(s) ==> s@ == utc_string_of(t),
{
    if t > i64::MAX as u64 {
        return None;
    }
    chrono::TimeZone::timestamp_opt(&chrono::Utc, t as i64, 0).single().map(
        |dt| dt.format("%Y-%m-%d %H:%M:%S").to_string(),
    )
}


impl Clone for Auction {
    /// A cloned auction carries the same fields and the same bids.
    fn clone(&self) -> (r: Self)
        ensures
            r.id == self.id,
            r.item_name@ == self.item_name@,
            r.starting_price == self.starting_price,
            r.starting_time == self.starting_time,
            r.ending_time == self.ending_time,
            r.bids@.len() == self.bids@.len(),
            forall|i: int| 0 <= i < r.bids@.len() ==> {
                &&& (#[trigger] r.bids@[i]).id == self.bids@[i].id
                &&& r.bids@[i].auction_id == self.bids@[i].auction_id
                &&& r.bids@[i].bidder_id@ == self.bids@[i].bidder_id@
                &&& r.bids@[i].amount == self.bids@[i].amount
                &&& r.bids@[i].timestamp == self.bids@[i].timestamp
            },
    {
        let mut bids: Vec<Bid> = Vec::new();
        let n = self.bids.len();
        for i in 0..n
            invariant
                n == self.bids@.len(),
                bids@.len() == i,
                forall|j: int| 0 <= j < i ==> {
                    &&& (#[trigger] bids@[j]).id == self.bids@[j].id
                    &&& bids@[j].auction_id == self.bids@[j].auction_id
                    &&& bids@[j].bidder_id@ == self.bids@[j].bidder_id@
                    &&& bids@[j].amount == self.bids@[j].amount
                    &&& bids@[j].timestamp == self.bids@[j].timestamp
                },
        {
            bids.push(self.bids[i].clone());
        }
        Auction {
            id: self.id,
            item_name: self.item_name.clone(),
            starting_price: self.starting_price,
            starting_time: self.starting_time,
            ending_time: self.ending_time,
            bids,
        }
    }
}

/// The items of the bids array, separated by commas.
pub open spec fn bids_items(bids: Seq<Bid>) -> Seq<u8>
    decreases bids.len(),
{
    if bids.len() == 0 {
        Seq::empty()
    } else if bids.len() == 1 {
        bid_json_spec(bids[0])
    } else {
        bid_json_spec(bids[0]) + ascii_bytes(","@) + bids_items(bids.subrange(1, bids.len() as int))
    }
}

/// The bids array grown one bid at a time.
proof fn lemma_bids_items_push(bids: Seq<Bid>, x: Bid)
    ensures
        bids.len() == 0 ==> bids_items(bids.push(x)) == bid_json_spec(x),
        bids.len() >= 1 ==> bids_items(bids.push(x)) == bids_items(bids) + ascii_bytes(","@)
            + bid_json_spec(x),
    decreases bids.len(),
{
    if bids.len() == 0 {
        assert(bids.push(x)[0] == x);
    } else {
        lemma_bids_items_push(bids.subrange(1, bids.len() as int), x);
        assert(bids.push(x).subrange(1, bids.push(x).len() as int) =~= bids.subrange(
            1,
            bids.len() as int,
        ).push(x));
        assert(bids.push(x)[0] == bids[0]);
        if bids.len() == 1 {
            assert(bids_items(bids.push(x)) =~= bids_items(bids) + ascii_bytes(","@)
                + bid_json_spec(x));
        } else {
            assert(bids_items(bids.push(x)) =~= bids_items(bids) + ascii_bytes(","@)
                + bid_json_spec(x));
        }
    }
}

/// Everything of an auction's JSON text before the bids array's items.
pub open spec fn auction_json_prefix(a: Auction) -> Seq<u8> {
    ascii_bytes("{\"id\":"@) + dec_ascii(a.id as nat) + ascii_bytes(",\"item_name\":"@)
        + json_string(vstd::utf8::encode_utf8(a.item_name@)) + ascii_bytes(",\"starting_price\":"@)
        + dec_ascii(a.starting_price as nat) + ascii_bytes(",\"starting_time\":"@) + dec_ascii(
        a.starting_time as nat,
    ) + ascii_bytes(",\"ending_time\":"@) + dec_ascii(a.ending_time as nat) + ascii_bytes(
        ",\"bids\":["@,
    )
}

/// The JSON text of an auction.
pub open spec fn auction_json_spec(a: Auction) -> Seq<u8> {
    auction_json_prefix(a) + bids_items(a.bids@) + ascii_bytes("]}"@)
}

/// The hash an auction is identified by: the SHA-256 digest of its JSON
/// text.
pub open spec fn auction_hash_spec(a: Auction) -> Seq<u8> {
    sha256_of(auction_json_spec(a))
}

/// The items of a bids array are ASCII.
proof fn lemma_bids_items_ascii(bids: Seq<Bid>)
    ensures
        ascii_only(bids_items(bids)),
    decreases bids.len(),
{
    reveal_strlit(",");
    if bids.len() >= 1 {
        let b0 = bids[0];
        lemma_bid_json_ascii(b0.id, b0.auction_id, b0.bidder_id@, b0.amount, b0.timestamp);
        if bids.len() > 1 {
            lemma_bids_items_ascii(bids.subrange(1, bids.len() as int));
            lemma_ascii_bytes_only(","@);
            lemma_ascii_concat(bid_json_spec(b0), ascii_bytes(","@));
            lemma_ascii_concat(
                bid_json_spec(b0) + ascii_bytes(","@),
                bids_items(bids.subrange(1, bids.len() as int)),
            );
        }
    }
}

/// An auction's JSON text is ASCII.
proof fn lemma_auction_json_ascii(a: Auction)
    ensures
        ascii_only(auction_json_spec(a)),
{
    reveal_strlit("{\"id\":");
    reveal_strlit(",\"item_name\":");
    reveal_strlit(",\"starting_price\":");
    reveal_strlit(",\"starting_time\":");
    reveal_strlit(",\"ending_time\":");
    reveal_strlit(",\"bids\":[");
    reveal_strlit("]}");
    lemma_ascii_bytes_only("{\"id\":"@);
    lemma_ascii_bytes_only(",\"item_name\":"@);
    lemma_ascii_bytes_only(",\"starting_price\":"@);
    lemma_ascii_bytes_only(",\"starting_time\":"@);
    lemma_ascii_bytes_only(",\"ending_time\":"@);
    lemma_ascii_bytes_only(",\"bids\":["@);
    lemma_ascii_bytes_only("]}"@);
    lemma_dec_ascii_only(a.id as nat);
    lemma_dec_ascii_only(a.starting_price as nat);
    lemma_dec_ascii_only(a.starting_time as nat);
    lemma_dec_ascii_only(a.ending_time as nat);
    lemma_json_string_ascii(vstd::utf8::encode_utf8(a.item_name@));
    lemma_bids_items_ascii(a.bids@);
    let s1 = ascii_bytes("{\"id\":"@);
    let s2 = s1 + dec_ascii(a.id as nat);
    let s3 = s2 + ascii_bytes(",\"item_name\":"@);
    let s4 = s3 + json_string(vstd::utf8::encode_utf8(a.item_name@));
    let s5 = s4 + ascii_bytes(",\"starting_price\":"@);
    let s6 = s5 + dec_ascii(a.starting_price as nat);
    let s7 = s6 + ascii_bytes(",\"starting_time\":"@);
    let s8 = s7 + dec_ascii(a.starting_time as nat);
    let s9 = s8 + ascii_bytes(",\"ending_time\":"@);
    let s10 = s9 + dec_ascii(a.ending_time as nat);
    let s11 = s10 + ascii_bytes(",\"bids\":["@);
    let s12 = s11 + bids_items(a.bids@);
    lemma_ascii_concat(s1, dec_ascii(a.id as nat));
    lemma_ascii_concat(s2, ascii_bytes(",\"item_name\":"@));
    lemma_ascii_concat(s3, json_string(vstd::utf8::encode_utf8(a.item_name@)));
    lemma_ascii_concat(s4, ascii_bytes(",\"starting_price\":"@));
    lemma_ascii_concat(s5, dec_ascii(a.starting_price as nat));
    lemma_ascii_concat(s6, ascii_bytes(",\"starting_time\":"@));
    lemma_ascii_concat(s7, dec_ascii(a.starting_time as nat));
    lemma_ascii_concat(s8, ascii_bytes(",\"ending_time\":"@));
    lemma_ascii_concat(s9, dec_ascii(a.ending_time as nat));
    lemma_ascii_concat(s10, ascii_bytes(",\"bids\":["@));
    lemma_ascii_concat(s11, bids_items(a.bids@));
    lemma_ascii_concat(s12, ascii_bytes("]}"@));
}


/// The fields of a bid, as a parse result.
pub open spec fn bid_tuple(b: Bid) -> (u32, u32, Seq<u8>, u64, u64) {
    (b.id, b.auction_id, b.bidder_id@, b.amount, b.timestamp)
}

/// The fields of a list of bids, as parse results.
pub open spec fn bids_tuples(s: Seq<Bid>) -> Seq<(u32, u32, Seq<u8>, u64, u64)> {
    Seq::new(s.len(), |i: int| bid_tuple(s[i]))
}

/// Reads the items of a non-empty bids array, up to and including the
/// closing "]}" of the auction.
pub open spec fn parse_bids_list(s: Seq<u8>, i: int) -> Option<
    (Seq<(u32, u32, Seq<u8>, u64, u64)>, int),
>
    decreases s.len() - i,
{
    match parse_bid_at(s, i) {
        None => None,
        Some((b, j)) => if !(i < j <= s.len()) {
            None
        } else if j < s.len() && s[j] == 44 {
            match parse_bids_list(s, j + 1) {
                None => None,
                Some((rest, k)) => Some((seq![b] + rest, k)),
            }
        } else if match_at(s, j, ascii_bytes("]}"@)) {
            Some((seq![b], j + 2))
        } else {
            None
        },
    }
}

/// Reads everything of an auction's JSON text before the bids array's
/// items, up to and including the opening of the array.
pub open spec fn parse_auction_prefix(s: Seq<u8>) -> Option<((u32, Seq<u8>, u64, u64, u64), int)> {
    let lit_a = ascii_bytes("{\"id\":"@);
    let lit_b = ascii_bytes(",\"item_name\":"@);
    let lit_c = ascii_bytes(",\"starting_price\":"@);
    let lit_d = ascii_bytes(",\"starting_time\":"@);
    let lit_e = ascii_bytes(",\"ending_time\":"@);
    let lit_f = ascii_bytes(",\"bids\":["@);
    if !match_at(s, 0, lit_a) {
        None
    } else {
        match parse_u64_at(s, lit_a.len() as int) {
            None => None,
            Some((id, p1)) => if id > u32::MAX || !match_at(s, p1, lit_b) {
                None
            } else {
                match crate::json::parse_string_at(s, p1 + lit_b.len()) {
                    None => None,
                    Some((name, p2)) => if !match_at(s, p2, lit_c) {
                        None
                    } else {
                        match parse_u64_at(s, p2 + lit_c.len()) {
                            None => None,
                            Some((price, p3)) => if !match_at(s, p3, lit_d) {
                                None
                            } else {
                                match parse_u64_at(s, p3 + lit_d.len()) {
                                    None => None,
                                    Some((start, p4)) => if !match_at(s, p4, lit_e) {
                                        None
                                    } else {
                                        match parse_u64_at(s, p4 + lit_e.len()) {
                                            None => None,
                                            Some((end, p5)) => if !match_at(s, p5, lit_f) {
                                                None
                                            } else {
                                                Some(
                                                    (
                                                        (
                                                            id as u32,
                                                            name,
                                                            price,
                                                            start,
                                                            end,
                                                        ),
                                                        p5 + lit_f.len(),
                                                    ),
                                                )
                                            },
                                        }
                                    },
                                }
                            },
                        }
                    },
                }
            },
        }
    }
}

/// Reads an auction's JSON text: the exact shape the printer writes, with
/// the whole input consumed.
pub open spec fn parse_auction(s: Seq<u8>) -> Option<
    (u32, Seq<u8>, u64, u64, u64, Seq<(u32, u32, Seq<u8>, u64, u64)>),
> {
    match parse_auction_prefix(s) {
        None => None,
        Some((f, p6)) => if match_at(s, p6, ascii_bytes("]}"@)) && p6 + 2 == s.len() {
            Some((f.0, f.1, f.2, f.3, f.4, Seq::empty()))
        } else {
            match parse_bids_list(s, p6) {
                None => None,
                Some((bids, k)) => if k == s.len() {
                    Some((f.0, f.1, f.2, f.3, f.4, bids))
                } else {
                    None
                },
            }
        },
    }
}

/// Reads the prefix of an auction's JSON text, executably.
fn read_auction_prefix(v: &Vec<u8>) -> (r: Option<((u32, Vec<u8>, u64, u64, u64), usize)>)
    ensures
        match r {
            Some((f, p6)) => parse_auction_prefix(v@) == Some(
                ((f.0, f.1@, f.2, f.3, f.4), p6 as int),
            ) && p6 <= v@.len(),
            None => parse_auction_prefix(v@) is None,
        },
{
    proof {
        reveal_strlit("{\"id\":");
        reveal_strlit(",\"item_name\":");
        reveal_strlit(",\"starting_price\":");
        reveal_strlit(",\"starting_time\":");
        reveal_strlit(",\"ending_time\":");
        reveal_strlit(",\"bids\":[");
    }
    let p0 = match crate::json::expect_lit(v, 0, "{\"id\":") {
        Some(p) => p,
        None => {
            return None;
        },
    };
    let (id, p1) = match crate::json::parse_u64(v, p0) {
        Some(t) => t,
        None => {
            return None;
        },
    };
    proof {
        crate::json::lemma_parse_u64_bounds(v@, p0 as int);
    }
    if id > u32::MAX as u64 {
        return None;
    }
    let p1b = match crate::json::expect_lit(v, p1, ",\"item_name\":") {
        Some(p) => p,
        None => {
            return None;
        },
    };
    let (name_bytes, p2) = match crate::json::parse_string(v, p1b) {
        Some(t) => t,
        None => {
            return None;
        },
    };
    proof {
        crate::json::lemma_parse_string_bounds(v@, p1b as int);
    }
    let p2b = match crate::json::expect_lit(v, p2, ",\"starting_price\":") {
        Some(p) => p,
        None => {
            return None;
        },
    };
    let (price, p3) = match crate::json::parse_u64(v, p2b) {
        Some(t) => t,
        None => {
            return None;
        },
    };
    proof {
        crate::json::lemma_parse_u64_bounds(v@, p2b as int);
    }
    let p3b = match crate::json::expect_lit(v, p3, ",\"starting_time\":") {
        Some(p) => p,
        None => {
            return None;
        },
    };
    let (start, p4) = match crate::json::parse_u64(v, p3b) {
        Some(t) => t,
        None => {
            return None;
        },
    };
    proof {
        crate::json::lemma_parse_u64_bounds(v@, p3b as int);
    }
    let p4b = match crate::json::expect_lit(v, p4, ",\"ending_time\":") {
        Some(p) => p,
        None => {
            return None;
        },
    };
    let (end, p5) = match crate::json::parse_u64(v, p4b) {
        Some(t) => t,
        None => {
            return None;
        },
    };
    proof {
        crate::json::lemma_parse_u64_bounds(v@, p4b as int);
    }
    let p6 = match crate::json::expect_lit(v, p5, ",\"bids\":[") {
        Some(p) => p,
        None => {
            return None;
        },
    };
    Some(((id as u32, name_bytes, price, start, end), p6))
}

/// The remaining bid tuples a successful list parse would give, used only
/// to state the loop invariant of `deserialized`.
spec fn bids_list_tail(s: Seq<u8>, i: int) -> Seq<(u32, u32, Seq<u8>, u64, u64)> {
    match parse_bids_list(s, i) {
        None => Seq::empty(),
        Some((rest, k)) => rest,
    }
}

impl Auction {
    /// Reads an auction back from its JSON text: exactly the inverse of
    /// `serialized`, rejecting anything else.
    #[verifier::rlimit(100)]
    #[verifier::spinoff_prover]
    pub fn deserialized(serialized: &str) -> (r: Option<Auction>)
        ensures
            match r {
                Some(a) => parse_auction(vstd::utf8::encode_utf8(serialized@)) == Some(
                    (
                        a.id,
                        vstd::utf8::encode_utf8(a.item_name@),
                        a.starting_price,
                        a.starting_time,
                        a.ending_time,
                        bids_tuples(a.bids@),
                    ),
                ),
                None => (match parse_auction(vstd::utf8::encode_utf8(serialized@)) {
                    Some(t) => !vstd::utf8::valid_utf8(t.1),
                    None => true,
                }),
            },
    {
        proof {
            reveal_strlit("{\"id\":");
            reveal_strlit("]}");
        }
        let v = serialized.as_bytes_vec();
        let n = v.len();
        let (fields, p6) = match read_auction_prefix(&v) {
            Some(t) => t,
            None => {
                return None;
            },
        };
        let (id, name_bytes, price, start, end) = fields;
        let ghost name_seq = name_bytes@;
        let name = match crate::textenc::string_from_utf8(name_bytes) {
            Some(s) => s,
            None => {
                return None;
            },
        };
        match crate::json::expect_lit(&v, p6, "]}") {
            Some(j) => {
                if j == n {
                    return Some(
                        Auction {
                            id,
                            item_name: name,
                            starting_price: price,
                            starting_time: start,
                            ending_time: end,
                            bids: Vec::new(),
                        },
                    );
                } else {
                    proof {
                        let lb = ascii_bytes("]}"@);
                        assert(v@.subrange(p6 as int, p6 + 2) == lb);
                        assert(v@.subrange(p6 as int, p6 + 2)[0] == lb[0]);
                        assert(v@[p6 as int] == 93);
                        let la = ascii_bytes("{\"id\":"@);
                        if match_at(v@, p6 as int, la) {
                            assert(v@.subrange(p6 as int, p6 + la.len())[0] == la[0]);
                            assert(v@[p6 as int] == 123);
                            assert(false);
                        }
                        reveal(parse_bid_at);
                        assert(parse_bid_at(v@, p6 as int) is None);
                    }
                    return None;
                }
            },
            None => {},
        }
        let mut out: Vec<Bid> = Vec::new();
        let mut p = p6;
        let ghost target = parse_auction(v@);
        while p < n
            invariant
                n == v@.len(),
                v@ == vstd::utf8::encode_utf8(serialized@),
                p6 <= p <= n,
                target == parse_auction(v@),
                vstd::utf8::encode_utf8(name@) == name_seq,
                (match target {
                    None => (match parse_bids_list(v@, p as int) {
                        None => true,
                        Some((rest, k)) => k != n,
                    }),
                    Some(t) => (match parse_bids_list(v@, p as int) {
                        None => false,
                        Some((rest, k)) => k == n && t == (
                            id,
                            name_seq,
                            price,
                            start,
                            end,
                            bids_tuples(out@) + rest,
                        ),
                    }),
                }),
            decreases n - p,
        {
            proof {
                reveal_strlit("{\"id\":");
                reveal_strlit("]}");
            }
            let item = read_bid_at(&v, p);
            match item {
                None => {
                    return None;
                },
                Some((b, j)) => {
                    if j < n && v[j] == 44 {
                        let ghost pre = out@;
                        out.push(b);
                        proof {
                            assert(bids_tuples(out@) =~= bids_tuples(pre) + seq![bid_tuple(b)]);
                            assert((bids_tuples(pre) + seq![bid_tuple(b)]) + bids_list_tail(
                                v@,
                                j + 1,
                            ) =~= bids_tuples(pre) + (seq![bid_tuple(b)] + bids_list_tail(
                                v@,
                                j + 1,
                            )));
                        }
                        p = j + 1;
                    } else {
                        let ghost bb = bid_tuple(b);
                        proof {
                            assert(parse_bid_at(v@, p as int) == Some((bb, j as int)));
                        }
                        let j2 = match crate::json::expect_lit(&v, j, "]}") {
                            Some(t) => t,
                            None => {
                                proof {
                                    assert(parse_bids_list(v@, p as int) is None);
                                }
                                return None;
                            },
                        };
                        proof {
                            assert(match_at(v@, j as int, ascii_bytes("]}"@)));
                            assert(parse_bids_list(v@, p as int) == Some((seq![bb], j + 2)));
                        }
                        if j2 != n {
                            return None;
                        }
                        let ghost pre = out@;
                        out.push(b);
                        proof {
                            assert(bids_tuples(out@) =~= bids_tuples(pre) + seq![bb]);
                            assert(bids_tuples(out@) == bids_tuples(pre) + seq![bb]);
                        }
                        return Some(
                            Auction {
                                id,
                                item_name: name,
                                starting_price: price,
                                starting_time: start,
                                ending_time: end,
                                bids: out,
                            },
                        );
                    }
                },
            }
        }
        proof {
            reveal(parse_bid_at);
            assert(!match_at(v@, p as int, ascii_bytes("{\"id\":"@)));
            assert(parse_bid_at(v@, p as int) is None);
        }
        None
    }
}

} // verus!
