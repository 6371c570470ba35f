//! Blocks of the ledger: header, body, hashing, proof-of-work.
//!
//! A block's hash is the SHA-512 digest of its parent hash, the decimal
//! text of its timestamp, its transactions, and the decimal text of its
//! nonce and difficulty, in that order.  A block is valid when the hex form
//! of its hash starts with `difficulty` zero characters; mining increments
//! the nonce until that holds.

use vstd::prelude::*;

use crate::crypto::sha512_of;
use crate::json::ascii_bytes;
use crate::json::ascii_only;
use crate::json::json_bytes;
use crate::json::match_at;
use crate::json::parse_bytes_at;
use crate::json::parse_u64_at;
use crate::crypto::sha512;
use crate::textenc::dec_ascii;
use crate::textenc::lemma_dec_ascii;
use crate::textenc::hex_chars;
use crate::textenc::hex_digit_char;
use crate::textenc::lemma_hex_chars_index;
use crate::textenc::lemma_hex_chars_len;
use crate::textenc::u64_to_dec_bytes;

verus! {

/// Metadata of a block.
pub struct BlockHeader {
    /// Hash of the previous block in the chain.
    pub prev_hash: Vec<u8>,
    /// Number that miners increment in order to find a valid hash.
    pub nonce: u64,
    /// Number of zeros that the hex form of the block's hash must start
    /// with for the block to be valid.
    pub difficulty: u64,
    /// Time at which the block was created, in seconds since the epoch.
    pub timestamp: u64,
}

/// Copies a byte vector.
pub fn copy_bytes(v: &Vec<u8>) -> (r: Vec<u8>)
    ensures
        r@ == v@,
{
    let mut out: Vec<u8> = Vec::new();
    let n = v.len();
    for i in 0..n
        invariant
            n == v@.len(),
            out@ =~= v@.take(i as int),
    {
        out.push(v[i]);
        proof {
            assert(out@ =~= v@.take(i + 1));
        }
    }
    proof {
        assert(v@.take(n as int) =~= v@);
    }
    out
}

impl Clone for BlockHeader {
    /// A cloned header carries the same fields.
    fn clone(&self) -> (r: Self)
        ensures
            r.prev_hash@ == self.prev_hash@,
            r.nonce == self.nonce,
            r.difficulty == self.difficulty,
            r.timestamp == self.timestamp,
    {
        BlockHeader {
            prev_hash: copy_bytes(&self.prev_hash),
            nonce: self.nonce,
            difficulty: self.difficulty,
            timestamp: self.timestamp,
        }
    }
}

impl BlockHeader {
    /// The hash of the previous block.
    pub fn get_parent_hash(&self) -> (r: Vec<u8>)
        ensures
            r@ == self.prev_hash@,
    {
        copy_bytes(&self.prev_hash)
    }

    /// The creation time of the block.
    pub fn get_timestamp(&self) -> (r: u64)
        ensures
            r == self.timestamp,
    {
        self.timestamp
    }

    /// The current nonce.
    pub fn get_nonce(&self) -> (r: u64)
        ensures
            r == self.nonce,
    {
        self.nonce
    }

    /// The difficulty the block must meet.
    pub fn get_difficulty(&self) -> (r: u64)
        ensures
            r == self.difficulty,
    {
        self.difficulty
    }

    /// Replaces the nonce.
    pub fn set_nonce(&mut self, nonce: u64)
        ensures
            *final(self) == (BlockHeader { nonce, ..*old(self) }),
    {
        self.nonce = nonce;
    }

    /// A header for a yet unmined block: the nonce starts at zero.  The
    /// timestamp comes from the caller's clock.
    pub fn new(prev_hash: Vec<u8>, difficulty: u64, timestamp: u64) -> (r: BlockHeader)
        ensures
            r.prev_hash@ == prev_hash@,
            r.nonce == 0,
            r.difficulty == difficulty,
            r.timestamp == timestamp,
    {
        BlockHeader { prev_hash, nonce: 0, difficulty, timestamp }
    }

    /// The fixed genesis header: an all-zero 64-byte parent hash, nonce 0,
    /// difficulty 0, timestamp 0.
    pub fn genesis() -> (r: BlockHeader)
        ensures
            r.prev_hash@ =~= Seq::new(64, |i: int| 0u8),
            r.nonce == 0,
            r.difficulty == 0,
            r.timestamp == 0,
    {
        let mut prev_hash: Vec<u8> = Vec::new();
        for i in 0..64
            invariant
                prev_hash@.len() == i,
                forall|j: int| 0 <= j < i ==> prev_hash@[j] == 0u8,
        {
            prev_hash.push(0);
        }
        proof {
            assert(prev_hash@ =~= Seq::new(64, |i: int| 0u8));
        }
        BlockHeader { prev_hash, nonce: 0, difficulty: 0, timestamp: 0 }
    }
}

/// The transactions a block carries, as an opaque byte string.
pub struct BlockBody {
    /// The serialized transaction payload.
    pub transactions: Vec<u8>,
}

impl Clone for BlockBody {
    /// A cloned body carries the same payload.
    fn clone(&self) -> (r: Self)
        ensures
            r.transactions@ == self.transactions@,
    {
        BlockBody { transactions: copy_bytes(&self.transactions) }
    }
}

impl BlockBody {
    /// The transaction payload.
    pub fn get_transactions(&self) -> (r: &Vec<u8>)
        ensures
            r@ == self.transactions@,
    {
        &self.transactions
    }

    /// A body holding the given payload.
    pub fn new(transactions: Vec<u8>) -> (r: BlockBody)
        ensures
            r.transactions@ == transactions@,
    {
        BlockBody { transactions }
    }
}

/// A block: header plus body.
pub struct Block {
    /// Metadata of the block.
    pub header: BlockHeader,
    /// Transactions of the block.
    pub body: BlockBody,
}

impl Clone for Block {
    /// A cloned block carries the same fields.
    fn clone(&self) -> (r: Self)
        ensures
            r.header.prev_hash@ == self.header.prev_hash@,
            r.header.nonce == self.header.nonce,
            r.header.difficulty == self.header.difficulty,
            r.header.timestamp == self.header.timestamp,
            r.body.transactions@ == self.body.transactions@,
    {
        Block { header: self.header.clone(), body: self.body.clone() }
    }
}

/// The bytes a block is hashed over: parent hash, then the decimal text of
/// the timestamp, the transactions, and the decimal text of nonce and
/// difficulty.  This order is a wire-format contract.
pub open spec fn block_message(
    parent: Seq<u8>,
    timestamp: u64,
    txs: Seq<u8>,
    nonce: u64,
    difficulty: u64,
) -> Seq<u8> {
    parent + dec_ascii(timestamp as nat) + txs + dec_ascii(nonce as nat) + dec_ascii(
        difficulty as nat,
    )
}

/// The hash of a block with the given fields.
pub open spec fn hash_with(
    parent: Seq<u8>,
    timestamp: u64,
    txs: Seq<u8>,
    nonce: u64,
    difficulty: u64,
) -> Seq<u8> {
    sha512_of(block_message(parent, timestamp, txs, nonce, difficulty))
}

/// Whether a block with the given fields is valid: the hex form of its
/// hash starts with `difficulty` zero characters.
pub open spec fn valid_with(
    parent: Seq<u8>,
    timestamp: u64,
    txs: Seq<u8>,
    nonce: u64,
    difficulty: u64,
) -> bool {
    let h = hex_chars(hash_with(parent, timestamp, txs, nonce, difficulty));
    difficulty <= h.len() && forall|i: int| 0 <= i < difficulty ==> h[i] == '0'
}

/// The hash of a block.
pub open spec fn block_hash_spec(b: Block) -> Seq<u8> {
    hash_with(
        b.header.prev_hash@,
        b.header.timestamp,
        b.body.transactions@,
        b.header.nonce,
        b.header.difficulty,
    )
}

/// Whether a block is valid.
pub open spec fn block_valid_spec(b: Block) -> bool {
    valid_with(
        b.header.prev_hash@,
        b.header.timestamp,
        b.body.transactions@,
        b.header.nonce,
        b.header.difficulty,
    )
}

/// A nibble renders as the character '0' exactly when it is zero.
proof fn lemma_hex_digit_zero(d: nat)
    requires
        d < 16,
    ensures
        (hex_digit_char(d) == '0') <==> (d == 0),
{
}

impl Block {
    /// A block from a header and a body.
    pub fn new(header: BlockHeader, body: BlockBody) -> (r: Block)
        ensures
            r.header == header,
            r.body == body,
    {
        Block { header, body }
    }

    /// The fixed, trivially valid first block of a chain.
    pub fn genesis() -> (r: Block)
        ensures
            r.header.prev_hash@ =~= Seq::new(64, |i: int| 0u8),
            r.header.nonce == 0,
            r.header.difficulty == 0,
            r.header.timestamp == 0,
            r.body.transactions@ =~= Seq::<u8>::empty(),
    {
        Block { header: BlockHeader::genesis(), body: BlockBody::new(Vec::new()) }
    }

    /// The block's nonce.
    pub fn get_nonce(&self) -> (r: u64)
        ensures
            r == self.header.nonce,
    {
        self.header.get_nonce()
    }

    /// The block's transaction payload.
    pub fn get_transactions(&self) -> (r: &Vec<u8>)
        ensures
            r@ == self.body.transactions@,
    {
        self.body.get_transactions()
    }

    /// The block's hash: the SHA-512 digest over its fields in wire order.
    pub fn get_hash(&self) -> (r: Vec<u8>)
        ensures
            r@ == block_hash_spec(*self),
            r@.len() == 64,
    {
        let mut msg = copy_bytes(&self.header.prev_hash);
        let ts = u64_to_dec_bytes(self.header.get_timestamp());
        msg.append(&mut {
            ts
        });
        let mut txs = copy_bytes(&self.body.transactions);
        msg.append(&mut txs);
        let mut nonce = u64_to_dec_bytes(self.header.get_nonce());
        msg.append(&mut nonce);
        let mut diff = u64_to_dec_bytes(self.header.get_difficulty());
        msg.append(&mut diff);
        proof {
            assert(msg@ =~= block_message(
                self.header.prev_hash@,
                self.header.timestamp,
                self.body.transactions@,
                self.header.nonce,
                self.header.difficulty,
            ));
        }
        sha512(msg.as_slice())
    }

    /// Whether the block meets its difficulty: the hex form of its hash
    /// starts with `difficulty` zero characters.
    pub fn is_valid(&self) -> (r: bool)
        ensures
            r == block_valid_spec(*self),
    {
        let hash = self.get_hash();
        let ghost h = hex_chars(block_hash_spec(*self));
        proof {
            lemma_hex_chars_len(block_hash_spec(*self));
        }
        let difficulty = self.header.get_difficulty();
        if difficulty > 128 {
            return false;
        }
        let d = difficulty as usize;
        for i in 0..d
            invariant
                hash@ == block_hash_spec(*self),
                hash@.len() == 64,
                h == hex_chars(block_hash_spec(*self)),
                h.len() == 128,
                d <= 128,
                self.header.difficulty == d as u64,
                forall|j: int| 0 <= j < i ==> h[j] == '0',
        {
            let byte = hash[i / 2];
            let nib = if i % 2 == 0 {
                byte / 16
            } else {
                byte % 16
            };
            proof {
                lemma_hex_chars_index(hash@, i as int / 2);
                lemma_hex_digit_zero(((hash@[i as int / 2] / 16) as nat));
                lemma_hex_digit_zero(((hash@[i as int / 2] % 16) as nat));
            }
            if nib != 0 {
                proof {
                    let ii = i as int;
                    if i % 2 == 0 {
                        assert(ii == 2 * (ii / 2));
                        assert(h[ii] == hex_digit_char((hash@[ii / 2] / 16) as nat));
                    } else {
                        assert(ii == 2 * (ii / 2) + 1);
                        assert(h[ii] == hex_digit_char((hash@[ii / 2] % 16) as nat));
                    }
                    assert(h[ii] != '0');
                }
                return false;
            }
        }
        true
    }

    /// Mines the block: increments the nonce until the block is valid, and
    /// returns the final nonce.  The search walks the nonces upward from
    /// the current one; if the whole remaining range is exhausted without a
    /// valid hash, the nonce is left at its maximum.
    pub fn mine(&mut self) -> (r: u64)
        ensures
            final(self).header.prev_hash == old(self).header.prev_hash,
            final(self).header.difficulty == old(self).header.difficulty,
            final(self).header.timestamp == old(self).header.timestamp,
            final(self).body == old(self).body,
            final(self).header.nonce >= old(self).header.nonce,
            block_valid_spec(*old(self)) ==> *final(self) == *old(self),
            r == final(self).header.nonce,
            block_valid_spec(*final(self)) || (final(self).header.nonce == u64::MAX && forall|
                nn: u64,
            |
                old(self).header.nonce <= nn ==> !valid_with(
                    old(self).header.prev_hash@,
                    old(self).header.timestamp,
                    old(self).body.transactions@,
                    nn,
                    old(self).header.difficulty,
                )),
    {
        loop
            invariant
                self.header.prev_hash == old(self).header.prev_hash,
                self.header.difficulty == old(self).header.difficulty,
                self.header.timestamp == old(self).header.timestamp,
                self.body == old(self).body,
                self.header.nonce >= old(self).header.nonce,
                block_valid_spec(*old(self)) ==> *self == *old(self),
                forall|nn: u64|
                    old(self).header.nonce <= nn < self.header.nonce ==> !valid_with(
                        old(self).header.prev_hash@,
                        old(self).header.timestamp,
                        old(self).body.transactions@,
                        nn,
                        old(self).header.difficulty,
                    ),
            ensures
                self.header.prev_hash == old(self).header.prev_hash,
                self.header.difficulty == old(self).header.difficulty,
                self.header.timestamp == old(self).header.timestamp,
                self.body == old(self).body,
                self.header.nonce >= old(self).header.nonce,
                block_valid_spec(*old(self)) ==> *self == *old(self),
                block_valid_spec(*self) || (self.header.nonce == u64::MAX && forall|nn: u64|
                    old(self).header.nonce <= nn ==> !valid_with(
                        old(self).header.prev_hash@,
                        old(self).header.timestamp,
                        old(self).body.transactions@,
                        nn,
                        old(self).header.difficulty,
                    )),
            decreases u64::MAX - self.header.nonce,
        {
            if self.is_valid() {
                break ;
            }
            if self.header.get_nonce() == u64::MAX {
                break ;
            }
            let next = self.header.get_nonce() + 1;
            self.header.set_nonce(next);
        }
        self.header.get_nonce()
    }
}


/// The JSON text of a block with the given fields, as bytes.
pub open spec fn block_json(
    parent: Seq<u8>,
    nonce: u64,
    difficulty: u64,
    timestamp: u64,
    txs: Seq<u8>,
) -> Seq<u8> {
    ascii_bytes("{\"header\":{\"prev_hash\":"@) + json_bytes(parent) + ascii_bytes(
        ",\"nonce\":"@,
    ) + dec_ascii(nonce as nat) + ascii_bytes(",\"difficulty\":"@) + dec_ascii(
        difficulty as nat,
    ) + ascii_bytes(",\"timestamp\":"@) + dec_ascii(timestamp as nat) + ascii_bytes(
        "},\"body\":{\"transactions\":"@,
    ) + json_bytes(txs) + ascii_bytes("}}"@)
}

/// Reads a block's JSON text: the exact shape the printer writes, with the
/// whole input consumed.
pub open spec fn parse_block(s: Seq<u8>) -> Option<(Seq<u8>, u64, u64, u64, Seq<u8>)> {
    let lit_a = ascii_bytes("{\"header\":{\"prev_hash\":"@);
    let lit_b = ascii_bytes(",\"nonce\":"@);
    let lit_c = ascii_bytes(",\"difficulty\":"@);
    let lit_d = ascii_bytes(",\"timestamp\":"@);
    let lit_e = ascii_bytes("},\"body\":{\"transactions\":"@);
    let lit_f = ascii_bytes("}}"@);
    if !match_at(s, 0, lit_a) {
        None
    } else {
        match parse_bytes_at(s, lit_a.len() as int) {
            None => None,
            Some((parent, p1)) => if !match_at(s, p1, lit_b) {
                None
            } else {
                match parse_u64_at(s, p1 + lit_b.len()) {
                    None => None,
                    Some((nonce, p2)) => if !match_at(s, p2, lit_c) {
                        None
                    } else {
                        match parse_u64_at(s, p2 + lit_c.len()) {
                            None => None,
                            Some((difficulty, p3)) => if !match_at(s, p3, lit_d) {
                                None
                            } else {
                                match parse_u64_at(s, p3 + lit_d.len()) {
                                    None => None,
                                    Some((timestamp, p4)) => if !match_at(s, p4, lit_e) {
                                        None
                                    } else {
                                        match parse_bytes_at(s, p4 + lit_e.len()) {
                                            None => None,
                                            Some((txs, p5)) => if match_at(s, p5, lit_f) && p5
                                                + lit_f.len() == s.len() {
                                                Some((parent, nonce, difficulty, timestamp, txs))
                                            } else {
                                                None
                                            },
                                        }
                                    },
                                }
                            },
                        }
                    },
                }
            },
        }
    }
}

impl Block {
    /// The block's JSON text.
    pub fn serialized(&self) -> (r: String)
        ensures
            vstd::utf8::encode_utf8(r@) == block_json(
                self.header.prev_hash@,
                self.header.nonce,
                self.header.difficulty,
                self.header.timestamp,
                self.body.transactions@,
            ),
    {
        proof {
            reveal_strlit("{\"header\":{\"prev_hash\":");
            reveal_strlit(",\"nonce\":");
            reveal_strlit(",\"difficulty\":");
            reveal_strlit(",\"timestamp\":");
            reveal_strlit("},\"body\":{\"transactions\":");
            reveal_strlit("}}");
        }
        let mut out: Vec<u8> = Vec::new();
        crate::json::append_lit(&mut out, "{\"header\":{\"prev_hash\":");
        crate::json::append_bytes(&mut out, &self.header.prev_hash);
        crate::json::append_lit(&mut out, ",\"nonce\":");
        crate::json::append_u64(&mut out, self.header.get_nonce());
        crate::json::append_lit(&mut out, ",\"difficulty\":");
        crate::json::append_u64(&mut out, self.header.get_difficulty());
        crate::json::append_lit(&mut out, ",\"timestamp\":");
        crate::json::append_u64(&mut out, self.header.get_timestamp());
        crate::json::append_lit(&mut out, "},\"body\":{\"transactions\":");
        crate::json::append_bytes(&mut out, &self.body.transactions);
        crate::json::append_lit(&mut out, "}}");
        proof {
            assert(out@ == block_json(
                self.header.prev_hash@,
                self.header.nonce,
                self.header.difficulty,
                self.header.timestamp,
                self.body.transactions@,
            ));
            lemma_block_json_ascii(
                self.header.prev_hash@,
                self.header.nonce,
                self.header.difficulty,
                self.header.timestamp,
                self.body.transactions@,
            );
            crate::textenc::lemma_ascii_valid_utf8(out@);
        }
        match crate::textenc::string_from_utf8(out) {
            Some(s) => s,
            None => vstd::pervasive::unreached(),
        }
    }

    /// Reads a block back from its JSON text: exactly the inverse of
    /// `serialized`, rejecting anything else.
    pub fn deserialized(serialized: &str) -> (r: Option<Block>)
        ensures
            match r {
                Some(b) => parse_block(vstd::utf8::encode_utf8(serialized@)) == Some(
                    (
                        b.header.prev_hash@,
                        b.header.nonce,
                        b.header.difficulty,
                        b.header.timestamp,
                        b.body.transactions@,
                    ),
                ),
                None => parse_block(vstd::utf8::encode_utf8(serialized@)) is None,
            },
    {
        proof {
            reveal_strlit("{\"header\":{\"prev_hash\":");
            reveal_strlit(",\"nonce\":");
            reveal_strlit(",\"difficulty\":");
            reveal_strlit(",\"timestamp\":");
            reveal_strlit("},\"body\":{\"transactions\":");
            reveal_strlit("}}");
        }
        let v = serialized.as_bytes_vec();
        let p0 = match crate::json::expect_lit(&v, 0, "{\"header\":{\"prev_hash\":") {
            Some(p) => p,
            None => {
                return None;
            },
        };
        let (parent, p1) = match crate::json::parse_bytes(&v, p0) {
            Some(r) => r,
            None => {
                return None;
            },
        };
        let p1b = match crate::json::expect_lit(&v, p1, ",\"nonce\":") {
            Some(p) => p,
            None => {
                return None;
            },
        };
        let (nonce, p2) = match crate::json::parse_u64(&v, p1b) {
            Some(r) => r,
            None => {
                return None;
            },
        };
        let p2b = match crate::json::expect_lit(&v, p2, ",\"difficulty\":") {
            Some(p) => p,
            None => {
                return None;
            },
        };
        let (difficulty, p3) = match crate::json::parse_u64(&v, p2b) {
            Some(r) => r,
            None => {
                return None;
            },
        };
        let p3b = match crate::json::expect_lit(&v, p3, ",\"timestamp\":") {
            Some(p) => p,
            None => {
                return None;
            },
        };
        let (timestamp, p4) = match crate::json::parse_u64(&v, p3b) {
            Some(r) => r,
            None => {
                return None;
            },
        };
        let p4b = match crate::json::expect_lit(&v, p4, "},\"body\":{\"transactions\":") {
            Some(p) => p,
            None => {
                return None;
            },
        };
        let (txs, p5) = match crate::json::parse_bytes(&v, p4b) {
            Some(r) => r,
            None => {
                return None;
            },
        };
        let p6 = match crate::json::expect_lit(&v, p5, "}}") {
            Some(p) => p,
            None => {
                return None;
            },
        };
        if p6 != v.len() {
            return None;
        }
        Some(
            Block {
                header: BlockHeader { prev_hash: parent, nonce, difficulty, timestamp },
                body: BlockBody { transactions: txs },
            },
        )
    }
}

/// A block's JSON text is ASCII.
proof fn lemma_block_json_ascii(parent: Seq<u8>, nonce: u64, difficulty: u64, ts: u64, txs: Seq<u8>)
    ensures
        ascii_only(block_json(parent, nonce, difficulty, ts, txs)),
{
    reveal_strlit("{\"header\":{\"prev_hash\":");
    reveal_strlit(",\"nonce\":");
    reveal_strlit(",\"difficulty\":");
    reveal_strlit(",\"timestamp\":");
    reveal_strlit("},\"body\":{\"transactions\":");
    reveal_strlit("}}");
    let a = ascii_bytes("{\"header\":{\"prev_hash\":"@);
    let b = ascii_bytes(",\"nonce\":"@);
    let c = ascii_bytes(",\"difficulty\":"@);
    let d = ascii_bytes(",\"timestamp\":"@);
    let e = ascii_bytes("},\"body\":{\"transactions\":"@);
    let f = ascii_bytes("}}"@);
    crate::json::lemma_ascii_bytes_only("{\"header\":{\"prev_hash\":"@);
    crate::json::lemma_ascii_bytes_only(",\"nonce\":"@);
    crate::json::lemma_ascii_bytes_only(",\"difficulty\":"@);
    crate::json::lemma_ascii_bytes_only(",\"timestamp\":"@);
    crate::json::lemma_ascii_bytes_only("},\"body\":{\"transactions\":"@);
    crate::json::lemma_ascii_bytes_only("}}"@);
    crate::json::lemma_json_bytes_ascii(parent);
    crate::json::lemma_json_bytes_ascii(txs);
    crate::json::lemma_dec_ascii_only(nonce as nat);
    crate::json::lemma_dec_ascii_only(difficulty as nat);
    crate::json::lemma_dec_ascii_only(ts as nat);
    crate::json::lemma_ascii_concat(a, json_bytes(parent));
    crate::json::lemma_ascii_concat(a + json_bytes(parent), b);
    crate::json::lemma_ascii_concat(a + json_bytes(parent) + b, dec_ascii(nonce as nat));
    crate::json::lemma_ascii_concat(a + json_bytes(parent) + b + dec_ascii(nonce as nat), c);
    crate::json::lemma_ascii_concat(
        a + json_bytes(parent) + b + dec_ascii(nonce as nat) + c,
        dec_ascii(difficulty as nat),
    );
    crate::json::lemma_ascii_concat(
        a + json_bytes(parent) + b + dec_ascii(nonce as nat) + c + dec_ascii(difficulty as nat),
        d,
    );
    crate::json::lemma_ascii_concat(
        a + json_bytes(parent) + b + dec_ascii(nonce as nat) + c + dec_ascii(difficulty as nat)
            + d,
        dec_ascii(ts as nat),
    );
    crate::json::lemma_ascii_concat(
        a + json_bytes(parent) + b + dec_ascii(nonce as nat) + c + dec_ascii(difficulty as nat) + d
            + dec_ascii(ts as nat),
        e,
    );
    crate::json::lemma_ascii_concat(
        a + json_bytes(parent) + b + dec_ascii(nonce as nat) + c + dec_ascii(difficulty as nat) + d
            + dec_ascii(ts as nat) + e,
        json_bytes(txs),
    );
    crate::json::lemma_ascii_concat(
        a + json_bytes(parent) + b + dec_ascii(nonce as nat) + c + dec_ascii(difficulty as nat) + d
            + dec_ascii(ts as nat) + e + json_bytes(txs),
        f,
    );
}

/// A block whose difficulty is zero is valid whatever its hash: in
/// particular the genesis block is valid.
pub proof fn lemma_difficulty_zero_valid(parent: Seq<u8>, ts: u64, txs: Seq<u8>, nonce: u64)
    ensures
        valid_with(parent, ts, txs, nonce, 0),
{
    lemma_hex_chars_len(hash_with(parent, ts, txs, nonce, 0));
}

/// Parsing a block's printed JSON gives its fields back: serializing a
/// block and deserializing the result reproduces the block, so its hash is
/// unchanged by the round trip.
pub proof fn lemma_block_round_trip(nonce: u64, diff: u64, ts: u64, parent: Seq<u8>, txs: Seq<u8>)
    ensures
        parse_block(block_json(parent, nonce, diff, ts, txs)) == (Some(
            (parent, nonce, diff, ts, txs),
        )),
{
    reveal_strlit("{\"header\":{\"prev_hash\":");
    reveal_strlit(",\"nonce\":");
    reveal_strlit(",\"difficulty\":");
    reveal_strlit(",\"timestamp\":");
    reveal_strlit("},\"body\":{\"transactions\":");
    reveal_strlit("}}");
    let la = ascii_bytes("{\"header\":{\"prev_hash\":"@);
    let lb = ascii_bytes(",\"nonce\":"@);
    let lc = ascii_bytes(",\"difficulty\":"@);
    let ld = ascii_bytes(",\"timestamp\":"@);
    let le = ascii_bytes("},\"body\":{\"transactions\":"@);
    let lf = ascii_bytes("}}"@);
    let jp = json_bytes(parent);
    let dn = dec_ascii(nonce as nat);
    let dd = dec_ascii(diff as nat);
    let dt = dec_ascii(ts as nat);
    let jt = json_bytes(txs);
    let s = block_json(parent, nonce, diff, ts, txs);
    lemma_dec_ascii(nonce as nat);
    lemma_dec_ascii(diff as nat);
    lemma_dec_ascii(ts as nat);
    let o0 = la.len() as int;
    let o1 = o0 + jp.len();
    let o2 = o1 + lb.len();
    let o3 = o2 + dn.len();
    let o4 = o3 + lc.len();
    let o5 = o4 + dd.len();
    let o6 = o5 + ld.len();
    let o7 = o6 + dt.len();
    let o8 = o7 + le.len();
    let o9 = o8 + jt.len();
    let o10 = o9 + lf.len();
    assert(s.len() == o10);
    assert(s.subrange(0, o0) =~= la);
    assert(s.subrange(o0, o1) =~= jp);
    assert(s.subrange(o1, o2) =~= lb);
    assert(s.subrange(o2, o3) =~= dn);
    assert(s.subrange(o3, o4) =~= lc);
    assert(s.subrange(o4, o5) =~= dd);
    assert(s.subrange(o5, o6) =~= ld);
    assert(s.subrange(o6, o7) =~= dt);
    assert(s.subrange(o7, o8) =~= le);
    assert(s.subrange(o8, o9) =~= jt);
    assert(s.subrange(o9, o10) =~= lf);
    assert(match_at(s, 0, la));
    crate::json::lemma_parse_bytes_after_print(s, o0, parent);
    assert(match_at(s, o1, lb));
    assert(s[o3] == lc[0]);
    assert(!crate::textenc::is_digit(s[o3]));
    crate::json::lemma_parse_u64_after_print(s, o2, nonce);
    assert(match_at(s, o3, lc));
    assert(s[o5] == ld[0]);
    assert(!crate::textenc::is_digit(s[o5]));
    crate::json::lemma_parse_u64_after_print(s, o4, diff);
    assert(match_at(s, o5, ld));
    assert(s[o7] == le[0]);
    assert(!crate::textenc::is_digit(s[o7]));
    crate::json::lemma_parse_u64_after_print(s, o6, ts);
    assert(match_at(s, o7, le));
    crate::json::lemma_parse_bytes_after_print(s, o8, txs);
    assert(match_at(s, o9, lf));
}

} // verus!
