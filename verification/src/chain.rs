//! The chain: an ordered list of blocks, and its reconstruction from the
//! DHT by walking parent pointers.
//!
//! The DHT is the authoritative storage: a chain is rebuilt per fetch,
//! starting from the well-known latest-block pointer and following each
//! block's parent hash until the genesis sentinel, an all-zero 64-byte
//! parent.  A missing block discards the whole attempt.

use vstd::prelude::*;

use crate::block::Block;
use crate::crypto::sha256_of;
use crate::json::ascii_bytes;
use crate::protocol::string_to_hash_key;
use crate::textenc::hex_chars;
use crate::textenc::hex_digit_char;
use crate::textenc::hex_encode;

verus! {

/// A chain of blocks, oldest first as far as local use goes.
pub struct Chain {
    /// The blocks of the chain.
    pub blocks: Vec<Block>,
}

impl Chain {
    /// A new chain holding just the genesis block.
    pub fn new() -> (r: Chain)
        ensures
            r.blocks@.len() == 1,
            r.blocks@[0].header.prev_hash@ =~= Seq::new(64, |i: int| 0u8),
            r.blocks@[0].header.difficulty == 0,
            r.blocks@[0].header.nonce == 0,
            r.blocks@[0].header.timestamp == 0,
            r.blocks@[0].body.transactions@ =~= Seq::<u8>::empty(),
    {
        let mut blocks: Vec<Block> = Vec::new();
        blocks.push(Block::genesis());
        Chain { blocks }
    }

    /// Appends a block to the chain.
    pub fn add_block(&mut self, block: Block)
        ensures
            final(self).blocks@ == old(self).blocks@.push(block),
    {
        self.blocks.push(block);
    }

    /// The first block of the chain.
    pub fn get_first_block(&self) -> (r: &Block)
        requires
            self.blocks@.len() > 0,
        ensures
            r == &self.blocks@[0],
    {
        &self.blocks[0]
    }

    /// The entire chain.
    pub fn get_chain(&self) -> (r: &Vec<Block>)
        ensures
            r == &self.blocks,
    {
        &self.blocks
    }
}

/// Whether every byte of a vector is zero.
fn bytes_all_zero(v: &Vec<u8>) -> (r: bool)
    ensures
        r == (forall|j: int| 0 <= j < v@.len() ==> v@[j] == 0u8),
{
    let n = v.len();
    for i in 0..n
        invariant
            n == v@.len(),
            forall|j: int| 0 <= j < i ==> v@[j] == 0u8,
    {
        if v[i] != 0 {
            return false;
        }
    }
    true
}

/// Whether a parent hash is the genesis sentinel: 64 zero bytes.
pub open spec fn is_genesis_parent(p: Seq<u8>) -> bool {
    p.len() == 64 && forall|i: int| 0 <= i < 64 ==> p[i] == 0u8
}

/// The DHT key under which the block before the one with parent hash `p`
/// is stored: the hash key of the hex text of the first 20 bytes of `p`.
pub open spec fn next_block_key(p: Seq<u8>) -> Seq<u8> {
    sha256_of(ascii_bytes(hex_chars(p.take(vstd::math::min(20, p.len() as int))))).take(20)
}

/// Hex text is ASCII characters.
proof fn lemma_hex_chars_ascii(b: Seq<u8>)
    ensures
        vstd::utf8::is_ascii_chars(hex_chars(b)),
    decreases b.len(),
{
    if b.len() > 0 {
        lemma_hex_chars_ascii(b.drop_last());
        assert('\0' <= hex_digit_char((b.last() / 16) as nat) <= '\u{7f}');
        assert('\0' <= hex_digit_char((b.last() % 16) as nat) <= '\u{7f}');
        assert forall|i: int| 0 <= i < hex_chars(b).len() implies '\0' <= #[trigger] hex_chars(b)[i]
            <= '\u{7f}' by {
            if i < hex_chars(b.drop_last()).len() {
                assert(hex_chars(b)[i] == hex_chars(b.drop_last())[i]);
            }
        }
    }
}

/// What one fetch step concluded.
pub enum FetchStep {
    /// The genesis sentinel was reached: the chain is complete.
    Done,
    /// The fetch continues at the given key.
    Continue([u8; 20]),
    /// A block was missing: the whole reconstruction failed.
    Failed,
}

/// The state of a chain reconstruction: the blocks fetched so far, newest
/// first, and the key to fetch next.  A driver fetches each key from the
/// DHT and feeds the result back in.
pub struct ChainFetcher {
    /// The blocks fetched so far, newest first.
    pub fetched: Vec<Block>,
    /// The key the next block is expected under.
    pub current_key: [u8; 20],
}

impl ChainFetcher {
    /// Starts a reconstruction at the well-known latest-block pointer.
    pub fn new() -> (r: ChainFetcher)
        ensures
            r.fetched@.len() == 0,
            r.current_key@ == sha256_of(
                vstd::utf8::encode_utf8("latest_block"@),
            ).take(20),
    {
        ChainFetcher { fetched: Vec::new(), current_key: string_to_hash_key("latest_block") }
    }

    /// Digests one fetched value.  A missing block fails the whole
    /// reconstruction; a block is appended, and either ends the walk at
    /// the genesis sentinel or moves the key to its parent's.
    pub fn on_value(&mut self, fetched: Option<Block>) -> (r: FetchStep)
        ensures
            match r {
                FetchStep::Failed => fetched is None && *final(self) == *old(self),
                FetchStep::Done => match fetched {
                    Some(b) => is_genesis_parent(b.header.prev_hash@) && final(self).fetched@
                        == old(self).fetched@.push(b) && final(self).current_key == old(
                        self,
                    ).current_key,
                    None => false,
                },
                FetchStep::Continue(k) => match fetched {
                    Some(b) => !is_genesis_parent(b.header.prev_hash@) && final(self).fetched@
                        == old(self).fetched@.push(b) && k@ == next_block_key(b.header.prev_hash@)
                        && final(self).current_key@ == k@,
                    None => false,
                },
            },
    {
        let block = match fetched {
            Some(b) => b,
            None => {
                return FetchStep::Failed;
            },
        };
        let parent = block.header.get_parent_hash();
        let sentinel = parent.len() == 64 && bytes_all_zero(&parent);
        if sentinel {
            self.fetched.push(block);
            return FetchStep::Done;
        }
        let plen = parent.len();
        let tlen = if plen < 20 {
            plen
        } else {
            20
        };
        let mut trunc: Vec<u8> = Vec::new();
        let mut i: usize = 0;
        while i < tlen
            invariant
                tlen <= parent@.len(),
                i <= tlen,
                trunc@ =~= parent@.take(i as int),
            decreases tlen - i,
        {
            trunc.push(parent[i]);
            i += 1;
            proof {
                assert(trunc@ =~= parent@.take(i as int));
            }
        }
        proof {
            assert(trunc@ =~= parent@.take(vstd::math::min(20, parent@.len() as int)));
        }
        let hex_str = hex_encode(trunc.as_slice());
        proof {
            lemma_hex_chars_ascii(trunc@);
            vstd::utf8::is_ascii_chars_encode_utf8(hex_str@);
            assert(vstd::utf8::encode_utf8(hex_str@) =~= ascii_bytes(hex_chars(trunc@)));
        }
        let key = string_to_hash_key(hex_str.as_str());
        self.fetched.push(block);
        self.current_key = key;
        FetchStep::Continue(key)
    }
}

} // verus!
