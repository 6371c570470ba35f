//! The 160-bit identifier space: XOR distance and bucket-index derivation.
//!
//! Identifiers are 20-byte arrays.  The distance between two identifiers is
//! their byte-wise XOR; the bucket index of a distance is the position of its
//! most significant set bit, counting bit 0 as the most significant bit of
//! byte 0.  An all-zero distance (a node's distance to itself) maps to the
//! sentinel index 160, which the routing table rejects.

use vstd::prelude::*;

use crate::entropy;

verus! {

/// Number of bytes in a node identifier.
pub const ID_BYTES: usize = 20;

/// Number of bits in a node identifier, and the sentinel bucket index.
pub const ID_BITS: usize = 160;

/// The byte-wise XOR of two identifiers.
pub open spec fn dist_spec(a: Seq<u8>, b: Seq<u8>) -> Seq<u8> {
    Seq::new(a.len(), |i: int| a[i] ^ b[i])
}

/// Bit `k` of a distance, counting from the most significant bit of byte 0.
pub open spec fn kth_bit(d: Seq<u8>, k: int) -> u8 {
    (d[k / 8] >> (7 - (k % 8)) as u8) & 1
}

/// Index of the first set bit at or after `k`, or 160 when none is set.
pub open spec fn first_set_bit_from(d: Seq<u8>, k: int) -> int
    decreases 160 - k,
{
    if k < 0 || k >= 160 {
        160
    } else if kth_bit(d, k) == 1 {
        k
    } else {
        first_set_bit_from(d, k + 1)
    }
}

/// The bucket index of a distance: its most significant set bit, or the
/// sentinel 160 when the distance is all zero.
pub open spec fn bucket_index_spec(d: Seq<u8>) -> int {
    first_set_bit_from(d, 0)
}

/// Calculates the distance between two node ids by XORing them.
pub fn distance(node_id1: &[u8; 20], node_id2: &[u8; 20]) -> (dist: [u8; 20])
    ensures
        dist@ == dist_spec(node_id1@, node_id2@),
{
    let mut dist = [0u8; 20];
    for i in 0..20
        invariant
            forall|j: int| 0 <= j < i ==> dist@[j] == (node_id1@[j] ^ node_id2@[j]),
    {
        dist[i] = node_id1[i] ^ node_id2[i];
    }
    assert(dist@ =~= dist_spec(node_id1@, node_id2@));
    dist
}

/// Returns the value of the `bit_index`-th bit of the XOR distance.
pub fn k_index(xor_distance: &[u8; 20], bit_index: usize) -> (b: u8)
    requires
        bit_index < 160,
    ensures
        b == kth_bit(xor_distance@, bit_index as int),
{
    let byte_index = bit_index / 8;
    let bit_in_byte = bit_index % 8;
    (xor_distance[byte_index] >> (7 - bit_in_byte) as u8) & 1
}

/// Calculates the k-bucket index of a distance: the index of its first set
/// bit, or 160 when no bit is set.
pub fn find_k_bucket_index(xor_distance: &[u8; 20]) -> (idx: usize)
    ensures
        idx == bucket_index_spec(xor_distance@),
{
    for bit_index in 0..160
        invariant
            first_set_bit_from(xor_distance@, 0) == first_set_bit_from(
                xor_distance@,
                bit_index as int,
            ),
    {
        if k_index(xor_distance, bit_index) == 1 {
            return bit_index;
        }
    }
    160
}

/// Lexicographic order on byte strings of equal length; a distance compares
/// below another exactly when it is the smaller 160-bit number.
pub open spec fn bytes_le(a: Seq<u8>, b: Seq<u8>) -> bool
    decreases a.len(),
{
    if a.len() == 0 || b.len() == 0 {
        true
    } else if a[0] < b[0] {
        true
    } else if a[0] > b[0] {
        false
    } else {
        bytes_le(a.subrange(1, a.len() as int), b.subrange(1, b.len() as int))
    }
}

/// `bytes_le` is total on strings of equal length.
pub proof fn lemma_bytes_le_total(a: Seq<u8>, b: Seq<u8>)
    requires
        a.len() == b.len(),
    ensures
        bytes_le(a, b) || bytes_le(b, a),
    decreases a.len(),
{
    if a.len() > 0 && a[0] == b[0] {
        lemma_bytes_le_total(a.subrange(1, a.len() as int), b.subrange(1, b.len() as int));
    }
}

/// `bytes_le` is transitive on strings of equal length.
pub proof fn lemma_bytes_le_trans(a: Seq<u8>, b: Seq<u8>, c: Seq<u8>)
    requires
        a.len() == b.len(),
        b.len() == c.len(),
        bytes_le(a, b),
        bytes_le(b, c),
    ensures
        bytes_le(a, c),
    decreases a.len(),
{
    if a.len() > 0 && a[0] == b[0] && b[0] == c[0] {
        lemma_bytes_le_trans(
            a.subrange(1, a.len() as int),
            b.subrange(1, b.len() as int),
            c.subrange(1, c.len() as int),
        );
    }
}

/// On a common prefix, `bytes_le` is decided by the remainders.
proof fn lemma_bytes_le_skip(a: Seq<u8>, b: Seq<u8>, i: int)
    requires
        a.len() == b.len(),
        0 <= i <= a.len(),
        forall|j: int| 0 <= j < i ==> a[j] == b[j],
    ensures
        bytes_le(a, b) == bytes_le(a.skip(i), b.skip(i)),
    decreases i,
{
    if i > 0 && a.len() > 0 {
        let at = a.subrange(1, a.len() as int);
        let bt = b.subrange(1, b.len() as int);
        lemma_bytes_le_skip(at, bt, i - 1);
        assert(at.skip(i - 1) =~= a.skip(i));
        assert(bt.skip(i - 1) =~= b.skip(i));
    } else {
        assert(a.skip(0) =~= a);
        assert(b.skip(0) =~= b);
    }
}

/// Compares the distances of two ids to a common target: true when `a` is
/// at most as far from `target` as `b` is.
pub fn dist_le(target: &[u8; 20], a: &[u8; 20], b: &[u8; 20]) -> (r: bool)
    ensures
        r == bytes_le(dist_spec(a@, target@), dist_spec(b@, target@)),
{
    let ghost da = dist_spec(a@, target@);
    let ghost db = dist_spec(b@, target@);
    for i in 0..20
        invariant
            da == dist_spec(a@, target@),
            db == dist_spec(b@, target@),
            forall|j: int| 0 <= j < i ==> da[j] == db[j],
    {
        let xa = a[i] ^ target[i];
        let xb = b[i] ^ target[i];
        proof {
            lemma_bytes_le_skip(da, db, i as int);
        }
        if xa < xb {
            return true;
        }
        if xa > xb {
            return false;
        }
    }
    proof {
        lemma_bytes_le_skip(da, db, 20);
    }
    true
}

/// A byte with no set bit is zero.
proof fn lemma_byte_no_bits_zero(x: u8)
    requires
        forall|s: u8| s < 8 ==> ((x >> s) & 1) != 1,
    ensures
        x == 0,
{
    assert(((x >> 0u8) & 1) != 1);
    assert(((x >> 1u8) & 1) != 1);
    assert(((x >> 2u8) & 1) != 1);
    assert(((x >> 3u8) & 1) != 1);
    assert(((x >> 4u8) & 1) != 1);
    assert(((x >> 5u8) & 1) != 1);
    assert(((x >> 6u8) & 1) != 1);
    assert(((x >> 7u8) & 1) != 1);
    assert((((x >> 0u8) & 1) != 1 && ((x >> 1u8) & 1) != 1 && ((x >> 2u8) & 1) != 1 && ((x >> 3u8)
        & 1) != 1 && ((x >> 4u8) & 1) != 1 && ((x >> 5u8) & 1) != 1 && ((x >> 6u8) & 1) != 1 && ((x
        >> 7u8) & 1) != 1) ==> x == 0) by (bit_vector);
}

/// The sentinel bucket index arises only from a node's distance to itself:
/// when the bucket index of `distance(a, b)` is 160, the ids are equal.
pub proof fn lemma_sentinel_implies_eq(a: Seq<u8>, b: Seq<u8>)
    requires
        a.len() == 20,
        b.len() == 20,
        bucket_index_spec(dist_spec(a, b)) == 160,
    ensures
        a =~= b,
{
    let d = dist_spec(a, b);
    lemma_bucket_index_range(d, 0);
    assert forall|i: int| 0 <= i < 20 implies d[i] == 0 by {
        assert forall|s: u8| s < 8 implies ((d[i] >> s) & 1) != 1 by {
            let j = 8 * i + 7 - s;
            assert(j / 8 == i && j % 8 == 7 - s);
            assert(kth_bit(d, j) != 1);
        }
        lemma_byte_no_bits_zero(d[i]);
    }
    lemma_distance_zero_iff_eq(a, b);
    assert(d =~= Seq::new(a.len(), |i: int| 0u8));
}

/// Generates a uniform-random node id.
pub fn generate_node_id() -> [u8; 20] {
    let bytes = entropy::random_bytes(20);
    let mut id = [0u8; 20];
    for i in 0..20
        invariant
            bytes@.len() == 20,
            forall|j: int| 0 <= j < i ==> id@[j] == bytes@[j],
    {
        id[i] = bytes[i];
    }
    id
}

/// If the first set bit of `d` is at `m`, the bucket index is `m`.
proof fn lemma_first_set_bit_from(d: Seq<u8>, k: int, m: int)
    requires
        0 <= k <= m < 160,
        kth_bit(d, m) == 1,
        forall|j: int| k <= j < m ==> kth_bit(d, j) != 1,
    ensures
        first_set_bit_from(d, k) == m,
    decreases m - k,
{
    if k < m {
        lemma_first_set_bit_from(d, k + 1, m);
    }
}

/// If no bit of `d` at or after `k` is set, the bucket index is the sentinel.
proof fn lemma_no_set_bit_from(d: Seq<u8>, k: int)
    requires
        0 <= k <= 160,
        forall|j: int| k <= j < 160 ==> kth_bit(d, j) != 1,
    ensures
        first_set_bit_from(d, k) == 160,
    decreases 160 - k,
{
    if k < 160 {
        lemma_no_set_bit_from(d, k + 1);
    }
}

/// The bucket index lies between 0 and the sentinel, and when it is below
/// the sentinel it names a set bit preceded only by clear bits.
pub proof fn lemma_bucket_index_range(d: Seq<u8>, k: int)
    requires
        0 <= k <= 160,
    ensures
        k <= first_set_bit_from(d, k) <= 160,
        first_set_bit_from(d, k) < 160 ==> kth_bit(d, first_set_bit_from(d, k)) == 1,
        forall|j: int| k <= j < first_set_bit_from(d, k) ==> kth_bit(d, j) != 1,
    decreases 160 - k,
{
    if k < 160 && kth_bit(d, k) != 1 {
        lemma_bucket_index_range(d, k + 1);
    }
}

/// XOR distance is symmetric.
pub proof fn lemma_distance_symmetric(a: Seq<u8>, b: Seq<u8>)
    requires
        a.len() == b.len(),
    ensures
        dist_spec(a, b) == dist_spec(b, a),
{
    assert forall|i: int| 0 <= i < a.len() implies dist_spec(a, b)[i] == dist_spec(b, a)[i] by {
        let x = a[i];
        let y = b[i];
        assert((x ^ y) == (y ^ x)) by (bit_vector);
    }
    assert(dist_spec(a, b) =~= dist_spec(b, a));
}

/// The distance between two ids is all zero exactly when the ids are equal;
/// in particular `dist_spec(a, a)` is all zero and maps to the sentinel
/// bucket index 160.
pub proof fn lemma_distance_zero_iff_eq(a: Seq<u8>, b: Seq<u8>)
    requires
        a.len() == b.len(),
    ensures
        (dist_spec(a, b) =~= Seq::new(a.len(), |i: int| 0u8)) <==> (a =~= b),
{
    assert forall|i: int| 0 <= i < a.len() implies ((a[i] ^ b[i]) == 0 <==> a[i] == b[i]) by {
        let x = a[i];
        let y = b[i];
        assert((x ^ y) == 0 <==> x == y) by (bit_vector);
    }
    if a =~= b {
        assert(dist_spec(a, b) =~= Seq::new(a.len(), |i: int| 0u8));
    }
    if dist_spec(a, b) =~= Seq::new(a.len(), |i: int| 0u8) {
        assert forall|i: int| 0 <= i < a.len() implies a[i] == b[i] by {
            assert(dist_spec(a, b)[i] == 0);
        }
        assert(a =~= b);
    }
}

/// A node's distance to itself has no set bit: its bucket index is the
/// sentinel 160.
pub proof fn lemma_self_distance_sentinel(a: Seq<u8>)
    requires
        a.len() == 20,
    ensures
        bucket_index_spec(dist_spec(a, a)) == 160,
{
    assert forall|j: int| 0 <= j < 160 implies kth_bit(dist_spec(a, a), j) != 1 by {
        let x = a[j / 8];
        assert((x ^ x) == 0) by (bit_vector);
        assert(dist_spec(a, a)[j / 8] == 0);
        let s = (7 - (j % 8)) as u8;
        assert(((0u8 >> s) & 1) == 0) by (bit_vector);
    }
    lemma_no_set_bit_from(dist_spec(a, a), 0);
}

/// The XOR metric obeys the triangle inequality on bit positions: the first
/// set bit of `distance(a, c)` comes no earlier than the earlier of the
/// first set bits of `distance(a, b)` and `distance(b, c)`.
pub proof fn lemma_distance_triangle(a: Seq<u8>, b: Seq<u8>, c: Seq<u8>)
    requires
        a.len() == 20,
        b.len() == 20,
        c.len() == 20,
    ensures
        bucket_index_spec(dist_spec(a, c)) >= vstd::math::min(
            bucket_index_spec(dist_spec(a, b)),
            bucket_index_spec(dist_spec(b, c)),
        ),
{
    let dab = dist_spec(a, b);
    let dbc = dist_spec(b, c);
    let dac = dist_spec(a, c);
    let m = vstd::math::min(bucket_index_spec(dab), bucket_index_spec(dbc));
    lemma_bucket_index_range(dab, 0);
    lemma_bucket_index_range(dbc, 0);
    assert forall|j: int| 0 <= j < m implies kth_bit(dac, j) != 1 by {
        let x = a[j / 8];
        let y = b[j / 8];
        let z = c[j / 8];
        let s = (7 - (j % 8)) as u8;
        assert(kth_bit(dab, j) != 1);
        assert(kth_bit(dbc, j) != 1);
        assert((((x ^ y) >> s) & 1) != 1 && (((y ^ z) >> s) & 1) != 1 ==> (((x ^ z) >> s) & 1)
            != 1) by (bit_vector);
    }
    lemma_bucket_index_range(dac, 0);
    if m == 160 {
        lemma_no_set_bit_from(dac, 0);
    } else if bucket_index_spec(dac) < m {
        assert(kth_bit(dac, bucket_index_spec(dac)) == 1);
        assert(false);
    }
}

/// Constructs an id guaranteed to fall in bucket `bucket_index` relative to
/// `my_id`: the bit at that index is flipped and every byte after it is
/// randomized, so the distance's first set bit is exactly at `bucket_index`.
pub fn generate_random_id_near_distance(my_id: &[u8], bucket_index: u8) -> (r: Vec<u8>)
    requires
        my_id@.len() == 20,
        bucket_index < 160,
    ensures
        r@.len() == 20,
        bucket_index_spec(dist_spec(my_id@, r@)) == bucket_index as int,
{
    let byte_pos: usize = (bucket_index as usize) / 8;
    let bit_in_byte: usize = (bucket_index as usize) % 8;
    let mask: u8 = 1u8 << (7 - bit_in_byte) as u8;
    let suffix = entropy::random_bytes(20 - byte_pos - 1);
    let mut out: Vec<u8> = Vec::new();
    for i in 0..byte_pos
        invariant
            my_id@.len() == 20,
            byte_pos < 20,
            out@.len() == i,
            forall|j: int| 0 <= j < i ==> out@[j] == my_id@[j],
    {
        out.push(my_id[i]);
    }
    out.push(my_id[byte_pos] ^ mask);
    let mut i: usize = 0;
    while i < suffix.len()
        invariant
            my_id@.len() == 20,
            byte_pos < 20,
            suffix@.len() == 20 - byte_pos - 1,
            i <= suffix@.len(),
            out@.len() == byte_pos + 1 + i,
            forall|j: int| 0 <= j < byte_pos ==> out@[j] == my_id@[j],
            out@[byte_pos as int] == (my_id@[byte_pos as int] ^ mask),
        decreases suffix@.len() - i,
    {
        out.push(suffix[i]);
        i += 1;
    }
    proof {
        let d = dist_spec(my_id@, out@);
        let bi = bucket_index as int;
        assert forall|j: int| 0 <= j < bi implies kth_bit(d, j) != 1 by {
            let x = my_id@[j / 8];
            let s = (7 - (j % 8)) as u8;
            if j / 8 < byte_pos {
                assert(out@[j / 8] == x);
                assert((((x ^ x) >> s) & 1) == 0) by (bit_vector);
            } else {
                assert(j / 8 == byte_pos && j % 8 < bit_in_byte);
                let sh = (7 - bit_in_byte) as u8;
                let m = mask;
                assert(d[j / 8] == (x ^ (x ^ m)));
                assert(m == (1u8 << sh) && s > sh ==> (((x ^ (x ^ m)) >> s) & 1) == 0)
                    by (bit_vector);
            }
        }
        let x = my_id@[byte_pos as int];
        let sh = (7 - bit_in_byte) as u8;
        let m = mask;
        assert(kth_bit(d, bi) == ((x ^ (x ^ m)) >> sh) & 1) by {
            assert(bi / 8 == byte_pos && bi % 8 == bit_in_byte);
        }
        assert(m == (1u8 << sh) && sh <= 7 ==> (((x ^ (x ^ m)) >> sh) & 1) == 1) by (bit_vector);
        lemma_first_set_bit_from(d, 0, bi);
    }
    out
}

} // verus!
