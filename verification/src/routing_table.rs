//! The routing table: one k-bucket per distance class, plus the node's
//! share of the key/value store.
//!
//! A node is placed in the bucket named by the index of the most
//! significant set bit of its distance to the local node; the local node
//! itself maps to the sentinel index and is never stored.  The local store
//! is an append-only association list whose latest binding wins.

use vstd::prelude::*;
use vstd::multiset::Multiset;
use vstd::seq_lib::lemma_multiset_commutative;

use crate::k_bucket::K_Bucket;
use crate::k_bucket::bucket_add_spec;
use crate::node::Node;
use crate::node::ids_equal;
use crate::node_id;
use crate::node_id::bucket_index_spec;
use crate::node_id::bytes_le;
use crate::node_id::dist_spec;
use crate::params::MAX_BUCKET_SIZE;

verus! {

/// The map held by an association list, later bindings winning.
pub open spec fn storage_map(s: Seq<([u8; 20], Vec<u8>)>) -> Map<Seq<u8>, Seq<u8>>
    decreases s.len(),
{
    if s.len() == 0 {
        Map::empty()
    } else {
        storage_map(s.drop_last()).insert(s.last().0@, s.last().1@)
    }
}

/// The binding of a key is the value of its last occurrence.
proof fn lemma_storage_map_binding(s: Seq<([u8; 20], Vec<u8>)>, k: Seq<u8>, i: int)
    requires
        0 <= i < s.len(),
        s[i].0@ == k,
        forall|j: int| i < j < s.len() ==> s[j].0@ != k,
    ensures
        storage_map(s).contains_key(k),
        storage_map(s)[k] == s[i].1@,
    decreases s.len(),
{
    if i < s.len() - 1 {
        lemma_storage_map_binding(s.drop_last(), k, i);
    }
}

/// A key that occurs nowhere is absent from the map.
proof fn lemma_storage_map_absent(s: Seq<([u8; 20], Vec<u8>)>, k: Seq<u8>)
    requires
        forall|j: int| 0 <= j < s.len() ==> s[j].0@ != k,
    ensures
        !storage_map(s).contains_key(k),
    decreases s.len(),
{
    if s.len() > 0 {
        lemma_storage_map_absent(s.drop_last(), k);
    }
}

/// Total number of nodes held by a sequence of buckets.
pub open spec fn table_size_spec(bs: Seq<K_Bucket>) -> int
    decreases bs.len(),
{
    if bs.len() == 0 {
        0
    } else {
        table_size_spec(bs.drop_last()) + bs.last().nodes@.len()
    }
}

/// All nodes held by a sequence of buckets, in bucket order.
pub open spec fn all_nodes_spec(bs: Seq<K_Bucket>) -> Seq<Node>
    decreases bs.len(),
{
    if bs.len() == 0 {
        Seq::empty()
    } else {
        all_nodes_spec(bs.drop_last()) + bs.last().nodes@
    }
}

/// Nodes ordered by ascending XOR distance to a target.
pub open spec fn sorted_by_dist(t: Seq<u8>, s: Seq<Node>) -> bool {
    forall|i: int, j: int| 0 <= i < j < s.len() ==> bytes_le(
        dist_spec(s[i].id@, t),
        dist_spec(s[j].id@, t),
    )
}


/// Where a node enters a distance-ordered list: after every node at most
/// as far from the target, before the first strictly farther one — so
/// nodes at equal distance keep their existing order.
pub open spec fn insert_by_dist(t: Seq<u8>, s: Seq<Node>, x: Node) -> Seq<Node>
    decreases s.len(),
{
    if s.len() == 0 {
        seq![x]
    } else if bytes_le(dist_spec(s[0].id@, t), dist_spec(x.id@, t)) {
        seq![s[0]] + insert_by_dist(t, s.subrange(1, s.len() as int), x)
    } else {
        seq![x] + s
    }
}

/// The stable arrangement of nodes by ascending distance to the target:
/// each node in turn is placed after all nodes at most as far, so ties
/// keep the order the nodes were stored in.
pub open spec fn sort_by_dist_spec(t: Seq<u8>, s: Seq<Node>) -> Seq<Node>
    decreases s.len(),
{
    if s.len() == 0 {
        Seq::empty()
    } else {
        insert_by_dist(t, sort_by_dist_spec(t, s.drop_last()), s.last())
    }
}

/// The insertion point determines the inserted list.
proof fn lemma_insert_by_dist_at(t: Seq<u8>, s: Seq<Node>, x: Node, p: int)
    requires
        0 <= p <= s.len(),
        forall|j: int| 0 <= j < p ==> bytes_le(
            dist_spec((#[trigger] s[j]).id@, t),
            dist_spec(x.id@, t),
        ),
        p == s.len() || !bytes_le(dist_spec(s[p].id@, t), dist_spec(x.id@, t)),
    ensures
        insert_by_dist(t, s, x) =~= s.take(p) + seq![x] + s.skip(p),
    decreases p,
{
    if p == 0 {
        if s.len() == 0 {
            assert(insert_by_dist(t, s, x) =~= s.take(0) + seq![x] + s.skip(0));
        } else {
            assert(s.take(0) + seq![x] + s.skip(0) =~= seq![x] + s);
        }
    } else {
        let tail = s.subrange(1, s.len() as int);
        assert(bytes_le(dist_spec(s[0].id@, t), dist_spec(x.id@, t)));
        assert forall|j: int| 0 <= j < p - 1 implies bytes_le(
            dist_spec((#[trigger] tail[j]).id@, t),
            dist_spec(x.id@, t),
        ) by {
            assert(tail[j] == s[j + 1]);
        }
        if p < s.len() {
            assert(tail[p - 1] == s[p]);
        }
        lemma_insert_by_dist_at(t, tail, x, p - 1);
        assert(seq![s[0]] + (tail.take(p - 1) + seq![x] + tail.skip(p - 1)) =~= s.take(p) + seq![x]
            + s.skip(p));
    }
}

/// Inserting anywhere in a sequence inserts into its multiset.
proof fn lemma_insert_to_multiset(s: Seq<Node>, p: int, x: Node)
    requires
        0 <= p <= s.len(),
    ensures
        s.insert(p, x).to_multiset() =~= s.to_multiset().insert(x),
{
    broadcast use vstd::seq_lib::group_to_multiset_ensures;

    let mid = seq![x] + s.skip(p);
    assert(s.insert(p, x) =~= s.take(p) + mid);
    lemma_multiset_commutative(s.take(p), mid);
    lemma_multiset_commutative(seq![x], s.skip(p));
    assert(s =~= s.take(p) + s.skip(p));
    lemma_multiset_commutative(s.take(p), s.skip(p));
    assert(seq![x].to_multiset() =~= Multiset::empty().insert(x)) by {
        assert(seq![x].drop_first() =~= Seq::<Node>::empty());
    }
}

/// The routing table of the local node.
pub struct RoutingTable {
    /// The local node.
    pub curr_node: Node,
    /// One bucket per bit of the identifier space, indexed by bucket index.
    pub buckets: Vec<K_Bucket>,
    /// Local storage: an association list from 20-byte keys to values.
    pub local_storage: Vec<([u8; 20], Vec<u8>)>,
}

impl RoutingTable {
    /// The table's structural invariant: one well-formed bucket of capacity
    /// `MAX_BUCKET_SIZE` for each of the 160 distance classes.
    pub open spec fn wf(&self) -> bool {
        &&& self.buckets@.len() == 160
        &&& forall|b: int| 0 <= b < 160 ==> (#[trigger] self.buckets@[b]).wf()
        &&& forall|b: int| 0 <= b < 160 ==> (#[trigger] self.buckets@[b]).k == MAX_BUCKET_SIZE
    }

    /// The view of the local store as a map.
    pub open spec fn storage(&self) -> Map<Seq<u8>, Seq<u8>> {
        storage_map(self.local_storage@)
    }

    /// Creates a routing table for a fresh node with the given address.
    pub fn new(ip: String, port: u16) -> (r: RoutingTable)
        ensures
            r.wf(),
            r.curr_node.ip@ == ip@,
            r.curr_node.port == port,
            table_size_spec(r.buckets@) == 0,
            all_nodes_spec(r.buckets@) =~= Seq::<Node>::empty(),
            r.storage() =~= Map::<Seq<u8>, Seq<u8>>::empty(),
    {
        let curr_node = Node::new(ip, port);
        let mut buckets: Vec<K_Bucket> = Vec::new();
        for i in 0..160
            invariant
                buckets@.len() == i,
                forall|b: int| 0 <= b < i ==> (#[trigger] buckets@[b]).wf(),
                forall|b: int| 0 <= b < i ==> (#[trigger] buckets@[b]).k == MAX_BUCKET_SIZE,
                forall|b: int| 0 <= b < i ==> (#[trigger] buckets@[b]).nodes@.len() == 0,
                table_size_spec(buckets@) == 0,
                all_nodes_spec(buckets@) =~= Seq::<Node>::empty(),
        {
            let ghost pre = buckets@;
            buckets.push(K_Bucket::new(MAX_BUCKET_SIZE));
            proof {
                assert(buckets@.drop_last() =~= pre);
            }
        }
        RoutingTable { curr_node, buckets, local_storage: Vec::new() }
    }

    /// The local node.
    pub fn get_curr_node(&self) -> (r: &Node)
        ensures
            r == &self.curr_node,
    {
        &self.curr_node
    }

    /// Records a node in the bucket named by its distance to the local
    /// node.  Inserting the local node itself leaves the table unchanged;
    /// any other node is handed to its bucket, which may evict its least
    /// recently seen member.
    pub fn add_node(&mut self, node: Node)
        requires
            old(self).wf(),
        ensures
            final(self).wf(),
            final(self).curr_node == old(self).curr_node,
            final(self).local_storage == old(self).local_storage,
            final(self).buckets@.len() == old(self).buckets@.len(),
            node.id@ == old(self).curr_node.id@ ==> final(self).buckets == old(self).buckets,
            node.id@ != old(self).curr_node.id@ ==> {
                let idx = bucket_index_spec(dist_spec(old(self).curr_node.id@, node.id@));
                &&& 0 <= idx < 160
                &&& final(self).buckets@[idx].nodes@ == bucket_add_spec(
                    old(self).buckets@[idx].nodes@,
                    node,
                    MAX_BUCKET_SIZE as int,
                )
                &&& forall|b: int|
                    0 <= b < 160 && b != idx ==> final(self).buckets@[b] == old(self).buckets@[b]
            },
    {
        let dist = node_id::distance(self.curr_node.get_id(), node.get_id());
        let index = node_id::find_k_bucket_index(&dist);
        if index == 160 {
            proof {
                node_id::lemma_sentinel_implies_eq(self.curr_node.id@, node.id@);
            }
            return ;
        }
        proof {
            node_id::lemma_self_distance_sentinel(self.curr_node.id@);
            if node.id@ == self.curr_node.id@ {
                assert(dist_spec(self.curr_node.id@, node.id@) == dist_spec(
                    self.curr_node.id@,
                    self.curr_node.id@,
                ));
                assert(false);
            }
            node_id::lemma_bucket_index_range(dist@, 0);
        }
        let bucket = &mut self.buckets[index];
        bucket.add_node(node);
    }

    /// The number of nodes in the routing table.
    pub fn get_size(&self) -> (r: usize)
        requires
            self.wf(),
        ensures
            r == table_size_spec(self.buckets@),
    {
        let mut size: usize = 0;
        let n = self.buckets.len();
        for i in 0..n
            invariant
                n == self.buckets@.len(),
                self.wf(),
                size == table_size_spec(self.buckets@.take(i as int)),
                size <= i * MAX_BUCKET_SIZE,
        {
            proof {
                assert(self.buckets@.take(i + 1).drop_last() =~= self.buckets@.take(i as int));
                assert(self.buckets@[i as int].wf());
            }
            size = size + self.buckets[i].get_size();
        }
        proof {
            assert(self.buckets@.take(n as int) =~= self.buckets@);
        }
        size
    }

    /// A borrow of all buckets, indexed by bucket index.
    pub fn get_k_bucket_map(&self) -> (r: &Vec<K_Bucket>)
        ensures
            r == &self.buckets,
    {
        &self.buckets
    }

    /// All nodes known to the table, in bucket order.
    pub fn get_all_nodes(&self) -> (r: Vec<Node>)
        ensures
            r@ == all_nodes_spec(self.buckets@),
    {
        let mut all_nodes: Vec<Node> = Vec::new();
        let n = self.buckets.len();
        for i in 0..n
            invariant
                n == self.buckets@.len(),
                all_nodes@ =~= all_nodes_spec(self.buckets@.take(i as int)),
        {
            let bucket = &self.buckets[i];
            let m = bucket.nodes.len();
            for j in 0..m
                invariant
                    n == self.buckets@.len(),
                    i < n,
                    m == self.buckets@[i as int].nodes@.len(),
                    all_nodes@ =~= all_nodes_spec(self.buckets@.take(i as int))
                        + self.buckets@[i as int].nodes@.take(j as int),
            {
                let ghost pre = all_nodes@;
                all_nodes.push(self.buckets[i].nodes[j].clone());
                proof {
                    assert(self.buckets@[i as int].nodes@.take(j + 1) =~= self.buckets@[
                        i as int
                    ].nodes@.take(j as int).push(self.buckets@[i as int].nodes@[j as int]));
                }
            }
            proof {
                assert(self.buckets@.take(i + 1).drop_last() =~= self.buckets@.take(i as int));
                assert(self.buckets@[i as int].nodes@.take(m as int) =~= self.buckets@[
                    i as int
                ].nodes@);
            }
        }
        proof {
            assert(self.buckets@.take(n as int) =~= self.buckets@);
        }
        all_nodes
    }

    /// The `k` nodes of the table closest to `id` in XOR distance, sorted
    /// by ascending distance: the prefix of a distance-sorted arrangement
    /// of everything the table knows.
    pub fn get_closest_k_nodes(&self, id: &[u8; 20], k: usize) -> (r: Vec<Node>)
        ensures
            r@ == sort_by_dist_spec(id@, all_nodes_spec(self.buckets@)).take(r@.len() as int),
            r@.len() == vstd::math::min(k as int, all_nodes_spec(self.buckets@).len() as int),
            sorted_by_dist(id@, r@),
            exists|s: Seq<Node>|
                (#[trigger] s.to_multiset() == all_nodes_spec(self.buckets@).to_multiset()
                    && sorted_by_dist(id@, s) && r@ == s.take(r@.len() as int)),
    {
        let all = self.get_all_nodes();
        let mut sorted = sort_by_distance(all, id);
        let ghost full = sorted@;
        if sorted.len() > k {
            sorted.truncate(k);
        }
        proof {
            assert(sorted@ =~= full.take(sorted@.len() as int));
        }
        sorted
    }

    /// Stores a value under a key in the local store; a previous binding of
    /// the same key is superseded.
    pub fn store(&mut self, key: [u8; 20], value: Vec<u8>)
        ensures
            final(self).curr_node == old(self).curr_node,
            final(self).buckets == old(self).buckets,
            final(self).storage() =~= old(self).storage().insert(key@, value@),
    {
        let ghost pre = self.local_storage@;
        self.local_storage.push((key, value));
        proof {
            assert(self.local_storage@.drop_last() =~= pre);
        }
    }

    /// Looks a key up in the local store: the value stored last under that
    /// key, or nothing when the key was never stored.
    pub fn get(&self, key: [u8; 20]) -> (r: Option<&Vec<u8>>)
        ensures
            match r {
                Some(v) => self.storage().contains_key(key@) && v@ == self.storage()[key@],
                None => !self.storage().contains_key(key@),
            },
    {
        let n = self.local_storage.len();
        let mut i: usize = n;
        while i > 0
            invariant
                n == self.local_storage@.len(),
                i <= n,
                forall|j: int| i <= j < n ==> self.local_storage@[j].0@ != key@,
            decreases i,
        {
            i = i - 1;
            if ids_equal(&self.local_storage[i].0, &key) {
                proof {
                    lemma_storage_map_binding(self.local_storage@, key@, i as int);
                }
                return Some(&self.local_storage[i].1);
            }
        }
        proof {
            lemma_storage_map_absent(self.local_storage@, key@);
        }
        None
    }
}

/// Arranges nodes by ascending XOR distance to `target`, keeping exactly
/// the same collection of nodes.
pub fn sort_by_distance(v: Vec<Node>, target: &[u8; 20]) -> (r: Vec<Node>)
    ensures
        r@ == sort_by_dist_spec(target@, v@),
        r@.len() == v@.len(),
        sorted_by_dist(target@, r@),
        r@.to_multiset() == v@.to_multiset(),
{
    broadcast use vstd::seq_lib::group_to_multiset_ensures;

    let mut out: Vec<Node> = Vec::new();
    let n = v.len();
    for idx in 0..n
        invariant
            n == v@.len(),
            out@.len() == idx,
            out@ == sort_by_dist_spec(target@, v@.take(idx as int)),
            sorted_by_dist(target@, out@),
            out@.to_multiset() == v@.take(idx as int).to_multiset(),
    {
        let node = v[idx].clone();
        let mut p: usize = 0;
        while p < out.len() && node_id::dist_le(target, out[p].get_id(), node.get_id())
            invariant
                p <= out@.len(),
                sorted_by_dist(target@, out@),
                forall|j: int| 0 <= j < p ==> bytes_le(
                    dist_spec(out@[j].id@, target@),
                    dist_spec(node.id@, target@),
                ),
            decreases out@.len() - p,
        {
            p = p + 1;
        }
        proof {
            if p < out@.len() {
                node_id::lemma_bytes_le_total(
                    dist_spec(out@[p as int].id@, target@),
                    dist_spec(node.id@, target@),
                );
            }
        }
        let ghost pre = out@;
        out.insert(p, node);
        proof {
            broadcast use vstd::seq_lib::group_to_multiset_ensures;

            let s1 = out@;
            assert forall|a: int, b: int| 0 <= a < b < s1.len() implies bytes_le(
                dist_spec(s1[a].id@, target@),
                dist_spec(s1[b].id@, target@),
            ) by {
                let pi = p as int;
                if a < pi && b == pi {
                } else if a == pi && b > pi {
                    assert(s1[b] == pre[b - 1]);
                    if pi < b - 1 {
                        assert(bytes_le(
                            dist_spec(pre[pi].id@, target@),
                            dist_spec(pre[b - 1].id@, target@),
                        ));
                        node_id::lemma_bytes_le_trans(
                            dist_spec(node.id@, target@),
                            dist_spec(pre[pi].id@, target@),
                            dist_spec(pre[b - 1].id@, target@),
                        );
                    }
                } else if a < pi && b > pi {
                    assert(s1[b] == pre[b - 1]);
                } else if a > pi {
                    assert(s1[a] == pre[a - 1]);
                    assert(s1[b] == pre[b - 1]);
                }
            }
            lemma_insert_to_multiset(pre, p as int, node);
            lemma_insert_by_dist_at(target@, pre, node, p as int);
            assert(v@.take(idx + 1) =~= v@.take(idx as int).push(v@[idx as int]));
            assert(v@.take(idx + 1).drop_last() =~= v@.take(idx as int));
            assert(v@.take(idx + 1).last() == node);
            assert(out@ =~= pre.take(p as int) + seq![node] + pre.skip(p as int));
            assert(out@ == sort_by_dist_spec(target@, v@.take(idx + 1)));
            assert(v@.take(idx as int).push(node).to_multiset() =~= v@.take(
                idx as int,
            ).to_multiset().insert(node));
            assert(out@.to_multiset() == v@.take(idx + 1).to_multiset());
        }
    }
    proof {
        assert(v@.take(n as int) =~= v@);
    }
    out
}

/// One line of the table's text: a node's address.
pub open spec fn node_line(n: Node) -> Seq<char> {
    "  ip: "@ + n.ip@ + ", port: "@ + crate::textenc::dec_chars(n.port as nat) + "\n"@
}

/// The lines of a bucket's nodes, most recently seen first.
pub open spec fn nodes_text(s: Seq<Node>) -> Seq<char>
    decreases s.len(),
{
    if s.len() == 0 {
        Seq::empty()
    } else {
        nodes_text(s.drop_last()) + node_line(s.last())
    }
}

/// The text of one bucket: a header and its nodes, or nothing when the
/// bucket is empty.
pub open spec fn bucket_text(idx: nat, b: K_Bucket) -> Seq<char> {
    if b.nodes@.len() == 0 {
        Seq::empty()
    } else {
        "Bucket "@ + crate::textenc::dec_chars(idx) + ":\n"@ + nodes_text(b.nodes@)
    }
}

/// The text of all buckets in index order.
pub open spec fn buckets_text(bs: Seq<K_Bucket>) -> Seq<char>
    decreases bs.len(),
{
    if bs.len() == 0 {
        Seq::empty()
    } else {
        buckets_text(bs.drop_last()) + bucket_text((bs.len() - 1) as nat, bs.last())
    }
}

impl RoutingTable {
    /// Renders the table as text: a header line, then each populated
    /// bucket with its index and the address of every node it holds.
    pub fn print(&self) -> (r: String)
        ensures
            r@ == "Routing Table:\n"@ + buckets_text(self.buckets@),
    {
        let mut out = String::from_str("Routing Table:\n");
        let n = self.buckets.len();
        for i in 0..n
            invariant
                n == self.buckets@.len(),
                out@ =~= "Routing Table:\n"@ + buckets_text(self.buckets@.take(i as int)),
        {
            let bucket = &self.buckets[i];
            let m = bucket.nodes.len();
            if m > 0 {
                out.append("Bucket ");
                let idx_text = crate::textenc::u64_to_string(i as u64);
                out.append(idx_text.as_str());
                out.append(":\n");
                let ghost pre = out@;
                for j in 0..m
                    invariant
                        n == self.buckets@.len(),
                        i < n,
                        m == self.buckets@[i as int].nodes@.len(),
                        out@ =~= pre + nodes_text(self.buckets@[i as int].nodes@.take(j as int)),
                {
                    let node = &self.buckets[i].nodes[j];
                    out.append("  ip: ");
                    out.append(node.ip.as_str());
                    out.append(", port: ");
                    let port_text = crate::textenc::u64_to_string(node.get_port() as u64);
                    out.append(port_text.as_str());
                    out.append("\n");
                    proof {
                        assert(self.buckets@[i as int].nodes@.take(j + 1).drop_last()
                            =~= self.buckets@[i as int].nodes@.take(j as int));
                        assert(self.buckets@[i as int].nodes@.take(j + 1).last()
                            == self.buckets@[i as int].nodes@[j as int]);
                        assert(out@ =~= pre + nodes_text(
                            self.buckets@[i as int].nodes@.take(j + 1),
                        ));
                    }
                }
                proof {
                    assert(self.buckets@[i as int].nodes@.take(m as int) =~= self.buckets@[
                        i as int
                    ].nodes@);
                }
            }
            proof {
                assert(self.buckets@.take(i + 1).drop_last() =~= self.buckets@.take(i as int));
                assert(self.buckets@.take(i + 1).last() == self.buckets@[i as int]);
                assert(out@ =~= "Routing Table:\n"@ + buckets_text(self.buckets@.take(i + 1)));
            }
        }
        proof {
            assert(self.buckets@.take(n as int) =~= self.buckets@);
        }
        out
    }
}

} // verus!
