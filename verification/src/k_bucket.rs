//! A k-bucket: a bounded, recency-ordered list of nodes.
//!
//! The most recently seen node sits at the front.  Touching a node that is
//! already present moves it to the front (with the last-seen address
//! winning); inserting into a full bucket evicts the least recently seen
//! node at the back.  A bucket never holds two nodes with the same id.

use std::collections::VecDeque;

use vstd::prelude::*;

use crate::entropy;
use crate::node::Node;
use crate::node::ids_equal;

verus! {

/// Index of the first node in `s` whose id is `id`, or -1 when none has it.
pub open spec fn first_index_with_id(s: Seq<Node>, id: Seq<u8>) -> int
    decreases s.len(),
{
    if s.len() == 0 {
        -1
    } else if s[0].id@ == id {
        0
    } else {
        let r = first_index_with_id(s.subrange(1, s.len() as int), id);
        if r == -1 {
            -1
        } else {
            r + 1
        }
    }
}

/// Whether some node in `s` has the id `id`.
pub open spec fn has_id(s: Seq<Node>, id: Seq<u8>) -> bool {
    first_index_with_id(s, id) >= 0
}

/// What touching a bucket with a node leaves behind: the node moves to or
/// enters at the front; a full bucket first drops its least recent node.
pub open spec fn bucket_add_spec(s: Seq<Node>, node: Node, k: int) -> Seq<Node> {
    if has_id(s, node.id@) {
        seq![node] + s.remove(first_index_with_id(s, node.id@))
    } else if s.len() >= k {
        seq![node] + s.drop_last()
    } else {
        seq![node] + s
    }
}

/// `first_index_with_id` returns either -1 with no occurrence, or the first
/// position that carries the id.
pub proof fn lemma_first_index_with_id(s: Seq<Node>, id: Seq<u8>)
    ensures
        first_index_with_id(s, id) >= -1,
        first_index_with_id(s, id) == -1 ==> forall|j: int|
            0 <= j < s.len() ==> s[j].id@ != id,
        first_index_with_id(s, id) >= 0 ==> {
            &&& first_index_with_id(s, id) < s.len()
            &&& s[first_index_with_id(s, id)].id@ == id
            &&& forall|j: int| 0 <= j < first_index_with_id(s, id) ==> s[j].id@ != id
        },
    decreases s.len(),
{
    if s.len() > 0 && s[0].id@ != id {
        let t = s.subrange(1, s.len() as int);
        lemma_first_index_with_id(t, id);
        let r = first_index_with_id(t, id);
        if r >= 0 {
            assert(t[r] == s[r + 1]);
            assert forall|j: int| 0 <= j < r + 1 implies s[j].id@ != id by {
                if j > 0 {
                    assert(t[j - 1] == s[j]);
                }
            }
        } else {
            assert forall|j: int| 0 <= j < s.len() implies s[j].id@ != id by {
                if j > 0 {
                    assert(0 <= j - 1 < t.len());
                    assert(t[j - 1] == s[j]);
                    assert(t[j - 1].id@ != id);
                }
            }
        }
    }
}

/// The first position that carries the id determines `first_index_with_id`.
pub proof fn lemma_first_index_found(s: Seq<Node>, id: Seq<u8>, i: int)
    requires
        0 <= i < s.len(),
        s[i].id@ == id,
        forall|j: int| 0 <= j < i ==> s[j].id@ != id,
    ensures
        first_index_with_id(s, id) == i,
    decreases s.len(),
{
    if s[0].id@ != id {
        let t = s.subrange(1, s.len() as int);
        assert(t[i - 1] == s[i]);
        assert forall|j: int| 0 <= j < i - 1 implies t[j].id@ != id by {
            assert(t[j] == s[j + 1]);
        }
        lemma_first_index_found(t, id, i - 1);
    }
}

/// No duplicate ids in a sequence of nodes.
pub open spec fn unique_ids(s: Seq<Node>) -> bool {
    forall|i: int, j: int| 0 <= i < j < s.len() ==> s[i].id@ != s[j].id@
}

/// A bucket of the routing table.
#[allow(non_camel_case_types)]
pub struct K_Bucket {
    /// Maximum number of nodes the bucket can hold.
    pub k: usize,
    /// The nodes, most recently seen at the front.
    pub nodes: VecDeque<Node>,
}

impl K_Bucket {
    /// The bucket's structural invariant: bounded size and no duplicate ids.
    pub open spec fn wf(&self) -> bool {
        &&& self.k >= 1
        &&& self.nodes@.len() <= self.k
        &&& unique_ids(self.nodes@)
    }

    /// Creates an empty bucket that can hold up to `k` nodes.
    pub fn new(k: usize) -> (r: K_Bucket)
        requires
            k >= 1,
        ensures
            r.wf(),
            r.k == k,
            r.nodes@.len() == 0,
    {
        K_Bucket { k, nodes: VecDeque::new() }
    }

    /// The number of nodes in the bucket.
    pub fn get_size(&self) -> (r: usize)
        ensures
            r == self.nodes@.len(),
    {
        self.nodes.len()
    }

    /// Whether the bucket is at capacity.
    pub fn is_full(&self) -> (r: bool)
        ensures
            r == (self.nodes@.len() == self.k),
    {
        self.nodes.len() == self.k
    }

    /// The nodes in the bucket, most recently seen first.
    pub fn get_nodes(&self) -> (r: &VecDeque<Node>)
        ensures
            r@ == self.nodes@,
    {
        &self.nodes
    }

    /// Touches the bucket with a node: an already known id moves to the
    /// front carrying the new address; otherwise the node enters at the
    /// front, evicting the least recently seen node if the bucket is full.
    pub fn add_node(&mut self, node: Node)
        requires
            old(self).wf(),
        ensures
            final(self).wf(),
            final(self).k == old(self).k,
            final(self).nodes@ == bucket_add_spec(old(self).nodes@, node, old(self).k as int),
            final(self).nodes@.len() >= 1 && final(self).nodes@[0] == node,
            has_id(old(self).nodes@, node.id@) ==> final(self).nodes@.len() == old(
                self,
            ).nodes@.len(),
    {
        let ghost s0 = self.nodes@;
        let mut found: Option<usize> = None;
        let mut i: usize = 0;
        while i < self.nodes.len()
            invariant_except_break
                found is None,
            invariant
                self.nodes@ == s0,
                i <= self.nodes@.len(),
                forall|j: int| 0 <= j < i ==> self.nodes@[j].id@ != node.id@,
            ensures
                match found {
                    Some(p) => p < self.nodes@.len() && self.nodes@[p as int].id@ == node.id@
                        && (forall|j: int| 0 <= j < p ==> self.nodes@[j].id@ != node.id@),
                    None => forall|j: int|
                        0 <= j < self.nodes@.len() ==> self.nodes@[j].id@ != node.id@,
                },
                self.nodes@ == s0,
            decreases self.nodes@.len() - i,
        {
            if ids_equal(self.nodes[i].get_id(), &node.id) {
                found = Some(i);
                break ;
            }
            i += 1;
        }
        match found {
            Some(p) => {
                proof {
                    lemma_first_index_found(s0, node.id@, p as int);
                }
                self.nodes.remove(p);
                self.nodes.push_front(node);
            },
            None => {
                proof {
                    lemma_first_index_with_id(s0, node.id@);
                    if first_index_with_id(s0, node.id@) >= 0 {
                        assert(s0[first_index_with_id(s0, node.id@)].id@ == node.id@);
                        assert(false);
                    }
                }
                if self.is_full() {
                    self.nodes.pop_back();
                }
                self.nodes.push_front(node);
            },
        }
        proof {
            let s1 = self.nodes@;
            assert(s1 == bucket_add_spec(s0, node, self.k as int));
            assert forall|a: int, b: int| 0 <= a < b < s1.len() implies s1[a].id@ != s1[b].id@ by {
                if has_id(s0, node.id@) {
                    lemma_first_index_with_id(s0, node.id@);
                }
            }
        }
    }

    /// A uniformly random member of the bucket, or nothing when it is empty.
    pub fn get_random_node(&self) -> (r: Option<Node>)
        ensures
            r matches Option::None ==> self.nodes@.len() == 0,
            r matches Option::Some(n) ==> exists|i: int|
                0 <= i < self.nodes@.len() && self.nodes@[i] == n,
    {
        if self.nodes.len() == 0 {
            return None;
        }
        let idx = entropy::random_below(self.nodes.len());
        Some(self.nodes[idx].clone())
    }
}

} // verus!
