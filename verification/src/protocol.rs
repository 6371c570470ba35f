//! The decision logic of the DHT protocol.
//!
//! Each RPC handler answers from the routing table and records the caller,
//! so every exchange keeps the table fresh.  The iterative lookup keeps a
//! frontier of candidate nodes and a set of already queried ids; a driver
//! performs the network calls and feeds every round's replies back in.

use vstd::prelude::*;

use crate::crypto::sha256;
use crate::crypto::sha256_of;
use crate::k_bucket::K_Bucket;
use crate::k_bucket::bucket_add_spec;
use crate::node::Node;
use crate::node::WireNode;
use crate::node::ids_equal;
use crate::node_id;
use crate::node_id::bucket_index_spec;
use crate::node_id::dist_spec;
use crate::params::ALPHA;
use crate::params::MAX_BUCKET_SIZE;
use crate::routing_table::RoutingTable;
use crate::routing_table::all_nodes_spec;
use crate::routing_table::sort_by_dist_spec;
use crate::routing_table::sorted_by_dist;

verus! {

/// What a handler does to the routing table when it records its caller:
/// the caller's bucket is touched with the caller, everything else stays.
pub open spec fn records_caller(t0: RoutingTable, t1: RoutingTable, node: Node) -> bool {
    &&& t1.curr_node == t0.curr_node
    &&& t1.buckets@.len() == t0.buckets@.len()
    &&& (node.id@ == t0.curr_node.id@ ==> t1.buckets == t0.buckets)
    &&& (node.id@ != t0.curr_node.id@ ==> {
        let idx = bucket_index_spec(dist_spec(t0.curr_node.id@, node.id@));
        &&& 0 <= idx < 160
        &&& t1.buckets@[idx].nodes@ == bucket_add_spec(
            t0.buckets@[idx].nodes@,
            node,
            MAX_BUCKET_SIZE as int,
        )
        &&& forall|b: int| 0 <= b < 160 && b != idx ==> t1.buckets@[b] == t0.buckets@[b]
    })
}

/// Answers a PING: records the caller and returns the local node's own
/// descriptor.
pub fn handle_ping(table: &mut RoutingTable, caller: Node) -> (r: Node)
    requires
        old(table).wf(),
    ensures
        final(table).wf(),
        records_caller(*old(table), *final(table), caller),
        final(table).local_storage == old(table).local_storage,
        r == old(table).curr_node,
{
    let reply = table.get_curr_node().clone();
    table.add_node(caller);
    reply
}

/// Answers a FIND_NODE: returns the `MAX_BUCKET_SIZE` closest known nodes
/// to the key, as seen before the caller is recorded, then records the
/// caller.
pub fn handle_find_node(table: &mut RoutingTable, caller: Node, key: &[u8; 20]) -> (r: Vec<Node>)
    requires
        old(table).wf(),
    ensures
        final(table).wf(),
        records_caller(*old(table), *final(table), caller),
        final(table).local_storage == old(table).local_storage,
        r@ == sort_by_dist_spec(key@, all_nodes_spec(old(table).buckets@)).take(r@.len() as int),
        r@.len() == vstd::math::min(
            MAX_BUCKET_SIZE as int,
            all_nodes_spec(old(table).buckets@).len() as int,
        ),
        sorted_by_dist(key@, r@),
{
    let closest = table.get_closest_k_nodes(key, MAX_BUCKET_SIZE);
    table.add_node(caller);
    closest
}

/// Answers a STORE: stores the value under the key in the local store and
/// records the caller.
pub fn handle_store(table: &mut RoutingTable, caller: Node, key: [u8; 20], value: Vec<u8>)
    requires
        old(table).wf(),
    ensures
        final(table).wf(),
        records_caller(*old(table), *final(table), caller),
        final(table).storage() =~= old(table).storage().insert(key@, value@),
{
    table.store(key, value);
    table.add_node(caller);
}

/// The answer to a FIND_VALUE: the value when it is held locally, else
/// candidate nodes to ask next.
pub enum FindValueOutcome {
    /// The value stored under the key.
    Value(Vec<u8>),
    /// The closest known nodes to the key.
    Nodes(Vec<Node>),
}

/// Answers a FIND_VALUE: returns the locally stored value when there is
/// one, and the closest known nodes otherwise; the caller is recorded
/// either way.
pub fn handle_find_value(table: &mut RoutingTable, caller: Node, key: &[u8; 20]) -> (r:
    FindValueOutcome)
    requires
        old(table).wf(),
    ensures
        final(table).wf(),
        records_caller(*old(table), *final(table), caller),
        final(table).local_storage == old(table).local_storage,
        match r {
            FindValueOutcome::Value(v) => old(table).storage().contains_key(key@) && v@ == old(
                table,
            ).storage()[key@],
            FindValueOutcome::Nodes(ns) => !old(table).storage().contains_key(key@)
                && sorted_by_dist(key@, ns@) && ns@ == sort_by_dist_spec(
                key@,
                all_nodes_spec(old(table).buckets@),
            ).take(ns@.len() as int) && ns@.len() == vstd::math::min(
                MAX_BUCKET_SIZE as int,
                all_nodes_spec(old(table).buckets@).len() as int,
            ),
        },
{
    let stored = match table.get(*key) {
        Some(v) => Some(crate::block::copy_bytes(v)),
        None => None,
    };
    match stored {
        Some(v) => {
            table.add_node(caller);
            FindValueOutcome::Value(v)
        },
        None => {
            let closest = table.get_closest_k_nodes(key, MAX_BUCKET_SIZE);
            table.add_node(caller);
            FindValueOutcome::Nodes(closest)
        },
    }
}

/// Whether an id occurs in a list of ids.
pub open spec fn id_in(ids: Seq<[u8; 20]>, id: Seq<u8>) -> bool {
    exists|i: int| 0 <= i < ids.len() && ids[i]@ == id
}

/// Whether an id occurs in a list of ids, executably.
fn id_list_contains(ids: &Vec<[u8; 20]>, id: &[u8; 20]) -> (r: bool)
    ensures
        r == id_in(ids@, id@),
{
    let n = ids.len();
    for i in 0..n
        invariant
            n == ids@.len(),
            forall|j: int| 0 <= j < i ==> ids@[j]@ != id@,
    {
        if ids_equal(&ids[i], id) {
            return true;
        }
    }
    false
}

/// What one peer answered in a lookup round.
pub enum PeerReply {
    /// The peer returned the value.
    Value(Vec<u8>),
    /// The peer returned candidate nodes, as they came off the wire.
    Nodes(Vec<WireNode>),
    /// The peer failed or timed out: no information.
    Failed,
}

/// What a lookup round concluded.
pub enum LookupStep {
    /// The value was found.
    Found(Vec<u8>),
    /// New candidates were discovered; another round is due.
    Continue,
    /// No peer returned anything new: the value is not reachable.
    Exhausted,
}

/// The first value any peer returned in a round, in reply order.
pub open spec fn first_value(replies: Seq<PeerReply>) -> Option<Seq<u8>>
    decreases replies.len(),
{
    if replies.len() == 0 {
        None
    } else {
        match replies[0] {
            PeerReply::Value(v) => Some(v@),
            _ => first_value(replies.subrange(1, replies.len() as int)),
        }
    }
}

/// Whether a list of wire nodes carries one with exactly this node's
/// fields.
pub open spec fn wire_matches(ws: Seq<WireNode>, n: Node) -> bool {
    exists|j: int|
        0 <= j < ws.len() && (#[trigger] ws[j]).id@ == n.id@ && ws[j].ip@ == n.ip@ && ws[j].port
            == n.port as u32
}

/// Whether some Nodes reply of the round carries a wire node with exactly
/// this node's fields.
pub open spec fn reply_contains(replies: Seq<PeerReply>, n: Node) -> bool {
    exists|i: int|
        0 <= i < replies.len() && (match #[trigger] replies[i] {
            PeerReply::Nodes(ws) => wire_matches(ws@, n),
            _ => false,
        })
}


/// Whether a wire descriptor is valid: a 20-byte id and a port that fits
/// in 16 bits — exactly what `Node::from_proto` accepts.
pub open spec fn wire_ok(w: WireNode) -> bool {
    w.id@.len() == 20 && w.port <= u16::MAX as u32
}

/// Whether a node carries exactly a wire descriptor's fields.
pub open spec fn node_matches_wire(n: Node, w: WireNode) -> bool {
    n.id@ == w.id@ && n.ip@ == w.ip@ && n.port as u32 == w.port
}

/// Whether `ns` is, in order, exactly the nodes read from the valid wire
/// descriptors of `ws`, the invalid ones skipped.
pub open spec fn nodes_match_wires(ns: Seq<Node>, ws: Seq<WireNode>) -> bool
    decreases ws.len(),
{
    if ws.len() == 0 {
        ns.len() == 0
    } else if !wire_ok(ws[0]) {
        nodes_match_wires(ns, ws.subrange(1, ws.len() as int))
    } else {
        ns.len() > 0 && node_matches_wire(ns[0], ws[0]) && nodes_match_wires(
            ns.subrange(1, ns.len() as int),
            ws.subrange(1, ws.len() as int),
        )
    }
}

/// What recording one node does to the buckets: the node's bucket is
/// touched with it, everything else stays; the owner's own id changes
/// nothing.
pub open spec fn records_node(curr: Seq<u8>, t0: Seq<K_Bucket>, t1: Seq<K_Bucket>, n: Node) -> bool {
    &&& t1.len() == t0.len()
    &&& (n.id@ == curr ==> t1 == t0)
    &&& (n.id@ != curr ==> {
        let idx = bucket_index_spec(dist_spec(curr, n.id@));
        &&& 0 <= idx < t0.len()
        &&& t1[idx].nodes@ == bucket_add_spec(t0[idx].nodes@, n, MAX_BUCKET_SIZE as int)
        &&& t1[idx].k == t0[idx].k
        &&& forall|b: int| 0 <= b < t0.len() && b != idx ==> t1[b] == t0[b]
    })
}

/// What recording the nodes of `ns`, in order, does to the buckets: the
/// chain of per-node touches from `t0` to `t1`.
pub open spec fn records_nodes(
    curr: Seq<u8>,
    t0: Seq<K_Bucket>,
    t1: Seq<K_Bucket>,
    ns: Seq<Node>,
) -> bool
    decreases ns.len(),
{
    if ns.len() == 0 {
        t1 == t0
    } else {
        exists|mid: Seq<K_Bucket>|
            #[trigger] records_node(curr, t0, mid, ns[0]) && records_nodes(
                curr,
                mid,
                t1,
                ns.subrange(1, ns.len() as int),
            )
    }
}

/// A valid wire descriptor and its node extend a match on the right.
proof fn lemma_nodes_match_snoc_valid(ns: Seq<Node>, ws: Seq<WireNode>, n: Node, w: WireNode)
    requires
        nodes_match_wires(ns, ws),
        wire_ok(w),
        node_matches_wire(n, w),
    ensures
        nodes_match_wires(ns.push(n), ws.push(w)),
    decreases ws.len(),
{
    if ws.len() == 0 {
        assert(ns.len() == 0);
        assert(ns.push(n)[0] == n);
        assert(ws.push(w)[0] == w);
        let ns1 = ns.push(n).subrange(1, ns.push(n).len() as int);
        let ws1 = ws.push(w).subrange(1, ws.push(w).len() as int);
        assert(ns1 =~= Seq::<Node>::empty());
        assert(ws1 =~= Seq::<WireNode>::empty());
        assert(nodes_match_wires(ns1, ws1));
    } else {
        assert(ws.push(w)[0] == ws[0]);
        assert(ws.push(w).subrange(1, ws.push(w).len() as int) =~= ws.subrange(
            1,
            ws.len() as int,
        ).push(w));
        if !wire_ok(ws[0]) {
            lemma_nodes_match_snoc_valid(ns, ws.subrange(1, ws.len() as int), n, w);
        } else {
            assert(ns.push(n)[0] == ns[0]);
            assert(ns.push(n).subrange(1, ns.push(n).len() as int) =~= ns.subrange(
                1,
                ns.len() as int,
            ).push(n));
            lemma_nodes_match_snoc_valid(
                ns.subrange(1, ns.len() as int),
                ws.subrange(1, ws.len() as int),
                n,
                w,
            );
        }
    }
}

/// An invalid wire descriptor extends a match on the right without a node.
proof fn lemma_nodes_match_snoc_invalid(ns: Seq<Node>, ws: Seq<WireNode>, w: WireNode)
    requires
        nodes_match_wires(ns, ws),
        !wire_ok(w),
    ensures
        nodes_match_wires(ns, ws.push(w)),
    decreases ws.len(),
{
    if ws.len() == 0 {
        assert(ns.len() == 0);
        assert(ws.push(w)[0] == w);
        let ws1 = ws.push(w).subrange(1, ws.push(w).len() as int);
        assert(ws1 =~= Seq::<WireNode>::empty());
        assert(nodes_match_wires(ns, ws1));
    } else {
        assert(ws.push(w)[0] == ws[0]);
        assert(ws.push(w).subrange(1, ws.push(w).len() as int) =~= ws.subrange(
            1,
            ws.len() as int,
        ).push(w));
        if !wire_ok(ws[0]) {
            lemma_nodes_match_snoc_invalid(ns, ws.subrange(1, ws.len() as int), w);
        } else {
            lemma_nodes_match_snoc_invalid(
                ns.subrange(1, ns.len() as int),
                ws.subrange(1, ws.len() as int),
                w,
            );
        }
    }
}

/// Recording one more node extends a recording chain on the right.
proof fn lemma_records_nodes_snoc(
    curr: Seq<u8>,
    a: Seq<K_Bucket>,
    b: Seq<K_Bucket>,
    b2: Seq<K_Bucket>,
    ns: Seq<Node>,
    n: Node,
)
    requires
        records_nodes(curr, a, b, ns),
        records_node(curr, b, b2, n),
    ensures
        records_nodes(curr, a, b2, ns.push(n)),
    decreases ns.len(),
{
    if ns.len() == 0 {
        assert(b == a);
        assert(ns.push(n)[0] == n);
        assert(ns.push(n).subrange(1, 1) =~= Seq::<Node>::empty());
        assert(records_node(curr, a, b2, n));
        assert(records_nodes(curr, b2, b2, Seq::empty()));
    } else {
        let mid = choose|mid: Seq<K_Bucket>|
            #[trigger] records_node(curr, a, mid, ns[0]) && records_nodes(
                curr,
                mid,
                b,
                ns.subrange(1, ns.len() as int),
            );
        lemma_records_nodes_snoc(curr, mid, b, b2, ns.subrange(1, ns.len() as int), n);
        assert(ns.push(n)[0] == ns[0]);
        assert(ns.push(n).subrange(1, ns.push(n).len() as int) =~= ns.subrange(
            1,
            ns.len() as int,
        ).push(n));
        assert(records_node(curr, a, mid, ns.push(n)[0]));
    }
}

/// The wire descriptors carried by a round's replies, in reply order.
pub open spec fn reply_wires(replies: Seq<PeerReply>) -> Seq<WireNode>
    decreases replies.len(),
{
    if replies.len() == 0 {
        Seq::empty()
    } else {
        (match replies[0] {
            PeerReply::Nodes(ws) => ws@,
            _ => Seq::empty(),
        }) + reply_wires(replies.subrange(1, replies.len() as int))
    }
}

/// The index of the first value-carrying reply, or the length when none.
pub open spec fn first_value_index(replies: Seq<PeerReply>) -> int
    decreases replies.len(),
{
    if replies.len() == 0 {
        0
    } else {
        match replies[0] {
            PeerReply::Value(_) => 0,
            _ => 1 + first_value_index(replies.subrange(1, replies.len() as int)),
        }
    }
}

/// A value reply preceded only by non-value replies pins the index down.
proof fn lemma_first_value_index(replies: Seq<PeerReply>, i: int)
    requires
        0 <= i < replies.len(),
        forall|t: int| 0 <= t < i ==> !((#[trigger] replies[t]) is Value),
        replies[i] is Value,
    ensures
        first_value_index(replies) == i,
    decreases i,
{
    if i > 0 {
        let tail = replies.subrange(1, replies.len() as int);
        assert forall|t: int| 0 <= t < i - 1 implies !((#[trigger] tail[t]) is Value) by {
            assert(tail[t] == replies[t + 1]);
        }
        assert(tail[i - 1] == replies[i]);
        lemma_first_value_index(tail, i - 1);
    }
}

/// Splitting the last reply off the wire list.
proof fn lemma_reply_wires_concat(replies: Seq<PeerReply>, i: int)
    requires
        replies.len() == i + 1,
        0 <= i,
    ensures
        reply_wires(replies) =~= reply_wires(replies.take(i)) + (match replies[i] {
            PeerReply::Nodes(ws) => ws@,
            _ => Seq::empty(),
        }),
    decreases i,
{
    let head = (match replies[0] {
        PeerReply::Nodes(ws) => ws@,
        _ => Seq::<WireNode>::empty(),
    });
    if i == 0 {
        assert(reply_wires(replies.subrange(1, 1)) =~= Seq::<WireNode>::empty());
        assert(reply_wires(replies.take(0)) =~= Seq::<WireNode>::empty());
        assert(reply_wires(replies) =~= head + reply_wires(replies.subrange(1, 1)));
        assert(head + Seq::<WireNode>::empty() =~= head);
        assert(Seq::<WireNode>::empty() + head =~= head);
    } else {
        let t = replies.subrange(1, replies.len() as int);
        lemma_reply_wires_concat(t, i - 1);
        assert(t[i - 1] == replies[i]);
        let last = (match replies[i] {
            PeerReply::Nodes(ws) => ws@,
            _ => Seq::<WireNode>::empty(),
        });
        assert(replies.take(i)[0] == replies[0]);
        assert(t.take(i - 1) =~= replies.take(i).subrange(1, i as int));
        assert(reply_wires(replies) == head + reply_wires(t));
        assert(reply_wires(replies.take(i)) == head + reply_wires(
            replies.take(i).subrange(1, i as int),
        ));
        assert(head + (reply_wires(t.take(i - 1)) + last) =~= (head + reply_wires(t.take(i - 1)))
            + last);
    }
}

/// One reply-prefix step of the wire list.
proof fn lemma_reply_wires_take_step(replies: Seq<PeerReply>, i: int)
    requires
        0 <= i < replies.len(),
    ensures
        reply_wires(replies.take(i + 1)) =~= reply_wires(replies.take(i)) + (match replies[i] {
            PeerReply::Nodes(ws) => ws@,
            _ => Seq::empty(),
        }),
{
    lemma_reply_wires_concat(replies.take(i + 1), i);
    assert(replies.take(i + 1).take(i) =~= replies.take(i));
    assert(replies.take(i + 1)[i] == replies[i]);
}

/// The state of an iterative lookup: the target key, the ids already
/// queried, and the current frontier of candidates, closest first.
pub struct LookupState {
    /// The key being looked up.
    pub key: [u8; 20],
    /// Ids of nodes that have already been queried.
    pub queried: Vec<[u8; 20]>,
    /// Candidate nodes for the next round.
    pub frontier: Vec<Node>,
}

impl LookupState {
    /// Starts a lookup from the locally known closest nodes.
    pub fn new(key: [u8; 20], initial: Vec<Node>) -> (r: LookupState)
        ensures
            r.key@ == key@,
            r.queried@.len() == 0,
            r.frontier@ == initial@,
    {
        LookupState { key, queried: Vec::new(), frontier: initial }
    }

    /// Whether any candidates remain.
    pub fn frontier_is_empty(&self) -> (r: bool)
        ensures
            r == (self.frontier@.len() == 0),
    {
        self.frontier.len() == 0
    }

    /// Digests the frontier prefix: each node of `f` in turn is taken when
    /// its id is not yet in `q`, and its id then joins `q` for the rest.
    pub open spec fn select_spec(f: Seq<Node>, q: Seq<[u8; 20]>) -> Seq<Node>
        decreases f.len(),
    {
        if f.len() == 0 {
            Seq::empty()
        } else if !id_in(q, f[0].id@) {
            seq![f[0]] + Self::select_spec(f.subrange(1, f.len() as int), q.push(f[0].id))
        } else {
            Self::select_spec(f.subrange(1, f.len() as int), q)
        }
    }

    /// Picks the nodes to query this round: the not yet queried among the
    /// first `ALPHA` of the frontier, which are marked queried in order.
    pub fn select_round(&mut self) -> (r: Vec<Node>)
        ensures
            final(self).key == old(self).key,
            final(self).frontier@ == old(self).frontier@,
            r@ == Self::select_spec(
                old(self).frontier@.take(
                    vstd::math::min(ALPHA as int, old(self).frontier@.len() as int),
                ),
                old(self).queried@,
            ),
            final(self).queried@ == old(self).queried@ + r@.map_values(|nd: Node| nd.id),
            r@.len() <= ALPHA,
    {
        let mut out: Vec<Node> = Vec::new();
        let limit = if self.frontier.len() < ALPHA {
            self.frontier.len()
        } else {
            ALPHA
        };
        let ghost q0 = self.queried@;
        let ghost f0 = self.frontier@;
        let ghost fpre = f0.take(limit as int);
        proof {
            assert(fpre.subrange(0, fpre.len() as int) =~= fpre);
            assert(Seq::<Node>::empty() + Self::select_spec(fpre, q0) =~= Self::select_spec(
                fpre,
                q0,
            ));
            assert(q0 + Seq::<[u8; 20]>::empty() =~= q0);
            assert(out@.map_values(|nd: Node| nd.id) =~= Seq::<[u8; 20]>::empty());
        }
        for i in 0..limit
            invariant
                limit == vstd::math::min(ALPHA as int, f0.len() as int),
                limit <= f0.len(),
                self.key == old(self).key,
                self.frontier@ == f0,
                f0 == old(self).frontier@,
                q0 == old(self).queried@,
                fpre == f0.take(limit as int),
                out@.len() <= i,
                Self::select_spec(fpre, q0) == out@ + Self::select_spec(
                    fpre.subrange(i as int, fpre.len() as int),
                    self.queried@,
                ),
                self.queried@ == q0 + out@.map_values(|nd: Node| nd.id),
        {
            let node = self.frontier[i].clone();
            let ghost rest = fpre.subrange(i as int, fpre.len() as int);
            proof {
                assert(rest[0] == f0[i as int]);
                assert(rest.subrange(1, rest.len() as int) =~= fpre.subrange(
                    i + 1,
                    fpre.len() as int,
                ));
            }
            if !id_list_contains(&self.queried, &node.id) {
                self.queried.push(node.id);
                out.push(node);
                proof {
                    assert(out@.drop_last() + (seq![f0[i as int]] + Self::select_spec(
                        fpre.subrange(i + 1, fpre.len() as int),
                        self.queried@,
                    )) =~= out@ + Self::select_spec(
                        fpre.subrange(i + 1, fpre.len() as int),
                        self.queried@,
                    ));
                    assert(out@.map_values(|nd: Node| nd.id) =~= out@.drop_last().map_values(
                        |nd: Node| nd.id,
                    ).push(out@.last().id));
                    assert(self.queried@ =~= q0 + out@.map_values(|nd: Node| nd.id));
                }
            }
        }
        proof {
            assert(fpre.subrange(limit as int, fpre.len() as int) =~= Seq::<Node>::empty());
            assert(out@ + Seq::<Node>::empty() =~= out@);
        }
        out
    }

    /// Digests one round of replies.  The first value returned by any peer
    /// ends the lookup; otherwise every valid node of every reply is
    /// recorded in the routing table and those nodes, sorted by distance
    /// to the key, become the new frontier; a round whose replies carried
    /// no valid node ends the lookup empty-handed.
    pub fn absorb_round(&mut self, table: &mut RoutingTable, replies: Vec<PeerReply>) -> (r:
        LookupStep)
        requires
            old(table).wf(),
        ensures
            final(table).wf(),
            final(table).curr_node == old(table).curr_node,
            final(table).local_storage == old(table).local_storage,
            final(self).key == old(self).key,
            final(self).queried == old(self).queried,
            match r {
                LookupStep::Found(v) => first_value(replies@) == Some(v@) && final(self).frontier
                    == old(self).frontier && (exists|ns: Seq<Node>|
                    (#[trigger] nodes_match_wires(
                        ns,
                        reply_wires(replies@.take(first_value_index(replies@))),
                    ) && records_nodes(
                        old(table).curr_node.id@,
                        old(table).buckets@,
                        final(table).buckets@,
                        ns,
                    ))),
                LookupStep::Continue => first_value(replies@) is None && final(self).frontier@.len()
                    > 0 && sorted_by_dist(old(self).key@, final(self).frontier@) && (forall|t: int|
                    0 <= t < final(self).frontier@.len() ==> reply_contains(
                        replies@,
                        #[trigger] final(self).frontier@[t],
                    )) && (exists|ns: Seq<Node>|
                    (#[trigger] nodes_match_wires(ns, reply_wires(replies@)) && ns.len() > 0
                        && records_nodes(
                        old(table).curr_node.id@,
                        old(table).buckets@,
                        final(table).buckets@,
                        ns,
                    ) && final(self).frontier@ == sort_by_dist_spec(old(self).key@, ns))),
                LookupStep::Exhausted => first_value(replies@) is None && final(self).frontier
                    == old(self).frontier && (exists|ns: Seq<Node>|
                    (#[trigger] nodes_match_wires(ns, reply_wires(replies@)) && ns.len() == 0
                        && records_nodes(
                        old(table).curr_node.id@,
                        old(table).buckets@,
                        final(table).buckets@,
                        ns,
                    ))),
            },
    {
        let n = replies.len();
        let ghost curr0 = table.curr_node.id@;
        let ghost b0 = table.buckets@;
        proof {
            assert(replies@.subrange(0, n as int) =~= replies@);
            assert(reply_wires(replies@.take(0)) =~= Seq::<WireNode>::empty());
        }
        let mut new_nodes: Vec<Node> = Vec::new();
        let mut i: usize = 0;
        while i < n
            invariant
                old(table).wf(),
                n == replies@.len(),
                i <= n,
                table.wf(),
                table.curr_node == old(table).curr_node,
                table.local_storage == old(table).local_storage,
                curr0 == old(table).curr_node.id@,
                b0 == old(table).buckets@,
                self.key == old(self).key,
                self.queried == old(self).queried,
                self.frontier == old(self).frontier,
                first_value(replies@) == first_value(replies@.subrange(i as int, n as int)),
                forall|t: int| 0 <= t < i ==> !((#[trigger] replies@[t]) is Value),
                nodes_match_wires(new_nodes@, reply_wires(replies@.take(i as int))),
                records_nodes(curr0, b0, table.buckets@, new_nodes@),
                forall|t: int| 0 <= t < new_nodes@.len() ==> reply_contains(
                    replies@,
                    #[trigger] new_nodes@[t],
                ),
            decreases n - i,
        {
            proof {
                assert(replies@.subrange(i as int, n as int).subrange(
                    1,
                    (n - i) as int,
                ) =~= replies@.subrange(i + 1, n as int));
            }
            match &replies[i] {
                PeerReply::Value(v) => {
                    let value = crate::block::copy_bytes(v);
                    proof {
                        assert(replies@.subrange(i as int, n as int)[0] == replies@[i as int]);
                        lemma_first_value_index(replies@, i as int);
                        assert(nodes_match_wires(
                            new_nodes@,
                            reply_wires(replies@.take(first_value_index(replies@))),
                        ));
                    }
                    return LookupStep::Found(value);
                },
                PeerReply::Nodes(wire_nodes) => {
                    let ghost before = reply_wires(replies@.take(i as int));
                    proof {
                        assert(wire_nodes@.take(0) =~= Seq::<WireNode>::empty());
                        assert(before + Seq::<WireNode>::empty() =~= before);
                    }
                    let m = wire_nodes.len();
                    for j in 0..m
                        invariant
                            n == replies@.len(),
                            i < n,
                            replies@[i as int] matches PeerReply::Nodes(ws) && ws == *wire_nodes,
                            m == wire_nodes@.len(),
                            table.wf(),
                            table.curr_node == old(table).curr_node,
                            table.local_storage == old(table).local_storage,
                            curr0 == old(table).curr_node.id@,
                            b0 == old(table).buckets@,
                            before == reply_wires(replies@.take(i as int)),
                            nodes_match_wires(new_nodes@, before + wire_nodes@.take(j as int)),
                            records_nodes(curr0, b0, table.buckets@, new_nodes@),
                            forall|t: int| 0 <= t < new_nodes@.len() ==> reply_contains(
                                replies@,
                                #[trigger] new_nodes@[t],
                            ),
                    {
                        let ghost pre = table.buckets@;
                        match Node::from_proto(&wire_nodes[j]) {
                            Ok(node) => {
                                let ghost nd = node;
                                let copy = node.clone();
                                table.add_node(copy);
                                proof {
                                    assert(records_node(curr0, pre, table.buckets@, nd));
                                    lemma_records_nodes_snoc(
                                        curr0,
                                        b0,
                                        pre,
                                        table.buckets@,
                                        new_nodes@,
                                        nd,
                                    );
                                    lemma_nodes_match_snoc_valid(
                                        new_nodes@,
                                        before + wire_nodes@.take(j as int),
                                        nd,
                                        wire_nodes@[j as int],
                                    );
                                    assert((before + wire_nodes@.take(j as int)).push(
                                        wire_nodes@[j as int],
                                    ) =~= before + wire_nodes@.take(j + 1));
                                    assert(wire_matches(wire_nodes@, nd)) by {
                                        assert((wire_nodes@[j as int]).id@ == nd.id@);
                                    }
                                    assert(reply_contains(replies@, nd)) by {
                                        assert(match replies@[i as int] {
                                            PeerReply::Nodes(ws) => wire_matches(ws@, nd),
                                            _ => false,
                                        });
                                    }
                                }
                                new_nodes.push(node);
                            },
                            Err(_) => {
                                proof {
                                    lemma_nodes_match_snoc_invalid(
                                        new_nodes@,
                                        before + wire_nodes@.take(j as int),
                                        wire_nodes@[j as int],
                                    );
                                    assert((before + wire_nodes@.take(j as int)).push(
                                        wire_nodes@[j as int],
                                    ) =~= before + wire_nodes@.take(j + 1));
                                }
                            },
                        }
                    }
                    proof {
                        assert(wire_nodes@.take(m as int) =~= wire_nodes@);
                        lemma_reply_wires_take_step(replies@, i as int);
                        assert(reply_wires(replies@.take(i + 1)) =~= before + wire_nodes@);
                    }
                },
                PeerReply::Failed => {
                    proof {
                        lemma_reply_wires_take_step(replies@, i as int);
                        assert(reply_wires(replies@.take(i + 1)) =~= reply_wires(
                            replies@.take(i as int),
                        ) + Seq::<WireNode>::empty());
                        assert(reply_wires(replies@.take(i + 1)) =~= reply_wires(
                            replies@.take(i as int),
                        ));
                    }
                },
            }
            i = i + 1;
        }
        proof {
            assert(replies@.subrange(n as int, n as int).len() == 0);
            assert(replies@.take(n as int) =~= replies@);
        }
        if new_nodes.len() == 0 {
            proof {
                assert(nodes_match_wires(new_nodes@, reply_wires(replies@)));
            }
            return LookupStep::Exhausted;
        }
        let ghost collected = new_nodes@;
        let sorted = crate::routing_table::sort_by_distance(new_nodes, &self.key);
        proof {
            broadcast use vstd::seq_lib::group_to_multiset_ensures;

            assert forall|t: int| 0 <= t < sorted@.len() implies reply_contains(
                replies@,
                #[trigger] sorted@[t],
            ) by {
                assert(sorted@.to_multiset().count(sorted@[t]) > 0);
                assert(collected.to_multiset().count(sorted@[t]) > 0);
                assert(collected.contains(sorted@[t]));
                let w = choose|w: int| 0 <= w < collected.len() && collected[w] == sorted@[t];
                assert(reply_contains(replies@, collected[w]));
            }
            assert(nodes_match_wires(collected, reply_wires(replies@)));
        }
        self.frontier = sorted;
        LookupStep::Continue
    }
}

/// Picks the contact and the refresh target for one bucket: a random
/// member of the bucket, and a fresh random id guaranteed to fall in that
/// bucket relative to the local node.  An empty bucket yields nothing.
pub fn refresh_target(table: &RoutingTable, bucket_index: u8) -> (r: Option<(Node, Vec<u8>)>)
    requires
        table.wf(),
        bucket_index < 160,
    ensures
        match r {
            Some(pair) => {
                &&& exists|i: int|
                    0 <= i < table.buckets@[bucket_index as int].nodes@.len()
                        && #[trigger] table.buckets@[bucket_index as int].nodes@[i] == pair.0
                &&& pair.1@.len() == 20
                &&& bucket_index_spec(dist_spec(table.curr_node.id@, pair.1@)) == bucket_index as int
            },
            None => table.buckets@[bucket_index as int].nodes@.len() == 0,
        },
{
    let bucket = &table.get_k_bucket_map()[bucket_index as usize];
    match bucket.get_random_node() {
        Some(node) => {
            let target = node_id::generate_random_id_near_distance(
                table.get_curr_node().get_id(),
                bucket_index,
            );
            Some((node, target))
        },
        None => None,
    }
}

/// Records every valid node of a FIND_NODE reply in the routing table, as
/// the bucket-refresh and join flows do with what they learn: the buckets
/// afterward are the chain of per-node touches for exactly the nodes read
/// from the valid wire descriptors, in order.
pub fn absorb_nodes(table: &mut RoutingTable, nodes: &Vec<WireNode>)
    requires
        old(table).wf(),
    ensures
        final(table).wf(),
        final(table).curr_node == old(table).curr_node,
        final(table).local_storage == old(table).local_storage,
        exists|ns: Seq<Node>|
            (#[trigger] nodes_match_wires(ns, nodes@) && records_nodes(
                old(table).curr_node.id@,
                old(table).buckets@,
                final(table).buckets@,
                ns,
            )),
{
    let ghost curr0 = table.curr_node.id@;
    let ghost b0 = table.buckets@;
    let ghost mut added: Seq<Node> = Seq::empty();
    let n = nodes.len();
    for i in 0..n
        invariant
            n == nodes@.len(),
            table.wf(),
            table.curr_node == old(table).curr_node,
            table.local_storage == old(table).local_storage,
            curr0 == old(table).curr_node.id@,
            b0 == old(table).buckets@,
            nodes_match_wires(added, nodes@.take(i as int)),
            records_nodes(curr0, b0, table.buckets@, added),
    {
        let ghost pre = table.buckets@;
        match Node::from_proto(&nodes[i]) {
            Ok(node) => {
                let ghost nd = node;
                table.add_node(node);
                proof {
                    assert(records_node(curr0, pre, table.buckets@, nd));
                    lemma_records_nodes_snoc(curr0, b0, pre, table.buckets@, added, nd);
                    lemma_nodes_match_snoc_valid(
                        added,
                        nodes@.take(i as int),
                        nd,
                        nodes@[i as int],
                    );
                    added = added.push(nd);
                    assert(nodes@.take(i as int).push(nodes@[i as int]) =~= nodes@.take(i + 1));
                }
            },
            Err(_) => {
                proof {
                    lemma_nodes_match_snoc_invalid(added, nodes@.take(i as int), nodes@[i as int]);
                    assert(nodes@.take(i as int).push(nodes@[i as int]) =~= nodes@.take(i + 1));
                }
            },
        }
    }
    proof {
        assert(nodes@.take(n as int) =~= nodes@);
    }
}

/// The 20-byte DHT key of a text key: the first 20 bytes of the SHA-256
/// digest of its UTF-8 encoding.
pub fn string_to_hash_key(key: &str) -> (r: [u8; 20])
    ensures
        r@ == sha256_of(vstd::utf8::encode_utf8(key@)).take(20),
{
    let bytes = key.as_bytes_vec();
    let digest = sha256(bytes.as_slice());
    let mut out = [0u8; 20];
    for i in 0..20
        invariant
            digest@.len() == 32,
            digest@ == sha256_of(vstd::utf8::encode_utf8(key@)),
            forall|j: int| 0 <= j < i ==> out@[j] == digest@[j],
    {
        out[i] = digest[i];
    }
    proof {
        assert(out@ =~= sha256_of(vstd::utf8::encode_utf8(key@)).take(20));
    }
    out
}

} // verus!
