//! The network order book: orders gossiped by peers, indexed by id and by
//! the wallet-share nullifier they were committed under, with their match
//! priorities.

use crate::ids::{ClusterId, Nullifier, OrderIdentifier, Scalar};
use crate::search::{
    first_index, lemma_first_index_at, lemma_first_index_bounds, lemma_first_index_extend, lemma_first_index_spec,
    lemma_first_index_unique, opt_int,
};
use vstd::prelude::*;

verus! {

/// The priority a cluster's orders get unless set otherwise
pub const CLUSTER_DEFAULT_PRIORITY: u32 = 1;

/// The priority an order gets when it enters the book
pub const ORDER_DEFAULT_PRIORITY: u32 = 1;

/// The match priority of an order, including its cluster's priority
#[derive(Clone, Copy, Debug, PartialEq, Eq, Structural)]
pub struct OrderPriority {
    /// The priority of the cluster that manages the order
    pub cluster_priority: u32,
    /// The priority of the order itself
    pub order_priority: u32,
}

impl OrderPriority {
    /// The priority of a new order in a cluster of default priority
    pub fn default() -> (r: OrderPriority)
        ensures
            r.cluster_priority == CLUSTER_DEFAULT_PRIORITY,
            r.order_priority == ORDER_DEFAULT_PRIORITY,
    {
        OrderPriority { cluster_priority: CLUSTER_DEFAULT_PRIORITY, order_priority: ORDER_DEFAULT_PRIORITY }
    }

    /// The effective scheduling priority: the product of the cluster's and
    /// the order's priorities
    pub fn get_effective_priority(&self) -> (r: u64)
        ensures
            r == self.cluster_priority * self.order_priority,
    {
        assert(self.cluster_priority * self.order_priority <= u32::MAX * u32::MAX) by (nonlinear_arith);
        self.cluster_priority as u64 * self.order_priority as u64
    }
}

/// Where an order stands in the book
#[derive(Clone, Copy, Debug, PartialEq, Eq, Structural)]
pub enum NetworkOrderState {
    /// Announced, without a verified validity proof
    Received,
    /// Carries a verified validity proof bundle and may be matched
    Verified,
    /// Settled in a match
    Matched,
    /// Its nullifier was spent or it was cancelled explicitly
    Cancelled,
}

/// The public statement of an order's validity proof bundle: the nullifier
/// of the wallet shares that `VALID REBLIND` opens and the Merkle root it
/// proves them under; the proofs are checked by the circuit verifier
#[derive(Clone, Copy, Debug, PartialEq, Eq, Structural)]
pub struct OrderValidityProofBundle {
    /// The nullifier of the shares that the reblind proof spends
    pub original_shares_nullifier: Nullifier,
    /// The Merkle root the reblind proof opens the shares under
    pub merkle_root: Scalar,
}

/// The witness of an order's validity proofs, held for orders of the local
/// cluster so that later proofs can be linked to the same commitments; the
/// witness itself lives in the node's proof store under this handle
#[derive(Clone, Copy, Debug, PartialEq, Eq, Structural)]
pub struct OrderValidityWitnessBundle {
    /// The handle of the witness in the proof store
    pub handle: u64,
}

/// An order in the network order book
#[derive(Clone, Copy, Debug, PartialEq, Eq, Structural)]
pub struct NetworkOrder {
    /// The order's identifier
    pub id: OrderIdentifier,
    /// The nullifier of the wallet shares the order was committed under
    pub public_share_nullifier: Nullifier,
    /// The cluster that manages the order
    pub cluster: ClusterId,
    /// Where the order stands
    pub state: NetworkOrderState,
    /// The verified validity proofs of the order, if any
    pub validity_proofs: Option<OrderValidityProofBundle>,
    /// The witness of the validity proofs, held for orders of the local
    /// cluster
    pub validity_proof_witnesses: Option<OrderValidityWitnessBundle>,
    /// When the order was received, in milliseconds since the epoch
    pub timestamp: u64,
    /// Whether the local cluster manages the order
    pub local: bool,
}

impl NetworkOrder {
    /// A newly announced order, in the `Received` state
    pub fn new(
        id: OrderIdentifier,
        public_share_nullifier: Nullifier,
        cluster: ClusterId,
        local: bool,
        timestamp: u64,
    ) -> (r: NetworkOrder)
        ensures
            r == (NetworkOrder {
                id,
                public_share_nullifier,
                cluster,
                state: NetworkOrderState::Received,
                validity_proofs: None,
                validity_proof_witnesses: None,
                timestamp,
                local,
            }),
    {
        NetworkOrder {
            id,
            public_share_nullifier,
            cluster,
            state: NetworkOrderState::Received,
            validity_proofs: None,
            validity_proof_witnesses: None,
            timestamp,
            local,
        }
    }
}

/// A message that an order-book change publishes on the node's internal bus
#[derive(Clone, Copy, Debug, PartialEq, Eq, Structural)]
pub enum SystemBusMessage {
    /// An order entered the book
    NewOrder { order: NetworkOrder },
    /// An order changed state
    OrderStateChange { order: NetworkOrder },
}

// ---------
// | Model |
// ---------

/// The predicate selecting an order by identifier
pub open spec fn order_has_id(id: OrderIdentifier) -> spec_fn(NetworkOrder) -> bool {
    |o: NetworkOrder| o.id == id
}

/// The order with the given identifier
pub open spec fn lookup_order(os: Seq<NetworkOrder>, id: OrderIdentifier) -> Option<NetworkOrder> {
    match first_index(os, order_has_id(id)) {
        Some(i) => Some(os[i]),
        None => None,
    }
}

/// The orders with `o` written under its identifier
pub open spec fn put_order(os: Seq<NetworkOrder>, o: NetworkOrder) -> Seq<NetworkOrder> {
    match first_index(os, order_has_id(o.id)) {
        Some(i) => os.update(i, o),
        None => os.push(o),
    }
}

/// Whether the nullifier index files the order under the nullifier
pub open spec fn indexed(ix: Seq<(Nullifier, OrderIdentifier)>, n: Nullifier, id: OrderIdentifier) -> bool {
    exists|k: int| 0 <= k < ix.len() && ix[k] == (n, id)
}

/// The orders filed under a nullifier
pub open spec fn spec_nullifier_set(ix: Seq<(Nullifier, OrderIdentifier)>, n: Nullifier) -> Set<OrderIdentifier> {
    Set::new(|id: OrderIdentifier| indexed(ix, n, id))
}

/// Order identifiers are distinct, index entries are distinct, and the
/// index files each order under exactly its own nullifier
pub open spec fn book_wf(os: Seq<NetworkOrder>, ix: Seq<(Nullifier, OrderIdentifier)>) -> bool {
    &&& forall|i: int, j: int| 0 <= i < os.len() && 0 <= j < os.len() && i != j ==> #[trigger] os[i].id != #[trigger] os[j].id
    &&& forall|i: int, j: int| 0 <= i < ix.len() && 0 <= j < ix.len() && i != j ==> #[trigger] ix[i] != #[trigger] ix[j]
    &&& forall|n: Nullifier, id: OrderIdentifier| #[trigger] indexed(ix, n, id) <==> (exists|i: int|
        0 <= i < os.len() && #[trigger] os[i].id == id && os[i].public_share_nullifier == n)
}

/// An order cancelled: its proofs and witnesses are dropped
pub open spec fn spec_cancel(o: NetworkOrder) -> NetworkOrder {
    NetworkOrder {
        state: NetworkOrderState::Cancelled,
        validity_proof_witnesses: None,
        validity_proofs: None,
        ..o
    }
}

/// An order verified by a proof bundle, re-filed under the bundle's nullifier
pub open spec fn spec_verify(o: NetworkOrder, proof: OrderValidityProofBundle) -> NetworkOrder {
    NetworkOrder {
        state: NetworkOrderState::Verified,
        public_share_nullifier: proof.original_shares_nullifier,
        validity_proofs: Some(proof),
        ..o
    }
}

/// The predicate selecting a cluster's priority entry
pub open spec fn cluster_is(c: ClusterId) -> spec_fn((ClusterId, u32)) -> bool {
    |e: (ClusterId, u32)| e.0 == c
}

/// The predicate selecting an order's priority entry
pub open spec fn priority_for(id: OrderIdentifier) -> spec_fn((OrderIdentifier, OrderPriority)) -> bool {
    |e: (OrderIdentifier, OrderPriority)| e.0 == id
}

/// The priority of a cluster: the recorded one or the default
pub open spec fn spec_cluster_priority(ps: Seq<(ClusterId, u32)>, c: ClusterId) -> u32 {
    match first_index(ps, cluster_is(c)) {
        Some(i) => ps[i].1,
        None => CLUSTER_DEFAULT_PRIORITY,
    }
}

/// The priorities with the given order's priority written
pub open spec fn put_priority(
    ps: Seq<(OrderIdentifier, OrderPriority)>,
    id: OrderIdentifier,
    p: OrderPriority,
) -> Seq<(OrderIdentifier, OrderPriority)> {
    match first_index(ps, priority_for(id)) {
        Some(i) => ps.update(i, (id, p)),
        None => ps.push((id, p)),
    }
}


/// Writing an order whose index entries were moved to its own nullifier
/// keeps the book consistent
pub proof fn lemma_put_order_wf(
    os: Seq<NetworkOrder>,
    ix: Seq<(Nullifier, OrderIdentifier)>,
    o: NetworkOrder,
    ix2: Seq<(Nullifier, OrderIdentifier)>,
)
    requires
        book_wf(os, ix),
        forall|i: int, j: int| 0 <= i < ix2.len() && 0 <= j < ix2.len() && i != j ==> #[trigger] ix2[i] != #[trigger] ix2[j],
        forall|n: Nullifier, id: OrderIdentifier| #[trigger] indexed(ix2, n, id) <==> (if id == o.id {
            n == o.public_share_nullifier
        } else {
            indexed(ix, n, id)
        }),
    ensures
        book_wf(put_order(os, o), ix2),
{
    let p = order_has_id(o.id);
    lemma_first_index_spec(os, p);
    let os2 = put_order(os, o);
    let idx = match first_index(os, p) { Some(i) => i, None => os.len() as int };
    assert(os2[idx] == o);
    assert forall|i: int| 0 <= i < os2.len() && i != idx implies #[trigger] os2[i] == os[i] && os[i].id != o.id by {
        if let Some(k) = first_index(os, p) {
            assert(os[k].id == o.id);
            assert(os[i].id != os[k].id);
        } else {
            assert(!p(os[i]));
        }
    }
    assert forall|i: int, j: int| 0 <= i < os2.len() && 0 <= j < os2.len() && i != j implies #[trigger] os2[i].id != #[trigger] os2[j].id by {
        if i != idx && j != idx {
            assert(os[i].id != os[j].id);
        }
    }
    assert forall|n: Nullifier, id: OrderIdentifier| #[trigger] indexed(ix2, n, id) <==> (exists|i: int|
        0 <= i < os2.len() && #[trigger] os2[i].id == id && os2[i].public_share_nullifier == n) by {
        if id == o.id {
            if indexed(ix2, n, id) {
                assert(os2[idx].id == id && os2[idx].public_share_nullifier == n);
            }
            if exists|i: int| 0 <= i < os2.len() && #[trigger] os2[i].id == id && os2[i].public_share_nullifier == n {
                let i = choose|i: int| 0 <= i < os2.len() && #[trigger] os2[i].id == id && os2[i].public_share_nullifier == n;
                assert(i == idx);
            }
        } else {
            if indexed(ix, n, id) {
                let i = choose|i: int| 0 <= i < os.len() && #[trigger] os[i].id == id && os[i].public_share_nullifier == n;
                assert(i != idx);
                assert(os2[i] == os[i]);
            }
            if exists|i: int| 0 <= i < os2.len() && #[trigger] os2[i].id == id && os2[i].public_share_nullifier == n {
                let i = choose|i: int| 0 <= i < os2.len() && #[trigger] os2[i].id == id && os2[i].public_share_nullifier == n;
                assert(i != idx);
                assert(os[i] == os2[i]);
            }
        }
    }
}


/// The orders cancelled by spending a nullifier
pub open spec fn spec_nullify(os: Seq<NetworkOrder>, n: Nullifier) -> Seq<NetworkOrder> {
    os.map_values(|o: NetworkOrder| if o.public_share_nullifier == n {
        spec_cancel(o)
    } else {
        o
    })
}

/// One state-change message per cancelled order, in book order
pub open spec fn cancel_messages(os: Seq<NetworkOrder>, n: Nullifier) -> Seq<SystemBusMessage>
    decreases os.len(),
{
    if os.len() == 0 {
        Seq::empty()
    } else {
        cancel_messages(os.drop_last(), n) + if os.last().public_share_nullifier == n {
            seq![SystemBusMessage::OrderStateChange { order: spec_cancel(os.last()) }]
        } else {
            Seq::empty()
        }
    }
}

/// Changing orders in place, keeping their identifiers and nullifiers,
/// keeps the book consistent with its index
pub proof fn lemma_same_keys_wf(os: Seq<NetworkOrder>, os2: Seq<NetworkOrder>, ix: Seq<(Nullifier, OrderIdentifier)>)
    requires
        book_wf(os, ix),
        os2.len() == os.len(),
        forall|i: int| 0 <= i < os.len() ==> #[trigger] os2[i].id == os[i].id
            && os2[i].public_share_nullifier == os[i].public_share_nullifier,
    ensures
        book_wf(os2, ix),
{
    assert forall|i: int, j: int| 0 <= i < os2.len() && 0 <= j < os2.len() && i != j implies #[trigger] os2[i].id != #[trigger] os2[j].id by {
        assert(os[i].id != os[j].id);
    }
    assert forall|n: Nullifier, id: OrderIdentifier| #[trigger] indexed(ix, n, id) <==> (exists|i: int|
        0 <= i < os2.len() && #[trigger] os2[i].id == id && os2[i].public_share_nullifier == n) by {
        if indexed(ix, n, id) {
            let i = choose|i: int| 0 <= i < os.len() && #[trigger] os[i].id == id && os[i].public_share_nullifier == n;
            assert(os2[i].id == id);
        }
        if exists|i: int| 0 <= i < os2.len() && #[trigger] os2[i].id == id && os2[i].public_share_nullifier == n {
            let i = choose|i: int| 0 <= i < os2.len() && #[trigger] os2[i].id == id && os2[i].public_share_nullifier == n;
            assert(os[i].id == id);
        }
    }
}


/// The order book of a node
pub struct StateApplicator {
    orders: Vec<NetworkOrder>,
    nullifier_index: Vec<(Nullifier, OrderIdentifier)>,
    priorities: Vec<(OrderIdentifier, OrderPriority)>,
    cluster_priorities: Vec<(ClusterId, u32)>,
}

/// The errors an order-book update can be rejected with
#[derive(Clone, Copy, Debug, PartialEq, Eq, Structural)]
pub enum StateApplicatorError {
    /// The order is not in the book
    MissingEntry,
}

impl StateApplicator {
    /// The orders in the book, in the order they were first added
    pub closed spec fn orders(&self) -> Seq<NetworkOrder> {
        self.orders@
    }

    /// The nullifier index
    pub closed spec fn index(&self) -> Seq<(Nullifier, OrderIdentifier)> {
        self.nullifier_index@
    }

    /// The recorded order priorities
    pub closed spec fn priorities(&self) -> Seq<(OrderIdentifier, OrderPriority)> {
        self.priorities@
    }

    /// The recorded cluster priorities
    pub closed spec fn cluster_priorities(&self) -> Seq<(ClusterId, u32)> {
        self.cluster_priorities@
    }

    /// The orders filed under a nullifier
    pub open spec fn nullifier_set(&self, n: Nullifier) -> Set<OrderIdentifier> {
        spec_nullifier_set(self.index(), n)
    }

    /// The book is consistent with its index
    pub open spec fn wf(&self) -> bool {
        book_wf(self.orders(), self.index())
    }

    /// An empty order book
    pub fn new() -> (r: StateApplicator)
        ensures
            r.wf(),
            r.orders() == Seq::<NetworkOrder>::empty(),
            r.priorities() == Seq::<(OrderIdentifier, OrderPriority)>::empty(),
            r.cluster_priorities() == Seq::<(ClusterId, u32)>::empty(),
    {
        StateApplicator {
            orders: Vec::new(),
            nullifier_index: Vec::new(),
            priorities: Vec::new(),
            cluster_priorities: Vec::new(),
        }
    }

    /// The position of the order with the given identifier
    fn find_order(&self, id: OrderIdentifier) -> (r: Option<usize>)
        ensures
            opt_int(r) == first_index(self.orders(), order_has_id(id)),
            r matches Some(i) ==> i < self.orders().len() && self.orders()[i as int].id == id,
    {
        let ghost p = order_has_id(id);
        proof {
            lemma_first_index_bounds(self.orders@, p);
        }
        let mut i: usize = 0;
        while i < self.orders.len()
            invariant
                i <= self.orders.len(),
                p == order_has_id(id),
                first_index(self.orders@.subrange(0, i as int), p) is None,
            decreases self.orders.len() - i,
        {
            proof {
                lemma_first_index_extend(self.orders@, p, i as int);
            }
            if self.orders[i].id == id {
                proof {
                    lemma_first_index_at(self.orders@, p, i as int);
                }
                return Some(i);
            }
            i = i + 1;
        }
        proof {
            lemma_first_index_bounds(self.orders@, p);
        }
        None
    }

    /// The position of an index entry
    fn find_entry(&self, n: Nullifier, id: OrderIdentifier) -> (r: Option<usize>)
        ensures
            r matches Some(k) ==> k < self.index().len() && self.index()[k as int] == (n, id),
            r is None ==> !indexed(self.index(), n, id),
    {
        let mut k: usize = 0;
        while k < self.nullifier_index.len()
            invariant
                k <= self.nullifier_index.len(),
                forall|j: int| 0 <= j < k ==> self.nullifier_index@[j] != (n, id),
            decreases self.nullifier_index.len() - k,
        {
            let e = self.nullifier_index[k];
            if e.0 == n && e.1 == id {
                return Some(k);
            }
            k = k + 1;
        }
        None
    }

    /// Removes the order from a nullifier's set
    fn unindex(&mut self, n: Nullifier, id: OrderIdentifier)
        requires
            forall|i: int, j: int| 0 <= i < old(self).index().len() && 0 <= j < old(self).index().len() && i != j
                ==> #[trigger] old(self).index()[i] != #[trigger] old(self).index()[j],
        ensures
            forall|i: int, j: int| 0 <= i < final(self).index().len() && 0 <= j < final(self).index().len() && i != j
                ==> #[trigger] final(self).index()[i] != #[trigger] final(self).index()[j],
            forall|m: Nullifier, x: OrderIdentifier| #[trigger] indexed(final(self).index(), m, x) <==> (indexed(
                old(self).index(),
                m,
                x,
            ) && (m, x) != (n, id)),
            final(self).orders() == old(self).orders(),
            final(self).priorities() == old(self).priorities(),
            final(self).cluster_priorities() == old(self).cluster_priorities(),
    {
        if let Some(k) = self.find_entry(n, id) {
            let ghost ix = self.index();
            self.nullifier_index.remove(k);
            proof {
                let ix2 = self.index();
                assert(ix2 =~= ix.remove(k as int));
                assert forall|m: Nullifier, x: OrderIdentifier| #[trigger] indexed(ix2, m, x) <==> (indexed(ix, m, x) && (m, x) != (n, id)) by {
                    if indexed(ix, m, x) && (m, x) != (n, id) {
                        let j = choose|j: int| 0 <= j < ix.len() && ix[j] == (m, x);
                        assert(j != k);
                        if j < k {
                            assert(ix2[j] == ix[j]);
                        } else {
                            assert(ix2[j - 1] == ix[j]);
                        }
                    }
                    if indexed(ix2, m, x) {
                        let j = choose|j: int| 0 <= j < ix2.len() && ix2[j] == (m, x);
                        let oj = if j < k { j } else { j + 1 };
                        assert(ix[oj] == (m, x));
                        assert(oj != k as int);
                    }
                }
            }
        }
    }

    /// Files the order under a nullifier, unless it is already there
    fn index_order(&mut self, n: Nullifier, id: OrderIdentifier)
        requires
            forall|i: int, j: int| 0 <= i < old(self).index().len() && 0 <= j < old(self).index().len() && i != j
                ==> #[trigger] old(self).index()[i] != #[trigger] old(self).index()[j],
        ensures
            forall|i: int, j: int| 0 <= i < final(self).index().len() && 0 <= j < final(self).index().len() && i != j
                ==> #[trigger] final(self).index()[i] != #[trigger] final(self).index()[j],
            forall|m: Nullifier, x: OrderIdentifier| #[trigger] indexed(final(self).index(), m, x) <==> (indexed(
                old(self).index(),
                m,
                x,
            ) || (m, x) == (n, id)),
            final(self).orders() == old(self).orders(),
            final(self).priorities() == old(self).priorities(),
            final(self).cluster_priorities() == old(self).cluster_priorities(),
    {
        if self.find_entry(n, id).is_none() {
            let ghost ix = self.index();
            self.nullifier_index.push((n, id));
            proof {
                let ix2 = self.index();
                assert(ix2 =~= ix.push((n, id)));
                assert(ix2[ix.len() as int] == (n, id));
                assert forall|m: Nullifier, x: OrderIdentifier| #[trigger] indexed(ix2, m, x) <==> (indexed(ix, m, x) || (m, x) == (n, id)) by {
                    if indexed(ix, m, x) {
                        let j = choose|j: int| 0 <= j < ix.len() && ix[j] == (m, x);
                        assert(ix2[j] == ix[j]);
                    }
                    if indexed(ix2, m, x) && (m, x) != (n, id) {
                        let j = choose|j: int| 0 <= j < ix2.len() && ix2[j] == (m, x);
                        assert(j < ix.len());
                        assert(ix[j] == ix2[j]);
                    }
                }
            }
        }
    }

    /// Writes an order under its identifier
    fn write_order(&mut self, o: NetworkOrder)
        ensures
            final(self).orders() == put_order(old(self).orders(), o),
            final(self).index() == old(self).index(),
            final(self).priorities() == old(self).priorities(),
            final(self).cluster_priorities() == old(self).cluster_priorities(),
    {
        match self.find_order(o.id) {
            Some(i) => {
                self.orders.set(i, o);
            },
            None => {
                self.orders.push(o);
            },
        }
    }

    /// Files the order under its nullifier, moving it out of the set of its
    /// previous nullifier, and writes it
    fn add_order_with_tx(&mut self, order: NetworkOrder)
        requires
            old(self).wf(),
        ensures
            final(self).wf(),
            final(self).orders() == put_order(old(self).orders(), order),
            final(self).priorities() == old(self).priorities(),
            final(self).cluster_priorities() == old(self).cluster_priorities(),
    {
        let ghost os = self.orders();
        let ghost ix = self.index();
        let found = self.find_order(order.id);
        if let Some(i) = found {
            let prev = self.orders[i].public_share_nullifier;
            self.unindex(prev, order.id);
            proof {
                assert forall|m: Nullifier| !#[trigger] indexed(self.index(), m, order.id) by {
                    if indexed(self.index(), m, order.id) {
                        assert(indexed(ix, m, order.id));
                        let j = choose|j: int| 0 <= j < os.len() && #[trigger] os[j].id == order.id && os[j].public_share_nullifier == m;
                        assert(j == i);
                    }
                }
            }
        } else {
            proof {
                lemma_first_index_spec(os, order_has_id(order.id));
                assert forall|m: Nullifier| !#[trigger] indexed(self.index(), m, order.id) by {
                    if indexed(ix, m, order.id) {
                        let j = choose|j: int| 0 <= j < os.len() && #[trigger] os[j].id == order.id && os[j].public_share_nullifier == m;
                        assert(!order_has_id(order.id)(os[j]));
                    }
                }
            }
        }
        let ghost ixm = self.index();
        assert(forall|m: Nullifier, x: OrderIdentifier| x != order.id ==> (#[trigger] indexed(ixm, m, x) <==> indexed(ix, m, x)));
        self.index_order(order.public_share_nullifier, order.id);
        proof {
            let ix2 = self.index();
            assert forall|n: Nullifier, id: OrderIdentifier| #[trigger] indexed(ix2, n, id) <==> (if id == order.id {
                n == order.public_share_nullifier
            } else {
                indexed(ix, n, id)
            }) by {
                assert(indexed(ix2, n, id) <==> (indexed(ixm, n, id) || (n, id) == (order.public_share_nullifier, order.id)));
                if id == order.id {
                    assert(!indexed(ixm, n, id));
                } else {
                    assert(indexed(ixm, n, id) <==> indexed(ix, n, id));
                }
            }
            lemma_put_order_wf(os, ix, order, ix2);
        }
        self.write_order(order);
    }

    // -------------
    // | Interface |
    // -------------

    /// The priority of a cluster
    fn get_cluster_priority(&self, cluster: ClusterId) -> (r: u32)
        ensures
            r == spec_cluster_priority(self.cluster_priorities(), cluster),
    {
        let ghost p = cluster_is(cluster);
        proof {
            lemma_first_index_bounds(self.cluster_priorities@, p);
        }
        let mut i: usize = 0;
        while i < self.cluster_priorities.len()
            invariant
                i <= self.cluster_priorities.len(),
                p == cluster_is(cluster),
                first_index(self.cluster_priorities@.subrange(0, i as int), p) is None,
            decreases self.cluster_priorities.len() - i,
        {
            proof {
                lemma_first_index_extend(self.cluster_priorities@, p, i as int);
            }
            if self.cluster_priorities[i].0 == cluster {
                proof {
                    lemma_first_index_at(self.cluster_priorities@, p, i as int);
                }
                return self.cluster_priorities[i].1;
            }
            i = i + 1;
        }
        proof {
            lemma_first_index_bounds(self.cluster_priorities@, p);
        }
        CLUSTER_DEFAULT_PRIORITY
    }

    /// Records a new order's priority under its cluster's priority
    fn write_order_priority(&mut self, order: &NetworkOrder)
        ensures
            final(self).priorities() == put_priority(
                old(self).priorities(),
                order.id,
                OrderPriority {
                    cluster_priority: spec_cluster_priority(old(self).cluster_priorities(), order.cluster),
                    order_priority: ORDER_DEFAULT_PRIORITY,
                },
            ),
            final(self).orders() == old(self).orders(),
            final(self).index() == old(self).index(),
            final(self).cluster_priorities() == old(self).cluster_priorities(),
    {
        let cluster_priority = self.get_cluster_priority(order.cluster);
        let priority = OrderPriority { cluster_priority, order_priority: ORDER_DEFAULT_PRIORITY };
        let ghost p = priority_for(order.id);
        proof {
            lemma_first_index_bounds(self.priorities@, p);
        }
        let mut i: usize = 0;
        while i < self.priorities.len()
            invariant
                i <= self.priorities.len(),
                p == priority_for(order.id),
                first_index(self.priorities@.subrange(0, i as int), p) is None,
                priority == (OrderPriority {
                    cluster_priority: spec_cluster_priority(old(self).cluster_priorities(), order.cluster),
                    order_priority: ORDER_DEFAULT_PRIORITY,
                }),
                self.priorities@ == old(self).priorities(),
                self.orders@ == old(self).orders(),
                self.nullifier_index@ == old(self).index(),
                self.cluster_priorities@ == old(self).cluster_priorities(),
            decreases self.priorities.len() - i,
        {
            proof {
                lemma_first_index_extend(self.priorities@, p, i as int);
            }
            if self.priorities[i].0 == order.id {
                proof {
                    lemma_first_index_at(self.priorities@, p, i as int);
                }
                let ghost ps = self.priorities@;
                self.priorities.set(i, (order.id, priority));
                assert(self.priorities@ == ps.update(i as int, (order.id, priority)));
                return;
            }
            i = i + 1;
        }
        proof {
            lemma_first_index_bounds(self.priorities@, p);
        }
        self.priorities.push((order.id, priority));
    }

    /// Adds an order to the book at its cluster's priority, filed under its
    /// nullifier; returns the message announcing it
    pub fn new_order(&mut self, order: NetworkOrder) -> (r: Vec<SystemBusMessage>)
        requires
            old(self).wf(),
        ensures
            final(self).wf(),
            final(self).orders() == put_order(old(self).orders(), order),
            final(self).priorities() == put_priority(
                old(self).priorities(),
                order.id,
                OrderPriority {
                    cluster_priority: spec_cluster_priority(old(self).cluster_priorities(), order.cluster),
                    order_priority: ORDER_DEFAULT_PRIORITY,
                },
            ),
            final(self).cluster_priorities() == old(self).cluster_priorities(),
            r@ == seq![SystemBusMessage::NewOrder { order }],
    {
        self.write_order_priority(&order);
        let stored = order;
        self.add_order_with_tx(stored);
        vec![SystemBusMessage::NewOrder { order }]
    }

    /// Attaches a verified validity proof bundle to an order: the order
    /// becomes `Verified` and is re-filed under the bundle's nullifier
    pub fn add_order_validity_proof(&mut self, order_id: OrderIdentifier, proof: OrderValidityProofBundle) -> (r: Result<
        Vec<SystemBusMessage>,
        StateApplicatorError,
    >)
        requires
            old(self).wf(),
        ensures
            final(self).wf(),
            final(self).priorities() == old(self).priorities(),
            final(self).cluster_priorities() == old(self).cluster_priorities(),
            match lookup_order(old(self).orders(), order_id) {
                None => r == Err::<Vec<SystemBusMessage>, StateApplicatorError>(StateApplicatorError::MissingEntry)
                    && final(self).orders() == old(self).orders(),
                Some(o) => r matches Ok(msgs) && msgs@ == seq![SystemBusMessage::OrderStateChange { order: spec_verify(o, proof) }]
                    && final(self).orders() == put_order(old(self).orders(), spec_verify(o, proof)),
            },
    {
        let i = match self.find_order(order_id) {
            Some(i) => i,
            None => return Err(StateApplicatorError::MissingEntry),
        };
        let mut order = self.orders[i];
        order.state = NetworkOrderState::Verified;
        order.public_share_nullifier = proof.original_shares_nullifier;
        order.validity_proofs = Some(proof);
        let stored = order;
        self.add_order_with_tx(stored);
        Ok(vec![SystemBusMessage::OrderStateChange { order }])
    }

    /// Cancels every order filed under a spent nullifier; returns one
    /// state-change message per cancelled order
    pub fn nullify_orders(&mut self, nullifier: Nullifier) -> (r: Vec<SystemBusMessage>)
        requires
            old(self).wf(),
        ensures
            final(self).wf(),
            final(self).orders() == spec_nullify(old(self).orders(), nullifier),
            final(self).index() == old(self).index(),
            final(self).priorities() == old(self).priorities(),
            final(self).cluster_priorities() == old(self).cluster_priorities(),
            r@ == cancel_messages(old(self).orders(), nullifier),
    {
        let ghost os = self.orders();
        let mut messages: Vec<SystemBusMessage> = Vec::new();
        let mut i: usize = 0;
        while i < self.orders.len()
            invariant
                i <= self.orders.len(),
                self.orders@.len() == os.len(),
                forall|k: int| 0 <= k < i ==> #[trigger] self.orders@[k] == (if os[k].public_share_nullifier == nullifier {
                    spec_cancel(os[k])
                } else {
                    os[k]
                }),
                forall|k: int| i <= k < os.len() ==> #[trigger] self.orders@[k] == os[k],
                messages@ == cancel_messages(os.subrange(0, i as int), nullifier),
                self.nullifier_index@ == old(self).index(),
                self.priorities@ == old(self).priorities(),
                self.cluster_priorities@ == old(self).cluster_priorities(),
            decreases self.orders.len() - i,
        {
            proof {
                assert(os.subrange(0, i as int + 1).drop_last() =~= os.subrange(0, i as int));
                assert(os.subrange(0, i as int + 1).last() == os[i as int]);
            }
            if self.orders[i].public_share_nullifier == nullifier {
                let mut order = self.orders[i];
                order.state = NetworkOrderState::Cancelled;
                order.validity_proof_witnesses = None;
                order.validity_proofs = None;
                let message_order = order;
                self.orders.set(i, order);
                messages.push(SystemBusMessage::OrderStateChange { order: message_order });
            }
            i = i + 1;
        }
        proof {
            assert(self.orders@ =~= spec_nullify(os, nullifier));
            assert(os.subrange(0, os.len() as int) =~= os);
            lemma_same_keys_wf(os, self.orders@, self.nullifier_index@);
        }
        messages
    }


    /// Attaches the witness of an order's validity proofs; an order not in
    /// the book is left alone
    pub fn attach_validity_proof_witness(&mut self, order_id: OrderIdentifier, witness: OrderValidityWitnessBundle)
        requires
            old(self).wf(),
        ensures
            final(self).wf(),
            final(self).priorities() == old(self).priorities(),
            final(self).cluster_priorities() == old(self).cluster_priorities(),
            final(self).index() == old(self).index(),
            match lookup_order(old(self).orders(), order_id) {
                None => final(self).orders() == old(self).orders(),
                Some(o) => final(self).orders() == put_order(
                    old(self).orders(),
                    NetworkOrder { validity_proof_witnesses: Some(witness), ..o },
                ),
            },
    {
        if let Some(i) = self.find_order(order_id) {
            let ghost os = self.orders@;
            let updated = NetworkOrder { validity_proof_witnesses: Some(witness), ..self.orders[i] };
            self.orders.set(i, updated);
            proof {
                lemma_same_keys_wf(os, self.orders@, self.nullifier_index@);
            }
        }
    }

    // -----------
    // | Getters |
    // -----------

    /// The order with the given identifier
    pub fn get_order_info(&self, order_id: OrderIdentifier) -> (r: Option<NetworkOrder>)
        ensures
            r == lookup_order(self.orders(), order_id),
    {
        match self.find_order(order_id) {
            Some(i) => Some(self.orders[i]),
            None => None,
        }
    }

    /// The orders filed under a nullifier
    pub fn read_nullifier_set(&self, nullifier: Nullifier) -> (r: Vec<OrderIdentifier>)
        ensures
            forall|id: OrderIdentifier| r@.contains(id) <==> self.nullifier_set(nullifier).contains(id),
    {
        let mut r: Vec<OrderIdentifier> = Vec::new();
        let mut k: usize = 0;
        while k < self.nullifier_index.len()
            invariant
                k <= self.nullifier_index.len(),
                forall|id: OrderIdentifier| r@.contains(id) <==> exists|j: int|
                    0 <= j < k && #[trigger] self.nullifier_index@[j] == (nullifier, id),
            decreases self.nullifier_index.len() - k,
        {
            let e = self.nullifier_index[k];
            let ghost before = r@;
            if e.0 == nullifier {
                r.push(e.1);
            }
            proof {
                assert forall|id: OrderIdentifier| r@.contains(id) <==> exists|j: int|
                    0 <= j < k + 1 && #[trigger] self.nullifier_index@[j] == (nullifier, id) by {
                    if r@.contains(id) && !before.contains(id) {
                        assert(self.nullifier_index@[k as int] == (nullifier, id));
                    }
                    if exists|j: int| 0 <= j < k + 1 && #[trigger] self.nullifier_index@[j] == (nullifier, id) {
                        let j = choose|j: int| 0 <= j < k + 1 && #[trigger] self.nullifier_index@[j] == (nullifier, id);
                        if j == k {
                            assert(r@.last() == id);
                            assert(r@[r@.len() - 1] == id);
                        } else {
                            assert(before.contains(id));
                            let w = choose|w: int| 0 <= w < before.len() && before[w] == id;
                            assert(r@[w] == id);
                        }
                    }
                }
            }
            k = k + 1;
        }
        r
    }


    /// Whether the order is in the book with validity proofs attached
    pub fn has_validity_proofs(&self, order_id: OrderIdentifier) -> (r: bool)
        ensures
            r == (lookup_order(self.orders(), order_id) matches Some(o) && o.validity_proofs is Some),
    {
        match self.find_order(order_id) {
            Some(i) => self.orders[i].validity_proofs.is_some(),
            None => false,
        }
    }

    /// The validity proofs of an order, if it has any
    pub fn get_validity_proofs(&self, order_id: OrderIdentifier) -> (r: Option<OrderValidityProofBundle>)
        ensures
            r == (match lookup_order(self.orders(), order_id) {
                Some(o) => o.validity_proofs,
                None => None,
            }),
    {
        match self.find_order(order_id) {
            Some(i) => self.orders[i].validity_proofs,
            None => None,
        }
    }

    /// The recorded priority of an order
    pub fn get_order_priority(&self, order_id: OrderIdentifier) -> (r: Option<OrderPriority>)
        ensures
            r == (match first_index(self.priorities(), priority_for(order_id)) {
                Some(i) => Some(self.priorities()[i].1),
                None => None,
            }),
    {
        let ghost p = priority_for(order_id);
        proof {
            lemma_first_index_bounds(self.priorities@, p);
        }
        let mut i: usize = 0;
        while i < self.priorities.len()
            invariant
                i <= self.priorities.len(),
                p == priority_for(order_id),
                first_index(self.priorities@.subrange(0, i as int), p) is None,
            decreases self.priorities.len() - i,
        {
            proof {
                lemma_first_index_extend(self.priorities@, p, i as int);
            }
            if self.priorities[i].0 == order_id {
                proof {
                    lemma_first_index_at(self.priorities@, p, i as int);
                }
                return Some(self.priorities[i].1);
            }
            i = i + 1;
        }
        proof {
            lemma_first_index_bounds(self.priorities@, p);
        }
        None
    }
}


// --------
// | Laws |
// --------

/// Every order in a consistent book is in the nullifier set of its own
/// public share nullifier.
pub proof fn lemma_order_in_own_nullifier_set(os: Seq<NetworkOrder>, ix: Seq<(Nullifier, OrderIdentifier)>, i: int)
    requires
        book_wf(os, ix),
        0 <= i < os.len(),
    ensures
        spec_nullifier_set(ix, os[i].public_share_nullifier).contains(os[i].id),
{
    assert(indexed(ix, os[i].public_share_nullifier, os[i].id));
}

/// After the orders of a spent nullifier are nullified, every order in that
/// nullifier's set is cancelled.
pub proof fn lemma_nullified_set_cancelled(
    os: Seq<NetworkOrder>,
    ix: Seq<(Nullifier, OrderIdentifier)>,
    n: Nullifier,
    id: OrderIdentifier,
)
    requires
        book_wf(os, ix),
        spec_nullifier_set(ix, n).contains(id),
    ensures
        lookup_order(spec_nullify(os, n), id) matches Some(o) && o.state == NetworkOrderState::Cancelled,
{
    assert(indexed(ix, n, id));
    let i = choose|i: int| 0 <= i < os.len() && #[trigger] os[i].id == id && os[i].public_share_nullifier == n;
    let os2 = spec_nullify(os, n);
    assert forall|j: int| 0 <= j < i implies !#[trigger] order_has_id(id)(os2[j]) by {
        assert(os[j].id != os[i].id);
    }
    assert(order_has_id(id)(os2[i]));
    lemma_first_index_unique(os2, order_has_id(id), i);
}

} // verus!
