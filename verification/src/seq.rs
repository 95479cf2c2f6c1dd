//! Sequence-number mapping for DAP request/response routing.
//!
//! The multiplexer rewrites `seq` on requests forwarded upstream so the
//! adapter sees a single monotonic sequence. When a response comes back, the
//! [`SeqMap`] resolves the proxy seq to the original `(client_id, client_seq)`
//! pair so the response can be routed to the correct client with its original
//! sequence number restored.

use std::collections::HashMap;

use vstd::prelude::*;
use vstd::std_specs::hash::*;
use vstd::string::*;

use crate::owned::{numbers_in_order, numbers_of, Owned};

verus! {

broadcast use {group_hash_axioms, vstd::set::group_set_axioms};

/// A request awaiting its response.
#[derive(Debug, PartialEq, Eq)]
pub struct PendingRequest {
    pub client_id: String,
    pub client_seq: i64,
}

impl Clone for PendingRequest {
    fn clone(&self) -> (res: Self)
        ensures
            res@ == self@,
    {
        PendingRequest { client_id: self.client_id.clone(), client_seq: self.client_seq }
    }
}

impl Owned for PendingRequest {
    open spec fn owner(&self) -> Seq<char> {
        self.client_id@
    }

    fn is_owned_by(&self, id: &str) -> (res: bool) {
        self.client_id.as_str().eq(id)
    }
}

/// What a [`PendingRequest`] holds.
#[verifier::ext_equal]
pub struct PendingView {
    pub client_id: Seq<char>,
    pub client_seq: i64,
}

impl View for PendingRequest {
    type V = PendingView;

    open spec fn view(&self) -> PendingView {
        PendingView { client_id: self.client_id@, client_seq: self.client_seq }
    }
}

/// What a [`SeqMap`] holds: the number to hand out next, and the request that
/// each outstanding number stands for.
#[verifier::ext_equal]
pub struct SeqMapView {
    pub next_seq: i64,
    pub pending: Map<i64, PendingView>,
}

impl SeqMapView {
    /// Whether only numbers that were handed out are outstanding.
    pub open spec fn well_formed(self) -> bool {
        &&& self.next_seq >= 1
        &&& self.pending.dom().finite()
        &&& forall|seq: i64| #[trigger] self.pending.contains_key(seq) ==> 1 <= seq < self.next_seq
    }

    /// Nothing handed out yet; the first number is `1`.
    pub open spec fn empty() -> SeqMapView {
        SeqMapView { next_seq: 1, pending: Map::empty() }
    }

    /// After handing out the next number for a request of `client_id`.
    pub open spec fn allocated(self, client_id: Seq<char>, client_seq: i64) -> SeqMapView {
        SeqMapView {
            next_seq: (self.next_seq + 1) as i64,
            pending: self.pending.insert(self.next_seq, PendingView { client_id, client_seq }),
        }
    }

    /// After `seq` has been answered.
    pub open spec fn resolved(self, seq: i64) -> SeqMapView {
        SeqMapView { pending: self.pending.remove(seq), ..self }
    }

    /// The outstanding numbers of `client_id`.
    pub open spec fn owned(self, client_id: Seq<char>) -> Set<i64> {
        self.pending.dom().filter(|seq: i64| self.pending[seq].client_id == client_id)
    }

    /// After `client_id` has left.
    pub open spec fn without_client(self, client_id: Seq<char>) -> SeqMapView {
        SeqMapView { pending: self.pending.remove_keys(self.owned(client_id)), ..self }
    }
}

/// Mapping from proxy seq numbers back to their originating client request.
#[derive(Debug)]
pub struct SeqMap {
    next_seq: i64,
    pending: HashMap<i64, PendingRequest>,
}

impl View for SeqMap {
    type V = SeqMapView;

    closed spec fn view(&self) -> SeqMapView {
        SeqMapView {
            next_seq: self.next_seq,
            pending: self.pending@.map_values(|p: PendingRequest| p@),
        }
    }
}

impl Default for SeqMap {
    fn default() -> (res: Self)
        ensures
            res@ == SeqMapView::empty(),
            res@.well_formed(),
    {
        SeqMap::new()
    }
}

impl SeqMap {
    /// Create an empty map. The first allocated proxy seq is `1`.
    pub fn new() -> (res: Self)
        ensures
            res@ == SeqMapView::empty(),
            res@.well_formed(),
    {
        let res = SeqMap { next_seq: 1, pending: HashMap::new() };
        assert(res@.pending =~= Map::empty());
        res
    }

    /// The next proxy seq number that will be allocated.
    pub fn next_seq(&self) -> (seq: i64)
        ensures
            seq == self@.next_seq,
    {
        self.next_seq
    }

    /// Allocate a proxy seq number for a client request.
    ///
    /// Returns the proxy-side seq to use when forwarding upstream.
    pub fn allocate(&mut self, client_id: &str, client_seq: i64) -> (proxy_seq: i64)
        requires
            old(self)@.next_seq < i64::MAX,
        ensures
            proxy_seq == old(self)@.next_seq,
            final(self)@ == old(self)@.allocated(client_id@, client_seq),
            old(self)@.well_formed() ==> final(self)@.well_formed(),
    {
        let proxy_seq = self.next_seq;
        self.next_seq = proxy_seq + 1;
        self.pending.insert(
            proxy_seq,
            PendingRequest { client_id: client_id.to_owned(), client_seq },
        );
        assert(self@.pending =~= old(self)@.allocated(client_id@, client_seq).pending);
        proxy_seq
    }

    /// Look up and remove the pending request for `proxy_seq`.
    ///
    /// Returns `None` if no pending request exists (already resolved or never
    /// allocated).
    pub fn resolve(&mut self, proxy_seq: i64) -> (res: Option<PendingRequest>)
        ensures
            final(self)@ == old(self)@.resolved(proxy_seq),
            res is Some <==> old(self)@.pending.contains_key(proxy_seq),
            res matches Some(request) ==> request@ == old(self)@.pending[proxy_seq],
            old(self)@.well_formed() ==> final(self)@.well_formed(),
    {
        let res = self.pending.remove(&proxy_seq);
        assert(self@.pending =~= old(self)@.pending.remove(proxy_seq));
        res
    }

    /// The outstanding numbers of `client_id`, each once.
    fn owned_seqs(&self, client_id: &str) -> (seqs: Vec<i64>)
        ensures
            seqs@.no_duplicates(),
            seqs@.to_set() == self@.owned(client_id@),
    {
        let seqs = numbers_in_order(&self.pending, client_id);
        proof {
            assert(seqs@.no_duplicates());
            assert forall|seq: i64|
                seqs@.to_set().contains(seq) <==> self@.owned(client_id@).contains(seq) by {
                assert(seqs@.contains(seq) <==> numbers_of(self.pending@, client_id@).contains(
                    seq,
                ));
            }
            assert(seqs@.to_set() =~= self@.owned(client_id@));
        }
        seqs
    }

    /// Remove all pending requests for `client_id`, returning the count removed.
    ///
    /// Call this when a client disconnects to avoid leaking stale mappings.
    pub fn cleanup(&mut self, client_id: &str) -> (removed: usize)
        ensures
            final(self)@ == old(self)@.without_client(client_id@),
            removed == old(self)@.owned(client_id@).len(),
            old(self)@.well_formed() ==> final(self)@.well_formed(),
    {
        proof {
            if old(self)@.well_formed() {
                lemma_seq_map_stays_well_formed(old(self)@, client_id@, 0, 0);
            }
        }
        let seqs = self.owned_seqs(client_id);
        let ghost before = self.pending@;
        let mut i: usize = 0;
        while i < seqs.len()
            invariant
                i <= seqs@.len(),
                self.next_seq == old(self).next_seq,
                self.pending@ == before.remove_keys(seqs@.take(i as int).to_set()),
            decreases seqs@.len() - i,
        {
            self.pending.remove(&seqs[i]);
            proof {
                let done = seqs@.take(i as int);
                let next = seqs@.take(i + 1);
                assert(next =~= done.push(seqs@[i as int]));
                assert forall|s: i64| next.to_set().contains(s) <==> done.to_set().contains(s) || s
                    == seqs@[i as int] by {
                    if done.contains(s) {
                        let k = choose|k: int| 0 <= k < done.len() && done[k] == s;
                        assert(next[k] == s);
                    }
                    if s == seqs@[i as int] {
                        assert(next[i as int] == s);
                    }
                }
                assert(self.pending@ =~= before.remove_keys(next.to_set()));
            }
            i += 1;
        }
        proof {
            assert(seqs@.take(seqs@.len() as int) =~= seqs@);
            assert(self@.pending =~= old(self)@.without_client(client_id@).pending);
            seqs@.unique_seq_to_set();
        }
        seqs.len()
    }

    /// Number of requests currently awaiting responses.
    pub fn pending_count(&self) -> (count: usize)
        ensures
            count == self@.pending.dom().len(),
    {
        assert(self@.pending.dom() =~= self.pending@.dom());
        self.pending.len()
    }

    /// Number of requests from `client_id` currently awaiting responses.
    pub fn pending_for(&self, client_id: &str) -> (count: usize)
        ensures
            count == self@.owned(client_id@).len(),
    {
        let seqs = self.owned_seqs(client_id);
        proof {
            seqs@.unique_seq_to_set();
        }
        seqs.len()
    }
}

// ---------------------------------------------------------------------------
// Laws
// ---------------------------------------------------------------------------

/// Every operation keeps outstanding numbers within those handed out.
pub proof fn lemma_seq_map_stays_well_formed(
    map: SeqMapView,
    client_id: Seq<char>,
    client_seq: i64,
    seq: i64,
)
    requires
        map.well_formed(),
    ensures
        SeqMapView::empty().well_formed(),
        map.next_seq < i64::MAX ==> map.allocated(client_id, client_seq).well_formed(),
        map.resolved(seq).well_formed(),
        map.without_client(client_id).well_formed(),
{
    let gone = map.without_client(client_id);
    assert(gone.pending.dom() =~= map.pending.dom().difference(map.owned(client_id)));
    assert forall|s: i64| #[trigger] gone.pending.contains_key(s) implies 1 <= s < gone.next_seq by {
        assert(map.pending.contains_key(s));
    }
}

/// A number is handed out once: it is above every number handed out before,
/// and nothing is outstanding under it.
pub proof fn lemma_allocation_is_fresh(map: SeqMapView, client_id: Seq<char>, client_seq: i64)
    requires
        map.well_formed(),
        map.next_seq < i64::MAX,
    ensures
        !map.pending.contains_key(map.next_seq),
        map.allocated(client_id, client_seq).next_seq == map.next_seq + 1,
        forall|seq: i64| #[trigger]
            map.pending.contains_key(seq) ==> {
                &&& seq < map.next_seq
                &&& map.allocated(client_id, client_seq).pending.contains_key(seq)
                &&& map.allocated(client_id, client_seq).pending[seq] == map.pending[seq]
            },
{
}

/// Resolving the number handed out for a request gives that request back and
/// leaves what was outstanding before; resolving it again gives nothing.
pub proof fn lemma_resolve_undoes_allocate(map: SeqMapView, client_id: Seq<char>, client_seq: i64)
    requires
        map.well_formed(),
        map.next_seq < i64::MAX,
    ensures
        ({
            let after = map.allocated(client_id, client_seq);
            let seq = map.next_seq;
            &&& after.pending.contains_key(seq)
            &&& after.pending[seq] == (PendingView { client_id, client_seq })
            &&& after.resolved(seq).pending == map.pending
            &&& !after.resolved(seq).pending.contains_key(seq)
        }),
{
    let after = map.allocated(client_id, client_seq);
    assert(!map.pending.contains_key(map.next_seq));
    assert(after.resolved(map.next_seq).pending =~= map.pending);
}

/// Cleaning up after a client removes all of its requests and no other
/// client's.
pub proof fn lemma_cleanup_is_exact(map: SeqMapView, client_id: Seq<char>, other: Seq<char>)
    requires
        other != client_id,
    ensures
        map.without_client(client_id).owned(client_id) == Set::<i64>::empty(),
        map.without_client(client_id).owned(other) == map.owned(other),
        forall|seq: i64| #[trigger]
            map.without_client(client_id).pending.contains_key(seq) <==> map.pending.contains_key(
                seq,
            ) && map.pending[seq].client_id != client_id,
{
    let gone = map.without_client(client_id);
    assert(gone.owned(client_id) =~= Set::<i64>::empty());
    assert(gone.owned(other) =~= map.owned(other));
}

// ---------------------------------------------------------------------------
// Laws of whole runs
// ---------------------------------------------------------------------------

/// An operation on the map.
pub enum SeqOp {
    /// A client's request is handed the next number.
    Allocate(Seq<char>, i64),
    /// A number is looked up and settled.
    Resolve(i64),
    /// A client leaves.
    Cleanup(Seq<char>),
}

impl SeqMapView {
    /// After one operation.
    pub open spec fn applied(self, op: SeqOp) -> SeqMapView {
        match op {
            SeqOp::Allocate(client_id, client_seq) => self.allocated(client_id, client_seq),
            SeqOp::Resolve(seq) => self.resolved(seq),
            SeqOp::Cleanup(client_id) => self.without_client(client_id),
        }
    }

    /// After a run of operations.
    pub open spec fn ran(self, ops: Seq<SeqOp>) -> SeqMapView
        decreases ops.len(),
    {
        if ops.len() == 0 {
            self
        } else {
            self.ran(ops.drop_last()).applied(ops.last())
        }
    }

    /// Whether numbers do not run out within `count` operations.
    pub open spec fn has_numbers_for(self, count: nat) -> bool {
        self.next_seq + count <= i64::MAX
    }

    /// How many requests were outstanding and were resolved in a run.
    pub open spec fn resolutions(self, ops: Seq<SeqOp>) -> nat
        decreases ops.len(),
    {
        if ops.len() == 0 {
            0
        } else {
            self.resolutions(ops.drop_last()) + match ops.last() {
                SeqOp::Resolve(seq) => if self.ran(ops.drop_last()).pending.contains_key(seq) {
                    1nat
                } else {
                    0nat
                },
                _ => 0nat,
            }
        }
    }

    /// How many requests were cleaned up in a run because their client left.
    pub open spec fn cleaned_up(self, ops: Seq<SeqOp>) -> nat
        decreases ops.len(),
    {
        if ops.len() == 0 {
            0
        } else {
            self.cleaned_up(ops.drop_last()) + match ops.last() {
                SeqOp::Cleanup(client_id) => self.ran(ops.drop_last()).owned(client_id).len(),
                _ => 0nat,
            }
        }
    }

    /// How many requests of these clients are outstanding.
    pub open spec fn owned_by_all(self, clients: Seq<Seq<char>>) -> nat
        decreases clients.len(),
    {
        if clients.len() == 0 {
            0
        } else {
            self.owned_by_all(clients.drop_last()) + self.owned(clients.last()).len()
        }
    }
}

/// How many numbers are handed out in a run.
pub open spec fn allocations(ops: Seq<SeqOp>) -> nat
    decreases ops.len(),
{
    if ops.len() == 0 {
        0
    } else {
        allocations(ops.drop_last()) + if ops.last() is Allocate {
            1nat
        } else {
            0nat
        }
    }
}

/// A run keeps outstanding numbers within those handed out, and the number to
/// hand out next grows by one with each allocation and by nothing else.
pub proof fn lemma_run_stays_well_formed(map: SeqMapView, ops: Seq<SeqOp>)
    requires
        map.well_formed(),
        map.has_numbers_for(ops.len()),
    ensures
        map.ran(ops).well_formed(),
        map.ran(ops).next_seq == map.next_seq + allocations(ops),
        allocations(ops) <= ops.len(),
    decreases ops.len(),
{
    if ops.len() > 0 {
        lemma_run_stays_well_formed(map, ops.drop_last());
        let before = map.ran(ops.drop_last());
        match ops.last() {
            SeqOp::Allocate(client_id, client_seq) => {
                lemma_seq_map_stays_well_formed(before, client_id, client_seq, 0);
            },
            SeqOp::Resolve(seq) => {
                lemma_seq_map_stays_well_formed(before, Seq::empty(), 0, seq);
            },
            SeqOp::Cleanup(client_id) => {
                lemma_seq_map_stays_well_formed(before, client_id, 0, 0);
            },
        }
    }
}

/// A number stands for one request for good: what is outstanding under a number
/// that was handed out was outstanding under it all along. So a number that is
/// settled once stays settled.
pub proof fn lemma_number_means_one_request(map: SeqMapView, ops: Seq<SeqOp>, seq: i64)
    requires
        map.well_formed(),
        map.has_numbers_for(ops.len()),
        seq < map.next_seq,
        map.ran(ops).pending.contains_key(seq),
    ensures
        map.pending.contains_key(seq),
        map.ran(ops).pending[seq] == map.pending[seq],
    decreases ops.len(),
{
    if ops.len() > 0 {
        lemma_run_stays_well_formed(map, ops.drop_last());
        lemma_number_means_one_request(map, ops.drop_last(), seq);
    }
}

/// A number that was handed out resolves to its request, whatever other
/// operations come in between, in any number and order: only resolving that
/// very number or the departure of its client settles it.
pub proof fn lemma_number_resolves_to_its_request(
    map: SeqMapView,
    client_id: Seq<char>,
    client_seq: i64,
    ops: Seq<SeqOp>,
)
    requires
        map.well_formed(),
        map.has_numbers_for(ops.len() + 1),
        forall|i: int|
            0 <= i < ops.len() ==> #[trigger] ops[i] != SeqOp::Resolve(map.next_seq) && ops[i]
                != SeqOp::Cleanup(client_id),
    ensures
        ({
            let after = map.allocated(client_id, client_seq).ran(ops);
            &&& after.pending.contains_key(map.next_seq)
            &&& after.pending[map.next_seq] == (PendingView { client_id, client_seq })
        }),
    decreases ops.len(),
{
    let handed = map.allocated(client_id, client_seq);
    lemma_seq_map_stays_well_formed(map, client_id, client_seq, 0);
    if ops.len() > 0 {
        let earlier = ops.drop_last();
        assert forall|i: int| 0 <= i < earlier.len() implies #[trigger] earlier[i]
            != SeqOp::Resolve(map.next_seq) && earlier[i] != SeqOp::Cleanup(client_id) by {
            assert(ops[i] == earlier[i]);
        }
        lemma_number_resolves_to_its_request(map, client_id, client_seq, earlier);
        lemma_run_stays_well_formed(handed, earlier);
        assert(ops[ops.len() - 1] == ops.last());
    }
}

/// Once a number is resolved, or its client has left, it resolves to nothing
/// for good.
pub proof fn lemma_settled_number_stays_settled(
    map: SeqMapView,
    client_id: Seq<char>,
    client_seq: i64,
    ops: Seq<SeqOp>,
    k: int,
)
    requires
        map.well_formed(),
        map.has_numbers_for(ops.len() + 1),
        0 <= k < ops.len(),
        ops[k] == SeqOp::Resolve(map.next_seq) || ops[k] == SeqOp::Cleanup(client_id),
    ensures
        !map.allocated(client_id, client_seq).ran(ops).pending.contains_key(map.next_seq),
    decreases ops.len(),
{
    let handed = map.allocated(client_id, client_seq);
    let earlier = ops.drop_last();
    lemma_seq_map_stays_well_formed(map, client_id, client_seq, 0);
    lemma_run_stays_well_formed(handed, earlier);
    if k < earlier.len() {
        lemma_settled_number_stays_settled(map, client_id, client_seq, earlier, k);
    } else if handed.ran(earlier).pending.contains_key(map.next_seq) {
        lemma_number_means_one_request(handed, earlier, map.next_seq);
    }
}

/// Removing what a client owns removes exactly that many.
proof fn lemma_owned_are_counted(map: SeqMapView, client_id: Seq<char>)
    requires
        map.pending.dom().finite(),
    ensures
        map.without_client(client_id).pending.dom().len() == map.pending.dom().len() - map.owned(
            client_id,
        ).len(),
        map.owned(client_id).len() <= map.pending.dom().len(),
{
    let all = map.pending.dom();
    let owned = map.owned(client_id);
    let rest = map.without_client(client_id).pending.dom();
    assert(rest =~= all.difference(owned));
    assert(rest.disjoint(owned));
    assert(rest + owned =~= all);
    vstd::set_lib::lemma_set_disjoint_lens(rest, owned);
}

/// The books balance over any run: what is outstanding is what was, and what
/// was handed out since, less what was resolved and what was cleaned up. From a
/// new map, nothing was outstanding before.
pub proof fn lemma_pending_is_accounted_for(map: SeqMapView, ops: Seq<SeqOp>)
    requires
        map.well_formed(),
        map.has_numbers_for(ops.len()),
    ensures
        map.ran(ops).pending.dom().len() == map.pending.dom().len() + allocations(ops)
            - map.resolutions(ops) - map.cleaned_up(ops),
        SeqMapView::empty().pending.dom().len() == 0,
    decreases ops.len(),
{
    if ops.len() > 0 {
        let earlier = ops.drop_last();
        let before = map.ran(earlier);
        lemma_pending_is_accounted_for(map, earlier);
        lemma_run_stays_well_formed(map, earlier);
        match ops.last() {
            SeqOp::Allocate(client_id, client_seq) => {
                assert(before.allocated(client_id, client_seq).pending.dom()
                    =~= before.pending.dom().insert(before.next_seq));
                assert(!before.pending.contains_key(before.next_seq));
            },
            SeqOp::Resolve(seq) => {
                assert(before.resolved(seq).pending.dom() =~= before.pending.dom().remove(seq));
            },
            SeqOp::Cleanup(client_id) => {
                lemma_owned_are_counted(before, client_id);
            },
        }
    }
}

/// The departure of a client that is not among them leaves these clients'
/// requests outstanding.
proof fn lemma_others_keep_their_count(
    map: SeqMapView,
    gone: Seq<char>,
    clients: Seq<Seq<char>>,
)
    requires
        !clients.contains(gone),
    ensures
        map.without_client(gone).owned_by_all(clients) == map.owned_by_all(clients),
    decreases clients.len(),
{
    if clients.len() > 0 {
        let rest = clients.drop_last();
        assert(clients.contains(clients[clients.len() - 1]));
        assert forall|i: int| 0 <= i < rest.len() implies rest[i] != gone by {
            assert(clients.contains(clients[i]));
        }
        lemma_others_keep_their_count(map, gone, rest);
        lemma_cleanup_is_exact(map, gone, clients.last());
    }
}

/// What is outstanding in all is the sum of what is outstanding for each
/// client.
pub proof fn lemma_pending_is_the_sum_over_clients(map: SeqMapView, clients: Seq<Seq<char>>)
    requires
        map.well_formed(),
        clients.no_duplicates(),
        forall|seq: i64| #[trigger]
            map.pending.contains_key(seq) ==> clients.contains(map.pending[seq].client_id),
    ensures
        map.pending.dom().len() == map.owned_by_all(clients),
    decreases clients.len(),
{
    if clients.len() == 0 {
        assert(map.pending.dom() =~= Set::<i64>::empty());
    } else {
        let rest = clients.drop_last();
        let gone = clients.last();
        let without = map.without_client(gone);
        lemma_seq_map_stays_well_formed(map, gone, 0, 0);
        lemma_owned_are_counted(map, gone);
        assert forall|seq: i64| #[trigger] without.pending.contains_key(seq) implies rest.contains(
            without.pending[seq].client_id,
        ) by {
            assert(map.pending.contains_key(seq));
            let owner = map.pending[seq].client_id;
            let i = choose|i: int| 0 <= i < clients.len() && clients[i] == owner;
            assert(rest[i] == clients[i]);
        }
        lemma_pending_is_the_sum_over_clients(without, rest);
        assert forall|i: int| 0 <= i < rest.len() implies rest[i] != gone by {
            assert(clients[i] != clients[clients.len() - 1]);
        }
        lemma_others_keep_their_count(map, gone, rest);
    }
}

/// What the operations do, number by number. Numbers start at one.
pub proof fn lemma_operations(
    map: SeqMapView,
    client_id: Seq<char>,
    client_seq: i64,
    seq: i64,
    other: i64,
)
    ensures
        SeqMapView::empty().next_seq == 1 && !SeqMapView::empty().pending.contains_key(seq),
        ({
            let after = map.allocated(client_id, client_seq);
            &&& map.next_seq < i64::MAX ==> after.next_seq == map.next_seq + 1
            &&& after.pending.contains_key(other) <==> other == map.next_seq
                || map.pending.contains_key(other)
            &&& other != map.next_seq && map.pending.contains_key(other) ==> after.pending[other]
                == map.pending[other]
            &&& after.pending[map.next_seq].client_id == client_id
            &&& after.pending[map.next_seq].client_seq == client_seq
        }),
        ({
            let after = map.resolved(seq);
            &&& after.next_seq == map.next_seq
            &&& after.pending.contains_key(other) <==> other != seq && map.pending.contains_key(
                other,
            )
            &&& after.pending.contains_key(other) ==> after.pending[other] == map.pending[other]
        }),
        ({
            let after = map.without_client(client_id);
            &&& after.next_seq == map.next_seq
            &&& after.pending.contains_key(other) <==> map.pending.contains_key(other)
                && map.pending[other].client_id != client_id
            &&& after.pending.contains_key(other) ==> after.pending[other] == map.pending[other]
        }),
        map.owned(client_id).contains(other) <==> map.pending.contains_key(other)
            && map.pending[other].client_id == client_id,
{
}

} // verus!
