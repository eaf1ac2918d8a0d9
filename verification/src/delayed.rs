//! The retrying sequence-processing engine.
//!
//! `DelayedRetryIter` interleaves consumption of a primary source with service
//! of a time-ordered pending-retry queue. Each call of [`DelayedRetryIter::next`]
//! emits exactly one result — a success, or the failure that exhausted an
//! item's retry budget — until every source item is accounted for.
//!
//! The model the contracts speak of:
//! - `attempts_of(i)` — how often source item `i` has been handed to the
//!   transformation so far;
//! - `is_resolved(i)` — whether item `i`'s one terminal result has been
//!   emitted already;
//! - a mirror of the pending-retry queue, one entry per failed, unresolved
//!   item, carrying the budget it has left.

use vstd::prelude::*;

verus! {

use vstd::multiset::Multiset;
use crate::options::Options;
use crate::pending::{
    pending_entries, queue_is_empty, queue_new, queue_pop_wait, queue_push, queue_try_pop_due,
    PendingQueue,
};

broadcast use vstd::multiset::group_multiset_axioms;

/// How often the queue mirror `q` says entry `e` sits in the queue: once when
/// `e`'s index is queued with exactly `e`'s budget, never otherwise.
pub(crate) open spec fn entry_count(q: Map<u64, u8>, e: (u64, u8)) -> nat {
    if q.dom().contains(e.0) && q[e.0] == e.1 {
        1nat
    } else {
        0nat
    }
}

/// The budget the queue mirror `q` holds for source index `i`, 0 when `i` is
/// not queued.
pub(crate) open spec fn bud_at(q: Map<u64, u8>, i: int) -> nat {
    if 0 <= i <= u64::MAX && q.dom().contains(i as u64) {
        q[i as u64] as nat
    } else {
        0nat
    }
}

/// Total budget the queue mirror `q` holds for the indices below `n`. The
/// drain loop terminates because each failed re-attempt lowers this sum.
pub(crate) open spec fn budget_sum(q: Map<u64, u8>, n: int) -> nat
    decreases n,
{
    if n <= 0 {
        0nat
    } else {
        budget_sum(q, n - 1) + bud_at(q, n - 1)
    }
}

/// Two mirrors that agree below `n` have the same budget sum below `n`.
proof fn lemma_budget_sum_agree(q1: Map<u64, u8>, q2: Map<u64, u8>, n: int)
    requires
        forall|i: int| 0 <= i < n ==> bud_at(q1, i) == bud_at(q2, i),
    ensures
        budget_sum(q1, n) == budget_sum(q2, n),
    decreases n,
{
    if n > 0 {
        lemma_budget_sum_agree(q1, q2, n - 1);
    }
}

/// Changing a mirror at one index `k` changes the budget sum by exactly the
/// change at `k`.
proof fn lemma_budget_sum_update(q1: Map<u64, u8>, q2: Map<u64, u8>, k: int, n: int)
    requires
        0 <= k < n,
        forall|i: int| 0 <= i < n && i != k ==> bud_at(q1, i) == bud_at(q2, i),
    ensures
        budget_sum(q1, n) + bud_at(q2, k) == budget_sum(q2, n) + bud_at(q1, k),
    decreases n,
{
    if k == n - 1 {
        lemma_budget_sum_agree(q1, q2, n - 1);
    } else {
        lemma_budget_sum_update(q1, q2, k, n - 1);
    }
}

/// One queue step — removing a present entry and/or inserting one — keeps
/// the contents multiset in step with the mirror map, provided an inserted
/// entry either replaces the removed entry's index or lands on an index not
/// yet queued.
proof fn lemma_mirror_step(
    pre_p: Multiset<(u64, u8)>,
    pre_q: Map<u64, u8>,
    post_p: Multiset<(u64, u8)>,
    post_q: Map<u64, u8>,
    popped: Option<(u64, u8)>,
    pushed: Option<(u64, u8)>,
)
    requires
        forall|e: (u64, u8)| #![trigger pre_p.count(e)] pre_p.count(e) == entry_count(pre_q, e),
        popped matches Some(a) ==> pre_p.count(a) > 0,
        pushed matches Some(b) ==> (match popped {
            Some(a) => a.0 == b.0,
            None => !pre_q.dom().contains(b.0),
        }),
        post_p == (match (popped, pushed) {
            (Some(a), Some(b)) => pre_p.remove(a).insert(b),
            (Some(a), None) => pre_p.remove(a),
            (None, Some(b)) => pre_p.insert(b),
            (None, None) => pre_p,
        }),
        post_q == (match (popped, pushed) {
            (Some(a), Some(b)) => pre_q.remove(a.0).insert(b.0, b.1),
            (Some(a), None) => pre_q.remove(a.0),
            (None, Some(b)) => pre_q.insert(b.0, b.1),
            (None, None) => pre_q,
        }),
    ensures
        forall|e: (u64, u8)| #![trigger post_p.count(e)]
            post_p.count(e) == entry_count(post_q, e),
{
    assert forall|e: (u64, u8)| #![trigger post_p.count(e)]
        post_p.count(e) == entry_count(post_q, e) by {
        assert(pre_p.count(e) == entry_count(pre_q, e));
        if popped is Some {
            let a = popped->0;
            assert(pre_p.count(a) == entry_count(pre_q, a));
        }
    }
}

/// The retrying sequence-transformation engine: wraps a source of items and a
/// fallible transformation, and yields one `Result` per source item, retrying
/// failed items up to the configured budget with the configured minimum delay
/// between attempts on the same item.
///
/// Items must be duplicable, since a retried item is handed to the
/// transformation again. `Copy` is that requirement in the form the contracts
/// can use: every attempt provably receives the very item the source holds,
/// which a `Clone` bound could not promise (nothing ties a generic clone to
/// its original).
#[verifier::reject_recursive_types(Out)]
#[verifier::reject_recursive_types(E)]
pub struct DelayedRetryIter<T, Out, E, F> where T: Copy, F: Fn(T) -> Result<Out, E> {
    source: Vec<T>,
    pos: usize,
    options: Options,
    failed: PendingQueue,
    f: F,
    attempts: Ghost<Map<int, nat>>,
    resolved: Ghost<Set<int>>,
    queued: Ghost<Map<u64, u8>>,
}

impl<T, Out, E, F> DelayedRetryIter<T, Out, E, F> where T: Copy, F: Fn(T) -> Result<Out, E> {
    /// The primary source, as the sequence of items it yields.
    pub closed spec fn source_view(self) -> Seq<T> {
        self.source@
    }

    /// How many items have been pulled from the primary source so far.
    pub closed spec fn pos_of(self) -> int {
        self.pos as int
    }

    /// The run parameters the engine was created with.
    pub closed spec fn config(self) -> Options {
        self.options
    }

    /// The transformation function the engine applies.
    pub closed spec fn fun(self) -> F {
        self.f
    }

    /// The set of source indices whose terminal result has been emitted.
    pub closed spec fn resolved_set(self) -> Set<int> {
        self.resolved@
    }

    /// Whether source item `i`'s one terminal result has been emitted.
    pub open spec fn is_resolved(self, i: int) -> bool {
        self.resolved_set().contains(i)
    }

    /// How many terminal results have been emitted so far.
    pub open spec fn resolved_count(self) -> nat {
        self.resolved_set().len()
    }

    /// How often source item `i` has been handed to the transformation.
    pub closed spec fn attempts_of(self, i: int) -> nat {
        if self.attempts@.dom().contains(i) {
            self.attempts@[i]
        } else {
            0nat
        }
    }

    /// The retry budget still queued for source item `i` (0 when `i` is not
    /// in the pending-retry queue).
    pub closed spec fn budget_of(self, i: int) -> nat {
        bud_at(self.queued@, i)
    }

    /// Exhaustion: the primary source is fully consumed and every pulled item
    /// has its terminal result emitted; `next` signals end-of-sequence and
    /// nothing will change any more. In a well-formed engine this also means
    /// the pending-retry queue is empty.
    pub open spec fn done(self) -> bool {
        &&& self.pos_of() == self.source_view().len()
        &&& forall|i: int| 0 <= i < self.source_view().len() ==> self.is_resolved(i)
    }

    /// In a well-formed engine, exhaustion leaves nothing in the
    /// pending-retry queue.
    proof fn lemma_done_queue_empty(self)
        requires
            self.wf(),
            self.done(),
        ensures
            forall|k: u64| !(#[trigger] self.queued@.dom().contains(k)),
    {
        assert forall|k: u64| !(#[trigger] self.queued@.dom().contains(k)) by {
            if self.queued@.dom().contains(k) {
                assert(k < self.pos);
                assert(self.is_resolved(k as int));
                assert(false);
            }
        }
    }

    /// The engine's invariant: every pulled item is either resolved or sits
    /// in the pending-retry queue exactly once with between 1 and
    /// `num_retries` attempts left; attempts plus remaining budget never pass
    /// `1 + num_retries`; and the transformation accepts every source item.
    pub closed spec fn wf(self) -> bool {
        &&& self.pos <= self.source@.len()
        &&& (self.options.spec_num_retries() > 0 ==> self.options.spec_min_delay() is Some)
        &&& self.queued@.dom().finite()
        &&& forall|k: u64| #![trigger self.queued@.dom().contains(k)]
            self.queued@.dom().contains(k) ==> k < self.pos && 1 <= self.queued@[k]
                <= self.options.spec_num_retries()
        &&& forall|e: (u64, u8)| #![trigger pending_entries(self.failed).count(e)]
            pending_entries(self.failed).count(e) == entry_count(self.queued@, e)
        &&& self.resolved@.finite()
        &&& forall|i: int| #![trigger self.resolved@.contains(i)]
            self.resolved@.contains(i) ==> 0 <= i < self.pos
        &&& forall|i: int|
            #![trigger self.resolved@.contains(i)]
            #![trigger self.queued@.dom().contains(i as u64)]
            0 <= i < self.pos ==> (self.resolved@.contains(i) <==> !self.queued@.dom().contains(
                i as u64,
            ))
        &&& forall|i: int| #![trigger self.attempts_of(i)]
            0 <= i < self.pos ==> 1 <= self.attempts_of(i)
        &&& forall|i: int| #![trigger self.attempts_of(i)]
            !(0 <= i < self.pos) ==> self.attempts_of(i) == 0
        &&& forall|i: int|
            #![trigger self.attempts_of(i)]
            #![trigger self.queued@.dom().contains(i as u64)]
            0 <= i < self.pos && self.queued@.dom().contains(i as u64) ==> self.attempts_of(i)
                + self.queued@[i as u64] == 1 + self.options.spec_num_retries()
        &&& forall|i: int| #![trigger self.resolved@.contains(i)]
            self.resolved@.contains(i) ==> self.attempts_of(i) <= 1
                + self.options.spec_num_retries()
        &&& forall|i: int| 0 <= i < self.source@.len() ==> call_requires(self.f, (self.source@[i],))
    }

    /// Creates an engine over `source` with the given run parameters and
    /// transformation. A minimum delay must be configured whenever any retry
    /// is possible; the transformation must accept every source item.
    pub fn new(source: Vec<T>, options: Options, f: F) -> (r: Self)
        requires
            options.spec_num_retries() > 0 ==> options.spec_min_delay() is Some,
            forall|i: int| 0 <= i < source@.len() ==> call_requires(f, (source@[i],)),
        ensures
            r.wf(),
            r.source_view() == source@,
            r.config() == options,
            r.fun() == f,
            r.pos_of() == 0,
            r.resolved_set() == Set::<int>::empty(),
            forall|i: int| #[trigger] r.attempts_of(i) == 0,
            forall|i: int| #[trigger] r.budget_of(i) == 0,
    {
        let failed = queue_new();
        DelayedRetryIter {
            source,
            pos: 0,
            options,
            failed,
            f,
            attempts: Ghost(Map::empty()),
            resolved: Ghost(Set::empty()),
            queued: Ghost(Map::empty()),
        }
    }

    /// The pending-retry queue is empty exactly when its mirror holds no index.
    proof fn lemma_pending_len(self)
        requires
            self.wf(),
        ensures
            (pending_entries(self.failed).len() == 0) <==> (forall|k: u64|
                !(#[trigger] self.queued@.dom().contains(k))),
    {
        if pending_entries(self.failed).len() == 0 {
            assert forall|k: u64| !(#[trigger] self.queued@.dom().contains(k)) by {
                if self.queued@.dom().contains(k) {
                    let e = (k, self.queued@[k]);
                    assert(pending_entries(self.failed).count(e) == entry_count(self.queued@, e));
                }
            }
        } else {
            vstd::multiset::lemma_multiset_empty_len(pending_entries(self.failed));
            let v = choose|v: (u64, u8)| pending_entries(self.failed).count(v) > 0;
            assert(entry_count(self.queued@, v) > 0);
            assert(self.queued@.dom().contains(v.0));
        }
    }

    /// After recording one more attempt for item `k`, every other item's
    /// attempt count is unchanged.
    proof fn lemma_attempts_bump(pre: Self, post: Self, k: int)
        requires
            post.attempts@ == pre.attempts@.insert(k, (pre.attempts_of(k) + 1) as nat),
        ensures
            post.attempts_of(k) == pre.attempts_of(k) + 1,
            forall|j: int| #![trigger post.attempts_of(j)]
                j != k ==> post.attempts_of(j) == pre.attempts_of(j),
    {
    }

    /// What one call of `next` that returned a result `res` did: it emitted
    /// the terminal result of exactly one source item.
    pub open spec fn emits(pre: Self, post: Self, res: Result<Out, E>) -> bool {
        exists|i: int| #[trigger] Self::emits_at(pre, post, i, res)
    }

    /// The returned result `res` is the terminal result of source item `i`:
    /// `i` was unresolved before and is the one index resolved by this call;
    /// `res` is an output the transformation admits for item `i`; a failure
    /// is emitted only once `i`'s attempts have used up the whole budget
    /// (exhaustion terminality), and a success within the budget.
    pub open spec fn emits_at(pre: Self, post: Self, i: int, res: Result<Out, E>) -> bool {
        &&& 0 <= i < post.pos_of()
        &&& i < pre.source_view().len()
        &&& !pre.is_resolved(i)
        &&& post.is_resolved(i)
        &&& post.resolved_set() == pre.resolved_set().insert(i)
        &&& call_ensures(pre.fun(), (pre.source_view()[i],), res)
        &&& (res is Err ==> post.attempts_of(i) == 1 + pre.config().spec_num_retries())
        &&& (res is Ok ==> 1 <= post.attempts_of(i) <= 1 + pre.config().spec_num_retries())
    }

    /// Produces the next result, or `None` once every source item is
    /// accounted for. Serves one due retry first, then advances the primary
    /// source until a success, then drains the pending-retry queue, blocking
    /// on each entry's delay.
    ///
    /// The contract carries the engine's laws: exactly one item is resolved
    /// per emitted result (conservation); a resolved item is never attempted
    /// again, so an item whose first attempt succeeded never retries (success
    /// precedence) and an exhausted item is final (exhaustion terminality);
    /// and `None` comes exactly on exhaustion.
    pub fn next(&mut self) -> (r: Option<Result<Out, E>>)
        requires
            old(self).wf(),
        ensures
            final(self).wf(),
            final(self).source_view() == old(self).source_view(),
            final(self).config() == old(self).config(),
            final(self).fun() == old(self).fun(),
            old(self).pos_of() <= final(self).pos_of(),
            forall|i: int| old(self).is_resolved(i) ==> final(self).is_resolved(i),
            forall|i: int|
                old(self).is_resolved(i) ==> final(self).attempts_of(i) == old(
                    self,
                ).attempts_of(i),
            forall|i: int| final(self).attempts_of(i) >= old(self).attempts_of(i),
            r is None <==> old(self).done(),
            r is None ==> final(self).resolved_set() == old(self).resolved_set()
                && final(self).done(),
            r is None ==> forall|i: int|
                final(self).attempts_of(i) == old(self).attempts_of(i),
            r matches Some(res) ==> Self::emits(*old(self), *final(self), res),
    {
        // Step 1: serve at most one due retry, without blocking.
        let due = queue_try_pop_due(&mut self.failed);
        if let Some(entry) = due {
            let idx = entry.0;
            let budget = entry.1;
            proof {
                assert(pending_entries(old(self).failed).count(entry) == entry_count(
                    old(self).queued@,
                    entry,
                ));
                assert(old(self).queued@.dom().contains(idx));
                if old(self).done() {
                    old(self).lemma_done_queue_empty();
                }
                assert(old(self).queued@[idx] == budget);
                assert(idx < old(self).pos_of());
                assert(1 <= budget <= old(self).config().spec_num_retries());
                assert(old(self).attempts_of(idx as int) + budget == 1 + old(
                    self,
                ).config().spec_num_retries());
                assert(!old(self).resolved@.contains(idx as int));
            }
            self.queued = Ghost(self.queued@.remove(idx));
            let i = idx as usize;
            let item = self.source[i];
            let res = (self.f)(item);
            self.attempts = Ghost(
                self.attempts@.insert(idx as int, (self.attempts_of(idx as int) + 1) as nat),
            );
            if res.is_ok() {
                self.resolved = Ghost(self.resolved@.insert(idx as int));
                proof {
                    Self::lemma_attempts_bump(*old(self), *self, idx as int);
                    lemma_mirror_step(
                        pending_entries(old(self).failed),
                        old(self).queued@,
                        pending_entries(self.failed),
                        self.queued@,
                        Some(entry),
                        None,
                    );
                    assert(Self::emits_at(*old(self), *self, idx as int, res));
                }
                return Some(res);
            } else if budget > 1 {
                // Budget remains: schedule the item again, then go on to the
                // primary source rather than surfacing this failure.
                let d = self.options.min_delay().unwrap();
                queue_push(&mut self.failed, idx, budget - 1, d);
                self.queued = Ghost(self.queued@.insert(idx, (budget - 1) as u8));
                proof {
                    Self::lemma_attempts_bump(*old(self), *self, idx as int);
                    lemma_mirror_step(
                        pending_entries(old(self).failed),
                        old(self).queued@,
                        pending_entries(self.failed),
                        self.queued@,
                        Some(entry),
                        Some((idx, (budget - 1) as u8)),
                    );
                }
            } else {
                // The failure that exhausts the budget is the item's terminal
                // result.
                self.resolved = Ghost(self.resolved@.insert(idx as int));
                proof {
                    Self::lemma_attempts_bump(*old(self), *self, idx as int);
                    lemma_mirror_step(
                        pending_entries(old(self).failed),
                        old(self).queued@,
                        pending_entries(self.failed),
                        self.queued@,
                        Some(entry),
                        None,
                    );
                    assert(Self::emits_at(*old(self), *self, idx as int, res));
                }
                return Some(res);
            }
        } else {
            proof {
                assert forall|j: int| #![trigger self.attempts_of(j)]
                    self.attempts_of(j) == old(self).attempts_of(j) by {}
                assert forall|j: int| #![trigger self.is_resolved(j)]
                    self.is_resolved(j) == old(self).is_resolved(j) by {}
                lemma_mirror_step(
                    pending_entries(old(self).failed),
                    old(self).queued@,
                    pending_entries(self.failed),
                    self.queued@,
                    None,
                    None,
                );
            }
        }
        // Step 2: advance the primary source until a success.
        while self.pos < self.source.len()
            invariant
                self.wf(),
                self.source_view() == old(self).source_view(),
                self.config() == old(self).config(),
                self.fun() == old(self).fun(),
                old(self).pos_of() <= self.pos_of(),
                self.resolved@ == old(self).resolved@,
                old(self).done() ==> self.done(),
                old(self).done() ==> (forall|i: int|
                    self.attempts_of(i) == old(self).attempts_of(i)),
                forall|i: int| self.attempts_of(i) >= old(self).attempts_of(i),
                forall|i: int|
                    old(self).is_resolved(i) ==> self.attempts_of(i) == old(self).attempts_of(i),
            decreases self.source@.len() - self.pos,
        {
            let i = self.pos;
            proof {
                assert(!self.queued@.dom().contains(i as u64));
                assert(!self.resolved@.contains(i as int));
                assert(self.attempts_of(i as int) == 0);
            }
            let item = self.source[i];
            let res = (self.f)(item);
            let ghost pre = *self;
            self.attempts = Ghost(
                self.attempts@.insert(i as int, (self.attempts_of(i as int) + 1) as nat),
            );
            self.pos = i + 1;
            if res.is_ok() {
                self.resolved = Ghost(self.resolved@.insert(i as int));
                proof {
                    Self::lemma_attempts_bump(pre, *self, i as int);
                    lemma_mirror_step(
                        pending_entries(pre.failed),
                        pre.queued@,
                        pending_entries(self.failed),
                        self.queued@,
                        None,
                        None,
                    );
                    assert(Self::emits_at(*old(self), *self, i as int, res));
                }
                return Some(res);
            } else {
                let retries = self.options.num_retries();
                if retries > 0 {
                    // First failure: give the item its whole retry budget.
                    let d = self.options.min_delay().unwrap();
                    queue_push(&mut self.failed, i as u64, retries, d);
                    self.queued = Ghost(self.queued@.insert(i as u64, retries));
                    proof {
                        Self::lemma_attempts_bump(pre, *self, i as int);
                        lemma_mirror_step(
                            pending_entries(pre.failed),
                            pre.queued@,
                            pending_entries(self.failed),
                            self.queued@,
                            None,
                            Some((i as u64, retries)),
                        );
                    }
                } else {
                    // No retries configured: the first failure is terminal.
                    self.resolved = Ghost(self.resolved@.insert(i as int));
                    proof {
                        Self::lemma_attempts_bump(pre, *self, i as int);
                        lemma_mirror_step(
                            pending_entries(pre.failed),
                            pre.queued@,
                            pending_entries(self.failed),
                            self.queued@,
                            None,
                            None,
                        );
                        assert(Self::emits_at(*old(self), *self, i as int, res));
                    }
                    return Some(res);
                }
            }
        }
        // Step 3: the primary source is exhausted; drain the pending-retry
        // queue, blocking until each entry's delay has elapsed.
        while !queue_is_empty(&self.failed)
            invariant
                self.wf(),
                self.source_view() == old(self).source_view(),
                self.config() == old(self).config(),
                self.fun() == old(self).fun(),
                old(self).pos_of() <= self.pos_of(),
                self.pos == self.source@.len(),
                self.resolved@ == old(self).resolved@,
                old(self).done() ==> self.done(),
                old(self).done() ==> (forall|i: int|
                    self.attempts_of(i) == old(self).attempts_of(i)),
                forall|i: int| self.attempts_of(i) >= old(self).attempts_of(i),
                forall|i: int|
                    old(self).is_resolved(i) ==> self.attempts_of(i) == old(self).attempts_of(i),
            decreases budget_sum(self.queued@, self.source@.len() as int),
        {
            let ghost pre = *self;
            let entry = queue_pop_wait(&mut self.failed);
            let idx = entry.0;
            let budget = entry.1;
            proof {
                assert(pending_entries(pre.failed).count(entry) == entry_count(pre.queued@, entry));
                assert(pre.queued@.dom().contains(idx));
                if old(self).done() {
                    pre.lemma_done_queue_empty();
                }
                assert(pre.queued@[idx] == budget);
                assert(idx < pre.pos_of());
                assert(1 <= budget <= pre.config().spec_num_retries());
                assert(pre.attempts_of(idx as int) + budget == 1 + pre.config().spec_num_retries());
                assert(!pre.resolved@.contains(idx as int));
            }
            self.queued = Ghost(self.queued@.remove(idx));
            proof {
                lemma_budget_sum_update(
                    pre.queued@,
                    self.queued@,
                    idx as int,
                    self.source@.len() as int,
                );
            }
            let i = idx as usize;
            let item = self.source[i];
            let res = (self.f)(item);
            self.attempts = Ghost(
                self.attempts@.insert(idx as int, (self.attempts_of(idx as int) + 1) as nat),
            );
            if res.is_ok() {
                self.resolved = Ghost(self.resolved@.insert(idx as int));
                proof {
                    Self::lemma_attempts_bump(pre, *self, idx as int);
                    lemma_mirror_step(
                        pending_entries(pre.failed),
                        pre.queued@,
                        pending_entries(self.failed),
                        self.queued@,
                        Some(entry),
                        None,
                    );
                    assert(Self::emits_at(*old(self), *self, idx as int, res));
                }
                return Some(res);
            } else if budget > 1 {
                let ghost mid = self.queued@;
                let d = self.options.min_delay().unwrap();
                queue_push(&mut self.failed, idx, budget - 1, d);
                self.queued = Ghost(self.queued@.insert(idx, (budget - 1) as u8));
                proof {
                    Self::lemma_attempts_bump(pre, *self, idx as int);
                    lemma_budget_sum_update(mid, self.queued@, idx as int, self.source@.len() as int);
                    lemma_mirror_step(
                        pending_entries(pre.failed),
                        pre.queued@,
                        pending_entries(self.failed),
                        self.queued@,
                        Some(entry),
                        Some((idx, (budget - 1) as u8)),
                    );
                }
            } else {
                self.resolved = Ghost(self.resolved@.insert(idx as int));
                proof {
                    Self::lemma_attempts_bump(pre, *self, idx as int);
                    lemma_mirror_step(
                        pending_entries(pre.failed),
                        pre.queued@,
                        pending_entries(self.failed),
                        self.queued@,
                        Some(entry),
                        None,
                    );
                    assert(Self::emits_at(*old(self), *self, idx as int, res));
                }
                return Some(res);
            }
        }
        proof {
            self.lemma_pending_len();
            if old(self).pos_of() < old(self).source_view().len() as int {
                let i = old(self).pos_of();
                assert(!self.queued@.dom().contains(i as u64));
                assert(self.resolved@.contains(i));
                assert(false);
            }
            assert forall|i: int|
                0 <= i < old(self).source_view().len() implies old(self).is_resolved(i) by {
                assert(!self.queued@.dom().contains(i as u64));
                assert(self.resolved@.contains(i));
            }
        }
        None
    }

    /// Bounded attempts: however a run unfolds, no source item is handed to
    /// the transformation more than `1 + num_retries` times. An unresolved
    /// queued item has spent its attempts except for the budget it still
    /// carries, and a resolved item has stopped for good.
    pub proof fn lemma_bounded_attempts(self)
        requires
            self.wf(),
        ensures
            forall|i: int| #[trigger] self.attempts_of(i) <= 1 + self.config().spec_num_retries(),
    {
        assert forall|i: int| #[trigger]
            self.attempts_of(i) <= 1 + self.config().spec_num_retries() by {
            if 0 <= i < self.pos_of() && !self.resolved@.contains(i) {
                assert(self.queued@.dom().contains(i as u64));
                assert(1 <= self.queued@[i as u64]);
            }
        }
    }

    /// Success precedence and exhaustion terminality, queue-side: an item
    /// whose terminal result has been emitted — a first-attempt success as
    /// much as an exhausted failure — holds no place in the pending-retry
    /// queue, so no retry is scheduled for it; and `next` never changes a
    /// resolved item again.
    pub proof fn lemma_resolved_never_queued(self, i: int)
        requires
            self.wf(),
            self.is_resolved(i),
        ensures
            self.budget_of(i) == 0,
    {
        assert(0 <= i < self.pos_of());
        assert(!self.queued@.dom().contains(i as u64));
    }

    /// Whether `r` is a result the transformation admits for one of the
    /// source items: the engine invents no output of its own.
    pub open spec fn admissible(self, r: Result<Out, E>) -> bool {
        exists|i: int|
            0 <= i < self.source_view().len() && call_ensures(
                self.fun(),
                (#[trigger] self.source_view()[i],),
                r,
            )
    }

    /// Runs the engine to exhaustion and collects every result it emits.
    ///
    /// Conservation: the number of results collected, plus the number already
    /// emitted before this call, equals the number of source items — one
    /// terminal result per input item, whatever the failure pattern. Every
    /// collected result is an output the transformation admits for one of the
    /// source items.
    pub fn collect_all(self) -> (results: Vec<Result<Out, E>>)
        requires
            self.wf(),
        ensures
            results@.len() + self.resolved_count() == self.source_view().len(),
            forall|k: int| 0 <= k < results@.len() ==> #[trigger] self.admissible(results@[k]),
    {
        let mut eng = self;
        let ghost orig = eng;
        let mut results: Vec<Result<Out, E>> = Vec::new();
        proof {
            Self::lemma_resolved_count_le(eng);
        }
        loop
            invariant
                eng.wf(),
                eng.source_view() == orig.source_view(),
                eng.config() == orig.config(),
                eng.fun() == orig.fun(),
                eng.resolved_count() <= eng.source_view().len(),
                results@.len() + orig.resolved_count() == eng.resolved_count(),
                forall|k: int|
                    0 <= k < results@.len() ==> #[trigger] orig.admissible(results@[k]),
            ensures
                eng.wf(),
                eng.done(),
                eng.source_view() == orig.source_view(),
                results@.len() + orig.resolved_count() == eng.resolved_count(),
                forall|k: int|
                    0 <= k < results@.len() ==> #[trigger] orig.admissible(results@[k]),
            decreases eng.source_view().len() - eng.resolved_count(),
        {
            let ghost pre_eng = eng;
            let r = eng.next();
            match r {
                Some(res) => {
                    let ghost prev = results@;
                    results.push(res);
                    proof {
                        let i = choose|i: int| Self::emits_at(pre_eng, eng, i, res);
                        assert(Self::emits_at(pre_eng, eng, i, res));
                        assert(eng.resolved_count() == pre_eng.resolved_count() + 1);
                        Self::lemma_resolved_count_le(eng);
                        assert(0 <= i < orig.source_view().len() && call_ensures(
                            orig.fun(),
                            (orig.source_view()[i],),
                            res,
                        ));
                        assert(orig.admissible(res));
                        assert forall|k: int|
                            0 <= k < results@.len() implies #[trigger] orig.admissible(
                            results@[k],
                        ) by {
                            if k < prev.len() {
                                assert(results@[k] == prev[k]);
                            } else {
                                assert(results@[k] == res);
                            }
                        }
                    }
                },
                None => {
                    break ;
                },
            }
        }
        proof {
            let n = eng.source_view().len() as int;
            assert forall|i: int| vstd::set_lib::set_int_range(0, n).contains(i)
                implies eng.resolved_set().contains(i) by {
                assert(eng.is_resolved(i));
            }
            assert(eng.resolved_set() =~= vstd::set_lib::set_int_range(0, n));
            vstd::set_lib::lemma_int_range(0, n);
        }
        results
    }

    /// No more items can be resolved than the source holds.
    proof fn lemma_resolved_count_le(eng: Self)
        requires
            eng.wf(),
        ensures
            eng.resolved_count() <= eng.source_view().len(),
    {
        let n = eng.source_view().len() as int;
        assert forall|i: int| eng.resolved_set().contains(i)
            implies vstd::set_lib::set_int_range(0, n).contains(i) by {}
        vstd::set_lib::lemma_int_range(0, n);
        vstd::set_lib::lemma_len_subset(
            eng.resolved_set(),
            vstd::set_lib::set_int_range(0, n),
        );
    }
}

} // verus!
