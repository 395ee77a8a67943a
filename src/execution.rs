use vstd::prelude::*;
use crate::batch::{
    Batch, all_plain, batch_deps, batch_leaves, deps_point_back, flatten_batch, ids_view,
    lemma_chain_in_order, lemma_concurrent_at_once, lemma_deps_point_back, plain_ops,
};
use crate::statistic::{Statistic, TestError};

verus! {

/// Where one operation of an execution stands.
pub enum LeafState {
    /// Not started yet.
    Waiting,
    /// Handed out to be run; its outcome is not known yet.
    Running,
    /// Ran to success, with the statistic it reported, if any.
    Done(Option<Statistic>),
    /// Ran and failed.
    Failed,
}

/// Whether every id of `ds` names an operation that ran to success.
pub open spec fn all_done(states: Seq<LeafState>, ds: Seq<int>) -> bool {
    forall|k: int| 0 <= k < ds.len() ==> 0 <= #[trigger] ds[k] < states.len() && states[ds[k]] is Done
}

/// Whether operation `i` may start now: it waits, nothing has failed, and
/// all its prerequisites ran to success.
pub open spec fn startable(
    states: Seq<LeafState>,
    deps: Seq<Seq<int>>,
    failed: bool,
    i: int,
) -> bool {
    !failed && states[i] is Waiting && all_done(states, deps[i])
}

/// The statistics reported by the operations that ran to success, in id order.
pub open spec fn reported(states: Seq<LeafState>) -> Seq<Statistic>
    decreases states.len(),
{
    if states.len() == 0 {
        Seq::empty()
    } else {
        let rest = reported(states.drop_last());
        match states.last() {
            LeafState::Done(Some(s)) => rest.push(s),
            _ => rest,
        }
    }
}

/// Whether every operation ran to success.
pub open spec fn all_succeeded(states: Seq<LeafState>) -> bool {
    forall|i: int| 0 <= i < states.len() ==> #[trigger] states[i] is Done
}

/// The run of one batch, as decisions: which operations may start, and what the
/// batch yields once their outcomes are in. The caller performs the operations.
pub struct Execution<L> {
    ops: Vec<Option<L>>,
    deps: Vec<Vec<usize>>,
    states: Vec<LeafState>,
    failure: Option<TestError>,
    leaves: Ghost<Seq<L>>,
}

impl<L> Execution<L> {
    /// The operations of the batch, numbered in the order of their statistics.
    pub closed spec fn leaves(&self) -> Seq<L> {
        self.leaves@
    }

    /// For each operation, the ids of those that must succeed before it starts.
    pub closed spec fn deps(&self) -> Seq<Seq<int>> {
        ids_view(self.deps@)
    }

    pub closed spec fn states(&self) -> Seq<LeafState> {
        self.states@
    }

    /// The first error that an operation returned, if any.
    pub closed spec fn failure(&self) -> Option<TestError> {
        self.failure
    }

    pub closed spec fn wf(&self) -> bool {
        &&& self.ops@.len() == self.leaves@.len()
        &&& self.deps@.len() == self.leaves@.len()
        &&& self.states@.len() == self.leaves@.len()
        &&& forall|i: int|
            0 <= i < self.ops@.len() ==> (#[trigger] self.ops@[i] is Some <==> self.states@[i] is Waiting)
        &&& forall|i: int|
            0 <= i < self.ops@.len() && #[trigger] self.ops@[i] is Some ==> self.ops@[i]->0 == self.leaves@[i]
        &&& forall|i: int| 0 <= i < self.states@.len() && #[trigger] self.states@[i] is Failed ==> self.failure is Some
        &&& deps_point_back(ids_view(self.deps@), 0)
        &&& self.failure is Some ==> exists|i: int| 0 <= i < self.states@.len() && #[trigger] self.states@[i] is Failed
    }

    /// Whether the batch is over: an operation failed, or all ran to success.
    pub open spec fn finished(&self) -> bool {
        self.failure() is Some || all_succeeded(self.states())
    }

    /// Takes a batch apart into its operations, none of them started.
    pub fn new(batch: Batch<L>) -> (r: Self)
        ensures
            r.wf(),
            r.leaves() == batch_leaves(batch),
            r.deps() == batch_deps(batch, Seq::empty(), 0),
            r.failure() is None,
            r.states().len() == r.leaves().len(),
            forall|i: int| 0 <= i < r.states().len() ==> #[trigger] r.states()[i] is Waiting,
    {
        let mut flat: Vec<L> = Vec::new();
        let mut deps: Vec<Vec<usize>> = Vec::new();
        let base: Vec<usize> = Vec::new();
        proof {
            assert(ids_view(deps@) =~= Seq::empty());
            assert(crate::batch::id_seq(base@) =~= Seq::empty());
        }
        flatten_batch(batch, &base, &mut flat, &mut deps);
        assert(ids_view(deps@) =~= batch_deps(batch, Seq::empty(), 0));
        proof {
            lemma_deps_point_back(batch);
        }
        let ghost leaves = flat@;
        let mut ops: Vec<Option<L>> = Vec::new();
        let mut states: Vec<LeafState> = Vec::new();
        let ghost mut k: int = 0;
        while flat.len() > 0
            invariant
                0 <= k <= leaves.len(),
                flat@ == leaves.subrange(k, leaves.len() as int),
                ops@.len() == k,
                states@.len() == k,
                forall|i: int| 0 <= i < k ==> #[trigger] ops@[i] == Some(leaves[i]),
                forall|i: int| 0 <= i < k ==> #[trigger] states@[i] is Waiting,
            decreases flat.len(),
        {
            let l = flat.remove(0);
            ops.push(Some(l));
            states.push(LeafState::Waiting);
            proof {
                k = k + 1;
            }
        }
        Execution { ops, deps, states, failure: None, leaves: Ghost(leaves) }
    }

    /// Whether all prerequisites of operation `i` ran to success.
    fn prerequisites_done(&self, i: usize) -> (r: bool)
        requires
            self.wf(),
            i < self.deps@.len(),
        ensures
            r == all_done(self.states(), self.deps()[i as int]),
    {
        let ds = &self.deps[i];
        let ghost dv = self.deps()[i as int];
        assert(dv == crate::batch::id_seq(ds@));
        let mut k: usize = 0;
        while k < ds.len()
            invariant
                k <= ds.len(),
                dv == crate::batch::id_seq(ds@),
                dv == self.deps()[i as int],
                ds == &self.deps@[i as int],
                forall|j: int| 0 <= j < k ==> 0 <= #[trigger] dv[j] < self.states().len() && self.states()[dv[j]] is Done,
            decreases ds.len() - k,
        {
            let d = ds[k];
            assert(dv[k as int] == d as int);
            if d >= self.states.len() {
                return false;
            }
            match &self.states[d] {
                LeafState::Done(_) => {},
                _ => {
                    return false;
                },
            }
            k = k + 1;
        }
        true
    }

    /// Hands out every operation that may start now, with its id, in id order,
    /// and marks it as running.
    pub fn start_ready(&mut self) -> (started: Vec<(usize, L)>)
        requires
            old(self).wf(),
        ensures
            final(self).wf(),
            final(self).leaves() == old(self).leaves(),
            final(self).deps() == old(self).deps(),
            final(self).failure() == old(self).failure(),
            final(self).states().len() == old(self).states().len(),
            forall|i: int|
                0 <= i < old(self).states().len() ==> #[trigger] final(self).states()[i] == if startable(
                    old(self).states(),
                    old(self).deps(),
                    old(self).failure() is Some,
                    i,
                ) {
                    LeafState::Running
                } else {
                    old(self).states()[i]
                },
            forall|k: int|
                0 <= k < started@.len() ==> {
                    let i = (#[trigger] started@[k]).0 as int;
                    &&& 0 <= i < old(self).states().len()
                    &&& startable(old(self).states(), old(self).deps(), old(self).failure() is Some, i)
                    &&& started@[k].1 == old(self).leaves()[i]
                },
            forall|k1: int, k2: int|
                0 <= k1 < k2 < started@.len() ==> (#[trigger] started@[k1]).0 < (#[trigger] started@[k2]).0,
            forall|i: int|
                0 <= i < old(self).states().len() && #[trigger] startable(
                    old(self).states(),
                    old(self).deps(),
                    old(self).failure() is Some,
                    i,
                ) ==> exists|k: int| 0 <= k < started@.len() && (#[trigger] started@[k]).0 == i,
    {
        let mut started: Vec<(usize, L)> = Vec::new();
        if self.failure.is_some() {
            return started;
        }
        let ghost s0 = self.states@;
        let ghost d0 = self.deps();
        let n = self.ops.len();
        let mut i: usize = 0;
        while i < n
            invariant
                self.wf(),
                n == self.ops@.len(),
                i <= n,
                self.failure is None,
                self.leaves == old(self).leaves,
                self.deps == old(self).deps,
                self.failure == old(self).failure,
                s0 == old(self).states@,
                d0 == old(self).deps(),
                self.states@.len() == s0.len(),
                forall|j: int| 0 <= j < s0.len() ==> (#[trigger] self.states@[j] is Done <==> s0[j] is Done),
                forall|j: int|
                    0 <= j < i ==> #[trigger] self.states@[j] == if startable(s0, d0, false, j) {
                        LeafState::Running
                    } else {
                        s0[j]
                    },
                forall|j: int| i <= j < s0.len() ==> #[trigger] self.states@[j] == s0[j],
                forall|k: int|
                    0 <= k < started@.len() ==> {
                        let j = (#[trigger] started@[k]).0 as int;
                        &&& 0 <= j < i
                        &&& startable(s0, d0, false, j)
                        &&& started@[k].1 == self.leaves@[j]
                    },
                forall|k1: int, k2: int|
                    0 <= k1 < k2 < started@.len() ==> (#[trigger] started@[k1]).0 < (#[trigger] started@[k2]).0,
                forall|j: int|
                    0 <= j < i && #[trigger] startable(s0, d0, false, j) ==> exists|k: int|
                        0 <= k < started@.len() && (#[trigger] started@[k]).0 == j,
            decreases n - i,
        {
            let waiting = match &self.states[i] {
                LeafState::Waiting => true,
                _ => false,
            };
            let ready = waiting && self.prerequisites_done(i);
            proof {
                let ds = d0[i as int];
                assert(all_done(self.states@, ds) == all_done(s0, ds)) by {
                    if all_done(self.states@, ds) {
                        assert forall|k: int| 0 <= k < ds.len() implies 0 <= #[trigger] ds[k] < s0.len()
                            && s0[ds[k]] is Done by {
                            assert(self.states@[ds[k]] is Done);
                        }
                    }
                    if all_done(s0, ds) {
                        assert forall|k: int| 0 <= k < ds.len() implies 0 <= #[trigger] ds[k] < self.states@.len()
                            && self.states@[ds[k]] is Done by {
                            assert(s0[ds[k]] is Done);
                        }
                    }
                }
                assert(ready == startable(s0, d0, false, i as int));
            }
            let ghost before = started@;
            if ready {
                let slot = self.ops.remove(i);
                self.ops.insert(i, None);
                self.states.set(i, LeafState::Running);
                match slot {
                    Some(l) => {
                        started.push((i, l));
                        assert(started@[before.len() as int].0 == i);
                    },
                    None => {},
                }
            }
            proof {
                assert forall|j: int|
                    0 <= j < i + 1 && #[trigger] startable(s0, d0, false, j) implies exists|k: int|
                        0 <= k < started@.len() && (#[trigger] started@[k]).0 == j by {
                    if j < i {
                        let k = choose|k: int| 0 <= k < before.len() && (#[trigger] before[k]).0 == j;
                        assert(started@[k] == before[k]);
                    } else {
                        assert(started@[before.len() as int].0 == j);
                    }
                }
            }
            i = i + 1;
        }
        started
    }

    /// Records the outcome of a running operation. The first error is kept.
    pub fn complete(&mut self, id: usize, outcome: Result<Option<Statistic>, TestError>)
        requires
            old(self).wf(),
            id < old(self).states().len(),
            old(self).states()[id as int] is Running,
        ensures
            final(self).wf(),
            final(self).leaves() == old(self).leaves(),
            final(self).deps() == old(self).deps(),
            match outcome {
                Ok(m) => {
                    &&& final(self).states() == old(self).states().update(id as int, LeafState::Done(m))
                    &&& final(self).failure() == old(self).failure()
                },
                Err(e) => {
                    &&& final(self).states() == old(self).states().update(id as int, LeafState::Failed)
                    &&& final(self).failure() == if old(self).failure() is Some {
                        old(self).failure()
                    } else {
                        Some(e)
                    }
                },
            },
    {
        match outcome {
            Ok(m) => {
                let ghost s0 = self.states@;
                self.states.set(id, LeafState::Done(m));
                proof {
                    if self.failure is Some {
                        let j = choose|j: int| 0 <= j < s0.len() && #[trigger] s0[j] is Failed;
                        assert(self.states@[j] is Failed);
                    }
                }
            },
            Err(e) => {
                self.states.set(id, LeafState::Failed);
                assert(self.states@[id as int] is Failed);
                if self.failure.is_none() {
                    self.failure = Some(e);
                }
            },
        }
    }

    /// Whether the batch is over.
    pub fn is_finished(&self) -> (r: bool)
        requires
            self.wf(),
        ensures
            r == self.finished(),
    {
        if self.failure.is_some() {
            return true;
        }
        let mut i: usize = 0;
        while i < self.states.len()
            invariant
                self.failure is None,
                i <= self.states@.len(),
                forall|j: int| 0 <= j < i ==> #[trigger] self.states@[j] is Done,
            decreases self.states@.len() - i,
        {
            match &self.states[i] {
                LeafState::Done(_) => {},
                _ => {
                    assert(!(self.states()[i as int] is Done));
                    return false;
                },
            }
            i = i + 1;
        }
        true
    }

    /// What the batch yields once it is over: the first error, or else the
    /// statistics of all its operations, in id order.
    pub fn into_result(self) -> (r: Result<Vec<Statistic>, TestError>)
        requires
            self.wf(),
            self.finished(),
        ensures
            match self.failure() {
                Some(e) => r == Err::<Vec<Statistic>, TestError>(e),
                None => r is Ok && r->Ok_0@ == reported(self.states()),
            },
    {
        let Execution { states, failure, .. } = self;
        match failure {
            Some(e) => Err(e),
            None => {
                let ghost s0 = states@;
                let mut states = states;
                let mut out: Vec<Statistic> = Vec::new();
                let ghost mut k: int = 0;
                while states.len() > 0
                    invariant
                        0 <= k <= s0.len(),
                        states@ == s0.subrange(k, s0.len() as int),
                        out@ == reported(s0.subrange(0, k)),
                    decreases states.len(),
                {
                    let st = states.remove(0);
                    assert(s0.subrange(0, k + 1).drop_last() =~= s0.subrange(0, k));
                    assert(st == s0[k]);
                    match st {
                        LeafState::Done(Some(m)) => {
                            out.push(m);
                        },
                        _ => {},
                    }
                    proof {
                        k = k + 1;
                    }
                }
                assert(s0.subrange(0, s0.len() as int) =~= s0);
                Ok(out)
            },
        }
    }
}

proof fn lemma_least_not_done(states: Seq<LeafState>, n: int) -> (i: int)
    requires
        0 <= n <= states.len(),
        exists|j: int| 0 <= j < n && !(#[trigger] states[j] is Done),
    ensures
        0 <= i < n,
        !(states[i] is Done),
        forall|j: int| 0 <= j < i ==> #[trigger] states[j] is Done,
    decreases n,
{
    if exists|j: int| 0 <= j < n - 1 && !(#[trigger] states[j] is Done) {
        lemma_least_not_done(states, n - 1)
    } else {
        n - 1
    }
}

/// A batch that is not over has an operation running or one that may start:
/// driving it to its end never gets stuck.
pub proof fn lemma_progress<L>(e: Execution<L>)
    requires
        e.wf(),
        !e.finished(),
        forall|i: int| 0 <= i < e.states().len() ==> !(#[trigger] e.states()[i] is Running),
    ensures
        exists|i: int|
            0 <= i < e.states().len() && #[trigger] startable(
                e.states(),
                e.deps(),
                e.failure() is Some,
                i,
            ),
{
    let s = e.states();
    assert(!all_succeeded(s));
    let i = lemma_least_not_done(s, s.len() as int);
    assert(!(s[i] is Failed));
    assert(s[i] is Waiting);
    let ds = e.deps()[i];
    assert forall|k: int| 0 <= k < ds.len() implies 0 <= #[trigger] ds[k] < s.len()
        && s[ds[k]] is Done by {
        assert(0 <= e.deps()[i][k] < i);
    }
    assert(startable(s, e.deps(), e.failure() is Some, i));
}

/// Once any operation has failed, the batch is over and its result is the
/// first error: it yields no statistics.
pub proof fn lemma_failure_ends_batch<L>(e: Execution<L>, i: int)
    requires
        e.wf(),
        0 <= i < e.states().len(),
        e.states()[i] is Failed,
    ensures
        e.failure() is Some,
        e.finished(),
{
}

/// When every operation ran to success and reported a statistic, the batch
/// yields exactly those statistics, one per operation, in id order.
pub proof fn lemma_reported_each_once(states: Seq<LeafState>)
    requires
        forall|i: int|
            0 <= i < states.len() ==> (#[trigger] states[i] is Done && states[i]->Done_0 is Some),
    ensures
        reported(states) == states.map_values(|st: LeafState| st->Done_0->Some_0),
    decreases states.len(),
{
    if states.len() > 0 {
        let p = states.drop_last();
        assert(states[states.len() - 1] is Done);
        lemma_reported_each_once(p);
        assert(reported(states) =~= states.map_values(|st: LeafState| st->Done_0->Some_0));
    }
}

/// A batch made only of chain operations, once each ran to success and
/// reported a statistic, yields exactly those statistics in chain order: the
/// `i`-th is the one that the operation at chain position `i` reported.
pub proof fn lemma_chain_result<L>(b: Batch<L>, e: Execution<L>)
    requires
        b.concurrent@.len() == 0,
        all_plain(b.chain@),
        e.wf(),
        e.leaves() == batch_leaves(b),
        forall|i: int|
            0 <= i < e.states().len() ==> (#[trigger] e.states()[i] is Done
                && e.states()[i]->Done_0 is Some),
    ensures
        e.finished(),
        e.failure() is None,
        e.states().len() == b.chain@.len(),
        forall|i: int| 0 <= i < b.chain@.len() ==> e.leaves()[i] == (#[trigger] b.chain@[i])->Operation_0,
        reported(e.states()).len() == b.chain@.len(),
        forall|i: int|
            0 <= i < b.chain@.len() ==> #[trigger] reported(e.states())[i] == e.states()[i]->Done_0->Some_0,
{
    lemma_chain_in_order(b);
    lemma_all_reported(e);
}

/// A batch made only of concurrent operations, once each ran to success and
/// reported a statistic, yields each of those statistics exactly once: the
/// `i`-th is the one that the `i`-th operation of the group reported.
pub proof fn lemma_concurrent_result<L>(b: Batch<L>, e: Execution<L>)
    requires
        b.chain@.len() == 0,
        all_plain(b.concurrent@),
        e.wf(),
        e.leaves() == batch_leaves(b),
        forall|i: int|
            0 <= i < e.states().len() ==> (#[trigger] e.states()[i] is Done
                && e.states()[i]->Done_0 is Some),
    ensures
        e.finished(),
        e.failure() is None,
        e.states().len() == b.concurrent@.len(),
        forall|i: int|
            0 <= i < b.concurrent@.len() ==> e.leaves()[i] == (#[trigger] b.concurrent@[i])->Operation_0,
        reported(e.states()).len() == b.concurrent@.len(),
        forall|i: int|
            0 <= i < b.concurrent@.len() ==> #[trigger] reported(e.states())[i]
                == e.states()[i]->Done_0->Some_0,
        reported(e.states()).to_multiset() == e.states().map_values(
            |st: LeafState| st->Done_0->Some_0,
        ).to_multiset(),
{
    lemma_concurrent_at_once(b);
    lemma_all_reported(e);
}

proof fn lemma_all_reported<L>(e: Execution<L>)
    requires
        e.wf(),
        forall|i: int|
            0 <= i < e.states().len() ==> (#[trigger] e.states()[i] is Done
                && e.states()[i]->Done_0 is Some),
    ensures
        e.finished(),
        e.failure() is None,
        e.states().len() == e.leaves().len(),
        reported(e.states()) == e.states().map_values(|st: LeafState| st->Done_0->Some_0),
{
    lemma_reported_each_once(e.states());
    if e.failure() is Some {
        let i = choose|i: int| 0 <= i < e.states().len() && #[trigger] e.states()[i] is Failed;
        assert(e.states()[i] is Done);
    }
}

/// In a batch made only of chain operations, an operation may start only
/// once every operation before it in the chain ran to success: after a
/// failure, the operations that follow it never start.
pub proof fn lemma_chain_waits<L>(
    b: Batch<L>,
    states: Seq<LeafState>,
    failed: bool,
    i: int,
    j: int,
)
    requires
        b.concurrent@.len() == 0,
        all_plain(b.chain@),
        states.len() == b.chain@.len(),
        0 <= j < i < states.len(),
        startable(states, batch_deps(b, Seq::empty(), 0), failed, i),
    ensures
        states[j] is Done,
        !failed,
{
    lemma_chain_in_order(b);
    let ds = batch_deps(b, Seq::empty(), 0)[i];
    assert(ds[j] == j);
}

} // verus!

