use vstd::prelude::*;

verus! {

/// One slot of a batch: an operation to run, or a nested batch.
pub enum ExecutionOperation<L> {
    SubBatch(Batch<L>),
    Operation(L),
}

/// A tree of operations: `chain` runs one after another, `concurrent` all at once.
pub struct Batch<L> {
    pub chain: Vec<ExecutionOperation<L>>,
    pub concurrent: Vec<ExecutionOperation<L>>,
}

impl<L> Batch<L> {
    /// An empty batch: nothing to run, nothing to report.
    pub fn new() -> (r: Self)
        ensures
            r.chain@.len() == 0,
            r.concurrent@.len() == 0,
    {
        Batch { chain: Vec::new(), concurrent: Vec::new() }
    }

    /// A batch whose chain is the one operation `op`.
    pub fn from_op(op: L) -> (r: Self)
        ensures
            r.chain@ == seq![ExecutionOperation::Operation(op)],
            r.concurrent@.len() == 0,
    {
        let mut b = Batch::new();
        b.chain.push(ExecutionOperation::Operation(op));
        assert(b.chain@ =~= seq![ExecutionOperation::Operation(op)]);
        b
    }

    /// Appends a slot to the chain.
    pub fn add_chain_op(self, op: ExecutionOperation<L>) -> (r: Self)
        ensures
            r.chain@ == self.chain@.push(op),
            r.concurrent@ == self.concurrent@,
    {
        let mut b = self;
        b.chain.push(op);
        b
    }

    /// Appends slots to the chain, in their order.
    pub fn add_chain_ops(self, ops: Vec<ExecutionOperation<L>>) -> (r: Self)
        ensures
            r.chain@ == self.chain@ + ops@,
            r.concurrent@ == self.concurrent@,
    {
        let mut b = self;
        let mut ops = ops;
        b.chain.append(&mut ops);
        b
    }

    /// Adds a slot to the concurrent group.
    pub fn add_concurrent_op(self, op: ExecutionOperation<L>) -> (r: Self)
        ensures
            r.chain@ == self.chain@,
            r.concurrent@ == self.concurrent@.push(op),
    {
        let mut b = self;
        b.concurrent.push(op);
        b
    }

    /// Adds slots to the concurrent group.
    pub fn add_concurrent_ops(self, ops: Vec<ExecutionOperation<L>>) -> (r: Self)
        ensures
            r.chain@ == self.chain@,
            r.concurrent@ == self.concurrent@ + ops@,
    {
        let mut b = self;
        let mut ops = ops;
        b.concurrent.append(&mut ops);
        b
    }
}

impl<L> From<Batch<L>> for ExecutionOperation<L> {
    fn from(b: Batch<L>) -> (r: Self) {
        ExecutionOperation::SubBatch(b)
    }
}

impl<L> vstd::std_specs::convert::FromSpecImpl<Batch<L>> for ExecutionOperation<L> {
    open spec fn obeys_from_spec() -> bool {
        true
    }

    open spec fn from_spec(b: Batch<L>) -> Self {
        ExecutionOperation::SubBatch(b)
    }
}

/// The operations of a slot, in the order in which their statistics are reported.
pub open spec fn op_leaves<L>(op: ExecutionOperation<L>) -> Seq<L>
    decreases op,
{
    match op {
        ExecutionOperation::SubBatch(b) => batch_leaves(b),
        ExecutionOperation::Operation(l) => seq![l],
    }
}

/// The operations of a batch: those of the chain, then those of the concurrent group.
pub open spec fn batch_leaves<L>(b: Batch<L>) -> Seq<L>
    decreases b,
{
    seq_leaves(b.chain@) + seq_leaves(b.concurrent@)
}

pub open spec fn seq_leaves<L>(s: Seq<ExecutionOperation<L>>) -> Seq<L>
    decreases s,
{
    if s.len() == 0 {
        Seq::empty()
    } else {
        seq_leaves(s.drop_last()) + op_leaves(s.last())
    }
}

/// The ids `lo`, `lo + 1`, ..., `hi - 1`.
pub open spec fn id_range(lo: int, hi: int) -> Seq<int> {
    Seq::new((hi - lo) as nat, |k: int| lo + k)
}

/// For each operation of a slot whose first operation has id `first`, the ids
/// of the operations that must have completed before it starts. `base` holds
/// those that the enclosing groups impose.
pub open spec fn op_deps<L>(op: ExecutionOperation<L>, base: Seq<int>, first: int) -> Seq<
    Seq<int>,
>
    decreases op,
{
    match op {
        ExecutionOperation::SubBatch(b) => batch_deps(b, base, first),
        ExecutionOperation::Operation(_) => seq![base],
    }
}

/// The prerequisites of the operations of a batch: a chain item waits for every
/// operation of the chain items before it; a concurrent item waits for nothing
/// more than the batch itself does.
pub open spec fn batch_deps<L>(b: Batch<L>, base: Seq<int>, first: int) -> Seq<Seq<int>>
    decreases b,
{
    chain_deps(b.chain@, base, first) + concurrent_deps(
        b.concurrent@,
        base,
        first + seq_leaves(b.chain@).len(),
    )
}

pub open spec fn chain_deps<L>(s: Seq<ExecutionOperation<L>>, base: Seq<int>, first: int) -> Seq<
    Seq<int>,
>
    decreases s,
{
    if s.len() == 0 {
        Seq::empty()
    } else {
        let n = seq_leaves(s.drop_last()).len();
        chain_deps(s.drop_last(), base, first) + op_deps(
            s.last(),
            base + id_range(first, first + n),
            first + n,
        )
    }
}

pub open spec fn concurrent_deps<L>(
    s: Seq<ExecutionOperation<L>>,
    base: Seq<int>,
    first: int,
) -> Seq<Seq<int>>
    decreases s,
{
    if s.len() == 0 {
        Seq::empty()
    } else {
        let n = seq_leaves(s.drop_last()).len();
        concurrent_deps(s.drop_last(), base, first) + op_deps(s.last(), base, first + n)
    }
}

/// The ids of a list, as integers.
pub open spec fn id_seq(v: Seq<usize>) -> Seq<int> {
    v.map_values(|x: usize| x as int)
}

/// The ids held by a list of prerequisite lists.
pub open spec fn ids_view(v: Seq<Vec<usize>>) -> Seq<Seq<int>> {
    v.map_values(|d: Vec<usize>| id_seq(d@))
}

/// `base` followed by the ids from `lo` up to `hi`.
fn ids_with_range(base: &Vec<usize>, lo: usize, hi: usize) -> (r: Vec<usize>)
    requires
        lo <= hi,
    ensures
        id_seq(r@) == id_seq(base@) + id_range(lo as int, hi as int),
{
    let mut r: Vec<usize> = Vec::new();
    let mut i: usize = 0;
    while i < base.len()
        invariant
            i <= base.len(),
            r@ =~= base@.subrange(0, i as int),
        decreases base.len() - i,
    {
        r.push(base[i]);
        i = i + 1;
    }
    let mut j: usize = lo;
    while j < hi
        invariant
            lo <= j <= hi,
            r@.len() == base@.len() + (j - lo),
            forall|k: int| 0 <= k < base@.len() ==> r@[k] == base@[k],
            forall|k: int| base@.len() <= k < r@.len() ==> r@[k] == lo + (k - base@.len()),
        decreases hi - j,
    {
        r.push(j);
        j = j + 1;
    }
    assert(id_seq(r@) =~= id_seq(base@) + id_range(lo as int, hi as int));
    r
}

/// Appends the operations of `b` to `ops`, numbered from `ops.len()` on, and
/// the prerequisites of each to `deps`.
#[verifier::loop_isolation(false)]
pub(crate) fn flatten_batch<L>(
    b: Batch<L>,
    base: &Vec<usize>,
    ops: &mut Vec<L>,
    deps: &mut Vec<Vec<usize>>,
)
    requires
        old(ops).len() == old(deps).len(),
    ensures
        final(ops).len() == final(deps).len(),
        final(ops)@ == old(ops)@ + batch_leaves(b),
        ids_view(final(deps)@) == ids_view(old(deps)@) + batch_deps(
            b,
            id_seq(base@),
            old(ops).len() as int,
        ),
    decreases b,
{
    let ghost b0 = b;
    let ghost ops0 = ops@;
    let ghost deps0 = ids_view(deps@);
    let ghost first = ops.len() as int;
    let Batch { chain, concurrent } = b;
    let ghost chain0 = chain@;
    let ghost conc0 = concurrent@;
    let mut chain = chain;
    let start = ops.len();
    let ghost mut k: int = 0;
    while chain.len() > 0
        invariant
            b0.chain@ == chain0,
            0 <= k <= chain0.len(),
            chain@ == chain0.subrange(k, chain0.len() as int),
            ops.len() == deps.len(),
            start == first,
            ops@ == ops0 + seq_leaves(chain0.subrange(0, k)),
            ids_view(deps@) == deps0 + chain_deps(chain0.subrange(0, k), id_seq(base@), first),
        decreases chain.len(),
    {
        let child = chain.remove(0);
        assert(child == chain0[k]);
        let ghost pre = chain0.subrange(0, k);
        let ghost next = chain0.subrange(0, k + 1);
        assert(next.drop_last() =~= pre);
        assert(next.last() == child);
        assert(ops@.len() == ops0.len() + seq_leaves(pre).len());
        let here = ids_with_range(base, start, ops.len());
        let ghost n = seq_leaves(pre).len() as int;
        assert(seq_leaves(next) == seq_leaves(pre) + op_leaves(child));
        assert(chain_deps(next, id_seq(base@), first) == chain_deps(pre, id_seq(base@), first)
            + op_deps(child, id_seq(base@) + id_range(first, first + n), first + n));
        match child {
            ExecutionOperation::Operation(l) => {
                let ghost d_before = deps@;
                let ghost h = id_seq(here@);
                ops.push(l);
                deps.push(here);
                assert(ids_view(deps@) =~= ids_view(d_before).push(h));
                assert(ids_view(deps@) =~= deps0 + chain_deps(next, id_seq(base@), first));
            },
            ExecutionOperation::SubBatch(sb) => {
                assert(decreases_to!(b0 => b0.chain));
                assert(decreases_to!(b0.chain => b0.chain@));
                assert(decreases_to!(b0.chain@ => b0.chain@[k]));
                assert(decreases_to!(b0.chain@[k] => sb));
                flatten_batch(sb, &here, ops, deps);
            },
        }
        proof {
            k = k + 1;
        }
        assert(ops@ =~= ops0 + seq_leaves(next));
    }
    assert(chain0.subrange(0, chain0.len() as int) =~= chain0);
    let mut concurrent = concurrent;
    let ghost cfirst = ops.len() as int;
    let ghost ops1 = ops@;
    let ghost deps1 = ids_view(deps@);
    proof {
        k = 0;
    }
    while concurrent.len() > 0
        invariant
            b0.concurrent@ == conc0,
            0 <= k <= conc0.len(),
            concurrent@ == conc0.subrange(k, conc0.len() as int),
            ops.len() == deps.len(),
            ops@ == ops1 + seq_leaves(conc0.subrange(0, k)),
            ids_view(deps@) == deps1 + concurrent_deps(conc0.subrange(0, k), id_seq(base@), cfirst),
        decreases concurrent.len(),
    {
        let child = concurrent.remove(0);
        assert(child == conc0[k]);
        let ghost pre = conc0.subrange(0, k);
        let ghost next = conc0.subrange(0, k + 1);
        assert(next.drop_last() =~= pre);
        assert(next.last() == child);
        let here = ids_with_range(base, 0, 0);
        assert(id_seq(here@) =~= id_seq(base@));
        let ghost n = seq_leaves(pre).len() as int;
        assert(seq_leaves(next) == seq_leaves(pre) + op_leaves(child));
        assert(concurrent_deps(next, id_seq(base@), cfirst) == concurrent_deps(pre, id_seq(base@), cfirst)
            + op_deps(child, id_seq(base@), cfirst + n));
        match child {
            ExecutionOperation::Operation(l) => {
                let ghost d_before = deps@;
                let ghost h = id_seq(here@);
                ops.push(l);
                deps.push(here);
                assert(ids_view(deps@) =~= ids_view(d_before).push(h));
                assert(ids_view(deps@) =~= deps1 + concurrent_deps(next, id_seq(base@), cfirst));
            },
            ExecutionOperation::SubBatch(sb) => {
                assert(decreases_to!(b0 => b0.concurrent));
                assert(decreases_to!(b0.concurrent => b0.concurrent@));
                assert(decreases_to!(b0.concurrent@ => b0.concurrent@[k]));
                assert(decreases_to!(b0.concurrent@[k] => sb));
                flatten_batch(sb, &here, ops, deps);
            },
        }
        proof {
            k = k + 1;
        }
        assert(ops@ =~= ops1 + seq_leaves(next));
    }
    assert(conc0.subrange(0, conc0.len() as int) =~= conc0);
    assert(ops@ =~= ops0 + batch_leaves(b0));
    assert(ids_view(deps@) =~= deps0 + batch_deps(b0, id_seq(base@), first));
}

/// Whether every id of each list `d[k]` names an operation numbered before
/// `first + k`, that is, before the operation that waits for it.
pub open spec fn deps_point_back(d: Seq<Seq<int>>, first: int) -> bool {
    forall|k: int, j: int|
        0 <= k < d.len() && 0 <= j < d[k].len() ==> 0 <= #[trigger] d[k][j] < first + k
}

/// Whether every id of `base` is below `first`.
pub open spec fn ids_below(base: Seq<int>, first: int) -> bool {
    forall|j: int| 0 <= j < base.len() ==> 0 <= #[trigger] base[j] < first
}

proof fn lemma_op_deps_back<L>(op: ExecutionOperation<L>, base: Seq<int>, first: int)
    requires
        0 <= first,
        ids_below(base, first),
    ensures
        op_deps(op, base, first).len() == op_leaves(op).len(),
        deps_point_back(op_deps(op, base, first), first),
    decreases op,
{
    match op {
        ExecutionOperation::SubBatch(b) => {
            lemma_batch_deps_back(b, base, first);
        },
        ExecutionOperation::Operation(_) => {},
    }
}

proof fn lemma_batch_deps_back<L>(b: Batch<L>, base: Seq<int>, first: int)
    requires
        0 <= first,
        ids_below(base, first),
    ensures
        batch_deps(b, base, first).len() == batch_leaves(b).len(),
        deps_point_back(batch_deps(b, base, first), first),
    decreases b,
{
    assert(decreases_to!(b => b.chain));
    assert(decreases_to!(b.chain => b.chain@));
    assert(decreases_to!(b => b.concurrent));
    assert(decreases_to!(b.concurrent => b.concurrent@));
    lemma_chain_deps_back(b.chain@, base, first);
    let n = seq_leaves(b.chain@).len() as int;
    assert(ids_below(base, first + n));
    lemma_concurrent_deps_back(b.concurrent@, base, first + n);
    let c = chain_deps(b.chain@, base, first);
    let d = concurrent_deps(b.concurrent@, base, first + n);
    assert forall|k: int, j: int|
        0 <= k < (c + d).len() && 0 <= j < (c + d)[k].len() implies 0 <= #[trigger] (c + d)[k][j]
        < first + k by {
        if k >= c.len() {
            assert((c + d)[k] == d[k - c.len()]);
        }
    }
}

proof fn lemma_chain_deps_back<L>(s: Seq<ExecutionOperation<L>>, base: Seq<int>, first: int)
    requires
        0 <= first,
        ids_below(base, first),
    ensures
        chain_deps(s, base, first).len() == seq_leaves(s).len(),
        deps_point_back(chain_deps(s, base, first), first),
    decreases s,
{
    if s.len() > 0 {
        let p = s.drop_last();
        lemma_chain_deps_back(p, base, first);
        let n = seq_leaves(p).len() as int;
        let nb = base + id_range(first, first + n);
        assert(ids_below(nb, first + n)) by {
            assert forall|j: int| 0 <= j < nb.len() implies 0 <= #[trigger] nb[j] < first + n by {
                if j >= base.len() {
                    assert(nb[j] == first + (j - base.len()));
                }
            }
        }
        lemma_op_deps_back(s.last(), nb, first + n);
        let c = chain_deps(p, base, first);
        let d = op_deps(s.last(), nb, first + n);
        assert(chain_deps(s, base, first) == c + d);
        assert forall|k: int, j: int|
            0 <= k < (c + d).len() && 0 <= j < (c + d)[k].len() implies 0 <= #[trigger] (c + d)[k][j]
            < first + k by {
            if k >= c.len() {
                assert((c + d)[k] == d[k - c.len()]);
            }
        }
    }
}

proof fn lemma_concurrent_deps_back<L>(s: Seq<ExecutionOperation<L>>, base: Seq<int>, first: int)
    requires
        0 <= first,
        ids_below(base, first),
    ensures
        concurrent_deps(s, base, first).len() == seq_leaves(s).len(),
        deps_point_back(concurrent_deps(s, base, first), first),
    decreases s,
{
    if s.len() > 0 {
        let p = s.drop_last();
        lemma_concurrent_deps_back(p, base, first);
        let n = seq_leaves(p).len() as int;
        assert(ids_below(base, first + n));
        lemma_op_deps_back(s.last(), base, first + n);
        let c = concurrent_deps(p, base, first);
        let d = op_deps(s.last(), base, first + n);
        assert(concurrent_deps(s, base, first) == c + d);
        assert forall|k: int, j: int|
            0 <= k < (c + d).len() && 0 <= j < (c + d)[k].len() implies 0 <= #[trigger] (c + d)[k][j]
            < first + k by {
            if k >= c.len() {
                assert((c + d)[k] == d[k - c.len()]);
            }
        }
    }
}

/// Every operation of a batch waits only for operations numbered before it,
/// so the prerequisites never form a cycle.
pub proof fn lemma_deps_point_back<L>(b: Batch<L>)
    ensures
        batch_deps(b, Seq::empty(), 0).len() == batch_leaves(b).len(),
        deps_point_back(batch_deps(b, Seq::empty(), 0), 0),
{
    lemma_batch_deps_back(b, Seq::empty(), 0);
}

/// Whether every slot of `s` is a plain operation.
pub open spec fn all_plain<L>(s: Seq<ExecutionOperation<L>>) -> bool {
    forall|i: int| 0 <= i < s.len() ==> #[trigger] s[i] is Operation
}

/// The operations of a list of plain slots.
pub open spec fn plain_ops<L>(s: Seq<ExecutionOperation<L>>) -> Seq<L> {
    s.map_values(|op: ExecutionOperation<L>| op->Operation_0)
}

proof fn lemma_plain_leaves<L>(s: Seq<ExecutionOperation<L>>)
    requires
        all_plain(s),
    ensures
        seq_leaves(s) == plain_ops(s),
    decreases s.len(),
{
    if s.len() > 0 {
        assert(s[s.len() - 1] is Operation);
        lemma_plain_leaves(s.drop_last());
        assert(seq_leaves(s) == seq_leaves(s.drop_last()) + op_leaves(s.last()));
        assert(op_leaves(s.last()) == seq![s.last()->Operation_0]);
        assert(seq_leaves(s) =~= plain_ops(s));
    }
}

proof fn lemma_plain_chain_deps<L>(s: Seq<ExecutionOperation<L>>, first: int)
    requires
        all_plain(s),
    ensures
        chain_deps(s, Seq::empty(), first).len() == s.len(),
        forall|i: int|
            0 <= i < s.len() ==> #[trigger] chain_deps(s, Seq::empty(), first)[i] == id_range(
                first,
                first + i,
            ),
    decreases s.len(),
{
    if s.len() > 0 {
        let p = s.drop_last();
        assert(s[s.len() - 1] is Operation);
        lemma_plain_chain_deps(p, first);
        lemma_plain_leaves(p);
        let n = seq_leaves(p).len() as int;
        let e = Seq::<int>::empty();
        assert(n == p.len());
        assert(chain_deps(s, e, first) == chain_deps(p, e, first) + op_deps(
            s.last(),
            e + id_range(first, first + n),
            first + n,
        ));
        assert(op_deps(s.last(), e + id_range(first, first + n), first + n) == seq![e + id_range(first, first + n)]);
        assert(e + id_range(first, first + n) =~= id_range(first, first + n));
    }
}

proof fn lemma_plain_concurrent_deps<L>(s: Seq<ExecutionOperation<L>>, first: int)
    requires
        all_plain(s),
    ensures
        concurrent_deps(s, Seq::empty(), first).len() == s.len(),
        forall|i: int|
            0 <= i < s.len() ==> #[trigger] concurrent_deps(s, Seq::empty(), first)[i] == Seq::<
                int,
            >::empty(),
    decreases s.len(),
{
    if s.len() > 0 {
        assert(s[s.len() - 1] is Operation);
        let p = s.drop_last();
        lemma_plain_concurrent_deps(p, first);
        let n = seq_leaves(p).len() as int;
        let e = Seq::<int>::empty();
        assert(concurrent_deps(s, e, first) == concurrent_deps(p, e, first) + op_deps(s.last(), e, first + n));
        assert(op_deps(s.last(), e, first + n) == seq![e]);
    }
}

/// A batch whose slots are all plain operations in its chain runs them in
/// insertion order: the operation at chain position `i` has id `i`, so its
/// statistic comes at that place, and it waits for every operation before it.
pub proof fn lemma_chain_in_order<L>(b: Batch<L>)
    requires
        b.concurrent@.len() == 0,
        all_plain(b.chain@),
    ensures
        batch_leaves(b) == plain_ops(b.chain@),
        batch_deps(b, Seq::empty(), 0).len() == b.chain@.len(),
        forall|i: int|
            0 <= i < b.chain@.len() ==> #[trigger] batch_deps(b, Seq::empty(), 0)[i] == id_range(0, i),
{
    lemma_plain_leaves(b.chain@);
    lemma_plain_chain_deps(b.chain@, 0);
    assert(seq_leaves(b.concurrent@) =~= Seq::<L>::empty());
    assert(batch_leaves(b) =~= plain_ops(b.chain@));
    assert(concurrent_deps(b.concurrent@, Seq::empty(), b.chain@.len() as int) =~= Seq::empty());
    assert(batch_deps(b, Seq::empty(), 0) =~= chain_deps(b.chain@, Seq::empty(), 0));
}

/// A batch whose slots are all plain operations in its concurrent group
/// starts them all at once: none waits for another, and each has one id, so
/// each reports its statistic exactly once.
pub proof fn lemma_concurrent_at_once<L>(b: Batch<L>)
    requires
        b.chain@.len() == 0,
        all_plain(b.concurrent@),
    ensures
        batch_leaves(b) == plain_ops(b.concurrent@),
        batch_deps(b, Seq::empty(), 0).len() == b.concurrent@.len(),
        forall|i: int|
            0 <= i < b.concurrent@.len() ==> #[trigger] batch_deps(b, Seq::empty(), 0)[i] == Seq::<
                int,
            >::empty(),
{
    lemma_plain_leaves(b.concurrent@);
    lemma_plain_concurrent_deps(b.concurrent@, 0);
    assert(seq_leaves(b.chain@) =~= Seq::<L>::empty());
    assert(batch_leaves(b) =~= plain_ops(b.concurrent@));
    assert(chain_deps(b.chain@, Seq::empty(), 0) =~= Seq::empty());
    assert(batch_deps(b, Seq::empty(), 0) =~= concurrent_deps(b.concurrent@, Seq::empty(), 0));
}

/// An empty batch has no operation to run.
pub proof fn lemma_empty_batch<L>(b: Batch<L>)
    requires
        b.chain@.len() == 0,
        b.concurrent@.len() == 0,
    ensures
        batch_leaves(b).len() == 0,
{
    assert(seq_leaves(b.chain@) =~= Seq::<L>::empty());
    assert(seq_leaves(b.concurrent@) =~= Seq::<L>::empty());
}

} // verus!


