use vstd::prelude::*;
use vstd::relations::{sorted_by, total_ordering};
use vstd::seq_lib::lemma_sorted_unique;

verus! {

broadcast use vstd::seq_lib::group_to_multiset_ensures;

/// The values of a list, as integers.
pub open spec fn int_seq(v: Seq<i128>) -> Seq<int> {
    v.map_values(|x: i128| x as int)
}

/// The order of integers.
pub open spec fn int_leq() -> spec_fn(int, int) -> bool {
    |a: int, b: int| a <= b
}

/// The values in ascending order.
pub open spec fn ascending(s: Seq<int>) -> Seq<int> {
    s.sort_by(int_leq())
}

/// Half of `x`, rounded toward zero.
pub open spec fn half_toward_zero(x: int) -> int {
    if x >= 0 {
        x / 2
    } else {
        -((-x) / 2)
    }
}

/// The smallest value, or 0 when there is none.
pub open spec fn min_of(s: Seq<int>) -> int {
    if s.len() == 0 {
        0
    } else {
        ascending(s)[0]
    }
}

/// The largest value, or 0 when there is none.
pub open spec fn max_of(s: Seq<int>) -> int {
    if s.len() == 0 {
        0
    } else {
        ascending(s).last()
    }
}

/// The middle value; for an even count, the mean of the two middle values,
/// rounded toward zero; 0 when there is none.
pub open spec fn median_of(s: Seq<int>) -> int {
    let a = ascending(s);
    let mid = s.len() as int / 2;
    if s.len() == 0 {
        0
    } else if s.len() % 2 == 0 {
        half_toward_zero(a[mid - 1] + a[mid])
    } else {
        a[mid]
    }
}

proof fn lemma_int_leq_total()
    ensures
        total_ordering(int_leq()),
{
}

/// The values of `v` in ascending order.
fn sort_ascending(v: &Vec<i128>) -> (r: Vec<i128>)
    ensures
        int_seq(r@) == ascending(int_seq(v@)),
{
    let ghost leq = int_leq();
    let mut r: Vec<i128> = Vec::new();
    let mut i: usize = 0;
    while i < v.len()
        invariant
            i <= v.len(),
            leq == int_leq(),
            sorted_by(int_seq(r@), leq),
            int_seq(r@).to_multiset() == int_seq(v@.subrange(0, i as int)).to_multiset(),
        decreases v.len() - i,
    {
        let x = v[i];
        let mut p: usize = 0;
        while p < r.len() && r[p] <= x
            invariant
                p <= r.len(),
                forall|q: int| 0 <= q < p ==> r@[q] <= x,
            decreases r.len() - p,
        {
            p = p + 1;
        }
        let ghost before = r@;
        r.insert(p, x);
        proof {
            assert(int_seq(r@) =~= int_seq(before).insert(p as int, x as int));
            assert(int_seq(v@.subrange(0, i + 1)) =~= int_seq(v@.subrange(0, i as int)).push(
                x as int,
            ));
            let sb = int_seq(before);
            let sr = int_seq(r@);
            assert(p == before.len() || before[p as int] > x);
            assert forall|k: int| p <= k < before.len() implies before[k] > x by {
                if k > p {
                    assert(leq(sb[p as int], sb[k]));
                }
            }
            assert forall|k: int| 0 <= k < r@.len() implies #[trigger] sr[k] == if k < p {
                sb[k]
            } else if k == p {
                x as int
            } else {
                sb[k - 1]
            } by {}
            assert forall|a: int, b: int| 0 <= a < b < r@.len() implies #[trigger] leq(
                sr[a],
                sr[b],
            ) by {
                if b < p {
                    assert(leq(sb[a], sb[b]));
                } else if a > p {
                    assert(leq(sb[a - 1], sb[b - 1]));
                } else if a < p && b > p {
                    assert(sb[a] <= x);
                    assert(sb[b - 1] > x);
                }
            }
        }
        i = i + 1;
    }
    proof {
        assert(v@.subrange(0, v.len() as int) =~= v@);
        lemma_int_leq_total();
        int_seq(v@).lemma_sort_by_ensures(leq);
        lemma_sorted_unique(int_seq(r@), ascending(int_seq(v@)), leq);
    }
    r
}

/// Every value of the ascending order is a value of the list, and it has as
/// many values.
proof fn lemma_ascending_values(s: Seq<int>)
    ensures
        ascending(s).len() == s.len(),
        sorted_by(ascending(s), int_leq()),
        forall|i: int| 0 <= i < s.len() ==> s.contains(#[trigger] ascending(s)[i]),
{
    lemma_int_leq_total();
    s.lemma_sort_by_ensures(int_leq());
    assert(ascending(s).to_multiset().len() == s.to_multiset().len());
    assert forall|i: int| 0 <= i < s.len() implies s.contains(#[trigger] ascending(s)[i]) by {
        assert(ascending(s).contains(ascending(s)[i]));
    }
}

/// For any non-empty set of observed values: min <= median <= max.
pub proof fn lemma_median_between(s: Seq<int>)
    requires
        s.len() > 0,
    ensures
        min_of(s) <= median_of(s) <= max_of(s),
{
    lemma_ascending_values(s);
    let a = ascending(s);
    let mid = s.len() as int / 2;
    let n = s.len() as int;
    if n > 1 {
        assert(int_leq()(a[0], a[mid - 1]) || mid - 1 == 0);
        assert(int_leq()(a[mid - 1], a[mid]));
        assert(int_leq()(a[mid], a[n - 1]) || mid == n - 1);
        assert(int_leq()(a[0], a[mid]));
    }
}

/// The least, middle and greatest of the values, by the rules of `min_of`,
/// `median_of` and `max_of`.
pub(crate) fn summarize(values: &Vec<i128>) -> (r: (i128, i128, i128))
    requires
        forall|i: int| 0 <= i < values@.len() ==> -0x1_0000_0000_0000_0000 <= #[trigger] values@[i]
            <= 0x1_0000_0000_0000_0000,
    ensures
        r.0 == min_of(int_seq(values@)),
        r.1 == median_of(int_seq(values@)),
        r.2 == max_of(int_seq(values@)),
{
    let a = sort_ascending(values);
    let ghost s = int_seq(values@);
    proof {
        lemma_ascending_values(s);
        assert forall|i: int| 0 <= i < a@.len() implies -0x1_0000_0000_0000_0000 <= #[trigger] a@[i]
            <= 0x1_0000_0000_0000_0000 by {
            assert(int_seq(a@)[i] == a@[i] as int);
            assert(s.contains(ascending(s)[i]));
        }
    }
    let n = a.len();
    if n == 0 {
        return (0, 0, 0);
    }
    let mid = n / 2;
    assert(int_seq(a@)[mid as int] == a@[mid as int] as int);
    assert(int_seq(a@)[0] == a@[0] as int);
    assert(int_seq(a@)[n - 1] == a@[n - 1] as int);
    let median = if n % 2 == 0 {
        assert(int_seq(a@)[mid - 1] == a@[mid - 1] as int);
        let sum = a[mid - 1] + a[mid];
        if sum >= 0 {
            sum / 2
        } else {
            -((-sum) / 2)
        }
    } else {
        a[mid]
    };
    (a[0], median, a[n - 1])
}

/// The storage changes observed for one operation.
pub struct OperationStorageUsage {
    pub values: Vec<i64>,
}

/// The least, middle and greatest storage change of one operation.
pub struct OperationStorageStatistic {
    pub min: i64,
    pub max: i64,
    pub median: i64,
}

/// The gas amounts observed for one operation.
pub struct OperationGasUsage {
    pub values: Vec<u64>,
}

/// The least, middle and greatest gas amount of one operation.
pub struct OperationGasStatistic {
    pub min: u64,
    pub max: u64,
    pub median: u64,
}

pub open spec fn i64_ints(v: Seq<i64>) -> Seq<int> {
    v.map_values(|x: i64| x as int)
}

pub open spec fn u64_ints(v: Seq<u64>) -> Seq<int> {
    v.map_values(|x: u64| x as int)
}

/// Every value of `s` lies within `lo..=hi`, and so do its minimum, median and maximum.
proof fn lemma_summary_within(s: Seq<int>, lo: int, hi: int)
    requires
        lo <= 0 <= hi,
        forall|i: int| 0 <= i < s.len() ==> lo <= #[trigger] s[i] <= hi,
    ensures
        lo <= min_of(s) <= hi,
        lo <= median_of(s) <= hi,
        lo <= max_of(s) <= hi,
{
    if s.len() > 0 {
        lemma_ascending_values(s);
        lemma_median_between(s);
        let a = ascending(s);
        assert(s.contains(a[0]));
        assert(s.contains(a[s.len() - 1]));
    }
}

impl OperationStorageStatistic {
    /// The statistic of the observed storage changes.
    pub fn from_usage(usage: &OperationStorageUsage) -> (r: Self)
        ensures
            r.min == min_of(i64_ints(usage.values@)),
            r.median == median_of(i64_ints(usage.values@)),
            r.max == max_of(i64_ints(usage.values@)),
            usage.values@.len() > 0 ==> r.min <= r.median <= r.max,
    {
        let mut wide: Vec<i128> = Vec::new();
        let mut i: usize = 0;
        while i < usage.values.len()
            invariant
                i <= usage.values@.len(),
                wide@.len() == i,
                forall|k: int| 0 <= k < i ==> #[trigger] wide@[k] == usage.values@[k] as i128,
                forall|k: int| 0 <= k < wide@.len() ==> i64::MIN <= #[trigger] wide@[k] <= i64::MAX,
            decreases usage.values@.len() - i,
        {
            wide.push(usage.values[i] as i128);
            i = i + 1;
        }
        assert(int_seq(wide@) =~= i64_ints(usage.values@));
        let (lo, mid, hi) = summarize(&wide);
        proof {
            if usage.values@.len() > 0 {
                lemma_median_between(i64_ints(usage.values@));
            }
            lemma_summary_within(int_seq(wide@), i64::MIN as int, i64::MAX as int);
        }
        OperationStorageStatistic { min: lo as i64, max: hi as i64, median: mid as i64 }
    }
}

impl OperationGasStatistic {
    /// The statistic of the observed gas amounts.
    pub fn from_usage(usage: &OperationGasUsage) -> (r: Self)
        ensures
            r.min == min_of(u64_ints(usage.values@)),
            r.median == median_of(u64_ints(usage.values@)),
            r.max == max_of(u64_ints(usage.values@)),
            usage.values@.len() > 0 ==> r.min <= r.median <= r.max,
    {
        let mut wide: Vec<i128> = Vec::new();
        let mut i: usize = 0;
        while i < usage.values.len()
            invariant
                i <= usage.values@.len(),
                wide@.len() == i,
                forall|k: int| 0 <= k < i ==> #[trigger] wide@[k] == usage.values@[k] as i128,
                forall|k: int| 0 <= k < wide@.len() ==> 0 <= #[trigger] wide@[k] <= u64::MAX,
            decreases usage.values@.len() - i,
        {
            wide.push(usage.values[i] as i128);
            i = i + 1;
        }
        assert(int_seq(wide@) =~= u64_ints(usage.values@));
        let (lo, mid, hi) = summarize(&wide);
        proof {
            if usage.values@.len() > 0 {
                lemma_median_between(u64_ints(usage.values@));
            }
            lemma_summary_within(int_seq(wide@), 0, u64::MAX as int);
        }
        OperationGasStatistic { min: lo as u64, max: hi as u64, median: mid as u64 }
    }
}

} // verus!

