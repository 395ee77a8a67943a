use vstd::prelude::*;
use crate::aggregators::{
    count_step,
    CallCounter, CountView, GasUsage, SampleView, StorageUsage, calls_after_one, count_report,
    gas_after_one, gas_report, storage_after_one, storage_report,
};
use crate::statistic::Statistic;
use crate::table::{all_printable, index_of, is_printable, lemma_index_of_push, printable};

verus! {

/// The state of one aggregator, by kind.
pub enum ConsumerView {
    Calls(CountView),
    Gas(SampleView),
    Storage(SampleView),
}

/// What an aggregator makes of one statistic.
pub open spec fn after_one(v: ConsumerView, s: Statistic) -> ConsumerView {
    match v {
        ConsumerView::Calls(c) => ConsumerView::Calls(calls_after_one(c, s)),
        ConsumerView::Gas(g) => ConsumerView::Gas(gas_after_one(g, s)),
        ConsumerView::Storage(t) => ConsumerView::Storage(storage_after_one(t, s)),
    }
}

/// What an aggregator makes of a list of statistics, taken in order.
pub open spec fn after_all(v: ConsumerView, stats: Seq<Statistic>) -> ConsumerView
    decreases stats.len(),
{
    if stats.len() == 0 {
        v
    } else {
        after_one(after_all(v, stats.drop_last()), stats.last())
    }
}

/// The report of an aggregator state.
pub open spec fn report_of(v: ConsumerView) -> Seq<char> {
    match v {
        ConsumerView::Calls(c) => count_report(c),
        ConsumerView::Gas(g) => gas_report(g),
        ConsumerView::Storage(t) => storage_report(t),
    }
}

/// The reports of several aggregator states, one after another.
pub open spec fn reports_of(views: Seq<ConsumerView>) -> Seq<char>
    decreases views.len(),
{
    if views.len() == 0 {
        Seq::empty()
    } else {
        reports_of(views.drop_last()) + report_of(views.last())
    }
}

/// Whether every name that an aggregator state holds can be laid out in a report.
pub open spec fn view_printable(v: ConsumerView) -> bool {
    match v {
        ConsumerView::Calls(c) => all_printable(c.0),
        ConsumerView::Gas(g) => all_printable(g.0),
        ConsumerView::Storage(t) => all_printable(t.0),
    }
}

/// Whether every statistic's operation name can be laid out in a report.
pub open spec fn stats_printable(stats: Seq<Statistic>) -> bool {
    forall|i: int| 0 <= i < stats.len() ==> printable((#[trigger] stats[i]).func_name@)
}

proof fn lemma_after_all_printable(v: ConsumerView, stats: Seq<Statistic>)
    requires
        view_printable(v),
        stats_printable(stats),
    ensures
        view_printable(after_all(v, stats)),
    decreases stats.len(),
{
    if stats.len() > 0 {
        let p = stats.drop_last();
        assert(stats_printable(p)) by {
            assert forall|i: int| 0 <= i < p.len() implies printable((#[trigger] p[i]).func_name@) by {
                assert(p[i] == stats[i]);
            }
        }
        lemma_after_all_printable(v, p);
        assert(printable(stats[stats.len() - 1].func_name@));
        let w = after_all(v, p);
        let n = stats.last().func_name@;
        let names = match w {
            ConsumerView::Calls(c) => c.0,
            ConsumerView::Gas(g) => g.0,
            ConsumerView::Storage(t) => t.0,
        };
        let r = after_all(v, stats);
        let rn = match r {
            ConsumerView::Calls(c) => c.0,
            ConsumerView::Gas(g) => g.0,
            ConsumerView::Storage(t) => t.0,
        };
        assert(rn == names || rn == names.push(n));
        assert forall|i: int| 0 <= i < rn.len() implies printable(#[trigger] rn[i]) by {
            if i < names.len() {
                assert(rn[i] == names[i]);
            }
        }
    }
}

/// Distribution by aggregator: each aggregator takes all statistics in
/// order before the next one starts.
pub open spec fn by_aggregator(views: Seq<ConsumerView>, stats: Seq<Statistic>) -> Seq<ConsumerView> {
    views.map_values(|v: ConsumerView| after_all(v, stats))
}

/// Distribution by statistic: each statistic goes to every aggregator before
/// the next statistic is taken.
pub open spec fn by_metric(views: Seq<ConsumerView>, stats: Seq<Statistic>) -> Seq<ConsumerView>
    decreases stats.len(),
{
    if stats.len() == 0 {
        views
    } else {
        by_metric(views, stats.drop_last()).map_values(|v: ConsumerView| after_one(v, stats.last()))
    }
}

/// Both distribution orders leave every aggregator in the same state, so its
/// report is the same too.
pub proof fn lemma_topologies_agree(views: Seq<ConsumerView>, stats: Seq<Statistic>)
    ensures
        by_aggregator(views, stats) == by_metric(views, stats),
        forall|i: int|
            0 <= i < views.len() ==> report_of(#[trigger] by_aggregator(views, stats)[i]) == report_of(
                by_metric(views, stats)[i],
            ),
    decreases stats.len(),
{
    if stats.len() > 0 {
        lemma_topologies_agree(views, stats.drop_last());
    }
    assert(by_aggregator(views, stats) =~= by_metric(views, stats));
}

/// The number of statistics of operation `name`.
pub open spec fn occurrences(stats: Seq<Statistic>, name: Seq<char>) -> nat
    decreases stats.len(),
{
    if stats.len() == 0 {
        0
    } else {
        occurrences(stats.drop_last(), name) + if stats.last().func_name@ == name {
            1nat
        } else {
            0nat
        }
    }
}

/// The facts that a call count state keeps from `v` after `stats`.
pub open spec fn counts_follow(v: CountView, w: CountView, stats: Seq<Statistic>, x: Seq<char>) -> bool {
    let i0 = index_of(v.0, x);
    let i = index_of(w.0, x);
    &&& i0 >= 0 ==> i == i0 && w.1[i] == v.1[i0] + occurrences(stats, x)
    &&& i0 < 0 ==> (occurrences(stats, x) == 0 <==> i == -1)
    &&& i0 < 0 && i >= 0 ==> w.1[i] == occurrences(stats, x)
}

proof fn lemma_counts_after(v: CountView, stats: Seq<Statistic>, bound: int)
    requires
        v.0.len() == v.1.len(),
        forall|j: int| 0 <= j < v.1.len() ==> 0 <= #[trigger] v.1[j] <= bound,
        0 <= bound,
        bound + stats.len() < u64::MAX,
    ensures
        after_all(ConsumerView::Calls(v), stats) is Calls,
        ({
            let w = after_all(ConsumerView::Calls(v), stats)->Calls_0;
            &&& w.0.len() == w.1.len()
            &&& forall|j: int| 0 <= j < w.1.len() ==> 0 <= #[trigger] w.1[j] <= bound + stats.len()
            &&& forall|x: Seq<char>| #![trigger index_of(w.0, x)] counts_follow(v, w, stats, x)
        }),
    decreases stats.len(),
{
    let e = ConsumerView::Calls(v);
    if stats.len() > 0 {
        let p = stats.drop_last();
        lemma_counts_after(v, p, bound);
        assert(after_all(e, stats) == after_one(after_all(e, p), stats.last()));
        let pv = after_all(e, p)->Calls_0;
        let n = stats.last().func_name@;
        let w = after_all(e, stats)->Calls_0;
        assert(w == count_step(pv, n));
        lemma_index_of_push(pv.0, n, n);
        assert(w.0.len() == w.1.len());
        assert forall|j: int| 0 <= j < w.1.len() implies 0 <= #[trigger] w.1[j] <= bound + stats.len() by {
            let k = index_of(pv.0, n);
            if j < pv.1.len() {
                assert(0 <= pv.1[j] <= bound + p.len());
                if j == k {
                    assert(w.1[j] <= pv.1[j] + 1);
                } else {
                    assert(w.1[j] == pv.1[j]);
                }
            } else {
                assert(w.1[j] == 1);
            }
        }
        assert forall|x: Seq<char>| #![trigger index_of(w.0, x)] counts_follow(v, w, stats, x) by {
            lemma_index_of_push(pv.0, n, x);
            lemma_index_of_push(v.0, n, x);
            let pi = index_of(pv.0, x);
            assert(pi == index_of(pv.0, x));
            assert(counts_follow(v, pv, p, x));
            if pi >= 0 {
                assert(0 <= pv.1[pi] <= bound + p.len());
            }
            if n != x {
                assert(occurrences(stats, x) == occurrences(p, x));
            }
        }
    } else {
        let w = after_all(e, stats)->Calls_0;
        assert(w == v);
        assert forall|x: Seq<char>| #![trigger index_of(w.0, x)] counts_follow(v, w, stats, x) by {
            lemma_index_of_push(v.0, Seq::empty(), x);
        }
    }
}

/// A call counter counts, for every name, exactly the statistics of that name
/// among those it took, whatever their order. A name it already held gains
/// that many; a name it did not hold gets that count, or no entry when none
/// came; names that did not come keep their counts. This holds while no count
/// reaches the largest `u64`.
pub proof fn lemma_counts_exact(v: CountView, stats: Seq<Statistic>, bound: int, name: Seq<char>)
    requires
        v.0.len() == v.1.len(),
        forall|j: int| 0 <= j < v.1.len() ==> 0 <= #[trigger] v.1[j] <= bound,
        0 <= bound,
        bound + stats.len() < u64::MAX,
    ensures
        after_all(ConsumerView::Calls(v), stats) is Calls,
        counts_follow(v, after_all(ConsumerView::Calls(v), stats)->Calls_0, stats, name),
{
    lemma_counts_after(v, stats, bound);
    let w = after_all(ConsumerView::Calls(v), stats)->Calls_0;
    assert(counts_follow(v, w, stats, name)) by {
        let _i = index_of(w.0, name);
    }
}

/// An aggregator of one of the three kinds.
pub enum StatisticConsumer {
    CallCounter(CallCounter),
    GasUsage(GasUsage),
    StorageUsage(StorageUsage),
}

impl StatisticConsumer {
    pub open spec fn view(&self) -> ConsumerView {
        match self {
            StatisticConsumer::CallCounter(c) => ConsumerView::Calls(c.view()),
            StatisticConsumer::GasUsage(g) => ConsumerView::Gas(g.view()),
            StatisticConsumer::StorageUsage(s) => ConsumerView::Storage(s.view()),
        }
    }

    pub open spec fn wf(&self) -> bool {
        match self {
            StatisticConsumer::CallCounter(c) => c.wf(),
            StatisticConsumer::GasUsage(g) => g.wf(),
            StatisticConsumer::StorageUsage(s) => s.wf(),
        }
    }

    /// Folds one statistic into the aggregator.
    pub fn consume_statistic(&mut self, stat: &Statistic)
        requires
            old(self).wf(),
        ensures
            final(self).wf(),
            final(self).view() == after_one(old(self).view(), *stat),
    {
        match self {
            StatisticConsumer::CallCounter(c) => c.consume_statistic(stat),
            StatisticConsumer::GasUsage(g) => g.consume_statistic(stat),
            StatisticConsumer::StorageUsage(s) => s.consume_statistic(stat),
        }
    }

    /// Forgets everything the aggregator has taken.
    pub fn clean_statistic(&mut self)
        ensures
            final(self).wf(),
            final(self).view() == match old(self).view() {
                ConsumerView::Calls(_) => ConsumerView::Calls(
                    (Seq::<Seq<char>>::empty(), Seq::<int>::empty()),
                ),
                ConsumerView::Gas(_) => ConsumerView::Gas(
                    (Seq::<Seq<char>>::empty(), Seq::<Seq<int>>::empty()),
                ),
                ConsumerView::Storage(_) => ConsumerView::Storage(
                    (Seq::<Seq<char>>::empty(), Seq::<Seq<int>>::empty()),
                ),
            },
    {
        match self {
            StatisticConsumer::CallCounter(c) => c.clean_statistic(),
            StatisticConsumer::GasUsage(g) => g.clean_statistic(),
            StatisticConsumer::StorageUsage(s) => s.clean_statistic(),
        }
    }

    /// Whether every name the aggregator holds can be laid out in its report.
    pub fn names_printable(&self) -> (r: bool)
        ensures
            r == view_printable(self.view()),
    {
        match self {
            StatisticConsumer::CallCounter(c) => c.names_printable(),
            StatisticConsumer::GasUsage(g) => g.names_printable(),
            StatisticConsumer::StorageUsage(s) => s.names_printable(),
        }
    }

    /// The aggregator's report.
    pub fn make_report(&self) -> (r: String)
        requires
            self.wf(),
            view_printable(self.view()),
        ensures
            r@ == report_of(self.view()),
    {
        match self {
            StatisticConsumer::CallCounter(c) => c.make_report(),
            StatisticConsumer::GasUsage(g) => g.make_report(),
            StatisticConsumer::StorageUsage(s) => s.make_report(),
        }
    }
}

/// The states of a list of aggregators.
pub open spec fn views_of(consumers: Seq<StatisticConsumer>) -> Seq<ConsumerView> {
    consumers.map_values(|c: StatisticConsumer| c.view())
}

/// Whether every aggregator of the list is well formed.
pub open spec fn all_wf(consumers: Seq<StatisticConsumer>) -> bool {
    forall|i: int| 0 <= i < consumers.len() ==> #[trigger] consumers[i].wf()
}

/// Offers every statistic, in order, to aggregator `i`.
fn feed_one(stats: &Vec<Statistic>, consumers: &mut Vec<StatisticConsumer>, i: usize)
    requires
        all_wf(old(consumers)@),
        i < old(consumers)@.len(),
    ensures
        all_wf(final(consumers)@),
        final(consumers)@ .len() == old(consumers)@.len(),
        forall|j: int|
            0 <= j < old(consumers)@.len() && j != i ==> #[trigger] final(consumers)@[j] == old(
                consumers,
            )@[j],
        final(consumers)@[i as int].view() == after_all(old(consumers)@[i as int].view(), stats@),
{
    let ghost c0 = consumers@;
    let mut c = consumers.remove(i);
    let ghost v0 = c.view();
    let mut k: usize = 0;
    while k < stats.len()
        invariant
            k <= stats@.len(),
            c.wf(),
            c.view() == after_all(v0, stats@.subrange(0, k as int)),
        decreases stats@.len() - k,
    {
        c.consume_statistic(&stats[k]);
        assert(stats@.subrange(0, k + 1).drop_last() =~= stats@.subrange(0, k as int));
        k = k + 1;
    }
    assert(stats@.subrange(0, k as int) =~= stats@);
    consumers.insert(i, c);
    assert forall|j: int| 0 <= j < consumers@.len() implies #[trigger] consumers@[j].wf() by {
        if j != i {
            assert(consumers@[j] == c0[j]);
        }
    }
}

/// Distribution by aggregator: each aggregator takes every statistic, in
/// order, before the next aggregator is served.
pub fn populate_statistic(stats: &Vec<Statistic>, consumers: &mut Vec<StatisticConsumer>)
    requires
        all_wf(old(consumers)@),
    ensures
        all_wf(final(consumers)@),
        views_of(final(consumers)@) == by_aggregator(views_of(old(consumers)@), stats@),
{
    let ghost c0 = consumers@;
    let mut i: usize = 0;
    while i < consumers.len()
        invariant
            i <= consumers@.len(),
            consumers@.len() == c0.len(),
            all_wf(consumers@),
            forall|j: int| 0 <= j < i ==> (#[trigger] consumers@[j]).view() == after_all(c0[j].view(), stats@),
            forall|j: int| i <= j < c0.len() ==> #[trigger] consumers@[j] == c0[j],
        decreases c0.len() - i,
    {
        feed_one(stats, consumers, i);
        i = i + 1;
    }
    assert(views_of(consumers@) =~= by_aggregator(views_of(c0), stats@));
}

/// Distribution by statistic: each statistic goes to every aggregator, in
/// the aggregators' order, before the next statistic is taken.
pub fn populate_statistic_by_metric(stats: &Vec<Statistic>, consumers: &mut Vec<StatisticConsumer>)
    requires
        all_wf(old(consumers)@),
    ensures
        all_wf(final(consumers)@),
        views_of(final(consumers)@) == by_metric(views_of(old(consumers)@), stats@),
{
    let ghost c0 = consumers@;
    let mut k: usize = 0;
    while k < stats.len()
        invariant
            k <= stats@.len(),
            consumers@.len() == c0.len(),
            all_wf(consumers@),
            views_of(consumers@) == by_metric(views_of(c0), stats@.subrange(0, k as int)),
        decreases stats@.len() - k,
    {
        let ghost before = views_of(consumers@);
        let mut i: usize = 0;
        while i < consumers.len()
            invariant
                i <= consumers@.len(),
                consumers@.len() == c0.len(),
                k < stats@.len(),
                all_wf(consumers@),
                before.len() == c0.len(),
                forall|j: int| 0 <= j < i ==> (#[trigger] consumers@[j]).view() == after_one(before[j], stats@[k as int]),
                forall|j: int| i <= j < c0.len() ==> (#[trigger] consumers@[j]).view() == before[j],
            decreases c0.len() - i,
        {
            let ghost cs = consumers@;
            let mut c = consumers.remove(i);
            c.consume_statistic(&stats[k]);
            consumers.insert(i, c);
            assert forall|j: int| 0 <= j < consumers@.len() implies #[trigger] consumers@[j].wf() by {
                if j != i {
                    assert(consumers@[j] == cs[j]);
                }
            }
            assert forall|j: int| 0 <= j < c0.len() && j != i implies #[trigger] consumers@[j] == cs[j] by {}
            i = i + 1;
        }
        let ghost pre = stats@.subrange(0, k as int);
        let ghost next = stats@.subrange(0, k + 1);
        assert(next.drop_last() =~= pre);
        assert(views_of(consumers@) =~= by_metric(views_of(c0), next));
        k = k + 1;
    }
    assert(stats@.subrange(0, k as int) =~= stats@);
}

/// Whether every statistic's operation name can be laid out in a report.
pub fn statistics_printable(stats: &Vec<Statistic>) -> (r: bool)
    ensures
        r == stats_printable(stats@),
{
    let mut i: usize = 0;
    while i < stats.len()
        invariant
            i <= stats@.len(),
            forall|j: int| 0 <= j < i ==> printable((#[trigger] stats@[j]).func_name@),
        decreases stats@.len() - i,
    {
        if !is_printable(&stats[i].func_name) {
            return false;
        }
        i = i + 1;
    }
    true
}

/// Distributes the statistics by aggregator, then returns the reports of all
/// aggregators, one after another.
pub fn process_statistic(stats: &Vec<Statistic>, consumers: &mut Vec<StatisticConsumer>) -> (r: String)
    requires
        all_wf(old(consumers)@),
        forall|i: int| 0 <= i < old(consumers)@.len() ==> view_printable(#[trigger] old(consumers)@[i].view()),
        stats_printable(stats@),
    ensures
        all_wf(final(consumers)@),
        views_of(final(consumers)@) == by_aggregator(views_of(old(consumers)@), stats@),
        r@ == reports_of(views_of(final(consumers)@)),
{
    let ghost c0 = consumers@;
    populate_statistic(stats, consumers);
    assert(views_of(consumers@).len() == consumers@.len());
    assert(by_aggregator(views_of(c0), stats@).len() == c0.len());
    assert forall|i: int| 0 <= i < consumers@.len() implies view_printable(#[trigger] consumers@[i].view()) by {
        assert(views_of(consumers@)[i] == by_aggregator(views_of(c0), stats@)[i]);
        assert(c0[i] == old(consumers)@[i]);
        assert(view_printable(old(consumers)@[i].view()));
        lemma_after_all_printable(c0[i].view(), stats@);
    }
    let mut out = String::new();
    let mut i: usize = 0;
    while i < consumers.len()
        invariant
            i <= consumers@.len(),
            all_wf(consumers@),
            forall|j: int| 0 <= j < consumers@.len() ==> view_printable(#[trigger] consumers@[j].view()),
            out@ == reports_of(views_of(consumers@).subrange(0, i as int)),
        decreases consumers@.len() - i,
    {
        let report = consumers[i].make_report();
        out.append(report.as_str());
        assert(views_of(consumers@).subrange(0, i + 1).drop_last() =~= views_of(consumers@).subrange(0, i as int));
        i = i + 1;
    }
    assert(views_of(consumers@).subrange(0, i as int) =~= views_of(consumers@));
    out
}

} // verus!
