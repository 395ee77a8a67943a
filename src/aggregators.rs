use vstd::prelude::*;
use crate::mode_printer::ModePrinter;
use crate::statistic::{Statistic, TxResultDetails, gas_of};
use crate::summary::{
    OperationGasStatistic, OperationGasUsage, OperationStorageStatistic, OperationStorageUsage, int_seq, i64_ints, max_of, median_of, min_of,
    summarize, u64_ints,
};
use crate::table::{
    all_printable, find_name, index_of, is_printable, printable, order_by_key, order_by_key_desc, render_table, rows_view, str_seq,
    table_text,
};

verus! {

/// Per-name call counts, in order of first appearance.
pub type CountView = (Seq<Seq<char>>, Seq<int>);

/// Per-name observed values, in order of first appearance of the name and,
/// for each name, in order of arrival.
pub type SampleView = (Seq<Seq<char>>, Seq<Seq<int>>);

/// One more call of `name`; a count stops at the largest `u64`.
pub open spec fn count_step(v: CountView, name: Seq<char>) -> CountView {
    let i = index_of(v.0, name);
    if i < 0 {
        (v.0.push(name), v.1.push(1))
    } else {
        (v.0, v.1.update(i, if v.1[i] < u64::MAX { v.1[i] + 1 } else { v.1[i] }))
    }
}

/// One more value `x` observed for `name`.
pub open spec fn sample_step(v: SampleView, name: Seq<char>, x: int) -> SampleView {
    let i = index_of(v.0, name);
    if i < 0 {
        (v.0.push(name), v.1.push(seq![x]))
    } else {
        (v.0, v.1.update(i, v.1[i].push(x)))
    }
}

/// What the call counter makes of one statistic.
pub open spec fn calls_after_one(v: CountView, s: Statistic) -> CountView {
    count_step(v, s.func_name@)
}

/// What the gas aggregator makes of one statistic: only calls that changed
/// state carry gas.
pub open spec fn gas_after_one(v: SampleView, s: Statistic) -> SampleView {
    match gas_of(s) {
        Some(g) => sample_step(v, s.func_name@, g as int),
        None => v,
    }
}

/// What the storage aggregator makes of one statistic: only those with a
/// measured storage change count.
pub open spec fn storage_after_one(v: SampleView, s: Statistic) -> SampleView {
    match s.storage_usage {
        Some(d) => sample_step(v, s.func_name@, d as int),
        None => v,
    }
}

/// The rows of the call report: name and count, by descending count.
pub open spec fn count_rows(v: CountView) -> Seq<(Seq<char>, Seq<int>)> {
    order_by_key(v.1, v.1.len()).map_values(|i: int| (v.0[i], seq![v.1[i]]))
}

pub open spec fn medians(samples: Seq<Seq<int>>) -> Seq<int> {
    samples.map_values(|s: Seq<int>| median_of(s))
}

/// The rows of a sample report: name, count, min, median and max, by
/// descending median.
pub open spec fn sample_rows(v: SampleView) -> Seq<(Seq<char>, Seq<int>)> {
    order_by_key(medians(v.1), v.1.len()).map_values(
        |i: int|
            (v.0[i], seq![v.1[i].len() as int, min_of(v.1[i]), median_of(v.1[i]), max_of(v.1[i])]),
    )
}

pub open spec fn count_header() -> Seq<Seq<char>> {
    seq!["Function"@, "Count"@]
}

pub open spec fn sample_header() -> Seq<Seq<char>> {
    seq!["Function"@, "Count"@, "Min"@, "Median"@, "Max"@]
}

/// The call report of a state.
pub open spec fn count_report(v: CountView) -> Seq<char> {
    "Number of calls\n"@ + table_text(count_header(), count_rows(v))
}

/// The gas report of a state.
pub open spec fn gas_report(v: SampleView) -> Seq<char> {
    "Gas usage\n"@ + table_text(sample_header(), sample_rows(v))
}

/// The storage report of a state.
pub open spec fn storage_report(v: SampleView) -> Seq<char> {
    "Storage usage\n"@ + table_text(sample_header(), sample_rows(v))
}

proof fn lemma_headers_printable()
    ensures
        all_printable(count_header()),
        all_printable(sample_header()),
{
    reveal_strlit("Function");
    reveal_strlit("Count");
    reveal_strlit("Min");
    reveal_strlit("Median");
    reveal_strlit("Max");
    assert(printable("Function"@));
    assert(printable("Count"@));
    assert(printable("Min"@));
    assert(printable("Median"@));
    assert(printable("Max"@));
}

fn header_of(cells: &[&str]) -> (r: Vec<String>)
    ensures
        str_seq(r@) == cells@.map_values(|c: &str| c@),
{
    let mut r: Vec<String> = Vec::new();
    let mut i: usize = 0;
    while i < cells.len()
        invariant
            i <= cells@.len(),
            r@.len() == i,
            forall|k: int| 0 <= k < i ==> #[trigger] r@[k]@ == cells@[k]@,
        decreases cells@.len() - i,
    {
        r.push(String::from_str(cells[i]));
        i = i + 1;
    }
    assert(str_seq(r@) =~= cells@.map_values(|c: &str| c@));
    r
}

/// The table of per-name samples: name, count, min, median and max, by
/// descending median.
fn sample_table(names: &Vec<String>, samples: &Vec<Vec<i128>>) -> (r: String)
    requires
        names@.len() == samples@.len(),
        all_printable(str_seq(names@)),
        forall|i: int, j: int|
            0 <= i < samples@.len() && 0 <= j < samples@[i]@.len() ==> -0x1_0000_0000_0000_0000
                <= #[trigger] samples@[i]@[j] <= 0x1_0000_0000_0000_0000,
    ensures
        r@ == table_text(
            sample_header(),
            sample_rows((str_seq(names@), samples@.map_values(|s: Vec<i128>| int_seq(s@)))),
        ),
{
    let ghost v = (str_seq(names@), samples@.map_values(|s: Vec<i128>| int_seq(s@)));
    let mut keys: Vec<i128> = Vec::new();
    let mut stats: Vec<(i128, i128, i128)> = Vec::new();
    let mut i: usize = 0;
    while i < samples.len()
        invariant
            i <= samples@.len(),
            v == (str_seq(names@), samples@.map_values(|s: Vec<i128>| int_seq(s@))),
            names@.len() == samples@.len(),
            forall|a: int, j: int|
                0 <= a < samples@.len() && 0 <= j < samples@[a]@.len() ==> -0x1_0000_0000_0000_0000
                    <= #[trigger] samples@[a]@[j] <= 0x1_0000_0000_0000_0000,
            keys@.len() == i,
            stats@.len() == i,
            forall|k: int| 0 <= k < i ==> #[trigger] keys@[k] == median_of(v.1[k]),
            forall|k: int|
                0 <= k < i ==> (#[trigger] stats@[k]).0 == min_of(v.1[k]) && stats@[k].1 == median_of(
                    v.1[k],
                ) && stats@[k].2 == max_of(v.1[k]),
        decreases samples@.len() - i,
    {
        let s = summarize(&samples[i]);
        keys.push(s.1);
        stats.push(s);
        i = i + 1;
    }
    assert(keys@.map_values(|k: i128| k as int) =~= medians(v.1));
    let order = order_by_key_desc(&keys);
    let mut rows: Vec<(String, Vec<i128>)> = Vec::new();
    let mut k: usize = 0;
    let ghost ord = order@.map_values(|i: usize| i as int);
    while k < order.len()
        invariant
            k <= order@.len(),
            ord == order@.map_values(|i: usize| i as int),
            ord == order_by_key(medians(v.1), v.1.len()),
            forall|q: int| 0 <= q < order@.len() ==> #[trigger] order@[q] < keys@.len(),
            keys@.len() == samples@.len(),
            stats@.len() == samples@.len(),
            names@.len() == samples@.len(),
            v == (str_seq(names@), samples@.map_values(|s: Vec<i128>| int_seq(s@))),
            forall|q: int|
                0 <= q < samples@.len() ==> (#[trigger] stats@[q]).0 == min_of(v.1[q]) && stats@[q].1
                    == median_of(v.1[q]) && stats@[q].2 == max_of(v.1[q]),
            rows_view(rows@) =~= sample_rows(v).subrange(0, k as int),
                all_printable(str_seq(names@)),
                forall|q: int| 0 <= q < rows@.len() ==> printable((#[trigger] rows@[q]).0@),
        decreases order@.len() - k,
    {
        let idx = order[k];
        let s = stats[idx];
        let count = samples[idx].len() as i128;
        let nums: Vec<i128> = vec![count, s.0, s.1, s.2];
        let ghost before = rows_view(rows@);
        assert(printable(str_seq(names@)[idx as int]));
        rows.push((names[idx].clone(), nums));
        proof {
            assert(nums@.map_values(|x: i128| x as int) =~= seq![
                v.1[idx as int].len() as int,
                min_of(v.1[idx as int]),
                median_of(v.1[idx as int]),
                max_of(v.1[idx as int]),
            ]);
            assert(ord[k as int] == idx as int);
            assert(rows_view(rows@) =~= before.push(sample_rows(v)[k as int]));
        }
        k = k + 1;
    }
    assert(sample_rows(v).subrange(0, k as int) =~= sample_rows(v));
    let header = header_of(&["Function", "Count", "Min", "Median", "Max"]);
    assert(str_seq(header@) =~= sample_header());
    proof {
        lemma_headers_printable();
    }
    render_table(&header, &rows)
}

/// Counts the calls of each operation.
pub struct CallCounter {
    names: Vec<String>,
    counts: Vec<u64>,
    mode_printer: ModePrinter,
}

impl CallCounter {
    pub closed spec fn view(&self) -> CountView {
        (str_seq(self.names@), self.counts@.map_values(|c: u64| c as int))
    }

    pub closed spec fn wf(&self) -> bool {
        self.names@.len() == self.counts@.len()
    }

    pub closed spec fn printer(&self) -> ModePrinter {
        self.mode_printer
    }

    /// An empty counter that reports to `mode_printer`.
    pub fn new(mode_printer: ModePrinter) -> (r: Self)
        ensures
            r.wf(),
            r.view() == (Seq::<Seq<char>>::empty(), Seq::<int>::empty()),
            r.printer() == mode_printer,
    {
        let r = CallCounter { names: Vec::new(), counts: Vec::new(), mode_printer };
        assert(r.view().0 =~= Seq::<Seq<char>>::empty());
        assert(r.view().1 =~= Seq::<int>::empty());
        r
    }

    /// A well-formed state holds one entry per name.
    pub proof fn lemma_view_lengths(&self)
        requires
            self.wf(),
        ensures
            self.view().0.len() == self.view().1.len(),
    {
    }

    /// Whether every recorded name can be laid out in the report.
    pub fn names_printable(&self) -> (r: bool)
        ensures
            r == all_printable(self.view().0),
    {
        let mut i: usize = 0;
        while i < self.names.len()
            invariant
                i <= self.names@.len(),
                forall|j: int| 0 <= j < i ==> printable(#[trigger] str_seq(self.names@)[j]),
            decreases self.names@.len() - i,
        {
            if !is_printable(&self.names[i]) {
                assert(!printable(str_seq(self.names@)[i as int]));
                return false;
            }
            i = i + 1;
        }
        true
    }

    pub fn get_printer_mode(&self) -> (r: &ModePrinter)
        ensures
            *r == self.printer(),
    {
        &self.mode_printer
    }

    /// The number of calls counted for `name`, if any was.
    pub fn count_of(&self, name: &String) -> (r: Option<u64>)
        requires
            self.wf(),
        ensures
            match r {
                Some(c) => index_of(self.view().0, name@) >= 0 && c as int == self.view().1[index_of(
                    self.view().0,
                    name@,
                )],
                None => index_of(self.view().0, name@) == -1,
            },
    {
        match find_name(&self.names, name) {
            Some(i) => Some(self.counts[i]),
            None => None,
        }
    }

    /// Counts one more call of the statistic's operation.
    pub fn consume_statistic(&mut self, stat: &Statistic)
        requires
            old(self).wf(),
        ensures
            final(self).wf(),
            final(self).view().0.len() == final(self).view().1.len(),
            final(self).view() == calls_after_one(old(self).view(), *stat),
            final(self).printer() == old(self).printer(),
    {
        let ghost v = self.view();
        match find_name(&self.names, &stat.func_name) {
            Some(i) => {
                let c = self.counts[i];
                let next = if c < u64::MAX {
                    c + 1
                } else {
                    c
                };
                self.counts.set(i, next);
                assert(self.view().1 =~= v.1.update(
                    i as int,
                    if v.1[i as int] < u64::MAX {
                        v.1[i as int] + 1
                    } else {
                        v.1[i as int]
                    },
                ));
            },
            None => {
                self.names.push(stat.func_name.clone());
                self.counts.push(1);
                assert(self.view().0 =~= v.0.push(stat.func_name@));
                assert(self.view().1 =~= v.1.push(1));
            },
        }
    }

    /// Forgets all counts.
    pub fn clean_statistic(&mut self)
        ensures
            final(self).wf(),
            final(self).view() == (Seq::<Seq<char>>::empty(), Seq::<int>::empty()),
            final(self).printer() == old(self).printer(),
    {
        self.names = Vec::new();
        self.counts = Vec::new();
        assert(self.view().0 =~= Seq::<Seq<char>>::empty());
        assert(self.view().1 =~= Seq::<int>::empty());
    }

    /// The report: a title, then one row per operation with its count, by
    /// descending count.
    pub fn make_report(&self) -> (r: String)
        requires
            self.wf(),
            all_printable(self.view().0),
        ensures
            r@ == count_report(self.view()),
    {
        let ghost v = self.view();
        let mut keys: Vec<i128> = Vec::new();
        let mut i: usize = 0;
        while i < self.counts.len()
            invariant
                i <= self.counts@.len(),
                keys@.len() == i,
                forall|k: int| 0 <= k < i ==> #[trigger] keys@[k] == self.counts@[k] as i128,
            decreases self.counts@.len() - i,
        {
            keys.push(self.counts[i] as i128);
            i = i + 1;
        }
        assert(keys@.map_values(|k: i128| k as int) =~= v.1);
        let order = order_by_key_desc(&keys);
        let ghost ord = order@.map_values(|i: usize| i as int);
        let mut rows: Vec<(String, Vec<i128>)> = Vec::new();
        let mut k: usize = 0;
        while k < order.len()
            invariant
                k <= order@.len(),
                self.wf(),
                v == self.view(),
                keys@.len() == self.counts@.len(),
                ord == order@.map_values(|i: usize| i as int),
                ord == order_by_key(v.1, v.1.len()),
                forall|q: int| 0 <= q < order@.len() ==> #[trigger] order@[q] < keys@.len(),
                rows_view(rows@) =~= count_rows(v).subrange(0, k as int),
                all_printable(str_seq(self.names@)),
                forall|q: int| 0 <= q < rows@.len() ==> printable((#[trigger] rows@[q]).0@),
            decreases order@.len() - k,
        {
            let idx = order[k];
            let nums: Vec<i128> = vec![self.counts[idx] as i128];
            let ghost before = rows_view(rows@);
            assert(printable(str_seq(self.names@)[idx as int]));
            rows.push((self.names[idx].clone(), nums));
            proof {
                assert(nums@.map_values(|x: i128| x as int) =~= seq![v.1[idx as int]]);
                assert(ord[k as int] == idx as int);
                assert(rows_view(rows@) =~= before.push(count_rows(v)[k as int]));
            }
            k = k + 1;
        }
        assert(count_rows(v).subrange(0, k as int) =~= count_rows(v));
        let header = header_of(&["Function", "Count"]);
        assert(str_seq(header@) =~= count_header());
        proof {
            lemma_headers_printable();
        }
        let table = render_table(&header, &rows);
        let mut out = String::from_str("Number of calls\n");
        out.append(table.as_str());
        out
    }
}

/// Collects, per operation, the gas amounts that it reported.
pub struct GasUsage {
    names: Vec<String>,
    usages: Vec<OperationGasUsage>,
    mode_printer: ModePrinter,
}

impl GasUsage {
    pub closed spec fn view(&self) -> SampleView {
        (str_seq(self.names@), self.usages@.map_values(|u: OperationGasUsage| u64_ints(u.values@)))
    }

    pub closed spec fn wf(&self) -> bool {
        self.names@.len() == self.usages@.len()
    }

    pub closed spec fn printer(&self) -> ModePrinter {
        self.mode_printer
    }

    /// An empty aggregator that reports to `mode_printer`.
    pub fn new(mode_printer: ModePrinter) -> (r: Self)
        ensures
            r.wf(),
            r.view() == (Seq::<Seq<char>>::empty(), Seq::<Seq<int>>::empty()),
            r.printer() == mode_printer,
    {
        let r = GasUsage { names: Vec::new(), usages: Vec::new(), mode_printer };
        assert(r.view().0 =~= Seq::<Seq<char>>::empty());
        assert(r.view().1 =~= Seq::<Seq<int>>::empty());
        r
    }

    /// A well-formed state holds one entry per name.
    pub proof fn lemma_view_lengths(&self)
        requires
            self.wf(),
        ensures
            self.view().0.len() == self.view().1.len(),
    {
    }

    /// Whether every recorded name can be laid out in the report.
    pub fn names_printable(&self) -> (r: bool)
        ensures
            r == all_printable(self.view().0),
    {
        let mut i: usize = 0;
        while i < self.names.len()
            invariant
                i <= self.names@.len(),
                forall|j: int| 0 <= j < i ==> printable(#[trigger] str_seq(self.names@)[j]),
            decreases self.names@.len() - i,
        {
            if !is_printable(&self.names[i]) {
                assert(!printable(str_seq(self.names@)[i as int]));
                return false;
            }
            i = i + 1;
        }
        true
    }

    pub fn get_printer_mode(&self) -> (r: &ModePrinter)
        ensures
            *r == self.printer(),
    {
        &self.mode_printer
    }

    /// The least, middle and greatest value observed for `name`, if any was.
    pub fn statistic_of(&self, name: &String) -> (r: Option<OperationGasStatistic>)
        requires
            self.wf(),
        ensures
            match r {
                Some(s) => {
                    let i = index_of(self.view().0, name@);
                    &&& i >= 0
                    &&& s.min == min_of(self.view().1[i])
                    &&& s.median == median_of(self.view().1[i])
                    &&& s.max == max_of(self.view().1[i])
                },
                None => index_of(self.view().0, name@) == -1,
            },
    {
        match find_name(&self.names, name) {
            Some(i) => Some(OperationGasStatistic::from_usage(&self.usages[i])),
            None => None,
        }
    }

    fn add_value(&mut self, name: &String, x: u64)
        requires
            old(self).wf(),
        ensures
            final(self).wf(),
            final(self).view() == sample_step(old(self).view(), name@, x as int),
            final(self).printer() == old(self).printer(),
    {
        let ghost v = self.view();
        match find_name(&self.names, name) {
            Some(i) => {
                let mut u = self.usages.remove(i);
                let ghost before = u.values@;
                u.values.push(x);
                self.usages.insert(i, u);
                assert(u64_ints(u.values@) =~= u64_ints(before).push(x as int));
                assert(self.view().1 =~= v.1.update(i as int, v.1[i as int].push(x as int)));
            },
            None => {
                self.names.push(name.clone());
                let u = OperationGasUsage { values: vec![x] };
                self.usages.push(u);
                assert(u64_ints(u.values@) =~= seq![x as int]);
                assert(self.view().0 =~= v.0.push(name@));
                assert(self.view().1 =~= v.1.push(seq![x as int]));
            },
        }
    }

    /// Records the gas amounts of the statistic, if it carries one.
    pub fn consume_statistic(&mut self, stat: &Statistic)
        requires
            old(self).wf(),
        ensures
            final(self).wf(),
            final(self).view().0.len() == final(self).view().1.len(),
            final(self).view() == gas_after_one(old(self).view(), *stat),
            final(self).printer() == old(self).printer(),
    {
        match &stat.details {
            TxResultDetails::Call(c) => {
                self.add_value(&stat.func_name, c.gas);
            },
            TxResultDetails::View(_) => {},
        }
    }

    /// Forgets all observed values.
    pub fn clean_statistic(&mut self)
        ensures
            final(self).wf(),
            final(self).view() == (Seq::<Seq<char>>::empty(), Seq::<Seq<int>>::empty()),
            final(self).printer() == old(self).printer(),
    {
        self.names = Vec::new();
        self.usages = Vec::new();
        assert(self.view().0 =~= Seq::<Seq<char>>::empty());
        assert(self.view().1 =~= Seq::<Seq<int>>::empty());
    }

    /// The report: a title, then one row per operation with its count, min,
    /// median and max, by descending median.
    pub fn make_report(&self) -> (r: String)
        requires
            self.wf(),
            all_printable(self.view().0),
        ensures
            r@ == gas_report(self.view()),
    {
        let mut samples: Vec<Vec<i128>> = Vec::new();
        let mut i: usize = 0;
        while i < self.usages.len()
            invariant
                i <= self.usages@.len(),
                samples@.len() == i,
                forall|k: int| 0 <= k < i ==> int_seq(#[trigger] samples@[k]@) == u64_ints(self.usages@[k].values@),
                forall|a: int, j: int|
                    0 <= a < i && 0 <= j < samples@[a]@.len() ==> 0 <= #[trigger] samples@[a]@[j] <= u64::MAX,
            decreases self.usages@.len() - i,
        {
            let values = &self.usages[i].values;
            let mut wide: Vec<i128> = Vec::new();
            let mut j: usize = 0;
            while j < values.len()
                invariant
                    j <= values@.len(),
                    wide@.len() == j,
                    forall|k: int| 0 <= k < j ==> #[trigger] wide@[k] == values@[k] as i128,
                decreases values@.len() - j,
            {
                wide.push(values[j] as i128);
                j = j + 1;
            }
            assert(int_seq(wide@) =~= u64_ints(values@));
            samples.push(wide);
            i = i + 1;
        }
        assert(samples@.map_values(|s: Vec<i128>| int_seq(s@)) =~= self.view().1);
        let table = sample_table(&self.names, &samples);
        let mut out = String::from_str("Gas usage\n");
        out.append(table.as_str());
        out
    }
}

/// Collects, per operation, the storage changes that it reported.
pub struct StorageUsage {
    names: Vec<String>,
    usages: Vec<OperationStorageUsage>,
    mode_printer: ModePrinter,
}

impl StorageUsage {
    pub closed spec fn view(&self) -> SampleView {
        (str_seq(self.names@), self.usages@.map_values(|u: OperationStorageUsage| i64_ints(u.values@)))
    }

    pub closed spec fn wf(&self) -> bool {
        self.names@.len() == self.usages@.len()
    }

    pub closed spec fn printer(&self) -> ModePrinter {
        self.mode_printer
    }

    /// An empty aggregator that reports to `mode_printer`.
    pub fn new(mode_printer: ModePrinter) -> (r: Self)
        ensures
            r.wf(),
            r.view() == (Seq::<Seq<char>>::empty(), Seq::<Seq<int>>::empty()),
            r.printer() == mode_printer,
    {
        let r = StorageUsage { names: Vec::new(), usages: Vec::new(), mode_printer };
        assert(r.view().0 =~= Seq::<Seq<char>>::empty());
        assert(r.view().1 =~= Seq::<Seq<int>>::empty());
        r
    }

    /// A well-formed state holds one entry per name.
    pub proof fn lemma_view_lengths(&self)
        requires
            self.wf(),
        ensures
            self.view().0.len() == self.view().1.len(),
    {
    }

    /// Whether every recorded name can be laid out in the report.
    pub fn names_printable(&self) -> (r: bool)
        ensures
            r == all_printable(self.view().0),
    {
        let mut i: usize = 0;
        while i < self.names.len()
            invariant
                i <= self.names@.len(),
                forall|j: int| 0 <= j < i ==> printable(#[trigger] str_seq(self.names@)[j]),
            decreases self.names@.len() - i,
        {
            if !is_printable(&self.names[i]) {
                assert(!printable(str_seq(self.names@)[i as int]));
                return false;
            }
            i = i + 1;
        }
        true
    }

    pub fn get_printer_mode(&self) -> (r: &ModePrinter)
        ensures
            *r == self.printer(),
    {
        &self.mode_printer
    }

    /// The least, middle and greatest value observed for `name`, if any was.
    pub fn statistic_of(&self, name: &String) -> (r: Option<OperationStorageStatistic>)
        requires
            self.wf(),
        ensures
            match r {
                Some(s) => {
                    let i = index_of(self.view().0, name@);
                    &&& i >= 0
                    &&& s.min == min_of(self.view().1[i])
                    &&& s.median == median_of(self.view().1[i])
                    &&& s.max == max_of(self.view().1[i])
                },
                None => index_of(self.view().0, name@) == -1,
            },
    {
        match find_name(&self.names, name) {
            Some(i) => Some(OperationStorageStatistic::from_usage(&self.usages[i])),
            None => None,
        }
    }

    fn add_value(&mut self, name: &String, x: i64)
        requires
            old(self).wf(),
        ensures
            final(self).wf(),
            final(self).view() == sample_step(old(self).view(), name@, x as int),
            final(self).printer() == old(self).printer(),
    {
        let ghost v = self.view();
        match find_name(&self.names, name) {
            Some(i) => {
                let mut u = self.usages.remove(i);
                let ghost before = u.values@;
                u.values.push(x);
                self.usages.insert(i, u);
                assert(i64_ints(u.values@) =~= i64_ints(before).push(x as int));
                assert(self.view().1 =~= v.1.update(i as int, v.1[i as int].push(x as int)));
            },
            None => {
                self.names.push(name.clone());
                let u = OperationStorageUsage { values: vec![x] };
                self.usages.push(u);
                assert(i64_ints(u.values@) =~= seq![x as int]);
                assert(self.view().0 =~= v.0.push(name@));
                assert(self.view().1 =~= v.1.push(seq![x as int]));
            },
        }
    }

    /// Records the storage changes of the statistic, if it carries one.
    pub fn consume_statistic(&mut self, stat: &Statistic)
        requires
            old(self).wf(),
        ensures
            final(self).wf(),
            final(self).view().0.len() == final(self).view().1.len(),
            final(self).view() == storage_after_one(old(self).view(), *stat),
            final(self).printer() == old(self).printer(),
    {
        match stat.storage_usage {
            Some(d) => {
                self.add_value(&stat.func_name, d);
            },
            None => {},
        }
    }

    /// Forgets all observed values.
    pub fn clean_statistic(&mut self)
        ensures
            final(self).wf(),
            final(self).view() == (Seq::<Seq<char>>::empty(), Seq::<Seq<int>>::empty()),
            final(self).printer() == old(self).printer(),
    {
        self.names = Vec::new();
        self.usages = Vec::new();
        assert(self.view().0 =~= Seq::<Seq<char>>::empty());
        assert(self.view().1 =~= Seq::<Seq<int>>::empty());
    }

    /// The report: a title, then one row per operation with its count, min,
    /// median and max, by descending median.
    pub fn make_report(&self) -> (r: String)
        requires
            self.wf(),
            all_printable(self.view().0),
        ensures
            r@ == storage_report(self.view()),
    {
        let mut samples: Vec<Vec<i128>> = Vec::new();
        let mut i: usize = 0;
        while i < self.usages.len()
            invariant
                i <= self.usages@.len(),
                samples@.len() == i,
                forall|k: int| 0 <= k < i ==> int_seq(#[trigger] samples@[k]@) == i64_ints(self.usages@[k].values@),
                forall|a: int, j: int|
                    0 <= a < i && 0 <= j < samples@[a]@.len() ==> i64::MIN <= #[trigger] samples@[a]@[j] <= i64::MAX,
            decreases self.usages@.len() - i,
        {
            let values = &self.usages[i].values;
            let mut wide: Vec<i128> = Vec::new();
            let mut j: usize = 0;
            while j < values.len()
                invariant
                    j <= values@.len(),
                    wide@.len() == j,
                    forall|k: int| 0 <= k < j ==> #[trigger] wide@[k] == values@[k] as i128,
                decreases values@.len() - j,
            {
                wide.push(values[j] as i128);
                j = j + 1;
            }
            assert(int_seq(wide@) =~= i64_ints(values@));
            samples.push(wide);
            i = i + 1;
        }
        assert(samples@.map_values(|s: Vec<i128>| int_seq(s@)) =~= self.view().1);
        let table = sample_table(&self.names, &samples);
        let mut out = String::from_str("Storage usage\n");
        out.append(table.as_str());
        out
    }
}

impl Default for CallCounter {
    /// An empty aggregator that reports to standard output.
    fn default() -> (r: Self)
        ensures
            r.wf(),
            r.view() == (Seq::<Seq<char>>::empty(), Seq::<int>::empty()),
            r.printer() is Console,
    {
        CallCounter::new(ModePrinter::Console)
    }
}

impl Default for GasUsage {
    /// An empty aggregator that reports to standard output.
    fn default() -> (r: Self)
        ensures
            r.wf(),
            r.view() == (Seq::<Seq<char>>::empty(), Seq::<Seq<int>>::empty()),
            r.printer() is Console,
    {
        GasUsage::new(ModePrinter::Console)
    }
}

impl Default for StorageUsage {
    /// An empty aggregator that reports to standard output.
    fn default() -> (r: Self)
        ensures
            r.wf(),
            r.view() == (Seq::<Seq<char>>::empty(), Seq::<Seq<int>>::empty()),
            r.printer() is Console,
    {
        StorageUsage::new(ModePrinter::Console)
    }
}

} // verus!

