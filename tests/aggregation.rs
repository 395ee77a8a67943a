use scenario_toolset::aggregators::{CallCounter, GasUsage, StorageUsage};
use scenario_toolset::distribution::{
    populate_statistic, populate_statistic_by_metric, process_statistic, StatisticConsumer,
};
use scenario_toolset::mode_printer::{ModePrinter, OutputTarget};
use scenario_toolset::statistic::{CallResult, Statistic, TestError, TxResultDetails, ViewResult};
use scenario_toolset::summary::{
    OperationGasStatistic, OperationGasUsage, OperationStorageStatistic, OperationStorageUsage,
};

fn write(name: &str, gas: u64, storage: Option<i64>) -> Statistic {
    Statistic {
        func_name: name.to_string(),
        storage_usage: storage,
        details: TxResultDetails::Call(CallResult {
            gas,
            receipt_failures: vec![],
            receipt_outcomes: vec![],
        }),
    }
}

fn read(name: &str, storage: Option<i64>) -> Statistic {
    Statistic {
        func_name: name.to_string(),
        storage_usage: storage,
        details: TxResultDetails::View(ViewResult { logs: vec!["log".to_string()] }),
    }
}

fn gas_stat(values: Vec<u64>) -> (u64, u64, u64) {
    let s = OperationGasStatistic::from_usage(&OperationGasUsage { values });
    (s.min, s.median, s.max)
}

fn storage_stat(values: Vec<i64>) -> (i64, i64, i64) {
    let s = OperationStorageStatistic::from_usage(&OperationStorageUsage { values });
    (s.min, s.median, s.max)
}

#[test]
fn gas_statistic_of_odd_and_even_sets() {
    assert_eq!(gas_stat(vec![7, 1, 4]), (1, 4, 7));
    assert_eq!(gas_stat(vec![5, 7]), (5, 6, 7));
    assert_eq!(gas_stat(vec![10]), (10, 10, 10));
    assert_eq!(gas_stat(vec![9, 2, 4, 3]), (2, 3, 9));
}

#[test]
fn gas_statistic_of_empty_set_is_zero() {
    assert_eq!(gas_stat(vec![]), (0, 0, 0));
}

#[test]
fn gas_statistic_at_the_largest_values() {
    assert_eq!(gas_stat(vec![u64::MAX, u64::MAX - 2]), (u64::MAX - 2, u64::MAX - 1, u64::MAX));
}

#[test]
fn storage_statistic_rounds_toward_zero() {
    assert_eq!(storage_stat(vec![-3, 0]), (-3, -1, 0));
    assert_eq!(storage_stat(vec![2, 5]), (2, 3, 5));
    assert_eq!(storage_stat(vec![i64::MIN, i64::MAX]), (i64::MIN, 0, i64::MAX));
    assert_eq!(storage_stat(vec![]), (0, 0, 0));
}

#[test]
fn median_lies_between_min_and_max() {
    for values in [vec![3u64, 1, 2], vec![8, 8, 1, 100], vec![0, 0]] {
        let (min, median, max) = gas_stat(values);
        assert!(min <= median && median <= max);
    }
}

#[test]
fn gas_aggregator_reports_scenario_values() {
    let mut gas = GasUsage::new(ModePrinter::Console);
    for s in [write("init", 10, None), write("x", 5, None), write("x", 7, None), read("v", None)] {
        gas.consume_statistic(&s);
    }
    let init = gas.statistic_of(&"init".to_string()).unwrap();
    assert_eq!((init.min, init.median, init.max), (10, 10, 10));
    let x = gas.statistic_of(&"x".to_string()).unwrap();
    assert_eq!((x.min, x.median, x.max), (5, 6, 7));
    assert!(gas.statistic_of(&"v".to_string()).is_none());
}

#[test]
fn storage_aggregator_takes_reads_and_writes() {
    let mut st = StorageUsage::new(ModePrinter::Console);
    for s in [read("r", Some(-4)), write("r", 1, Some(10)), write("w", 1, None)] {
        st.consume_statistic(&s);
    }
    let r = st.statistic_of(&"r".to_string()).unwrap();
    assert_eq!((r.min, r.median, r.max), (-4, 3, 10));
    assert!(st.statistic_of(&"w".to_string()).is_none());
}

#[test]
fn call_counter_counts_per_name_in_any_order() {
    let mut a = CallCounter::new(ModePrinter::Console);
    let mut b = CallCounter::new(ModePrinter::Console);
    let stats = vec![read("f", None), read("g", None), read("f", None), write("f", 1, None)];
    for s in &stats {
        a.consume_statistic(s);
    }
    for s in stats.iter().rev() {
        b.consume_statistic(s);
    }
    for c in [&a, &b] {
        assert_eq!(c.count_of(&"f".to_string()), Some(3));
        assert_eq!(c.count_of(&"g".to_string()), Some(1));
        assert_eq!(c.count_of(&"h".to_string()), None);
    }
}

#[test]
fn clean_forgets_everything() {
    let mut c = CallCounter::new(ModePrinter::Console);
    c.consume_statistic(&read("f", None));
    c.clean_statistic();
    assert_eq!(c.count_of(&"f".to_string()), None);
    let mut g = GasUsage::new(ModePrinter::Console);
    g.consume_statistic(&write("f", 3, None));
    g.clean_statistic();
    assert!(g.statistic_of(&"f".to_string()).is_none());
}

#[test]
fn reports_hold_titles_names_and_numbers() {
    let mut gas = GasUsage::new(ModePrinter::Console);
    gas.consume_statistic(&write("init", 10, None));
    gas.consume_statistic(&write("x", 5, None));
    gas.consume_statistic(&write("x", 7, None));
    let report = gas.make_report();
    assert!(report.starts_with("Gas usage\n"));
    assert!(report.contains("init"));
    assert!(report.contains("Median"));
    assert!(report.contains('6'));
    // rows come by descending median: "init" (10) before "x" (6)
    assert!(report.find("init").unwrap() < report.find(" x ").unwrap());
    assert_eq!(report, gas.make_report());

    let mut calls = CallCounter::new(ModePrinter::Console);
    calls.consume_statistic(&read("seldom", None));
    calls.consume_statistic(&read("often", None));
    calls.consume_statistic(&read("often", None));
    let report = calls.make_report();
    assert!(report.starts_with("Number of calls\n"));
    assert!(report.find("often").unwrap() < report.find("seldom").unwrap());
}

#[test]
fn empty_aggregator_renders_without_rows() {
    let st = StorageUsage::new(ModePrinter::Console);
    let report = st.make_report();
    assert!(report.starts_with("Storage usage\n"));
    assert!(report.contains("Function"));
}

fn consumers() -> Vec<StatisticConsumer> {
    vec![
        StatisticConsumer::GasUsage(GasUsage::new(ModePrinter::Console)),
        StatisticConsumer::StorageUsage(StorageUsage::new(ModePrinter::Console)),
        StatisticConsumer::CallCounter(CallCounter::new(ModePrinter::Console)),
    ]
}

#[test]
fn both_distribution_orders_render_alike() {
    let stats = vec![
        write("init", 10, Some(100)),
        read("view", Some(-2)),
        write("x", 5, None),
        write("x", 7, Some(3)),
    ];
    let mut by_aggregator = consumers();
    let mut by_metric = consumers();
    populate_statistic(&stats, &mut by_aggregator);
    populate_statistic_by_metric(&stats, &mut by_metric);
    for (a, b) in by_aggregator.iter().zip(by_metric.iter()) {
        assert_eq!(a.make_report(), b.make_report());
    }
}

#[test]
fn process_statistic_concatenates_reports() {
    let stats = vec![write("init", 10, Some(1))];
    let mut cs = consumers();
    let all = process_statistic(&stats, &mut cs);
    let expected: String = cs.iter().map(|c| c.make_report()).collect();
    assert_eq!(all, expected);
    assert!(all.contains("Gas usage") && all.contains("Storage usage") && all.contains("Number of calls"));
}

#[test]
fn printer_targets_by_mode() {
    assert!(matches!(ModePrinter::Console.targets().as_slice(), [OutputTarget::Stdout]));
    match ModePrinter::File("out.txt".to_string()).targets().as_slice() {
        [OutputTarget::File(p)] => assert_eq!(p, "out.txt"),
        _ => panic!("one file expected"),
    }
    match ModePrinter::from_path("both.txt".to_string()).targets().as_slice() {
        [OutputTarget::File(p), OutputTarget::Stdout] => assert_eq!(p, "both.txt"),
        _ => panic!("a file, then standard output"),
    }
    assert!(matches!(ModePrinter::default(), ModePrinter::Console));
}

#[test]
fn error_variants_keep_their_messages() {
    assert_eq!(TestError::Custom("a".to_string()).message(), "a");
    assert_eq!(TestError::Join("b".to_string()).message(), "b");
    assert_eq!(TestError::Output("c".to_string()).message(), "c");
}

#[test]
fn names_with_escape_are_not_printable() {
    let odd = "\u{1b}[\u{644}\u{627}\u{644}\u{627}";
    assert!(!scenario_toolset::table::is_printable(&odd.to_string()));
    assert!(scenario_toolset::table::is_printable(&"init".to_string()));
    let mut gas = GasUsage::new(ModePrinter::Console);
    gas.consume_statistic(&write("fine", 1, None));
    assert!(gas.names_printable());
    gas.consume_statistic(&write(odd, 1, None));
    assert!(!gas.names_printable());
    let stats = vec![write("a", 1, None), read(odd, None)];
    assert!(!scenario_toolset::distribution::statistics_printable(&stats));
    assert!(scenario_toolset::distribution::statistics_printable(&stats[..1].to_vec()));
    let c = StatisticConsumer::CallCounter(CallCounter::new(ModePrinter::Console));
    assert!(c.names_printable());
}
