use scenario_toolset::aggregators::GasUsage;
use scenario_toolset::batch::{Batch, ExecutionOperation};
use scenario_toolset::mode_printer::ModePrinter;
use scenario_toolset::execution::Execution;
use scenario_toolset::statistic::{CallResult, Statistic, TestError, TxResultDetails, ViewResult};
use std::cell::RefCell;

fn write(name: &str, gas: u64) -> Statistic {
    Statistic {
        func_name: name.to_string(),
        storage_usage: None,
        details: TxResultDetails::Call(CallResult {
            gas,
            receipt_failures: vec![],
            receipt_outcomes: vec![],
        }),
    }
}

fn read(name: &str) -> Statistic {
    Statistic {
        func_name: name.to_string(),
        storage_usage: None,
        details: TxResultDetails::View(ViewResult { logs: vec![] }),
    }
}

/// A test operation: what it returns when run, and a tag to log its start.
#[derive(Clone)]
struct Op {
    tag: u32,
    outcome: Result<Option<Statistic>, TestError>,
}

fn op(tag: u32, outcome: Result<Option<Statistic>, TestError>) -> ExecutionOperation<Op> {
    ExecutionOperation::Operation(Op { tag, outcome })
}

/// Runs a batch to its end, one round of startable operations at a time.
/// Within a round the operations complete in reverse order when `reverse` is set.
fn drive(batch: Batch<Op>, log: &RefCell<Vec<u32>>, reverse: bool) -> Result<Vec<Statistic>, TestError> {
    let mut ex = Execution::new(batch);
    loop {
        if ex.is_finished() {
            return ex.into_result();
        }
        let mut started = ex.start_ready();
        assert!(!started.is_empty(), "no operation may start");
        if reverse {
            started.reverse();
        }
        for (id, o) in started {
            log.borrow_mut().push(o.tag);
            ex.complete(id, o.outcome.clone());
        }
    }
}

fn names(stats: &[Statistic]) -> Vec<String> {
    stats.iter().map(|s| s.func_name.clone()).collect()
}

#[test]
fn empty_batch_yields_empty_list() {
    let log = RefCell::new(vec![]);
    let res = drive(Batch::new(), &log, false).unwrap();
    assert!(res.is_empty());
    assert!(log.borrow().is_empty());
}

#[test]
fn chain_keeps_insertion_order() {
    let log = RefCell::new(vec![]);
    let batch = Batch::new()
        .add_chain_op(op(1, Ok(Some(write("a", 1)))))
        .add_chain_op(op(2, Ok(Some(read("b")))))
        .add_chain_ops(vec![op(3, Ok(Some(write("c", 3)))), op(4, Ok(Some(read("d"))))]);
    let res = drive(batch, &log, true).unwrap();
    assert_eq!(names(&res), vec!["a", "b", "c", "d"]);
    assert_eq!(*log.borrow(), vec![1, 2, 3, 4]);
}

#[test]
fn chain_runs_one_operation_per_round() {
    let batch = Batch::new()
        .add_chain_op(op(1, Ok(None)))
        .add_chain_op(op(2, Ok(None)));
    let mut ex = Execution::new(batch);
    let first = ex.start_ready();
    assert_eq!(first.len(), 1);
    assert_eq!(first[0].0, 0);
    assert!(ex.start_ready().is_empty());
    ex.complete(0, Ok(None));
    let second = ex.start_ready();
    assert_eq!(second.len(), 1);
    assert_eq!(second[0].1.tag, 2);
}

#[test]
fn concurrent_group_starts_at_once_and_reports_each_once() {
    let log = RefCell::new(vec![]);
    let make = || {
        Batch::new().add_concurrent_ops(vec![
            op(1, Ok(Some(write("x", 1)))),
            op(2, Ok(Some(write("y", 2)))),
            op(3, Ok(Some(write("z", 3)))),
        ])
    };
    let mut ex = Execution::new(make());
    assert_eq!(ex.start_ready().len(), 3);
    let res = drive(make(), &log, true).unwrap();
    let mut got = names(&res);
    got.sort();
    assert_eq!(got, vec!["x", "y", "z"]);
    assert_eq!(log.borrow().len(), 3);
}

#[test]
fn failure_in_chain_returns_the_error() {
    let log = RefCell::new(vec![]);
    let batch = Batch::new()
        .add_chain_op(op(1, Ok(Some(write("a", 1)))))
        .add_chain_op(op(2, Err(TestError::Custom("boom".to_string()))))
        .add_chain_op(op(3, Ok(Some(write("c", 1)))));
    let err = drive(batch, &log, false).unwrap_err();
    assert!(err.message().contains("boom"));
    assert_eq!(*log.borrow(), vec![1, 2]);
}

#[test]
fn failure_in_concurrent_group_returns_the_first_error() {
    let log = RefCell::new(vec![]);
    let batch = Batch::new()
        .add_chain_op(op(1, Ok(Some(write("a", 1)))))
        .add_chain_op(op(4, Ok(Some(write("late", 1)))))
        .add_concurrent_op(op(2, Err(TestError::Custom("first".to_string()))))
        .add_concurrent_op(op(3, Err(TestError::Custom("second".to_string()))));
    let err = drive(batch, &log, false).unwrap_err();
    assert_eq!(err.message(), "first");
    assert!(!log.borrow().contains(&4));
}

#[test]
fn scenario_init_and_concurrent_costs() {
    let log = RefCell::new(vec![]);
    let batch = Batch::new()
        .add_chain_op(op(1, Ok(Some(write("init", 10)))))
        .add_chain_op(op(2, Ok(None)))
        .add_concurrent_op(op(3, Ok(Some(write("x", 5)))))
        .add_concurrent_op(op(4, Ok(Some(write("x", 7)))));
    let res = drive(batch, &log, true).unwrap();
    assert_eq!(res.len(), 3);
    let init: Vec<&Statistic> = res.iter().filter(|s| s.func_name == "init").collect();
    assert_eq!(init.len(), 1);
    let mut x_costs: Vec<u64> = res
        .iter()
        .filter(|s| s.func_name == "x")
        .map(|s| match &s.details {
            TxResultDetails::Call(c) => c.gas,
            TxResultDetails::View(_) => panic!("a read"),
        })
        .collect();
    x_costs.sort();
    assert_eq!(x_costs, vec![5, 7]);

    let mut gas = GasUsage::new(ModePrinter::Console);
    for s in &res {
        gas.consume_statistic(s);
    }
    let init = gas.statistic_of(&"init".to_string()).unwrap();
    assert_eq!((init.min, init.median, init.max), (10, 10, 10));
    let x = gas.statistic_of(&"x".to_string()).unwrap();
    assert_eq!((x.min, x.median, x.max), (5, 6, 7));
}

#[test]
fn scenario_boom_stops_the_chain() {
    // counts the runs of the third chain operation
    let counter = RefCell::new(0u32);
    let log = RefCell::new(vec![]);
    let batch = Batch::new()
        .add_chain_op(op(1, Ok(None)))
        .add_chain_op(op(2, Err(TestError::Custom("boom".to_string()))))
        .add_chain_op(op(3, Ok(None)));
    let err = drive(batch, &log, false).unwrap_err();
    if log.borrow().contains(&3) {
        *counter.borrow_mut() += 1;
    }
    assert!(err.message().contains("boom"));
    assert_eq!(*counter.borrow(), 0);
}

#[test]
fn nested_batches_flatten_in_order() {
    let log = RefCell::new(vec![]);
    let inner = Batch::new()
        .add_chain_op(op(2, Ok(Some(write("inner-chain", 1)))))
        .add_concurrent_op(op(3, Ok(Some(write("inner-concurrent", 1)))));
    let batch = Batch::new()
        .add_chain_op(op(1, Ok(Some(write("first", 1)))))
        .add_chain_op(ExecutionOperation::from(inner))
        .add_chain_op(op(4, Ok(Some(write("last", 1)))))
        .add_concurrent_op(op(5, Ok(Some(write("side", 1)))));
    let res = drive(batch, &log, false).unwrap();
    assert_eq!(
        names(&res),
        vec!["first", "inner-chain", "inner-concurrent", "last", "side"]
    );
    let pos = |t: u32| log.borrow().iter().position(|x| *x == t).unwrap();
    assert!(pos(1) < pos(2) && pos(1) < pos(3));
    assert!(pos(2) < pos(4) && pos(3) < pos(4));
}
