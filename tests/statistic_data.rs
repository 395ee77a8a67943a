use scenario_toolset::batch::{Batch, ExecutionOperation};
use scenario_toolset::event::{Event, EventLogData};
use scenario_toolset::execution::Execution;
use scenario_toolset::statistic::{
    CallResult, ReceiptOutcome, Statistic, TxResult, TxResultDetails, ViewResult,
};

fn pairs(kv: &[(&str, &str)]) -> Vec<(String, String)> {
    kv.iter().map(|(k, v)| (k.to_string(), v.to_string())).collect()
}

fn log_data(event: &str, data: Option<Vec<Vec<(String, String)>>>) -> EventLogData {
    EventLogData {
        standard: "nep141".to_string(),
        version: "1.0.0".to_string(),
        event: event.to_string(),
        data,
    }
}

#[test]
fn transfer_event_is_recognised() {
    let d = log_data(
        "ft_transfer",
        Some(vec![pairs(&[
            ("old_owner_id", "alice"),
            ("new_owner_id", "bob"),
            ("amount", "10"),
            ("memo", "Get my money!"),
        ])]),
    );
    match Event::from_log_data(d) {
        Event::FtTransfer(e) => {
            assert_eq!(e.event, "ft_transfer");
            assert_eq!(e.standard, "nep141");
            assert_eq!(e.data.old_owner_id, "alice");
            assert_eq!(e.data.new_owner_id, "bob");
            assert_eq!(e.data.amount, "10");
            assert_eq!(e.data.memo.as_deref(), Some("Get my money!"));
        }
        Event::Unknown(_) => panic!("a transfer expected"),
    }
}

#[test]
fn transfer_without_memo_or_amount() {
    let with = log_data(
        "ft_transfer",
        Some(vec![pairs(&[("old_owner_id", "a"), ("new_owner_id", "b"), ("amount", "1")])]),
    );
    assert!(matches!(Event::from_log_data(with), Event::FtTransfer(e) if e.data.memo.is_none()));
    let without = log_data(
        "ft_transfer",
        Some(vec![pairs(&[("old_owner_id", "a"), ("new_owner_id", "b")])]),
    );
    assert!(matches!(Event::from_log_data(without), Event::Unknown(_)));
}

#[test]
fn other_events_stay_unknown() {
    let d = log_data("ft_mint", Some(vec![pairs(&[("owner_id", "a"), ("amount", "1")])]));
    assert!(matches!(Event::from_log_data(d), Event::Unknown(u) if u.event == "ft_mint"));
    assert!(matches!(Event::from_log_data(log_data("ft_transfer", None)), Event::Unknown(_)));
    assert!(matches!(
        Event::from_log_data(log_data("ft_transfer", Some(vec![]))),
        Event::Unknown(_)
    ));
}

#[test]
fn logs_of_read_and_call() {
    let read = Statistic {
        func_name: "view".to_string(),
        storage_usage: None,
        details: TxResultDetails::View(ViewResult { logs: vec!["a".to_string(), "b".to_string()] }),
    };
    assert_eq!(read.logs(), vec!["a", "b"]);
    let outcome = |logs: &[&str]| ReceiptOutcome {
        executor_id: "contract".to_string(),
        logs: logs.iter().map(|l| l.to_string()).collect(),
    };
    let call = Statistic {
        func_name: "call".to_string(),
        storage_usage: Some(3),
        details: TxResultDetails::Call(CallResult {
            gas: 1,
            receipt_failures: vec![],
            receipt_outcomes: vec![outcome(&["x"]), outcome(&[]), outcome(&["y", "z"])],
        }),
    };
    assert_eq!(call.logs(), vec!["x", "y", "z"]);
}

#[test]
fn call_result_becomes_statistic() {
    let tx = TxResult {
        func_name: "mint".to_string(),
        value: 42u64,
        storage_usage: Some(-8),
        details: TxResultDetails::View(ViewResult { logs: vec![] }),
    };
    let s = tx.into_statistic();
    assert_eq!(s.func_name, "mint");
    assert_eq!(s.storage_usage, Some(-8));
}

#[test]
fn single_operation_batch() {
    let mut ex = Execution::new(Batch::from_op(7u32));
    let started = ex.start_ready();
    assert_eq!(started, vec![(0, 7)]);
    ex.complete(0, Ok(None));
    assert!(ex.is_finished());
    assert!(ex.into_result().unwrap().is_empty());
    let b: Batch<u32> = Batch::new().add_chain_op(ExecutionOperation::Operation(1));
    assert_eq!(b.chain.len(), 1);
}
