use vstd::prelude::*;

verus! {

/// The outcome of one receipt of a transaction: who executed it and what it logged.
#[derive(Clone, Debug)]
pub struct ReceiptOutcome {
    pub executor_id: String,
    pub logs: Vec<String>,
}

/// What a read-only call reports: its log lines.
#[derive(Clone, Debug)]
pub struct ViewResult {
    pub logs: Vec<String>,
}

/// What a state-changing call reports: the gas it burnt and its receipts.
#[derive(Clone, Debug)]
pub struct CallResult {
    pub gas: u64,
    pub receipt_failures: Vec<ReceiptOutcome>,
    pub receipt_outcomes: Vec<ReceiptOutcome>,
}

/// The outcome details of an operation, by whether it changed remote state.
#[derive(Clone, Debug)]
pub enum TxResultDetails {
    View(ViewResult),
    Call(CallResult),
}

/// One completed operation: its name, the change of storage it caused when
/// that was measured, and its outcome details.
#[derive(Clone, Debug)]
pub struct Statistic {
    pub func_name: String,
    pub storage_usage: Option<i64>,
    pub details: TxResultDetails,
}

/// The cost of an operation, for those that changed remote state.
pub open spec fn gas_of(s: Statistic) -> Option<u64> {
    match s.details {
        TxResultDetails::Call(c) => Some(c.gas),
        TxResultDetails::View(_) => None,
    }
}

/// The result of one call: its name, its value, the storage change when it
/// was measured, and its outcome details.
pub struct TxResult<T> {
    pub func_name: String,
    pub value: T,
    pub storage_usage: Option<i64>,
    pub details: TxResultDetails,
}

impl<T> TxResult<T> {
    /// The statistic of the call: everything but its value.
    pub fn into_statistic(self) -> (r: Statistic)
        ensures
            r == (Statistic {
                func_name: self.func_name,
                storage_usage: self.storage_usage,
                details: self.details,
            }),
    {
        Statistic {
            func_name: self.func_name,
            storage_usage: self.storage_usage,
            details: self.details,
        }
    }
}

/// The log lines of a list of receipts, receipt after receipt.
pub open spec fn outcome_logs(outs: Seq<ReceiptOutcome>) -> Seq<String>
    decreases outs.len(),
{
    if outs.len() == 0 {
        Seq::empty()
    } else {
        outcome_logs(outs.drop_last()) + outs.last().logs@
    }
}

/// The log lines that an operation emitted.
pub open spec fn logs_of(s: Statistic) -> Seq<String> {
    match s.details {
        TxResultDetails::View(v) => v.logs@,
        TxResultDetails::Call(c) => outcome_logs(c.receipt_outcomes@),
    }
}

fn append_lines(out: &mut Vec<String>, lines: &Vec<String>)
    ensures
        final(out)@ == old(out)@ + lines@,
{
    let ghost start = out@;
    let mut i: usize = 0;
    while i < lines.len()
        invariant
            i <= lines@.len(),
            out@ == start + lines@.subrange(0, i as int),
        decreases lines@.len() - i,
    {
        out.push(lines[i].clone());
        assert(out@ =~= start + lines@.subrange(0, i + 1));
        i = i + 1;
    }
    assert(lines@.subrange(0, i as int) =~= lines@);
}

impl Statistic {
    /// The log lines of the operation: a read's own lines, or those of each
    /// receipt of a call, in order.
    pub fn logs(&self) -> (r: Vec<String>)
        ensures
            r@ == logs_of(*self),
    {
        let mut out: Vec<String> = Vec::new();
        match &self.details {
            TxResultDetails::View(v) => {
                append_lines(&mut out, &v.logs);
                assert(out@ =~= v.logs@);
            },
            TxResultDetails::Call(c) => {
                let outs = &c.receipt_outcomes;
                let mut i: usize = 0;
                while i < outs.len()
                    invariant
                        i <= outs@.len(),
                        out@ == outcome_logs(outs@.subrange(0, i as int)),
                    decreases outs@.len() - i,
                {
                    append_lines(&mut out, &outs[i].logs);
                    assert(outs@.subrange(0, i + 1).drop_last() =~= outs@.subrange(0, i as int));
                    i = i + 1;
                }
                assert(outs@.subrange(0, i as int) =~= outs@);
            },
        }
        out
    }
}

/// An error that ends a scenario.
#[derive(Clone, Debug)]
pub enum TestError {
    /// An operation failed; the message is the operation's own.
    Custom(String),
    /// A task that ran an operation did not run to its end.
    Join(String),
    /// A report could not be written to its destination.
    Output(String),
}

impl TestError {
    /// The message that the error carries.
    pub fn message(&self) -> (r: &String)
        ensures
            r == match self {
                TestError::Custom(m) => m,
                TestError::Join(m) => m,
                TestError::Output(m) => m,
            },
    {
        match self {
            TestError::Custom(m) => m,
            TestError::Join(m) => m,
            TestError::Output(m) => m,
        }
    }
}

} // verus!
