use vstd::prelude::*;

verus! {

/// An event as a contract logs it: its standard, version, name and, if any,
/// a list of records, each a list of key/value pairs.
pub struct EventLogData {
    pub standard: String,
    pub version: String,
    pub event: String,
    pub data: Option<Vec<Vec<(String, String)>>>,
}

/// The record of a token transfer.
pub struct FtTransferData {
    pub old_owner_id: String,
    pub new_owner_id: String,
    pub amount: String,
    pub memo: Option<String>,
}

/// A token transfer event.
pub struct FtTransferEvent {
    pub standard: String,
    pub version: String,
    pub event: String,
    pub data: FtTransferData,
}

/// An event, recognised as a token transfer or left as it was logged.
pub enum Event {
    FtTransfer(FtTransferEvent),
    Unknown(EventLogData),
}

/// The value of the first pair of `pairs` whose key is `key`.
pub open spec fn lookup(pairs: Seq<(String, String)>, key: Seq<char>) -> Option<String>
    decreases pairs.len(),
{
    if pairs.len() == 0 {
        None
    } else if pairs[0].0@ == key {
        Some(pairs[0].1)
    } else {
        lookup(pairs.drop_first(), key)
    }
}

/// The first record of an event's data, if it has one.
pub open spec fn first_record(d: EventLogData) -> Option<Seq<(String, String)>> {
    match d.data {
        Some(records) => if records@.len() > 0 {
            Some(records@[0]@)
        } else {
            None
        },
        None => None,
    }
}

/// Whether the event is a token transfer whose first record names both
/// owners and the amount.
pub open spec fn is_transfer(d: EventLogData) -> bool {
    &&& d.event@ == "ft_transfer"@
    &&& first_record(d) is Some
    &&& lookup(first_record(d)->0, "old_owner_id"@) is Some
    &&& lookup(first_record(d)->0, "new_owner_id"@) is Some
    &&& lookup(first_record(d)->0, "amount"@) is Some
}

fn find_value(pairs: &Vec<(String, String)>, key: &str) -> (r: Option<String>)
    ensures
        r == lookup(pairs@, key@),
{
    let wanted = String::from_str(key);
    let mut i: usize = 0;
    assert(pairs@.subrange(0, pairs@.len() as int) =~= pairs@);
    while i < pairs.len()
        invariant
            i <= pairs@.len(),
            wanted@ == key@,
            lookup(pairs@, key@) == lookup(pairs@.subrange(i as int, pairs@.len() as int), key@),
        decreases pairs@.len() - i,
    {
        let ghost rest = pairs@.subrange(i as int, pairs@.len() as int);
        assert(rest.drop_first() =~= pairs@.subrange(i + 1, pairs@.len() as int));
        if pairs[i].0 == wanted {
            return Some(pairs[i].1.clone());
        }
        i = i + 1;
    }
    None
}

impl Event {
    /// Recognises a token transfer: an event named `ft_transfer` whose first
    /// record holds `old_owner_id`, `new_owner_id` and `amount`, and maybe a
    /// `memo`. Any other event stays as it was logged.
    pub fn from_log_data(d: EventLogData) -> (r: Event)
        ensures
            is_transfer(d) ==> r == Event::FtTransfer(
                FtTransferEvent {
                    standard: d.standard,
                    version: d.version,
                    event: d.event,
                    data: FtTransferData {
                        old_owner_id: lookup(first_record(d)->0, "old_owner_id"@)->0,
                        new_owner_id: lookup(first_record(d)->0, "new_owner_id"@)->0,
                        amount: lookup(first_record(d)->0, "amount"@)->0,
                        memo: lookup(first_record(d)->0, "memo"@),
                    },
                },
            ),
            !is_transfer(d) ==> r == Event::Unknown(d),
    {
        let transfer = String::from_str("ft_transfer");
        if d.event == transfer {
            let fields = match &d.data {
                Some(records) => if records.len() > 0 {
                    let first = &records[0];
                    Some(
                        (
                            find_value(first, "old_owner_id"),
                            find_value(first, "new_owner_id"),
                            find_value(first, "amount"),
                            find_value(first, "memo"),
                        ),
                    )
                } else {
                    None
                },
                None => None,
            };
            if let Some((Some(old_owner_id), Some(new_owner_id), Some(amount), memo)) = fields {
                return Event::FtTransfer(
                    FtTransferEvent {
                        standard: d.standard,
                        version: d.version,
                        event: d.event,
                        data: FtTransferData { old_owner_id, new_owner_id, amount, memo },
                    },
                );
            }
        }
        Event::Unknown(d)
    }
}

} // verus!
