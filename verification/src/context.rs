use vstd::prelude::*;
use std::collections::HashMap;

verus! {

broadcast use vstd::std_specs::hash::group_hash_axioms;

/// Key under which the response timer keeps the time at which a request
/// entered the chain.
pub const START_TIME_KEY: u64 = 0;

/// One observability record: how long a request took and for which path.
#[derive(Debug, PartialEq, Eq)]
pub struct Record {
    pub elapsed_ns: u64,
    pub path: String,
}

/// Mathematical model of a [`Record`].
pub struct RecordView {
    pub elapsed_ns: u64,
    pub path: Seq<char>,
}

impl View for Record {
    type V = RecordView;

    open spec fn view(&self) -> RecordView {
        RecordView { elapsed_ns: self.elapsed_ns, path: self.path@ }
    }
}

/// The models of a list of records.
pub open spec fn record_views(records: Seq<Record>) -> Seq<RecordView> {
    records.map_values(|r: Record| r@)
}

/// Mathematical model of a [`Context`]: the values stored under reserved
/// keys, and the records emitted so far, oldest first.
pub struct ContextView {
    pub values: Map<u64, u64>,
    pub records: Seq<RecordView>,
}

impl ContextView {
    /// The context a request starts with.
    pub open spec fn fresh() -> ContextView {
        ContextView { values: Map::empty(), records: Seq::empty() }
    }

    /// This context with `value` stored under `key`.
    pub open spec fn with_value(self, key: u64, value: u64) -> ContextView {
        ContextView { values: self.values.insert(key, value), records: self.records }
    }

    /// This context with one more record.
    pub open spec fn with_record(self, record: RecordView) -> ContextView {
        ContextView { values: self.values, records: self.records.push(record) }
    }
}

/// Per-request state that interceptors share: created when a request
/// arrives, handed through the chain, and given up with the reply.
pub struct Context {
    values: HashMap<u64, u64>,
    records: Vec<Record>,
}

impl View for Context {
    type V = ContextView;

    closed spec fn view(&self) -> ContextView {
        ContextView { values: self.values@, records: record_views(self.records@) }
    }
}

impl Context {
    /// The context a request starts with: no value, no record.
    pub fn new() -> (context: Context)
        ensures
            context@ == ContextView::fresh(),
    {
        let context = Context { values: HashMap::new(), records: Vec::new() };
        assert(record_views(context.records@) == Seq::<RecordView>::empty());
        context
    }

    /// Stores `value` under `key`, in place of what was there.
    pub fn insert(&mut self, key: u64, value: u64)
        ensures
            final(self)@ == old(self)@.with_value(key, value),
    {
        self.values.insert(key, value);
    }

    /// The value stored under `key`, if any.
    pub fn get(&self, key: u64) -> (value: Option<u64>)
        ensures
            value == if self@.values.dom().contains(key) {
                Some(self@.values[key])
            } else {
                None
            },
    {
        match self.values.get(&key) {
            Some(v) => Some(*v),
            None => None,
        }
    }

    /// Adds a record to those emitted for this request.
    pub fn emit(&mut self, record: Record)
        ensures
            final(self)@ == old(self)@.with_record(record@),
    {
        let ghost before = self.records@;
        self.records.push(record);
        assert(record_views(self.records@) == record_views(before).push(record@));
    }

    /// Gives up the context and hands out its records, oldest first.
    pub fn into_records(self) -> (records: Vec<Record>)
        ensures
            record_views(records@) == self@.records,
    {
        self.records
    }
}

} // verus!
