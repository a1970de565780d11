//! Execution log: a record of event publishes and handler executions, with
//! filtered, newest-first, paginated queries.
//!
//! Times are nanoseconds since the UNIX epoch; durations are nanoseconds.
use vstd::prelude::*;
use std::collections::VecDeque;
use crate::clock::now_nanos;
use crate::sort::{
    is_sorted, lemma_sort_stable_contains, lemma_sort_stable_sorted, sort_stable, stable_sort, view_eq_seq,
    SortOrder, SpecOrder,
};
use crate::telemetry::Telemetry;

verus! {

/// What a record is about.
#[derive(Clone, Copy, Debug, PartialEq, Eq, Structural)]
pub enum ExecutionType {
    /// An event was published.
    Publish,
    /// A handler ran.
    HandlerExecution,
}

/// How it went.
#[derive(Clone, Copy, Debug, PartialEq, Eq, Structural)]
pub enum ExecutionStatus {
    Success,
    Failed,
    Timeout,
    /// The handler's subscriber fell behind.
    Lagged,
}

/// One log entry.
#[derive(Clone, Debug)]
pub struct ExecutionRecord {
    pub id: u64,
    pub event_name: String,
    /// Nanoseconds since the UNIX epoch.
    pub timestamp: u128,
    pub execution_type: ExecutionType,
    pub status: ExecutionStatus,
    /// Nanoseconds.
    pub duration: Option<u128>,
    pub error: Option<String>,
    pub subscriber_id: Option<usize>,
    pub receiver_count: Option<usize>,
    pub lagged_count: Option<usize>,
}

/// A filter over records; `None` fields do not filter.
#[derive(Clone, Debug)]
pub struct ExecutionLogQuery {
    pub event_name: Option<String>,
    pub execution_type: Option<ExecutionType>,
    pub status: Option<ExecutionStatus>,
    /// Only records at or after this time.
    pub since: Option<u128>,
    /// Only records at or before this time.
    pub until: Option<u128>,
    pub limit: Option<usize>,
    pub offset: Option<usize>,
}

impl Default for ExecutionLogQuery {
    fn default() -> (r: Self)
        ensures
            r.event_name is None,
            r.execution_type is None,
            r.status is None,
            r.since is None,
            r.until is None,
            r.limit is None,
            r.offset is None,
    {
        ExecutionLogQuery {
            event_name: None,
            execution_type: None,
            status: None,
            since: None,
            until: None,
            limit: None,
            offset: None,
        }
    }
}

impl SpecOrder for ExecutionRecord {
    /// Newest first.
    open spec fn precedes(&self, other: &Self) -> bool {
        self.timestamp >= other.timestamp
    }

    proof fn lemma_total(a: &Self, b: &Self) {
    }

    proof fn lemma_transitive(a: &Self, b: &Self, c: &Self) {
    }
}

impl SortOrder for ExecutionRecord {
    fn precedes_exec(&self, other: &Self) -> (r: bool) {
        self.timestamp >= other.timestamp
    }
}

/// Whether a record passes a filter.
pub open spec fn record_matches(r: ExecutionRecord, q: ExecutionLogQuery) -> bool {
    &&& (q.event_name matches Some(name) ==> r.event_name@ == name@)
    &&& (q.execution_type matches Some(t) ==> r.execution_type == t)
    &&& (q.status matches Some(s) ==> r.status == s)
    &&& (q.since matches Some(t) ==> t <= r.timestamp)
    &&& (q.until matches Some(t) ==> r.timestamp <= t)
}

/// The records that pass a filter, in log order.
pub open spec fn matching_records(records: Seq<ExecutionRecord>, q: ExecutionLogQuery) -> Seq<ExecutionRecord> {
    records.filter(|r: ExecutionRecord| record_matches(r, q))
}

/// The page of a sequence that starts at `offset` and holds at most `limit` items.
pub open spec fn page<T>(s: Seq<T>, offset: Option<usize>, limit: Option<usize>) -> Seq<T> {
    let off = match offset { Some(o) => o as int, None => 0 };
    let start = if off > s.len() { s.len() as int } else { off };
    let rest = s.skip(start);
    match limit {
        Some(l) => if l < rest.len() { rest.take(l as int) } else { rest },
        None => rest,
    }
}

/// Where a page starts: the offset, 0 when none is given.
pub open spec fn offset_of(offset: Option<usize>) -> int {
    match offset {
        Some(o) => o as int,
        None => 0,
    }
}

/// How many items a page of a sequence of `n` items holds: those from the
/// offset on, at most `limit` of them.
pub open spec fn page_len(n: int, offset: Option<usize>, limit: Option<usize>) -> int {
    let avail = if offset_of(offset) > n { 0 } else { n - offset_of(offset) };
    match limit {
        Some(l) => if l < avail { l as int } else { avail },
        None => avail,
    }
}

/// A page is a slice: it holds `page_len` items, the `i`-th being the item
/// at the offset plus `i`; with neither offset nor limit it is everything.
pub proof fn lemma_page_slice<T>(s: Seq<T>, offset: Option<usize>, limit: Option<usize>)
    ensures
        page(s, offset, limit).len() == page_len(s.len() as int, offset, limit),
        forall|i: int| 0 <= i < page(s, offset, limit).len() ==> #[trigger] page(s, offset, limit)[i] == s[offset_of(offset) + i],
        page(s, None, None) == s,
{
    assert(s.skip(0) =~= s);
}

/// Pages of sequences of equal views have equal views.
pub proof fn lemma_page_view_eq<T: View>(a: Seq<T>, b: Seq<T>, offset: Option<usize>, limit: Option<usize>)
    requires
        view_eq_seq(a, b),
    ensures
        view_eq_seq(page(a, offset, limit), page(b, offset, limit)),
{
    let (pa, pb) = (page(a, offset, limit), page(b, offset, limit));
    let off = match offset { Some(o) => o as int, None => 0 };
    let start = if off > a.len() { a.len() as int } else { off };
    assert forall|i: int| 0 <= i < pa.len() implies #[trigger] pa[i]@ == pb[i]@ by {
        assert(pa[i] == a[start + i]);
        assert(pb[i] == b[start + i]);
    }
}

/// What a query answers: the matching records, newest first (records of the
/// same time in log order), then the requested page.
pub open spec fn query_result(records: Seq<ExecutionRecord>, q: ExecutionLogQuery) -> Seq<ExecutionRecord> {
    page(sort_stable(matching_records(records, q)), q.offset, q.limit)
}

/// How many records pass a filter.
pub open spec fn count_matching(records: Seq<ExecutionRecord>, q: ExecutionLogQuery) -> nat {
    matching_records(records, q).len()
}

/// A copy of a record.
pub fn copy_record(r: &ExecutionRecord) -> (c: ExecutionRecord)
    ensures
        c == *r,
{
    ExecutionRecord {
        id: r.id,
        event_name: r.event_name.clone(),
        timestamp: r.timestamp,
        execution_type: r.execution_type,
        status: r.status,
        duration: r.duration,
        error: match &r.error {
            Some(e) => Some(e.clone()),
            None => None,
        },
        subscriber_id: r.subscriber_id,
        receiver_count: r.receiver_count,
        lagged_count: r.lagged_count,
    }
}

/// Whether a record passes a filter.
pub fn matches_query(r: &ExecutionRecord, q: &ExecutionLogQuery) -> (b: bool)
    ensures
        b == record_matches(*r, *q),
{
    match &q.event_name {
        Some(name) => {
            if !(r.event_name == *name) {
                return false;
            }
        },
        None => {},
    }
    match q.execution_type {
        Some(t) => {
            if r.execution_type != t {
                return false;
            }
        },
        None => {},
    }
    match q.status {
        Some(s) => {
            if r.status != s {
                return false;
            }
        },
        None => {},
    }
    match q.since {
        Some(t) => {
            if r.timestamp < t {
                return false;
            }
        },
        None => {},
    }
    match q.until {
        Some(t) => {
            if r.timestamp > t {
                return false;
            }
        },
        None => {},
    }
    true
}

/// Takes the page out of a vector.
pub fn take_page<T>(v: Vec<T>, offset: Option<usize>, limit: Option<usize>) -> (r: Vec<T>)
    ensures
        r@ == page(v@, offset, limit),
{
    let len = v.len();
    let off = match offset {
        Some(o) => o,
        None => 0,
    };
    let start = if off > len { len } else { off };
    let end = match limit {
        Some(l) => if l < len - start { start + l } else { len },
        None => len,
    };
    let mut rest = v;
    let ghost orig = rest@;
    let mut out: Vec<T> = Vec::new();
    let mut i: usize = 0;
    while rest.len() > 0
        invariant
            i <= len,
            orig.len() == len,
            rest@ == orig.skip(i as int),
            start <= end <= len,
            out@ == orig.subrange(start as int, if i < start { start as int } else if i > end { end as int } else { i as int }),
        decreases rest.len(),
    {
        let x = rest.remove(0);
        if start <= i && i < end {
            out.push(x);
        }
        assert(rest@ =~= orig.skip(i + 1));
        i = i + 1;
        assert(out@ =~= orig.subrange(start as int, if i < start { start as int } else if i > end { end as int } else { i as int }));
    }
    assert(out@ =~= page(orig, offset, limit));
    out
}

/// Whether `after` is `before` with `record` appended after dropping some of
/// the oldest records: it ends with `record`, and what comes before that is
/// the newest part of `before`.
pub open spec fn appended_to(before: Seq<ExecutionRecord>, after: Seq<ExecutionRecord>, record: ExecutionRecord) -> bool {
    &&& 1 <= after.len() <= before.len() + 1
    &&& after.last() == record
    &&& after.drop_last() == before.skip(before.len() + 1 - after.len())
}

/// A store of execution records; implement it to keep the log elsewhere.
///
/// `stored` is the log's contents, oldest first. A store may drop its oldest
/// records when it records a new one.
pub trait ExecutionLogStorage {
    spec fn stored(&self) -> Seq<ExecutionRecord>;

    /// Whether the store keeps what it records: false for one with no room.
    spec fn keeps_records(&self) -> bool;

    /// Appends a record, possibly dropping the oldest ones; a store that
    /// keeps no records stays as it is.
    fn record(&mut self, record: ExecutionRecord)
        ensures
            final(self).keeps_records() == old(self).keeps_records(),
            old(self).keeps_records() ==> appended_to(old(self).stored(), final(self).stored(), record),
            !old(self).keeps_records() ==> final(self).stored() == old(self).stored(),
    ;

    /// The matching records, newest first, paginated.
    fn query(&self, filter: &ExecutionLogQuery) -> (r: Vec<ExecutionRecord>)
        ensures
            r@ == query_result(self.stored(), *filter),
    ;

    /// How many records match.
    fn count(&self, filter: &ExecutionLogQuery) -> (r: usize)
        ensures
            r == count_matching(self.stored(), *filter),
    ;

    /// Removes every record.
    fn clear(&mut self)
        ensures
            final(self).stored().len() == 0,
            final(self).keeps_records() == old(self).keeps_records(),
    ;
}

/// An in-memory ring buffer of at most its capacity in records: past it the
/// oldest record goes when a new one comes, and a capacity of 0 keeps none.
pub struct InMemoryExecutionLog {
    records: VecDeque<ExecutionRecord>,
    max_records: usize,
}

impl InMemoryExecutionLog {
    /// The records, oldest first.
    pub closed spec fn contents(&self) -> Seq<ExecutionRecord> {
        self.records@
    }

    /// The capacity.
    pub closed spec fn capacity(&self) -> nat {
        self.max_records as nat
    }

    /// An empty log that holds up to 10 000 records.
    pub fn new() -> (r: Self)
        ensures
            r.contents().len() == 0,
            r.capacity() == 10000,
    {
        Self::with_capacity(10000)
    }

    /// An empty log that holds up to `max_records` records.
    pub fn with_capacity(max_records: usize) -> (r: Self)
        ensures
            r.contents().len() == 0,
            r.capacity() == max_records,
    {
        InMemoryExecutionLog { records: VecDeque::new(), max_records }
    }
}

/// The contents after recording into a ring of capacity `max`.
pub open spec fn ring_push(old: Seq<ExecutionRecord>, max: nat, record: ExecutionRecord) -> Seq<ExecutionRecord> {
    if max == 0 {
        old
    } else if old.len() >= max {
        old.drop_first().push(record)
    } else {
        old.push(record)
    }
}

impl ExecutionLogStorage for InMemoryExecutionLog {
    open spec fn stored(&self) -> Seq<ExecutionRecord> {
        self.contents()
    }

    /// A store of capacity 0 keeps nothing.
    open spec fn keeps_records(&self) -> bool {
        self.capacity() > 0
    }

    fn record(&mut self, record: ExecutionRecord)
        ensures
            final(self).contents() == ring_push(old(self).contents(), old(self).capacity(), record),
            final(self).capacity() == old(self).capacity(),
    {
        let ghost before = self.records@;
        if self.max_records == 0 {
            return;
        }
        if self.records.len() >= self.max_records {
            self.records.pop_front();
        }
        self.records.push_back(record);
        proof {
            if before.len() >= self.max_records {
                assert(self.stored().drop_last() =~= before.skip(1));
            } else {
                assert(self.stored().drop_last() =~= before.skip(0));
            }
        }
    }

    fn query(&self, filter: &ExecutionLogQuery) -> (r: Vec<ExecutionRecord>) {
        let mut results: Vec<ExecutionRecord> = Vec::new();
        let ghost pred = |r: ExecutionRecord| record_matches(r, *filter);
        let mut i: usize = 0;
        assert(self.records@.take(0) =~= Seq::<ExecutionRecord>::empty());
        while i < self.records.len()
            invariant
                i <= self.records@.len(),
                pred == (|r: ExecutionRecord| record_matches(r, *filter)),
                results@ == self.records@.take(i as int).filter(pred),
            decreases self.records@.len() - i,
        {
            let r = &self.records[i];
            assert(self.records@.take(i + 1).drop_last() =~= self.records@.take(i as int));
            proof {
                let t = self.records@.take(i + 1);
                assert(t.last() == self.records@[i as int]);
                reveal_with_fuel(Seq::filter, 1);
                assert(t.filter(pred) == if pred(t.last()) {
                    t.drop_last().filter(pred).push(t.last())
                } else {
                    t.drop_last().filter(pred)
                });
            }
            if matches_query(r, filter) {
                results.push(copy_record(r));
            }
            i = i + 1;
        }
        assert(self.records@.take(self.records@.len() as int) =~= self.records@);
        let sorted = stable_sort(results);
        take_page(sorted, filter.offset, filter.limit)
    }

    fn count(&self, filter: &ExecutionLogQuery) -> (r: usize) {
        let ghost pred = |r: ExecutionRecord| record_matches(r, *filter);
        let mut n: usize = 0;
        let mut i: usize = 0;
        assert(self.records@.take(0) =~= Seq::<ExecutionRecord>::empty());
        while i < self.records.len()
            invariant
                i <= self.records@.len(),
                pred == (|r: ExecutionRecord| record_matches(r, *filter)),
                n == self.records@.take(i as int).filter(pred).len(),
                n <= i,
            decreases self.records@.len() - i,
        {
            assert(self.records@.take(i + 1).drop_last() =~= self.records@.take(i as int));
            proof {
                let t = self.records@.take(i + 1);
                assert(t.last() == self.records@[i as int]);
                reveal_with_fuel(Seq::filter, 1);
                assert(t.filter(pred) == if pred(t.last()) {
                    t.drop_last().filter(pred).push(t.last())
                } else {
                    t.drop_last().filter(pred)
                });
            }
            if matches_query(&self.records[i], filter) {
                n = n + 1;
            }
            i = i + 1;
        }
        assert(self.records@.take(self.records@.len() as int) =~= self.records@);
        n
    }

    fn clear(&mut self) {
        self.records.clear();
    }
}


/// The query front end over a record store.
pub struct ExecutionLog<S: ExecutionLogStorage> {
    storage: S,
}

impl ExecutionLog<InMemoryExecutionLog> {
    /// A log over an in-memory store of 10 000 records.
    pub fn in_memory() -> (r: Self)
        ensures
            r.records().len() == 0,
            r.storage().capacity() == 10000,
            r.keeps_records(),
    {
        Self::new(InMemoryExecutionLog::new())
    }

    /// A log over an in-memory store of `capacity` records.
    pub fn in_memory_with_capacity(capacity: usize) -> (r: Self)
        ensures
            r.records().len() == 0,
            r.storage().capacity() == capacity,
            r.keeps_records() == (capacity > 0),
    {
        Self::new(InMemoryExecutionLog::with_capacity(capacity))
    }
}

impl<S: ExecutionLogStorage> ExecutionLog<S> {
    /// The store.
    pub closed spec fn storage(&self) -> S {
        self.storage
    }

    /// The stored records, oldest first.
    pub open spec fn records(&self) -> Seq<ExecutionRecord> {
        self.storage().stored()
    }

    /// Whether the store keeps what is recorded.
    pub open spec fn keeps_records(&self) -> bool {
        self.storage().keeps_records()
    }

    /// A log over the given store.
    pub fn new(storage: S) -> (r: Self)
        ensures
            r.storage() == storage,
    {
        ExecutionLog { storage }
    }

    /// Records one entry.
    pub fn record(&mut self, record: ExecutionRecord)
        ensures
            final(self).keeps_records() == old(self).keeps_records(),
            old(self).keeps_records() ==> appended_to(old(self).records(), final(self).records(), record),
            !old(self).keeps_records() ==> final(self).records() == old(self).records(),
    {
        self.storage.record(record);
    }

    /// The matching records, newest first, paginated.
    pub fn query(&self, filter: ExecutionLogQuery) -> (r: Vec<ExecutionRecord>)
        ensures
            r@ == query_result(self.records(), filter),
    {
        self.storage.query(&filter)
    }

    /// How many records match.
    pub fn count(&self, filter: &ExecutionLogQuery) -> (r: usize)
        ensures
            r == count_matching(self.records(), *filter),
    {
        self.storage.count(filter)
    }

    /// Removes every record.
    pub fn clear(&mut self)
        ensures
            final(self).records().len() == 0,
            final(self).keeps_records() == old(self).keeps_records(),
    {
        self.storage.clear();
    }
}

/// Telemetry that writes publishes and handler runs into an execution log.
pub struct ExecutionLogTelemetry<S: ExecutionLogStorage> {
    log: ExecutionLog<S>,
    next_id: u64,
}

/// The record that telemetry writes: everything but the time is given.
pub open spec fn telemetry_record_fields(
    r: ExecutionRecord,
    id: u64,
    event_name: Seq<char>,
    execution_type: ExecutionType,
    status: ExecutionStatus,
    duration: Option<u128>,
    error: Option<Seq<char>>,
    subscriber_id: Option<usize>,
    receiver_count: Option<usize>,
    lagged_count: Option<usize>,
) -> bool {
    &&& r.id == id
    &&& r.event_name@ == event_name
    &&& r.execution_type == execution_type
    &&& r.status == status
    &&& r.duration == duration
    &&& (match (r.error, error) {
        (Some(a), Some(b)) => a@ == b,
        (None, None) => true,
        _ => false,
    })
    &&& r.subscriber_id == subscriber_id
    &&& r.receiver_count == receiver_count
    &&& r.lagged_count == lagged_count
}

impl<S: ExecutionLogStorage> ExecutionLogTelemetry<S> {
    /// The log written to.
    pub closed spec fn log(&self) -> ExecutionLog<S> {
        self.log
    }

    /// The id the next record gets.
    pub closed spec fn next_record_id(&self) -> u64 {
        self.next_id
    }

    /// Telemetry writing into `log`; record ids start at 0.
    pub fn new(log: ExecutionLog<S>) -> (r: Self)
        ensures
            r.log() == log,
            r.next_record_id() == 0,
    {
        ExecutionLogTelemetry { log, next_id: 0 }
    }

    /// The log written to.
    pub fn execution_log(&self) -> (r: &ExecutionLog<S>)
        ensures
            *r == self.log(),
    {
        &self.log
    }

    /// Hands out the next record id.
    pub fn next_id(&mut self) -> (id: u64)
        ensures
            id == old(self).next_record_id(),
            final(self).next_record_id() == old(self).next_record_id().wrapping_add(1),
            final(self).log() == old(self).log(),
    {
        let current = self.next_id;
        self.next_id = self.next_id.wrapping_add(1);
        current
    }

    /// Whether `after` is `before` with one more record that satisfies
    /// `fields`, possibly after dropping old records, where the store keeps
    /// records, and with the same records where it keeps none; the next id
    /// moves on either way.
    pub open spec fn appended(before: Self, after: Self, fields: spec_fn(ExecutionRecord) -> bool) -> bool {
        &&& after.next_record_id() == before.next_record_id().wrapping_add(1)
        &&& after.log().keeps_records() == before.log().keeps_records()
        &&& before.log().keeps_records() ==> {
            &&& after.log().records().len() > 0
            &&& fields(after.log().records().last())
            &&& after.log().records().len() <= before.log().records().len() + 1
            &&& after.log().records().drop_last() == before.log().records().skip(
                before.log().records().len() + 1 - after.log().records().len(),
            )
        }
        &&& !before.log().keeps_records() ==> after.log().records() == before.log().records()
    }
}

fn option_str_to_string(s: Option<&str>) -> (r: Option<String>)
    ensures
        match (r, s) {
            (Some(a), Some(b)) => a@ == b@,
            (None, None) => true,
            _ => false,
        },
{
    match s {
        Some(x) => Some(String::from_str(x)),
        None => None,
    }
}

impl<S: ExecutionLogStorage> Telemetry for ExecutionLogTelemetry<S> {
    /// Records a successful publish with its receiver count.
    fn on_publish(&mut self, event_name: &str, receivers: usize)
        ensures
            Self::appended(*old(self), *final(self), |r: ExecutionRecord| telemetry_record_fields(
                r, old(self).next_record_id(), event_name@, ExecutionType::Publish, ExecutionStatus::Success,
                None, None, None, Some(receivers), None)),
    {
        let id = self.next_id();
        let record = ExecutionRecord {
            id,
            event_name: String::from_str(event_name),
            timestamp: now_nanos(),
            execution_type: ExecutionType::Publish,
            status: ExecutionStatus::Success,
            duration: None,
            error: None,
            subscriber_id: None,
            receiver_count: Some(receivers),
            lagged_count: None,
        };
        self.log.record(record);
    }

    /// Records nothing: the publish is recorded when it starts.
    fn on_publish_complete(&mut self, _event_name: &str, _elapsed_nanos: u128)
        ensures
            *final(self) == *old(self),
    {
    }

    /// Records nothing: a subscription is not an execution.
    fn on_subscribe(&mut self, _event_name: &str, _sub_id: usize)
        ensures
            *final(self) == *old(self),
    {
    }

    /// Records nothing: the run is recorded when it completes.
    fn on_handler_start(&mut self, _event_name: &str, _sub_id: usize)
        ensures
            *final(self) == *old(self),
    {
    }

    /// Records a handler run: failed when it has an error, else successful.
    fn on_handler_complete(&mut self, event_name: &str, sub_id: usize, elapsed_nanos: u128, error: Option<&str>)
        ensures
            Self::appended(*old(self), *final(self), |r: ExecutionRecord| telemetry_record_fields(
                r, old(self).next_record_id(), event_name@, ExecutionType::HandlerExecution,
                if error is Some { ExecutionStatus::Failed } else { ExecutionStatus::Success },
                Some(elapsed_nanos), match error { Some(e) => Some(e@), None => None }, Some(sub_id), None, None)),
    {
        let status = if error.is_some() {
            ExecutionStatus::Failed
        } else {
            ExecutionStatus::Success
        };
        let id = self.next_id();
        let record = ExecutionRecord {
            id,
            event_name: String::from_str(event_name),
            timestamp: now_nanos(),
            execution_type: ExecutionType::HandlerExecution,
            status,
            duration: Some(elapsed_nanos),
            error: option_str_to_string(error),
            subscriber_id: Some(sub_id),
            receiver_count: None,
            lagged_count: None,
        };
        self.log.record(record);
    }

    /// Records a lagged handler with the number of missed events.
    fn on_handler_lagged(&mut self, event_name: &str, sub_id: usize, lagged_count: usize)
        ensures
            Self::appended(*old(self), *final(self), |r: ExecutionRecord| telemetry_record_fields(
                r, old(self).next_record_id(), event_name@, ExecutionType::HandlerExecution, ExecutionStatus::Lagged,
                None, None, Some(sub_id), None, Some(lagged_count))),
    {
        let id = self.next_id();
        let record = ExecutionRecord {
            id,
            event_name: String::from_str(event_name),
            timestamp: now_nanos(),
            execution_type: ExecutionType::HandlerExecution,
            status: ExecutionStatus::Lagged,
            duration: None,
            error: None,
            subscriber_id: Some(sub_id),
            receiver_count: None,
            lagged_count: Some(lagged_count),
        };
        self.log.record(record);
    }
}


/// A query answers newest first: each answered record is at least as recent
/// as every later one.
pub proof fn law_query_newest_first(records: Seq<ExecutionRecord>, q: ExecutionLogQuery)
    ensures
        forall|i: int, j: int|
            0 <= i < j < query_result(records, q).len() ==> query_result(records, q)[i].timestamp
                >= query_result(records, q)[j].timestamp,
{
    let m = matching_records(records, q);
    lemma_sort_stable_sorted(m);
    let s = sort_stable(m);
    let r = query_result(records, q);
    let off = match q.offset { Some(o) => o as int, None => 0 };
    let start = if off > s.len() { s.len() as int } else { off };
    assert forall|i: int, j: int| 0 <= i < j < r.len() implies r[i].timestamp >= r[j].timestamp by {
        assert(r[i] == s[start + i]);
        assert(r[j] == s[start + j]);
        assert(s[start + i].precedes(&s[start + j]));
    }
}

/// Every answered record is a stored record that passes the filter.
pub proof fn law_query_answers_match(records: Seq<ExecutionRecord>, q: ExecutionLogQuery)
    ensures
        forall|i: int| 0 <= i < query_result(records, q).len() ==> record_matches(#[trigger] query_result(records, q)[i], q)
            && records.contains(query_result(records, q)[i]),
{
    let pred = |r: ExecutionRecord| record_matches(r, q);
    let m = matching_records(records, q);
    lemma_sort_stable_contains(m);
    let s = sort_stable(m);
    let r = query_result(records, q);
    let off = match q.offset { Some(o) => o as int, None => 0 };
    let start = if off > s.len() { s.len() as int } else { off };
    assert forall|i: int| 0 <= i < r.len() implies record_matches(#[trigger] r[i], q) && records.contains(r[i]) by {
        assert(r[i] == s[start + i]);
        assert(m.contains(s[start + i]));
        let k = choose|k: int| 0 <= k < m.len() && m[k] == s[start + i];
        records.lemma_filter_pred(pred, k);
        records.lemma_filter_contains_rev(pred, m[k]);
    }
}

/// Without a page, a query answers as many records as `count` counts.
pub proof fn law_count_is_unpaged_query_length(records: Seq<ExecutionRecord>, q: ExecutionLogQuery)
    requires
        q.offset is None,
        q.limit is None,
    ensures
        query_result(records, q).len() == count_matching(records, q),
{
    lemma_sort_stable_contains(matching_records(records, q));
    assert(sort_stable(matching_records(records, q)).skip(0) =~= sort_stable(matching_records(records, q)));
}

/// Recording into a full ring of capacity `max` drops exactly the oldest
/// record, so the ring keeps the newest `max` records; a ring of capacity 0
/// stays empty.
pub proof fn law_ring_keeps_newest(old: Seq<ExecutionRecord>, max: nat, record: ExecutionRecord)
    requires
        old.len() <= max,
    ensures
        max == 0 ==> ring_push(old, max, record).len() == 0,
        max > 0 ==> ring_push(old, max, record) == old.push(record).skip(if old.len() == max { 1int } else { 0int }),
        max > 0 ==> ring_push(old, max, record).last() == record,
        ring_push(old, max, record).len() <= max,
{
    if max == 0 {
    } else if old.len() == max {
        assert(old.drop_first().push(record) =~= old.push(record).skip(1));
    } else {
        assert(old.push(record) =~= old.push(record).skip(0));
    }
}

/// The contents of a ring of capacity `max` after recording `rs` in order,
/// starting empty.
pub open spec fn ring_run(max: nat, rs: Seq<ExecutionRecord>) -> Seq<ExecutionRecord>
    decreases rs.len(),
{
    if rs.len() == 0 {
        Seq::<ExecutionRecord>::empty()
    } else {
        ring_push(ring_run(max, rs.drop_last()), max, rs.last())
    }
}

/// After `n` records into an empty ring of capacity `max`, exactly the last
/// `min(n, max)` of them are kept, oldest first: the oldest are dropped first.
pub proof fn law_ring_run_keeps_last(max: nat, rs: Seq<ExecutionRecord>)
    ensures
        ring_run(max, rs) == rs.skip(if rs.len() > max { rs.len() - max } else { 0int }),
        ring_run(max, rs).len() == if rs.len() > max { max as int } else { rs.len() as int },
    decreases rs.len(),
{
    if rs.len() > 0 {
        let prev = rs.drop_last();
        law_ring_run_keeps_last(max, prev);
        let cap = max;
        let k0: int = if prev.len() > cap { prev.len() - cap } else { 0int };
        let kept = prev.skip(k0);
        assert(ring_run(max, prev) == kept);
        if max == 0 {
            assert(rs.skip(rs.len() as int) =~= Seq::<ExecutionRecord>::empty());
            assert(kept =~= Seq::<ExecutionRecord>::empty());
        } else if kept.len() >= max {
            assert(kept.drop_first().push(rs.last()) =~= rs.skip(k0 + 1));
        } else {
            assert(kept.push(rs.last()) =~= rs.skip(k0));
        }
    } else {
        assert(rs.skip(0) =~= rs);
    }
}


/// The query with its paging left out.
pub open spec fn unpaged_log_query(q: ExecutionLogQuery) -> ExecutionLogQuery {
    ExecutionLogQuery { limit: None, offset: None, ..q }
}

/// A paged query answers a slice of the unpaged, newest-first answer: from
/// the offset on, at most `limit` records. So a query with a limit and no
/// offset answers the newest matching records.
pub proof fn law_query_page_is_slice(records: Seq<ExecutionRecord>, q: ExecutionLogQuery)
    ensures
        query_result(records, q).len() == page_len(
            query_result(records, unpaged_log_query(q)).len() as int,
            q.offset,
            q.limit,
        ),
        forall|i: int|
            0 <= i < query_result(records, q).len() ==> #[trigger] query_result(records, q)[i] == query_result(
                records,
                unpaged_log_query(q),
            )[offset_of(q.offset) + i],
{
    let u = unpaged_log_query(q);
    assert(matching_records(records, u) == matching_records(records, q)) by {
        assert((|r: ExecutionRecord| record_matches(r, u)) =~= (|r: ExecutionRecord| record_matches(r, q)));
    }
    let s = sort_stable(matching_records(records, q));
    lemma_page_slice(s, q.offset, q.limit);
    lemma_page_slice(s, None, None);
}
} // verus!
