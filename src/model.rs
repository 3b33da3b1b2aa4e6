//! The values that flow between ingestion, the warehouse and queries.
use vstd::prelude::*;

verus! {

/// One key/value tag of a process.
#[derive(Debug)]
pub struct Tag {
    pub key: String,
    pub value: String,
}

impl Tag {
    pub fn new(key: String, value: String) -> (r: Tag)
        ensures
            r.key == key,
            r.value == value,
    {
        Tag { key, value }
    }

    /// A field-for-field copy.
    pub fn copy(&self) -> (r: Tag)
        ensures
            r == *self,
    {
        Tag { key: self.key.clone(), value: self.value.clone() }
    }
}

/// A copy of every tag, in order.
pub fn copy_tags(tags: &Vec<Tag>) -> (r: Vec<Tag>)
    ensures
        r@ == tags@,
{
    let mut r: Vec<Tag> = Vec::new();
    let mut i: usize = 0;
    while i < tags.len()
        invariant
            i <= tags@.len(),
            r@ == tags@.subrange(0, i as int),
        decreases tags@.len() - i,
    {
        r.push(tags[i].copy());
        i = i + 1;
    }
    assert(r@ =~= tags@);
    r
}

/// An instrumented process: `id` is `"<service_name>:<n>"`, where `n`
/// counts the processes of that service registered before it.
#[derive(Debug)]
pub struct Process {
    pub id: String,
    pub service_name: String,
    pub tags: Vec<Tag>,
}

impl Process {
    /// A copy that keeps the id, the service name and the tags.
    pub fn copy(&self) -> (r: Process)
        ensures
            r.id == self.id,
            r.service_name == self.service_name,
            r.tags@ == self.tags@,
    {
        Process { id: self.id.clone(), service_name: self.service_name.clone(), tags: copy_tags(&self.tags) }
    }
}

/// One unit of work within a trace.
#[derive(Debug)]
pub struct Span {
    pub span_id: u64,
    pub name: String,
    pub process_id: String,
    /// Start, in microseconds since the Unix epoch.
    pub start: i64,
    /// Duration, in microseconds.
    pub duration: i64,
}

/// A trace: its non-zero id and its spans.
#[derive(Debug)]
pub struct Trace {
    pub id: u64,
    pub spans: Vec<Span>,
}

impl Trace {
    pub fn new(id: u64, spans: Vec<Span>) -> (r: Trace)
        ensures
            r.id == id,
            r.spans == spans,
    {
        Trace { id, spans }
    }
}

/// One log record. `idx` is its position in the warehouse's log sequence,
/// set when it is merged.
#[derive(Debug)]
pub struct Log {
    pub idx: usize,
    pub process_id: String,
    /// The span the record was emitted in; never zero when present.
    pub span_id: Option<u64>,
    /// Time of the record, in microseconds since the Unix epoch.
    pub time: i64,
    pub message: String,
}

impl Log {
    pub fn new(process_id: String, span_id: Option<u64>, time: i64, message: String) -> (r: Log)
        ensures
            r.idx == 0,
            r.process_id == process_id,
            r.span_id == span_id,
            r.time == time,
            r.message == message,
    {
        Log { idx: 0, process_id, span_id, time, message }
    }

    /// A field-for-field copy.
    pub fn copy(&self) -> (r: Log)
        ensures
            r == *self,
    {
        Log {
            idx: self.idx,
            process_id: self.process_id.clone(),
            span_id: self.span_id,
            time: self.time,
            message: self.message.clone(),
        }
    }
}

/// `l` with its position set to `idx`.
pub open spec fn with_idx(l: Log, idx: usize) -> Log {
    Log { idx, process_id: l.process_id, span_id: l.span_id, time: l.time, message: l.message }
}

/// A batch decoded by ingestion: traces keyed by their id, and logs in
/// arrival order.
#[derive(Debug)]
pub struct AggregatedData {
    pub traces: Vec<Trace>,
    pub logs: Vec<Log>,
}

impl AggregatedData {
    /// Trace ids are non-zero and distinct; span ids of logs are non-zero.
    pub open spec fn wf(&self) -> bool {
        &&& forall|i: int| 0 <= i < self.traces@.len() ==> #[trigger] self.traces@[i].id != 0
        &&& forall|i: int, j: int|
            0 <= i < j < self.traces@.len() ==> #[trigger] self.traces@[i].id != #[trigger] self.traces@[j].id
        &&& forall|i: int| 0 <= i < self.logs@.len() ==> #[trigger] self.logs@[i].span_id != Some(0u64)
    }

    pub fn new(traces: Vec<Trace>, logs: Vec<Log>) -> (r: AggregatedData)
        ensures
            r.traces == traces,
            r.logs == logs,
    {
        AggregatedData { traces, logs }
    }
}

/// The envelope a query's records are handed out in, for the
/// serialisation layer to write as the response's `data`.
#[derive(Debug)]
pub struct JaegerData<I: IntoIterator>(pub I);

impl<I: IntoIterator> JaegerData<I> {
    pub fn new(items: I) -> (r: JaegerData<I>)
        ensures
            r.0 == items,
    {
        JaegerData(items)
    }
}

} // verus!
