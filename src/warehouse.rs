//! The hot tier: every trace, log and process held in memory.
use std::collections::HashMap;
use vstd::prelude::*;

use crate::model::{with_idx, AggregatedData, Log, Process, Tag, Trace, copy_tags};
use crate::text::{decimal, push_decimal, has_text_at, starts_with, parse_u64, u64_text_value};

verus! {

broadcast use vstd::std_specs::hash::group_hash_axioms;

/// How many processes of `ps` belong to the service `name`.
pub open spec fn count_service(ps: Seq<Process>, name: Seq<char>) -> nat
    decreases ps.len(),
{
    if ps.len() == 0 {
        0
    } else {
        count_service(ps.drop_last(), name) + if ps.last().service_name@ == name { 1nat } else { 0nat }
    }
}

/// The id of the `n`th process of service `name`: `"<name>:<n>"`.
pub open spec fn process_id_text(name: Seq<char>, n: nat) -> Seq<char> {
    name + seq![':'] + decimal(n)
}

/// The positions recorded by the logs of `logs` that carry span id `s`,
/// in the order the logs stand.
pub open spec fn span_indices(logs: Seq<Log>, s: u64) -> Seq<usize>
    decreases logs.len(),
{
    if logs.len() == 0 {
        Seq::empty()
    } else if logs.last().span_id == Some(s) {
        span_indices(logs.drop_last(), s).push(logs.last().idx)
    } else {
        span_indices(logs.drop_last(), s)
    }
}

/// `m` after inserting each trace of `s` under its id; the traces of `s`
/// are taken from the last to the first, which is immaterial when their
/// ids are distinct.
pub open spec fn apply_traces(m: Map<u64, Trace>, s: Seq<Trace>) -> Map<u64, Trace>
    decreases s.len(),
{
    if s.len() == 0 {
        m
    } else {
        apply_traces(m.insert(s.last().id, s.last()), s.drop_last())
    }
}

/// The logs of `logs` whose process id starts with `p`, in order.
pub open spec fn prefix_matches(logs: Seq<Log>, p: Seq<char>) -> Seq<Log>
    decreases logs.len(),
{
    if logs.len() == 0 {
        Seq::empty()
    } else if starts_with(logs.last().process_id@, p) {
        prefix_matches(logs.drop_last(), p).push(logs.last())
    } else {
        prefix_matches(logs.drop_last(), p)
    }
}

/// The distinct service names of `ps`, in order of first registration.
pub open spec fn service_names_of(ps: Seq<Process>) -> Seq<Seq<char>>
    decreases ps.len(),
{
    if ps.len() == 0 {
        Seq::empty()
    } else {
        let r = service_names_of(ps.drop_last());
        if r.contains(ps.last().service_name@) {
            r
        } else {
            r.push(ps.last().service_name@)
        }
    }
}

/// `batch` renumbered to follow `base` logs.
pub open spec fn appended(batch: Seq<Log>, base: nat) -> Seq<Log> {
    Seq::new(batch.len(), |j: int| with_idx(batch[j], (base + j) as usize))
}

/// Inserting traces none of which has id `k` leaves what `k` maps to alone.
proof fn lemma_apply_traces_other(m: Map<u64, Trace>, s: Seq<Trace>, k: u64)
    requires
        forall|i: int| 0 <= i < s.len() ==> #[trigger] s[i].id != k,
    ensures
        apply_traces(m, s).contains_key(k) == m.contains_key(k),
        m.contains_key(k) ==> apply_traces(m, s)[k] == m[k],
    decreases s.len(),
{
    if s.len() > 0 {
        let m2 = m.insert(s.last().id, s.last());
        assert(s.last().id != k);
        assert forall|i: int| 0 <= i < s.drop_last().len() implies #[trigger] s.drop_last()[i].id != k by {
            assert(s.drop_last()[i] == s[i]);
        }
        lemma_apply_traces_other(m2, s.drop_last(), k);
    }
}

/// With distinct ids, each trace of `s` ends up stored under its id.
proof fn lemma_apply_traces_hit(m: Map<u64, Trace>, s: Seq<Trace>, j: int)
    requires
        0 <= j < s.len(),
        forall|a: int, b: int| 0 <= a < b < s.len() ==> #[trigger] s[a].id != #[trigger] s[b].id,
    ensures
        apply_traces(m, s).contains_key(s[j].id),
        apply_traces(m, s)[s[j].id] == s[j],
    decreases s.len(),
{
    let m2 = m.insert(s.last().id, s.last());
    let rest = s.drop_last();
    if j == s.len() - 1 {
        assert forall|i: int| 0 <= i < rest.len() implies #[trigger] rest[i].id != s[j].id by {
            assert(rest[i] == s[i]);
        }
        lemma_apply_traces_other(m2, rest, s[j].id);
    } else {
        assert(rest[j] == s[j]);
        assert forall|a: int, b: int| 0 <= a < b < rest.len() implies #[trigger] rest[a].id != #[trigger] rest[b].id by {
            assert(rest[a] == s[a] && rest[b] == s[b]);
        }
        lemma_apply_traces_hit(m2, rest, j);
    }
}

/// Merging a batch into a store and then a second batch with distinct
/// trace ids leaves every trace of the second batch stored under its id,
/// whatever the store or the first batch held under that id.
pub proof fn law_trace_overwrite(m: Map<u64, Trace>, first: Seq<Trace>, second: Seq<Trace>, j: int)
    requires
        0 <= j < second.len(),
        forall|a: int, b: int|
            0 <= a < b < second.len() ==> #[trigger] second[a].id != #[trigger] second[b].id,
    ensures
        apply_traces(apply_traces(m, first), second).contains_key(second[j].id),
        apply_traces(apply_traces(m, first), second)[second[j].id] == second[j],
{
    lemma_apply_traces_hit(apply_traces(m, first), second, j);
}

/// The span index of logs numbered by position lists, in increasing
/// order, exactly the positions of the logs that carry the span id.
proof fn lemma_span_indices_shape(logs: Seq<Log>, s: u64)
    requires
        forall|i: int| 0 <= i < logs.len() ==> (#[trigger] logs[i]).idx == i,
    ensures
        forall|k: int| 0 <= k < span_indices(logs, s).len() ==> {
            let p = #[trigger] span_indices(logs, s)[k];
            p < logs.len() && logs[p as int].span_id == Some(s)
        },
        forall|a: int, b: int| 0 <= a < b < span_indices(logs, s).len()
            ==> #[trigger] span_indices(logs, s)[a] < #[trigger] span_indices(logs, s)[b],
        forall|i: int| 0 <= i < logs.len() && (#[trigger] logs[i]).span_id == Some(s)
            ==> span_indices(logs, s).contains(i as usize),
    decreases logs.len(),
{
    if logs.len() > 0 {
        let rest = logs.drop_last();
        assert forall|i: int| 0 <= i < rest.len() implies (#[trigger] rest[i]).idx == i by {
            assert(rest[i] == logs[i]);
        }
        lemma_span_indices_shape(rest, s);
        let si = span_indices(logs, s);
        let sr = span_indices(rest, s);
        assert forall|i: int| 0 <= i < logs.len() && (#[trigger] logs[i]).span_id == Some(s)
            implies si.contains(i as usize) by {
            if i < logs.len() - 1 {
                assert(rest[i] == logs[i]);
                let k = choose|k: int| 0 <= k < sr.len() && sr[k] == i as usize;
                assert(si[k] == sr[k]);
            } else {
                assert(si[si.len() - 1] == i as usize);
            }
        }
    }
}

/// Every log's idx is its position, so positions strictly increase along
/// the sequence; appending a batch renumbered after the current logs keeps
/// the earlier logs and numbers every log by its position again.
pub proof fn law_idx_positions(before: Seq<Log>, batch: Seq<Log>)
    requires
        forall|i: int| 0 <= i < before.len() ==> (#[trigger] before[i]).idx == i,
        before.len() + batch.len() <= usize::MAX,
    ensures
        ({
            let after = before + appended(batch, before.len());
            &&& after.subrange(0, before.len() as int) == before
            &&& forall|i: int| 0 <= i < after.len() ==> (#[trigger] after[i]).idx == i
            &&& forall|i: int, j: int| 0 <= i < j < after.len() ==> #[trigger] after[i].idx < #[trigger] after[j].idx
        }),
{
    let after = before + appended(batch, before.len());
    assert(after.subrange(0, before.len() as int) =~= before);
    assert forall|i: int| 0 <= i < after.len() implies (#[trigger] after[i]).idx == i by {
        if i >= before.len() {
            assert(after[i] == with_idx(batch[i - before.len()], i as usize));
        }
    }
    assert forall|i: int, j: int| 0 <= i < j < after.len() implies #[trigger] after[i].idx < #[trigger] after[j].idx by {
        assert(after[i].idx == i && after[j].idx == j);
    }
}

/// In a well-formed warehouse, every log that carries span id `s` has its
/// idx listed under `s` exactly once, and that list is in insertion order
/// and names no log that does not carry `s`.
pub proof fn law_span_index_complete(w: &Warehouse, s: u64)
    requires
        w.wf(),
    ensures
        forall|i: int| 0 <= i < w.logs@.len() && (#[trigger] w.logs@[i]).span_id == Some(s)
            ==> w.span_log_map@.contains_key(s) && w.span_log_map@[s]@.contains(i as usize),
        w.span_log_map@.contains_key(s) ==> {
            let l = w.span_log_map@[s]@;
            &&& forall|a: int, b: int| 0 <= a < b < l.len() ==> #[trigger] l[a] < #[trigger] l[b]
            &&& forall|k: int| 0 <= k < l.len() ==> {
                let p = #[trigger] l[k];
                p < w.logs@.len() && w.logs@[p as int].span_id == Some(s)
            }
        },
{
    lemma_span_indices_shape(w.logs@, s);
    assert forall|i: int| 0 <= i < w.logs@.len() && (#[trigger] w.logs@[i]).span_id == Some(s)
        implies w.span_log_map@.contains_key(s) && w.span_log_map@[s]@.contains(i as usize) by {
        let si = span_indices(w.logs@, s);
        assert(si.contains(i as usize));
        let k = choose|k: int| 0 <= k < si.len() && si[k] == i as usize;
        assert(si.len() > 0);
        assert(w.span_log_map@.contains_key(s));
    }
}

/// The outcome of looking a trace up by the text of its id.
#[derive(Debug)]
pub enum TraceLookup<'a> {
    /// The text is no trace id.
    InvalidId,
    /// No trace is stored under that id.
    NotFound,
    Found(&'a Trace),
}

/// The logs of `logs` whose process id starts with `prefix` (a
/// case-sensitive match), in order.
pub fn logs_matching_prefix(logs: &Vec<Log>, prefix: &str) -> (r: Vec<Log>)
    ensures
        r@ == prefix_matches(logs@, prefix@),
{
    let mut r: Vec<Log> = Vec::new();
    let mut i: usize = 0;
    while i < logs.len()
        invariant
            i <= logs@.len(),
            r@ == prefix_matches(logs@.subrange(0, i as int), prefix@),
        decreases logs@.len() - i,
    {
        assert(logs@.subrange(0, i + 1).drop_last() =~= logs@.subrange(0, i as int));
        if has_text_at(logs[i].process_id.as_str(), 0, prefix) {
            r.push(logs[i].copy());
        }
        i = i + 1;
    }
    assert(logs@.subrange(0, logs@.len() as int) =~= logs@);
    r
}

/// The in-memory store.
#[derive(Debug)]
pub struct Warehouse {
    /// Every registered process, in order of registration.
    pub processes: Vec<Process>,
    /// Traces by their id.
    pub traces: HashMap<u64, Trace>,
    /// Every log, the `i`th with `idx == i`.
    pub logs: Vec<Log>,
    /// For each span id, the positions of the logs that carry it.
    pub span_log_map: HashMap<u64, Vec<usize>>,
}

impl Warehouse {
    /// Each log's idx is its position; no trace is stored under id zero
    /// and each is stored under its own id; the span index lists, for
    /// every span id and only for those that occur, the positions of its
    /// logs in order.
    pub open spec fn wf(&self) -> bool {
        &&& forall|i: int| 0 <= i < self.logs@.len() ==> (#[trigger] self.logs@[i]).idx == i
        &&& forall|i: int| 0 <= i < self.logs@.len() ==> (#[trigger] self.logs@[i]).span_id != Some(0u64)
        &&& forall|k: u64| #[trigger] self.traces@.contains_key(k) ==> k != 0 && self.traces@[k].id == k
        &&& forall|s: u64| #[trigger] self.span_log_map@.contains_key(s)
            <==> span_indices(self.logs@, s).len() > 0
        &&& forall|s: u64| #[trigger] self.span_log_map@.contains_key(s)
            ==> self.span_log_map@[s]@ == span_indices(self.logs@, s)
    }

    pub fn new() -> (r: Warehouse)
        ensures
            r.wf(),
            r.processes@.len() == 0,
            r.traces@ == Map::<u64, Trace>::empty(),
            r.logs@.len() == 0,
            r.span_log_map@ == Map::<u64, Vec<usize>>::empty(),
    {
        Warehouse {
            processes: Vec::new(),
            traces: HashMap::new(),
            logs: Vec::new(),
            span_log_map: HashMap::new(),
        }
    }

    pub fn services(&self) -> (r: &Vec<Process>)
        ensures
            *r == self.processes,
    {
        &self.processes
    }

    pub fn traces(&self) -> (r: &HashMap<u64, Trace>)
        ensures
            *r == self.traces,
    {
        &self.traces
    }

    pub fn logs(&self) -> (r: &Vec<Log>)
        ensures
            *r == self.logs,
    {
        &self.logs
    }

    pub fn span_log_map(&self) -> (r: &HashMap<u64, Vec<usize>>)
        ensures
            *r == self.span_log_map,
    {
        &self.span_log_map
    }

    /// Registers one more process of `service_name` and returns a copy of it.
    pub fn register_process(&mut self, service_name: String, tags: Vec<Tag>) -> (r: Process)
        requires
            old(self).processes@.len() < usize::MAX,
        ensures
            r.id@ == process_id_text(service_name@, count_service(old(self).processes@, service_name@)),
            r.service_name == service_name,
            r.tags@ == tags@,
            final(self).processes@.len() == old(self).processes@.len() + 1,
            forall|i: int| 0 <= i < old(self).processes@.len()
                ==> #[trigger] final(self).processes@[i] == old(self).processes@[i],
            final(self).processes@.last().id == r.id,
            final(self).processes@.last().service_name == r.service_name,
            final(self).processes@.last().tags@ == r.tags@,
            final(self).traces == old(self).traces,
            final(self).logs == old(self).logs,
            final(self).span_log_map == old(self).span_log_map,
    {
        let ghost ps = self.processes@;
        let mut count: usize = 0;
        let mut i: usize = 0;
        while i < self.processes.len()
            invariant
                ps == self.processes@,
                i <= ps.len(),
                count <= i,
                count == count_service(ps.subrange(0, i as int), service_name@),
            decreases ps.len() - i,
        {
            assert(ps.subrange(0, i + 1).drop_last() =~= ps.subrange(0, i as int));
            if self.processes[i].service_name == service_name {
                count = count + 1;
            }
            i = i + 1;
        }
        assert(ps.subrange(0, ps.len() as int) =~= ps);
        let mut id = service_name.clone();
        proof {
            reveal_strlit(":");
        }
        id.append(":");
        push_decimal(&mut id, count as u64);
        let process = Process { id, service_name, tags };
        self.processes.push(process.copy());
        process
    }

    /// Merges one ingested batch: traces are stored by id, replacing any
    /// earlier trace of that id; logs are appended in order, each numbered
    /// by its position, and those with a span id are indexed under it.
    pub fn merge_data(&mut self, data: AggregatedData)
        requires
            old(self).wf(),
            data.wf(),
            old(self).logs@.len() + data.logs@.len() <= usize::MAX,
        ensures
            final(self).wf(),
            final(self).traces@ == apply_traces(old(self).traces@, data.traces@),
            final(self).logs@ == old(self).logs@ + appended(data.logs@, old(self).logs@.len()),
            final(self).processes == old(self).processes,
    {
        let ghost old_traces = self.traces@;
        let ghost all_traces = data.traces@;
        let ghost batch = data.logs@;
        let AggregatedData { traces: mut incoming, logs: batch_logs } = data;
        while incoming.len() > 0
            invariant
                incoming@ == all_traces.subrange(0, incoming@.len() as int),
                incoming@.len() <= all_traces.len(),
                forall|i: int| 0 <= i < all_traces.len() ==> #[trigger] all_traces[i].id != 0,
                apply_traces(self.traces@, incoming@) == apply_traces(old_traces, all_traces),
                forall|k: u64| #[trigger] self.traces@.contains_key(k) ==> k != 0 && self.traces@[k].id == k,
                self.logs@ == old(self).logs@,
                self.span_log_map@ == old(self).span_log_map@,
                self.processes == old(self).processes,
            decreases incoming@.len(),
        {
            let ghost before = incoming@;
            let t = incoming.pop().unwrap();
            assert(before.last() == all_traces[before.len() - 1]);
            assert(before.drop_last() =~= incoming@);
            self.traces.insert(t.id, t);
        }
        assert(all_traces.subrange(0, all_traces.len() as int) =~= all_traces);

        let ghost old_logs = self.logs@;
        let base = self.logs.len();
        let n = batch_logs.len();
        self.logs.reserve(n);
        let mut i: usize = 0;
        while i < n
            invariant
                n == batch.len(),
                batch_logs@ == batch,
                base == old_logs.len(),
                base + n <= usize::MAX,
                i <= n,
                self.logs@ == old_logs + appended(batch.subrange(0, i as int), base as nat),
                forall|j: int| 0 <= j < batch.len() ==> #[trigger] batch[j].span_id != Some(0u64),
                forall|j: int| 0 <= j < self.logs@.len() ==> (#[trigger] self.logs@[j]).idx == j,
                forall|j: int| 0 <= j < self.logs@.len() ==> (#[trigger] self.logs@[j]).span_id != Some(0u64),
                forall|s: u64| #[trigger] self.span_log_map@.contains_key(s)
                    <==> span_indices(self.logs@, s).len() > 0,
                forall|s: u64| #[trigger] self.span_log_map@.contains_key(s)
                    ==> self.span_log_map@[s]@ == span_indices(self.logs@, s),
                forall|k: u64| #[trigger] self.traces@.contains_key(k) ==> k != 0 && self.traces@[k].id == k,
                self.traces@ == apply_traces(old_traces, all_traces),
                self.processes == old(self).processes,
            decreases n - i,
        {
            let mut log = batch_logs[i].copy();
            let idx = base + i;
            let ghost prev_logs = self.logs@;
            let ghost prev_map = self.span_log_map@;
            log.idx = idx;
            if let Some(s) = log.span_id {
                let mut positions = match self.span_log_map.remove(&s) {
                    Some(v) => v,
                    None => Vec::new(),
                };
                positions.push(idx);
                self.span_log_map.insert(s, positions);
            }
            self.logs.push(log);
            proof {
                assert(self.logs@.drop_last() =~= prev_logs);
                assert forall|s: u64| #[trigger] span_indices(self.logs@, s) == if log.span_id == Some(s) {
                    span_indices(prev_logs, s).push(idx)
                } else {
                    span_indices(prev_logs, s)
                } by {}
                assert(appended(batch.subrange(0, i + 1), base as nat) =~= appended(
                    batch.subrange(0, i as int),
                    base as nat,
                ).push(with_idx(batch[i as int], idx)));
                assert(self.logs@ =~= old_logs + appended(batch.subrange(0, i + 1), base as nat));
            }
            i = i + 1;
        }
        assert(batch.subrange(0, n as int) =~= batch);
    }

    /// The logs whose process id starts with `prefix`, in store order.
    pub fn logs_with_prefix(&self, prefix: &str) -> (r: Vec<Log>)
        ensures
            r@ == prefix_matches(self.logs@, prefix@),
    {
        logs_matching_prefix(&self.logs, prefix)
    }

    /// The names of the services with a registered process, each once, in
    /// order of first registration.
    pub fn service_names(&self) -> (r: Vec<String>)
        ensures
            r@.map_values(|n: String| n@) == service_names_of(self.processes@),
    {
        let mut r: Vec<String> = Vec::new();
        let mut i: usize = 0;
        while i < self.processes.len()
            invariant
                i <= self.processes@.len(),
                r@.map_values(|n: String| n@) == service_names_of(self.processes@.subrange(0, i as int)),
            decreases self.processes@.len() - i,
        {
            let ghost names = r@.map_values(|n: String| n@);
            assert(self.processes@.subrange(0, i + 1).drop_last() =~= self.processes@.subrange(0, i as int));
            let name = &self.processes[i].service_name;
            let mut found = false;
            let mut j: usize = 0;
            while j < r.len()
                invariant
                    j <= r@.len(),
                    names == r@.map_values(|n: String| n@),
                    found == exists|k: int| 0 <= k < j && names[k] == name@,
                decreases r@.len() - j,
            {
                if r[j] == *name {
                    found = true;
                }
                assert(names[j as int] == r@[j as int]@);
                j = j + 1;
            }
            assert(found == names.contains(name@));
            if !found {
                r.push(name.clone());
                assert(r@.map_values(|n: String| n@) =~= names.push(name@));
            }
            i = i + 1;
        }
        assert(self.processes@.subrange(0, self.processes@.len() as int) =~= self.processes@);
        r
    }

    /// Looks a trace up by its id written in decimal.
    pub fn lookup_trace(&self, id_text: &str) -> (r: TraceLookup)
        ensures
            match u64_text_value(id_text@) {
                None => r is InvalidId,
                Some(id) => match r {
                    TraceLookup::Found(t) => self.traces@.contains_key(id) && *t == self.traces@[id],
                    TraceLookup::NotFound => !self.traces@.contains_key(id),
                    TraceLookup::InvalidId => false,
                },
            },
    {
        match parse_u64(id_text) {
            None => TraceLookup::InvalidId,
            Some(id) => match self.find_trace(id) {
                Some(t) => TraceLookup::Found(t),
                None => TraceLookup::NotFound,
            },
        }
    }

    /// The trace stored under `id`, if any.
    pub fn find_trace(&self, id: u64) -> (r: Option<&Trace>)
        ensures
            match r {
                Some(t) => self.traces@.contains_key(id) && *t == self.traces@[id],
                None => !self.traces@.contains_key(id),
            },
    {
        self.traces.get(&id)
    }
}

} // verus!
