//! Per-batch encoding, and the decisions of the bounded batch dispatcher.
use vstd::prelude::*;
use crate::line_protocol::{format_to_lp, lp_lines, strings_view, Metric};
use crate::schema_index::SchemaIndex;

verus! {

/// Most batch tasks in flight at once.
pub const MAX_TASKS: usize = 16;

/// The lines that one record of a batch contributes: none where it did not
/// parse or could not be encoded.
pub open spec fn record_lines(r: Option<Metric>, index: Map<Seq<char>, Seq<char>>) -> Seq<Seq<char>> {
    match r {
        Some(m) => match lp_lines(m, index) {
            Ok(v) => v,
            Err(_) => Seq::empty(),
        },
        None => Seq::empty(),
    }
}

/// A record counts as encoded when it parsed, encoded without error and gave
/// at least one line.
pub open spec fn record_counts(r: Option<Metric>, index: Map<Seq<char>, Seq<char>>) -> bool {
    record_lines(r, index).len() > 0
}

/// The lines of a batch, record after record.
pub open spec fn batch_lines(rs: Seq<Option<Metric>>, index: Map<Seq<char>, Seq<char>>) -> Seq<Seq<char>>
    decreases rs.len(),
{
    if rs.len() == 0 {
        Seq::empty()
    } else {
        batch_lines(rs.drop_last(), index) + record_lines(rs.last(), index)
    }
}

/// The number of records of a batch that count as encoded.
pub open spec fn batch_count(rs: Seq<Option<Metric>>, index: Map<Seq<char>, Seq<char>>) -> nat
    decreases rs.len(),
{
    if rs.len() == 0 {
        0
    } else {
        batch_count(rs.drop_last(), index) + if record_counts(rs.last(), index) { 1nat } else { 0nat }
    }
}

/// A record whose name is not mapped adds no line to its batch and nothing to
/// the batch's count.
pub proof fn lemma_unmapped_record_uncounted(rs: Seq<Option<Metric>>, m: Metric, index: Map<Seq<char>, Seq<char>>)
    requires
        !index.contains_key(m.meta.name@),
    ensures
        batch_lines(rs.push(Some(m)), index) == batch_lines(rs, index),
        batch_count(rs.push(Some(m)), index) == batch_count(rs, index),
{
    assert(rs.push(Some(m)).drop_last() =~= rs);
    assert(batch_lines(rs.push(Some(m)), index) =~= batch_lines(rs, index));
}

/// What one batch task writes and adds to the run's counter.
pub struct EncodedBatch {
    pub lines: Vec<String>,
    pub encoded: usize,
}

proof fn lemma_count_bound(rs: Seq<Option<Metric>>, index: Map<Seq<char>, Seq<char>>)
    ensures
        batch_count(rs, index) <= rs.len(),
    decreases rs.len(),
{
    if rs.len() > 0 {
        lemma_count_bound(rs.drop_last(), index);
    }
}

/// Encodes the records of one batch; `None` stands for a record that did not
/// parse. Records that fail are skipped; the lines of the others are kept in
/// record order.
pub fn encode_batch(records: &Vec<Option<Metric>>, schema: &SchemaIndex) -> (r: EncodedBatch)
    ensures
        strings_view(r.lines@) == batch_lines(records@, schema@),
        r.encoded == batch_count(records@, schema@),
{
    let mut lines: Vec<String> = Vec::new();
    let mut encoded: usize = 0;
    let mut i: usize = 0;
    while i < records.len()
        invariant
            i <= records@.len(),
            strings_view(lines@) == batch_lines(records@.take(i as int), schema@),
            encoded == batch_count(records@.take(i as int), schema@),
        decreases records@.len() - i,
    {
        proof {
            lemma_count_bound(records@.take(i as int), schema@);
        }
        assert(records@.take(i + 1).drop_last() =~= records@.take(i as int));
        match &records[i] {
            Some(m) => match format_to_lp(m, schema) {
                Ok(v) => {
                    let mut j: usize = 0;
                    let ghost before = lines@;
                    while j < v.len()
                        invariant
                            j <= v@.len(),
                            strings_view(lines@) == strings_view(before) + strings_view(v@).take(j as int),
                        decreases v@.len() - j,
                    {
                        let ghost prev = lines@;
                        lines.push(v[j].clone());
                        assert(strings_view(lines@) =~= strings_view(prev).push(v@[j as int]@));
                        assert(strings_view(v@).take(j + 1) =~= strings_view(v@).take(j as int).push(v@[j as int]@));
                        j = j + 1;
                    }
                    assert(strings_view(v@).take(j as int) =~= strings_view(v@));
                    if v.len() > 0 {
                        encoded = encoded + 1;
                    }
                },
                Err(_) => {
                    assert(batch_lines(records@.take(i + 1), schema@) =~= batch_lines(records@.take(i as int), schema@));
                },
            },
            None => {
                assert(batch_lines(records@.take(i + 1), schema@) =~= batch_lines(records@.take(i as int), schema@));
            },
        }
        i = i + 1;
    }
    assert(records@.take(i as int) =~= records@);
    EncodedBatch { lines, encoded }
}

/// What the loop that drives the tasks does next.
#[derive(Clone, Copy, Debug, PartialEq, Eq, Structural)]
pub enum DispatchAction {
    /// Start a task for the batch at hand.
    Spawn,
    /// Wait until some task in flight completes, then ask again.
    WaitForAny,
    /// Nothing is in flight and no batch is left: the run is over.
    Done,
}

/// The dispatcher's state: the cap, the tasks in flight and the running
/// count of encoded records.
pub struct Dispatcher {
    max_tasks: usize,
    in_flight: usize,
    encoded_total: usize,
}

pub struct DispatcherView {
    pub max_tasks: nat,
    pub in_flight: nat,
    pub encoded_total: nat,
}

/// The state after a batch is offered.
pub open spec fn after_batch(s: DispatcherView) -> (DispatcherView, DispatchAction) {
    if s.in_flight < s.max_tasks {
        (DispatcherView { in_flight: s.in_flight + 1, ..s }, DispatchAction::Spawn)
    } else {
        (s, DispatchAction::WaitForAny)
    }
}

/// The state after a task completes that encoded `encoded` records; whether
/// its write succeeded plays no part.
pub open spec fn after_completion(s: DispatcherView, encoded: nat, write_ok: bool) -> DispatcherView {
    DispatcherView {
        in_flight: (s.in_flight - 1) as nat,
        encoded_total: if s.encoded_total + encoded <= usize::MAX {
            s.encoded_total + encoded
        } else {
            usize::MAX as nat
        },
        ..s
    }
}

impl View for Dispatcher {
    type V = DispatcherView;

    closed spec fn view(&self) -> DispatcherView {
        DispatcherView {
            max_tasks: self.max_tasks as nat,
            in_flight: self.in_flight as nat,
            encoded_total: self.encoded_total as nat,
        }
    }
}

impl Dispatcher {
    /// Never more tasks in flight than the cap, and the cap is positive.
    pub open spec fn wf(&self) -> bool {
        0 < self@.max_tasks && self@.in_flight <= self@.max_tasks && self@.encoded_total <= usize::MAX
            && self@.max_tasks <= usize::MAX
    }

    pub fn new(max_tasks: usize) -> (r: Dispatcher)
        requires
            max_tasks > 0,
        ensures
            r.wf(),
            r@ == (DispatcherView { max_tasks: max_tasks as nat, in_flight: 0, encoded_total: 0 }),
    {
        Dispatcher { max_tasks, in_flight: 0, encoded_total: 0 }
    }

    pub fn in_flight(&self) -> (r: usize)
        ensures
            r == self@.in_flight,
    {
        self.in_flight
    }

    /// The records encoded by the tasks completed so far.
    pub fn encoded_total(&self) -> (r: usize)
        ensures
            r == self@.encoded_total,
    {
        self.encoded_total
    }

    /// A batch is ready: spawn it if a slot is free, else wait for a task.
    pub fn offer_batch(&mut self) -> (r: DispatchAction)
        requires
            old(self).wf(),
        ensures
            final(self).wf(),
            (final(self)@, r) == after_batch(old(self)@),
            final(self)@ == step(old(self)@, DispatchEvent::BatchReady),
    {
        if self.in_flight < self.max_tasks {
            self.in_flight = self.in_flight + 1;
            DispatchAction::Spawn
        } else {
            DispatchAction::WaitForAny
        }
    }

    /// A task has completed, having encoded `encoded` records; the write's
    /// outcome is reported but changes nothing.
    pub fn task_completed(&mut self, encoded: usize, write_ok: bool)
        requires
            old(self).wf(),
            old(self)@.in_flight > 0,
        ensures
            final(self).wf(),
            final(self)@ == after_completion(old(self)@, encoded as nat, write_ok),
            final(self)@ == step(old(self)@, DispatchEvent::TaskDone { encoded, write_ok }),
    {
        self.in_flight = self.in_flight - 1;
        self.encoded_total = self.encoded_total.saturating_add(encoded);
    }

    /// Input has ended: wait for the tasks in flight, then stop.
    pub fn input_ended(&self) -> (r: DispatchAction)
        ensures
            self@.in_flight > 0 ==> r == DispatchAction::WaitForAny,
            self@.in_flight == 0 ==> r == DispatchAction::Done,
    {
        if self.in_flight > 0 {
            DispatchAction::WaitForAny
        } else {
            DispatchAction::Done
        }
    }
}

/// What the dispatcher is told: a batch is ready, or a task has completed.
pub enum DispatchEvent {
    BatchReady,
    TaskDone { encoded: usize, write_ok: bool },
}

/// The state after one event; a completion with nothing in flight changes
/// nothing.
pub open spec fn step(s: DispatcherView, e: DispatchEvent) -> DispatcherView {
    match e {
        DispatchEvent::BatchReady => after_batch(s).0,
        DispatchEvent::TaskDone { encoded, write_ok } => if s.in_flight > 0 {
            after_completion(s, encoded as nat, write_ok)
        } else {
            s
        },
    }
}

/// The state after a run of events, in order.
pub open spec fn run(s: DispatcherView, es: Seq<DispatchEvent>) -> DispatcherView
    decreases es.len(),
{
    if es.len() == 0 {
        s
    } else {
        step(run(s, es.drop_last()), es.last())
    }
}

/// After any run of batch offers and completions, in any order and of any
/// length, and at every point along it, the tasks in flight are within the
/// cap; and a batch is spawned only while fewer than the cap are in flight.
pub proof fn lemma_run_in_flight_bounded(s: DispatcherView, es: Seq<DispatchEvent>)
    requires
        s.in_flight <= s.max_tasks,
    ensures
        run(s, es).in_flight <= s.max_tasks,
        run(s, es).max_tasks == s.max_tasks,
        forall|k: int| 0 <= k <= es.len() ==> (#[trigger] run(s, es.take(k))).in_flight <= s.max_tasks,
        forall|t: DispatcherView| #[trigger] after_batch(t).1 == DispatchAction::Spawn ==> t.in_flight
            < t.max_tasks && after_batch(t).0.in_flight == t.in_flight + 1,
    decreases es.len(),
{
    if es.len() > 0 {
        lemma_run_in_flight_bounded(s, es.drop_last());
        assert forall|k: int| 0 <= k <= es.len() implies (#[trigger] run(s, es.take(k))).in_flight <= s.max_tasks by {
            if k < es.len() {
                assert(es.take(k) =~= es.drop_last().take(k));
            } else {
                assert(es.take(k) =~= es);
            }
        }
    } else {
        assert(es.take(0) =~= es);
    }
}

/// A failed write leaves the dispatcher as a successful one would, and the
/// slot it frees lets the next batch be spawned.
pub proof fn lemma_failure_isolated(s: DispatcherView, encoded: nat)
    requires
        0 < s.in_flight <= s.max_tasks,
    ensures
        after_completion(s, encoded, false) == after_completion(s, encoded, true),
        after_batch(after_completion(s, encoded, false)).1 == DispatchAction::Spawn,
{
}

} // verus!
