//! The buffer of open request records and its periodic flush.
//!
//! A record is created when a request is admitted, completed once by the
//! handler, and leaves the buffer only through [`RequestBuffer::process`],
//! which hands every record to the caller as a batch for durable storage. A
//! batch whose write failed comes back through [`RequestBuffer::retain`] and is
//! handed out again by the next `process`. The buffer keeps a bounded number
//! of such batches; when the bound is reached the oldest batch is dropped and
//! its records are counted as lost.

use vstd::prelude::*;

verus! {

/// Seconds between two flushes.
pub const FLUSH_INTERVAL_SECONDS: u64 = 5;

/// A JSON document, carried through the buffer without being read.
#[verifier::external_type_specification]
#[verifier::external_body]
pub struct ExJsonValue(serde_json::Value);

/// Who a request is accounted to.
#[derive(Clone, Debug, PartialEq, Eq)]
pub enum CallerIdentity {
    /// An authenticated organization, named by its API key.
    Organization(String),
    /// An unauthenticated caller.
    Anonymous,
}

impl CallerIdentity {
    /// Whether records of this caller get an identifier.
    pub open spec fn attributable(self) -> bool {
        self is Organization
    }

    /// Whether records of this caller get an identifier.
    pub fn is_attributable(&self) -> (r: bool)
        ensures
            r == self.attributable(),
    {
        match self {
            CallerIdentity::Organization(_) => true,
            CallerIdentity::Anonymous => false,
        }
    }
}

/// What is known of a request when it arrives.
#[derive(Clone, Debug, PartialEq, Eq)]
pub struct RequestMetadata {
    pub identity: CallerIdentity,
    pub method: String,
    pub path: String,
    pub ip: String,
    pub user_agent: String,
    pub origin: Option<String>,
    /// Clock reading, in seconds, at which the request arrived.
    pub started_at: u64,
}

/// What the handler reports when the request is done.
#[derive(Clone, Debug, PartialEq, Eq)]
pub struct Outcome {
    pub status_code: i16,
    pub duration_ms: i32,
    pub annotations: Option<serde_json::Value>,
    pub error: Option<String>,
}

/// A request that was admitted and not yet written to durable storage.
#[derive(Clone, Debug, PartialEq, Eq)]
pub struct PendingRequest {
    /// Present when the caller is attributable.
    pub id: Option<u64>,
    pub metadata: RequestMetadata,
    /// Unset until the handler reports completion.
    pub outcome: Option<Outcome>,
}

/// The outcome of a request as it is written to durable storage.
#[derive(Clone, Debug, PartialEq, Eq)]
pub enum FinalOutcome {
    /// The handler reported this outcome before the flush.
    Completed(Outcome),
    /// The request was still open when it was flushed.
    Incomplete,
}

/// A row for durable storage.
#[derive(Clone, Debug, PartialEq, Eq)]
pub struct PersistedRecord {
    pub id: Option<u64>,
    pub metadata: RequestMetadata,
    pub outcome: FinalOutcome,
}

/// The row that a record is flushed as.
pub open spec fn persisted(r: PendingRequest) -> PersistedRecord {
    PersistedRecord {
        id: r.id,
        metadata: r.metadata,
        outcome: match r.outcome {
            Some(o) => FinalOutcome::Completed(o),
            None => FinalOutcome::Incomplete,
        },
    }
}

/// Whether the record is the open one with identifier `id`.
pub open spec fn awaits(r: PendingRequest, id: u64) -> bool {
    r.id == Some(id) && r.outcome is None
}

/// The record after `outcome` was reported for `id`: completed if it is the
/// open record of that identifier, untouched otherwise.
pub open spec fn finish_record(r: PendingRequest, id: u64, outcome: Outcome) -> PendingRequest {
    if awaits(r, id) {
        PendingRequest { id: r.id, metadata: r.metadata, outcome: Some(outcome) }
    } else {
        r
    }
}

/// The state of a buffer.
pub ghost struct BufferView {
    /// The records created since the last flush, in order of creation.
    pub pending: Seq<PendingRequest>,
    /// The identifier that the next attributable record gets.
    pub next_id: u64,
    /// The batches whose write failed, oldest first.
    pub retained: Seq<Seq<PersistedRecord>>,
    /// The number of failed batches that are kept for another attempt.
    pub max_retained: usize,
    /// The records that were dropped without being written.
    pub lost: u64,
}

impl BufferView {
    /// Identifiers are handed out in increasing order, so no two pending
    /// records share one; and no more batches are kept than the bound allows.
    pub open spec fn wf(self) -> bool {
        &&& forall|i: int|
            0 <= i < self.pending.len() ==> ((#[trigger] self.pending[i]).id matches Some(x) ==> x
                < self.next_id)
        &&& forall|i: int, j: int|
            0 <= i < j < self.pending.len() && (#[trigger] self.pending[i]).id is Some ==> (
            #[trigger] self.pending[j]).id != self.pending[i].id
        &&& self.retained.len() <= self.max_retained
    }

    /// The identifier that a record with `metadata` gets when it is created
    /// in this state: the next one for an attributable caller, as long as
    /// identifiers are left.
    pub open spec fn created_id(self, metadata: RequestMetadata) -> Option<u64> {
        if metadata.identity.attributable() && self.next_id < u64::MAX {
            Some(self.next_id)
        } else {
            None
        }
    }

    /// The state after a record with `metadata` was created.
    pub open spec fn create(self, metadata: RequestMetadata) -> BufferView {
        BufferView {
            pending: self.pending.push(
                PendingRequest { id: self.created_id(metadata), metadata, outcome: None },
            ),
            next_id: if self.created_id(metadata) is Some {
                (self.next_id + 1) as u64
            } else {
                self.next_id
            },
            ..self
        }
    }

    /// Whether an open record with identifier `id` is pending.
    pub open spec fn has_open(self, id: u64) -> bool {
        exists|i: int| 0 <= i < self.pending.len() && awaits(#[trigger] self.pending[i], id)
    }

    /// The state after `outcome` was reported for `id`.
    pub open spec fn finish(self, id: u64, outcome: Outcome) -> BufferView {
        BufferView {
            pending: Seq::new(
                self.pending.len(),
                |i: int| finish_record(self.pending[i], id, outcome),
            ),
            ..self
        }
    }

    /// The pending records as one batch of rows, in order of creation.
    pub open spec fn fresh_batch(self) -> Seq<PersistedRecord> {
        self.pending.map_values(|r: PendingRequest| persisted(r))
    }

    /// What a flush hands out: the batches that failed before, oldest first,
    /// then the pending records as one batch if there are any.
    pub open spec fn flush_batches(self) -> Seq<Seq<PersistedRecord>> {
        if self.pending.len() > 0 {
            self.retained.push(self.fresh_batch())
        } else {
            self.retained
        }
    }

    /// The state after a flush: nothing pending, nothing retained.
    pub open spec fn process(self) -> BufferView {
        BufferView {
            pending: Seq::<PendingRequest>::empty(),
            retained: Seq::<Seq<PersistedRecord>>::empty(),
            ..self
        }
    }

    /// The counter of lost records after `n` more were dropped; it stops at
    /// the largest value it can hold.
    pub open spec fn lost_after(self, n: nat) -> u64 {
        if self.lost + n <= u64::MAX {
            (self.lost + n) as u64
        } else {
            u64::MAX
        }
    }

    /// The state after a batch whose write failed was handed back: it is
    /// kept for the next flush; if the bound on kept batches is reached, the
    /// oldest kept batch is dropped for it; with a bound of zero the batch
    /// itself is dropped.
    pub open spec fn retain(self, batch: Seq<PersistedRecord>) -> BufferView {
        if self.max_retained == 0 {
            BufferView { lost: self.lost_after(batch.len()), ..self }
        } else if self.retained.len() < self.max_retained {
            BufferView { retained: self.retained.push(batch), ..self }
        } else {
            BufferView {
                retained: self.retained.skip(1).push(batch),
                lost: self.lost_after(self.retained[0].len()),
                ..self
            }
        }
    }
}

/// The batches of a vector of batches.
pub open spec fn batches_of(v: Seq<Vec<PersistedRecord>>) -> Seq<Seq<PersistedRecord>> {
    v.map_values(|b: Vec<PersistedRecord>| b@)
}

/// Open request records awaiting completion and flush.
pub struct RequestBuffer {
    pending: Vec<PendingRequest>,
    next_id: u64,
    retained: Vec<Vec<PersistedRecord>>,
    max_retained: usize,
    lost: u64,
}

impl View for RequestBuffer {
    type V = BufferView;

    closed spec fn view(&self) -> BufferView {
        BufferView {
            pending: self.pending@,
            next_id: self.next_id,
            retained: batches_of(self.retained@),
            max_retained: self.max_retained,
            lost: self.lost,
        }
    }
}

fn persist(r: PendingRequest) -> (row: PersistedRecord)
    ensures
        row == persisted(r),
{
    let outcome = match r.outcome {
        Some(o) => FinalOutcome::Completed(o),
        None => FinalOutcome::Incomplete,
    };
    PersistedRecord { id: r.id, metadata: r.metadata, outcome }
}

fn persist_all(records: Vec<PendingRequest>) -> (rows: Vec<PersistedRecord>)
    ensures
        rows@ == records@.map_values(|r: PendingRequest| persisted(r)),
{
    let ghost all = records@;
    let mut rows: Vec<PersistedRecord> = Vec::with_capacity(records.len());
    for r in it: records
        invariant
            it.seq() == all,
            rows@ == all.take(it.index() as int).map_values(|r: PendingRequest| persisted(r)),
    {
        rows.push(persist(r));
        assert(rows@ =~= all.take(it.index() + 1).map_values(|r: PendingRequest| persisted(r)));
    }
    assert(all.take(all.len() as int) =~= all);
    rows
}

impl RequestBuffer {
    /// The invariant of the buffer.
    pub open spec fn wf(&self) -> bool {
        self@.wf()
    }

    /// The state of a new buffer that keeps up to `max_retained` failed
    /// batches: nothing pending, nothing retained, nothing lost.
    pub open spec fn new_view(max_retained: usize) -> BufferView {
        BufferView {
            pending: Seq::<PendingRequest>::empty(),
            next_id: 0,
            retained: Seq::<Seq<PersistedRecord>>::empty(),
            max_retained,
            lost: 0,
        }
    }

    /// An empty buffer that keeps up to `max_retained` failed batches.
    pub fn new(max_retained: usize) -> (r: Self)
        ensures
            r.wf(),
            r@ == Self::new_view(max_retained),
    {
        let r = RequestBuffer {
            pending: Vec::new(),
            next_id: 0,
            retained: Vec::new(),
            max_retained,
            lost: 0,
        };
        assert(r@.retained =~= Seq::<Seq<PersistedRecord>>::empty());
        r
    }

    /// Number of records created since the last flush.
    pub fn pending_len(&self) -> (n: usize)
        ensures
            n == self@.pending.len(),
    {
        self.pending.len()
    }

    /// Number of failed batches kept for another attempt.
    pub fn retained_len(&self) -> (n: usize)
        ensures
            n == self@.retained.len(),
    {
        self.retained.len()
    }

    /// Number of records that were dropped without being written.
    pub fn lost(&self) -> (n: u64)
        ensures
            n == self@.lost,
    {
        self.lost
    }

    /// Inserts an open record for a request with `metadata`, and returns its
    /// identifier if the caller is attributable.
    pub fn create(&mut self, metadata: RequestMetadata) -> (id: Option<u64>)
        requires
            old(self).wf(),
        ensures
            final(self).wf(),
            final(self)@ == old(self)@.create(metadata),
            id == old(self)@.created_id(metadata),
    {
        let id = if metadata.identity.is_attributable() && self.next_id < u64::MAX {
            let id = self.next_id;
            self.next_id = id + 1;
            Some(id)
        } else {
            None
        };
        self.pending.push(PendingRequest { id, metadata, outcome: None });
        id
    }

    /// Records the outcome of the open request `id`. Reporting an unknown
    /// identifier, or one whose outcome is already recorded, changes nothing;
    /// the result says whether the outcome was recorded.
    pub fn finish(
        &mut self,
        id: u64,
        status_code: i16,
        duration_ms: i32,
        annotations: Option<serde_json::Value>,
        error: Option<String>,
    ) -> (recorded: bool)
        requires
            old(self).wf(),
        ensures
            final(self).wf(),
            recorded == old(self)@.has_open(id),
            final(self)@ == old(self)@.finish(
                id,
                Outcome { status_code, duration_ms, annotations, error },
            ),
    {
        let outcome = Outcome { status_code, duration_ms, annotations, error };
        let mut i: usize = 0;
        let mut found = false;
        while i < self.pending.len()
            invariant_except_break
                !found,
            invariant
                self == old(self),
                i <= self.pending.len(),
                forall|j: int| 0 <= j < i ==> (#[trigger] self.pending@[j]).id != Some(id),
            ensures
                self == old(self),
                i <= self.pending.len(),
                found ==> i < self.pending.len() && self.pending@[i as int].id == Some(id),
                !found ==> i == self.pending.len(),
                forall|j: int| 0 <= j < i ==> (#[trigger] self.pending@[j]).id != Some(id),
            decreases self.pending.len() - i,
        {
            let matches = match self.pending[i].id {
                Some(x) => x == id,
                None => false,
            };
            if matches {
                found = true;
                break ;
            }
            i += 1;
        }
        if found && self.pending[i].outcome.is_none() {
            self.pending[i].outcome = Some(outcome);
            proof {
                assert(awaits(old(self)@.pending[i as int], id));
                assert forall|j: int| 0 <= j < self@.pending.len() implies self@.pending[j]
                    == finish_record(#[trigger] old(self)@.pending[j], id, outcome) by {
                    if j != i {
                        assert(old(self)@.pending[j].id != old(self)@.pending[i as int].id);
                    }
                }
                assert(self@.pending =~= old(self)@.finish(id, outcome).pending);
            }
            true
        } else {
            proof {
                assert forall|j: int| 0 <= j < self@.pending.len() implies !awaits(
                    #[trigger] self@.pending[j],
                    id,
                ) by {
                    if found && j != i {
                        assert(self@.pending[j].id != self@.pending[i as int].id);
                    }
                }
                assert(self@.pending =~= old(self)@.finish(id, outcome).pending);
            }
            false
        }
    }

    /// Empties the buffer for a flush. The result is what has to be written to
    /// durable storage: the batches that failed before, oldest first, and then
    /// every pending record, open or completed, as one batch.
    pub fn process(&mut self) -> (batches: Vec<Vec<PersistedRecord>>)
        requires
            old(self).wf(),
        ensures
            final(self).wf(),
            final(self)@ == old(self)@.process(),
            batches_of(batches@) == old(self)@.flush_batches(),
    {
        let mut batches: Vec<Vec<PersistedRecord>> = Vec::new();
        core::mem::swap(&mut batches, &mut self.retained);
        let mut taken: Vec<PendingRequest> = Vec::new();
        core::mem::swap(&mut taken, &mut self.pending);
        if taken.len() > 0 {
            let fresh = persist_all(taken);
            batches.push(fresh);
            assert(batches_of(batches@) =~= old(self)@.flush_batches());
        }
        assert(self@.retained =~= Seq::<Seq<PersistedRecord>>::empty());
        batches
    }

    /// Takes back a batch whose write failed, for the next flush to hand out
    /// again. No more than the configured number of batches is kept: at the
    /// bound the oldest kept batch is dropped and its records are counted as
    /// lost.
    pub fn retain(&mut self, batch: Vec<PersistedRecord>)
        requires
            old(self).wf(),
        ensures
            final(self).wf(),
            final(self)@ == old(self)@.retain(batch@),
    {
        if self.max_retained == 0 {
            self.lost = count_lost(self.lost, batch.len());
        } else if self.retained.len() < self.max_retained {
            self.retained.push(batch);
            assert(self@.retained =~= old(self)@.retained.push(batch@));
        } else {
            let oldest = self.retained.remove(0);
            self.lost = count_lost(self.lost, oldest.len());
            self.retained.push(batch);
            assert(self@.retained =~= old(self)@.retained.skip(1).push(batch@));
        }
    }
}

fn count_lost(lost: u64, n: usize) -> (r: u64)
    ensures
        r == if lost + n <= u64::MAX {
            (lost + n) as u64
        } else {
            u64::MAX
        },
{
    if n as u64 <= u64::MAX - lost {
        lost + n as u64
    } else {
        u64::MAX
    }
}

/// When the buffer is flushed next.
#[derive(Clone, Copy, Debug, PartialEq, Eq, Structural)]
pub struct FlushScheduler {
    /// Clock reading, in seconds, of the last flush, or of the start.
    pub last_flush: u64,
}

impl FlushScheduler {
    /// Whether a flush is due at `now`: a full interval after the last one.
    pub open spec fn due_at(self, now: u64) -> bool {
        now >= self.last_flush + FLUSH_INTERVAL_SECONDS
    }

    /// A scheduler that starts to count at `now`.
    pub fn new(now: u64) -> (r: Self)
        ensures
            r.last_flush == now,
    {
        FlushScheduler { last_flush: now }
    }

    /// Whether a flush is due at `now`.
    pub fn is_due(&self, now: u64) -> (r: bool)
        ensures
            r == self.due_at(now),
    {
        now >= self.last_flush && now - self.last_flush >= FLUSH_INTERVAL_SECONDS
    }

    /// Says whether a flush is due at `now`, and if it is, counts the next
    /// interval from `now`.
    pub fn tick(&mut self, now: u64) -> (r: bool)
        ensures
            r == old(self).due_at(now),
            final(self).last_flush == if r {
                now
            } else {
                old(self).last_flush
            },
    {
        let due = self.is_due(now);
        if due {
            self.last_flush = now;
        }
        due
    }
}

/// One step in the life of a buffer between two flushes.
pub ghost enum BufferOp {
    /// A record is created for a request with this metadata.
    Create(RequestMetadata),
    /// This outcome is reported for this identifier.
    Finish(u64, Outcome),
}

impl BufferView {
    /// The state after `op`.
    pub open spec fn apply(self, op: BufferOp) -> BufferView {
        match op {
            BufferOp::Create(metadata) => self.create(metadata),
            BufferOp::Finish(id, outcome) => self.finish(id, outcome),
        }
    }

    /// The state after every step of `ops`, in order.
    pub open spec fn apply_all(self, ops: Seq<BufferOp>) -> BufferView
        decreases ops.len(),
    {
        if ops.len() == 0 {
            self
        } else {
            self.apply_all(ops.drop_last()).apply(ops.last())
        }
    }
}

/// The outcome that `ops` report first for the identifier `id`, if any.
pub open spec fn first_report(ops: Seq<BufferOp>, id: Option<u64>) -> Option<Outcome>
    decreases ops.len(),
{
    if ops.len() == 0 {
        None
    } else {
        match first_report(ops.drop_last(), id) {
            Some(o) => Some(o),
            None => match ops.last() {
                BufferOp::Finish(x, o) => if id == Some(x) {
                    Some(o)
                } else {
                    None
                },
                BufferOp::Create(_) => None,
            },
        }
    }
}

/// Creating a record and reporting an outcome keep the buffer well formed.
pub proof fn lemma_steps_preserve_wf(s: BufferView, op: BufferOp)
    requires
        s.wf(),
    ensures
        s.apply(op).wf(),
{
    let t = s.apply(op);
    match op {
        BufferOp::Create(metadata) => {
            let n = s.pending.len() as int;
            assert forall|i: int| 0 <= i < t.pending.len() implies ((#[trigger] t.pending[i]).id matches Some(
                x,
            ) ==> x < t.next_id) by {
                if i < n {
                    assert(t.pending[i] == s.pending[i]);
                }
            }
            assert forall|i: int, j: int|
                0 <= i < j < t.pending.len() && (#[trigger] t.pending[i]).id is Some implies (
            #[trigger] t.pending[j]).id != t.pending[i].id by {
                assert(t.pending[i] == s.pending[i]);
                if j < n {
                    assert(t.pending[j] == s.pending[j]);
                }
            }
        },
        BufferOp::Finish(id, outcome) => {
            assert forall|i: int| 0 <= i < t.pending.len() implies ((#[trigger] t.pending[i]).id matches Some(
                x,
            ) ==> x < t.next_id) by {
                assert(t.pending[i].id == s.pending[i].id);
            }
            assert forall|i: int, j: int|
                0 <= i < j < t.pending.len() && (#[trigger] t.pending[i]).id is Some implies (
            #[trigger] t.pending[j]).id != t.pending[i].id by {
                assert(t.pending[i].id == s.pending[i].id);
                assert(t.pending[j].id == s.pending[j].id);
            }
        },
    }
}

/// A record that was created stays where it is until the flush, with the
/// outcome that was reported for it first, or none.
pub proof fn lemma_record_keeps_its_place(s: BufferView, metadata: RequestMetadata, ops: Seq<BufferOp>)
    requires
        s.wf(),
    ensures
        s.create(metadata).apply_all(ops).wf(),
        s.pending.len() < s.create(metadata).apply_all(ops).pending.len(),
        s.create(metadata).apply_all(ops).pending[s.pending.len() as int] == (PendingRequest {
            id: s.created_id(metadata),
            metadata,
            outcome: first_report(ops, s.created_id(metadata)),
        }),
    decreases ops.len(),
{
    let at = s.pending.len() as int;
    if ops.len() == 0 {
        lemma_steps_preserve_wf(s, BufferOp::Create(metadata));
    } else {
        lemma_record_keeps_its_place(s, metadata, ops.drop_last());
        let before = s.create(metadata).apply_all(ops.drop_last());
        lemma_steps_preserve_wf(before, ops.last());
        match ops.last() {
            BufferOp::Create(m) => {
                assert(before.apply(ops.last()).pending[at] == before.pending[at]);
            },
            BufferOp::Finish(x, o) => {},
        }
    }
}

/// Every record that is created reaches durable storage through the next
/// flush exactly once: the batch of that flush has one row for each pending
/// record, the row of this record carries the outcome that was first reported
/// for it, or the incomplete marker if none was, no other row carries its
/// identifier, and after the flush nothing is pending.
pub proof fn lemma_created_record_is_flushed_once(
    s: BufferView,
    metadata: RequestMetadata,
    ops: Seq<BufferOp>,
)
    requires
        s.wf(),
    ensures
        ({
            let at = s.pending.len() as int;
            let id = s.created_id(metadata);
            let end = s.create(metadata).apply_all(ops);
            &&& end.wf()
            &&& end.flush_batches().len() > 0
            &&& end.flush_batches().last() == end.fresh_batch()
            &&& end.fresh_batch().len() == end.pending.len()
            &&& at < end.fresh_batch().len()
            &&& end.fresh_batch()[at] == (PersistedRecord {
                id,
                metadata,
                outcome: match first_report(ops, id) {
                    Some(o) => FinalOutcome::Completed(o),
                    None => FinalOutcome::Incomplete,
                },
            })
            &&& id is Some ==> forall|j: int|
                0 <= j < end.fresh_batch().len() && j != at ==> (#[trigger] end.fresh_batch()[j]).id
                    != id
            &&& end.process().pending.len() == 0
            &&& end.process().flush_batches().len() == 0
        }),
{
    let at = s.pending.len() as int;
    let id = s.created_id(metadata);
    let end = s.create(metadata).apply_all(ops);
    lemma_record_keeps_its_place(s, metadata, ops);
    if id is Some {
        assert forall|j: int| 0 <= j < end.fresh_batch().len() && j != at implies (
        #[trigger] end.fresh_batch()[j]).id != id by {
            assert(end.fresh_batch()[j].id == end.pending[j].id);
            if j < at {
                assert(end.pending[j].id is Some ==> end.pending[at].id != end.pending[j].id);
            } else {
                assert(end.pending[j].id != end.pending[at].id);
            }
        }
    }
}

/// A batch that is handed back after a failed write is kept unchanged as the
/// newest of the retained batches, which the next flush hands out again, as
/// long as the buffer keeps any batch at all; the buffer never keeps more
/// batches than its bound, and nothing is counted as lost while there is room.
pub proof fn lemma_failed_batch_is_retried(s: BufferView, batch: Seq<PersistedRecord>)
    requires
        s.wf(),
    ensures
        s.retain(batch).wf(),
        s.retain(batch).retained.len() <= s.max_retained,
        s.max_retained > 0 ==> s.retain(batch).retained.len() > 0 && s.retain(
            batch,
        ).retained.last() == batch && s.retain(batch).flush_batches()[s.retain(
            batch,
        ).retained.len() - 1] == batch,
        s.max_retained > 0 && s.retained.len() < s.max_retained ==> s.retain(batch).lost == s.lost,
        s.retain(batch).pending == s.pending,
{
}

} // verus!
