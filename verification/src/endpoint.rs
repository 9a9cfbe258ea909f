//! Identities, capacities and states of the bounded Safe Turn endpoint.
use vstd::prelude::*;

use crate::actor::{RegistryError, StageId};
use crate::cue::{
    drain_count_ok, drained_model, initial_model, prefix_bytes, CueEndpointState, CueLimits, CueQueue, CueQueueError,
    CueQueueModel, CueRecord, DrainBudget, DrainedCues,
};
use crate::direction::StageDirection;

verus! {

/// Nonzero caller-assigned request identity, monotonic within one endpoint epoch.
#[derive(Clone, Copy, Debug, PartialEq, Eq, PartialOrd, Ord, Hash, Structural)]
pub struct RequestId(u32);

impl RequestId {
    /// The serialized identity.
    pub closed spec fn value(self) -> u32 {
        self.0
    }

    /// Construct a request identity, rejecting the reserved zero value.
    pub fn new(raw: u32) -> (r: Option<Self>)
        ensures
            r is None <==> raw == 0,
            r matches Some(id) ==> id.value() == raw,
    {
        if raw == 0 {
            None
        } else {
            Some(RequestId(raw))
        }
    }

    /// The serialized request identity.
    pub fn get(self) -> (r: u32)
        ensures
            r == self.value(),
            r != 0,
    {
        proof {
            use_type_invariant(self);
        }
        self.0
    }

    #[verifier::type_invariant]
    spec fn nonzero(self) -> bool {
        self.0 != 0
    }
}

/// Endpoint construction, admission, drain, or terminal failure.
#[derive(Clone, Copy, Debug, PartialEq, Eq, Structural)]
pub enum EndpointError {
    /// Endpoint capacities are zero, inconsistent, or exceed wire widths.
    InvalidLimits,
    /// A bounded allocation failed before externally visible state changed.
    AllocationFailed,
    /// Endpoint construction or drain failed in the cue queue.
    Cue(CueQueueError),
    /// The endpoint is terminally faulted.
    Faulted(EndpointFault),
    /// Another global record drain still awaits acknowledgment.
    DrainOutstanding,
    /// The supplied drain does not belong to the outstanding endpoint drain.
    DrainMismatch,
    /// The Stage ownership capacity is full.
    StageCapacity,
    /// Stage identifiers must increase strictly and can never be reused.
    StageIdNotMonotonic,
    /// No owned Stage has the supplied identity.
    StageNotFound,
    /// Request identities must increase strictly across accepted batches.
    RequestIdNotMonotonic,
    /// The bounded pending-request queue is full.
    PendingCapacity,
    /// The supplied batch envelope exceeds the negotiated direction bound.
    DirectionCapacity,
    /// No completion credit remains for another accepted batch.
    CompletionCapacity,
    /// Safe Turn identity or drain identity space was exhausted.
    IdentifierExhausted,
}

/// Whether endpoint capacities are nonzero, consistent and fit their wire
/// widths: Stage and completion counts in `u32`, the direction bound in
/// `u16`, and no more pending batches than completion credits.
pub open spec fn endpoint_limits_valid(
    max_stages: usize,
    max_pending_batches: usize,
    max_completions: usize,
    max_directions_per_batch: usize,
) -> bool {
    &&& 0 < max_stages <= u32::MAX
    &&& 0 < max_pending_batches <= max_completions
    &&& 0 < max_completions <= u32::MAX
    &&& 0 < max_directions_per_batch <= u16::MAX
}

/// Validated bounded capacities for one endpoint epoch.
#[derive(Clone, Copy, Debug, PartialEq, Eq, Structural)]
pub struct EndpointLimits {
    max_stages: usize,
    max_pending_batches: usize,
    max_completions: usize,
    max_directions_per_batch: usize,
}

impl EndpointLimits {
    /// Simultaneous owned Stage capacity.
    pub closed spec fn stages(self) -> usize {
        self.max_stages
    }

    /// Queued batch capacity.
    pub closed spec fn pending_batches(self) -> usize {
        self.max_pending_batches
    }

    /// Shared pending-plus-completion credit capacity.
    pub closed spec fn completions(self) -> usize {
        self.max_completions
    }

    /// Maximum top-level directions in one batch envelope.
    pub closed spec fn directions_per_batch(self) -> usize {
        self.max_directions_per_batch
    }

    #[verifier::type_invariant]
    spec fn valid(self) -> bool {
        endpoint_limits_valid(
            self.max_stages,
            self.max_pending_batches,
            self.max_completions,
            self.max_directions_per_batch,
        )
    }

    /// Validate Stage, pending-request, and completion-credit capacities.
    pub fn new(
        max_stages: usize,
        max_pending_batches: usize,
        max_completions: usize,
        max_directions_per_batch: usize,
    ) -> (r: Result<Self, EndpointError>)
        ensures
            r is Ok <==> endpoint_limits_valid(
                max_stages,
                max_pending_batches,
                max_completions,
                max_directions_per_batch,
            ),
            r matches Err(e) ==> e == EndpointError::InvalidLimits,
            r matches Ok(l) ==> l.stages() == max_stages && l.pending_batches()
                == max_pending_batches && l.completions() == max_completions
                && l.directions_per_batch() == max_directions_per_batch,
    {
        if max_stages == 0 || max_stages > 0xffff_ffff || max_pending_batches == 0
            || max_pending_batches > max_completions || max_completions == 0 || max_completions
            > 0xffff_ffff || max_directions_per_batch == 0 || max_directions_per_batch > 0xffff {
            return Err(EndpointError::InvalidLimits);
        }
        Ok(EndpointLimits { max_stages, max_pending_batches, max_completions, max_directions_per_batch })
    }

    /// The simultaneous owned Stage capacity.
    pub fn max_stages(self) -> (r: usize)
        ensures
            r == self.stages(),
            0 < r <= u32::MAX,
    {
        proof {
            use_type_invariant(self);
        }
        self.max_stages
    }

    /// The queued batch capacity.
    pub fn max_pending_batches(self) -> (r: usize)
        ensures
            r == self.pending_batches(),
            0 < r <= self.completions(),
    {
        proof {
            use_type_invariant(self);
        }
        self.max_pending_batches
    }

    /// The shared pending-plus-completion credit capacity.
    pub fn max_completions(self) -> (r: usize)
        ensures
            r == self.completions(),
            0 < r <= u32::MAX,
    {
        proof {
            use_type_invariant(self);
        }
        self.max_completions
    }

    /// The maximum top-level directions accepted in one batch envelope.
    pub fn max_directions_per_batch(self) -> (r: usize)
        ensures
            r == self.directions_per_batch(),
            0 < r <= u16::MAX,
    {
        proof {
            use_type_invariant(self);
        }
        self.max_directions_per_batch
    }
}

/// Runtime ownership state of the endpoint.
#[derive(Clone, Copy, Debug, PartialEq, Eq, Structural)]
pub enum EndpointState {
    /// Safe Turns and drains may begin.
    Ready,
    /// A Safe Turn is executing synchronously.
    Running,
    /// A global record drain awaits VM-safe acknowledgment.
    DrainOutstanding,
    /// An impossible post-commit failure made the epoch unrecoverable.
    Faulted,
}

/// Work performed by one Safe Turn.
#[derive(Clone, Copy, Debug, PartialEq, Eq, Structural)]
pub struct SafeTurnSummary {
    /// Monotonic endpoint turn after advancing this boundary.
    pub turn: u64,
    /// FIFO batches completed during this turn.
    pub processed_batches: usize,
}

/// Terminal endpoint failure retained for inspection.
#[derive(Clone, Copy, Debug, PartialEq, Eq, Structural)]
pub enum EndpointFault {
    /// Post-commit Stage scratch or lifecycle release failed unexpectedly.
    PostCommitStageRelease(RegistryError),
}

/// One accepted batch awaiting its Safe Turn.
pub struct QueuedBatch {
    /// Caller-assigned monotonic request identity.
    pub request_id: RequestId,
    /// Stage the batch is addressed to.
    pub stage_id: StageId,
    /// First Safe Turn in which the batch may run.
    pub eligible_turn: u64,
    /// The batch's directions in submitted order.
    pub directions: Vec<StageDirection>,
}

/// Mathematical model of a [`QueuedBatch`].
pub struct QueuedModel {
    pub request_id: RequestId,
    pub stage_id: StageId,
    pub eligible_turn: nat,
    pub directions: Seq<StageDirection>,
}

impl View for QueuedBatch {
    type V = QueuedModel;

    open spec fn view(&self) -> QueuedModel {
        QueuedModel {
            request_id: self.request_id,
            stage_id: self.stage_id,
            eligible_turn: self.eligible_turn as nat,
            directions: self.directions@,
        }
    }
}

/// Mathematical model of an [`EndpointScheduler`].
#[verifier::ext_equal]
pub struct SchedulerModel {
    /// Capacities of the endpoint.
    pub limits: EndpointLimits,
    /// Owned Stages in registration order.
    pub stages: Seq<StageId>,
    /// Accepted batches not yet taken by a Safe Turn, oldest first.
    pub pending: Seq<QueuedModel>,
    /// Batches taken by the running Safe Turn and not yet completed.
    pub in_turn: nat,
    /// Batches taken by the last Safe Turn begun.
    pub turn_batches: nat,
    /// Completions retained until drained.
    pub completions: nat,
    /// Number of the last Safe Turn begun.
    pub turn: nat,
    /// Last accepted request identity.
    pub last_request: Option<RequestId>,
    /// Last registered Stage identity.
    pub last_stage: Option<StageId>,
    /// Ownership state.
    pub state: EndpointState,
    /// Retained terminal failure.
    pub fault: Option<EndpointFault>,
    /// The endpoint's cue queue.
    pub cues: CueQueueModel,
    /// Identity the next record drain receives; zero once exhausted.
    pub next_drain: nat,
    /// The drain awaiting acknowledgment, if any.
    pub outstanding: Option<u64>,
}

/// Admission and Safe Turn sequencing of the bounded endpoint: which Stages
/// it owns, which batches wait for which turn, and how many completion
/// credits are spoken for.
pub struct EndpointScheduler {
    limits: EndpointLimits,
    stage_ids: Vec<StageId>,
    pending: Vec<QueuedBatch>,
    in_turn: usize,
    turn_batches: usize,
    completions: usize,
    current_turn: u64,
    last_request_id: Option<RequestId>,
    last_stage_id: Option<StageId>,
    state: EndpointState,
    fault: Option<EndpointFault>,
    cues: CueQueue,
    next_drain_id: u64,
    outstanding_drain_id: Option<u64>,
}

impl View for EndpointScheduler {
    type V = SchedulerModel;

    closed spec fn view(&self) -> SchedulerModel {
        SchedulerModel {
            limits: self.limits,
            stages: self.stage_ids@,
            pending: self.pending@.map_values(|b: QueuedBatch| b@),
            in_turn: self.in_turn as nat,
            turn_batches: self.turn_batches as nat,
            completions: self.completions as nat,
            turn: self.current_turn as nat,
            last_request: self.last_request_id,
            last_stage: self.last_stage_id,
            state: self.state,
            fault: self.fault,
            cues: self.cues.model(),
            next_drain: self.next_drain_id as nat,
            outstanding: self.outstanding_drain_id,
        }
    }
}

/// Whether the credits spoken for fit the completion capacity and the
/// pending queue fits its own bound.
pub open spec fn scheduler_wf(m: SchedulerModel) -> bool {
    &&& m.pending.len() + m.in_turn + m.completions <= m.limits.completions()
    &&& m.pending.len() <= m.limits.pending_batches()
    &&& m.stages.len() <= m.limits.stages()
    &&& m.turn <= u64::MAX
    &&& forall|i: int| 0 <= i < m.pending.len() ==> #[trigger] m.pending[i].eligible_turn <= m.turn + 1
    &&& m.next_drain <= u64::MAX
}

/// The model after a record drain of the first `k` cues begins.
pub open spec fn drain_begun(m: SchedulerModel, k: int) -> SchedulerModel {
    SchedulerModel {
        cues: drained_model(m.cues, k),
        outstanding: Some(m.next_drain as u64),
        next_drain: if m.next_drain == u64::MAX { 0 } else { m.next_drain + 1 },
        state: if m.fault is None { EndpointState::DrainOutstanding } else { m.state },
        ..m
    }
}

/// The model after drain `drain_id` is acknowledged, or the refusal.
pub open spec fn drain_acknowledged(m: SchedulerModel, drain_id: u64) -> Result<SchedulerModel, EndpointError> {
    if m.outstanding != Some(drain_id) {
        Err(EndpointError::DrainMismatch)
    } else {
        Ok(SchedulerModel {
            outstanding: None,
            state: if m.fault is Some { EndpointState::Faulted } else { EndpointState::Ready },
            ..m
        })
    }
}

proof fn lemma_run_covers_rest(pending: Seq<QueuedModel>, turn: nat, from: int)
    requires
        0 <= from <= pending.len(),
        forall|i: int| 0 <= i < pending.len() ==> #[trigger] pending[i].eligible_turn <= turn,
    ensures
        eligible_run(pending, turn, from) == pending.len() - from,
    decreases pending.len() - from,
{
    if from < pending.len() {
        lemma_run_covers_rest(pending, turn, from + 1);
    }
}

/// Every batch accepted before a Safe Turn begins is taken by that turn, in
/// the order it was accepted: admission fences a batch only until the next
/// turn.
pub proof fn lemma_next_turn_takes_every_pending_batch(m: SchedulerModel)
    requires
        scheduler_wf(m),
        turn_begun(m) is Ok,
    ensures
        eligible_run(m.pending, m.turn + 1, 0) == m.pending.len(),
        turn_begun(m)->Ok_0.pending.len() == 0,
{
    lemma_run_covers_rest(m.pending, m.turn + 1, 0);
}

/// The model after Stage `stage_id` is registered, or the refusal.
pub open spec fn stage_registered(m: SchedulerModel, stage_id: StageId) -> Result<SchedulerModel, EndpointError> {
    if m.fault is Some {
        Err(EndpointError::Faulted(m.fault->0))
    } else if m.last_stage matches Some(p) && stage_id@ <= p@ {
        Err(EndpointError::StageIdNotMonotonic)
    } else if m.stages.len() >= m.limits.stages() {
        Err(EndpointError::StageCapacity)
    } else {
        Ok(SchedulerModel { stages: m.stages.push(stage_id), last_stage: Some(stage_id), ..m })
    }
}

/// The model after a batch is accepted for the next Safe Turn, or the
/// refusal, checked in order: fault, unknown Stage, request order, pending
/// capacity, direction count, completion credits, turn numbering.
pub open spec fn batch_enqueued(
    m: SchedulerModel,
    request_id: RequestId,
    stage_id: StageId,
    directions: Seq<StageDirection>,
) -> Result<SchedulerModel, EndpointError> {
    if m.fault is Some {
        Err(EndpointError::Faulted(m.fault->0))
    } else if !m.stages.contains(stage_id) {
        Err(EndpointError::StageNotFound)
    } else if m.last_request matches Some(p) && request_id.value() <= p.value() {
        Err(EndpointError::RequestIdNotMonotonic)
    } else if m.pending.len() >= m.limits.pending_batches() {
        Err(EndpointError::PendingCapacity)
    } else if directions.len() > m.limits.directions_per_batch() {
        Err(EndpointError::DirectionCapacity)
    } else if m.pending.len() + m.in_turn + m.completions >= m.limits.completions() {
        Err(EndpointError::CompletionCapacity)
    } else if m.turn + 1 > u64::MAX {
        Err(EndpointError::IdentifierExhausted)
    } else {
        Ok(SchedulerModel {
            pending: m.pending.push(QueuedModel { request_id, stage_id, eligible_turn: m.turn + 1, directions }),
            last_request: Some(request_id),
            ..m
        })
    }
}

/// Request identities increase strictly across accepted batches: of two
/// batches accepted one after the other, the later carries the greater
/// identity.
pub proof fn lemma_accepted_request_ids_increase(
    m: SchedulerModel,
    r1: RequestId,
    s1: StageId,
    d1: Seq<StageDirection>,
    r2: RequestId,
    s2: StageId,
    d2: Seq<StageDirection>,
)
    requires
        batch_enqueued(m, r1, s1, d1) is Ok,
        batch_enqueued(batch_enqueued(m, r1, s1, d1)->Ok_0, r2, s2, d2) is Ok,
    ensures
        r1.value() < r2.value(),
{
}

/// An accepted batch comes from a healthy endpoint, names a registered
/// Stage, fits the per-batch direction limit and the pending and completion
/// capacities, and joins the end of the pending queue, eligible for the
/// next Safe Turn, as the last accepted request; nothing else changes.
pub proof fn lemma_accepted_batch_fits(m: SchedulerModel, r: RequestId, s: StageId, d: Seq<StageDirection>)
    requires
        batch_enqueued(m, r, s, d) is Ok,
    ensures
        ({
            let m2 = batch_enqueued(m, r, s, d)->Ok_0;
            &&& m.fault is None
            &&& m.stages.contains(s)
            &&& d.len() <= m.limits.directions_per_batch()
            &&& m.pending.len() < m.limits.pending_batches()
            &&& m.pending.len() + m.in_turn + m.completions < m.limits.completions()
            &&& m2.pending == m.pending.push(QueuedModel { request_id: r, stage_id: s, eligible_turn: m.turn + 1, directions: d })
            &&& m2.last_request == Some(r)
            &&& m2.stages == m.stages && m2.turn == m.turn && m2.in_turn == m.in_turn && m2.completions == m.completions
        }),
{
}

/// A batch whose request identity is not above the last accepted one is
/// refused, whatever else it holds.
pub proof fn lemma_stale_request_refused(m: SchedulerModel, r: RequestId, s: StageId, d: Seq<StageDirection>)
    requires
        m.last_request matches Some(p) && r.value() <= p.value(),
    ensures
        batch_enqueued(m, r, s, d) is Err,
{
}

/// Number of leading batches of `pending[from..]` eligible at `turn`.
pub open spec fn eligible_run(pending: Seq<QueuedModel>, turn: nat, from: int) -> nat
    decreases pending.len() - from,
{
    if from < 0 || from >= pending.len() || pending[from].eligible_turn > turn {
        0
    } else {
        1 + eligible_run(pending, turn, from + 1)
    }
}

/// The model after a Safe Turn begins and takes every eligible batch at the
/// head of the queue, or the refusal.
pub open spec fn turn_begun(m: SchedulerModel) -> Result<SchedulerModel, EndpointError> {
    if m.fault is Some {
        Err(EndpointError::Faulted(m.fault->0))
    } else if m.state == EndpointState::DrainOutstanding {
        Err(EndpointError::DrainOutstanding)
    } else if m.turn + 1 > u64::MAX {
        Err(EndpointError::IdentifierExhausted)
    } else {
        let taken = eligible_run(m.pending, m.turn + 1, 0);
        Ok(SchedulerModel {
            turn: m.turn + 1,
            state: EndpointState::Running,
            pending: m.pending.subrange(taken as int, m.pending.len() as int),
            in_turn: m.in_turn + taken,
            turn_batches: taken,
            ..m
        })
    }
}

impl EndpointScheduler {
    /// An endpoint owning no Stage, with nothing queued, before its first
    /// turn, with an empty cue queue of `cue_limits`.
    pub fn new(limits: EndpointLimits, cue_limits: CueLimits) -> (r: Result<Self, EndpointError>)
        ensures
            r matches Ok(s) ==> s.inv() && s@ == (SchedulerModel {
                limits,
                stages: Seq::empty(),
                pending: Seq::empty(),
                in_turn: 0,
                turn_batches: 0,
                completions: 0,
                turn: 0,
                last_request: None,
                last_stage: None,
                state: EndpointState::Ready,
                fault: None,
                cues: initial_model(cue_limits),
                next_drain: 1,
                outstanding: None,
            }),
            r matches Err(e) ==> e == EndpointError::Cue(CueQueueError::AllocationFailed),
    {
        let cues = match CueQueue::new(cue_limits) {
            Ok(q) => q,
            Err(e) => return Err(EndpointError::Cue(e)),
        };
        let r = EndpointScheduler {
            limits,
            stage_ids: Vec::new(),
            pending: Vec::new(),
            in_turn: 0,
            turn_batches: 0,
            completions: 0,
            current_turn: 0,
            last_request_id: None,
            last_stage_id: None,
            state: EndpointState::Ready,
            fault: None,
            cues,
            next_drain_id: 1,
            outstanding_drain_id: None,
        };
        assert(r@ =~= SchedulerModel {
            limits,
            stages: Seq::empty(),
            pending: Seq::empty(),
            in_turn: 0,
            turn_batches: 0,
            completions: 0,
            turn: 0,
            last_request: None,
            last_stage: None,
            state: EndpointState::Ready,
            fault: None,
            cues: initial_model(cue_limits),
            next_drain: 1,
            outstanding: None,
        });
        Ok(r)
    }

    /// The scheduler's invariant: [`scheduler_wf`] of its model and a
    /// well-formed cue queue.
    pub closed spec fn inv(&self) -> bool {
        &&& scheduler_wf(self@)
        &&& self.cues.wf()
    }

    /// The invariant includes [`scheduler_wf`].
    pub proof fn lemma_inv(&self)
        requires
            self.inv(),
        ensures
            scheduler_wf(self@),
    {
    }

    /// Register one owned Stage under strictly increasing identity order.
    pub fn register_stage(&mut self, stage_id: StageId) -> (r: Result<(), EndpointError>)
        requires
            old(self).inv(),
        ensures
            final(self).inv(),
            match stage_registered(old(self)@, stage_id) {
                Ok(m) => r is Ok && final(self)@ == m,
                Err(e) => r == Err::<(), EndpointError>(e) && final(self)@ == old(self)@,
            },
    {
        if let Some(fault) = self.fault {
            return Err(EndpointError::Faulted(fault));
        }
        if let Some(previous) = self.last_stage_id {
            if stage_id.get() <= previous.get() {
                return Err(EndpointError::StageIdNotMonotonic);
            }
        }
        if self.stage_ids.len() >= self.limits.max_stages() {
            return Err(EndpointError::StageCapacity);
        }
        self.stage_ids.push(stage_id);
        self.last_stage_id = Some(stage_id);
        assert(self@ =~= SchedulerModel { stages: old(self)@.stages.push(stage_id), last_stage: Some(stage_id), ..old(self)@ });
        Ok(())
    }

    /// Whether Stage `stage_id` is owned.
    fn owns_stage(&self, stage_id: StageId) -> (r: bool)
        ensures
            r == self@.stages.contains(stage_id),
    {
        let mut k: usize = 0;
        while k < self.stage_ids.len()
            invariant
                k <= self.stage_ids@.len(),
                forall|j: int| 0 <= j < k ==> self.stage_ids@[j] != stage_id,
            decreases self.stage_ids@.len() - k,
        {
            if self.stage_ids[k] == stage_id {
                assert(self.stage_ids@[k as int] == stage_id);
                return true;
            }
            k = k + 1;
        }
        false
    }

    /// Queue one batch for the next Safe Turn, reserving one completion credit.
    pub fn enqueue_batch(&mut self, request_id: RequestId, stage_id: StageId, directions: Vec<StageDirection>) -> (r: Result<(), EndpointError>)
        requires
            old(self).inv(),
        ensures
            final(self).inv(),
            match batch_enqueued(old(self)@, request_id, stage_id, directions@) {
                Ok(m) => r is Ok && final(self)@ == m,
                Err(e) => r == Err::<(), EndpointError>(e) && final(self)@ == old(self)@,
            },
    {
        if let Some(fault) = self.fault {
            return Err(EndpointError::Faulted(fault));
        }
        if !self.owns_stage(stage_id) {
            return Err(EndpointError::StageNotFound);
        }
        if let Some(previous) = self.last_request_id {
            if request_id.get() <= previous.get() {
                return Err(EndpointError::RequestIdNotMonotonic);
            }
        }
        if self.pending.len() >= self.limits.max_pending_batches() {
            return Err(EndpointError::PendingCapacity);
        }
        if directions.len() > self.limits.max_directions_per_batch() {
            return Err(EndpointError::DirectionCapacity);
        }
        let max_completions = self.limits.max_completions();
        if self.pending.len() + self.in_turn + self.completions >= max_completions {
            return Err(EndpointError::CompletionCapacity);
        }
        if self.current_turn == u64::MAX {
            return Err(EndpointError::IdentifierExhausted);
        }
        let eligible_turn = self.current_turn + 1;
        let ghost dirs = directions@;
        self.pending.push(QueuedBatch { request_id, stage_id, eligible_turn, directions });
        self.last_request_id = Some(request_id);
        assert(self@ =~= SchedulerModel {
            pending: old(self)@.pending.push(QueuedModel { request_id, stage_id, eligible_turn: old(self)@.turn + 1, directions: dirs }),
            last_request: Some(request_id),
            ..old(self)@
        });
        Ok(())
    }
    /// Begin the next Safe Turn and take, oldest first, every queued batch
    /// eligible in it; each taken batch is then owed one completion.
    pub fn begin_safe_turn(&mut self) -> (r: Result<Vec<QueuedBatch>, EndpointError>)
        requires
            old(self).inv(),
        ensures
            final(self).inv(),
            match turn_begun(old(self)@) {
                Ok(m) => r matches Ok(taken) && final(self)@ == m
                    && taken@.map_values(|b: QueuedBatch| b@) == old(self)@.pending.subrange(
                        0,
                        eligible_run(old(self)@.pending, old(self)@.turn + 1, 0) as int,
                    ),
                Err(e) => r matches Err(x) && x == e && final(self)@ == old(self)@,
            },
    {
        if let Some(fault) = self.fault {
            return Err(EndpointError::Faulted(fault));
        }
        if self.state == EndpointState::DrainOutstanding {
            return Err(EndpointError::DrainOutstanding);
        }
        if self.current_turn == u64::MAX {
            return Err(EndpointError::IdentifierExhausted);
        }
        let ghost before = old(self)@.pending;
        self.current_turn = self.current_turn + 1;
        self.state = EndpointState::Running;
        let turn = self.current_turn;
        let mut taken: Vec<QueuedBatch> = Vec::new();
        while self.pending.len() > 0 && self.pending[0].eligible_turn <= turn
            invariant
                turn == old(self)@.turn + 1,
                before == old(self)@.pending,
                old(self).inv(),
                self.cues == old(self).cues,
                self.next_drain_id == old(self).next_drain_id,
                self.outstanding_drain_id == old(self).outstanding_drain_id,
                self@.limits == old(self)@.limits,
                self@.stages == old(self)@.stages,
                self@.in_turn == old(self)@.in_turn,
                self@.completions == old(self)@.completions,
                self@.turn == old(self)@.turn + 1,
                self@.last_request == old(self)@.last_request,
                self@.last_stage == old(self)@.last_stage,
                self@.state == EndpointState::Running,
                self@.fault == old(self)@.fault,
                taken@.len() <= before.len(),
                taken@.map_values(|b: QueuedBatch| b@) == before.subrange(0, taken@.len() as int),
                self.pending@.map_values(|b: QueuedBatch| b@) == before.subrange(taken@.len() as int, before.len() as int),
                eligible_run(before, turn as nat, 0) == taken@.len() + eligible_run(before, turn as nat, taken@.len() as int),
            decreases self.pending@.len(),
        {
            let ghost k = taken@.len() as int;
            assert(self.pending@.map_values(|b: QueuedBatch| b@).len() == self.pending@.len());
            assert(k < before.len());
            assert(self.pending@.map_values(|b: QueuedBatch| b@)[0] == self.pending@[0]@);
            assert(before.subrange(k, before.len() as int)[0] == before[k]);
            assert(self.pending@[0]@ == before[k]);
            let ghost pv = self.pending@;
            let batch = self.pending.remove(0);
            assert forall|j: int| 0 <= j < self.pending@.len() implies #[trigger] self.pending@[j]@ == before[k + 1 + j] by {
                assert(self.pending@[j] == pv[j + 1]);
                assert(pv.map_values(|b: QueuedBatch| b@)[j + 1] == pv[j + 1]@);
                assert(before.subrange(k, before.len() as int)[j + 1] == before[k + 1 + j]);
            }
            taken.push(batch);
            assert(taken@.map_values(|b: QueuedBatch| b@) =~= before.subrange(0, k + 1));
            assert(self.pending@.map_values(|b: QueuedBatch| b@) =~= before.subrange(k + 1, before.len() as int));
        }
        proof {
            let k = taken@.len() as int;
            assert(self.pending@.map_values(|b: QueuedBatch| b@).len() == self.pending@.len());
            if self.pending@.len() > 0 {
                assert(k < before.len());
                assert(self.pending@.map_values(|b: QueuedBatch| b@)[0] == self.pending@[0]@);
                assert(before.subrange(k, before.len() as int)[0] == before[k]);
                assert(self.pending@[0]@ == before[k]);
            } else {
                assert(before.subrange(k, before.len() as int).len() == 0);
            }
        }
        self.in_turn = self.in_turn + taken.len();
        self.turn_batches = taken.len();
        assert(self@ =~= SchedulerModel {
            turn: old(self)@.turn + 1,
            state: EndpointState::Running,
            pending: before.subrange(taken@.len() as int, before.len() as int),
            in_turn: old(self)@.in_turn + taken@.len(),
            turn_batches: taken@.len(),
            ..old(self)@
        });
        Ok(taken)
    }

    /// Record the completion of one batch taken by the running Safe Turn.
    pub fn record_completion(&mut self)
        requires
            old(self).inv(),
            old(self)@.in_turn > 0,
        ensures
            final(self).inv(),
            final(self)@ == (SchedulerModel {
                in_turn: (old(self)@.in_turn - 1) as nat,
                completions: old(self)@.completions + 1,
                ..old(self)@
            }),
    {
        proof { use_type_invariant(self.limits); }
        self.in_turn = self.in_turn - 1;
        self.completions = self.completions + 1;
        assert(self@ =~= SchedulerModel {
            in_turn: (old(self)@.in_turn - 1) as nat,
            completions: old(self)@.completions + 1,
            ..old(self)@
        });
    }

    /// End the running Safe Turn once every batch it took is completed,
    /// reporting the turn and how many batches it processed.
    pub fn finish_safe_turn(&mut self) -> (r: SafeTurnSummary)
        requires
            old(self).inv(),
            old(self)@.in_turn == 0,
        ensures
            final(self).inv(),
            final(self)@ == (SchedulerModel { state: EndpointState::Ready, ..old(self)@ }),
            r.turn == old(self)@.turn,
            r.processed_batches == old(self)@.turn_batches,
    {
        self.state = EndpointState::Ready;
        assert(self@ =~= SchedulerModel { state: EndpointState::Ready, ..old(self)@ });
        SafeTurnSummary { turn: self.current_turn, processed_batches: self.turn_batches }
    }

    /// Release up to `maximum` retained completions, oldest first, returning
    /// how many were released.
    pub fn drain_completions(&mut self, maximum: usize) -> (r: usize)
        requires
            old(self).inv(),
        ensures
            final(self).inv(),
            r == if maximum < old(self)@.completions { maximum as nat } else { old(self)@.completions },
            final(self)@ == (SchedulerModel { completions: (old(self)@.completions - r) as nat, ..old(self)@ }),
    {
        let count = if maximum < self.completions { maximum } else { self.completions };
        self.completions = self.completions - count;
        assert(self@ =~= SchedulerModel { completions: (old(self)@.completions - count) as nat, ..old(self)@ });
        count
    }

    /// Current ownership state.
    pub fn state(&self) -> (r: EndpointState)
        ensures
            r == self@.state,
    {
        self.state
    }

    /// Number of the last Safe Turn begun.
    pub fn current_turn(&self) -> (r: u64)
        ensures
            r == self@.turn,
    {
        self.current_turn
    }

    /// Number of accepted batches waiting for a Safe Turn.
    pub fn pending_len(&self) -> (r: usize)
        ensures
            r == self@.pending.len(),
    {
        self.pending.len()
    }

    /// Number of retained completions.
    pub fn completions_len(&self) -> (r: usize)
        ensures
            r == self@.completions,
    {
        self.completions
    }
    /// Drain one prefix of the cue queue for VM-safe handling, within
    /// `budget`, under a fresh drain identity that must be acknowledged
    /// before the next Safe Turn.
    pub fn drain_records(&mut self, budget: DrainBudget) -> (r: Result<(u64, DrainedCues), EndpointError>)
        requires
            old(self).inv(),
        ensures
            final(self).inv(),
            old(self)@.outstanding is Some ==> r == Err::<(u64, DrainedCues), EndpointError>(EndpointError::DrainOutstanding),
            old(self)@.outstanding is None && old(self)@.next_drain == 0 ==> r == Err::<(u64, DrainedCues), EndpointError>(
                EndpointError::IdentifierExhausted,
            ),
            old(self)@.outstanding is None && old(self)@.next_drain != 0 && old(self)@.cues.state is Backpressured ==> r
                == Err::<(u64, DrainedCues), EndpointError>(EndpointError::Cue(CueQueueError::DrainBackpressured)),
            r matches Err(e) ==> final(self)@ == old(self)@ && (e == EndpointError::DrainOutstanding
                || e == EndpointError::IdentifierExhausted || e == EndpointError::Cue(CueQueueError::DrainBackpressured)
                || e == EndpointError::Cue(CueQueueError::AllocationFailed)),
            r matches Ok((id, d)) ==> {
                let k = d.cues@.len() as int;
                &&& old(self)@.outstanding is None
                &&& id == old(self)@.next_drain && id != 0
                &&& drain_count_ok(old(self)@.cues.records, budget, k)
                &&& d.cues@.map_values(|c: CueRecord| c@) == old(self)@.cues.records.take(k)
                &&& d.frame_bytes == prefix_bytes(old(self)@.cues.records, k)
                &&& final(self)@ == drain_begun(old(self)@, k)
            },
    {
        if self.outstanding_drain_id.is_some() {
            return Err(EndpointError::DrainOutstanding);
        }
        if self.next_drain_id == 0 {
            return Err(EndpointError::IdentifierExhausted);
        }
        let drain_id = self.next_drain_id;
        let drained = match self.cues.drain(budget) {
            Ok(d) => d,
            Err(e) => {
                assert(self@ =~= old(self)@);
                return Err(EndpointError::Cue(e));
            },
        };
        self.next_drain_id = if drain_id == u64::MAX { 0 } else { drain_id + 1 };
        self.outstanding_drain_id = Some(drain_id);
        if self.fault.is_none() {
            self.state = EndpointState::DrainOutstanding;
        }
        assert(self@ =~= drain_begun(old(self)@, drained.cues@.len() as int));
        Ok((drain_id, drained))
    }

    /// Acknowledge VM-safe handling of drain `drain_id`, releasing it.
    pub fn acknowledge_records(&mut self, drain_id: u64) -> (r: Result<(), EndpointError>)
        requires
            old(self).inv(),
        ensures
            final(self).inv(),
            match drain_acknowledged(old(self)@, drain_id) {
                Ok(m) => r is Ok && final(self)@ == m,
                Err(e) => r == Err::<(), EndpointError>(e) && final(self)@ == old(self)@,
            },
    {
        match self.outstanding_drain_id {
            Some(id) => {
                if id != drain_id {
                    return Err(EndpointError::DrainMismatch);
                }
            },
            None => return Err(EndpointError::DrainMismatch),
        }
        self.outstanding_drain_id = None;
        self.state = if self.fault.is_some() {
            EndpointState::Faulted
        } else {
            EndpointState::Ready
        };
        assert(self@ =~= drain_acknowledged(old(self)@, drain_id)->Ok_0);
        Ok(())
    }
}

} // verus!
