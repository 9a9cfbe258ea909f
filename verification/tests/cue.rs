use rlvgl_core::actor::{ObjectId, StageId};
use rlvgl_core::cue::{
    CallbackId, CoalescingKey, CueDelivery, CueEndpointState, CueIdentity, CueInput, CueLimits, CuePayloadRef, CueQueue,
    CueQueueError, CueSequence, DrainBudget, EnqueueOutcome, EventId, NativeEventSequence, SubscriptionId,
};
use rlvgl_core::direction::StageRevision;

fn identity(stage: u32, event: u32) -> CueIdentity {
    CueIdentity::new(
        StageId::new(stage).unwrap(),
        ObjectId::from_parts(1, 0),
        SubscriptionId::new(1).unwrap(),
        CallbackId::new(1).unwrap(),
        EventId::new(event).unwrap(),
    )
}

fn input(stage: u32, native: u64, delivery: CueDelivery, payload: Vec<u8>) -> CueInput {
    let i = CueInput::new(identity(stage, 1), StageRevision::new(1), NativeEventSequence::new(native).unwrap(), delivery, payload);
    match delivery {
        CueDelivery::LatestValueCoalescible => i.with_coalescing_key(CoalescingKey::new(9)),
        _ => i,
    }
}

fn seq(raw: u32) -> CueSequence {
    CueSequence::new(raw).unwrap()
}

/// Four slots, one reserved for Critical cues, two ordinary cues per Stage.
fn queue() -> CueQueue {
    CueQueue::new(CueLimits::new(4, 1, 2, 16, 512).unwrap()).unwrap()
}

#[test]
fn cue_sequences_are_gap_free_across_admissions_and_losses() {
    let mut q = queue();
    assert_eq!(q.enqueue(input(1, 1, CueDelivery::Ordered, vec![1])), Ok(EnqueueOutcome::Queued { sequence: seq(1) }));
    assert_eq!(q.enqueue(input(1, 2, CueDelivery::Ordered, vec![2])), Ok(EnqueueOutcome::Queued { sequence: seq(2) }));
    // The Stage quota is spent: the third ordinary cue is lost with the next sequence.
    assert_eq!(
        q.enqueue(input(1, 3, CueDelivery::Ordered, vec![3])),
        Err(CueQueueError::StageQuotaExhausted { sequence: seq(3), stage_id: StageId::new(1).unwrap() })
    );
    assert_eq!(q.state(), CueEndpointState::Backpressured);
    // Backpressure persists: later ordinary cues extend the loss.
    assert_eq!(
        q.enqueue(input(2, 4, CueDelivery::Ordered, vec![4])),
        Err(CueQueueError::OrdinaryBackpressured { sequence: seq(4) })
    );
    let loss = q.pending_loss().unwrap();
    assert_eq!((loss.first_sequence(), loss.last_sequence(), loss.lost_count()), (seq(3), seq(4), 2));
    assert_eq!(q.drain(DrainBudget::new(8, 1024)).err(), Some(CueQueueError::DrainBackpressured));
    // Critical cues are still admitted, with the next sequence.
    assert_eq!(q.enqueue(input(2, 5, CueDelivery::Critical, vec![5])), Ok(EnqueueOutcome::Queued { sequence: seq(5) }));
    let notice = q.enqueue_pending_loss_notice(input(2, 6, CueDelivery::Critical, vec![])).unwrap();
    assert_eq!(notice.notice_sequence, seq(6));
    assert_eq!(q.state(), CueEndpointState::Ready);
    assert_eq!(q.len(), 4);
}

#[test]
fn coalesced_records_keep_merge_count_equal_to_their_range() {
    let mut q = queue();
    assert_eq!(
        q.enqueue(input(1, 1, CueDelivery::LatestValueCoalescible, vec![1])),
        Ok(EnqueueOutcome::Queued { sequence: seq(1) })
    );
    assert_eq!(
        q.enqueue(input(1, 2, CueDelivery::LatestValueCoalescible, vec![2])),
        Ok(EnqueueOutcome::Coalesced { first_sequence: seq(1), last_sequence: seq(2), merge_count: 1 })
    );
    assert_eq!(
        q.enqueue(input(1, 3, CueDelivery::LatestValueCoalescible, vec![3, 3])),
        Ok(EnqueueOutcome::Coalesced { first_sequence: seq(1), last_sequence: seq(3), merge_count: 2 })
    );
    let drained = q.drain(DrainBudget::new(8, 1024)).unwrap();
    assert_eq!(drained.cues.len(), 1);
    let record = &drained.cues[0];
    assert_eq!(record.merge_count(), 2);
    let mut buffer = [0u8; 64];
    let n = record.encode_payload_envelope(&mut buffer).unwrap();
    assert_eq!(n, 36 + 2);
    let decoded = CuePayloadRef::decode(&buffer[..n]).unwrap();
    assert_eq!(decoded.metadata, record.payload_metadata());
    assert_eq!(decoded.event_payload, &[3u8, 3][..]);
    let mut short = [0u8; 37];
    assert!(record.encode_payload_envelope(&mut short).is_err());
}
