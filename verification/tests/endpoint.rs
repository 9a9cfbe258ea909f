use rlvgl_core::actor::{CapacityKind, ObjectId, PlannedSlot, SlotPlanError, SlotPlanner, SlotReservation};
use rlvgl_core::actor::StageId;
use rlvgl_core::cue::{CueLimits, DrainBudget};
use rlvgl_core::direction::StageDirection;
use rlvgl_core::endpoint::{EndpointError, EndpointLimits, EndpointScheduler, EndpointState, RequestId, SafeTurnSummary};

#[test]
fn request_ids_reject_zero() {
    assert!(RequestId::new(0).is_none());
    assert_eq!(RequestId::new(5).unwrap().get(), 5);
    assert!(RequestId::new(3).unwrap() < RequestId::new(4).unwrap());
}

#[test]
fn endpoint_limits_validation() {
    let ok = EndpointLimits::new(2, 3, 4, 5).unwrap();
    assert_eq!(
        (ok.max_stages(), ok.max_pending_batches(), ok.max_completions(), ok.max_directions_per_batch()),
        (2, 3, 4, 5)
    );
    assert_eq!(EndpointLimits::new(0, 1, 1, 1), Err(EndpointError::InvalidLimits));
    assert_eq!(EndpointLimits::new(1, 2, 1, 1), Err(EndpointError::InvalidLimits));
    assert_eq!(EndpointLimits::new(1, 0, 1, 1), Err(EndpointError::InvalidLimits));
    assert_eq!(EndpointLimits::new(1, 1, 1, 0), Err(EndpointError::InvalidLimits));
    assert_eq!(EndpointLimits::new(1, 1, 1, 65536), Err(EndpointError::InvalidLimits));
    assert!(EndpointLimits::new(1, 1, 1, 65535).is_ok());
}

#[test]
fn slot_planner_reuses_then_appends_then_refuses() {
    let mut plan = SlotPlanner::new(vec![PlannedSlot::Available(4), PlannedSlot::Retired], 3);
    assert_eq!(plan.allocate(), Ok(SlotReservation { index: 0, generation: 4, append: false }));
    assert_eq!(plan.allocate(), Ok(SlotReservation { index: 2, generation: 1, append: true }));
    assert_eq!(plan.allocate(), Err(SlotPlanError::Capacity(CapacityKind::Actors)));
    assert_eq!(plan.maximum_len(), 3);
}

#[test]
fn retired_identity_is_not_reissued() {
    let mut plan = SlotPlanner::new(vec![PlannedSlot::Available(4)], 1);
    assert!(plan.allocate().is_ok());
    let id = ObjectId::from_parts(4, 0);
    assert_eq!(id.generation(), 4);
    assert_eq!(id.slot(), 1);
    assert_eq!(plan.retire(id), Ok(()));
    assert_eq!(plan.retire(id), Err(SlotPlanError::Internal));
    assert_eq!(plan.allocate(), Ok(SlotReservation { index: 0, generation: 5, append: false }));
}

#[test]
fn last_generation_retires_the_slot() {
    let mut plan = SlotPlanner::new(vec![PlannedSlot::Available(u32::MAX)], 1);
    assert!(plan.allocate().is_ok());
    assert_eq!(plan.retire(ObjectId::from_parts(u32::MAX, 0)), Ok(()));
    assert_eq!(plan.allocate(), Err(SlotPlanError::Capacity(CapacityKind::Actors)));
}

fn stage(raw: u32) -> StageId {
    StageId::new(raw).unwrap()
}

fn request(raw: u32) -> RequestId {
    RequestId::new(raw).unwrap()
}

fn scheduler() -> EndpointScheduler {
    let cue_limits = CueLimits::new(8, 2, 4, 64, 1024).unwrap();
    EndpointScheduler::new(EndpointLimits::new(2, 2, 3, 4).unwrap(), cue_limits).unwrap()
}

fn deletes(count: usize) -> Vec<StageDirection> {
    (0..count).map(|_| StageDirection::Delete { object_id: ObjectId::from_parts(1, 0) }).collect()
}

#[test]
fn scheduler_admits_batches_in_order_within_its_capacities() {
    let mut s = scheduler();
    assert_eq!(s.register_stage(stage(5)), Ok(()));
    assert_eq!(s.register_stage(stage(5)), Err(EndpointError::StageIdNotMonotonic));
    assert_eq!(s.register_stage(stage(3)), Err(EndpointError::StageIdNotMonotonic));
    assert_eq!(s.register_stage(stage(7)), Ok(()));
    assert_eq!(s.register_stage(stage(9)), Err(EndpointError::StageCapacity));

    assert_eq!(s.enqueue_batch(request(1), stage(4), deletes(1)), Err(EndpointError::StageNotFound));
    assert_eq!(s.enqueue_batch(request(1), stage(5), deletes(0)), Ok(()));
    assert_eq!(s.enqueue_batch(request(1), stage(5), deletes(1)), Err(EndpointError::RequestIdNotMonotonic));
    assert_eq!(s.enqueue_batch(request(2), stage(7), deletes(5)), Err(EndpointError::DirectionCapacity));
    assert_eq!(s.enqueue_batch(request(2), stage(7), deletes(4)), Ok(()));
    assert_eq!(s.enqueue_batch(request(3), stage(5), deletes(1)), Err(EndpointError::PendingCapacity));
    assert_eq!(s.pending_len(), 2);
}

#[test]
fn safe_turns_take_eligible_batches_and_account_for_credits() {
    let mut s = scheduler();
    s.register_stage(stage(5)).unwrap();
    s.enqueue_batch(request(1), stage(5), deletes(1)).unwrap();
    s.enqueue_batch(request(2), stage(5), deletes(2)).unwrap();

    let taken = s.begin_safe_turn().unwrap();
    assert_eq!(taken.iter().map(|b| b.request_id.get()).collect::<Vec<_>>(), vec![1, 2]);
    assert_eq!(taken.iter().map(|b| b.eligible_turn).collect::<Vec<_>>(), vec![1, 1]);
    assert_eq!(taken[1].directions.len(), 2);
    assert_eq!((s.current_turn(), s.state(), s.pending_len()), (1, EndpointState::Running, 0));
    // The running turn holds two of the three credits: one more batch fits, a second does not.
    assert_eq!(s.enqueue_batch(request(3), stage(5), deletes(1)), Ok(()));
    assert_eq!(s.enqueue_batch(request(4), stage(5), deletes(1)), Err(EndpointError::CompletionCapacity));

    s.record_completion();
    s.record_completion();
    assert_eq!(s.finish_safe_turn(), SafeTurnSummary { turn: 1, processed_batches: 2 });
    assert_eq!((s.state(), s.completions_len()), (EndpointState::Ready, 2));

    assert_eq!(s.drain_completions(1), 1);
    assert_eq!(s.completions_len(), 1);
    assert_eq!(s.drain_completions(9), 1);
    assert_eq!(s.completions_len(), 0);

    let next = s.begin_safe_turn().unwrap();
    assert_eq!(next.len(), 1);
    assert_eq!((next[0].request_id.get(), next[0].eligible_turn), (3, 2));
    assert_eq!(s.current_turn(), 2);
}

#[test]
fn record_drains_are_numbered_and_block_turns_until_acknowledged() {
    let mut s = scheduler();
    s.register_stage(stage(5)).unwrap();
    let (first, drained) = s.drain_records(DrainBudget::new(4, 4096)).unwrap();
    assert_eq!(first, 1);
    assert!(drained.cues.is_empty());
    assert_eq!(s.state(), EndpointState::DrainOutstanding);
    assert_eq!(s.drain_records(DrainBudget::new(4, 4096)).err(), Some(EndpointError::DrainOutstanding));
    assert_eq!(s.begin_safe_turn().err(), Some(EndpointError::DrainOutstanding));
    // Batches may still be accepted while a drain is outstanding.
    assert_eq!(s.enqueue_batch(request(1), stage(5), deletes(1)), Ok(()));

    assert_eq!(s.acknowledge_records(first + 1), Err(EndpointError::DrainMismatch));
    assert_eq!(s.acknowledge_records(first), Ok(()));
    assert_eq!(s.state(), EndpointState::Ready);
    assert_eq!(s.acknowledge_records(first), Err(EndpointError::DrainMismatch));

    assert_eq!(s.begin_safe_turn().unwrap().len(), 1);
    let (second, _) = s.drain_records(DrainBudget::new(1, 4096)).unwrap();
    assert_eq!(second, 2);
}
