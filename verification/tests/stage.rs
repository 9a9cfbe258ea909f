use rlvgl_core::actor::{
    ActorCapabilities, MutationEffects, PropertyAccess, PropertyConstraint, PropertyDefault, PropertyDescriptor,
    RegistryError, StageId,
};
use rlvgl_core::direction::{OwnedValue, SnapshotProperty, StageRevision, ValueTag};
use rlvgl_core::stage::{commit_check, next_revision, snapshot_properties, CreateReadiness, PreparedCommit, StageState};

fn stage() -> StageState {
    StageState { stage_id: StageId::new(3).unwrap(), active: true, revision: StageRevision::new(9) }
}

fn prepared() -> PreparedCommit {
    PreparedCommit {
        stage_id: StageId::new(3).unwrap(),
        starting_revision: StageRevision::new(9),
        next_revision: next_revision(StageRevision::new(9)).unwrap(),
        groups_ready: vec![true, true],
        creates: vec![CreateReadiness::Ready],
        geometry: Ok(true),
        preflight: Ok(()),
        styles_current: vec![true],
    }
}

#[test]
fn next_revision_counts_up_until_exhausted() {
    assert_eq!(next_revision(StageRevision::new(5)).unwrap().get(), 6);
    assert_eq!(next_revision(StageRevision::new(u64::MAX)), Err(RegistryError::Internal));
}

#[test]
fn commit_guard_refuses_in_order_and_publishes_the_next_revision() {
    assert_eq!(commit_check(&stage(), &prepared()).unwrap().get(), 10);
    let other = StageState { stage_id: StageId::new(4).unwrap(), active: false, ..stage() };
    assert_eq!(commit_check(&other, &prepared()), Err(RegistryError::InvalidStage));
    assert_eq!(commit_check(&StageState { active: false, ..stage() }, &prepared()), Err(RegistryError::StageClosed));
    let moved_on = StageState { revision: StageRevision::new(10), ..stage() };
    assert_eq!(commit_check(&moved_on, &prepared()), Err(RegistryError::BatchInvalid));
    let busy_group = PreparedCommit { groups_ready: vec![true, false], creates: vec![CreateReadiness::Missing], ..prepared() };
    assert_eq!(commit_check(&stage(), &busy_group), Err(RegistryError::DispatchBusy));
    let missing = PreparedCommit { creates: vec![CreateReadiness::Ready, CreateReadiness::Missing, CreateReadiness::Busy], ..prepared() };
    assert_eq!(commit_check(&stage(), &missing), Err(RegistryError::BatchInvalid));
    let busy = PreparedCommit { creates: vec![CreateReadiness::Busy, CreateReadiness::Missing], ..prepared() };
    assert_eq!(commit_check(&stage(), &busy), Err(RegistryError::DispatchBusy));
    let no_capture = PreparedCommit { geometry: Err(RegistryError::Internal), ..prepared() };
    assert_eq!(commit_check(&stage(), &no_capture), Err(RegistryError::Internal));
    let moved = PreparedCommit { geometry: Ok(false), preflight: Err(RegistryError::DispatchBusy), ..prepared() };
    assert_eq!(commit_check(&stage(), &moved), Err(RegistryError::BatchInvalid));
    let preflight = PreparedCommit { preflight: Err(RegistryError::StageClosed), ..prepared() };
    assert_eq!(commit_check(&stage(), &preflight), Err(RegistryError::StageClosed));
    let stale_style = PreparedCommit { styles_current: vec![true, false], ..prepared() };
    assert_eq!(commit_check(&stage(), &stale_style), Err(RegistryError::DispatchBusy));
}

fn text_property(id: u32) -> PropertyDescriptor {
    PropertyDescriptor {
        id,
        name: "text",
        value_tag: ValueTag::Text,
        access: PropertyAccess::ReadWrite,
        default: PropertyDefault::Text(""),
        constraint: PropertyConstraint::Unconstrained,
        required_capabilities: ActorCapabilities::EMPTY(),
        effects: MutationEffects::NONE(),
    }
}

#[test]
fn snapshot_redacts_text_past_the_budget_and_keeps_the_rest() {
    let number = PropertyDescriptor { id: 3, name: "n", value_tag: ValueTag::I32, default: PropertyDefault::I32(0), ..text_property(3) };
    let descriptors = [text_property(1), text_property(2), number, text_property(4)];
    let values = vec![
        OwnedValue::Text("hello".to_string()),
        OwnedValue::Text("abc".to_string()),
        OwnedValue::I32(7),
        OwnedValue::Text("x".to_string()),
    ];
    let (entries, truncated) = snapshot_properties(&descriptors, values, 6).unwrap();
    assert!(truncated);
    assert_eq!(
        entries,
        vec![
            SnapshotProperty { id: 1, value: Some(OwnedValue::Text("hello".to_string())), redacted: false },
            SnapshotProperty { id: 2, value: None, redacted: true },
            SnapshotProperty { id: 3, value: Some(OwnedValue::I32(7)), redacted: false },
            SnapshotProperty { id: 4, value: Some(OwnedValue::Text("x".to_string())), redacted: false },
        ]
    );
    let (all, truncated) = snapshot_properties(&descriptors[..2], vec![OwnedValue::Text("ab".to_string()), OwnedValue::Text("é".to_string())], 4).unwrap();
    assert!(!truncated);
    assert_eq!(all.len(), 2);
    assert_eq!(
        snapshot_properties(&descriptors[2..3], vec![OwnedValue::Text("7".to_string())], 8),
        Err(RegistryError::Internal)
    );
}
