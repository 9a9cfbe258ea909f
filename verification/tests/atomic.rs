use rlvgl_core::actor::{
    ActorCapabilities, ActorFamily, CapacityKind, ChildPolicy, ConstructorFieldDescriptor, LayoutCapabilities,
    MutationEffects, ObjectId, PlannedSlot, PropertyAccess, PropertyConstraint, PropertyDefault, PropertyDescriptor,
    RegistryError, RegistryLimits, ResourceCost, StyleStateIdentity, TargetSet, TypeId,
};
use rlvgl_core::atomic::{plan_atomic_batch, AtomicPlan};
use rlvgl_core::catalog::{style_part_table, style_property_table, StyleRegistry, TypeDescriptor};
use rlvgl_core::direction::{
    ActorDirection, BatchCreateDestination, BatchObjectReference, BatchStageDirection, CreateDirection, CreateField,
    OwnedValue, ValueTag,
};
use rlvgl_core::shadow::{PreparedCreateDestination, ShadowActor, TreeShadow};

fn leak<T>(v: Vec<T>) -> &'static [T] {
    Box::leak(v.into_boxed_slice())
}

fn registry() -> StyleRegistry<'static> {
    StyleRegistry {
        parts: leak(style_part_table()),
        states: leak(vec![StyleStateIdentity { mask: 0, name: "default" }]),
        properties: leak(style_property_table()),
        all_states: 0xff,
    }
}

const PANEL: u32 = 7;
const LINK: u32 = 8;

fn panel() -> TypeDescriptor {
    TypeDescriptor {
        type_id: TypeId::registered(PANEL),
        stable_name: "panel",
        schema_revision: 1,
        family: ActorFamily::Container,
        capabilities: ActorCapabilities::STAGE_ROOT().union(ActorCapabilities::CHILDREN()),
        targets: TargetSet::ALL(),
        constructor_fields: &[],
        properties: leak(vec![
            PropertyDescriptor {
                id: 1,
                name: "value",
                value_tag: ValueTag::I32,
                access: PropertyAccess::ReadWrite,
                default: PropertyDefault::I32(0),
                constraint: PropertyConstraint::I32 { min: 0, max: 10 },
                required_capabilities: ActorCapabilities::EMPTY(),
                effects: MutationEffects::DRAW(),
            },
            PropertyDescriptor {
                id: 2,
                name: "buddy",
                value_tag: ValueTag::Object,
                access: PropertyAccess::ReadWrite,
                default: PropertyDefault::Absent,
                constraint: PropertyConstraint::Unconstrained,
                required_capabilities: ActorCapabilities::EMPTY(),
                effects: MutationEffects::DRAW(),
            },
        ]),
        actions: &[],
        events: &[],
        styles: &[],
        child_policy: ChildPolicy::AnyActor,
        layout: LayoutCapabilities::EMPTY(),
        resource_cost: ResourceCost { text_bytes: 0, resources: 0 },
    }
}

/// A leaf whose constructor names another actor.
fn link() -> TypeDescriptor {
    TypeDescriptor {
        type_id: TypeId::registered(LINK),
        stable_name: "link",
        capabilities: ActorCapabilities::EMPTY(),
        constructor_fields: leak(vec![ConstructorFieldDescriptor { id: 1, name: "target", value_tag: ValueTag::Object, required: true }]),
        properties: &[],
        child_policy: ChildPolicy::NoChildren,
        ..panel()
    }
}

fn id(generation: u32, slot: u32) -> ObjectId {
    ObjectId::from_parts(generation, slot)
}

fn actor(object_id: ObjectId, parent: Option<ObjectId>, children: Vec<ObjectId>) -> ShadowActor {
    let d = panel();
    ShadowActor {
        object_id,
        type_id: d.type_id,
        capabilities: d.capabilities,
        child_policy: d.child_policy,
        parent,
        max_children: children.len(),
        children,
        alive: true,
    }
}

/// Root `a` holding `b`; slot 2 is free with generation 3.
fn shadow() -> TreeShadow {
    let (a, b) = (id(1, 0), id(1, 1));
    TreeShadow::new(vec![actor(a, None, vec![b]), actor(b, Some(a), vec![])], vec![("main".to_string(), a)])
}

fn records() -> Vec<PlannedSlot> {
    vec![PlannedSlot::Occupied(id(1, 0)), PlannedSlot::Occupied(id(1, 1)), PlannedSlot::Available(3)]
}

fn limits(max_actors: usize) -> RegistryLimits {
    RegistryLimits { max_roots: 2, max_actors, max_tree_depth: 4, max_children_per_actor: 4, max_text_bytes: 64, max_resources: 4 }
}

fn plan_with(max_actors: usize, directions: Vec<BatchStageDirection>) -> Result<AtomicPlan, RegistryError> {
    plan_atomic_batch(&[panel(), link()], &registry(), &limits(max_actors), &records(), shadow(), directions)
}

fn plan(directions: Vec<BatchStageDirection>) -> Result<AtomicPlan, RegistryError> {
    plan_with(8, directions)
}

fn create(batch_ref: u16, type_id: u32, parent: BatchObjectReference, fields: Vec<CreateField>) -> BatchStageDirection {
    BatchStageDirection::Create(CreateDirection {
        batch_ref,
        type_id: TypeId::registered(type_id),
        destination: BatchCreateDestination::Child { parent },
        fields,
    })
}

fn stable(object_id: ObjectId) -> BatchObjectReference {
    BatchObjectReference::Stable(object_id)
}

#[test]
fn atomic_plan_binds_creates_and_resolves_later_references() {
    let (a, b) = (id(1, 0), id(1, 1));
    let p = plan(vec![
        create(5, PANEL, stable(a), vec![]),
        BatchStageDirection::MutateActor {
            object: BatchObjectReference::EarlierBatch(5),
            directions: vec![ActorDirection::SetProperty { id: 2, value: OwnedValue::BatchObject(5) }],
        },
        create(6, LINK, BatchObjectReference::EarlierBatch(5), vec![CreateField { id: 1, value: OwnedValue::BatchObject(5) }]),
        BatchStageDirection::MutateActor {
            object: stable(b),
            directions: vec![ActorDirection::SetProperty { id: 2, value: OwnedValue::Object(a.get()) }],
        },
    ])
    .unwrap();
    // The free slot is reused with its stored generation, then a slot is appended.
    let first = id(3, 2);
    let second = id(1, 3);
    assert_eq!(p.bindings, vec![(5, first, 0), (6, second, 1)]);
    assert_eq!(p.creates.len(), 2);
    assert_eq!(p.creates[0].operation_index, 0);
    assert_eq!(p.creates[0].object_id, first);
    assert_eq!((p.creates[0].reservation.index, p.creates[0].reservation.generation), (2, 3));
    assert!(!p.creates[0].reservation.append);
    assert_eq!(p.creates[1].operation_index, 2);
    assert_eq!(p.creates[1].object_id, second);
    assert!(p.creates[1].reservation.append);
    assert_eq!(p.creates[1].fields, vec![CreateField { id: 1, value: OwnedValue::Object(first.get()) }]);
    match p.creates[1].destination {
        PreparedCreateDestination::Child { parent } => assert_eq!(parent, first),
        _ => panic!("the second Create is a child"),
    }
    assert_eq!(
        p.plan.groups,
        vec![
            (first, vec![ActorDirection::SetProperty { id: 2, value: OwnedValue::Object(first.get()) }]),
            (b, vec![ActorDirection::SetProperty { id: 2, value: OwnedValue::Object(a.get()) }]),
        ]
    );
    assert_eq!(p.plan.touched, vec![first, second, b]);
    assert_eq!(p.plan.shadow.actor(second).unwrap().parent, Some(first));
}

#[test]
fn atomic_plan_refuses_bad_batch_references() {
    let a = id(1, 0);
    assert_eq!(plan(vec![]).err(), Some(RegistryError::BatchInvalid));
    assert_eq!(plan(vec![create(0, PANEL, stable(a), vec![])]).err(), Some(RegistryError::BatchInvalid));
    assert_eq!(
        plan(vec![create(4, PANEL, stable(a), vec![]), create(4, PANEL, stable(a), vec![])]).err(),
        Some(RegistryError::BatchInvalid)
    );
    // A reference to a Create that comes later, or to none, is refused.
    assert_eq!(
        plan(vec![
            BatchStageDirection::Delete { object: BatchObjectReference::EarlierBatch(4) },
            create(4, PANEL, stable(a), vec![]),
        ])
        .err(),
        Some(RegistryError::BatchInvalid)
    );
    assert_eq!(
        plan(vec![create(4, 99, stable(a), vec![])]).err(),
        Some(RegistryError::UnknownType { type_id: TypeId::registered(99) })
    );
    assert_eq!(
        plan(vec![create(4, LINK, stable(a), vec![])]).err(),
        Some(RegistryError::MissingField { field_id: 1 })
    );
    assert_eq!(
        plan(vec![create(4, LINK, stable(a), vec![CreateField { id: 1, value: OwnedValue::BatchObject(9) }])]).err(),
        Some(RegistryError::BatchInvalid)
    );
    let stale = id(2, 1);
    assert_eq!(
        plan(vec![BatchStageDirection::MutateActor {
            object: stable(a),
            directions: vec![ActorDirection::SetProperty { id: 2, value: OwnedValue::Object(stale.get()) }],
        }])
        .err(),
        Some(RegistryError::StaleObjectField { field_id: 2, object_id: stale })
    );
}

#[test]
fn atomic_plan_refuses_deleting_its_own_creates() {
    let a = id(1, 0);
    assert_eq!(
        plan(vec![
            create(4, PANEL, stable(a), vec![]),
            BatchStageDirection::Delete { object: BatchObjectReference::EarlierBatch(4) },
        ])
        .err(),
        Some(RegistryError::BatchInvalid)
    );
}

#[test]
fn atomic_plan_reuses_slots_that_deletes_release() {
    let (a, b) = (id(1, 0), id(1, 1));
    let p = plan(vec![
        BatchStageDirection::Delete { object: stable(b) },
        create(1, PANEL, stable(a), vec![]),
        create(2, PANEL, stable(a), vec![]),
    ])
    .unwrap();
    // Slot 1 comes back with the next generation before slot 2 is used.
    assert_eq!(p.creates[0].object_id, id(2, 1));
    assert_eq!(p.creates[1].object_id, id(3, 2));
    assert_eq!(p.plan.shadow.deleted_object_ids(), &vec![b]);
}

#[test]
fn atomic_plan_respects_the_actor_limit() {
    let a = id(1, 0);
    assert!(plan_with(3, vec![create(1, PANEL, stable(a), vec![])]).is_ok());
    assert_eq!(
        plan_with(3, vec![create(1, PANEL, stable(a), vec![]), create(2, PANEL, stable(a), vec![])]).err(),
        Some(RegistryError::Capacity { kind: CapacityKind::Actors })
    );
}
