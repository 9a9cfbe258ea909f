use rlvgl_core::actor::{
    ActorCapabilities, ActorFamily, ChildPolicy, LayoutCapabilities, MutationEffects, ObjectId, PropertyAccess,
    PropertyConstraint, PropertyDefault, PropertyDescriptor, RegistryError, RegistryLimits, ResourceCost, StyleStateIdentity,
    StageId, TargetSet, TypeId,
};
use rlvgl_core::batch::{plan_batch, preflight_batch};
use rlvgl_core::catalog::{
    style_part_table, style_property_table, Selector, StylePartDescriptor, StyleProperty, StyleRegistry, StyleUpdate,
    StyleValue, TypeDescriptor,
};
use rlvgl_core::direction::{ActorDirection, OwnedValue, RuntimeFlag, StageDirection, StageRevision, ValueTag};
use rlvgl_core::shadow::{ShadowActor, TreeShadow};
use rlvgl_core::widget::{Color, Rect};

fn leak<T>(v: Vec<T>) -> &'static [T] {
    Box::leak(v.into_boxed_slice())
}

fn registry() -> StyleRegistry<'static> {
    StyleRegistry {
        parts: leak(style_part_table()),
        states: leak(vec![StyleStateIdentity { mask: 0, name: "default" }, StyleStateIdentity { mask: 0x80, name: "disabled" }]),
        properties: leak(style_property_table()),
        all_states: 0xff,
    }
}

fn descriptor() -> TypeDescriptor {
    TypeDescriptor {
        type_id: TypeId::registered(7),
        stable_name: "panel",
        schema_revision: 1,
        family: ActorFamily::Container,
        capabilities: ActorCapabilities::STAGE_ROOT().union(ActorCapabilities::CHILDREN()),
        targets: TargetSet::ALL(),
        constructor_fields: &[],
        properties: leak(vec![PropertyDescriptor {
            id: 1,
            name: "value",
            value_tag: ValueTag::I32,
            access: PropertyAccess::ReadWrite,
            default: PropertyDefault::I32(0),
            constraint: PropertyConstraint::I32 { min: 0, max: 10 },
            required_capabilities: ActorCapabilities::EMPTY(),
            effects: MutationEffects::DRAW(),
        }]),
        actions: &[],
        events: &[],
        styles: leak(vec![StylePartDescriptor { part: 0, name: "main", allowed_states: 0x80, properties: leak(style_property_table()) }]),
        child_policy: ChildPolicy::AnyActor,
        layout: LayoutCapabilities::EMPTY(),
        resource_cost: ResourceCost { text_bytes: 0, resources: 0 },
    }
}

fn id(slot: u32) -> ObjectId {
    ObjectId::from_parts(1, slot)
}

fn actor(object_id: ObjectId, parent: Option<ObjectId>, children: Vec<ObjectId>) -> ShadowActor {
    let d = descriptor();
    ShadowActor {
        object_id,
        type_id: d.type_id,
        capabilities: d.capabilities,
        child_policy: d.child_policy,
        parent,
        max_children: children.len(),
        children,
        alive: true,
    }
}

/// Root `a` holding `b` and `c`.
fn shadow() -> TreeShadow {
    let (a, b, c) = (id(0), id(1), id(2));
    TreeShadow::new(
        vec![actor(a, None, vec![b, c]), actor(b, Some(a), vec![]), actor(c, Some(a), vec![])],
        vec![("main".to_string(), a)],
    )
}

fn limits() -> RegistryLimits {
    RegistryLimits { max_roots: 2, max_actors: 8, max_tree_depth: 4, max_children_per_actor: 4, max_text_bytes: 64, max_resources: 4 }
}

fn set(id_: u32, value: i32) -> ActorDirection {
    ActorDirection::SetProperty { id: id_, value: OwnedValue::I32(value) }
}

fn plan(directions: Vec<StageDirection>) -> Result<rlvgl_core::batch::BatchPlan, RegistryError> {
    plan_batch(&[descriptor()], &registry(), &limits(), shadow(), directions)
}

#[test]
fn batch_plan_groups_actor_directions_and_unions_effects() {
    let (a, b) = (id(0), id(1));
    let p = plan(vec![
        StageDirection::MutateActor { object_id: b, directions: vec![set(1, 3)] },
        StageDirection::MutateActor { object_id: a, directions: vec![set(1, 4)] },
        StageDirection::MutateActor { object_id: b, directions: vec![set(1, 5)] },
    ])
    .unwrap();
    assert_eq!(p.groups, vec![(b, vec![set(1, 3), set(1, 5)]), (a, vec![set(1, 4)])]);
    assert_eq!(p.touched, vec![b, a]);
    assert_eq!(p.effects, MutationEffects::DRAW());
}

#[test]
fn batch_plan_refuses_in_direction_order() {
    let (a, b) = (id(0), id(1));
    assert_eq!(plan(vec![]).err(), Some(RegistryError::BatchInvalid));
    assert_eq!(
        plan(vec![StageDirection::MutateActor { object_id: id(9), directions: vec![] }]).err(),
        Some(RegistryError::StaleObject { object_id: id(9) })
    );
    assert_eq!(plan(vec![StageDirection::MutateActor { object_id: b, directions: vec![] }]).err(), Some(RegistryError::BatchInvalid));
    assert_eq!(
        plan(vec![StageDirection::MutateActor { object_id: b, directions: vec![set(2, 1)] }]).err(),
        Some(RegistryError::UnknownProperty { property_id: 2 })
    );
    assert_eq!(
        plan(vec![StageDirection::MutateActor { object_id: b, directions: vec![set(1, 11)] }]).err(),
        Some(RegistryError::Range { field_id: 1 })
    );
    let flag = StageDirection::SetFlag { object_id: a, flag: RuntimeFlag::Clickable, enabled: true };
    assert_eq!(plan(vec![flag]).err(), Some(RegistryError::Unsupported));
    let geometry = StageDirection::SetComputedGeometry { object_id: a, bounds: Rect { x: 0, y: 0, width: 1, height: 1 } };
    assert_eq!(plan(vec![geometry]).err(), Some(RegistryError::ReadOnly));
    // A later direction sees the tree as the earlier ones left it.
    let deleted_then_touched = vec![
        StageDirection::Delete { object_id: b },
        StageDirection::MutateActor { object_id: b, directions: vec![set(1, 1)] },
    ];
    assert_eq!(plan(deleted_then_touched).err(), Some(RegistryError::StaleObject { object_id: b }));
}

#[test]
fn batch_plan_rehearses_tree_and_style_directions() {
    let (a, b, c) = (id(0), id(1), id(2));
    let p = plan(vec![
        StageDirection::SetFlag { object_id: b, flag: RuntimeFlag::Enabled, enabled: false },
        StageDirection::Reorder { object_id: c, index: 0 },
        StageDirection::SetLocalStyle { object_id: a, part_id: 0, state_mask: 0x80, property_id: 1, value: OwnedValue::Color(0xff00_00ff) },
    ])
    .unwrap();
    assert_eq!(p.shadow.actor(a).unwrap().children, vec![c, b]);
    assert_eq!(
        p.styles,
        vec![(a, Selector { part: 0, states: 0x80 }, StyleProperty::BgColor, StyleUpdate::Assign(StyleValue::Color(Color(0, 0, 0xff, 0xff))))]
    );
    assert_eq!(p.touched, vec![b, a]);
    let all = MutationEffects::DRAW()
        .union(MutationEffects::LAYOUT())
        .union(MutationEffects::TREE())
        .union(MutationEffects::FOCUS())
        .union(MutationEffects::SNAPSHOT());
    assert_eq!(p.effects, all);

    let deep = RegistryLimits { max_children_per_actor: 1, ..limits() };
    let r = plan_batch(&[descriptor()], &registry(), &deep, shadow(), vec![StageDirection::Reorder { object_id: c, index: 0 }]);
    assert_eq!(r.err(), Some(RegistryError::Capacity { kind: rlvgl_core::actor::CapacityKind::Children }));
}

#[test]
fn preflight_reports_child_first_deletions_without_applying_them() {
    let (a, b, c) = (id(0), id(1), id(2));
    let stage = StageId::new(3).unwrap();
    let report = preflight_batch(
        stage,
        StageRevision::new(7),
        &[descriptor()],
        &registry(),
        &limits(),
        shadow(),
        vec![StageDirection::Delete { object_id: a }],
    )
    .unwrap();
    assert_eq!(report.stage_id(), stage);
    assert_eq!(report.starting_revision(), StageRevision::new(7));
    assert_eq!(report.deleted_object_ids(), &[b, c, a][..]);
    assert_eq!(report.deletion_count(), 3);
    let refused = preflight_batch(stage, StageRevision::new(7), &[descriptor()], &registry(), &limits(), shadow(), vec![]);
    assert_eq!(refused.err(), Some(RegistryError::BatchInvalid));
}
