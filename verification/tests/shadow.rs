use rlvgl_core::actor::{
    ActorCapabilities, CapacityKind, ChildPolicy, ObjectId, PlannedSlot, RegistryError, RegistryLimits, TypeId,
};
use rlvgl_core::direction::{
    BatchCreateDestination, BatchObjectReference, BatchStageDirection, CreateDirection, RuntimeFlag, StageDirection,
};
use rlvgl_core::shadow::{resolve_atomic_direction, PreparedCreateDestination, ShadowActor, TreeShadow};

fn id(slot: u32) -> ObjectId {
    ObjectId::from_parts(1, slot)
}

fn actor(object_id: ObjectId, parent: Option<ObjectId>, children: Vec<ObjectId>) -> ShadowActor {
    let max_children = children.len();
    ShadowActor {
        object_id,
        type_id: TypeId::registered(3),
        capabilities: ActorCapabilities::STAGE_ROOT().union(ActorCapabilities::CHILDREN()),
        child_policy: ChildPolicy::AnyActor,
        parent,
        children,
        max_children,
        alive: true,
    }
}

/// Root `a` named "main" holding `b` and `c`; `b` holds `d`.
fn sample() -> TreeShadow {
    let (a, b, c, d) = (id(0), id(1), id(2), id(3));
    TreeShadow::new(
        vec![
            actor(a, None, vec![b, c]),
            actor(b, Some(a), vec![d]),
            actor(c, Some(a), vec![]),
            actor(d, Some(b), vec![]),
        ],
        vec![("main".to_string(), a)],
    )
}

fn children_of(shadow: &TreeShadow, object_id: ObjectId) -> Vec<ObjectId> {
    shadow.actor(object_id).unwrap().children.clone()
}

fn root_order(shadow: &TreeShadow) -> Vec<(String, ObjectId)> {
    shadow.roots().clone()
}

#[test]
fn reorder_moves_a_child_among_its_siblings() {
    let mut shadow = sample();
    let (a, b, c) = (id(0), id(1), id(2));
    assert_eq!(shadow.apply(&StageDirection::Reorder { object_id: c, index: 0 }), Ok(()));
    assert_eq!(children_of(&shadow, a), vec![c, b]);
    assert_eq!(
        shadow.apply(&StageDirection::Reorder { object_id: c, index: 2 }),
        Err(RegistryError::Range { field_id: 0 })
    );
    assert_eq!(children_of(&shadow, a), vec![c, b]);
    assert_eq!(shadow.apply(&StageDirection::Reorder { object_id: a, index: 0 }), Ok(()));
    assert_eq!(
        shadow.apply(&StageDirection::Reorder { object_id: id(9), index: 0 }),
        Err(RegistryError::StaleObject { object_id: id(9) })
    );
}

#[test]
fn reparent_moves_a_subtree_and_refuses_cycles() {
    let mut shadow = sample();
    let (a, b, c, d) = (id(0), id(1), id(2), id(3));
    let moved = StageDirection::Reparent { object_id: d, new_parent: c, index: 0 };
    assert_eq!(shadow.apply(&moved), Ok(()));
    assert_eq!(children_of(&shadow, b), Vec::<ObjectId>::new());
    assert_eq!(children_of(&shadow, c), vec![d]);
    assert_eq!(shadow.actor(d).unwrap().parent, Some(c));
    // `b` once held one child, which its high-water mark remembers.
    assert_eq!(shadow.actor(b).unwrap().max_children, 1);

    let under_descendant = StageDirection::Reparent { object_id: a, new_parent: d, index: 0 };
    assert_eq!(shadow.apply(&under_descendant), Err(RegistryError::InvalidParent));
    let under_itself = StageDirection::Reparent { object_id: c, new_parent: c, index: 0 };
    assert_eq!(shadow.apply(&under_itself), Err(RegistryError::InvalidParent));
    let past_the_end = StageDirection::Reparent { object_id: b, new_parent: c, index: 2 };
    assert_eq!(shadow.apply(&past_the_end), Err(RegistryError::Range { field_id: 0 }));
}

#[test]
fn reparent_honours_the_parent_child_policy() {
    let (a, b, c) = (id(0), id(1), id(2));
    let mut closed = actor(c, Some(a), vec![]);
    closed.child_policy = ChildPolicy::NoChildren;
    let mut shadow = TreeShadow::new(
        vec![actor(a, None, vec![b, c]), actor(b, Some(a), vec![]), closed],
        vec![("main".to_string(), a)],
    );
    let into_closed = StageDirection::Reparent { object_id: b, new_parent: c, index: 0 };
    assert_eq!(shadow.apply(&into_closed), Err(RegistryError::InvalidParent));
}

#[test]
fn promote_root_names_a_new_root_once() {
    let mut shadow = sample();
    let (a, b, c) = (id(0), id(1), id(2));
    let promote = StageDirection::PromoteRoot { object_id: b, name: "side".to_string(), index: 1 };
    assert_eq!(shadow.apply(&promote), Ok(()));
    assert_eq!(root_order(&shadow), vec![("main".to_string(), a), ("side".to_string(), b)]);
    assert_eq!(shadow.actor(b).unwrap().parent, None);
    assert_eq!(children_of(&shadow, a), vec![c]);
    assert_eq!(shadow.max_roots(), 2);

    let unnamed = StageDirection::PromoteRoot { object_id: c, name: String::new(), index: 0 };
    assert_eq!(shadow.apply(&unnamed), Err(RegistryError::InvalidParent));
    let taken = StageDirection::PromoteRoot { object_id: c, name: "main".to_string(), index: 0 };
    assert_eq!(shadow.apply(&taken), Err(RegistryError::InvalidParent));
}

#[test]
fn delete_removes_the_subtree_children_first() {
    let mut shadow = sample();
    let (a, b, c, d) = (id(0), id(1), id(2), id(3));
    assert_eq!(shadow.apply(&StageDirection::Delete { object_id: b }), Ok(()));
    assert_eq!(shadow.deleted_object_ids().clone(), vec![d, b]);
    assert_eq!(shadow.delete_groups().clone(), vec![vec![d, b]]);
    assert_eq!(children_of(&shadow, a), vec![c]);
    assert_eq!(shadow.actor(d).err(), Some(RegistryError::StaleObject { object_id: d }));
    assert_eq!(
        shadow.apply(&StageDirection::Delete { object_id: b }),
        Err(RegistryError::StaleObject { object_id: b })
    );
    assert_eq!(shadow.apply(&StageDirection::Delete { object_id: a }), Ok(()));
    assert_eq!(shadow.deleted_object_ids().clone(), vec![d, b, c, a]);
    assert_eq!(shadow.delete_groups().clone(), vec![vec![d, b], vec![c, a]]);
    assert!(shadow.roots().is_empty());
}

#[test]
fn directions_outside_the_tree_leave_it_alone() {
    let mut shadow = sample();
    let a = id(0);
    let flag = StageDirection::SetFlag { object_id: a, flag: RuntimeFlag::Hidden, enabled: true };
    assert_eq!(shadow.apply(&flag), Ok(()));
    assert_eq!(children_of(&shadow, a), vec![id(1), id(2)]);
    assert_eq!(root_order(&shadow), vec![("main".to_string(), a)]);
    assert!(shadow.deleted_object_ids().is_empty());
}

fn caps() -> ActorCapabilities {
    ActorCapabilities::STAGE_ROOT().union(ActorCapabilities::CHILDREN())
}

#[test]
fn append_create_attaches_new_actors_within_the_limits() {
    let mut shadow = sample();
    let (a, c, e, f) = (id(0), id(2), id(4), id(5));
    let t = TypeId::registered(3);
    let as_child = PreparedCreateDestination::Child { parent: c };
    assert_eq!(
        shadow.append_create(4, e, t, caps(), ChildPolicy::AnyActor, &as_child),
        Err(RegistryError::Capacity { kind: CapacityKind::Actors })
    );
    assert_eq!(shadow.append_create(8, e, t, caps(), ChildPolicy::AnyActor, &as_child), Ok(()));
    assert_eq!(children_of(&shadow, c), vec![e]);
    assert_eq!(shadow.actor(e).unwrap().parent, Some(c));
    assert_eq!(shadow.actors().len(), 5);

    let unnamed = PreparedCreateDestination::Root { name: String::new() };
    assert_eq!(
        shadow.append_create(8, f, t, caps(), ChildPolicy::AnyActor, &unnamed),
        Err(RegistryError::InvalidParent)
    );
    let no_root_capability = PreparedCreateDestination::Root { name: "aux".to_string() };
    assert_eq!(
        shadow.append_create(8, f, t, ActorCapabilities::CHILDREN(), ChildPolicy::AnyActor, &no_root_capability),
        Err(RegistryError::InvalidParent)
    );
    let taken = PreparedCreateDestination::Root { name: "main".to_string() };
    assert_eq!(
        shadow.append_create(8, f, t, caps(), ChildPolicy::AnyActor, &taken),
        Err(RegistryError::DuplicateRoot)
    );
    let aux = PreparedCreateDestination::Root { name: "aux".to_string() };
    assert_eq!(shadow.append_create(8, f, t, caps(), ChildPolicy::AnyActor, &aux), Ok(()));
    assert_eq!(root_order(&shadow), vec![("main".to_string(), a), ("aux".to_string(), f)]);
    assert_eq!(shadow.max_roots(), 2);

    let under_stale = PreparedCreateDestination::Child { parent: id(9) };
    assert_eq!(
        shadow.append_create(8, id(6), t, caps(), ChildPolicy::AnyActor, &under_stale),
        Err(RegistryError::StaleObject { object_id: id(9) })
    );
}

#[test]
fn batch_references_resolve_against_slots_bindings_and_the_shadow() {
    let mut shadow = sample();
    let slots: Vec<PlannedSlot> = (0..4).map(|k| PlannedSlot::Occupied(id(k))).collect();
    let e = id(4);
    let as_child = PreparedCreateDestination::Child { parent: id(0) };
    shadow.append_create(8, e, TypeId::registered(3), caps(), ChildPolicy::AnyActor, &as_child).unwrap();
    let bindings = vec![(7u16, e, 0usize)];

    let stable = BatchStageDirection::Reorder { object: BatchObjectReference::Stable(id(1)), index: 0 };
    assert_eq!(
        resolve_atomic_direction(stable, &slots, &shadow, &bindings),
        Ok(StageDirection::Reorder { object_id: id(1), index: 0 })
    );
    let earlier = BatchStageDirection::Reparent {
        object: BatchObjectReference::EarlierBatch(7),
        new_parent: BatchObjectReference::Stable(id(2)),
        index: 0,
    };
    assert_eq!(
        resolve_atomic_direction(earlier, &slots, &shadow, &bindings),
        Ok(StageDirection::Reparent { object_id: e, new_parent: id(2), index: 0 })
    );
    // A batch-created actor has no slot record yet, so it cannot be named stably.
    let stable_new = BatchStageDirection::Delete { object: BatchObjectReference::Stable(e) };
    assert_eq!(
        resolve_atomic_direction(stable_new, &slots, &shadow, &bindings),
        Err(RegistryError::StaleObject { object_id: e })
    );
    let old_generation = ObjectId::from_parts(2, 1);
    let stale = BatchStageDirection::Delete { object: BatchObjectReference::Stable(old_generation) };
    assert_eq!(
        resolve_atomic_direction(stale, &slots, &shadow, &bindings),
        Err(RegistryError::StaleObject { object_id: old_generation })
    );
    let zero = BatchStageDirection::Delete { object: BatchObjectReference::EarlierBatch(0) };
    assert_eq!(resolve_atomic_direction(zero, &slots, &shadow, &bindings), Err(RegistryError::BatchInvalid));
    let unbound = BatchStageDirection::Delete { object: BatchObjectReference::EarlierBatch(8) };
    assert_eq!(resolve_atomic_direction(unbound, &slots, &shadow, &bindings), Err(RegistryError::BatchInvalid));
    let create = BatchStageDirection::Create(CreateDirection {
        batch_ref: 9,
        type_id: TypeId::registered(3),
        destination: BatchCreateDestination::Root { name: "x".to_string() },
        fields: Vec::new(),
    });
    assert_eq!(resolve_atomic_direction(create, &slots, &shadow, &bindings), Err(RegistryError::Internal));

    assert_eq!(shadow.apply(&StageDirection::Delete { object_id: id(1) }), Ok(()));
    let deleted = BatchStageDirection::Reorder { object: BatchObjectReference::Stable(id(3)), index: 0 };
    assert_eq!(
        resolve_atomic_direction(deleted, &slots, &shadow, &bindings),
        Err(RegistryError::StaleObject { object_id: id(3) })
    );
}

fn limits(max_roots: usize, max_tree_depth: usize, max_children_per_actor: usize) -> RegistryLimits {
    RegistryLimits {
        max_roots,
        max_actors: 8,
        max_tree_depth,
        max_children_per_actor,
        max_text_bytes: 100,
        max_resources: 10,
    }
}

#[test]
fn final_tree_is_checked_against_the_limits_in_order() {
    let shadow = sample();
    assert_eq!(shadow.validate_final_tree(&limits(1, 3, 2)), Ok(()));
    assert_eq!(
        shadow.validate_final_tree(&limits(0, 3, 2)),
        Err(RegistryError::Capacity { kind: CapacityKind::Roots })
    );
    assert_eq!(
        shadow.validate_final_tree(&limits(1, 2, 2)),
        Err(RegistryError::Capacity { kind: CapacityKind::TreeDepth })
    );
    assert_eq!(
        shadow.validate_final_tree(&limits(1, 3, 1)),
        Err(RegistryError::Capacity { kind: CapacityKind::Children })
    );
    // Depth is reported before the child count.
    assert_eq!(
        shadow.validate_final_tree(&limits(1, 1, 1)),
        Err(RegistryError::Capacity { kind: CapacityKind::TreeDepth })
    );

    let (a, b) = (id(0), id(1));
    let twins = TreeShadow::new(
        vec![actor(a, None, vec![]), actor(b, None, vec![])],
        vec![("main".to_string(), a), ("main".to_string(), b)],
    );
    assert_eq!(twins.validate_final_tree(&limits(4, 3, 2)), Err(RegistryError::InvalidParent));
}

#[test]
fn rehearsal_keeps_every_actor_and_raises_high_water_marks() {
    let mut shadow = sample();
    let (a, b, c, d) = (id(0), id(1), id(2), id(3));
    let directions = vec![
        StageDirection::Reparent { object_id: d, new_parent: a, index: 2 },
        StageDirection::PromoteRoot { object_id: c, name: "side".to_string(), index: 0 },
        StageDirection::Delete { object_id: b },
    ];
    for direction in &directions {
        assert_eq!(shadow.apply(direction), Ok(()));
        assert_eq!(shadow.actors().len(), 4);
        for actor in shadow.actors() {
            assert!(actor.max_children >= actor.children.len());
        }
        assert!(shadow.max_roots() >= shadow.roots().len());
    }
    let ids: Vec<ObjectId> = shadow.actors().iter().map(|actor| actor.object_id).collect();
    assert_eq!(ids, vec![a, b, c, d]);
    // `a` held three children after the reparent and keeps that mark.
    assert_eq!(shadow.actor(a).unwrap().max_children, 3);
    assert_eq!(shadow.actor(a).unwrap().children, vec![d]);
    assert_eq!(shadow.max_roots(), 2);
    assert_eq!(shadow.deleted_object_ids().clone(), vec![b]);
}
