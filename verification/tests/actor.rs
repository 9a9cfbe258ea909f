use rlvgl_core::actor::{ActorCapabilities, ChildPolicy, PropertyDefault, TypeId};
use rlvgl_core::direction::OwnedValue;

#[test]
fn child_policy_decides_by_variant() {
    let text = ActorCapabilities::TEXT();
    let control = ActorCapabilities::CONTROL();
    let both = text.union(control);
    let t7 = TypeId::registered(7);
    let t9 = TypeId::registered(9);

    assert!(!ChildPolicy::NoChildren.allows(t7, both));
    assert!(ChildPolicy::AnyActor.allows(t7, ActorCapabilities::EMPTY()));

    let needs_text = ChildPolicy::Capability(text);
    assert!(needs_text.allows(t7, both));
    assert!(needs_text.allows(t9, text));
    assert!(!needs_text.allows(t7, control));
    assert!(ChildPolicy::Capability(ActorCapabilities::EMPTY()).allows(t9, ActorCapabilities::EMPTY()));

    let listed: &'static [TypeId] = Box::leak(vec![t7, TypeId::registered(11)].into_boxed_slice());
    let explicit = ChildPolicy::Explicit(listed);
    assert!(explicit.allows(t7, ActorCapabilities::EMPTY()));
    assert!(explicit.allows(TypeId::registered(11), both));
    assert!(!explicit.allows(t9, both));
    assert!(!ChildPolicy::Explicit(&[]).allows(t7, both));
}

#[test]
fn property_defaults_become_owned_values() {
    assert_eq!(PropertyDefault::Absent.owned(), None);
    assert_eq!(PropertyDefault::Bool(true).owned(), Some(OwnedValue::Bool(true)));
    assert_eq!(PropertyDefault::I32(-4).owned(), Some(OwnedValue::I32(-4)));
    assert_eq!(PropertyDefault::U32(9).owned(), Some(OwnedValue::U32(9)));
    assert_eq!(PropertyDefault::Text("hi").owned(), Some(OwnedValue::Text(String::from("hi"))));
}

use rlvgl_core::actor::{
    actor_direction_effects, apply_text_delta, validate_atomic_constructor_fields, ConstructorFieldDescriptor, minimum_event_payload_bytes,
    property_default_satisfies_constraint, validate_property_readback,
    validate_actor_directions, validate_atomic_actor_directions, validate_property_constraint,
    ActionDescriptor, ActionTransaction, MutationEffects, PropertyAccess, PropertyConstraint,
    PropertyDescriptor, RegistryError,
};
use rlvgl_core::direction::{ActorDirection, CreateField, ValueTag};

fn prop(id: u32, tag: ValueTag, access: PropertyAccess, constraint: PropertyConstraint) -> PropertyDescriptor {
    PropertyDescriptor {
        id,
        name: "p",
        value_tag: tag,
        access,
        default: PropertyDefault::Absent,
        constraint,
        required_capabilities: ActorCapabilities::EMPTY(),
        effects: MutationEffects::NONE(),
    }
}

fn action(id: u32, arguments: &'static [ValueTag], results: &'static [ValueTag], transaction: ActionTransaction) -> ActionDescriptor {
    ActionDescriptor {
        id,
        name: "a",
        arguments,
        results,
        transaction,
        required_capabilities: ActorCapabilities::EMPTY(),
        effects: MutationEffects::NONE(),
    }
}

#[test]
fn actor_directions_are_checked_in_order_against_the_schema() {
    let props = [
        prop(1, ValueTag::I32, PropertyAccess::ReadWrite, PropertyConstraint::I32 { min: 0, max: 10 }),
        prop(2, ValueTag::Text, PropertyAccess::ReadWrite, PropertyConstraint::TextBytes { max: 3 }),
        prop(3, ValueTag::Bool, PropertyAccess::ReadOnly, PropertyConstraint::Unconstrained),
        prop(4, ValueTag::Object, PropertyAccess::ReadWrite, PropertyConstraint::Unconstrained),
    ];
    let acts = [
        action(7, &[ValueTag::I32, ValueTag::Object], &[], ActionTransaction::Transactional),
        action(8, &[], &[], ActionTransaction::BatchForbidden),
        action(9, &[], &[ValueTag::Bool], ActionTransaction::Transactional),
    ];
    let set = |id: u32, value: OwnedValue| ActorDirection::SetProperty { id, value };
    assert_eq!(validate_actor_directions(&props, &acts, &[set(1, OwnedValue::I32(10)), ActorDirection::ResetProperty { id: 2 }]), Ok(()));
    assert_eq!(validate_actor_directions(&props, &acts, &[set(5, OwnedValue::I32(1))]), Err(RegistryError::UnknownProperty { property_id: 5 }));
    assert_eq!(validate_actor_directions(&props, &acts, &[set(3, OwnedValue::Bool(true))]), Err(RegistryError::ReadOnlyField { field_id: 3 }));
    assert_eq!(validate_actor_directions(&props, &acts, &[ActorDirection::ResetProperty { id: 3 }]), Err(RegistryError::ReadOnlyField { field_id: 3 }));
    assert_eq!(
        validate_actor_directions(&props, &acts, &[set(1, OwnedValue::U32(1))]),
        Err(RegistryError::TypeMismatch { field_id: 1, expected: ValueTag::I32, actual: ValueTag::U32 })
    );
    assert_eq!(validate_actor_directions(&props, &acts, &[set(1, OwnedValue::I32(11))]), Err(RegistryError::Range { field_id: 1 }));
    assert_eq!(validate_actor_directions(&props, &acts, &[set(2, OwnedValue::Text(String::from("éé")))]), Err(RegistryError::Range { field_id: 2 }));
    assert_eq!(validate_actor_directions(&props, &acts, &[set(2, OwnedValue::Text(String::from("abc")))]), Ok(()));
    // batch-local object references only inside a batch
    assert!(validate_actor_directions(&props, &acts, &[set(4, OwnedValue::BatchObject(0))]).is_err());
    assert_eq!(validate_atomic_actor_directions(&props, &acts, &[set(4, OwnedValue::BatchObject(0))]), Ok(()));
    // actions
    let invoke = |id: u32, arguments: Vec<OwnedValue>| ActorDirection::InvokeAction { id, arguments };
    assert_eq!(validate_actor_directions(&props, &acts, &[invoke(6, vec![])]), Err(RegistryError::UnknownAction { action_id: 6 }));
    assert_eq!(validate_actor_directions(&props, &acts, &[invoke(8, vec![])]), Err(RegistryError::BatchInvalidField { field_id: 8 }));
    assert_eq!(validate_actor_directions(&props, &acts, &[invoke(9, vec![])]), Err(RegistryError::UnsupportedAction { action_id: 9 }));
    assert_eq!(validate_actor_directions(&props, &acts, &[invoke(7, vec![OwnedValue::I32(1)])]), Err(RegistryError::BatchInvalidField { field_id: 7 }));
    assert_eq!(
        validate_actor_directions(&props, &acts, &[invoke(7, vec![OwnedValue::I32(1), OwnedValue::I64(2)])]),
        Err(RegistryError::TypeMismatch { field_id: 7, expected: ValueTag::Object, actual: ValueTag::I64 })
    );
    assert_eq!(validate_atomic_actor_directions(&props, &acts, &[invoke(7, vec![OwnedValue::I32(1), OwnedValue::BatchObject(3)])]), Ok(()));
    // the first failing direction decides
    assert_eq!(
        validate_actor_directions(&props, &acts, &[set(1, OwnedValue::I32(2)), set(3, OwnedValue::Bool(false)), set(9, OwnedValue::Nothing)]),
        Err(RegistryError::ReadOnlyField { field_id: 3 })
    );
    assert_eq!(validate_property_constraint(&props[0], &OwnedValue::I32(-1)), Err(RegistryError::Range { field_id: 1 }));
}

#[test]
fn registry_helpers_compute_exact_values() {
    assert_eq!(apply_text_delta(10, -4), Ok(6));
    assert_eq!(apply_text_delta(3, -4), Err(RegistryError::Internal));
    assert_eq!(apply_text_delta(u32::MAX, 1), Err(RegistryError::Internal));
    assert_eq!(apply_text_delta(0, i64::MAX), Err(RegistryError::Internal));

    assert_eq!(minimum_event_payload_bytes(&[]), Some(0));
    assert_eq!(minimum_event_payload_bytes(&[ValueTag::Nothing, ValueTag::Rect, ValueTag::BatchObject]), Some(21));

    assert_eq!(PropertyDefault::Absent.tag(), None);
    assert_eq!(PropertyDefault::Text("x").tag(), Some(ValueTag::Text));
    assert!(property_default_satisfies_constraint(PropertyDefault::Absent, PropertyConstraint::I32 { min: 0, max: 1 }));
    assert!(property_default_satisfies_constraint(PropertyDefault::Bool(true), PropertyConstraint::Unconstrained));
    assert!(property_default_satisfies_constraint(PropertyDefault::I32(1), PropertyConstraint::I32 { min: 0, max: 1 }));
    assert!(!property_default_satisfies_constraint(PropertyDefault::I32(2), PropertyConstraint::I32 { min: 0, max: 1 }));
    assert!(!property_default_satisfies_constraint(PropertyDefault::U32(0), PropertyConstraint::I32 { min: 0, max: 1 }));
    assert!(property_default_satisfies_constraint(PropertyDefault::Text("ab"), PropertyConstraint::TextBytes { max: 2 }));
    assert!(!property_default_satisfies_constraint(PropertyDefault::Text("é!"), PropertyConstraint::TextBytes { max: 2 }));

    let p = prop(1, ValueTag::I32, PropertyAccess::ReadWrite, PropertyConstraint::Unconstrained);
    assert_eq!(validate_property_readback(&p, OwnedValue::I32(4)), Ok(OwnedValue::I32(4)));
    assert_eq!(validate_property_readback(&p, OwnedValue::Nothing), Ok(OwnedValue::Nothing));
    assert_eq!(validate_property_readback(&p, OwnedValue::Bool(true)), Err(RegistryError::Internal));

    let props = [
        PropertyDescriptor { effects: MutationEffects::DRAW(), ..p },
        PropertyDescriptor { id: 2, effects: MutationEffects::LAYOUT(), ..p },
    ];
    let acts = [ActionDescriptor { effects: MutationEffects::TREE(), ..action(5, &[], &[], ActionTransaction::Transactional) }];
    let e = actor_direction_effects(
        &props,
        &acts,
        &[ActorDirection::ResetProperty { id: 2 }, ActorDirection::InvokeAction { id: 5, arguments: vec![] }],
    )
    .unwrap();
    assert_eq!(e, MutationEffects::LAYOUT().union(MutationEffects::TREE()));
    assert_eq!(
        actor_direction_effects(&props, &acts, &[ActorDirection::ResetProperty { id: 1 }, ActorDirection::InvokeAction { id: 6, arguments: vec![] }]),
        Err(RegistryError::UnknownAction { action_id: 6 })
    );
}

#[test]
fn atomic_constructor_fields_are_checked_then_required_ones_supplied() {
    let decl = [
        ConstructorFieldDescriptor { id: 1, name: "x", value_tag: ValueTag::I32, required: true },
        ConstructorFieldDescriptor { id: 2, name: "parent", value_tag: ValueTag::Object, required: false },
        ConstructorFieldDescriptor { id: 3, name: "label", value_tag: ValueTag::Text, required: true },
    ];
    let f = |id: u32, value: OwnedValue| CreateField { id, value };
    let text = || OwnedValue::Text(String::from("t"));
    assert_eq!(validate_atomic_constructor_fields(&decl, &[f(3, text()), f(1, OwnedValue::I32(0))]), Ok(()));
    assert_eq!(
        validate_atomic_constructor_fields(&decl, &[f(1, OwnedValue::I32(0)), f(2, OwnedValue::BatchObject(1)), f(3, text())]),
        Ok(())
    );
    assert_eq!(
        validate_atomic_constructor_fields(&decl, &[f(1, OwnedValue::I32(0)), f(1, OwnedValue::I32(1))]),
        Err(RegistryError::DuplicateField { field_id: 1 })
    );
    assert_eq!(validate_atomic_constructor_fields(&decl, &[f(9, OwnedValue::I32(0))]), Err(RegistryError::UnknownField { field_id: 9 }));
    assert_eq!(
        validate_atomic_constructor_fields(&decl, &[f(1, OwnedValue::U32(0))]),
        Err(RegistryError::TypeMismatch { field_id: 1, expected: ValueTag::I32, actual: ValueTag::U32 })
    );
    assert_eq!(validate_atomic_constructor_fields(&decl, &[f(1, OwnedValue::I32(0))]), Err(RegistryError::MissingField { field_id: 3 }));
    assert_eq!(validate_atomic_constructor_fields(&decl, &[]), Err(RegistryError::MissingField { field_id: 1 }));
}
