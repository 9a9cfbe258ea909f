use rlvgl_core::actor::{
    ActorCapabilities, ActorFamily, ChildPolicy, ConstructorFieldDescriptor, DispatchPhase, EventDelivery,
    EventFilterSet, EventPhaseSet, LayoutCapabilities, MutationEffects, NativeEventKind, PropertyAccess,
    PropertyConstraint, PropertyDefault, PropertyDescriptor, RegistryError, ResourceCost, StyleApplicabilityError,
    StylePartIdentity, StyleStateIdentity, StyleValueConstraint, TargetSet, TypeId,
};
use rlvgl_core::catalog::{
    style_part_table, style_property_table, style_registry_is_valid, validate_catalog, validate_style_direction,
    EventDescriptor, Selector, StyleProperty, StylePartDescriptor, StylePropertyDescriptor, StyleRegistry,
    StyleUpdate, StyleValue, TextAlign, TypeDescriptor, STYLE_TEXT_ALIGN_DOMAIN_ID,
};
use rlvgl_core::direction::{OwnedValue, ValueTag};
use rlvgl_core::widget::Color;

const MAIN: u32 = 0;
const DISABLED: u32 = 0x80;
const FOCUSED: u32 = 0x02;
const PRESSED: u32 = 0x20;
const CHECKED: u32 = 0x01;
const EDITED: u32 = 0x08;
const ALL_STATES: u32 = 0xff;

fn leak<T>(v: Vec<T>) -> &'static [T] {
    Box::leak(v.into_boxed_slice())
}

fn properties() -> &'static [StylePropertyDescriptor] {
    leak(style_property_table())
}

fn states() -> &'static [StyleStateIdentity] {
    leak(vec![
        StyleStateIdentity { mask: 0, name: "default" },
        StyleStateIdentity { mask: DISABLED, name: "disabled" },
        StyleStateIdentity { mask: FOCUSED, name: "focused" },
        StyleStateIdentity { mask: PRESSED, name: "pressed" },
        StyleStateIdentity { mask: CHECKED, name: "checked" },
        StyleStateIdentity { mask: EDITED, name: "edited" },
    ])
}

fn registry() -> StyleRegistry<'static> {
    StyleRegistry {
        parts: leak(style_part_table()),
        states: states(),
        properties: properties(),
        all_states: ALL_STATES,
    }
}

fn test_descriptor() -> TypeDescriptor {
    TypeDescriptor {
        type_id: TypeId::registered(7),
        stable_name: "rlvgl_core::actor::tests::PreparedGeometryActor",
        schema_revision: 1,
        family: ActorFamily::Container,
        capabilities: ActorCapabilities::STAGE_ROOT()
            .union(ActorCapabilities::CHILDREN())
            .union(ActorCapabilities::CONTROL()),
        targets: TargetSet::ALL(),
        constructor_fields: leak(vec![ConstructorFieldDescriptor {
            id: 1,
            name: "bounds",
            value_tag: ValueTag::Rect,
            required: true,
        }]),
        properties: &[],
        actions: &[],
        events: &[],
        styles: &[],
        child_policy: ChildPolicy::AnyActor,
        layout: LayoutCapabilities::FLEX_CONTAINER().union(LayoutCapabilities::GRID_CONTAINER()),
        resource_cost: ResourceCost { text_bytes: 0, resources: 0 },
    }
}

fn property(id: u32, name: &'static str, value_tag: ValueTag, default: PropertyDefault, constraint: PropertyConstraint) -> PropertyDescriptor {
    PropertyDescriptor {
        id,
        name,
        value_tag,
        access: PropertyAccess::ReadWrite,
        default,
        constraint,
        required_capabilities: ActorCapabilities::EMPTY(),
        effects: MutationEffects::NONE(),
    }
}

fn part(part: u32, name: &'static str, allowed_states: u32, properties: &'static [StylePropertyDescriptor]) -> StylePartDescriptor {
    StylePartDescriptor { part, name, allowed_states, properties }
}

#[test]
fn catalog_rejects_invalid_executable_defaults_and_accepts_boundaries_and_absence() {
    let reg = registry();
    let invalid_i32 = leak(vec![property(
        1,
        "value",
        ValueTag::I32,
        PropertyDefault::I32(11),
        PropertyConstraint::I32 { min: 0, max: 10 },
    )]);
    let invalid_text = leak(vec![property(
        1,
        "value",
        ValueTag::Text,
        PropertyDefault::Text("éé"),
        PropertyConstraint::TextBytes { max: 3 },
    )]);
    let valid_boundary = leak(vec![
        property(1, "number", ValueTag::I32, PropertyDefault::I32(10), PropertyConstraint::I32 { min: 0, max: 10 }),
        property(2, "text", ValueTag::Text, PropertyDefault::Text("éé"), PropertyConstraint::TextBytes { max: 4 }),
    ]);
    let valid_absent = leak(vec![property(
        1,
        "value",
        ValueTag::I32,
        PropertyDefault::Absent,
        PropertyConstraint::I32 { min: 0, max: 0 },
    )]);
    for properties in [invalid_i32, invalid_text] {
        assert_eq!(
            validate_catalog(&[TypeDescriptor { properties, ..test_descriptor() }], &reg),
            Err(RegistryError::InvalidCatalog)
        );
    }
    for properties in [valid_boundary, valid_absent] {
        assert_eq!(validate_catalog(&[TypeDescriptor { properties, ..test_descriptor() }], &reg), Ok(()));
    }
}

#[test]
fn catalog_rejects_reserved_duplicate_and_nonregistered_style_rows() {
    let reg = registry();
    let all = properties();
    let reserved = leak(vec![part(7, "reserved", 0, all)]);
    let duplicate = leak(vec![part(MAIN, "main", 0, all), part(MAIN, "main_duplicate", DISABLED, all)]);
    let altered_property = leak(vec![StylePropertyDescriptor { effects: MutationEffects::NONE(), ..all[0] }]);
    let altered = leak(vec![part(MAIN, "main", 0, altered_property)]);
    let wrong_name = leak(vec![part(MAIN, "body", 0, all)]);
    let unsorted_properties = leak(vec![all[1], all[0]]);
    let unsorted = leak(vec![part(MAIN, "main", 0, unsorted_properties)]);
    for styles in [reserved, duplicate, altered, wrong_name, unsorted] {
        assert_eq!(
            validate_catalog(&[TypeDescriptor { styles, ..test_descriptor() }], &reg),
            Err(RegistryError::InvalidCatalog)
        );
    }
}

#[test]
fn style_registry_tables_are_consistent_and_breaks_are_found() {
    let reg = registry();
    assert!(style_registry_is_valid(&reg));
    assert_eq!(reg.parts[0].name, "main");
    assert_eq!(reg.parts[6].name, "cursor");
    assert_eq!(reg.properties.len(), 20);
    assert_eq!(reg.properties[0].name, "bg_color");
    assert_eq!(reg.properties[9].name, "text_align");
    assert_eq!(reg.properties[19].name, "gap_col");
    assert_eq!(reg.properties[9].value_tag, ValueTag::Enum);
    assert_eq!(
        reg.properties[9].constraint,
        StyleValueConstraint::Enum { domain_id: STYLE_TEXT_ALIGN_DOMAIN_ID, values: &[0, 1, 2, 3] }
    );
    assert_eq!(reg.properties[6].storage, StyleProperty::FontId);

    let swapped_parts = leak(vec![reg.parts[1], reg.parts[0]]);
    assert!(!style_registry_is_valid(&StyleRegistry { parts: swapped_parts, ..reg }));
    let two_bits = leak(vec![StyleStateIdentity { mask: 0, name: "default" }, StyleStateIdentity { mask: 3, name: "both" }]);
    assert!(!style_registry_is_valid(&StyleRegistry { states: two_bits, ..reg }));
    let unknown_bit = leak(vec![StyleStateIdentity { mask: 0, name: "default" }, StyleStateIdentity { mask: 0x100, name: "x" }]);
    assert!(!style_registry_is_valid(&StyleRegistry { states: unknown_bit, ..reg }));
    let repeated_storage = leak(vec![reg.properties[0], StylePropertyDescriptor { id: 2, name: "other", ..reg.properties[0] }]);
    assert!(!style_registry_is_valid(&StyleRegistry { properties: repeated_storage, ..reg }));
    assert!(!style_registry_is_valid(&StyleRegistry { properties: leak(vec![reg.properties[1]]), ..reg }));
}

#[test]
fn catalog_checks_identity_actions_and_events() {
    let reg = registry();
    assert_eq!(validate_catalog(&[], &reg), Err(RegistryError::InvalidCatalog));
    assert_eq!(validate_catalog(&[test_descriptor()], &reg), Ok(()));
    assert_eq!(
        validate_catalog(&[test_descriptor(), test_descriptor()], &reg),
        Err(RegistryError::InvalidCatalog)
    );
    let second = TypeDescriptor { type_id: TypeId::registered(8), stable_name: "second", ..test_descriptor() };
    assert_eq!(validate_catalog(&[test_descriptor(), second], &reg), Ok(()));
    assert_eq!(
        validate_catalog(&[TypeDescriptor { schema_revision: 0, ..test_descriptor() }], &reg),
        Err(RegistryError::InvalidCatalog)
    );

    let event = EventDescriptor {
        id: 5,
        name: "clicked",
        payload: &[ValueTag::I32],
        max_payload_bytes: 5,
        native_event: NativeEventKind::Clicked,
        phases: EventPhaseSet::TARGET(),
        filters: EventFilterSet::ANY(),
        requires_widget_invocation: false,
        requires_native_consumed: false,
        allow_consume_at_target: true,
        allow_stop_after_phase: false,
        native_effects: MutationEffects::NONE(),
        delivery: EventDelivery::Ordered,
        coalescing_key: None,
    };
    assert!(EventPhaseSet::TARGET().allows(DispatchPhase::Target));
    let with_event = |e: EventDescriptor| TypeDescriptor { events: leak(vec![e]), ..test_descriptor() };
    assert_eq!(validate_catalog(&[with_event(event)], &reg), Ok(()));
    let small = EventDescriptor { max_payload_bytes: 4, ..event };
    assert_eq!(validate_catalog(&[with_event(small)], &reg), Err(RegistryError::InvalidCatalog));
    let keyed = EventDescriptor { coalescing_key: Some(1), ..event };
    assert_eq!(validate_catalog(&[with_event(keyed)], &reg), Err(RegistryError::InvalidCatalog));
    let coalesced = EventDescriptor { delivery: EventDelivery::LatestValueCoalescible, coalescing_key: Some(1), ..event };
    assert_eq!(validate_catalog(&[with_event(coalesced)], &reg), Ok(()));
    let consumed = EventDescriptor { requires_native_consumed: true, ..event };
    assert_eq!(validate_catalog(&[with_event(consumed)], &reg), Err(RegistryError::InvalidCatalog));
    // Event identifiers are unique across the whole catalog.
    let other = TypeDescriptor { type_id: TypeId::registered(8), stable_name: "other", ..with_event(event) };
    assert_eq!(validate_catalog(&[with_event(event), other], &reg), Err(RegistryError::InvalidCatalog));
}

fn control_descriptor() -> TypeDescriptor {
    let all = properties();
    let custom = leak(vec![all[0]]);
    TypeDescriptor {
        styles: leak(vec![
            part(MAIN, "main", DISABLED | FOCUSED | PRESSED | EDITED, all),
            part(8, "custom_fill", CHECKED, custom),
        ]),
        ..test_descriptor()
    }
}

#[test]
fn style_rows_resolve_exact_selectors() {
    let reg = registry();
    let d = control_descriptor();
    assert_eq!(validate_catalog(&[d], &reg), Ok(()));
    assert_eq!(d.style_property_for_raw_selector(ALL_STATES, MAIN, 0, 1).unwrap().storage, StyleProperty::BgColor);
    assert!(d.style_property_for_raw_selector(ALL_STATES, 8, CHECKED, 1).is_ok());
    assert_eq!(
        d.style_property_for_raw_selector(ALL_STATES, 8, PRESSED, 1),
        Err(StyleApplicabilityError::InvalidStateMask)
    );
    assert_eq!(d.style_property_for_raw_selector(ALL_STATES, 9, 0, 1), Err(StyleApplicabilityError::UnknownPart));
    assert_eq!(d.style_property_for_raw_selector(ALL_STATES, 7, 0, 1), Err(StyleApplicabilityError::UnknownPart));
    assert_eq!(
        d.style_property_for_raw_selector(ALL_STATES, MAIN, 0, 99),
        Err(StyleApplicabilityError::UnknownProperty)
    );
    assert_eq!(
        d.style_property_for_raw_selector(ALL_STATES, MAIN, 1 << 31, 1),
        Err(StyleApplicabilityError::InvalidStateMask)
    );
}

#[test]
fn style_directions_are_typed_and_range_checked() {
    let reg = registry();
    let d = control_descriptor();
    let main = Selector { part: MAIN, states: 0 };
    let (selector, p, update) = validate_style_direction(&d, &reg, MAIN, 0, 1, &OwnedValue::Color(0x8011_2233)).unwrap();
    assert_eq!((selector, p.id), (main, 1));
    assert_eq!(update, StyleUpdate::Assign(StyleValue::Color(Color(0x11, 0x22, 0x33, 0x80))));
    assert_eq!(
        validate_style_direction(&d, &reg, MAIN, FOCUSED, 4, &OwnedValue::Nothing).unwrap().2,
        StyleUpdate::Remove
    );
    assert_eq!(
        validate_style_direction(&d, &reg, MAIN, 0, 4, &OwnedValue::U32(256)),
        Err(RegistryError::Range { field_id: 4 })
    );
    assert_eq!(
        validate_style_direction(&d, &reg, MAIN, 0, 4, &OwnedValue::U32(255)).unwrap().2,
        StyleUpdate::Assign(StyleValue::U32(255))
    );
    assert_eq!(
        validate_style_direction(&d, &reg, MAIN, 0, 4, &OwnedValue::I32(3)),
        Err(RegistryError::TypeMismatch { field_id: 4, expected: ValueTag::U32, actual: ValueTag::I32 })
    );
    assert_eq!(
        validate_style_direction(&d, &reg, MAIN, 0, 8, &OwnedValue::I32(-129)),
        Err(RegistryError::Range { field_id: 8 })
    );
    let align = |value: u32| OwnedValue::Enum { domain: STYLE_TEXT_ALIGN_DOMAIN_ID, value };
    assert_eq!(
        validate_style_direction(&d, &reg, MAIN, 0, 10, &align(2)).unwrap().2,
        StyleUpdate::Assign(StyleValue::TextAlign(TextAlign::Right))
    );
    assert_eq!(validate_style_direction(&d, &reg, MAIN, 0, 10, &align(4)), Err(RegistryError::Range { field_id: 10 }));
    assert_eq!(
        validate_style_direction(&d, &reg, MAIN, 0, 10, &OwnedValue::Enum { domain: 9, value: 0 }),
        Err(RegistryError::Range { field_id: 10 })
    );
    // Unknown everywhere, versus registered but not applicable here.
    assert_eq!(
        validate_style_direction(&d, &reg, MAIN, 0, 99, &OwnedValue::U32(1)),
        Err(RegistryError::UnknownProperty { property_id: 99 })
    );
    assert_eq!(validate_style_direction(&d, &reg, 8, 0, 4, &OwnedValue::U32(1)), Err(RegistryError::Unsupported));
    assert_eq!(validate_style_direction(&d, &reg, MAIN, CHECKED, 1, &OwnedValue::Color(0)), Err(RegistryError::Unsupported));
    assert_eq!(validate_style_direction(&d, &reg, 3, 0, 1, &OwnedValue::Color(0)), Err(RegistryError::Unsupported));
}
