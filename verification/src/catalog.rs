//! Actor type descriptors, the global style registry, and the validation of a
//! descriptor catalog before a Stage Registry accepts it.
use vstd::prelude::*;

use crate::actor::{
    default_meets_constraint, phase_bit, tags_min_bytes, ActionDescriptor, ActorCapabilities, ActorFamily,
    ChildPolicy, ConstructorFieldDescriptor, DispatchPhase, EventDelivery, EventFilterSet, EventPhaseSet,
    LayoutCapabilities, MutationEffects, NativeEventKind, PropertyConstraint, PropertyDefault, PropertyDescriptor,
    ResourceCost, StyleApplicabilityError, StylePartIdentity, StyleStateIdentity, StyleValueConstraint, TargetSet, TypeId,
    minimum_event_payload_bytes, RegistryError,
};
use crate::asset::str_equal;
use crate::direction::{owned_tag, OwnedValue, ValueTag};

verus! {

/// Typed sparse-patch storage key of a style property.
#[derive(Clone, Copy, Debug, PartialEq, Eq, Structural)]
pub enum StyleProperty {
    BgColor,
    BorderColor,
    BorderWidth,
    Alpha,
    Radius,
    TextColor,
    FontId,
    LetterSpacing,
    LineSpacing,
    TextAlign,
    PaddingTop,
    PaddingBottom,
    PaddingLeft,
    PaddingRight,
    MarginTop,
    MarginBottom,
    MarginLeft,
    MarginRight,
    GapRow,
    GapCol,
}

/// One globally registered local-style property.
#[derive(Clone, Copy, Debug, PartialEq, Eq)]
pub struct StylePropertyDescriptor {
    /// Stable nonzero style-property identifier.
    pub id: u32,
    /// Stable source-level name.
    pub name: &'static str,
    /// Canonical value tag.
    pub value_tag: ValueTag,
    /// Typed sparse-patch storage key.
    pub storage: StyleProperty,
    /// Scalar or enum constraint.
    pub constraint: StyleValueConstraint,
    /// Effects a Stage mutation must publish.
    pub effects: MutationEffects,
}

/// Actor-local applicability of one exact style part.
#[derive(Clone, Copy, Debug, PartialEq, Eq)]
pub struct StylePartDescriptor {
    /// Named or actor-scoped custom part identifier.
    pub part: u32,
    /// Stable actor-visible part name.
    pub name: &'static str,
    /// State bits that may appear in an exact selector for this part.
    pub allowed_states: u32,
    /// Globally registered properties applicable to this part, by rising id.
    pub properties: &'static [StylePropertyDescriptor],
}

/// Declared native event of an actor type.
#[derive(Clone, Copy, Debug, PartialEq, Eq)]
pub struct EventDescriptor {
    /// Stable event identifier, unique across the catalog.
    pub id: u32,
    /// Stable source-level event name.
    pub name: &'static str,
    /// Ordered payload value tags.
    pub payload: &'static [ValueTag],
    /// Maximum encoded event-payload bytes.
    pub max_payload_bytes: u32,
    /// Native object-semantic source event.
    pub native_event: NativeEventKind,
    /// Native propagation phases eligible for subscription.
    pub phases: EventPhaseSet,
    /// Supported predeclared filter forms.
    pub filters: EventFilterSet,
    /// Whether the target widget semantic adapter must have run.
    pub requires_widget_invocation: bool,
    /// Whether the target widget semantic adapter must have consumed the event.
    pub requires_native_consumed: bool,
    /// Whether `ConsumeAtTarget` may be installed before dispatch.
    pub allow_consume_at_target: bool,
    /// Whether `StopAfterPhase` may be installed before dispatch.
    pub allow_stop_after_phase: bool,
    /// Effects applied once for an actual native emission.
    pub native_effects: MutationEffects,
    /// Cue-delivery classification.
    pub delivery: EventDelivery,
    /// Key for latest-value queue-tail replacement.
    pub coalescing_key: Option<u64>,
}

/// Canonical actor descriptor consumed by the Stage Registry.
///
/// The native constructor stays with the application, which pairs each
/// descriptor with it; the descriptor holds every value the registry checks.
#[derive(Clone, Copy, Debug)]
pub struct TypeDescriptor {
    /// Stable actor type identifier.
    pub type_id: TypeId,
    /// Stable source-level fully qualified actor name.
    pub stable_name: &'static str,
    /// Actor-local schema revision.
    pub schema_revision: u16,
    /// Coarse actor family.
    pub family: ActorFamily,
    /// Declared actor capabilities.
    pub capabilities: ActorCapabilities,
    /// Supported target profiles.
    pub targets: TargetSet,
    /// Constructor field schema.
    pub constructor_fields: &'static [ConstructorFieldDescriptor],
    /// Property schema.
    pub properties: &'static [PropertyDescriptor],
    /// Action schema.
    pub actions: &'static [ActionDescriptor],
    /// Event schema.
    pub events: &'static [EventDescriptor],
    /// Exact local-style applicability.
    pub styles: &'static [StylePartDescriptor],
    /// Allowed script-visible child actors.
    pub child_policy: ChildPolicy,
    /// Layout capabilities exposed for later directions.
    pub layout: LayoutCapabilities,
    /// Conservative fixed resource cost.
    pub resource_cost: ResourceCost,
}

/// The global style registry: named parts, state identities, the local-style
/// properties, and the mask of every known object state.
#[derive(Clone, Copy)]
pub struct StyleRegistry<'a> {
    /// Named parts, indexed by part identifier.
    pub parts: &'a [StylePartIdentity],
    /// State identities, the DEFAULT selector first.
    pub states: &'a [StyleStateIdentity],
    /// Local-style properties, indexed by identifier minus one.
    pub properties: &'a [StylePropertyDescriptor],
    /// Mask of every known object state bit.
    pub all_states: u32,
}

// ---------------------------------------------------------------------------
// The style registry
// ---------------------------------------------------------------------------

/// Whether `m` has at most one bit set.
pub open spec fn at_most_one_bit(m: u32) -> bool {
    m & ((m - 1) as u32) == 0
}

/// Part entry `i` carries identifier `i` and a nonempty name used by no
/// earlier part.
pub open spec fn part_identity_ok(parts: Seq<StylePartIdentity>, i: int) -> bool {
    &&& parts[i].id == i
    &&& parts[i].name@.len() > 0
    &&& forall|j: int| 0 <= j < i ==> #[trigger] parts[j].name@ != parts[i].name@
}

/// State entry `i` has a nonempty name; only the first is the zero DEFAULT
/// mask; every other mask is one known state bit; no mask or name repeats.
pub open spec fn state_identity_ok(states: Seq<StyleStateIdentity>, i: int, all_states: u32) -> bool {
    &&& states[i].name@.len() > 0
    &&& (i == 0) == (states[i].mask == 0)
    &&& (states[i].mask == 0 || at_most_one_bit(states[i].mask))
    &&& states[i].mask & !all_states == 0
    &&& forall|j: int| 0 <= j < i ==> #[trigger] states[j].mask != states[i].mask && states[j].name@ != states[i].name@
}

/// Whether the constraint of `p` fits its value tag and is well formed.
pub open spec fn style_constraint_ok(p: StylePropertyDescriptor) -> bool {
    match p.constraint {
        StyleValueConstraint::Unconstrained => p.value_tag == ValueTag::Color,
        StyleValueConstraint::U32 { min, max } => p.value_tag == ValueTag::U32 && min <= max,
        StyleValueConstraint::I32 { min, max } => p.value_tag == ValueTag::I32 && min <= max,
        StyleValueConstraint::Enum { domain_id, values } => {
            &&& p.value_tag == ValueTag::Enum
            &&& domain_id != 0
            &&& values@.len() > 0
            &&& forall|a: int, b: int| 0 <= a < b < values@.len() ==> #[trigger] values@[a] != #[trigger] values@[b]
        },
    }
}

/// Property entry `i` carries identifier `i + 1`, a nonempty name, a name
/// and storage key used by no earlier property, and a well-formed constraint.
pub open spec fn style_property_ok(props: Seq<StylePropertyDescriptor>, i: int) -> bool {
    &&& props[i].id == i + 1
    &&& props[i].name@.len() > 0
    &&& forall|j: int| 0 <= j < i ==> #[trigger] props[j].name@ != props[i].name@ && props[j].storage != props[i].storage
    &&& style_constraint_ok(props[i])
}

/// Whether the style registry is internally consistent.
pub open spec fn style_registry_valid(
    parts: Seq<StylePartIdentity>,
    states: Seq<StyleStateIdentity>,
    props: Seq<StylePropertyDescriptor>,
    all_states: u32,
) -> bool {
    &&& forall|i: int| 0 <= i < parts.len() ==> #[trigger] part_identity_ok(parts, i)
    &&& forall|i: int| 0 <= i < states.len() ==> #[trigger] state_identity_ok(states, i, all_states)
    &&& forall|i: int| 0 <= i < props.len() ==> #[trigger] style_property_ok(props, i)
}

fn part_identity_valid(parts: &[StylePartIdentity], i: usize) -> (r: bool)
    requires
        i < parts@.len(),
    ensures
        r == part_identity_ok(parts@, i as int),
{
    if parts[i].id as usize != i || parts[i].name.is_empty() {
        return false;
    }
    let mut j: usize = 0;
    while j < i
        invariant
            i < parts@.len(),
            j <= i,
            forall|q: int| 0 <= q < j ==> #[trigger] parts@[q].name@ != parts@[i as int].name@,
        decreases i - j,
    {
        if str_equal(parts[j].name, parts[i].name) {
            return false;
        }
        j = j + 1;
    }
    true
}

fn state_identity_valid(states: &[StyleStateIdentity], i: usize, all_states: u32) -> (r: bool)
    requires
        i < states@.len(),
    ensures
        r == state_identity_ok(states@, i as int, all_states),
{
    let mask = states[i].mask;
    if states[i].name.is_empty() || (i == 0) != (mask == 0) {
        return false;
    }
    if mask != 0 && mask & (mask - 1) != 0 {
        return false;
    }
    if mask & !all_states != 0 {
        return false;
    }
    let mut j: usize = 0;
    while j < i
        invariant
            i < states@.len(),
            j <= i,
            forall|q: int| 0 <= q < j ==> #[trigger] states@[q].mask != states@[i as int].mask,
            forall|q: int| 0 <= q < j ==> #[trigger] states@[q].name@ != states@[i as int].name@,
        decreases i - j,
    {
        if states[j].mask == states[i].mask || str_equal(states[j].name, states[i].name) {
            return false;
        }
        assert(states@[j as int].mask != states@[i as int].mask && states@[j as int].name@ != states@[i as int].name@);
        j = j + 1;
    }
    true
}

/// Whether no value repeats in `values`.
fn values_distinct(values: &[u32]) -> (r: bool)
    ensures
        r == forall|a: int, b: int| 0 <= a < b < values@.len() ==> #[trigger] values@[a] != #[trigger] values@[b],
{
    let mut b: usize = 0;
    while b < values.len()
        invariant
            b <= values@.len(),
            forall|x: int, y: int| 0 <= x < y < b ==> #[trigger] values@[x] != #[trigger] values@[y],
        decreases values@.len() - b,
    {
        let mut a: usize = 0;
        while a < b
            invariant
                b < values@.len(),
                a <= b,
                forall|x: int, y: int| 0 <= x < y < b ==> #[trigger] values@[x] != #[trigger] values@[y],
                forall|x: int| 0 <= x < a ==> #[trigger] values@[x] != values@[b as int],
            decreases b - a,
        {
            if values[a] == values[b] {
                assert(values@[a as int] == values@[b as int]);
                return false;
            }
            a = a + 1;
        }
        b = b + 1;
    }
    true
}

fn style_property_valid(props: &[StylePropertyDescriptor], i: usize) -> (r: bool)
    requires
        i < props@.len(),
    ensures
        r == style_property_ok(props@, i as int),
{
    let p = props[i];
    if p.id as usize != i + 1 || p.name.is_empty() {
        return false;
    }
    let mut j: usize = 0;
    while j < i
        invariant
            i < props@.len(),
            p == props@[i as int],
            j <= i,
            forall|q: int| 0 <= q < j ==> #[trigger] props@[q].name@ != p.name@,
            forall|q: int| 0 <= q < j ==> #[trigger] props@[q].storage != p.storage,
        decreases i - j,
    {
        if str_equal(props[j].name, p.name) || props[j].storage == p.storage {
            return false;
        }
        assert(props@[j as int].name@ != p.name@ && props@[j as int].storage != p.storage);
        j = j + 1;
    }
    assert(p == props@[i as int]);
    match p.constraint {
        StyleValueConstraint::Unconstrained => p.value_tag == ValueTag::Color,
        StyleValueConstraint::U32 { min, max } => p.value_tag == ValueTag::U32 && min <= max,
        StyleValueConstraint::I32 { min, max } => p.value_tag == ValueTag::I32 && min <= max,
        StyleValueConstraint::Enum { domain_id, values } => p.value_tag == ValueTag::Enum && domain_id != 0
            && values.len() > 0 && values_distinct(values),
    }
}

/// Whether the style registry is internally consistent: part `i` has
/// identifier `i`; only the first state is the zero DEFAULT mask and every
/// other state is one known bit; property `i` has identifier `i + 1` and a
/// constraint that fits its tag; and no name, mask or storage key repeats.
pub fn style_registry_is_valid(registry: &StyleRegistry) -> (r: bool)
    ensures
        r == style_registry_valid(registry.parts@, registry.states@, registry.properties@, registry.all_states),
{
    let mut i: usize = 0;
    while i < registry.parts.len()
        invariant
            i <= registry.parts@.len(),
            forall|q: int| 0 <= q < i ==> #[trigger] part_identity_ok(registry.parts@, q),
        decreases registry.parts@.len() - i,
    {
        if !part_identity_valid(registry.parts, i) {
            return false;
        }
        i = i + 1;
    }
    let mut i: usize = 0;
    while i < registry.states.len()
        invariant
            i <= registry.states@.len(),
            forall|q: int| 0 <= q < registry.parts@.len() ==> #[trigger] part_identity_ok(registry.parts@, q),
            forall|q: int| 0 <= q < i ==> #[trigger] state_identity_ok(registry.states@, q, registry.all_states),
        decreases registry.states@.len() - i,
    {
        if !state_identity_valid(registry.states, i, registry.all_states) {
            return false;
        }
        i = i + 1;
    }
    let mut i: usize = 0;
    while i < registry.properties.len()
        invariant
            i <= registry.properties@.len(),
            forall|q: int| 0 <= q < registry.parts@.len() ==> #[trigger] part_identity_ok(registry.parts@, q),
            forall|q: int| 0 <= q < registry.states@.len() ==> #[trigger] state_identity_ok(registry.states@, q, registry.all_states),
            forall|q: int| 0 <= q < i ==> #[trigger] style_property_ok(registry.properties@, q),
        decreases registry.properties@.len() - i,
    {
        if !style_property_valid(registry.properties, i) {
            return false;
        }
        i = i + 1;
    }
    true
}

// ---------------------------------------------------------------------------
// The descriptor catalog
// ---------------------------------------------------------------------------

/// Wire tag of a declared property default, or `None` when it is absent.
pub open spec fn default_tag(d: PropertyDefault) -> Option<ValueTag> {
    match d {
        PropertyDefault::Absent => None,
        PropertyDefault::Bool(_) => Some(ValueTag::Bool),
        PropertyDefault::I32(_) => Some(ValueTag::I32),
        PropertyDefault::U32(_) => Some(ValueTag::U32),
        PropertyDefault::Text(_) => Some(ValueTag::Text),
    }
}

/// Constructor field `i` has a nonzero identifier and a nonempty name, both
/// unused by earlier fields.
pub open spec fn field_ok(fs: Seq<ConstructorFieldDescriptor>, i: int) -> bool {
    &&& fs[i].id != 0
    &&& fs[i].name@.len() > 0
    &&& forall|j: int| 0 <= j < i ==> #[trigger] fs[j].id != fs[i].id
    &&& forall|j: int| 0 <= j < i ==> #[trigger] fs[j].name@ != fs[i].name@
}

/// Property `i` of `d` has a fresh nonzero identifier and name, needs only
/// capabilities `d` declares, and has a default and constraint that fit its
/// value tag.
pub open spec fn property_ok(d: TypeDescriptor, i: int) -> bool {
    let ps = d.properties@;
    let p = ps[i];
    &&& p.id != 0
    &&& p.name@.len() > 0
    &&& forall|j: int| 0 <= j < i ==> #[trigger] ps[j].id != p.id
    &&& forall|j: int| 0 <= j < i ==> #[trigger] ps[j].name@ != p.name@
    &&& d.capabilities@ & p.required_capabilities@ == p.required_capabilities@
    &&& (default_tag(p.default) matches Some(t) ==> t == p.value_tag)
    &&& default_meets_constraint(p.default, p.constraint)
    &&& match p.constraint {
        PropertyConstraint::Unconstrained => true,
        PropertyConstraint::I32 { min, max } => p.value_tag == ValueTag::I32 && min <= max,
        PropertyConstraint::TextBytes { .. } => p.value_tag == ValueTag::Text,
    }
}

/// Action `i` of `d` has a fresh nonzero identifier and name and needs only
/// capabilities `d` declares.
pub open spec fn action_ok(d: TypeDescriptor, i: int) -> bool {
    let acts = d.actions@;
    &&& acts[i].id != 0
    &&& acts[i].name@.len() > 0
    &&& forall|j: int| 0 <= j < i ==> #[trigger] acts[j].id != acts[i].id
    &&& forall|j: int| 0 <= j < i ==> #[trigger] acts[j].name@ != acts[i].name@
    &&& d.capabilities@ & acts[i].required_capabilities@ == acts[i].required_capabilities@
}

/// Whether the coalescing key of `e` matches its delivery class.
pub open spec fn coalescing_ok(e: EventDescriptor) -> bool {
    match e.delivery {
        EventDelivery::Critical | EventDelivery::Ordered => e.coalescing_key is None,
        EventDelivery::LatestValueCoalescible => e.coalescing_key is Some,
    }
}

/// Event `i` of `d` is well formed on its own: nonzero identifier, nonempty
/// name, some phase, some filter including the unconditional one, consistent
/// native-consumption and target-consumption flags, a coalescing key that
/// matches its delivery, and a payload bound that admits its payload.
pub open spec fn event_shape_ok(e: EventDescriptor) -> bool {
    &&& e.id != 0
    &&& e.name@.len() > 0
    &&& e.phases@ != 0
    &&& e.filters@ != 0
    &&& e.filters@ & 1u8 == 1u8
    &&& !(e.requires_native_consumed && !e.requires_widget_invocation)
    &&& !(e.allow_consume_at_target && e.phases@ & phase_bit(DispatchPhase::Target) == 0)
    &&& coalescing_ok(e)
    &&& tags_min_bytes(e.payload@) <= e.max_payload_bytes
}

/// Event `k` of descriptor `index` is well formed, and its identifier and
/// name are fresh within the descriptor and its identifier across earlier
/// descriptors.
pub open spec fn event_ok(catalog: Seq<TypeDescriptor>, index: int, k: int) -> bool {
    let evs = catalog[index].events@;
    &&& event_shape_ok(evs[k])
    &&& forall|j: int| 0 <= j < k ==> #[trigger] evs[j].id != evs[k].id
    &&& forall|j: int| 0 <= j < k ==> #[trigger] evs[j].name@ != evs[k].name@
    &&& forall|p: int, q: int| 0 <= p < index && 0 <= q < catalog[p].events@.len() ==> #[trigger] catalog[p].events@[q].id != evs[k].id
}

/// Index of the first registered part with identifier `id`, from `from`.
pub open spec fn registered_part(parts: Seq<StylePartIdentity>, id: u32, from: int) -> Option<int>
    decreases parts.len() - from,
{
    if from < 0 || from >= parts.len() {
        None
    } else if parts[from].id == id {
        Some(from)
    } else {
        registered_part(parts, id, from + 1)
    }
}

/// Index of the first registered property with identifier `id`, from `from`.
pub open spec fn registered_property(props: Seq<StylePropertyDescriptor>, id: u32, from: int) -> Option<int>
    decreases props.len() - from,
{
    if from < 0 || from >= props.len() {
        None
    } else if props[from].id == id {
        Some(from)
    } else {
        registered_property(props, id, from + 1)
    }
}

/// Whether two style-property descriptors hold the same values.
pub open spec fn same_style_property(a: StylePropertyDescriptor, b: StylePropertyDescriptor) -> bool {
    &&& a.id == b.id
    &&& a.name@ == b.name@
    &&& a.value_tag == b.value_tag
    &&& a.storage == b.storage
    &&& a.effects == b.effects
    &&& match (a.constraint, b.constraint) {
        (StyleValueConstraint::Unconstrained, StyleValueConstraint::Unconstrained) => true,
        (StyleValueConstraint::U32 { min: a1, max: a2 }, StyleValueConstraint::U32 { min: b1, max: b2 }) => a1 == b1 && a2 == b2,
        (StyleValueConstraint::I32 { min: a1, max: a2 }, StyleValueConstraint::I32 { min: b1, max: b2 }) => a1 == b1 && a2 == b2,
        (StyleValueConstraint::Enum { domain_id: a1, values: a2 }, StyleValueConstraint::Enum { domain_id: b1, values: b2 }) => a1 == b1 && a2@ == b2@,
        _ => false,
    }
}

/// Property `q` of an actor style part rises strictly in identifier and
/// repeats the registered property with its identifier exactly.
pub open spec fn part_property_ok(props: Seq<StylePropertyDescriptor>, q: int, registered: Seq<StylePropertyDescriptor>) -> bool {
    &&& (q > 0 ==> props[q - 1].id < props[q].id)
    &&& registered_property(registered, props[q].id, 0) matches Some(r) && same_style_property(registered[r], props[q])
}

/// Style part `k` of `d` is not the reserved part 7, has a nonempty name
/// that agrees with the registered name of its part (and, for a custom part
/// from 8 on, is no registered name), allows only known states, lists some
/// properties, and rises strictly in part after earlier parts with a fresh
/// name; each of its properties repeats a registered property.
pub open spec fn style_part_ok(d: TypeDescriptor, k: int, reg_parts: Seq<StylePartIdentity>, reg_props: Seq<StylePropertyDescriptor>, all_states: u32) -> bool {
    let parts = d.styles@;
    let part = parts[k];
    &&& part.part != 7
    &&& part.name@.len() > 0
    &&& (registered_part(reg_parts, part.part, 0) matches Some(r) ==> reg_parts[r].name@ == part.name@)
    &&& !(part.part >= 8 && exists|r: int| 0 <= r < reg_parts.len() && #[trigger] reg_parts[r].name@ == part.name@)
    &&& part.allowed_states & !all_states == 0
    &&& part.properties@.len() > 0
    &&& forall|j: int| 0 <= j < k ==> #[trigger] parts[j].part < part.part
    &&& forall|j: int| 0 <= j < k ==> #[trigger] parts[j].name@ != part.name@
    &&& forall|q: int| 0 <= q < part.properties@.len() ==> #[trigger] part_property_ok(part.properties@, q, reg_props)
}

/// Descriptor `index` of the catalog is valid: a nonempty stable name, a
/// nonzero schema revision, a type identifier and name unused by earlier
/// descriptors, and valid fields, properties, actions, events and styles.
pub open spec fn descriptor_ok(catalog: Seq<TypeDescriptor>, index: int, reg_parts: Seq<StylePartIdentity>, reg_props: Seq<StylePropertyDescriptor>, all_states: u32) -> bool {
    let d = catalog[index];
    &&& d.stable_name@.len() > 0
    &&& d.schema_revision != 0
    &&& forall|j: int| 0 <= j < index ==> #[trigger] catalog[j].type_id != d.type_id
    &&& forall|j: int| 0 <= j < index ==> #[trigger] catalog[j].stable_name@ != d.stable_name@
    &&& forall|i: int| 0 <= i < d.constructor_fields@.len() ==> #[trigger] field_ok(d.constructor_fields@, i)
    &&& forall|i: int| 0 <= i < d.properties@.len() ==> #[trigger] property_ok(d, i)
    &&& forall|i: int| 0 <= i < d.actions@.len() ==> #[trigger] action_ok(d, i)
    &&& forall|i: int| 0 <= i < d.events@.len() ==> #[trigger] event_ok(catalog, index, i)
    &&& forall|i: int| 0 <= i < d.styles@.len() ==> #[trigger] style_part_ok(d, i, reg_parts, reg_props, all_states)
}

/// Whether a catalog may back a Stage Registry: it is nonempty, the style
/// registry is consistent, and every descriptor is valid.
pub open spec fn catalog_valid(catalog: Seq<TypeDescriptor>, registry: StyleRegistry) -> bool {
    &&& catalog.len() > 0
    &&& style_registry_valid(registry.parts@, registry.states@, registry.properties@, registry.all_states)
    &&& forall|i: int| 0 <= i < catalog.len() ==> #[trigger] descriptor_ok(
        catalog,
        i,
        registry.parts@,
        registry.properties@,
        registry.all_states,
    )
}

/// A catalog with a property whose integer default lies outside its
/// declared integer range is never valid, so catalog validation refuses it.
pub proof fn lemma_out_of_range_default_invalidates_catalog(
    catalog: Seq<TypeDescriptor>,
    registry: StyleRegistry,
    t: int,
    k: int,
    v: i32,
    min: i32,
    max: i32,
)
    requires
        0 <= t < catalog.len(),
        0 <= k < catalog[t].properties@.len(),
        catalog[t].properties@[k].default == PropertyDefault::I32(v),
        catalog[t].properties@[k].constraint == (PropertyConstraint::I32 { min, max }),
        v < min || v > max,
    ensures
        !catalog_valid(catalog, registry),
{
    if catalog_valid(catalog, registry) {
        assert(descriptor_ok(catalog, t, registry.parts@, registry.properties@, registry.all_states));
        assert(property_ok(catalog[t], k));
    }
}

fn field_valid(fs: &[ConstructorFieldDescriptor], i: usize) -> (r: bool)
    requires
        i < fs@.len(),
    ensures
        r == field_ok(fs@, i as int),
{
    if fs[i].id == 0 || fs[i].name.is_empty() {
        return false;
    }
    let mut j: usize = 0;
    while j < i
        invariant
            i < fs@.len(),
            j <= i,
            forall|q: int| 0 <= q < j ==> #[trigger] fs@[q].id != fs@[i as int].id,
            forall|q: int| 0 <= q < j ==> #[trigger] fs@[q].name@ != fs@[i as int].name@,
        decreases i - j,
    {
        if fs[j].id == fs[i].id || str_equal(fs[j].name, fs[i].name) {
            return false;
        }
        assert(fs@[j as int].id != fs@[i as int].id && fs@[j as int].name@ != fs@[i as int].name@);
        j = j + 1;
    }
    true
}

fn property_valid(d: &TypeDescriptor, i: usize) -> (r: bool)
    requires
        i < d.properties@.len(),
    ensures
        r == property_ok(*d, i as int),
{
    let ps = d.properties;
    let p = ps[i];
    if p.id == 0 || p.name.is_empty() {
        return false;
    }
    let mut j: usize = 0;
    while j < i
        invariant
            ps == d.properties,
            i < ps@.len(),
            p == ps@[i as int],
            j <= i,
            forall|q: int| 0 <= q < j ==> #[trigger] ps@[q].id != p.id,
            forall|q: int| 0 <= q < j ==> #[trigger] ps@[q].name@ != p.name@,
        decreases i - j,
    {
        if ps[j].id == p.id || str_equal(ps[j].name, p.name) {
            return false;
        }
        assert(ps@[j as int].id != p.id && ps@[j as int].name@ != p.name@);
        j = j + 1;
    }
    if !d.capabilities.contains(p.required_capabilities) {
        return false;
    }
    match p.default.tag() {
        Some(t) => {
            if t != p.value_tag {
                return false;
            }
        },
        None => {},
    }
    if !crate::actor::property_default_satisfies_constraint(p.default, p.constraint) {
        return false;
    }
    match p.constraint {
        PropertyConstraint::Unconstrained => true,
        PropertyConstraint::I32 { min, max } => p.value_tag == ValueTag::I32 && min <= max,
        PropertyConstraint::TextBytes { .. } => p.value_tag == ValueTag::Text,
    }
}

fn action_valid(d: &TypeDescriptor, i: usize) -> (r: bool)
    requires
        i < d.actions@.len(),
    ensures
        r == action_ok(*d, i as int),
{
    let acts = d.actions;
    if acts[i].id == 0 || acts[i].name.is_empty() {
        return false;
    }
    let mut j: usize = 0;
    while j < i
        invariant
            acts == d.actions,
            i < acts@.len(),
            j <= i,
            forall|q: int| 0 <= q < j ==> #[trigger] acts@[q].id != acts@[i as int].id,
            forall|q: int| 0 <= q < j ==> #[trigger] acts@[q].name@ != acts@[i as int].name@,
        decreases i - j,
    {
        if acts[j].id == acts[i].id || str_equal(acts[j].name, acts[i].name) {
            return false;
        }
        assert(acts@[j as int].id != acts@[i as int].id && acts@[j as int].name@ != acts@[i as int].name@);
        j = j + 1;
    }
    d.capabilities.contains(acts[i].required_capabilities)
}

fn event_shape_valid(e: &EventDescriptor) -> (r: bool)
    ensures
        r == event_shape_ok(*e),
{
    let coalescing = match e.delivery {
        EventDelivery::Critical | EventDelivery::Ordered => e.coalescing_key.is_none(),
        EventDelivery::LatestValueCoalescible => e.coalescing_key.is_some(),
    };
    proof {
        crate::actor::lemma_tags_min_bytes_grow(e.payload@, 0, e.payload@.len() as int);
        assert(e.payload@.take(0) =~= Seq::<ValueTag>::empty());
        assert(e.payload@.take(e.payload@.len() as int) =~= e.payload@);
    }
    let payload_fits = match minimum_event_payload_bytes(e.payload) {
        Some(minimum) => minimum <= e.max_payload_bytes,
        None => false,
    };
    let any = EventFilterSet::ANY();
    let has_any = e.filters.contains(any);
    let at_target = e.phases.allows(DispatchPhase::Target);
    let basics = e.id != 0 && !e.name.is_empty() && !e.phases.is_empty() && !e.filters.is_empty();
    assert(basics == (e.id != 0 && e.name@.len() > 0 && e.phases@ != 0 && e.filters@ != 0));
    assert(has_any == (e.filters@ & 1u8 == 1u8));
    assert(coalescing == coalescing_ok(*e));
    assert(payload_fits == (tags_min_bytes(e.payload@) <= e.max_payload_bytes));
    basics && has_any && !(e.requires_native_consumed && !e.requires_widget_invocation)
        && !(e.allow_consume_at_target && !at_target) && coalescing && payload_fits
}

#[verifier::loop_isolation(false)]
fn event_valid(catalog: &[TypeDescriptor], index: usize, k: usize) -> (r: bool)
    requires
        index < catalog@.len(),
        k < catalog@[index as int].events@.len(),
    ensures
        r == event_ok(catalog@, index as int, k as int),
{
    let evs = catalog[index].events;
    if !event_shape_valid(&evs[k]) {
        return false;
    }
    let mut j: usize = 0;
    while j < k
        invariant
            evs == catalog@[index as int].events,
            k < evs@.len(),
            j <= k,
            forall|q: int| 0 <= q < j ==> #[trigger] evs@[q].id != evs@[k as int].id,
            forall|q: int| 0 <= q < j ==> #[trigger] evs@[q].name@ != evs@[k as int].name@,
        decreases k - j,
    {
        if evs[j].id == evs[k].id || str_equal(evs[j].name, evs[k].name) {
            return false;
        }
        assert(evs@[j as int].id != evs@[k as int].id && evs@[j as int].name@ != evs@[k as int].name@);
        j = j + 1;
    }
    let id = evs[k].id;
    let mut p: usize = 0;
    while p < index
        invariant
            index < catalog@.len(),
            k < catalog@[index as int].events@.len(),
            id == catalog@[index as int].events@[k as int].id,
            p <= index,
            forall|a: int, b: int| 0 <= a < p && 0 <= b < catalog@[a].events@.len() ==> #[trigger] catalog@[a].events@[b].id != id,
        decreases index - p,
    {
        let prior = catalog[p].events;
        let mut q: usize = 0;
        while q < prior.len()
            invariant
                prior == catalog@[p as int].events,
                p < index,
                index < catalog@.len(),
                k < catalog@[index as int].events@.len(),
                id == catalog@[index as int].events@[k as int].id,
                forall|a: int, b: int| 0 <= a < p && 0 <= b < catalog@[a].events@.len() ==> #[trigger] catalog@[a].events@[b].id != id,
                q <= prior@.len(),
                forall|b: int| 0 <= b < q ==> #[trigger] prior@[b].id != id,
            decreases prior@.len() - q,
        {
            if prior[q].id == id {
                assert(catalog@[p as int].events@[q as int].id == id);
                return false;
            }
            q = q + 1;
        }
        p = p + 1;
    }
    true
}

/// Whether two style-property descriptors hold the same values.
fn same_style_property_values(a: &StylePropertyDescriptor, b: &StylePropertyDescriptor) -> (r: bool)
    ensures
        r == same_style_property(*a, *b),
{
    if a.id != b.id || !str_equal(a.name, b.name) || a.value_tag != b.value_tag || a.storage != b.storage
        || a.effects != b.effects {
        return false;
    }
    match (a.constraint, b.constraint) {
        (StyleValueConstraint::Unconstrained, StyleValueConstraint::Unconstrained) => true,
        (StyleValueConstraint::U32 { min: a1, max: a2 }, StyleValueConstraint::U32 { min: b1, max: b2 }) => a1 == b1 && a2 == b2,
        (StyleValueConstraint::I32 { min: a1, max: a2 }, StyleValueConstraint::I32 { min: b1, max: b2 }) => a1 == b1 && a2 == b2,
        (StyleValueConstraint::Enum { domain_id: a1, values: a2 }, StyleValueConstraint::Enum { domain_id: b1, values: b2 }) => {
            if a1 != b1 || a2.len() != b2.len() {
                return false;
            }
            let mut i: usize = 0;
            while i < a2.len()
                invariant
                    a.constraint == (StyleValueConstraint::Enum { domain_id: a1, values: a2 }),
                    b.constraint == (StyleValueConstraint::Enum { domain_id: b1, values: b2 }),
                    a1 == b1,
                    a2@.len() == b2@.len(),
                    i <= a2@.len(),
                    forall|q: int| 0 <= q < i ==> a2@[q] == b2@[q],
                decreases a2@.len() - i,
            {
                if a2[i] != b2[i] {
                    assert(a2@[i as int] != b2@[i as int]);
                    assert(a2@ != b2@);
                    return false;
                }
                i = i + 1;
            }
            assert(a2@ =~= b2@);
            true
        },
        _ => false,
    }
}

fn registered_property_index(props: &[StylePropertyDescriptor], id: u32) -> (r: Option<usize>)
    ensures
        r matches Some(k) ==> registered_property(props@, id, 0) == Some(k as int) && k < props@.len(),
        r is None ==> registered_property(props@, id, 0) is None,
{
    let mut k: usize = 0;
    while k < props.len()
        invariant
            k <= props@.len(),
            registered_property(props@, id, 0) == registered_property(props@, id, k as int),
        decreases props@.len() - k,
    {
        if props[k].id == id {
            return Some(k);
        }
        k = k + 1;
    }
    None
}

fn registered_part_index(parts: &[StylePartIdentity], id: u32) -> (r: Option<usize>)
    ensures
        r matches Some(k) ==> registered_part(parts@, id, 0) == Some(k as int) && k < parts@.len(),
        r is None ==> registered_part(parts@, id, 0) is None,
{
    let mut k: usize = 0;
    while k < parts.len()
        invariant
            k <= parts@.len(),
            registered_part(parts@, id, 0) == registered_part(parts@, id, k as int),
        decreases parts@.len() - k,
    {
        if parts[k].id == id {
            return Some(k);
        }
        k = k + 1;
    }
    None
}

#[verifier::loop_isolation(false)]
fn style_part_valid(d: &TypeDescriptor, k: usize, registry: &StyleRegistry) -> (r: bool)
    requires
        k < d.styles@.len(),
    ensures
        r == style_part_ok(*d, k as int, registry.parts@, registry.properties@, registry.all_states),
{
    let parts = d.styles;
    let part = parts[k];
    if part.part == 7 || part.name.is_empty() {
        return false;
    }
    match registered_part_index(registry.parts, part.part) {
        Some(r) => {
            if !str_equal(registry.parts[r].name, part.name) {
                return false;
            }
        },
        None => {},
    }
    if part.part >= 8 {
        let mut r: usize = 0;
        while r < registry.parts.len()
            invariant
                r <= registry.parts@.len(),
                forall|q: int| 0 <= q < r ==> #[trigger] registry.parts@[q].name@ != part.name@,
            decreases registry.parts@.len() - r,
        {
            if str_equal(registry.parts[r].name, part.name) {
                assert(registry.parts@[r as int].name@ == part.name@);
                return false;
            }
            r = r + 1;
        }
    }
    if part.allowed_states & !registry.all_states != 0 || part.properties.len() == 0 {
        return false;
    }
    let mut j: usize = 0;
    while j < k
        invariant
            parts == d.styles,
            k < parts@.len(),
            part == parts@[k as int],
            j <= k,
            forall|q: int| 0 <= q < j ==> #[trigger] parts@[q].part < part.part,
            forall|q: int| 0 <= q < j ==> #[trigger] parts@[q].name@ != part.name@,
        decreases k - j,
    {
        if parts[j].part >= part.part || str_equal(parts[j].name, part.name) {
            return false;
        }
        assert(parts@[j as int].part < part.part && parts@[j as int].name@ != part.name@);
        j = j + 1;
    }
    let props = part.properties;
    let mut q: usize = 0;
    while q < props.len()
        invariant
            props == part.properties,
            q <= props@.len(),
            forall|x: int| 0 <= x < q ==> #[trigger] part_property_ok(props@, x, registry.properties@),
        decreases props@.len() - q,
    {
        if q > 0 && props[q - 1].id >= props[q].id {
            assert(!part_property_ok(props@, q as int, registry.properties@));
            return false;
        }
        match registered_property_index(registry.properties, props[q].id) {
            None => {
                assert(!part_property_ok(props@, q as int, registry.properties@));
                return false;
            },
            Some(r) => {
                if !same_style_property_values(&registry.properties[r], &props[q]) {
                    assert(!part_property_ok(props@, q as int, registry.properties@));
                    return false;
                }
            },
        }
        assert(part_property_ok(props@, q as int, registry.properties@));
        q = q + 1;
    }
    true
}

#[verifier::loop_isolation(false)]
fn descriptor_valid(catalog: &[TypeDescriptor], index: usize, registry: &StyleRegistry) -> (r: bool)
    requires
        index < catalog@.len(),
    ensures
        r == descriptor_ok(catalog@, index as int, registry.parts@, registry.properties@, registry.all_states),
{
    let d = &catalog[index];
    if d.stable_name.is_empty() || d.schema_revision == 0 {
        return false;
    }
    let mut j: usize = 0;
    while j < index
        invariant
            index < catalog@.len(),
            *d == catalog@[index as int],
            j <= index,
            forall|q: int| 0 <= q < j ==> #[trigger] catalog@[q].type_id != d.type_id,
            forall|q: int| 0 <= q < j ==> #[trigger] catalog@[q].stable_name@ != d.stable_name@,
        decreases index - j,
    {
        if catalog[j].type_id == d.type_id || str_equal(catalog[j].stable_name, d.stable_name) {
            return false;
        }
        assert(catalog@[j as int].type_id != d.type_id && catalog@[j as int].stable_name@ != d.stable_name@);
        j = j + 1;
    }
    let mut i: usize = 0;
    while i < d.constructor_fields.len()
        invariant
            i <= d.constructor_fields@.len(),
            forall|q: int| 0 <= q < i ==> #[trigger] field_ok(d.constructor_fields@, q),
        decreases d.constructor_fields@.len() - i,
    {
        if !field_valid(d.constructor_fields, i) {
            return false;
        }
        i = i + 1;
    }
    let mut i: usize = 0;
    while i < d.properties.len()
        invariant
            i <= d.properties@.len(),
            forall|q: int| 0 <= q < i ==> #[trigger] property_ok(*d, q),
        decreases d.properties@.len() - i,
    {
        if !property_valid(d, i) {
            return false;
        }
        i = i + 1;
    }
    let mut i: usize = 0;
    while i < d.actions.len()
        invariant
            i <= d.actions@.len(),
            forall|q: int| 0 <= q < i ==> #[trigger] action_ok(*d, q),
        decreases d.actions@.len() - i,
    {
        if !action_valid(d, i) {
            return false;
        }
        i = i + 1;
    }
    let mut i: usize = 0;
    while i < d.events.len()
        invariant
            index < catalog@.len(),
            *d == catalog@[index as int],
            i <= d.events@.len(),
            forall|q: int| 0 <= q < i ==> #[trigger] event_ok(catalog@, index as int, q),
        decreases d.events@.len() - i,
    {
        if !event_valid(catalog, index, i) {
            return false;
        }
        i = i + 1;
    }
    let mut i: usize = 0;
    while i < d.styles.len()
        invariant
            i <= d.styles@.len(),
            forall|q: int| 0 <= q < i ==> #[trigger] style_part_ok(*d, q, registry.parts@, registry.properties@, registry.all_states),
        decreases d.styles@.len() - i,
    {
        if !style_part_valid(d, i, registry) {
            return false;
        }
        i = i + 1;
    }
    true
}

/// Check a descriptor catalog before a Stage Registry accepts it. Every
/// rejection is `InvalidCatalog`: an empty catalog, an inconsistent style
/// registry, or any malformed or repeated declaration (see [`catalog_valid`]).
pub fn validate_catalog(catalog: &[TypeDescriptor], registry: &StyleRegistry) -> (r: Result<(), RegistryError>)
    ensures
        r is Ok <==> catalog_valid(catalog@, *registry),
        r is Err ==> r == Err::<(), RegistryError>(RegistryError::InvalidCatalog),
{
    if catalog.len() == 0 || !style_registry_is_valid(registry) {
        return Err(RegistryError::InvalidCatalog);
    }
    let mut index: usize = 0;
    while index < catalog.len()
        invariant
            index <= catalog@.len(),
            forall|q: int| 0 <= q < index ==> #[trigger] descriptor_ok(catalog@, q, registry.parts@, registry.properties@, registry.all_states),
        decreases catalog@.len() - index,
    {
        if !descriptor_valid(catalog, index, registry) {
            return Err(RegistryError::InvalidCatalog);
        }
        index = index + 1;
    }
    Ok(())
}

/// Stable text-alignment enum domain used by the `text_align` style property.
pub const STYLE_TEXT_ALIGN_DOMAIN_ID: u32 = 1;

/// The global named-part registry: part `i` is named in the order main,
/// scrollbar, indicator, knob, selected, items, cursor.
pub fn style_part_table() -> (r: Vec<StylePartIdentity>)
    ensures
        r@.len() == 7,
        forall|i: int| 0 <= i < 7 ==> #[trigger] r@[i].id == i,
{
    let mut table: Vec<StylePartIdentity> = Vec::new();
    table.push(StylePartIdentity { id: 0, name: "main" });
    table.push(StylePartIdentity { id: 1, name: "scrollbar" });
    table.push(StylePartIdentity { id: 2, name: "indicator" });
    table.push(StylePartIdentity { id: 3, name: "knob" });
    table.push(StylePartIdentity { id: 4, name: "selected" });
    table.push(StylePartIdentity { id: 5, name: "items" });
    table.push(StylePartIdentity { id: 6, name: "cursor" });
    table
}

/// The twenty global local-style properties, by identifier: colours are
/// unconstrained, widths, alpha and radius are bytes, the font id fits 16
/// bits, spacings fit a signed byte, text alignment is one of four values,
/// and paddings, margins and gaps take any `i32`.
pub fn style_property_table() -> (r: Vec<StylePropertyDescriptor>)
    ensures
        r@.len() == 20,
        forall|i: int| 0 <= i < 20 ==> #[trigger] r@[i].id == i + 1 && style_constraint_ok(r@[i]),
{
    let draw = MutationEffects::DRAW().union(MutationEffects::SNAPSHOT());
    let layout = MutationEffects::DRAW().union(MutationEffects::LAYOUT()).union(MutationEffects::SNAPSHOT());
    let text_align: &'static [u32] = &[0, 1, 2, 3];
    assert(text_align@ == seq![0u32, 1, 2, 3]);
    let mut table: Vec<StylePropertyDescriptor> = Vec::new();
    table.push(StylePropertyDescriptor { id: 1, name: "bg_color", value_tag: ValueTag::Color, storage: StyleProperty::BgColor, constraint: StyleValueConstraint::Unconstrained, effects: draw });
    table.push(StylePropertyDescriptor { id: 2, name: "border_color", value_tag: ValueTag::Color, storage: StyleProperty::BorderColor, constraint: StyleValueConstraint::Unconstrained, effects: draw });
    table.push(StylePropertyDescriptor { id: 3, name: "border_width", value_tag: ValueTag::U32, storage: StyleProperty::BorderWidth, constraint: StyleValueConstraint::U32 { min: 0, max: 255 }, effects: draw });
    table.push(StylePropertyDescriptor { id: 4, name: "alpha", value_tag: ValueTag::U32, storage: StyleProperty::Alpha, constraint: StyleValueConstraint::U32 { min: 0, max: 255 }, effects: draw });
    table.push(StylePropertyDescriptor { id: 5, name: "radius", value_tag: ValueTag::U32, storage: StyleProperty::Radius, constraint: StyleValueConstraint::U32 { min: 0, max: 255 }, effects: draw });
    table.push(StylePropertyDescriptor { id: 6, name: "text_color", value_tag: ValueTag::Color, storage: StyleProperty::TextColor, constraint: StyleValueConstraint::Unconstrained, effects: draw });
    table.push(StylePropertyDescriptor { id: 7, name: "font_id", value_tag: ValueTag::U32, storage: StyleProperty::FontId, constraint: StyleValueConstraint::U32 { min: 0, max: 65_535 }, effects: layout });
    table.push(StylePropertyDescriptor { id: 8, name: "letter_spacing", value_tag: ValueTag::I32, storage: StyleProperty::LetterSpacing, constraint: StyleValueConstraint::I32 { min: -128, max: 127 }, effects: layout });
    table.push(StylePropertyDescriptor { id: 9, name: "line_spacing", value_tag: ValueTag::I32, storage: StyleProperty::LineSpacing, constraint: StyleValueConstraint::I32 { min: -128, max: 127 }, effects: layout });
    table.push(StylePropertyDescriptor { id: 10, name: "text_align", value_tag: ValueTag::Enum, storage: StyleProperty::TextAlign, constraint: StyleValueConstraint::Enum { domain_id: STYLE_TEXT_ALIGN_DOMAIN_ID, values: text_align }, effects: draw });
    table.push(StylePropertyDescriptor { id: 11, name: "padding_top", value_tag: ValueTag::I32, storage: StyleProperty::PaddingTop, constraint: StyleValueConstraint::I32 { min: i32::MIN, max: i32::MAX }, effects: layout });
    table.push(StylePropertyDescriptor { id: 12, name: "padding_bottom", value_tag: ValueTag::I32, storage: StyleProperty::PaddingBottom, constraint: StyleValueConstraint::I32 { min: i32::MIN, max: i32::MAX }, effects: layout });
    table.push(StylePropertyDescriptor { id: 13, name: "padding_left", value_tag: ValueTag::I32, storage: StyleProperty::PaddingLeft, constraint: StyleValueConstraint::I32 { min: i32::MIN, max: i32::MAX }, effects: layout });
    table.push(StylePropertyDescriptor { id: 14, name: "padding_right", value_tag: ValueTag::I32, storage: StyleProperty::PaddingRight, constraint: StyleValueConstraint::I32 { min: i32::MIN, max: i32::MAX }, effects: layout });
    table.push(StylePropertyDescriptor { id: 15, name: "margin_top", value_tag: ValueTag::I32, storage: StyleProperty::MarginTop, constraint: StyleValueConstraint::I32 { min: i32::MIN, max: i32::MAX }, effects: layout });
    table.push(StylePropertyDescriptor { id: 16, name: "margin_bottom", value_tag: ValueTag::I32, storage: StyleProperty::MarginBottom, constraint: StyleValueConstraint::I32 { min: i32::MIN, max: i32::MAX }, effects: layout });
    table.push(StylePropertyDescriptor { id: 17, name: "margin_left", value_tag: ValueTag::I32, storage: StyleProperty::MarginLeft, constraint: StyleValueConstraint::I32 { min: i32::MIN, max: i32::MAX }, effects: layout });
    table.push(StylePropertyDescriptor { id: 18, name: "margin_right", value_tag: ValueTag::I32, storage: StyleProperty::MarginRight, constraint: StyleValueConstraint::I32 { min: i32::MIN, max: i32::MAX }, effects: layout });
    table.push(StylePropertyDescriptor { id: 19, name: "gap_row", value_tag: ValueTag::I32, storage: StyleProperty::GapRow, constraint: StyleValueConstraint::I32 { min: i32::MIN, max: i32::MAX }, effects: layout });
    table.push(StylePropertyDescriptor { id: 20, name: "gap_col", value_tag: ValueTag::I32, storage: StyleProperty::GapCol, constraint: StyleValueConstraint::I32 { min: i32::MIN, max: i32::MAX }, effects: layout });
    table
}

// ---------------------------------------------------------------------------
// Local-style directions
// ---------------------------------------------------------------------------

/// An exact style selector: one part and one set of state bits.
#[derive(Clone, Copy, Debug, PartialEq, Eq, Structural)]
pub struct Selector {
    /// Part identifier.
    pub part: u32,
    /// State bits.
    pub states: u32,
}

/// Text alignment carried by the `text_align` style property.
#[derive(Clone, Copy, Debug, PartialEq, Eq, Structural)]
pub enum TextAlign {
    Left,
    Center,
    Right,
    Auto,
}

/// Typed value of one local-style property.
#[derive(Clone, Copy, Debug, PartialEq, Eq, Structural)]
pub enum StyleValue {
    Color(crate::widget::Color),
    U32(u32),
    I32(i32),
    TextAlign(TextAlign),
}

/// Change to one local-style property.
#[derive(Clone, Copy, Debug, PartialEq, Eq, Structural)]
pub enum StyleUpdate {
    /// Set the property to a value.
    Assign(StyleValue),
    /// Remove the local value.
    Remove,
}

/// Index of the first style part of `parts` with identifier `part`, from `from`.
pub open spec fn first_style_part(parts: Seq<StylePartDescriptor>, part: u32, from: int) -> Option<int>
    decreases parts.len() - from,
{
    if from < 0 || from >= parts.len() {
        None
    } else if parts[from].part == part {
        Some(from)
    } else {
        first_style_part(parts, part, from + 1)
    }
}

/// The style property of `d` addressed by a raw part, state mask and property
/// identifier, where `all_states` masks every known state bit.
pub open spec fn applicable_property(d: TypeDescriptor, all_states: u32, part_id: u32, state_mask: u32, property_id: u32) -> Result<StylePropertyDescriptor, StyleApplicabilityError> {
    if state_mask & !all_states != 0 {
        Err(StyleApplicabilityError::InvalidStateMask)
    } else if part_id == 7 {
        Err(StyleApplicabilityError::UnknownPart)
    } else {
        match first_style_part(d.styles@, part_id, 0) {
            None => Err(StyleApplicabilityError::UnknownPart),
            Some(k) => if state_mask & !d.styles@[k].allowed_states != 0 {
                Err(StyleApplicabilityError::InvalidStateMask)
            } else {
                match registered_property(d.styles@[k].properties@, property_id, 0) {
                    None => Err(StyleApplicabilityError::UnknownProperty),
                    Some(q) => Ok(d.styles@[k].properties@[q]),
                }
            },
        }
    }
}

/// The colour packed as ARGB in `v`.
pub open spec fn color_of_argb(v: u32) -> crate::widget::Color {
    crate::widget::Color(((v >> 16u32) & 0xffu32) as u8, ((v >> 8u32) & 0xffu32) as u8, (v & 0xffu32) as u8, ((v >> 24u32) & 0xffu32) as u8)
}

/// The typed style value of `value` for property `p`, before range checks.
pub open spec fn typed_style_value(p: StylePropertyDescriptor, value: OwnedValue) -> Result<StyleValue, RegistryError> {
    match value {
        OwnedValue::Color(v) => Ok(StyleValue::Color(color_of_argb(v))),
        OwnedValue::U32(v) => Ok(StyleValue::U32(v)),
        OwnedValue::I32(v) => Ok(StyleValue::I32(v)),
        OwnedValue::Enum { domain, value: v } => match p.constraint {
            StyleValueConstraint::Enum { domain_id, values } => if domain != domain_id || !values@.contains(v) {
                Err(RegistryError::Range { field_id: p.id })
            } else if v == 0 {
                Ok(StyleValue::TextAlign(TextAlign::Left))
            } else if v == 1 {
                Ok(StyleValue::TextAlign(TextAlign::Center))
            } else if v == 2 {
                Ok(StyleValue::TextAlign(TextAlign::Right))
            } else if v == 3 {
                Ok(StyleValue::TextAlign(TextAlign::Auto))
            } else {
                Err(RegistryError::Range { field_id: p.id })
            },
            _ => Err(RegistryError::Internal),
        },
        _ => Err(RegistryError::Internal),
    }
}

/// Whether typed value `v` meets constraint `c`.
pub open spec fn style_value_in_range(c: StyleValueConstraint, v: StyleValue) -> bool {
    match (c, v) {
        (StyleValueConstraint::Unconstrained, StyleValue::Color(_)) => true,
        (StyleValueConstraint::U32 { min, max }, StyleValue::U32(x)) => min <= x && x <= max,
        (StyleValueConstraint::I32 { min, max }, StyleValue::I32(x)) => min <= x && x <= max,
        (StyleValueConstraint::Enum { .. }, StyleValue::TextAlign(_)) => true,
        _ => false,
    }
}

/// The outcome of a local-style direction on an actor of type `d`: the
/// selector, property and update it stands for, or why it is refused.
/// A property no registered property has is unknown; any other
/// inapplicable selector is unsupported; `Nothing` removes the local value;
/// other values must carry the property's tag and meet its constraint.
pub open spec fn style_direction_outcome(
    d: TypeDescriptor,
    registered: Seq<StylePropertyDescriptor>,
    all_states: u32,
    part_id: u32,
    state_mask: u32,
    property_id: u32,
    value: OwnedValue,
) -> Result<(Selector, StylePropertyDescriptor, StyleUpdate), RegistryError> {
    match applicable_property(d, all_states, part_id, state_mask, property_id) {
        Err(e) => Err(
            if e is UnknownProperty && registered_property(registered, property_id, 0) is None {
                RegistryError::UnknownProperty { property_id }
            } else {
                RegistryError::Unsupported
            },
        ),
        Ok(p) => {
            let selector = Selector { part: part_id, states: state_mask };
            if value is Nothing {
                Ok((selector, p, StyleUpdate::Remove))
            } else if owned_tag(value) != p.value_tag {
                Err(RegistryError::TypeMismatch { field_id: property_id, expected: p.value_tag, actual: owned_tag(value) })
            } else {
                match typed_style_value(p, value) {
                    Err(e) => Err(e),
                    Ok(t) => if !style_value_in_range(p.constraint, t) {
                        Err(RegistryError::Range { field_id: property_id })
                    } else {
                        Ok((selector, p, StyleUpdate::Assign(t)))
                    },
                }
            }
        },
    }
}

impl TypeDescriptor {
    /// Resolve one style property from a raw part, state mask and property
    /// identifier, where `all_states` masks every known state bit.
    #[verifier::loop_isolation(false)]
    pub fn style_property_for_raw_selector(&self, all_states: u32, part_id: u32, state_mask: u32, property_id: u32) -> (r: Result<StylePropertyDescriptor, StyleApplicabilityError>)
        ensures
            r == applicable_property(*self, all_states, part_id, state_mask, property_id),
    {
        if state_mask & !all_states != 0 {
            return Err(StyleApplicabilityError::InvalidStateMask);
        }
        if part_id == 7 {
            return Err(StyleApplicabilityError::UnknownPart);
        }
        let parts = self.styles;
        let mut k: usize = 0;
        while k < parts.len()
            invariant
                parts == self.styles,
                k <= parts@.len(),
                first_style_part(parts@, part_id, 0) == first_style_part(parts@, part_id, k as int),
            decreases parts@.len() - k,
        {
            if parts[k].part == part_id {
                if state_mask & !parts[k].allowed_states != 0 {
                    return Err(StyleApplicabilityError::InvalidStateMask);
                }
                let props = parts[k].properties;
                return match registered_property_index(props, property_id) {
                    None => Err(StyleApplicabilityError::UnknownProperty),
                    Some(q) => Ok(props[q]),
                };
            }
            k = k + 1;
        }
        Err(StyleApplicabilityError::UnknownPart)
    }
}

/// Whether `values` holds `v`.
fn holds_value(values: &[u32], v: u32) -> (r: bool)
    ensures
        r == values@.contains(v),
{
    let mut i: usize = 0;
    while i < values.len()
        invariant
            i <= values@.len(),
            forall|q: int| 0 <= q < i ==> values@[q] != v,
        decreases values@.len() - i,
    {
        if values[i] == v {
            assert(values@[i as int] == v);
            return true;
        }
        i = i + 1;
    }
    false
}

/// Validate one local-style direction on an actor of type `d` against the
/// style registry, giving the exact selector, property and update it stands
/// for (see [`style_direction_outcome`]).
pub fn validate_style_direction(
    d: &TypeDescriptor,
    registry: &StyleRegistry,
    part_id: u32,
    state_mask: u32,
    property_id: u32,
    value: &OwnedValue,
) -> (r: Result<(Selector, StylePropertyDescriptor, StyleUpdate), RegistryError>)
    ensures
        r == style_direction_outcome(*d, registry.properties@, registry.all_states, part_id, state_mask, property_id, *value),
{
    let p = match d.style_property_for_raw_selector(registry.all_states, part_id, state_mask, property_id) {
        Ok(p) => p,
        Err(e) => {
            let unknown = match e {
                StyleApplicabilityError::UnknownProperty => registered_property_index(registry.properties, property_id).is_none(),
                _ => false,
            };
            return Err(if unknown { RegistryError::UnknownProperty { property_id } } else { RegistryError::Unsupported });
        },
    };
    let selector = Selector { part: part_id, states: state_mask };
    if let OwnedValue::Nothing = value {
        return Ok((selector, p, StyleUpdate::Remove));
    }
    let actual = value.tag();
    if actual != p.value_tag {
        return Err(RegistryError::TypeMismatch { field_id: property_id, expected: p.value_tag, actual });
    }
    let typed = match value {
        OwnedValue::Color(v) => {
            let v = *v;
            StyleValue::Color(crate::widget::Color(((v >> 16u32) & 0xffu32) as u8, ((v >> 8u32) & 0xffu32) as u8, (v & 0xffu32) as u8, ((v >> 24u32) & 0xffu32) as u8))
        },
        OwnedValue::U32(v) => StyleValue::U32(*v),
        OwnedValue::I32(v) => StyleValue::I32(*v),
        OwnedValue::Enum { domain, value: v } => match p.constraint {
            StyleValueConstraint::Enum { domain_id, values } => {
                if *domain != domain_id || !holds_value(values, *v) {
                    return Err(RegistryError::Range { field_id: p.id });
                }
                if *v == 0 {
                    StyleValue::TextAlign(TextAlign::Left)
                } else if *v == 1 {
                    StyleValue::TextAlign(TextAlign::Center)
                } else if *v == 2 {
                    StyleValue::TextAlign(TextAlign::Right)
                } else if *v == 3 {
                    StyleValue::TextAlign(TextAlign::Auto)
                } else {
                    return Err(RegistryError::Range { field_id: p.id });
                }
            },
            _ => return Err(RegistryError::Internal),
        },
        _ => return Err(RegistryError::Internal),
    };
    let in_range = match (p.constraint, typed) {
        (StyleValueConstraint::Unconstrained, StyleValue::Color(_)) => true,
        (StyleValueConstraint::U32 { min, max }, StyleValue::U32(x)) => min <= x && x <= max,
        (StyleValueConstraint::I32 { min, max }, StyleValue::I32(x)) => min <= x && x <= max,
        (StyleValueConstraint::Enum { .. }, StyleValue::TextAlign(_)) => true,
        _ => false,
    };
    if !in_range {
        return Err(RegistryError::Range { field_id: property_id });
    }
    Ok((selector, p, StyleUpdate::Assign(typed)))
}

} // verus!
