//! Planning of an atomic Stage batch: Creates bound to batch-local
//! references, directions naming earlier Creates, and slot reservations,
//! all rehearsed before anything live is touched.
use vstd::prelude::*;

use crate::actor::{
    action_index, actor_direction_effects, lemma_first_available, allocation, directions_effects, directions_error, field_index, find_action,
    find_field, find_property, identity, missing_field_error, object_generation, object_id_of, object_slot, property_index,
    slots_consistent, supplied_field_error, validate_atomic_actor_directions, validate_atomic_constructor_fields,
    ActionDescriptor, ConstructorFieldDescriptor, MutationEffects, ObjectId, PlannedSlot, PropertyDescriptor, RegistryError,
    RegistryLimits, SlotPlanError, SlotPlanner, SlotReservation, TypeId,
};
use crate::batch::{
    catalog_index, catalog_position, grouped, live_descriptor, live_descriptor_position, plan_step, with_tree_effects,
    BatchPlan, PlanModel,
};
use crate::catalog::{StyleRegistry, TypeDescriptor};
use crate::direction::{
    direction_views, owned_tag, ActorDirection, BatchCreateDestination, BatchObjectReference, BatchStageDirection,
    CreateDirection, CreateField, DirectionView, OwnedValue, StageDirection, ValueTag,
};
use crate::shadow::{
    applied, binding_from, created, final_tree_checked, push_unique, resolve_atomic_direction,
    resolve_atomic_reference, resolved_direction, resolved_reference, PreparedCreateDestination, ShadowModel, TreeShadow,
};

verus! {


/// The recorded Stage actors (`records`), the rehearsed tree and the
/// bindings of earlier Creates, against which batch references resolve.
pub struct ResolveContext {
    /// The slot table of the Stage when planning began.
    pub records: Seq<PlannedSlot>,
    /// The rehearsed tree.
    pub shadow: ShadowModel,
    /// Earlier Creates: batch reference, reserved identifier, Create index.
    pub bindings: Seq<(u16, ObjectId, usize)>,
}

/// A constructor value naming an actor, resolved to a stable identifier.
pub open spec fn resolved_create_value(v: OwnedValue, c: ResolveContext) -> Result<OwnedValue, RegistryError> {
    match v {
        OwnedValue::Object(raw) => if object_generation(raw) == 0 || object_slot(raw) == 0 {
            Err(RegistryError::BatchInvalid)
        } else {
            match resolved_reference(BatchObjectReference::Stable(object_id_of(raw)), c.records, c.shadow, c.bindings) {
                Err(e) => Err(e),
                Ok(id) => Ok(OwnedValue::Object(id@)),
            }
        },
        OwnedValue::BatchObject(r) => match resolved_reference(BatchObjectReference::EarlierBatch(r), c.records, c.shadow, c.bindings) {
            Err(e) => Err(e),
            Ok(id) => Ok(OwnedValue::Object(id@)),
        },
        _ => Ok(v),
    }
}

/// Constructor fields `fs` with every value of an Object-typed declared
/// field resolved, in order, or the first failure.
pub open spec fn resolved_fields(decl: Seq<ConstructorFieldDescriptor>, fs: Seq<CreateField>, c: ResolveContext) -> Result<Seq<CreateField>, RegistryError>
    decreases fs.len(),
{
    if fs.len() == 0 {
        Ok(Seq::empty())
    } else {
        let head = match field_index(decl, fs[0].id, 0) {
            Some(k) => if decl[k].value_tag == ValueTag::Object {
                resolved_create_value(fs[0].value, c)
            } else {
                Ok(fs[0].value)
            },
            None => Ok(fs[0].value),
        };
        match head {
            Err(e) => Err(e),
            Ok(v) => match resolved_fields(decl, fs.drop_first(), c) {
                Err(e) => Err(e),
                Ok(rest) => Ok(seq![CreateField { id: fs[0].id, value: v }] + rest),
            },
        }
    }
}

/// A reference failure reported against descriptor field `field_id`.
pub open spec fn field_reference_error(field_id: u32, e: RegistryError) -> RegistryError {
    match e {
        RegistryError::BatchInvalid => RegistryError::BatchInvalidField { field_id },
        RegistryError::StaleObject { object_id } => RegistryError::StaleObjectField { field_id, object_id },
        other => other,
    }
}

/// A property or argument value naming an actor, resolved.
pub open spec fn resolved_actor_value(field_id: u32, v: OwnedValue, c: ResolveContext) -> Result<OwnedValue, RegistryError> {
    match v {
        OwnedValue::Object(raw) => if object_generation(raw) == 0 || object_slot(raw) == 0 {
            Err(RegistryError::BatchInvalidField { field_id })
        } else {
            match resolved_reference(BatchObjectReference::Stable(object_id_of(raw)), c.records, c.shadow, c.bindings) {
                Err(e) => Err(field_reference_error(field_id, e)),
                Ok(id) => Ok(OwnedValue::Object(id@)),
            }
        },
        OwnedValue::BatchObject(r) => match resolved_reference(BatchObjectReference::EarlierBatch(r), c.records, c.shadow, c.bindings) {
            Err(e) => Err(field_reference_error(field_id, e)),
            Ok(id) => Ok(OwnedValue::Object(id@)),
        },
        _ => Err(RegistryError::TypeMismatch { field_id, expected: ValueTag::Object, actual: owned_tag(v) }),
    }
}

/// Action arguments `args`, the first declared at position `from` of
/// `tags`, with every Object-typed one resolved.
pub open spec fn resolved_arguments(tags: Seq<ValueTag>, args: Seq<OwnedValue>, id: u32, c: ResolveContext, from: int) -> Result<Seq<OwnedValue>, RegistryError>
    decreases args.len(),
{
    if args.len() == 0 {
        Ok(Seq::empty())
    } else {
        let head = if 0 <= from < tags.len() && tags[from] == ValueTag::Object {
            resolved_actor_value(id, args[0], c)
        } else {
            Ok(args[0])
        };
        match head {
            Err(e) => Err(e),
            Ok(v) => match resolved_arguments(tags, args.drop_first(), id, c, from + 1) {
                Err(e) => Err(e),
                Ok(rest) => Ok(seq![v] + rest),
            },
        }
    }
}

/// One actor direction with its actor-naming values resolved.
pub open spec fn resolved_direction_view(ps: Seq<PropertyDescriptor>, acts: Seq<ActionDescriptor>, d: DirectionView, c: ResolveContext) -> Result<DirectionView, RegistryError> {
    match d {
        DirectionView::SetProperty { id, value } => match property_index(ps, id, 0) {
            None => Err(RegistryError::UnknownProperty { property_id: id }),
            Some(k) => if ps[k].value_tag == ValueTag::Object {
                match resolved_actor_value(id, value, c) {
                    Err(e) => Err(e),
                    Ok(v) => Ok(DirectionView::SetProperty { id, value: v }),
                }
            } else {
                Ok(d)
            },
        },
        DirectionView::InvokeAction { id, arguments } => match action_index(acts, id, 0) {
            None => Err(RegistryError::UnknownAction { action_id: id }),
            Some(k) => match resolved_arguments(acts[k].arguments@, arguments, id, c, 0) {
                Err(e) => Err(e),
                Ok(a) => Ok(DirectionView::InvokeAction { id, arguments: a }),
            },
        },
        DirectionView::ResetProperty { .. } => Ok(d),
    }
}

/// Directions `ds` with their actor-naming values resolved, in order.
pub open spec fn resolved_direction_views(ps: Seq<PropertyDescriptor>, acts: Seq<ActionDescriptor>, ds: Seq<DirectionView>, c: ResolveContext) -> Result<Seq<DirectionView>, RegistryError>
    decreases ds.len(),
{
    if ds.len() == 0 {
        Ok(Seq::empty())
    } else {
        match resolved_direction_view(ps, acts, ds[0], c) {
            Err(e) => Err(e),
            Ok(d) => match resolved_direction_views(ps, acts, ds.drop_first(), c) {
                Err(e) => Err(e),
                Ok(rest) => Ok(seq![d] + rest),
            },
        }
    }
}

/// Whether an earlier Create is bound to `batch_ref`.
pub open spec fn binds_ref(bindings: Seq<(u16, ObjectId, usize)>, batch_ref: u16) -> bool {
    exists|k: int| 0 <= k < bindings.len() && #[trigger] bindings[k].0 == batch_ref
}

/// Whether an earlier Create of the batch made actor `id`.
pub open spec fn binds_object(bindings: Seq<(u16, ObjectId, usize)>, id: ObjectId) -> bool {
    exists|k: int| 0 <= k < bindings.len() && #[trigger] bindings[k].1 == id
}

/// A slot planning failure as a registry failure.
pub open spec fn slot_error(e: SlotPlanError) -> RegistryError {
    match e {
        SlotPlanError::Capacity(kind) => RegistryError::Capacity { kind },
        SlotPlanError::Internal => RegistryError::Internal,
    }
}

/// The slot table after live identity `id` is retired, or an internal error.
pub open spec fn retirement(slots: Seq<PlannedSlot>, id: ObjectId) -> Result<Seq<PlannedSlot>, RegistryError> {
    let k = object_slot(id@) - 1;
    if 0 <= k < slots.len() && slots[k] == PlannedSlot::Occupied(id) {
        Ok(slots.update(
            k,
            if object_generation(id@) == u32::MAX {
                PlannedSlot::Retired
            } else {
                PlannedSlot::Available((object_generation(id@) + 1) as u32)
            },
        ))
    } else {
        Err(RegistryError::Internal)
    }
}

/// The slot table after the deleted actors `ids[from..]` are retired in
/// order; deleting an actor the batch itself created is invalid.
pub open spec fn retired_from(ids: Seq<ObjectId>, from: int, bindings: Seq<(u16, ObjectId, usize)>, slots: Seq<PlannedSlot>) -> Result<Seq<PlannedSlot>, RegistryError>
    decreases ids.len() - from,
{
    if from < 0 || from >= ids.len() {
        Ok(slots)
    } else if binds_object(bindings, ids[from]) {
        Err(RegistryError::BatchInvalid)
    } else {
        match retirement(slots, ids[from]) {
            Err(e) => Err(e),
            Ok(s) => retired_from(ids, from + 1, bindings, s),
        }
    }
}

/// One Create as the plan records it.
pub struct CreateModel {
    /// Position of the Create in the batch.
    pub operation_index: u16,
    /// Its batch-local reference.
    pub batch_ref: u16,
    /// The actor type to construct.
    pub type_id: TypeId,
    /// The identifier reserved for the new actor.
    pub object_id: ObjectId,
    /// The slot reserved for it.
    pub reservation: SlotReservation,
    /// Constructor fields, actor-naming values resolved.
    pub fields: Seq<CreateField>,
    /// Where the actor is attached.
    pub destination: PreparedCreateDestination,
}

/// Mathematical model of an [`AtomicPlan`].
#[verifier::ext_equal]
pub struct AtomicModel {
    /// Directions checked so far, as for a plain batch.
    pub plan: PlanModel,
    /// The slot table as planned so far.
    pub slots: Seq<PlannedSlot>,
    /// Earlier Creates: batch reference, reserved identifier, Create index.
    pub bindings: Seq<(u16, ObjectId, usize)>,
    /// The Creates, in order.
    pub creates: Seq<CreateModel>,
}

/// The fixed inputs of an atomic plan: catalog, style registry, limits and
/// the slot table of the Stage when planning begins.
pub struct AtomicInputs<'a> {
    /// The descriptor catalog.
    pub catalog: Seq<TypeDescriptor>,
    /// The style registry.
    pub registry: StyleRegistry<'a>,
    /// The Stage limits.
    pub limits: RegistryLimits,
    /// The slot table when planning begins.
    pub records: Seq<PlannedSlot>,
}

/// The plan after one Create, or why the batch is refused: the batch
/// reference must be nonzero and unused; the type must be catalogued; the
/// fields must fit its schema; actor-naming fields and a parent resolve
/// against earlier Creates and live actors; a slot is reserved; the actor is
/// attached in the rehearsed tree.
pub open spec fn create_step(inp: AtomicInputs, m: AtomicModel, index: u16, c: CreateDirection) -> Result<AtomicModel, RegistryError> {
    let ctx = ResolveContext { records: inp.records, shadow: m.plan.shadow, bindings: m.bindings };
    if c.batch_ref == 0 || binds_ref(m.bindings, c.batch_ref) {
        Err(RegistryError::BatchInvalid)
    } else {
        match catalog_index(inp.catalog, c.type_id, 0) {
            None => Err(RegistryError::UnknownType { type_id: c.type_id }),
            Some(t) => {
                let desc = inp.catalog[t];
                match supplied_field_error(desc.constructor_fields@, c.fields@, 0) {
                    Some(e) => Err(e),
                    None => match missing_field_error(desc.constructor_fields@, c.fields@, 0) {
                        Some(e) => Err(e),
                        None => match resolved_fields(desc.constructor_fields@, c.fields@, ctx) {
                            Err(e) => Err(e),
                            Ok(fs) => {
                                let dest = match c.destination {
                                    BatchCreateDestination::Root { name } => Ok(PreparedCreateDestination::Root { name }),
                                    BatchCreateDestination::Child { parent } => match resolved_reference(parent, inp.records, m.plan.shadow, m.bindings) {
                                        Err(e) => Err(e),
                                        Ok(p) => Ok(PreparedCreateDestination::Child { parent: p }),
                                    },
                                };
                                match dest {
                                    Err(e) => Err(e),
                                    Ok(dest) => match allocation(m.slots, inp.records.len() as usize, inp.limits.max_actors) {
                                        Err(e) => Err(slot_error(e)),
                                        Ok((res, slots)) => {
                                            let id = identity(res.generation, (res.index + 1) as u32);
                                            match created(m.plan.shadow, inp.limits.max_actors as nat, id, desc.type_id, desc.capabilities, desc.child_policy, dest) {
                                                Err(e) => Err(e),
                                                Ok(s) => Ok(AtomicModel {
                                                    plan: PlanModel {
                                                        shadow: s,
                                                        touched: push_unique(m.plan.touched, id),
                                                        effects: with_tree_effects(m.plan.effects),
                                                        ..m.plan
                                                    },
                                                    slots,
                                                    bindings: m.bindings.push((c.batch_ref, id, m.creates.len() as usize)),
                                                    creates: m.creates.push(CreateModel {
                                                        operation_index: index,
                                                        batch_ref: c.batch_ref,
                                                        type_id: c.type_id,
                                                        object_id: id,
                                                        reservation: res,
                                                        fields: fs,
                                                        destination: dest,
                                                    }),
                                                }),
                                            }
                                        },
                                    },
                                }
                            },
                        },
                    },
                }
            },
        }
    }
}

/// Whether `d` changes the shape of the tree.
pub open spec fn is_tree_direction(d: StageDirection) -> bool {
    d is Reparent || d is PromoteRoot || d is Reorder || d is Delete
}

/// The plan after one direction of an atomic batch, or why it is refused.
/// References resolve first. Actor directions are checked with batch
/// references admitted and then have them resolved; tree directions are
/// rehearsed and release the slots of the actors they delete, which must not
/// be the batch's own Creates; other directions are checked as in a plain
/// batch.
#[verifier::opaque]
pub open spec fn atomic_step(inp: AtomicInputs, m: AtomicModel, index: u16, d: BatchStageDirection) -> Result<AtomicModel, RegistryError> {
    match d {
        BatchStageDirection::Create(c) => create_step(inp, m, index, c),
        _ => match resolved_direction(d, inp.records, m.plan.shadow, m.bindings) {
            Err(e) => Err(e),
            Ok(sd) => match sd {
                StageDirection::MutateActor { object_id, directions } => match live_descriptor(inp.catalog, m.plan.shadow, object_id) {
                    Err(e) => Err(e),
                    Ok(desc) => if directions@.len() == 0 {
                        Err(RegistryError::BatchInvalid)
                    } else {
                        match directions_error(desc.properties@, desc.actions@, directions@, true, 0) {
                            Some(e) => Err(e),
                            None => match directions_effects(desc.properties@, desc.actions@, directions@, directions@.len() as int) {
                                Err(e) => Err(e),
                                Ok(bits) => match resolved_direction_views(
                                    desc.properties@,
                                    desc.actions@,
                                    direction_views(directions@),
                                    ResolveContext { records: inp.records, shadow: m.plan.shadow, bindings: m.bindings },
                                ) {
                                    Err(e) => Err(e),
                                    Ok(rs) => Ok(AtomicModel {
                                        plan: PlanModel {
                                            effects: m.plan.effects | bits,
                                            touched: push_unique(m.plan.touched, object_id),
                                            groups: grouped(m.plan.groups, object_id, rs),
                                            ..m.plan
                                        },
                                        ..m
                                    }),
                                },
                            },
                        }
                    },
                },
                _ => if is_tree_direction(sd) {
                    match applied(m.plan.shadow, sd) {
                        Err(e) => Err(e),
                        Ok(s) => match retired_from(s.deleted, m.plan.shadow.deleted.len() as int, m.bindings, m.slots) {
                            Err(e) => Err(e),
                            Ok(slots) => Ok(AtomicModel {
                                plan: PlanModel { shadow: s, effects: with_tree_effects(m.plan.effects), ..m.plan },
                                slots,
                                ..m
                            }),
                        },
                    }
                } else {
                    match plan_step(inp.catalog, inp.registry, m.plan, sd) {
                        Err(e) => Err(e),
                        Ok(p) => Ok(AtomicModel { plan: p, ..m }),
                    }
                },
            },
        },
    }
}

/// The atomic plan after the first `n` directions, or the first refusal.
pub open spec fn atomic_prefix(inp: AtomicInputs, start: AtomicModel, ds: Seq<BatchStageDirection>, n: int) -> Result<AtomicModel, RegistryError>
    decreases n,
{
    if n <= 0 {
        Ok(start)
    } else {
        match atomic_prefix(inp, start, ds, n - 1) {
            Err(e) => Err(e),
            Ok(m) => atomic_step(inp, m, (n - 1) as u16, ds[n - 1]),
        }
    }
}

/// The plan of a whole atomic batch, or why it is refused: a batch must
/// hold between one and `u16::MAX` directions; each is checked in order; the
/// final tree must fit `limits`.
pub open spec fn atomic_batch_plan(inp: AtomicInputs, start: AtomicModel, ds: Seq<BatchStageDirection>) -> Result<AtomicModel, RegistryError> {
    if ds.len() == 0 || ds.len() > u16::MAX {
        Err(RegistryError::BatchInvalid)
    } else {
        match atomic_prefix(inp, start, ds, ds.len() as int) {
            Err(e) => Err(e),
            Ok(m) => match final_tree_checked(m.plan.shadow, inp.limits) {
                Err(e) => Err(e),
                Ok(()) => Ok(m),
            },
        }
    }
}


/// The resolution context of the given recorded slots, tree and bindings.
pub open spec fn resolve_context(records: Seq<PlannedSlot>, shadow: ShadowModel, bindings: Seq<(u16, ObjectId, usize)>) -> ResolveContext {
    ResolveContext { records, shadow, bindings }
}

/// Resolve a constructor value that names an actor.
fn resolve_create_value(
    v: OwnedValue,
    records: &[PlannedSlot],
    shadow: &TreeShadow,
    bindings: &[(u16, ObjectId, usize)],
) -> (r: Result<OwnedValue, RegistryError>)
    ensures
        r == resolved_create_value(v, resolve_context(records@, shadow@, bindings@)),
{
    match v {
        OwnedValue::Object(raw) => match ObjectId::new(raw) {
            None => Err(RegistryError::BatchInvalid),
            Some(id) => match resolve_atomic_reference(BatchObjectReference::Stable(id), records, shadow, bindings) {
                Err(e) => Err(e),
                Ok(found) => Ok(OwnedValue::Object(found.get())),
            },
        },
        OwnedValue::BatchObject(batch_ref) => match resolve_atomic_reference(
            BatchObjectReference::EarlierBatch(batch_ref),
            records,
            shadow,
            bindings,
        ) {
            Err(e) => Err(e),
            Ok(found) => Ok(OwnedValue::Object(found.get())),
        },
        other => Ok(other),
    }
}

/// Report a reference failure against descriptor field `field_id`.
fn reference_field_error(field_id: u32, e: RegistryError) -> (r: RegistryError)
    ensures
        r == field_reference_error(field_id, e),
{
    match e {
        RegistryError::BatchInvalid => RegistryError::BatchInvalidField { field_id },
        RegistryError::StaleObject { object_id } => RegistryError::StaleObjectField { field_id, object_id },
        other => other,
    }
}

/// Resolve a property or argument value that names an actor.
fn resolve_actor_value(
    field_id: u32,
    v: OwnedValue,
    records: &[PlannedSlot],
    shadow: &TreeShadow,
    bindings: &[(u16, ObjectId, usize)],
) -> (r: Result<OwnedValue, RegistryError>)
    ensures
        r == resolved_actor_value(field_id, v, resolve_context(records@, shadow@, bindings@)),
{
    match v {
        OwnedValue::Object(raw) => match ObjectId::new(raw) {
            None => Err(RegistryError::BatchInvalidField { field_id }),
            Some(id) => match resolve_atomic_reference(BatchObjectReference::Stable(id), records, shadow, bindings) {
                Err(e) => Err(reference_field_error(field_id, e)),
                Ok(found) => Ok(OwnedValue::Object(found.get())),
            },
        },
        OwnedValue::BatchObject(batch_ref) => match resolve_atomic_reference(
            BatchObjectReference::EarlierBatch(batch_ref),
            records,
            shadow,
            bindings,
        ) {
            Err(e) => Err(reference_field_error(field_id, e)),
            Ok(found) => Ok(OwnedValue::Object(found.get())),
        },
        other => {
            let actual = other.tag();
            Err(RegistryError::TypeMismatch { field_id, expected: ValueTag::Object, actual })
        },
    }
}

/// Whether `tag` is the Object tag.
fn is_object_tag(tag: ValueTag) -> (r: bool)
    ensures
        r == (tag == ValueTag::Object),
{
    match tag {
        ValueTag::Object => true,
        _ => false,
    }
}

/// Resolve the actor-naming constructor fields of a Create, in order.
fn resolve_fields(
    decl: &[ConstructorFieldDescriptor],
    fields: Vec<CreateField>,
    records: &[PlannedSlot],
    shadow: &TreeShadow,
    bindings: &[(u16, ObjectId, usize)],
) -> (r: Result<Vec<CreateField>, RegistryError>)
    ensures
        match resolved_fields(decl@, fields@, resolve_context(records@, shadow@, bindings@)) {
            Ok(s) => r matches Ok(v) && v@ == s,
            Err(e) => r matches Err(x) && x == e,
        },
    decreases fields@.len(),
{
    if fields.len() == 0 {
        return Ok(Vec::new());
    }
    let ghost all = fields@;
    let mut fields = fields;
    let first = fields.remove(0);
    assert(fields@ =~= all.drop_first());
    let id = first.id;
    let value = match find_field(decl, id) {
        Some(k) => if is_object_tag(decl[k].value_tag) {
            match resolve_create_value(first.value, records, shadow, bindings) {
                Ok(v) => v,
                Err(e) => return Err(e),
            }
        } else {
            first.value
        },
        None => first.value,
    };
    let mut rest = match resolve_fields(decl, fields, records, shadow, bindings) {
        Ok(v) => v,
        Err(e) => return Err(e),
    };
    let ghost tail = rest@;
    let mut out: Vec<CreateField> = Vec::new();
    out.push(CreateField { id, value });
    out.append(&mut rest);
    assert(out@ =~= seq![CreateField { id, value: out@[0].value }] + tail);
    Ok(out)
}

/// Resolve the Object-typed arguments of an action, the first declared at
/// position `from` of `tags`.
fn resolve_arguments(
    tags: &[ValueTag],
    args: Vec<OwnedValue>,
    id: u32,
    from: usize,
    records: &[PlannedSlot],
    shadow: &TreeShadow,
    bindings: &[(u16, ObjectId, usize)],
) -> (r: Result<Vec<OwnedValue>, RegistryError>)
    requires
        from + args@.len() <= usize::MAX,
    ensures
        match resolved_arguments(tags@, args@, id, resolve_context(records@, shadow@, bindings@), from as int) {
            Ok(s) => r matches Ok(v) && v@ == s,
            Err(e) => r matches Err(x) && x == e,
        },
    decreases args@.len(),
{
    if args.len() == 0 {
        return Ok(Vec::new());
    }
    let ghost all = args@;
    let mut args = args;
    let first = args.remove(0);
    assert(args@ =~= all.drop_first());
    let object = from < tags.len() && is_object_tag(tags[from]);
    let value = if object {
        match resolve_actor_value(id, first, records, shadow, bindings) {
            Ok(v) => v,
            Err(e) => return Err(e),
        }
    } else {
        first
    };
    let mut rest = match resolve_arguments(tags, args, id, from + 1, records, shadow, bindings) {
        Ok(v) => v,
        Err(e) => return Err(e),
    };
    let ghost tail = rest@;
    let mut out: Vec<OwnedValue> = Vec::new();
    out.push(value);
    out.append(&mut rest);
    assert(out@ =~= seq![out@[0]] + tail);
    Ok(out)
}

/// Resolve the actor-naming values of one actor direction.
fn resolve_direction(
    properties: &[PropertyDescriptor],
    actions: &[ActionDescriptor],
    d: ActorDirection,
    records: &[PlannedSlot],
    shadow: &TreeShadow,
    bindings: &[(u16, ObjectId, usize)],
) -> (r: Result<ActorDirection, RegistryError>)
    ensures
        match resolved_direction_view(properties@, actions@, d@, resolve_context(records@, shadow@, bindings@)) {
            Ok(v) => r matches Ok(x) && x@ == v,
            Err(e) => r matches Err(x) && x == e,
        },
{
    match d {
        ActorDirection::SetProperty { id, value } => match find_property(properties, id) {
            None => Err(RegistryError::UnknownProperty { property_id: id }),
            Some(k) => if is_object_tag(properties[k].value_tag) {
                match resolve_actor_value(id, value, records, shadow, bindings) {
                    Err(e) => Err(e),
                    Ok(v) => Ok(ActorDirection::SetProperty { id, value: v }),
                }
            } else {
                Ok(ActorDirection::SetProperty { id, value })
            },
        },
        ActorDirection::InvokeAction { id, arguments } => match find_action(actions, id) {
            None => Err(RegistryError::UnknownAction { action_id: id }),
            Some(k) => {
                let _count = arguments.len();
                match resolve_arguments(actions[k].arguments, arguments, id, 0, records, shadow, bindings) {
                    Err(e) => Err(e),
                    Ok(a) => Ok(ActorDirection::InvokeAction { id, arguments: a }),
                }
            },
        },
        ActorDirection::ResetProperty { id } => Ok(ActorDirection::ResetProperty { id }),
    }
}

/// Resolve the actor-naming values of actor directions, in order.
fn resolve_directions(
    properties: &[PropertyDescriptor],
    actions: &[ActionDescriptor],
    directions: Vec<ActorDirection>,
    records: &[PlannedSlot],
    shadow: &TreeShadow,
    bindings: &[(u16, ObjectId, usize)],
) -> (r: Result<Vec<ActorDirection>, RegistryError>)
    ensures
        match resolved_direction_views(
            properties@,
            actions@,
            direction_views(directions@),
            resolve_context(records@, shadow@, bindings@),
        ) {
            Ok(s) => r matches Ok(v) && direction_views(v@) == s,
            Err(e) => r matches Err(x) && x == e,
        },
    decreases directions@.len(),
{
    let ghost views = direction_views(directions@);
    if directions.len() == 0 {
        let out: Vec<ActorDirection> = Vec::new();
        assert(direction_views(out@) =~= Seq::<DirectionView>::empty());
        return Ok(out);
    }
    let ghost all = directions@;
    let mut directions = directions;
    let first = directions.remove(0);
    assert(directions@ =~= all.drop_first());
    assert(direction_views(directions@) =~= views.drop_first());
    assert(views[0] == first@);
    let head = match resolve_direction(properties, actions, first, records, shadow, bindings) {
        Ok(d) => d,
        Err(e) => return Err(e),
    };
    let mut rest = match resolve_directions(properties, actions, directions, records, shadow, bindings) {
        Ok(v) => v,
        Err(e) => return Err(e),
    };
    let ghost tail = rest@;
    let ghost hv = head@;
    let mut out: Vec<ActorDirection> = Vec::new();
    out.push(head);
    out.append(&mut rest);
    assert(direction_views(out@) =~= seq![hv] + direction_views(tail));
    Ok(out)
}


/// One Create of a planned atomic batch.
pub struct PlannedCreate {
    /// Position of the Create in the batch.
    pub operation_index: u16,
    /// Its batch-local reference.
    pub batch_ref: u16,
    /// The actor type to construct.
    pub type_id: TypeId,
    /// The identifier reserved for the new actor.
    pub object_id: ObjectId,
    /// The slot reserved for it.
    pub reservation: SlotReservation,
    /// Constructor fields, actor-naming values resolved.
    pub fields: Vec<CreateField>,
    /// Where the actor is attached.
    pub destination: PreparedCreateDestination,
}

impl View for PlannedCreate {
    type V = CreateModel;

    open spec fn view(&self) -> CreateModel {
        CreateModel {
            operation_index: self.operation_index,
            batch_ref: self.batch_ref,
            type_id: self.type_id,
            object_id: self.object_id,
            reservation: self.reservation,
            fields: self.fields@,
            destination: self.destination,
        }
    }
}

/// A validated atomic Stage batch: the plan of its directions, the slot
/// table with its reservations, and its Creates with their bindings.
pub struct AtomicPlan {
    /// Directions checked so far, as for a plain batch.
    pub plan: BatchPlan,
    /// The slot table as planned.
    pub slots: SlotPlanner,
    /// Earlier Creates: batch reference, reserved identifier, Create index.
    pub bindings: Vec<(u16, ObjectId, usize)>,
    /// The Creates, in order.
    pub creates: Vec<PlannedCreate>,
}

impl View for AtomicPlan {
    type V = AtomicModel;

    open spec fn view(&self) -> AtomicModel {
        AtomicModel {
            plan: self.plan@,
            slots: self.slots.slots(),
            bindings: self.bindings@,
            creates: self.creates@.map_values(|c: PlannedCreate| c@),
        }
    }
}

/// The inputs of an atomic plan over the given catalog, registry, limits and
/// slot table.
pub open spec fn atomic_inputs<'a>(
    catalog: Seq<TypeDescriptor>,
    registry: StyleRegistry<'a>,
    limits: RegistryLimits,
    records: Seq<PlannedSlot>,
) -> AtomicInputs<'a> {
    AtomicInputs { catalog, registry, limits, records }
}

/// The atomic plan before any direction: the tree and slot table as they
/// stand, nothing bound.
pub open spec fn atomic_start(shadow: ShadowModel, records: Seq<PlannedSlot>) -> AtomicModel {
    AtomicModel {
        plan: PlanModel { shadow, groups: Seq::empty(), styles: Seq::empty(), effects: 0, touched: Seq::empty() },
        slots: records,
        bindings: Seq::empty(),
        creates: Seq::empty(),
    }
}

/// The plan of an atomic batch over the Stage's catalog, style registry,
/// limits, slot table and tree, or why the batch is refused.
pub open spec fn atomic_plan(
    catalog: Seq<TypeDescriptor>,
    registry: StyleRegistry,
    limits: RegistryLimits,
    records: Seq<PlannedSlot>,
    shadow: ShadowModel,
    ds: Seq<BatchStageDirection>,
) -> Result<AtomicModel, RegistryError> {
    atomic_batch_plan(atomic_inputs(catalog, registry, limits, records), atomic_start(shadow, records), ds)
}

/// Whether an earlier Create is bound to `batch_ref`.
fn bound_ref(bindings: &Vec<(u16, ObjectId, usize)>, batch_ref: u16) -> (r: bool)
    ensures
        r == binds_ref(bindings@, batch_ref),
{
    let mut k: usize = 0;
    while k < bindings.len()
        invariant
            k <= bindings@.len(),
            forall|j: int| 0 <= j < k ==> bindings@[j].0 != batch_ref,
        decreases bindings@.len() - k,
    {
        if bindings[k].0 == batch_ref {
            assert(bindings@[k as int].0 == batch_ref);
            return true;
        }
        k = k + 1;
    }
    false
}

/// Whether an earlier Create made actor `object_id`.
fn bound_object(bindings: &Vec<(u16, ObjectId, usize)>, object_id: ObjectId) -> (r: bool)
    ensures
        r == binds_object(bindings@, object_id),
{
    let mut k: usize = 0;
    while k < bindings.len()
        invariant
            k <= bindings@.len(),
            forall|j: int| 0 <= j < k ==> bindings@[j].1 != object_id,
        decreases bindings@.len() - k,
    {
        if bindings[k].1 == object_id {
            assert(bindings@[k as int].1 == object_id);
            return true;
        }
        k = k + 1;
    }
    false
}

/// A slot planning failure as a registry failure.
fn slot_failure(e: SlotPlanError) -> (r: RegistryError)
    ensures
        r == slot_error(e),
{
    match e {
        SlotPlanError::Capacity(kind) => RegistryError::Capacity { kind },
        SlotPlanError::Internal => RegistryError::Internal,
    }
}

impl AtomicPlan {
    /// The slot planner works on `records` under the actor limit of `limits`.
    pub open spec fn planning(&self, limits: RegistryLimits, records: Seq<PlannedSlot>) -> bool {
        &&& self.slots.initial_len() == records.len()
        &&& self.slots.maximum() == limits.max_actors
        &&& limits.max_actors < u32::MAX
        &&& slots_consistent(self.slots.slots())
    }

    /// Check one Create and fold it into the plan.
    fn create(
        &mut self,
        catalog: &[TypeDescriptor],
        registry: &StyleRegistry,
        limits: &RegistryLimits,
        records: &[PlannedSlot],
        index: u16,
        c: CreateDirection,
    ) -> (r: Result<(), RegistryError>)
        requires
            old(self).planning(*limits, records@),
        ensures
            final(self).planning(*limits, records@),
            match create_step(atomic_inputs(catalog@, *registry, *limits, records@), old(self)@, index, c) {
                Ok(m) => r is Ok && final(self)@ == m,
                Err(e) => r == Err::<(), RegistryError>(e),
            },
    {
        let CreateDirection { batch_ref, type_id, destination, fields } = c;
        if batch_ref == 0 || bound_ref(&self.bindings, batch_ref) {
            return Err(RegistryError::BatchInvalid);
        }
        let t = match catalog_position(catalog, type_id) {
            Some(t) => t,
            None => return Err(RegistryError::UnknownType { type_id }),
        };
        let desc = &catalog[t];
        if let Err(e) = validate_atomic_constructor_fields(desc.constructor_fields, fields.as_slice()) {
            return Err(e);
        }
        let fields = match resolve_fields(desc.constructor_fields, fields, records, &self.plan.shadow, self.bindings.as_slice()) {
            Ok(f) => f,
            Err(e) => return Err(e),
        };
        let destination = match destination {
            BatchCreateDestination::Root { name } => PreparedCreateDestination::Root { name },
            BatchCreateDestination::Child { parent } => match resolve_atomic_reference(
                parent,
                records,
                &self.plan.shadow,
                self.bindings.as_slice(),
            ) {
                Ok(p) => PreparedCreateDestination::Child { parent: p },
                Err(e) => return Err(e),
            },
        };
        let ghost slots0 = self.slots.slots();
        let reservation = match self.slots.allocate() {
            Ok(res) => res,
            Err(e) => return Err(slot_failure(e)),
        };
        proof {
            lemma_first_available(slots0);
        }
        let object_id = ObjectId::from_parts(reservation.generation, reservation.index as u32);
        if let Err(e) = self.plan.shadow.append_create(
            limits.max_actors,
            object_id,
            desc.type_id,
            desc.capabilities,
            desc.child_policy,
            &destination,
        ) {
            return Err(e);
        }
        let ghost creates0 = self.creates@;
        let create_index = self.creates.len();
        let created_actor = PlannedCreate {
            operation_index: index,
            batch_ref,
            type_id,
            object_id,
            reservation,
            fields,
            destination,
        };
        let ghost made = created_actor@;
        self.creates.push(created_actor);
        self.bindings.push((batch_ref, object_id, create_index));
        self.plan.touch(object_id);
        self.plan.effects = self.plan.effects.union(MutationEffects::DRAW()).union(MutationEffects::TREE()).union(
            MutationEffects::LAYOUT(),
        ).union(MutationEffects::SNAPSHOT());
        assert(self.creates@.map_values(|x: PlannedCreate| x@) =~= creates0.map_values(|x: PlannedCreate| x@).push(made));
        Ok(())
    }

    /// Check the actor directions for `object_id` and fold them, resolved,
    /// into its group.
    fn mutate(
        &mut self,
        catalog: &[TypeDescriptor],
        records: &[PlannedSlot],
        object_id: ObjectId,
        directions: Vec<ActorDirection>,
    ) -> (r: Result<(), RegistryError>)
        ensures
            final(self).slots == old(self).slots,
            match live_descriptor(catalog@, old(self)@.plan.shadow, object_id) {
                Err(e) => r == Err::<(), RegistryError>(e),
                Ok(desc) => if directions@.len() == 0 {
                    r == Err::<(), RegistryError>(RegistryError::BatchInvalid)
                } else {
                    match directions_error(desc.properties@, desc.actions@, directions@, true, 0) {
                        Some(e) => r == Err::<(), RegistryError>(e),
                        None => match directions_effects(desc.properties@, desc.actions@, directions@, directions@.len() as int) {
                            Err(e) => r == Err::<(), RegistryError>(e),
                            Ok(bits) => match resolved_direction_views(
                                desc.properties@,
                                desc.actions@,
                                direction_views(directions@),
                                resolve_context(records@, old(self)@.plan.shadow, old(self)@.bindings),
                            ) {
                                Err(e) => r == Err::<(), RegistryError>(e),
                                Ok(rs) => r is Ok && final(self)@ == (AtomicModel {
                                    plan: PlanModel {
                                        effects: old(self)@.plan.effects | bits,
                                        touched: push_unique(old(self)@.plan.touched, object_id),
                                        groups: grouped(old(self)@.plan.groups, object_id, rs),
                                        ..old(self)@.plan
                                    },
                                    ..old(self)@
                                }),
                            },
                        },
                    }
                },
            },
    {
        let k = match live_descriptor_position(catalog, &self.plan.shadow, object_id) {
            Ok(k) => k,
            Err(e) => return Err(e),
        };
        if directions.len() == 0 {
            return Err(RegistryError::BatchInvalid);
        }
        let desc = &catalog[k];
        if let Err(e) = validate_atomic_actor_directions(desc.properties, desc.actions, directions.as_slice()) {
            return Err(e);
        }
        let effects = match actor_direction_effects(desc.properties, desc.actions, directions.as_slice()) {
            Ok(e) => e,
            Err(e) => return Err(e),
        };
        let resolved = match resolve_directions(
            desc.properties,
            desc.actions,
            directions,
            records,
            &self.plan.shadow,
            self.bindings.as_slice(),
        ) {
            Ok(v) => v,
            Err(e) => return Err(e),
        };
        self.plan.effects = self.plan.effects.union(effects);
        self.plan.touch(object_id);
        self.plan.group(object_id, resolved);
        Ok(())
    }

    /// Rehearse a tree direction and release the slots of the actors it
    /// deletes.
    fn rehearse_tree(&mut self, d: StageDirection) -> (r: Result<(), RegistryError>)
        requires
            slots_consistent(old(self).slots.slots()),
        ensures
            final(self).slots.initial_len() == old(self).slots.initial_len(),
            final(self).slots.maximum() == old(self).slots.maximum(),
            slots_consistent(final(self).slots.slots()),
            match applied(old(self)@.plan.shadow, d) {
                Err(e) => r == Err::<(), RegistryError>(e),
                Ok(s) => match retired_from(s.deleted, old(self)@.plan.shadow.deleted.len() as int, old(self)@.bindings, old(self)@.slots) {
                    Err(e) => r == Err::<(), RegistryError>(e),
                    Ok(slots) => r is Ok && final(self)@ == (AtomicModel {
                        plan: PlanModel { shadow: s, effects: with_tree_effects(old(self)@.plan.effects), ..old(self)@.plan },
                        slots,
                        ..old(self)@
                    }),
                },
            },
    {
        let start = self.plan.shadow.deleted_object_ids().len();
        if let Err(e) = self.plan.shadow.apply(&d) {
            return Err(e);
        }
        let ghost ids = self.plan.shadow@.deleted;
        let ghost bindings = self.bindings@;
        let ghost slots0 = old(self)@.slots;
        let ghost plan_after = self.plan@;
        let mut i = start;
        while i < self.plan.shadow.deleted_object_ids().len()
            invariant
                ids == self.plan.shadow@.deleted,
                applied(old(self)@.plan.shadow, d) == Ok::<ShadowModel, RegistryError>(self.plan.shadow@),
                bindings == self.bindings@,
                bindings == old(self)@.bindings,
                slots0 == old(self)@.slots,
                plan_after == self.plan@,
                self.creates@ == old(self).creates@,
                start <= i,
                start == old(self)@.plan.shadow.deleted.len(),
                self.slots.initial_len() == old(self).slots.initial_len(),
                self.slots.maximum() == old(self).slots.maximum(),
                slots_consistent(self.slots.slots()),
                retired_from(ids, start as int, bindings, slots0) == retired_from(ids, i as int, bindings, self.slots.slots()),
            decreases ids.len() - i,
        {
            let object_id = self.plan.shadow.deleted_object_ids()[i];
            assert(object_id == ids[i as int]);
            if bound_object(&self.bindings, object_id) {
                return Err(RegistryError::BatchInvalid);
            }
            match self.slots.retire(object_id) {
                Ok(()) => {},
                Err(e) => return Err(slot_failure(e)),
            }
            i = i + 1;
        }
        self.plan.effects = self.plan.effects.union(MutationEffects::DRAW()).union(MutationEffects::TREE()).union(
            MutationEffects::LAYOUT(),
        ).union(MutationEffects::SNAPSHOT());
        Ok(())
    }

    /// Check one direction of an atomic batch and fold it into the plan.
    fn step(
        &mut self,
        catalog: &[TypeDescriptor],
        registry: &StyleRegistry,
        limits: &RegistryLimits,
        records: &[PlannedSlot],
        index: u16,
        d: BatchStageDirection,
    ) -> (r: Result<(), RegistryError>)
        requires
            old(self).planning(*limits, records@),
        ensures
            final(self).planning(*limits, records@),
            match atomic_step(atomic_inputs(catalog@, *registry, *limits, records@), old(self)@, index, d) {
                Ok(m) => r is Ok && final(self)@ == m,
                Err(e) => r == Err::<(), RegistryError>(e),
            },
    {
        reveal(atomic_step);
        match d {
            BatchStageDirection::Create(c) => self.create(catalog, registry, limits, records, index, c),
            other => {
                let resolved = match resolve_atomic_direction(other, records, &self.plan.shadow, self.bindings.as_slice()) {
                    Ok(sd) => sd,
                    Err(e) => return Err(e),
                };
                match resolved {
                    StageDirection::MutateActor { object_id, directions } => self.mutate(catalog, records, object_id, directions),
                    sd => {
                        let tree = match &sd {
                            StageDirection::Reparent { .. } | StageDirection::PromoteRoot { .. } | StageDirection::Reorder {
                                ..
                            } | StageDirection::Delete { .. } => true,
                            _ => false,
                        };
                        if tree {
                            self.rehearse_tree(sd)
                        } else {
                            self.plan.step(catalog, registry, sd)
                        }
                    },
                }
            },
        }
    }
}

/// A refusal after `n` directions stays the outcome of every longer prefix.
proof fn lemma_atomic_prefix_sticks(inp: AtomicInputs, start: AtomicModel, ds: Seq<BatchStageDirection>, n: int, m: int)
    requires
        0 <= n <= m,
        atomic_prefix(inp, start, ds, n) is Err,
    ensures
        atomic_prefix(inp, start, ds, m) == atomic_prefix(inp, start, ds, n),
    decreases m - n,
{
    if n < m {
        lemma_atomic_prefix_sticks(inp, start, ds, n, m - 1);
    }
}

/// Copy of a slot table.
fn copy_slots(records: &[PlannedSlot]) -> (r: Vec<PlannedSlot>)
    ensures
        r@ == records@,
{
    let mut out: Vec<PlannedSlot> = Vec::new();
    let mut k: usize = 0;
    while k < records.len()
        invariant
            k <= records@.len(),
            out@ == records@.take(k as int),
        decreases records@.len() - k,
    {
        out.push(records[k]);
        k = k + 1;
        assert(out@ =~= records@.take(k as int));
    }
    assert(records@.take(k as int) =~= records@);
    out
}

/// Plan an atomic Stage batch on `shadow`, the tree of the Stage as it
/// stands, whose slot table is `records`: the batch must hold between one
/// and `u16::MAX` directions; each Create takes a nonzero batch reference not
/// used before, its fields are checked and resolved, a slot is reserved and
/// the actor attached; every later direction may name it by that
/// reference; each direction is checked and rehearsed in order, and the
/// final tree must fit `limits`. Planning reads the catalog, style registry,
/// limits and slot table only, so a refused batch leaves the Stage exactly as
/// it was; constructing the actors and committing the plan is left to the
/// caller.
pub fn plan_atomic_batch(
    catalog: &[TypeDescriptor],
    registry: &StyleRegistry,
    limits: &RegistryLimits,
    records: &[PlannedSlot],
    shadow: TreeShadow,
    directions: Vec<BatchStageDirection>,
) -> (r: Result<AtomicPlan, RegistryError>)
    requires
        limits.max_tree_depth < usize::MAX,
        limits.max_actors < u32::MAX,
        slots_consistent(records@),
    ensures
        match atomic_plan(catalog@, *registry, *limits, records@, shadow@, directions@) {
            Ok(m) => r matches Ok(plan) && plan@ == m,
            Err(e) => r matches Err(x) && x == e,
        },
{
    if directions.len() == 0 || directions.len() > 65535 {
        return Err(RegistryError::BatchInvalid);
    }
    let ghost all = directions@;
    let ghost inp = atomic_inputs(catalog@, *registry, *limits, records@);
    let ghost start = atomic_start(shadow@, records@);
    let slots = SlotPlanner::new(copy_slots(records), limits.max_actors);
    let plan = BatchPlan { shadow, groups: Vec::new(), styles: Vec::new(), effects: MutationEffects::NONE(), touched: Vec::new() };
    let mut atomic = AtomicPlan { plan, slots, bindings: Vec::new(), creates: Vec::new() };
    assert(atomic@ =~~= start);
    let mut rest = directions;
    let mut i: usize = 0;
    while rest.len() > 0
        invariant
            limits.max_tree_depth < usize::MAX,
            all == directions@,
            0 < all.len() <= 65535,
            inp == atomic_inputs(catalog@, *registry, *limits, records@),
            start == atomic_start(shadow@, records@),
            i <= all.len(),
            rest@ == all.skip(i as int),
            atomic.planning(*limits, records@),
            atomic_prefix(inp, start, all, i as int) == Ok::<AtomicModel, RegistryError>(atomic@),
        decreases rest@.len(),
    {
        assert(rest@[0] == all[i as int]);
        assert(rest@.len() == all.len() - i);
        let ghost before = atomic@;
        let d = rest.remove(0);
        assert(atomic_prefix(inp, start, all, i as int + 1) == atomic_step(inp, before, i as u16, d));
        match atomic.step(catalog, registry, limits, records, i as u16, d) {
            Ok(()) => {},
            Err(e) => {
                proof { lemma_atomic_prefix_sticks(inp, start, all, i as int + 1, all.len() as int); }
                return Err(e);
            },
        }
        i = i + 1;
        assert(rest@ =~= all.skip(i as int));
    }
    assert(i == all.len());
    match atomic.plan.shadow.validate_final_tree(limits) {
        Ok(()) => Ok(atomic),
        Err(e) => Err(e),
    }
}


/// The Creates of `m`, reached after the first `n` directions of `ds`, and
/// their bindings: binding `k` holds Create `k`'s batch reference and
/// identifier; batch references are nonzero and pairwise distinct; Creates
/// stand in direction order, each at a Create direction before `n`.
pub open spec fn creates_bound(m: AtomicModel, ds: Seq<BatchStageDirection>, n: int) -> bool {
    &&& m.bindings.len() == m.creates.len()
    &&& forall|k: int| 0 <= k < m.creates.len() ==> #[trigger] m.bindings[k] == (m.creates[k].batch_ref, m.creates[k].object_id, k as usize)
    &&& forall|k: int| 0 <= k < m.creates.len() ==> {
        let c = #[trigger] m.creates[k];
        &&& c.batch_ref != 0
        &&& c.operation_index < n
        &&& ds[c.operation_index as int] is Create
    }
    &&& forall|j: int, k: int| 0 <= j < k < m.creates.len() ==> {
        &&& #[trigger] m.creates[j].batch_ref != #[trigger] m.creates[k].batch_ref
        &&& m.creates[j].operation_index < m.creates[k].operation_index
    }
}

proof fn lemma_create_step_binds(inp: AtomicInputs, m: AtomicModel, index: u16, c: CreateDirection)
    requires
        create_step(inp, m, index, c) is Ok,
    ensures
        ({
            let m2 = create_step(inp, m, index, c)->Ok_0;
            &&& c.batch_ref != 0
            &&& !binds_ref(m.bindings, c.batch_ref)
            &&& m2.creates.len() == m.creates.len() + 1
            &&& m2.creates.take(m.creates.len() as int) == m.creates
            &&& m2.creates.last().batch_ref == c.batch_ref
            &&& m2.creates.last().operation_index == index
            &&& m2.bindings == m.bindings.push((c.batch_ref, m2.creates.last().object_id, m.creates.len() as usize))
        }),
{
    let m2 = create_step(inp, m, index, c)->Ok_0;
    assert(m2.creates.take(m.creates.len() as int) =~= m.creates);
}

proof fn lemma_atomic_prefix_binds(inp: AtomicInputs, start: AtomicModel, ds: Seq<BatchStageDirection>, n: int)
    requires
        0 <= n <= ds.len() <= u16::MAX,
        start.bindings.len() == 0,
        start.creates.len() == 0,
        atomic_prefix(inp, start, ds, n) is Ok,
    ensures
        creates_bound(atomic_prefix(inp, start, ds, n)->Ok_0, ds, n),
    decreases n,
{
    if n > 0 {
        lemma_atomic_prefix_binds(inp, start, ds, n - 1);
        let m = atomic_prefix(inp, start, ds, n - 1)->Ok_0;
        let m2 = atomic_prefix(inp, start, ds, n)->Ok_0;
        let index = (n - 1) as u16;
        assert(atomic_step(inp, m, index, ds[n - 1]) == Ok::<AtomicModel, RegistryError>(m2));
        reveal(atomic_step);
        if let BatchStageDirection::Create(c) = ds[n - 1] {
            lemma_create_step_binds(inp, m, index, c);
            let last = m.creates.len() as int;
            assert forall|k: int| 0 <= k < m2.creates.len() implies #[trigger] m2.bindings[k] == (m2.creates[k].batch_ref, m2.creates[k].object_id, k as usize) by {
                if k < last {
                    assert(m2.creates[k] == m.creates.take(last)[k]);
                }
            }
            assert forall|k: int| 0 <= k < m2.creates.len() implies {
                let c = #[trigger] m2.creates[k];
                &&& c.batch_ref != 0
                &&& c.operation_index < n
                &&& ds[c.operation_index as int] is Create
            } by {
                if k < last {
                    assert(m2.creates[k] == m.creates.take(last)[k]);
                    assert(m.creates[k].operation_index < n - 1);
                }
            }
            assert forall|j: int, k: int| 0 <= j < k < m2.creates.len() implies {
                &&& #[trigger] m2.creates[j].batch_ref != #[trigger] m2.creates[k].batch_ref
                &&& m2.creates[j].operation_index < m2.creates[k].operation_index
            } by {
                assert(m2.creates[j] == m.creates.take(last)[j]);
                if k < last {
                    assert(m2.creates[k] == m.creates.take(last)[k]);
                } else {
                    assert(m.bindings[j].0 == m.creates[j].batch_ref);
                    assert(m.creates[j].operation_index < n - 1);
                }
            }
        } else {
            assert(m2.bindings == m.bindings && m2.creates == m.creates);
        }
    }
}

/// Of an atomic batch that plans, every binding holds the batch reference
/// and identifier of the Create at its own position; batch references are
/// nonzero and pairwise distinct; Creates are recorded in direction order,
/// each from a Create direction of the batch.
pub proof fn lemma_atomic_bindings_unique(
    catalog: Seq<TypeDescriptor>,
    registry: StyleRegistry,
    limits: RegistryLimits,
    records: Seq<PlannedSlot>,
    shadow: ShadowModel,
    ds: Seq<BatchStageDirection>,
)
    requires
        atomic_plan(catalog, registry, limits, records, shadow, ds) is Ok,
    ensures
        creates_bound(atomic_plan(catalog, registry, limits, records, shadow, ds)->Ok_0, ds, ds.len() as int),
{
    let inp = atomic_inputs(catalog, registry, limits, records);
    let start = atomic_start(shadow, records);
    lemma_atomic_prefix_binds(inp, start, ds, ds.len() as int);
}

proof fn lemma_binding_found(bindings: Seq<(u16, ObjectId, usize)>, batch_ref: u16, from: int)
    requires
        0 <= from,
        binding_from(bindings, batch_ref, from) is Some,
    ensures
        exists|k: int| from <= k < bindings.len() && #[trigger] bindings[k].0 == batch_ref
            && bindings[k].1 == binding_from(bindings, batch_ref, from)->0,
    decreases bindings.len() - from,
{
    if bindings[from].0 != batch_ref {
        lemma_binding_found(bindings, batch_ref, from + 1);
    }
}

/// Within an atomic batch, a batch reference that direction `n` resolves
/// names an actor made by a Create among the directions before `n`, under
/// that very reference.
pub proof fn lemma_batch_reference_names_earlier_create(
    catalog: Seq<TypeDescriptor>,
    registry: StyleRegistry,
    limits: RegistryLimits,
    records: Seq<PlannedSlot>,
    shadow: ShadowModel,
    ds: Seq<BatchStageDirection>,
    n: int,
    batch_ref: u16,
)
    requires
        0 <= n < ds.len() <= u16::MAX,
        atomic_prefix(atomic_inputs(catalog, registry, limits, records), atomic_start(shadow, records), ds, n) is Ok,
        ({
            let m = atomic_prefix(atomic_inputs(catalog, registry, limits, records), atomic_start(shadow, records), ds, n)->Ok_0;
            resolved_reference(BatchObjectReference::EarlierBatch(batch_ref), records, m.plan.shadow, m.bindings) is Ok
        }),
    ensures
        ({
            let m = atomic_prefix(atomic_inputs(catalog, registry, limits, records), atomic_start(shadow, records), ds, n)->Ok_0;
            let id = resolved_reference(BatchObjectReference::EarlierBatch(batch_ref), records, m.plan.shadow, m.bindings)->Ok_0;
            exists|k: int| 0 <= k < m.creates.len() && #[trigger] m.creates[k].object_id == id
                && m.creates[k].batch_ref == batch_ref && m.creates[k].operation_index < n
                && ds[m.creates[k].operation_index as int] is Create
        }),
{
    let inp = atomic_inputs(catalog, registry, limits, records);
    let start = atomic_start(shadow, records);
    lemma_atomic_prefix_binds(inp, start, ds, n);
    let m = atomic_prefix(inp, start, ds, n)->Ok_0;
    lemma_binding_found(m.bindings, batch_ref, 0);
    let k = choose|k: int| 0 <= k < m.bindings.len() && #[trigger] m.bindings[k].0 == batch_ref
        && m.bindings[k].1 == binding_from(m.bindings, batch_ref, 0)->0;
    assert(m.bindings[k] == (m.creates[k].batch_ref, m.creates[k].object_id, k as usize));
}

} // verus!
