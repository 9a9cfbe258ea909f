//! Actor identities, descriptor vocabulary and capability bitsets.
//!
//! These are the language-neutral value types used by the stage runtime:
//! generation-checked object identifiers, descriptor capability sets and the
//! small records exchanged between the registry and its callers.
use vstd::prelude::*;

use crate::direction::{owned_tag, ActorDirection, CreateField, OwnedValue, StageRevision, ValueTag};
use vstd::utf8::encode_utf8;
use crate::widget::Rect;

verus! {

/// Stable nonzero Stage identifier within one endpoint epoch.
#[derive(Clone, Copy, Debug, PartialEq, Eq, Structural, PartialOrd, Ord, Hash)]
pub struct StageId(u32);

impl View for StageId {
    type V = u32;

    closed spec fn view(&self) -> u32 {
        self.0
    }
}

impl StageId {
    #[verifier::type_invariant]
    spec fn nonzero(self) -> bool {
        self.0 != 0
    }

    /// Construct the identifier, rejecting the reserved zero value.
    pub fn new(raw: u32) -> (r: Option<Self>)
        ensures
            r is None <==> raw == 0,
            r matches Some(id) ==> id@ == raw,
    {
        if raw == 0 { None } else { Some(StageId(raw)) }
    }

    /// Return the serialized `u32` representation.
    pub fn get(self) -> (r: u32)
        ensures
            r == self@,
            r != 0,
    {
        proof { use_type_invariant(&self); }
        self.0
    }
}

/// Stable actor type identifier assigned by the descriptor catalog.
#[derive(Clone, Copy, Debug, PartialEq, Eq, Structural, PartialOrd, Ord, Hash)]
pub struct TypeId(u32);

impl View for TypeId {
    type V = u32;

    closed spec fn view(&self) -> u32 {
        self.0
    }
}

impl TypeId {
    #[verifier::type_invariant]
    spec fn nonzero(self) -> bool {
        self.0 != 0
    }

    /// Construct a registered Type identifier for a nonzero constant.
    pub fn registered(raw: u32) -> (r: Self)
        requires
            raw != 0,
        ensures
            r@ == raw,
    {
        TypeId(raw)
    }

    /// Convert a runtime value into a Type identifier.
    pub fn new(raw: u32) -> (r: Option<Self>)
        ensures
            r is None <==> raw == 0,
            r matches Some(id) ==> id@ == raw,
    {
        if raw == 0 { None } else { Some(TypeId(raw)) }
    }

    /// Return the serialized `u32` representation.
    pub fn get(self) -> (r: u32)
        ensures
            r == self@,
            r != 0,
    {
        proof { use_type_invariant(&self); }
        self.0
    }
}

/// Upper (generation) word of a serialized object identifier.
pub open spec fn object_generation(raw: u64) -> u32 {
    (raw >> 32u64) as u32
}

/// Lower (slot) word of a serialized object identifier.
pub open spec fn object_slot(raw: u64) -> u32 {
    (raw & 0xffff_ffffu64) as u32
}

/// The identifier whose serialized value is `raw`.
pub closed spec fn object_id_of(raw: u64) -> ObjectId {
    ObjectId(raw)
}

/// The identifier with generation word `generation` and slot word `slot`.
pub closed spec fn identity(generation: u32, slot: u32) -> ObjectId {
    ObjectId(((generation as u64) << 32u64) | (slot as u64))
}

/// Generation-checked actor identifier scoped to one [`StageId`].
#[derive(Clone, Copy, Debug, PartialEq, Eq, Structural, PartialOrd, Ord, Hash)]
pub struct ObjectId(u64);

impl View for ObjectId {
    type V = u64;

    closed spec fn view(&self) -> u64 {
        self.0
    }
}

impl ObjectId {
    #[verifier::type_invariant]
    spec fn words_nonzero(self) -> bool {
        object_generation(self.0) != 0 && object_slot(self.0) != 0
    }

    /// Convert a serialized value with nonzero generation and slot words.
    pub fn new(raw: u64) -> (r: Option<Self>)
        ensures
            r is None <==> (object_generation(raw) == 0 || object_slot(raw) == 0),
            r matches Some(id) ==> id@ == raw && id == object_id_of(raw),
    {
        let generation = (raw >> 32u64) as u32;
        let slot = (raw & 0xffff_ffffu64) as u32;
        if generation == 0 || slot == 0 {
            None
        } else {
            Some(ObjectId(raw))
        }
    }

    /// Return the serialized `u64` representation.
    pub fn get(self) -> (r: u64)
        ensures
            r == self@,
    {
        self.0
    }

    /// Return the upper generation word.
    pub fn generation(self) -> (r: u32)
        ensures
            r == object_generation(self@),
            r != 0,
    {
        proof { use_type_invariant(&self); }
        (self.0 >> 32u64) as u32
    }

    /// Identifier for the given nonzero generation and zero-based slot index.
    pub fn from_parts(generation: u32, slot_index: u32) -> (r: Self)
        requires
            generation != 0,
            slot_index < u32::MAX,
        ensures
            object_generation(r@) == generation,
            object_slot(r@) == slot_index + 1,
            r == identity(generation, (slot_index + 1) as u32),
    {
        let slot: u32 = slot_index + 1;
        let raw: u64 = ((generation as u64) << 32u64) | (slot as u64);
        proof {
            let g = generation as u64;
            let s = slot as u64;
            assert(((g << 32u64) | s) >> 32u64 == g && ((g << 32u64) | s) & 0xffff_ffffu64 == s)
                by (bit_vector)
                requires
                    g <= 0xffff_ffffu64,
                    s <= 0xffff_ffffu64,
            ;
        }
        ObjectId(raw)
    }

    /// Zero-based slot index of this identifier.
    pub fn slot_index(self) -> (r: usize)
        ensures
            r == object_slot(self@) - 1,
    {
        proof { use_type_invariant(&self); }
        ((self.0 & 0xffff_ffffu64) as u32 - 1) as usize
    }

    /// Return the lower slot word.
    pub fn slot(self) -> (r: u32)
        ensures
            r == object_slot(self@),
            r != 0,
    {
        proof { use_type_invariant(&self); }
        (self.0 & 0xffff_ffffu64) as u32
    }
}

/// Runtime identity associated with one object node.
#[derive(Clone, Copy, Debug, PartialEq, Eq, Structural)]
pub struct ActorIdentity {
    /// Generation-checked actor identifier.
    pub object_id: ObjectId,
    /// Registered actor type identifier.
    pub type_id: TypeId,
}

/// Coarse actor family used for descriptor discovery.
#[derive(Clone, Copy, Debug, PartialEq, Eq, Structural)]
pub enum ActorFamily {
    /// Tree/container actor.
    Container,
    /// Text-bearing actor.
    Text,
    /// Interactive control actor.
    Control,
    /// Composite or collection actor.
    Composite,
}

/// Actor capability bitset.
#[derive(Clone, Copy, Debug, PartialEq, Eq, Structural)]
pub struct ActorCapabilities(u32);

impl View for ActorCapabilities {
    type V = u32;

    closed spec fn view(&self) -> u32 {
        self.0
    }
}

impl ActorCapabilities {
    /// No declared capabilities.
    #[allow(non_snake_case)]
    pub fn EMPTY() -> (r: Self)
        ensures
            r@ == 0,
    {
        ActorCapabilities(0)
    }

    /// Actor may occupy a named stage-root slot.
    #[allow(non_snake_case)]
    pub fn STAGE_ROOT() -> (r: Self)
        ensures
            r@ == 1,
    {
        ActorCapabilities(1)
    }

    /// Actor may contain child actors in the object tree.
    #[allow(non_snake_case)]
    pub fn CHILDREN() -> (r: Self)
        ensures
            r@ == 2,
    {
        ActorCapabilities(2)
    }

    /// Actor contains or renders text.
    #[allow(non_snake_case)]
    pub fn TEXT() -> (r: Self)
        ensures
            r@ == 4,
    {
        ActorCapabilities(4)
    }

    /// Actor accepts native input as a control.
    #[allow(non_snake_case)]
    pub fn CONTROL() -> (r: Self)
        ensures
            r@ == 8,
    {
        ActorCapabilities(8)
    }

    /// Actor owns a collection-like native model.
    #[allow(non_snake_case)]
    pub fn COLLECTION() -> (r: Self)
        ensures
            r@ == 16,
    {
        ActorCapabilities(16)
    }

    /// Return the union of two sets.
    pub fn union(self, other: Self) -> (r: Self)
        ensures
            r@ == self@ | other@,
    {
        ActorCapabilities(self.0 | other.0)
    }

    /// Return whether every bit in `other` is present.
    pub fn contains(self, other: Self) -> (r: bool)
        ensures
            r == (self@ & other@ == other@),
    {
        self.0 & other.0 == other.0
    }

    /// Return the stable bit representation.
    pub fn bits(self) -> (r: u32)
        ensures
            r == self@,
    {
        self.0
    }
}

/// Layout capability bitset advertised by an actor descriptor.
#[derive(Clone, Copy, Debug, PartialEq, Eq, Structural)]
pub struct LayoutCapabilities(u32);

impl View for LayoutCapabilities {
    type V = u32;

    closed spec fn view(&self) -> u32 {
        self.0
    }
}

impl LayoutCapabilities {
    /// No layout-specific capability.
    #[allow(non_snake_case)]
    pub fn EMPTY() -> (r: Self)
        ensures
            r@ == 0,
    {
        LayoutCapabilities(0)
    }

    /// Actor can host flex layout.
    #[allow(non_snake_case)]
    pub fn FLEX_CONTAINER() -> (r: Self)
        ensures
            r@ == 1,
    {
        LayoutCapabilities(1)
    }

    /// Actor can host grid layout.
    #[allow(non_snake_case)]
    pub fn GRID_CONTAINER() -> (r: Self)
        ensures
            r@ == 2,
    {
        LayoutCapabilities(2)
    }

    /// Actor accepts item-level layout hints.
    #[allow(non_snake_case)]
    pub fn ITEM_HINTS() -> (r: Self)
        ensures
            r@ == 4,
    {
        LayoutCapabilities(4)
    }

    /// Actor exposes intrinsic measurement.
    #[allow(non_snake_case)]
    pub fn INTRINSIC_MEASUREMENT() -> (r: Self)
        ensures
            r@ == 8,
    {
        LayoutCapabilities(8)
    }

    /// Return the union of two sets.
    pub fn union(self, other: Self) -> (r: Self)
        ensures
            r@ == self@ | other@,
    {
        LayoutCapabilities(self.0 | other.0)
    }

    /// Return whether every bit in `other` is present.
    pub fn contains(self, other: Self) -> (r: bool)
        ensures
            r == (self@ & other@ == other@),
    {
        self.0 & other.0 == other.0
    }

    /// Return the stable bit representation.
    pub fn bits(self) -> (r: u32)
        ensures
            r == self@,
    {
        self.0
    }
}

/// Target-profile availability bitset.
#[derive(Clone, Copy, Debug, PartialEq, Eq, Structural)]
pub struct TargetSet(u8);

impl View for TargetSet {
    type V = u8;

    closed spec fn view(&self) -> u8 {
        self.0
    }
}

impl TargetSet {
    /// Host/simulator target.
    #[allow(non_snake_case)]
    pub fn HOST() -> (r: Self)
        ensures
            r@ == 1,
    {
        TargetSet(1)
    }

    /// Cortex-M4 runtime target.
    #[allow(non_snake_case)]
    pub fn CM4() -> (r: Self)
        ensures
            r@ == 2,
    {
        TargetSet(2)
    }

    /// Cortex-M7 same-core target.
    #[allow(non_snake_case)]
    pub fn CM7() -> (r: Self)
        ensures
            r@ == 4,
    {
        TargetSet(4)
    }

    /// All initial targets.
    #[allow(non_snake_case)]
    pub fn ALL() -> (r: Self)
        ensures
            r@ == 7,
    {
        TargetSet(7)
    }

    /// Return whether every bit in `other` is present.
    pub fn contains(self, other: Self) -> (r: bool)
        ensures
            r == (self@ & other@ == other@),
    {
        self.0 & other.0 == other.0
    }

    /// Return the stable bit representation.
    pub fn bits(self) -> (r: u8)
        ensures
            r == self@,
    {
        self.0
    }
}

/// Read/write classification of property descriptors.
#[derive(Clone, Copy, Debug, PartialEq, Eq, Structural)]
pub enum PropertyAccess {
    /// Property can only be read.
    ReadOnly,
    /// Property can be read and written.
    ReadWrite,
}

/// Static default value that can be embedded in a property descriptor.
#[derive(Clone, Copy, Debug, PartialEq, Eq)]
pub enum PropertyDefault {
    /// Reset removes the durable value.
    Absent,
    /// Boolean default.
    Bool(bool),
    /// Signed integer default.
    I32(i32),
    /// Unsigned integer default.
    U32(u32),
    /// Process-lifetime UTF-8 default.
    Text(&'static str),
}

impl PropertyDefault {
    /// The owned value a reset stores, or `None` when the default is absent.
    pub fn owned(self) -> (r: Option<OwnedValue>)
        ensures
            match self {
                PropertyDefault::Absent => r is None,
                PropertyDefault::Bool(v) => r == Some(OwnedValue::Bool(v)),
                PropertyDefault::I32(v) => r == Some(OwnedValue::I32(v)),
                PropertyDefault::U32(v) => r == Some(OwnedValue::U32(v)),
                PropertyDefault::Text(t) => r matches Some(OwnedValue::Text(s)) && s@ == t@,
            },
    {
        match self {
            PropertyDefault::Absent => None,
            PropertyDefault::Bool(value) => Some(OwnedValue::Bool(value)),
            PropertyDefault::I32(value) => Some(OwnedValue::I32(value)),
            PropertyDefault::U32(value) => Some(OwnedValue::U32(value)),
            PropertyDefault::Text(value) => Some(OwnedValue::Text(String::from_str(value))),
        }
    }
}

/// Descriptor-level constraint applied before an actor-specific check.
#[derive(Clone, Copy, Debug, PartialEq, Eq, Structural)]
pub enum PropertyConstraint {
    /// No additional scalar constraint.
    Unconstrained,
    /// Inclusive signed integer range.
    I32 {
        /// Inclusive lower bound.
        min: i32,
        /// Inclusive upper bound.
        max: i32,
    },
    /// Maximum UTF-8 byte length.
    TextBytes {
        /// Maximum encoded UTF-8 bytes.
        max: u32,
    },
}

/// Mutation side effects used to derive commit invalidation and revision work.
#[derive(Clone, Copy, Debug, PartialEq, Eq, Structural)]
pub struct MutationEffects(u16);

impl View for MutationEffects {
    type V = u16;

    closed spec fn view(&self) -> u16 {
        self.0
    }
}

impl MutationEffects {
    /// No visible effect.
    #[allow(non_snake_case)]
    pub fn NONE() -> (r: Self)
        ensures
            r@ == 0,
    {
        MutationEffects(0)
    }

    /// Drawing output may change.
    #[allow(non_snake_case)]
    pub fn DRAW() -> (r: Self)
        ensures
            r@ == 1,
    {
        MutationEffects(1)
    }

    /// Requested or computed layout may change.
    #[allow(non_snake_case)]
    pub fn LAYOUT() -> (r: Self)
        ensures
            r@ == 2,
    {
        MutationEffects(2)
    }

    /// Tree ownership or ordering may change.
    #[allow(non_snake_case)]
    pub fn TREE() -> (r: Self)
        ensures
            r@ == 4,
    {
        MutationEffects(4)
    }

    /// Focus eligibility or state may change.
    #[allow(non_snake_case)]
    pub fn FOCUS() -> (r: Self)
        ensures
            r@ == 8,
    {
        MutationEffects(8)
    }

    /// Snapshot-visible state changes.
    #[allow(non_snake_case)]
    pub fn SNAPSHOT() -> (r: Self)
        ensures
            r@ == 16,
    {
        MutationEffects(16)
    }

    /// Return the union of two sets.
    pub fn union(self, other: Self) -> (r: Self)
        ensures
            r@ == self@ | other@,
    {
        MutationEffects(self.0 | other.0)
    }

    /// Return whether every bit in `other` is present.
    pub fn contains(self, other: Self) -> (r: bool)
        ensures
            r == (self@ & other@ == other@),
    {
        self.0 & other.0 == other.0
    }

    /// Return the stable bit representation.
    pub fn bits(self) -> (r: u16)
        ensures
            r == self@,
    {
        self.0
    }
}

/// Whether an action may participate in an atomic batch.
#[derive(Clone, Copy, Debug, PartialEq, Eq, Structural)]
pub enum ActionTransaction {
    /// Prepared and committed with the surrounding batch.
    Transactional,
    /// Explicitly unsupported in an atomic batch.
    BatchForbidden,
}

/// Cue-delivery classification of event descriptors.
#[derive(Clone, Copy, Debug, PartialEq, Eq, Structural)]
pub enum EventDelivery {
    /// Required cue that may not be coalesced or silently lost.
    Critical,
    /// Every queued cue must be preserved in order.
    Ordered,
    /// Exact-key queue-tail replacement retains the latest event payload.
    LatestValueCoalescible,
}

/// Native object-event source matched by an event descriptor.
#[derive(Clone, Copy, Debug, PartialEq, Eq, Structural)]
pub enum NativeEventKind {
    /// Pointer click semantic event.
    Clicked,
}

/// Native propagation phase of one object-event dispatch step.
#[derive(Clone, Copy, Debug, PartialEq, Eq, Structural)]
pub enum DispatchPhase {
    /// Ancestor trickle observation.
    Trickle,
    /// Target observation.
    Target,
    /// Bubble observation.
    Bubble,
}

/// Bit that represents one dispatch phase in an [`EventPhaseSet`].
pub open spec fn phase_bit(phase: DispatchPhase) -> u8 {
    match phase {
        DispatchPhase::Trickle => 1u8,
        DispatchPhase::Target => 2u8,
        DispatchPhase::Bubble => 4u8,
    }
}

/// Allowed native propagation phases for one event descriptor.
#[derive(Clone, Copy, Debug, PartialEq, Eq, Structural)]
pub struct EventPhaseSet(u8);

impl View for EventPhaseSet {
    type V = u8;

    closed spec fn view(&self) -> u8 {
        self.0
    }
}

impl EventPhaseSet {
    /// No phase is allowed.
    #[allow(non_snake_case)]
    pub fn NONE() -> (r: Self)
        ensures
            r@ == 0,
    {
        EventPhaseSet(0)
    }

    /// Ancestor trickle observation is allowed.
    #[allow(non_snake_case)]
    pub fn TRICKLE() -> (r: Self)
        ensures
            r@ == 1,
    {
        EventPhaseSet(1)
    }

    /// Target observation is allowed.
    #[allow(non_snake_case)]
    pub fn TARGET() -> (r: Self)
        ensures
            r@ == 2,
    {
        EventPhaseSet(2)
    }

    /// Bubble observation is allowed.
    #[allow(non_snake_case)]
    pub fn BUBBLE() -> (r: Self)
        ensures
            r@ == 4,
    {
        EventPhaseSet(4)
    }

    /// Every native propagation phase is allowed.
    #[allow(non_snake_case)]
    pub fn ALL() -> (r: Self)
        ensures
            r@ == 7,
    {
        EventPhaseSet(7)
    }

    /// Return the union of two sets.
    pub fn union(self, other: Self) -> (r: Self)
        ensures
            r@ == self@ | other@,
    {
        EventPhaseSet(self.0 | other.0)
    }

    /// Return whether a native dispatch phase is allowed.
    pub fn allows(self, phase: DispatchPhase) -> (r: bool)
        ensures
            r == (self@ & phase_bit(phase) != 0),
    {
        let required: u8 = match phase {
            DispatchPhase::Trickle => 1,
            DispatchPhase::Target => 2,
            DispatchPhase::Bubble => 4,
        };
        self.0 & required != 0
    }

    /// Return whether no phase is allowed.
    pub fn is_empty(self) -> (r: bool)
        ensures
            r == (self@ == 0),
    {
        self.0 == 0
    }
}

/// Filter forms a subscription may request for one event descriptor.
#[derive(Clone, Copy, Debug, PartialEq, Eq, Structural)]
pub struct EventFilterSet(u8);

impl View for EventFilterSet {
    type V = u8;

    closed spec fn view(&self) -> u8 {
        self.0
    }
}

impl EventFilterSet {
    /// Only unfiltered observation is allowed.
    #[allow(non_snake_case)]
    pub fn ANY() -> (r: Self)
        ensures
            r@ == 1,
    {
        EventFilterSet(1)
    }

    /// Pointer coordinates may be constrained to a logical rectangle.
    #[allow(non_snake_case)]
    pub fn POINTER_REGION() -> (r: Self)
        ensures
            r@ == 2,
    {
        EventFilterSet(2)
    }

    /// Return the union of two sets.
    pub fn union(self, other: Self) -> (r: Self)
        ensures
            r@ == self@ | other@,
    {
        EventFilterSet(self.0 | other.0)
    }

    /// Return whether every bit in `other` is present.
    pub fn contains(self, other: Self) -> (r: bool)
        ensures
            r == (self@ & other@ == other@),
    {
        self.0 & other.0 == other.0
    }

    /// Return whether no filter form is supported.
    pub fn is_empty(self) -> (r: bool)
        ensures
            r == (self@ == 0),
    {
        self.0 == 0
    }
}

/// One descriptor-first native semantic publication prepared during dispatch.
#[derive(Clone, Copy, Debug, PartialEq, Eq, Structural)]
pub struct NativeMutationPublication {
    /// Actor whose native semantic adapter emitted.
    pub object_id: ObjectId,
    /// Descriptor-declared director-visible effects.
    pub effects: MutationEffects,
}

/// One actor and its geometry captured before a possible native observation.
#[derive(Clone, Copy, Debug, PartialEq, Eq, Structural)]
pub struct NativePublicationTarget {
    /// Exact actor generation and type expected during dispatch.
    pub actor_identity: ActorIdentity,
    /// Canonical effective bounds captured while resolving the route.
    pub pre_dispatch_bounds: Rect,
}

/// Sealed descriptor-first publication produced by native observation.
///
/// Construction is crate-private so an armed Stage commit only receives
/// publications derived from its preflighted subscription workspace.
#[derive(Clone, Copy, Debug, PartialEq, Eq, Structural)]
pub struct NativeDispatchPublication {
    actor_identity: ActorIdentity,
    effects: MutationEffects,
    invalidation_bounds: Rect,
}

impl NativeDispatchPublication {
    /// Emitting actor, as a specification value.
    pub closed spec fn spec_actor_identity(self) -> ActorIdentity {
        self.actor_identity
    }

    /// Published effects, as a specification value.
    pub closed spec fn spec_effects(self) -> MutationEffects {
        self.effects
    }

    /// Invalidation bounds, as a specification value.
    pub closed spec fn spec_invalidation_bounds(self) -> Rect {
        self.invalidation_bounds
    }

    pub(crate) fn new(
        actor_identity: ActorIdentity,
        effects: MutationEffects,
        invalidation_bounds: Rect,
    ) -> (r: Self)
        ensures
            r.spec_actor_identity() == actor_identity,
            r.spec_effects() == effects,
            r.spec_invalidation_bounds() == invalidation_bounds,
    {
        NativeDispatchPublication { actor_identity, effects, invalidation_bounds }
    }

    /// Return the exact actor that emitted this publication.
    pub fn actor_identity(&self) -> (r: ActorIdentity)
        ensures
            r == self.spec_actor_identity(),
    {
        self.actor_identity
    }

    /// Return the descriptor-declared director-visible effects.
    pub fn effects(&self) -> (r: MutationEffects)
        ensures
            r == self.spec_effects(),
    {
        self.effects
    }

    /// Return the union of pre-dispatch and observed effective geometry.
    pub fn invalidation_bounds(&self) -> (r: Rect)
        ensures
            r == self.spec_invalidation_bounds(),
    {
        self.invalidation_bounds
    }
}

/// Allocation-owned Stage publication preparation made before native dispatch.
pub struct PreparedNativePublications {
    stage_id: StageId,
    starting_revision: StageRevision,
    next_revision: Option<StageRevision>,
    maximum_publications: usize,
    possible_effects: MutationEffects,
    targets: Vec<NativePublicationTarget>,
}

impl PreparedNativePublications {
    /// Owning Stage, as a specification value.
    pub closed spec fn spec_stage_id(&self) -> StageId {
        self.stage_id
    }

    /// Captured revision, as a specification value.
    pub closed spec fn spec_starting_revision(&self) -> StageRevision {
        self.starting_revision
    }

    /// Publication reservation, as a specification value.
    pub closed spec fn spec_maximum_publications(&self) -> usize {
        self.maximum_publications
    }

    /// Reserved targets, as a specification value.
    pub closed spec fn spec_targets(&self) -> Seq<NativePublicationTarget> {
        self.targets@
    }

    pub(crate) fn new(
        stage_id: StageId,
        starting_revision: StageRevision,
        next_revision: Option<StageRevision>,
        maximum_publications: usize,
        possible_effects: MutationEffects,
        targets: Vec<NativePublicationTarget>,
    ) -> (r: Self)
        ensures
            r.spec_stage_id() == stage_id,
            r.spec_starting_revision() == starting_revision,
            r.spec_maximum_publications() == maximum_publications,
            r.spec_targets() == targets@,
    {
        PreparedNativePublications {
            stage_id,
            starting_revision,
            next_revision,
            maximum_publications,
            possible_effects,
            targets,
        }
    }

    /// Return the Stage that owns this preparation.
    pub fn stage_id(&self) -> (r: StageId)
        ensures
            r == self.spec_stage_id(),
    {
        self.stage_id
    }

    /// Return the revision captured before dispatch.
    pub fn starting_revision(&self) -> (r: StageRevision)
        ensures
            r == self.spec_starting_revision(),
    {
        self.starting_revision
    }

    /// Return the maximum descriptor publications reserved for the traversal.
    pub fn maximum_publications(&self) -> (r: usize)
        ensures
            r == self.spec_maximum_publications(),
    {
        self.maximum_publications
    }
}

/// Fully refreshed native publication transaction ready for infallible commit.
pub struct NativePublicationCommit {
    prepared: PreparedNativePublications,
}

/// Committed native publication scratch retained through cue enqueue.
pub struct CompletedNativePublications {
    prepared: PreparedNativePublications,
}

impl CompletedNativePublications {
    /// Stage that accepted the publication, as a specification value.
    pub closed spec fn spec_stage_id(&self) -> StageId {
        self.prepared.spec_stage_id()
    }

    pub(crate) fn new(prepared: PreparedNativePublications) -> (r: Self)
        ensures
            r.spec_stage_id() == prepared.spec_stage_id(),
    {
        CompletedNativePublications { prepared }
    }

    /// Return the Stage that accepted the publication.
    pub fn stage_id(&self) -> (r: StageId)
        ensures
            r == self.spec_stage_id(),
    {
        self.prepared.stage_id()
    }
}

/// Conservative fixed resource cost advertised by a descriptor.
#[derive(Clone, Copy, Debug, PartialEq, Eq, Structural)]
pub struct ResourceCost {
    /// Text bytes reserved in addition to actual constructor text.
    pub text_bytes: u32,
    /// Non-text resource handles reserved for the actor.
    pub resources: u16,
}

/// Prepared actor-local state plus its exact change in stage-owned text bytes.
pub struct ActorPreparation<T> {
    /// Fully allocated state to publish.
    pub prepared: T,
    /// Signed delta relative to the actor's current durable text.
    pub text_delta: i64,
}

/// Type-erased, fully prepared actor mutation.
pub trait PreparedActorMutation {
    /// Exact change in stage-owned text bytes.
    fn text_delta(&self) -> i64;
    /// Confirm the actor can be borrowed for a callback-free commit window.
    fn ready(&self) -> bool;
    /// Infallibly swap the prepared and retired native states in place.
    fn commit(&mut self);
}

/// Stable constraint attached to a globally registered style property.
#[derive(Clone, Copy, Debug, PartialEq, Eq)]
pub enum StyleValueConstraint {
    /// The property's native type needs no additional scalar check.
    Unconstrained,
    /// Inclusive unsigned scalar range.
    U32 {
        /// Inclusive lower bound.
        min: u32,
        /// Inclusive upper bound.
        max: u32,
    },
    /// Inclusive signed scalar range.
    I32 {
        /// Inclusive lower bound.
        min: i32,
        /// Inclusive upper bound.
        max: i32,
    },
    /// Registered numeric enum domain and its accepted values.
    Enum {
        /// Stable enum-domain identifier.
        domain_id: u32,
        /// Canonical values in declaration order.
        values: &'static [u32],
    },
}

/// One globally registered named style part.
#[derive(Clone, Copy, Debug, PartialEq, Eq)]
pub struct StylePartIdentity {
    /// Stable native part identifier.
    pub id: u32,
    /// Stable source-level name.
    pub name: &'static str,
}

/// One globally registered style-state identity.
#[derive(Clone, Copy, Debug, PartialEq, Eq)]
pub struct StyleStateIdentity {
    /// Exact state bit, or zero for the DEFAULT selector.
    pub mask: u32,
    /// Stable source-level name.
    pub name: &'static str,
}

/// Rejection while resolving an actor-local style applicability row.
#[derive(Clone, Copy, Debug, PartialEq, Eq, Structural)]
pub enum StyleApplicabilityError {
    /// Part 7 is reserved or the part is not declared by this actor.
    UnknownPart,
    /// The exact selector contains an unknown or actor-disallowed state bit.
    InvalidStateMask,
    /// The global property is not applicable to the selected actor part.
    UnknownProperty,
}

/// Destination for one generic actor Create operation.
#[derive(Clone, Copy, Debug, PartialEq, Eq)]
pub enum CreateDestination<'a> {
    /// Create a named stage root.
    Root {
        /// Name unique within the stage.
        name: &'a str,
    },
    /// Attach the actor under an existing parent.
    Child {
        /// Generation-checked parent identifier.
        parent: ObjectId,
    },
}

/// Negotiated limits enforced before actor publication.
#[derive(Clone, Copy, Debug, PartialEq, Eq, Structural)]
pub struct RegistryLimits {
    /// Maximum simultaneous named roots.
    pub max_roots: usize,
    /// Maximum simultaneous live actors.
    pub max_actors: usize,
    /// Maximum root-inclusive tree depth.
    pub max_tree_depth: usize,
    /// Maximum direct children under one actor.
    pub max_children_per_actor: usize,
    /// Maximum stage-owned text bytes.
    pub max_text_bytes: u32,
    /// Maximum stage-owned non-text resources.
    pub max_resources: u16,
}

/// Current Stage Registry resource usage.
#[derive(Clone, Copy, Debug, PartialEq, Eq, Structural)]
pub struct RegistryUsage {
    /// Live named roots.
    pub roots: usize,
    /// Live actors including roots.
    pub actors: usize,
    /// Reserved text bytes.
    pub text_bytes: u32,
    /// Reserved non-text resources.
    pub resources: u16,
}

/// Capacity dimension that rejected a Create operation.
#[derive(Clone, Copy, Debug, PartialEq, Eq, Structural)]
pub enum CapacityKind {
    /// Named root limit.
    Roots,
    /// Live actor limit.
    Actors,
    /// Tree-depth limit.
    TreeDepth,
    /// Direct child limit.
    Children,
    /// Stage text budget.
    TextBytes,
    /// Stage non-text resource budget.
    Resources,
    /// Encoded native event payload budget.
    EventPayloadBytes,
    /// Pre-dispatch native publication invalidation reservation.
    NativeEventPublications,
    /// Retained output mappings for successful Create operations.
    ResultOutputs,
    /// Exact local-style selector storage.
    StyleSelectors,
    /// Bounded deterministic snapshot projection storage.
    SnapshotValues,
}

/// Public metadata associated with one live actor.
#[derive(Clone, Copy, Debug, PartialEq, Eq, Structural)]
pub struct ActorInfo {
    /// Stable generation-checked identifier.
    pub object_id: ObjectId,
    /// Registered actor type.
    pub type_id: TypeId,
    /// Parent identifier, or `None` for a named root.
    pub parent: Option<ObjectId>,
    /// Root-inclusive tree depth.
    pub depth: usize,
}

/// One committed Create output correlated to its submitted operation.
#[derive(Clone, Copy, Debug, PartialEq, Eq, Structural)]
pub struct CreateOutput {
    /// Submitted zero-based operation index.
    pub operation_index: u16,
    /// Raw nonzero batch-local binding supplied by Create.
    pub batch_ref: u16,
    /// Stable Object identity published by the successful commit.
    pub object_id: ObjectId,
}

/// One committed requested-layout echo correlated to its submitted operation.
#[derive(Clone, Debug, PartialEq, Eq)]
pub struct RequestedLayoutOutput {
    /// Submitted zero-based operation index.
    pub operation_index: u16,
    /// Exact canonical result body for the accepted requested layout.
    pub body: Vec<u8>,
}

/// Read-only deletion work discovered by a validated batch or Stage teardown.
///
/// Identifiers are unique and ordered exactly as native subtree retirement:
/// children precede their parent, while sibling and root order is stable.
#[derive(Clone, Debug, PartialEq, Eq)]
pub struct StageDeletionPreflight {
    stage_id: StageId,
    starting_revision: StageRevision,
    deleted_object_ids: Vec<ObjectId>,
}

impl StageDeletionPreflight {
    /// Reporting Stage, as a specification value.
    pub closed spec fn spec_stage_id(&self) -> StageId {
        self.stage_id
    }

    /// Observed revision, as a specification value.
    pub closed spec fn spec_starting_revision(&self) -> StageRevision {
        self.starting_revision
    }

    /// Deleted identities, as a specification value.
    pub closed spec fn spec_deleted(&self) -> Seq<ObjectId> {
        self.deleted_object_ids@
    }

    pub(crate) fn new(
        stage_id: StageId,
        starting_revision: StageRevision,
        deleted_object_ids: Vec<ObjectId>,
    ) -> (r: Self)
        ensures
            r.spec_stage_id() == stage_id,
            r.spec_starting_revision() == starting_revision,
            r.spec_deleted() == deleted_object_ids@,
    {
        StageDeletionPreflight { stage_id, starting_revision, deleted_object_ids }
    }

    /// Return the Stage that produced this report.
    pub fn stage_id(&self) -> (r: StageId)
        ensures
            r == self.spec_stage_id(),
    {
        self.stage_id
    }

    /// Return the Stage Revision observed during validation.
    pub fn starting_revision(&self) -> (r: StageRevision)
        ensures
            r == self.spec_starting_revision(),
    {
        self.starting_revision
    }

    /// Borrow exact unique deletion identities in child-first order.
    pub fn deleted_object_ids(&self) -> (r: &[ObjectId])
        ensures
            r@ == self.spec_deleted(),
    {
        self.deleted_object_ids.as_slice()
    }

    /// Return the exact number of deleted actor identities in the report.
    pub fn deletion_count(&self) -> (r: usize)
        ensures
            r == self.spec_deleted().len(),
    {
        self.deleted_object_ids.len()
    }
}

/// Planned state of one actor slot.
#[derive(Clone, Copy, Debug, PartialEq, Eq, Structural)]
pub enum PlannedSlot {
    /// The slot holds this live identity.
    Occupied(ObjectId),
    /// The slot is free and will be reused with this generation.
    Available(u32),
    /// The slot's generations are exhausted; it is never reused.
    Retired,
}

/// A slot chosen for a new actor.
#[derive(Clone, Copy, Debug, PartialEq, Eq, Structural)]
pub struct SlotReservation {
    /// Zero-based slot index.
    pub index: usize,
    /// Generation of the identity issued for the slot.
    pub generation: u32,
    /// Whether the slot lies past the slots that existed when planning began.
    pub append: bool,
}

/// Slot planning failure.
#[derive(Clone, Copy, Debug, PartialEq, Eq, Structural)]
pub enum SlotPlanError {
    /// Every slot is in use and the actor limit is reached.
    Capacity(CapacityKind),
    /// The identity does not name a live slot of the plan.
    Internal,
}

/// Lowest generation a slot can still issue: a retired slot issues none.
pub open spec fn generation_floor(slot: PlannedSlot) -> int {
    match slot {
        PlannedSlot::Occupied(id) => object_generation(id@) as int,
        PlannedSlot::Available(g) => g as int,
        PlannedSlot::Retired => u32::MAX as int + 1,
    }
}

/// Index of the first available slot, if any.
pub open spec fn first_available(slots: Seq<PlannedSlot>) -> Option<int> {
    if exists|k: int| 0 <= k < slots.len() && slots[k] is Available {
        Some(choose|k: int| 0 <= k < slots.len() && slots[k] is Available && forall|j: int| 0 <= j < k ==> !(slots[j] is Available))
    } else {
        None
    }
}

proof fn lemma_least_available(slots: Seq<PlannedSlot>, w: int)
    requires
        0 <= w < slots.len(),
        slots[w] is Available,
    ensures
        exists|k: int| 0 <= k < slots.len() && slots[k] is Available && forall|j: int| 0 <= j < k ==> !(slots[j] is Available),
    decreases w,
{
    if exists|j: int| 0 <= j < w && slots[j] is Available {
        let j = choose|j: int| 0 <= j < w && slots[j] is Available;
        lemma_least_available(slots, j);
    }
}

/// The first available slot is available and no earlier slot is.
pub(crate) proof fn lemma_first_available(slots: Seq<PlannedSlot>)
    ensures
        first_available(slots) matches Some(k) ==> 0 <= k < slots.len() && slots[k] is Available
            && forall|j: int| 0 <= j < k ==> !(slots[j] is Available),
{
    if exists|k: int| 0 <= k < slots.len() && slots[k] is Available {
        let w = choose|k: int| 0 <= k < slots.len() && slots[k] is Available;
        lemma_least_available(slots, w);
    }
}

/// Every occupied slot holds an identity naming that slot, and every
/// available slot carries a nonzero generation.
pub open spec fn slots_consistent(slots: Seq<PlannedSlot>) -> bool {
    &&& slots.len() < u32::MAX
    &&& forall|k: int| 0 <= k < slots.len() ==> match #[trigger] slots[k] {
        PlannedSlot::Occupied(id) => object_slot(id@) == k + 1,
        PlannedSlot::Available(g) => g != 0,
        PlannedSlot::Retired => true,
    }
}

/// The reservation and slot table after one allocation from `slots`, or the
/// capacity refusal: the first available slot is reused with its stored
/// generation, otherwise a slot with generation 1 is appended below
/// `maximum`.
pub open spec fn allocation(slots: Seq<PlannedSlot>, initial_len: usize, maximum: usize) -> Result<(SlotReservation, Seq<PlannedSlot>), SlotPlanError> {
    match first_available(slots) {
        Some(k) => Ok((
            SlotReservation { index: k as usize, generation: generation_floor(slots[k]) as u32, append: k >= initial_len },
            slots.update(k, PlannedSlot::Occupied(identity(generation_floor(slots[k]) as u32, (k + 1) as u32))),
        )),
        None => if slots.len() >= maximum {
            Err(SlotPlanError::Capacity(CapacityKind::Actors))
        } else {
            Ok((
                SlotReservation { index: slots.len() as usize, generation: 1, append: true },
                slots.push(PlannedSlot::Occupied(identity(1, (slots.len() + 1) as u32))),
            ))
        },
    }
}

/// Transactional planner for actor slots and their generations.
pub struct SlotPlanner {
    slots: Vec<PlannedSlot>,
    initial_len: usize,
    maximum: usize,
}

impl SlotPlanner {
    /// The planned slots.
    pub closed spec fn slots(&self) -> Seq<PlannedSlot> {
        self.slots@
    }

    /// Number of slots when planning began.
    pub closed spec fn initial_len(&self) -> usize {
        self.initial_len
    }

    /// Actor limit: slots are never appended beyond it.
    pub closed spec fn maximum(&self) -> usize {
        self.maximum
    }

    /// Start planning from the current slots and the actor limit.
    pub fn new(slots: Vec<PlannedSlot>, maximum: usize) -> (r: Self)
        ensures
            r.slots() == slots@,
            r.initial_len() == slots@.len(),
            r.maximum() == maximum,
    {
        let initial_len = slots.len();
        SlotPlanner { slots, initial_len, maximum }
    }

    /// Reserve a slot: the first available slot is reused with its stored
    /// generation; otherwise a new slot with generation 1 is appended, unless
    /// the actor limit is reached.
    pub fn allocate(&mut self) -> (r: Result<SlotReservation, SlotPlanError>)
        requires
            slots_consistent(old(self).slots()),
            old(self).maximum() < u32::MAX,
        ensures
            final(self).initial_len() == old(self).initial_len(),
            final(self).maximum() == old(self).maximum(),
            slots_consistent(final(self).slots()),
            match allocation(old(self).slots(), old(self).initial_len(), old(self).maximum()) {
                Ok((res, after)) => r == Ok::<SlotReservation, SlotPlanError>(res) && final(self).slots() == after,
                Err(e) => r == Err::<SlotReservation, SlotPlanError>(e) && final(self).slots() == old(self).slots(),
            },
            match first_available(old(self).slots()) {
                Some(k) => {
                    &&& r matches Ok(res) && res.index == k && res.append == (k >= old(self).initial_len())
                        && res.generation == generation_floor(old(self).slots()[k])
                    &&& final(self).slots().len() == old(self).slots().len()
                    &&& final(self).slots()[k] matches PlannedSlot::Occupied(id) && object_generation(id@)
                        == generation_floor(old(self).slots()[k]) && object_slot(id@) == k + 1
                    &&& forall|j: int| 0 <= j < old(self).slots().len() && j != k ==> final(self).slots()[j]
                        == old(self).slots()[j]
                },
                None => if old(self).slots().len() >= old(self).maximum() {
                    &&& r == Err::<SlotReservation, SlotPlanError>(SlotPlanError::Capacity(CapacityKind::Actors))
                    &&& final(self).slots() == old(self).slots()
                } else {
                    let k = old(self).slots().len() as int;
                    &&& r matches Ok(res) && res.index == k && res.generation == 1 && res.append
                    &&& final(self).slots().len() == k + 1
                    &&& final(self).slots().take(k) == old(self).slots()
                    &&& final(self).slots()[k] matches PlannedSlot::Occupied(id) && object_generation(id@)
                        == 1 && object_slot(id@) == k + 1
                },
            },
    {
        let mut i: usize = 0;
        while i < self.slots.len()
            invariant
                i <= self.slots@.len(),
                forall|j: int| 0 <= j < i ==> !(self.slots@[j] is Available),
                self.slots@ == old(self).slots@,
                self.initial_len == old(self).initial_len,
                self.maximum == old(self).maximum,
                slots_consistent(self.slots@),
                self.maximum < u32::MAX,
            decreases self.slots@.len() - i,
        {
            if let PlannedSlot::Available(generation) = self.slots[i] {
                proof {
                    assert(self.slots@[i as int] is Available);
                    let fa = first_available(self.slots@);
                    assert(fa == Some(i as int)) by {
                        let c = choose|k: int| 0 <= k < self.slots@.len() && self.slots@[k] is Available
                            && forall|j: int| 0 <= j < k ==> !(self.slots@[j] is Available);
                        assert(0 <= c < self.slots@.len() && self.slots@[c] is Available
                            && forall|j: int| 0 <= j < c ==> !(self.slots@[j] is Available));
                        if c < i {
                        } else if c > i {
                            assert(!(self.slots@[i as int] is Available));
                        }
                    }
                    assert(self.slots@[i as int] == PlannedSlot::Available(generation));
                    assert(generation != 0);
                }
                let object_id = ObjectId::from_parts(generation, i as u32);
                let ghost before = self.slots@;
                self.slots.set(i, PlannedSlot::Occupied(object_id));
                proof {
                    assert(self.slots@ =~= before.update(i as int, PlannedSlot::Occupied(identity(generation_floor(before[i as int]) as u32, (i + 1) as u32))));
                    assert forall|k: int| 0 <= k < self.slots@.len() implies match #[trigger] self.slots@[k] {
                        PlannedSlot::Occupied(id) => object_slot(id@) == k + 1,
                        PlannedSlot::Available(g) => g != 0,
                        PlannedSlot::Retired => true,
                    } by {
                        if k != i {
                            assert(self.slots@[k] == before[k]);
                        }
                    }
                }
                return Ok(SlotReservation { index: i, generation, append: i >= self.initial_len });
            }
            i = i + 1;
        }
        proof {
            assert(first_available(self.slots@) is None);
        }
        if self.slots.len() >= self.maximum {
            return Err(SlotPlanError::Capacity(CapacityKind::Actors));
        }
        let index = self.slots.len();
        let object_id = ObjectId::from_parts(1, index as u32);
        let ghost before = self.slots@;
        self.slots.push(PlannedSlot::Occupied(object_id));
        proof {
            assert(self.slots@ =~= before.push(PlannedSlot::Occupied(identity(1, (before.len() + 1) as u32))));
            assert(self.slots@.take(index as int) =~= before);
            assert forall|k: int| 0 <= k < self.slots@.len() implies match #[trigger] self.slots@[k] {
                PlannedSlot::Occupied(id) => object_slot(id@) == k + 1,
                PlannedSlot::Available(g) => g != 0,
                PlannedSlot::Retired => true,
            } by {
                if k < index {
                    assert(self.slots@[k] == before[k]);
                }
            }
        }
        Ok(SlotReservation { index, generation: 1, append: true })
    }

    /// Release the live identity `object_id`: its slot becomes available with
    /// the next generation, or retired when the generation space is spent.
    pub fn retire(&mut self, object_id: ObjectId) -> (r: Result<(), SlotPlanError>)
        requires
            slots_consistent(old(self).slots()),
        ensures
            final(self).initial_len() == old(self).initial_len(),
            final(self).maximum() == old(self).maximum(),
            slots_consistent(final(self).slots()),
            ({
                let k = object_slot(object_id@) - 1;
                let live = 0 <= k < old(self).slots().len() && old(self).slots()[k] == PlannedSlot::Occupied(object_id);
                &&& r is Ok <==> live
                &&& r matches Err(e) ==> e == SlotPlanError::Internal && final(self).slots() == old(self).slots()
                &&& live ==> final(self).slots() == old(self).slots().update(
                    k,
                    if object_generation(object_id@) == u32::MAX {
                        PlannedSlot::Retired
                    } else {
                        PlannedSlot::Available((object_generation(object_id@) + 1) as u32)
                    },
                )
            }),
    {
        let index = object_id.slot_index();
        if index >= self.slots.len() {
            return Err(SlotPlanError::Internal);
        }
        let current = self.slots[index];
        let live = match current {
            PlannedSlot::Occupied(id) => id == object_id,
            _ => false,
        };
        if !live {
            return Err(SlotPlanError::Internal);
        }
        let generation = object_id.generation();
        let next = if generation == u32::MAX {
            PlannedSlot::Retired
        } else {
            PlannedSlot::Available(generation + 1)
        };
        let ghost before = self.slots@;
        self.slots.set(index, next);
        proof {
            assert forall|k: int| 0 <= k < self.slots@.len() implies match #[trigger] self.slots@[k] {
                PlannedSlot::Occupied(id) => object_slot(id@) == k + 1,
                PlannedSlot::Available(g) => g != 0,
                PlannedSlot::Retired => true,
            } by {
                if k != index {
                    assert(self.slots@[k] == before[k]);
                }
            }
        }
        Ok(())
    }

    /// Number of slots the plan may need.
    pub fn maximum_len(&self) -> (r: usize)
        ensures
            r == self.slots().len(),
    {
        self.slots.len()
    }
}

/// Allocation never lowers a slot's generation floor, and the identity it
/// issues carries exactly the floor of the slot it takes.
pub proof fn lemma_allocation_keeps_generation_floors(
    before: Seq<PlannedSlot>,
    after: Seq<PlannedSlot>,
    k: int,
    id: ObjectId,
)
    requires
        0 <= k < before.len(),
        before[k] is Available,
        after.len() == before.len(),
        after[k] == PlannedSlot::Occupied(id),
        object_generation(id@) == generation_floor(before[k]),
        forall|j: int| 0 <= j < before.len() && j != k ==> after[j] == before[j],
    ensures
        forall|j: int| 0 <= j < before.len() ==> generation_floor(#[trigger] after[j]) == generation_floor(before[j]),
{
}

/// Retiring an identity raises its slot's generation floor above the
/// identity's generation, so the identity is never issued again.
pub proof fn lemma_retire_raises_generation_floor(before: Seq<PlannedSlot>, id: ObjectId)
    requires
        0 <= object_slot(id@) - 1 < before.len(),
        before[object_slot(id@) - 1] == PlannedSlot::Occupied(id),
    ensures
        ({
            let k = object_slot(id@) - 1;
            let next = if object_generation(id@) == u32::MAX {
                PlannedSlot::Retired
            } else {
                PlannedSlot::Available((object_generation(id@) + 1) as u32)
            };
            generation_floor(before.update(k, next)[k]) > object_generation(id@)
        }),
{
}

/// Parent/child policy declared by an actor type.
#[derive(Clone, Copy, Debug, PartialEq, Eq)]
pub enum ChildPolicy {
    /// Actor cannot contain script-visible child actors.
    NoChildren,
    /// Actor accepts any registered actor type.
    AnyActor,
    /// Actor accepts children carrying the specified capability set.
    Capability(ActorCapabilities),
    /// Actor accepts only the listed type identifiers.
    Explicit(&'static [TypeId]),
}

impl ChildPolicy {
    /// Whether a child of type `child_type` with `child_capabilities` may be
    /// attached under this policy.
    pub fn allows(self, child_type: TypeId, child_capabilities: ActorCapabilities) -> (r: bool)
        ensures
            r == match self {
                ChildPolicy::NoChildren => false,
                ChildPolicy::AnyActor => true,
                ChildPolicy::Capability(c) => child_capabilities@ & c@ == c@,
                ChildPolicy::Explicit(types) => types@.contains(child_type),
            },
    {
        match self {
            ChildPolicy::NoChildren => false,
            ChildPolicy::AnyActor => true,
            ChildPolicy::Capability(capability) => child_capabilities.contains(capability),
            ChildPolicy::Explicit(types) => {
                let mut i: usize = 0;
                while i < types.len()
                    invariant
                        self == ChildPolicy::Explicit(types),
                        i <= types@.len(),
                        forall|j: int| 0 <= j < i ==> types@[j] != child_type,
                    decreases types@.len() - i,
                {
                    if types[i] == child_type {
                        assert(types@[i as int] == child_type);
                        return true;
                    }
                    i = i + 1;
                }
                false
            },
        }
    }
}

/// Discoverable property schema entry.
#[derive(Clone, Copy, Debug, PartialEq, Eq)]
pub struct PropertyDescriptor {
    /// Stable property identifier.
    pub id: u32,
    /// Stable source-level property name.
    pub name: &'static str,
    /// Property value tag.
    pub value_tag: ValueTag,
    /// Property access mode.
    pub access: PropertyAccess,
    /// Reset behavior.
    pub default: PropertyDefault,
    /// Scalar constraint checked before native preparation.
    pub constraint: PropertyConstraint,
    /// Capabilities required on the owning actor.
    pub required_capabilities: ActorCapabilities,
    /// Commit effects.
    pub effects: MutationEffects,
}

/// Discoverable action schema entry.
#[derive(Clone, Copy, Debug, PartialEq, Eq)]
pub struct ActionDescriptor {
    /// Stable action identifier.
    pub id: u32,
    /// Stable source-level action name.
    pub name: &'static str,
    /// Ordered argument value tags.
    pub arguments: &'static [ValueTag],
    /// Ordered result value tags.
    pub results: &'static [ValueTag],
    /// Batch participation class.
    pub transaction: ActionTransaction,
    /// Capabilities required on the owning actor.
    pub required_capabilities: ActorCapabilities,
    /// Commit effects.
    pub effects: MutationEffects,
}

/// Stage registry failure.
#[derive(Clone, Copy, Debug, PartialEq, Eq, Structural)]
pub enum RegistryError {
    /// Stage identifier or configured limits are invalid.
    InvalidStage,
    /// Static catalog contains a duplicate or malformed declaration.
    InvalidCatalog,
    /// Requested actor type is not present in the catalog.
    UnknownType {
        /// Requested type identifier.
        type_id: TypeId,
    },
    /// Constructor field is not declared by the actor.
    UnknownField {
        /// Unrecognized field identifier.
        field_id: u32,
    },
    /// Requested property is not declared by the actor.
    UnknownProperty {
        /// Unrecognized property identifier.
        property_id: u32,
    },
    /// Requested action is not declared by the actor.
    UnknownAction {
        /// Unrecognized action identifier.
        action_id: u32,
    },
    /// Requested event is not declared by the actor.
    UnknownEvent {
        /// Unrecognized event identifier.
        event_id: u32,
    },
    /// Required constructor field is absent.
    MissingField {
        /// Missing field identifier.
        field_id: u32,
    },
    /// Constructor field appears more than once.
    DuplicateField {
        /// Repeated field identifier.
        field_id: u32,
    },
    /// A value carries the wrong tag.
    TypeMismatch {
        /// Field with the mismatch.
        field_id: u32,
        /// Descriptor-required tag.
        expected: ValueTag,
        /// Supplied tag.
        actual: ValueTag,
    },
    /// A value is outside its accepted range.
    Range {
        /// Field outside its range.
        field_id: u32,
    },
    /// An operation-scoped, unkeyed command value is outside its range.
    RangeValue,
    /// Attempted mutation targets a read-only descriptor field.
    ReadOnlyField {
        /// Descriptor-local field identifier.
        field_id: u32,
    },
    /// Attempted mutation targets read-only state.
    ReadOnly,
    /// A described direction is not implemented by this runtime profile.
    Unsupported,
    /// An action's declared result schema is unsupported by atomic invocation.
    UnsupportedAction {
        /// Descriptor-local action identifier.
        action_id: u32,
    },
    /// A command group is structurally valid but cannot be committed atomically.
    BatchInvalid,
    /// A keyed descriptor field cannot participate in the requested batch.
    BatchInvalidField {
        /// Descriptor-local field identifier.
        field_id: u32,
    },
    /// A native widget borrow prevents entering an atomic director turn.
    DispatchBusy,
    /// Root or parent policy rejects the requested relationship.
    InvalidParent,
    /// Named root already exists.
    DuplicateRoot,
    /// Object handle is deleted, unknown, or generation-stale.
    StaleObject {
        /// Rejected handle.
        object_id: ObjectId,
    },
    /// A stable keyed-field reference is stale at its descriptor field.
    StaleObjectField {
        /// Descriptor-local field identifier.
        field_id: u32,
        /// Rejected handle.
        object_id: ObjectId,
    },
    /// Negotiated capacity would be exceeded.
    Capacity {
        /// Exhausted capacity dimension.
        kind: CapacityKind,
    },
    /// Stage has been torn down and accepts no further operations.
    StageClosed,
    /// Internal registry metadata and object tree disagree.
    Internal,
}

/// Position of the first property with identifier `id` at or after `i`.
pub open spec fn property_index(ps: Seq<PropertyDescriptor>, id: u32, i: int) -> Option<int>
    decreases ps.len() - i,
{
    if i < 0 || i >= ps.len() {
        None
    } else if ps[i].id == id {
        Some(i)
    } else {
        property_index(ps, id, i + 1)
    }
}

/// Position of the first action with identifier `id` at or after `i`.
pub open spec fn action_index(acts: Seq<ActionDescriptor>, id: u32, i: int) -> Option<int>
    decreases acts.len() - i,
{
    if i < 0 || i >= acts.len() {
        None
    } else if acts[i].id == id {
        Some(i)
    } else {
        action_index(acts, id, i + 1)
    }
}

/// A value tagged `actual` may fill a slot typed `expected`; in a batch
/// context an object slot also takes a batch-local object reference.
pub open spec fn tag_admits(expected: ValueTag, actual: ValueTag, allow_batch_object: bool) -> bool {
    actual == expected || (allow_batch_object && expected == ValueTag::Object && (actual == ValueTag::Object
        || actual == ValueTag::BatchObject))
}

/// The range failure of `value` against the constraint of `p`, if any.
pub open spec fn constraint_error(p: PropertyDescriptor, value: OwnedValue) -> Option<RegistryError> {
    let ok = match p.constraint {
        PropertyConstraint::Unconstrained => true,
        PropertyConstraint::I32 { min, max } => value matches OwnedValue::I32(x) && min <= x && x <= max,
        PropertyConstraint::TextBytes { max } => value matches OwnedValue::Text(t) && encode_utf8(t@).len() <= max,
    };
    if ok {
        None
    } else {
        Some(RegistryError::Range { field_id: p.id })
    }
}

/// The first argument in `args[i..]` whose tag `expected` does not admit.
pub open spec fn argument_error(
    expected: Seq<ValueTag>,
    args: Seq<OwnedValue>,
    id: u32,
    allow_batch_object: bool,
    i: int,
) -> Option<RegistryError>
    decreases args.len() - i,
{
    if i < 0 || i >= args.len() || i >= expected.len() {
        None
    } else if !tag_admits(expected[i], owned_tag(args[i]), allow_batch_object) {
        Some(RegistryError::TypeMismatch { field_id: id, expected: expected[i], actual: owned_tag(args[i]) })
    } else {
        argument_error(expected, args, id, allow_batch_object, i + 1)
    }
}

/// The failure of one actor-local direction against a descriptor's
/// properties and actions, if any.
pub open spec fn direction_error(
    ps: Seq<PropertyDescriptor>,
    acts: Seq<ActionDescriptor>,
    d: ActorDirection,
    allow_batch_object: bool,
) -> Option<RegistryError> {
    match d {
        ActorDirection::SetProperty { id, value } => match property_index(ps, id, 0) {
            None => Some(RegistryError::UnknownProperty { property_id: id }),
            Some(k) => if ps[k].access != PropertyAccess::ReadWrite {
                Some(RegistryError::ReadOnlyField { field_id: id })
            } else if !tag_admits(ps[k].value_tag, owned_tag(value), allow_batch_object) {
                Some(RegistryError::TypeMismatch { field_id: id, expected: ps[k].value_tag, actual: owned_tag(value) })
            } else {
                constraint_error(ps[k], value)
            },
        },
        ActorDirection::ResetProperty { id } => match property_index(ps, id, 0) {
            None => Some(RegistryError::UnknownProperty { property_id: id }),
            Some(k) => if ps[k].access != PropertyAccess::ReadWrite {
                Some(RegistryError::ReadOnlyField { field_id: id })
            } else {
                None
            },
        },
        ActorDirection::InvokeAction { id, arguments } => match action_index(acts, id, 0) {
            None => Some(RegistryError::UnknownAction { action_id: id }),
            Some(k) => if acts[k].transaction == ActionTransaction::BatchForbidden {
                Some(RegistryError::BatchInvalidField { field_id: id })
            } else if acts[k].results@.len() != 0 {
                Some(RegistryError::UnsupportedAction { action_id: id })
            } else if acts[k].arguments@.len() != arguments@.len() {
                Some(RegistryError::BatchInvalidField { field_id: id })
            } else {
                argument_error(acts[k].arguments@, arguments@, id, allow_batch_object, 0)
            },
        },
    }
}

/// The failure of the first failing direction in `ds[i..]`, if any.
pub open spec fn directions_error(
    ps: Seq<PropertyDescriptor>,
    acts: Seq<ActionDescriptor>,
    ds: Seq<ActorDirection>,
    allow_batch_object: bool,
    i: int,
) -> Option<RegistryError>
    decreases ds.len() - i,
{
    if i < 0 || i >= ds.len() {
        None
    } else {
        match direction_error(ps, acts, ds[i], allow_batch_object) {
            Some(e) => Some(e),
            None => directions_error(ps, acts, ds, allow_batch_object, i + 1),
        }
    }
}

proof fn lemma_property_index(ps: Seq<PropertyDescriptor>, id: u32, i: int)
    requires
        0 <= i,
        property_index(ps, id, i) is Some,
    ensures
        i <= property_index(ps, id, i).unwrap() < ps.len(),
    decreases ps.len() - i,
{
    if i < ps.len() && ps[i].id != id {
        lemma_property_index(ps, id, i + 1);
    }
}

proof fn lemma_action_index(acts: Seq<ActionDescriptor>, id: u32, i: int)
    requires
        0 <= i,
        action_index(acts, id, i) is Some,
    ensures
        i <= action_index(acts, id, i).unwrap() < acts.len(),
    decreases acts.len() - i,
{
    if i < acts.len() && acts[i].id != id {
        lemma_action_index(acts, id, i + 1);
    }
}

pub(crate) fn find_property(ps: &[PropertyDescriptor], id: u32) -> (r: Option<usize>)
    ensures
        match r {
            Some(k) => property_index(ps@, id, 0) == Some(k as int) && k < ps@.len(),
            None => property_index(ps@, id, 0) is None,
        },
{
    let mut i: usize = 0;
    while i < ps.len()
        invariant
            i <= ps@.len(),
            property_index(ps@, id, 0) == property_index(ps@, id, i as int),
        decreases ps@.len() - i,
    {
        if ps[i].id == id {
            return Some(i);
        }
        i = i + 1;
    }
    None
}

pub(crate) fn find_action(acts: &[ActionDescriptor], id: u32) -> (r: Option<usize>)
    ensures
        match r {
            Some(k) => action_index(acts@, id, 0) == Some(k as int) && k < acts@.len(),
            None => action_index(acts@, id, 0) is None,
        },
{
    let mut i: usize = 0;
    while i < acts.len()
        invariant
            i <= acts@.len(),
            action_index(acts@, id, 0) == action_index(acts@, id, i as int),
        decreases acts@.len() - i,
    {
        if acts[i].id == id {
            return Some(i);
        }
        i = i + 1;
    }
    None
}

fn admits(expected: ValueTag, actual: ValueTag, allow_batch_object: bool) -> (r: bool)
    ensures
        r == tag_admits(expected, actual, allow_batch_object),
{
    actual == expected || (allow_batch_object && expected == ValueTag::Object && (actual == ValueTag::Object
        || actual == ValueTag::BatchObject))
}

/// Check `value` against the scalar constraint of `descriptor`.
pub fn validate_property_constraint(descriptor: &PropertyDescriptor, value: &OwnedValue) -> (r: Result<(), RegistryError>)
    ensures
        match constraint_error(*descriptor, *value) {
            None => r is Ok,
            Some(e) => r == Err::<(), RegistryError>(e),
        },
{
    let ok = match descriptor.constraint {
        PropertyConstraint::Unconstrained => true,
        PropertyConstraint::I32 { min, max } => match value {
            OwnedValue::I32(x) => min <= *x && *x <= max,
            _ => false,
        },
        PropertyConstraint::TextBytes { max } => match value {
            OwnedValue::Text(t) => t.as_str().as_bytes().len() as u64 <= max as u64,
            _ => false,
        },
    };
    if ok {
        Ok(())
    } else {
        Err(RegistryError::Range { field_id: descriptor.id })
    }
}

/// Validate actor-local directions against a descriptor's properties and
/// actions, in order; the first failing direction decides the error.
///
/// With `allow_batch_object`, an object-typed slot also accepts a
/// batch-local object reference.
pub fn validate_actor_directions_with_context(
    properties: &[PropertyDescriptor],
    actions: &[ActionDescriptor],
    directions: &[ActorDirection],
    allow_batch_object: bool,
) -> (r: Result<(), RegistryError>)
    ensures
        match directions_error(properties@, actions@, directions@, allow_batch_object, 0) {
            None => r is Ok,
            Some(e) => r == Err::<(), RegistryError>(e),
        },
{
    let mut i: usize = 0;
    while i < directions.len()
        invariant
            i <= directions@.len(),
            directions_error(properties@, actions@, directions@, allow_batch_object, 0) == directions_error(
                properties@,
                actions@,
                directions@,
                allow_batch_object,
                i as int,
            ),
        decreases directions@.len() - i,
    {
        let r = validate_one_direction(properties, actions, &directions[i], allow_batch_object);
        match r {
            Ok(()) => {},
            Err(e) => {
                return Err(e);
            },
        }
        i = i + 1;
    }
    Ok(())
}

fn validate_one_direction(
    properties: &[PropertyDescriptor],
    actions: &[ActionDescriptor],
    direction: &ActorDirection,
    allow_batch_object: bool,
) -> (r: Result<(), RegistryError>)
    ensures
        match direction_error(properties@, actions@, *direction, allow_batch_object) {
            None => r is Ok,
            Some(e) => r == Err::<(), RegistryError>(e),
        },
{
    match direction {
        ActorDirection::SetProperty { id, value } => {
            let k = match find_property(properties, *id) {
                Some(k) => k,
                None => return Err(RegistryError::UnknownProperty { property_id: *id }),
            };
            let property = &properties[k];
            if property.access != PropertyAccess::ReadWrite {
                return Err(RegistryError::ReadOnlyField { field_id: *id });
            }
            let actual = value.tag();
            if !admits(property.value_tag, actual, allow_batch_object) {
                return Err(RegistryError::TypeMismatch { field_id: *id, expected: property.value_tag, actual });
            }
            validate_property_constraint(property, value)
        },
        ActorDirection::ResetProperty { id } => {
            let k = match find_property(properties, *id) {
                Some(k) => k,
                None => return Err(RegistryError::UnknownProperty { property_id: *id }),
            };
            if properties[k].access != PropertyAccess::ReadWrite {
                return Err(RegistryError::ReadOnlyField { field_id: *id });
            }
            let _ = properties[k].default.owned();
            Ok(())
        },
        ActorDirection::InvokeAction { id, arguments } => {
            let k = match find_action(actions, *id) {
                Some(k) => k,
                None => return Err(RegistryError::UnknownAction { action_id: *id }),
            };
            let action = &actions[k];
            if action.transaction == ActionTransaction::BatchForbidden {
                return Err(RegistryError::BatchInvalidField { field_id: *id });
            }
            if action.results.len() != 0 {
                return Err(RegistryError::UnsupportedAction { action_id: *id });
            }
            if action.arguments.len() != arguments.len() {
                return Err(RegistryError::BatchInvalidField { field_id: *id });
            }
            let mut j: usize = 0;
            proof {
                assert(direction_error(properties@, actions@, *direction, allow_batch_object) == argument_error(
                    action.arguments@,
                    arguments@,
                    *id,
                    allow_batch_object,
                    0,
                ));
            }
            while j < arguments.len()
                invariant
                    direction_error(properties@, actions@, *direction, allow_batch_object) == argument_error(
                        action.arguments@,
                        arguments@,
                        *id,
                        allow_batch_object,
                        0,
                    ),
                    j <= arguments@.len(),
                    arguments@.len() == action.arguments@.len(),
                    argument_error(action.arguments@, arguments@, *id, allow_batch_object, 0) == argument_error(
                        action.arguments@,
                        arguments@,
                        *id,
                        allow_batch_object,
                        j as int,
                    ),
                decreases arguments@.len() - j,
            {
                let expected = action.arguments[j];
                let actual = arguments[j].tag();
                if !admits(expected, actual, allow_batch_object) {
                    return Err(RegistryError::TypeMismatch { field_id: *id, expected, actual });
                }
                j = j + 1;
            }
            Ok(())
        },
    }
}

/// Validate actor-local directions outside a batch.
pub fn validate_actor_directions(
    properties: &[PropertyDescriptor],
    actions: &[ActionDescriptor],
    directions: &[ActorDirection],
) -> (r: Result<(), RegistryError>)
    ensures
        match directions_error(properties@, actions@, directions@, false, 0) {
            None => r is Ok,
            Some(e) => r == Err::<(), RegistryError>(e),
        },
{
    validate_actor_directions_with_context(properties, actions, directions, false)
}

/// Validate actor-local directions inside an atomic batch, where object
/// slots also take batch-local object references.
pub fn validate_atomic_actor_directions(
    properties: &[PropertyDescriptor],
    actions: &[ActionDescriptor],
    directions: &[ActorDirection],
) -> (r: Result<(), RegistryError>)
    ensures
        match directions_error(properties@, actions@, directions@, true, 0) {
            None => r is Ok,
            Some(e) => r == Err::<(), RegistryError>(e),
        },
{
    validate_actor_directions_with_context(properties, actions, directions, true)
}

impl PropertyDefault {
    /// The wire tag of the default value, or `None` when the default is absent.
    pub fn tag(self) -> (r: Option<ValueTag>)
        ensures
            r == match self {
                PropertyDefault::Absent => None,
                PropertyDefault::Bool(_) => Some(ValueTag::Bool),
                PropertyDefault::I32(_) => Some(ValueTag::I32),
                PropertyDefault::U32(_) => Some(ValueTag::U32),
                PropertyDefault::Text(_) => Some(ValueTag::Text),
            },
    {
        match self {
            PropertyDefault::Absent => None,
            PropertyDefault::Bool(_) => Some(ValueTag::Bool),
            PropertyDefault::I32(_) => Some(ValueTag::I32),
            PropertyDefault::U32(_) => Some(ValueTag::U32),
            PropertyDefault::Text(_) => Some(ValueTag::Text),
        }
    }
}

/// Whether a declared default meets the declared constraint.
pub open spec fn default_meets_constraint(default: PropertyDefault, constraint: PropertyConstraint) -> bool {
    match default {
        PropertyDefault::Absent => true,
        _ => match constraint {
            PropertyConstraint::Unconstrained => true,
            PropertyConstraint::I32 { min, max } => default matches PropertyDefault::I32(v) && min <= v && v <= max,
            PropertyConstraint::TextBytes { max } => default matches PropertyDefault::Text(t) && encode_utf8(t@).len() <= max,
        },
    }
}

/// A declared integer default meets an integer range exactly when it lies
/// within the range, bounds included; a default of any other type never
/// meets it, and an absent default always does.
pub proof fn lemma_i32_default_within_range(default: PropertyDefault, min: i32, max: i32)
    ensures
        default_meets_constraint(default, PropertyConstraint::I32 { min, max }) <==> match default {
            PropertyDefault::Absent => true,
            PropertyDefault::I32(v) => min <= v && v <= max,
            _ => false,
        },
        default matches PropertyDefault::I32(v) && (v < min || v > max) ==> !default_meets_constraint(
            default,
            PropertyConstraint::I32 { min, max },
        ),
{
}

/// A declared text default meets a text limit exactly when its UTF-8
/// encoding is no longer than the limit; a default of any other type never
/// meets it; any default meets an unconstrained property.
pub proof fn lemma_text_default_within_limit(default: PropertyDefault, max: u32)
    ensures
        default_meets_constraint(default, PropertyConstraint::TextBytes { max }) <==> match default {
            PropertyDefault::Absent => true,
            PropertyDefault::Text(t) => encode_utf8(t@).len() <= max,
            _ => false,
        },
        default_meets_constraint(default, PropertyConstraint::Unconstrained),
{
}

/// Whether `default` meets `constraint`: an absent default and an
/// unconstrained property always do; otherwise the default must have the
/// constrained type and lie within its bounds.
pub fn property_default_satisfies_constraint(default: PropertyDefault, constraint: PropertyConstraint) -> (r: bool)
    ensures
        r == default_meets_constraint(default, constraint),
{
    match default {
        PropertyDefault::Absent => true,
        _ => match constraint {
            PropertyConstraint::Unconstrained => true,
            PropertyConstraint::I32 { min, max } => match default {
                PropertyDefault::I32(v) => min <= v && v <= max,
                _ => false,
            },
            PropertyConstraint::TextBytes { max } => match default {
                PropertyDefault::Text(t) => t.as_bytes().len() as u64 <= max as u64,
                _ => false,
            },
        },
    }
}

/// A value read back for `descriptor` has its declared tag, or is the
/// canonical absence of a property without a default.
pub open spec fn readback_ok(descriptor: PropertyDescriptor, value: OwnedValue) -> bool {
    owned_tag(value) == descriptor.value_tag || (descriptor.default is Absent && owned_tag(value) == ValueTag::Nothing)
}

/// Check a value read back from a native actor against its descriptor.
pub fn validate_property_readback(descriptor: &PropertyDescriptor, value: OwnedValue) -> (r: Result<OwnedValue, RegistryError>)
    ensures
        readback_ok(*descriptor, value) ==> r == Ok::<OwnedValue, RegistryError>(value),
        !readback_ok(*descriptor, value) ==> r == Err::<OwnedValue, RegistryError>(RegistryError::Internal),
{
    let tag = value.tag();
    let absent = match descriptor.default {
        PropertyDefault::Absent => true,
        _ => false,
    };
    let canonical_absence = absent && tag == ValueTag::Nothing;
    if tag != descriptor.value_tag && !canonical_absence {
        return Err(RegistryError::Internal);
    }
    Ok(value)
}

/// Apply a signed text-byte delta to a `u32` total; a result outside
/// `u32` is an internal failure.
pub fn apply_text_delta(current: u32, delta: i64) -> (r: Result<u32, RegistryError>)
    ensures
        0 <= current + delta <= u32::MAX ==> r == Ok::<u32, RegistryError>((current + delta) as u32),
        !(0 <= current + delta <= u32::MAX) ==> r == Err::<u32, RegistryError>(RegistryError::Internal),
{
    let c = current as i64;
    if delta > 0 && c > i64::MAX - delta {
        return Err(RegistryError::Internal);
    }
    let total = c + delta;
    if total < 0 || total > u32::MAX as i64 {
        return Err(RegistryError::Internal);
    }
    Ok(total as u32)
}

/// Minimum encoded payload bytes of one value with tag `t`.
pub open spec fn tag_min_bytes(t: ValueTag) -> int {
    match t {
        ValueTag::Nothing => 1,
        ValueTag::Bool => 2,
        ValueTag::I32 | ValueTag::U32 | ValueTag::Precise | ValueTag::Color => 5,
        ValueTag::I64 | ValueTag::U64 => 9,
        ValueTag::Point | ValueTag::Size | ValueTag::Enum => 9,
        ValueTag::Rect => 17,
        ValueTag::Text | ValueTag::Bytes => 5,
        ValueTag::Object => 9,
        ValueTag::Resource => 13,
        ValueTag::BatchObject => 3,
    }
}

/// Sum of the minimum payload bytes of `tags`.
pub open spec fn tags_min_bytes(tags: Seq<ValueTag>) -> int
    decreases tags.len(),
{
    if tags.len() == 0 {
        0
    } else {
        tags_min_bytes(tags.drop_last()) + tag_min_bytes(tags.last())
    }
}

pub(crate) proof fn lemma_tags_min_bytes_grow(tags: Seq<ValueTag>, i: int, j: int)
    requires
        0 <= i <= j <= tags.len(),
    ensures
        tags_min_bytes(tags.take(i)) <= tags_min_bytes(tags.take(j)),
    decreases j - i,
{
    if i < j {
        lemma_tags_min_bytes_grow(tags, i, j - 1);
        assert(tags.take(j).drop_last() =~= tags.take(j - 1));
    }
}

/// Minimum encoded payload bytes of a value sequence with tags `tags`, or
/// `None` when the sum does not fit in `u32`.
pub fn minimum_event_payload_bytes(tags: &[ValueTag]) -> (r: Option<u32>)
    ensures
        tags_min_bytes(tags@) <= u32::MAX ==> r == Some(tags_min_bytes(tags@) as u32),
        tags_min_bytes(tags@) > u32::MAX ==> r is None,
{
    let mut total: u32 = 0;
    let mut i: usize = 0;
    proof {
        assert(tags@.take(0) =~= Seq::<ValueTag>::empty());
    }
    while i < tags.len()
        invariant
            i <= tags@.len(),
            total == tags_min_bytes(tags@.take(i as int)),
        decreases tags@.len() - i,
    {
        let bytes: u32 = match tags[i] {
            ValueTag::Nothing => 1,
            ValueTag::Bool => 2,
            ValueTag::I32 | ValueTag::U32 | ValueTag::Precise | ValueTag::Color => 5,
            ValueTag::I64 | ValueTag::U64 => 9,
            ValueTag::Point | ValueTag::Size | ValueTag::Enum => 9,
            ValueTag::Rect => 17,
            ValueTag::Text | ValueTag::Bytes => 5,
            ValueTag::Object => 9,
            ValueTag::Resource => 13,
            ValueTag::BatchObject => 3,
        };
        proof {
            assert(tags@.take(i + 1).drop_last() =~= tags@.take(i as int));
            assert(tags@.take(i + 1).last() == tags@[i as int]);
        }
        if total > u32::MAX - bytes {
            proof {
                lemma_tags_min_bytes_grow(tags@, i + 1, tags@.len() as int);
                assert(tags@.take(tags@.len() as int) =~= tags@);
            }
            return None;
        }
        total = total + bytes;
        i = i + 1;
    }
    proof {
        assert(tags@.take(i as int) =~= tags@);
    }
    Some(total)
}

/// The effects of one direction's target property or action.
pub open spec fn direction_effect(
    ps: Seq<PropertyDescriptor>,
    acts: Seq<ActionDescriptor>,
    d: ActorDirection,
) -> Result<u16, RegistryError> {
    match d {
        ActorDirection::SetProperty { id, .. } => match property_index(ps, id, 0) {
            Some(k) => Ok(ps[k].effects@),
            None => Err(RegistryError::UnknownProperty { property_id: id }),
        },
        ActorDirection::ResetProperty { id } => match property_index(ps, id, 0) {
            Some(k) => Ok(ps[k].effects@),
            None => Err(RegistryError::UnknownProperty { property_id: id }),
        },
        ActorDirection::InvokeAction { id, .. } => match action_index(acts, id, 0) {
            Some(k) => Ok(acts[k].effects@),
            None => Err(RegistryError::UnknownAction { action_id: id }),
        },
    }
}

/// Union of the effects of the first `n` directions, or the first lookup
/// failure among them.
pub open spec fn directions_effects(
    ps: Seq<PropertyDescriptor>,
    acts: Seq<ActionDescriptor>,
    ds: Seq<ActorDirection>,
    n: int,
) -> Result<u16, RegistryError>
    decreases n,
{
    if n <= 0 {
        Ok(0)
    } else {
        match directions_effects(ps, acts, ds, n - 1) {
            Err(e) => Err(e),
            Ok(acc) => match direction_effect(ps, acts, ds[n - 1]) {
                Err(e) => Err(e),
                Ok(x) => Ok(acc | x),
            },
        }
    }
}

/// Union of the commit effects of the properties and actions the
/// directions target; an unknown target fails.
pub fn actor_direction_effects(
    properties: &[PropertyDescriptor],
    actions: &[ActionDescriptor],
    directions: &[ActorDirection],
) -> (r: Result<MutationEffects, RegistryError>)
    ensures
        match directions_effects(properties@, actions@, directions@, directions@.len() as int) {
            Ok(bits) => r matches Ok(e) && e@ == bits,
            Err(x) => r == Err::<MutationEffects, RegistryError>(x),
        },
{
    let mut effects = MutationEffects::NONE();
    let mut i: usize = 0;
    while i < directions.len()
        invariant
            i <= directions@.len(),
            directions_effects(properties@, actions@, directions@, i as int) == Ok::<u16, RegistryError>(effects@),
        decreases directions@.len() - i,
    {
        let next = match &directions[i] {
            ActorDirection::SetProperty { id, .. } => match find_property(properties, *id) {
                Some(k) => properties[k].effects,
                None => {
                    proof {
                        lemma_effects_stick(properties@, actions@, directions@, i as int + 1, directions@.len() as int);
                    }
                    return Err(RegistryError::UnknownProperty { property_id: *id });
                },
            },
            ActorDirection::ResetProperty { id } => match find_property(properties, *id) {
                Some(k) => properties[k].effects,
                None => {
                    proof {
                        lemma_effects_stick(properties@, actions@, directions@, i as int + 1, directions@.len() as int);
                    }
                    return Err(RegistryError::UnknownProperty { property_id: *id });
                },
            },
            ActorDirection::InvokeAction { id, .. } => match find_action(actions, *id) {
                Some(k) => actions[k].effects,
                None => {
                    proof {
                        lemma_effects_stick(properties@, actions@, directions@, i as int + 1, directions@.len() as int);
                    }
                    return Err(RegistryError::UnknownAction { action_id: *id });
                },
            },
        };
        effects = effects.union(next);
        i = i + 1;
    }
    Ok(effects)
}

/// Once a prefix fails, every longer prefix fails the same way.
proof fn lemma_effects_stick(
    ps: Seq<PropertyDescriptor>,
    acts: Seq<ActionDescriptor>,
    ds: Seq<ActorDirection>,
    i: int,
    j: int,
)
    requires
        0 <= i <= j,
        directions_effects(ps, acts, ds, i) is Err,
    ensures
        directions_effects(ps, acts, ds, j) == directions_effects(ps, acts, ds, i),
    decreases j - i,
{
    if i < j {
        lemma_effects_stick(ps, acts, ds, i, j - 1);
    }
}

/// One constructor input field declared by an actor.
#[derive(Clone, Copy, Debug, PartialEq, Eq)]
pub struct ConstructorFieldDescriptor {
    /// Descriptor-local stable field identifier.
    pub id: u32,
    /// Stable source-level field name.
    pub name: &'static str,
    /// Required value tag.
    pub value_tag: ValueTag,
    /// Whether Create must supply the field.
    pub required: bool,
}

/// Position of the first declared field with identifier `id` at or after `i`.
pub open spec fn field_index(decl: Seq<ConstructorFieldDescriptor>, id: u32, i: int) -> Option<int>
    decreases decl.len() - i,
{
    if i < 0 || i >= decl.len() {
        None
    } else if decl[i].id == id {
        Some(i)
    } else {
        field_index(decl, id, i + 1)
    }
}

/// Some field before position `i` carries the identifier of field `i`.
pub open spec fn repeats_earlier(fs: Seq<CreateField>, i: int) -> bool {
    exists|j: int| 0 <= j < i && fs[j].id == fs[i].id
}

/// Some supplied field carries identifier `id`.
pub open spec fn supplies(fs: Seq<CreateField>, id: u32) -> bool {
    exists|j: int| 0 <= j < fs.len() && fs[j].id == id
}

/// The failure of the first failing supplied field in `fs[i..]`: repeated,
/// undeclared, or of a type its declaration does not admit.
pub open spec fn supplied_field_error(decl: Seq<ConstructorFieldDescriptor>, fs: Seq<CreateField>, i: int) -> Option<RegistryError>
    decreases fs.len() - i,
{
    if i < 0 || i >= fs.len() {
        None
    } else if repeats_earlier(fs, i) {
        Some(RegistryError::DuplicateField { field_id: fs[i].id })
    } else {
        match field_index(decl, fs[i].id, 0) {
            None => Some(RegistryError::UnknownField { field_id: fs[i].id }),
            Some(k) => if !tag_admits(decl[k].value_tag, owned_tag(fs[i].value), true) {
                Some(
                    RegistryError::TypeMismatch {
                        field_id: fs[i].id,
                        expected: decl[k].value_tag,
                        actual: owned_tag(fs[i].value),
                    },
                )
            } else {
                supplied_field_error(decl, fs, i + 1)
            },
        }
    }
}

/// The first required declaration in `decl[k..]` that no field supplies.
pub open spec fn missing_field_error(decl: Seq<ConstructorFieldDescriptor>, fs: Seq<CreateField>, k: int) -> Option<RegistryError>
    decreases decl.len() - k,
{
    if k < 0 || k >= decl.len() {
        None
    } else if decl[k].required && !supplies(fs, decl[k].id) {
        Some(RegistryError::MissingField { field_id: decl[k].id })
    } else {
        missing_field_error(decl, fs, k + 1)
    }
}

pub(crate) fn find_field(decl: &[ConstructorFieldDescriptor], id: u32) -> (r: Option<usize>)
    ensures
        match r {
            Some(k) => field_index(decl@, id, 0) == Some(k as int) && k < decl@.len(),
            None => field_index(decl@, id, 0) is None,
        },
{
    let mut i: usize = 0;
    while i < decl.len()
        invariant
            i <= decl@.len(),
            field_index(decl@, id, 0) == field_index(decl@, id, i as int),
        decreases decl@.len() - i,
    {
        if decl[i].id == id {
            return Some(i);
        }
        i = i + 1;
    }
    None
}

fn supplies_id(fields: &[CreateField], id: u32, upto: usize) -> (r: bool)
    requires
        upto <= fields@.len(),
    ensures
        r == exists|j: int| 0 <= j < upto && fields@[j].id == id,
{
    let mut j: usize = 0;
    while j < upto
        invariant
            j <= upto <= fields@.len(),
            forall|t: int| 0 <= t < j ==> fields@[t].id != id,
        decreases upto - j,
    {
        if fields[j].id == id {
            return true;
        }
        j = j + 1;
    }
    false
}

/// Validate the constructor fields of an atomic Create against the
/// declared constructor fields: every supplied field in order (no repeats,
/// declared, of an admitted type, where an object field also takes a
/// batch-local reference), then every required declaration supplied.
pub fn validate_atomic_constructor_fields(
    declared: &[ConstructorFieldDescriptor],
    fields: &[CreateField],
) -> (r: Result<(), RegistryError>)
    ensures
        r == match supplied_field_error(declared@, fields@, 0) {
            Some(e) => Err(e),
            None => match missing_field_error(declared@, fields@, 0) {
                Some(e) => Err(e),
                None => Ok::<(), RegistryError>(()),
            },
        },
{
    let mut i: usize = 0;
    while i < fields.len()
        invariant
            i <= fields@.len(),
            supplied_field_error(declared@, fields@, 0) == supplied_field_error(declared@, fields@, i as int),
        decreases fields@.len() - i,
    {
        let id = fields[i].id;
        if supplies_id(fields, id, i) {
            return Err(RegistryError::DuplicateField { field_id: id });
        }
        let k = match find_field(declared, id) {
            Some(k) => k,
            None => return Err(RegistryError::UnknownField { field_id: id }),
        };
        let expected = declared[k].value_tag;
        let actual = fields[i].value.tag();
        if !admits(expected, actual, true) {
            return Err(RegistryError::TypeMismatch { field_id: id, expected, actual });
        }
        i = i + 1;
    }
    let mut k: usize = 0;
    while k < declared.len()
        invariant
            k <= declared@.len(),
            supplied_field_error(declared@, fields@, 0) is None,
            missing_field_error(declared@, fields@, 0) == missing_field_error(declared@, fields@, k as int),
        decreases declared@.len() - k,
    {
        if declared[k].required && !supplies_id(fields, declared[k].id, fields.len()) {
            return Err(RegistryError::MissingField { field_id: declared[k].id });
        }
        k = k + 1;
    }
    Ok(())
}

} // verus!
