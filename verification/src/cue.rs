//! Endpoint-owned cue queue and bounded delivery substrate.
//!
//! Native event adapters enqueue owned cue records, while a binding drains
//! them later from a VM-safe context. One queue and one sequence allocator
//! serve every Stage so Stage-specific admission limits never reorder
//! delivery.
use std::collections::VecDeque;

use vstd::prelude::*;

use crate::actor::{ObjectId, StageId};
use crate::direction::StageRevision;

verus! {

/// Bytes occupied by the fixed fields in the canonical Cue frame.
pub const MPY_V1_CUE_FRAME_FIXED_BYTES: usize = 44;

/// Bytes in the fixed cue-payload metadata envelope.
pub const CUE_METADATA_ENVELOPE_BYTES: usize = 36;

/// Fixed bytes in one complete Cue frame before event payload.
pub const CUE_FRAME_OVERHEAD_BYTES: usize = MPY_V1_CUE_FRAME_FIXED_BYTES + CUE_METADATA_ENVELOPE_BYTES;

/// Cue flag indicating that the payload begins with the metadata envelope.
pub const CUE_FLAG_MPY05_METADATA: u32 = 1;

/// Cue flag indicating latest-value coalescing represented multiple emissions.
pub const CUE_FLAG_LATEST_VALUE_MERGED: u32 = 2;

/// Opaque callback token owned by the language adapter.
#[derive(Clone, Copy, Debug, PartialEq, Eq, Structural, PartialOrd, Ord, Hash)]
pub struct CallbackId(u32);

impl View for CallbackId {
    type V = u32;

    closed spec fn view(&self) -> u32 {
        self.0
    }
}

impl CallbackId {
    #[verifier::type_invariant]
    spec fn nonzero(self) -> bool {
        self.0 != 0
    }

    /// Construct the identifier, rejecting the reserved zero value.
    pub fn new(raw: u32) -> (r: Option<Self>)
        ensures
            r is None <==> raw == 0,
            r matches Some(id) ==> id@ == raw,
    {
        if raw == 0 { None } else { Some(CallbackId(raw)) }
    }

    /// Identifier whose representation is `raw`.
    pub closed spec fn from_raw(raw: u32) -> Self {
        CallbackId(raw)
    }

    /// The representation of `from_raw(raw)` is `raw`.
    pub proof fn lemma_from_raw(raw: u32)
        ensures
            Self::from_raw(raw)@ == raw,
    {
    }

    /// Every identifier is rebuilt by `from_raw` from its representation.
    pub proof fn lemma_view_injective(x: Self)
        ensures
            Self::from_raw(x@) == x,
    {
    }

    /// Return the serialized `u32` representation.
    pub fn get(self) -> (r: u32)
        ensures
            r == self@,
            r != 0,
    {
        proof { use_type_invariant(&self); }
        self.0
    }
}

/// Runtime-owned subscription identifier within one endpoint epoch.
#[derive(Clone, Copy, Debug, PartialEq, Eq, Structural, PartialOrd, Ord, Hash)]
pub struct SubscriptionId(u32);

impl View for SubscriptionId {
    type V = u32;

    closed spec fn view(&self) -> u32 {
        self.0
    }
}

impl SubscriptionId {
    #[verifier::type_invariant]
    spec fn nonzero(self) -> bool {
        self.0 != 0
    }

    /// Construct the identifier, rejecting the reserved zero value.
    pub fn new(raw: u32) -> (r: Option<Self>)
        ensures
            r is None <==> raw == 0,
            r matches Some(id) ==> id@ == raw,
    {
        if raw == 0 { None } else { Some(SubscriptionId(raw)) }
    }

    /// Identifier whose representation is `raw`.
    pub closed spec fn from_raw(raw: u32) -> Self {
        SubscriptionId(raw)
    }

    /// The representation of `from_raw(raw)` is `raw`.
    pub proof fn lemma_from_raw(raw: u32)
        ensures
            Self::from_raw(raw)@ == raw,
    {
    }

    /// Every identifier is rebuilt by `from_raw` from its representation.
    pub proof fn lemma_view_injective(x: Self)
        ensures
            Self::from_raw(x@) == x,
    {
    }

    /// Return the serialized `u32` representation.
    pub fn get(self) -> (r: u32)
        ensures
            r == self@,
            r != 0,
    {
        proof { use_type_invariant(&self); }
        self.0
    }
}

/// Stable event identifier from the actor descriptor catalog.
#[derive(Clone, Copy, Debug, PartialEq, Eq, Structural, PartialOrd, Ord, Hash)]
pub struct EventId(u32);

impl View for EventId {
    type V = u32;

    closed spec fn view(&self) -> u32 {
        self.0
    }
}

impl EventId {
    #[verifier::type_invariant]
    spec fn nonzero(self) -> bool {
        self.0 != 0
    }

    /// Construct the identifier, rejecting the reserved zero value.
    pub fn new(raw: u32) -> (r: Option<Self>)
        ensures
            r is None <==> raw == 0,
            r matches Some(id) ==> id@ == raw,
    {
        if raw == 0 { None } else { Some(EventId(raw)) }
    }

    /// Identifier whose representation is `raw`.
    pub closed spec fn from_raw(raw: u32) -> Self {
        EventId(raw)
    }

    /// The representation of `from_raw(raw)` is `raw`.
    pub proof fn lemma_from_raw(raw: u32)
        ensures
            Self::from_raw(raw)@ == raw,
    {
    }

    /// Every identifier is rebuilt by `from_raw` from its representation.
    pub proof fn lemma_view_injective(x: Self)
        ensures
            Self::from_raw(x@) == x,
    {
    }

    /// Return the serialized `u32` representation.
    pub fn get(self) -> (r: u32)
        ensures
            r == self@,
            r != 0,
    {
        proof { use_type_invariant(&self); }
        self.0
    }
}

/// Endpoint-wide monotonic cue sequence within one endpoint epoch.
#[derive(Clone, Copy, Debug, PartialEq, Eq, Structural, PartialOrd, Ord, Hash)]
pub struct CueSequence(u32);

impl View for CueSequence {
    type V = u32;

    closed spec fn view(&self) -> u32 {
        self.0
    }
}

impl CueSequence {
    #[verifier::type_invariant]
    spec fn nonzero(self) -> bool {
        self.0 != 0
    }

    /// Construct the identifier, rejecting the reserved zero value.
    pub fn new(raw: u32) -> (r: Option<Self>)
        ensures
            r is None <==> raw == 0,
            r matches Some(id) ==> id@ == raw,
    {
        if raw == 0 { None } else { Some(CueSequence(raw)) }
    }

    /// Identifier whose representation is `raw`.
    pub closed spec fn from_raw(raw: u32) -> Self {
        CueSequence(raw)
    }

    /// The representation of `from_raw(raw)` is `raw`.
    pub proof fn lemma_from_raw(raw: u32)
        ensures
            Self::from_raw(raw)@ == raw,
    {
    }

    /// Every identifier is rebuilt by `from_raw` from its representation.
    pub proof fn lemma_view_injective(x: Self)
        ensures
            Self::from_raw(x@) == x,
    {
    }

    /// Return the serialized `u32` representation.
    pub fn get(self) -> (r: u32)
        ensures
            r == self@,
            r != 0,
    {
        proof { use_type_invariant(&self); }
        self.0
    }
}

/// Monotonic native event traversal sequence within one endpoint epoch.
#[derive(Clone, Copy, Debug, PartialEq, Eq, Structural, PartialOrd, Ord, Hash)]
pub struct NativeEventSequence(u64);

impl View for NativeEventSequence {
    type V = u64;

    closed spec fn view(&self) -> u64 {
        self.0
    }
}

impl NativeEventSequence {
    #[verifier::type_invariant]
    spec fn nonzero(self) -> bool {
        self.0 != 0
    }

    /// Construct the identifier, rejecting the reserved zero value.
    pub fn new(raw: u64) -> (r: Option<Self>)
        ensures
            r is None <==> raw == 0,
            r matches Some(id) ==> id@ == raw,
    {
        if raw == 0 { None } else { Some(NativeEventSequence(raw)) }
    }

    /// Identifier whose representation is `raw`.
    pub closed spec fn from_raw(raw: u64) -> Self {
        NativeEventSequence(raw)
    }

    /// The representation of `from_raw(raw)` is `raw`.
    pub proof fn lemma_from_raw(raw: u64)
        ensures
            Self::from_raw(raw)@ == raw,
    {
    }

    /// Every identifier is rebuilt by `from_raw` from its representation.
    pub proof fn lemma_view_injective(x: Self)
        ensures
            Self::from_raw(x@) == x,
    {
    }

    /// Return the runtime representation.
    pub fn get(self) -> (r: u64)
        ensures
            r == self@,
            r != 0,
    {
        proof { use_type_invariant(&self); }
        self.0
    }
}

/// Little-endian bytes of a `u64`.
pub open spec fn le_bytes_u64(v: u64) -> Seq<u8> {
    seq![
        (v & 0xff) as u8,
        ((v >> 8u64) & 0xff) as u8,
        ((v >> 16u64) & 0xff) as u8,
        ((v >> 24u64) & 0xff) as u8,
        ((v >> 32u64) & 0xff) as u8,
        ((v >> 40u64) & 0xff) as u8,
        ((v >> 48u64) & 0xff) as u8,
        ((v >> 56u64) & 0xff) as u8,
    ]
}

/// Little-endian bytes of a `u32`.
pub open spec fn le_bytes_u32(v: u32) -> Seq<u8> {
    seq![
        (v & 0xff) as u8,
        ((v >> 8u32) & 0xff) as u8,
        ((v >> 16u32) & 0xff) as u8,
        ((v >> 24u32) & 0xff) as u8,
    ]
}

/// Little-endian `u64` read from eight bytes starting at `off`.
pub open spec fn read_u64_spec(s: Seq<u8>, off: int) -> u64 {
    (s[off] as u64) | ((s[off + 1] as u64) << 8u64) | ((s[off + 2] as u64) << 16u64) | ((s[off
        + 3] as u64) << 24u64) | ((s[off + 4] as u64) << 32u64) | ((s[off + 5] as u64) << 40u64)
        | ((s[off + 6] as u64) << 48u64) | ((s[off + 7] as u64) << 56u64)
}

/// Little-endian `u32` read from four bytes starting at `off`.
pub open spec fn read_u32_spec(s: Seq<u8>, off: int) -> u32 {
    (s[off] as u32) | ((s[off + 1] as u32) << 8u32) | ((s[off + 2] as u32) << 16u32) | ((s[off
        + 3] as u32) << 24u32)
}

proof fn lemma_le_u64_round_trip(v: u64)
    ensures
        read_u64_spec(le_bytes_u64(v), 0) == v,
{
    let s = le_bytes_u64(v);
    let b0 = (v & 0xff) as u8;
    let b1 = ((v >> 8u64) & 0xff) as u8;
    let b2 = ((v >> 16u64) & 0xff) as u8;
    let b3 = ((v >> 24u64) & 0xff) as u8;
    let b4 = ((v >> 32u64) & 0xff) as u8;
    let b5 = ((v >> 40u64) & 0xff) as u8;
    let b6 = ((v >> 48u64) & 0xff) as u8;
    let b7 = ((v >> 56u64) & 0xff) as u8;
    assert(s[0] == b0 && s[1] == b1 && s[2] == b2 && s[3] == b3);
    assert(s[4] == b4 && s[5] == b5 && s[6] == b6 && s[7] == b7);
    assert((b0 as u64) | ((b1 as u64) << 8u64) | ((b2 as u64) << 16u64) | ((b3 as u64) << 24u64)
        | ((b4 as u64) << 32u64) | ((b5 as u64) << 40u64) | ((b6 as u64) << 48u64) | ((b7
        as u64) << 56u64) == v) by (bit_vector)
        requires
            b0 == (v & 0xff) as u8,
            b1 == ((v >> 8u64) & 0xff) as u8,
            b2 == ((v >> 16u64) & 0xff) as u8,
            b3 == ((v >> 24u64) & 0xff) as u8,
            b4 == ((v >> 32u64) & 0xff) as u8,
            b5 == ((v >> 40u64) & 0xff) as u8,
            b6 == ((v >> 48u64) & 0xff) as u8,
            b7 == ((v >> 56u64) & 0xff) as u8,
    ;
}

proof fn lemma_le_u32_round_trip(v: u32)
    ensures
        read_u32_spec(le_bytes_u32(v), 0) == v,
{
    let s = le_bytes_u32(v);
    let b0 = (v & 0xff) as u8;
    let b1 = ((v >> 8u32) & 0xff) as u8;
    let b2 = ((v >> 16u32) & 0xff) as u8;
    let b3 = ((v >> 24u32) & 0xff) as u8;
    assert(s[0] == b0 && s[1] == b1 && s[2] == b2 && s[3] == b3);
    assert((b0 as u32) | ((b1 as u32) << 8u32) | ((b2 as u32) << 16u32) | ((b3 as u32) << 24u32)
        == v) by (bit_vector)
        requires
            b0 == (v & 0xff) as u8,
            b1 == ((v >> 8u32) & 0xff) as u8,
            b2 == ((v >> 16u32) & 0xff) as u8,
            b3 == ((v >> 24u32) & 0xff) as u8,
    ;
}

proof fn lemma_read_shift(a: Seq<u8>, b: Seq<u8>, off: int)
    requires
        0 <= off,
        off + 8 <= b.len(),
        forall|i: int| 0 <= i < 8 ==> a[i] == b[off + i],
    ensures
        read_u64_spec(a, 0) == read_u64_spec(b, off),
        read_u32_spec(a, 0) == read_u32_spec(b, off),
{
    assert(a[0] == b[off]);
    assert(a[1] == b[off + 1]);
    assert(a[2] == b[off + 2]);
    assert(a[3] == b[off + 3]);
    assert(a[4] == b[off + 4]);
    assert(a[5] == b[off + 5]);
    assert(a[6] == b[off + 6]);
    assert(a[7] == b[off + 7]);
}

proof fn lemma_read_shift32(a: Seq<u8>, b: Seq<u8>, off: int)
    requires
        0 <= off,
        off + 4 <= b.len(),
        forall|i: int| 0 <= i < 4 ==> a[i] == b[off + i],
    ensures
        read_u32_spec(a, 0) == read_u32_spec(b, off),
{
    assert(a[0] == b[off]);
    assert(a[1] == b[off + 1]);
    assert(a[2] == b[off + 2]);
    assert(a[3] == b[off + 3]);
}

fn write_u64_le(output: &mut [u8], off: usize, v: u64)
    requires
        off + 8 <= old(output)@.len(),
    ensures
        final(output)@ == old(output)@.take(off as int) + le_bytes_u64(v) + old(output)@.skip(
            off + 8,
        ),
{
    output[off] = (v & 0xff) as u8;
    output[off + 1] = ((v >> 8u64) & 0xff) as u8;
    output[off + 2] = ((v >> 16u64) & 0xff) as u8;
    output[off + 3] = ((v >> 24u64) & 0xff) as u8;
    output[off + 4] = ((v >> 32u64) & 0xff) as u8;
    output[off + 5] = ((v >> 40u64) & 0xff) as u8;
    output[off + 6] = ((v >> 48u64) & 0xff) as u8;
    output[off + 7] = ((v >> 56u64) & 0xff) as u8;
    assert(output@ =~= old(output)@.take(off as int) + le_bytes_u64(v) + old(output)@.skip(
        off + 8,
    ));
}

fn write_u32_le(output: &mut [u8], off: usize, v: u32)
    requires
        off + 4 <= old(output)@.len(),
    ensures
        final(output)@ == old(output)@.take(off as int) + le_bytes_u32(v) + old(output)@.skip(
            off + 4,
        ),
{
    output[off] = (v & 0xff) as u8;
    output[off + 1] = ((v >> 8u32) & 0xff) as u8;
    output[off + 2] = ((v >> 16u32) & 0xff) as u8;
    output[off + 3] = ((v >> 24u32) & 0xff) as u8;
    assert(output@ =~= old(output)@.take(off as int) + le_bytes_u32(v) + old(output)@.skip(
        off + 4,
    ));
}

fn read_u32(input: &[u8], offset: usize) -> (r: u32)
    requires
        offset + 4 <= input@.len(),
    ensures
        r == read_u32_spec(input@, offset as int),
{
    (input[offset] as u32) | ((input[offset + 1] as u32) << 8u32) | ((input[offset + 2] as u32)
        << 16u32) | ((input[offset + 3] as u32) << 24u32)
}

fn read_u64(input: &[u8], offset: usize) -> (r: u64)
    requires
        offset + 8 <= input@.len(),
    ensures
        r == read_u64_spec(input@, offset as int),
{
    (input[offset] as u64) | ((input[offset + 1] as u64) << 8u64) | ((input[offset + 2] as u64)
        << 16u64) | ((input[offset + 3] as u64) << 24u64) | ((input[offset + 4] as u64)
        << 32u64) | ((input[offset + 5] as u64) << 40u64) | ((input[offset + 6] as u64)
        << 48u64) | ((input[offset + 7] as u64) << 56u64)
}

/// Canonical causality and coalescing metadata carried in every cue.
#[derive(Clone, Copy, Debug, PartialEq, Eq, Structural)]
pub struct CuePayloadMetadata {
    /// Committed Stage Revision visible when the represented events occurred.
    pub stage_revision: StageRevision,
    /// First native event traversal represented by this cue.
    pub first_native_event_sequence: NativeEventSequence,
    /// Last native event traversal represented by this cue.
    pub last_native_event_sequence: NativeEventSequence,
    /// First endpoint cue sequence represented by this cue.
    pub first_cue_sequence: CueSequence,
    /// Last endpoint cue sequence represented by this cue.
    pub last_cue_sequence: CueSequence,
    /// Number of later latest-value emissions merged into the retained record.
    pub merge_count: u32,
}

/// The six serialized metadata fields, in envelope order.
pub type MetadataFields = (u64, u64, u64, u32, u32, u32);

/// Whether six serialized fields describe a well-formed metadata envelope.
pub open spec fn fields_valid(f: MetadataFields) -> bool {
    &&& f.1 != 0
    &&& f.2 != 0
    &&& f.3 != 0
    &&& f.4 != 0
    &&& f.1 <= f.2
    &&& f.3 <= f.4
    &&& f.4 - f.3 == f.5
}

/// Fields read from the fixed envelope at the start of `s`.
pub open spec fn envelope_fields(s: Seq<u8>) -> MetadataFields {
    (
        read_u64_spec(s, 0),
        read_u64_spec(s, 8),
        read_u64_spec(s, 16),
        read_u32_spec(s, 24),
        read_u32_spec(s, 28),
        read_u32_spec(s, 32),
    )
}

/// Fixed metadata envelope that carries `f`.
pub open spec fn envelope_bytes(f: MetadataFields) -> Seq<u8> {
    le_bytes_u64(f.0) + le_bytes_u64(f.1) + le_bytes_u64(f.2) + le_bytes_u32(f.3) + le_bytes_u32(
        f.4,
    ) + le_bytes_u32(f.5)
}

impl CuePayloadMetadata {
    /// The serialized fields of this metadata.
    pub open spec fn fields(self) -> MetadataFields {
        (
            self.stage_revision@,
            self.first_native_event_sequence@,
            self.last_native_event_sequence@,
            self.first_cue_sequence@,
            self.last_cue_sequence@,
            self.merge_count,
        )
    }

    /// Sequence ranges are ordered and the merge count matches the cue range.
    pub open spec fn is_valid(self) -> bool {
        fields_valid(self.fields())
    }

    /// Encode the fixed metadata envelope into caller-owned storage.
    pub fn encode(self, output: &mut [u8]) -> (r: Result<usize, CuePayloadError>)
        ensures
            !self.is_valid() ==> r == Err::<usize, CuePayloadError>(
                CuePayloadError::InvalidMetadata,
            ),
            self.is_valid() && old(output)@.len() < CUE_METADATA_ENVELOPE_BYTES ==> r == Err::<
                usize,
                CuePayloadError,
            >(CuePayloadError::BufferTooSmall),
            r is Err ==> final(output)@ == old(output)@,
            self.is_valid() && old(output)@.len() >= CUE_METADATA_ENVELOPE_BYTES ==> {
                &&& r == Ok::<usize, CuePayloadError>(CUE_METADATA_ENVELOPE_BYTES)
                &&& final(output)@ == envelope_bytes(self.fields()) + old(output)@.skip(
                    CUE_METADATA_ENVELOPE_BYTES as int,
                )
            },
    {
        self.validate()?;
        if output.len() < CUE_METADATA_ENVELOPE_BYTES {
            return Err(CuePayloadError::BufferTooSmall);
        }
        let ghost o = output@;
        write_u64_le(output, 0, self.stage_revision.get());
        write_u64_le(output, 8, self.first_native_event_sequence.get());
        write_u64_le(output, 16, self.last_native_event_sequence.get());
        write_u32_le(output, 24, self.first_cue_sequence.get());
        write_u32_le(output, 28, self.last_cue_sequence.get());
        write_u32_le(output, 32, self.merge_count);
        assert(output@ =~= envelope_bytes(self.fields()) + o.skip(36));
        Ok(CUE_METADATA_ENVELOPE_BYTES)
    }

    /// Decode and validate one fixed metadata envelope.
    pub fn decode(input: &[u8]) -> (r: Result<Self, CuePayloadError>)
        ensures
            input@.len() < CUE_METADATA_ENVELOPE_BYTES ==> r == Err::<Self, CuePayloadError>(
                CuePayloadError::Truncated,
            ),
            input@.len() >= CUE_METADATA_ENVELOPE_BYTES && !fields_valid(envelope_fields(input@))
                ==> r == Err::<Self, CuePayloadError>(CuePayloadError::InvalidMetadata),
            input@.len() >= CUE_METADATA_ENVELOPE_BYTES && fields_valid(envelope_fields(input@))
                ==> r is Ok,
            r matches Ok(m) ==> m.fields() == envelope_fields(input@),
    {
        if input.len() < CUE_METADATA_ENVELOPE_BYTES {
            return Err(CuePayloadError::Truncated);
        }
        let stage_revision = StageRevision::new(read_u64(input, 0));
        let first_native_event_sequence = match NativeEventSequence::new(read_u64(input, 8)) {
            Some(v) => v,
            None => return Err(CuePayloadError::InvalidMetadata),
        };
        let last_native_event_sequence = match NativeEventSequence::new(read_u64(input, 16)) {
            Some(v) => v,
            None => return Err(CuePayloadError::InvalidMetadata),
        };
        let first_cue_sequence = match CueSequence::new(read_u32(input, 24)) {
            Some(v) => v,
            None => return Err(CuePayloadError::InvalidMetadata),
        };
        let last_cue_sequence = match CueSequence::new(read_u32(input, 28)) {
            Some(v) => v,
            None => return Err(CuePayloadError::InvalidMetadata),
        };
        let merge_count = read_u32(input, 32);
        let metadata = CuePayloadMetadata {
            stage_revision,
            first_native_event_sequence,
            last_native_event_sequence,
            first_cue_sequence,
            last_cue_sequence,
            merge_count,
        };
        metadata.validate()?;
        Ok(metadata)
    }

    fn validate(self) -> (r: Result<(), CuePayloadError>)
        ensures
            self.is_valid() ==> r is Ok,
            !self.is_valid() ==> r == Err::<(), CuePayloadError>(CuePayloadError::InvalidMetadata),
    {
        let fln = self.first_native_event_sequence.get();
        let lln = self.last_native_event_sequence.get();
        let fc = self.first_cue_sequence.get();
        let lc = self.last_cue_sequence.get();
        if lln < fln || lc < fc || lc - fc != self.merge_count {
            return Err(CuePayloadError::InvalidMetadata);
        }
        Ok(())
    }
}

/// Decoding the envelope of any valid metadata gives back exactly its fields.
pub proof fn lemma_envelope_round_trip(f: MetadataFields)
    ensures
        envelope_bytes(f).len() == CUE_METADATA_ENVELOPE_BYTES,
        envelope_fields(envelope_bytes(f)) == f,
{
    let s = envelope_bytes(f);
    lemma_le_u64_round_trip(f.0);
    lemma_le_u64_round_trip(f.1);
    lemma_le_u64_round_trip(f.2);
    lemma_le_u32_round_trip(f.3);
    lemma_le_u32_round_trip(f.4);
    lemma_le_u32_round_trip(f.5);
    let a1 = le_bytes_u64(f.1);
    let a2 = le_bytes_u64(f.2);
    let a3 = le_bytes_u32(f.3);
    let a4 = le_bytes_u32(f.4);
    let a5 = le_bytes_u32(f.5);
    lemma_read_shift(le_bytes_u64(f.0), s, 0);
    lemma_read_shift(a1, s, 8);
    lemma_read_shift(a2, s, 16);
    lemma_read_shift32(a3, s, 24);
    lemma_read_shift32(a4, s, 28);
    lemma_read_shift32(a5, s, 32);
}

/// Encoding never changes bytes after the envelope, and the envelope of a
/// valid metadata value decodes back to the same fields.
pub proof fn lemma_encode_then_decode(m: CuePayloadMetadata, tail: Seq<u8>)
    requires
        m.is_valid(),
    ensures
        fields_valid(envelope_fields(envelope_bytes(m.fields()) + tail)),
        envelope_fields(envelope_bytes(m.fields()) + tail) == m.fields(),
{
    let e = envelope_bytes(m.fields());
    lemma_envelope_round_trip(m.fields());
    let s = e + tail;
    assert forall|i: int| 0 <= i < 36 implies s[i] == e[i] by {}
    lemma_prefix_fields(e, s);
}

proof fn lemma_prefix_fields(e: Seq<u8>, s: Seq<u8>)
    requires
        e.len() == 36,
        s.len() >= 36,
        forall|i: int| 0 <= i < 36 ==> s[i] == e[i],
    ensures
        envelope_fields(s) == envelope_fields(e),
{
    assert(envelope_fields(s) == envelope_fields(e));
}

/// Borrowed view of a canonical cue payload.
#[derive(Clone, Copy, Debug, PartialEq, Eq)]
pub struct CuePayloadRef<'a> {
    /// Fixed causality and coalescing metadata.
    pub metadata: CuePayloadMetadata,
    /// Descriptor-owned event payload following the fixed envelope.
    pub event_payload: &'a [u8],
}

impl<'a> CuePayloadRef<'a> {
    /// Decode a metadata envelope and borrow its remaining event payload.
    pub fn decode(input: &'a [u8]) -> (r: Result<Self, CuePayloadError>)
        ensures
            input@.len() < CUE_METADATA_ENVELOPE_BYTES ==> r matches Err(
                CuePayloadError::Truncated,
            ),
            input@.len() >= CUE_METADATA_ENVELOPE_BYTES && !fields_valid(envelope_fields(input@))
                ==> r matches Err(CuePayloadError::InvalidMetadata),
            input@.len() >= CUE_METADATA_ENVELOPE_BYTES && fields_valid(envelope_fields(input@))
                ==> r is Ok,
            r matches Ok(p) ==> p.metadata.fields() == envelope_fields(input@)
                && p.event_payload@ == input@.skip(CUE_METADATA_ENVELOPE_BYTES as int),
    {
        let metadata = CuePayloadMetadata::decode(input)?;
        Ok(CuePayloadRef { metadata, event_payload: &input[CUE_METADATA_ENVELOPE_BYTES..input.len()] })
    }
}

/// Allocation-free cue-payload envelope failure.
#[derive(Clone, Copy, Debug, PartialEq, Eq, Structural)]
pub enum CuePayloadError {
    /// Caller-owned output storage cannot hold metadata plus event payload.
    BufferTooSmall,
    /// The input ended before the fixed metadata envelope completed.
    Truncated,
    /// Sequence ranges or required nonzero identifiers are invalid.
    InvalidMetadata,
}

/// Delivery policy applied by the endpoint cue queue.
#[derive(Clone, Copy, Debug, PartialEq, Eq, Structural)]
pub enum CueDelivery {
    /// A required lifecycle, teardown, overflow, or recovery notification.
    Critical,
    /// A normal notification that preserves every admitted record in order.
    Ordered,
    /// A descriptor-authorized high-rate notification whose latest payload
    /// replaces only an exact matching record at the queue tail.
    LatestValueCoalescible,
}

/// Whether a delivery class is admitted through the ordinary lane.
pub open spec fn is_ordinary(d: CueDelivery) -> bool {
    !(d is Critical)
}

impl CueDelivery {
    fn is_ordinary(self) -> (r: bool)
        ensures
            r == is_ordinary(self),
    {
        match self {
            CueDelivery::Critical => false,
            _ => true,
        }
    }
}

/// Descriptor-supplied discriminator used for exact-key coalescing.
#[derive(Clone, Copy, Debug, PartialEq, Eq, Structural, PartialOrd, Ord, Hash)]
pub struct CoalescingKey(u64);

impl View for CoalescingKey {
    type V = u64;

    closed spec fn view(&self) -> u64 {
        self.0
    }
}

impl CoalescingKey {
    /// Construct a coalescing discriminator (zero is valid).
    pub fn new(raw: u64) -> (r: Self)
        ensures
            r@ == raw,
    {
        CoalescingKey(raw)
    }

    /// Return the descriptor-supplied representation.
    pub fn get(self) -> (r: u64)
        ensures
            r == self@,
    {
        self.0
    }
}

/// Stable routing identity shared by one cue input and queued record.
#[derive(Clone, Copy, Debug, PartialEq, Eq, Structural)]
pub struct CueIdentity {
    stage_id: StageId,
    object_id: ObjectId,
    subscription_id: SubscriptionId,
    callback_id: CallbackId,
    event_id: EventId,
}

/// Specification value of a [`CueIdentity`].
pub struct CueIdentityView {
    /// Owning Stage.
    pub stage_id: StageId,
    /// Emitting actor.
    pub object_id: ObjectId,
    /// Runtime subscription token.
    pub subscription_id: SubscriptionId,
    /// Adapter callback token.
    pub callback_id: CallbackId,
    /// Registered event identifier.
    pub event_id: EventId,
}

impl View for CueIdentity {
    type V = CueIdentityView;

    closed spec fn view(&self) -> CueIdentityView {
        CueIdentityView {
            stage_id: self.stage_id,
            object_id: self.object_id,
            subscription_id: self.subscription_id,
            callback_id: self.callback_id,
            event_id: self.event_id,
        }
    }
}

impl CueIdentity {
    /// Construct the nonzero identity fields required by a Cue frame.
    pub fn new(
        stage_id: StageId,
        object_id: ObjectId,
        subscription_id: SubscriptionId,
        callback_id: CallbackId,
        event_id: EventId,
    ) -> (r: Self)
        ensures
            r@ == (CueIdentityView { stage_id, object_id, subscription_id, callback_id, event_id }),
    {
        CueIdentity { stage_id, object_id, subscription_id, callback_id, event_id }
    }

    /// Return the owning Stage.
    pub fn stage_id(self) -> (r: StageId)
        ensures
            r == self@.stage_id,
    {
        self.stage_id
    }

    /// Return the emitting actor.
    pub fn object_id(self) -> (r: ObjectId)
        ensures
            r == self@.object_id,
    {
        self.object_id
    }

    /// Return the runtime subscription token.
    pub fn subscription_id(self) -> (r: SubscriptionId)
        ensures
            r == self@.subscription_id,
    {
        self.subscription_id
    }

    /// Return the adapter callback token.
    pub fn callback_id(self) -> (r: CallbackId)
        ensures
            r == self@.callback_id,
    {
        self.callback_id
    }

    /// Return the registered event identifier.
    pub fn event_id(self) -> (r: EventId)
        ensures
            r == self@.event_id,
    {
        self.event_id
    }
}

/// Which limit rule, if any, rejects a cue-limit declaration.
///
/// Rules are checked in this order: slots, reserve, ordinary capacity,
/// Stage quota, quota size, protocol width, frame overflow, frame size.
pub open spec fn limits_error(
    total_slots: usize,
    critical_reserve: usize,
    per_stage_ordinary_quota: usize,
    max_payload_bytes: usize,
    max_frame_bytes: usize,
) -> Option<CueLimitsError> {
    if total_slots == 0 {
        Some(CueLimitsError::NoSlots)
    } else if critical_reserve == 0 {
        Some(CueLimitsError::NoCriticalReserve)
    } else if critical_reserve >= total_slots {
        Some(CueLimitsError::NoOrdinaryCapacity)
    } else if per_stage_ordinary_quota == 0 {
        Some(CueLimitsError::NoStageQuota)
    } else if per_stage_ordinary_quota > total_slots - critical_reserve {
        Some(CueLimitsError::StageQuotaExceedsOrdinaryCapacity)
    } else if max_payload_bytes > u32::MAX || max_frame_bytes > u32::MAX {
        Some(CueLimitsError::LimitExceedsProtocolWidth)
    } else if CUE_FRAME_OVERHEAD_BYTES + max_payload_bytes > usize::MAX {
        Some(CueLimitsError::FrameSizeOverflow)
    } else if max_frame_bytes < CUE_FRAME_OVERHEAD_BYTES + max_payload_bytes {
        Some(CueLimitsError::FrameTooSmallForPayload)
    } else {
        None
    }
}

/// Validated resource limits for one endpoint-owned cue queue.
#[derive(Clone, Copy, Debug, PartialEq, Eq, Structural)]
pub struct CueLimits {
    total_slots: usize,
    critical_reserve: usize,
    per_stage_ordinary_quota: usize,
    max_payload_bytes: usize,
    max_frame_bytes: usize,
}

impl CueLimits {
    #[verifier::type_invariant]
    spec fn limits_inv(self) -> bool {
        limits_error(
            self.total_slots,
            self.critical_reserve,
            self.per_stage_ordinary_quota,
            self.max_payload_bytes,
            self.max_frame_bytes,
        ) is None
    }

    /// Total record slots.
    pub closed spec fn spec_total_slots(self) -> usize {
        self.total_slots
    }

    /// Slots protected for Critical cues.
    pub closed spec fn spec_critical_reserve(self) -> usize {
        self.critical_reserve
    }

    /// Per-Stage ordinary quota.
    pub closed spec fn spec_quota(self) -> usize {
        self.per_stage_ordinary_quota
    }

    /// Maximum event payload bytes.
    pub closed spec fn spec_max_payload_bytes(self) -> usize {
        self.max_payload_bytes
    }

    /// Maximum accounted frame bytes.
    pub closed spec fn spec_max_frame_bytes(self) -> usize {
        self.max_frame_bytes
    }

    /// Capacity available to ordinary traffic.
    pub open spec fn spec_ordinary_capacity(self) -> int {
        self.spec_total_slots() - self.spec_critical_reserve()
    }

    /// The limits satisfy every declaration rule.
    pub open spec fn is_valid(self) -> bool {
        limits_error(
            self.spec_total_slots(),
            self.spec_critical_reserve(),
            self.spec_quota(),
            self.spec_max_payload_bytes(),
            self.spec_max_frame_bytes(),
        ) is None
    }

    /// Validate and construct endpoint cue limits.
    ///
    /// At least one slot must remain available to ordinary traffic and at
    /// least one slot must be protected for Critical traffic.
    pub fn new(
        total_slots: usize,
        critical_reserve: usize,
        per_stage_ordinary_quota: usize,
        max_payload_bytes: usize,
        max_frame_bytes: usize,
    ) -> (r: Result<Self, CueLimitsError>)
        ensures
            limits_error(
                total_slots,
                critical_reserve,
                per_stage_ordinary_quota,
                max_payload_bytes,
                max_frame_bytes,
            ) matches Some(e) ==> r == Err::<Self, CueLimitsError>(e),
            r matches Ok(l) ==> limits_error(
                total_slots,
                critical_reserve,
                per_stage_ordinary_quota,
                max_payload_bytes,
                max_frame_bytes,
            ) is None && l.spec_total_slots() == total_slots && l.spec_critical_reserve()
                == critical_reserve && l.spec_quota() == per_stage_ordinary_quota
                && l.spec_max_payload_bytes() == max_payload_bytes && l.spec_max_frame_bytes()
                == max_frame_bytes,
            limits_error(
                total_slots,
                critical_reserve,
                per_stage_ordinary_quota,
                max_payload_bytes,
                max_frame_bytes,
            ) is None ==> r is Ok,
    {
        if total_slots == 0 {
            return Err(CueLimitsError::NoSlots);
        }
        if critical_reserve == 0 {
            return Err(CueLimitsError::NoCriticalReserve);
        }
        if critical_reserve >= total_slots {
            return Err(CueLimitsError::NoOrdinaryCapacity);
        }
        let ordinary_capacity = total_slots - critical_reserve;
        if per_stage_ordinary_quota == 0 {
            return Err(CueLimitsError::NoStageQuota);
        }
        if per_stage_ordinary_quota > ordinary_capacity {
            return Err(CueLimitsError::StageQuotaExceedsOrdinaryCapacity);
        }
        if max_payload_bytes > u32::MAX as usize || max_frame_bytes > u32::MAX as usize {
            return Err(CueLimitsError::LimitExceedsProtocolWidth);
        }
        let required_frame_bytes = match CUE_FRAME_OVERHEAD_BYTES.checked_add(max_payload_bytes) {
            Some(v) => v,
            None => return Err(CueLimitsError::FrameSizeOverflow),
        };
        if max_frame_bytes < required_frame_bytes {
            return Err(CueLimitsError::FrameTooSmallForPayload);
        }
        Ok(CueLimits {
            total_slots,
            critical_reserve,
            per_stage_ordinary_quota,
            max_payload_bytes,
            max_frame_bytes,
        })
    }

    /// Return the maximum number of queued records of all classes.
    pub fn total_slots(self) -> (r: usize)
        ensures
            r == self.spec_total_slots(),
            self.is_valid(),
    {
        proof { use_type_invariant(&self); }
        self.total_slots
    }

    /// Return the capacity protected from ordinary cue admission.
    pub fn critical_reserve(self) -> (r: usize)
        ensures
            r == self.spec_critical_reserve(),
            self.is_valid(),
    {
        proof { use_type_invariant(&self); }
        self.critical_reserve
    }

    /// Return the maximum pending ordinary records owned by one Stage.
    pub fn per_stage_ordinary_quota(self) -> (r: usize)
        ensures
            r == self.spec_quota(),
            self.is_valid(),
    {
        proof { use_type_invariant(&self); }
        self.per_stage_ordinary_quota
    }

    /// Return the maximum owned event payload size.
    pub fn max_payload_bytes(self) -> (r: usize)
        ensures
            r == self.spec_max_payload_bytes(),
            self.is_valid(),
    {
        proof { use_type_invariant(&self); }
        self.max_payload_bytes
    }

    /// Return the maximum accounted canonical Cue frame size.
    pub fn max_frame_bytes(self) -> (r: usize)
        ensures
            r == self.spec_max_frame_bytes(),
            self.is_valid(),
    {
        proof { use_type_invariant(&self); }
        self.max_frame_bytes
    }

    fn ordinary_capacity(self) -> (r: usize)
        ensures
            r == self.spec_ordinary_capacity(),
            self.is_valid(),
    {
        proof { use_type_invariant(&self); }
        self.total_slots - self.critical_reserve
    }
}

/// Invalid endpoint cue-limit declaration.
#[derive(Clone, Copy, Debug, PartialEq, Eq, Structural)]
pub enum CueLimitsError {
    /// The queue has no record slots.
    NoSlots,
    /// No capacity is protected for Critical cues.
    NoCriticalReserve,
    /// The reserve consumes every slot, leaving no ordinary capacity.
    NoOrdinaryCapacity,
    /// A Stage is not allowed to hold any ordinary record.
    NoStageQuota,
    /// One Stage quota is larger than the endpoint's ordinary capacity.
    StageQuotaExceedsOrdinaryCapacity,
    /// Fixed overhead plus the payload limit overflowed `usize`.
    FrameSizeOverflow,
    /// The frame limit cannot contain the declared maximum payload.
    FrameTooSmallForPayload,
    /// A payload or frame limit cannot be represented by the `u32` codec.
    LimitExceedsProtocolWidth,
}

/// Specification value of a [`CueInput`].
pub struct CueInputView {
    /// Owning Stage.
    pub stage_id: StageId,
    /// Committed Stage Revision visible when the cue was emitted.
    pub stage_revision: StageRevision,
    /// Native event traversal sequence that emitted the cue.
    pub native_event_sequence: NativeEventSequence,
    /// Emitting actor.
    pub object_id: ObjectId,
    /// Runtime subscription token.
    pub subscription_id: SubscriptionId,
    /// Adapter callback token.
    pub callback_id: CallbackId,
    /// Registered event identifier.
    pub event_id: EventId,
    /// Requested delivery policy.
    pub delivery: CueDelivery,
    /// Optional coalescing discriminator.
    pub coalescing_key: Option<CoalescingKey>,
    /// Owned event payload.
    pub payload: Seq<u8>,
}

/// Owned cue offered to the endpoint queue.
#[derive(Clone, Debug, PartialEq, Eq)]
pub struct CueInput {
    stage_id: StageId,
    stage_revision: StageRevision,
    native_event_sequence: NativeEventSequence,
    object_id: ObjectId,
    subscription_id: SubscriptionId,
    callback_id: CallbackId,
    event_id: EventId,
    delivery: CueDelivery,
    coalescing_key: Option<CoalescingKey>,
    payload: Vec<u8>,
}

impl View for CueInput {
    type V = CueInputView;

    closed spec fn view(&self) -> CueInputView {
        CueInputView {
            stage_id: self.stage_id,
            stage_revision: self.stage_revision,
            native_event_sequence: self.native_event_sequence,
            object_id: self.object_id,
            subscription_id: self.subscription_id,
            callback_id: self.callback_id,
            event_id: self.event_id,
            delivery: self.delivery,
            coalescing_key: self.coalescing_key,
            payload: self.payload@,
        }
    }
}

impl CueInput {
    /// Construct an owned cue input.
    pub fn new(
        identity: CueIdentity,
        stage_revision: StageRevision,
        native_event_sequence: NativeEventSequence,
        delivery: CueDelivery,
        payload: Vec<u8>,
    ) -> (r: Self)
        ensures
            r@ == (CueInputView {
                stage_id: identity@.stage_id,
                stage_revision,
                native_event_sequence,
                object_id: identity@.object_id,
                subscription_id: identity@.subscription_id,
                callback_id: identity@.callback_id,
                event_id: identity@.event_id,
                delivery,
                coalescing_key: None,
                payload: payload@,
            }),
    {
        CueInput {
            stage_id: identity.stage_id,
            stage_revision,
            native_event_sequence,
            object_id: identity.object_id,
            subscription_id: identity.subscription_id,
            callback_id: identity.callback_id,
            event_id: identity.event_id,
            delivery,
            coalescing_key: None,
            payload,
        }
    }

    /// Attach the descriptor-supplied discriminator required for coalescing.
    pub fn with_coalescing_key(self, key: CoalescingKey) -> (r: Self)
        ensures
            r@ == (CueInputView { coalescing_key: Some(key), ..self@ }),
    {
        let mut s = self;
        s.coalescing_key = Some(key);
        s
    }

    /// Return the owning Stage.
    pub fn stage_id(&self) -> (r: StageId)
        ensures
            r == self@.stage_id,
    {
        self.stage_id
    }

    /// Return the committed Stage Revision visible when the cue was emitted.
    pub fn stage_revision(&self) -> (r: StageRevision)
        ensures
            r == self@.stage_revision,
    {
        self.stage_revision
    }

    /// Return the native event traversal sequence that emitted the cue.
    pub fn native_event_sequence(&self) -> (r: NativeEventSequence)
        ensures
            r == self@.native_event_sequence,
    {
        self.native_event_sequence
    }

    /// Return the actor that emitted the cue.
    pub fn object_id(&self) -> (r: ObjectId)
        ensures
            r == self@.object_id,
    {
        self.object_id
    }

    /// Return the runtime subscription token.
    pub fn subscription_id(&self) -> (r: SubscriptionId)
        ensures
            r == self@.subscription_id,
    {
        self.subscription_id
    }

    /// Return the adapter callback token.
    pub fn callback_id(&self) -> (r: CallbackId)
        ensures
            r == self@.callback_id,
    {
        self.callback_id
    }

    /// Return the registered event identifier.
    pub fn event_id(&self) -> (r: EventId)
        ensures
            r == self@.event_id,
    {
        self.event_id
    }

    /// Return the requested delivery policy.
    pub fn delivery(&self) -> (r: CueDelivery)
        ensures
            r == self@.delivery,
    {
        self.delivery
    }

    /// Return the optional descriptor-supplied coalescing discriminator.
    pub fn coalescing_key(&self) -> (r: Option<CoalescingKey>)
        ensures
            r == self@.coalescing_key,
    {
        self.coalescing_key
    }

    /// Borrow the owned event payload.
    pub fn payload(&self) -> (r: &[u8])
        ensures
            r@ == self@.payload,
    {
        self.payload.as_slice()
    }
}

/// Specification value of a [`CueRecord`].
pub struct CueRecordView {
    /// Owning Stage.
    pub stage_id: StageId,
    /// Committed Stage Revision shared by the represented events.
    pub stage_revision: StageRevision,
    /// First native event sequence represented.
    pub first_native_event_sequence: NativeEventSequence,
    /// Last native event sequence represented.
    pub last_native_event_sequence: NativeEventSequence,
    /// Emitting actor.
    pub object_id: ObjectId,
    /// Runtime subscription token.
    pub subscription_id: SubscriptionId,
    /// Adapter callback token.
    pub callback_id: CallbackId,
    /// Registered event identifier.
    pub event_id: EventId,
    /// Queue delivery class.
    pub delivery: CueDelivery,
    /// Coalescing discriminator.
    pub coalescing_key: Option<CoalescingKey>,
    /// First endpoint sequence represented.
    pub first_sequence: CueSequence,
    /// Last endpoint sequence represented.
    pub last_sequence: CueSequence,
    /// Later emissions merged into this record.
    pub merge_count: u32,
    /// Latest event payload.
    pub payload: Seq<u8>,
}

/// Record created when `input` is admitted with sequence `seq`.
pub open spec fn record_from_input(i: CueInputView, seq: CueSequence) -> CueRecordView {
    CueRecordView {
        stage_id: i.stage_id,
        stage_revision: i.stage_revision,
        first_native_event_sequence: i.native_event_sequence,
        last_native_event_sequence: i.native_event_sequence,
        object_id: i.object_id,
        subscription_id: i.subscription_id,
        callback_id: i.callback_id,
        event_id: i.event_id,
        delivery: i.delivery,
        coalescing_key: i.coalescing_key,
        first_sequence: seq,
        last_sequence: seq,
        merge_count: 0,
        payload: i.payload,
    }
}

/// Whether `input` carries exactly the coalescing key of record `r`.
pub open spec fn exact_key_matches(r: CueRecordView, i: CueInputView) -> bool {
    &&& r.delivery is LatestValueCoalescible
    &&& i.delivery is LatestValueCoalescible
    &&& r.stage_id == i.stage_id
    &&& r.stage_revision == i.stage_revision
    &&& r.object_id == i.object_id
    &&& r.subscription_id == i.subscription_id
    &&& r.callback_id == i.callback_id
    &&& r.event_id == i.event_id
    &&& r.coalescing_key == i.coalescing_key
}

/// Record `r` after merging the later emission `input` with sequence `seq`.
pub open spec fn merged_record(r: CueRecordView, i: CueInputView, seq: CueSequence) -> CueRecordView {
    CueRecordView {
        last_sequence: seq,
        last_native_event_sequence: i.native_event_sequence,
        merge_count: (r.merge_count + 1) as u32,
        payload: i.payload,
        ..r
    }
}

/// Accounted canonical frame size of a record.
pub open spec fn frame_bytes_of(r: CueRecordView) -> int {
    CUE_FRAME_OVERHEAD_BYTES + r.payload.len()
}

/// Metadata fields carried by a record.
pub open spec fn record_fields(r: CueRecordView) -> MetadataFields {
    (
        r.stage_revision@,
        r.first_native_event_sequence@,
        r.last_native_event_sequence@,
        r.first_sequence@,
        r.last_sequence@,
        r.merge_count,
    )
}

/// Immutable queued cue returned by a bounded drain.
#[derive(Clone, Debug, PartialEq, Eq)]
pub struct CueRecord {
    stage_id: StageId,
    stage_revision: StageRevision,
    first_native_event_sequence: NativeEventSequence,
    last_native_event_sequence: NativeEventSequence,
    object_id: ObjectId,
    subscription_id: SubscriptionId,
    callback_id: CallbackId,
    event_id: EventId,
    delivery: CueDelivery,
    coalescing_key: Option<CoalescingKey>,
    first_sequence: CueSequence,
    last_sequence: CueSequence,
    merge_count: u32,
    payload: Vec<u8>,
}

impl View for CueRecord {
    type V = CueRecordView;

    closed spec fn view(&self) -> CueRecordView {
        CueRecordView {
            stage_id: self.stage_id,
            stage_revision: self.stage_revision,
            first_native_event_sequence: self.first_native_event_sequence,
            last_native_event_sequence: self.last_native_event_sequence,
            object_id: self.object_id,
            subscription_id: self.subscription_id,
            callback_id: self.callback_id,
            event_id: self.event_id,
            delivery: self.delivery,
            coalescing_key: self.coalescing_key,
            first_sequence: self.first_sequence,
            last_sequence: self.last_sequence,
            merge_count: self.merge_count,
            payload: self.payload@,
        }
    }
}

impl CueRecord {
    fn from_input(input: CueInput, sequence: CueSequence) -> (r: Self)
        ensures
            r@ == record_from_input(input@, sequence),
    {
        CueRecord {
            stage_id: input.stage_id,
            stage_revision: input.stage_revision,
            first_native_event_sequence: input.native_event_sequence,
            last_native_event_sequence: input.native_event_sequence,
            object_id: input.object_id,
            subscription_id: input.subscription_id,
            callback_id: input.callback_id,
            event_id: input.event_id,
            delivery: input.delivery,
            coalescing_key: input.coalescing_key,
            first_sequence: sequence,
            last_sequence: sequence,
            merge_count: 0,
            payload: input.payload,
        }
    }

    fn exact_coalescing_key_matches(&self, input: &CueInput) -> (r: bool)
        ensures
            r == exact_key_matches(self@, input@),
    {
        let keys_equal = match (self.coalescing_key, input.coalescing_key) {
            (Some(a), Some(b)) => a.0 == b.0,
            (None, None) => true,
            _ => false,
        };
        let r = self.delivery == CueDelivery::LatestValueCoalescible
            && input.delivery == CueDelivery::LatestValueCoalescible
            && self.stage_id == input.stage_id
            && self.stage_revision == input.stage_revision
            && self.object_id == input.object_id
            && self.subscription_id == input.subscription_id
            && self.callback_id == input.callback_id
            && self.event_id == input.event_id
            && keys_equal;
        r
    }

    fn replace_with(self, input: CueInput, sequence: CueSequence) -> (r: Self)
        requires
            self@.merge_count < u32::MAX,
        ensures
            r@ == merged_record(self@, input@, sequence),
    {
        CueRecord {
            last_sequence: sequence,
            last_native_event_sequence: input.native_event_sequence,
            merge_count: self.merge_count + 1,
            payload: input.payload,
            ..self
        }
    }

    /// Return the owning Stage.
    pub fn stage_id(&self) -> (r: StageId)
        ensures
            r == self@.stage_id,
    {
        self.stage_id
    }

    /// Return the committed Stage Revision shared by the represented events.
    pub fn stage_revision(&self) -> (r: StageRevision)
        ensures
            r == self@.stage_revision,
    {
        self.stage_revision
    }

    /// Return the first native event sequence represented by this record.
    pub fn first_native_event_sequence(&self) -> (r: NativeEventSequence)
        ensures
            r == self@.first_native_event_sequence,
    {
        self.first_native_event_sequence
    }

    /// Return the last native event sequence represented by this record.
    pub fn last_native_event_sequence(&self) -> (r: NativeEventSequence)
        ensures
            r == self@.last_native_event_sequence,
    {
        self.last_native_event_sequence
    }

    /// Return the actor that emitted the cue.
    pub fn object_id(&self) -> (r: ObjectId)
        ensures
            r == self@.object_id,
    {
        self.object_id
    }

    /// Return the runtime subscription token.
    pub fn subscription_id(&self) -> (r: SubscriptionId)
        ensures
            r == self@.subscription_id,
    {
        self.subscription_id
    }

    /// Return the adapter callback token.
    pub fn callback_id(&self) -> (r: CallbackId)
        ensures
            r == self@.callback_id,
    {
        self.callback_id
    }

    /// Return the registered event identifier.
    pub fn event_id(&self) -> (r: EventId)
        ensures
            r == self@.event_id,
    {
        self.event_id
    }

    /// Return the queue delivery class.
    pub fn delivery(&self) -> (r: CueDelivery)
        ensures
            r == self@.delivery,
    {
        self.delivery
    }

    /// Return the descriptor-supplied coalescing discriminator.
    pub fn coalescing_key(&self) -> (r: Option<CoalescingKey>)
        ensures
            r == self@.coalescing_key,
    {
        self.coalescing_key
    }

    /// Return the first endpoint sequence represented by this record.
    pub fn first_sequence(&self) -> (r: CueSequence)
        ensures
            r == self@.first_sequence,
    {
        self.first_sequence
    }

    /// Return the last and delivery-order endpoint sequence represented here.
    pub fn last_sequence(&self) -> (r: CueSequence)
        ensures
            r == self@.last_sequence,
    {
        self.last_sequence
    }

    /// Return the number of later emissions merged into this record.
    pub fn merge_count(&self) -> (r: u32)
        ensures
            r == self@.merge_count,
    {
        self.merge_count
    }

    /// Borrow the latest event payload.
    pub fn payload(&self) -> (r: &[u8])
        ensures
            r@ == self@.payload,
    {
        self.payload.as_slice()
    }

    /// Return the metadata represented by this record.
    pub fn payload_metadata(&self) -> (r: CuePayloadMetadata)
        ensures
            r.fields() == record_fields(self@),
    {
        CuePayloadMetadata {
            stage_revision: self.stage_revision,
            first_native_event_sequence: self.first_native_event_sequence,
            last_native_event_sequence: self.last_native_event_sequence,
            first_cue_sequence: self.first_sequence,
            last_cue_sequence: self.last_sequence,
            merge_count: self.merge_count,
        }
    }

    /// Encode metadata followed by event payload into caller-owned storage.
    pub fn encode_payload_envelope(&self, output: &mut [u8]) -> (r: Result<usize, CuePayloadError>)
        ensures
            old(output)@.len() < CUE_METADATA_ENVELOPE_BYTES + self@.payload.len() ==> r
                == Err::<usize, CuePayloadError>(CuePayloadError::BufferTooSmall),
            old(output)@.len() >= CUE_METADATA_ENVELOPE_BYTES + self@.payload.len()
                && !fields_valid(record_fields(self@)) ==> r == Err::<usize, CuePayloadError>(
                CuePayloadError::InvalidMetadata,
            ),
            r is Err ==> final(output)@ == old(output)@,
            old(output)@.len() >= CUE_METADATA_ENVELOPE_BYTES + self@.payload.len()
                && fields_valid(record_fields(self@)) ==> {
                let n = CUE_METADATA_ENVELOPE_BYTES + self@.payload.len();
                &&& r == Ok::<usize, CuePayloadError>(n as usize)
                &&& final(output)@ == envelope_bytes(record_fields(self@)) + self@.payload
                    + old(output)@.skip(n)
            },
    {
        let out_len = output.len();
        let payload_bytes = match CUE_METADATA_ENVELOPE_BYTES.checked_add(self.payload.len()) {
            Some(n) => n,
            None => return Err(CuePayloadError::BufferTooSmall),
        };
        if out_len < payload_bytes {
            return Err(CuePayloadError::BufferTooSmall);
        }
        let ghost o = output@;
        self.payload_metadata().encode(output)?;
        let ghost after = output@;
        let mut i: usize = 0;
        while i < self.payload.len()
            invariant
                0 <= i <= self.payload@.len(),
                payload_bytes == CUE_METADATA_ENVELOPE_BYTES + self.payload@.len(),
                output@.len() == o.len(),
                payload_bytes <= o.len(),
                after == envelope_bytes(record_fields(self@)) + o.skip(36),
                forall|k: int| 0 <= k < 36 + i ==> #[trigger] output@[k] == (
                    envelope_bytes(record_fields(self@)) + self.payload@)[k],
                forall|k: int| 36 + i <= k < o.len() ==> #[trigger] output@[k] == o[k],
            decreases self.payload@.len() - i,
        {
            output[CUE_METADATA_ENVELOPE_BYTES + i] = self.payload[i];
            i = i + 1;
        }
        proof {
            lemma_envelope_round_trip(record_fields(self@));
            assert(output@ =~= envelope_bytes(record_fields(self@)) + self@.payload + o.skip(
                payload_bytes as int,
            ));
        }
        Ok(payload_bytes)
    }

    /// Return the accounted canonical Cue frame size.
    pub fn frame_bytes(&self) -> (r: usize)
        requires
            CUE_FRAME_OVERHEAD_BYTES + self@.payload.len() <= usize::MAX,
        ensures
            r == frame_bytes_of(self@),
    {
        CUE_FRAME_OVERHEAD_BYTES + self.payload.len()
    }
}

/// Outcome of a successful cue admission.
#[derive(Clone, Copy, Debug, PartialEq, Eq, Structural)]
pub enum EnqueueOutcome {
    /// A new record was appended to the endpoint queue.
    Queued {
        /// Sequence allocated to the appended record.
        sequence: CueSequence,
    },
    /// A descriptor-authorized emission replaced the exact matching tail.
    Coalesced {
        /// First sequence represented by the retained record.
        first_sequence: CueSequence,
        /// Sequence allocated to the replacing emission.
        last_sequence: CueSequence,
        /// Number of later emissions merged into the retained record.
        merge_count: u32,
    },
}

/// Specification value of a [`PendingCueLoss`].
pub struct PendingCueLossView {
    /// First rejected ordinary cue sequence.
    pub first_sequence: CueSequence,
    /// Last rejected ordinary cue sequence.
    pub last_sequence: CueSequence,
    /// Number of rejected ordinary cue emissions.
    pub lost_count: u32,
}

/// Endpoint cue-sequence range and count lost before overflow notification.
#[derive(Clone, Copy, Debug, PartialEq, Eq, Structural)]
pub struct PendingCueLoss {
    first_sequence: CueSequence,
    last_sequence: CueSequence,
    lost_count: u32,
}

impl View for PendingCueLoss {
    type V = PendingCueLossView;

    closed spec fn view(&self) -> PendingCueLossView {
        PendingCueLossView {
            first_sequence: self.first_sequence,
            last_sequence: self.last_sequence,
            lost_count: self.lost_count,
        }
    }
}

/// Loss range after the rejected emission `seq` is added.
pub open spec fn loss_with(loss: Option<PendingCueLossView>, seq: CueSequence) -> PendingCueLossView {
    match loss {
        Some(l) => PendingCueLossView {
            last_sequence: seq,
            lost_count: (l.lost_count + 1) as u32,
            ..l
        },
        None => PendingCueLossView { first_sequence: seq, last_sequence: seq, lost_count: 1 },
    }
}

impl PendingCueLoss {
    fn first(sequence: CueSequence) -> (r: Self)
        ensures
            r@ == loss_with(None, sequence),
    {
        PendingCueLoss { first_sequence: sequence, last_sequence: sequence, lost_count: 1 }
    }

    fn extend(self, sequence: CueSequence) -> (r: Self)
        requires
            self@.lost_count < u32::MAX,
        ensures
            r@ == loss_with(Some(self@), sequence),
    {
        PendingCueLoss { last_sequence: sequence, lost_count: self.lost_count + 1, ..self }
    }

    /// Return the first rejected ordinary cue sequence.
    pub fn first_sequence(self) -> (r: CueSequence)
        ensures
            r == self@.first_sequence,
    {
        self.first_sequence
    }

    /// Return the last rejected ordinary cue sequence.
    pub fn last_sequence(self) -> (r: CueSequence)
        ensures
            r == self@.last_sequence,
    {
        self.last_sequence
    }

    /// Return the number of rejected ordinary cue emissions.
    pub fn lost_count(self) -> (r: u32)
        ensures
            r == self@.lost_count,
    {
        self.lost_count
    }
}

/// Successful Critical notice that resolved one pending cue-loss barrier.
#[derive(Clone, Copy, Debug, PartialEq, Eq, Structural)]
pub struct OverflowNoticeOutcome {
    /// Loss range reported by the admitted notice.
    pub loss: PendingCueLoss,
    /// Endpoint sequence assigned to the Critical notice.
    pub notice_sequence: CueSequence,
}

/// Cue admission failure.
#[derive(Clone, Copy, Debug, PartialEq, Eq, Structural)]
pub enum CueQueueError {
    /// A queue-owned reservation could not be satisfied without panicking.
    AllocationFailed,
    /// The endpoint is faulted and requires an epoch reset or recovery action.
    Faulted,
    /// A latest-value coalescible cue omitted its exact-key discriminator.
    MissingCoalescingKey,
    /// A Critical or Ordered cue supplied a coalescing discriminator.
    UnexpectedCoalescingKey,
    /// The owned event payload exceeds the negotiated limit.
    PayloadTooLarge {
        /// Offered payload bytes.
        actual: usize,
        /// Negotiated maximum payload bytes.
        maximum: usize,
    },
    /// The canonical Cue frame exceeds the negotiated frame limit.
    FrameTooLarge {
        /// Accounted complete frame bytes.
        actual: usize,
        /// Negotiated maximum frame bytes.
        maximum: usize,
    },
    /// The endpoint ordinary lane has no free record slot.
    OrdinaryCapacityExhausted {
        /// Sequence allocated to the rejected emission.
        sequence: CueSequence,
    },
    /// The owning Stage reached its pending ordinary-record quota.
    StageQuotaExhausted {
        /// Sequence allocated to the rejected emission.
        sequence: CueSequence,
        /// Stage whose quota rejected the record.
        stage_id: StageId,
    },
    /// An ordinary cue was rejected behind a pending loss barrier.
    OrdinaryBackpressured {
        /// Sequence allocated to the rejected emission and added to the loss.
        sequence: CueSequence,
    },
    /// VM-side draining is gated until the pending loss notice is queued.
    DrainBackpressured,
    /// A loss-notice API was called without a pending ordinary loss.
    NoPendingCueLoss,
    /// The explicit overflow-notice API requires a Critical cue input.
    OverflowNoticeMustBeCritical,
    /// A Critical record could not be admitted and faulted the endpoint.
    CriticalCapacityExhausted {
        /// Sequence allocated to the failed Critical emission.
        sequence: CueSequence,
    },
    /// The endpoint-wide `u32` sequence space was exhausted.
    SequenceExhausted,
    /// An exact-key coalescing candidate did not advance native event order.
    NonMonotonicCoalescingEventSequence {
        /// Last native event sequence already represented by the tail.
        previous: NativeEventSequence,
        /// Native event sequence offered by the new cue.
        offered: NativeEventSequence,
    },
    /// A Stage Revision regressed relative to an earlier cue in this epoch.
    StageRevisionRegressed {
        /// Stage whose revision regressed.
        stage_id: StageId,
        /// Last revision accepted for that Stage.
        previous: StageRevision,
        /// Regressing revision offered by the new cue.
        offered: StageRevision,
    },
    /// The endpoint-wide native event sequence regressed.
    NativeEventSequenceRegressed {
        /// Last native event sequence accepted by the queue.
        previous: NativeEventSequence,
        /// Regressing sequence offered by the new cue.
        offered: NativeEventSequence,
    },
    /// The epoch has no pre-reserved causality slot for another Stage.
    StageCausalityCapacityExhausted {
        /// Stage that could not be tracked without allocating during enqueue.
        stage_id: StageId,
    },
}

/// Out-of-band emergency notice retained after an endpoint fault.
#[derive(Clone, Copy, Debug, PartialEq, Eq, Structural)]
pub enum EmergencyFault {
    /// The queue could not admit a required Critical cue.
    CriticalCapacityExhausted {
        /// Sequence allocated to the failed Critical emission.
        sequence: CueSequence,
        /// Stage that emitted the required cue.
        stage_id: StageId,
        /// Event that could not be queued.
        event_id: EventId,
    },
    /// The endpoint-wide `u32` CueSequence space was exhausted.
    SequenceExhausted,
    /// A required Critical cue referenced an untrackable new Stage.
    CriticalStageCausalityCapacityExhausted {
        /// Stage that could not be tracked within the pre-reserved capacity.
        stage_id: StageId,
        /// Critical event that could not be admitted safely.
        event_id: EventId,
    },
}

/// Runtime health of the endpoint cue queue.
#[derive(Clone, Copy, Debug, PartialEq, Eq, Structural)]
pub enum CueEndpointState {
    /// Admissions and drains operate normally.
    Ready,
    /// Ordinary admissions are gated until a Critical loss notice is queued.
    Backpressured,
    /// A required cue could not be represented or admitted.
    Faulted,
}

/// Maximum work allowed in one VM-safe cue drain.
#[derive(Clone, Copy, Debug, PartialEq, Eq, Structural)]
pub struct DrainBudget {
    /// Maximum number of records returned by this drain.
    pub max_cues: usize,
    /// Maximum sum of accounted canonical frame bytes.
    pub max_bytes: usize,
}

impl DrainBudget {
    /// Construct a caller-selected cue-count and byte-count drain budget.
    ///
    /// Selecting fewer bytes than the queue head's accounted frame size is an
    /// intentional no-progress request.
    pub fn new(max_cues: usize, max_bytes: usize) -> (r: Self)
        ensures
            r == (DrainBudget { max_cues, max_bytes }),
    {
        DrainBudget { max_cues, max_bytes }
    }

    /// Construct a limits-derived budget that can carry every admitted cue.
    ///
    /// A positive cue budget reserves one maximum frame per cue, saturating
    /// on `usize` overflow; a zero cue budget yields a zero-byte drain.
    pub fn for_limits(limits: CueLimits, max_cues: usize) -> (r: Self)
        ensures
            r.max_cues == max_cues,
            r.max_bytes == if limits.spec_max_frame_bytes() * max_cues > usize::MAX {
                usize::MAX as int
            } else {
                limits.spec_max_frame_bytes() * max_cues
            },
    {
        let frame = limits.max_frame_bytes();
        let max_bytes = match frame.checked_mul(max_cues) {
            Some(v) => v,
            None => usize::MAX,
        };
        DrainBudget { max_cues, max_bytes }
    }
}

/// Records and byte accounting produced by one bounded drain.
#[derive(Clone, Debug, PartialEq, Eq)]
pub struct DrainedCues {
    /// Globally ordered records removed from the endpoint queue.
    pub cues: Vec<CueRecord>,
    /// Sum of [`CueRecord::frame_bytes`] for returned records.
    pub frame_bytes: usize,
}

/// Number of records in `s` that satisfy `p`.
pub open spec fn count_where(s: Seq<CueRecordView>, p: spec_fn(CueRecordView) -> bool) -> nat
    decreases s.len(),
{
    if s.len() == 0 {
        0
    } else {
        count_where(s.drop_last(), p) + if p(s.last()) { 1nat } else { 0nat }
    }
}

/// Pending ordinary (non-Critical) records.
pub open spec fn count_ordinary(s: Seq<CueRecordView>) -> nat {
    count_where(s, |r: CueRecordView| is_ordinary(r.delivery))
}

/// Pending ordinary records owned by `stage`.
pub open spec fn count_stage_ordinary(s: Seq<CueRecordView>, stage: StageId) -> nat {
    count_where(s, |r: CueRecordView| is_ordinary(r.delivery) && r.stage_id == stage)
}

/// Counting distributes over concatenation.
pub proof fn lemma_count_concat(
    a: Seq<CueRecordView>,
    b: Seq<CueRecordView>,
    p: spec_fn(CueRecordView) -> bool,
)
    ensures
        count_where(a + b, p) == count_where(a, p) + count_where(b, p),
    decreases b.len(),
{
    if b.len() == 0 {
        assert(a + b =~= a);
    } else {
        lemma_count_concat(a, b.drop_last(), p);
        assert((a + b).drop_last() =~= a + b.drop_last());
        assert((a + b).last() == b.last());
    }
}

/// A count never exceeds the length of the sequence.
pub proof fn lemma_count_bound(s: Seq<CueRecordView>, p: spec_fn(CueRecordView) -> bool)
    ensures
        count_where(s, p) <= s.len(),
    decreases s.len(),
{
    if s.len() > 0 {
        lemma_count_bound(s.drop_last(), p);
    }
}

proof fn lemma_count_push(s: Seq<CueRecordView>, r: CueRecordView, p: spec_fn(CueRecordView) -> bool)
    ensures
        count_where(s.push(r), p) == count_where(s, p) + if p(r) { 1nat } else { 0nat },
{
    assert(s.push(r).drop_last() =~= s);
}

proof fn lemma_count_update_last(
    s: Seq<CueRecordView>,
    r: CueRecordView,
    p: spec_fn(CueRecordView) -> bool,
)
    requires
        s.len() > 0,
        p(r) == p(s.last()),
    ensures
        count_where(s.update(s.len() - 1, r), p) == count_where(s, p),
{
    assert(s.update(s.len() - 1, r).drop_last() =~= s.drop_last());
}

proof fn lemma_count_skip(s: Seq<CueRecordView>, k: int, p: spec_fn(CueRecordView) -> bool)
    requires
        0 <= k <= s.len(),
    ensures
        count_where(s.skip(k), p) == count_where(s, p) - count_where(s.take(k), p),
{
    lemma_count_concat(s.take(k), s.skip(k), p);
    assert(s.take(k) + s.skip(k) =~= s);
}

/// Sum of accounted frame bytes of the first `k` records.
pub open spec fn prefix_bytes(s: Seq<CueRecordView>, k: int) -> int
    decreases k,
{
    if k <= 0 {
        0
    } else {
        prefix_bytes(s, k - 1) + frame_bytes_of(s[k - 1])
    }
}

/// `k` is the length of the longest queue prefix that fits `budget`.
pub open spec fn drain_count_ok(s: Seq<CueRecordView>, budget: DrainBudget, k: int) -> bool {
    &&& 0 <= k <= s.len()
    &&& k <= budget.max_cues
    &&& prefix_bytes(s, k) <= budget.max_bytes
    &&& (k == s.len() || k == budget.max_cues || prefix_bytes(s, k + 1) > budget.max_bytes)
}

proof fn lemma_prefix_monotone(s: Seq<CueRecordView>, j: int, k: int)
    requires
        0 <= j <= k <= s.len(),
    ensures
        prefix_bytes(s, j) <= prefix_bytes(s, k),
        j < k ==> prefix_bytes(s, j) < prefix_bytes(s, k),
    decreases k - j,
{
    if j < k {
        lemma_prefix_monotone(s, j, k - 1);
    }
}

/// The drain length is unique: at most one prefix length is the longest
/// prefix that fits a budget.
pub proof fn lemma_drain_count_unique(s: Seq<CueRecordView>, budget: DrainBudget, k1: int, k2: int)
    requires
        drain_count_ok(s, budget, k1),
        drain_count_ok(s, budget, k2),
    ensures
        k1 == k2,
{
    if k1 < k2 {
        lemma_prefix_monotone(s, k1 + 1, k2);
    } else if k2 < k1 {
        lemma_prefix_monotone(s, k2 + 1, k1);
    }
}

/// Abstract state of a [`CueQueue`].
pub struct CueQueueModel {
    /// Limits governing the queue.
    pub limits: CueLimits,
    /// Pending records in delivery order.
    pub records: Seq<CueRecordView>,
    /// Last accepted revision per tracked Stage, in first-seen order.
    pub stages: Seq<(StageId, StageRevision)>,
    /// Last accepted native event sequence.
    pub last_native: Option<NativeEventSequence>,
    /// Next sequence to allocate; zero once the sequence space is exhausted.
    pub next_sequence: u32,
    /// Endpoint health.
    pub state: CueEndpointState,
    /// Ordinary loss awaiting a Critical notice.
    pub pending_loss: Option<PendingCueLossView>,
    /// Retained emergency fault.
    pub emergency_fault: Option<EmergencyFault>,
}

/// Position of `stage` in the causality table, if tracked.
pub open spec fn stage_index(stages: Seq<(StageId, StageRevision)>, stage: StageId) -> Option<int> {
    if exists|k: int| 0 <= k < stages.len() && stages[k].0 == stage {
        Some(choose|k: int| 0 <= k < stages.len() && stages[k].0 == stage)
    } else {
        None
    }
}

/// Structural validation of a cue against the limits.
pub open spec fn input_error(l: CueLimits, i: CueInputView) -> Option<CueQueueError> {
    if i.delivery is LatestValueCoalescible && i.coalescing_key is None {
        Some(CueQueueError::MissingCoalescingKey)
    } else if !(i.delivery is LatestValueCoalescible) && i.coalescing_key is Some {
        Some(CueQueueError::UnexpectedCoalescingKey)
    } else if i.payload.len() > l.spec_max_payload_bytes() {
        Some(
            CueQueueError::PayloadTooLarge {
                actual: i.payload.len() as usize,
                maximum: l.spec_max_payload_bytes(),
            },
        )
    } else if CUE_FRAME_OVERHEAD_BYTES + i.payload.len() > l.spec_max_frame_bytes() {
        Some(
            CueQueueError::FrameTooLarge {
                actual: (CUE_FRAME_OVERHEAD_BYTES + i.payload.len()) as usize,
                maximum: l.spec_max_frame_bytes(),
            },
        )
    } else {
        None
    }
}

/// Regression of the endpoint-wide native event order, if any.
pub open spec fn native_error(m: CueQueueModel, i: CueInputView) -> Option<CueQueueError> {
    match m.last_native {
        Some(p) => if i.native_event_sequence@ < p@ {
            Some(
                CueQueueError::NativeEventSequenceRegressed {
                    previous: p,
                    offered: i.native_event_sequence,
                },
            )
        } else {
            None
        },
        None => None,
    }
}

/// Causality validation of a cue against the queue history.
pub open spec fn causality_error(m: CueQueueModel, i: CueInputView) -> Option<CueQueueError> {
    match stage_index(m.stages, i.stage_id) {
        Some(k) => if i.stage_revision@ < m.stages[k].1@ {
            Some(
                CueQueueError::StageRevisionRegressed {
                    stage_id: i.stage_id,
                    previous: m.stages[k].1,
                    offered: i.stage_revision,
                },
            )
        } else {
            native_error(m, i)
        },
        None => if m.stages.len() >= m.limits.spec_total_slots() {
            Some(CueQueueError::StageCausalityCapacityExhausted { stage_id: i.stage_id })
        } else {
            native_error(m, i)
        },
    }
}

/// History after accepting the causality of `input`.
pub open spec fn with_causality(m: CueQueueModel, i: CueInputView) -> CueQueueModel {
    CueQueueModel {
        stages: match stage_index(m.stages, i.stage_id) {
            Some(k) => m.stages.update(k, (i.stage_id, i.stage_revision)),
            None => m.stages.push((i.stage_id, i.stage_revision)),
        },
        last_native: Some(i.native_event_sequence),
        ..m
    }
}

/// Successor of an allocated sequence; zero marks exhaustion.
pub open spec fn bump_sequence(seq: u32) -> u32 {
    if seq == u32::MAX {
        0
    } else {
        (seq + 1) as u32
    }
}

/// State after an ordinary emission `seq` is lost.
pub open spec fn with_loss(m: CueQueueModel, seq: CueSequence) -> CueQueueModel {
    CueQueueModel {
        pending_loss: Some(loss_with(m.pending_loss, seq)),
        state: CueEndpointState::Backpressured,
        ..m
    }
}

/// State after a fault.
pub open spec fn with_fault(m: CueQueueModel, f: EmergencyFault) -> CueQueueModel {
    CueQueueModel { state: CueEndpointState::Faulted, emergency_fault: Some(f), ..m }
}

/// Whether `input` would coalesce into the queue tail.
pub open spec fn tail_matches(m: CueQueueModel, i: CueInputView) -> bool {
    &&& i.delivery is LatestValueCoalescible
    &&& m.records.len() > 0
    &&& exact_key_matches(m.records.last(), i)
}

/// Effect of a causality failure: a Critical cue that cannot be tracked
/// faults the endpoint.
pub open spec fn causality_failure(m: CueQueueModel, i: CueInputView, e: CueQueueError) -> CueQueueModel {
    if e is StageCausalityCapacityExhausted && i.delivery is Critical {
        with_fault(
            m,
            EmergencyFault::CriticalStageCausalityCapacityExhausted {
                stage_id: i.stage_id,
                event_id: i.event_id,
            },
        )
    } else {
        m
    }
}

/// The complete admission rule applied by [`CueQueue::enqueue`].
pub open spec fn enqueue_spec(m: CueQueueModel, i: CueInputView) -> (
    CueQueueModel,
    Result<EnqueueOutcome, CueQueueError>,
) {
    if m.state is Faulted {
        (m, Err(CueQueueError::Faulted))
    } else if input_error(m.limits, i) is Some {
        (m, Err(input_error(m.limits, i).unwrap()))
    } else if causality_error(m, i) is Some {
        let e = causality_error(m, i).unwrap();
        (causality_failure(m, i, e), Err(e))
    } else if tail_matches(m, i) && i.native_event_sequence@
        <= m.records.last().last_native_event_sequence@ {
        (
            m,
            Err(
                CueQueueError::NonMonotonicCoalescingEventSequence {
                    previous: m.records.last().last_native_event_sequence,
                    offered: i.native_event_sequence,
                },
            ),
        )
    } else {
        let m1 = with_causality(m, i);
        if m1.next_sequence == 0 {
            (with_fault(m1, EmergencyFault::SequenceExhausted), Err(CueQueueError::SequenceExhausted))
        } else {
            let seq = CueSequence::from_raw(m1.next_sequence);
            let m2 = CueQueueModel { next_sequence: bump_sequence(m1.next_sequence), ..m1 };
            if is_ordinary(i.delivery) && m2.state is Backpressured {
                (with_loss(m2, seq), Err(CueQueueError::OrdinaryBackpressured { sequence: seq }))
            } else if tail_matches(m, i) {
                let last = m.records.len() - 1;
                let merged = merged_record(m.records.last(), i, seq);
                (
                    CueQueueModel { records: m.records.update(last, merged), ..m2 },
                    Ok(
                        EnqueueOutcome::Coalesced {
                            first_sequence: merged.first_sequence,
                            last_sequence: merged.last_sequence,
                            merge_count: merged.merge_count,
                        },
                    ),
                )
            } else if is_ordinary(i.delivery) {
                if count_ordinary(m.records) >= m.limits.spec_ordinary_capacity()
                    || m.records.len() >= m.limits.spec_total_slots() {
                    (
                        with_loss(m2, seq),
                        Err(CueQueueError::OrdinaryCapacityExhausted { sequence: seq }),
                    )
                } else if count_stage_ordinary(m.records, i.stage_id) >= m.limits.spec_quota() {
                    (
                        with_loss(m2, seq),
                        Err(
                            CueQueueError::StageQuotaExhausted {
                                sequence: seq,
                                stage_id: i.stage_id,
                            },
                        ),
                    )
                } else {
                    (
                        CueQueueModel { records: m.records.push(record_from_input(i, seq)), ..m2 },
                        Ok(EnqueueOutcome::Queued { sequence: seq }),
                    )
                }
            } else if m.records.len() >= m.limits.spec_total_slots() {
                (
                    with_fault(
                        m2,
                        EmergencyFault::CriticalCapacityExhausted {
                            sequence: seq,
                            stage_id: i.stage_id,
                            event_id: i.event_id,
                        },
                    ),
                    Err(CueQueueError::CriticalCapacityExhausted { sequence: seq }),
                )
            } else {
                (
                    CueQueueModel { records: m.records.push(record_from_input(i, seq)), ..m2 },
                    Ok(EnqueueOutcome::Queued { sequence: seq }),
                )
            }
        }
    }
}

/// The loss-notice rule applied by [`CueQueue::enqueue_pending_loss_notice`];
/// the result carries the loss range and the notice sequence.
pub open spec fn notice_spec(m: CueQueueModel, i: CueInputView) -> (
    CueQueueModel,
    Result<(PendingCueLossView, CueSequence), CueQueueError>,
) {
    if m.state is Faulted {
        (m, Err(CueQueueError::Faulted))
    } else if m.pending_loss is None {
        (m, Err(CueQueueError::NoPendingCueLoss))
    } else if !(i.delivery is Critical) {
        (m, Err(CueQueueError::OverflowNoticeMustBeCritical))
    } else if input_error(m.limits, i) is Some {
        (m, Err(input_error(m.limits, i).unwrap()))
    } else if causality_error(m, i) is Some {
        let e = causality_error(m, i).unwrap();
        (causality_failure(m, i, e), Err(e))
    } else {
        let m1 = with_causality(m, i);
        if m1.next_sequence == 0 {
            (with_fault(m1, EmergencyFault::SequenceExhausted), Err(CueQueueError::SequenceExhausted))
        } else {
            let seq = CueSequence::from_raw(m1.next_sequence);
            let m2 = CueQueueModel { next_sequence: bump_sequence(m1.next_sequence), ..m1 };
            if m.records.len() >= m.limits.spec_total_slots() {
                (
                    with_fault(
                        m2,
                        EmergencyFault::CriticalCapacityExhausted {
                            sequence: seq,
                            stage_id: i.stage_id,
                            event_id: i.event_id,
                        },
                    ),
                    Err(CueQueueError::CriticalCapacityExhausted { sequence: seq }),
                )
            } else {
                (
                    CueQueueModel {
                        records: m.records.push(record_from_input(i, seq)),
                        pending_loss: None,
                        state: CueEndpointState::Ready,
                        ..m2
                    },
                    Ok((m.pending_loss.unwrap(), seq)),
                )
            }
        }
    }
}

/// A fresh epoch governed by `limits`.
pub open spec fn initial_model(limits: CueLimits) -> CueQueueModel {
    CueQueueModel {
        limits,
        records: Seq::empty(),
        stages: Seq::empty(),
        last_native: None,
        next_sequence: 1,
        state: CueEndpointState::Ready,
        pending_loss: None,
        emergency_fault: None,
    }
}

/// Per-record well-formedness under `limits`.
pub open spec fn record_ok(r: CueRecordView, l: CueLimits) -> bool {
    &&& r.payload.len() <= l.spec_max_payload_bytes()
    &&& r.first_sequence@ != 0
    &&& r.first_native_event_sequence@ != 0
    &&& r.first_sequence@ <= r.last_sequence@
    &&& r.merge_count == r.last_sequence@ - r.first_sequence@
    &&& r.first_native_event_sequence@ <= r.last_native_event_sequence@
}

/// Invariant of every reachable queue state.
pub open spec fn model_wf(m: CueQueueModel) -> bool {
    &&& m.limits.is_valid()
    &&& m.records.len() <= m.limits.spec_total_slots()
    &&& count_ordinary(m.records) <= m.limits.spec_ordinary_capacity()
    &&& forall|s: StageId| #[trigger]
        count_stage_ordinary(m.records, s) <= m.limits.spec_quota()
    &&& m.stages.len() <= m.limits.spec_total_slots()
    &&& forall|a: int, b: int|
        0 <= a < b < m.stages.len() ==> #[trigger] m.stages[a].0 != #[trigger] m.stages[b].0
    &&& forall|k: int| 0 <= k < m.records.len() ==> record_ok(#[trigger] m.records[k], m.limits)
    &&& forall|a: int, b: int|
        0 <= a < b < m.records.len() ==> #[trigger] m.records[a].last_sequence@
            < #[trigger] m.records[b].first_sequence@
    &&& m.next_sequence != 0 ==> forall|k: int|
        0 <= k < m.records.len() ==> #[trigger] m.records[k].last_sequence@ < m.next_sequence
    &&& m.pending_loss matches Some(l) ==> {
        &&& 1 <= l.lost_count
        &&& 1 <= l.first_sequence@
        &&& l.first_sequence@ <= l.last_sequence@
        &&& l.lost_count <= l.last_sequence@ - l.first_sequence@ + 1
        &&& m.next_sequence != 0 ==> l.last_sequence@ < m.next_sequence
    }
    &&& m.state is Backpressured ==> m.pending_loss is Some
    &&& m.pending_loss is Some ==> !(m.state is Ready)
    &&& m.state is Ready && m.records.len() > 0 ==> m.next_sequence == bump_sequence(m.records.last().last_sequence@)
}

/// Reserve room for `additional` more records without changing contents.
///
/// Calls `VecDeque::try_reserve_exact`, which only reserves capacity; the contract claims that
/// the contents are unchanged. Whether the reservation succeeds depends on
/// the allocator, so nothing is stated of the returned flag.
#[verifier::external_body]
fn try_reserve_records(v: &mut VecDeque<CueRecord>, additional: usize) -> (ok: bool)
    ensures
        final(v)@ == old(v)@,
{
    v.try_reserve_exact(additional).is_ok()
}

/// Reserve room for `additional` more elements of a vector without
/// changing its contents.
///
/// Calls `Vec::try_reserve_exact`, which only reserves capacity; the contract claims that
/// the contents are unchanged. Whether the reservation succeeds depends on
/// the allocator, so nothing is stated of the returned flag.
#[verifier::external_body]
fn try_reserve_vec<T>(v: &mut Vec<T>, additional: usize) -> (ok: bool)
    ensures
        final(v)@ == old(v)@,
{
    v.try_reserve_exact(additional).is_ok()
}

#[derive(Clone, Copy, Debug, PartialEq, Eq, Structural)]
struct StageCausality {
    stage_id: StageId,
    revision: StageRevision,
}

/// One endpoint-owned sequence-ordered cue queue.
pub struct CueQueue {
    limits: CueLimits,
    records: VecDeque<CueRecord>,
    stage_causality: Vec<StageCausality>,
    last_native_event_sequence: Option<NativeEventSequence>,
    ordinary_records: usize,
    next_sequence: u32,
    state: CueEndpointState,
    pending_loss: Option<PendingCueLoss>,
    emergency_fault: Option<EmergencyFault>,
}

/// View of an optional loss range.
pub open spec fn loss_view(l: Option<PendingCueLoss>) -> Option<PendingCueLossView> {
    match l {
        Some(x) => Some(x@),
        None => None,
    }
}

impl CueQueue {
    /// Abstract state of the queue.
    pub closed spec fn model(&self) -> CueQueueModel {
        CueQueueModel {
            limits: self.limits,
            records: self.records@.map_values(|r: CueRecord| r@),
            stages: self.stage_causality@.map_values(
                |c: StageCausality| (c.stage_id, c.revision),
            ),
            last_native: self.last_native_event_sequence,
            next_sequence: self.next_sequence,
            state: self.state,
            pending_loss: loss_view(self.pending_loss),
            emergency_fault: self.emergency_fault,
        }
    }

    /// Internal well-formedness: the model invariant plus the cached count.
    pub closed spec fn wf(&self) -> bool {
        &&& model_wf(self.model())
        &&& self.ordinary_records == count_ordinary(self.model().records)
    }

    /// A well-formed queue satisfies the queue invariant [`model_wf`]:
    /// bounded capacity, the critical reserve, per-Stage quotas, unique
    /// causality entries, and strictly increasing sequence ranges in
    /// delivery order.
    pub proof fn lemma_wf_model(&self)
        requires
            self.wf(),
        ensures
            model_wf(self.model()),
    {
    }

    /// Construct an empty queue with fallible up-front record reservations.
    pub fn new(limits: CueLimits) -> (r: Result<Self, CueQueueError>)
        ensures
            r matches Ok(q) ==> q.wf() && q.model() == initial_model(limits),
            r matches Err(e) ==> e == CueQueueError::AllocationFailed,
    {
        proof { use_type_invariant(&limits); }
        let total = limits.total_slots();
        let mut records: VecDeque<CueRecord> = VecDeque::new();
        if !try_reserve_records(&mut records, total) {
            return Err(CueQueueError::AllocationFailed);
        }
        let mut stage_causality: Vec<StageCausality> = Vec::new();
        if !try_reserve_vec(&mut stage_causality, total) {
            return Err(CueQueueError::AllocationFailed);
        }
        let q = CueQueue {
            limits,
            records,
            stage_causality,
            last_native_event_sequence: None,
            ordinary_records: 0,
            next_sequence: 1,
            state: CueEndpointState::Ready,
            pending_loss: None,
            emergency_fault: None,
        };
        proof {
            assert(q.model().records =~= Seq::<CueRecordView>::empty());
            assert(q.model().stages =~= Seq::<(StageId, StageRevision)>::empty());
            assert forall|s: StageId| #[trigger]
                count_stage_ordinary(q.model().records, s) <= limits.spec_quota() by {}
            assert(q.model() == initial_model(limits));
        }
        Ok(q)
    }

    /// Return the endpoint limits governing this queue.
    pub fn limits(&self) -> (r: CueLimits)
        ensures
            r == self.model().limits,
    {
        self.limits
    }

    /// Return the current endpoint queue health.
    pub fn state(&self) -> (r: CueEndpointState)
        ensures
            r == self.model().state,
    {
        self.state
    }

    /// Borrow the retained out-of-band emergency fault, when present.
    pub fn emergency_fault(&self) -> (r: Option<&EmergencyFault>)
        ensures
            r is Some <==> self.model().emergency_fault is Some,
            r matches Some(f) ==> self.model().emergency_fault == Some(*f),
    {
        match &self.emergency_fault {
            Some(f) => Some(f),
            None => None,
        }
    }

    /// Return the ordinary cue-loss range awaiting a Critical notice.
    pub fn pending_loss(&self) -> (r: Option<PendingCueLoss>)
        ensures
            loss_view(r) == self.model().pending_loss,
    {
        self.pending_loss
    }

    /// Return the number of pending records of all classes.
    pub fn len(&self) -> (r: usize)
        ensures
            r == self.model().records.len(),
    {
        self.records.len()
    }

    /// Return whether no records are pending.
    pub fn is_empty(&self) -> (r: bool)
        ensures
            r == (self.model().records.len() == 0),
    {
        self.records.len() == 0
    }

    /// Return the number of pending ordinary records.
    pub fn ordinary_len(&self) -> (r: usize)
        requires
            self.wf(),
        ensures
            r == count_ordinary(self.model().records),
    {
        self.ordinary_records
    }

    /// Return the number of pending Critical records.
    pub fn critical_len(&self) -> (r: usize)
        requires
            self.wf(),
        ensures
            r == self.model().records.len() - count_ordinary(self.model().records),
    {
        proof {
            lemma_count_bound(self.model().records, |r: CueRecordView| is_ordinary(r.delivery));
        }
        self.records.len() - self.ordinary_records
    }
}

impl CueQueue {
    fn validate_input(&self, input: &CueInput) -> (r: Result<(), CueQueueError>)
        ensures
            r is Ok <==> input_error(self.model().limits, input@) is None,
            r matches Err(e) ==> input_error(self.model().limits, input@) == Some(e),
    {
        proof { use_type_invariant(&self.limits); }
        match (input.delivery, input.coalescing_key) {
            (CueDelivery::LatestValueCoalescible, None) => {
                return Err(CueQueueError::MissingCoalescingKey);
            },
            (CueDelivery::Critical, Some(_)) => {
                return Err(CueQueueError::UnexpectedCoalescingKey);
            },
            (CueDelivery::Ordered, Some(_)) => {
                return Err(CueQueueError::UnexpectedCoalescingKey);
            },
            _ => {},
        }
        let payload_bytes = input.payload.len();
        let max_payload = self.limits.max_payload_bytes();
        if payload_bytes > max_payload {
            return Err(CueQueueError::PayloadTooLarge { actual: payload_bytes, maximum: max_payload });
        }
        let frame_bytes = CUE_FRAME_OVERHEAD_BYTES + payload_bytes;
        let max_frame = self.limits.max_frame_bytes();
        if frame_bytes > max_frame {
            return Err(CueQueueError::FrameTooLarge { actual: frame_bytes, maximum: max_frame });
        }
        Ok(())
    }

    fn allocate_sequence(&mut self) -> (r: Result<CueSequence, CueQueueError>)
        ensures
            old(self).model().next_sequence == 0 ==> r == Err::<CueSequence, CueQueueError>(
                CueQueueError::SequenceExhausted,
            ) && final(self).model() == with_fault(
                old(self).model(),
                EmergencyFault::SequenceExhausted,
            ),
            old(self).model().next_sequence != 0 ==> r == Ok::<CueSequence, CueQueueError>(
                CueSequence::from_raw(old(self).model().next_sequence),
            ) && final(self).model() == (CueQueueModel {
                next_sequence: bump_sequence(old(self).model().next_sequence),
                ..old(self).model()
            }),
            final(self).ordinary_records == old(self).ordinary_records,
    {
        if self.next_sequence == 0 {
            self.state = CueEndpointState::Faulted;
            self.emergency_fault = Some(EmergencyFault::SequenceExhausted);
            return Err(CueQueueError::SequenceExhausted);
        }
        let sequence = CueSequence(self.next_sequence);
        self.next_sequence = if self.next_sequence == u32::MAX { 0 } else { self.next_sequence + 1 };
        Ok(sequence)
    }

    fn find_stage(&self, stage_id: StageId) -> (r: Option<usize>)
        requires
            model_wf(self.model()),
        ensures
            r matches Some(k) ==> stage_index(self.model().stages, stage_id) == Some(k as int),
            r is None ==> stage_index(self.model().stages, stage_id) is None,
    {
        let ghost st = self.model().stages;
        let mut i: usize = 0;
        while i < self.stage_causality.len()
            invariant
                0 <= i <= self.stage_causality@.len(),
                st == self.model().stages,
                model_wf(self.model()),
                st.len() == self.stage_causality@.len(),
                forall|k: int| 0 <= k < i ==> #[trigger] st[k].0 != stage_id,
            decreases self.stage_causality@.len() - i,
        {
            proof {
                assert(st[i as int].0 == self.stage_causality@[i as int].stage_id);
            }
            if self.stage_causality[i].stage_id == stage_id {
                proof {
                    assert(st[i as int].0 == stage_id);
                    let c = choose|k: int| 0 <= k < st.len() && st[k].0 == stage_id;
                    if c != i as int {
                        if c < i as int {
                            assert(st[c].0 != stage_id);
                        } else {
                            assert(st[i as int].0 != st[c].0);
                        }
                    }
                }
                return Some(i);
            }
            i = i + 1;
        }
        None
    }

    fn validate_causality(&self, input: &CueInput) -> (r: Result<(), CueQueueError>)
        requires
            model_wf(self.model()),
        ensures
            r is Ok <==> causality_error(self.model(), input@) is None,
            r matches Err(e) ==> causality_error(self.model(), input@) == Some(e),
    {
        proof { use_type_invariant(&self.limits); }
        match self.find_stage(input.stage_id) {
            Some(k) => {
                let previous = self.stage_causality[k].revision;
                if input.stage_revision.get() < previous.get() {
                    return Err(CueQueueError::StageRevisionRegressed {
                        stage_id: input.stage_id,
                        previous,
                        offered: input.stage_revision,
                    });
                }
            },
            None => {
                if self.stage_causality.len() >= self.limits.total_slots() {
                    return Err(CueQueueError::StageCausalityCapacityExhausted {
                        stage_id: input.stage_id,
                    });
                }
            },
        }
        match self.last_native_event_sequence {
            Some(previous) => {
                if input.native_event_sequence.get() < previous.get() {
                    return Err(CueQueueError::NativeEventSequenceRegressed {
                        previous,
                        offered: input.native_event_sequence,
                    });
                }
            },
            None => {},
        }
        Ok(())
    }

    fn validate_causality_for_input(&mut self, input: &CueInput) -> (r: Result<(), CueQueueError>)
        requires
            model_wf(old(self).model()),
        ensures
            r is Ok <==> causality_error(old(self).model(), input@) is None,
            r is Ok ==> final(self).model() == old(self).model(),
            r matches Err(e) ==> causality_error(old(self).model(), input@) == Some(e)
                && final(self).model() == causality_failure(old(self).model(), input@, e),
            final(self).ordinary_records == old(self).ordinary_records,
    {
        let result = self.validate_causality(input);
        match result {
            Err(CueQueueError::StageCausalityCapacityExhausted { .. }) => {
                if input.delivery == CueDelivery::Critical {
                    self.state = CueEndpointState::Faulted;
                    self.emergency_fault = Some(
                        EmergencyFault::CriticalStageCausalityCapacityExhausted {
                            stage_id: input.stage_id,
                            event_id: input.event_id,
                        },
                    );
                }
            },
            _ => {},
        }
        result
    }

    fn record_causality(&mut self, input: &CueInput)
        requires
            model_wf(old(self).model()),
            causality_error(old(self).model(), input@) is None,
        ensures
            final(self).model() == with_causality(old(self).model(), input@),
            final(self).ordinary_records == old(self).ordinary_records,
    {
        let ghost old_stages = self.stage_causality@;
        match self.find_stage(input.stage_id) {
            Some(k) => {
                self.stage_causality.set(
                    k,
                    StageCausality { stage_id: input.stage_id, revision: input.stage_revision },
                );
                proof {
                    assert(self.stage_causality@.map_values(
                        |c: StageCausality| (c.stage_id, c.revision),
                    ) =~= old_stages.map_values(|c: StageCausality| (c.stage_id, c.revision)).update(
                        k as int,
                        (input.stage_id, input.stage_revision),
                    ));
                }
            },
            None => {
                self.stage_causality.push(
                    StageCausality { stage_id: input.stage_id, revision: input.stage_revision },
                );
                proof {
                    assert(self.stage_causality@.map_values(
                        |c: StageCausality| (c.stage_id, c.revision),
                    ) =~= old_stages.map_values(|c: StageCausality| (c.stage_id, c.revision)).push(
                        (input.stage_id, input.stage_revision),
                    ));
                }
            },
        }
        self.last_native_event_sequence = Some(input.native_event_sequence);
    }

    fn record_loss(&mut self, sequence: CueSequence)
        requires
            old(self).model().pending_loss matches Some(l) ==> l.lost_count < u32::MAX,
        ensures
            final(self).model() == with_loss(old(self).model(), sequence),
            final(self).ordinary_records == old(self).ordinary_records,
    {
        match self.pending_loss {
            Some(loss) => {
                self.pending_loss = Some(loss.extend(sequence));
            },
            None => {
                self.pending_loss = Some(PendingCueLoss::first(sequence));
            },
        }
        self.state = CueEndpointState::Backpressured;
    }

    fn fault_critical_capacity(&mut self, sequence: CueSequence, stage_id: StageId, event_id: EventId)
        ensures
            final(self).model() == with_fault(
                old(self).model(),
                EmergencyFault::CriticalCapacityExhausted { sequence, stage_id, event_id },
            ),
            final(self).ordinary_records == old(self).ordinary_records,
    {
        self.state = CueEndpointState::Faulted;
        self.emergency_fault = Some(
            EmergencyFault::CriticalCapacityExhausted { sequence, stage_id, event_id },
        );
    }

    fn ordinary_for_stage(&self, stage_id: StageId) -> (r: usize)
        ensures
            r == count_stage_ordinary(self.model().records, stage_id),
    {
        let ghost recs = self.model().records;
        let mut count: usize = 0;
        let mut i: usize = 0;
        while i < self.records.len()
            invariant
                0 <= i <= self.records@.len(),
                recs == self.model().records,
                recs.len() == self.records@.len(),
                count == count_stage_ordinary(recs.take(i as int), stage_id),
                count <= i,
            decreases self.records@.len() - i,
        {
            let record = &self.records[i];
            let hit = record.delivery.is_ordinary() && record.stage_id == stage_id;
            proof {
                assert(recs.take(i + 1).drop_last() =~= recs.take(i as int));
                assert(record@ == recs[i as int]);
                assert(recs.take(i + 1).last() == recs[i as int]);
            }
            if hit {
                count = count + 1;
            }
            i = i + 1;
        }
        proof {
            assert(recs.take(i as int) =~= recs);
        }
        count
    }

    fn drain_extent(&self, budget: DrainBudget) -> (r: (usize, usize))
        requires
            model_wf(self.model()),
        ensures
            drain_count_ok(self.model().records, budget, r.0 as int),
            r.1 == prefix_bytes(self.model().records, r.0 as int),
    {
        let ghost recs = self.model().records;
        proof { use_type_invariant(&self.limits); }
        let mut count: usize = 0;
        let mut bytes: usize = 0;
        while count < self.records.len()
            invariant
                recs == self.model().records,
                model_wf(self.model()),
                recs.len() == self.records@.len(),
                0 <= count <= recs.len(),
                count <= budget.max_cues,
                bytes == prefix_bytes(recs, count as int),
                bytes <= budget.max_bytes,
            ensures
                count == recs.len() || count == budget.max_cues || prefix_bytes(recs, count + 1)
                    > budget.max_bytes,
            decreases recs.len() - count,
        {
            if count >= budget.max_cues {
                break;
            }
            let record = &self.records[count];
            proof {
                assert(recs[count as int] == record@);
                assert(record_ok(recs[count as int], self.model().limits));
            }
            let frame = record.frame_bytes();
            assert(prefix_bytes(recs, count + 1) == bytes + frame);
            let next_bytes = match bytes.checked_add(frame) {
                Some(v) => v,
                None => break,
            };
            if next_bytes > budget.max_bytes {
                break;
            }
            count = count + 1;
            bytes = next_bytes;
        }
        (count, bytes)
    }
}

proof fn lemma_with_causality_wf(m: CueQueueModel, i: CueInputView)
    requires
        model_wf(m),
        causality_error(m, i) is None,
    ensures
        model_wf(with_causality(m, i)),
        with_causality(m, i).records == m.records,
        with_causality(m, i).limits == m.limits,
        with_causality(m, i).next_sequence == m.next_sequence,
        with_causality(m, i).state == m.state,
        with_causality(m, i).pending_loss == m.pending_loss,
{
    let m1 = with_causality(m, i);
    match stage_index(m.stages, i.stage_id) {
        Some(k) => {
            assert forall|a: int, b: int| 0 <= a < b < m1.stages.len() implies #[trigger] m1.stages[a].0
                != #[trigger] m1.stages[b].0 by {
                assert(m.stages[k].0 == i.stage_id);
                if a != k && b != k {
                    assert(m.stages[a].0 != m.stages[b].0);
                }
            }
        },
        None => {
            assert forall|a: int, b: int| 0 <= a < b < m1.stages.len() implies #[trigger] m1.stages[a].0
                != #[trigger] m1.stages[b].0 by {
                if b == m.stages.len() {
                    assert(m1.stages[a].0 == m.stages[a].0);
                    if m.stages[a].0 == i.stage_id {
                        assert(exists|k: int| 0 <= k < m.stages.len() && m.stages[k].0 == i.stage_id);
                    }
                } else {
                    assert(m.stages[a].0 != m.stages[b].0);
                }
            }
        },
    }
}

proof fn lemma_loss_wf(m: CueQueueModel, seq: CueSequence)
    requires
        model_wf(m),
        m.next_sequence != 0,
        seq@ == m.next_sequence,
    ensures
        model_wf(with_loss(CueQueueModel { next_sequence: bump_sequence(m.next_sequence), ..m }, seq)),
        m.pending_loss matches Some(l) ==> l.lost_count < u32::MAX,
{
}

proof fn lemma_push_wf(m: CueQueueModel, i: CueInputView, seq: CueSequence)
    requires
        model_wf(m),
        i.native_event_sequence@ != 0,
        m.next_sequence != 0,
        seq@ == m.next_sequence,
        input_error(m.limits, i) is None,
        m.records.len() < m.limits.spec_total_slots(),
        is_ordinary(i.delivery) ==> count_ordinary(m.records) < m.limits.spec_ordinary_capacity(),
        is_ordinary(i.delivery) ==> count_stage_ordinary(m.records, i.stage_id)
            < m.limits.spec_quota(),
    ensures
        model_wf(
            CueQueueModel {
                records: m.records.push(record_from_input(i, seq)),
                next_sequence: bump_sequence(m.next_sequence),
                ..m
            },
        ),
        count_ordinary(m.records.push(record_from_input(i, seq))) == count_ordinary(m.records) + if is_ordinary(i.delivery) { 1nat } else { 0nat },
{
    let r = record_from_input(i, seq);
    let recs = m.records.push(r);
    lemma_count_push(m.records, r, |x: CueRecordView| is_ordinary(x.delivery));
    assert forall|s: StageId| #[trigger] count_stage_ordinary(recs, s) <= m.limits.spec_quota() by {
        lemma_count_push(m.records, r, |x: CueRecordView| is_ordinary(x.delivery) && x.stage_id == s);
        assert(count_stage_ordinary(m.records, s) <= m.limits.spec_quota());
    }
    assert forall|k: int| 0 <= k < recs.len() implies record_ok(#[trigger] recs[k], m.limits) by {
        if k < m.records.len() {
            assert(recs[k] == m.records[k]);
        }
    }
    assert forall|a: int, b: int| 0 <= a < b < recs.len() implies #[trigger] recs[a].last_sequence@
        < #[trigger] recs[b].first_sequence@ by {
        assert(recs[a] == m.records[a]);
        if b < m.records.len() {
            assert(recs[b] == m.records[b]);
        }
    }
    assert forall|k: int| 0 <= k < recs.len() implies #[trigger] recs[k].last_sequence@
        < bump_sequence(m.next_sequence) || bump_sequence(m.next_sequence) == 0 by {
        if k < m.records.len() {
            assert(recs[k] == m.records[k]);
        }
    }
}

proof fn lemma_merge_wf(m: CueQueueModel, i: CueInputView, seq: CueSequence)
    requires
        model_wf(m),
        m.next_sequence != 0,
        seq@ == m.next_sequence,
        input_error(m.limits, i) is None,
        tail_matches(m, i),
        m.state is Ready,
        i.native_event_sequence@ > m.records.last().last_native_event_sequence@,
    ensures
        m.records.last().merge_count < u32::MAX,
        model_wf(
            CueQueueModel {
                records: m.records.update(
                    m.records.len() - 1,
                    merged_record(m.records.last(), i, seq),
                ),
                next_sequence: bump_sequence(m.next_sequence),
                ..m
            },
        ),
        count_ordinary(
            m.records.update(m.records.len() - 1, merged_record(m.records.last(), i, seq)),
        ) == count_ordinary(m.records),
{
    let last = m.records.len() - 1;
    let t = m.records.last();
    let nr = merged_record(t, i, seq);
    let recs = m.records.update(last, nr);
    assert(record_ok(m.records[last], m.limits));
    assert(m.records[last].last_sequence@ < m.next_sequence);
    assert(seq@ == t.last_sequence@ + 1);
    assert(record_ok(nr, m.limits));
    lemma_count_update_last(m.records, nr, |x: CueRecordView| is_ordinary(x.delivery));
    assert forall|s: StageId| #[trigger] count_stage_ordinary(recs, s) <= m.limits.spec_quota() by {
        lemma_count_update_last(
            m.records,
            nr,
            |x: CueRecordView| is_ordinary(x.delivery) && x.stage_id == s,
        );
        assert(count_stage_ordinary(m.records, s) <= m.limits.spec_quota());
    }
    assert forall|k: int| 0 <= k < recs.len() implies record_ok(#[trigger] recs[k], m.limits) by {
        if k < last {
            assert(recs[k] == m.records[k]);
        }
    }
    assert forall|a: int, b: int| 0 <= a < b < recs.len() implies #[trigger] recs[a].last_sequence@
        < #[trigger] recs[b].first_sequence@ by {
        assert(recs[a] == m.records[a]);
        assert(m.records[a].last_sequence@ < m.records[b].first_sequence@);
    }
    assert forall|k: int| 0 <= k < recs.len() implies #[trigger] recs[k].last_sequence@
        < bump_sequence(m.next_sequence) || bump_sequence(m.next_sequence) == 0 by {
        if k < last {
            assert(recs[k] == m.records[k]);
        }
    }
}

/// Every admission keeps the queue invariant: bounded capacity, the critical
/// reserve, per-Stage quotas, unique causality entries, and strictly
/// increasing sequence ranges in delivery order.
pub proof fn lemma_enqueue_preserves_wf(m: CueQueueModel, i: CueInputView)
    requires
        model_wf(m),
        i.native_event_sequence@ != 0,
    ensures
        model_wf(enqueue_spec(m, i).0),
{
    if m.state is Faulted || input_error(m.limits, i) is Some {
    } else if causality_error(m, i) is Some {
    } else if tail_matches(m, i) && i.native_event_sequence@
        <= m.records.last().last_native_event_sequence@ {
    } else {
        lemma_with_causality_wf(m, i);
        let m1 = with_causality(m, i);
        if m1.next_sequence != 0 {
            let seq = CueSequence::from_raw(m1.next_sequence);
            CueSequence::lemma_from_raw(m1.next_sequence);
            lemma_loss_wf(m1, seq);
            if is_ordinary(i.delivery) && m1.state is Backpressured {
            } else if tail_matches(m, i) {
                lemma_merge_wf(m1, i, seq);
            } else if is_ordinary(i.delivery) {
                if count_ordinary(m.records) >= m.limits.spec_ordinary_capacity()
                    || m.records.len() >= m.limits.spec_total_slots() {
                } else if count_stage_ordinary(m.records, i.stage_id) >= m.limits.spec_quota() {
                } else {
                    lemma_push_wf(m1, i, seq);
                }
            } else if m.records.len() >= m.limits.spec_total_slots() {
            } else {
                lemma_push_wf(m1, i, seq);
            }
        }
    }
}

/// Every loss notice keeps the queue invariant.
pub proof fn lemma_notice_preserves_wf(m: CueQueueModel, i: CueInputView)
    requires
        model_wf(m),
        i.native_event_sequence@ != 0,
    ensures
        model_wf(notice_spec(m, i).0),
{
    if m.state is Faulted || m.pending_loss is None || !(i.delivery is Critical) || input_error(
        m.limits,
        i,
    ) is Some {
    } else if causality_error(m, i) is Some {
    } else {
        lemma_with_causality_wf(m, i);
        let m1 = with_causality(m, i);
        if m1.next_sequence != 0 {
            let seq = CueSequence::from_raw(m1.next_sequence);
            CueSequence::lemma_from_raw(m1.next_sequence);
            if m.records.len() < m.limits.spec_total_slots() {
                lemma_push_wf(m1, i, seq);
            }
        }
    }
}

impl CueQueue {
    /// Admit one cue or merge it into an exact matching tail record.
    ///
    /// Every structurally valid emission receives an endpoint-wide sequence,
    /// including ordinary emissions rejected by quota or capacity, so an
    /// overflow notice can describe the exact lost range without gaps.
    pub fn enqueue(&mut self, input: CueInput) -> (r: Result<EnqueueOutcome, CueQueueError>)
        requires
            old(self).wf(),
        ensures
            final(self).wf(),
            final(self).model() == enqueue_spec(old(self).model(), input@).0,
            r == enqueue_spec(old(self).model(), input@).1,
    {
        let ghost m = self.model();
        let ghost i = input@;
        proof {
            use_type_invariant(&input.native_event_sequence);
            lemma_enqueue_preserves_wf(m, i);
            use_type_invariant(&self.limits);
        }
        if self.state == CueEndpointState::Faulted {
            return Err(CueQueueError::Faulted);
        }
        self.validate_input(&input)?;
        self.validate_causality_for_input(&input)?;
        let len = self.records.len();
        let exact_tail_match = input.delivery == CueDelivery::LatestValueCoalescible && len > 0
            && self.records[len - 1].exact_coalescing_key_matches(&input);
        proof {
            if len > 0 {
                assert(m.records.last() == self.records@[len - 1]@);
            }
            assert(exact_tail_match == tail_matches(m, i));
        }
        if exact_tail_match {
            let previous = self.records[len - 1].last_native_event_sequence;
            if input.native_event_sequence.get() <= previous.get() {
                return Err(CueQueueError::NonMonotonicCoalescingEventSequence {
                    previous,
                    offered: input.native_event_sequence,
                });
            }
        }
        self.record_causality(&input);
        proof {
            lemma_with_causality_wf(m, i);
        }
        let sequence = self.allocate_sequence()?;
        proof {
            CueSequence::lemma_view_injective(sequence);
            lemma_loss_wf(with_causality(m, i), sequence);
        }
        if input.delivery.is_ordinary() && self.state == CueEndpointState::Backpressured {
            self.record_loss(sequence);
            return Err(CueQueueError::OrdinaryBackpressured { sequence });
        }
        if exact_tail_match {
            let ghost before = self.records@;
            let tail = match self.records.pop_back() {
                Some(t) => t,
                None => {
                    proof { assert(false); }
                    return Err(CueQueueError::Faulted);
                },
            };
            proof {
                lemma_merge_wf(with_causality(m, i), i, sequence);
            }
            let merged = tail.replace_with(input, sequence);
            let outcome = EnqueueOutcome::Coalesced {
                first_sequence: merged.first_sequence,
                last_sequence: merged.last_sequence,
                merge_count: merged.merge_count,
            };
            self.records.push_back(merged);
            proof {
                assert(self.records@.map_values(|r: CueRecord| r@) =~= m.records.update(
                    m.records.len() - 1,
                    merged_record(m.records.last(), i, sequence),
                ));
            }
            return Ok(outcome);
        }
        if input.delivery.is_ordinary() {
            if self.ordinary_records >= self.limits.ordinary_capacity() || self.records.len()
                >= self.limits.total_slots() {
                self.record_loss(sequence);
                return Err(CueQueueError::OrdinaryCapacityExhausted { sequence });
            }
            if self.ordinary_for_stage(input.stage_id) >= self.limits.per_stage_ordinary_quota() {
                self.record_loss(sequence);
                return Err(CueQueueError::StageQuotaExhausted { sequence, stage_id: input.stage_id });
            }
            self.ordinary_records = self.ordinary_records + 1;
        } else if self.records.len() >= self.limits.total_slots() {
            self.fault_critical_capacity(sequence, input.stage_id, input.event_id);
            return Err(CueQueueError::CriticalCapacityExhausted { sequence });
        }
        proof {
            lemma_push_wf(with_causality(m, i), i, sequence);
        }
        let ghost before = self.records@;
        self.records.push_back(CueRecord::from_input(input, sequence));
        proof {
            assert(self.records@.map_values(|r: CueRecord| r@) =~= m.records.push(
                record_from_input(i, sequence),
            ));
        }
        Ok(EnqueueOutcome::Queued { sequence })
    }
}

/// Every record a well-formed queue holds, and so every record a drain
/// hands out, carries valid payload metadata: nonzero and ordered native and
/// cue sequence ranges, and a merge count equal to the width of its cue
/// range. Its envelope therefore decodes back to exactly its fields.
pub proof fn lemma_queued_record_metadata_valid(m: CueQueueModel, k: int)
    requires
        model_wf(m),
        0 <= k < m.records.len(),
    ensures
        fields_valid(record_fields(m.records[k])),
        envelope_fields(envelope_bytes(record_fields(m.records[k])) + m.records[k].payload) == record_fields(m.records[k]),
{
    let r = m.records[k];
    assert(record_ok(r, m.limits));
    let e = envelope_bytes(record_fields(r));
    lemma_envelope_round_trip(record_fields(r));
    let s = e + r.payload;
    assert forall|i: int| 0 <= i < 36 implies s[i] == e[i] by {}
    lemma_prefix_fields(e, s);
}

/// A coalescing merge makes the tail record span every emission merged into
/// it: the record keeps its first cue and native event sequences, its last
/// native event sequence becomes the merged input's (which is later than
/// the previous last) and it carries the input's payload; nothing else is
/// queued or removed.
pub proof fn lemma_coalescing_spans_merged_emissions(m: CueQueueModel, i: CueInputView)
    requires
        model_wf(m),
        enqueue_spec(m, i).1 matches Ok(EnqueueOutcome::Coalesced { .. }),
    ensures
        ({
            let m2 = enqueue_spec(m, i).0;
            &&& m.records.len() > 0
            &&& m2.records.len() == m.records.len()
            &&& m2.records.drop_last() == m.records.drop_last()
            &&& m2.records.last().last_native_event_sequence == i.native_event_sequence
            &&& m.records.last().last_native_event_sequence@ < i.native_event_sequence@
            &&& m2.records.last().first_native_event_sequence == m.records.last().first_native_event_sequence
            &&& m2.records.last().first_sequence == m.records.last().first_sequence
            &&& m2.records.last().payload == i.payload
            &&& m2.records.last().last_sequence@ == m.next_sequence
            &&& m2.records.last().merge_count == m.records.last().merge_count + 1
            &&& enqueue_spec(m, i).1 == Ok::<EnqueueOutcome, CueQueueError>(EnqueueOutcome::Coalesced {
                first_sequence: m2.records.last().first_sequence,
                last_sequence: m2.records.last().last_sequence,
                merge_count: m2.records.last().merge_count,
            })
        }),
{
    let m2 = enqueue_spec(m, i).0;
    CueSequence::lemma_from_raw(m.next_sequence);
    if m.records.len() > 0 {
        assert(m2.records.drop_last() =~= m.records.drop_last());
    }
}

/// After a coalescing merge, a further emission for the same tail whose
/// native event sequence is not past the merged one is refused as
/// non-monotonic, naming the merged input's sequence as the previous one.
pub proof fn lemma_coalescing_refuses_stale_native(m: CueQueueModel, i: CueInputView, i2: CueInputView)
    requires
        model_wf(m),
        enqueue_spec(m, i).1 matches Ok(EnqueueOutcome::Coalesced { .. }),
        tail_matches(enqueue_spec(m, i).0, i2),
        input_error(enqueue_spec(m, i).0.limits, i2) is None,
        causality_error(enqueue_spec(m, i).0, i2) is None,
        i2.native_event_sequence@ <= i.native_event_sequence@,
    ensures
        enqueue_spec(enqueue_spec(m, i).0, i2).1 == Err::<EnqueueOutcome, CueQueueError>(
            CueQueueError::NonMonotonicCoalescingEventSequence {
                previous: i.native_event_sequence,
                offered: i2.native_event_sequence,
            },
        ),
{
    lemma_coalescing_spans_merged_emissions(m, i);
}

/// The cue sequence an admission reports, if it consumed one.
pub open spec fn reported_sequence(r: Result<EnqueueOutcome, CueQueueError>) -> Option<u32> {
    match r {
        Ok(EnqueueOutcome::Queued { sequence }) => Some(sequence@),
        Ok(EnqueueOutcome::Coalesced { last_sequence, .. }) => Some(last_sequence@),
        Err(CueQueueError::OrdinaryCapacityExhausted { sequence }) => Some(sequence@),
        Err(CueQueueError::StageQuotaExhausted { sequence, .. }) => Some(sequence@),
        Err(CueQueueError::OrdinaryBackpressured { sequence }) => Some(sequence@),
        Err(CueQueueError::CriticalCapacityExhausted { sequence }) => Some(sequence@),
        _ => None,
    }
}

/// Sequences are allocated without gaps: an admission that consumes a
/// sequence reports exactly the queue's next sequence and advances it by
/// one; any other admission leaves the next sequence where it was. So from
/// a fresh epoch the reported sequences run 1, 2, 3, ... in call order.
pub proof fn lemma_enqueue_sequence_gap_free(m: CueQueueModel, i: CueInputView)
    requires
        model_wf(m),
    ensures
        match reported_sequence(enqueue_spec(m, i).1) {
            Some(seq) => seq == m.next_sequence && seq != 0 && enqueue_spec(m, i).0.next_sequence == bump_sequence(seq),
            None => enqueue_spec(m, i).0.next_sequence == m.next_sequence,
        },
{
    CueSequence::lemma_from_raw(m.next_sequence);
    if m.records.len() > 0 {
        let merged = merged_record(m.records.last(), i, CueSequence::from_raw(m.next_sequence));
        assert(merged.last_sequence@ == m.next_sequence);
    }
}

/// Once the queue is backpressured it stays so under every admission until
/// the loss notice is admitted: each ordinary emission that passes the
/// input, causality and coalescing-order checks is refused as
/// backpressured with the next sequence, which joins the pending loss
/// range, and leaves the queued records as they were.
pub proof fn lemma_backpressure_persists(m: CueQueueModel, i: CueInputView)
    requires
        model_wf(m),
        m.state is Backpressured,
    ensures
        !(enqueue_spec(m, i).0.state is Ready),
        is_ordinary(i.delivery) && input_error(m.limits, i) is None && causality_error(m, i) is None
            && !(tail_matches(m, i) && i.native_event_sequence@ <= m.records.last().last_native_event_sequence@)
            && m.next_sequence != 0 ==> {
            let seq = CueSequence::from_raw(m.next_sequence);
            &&& enqueue_spec(m, i).1 == Err::<EnqueueOutcome, CueQueueError>(CueQueueError::OrdinaryBackpressured { sequence: seq })
            &&& enqueue_spec(m, i).0.pending_loss == Some(loss_with(m.pending_loss, seq))
            &&& enqueue_spec(m, i).0.records == m.records
        },
{
}

/// State after draining the first `k` records.
pub open spec fn drained_model(m: CueQueueModel, k: int) -> CueQueueModel {
    CueQueueModel { records: m.records.skip(k), ..m }
}

/// Removing a delivered prefix keeps the queue invariant.
pub proof fn lemma_drain_preserves_wf(m: CueQueueModel, k: int)
    requires
        model_wf(m),
        0 <= k <= m.records.len(),
    ensures
        model_wf(drained_model(m, k)),
{
    let recs = m.records.skip(k);
    lemma_count_skip(m.records, k, |x: CueRecordView| is_ordinary(x.delivery));
    assert forall|s: StageId| #[trigger] count_stage_ordinary(recs, s) <= m.limits.spec_quota() by {
        lemma_count_skip(m.records, k, |x: CueRecordView| is_ordinary(x.delivery) && x.stage_id == s);
        assert(count_stage_ordinary(m.records, s) <= m.limits.spec_quota());
    }
    assert forall|j: int| 0 <= j < recs.len() implies record_ok(#[trigger] recs[j], m.limits) by {
        assert(recs[j] == m.records[j + k]);
    }
    assert forall|a: int, b: int| 0 <= a < b < recs.len() implies #[trigger] recs[a].last_sequence@
        < #[trigger] recs[b].first_sequence@ by {
        assert(recs[a] == m.records[a + k]);
        assert(recs[b] == m.records[b + k]);
    }
    assert forall|j: int| 0 <= j < recs.len() implies #[trigger] recs[j].last_sequence@
        < m.next_sequence || m.next_sequence == 0 by {
        assert(recs[j] == m.records[j + k]);
    }
}

/// Resetting an epoch yields a well-formed empty queue.
pub proof fn lemma_initial_wf(limits: CueLimits)
    requires
        limits.is_valid(),
    ensures
        model_wf(initial_model(limits)),
{
    assert forall|s: StageId| #[trigger]
        count_stage_ordinary(initial_model(limits).records, s) <= limits.spec_quota() by {}
}

impl CueQueue {
    /// Admit the Critical overflow notice that resolves a pending loss barrier.
    ///
    /// Ordinary admissions remain gated until this method appends the
    /// notice. Failure to fit the notice faults the endpoint.
    pub fn enqueue_pending_loss_notice(&mut self, input: CueInput) -> (r: Result<
        OverflowNoticeOutcome,
        CueQueueError,
    >)
        requires
            old(self).wf(),
        ensures
            final(self).wf(),
            final(self).model() == notice_spec(old(self).model(), input@).0,
            notice_spec(old(self).model(), input@).1 matches Err(e) ==> r == Err::<
                OverflowNoticeOutcome,
                CueQueueError,
            >(e),
            notice_spec(old(self).model(), input@).1 matches Ok(v) ==> r matches Ok(o) && o.loss@
                == v.0 && o.notice_sequence == v.1,
    {
        let ghost m = self.model();
        let ghost i = input@;
        proof {
            use_type_invariant(&input.native_event_sequence);
            lemma_notice_preserves_wf(m, i);
            use_type_invariant(&self.limits);
        }
        if self.state == CueEndpointState::Faulted {
            return Err(CueQueueError::Faulted);
        }
        let loss = match self.pending_loss {
            Some(l) => l,
            None => return Err(CueQueueError::NoPendingCueLoss),
        };
        if input.delivery != CueDelivery::Critical {
            return Err(CueQueueError::OverflowNoticeMustBeCritical);
        }
        self.validate_input(&input)?;
        self.validate_causality_for_input(&input)?;
        self.record_causality(&input);
        proof {
            lemma_with_causality_wf(m, i);
        }
        let notice_sequence = self.allocate_sequence()?;
        proof {
            CueSequence::lemma_view_injective(notice_sequence);
        }
        if self.records.len() >= self.limits.total_slots() {
            self.fault_critical_capacity(notice_sequence, input.stage_id, input.event_id);
            return Err(CueQueueError::CriticalCapacityExhausted { sequence: notice_sequence });
        }
        proof {
            lemma_push_wf(with_causality(m, i), i, notice_sequence);
        }
        self.records.push_back(CueRecord::from_input(input, notice_sequence));
        self.pending_loss = None;
        self.state = CueEndpointState::Ready;
        proof {
            assert(self.records@.map_values(|r: CueRecord| r@) =~= m.records.push(
                record_from_input(i, notice_sequence),
            ));
        }
        Ok(OverflowNoticeOutcome { loss, notice_sequence })
    }

    /// Remove a globally ordered prefix bounded by cue count and frame bytes.
    ///
    /// If the head record alone exceeds the byte budget, no later record may
    /// bypass it; the drain returns empty and preserves queue order. An
    /// allocation failure leaves the queue unchanged.
    #[verifier::rlimit(50)]
    pub fn drain(&mut self, budget: DrainBudget) -> (r: Result<DrainedCues, CueQueueError>)
        requires
            old(self).wf(),
        ensures
            final(self).wf(),
            old(self).model().state is Backpressured ==> r == Err::<DrainedCues, CueQueueError>(
                CueQueueError::DrainBackpressured,
            ),
            !(old(self).model().state is Backpressured) ==> r is Ok || r == Err::<
                DrainedCues,
                CueQueueError,
            >(CueQueueError::AllocationFailed),
            r is Err ==> final(self).model() == old(self).model(),
            r matches Ok(d) ==> {
                let k = d.cues@.len() as int;
                &&& drain_count_ok(old(self).model().records, budget, k)
                &&& d.cues@.map_values(|c: CueRecord| c@) == old(self).model().records.take(k)
                &&& d.frame_bytes == prefix_bytes(old(self).model().records, k)
                &&& final(self).model() == drained_model(old(self).model(), k)
            },
    {
        let ghost m = self.model();
        if self.state == CueEndpointState::Backpressured {
            return Err(CueQueueError::DrainBackpressured);
        }
        let (drain_count, drain_bytes) = self.drain_extent(budget);
        let mut cues: Vec<CueRecord> = Vec::new();
        if !try_reserve_vec(&mut cues, drain_count) {
            return Err(CueQueueError::AllocationFailed);
        }
        let mut frame_bytes: usize = 0;
        proof {
            lemma_drain_preserves_wf(m, drain_count as int);
            assert(m.records.skip(0) =~= m.records);
            assert(cues@.map_values(|c: CueRecord| c@) =~= m.records.take(0));
            assert(self.model() == drained_model(m, 0));
        }
        while cues.len() < drain_count
            invariant
                0 <= cues@.len() <= drain_count <= m.records.len(),
                cues@.map_values(|c: CueRecord| c@) == m.records.take(cues@.len() as int),
                self.records@.map_values(|c: CueRecord| c@) == m.records.skip(cues@.len() as int),
                frame_bytes == prefix_bytes(m.records, cues@.len() as int),
                drain_bytes == prefix_bytes(m.records, drain_count as int),
                self.ordinary_records == count_ordinary(m.records.skip(cues@.len() as int)),
                self.model() == drained_model(m, cues@.len() as int),
                model_wf(m),
            decreases drain_count - cues@.len(),
        {
            let ghost n = cues@.len() as int;
            let ghost before = self.records@;
            proof {
                assert(before.len() > 0);
            }
            let cue = self.records.pop_front().unwrap();
            proof {
                assert(before.map_values(|c: CueRecord| c@)[0] == before[0]@);
                assert(m.records.skip(n)[0] == m.records[n]);
                assert(cue@ == m.records[n]);
                assert(record_ok(m.records[n], m.limits));
                use_type_invariant(&self.limits);
                lemma_prefix_monotone(m.records, n + 1, drain_count as int);
                lemma_count_skip(m.records.skip(n), 1, |x: CueRecordView| is_ordinary(x.delivery));
                assert(m.records.skip(n).skip(1) =~= m.records.skip(n + 1));
                assert(m.records.skip(n).take(1) =~= seq![m.records[n]]);
                assert(seq![m.records[n]].drop_last() =~= Seq::<CueRecordView>::empty());
                lemma_count_bound(m.records.skip(n), |x: CueRecordView| is_ordinary(x.delivery));
                lemma_count_push(Seq::<CueRecordView>::empty(), m.records[n], |x: CueRecordView| is_ordinary(x.delivery));
                assert(Seq::<CueRecordView>::empty().push(m.records[n]) =~= m.records.skip(n).take(1));
            }
            if cue.delivery.is_ordinary() {
                self.ordinary_records = self.ordinary_records - 1;
            }
            frame_bytes = frame_bytes + cue.frame_bytes();
            cues.push(cue);
            proof {
                assert(self.records@.map_values(|c: CueRecord| c@) =~= m.records.skip(n + 1));
                assert(cues@.map_values(|c: CueRecord| c@) =~= m.records.take(n + 1));
            }
        }
        Ok(DrainedCues { cues, frame_bytes })
    }

    /// Reset queue state for a newly established endpoint epoch.
    ///
    /// All pending cues, sequence history, and emergency state are
    /// invalidated together.
    pub fn reset_epoch(&mut self)
        ensures
            final(self).wf(),
            final(self).model() == initial_model(old(self).model().limits),
    {
        proof { use_type_invariant(&self.limits); lemma_initial_wf(self.limits); }
        self.records.clear();
        self.stage_causality.clear();
        self.last_native_event_sequence = None;
        self.ordinary_records = 0;
        self.next_sequence = 1;
        self.state = CueEndpointState::Ready;
        self.pending_loss = None;
        self.emergency_fault = None;
        proof {
            assert(self.model().records =~= Seq::<CueRecordView>::empty());
            assert(self.model().stages =~= Seq::<(StageId, StageRevision)>::empty());
        }
    }
}

} // verus!
