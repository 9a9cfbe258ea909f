//! Asset path, handle, registry, cache, and source implementations.
//!
//! - [`AssetPath`]: a typed source-kind + path value.
//! - [`AssetHandle`]: an opaque `u32` token returned by [`AssetRegistry::register`].
//! - [`AssetRegistry`]: multi-source dispatcher holding up to
//!   [`ASSET_REGISTRY_MAX_SOURCES`] sources, one per kind.
//! - [`SlotCache`]: a bounded LRU cache keyed by [`CacheHandle`].
//! - [`EmbeddedAssetSource`] and [`MemoryAssetSource`]: in-memory sources.
//!
//! Given a fixed sequence of cache calls starting from a fresh cache, the
//! eviction order is fully deterministic.
use vstd::prelude::*;
use vstd::std_specs::iter::IteratorSpec;

use crate::fs::{
    lemma_opened_contents, path_named, read_all, reader_bytes, source_contents, zeros, AssetError, AssetIter, AssetRead,
    AssetSource, FsError,
};
use crate::image::{CacheHandle, ImageData, ImageDescriptor, PixelFormat};

verus! {

/// Whether two strings hold the same characters.
pub(crate) fn str_equal(a: &str, b: &str) -> (r: bool)
    ensures
        r == (a@ == b@),
{
    let n = a.unicode_len();
    if n != b.unicode_len() {
        return false;
    }
    let mut ia = a.chars();
    let mut ib = b.chars();
    let mut i: usize = 0;
    while i < n
        invariant
            n == a@.len(),
            a@.len() == b@.len(),
            i <= n,
            ia.remaining() == a@.skip(i as int),
            ib.remaining() == b@.skip(i as int),
            a@.take(i as int) == b@.take(i as int),
        decreases n - i,
    {
        let x = ia.next();
        let y = ib.next();
        proof {
            assert(a@.skip(i as int)[0] == a@[i as int]);
            assert(b@.skip(i as int)[0] == b@[i as int]);
        }
        match (x, y) {
            (Some(x), Some(y)) => {
                if x != y {
                    assert(a@[i as int] != b@[i as int]);
                    return false;
                }
                proof {
                    assert(a@.skip(i + 1) =~= a@.skip(i as int).drop_first());
                    assert(b@.skip(i + 1) =~= b@.skip(i as int).drop_first());
                    assert(a@.take(i + 1) =~= a@.take(i as int).push(x));
                    assert(b@.take(i + 1) =~= b@.take(i as int).push(y));
                }
            },
            _ => {
                return false;
            },
        }
        i = i + 1;
    }
    assert(a@ =~= a@.take(n as int));
    assert(b@ =~= b@.take(n as int));
    true
}

/// A typed value naming an asset within a specific source kind.
#[derive(Debug, Clone, PartialEq, Eq, Hash)]
pub enum AssetPath {
    /// A static asset looked up by symbol name in an embedded table.
    Embedded(&'static str),
    /// An asset on a FAT volume.
    Fatfs(String),
    /// An asset on the host filesystem (simulator builds).
    Sim(String),
    /// An asset in a runtime-populated in-RAM table.
    Memory(String),
}

/// Characters of the path string carried by `p`.
pub open spec fn path_chars(p: AssetPath) -> Seq<char> {
    match p {
        AssetPath::Embedded(s) => s@,
        AssetPath::Fatfs(s) => s@,
        AssetPath::Sim(s) => s@,
        AssetPath::Memory(s) => s@,
    }
}

/// Source kind that serves an [`AssetPath`] variant.
#[derive(Debug, Clone, Copy, PartialEq, Eq, Structural)]
pub enum SourceKind {
    /// Embedded table.
    Embedded,
    /// FAT volume.
    Fatfs,
    /// Host filesystem.
    Sim,
    /// In-RAM table.
    Memory,
}

/// Kind of `p`.
pub open spec fn kind_of(p: AssetPath) -> SourceKind {
    match p {
        AssetPath::Embedded(_) => SourceKind::Embedded,
        AssetPath::Fatfs(_) => SourceKind::Fatfs,
        AssetPath::Sim(_) => SourceKind::Sim,
        AssetPath::Memory(_) => SourceKind::Memory,
    }
}

impl AssetPath {
    /// Return the path string within this source kind.
    pub fn path_str(&self) -> (r: &str)
        ensures
            r@ == path_chars(*self),
    {
        match self {
            AssetPath::Embedded(s) => *s,
            AssetPath::Fatfs(s) => s.as_str(),
            AssetPath::Sim(s) => s.as_str(),
            AssetPath::Memory(s) => s.as_str(),
        }
    }

    /// Return a string label identifying the source kind.
    pub fn source_kind(&self) -> (r: &'static str)
        ensures
            r@ == match *self {
                AssetPath::Embedded(_) => "embedded"@,
                AssetPath::Fatfs(_) => "fatfs"@,
                AssetPath::Sim(_) => "sim"@,
                AssetPath::Memory(_) => "memory"@,
            },
    {
        match self {
            AssetPath::Embedded(_) => "embedded",
            AssetPath::Fatfs(_) => "fatfs",
            AssetPath::Sim(_) => "sim",
            AssetPath::Memory(_) => "memory",
        }
    }

    fn kind(&self) -> (r: SourceKind)
        ensures
            r == kind_of(*self),
    {
        match self {
            AssetPath::Embedded(_) => SourceKind::Embedded,
            AssetPath::Fatfs(_) => SourceKind::Fatfs,
            AssetPath::Sim(_) => SourceKind::Sim,
            AssetPath::Memory(_) => SourceKind::Memory,
        }
    }
}

/// Opaque token identifying a source-backed asset registered with an
/// [`AssetRegistry`]. Value `0` is reserved as the null handle.
#[derive(Debug, Clone, Copy, PartialEq, Eq, Structural, Hash)]
pub struct AssetHandle(u32);

impl View for AssetHandle {
    type V = u32;

    closed spec fn view(&self) -> u32 {
        self.0
    }
}

impl AssetHandle {
    /// Build a handle from a raw token.
    pub fn new(raw: u32) -> (r: Self)
        ensures
            r@ == raw,
    {
        AssetHandle(raw)
    }

    /// Return the raw `u32` token.
    pub fn as_u32(self) -> (r: u32)
        ensures
            r == self@,
    {
        self.0
    }
}

/// `x + 1` with wrap-around to zero.
pub open spec fn wrap_inc(x: u32) -> u32 {
    if x == u32::MAX {
        0
    } else {
        (x + 1) as u32
    }
}

fn wrapping_inc(x: u32) -> (r: u32)
    ensures
        r == wrap_inc(x),
{
    if x == u32::MAX { 0 } else { x + 1 }
}

/// Specification value of one occupied cache slot.
pub struct CacheEntryView {
    /// Cache key issued at insertion.
    pub handle: CacheHandle,
    /// Recency stamp; higher is more recent.
    pub ts: u32,
    /// Cached descriptor.
    pub desc: ImageDescriptor<'static>,
}

struct CacheEntry {
    handle: CacheHandle,
    ts: u32,
    desc: ImageDescriptor<'static>,
}

/// Whether slot `k` holds an entry keyed by `h`.
pub open spec fn slot_has(s: Seq<Option<CacheEntryView>>, k: int, h: CacheHandle) -> bool {
    s[k] matches Some(e) && e.handle == h
}

/// `k` is the first slot keyed by `h`.
pub open spec fn first_slot_with(s: Seq<Option<CacheEntryView>>, h: CacheHandle, k: int) -> bool {
    &&& 0 <= k < s.len()
    &&& slot_has(s, k, h)
    &&& forall|j: int| 0 <= j < k ==> !slot_has(s, j, h)
}

/// Whether some slot is keyed by `h`.
pub open spec fn cache_holds(s: Seq<Option<CacheEntryView>>, h: CacheHandle) -> bool {
    exists|k: int| 0 <= k < s.len() && slot_has(s, k, h)
}

/// `k` is the first vacant slot.
pub open spec fn first_vacant(s: Seq<Option<CacheEntryView>>, k: int) -> bool {
    &&& 0 <= k < s.len()
    &&& s[k] is None
    &&& forall|j: int| 0 <= j < k ==> s[j] is Some
}

/// `k` is the first slot holding the oldest (least recently used) stamp.
pub open spec fn lru_slot(s: Seq<Option<CacheEntryView>>, k: int) -> bool {
    &&& 0 <= k < s.len()
    &&& s[k] is Some
    &&& forall|j: int| 0 <= j < s.len() && s[j] is Some ==> s[k].unwrap().ts <= s[j].unwrap().ts
    &&& forall|j: int| 0 <= j < k && s[j] is Some ==> s[k].unwrap().ts < s[j].unwrap().ts
}

/// The least recently used slot is never one stamped later than another
/// occupied slot: after a hit restamps an entry with the newest stamp, the
/// next eviction from a full cache with another entry picks some other slot.
pub proof fn lemma_recent_slot_not_evicted(s: Seq<Option<CacheEntryView>>, recent: int, other: int, k: int)
    requires
        0 <= recent < s.len(),
        0 <= other < s.len(),
        s[recent] is Some,
        s[other] is Some,
        s[other].unwrap().ts < s[recent].unwrap().ts,
        lru_slot(s, k),
    ensures
        k != recent,
{
}

/// Number of occupied slots.
pub open spec fn occupied(s: Seq<Option<CacheEntryView>>) -> nat
    decreases s.len(),
{
    if s.len() == 0 {
        0
    } else {
        occupied(s.drop_last()) + if s.last() is Some { 1nat } else { 0nat }
    }
}

/// An insertion under a handle that no slot holds is found again: the slot
/// it filled is the first slot keyed by that handle, so a lookup hits it.
pub proof fn lemma_insert_then_found(s: Seq<Option<CacheEntryView>>, k: int, e: CacheEntryView)
    requires
        0 <= k < s.len(),
        !cache_holds(s, e.handle),
    ensures
        first_slot_with(s.update(k, Some(e)), e.handle, k),
{
    assert forall|j: int| 0 <= j < k implies !slot_has(s.update(k, Some(e)), j, e.handle) by {
        if slot_has(s, j, e.handle) {
            assert(cache_holds(s, e.handle));
        }
    }
}

/// Evicting the only slot keyed by a handle leaves no slot keyed by it, so a
/// later lookup misses.
pub proof fn lemma_evict_then_missing(s: Seq<Option<CacheEntryView>>, h: CacheHandle, k: int)
    requires
        first_slot_with(s, h, k),
        forall|j: int| 0 <= j < s.len() && j != k ==> !slot_has(s, j, h),
    ensures
        !cache_holds(s.update(k, None), h),
{
    let t = s.update(k, None);
    assert forall|j: int| 0 <= j < t.len() implies !slot_has(t, j, h) by {
        if j != k {
            assert(t[j] == s[j]);
            assert(!slot_has(s, j, h));
        }
    }
}

/// The slot an insertion fills is determined by the slots alone: the first
/// vacant slot, or, when every slot is occupied, the first slot holding the
/// oldest stamp. Eviction order is therefore deterministic.
pub proof fn lemma_insert_slot_unique(s: Seq<Option<CacheEntryView>>, k1: int, k2: int)
    requires
        first_vacant(s, k1) || ((forall|j: int| 0 <= j < s.len() ==> #[trigger] s[j] is Some) && lru_slot(s, k1)),
        first_vacant(s, k2) || ((forall|j: int| 0 <= j < s.len() ==> #[trigger] s[j] is Some) && lru_slot(s, k2)),
    ensures
        k1 == k2,
{
    if first_vacant(s, k1) && !first_vacant(s, k2) {
        assert(s[k1] is Some);
    } else if first_vacant(s, k2) && !first_vacant(s, k1) {
        assert(s[k2] is Some);
    } else if !first_vacant(s, k1) {
        if k1 < k2 {
            assert(s[k2].unwrap().ts < s[k1].unwrap().ts);
        } else if k2 < k1 {
            assert(s[k1].unwrap().ts < s[k2].unwrap().ts);
        }
    }
}

/// Handle issued by the `i`-th insertion after the counter stood at `c`.
pub open spec fn issued_handle(c: u32, i: nat) -> u32
    decreases i,
{
    if i == 0 {
        c
    } else {
        wrap_inc(issued_handle(c, (i - 1) as nat))
    }
}

/// Handles issued by successive insertions are distinct as long as the
/// counter does not pass `u32::MAX`: the `i`-th is `c + i`.
pub proof fn lemma_issued_handles_distinct(c: u32, i: nat, j: nat)
    requires
        c + i <= u32::MAX,
        c + j <= u32::MAX,
        i != j,
    ensures
        issued_handle(c, i) == c + i,
        issued_handle(c, i) != issued_handle(c, j),
{
    lemma_issued_handle_value(c, i);
    lemma_issued_handle_value(c, j);
}

/// A new cache issues handles 1, 2, 3, ...: its `i`-th insertion, counting
/// from zero, returns handle `i + 1`, since lookups and evictions leave the
/// handle counter alone.
pub proof fn lemma_handles_number_from_one(i: nat)
    requires
        i < u32::MAX,
    ensures
        issued_handle(1, i) == i + 1,
{
    lemma_issued_handle_value(1, i);
}

proof fn lemma_issued_handle_value(c: u32, i: nat)
    requires
        c + i <= u32::MAX,
    ensures
        issued_handle(c, i) == c + i,
    decreases i,
{
    if i > 0 {
        lemma_issued_handle_value(c, (i - 1) as nat);
    }
}

/// Cached handles are distinct, nonzero and below the next handle `c`,
/// which itself is nonzero: no handle has been issued twice yet.
pub open spec fn fresh_slots(s: Seq<Option<CacheEntryView>>, c: u32) -> bool {
    &&& c != 0
    &&& forall|k: int| 0 <= k < s.len() && (#[trigger] s[k]) is Some ==> 1 <= s[k].unwrap().handle@ < c
    &&& forall|j: int, k: int|
        0 <= j < k < s.len() && (#[trigger] s[j]) is Some && (#[trigger] s[k]) is Some ==> s[j].unwrap().handle
            != s[k].unwrap().handle
}

proof fn lemma_fresh_restamp(s: Seq<Option<CacheEntryView>>, c: u32, k: int, e: CacheEntryView)
    requires
        fresh_slots(s, c),
        0 <= k < s.len(),
        s[k] is Some,
        e.handle == s[k].unwrap().handle,
    ensures
        fresh_slots(s.update(k, Some(e)), c),
{
    let t = s.update(k, Some(e));
    assert forall|i: int| 0 <= i < t.len() && (#[trigger] t[i]) is Some implies 1 <= t[i].unwrap().handle@ < c by {
        assert(s[i] is Some);
    }
    assert forall|i: int, j: int| 0 <= i < j < t.len() && (#[trigger] t[i]) is Some && (#[trigger] t[j]) is Some implies t[i].unwrap().handle != t[j].unwrap().handle by {
        assert(s[i] is Some && s[j] is Some);
    }
}

proof fn lemma_fresh_clear(s: Seq<Option<CacheEntryView>>, c: u32, k: int)
    requires
        fresh_slots(s, c),
        0 <= k < s.len(),
    ensures
        fresh_slots(s.update(k, None), c),
{
    let t = s.update(k, None);
    assert forall|i: int| 0 <= i < t.len() && (#[trigger] t[i]) is Some implies 1 <= t[i].unwrap().handle@ < c by {
        assert(s[i] is Some);
    }
    assert forall|i: int, j: int| 0 <= i < j < t.len() && (#[trigger] t[i]) is Some && (#[trigger] t[j]) is Some implies t[i].unwrap().handle != t[j].unwrap().handle by {
        assert(s[i] is Some && s[j] is Some);
    }
}

/// A handle equal to the counter is held by no slot, and storing it (with
/// the counter advanced) keeps the slots fresh.
proof fn lemma_fresh_issue(s: Seq<Option<CacheEntryView>>, c: u32, k: int, e: CacheEntryView)
    requires
        fresh_slots(s, c),
        c < u32::MAX,
        0 <= k < s.len(),
        e.handle@ == c,
    ensures
        !cache_holds(s, e.handle),
        fresh_slots(s.update(k, Some(e)), (c + 1) as u32),
{
    if cache_holds(s, e.handle) {
        let j = choose|j: int| 0 <= j < s.len() && slot_has(s, j, e.handle);
        assert(s[j] is Some);
    }
    let t = s.update(k, Some(e));
    assert forall|i: int| 0 <= i < t.len() && (#[trigger] t[i]) is Some implies 1 <= t[i].unwrap().handle@ < c + 1 by {
        if i != k {
            assert(s[i] is Some);
        }
    }
    assert forall|i: int, j: int| 0 <= i < j < t.len() && (#[trigger] t[i]) is Some && (#[trigger] t[j]) is Some implies t[i].unwrap().handle != t[j].unwrap().handle by {
        if i != k && j != k {
            assert(s[i] is Some && s[j] is Some);
        } else if i == k {
            assert(s[j] is Some);
        } else {
            assert(s[i] is Some);
        }
    }
}

/// In fresh slots, the first slot keyed by `h` is the only one.
proof fn lemma_fresh_only_slot(s: Seq<Option<CacheEntryView>>, c: u32, h: CacheHandle, k: int)
    requires
        fresh_slots(s, c),
        first_slot_with(s, h, k),
    ensures
        forall|j: int| 0 <= j < s.len() && j != k ==> !slot_has(s, j, h),
{
    assert forall|j: int| 0 <= j < s.len() && j != k implies !slot_has(s, j, h) by {
        if slot_has(s, j, h) {
            if j < k {
                assert(s[j] is Some && s[k] is Some);
            } else {
                assert(s[k] is Some && s[j] is Some);
            }
        }
    }
}

/// Bounded LRU image cache with `N` slots.
///
/// On insertion when every slot is occupied, the first slot with the smallest
/// (oldest) stamp is evicted. A hit stamps the slot with the current counter.
/// Cache handles are issued sequentially starting at `1`.
pub struct SlotCache<const N: usize> {
    slots: Vec<Option<CacheEntry>>,
    ts_counter: u32,
    handle_counter: u32,
}

impl<const N: usize> SlotCache<N> {
    /// Slot contents.
    pub closed spec fn slots(&self) -> Seq<Option<CacheEntryView>> {
        self.slots@.map_values(
            |o: Option<CacheEntry>|
                match o {
                    Some(e) => Some(CacheEntryView { handle: e.handle, ts: e.ts, desc: e.desc }),
                    None => None,
                },
        )
    }

    /// Next recency stamp.
    pub closed spec fn ts_counter(&self) -> u32 {
        self.ts_counter
    }

    /// Next handle to issue.
    pub closed spec fn handle_counter(&self) -> u32 {
        self.handle_counter
    }

    /// The cache has exactly `N` slots.
    pub open spec fn wf(&self) -> bool {
        self.slots().len() == N
    }

    /// No handle has been issued twice yet: cached handles are distinct,
    /// nonzero and below the next handle. Holds from creation until the
    /// handle counter wraps.
    pub open spec fn handles_fresh(&self) -> bool {
        fresh_slots(self.slots(), self.handle_counter())
    }

    /// Create an empty cache with all slots vacant.
    pub fn new() -> (r: Self)
        ensures
            r.wf(),
            forall|k: int| 0 <= k < N ==> #[trigger] r.slots()[k] is None,
            r.ts_counter() == 1,
            r.handle_counter() == 1,
            r.handles_fresh(),
    {
        let mut slots: Vec<Option<CacheEntry>> = Vec::new();
        let mut i: usize = 0;
        while i < N
            invariant
                i <= N,
                slots@.len() == i,
                forall|k: int| 0 <= k < i ==> #[trigger] slots@[k] is None,
            decreases N - i,
        {
            slots.push(None);
            i = i + 1;
        }
        let r = SlotCache { slots, ts_counter: 1, handle_counter: 1 };
        proof {
            assert forall|k: int| 0 <= k < r.slots().len() implies #[trigger] r.slots()[k] is None by {
                assert(r.slots@[k] is None);
            }
        }
        r
    }

    fn find(&self, handle: CacheHandle) -> (r: Option<usize>)
        ensures
            r matches Some(k) ==> first_slot_with(self.slots(), handle, k as int),
            r is None ==> !cache_holds(self.slots(), handle),
    {
        let mut i: usize = 0;
        while i < self.slots.len()
            invariant
                i <= self.slots@.len(),
                self.slots().len() == self.slots@.len(),
                forall|j: int| 0 <= j < i ==> !slot_has(self.slots(), j, handle),
            decreases self.slots@.len() - i,
        {
            let hit = match &self.slots[i] {
                Some(e) => e.handle == handle,
                None => false,
            };
            if hit {
                return Some(i);
            }
            i = i + 1;
        }
        None
    }

    /// Look up `handle`; on a hit the slot is stamped as most recently used.
    ///
    /// The recency counter advances on every call.
    pub fn get(&mut self, handle: CacheHandle) -> (r: Option<&ImageDescriptor<'static>>)
        requires
            old(self).wf(),
        ensures
            final(self).wf(),
            final(self).ts_counter() == wrap_inc(old(self).ts_counter()),
            final(self).handle_counter() == old(self).handle_counter(),
            !cache_holds(old(self).slots(), handle) ==> r is None && final(self).slots()
                == old(self).slots(),
            forall|k: int| #[trigger]
                first_slot_with(old(self).slots(), handle, k) ==> {
                    &&& r == Some(&old(self).slots()[k].unwrap().desc)
                    &&& final(self).slots() == old(self).slots().update(
                        k,
                        Some(
                            CacheEntryView {
                                ts: old(self).ts_counter(),
                                ..old(self).slots()[k].unwrap()
                            },
                        ),
                    )
                },
            old(self).handles_fresh() ==> final(self).handles_fresh(),
    {
        let ts = self.ts_counter;
        self.ts_counter = wrapping_inc(self.ts_counter);
        match self.find(handle) {
            Some(k) => {
                let ghost before = self.slots();
                let entry = self.slots.remove(k);
                let entry = match entry {
                    Some(e) => CacheEntry { ts, ..e },
                    None => {
                        proof { assert(false); }
                        return None;
                    },
                };
                self.slots.insert(k, Some(entry));
                proof {
                    assert(self.slots() =~= before.update(
                        k as int,
                        Some(CacheEntryView { ts, ..before[k as int].unwrap() }),
                    ));
                    assert forall|j: int| #[trigger] first_slot_with(before, handle, j) implies j == k by {
                        if j < k {
                            assert(!slot_has(before, j, handle));
                        } else if j > k {
                            assert(!slot_has(before, k as int, handle));
                        }
                    }
                    if fresh_slots(before, self.handle_counter) {
                        lemma_fresh_restamp(before, self.handle_counter, k as int, CacheEntryView { ts, ..before[k as int].unwrap() });
                    }
                }
                match &self.slots[k] {
                    Some(e) => Some(&e.desc),
                    None => None,
                }
            },
            None => None,
        }
    }

    fn first_vacant_slot(&self) -> (r: Option<usize>)
        ensures
            r matches Some(k) ==> first_vacant(self.slots(), k as int),
            r is None ==> forall|j: int| 0 <= j < self.slots().len() ==> #[trigger] self.slots()[j] is Some,
    {
        let mut i: usize = 0;
        while i < self.slots.len()
            invariant
                i <= self.slots@.len(),
                self.slots().len() == self.slots@.len(),
                forall|j: int| 0 <= j < i ==> #[trigger] self.slots()[j] is Some,
            decreases self.slots@.len() - i,
        {
            if self.slots[i].is_none() {
                return Some(i);
            }
            i = i + 1;
        }
        None
    }

    fn oldest_slot(&self) -> (r: usize)
        requires
            self.slots().len() > 0,
            forall|j: int| 0 <= j < self.slots().len() ==> #[trigger] self.slots()[j] is Some,
        ensures
            lru_slot(self.slots(), r as int),
    {
        let ghost s = self.slots();
        let mut best: usize = 0;
        let mut best_ts: u32 = match &self.slots[0] {
            Some(e) => e.ts,
            None => 0,
        };
        let mut i: usize = 1;
        while i < self.slots.len()
            invariant
                s == self.slots(),
                s.len() == self.slots@.len(),
                forall|j: int| 0 <= j < s.len() ==> #[trigger] s[j] is Some,
                1 <= i <= s.len(),
                best < i,
                best_ts == s[best as int].unwrap().ts,
                forall|j: int| 0 <= j < i ==> best_ts <= #[trigger] s[j].unwrap().ts,
                forall|j: int| 0 <= j < best ==> best_ts < #[trigger] s[j].unwrap().ts,
            decreases s.len() - i,
        {
            let t = match &self.slots[i] {
                Some(e) => e.ts,
                None => best_ts,
            };
            if t < best_ts {
                best = i;
                best_ts = t;
            }
            i = i + 1;
        }
        best
    }

    fn insert_slot(&mut self, descriptor: ImageDescriptor<'static>) -> (res: (CacheHandle, usize))
        requires
            old(self).wf(),
            N > 0,
        ensures
            final(self).wf(),
            ({
                let r = res.0;
                let k = res.1 as int;
                &&& (first_vacant(old(self).slots(), k) || ((forall|j: int|
                        0 <= j < N ==> #[trigger] old(self).slots()[j] is Some) && lru_slot(
                        old(self).slots(),
                        k,
                    )))
                &&& final(self).slots() == old(self).slots().update(
                        k,
                        Some(
                            CacheEntryView {
                                handle: r,
                                ts: old(self).ts_counter(),
                                desc: descriptor,
                            },
                        ),
                    )
            }),
            res.0@ == old(self).handle_counter(),
            final(self).handle_counter() == wrap_inc(old(self).handle_counter()),
            final(self).ts_counter() == wrap_inc(old(self).ts_counter()),
    {
        let handle = CacheHandle::new(self.handle_counter);
        self.handle_counter = wrapping_inc(self.handle_counter);
        let ts = self.ts_counter;
        self.ts_counter = wrapping_inc(self.ts_counter);
        let ghost before = self.slots();
        let k = match self.first_vacant_slot() {
            Some(k) => k,
            None => self.oldest_slot(),
        };
        let _old = self.slots.remove(k);
        self.slots.insert(k, Some(CacheEntry { handle, ts, desc: descriptor }));
        proof {
            assert(self.slots() =~= before.update(
                k as int,
                Some(CacheEntryView { handle, ts, desc: descriptor }),
            ));
        }
        (handle, k)
    }

    /// Insert `descriptor` and return its freshly issued [`CacheHandle`].
    ///
    /// The first vacant slot is used; when every slot is occupied, the first
    /// slot with the oldest stamp is evicted.
    pub fn insert(&mut self, descriptor: ImageDescriptor<'static>) -> (r: CacheHandle)
        requires
            old(self).wf(),
            N > 0,
        ensures
            final(self).wf(),
            r@ == old(self).handle_counter(),
            final(self).handle_counter() == wrap_inc(old(self).handle_counter()),
            final(self).ts_counter() == wrap_inc(old(self).ts_counter()),
            exists|k: int|
                {
                    &&& (first_vacant(old(self).slots(), k) || ((forall|j: int|
                        0 <= j < N ==> #[trigger] old(self).slots()[j] is Some) && lru_slot(
                        old(self).slots(),
                        k,
                    )))
                    &&& final(self).slots() == old(self).slots().update(
                        k,
                        Some(
                            CacheEntryView {
                                handle: r,
                                ts: old(self).ts_counter(),
                                desc: descriptor,
                            },
                        ),
                    )
                },
            old(self).handles_fresh() && old(self).handle_counter() < u32::MAX ==> {
                &&& !cache_holds(old(self).slots(), r)
                &&& final(self).handles_fresh()
            },
    {
        let ghost before = self.slots();
        let ghost c = self.handle_counter;
        let ghost ts = self.ts_counter;
        let (handle, k) = self.insert_slot(descriptor);
        proof {
            if fresh_slots(before, c) && c < u32::MAX {
                lemma_fresh_issue(before, c, k as int, CacheEntryView { handle, ts, desc: descriptor });
            }
        }
        handle
    }

    /// Evict the first entry keyed by `handle`, if present.
    pub fn evict(&mut self, handle: CacheHandle)
        requires
            old(self).wf(),
        ensures
            final(self).wf(),
            final(self).ts_counter() == old(self).ts_counter(),
            final(self).handle_counter() == old(self).handle_counter(),
            !cache_holds(old(self).slots(), handle) ==> final(self).slots() == old(self).slots(),
            forall|k: int| #[trigger]
                first_slot_with(old(self).slots(), handle, k) ==> final(self).slots()
                    == old(self).slots().update(k, None),
            old(self).handles_fresh() ==> final(self).handles_fresh() && !cache_holds(final(self).slots(), handle),
    {
        match self.find(handle) {
            Some(k) => {
                let ghost before = self.slots();
                let _old = self.slots.remove(k);
                self.slots.insert(k, None);
                proof {
                    assert(self.slots() =~= before.update(k as int, None));
                    assert forall|j: int| #[trigger] first_slot_with(before, handle, j) implies j == k by {
                        if j < k {
                            assert(!slot_has(before, j, handle));
                        } else if j > k {
                            assert(!slot_has(before, k as int, handle));
                        }
                    }
                    if fresh_slots(before, self.handle_counter) {
                        lemma_fresh_clear(before, self.handle_counter, k as int);
                        lemma_fresh_only_slot(before, self.handle_counter, handle, k as int);
                        lemma_evict_then_missing(before, handle, k as int);
                    }
                }
            },
            None => {},
        }
    }

    /// Return the number of occupied slots.
    pub fn len(&self) -> (r: usize)
        ensures
            r == occupied(self.slots()),
    {
        let ghost s = self.slots();
        let mut count: usize = 0;
        let mut i: usize = 0;
        while i < self.slots.len()
            invariant
                s == self.slots(),
                s.len() == self.slots@.len(),
                i <= s.len(),
                count == occupied(s.take(i as int)),
                count <= i,
            decreases s.len() - i,
        {
            proof {
                assert(s.take(i + 1).drop_last() =~= s.take(i as int));
                assert(s.take(i + 1).last() == s[i as int]);
            }
            if self.slots[i].is_some() {
                count = count + 1;
            }
            i = i + 1;
        }
        proof {
            assert(s.take(i as int) =~= s);
        }
        count
    }

    /// Return `true` if no slots are occupied.
    pub fn is_empty(&self) -> (r: bool)
        ensures
            r == (occupied(self.slots()) == 0),
    {
        self.len() == 0
    }
}


impl<const N: usize> SlotCache<N> {
    fn peek(&self, handle: CacheHandle) -> (r: Option<&ImageDescriptor<'static>>)
        ensures
            !cache_holds(self.slots(), handle) ==> r is None,
            forall|k: int| #[trigger]
                first_slot_with(self.slots(), handle, k) ==> r == Some(
                    &self.slots()[k].unwrap().desc,
                ),
    {
        match self.find(handle) {
            Some(k) => {
                proof {
                    assert forall|j: int| #[trigger] first_slot_with(self.slots(), handle, j) implies j == k by {
                        if j < k {
                            assert(!slot_has(self.slots(), j, handle));
                        } else if j > k {
                            assert(!slot_has(self.slots(), k as int, handle));
                        }
                    }
                }
                match &self.slots[k] {
                    Some(e) => Some(&e.desc),
                    None => None,
                }
            },
            None => None,
        }
    }
}

/// Maximum number of sources registered in one [`AssetRegistry`], one per kind.
pub const ASSET_REGISTRY_MAX_SOURCES: usize = 4;

/// Specification value of one interned handle record.
pub struct HandleRecordView {
    /// Issued handle.
    pub asset_handle: AssetHandle,
    /// Interned path.
    pub path: AssetPath,
    /// Cache key of the decoded pixels, when believed cached.
    pub cache_handle: Option<CacheHandle>,
}

struct HandleRecord {
    asset_handle: AssetHandle,
    path: AssetPath,
    cache_handle: Option<CacheHandle>,
}

/// Error produced when a source registration call fails.
#[derive(Debug, Clone, Copy, PartialEq, Eq, Structural)]
pub enum RegistryError {
    /// The registry already holds [`ASSET_REGISTRY_MAX_SOURCES`] sources.
    Full,
    /// A source for this kind is already registered.
    DuplicateKind,
}

/// `k` is the first record issued for `h`.
pub open spec fn first_record(s: Seq<HandleRecordView>, h: AssetHandle, k: int) -> bool {
    &&& 0 <= k < s.len()
    &&& s[k].asset_handle == h
    &&& forall|j: int| 0 <= j < k ==> s[j].asset_handle != h
}

/// Whether some record was issued for `h`.
pub open spec fn has_record(s: Seq<HandleRecordView>, h: AssetHandle) -> bool {
    exists|k: int| 0 <= k < s.len() && s[k].asset_handle == h
}

/// `i` is the first position of `kind` in `kinds`.
pub open spec fn first_kind(kinds: Seq<SourceKind>, kind: SourceKind, i: int) -> bool {
    &&& 0 <= i < kinds.len()
    &&& kinds[i] == kind
    &&& forall|j: int| 0 <= j < i ==> kinds[j] != kind
}

/// Descriptor produced for raw, undecoded asset bytes.
pub open spec fn is_raw_descriptor(d: ImageDescriptor<'static>) -> bool {
    &&& d.format == PixelFormat::Rgb565
    &&& d.width == 0
    &&& d.height == 0
    &&& d.stride is None
    &&& d.data is Owned
}

/// Multi-source asset dispatcher with an interned handle table and an LRU
/// cache of `CACHE_SLOTS` decoded descriptors.
pub struct AssetRegistry<const CACHE_SLOTS: usize> {
    kinds: Vec<SourceKind>,
    sources: Vec<Box<dyn AssetSource>>,
    handles: Vec<HandleRecord>,
    cache: SlotCache<CACHE_SLOTS>,
    next_asset_handle: u32,
}

impl<const CACHE_SLOTS: usize> AssetRegistry<CACHE_SLOTS> {
    /// Kinds of the registered sources, in registration order.
    pub closed spec fn source_kinds(&self) -> Seq<SourceKind> {
        self.kinds@
    }

    /// Interned handle records, in issue order.
    pub closed spec fn records(&self) -> Seq<HandleRecordView> {
        self.handles@.map_values(
            |h: HandleRecord|
                HandleRecordView {
                    asset_handle: h.asset_handle,
                    path: h.path,
                    cache_handle: h.cache_handle,
                },
        )
    }

    /// Decoded-descriptor cache.
    pub closed spec fn cache(&self) -> SlotCache<CACHE_SLOTS> {
        self.cache
    }

    /// Next handle token to issue.
    pub closed spec fn next_handle(&self) -> u32 {
        self.next_asset_handle
    }

    /// The registered sources, in registration order (the `i`-th serves
    /// kind `source_kinds()[i]`; a kind without its source resolves to a
    /// device error).
    pub closed spec fn sources(&self) -> Seq<Box<dyn AssetSource>> {
        self.sources@
    }

    /// The cache keeps its slot count.
    pub open spec fn wf(&self) -> bool {
        self.cache().wf()
    }

    /// Create a new, empty registry; handle `0` is reserved.
    pub fn new() -> (r: Self)
        ensures
            r.wf(),
            r.source_kinds() == Seq::<SourceKind>::empty(),
            r.records() == Seq::<HandleRecordView>::empty(),
            r.next_handle() == 1,
            r.sources().len() == 0,
            forall|k: int| 0 <= k < CACHE_SLOTS ==> #[trigger] r.cache().slots()[k] is None,
    {
        let r = AssetRegistry {
            kinds: Vec::new(),
            sources: Vec::new(),
            handles: Vec::new(),
            cache: SlotCache::new(),
            next_asset_handle: 1,
        };
        proof {
            assert(r.source_kinds() =~= Seq::<SourceKind>::empty());
            assert(r.records() =~= Seq::<HandleRecordView>::empty());
        }
        r
    }

    /// Register `source` for the kind of `kind_sentinel` (its path is ignored).
    pub fn register_source(&mut self, kind_sentinel: &AssetPath, source: Box<dyn AssetSource>) -> (r: Result<(), RegistryError>)
        requires
            old(self).wf(),
        ensures
            final(self).wf(),
            old(self).source_kinds().len() >= ASSET_REGISTRY_MAX_SOURCES ==> r == Err::<(), RegistryError>(RegistryError::Full),
            old(self).source_kinds().len() < ASSET_REGISTRY_MAX_SOURCES && old(self).source_kinds().contains(kind_of(*kind_sentinel)) ==> r == Err::<(), RegistryError>(RegistryError::DuplicateKind),
            r is Err ==> final(self).source_kinds() == old(self).source_kinds() && final(self).sources() == old(self).sources(),
            r is Ok ==> final(self).sources() == old(self).sources().push(source),
            old(self).source_kinds().len() < ASSET_REGISTRY_MAX_SOURCES && !old(self).source_kinds().contains(kind_of(*kind_sentinel)) ==> r is Ok && final(self).source_kinds() == old(self).source_kinds().push(kind_of(*kind_sentinel)),
            final(self).records() == old(self).records(),
            final(self).cache() == old(self).cache(),
            final(self).next_handle() == old(self).next_handle(),
    {
        if self.kinds.len() >= ASSET_REGISTRY_MAX_SOURCES {
            return Err(RegistryError::Full);
        }
        let kind = kind_sentinel.kind();
        match self.find_source(kind) {
            Some(_) => return Err(RegistryError::DuplicateKind),
            None => {},
        }
        self.kinds.push(kind);
        let ghost before = self.sources@;
        self.sources.push(source);
        proof {
            assert(self.sources@ == before.push(source));
            assert(before == old(self).sources@);
        }
        Ok(())
    }

    /// Intern `path` and return a freshly issued [`AssetHandle`].
    ///
    /// Registering the same path twice issues two distinct handles.
    pub fn register(&mut self, path: AssetPath) -> (r: AssetHandle)
        requires
            old(self).wf(),
        ensures
            final(self).wf(),
            r@ == old(self).next_handle(),
            final(self).next_handle() == wrap_inc(old(self).next_handle()),
            final(self).records() == old(self).records().push(
                HandleRecordView { asset_handle: r, path, cache_handle: None },
            ),
            final(self).source_kinds() == old(self).source_kinds(),
            final(self).sources() == old(self).sources(),
            final(self).cache() == old(self).cache(),
    {
        let handle = AssetHandle(self.next_asset_handle);
        self.next_asset_handle = wrapping_inc(self.next_asset_handle);
        let ghost before = self.records();
        self.handles.push(HandleRecord { asset_handle: handle, path, cache_handle: None });
        proof {
            assert(self.records() =~= before.push(
                HandleRecordView { asset_handle: handle, path, cache_handle: None },
            ));
        }
        handle
    }

    fn find_record(&self, handle: AssetHandle) -> (r: Option<usize>)
        ensures
            r matches Some(k) ==> first_record(self.records(), handle, k as int),
            r is None ==> !has_record(self.records(), handle),
    {
        let mut i: usize = 0;
        while i < self.handles.len()
            invariant
                i <= self.handles@.len(),
                self.records().len() == self.handles@.len(),
                forall|j: int| 0 <= j < i ==> #[trigger] self.records()[j].asset_handle != handle,
            decreases self.handles@.len() - i,
        {
            if self.handles[i].asset_handle == handle {
                return Some(i);
            }
            i = i + 1;
        }
        None
    }

    fn find_source(&self, kind: SourceKind) -> (r: Option<usize>)
        ensures
            r matches Some(k) ==> first_kind(self.source_kinds(), kind, k as int),
            r is None ==> !self.source_kinds().contains(kind),
    {
        let mut i: usize = 0;
        while i < self.kinds.len()
            invariant
                i <= self.kinds@.len(),
                forall|j: int| 0 <= j < i ==> #[trigger] self.source_kinds()[j] != kind,
            decreases self.kinds@.len() - i,
        {
            if self.kinds[i] == kind {
                return Some(i);
            }
            i = i + 1;
        }
        None
    }

    fn set_cache_handle(&mut self, k: usize, ch: Option<CacheHandle>)
        requires
            k < old(self).records().len(),
        ensures
            final(self).records() == old(self).records().update(
                k as int,
                HandleRecordView { cache_handle: ch, ..old(self).records()[k as int] },
            ),
            final(self).kinds@ == old(self).kinds@,
            final(self).source_kinds() == old(self).source_kinds(),
            final(self).sources() == old(self).sources(),
            final(self).cache() == old(self).cache(),
            final(self).next_handle() == old(self).next_handle(),
            final(self).handles@.len() == old(self).handles@.len(),
    {
        let ghost before = self.records();
        let rec = self.handles.remove(k);
        self.handles.insert(k, HandleRecord { cache_handle: ch, ..rec });
        proof {
            assert(self.records() =~= before.update(
                k as int,
                HandleRecordView { cache_handle: ch, ..before[k as int] },
            ));
        }
    }

    /// Resolve `handle` to a decoded [`ImageDescriptor`].
    ///
    /// A cached descriptor is returned after an LRU touch. Otherwise the
    /// source registered for the path's kind is opened, its bytes are read,
    /// wrapped as a raw descriptor, inserted into the cache, and returned.
    pub fn resolve_image(&mut self, handle: AssetHandle) -> (r: Result<&ImageDescriptor<'static>, AssetError>)
        requires
            old(self).wf(),
            CACHE_SLOTS > 0,
        ensures
            final(self).wf(),
            final(self).source_kinds() == old(self).source_kinds(),
            final(self).sources() == old(self).sources(),
            final(self).next_handle() == old(self).next_handle(),
            !has_record(old(self).records(), handle) ==> (r matches Err(AssetError::Fs(FsError::NoSuchFile)))
                && final(self).records() == old(self).records() && final(self).cache() == old(self).cache(),
            forall|k: int| #[trigger] first_record(old(self).records(), handle, k) ==> {
                let rec = old(self).records()[k];
                if rec.cache_handle is Some && cache_holds(old(self).cache().slots(), rec.cache_handle.unwrap()) {
                    &&& final(self).records() == old(self).records()
                    &&& forall|j: int| #[trigger] first_slot_with(old(self).cache().slots(), rec.cache_handle.unwrap(), j) ==> (r matches Ok(d) && *d == old(self).cache().slots()[j].unwrap().desc)
                } else if !old(self).source_kinds().contains(kind_of(rec.path)) {
                    &&& r matches Err(AssetError::Fs(FsError::NoSuchFile))
                    &&& final(self).records() == old(self).records().update(k, HandleRecordView { cache_handle: None, ..rec })
                    &&& final(self).cache() == old(self).cache()
                } else {
                    &&& r is Err ==> final(self).records() == old(self).records().update(k, HandleRecordView { cache_handle: None, ..rec })
                        && final(self).cache() == old(self).cache()
                    &&& r matches Ok(d) ==> {
                        &&& is_raw_descriptor(*d)
                        &&& forall|i: int| #[trigger] first_kind(old(self).source_kinds(), kind_of(rec.path), i) ==> (d.data matches ImageData::Owned(b)
                            && source_contents(&*old(self).sources()[i], path_chars(rec.path)) == Some(b@))
                        &&& final(self).cache().handle_counter() == wrap_inc(old(self).cache().handle_counter())
                        &&& final(self).records().len() == old(self).records().len()
                        &&& final(self).records()[k] == (HandleRecordView { cache_handle: final(self).records()[k].cache_handle, ..rec })
                        &&& (final(self).records()[k].cache_handle matches Some(ch) && ch@ == old(self).cache().handle_counter())
                        &&& old(self).cache().handles_fresh() && old(self).cache().handle_counter() < u32::MAX ==> {
                            let ch = final(self).records()[k].cache_handle.unwrap();
                            &&& cache_holds(final(self).cache().slots(), ch)
                            &&& forall|j: int| #[trigger] first_slot_with(final(self).cache().slots(), ch, j)
                                ==> final(self).cache().slots()[j].unwrap().desc == *d
                        }
                        &&& (forall|j: int| 0 <= j < old(self).records().len() && j != k ==> #[trigger] final(self).records()[j] == old(self).records()[j])
                    }
                }
            },
    {
        let record_idx = match self.find_record(handle) {
            Some(k) => k,
            None => return Err(AssetError::Fs(FsError::NoSuchFile)),
        };
        assert(self.records().len() == self.handles@.len());
        proof {
            assert forall|j: int| #[trigger] first_record(self.records(), handle, j) implies j == record_idx by {
                if j < record_idx {
                    assert(self.records()[j].asset_handle != handle);
                } else if j > record_idx {
                    assert(self.records()[record_idx as int].asset_handle != handle);
                }
            }
        }
        let existing = match self.handles[record_idx].cache_handle {
            Some(ch) => match self.cache.find(ch) {
                Some(idx) => Some((ch, idx)),
                None => None,
            },
            None => None,
        };
        proof {
            assert(self.records()[record_idx as int].cache_handle == self.handles@[record_idx as int].cache_handle);
        }
        match existing {
            Some((ch, idx)) => {
                let ghost c0 = self.cache.slots();
                proof {
                    assert forall|j: int| #[trigger] first_slot_with(c0, ch, j) implies j == idx by {
                        if j < idx {
                            assert(!slot_has(c0, j, ch));
                        } else if j > idx {
                            assert(!slot_has(c0, idx as int, ch));
                        }
                    }
                }
                let _ = self.cache.get(ch);
                proof {
                    assert forall|i: int| 0 <= i < idx implies !slot_has(self.cache.slots(), i, ch) by {
                        assert(!slot_has(c0, i, ch));
                    }
                    assert(first_slot_with(self.cache.slots(), ch, idx as int));
                    assert(self.cache.slots()[idx as int].unwrap().desc == c0[idx as int].unwrap().desc);
                }
                match self.cache.peek(ch) {
                    Some(d) => Ok(d),
                    None => Err(AssetError::Fs(FsError::Device)),
                }
            },
            None => {
                self.set_cache_handle(record_idx, None);
                let kind = self.handles[record_idx].path.kind();
                let source_idx = match self.find_source(kind) {
                    Some(k) => k,
                    None => {
                        proof {
                            assert(self.source_kinds() == old(self).source_kinds());
                        }
                        return Err(AssetError::Fs(FsError::NoSuchFile));
                    },
                };
                if source_idx >= self.sources.len() {
                    return Err(AssetError::Fs(FsError::Device));
                }
                let ghost src_i = source_idx as int;
                let bytes = {
                    let path_str = self.handles[record_idx].path.path_str();
                    let source = &self.sources[source_idx];
                    let mut reader = source.open(path_str)?;
                    let ghost rd0 = reader_bytes(&*reader);
                    proof {
                        lemma_opened_contents(&**source, path_str@, &*reader);
                    }
                    let b = read_all(&mut reader)?;
                    proof {
                        assert(rd0.subrange(0, rd0.len() as int) + zeros(0) =~= rd0);
                        assert(source_contents(&**source, path_str@) == Some(b@));
                    }
                    b
                };
                let desc = decode_bytes(bytes);
                let ghost dg = desc;
                let (new_ch, slot) = self.cache.insert_slot(desc);
                self.set_cache_handle(record_idx, Some(new_ch));
                proof {
                    assert(self.cache.slots()[slot as int] is Some);
                    assert(self.cache.slots()[slot as int].unwrap().desc == dg);
                    let c0 = old(self).cache().slots();
                    let c1 = self.cache.slots();
                    assert(slot_has(c1, slot as int, new_ch));
                    if old(self).cache().handles_fresh() && old(self).cache().handle_counter() < u32::MAX {
                        lemma_fresh_issue(c0, old(self).cache().handle_counter(), slot as int, c1[slot as int].unwrap());
                        assert forall|j: int| #[trigger] first_slot_with(c1, new_ch, j) implies j == slot as int by {
                            if j != slot as int {
                                assert(slot_has(c0, j, new_ch));
                            }
                        }
                    }
                }
                match &self.cache.slots[slot] {
                    Some(e) => {
                        proof {
                            assert(self.cache.slots()[slot as int].unwrap().desc == e.desc);
                        }
                        Ok(&e.desc)
                    },
                    None => Err(AssetError::Fs(FsError::Device)),
                }
            },
        }
    }
}

/// Wrap raw asset bytes in an owned descriptor.
///
/// Codec plugins are not part of this build, so every asset is returned as
/// raw bytes in RGB565 format with zero dimensions.
fn decode_bytes(bytes: Vec<u8>) -> (r: ImageDescriptor<'static>)
    ensures
        is_raw_descriptor(r),
        r.data matches ImageData::Owned(b) && b@ == bytes@,
{
    ImageDescriptor {
        format: PixelFormat::Rgb565,
        width: 0,
        height: 0,
        data: ImageData::Owned(bytes),
        stride: None,
    }
}


/// Copy `src[pos..pos + n]` into the start of `out`.
fn copy_into(out: &mut [u8], src: &[u8], pos: usize, n: usize)
    requires
        n <= old(out)@.len(),
        pos + n <= src.len(),
    ensures
        final(out)@ == src@.subrange(pos as int, pos + n) + old(out)@.skip(n as int),
{
    let ghost o = out@;
    let mut i: usize = 0;
    while i < n
        invariant
            i <= n,
            n <= o.len(),
            pos + n <= src.len(),
            out@.len() == o.len(),
            forall|k: int| 0 <= k < i ==> #[trigger] out@[k] == src@[pos + k],
            forall|k: int| i <= k < o.len() ==> #[trigger] out@[k] == o[k],
        decreases n - i,
    {
        out[i] = src[pos + i];
        i = i + 1;
    }
    assert(out@ =~= src@.subrange(pos as int, pos + n) + o.skip(n as int));
}

/// Byte reader over a static slice.
struct StaticSliceReader {
    data: &'static [u8],
    pos: usize,
}

impl StaticSliceReader {
    /// The bytes being read.
    pub closed spec fn bytes(&self) -> Seq<u8> {
        self.data@
    }

    /// The read position.
    pub closed spec fn position(&self) -> int {
        self.pos as int
    }
}

impl AssetRead for StaticSliceReader {
    closed spec fn total_len(&self) -> usize {
        self.data@.len() as usize
    }

    closed spec fn byte_at(&self, i: usize) -> u8 {
        self.data@[i as int]
    }

    closed spec fn read_pos(&self) -> usize {
        self.pos
    }

    fn read(&mut self, out: &mut [u8]) -> (r: Result<usize, AssetError>)
        ensures
            ({
                let len = old(self).bytes().len();
                let start = if old(self).position() <= len { old(self).position() as int } else { len as int };
                let n = if old(out)@.len() <= len - start { old(out)@.len() as int } else { len - start };
                &&& r matches Ok(k) && k == n
                &&& final(out)@ == old(self).bytes().subrange(start, start + n) + old(out)@.skip(n)
                &&& final(self).bytes() == old(self).bytes()
                &&& final(self).position() == start + n
            }),
    {
        let len = self.data.len();
        proof {
            assert(Seq::new(self.total_len() as nat, |i: int| self.byte_at(i as usize)) =~= self.data@);
        }
        let start = if self.pos <= len { self.pos } else { len };
        let remaining = len - start;
        let n = if out.len() <= remaining { out.len() } else { remaining };
        copy_into(out, self.data, start, n);
        self.pos = start + n;
        Ok(n)
    }

    fn len(&self) -> (r: usize)
        ensures
            r == self.bytes().len(),
    {
        self.data.len()
    }

    fn is_empty(&self) -> (r: bool)
        ensures
            r == (self.bytes().len() == 0),
    {
        self.data.len() == 0
    }

    fn seek(&mut self, pos: u64) -> (r: Result<u64, AssetError>)
        ensures
            ({
                let p = if pos >= old(self).bytes().len() { old(self).bytes().len() as int } else { pos as int };
                &&& r matches Ok(q) && q == p
                &&& final(self).position() == p
                &&& final(self).bytes() == old(self).bytes()
            }),
    {
        let len = self.data.len();
        let p: usize = if pos >= len as u64 { len } else { pos as usize };
        self.pos = p;
        Ok(p as u64)
    }
}

/// Asset source backed by a static `(name, bytes)` table.
///
/// Lookup is a linear scan for an exact name match; the only expected
/// failure is [`FsError::NoSuchFile`] when the name is absent.
pub struct EmbeddedAssetSource {
    table: &'static [(&'static str, &'static [u8])],
}

/// Whether `table` holds an entry named `path`.
pub open spec fn table_has(table: Seq<(&'static str, &'static [u8])>, path: Seq<char>) -> bool {
    exists|k: int| 0 <= k < table.len() && table[k].0@ == path
}

/// `k` is the first entry of `table` named `path`.
pub open spec fn table_first(table: Seq<(&'static str, &'static [u8])>, path: Seq<char>, k: int) -> bool {
    &&& 0 <= k < table.len()
    &&& table[k].0@ == path
    &&& forall|j: int| 0 <= j < k ==> table[j].0@ != path
}

/// The bytes of the first entry of `table` named `path`.
pub open spec fn table_bytes(table: Seq<(&'static str, &'static [u8])>, path: Seq<char>) -> Option<Seq<u8>> {
    if exists|k: int| table_first(table, path, k) {
        Some(table[choose|k: int| table_first(table, path, k)].1@)
    } else {
        None
    }
}

proof fn lemma_table_first_unique(table: Seq<(&'static str, &'static [u8])>, path: Seq<char>, k1: int, k2: int)
    requires
        table_first(table, path, k1),
        table_first(table, path, k2),
    ensures
        k1 == k2,
{
    if k1 < k2 {
        assert(table[k1].0@ != path);
    } else if k2 < k1 {
        assert(table[k2].0@ != path);
    }
}

impl EmbeddedAssetSource {
    /// Create a source from a static `(name, bytes)` table.
    pub fn new(table: &'static [(&'static str, &'static [u8])]) -> (r: Self)
        ensures
            r.table() == table@,
    {
        EmbeddedAssetSource { table }
    }

    /// The lookup table.
    pub closed spec fn table(&self) -> Seq<(&'static str, &'static [u8])> {
        self.table@
    }

    fn lookup(&self, path: &str) -> (r: Option<usize>)
        ensures
            r matches Some(k) ==> table_first(self.table(), path@, k as int),
            r is None ==> !table_has(self.table(), path@),
    {
        let mut i: usize = 0;
        while i < self.table.len()
            invariant
                i <= self.table@.len(),
                forall|j: int| 0 <= j < i ==> #[trigger] self.table@[j].0@ != path@,
            decreases self.table@.len() - i,
        {
            if str_equal(self.table[i].0, path) {
                return Some(i);
            }
            i = i + 1;
        }
        None
    }
}

impl AssetSource for EmbeddedAssetSource {
    closed spec fn stored_len(&self, path: &str) -> Option<usize> {
        match table_bytes(self.table@, path@) {
            Some(b) => Some(b.len() as usize),
            None => None,
        }
    }

    closed spec fn stored_byte(&self, path: &str, i: usize) -> u8 {
        table_bytes(self.table@, path@).unwrap()[i as int]
    }

    fn open<'a>(&'a self, path: &str) -> (r: Result<Box<dyn AssetRead + 'a>, AssetError>)
        ensures
            r is Ok <==> table_has(self.table(), path@),
            r matches Err(e) ==> e matches AssetError::Fs(FsError::NoSuchFile),
    {
        let ghost p = path_named(path@);
        proof {
            assert(p@ == path@);
        }
        match self.lookup(path) {
            Some(k) => {
                let reader = StaticSliceReader { data: self.table[k].1, pos: 0 };
                proof {
                    let c = choose|j: int| table_first(self.table@, path@, j);
                    lemma_table_first_unique(self.table@, path@, c, k as int);
                    assert(self.stored_len(p) == Some(reader.total_len()));
                    assert(forall|i: usize| i < reader.total_len() ==> #[trigger] self.stored_byte(p, i) == reader.byte_at(i));
                }
                Ok(Box::new(reader))
            },
            None => {
                proof {
                    if exists|j: int| table_first(self.table@, path@, j) {
                        let c = choose|j: int| table_first(self.table@, path@, j);
                        assert(self.table@[c].0@ == path@);
                    }
                }
                Err(AssetError::Fs(FsError::NoSuchFile))
            },
        }
    }

    fn contains(&self, path: &str) -> (r: bool)
        ensures
            r == table_has(self.table(), path@),
    {
        let ghost p = path_named(path@);
        proof {
            assert(p@ == path@);
            if exists|j: int| table_first(self.table@, path@, j) {
                let c = choose|j: int| table_first(self.table@, path@, j);
                assert(self.table@[c].0@ == path@);
            }
        }
        let found = self.lookup(path);
        found.is_some()
    }

    fn list(&self, _dir: &str) -> (r: Result<AssetIter, AssetError>)
        ensures
            r is Ok,
    {
        Ok(AssetIter)
    }
}

/// Byte reader over an owned buffer.
struct VecReader {
    data: Vec<u8>,
    pos: usize,
}

impl VecReader {
    /// The bytes being read.
    pub closed spec fn bytes(&self) -> Seq<u8> {
        self.data@
    }

    /// The read position.
    pub closed spec fn position(&self) -> int {
        self.pos as int
    }
}

impl AssetRead for VecReader {
    closed spec fn total_len(&self) -> usize {
        self.data@.len() as usize
    }

    closed spec fn byte_at(&self, i: usize) -> u8 {
        self.data@[i as int]
    }

    closed spec fn read_pos(&self) -> usize {
        self.pos
    }

    fn read(&mut self, out: &mut [u8]) -> (r: Result<usize, AssetError>)
        ensures
            ({
                let len = old(self).bytes().len();
                let start = if old(self).position() <= len { old(self).position() as int } else { len as int };
                let n = if old(out)@.len() <= len - start { old(out)@.len() as int } else { len - start };
                &&& r matches Ok(k) && k == n
                &&& final(out)@ == old(self).bytes().subrange(start, start + n) + old(out)@.skip(n)
                &&& final(self).bytes() == old(self).bytes()
                &&& final(self).position() == start + n
            }),
    {
        let len = self.data.len();
        proof {
            assert(Seq::new(self.total_len() as nat, |i: int| self.byte_at(i as usize)) =~= self.data@);
        }
        let start = if self.pos <= len { self.pos } else { len };
        let remaining = len - start;
        let n = if out.len() <= remaining { out.len() } else { remaining };
        copy_into(out, self.data.as_slice(), start, n);
        self.pos = start + n;
        Ok(n)
    }

    fn len(&self) -> (r: usize)
        ensures
            r == self.bytes().len(),
    {
        self.data.len()
    }

    fn is_empty(&self) -> (r: bool)
        ensures
            r == (self.bytes().len() == 0),
    {
        self.data.len() == 0
    }

    fn seek(&mut self, pos: u64) -> (r: Result<u64, AssetError>)
        ensures
            ({
                let p = if pos >= old(self).bytes().len() { old(self).bytes().len() as int } else { pos as int };
                &&& r matches Ok(q) && q == p
                &&& final(self).position() == p
                &&& final(self).bytes() == old(self).bytes()
            }),
    {
        let len = self.data.len();
        let p: usize = if pos >= len as u64 { len } else { pos as usize };
        self.pos = p;
        Ok(p as u64)
    }
}

/// Copy of a byte vector.
fn copy_bytes(v: &Vec<u8>) -> (r: Vec<u8>)
    ensures
        r@ == v@,
{
    let mut out: Vec<u8> = Vec::new();
    let mut i: usize = 0;
    while i < v.len()
        invariant
            i <= v@.len(),
            out@ == v@.take(i as int),
        decreases v@.len() - i,
    {
        out.push(v[i]);
        i = i + 1;
        proof {
            assert(out@ =~= v@.take(i as int));
        }
    }
    proof {
        assert(v@.take(i as int) =~= v@);
    }
    out
}

/// Asset source backed by a runtime-populated in-RAM table.
pub struct MemoryAssetSource {
    entries: Vec<(String, Vec<u8>)>,
}

/// Whether `entries` holds an entry named `name`.
pub open spec fn entries_have(entries: Seq<(Seq<char>, Seq<u8>)>, name: Seq<char>) -> bool {
    exists|k: int| 0 <= k < entries.len() && entries[k].0 == name
}

/// `k` is the first entry of `entries` named `name`.
pub open spec fn entries_first(entries: Seq<(Seq<char>, Seq<u8>)>, name: Seq<char>, k: int) -> bool {
    &&& 0 <= k < entries.len()
    &&& entries[k].0 == name
    &&& forall|j: int| 0 <= j < k ==> entries[j].0 != name
}

/// The bytes of the first entry of `entries` named `name`.
pub open spec fn entries_bytes(entries: Seq<(Seq<char>, Seq<u8>)>, name: Seq<char>) -> Option<Seq<u8>> {
    if exists|k: int| entries_first(entries, name, k) {
        Some(entries[choose|k: int| entries_first(entries, name, k)].1)
    } else {
        None
    }
}

proof fn lemma_entries_first_unique(entries: Seq<(Seq<char>, Seq<u8>)>, name: Seq<char>, k1: int, k2: int)
    requires
        entries_first(entries, name, k1),
        entries_first(entries, name, k2),
    ensures
        k1 == k2,
{
    if k1 < k2 {
        assert(entries[k1].0 != name);
    } else if k2 < k1 {
        assert(entries[k2].0 != name);
    }
}

impl MemoryAssetSource {
    /// Named entries in insertion order.
    pub closed spec fn entries(&self) -> Seq<(Seq<char>, Seq<u8>)> {
        self.entries@.map_values(|e: (String, Vec<u8>)| (e.0@, e.1@))
    }

    /// Create an empty memory source.
    pub fn new() -> (r: Self)
        ensures
            r.entries() == Seq::<(Seq<char>, Seq<u8>)>::empty(),
    {
        let r = MemoryAssetSource { entries: Vec::new() };
        proof {
            assert(r.entries() =~= Seq::<(Seq<char>, Seq<u8>)>::empty());
        }
        r
    }

    fn lookup(&self, name: &str) -> (r: Option<usize>)
        ensures
            r matches Some(k) ==> k < self.entries().len() && self.entries()[k as int].0 == name@
                && forall|j: int| 0 <= j < k ==> #[trigger] self.entries()[j].0 != name@,
            r is None ==> !entries_have(self.entries(), name@),
    {
        let mut i: usize = 0;
        while i < self.entries.len()
            invariant
                i <= self.entries@.len(),
                self.entries().len() == self.entries@.len(),
                forall|j: int| 0 <= j < i ==> #[trigger] self.entries()[j].0 != name@,
            decreases self.entries@.len() - i,
        {
            if str_equal(self.entries[i].0.as_str(), name) {
                return Some(i);
            }
            i = i + 1;
        }
        None
    }

    /// Insert a named asset; an entry with the same name is replaced.
    pub fn insert(&mut self, name: &str, data: Vec<u8>)
        ensures
            entries_have(old(self).entries(), name@) ==> exists|k: int|
                0 <= k < old(self).entries().len() && old(self).entries()[k].0 == name@
                    && final(self).entries() == old(self).entries().update(k, (name@, data@)),
            !entries_have(old(self).entries(), name@) ==> final(self).entries()
                == old(self).entries().push((name@, data@)),
    {
        let ghost before = self.entries();
        match self.lookup(name) {
            Some(k) => {
                let ghost old_name = self.entries()[k as int].0;
                let entry = self.entries.remove(k);
                self.entries.insert(k, (entry.0, data));
                proof {
                    assert(self.entries() =~= before.update(k as int, (name@, data@)));
                }
            },
            None => {
                let owned = String::from_str(name);
                self.entries.push((owned, data));
                proof {
                    assert(self.entries() =~= before.push((name@, data@)));
                }
            },
        }
    }
}

impl AssetSource for MemoryAssetSource {
    closed spec fn stored_len(&self, path: &str) -> Option<usize> {
        match entries_bytes(self.entries(), path@) {
            Some(b) => Some(b.len() as usize),
            None => None,
        }
    }

    closed spec fn stored_byte(&self, path: &str, i: usize) -> u8 {
        entries_bytes(self.entries(), path@).unwrap()[i as int]
    }

    fn open<'a>(&'a self, path: &str) -> (r: Result<Box<dyn AssetRead + 'a>, AssetError>)
        ensures
            r is Ok <==> entries_have(self.entries(), path@),
            r matches Err(e) ==> e matches AssetError::Fs(FsError::NoSuchFile),
    {
        let ghost p = path_named(path@);
        proof {
            assert(p@ == path@);
        }
        match self.lookup(path) {
            Some(k) => {
                let data = copy_bytes(&self.entries[k].1);
                let reader = VecReader { data, pos: 0 };
                proof {
                    assert(entries_first(self.entries(), path@, k as int));
                    let c = choose|j: int| entries_first(self.entries(), path@, j);
                    lemma_entries_first_unique(self.entries(), path@, c, k as int);
                    assert(self.entries()[k as int].1 == self.entries@[k as int].1@);
                    assert(self.entries@[k as int].1@.len() == self.entries@[k as int].1.len());
                    assert(reader.data@ == self.entries()[k as int].1);
                    assert(self.stored_len(p) == Some(reader.total_len()));
                    assert(forall|i: usize| i < reader.total_len() ==> #[trigger] self.stored_byte(p, i) == reader.byte_at(i));
                }
                Ok(Box::new(reader))
            },
            None => {
                proof {
                    if exists|j: int| entries_first(self.entries(), path@, j) {
                        let c = choose|j: int| entries_first(self.entries(), path@, j);
                        assert(self.entries()[c].0 == path@);
                    }
                }
                Err(AssetError::Fs(FsError::NoSuchFile))
            },
        }
    }

    fn contains(&self, path: &str) -> (r: bool)
        ensures
            r == entries_have(self.entries(), path@),
    {
        let ghost p = path_named(path@);
        proof {
            assert(p@ == path@);
            if exists|j: int| entries_first(self.entries(), path@, j) {
                let c = choose|j: int| entries_first(self.entries(), path@, j);
                assert(self.entries()[c].0 == path@);
            }
        }
        match self.lookup(path) {
            Some(k) => {
                proof {
                    assert(entries_first(self.entries(), path@, k as int));
                }
                true
            },
            None => false,
        }
    }

    fn list(&self, _dir: &str) -> (r: Result<AssetIter, AssetError>)
        ensures
            r is Ok,
    {
        Ok(AssetIter)
    }
}

} // verus!
