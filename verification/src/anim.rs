//! Tick-driven tween timing: easing and loop vocabulary, exact loop phase
//! and the completion rule of a [`Tween`].
//!
//! A tween moves one scalar `from -> to` over a duration measured in
//! ticks. Where it is in its cycle, and whether it has finished, is
//! integer arithmetic on the elapsed tick count and is decided here; the
//! eased value itself is a floating-point curve evaluated on the
//! [`LoopProgress`] this module produces.
use vstd::prelude::*;

use crate::widget::Rect;

verus! {

/// Fixed-point denominator used by the convenience adapters' internal
/// progress tweens (`0..=ANIM_SCALE`).
pub const ANIM_SCALE: i32 = 256;

/// Easing curve that maps linear progress `t` in `[0, 1]` to curved progress.
#[derive(Debug, Clone, Copy, PartialEq, Eq, Structural, Default)]
pub enum Easing {
    /// No easing: constant speed.
    #[default]
    Linear,
    /// Accelerate from zero velocity (quadratic).
    EaseIn,
    /// Decelerate to zero velocity (quadratic).
    EaseOut,
    /// Accelerate then decelerate (cubic hermite).
    EaseInOut,
    /// Accelerate from zero velocity (cubic).
    EaseInCubic,
    /// Decelerate to zero velocity (cubic).
    EaseOutCubic,
    /// Accelerate then decelerate (two piecewise cubics).
    EaseInOutCubic,
    /// Bounce effect at the end.
    Bounce,
    /// Quantize into `n` discrete steps.
    Step(u8),
}

/// Controls how an animation repeats after completing one cycle.
#[derive(Debug, Clone, Copy, PartialEq, Eq, Structural, Default)]
pub enum LoopMode {
    /// Play once and stop.
    #[default]
    Once,
    /// Repeat from the start. `0` means infinite.
    Repeat(u16),
    /// Play forward then backward. `0` means infinite round-trips.
    PingPong(u16),
}

/// Linear progress through the current cycle, before easing.
#[derive(Debug, Clone, Copy, PartialEq, Eq, Structural)]
pub enum LoopProgress {
    /// Progress `0`.
    Start,
    /// Progress `1`.
    End,
    /// Progress `within / duration`, running forward.
    Forward {
        /// Ticks into the current cycle (`<= duration`).
        within: u32,
        /// Cycle length in ticks (nonzero).
        duration: u32,
    },
    /// Progress `1 - within / duration`, running backward.
    Backward {
        /// Ticks into the current half-cycle (`< duration`).
        within: u32,
        /// Cycle length in ticks (nonzero).
        duration: u32,
    },
}

/// Where a looping animation is after some elapsed time.
#[derive(Debug, Clone, Copy, PartialEq, Eq, Structural)]
pub struct LoopPhase {
    /// Linear progress through the current cycle.
    pub progress: LoopProgress,
    /// Whether the animation has completed.
    pub finished: bool,
}

/// The loop phase after `elapsed` ticks of cycles lasting `duration` ticks.
///
/// A zero duration is finished at the end. `Once` runs one cycle and holds
/// the end; `Repeat(n)` restarts each cycle and finishes at the end after
/// `n` cycles; `PingPong(n)` alternates forward and backward half-cycles
/// and finishes at the start after `n` round trips. A count of `0` never
/// finishes.
pub open spec fn loop_phase_spec(elapsed: u32, duration: u32, mode: LoopMode) -> LoopPhase {
    if duration == 0 {
        LoopPhase { progress: LoopProgress::End, finished: true }
    } else {
        match mode {
            LoopMode::Once => {
                let e = if elapsed > duration { duration } else { elapsed };
                LoopPhase { progress: LoopProgress::Forward { within: e, duration }, finished: elapsed >= duration }
            },
            LoopMode::Repeat(n) => {
                let cycle = elapsed / duration;
                if n > 0 && cycle >= n {
                    LoopPhase { progress: LoopProgress::End, finished: true }
                } else {
                    LoopPhase {
                        progress: LoopProgress::Forward { within: (elapsed % duration) as u32, duration },
                        finished: false,
                    }
                }
            },
            LoopMode::PingPong(n) => {
                let half = elapsed / duration;
                if n > 0 && half >= 2 * n {
                    LoopPhase { progress: LoopProgress::Start, finished: true }
                } else if half % 2 == 0 {
                    LoopPhase {
                        progress: LoopProgress::Forward { within: (elapsed % duration) as u32, duration },
                        finished: false,
                    }
                } else {
                    LoopPhase {
                        progress: LoopProgress::Backward { within: (elapsed % duration) as u32, duration },
                        finished: false,
                    }
                }
            },
        }
    }
}

/// The loop phase after `elapsed` ticks; see [`loop_phase_spec`].
pub fn loop_phase(elapsed: u32, duration: u32, mode: LoopMode) -> (r: LoopPhase)
    ensures
        r == loop_phase_spec(elapsed, duration, mode),
{
    if duration == 0 {
        return LoopPhase { progress: LoopProgress::End, finished: true };
    }
    match mode {
        LoopMode::Once => {
            let e = if elapsed > duration { duration } else { elapsed };
            LoopPhase { progress: LoopProgress::Forward { within: e, duration }, finished: elapsed >= duration }
        },
        LoopMode::Repeat(n) => {
            let cycle = elapsed / duration;
            if n > 0 && cycle >= n as u32 {
                LoopPhase { progress: LoopProgress::End, finished: true }
            } else {
                LoopPhase { progress: LoopProgress::Forward { within: elapsed % duration, duration }, finished: false }
            }
        },
        LoopMode::PingPong(n) => {
            let half = elapsed / duration;
            if n > 0 && half >= (n as u32) * 2 {
                LoopPhase { progress: LoopProgress::Start, finished: true }
            } else if half % 2 == 0 {
                LoopPhase { progress: LoopProgress::Forward { within: elapsed % duration, duration }, finished: false }
            } else {
                LoopPhase { progress: LoopProgress::Backward { within: elapsed % duration, duration }, finished: false }
            }
        },
    }
}

/// Whether an animation of this duration and loop mode has finished after
/// `elapsed` ticks.
pub open spec fn finished_spec(elapsed: u32, duration: u32, mode: LoopMode) -> bool {
    loop_phase_spec(elapsed, duration, mode).finished
}

/// Completion is permanent: once finished, more elapsed time keeps the
/// animation finished.
pub proof fn lemma_finished_is_permanent(e1: u32, e2: u32, duration: u32, mode: LoopMode)
    requires
        e1 <= e2,
        finished_spec(e1, duration, mode),
    ensures
        finished_spec(e2, duration, mode),
{
    if duration > 0 {
        assert(e1 / duration <= e2 / duration) by (nonlinear_arith)
            requires
                e1 <= e2,
                duration > 0,
        ;
    }
}

/// Loop counts are whole cycles: with a nonzero duration and a nonzero
/// count `n`, `Once` finishes once `duration` ticks have elapsed,
/// `Repeat(n)` once `n` cycles of `duration` ticks have, and `PingPong(n)`
/// once `n` round trips have, each a forward and a backward half of
/// `duration` ticks, so `2 * n * duration` ticks; a finished repeat rests at
/// its end and a finished ping-pong at its start. Before finishing, a ping-pong runs forward through its
/// first `duration` ticks and backward through the next `duration`.
pub proof fn lemma_loop_counts_whole_cycles(elapsed: u32, duration: u32, n: u16)
    requires
        duration > 0,
        n > 0,
    ensures
        loop_phase_spec(elapsed, duration, LoopMode::Once).finished <==> elapsed >= duration,
        loop_phase_spec(elapsed, duration, LoopMode::Repeat(n)).finished <==> elapsed >= n * duration,
        loop_phase_spec(elapsed, duration, LoopMode::PingPong(n)).finished <==> elapsed >= 2 * n * duration,
        loop_phase_spec(elapsed, duration, LoopMode::Repeat(n)).finished ==> loop_phase_spec(
            elapsed,
            duration,
            LoopMode::Repeat(n),
        ).progress == LoopProgress::End,
        loop_phase_spec(elapsed, duration, LoopMode::PingPong(n)).finished ==> loop_phase_spec(
            elapsed,
            duration,
            LoopMode::PingPong(n),
        ).progress == LoopProgress::Start,
        elapsed < duration ==> loop_phase_spec(elapsed, duration, LoopMode::PingPong(n)) == (LoopPhase {
            progress: LoopProgress::Forward { within: elapsed, duration },
            finished: false,
        }),
        duration <= elapsed < 2 * duration ==> loop_phase_spec(elapsed, duration, LoopMode::PingPong(n)) == (LoopPhase {
            progress: LoopProgress::Backward { within: (elapsed - duration) as u32, duration },
            finished: false,
        }),
{
    let e = elapsed as int;
    let d = duration as int;
    let k = n as int;
    let q = e / d;
    let r = e % d;
    assert(e == q * d + r && 0 <= r < d && q >= 0) by (nonlinear_arith)
        requires
            d > 0,
            e >= 0,
            q == e / d,
            r == e % d,
    ;
    assert(q >= k <==> e >= k * d) by (nonlinear_arith)
        requires
            e == q * d + r,
            0 <= r < d,
            k > 0,
    ;
    assert(q >= 2 * k <==> e >= 2 * k * d) by (nonlinear_arith)
        requires
            e == q * d + r,
            0 <= r < d,
            k > 0,
    ;
    assert(e < d ==> q == 0 && r == e) by (nonlinear_arith)
        requires
            e == q * d + r,
            0 <= r < d,
            q >= 0,
    ;
    assert(d <= e < 2 * d ==> q == 1 && r == e - d) by (nonlinear_arith)
        requires
            e == q * d + r,
            0 <= r < d,
            q >= 0,
    ;
}

/// Within cycle `c` (the ticks from `c * duration` up to the next cycle),
/// an unfinished loop is `elapsed - c * duration` ticks into the cycle:
/// `Repeat` always runs forward, `PingPong` forward in even cycles and
/// backward in odd ones; `Once` holds at most `duration` ticks in; a zero
/// duration is finished at the end.
pub proof fn lemma_loop_position_within_cycle(elapsed: u32, duration: u32, n: u16, c: int)
    requires
        duration > 0,
        0 <= c,
        c * duration <= elapsed < (c + 1) * duration,
    ensures
        (n == 0 || c < n) ==> loop_phase_spec(elapsed, duration, LoopMode::Repeat(n)) == (LoopPhase {
            progress: LoopProgress::Forward { within: (elapsed - c * duration) as u32, duration },
            finished: false,
        }),
        (n == 0 || c < 2 * n) ==> loop_phase_spec(elapsed, duration, LoopMode::PingPong(n)) == (LoopPhase {
            progress: if c % 2 == 0 {
                LoopProgress::Forward { within: (elapsed - c * duration) as u32, duration }
            } else {
                LoopProgress::Backward { within: (elapsed - c * duration) as u32, duration }
            },
            finished: false,
        }),
        loop_phase_spec(elapsed, duration, LoopMode::Once).progress == (LoopProgress::Forward {
            within: if elapsed < duration { elapsed } else { duration },
            duration,
        }),
        loop_phase_spec(elapsed, 0, LoopMode::Once) == (LoopPhase { progress: LoopProgress::End, finished: true }),
{
    let e = elapsed as int;
    let d = duration as int;
    let q = e / d;
    let r = e % d;
    assert(e == q * d + r && 0 <= r < d) by (nonlinear_arith)
        requires
            d > 0,
            e >= 0,
            q == e / d,
            r == e % d,
    ;
    assert(q == c && r == e - c * d) by (nonlinear_arith)
        requires
            e == q * d + r,
            0 <= r < d,
            c * d <= e < (c + 1) * d,
            c >= 0,
    ;
}

/// Infinite modes (`Repeat(0)`, `PingPong(0)`) with a nonzero duration
/// never finish.
pub proof fn lemma_infinite_never_finishes(elapsed: u32, duration: u32)
    requires
        duration > 0,
    ensures
        !finished_spec(elapsed, duration, LoopMode::Repeat(0)),
        !finished_spec(elapsed, duration, LoopMode::PingPong(0)),
{
}

/// A pure, deterministic scalar tween: `from -> to` over `duration` ticks.
#[derive(Debug, Clone, Copy, PartialEq, Eq, Structural)]
pub struct Tween {
    from: i32,
    to: i32,
    duration: u32,
    elapsed: u32,
    easing: Easing,
    loop_mode: LoopMode,
}

impl Tween {
    /// Start value.
    pub closed spec fn from_spec(self) -> i32 {
        self.from
    }

    /// End value.
    pub closed spec fn to_spec(self) -> i32 {
        self.to
    }

    /// Cycle length in ticks.
    pub closed spec fn duration_spec(self) -> u32 {
        self.duration
    }

    /// Ticks elapsed on the stateful path.
    pub closed spec fn elapsed_spec(self) -> u32 {
        self.elapsed
    }

    /// Easing curve.
    pub closed spec fn easing_spec(self) -> Easing {
        self.easing
    }

    /// Loop mode.
    pub closed spec fn loop_mode_spec(self) -> LoopMode {
        self.loop_mode
    }

    /// Create a tween from `from` to `to` over `duration` ticks with linear
    /// easing, one-shot; a zero duration is born finished at `to`.
    pub fn new(from: i32, to: i32, duration: u32) -> (r: Self)
        ensures
            r.from_spec() == from,
            r.to_spec() == to,
            r.duration_spec() == duration,
            r.elapsed_spec() == 0,
            r.easing_spec() == Easing::Linear,
            r.loop_mode_spec() == LoopMode::Once,
    {
        Tween { from, to, duration, elapsed: 0, easing: Easing::Linear, loop_mode: LoopMode::Once }
    }

    /// Set the easing curve (builder pattern).
    pub fn with_easing(self, easing: Easing) -> (r: Self)
        ensures
            r.easing_spec() == easing,
            r.from_spec() == self.from_spec(),
            r.to_spec() == self.to_spec(),
            r.duration_spec() == self.duration_spec(),
            r.elapsed_spec() == self.elapsed_spec(),
            r.loop_mode_spec() == self.loop_mode_spec(),
    {
        Tween { easing, ..self }
    }

    /// Set the loop mode (builder pattern).
    pub fn with_loop(self, loop_mode: LoopMode) -> (r: Self)
        ensures
            r.loop_mode_spec() == loop_mode,
            r.from_spec() == self.from_spec(),
            r.to_spec() == self.to_spec(),
            r.duration_spec() == self.duration_spec(),
            r.elapsed_spec() == self.elapsed_spec(),
            r.easing_spec() == self.easing_spec(),
    {
        Tween { loop_mode, ..self }
    }

    /// Start value.
    pub fn from(&self) -> (r: i32)
        ensures
            r == self.from_spec(),
    {
        self.from
    }

    /// End value.
    pub fn to(&self) -> (r: i32)
        ensures
            r == self.to_spec(),
    {
        self.to
    }

    /// Cycle length in ticks.
    pub fn duration(&self) -> (r: u32)
        ensures
            r == self.duration_spec(),
    {
        self.duration
    }

    /// Easing curve.
    pub fn easing(&self) -> (r: Easing)
        ensures
            r == self.easing_spec(),
    {
        self.easing
    }

    /// Loop mode.
    pub fn loop_mode(&self) -> (r: LoopMode)
        ensures
            r == self.loop_mode_spec(),
    {
        self.loop_mode
    }

    /// Ticks elapsed on the stateful path.
    pub fn elapsed(&self) -> (r: u32)
        ensures
            r == self.elapsed_spec(),
    {
        self.elapsed
    }

    /// Loop phase at an absolute tick offset from the start. Pure: does not
    /// advance state.
    pub fn phase_at(&self, tick: u32) -> (r: LoopPhase)
        ensures
            r == loop_phase_spec(tick, self.duration_spec(), self.loop_mode_spec()),
    {
        loop_phase(tick, self.duration, self.loop_mode)
    }

    /// Advance by exactly one tick (saturating at `u32::MAX`) and return the
    /// new elapsed tick count.
    pub fn advance(&mut self) -> (r: u32)
        ensures
            r == final(self).elapsed_spec(),
            final(self).elapsed_spec() == if old(self).elapsed_spec() == u32::MAX {
                u32::MAX
            } else {
                (old(self).elapsed_spec() + 1) as u32
            },
            final(self).from_spec() == old(self).from_spec(),
            final(self).to_spec() == old(self).to_spec(),
            final(self).duration_spec() == old(self).duration_spec(),
            final(self).easing_spec() == old(self).easing_spec(),
            final(self).loop_mode_spec() == old(self).loop_mode_spec(),
    {
        self.elapsed = self.elapsed.saturating_add(1);
        self.elapsed
    }

    /// Whether the tween has completed; infinite modes never finish.
    pub fn finished(&self) -> (r: bool)
        ensures
            r == finished_spec(self.elapsed_spec(), self.duration_spec(), self.loop_mode_spec()),
    {
        loop_phase(self.elapsed, self.duration, self.loop_mode).finished
    }
}

/// Opaque handle to a registered animation.
#[derive(Debug, Clone, Copy, PartialEq, Eq, Structural)]
pub struct AnimId(u32);

impl AnimId {
    /// Handle with the given raw value.
    pub fn new(raw: u32) -> (r: Self)
        ensures
            r.raw() == raw,
    {
        AnimId(raw)
    }

    /// Raw value of the handle.
    pub closed spec fn raw(self) -> u32 {
        self.0
    }

    /// Raw value of the handle.
    pub fn get(self) -> (r: u32)
        ensures
            r == self.raw(),
    {
        self.0
    }
}


/// The identifier issued after `id`: the counter wraps at `u32::MAX`.
pub open spec fn next_anim_id(id: u32) -> u32 {
    if id == u32::MAX {
        0
    } else {
        (id + 1) as u32
    }
}

/// `ids` without the occurrences of `id`, in order.
pub open spec fn without_id(ids: Seq<AnimId>, id: AnimId) -> Seq<AnimId>
    decreases ids.len(),
{
    if ids.len() == 0 {
        Seq::empty()
    } else if ids.last() == id {
        without_id(ids.drop_last(), id)
    } else {
        without_id(ids.drop_last(), id).push(ids.last())
    }
}

/// The identifiers of `ids` whose flag in `finished` is unset, in order.
pub open spec fn unfinished(ids: Seq<AnimId>, finished: Seq<bool>) -> Seq<AnimId>
    decreases ids.len(),
{
    if ids.len() == 0 {
        Seq::empty()
    } else if finished[ids.len() - 1] {
        unfinished(ids.drop_last(), finished.take(ids.len() - 1))
    } else {
        unfinished(ids.drop_last(), finished.take(ids.len() - 1)).push(ids.last())
    }
}

/// The rectangle with the given edges.
pub open spec fn rect_of(u: (int, int, int, int)) -> Rect {
    Rect { x: u.0 as i32, y: u.1 as i32, width: u.2 as i32, height: u.3 as i32 }
}

/// Bounding box of `rects` folded from the first, or `None` for none.
pub open spec fn union_all(rects: Seq<Rect>) -> Option<Rect>
    decreases rects.len(),
{
    if rects.len() == 0 {
        None
    } else {
        match union_all(rects.drop_last()) {
            None => Some(rects.last()),
            Some(u) => Some(rect_of(u.union_spec(rects.last()))),
        }
    }
}

/// Whether every step of [`union_all`] is representable.
pub open spec fn unions_fit(rects: Seq<Rect>) -> bool
    decreases rects.len(),
{
    if rects.len() == 0 {
        true
    } else {
        &&& unions_fit(rects.drop_last())
        &&& union_all(rects.drop_last()) matches Some(u) ==> u.union_fits(rects.last())
    }
}

proof fn lemma_unions_fit_prefix(rects: Seq<Rect>, i: int)
    requires
        unions_fit(rects),
        0 <= i <= rects.len(),
    ensures
        unions_fit(rects.take(i)),
    decreases rects.len() - i,
{
    if i < rects.len() {
        assert(rects.drop_last().take(i) =~= rects.take(i));
        lemma_unions_fit_prefix(rects.drop_last(), i);
    } else {
        assert(rects.take(i) =~= rects);
    }
}

/// Running animations, each held as an entry of type `E` under the
/// identifier it was issued, and the dirty rectangles of the most recent
/// tick.
pub struct AnimationTable<E> {
    entries: Vec<(AnimId, E)>,
    next_id: u32,
    dirty: Vec<Rect>,
}

/// The identifiers of a sequence of entries.
pub open spec fn entry_ids<E>(entries: Seq<(AnimId, E)>) -> Seq<AnimId> {
    entries.map_values(|e: (AnimId, E)| e.0)
}

impl<E> AnimationTable<E> {
    /// Identifiers of the registered animations, in registration order.
    pub closed spec fn ids(&self) -> Seq<AnimId> {
        entry_ids(self.entries@)
    }

    /// The identifier the next registration receives.
    pub closed spec fn next_id(&self) -> u32 {
        self.next_id
    }

    /// Dirty rectangles reported during the most recent tick.
    pub closed spec fn dirty(&self) -> Seq<Rect> {
        self.dirty@
    }

    /// An empty table; identifiers are issued from 0.
    pub fn new() -> (r: Self)
        ensures
            r.ids() == Seq::<AnimId>::empty(),
            r.next_id() == 0,
            r.dirty() == Seq::<Rect>::empty(),
    {
        let r = AnimationTable { entries: Vec::new(), next_id: 0, dirty: Vec::new() };
        assert(r.ids() =~= Seq::<AnimId>::empty());
        r
    }

    /// Register `entry` under the next identifier, which is returned; the
    /// counter wraps at `u32::MAX`.
    pub fn register(&mut self, entry: E) -> (r: AnimId)
        ensures
            r.raw() == old(self).next_id(),
            final(self).next_id() == next_anim_id(old(self).next_id()),
            final(self).ids() == old(self).ids().push(r),
            final(self).dirty() == old(self).dirty(),
    {
        let id = AnimId::new(self.next_id);
        self.next_id = if self.next_id == u32::MAX { 0 } else { self.next_id + 1 };
        let ghost before = self.entries@;
        self.entries.push((id, entry));
        assert(entry_ids(self.entries@) =~= entry_ids(before).push(id));
        id
    }

    /// Number of registered animations.
    pub fn len(&self) -> (r: usize)
        ensures
            r == self.ids().len(),
    {
        self.entries.len()
    }

    /// Whether no animation is registered.
    pub fn is_empty(&self) -> (r: bool)
        ensures
            r == (self.ids().len() == 0),
    {
        self.entries.len() == 0
    }

    /// Dirty rectangles reported during the most recent tick.
    pub fn dirty_rects(&self) -> (r: &[Rect])
        ensures
            r@ == self.dirty(),
    {
        self.dirty.as_slice()
    }

    /// Remove every animation registered under `id` without applying a
    /// final value; whether one was registered.
    pub fn cancel(&mut self, id: AnimId) -> (r: bool)
        ensures
            r == old(self).ids().contains(id),
            final(self).ids() == without_id(old(self).ids(), id),
            final(self).next_id() == old(self).next_id(),
            final(self).dirty() == old(self).dirty(),
    {
        let ghost all = entry_ids(self.entries@);
        let _count = self.entries.len();
        let mut rest: Vec<(AnimId, E)> = Vec::new();
        std::mem::swap(&mut rest, &mut self.entries);
        let mut found = false;
        let mut i: usize = 0;
        while rest.len() > 0
            invariant
                entry_ids(rest@) == all.skip(i as int),
                i <= all.len(),
                all.len() <= usize::MAX,
                entry_ids(self.entries@) == without_id(all.take(i as int), id),
                found == all.take(i as int).contains(id),
                self.next_id == old(self).next_id,
                self.dirty@ == old(self).dirty@,
            decreases rest@.len(),
        {
            let ghost before = self.entries@;
            let ghost rest_before = rest@;
            assert(entry_ids(rest_before).len() == rest_before.len());
            assert(i < all.len());
            assert(entry_ids(rest_before)[0] == all.skip(i as int)[0]);
            assert(entry_ids(rest_before)[0] == all[i as int]);
            let e = rest.remove(0);
            assert(all.take(i as int + 1).drop_last() =~= all.take(i as int));
            assert(all.take(i as int + 1).last() == e.0);
            if e.0 == id {
                found = true;
            } else {
                self.entries.push(e);
                assert(entry_ids(self.entries@) =~= entry_ids(before).push(e.0));
            }
            assert(entry_ids(rest@) =~= entry_ids(rest_before).drop_first());
            proof {
                assert(all.take(i as int + 1) =~= all.take(i as int).push(e.0));
                if !found {
                    assert(!all.take(i as int).push(e.0).contains(id)) by {
                        if all.take(i as int).push(e.0).contains(id) {
                            let k = choose|k: int| 0 <= k < i + 1 && all.take(i as int).push(e.0)[k] == id;
                            if k < i {
                                assert(all.take(i as int).contains(id));
                            }
                        }
                    }
                } else {
                    assert(all.take(i as int).push(e.0).contains(id)) by {
                        if e.0 == id {
                            assert(all.take(i as int).push(e.0)[i as int] == id);
                        } else {
                            let k = choose|k: int| 0 <= k < i && all.take(i as int)[k] == id;
                            assert(all.take(i as int).push(e.0)[k] == id);
                        }
                    }
                }
            }
            i = i + 1;
        }
        assert(all.take(i as int) =~= all);
        found
    }

    /// Hand out the entries for one tick, in registration order; the table
    /// is empty until [`Self::finish_tick`] returns them.
    pub fn take_entries(&mut self) -> (r: Vec<(AnimId, E)>)
        ensures
            entry_ids(r@) == old(self).ids(),
            final(self).ids() == Seq::<AnimId>::empty(),
            final(self).next_id() == old(self).next_id(),
            final(self).dirty() == old(self).dirty(),
    {
        let mut taken: Vec<(AnimId, E)> = Vec::new();
        std::mem::swap(&mut taken, &mut self.entries);
        assert(entry_ids(self.entries@) =~= Seq::<AnimId>::empty());
        taken
    }

    /// Close a tick: the entries handed out by [`Self::take_entries`] come
    /// back with a flag each saying whether that animation has finished;
    /// finished ones are dropped, after their terminal value was applied,
    /// and `dirty` replaces the dirty rectangles of the previous tick.
    pub fn finish_tick(&mut self, entries: Vec<(AnimId, E)>, finished: Vec<bool>, dirty: Vec<Rect>)
        requires
            entries@.len() == finished@.len(),
        ensures
            final(self).ids() == old(self).ids() + unfinished(entry_ids(entries@), finished@),
            final(self).next_id() == old(self).next_id(),
            final(self).dirty() == dirty@,
    {
        let ghost all = entry_ids(entries@);
        let ghost flags = finished@;
        let ghost start = self.ids();
        let _count = finished.len();
        let mut rest = entries;
        let mut i: usize = 0;
        while rest.len() > 0
            invariant
                entry_ids(rest@) == all.skip(i as int),
                all.len() == flags.len(),
                flags.len() <= usize::MAX,
                finished@ == flags,
                i <= all.len(),
                entry_ids(self.entries@) == start + unfinished(all.take(i as int), flags.take(i as int)),
                self.next_id == old(self).next_id,
            decreases rest@.len(),
        {
            let ghost before = self.entries@;
            let ghost rest_before = rest@;
            assert(entry_ids(rest_before).len() == rest_before.len());
            assert(i < all.len());
            assert(entry_ids(rest_before)[0] == all.skip(i as int)[0]);
            assert(entry_ids(rest_before)[0] == all[i as int]);
            let e = rest.remove(0);
            let done = finished[i];
            proof {
                let t = all.take(i as int + 1);
                assert(t.drop_last() =~= all.take(i as int));
                assert(flags.take(i as int + 1).take(i as int) =~= flags.take(i as int));
                assert(t.last() == e.0);
                assert(flags.take(i as int + 1)[i as int] == done);
            }
            if !done {
                self.entries.push(e);
                assert(entry_ids(self.entries@) =~= entry_ids(before).push(e.0));
            }
            assert(entry_ids(rest@) =~= entry_ids(rest_before).drop_first());
            i = i + 1;
        }
        assert(all.take(i as int) =~= all);
        assert(flags.take(i as int) =~= flags);
        self.dirty = dirty;
    }

    /// Whether the bounding box of the dirty rectangles is representable.
    pub fn dirty_union_fits(&self) -> (r: bool)
        ensures
            r == unions_fit(self.dirty()),
    {
        let mut acc: Option<Rect> = None;
        let mut i: usize = 0;
        while i < self.dirty.len()
            invariant
                i <= self.dirty@.len(),
                acc == union_all(self.dirty@.take(i as int)),
                unions_fit(self.dirty@.take(i as int)),
            decreases self.dirty@.len() - i,
        {
            let rect = self.dirty[i];
            let ghost t = self.dirty@.take(i as int + 1);
            assert(t.drop_last() =~= self.dirty@.take(i as int));
            assert(t.last() == rect);
            let next = match acc {
                None => rect,
                Some(u) => {
                    if !rect_union_fits(u, rect) {
                        proof {
                            if unions_fit(self.dirty@) {
                                lemma_unions_fit_prefix(self.dirty@, i as int + 1);
                            }
                        }
                        return false;
                    }
                    u.union(rect)
                },
            };
            acc = Some(next);
            i = i + 1;
        }
        assert(self.dirty@.take(i as int) =~= self.dirty@);
        true
    }

    /// Bounding box of the dirty rectangles of the most recent tick, or
    /// `None` when that tick changed nothing visible.
    pub fn dirty_union(&self) -> (r: Option<Rect>)
        requires
            unions_fit(self.dirty()),
        ensures
            r == union_all(self.dirty()),
    {
        let mut acc: Option<Rect> = None;
        let mut i: usize = 0;
        while i < self.dirty.len()
            invariant
                i <= self.dirty@.len(),
                acc == union_all(self.dirty@.take(i as int)),
                unions_fit(self.dirty@),
            decreases self.dirty@.len() - i,
        {
            let rect = self.dirty[i];
            let ghost t = self.dirty@.take(i as int + 1);
            proof {
                assert(t.drop_last() =~= self.dirty@.take(i as int));
                lemma_unions_fit_prefix(self.dirty@, i as int + 1);
            }
            let next = match acc {
                None => rect,
                Some(u) => u.union(rect),
            };
            acc = Some(next);
            i = i + 1;
        }
        assert(self.dirty@.take(i as int) =~= self.dirty@);
        acc
    }
}

/// Whether the bounding box of `a` and `b` is representable.
fn rect_union_fits(a: Rect, b: Rect) -> (r: bool)
    ensures
        r == a.union_fits(b),
{
    let ar = a.x as i64 + a.width as i64;
    let br = b.x as i64 + b.width as i64;
    let ab = a.y as i64 + a.height as i64;
    let bb = b.y as i64 + b.height as i64;
    let min = i32::MIN as i64;
    let max = i32::MAX as i64;
    if ar < min || ar > max || br < min || br > max || ab < min || ab > max || bb < min || bb > max {
        return false;
    }
    let x = if a.x <= b.x { a.x as i64 } else { b.x as i64 };
    let y = if a.y <= b.y { a.y as i64 } else { b.y as i64 };
    let r = if ar >= br { ar } else { br };
    let bottom = if ab >= bb { ab } else { bb };
    r - x <= max && bottom - y <= max
}

} // verus!
