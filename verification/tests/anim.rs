use rlvgl_core::anim::{loop_phase, AnimId, AnimationTable, Easing, LoopMode, LoopPhase, LoopProgress, Tween};
use rlvgl_core::widget::Rect;

fn fwd(within: u32, duration: u32) -> LoopPhase {
    LoopPhase { progress: LoopProgress::Forward { within, duration }, finished: false }
}

#[test]
fn finished_semantics() {
    let mut once = Tween::new(0, 10, 3);
    assert!(!once.finished());
    once.advance();
    once.advance();
    assert!(!once.finished());
    once.advance();
    assert!(once.finished());

    let mut twice = Tween::new(0, 10, 3).with_loop(LoopMode::Repeat(2));
    for _ in 0..5 {
        twice.advance();
    }
    assert!(!twice.finished());
    twice.advance();
    assert!(twice.finished());

    let mut infinite = Tween::new(0, 10, 3).with_loop(LoopMode::Repeat(0));
    let mut pingpong = Tween::new(0, 10, 3).with_loop(LoopMode::PingPong(0));
    for _ in 0..10_000 {
        infinite.advance();
        pingpong.advance();
    }
    assert!(!infinite.finished());
    assert!(!pingpong.finished());
}

#[test]
fn zero_duration_is_born_finished_at_the_end() {
    let tween = Tween::new(7, 42, 0);
    assert!(tween.finished());
    assert_eq!(tween.phase_at(0), LoopPhase { progress: LoopProgress::End, finished: true });
}

#[test]
fn loop_phase_tables() {
    assert_eq!(loop_phase(3, 10, LoopMode::Once), fwd(3, 10));
    assert_eq!(
        loop_phase(12, 10, LoopMode::Once),
        LoopPhase { progress: LoopProgress::Forward { within: 10, duration: 10 }, finished: true }
    );
    assert_eq!(loop_phase(7, 5, LoopMode::Repeat(0)), fwd(2, 5));
    assert_eq!(
        loop_phase(10, 5, LoopMode::Repeat(2)),
        LoopPhase { progress: LoopProgress::End, finished: true }
    );
    assert_eq!(loop_phase(5, 4, LoopMode::PingPong(0)),
        LoopPhase { progress: LoopProgress::Backward { within: 1, duration: 4 }, finished: false });
    assert_eq!(loop_phase(8, 4, LoopMode::PingPong(0)), fwd(0, 4));
    assert_eq!(
        loop_phase(8, 4, LoopMode::PingPong(1)),
        LoopPhase { progress: LoopProgress::Start, finished: true }
    );
}

#[test]
fn advance_saturates_and_builders_keep_parameters() {
    let t = Tween::new(-5, 9, 4).with_easing(Easing::EaseOut).with_loop(LoopMode::PingPong(3));
    assert_eq!((t.from(), t.to(), t.duration()), (-5, 9, 4));
    assert_eq!(t.easing(), Easing::EaseOut);
    assert_eq!(t.loop_mode(), LoopMode::PingPong(3));
    let mut s = t;
    assert_eq!(s.advance(), 1);
    assert_eq!(s.elapsed(), 1);
    assert_eq!(Easing::default(), Easing::Linear);
    assert_eq!(LoopMode::default(), LoopMode::Once);
}

#[test]
fn animation_table_issues_ids_cancels_and_drops_finished_entries() {
    let mut table: AnimationTable<&'static str> = AnimationTable::new();
    let a = table.register("a");
    let b = table.register("b");
    let c = table.register("c");
    assert_eq!((a.get(), b.get(), c.get()), (0, 1, 2));
    assert!(table.cancel(b));
    assert!(!table.cancel(b));
    assert!(!table.cancel(AnimId::new(9)));
    assert_eq!(table.len(), 2);
    let entries = table.take_entries();
    assert!(table.is_empty());
    assert_eq!(entries, vec![(a, "a"), (c, "c")]);
    let dirty = vec![Rect { x: 0, y: 0, width: 2, height: 2 }, Rect { x: 5, y: -1, width: 1, height: 1 }];
    table.finish_tick(entries, vec![true, false], dirty.clone());
    assert_eq!(table.len(), 1);
    assert_eq!(table.take_entries(), vec![(c, "c")]);
    assert_eq!(table.dirty_rects(), &dirty[..]);
    assert!(table.dirty_union_fits());
    assert_eq!(table.dirty_union(), Some(Rect { x: 0, y: -1, width: 6, height: 3 }));
    let far = vec![Rect { x: i32::MIN, y: 0, width: 1, height: 1 }, Rect { x: i32::MAX - 1, y: 0, width: 1, height: 1 }];
    table.finish_tick(Vec::new(), Vec::new(), far);
    assert!(!table.dirty_union_fits());
    table.finish_tick(Vec::new(), Vec::new(), Vec::new());
    assert_eq!(table.dirty_union(), None);
}
