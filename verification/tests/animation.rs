use rift_wm::actor::reactor::animation::{
    AnimatedWindow, Animation, AnimationManager, FinishMode, FrameAction, LayoutFrameCheck,
    LayoutPass, ResizeSchedule, RunMode, TransactionId, WindowAction, WindowId,
    batch_by_pid, edge_transition_needs_jump, focus_resize_frame,
    should_skip_scrolling_animation, size_changed, visible_width_ratio, BatchEntry, Placement,
};
use rift_wm::sys::geometry::{Point, Rect, Size};

fn rect(x: i32, y: i32, w: i32, h: i32) -> Rect {
    Rect::new(x, y, w, h)
}

fn wid(pid: i32, idx: u32) -> WindowId {
    WindowId { pid, idx }
}

#[test]
fn scrolling_animation_skips_hidden_edge_to_hidden_edge_moves() {
    let screen = rect(0, 0, 3840, 1589);
    let current = rect(-2200, 39, 2294, 1573);
    let target = rect(-2240, 39, 2294, 1573);
    assert!(should_skip_scrolling_animation(current, target, screen));
}

#[test]
fn scrolling_animation_keeps_visible_to_hidden_moves_animated() {
    let screen = rect(0, 0, 3840, 1589);
    let current = rect(770, 39, 2294, 1573);
    let target = rect(3832, 39, 2294, 1573);
    assert!(!should_skip_scrolling_animation(current, target, screen));
}

#[test]
fn scrolling_animation_keeps_hidden_to_visible_moves_animated() {
    let screen = rect(0, 0, 3840, 1589);
    let current = rect(-1719, 39, 2294, 1573);
    let target = rect(770, 39, 2294, 1573);
    assert!(!should_skip_scrolling_animation(current, target, screen));
}

#[test]
fn visible_width_ratio_tracks_partially_visible_columns() {
    let screen = rect(0, 0, 3840, 1589);
    let frame = rect(-1719, 39, 2294, 1573);
    let r = visible_width_ratio(frame, screen);
    let ratio = r.visible as f64 / r.width as f64;
    assert!(ratio > 0.2 && ratio < 0.3, "unexpected ratio {ratio}");
}

#[test]
fn scrolling_animation_keeps_meaningfully_visible_edge_columns_animated() {
    let screen = rect(0, 0, 3840, 1589);
    let current = rect(-900, 39, 2294, 1573);
    let target = rect(770, 39, 2294, 1573);
    assert!(!should_skip_scrolling_animation(current, target, screen));
}

#[test]
fn scrolling_animation_keeps_partially_visible_columns_animated_when_parking() {
    let screen = rect(0, 0, 3840, 1589);
    let current = rect(-1719, 39, 2294, 1573);
    let target = rect(-2200, 39, 2294, 1573);
    assert!(!should_skip_scrolling_animation(current, target, screen));
}

#[test]
fn edge_transition_detection_is_separate_from_hidden_edge_skip() {
    let screen = rect(0, 0, 3840, 1589);
    let current = rect(-1719, 39, 2294, 1573);
    let target = rect(770, 39, 2294, 1573);
    assert!(edge_transition_needs_jump(current, target, screen));
    assert!(!should_skip_scrolling_animation(current, target, screen));
}

#[test]
fn size_changed_only_for_real_resizes() {
    let current = rect(-1719, 39, 2294, 1573);
    let translated = rect(-2200, 39, 2294, 1573);
    let resized = rect(-2200, 39, 2200, 1573);

    assert!(!size_changed(current, translated));
    assert!(size_changed(current, resized));
}

#[test]
fn visible_width_ratio_exact_values() {
    let screen = rect(0, 0, 3840, 1589);
    // 575 of 2294 points are on screen.
    let r = visible_width_ratio(rect(-1719, 39, 2294, 1573), screen);
    assert_eq!((r.visible, r.width), (575, 2294));
    // Fully on screen.
    let r = visible_width_ratio(rect(100, 0, 500, 10), screen);
    assert_eq!((r.visible, r.width), (500, 500));
    // Entirely off screen to the right.
    let r = visible_width_ratio(rect(5000, 0, 500, 10), screen);
    assert_eq!((r.visible, r.width), (0, 500));
    // A frame without width counts as not visible.
    let r = visible_width_ratio(rect(10, 0, 0, 10), screen);
    assert_eq!((r.visible, r.width), (0, 1));
}

#[test]
fn thresholds_are_strict() {
    let screen = rect(0, 0, 1000, 1000);
    // Exactly a tenth visible is not "nearly hidden".
    let tenth = rect(-900, 0, 1000, 10);
    assert!(!should_skip_scrolling_animation(tenth, tenth, screen));
    // Just below a tenth is.
    let below = rect(-901, 0, 1000, 10);
    assert!(should_skip_scrolling_animation(below, below, screen));
    // Exactly half visible does not need a jump.
    let half = rect(-500, 0, 1000, 10);
    assert!(!edge_transition_needs_jump(half, half, screen));
    let less = rect(-501, 0, 1000, 10);
    assert!(edge_transition_needs_jump(half, less, screen));
}

#[test]
fn skipped_moves_always_need_a_jump() {
    let screen = rect(0, 0, 3840, 1589);
    let current = rect(-2200, 39, 2294, 1573);
    let target = rect(-2240, 39, 2294, 1573);
    assert!(should_skip_scrolling_animation(current, target, screen));
    assert!(edge_transition_needs_jump(current, target, screen));
}

#[test]
fn geometry_helpers() {
    let r = rect(-10, 5, 30, 40);
    assert_eq!(r.max_x(), 20);
    assert_eq!(r.max_y(), 45);
    assert!(r.same_as(&rect(-10, 5, 30, 40)));
    assert!(!r.same_as(&rect(-10, 5, 30, 41)));
    assert!(Size::new(3, 4).same_as(&Size::new(3, 4)));
    assert_eq!(Point::new(1, 2), Point { x: 1, y: 2 });
}

#[test]
fn run_mode_follows_windows() {
    let mut anim = Animation::new();
    assert_eq!(anim.run_mode(), RunMode::Idle);
    anim.add_jump_window(wid(1, 1), rect(0, 0, 10, 10), TransactionId(3));
    assert_eq!(anim.run_mode(), RunMode::SkipToEnd);
    anim.add_window(wid(1, 2), rect(0, 0, 10, 10), rect(5, 0, 10, 10), false, TransactionId(4));
    assert_eq!(anim.run_mode(), RunMode::Animate);
    assert_eq!(anim.windows().len(), 1);
    assert_eq!(anim.jump_windows().len(), 1);
}

#[test]
fn skip_to_end_groups_final_frames_by_application() {
    let mut anim = Animation::new();
    anim.add_window(wid(7, 1), rect(0, 0, 10, 10), rect(100, 0, 10, 10), false, TransactionId(1));
    anim.add_window(wid(9, 1), rect(0, 0, 10, 10), rect(200, 0, 20, 10), false, TransactionId(2));
    anim.add_window(wid(7, 2), rect(0, 0, 10, 10), rect(300, 0, 10, 10), false, TransactionId(3));
    anim.add_jump_window(wid(9, 5), rect(-50, 0, 10, 10), TransactionId(4));
    let batches = anim.skip_to_end_batches();
    assert_eq!(batches.len(), 2);
    assert_eq!(batches[0].pid, 7);
    assert_eq!(batches[0].txid, TransactionId(1));
    assert_eq!(
        batches[0].frames,
        vec![(wid(7, 1), rect(100, 0, 10, 10)), (wid(7, 2), rect(300, 0, 10, 10))]
    );
    assert!(batches[0].positions.is_empty());
    assert_eq!(batches[1].pid, 9);
    assert_eq!(batches[1].txid, TransactionId(2));
    assert_eq!(
        batches[1].frames,
        vec![(wid(9, 1), rect(200, 0, 20, 10)), (wid(9, 5), rect(-50, 0, 10, 10))]
    );
}

#[test]
fn step_batches_resize_only_changed_windows() {
    let mut anim = Animation::new();
    // Changes size.
    anim.add_window(wid(1, 1), rect(0, 0, 10, 10), rect(100, 0, 20, 10), false, TransactionId(1));
    // Only moves.
    anim.add_window(wid(1, 2), rect(0, 0, 10, 10), rect(100, 50, 10, 10), false, TransactionId(1));
    anim.add_jump_window(wid(2, 1), rect(-500, 0, 10, 10), TransactionId(8));
    let origins = vec![Point::new(40, 0), Point::new(40, 20)];

    let batches = anim.step_batches(&origins, false, false);
    assert_eq!(batches.len(), 1);
    assert!(batches[0].frames.is_empty());
    assert_eq!(
        batches[0].positions,
        vec![(wid(1, 1), Point::new(40, 0)), (wid(1, 2), Point::new(40, 20))]
    );

    let batches = anim.step_batches(&origins, true, true);
    assert_eq!(batches.len(), 2);
    assert_eq!(batches[0].frames, vec![(wid(1, 1), rect(40, 0, 20, 10))]);
    assert_eq!(batches[0].positions, vec![(wid(1, 2), Point::new(40, 20))]);
    assert_eq!(batches[1].pid, 2);
    assert_eq!(batches[1].txid, TransactionId(8));
    assert_eq!(batches[1].frames, vec![(wid(2, 1), rect(-500, 0, 10, 10))]);
}

#[test]
fn batching_keeps_first_transaction_and_order() {
    let entries = vec![
        BatchEntry { wid: wid(5, 1), txid: TransactionId(10), placement: Placement::Position(Point::new(1, 1)) },
        BatchEntry { wid: wid(3, 1), txid: TransactionId(11), placement: Placement::Frame(rect(0, 0, 1, 1)) },
        BatchEntry { wid: wid(5, 2), txid: TransactionId(12), placement: Placement::Frame(rect(2, 2, 1, 1)) },
    ];
    let batches = batch_by_pid(&entries);
    assert_eq!(batches.len(), 2);
    assert_eq!((batches[0].pid, batches[0].txid), (5, TransactionId(10)));
    assert_eq!(batches[0].positions, vec![(wid(5, 1), Point::new(1, 1))]);
    assert_eq!(batches[0].frames, vec![(wid(5, 2), rect(2, 2, 1, 1))]);
    assert_eq!((batches[1].pid, batches[1].txid), (3, TransactionId(11)));
    assert!(batch_by_pid(&Vec::new()).is_empty());
}

#[test]
fn focus_windows_are_resized_before_animating() {
    let w = AnimatedWindow {
        wid: wid(1, 1),
        start: rect(10, 20, 100, 100),
        finish: rect(50, 60, 200, 150),
        is_focus: true,
        txid: TransactionId(0),
    };
    assert_eq!(focus_resize_frame(&w), Some(rect(10, 20, 200, 150)));
    let not_focus = AnimatedWindow { is_focus: false, ..w };
    assert_eq!(focus_resize_frame(&not_focus), None);
    let same_size = AnimatedWindow { finish: rect(50, 60, 100, 100), ..w };
    assert_eq!(focus_resize_frame(&same_size), None);
}

#[test]
fn resize_schedule_resizes_once_midway_and_at_the_end() {
    let mut s = ResizeSchedule::new(4);
    assert_eq!(s.step(1, false), FrameAction::Deliver { should_resize: false, is_final: false });
    assert_eq!(s.step(2, false), FrameAction::Deliver { should_resize: true, is_final: false });
    assert_eq!(s.step(3, false), FrameAction::Deliver { should_resize: false, is_final: false });
    assert_eq!(s.step(4, false), FrameAction::Deliver { should_resize: true, is_final: true });
}

#[test]
fn resize_schedule_drops_overdue_steps_but_never_the_last() {
    let mut s = ResizeSchedule::new(4);
    assert_eq!(s.step(1, true), FrameAction::Skip);
    assert_eq!(s.step(2, true), FrameAction::Skip);
    // The first delivered step past the middle resizes.
    assert_eq!(s.step(3, false), FrameAction::Deliver { should_resize: true, is_final: false });
    assert_eq!(s.step(4, true), FrameAction::Deliver { should_resize: true, is_final: true });

    let mut one = ResizeSchedule::new(1);
    assert_eq!(one.step(1, true), FrameAction::Deliver { should_resize: true, is_final: true });
}

#[test]
fn layout_frame_checks() {
    let w = wid(4, 2);
    let target = rect(0, 0, 100, 100);
    let other = rect(5, 0, 100, 100);
    assert_eq!(
        AnimationManager::check_layout_frame(Some(w), w, target, Some(other), None),
        LayoutFrameCheck::Dragged
    );
    assert_eq!(
        AnimationManager::check_layout_frame(Some(wid(4, 3)), w, target, None, None),
        LayoutFrameCheck::Missing
    );
    assert_eq!(
        AnimationManager::check_layout_frame(None, w, target, Some(target), None),
        LayoutFrameCheck::Unchanged
    );
    assert_eq!(
        AnimationManager::check_layout_frame(None, w, target, Some(other), Some(target)),
        LayoutFrameCheck::AlreadyPending
    );
    assert_eq!(
        AnimationManager::check_layout_frame(None, w, target, Some(other), Some(other)),
        LayoutFrameCheck::Changed
    );
}

#[test]
fn window_classification() {
    let screen = rect(0, 0, 3840, 1589);
    let hidden_a = rect(-2200, 39, 2294, 1573);
    let hidden_b = rect(-2240, 39, 2294, 1573);
    let partly = rect(-1719, 39, 2294, 1573);
    let visible = rect(770, 39, 2294, 1573);
    // Inactive windows are placed directly.
    assert_eq!(
        AnimationManager::classify_window(false, None, partly, visible, true),
        WindowAction::Direct
    );
    // Outside a scrolling layout, active windows animate.
    assert_eq!(
        AnimationManager::classify_window(true, None, hidden_a, hidden_b, true),
        WindowAction::Animate
    );
    // Hidden-to-hidden moves on a scrolling layout are placed directly.
    assert_eq!(
        AnimationManager::classify_window(true, Some(screen), hidden_a, hidden_b, false),
        WindowAction::Direct
    );
    // A troubled window at the edge jumps.
    assert_eq!(
        AnimationManager::classify_window(true, Some(screen), partly, visible, true),
        WindowAction::Jump
    );
    assert_eq!(
        AnimationManager::classify_window(true, Some(screen), partly, visible, false),
        WindowAction::Animate
    );
}

#[test]
fn layout_pass_and_finish_mode() {
    let mut pass = LayoutPass::new();
    assert_eq!(pass.finish_mode(false, true, false), FinishMode::Nothing);
    pass.record_check(LayoutFrameCheck::Unchanged);
    assert!(!pass.any_frame_changed);
    pass.record_check(LayoutFrameCheck::Changed);
    assert!(pass.any_frame_changed);
    pass.record_action(WindowAction::Direct);
    assert_eq!(pass.animated_count, 0);
    pass.record_action(WindowAction::Jump);
    pass.record_action(WindowAction::Animate);
    assert_eq!(pass.animated_count, 2);
    assert_eq!(pass.finish_mode(false, true, false), FinishMode::Run);
    assert_eq!(pass.finish_mode(true, true, false), FinishMode::SkipToEnd);
    assert_eq!(pass.finish_mode(false, false, false), FinishMode::SkipToEnd);
    assert_eq!(pass.finish_mode(false, true, true), FinishMode::SkipToEnd);
}

#[test]
fn instant_layout_groups_frames_by_application() {
    let frames = vec![
        (wid(2, 1), rect(0, 0, 10, 10)),
        (wid(1, 1), rect(10, 0, 10, 10)),
        (wid(2, 2), rect(20, 0, 10, 10)),
    ];
    let batches = AnimationManager::instant_layout_batches(&frames);
    assert_eq!(batches.len(), 2);
    assert_eq!(batches[0].pid, 2);
    assert_eq!(batches[0].txid, TransactionId::default());
    assert_eq!(batches[0].frames, vec![(wid(2, 1), rect(0, 0, 10, 10)), (wid(2, 2), rect(20, 0, 10, 10))]);
    assert!(batches[0].positions.is_empty());
    assert_eq!(batches[1].frames, vec![(wid(1, 1), rect(10, 0, 10, 10))]);
}
