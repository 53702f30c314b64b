use rift_wm::actor::reactor::animation::{
    batch_by_pid, BatchEntry, FrameAction, Placement, ResizeSchedule, TransactionId, WindowId,
};
use rift_wm::common::util::parse_command;
use rift_wm::sys::geometry::{Point, Rect};

#[test]
fn parts_are_never_empty() {
    for command in ["", "  ", "a", " a  b ", "'' \"\" x", "'a b' '' c", "\t'\\n'\t"] {
        for part in parse_command(command) {
            assert!(!part.is_empty(), "empty part in {command:?}");
        }
    }
}

#[test]
fn unquoted_commands_split_at_blanks_only() {
    for command in ["ls -la /tmp", "  a\tb  c ", "x\\y z", "single"] {
        let parts = parse_command(command);
        assert!(parts.iter().all(|p| !p.contains(' ') && !p.contains('\t')));
        let joined: String = parts.concat();
        let without_blanks: String = command.chars().filter(|c| *c != ' ' && *c != '\t').collect();
        assert_eq!(joined, without_blanks);
    }
}

#[test]
fn at_most_one_resize_before_the_last_step() {
    for frame_count in 1u32..=6 {
        for pattern in 0u32..(1 << frame_count) {
            let mut schedule = ResizeSchedule::new(frame_count);
            let mut mid_resizes = 0;
            for frame_idx in 1..=frame_count {
                let overdue = pattern & (1 << (frame_idx - 1)) != 0;
                match schedule.step(frame_idx, overdue) {
                    FrameAction::Skip => assert!(frame_idx != frame_count),
                    FrameAction::Deliver { should_resize, is_final } => {
                        assert_eq!(is_final, frame_idx == frame_count);
                        if is_final {
                            assert!(should_resize);
                        } else if should_resize {
                            mid_resizes += 1;
                        }
                    }
                }
            }
            assert!(mid_resizes <= 1);
        }
    }
}

#[test]
fn every_request_lands_in_the_batch_of_its_application_once() {
    let wid = |pid: i32, idx: u32| WindowId { pid, idx };
    let entries: Vec<BatchEntry> = (0..12u32)
        .map(|i| BatchEntry {
            wid: wid((i % 4) as i32, i),
            txid: TransactionId(100 + i),
            placement: if i % 3 == 0 {
                Placement::Position(Point::new(i as i32, 0))
            } else {
                Placement::Frame(Rect::new(i as i32, 0, 10, 10))
            },
        })
        .collect();
    let batches = batch_by_pid(&entries);
    let pids: Vec<i32> = batches.iter().map(|b| b.pid).collect();
    assert_eq!(pids, vec![0, 1, 2, 3]);
    for e in &entries {
        let b = batches.iter().find(|b| b.pid == e.wid.pid).unwrap();
        match e.placement {
            Placement::Frame(r) => assert!(b.frames.contains(&(e.wid, r))),
            Placement::Position(p) => assert!(b.positions.contains(&(e.wid, p))),
        }
    }
    for b in &batches {
        assert!(b.frames.iter().all(|(w, _)| w.pid == b.pid));
        assert!(b.positions.iter().all(|(w, _)| w.pid == b.pid));
        assert_eq!(b.txid, TransactionId(100 + b.pid as u32));
    }
}
