//! Layout animation: which windows animate, jump or move directly, how the
//! frames of one animation step are batched per application, and when
//! windows are resized during an animation.
//!
//! Frames here are in whole points; interpolation between frames and the
//! timing of steps are done by the caller.

use vstd::prelude::*;

use crate::sys::geometry::{Point, Rect, Size};

verus! {

/// A window: the process that owns it and the window's index in that
/// process.
#[derive(Clone, Copy, Debug, PartialEq, Eq, Structural)]
pub struct WindowId {
    pub pid: i32,
    pub idx: u32,
}

/// The transaction a frame request belongs to.
#[derive(Clone, Copy, Debug, PartialEq, Eq, Structural)]
pub struct TransactionId(pub u32);

impl Default for TransactionId {
    fn default() -> (t: TransactionId)
        ensures
            t == TransactionId(0),
    {
        TransactionId(0)
    }
}

/// How much of a frame's width lies on the screen, as the fraction
/// `visible / width`. `width` is always positive.
#[derive(Clone, Copy, Debug, PartialEq, Eq, Structural)]
pub struct VisibleRatio {
    pub visible: i64,
    pub width: i64,
}

/// The smaller of two integers.
pub open spec fn min_int(a: int, b: int) -> int {
    if a <= b {
        a
    } else {
        b
    }
}

/// The larger of two integers.
pub open spec fn max_int(a: int, b: int) -> int {
    if a >= b {
        a
    } else {
        b
    }
}

/// The width of the part of `frame` that lies within the horizontal extent
/// of `screen` (0 when they do not overlap).
pub open spec fn spec_visible_width(frame: Rect, screen: Rect) -> int {
    let left = max_int(frame.origin.x as int, screen.origin.x as int);
    let right = min_int(frame.spec_max_x(), screen.spec_max_x());
    max_int(right - left, 0)
}

/// The visible share of `frame`'s width: 0 for a frame without width.
pub open spec fn spec_visible_width_ratio(frame: Rect, screen: Rect) -> VisibleRatio {
    if frame.size.width <= 0 {
        VisibleRatio { visible: 0, width: 1 }
    } else {
        VisibleRatio {
            visible: spec_visible_width(frame, screen) as i64,
            width: frame.size.width as i64,
        }
    }
}

/// The ratio is below one tenth.
pub open spec fn below_tenth(r: VisibleRatio) -> bool {
    10 * r.visible < r.width
}

/// The ratio is below one half.
pub open spec fn below_half(r: VisibleRatio) -> bool {
    2 * r.visible < r.width
}

/// Hidden at the edge: less than a tenth of the window is on screen.
pub open spec fn spec_nearly_hidden(frame: Rect, screen: Rect) -> bool {
    below_tenth(spec_visible_width_ratio(frame, screen))
}

/// Mostly off screen: less than half of the window is on screen.
pub open spec fn spec_mostly_hidden(frame: Rect, screen: Rect) -> bool {
    below_half(spec_visible_width_ratio(frame, screen))
}

/// Whether the two frames differ in size (and not only in position).
pub fn size_changed(current: Rect, target: Rect) -> (b: bool)
    ensures
        b == (current.size != target.size),
{
    !current.size.same_as(&target.size)
}

/// The share of `frame`'s width that lies within the horizontal extent of
/// `screen`.
pub fn visible_width_ratio(frame: Rect, screen: Rect) -> (r: VisibleRatio)
    ensures
        r == spec_visible_width_ratio(frame, screen),
        r.width > 0,
        0 <= r.visible <= r.width,
{
    let frame_left = frame.origin.x as i64;
    let screen_left = screen.origin.x as i64;
    let visible_left = if frame_left >= screen_left {
        frame_left
    } else {
        screen_left
    };
    let frame_right = frame.max_x();
    let screen_right = screen.max_x();
    let visible_right = if frame_right <= screen_right {
        frame_right
    } else {
        screen_right
    };
    let visible_width = if visible_right - visible_left > 0 {
        visible_right - visible_left
    } else {
        0
    };
    if frame.size.width <= 0 {
        VisibleRatio { visible: 0, width: 1 }
    } else {
        VisibleRatio { visible: visible_width, width: frame.size.width as i64 }
    }
}

/// A scrolling-layout move between two frames that are both nearly hidden
/// at the edge of the screen (less than a tenth visible) is not worth
/// animating.
pub fn should_skip_scrolling_animation(current: Rect, target: Rect, screen: Rect) -> (b: bool)
    ensures
        b == (spec_nearly_hidden(current, screen) && spec_nearly_hidden(target, screen)),
{
    let c = visible_width_ratio(current, screen);
    let t = visible_width_ratio(target, screen);
    c.visible * 10 < c.width && t.visible * 10 < t.width
}

/// A move that starts or ends mostly off screen (less than half visible)
/// cannot be animated smoothly at the edge.
pub fn edge_transition_needs_jump(current: Rect, target: Rect, screen: Rect) -> (b: bool)
    ensures
        b == (spec_mostly_hidden(current, screen) || spec_mostly_hidden(target, screen)),
{
    let c = visible_width_ratio(current, screen);
    let t = visible_width_ratio(target, screen);
    c.visible * 2 < c.width || t.visible * 2 < t.width
}

/// A move that is skipped because both ends are nearly hidden always counts
/// as an edge transition that needs a jump: nearly hidden (under a tenth)
/// implies mostly hidden (under a half).
pub proof fn lemma_skipped_moves_need_jump(current: Rect, target: Rect, screen: Rect)
    requires
        spec_nearly_hidden(current, screen) && spec_nearly_hidden(target, screen),
    ensures
        spec_mostly_hidden(current, screen) || spec_mostly_hidden(target, screen),
{
}

/// A frame with width that lies horizontally within the screen is fully
/// visible, wherever the screen stands (also on a screen that does not
/// start at 0).
pub proof fn lemma_contained_frame_is_fully_visible(frame: Rect, screen: Rect)
    requires
        frame.size.width > 0,
        screen.origin.x <= frame.origin.x,
        frame.origin.x + frame.size.width <= screen.origin.x + screen.size.width,
    ensures
        spec_visible_width_ratio(frame, screen) == (VisibleRatio {
            visible: frame.size.width as i64,
            width: frame.size.width as i64,
        }),
{
}

/// A frame that lies entirely left or right of the screen shows nothing.
pub proof fn lemma_disjoint_frame_is_invisible(frame: Rect, screen: Rect)
    requires
        frame.size.width > 0,
        frame.origin.x + frame.size.width <= screen.origin.x || screen.origin.x
            + screen.size.width <= frame.origin.x,
    ensures
        spec_visible_width_ratio(frame, screen).visible == 0,
        spec_visible_width_ratio(frame, screen).width == frame.size.width,
{
}

/// A frame that sticks out over one edge of the screen shows the part
/// between that edge and its other side.
pub proof fn lemma_frame_over_an_edge_shows_the_overlap(frame: Rect, screen: Rect)
    requires
        frame.size.width > 0,
        screen.size.width >= 0,
    ensures
        frame.origin.x < screen.origin.x < frame.origin.x + frame.size.width <= screen.origin.x
            + screen.size.width ==> spec_visible_width_ratio(frame, screen).visible
            == frame.origin.x + frame.size.width - screen.origin.x,
        screen.origin.x <= frame.origin.x < screen.origin.x + screen.size.width < frame.origin.x
            + frame.size.width ==> spec_visible_width_ratio(frame, screen).visible
            == screen.origin.x + screen.size.width - frame.origin.x,
        frame.origin.x <= screen.origin.x && screen.origin.x + screen.size.width
            <= frame.origin.x + frame.size.width ==> spec_visible_width_ratio(
            frame,
            screen,
        ).visible == screen.size.width,
{
}

/// A frame without width counts as not visible at all.
pub proof fn lemma_frame_without_width_is_invisible(frame: Rect, screen: Rect)
    requires
        frame.size.width <= 0,
    ensures
        spec_visible_width_ratio(frame, screen).visible == 0,
        spec_nearly_hidden(frame, screen),
{
}

/// What the two visibility thresholds mean for whole frames: a frame fully
/// on the screen is neither mostly nor nearly hidden, a frame entirely off
/// the screen is both, and a nearly hidden frame is always mostly hidden.
pub proof fn lemma_hidden_thresholds_on_whole_frames(frame: Rect, screen: Rect)
    ensures
        frame.size.width > 0 && screen.origin.x <= frame.origin.x && frame.origin.x
            + frame.size.width <= screen.origin.x + screen.size.width ==> !spec_mostly_hidden(
            frame,
            screen,
        ) && !spec_nearly_hidden(frame, screen),
        frame.size.width > 0 && (frame.origin.x + frame.size.width <= screen.origin.x
            || screen.origin.x + screen.size.width <= frame.origin.x) ==> spec_mostly_hidden(
            frame,
            screen,
        ) && spec_nearly_hidden(frame, screen),
        spec_nearly_hidden(frame, screen) ==> spec_mostly_hidden(frame, screen),
{
}

/// Moving a frame and its screen sideways by the same amount does not
/// change how much of the frame is visible.
pub proof fn lemma_visible_ratio_ignores_shared_shift(frame: Rect, screen: Rect, dx: int)
    requires
        i32::MIN <= frame.origin.x + dx <= i32::MAX,
        i32::MIN <= screen.origin.x + dx <= i32::MAX,
    ensures
        spec_visible_width_ratio(
            Rect { origin: Point { x: (frame.origin.x + dx) as i32, y: frame.origin.y }, ..frame },
            Rect { origin: Point { x: (screen.origin.x + dx) as i32, y: screen.origin.y }, ..screen },
        ) == spec_visible_width_ratio(frame, screen),
{
}

/// Where a step puts a window: a whole frame (position and size), or only a
/// new position.
#[derive(Clone, Copy, Debug, PartialEq, Eq, Structural)]
pub enum Placement {
    Frame(Rect),
    Position(Point),
}

/// One window's request in an animation step.
#[derive(Clone, Copy, Debug, PartialEq, Eq, Structural)]
pub struct BatchEntry {
    pub wid: WindowId,
    pub txid: TransactionId,
    pub placement: Placement,
}

/// The requests of one step for the windows of one application, applied
/// together: whole frames and position-only moves.
pub struct FrameBatch {
    pub pid: i32,
    pub txid: TransactionId,
    pub frames: Vec<(WindowId, Rect)>,
    pub positions: Vec<(WindowId, Point)>,
}

/// The applications that requests go to, each once, in the order of their
/// first request.
pub open spec fn batch_pids(entries: Seq<BatchEntry>) -> Seq<i32>
    decreases entries.len(),
{
    if entries.len() == 0 {
        Seq::empty()
    } else {
        let prev = batch_pids(entries.drop_last());
        let pid = entries.last().wid.pid;
        if prev.contains(pid) {
            prev
        } else {
            prev.push(pid)
        }
    }
}

/// The transaction of an application's batch: that of its first request.
pub open spec fn batch_txid(entries: Seq<BatchEntry>, pid: i32) -> TransactionId
    decreases entries.len(),
{
    if entries.len() == 0 {
        TransactionId(0)
    } else {
        let prev = entries.drop_last();
        if batch_pids(prev).contains(pid) {
            batch_txid(prev, pid)
        } else if entries.last().wid.pid == pid {
            entries.last().txid
        } else {
            TransactionId(0)
        }
    }
}

/// The whole frames requested for the windows of `pid`, in request order.
pub open spec fn batch_frames(entries: Seq<BatchEntry>, pid: i32) -> Seq<(WindowId, Rect)>
    decreases entries.len(),
{
    if entries.len() == 0 {
        Seq::empty()
    } else {
        let prev = batch_frames(entries.drop_last(), pid);
        let e = entries.last();
        match e.placement {
            Placement::Frame(r) => if e.wid.pid == pid {
                prev.push((e.wid, r))
            } else {
                prev
            },
            Placement::Position(_) => prev,
        }
    }
}

/// The positions requested for the windows of `pid`, in request order.
pub open spec fn batch_positions(entries: Seq<BatchEntry>, pid: i32) -> Seq<(WindowId, Point)>
    decreases entries.len(),
{
    if entries.len() == 0 {
        Seq::empty()
    } else {
        let prev = batch_positions(entries.drop_last(), pid);
        let e = entries.last();
        match e.placement {
            Placement::Position(p) => if e.wid.pid == pid {
                prev.push((e.wid, p))
            } else {
                prev
            },
            Placement::Frame(_) => prev,
        }
    }
}

/// `batches` holds the requests of `entries` grouped by application: one
/// batch per application in the order of its first request, carrying the
/// transaction of that first request and, in request order, the frames and
/// the positions requested for that application's windows.
pub open spec fn is_batching(entries: Seq<BatchEntry>, batches: Seq<FrameBatch>) -> bool {
    &&& batches.len() == batch_pids(entries).len()
    &&& forall|k: int|
        0 <= k < batches.len() ==> {
            let pid = #[trigger] batch_pids(entries)[k];
            &&& batches[k].pid == pid
            &&& batches[k].txid == batch_txid(entries, pid)
            &&& batches[k].frames@ == batch_frames(entries, pid)
            &&& batches[k].positions@ == batch_positions(entries, pid)
        }
}

fn contains_pid(pids: &Vec<i32>, pid: i32) -> (b: bool)
    ensures
        b == pids@.contains(pid),
{
    let mut i: usize = 0;
    while i < pids.len()
        invariant
            0 <= i <= pids.len(),
            forall|k: int| 0 <= k < i ==> pids@[k] != pid,
        decreases pids.len() - i,
    {
        if pids[i] == pid {
            assert(pids@[i as int] == pid);
            return true;
        }
        i += 1;
    }
    false
}

/// The frames and positions that `entries` request for the windows of
/// `pid`.
fn requests_for(entries: &Vec<BatchEntry>, pid: i32) -> (r: (
    Vec<(WindowId, Rect)>,
    Vec<(WindowId, Point)>,
))
    ensures
        r.0@ == batch_frames(entries@, pid),
        r.1@ == batch_positions(entries@, pid),
{
    let mut frames: Vec<(WindowId, Rect)> = Vec::new();
    let mut positions: Vec<(WindowId, Point)> = Vec::new();
    let mut i: usize = 0;
    while i < entries.len()
        invariant
            0 <= i <= entries.len(),
            frames@ == batch_frames(entries@.take(i as int), pid),
            positions@ == batch_positions(entries@.take(i as int), pid),
        decreases entries.len() - i,
    {
        let e = entries[i];
        assert(entries@.take(i + 1).drop_last() =~= entries@.take(i as int));
        assert(entries@.take(i + 1).last() == e);
        if e.wid.pid == pid {
            match e.placement {
                Placement::Frame(r) => frames.push((e.wid, r)),
                Placement::Position(p) => positions.push((e.wid, p)),
            }
        }
        i += 1;
    }
    assert(entries@.take(entries.len() as int) =~= entries@);
    (frames, positions)
}

/// Groups the requests of one step by application (see `is_batching`).
pub fn batch_by_pid(entries: &Vec<BatchEntry>) -> (batches: Vec<FrameBatch>)
    ensures
        is_batching(entries@, batches@),
{
    let mut pids: Vec<i32> = Vec::new();
    let mut txids: Vec<TransactionId> = Vec::new();
    let mut i: usize = 0;
    while i < entries.len()
        invariant
            0 <= i <= entries.len(),
            pids@ == batch_pids(entries@.take(i as int)),
            txids.len() == pids.len(),
            forall|k: int|
                0 <= k < pids.len() ==> txids@[k] == batch_txid(
                    entries@.take(i as int),
                    #[trigger] pids@[k],
                ),
        decreases entries.len() - i,
    {
        let e = entries[i];
        let ghost prev = entries@.take(i as int);
        let ghost cur = entries@.take(i + 1);
        assert(cur.drop_last() =~= prev);
        assert(cur.last() == e);
        let ghost old_pids = pids@;
        let ghost old_txids = txids@;
        if !contains_pid(&pids, e.wid.pid) {
            pids.push(e.wid.pid);
            txids.push(e.txid);
        }
        assert forall|k: int| 0 <= k < pids.len() implies txids@[k] == batch_txid(
            cur,
            #[trigger] pids@[k],
        ) by {
            if k < old_pids.len() {
                assert(old_pids[k] == pids@[k]);
                assert(batch_pids(prev).contains(pids@[k]));
            }
        }
        i += 1;
    }
    assert(entries@.take(entries.len() as int) =~= entries@);
    let mut batches: Vec<FrameBatch> = Vec::new();
    let mut k: usize = 0;
    while k < pids.len()
        invariant
            0 <= k <= pids.len(),
            pids@ == batch_pids(entries@),
            txids.len() == pids.len(),
            forall|j: int|
                0 <= j < pids.len() ==> txids@[j] == batch_txid(entries@, #[trigger] pids@[j]),
            batches.len() == k,
            forall|j: int|
                0 <= j < k ==> {
                    let pid = #[trigger] batch_pids(entries@)[j];
                    &&& batches@[j].pid == pid
                    &&& batches@[j].txid == batch_txid(entries@, pid)
                    &&& batches@[j].frames@ == batch_frames(entries@, pid)
                    &&& batches@[j].positions@ == batch_positions(entries@, pid)
                },
        decreases pids.len() - k,
    {
        let pid = pids[k];
        let (frames, positions) = requests_for(entries, pid);
        batches.push(FrameBatch { pid, txid: txids[k], frames, positions });
        k += 1;
    }
    batches
}

/// Every application gets one batch: no application appears twice among
/// the batches of a step.
pub proof fn lemma_batch_pids_distinct(entries: Seq<BatchEntry>)
    ensures
        batch_pids(entries).no_duplicates(),
    decreases entries.len(),
{
    if entries.len() > 0 {
        lemma_batch_pids_distinct(entries.drop_last());
    }
}

/// The batches of a step go exactly to the applications that have
/// requests in it.
pub proof fn lemma_batch_pids_are_requested(entries: Seq<BatchEntry>)
    ensures
        forall|j: int|
            0 <= j < entries.len() ==> batch_pids(entries).contains(#[trigger] entries[j].wid.pid),
        forall|k: int|
            0 <= k < batch_pids(entries).len() ==> exists|j: int|
                0 <= j < entries.len() && #[trigger] entries[j].wid.pid == #[trigger] batch_pids(
                    entries,
                )[k],
    decreases entries.len(),
{
    if entries.len() > 0 {
        let prev = entries.drop_last();
        let pids = batch_pids(entries);
        let prev_pids = batch_pids(prev);
        lemma_batch_pids_are_requested(prev);
        assert(pids.contains(entries.last().wid.pid)) by {
            if prev_pids.contains(entries.last().wid.pid) {
            } else {
                assert(pids[pids.len() - 1] == entries.last().wid.pid);
            }
        }
        assert forall|j: int| 0 <= j < entries.len() implies pids.contains(
            #[trigger] entries[j].wid.pid,
        ) by {
            if j < prev.len() {
                assert(prev[j] == entries[j]);
                assert(prev_pids.contains(prev[j].wid.pid));
                let k = choose|k: int| 0 <= k < prev_pids.len() && prev_pids[k] == prev[j].wid.pid;
                assert(pids[k] == prev_pids[k]);
            }
        }
        assert forall|k: int| 0 <= k < pids.len() implies exists|j: int|
            0 <= j < entries.len() && #[trigger] entries[j].wid.pid == #[trigger] batch_pids(
                entries,
            )[k] by {
            if k < prev_pids.len() {
                assert(prev_pids[k] == pids[k]);
                let j = choose|j: int|
                    0 <= j < prev.len() && #[trigger] prev[j].wid.pid == #[trigger] batch_pids(
                        prev,
                    )[k];
                assert(entries[j] == prev[j]);
            } else {
                assert(entries[entries.len() - 1].wid.pid == pids[k]);
            }
        }
    }
}

/// Every request of a step is carried by the batch of its window's
/// application: a whole frame among its frames, a position among its
/// positions.
pub proof fn lemma_request_in_its_batch(entries: Seq<BatchEntry>, j: int)
    requires
        0 <= j < entries.len(),
    ensures
        batch_pids(entries).contains(entries[j].wid.pid),
        entries[j].placement matches Placement::Frame(r) ==> batch_frames(
            entries,
            entries[j].wid.pid,
        ).contains((entries[j].wid, r)),
        entries[j].placement matches Placement::Position(p) ==> batch_positions(
            entries,
            entries[j].wid.pid,
        ).contains((entries[j].wid, p)),
    decreases entries.len(),
{
    lemma_batch_pids_are_requested(entries);
    let prev = entries.drop_last();
    let e = entries[j];
    if j < entries.len() - 1 {
        assert(prev[j] == e);
        lemma_request_in_its_batch(prev, j);
        match e.placement {
            Placement::Frame(r) => {
                let pf = batch_frames(prev, e.wid.pid);
                let i = choose|i: int| 0 <= i < pf.len() && pf[i] == (e.wid, r);
                assert(batch_frames(entries, e.wid.pid)[i] == (e.wid, r));
            },
            Placement::Position(p) => {
                let pp = batch_positions(prev, e.wid.pid);
                let i = choose|i: int| 0 <= i < pp.len() && pp[i] == (e.wid, p);
                assert(batch_positions(entries, e.wid.pid)[i] == (e.wid, p));
            },
        }
    } else {
        match e.placement {
            Placement::Frame(r) => {
                let f = batch_frames(entries, e.wid.pid);
                assert(f[f.len() - 1] == (e.wid, r));
            },
            Placement::Position(p) => {
                let f = batch_positions(entries, e.wid.pid);
                assert(f[f.len() - 1] == (e.wid, p));
            },
        }
    }
}

/// A batch carries the transaction of its application's first request:
/// some request of that application has it, and no earlier request is of
/// that application.
pub proof fn lemma_batch_txid_is_first_request(entries: Seq<BatchEntry>, pid: i32)
    requires
        batch_pids(entries).contains(pid),
    ensures
        exists|j: int|
            0 <= j < entries.len() && #[trigger] entries[j].wid.pid == pid && entries[j].txid
                == batch_txid(entries, pid) && forall|i: int|
                0 <= i < j ==> (#[trigger] entries[i]).wid.pid != pid,
    decreases entries.len(),
{
    let prev = entries.drop_last();
    if batch_pids(prev).contains(pid) {
        lemma_batch_txid_is_first_request(prev, pid);
        let j = choose|j: int|
            0 <= j < prev.len() && #[trigger] prev[j].wid.pid == pid && prev[j].txid
                == batch_txid(prev, pid) && forall|i: int|
                0 <= i < j ==> (#[trigger] prev[i]).wid.pid != pid;
        assert(entries[j] == prev[j]);
        assert forall|i: int| 0 <= i < j implies (#[trigger] entries[i]).wid.pid != pid by {
            assert(entries[i] == prev[i]);
        }
    } else {
        let j = entries.len() - 1;
        assert(entries[j].wid.pid == pid);
        lemma_batch_pids_are_requested(prev);
        assert forall|i: int| 0 <= i < j implies (#[trigger] entries[i]).wid.pid != pid by {
            assert(entries[i] == prev[i]);
            if prev[i].wid.pid == pid {
                assert(batch_pids(prev).contains(prev[i].wid.pid));
            }
        }
    }
}

/// Whether every frame in `frames` is for a window of `pid`.
pub open spec fn frames_all_of(frames: Seq<(WindowId, Rect)>, pid: i32) -> bool {
    forall|i: int| 0 <= i < frames.len() ==> (#[trigger] frames[i]).0.pid == pid
}

/// Whether every position in `positions` is for a window of `pid`.
pub open spec fn positions_all_of(positions: Seq<(WindowId, Point)>, pid: i32) -> bool {
    forall|i: int| 0 <= i < positions.len() ==> (#[trigger] positions[i]).0.pid == pid
}

/// A batch only carries requests for windows of its own application.
pub proof fn lemma_batch_holds_only_its_windows(entries: Seq<BatchEntry>, pid: i32)
    ensures
        frames_all_of(batch_frames(entries, pid), pid),
        positions_all_of(batch_positions(entries, pid), pid),
    decreases entries.len(),
{
    if entries.len() > 0 {
        let prev = entries.drop_last();
        lemma_batch_holds_only_its_windows(prev, pid);
        let f = batch_frames(entries, pid);
        let pf = batch_frames(prev, pid);
        assert forall|i: int| 0 <= i < f.len() implies (#[trigger] f[i]).0.pid == pid by {
            if i < pf.len() {
                assert(f[i] == pf[i]);
            }
        }
        let q = batch_positions(entries, pid);
        let pq = batch_positions(prev, pid);
        assert forall|i: int| 0 <= i < q.len() implies (#[trigger] q[i]).0.pid == pid by {
            if i < pq.len() {
                assert(q[i] == pq[i]);
            }
        }
    }
}

/// A window that moves from `start` to `finish` over the animation.
#[derive(Clone, Copy, Debug, PartialEq, Eq, Structural)]
pub struct AnimatedWindow {
    pub wid: WindowId,
    pub start: Rect,
    pub finish: Rect,
    pub is_focus: bool,
    pub txid: TransactionId,
}

/// A window that is put on `target` in the first step, without animation.
#[derive(Clone, Copy, Debug, PartialEq, Eq, Structural)]
pub struct JumpWindow {
    pub wid: WindowId,
    pub target: Rect,
    pub txid: TransactionId,
}

/// What running an animation amounts to.
#[derive(Clone, Copy, Debug, PartialEq, Eq, Structural)]
pub enum RunMode {
    /// Nothing to move.
    Idle,
    /// Only jumps: every window is put on its target at once.
    SkipToEnd,
    /// Animated windows are moved step by step.
    Animate,
}

/// The request that puts an animated window on its final frame.
pub open spec fn finish_entry(w: AnimatedWindow) -> BatchEntry {
    BatchEntry { wid: w.wid, txid: w.txid, placement: Placement::Frame(w.finish) }
}

/// The request that puts a jumping window on its target.
pub open spec fn jump_entry(j: JumpWindow) -> BatchEntry {
    BatchEntry { wid: j.wid, txid: j.txid, placement: Placement::Frame(j.target) }
}

/// The request of one step for an animated window at the (rounded)
/// interpolated `origin`: when the step resizes and the window changes size,
/// its whole frame at `origin` with the final size; otherwise its position
/// only.
pub open spec fn step_entry(w: AnimatedWindow, origin: Point, should_resize: bool) -> BatchEntry {
    if should_resize && w.start.size != w.finish.size {
        BatchEntry {
            wid: w.wid,
            txid: w.txid,
            placement: Placement::Frame(Rect { origin, size: w.finish.size }),
        }
    } else {
        BatchEntry { wid: w.wid, txid: w.txid, placement: Placement::Position(origin) }
    }
}

/// The requests that finish an animation at once: every animated window on
/// its final frame, then every jumping window on its target.
pub open spec fn skip_to_end_entries(
    windows: Seq<AnimatedWindow>,
    jumps: Seq<JumpWindow>,
) -> Seq<BatchEntry> {
    windows.map_values(|w: AnimatedWindow| finish_entry(w)) + jumps.map_values(
        |j: JumpWindow| jump_entry(j),
    )
}

/// The requests of one step: each animated window at its origin for this
/// step, then, in the first step only, every jumping window on its target.
pub open spec fn step_entries(
    windows: Seq<AnimatedWindow>,
    jumps: Seq<JumpWindow>,
    origins: Seq<Point>,
    should_resize: bool,
    first_step: bool,
) -> Seq<BatchEntry> {
    Seq::new(windows.len(), |i: int| step_entry(windows[i], origins[i], should_resize)) + if first_step {
        jumps.map_values(|j: JumpWindow| jump_entry(j))
    } else {
        Seq::empty()
    }
}

/// The frame a window that gets focus is given before the animation starts:
/// its start position with its final size, when the size changes.
pub open spec fn spec_focus_resize_frame(w: AnimatedWindow) -> Option<Rect> {
    if w.is_focus && w.start.size != w.finish.size {
        Some(Rect { origin: w.start.origin, size: w.finish.size })
    } else {
        None
    }
}

/// Skipping to the end puts every window where it belongs: each animated
/// window on its final frame and each jumping window on its target, in the
/// batch of its application.
pub proof fn lemma_skip_to_end_places_every_window(
    windows: Seq<AnimatedWindow>,
    jumps: Seq<JumpWindow>,
)
    ensures
        forall|i: int|
            0 <= i < windows.len() ==> batch_frames(
                skip_to_end_entries(windows, jumps),
                (#[trigger] windows[i]).wid.pid,
            ).contains((windows[i].wid, windows[i].finish)),
        forall|i: int|
            0 <= i < jumps.len() ==> batch_frames(
                skip_to_end_entries(windows, jumps),
                (#[trigger] jumps[i]).wid.pid,
            ).contains((jumps[i].wid, jumps[i].target)),
{
    let entries = skip_to_end_entries(windows, jumps);
    assert forall|i: int| 0 <= i < windows.len() implies batch_frames(
        entries,
        (#[trigger] windows[i]).wid.pid,
    ).contains((windows[i].wid, windows[i].finish)) by {
        assert(entries[i] == finish_entry(windows[i]));
        lemma_request_in_its_batch(entries, i);
    }
    assert forall|i: int| 0 <= i < jumps.len() implies batch_frames(
        entries,
        (#[trigger] jumps[i]).wid.pid,
    ).contains((jumps[i].wid, jumps[i].target)) by {
        assert(entries[windows.len() + i] == jump_entry(jumps[i]));
        lemma_request_in_its_batch(entries, windows.len() + i);
    }
}

/// In a step that resizes, every animated window that changes size is sent
/// its final size at its origin for the step; in a step that does not
/// resize, every animated window is only moved there. Jumping windows take
/// part in the first step only.
pub proof fn lemma_step_moves_every_window(
    windows: Seq<AnimatedWindow>,
    jumps: Seq<JumpWindow>,
    origins: Seq<Point>,
    should_resize: bool,
    first_step: bool,
)
    requires
        origins.len() == windows.len(),
    ensures
        forall|i: int|
            0 <= i < windows.len() ==> {
                let w = #[trigger] windows[i];
                let entries = step_entries(windows, jumps, origins, should_resize, first_step);
                if should_resize && w.start.size != w.finish.size {
                    batch_frames(entries, w.wid.pid).contains(
                        (w.wid, Rect { origin: origins[i], size: w.finish.size }),
                    )
                } else {
                    batch_positions(entries, w.wid.pid).contains((w.wid, origins[i]))
                }
            },
        step_entries(windows, jumps, origins, should_resize, first_step).len() == windows.len()
            + if first_step {
            jumps.len() as int
        } else {
            0int
        },
        first_step ==> forall|i: int|
            0 <= i < jumps.len() ==> batch_frames(
                step_entries(windows, jumps, origins, should_resize, first_step),
                (#[trigger] jumps[i]).wid.pid,
            ).contains((jumps[i].wid, jumps[i].target)),
{
    let entries = step_entries(windows, jumps, origins, should_resize, first_step);
    assert forall|i: int| 0 <= i < windows.len() implies {
        let w = #[trigger] windows[i];
        if should_resize && w.start.size != w.finish.size {
            batch_frames(entries, w.wid.pid).contains(
                (w.wid, Rect { origin: origins[i], size: w.finish.size }),
            )
        } else {
            batch_positions(entries, w.wid.pid).contains((w.wid, origins[i]))
        }
    } by {
        assert(entries[i] == step_entry(windows[i], origins[i], should_resize));
        lemma_request_in_its_batch(entries, i);
    }
    if first_step {
        assert forall|i: int| 0 <= i < jumps.len() implies batch_frames(
            entries,
            (#[trigger] jumps[i]).wid.pid,
        ).contains((jumps[i].wid, jumps[i].target)) by {
            assert(entries[windows.len() + i] == jump_entry(jumps[i]));
            lemma_request_in_its_batch(entries, windows.len() + i);
        }
    }
}

/// The windows of one layout animation.
pub struct Animation {
    windows: Vec<AnimatedWindow>,
    jump_windows: Vec<JumpWindow>,
}

impl Animation {
    /// The animated windows, in the order they were added.
    pub closed spec fn spec_windows(&self) -> Seq<AnimatedWindow> {
        self.windows@
    }

    /// The jumping windows, in the order they were added.
    pub closed spec fn spec_jump_windows(&self) -> Seq<JumpWindow> {
        self.jump_windows@
    }

    /// An animation without windows.
    pub fn new() -> (a: Animation)
        ensures
            a.spec_windows() == Seq::<AnimatedWindow>::empty(),
            a.spec_jump_windows() == Seq::<JumpWindow>::empty(),
    {
        Animation { windows: Vec::new(), jump_windows: Vec::new() }
    }

    /// Adds a window to move from `start` to `finish`.
    pub fn add_window(
        &mut self,
        wid: WindowId,
        start: Rect,
        finish: Rect,
        is_focus: bool,
        txid: TransactionId,
    )
        ensures
            final(self).spec_windows() == old(self).spec_windows().push(
                AnimatedWindow { wid, start, finish, is_focus, txid },
            ),
            final(self).spec_jump_windows() == old(self).spec_jump_windows(),
    {
        self.windows.push(AnimatedWindow { wid, start, finish, is_focus, txid });
    }

    /// Adds a window to put on `target` at once.
    pub fn add_jump_window(&mut self, wid: WindowId, target: Rect, txid: TransactionId)
        ensures
            final(self).spec_jump_windows() == old(self).spec_jump_windows().push(
                JumpWindow { wid, target, txid },
            ),
            final(self).spec_windows() == old(self).spec_windows(),
    {
        self.jump_windows.push(JumpWindow { wid, target, txid });
    }

    /// The animated windows.
    pub fn windows(&self) -> (w: &Vec<AnimatedWindow>)
        ensures
            w@ == self.spec_windows(),
    {
        &self.windows
    }

    /// The jumping windows.
    pub fn jump_windows(&self) -> (j: &Vec<JumpWindow>)
        ensures
            j@ == self.spec_jump_windows(),
    {
        &self.jump_windows
    }

    /// Nothing happens without windows; with jumping windows only, the
    /// animation is skipped to its end; otherwise it is animated.
    pub fn run_mode(&self) -> (m: RunMode)
        ensures
            m == (if self.spec_windows().len() == 0 && self.spec_jump_windows().len() == 0 {
                RunMode::Idle
            } else if self.spec_windows().len() == 0 {
                RunMode::SkipToEnd
            } else {
                RunMode::Animate
            }),
    {
        if self.windows.len() == 0 && self.jump_windows.len() == 0 {
            RunMode::Idle
        } else if self.windows.len() == 0 {
            RunMode::SkipToEnd
        } else {
            RunMode::Animate
        }
    }

    /// The requests that finish the animation at once, grouped by
    /// application: animated windows on their final frames, jumping windows
    /// on their targets.
    pub fn skip_to_end_batches(&self) -> (batches: Vec<FrameBatch>)
        ensures
            is_batching(
                skip_to_end_entries(self.spec_windows(), self.spec_jump_windows()),
                batches@,
            ),
    {
        let mut entries: Vec<BatchEntry> = Vec::new();
        let mut i: usize = 0;
        while i < self.windows.len()
            invariant
                0 <= i <= self.windows.len(),
                entries@ == self.windows@.take(i as int).map_values(
                    |w: AnimatedWindow| finish_entry(w),
                ),
            decreases self.windows.len() - i,
        {
            let w = self.windows[i];
            entries.push(BatchEntry { wid: w.wid, txid: w.txid, placement: Placement::Frame(w.finish) });
            assert(self.windows@.take(i + 1) =~= self.windows@.take(i as int).push(w));
            assert(entries@ =~= self.windows@.take(i + 1).map_values(
                |w: AnimatedWindow| finish_entry(w),
            ));
            i += 1;
        }
        assert(self.windows@.take(self.windows.len() as int) =~= self.windows@);
        let ghost head = entries@;
        let mut j: usize = 0;
        while j < self.jump_windows.len()
            invariant
                0 <= j <= self.jump_windows.len(),
                head == self.windows@.map_values(|w: AnimatedWindow| finish_entry(w)),
                entries@ == head + self.jump_windows@.take(j as int).map_values(
                    |x: JumpWindow| jump_entry(x),
                ),
            decreases self.jump_windows.len() - j,
        {
            let x = self.jump_windows[j];
            entries.push(BatchEntry { wid: x.wid, txid: x.txid, placement: Placement::Frame(x.target) });
            assert(self.jump_windows@.take(j + 1) =~= self.jump_windows@.take(j as int).push(x));
            assert(entries@ =~= head + self.jump_windows@.take(j + 1).map_values(
                |x: JumpWindow| jump_entry(x),
            ));
            j += 1;
        }
        assert(self.jump_windows@.take(self.jump_windows.len() as int) =~= self.jump_windows@);
        batch_by_pid(&entries)
    }

    /// The requests of one animation step, grouped by application.
    /// `origins[i]` is the rounded interpolated origin of the `i`-th animated
    /// window in this step; jumping windows are included in the first step
    /// only.
    pub fn step_batches(&self, origins: &Vec<Point>, should_resize: bool, first_step: bool) -> (batches: Vec<FrameBatch>)
        requires
            origins.len() == self.spec_windows().len(),
        ensures
            is_batching(
                step_entries(
                    self.spec_windows(),
                    self.spec_jump_windows(),
                    origins@,
                    should_resize,
                    first_step,
                ),
                batches@,
            ),
    {
        let mut entries: Vec<BatchEntry> = Vec::new();
        let mut i: usize = 0;
        while i < self.windows.len()
            invariant
                0 <= i <= self.windows.len(),
                origins.len() == self.windows.len(),
                entries@ =~= Seq::new(
                    i as nat,
                    |k: int| step_entry(self.windows@[k], origins@[k], should_resize),
                ),
            decreases self.windows.len() - i,
        {
            let w = self.windows[i];
            let origin = origins[i];
            if should_resize && size_changed(w.start, w.finish) {
                entries.push(
                    BatchEntry {
                        wid: w.wid,
                        txid: w.txid,
                        placement: Placement::Frame(Rect { origin, size: w.finish.size }),
                    },
                );
            } else {
                entries.push(BatchEntry { wid: w.wid, txid: w.txid, placement: Placement::Position(origin) });
            }
            i += 1;
        }
        let ghost head = entries@;
        if first_step {
            let mut j: usize = 0;
            while j < self.jump_windows.len()
                invariant
                    0 <= j <= self.jump_windows.len(),
                    entries@ == head + self.jump_windows@.take(j as int).map_values(
                        |x: JumpWindow| jump_entry(x),
                    ),
                decreases self.jump_windows.len() - j,
            {
                let x = self.jump_windows[j];
                entries.push(BatchEntry { wid: x.wid, txid: x.txid, placement: Placement::Frame(x.target) });
                assert(self.jump_windows@.take(j + 1) =~= self.jump_windows@.take(j as int).push(x));
                assert(entries@ =~= head + self.jump_windows@.take(j + 1).map_values(
                    |x: JumpWindow| jump_entry(x),
                ));
                j += 1;
            }
            assert(self.jump_windows@.take(self.jump_windows.len() as int) =~= self.jump_windows@);
        } else {
            assert(entries@ =~= head + Seq::<BatchEntry>::empty());
        }
        batch_by_pid(&entries)
    }
}

/// The frame a window that gets focus is given before the animation
/// starts, so that it is resized at once: its start position with its final
/// size, when its size changes; `None` otherwise.
pub fn focus_resize_frame(w: &AnimatedWindow) -> (r: Option<Rect>)
    ensures
        r == spec_focus_resize_frame(*w),
{
    if w.is_focus && size_changed(w.start, w.finish) {
        Some(Rect { origin: w.start.origin, size: w.finish.size })
    } else {
        None
    }
}

/// What to do in one animation step.
#[derive(Clone, Copy, Debug, PartialEq, Eq, Structural)]
pub enum FrameAction {
    /// The step is overdue and not the last one: it is dropped.
    Skip,
    /// The step is sent; `should_resize` says whether windows that change
    /// size get their final size in it.
    Deliver { should_resize: bool, is_final: bool },
}

/// The outcome of step `frame_idx` of `frame_count` when a resize has
/// (`sent_mid_resize`) or has not yet been sent before the last step: the
/// action, and whether a resize before the last step has been sent
/// afterwards.
///
/// An overdue step is dropped unless it is the last one. The last step
/// always resizes; before it, the first step delivered at or after the
/// middle of the animation resizes, and no other.
pub open spec fn spec_frame_step(
    frame_count: int,
    sent_mid_resize: bool,
    frame_idx: int,
    overdue: bool,
) -> (FrameAction, bool) {
    let is_final = frame_idx == frame_count;
    if overdue && !is_final {
        (FrameAction::Skip, sent_mid_resize)
    } else {
        let should_resize = is_final || (!sent_mid_resize && frame_idx * 2 >= frame_count);
        (
            FrameAction::Deliver { should_resize, is_final },
            sent_mid_resize || (should_resize && !is_final),
        )
    }
}

/// When, over the steps of an animation, windows that change size are
/// given their final size.
pub struct ResizeSchedule {
    frame_count: u32,
    sent_mid_resize: bool,
}

impl ResizeSchedule {
    /// The number of steps of the animation.
    pub closed spec fn spec_frame_count(&self) -> int {
        self.frame_count as int
    }

    /// Whether a resize before the last step has been sent.
    pub closed spec fn spec_sent_mid_resize(&self) -> bool {
        self.sent_mid_resize
    }

    /// The schedule of an animation of `frame_count` steps, before its
    /// first step.
    pub fn new(frame_count: u32) -> (s: ResizeSchedule)
        ensures
            s.spec_frame_count() == frame_count,
            !s.spec_sent_mid_resize(),
    {
        ResizeSchedule { frame_count, sent_mid_resize: false }
    }

    /// Decides step `frame_idx` (counted from 1); `overdue` says whether its
    /// deadline has already passed.
    pub fn step(&mut self, frame_idx: u32, overdue: bool) -> (a: FrameAction)
        ensures
            (a, final(self).spec_sent_mid_resize()) == spec_frame_step(
                old(self).spec_frame_count(),
                old(self).spec_sent_mid_resize(),
                frame_idx as int,
                overdue,
            ),
            final(self).spec_frame_count() == old(self).spec_frame_count(),
    {
        let is_final = frame_idx == self.frame_count;
        if overdue && !is_final {
            return FrameAction::Skip;
        }
        let should_resize = is_final || (!self.sent_mid_resize && (frame_idx as u64) * 2
            >= self.frame_count as u64);
        if should_resize && !is_final {
            self.sent_mid_resize = true;
        }
        FrameAction::Deliver { should_resize, is_final }
    }
}

/// The number of resizes sent before the last step when steps
/// `frame_idx ..= frame_count` run with the given overdue flags
/// (`overdue[0]` for step `frame_idx`).
pub open spec fn mid_resizes(
    frame_count: int,
    sent_mid_resize: bool,
    frame_idx: int,
    overdue: Seq<bool>,
) -> nat
    decreases overdue.len(),
{
    if overdue.len() == 0 {
        0
    } else {
        let (action, sent) = spec_frame_step(frame_count, sent_mid_resize, frame_idx, overdue[0]);
        let here: nat = match action {
            FrameAction::Deliver { should_resize, is_final } => if should_resize && !is_final {
                1
            } else {
                0
            },
            FrameAction::Skip => 0,
        };
        here + mid_resizes(frame_count, sent, frame_idx + 1, overdue.drop_first())
    }
}

/// Windows are resized at most once before the last step of an animation,
/// however its steps are dropped: no resize happens after one was sent, and
/// none before the last step when one already was.
pub proof fn lemma_at_most_one_mid_resize(
    frame_count: int,
    sent_mid_resize: bool,
    frame_idx: int,
    overdue: Seq<bool>,
)
    ensures
        mid_resizes(frame_count, sent_mid_resize, frame_idx, overdue) <= if sent_mid_resize {
            0nat
        } else {
            1nat
        },
    decreases overdue.len(),
{
    if overdue.len() > 0 {
        let (action, sent) = spec_frame_step(frame_count, sent_mid_resize, frame_idx, overdue[0]);
        lemma_at_most_one_mid_resize(frame_count, sent, frame_idx + 1, overdue.drop_first());
    }
}

/// The last step of an animation is never dropped and always resizes, so
/// every window ends on its full target frame.
pub proof fn lemma_last_step_lands_on_target(frame_count: int, sent_mid_resize: bool, overdue: bool)
    ensures
        spec_frame_step(frame_count, sent_mid_resize, frame_count, overdue).0
            == (FrameAction::Deliver { should_resize: true, is_final: true }),
{
}

proof fn lemma_on_time_steps_resize_once(frame_count: int, frame_idx: int, overdue: Seq<bool>)
    requires
        1 <= frame_idx <= frame_count,
        overdue.len() == frame_count - frame_idx + 1,
        forall|i: int| 0 <= i < overdue.len() ==> !#[trigger] overdue[i],
    ensures
        mid_resizes(frame_count, false, frame_idx, overdue) == if frame_idx < frame_count
            && frame_count >= 2 {
            1nat
        } else {
            0nat
        },
    decreases overdue.len(),
{
    let (action, sent) = spec_frame_step(frame_count, false, frame_idx, overdue[0]);
    assert(!overdue[0]);
    let rest = overdue.drop_first();
    if frame_idx < frame_count {
        assert forall|i: int| 0 <= i < rest.len() implies !#[trigger] rest[i] by {
            assert(rest[i] == overdue[i + 1]);
        }
        if 2 * frame_idx >= frame_count {
            assert(action == FrameAction::Deliver { should_resize: true, is_final: false });
            assert(sent);
            lemma_at_most_one_mid_resize(frame_count, sent, frame_idx + 1, rest);
            assert(mid_resizes(frame_count, false, frame_idx, overdue) == 1 + mid_resizes(
                frame_count,
                sent,
                frame_idx + 1,
                rest,
            ));
        } else {
            assert(action == FrameAction::Deliver { should_resize: false, is_final: false });
            assert(!sent);
            lemma_on_time_steps_resize_once(frame_count, frame_idx + 1, rest);
            assert(mid_resizes(frame_count, false, frame_idx, overdue) == mid_resizes(
                frame_count,
                sent,
                frame_idx + 1,
                rest,
            ));
        }
    } else {
        assert(rest.len() == 0);
        assert(action == FrameAction::Deliver { should_resize: true, is_final: true });
        assert(mid_resizes(frame_count, sent, frame_idx + 1, rest) == 0);
        assert(mid_resizes(frame_count, false, frame_idx, overdue) == mid_resizes(
            frame_count,
            sent,
            frame_idx + 1,
            rest,
        ));
    }
}

/// When no step is overdue, an animation of two or more steps resizes its
/// windows exactly once before its last step (and a one-step animation
/// only in that step).
pub proof fn lemma_on_time_animation_resizes_once_midway(frame_count: int, overdue: Seq<bool>)
    requires
        frame_count >= 1,
        overdue.len() == frame_count,
        forall|i: int| 0 <= i < overdue.len() ==> !#[trigger] overdue[i],
    ensures
        mid_resizes(frame_count, false, 1, overdue) == if frame_count >= 2 {
            1nat
        } else {
            0nat
        },
{
    lemma_on_time_steps_resize_once(frame_count, 1, overdue);
}

/// No step before the middle of an animation resizes, and the first step
/// delivered from the middle on resizes when no resize was sent yet.
pub proof fn lemma_resize_happens_from_the_middle(
    frame_count: int,
    frame_idx: int,
    overdue: bool,
)
    requires
        1 <= frame_idx < frame_count,
    ensures
        2 * frame_idx < frame_count ==> spec_frame_step(frame_count, false, frame_idx, overdue).0
            != (FrameAction::Deliver { should_resize: true, is_final: false }),
        2 * frame_idx >= frame_count && !overdue ==> spec_frame_step(
            frame_count,
            false,
            frame_idx,
            overdue,
        ) == (FrameAction::Deliver { should_resize: true, is_final: false }, true),
        overdue ==> spec_frame_step(frame_count, false, frame_idx, overdue) == (
        FrameAction::Skip,
        false,
        ),
{
}

/// Why a layout frame is or is not applied to a window.
#[derive(Clone, Copy, Debug, PartialEq, Eq, Structural)]
pub enum LayoutFrameCheck {
    /// The window is being dragged.
    Dragged,
    /// The window no longer exists.
    Missing,
    /// The window is already on the frame.
    Unchanged,
    /// The frame has already been requested and not yet reported back.
    AlreadyPending,
    /// The frame is new for the window.
    Changed,
}

/// How a window gets to its new frame.
#[derive(Clone, Copy, Debug, PartialEq, Eq, Structural)]
pub enum WindowAction {
    /// Put on the target in the first step of the animation batch.
    Jump,
    /// Animated from its current frame.
    Animate,
    /// Put on the target directly, outside the animation.
    Direct,
}

/// How a layout pass ends.
#[derive(Clone, Copy, Debug, PartialEq, Eq, Structural)]
pub enum FinishMode {
    /// No window is animated.
    Nothing,
    /// Windows are put on their targets at once.
    SkipToEnd,
    /// The animation runs.
    Run,
}

/// The check of a layout frame `target` for window `wid` whose current
/// frame is `current` (`None` when the window no longer exists) and whose
/// pending requested frame is `pending`.
pub open spec fn spec_check_layout_frame(
    skip_wid: Option<WindowId>,
    wid: WindowId,
    target: Rect,
    current: Option<Rect>,
    pending: Option<Rect>,
) -> LayoutFrameCheck {
    if skip_wid == Some(wid) {
        LayoutFrameCheck::Dragged
    } else if current is None {
        LayoutFrameCheck::Missing
    } else if current == Some(target) {
        LayoutFrameCheck::Unchanged
    } else if pending == Some(target) {
        LayoutFrameCheck::AlreadyPending
    } else {
        LayoutFrameCheck::Changed
    }
}

/// How a window with a changed frame is moved: on a scrolling layout
/// (`scrolling_screen` is its screen), an active window that is mostly off
/// screen at one end and recently failed to raise in time jumps; an active
/// window is animated unless both ends are nearly hidden; every other
/// window is placed directly.
pub open spec fn spec_classify_window(
    is_active: bool,
    scrolling_screen: Option<Rect>,
    current: Rect,
    target: Rect,
    recently_raise_timed_out: bool,
) -> WindowAction {
    let skip_edge = match scrolling_screen {
        Some(screen) => spec_nearly_hidden(current, screen) && spec_nearly_hidden(target, screen),
        None => false,
    };
    let trouble_jump = match scrolling_screen {
        Some(screen) => (spec_mostly_hidden(current, screen) || spec_mostly_hidden(target, screen))
            && recently_raise_timed_out,
        None => false,
    };
    if is_active && trouble_jump {
        WindowAction::Jump
    } else if is_active && !skip_edge {
        WindowAction::Animate
    } else {
        WindowAction::Direct
    }
}

/// How a layout pass that animated `animated_count` windows ends: nothing
/// to run without animated windows; skipped to the end for a resize, when
/// the layout does not animate, or in low power mode; run otherwise.
pub open spec fn spec_finish_mode(
    animated_count: int,
    is_resize: bool,
    layout_animate: bool,
    low_power: bool,
) -> FinishMode {
    if animated_count <= 0 {
        FinishMode::Nothing
    } else if is_resize || !layout_animate || low_power {
        FinishMode::SkipToEnd
    } else {
        FinishMode::Run
    }
}

/// The progress of one animated layout pass.
pub struct LayoutPass {
    pub any_frame_changed: bool,
    pub animated_count: usize,
}

impl LayoutPass {
    /// A pass before its first window.
    pub fn new() -> (p: LayoutPass)
        ensures
            !p.any_frame_changed,
            p.animated_count == 0,
    {
        LayoutPass { any_frame_changed: false, animated_count: 0 }
    }

    /// Records the check of a window's frame: the pass has changed a frame
    /// once a frame is new for some window.
    pub fn record_check(&mut self, check: LayoutFrameCheck)
        ensures
            final(self).any_frame_changed == (old(self).any_frame_changed || check
                == LayoutFrameCheck::Changed),
            final(self).animated_count == old(self).animated_count,
    {
        if check == LayoutFrameCheck::Changed {
            self.any_frame_changed = true;
        }
    }

    /// Records how a window is moved: jumping and animated windows are the
    /// animated ones.
    pub fn record_action(&mut self, action: WindowAction)
        requires
            old(self).animated_count < usize::MAX,
        ensures
            final(self).animated_count == old(self).animated_count + (if action
                == WindowAction::Direct {
                0int
            } else {
                1int
            }),
            final(self).any_frame_changed == old(self).any_frame_changed,
    {
        if action != WindowAction::Direct {
            self.animated_count = self.animated_count + 1;
        }
    }

    /// How the pass ends (see `spec_finish_mode`).
    pub fn finish_mode(&self, is_resize: bool, layout_animate: bool, low_power: bool) -> (m: FinishMode)
        ensures
            m == spec_finish_mode(self.animated_count as int, is_resize, layout_animate, low_power),
    {
        if self.animated_count == 0 {
            FinishMode::Nothing
        } else if is_resize || !layout_animate || low_power {
            FinishMode::SkipToEnd
        } else {
            FinishMode::Run
        }
    }
}

/// The frame check only skips the dragged window itself: it reports
/// `Dragged` exactly for the window with the dragged window's process and
/// index, and for every other window (of another process in particular) it
/// answers as if nothing were dragged.
pub proof fn lemma_only_the_dragged_window_is_skipped(
    skip_wid: Option<WindowId>,
    wid: WindowId,
    target: Rect,
    current: Option<Rect>,
    pending: Option<Rect>,
)
    ensures
        (spec_check_layout_frame(skip_wid, wid, target, current, pending)
            == LayoutFrameCheck::Dragged) <==> (skip_wid matches Some(s) && s.pid == wid.pid
            && s.idx == wid.idx),
        (skip_wid matches Some(s) && (s.pid != wid.pid || s.idx != wid.idx)) ==> spec_check_layout_frame(
            skip_wid,
            wid,
            target,
            current,
            pending,
        ) == spec_check_layout_frame(None, wid, target, current, pending),
{
}

/// Without a dragged window, a frame is applied exactly when the window
/// exists, is not already on it, and it is not already pending.
pub proof fn lemma_changed_frames_are_new(
    wid: WindowId,
    target: Rect,
    current: Option<Rect>,
    pending: Option<Rect>,
)
    ensures
        (spec_check_layout_frame(None, wid, target, current, pending)
            == LayoutFrameCheck::Changed) <==> (current matches Some(c) && c != target && pending
            != Some(target)),
        (spec_check_layout_frame(None, wid, target, current, pending)
            == LayoutFrameCheck::Missing) <==> current is None,
        (spec_check_layout_frame(None, wid, target, current, pending)
            == LayoutFrameCheck::Unchanged) <==> current == Some(target),
        (spec_check_layout_frame(None, wid, target, current, pending)
            == LayoutFrameCheck::AlreadyPending) <==> (current matches Some(c) && c != target
            && pending == Some(target)),
{
}

/// On a scrolling layout, an active window that did not recently time out
/// is placed directly exactly when the move is a hidden-edge move that the
/// scrolling animation skips; otherwise it is animated, never jumped. A
/// window whose start frame is fully on the screen is therefore animated,
/// and one whose start and target are both off the screen is placed
/// directly.
pub proof fn lemma_untroubled_active_windows_animate_unless_hidden(
    screen: Rect,
    current: Rect,
    target: Rect,
)
    ensures
        (spec_classify_window(true, Some(screen), current, target, false) == WindowAction::Direct)
            <==> (spec_nearly_hidden(current, screen) && spec_nearly_hidden(target, screen)),
        spec_classify_window(true, Some(screen), current, target, false) != WindowAction::Jump,
        current.size.width > 0 && screen.origin.x <= current.origin.x && current.origin.x
            + current.size.width <= screen.origin.x + screen.size.width ==> spec_classify_window(
            true,
            Some(screen),
            current,
            target,
            false,
        ) == WindowAction::Animate,
        target.size.width > 0 && screen.origin.x <= target.origin.x && target.origin.x
            + target.size.width <= screen.origin.x + screen.size.width ==> spec_classify_window(
            true,
            Some(screen),
            current,
            target,
            false,
        ) == WindowAction::Animate,
        current.size.width > 0 && target.size.width > 0 && (current.origin.x
            + current.size.width <= screen.origin.x || screen.origin.x + screen.size.width
            <= current.origin.x) && (target.origin.x + target.size.width <= screen.origin.x
            || screen.origin.x + screen.size.width <= target.origin.x) ==> spec_classify_window(
            true,
            Some(screen),
            current,
            target,
            false,
        ) == WindowAction::Direct,
{
}

/// On a scrolling layout, an active window that recently timed out jumps
/// exactly when it starts or ends mostly off the screen; in particular one
/// that starts or ends entirely off the screen jumps. Inactive windows are
/// always placed directly.
pub proof fn lemma_troubled_edge_windows_jump(
    screen: Rect,
    current: Rect,
    target: Rect,
    is_active: bool,
    recently_raise_timed_out: bool,
)
    ensures
        (spec_classify_window(true, Some(screen), current, target, true) == WindowAction::Jump)
            <==> (spec_mostly_hidden(current, screen) || spec_mostly_hidden(target, screen)),
        current.size.width > 0 && (current.origin.x + current.size.width <= screen.origin.x
            || screen.origin.x + screen.size.width <= current.origin.x) ==> spec_classify_window(
            true,
            Some(screen),
            current,
            target,
            true,
        ) == WindowAction::Jump,
        spec_classify_window(false, Some(screen), current, target, recently_raise_timed_out)
            == WindowAction::Direct,
        spec_classify_window(false, None, current, target, recently_raise_timed_out)
            == WindowAction::Direct,
{
}

/// Outside a scrolling layout every active window is animated, and windows
/// that fit on the screen at both ends are animated even when they recently
/// timed out.
pub proof fn lemma_visible_windows_are_animated(
    screen: Rect,
    current: Rect,
    target: Rect,
    recently_raise_timed_out: bool,
)
    ensures
        spec_classify_window(true, None, current, target, recently_raise_timed_out)
            == WindowAction::Animate,
        current.size.width > 0 && screen.origin.x <= current.origin.x && current.origin.x
            + current.size.width <= screen.origin.x + screen.size.width && target.size.width > 0
            && screen.origin.x <= target.origin.x && target.origin.x + target.size.width
            <= screen.origin.x + screen.size.width ==> spec_classify_window(
            true,
            Some(screen),
            current,
            target,
            recently_raise_timed_out,
        ) == WindowAction::Animate,
{
}

/// A pass ends with nothing to do exactly when it animated no window; one
/// animated window is enough, and how many there are does not matter: the
/// animation runs unless the pass is a resize, the layout does not animate,
/// or power is low, in which case it is skipped to its end.
pub proof fn lemma_any_animated_window_is_moved(
    animated_count: int,
    is_resize: bool,
    layout_animate: bool,
    low_power: bool,
)
    requires
        animated_count >= 0,
    ensures
        (spec_finish_mode(animated_count, is_resize, layout_animate, low_power)
            == FinishMode::Nothing) <==> animated_count == 0,
        animated_count >= 1 ==> spec_finish_mode(
            animated_count,
            is_resize,
            layout_animate,
            low_power,
        ) == spec_finish_mode(1, is_resize, layout_animate, low_power),
        (spec_finish_mode(1, is_resize, layout_animate, low_power) == FinishMode::Run) <==> (
        !is_resize && layout_animate && !low_power),
        (spec_finish_mode(1, is_resize, layout_animate, low_power) == FinishMode::SkipToEnd) <==> (
        is_resize || !layout_animate || low_power),
{
}

/// Applies layouts to windows, animated or at once.
pub struct AnimationManager;

impl AnimationManager {
    /// Whether the layout frame `target` is applied to window `wid`: not
    /// while it is dragged (`skip_wid`), not when the window no longer
    /// exists (`current` is `None`), not when it is already on the frame,
    /// and not when the same frame is already pending.
    pub fn check_layout_frame(
        skip_wid: Option<WindowId>,
        wid: WindowId,
        target: Rect,
        current: Option<Rect>,
        pending: Option<Rect>,
    ) -> (c: LayoutFrameCheck)
        ensures
            c == spec_check_layout_frame(skip_wid, wid, target, current, pending),
    {
        let dragged = match skip_wid {
            Some(s) => s == wid,
            None => false,
        };
        if dragged {
            return LayoutFrameCheck::Dragged;
        }
        match current {
            None => LayoutFrameCheck::Missing,
            Some(frame) => {
                if target.same_as(&frame) {
                    LayoutFrameCheck::Unchanged
                } else {
                    let already = match pending {
                        Some(p) => p.same_as(&target),
                        None => false,
                    };
                    if already {
                        LayoutFrameCheck::AlreadyPending
                    } else {
                        LayoutFrameCheck::Changed
                    }
                }
            },
        }
    }

    /// How a window whose frame changed is moved (see
    /// `spec_classify_window`). `recently_raise_timed_out` is only
    /// consulted for a mostly hidden move on a scrolling layout.
    pub fn classify_window(
        is_active: bool,
        scrolling_screen: Option<Rect>,
        current: Rect,
        target: Rect,
        recently_raise_timed_out: bool,
    ) -> (a: WindowAction)
        ensures
            a == spec_classify_window(
                is_active,
                scrolling_screen,
                current,
                target,
                recently_raise_timed_out,
            ),
            a == WindowAction::Jump ==> is_active && recently_raise_timed_out,
            !is_active ==> a == WindowAction::Direct,
    {
        let (skip_edge, trouble_jump) = match scrolling_screen {
            Some(screen) => (
                should_skip_scrolling_animation(current, target, screen),
                edge_transition_needs_jump(current, target, screen) && recently_raise_timed_out,
            ),
            None => (false, false),
        };
        if is_active && trouble_jump {
            WindowAction::Jump
        } else if is_active && !skip_edge {
            WindowAction::Animate
        } else {
            WindowAction::Direct
        }
    }

    /// Groups the frames of an instant layout by application, in the order
    /// of each application's first window, each frame kept in layout order.
    /// The batches carry the default transaction and no positions; the
    /// caller assigns the transaction.
    pub fn instant_layout_batches(frames: &Vec<(WindowId, Rect)>) -> (batches: Vec<FrameBatch>)
        ensures
            is_batching(instant_entries(frames@), batches@),
    {
        let mut entries: Vec<BatchEntry> = Vec::new();
        let mut i: usize = 0;
        while i < frames.len()
            invariant
                0 <= i <= frames.len(),
                entries@ == frames@.take(i as int).map_values(
                    |f: (WindowId, Rect)| instant_entry(f),
                ),
            decreases frames.len() - i,
        {
            let (wid, rect) = frames[i];
            entries.push(BatchEntry { wid, txid: TransactionId(0), placement: Placement::Frame(rect) });
            assert(frames@.take(i + 1) =~= frames@.take(i as int).push(frames@[i as int]));
            assert(entries@ =~= frames@.take(i + 1).map_values(
                |f: (WindowId, Rect)| instant_entry(f),
            ));
            i += 1;
        }
        assert(frames@.take(frames.len() as int) =~= frames@);
        batch_by_pid(&entries)
    }
}

/// The request of an instant layout for one window: its whole frame, under
/// the default transaction.
pub open spec fn instant_entry(f: (WindowId, Rect)) -> BatchEntry {
    BatchEntry { wid: f.0, txid: TransactionId(0), placement: Placement::Frame(f.1) }
}

/// The requests of an instant layout, in layout order.
pub open spec fn instant_entries(frames: Seq<(WindowId, Rect)>) -> Seq<BatchEntry> {
    frames.map_values(|f: (WindowId, Rect)| instant_entry(f))
}

} // verus!
