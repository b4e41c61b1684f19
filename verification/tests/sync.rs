use ferrum_graph::sync::{
    AcquireOutcome, FatalSyncError, FrameDirective, FramePhase, FrameSync, FrameSyncSet,
    PresentOutcome,
};

fn three_slots() -> Vec<FrameSync> {
    vec![
        FrameSync { fence: 10, image_available: 20, render_finished: 30 },
        FrameSync { fence: 11, image_available: 21, render_finished: 31 },
        FrameSync { fence: 12, image_available: 22, render_finished: 32 },
    ]
}

fn run_one_frame(set: &mut FrameSyncSet, image: u32) {
    set.begin_frame(true).unwrap();
    match set.handle_acquire(AcquireOutcome::Success { image }) {
        FrameDirective::Proceed { image: got } => assert_eq!(got, image),
        FrameDirective::RecreateSwapchain => panic!("unexpected recreate"),
    }
    set.submitted();
    let recreate = set.handle_present(PresentOutcome::Success);
    assert!(!recreate);
}

/// With three sync slots, seven executed frames see the current-frame
/// counter run 0, 1, 2, 0, 1, 2, 0: each slot is reused every third frame,
/// with its fence waited once per reuse.
#[test]
fn seven_frames_cycle_through_three_slots() {
    let mut set = FrameSyncSet::new(three_slots());
    let mut seen = Vec::new();
    for frame in 0..7u32 {
        seen.push(set.current_frame());
        run_one_frame(&mut set, frame % 3);
    }
    assert_eq!(seen, vec![0, 1, 2, 0, 1, 2, 0]);
    assert_eq!(set.current_frame(), 1);
}

#[test]
fn submit_uses_current_slot_handles() {
    let mut set = FrameSyncSet::new(three_slots());
    set.begin_frame(true).unwrap();
    set.handle_acquire(AcquireOutcome::Success { image: 0 });
    let (image_available, render_finished, fence) = set.submit_handles();
    assert_eq!(image_available, 20);
    assert_eq!(render_finished, 30);
    assert_eq!(fence, 10);
    set.submitted();
    assert_eq!(set.current_image(), 0);
    set.handle_present(PresentOutcome::Success);
    // The next frame uses the next slot's handles.
    set.begin_frame(true).unwrap();
    set.handle_acquire(AcquireOutcome::Success { image: 1 });
    let (image_available, render_finished, fence) = set.submit_handles();
    assert_eq!(image_available, 21);
    assert_eq!(render_finished, 31);
    assert_eq!(fence, 11);
}

/// An out-of-date acquire demands swapchain recreation; after the caller
/// drains the device and rebuilds, pacing starts over.
#[test]
fn out_of_date_acquire_triggers_recreation() {
    let mut set = FrameSyncSet::new(three_slots());
    run_one_frame(&mut set, 0);
    set.begin_frame(true).unwrap();
    let d = set.handle_acquire(AcquireOutcome::OutOfDate);
    assert_eq!(d, FrameDirective::RecreateSwapchain);
    assert_eq!(set.phase(), FramePhase::NeedsRecreate);
    set.recreated(three_slots());
    assert_eq!(set.current_frame(), 0);
    assert_eq!(set.phase(), FramePhase::Idle);
    run_one_frame(&mut set, 0);
    assert_eq!(set.current_frame(), 1);
}

/// A suboptimal acquire is recoverable but must also trigger recreation.
#[test]
fn suboptimal_acquire_triggers_recreation() {
    let mut set = FrameSyncSet::new(three_slots());
    set.begin_frame(true).unwrap();
    let d = set.handle_acquire(AcquireOutcome::Suboptimal { image: 0 });
    assert_eq!(d, FrameDirective::RecreateSwapchain);
    assert_eq!(set.phase(), FramePhase::NeedsRecreate);
}

/// A suboptimal or out-of-date present triggers recreation as well.
#[test]
fn out_of_date_present_triggers_recreation() {
    let mut set = FrameSyncSet::new(three_slots());
    set.begin_frame(true).unwrap();
    set.handle_acquire(AcquireOutcome::Success { image: 0 });
    set.submitted();
    let recreate = set.handle_present(PresentOutcome::OutOfDate);
    assert!(recreate);
    assert_eq!(set.phase(), FramePhase::NeedsRecreate);
}

/// A failed fence wait is fatal: the device is lost.
#[test]
fn failed_fence_wait_is_fatal() {
    let mut set = FrameSyncSet::new(three_slots());
    let r = set.begin_frame(false);
    assert_eq!(r, Err(FatalSyncError::DeviceLost));
    assert_eq!(set.phase(), FramePhase::Lost);
}

#[test]
fn single_slot_set_stays_on_slot_zero() {
    let mut set = FrameSyncSet::new(vec![FrameSync {
        fence: 1,
        image_available: 2,
        render_finished: 3,
    }]);
    for _ in 0..3 {
        assert_eq!(set.current_frame(), 0);
        run_one_frame(&mut set, 0);
    }
}
