//! Frame pacing: one synchronization slot per frame in flight, and the
//! state machine that drives the acquire → execute → submit → present cycle.
//!
//! The device calls themselves (fence waits, image acquisition, queue
//! submission, presentation) are the caller's: this module decides which
//! slot's fence and semaphores each step must use, enforces the order of the
//! steps, reacts to each outcome (an out-of-date or suboptimal swapchain
//! triggers recreation, a failed fence wait is fatal), and advances the
//! frame counter modulo the slot count, which bounds how far the processor
//! may run ahead of the device.

use vstd::prelude::*;
use vstd::arithmetic::div_mod::lemma_add_mod_noop;

verus! {

/// One frame-in-flight slot: a fence (device-to-host completion signal) and
/// the two semaphores of the frame, as raw device handles.
#[derive(Clone, Copy, PartialEq, Eq, Structural, Debug)]
pub struct FrameSync {
    pub fence: u64,
    pub image_available: u64,
    pub render_finished: u64,
}

/// Where in the per-frame protocol the set stands.
#[derive(Clone, Copy, PartialEq, Eq, Structural, Debug)]
pub enum FramePhase {
    /// Between frames: the next step is waiting on the current slot's fence.
    Idle,
    /// The current slot's fence was waited on and reset.
    Waited,
    /// A swapchain image was acquired for this frame.
    Acquired { image: u32 },
    /// The frame's work was submitted, signalling the fence.
    Submitted { image: u32 },
    /// The swapchain must be recreated before any further frame.
    NeedsRecreate,
    /// The device was lost; no further frame is possible.
    Lost,
}

/// What image acquisition reported.
#[derive(Clone, Copy, PartialEq, Eq, Structural, Debug)]
pub enum AcquireOutcome {
    Success { image: u32 },
    Suboptimal { image: u32 },
    OutOfDate,
}

/// What presentation reported.
#[derive(Clone, Copy, PartialEq, Eq, Structural, Debug)]
pub enum PresentOutcome {
    Success,
    Suboptimal,
    OutOfDate,
}

/// What the caller must do next after an acquire.
#[derive(Clone, Copy, PartialEq, Eq, Structural, Debug)]
pub enum FrameDirective {
    /// Execute and submit against this image index.
    Proceed { image: u32 },
    /// Wait for the device to go idle, then rebuild the swapchain and its
    /// sync set.
    RecreateSwapchain,
}

/// A fatal pacing failure.
#[derive(Clone, Copy, PartialEq, Eq, Structural, Debug)]
pub enum FatalSyncError {
    /// A fence wait failed: the device is lost.
    DeviceLost,
}

/// One synchronization slot per swapchain image, a current-frame counter
/// advancing modulo the slot count, and the protocol phase.
pub struct FrameSyncSet {
    slots: Vec<FrameSync>,
    current: usize,
    phase: FramePhase,
    completed: Ghost<nat>,
    waits: Ghost<Seq<int>>,
}

impl FrameSyncSet {
    pub closed spec fn spec_slots(&self) -> Seq<FrameSync> {
        self.slots@
    }

    pub closed spec fn spec_current(&self) -> int {
        self.current as int
    }

    pub closed spec fn spec_phase(&self) -> FramePhase {
        self.phase
    }

    /// How many frames have fully completed (presented) on this set.
    pub closed spec fn spec_completed(&self) -> nat {
        self.completed@
    }

    /// The slot indices whose fences were waited on, in order.
    pub closed spec fn spec_waits(&self) -> Seq<int> {
        self.waits@
    }

    pub open spec fn n(&self) -> int {
        self.spec_slots().len() as int
    }

    /// The pacing invariant.  In particular the wait log is forced to the
    /// round-robin pattern: the j-th wait ever performed was on slot
    /// `j % n`, so each slot's fence is waited on exactly once before each
    /// reuse of the slot.
    pub open spec fn inv(&self) -> bool {
        &&& self.n() >= 1
        &&& self.spec_current() < self.n()
        &&& forall|j: int|
            0 <= j < self.spec_waits().len() ==> #[trigger] self.spec_waits()[j] == j % self.n()
        &&& match self.spec_phase() {
            FramePhase::Idle => self.spec_current() == (self.spec_completed() as int) % self.n()
                && self.spec_waits().len() == self.spec_completed(),
            FramePhase::Waited | FramePhase::Acquired { .. } | FramePhase::Submitted { .. } => {
                &&& self.spec_current() == (self.spec_completed() as int) % self.n()
                &&& self.spec_waits().len() == self.spec_completed() + 1
            },
            FramePhase::NeedsRecreate | FramePhase::Lost => true,
        }
    }

    /// A fresh set over the given slots (one per swapchain image).
    pub fn new(slots: Vec<FrameSync>) -> (s: FrameSyncSet)
        requires
            slots@.len() >= 1,
        ensures
            s.inv(),
            s.spec_slots() == slots@,
            s.spec_current() == 0,
            s.spec_phase() == FramePhase::Idle,
            s.spec_completed() == 0,
            s.spec_waits() == Seq::<int>::empty(),
    {
        let s = FrameSyncSet {
            slots,
            current: 0,
            phase: FramePhase::Idle,
            completed: Ghost(0),
            waits: Ghost(Seq::empty()),
        };
        proof {
            assert(0int % s.n() == 0) by (nonlinear_arith)
                requires
                    s.n() >= 1,
            ;
        }
        s
    }

    /// The monotonically advancing frame counter, modulo the slot count.
    pub fn current_frame(&self) -> (c: usize)
        ensures
            c == self.spec_current(),
    {
        self.current
    }

    pub fn slot_count(&self) -> (n: usize)
        ensures
            n == self.n(),
    {
        self.slots.len()
    }

    pub fn phase(&self) -> (p: FramePhase)
        ensures
            p == self.spec_phase(),
    {
        self.phase
    }

    /// The slot whose fence and semaphores this frame must use.
    pub fn current_slot(&self) -> (slot: &FrameSync)
        requires
            self.inv(),
        ensures
            *slot == self.spec_slots()[self.spec_current()],
    {
        &self.slots[self.current]
    }

    /// Step 1 of the protocol: the caller waited (and reset) the current
    /// slot's fence; `wait_ok` reports whether the wait succeeded.  A failed
    /// fence wait is fatal (device lost), never silently continued.
    pub fn begin_frame(&mut self, wait_ok: bool) -> (r: Result<(), FatalSyncError>)
        requires
            old(self).inv(),
            old(self).spec_phase() == FramePhase::Idle,
        ensures
            final(self).inv(),
            final(self).spec_slots() == old(self).spec_slots(),
            final(self).spec_current() == old(self).spec_current(),
            final(self).spec_completed() == old(self).spec_completed(),
            wait_ok ==> r == Result::<(), FatalSyncError>::Ok(()) && final(self).spec_phase()
                == FramePhase::Waited && final(self).spec_waits() == old(self).spec_waits().push(
                old(self).spec_current(),
            ),
            !wait_ok ==> r == Result::<(), FatalSyncError>::Err(FatalSyncError::DeviceLost)
                && final(self).spec_phase() == FramePhase::Lost && final(self).spec_waits() == old(
                self,
            ).spec_waits(),
    {
        if wait_ok {
            self.phase = FramePhase::Waited;
            proof {
                self.waits@ = self.waits@.push(self.current as int);
            }
            Ok(())
        } else {
            self.phase = FramePhase::Lost;
            Err(FatalSyncError::DeviceLost)
        }
    }

    /// Step 2: react to image acquisition.  An out-of-date or suboptimal
    /// swapchain triggers recreation rather than proceeding.
    pub fn handle_acquire(&mut self, outcome: AcquireOutcome) -> (d: FrameDirective)
        requires
            old(self).inv(),
            old(self).spec_phase() == FramePhase::Waited,
        ensures
            final(self).inv(),
            final(self).spec_slots() == old(self).spec_slots(),
            final(self).spec_current() == old(self).spec_current(),
            final(self).spec_completed() == old(self).spec_completed(),
            final(self).spec_waits() == old(self).spec_waits(),
            match outcome {
                AcquireOutcome::Success { image } => d == (FrameDirective::Proceed { image })
                    && final(self).spec_phase() == (FramePhase::Acquired { image }),
                AcquireOutcome::Suboptimal { .. } | AcquireOutcome::OutOfDate => d
                    == FrameDirective::RecreateSwapchain && final(self).spec_phase()
                    == FramePhase::NeedsRecreate,
            },
    {
        match outcome {
            AcquireOutcome::Success { image } => {
                self.phase = FramePhase::Acquired { image };
                FrameDirective::Proceed { image }
            },
            AcquireOutcome::Suboptimal { .. } | AcquireOutcome::OutOfDate => {
                self.phase = FramePhase::NeedsRecreate;
                FrameDirective::RecreateSwapchain
            },
        }
    }

    /// Step 4's wiring: the submission must wait on the current slot's
    /// image-available semaphore, signal its render-finished semaphore, and
    /// signal its fence.
    pub fn submit_handles(&self) -> (h: (u64, u64, u64))
        requires
            self.inv(),
            self.spec_phase() is Acquired,
        ensures
            h.0 == self.spec_slots()[self.spec_current()].image_available,
            h.1 == self.spec_slots()[self.spec_current()].render_finished,
            h.2 == self.spec_slots()[self.spec_current()].fence,
    {
        let slot = &self.slots[self.current];
        (slot.image_available, slot.render_finished, slot.fence)
    }

    /// The image index this frame acquired.
    pub fn current_image(&self) -> (image: u32)
        requires
            self.spec_phase() is Acquired || self.spec_phase() is Submitted,
        ensures
            self.spec_phase() matches FramePhase::Acquired { image: im } ==> image == im,
            self.spec_phase() matches FramePhase::Submitted { image: im } ==> image == im,
    {
        match self.phase {
            FramePhase::Acquired { image } => image,
            FramePhase::Submitted { image } => image,
            _ => vstd::pervasive::unreached(),
        }
    }

    /// Step 4: the frame's command buffers were submitted.
    pub fn submitted(&mut self)
        requires
            old(self).inv(),
            old(self).spec_phase() is Acquired,
        ensures
            final(self).inv(),
            final(self).spec_slots() == old(self).spec_slots(),
            final(self).spec_current() == old(self).spec_current(),
            final(self).spec_completed() == old(self).spec_completed(),
            final(self).spec_waits() == old(self).spec_waits(),
            final(self).spec_phase() == (FramePhase::Submitted {
                image: old(self).spec_phase()->Acquired_image,
            }),
    {
        let image = self.current_image();
        self.phase = FramePhase::Submitted { image };
    }

    /// Steps 5 and 6: react to presentation; on success the frame counter
    /// advances modulo the slot count.
    pub fn handle_present(&mut self, outcome: PresentOutcome) -> (recreate: bool)
        requires
            old(self).inv(),
            old(self).spec_phase() is Submitted,
        ensures
            final(self).inv(),
            final(self).spec_slots() == old(self).spec_slots(),
            final(self).spec_waits() == old(self).spec_waits(),
            outcome == PresentOutcome::Success ==> {
                &&& !recreate
                &&& final(self).spec_phase() == FramePhase::Idle
                &&& final(self).spec_completed() == old(self).spec_completed() + 1
                &&& final(self).spec_current() == (old(self).spec_current() + 1) % old(self).n()
            },
            outcome != PresentOutcome::Success ==> recreate && final(self).spec_phase()
                == FramePhase::NeedsRecreate && final(self).spec_completed() == old(
                self,
            ).spec_completed(),
    {
        match outcome {
            PresentOutcome::Success => {
                let n = self.slots.len();
                let ghost c = self.completed@;
                self.current = (self.current + 1) % n;
                self.phase = FramePhase::Idle;
                proof {
                    self.completed@ = self.completed@ + 1;
                    let ni = n as int;
                    let ci = c as int;
                    lemma_add_mod_noop(ci, 1, ni);
                    if ni == 1 {
                        assert((ci % ni + 1) % ni == 0) by (nonlinear_arith)
                            requires
                                ni == 1,
                        ;
                        assert((ci + 1) % ni == 0) by (nonlinear_arith)
                            requires
                                ni == 1,
                        ;
                    } else {
                        assert(1int % ni == 1) by (nonlinear_arith)
                            requires
                                ni >= 2,
                        ;
                    }
                }
                false
            },
            PresentOutcome::Suboptimal | PresentOutcome::OutOfDate => {
                self.phase = FramePhase::NeedsRecreate;
                true
            },
        }
    }

    /// Swapchain recreation: after the caller drained the device (waited
    /// for it to go idle) and rebuilt the swapchain, install the new sync
    /// set.  Recreation is only possible between frames or after a
    /// recreation request — never with a frame in flight.
    pub fn recreated(&mut self, slots: Vec<FrameSync>)
        requires
            old(self).inv(),
            old(self).spec_phase() == FramePhase::Idle || old(self).spec_phase()
                == FramePhase::NeedsRecreate,
            slots@.len() >= 1,
        ensures
            final(self).inv(),
            final(self).spec_slots() == slots@,
            final(self).spec_current() == 0,
            final(self).spec_phase() == FramePhase::Idle,
            final(self).spec_completed() == 0,
            final(self).spec_waits() == Seq::<int>::empty(),
    {
        self.slots = slots;
        self.current = 0;
        self.phase = FramePhase::Idle;
        proof {
            self.completed@ = 0;
            self.waits@ = Seq::empty();
            assert(0int % self.n() == 0) by (nonlinear_arith)
                requires
                    self.n() >= 1,
            ;
        }
    }
}

/// Pacing law: the j-th fence wait this set ever performed was on slot
/// `j % n`.  Slot `s` is therefore waited on exactly at waits `s`,
/// `s + n`, `s + 2n`, …: exactly once before each reuse of the slot.
pub proof fn lemma_wait_round_robin(s: &FrameSyncSet)
    requires
        s.inv(),
    ensures
        forall|j: int| 0 <= j < s.spec_waits().len() ==> #[trigger] s.spec_waits()[j] == j % s.n(),
{
}

/// Pacing law: between frames, the current-frame counter equals the number
/// of completed frames modulo the slot count, so the counter cycles
/// `0, 1, …, n-1, 0, …` as frames complete.
pub proof fn lemma_current_frame_cycles(s: &FrameSyncSet)
    requires
        s.inv(),
        s.spec_phase() == FramePhase::Idle,
    ensures
        s.spec_current() == s.spec_completed() % (s.n() as nat),
{
}

} // verus!
