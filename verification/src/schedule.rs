//! What the dashboard does on each frame it draws: move its window onto the
//! HUD for the first few frames, re-read the sensors once a second, and close
//! on Escape.
use vstd::prelude::*;

verus! {

/// How many frames try to move the window onto the HUD monitor.
pub const PLACE_ATTEMPTS: u32 = 5;

/// The sensors are read again once this many nanoseconds (one second) have
/// passed since the last reading.
pub const POLL_INTERVAL_NS: u64 = 1_000_000_000;

/// The window asks to be redrawn this many milliseconds after each frame.
pub const REPAINT_AFTER_MS: u64 = 500;

/// What happened since the last frame.
pub struct FrameEvent {
    /// Nanoseconds since the dashboard started.
    pub now_ns: u64,
    /// The Escape key was pressed.
    pub escape_pressed: bool,
}

/// What the frame must do.
pub struct FrameActions {
    /// Close the window.
    pub close: bool,
    /// Move the window onto the HUD monitor, to this physical
    /// `(x, y, w, h)`.
    pub place_at: Option<(i32, i32, i32, i32)>,
    /// Read the sensors again.
    pub poll: bool,
}

/// The decisions carried from frame to frame.
pub struct FrameSchedule {
    place_attempts: u32,
    last_poll_ns: u64,
    hud: (i32, i32, i32, i32),
}

impl FrameSchedule {
    /// How many frames have moved the window so far.
    pub closed spec fn attempts(&self) -> nat {
        self.place_attempts as nat
    }

    /// When the sensors were last read, in ns since the start.
    pub closed spec fn last_poll(&self) -> nat {
        self.last_poll_ns as nat
    }

    /// Where the window goes: the HUD monitor's physical `(x, y, w, h)`.
    pub closed spec fn hud(&self) -> (i32, i32, i32, i32) {
        self.hud
    }

    /// The frame counter never passes the number of attempts.
    pub open spec fn wf(&self) -> bool {
        self.attempts() <= PLACE_ATTEMPTS
    }

    /// The schedule of a dashboard on the HUD monitor at `hud` whose
    /// sensors were first read at `polled_ns`.
    pub fn new(polled_ns: u64, hud: (i32, i32, i32, i32)) -> (s: FrameSchedule)
        ensures
            s.wf(),
            s.attempts() == 0,
            s.last_poll() == polled_ns,
            s.hud() == hud,
    {
        FrameSchedule { place_attempts: 0, last_poll_ns: polled_ns, hud }
    }

    /// Decides what the frame does: the window is moved while fewer than
    /// `PLACE_ATTEMPTS` frames have moved it, and the sensors are read when
    /// at least `POLL_INTERVAL_NS` have passed since the last reading.
    pub fn on_frame(&mut self, ev: &FrameEvent) -> (act: FrameActions)
        requires
            old(self).wf(),
        ensures
            final(self).wf(),
            act.close == ev.escape_pressed,
            act.place_at == if old(self).attempts() < PLACE_ATTEMPTS { Some(old(self).hud()) } else { None },
            final(self).hud() == old(self).hud(),
            final(self).attempts() == next_attempts(old(self).attempts()),
            act.poll == (ev.now_ns >= old(self).last_poll() + POLL_INTERVAL_NS),
            final(self).last_poll() == old(self).last_poll(),
    {
        let place_at = if self.place_attempts < PLACE_ATTEMPTS {
            self.place_attempts = self.place_attempts + 1;
            Some(self.hud)
        } else {
            None
        };
        let poll = ev.now_ns >= self.last_poll_ns && ev.now_ns - self.last_poll_ns >= POLL_INTERVAL_NS;
        FrameActions { close: ev.escape_pressed, place_at, poll }
    }

    /// Records that the sensors were read at `at_ns`.
    pub fn mark_polled(&mut self, at_ns: u64)
        ensures
            final(self).attempts() == old(self).attempts(),
            final(self).last_poll() == at_ns,
            final(self).hud() == old(self).hud(),
    {
        self.last_poll_ns = at_ns;
    }
}


/// The frame counter after a frame that started at `a`.
pub open spec fn next_attempts(a: nat) -> nat {
    if a < PLACE_ATTEMPTS { a + 1 } else { a }
}

/// How many of `n` frames move the window, starting from `a` earlier moves.
pub open spec fn placements(a: nat, n: nat) -> nat
    decreases n,
{
    if n == 0 {
        0
    } else {
        (if a < PLACE_ATTEMPTS { 1nat } else { 0nat }) + placements(next_attempts(a), (n - 1) as nat)
    }
}

/// The frame counter after `n` frames, starting from `a` earlier moves.
pub open spec fn attempts_after(a: nat, n: nat) -> nat
    decreases n,
{
    if n == 0 {
        a
    } else {
        next_attempts(attempts_after(a, (n - 1) as nat))
    }
}

/// From a new schedule, frame number `n` (counting from 0) moves the window
/// exactly when `n` is below `PLACE_ATTEMPTS`: the window is moved on each
/// of the first five frames and never after.
pub proof fn lemma_frame_places(n: nat)
    ensures
        attempts_after(0, n) == if n < PLACE_ATTEMPTS { n } else { PLACE_ATTEMPTS as nat },
        (attempts_after(0, n) < PLACE_ATTEMPTS) == (n < PLACE_ATTEMPTS),
    decreases n,
{
    if n > 0 {
        lemma_frame_places((n - 1) as nat);
    }
}

/// However many frames are drawn, the window is moved on the first
/// `PLACE_ATTEMPTS` of them and never again.
pub proof fn lemma_placements_bounded(a: nat, n: nat)
    requires
        a <= PLACE_ATTEMPTS,
    ensures
        placements(a, n) == if n + a <= PLACE_ATTEMPTS { n } else { (PLACE_ATTEMPTS - a) as nat },
    decreases n,
{
    if n > 0 {
        lemma_placements_bounded(next_attempts(a), (n - 1) as nat);
    }
}

} // verus!
