use vstd::prelude::*;
use std::time::{Duration, Instant};

verus! {

#[verifier::external_type_specification]
#[verifier::external_body]
pub struct ExInstant(Instant);

/// Calls `Instant::now`: reads the monotonic clock, so nothing is stated about the value.
#[verifier::external_body]
fn instant_now() -> Instant {
    Instant::now()
}

/// Calls `Instant::elapsed`: the time since `start`. It depends on the clock, so nothing is
/// stated about it.
#[verifier::external_body]
fn elapsed_since(start: &Instant) -> Duration {
    start.elapsed()
}

/// Calls `Duration::as_millis`: the whole milliseconds of `d`. `Duration` is opaque here, so
/// nothing is stated about the value.
#[verifier::external_body]
fn whole_millis(d: &Duration) -> u128 {
    d.as_millis()
}

/// Calls `Duration::as_secs`: the whole seconds of `d`. `Duration` is opaque here, so nothing is
/// stated about the value.
#[verifier::external_body]
fn whole_secs(d: &Duration) -> u64 {
    d.as_secs()
}

/// The whole milliseconds since `start`.
fn millis_since(start: &Instant) -> u128 {
    let d = elapsed_since(start);
    whole_millis(&d)
}

/// The whole seconds since `start`.
fn secs_since(start: &Instant) -> u64 {
    let d = elapsed_since(start);
    whole_secs(&d)
}

/// A way to track the passage of real time.
#[derive(Clone, Copy)]
pub struct Timer {
    start_time: Instant,
    is_running: bool,
    /// Every start instant the timer has taken from the clock, the current one last.
    starts: Ghost<Seq<Instant>>,
}

impl Timer {
    /// The current start instant is the last one taken from the clock.
    #[verifier::type_invariant]
    spec fn starts_end_with_start(&self) -> bool {
        &&& self.starts@.len() > 0
        &&& self.starts@.last() == self.start_time
    }

    /// Whether the timer runs, as seen by specifications.
    pub closed spec fn spec_is_running(&self) -> bool {
        self.is_running
    }

    /// How many start instants the timer has taken from the clock: each begins a new timing
    /// period, from which elapsed time is read.
    pub closed spec fn spec_start_count(&self) -> nat {
        self.starts@.len()
    }

    /// `self` is `before` started: a stopped timer takes a new start instant and runs, a running
    /// one is left as it was.
    pub open spec fn is_start_of(&self, before: Timer) -> bool {
        &&& self.spec_is_running()
        &&& before.spec_is_running() ==> *self == before
        &&& !before.spec_is_running() ==> self.spec_start_count() == before.spec_start_count() + 1
    }

    /// `self` is `before` restarted: it takes a new start instant and runs, whatever state it was
    /// in.
    pub open spec fn is_restart_of(&self, before: Timer) -> bool {
        &&& self.spec_is_running()
        &&& self.spec_start_count() == before.spec_start_count() + 1
    }

    /// Creates a new `Timer` instance that isn't started. A `Timer` must be started before it
    /// gives any readings on elapsed time.
    pub fn new() -> (r: Self)
        ensures
            !r.spec_is_running(),
            r.spec_start_count() == 1,
    {
        let now = instant_now();
        Self { start_time: now, is_running: false, starts: Ghost(Seq::empty().push(now)) }
    }

    /// Creates a new `Timer` and starts it.
    pub fn start_new() -> (r: Self)
        ensures
            r.spec_is_running(),
            r.spec_start_count() == 1,
    {
        let now = instant_now();
        Self { start_time: now, is_running: true, starts: Ghost(Seq::empty().push(now)) }
    }

    /// Takes a new start instant from the clock and runs.
    fn run_from_now(&mut self)
        ensures
            final(self).is_restart_of(*old(self)),
    {
        let now = instant_now();
        *self = Timer { start_time: now, is_running: true, starts: Ghost(self.starts@.push(now)) };
    }

    /// Starts the timer from now. Starting a timer that is already running has no effect.
    pub fn start(&mut self)
        ensures
            final(self).spec_is_running(),
            old(self).spec_is_running() ==> *final(self) == *old(self),
            final(self).is_start_of(*old(self)),
    {
        if !self.is_running {
            self.run_from_now();
        }
    }

    /// Stops the timer. Elapsed readings are 0 until it is started again.
    pub fn stop(&mut self)
        ensures
            !final(self).spec_is_running(),
            final(self).spec_start_count() == old(self).spec_start_count(),
    {
        proof {
            use_type_invariant(&*self);
        }
        *self = Timer { start_time: self.start_time, is_running: false, starts: self.starts };
    }

    /// Resets the timer such that its elapsed time at the moment of this call would be 0. The
    /// timer runs after this call.
    pub fn restart(&mut self)
        ensures
            final(self).spec_is_running(),
            final(self).is_restart_of(*old(self)),
    {
        self.run_from_now();
    }

    /// Whole seconds since the timer was (re)started; 0 when it is not running.
    pub fn elapsed_seconds(&self) -> (r: u64)
        ensures
            !self.spec_is_running() ==> r == 0,
    {
        if self.is_running {
            secs_since(&self.start_time)
        } else {
            0
        }
    }

    /// Whole milliseconds since the timer was (re)started; 0 when it is not running.
    pub fn elapsed_millis(&self) -> (r: u128)
        ensures
            !self.spec_is_running() ==> r == 0,
    {
        if self.is_running {
            millis_since(&self.start_time)
        } else {
            0
        }
    }

    /// Whether the timer is currently running. A Timer must be running to report on elapsed
    /// time.
    pub fn is_running(&self) -> (r: bool)
        ensures
            r == self.spec_is_running(),
    {
        self.is_running
    }
}

/// Tracks the time between frames.
#[derive(Clone, Copy)]
pub struct Time {
    last_frame_time: Instant,
    /// Every frame start taken from the clock, the current one last.
    frame_starts: Ghost<Seq<Instant>>,
}

impl Time {
    /// The current frame start is the last one taken from the clock.
    #[verifier::type_invariant]
    spec fn frame_starts_end_with_last(&self) -> bool {
        &&& self.frame_starts@.len() > 0
        &&& self.frame_starts@.last() == self.last_frame_time
    }

    /// How many frame starts have been taken from the clock: one at creation and one per update.
    pub closed spec fn spec_frame_count(&self) -> nat {
        self.frame_starts@.len()
    }

    pub fn new() -> (r: Self)
        ensures
            r.spec_frame_count() == 1,
    {
        let now = instant_now();
        Time { last_frame_time: now, frame_starts: Ghost(Seq::empty().push(now)) }
    }

    /// The time in milliseconds that's passed since the last update.
    pub fn delta_time(&self) -> u128 {
        millis_since(&self.last_frame_time)
    }

    /// Marks the start of a new frame: delta time is read from now on.
    pub fn update(&mut self)
        ensures
            final(self).spec_frame_count() == old(self).spec_frame_count() + 1,
    {
        let now = instant_now();
        *self = Time { last_frame_time: now, frame_starts: Ghost(self.frame_starts@.push(now)) };
    }
}

/// Restarting always begins a new timing period from a new start instant, also on a running
/// timer, which starting again leaves as it was.
pub proof fn lemma_restart_begins_new_period(t: Timer, started: Timer, restarted: Timer)
    requires
        t.spec_is_running(),
        started.is_start_of(t),
        restarted.is_restart_of(t),
    ensures
        started == t,
        restarted.spec_start_count() == t.spec_start_count() + 1,
        restarted != t,
{
}

} // verus!
