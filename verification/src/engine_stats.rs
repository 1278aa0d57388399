use vstd::prelude::*;
use std::collections::VecDeque;

use crate::time::Timer;

verus! {

broadcast use vstd::std_specs::vecdeque::group_vec_dequeue_axioms;

/// How many one-second frame counts the frame rate is averaged over.
pub const NUM_POLLED_SECONDS_FOR_FRAMERATE: u8 = 10;

/// Stats tracked by the engine to report on its performance.
pub struct EngineStats {
    pub fps: u64,
    pub frame_timer: Timer,
    pub frame_counter: u64,
    pub frame_counts: VecDeque<u64>,
}

impl EngineStats {
    /// Both hold the same values.
    pub open spec fn same_stats(&self, other: &EngineStats) -> bool {
        &&& self.fps == other.fps
        &&& self.frame_timer == other.frame_timer
        &&& self.frame_counter == other.frame_counter
        &&& self.frame_counts@ == other.frame_counts@
    }
}

impl Clone for EngineStats {
    fn clone(&self) -> (r: Self)
        ensures
            self.same_stats(&r),
    {
        let mut counts: VecDeque<u64> = VecDeque::new();
        let mut i: usize = 0;
        while i < self.frame_counts.len()
            invariant
                i <= self.frame_counts.len(),
                counts@ == self.frame_counts@.take(i as int),
            decreases self.frame_counts.len() - i,
        {
            counts.push_back(self.frame_counts[i]);
            i += 1;
            assert(counts@ =~= self.frame_counts@.take(i as int));
        }
        assert(counts@ =~= self.frame_counts@);
        EngineStats {
            fps: self.fps,
            frame_timer: self.frame_timer,
            frame_counter: self.frame_counter,
            frame_counts: counts,
        }
    }
}

} // verus!
