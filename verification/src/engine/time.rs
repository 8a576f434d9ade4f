use std::collections::VecDeque;

use vstd::prelude::*;

verus! {

/// The frame rates of the most recent frames, at most `frames_count` of them
/// once the window has filled.
pub struct FrameHistory {
    pub frames: VecDeque<i32>,
    pub frames_count: usize,
}

pub open spec fn seq_sum(s: Seq<i32>) -> int
    decreases s.len(),
{
    if s.len() == 0 {
        0
    } else {
        seq_sum(s.drop_last()) + s.last()
    }
}

/// Every running total of `s`, from the left, fits in an `i32`.
pub open spec fn prefix_sums_fit(s: Seq<i32>) -> bool {
    forall|k: int| 0 <= k <= s.len() ==> i32::MIN <= #[trigger] seq_sum(s.take(k)) <= i32::MAX
}

/// Integer division rounding toward zero, as Rust divides.
pub open spec fn div_toward_zero(a: int, b: int) -> int {
    if a >= 0 {
        a / b
    } else {
        -((-a) / b)
    }
}

pub open spec fn seq_min(s: Seq<i32>) -> i32
    decreases s.len(),
{
    if s.len() == 0 {
        0
    } else if s.len() == 1 {
        s[0]
    } else {
        let m = seq_min(s.drop_last());
        if s.last() < m { s.last() } else { m }
    }
}

/// The frame window after recording one frame: the oldest frame leaves once
/// the window holds `count` frames.
pub open spec fn after_record(frames: Seq<i32>, count: int, fps: i32) -> Seq<i32> {
    if frames.len() >= count && frames.len() > 0 {
        frames.drop_first().push(fps)
    } else {
        frames.push(fps)
    }
}

impl FrameHistory {
    /// An empty window of `frames_count` frames.
    pub fn new(frames_count: usize) -> (h: Self)
        ensures
            h.frames@.len() == 0,
            h.frames_count == frames_count,
    {
        FrameHistory { frames: VecDeque::new(), frames_count }
    }

    /// Records the frame rate of one more frame.
    pub fn record(&mut self, fps: i32)
        ensures
            final(self).frames_count == old(self).frames_count,
            final(self).frames@ == after_record(old(self).frames@, old(self).frames_count as int, fps),
    {
        if self.frames.len() >= self.frames_count {
            self.frames.pop_front();
        }
        self.frames.push_back(fps);
    }

    /// Sum of the recorded frame rates divided by the window size (not by the
    /// number of frames recorded) taken as an `i32`, rounded toward zero; the
    /// window size must be positive as an `i32`.
    pub fn get_smooth_avg(&self) -> (avg: i32)
        requires
            0 < self.frames_count as i32,
            prefix_sums_fit(self.frames@),
        ensures
            avg as int == div_toward_zero(seq_sum(self.frames@), (self.frames_count as i32) as int),
    {
        let mut sum: i32 = 0;
        let mut i: usize = 0;
        while i < self.frames.len()
            invariant
                0 <= i <= self.frames@.len(),
                prefix_sums_fit(self.frames@),
                sum as int == seq_sum(self.frames@.take(i as int)),
            decreases self.frames@.len() - i,
        {
            assert(self.frames@.take(i + 1).drop_last() =~= self.frames@.take(i as int));
            assert(i32::MIN <= seq_sum(self.frames@.take(i + 1)) <= i32::MAX);
            sum = sum + self.frames[i];
            i = i + 1;
        }
        assert(self.frames@.take(i as int) =~= self.frames@);
        let count = #[verifier::truncate] (self.frames_count as i32);
        sum / count
    }

    /// The lowest recorded frame rate, or 0 before any frame.
    pub fn get_min_fps(&self) -> (m: i32)
        ensures
            m == seq_min(self.frames@),
    {
        if self.frames.len() == 0 {
            return 0;
        }
        let mut m: i32 = self.frames[0];
        let mut i: usize = 1;
        assert(self.frames@.take(1) =~= seq![self.frames@[0]]);
        while i < self.frames.len()
            invariant
                1 <= i <= self.frames@.len(),
                m == seq_min(self.frames@.take(i as int)),
            decreases self.frames@.len() - i,
        {
            assert(self.frames@.take(i + 1).drop_last() =~= self.frames@.take(i as int));
            if self.frames[i] < m {
                m = self.frames[i];
            }
            i = i + 1;
        }
        assert(self.frames@.take(i as int) =~= self.frames@);
        m
    }
}

/// Once full, the window keeps its size: recording a frame into a window of
/// `count` frames leaves `count` frames.
pub proof fn lemma_record_keeps_window(frames: Seq<i32>, count: int, fps: i32)
    requires
        count > 0,
        frames.len() <= count,
    ensures
        after_record(frames, count, fps).len() <= count,
        frames.len() == count ==> after_record(frames, count, fps).len() == count,
        after_record(frames, count, fps).last() == fps,
{
}

} // verus!
