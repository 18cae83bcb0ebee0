use vstd::prelude::*;

verus! {

/// Frame timing of an animation: how long each frame shows, in
/// milliseconds, and the length of one loop.
pub struct Animation {
    pub durations: Vec<u32>,
    pub total_length: u32,
}

/// Total duration of the first `n` frames.
pub open spec fn elapsed(d: Seq<u32>, n: int) -> int
    decreases n,
{
    if n <= 0 {
        0
    } else {
        elapsed(d, n - 1) + d[n - 1]
    }
}

proof fn lemma_elapsed_monotonic(d: Seq<u32>, m: int, n: int)
    requires
        0 <= m <= n <= d.len(),
    ensures
        elapsed(d, m) <= elapsed(d, n),
    decreases n - m,
{
    if m < n {
        lemma_elapsed_monotonic(d, m, n - 1);
    }
}

impl Animation {
    /// The loop length is the sum of the frame durations.
    pub open spec fn wf(&self) -> bool {
        self.total_length == elapsed(self.durations@, self.durations@.len() as int)
    }

    /// Timing from frame durations; nothing when one loop does not fit in
    /// `u32` milliseconds.
    pub fn from_durations(durations: Vec<u32>) -> (r: Option<Animation>)
        ensures
            r is None <==> elapsed(durations@, durations@.len() as int) > u32::MAX,
            r matches Some(a) ==> a.wf() && a.durations@ == durations@,
    {
        let mut total: u32 = 0;
        let mut i: usize = 0;
        while i < durations.len()
            invariant
                0 <= i <= durations@.len(),
                total == elapsed(durations@, i as int),
            decreases durations@.len() - i,
        {
            if total > u32::MAX - durations[i] {
                proof {
                    lemma_elapsed_monotonic(durations@, i + 1, durations@.len() as int);
                }
                return None;
            }
            total = total + durations[i];
            i = i + 1;
        }
        Some(Animation { durations, total_length: total })
    }

    /// The frame showing at `time`, the animation looping: the frame `i`
    /// whose span `[elapsed(i), elapsed(i + 1))` holds `time % total_length`.
    pub fn get_at_time(&self, time: u32) -> (r: usize)
        requires
            self.wf(),
            self.total_length > 0,
        ensures
            r < self.durations@.len(),
            elapsed(self.durations@, r as int) <= time % self.total_length < elapsed(
                self.durations@,
                r + 1,
            ),
    {
        let t = time % self.total_length;
        let mut rest = t;
        let mut i: usize = 0;
        while i < self.durations.len()
            invariant
                self.wf(),
                0 <= i <= self.durations@.len(),
                t < self.total_length,
                t == time % self.total_length,
                rest == t - elapsed(self.durations@, i as int),
                rest >= 0,
            decreases self.durations@.len() - i,
        {
            if rest >= self.durations[i] {
                rest = rest - self.durations[i];
            } else {
                return i;
            }
            i = i + 1;
        }
        proof {
            assert(false);
        }
        0
    }
}

/// Index of the gift on show after one frame of the selection screen: the
/// forward control adds one, then the back control takes one off, going
/// from 0 to the last index `total - 1`.
pub fn gift_index_step(index: u32, total: u32, forward: bool, back: bool) -> (r: u32)
    requires
        total > 0,
        forward ==> index < u32::MAX,
    ensures
        r == ({
            let f = if forward {
                index + 1
            } else {
                index as int
            };
            if back {
                if f == 0 {
                    total - 1
                } else {
                    f - 1
                }
            } else {
                f
            }
        }),
{
    let mut i = index;
    if forward {
        i = i + 1;
    }
    if back {
        if i == 0 {
            i = total - 1;
        } else {
            i = i - 1;
        }
    }
    i
}

} // verus!
