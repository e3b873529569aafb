//! Frame-time bookkeeping.
//!
//! The counter records how long each frame took, in microseconds, and
//! answers how long to sleep to hold a target frame rate.  Printing the
//! statistics is the host's business.

use vstd::arithmetic::div_mod::lemma_div_is_ordered;
use vstd::prelude::*;

verus! {

/// Sum of recorded frame times.
pub open spec fn sum_micros(s: Seq<u64>) -> int
    decreases s.len(),
{
    if s.len() == 0 {
        0
    } else {
        sum_micros(s.drop_last()) + s.last()
    }
}

/// Smallest recorded frame time; meaningful only for non-empty records.
pub open spec fn min_micros(s: Seq<u64>) -> u64
    decreases s.len(),
{
    if s.len() <= 1 {
        s[0]
    } else {
        let rest = min_micros(s.drop_last());
        if s.last() < rest {
            s.last()
        } else {
            rest
        }
    }
}

/// Largest recorded frame time; meaningful only for non-empty records.
pub open spec fn max_micros(s: Seq<u64>) -> u64
    decreases s.len(),
{
    if s.len() <= 1 {
        s[0]
    } else {
        let rest = max_micros(s.drop_last());
        if s.last() > rest {
            s.last()
        } else {
            rest
        }
    }
}

/// The sum of frame times is bounded by their count times the largest value.
proof fn lemma_sum_bound(s: Seq<u64>)
    ensures
        0 <= sum_micros(s) <= s.len() * u64::MAX,
    decreases s.len(),
{
    if s.len() == 0 {
    } else {
        lemma_sum_bound(s.drop_last());
        assert(s.len() * u64::MAX == (s.len() - 1) * u64::MAX + u64::MAX)
            by (nonlinear_arith);
    }
}

/// Records frame times and the interval a target frame rate asks for.
pub struct FpsCounter {
    frame_interval_micros: u64,
    frame_times: Vec<u64>,
}

impl FpsCounter {
    /// The interval between frames at the target rate, in microseconds.
    pub closed spec fn frame_interval(self) -> u64 {
        self.frame_interval_micros
    }

    /// The frame times recorded since the last reset, in order.
    pub closed spec fn frames(self) -> Seq<u64> {
        self.frame_times@
    }

    /// A counter for the given target frame rate.
    pub fn new(target_fps: u64) -> (counter: FpsCounter)
        requires
            target_fps >= 1,
        ensures
            counter.frame_interval() == 1000000 as int / target_fps as int,
            counter.frames() == Seq::<u64>::empty(),
    {
        FpsCounter {
            frame_interval_micros: 1000000 / target_fps,
            frame_times: Vec::new(),
        }
    }

    /// How long to sleep after a frame so that frame plus sleep reaches the
    /// target interval; zero if the frame already took at least that long.
    pub fn calculate_sleep_time(&self, elapsed_micros: u64) -> (sleep: u64)
        ensures
            sleep == if elapsed_micros < self.frame_interval() {
                self.frame_interval() - elapsed_micros
            } else {
                0
            },
    {
        if elapsed_micros < self.frame_interval_micros {
            self.frame_interval_micros - elapsed_micros
        } else {
            0
        }
    }

    /// Record how long one frame took.
    pub fn record_frame(&mut self, frame_time_micros: u64)
        ensures
            final(self).frames() == old(self).frames().push(frame_time_micros),
            final(self).frame_interval() == old(self).frame_interval(),
    {
        self.frame_times.push(frame_time_micros);
    }

    /// Average, smallest and largest recorded frame time, or nothing if no
    /// frame was recorded yet.
    pub fn frame_stats(&self) -> (stats: Option<(u64, u64, u64)>)
        ensures
            stats is Some <==> self.frames().len() > 0,
            stats matches Some((average, smallest, largest))
                ==> average == sum_micros(self.frames()) / self.frames().len() as int
                    && smallest == min_micros(self.frames())
                    && largest == max_micros(self.frames()),
    {
        let n = self.frame_times.len();
        if n == 0 {
            return None;
        }
        let mut total: u128 = 0;
        let mut smallest: u64 = u64::MAX;
        let mut largest: u64 = 0;
        for i in 0..n
            invariant
                n == self.frames().len(),
                total == sum_micros(self.frames().subrange(0, i as int)),
                i > 0 ==> smallest == min_micros(self.frames().subrange(0, i as int)),
                i > 0 ==> largest == max_micros(self.frames().subrange(0, i as int)),
                i == 0 ==> smallest == u64::MAX && largest == 0,
        {
            proof {
                let prefix = self.frames().subrange(0, i + 1 as int);
                assert(prefix.drop_last() =~= self.frames().subrange(0, i as int));
                assert(prefix.last() == self.frames()[i as int]);
                lemma_sum_bound(self.frames().subrange(0, i as int));
                assert((i as int) * u64::MAX + u64::MAX <= (n as int) * u64::MAX
                    <= u64::MAX * u64::MAX) by (nonlinear_arith)
                    requires
                        0 <= i < n <= u64::MAX,
                {
                }
            }
            let t = self.frame_times[i];
            total = total + t as u128;
            if i == 0 || t < smallest {
                smallest = t;
            }
            if i == 0 || t > largest {
                largest = t;
            }
        }
        proof {
            assert(self.frames().subrange(0, n as int) =~= self.frames());
            lemma_sum_bound(self.frames());
            assert((n as int) * u64::MAX <= u64::MAX * u64::MAX) by (nonlinear_arith)
                requires
                    0 < n <= u64::MAX,
            {
            }
            lemma_div_is_ordered(total as int, (n as int) * u64::MAX, n as int);
            assert(((n as int) * u64::MAX) / n as int == u64::MAX) by (nonlinear_arith)
                requires
                    0 < n,
            {
            }
        }
        let average = (total / n as u128) as u64;
        Some((average, smallest, largest))
    }

    /// Forget the recorded frame times.
    pub fn clear_frames(&mut self)
        ensures
            final(self).frames() == Seq::<u64>::empty(),
            final(self).frame_interval() == old(self).frame_interval(),
    {
        self.frame_times.clear();
    }
}

} // verus!
