use vstd::prelude::*;

verus! {

/// The length of a frame, in microseconds, for a frame time of `frame`: a
/// frame time of zero counts as one microsecond.
pub open spec fn frame_of(frame: u64) -> u64 {
    if frame == 0 {
        1
    } else {
        frame
    }
}

/// `a + b`, or the largest `u64` where the sum does not fit.
pub open spec fn sat_add(a: u64, b: u64) -> u64 {
    if a + b <= u64::MAX {
        (a + b) as u64
    } else {
        u64::MAX
    }
}

/// The jitter, in microseconds, that a sample of `sample_ms` milliseconds
/// gives under a bound of `bound_ms` milliseconds.
pub open spec fn jitter_of(sample_ms: u64, bound_ms: u64) -> u64 {
    let ms = if sample_ms <= bound_ms {
        sample_ms
    } else {
        bound_ms
    };
    if ms * 1000 <= u64::MAX {
        (ms * 1000) as u64
    } else {
        u64::MAX
    }
}

/// A frame-accumulating clock. All durations are in microseconds, but for
/// `jitter_ms`.
#[derive(Debug)]
pub struct Timer {
    pub frame_time: u64,
    pub accumulator: u64,
    pub wait: u64,
    pub jitter: u64,
    pub jitter_ms: u64,
}

impl Timer {
    pub fn new(frame_time: u64) -> (r: Timer)
        ensures
            r.frame_time == frame_time,
            r.accumulator == 0,
            r.wait == 0,
            r.jitter == 0,
            r.jitter_ms == 20,
    {
        Timer { frame_time, accumulator: 0, wait: 0, jitter: 0, jitter_ms: 20 }
    }

    /// Moves the jitter drawn last into the wait, and draws the next one.
    fn apply_jitter(&mut self, sample_ms: u64)
        requires
            old(self).wait == 0,
        ensures
            final(self).wait == old(self).jitter,
            final(self).jitter == jitter_of(sample_ms, old(self).jitter_ms),
            final(self).frame_time == old(self).frame_time,
            final(self).accumulator == old(self).accumulator,
            final(self).jitter_ms == old(self).jitter_ms,
    {
        self.wait = self.jitter;
        let ms = if sample_ms <= self.jitter_ms {
            sample_ms
        } else {
            self.jitter_ms
        };
        self.jitter = if ms <= u64::MAX / 1000 {
            ms * 1000
        } else {
            u64::MAX
        };
    }

    /// Advances the clock by `dt` microseconds and returns how many logical
    /// steps are due. `sample_ms` is a random draw for the next jitter, from
    /// zero to `jitter_ms`.
    pub fn tick(&mut self, dt: u64, sample_ms: u64) -> (count: u64)
        ensures
            final(self).frame_time == old(self).frame_time,
            final(self).jitter_ms == old(self).jitter_ms,
            old(self).wait != 0 && dt <= old(self).wait ==> {
                &&& count == 0
                &&& final(self).wait == old(self).wait - dt
                &&& final(self).accumulator == old(self).accumulator
                &&& final(self).jitter == old(self).jitter
            },
            old(self).wait != 0 && dt > old(self).wait ==> {
                &&& final(self).wait == 0
                &&& final(self).jitter == old(self).jitter
                &&& count == sat_add(old(self).accumulator, (dt - old(self).wait) as u64) / frame_of(
                    old(self).frame_time,
                )
                &&& final(self).accumulator == sat_add(old(self).accumulator, (dt - old(self).wait) as u64)
                    % frame_of(old(self).frame_time)
            },
            old(self).wait == 0 ==> {
                &&& final(self).wait == old(self).jitter
                &&& final(self).jitter == jitter_of(sample_ms, old(self).jitter_ms)
                &&& count == sat_add(old(self).accumulator, dt) / frame_of(old(self).frame_time)
                &&& final(self).accumulator == sat_add(old(self).accumulator, dt) % frame_of(
                    old(self).frame_time,
                )
            },
    {
        let mut dt = dt;
        if self.wait != 0 {
            if dt <= self.wait {
                self.wait = self.wait - dt;
                return 0;
            }
            // the wait takes its share of `dt`; the rest counts
            dt = dt - self.wait;
            self.wait = 0;
        } else {
            self.apply_jitter(sample_ms);
        }
        let total = self.accumulator.saturating_add(dt);
        let frame = if self.frame_time == 0 {
            1
        } else {
            self.frame_time
        };
        self.accumulator = total % frame;
        total / frame
    }

    /// Holds the clock for `duration` microseconds.
    pub fn wait(&mut self, duration: u64)
        ensures
            final(self).wait == duration,
            final(self).frame_time == old(self).frame_time,
            final(self).accumulator == old(self).accumulator,
            final(self).jitter == old(self).jitter,
            final(self).jitter_ms == old(self).jitter_ms,
    {
        self.wait = duration;
    }
}

/// One xorshift step.
pub open spec fn xorshift(x: u64) -> u64 {
    let a = x ^ (x << 13u64);
    let b = a ^ (a >> 7u64);
    b ^ (b << 17u64)
}

/// A xorshift pseudo-random source.
#[derive(Debug)]
pub struct Random {
    state: u64,
}

impl Random {
    /// The source's current state.
    pub closed spec fn state(&self) -> u64 {
        self.state
    }

    /// A source seeded with `seed`; a seed of zero is replaced, since
    /// xorshift never leaves zero.
    pub fn new(seed: u64) -> (r: Random)
        ensures
            r.state() == if seed == 0 {
                0x9E37_79B9_7F4A_7C15u64
            } else {
                seed
            },
    {
        Random {
            state: if seed == 0 {
                0x9E37_79B9_7F4A_7C15
            } else {
                seed
            },
        }
    }

    /// A number from zero to `bound`, both included.
    pub fn next(&mut self, bound: u64) -> (r: u64)
        ensures
            final(self).state() == xorshift(old(self).state()),
            r == if bound == u64::MAX {
                xorshift(old(self).state())
            } else {
                ((xorshift(old(self).state()) as int) % (bound + 1)) as u64
            },
            r <= bound,
    {
        let mut x = self.state;
        x = x ^ (x << 13u64);
        x = x ^ (x >> 7u64);
        x = x ^ (x << 17u64);
        self.state = x;
        if bound == u64::MAX {
            x
        } else {
            x % (bound + 1)
        }
    }
}

} // verus!
