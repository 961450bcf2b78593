//! The fixed-timestep frame clock.
//!
//! Times are milliseconds since an arbitrary epoch chosen by the caller.

use vstd::prelude::*;

verus! {

/// Duration of a fixed length frame in milliseconds (62.5 frames per second).
pub const FRAME_DURATION_MILLIS: u64 = 16;

/// The number of frames that have passed since the last simulation step.
#[derive(Clone, Copy, Debug)]
pub struct DeltaFrame {
    pub delta: u64,
}

impl DeltaFrame {
    pub fn new(delta: u64) -> (r: DeltaFrame)
        ensures
            r.delta == delta,
    {
        DeltaFrame { delta }
    }
}

/// A counter that tracks the number and timing of a fixed length frame.
#[derive(Clone, Copy, Debug)]
pub struct Frame {
    /// The number of the frame.
    pub number: u64,
    /// The time at which the frame started.
    pub start_time: u64,
    /// The time at which the frame should have started. Later frames are
    /// placed relative to this time, so that lateness does not accumulate.
    pub ideal_start_time: u64,
}

impl Frame {
    /// The frame counts whole frame durations from a time that is not
    /// negative, and did not start before its ideal start.
    pub open spec fn wf(self) -> bool {
        &&& self.number * FRAME_DURATION_MILLIS as int <= self.ideal_start_time
        &&& self.ideal_start_time <= self.start_time
    }

    /// The ideal start of frame zero: the origin of the frame grid.
    pub open spec fn origin(self) -> int {
        self.ideal_start_time - self.number * FRAME_DURATION_MILLIS as int
    }

    /// Whole frames between the ideal start and `now`.
    pub open spec fn elapsed_frames(self, now: u64) -> int {
        (now - self.ideal_start_time) / FRAME_DURATION_MILLIS as int
    }

    /// The frame that `next` returns, as a mathematical value.
    pub open spec fn following(self, now: u64) -> Frame {
        Frame {
            number: (self.number + self.elapsed_frames(now)) as u64,
            start_time: now,
            ideal_start_time: (self.ideal_start_time + self.elapsed_frames(now)
                * FRAME_DURATION_MILLIS as int) as u64,
        }
    }

    /// The first frame, started at `now`.
    pub fn new(now: u64) -> (r: Frame)
        ensures
            r.number == 0,
            r.start_time == now,
            r.ideal_start_time == now,
            r.wf(),
            r.origin() == now,
    {
        Frame { number: 0, start_time: now, ideal_start_time: now }
    }

    /// Milliseconds still to wait at `now` before a whole frame has elapsed
    /// since the ideal start; zero once it has.
    pub fn wait_millis(&self, now: u64) -> (wait: u64)
        requires
            now >= self.ideal_start_time,
        ensures
            wait == if now - self.ideal_start_time < FRAME_DURATION_MILLIS {
                FRAME_DURATION_MILLIS - (now - self.ideal_start_time)
            } else {
                0
            },
            wait == 0 <==> now - self.ideal_start_time >= FRAME_DURATION_MILLIS,
            wait <= FRAME_DURATION_MILLIS,
    {
        let elapsed: u64 = now - self.ideal_start_time;
        if elapsed < FRAME_DURATION_MILLIS {
            FRAME_DURATION_MILLIS - elapsed
        } else {
            0
        }
    }

    /// The frame that is current at `now`. Its number grows by the whole
    /// frames elapsed since the ideal start, and its ideal start advances by
    /// exactly that many frame durations.
    pub fn next(&self, now: u64) -> (r: Frame)
        requires
            self.wf(),
            now >= self.ideal_start_time,
        ensures
            r == self.following(now),
            r.number == self.number + self.elapsed_frames(now),
            r.start_time == now,
            r.ideal_start_time == self.ideal_start_time + self.elapsed_frames(now)
                * FRAME_DURATION_MILLIS,
            r.wf(),
            r.origin() == self.origin(),
            now - self.ideal_start_time >= FRAME_DURATION_MILLIS ==> r.number > self.number,
            now - r.ideal_start_time < FRAME_DURATION_MILLIS,
    {
        let elapsed_frame_count: u64 = (now - self.ideal_start_time) / FRAME_DURATION_MILLIS;
        assert(elapsed_frame_count * 16 <= now - self.ideal_start_time);
        assert(self.number * 16 + elapsed_frame_count * 16 <= now);
        Frame {
            number: self.number + elapsed_frame_count,
            start_time: now,
            ideal_start_time: self.ideal_start_time + elapsed_frame_count
                * FRAME_DURATION_MILLIS,
        }
    }
}

/// The frame reached from `start` by taking `next` at each of `times` in turn.
pub open spec fn frame_after(start: Frame, times: Seq<u64>) -> Frame
    decreases times.len(),
{
    if times.len() == 0 {
        start
    } else {
        frame_after(start, times.drop_last()).following(times.last())
    }
}

/// Every time in `times` is at or after the ideal start of the frame that is
/// current when it is read.
pub open spec fn times_in_order(start: Frame, times: Seq<u64>) -> bool
    decreases times.len(),
{
    times.len() > 0 ==> {
        &&& times_in_order(start, times.drop_last())
        &&& times.last() >= frame_after(start, times.drop_last()).ideal_start_time
    }
}

/// However many frames are taken, the ideal start stays on the grid of the
/// first frame: it has moved by an exact multiple of the frame duration,
/// namely by the frame duration times the growth of the frame number.
pub proof fn lemma_ideal_start_stays_on_grid(start: Frame, times: Seq<u64>)
    requires
        start.wf(),
        times_in_order(start, times),
    ensures
        frame_after(start, times).wf(),
        frame_after(start, times).origin() == start.origin(),
        frame_after(start, times).number >= start.number,
        frame_after(start, times).ideal_start_time - start.ideal_start_time == (frame_after(
            start,
            times,
        ).number - start.number) * FRAME_DURATION_MILLIS,
        (frame_after(start, times).ideal_start_time - start.ideal_start_time)
            % FRAME_DURATION_MILLIS as int == 0,
    decreases times.len(),
{
    if times.len() > 0 {
        let before = frame_after(start, times.drop_last());
        lemma_ideal_start_stays_on_grid(start, times.drop_last());
        lemma_following(before, times.last());
    }
    let k = frame_after(start, times).number - start.number;
    assert((k * 16) % 16 == 0) by (nonlinear_arith);
}

/// What `following` yields on a well-formed frame that `now` does not precede.
pub proof fn lemma_following(frame: Frame, now: u64)
    requires
        frame.wf(),
        now >= frame.ideal_start_time,
    ensures
        frame.following(now).wf(),
        frame.following(now).origin() == frame.origin(),
        frame.following(now).number == frame.number + frame.elapsed_frames(now),
        frame.following(now).ideal_start_time == frame.ideal_start_time + frame.elapsed_frames(
            now,
        ) * FRAME_DURATION_MILLIS,
        frame.elapsed_frames(now) >= 0,
        now - frame.ideal_start_time >= FRAME_DURATION_MILLIS ==> frame.elapsed_frames(now) >= 1,
{
    let e = frame.elapsed_frames(now);
    assert(e * 16 <= now - frame.ideal_start_time);
    assert(e >= 0);
}

/// The number of frames reported for a step: after the wait has run out at
/// least one whole frame has elapsed, so the frame number grows.
pub proof fn lemma_delta_at_least_one(frame: Frame, now: u64)
    requires
        frame.wf(),
        now >= frame.ideal_start_time + FRAME_DURATION_MILLIS,
    ensures
        frame.following(now).number - frame.number >= 1,
{
    lemma_following(frame, now);
}

} // verus!
