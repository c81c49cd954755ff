//! When a frame is drawn: at most one in each frame interval, however much
//! output the panes produce; and what is done where one cannot be drawn.

use vstd::prelude::*;

verus! {

/// The least time between two frames, in nanoseconds.
pub const MIN_INTERVAL_NS: u128 = 8_000_000;

/// Which redraws are on their way.
pub struct FramePacer {
    /// A redraw has been requested and not been done yet.
    pub pending: bool,
    /// A redraw is wanted once the frame interval is over.
    pub deferred: bool,
}

/// What is to be done before the event loop waits.
#[derive(Clone, Copy, Debug, PartialEq, Eq, Structural)]
pub enum PaceStep {
    /// Request a redraw and wait for events.
    Redraw,
    /// Wait for events, but no longer than that many nanoseconds.
    WaitFor(u128),
    /// Wait for events.
    Wait,
}

impl FramePacer {
    /// What becomes of it when there is something new to show, `since` after the
    /// last frame, and whether a redraw is requested.
    pub open spec fn woken(self, since: u128) -> (FramePacer, bool) {
        if self.pending {
            (self, false)
        } else if since >= MIN_INTERVAL_NS {
            (FramePacer { pending: true, deferred: self.deferred }, true)
        } else {
            (FramePacer { pending: false, deferred: true }, false)
        }
    }

    /// What becomes of it when the event loop is about to wait, `since` after the
    /// last frame, and what is to be done.
    pub open spec fn waiting(self, since: u128) -> (FramePacer, PaceStep) {
        if !self.deferred || self.pending {
            (self, PaceStep::Wait)
        } else if since >= MIN_INTERVAL_NS {
            (FramePacer { pending: true, deferred: false }, PaceStep::Redraw)
        } else {
            (self, PaceStep::WaitFor((MIN_INTERVAL_NS - since) as u128))
        }
    }

    /// Nothing is wanted yet.
    pub fn new() -> (r: Self)
        ensures
            !r.pending,
            !r.deferred,
    {
        FramePacer { pending: false, deferred: false }
    }

    /// There is something new to show, `since` after the last frame. Returns
    /// whether a redraw is to be requested now; within the frame interval it is
    /// put off.
    pub fn wake(&mut self, since: u128) -> (r: bool)
        ensures
            (*final(self), r) == old(self).woken(since),
    {
        if self.pending {
            return false;
        }
        if since >= MIN_INTERVAL_NS {
            self.pending = true;
            true
        } else {
            self.deferred = true;
            false
        }
    }

    /// The event loop is about to wait, `since` after the last frame.
    pub fn about_to_wait(&mut self, since: u128) -> (r: PaceStep)
        ensures
            (*final(self), r) == old(self).waiting(since),
    {
        if self.deferred && !self.pending {
            if since >= MIN_INTERVAL_NS {
                self.deferred = false;
                self.pending = true;
                PaceStep::Redraw
            } else {
                PaceStep::WaitFor(MIN_INTERVAL_NS - since)
            }
        } else {
            PaceStep::Wait
        }
    }

    /// A frame was drawn.
    pub fn drawn(&mut self)
        ensures
            !final(self).pending,
            final(self).deferred == old(self).deferred,
    {
        self.pending = false;
    }
}

/// Something new is never forgotten: a redraw for it is on its way, or will be
/// requested once the frame interval is over.
pub proof fn law_news_is_drawn(pacer: FramePacer, since: u128, later: u128)
    ensures
        pacer.woken(since).0.pending || pacer.woken(since).0.deferred,
        !pacer.woken(since).0.pending && later >= MIN_INTERVAL_NS ==> pacer.woken(since).0.waiting(
            later,
        ).1 == PaceStep::Redraw,
{
}

/// However much there is to show, no redraw is requested before the frame
/// interval is over, nor a second one before the first is done; and the wait for
/// one that was put off ends with the interval.
pub proof fn law_frames_are_paced(pacer: FramePacer, since: u128)
    ensures
        pacer.woken(since).1 ==> since >= MIN_INTERVAL_NS && !pacer.pending,
        pacer.waiting(since).1 == PaceStep::Redraw ==> since >= MIN_INTERVAL_NS && !pacer.pending,
        pacer.waiting(since).1 matches PaceStep::WaitFor(ns) ==> since + ns == MIN_INTERVAL_NS,
{
}

/// How long frames took since the statistics were last shown.
pub struct FrameStats {
    pub frames: u32,
    pub sum_ns: u128,
    pub max_ns: u128,
}

impl FrameStats {
    /// No frame yet.
    pub fn new() -> (r: Self)
        ensures
            r.frames == 0,
            r.sum_ns == 0,
            r.max_ns == 0,
    {
        FrameStats { frames: 0, sum_ns: 0, max_ns: 0 }
    }

    /// A frame took `dt` nanoseconds.
    pub fn record(&mut self, dt: u128)
        requires
            old(self).frames < u32::MAX,
            old(self).sum_ns + dt <= u128::MAX,
        ensures
            final(self).frames == old(self).frames + 1,
            final(self).sum_ns == old(self).sum_ns + dt,
            final(self).max_ns == (if dt > old(self).max_ns {
                dt
            } else {
                old(self).max_ns
            }),
    {
        self.frames = self.frames + 1;
        self.sum_ns = self.sum_ns + dt;
        if dt > self.max_ns {
            self.max_ns = dt;
        }
    }

    /// How long a frame took on average, in whole nanoseconds.
    pub fn average(&self) -> (r: u128)
        ensures
            r == self.sum_ns as int / (if self.frames == 0 {
                1
            } else {
                self.frames as int
            }),
    {
        let n: u32 = if self.frames == 0 {
            1
        } else {
            self.frames
        };
        self.sum_ns / n as u128
    }
}

/// What the system says of the surface that a frame is to be drawn on.
#[derive(Clone, Copy, Debug, PartialEq, Eq, Structural)]
pub enum SurfaceStatus {
    Success,
    Timeout,
    Occluded,
    Outdated,
    Suboptimal,
    Lost,
    Validation,
}

/// What is done then.
#[derive(Clone, Copy, Debug, PartialEq, Eq, Structural)]
pub enum SurfaceStep {
    /// Draw.
    Draw,
    /// Try again with the next frame.
    Retry,
    /// Configure the surface anew and try again with the next frame.
    Reconfigure,
    /// Make a new surface, configure it, and try again with the next frame.
    Recreate,
    /// Do without this frame.
    Skip,
}

/// What is done for a surface of the given status.
pub fn surface_step(status: SurfaceStatus) -> (r: SurfaceStep)
    ensures
        r == (match status {
            SurfaceStatus::Success => SurfaceStep::Draw,
            SurfaceStatus::Timeout | SurfaceStatus::Occluded => SurfaceStep::Retry,
            SurfaceStatus::Outdated | SurfaceStatus::Suboptimal => SurfaceStep::Reconfigure,
            SurfaceStatus::Lost => SurfaceStep::Recreate,
            SurfaceStatus::Validation => SurfaceStep::Skip,
        }),
{
    match status {
        SurfaceStatus::Success => SurfaceStep::Draw,
        SurfaceStatus::Timeout => SurfaceStep::Retry,
        SurfaceStatus::Occluded => SurfaceStep::Retry,
        SurfaceStatus::Outdated => SurfaceStep::Reconfigure,
        SurfaceStatus::Suboptimal => SurfaceStep::Reconfigure,
        SurfaceStatus::Lost => SurfaceStep::Recreate,
        SurfaceStatus::Validation => SurfaceStep::Skip,
    }
}

/// The least power of two from `p` on, which is one, that is at least `n`.
pub open spec fn power_from(p: nat, n: nat) -> nat
    decreases 2 * n - p,
{
    if p == 0 || p >= n {
        p
    } else {
        power_from(2 * p, n)
    }
}

/// The room to make for `count` boxes: the least power of two that holds them;
/// none where there is enough.
pub fn grown_capacity(capacity: u64, count: u32) -> (r: Option<u64>)
    ensures
        match r {
            Some(n) => count > capacity && n == power_from(1, count as nat) && n >= count,
            None => count <= capacity,
        },
{
    if count as u64 <= capacity {
        return None;
    }
    let mut p: u64 = 1;
    while p < count as u64
        invariant
            1 <= p < 0x2_0000_0000,
            power_from(1, count as nat) == power_from(p as nat, count as nat),
        decreases 0x2_0000_0000 - p,
    {
        p = 2 * p;
    }
    Some(p)
}

/// News that comes behind the frame interval is drawn at once, unless a redraw is
/// on its way already; and nothing is drawn where there is no news.
pub proof fn law_news_is_drawn_in_time(pacer: FramePacer, since: u128)
    ensures
        !pacer.pending && since >= MIN_INTERVAL_NS ==> pacer.woken(since).1,
        !pacer.pending && !pacer.deferred ==> pacer.waiting(since) == (pacer, PaceStep::Wait),
        !pacer.pending && pacer.deferred && since < MIN_INTERVAL_NS ==> pacer.waiting(since).1
            == PaceStep::WaitFor((MIN_INTERVAL_NS - since) as u128),
        pacer.waiting(since).1 == PaceStep::Redraw ==> pacer.waiting(since).0.pending
            && !pacer.waiting(since).0.deferred,
{
}

/// The room that is made is enough, less than twice of what is needed, and a
/// power of two.
pub proof fn law_room_is_made(n: nat)
    requires
        n > 1,
    ensures
        n <= power_from(1, n) < 2 * n,
        exists|k: nat| power_from(1, n) == #[trigger] vstd::arithmetic::power2::pow2(k),
{
    vstd::arithmetic::power2::lemma2_to64();
    lemma_power_from(1, n, 0);
}

proof fn lemma_power_from(p: nat, n: nat, k: nat)
    requires
        n > 1,
        0 < p < 2 * n,
        p == vstd::arithmetic::power2::pow2(k),
    ensures
        n <= power_from(p, n) < 2 * n,
        exists|j: nat| power_from(p, n) == #[trigger] vstd::arithmetic::power2::pow2(j),
    decreases 2 * n - p,
{
    if p < n {
        vstd::arithmetic::power2::lemma_pow2_unfold(k + 1);
        lemma_power_from(2 * p, n, k + 1);
    }
}

} // verus!
