//! Rolling frame-time statistics: a fixed-capacity window of the most recent
//! frame durations plus monotonic frame counters. Fed explicit deltas, so it
//! holds no clock; the float statistics are computed over `samples()`.
use vstd::prelude::*;

verus! {

/// Recent frame durations retained for the rolling stats (~4 s at 60 fps).
pub const RING: usize = 240;

/// `n + 1`, saturating at `u64::MAX`.
pub open spec fn sat_inc(n: u64) -> u64 {
    if n == u64::MAX {
        n
    } else {
        (n + 1) as u64
    }
}

/// The window after recording `x`: appended, and once full the oldest
/// sample falls off.
pub open spec fn window_push<T>(w: Seq<T>, x: T) -> Seq<T> {
    if w.len() < RING {
        w.push(x)
    } else {
        w.drop_first().push(x)
    }
}

/// A rolling window of the last `RING` frame durations with frame counters.
pub struct FrameStats<T> {
    ring: Vec<T>,
    /// Next write position.
    head: usize,
    /// Retained samples.
    len: usize,
    frames_total: u64,
    frames_dropped: u64,
}

impl<T> FrameStats<T> {
    /// The representation invariant.
    pub closed spec fn wf(&self) -> bool {
        &&& self.ring@.len() == RING
        &&& self.head < RING
        &&& self.len <= RING
        &&& (self.len < RING ==> self.head == self.len)
    }

    /// The retained durations, oldest first.
    pub closed spec fn view(&self) -> Seq<T> {
        Seq::new(
            self.len as nat,
            |i: int| self.ring@[(self.head + RING - self.len + i) % (RING as int)],
        )
    }

    /// Frames recorded since creation (saturating).
    pub closed spec fn spec_frames_total(&self) -> u64 {
        self.frames_total
    }

    /// Frames reported as dropped since creation (saturating).
    pub closed spec fn spec_frames_dropped(&self) -> u64 {
        self.frames_dropped
    }
}

impl<T: Copy + Default> FrameStats<T> {
    /// An empty window.
    pub fn new() -> (s: Self)
        ensures
            s.wf(),
            s.view() == Seq::<T>::empty(),
            s.spec_frames_total() == 0,
            s.spec_frames_dropped() == 0,
    {
        let mut ring: Vec<T> = Vec::new();
        while ring.len() < RING
            invariant
                ring@.len() <= RING,
            decreases RING - ring.len(),
        {
            ring.push(T::default());
        }
        let s = FrameStats { ring, head: 0, len: 0, frames_total: 0, frames_dropped: 0 };
        assert(s.view() =~= Seq::<T>::empty());
        s
    }
}

impl<T: Copy> FrameStats<T> {
    /// Record one frame's duration into the window and bump the total.
    pub fn record(&mut self, dt: T)
        requires
            old(self).wf(),
        ensures
            final(self).wf(),
            final(self).view() == window_push(old(self).view(), dt),
            final(self).spec_frames_total() == sat_inc(old(self).spec_frames_total()),
            final(self).spec_frames_dropped() == old(self).spec_frames_dropped(),
    {
        let ghost old_view = self.view();
        let ghost old_head = self.head;
        let ghost old_len = self.len;
        self.ring.set(self.head, dt);
        self.head = (self.head + 1) % RING;
        if self.len < RING {
            self.len = self.len + 1;
        }
        self.frames_total = self.frames_total.saturating_add(1);
        proof {
            let nv = self.view();
            let expect = window_push(old_view, dt);
            assert forall|i: int| 0 <= i < nv.len() implies nv[i] == expect[i] by {
                let slot = (self.head + RING - self.len + i) % (RING as int);
                if old_len < RING {
                    assert(slot == i);
                    if i < old_len {
                        assert(old_view[i] == self.ring@[i]);
                    }
                } else {
                    let old_slot = (old_head + RING - old_len + i + 1) % (RING as int);
                    assert(slot == old_slot);
                    if i < RING - 1 {
                        assert(old_view[i + 1] == old(self).ring@[old_slot]);
                        assert(old_slot != old_head as int);
                    } else {
                        assert(slot == old_head as int);
                    }
                }
            }
            assert(nv =~= expect);
        }
    }

    /// Count a frame the renderer could not present.
    pub fn record_dropped(&mut self)
        requires
            old(self).wf(),
        ensures
            final(self).wf(),
            final(self).view() == old(self).view(),
            final(self).spec_frames_total() == old(self).spec_frames_total(),
            final(self).spec_frames_dropped() == sat_inc(old(self).spec_frames_dropped()),
    {
        self.frames_dropped = self.frames_dropped.saturating_add(1);
    }

    /// Frames recorded since creation.
    pub fn frames_total(&self) -> (n: u64)
        ensures
            n == self.spec_frames_total(),
    {
        self.frames_total
    }

    /// Frames the renderer skipped.
    pub fn frames_dropped(&self) -> (n: u64)
        ensures
            n == self.spec_frames_dropped(),
    {
        self.frames_dropped
    }

    /// Number of retained samples.
    pub fn len(&self) -> (n: usize)
        requires
            self.wf(),
        ensures
            n == self.view().len(),
    {
        self.len
    }

    /// The retained frame durations, oldest first.
    pub fn samples(&self) -> (out: Vec<T>)
        requires
            self.wf(),
        ensures
            out@ == self.view(),
    {
        let mut out: Vec<T> = Vec::new();
        let start = (self.head + RING - self.len) % RING;
        let mut i: usize = 0;
        while i < self.len
            invariant
                self.wf(),
                i <= self.len,
                start == (self.head + RING - self.len) % (RING as int),
                out@ == self.view().take(i as int),
            decreases self.len - i,
        {
            let idx = (start + i) % RING;
            proof {
                vstd::arithmetic::div_mod::lemma_add_mod_noop_right(
                    i as int,
                    (self.head + RING - self.len) as int,
                    RING as int,
                );
                assert(idx == (self.head + RING - self.len + i) % (RING as int));
            }
            out.push(self.ring[idx]);
            assert(out@ =~= self.view().take(i + 1));
            i = i + 1;
        }
        assert(out@ =~= self.view());
        out
    }
}

/// The window holds exactly the most recent samples: after recording a
/// sequence of durations into an empty window, it holds the last
/// `min(len, RING)` of them in order.
pub proof fn law_window_keeps_most_recent<T>(xs: Seq<T>)
    ensures
        fold_window(xs) == xs.subrange(
            if xs.len() > RING {
                xs.len() - RING
            } else {
                0
            },
            xs.len() as int,
        ),
    decreases xs.len(),
{
    if xs.len() > 0 {
        law_window_keeps_most_recent(xs.drop_last());
        let prev = xs.drop_last();
        let lo = if prev.len() > RING {
            prev.len() - RING
        } else {
            0
        };
        if prev.len() < RING {
            assert(prev.subrange(0, prev.len() as int).push(xs.last()) =~= xs.subrange(0, xs.len() as int));
        } else {
            assert(prev.subrange(lo, prev.len() as int).drop_first().push(xs.last()) =~= xs.subrange(
                xs.len() - RING,
                xs.len() as int,
            ));
        }
    } else {
        assert(xs.subrange(0, 0) =~= Seq::<T>::empty());
    }
}

/// The window reached by recording `xs` into an empty one, in order.
pub open spec fn fold_window<T>(xs: Seq<T>) -> Seq<T>
    decreases xs.len(),
{
    if xs.len() == 0 {
        Seq::empty()
    } else {
        window_push(fold_window(xs.drop_last()), xs.last())
    }
}

} // verus!
