//! The integer cadence of the analysis: how mono frames fill hops and the
//! window, when a hop is analyzed, how beats are held off by the refractory
//! period, and how a beat is held until the render side takes it.
use vstd::prelude::*;

use crate::bands::WINDOW_SIZE;

verus! {

/// Samples between successive analysis hops (~10.7 ms at 48 kHz).
pub const HOP_SIZE: usize = 512;

/// Hops a detected beat suppresses further beats for (~96 ms at 48 kHz).
pub const REFRACTORY_HOPS: u32 = 9;

/// What counting one mono frame did.
#[derive(Debug, Clone, Copy, PartialEq, Eq, Structural)]
pub enum HopEvent {
    /// The frame went into the current hop, which is not yet full.
    Filling,
    /// The hop completed and slid into the window, which is not yet full.
    Warming,
    /// The hop completed and the window is full: analyze it.
    Analyze,
}

/// Hop and window fill levels of an analyzer.
pub struct HopClock {
    hop_filled: usize,
    window_filled: usize,
}

/// The fill levels after `frames` mono frames: the partial hop, and the
/// window's samples (whole hops, up to the window size).
pub open spec fn levels_after(frames: nat) -> (nat, nat) {
    let hops = frames / (HOP_SIZE as nat);
    (
        frames % (HOP_SIZE as nat),
        if hops * (HOP_SIZE as nat) < WINDOW_SIZE {
            hops * (HOP_SIZE as nat)
        } else {
            WINDOW_SIZE as nat
        },
    )
}

/// The window level after one more hop slides in.
pub open spec fn slide(window: nat) -> nat {
    if window + HOP_SIZE < WINDOW_SIZE {
        (window + HOP_SIZE) as nat
    } else {
        WINDOW_SIZE as nat
    }
}

/// What the `frames`-th mono frame (counting from 1) does.
pub open spec fn event_at(frames: nat) -> HopEvent {
    if frames == 0 || frames % (HOP_SIZE as nat) != 0 {
        HopEvent::Filling
    } else if frames < WINDOW_SIZE {
        HopEvent::Warming
    } else {
        HopEvent::Analyze
    }
}

impl HopClock {
    /// The partial hop's fill level.
    pub closed spec fn hop_level(&self) -> nat {
        self.hop_filled as nat
    }

    /// The window's fill level.
    pub closed spec fn window_level(&self) -> nat {
        self.window_filled as nat
    }

    /// Fill levels in range: a partial hop, and whole hops in the window.
    pub closed spec fn wf(&self) -> bool {
        &&& self.hop_filled < HOP_SIZE
        &&& self.window_filled <= WINDOW_SIZE
        &&& self.window_filled % HOP_SIZE == 0
    }

    /// Nothing buffered yet.
    pub fn new() -> (c: Self)
        ensures
            c.wf(),
            (c.hop_level(), c.window_level()) == levels_after(0),
    {
        HopClock { hop_filled: 0, window_filled: 0 }
    }

    /// Where the next mono frame goes in the current hop.
    pub fn hop_filled(&self) -> (n: usize)
        requires
            self.wf(),
        ensures
            n == self.hop_level(),
            n < HOP_SIZE,
    {
        self.hop_filled
    }

    /// Count one mono frame into the hop. A full hop slides into the window
    /// (which keeps its newest `WINDOW_SIZE` samples); once the window is
    /// full, every completed hop is analyzed.
    pub fn push_frame(&mut self) -> (e: HopEvent)
        requires
            old(self).wf(),
        ensures
            final(self).wf(),
            old(self).hop_level() + 1 < HOP_SIZE ==> e == HopEvent::Filling && final(self).hop_level() == old(self).hop_level() + 1 && final(self).window_level() == old(self).window_level(),
            old(self).hop_level() + 1 == HOP_SIZE ==> final(self).hop_level() == 0 && final(self).window_level() == slide(old(self).window_level()) && e == (if final(self).window_level() == WINDOW_SIZE {
                HopEvent::Analyze
            } else {
                HopEvent::Warming
            }),
    {
        self.hop_filled = self.hop_filled + 1;
        if self.hop_filled < HOP_SIZE {
            return HopEvent::Filling;
        }
        self.hop_filled = 0;
        self.window_filled = if self.window_filled + HOP_SIZE < WINDOW_SIZE {
            self.window_filled + HOP_SIZE
        } else {
            WINDOW_SIZE
        };
        if self.window_filled == WINDOW_SIZE {
            HopEvent::Analyze
        } else {
            HopEvent::Warming
        }
    }
}

/// The analysis cadence: counting frames from an empty clock, the `n`-th
/// frame completes a hop exactly when `n` is a multiple of `HOP_SIZE`, and
/// that hop is analyzed exactly when the window has also filled, from the
/// `WINDOW_SIZE`-th frame on.
pub proof fn law_analysis_cadence(frames: nat, hop: nat, window: nat, e: HopEvent)
    requires
        (hop, window) == levels_after(frames),
        hop + 1 < HOP_SIZE ==> e == HopEvent::Filling,
        hop + 1 == HOP_SIZE ==> e == (if slide(window) == WINDOW_SIZE {
            HopEvent::Analyze
        } else {
            HopEvent::Warming
        }),
    ensures
        e == event_at(frames + 1),
        hop + 1 < HOP_SIZE ==> (hop + 1, window) == levels_after(frames + 1),
        hop + 1 == HOP_SIZE ==> (0nat, slide(window)) == levels_after(frames + 1),
{
    let h = HOP_SIZE as nat;
    let q = frames / h;
    let r = frames % h;
    assert(frames == q * h + r) by (nonlinear_arith)
        requires
            h > 0,
            q == frames / h,
            r == frames % h,
    ;
    if r + 1 < h {
        assert((frames + 1) / h == q && (frames + 1) % h == r + 1) by (nonlinear_arith)
            requires
                h > 0,
                frames == q * h + r,
                0 <= r,
                r + 1 < h,
        ;
    } else {
        assert((frames + 1) / h == q + 1 && (frames + 1) % h == 0) by (nonlinear_arith)
            requires
                h > 0,
                frames == q * h + r,
                r + 1 == h,
        ;
        assert((q + 1) * h == q * h + h) by (nonlinear_arith);
    }
}

/// The refractory guard of beat detection: a hop over the threshold is a beat
/// only when no beat fired in the previous `REFRACTORY_HOPS` hops.
pub struct BeatGuard {
    refractory: u32,
}

impl BeatGuard {
    /// Hops left in the current refractory period.
    pub closed spec fn spec_refractory(&self) -> u32 {
        self.refractory
    }

    /// A guard clear for the first beat.
    pub fn new() -> (g: Self)
        ensures
            g.spec_refractory() == 0,
    {
        BeatGuard { refractory: 0 }
    }

    /// Decide one hop: a beat iff the hop is over the threshold and the guard
    /// is clear; a beat sets the guard for `REFRACTORY_HOPS` hops.
    pub fn step(&mut self, over_threshold: bool) -> (beat: bool)
        requires
            old(self).spec_refractory() <= REFRACTORY_HOPS,
        ensures
            beat == (over_threshold && old(self).spec_refractory() == 0),
            final(self).spec_refractory() == if beat {
                REFRACTORY_HOPS
            } else if old(self).spec_refractory() > 0 {
                (old(self).spec_refractory() - 1) as u32
            } else {
                0
            },
            final(self).spec_refractory() <= REFRACTORY_HOPS,
    {
        let beat = self.refractory == 0 && over_threshold;
        if beat {
            self.refractory = REFRACTORY_HOPS;
        } else {
            self.refractory = self.refractory.saturating_sub(1);
        }
        beat
    }
}

/// The guard's state after a run of hops, from a state `r`.
pub open spec fn guard_after(r: u32, over: Seq<bool>) -> u32
    decreases over.len(),
{
    if over.len() == 0 {
        r
    } else {
        let prev = guard_after(r, over.drop_last());
        let beat = over.last() && prev == 0;
        if beat {
            REFRACTORY_HOPS
        } else if prev > 0 {
            (prev - 1) as u32
        } else {
            0
        }
    }
}

/// Beats are spaced out: after a beat, none of the next `REFRACTORY_HOPS`
/// hops is a beat, whatever their flux.
pub proof fn law_refractory_spacing(over: Seq<bool>)
    requires
        over.len() <= REFRACTORY_HOPS,
    ensures
        guard_after(REFRACTORY_HOPS, over) == REFRACTORY_HOPS - over.len(),
        forall|k: int| 0 <= k < over.len() ==> guard_after(REFRACTORY_HOPS, over.take(k)) > 0,
    decreases over.len(),
{
    if over.len() > 0 {
        law_refractory_spacing(over.drop_last());
        assert forall|k: int| 0 <= k < over.len() implies guard_after(
            REFRACTORY_HOPS,
            over.take(k),
        ) > 0 by {
            if k < over.len() - 1 {
                assert(over.take(k) =~= over.drop_last().take(k));
            } else {
                assert(over.take(k) =~= over.drop_last());
            }
        }
    }
}

/// Whether the hop at index `k` of a run from guard state `r` is a beat.
pub open spec fn beat_at(r: u32, over: Seq<bool>, k: int) -> bool {
    over[k] && guard_after(r, over.take(k)) == 0
}

/// Beats are at least `REFRACTORY_HOPS + 1` hops apart: whatever the flux of
/// the `REFRACTORY_HOPS` hops after a beat, none of them is a beat, and the
/// guard is clear again for the hop after them.
pub proof fn law_beats_are_spaced(over: Seq<bool>)
    requires
        over.len() <= REFRACTORY_HOPS,
    ensures
        forall|k: int| 0 <= k < over.len() ==> !#[trigger] beat_at(REFRACTORY_HOPS, over, k),
        over.len() == REFRACTORY_HOPS ==> guard_after(REFRACTORY_HOPS, over) == 0,
{
    law_refractory_spacing(over);
}

/// A fresh guard lets the first hop over the threshold through.
pub proof fn law_first_hop_is_unguarded(over: Seq<bool>)
    requires
        over.len() >= 1,
    ensures
        beat_at(0, over, 0) == over[0],
{
    assert(over.take(0) =~= Seq::<bool>::empty());
}

/// Holds a beat from the hop that detected it until the render side takes
/// it, so a beat between two render frames is never lost.
pub struct BeatLatch {
    pending: bool,
}

impl BeatLatch {
    /// Whether a beat is waiting.
    pub closed spec fn spec_pending(&self) -> bool {
        self.pending
    }

    /// No beat waiting.
    pub fn new() -> (l: Self)
        ensures
            !l.spec_pending(),
    {
        BeatLatch { pending: false }
    }

    /// Note one analyzed hop's beat flag.
    pub fn note(&mut self, beat: bool)
        ensures
            final(self).spec_pending() == (old(self).spec_pending() || beat),
    {
        self.pending = self.pending || beat;
    }

    /// Whether any beat was noted since the last take; clears the latch.
    pub fn take(&mut self) -> (beat: bool)
        ensures
            beat == old(self).spec_pending(),
            !final(self).spec_pending(),
    {
        let b = self.pending;
        self.pending = false;
        b
    }
}

/// Whether a latch that started with `pending` holds a beat after noting
/// the beat flags `notes`, in order.
pub open spec fn latched(pending: bool, notes: Seq<bool>) -> bool
    decreases notes.len(),
{
    if notes.len() == 0 {
        pending
    } else {
        latched(pending, notes.drop_last()) || notes.last()
    }
}

/// A beat is never lost between two takes: after a take (which leaves the
/// latch clear), the next take returns true exactly when some hop noted
/// since then had a beat; with no beat noted in between (in particular with
/// nothing noted at all) it returns false.
pub proof fn law_take_reports_beats_since_last_take(notes: Seq<bool>)
    ensures
        latched(false, notes) <==> exists|i: int| 0 <= i < notes.len() && #[trigger] notes[i],
        latched(false, Seq::<bool>::empty()) == false,
        forall|b: bool| #[trigger] latched(false, notes.push(b)) == (latched(false, notes) || b),
    decreases notes.len(),
{
    if notes.len() > 0 {
        let init = notes.drop_last();
        law_take_reports_beats_since_last_take(init);
        if latched(false, init) {
            let i = choose|i: int| 0 <= i < init.len() && #[trigger] init[i];
            assert(notes[i]);
        }
        if notes.last() {
            assert(notes[notes.len() - 1]);
        }
        assert forall|i: int| 0 <= i < notes.len() && #[trigger] notes[i] implies latched(
            false,
            notes,
        ) by {
            if i < notes.len() - 1 {
                assert(init[i]);
            }
        }
    }
    assert forall|b: bool| #[trigger] latched(false, notes.push(b)) == (latched(false, notes) || b) by {
        assert(notes.push(b).drop_last() =~= notes);
    }
}

} // verus!
