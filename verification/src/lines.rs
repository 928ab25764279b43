//! Line-geometry scene configuration: the segment cap, the curve families a
//! `[curve]` table may name, and the report of a truncation at the cap.
use vstd::prelude::*;

use crate::grammar::{expand, expansion, rules_view};
use crate::schema::MAX_LSYSTEM_DEPTH;
use crate::text::{decimal, decimal_string, str_eq};

verus! {

/// Fixed segment-buffer capacity for every line scene; any drop at the cap
/// is surfaced, never a silent cut.
pub const MAX_SEGMENTS: usize = 20_000;

/// Which parametric curve family a `[curve]` preset draws; unknown names are
/// rejected at load.
#[derive(Debug, Clone, Copy, PartialEq, Eq, Structural)]
pub enum CurveFamily {
    /// The Maurer rose: `sin(n * theta)` walked at a fixed angular step.
    MaurerRose,
}

/// The curve family a name denotes, if any.
pub open spec fn curve_family_of_name(name: Seq<char>) -> Option<CurveFamily> {
    if name == "maurer_rose"@ {
        Some(CurveFamily::MaurerRose)
    } else {
        None
    }
}

impl CurveFamily {
    /// Parse a `[curve] family` name, or `None` if unknown.
    pub fn from_name(name: &str) -> (r: Option<Self>)
        ensures
            r == curve_family_of_name(name@),
    {
        if str_eq(name, "maurer_rose") {
            Some(CurveFamily::MaurerRose)
        } else {
            None
        }
    }
}

/// Reported when building a line scene's geometry hit the `MAX_SEGMENTS`
/// cap and truncated.
#[derive(Debug, Clone, PartialEq, Eq)]
pub struct CapOverflow {
    /// How many draw segments were dropped at the cap.
    pub dropped: usize,
    /// Where the drop happened, for the surfaced message (e.g. `"depth 6"`).
    pub context: String,
}

impl CapOverflow {
    /// The surfaced description of the truncation.
    pub fn message(&self) -> (s: String)
        ensures
            s@ == "geometry exceeded the 20000-segment cap at "@ + self.context@
                + " (dropped "@ + decimal(self.dropped as nat)
                + " segment(s)); reduce the structure or its depth"@,
    {
        let mut s = String::new();
        s.append("geometry exceeded the 20000-segment cap at ");
        s.append(self.context.as_str());
        s.append(" (dropped ");
        s.append(decimal_string(self.dropped as u64).as_str());
        s.append(" segment(s)); reduce the structure or its depth");
        s
    }
}

/// How a walk of `steps` draw steps splits at a cap of `max`: the segments
/// kept and the ones dropped and counted.
pub open spec fn cap_split(steps: nat, max: nat) -> (nat, nat) {
    if steps <= max {
        (steps, 0)
    } else {
        (max, (steps - max) as nat)
    }
}

/// The draw steps of a turtle string: `F` and `G` draw a segment.
pub open spec fn draw_steps(s: Seq<char>) -> nat
    decreases s.len(),
{
    if s.len() == 0 {
        0
    } else {
        draw_steps(s.drop_last()) + if s.last() == 'F' || s.last() == 'G' {
            1nat
        } else {
            0nat
        }
    }
}

/// How a turtle walk of `s` splits at a cap of `max_segments`: the number of
/// segments kept and the number of draw steps dropped (the cap is never a
/// silent cut).
pub fn walk_segment_counts(s: &str, max_segments: usize) -> (r: (usize, usize))
    ensures
        (r.0 as nat, r.1 as nat) == cap_split(draw_steps(s@), max_segments as nat),
        r.0 <= max_segments,
{
    let total = s.unicode_len();
    let mut kept: usize = 0;
    let mut dropped: usize = 0;
    for ch in it: s.chars()
        invariant
            it.seq() == s@,
            total == s@.len(),
            (kept as nat, dropped as nat) == cap_split(
                draw_steps(s@.take(it.index() as int)),
                max_segments as nat,
            ),
            draw_steps(s@.take(it.index() as int)) <= it.index(),
            it.index() <= s@.len(),
    {
        let ghost k = it.index();
        assert(s@.take(k + 1).drop_last() =~= s@.take(k as int));
        if ch == 'F' || ch == 'G' {
            if kept < max_segments {
                kept = kept + 1;
            } else {
                dropped = dropped + 1;
            }
        }
    }
    assert(s@.take(s@.len() as int) =~= s@);
    (kept, dropped)
}

/// The L-system depth actually built for a requested `max_depth`: clamped to
/// `1..=MAX_LSYSTEM_DEPTH`.
pub open spec fn built_depth(max_depth: u32) -> nat {
    if max_depth < 1 {
        1
    } else if max_depth > MAX_LSYSTEM_DEPTH {
        MAX_LSYSTEM_DEPTH as nat
    } else {
        max_depth as nat
    }
}

/// The draw steps dropped at the cap when the grammar's depth-`d` expansion
/// is walked.
pub open spec fn depth_drop(start: Seq<char>, rules: Seq<(char, Seq<char>)>, d: nat) -> nat {
    cap_split(draw_steps(expansion(start, rules, d)), MAX_SEGMENTS as nat).1
}

/// The first depth in `lo..=hi` whose walk overflows the cap, if any.
pub open spec fn first_overflow_depth(
    start: Seq<char>,
    rules: Seq<(char, Seq<char>)>,
    lo: nat,
    hi: nat,
) -> Option<nat>
    decreases hi + 1 - lo,
{
    if lo > hi {
        None
    } else if depth_drop(start, rules, lo) > 0 {
        Some(lo)
    } else {
        first_overflow_depth(start, rules, lo + 1, hi)
    }
}

/// The cap truncation of an L-system's cached geometry: every depth from 1 to
/// the clamped `max_depth` is expanded and walked, and the first depth whose
/// walk drops segments at the cap is reported as `"depth <d>"` with the count
/// it dropped. `None` when every depth fits.
pub fn lsystem_overflow(start: &str, rules: &[(char, String)], max_depth: u32) -> (r: Option<
    CapOverflow,
>)
    ensures
        match first_overflow_depth(start@, rules_view(rules@), 1, built_depth(max_depth)) {
            Some(d) => r matches Some(o) && o.context@ == "depth "@ + decimal(d) && o.dropped
                == depth_drop(start@, rules_view(rules@), d),
            None => r is None,
        },
{
    let depth: u32 = if max_depth < 1 {
        1
    } else if max_depth > MAX_LSYSTEM_DEPTH {
        MAX_LSYSTEM_DEPTH
    } else {
        max_depth
    };
    let mut d: u32 = 1;
    while d <= depth
        invariant
            1 <= d <= depth + 1,
            depth == built_depth(max_depth),
            depth <= MAX_LSYSTEM_DEPTH,
            first_overflow_depth(start@, rules_view(rules@), 1, depth as nat)
                == first_overflow_depth(start@, rules_view(rules@), d as nat, depth as nat),
        decreases depth + 1 - d,
    {
        let grown = expand(start, rules, d);
        let (_, dropped) = walk_segment_counts(grown.as_str(), MAX_SEGMENTS);
        if dropped > 0 {
            let mut context = String::new();
            context.append("depth ");
            context.append(decimal_string(d as u64).as_str());
            return Some(CapOverflow { dropped, context });
        }
        d = d + 1;
    }
    None
}

/// The cap splits the draw steps exactly: kept plus dropped is every draw
/// step, nothing is dropped unless the cap is full, and nothing beyond the
/// cap is kept.
pub proof fn law_cap_is_never_silent(steps: nat, max: nat)
    ensures
        cap_split(steps, max).0 + cap_split(steps, max).1 == steps,
        cap_split(steps, max).0 <= max,
        cap_split(steps, max).1 > 0 ==> cap_split(steps, max).0 == max,
{
}

/// The built depth clamps the request to `1..=7`: every depth from 1 to
/// `MAX_LSYSTEM_DEPTH` (which is 7) is built as asked, 0 builds depth 1, and
/// anything deeper builds depth 7.
pub proof fn law_built_depth_clamps(max_depth: u32)
    ensures
        MAX_LSYSTEM_DEPTH == 7,
        1 <= max_depth <= 7 ==> built_depth(max_depth) == max_depth,
        max_depth == 0 ==> built_depth(max_depth) == 1,
        max_depth > 7 ==> built_depth(max_depth) == 7,
{
}

/// The overflow search looks at every depth in `lo..=hi` in order: it
/// reports the least depth there whose walk drops segments, with the drop at
/// that depth, and reports nothing only when no depth there drops any.
pub proof fn law_first_overflow_is_least(
    start: Seq<char>,
    rules: Seq<(char, Seq<char>)>,
    lo: nat,
    hi: nat,
)
    ensures
        match first_overflow_depth(start, rules, lo, hi) {
            Some(d) => lo <= d <= hi && draw_steps(expansion(start, rules, d)) > MAX_SEGMENTS
                && forall|e: nat|
                lo <= e < d ==> draw_steps(#[trigger] expansion(start, rules, e)) <= MAX_SEGMENTS,
            None => forall|e: nat|
                lo <= e <= hi ==> draw_steps(#[trigger] expansion(start, rules, e)) <= MAX_SEGMENTS,
        },
        forall|d: nat|
            #[trigger] depth_drop(start, rules, d) == if draw_steps(expansion(start, rules, d))
                > MAX_SEGMENTS {
                draw_steps(expansion(start, rules, d)) - MAX_SEGMENTS
            } else {
                0
            },
    decreases hi + 1 - lo,
{
    if lo <= hi {
        law_first_overflow_is_least(start, rules, lo + 1, hi);
    }
}

/// A turtle string draws one segment for each `F` and each `G` in it, and
/// for nothing else.
pub proof fn law_draw_steps_count_f_and_g(s: Seq<char>)
    ensures
        draw_steps(s) == s.filter(|c: char| c == 'F' || c == 'G').len(),
    decreases s.len(),
{
    reveal(Seq::filter);
    if s.len() > 0 {
        law_draw_steps_count_f_and_g(s.drop_last());
    }
}

} // verus!
