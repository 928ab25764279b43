use lmv_core::lines::{lsystem_overflow, walk_segment_counts, CapOverflow, CurveFamily, MAX_SEGMENTS};

#[test]
fn walk_produces_one_segment_per_draw_step() {
    // A closed square: four forward steps.
    assert_eq!(walk_segment_counts("F+F+F+F", 100).0, 4, "four F steps -> four segments");
    // A branch: the bracketed F is a third segment.
    assert_eq!(walk_segment_counts("F[+F]F", 100).0, 3, "trunk + branch + trunk");
}

#[test]
fn the_segment_cap_truncates_and_reports_the_drop() {
    // Ten draw steps, but a cap of 3: seven are dropped and counted.
    let (kept, dropped) = walk_segment_counts("FFFFFFFFFF", 3);
    assert_eq!(kept, 3, "only the cap is kept");
    assert_eq!(dropped, 7, "the overflow is counted, never silent");
}

#[test]
fn g_draws_and_other_symbols_do_not() {
    assert_eq!(walk_segment_counts("FGfX+-[]|", 100), (2, 0));
    assert_eq!(walk_segment_counts("", 0), (0, 0));
    assert_eq!(walk_segment_counts("GG", 0), (0, 2));
}

#[test]
fn the_cap_is_twenty_thousand_segments() {
    let s = "F".repeat(MAX_SEGMENTS + 5);
    assert_eq!(walk_segment_counts(&s, MAX_SEGMENTS), (20_000, 5));
}

#[test]
fn cap_overflow_message() {
    let o = CapOverflow {
        dropped: 7,
        context: "depth 6".to_string(),
    };
    assert_eq!(
        o.message(),
        "geometry exceeded the 20000-segment cap at depth 6 (dropped 7 segment(s)); reduce the structure or its depth"
    );
}

#[test]
fn curve_families_are_named() {
    assert_eq!(CurveFamily::from_name("maurer_rose"), Some(CurveFamily::MaurerRose));
    assert_eq!(CurveFamily::from_name("lissajous"), None);
}

#[test]
fn oversized_lsystem_depths_surface_a_cap_overflow() {
    // Each F becomes ten: 10^4 segments fit at depth 4, 10^5 overflow at depth 5.
    let rules = [('F', "FFFFFFFFFF".to_string())];
    let o = lsystem_overflow("F", &rules, 6).expect("an oversized depth is reported");
    assert_eq!(o.context, "depth 5");
    assert_eq!(o.dropped, 100_000 - MAX_SEGMENTS);
    assert_eq!(lsystem_overflow("F", &rules, 4), None);
}

#[test]
fn a_grammar_within_the_cap_reports_no_overflow() {
    // The Koch edge has 4^7 = 16384 segments at the deepest allowed depth, and
    // depths past the clamp are not built.
    let koch = [('F', "F+F--F+F".to_string())];
    assert_eq!(lsystem_overflow("F", &koch, 7), None);
    assert_eq!(lsystem_overflow("F", &koch, 99), None);
    // A depth of 0 still builds depth 1.
    let wide = [('F', "F".repeat(20_001))];
    let o = lsystem_overflow("F", &wide, 0).expect("depth 1 overflows");
    assert_eq!(o.context, "depth 1");
    assert_eq!(o.dropped, 1);
}
