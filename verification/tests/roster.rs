use lmv_core::roster::{system_slot, Roster};
use lmv_core::schema::SystemKind;

fn preset(name: &str) -> (String, ()) {
    (name.to_string(), ())
}

fn roster(names: &[&str]) -> Roster<()> {
    Roster::new(names.iter().map(|n| preset(n)).collect())
}

#[test]
fn names_are_yielded_in_roster_order() {
    let r = roster(&["alpha", "bravo", "charlie"]);
    let got: Vec<String> = r.names();
    assert_eq!(got, ["alpha", "bravo", "charlie"]);
}

#[test]
fn select_addresses_by_absolute_index() {
    let mut r = roster(&["alpha", "bravo", "charlie"]);
    assert_eq!(r.name(), "alpha"); // a fresh roster starts at index 0
    r.select(2);
    assert_eq!(r.name(), "charlie"); // the third entry
}

#[test]
fn out_of_range_select_is_a_no_op() {
    let mut r = roster(&["alpha", "bravo", "charlie"]);
    r.select(1);
    r.select(999); // past the end: unchanged, no panic, no wrap
    assert_eq!(r.name(), "bravo");
}

#[test]
fn set_presets_clamps_active_when_the_roster_shrinks() {
    let mut r = roster(&["alpha", "bravo", "charlie"]);
    r.select(2);
    r.set_presets(vec![preset("solo")]); // index 2 now out of range
    assert_eq!(r.name(), "solo");
}

#[test]
fn set_presets_keeps_an_in_range_index_and_ignores_an_empty_set() {
    let mut r = roster(&["alpha", "bravo", "charlie"]);
    r.select(1);
    r.set_presets(vec![preset("x"), preset("y")]);
    assert_eq!(r.name(), "y");
    r.set_presets(Vec::new());
    assert_eq!(r.names(), ["x", "y"]);
    assert_eq!(r.name(), "y");
}

#[test]
fn cycle_wraps_and_an_empty_roster_is_named() {
    let mut r = roster(&["alpha", "bravo"]);
    r.cycle();
    assert_eq!(r.name(), "bravo");
    r.cycle();
    assert_eq!(r.name(), "alpha");

    let mut empty = roster(&[]);
    empty.cycle();
    empty.select(0);
    assert_eq!(empty.name(), "no presets");
    assert!(empty.active_preset().is_none());
    assert!(empty.names().is_empty());
}

#[test]
fn select_by_name_finds_the_first_match() {
    let mut r = Roster::new(vec![
        ("alpha".to_string(), 1),
        ("bravo".to_string(), 2),
        ("bravo".to_string(), 3),
    ]);
    assert_eq!(r.position("bravo"), Some(1));
    assert_eq!(r.position("zulu"), None);
    assert!(r.select_by_name("bravo"));
    assert_eq!(r.active_preset(), Some(&2));
    assert!(!r.select_by_name("zulu"));
    assert_eq!(r.active_preset(), Some(&2));
}

#[test]
fn each_system_has_its_own_pipeline_slot() {
    let all = [
        SystemKind::FragmentField,
        SystemKind::Swarm,
        SystemKind::ParametricCurve,
        SystemKind::LSystem,
        SystemKind::StarPattern,
        SystemKind::ReactionDiffusion,
        SystemKind::Attractor,
    ];
    let slots: Vec<usize> = all.iter().map(|k| system_slot(*k)).collect();
    for (i, a) in slots.iter().enumerate() {
        for b in &slots[i + 1..] {
            assert_ne!(a, b);
        }
    }
}

#[test]
fn names_compare_by_whole_characters() {
    let r = Roster::new(vec![
        ("é".to_string(), 1),
        ("e".to_string(), 2),
        ("ée".to_string(), 3),
    ]);
    assert_eq!(r.position("e"), Some(1));
    assert_eq!(r.position("ée"), Some(2));
    assert_eq!(r.position("é"), Some(0));
    assert_eq!(r.position(""), None);
}
