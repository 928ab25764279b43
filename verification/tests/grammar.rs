use lmv_core::grammar::expand;

#[test]
fn expand_is_exact_and_deterministic() {
    // Fibonacci-word grammar: trivially hand-verifiable exact strings.
    let rules = [('A', "AB".to_string()), ('B', "A".to_string())];
    assert_eq!(expand("A", &rules, 0), "A");
    assert_eq!(expand("A", &rules, 1), "AB");
    assert_eq!(expand("A", &rules, 2), "ABA");
    assert_eq!(expand("A", &rules, 3), "ABAAB");
    assert_eq!(expand("A", &rules, 5), "ABAABABAABAAB");

    // Koch edge F -> "F+F--F+F".
    let koch = [('F', "F+F--F+F".to_string())];
    assert_eq!(expand("F", &koch, 1), "F+F--F+F");
    assert_eq!(
        expand("F", &koch, 2),
        "F+F--F+F+F+F--F+F--F+F--F+F+F+F--F+F"
    );

    // Determinism: the same inputs twice are identical.
    assert_eq!(expand("F", &koch, 3), expand("F", &koch, 3));
}

#[test]
fn characters_without_a_rule_pass_through() {
    // `+`, `-`, `[`, `]` have no rules and survive verbatim; only `X`/`F`
    // rewrite. A single expansion of the classic plant axiom.
    let rules = [('X', "F[+X]F".to_string()), ('F', "FF".to_string())];
    assert_eq!(expand("X", &rules, 1), "F[+X]F");
    assert_eq!(expand("X", &rules, 2), "FF[+F[+X]F]FF");
}

#[test]
fn the_first_matching_rule_wins() {
    let rules = [('A', "x".to_string()), ('A', "y".to_string())];
    assert_eq!(expand("AA", &rules, 1), "xx");
}

#[test]
fn no_rules_and_empty_start_are_fixed_points() {
    assert_eq!(expand("F+F", &[], 4), "F+F");
    let rules = [('F', "FF".to_string())];
    assert_eq!(expand("", &rules, 3), "");
}

#[test]
fn expansion_composes_over_depth() {
    let rules = [('A', "AB".to_string()), ('B', "A".to_string())];
    let two = expand("A", &rules, 2);
    assert_eq!(expand(&two, &rules, 3), expand("A", &rules, 5));
}

#[test]
fn rewriting_distributes_over_concatenation() {
    let rules = [('X', "F[+X]F".to_string()), ('F', "FF".to_string())];
    let joined = format!("{}{}", expand("X+", &rules, 1), expand("F-", &rules, 1));
    assert_eq!(expand("X+F-", &rules, 1), joined);
}

#[test]
fn non_ascii_characters_rewrite_too() {
    let rules = [('é', "ab".to_string())];
    assert_eq!(expand("éxé", &rules, 1), "abxab");
}

#[test]
fn expansion_distributes_over_concatenation_at_depth() {
    let rules = [('A', "AB".to_string()), ('B', "A".to_string())];
    let joined = format!("{}{}", expand("AB", &rules, 3), expand("BA", &rules, 3));
    assert_eq!(expand("ABBA", &rules, 3), joined);
}
