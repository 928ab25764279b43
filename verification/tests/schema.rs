use lmv_core::schema::{validate_lsystem, LSystemError, SystemKind, MAX_LSYSTEM_DEPTH};

#[test]
fn system_names_round_trip() {
    let all = [
        SystemKind::FragmentField,
        SystemKind::Swarm,
        SystemKind::ParametricCurve,
        SystemKind::LSystem,
        SystemKind::StarPattern,
        SystemKind::ReactionDiffusion,
        SystemKind::Attractor,
    ];
    for k in all {
        assert_eq!(SystemKind::from_name(k.as_str()), Some(k));
    }
    assert_eq!(SystemKind::Swarm.as_str(), "swarm");
    assert_eq!(SystemKind::LSystem.as_str(), "lsystem");
    assert_eq!(SystemKind::from_name("reaction_diffusion"), Some(SystemKind::ReactionDiffusion));
    assert_eq!(SystemKind::from_name("does_not_exist"), None);
    assert_eq!(SystemKind::from_name("Swarm"), None);
}

fn rules(pairs: &[(&str, &str)]) -> Vec<(String, String)> {
    pairs
        .iter()
        .map(|(k, v)| (k.to_string(), v.to_string()))
        .collect()
}

#[test]
fn a_valid_table_is_kept_in_order_with_the_default_depth() {
    let t = validate_lsystem(
        Some("X".to_string()),
        rules(&[("X", "F[+X]F"), ("F", "FF")]),
        true,
        None,
    )
    .expect("valid table");
    assert_eq!(t.start, "X");
    assert_eq!(t.rules, vec![('X', "F[+X]F".to_string()), ('F', "FF".to_string())]);
    assert_eq!(t.max_depth, 4);

    let t = validate_lsystem(Some("F".to_string()), rules(&[("F", "F+F")]), true, Some(MAX_LSYSTEM_DEPTH))
        .expect("valid table");
    assert_eq!(t.max_depth, 7);
}

#[test]
fn each_lsystem_error_is_reported_in_check_order() {
    assert_eq!(
        validate_lsystem(None, rules(&[("F", "FF")]), true, None),
        Err(LSystemError::EmptyAxiom)
    );
    assert_eq!(
        validate_lsystem(Some(String::new()), rules(&[("AB", "x")]), false, Some(0)),
        Err(LSystemError::EmptyAxiom)
    );
    assert_eq!(
        validate_lsystem(
            Some("F".to_string()),
            rules(&[("F", "FF"), ("GG", "x"), ("", "y")]),
            true,
            None
        ),
        Err(LSystemError::RuleKeyNotOneChar("GG".to_string()))
    );
    assert_eq!(
        validate_lsystem(Some("F".to_string()), rules(&[("", "y")]), false, Some(9)),
        Err(LSystemError::RuleKeyNotOneChar(String::new()))
    );
    assert_eq!(
        validate_lsystem(Some("F".to_string()), Vec::new(), false, Some(0)),
        Err(LSystemError::NoRules)
    );
    assert_eq!(
        validate_lsystem(Some("F".to_string()), rules(&[("F", "FF")]), false, Some(0)),
        Err(LSystemError::AngleNotFinite)
    );
    assert_eq!(
        validate_lsystem(Some("F".to_string()), rules(&[("F", "FF")]), true, Some(0)),
        Err(LSystemError::DepthOutOfRange(0))
    );
    assert_eq!(
        validate_lsystem(Some("F".to_string()), rules(&[("F", "FF")]), true, Some(8)),
        Err(LSystemError::DepthOutOfRange(8))
    );
}

#[test]
fn a_multibyte_key_is_one_character() {
    let t = validate_lsystem(Some("é".to_string()), rules(&[("é", "ab")]), true, Some(1))
        .expect("valid table");
    assert_eq!(t.rules, vec![('é', "ab".to_string())]);
}
