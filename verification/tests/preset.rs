use lmv_core::expr::{ExprError, Node};
use lmv_core::lines::CurveFamily;
use lmv_core::preset::{
    assemble_preset, compile_bindings, config_table, curve_config, lsystem_config,
    require_generator, ConfigTable, GeneratorFields, PresetError,
};
use lmv_core::schema::{LSystemError, SystemKind};

fn params(pairs: &[(&str, &str)]) -> Vec<(String, String)> {
    pairs
        .iter()
        .map(|(k, v)| (k.to_string(), v.to_string()))
        .collect()
}

#[test]
fn a_preset_head_resolves_system_name_and_bindings() {
    let p = params(&[("hue", "bass * 2"), ("warp", "sin(time)")]);
    let h = assemble_preset("fragment_field".to_string(), Some("Test Field".to_string()), &p)
        .expect("valid preset");
    assert_eq!(h.name, "Test Field");
    assert_eq!(h.system, SystemKind::FragmentField);
    assert_eq!(h.params.len(), 2);
    assert_eq!(h.params[0].name, "hue");
    assert_eq!(h.params[1].name, "warp");
    assert!(matches!(h.params[1].expr.root(), Node::Call(_, _)));
}

#[test]
fn an_omitted_name_defaults_to_the_system() {
    let h = assemble_preset("swarm".to_string(), None, &Vec::new()).expect("valid");
    assert_eq!(h.name, "swarm");
    assert_eq!(h.system, SystemKind::Swarm);
    assert!(h.params.is_empty());
}

#[test]
fn bad_presets_are_rejected_with_their_cause() {
    match assemble_preset("does_not_exist".to_string(), None, &params(&[("x", "bass * ")])) {
        Err(PresetError::UnknownSystem(s)) => assert_eq!(s, "does_not_exist"),
        other => panic!("expected an unknown system, got {other:?}"),
    }
    match assemble_preset("swarm".to_string(), None, &params(&[("x", "bass * ")])) {
        Err(PresetError::Expr { param, err }) => {
            assert_eq!(param, "x");
            assert_eq!(err, ExprError::UnexpectedEnd);
        }
        other => panic!("expected an expression error, got {other:?}"),
    }
}

#[test]
fn the_first_bad_parameter_is_reported() {
    let p = params(&[("a", "1"), ("b", "nope(1)"), ("c", "1 @ 2")]);
    match compile_bindings(&p) {
        Err(PresetError::Expr { param, err }) => {
            assert_eq!(param, "b");
            assert_eq!(err, ExprError::UnknownIdent("nope".to_string()));
        }
        other => panic!("expected an expression error, got {other:?}"),
    }
}

#[test]
fn curve_tables_select_a_known_family() {
    assert!(matches!(curve_config(None), Ok(None)));
    assert!(matches!(
        curve_config(Some("maurer_rose".to_string())),
        Ok(Some(CurveFamily::MaurerRose))
    ));
    match curve_config(Some("spirograph".to_string())) {
        Err(PresetError::UnknownCurveFamily(s)) => assert_eq!(s, "spirograph"),
        other => panic!("an unknown curve family must be rejected, got {other:?}"),
    }
}

#[test]
fn an_lsystem_needs_its_generator_table() {
    assert!(matches!(
        lsystem_config(None),
        Err(PresetError::MissingGenerator(SystemKind::LSystem))
    ));
    let fields = GeneratorFields {
        start: Some("F".to_string()),
        rules: params(&[("F", "F+F")]),
        angle_finite: true,
        max_depth: None,
    };
    let t = lsystem_config(Some(fields)).expect("valid table");
    assert_eq!(t.max_depth, 4);
    assert_eq!(t.rules, vec![('F', "F+F".to_string())]);
    let bad = GeneratorFields {
        start: Some("F".to_string()),
        rules: Vec::new(),
        angle_finite: true,
        max_depth: None,
    };
    assert!(matches!(
        lsystem_config(Some(bad)),
        Err(PresetError::LSystem(LSystemError::NoRules))
    ));
}

#[test]
fn each_system_reads_its_structural_table() {
    assert_eq!(config_table(SystemKind::ParametricCurve), ConfigTable::Curve);
    assert_eq!(config_table(SystemKind::LSystem), ConfigTable::Generator);
    assert_eq!(config_table(SystemKind::StarPattern), ConfigTable::Generator);
    assert_eq!(config_table(SystemKind::Attractor), ConfigTable::Particles);
    for k in [SystemKind::FragmentField, SystemKind::Swarm, SystemKind::ReactionDiffusion] {
        assert_eq!(config_table(k), ConfigTable::NoTable);
    }
}

#[test]
fn generator_systems_require_their_table() {
    assert!(matches!(
        require_generator(SystemKind::StarPattern, false),
        Err(PresetError::MissingGenerator(SystemKind::StarPattern))
    ));
    assert!(matches!(
        require_generator(SystemKind::LSystem, false),
        Err(PresetError::MissingGenerator(SystemKind::LSystem))
    ));
    assert!(require_generator(SystemKind::StarPattern, true).is_ok());
    assert!(require_generator(SystemKind::Swarm, false).is_ok());
}
