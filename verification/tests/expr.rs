use lmv_core::expr::{compile, var_slot, BinOp, ExprError, Func, Node, VAR_COUNT};

#[test]
fn malformed_expressions_fail_to_compile_without_panicking() {
    for bad in [
        "bass * ",     // trailing operator
        "2 +* 3",      // operator where a value is expected
        "nope(1)",     // unknown function
        "unknownvar",  // unknown variable
        "clamp(1, 2)", // wrong arity
        "sin(1, 2)",   // wrong arity
        "1 @ 2",       // illegal character
        "(1 + 2",      // unbalanced parenthesis
        "1 2",         // trailing tokens
        "",            // empty
    ] {
        assert!(
            compile(bad).is_err(),
            "expression {bad:?} should fail to compile"
        );
    }
}

#[test]
fn each_error_variant_is_reported() {
    assert_eq!(compile("1 @ 2").unwrap_err(), ExprError::UnexpectedChar('@'));
    assert_eq!(
        compile("1.2.3").unwrap_err(),
        ExprError::BadNumber("1.2.3".to_string())
    );
    assert_eq!(compile(".").unwrap_err(), ExprError::BadNumber(".".to_string()));
    assert_eq!(
        compile("unknownvar").unwrap_err(),
        ExprError::UnknownIdent("unknownvar".to_string())
    );
    assert_eq!(
        compile("nope(1)").unwrap_err(),
        ExprError::UnknownIdent("nope".to_string())
    );
    assert_eq!(
        compile("clamp(1, 2)").unwrap_err(),
        ExprError::WrongArity {
            func: "clamp".to_string(),
            expected: 3,
            got: 2
        }
    );
    assert_eq!(
        compile("2 +* 3").unwrap_err(),
        ExprError::UnexpectedToken("*".to_string())
    );
    assert_eq!(compile("bass * ").unwrap_err(), ExprError::UnexpectedEnd);
    assert_eq!(compile("").unwrap_err(), ExprError::UnexpectedEnd);
    assert_eq!(compile("(1 + 2").unwrap_err(), ExprError::UnexpectedEnd);
    assert_eq!(compile("1 2").unwrap_err(), ExprError::TrailingTokens);
    assert_eq!(compile("1)").unwrap_err(), ExprError::TrailingTokens);
}

#[test]
fn error_messages() {
    assert_eq!(
        ExprError::UnexpectedChar('@').message(),
        "unexpected character '@'"
    );
    assert_eq!(
        ExprError::BadNumber("1.2.3".to_string()).message(),
        "invalid number '1.2.3'"
    );
    assert_eq!(
        ExprError::UnknownIdent("x".to_string()).message(),
        "unknown variable or function 'x'"
    );
    assert_eq!(
        ExprError::WrongArity {
            func: "clamp".to_string(),
            expected: 3,
            got: 2
        }
        .message(),
        "clamp() takes 3 argument(s), got 2"
    );
    assert_eq!(
        ExprError::UnexpectedToken(",".to_string()).message(),
        "unexpected token ','"
    );
    assert_eq!(
        ExprError::UnexpectedEnd.message(),
        "unexpected end of expression"
    );
    assert_eq!(
        ExprError::TrailingTokens.message(),
        "unexpected trailing tokens"
    );
}

fn num(n: &Node) -> &str {
    match n {
        Node::Const(s) => s.as_str(),
        other => panic!("expected a constant, got {other:?}"),
    }
}

#[test]
fn precedence_and_associativity_shape_the_tree() {
    // bass * 2 + 0.1 == (bass * 2) + 0.1
    let e = compile("bass * 2 + 0.1").expect("compiles");
    match e.root() {
        Node::Bin(BinOp::Add, l, r) => {
            assert_eq!(num(r), "0.1");
            match &**l {
                Node::Bin(BinOp::Mul, a, b) => {
                    assert!(matches!(**a, Node::Var(0)));
                    assert_eq!(num(b), "2");
                }
                other => panic!("unexpected left operand {other:?}"),
            }
        }
        other => panic!("unexpected root {other:?}"),
    }

    // 1 - 2 - 3 == (1 - 2) - 3
    let e = compile("1 - 2 - 3").expect("compiles");
    match e.root() {
        Node::Bin(BinOp::Sub, l, r) => {
            assert_eq!(num(r), "3");
            assert!(matches!(**l, Node::Bin(BinOp::Sub, _, _)));
        }
        other => panic!("unexpected root {other:?}"),
    }

    // Unary minus binds tighter than division: -a / b == (-a) / b
    let e = compile("-mid / 2").expect("compiles");
    match e.root() {
        Node::Bin(BinOp::Div, l, _) => match &**l {
            Node::Neg(inner) => assert!(matches!(**inner, Node::Var(1))),
            other => panic!("unexpected left operand {other:?}"),
        },
        other => panic!("unexpected root {other:?}"),
    }
}

#[test]
fn calls_carry_their_arguments_in_order() {
    let e = compile("clamp(bass, 0, 1)").expect("compiles");
    match e.root() {
        Node::Call(Func::Clamp, args) => {
            assert_eq!(args.len(), 3);
            assert!(matches!(args[0], Node::Var(0)));
            assert_eq!(num(&args[1]), "0");
            assert_eq!(num(&args[2]), "1");
        }
        other => panic!("unexpected root {other:?}"),
    }
    let e = compile("lerp(mid, treb, bar)").expect("compiles");
    assert!(matches!(e.root(), Node::Call(Func::Lerp, a) if a.len() == 3));
    for ok in ["sin(time)", "min(3, 5)", "max(3, 5)", "abs(0 - 4)", "floor(3.9)", "1.0 + beat * 0.5"] {
        assert!(compile(ok).is_ok(), "{ok:?} should compile");
    }
}

#[test]
fn variables_and_functions_are_named() {
    let names = ["bass", "mid", "treb", "onset", "beat", "bar", "time"];
    assert_eq!(names.len(), VAR_COUNT);
    for (i, n) in names.iter().enumerate() {
        assert_eq!(var_slot(n), Some(i));
    }
    assert_eq!(var_slot("Bass"), None);
    assert_eq!(var_slot(""), None);
    assert_eq!(Func::from_name("sin").map(Func::arity), Some(1));
    assert_eq!(Func::from_name("abs").map(Func::arity), Some(1));
    assert_eq!(Func::from_name("floor").map(Func::arity), Some(1));
    assert_eq!(Func::from_name("min").map(Func::arity), Some(2));
    assert_eq!(Func::from_name("max").map(Func::arity), Some(2));
    assert_eq!(Func::from_name("clamp").map(Func::arity), Some(3));
    assert_eq!(Func::from_name("lerp").map(Func::arity), Some(3));
    assert_eq!(Func::from_name("cos"), None);
}

#[test]
fn whitespace_is_unicode_white_space() {
    // Every character the tokenizer has no other use for either separates
    // tokens (white space) or is rejected as unexpected.
    for c in (0u32..=0x10FFFF).filter_map(char::from_u32) {
        if c.is_ascii_alphanumeric() || "_.+-*/(),".contains(c) {
            continue;
        }
        let src = format!("1{c}");
        let got = compile(&src);
        if c.is_whitespace() {
            assert!(got.is_ok(), "{c:?} is white space");
        } else {
            assert_eq!(got.unwrap_err(), ExprError::UnexpectedChar(c));
        }
    }
}

#[test]
fn numbers_are_accepted_exactly_when_they_parse() {
    let alphabet = ['0', '1', '9', '.'];
    let mut words: Vec<String> = vec![String::new()];
    for _ in 0..5 {
        let mut next = Vec::new();
        for w in &words {
            for c in alphabet {
                next.push(format!("{w}{c}"));
            }
        }
        for w in &next {
            let parses = w.parse::<f32>().is_ok();
            let got = compile(w);
            assert_eq!(got.is_ok(), parses, "{w:?}");
            match got {
                Ok(e) => assert_eq!(num(e.root()), w.as_str()),
                Err(err) => assert_eq!(err, ExprError::BadNumber(w.clone())),
            }
        }
        words = next;
    }
}

#[test]
fn unary_signs_nest() {
    let e = compile("--1").expect("compiles");
    match e.root() {
        Node::Neg(inner) => match &**inner {
            Node::Neg(x) => assert_eq!(num(x), "1"),
            other => panic!("unexpected operand {other:?}"),
        },
        other => panic!("unexpected root {other:?}"),
    }
    // A unary plus is dropped.
    let e = compile("+-+bass").expect("compiles");
    match e.root() {
        Node::Neg(inner) => assert!(matches!(**inner, Node::Var(0))),
        other => panic!("unexpected root {other:?}"),
    }
    assert_eq!(compile("-").unwrap_err(), ExprError::UnexpectedEnd);
    assert_eq!(
        compile("1 + )").unwrap_err(),
        ExprError::UnexpectedToken(")".to_string())
    );
}
