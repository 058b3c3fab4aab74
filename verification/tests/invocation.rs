use pairsync::invoke::decide_unit;
use pairsync::invoke::invocation_for;
use pairsync::invoke::UnitDecision;

#[test]
fn ootd_code_resolves_the_full_template() {
    let inv = invocation_for(
        "ha1",
        &"temp/images/ha1/ha1___model.jpg".to_string(),
        &"temp/images/ha1/ha1___garment.jpg".to_string(),
    )
    .unwrap();
    assert_eq!(inv.program, "python");
    assert_eq!(
        inv.args,
        vec![
            "run_ootd.py".to_string(),
            "--model_path".to_string(),
            "temp/images/ha1/ha1___model.jpg".to_string(),
            "--cloth_path".to_string(),
            "temp/images/ha1/ha1___garment.jpg".to_string(),
            "--scale".to_string(),
            "0.5".to_string(),
            "--sample".to_string(),
            "1".to_string(),
        ]
    );
}

#[test]
fn viton_code_resolves_the_full_template() {
    let inv = invocation_for("to3", &"m.jpg".to_string(), &"g.jpg".to_string()).unwrap();
    assert_eq!(inv.program, "python");
    assert_eq!(
        inv.args,
        vec![
            "run_viton.py".to_string(),
            "--model".to_string(),
            "m.jpg".to_string(),
            "--garment".to_string(),
            "g.jpg".to_string(),
        ]
    );
}

#[test]
fn unknown_code_resolves_nothing() {
    assert!(invocation_for("zz1", &"m".to_string(), &"g".to_string()).is_none());
}

#[test]
fn short_key_resolves_nothing() {
    assert!(invocation_for("h", &"m".to_string(), &"g".to_string()).is_none());
    assert!(invocation_for("", &"m".to_string(), &"g".to_string()).is_none());
}

#[test]
fn missing_role_file_skips_before_type_check() {
    let d = decide_unit("ha1", &"m".to_string(), &"g".to_string(), true, false);
    assert!(matches!(d, UnitDecision::MissingRoleFile));
    let d = decide_unit("ha1", &"m".to_string(), &"g".to_string(), false, true);
    assert!(matches!(d, UnitDecision::MissingRoleFile));
}

#[test]
fn unknown_type_skips_with_both_files_present() {
    let d = decide_unit("zz1", &"m".to_string(), &"g".to_string(), true, true);
    assert!(matches!(d, UnitDecision::UnknownType));
}

#[test]
fn ready_unit_reaches_invocation() {
    let d = decide_unit("to3", &"m.jpg".to_string(), &"g.jpg".to_string(), true, true);
    match d {
        UnitDecision::Invoke(inv) => {
            assert_eq!(inv.program, "python");
            assert_eq!(inv.args[0], "run_viton.py");
        },
        _ => panic!("expected an invocation"),
    }
}
