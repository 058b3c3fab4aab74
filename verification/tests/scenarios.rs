use pairsync::invoke::decide_unit;
use pairsync::invoke::UnitDecision;
use pairsync::staging::unit_plan;
use pairsync::tick::plan_listing;
use pairsync::tick::plan_tick;
use pairsync::tick::Baseline;
use pairsync::tick::TickOutcome;

fn ids(v: &[&str]) -> Vec<String> {
    v.iter().map(|s| s.to_string()).collect()
}

#[test]
fn valid_pair_is_planned_and_invoked() {
    let baseline = ids(&[]);
    let listing = ids(&["ha1___model.png", "ha1___garment.png"]);
    let units = plan_tick(&listing, &baseline);
    assert_eq!(units.len(), 1);
    assert_eq!(units[0].key, "ha1");
    assert_eq!(units[0].members, ids(&["ha1___model.png", "ha1___garment.png"]));

    let plan = unit_plan(&units[0].key, &units[0].members).unwrap();
    let d = decide_unit(&units[0].key, &plan.model_file, &plan.garment_file, true, true);
    match d {
        UnitDecision::Invoke(inv) => {
            assert_eq!(inv.program, "python");
            assert_eq!(inv.args[0], "run_ootd.py");
            assert_eq!(inv.args[2], "temp/images/ha1/ha1___model.jpg");
            assert_eq!(inv.args[4], "temp/images/ha1/ha1___garment.jpg");
        },
        _ => panic!("a complete, recognized pair must reach invocation"),
    }
}

#[test]
fn single_member_group_is_not_ready() {
    let baseline = ids(&[]);
    let listing = ids(&["to1___model.png"]);
    let units = plan_tick(&listing, &baseline);
    assert_eq!(units.len(), 0);
}

#[test]
fn three_member_group_is_not_ready() {
    let baseline = ids(&[]);
    let listing = ids(&["to1___a.png", "to1___b.png", "to1___c.png"]);
    let units = plan_tick(&listing, &baseline);
    assert_eq!(units.len(), 0);
}

#[test]
fn unrecognized_type_is_staged_but_skipped() {
    let baseline = ids(&[]);
    let listing = ids(&["zz1___a.png", "zz1___b.png"]);
    let units = plan_tick(&listing, &baseline);
    assert_eq!(units.len(), 1);

    let plan = unit_plan(&units[0].key, &units[0].members).unwrap();
    assert_eq!(plan.workspace, "temp/images/zz1");
    assert_eq!(plan.members[0].converted_path, "temp/images/zz1/zz1___a.jpg");
    assert_eq!(plan.members[1].converted_path, "temp/images/zz1/zz1___b.jpg");

    let d = decide_unit(&units[0].key, &plan.model_file, &plan.garment_file, true, true);
    assert!(matches!(d, UnitDecision::UnknownType));
}

#[test]
fn listing_failure_aborts_with_baseline_untouched() {
    let mut baseline = Baseline::new();
    baseline.commit(ids(&["seen.png"]));
    let outcome = plan_listing(Err("store unreachable".to_string()), &baseline);
    match outcome {
        TickOutcome::Abort(e) => assert_eq!(e, "store unreachable"),
        TickOutcome::Planned(_) => panic!("a listing failure must abort the tick"),
    }
    assert_eq!(baseline.files, ids(&["seen.png"]));
}

#[test]
fn successful_listing_plans_against_the_baseline() {
    let mut baseline = Baseline::new();
    baseline.commit(ids(&["ha1___model.png"]));
    let listing = ids(&["ha1___model.png", "ha2___model.png", "ha2___garment.png"]);
    let outcome = plan_listing(Ok(listing), &baseline);
    match outcome {
        TickOutcome::Planned(units) => {
            assert_eq!(units.len(), 1);
            assert_eq!(units[0].key, "ha2");
        },
        TickOutcome::Abort(_) => panic!("a successful listing must plan the tick"),
    }
}

#[test]
fn unrelated_units_are_planned_independently() {
    let baseline = ids(&[]);
    let listing = ids(&[
        "ha1___model.png",
        "ha1___garment.png",
        "ha2___model.png",
        "ha2___garment.png",
    ]);
    let units = plan_tick(&listing, &baseline);
    assert_eq!(units.len(), 2);
    assert_eq!(units[0].key, "ha1");
    assert_eq!(units[1].key, "ha2");

    // Whatever becomes of the first unit's processing, the second unit's
    // plan and invocation are decided from its own members alone.
    let plan2 = unit_plan(&units[1].key, &units[1].members).unwrap();
    let d = decide_unit(&units[1].key, &plan2.model_file, &plan2.garment_file, true, true);
    match d {
        UnitDecision::Invoke(inv) => {
            assert_eq!(inv.args[2], "temp/images/ha2/ha2___model.jpg");
        },
        _ => panic!("the second unit must still reach invocation"),
    }
}

#[test]
fn baseline_swap_hides_processed_objects_next_tick() {
    let mut baseline = Baseline::new();
    let first = ids(&["ha1___model.png", "ha1___garment.png"]);
    let units = plan_tick(&first, &baseline.files);
    assert_eq!(units.len(), 1);
    baseline.commit(first.clone());

    // Nothing new on the next tick: the same listing yields no unit.
    let units = plan_tick(&first, &baseline.files);
    assert_eq!(units.len(), 0);
}

#[test]
fn pair_split_across_ticks_is_never_grouped() {
    let mut baseline = Baseline::new();
    let first = ids(&["ha1___model.png"]);
    assert_eq!(plan_tick(&first, &baseline.files).len(), 0);
    baseline.commit(first);

    // The other half arrives a tick later: the earlier member is no longer
    // "new", so the pair is permanently missed.
    let second = ids(&["ha1___model.png", "ha1___garment.png"]);
    assert_eq!(plan_tick(&second, &baseline.files).len(), 0);
}
