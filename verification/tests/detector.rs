use pairsync::detect::detect;

fn ids(v: &[&str]) -> Vec<String> {
    v.iter().map(|s| s.to_string()).collect()
}

#[test]
fn detect_reports_only_additions() {
    let current = ids(&["a.png", "b.png", "c.png"]);
    let baseline = ids(&["b.png"]);
    assert_eq!(detect(&current, &baseline), ids(&["a.png", "c.png"]));
}

#[test]
fn detect_empty_baseline_reports_everything() {
    let current = ids(&["x", "y"]);
    let baseline = ids(&[]);
    assert_eq!(detect(&current, &baseline), ids(&["x", "y"]));
}

#[test]
fn detect_no_change_reports_nothing() {
    let current = ids(&["x", "y"]);
    assert_eq!(detect(&current, &current.clone()), ids(&[]));
}

#[test]
fn detect_ignores_baseline_order() {
    let current = ids(&["a", "b", "c", "d"]);
    let one = ids(&["b", "d"]);
    let other = ids(&["d", "b"]);
    assert_eq!(detect(&current, &one), detect(&current, &other));
    assert_eq!(detect(&current, &one), ids(&["a", "c"]));
}

#[test]
fn detect_drops_deletions_silently() {
    let current = ids(&["kept"]);
    let baseline = ids(&["kept", "gone"]);
    assert_eq!(detect(&current, &baseline), ids(&[]));
}

#[test]
fn detect_twice_with_identical_inputs_is_identical() {
    let current = ids(&["p___1.png", "p___2.png", "q"]);
    let baseline = ids(&["q"]);
    let first = detect(&current, &baseline);
    let second = detect(&current, &baseline);
    assert_eq!(first, second);
    assert_eq!(current, ids(&["p___1.png", "p___2.png", "q"]));
    assert_eq!(baseline, ids(&["q"]));
}
