use pairsync::grouping::group;
use pairsync::ids::file_name;
use pairsync::ids::find_sep;
use pairsync::ids::unit_key;

fn ids(v: &[&str]) -> Vec<String> {
    v.iter().map(|s| s.to_string()).collect()
}

#[test]
fn unit_key_takes_prefix_before_separator() {
    assert_eq!(unit_key("ha1___model.png"), Some("ha1".to_string()));
}

#[test]
fn unit_key_none_without_separator() {
    assert_eq!(unit_key("ha1model.png"), None);
    assert_eq!(unit_key("ha1__almost.png"), None);
    assert_eq!(unit_key(""), None);
}

#[test]
fn unit_key_uses_first_separator() {
    assert_eq!(unit_key("a___b___c"), Some("a".to_string()));
    assert_eq!(unit_key("___leading"), Some("".to_string()));
}

#[test]
fn find_sep_reports_first_position() {
    assert_eq!(find_sep("ab___cd"), Some(2));
    assert_eq!(find_sep("____"), Some(0));
    assert_eq!(find_sep("no-sep"), None);
}

#[test]
fn group_partitions_by_prefix() {
    let new_ids = ids(&[
        "ha1___model.png",
        "to2___model.png",
        "ha1___garment.png",
        "to2___garment.png",
    ]);
    let gs = group(&new_ids);
    assert_eq!(gs.len(), 2);
    assert_eq!(gs[0].key, "ha1");
    assert_eq!(gs[0].members, ids(&["ha1___model.png", "ha1___garment.png"]));
    assert_eq!(gs[1].key, "to2");
    assert_eq!(gs[1].members, ids(&["to2___model.png", "to2___garment.png"]));
}

#[test]
fn group_drops_ids_without_separator() {
    let new_ids = ids(&["stray.png", "ha1___model.png", "another"]);
    let gs = group(&new_ids);
    assert_eq!(gs.len(), 1);
    assert_eq!(gs[0].key, "ha1");
    assert_eq!(gs[0].members, ids(&["ha1___model.png"]));
}

#[test]
fn group_keeps_discovery_order_within_a_group() {
    let new_ids = ids(&["k___b", "k___a", "k___c"]);
    let gs = group(&new_ids);
    assert_eq!(gs.len(), 1);
    assert_eq!(gs[0].members, ids(&["k___b", "k___a", "k___c"]));
}

#[test]
fn group_of_nothing_is_empty() {
    let gs = group(&ids(&[]));
    assert_eq!(gs.len(), 0);
}

#[test]
fn file_name_splits_on_last_slash() {
    assert_eq!(file_name("a/b/c.png"), Some("c.png".to_string()));
    assert_eq!(file_name("plain.png"), Some("plain.png".to_string()));
    assert_eq!(file_name("dir/"), None);
    assert_eq!(file_name(""), None);
}
