use pairsync::staging::converted_path;
use pairsync::staging::garment_file;
use pairsync::staging::member_plan;
use pairsync::staging::model_file;
use pairsync::staging::path_in_dir;
use pairsync::staging::unit_plan;
use pairsync::staging::workspace_dir;
use pairsync::staging::StageError;

fn ids(v: &[&str]) -> Vec<String> {
    v.iter().map(|s| s.to_string()).collect()
}

#[test]
fn workspace_under_fixed_root() {
    assert_eq!(workspace_dir("ha1"), "temp/images/ha1");
}

#[test]
fn path_joins_with_slash() {
    assert_eq!(path_in_dir("temp/images/ha1", "x.png"), "temp/images/ha1/x.png");
}

#[test]
fn converted_path_swaps_extension() {
    assert_eq!(converted_path("d/x.png"), "d/x.jpg");
}

#[test]
fn converted_path_strips_repeated_source_extension() {
    assert_eq!(converted_path("x.png.png"), "x.jpg");
}

#[test]
fn converted_path_appends_to_other_extensions() {
    assert_eq!(converted_path("x.gif"), "x.gif.jpg");
}

#[test]
fn member_plan_names_staged_and_converted() {
    let p = member_plan("temp/images/ha1", &"ha1___model.png".to_string()).unwrap();
    assert_eq!(p.remote_key, "ha1___model.png");
    assert_eq!(p.staged_path, "temp/images/ha1/ha1___model.png");
    assert_eq!(p.converted_path, "temp/images/ha1/ha1___model.jpg");
}

#[test]
fn member_plan_rejects_empty_file_name() {
    assert!(member_plan("d", &"trailing/".to_string()).is_none());
}

#[test]
fn unit_plan_lays_out_the_whole_unit() {
    let members = ids(&["ha1___model.png", "ha1___garment.png"]);
    let p = unit_plan(&"ha1".to_string(), &members).unwrap();
    assert_eq!(p.workspace, "temp/images/ha1");
    assert_eq!(p.members.len(), 2);
    assert_eq!(p.members[0].staged_path, "temp/images/ha1/ha1___model.png");
    assert_eq!(p.members[0].converted_path, "temp/images/ha1/ha1___model.jpg");
    assert_eq!(p.members[1].converted_path, "temp/images/ha1/ha1___garment.jpg");
    // The conversion step produces exactly the files the invocation step
    // looks for under the role-based naming convention.
    assert_eq!(p.model_file, p.members[0].converted_path);
    assert_eq!(p.garment_file, p.members[1].converted_path);
}

#[test]
fn unit_plan_fails_on_invalid_member_name() {
    let members = ids(&["ok___model.png", "bad/"]);
    let e = match unit_plan(&"ok".to_string(), &members) {
        Err(e) => e,
        Ok(_) => panic!("an empty member file name must fail the plan"),
    };
    assert_eq!(e, StageError::InvalidFileName);
    assert_eq!(e.message(), "invalid file name");
}

#[test]
fn role_files_are_named_from_the_key() {
    assert_eq!(model_file("temp/images/to7", "to7"), "temp/images/to7/to7___model.jpg");
    assert_eq!(garment_file("temp/images/to7", "to7"), "temp/images/to7/to7___garment.jpg");
}
