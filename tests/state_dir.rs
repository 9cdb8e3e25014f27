use wallpaper_controller::state_dir::{
    decide_candidate, join_path, record_file_path, state_dir_candidates, symlink_file_path,
    CandidateAction, StateDirCandidate,
};

fn views(c: &[StateDirCandidate]) -> Vec<(String, bool)> {
    c.iter().map(|c| (c.path.clone(), c.create_if_missing)).collect()
}

#[test]
fn join_adds_one_separator() {
    assert_eq!(join_path("/home/u", "x"), "/home/u/x");
    assert_eq!(join_path("/home/u/", "x"), "/home/u/x");
    assert_eq!(join_path("", "x"), "x");
    assert_eq!(join_path("/", "x"), "/x");
}

#[test]
fn record_and_symlink_paths() {
    assert_eq!(record_file_path("/s"), "/s/current_wallpaper");
    assert_eq!(symlink_file_path("/s"), "/s/current_wallpaper.symlink");
    assert_eq!(symlink_file_path("/s/"), "/s/current_wallpaper.symlink");
}

#[test]
fn candidates_in_order() {
    let c = state_dir_candidates(
        &Some("/state".to_string()),
        &Some("/data".to_string()),
        &Some("/home/u".to_string()),
    );
    assert_eq!(
        views(&c),
        vec![
            ("/state".to_string(), false),
            ("/data/wallpaper_controller".to_string(), true),
            ("/home/u/.wallpaper_controller".to_string(), true),
        ]
    );
    assert!(state_dir_candidates(&None, &None, &None).is_empty());
}

#[test]
fn explicit_directory_is_never_created() {
    let c = state_dir_candidates(&Some("/state".to_string()), &None, &Some("/home/u".to_string()));
    assert_eq!(decide_candidate(&c[0], true, true), CandidateAction::Accept);
    assert_eq!(decide_candidate(&c[0], false, false), CandidateAction::Skip);
    assert_eq!(decide_candidate(&c[0], true, false), CandidateAction::Skip);
}

#[test]
fn home_directory_created_then_reused() {
    let c = state_dir_candidates(&None, &None, &Some("/home/u".to_string()));
    assert_eq!(views(&c), vec![("/home/u/.wallpaper_controller".to_string(), true)]);
    assert_eq!(decide_candidate(&c[0], false, false), CandidateAction::Create);
    assert_eq!(decide_candidate(&c[0], true, true), CandidateAction::Accept);
    assert_eq!(decide_candidate(&c[0], true, false), CandidateAction::Skip);
}
