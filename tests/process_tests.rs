use checkpoint::process::{any_process_matches, is_process_running, lowercase, matches_lowered};

#[test]
fn test_is_process_running() {
    let result = is_process_running("nonexistent_process_12345.exe");
    assert!(result.is_ok());
    assert_eq!(result.unwrap(), false);
}

#[test]
fn exact_lowered_name_matches() {
    assert!(matches_lowered("game.exe", "game.exe"));
    assert!(matches_lowered("game", "game"));
}

#[test]
fn name_without_exe_suffix_matches() {
    assert!(matches_lowered("game.exe", "game"));
    assert!(!matches_lowered("game", "game.exe"));
    assert!(!matches_lowered("game.exe", "gam"));
    assert!(!matches_lowered(".ex", ""));
}

#[test]
fn matching_ignores_case() {
    let names = vec!["GAME".to_string(), "other".to_string()];
    assert!(any_process_matches("Game.EXE", &names));
    assert!(any_process_matches("game", &names));
    assert!(!any_process_matches("games", &names));
    assert!(!any_process_matches("game", &Vec::new()));
}

#[test]
fn lowercase_lowers() {
    assert_eq!(lowercase("Game.EXE"), "game.exe");
}
