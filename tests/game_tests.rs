use checkpoint::game::{
    apply_update, cover_payload, decode_cover, find_game, is_usable_home, Game, UpdateGameRequest,
};

fn game(id: &str) -> Game {
    let mut g = Game::new("Name".to_string(), "/saves".to_string(), None, None).unwrap();
    g.id = id.to_string();
    g
}

#[test]
fn new_game_has_fresh_id() {
    let a = Game::new("A".to_string(), "/s".to_string(), Some("a.exe".to_string()), None).unwrap();
    let b = Game::new("A".to_string(), "/s".to_string(), None, None).unwrap();
    assert_eq!(a.id.len(), 36);
    assert_ne!(a.id, b.id);
    assert_eq!(a.exe_name, Some("a.exe".to_string()));
}

#[test]
fn find_game_by_id() {
    let games = vec![game("a"), game("b"), game("b")];
    assert_eq!(find_game(&games, "b"), Some(1));
    assert_eq!(find_game(&games, "c"), None);
    assert_eq!(find_game(&vec![], "a"), None);
}

#[test]
fn update_replaces_given_fields() {
    let mut g = game("a");
    let req = UpdateGameRequest {
        game_id: "a".to_string(),
        name: Some("New".to_string()),
        save_location: None,
        exe_name: Some("n.exe".to_string()),
        cover_image: None,
    };
    apply_update(&mut g, req);
    assert_eq!(g.name, "New");
    assert_eq!(g.save_location, "/saves");
    assert_eq!(g.exe_name, Some("n.exe".to_string()));
    assert_eq!(g.id, "a");
}

#[test]
fn cover_payload_takes_data_url_body() {
    assert_eq!(cover_payload("data:image/png;base64,QUJD"), "QUJD");
    assert_eq!(cover_payload("QUJD"), "QUJD");
    assert_eq!(cover_payload("a,b,c"), "b");
    assert_eq!(cover_payload("a,"), "");
}

#[test]
fn cover_is_decoded_from_base64() {
    assert_eq!(decode_cover("data:image/png;base64,QUJD"), Some(b"ABC".to_vec()));
    assert_eq!(decode_cover("QUJD"), Some(b"ABC".to_vec()));
    assert_eq!(decode_cover("not base64!"), None);
}

#[test]
fn drive_roots_are_not_usable_homes() {
    assert!(!is_usable_home("C:\\"));
    assert!(!is_usable_home("C:/"));
    assert!(!is_usable_home("D:\\Users\\x\\C:\\"));
    assert!(!is_usable_home("/ab"));
    assert!(is_usable_home("/home/user"));
    assert!(is_usable_home("/abc"));
    assert!(!is_usable_home("/é"));
    assert!(is_usable_home("/éé"));
}
