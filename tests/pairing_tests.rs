use checkpoint::pairing::PairingSession;

#[test]
fn first_delivery_is_kept() {
    let mut s = PairingSession::new();
    s.start();
    assert!(s.server_running);
    assert!(s.deliver("first".to_string()));
    assert!(!s.deliver("second".to_string()));
    assert_eq!(s.begin_wait(), Ok(()));
    assert_eq!(s.collect(), Some("first".to_string()));
    assert_eq!(s.collect(), None);
}

#[test]
fn only_one_waiter_per_flow() {
    let mut s = PairingSession::new();
    assert_eq!(s.begin_wait(), Ok(()));
    assert_eq!(
        s.begin_wait(),
        Err("OAuth flow not started. Please call start_oauth_server first.".to_string())
    );
    s.reset();
    assert_eq!(s.begin_wait(), Ok(()));
}

#[test]
fn reset_starts_a_clean_flow() {
    let mut s = PairingSession::new();
    s.start();
    s.deliver("c".to_string());
    s.stop();
    assert!(!s.server_running);
    s.reset();
    assert_eq!(s.code, None);
    assert!(s.sender_open && s.receiver_open && !s.server_running);
}
