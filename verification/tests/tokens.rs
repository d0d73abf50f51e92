use simgate::UserHandle;
use simgate::auth::Auth;

#[test]
fn issued_token_validates_once() {
    let mut auth = Auth::new();
    let user = UserHandle { id: 7 };
    let token = auth.generate_token(user, 1_000);
    assert_eq!(auth.validate_token(&token, 2_000), Some(user));
    assert_eq!(auth.validate_token(&token, 2_001), None);
    assert_eq!(auth.validate_token(&token, 2_002), None);
}

#[test]
fn token_is_64_alphanumeric_chars() {
    let mut auth = Auth::new();
    let token = auth.generate_token(UserHandle { id: 1 }, 0);
    assert_eq!(token.len(), 64);
    assert!(token.chars().all(|c| c.is_ascii_alphanumeric()));
}

#[test]
fn two_issued_tokens_differ() {
    let mut auth = Auth::new();
    let a = auth.generate_token(UserHandle { id: 1 }, 0);
    let b = auth.generate_token(UserHandle { id: 2 }, 0);
    assert_ne!(a, b);
    assert_eq!(auth.validate_token(&a, 1), Some(UserHandle { id: 1 }));
    assert_eq!(auth.validate_token(&b, 1), Some(UserHandle { id: 2 }));
}

#[test]
fn token_at_window_edge_still_validates() {
    let mut auth = Auth::new();
    let user = UserHandle { id: 3 };
    let token = auth.generate_token(user, 0);
    assert_eq!(auth.validate_token(&token, 60_000), Some(user));
}

#[test]
fn expired_token_rejected_even_on_first_use() {
    let mut auth = Auth::new();
    let token = auth.generate_token(UserHandle { id: 3 }, 0);
    assert_eq!(auth.validate_token(&token, 60_001), None);
    // the failed attempt consumed it all the same
    assert!(!auth.contains_token(&token));
}

#[test]
fn unknown_token_rejected() {
    let mut auth = Auth::new();
    assert_eq!(auth.validate_token("never-issued", 5), None);
}

#[test]
fn cleanup_removes_only_expired_records() {
    let mut auth = Auth::new();
    let stale = auth.generate_token(UserHandle { id: 1 }, 0);
    let fresh = auth.generate_token(UserHandle { id: 2 }, 50_000);
    auth.cleanup(60_001);
    assert!(!auth.contains_token(&stale));
    assert!(auth.contains_token(&fresh));
    // sweeping again changes nothing
    auth.cleanup(60_001);
    assert!(!auth.contains_token(&stale));
    assert!(auth.contains_token(&fresh));
    assert_eq!(auth.validate_token(&fresh, 60_002), Some(UserHandle { id: 2 }));
}

#[test]
fn cleanup_on_empty_store_is_a_no_op() {
    let mut auth = Auth::new();
    auth.cleanup(0);
    auth.cleanup(123_456);
    assert_eq!(auth.validate_token("anything", 0), None);
}

#[test]
fn cleanup_keeps_unexpired_unused_records() {
    let mut auth = Auth::new();
    let user = UserHandle { id: 9 };
    let token = auth.generate_token(user, 10_000);
    auth.cleanup(10_001);
    auth.cleanup(70_000);
    assert!(auth.contains_token(&token));
    assert_eq!(auth.validate_token(&token, 70_000), Some(user));
}
